//! The per-connection protocol state machine. It takes one event at a time
//! (a frame's payload, or the identity service's reply) and says what the
//! connection does next; reading, writing and the HTTP call are the caller's.
use vstd::prelude::*;
use vstd::bytes::spec_u64_to_le_bytes;
use vstd::utf8::encode_utf8;
use crate::crypto::{
    bytes_view, check_encryption_response, encryption_check, server_hash, sha1_of, signed_hex, LoginError,
    ServerKeys, MAX_KEY_DER, SHARED_SECRET_LEN,
};
use crate::frame::{frame_bytes, write_frame, MAX_PACKET_LEN};
use crate::login::{auth_verdict, verify_auth_reply, AuthError, AuthProperty, AuthReply};
use crate::packets::{
    encryption_request_body, encryption_response_field, handshake_field, i64_field, pong,
    status_response, string_bytes, string_field, uuid_bytes, var_int_field, write_prefixed,
    EncryptionRequest, EncryptionResponse, Handshake, LoginSuccess, PacketBuf, ProtocolError,
    VERIFY_TOKEN_LEN,
};
use crate::varint::{var_int_bytes, write_var_int};

verus! {

broadcast use vstd::utf8::group_utf8_lib;

/// The longest status document, in bytes, that a connection sends: what a
/// packet of `MAX_PACKET_LEN` bytes holds after its id (one byte) and the
/// string's length (three bytes).
pub const MAX_STATUS_JSON: usize = 2_097_147;

/// Where a connection stands.
pub enum Phase {
    /// Waiting for the handshake.
    Handshaking,
    /// The status document is sent; a ping may follow.
    Status,
    /// Waiting for Login Start.
    LoginStart,
    /// An encryption request carrying `token` was sent to `username`.
    AwaitEncryption { username: String, token: Vec<u8> },
    /// The identity service is being asked about `username`, who sent
    /// `secret`.
    AwaitAuth { username: String, secret: Vec<u8> },
    /// Login succeeded; the session is handed on.
    Authenticated,
    /// The connection is over.
    Closed,
}

/// Why a connection is closed.
#[derive(Debug, Clone, Copy, PartialEq, Eq, Structural)]
pub enum ConnError {
    /// A packet could not be read.
    Protocol(ProtocolError),
    /// A packet id that the current phase does not expect.
    UnexpectedPacket,
    /// A handshake asking for a state other than status (1) or login (2).
    InvalidNextState,
    /// An identity-service reply where none was asked for.
    UnexpectedReply,
    /// The client went away before the exchange was over.
    PeerClosed,
    /// The cryptographic part of the login failed.
    Login(LoginError),
    /// The identity service did not confirm the player.
    Auth(AuthError),
}

/// What a successful login hands on to the play phase.
pub struct Session {
    /// The symmetric cipher key for all further traffic.
    pub shared_secret: Vec<u8>,
    pub uuid: u128,
    pub username: String,
    pub properties: Vec<AuthProperty>,
}

/// What the connection does next.
pub enum Action {
    /// Read the next frame.
    Read,
    /// Write this frame, then read the next.
    Send(Vec<u8>),
    /// Ask the identity service whether `username` joined the session with
    /// this hash, and hand its reply to `handle_auth`.
    Authenticate { username: String, server_hash: String },
    /// Write the login success frame and hand the session on.
    Finish { frame: Vec<u8>, session: Session },
    /// Write the frame, if any, and close: the exchange ended normally.
    End { last_frame: Option<Vec<u8>> },
    /// Write the disconnect frame, if any, and close on this error.
    Close { reason: ConnError, farewell: Option<Vec<u8>> },
}

/// The packet id of a payload, and the body after it.
pub open spec fn packet_id_of(p: Seq<u8>) -> Result<(i32, Seq<u8>), ProtocolError> {
    match var_int_field(p) {
        Err(e) => Err(e),
        Ok((id, n)) => Ok((id, p.subrange(n as int, p.len() as int))),
    }
}

/// A handshake packet: its id must be `0x00`.
pub open spec fn handshake_packet(p: Seq<u8>) -> Result<(i32, Seq<char>, u16, i32), ConnError> {
    match packet_id_of(p) {
        Err(e) => Err(ConnError::Protocol(e)),
        Ok((id, body)) => if id != 0 {
            Err(ConnError::UnexpectedPacket)
        } else {
            match handshake_field(body) {
                Err(e) => Err(ConnError::Protocol(e)),
                Ok((protocol, address, port, next_state, _)) => Ok(
                    (protocol, address, port, next_state),
                ),
            }
        },
    }
}

/// The phases of a login, in which a failure is told to the client.
pub open spec fn in_login(phase: Phase) -> bool {
    phase is LoginStart || phase is AwaitEncryption || phase is AwaitAuth
}

/// The chat text of the disconnect packet that ends a failed login.
pub open spec fn farewell_json(reason: ConnError) -> Seq<char> {
    match reason {
        ConnError::Auth(_) => "{\"text\":\"Unable to authenticate\"}"@,
        ConnError::Login(_) => "{\"text\":\"Encryption failed\"}"@,
        _ => "{\"text\":\"Protocol error\"}"@,
    }
}

/// The login disconnect frame (packet id `0x00`) for `reason`.
pub open spec fn farewell_bytes(reason: ConnError) -> Seq<u8> {
    frame_bytes(var_int_bytes(0) + string_bytes(farewell_json(reason)))
}

/// `r` closes the connection on `reason`, with a disconnect frame exactly
/// when a login was under way.
pub open spec fn is_close(r: Action, reason: ConnError, login: bool) -> bool {
    match r {
        Action::Close { reason: e, farewell } => e == reason && if login {
            farewell matches Some(f) && f@ == farewell_bytes(reason)
        } else {
            farewell is None
        },
        _ => false,
    }
}

/// The disconnect frame for `reason`.
pub fn farewell_frame(reason: ConnError) -> (r: Vec<u8>)
    ensures
        r@ == farewell_bytes(reason),
{
    let text: &str = match reason {
        ConnError::Auth(_) => "{\"text\":\"Unable to authenticate\"}",
        ConnError::Login(_) => "{\"text\":\"Encryption failed\"}",
        _ => "{\"text\":\"Protocol error\"}",
    };
    proof {
        reveal_strlit("{\"text\":\"Unable to authenticate\"}");
        reveal_strlit("{\"text\":\"Encryption failed\"}");
        reveal_strlit("{\"text\":\"Protocol error\"}");
        assert(vstd::utf8::is_ascii_chars(text@));
    }
    let mut body: Vec<u8> = Vec::new();
    write_var_int(&mut body, 0);
    write_prefixed(&mut body, text.as_bytes());
    proof {
        crate::varint::lemma_var_int_round_trip(0, seq![]);
        assert(var_int_bytes(0) + seq![] == var_int_bytes(0));
        assert(body@ == var_int_bytes(0) + string_bytes(farewell_json(reason)));
    }
    write_frame(body.as_slice())
}

/// One connection's state machine.
pub struct Connection {
    pub phase: Phase,
}

impl Connection {
    /// The secrets that a phase holds have their protocol lengths, and a
    /// user name fits in a packet.
    pub open spec fn wf(&self) -> bool {
        match self.phase {
            Phase::AwaitEncryption { username, token } => encode_utf8(username@).len()
                <= MAX_PACKET_LEN && token@.len() == VERIFY_TOKEN_LEN,
            Phase::AwaitAuth { username, secret } => encode_utf8(username@).len()
                <= MAX_PACKET_LEN && secret@.len() == SHARED_SECRET_LEN,
            _ => true,
        }
    }

    /// A connection that waits for its handshake.
    pub fn new() -> (r: Connection)
        ensures
            r.phase is Handshaking,
            r.wf(),
    {
        Connection { phase: Phase::Handshaking }
    }

    /// Closes the connection on `reason`.
    fn fail(&mut self, reason: ConnError) -> (r: Action)
        ensures
            is_close(r, reason, in_login(old(self).phase)),
            final(self).phase is Closed,
    {
        let login = match self.phase {
            Phase::LoginStart => true,
            Phase::AwaitEncryption { .. } => true,
            Phase::AwaitAuth { .. } => true,
            _ => false,
        };
        self.phase = Phase::Closed;
        if login {
            Action::Close { reason, farewell: Some(farewell_frame(reason)) }
        } else {
            Action::Close { reason, farewell: None }
        }
    }

    /// Takes the payload of the next frame read from the client.
    pub fn handle_frame(&mut self, keys: &ServerKeys, status_json: &String, payload: Vec<u8>) -> (r:
        Action)
        requires
            old(self).wf(),
            payload@.len() <= MAX_PACKET_LEN,
            encode_utf8(status_json@).len() <= MAX_STATUS_JSON,
            keys.der().len() <= MAX_KEY_DER,
        ensures
            final(self).wf(),
            match old(self).phase {
                Phase::Handshaking => match handshake_packet(payload@) {
                    Err(e) => is_close(r, e, false) && final(self).phase is Closed,
                    Ok((_, _, _, next_state)) => if next_state == 1 {
                        r matches Action::Send(f) && f@ == frame_bytes(
                            var_int_bytes(0) + string_bytes(status_json@),
                        ) && final(self).phase is Status
                    } else if next_state == 2 {
                        r is Read && final(self).phase is LoginStart
                    } else {
                        is_close(r, ConnError::InvalidNextState, false) && final(self).phase is Closed
                    },
                },
                Phase::Status => match packet_id_of(payload@) {
                    Err(e) => is_close(r, ConnError::Protocol(e), false) && final(self).phase is Closed,
                    Ok((id, body)) => if id == 0 {
                        r is Read && final(self).phase is Status
                    } else if id == 1 {
                        match i64_field(body) {
                            Err(e) => is_close(r, ConnError::Protocol(e), false) && final(self).phase is Closed,
                            Ok((v, _)) => r matches Action::End { last_frame: Some(f) } && f@
                                == frame_bytes(var_int_bytes(1) + spec_u64_to_le_bytes(v as u64))
                                && final(self).phase is Closed,
                        }
                    } else {
                        is_close(r, ConnError::UnexpectedPacket, false) && final(self).phase is Closed
                    },
                },
                Phase::LoginStart => match packet_id_of(payload@) {
                    Err(e) => is_close(r, ConnError::Protocol(e), true) && final(self).phase is Closed,
                    Ok((id, body)) => if id != 0 {
                        is_close(r, ConnError::UnexpectedPacket, true) && final(self).phase is Closed
                    } else {
                        match string_field(body) {
                            Err(e) => is_close(r, ConnError::Protocol(e), true) && final(self).phase is Closed,
                            Ok((name, _)) => sent_request(r, final(self).phase, name, keys.der()),
                        }
                    },
                },
                Phase::AwaitEncryption { username, token } => match packet_id_of(payload@) {
                    Err(e) => is_close(r, ConnError::Protocol(e), true) && final(self).phase is Closed,
                    Ok((id, body)) => if id != 1 {
                        is_close(r, ConnError::UnexpectedPacket, true) && final(self).phase is Closed
                    } else {
                        match encryption_response_field(body) {
                            Err(e) => is_close(r, ConnError::Protocol(e), true) && final(self).phase is Closed,
                            Ok((es, et, _)) => after_encryption(
                                r,
                                final(self).phase,
                                username@,
                                encryption_check(token@, keys.decrypts(et), keys.decrypts(es)),
                                keys.der(),
                            ),
                        }
                    },
                },
                _ => is_close(r, ConnError::UnexpectedPacket, in_login(old(self).phase)) && final(self).phase is Closed,
            },
    {
        match self.phase {
            Phase::Handshaking => self.on_handshake(status_json, payload),
            Phase::Status => self.on_status(payload),
            Phase::LoginStart => self.on_login_start(keys, payload),
            Phase::AwaitEncryption { .. } => self.on_encryption_frame(keys, payload),
            _ => self.fail(ConnError::UnexpectedPacket),
        }
    }

    fn on_handshake(&mut self, status_json: &String, payload: Vec<u8>) -> (r: Action)
        requires
            old(self).phase is Handshaking,
            encode_utf8(status_json@).len() <= MAX_STATUS_JSON,
        ensures
            final(self).wf(),
            match handshake_packet(payload@) {
                Err(e) => is_close(r, e, false) && final(self).phase is Closed,
                Ok((_, _, _, next_state)) => if next_state == 1 {
                    r matches Action::Send(f) && f@ == frame_bytes(
                        var_int_bytes(0) + string_bytes(status_json@),
                    ) && final(self).phase is Status
                } else if next_state == 2 {
                    r is Read && final(self).phase is LoginStart
                } else {
                    is_close(r, ConnError::InvalidNextState, false) && final(self).phase is Closed
                },
            },
    {
        let mut packet = match PacketBuf::from_payload(payload) {
            Ok(p) => p,
            Err(e) => return self.fail(ConnError::Protocol(e)),
        };
        if packet.id != 0 {
            return self.fail(ConnError::UnexpectedPacket);
        }
        let handshake = match Handshake::from_data(&mut packet) {
            Ok(h) => h,
            Err(e) => return self.fail(ConnError::Protocol(e)),
        };
        if handshake.next_state == 1 {
            self.phase = Phase::Status;
            Action::Send(status_response(status_json.clone()))
        } else if handshake.next_state == 2 {
            self.phase = Phase::LoginStart;
            Action::Read
        } else {
            self.fail(ConnError::InvalidNextState)
        }
    }

    fn on_status(&mut self, payload: Vec<u8>) -> (r: Action)
        requires
            old(self).phase is Status,
        ensures
            final(self).wf(),
            match packet_id_of(payload@) {
                Err(e) => is_close(r, ConnError::Protocol(e), false) && final(self).phase is Closed,
                Ok((id, body)) => if id == 0 {
                    r is Read && final(self).phase is Status
                } else if id == 1 {
                    match i64_field(body) {
                        Err(e) => is_close(r, ConnError::Protocol(e), false) && final(self).phase is Closed,
                        Ok((v, _)) => r matches Action::End { last_frame: Some(f) } && f@ == frame_bytes(
                            var_int_bytes(1) + spec_u64_to_le_bytes(v as u64),
                        ) && final(self).phase is Closed,
                    }
                } else {
                    is_close(r, ConnError::UnexpectedPacket, false) && final(self).phase is Closed
                },
            },
    {
        let mut packet = match PacketBuf::from_payload(payload) {
            Ok(p) => p,
            Err(e) => return self.fail(ConnError::Protocol(e)),
        };
        if packet.id == 0 {
            Action::Read
        } else if packet.id == 1 {
            match crate::packets::read_i64(&mut packet) {
                Ok(v) => {
                    self.phase = Phase::Closed;
                    Action::End { last_frame: Some(pong(v)) }
                },
                Err(e) => self.fail(ConnError::Protocol(e)),
            }
        } else {
            self.fail(ConnError::UnexpectedPacket)
        }
    }

    fn on_login_start(&mut self, keys: &ServerKeys, payload: Vec<u8>) -> (r: Action)
        requires
            old(self).phase is LoginStart,
            payload@.len() <= MAX_PACKET_LEN,
            keys.der().len() <= MAX_KEY_DER,
        ensures
            final(self).wf(),
            match packet_id_of(payload@) {
                Err(e) => is_close(r, ConnError::Protocol(e), true) && final(self).phase is Closed,
                Ok((id, body)) => if id != 0 {
                    is_close(r, ConnError::UnexpectedPacket, true) && final(self).phase is Closed
                } else {
                    match string_field(body) {
                        Err(e) => is_close(r, ConnError::Protocol(e), true) && final(self).phase is Closed,
                        Ok((name, _)) => sent_request(r, final(self).phase, name, keys.der()),
                    }
                },
            },
    {
        let ghost p = payload@;
        let mut packet = match PacketBuf::from_payload(payload) {
            Ok(p) => p,
            Err(e) => return self.fail(ConnError::Protocol(e)),
        };
        if packet.id != 0 {
            return self.fail(ConnError::UnexpectedPacket);
        }
        let ghost body = packet.rest();
        let username = match crate::packets::read_string(&mut packet) {
            Ok(s) => s,
            Err(e) => return self.fail(ConnError::Protocol(e)),
        };
        proof {
            // The name's UTF-8 bytes are the field's bytes, which lie inside the payload.
            let raw = crate::packets::prefixed_bytes_field(body)->Ok_0.0;
            assert(encode_utf8(username@) == raw);
        }
        let (request, token) = EncryptionRequest::new(keys.public_key_der().clone());
        self.phase = Phase::AwaitEncryption { username, token };
        Action::Send(request.encode())
    }

    fn on_encryption_frame(&mut self, keys: &ServerKeys, payload: Vec<u8>) -> (r: Action)
        requires
            old(self).phase is AwaitEncryption,
            old(self).wf(),
            keys.der().len() <= MAX_KEY_DER,
        ensures
            final(self).wf(),
            match (old(self).phase, packet_id_of(payload@)) {
                (Phase::AwaitEncryption { .. }, Err(e)) => is_close(r, ConnError::Protocol(e), true)
                    && final(self).phase is Closed,
                (Phase::AwaitEncryption { username, token }, Ok((id, body))) => if id != 1 {
                    is_close(r, ConnError::UnexpectedPacket, true) && final(self).phase is Closed
                } else {
                    match encryption_response_field(body) {
                        Err(e) => is_close(r, ConnError::Protocol(e), true) && final(self).phase is Closed,
                        Ok((es, et, _)) => after_encryption(
                            r,
                            final(self).phase,
                            username@,
                            encryption_check(token@, keys.decrypts(et), keys.decrypts(es)),
                            keys.der(),
                        ),
                    }
                },
                _ => false,
            },
    {
        let mut packet = match PacketBuf::from_payload(payload) {
            Ok(p) => p,
            Err(e) => return self.fail(ConnError::Protocol(e)),
        };
        if packet.id != 1 {
            return self.fail(ConnError::UnexpectedPacket);
        }
        let response = match EncryptionResponse::new(&mut packet) {
            Ok(v) => v,
            Err(e) => return self.fail(ConnError::Protocol(e)),
        };
        let secret = keys.decrypt(response.secret.as_slice());
        let token = keys.decrypt(response.token.as_slice());
        self.on_decrypted(keys, secret, token)
    }

    /// Goes on from what the client's encrypted secret and token decrypted
    /// to under the server's key (`None` where decryption failed): a
    /// matching token and a 16-byte secret lead to the identity check;
    /// anything else ends the login.
    pub fn on_decrypted(&mut self, keys: &ServerKeys, secret: Option<Vec<u8>>, token: Option<Vec<u8>>) -> (r:
        Action)
        requires
            old(self).phase is AwaitEncryption,
            old(self).wf(),
            keys.der().len() <= MAX_KEY_DER,
        ensures
            final(self).wf(),
            match old(self).phase {
                Phase::AwaitEncryption { username, token: sent } => match encryption_check(
                    sent@,
                    bytes_view(token),
                    bytes_view(secret),
                ) {
                    Err(e) => is_close(r, ConnError::Login(e), true) && final(self).phase is Closed,
                    Ok(k) => asked_identity(r, final(self).phase, username@, k, keys.der()),
                },
                _ => false,
            },
    {
        let ghost before = self.phase;
        let (username, sent) = match &self.phase {
            Phase::AwaitEncryption { username, token } => (username.clone(), token.clone()),
            _ => {
                return self.fail(ConnError::UnexpectedPacket);
            },
        };
        match check_encryption_response(sent.as_slice(), token, secret) {
            Err(e) => self.fail(ConnError::Login(e)),
            Ok(k) => {
                let empty: Vec<u8> = Vec::new();
                let hash = server_hash(empty.as_slice(), k.as_slice(), keys.public_key_der().as_slice());
                proof {
                    assert(empty@ + k@ + keys.der() == k@ + keys.der());
                }
                let name = username.clone();
                self.phase = Phase::AwaitAuth { username, secret: k };
                Action::Authenticate { username: name, server_hash: hash }
            },
        }
    }

    /// Takes the end of the client's stream, or a failed read. After the
    /// status document this ends the exchange normally, as it does once the
    /// connection is over; anywhere else it is an error.
    pub fn handle_closed(&mut self) -> (r: Action)
        ensures
            final(self).wf(),
            match old(self).phase {
                Phase::Status => r matches Action::End { last_frame: None } && final(self).phase is Closed,
                Phase::Closed => r matches Action::End { last_frame: None } && final(self).phase is Closed,
                Phase::Authenticated => r matches Action::End { last_frame: None }
                    && final(self).phase is Authenticated,
                _ => is_close(r, ConnError::PeerClosed, false) && final(self).phase is Closed,
            },
    {
        match self.phase {
            Phase::Status => {
                self.phase = Phase::Closed;
                Action::End { last_frame: None }
            },
            Phase::Closed => Action::End { last_frame: None },
            Phase::Authenticated => Action::End { last_frame: None },
            _ => {
                self.phase = Phase::Closed;
                Action::Close { reason: ConnError::PeerClosed, farewell: None }
            },
        }
    }

    /// Takes the identity service's reply: a confirmed player gets the
    /// login success frame and the session is handed on; any failure ends
    /// the login.
    pub fn handle_auth(&mut self, reply: AuthReply) -> (r: Action)
        requires
            old(self).wf(),
        ensures
            final(self).wf(),
            match old(self).phase {
                Phase::AwaitAuth { username, secret } => match auth_verdict(reply) {
                    Err(e) => is_close(r, ConnError::Auth(e), true) && final(self).phase is Closed,
                    Ok(u) => finished(r, reply, u, username@, secret@) && final(self).phase is Authenticated,
                },
                _ => is_close(r, ConnError::UnexpectedReply, in_login(old(self).phase))
                    && final(self).phase is Closed,
            },
    {
        let (username, secret) = match &self.phase {
            Phase::AwaitAuth { username, secret } => (username.clone(), secret.clone()),
            _ => {
                return self.fail(ConnError::UnexpectedReply);
            },
        };
        match verify_auth_reply(reply) {
            Err(e) => self.fail(ConnError::Auth(e)),
            Ok((answer, uuid)) => {
                let frame = LoginSuccess::new(uuid, username.clone()).encode();
                self.phase = Phase::Authenticated;
                let session = Session {
                    shared_secret: secret,
                    uuid,
                    username,
                    properties: answer.properties,
                };
                Action::Finish { frame, session }
            },
        }
    }
}

/// After Login Start from `name`: an encryption request with an empty
/// server id, the server's key and a fresh four-byte token is sent, and the
/// connection waits for the answer to that token.
pub open spec fn sent_request(r: Action, next: Phase, name: Seq<char>, der: Seq<u8>) -> bool {
    match (r, next) {
        (Action::Send(f), Phase::AwaitEncryption { username, token }) => username@ == name
            && token@.len() == VERIFY_TOKEN_LEN && f@ == frame_bytes(
            encryption_request_body(Seq::empty(), der, token@),
        ),
        _ => false,
    }
}

/// After a good encryption response: the identity service is asked about
/// `name` with the session hash of `secret`, and the connection waits for
/// its reply.
pub open spec fn asked_identity(r: Action, next: Phase, name: Seq<char>, secret: Seq<u8>, der: Seq<u8>) -> bool {
    match (r, next) {
        (Action::Authenticate { username, server_hash }, Phase::AwaitAuth { username: u2, secret: s2 }) => {
            &&& username@ == name
            &&& server_hash@ == signed_hex(sha1_of(secret + der))
            &&& u2@ == name
            &&& s2@ == secret
        },
        _ => false,
    }
}

/// After an encryption response from `name` was read and checked with
/// outcome `check`: a failure ends the login and is told to the client; a
/// shared secret leads to asking the identity service about `name` with its
/// session hash.
pub open spec fn after_encryption(
    r: Action,
    next: Phase,
    name: Seq<char>,
    check: Result<Seq<u8>, LoginError>,
    der: Seq<u8>,
) -> bool {
    match check {
        Err(e) => is_close(r, ConnError::Login(e), true) && next is Closed,
        Ok(k) => asked_identity(r, next, name, k, der),
    }
}

/// An encryption response whose token decrypts to anything but the token
/// that was sent, while its secret decrypts, ends the login with
/// `TokenMismatch`: the identity service is never asked and no session is
/// handed on.
pub proof fn lemma_token_mismatch_closes(
    r: Action,
    next: Phase,
    name: Seq<char>,
    sent: Seq<u8>,
    token: Seq<u8>,
    secret: Seq<u8>,
    der: Seq<u8>,
)
    requires
        token != sent,
        after_encryption(r, next, name, encryption_check(sent, Some(token), Some(secret)), der),
    ensures
        is_close(r, ConnError::Login(LoginError::TokenMismatch), true),
        next is Closed,
        !(r is Authenticate),
        !(r is Finish),
{
    crate::crypto::lemma_token_mismatch(sent, token, secret);
}

/// After a confirmed identity: the login success frame for `uuid` and
/// `name` is written and the session carries the secret, the UUID, the
/// name and the properties of the reply.
pub open spec fn finished(r: Action, reply: AuthReply, uuid: u128, name: Seq<char>, secret: Seq<u8>) -> bool {
    match (r, reply) {
        (Action::Finish { frame, session }, AuthReply::Answered { body: Some(b), .. }) => {
            &&& frame@ == frame_bytes(var_int_bytes(2) + uuid_bytes(uuid) + string_bytes(name))
            &&& session.shared_secret@ == secret
            &&& session.uuid == uuid
            &&& session.username@ == name
            &&& session.properties == b.properties
        },
        _ => false,
    }
}

} // verus!
