use mc_gateway::connection::{Action, ConnError, Connection, Phase};
use mc_gateway::crypto::{server_hash, LoginError, ServerKeys};
use mc_gateway::frame::read_frame;
use mc_gateway::login::{AuthError, AuthProperty, AuthReply, AuthRespone};
use mc_gateway::packets::{read_bytes, read_string, write_prefixed, PacketBuf};
use rsa::{PaddingScheme, PublicKey, RsaPrivateKey, RsaPublicKey};

fn handshake(next_state: u8) -> Vec<u8> {
    let mut b = vec![0x00, 0xf5, 0x05, 0x09];
    b.extend_from_slice(b"localhost");
    b.extend_from_slice(&[0x63, 0xdd, next_state]);
    b
}

fn login_start(name: &str) -> Vec<u8> {
    let mut b = vec![0x00, name.len() as u8];
    b.extend_from_slice(name.as_bytes());
    b
}

fn keys() -> (ServerKeys, RsaPublicKey) {
    let mut rng = rand::rngs::OsRng;
    let private = RsaPrivateKey::new(&mut rng, 512).unwrap();
    let public = RsaPublicKey::from(&private);
    (ServerKeys::new(private).ok().unwrap(), public)
}

fn status_json() -> String {
    "{\"version\":{\"name\":\"1.18.1\",\"protocol\":757}}".to_string()
}

fn payload_of(frame: &[u8]) -> PacketBuf {
    let (payload, used) = read_frame(frame).unwrap().unwrap();
    assert_eq!(used, frame.len());
    PacketBuf::from_payload(payload).unwrap()
}

/// Runs a login up to the encryption request; returns the sent token and key.
fn reach_encryption(conn: &mut Connection, keys: &ServerKeys, name: &str) -> (Vec<u8>, Vec<u8>) {
    let json = status_json();
    assert!(matches!(conn.handle_frame(keys, &json, handshake(2)), Action::Read));
    assert!(matches!(conn.phase, Phase::LoginStart));
    let frame = match conn.handle_frame(keys, &json, login_start(name)) {
        Action::Send(f) => f,
        _ => panic!("expected an encryption request"),
    };
    let mut p = payload_of(&frame);
    assert_eq!(p.id, 0x01);
    assert_eq!(read_string(&mut p).unwrap(), "");
    let key_len = p.read_var_int().unwrap() as usize;
    let key = read_bytes(&mut p, key_len).unwrap();
    let token_len = p.read_var_int().unwrap() as usize;
    assert_eq!(token_len, 4);
    let token = read_bytes(&mut p, token_len).unwrap();
    assert_eq!(&key, keys.public_key_der());
    (token, key)
}

#[test]
fn status_exchange_without_ping() {
    let (keys, _) = keys();
    let json = status_json();
    let mut conn = Connection::new();
    let frame = match conn.handle_frame(&keys, &json, handshake(1)) {
        Action::Send(f) => f,
        _ => panic!("expected the status response"),
    };
    let mut p = payload_of(&frame);
    assert_eq!(p.id, 0x00);
    assert_eq!(read_string(&mut p).unwrap(), json);
    assert!(matches!(conn.phase, Phase::Status));
    assert!(matches!(conn.handle_closed(), Action::End { last_frame: None }));
    assert!(matches!(conn.phase, Phase::Closed));
}

#[test]
fn status_ping_is_echoed() {
    let (keys, _) = keys();
    let json = status_json();
    let mut conn = Connection::new();
    assert!(matches!(conn.handle_frame(&keys, &json, handshake(1)), Action::Send(_)));
    assert!(matches!(conn.handle_frame(&keys, &json, vec![0x00]), Action::Read));
    let ping = vec![0x01, 1, 2, 3, 4, 5, 6, 7, 8];
    match conn.handle_frame(&keys, &json, ping.clone()) {
        Action::End { last_frame: Some(f) } => {
            let mut expected = vec![0x09];
            expected.extend_from_slice(&ping);
            assert_eq!(f, expected);
        }
        _ => panic!("expected a pong"),
    }
    assert!(matches!(conn.phase, Phase::Closed));
}

#[test]
fn invalid_next_state_closes() {
    let (keys, _) = keys();
    let mut conn = Connection::new();
    let r = conn.handle_frame(&keys, &status_json(), handshake(3));
    assert!(matches!(r, Action::Close { reason: ConnError::InvalidNextState, farewell: None }));
    assert!(matches!(conn.phase, Phase::Closed));
}

#[test]
fn first_packet_must_be_handshake() {
    let (keys, _) = keys();
    let mut conn = Connection::new();
    let r = conn.handle_frame(&keys, &status_json(), vec![0x05, 0x00]);
    assert!(matches!(r, Action::Close { reason: ConnError::UnexpectedPacket, farewell: None }));
}

#[test]
fn truncated_handshake_closes() {
    let (keys, _) = keys();
    let mut conn = Connection::new();
    let r = conn.handle_frame(&keys, &status_json(), vec![0x00, 0xf5]);
    assert!(matches!(r, Action::Close { reason: ConnError::Protocol(_), farewell: None }));
}

#[test]
fn token_mismatch_stops_login() {
    let (keys, _) = keys();
    let mut conn = Connection::new();
    let (token, _) = reach_encryption(&mut conn, &keys, "Alice");
    let mut wrong = token.clone();
    wrong[0] ^= 0xff;
    let r = conn.on_decrypted(&keys, Some(vec![7; 16]), Some(wrong));
    match r {
        Action::Close { reason: ConnError::Login(LoginError::TokenMismatch), farewell: Some(f) } => {
            let mut p = payload_of(&f);
            assert_eq!(p.id, 0x00);
            assert!(read_string(&mut p).unwrap().contains("Encryption failed"));
        }
        _ => panic!("expected a token mismatch"),
    }
    assert!(matches!(conn.phase, Phase::Closed));
}

#[test]
fn auth_failure_closes_without_login_success() {
    let (keys, _) = keys();
    let mut conn = Connection::new();
    let (token, der) = reach_encryption(&mut conn, &keys, "Alice");
    let secret = vec![3u8; 16];
    match conn.on_decrypted(&keys, Some(secret.clone()), Some(token)) {
        Action::Authenticate { username, server_hash: h } => {
            assert_eq!(username, "Alice");
            assert_eq!(h, server_hash(&[], &secret, &der));
        }
        _ => panic!("expected an identity check"),
    }
    let r = conn.handle_auth(AuthReply::Answered { status: 204, body: None });
    match r {
        Action::Close { reason: ConnError::Auth(AuthError::NotJoined), farewell: Some(f) } => {
            let mut p = payload_of(&f);
            assert_eq!(p.id, 0x00);
            assert!(read_string(&mut p).unwrap().contains("Unable to authenticate"));
        }
        _ => panic!("expected an authentication failure"),
    }
    assert!(matches!(conn.phase, Phase::Closed));
}

#[test]
fn end_to_end_login() {
    let (keys, public) = keys();
    let json = status_json();
    let mut conn = Connection::new();
    let (token, der) = reach_encryption(&mut conn, &keys, "Alice");
    let mut rng = rand::rngs::OsRng;
    let secret: Vec<u8> = (100..116).collect();
    let enc_secret = public.encrypt(&mut rng, PaddingScheme::new_pkcs1v15_encrypt(), &secret).unwrap();
    let enc_token = public.encrypt(&mut rng, PaddingScheme::new_pkcs1v15_encrypt(), &token).unwrap();
    let mut response = vec![0x01];
    write_prefixed(&mut response, &enc_secret);
    write_prefixed(&mut response, &enc_token);
    match conn.handle_frame(&keys, &json, response) {
        Action::Authenticate { username, server_hash: h } => {
            assert_eq!(username, "Alice");
            assert_eq!(h, server_hash(&[], &secret, &der));
        }
        _ => panic!("expected an identity check"),
    }
    let uuid: u128 = 0x82c47a21_4cbe_4eee_a729_53a3b89ec6ee;
    let reply = AuthReply::Answered {
        status: 200,
        body: Some(AuthRespone {
            id: "82c47a214cbe4eeea72953a3b89ec6ee".to_string(),
            name: "Alice".to_string(),
            properties: vec![AuthProperty {
                name: "textures".to_string(),
                value: "v".to_string(),
                signature: "s".to_string(),
            }],
        }),
    };
    match conn.handle_auth(reply) {
        Action::Finish { frame, session } => {
            let mut p = payload_of(&frame);
            assert_eq!(p.id, 0x02);
            assert_eq!(read_bytes(&mut p, 16).unwrap(), uuid.to_be_bytes().to_vec());
            assert_eq!(read_string(&mut p).unwrap(), "Alice");
            assert_eq!(p.position, p.content.len());
            assert_eq!(session.uuid, uuid);
            assert_eq!(session.username, "Alice");
            assert_eq!(session.shared_secret, secret);
            assert_eq!(session.properties.len(), 1);
        }
        _ => panic!("expected login success"),
    }
    assert!(matches!(conn.phase, Phase::Authenticated));
}

#[test]
fn bad_encryption_ciphertext_fails_login() {
    let (keys, _) = keys();
    let json = status_json();
    let mut conn = Connection::new();
    reach_encryption(&mut conn, &keys, "Bob");
    let mut response = vec![0x01];
    write_prefixed(&mut response, &[1, 2, 3]);
    write_prefixed(&mut response, &[4, 5, 6]);
    let r = conn.handle_frame(&keys, &json, response);
    assert!(matches!(
        r,
        Action::Close { reason: ConnError::Login(LoginError::DecryptionError), farewell: Some(_) }
    ));
}

#[test]
fn reply_without_request_is_rejected() {
    let mut conn = Connection::new();
    let r = conn.handle_auth(AuthReply::Unreachable);
    assert!(matches!(r, Action::Close { reason: ConnError::UnexpectedReply, farewell: None }));
}

#[test]
fn peer_closing_mid_login_is_an_error() {
    let (keys, _) = keys();
    let mut conn = Connection::new();
    assert!(matches!(conn.handle_frame(&keys, &status_json(), handshake(2)), Action::Read));
    assert!(matches!(conn.handle_closed(), Action::Close { reason: ConnError::PeerClosed, .. }));
}

#[test]
fn farewell_frame_bytes() {
    let text = "{\"text\":\"Protocol error\"}";
    let mut expected = vec![(text.len() + 2) as u8, 0x00, text.len() as u8];
    expected.extend_from_slice(text.as_bytes());
    assert_eq!(mc_gateway::connection::farewell_frame(ConnError::UnexpectedPacket), expected);
}
