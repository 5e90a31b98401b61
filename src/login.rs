//! The identity service's answer to a session check, and how it is judged.
use vstd::prelude::*;

verus! {

/// A signed property of a player's profile, such as skin data. Kept as
/// received.
pub struct AuthProperty {
    pub name: String,
    pub value: String,
    pub signature: String,
}

/// The body of the identity service's answer: the player's id (32 hex
/// digits, no dashes), name and signed properties.
pub struct AuthRespone {
    pub id: String,
    pub name: String,
    pub properties: Vec<AuthProperty>,
}

/// What came back from the identity service.
pub enum AuthReply {
    /// The service could not be reached or the answer could not be read.
    Unreachable,
    /// The service answered with this HTTP status; `body` is the parsed
    /// body, or `None` where it was empty or not of the expected shape.
    Answered { status: u16, body: Option<AuthRespone> },
}

/// Why authentication failed.
#[derive(Debug, Clone, Copy, PartialEq, Eq, Structural)]
pub enum AuthError {
    /// The identity service could not be reached.
    Network,
    /// The service says that the player has not joined this session.
    NotJoined,
    /// The body is not an answer of the expected shape.
    MalformedBody,
    /// The player id is not a UUID.
    BadUuid,
}

#[verifier::external_type_specification]
#[verifier::external_body]
pub struct ExUuidError(uuid::Error);

/// The 128-bit value of the UUID written in `s`, if `s` is one.
pub uninterp spec fn parsed_uuid(s: Seq<char>) -> Option<u128>;

/// Relies on `uuid::Uuid::parse_str` and `Uuid::as_u128`: whether the text is
/// a UUID, and its value, depend on the text alone.
#[verifier::external_body]
fn parse_uuid(s: &str) -> (r: Result<u128, uuid::Error>)
    ensures
        match r {
            Ok(v) => parsed_uuid(s@) == Some(v),
            Err(_) => parsed_uuid(s@) is None,
        },
{
    uuid::Uuid::parse_str(s).map(|u| u.as_u128())
}

/// The HTTP status of a positive answer.
pub const HTTP_OK: u16 = 200;

/// The verdict on a reply: the player's UUID, or why it is refused.
pub open spec fn auth_verdict(reply: AuthReply) -> Result<u128, AuthError> {
    match reply {
        AuthReply::Unreachable => Err(AuthError::Network),
        AuthReply::Answered { status, body } => if status != HTTP_OK {
            Err(AuthError::NotJoined)
        } else {
            match body {
                None => Err(AuthError::MalformedBody),
                Some(b) => match parsed_uuid(b.id@) {
                    None => Err(AuthError::BadUuid),
                    Some(u) => Ok(u),
                },
            }
        },
    }
}

/// Judges the identity service's reply: only a `200` answer whose body
/// parsed and whose id is a UUID admits the player. Returns the body, with
/// its properties, and the UUID.
pub fn verify_auth_reply(reply: AuthReply) -> (r: Result<(AuthRespone, u128), AuthError>)
    ensures
        match auth_verdict(reply) {
            Ok(u) => match reply {
                AuthReply::Answered { body: Some(b), .. } => r == Ok::<
                    (AuthRespone, u128),
                    AuthError,
                >((b, u)),
                _ => false,
            },
            Err(e) => r == Err::<(AuthRespone, u128), AuthError>(e),
        },
{
    match reply {
        AuthReply::Unreachable => Err(AuthError::Network),
        AuthReply::Answered { status, body } => {
            if status != HTTP_OK {
                Err(AuthError::NotJoined)
            } else {
                match body {
                    None => Err(AuthError::MalformedBody),
                    Some(b) => match parse_uuid(b.id.as_str()) {
                        Err(_) => Err(AuthError::BadUuid),
                        Ok(u) => Ok((b, u)),
                    },
                }
            }
        },
    }
}

} // verus!
