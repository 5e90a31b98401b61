use mc_gateway::login::{verify_auth_reply, AuthError, AuthProperty, AuthReply, AuthRespone};

fn answer(id: &str) -> AuthRespone {
    AuthRespone {
        id: id.to_string(),
        name: "Alice".to_string(),
        properties: vec![AuthProperty {
            name: "textures".to_string(),
            value: "abc".to_string(),
            signature: "sig".to_string(),
        }],
    }
}

#[test]
fn auth_unreachable() {
    assert_eq!(verify_auth_reply(AuthReply::Unreachable).err(), Some(AuthError::Network));
}

#[test]
fn auth_no_content_is_not_joined() {
    let r = verify_auth_reply(AuthReply::Answered { status: 204, body: None });
    assert_eq!(r.err(), Some(AuthError::NotJoined));
}

#[test]
fn auth_malformed_body() {
    let r = verify_auth_reply(AuthReply::Answered { status: 200, body: None });
    assert_eq!(r.err(), Some(AuthError::MalformedBody));
}

#[test]
fn auth_bad_uuid() {
    let r = verify_auth_reply(AuthReply::Answered { status: 200, body: Some(answer("not-a-uuid")) });
    assert_eq!(r.err(), Some(AuthError::BadUuid));
}

#[test]
fn auth_success_keeps_properties() {
    let r = verify_auth_reply(AuthReply::Answered {
        status: 200,
        body: Some(answer("82c47a214cbe4eeea72953a3b89ec6ee")),
    });
    let (body, uuid) = r.ok().unwrap();
    assert_eq!(uuid, 0x82c47a21_4cbe_4eee_a729_53a3b89ec6ee);
    assert_eq!(body.name, "Alice");
    assert_eq!(body.properties.len(), 1);
    assert_eq!(body.properties[0].value, "abc");
}
