use mc_gateway::crypto::{
    bytes_equal, check_encryption_response, digest_hex, random_token, server_hash, LoginError,
    ServerKeys,
};
use rsa::{PaddingScheme, PublicKey, RsaPrivateKey, RsaPublicKey};

#[test]
fn server_hash_known_names() {
    assert_eq!(server_hash(b"Notch", &[], &[]), "4ed1f46bbe04bc756bcb17c0c7ce3e4632f06a48");
    assert_eq!(server_hash(b"jeb_", &[], &[]), "-7c9d5b0044c130109a5d7b5fb5c317c02b4e28c1");
    assert_eq!(server_hash(b"simon", &[], &[]), "88e16a1019277b15d58faf0541e11910eb756f6");
}

#[test]
fn server_hash_fixed_vector() {
    let secret: Vec<u8> = (1..=16).collect();
    let der = [
        0x30, 0x5c, 0x30, 0x0d, 0x06, 0x09, 0x2a, 0x86, 0x48, 0x86, 0xf7, 0x0d, 0x01, 0x01, 0x01,
        0x05, 0x00, 0x03, 0x4b, 0x00,
    ];
    assert_eq!(server_hash(&[], &secret, &der), "-5263ca79591ce1251c0db439f3dd73f0d1909bca");
    assert_eq!(server_hash(&[], &[0xff; 16], &der), "32e4be319c5977228fc31b6555e745e23cab2c68");
}

#[test]
fn digest_hex_signed() {
    assert_eq!(digest_hex(&[0x00, 0x0f]), "f");
    assert_eq!(digest_hex(&[0xff, 0xff]), "-1");
    assert_eq!(digest_hex(&[0x80, 0x00]), "-8000");
    assert_eq!(digest_hex(&[0x00, 0x00]), "0");
}

#[test]
fn token_mismatch_rejected() {
    let sent = [1, 2, 3, 4];
    let r = check_encryption_response(&sent, Some(vec![1, 2, 3, 5]), Some(vec![0; 16]));
    assert_eq!(r, Err(LoginError::TokenMismatch));
}

#[test]
fn decryption_failure_rejected() {
    let sent = [1, 2, 3, 4];
    assert_eq!(check_encryption_response(&sent, None, Some(vec![0; 16])), Err(LoginError::DecryptionError));
    assert_eq!(check_encryption_response(&sent, Some(sent.to_vec()), None), Err(LoginError::DecryptionError));
}

#[test]
fn secret_length_checked() {
    let sent = [1, 2, 3, 4];
    assert_eq!(
        check_encryption_response(&sent, Some(sent.to_vec()), Some(vec![0; 15])),
        Err(LoginError::InvalidSecretLength)
    );
    let secret: Vec<u8> = (0..16).collect();
    assert_eq!(check_encryption_response(&sent, Some(sent.to_vec()), Some(secret.clone())), Ok(secret));
}

#[test]
fn bytes_equal_compares() {
    assert!(bytes_equal(&[1, 2], &[1, 2]));
    assert!(!bytes_equal(&[1, 2], &[1, 3]));
    assert!(!bytes_equal(&[1, 2], &[1, 2, 3]));
    assert!(bytes_equal(&[], &[]));
}

#[test]
fn random_token_has_four_bytes() {
    assert_eq!(random_token().len(), 4);
}

#[test]
fn server_keys_decrypt_round_trip() {
    let mut rng = rand::rngs::OsRng;
    let private = RsaPrivateKey::new(&mut rng, 512).unwrap();
    let public = RsaPublicKey::from(&private);
    let keys = ServerKeys::new(private).ok().unwrap();
    assert!(keys.public_key_der().len() > 64);
    assert_eq!(keys.public_key_der()[0], 0x30);
    let secret: Vec<u8> = (0..16).collect();
    let enc = public.encrypt(&mut rng, PaddingScheme::new_pkcs1v15_encrypt(), &secret).unwrap();
    assert_eq!(keys.decrypt(&enc), Some(secret));
    assert_eq!(keys.decrypt(&[1, 2, 3]), None);
}
