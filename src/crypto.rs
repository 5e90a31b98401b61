//! The cryptographic part of the login handshake: the server's key pair,
//! verify tokens, checking the client's encryption response, and the
//! session hash.
use vstd::prelude::*;
use rsa::pkcs8::ToPublicKey;
use rsa::{RsaPrivateKey, RsaPublicKey};
use sha1::Digest;
use crate::frame::append_slice;
use crate::packets::VERIFY_TOKEN_LEN;

verus! {

#[verifier::external_type_specification]
#[verifier::external_body]
pub struct ExRsaPrivateKey(rsa::RsaPrivateKey);

#[verifier::external_type_specification]
#[verifier::external_body]
pub struct ExRsaPublicKey(rsa::RsaPublicKey);

#[verifier::external_type_specification]
#[verifier::external_body]
pub struct ExRsaError(rsa::errors::Error);

#[verifier::external_type_specification]
#[verifier::external_body]
pub struct ExPkcs8Error(rsa::pkcs8::Error);

/// The length of the shared secret: an AES-128 key.
pub const SHARED_SECRET_LEN: usize = 16;

/// Why a login attempt failed in its cryptographic part.
#[derive(Debug, Clone, Copy, PartialEq, Eq, Structural)]
pub enum LoginError {
    /// The secret or the token did not decrypt under the server's key.
    DecryptionError,
    /// The decrypted verify token is not the one that was sent.
    TokenMismatch,
    /// The decrypted shared secret is not 16 bytes long.
    InvalidSecretLength,
}

/// The longest DER-encoded public key that the server sends.
pub const MAX_KEY_DER: usize = 0x1_0000;

/// Why the server's key pair could not be set up.
#[derive(Debug, Clone, Copy, PartialEq, Eq, Structural)]
pub enum KeyError {
    /// The public key could not be DER-encoded.
    Encoding,
    /// The encoded public key is longer than `MAX_KEY_DER`.
    TooLong,
}

/// Relies on `rand::random::<u8>`: one byte from the thread-local generator,
/// which is seeded from the operating system. Nothing is promised of its
/// value.
#[verifier::external_body]
fn random_byte() -> (r: u8) {
    rand::random::<u8>()
}

/// What `ciphertext` decrypts to under `key` with PKCS#1 v1.5 padding, or
/// `None` where it does not decrypt.
pub uninterp spec fn pkcs1_decrypted(key: RsaPrivateKey, ciphertext: Seq<u8>) -> Option<Seq<u8>>;

/// Relies on `RsaPrivateKey::decrypt` with PKCS#1 v1.5 padding: it decrypts
/// without blinding, so the result depends on the key and the ciphertext
/// alone; it returns an error, and does not panic, where the ciphertext does
/// not fit the key or its padding is wrong.
#[verifier::external_body]
fn rsa_decrypt(key: &RsaPrivateKey, ciphertext: &[u8]) -> (r: Result<Vec<u8>, rsa::errors::Error>)
    ensures
        match r {
            Ok(p) => pkcs1_decrypted(*key, ciphertext@) == Some(p@),
            Err(_) => pkcs1_decrypted(*key, ciphertext@) is None,
        },
{
    key.decrypt(rsa::PaddingScheme::PKCS1v15Encrypt, ciphertext)
}

/// The public half of `key`, DER-encoded as SubjectPublicKeyInfo, or `None`
/// where it cannot be encoded.
pub uninterp spec fn public_der_of(key: RsaPrivateKey) -> Option<Seq<u8>>;

/// Relies on `From<&RsaPrivateKey> for RsaPublicKey` (the modulus and the
/// public exponent of the key) and `ToPublicKey::to_public_key_der`: the
/// encoding depends on the key alone.
#[verifier::external_body]
fn private_key_public_der(key: &RsaPrivateKey) -> (r: Result<Vec<u8>, rsa::pkcs8::Error>)
    ensures
        match r {
            Ok(d) => public_der_of(*key) == Some(d@),
            Err(_) => public_der_of(*key) is None,
        },
{
    RsaPublicKey::from(key).to_public_key_der().map(|d| d.as_ref().to_vec())
}

/// The SHA-1 digest of `data`.
pub uninterp spec fn sha1_of(data: Seq<u8>) -> Seq<u8>;

/// Relies on `sha1::Sha1::digest`: the 20-byte SHA-1 digest of its input.
#[verifier::external_body]
fn sha1_digest(data: &[u8]) -> (r: Vec<u8>)
    ensures
        r@ == sha1_of(data@),
        r@.len() == 20,
{
    sha1::Sha1::digest(data).to_vec()
}

/// The value of `b` as an unsigned big-endian number.
pub open spec fn be_value(b: Seq<u8>) -> nat
    decreases b.len(),
{
    if b.len() == 0 {
        0
    } else {
        be_value(b.drop_last()) * 256 + b.last() as nat
    }
}

/// `256` to the power `n`.
pub open spec fn byte_weight(n: nat) -> nat
    decreases n,
{
    if n == 0 {
        1
    } else {
        256 * byte_weight((n - 1) as nat)
    }
}

/// The value of `b` as a two's complement big-endian number.
pub open spec fn signed_be_value(b: Seq<u8>) -> int {
    if b.len() > 0 && b[0] >= 128 {
        be_value(b) - byte_weight(b.len())
    } else {
        be_value(b) as int
    }
}

/// The lowercase hexadecimal digit for `d < 16`.
pub open spec fn hex_digit(d: nat) -> char {
    if d < 10 {
        (d + 48) as char
    } else {
        (d + 87) as char
    }
}

/// `n` in lowercase hexadecimal, without leading zeros.
pub open spec fn hex_digits(n: nat) -> Seq<char>
    decreases n,
{
    if n < 16 {
        seq![hex_digit(n)]
    } else {
        hex_digits(n / 16) + seq![hex_digit(n % 16)]
    }
}

/// `b` read as a signed big-endian number and written in lowercase
/// hexadecimal, with a minus sign where it is negative.
pub open spec fn signed_hex(b: Seq<u8>) -> Seq<char> {
    let v = signed_be_value(b);
    if v < 0 {
        seq!['-'] + hex_digits((-v) as nat)
    } else {
        hex_digits(v as nat)
    }
}

/// Relies on `num_bigint::BigInt::from_signed_bytes_be` (two's complement,
/// big-endian) and `BigInt::to_str_radix(16)` (lowercase digits, no leading
/// zeros, a `-` in front of a negative value).
#[verifier::external_body]
fn bigint_signed_hex(digest: &[u8]) -> (r: String)
    ensures
        r@ == signed_hex(digest@),
{
    num_bigint::BigInt::from_signed_bytes_be(digest).to_str_radix(16)
}

/// The server's key pair, made once and then only read.
pub struct ServerKeys {
    private: RsaPrivateKey,
    public_der: Vec<u8>,
}

impl ServerKeys {
    /// The public key, DER-encoded.
    pub closed spec fn der(&self) -> Seq<u8> {
        self.public_der@
    }

    /// What `ciphertext` decrypts to under the private key.
    pub closed spec fn decrypts(&self, ciphertext: Seq<u8>) -> Option<Seq<u8>> {
        pkcs1_decrypted(self.private, ciphertext)
    }

    /// Sets up the key pair around `private`: its public half is encoded
    /// once, and refused where it cannot be encoded or is longer than
    /// `MAX_KEY_DER`.
    pub fn new(private: RsaPrivateKey) -> (r: Result<ServerKeys, KeyError>)
        ensures
            match public_der_of(private) {
                Some(d) => if d.len() <= MAX_KEY_DER {
                    r matches Ok(k) && k.der() == d && forall|c: Seq<u8>| #[trigger]
                        k.decrypts(c) == pkcs1_decrypted(private, c)
                } else {
                    r == Err::<ServerKeys, KeyError>(KeyError::TooLong)
                },
                None => r == Err::<ServerKeys, KeyError>(KeyError::Encoding),
            },
    {
        match private_key_public_der(&private) {
            Ok(public_der) => {
                if public_der.len() > MAX_KEY_DER {
                    Err(KeyError::TooLong)
                } else {
                    Ok(ServerKeys { private, public_der })
                }
            },
            Err(_) => Err(KeyError::Encoding),
        }
    }

    /// The public key, DER-encoded.
    pub fn public_key_der(&self) -> (r: &Vec<u8>)
        ensures
            r@ == self.der(),
    {
        &self.public_der
    }

    /// Decrypts `ciphertext` with the private key (PKCS#1 v1.5); `None` where
    /// it does not decrypt.
    pub fn decrypt(&self, ciphertext: &[u8]) -> (r: Option<Vec<u8>>)
        ensures
            bytes_view(r) == self.decrypts(ciphertext@),
    {
        match rsa_decrypt(&self.private, ciphertext) {
            Ok(plain) => Some(plain),
            Err(_) => None,
        }
    }
}

/// A fresh verify token: four random bytes.
pub fn random_token() -> (r: Vec<u8>)
    ensures
        r@.len() == VERIFY_TOKEN_LEN,
{
    let mut token: Vec<u8> = Vec::new();
    while token.len() < VERIFY_TOKEN_LEN
        invariant
            token@.len() <= VERIFY_TOKEN_LEN,
        decreases VERIFY_TOKEN_LEN - token@.len(),
    {
        token.push(random_byte());
    }
    token
}

/// Whether `a` and `b` hold the same bytes.
pub fn bytes_equal(a: &[u8], b: &[u8]) -> (r: bool)
    ensures
        r == (a@ == b@),
{
    if a.len() != b.len() {
        return false;
    }
    let mut i: usize = 0;
    while i < a.len()
        invariant
            i <= a@.len(),
            a@.len() == b@.len(),
            forall|j: int| 0 <= j < i ==> a@[j] == b@[j],
        decreases a@.len() - i,
    {
        if a[i] != b[i] {
            return false;
        }
        i = i + 1;
    }
    assert(a@ =~= b@);
    true
}

/// The bytes held by `o`, if any.
pub open spec fn bytes_view(o: Option<Vec<u8>>) -> Option<Seq<u8>> {
    match o {
        Some(v) => Some(v@),
        None => None,
    }
}

/// The shared secret that a login goes on with, given the verify token that
/// was sent and what the token and the secret decrypted to (`None` where
/// decryption failed); or why the login stops.
pub open spec fn encryption_check(
    expected_token: Seq<u8>,
    token: Option<Seq<u8>>,
    secret: Option<Seq<u8>>,
) -> Result<Seq<u8>, LoginError> {
    match (token, secret) {
        (Some(t), Some(s)) => if t != expected_token {
            Err(LoginError::TokenMismatch)
        } else if s.len() != SHARED_SECRET_LEN {
            Err(LoginError::InvalidSecretLength)
        } else {
            Ok(s)
        },
        _ => Err(LoginError::DecryptionError),
    }
}

/// A verify token that decrypts to anything but the token that was sent
/// stops the login with `TokenMismatch`, whatever the secret: the login never
/// reaches the identity check.
pub proof fn lemma_token_mismatch(expected_token: Seq<u8>, token: Seq<u8>, secret: Seq<u8>)
    requires
        token != expected_token,
    ensures
        encryption_check(expected_token, Some(token), Some(secret)) == Err::<Seq<u8>, LoginError>(
            LoginError::TokenMismatch,
        ),
{
}

/// Checks the decrypted fields of an encryption response against the verify
/// token that was sent: both must have decrypted, the token must match and
/// the secret must be 16 bytes long. Returns the shared secret.
pub fn check_encryption_response(
    expected_token: &[u8],
    token: Option<Vec<u8>>,
    secret: Option<Vec<u8>>,
) -> (r: Result<Vec<u8>, LoginError>)
    ensures
        match encryption_check(expected_token@, bytes_view(token), bytes_view(secret)) {
            Ok(k) => r matches Ok(v) && v@ == k,
            Err(e) => r == Err::<Vec<u8>, LoginError>(e),
        },
{
    match (token, secret) {
        (Some(t), Some(s)) => {
            if !bytes_equal(t.as_slice(), expected_token) {
                Err(LoginError::TokenMismatch)
            } else if s.len() != SHARED_SECRET_LEN {
                Err(LoginError::InvalidSecretLength)
            } else {
                Ok(s)
            }
        },
        _ => Err(LoginError::DecryptionError),
    }
}

/// The session hash as the identity service expects it: the SHA-1 digest
/// read as a signed big-endian number, in lowercase hexadecimal.
pub fn digest_hex(digest: &[u8]) -> (r: String)
    ensures
        r@ == signed_hex(digest@),
{
    bigint_signed_hex(digest)
}

/// The session hash of a login: SHA-1 over the server id, the shared secret
/// and the DER-encoded public key, rendered by `digest_hex`.
pub fn server_hash(server_id: &[u8], secret: &[u8], key_der: &[u8]) -> (r: String)
    ensures
        r@ == signed_hex(sha1_of(server_id@ + secret@ + key_der@)),
{
    let mut data: Vec<u8> = Vec::new();
    append_slice(&mut data, server_id);
    append_slice(&mut data, secret);
    append_slice(&mut data, key_der);
    let digest = sha1_digest(data.as_slice());
    digest_hex(digest.as_slice())
}

} // verus!
