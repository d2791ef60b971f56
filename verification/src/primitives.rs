//! The cryptographic primitives, each behind one function whose contract says
//! what the library relies on. Nothing in this file is proved: a contract here
//! restates what the primitive's crate documents or its source shows, and the
//! rest of the library is proved from these contracts alone.
use aes_gcm::aead::{Aead, KeyInit, Payload};
use base64::Engine;
use ml_kem::kem::{Decapsulate, Encapsulate};
use ml_kem::{EncodedSizeUser, KemCore};
use rsa::pkcs8::{DecodePrivateKey, DecodePublicKey, EncodePrivateKey, EncodePublicKey};
use rsa::traits::PrivateKeyParts;
use sha2::Digest;
use vstd::prelude::*;
use vstd::string::*;
use zeroize::Zeroize;

verus! {

/// `aead::Error`: the one error of both payload ciphers. It carries nothing.
#[verifier::external_type_specification]
#[verifier::external_body]
pub struct ExAeadError(aes_gcm::aead::Error);

/// `rsa::Error`: why an RSA operation was refused.
#[verifier::external_type_specification]
#[verifier::external_body]
pub struct ExRsaError(rsa::Error);

/// The longest document that a key is written in or read from, in bytes.
pub const DER_MAX: usize = 0xFFF_FFFF;

/// The longest message that one call of either payload cipher takes, in bytes.
pub const AEAD_MAX: u64 = 0x10_0000_0000;

/// These bytes came out.
pub open spec fn made(bytes: Seq<u8>) -> Result<Seq<u8>, Seq<char>> {
    Ok(bytes)
}

/// Nothing came out, and this was said.
pub open spec fn said(text: Seq<char>) -> Result<Seq<u8>, Seq<char>> {
    Err(text)
}

// ------------------------------------------------------------- AES-256-GCM

/// What AES-256-GCM makes of `msg` under `key`, `nonce` and `aad`: the
/// encrypted message, then its 16 byte tag.
pub uninterp spec fn aes_sealed(key: Seq<u8>, nonce: Seq<u8>, aad: Seq<u8>, msg: Seq<u8>) -> Seq<u8>;

/// What AES-256-GCM reads out of `ct`, or nothing where the tag does not fit.
pub uninterp spec fn aes_opened(key: Seq<u8>, nonce: Seq<u8>, aad: Seq<u8>, ct: Seq<u8>) -> Option<Seq<u8>>;

/// Calls `Aes256Gcm::encrypt`. It succeeds up to `AEAD_MAX` bytes, its result
/// depends on the arguments alone and is 16 bytes longer than the message, and
/// decrypting it under the same key, nonce and associated data gives the
/// message back.
#[verifier::external_body]
pub(crate) fn aes_seal(key: &[u8; 32], nonce: &[u8; 12], aad: &[u8], msg: &[u8]) -> (res: Result<
    Vec<u8>,
    aes_gcm::aead::Error,
>)
    requires
        aad@.len() <= AEAD_MAX,
        msg@.len() + 16 <= isize::MAX,
    ensures
        res is Ok <==> msg@.len() <= AEAD_MAX,
        res matches Ok(ct) ==> ct@ == aes_sealed(key@, nonce@, aad@, msg@),
        res matches Ok(ct) ==> ct@.len() == msg@.len() + 16,
        res matches Ok(ct) ==> aes_opened(key@, nonce@, aad@, ct@) == Some(msg@),
{
    aes_gcm::Aes256Gcm::new(key.into()).encrypt(nonce.into(), Payload { msg, aad })
}

/// Calls `Aes256Gcm::decrypt`. Its result depends on the arguments alone. A
/// message that comes out is 16 bytes shorter than what went in, and
/// encrypting it again gives exactly what went in.
#[verifier::external_body]
pub(crate) fn aes_open(key: &[u8; 32], nonce: &[u8; 12], aad: &[u8], ct: &[u8]) -> (res: Result<
    Vec<u8>,
    aes_gcm::aead::Error,
>)
    requires
        aad@.len() <= AEAD_MAX,
    ensures
        match res {
            Ok(msg) => aes_opened(key@, nonce@, aad@, ct@) == Some(msg@),
            Err(_) => aes_opened(key@, nonce@, aad@, ct@) is None,
        },
        res matches Ok(msg) ==> msg@.len() + 16 == ct@.len(),
        res matches Ok(msg) ==> msg@.len() <= AEAD_MAX ==> aes_sealed(
            key@,
            nonce@,
            aad@,
            msg@,
        ) == ct@,
{
    aes_gcm::Aes256Gcm::new(key.into()).decrypt(nonce.into(), Payload { msg: ct, aad })
}

// ------------------------------------------------------- ChaCha20-Poly1305

/// What ChaCha20-Poly1305 makes of `msg` under `key`, `nonce` and `aad`: the
/// encrypted message, then its 16 byte tag.
pub uninterp spec fn chacha_sealed(key: Seq<u8>, nonce: Seq<u8>, aad: Seq<u8>, msg: Seq<u8>) -> Seq<u8>;

/// What ChaCha20-Poly1305 reads out of `ct`, or nothing where the tag does not
/// fit.
pub uninterp spec fn chacha_opened(key: Seq<u8>, nonce: Seq<u8>, aad: Seq<u8>, ct: Seq<u8>) -> Option<Seq<u8>>;

/// Calls `ChaCha20Poly1305::encrypt`. Up to `AEAD_MAX` bytes it succeeds, its
/// result depends on the arguments alone and is 16 bytes longer than the
/// message, and decrypting it under the same key, nonce and associated data
/// gives the message back.
#[verifier::external_body]
pub(crate) fn chacha_seal(key: &[u8; 32], nonce: &[u8; 12], aad: &[u8], msg: &[u8]) -> (res: Result<
    Vec<u8>,
    aes_gcm::aead::Error,
>)
    requires
        aad@.len() <= AEAD_MAX,
        msg@.len() <= AEAD_MAX,
        msg@.len() + 16 <= isize::MAX,
    ensures
        res is Ok,
        res matches Ok(ct) ==> ct@ == chacha_sealed(key@, nonce@, aad@, msg@),
        res matches Ok(ct) ==> ct@.len() == msg@.len() + 16,
        res matches Ok(ct) ==> chacha_opened(key@, nonce@, aad@, ct@) == Some(msg@),
{
    chacha20poly1305::ChaCha20Poly1305::new(key.into()).encrypt(nonce.into(), Payload { msg, aad })
}

/// Calls `ChaCha20Poly1305::decrypt`. Its result depends on the arguments
/// alone. A message that comes out is 16 bytes shorter than what went in, and
/// encrypting it again gives exactly what went in.
#[verifier::external_body]
pub(crate) fn chacha_open(key: &[u8; 32], nonce: &[u8; 12], aad: &[u8], ct: &[u8]) -> (res: Result<
    Vec<u8>,
    aes_gcm::aead::Error,
>)
    requires
        aad@.len() <= AEAD_MAX,
        ct@.len() <= AEAD_MAX,
    ensures
        match res {
            Ok(msg) => chacha_opened(key@, nonce@, aad@, ct@) == Some(msg@),
            Err(_) => chacha_opened(key@, nonce@, aad@, ct@) is None,
        },
        res matches Ok(msg) ==> msg@.len() + 16 == ct@.len(),
        res matches Ok(msg) ==> chacha_sealed(key@, nonce@, aad@, msg@) == ct@,
{
    chacha20poly1305::ChaCha20Poly1305::new(key.into()).decrypt(nonce.into(), Payload { msg: ct, aad })
}

// ----------------------------------------------------------------- SHA-256

/// The SHA-256 digest of `data`.
pub uninterp spec fn sha256_of(data: Seq<u8>) -> Seq<u8>;

/// Calls `sha2::Sha256::digest`. The digest depends on the data alone.
#[verifier::external_body]
pub(crate) fn sha256(data: &[u8]) -> (digest: [u8; 32])
    ensures
        digest@ == sha256_of(data@),
{
    sha2::Sha256::digest(data).into()
}

// ---------------------------------------------------------------- Argon2id

/// Whether Argon2id takes these costs: at least 8 blocks of memory for each
/// lane, at least one pass, and from 1 to 2^24 - 1 lanes.
pub open spec fn argon2_takes(m_cost: u32, t_cost: u32, p_cost: u32) -> bool {
    8 <= m_cost && 8 * p_cost <= m_cost && 1 <= t_cost && 1 <= p_cost <= 0xFF_FFFF
}

/// What is said of costs that Argon2id does not take.
pub uninterp spec fn argon2_said(m_cost: u32, t_cost: u32, p_cost: u32) -> Seq<char>;

/// Calls `argon2::Params::new` for a result of 32 bytes. It refuses exactly the
/// costs that Argon2id does not take, and what `argon2::Error` says of them
/// depends on them alone.
#[verifier::external_body]
pub(crate) fn argon2_costs(m_cost: u32, t_cost: u32, p_cost: u32) -> (res: Result<(), String>)
    requires
        8 * p_cost <= u32::MAX,
    ensures
        res is Ok <==> argon2_takes(m_cost, t_cost, p_cost),
        res matches Err(e) ==> e@ == argon2_said(m_cost, t_cost, p_cost),
{
    argon2::Params::new(m_cost, t_cost, p_cost, Some(32)).map(|_| ()).map_err(|e| e.to_string())
}

/// Whether Argon2id takes a password and a salt of so many bytes.
pub open spec fn argon2_hashes(password_len: nat, salt_len: nat) -> bool {
    password_len <= 0xFFFF_FFFF && 8 <= salt_len <= 0xFFFF_FFFF
}

/// The 32 bytes that Argon2id, version 0x13, makes of a password and a salt, or
/// what is said of those that it does not take.
pub uninterp spec fn argon2_run(
    password: Seq<char>,
    salt: Seq<u8>,
    m_cost: u32,
    t_cost: u32,
    p_cost: u32,
) -> Result<Seq<u8>, Seq<char>>;

/// The 32 bytes that Argon2id makes of a password and a salt that it takes.
pub open spec fn argon2_of(
    password: Seq<char>,
    salt: Seq<u8>,
    m_cost: u32,
    t_cost: u32,
    p_cost: u32,
) -> Seq<u8> {
    argon2_run(password, salt, m_cost, t_cost, p_cost)->Ok_0
}

/// Calls `argon2::Argon2::hash_password_into`. It refuses a salt of less than 8
/// bytes and a password or salt of 4 GiB or more, and no other; what it makes,
/// or what `argon2::Error` says, depends on the arguments alone.
#[verifier::external_body]
pub(crate) fn argon2_hash(
    password: &str,
    salt: &[u8],
    m_cost: u32,
    t_cost: u32,
    p_cost: u32,
) -> (res: Result<[u8; 32], String>)
    requires
        argon2_takes(m_cost, t_cost, p_cost),
        m_cost * 1024 <= isize::MAX,
    ensures
        res is Ok <==> argon2_hashes(password.spec_bytes().len(), salt@.len()),
        match res {
            Ok(key) => argon2_run(password@, salt@, m_cost, t_cost, p_cost) == made(key@),
            Err(e) => argon2_run(password@, salt@, m_cost, t_cost, p_cost) == said(e@),
        },
{
    let params = argon2::Params::new(m_cost, t_cost, p_cost, Some(32)).map_err(|e| e.to_string())?;
    let hasher = argon2::Argon2::new(argon2::Algorithm::Argon2id, argon2::Version::V0x13, params);
    let mut key = [0u8; 32];
    hasher
        .hash_password_into(password.as_bytes(), salt, &mut key)
        .map(|_| key)
        .map_err(|e| e.to_string())
}

// -------------------------------------------------------------------- HKDF

/// The first 32 bytes that HKDF-SHA256 without a salt makes of key material and
/// an info string.
pub uninterp spec fn hkdf_of(ikm: Seq<u8>, info: Seq<u8>) -> Seq<u8>;

/// Calls `hkdf::Hkdf::<sha2::Sha256>::new` and `expand`. 32 bytes are a length
/// that is never refused, and they depend on the arguments alone.
#[verifier::external_body]
pub(crate) fn hkdf_sha256(ikm: &[u8], info: &[u8]) -> (key: [u8; 32])
    ensures
        key@ == hkdf_of(ikm@, info@),
{
    let mut key = [0u8; 32];
    hkdf::Hkdf::<sha2::Sha256>::new(None, ikm).expand(info, &mut key).expect("a valid length");
    key
}

// ------------------------------------------------------------------ base64

/// The characters of base64, its padding included.
pub open spec fn base64_char(c: char) -> bool {
    'A' <= c <= 'Z' || 'a' <= c <= 'z' || '0' <= c <= '9' || c == '+' || c == '/' || c == '='
}

/// Bytes in standard base64 with padding.
pub uninterp spec fn base64_of(bytes: Seq<u8>) -> Seq<char>;

/// The bytes that a text in standard base64 stands for, or what is said of a
/// text that is none.
pub uninterp spec fn base64_read(text: Seq<char>) -> Result<Seq<u8>, Seq<char>>;

/// Calls `base64::engine::general_purpose::STANDARD.encode`. The text depends on
/// the bytes alone, has four characters for every three bytes begun, all of them
/// base64, and stands for the bytes.
#[verifier::external_body]
pub(crate) fn base64_encode(bytes: &[u8]) -> (text: String)
    requires
        (bytes@.len() + 2) / 3 * 4 <= isize::MAX,
    ensures
        text@ == base64_of(bytes@),
        text@.len() == (bytes@.len() + 2) / 3 * 4,
        forall|i: int| 0 <= i < text@.len() ==> base64_char(#[trigger] text@[i]),
        base64_read(text@) == made(bytes@),
{
    base64::engine::general_purpose::STANDARD.encode(bytes)
}

/// Calls `base64::engine::general_purpose::STANDARD.decode`. Whether a text is
/// base64, which bytes it stands for and what `base64::DecodeError` says of it
/// otherwise depends on the text alone.
#[verifier::external_body]
pub(crate) fn base64_decode(text: &str) -> (res: Result<Vec<u8>, String>)
    ensures
        match res {
            Ok(bytes) => base64_read(text@) == made(bytes@),
            Err(e) => base64_read(text@) == said(e@),
        },
{
    base64::engine::general_purpose::STANDARD.decode(text).map_err(|e| e.to_string())
}

// ------------------------------------------------------------------ wiping

/// Calls `zeroize::Zeroize::zeroize` on a key: every byte of it becomes zero.
#[verifier::external_body]
pub(crate) fn wipe_key(key: &mut [u8; 32])
    ensures
        forall|i: int| 0 <= i < 32 ==> final(key)@[i] == 0,
{
    key.zeroize();
}

/// Calls `zeroize::Zeroize::zeroize` on a vector: it is overwritten and emptied.
#[verifier::external_body]
pub(crate) fn wipe_bytes(bytes: &mut Vec<u8>)
    ensures
        final(bytes)@.len() == 0,
{
    bytes.zeroize();
}

/// Calls `zeroize::Zeroize::zeroize` on a text: it is overwritten and emptied.
#[verifier::external_body]
pub(crate) fn wipe_text(text: &mut String)
    ensures
        final(text)@.len() == 0,
{
    text.zeroize();
}

// ------------------------------------------------------------------ X25519

/// The public key that belongs to an X25519 secret.
pub uninterp spec fn x25519_public_of(secret: Seq<u8>) -> Seq<u8>;

/// The secret that X25519 agrees on between a secret and a public key.
pub uninterp spec fn x25519_shared_of(secret: Seq<u8>, public: Seq<u8>) -> Seq<u8>;

/// Calls `x25519_dalek::StaticSecret::random_from_rng`: a secret that nobody can
/// foretell.
#[verifier::external_body]
pub(crate) fn x25519_secret() -> [u8; 32] {
    x25519_dalek::StaticSecret::random_from_rng(rand::thread_rng()).to_bytes()
}

/// Calls `x25519_dalek::PublicKey::from` on a secret. The public key depends on
/// the secret alone.
#[verifier::external_body]
pub(crate) fn x25519_public(secret: &[u8; 32]) -> (public: [u8; 32])
    ensures
        public@ == x25519_public_of(secret@),
{
    x25519_dalek::PublicKey::from(&x25519_dalek::StaticSecret::from(*secret)).to_bytes()
}

/// Calls `x25519_dalek::StaticSecret::diffie_hellman`. What is agreed on depends
/// on the arguments alone, and whoever holds the secret of the public key
/// agrees on the same.
#[verifier::external_body]
pub(crate) fn x25519_shared(secret: &[u8; 32], public: &[u8; 32]) -> (shared: [u8; 32])
    ensures
        shared@ == x25519_shared_of(secret@, public@),
        forall|other: Seq<u8>|
            other.len() == 32 && public@ == #[trigger] x25519_public_of(other) ==> shared@
                == x25519_shared_of(other, x25519_public_of(secret@)),
{
    let public = x25519_dalek::PublicKey::from(*public);
    x25519_dalek::StaticSecret::from(*secret).diffie_hellman(&public).to_bytes()
}

// --------------------------------------------------------------------- RSA

/// The RSA public key that a SubjectPublicKeyInfo document holds, written out
/// again, or what is said of one that holds none of at most 4096 bits.
pub uninterp spec fn rsa_public_of(der: Seq<u8>) -> Result<Seq<u8>, Seq<char>>;

/// How many bits the modulus of an RSA public key has, by its
/// SubjectPublicKeyInfo document.
pub uninterp spec fn rsa_bits(der: Seq<u8>) -> nat;

/// How many bytes the modulus of an RSA public key has.
pub open spec fn rsa_size(der: Seq<u8>) -> int {
    (rsa_bits(der) + 7) as int / 8
}

/// Calls `rsa::RsaPublicKey::from_public_key_der`, and `to_public_key_der` to
/// write the key out again. What comes out, or what `spki::Error` says, depends
/// on the document alone. It holds the same key, and has a modulus of at most
/// 4096 bits.
#[verifier::external_body]
pub(crate) fn rsa_public_read(der: &[u8]) -> (res: Result<Vec<u8>, String>)
    ensures
        match res {
            Ok(key) => rsa_public_of(der@) == made(key@),
            Err(e) => rsa_public_of(der@) == said(e@),
        },
        res matches Ok(key) ==> rsa_public_of(key@) == made(key@),
        res matches Ok(key) ==> rsa_bits(key@) <= 4096,
{
    let key = rsa::RsaPublicKey::from_public_key_der(der).map_err(|e| e.to_string())?;
    key.to_public_key_der().map(|doc| doc.as_bytes().to_vec()).map_err(|e| e.to_string())
}

/// What is said of a PKCS#8 document that holds no RSA private key whose parts
/// fit together.
pub uninterp spec fn rsa_private_fault(der: Seq<u8>) -> Option<Seq<char>>;

/// Whether a PKCS#8 document holds an RSA private key whose parts fit together.
pub open spec fn rsa_private_valid(der: Seq<u8>) -> bool {
    rsa_private_fault(der) is None
}

/// Calls `rsa::RsaPrivateKey::from_pkcs8_der`. Whether it takes the document, and
/// what `pkcs8::Error` says where it does not, depends on the document alone.
#[verifier::external_body]
pub(crate) fn rsa_private_read(der: &[u8]) -> (res: Result<(), String>)
    ensures
        match res {
            Ok(_) => rsa_private_fault(der@) is None,
            Err(e) => rsa_private_fault(der@) == Some(e@),
        },
{
    rsa::RsaPrivateKey::from_pkcs8_der(der).map(|_| ()).map_err(|e| e.to_string())
}

/// How many bits the two factors of an RSA private key have.
pub uninterp spec fn rsa_factor_bits(der: Seq<u8>) -> (nat, nat);

/// Whether the second factor of an RSA private key is not far longer than the
/// first. Decryption takes as many steps as the first goes into the second.
pub open spec fn rsa_balanced(der: Seq<u8>) -> bool {
    rsa_factor_bits(der).1 <= rsa_factor_bits(der).0 + 32
}

/// Calls `rsa::traits::PrivateKeyParts::primes` on the key of a document, and
/// `bits` on the two. They depend on the document alone.
#[verifier::external_body]
pub(crate) fn rsa_factors(der: &[u8]) -> (bits: (usize, usize))
    requires
        rsa_private_valid(der@),
    ensures
        rsa_factor_bits(der@) == (bits.0 as nat, bits.1 as nat),
{
    let key = rsa::RsaPrivateKey::from_pkcs8_der(der).expect("a document of a private key");
    (key.primes()[0].bits(), key.primes()[1].bits())
}

/// The RSA private key of a PKCS#8 document, written out again, or what is said
/// where it cannot be.
pub uninterp spec fn rsa_private_written(der: Seq<u8>) -> Result<Seq<u8>, Seq<char>>;

/// Calls `rsa::RsaPrivateKey::to_pkcs8_der` on the key of a document. What comes
/// out, or what `pkcs8::Error` says, depends on the document alone. It is a
/// document of the same key: that has the same public part and the same factors,
/// decrypts alike, and is written out the same.
#[verifier::external_body]
pub(crate) fn rsa_private_write(der: &[u8]) -> (res: Result<Vec<u8>, String>)
    requires
        rsa_private_valid(der@),
    ensures
        match res {
            Ok(out) => rsa_private_written(der@) == made(out@),
            Err(e) => rsa_private_written(der@) == said(e@),
        },
        res matches Ok(out) ==> rsa_private_valid(out@),
        res matches Ok(out) ==> rsa_public_part(out@) == rsa_public_part(der@),
        res matches Ok(out) ==> rsa_factor_bits(out@) == rsa_factor_bits(der@),
        res matches Ok(out) ==> forall|ct: Seq<u8>| #[trigger]
            rsa_opened(out@, ct) == rsa_opened(der@, ct),
        res matches Ok(out) ==> rsa_private_written(out@) == made(out@),
{
    let key = rsa::RsaPrivateKey::from_pkcs8_der(der).map_err(|e| e.to_string())?;
    key.to_pkcs8_der().map(|doc| doc.as_bytes().to_vec()).map_err(|e| e.to_string())
}

/// The SubjectPublicKeyInfo document of the public part of an RSA private key.
pub uninterp spec fn rsa_public_part(der: Seq<u8>) -> Seq<u8>;

/// Calls `rsa::RsaPrivateKey::to_public_key` on the key of a document. The
/// public part depends on the document alone.
#[verifier::external_body]
pub(crate) fn rsa_public(der: &[u8]) -> (public: Vec<u8>)
    requires
        rsa_private_valid(der@),
    ensures
        public@ == rsa_public_part(der@),
{
    let key = rsa::RsaPrivateKey::from_pkcs8_der(der).expect("a document of a private key");
    key.to_public_key().to_public_key_der().expect("a public key").as_bytes().to_vec()
}

/// Calls `rsa::RsaPrivateKey::new`, and `to_pkcs8_der` to write the key out.
/// Which key comes out is chance, and finding one may fail, for a reason that
/// `rsa::Error` gives. A document that comes out holds a private key whose
/// modulus has as many bits as were asked for and whose factors are about as long.
/// It is what that key is written out as, and its public part can be read again.
#[verifier::external_body]
pub(crate) fn rsa_generate(bits: usize) -> (res: Result<Vec<u8>, String>)
    requires
        1024 <= bits <= 4096,
    ensures
        res matches Ok(der) ==> rsa_private_valid(der@),
        res matches Ok(der) ==> rsa_bits(rsa_public_part(der@)) == bits,
        res matches Ok(der) ==> rsa_balanced(der@),
        res matches Ok(der) ==> rsa_private_written(der@) == made(der@),
        res matches Ok(der) ==> rsa_public_of(rsa_public_part(der@)) == made(rsa_public_part(der@)),
{
    let key = rsa::RsaPrivateKey::new(&mut rand::thread_rng(), bits).map_err(|e| e.to_string())?;
    key.to_pkcs8_der().map(|doc| doc.as_bytes().to_vec()).map_err(|e| e.to_string())
}

/// What RSA-OAEP with SHA-256 makes of a message for a public key when its
/// padding is drawn from `seed`, or what is said where the message does not fit.
pub uninterp spec fn rsa_sealed(der: Seq<u8>, seed: Seq<u8>, msg: Seq<u8>) -> Result<Seq<u8>, Seq<char>>;

/// Calls `rsa::RsaPublicKey::encrypt` with `rsa::Oaep::new::<sha2::Sha256>()` on
/// the key of a document, of whatever size. The padding is drawn from 32 random
/// bytes; besides them the result depends on the arguments alone, and whether
/// there is one, and what `rsa::Error` says where there is none, does not depend
/// on them. It is as long as the modulus, which is no longer than a document can
/// be.
#[verifier::external_body]
pub(crate) fn rsa_seal(der: &[u8], msg: &[u8]) -> (res: Result<Vec<u8>, String>)
    requires
        msg@.len() <= 4096,
    ensures
        res matches Ok(ct) ==> exists|seed: Seq<u8>|
            seed.len() == 32 && #[trigger] rsa_sealed(der@, seed, msg@) == made(ct@),
        res matches Ok(ct) ==> ct@.len() == rsa_size(der@),
        res matches Ok(ct) ==> ct@.len() <= DER_MAX,
        res matches Err(e) ==> forall|seed: Seq<u8>|
            seed.len() == 32 ==> #[trigger] rsa_sealed(der@, seed, msg@) == said(e@),
{
    let spki = rsa::pkcs8::SubjectPublicKeyInfoRef::try_from(der).map_err(|e| e.to_string())?;
    let doc = rsa::pkcs1::RsaPublicKey::try_from(spki.subject_public_key.raw_bytes())
        .map_err(|e| e.to_string())?;
    let n = rsa::BigUint::from_bytes_be(doc.modulus.as_bytes());
    let e = rsa::BigUint::from_bytes_be(doc.public_exponent.as_bytes());
    let key = rsa::RsaPublicKey::new_unchecked(n, e);
    key.encrypt(&mut rand::thread_rng(), rsa::Oaep::new::<sha2::Sha256>(), msg)
        .map_err(|e| e.to_string())
}

/// What RSA-OAEP with SHA-256 reads out of `ct` with a private key, if it fits.
pub uninterp spec fn rsa_opened(der: Seq<u8>, ct: Seq<u8>) -> Option<Seq<u8>>;

/// Calls `rsa::RsaPrivateKey::decrypt` with `rsa::Oaep::new::<sha2::Sha256>()`.
/// What comes out depends on the arguments alone. A key whose second factor is
/// far longer than its first is left out: the call would not come back. That it
/// gives back what was encrypted for the public part is not claimed: it rests on
/// the key's factors being prime, which is tested for by chance only.
#[verifier::external_body]
pub(crate) fn rsa_open(der: &[u8], ct: &[u8]) -> (res: Result<Vec<u8>, rsa::Error>)
    requires
        rsa_private_valid(der@),
        rsa_balanced(der@),
    ensures
        match res {
            Ok(msg) => rsa_opened(der@, ct@) == Some(msg@),
            Err(_) => rsa_opened(der@, ct@) is None,
        },
{
    let key = rsa::RsaPrivateKey::from_pkcs8_der(der)?;
    key.decrypt(rsa::Oaep::new::<sha2::Sha256>(), ct)
}

// -------------------------------------------------------------- ML-KEM-768

/// The ML-KEM-768 encapsulation key that 1184 bytes stand for, written out again
/// with every coefficient reduced.
pub uninterp spec fn mlkem_public_of(bytes: Seq<u8>) -> Seq<u8>;

/// Calls `from_bytes` and `as_bytes` of `ml_kem::kem::EncapsulationKey`. What
/// comes out depends on the bytes alone, is as long as they are, and stands for
/// the same key.
#[verifier::external_body]
pub(crate) fn mlkem_public_read(bytes: &[u8]) -> (key: Vec<u8>)
    requires
        bytes@.len() == 1184,
    ensures
        key@ == mlkem_public_of(bytes@),
        key@.len() == 1184,
        mlkem_public_of(key@) == key@,
{
    let enc = bytes.try_into().expect("a key of this length");
    <ml_kem::MlKem768 as KemCore>::EncapsulationKey::from_bytes(enc).as_bytes().to_vec()
}

/// The ML-KEM-768 decapsulation key that 2400 bytes stand for, written out again
/// with every coefficient reduced.
pub uninterp spec fn mlkem_private_of(bytes: Seq<u8>) -> Seq<u8>;

/// Calls `from_bytes` and `as_bytes` of `ml_kem::kem::DecapsulationKey`. What
/// comes out depends on the bytes alone, is as long as they are, and stands for
/// the same key.
#[verifier::external_body]
pub(crate) fn mlkem_private_read(bytes: &[u8]) -> (key: Vec<u8>)
    requires
        bytes@.len() == 2400,
    ensures
        key@ == mlkem_private_of(bytes@),
        key@.len() == 2400,
        mlkem_private_of(key@) == key@,
{
    let enc = bytes.try_into().expect("a key of this length");
    <ml_kem::MlKem768 as KemCore>::DecapsulationKey::from_bytes(enc).as_bytes().to_vec()
}

/// Calls `ml_kem::kem::DecapsulationKey::encapsulation_key`. The encapsulation
/// key is the one that 1184 bytes of the decapsulation key, behind its first
/// 1152, stand for, and is written with every coefficient reduced.
#[verifier::external_body]
pub(crate) fn mlkem_public(dk: &[u8]) -> (ek: Vec<u8>)
    requires
        dk@.len() == 2400,
    ensures
        ek@ == mlkem_public_of(dk@.subrange(1152, 2336)),
        ek@.len() == 1184,
        mlkem_public_of(ek@) == ek@,
{
    let enc = dk.try_into().expect("a key of this length");
    let key = <ml_kem::MlKem768 as KemCore>::DecapsulationKey::from_bytes(enc);
    key.encapsulation_key().as_bytes().to_vec()
}

/// The decapsulation key that ML-KEM-768 makes out of 64 random bytes.
pub uninterp spec fn mlkem_generated(seed: Seq<u8>) -> Seq<u8>;

/// Whether a hash is the one that an encapsulation key has: with it, the same is
/// encapsulated for the key.
pub open spec fn own_hash(ek: Seq<u8>, hash: Seq<u8>) -> bool {
    forall|coins: Seq<u8>|
        coins.len() == 32 ==> #[trigger] mlkem_encapsulated(ek, Some(hash), coins)
            == mlkem_encapsulated(ek, None, coins)
}

/// Calls `ml_kem::MlKem768::generate`. Which key comes out is chance, and depends
/// on 64 random bytes alone. It is written out with every coefficient reduced,
/// and holds the hash that its own encapsulation key has.
#[verifier::external_body]
pub(crate) fn mlkem_generate() -> (dk: Vec<u8>)
    ensures
        dk@.len() == 2400,
        mlkem_private_of(dk@) == dk@,
        dk@.len() == 2400 ==> exists|seed: Seq<u8>|
            seed.len() == 64 && #[trigger] mlkem_generated(seed) == dk@,
        own_hash(mlkem_public_of(dk@.subrange(1152, 2336)), dk@.subrange(2336, 2368)),
{
    let (key, _) = ml_kem::MlKem768::generate(&mut rand::thread_rng());
    key.as_bytes().to_vec()
}

/// The ciphertext and the shared secret that ML-KEM-768 makes for an
/// encapsulation key out of 32 random bytes, with this hash of the key, or with
/// the one that the key has.
pub uninterp spec fn mlkem_encapsulated(
    ek: Seq<u8>,
    hash: Option<Seq<u8>>,
    coins: Seq<u8>,
) -> (Seq<u8>, Seq<u8>);

/// Calls `ml_kem::kem::Encapsulate::encapsulate` on the encapsulation key that
/// 1184 bytes stand for. It never fails, and its result depends on the key and
/// on 32 random bytes alone.
#[verifier::external_body]
pub(crate) fn mlkem_encapsulate(ek: &[u8]) -> (res: Result<(Vec<u8>, Vec<u8>), ()>)
    requires
        ek@.len() == 1184,
    ensures
        res is Ok,
        res matches Ok(pair) ==> pair.0@.len() == 1088,
        res matches Ok(pair) ==> pair.1@.len() == 32,
        res matches Ok(pair) ==> exists|coins: Seq<u8>|
            coins.len() == 32 && #[trigger] mlkem_encapsulated(ek@, None, coins) == (
                pair.0@,
                pair.1@,
            ),
{
    let enc = ek.try_into().expect("a key of this length");
    let key = <ml_kem::MlKem768 as KemCore>::EncapsulationKey::from_bytes(enc);
    key.encapsulate(&mut rand::thread_rng()).map(|(ct, shared)| (ct.to_vec(), shared.to_vec()))
}

/// Calls `ml_kem::kem::Encapsulate::encapsulate` on the encapsulation key inside
/// a decapsulation key, which comes with the hash that stands behind it there.
/// It never fails, and its result depends on that key, that hash and 32 random
/// bytes alone.
#[verifier::external_body]
pub(crate) fn mlkem_encapsulate_within(dk: &[u8]) -> (res: Result<(Vec<u8>, Vec<u8>), ()>)
    requires
        dk@.len() == 2400,
    ensures
        res is Ok,
        res matches Ok(pair) ==> pair.0@.len() == 1088,
        res matches Ok(pair) ==> pair.1@.len() == 32,
        res matches Ok(pair) ==> exists|coins: Seq<u8>|
            coins.len() == 32 && #[trigger] mlkem_encapsulated(
                mlkem_public_of(dk@.subrange(1152, 2336)),
                Some(dk@.subrange(2336, 2368)),
                coins,
            ) == (pair.0@, pair.1@),
{
    let enc = dk.try_into().expect("a key of this length");
    let key = <ml_kem::MlKem768 as KemCore>::DecapsulationKey::from_bytes(enc);
    let ek = key.encapsulation_key();
    ek.encapsulate(&mut rand::thread_rng()).map(|(ct, shared)| (ct.to_vec(), shared.to_vec()))
}

/// The shared secret that ML-KEM-768 reads out of a ciphertext.
pub uninterp spec fn mlkem_decapsulated(dk: Seq<u8>, ct: Seq<u8>) -> Seq<u8>;

/// Calls `ml_kem::kem::Decapsulate::decapsulate`. It never fails, and its result
/// depends on the arguments alone. That it is the secret that was encapsulated
/// is not claimed: ML-KEM promises that up to chance only.
#[verifier::external_body]
pub(crate) fn mlkem_decapsulate(dk: &[u8], ct: &[u8]) -> (res: Result<Vec<u8>, ()>)
    requires
        dk@.len() == 2400,
        ct@.len() == 1088,
    ensures
        res is Ok,
        res matches Ok(shared) ==> shared@ == mlkem_decapsulated(dk@, ct@),
{
    let enc = dk.try_into().expect("a key of this length");
    let key = <ml_kem::MlKem768 as KemCore>::DecapsulationKey::from_bytes(enc);
    let ct = ct.try_into().expect("a ciphertext of this length");
    key.decapsulate(ct).map(|shared| shared.to_vec())
}

} // verus!
