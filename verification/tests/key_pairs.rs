use aes_gcm::aead::{Aead, KeyInit, Payload};
use cryptosec::fault::Fault;
use cryptosec::kdf::{
    argon2id, hkdf, open_secret, random_bytes, seal_secret_with, unwrap_with_kek, wrap_with_kek,
    wrap_with_nonce, SealedSecret, M_COST, P_COST, SECRET_AAD, T_COST,
};
use cryptosec::keys::{
    fingerprint, generate, unwrap, wrap, wrap_x25519, KeyAlgo, PrivateKey, PublicKey,
};
use base64::Engine;
use sha2::Digest;

#[test]
fn argon2id_is_what_the_primitive_gives() {
    let params = argon2::Params::new(64, 2, 2, Some(32)).unwrap();
    let a2 = argon2::Argon2::new(argon2::Algorithm::Argon2id, argon2::Version::V0x13, params);
    let mut key = [0u8; 32];
    a2.hash_password_into(b"pass", b"saltsalt", &mut key).unwrap();
    assert_eq!(argon2id("pass", b"saltsalt", 64, 2, 2).unwrap(), key);
    assert_ne!(argon2id("pasS", b"saltsalt", 64, 2, 2).unwrap(), key);
    assert_ne!(argon2id("pass", b"saltsalt", 64, 3, 2).unwrap(), key);
}

#[test]
fn argon2id_refuses_what_the_primitive_refuses() {
    let fault = |m: u32, t: u32, p: u32, salt: &[u8]| argon2id("p", salt, m, t, p).unwrap_err();
    let salt = b"saltsalt";
    for (m, t, p) in [
        (7, 1, 1),
        (15, 1, 2),
        (8, 0, 1),
        (8, 1, 0),
        (u32::MAX, 1, 0x100_0000),
        (u32::MAX, 1, 0x2000_0000),
        (u32::MAX, 1, u32::MAX),
    ] {
        let asked = p.min(0x1FFF_FFFF);
        let said = argon2::Params::new(m, t, asked, Some(32)).unwrap_err().to_string();
        let err = fault(m, t, p, salt);
        assert!(matches!(&err, Fault::Argon2Parameters(s) if *s == said), "{} {} {}", m, t, p);
        assert_eq!(err.message(), format!("invalid Argon2 parameters: {}", said));
    }
    let err = fault(8, 1, 1, b"1234567");
    let said = argon2::Error::SaltTooShort.to_string();
    assert!(matches!(&err, Fault::KeyDerivation(s) if *s == said));
    assert_eq!(err.message(), format!("key derivation failed: {}", said));
    assert_eq!((M_COST, T_COST, P_COST), (65536, 3, 4));
}

#[test]
fn hkdf_joins_its_parts() {
    let h = hkdf::Hkdf::<sha2::Sha256>::new(None, b"ikm");
    let mut key = [0u8; 32];
    h.expand(b"infoab", &mut key).unwrap();
    assert_eq!(hkdf(b"ikm", b"info", &[b"a", b"b"]), key);
    assert_eq!(hkdf(b"ikm", b"infoab", &[]), key);
    assert_ne!(hkdf(b"ikm", b"info", &[b"b", b"a"]), key);
}

#[test]
fn random_bytes_differ() {
    assert_ne!(random_bytes::<32>(), random_bytes::<32>());
}

#[test]
fn a_wrapped_data_key_comes_back() {
    let kek = [1u8; 32];
    let dek = [2u8; 32];
    let (nonce, wrapped) = wrap_with_kek(&kek, &dek).unwrap();
    assert_eq!(wrapped.len(), 48);
    assert_eq!(unwrap_with_kek(&kek, Some(&nonce), &wrapped).unwrap(), dek);
    assert_eq!(wrap_with_nonce(&kek, &nonce, &dek).unwrap(), wrapped);
    let fault = |kek: &[u8; 32], nonce: Option<&[u8]>, w: &[u8]| {
        unwrap_with_kek(kek, nonce, w).unwrap_err().message()
    };
    assert_eq!(fault(&kek, None, &wrapped), "header is missing the wrap nonce");
    assert_eq!(fault(&kek, Some(&nonce[..11]), &wrapped), "damaged wrap nonce");
    let refused = "wrong password or key - the data key did not unwrap";
    assert_eq!(fault(&[3u8; 32], Some(&nonce), &wrapped), refused);
    assert_eq!(fault(&kek, Some(&nonce), &wrapped[..40]), refused);
    // what was wrapped is no data key
    use_other_length(&kek, &nonce);
}

fn use_other_length(kek: &[u8; 32], nonce: &[u8; 12]) {
    let ct = aes_gcm::Aes256Gcm::new(kek.into())
        .encrypt(nonce.into(), Payload { msg: b"short", aad: b"cryptosec/keywrap/v1" })
        .unwrap();
    assert!(matches!(unwrap_with_kek(kek, Some(nonce), &ct), Err(Fault::DataKeyLength)));
}

#[test]
fn a_sealed_secret_comes_back_under_its_passphrase() {
    let sealed = seal_secret_with("open sesame", b"the key", &[5; 16], &[6; 12]).unwrap();
    assert_eq!(sealed.kdf, "argon2id");
    assert_eq!(sealed.salt, "BQUFBQUFBQUFBQUFBQUFBQ==");
    assert_eq!(sealed.nonce, "BgYGBgYGBgYGBgYG");
    assert_eq!((sealed.m_cost, sealed.t_cost, sealed.p_cost), (65536, 3, 4));
    assert_eq!(open_secret("open sesame", &sealed).unwrap(), b"the key");
    let err = open_secret("another", &sealed).unwrap_err();
    assert_eq!(err.message(), "wrong passphrase for this private key");
}

/// What is said of a text that is no base64.
fn said(text: &str) -> String {
    base64::engine::general_purpose::STANDARD.decode(text).unwrap_err().to_string()
}

#[test]
fn an_altered_sealed_secret_is_refused() {
    let b64 = |b: &[u8]| base64::engine::general_purpose::STANDARD.encode(b);
    let kek = argon2id("p", &[5; 16], 8, 1, 1).unwrap();
    let seal = || SealedSecret {
        kdf: "argon2id".to_string(),
        salt: b64(&[5; 16]),
        m_cost: 8,
        t_cost: 1,
        p_cost: 1,
        nonce: b64(&[6; 12]),
        data: b64(
            &aes_gcm::Aes256Gcm::new(&kek.into())
                .encrypt(&[6; 12].into(), Payload { msg: b"the key", aad: SECRET_AAD.as_bytes() })
                .unwrap(),
        ),
    };
    assert_eq!(open_secret("p", &seal()).unwrap(), b"the key");
    let refused = |s: &SealedSecret| matches!(open_secret("p", s), Err(Fault::WrongPassphrase));
    assert!(matches!(open_secret("q", &seal()), Err(Fault::WrongPassphrase)));
    assert!(refused(&SealedSecret { salt: b64(&[7; 16]), ..seal() }));
    assert!(refused(&SealedSecret { nonce: b64(&[7; 12]), ..seal() }));
    assert!(refused(&SealedSecret { data: b64(&[7; 23]), ..seal() }));
    assert!(refused(&SealedSecret { t_cost: 2, ..seal() }));
}

#[test]
fn damaged_sealed_secrets_are_refused() {
    let with = |salt: &str, nonce: &str, data: &str| SealedSecret {
        kdf: "argon2id".to_string(),
        salt: salt.to_string(),
        m_cost: 8,
        t_cost: 1,
        p_cost: 1,
        nonce: nonce.to_string(),
        data: data.to_string(),
    };
    let nonce = "BgYGBgYGBgYGBgYG";
    let cause = |s: &SealedSecret| {
        let err = open_secret("p", s).unwrap_err();
        assert_eq!(err.message(), "damaged key file");
        err.cause().unwrap().to_string()
    };
    // the first field that is damaged is the one that is told of
    assert_eq!(cause(&with("!!", "*", "?")), said("!!"));
    assert_eq!(cause(&with("", "A", "?")), said("A"));
    assert_eq!(cause(&with("", nonce, "AAA?")), said("AAA?"));
    let length = <[u8; 12]>::try_from([0u8; 3].as_slice()).unwrap_err().to_string();
    assert_eq!(cause(&with("", "BgYG", "")), length);
    assert!(matches!(
        open_secret("p", &with("", nonce, "")),
        Err(Fault::KeyDerivation(_))
    ));
    assert!(matches!(
        open_secret("p", &with("BQUFBQUFBQUFBQUFBQUFBQ==", nonce, "")),
        Err(Fault::WrongPassphrase)
    ));
}

#[test]
fn a_fingerprint_is_the_beginning_of_a_digest() {
    let mut h = sha2::Sha256::new();
    h.update(b"x25519\0");
    h.update([1u8; 32]);
    let digest: [u8; 32] = h.finalize().into();
    let mut want = String::new();
    for b in &digest[..8] {
        want.push_str(&format!("{:02x}", b));
    }
    assert_eq!(fingerprint(KeyAlgo::X25519, &[1u8; 32]), want);
    let pk = PublicKey::from_bytes(KeyAlgo::X25519, &[1u8; 32]).unwrap();
    assert_eq!(pk.fingerprint().unwrap(), want);
    assert_ne!(fingerprint(KeyAlgo::MlKem768, &[1u8; 32]), want);
}

#[test]
fn key_types_have_names() {
    for (algo, tag, label) in [
        (KeyAlgo::Rsa4096, "rsa-4096", "RSA-4096"),
        (KeyAlgo::X25519, "x25519", "X25519 (ECC)"),
        (KeyAlgo::MlKem768, "ml-kem-768", "ML-KEM-768"),
    ] {
        assert_eq!(algo.tag(), tag);
        assert_eq!(algo.label(), label);
        assert_eq!(KeyAlgo::parse(tag).unwrap(), algo);
    }
    assert_eq!(KeyAlgo::parse("rsa").unwrap(), KeyAlgo::Rsa4096);
    assert_eq!(KeyAlgo::parse("ecc").unwrap(), KeyAlgo::X25519);
    assert_eq!(KeyAlgo::parse("mlkem").unwrap(), KeyAlgo::MlKem768);
    assert_eq!(KeyAlgo::parse("ml-kem").unwrap(), KeyAlgo::MlKem768);
    assert_eq!(KeyAlgo::parse("RSA").unwrap_err().message(), "unknown key type 'RSA'");
}

#[test]
fn keys_are_read_from_their_bytes() {
    for algo in [KeyAlgo::X25519, KeyAlgo::MlKem768] {
        let sk = generate(algo).unwrap();
        assert_eq!(sk.algo(), algo);
        let again = PrivateKey::from_bytes(algo, &sk.to_bytes().unwrap()).unwrap();
        assert_eq!(again.to_bytes().unwrap(), sk.to_bytes().unwrap());
        let pk = sk.public();
        assert_eq!(pk.algo(), algo);
        let bytes = pk.to_bytes().unwrap();
        assert_eq!(again.public().to_bytes().unwrap(), bytes);
        let pk2 = PublicKey::from_bytes(algo, &bytes).unwrap();
        assert_eq!(pk2.to_bytes().unwrap(), bytes);
    }
    let x = generate(KeyAlgo::X25519).unwrap();
    let raw: [u8; 32] = x.to_bytes().unwrap().try_into().unwrap();
    let want = x25519_dalek::PublicKey::from(&x25519_dalek::StaticSecret::from(raw));
    assert_eq!(x.public().to_bytes().unwrap(), want.as_bytes());
    // coefficients are reduced where they are not
    let high = PublicKey::from_bytes(KeyAlgo::MlKem768, &[0xff; 1184]).unwrap();
    assert_ne!(high.to_bytes().unwrap(), vec![0xff; 1184]);
    let high = PrivateKey::from_bytes(KeyAlgo::MlKem768, &[0xff; 2400]).unwrap();
    assert_ne!(high.to_bytes().unwrap(), vec![0xff; 2400]);
}

#[test]
fn damaged_keys_are_refused() {
    let public = |a: KeyAlgo| PublicKey::from_bytes(a, &[1, 2, 3]).unwrap_err().message();
    assert_eq!(public(KeyAlgo::Rsa4096), "damaged RSA public key");
    assert_eq!(public(KeyAlgo::X25519), "damaged X25519 public key");
    assert_eq!(public(KeyAlgo::MlKem768), "damaged ML-KEM public key");
    let private = |a: KeyAlgo| match PrivateKey::from_bytes(a, &[1, 2, 3]) {
        Ok(_) => panic!("read"),
        Err(e) => e.message(),
    };
    assert_eq!(private(KeyAlgo::Rsa4096), "damaged RSA private key");
    assert_eq!(private(KeyAlgo::X25519), "damaged X25519 private key");
    assert_eq!(private(KeyAlgo::MlKem768), "damaged ML-KEM private key");
}

#[test]
fn wrapping_for_x25519_is_what_the_primitives_give() {
    let eph = [3u8; 32];
    let own = x25519_dalek::StaticSecret::from([4u8; 32]);
    let public = x25519_dalek::PublicKey::from(&own).to_bytes();
    let dek = [5u8; 32];
    let w = wrap_x25519(&eph, &public, &dek).unwrap();
    let eph_pub = x25519_dalek::PublicKey::from(&x25519_dalek::StaticSecret::from(eph));
    assert_eq!(w.kem.as_ref().unwrap(), eph_pub.as_bytes());
    let shared = own.diffie_hellman(&eph_pub);
    let kek = hkdf(
        shared.as_bytes(),
        b"cryptosec/x25519/v1",
        &[eph_pub.as_bytes().as_slice(), public.as_slice()],
    );
    let nonce = w.nonce.unwrap();
    assert_eq!(unwrap_with_kek(&kek, Some(&nonce), &w.wrapped).unwrap(), dek);
    let sk = PrivateKey::X25519([4u8; 32]);
    assert_eq!(unwrap(&sk, w.kem.as_deref(), Some(&nonce), &w.wrapped).unwrap(), dek);
}

#[test]
fn missing_and_damaged_parts_are_refused() {
    let fault = |sk: &PrivateKey, kem: Option<&[u8]>| {
        unwrap(sk, kem, None, &[]).unwrap_err().message()
    };
    let x = generate(KeyAlgo::X25519).unwrap();
    assert_eq!(fault(&x, None), "header is missing the ephemeral key");
    assert_eq!(fault(&x, Some(&[1])), "damaged ephemeral key");
    assert_eq!(fault(&x, Some(&[1; 32])), "header is missing the wrap nonce");
    let m = generate(KeyAlgo::MlKem768).unwrap();
    assert_eq!(fault(&m, None), "header is missing the KEM ciphertext");
    assert_eq!(fault(&m, Some(&[1])), "damaged ML-KEM ciphertext");
    assert_eq!(fault(&m, Some(&[1; 1088])), "header is missing the wrap nonce");
    let w = wrap(&m.public(), &[8u8; 32]).unwrap();
    assert_eq!(w.kem.as_ref().unwrap().len(), 1088);
    let nonce = w.nonce.unwrap();
    let other = generate(KeyAlgo::MlKem768).unwrap();
    assert!(matches!(
        unwrap(&other, w.kem.as_deref(), Some(&nonce), &w.wrapped),
        Err(Fault::WrongKey)
    ));
    assert_eq!(unwrap(&m, w.kem.as_deref(), Some(&nonce), &w.wrapped).unwrap(), [8u8; 32]);
}
