use cryptosec::fault::Fault;
use cryptosec::keys::{generate, rsa_pair, unwrap, wrap, KeyAlgo, PrivateKey, PublicKey};
use rsa::pkcs8::der::Encode;
use rsa::pkcs8::{DecodePrivateKey, DecodePublicKey, EncodePrivateKey, EncodePublicKey};
use rsa::traits::PublicKeyParts;
use rsa::BigUint;

/// A factor that need not be prime, one more than a power of two.
fn factor(exponent: usize) -> BigUint {
    (BigUint::from(1u8) << exponent) + BigUint::from(1u8)
}

/// The inverse of 65537 modulo a power of two.
fn inverse(exponent: usize) -> BigUint {
    let m = BigUint::from(1u8) << exponent;
    let e = BigUint::from(65537u32);
    let mut x = BigUint::from(1u8);
    for _ in 0..16 {
        let ex = (&e * &x) % &m;
        x = (&x * (BigUint::from(2u8) + &m - ex)) % &m;
    }
    x
}

#[test]
fn a_wrapped_key_is_as_long_as_the_modulus() {
    let key = rsa::RsaPrivateKey::new(&mut rand::thread_rng(), 1024).unwrap();
    let sk = PrivateKey::from_bytes(KeyAlgo::Rsa4096, key.to_pkcs8_der().unwrap().as_bytes());
    let sk = sk.unwrap();
    let w = wrap(&sk.public(), &[5u8; 32]).unwrap();
    assert!(w.kem.is_none() && w.nonce.is_none());
    assert_eq!(w.wrapped.len(), 128);
    assert_eq!(unwrap(&sk, Some(&[1]), Some(&[2]), &w.wrapped).unwrap(), [5u8; 32]);
    for (algo, kem) in [(KeyAlgo::X25519, 32), (KeyAlgo::MlKem768, 1088)] {
        let w = wrap(&generate(algo).unwrap().public(), &[5u8; 32]).unwrap();
        assert_eq!(w.kem.unwrap().len(), kem);
        assert_eq!(w.nonce.unwrap().len(), 12);
        assert_eq!(w.wrapped.len(), 48);
    }
}

#[test]
fn a_search_for_an_rsa_key_ends_in_a_key_or_a_reason() {
    let key = rsa::RsaPrivateKey::new(&mut rand::thread_rng(), 1024).unwrap();
    let der = key.to_pkcs8_der().unwrap().as_bytes().to_vec();
    assert_eq!(rsa_pair(Ok(der.clone())).unwrap().to_bytes().unwrap(), der);
    let message = |found: Result<Vec<u8>, String>| match rsa_pair(found) {
        Ok(_) => panic!("a key"),
        Err(e) => e.message(),
    };
    assert_eq!(message(Ok(vec![1, 2])), "damaged RSA private key");
    assert_eq!(message(Err("too few primes".to_string())), "too few primes");
}

#[test]
fn a_long_rsa_key_is_wrapped_for_and_not_read() {
    let (p, q) = (factor(2100), factor(2101));
    let key = rsa::RsaPrivateKey::from_components(
        &p * &q,
        BigUint::from(65537u32),
        inverse(2101),
        vec![p, q],
    )
    .unwrap();
    assert_eq!(key.size(), 526);
    let sk = PrivateKey::from_bytes(KeyAlgo::Rsa4096, key.to_pkcs8_der().unwrap().as_bytes());
    let pk = sk.unwrap().public();
    let raw = pk.to_bytes().unwrap();
    assert_eq!(raw, key.to_public_key().to_public_key_der().unwrap().as_bytes());
    assert_eq!(wrap(&pk, &[5u8; 32]).unwrap().wrapped.len(), 526);
    let said = match rsa::RsaPublicKey::from_public_key_der(&raw) {
        Ok(_) => panic!("read"),
        Err(e) => e.to_string(),
    };
    assert!(matches!(
        PublicKey::from_bytes(KeyAlgo::Rsa4096, &raw),
        Err(Fault::DamagedPublicKey(KeyAlgo::Rsa4096, Some(s))) if s == said
    ));
}

#[test]
fn an_rsa_key_with_factors_far_apart_does_not_fit() {
    let (p, q) = (BigUint::from(3u8), factor(1000));
    let key = rsa::RsaPrivateKey::from_components(
        &p * &q,
        BigUint::from(65537u32),
        inverse(1000),
        vec![p, q],
    )
    .unwrap();
    let sk = PrivateKey::from_bytes(KeyAlgo::Rsa4096, key.to_pkcs8_der().unwrap().as_bytes());
    let sk = sk.unwrap();
    let w = wrap(&sk.public(), &[5u8; 32]).unwrap();
    assert!(matches!(unwrap(&sk, None, None, &w.wrapped), Err(Fault::KeyDoesNotFit)));
}

#[test]
fn damaged_keys_tell_what_is_behind_it() {
    let raw = [0x30u8, 1, 2];
    let public = rsa::RsaPublicKey::from_public_key_der(&raw).unwrap_err().to_string();
    let private = rsa::RsaPrivateKey::from_pkcs8_der(&raw).unwrap_err().to_string();
    let length = <[u8; 32]>::try_from(raw.as_slice()).unwrap_err().to_string();
    let read = |algo| match PublicKey::from_bytes(algo, &raw) {
        Ok(_) => panic!("read"),
        Err(e) => e.cause().map(|c| c.to_string()),
    };
    assert_eq!(read(KeyAlgo::Rsa4096), Some(public));
    assert_eq!(read(KeyAlgo::X25519), Some(length.clone()));
    assert_eq!(read(KeyAlgo::MlKem768), None);
    let read = |algo| match PrivateKey::from_bytes(algo, &raw) {
        Ok(_) => panic!("read"),
        Err(e) => e.cause().map(|c| c.to_string()),
    };
    assert_eq!(read(KeyAlgo::Rsa4096), Some(private));
    assert_eq!(read(KeyAlgo::X25519), Some(length));
    assert_eq!(read(KeyAlgo::MlKem768), None);
}

#[test]
fn a_generated_key_holds_its_own_hash() {
    let sk = generate(KeyAlgo::MlKem768).unwrap();
    let read = PublicKey::from_bytes(KeyAlgo::MlKem768, &sk.public().to_bytes().unwrap()).unwrap();
    for pk in [sk.public(), read] {
        let w = wrap(&pk, &[6u8; 32]).unwrap();
        let nonce = w.nonce.as_ref().map(|n| n.as_slice());
        assert_eq!(unwrap(&sk, w.kem.as_deref(), nonce, &w.wrapped).unwrap(), [6u8; 32]);
    }
}

#[test]
fn a_key_that_cannot_be_written_says_why() {
    let p = factor(600);
    let bytes = |n: &BigUint| n.to_bytes_be();
    let (n, e, d, f) = (&p * &p, BigUint::from(65537u32), inverse(600), p);
    let (n, e, d, f) = (bytes(&n), bytes(&e), bytes(&d), bytes(&f));
    let one = [1u8];
    let uint = |b| rsa::pkcs1::UintRef::new(b).unwrap();
    let doc = rsa::pkcs1::RsaPrivateKey {
        modulus: uint(&n),
        public_exponent: uint(&e),
        private_exponent: uint(&d),
        prime1: uint(&f),
        prime2: uint(&f),
        exponent1: uint(&one),
        exponent2: uint(&one),
        coefficient: uint(&one),
        other_prime_infos: None,
    }
    .to_der()
    .unwrap();
    let doc = rsa::pkcs8::PrivateKeyInfo::new(rsa::pkcs1::ALGORITHM_ID, &doc).to_der().unwrap();
    let sk = PrivateKey::from_bytes(KeyAlgo::Rsa4096, &doc).unwrap();
    let said = match rsa::RsaPrivateKey::from_pkcs8_der(&doc).unwrap().to_pkcs8_der() {
        Ok(_) => panic!("written"),
        Err(e) => e.to_string(),
    };
    let err = sk.to_bytes().unwrap_err();
    assert!(matches!(err, Fault::UnwritableKey(_)));
    assert_eq!(err.message(), said);
}

#[test]
fn a_stored_hash_is_kept() {
    let mut raw = generate(KeyAlgo::MlKem768).unwrap().to_bytes().unwrap();
    raw[2340] ^= 1;
    let sk = PrivateKey::from_bytes(KeyAlgo::MlKem768, &raw).unwrap();
    assert_eq!(sk.to_bytes().unwrap(), raw);
    let open = |pk: &PublicKey| {
        let w = wrap(pk, &[6u8; 32]).unwrap();
        unwrap(&sk, w.kem.as_deref(), w.nonce.as_ref().map(|n| n.as_slice()), &w.wrapped)
    };
    assert_eq!(open(&sk.public()).unwrap(), [6u8; 32]);
    // the file of the public key does not hold the hash
    let read = PublicKey::from_bytes(KeyAlgo::MlKem768, &sk.public().to_bytes().unwrap()).unwrap();
    assert_eq!(read.fingerprint().unwrap(), sk.public().fingerprint().unwrap());
    assert!(matches!(open(&read), Err(Fault::WrongKey)));
}
