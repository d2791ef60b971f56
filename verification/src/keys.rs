//! Key pairs, and data keys wrapped for them.
use crate::fault::{Fault, Refusal, WRONG_LENGTH};
use crate::kdf::{
    genuine, hkdf, joined, law_altered_wrapping_is_refused, unwrap_with_kek, unwrapped,
    wrap_with_kek, WRAP_AAD,
};
use crate::primitives::{
    aes_sealed, hkdf_of, mlkem_decapsulate, mlkem_decapsulated, mlkem_encapsulate,
    mlkem_encapsulate_within, mlkem_encapsulated, mlkem_generate, mlkem_generated,
    mlkem_private_of, mlkem_private_read, mlkem_public, mlkem_public_of, mlkem_public_read,
    own_hash, rsa_balanced, rsa_bits, rsa_factors, rsa_generate, rsa_open, rsa_opened,
    rsa_private_fault, rsa_private_read, rsa_private_valid, rsa_private_write,
    rsa_private_written, rsa_public, rsa_public_of, rsa_public_part, rsa_public_read, rsa_seal,
    rsa_sealed, rsa_size, sha256, sha256_of, wipe_bytes, x25519_public, x25519_public_of,
    x25519_secret, x25519_shared, x25519_shared_of, DER_MAX,
};
use crate::text::{array_32, hex, hex_text, push_bytes, same_text};
use vstd::prelude::*;
use vstd::slice::{slice_subrange, slice_to_vec};
use vstd::string::*;

verus! {

/// What the key that wraps for X25519 is derived for.
pub const X25519_INFO: &'static str = "cryptosec/x25519/v1";

/// What the key that wraps for ML-KEM is derived for.
pub const MLKEM_INFO: &'static str = "cryptosec/ml-kem-768/v1";

// -------------------------------------------------------------- algorithms

/// The types of key pairs.
#[derive(Clone, Copy, Debug, PartialEq, Eq, Structural)]
pub enum KeyAlgo {
    Rsa4096,
    X25519,
    MlKem768,
}

/// The name of a type of key pair in files.
pub open spec fn algo_tag(algo: KeyAlgo) -> Seq<char> {
    match algo {
        KeyAlgo::Rsa4096 => "rsa-4096"@,
        KeyAlgo::X25519 => "x25519"@,
        KeyAlgo::MlKem768 => "ml-kem-768"@,
    }
}

/// The name of a type of key pair that is shown.
pub open spec fn algo_label(algo: KeyAlgo) -> Seq<char> {
    match algo {
        KeyAlgo::Rsa4096 => "RSA-4096"@,
        KeyAlgo::X25519 => "X25519 (ECC)"@,
        KeyAlgo::MlKem768 => "ML-KEM-768"@,
    }
}

/// The type of key pair that goes by a name.
pub open spec fn algo_named(s: Seq<char>) -> Option<KeyAlgo> {
    if s == "rsa-4096"@ || s == "rsa"@ {
        Some(KeyAlgo::Rsa4096)
    } else if s == "x25519"@ || s == "ecc"@ {
        Some(KeyAlgo::X25519)
    } else if s == "ml-kem-768"@ || s == "mlkem"@ || s == "ml-kem"@ {
        Some(KeyAlgo::MlKem768)
    } else {
        None
    }
}

impl KeyAlgo {
    /// The name in files.
    pub fn tag(&self) -> (s: &'static str)
        ensures
            s@ == algo_tag(*self),
    {
        match self {
            KeyAlgo::Rsa4096 => "rsa-4096",
            KeyAlgo::X25519 => "x25519",
            KeyAlgo::MlKem768 => "ml-kem-768",
        }
    }

    /// The name that is shown.
    pub fn label(&self) -> (s: &'static str)
        ensures
            s@ == algo_label(*self),
    {
        match self {
            KeyAlgo::Rsa4096 => "RSA-4096",
            KeyAlgo::X25519 => "X25519 (ECC)",
            KeyAlgo::MlKem768 => "ML-KEM-768",
        }
    }

    /// The type that goes by a name.
    pub fn parse(s: &str) -> (res: Result<KeyAlgo, Fault>)
        ensures
            match algo_named(s@) {
                Some(algo) => res matches Ok(a) && a == algo,
                None => res matches Err(Fault::UnknownKeyType(name)) && name@ == s@,
            },
    {
        if same_text(s, "rsa-4096") || same_text(s, "rsa") {
            Ok(KeyAlgo::Rsa4096)
        } else if same_text(s, "x25519") || same_text(s, "ecc") {
            Ok(KeyAlgo::X25519)
        } else if same_text(s, "ml-kem-768") || same_text(s, "mlkem") || same_text(s, "ml-kem") {
            Ok(KeyAlgo::MlKem768)
        } else {
            Err(Fault::UnknownKeyType(s.to_string()))
        }
    }
}

/// The name that a type has in files is read as that type.
pub proof fn law_tag_parses(algo: KeyAlgo)
    ensures
        algo_named(algo_tag(algo)) == Some(algo),
{
    reveal_strlit("rsa-4096");
    reveal_strlit("rsa");
    reveal_strlit("x25519");
    reveal_strlit("ecc");
    reveal_strlit("ml-kem-768");
    reveal_strlit("mlkem");
    reveal_strlit("ml-kem");
    assert("x25519"@[0] == 'x');
    assert("rsa-4096"@[0] == 'r');
    assert("rsa"@[0] == 'r');
    assert("ecc"@[0] == 'e');
    assert("ml-kem-768"@[0] == 'm');
    assert("mlkem"@[0] == 'm');
    assert("ml-kem"@[0] == 'm');
}

// ------------------------------------------------------------- public keys

/// An RSA public key of at most 4096 bits, or the public part of an RSA private
/// key.
#[derive(Debug)]
pub struct RsaPublic {
    der: Vec<u8>,
}

/// An ML-KEM-768 encapsulation key. One that comes out of a decapsulation key has
/// the hash that stands there; otherwise the hash is its own.
#[derive(Debug)]
pub struct MlKemPublic {
    ek: Vec<u8>,
    hash: Option<[u8; 32]>,
}

impl MlKemPublic {
    #[verifier::type_invariant]
    spec fn inv(self) -> bool {
        self.ek@.len() == 1184 && mlkem_public_of(self.ek@) == self.ek@
    }
}

/// A public key.
#[derive(Debug)]
pub enum PublicKey {
    Rsa(RsaPublic),
    X25519([u8; 32]),
    MlKem(MlKemPublic),
}

/// A public key's type, its bytes in files, and the hash of an ML-KEM key where
/// it came with one.
pub struct PublicView {
    pub algo: KeyAlgo,
    pub bytes: Seq<u8>,
    pub hash: Option<Seq<u8>>,
}

impl View for PublicKey {
    type V = PublicView;

    closed spec fn view(&self) -> PublicView {
        match *self {
            PublicKey::Rsa(k) => PublicView {
                algo: KeyAlgo::Rsa4096,
                bytes: k.der@,
                hash: None,
            },
            PublicKey::X25519(k) => PublicView { algo: KeyAlgo::X25519, bytes: k@, hash: None },
            PublicKey::MlKem(k) => PublicView {
                algo: KeyAlgo::MlKem768,
                bytes: k.ek@,
                hash: match k.hash {
                    Some(h) => Some(h@),
                    None => None,
                },
            },
        }
    }
}

/// The public key that a file holds: its hash is not in the file.
pub open spec fn in_file(algo: KeyAlgo, bytes: Seq<u8>) -> PublicView {
    PublicView { algo, bytes, hash: None }
}

/// The public key that bytes stand for, or that they stand for none.
pub open spec fn public_from(algo: KeyAlgo, raw: Seq<u8>) -> Result<Seq<u8>, Refusal> {
    match algo {
        KeyAlgo::Rsa4096 => match rsa_public_of(raw) {
            Ok(der) => Ok(der),
            Err(e) => Err(Refusal::DamagedPublicKey(algo, Some(e))),
        },
        KeyAlgo::X25519 => if raw.len() == 32 {
            Ok(raw)
        } else {
            Err(Refusal::DamagedPublicKey(algo, Some(WRONG_LENGTH@)))
        },
        KeyAlgo::MlKem768 => if raw.len() == 1184 {
            Ok(mlkem_public_of(raw))
        } else {
            Err(Refusal::DamagedPublicKey(algo, None))
        },
    }
}

/// The short name of a public key: the first 8 bytes of a digest of its type and
/// its bytes, in hexadecimal digits.
pub open spec fn fingerprint_of(key: PublicView) -> Seq<char> {
    hex(
        sha256_of(
            vstd::utf8::encode_utf8(algo_tag(key.algo)) + seq![0u8] + key.bytes,
        ).take(8),
    )
}

/// The short name of a public key.
pub fn fingerprint(algo: KeyAlgo, pub_bytes: &[u8]) -> (s: String)
    ensures
        s@ == fingerprint_of(in_file(algo, pub_bytes@)),
{
    let mut data: Vec<u8> = Vec::new();
    push_bytes(&mut data, algo.tag().as_bytes());
    data.push(0u8);
    push_bytes(&mut data, pub_bytes);
    assert(data@ =~= vstd::utf8::encode_utf8(algo_tag(algo)) + seq![0u8] + pub_bytes@);
    let digest = sha256(&data);
    let part = slice_subrange(digest.as_slice(), 0, 8);
    assert(part@ =~= digest@.take(8));
    hex_text(part)
}

impl PublicKey {
    /// The type of the key.
    pub fn algo(&self) -> (algo: KeyAlgo)
        ensures
            algo == self@.algo,
    {
        match self {
            PublicKey::Rsa(_) => KeyAlgo::Rsa4096,
            PublicKey::X25519(_) => KeyAlgo::X25519,
            PublicKey::MlKem(_) => KeyAlgo::MlKem768,
        }
    }

    /// The bytes of the key.
    pub fn to_bytes(&self) -> (res: Result<Vec<u8>, Fault>)
        ensures
            res matches Ok(bytes) && bytes@ == self@.bytes,
            self@.algo != KeyAlgo::Rsa4096 ==> public_from(self@.algo, self@.bytes) == Ok::<
                _,
                Refusal,
            >(self@.bytes),
    {
        match self {
            PublicKey::Rsa(k) => Ok(slice_to_vec(k.der.as_slice())),
            PublicKey::X25519(k) => Ok(slice_to_vec(k.as_slice())),
            PublicKey::MlKem(k) => {
                proof {
                    use_type_invariant(k);
                }
                Ok(slice_to_vec(k.ek.as_slice()))
            },
        }
    }

    /// The key that bytes stand for. Its own bytes stand for the same key.
    pub fn from_bytes(algo: KeyAlgo, raw: &[u8]) -> (res: Result<PublicKey, Fault>)
        ensures
            match public_from(algo, raw@) {
                Ok(bytes) => res matches Ok(pk) && pk@ == in_file(algo, bytes) && public_from(
                    algo,
                    bytes,
                ) == Ok::<_, Refusal>(bytes),
                Err(f) => res matches Err(e) && e.is_for(f),
            },
    {
        match algo {
            KeyAlgo::Rsa4096 => match rsa_public_read(raw) {
                Ok(der) => Ok(PublicKey::Rsa(RsaPublic { der })),
                Err(e) => Err(Fault::DamagedPublicKey(algo, Some(e))),
            },
            KeyAlgo::X25519 => match array_32(raw) {
                Some(k) => Ok(PublicKey::X25519(k)),
                None => Err(Fault::DamagedPublicKey(algo, Some(WRONG_LENGTH.to_string()))),
            },
            KeyAlgo::MlKem768 => {
                if raw.len() != 1184 {
                    return Err(Fault::DamagedPublicKey(algo, None));
                }
                Ok(PublicKey::MlKem(MlKemPublic { ek: mlkem_public_read(raw), hash: None }))
            },
        }
    }

    /// The short name of the key.
    pub fn fingerprint(&self) -> (res: Result<String, Fault>)
        ensures
            res matches Ok(s) && s@ == fingerprint_of(self@),
    {
        match self.to_bytes() {
            Ok(bytes) => Ok(fingerprint(self.algo(), &bytes)),
            Err(e) => Err(e),
        }
    }
}

// ------------------------------------------------------------ private keys

/// An RSA private key whose parts fit together.
pub struct RsaPrivate {
    der: Vec<u8>,
}

impl RsaPrivate {
    #[verifier::type_invariant]
    spec fn inv(self) -> bool {
        rsa_private_valid(self.der@)
    }
}

/// An ML-KEM-768 decapsulation key.
pub struct MlKemPrivate {
    dk: Vec<u8>,
}

impl MlKemPrivate {
    #[verifier::type_invariant]
    spec fn inv(self) -> bool {
        self.dk@.len() == 2400 && mlkem_private_of(self.dk@) == self.dk@
    }
}

/// A private key's type and its bytes.
pub struct KeyView {
    pub algo: KeyAlgo,
    pub bytes: Seq<u8>,
}

/// A private key.
pub enum PrivateKey {
    Rsa(RsaPrivate),
    X25519([u8; 32]),
    MlKem(MlKemPrivate),
}

impl View for PrivateKey {
    type V = KeyView;

    closed spec fn view(&self) -> KeyView {
        match *self {
            PrivateKey::Rsa(k) => KeyView { algo: KeyAlgo::Rsa4096, bytes: k.der@ },
            PrivateKey::X25519(k) => KeyView { algo: KeyAlgo::X25519, bytes: k@ },
            PrivateKey::MlKem(k) => KeyView { algo: KeyAlgo::MlKem768, bytes: k.dk@ },
        }
    }
}

/// The private key that bytes stand for, or that they stand for none.
pub open spec fn private_from(algo: KeyAlgo, raw: Seq<u8>) -> Result<Seq<u8>, Refusal> {
    match algo {
        KeyAlgo::Rsa4096 => match rsa_private_fault(raw) {
            None => Ok(raw),
            Some(e) => Err(Refusal::DamagedPrivateKey(algo, Some(e))),
        },
        KeyAlgo::X25519 => if raw.len() == 32 {
            Ok(raw)
        } else {
            Err(Refusal::DamagedPrivateKey(algo, Some(WRONG_LENGTH@)))
        },
        KeyAlgo::MlKem768 => if raw.len() == 2400 {
            Ok(mlkem_private_of(raw))
        } else {
            Err(Refusal::DamagedPrivateKey(algo, None))
        },
    }
}

/// The bytes that a private key is written out as, or what is said where it
/// cannot be.
pub open spec fn private_written(sk: KeyView) -> Result<Seq<u8>, Seq<char>> {
    match sk.algo {
        KeyAlgo::Rsa4096 => rsa_private_written(sk.bytes),
        _ => Ok(sk.bytes),
    }
}

/// The public key that belongs to a private key.
pub open spec fn public_of(sk: KeyView) -> PublicView {
    match sk.algo {
        KeyAlgo::Rsa4096 => in_file(sk.algo, rsa_public_part(sk.bytes)),
        KeyAlgo::X25519 => in_file(sk.algo, x25519_public_of(sk.bytes)),
        KeyAlgo::MlKem768 => PublicView {
            algo: sk.algo,
            bytes: mlkem_public_of(sk.bytes.subrange(1152, 2336)),
            hash: Some(sk.bytes.subrange(2336, 2368)),
        },
    }
}

/// Whether two private keys are the same: they belong to the same public key,
/// are written out the same, and take the same out of every wrapping.
pub open spec fn same_key(a: KeyView, b: KeyView) -> bool {
    &&& a.algo == b.algo
    &&& public_of(a) == public_of(b)
    &&& private_written(a) == private_written(b)
    &&& forall|w: WrappedView| #[trigger] unwrap_of(a, w) == unwrap_of(b, w)
}

impl PrivateKey {
    /// The type of the key.
    pub fn algo(&self) -> (algo: KeyAlgo)
        ensures
            algo == self@.algo,
    {
        match self {
            PrivateKey::Rsa(_) => KeyAlgo::Rsa4096,
            PrivateKey::X25519(_) => KeyAlgo::X25519,
            PrivateKey::MlKem(_) => KeyAlgo::MlKem768,
        }
    }

    /// The public key that belongs to the key.
    pub fn public(&self) -> (pk: PublicKey)
        ensures
            pk@ == public_of(self@),
    {
        match self {
            PrivateKey::Rsa(k) => {
                proof {
                    use_type_invariant(k);
                }
                PublicKey::Rsa(RsaPublic { der: rsa_public(&k.der) })
            },
            PrivateKey::X25519(k) => PublicKey::X25519(x25519_public(k)),
            PrivateKey::MlKem(k) => {
                proof {
                    use_type_invariant(k);
                }
                let part = slice_subrange(&k.dk, 2336, 2368);
                let pk = PublicKey::MlKem(
                    MlKemPublic { ek: mlkem_public(&k.dk), hash: array_32(part) },
                );
                assert(pk@ == public_of(self@));
                pk
            },
        }
    }

    /// The bytes that the key is written out as. They stand for the same key; but
    /// for RSA, a key's own bytes are those that it is written out as.
    pub fn to_bytes(&self) -> (res: Result<Vec<u8>, Fault>)
        ensures
            match private_written(self@) {
                Ok(bytes) => res matches Ok(b) && b@ == bytes && (private_from(
                    self@.algo,
                    bytes,
                ) matches Ok(again) && same_key(self@, KeyView { algo: self@.algo, bytes: again })),
                Err(t) => res matches Err(Fault::UnwritableKey(said)) && said@ == t,
            },
            self@.algo != KeyAlgo::Rsa4096 ==> private_from(self@.algo, self@.bytes) == Ok::<
                _,
                Refusal,
            >(self@.bytes),
    {
        match self {
            PrivateKey::Rsa(k) => {
                proof {
                    use_type_invariant(k);
                }
                match rsa_private_write(&k.der) {
                    Ok(der) => Ok(der),
                    Err(e) => Err(Fault::UnwritableKey(e)),
                }
            },
            PrivateKey::X25519(k) => Ok(slice_to_vec(k.as_slice())),
            PrivateKey::MlKem(k) => {
                proof {
                    use_type_invariant(k);
                }
                Ok(slice_to_vec(k.dk.as_slice()))
            },
        }
    }

    /// The key that bytes stand for.
    pub fn from_bytes(algo: KeyAlgo, raw: &[u8]) -> (res: Result<PrivateKey, Fault>)
        ensures
            match private_from(algo, raw@) {
                Ok(bytes) => res matches Ok(sk) && sk@ == (KeyView { algo, bytes }),
                Err(f) => res matches Err(e) && e.is_for(f),
            },
    {
        match algo {
            KeyAlgo::Rsa4096 => match rsa_private_read(raw) {
                Ok(_) => Ok(PrivateKey::Rsa(RsaPrivate { der: slice_to_vec(raw) })),
                Err(e) => Err(Fault::DamagedPrivateKey(algo, Some(e))),
            },
            KeyAlgo::X25519 => match array_32(raw) {
                Some(k) => Ok(PrivateKey::X25519(k)),
                None => Err(Fault::DamagedPrivateKey(algo, Some(WRONG_LENGTH.to_string()))),
            },
            KeyAlgo::MlKem768 => {
                if raw.len() != 2400 {
                    return Err(Fault::DamagedPrivateKey(algo, None));
                }
                Ok(PrivateKey::MlKem(MlKemPrivate { dk: mlkem_private_read(raw) }))
            },
        }
    }
}

/// The RSA key pair that a search for one came to: the one whose document was
/// found, or the reason why none was.
pub fn rsa_pair(found: Result<Vec<u8>, String>) -> (res: Result<PrivateKey, Fault>)
    ensures
        match found {
            Ok(der) => match private_from(KeyAlgo::Rsa4096, der@) {
                Ok(bytes) => res matches Ok(sk) && sk@ == (KeyView {
                    algo: KeyAlgo::Rsa4096,
                    bytes,
                }),
                Err(f) => res matches Err(e) && e.is_for(f),
            },
            Err(why) => res matches Err(Fault::RsaGeneration(said)) && said@ == why@,
        },
{
    match found {
        Ok(der) => PrivateKey::from_bytes(KeyAlgo::Rsa4096, &der),
        Err(why) => Err(Fault::RsaGeneration(why)),
    }
}

/// Makes a key pair. Only finding an RSA key may fail. One that is found has 4096
/// bits, and the bytes of its public key stand for that key, as those of the
/// other types always do. An ML-KEM key holds the hash that its public key has. A
/// key is written out as its own bytes.
pub fn generate(algo: KeyAlgo) -> (res: Result<PrivateKey, Fault>)
    ensures
        res matches Ok(sk) ==> sk@.algo == algo,
        res matches Ok(sk) ==> (algo == KeyAlgo::Rsa4096 ==> rsa_bits(public_of(sk@).bytes)
            == 4096),
        res matches Ok(sk) ==> (algo == KeyAlgo::Rsa4096 ==> public_from(
            algo,
            public_of(sk@).bytes,
        ) == Ok::<_, Refusal>(public_of(sk@).bytes)),
        res matches Ok(sk) ==> (algo == KeyAlgo::Rsa4096 ==> rsa_balanced(sk@.bytes)),
        res matches Ok(sk) ==> (algo == KeyAlgo::MlKem768 ==> own_hash(
            public_of(sk@).bytes,
            public_of(sk@).hash->0,
        ) && exists|seed: Seq<u8>| seed.len() == 64 && #[trigger] mlkem_generated(seed)
            == sk@.bytes),
        res matches Ok(sk) ==> private_written(sk@) == Ok::<_, Seq<char>>(sk@.bytes),
        res matches Err(e) ==> e is RsaGeneration && algo == KeyAlgo::Rsa4096,
{
    match algo {
        KeyAlgo::Rsa4096 => rsa_pair(rsa_generate(4096)),
        KeyAlgo::X25519 => Ok(PrivateKey::X25519(x25519_secret())),
        KeyAlgo::MlKem768 => Ok(PrivateKey::MlKem(MlKemPrivate { dk: mlkem_generate() })),
    }
}

// -------------------------------------------------------- wrapped data keys

/// The parts of a wrapped data key that the header needs: an optional KEM
/// ciphertext and nonce, and the wrapped key itself.
#[derive(Debug)]
pub struct Wrapped {
    pub kem: Option<Vec<u8>>,
    pub nonce: Option<[u8; 12]>,
    pub wrapped: Vec<u8>,
}

/// The bytes of a wrapped data key.
pub struct WrappedView {
    pub kem: Option<Seq<u8>>,
    pub nonce: Option<Seq<u8>>,
    pub wrapped: Seq<u8>,
}

impl View for Wrapped {
    type V = WrappedView;

    open spec fn view(&self) -> WrappedView {
        WrappedView {
            kem: match self.kem {
                Some(k) => Some(k@),
                None => None,
            },
            nonce: match self.nonce {
                Some(n) => Some(n@),
                None => None,
            },
            wrapped: self.wrapped@,
        }
    }
}

/// The key that wraps for an X25519 key, once a secret is agreed on.
pub open spec fn x25519_kek(shared: Seq<u8>, ephemeral: Seq<u8>, public: Seq<u8>) -> Seq<u8> {
    hkdf_of(shared, X25519_INFO.spec_bytes() + ephemeral + public)
}

/// The key that wraps for an ML-KEM key, once a secret is encapsulated.
pub open spec fn mlkem_kek(shared: Seq<u8>, ct: Seq<u8>) -> Seq<u8> {
    hkdf_of(shared, MLKEM_INFO.spec_bytes() + ct)
}

/// The data key that a private key takes out of its wrapping, or why it does
/// not.
pub open spec fn unwrap_of(sk: KeyView, w: WrappedView) -> Result<Seq<u8>, Fault> {
    match sk.algo {
        KeyAlgo::Rsa4096 => if !rsa_balanced(sk.bytes) {
            Err(Fault::KeyDoesNotFit)
        } else {
            match rsa_opened(sk.bytes, w.wrapped) {
                None => Err(Fault::KeyDoesNotFit),
                Some(p) => if p.len() != 32 {
                    Err(Fault::DataKeyLength)
                } else {
                    Ok(p)
                },
            }
        },
        KeyAlgo::X25519 => match w.kem {
            None => Err(Fault::MissingEphemeral),
            Some(e) => if e.len() != 32 {
                Err(Fault::DamagedEphemeral)
            } else {
                unwrapped(
                    x25519_kek(x25519_shared_of(sk.bytes, e), e, x25519_public_of(sk.bytes)),
                    w.nonce,
                    w.wrapped,
                )
            },
        },
        KeyAlgo::MlKem768 => match w.kem {
            None => Err(Fault::MissingKem),
            Some(ct) => if ct.len() != 1088 {
                Err(Fault::DamagedKem)
            } else {
                unwrapped(mlkem_kek(mlkem_decapsulated(sk.bytes, ct), ct), w.nonce, w.wrapped)
            },
        },
    }
}

/// Whether a data key is wrapped under a key with some nonce.
pub open spec fn wrapped_under(kek: Seq<u8>, w: WrappedView, dek: Seq<u8>) -> bool {
    w.nonce matches Some(nonce) && nonce.len() == 12 && w.wrapped == aes_sealed(
        kek,
        nonce,
        WRAP_AAD.spec_bytes(),
        dek,
    )
}

/// Whether a data key is wrapped for an RSA key, with padding from `seed`.
pub open spec fn wrapped_rsa(pk: Seq<u8>, w: WrappedView, dek: Seq<u8>, seed: Seq<u8>) -> bool {
    &&& seed.len() == 32
    &&& rsa_sealed(pk, seed, dek) == Ok::<_, Seq<char>>(w.wrapped)
    &&& w.kem is None
    &&& w.nonce is None
}

/// Whether a data key is wrapped for an X25519 key, with the ephemeral secret
/// `eph`.
pub open spec fn wrapped_x25519(pk: Seq<u8>, w: WrappedView, dek: Seq<u8>, eph: Seq<u8>) -> bool {
    &&& eph.len() == 32
    &&& w.kem == Some(x25519_public_of(eph))
    &&& wrapped_under(x25519_kek(x25519_shared_of(eph, pk), x25519_public_of(eph), pk), w, dek)
}

/// Whether a data key is wrapped for an ML-KEM key with this hash, encapsulated
/// out of `coins`.
pub open spec fn wrapped_mlkem(
    pk: Seq<u8>,
    hash: Option<Seq<u8>>,
    w: WrappedView,
    dek: Seq<u8>,
    coins: Seq<u8>,
) -> bool {
    let (ct, shared) = mlkem_encapsulated(pk, hash, coins);
    &&& coins.len() == 32
    &&& w.kem == Some(ct)
    &&& wrapped_under(mlkem_kek(shared, ct), w, dek)
}

/// Whether a data key is wrapped for a public key.
pub open spec fn wrapped_for(pk: PublicView, w: WrappedView, dek: Seq<u8>) -> bool {
    match pk.algo {
        KeyAlgo::Rsa4096 => exists|seed: Seq<u8>| #[trigger] wrapped_rsa(pk.bytes, w, dek, seed),
        KeyAlgo::X25519 => exists|eph: Seq<u8>| #[trigger] wrapped_x25519(pk.bytes, w, dek, eph),
        KeyAlgo::MlKem768 => exists|coins: Seq<u8>| #[trigger]
            wrapped_mlkem(pk.bytes, pk.hash, w, dek, coins),
    }
}

/// Which parts a data key has that is wrapped for a public key, and how long they
/// are: for RSA one as long as the modulus, for the others a KEM part, a nonce
/// and the data key with its tag.
pub open spec fn wrapped_shape(pk: PublicView, w: WrappedView) -> bool {
    match pk.algo {
        KeyAlgo::Rsa4096 => w.kem is None && w.nonce is None && w.wrapped.len() == rsa_size(
            pk.bytes,
        ) && w.wrapped.len() <= DER_MAX,
        KeyAlgo::X25519 => (w.kem matches Some(k) && k.len() == 32) && (w.nonce matches Some(n)
            && n.len() == 12) && w.wrapped.len() == 48,
        KeyAlgo::MlKem768 => (w.kem matches Some(k) && k.len() == 1088) && (w.nonce matches Some(n)
            && n.len() == 12) && w.wrapped.len() == 48,
    }
}

/// Whether a private key decrypts what was encrypted for a public key. For
/// X25519 the one belongs to the other; for RSA and ML-KEM decryption gives back
/// what encryption was given.
pub open spec fn decrypts(sk: KeyView, pk: PublicView, w: WrappedView, dek: Seq<u8>) -> bool {
    sk.algo == pk.algo && match pk.algo {
        KeyAlgo::Rsa4096 => rsa_balanced(sk.bytes) && rsa_opened(sk.bytes, w.wrapped) == Some(dek),
        KeyAlgo::X25519 => sk.bytes.len() == 32 && pk == public_of(sk),
        KeyAlgo::MlKem768 => forall|coins: Seq<u8>| #[trigger]
            wrapped_mlkem(pk.bytes, pk.hash, w, dek, coins) ==> mlkem_decapsulated(
                sk.bytes,
                w.kem->0,
            ) == mlkem_encapsulated(pk.bytes, pk.hash, coins).1,
    }
}

/// Wraps a data key for an X25519 key, with a given ephemeral secret. Whoever
/// holds the key's secret takes the data key out again.
pub fn wrap_x25519(eph: &[u8; 32], k: &[u8; 32], dek: &[u8; 32]) -> (res: Result<Wrapped, Fault>)
    ensures
        res matches Ok(w) && wrapped_x25519(k@, w@, dek@, eph@) && w@.kem->0.len() == 32
            && w@.wrapped.len() == 48,
        res matches Ok(w) ==> forall|secret: Seq<u8>|
            secret.len() == 32 && k@ == #[trigger] x25519_public_of(secret) ==> unwrap_of(
                KeyView { algo: KeyAlgo::X25519, bytes: secret },
                w@,
            ) == Ok::<_, Fault>(dek@),
{
    let eph_pub = x25519_public(eph);
    let shared = x25519_shared(eph, k);
    let parts: [&[u8]; 2] = [eph_pub.as_slice(), k.as_slice()];
    let kek = hkdf(shared.as_slice(), X25519_INFO.as_bytes(), parts.as_slice());
    proof {
        let p = parts@;
        assert(p.drop_last().drop_last() =~= Seq::<&[u8]>::empty());
        assert(p.drop_last().last()@ == eph_pub@);
        reveal_with_fuel(joined, 3);
        assert(joined(p) =~= eph_pub@ + k@);
        assert(X25519_INFO.spec_bytes() + joined(p) =~= X25519_INFO.spec_bytes() + eph_pub@ + k@);
    }
    match wrap_with_kek(&kek, dek) {
        Ok((nonce, wrapped)) => Ok(
            Wrapped { kem: Some(slice_to_vec(eph_pub.as_slice())), nonce: Some(nonce), wrapped },
        ),
        Err(e) => Err(e),
    }
}

/// Wraps a data key for an ML-KEM key, once a secret is encapsulated for it.
/// Whoever reads that secret out of the ciphertext takes the data key out again.
pub fn wrap_mlkem(ct: Vec<u8>, shared: &[u8], dek: &[u8; 32]) -> (res: Result<Wrapped, Fault>)
    requires
        ct@.len() == 1088,
    ensures
        res matches Ok(w) && w@.kem == Some(ct@) && wrapped_under(
            mlkem_kek(shared@, ct@),
            w@,
            dek@,
        ) && w@.wrapped.len() == 48,
        res matches Ok(w) ==> forall|dk: Seq<u8>|
            #[trigger] mlkem_decapsulated(dk, ct@) == shared@ ==> unwrap_of(
                KeyView { algo: KeyAlgo::MlKem768, bytes: dk },
                w@,
            ) == Ok::<_, Fault>(dek@),
{
    let parts: [&[u8]; 1] = [ct.as_slice()];
    let kek = hkdf(shared, MLKEM_INFO.as_bytes(), parts.as_slice());
    proof {
        let p = parts@;
        assert(p.drop_last() =~= Seq::<&[u8]>::empty());
        reveal_with_fuel(joined, 2);
        assert(joined(p) =~= ct@);
    }
    match wrap_with_kek(&kek, dek) {
        Ok((nonce, wrapped)) => Ok(Wrapped { kem: Some(ct), nonce: Some(nonce), wrapped }),
        Err(e) => Err(e),
    }
}

/// A decapsulation key around an encapsulation key and a hash. It decrypts
/// nothing.
fn dk_around(ek: &[u8], hash: &[u8; 32]) -> (dk: Vec<u8>)
    requires
        ek@.len() == 1184,
    ensures
        dk@.len() == 2400,
        dk@.subrange(1152, 2336) == ek@,
        dk@.subrange(2336, 2368) == hash@,
{
    let mut dk: Vec<u8> = Vec::new();
    push_bytes(&mut dk, &[0u8; 1152]);
    push_bytes(&mut dk, ek);
    push_bytes(&mut dk, hash);
    push_bytes(&mut dk, &[0u8; 32]);
    assert(dk@.subrange(1152, 2336) =~= ek@);
    assert(dk@.subrange(2336, 2368) =~= hash@);
    dk
}

/// Wraps a 32 byte data key for the recipient. Returns the parts the header
/// needs: an optional KEM ciphertext plus the wrapped key itself. Every private
/// key that decrypts what is encrypted for the recipient takes the data key out
/// again.
pub fn wrap(pk: &PublicKey, dek: &[u8; 32]) -> (res: Result<Wrapped, Fault>)
    ensures
        match res {
            Ok(w) => wrapped_for(pk@, w@, dek@) && wrapped_shape(pk@, w@),
            Err(e) => pk@.algo == KeyAlgo::Rsa4096 && (e matches Fault::RsaEncryption(said)
                && forall|seed: Seq<u8>|
                seed.len() == 32 ==> #[trigger] rsa_sealed(pk@.bytes, seed, dek@) == Err::<
                    Seq<u8>,
                    _,
                >(said@)),
        },
        res matches Ok(w) ==> forall|sk: KeyView| #[trigger]
            decrypts(sk, pk@, w@, dek@) ==> unwrap_of(sk, w@) == Ok::<_, Fault>(dek@),
{
    match pk {
        PublicKey::Rsa(k) => match rsa_seal(&k.der, dek) {
            Ok(ct) => {
                let w = Wrapped { kem: None, nonce: None, wrapped: ct };
                proof {
                    let seed = choose|seed: Seq<u8>|
                        seed.len() == 32 && #[trigger] rsa_sealed(k.der@, seed, dek@) == Ok::<
                            _,
                            Seq<char>,
                        >(ct@);
                    assert(wrapped_rsa(pk@.bytes, w@, dek@, seed));
                }
                Ok(w)
            },
            Err(e) => Err(Fault::RsaEncryption(e)),
        },
        PublicKey::X25519(k) => {
            let eph = x25519_secret();
            let res = wrap_x25519(&eph, k, dek);
            assert(wrapped_x25519(pk@.bytes, res->Ok_0@, dek@, eph@));
            res
        },
        PublicKey::MlKem(k) => {
            proof {
                use_type_invariant(k);
            }
            let sent = match &k.hash {
                None => mlkem_encapsulate(&k.ek),
                Some(hash) => mlkem_encapsulate_within(&dk_around(&k.ek, hash)),
            };
            match sent {
                Ok((ct, shared)) => {
                    let ghost pair = (ct@, shared@);
                    let res = wrap_mlkem(ct, &shared, dek);
                    proof {
                        let coins = choose|coins: Seq<u8>|
                            coins.len() == 32 && #[trigger] mlkem_encapsulated(
                                pk@.bytes,
                                pk@.hash,
                                coins,
                            ) == pair;
                        assert(wrapped_mlkem(pk@.bytes, pk@.hash, res->Ok_0@, dek@, coins));
                    }
                    res
                },
                Err(_) => Err(Fault::Encapsulation),
            }
        },
    }
}

/// A data key that is wrapped for an RSA key needs no other part, and what the
/// header says besides does not matter.
pub proof fn law_rsa_needs_one_part(sk: KeyView, w: WrappedView, v: WrappedView)
    requires
        sk.algo == KeyAlgo::Rsa4096,
        w.wrapped == v.wrapped,
    ensures
        unwrap_of(sk, w) == unwrap_of(sk, v),
{
}

/// For the other types, a data key does not come out where the KEM part or the
/// nonce is missing or has the wrong length.
pub proof fn law_missing_part_is_refused(sk: KeyView, w: WrappedView)
    requires
        sk.algo != KeyAlgo::Rsa4096,
        !(w.nonce matches Some(n) && n.len() == 12) || !(w.kem matches Some(k) && k.len()
            == if sk.algo == KeyAlgo::X25519 {
            32int
        } else {
            1088
        }),
    ensures
        unwrap_of(sk, w) is Err,
{
}

/// What is wrapped for a public key out of its file is wrapped for the key itself,
/// and the other way round, wherever an ML-KEM key holds its own hash. A key pair
/// that was generated does.
pub proof fn law_file_key_wraps_alike(pk: PublicView, w: WrappedView, dek: Seq<u8>)
    requires
        pk.hash is Some <==> pk.algo == KeyAlgo::MlKem768,
        pk.algo == KeyAlgo::MlKem768 ==> own_hash(pk.bytes, pk.hash->0),
    ensures
        wrapped_for(in_file(pk.algo, pk.bytes), w, dek) == wrapped_for(pk, w, dek),
{
    if pk.algo == KeyAlgo::MlKem768 {
        let file = in_file(pk.algo, pk.bytes);
        assert forall|coins: Seq<u8>| #[trigger]
            wrapped_mlkem(file.bytes, file.hash, w, dek, coins) == wrapped_mlkem(
                pk.bytes,
                pk.hash,
                w,
                dek,
                coins,
            ) by {
            if coins.len() == 32 {
                assert(mlkem_encapsulated(pk.bytes, Some(pk.hash->0), coins)
                    == mlkem_encapsulated(pk.bytes, None, coins));
            }
        }
        if wrapped_for(pk, w, dek) {
            let coins = choose|coins: Seq<u8>| #[trigger]
                wrapped_mlkem(pk.bytes, pk.hash, w, dek, coins);
            assert(wrapped_mlkem(file.bytes, file.hash, w, dek, coins));
        }
    }
}

/// The key that an X25519 or ML-KEM key derives for a wrapping with this KEM
/// part.
pub open spec fn kek_of(sk: KeyView, kem: Seq<u8>) -> Seq<u8> {
    if sk.algo == KeyAlgo::X25519 {
        x25519_kek(x25519_shared_of(sk.bytes, kem), kem, x25519_public_of(sk.bytes))
    } else {
        mlkem_kek(mlkem_decapsulated(sk.bytes, kem), kem)
    }
}

/// Another X25519 or ML-KEM key takes no data key out: a wrapping that was made
/// under `kek` with this nonce is refused by every key that derives another one,
/// and by every key once it was altered, as long as nothing is forged.
pub proof fn law_another_key_is_refused(
    sk: KeyView,
    w: WrappedView,
    kek: Seq<u8>,
    nonce: Seq<u8>,
    wrapped: Seq<u8>,
)
    requires
        sk.algo != KeyAlgo::Rsa4096,
        w.kem matches Some(k) && k.len() == if sk.algo == KeyAlgo::X25519 {
            32int
        } else {
            1088
        },
        w.nonce matches Some(n) && n.len() == 12,
        kek_of(sk, w.kem->0) != kek || w.nonce->0 != nonce || w.wrapped != wrapped,
        genuine(
            kek,
            nonce,
            wrapped,
            WRAP_AAD.spec_bytes(),
            (kek_of(sk, w.kem->0), w.nonce->0, w.wrapped),
        ),
    ensures
        unwrap_of(sk, w) == Err::<Seq<u8>, _>(Fault::WrongKey),
{
    law_altered_wrapping_is_refused(
        kek,
        nonce,
        wrapped,
        kek_of(sk, w.kem->0),
        w.nonce->0,
        w.wrapped,
    );
}

/// Takes a data key out of its wrapping. An RSA key whose second factor is far
/// longer than its first takes none out.
pub fn unwrap(
    sk: &PrivateKey,
    kem: Option<&[u8]>,
    nonce: Option<&[u8]>,
    wrapped: &[u8],
) -> (res: Result<[u8; 32], Fault>)
    ensures
        match unwrap_of(
            sk@,
            WrappedView {
                kem: match kem {
                    Some(k) => Some(k@),
                    None => None,
                },
                nonce: match nonce {
                    Some(n) => Some(n@),
                    None => None,
                },
                wrapped: wrapped@,
            },
        ) {
            Ok(dek) => res matches Ok(k) && k@ == dek,
            Err(f) => res matches Err(e) && e == f,
        },
{
    match sk {
        PrivateKey::Rsa(k) => {
            proof {
                use_type_invariant(k);
            }
            let (first, second) = rsa_factors(&k.der);
            if second > first && second - first > 32 {
                return Err(Fault::KeyDoesNotFit);
            }
            let mut plain = match rsa_open(&k.der, wrapped) {
                Ok(p) => p,
                Err(_) => {
                    return Err(Fault::KeyDoesNotFit);
                },
            };
            match array_32(&plain) {
                Some(out) => {
                    wipe_bytes(&mut plain);
                    Ok(out)
                },
                None => Err(Fault::DataKeyLength),
            }
        },
        PrivateKey::X25519(k) => {
            let kem = match kem {
                Some(e) => e,
                None => {
                    return Err(Fault::MissingEphemeral);
                },
            };
            let eph_pub = match array_32(kem) {
                Some(e) => e,
                None => {
                    return Err(Fault::DamagedEphemeral);
                },
            };
            let shared = x25519_shared(k, &eph_pub);
            let own_pub = x25519_public(k);
            let parts: [&[u8]; 2] = [eph_pub.as_slice(), own_pub.as_slice()];
            let kek = hkdf(shared.as_slice(), X25519_INFO.as_bytes(), parts.as_slice());
            proof {
                let p = parts@;
                assert(p.drop_last().drop_last() =~= Seq::<&[u8]>::empty());
                assert(p.drop_last().last()@ == eph_pub@);
                reveal_with_fuel(joined, 3);
                assert(joined(p) =~= eph_pub@ + own_pub@);
                assert(X25519_INFO.spec_bytes() + joined(p) =~= X25519_INFO.spec_bytes() + eph_pub@
                    + own_pub@);
            }
            unwrap_with_kek(&kek, nonce, wrapped)
        },
        PrivateKey::MlKem(k) => {
            proof {
                use_type_invariant(k);
            }
            let kem = match kem {
                Some(ct) => ct,
                None => {
                    return Err(Fault::MissingKem);
                },
            };
            if kem.len() != 1088 {
                return Err(Fault::DamagedKem);
            }
            let shared = match mlkem_decapsulate(&k.dk, kem) {
                Ok(s) => s,
                Err(_) => {
                    return Err(Fault::Decapsulation);
                },
            };
            let parts: [&[u8]; 1] = [kem];
            let kek = hkdf(&shared, MLKEM_INFO.as_bytes(), parts.as_slice());
            proof {
                let p = parts@;
                assert(p.drop_last() =~= Seq::<&[u8]>::empty());
                reveal_with_fuel(joined, 2);
                assert(joined(p) =~= kem@);
            }
            unwrap_with_kek(&kek, nonce, wrapped)
        },
    }
}

/// The first character of every name of a type, and how long it is.
proof fn lemma_type_names()
    ensures
        "rsa-4096"@.len() == 8 && "rsa-4096"@[0] == 'r',
        "rsa"@.len() == 3 && "rsa"@[0] == 'r',
        "x25519"@.len() == 6 && "x25519"@[0] == 'x',
        "ecc"@.len() == 3 && "ecc"@[0] == 'e',
        "ml-kem-768"@.len() == 10 && "ml-kem-768"@[0] == 'm',
        "mlkem"@.len() == 5 && "mlkem"@[0] == 'm',
        "ml-kem"@.len() == 6 && "ml-kem"@[0] == 'm',
        "RSA-4096"@.len() == 8 && "RSA-4096"@[0] == 'R',
        "X25519 (ECC)"@.len() == 12 && "X25519 (ECC)"@[0] == 'X',
        "ML-KEM-768"@.len() == 10 && "ML-KEM-768"@[0] == 'M',
{
    reveal_strlit("rsa-4096");
    reveal_strlit("rsa");
    reveal_strlit("x25519");
    reveal_strlit("ecc");
    reveal_strlit("ml-kem-768");
    reveal_strlit("mlkem");
    reveal_strlit("ml-kem");
    reveal_strlit("RSA-4096");
    reveal_strlit("X25519 (ECC)");
    reveal_strlit("ML-KEM-768");
}

/// Which names stand for which type of key pair: each type has its own names, and
/// nothing else stands for it.
pub proof fn law_names_of_the_types(s: Seq<char>)
    ensures
        algo_named(s) == Some(KeyAlgo::Rsa4096) <==> (s == "rsa-4096"@ || s == "rsa"@),
        algo_named(s) == Some(KeyAlgo::X25519) <==> (s == "x25519"@ || s == "ecc"@),
        algo_named(s) == Some(KeyAlgo::MlKem768) <==> (s == "ml-kem-768"@ || s == "mlkem"@ || s
            == "ml-kem"@),
{
    lemma_type_names();
}

/// Different types are shown and written differently, and each as itself: the tag
/// of a type is the one of its names that says which size it has, and what is shown
/// fits into a column.
pub proof fn law_labels_of_the_types(a: KeyAlgo, b: KeyAlgo)
    ensures
        algo_label(a) == algo_label(b) ==> a == b,
        algo_tag(a) == algo_tag(b) ==> a == b,
        algo_label(a) == "RSA-4096"@ <==> a == KeyAlgo::Rsa4096,
        algo_label(a) == "X25519 (ECC)"@ <==> a == KeyAlgo::X25519,
        algo_label(a) == "ML-KEM-768"@ <==> a == KeyAlgo::MlKem768,
        algo_tag(a) == "rsa-4096"@ <==> a == KeyAlgo::Rsa4096,
        algo_tag(a) == "x25519"@ <==> a == KeyAlgo::X25519,
        algo_tag(a) == "ml-kem-768"@ <==> a == KeyAlgo::MlKem768,
        algo_label(a).len() <= 14,
{
    lemma_type_names();
}

/// The fingerprint of a key is 16 digits: those of the first 8 bytes of the digest
/// of its tag, a zero byte, and its bytes. What came with the key besides does not
/// matter.
pub proof fn law_fingerprint_is_of_type_and_bytes(key: PublicView, i: int)
    requires
        sha256_of(
            vstd::utf8::encode_utf8(algo_tag(key.algo)) + seq![0u8] + key.bytes,
        ).len() >= 8,
        0 <= i < 8,
    ensures
        fingerprint_of(key).len() == 16,
        16 * crate::text::digit_value(fingerprint_of(key)[2 * i]) + crate::text::digit_value(
            fingerprint_of(key)[2 * i + 1],
        ) == sha256_of(vstd::utf8::encode_utf8(algo_tag(key.algo)) + seq![0u8] + key.bytes)[i],
        fingerprint_of(key) == fingerprint_of(in_file(key.algo, key.bytes)),
{
    let digest = sha256_of(vstd::utf8::encode_utf8(algo_tag(key.algo)) + seq![0u8] + key.bytes);
    crate::text::law_hex_digits_give_the_bytes(digest.take(8));
    assert(digest.take(8)[i] == digest[i]);
}

/// The keys that wrap are derived from the secret that was agreed on, under a label
/// of the type, and bound to what was sent: for X25519 to the ephemeral key and the
/// recipient's, in this order, and for ML-KEM to the ciphertext.
pub proof fn law_what_a_wrapping_key_is_bound_to(shared: Seq<u8>, sent: Seq<u8>, public: Seq<u8>)
    ensures
        x25519_kek(shared, sent, public) == hkdf_of(
            shared,
            "cryptosec/x25519/v1".spec_bytes() + sent + public,
        ),
        mlkem_kek(shared, sent) == hkdf_of(shared, "cryptosec/ml-kem-768/v1".spec_bytes() + sent),
{
}

/// A data key is wrapped under a key exactly where it was sealed with a nonce of 12
/// bytes, that stands beside it, under the label of wrappings.
pub proof fn law_what_a_wrapping_is(kek: Seq<u8>, w: WrappedView, dek: Seq<u8>)
    ensures
        wrapped_under(kek, w, dek) <==> (w.nonce matches Some(n) && n.len() == 12 && w.wrapped
            == aes_sealed(kek, n, "cryptosec/keywrap/v1".spec_bytes(), dek)),
{
}

/// Which bytes stand for a key: of X25519 and ML-KEM those of the one length that
/// there is, of RSA those that are a document of a key. Nothing else is refused, and
/// X25519 keys are the bytes themselves.
pub proof fn law_which_bytes_are_keys(raw: Seq<u8>)
    ensures
        public_from(KeyAlgo::X25519, raw) is Ok <==> raw.len() == 32,
        public_from(KeyAlgo::X25519, raw) matches Ok(k) ==> k == raw,
        private_from(KeyAlgo::X25519, raw) is Ok <==> raw.len() == 32,
        private_from(KeyAlgo::X25519, raw) matches Ok(k) ==> k == raw,
        public_from(KeyAlgo::MlKem768, raw) is Ok <==> raw.len() == 1184,
        public_from(KeyAlgo::MlKem768, raw) matches Ok(k) ==> k == mlkem_public_of(raw),
        private_from(KeyAlgo::MlKem768, raw) is Ok <==> raw.len() == 2400,
        private_from(KeyAlgo::MlKem768, raw) matches Ok(k) ==> k == mlkem_private_of(raw),
        public_from(KeyAlgo::Rsa4096, raw) is Ok <==> rsa_public_of(raw) is Ok,
        public_from(KeyAlgo::Rsa4096, raw) matches Ok(k) ==> rsa_public_of(raw) == Ok::<
            _,
            Seq<char>,
        >(k),
        private_from(KeyAlgo::Rsa4096, raw) is Ok <==> rsa_private_fault(raw) is None,
        private_from(KeyAlgo::Rsa4096, raw) matches Ok(k) ==> k == raw,
{
}

/// A key that does not stand for one is refused as damaged, and as one of the type
/// that was meant.
pub proof fn law_damaged_keys_are_told_by_type(algo: KeyAlgo, raw: Seq<u8>)
    ensures
        public_from(algo, raw) matches Err(f) ==> (f matches Refusal::DamagedPublicKey(a, _) && a
            == algo),
        private_from(algo, raw) matches Err(f) ==> (f matches Refusal::DamagedPrivateKey(a, _)
            && a == algo),
{
}

/// The public key of a private key is of the same type, and is the one that the
/// type's own arithmetic gives. A key is written out as its bytes, but for RSA,
/// whose documents are written anew.
pub proof fn law_public_part_of_a_key(sk: KeyView)
    ensures
        public_of(sk).algo == sk.algo,
        sk.algo == KeyAlgo::Rsa4096 ==> public_of(sk).bytes == rsa_public_part(sk.bytes)
            && private_written(sk) == rsa_private_written(sk.bytes),
        sk.algo == KeyAlgo::X25519 ==> public_of(sk).bytes == x25519_public_of(sk.bytes),
        sk.algo == KeyAlgo::MlKem768 ==> public_of(sk).bytes == mlkem_public_of(
            sk.bytes.subrange(1152, 2336),
        ) && public_of(sk).hash == Some(sk.bytes.subrange(2336, 2368)),
        sk.algo != KeyAlgo::Rsa4096 ==> private_written(sk) == Ok::<_, Seq<char>>(sk.bytes),
{
}

/// What a private key takes out of a wrapping is what its type's own arithmetic
/// gives: RSA what it decrypts, the others what opens under the key that they
/// derive. It has 32 bytes, or it is not taken.
pub proof fn law_what_a_private_key_takes_out(sk: KeyView, w: WrappedView, dek: Seq<u8>)
    ensures
        sk.algo == KeyAlgo::Rsa4096 ==> (unwrap_of(sk, w) == Ok::<_, Fault>(dek) <==> dek.len()
            == 32 && rsa_balanced(sk.bytes) && rsa_opened(sk.bytes, w.wrapped) == Some(dek)),
        sk.algo == KeyAlgo::X25519 ==> (unwrap_of(sk, w) == Ok::<_, Fault>(dek) <==> dek.len()
            == 32 && (w.kem matches Some(e) && e.len() == 32 && (w.nonce matches Some(n) && n.len()
            == 12 && crate::primitives::aes_opened(
            hkdf_of(
                x25519_shared_of(sk.bytes, e),
                "cryptosec/x25519/v1".spec_bytes() + e + x25519_public_of(sk.bytes),
            ),
            n,
            "cryptosec/keywrap/v1".spec_bytes(),
            w.wrapped,
        ) == Some(dek)))),
        sk.algo == KeyAlgo::MlKem768 ==> (unwrap_of(sk, w) == Ok::<_, Fault>(dek) <==> dek.len()
            == 32 && (w.kem matches Some(ct) && ct.len() == 1088 && (w.nonce matches Some(n)
            && n.len() == 12 && crate::primitives::aes_opened(
            hkdf_of(
                mlkem_decapsulated(sk.bytes, ct),
                "cryptosec/ml-kem-768/v1".spec_bytes() + ct,
            ),
            n,
            "cryptosec/keywrap/v1".spec_bytes(),
            w.wrapped,
        ) == Some(dek)))),
{
}

/// Why a private key takes nothing out: a part that is missing or has the wrong
/// length is told by its name and its type.
pub proof fn law_why_a_private_key_takes_nothing_out(sk: KeyView, w: WrappedView)
    ensures
        sk.algo == KeyAlgo::X25519 && w.kem is None ==> unwrap_of(sk, w) == Err::<Seq<u8>, _>(
            Fault::MissingEphemeral,
        ),
        sk.algo == KeyAlgo::X25519 ==> (w.kem matches Some(e) ==> (e.len() != 32 ==> unwrap_of(
            sk,
            w,
        ) == Err::<Seq<u8>, _>(Fault::DamagedEphemeral))),
        sk.algo == KeyAlgo::MlKem768 && w.kem is None ==> unwrap_of(sk, w) == Err::<Seq<u8>, _>(
            Fault::MissingKem,
        ),
        sk.algo == KeyAlgo::MlKem768 ==> (w.kem matches Some(ct) ==> (ct.len() != 1088 ==> unwrap_of(
            sk,
            w,
        ) == Err::<Seq<u8>, _>(Fault::DamagedKem))),
        sk.algo == KeyAlgo::Rsa4096 && rsa_balanced(sk.bytes) && rsa_opened(sk.bytes, w.wrapped)
            is None ==> unwrap_of(sk, w) == Err::<Seq<u8>, _>(Fault::KeyDoesNotFit),
{
}

/// What is sent to a key pair along with the data key: for X25519 the public key of
/// an ephemeral secret, and the data key under what the two keys agree on; for
/// ML-KEM the ciphertext of an encapsulation, and the data key under the secret in
/// it; for RSA the encrypted data key and nothing else.
pub proof fn law_what_is_sent_to_a_key_pair(
    pk: Seq<u8>,
    hash: Option<Seq<u8>>,
    w: WrappedView,
    dek: Seq<u8>,
    seed: Seq<u8>,
)
    ensures
        wrapped_rsa(pk, w, dek, seed) <==> seed.len() == 32 && w.kem is None && w.nonce is None
            && rsa_sealed(pk, seed, dek) == Ok::<_, Seq<char>>(w.wrapped),
        wrapped_x25519(pk, w, dek, seed) <==> seed.len() == 32 && w.kem == Some(
            x25519_public_of(seed),
        ) && (w.nonce matches Some(n) && n.len() == 12 && w.wrapped == aes_sealed(
            hkdf_of(
                x25519_shared_of(seed, pk),
                "cryptosec/x25519/v1".spec_bytes() + x25519_public_of(seed) + pk,
            ),
            n,
            "cryptosec/keywrap/v1".spec_bytes(),
            dek,
        )),
        wrapped_mlkem(pk, hash, w, dek, seed) <==> seed.len() == 32 && w.kem == Some(
            mlkem_encapsulated(pk, hash, seed).0,
        ) && (w.nonce matches Some(n) && n.len() == 12 && w.wrapped == aes_sealed(
            hkdf_of(
                mlkem_encapsulated(pk, hash, seed).1,
                "cryptosec/ml-kem-768/v1".spec_bytes() + mlkem_encapsulated(pk, hash, seed).0,
            ),
            n,
            "cryptosec/keywrap/v1".spec_bytes(),
            dek,
        )),
{
}

/// Which private keys take a data key out that was wrapped for a public key: of
/// X25519 every one that the public key belongs to; of RSA every one that decrypts
/// it; of ML-KEM every one that decapsulates what was encapsulated. A key of another
/// type never does.
pub proof fn law_who_takes_a_data_key_out(
    sk: KeyView,
    pk: PublicView,
    w: WrappedView,
    dek: Seq<u8>,
    coins: Seq<u8>,
)
    ensures
        sk.algo == KeyAlgo::X25519 && sk.bytes.len() == 32 ==> decrypts(sk, public_of(sk), w, dek),
        sk.algo == KeyAlgo::Rsa4096 && pk.algo == KeyAlgo::Rsa4096 && rsa_balanced(sk.bytes)
            && rsa_opened(sk.bytes, w.wrapped) == Some(dek) ==> decrypts(sk, pk, w, dek),
        sk.algo != pk.algo ==> !decrypts(sk, pk, w, dek),
        decrypts(sk, pk, w, dek) && pk.algo == KeyAlgo::X25519 ==> pk.bytes == x25519_public_of(
            sk.bytes,
        ),
        decrypts(sk, pk, w, dek) && pk.algo == KeyAlgo::MlKem768 && wrapped_mlkem(
            pk.bytes,
            pk.hash,
            w,
            dek,
            coins,
        ) ==> mlkem_decapsulated(sk.bytes, w.kem->0) == mlkem_encapsulated(
            pk.bytes,
            pk.hash,
            coins,
        ).1,
{
}

/// How long the parts of a wrapped data key are: 32 bytes of an ephemeral key or
/// 1088 of a ciphertext, a nonce of 12, and the data key with its tag; and for RSA
/// as many bytes as the modulus has.
pub proof fn law_how_long_a_wrapping_is(pk: PublicView, w: WrappedView)
    requires
        wrapped_shape(pk, w),
    ensures
        pk.algo == KeyAlgo::Rsa4096 <==> w.kem is None,
        pk.algo == KeyAlgo::Rsa4096 <==> w.nonce is None,
        pk.algo == KeyAlgo::X25519 ==> w.kem->0.len() == 32,
        pk.algo == KeyAlgo::MlKem768 ==> w.kem->0.len() == 1088,
        pk.algo != KeyAlgo::Rsa4096 ==> w.nonce->0.len() == 12 && w.wrapped.len() == 32 + 16,
        pk.algo == KeyAlgo::Rsa4096 ==> 8 * w.wrapped.len() - 8 < rsa_bits(pk.bytes) <= 8
            * w.wrapped.len() || rsa_bits(pk.bytes) == 0,
{
}

} // verus!
