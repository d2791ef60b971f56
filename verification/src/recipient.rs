//! The header of a container: how its data key is wrapped, and how it is taken
//! out again.
use crate::cli::Scheme;
use crate::fault::{Fault, Refusal};
use crate::format::{recipient_fingerprint, Meta, Recipient, CHUNK};
use crate::kdf::{
    argon2id, genuine, law_altered_wrapping_is_refused, password_key, random_bytes,
    unwrap_with_kek, unwrapped, wrap_with_kek, KDF_NAME, M_COST, P_COST, T_COST, WRAP_AAD,
};
use crate::keys::{
    decrypts, fingerprint_of, public_of, unwrap, unwrap_of, wrap, wrapped_for, wrapped_shape,
    KeyAlgo, KeyView, PrivateKey, PublicKey, PublicView, Wrapped, WrappedView,
};
use crate::primitives::{
    aes_sealed, argon2_of, base64_decode, base64_encode, base64_of, base64_read, rsa_sealed,
    wipe_key, DER_MAX,
};
use crate::store::KeyEntry;
use crate::text::{array_7, same_text};
use vstd::prelude::*;
use vstd::string::*;

verus! {

// ---------------------------------------------------------------- password

/// The data key that a password takes out of the fields of a header, or why it
/// takes none out.
pub open spec fn password_opened(
    password: Seq<char>,
    salt: Seq<char>,
    m_cost: u32,
    t_cost: u32,
    p_cost: u32,
    wrap_nonce: Seq<char>,
    wrapped: Seq<char>,
) -> Result<Seq<u8>, Refusal> {
    match (base64_read(salt), base64_read(wrap_nonce), base64_read(wrapped)) {
        (Ok(s), Ok(n), Ok(w)) => match password_key(password, s, m_cost, t_cost, p_cost) {
            Err(f) => Err(f),
            Ok(kek) => match unwrapped(kek, Some(n), w) {
                Ok(dek) => Ok(dek),
                Err(f) => Err(Refusal::Is(f)),
            },
        },
        (Err(e), _, _) => Err(Refusal::DamagedHeader(e)),
        (_, Err(e), _) => Err(Refusal::DamagedHeader(e)),
        (_, _, Err(e)) => Err(Refusal::DamagedHeader(e)),
    }
}

/// Whether a recipient is what a password makes of a data key with this salt and
/// nonce.
pub open spec fn is_password_recipient(
    r: Recipient,
    password: Seq<char>,
    dek: Seq<u8>,
    salt: Seq<u8>,
    nonce: Seq<u8>,
) -> bool {
    r matches Recipient::Password {
        kdf,
        salt: salt_text,
        m_cost,
        t_cost,
        p_cost,
        wrap_nonce,
        wrapped,
    } && {
        &&& kdf@ == KDF_NAME@
        &&& salt_text@ == base64_of(salt)
        &&& m_cost == M_COST && t_cost == T_COST && p_cost == P_COST
        &&& wrap_nonce@ == base64_of(nonce)
        &&& wrapped@ == base64_of(
            aes_sealed(
                argon2_of(password, salt, M_COST, T_COST, P_COST),
                nonce,
                WRAP_AAD.spec_bytes(),
                dek,
            ),
        )
    }
}

/// Whether a password takes a data key out of a recipient.
pub open spec fn password_gives(r: Recipient, password: Seq<char>, dek: Seq<u8>) -> bool {
    r matches Recipient::Password { kdf, salt, m_cost, t_cost, p_cost, wrap_nonce, wrapped }
        && kdf@ == KDF_NAME@ && password_opened(
        password,
        salt@,
        m_cost,
        t_cost,
        p_cost,
        wrap_nonce@,
        wrapped@,
    ) == Ok::<_, Refusal>(dek)
}

/// Another password takes no data key out, and no password takes one out of a
/// header whose salt, costs, nonce or wrapping was altered: wherever the key that
/// comes out of the password, the nonce or the wrapping is another than it was
/// wrapped with, as long as nothing is forged.
pub proof fn law_another_password_is_refused(
    kek: Seq<u8>,
    nonce: Seq<u8>,
    wrapped: Seq<u8>,
    password: Seq<char>,
    salt: Seq<char>,
    m_cost: u32,
    t_cost: u32,
    p_cost: u32,
    wrap_nonce: Seq<char>,
    text: Seq<char>,
)
    requires
        base64_read(salt) is Ok,
        base64_read(wrap_nonce) matches Ok(n) && n.len() == 12,
        base64_read(text) is Ok,
        password_key(password, base64_read(salt)->Ok_0, m_cost, t_cost, p_cost) matches Ok(k) && {
            let other = (k, base64_read(wrap_nonce)->Ok_0, base64_read(text)->Ok_0);
            &&& other != (kek, nonce, wrapped)
            &&& genuine(kek, nonce, wrapped, WRAP_AAD.spec_bytes(), other)
        },
    ensures
        password_opened(password, salt, m_cost, t_cost, p_cost, wrap_nonce, text) == Err::<
            Seq<u8>,
            _,
        >(Refusal::Is(Fault::WrongKey)),
{
    law_altered_wrapping_is_refused(
        kek,
        nonce,
        wrapped,
        password_key(password, base64_read(salt)->Ok_0, m_cost, t_cost, p_cost)->Ok_0,
        base64_read(wrap_nonce)->Ok_0,
        base64_read(text)->Ok_0,
    );
}

/// Whether a fault is why a password gives no key with this salt. A password is
/// only ever too long.
pub open spec fn underived_for(e: Fault, password: Seq<char>, salt: Seq<u8>) -> bool {
    password_key(password, salt, M_COST, T_COST, P_COST) matches Err(f) && e.is_for(f)
        && vstd::utf8::encode_utf8(password).len() > 0xFFFF_FFFF
}

/// Wraps a data key under a password, with a given salt. The same password takes
/// it out again.
pub fn password_recipient_with(password: &str, dek: &[u8; 32], salt: &[u8; 16]) -> (res: Result<
    Recipient,
    Fault,
>)
    ensures
        match res {
            Ok(r) => password_gives(r, password@, dek@) && exists|nonce: Seq<u8>|
                nonce.len() == 12 && #[trigger] is_password_recipient(
                    r,
                    password@,
                    dek@,
                    salt@,
                    nonce,
                ),
            Err(e) => underived_for(e, password@, salt@),
        },
        res is Ok <==> password.spec_bytes().len() <= 0xFFFF_FFFF,
{
    let mut kek = match argon2id(password, salt, M_COST, T_COST, P_COST) {
        Ok(k) => k,
        Err(e) => {
            return Err(e);
        },
    };
    let (nonce, wrapped) = match wrap_with_kek(&kek, dek) {
        Ok(pair) => pair,
        Err(e) => {
            return Err(e);
        },
    };
    wipe_key(&mut kek);
    let r = Recipient::Password {
        kdf: KDF_NAME.to_string(),
        salt: base64_encode(salt),
        m_cost: M_COST,
        t_cost: T_COST,
        p_cost: P_COST,
        wrap_nonce: base64_encode(&nonce),
        wrapped: base64_encode(&wrapped),
    };
    assert(is_password_recipient(r, password@, dek@, salt@, nonce@));
    Ok(r)
}

/// Wraps a data key under a password, with a fresh salt.
pub fn password_recipient(password: &str, dek: &[u8; 32]) -> (res: Result<Recipient, Fault>)
    ensures
        match res {
            Ok(r) => password_gives(r, password@, dek@) && exists|salt: Seq<u8>, nonce: Seq<u8>|
                salt.len() == 16 && nonce.len() == 12 && #[trigger] is_password_recipient(
                    r,
                    password@,
                    dek@,
                    salt,
                    nonce,
                ),
            Err(e) => exists|salt: Seq<u8>|
                salt.len() == 16 && #[trigger] underived_for(e, password@, salt),
        },
        res is Ok <==> password.spec_bytes().len() <= 0xFFFF_FFFF,
{
    let salt = random_bytes::<16>();
    password_recipient_with(password, dek, &salt)
}

/// Takes a data key out of a header with a password.
pub fn unwrap_password(recipient: &Recipient, password: &str) -> (res: Result<[u8; 32], Fault>)
    requires
        recipient matches Recipient::Password { m_cost, .. } ==> m_cost * 1024 <= isize::MAX,
    ensures
        match *recipient {
            Recipient::Password { kdf, salt, m_cost, t_cost, p_cost, wrap_nonce, wrapped } => if kdf@
                != KDF_NAME@ {
                res matches Err(Fault::UnsupportedKdf(name)) && name@ == kdf@
            } else {
                match password_opened(
                    password@,
                    salt@,
                    m_cost,
                    t_cost,
                    p_cost,
                    wrap_nonce@,
                    wrapped@,
                ) {
                    Ok(dek) => res matches Ok(k) && k@ == dek,
                    Err(f) => res matches Err(e) && e.is_for(f),
                }
            },
            _ => res matches Err(e) && e is NotPasswordProtected,
        },
{
    match recipient {
        Recipient::Password { kdf, salt, m_cost, t_cost, p_cost, wrap_nonce, wrapped } => {
            if !same_text(kdf.as_str(), KDF_NAME) {
                return Err(Fault::UnsupportedKdf(kdf.clone()));
            }
            let salt = match base64_decode(salt.as_str()) {
                Ok(s) => s,
                Err(e) => {
                    return Err(Fault::DamagedHeader(e));
                },
            };
            let nonce = match base64_decode(wrap_nonce.as_str()) {
                Ok(n) => n,
                Err(e) => {
                    return Err(Fault::DamagedHeader(e));
                },
            };
            let wrapped = match base64_decode(wrapped.as_str()) {
                Ok(w) => w,
                Err(e) => {
                    return Err(Fault::DamagedHeader(e));
                },
            };
            let mut kek = match argon2id(password, &salt, *m_cost, *t_cost, *p_cost) {
                Ok(k) => k,
                Err(e) => {
                    return Err(e);
                },
            };
            let dek = unwrap_with_kek(&kek, Some(nonce.as_slice()), &wrapped);
            wipe_key(&mut kek);
            dek
        },
        _ => Err(Fault::NotPasswordProtected),
    }
}

// --------------------------------------------------------------- key pairs

/// Whether a recipient says, for a key pair of this type with this fingerprint,
/// how a data key is wrapped. Parts that the wrapping does not have stand empty.
pub open spec fn is_key_recipient(
    r: Recipient,
    algo: KeyAlgo,
    fp: Seq<char>,
    w: WrappedView,
) -> bool {
    let kem = match w.kem {
        Some(k) => k,
        None => Seq::empty(),
    };
    let nonce = match w.nonce {
        Some(n) => n,
        None => Seq::new(12, |i: int| 0u8),
    };
    match algo {
        KeyAlgo::Rsa4096 => r matches Recipient::Rsa { fingerprint, wrapped } && fingerprint@ == fp
            && wrapped@ == base64_of(w.wrapped),
        KeyAlgo::X25519 => r matches Recipient::X25519 {
            fingerprint,
            ephemeral,
            wrap_nonce,
            wrapped,
        } && fingerprint@ == fp && ephemeral@ == base64_of(kem) && wrap_nonce@ == base64_of(nonce)
            && wrapped@ == base64_of(w.wrapped),
        KeyAlgo::MlKem768 => r matches Recipient::MlKem { fingerprint, kem_ct, wrap_nonce, wrapped }
            && fingerprint@ == fp && kem_ct@ == base64_of(kem) && wrap_nonce@ == base64_of(nonce)
            && wrapped@ == base64_of(w.wrapped),
    }
}

/// The three parts of a wrapped data key that texts hold, or what is said of the
/// first that is not base64.
pub open spec fn three_parts(kem: Seq<char>, nonce: Seq<char>, wrapped: Seq<char>) -> Result<
    WrappedView,
    Seq<char>,
> {
    match (base64_read(kem), base64_read(nonce), base64_read(wrapped)) {
        (Ok(k), Ok(n), Ok(w)) => Ok(WrappedView { kem: Some(k), nonce: Some(n), wrapped: w }),
        (Err(e), _, _) => Err(e),
        (_, Err(e), _) => Err(e),
        (_, _, Err(e)) => Err(e),
    }
}

/// The parts of a wrapped data key that the recipient of a key pair holds, or
/// what is said of the first that is not base64.
pub open spec fn parts_of(r: Recipient) -> Result<WrappedView, Seq<char>> {
    match r {
        Recipient::Password { .. } => Err(Seq::empty()),
        Recipient::Rsa { wrapped, .. } => match base64_read(wrapped@) {
            Ok(w) => Ok(WrappedView { kem: None, nonce: None, wrapped: w }),
            Err(e) => Err(e),
        },
        Recipient::X25519 { ephemeral, wrap_nonce, wrapped, .. } => three_parts(
            ephemeral@,
            wrap_nonce@,
            wrapped@,
        ),
        Recipient::MlKem { kem_ct, wrap_nonce, wrapped, .. } => three_parts(
            kem_ct@,
            wrap_nonce@,
            wrapped@,
        ),
    }
}

/// Whether no part of a wrapped data key is too long to be written as text.
pub open spec fn short_parts(w: WrappedView) -> bool {
    w.wrapped.len() <= DER_MAX && (w.kem matches Some(k) ==> k.len() <= DER_MAX)
}

/// Puts a wrapped data key into a recipient. What the recipient holds is what
/// was put in.
pub fn recipient_of(algo: KeyAlgo, fp: String, w: &Wrapped) -> (r: Recipient)
    requires
        short_parts(w@),
    ensures
        is_key_recipient(r, algo, fp@, w@),
        recipient_fingerprint(r) == Some(fp@),
        w@.kem is Some && w@.nonce is Some && algo != KeyAlgo::Rsa4096 ==> parts_of(r) == Ok::<
            _,
            Seq<char>,
        >(w@),
        w@.kem is None && w@.nonce is None && algo == KeyAlgo::Rsa4096 ==> parts_of(r) == Ok::<
            _,
            Seq<char>,
        >(w@),
{
    let wrapped = base64_encode(&w.wrapped);
    match algo {
        KeyAlgo::Rsa4096 => Recipient::Rsa { fingerprint: fp, wrapped },
        _ => {
            let empty: Vec<u8> = Vec::new();
            let kem = match &w.kem {
                Some(k) => base64_encode(k),
                None => base64_encode(&empty),
            };
            let wrap_nonce = match &w.nonce {
                Some(n) => base64_encode(n),
                None => {
                    let zeros = [0u8; 12];
                    assert(zeros@ =~= Seq::new(12, |i: int| 0u8));
                    base64_encode(&zeros)
                },
            };
            match algo {
                KeyAlgo::X25519 => Recipient::X25519 {
                    fingerprint: fp,
                    ephemeral: kem,
                    wrap_nonce,
                    wrapped,
                },
                _ => Recipient::MlKem { fingerprint: fp, kem_ct: kem, wrap_nonce, wrapped },
            }
        },
    }
}

/// Whether a private key takes a data key out of a recipient.
pub open spec fn key_gives(r: Recipient, sk: KeyView, dek: Seq<u8>) -> bool {
    parts_of(r) matches Ok(w) && unwrap_of(sk, w) == Ok::<_, Fault>(dek)
}

/// Whether a recipient says, for a key pair of the type `algo`, how a data key is
/// wrapped for a public key, with the parts `w`.
pub open spec fn recipient_holds(
    r: Recipient,
    algo: KeyAlgo,
    pk: PublicView,
    dek: Seq<u8>,
    w: WrappedView,
) -> bool {
    &&& is_key_recipient(r, algo, fingerprint_of(pk), w)
    &&& wrapped_for(pk, w, dek)
    &&& wrapped_shape(pk, w)
}

/// Wraps a data key for a public key of the type `algo`. Every private key that
/// decrypts what is encrypted for it takes the data key out again.
pub fn key_recipient(algo: KeyAlgo, pk: &PublicKey, dek: &[u8; 32]) -> (res: Result<
    Recipient,
    Fault,
>)
    ensures
        match res {
            Ok(r) => recipient_fingerprint(r) == Some(fingerprint_of(pk@)) && exists|
                w: WrappedView,
            | #[trigger]
                recipient_holds(r, algo, pk@, dek@, w),
            Err(e) => pk@.algo == KeyAlgo::Rsa4096 && (e matches Fault::RsaEncryption(said)
                && forall|seed: Seq<u8>|
                seed.len() == 32 ==> #[trigger] rsa_sealed(pk@.bytes, seed, dek@) == Err::<
                    Seq<u8>,
                    _,
                >(said@)),
        },
        pk@.algo == algo ==> (res matches Ok(r) ==> (parts_of(r) matches Ok(w) && recipient_holds(
            r,
            algo,
            pk@,
            dek@,
            w,
        ) && forall|sk: KeyView| #[trigger] decrypts(sk, pk@, w, dek@) ==> key_gives(r, sk, dek@))),
{
    let fp = match pk.fingerprint() {
        Ok(fp) => fp,
        Err(e) => {
            return Err(e);
        },
    };
    let w = match wrap(pk, dek) {
        Ok(w) => w,
        Err(e) => {
            return Err(e);
        },
    };
    let r = recipient_of(algo, fp, &w);
    assert(recipient_holds(r, algo, pk@, dek@, w@));
    Ok(r)
}

/// How taking a data key out of a header with a private key ends.
pub enum KeyOutcome {
    /// This is the data key.
    Key(Seq<u8>),
    /// The private key belongs to another fingerprint.
    Mismatch,
    /// A field of the header is not base64, of which this is said.
    NotBase64(Seq<char>),
    /// The header is refused for another reason.
    Refused(Fault),
}

/// What a private key takes out of a recipient.
pub open spec fn key_opened(r: Recipient, sk: KeyView) -> KeyOutcome {
    if recipient_fingerprint(r) != Some(fingerprint_of(public_of(sk))) {
        KeyOutcome::Mismatch
    } else {
        match parts_of(r) {
            Err(e) => KeyOutcome::NotBase64(e),
            Ok(w) => match unwrap_of(sk, w) {
                Ok(dek) => KeyOutcome::Key(dek),
                Err(f) => KeyOutcome::Refused(f),
            },
        }
    }
}

/// The private key that a data key was wrapped for is taken for the one that
/// fits, and gives the data key.
pub proof fn law_own_key_opens(r: Recipient, sk: KeyView, dek: Seq<u8>)
    requires
        recipient_fingerprint(r) == Some(fingerprint_of(public_of(sk))),
        key_gives(r, sk, dek),
    ensures
        key_opened(r, sk) == KeyOutcome::Key(dek),
{
}

/// A private key that belongs to another fingerprint is refused, whatever else
/// the header says.
pub proof fn law_foreign_key_is_refused(r: Recipient, sk: KeyView)
    requires
        recipient_fingerprint(r) != Some(fingerprint_of(public_of(sk))),
    ensures
        key_opened(r, sk) is Mismatch,
{
}

/// Takes a data key out of a header with the private key that goes by `name`.
pub fn unwrap_key(recipient: &Recipient, sk: &PrivateKey, name: &str) -> (res: Result<
    [u8; 32],
    Fault,
>)
    requires
        !(recipient is Password),
    ensures
        match key_opened(*recipient, sk@) {
            KeyOutcome::Key(dek) => res matches Ok(k) && k@ == dek,
            KeyOutcome::Mismatch => res matches Err(Fault::KeyMismatch(n, fp)) && n@ == name@
                && recipient_fingerprint(*recipient) == Some(fp@),
            KeyOutcome::NotBase64(t) => res matches Err(Fault::FieldNotBase64(said)) && said@ == t,
            KeyOutcome::Refused(f) => res matches Err(e) && e == f,
        },
{
    let fp = match recipient.fingerprint() {
        Some(fp) => fp,
        None => "",
    };
    let own = match sk.public().fingerprint() {
        Ok(own) => own,
        Err(e) => {
            return Err(e);
        },
    };
    if !same_text(own.as_str(), fp) {
        return Err(Fault::KeyMismatch(name.to_string(), fp.to_string()));
    }
    match recipient {
        Recipient::Rsa { wrapped, .. } => {
            let wrapped = match base64_decode(wrapped.as_str()) {
                Ok(w) => w,
                Err(e) => {
                    return Err(Fault::FieldNotBase64(e));
                },
            };
            unwrap(sk, None, None, &wrapped)
        },
        Recipient::X25519 { ephemeral, wrap_nonce, wrapped, .. } => unwrap_fields(
            sk,
            ephemeral.as_str(),
            wrap_nonce.as_str(),
            wrapped.as_str(),
        ),
        Recipient::MlKem { kem_ct, wrap_nonce, wrapped, .. } => unwrap_fields(
            sk,
            kem_ct.as_str(),
            wrap_nonce.as_str(),
            wrapped.as_str(),
        ),
        Recipient::Password { .. } => Err(Fault::FieldNotBase64(String::new())),
    }
}

/// Takes a data key out of three fields of a header.
fn unwrap_fields(sk: &PrivateKey, kem: &str, wrap_nonce: &str, wrapped: &str) -> (res: Result<
    [u8; 32],
    Fault,
>)
    ensures
        match three_parts(kem@, wrap_nonce@, wrapped@) {
            Ok(w) => match unwrap_of(sk@, w) {
                Ok(dek) => res matches Ok(key) && key@ == dek,
                Err(f) => res matches Err(e) && e == f,
            },
            Err(t) => res matches Err(Fault::FieldNotBase64(said)) && said@ == t,
        },
{
    let kem = match base64_decode(kem) {
        Ok(k) => k,
        Err(e) => {
            return Err(Fault::FieldNotBase64(e));
        },
    };
    let nonce = match base64_decode(wrap_nonce) {
        Ok(n) => n,
        Err(e) => {
            return Err(Fault::FieldNotBase64(e));
        },
    };
    let wrapped = match base64_decode(wrapped) {
        Ok(w) => w,
        Err(e) => {
            return Err(Fault::FieldNotBase64(e));
        },
    };
    unwrap(sk, Some(kem.as_slice()), Some(nonce.as_slice()), &wrapped)
}

/// Which private key to use for a container: the one that was asked for, or else
/// the one that was found by the container's fingerprint.
pub fn key_for(asked: Option<&str>, found: Option<&KeyEntry>, fp: &str) -> (res: Result<
    String,
    Fault,
>)
    ensures
        match (asked, found) {
            (Some(name), _) => res matches Ok(n) && n@ == name@,
            (None, Some(entry)) => res matches Ok(n) && n@ == entry.name@,
            (None, None) => res matches Err(Fault::NoPrivateKey(f)) && f@ == fp@,
        },
{
    match asked {
        Some(name) => Ok(name.to_string()),
        None => match found {
            Some(entry) => Ok(entry.name.clone()),
            None => Err(Fault::NoPrivateKey(fp.to_string())),
        },
    }
}

// -------------------------------------------------------------------- meta

/// The nonce prefix that a header gives, or why it gives none.
pub open spec fn prefix_of(nonce_prefix: Seq<char>) -> Result<Seq<u8>, Refusal> {
    match base64_read(nonce_prefix) {
        Err(e) => Err(Refusal::DamagedHeader(e)),
        Ok(p) => if p.len() != 7 {
            Err(Refusal::Is(Fault::DamagedPrefix))
        } else {
            Ok(p)
        },
    }
}

/// The header of a new container. Its nonce prefix is read from it again.
pub fn new_meta(scheme: Scheme, recipient: Recipient, prefix: &[u8; 7]) -> (meta: Meta)
    ensures
        meta.version == 1,
        meta.cipher == match scheme {
            Scheme::Password(c) => c,
            Scheme::KeyPair(_) => crate::format::Cipher::Aes256Gcm,
        },
        meta.recipient == recipient,
        meta.nonce_prefix@ == base64_of(prefix@),
        meta.chunk_size == CHUNK,
        crate::format::meta_fault(meta.version, meta.chunk_size) is None,
        prefix_of(meta.nonce_prefix@) == Ok::<_, Refusal>(prefix@),
{
    Meta {
        version: 1,
        cipher: scheme.cipher(),
        recipient,
        nonce_prefix: base64_encode(prefix),
        chunk_size: CHUNK as u32,
    }
}

/// Reads the nonce prefix of a header.
pub fn decode_prefix(meta: &Meta) -> (res: Result<[u8; 7], Fault>)
    ensures
        match prefix_of(meta.nonce_prefix@) {
            Ok(p) => res matches Ok(prefix) && prefix@ == p,
            Err(f) => res matches Err(e) && e.is_for(f),
        },
{
    let raw = match base64_decode(meta.nonce_prefix.as_str()) {
        Ok(r) => r,
        Err(e) => {
            return Err(Fault::DamagedHeader(e));
        },
    };
    match array_7(&raw) {
        Some(prefix) => Ok(prefix),
        None => Err(Fault::DamagedPrefix),
    }
}

// --------------------------------------------------------------------- laws

/// A password takes a data key out of a header exactly where the salt, the nonce
/// and the wrapping can be read, and the cipher opens the wrapping to 32 bytes under
/// the key that Argon2id makes of the password and the salt, with the costs that
/// stand in the header. Of fields that cannot be read the first is told of.
pub proof fn law_what_a_password_takes_out(
    password: Seq<char>,
    salt: Seq<char>,
    m_cost: u32,
    t_cost: u32,
    p_cost: u32,
    wrap_nonce: Seq<char>,
    wrapped: Seq<char>,
    dek: Seq<u8>,
)
    ensures
        password_opened(password, salt, m_cost, t_cost, p_cost, wrap_nonce, wrapped) == Ok::<
            _,
            Refusal,
        >(dek) <==> match (base64_read(salt), base64_read(wrap_nonce), base64_read(wrapped)) {
            (Ok(s), Ok(n), Ok(w)) => {
                &&& n.len() == 12
                &&& dek.len() == 32
                &&& crate::primitives::argon2_takes(m_cost, t_cost, p_cost)
                &&& crate::primitives::argon2_run(password, s, m_cost, t_cost, p_cost) matches Ok(
                    kek,
                ) && crate::primitives::aes_opened(
                    kek,
                    n,
                    "cryptosec/keywrap/v1".spec_bytes(),
                    w,
                ) == Some(dek)
            },
            _ => false,
        },
        base64_read(salt) matches Err(e) ==> password_opened(
            password,
            salt,
            m_cost,
            t_cost,
            p_cost,
            wrap_nonce,
            wrapped,
        ) == Err::<Seq<u8>, _>(Refusal::DamagedHeader(e)),
        base64_read(salt) is Ok ==> (base64_read(wrap_nonce) matches Err(e) ==> password_opened(
            password,
            salt,
            m_cost,
            t_cost,
            p_cost,
            wrap_nonce,
            wrapped,
        ) == Err::<Seq<u8>, _>(Refusal::DamagedHeader(e))),
        base64_read(salt) is Ok && base64_read(wrap_nonce) is Ok ==> (base64_read(
            wrapped,
        ) matches Err(e) ==> password_opened(
            password,
            salt,
            m_cost,
            t_cost,
            p_cost,
            wrap_nonce,
            wrapped,
        ) == Err::<Seq<u8>, _>(Refusal::DamagedHeader(e))),
{
}

/// A header for a password names Argon2id and its costs, and holds the salt, the
/// nonce and the wrapped data key as texts.
pub proof fn law_header_for_a_password(
    r: Recipient,
    password: Seq<char>,
    dek: Seq<u8>,
    salt: Seq<u8>,
    nonce: Seq<u8>,
)
    requires
        is_password_recipient(r, password, dek, salt, nonce),
    ensures
        recipient_fingerprint(r) is None,
        r matches Recipient::Password {
            kdf,
            salt: salt_text,
            m_cost,
            t_cost,
            p_cost,
            wrap_nonce,
            wrapped,
        } && kdf@ == "argon2id"@ && m_cost == 65536 && t_cost == 3 && p_cost == 4 && salt_text@
            == base64_of(salt) && wrap_nonce@ == base64_of(nonce) && wrapped@ == base64_of(
            aes_sealed(
                crate::primitives::argon2_run(password, salt, 65536, 3, 4)->Ok_0,
                nonce,
                "cryptosec/keywrap/v1".spec_bytes(),
                dek,
            ),
        ),
{
}

/// A header for a key pair is of the type of the key pair, names its fingerprint,
/// and what is read from it is what was put in.
pub proof fn law_header_for_a_key_pair(
    r: Recipient,
    algo: KeyAlgo,
    fp: Seq<char>,
    w: WrappedView,
)
    requires
        is_key_recipient(r, algo, fp, w),
        base64_read(base64_of(w.wrapped)) == Ok::<_, Seq<char>>(w.wrapped),
        w.kem matches Some(k) ==> base64_read(base64_of(k)) == Ok::<_, Seq<char>>(k),
        w.nonce matches Some(n) ==> base64_read(base64_of(n)) == Ok::<_, Seq<char>>(n),
    ensures
        r is Rsa <==> algo == KeyAlgo::Rsa4096,
        r is X25519 <==> algo == KeyAlgo::X25519,
        r is MlKem <==> algo == KeyAlgo::MlKem768,
        recipient_fingerprint(r) == Some(fp),
        algo == KeyAlgo::Rsa4096 ==> parts_of(r) == Ok::<_, Seq<char>>(
            WrappedView { kem: None, nonce: None, wrapped: w.wrapped },
        ),
        algo != KeyAlgo::Rsa4096 && w.kem is Some && w.nonce is Some ==> parts_of(r) == Ok::<
            _,
            Seq<char>,
        >(w),
{
}

/// The parts of a wrapped data key are read from the fields of their own names, and
/// of fields that cannot be read the first is told of. Nothing is read from a header
/// for a password.
pub proof fn law_parts_are_read_from_their_fields(r: Recipient, w: WrappedView)
    ensures
        parts_of(r) == Ok::<_, Seq<char>>(w) <==> match r {
            Recipient::Password { .. } => false,
            Recipient::Rsa { wrapped, .. } => w.kem is None && w.nonce is None && base64_read(
                wrapped@,
            ) == Ok::<_, Seq<char>>(w.wrapped),
            Recipient::X25519 { ephemeral, wrap_nonce, wrapped, .. } => (w.kem matches Some(k)
                && base64_read(ephemeral@) == Ok::<_, Seq<char>>(k)) && (w.nonce matches Some(n)
                && base64_read(wrap_nonce@) == Ok::<_, Seq<char>>(n)) && base64_read(wrapped@)
                == Ok::<_, Seq<char>>(w.wrapped),
            Recipient::MlKem { kem_ct, wrap_nonce, wrapped, .. } => (w.kem matches Some(k)
                && base64_read(kem_ct@) == Ok::<_, Seq<char>>(k)) && (w.nonce matches Some(n)
                && base64_read(wrap_nonce@) == Ok::<_, Seq<char>>(n)) && base64_read(wrapped@)
                == Ok::<_, Seq<char>>(w.wrapped),
        },
        r matches Recipient::X25519 { ephemeral, wrap_nonce, wrapped, .. } ==> {
            &&& base64_read(ephemeral@) matches Err(e) ==> parts_of(r) == Err::<WrappedView, _>(e)
            &&& base64_read(ephemeral@) is Ok ==> (base64_read(wrap_nonce@) matches Err(e)
                ==> parts_of(r) == Err::<WrappedView, _>(e))
        },
        r matches Recipient::MlKem { kem_ct, wrap_nonce, wrapped, .. } ==> {
            &&& base64_read(kem_ct@) matches Err(e) ==> parts_of(r) == Err::<WrappedView, _>(e)
            &&& base64_read(kem_ct@) is Ok ==> (base64_read(wrap_nonce@) matches Err(e) ==> parts_of(
                r,
            ) == Err::<WrappedView, _>(e))
        },
{
}

/// A private key gives a data key exactly where the header names its fingerprint
/// and it takes the data key out of the parts that stand there. It is refused as
/// another's exactly where the header does not name it.
pub proof fn law_what_a_private_key_gives(r: Recipient, sk: KeyView, dek: Seq<u8>)
    ensures
        key_opened(r, sk) == KeyOutcome::Key(dek) <==> recipient_fingerprint(r) == Some(
            fingerprint_of(public_of(sk)),
        ) && (parts_of(r) matches Ok(w) && unwrap_of(sk, w) == Ok::<_, Fault>(dek)),
        key_opened(r, sk) is Mismatch <==> recipient_fingerprint(r) != Some(
            fingerprint_of(public_of(sk)),
        ),
        key_opened(r, sk) is NotBase64 ==> parts_of(r) is Err,
{
}

/// The nonce prefix of a header is the 7 bytes that its text stands for.
pub proof fn law_prefix_has_seven_bytes(text: Seq<char>, prefix: Seq<u8>)
    ensures
        prefix_of(text) == Ok::<_, Refusal>(prefix) <==> prefix.len() == 7 && base64_read(text)
            == Ok::<_, Seq<char>>(prefix),
        base64_read(text) matches Err(e) ==> prefix_of(text) == Err::<Seq<u8>, _>(
            Refusal::DamagedHeader(e),
        ),
        base64_read(text) matches Ok(p) ==> (p.len() != 7 ==> prefix_of(text) == Err::<Seq<u8>, _>(
            Refusal::Is(Fault::DamagedPrefix),
        )),
{
}

/// A password takes a data key out of a header exactly where the header is one for a
/// password, names Argon2id, and gives the data key under it.
pub proof fn law_who_opens_a_header_for_a_password(r: Recipient, password: Seq<char>, dek: Seq<u8>)
    ensures
        password_gives(r, password, dek) <==> (r matches Recipient::Password {
            kdf,
            salt,
            m_cost,
            t_cost,
            p_cost,
            wrap_nonce,
            wrapped,
        } && kdf@ == "argon2id"@ && password_opened(
            password,
            salt@,
            m_cost,
            t_cost,
            p_cost,
            wrap_nonce@,
            wrapped@,
        ) == Ok::<_, Refusal>(dek)),
{
}

/// What is wrapped for a key pair names that key pair, and holds what was wrapped for
/// it, and nothing else.
pub proof fn law_header_names_the_key_it_is_for(
    r: Recipient,
    algo: KeyAlgo,
    pk: PublicView,
    dek: Seq<u8>,
    w: WrappedView,
)
    requires
        recipient_holds(r, algo, pk, dek, w),
    ensures
        recipient_fingerprint(r) == Some(fingerprint_of(pk)),
        wrapped_for(pk, w, dek),
        !(r is Password),
        algo == KeyAlgo::Rsa4096 <==> r is Rsa,
        algo == KeyAlgo::X25519 <==> r is X25519,
        algo == KeyAlgo::MlKem768 <==> r is MlKem,
{
}

} // verus!
