//! Keys out of passwords and shared secrets, and keys wrapped under keys.
use crate::fault::{Fault, Refusal, WRONG_LENGTH};
use crate::primitives::{
    aes_open, aes_opened, aes_seal, aes_sealed, argon2_costs, argon2_hash, argon2_hashes,
    argon2_of, argon2_run, argon2_said, argon2_takes, base64_decode, base64_encode, base64_of,
    base64_read, hkdf_of, hkdf_sha256, wipe_bytes, wipe_key, AEAD_MAX,
};
use crate::text::{array_12, array_32, push_bytes};
use rand::RngCore;
use vstd::prelude::*;
use vstd::slice::slice_to_vec;
use vstd::string::*;

verus! {

/// Argon2id cost. 64 MiB / 3 passes sits well above the OWASP minimum and
/// still finishes in well under a second on a normal desktop.
pub const M_COST: u32 = 65536;

pub const T_COST: u32 = 3;

pub const P_COST: u32 = 4;

/// What a wrapped data key is bound to.
pub const WRAP_AAD: &'static str = "cryptosec/keywrap/v1";

/// What a protected private key is bound to.
pub const SECRET_AAD: &'static str = "cryptosec/privatekey/v1";

/// The name of the key derivation.
pub const KDF_NAME: &'static str = "argon2id";

/// Calls `rand::thread_rng().fill_bytes`: bytes that nobody can foretell.
#[verifier::external_body]
pub fn random_bytes<const N: usize>() -> [u8; N] {
    let mut bytes = [0u8; N];
    rand::thread_rng().fill_bytes(&mut bytes);
    bytes
}

// ---------------------------------------------------------------- Argon2id

/// As many lanes as were asked for, or the most that can be asked about.
pub open spec fn lanes(p_cost: u32) -> u32 {
    if p_cost > 0x1FFF_FFFF {
        0x1FFF_FFFF
    } else {
        p_cost
    }
}

/// The key that a password and a salt give, or why they give none.
pub open spec fn password_key(
    password: Seq<char>,
    salt: Seq<u8>,
    m_cost: u32,
    t_cost: u32,
    p_cost: u32,
) -> Result<Seq<u8>, Refusal> {
    if !argon2_takes(m_cost, t_cost, p_cost) {
        Err(Refusal::Argon2Parameters(argon2_said(m_cost, t_cost, lanes(p_cost))))
    } else {
        match argon2_run(password, salt, m_cost, t_cost, p_cost) {
            Ok(key) => Ok(key),
            Err(e) => Err(Refusal::KeyDerivation(e)),
        }
    }
}

/// Derives a key from a password. With costs that Argon2id takes it succeeds
/// exactly where the password and the salt have fewer than 2^32 bytes, and the
/// salt at least 8.
pub fn argon2id(password: &str, salt: &[u8], m_cost: u32, t_cost: u32, p_cost: u32) -> (res: Result<
    [u8; 32],
    Fault,
>)
    requires
        m_cost * 1024 <= isize::MAX,
    ensures
        match password_key(password@, salt@, m_cost, t_cost, p_cost) {
            Ok(key) => res matches Ok(k) && k@ == key,
            Err(f) => res matches Err(e) && e.is_for(f),
        },
        res is Ok <==> argon2_takes(m_cost, t_cost, p_cost) && argon2_hashes(
            vstd::utf8::encode_utf8(password@).len(),
            salt@.len(),
        ),
{
    let asked: u32 = if p_cost > 0x1FFF_FFFF {
        0x1FFF_FFFF
    } else {
        p_cost
    };
    match argon2_costs(m_cost, t_cost, asked) {
        Ok(_) => {},
        Err(e) => {
            return Err(Fault::Argon2Parameters(e));
        },
    }
    match argon2_hash(password, salt, m_cost, t_cost, asked) {
        Ok(key) => Ok(key),
        Err(e) => Err(Fault::KeyDerivation(e)),
    }
}

// -------------------------------------------------------------------- HKDF

/// All the parts, one after the other.
pub open spec fn joined(parts: Seq<&[u8]>) -> Seq<u8>
    decreases parts.len(),
{
    if parts.len() == 0 {
        Seq::empty()
    } else {
        joined(parts.drop_last()) + parts.last()@
    }
}

/// Derives a key from key material, bound to `info` and all the `extra` parts.
pub fn hkdf(ikm: &[u8], info: &[u8], extra: &[&[u8]]) -> (key: [u8; 32])
    ensures
        key@ == hkdf_of(ikm@, info@ + joined(extra@)),
{
    let mut full = slice_to_vec(info);
    let mut i: usize = 0;
    assert(full@ =~= info@ + joined(extra@.take(0)));
    while i < extra.len()
        invariant
            i <= extra@.len(),
            full@ == info@ + joined(extra@.take(i as int)),
        decreases extra@.len() - i,
    {
        push_bytes(&mut full, extra[i]);
        i += 1;
        assert(extra@.take(i as int).drop_last() =~= extra@.take(i - 1));
        assert(full@ =~= info@ + joined(extra@.take(i as int)));
    }
    assert(extra@.take(i as int) =~= extra@);
    hkdf_sha256(ikm, &full)
}

// ---------------------------------------------------------------- key wrap

/// The data key that is wrapped under a key, or why it does not come out.
pub open spec fn unwrapped(kek: Seq<u8>, nonce: Option<Seq<u8>>, wrapped: Seq<u8>) -> Result<
    Seq<u8>,
    Fault,
> {
    match nonce {
        None => Err(Fault::MissingWrapNonce),
        Some(n) => if n.len() != 12 {
            Err(Fault::DamagedWrapNonce)
        } else {
            match aes_opened(kek, n, WRAP_AAD.spec_bytes(), wrapped) {
                None => Err(Fault::WrongKey),
                Some(p) => if p.len() != 32 {
                    Err(Fault::DataKeyLength)
                } else {
                    Ok(p)
                },
            }
        },
    }
}

proof fn lemma_labels()
    ensures
        WRAP_AAD.spec_bytes().len() == 20,
        SECRET_AAD.spec_bytes().len() == 23,
{
    reveal_strlit("cryptosec/keywrap/v1");
    reveal_strlit("cryptosec/privatekey/v1");
    assert(WRAP_AAD@ =~= seq![
        'c', 'r', 'y', 'p', 't', 'o', 's', 'e', 'c', '/', 'k', 'e', 'y', 'w', 'r', 'a', 'p', '/',
        'v', '1',
    ]);
    assert(SECRET_AAD@ =~= seq![
        'c', 'r', 'y', 'p', 't', 'o', 's', 'e', 'c', '/', 'p', 'r', 'i', 'v', 'a', 't', 'e', 'k',
        'e', 'y', '/', 'v', '1',
    ]);
    assert(is_ascii(WRAP_AAD));
    assert(is_ascii(SECRET_AAD));
    is_ascii_spec_bytes(WRAP_AAD);
    is_ascii_spec_bytes(SECRET_AAD);
}

/// Wraps a data key under a key, with a given nonce. The data key comes out
/// again under the same key.
pub fn wrap_with_nonce(kek: &[u8; 32], nonce: &[u8; 12], dek: &[u8; 32]) -> (res: Result<
    Vec<u8>,
    Fault,
>)
    ensures
        res matches Ok(wrapped) && wrapped@ == aes_sealed(
            kek@,
            nonce@,
            WRAP_AAD.spec_bytes(),
            dek@,
        ) && wrapped@.len() == 48 && unwrapped(kek@, Some(nonce@), wrapped@) == Ok::<_, Fault>(
            dek@,
        ),
{
    proof {
        lemma_labels();
    }
    match aes_seal(kek, nonce, WRAP_AAD.as_bytes(), dek) {
        Ok(ct) => Ok(ct),
        Err(_) => Err(Fault::WrapFailed),
    }
}

/// Wraps a data key under a key, with a fresh nonce.
pub fn wrap_with_kek(kek: &[u8; 32], dek: &[u8; 32]) -> (res: Result<([u8; 12], Vec<u8>), Fault>)
    ensures
        res matches Ok((nonce, wrapped)) && wrapped@ == aes_sealed(
            kek@,
            nonce@,
            WRAP_AAD.spec_bytes(),
            dek@,
        ) && wrapped@.len() == 48 && unwrapped(kek@, Some(nonce@), wrapped@) == Ok::<_, Fault>(
            dek@,
        ),
{
    let nonce = random_bytes::<12>();
    match wrap_with_nonce(kek, &nonce, dek) {
        Ok(wrapped) => Ok((nonce, wrapped)),
        Err(e) => Err(e),
    }
}

/// Takes a data key out of its wrapping.
pub fn unwrap_with_kek(kek: &[u8; 32], nonce: Option<&[u8]>, wrapped: &[u8]) -> (res: Result<
    [u8; 32],
    Fault,
>)
    ensures
        match unwrapped(
            kek@,
            match nonce {
                Some(n) => Some(n@),
                None => None,
            },
            wrapped@,
        ) {
            Ok(dek) => res matches Ok(k) && k@ == dek,
            Err(f) => res matches Err(e) && e == f,
        },
{
    proof {
        lemma_labels();
    }
    let nonce = match nonce {
        Some(n) => n,
        None => {
            return Err(Fault::MissingWrapNonce);
        },
    };
    let nonce = match array_12(nonce) {
        Some(n) => n,
        None => {
            return Err(Fault::DamagedWrapNonce);
        },
    };
    let mut plain = match aes_open(kek, &nonce, WRAP_AAD.as_bytes(), wrapped) {
        Ok(p) => p,
        Err(_) => {
            return Err(Fault::WrongKey);
        },
    };
    match array_32(&plain) {
        Some(out) => {
            wipe_bytes(&mut plain);
            Ok(out)
        },
        None => Err(Fault::DataKeyLength),
    }
}

// ------------------------------------------------------------ sealed secret

/// Passphrase protection for private key files, same building blocks as the
/// password mode of the container itself.
#[derive(Debug)]
pub struct SealedSecret {
    pub kdf: String,
    pub salt: String,
    pub m_cost: u32,
    pub t_cost: u32,
    pub p_cost: u32,
    pub nonce: String,
    pub data: String,
}

/// The texts and numbers of a sealed secret.
pub struct SealedView {
    pub kdf: Seq<char>,
    pub salt: Seq<char>,
    pub m_cost: u32,
    pub t_cost: u32,
    pub p_cost: u32,
    pub nonce: Seq<char>,
    pub data: Seq<char>,
}

impl View for SealedSecret {
    type V = SealedView;

    open spec fn view(&self) -> SealedView {
        SealedView {
            kdf: self.kdf@,
            salt: self.salt@,
            m_cost: self.m_cost,
            t_cost: self.t_cost,
            p_cost: self.p_cost,
            nonce: self.nonce@,
            data: self.data@,
        }
    }
}

/// The secret that comes out under a passphrase, or why none does.
pub open spec fn secret_of(passphrase: Seq<char>, s: SealedView) -> Result<Seq<u8>, Refusal> {
    match (base64_read(s.salt), base64_read(s.nonce), base64_read(s.data)) {
        (Ok(salt), Ok(nonce), Ok(data)) => if nonce.len() != 12 {
            Err(Refusal::DamagedKeyFile(WRONG_LENGTH@))
        } else {
            match password_key(passphrase, salt, s.m_cost, s.t_cost, s.p_cost) {
                Err(f) => Err(f),
                Ok(kek) => match aes_opened(kek, nonce, SECRET_AAD.spec_bytes(), data) {
                    None => Err(Refusal::Is(Fault::WrongPassphrase)),
                    Some(secret) => Ok(secret),
                },
            }
        },
        (Err(e), _, _) => Err(Refusal::DamagedKeyFile(e)),
        (_, Err(e), _) => Err(Refusal::DamagedKeyFile(e)),
        (_, _, Err(e)) => Err(Refusal::DamagedKeyFile(e)),
    }
}

/// What a secret is once it is sealed with this salt and nonce.
pub open spec fn sealed_with(
    passphrase: Seq<char>,
    secret: Seq<u8>,
    salt: Seq<u8>,
    nonce: Seq<u8>,
) -> SealedView {
    SealedView {
        kdf: KDF_NAME@,
        salt: base64_of(salt),
        m_cost: M_COST,
        t_cost: T_COST,
        p_cost: P_COST,
        nonce: base64_of(nonce),
        data: base64_of(
            aes_sealed(
                argon2_of(passphrase, salt, M_COST, T_COST, P_COST),
                nonce,
                SECRET_AAD.spec_bytes(),
                secret,
            ),
        ),
    }
}

/// Whether a secret can be sealed under a passphrase: neither is too long.
pub open spec fn sealable(passphrase: Seq<char>, secret: Seq<u8>) -> bool {
    vstd::utf8::encode_utf8(passphrase).len() <= 0xFFFF_FFFF && secret.len() <= AEAD_MAX
        && secret.len() <= isize::MAX / 2
}

/// Why a secret cannot be sealed under a passphrase with this salt, if it cannot.
pub open spec fn seal_fault(passphrase: Seq<char>, secret: Seq<u8>, salt: Seq<u8>) -> Option<
    Refusal,
> {
    match password_key(passphrase, salt, M_COST, T_COST, P_COST) {
        Err(f) => Some(f),
        Ok(_) => if sealable(passphrase, secret) {
            None
        } else {
            Some(Refusal::Is(Fault::ProtectFailed))
        },
    }
}

/// Whether a fault is why a secret cannot be sealed under a passphrase, with some
/// salt.
pub open spec fn unsealed_for(e: Fault, passphrase: Seq<char>, secret: Seq<u8>) -> bool {
    exists|salt: Seq<u8>|
        salt.len() == 16 && (#[trigger] seal_fault(passphrase, secret, salt) matches Some(f)
            && e.is_for(f))
}

/// Whether a sealed secret is what a secret is once it is sealed with some salt
/// and nonce.
pub open spec fn is_sealed(s: SealedView, passphrase: Seq<char>, secret: Seq<u8>) -> bool {
    exists|salt: Seq<u8>, nonce: Seq<u8>|
        salt.len() == 16 && nonce.len() == 12 && s == #[trigger] sealed_with(
            passphrase,
            secret,
            salt,
            nonce,
        )
}

/// Seals a secret under a passphrase, with a given salt and nonce. The secret
/// comes out again under the same passphrase.
pub fn seal_secret_with(
    passphrase: &str,
    secret: &[u8],
    salt: &[u8; 16],
    nonce: &[u8; 12],
) -> (res: Result<SealedSecret, Fault>)
    ensures
        match seal_fault(passphrase@, secret@, salt@) {
            Some(f) => res matches Err(e) && e.is_for(f),
            None => res matches Ok(s) && s@ == sealed_with(passphrase@, secret@, salt@, nonce@)
                && secret_of(passphrase@, s@) == Ok::<_, Refusal>(secret@),
        },
        res is Ok <==> sealable(passphrase@, secret@),
{
    proof {
        lemma_labels();
    }
    let mut kek = match argon2id(passphrase, salt, M_COST, T_COST, P_COST) {
        Ok(k) => k,
        Err(e) => {
            return Err(e);
        },
    };
    if secret.len() > isize::MAX as usize / 2 {
        return Err(Fault::ProtectFailed);
    }
    let data = match aes_seal(&kek, nonce, SECRET_AAD.as_bytes(), secret) {
        Ok(d) => d,
        Err(_) => {
            return Err(Fault::ProtectFailed);
        },
    };
    wipe_key(&mut kek);
    Ok(
        SealedSecret {
            kdf: KDF_NAME.to_string(),
            salt: base64_encode(salt),
            m_cost: M_COST,
            t_cost: T_COST,
            p_cost: P_COST,
            nonce: base64_encode(nonce),
            data: base64_encode(&data),
        },
    )
}

/// Seals a secret under a passphrase.
pub fn seal_secret(passphrase: &str, secret: &[u8]) -> (res: Result<SealedSecret, Fault>)
    ensures
        match res {
            Ok(s) => is_sealed(s@, passphrase@, secret@) && secret_of(passphrase@, s@) == Ok::<
                _,
                Refusal,
            >(secret@),
            Err(e) => unsealed_for(e, passphrase@, secret@),
        },
        res is Ok <==> sealable(passphrase@, secret@),
{
    let salt = random_bytes::<16>();
    let nonce = random_bytes::<12>();
    let res = seal_secret_with(passphrase, secret, &salt, &nonce);
    proof {
        let sealed = sealed_with(passphrase@, secret@, salt@, nonce@);
        let fault = seal_fault(passphrase@, secret@, salt@);
    }
    res
}

/// Opens a sealed secret.
pub fn open_secret(passphrase: &str, sealed: &SealedSecret) -> (res: Result<Vec<u8>, Fault>)
    requires
        sealed.m_cost * 1024 <= isize::MAX,
    ensures
        match secret_of(passphrase@, sealed@) {
            Ok(secret) => res matches Ok(s) && s@ == secret,
            Err(f) => res matches Err(e) && e.is_for(f),
        },
{
    proof {
        lemma_labels();
    }
    let salt = match base64_decode(sealed.salt.as_str()) {
        Ok(s) => s,
        Err(e) => {
            return Err(Fault::DamagedKeyFile(e));
        },
    };
    let nonce = match base64_decode(sealed.nonce.as_str()) {
        Ok(n) => n,
        Err(e) => {
            return Err(Fault::DamagedKeyFile(e));
        },
    };
    let data = match base64_decode(sealed.data.as_str()) {
        Ok(d) => d,
        Err(e) => {
            return Err(Fault::DamagedKeyFile(e));
        },
    };
    let nonce = match array_12(&nonce) {
        Some(n) => n,
        None => {
            return Err(Fault::DamagedKeyFile(WRONG_LENGTH.to_string()));
        },
    };
    let mut kek = match argon2id(passphrase, &salt, sealed.m_cost, sealed.t_cost, sealed.p_cost) {
        Ok(k) => k,
        Err(e) => {
            return Err(e);
        },
    };
    let out = match aes_open(&kek, &nonce, SECRET_AAD.as_bytes(), &data) {
        Ok(s) => Ok(s),
        Err(_) => Err(Fault::WrongPassphrase),
    };
    wipe_key(&mut kek);
    out
}

// ----------------------------------------------------------------- refusal

/// Whether nothing is forged: what opens under `other`, with this associated
/// data, is what was sealed, under the key and with the nonce that it was sealed
/// with. This is what the authentication of a cipher gives against whoever does
/// not hold the key.
pub open spec fn genuine(
    kek: Seq<u8>,
    nonce: Seq<u8>,
    sealed: Seq<u8>,
    aad: Seq<u8>,
    other: (Seq<u8>, Seq<u8>, Seq<u8>),
) -> bool {
    aes_opened(other.0, other.1, aad, other.2) is Some ==> other == (kek, nonce, sealed)
}

/// A wrapping under another key, with another nonce or of other bytes is refused,
/// as long as nothing is forged.
pub proof fn law_altered_wrapping_is_refused(
    kek: Seq<u8>,
    nonce: Seq<u8>,
    wrapped: Seq<u8>,
    other_kek: Seq<u8>,
    other_nonce: Seq<u8>,
    other_wrapped: Seq<u8>,
)
    requires
        other_nonce.len() == 12,
        other_kek != kek || other_nonce != nonce || other_wrapped != wrapped,
        genuine(
            kek,
            nonce,
            wrapped,
            WRAP_AAD.spec_bytes(),
            (other_kek, other_nonce, other_wrapped),
        ),
    ensures
        unwrapped(other_kek, Some(other_nonce), other_wrapped) == Err::<Seq<u8>, _>(
            Fault::WrongKey,
        ),
{
}

/// Whether a passphrase meets a sealed secret that can be read but is not the one
/// that was sealed under it: the key that comes out of the passphrase, the nonce
/// or the data is another than `secret` was sealed with, and nothing is forged.
pub open spec fn another_seal(
    passphrase: Seq<char>,
    secret: Seq<u8>,
    salt: Seq<u8>,
    nonce: Seq<u8>,
    other: Seq<char>,
    s: SealedView,
) -> bool {
    let kek = argon2_of(passphrase, salt, M_COST, T_COST, P_COST);
    let data = aes_sealed(kek, nonce, SECRET_AAD.spec_bytes(), secret);
    match (base64_read(s.salt), base64_read(s.nonce), base64_read(s.data)) {
        (Ok(found_salt), Ok(found_nonce), Ok(found_data)) => match password_key(
            other,
            found_salt,
            s.m_cost,
            s.t_cost,
            s.p_cost,
        ) {
            Ok(found) => found_nonce.len() == 12 && (found, found_nonce, found_data) != (
                kek,
                nonce,
                data,
            ) && genuine(
                kek,
                nonce,
                data,
                SECRET_AAD.spec_bytes(),
                (found, found_nonce, found_data),
            ),
            Err(_) => false,
        },
        _ => false,
    }
}

/// A secret that was sealed under one passphrase is refused under another, and
/// with another salt, other costs, another nonce or other data: wherever the key
/// that comes out of the passphrase, the nonce or the data is another, as long as
/// nothing is forged.
pub proof fn law_altered_secret_is_refused(
    passphrase: Seq<char>,
    secret: Seq<u8>,
    salt: Seq<u8>,
    nonce: Seq<u8>,
    other: Seq<char>,
    s: SealedView,
)
    requires
        another_seal(passphrase, secret, salt, nonce, other, s),
    ensures
        secret_of(other, s) == Err::<Seq<u8>, _>(Refusal::Is(Fault::WrongPassphrase)),
{
}

// --------------------------------------------------------------- what it is

/// What goes into every wrapping: the costs of Argon2id, and a label for each
/// purpose, so that a wrapped data key is never taken for a sealed private key.
pub proof fn law_costs_and_labels()
    ensures
        M_COST == 64 * 1024,
        T_COST == 3,
        P_COST == 4,
        WRAP_AAD@ == "cryptosec/keywrap/v1"@,
        SECRET_AAD@ == "cryptosec/privatekey/v1"@,
        KDF_NAME@ == "argon2id"@,
        WRAP_AAD.spec_bytes() != SECRET_AAD.spec_bytes(),
{
    lemma_labels();
}

/// A password and a salt give the key that Argon2id makes of them, exactly where it
/// takes the costs and them; otherwise what it says is handed on.
pub proof fn law_password_gives_what_argon2_makes(
    password: Seq<char>,
    salt: Seq<u8>,
    m_cost: u32,
    t_cost: u32,
    p_cost: u32,
)
    ensures
        password_key(password, salt, m_cost, t_cost, p_cost) is Ok <==> argon2_takes(
            m_cost,
            t_cost,
            p_cost,
        ) && argon2_run(password, salt, m_cost, t_cost, p_cost) is Ok,
        password_key(password, salt, m_cost, t_cost, p_cost) matches Ok(key) ==> argon2_run(
            password,
            salt,
            m_cost,
            t_cost,
            p_cost,
        ) == Ok::<_, Seq<char>>(key),
        !argon2_takes(m_cost, t_cost, p_cost) && p_cost <= 0x1FFF_FFFF ==> password_key(
            password,
            salt,
            m_cost,
            t_cost,
            p_cost,
        ) == Err::<Seq<u8>, _>(Refusal::Argon2Parameters(argon2_said(m_cost, t_cost, p_cost))),
        argon2_takes(m_cost, t_cost, p_cost) ==> (argon2_run(
            password,
            salt,
            m_cost,
            t_cost,
            p_cost,
        ) matches Err(e) ==> password_key(password, salt, m_cost, t_cost, p_cost) == Err::<
            Seq<u8>,
            _,
        >(Refusal::KeyDerivation(e))),
{
}

/// The parts that a key is bound to are put behind each other, in their order.
pub proof fn law_parts_are_joined_in_order(parts: Seq<&[u8]>, part: &[u8])
    ensures
        joined(Seq::empty()) == Seq::<u8>::empty(),
        joined(parts.push(part)) == joined(parts) + part@,
{
    assert(parts.push(part).drop_last() =~= parts);
}

/// A data key comes out of a wrapping exactly where there is a nonce of 12 bytes
/// with which the cipher opens it, under the key and the label of wrappings, to 32
/// bytes; and these are the data key. Otherwise the first reason is given.
pub proof fn law_what_comes_out_of_a_wrapping(
    kek: Seq<u8>,
    nonce: Option<Seq<u8>>,
    wrapped: Seq<u8>,
    dek: Seq<u8>,
)
    ensures
        unwrapped(kek, nonce, wrapped) == Ok::<_, Fault>(dek) <==> dek.len() == 32 && (
        nonce matches Some(n) && n.len() == 12 && aes_opened(
            kek,
            n,
            "cryptosec/keywrap/v1".spec_bytes(),
            wrapped,
        ) == Some(dek)),
        unwrapped(kek, nonce, wrapped) == Err::<Seq<u8>, _>(Fault::MissingWrapNonce) <==> nonce
            is None,
        unwrapped(kek, nonce, wrapped) == Err::<Seq<u8>, _>(Fault::DamagedWrapNonce) <==> (
        nonce matches Some(n) && n.len() != 12),
        nonce matches Some(n) ==> (n.len() == 12 ==> (unwrapped(kek, nonce, wrapped) == Err::<
            Seq<u8>,
            _,
        >(Fault::WrongKey) <==> aes_opened(
            kek,
            n,
            "cryptosec/keywrap/v1".spec_bytes(),
            wrapped,
        ) is None)),
{
}

/// A sealed secret opens exactly where its salt, its nonce and its data can be
/// read, the nonce has 12 bytes, and the cipher opens the data, under the key that
/// Argon2id makes of the passphrase and the salt with the costs that stand there,
/// and the label of private keys.
pub proof fn law_what_comes_out_of_a_sealed_secret(
    passphrase: Seq<char>,
    s: SealedView,
    secret: Seq<u8>,
)
    ensures
        secret_of(passphrase, s) == Ok::<_, Refusal>(secret) <==> match (
            base64_read(s.salt),
            base64_read(s.nonce),
            base64_read(s.data),
        ) {
            (Ok(salt), Ok(nonce), Ok(data)) => {
                &&& nonce.len() == 12
                &&& argon2_takes(s.m_cost, s.t_cost, s.p_cost)
                &&& argon2_run(passphrase, salt, s.m_cost, s.t_cost, s.p_cost) matches Ok(kek)
                    && aes_opened(kek, nonce, "cryptosec/privatekey/v1".spec_bytes(), data)
                    == Some(secret)
            },
            _ => false,
        },
        base64_read(s.salt) matches Err(e) ==> secret_of(passphrase, s) == Err::<Seq<u8>, _>(
            Refusal::DamagedKeyFile(e),
        ),
        base64_read(s.salt) is Ok ==> (base64_read(s.nonce) matches Err(e) ==> secret_of(
            passphrase,
            s,
        ) == Err::<Seq<u8>, _>(Refusal::DamagedKeyFile(e))),
        base64_read(s.salt) is Ok && base64_read(s.nonce) is Ok ==> (base64_read(
            s.data,
        ) matches Err(e) ==> secret_of(passphrase, s) == Err::<Seq<u8>, _>(
            Refusal::DamagedKeyFile(e),
        )),
{
}

/// What is sealed is opened: a secret that was sealed under a passphrase comes out
/// under it, where texts are read as the bytes they were written for and the cipher
/// opens what it sealed. The salt, the nonce and the costs stand beside it.
pub proof fn law_sealed_secret_comes_back(
    passphrase: Seq<char>,
    secret: Seq<u8>,
    salt: Seq<u8>,
    nonce: Seq<u8>,
)
    requires
        nonce.len() == 12,
        argon2_run(passphrase, salt, M_COST, T_COST, P_COST) is Ok,
        base64_read(base64_of(salt)) == Ok::<_, Seq<char>>(salt),
        base64_read(base64_of(nonce)) == Ok::<_, Seq<char>>(nonce),
        ({
            let kek = argon2_run(passphrase, salt, M_COST, T_COST, P_COST)->Ok_0;
            let label = "cryptosec/privatekey/v1".spec_bytes();
            let data = aes_sealed(kek, nonce, label, secret);
            &&& aes_opened(kek, nonce, label, data) == Some(secret)
            &&& base64_read(base64_of(data)) == Ok::<_, Seq<char>>(data)
        }),
    ensures
        secret_of(passphrase, sealed_with(passphrase, secret, salt, nonce)) == Ok::<_, Refusal>(
            secret,
        ),
        sealed_with(passphrase, secret, salt, nonce).salt == base64_of(salt),
        sealed_with(passphrase, secret, salt, nonce).nonce == base64_of(nonce),
        sealed_with(passphrase, secret, salt, nonce).kdf == "argon2id"@,
        sealed_with(passphrase, secret, salt, nonce).m_cost == 65536,
        sealed_with(passphrase, secret, salt, nonce).t_cost == 3,
        sealed_with(passphrase, secret, salt, nonce).p_cost == 4,
{
}

/// Neither a passphrase nor a secret is too long in practice: everything below
/// 4 GiB and half of what the machine can address can be sealed, and nothing is
/// refused that could be.
pub proof fn law_what_can_be_sealed(passphrase: Seq<char>, secret: Seq<u8>)
    ensures
        sealable(passphrase, secret) <==> vstd::utf8::encode_utf8(passphrase).len() < 0x1_0000_0000
            && secret.len() <= AEAD_MAX && secret.len() <= isize::MAX / 2,
{
}

/// A sealed secret names Argon2id and the costs that it was sealed with, whatever the
/// salt and the nonce were, so everyone who has the passphrase can derive the key
/// again; and memory for it can be had on every machine.
pub proof fn law_sealed_secret_names_its_costs(
    s: SealedView,
    passphrase: Seq<char>,
    secret: Seq<u8>,
)
    requires
        is_sealed(s, passphrase, secret),
    ensures
        s.kdf == "argon2id"@,
        s.m_cost == 65536 && s.t_cost == 3 && s.p_cost == 4,
        s.m_cost * 1024 <= isize::MAX,
        exists|salt: Seq<u8>| salt.len() == 16 && s.salt == #[trigger] base64_of(salt),
        exists|nonce: Seq<u8>| nonce.len() == 12 && s.nonce == #[trigger] base64_of(nonce),
{
    let (salt, nonce) = choose|salt: Seq<u8>, nonce: Seq<u8>|
        salt.len() == 16 && nonce.len() == 12 && s == #[trigger] sealed_with(
            passphrase,
            secret,
            salt,
            nonce,
        );
    assert(s.salt == base64_of(salt));
    assert(s.nonce == base64_of(nonce));
}

/// Sealing fails only for a reason that holds: what Argon2id said of the passphrase,
/// or that the secret is too long.
pub proof fn law_why_sealing_fails(passphrase: Seq<char>, secret: Seq<u8>, salt: Seq<u8>)
    ensures
        password_key(passphrase, salt, M_COST, T_COST, P_COST) matches Err(f) ==> seal_fault(
            passphrase,
            secret,
            salt,
        ) == Some(f),
        password_key(passphrase, salt, M_COST, T_COST, P_COST) is Ok ==> (seal_fault(
            passphrase,
            secret,
            salt,
        ) is None <==> sealable(passphrase, secret)),
        seal_fault(passphrase, secret, salt) matches Some(f) ==> f is Argon2Parameters || f
            is KeyDerivation || f == Refusal::Is(Fault::ProtectFailed),
{
}

} // verus!
