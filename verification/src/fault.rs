//! Everything that can go wrong in the library, each with its message.
use crate::keys::{algo_label, KeyAlgo};
use crate::text::{decimal, decimal_text};
use vstd::prelude::*;
use vstd::string::*;

verus! {

/// Why an operation was refused.
#[derive(Debug)]
pub enum Fault {
    /// No marker was found where a container has one.
    NoHeader,
    /// The container ends within its header.
    TruncatedHeader,
    /// The header is said to be so long.
    HeaderLength(u32),
    /// The container is of a version that this library does not read.
    Version(u32),
    /// The container has chunks of another size.
    ChunkSize(u32),
    /// Argon2id does not take these costs, for this reason.
    Argon2Parameters(String),
    /// Argon2id does not take this password or salt, for this reason.
    KeyDerivation(String),
    /// The data key could not be wrapped.
    WrapFailed,
    /// The header has no nonce for the wrapped data key.
    MissingWrapNonce,
    /// The nonce for the wrapped data key has the wrong length.
    DamagedWrapNonce,
    /// The wrapped data key does not open.
    WrongKey,
    /// What was wrapped is no data key.
    DataKeyLength,
    /// The private key could not be protected.
    ProtectFailed,
    /// No scheme goes by this name.
    UnknownScheme(String),
    /// An action was asked for together with a subcommand.
    ActionWithSubcommand,
    /// A key pair was asked for, and a scheme with a password chosen.
    PasswordScheme,
    /// No key pair goes by this name.
    UnknownKeyType(String),
    /// These bytes are no public key of this type, for this reason where one is
    /// given.
    DamagedPublicKey(KeyAlgo, Option<String>),
    /// These bytes are no private key of this type, for this reason where one is
    /// given.
    DamagedPrivateKey(KeyAlgo, Option<String>),
    /// A key pair cannot go by this name.
    UnusableKeyName(String),
    /// There is a key pair of this name in this place already.
    KeyExists(String, String),
    /// There is no key of this name, nor in this place.
    NoSuchKey(String, String),
    /// Nothing says where the key store is.
    HomeUnset,
    /// The private key cannot be written out, for this reason.
    UnwritableKey(String),
    /// The key is too long to be written as text on this machine.
    KeyTooLong,
    /// No RSA key could be found, for this reason.
    RsaGeneration(String),
    /// RSA does not encrypt this data key, for this reason.
    RsaEncryption(String),
    /// ML-KEM gave no shared secret for a public key.
    Encapsulation,
    /// ML-KEM gave no shared secret for a ciphertext.
    Decapsulation,
    /// RSA reads no data key out of the header with this private key.
    KeyDoesNotFit,
    /// The header has no ephemeral key.
    MissingEphemeral,
    /// The ephemeral key in the header has the wrong length.
    DamagedEphemeral,
    /// The header has no ML-KEM ciphertext.
    MissingKem,
    /// The ML-KEM ciphertext in the header has the wrong length.
    DamagedKem,
    /// A key file holds nothing.
    EmptyKeyFile,
    /// A file does not begin like a key file.
    NotKeyFile,
    /// A key file does not hold what it should, for this reason.
    DamagedKeyFile(String),
    /// The private key does not open.
    WrongPassphrase,
    /// The container is not protected by a password.
    NotPasswordProtected,
    /// The header names a key derivation that there is not.
    UnsupportedKdf(String),
    /// A field of the header is not base64, for this reason.
    DamagedHeader(String),
    /// The nonce prefix in the header has the wrong length.
    DamagedPrefix,
    /// A field of the wrapped data key is not base64, for this reason.
    FieldNotBase64(String),
    /// The key of this name is not the one with this fingerprint.
    KeyMismatch(String, String),
    /// No private key with this fingerprint is in the key store.
    NoPrivateKey(String),
    /// The first record of the stream is said to be so long.
    ManifestLength(u32),
    /// Nothing can be named after this path.
    UnusablePath(String),
    /// The container carries a name that no file can have.
    UnusableName,
    /// Something is at this path already.
    AlreadyExists(String),
    /// The source cannot be overwritten and kept.
    ShredAndKeep,
    /// The source is not overwritten unless the container was checked.
    ShredUnchecked,
    /// The source is a container already, and is to stay as it is.
    NothingToDo,
    /// The container does not give back what went in.
    CheckFailed,
    /// The password gives another data key than the one that was wrapped.
    RederivedKey,
    /// The container describes other contents than those that went in.
    OtherContents,
    /// The contents differ from the source.
    DiffersFromSource,
    /// The archive holds an entry without a path.
    EntryWithoutPath,
    /// The archive holds an entry outside this directory, at this path.
    OutsideRoot(String, String),
    /// This entry of the archive is not on disk.
    NotOnDisk(String),
    /// This symlink in the archive has no target.
    NoLinkTarget(String),
    /// This symlink on disk has another target.
    SymlinkMoved(String),
    /// This file differs from the archive.
    DiffersFromArchive(String),
    /// The archive holds so many entries, and the directory so many.
    EntryCount(usize, usize),
    /// The key of this name is of the first type, and the second was asked for.
    OtherKeyType(String, KeyAlgo, KeyAlgo),
    /// There is no key pair, and none is to be made.
    NoKeyPair,
    /// Nobody can be asked for the scheme.
    NoTerminalForScheme,
    /// Nobody can be asked for the key pair.
    NoTerminalForKey,
    /// Nobody can be asked for the password.
    NoTerminalForPassword,
    /// Nobody can be asked for the passphrase of a new key pair.
    NoTerminalForKeygen,
    /// The password that was handed in is empty.
    EmptyPassword,
    /// A payload cipher refused a chunk.
    EncryptionFailed,
    /// A chunk does not carry the tag that its key, place and header call for.
    AuthenticationFailed,
    /// The container ends before its final chunk.
    EndsEarly,
    /// Bytes follow the final chunk.
    TrailingData,
}

/// The name of a type of key pair in messages on damaged keys.
pub open spec fn short_label(algo: KeyAlgo) -> Seq<char> {
    match algo {
        KeyAlgo::Rsa4096 => "RSA"@,
        KeyAlgo::X25519 => "X25519"@,
        KeyAlgo::MlKem768 => "ML-KEM"@,
    }
}

fn short_name(algo: KeyAlgo) -> (s: &'static str)
    ensures
        s@ == short_label(algo),
{
    match algo {
        KeyAlgo::Rsa4096 => "RSA",
        KeyAlgo::X25519 => "X25519",
        KeyAlgo::MlKem768 => "ML-KEM",
    }
}

/// The message of a fault.
pub open spec fn fault_text(f: Fault) -> Seq<char> {
    match f {
        Fault::NoHeader => "not a CryptoSec container (no header found)"@,
        Fault::TruncatedHeader => "truncated header"@,
        Fault::HeaderLength(n) => "corrupt header (metadata length "@ + decimal(n as nat) + ")"@,
        Fault::Version(n) => "container version "@ + decimal(n as nat) + " is not supported by this build"@,
        Fault::ChunkSize(n) => "unsupported chunk size "@ + decimal(n as nat),
        Fault::Argon2Parameters(e) => "invalid Argon2 parameters: "@ + e@,
        Fault::KeyDerivation(e) => "key derivation failed: "@ + e@,
        Fault::WrapFailed => "wrapping the data key failed"@,
        Fault::MissingWrapNonce => "header is missing the wrap nonce"@,
        Fault::DamagedWrapNonce => "damaged wrap nonce"@,
        Fault::WrongKey => "wrong password or key - the data key did not unwrap"@,
        Fault::DataKeyLength => "unexpected data key length"@,
        Fault::ProtectFailed => "protecting the private key failed"@,
        Fault::UnknownScheme(s) => "unknown scheme '"@ + s@ + "' (use aes, chacha, rsa, ecc or mlkem)"@,
        Fault::ActionWithSubcommand => "-e, -d and --info cannot be combined with a subcommand"@,
        Fault::PasswordScheme => "that scheme uses a password, not a key pair"@,
        Fault::UnknownKeyType(s) => "unknown key type '"@ + s@ + "'"@,
        Fault::DamagedPublicKey(a, _) => "damaged "@ + short_label(a) + " public key"@,
        Fault::DamagedPrivateKey(a, _) => "damaged "@ + short_label(a) + " private key"@,
        Fault::UnusableKeyName(s) => "'"@ + s@ + "' is not a usable key name"@,
        Fault::KeyExists(s, d) => "a key named '"@ + s@ + "' already exists in "@ + d@,
        Fault::NoSuchKey(s, d) => "no key '"@ + s@ + "' found (looked in "@ + d@ + ")"@,
        Fault::HomeUnset => "HOME is not set, cannot locate the key store"@,
        Fault::UnwritableKey(e) => e@,
        Fault::KeyTooLong => "the key is too long to be written out"@,
        Fault::RsaGeneration(e) => e@,
        Fault::RsaEncryption(e) => e@,
        Fault::Encapsulation => "ML-KEM encapsulation failed"@,
        Fault::Decapsulation => "ML-KEM decapsulation failed"@,
        Fault::KeyDoesNotFit => "this private key does not fit the container"@,
        Fault::MissingEphemeral => "header is missing the ephemeral key"@,
        Fault::DamagedEphemeral => "damaged ephemeral key"@,
        Fault::MissingKem => "header is missing the KEM ciphertext"@,
        Fault::DamagedKem => "damaged ML-KEM ciphertext"@,
        Fault::EmptyKeyFile => "empty key file"@,
        Fault::NotKeyFile => "not a CryptoSec key file"@,
        Fault::DamagedKeyFile(_) => "damaged key file"@,
        Fault::WrongPassphrase => "wrong passphrase for this private key"@,
        Fault::NotPasswordProtected => "this container is not password protected"@,
        Fault::UnsupportedKdf(s) => "unsupported key derivation '"@ + s@ + "'"@,
        Fault::DamagedHeader(_) => "damaged header"@,
        Fault::DamagedPrefix => "damaged header (nonce prefix)"@,
        Fault::FieldNotBase64(e) => e@,
        Fault::KeyMismatch(s, fp) => "key '"@ + s@ + "' does not match this container ("@ + fp@ + ")"@,
        Fault::NoPrivateKey(fp) => "no private key "@ + fp@ + " in the key store - pass --key with the file path"@,
        Fault::ManifestLength(n) => "damaged container (manifest length "@ + decimal(n as nat) + ")"@,
        Fault::UnusablePath(p) => "unusable path "@ + p@,
        Fault::UnusableName => "the container carries an unusable name"@,
        Fault::AlreadyExists(p) => p@ + " already exists (use -f to overwrite)"@,
        Fault::ShredAndKeep => "--shred and --keep contradict each other"@,
        Fault::ShredUnchecked => "--shred needs the read-back check, drop --no-verify"@,
        Fault::NothingToDo => "nothing to do"@,
        Fault::CheckFailed => "read-back check failed, the source was left untouched"@,
        Fault::RederivedKey => "the re-derived data key does not match"@,
        Fault::OtherContents => "the container describes different contents than were written"@,
        Fault::DiffersFromSource => "the decrypted data differs from the source"@,
        Fault::EntryWithoutPath => "the archive holds an entry without a path"@,
        Fault::OutsideRoot(r, p) => "the archive holds an entry outside "@ + r@ + ": "@ + p@,
        Fault::NotOnDisk(p) => p@ + " is in the archive but not on disk"@,
        Fault::NoLinkTarget(p) => p@ + " has no link target"@,
        Fault::SymlinkMoved(p) => "the symlink "@ + p@ + " points somewhere else now"@,
        Fault::DiffersFromArchive(p) => p@ + " differs from the archive"@,
        Fault::EntryCount(s, d) => "the archive holds "@ + decimal(s as nat) + " entries, the directory "@ + decimal(d as nat),
        Fault::OtherKeyType(s, h, w) => "key '"@ + s@ + "' is a "@ + algo_label(h) + " key, but "@ + algo_label(w) + " was requested"@,
        Fault::NoKeyPair => "no key pair available"@,
        Fault::NoTerminalForScheme => "no terminal available - pass --algo to choose a scheme"@,
        Fault::NoTerminalForKey => "no terminal available - pass --key to choose a key pair"@,
        Fault::NoTerminalForPassword => "no terminal available - use --password-stdin"@,
        Fault::NoTerminalForKeygen => "no terminal available - use --no-passphrase for unattended key generation"@,
        Fault::EmptyPassword => "empty password on stdin"@,
        Fault::EncryptionFailed => "encryption failed"@,
        Fault::AuthenticationFailed => "authentication failed - wrong key or damaged file"@,
        Fault::EndsEarly => "file ends early - the container is truncated"@,
        Fault::TrailingData => "trailing data after the final chunk"@,
    }
}

/// What is said of bytes that do not have the length that is needed.
pub const WRONG_LENGTH: &'static str = "could not convert slice to array";

/// What is said of a source that ends before all of it was read.
pub const ENDED: &'static str = "failed to fill whole buffer";

/// The cause behind a fault, where its message does not tell it.
pub open spec fn fault_cause(f: Fault) -> Option<Seq<char>> {
    match f {
        Fault::TruncatedHeader => Some(ENDED@),
        Fault::DamagedWrapNonce => Some(WRONG_LENGTH@),
        Fault::DamagedEphemeral => Some(WRONG_LENGTH@),
        Fault::DamagedPublicKey(_, Some(e)) => Some(e@),
        Fault::DamagedPrivateKey(_, Some(e)) => Some(e@),
        Fault::DamagedKeyFile(e) => Some(e@),
        Fault::DamagedHeader(e) => Some(e@),
        _ => None,
    }
}

/// Why something is refused, as contracts tell it: a fault, its texts taken for
/// what they hold.
pub enum Refusal {
    /// This fault, which holds no text.
    Is(Fault),
    Argon2Parameters(Seq<char>),
    KeyDerivation(Seq<char>),
    DamagedPublicKey(KeyAlgo, Option<Seq<char>>),
    DamagedPrivateKey(KeyAlgo, Option<Seq<char>>),
    DamagedKeyFile(Seq<char>),
    DamagedHeader(Seq<char>),
}

/// The characters of a text, where there is one.
pub open spec fn text_of_cause(cause: Option<String>) -> Option<Seq<char>> {
    match cause {
        Some(e) => Some(e@),
        None => None,
    }
}

impl Fault {
    /// Whether the fault is this one.
    pub open spec fn is_for(self, r: Refusal) -> bool {
        match r {
            Refusal::Is(f) => self == f,
            Refusal::Argon2Parameters(t) => self matches Fault::Argon2Parameters(e) && e@ == t,
            Refusal::KeyDerivation(t) => self matches Fault::KeyDerivation(e) && e@ == t,
            Refusal::DamagedPublicKey(algo, t) => self matches Fault::DamagedPublicKey(a, e) && a
                == algo && text_of_cause(e) == t,
            Refusal::DamagedPrivateKey(algo, t) => self matches Fault::DamagedPrivateKey(a, e) && a
                == algo && text_of_cause(e) == t,
            Refusal::DamagedKeyFile(t) => self matches Fault::DamagedKeyFile(e) && e@ == t,
            Refusal::DamagedHeader(t) => self matches Fault::DamagedHeader(e) && e@ == t,
        }
    }

    /// The cause behind the fault, where its message does not tell it.
    pub fn cause(&self) -> (res: Option<&str>)
        ensures
            match res {
                Some(s) => fault_cause(*self) == Some(s@),
                None => fault_cause(*self) is None,
            },
    {
        match self {
            Fault::TruncatedHeader => Some(ENDED),
            Fault::DamagedWrapNonce => Some(WRONG_LENGTH),
            Fault::DamagedEphemeral => Some(WRONG_LENGTH),
            Fault::DamagedPublicKey(_, Some(e)) => Some(e.as_str()),
            Fault::DamagedPrivateKey(_, Some(e)) => Some(e.as_str()),
            Fault::DamagedKeyFile(e) => Some(e.as_str()),
            Fault::DamagedHeader(e) => Some(e.as_str()),
            _ => None,
        }
    }

    /// The message of the fault.
    pub fn message(&self) -> (s: String)
        ensures
            s@ == fault_text(*self),
    {
        match self {
            Fault::NoHeader => "not a CryptoSec container (no header found)".to_string(),
            Fault::TruncatedHeader => "truncated header".to_string(),
            Fault::HeaderLength(n) => {
                let mut text = String::new();
                text.append("corrupt header (metadata length ");
                text.append(decimal_text(*n as u64).as_str());
                text.append(")");
                assert(text@ =~= fault_text(*self));
                text
            },
            Fault::Version(n) => {
                let mut text = String::new();
                text.append("container version ");
                text.append(decimal_text(*n as u64).as_str());
                text.append(" is not supported by this build");
                assert(text@ =~= fault_text(*self));
                text
            },
            Fault::ChunkSize(n) => {
                let mut text = String::new();
                text.append("unsupported chunk size ");
                text.append(decimal_text(*n as u64).as_str());
                assert(text@ =~= fault_text(*self));
                text
            },
            Fault::Argon2Parameters(e) => {
                let mut text = String::new();
                text.append("invalid Argon2 parameters: ");
                text.append(e.as_str());
                assert(text@ =~= fault_text(*self));
                text
            },
            Fault::KeyDerivation(e) => {
                let mut text = String::new();
                text.append("key derivation failed: ");
                text.append(e.as_str());
                assert(text@ =~= fault_text(*self));
                text
            },
            Fault::WrapFailed => "wrapping the data key failed".to_string(),
            Fault::MissingWrapNonce => "header is missing the wrap nonce".to_string(),
            Fault::DamagedWrapNonce => "damaged wrap nonce".to_string(),
            Fault::WrongKey => "wrong password or key - the data key did not unwrap".to_string(),
            Fault::DataKeyLength => "unexpected data key length".to_string(),
            Fault::ProtectFailed => "protecting the private key failed".to_string(),
            Fault::UnknownScheme(s) => {
                let mut text = String::new();
                text.append("unknown scheme '");
                text.append(s.as_str());
                text.append("' (use aes, chacha, rsa, ecc or mlkem)");
                assert(text@ =~= fault_text(*self));
                text
            },
            Fault::ActionWithSubcommand => "-e, -d and --info cannot be combined with a subcommand".to_string(),
            Fault::PasswordScheme => "that scheme uses a password, not a key pair".to_string(),
            Fault::UnknownKeyType(s) => {
                let mut text = String::new();
                text.append("unknown key type '");
                text.append(s.as_str());
                text.append("'");
                assert(text@ =~= fault_text(*self));
                text
            },
            Fault::DamagedPublicKey(a, _) => {
                let mut text = String::new();
                text.append("damaged ");
                text.append(short_name(*a));
                text.append(" public key");
                assert(text@ =~= fault_text(*self));
                text
            },
            Fault::DamagedPrivateKey(a, _) => {
                let mut text = String::new();
                text.append("damaged ");
                text.append(short_name(*a));
                text.append(" private key");
                assert(text@ =~= fault_text(*self));
                text
            },
            Fault::UnusableKeyName(s) => {
                let mut text = String::new();
                text.append("'");
                text.append(s.as_str());
                text.append("' is not a usable key name");
                assert(text@ =~= fault_text(*self));
                text
            },
            Fault::KeyExists(s, d) => {
                let mut text = String::new();
                text.append("a key named '");
                text.append(s.as_str());
                text.append("' already exists in ");
                text.append(d.as_str());
                assert(text@ =~= fault_text(*self));
                text
            },
            Fault::NoSuchKey(s, d) => {
                let mut text = String::new();
                text.append("no key '");
                text.append(s.as_str());
                text.append("' found (looked in ");
                text.append(d.as_str());
                text.append(")");
                assert(text@ =~= fault_text(*self));
                text
            },
            Fault::HomeUnset => "HOME is not set, cannot locate the key store".to_string(),
            Fault::UnwritableKey(e) => e.clone(),
            Fault::KeyTooLong => "the key is too long to be written out".to_string(),
            Fault::RsaGeneration(e) => e.clone(),
            Fault::RsaEncryption(e) => e.clone(),
            Fault::Encapsulation => "ML-KEM encapsulation failed".to_string(),
            Fault::Decapsulation => "ML-KEM decapsulation failed".to_string(),
            Fault::KeyDoesNotFit => "this private key does not fit the container".to_string(),
            Fault::MissingEphemeral => "header is missing the ephemeral key".to_string(),
            Fault::DamagedEphemeral => "damaged ephemeral key".to_string(),
            Fault::MissingKem => "header is missing the KEM ciphertext".to_string(),
            Fault::DamagedKem => "damaged ML-KEM ciphertext".to_string(),
            Fault::EmptyKeyFile => "empty key file".to_string(),
            Fault::NotKeyFile => "not a CryptoSec key file".to_string(),
            Fault::DamagedKeyFile(_) => "damaged key file".to_string(),
            Fault::WrongPassphrase => "wrong passphrase for this private key".to_string(),
            Fault::NotPasswordProtected => "this container is not password protected".to_string(),
            Fault::UnsupportedKdf(s) => {
                let mut text = String::new();
                text.append("unsupported key derivation '");
                text.append(s.as_str());
                text.append("'");
                assert(text@ =~= fault_text(*self));
                text
            },
            Fault::DamagedHeader(_) => "damaged header".to_string(),
            Fault::DamagedPrefix => "damaged header (nonce prefix)".to_string(),
            Fault::FieldNotBase64(e) => e.clone(),
            Fault::KeyMismatch(s, fp) => {
                let mut text = String::new();
                text.append("key '");
                text.append(s.as_str());
                text.append("' does not match this container (");
                text.append(fp.as_str());
                text.append(")");
                assert(text@ =~= fault_text(*self));
                text
            },
            Fault::NoPrivateKey(fp) => {
                let mut text = String::new();
                text.append("no private key ");
                text.append(fp.as_str());
                text.append(" in the key store - pass --key with the file path");
                assert(text@ =~= fault_text(*self));
                text
            },
            Fault::ManifestLength(n) => {
                let mut text = String::new();
                text.append("damaged container (manifest length ");
                text.append(decimal_text(*n as u64).as_str());
                text.append(")");
                assert(text@ =~= fault_text(*self));
                text
            },
            Fault::UnusablePath(p) => {
                let mut text = String::new();
                text.append("unusable path ");
                text.append(p.as_str());
                assert(text@ =~= fault_text(*self));
                text
            },
            Fault::UnusableName => "the container carries an unusable name".to_string(),
            Fault::AlreadyExists(p) => {
                let mut text = String::new();
                text.append(p.as_str());
                text.append(" already exists (use -f to overwrite)");
                assert(text@ =~= fault_text(*self));
                text
            },
            Fault::ShredAndKeep => "--shred and --keep contradict each other".to_string(),
            Fault::ShredUnchecked => "--shred needs the read-back check, drop --no-verify".to_string(),
            Fault::NothingToDo => "nothing to do".to_string(),
            Fault::CheckFailed => "read-back check failed, the source was left untouched".to_string(),
            Fault::RederivedKey => "the re-derived data key does not match".to_string(),
            Fault::OtherContents => "the container describes different contents than were written".to_string(),
            Fault::DiffersFromSource => "the decrypted data differs from the source".to_string(),
            Fault::EntryWithoutPath => "the archive holds an entry without a path".to_string(),
            Fault::OutsideRoot(r, p) => {
                let mut text = String::new();
                text.append("the archive holds an entry outside ");
                text.append(r.as_str());
                text.append(": ");
                text.append(p.as_str());
                assert(text@ =~= fault_text(*self));
                text
            },
            Fault::NotOnDisk(p) => {
                let mut text = String::new();
                text.append(p.as_str());
                text.append(" is in the archive but not on disk");
                assert(text@ =~= fault_text(*self));
                text
            },
            Fault::NoLinkTarget(p) => {
                let mut text = String::new();
                text.append(p.as_str());
                text.append(" has no link target");
                assert(text@ =~= fault_text(*self));
                text
            },
            Fault::SymlinkMoved(p) => {
                let mut text = String::new();
                text.append("the symlink ");
                text.append(p.as_str());
                text.append(" points somewhere else now");
                assert(text@ =~= fault_text(*self));
                text
            },
            Fault::DiffersFromArchive(p) => {
                let mut text = String::new();
                text.append(p.as_str());
                text.append(" differs from the archive");
                assert(text@ =~= fault_text(*self));
                text
            },
            Fault::EntryCount(s, d) => {
                let mut text = String::new();
                text.append("the archive holds ");
                text.append(decimal_text(*s as u64).as_str());
                text.append(" entries, the directory ");
                text.append(decimal_text(*d as u64).as_str());
                assert(text@ =~= fault_text(*self));
                text
            },
            Fault::OtherKeyType(s, h, w) => {
                let mut text = String::new();
                text.append("key '");
                text.append(s.as_str());
                text.append("' is a ");
                text.append(h.label());
                text.append(" key, but ");
                text.append(w.label());
                text.append(" was requested");
                assert(text@ =~= fault_text(*self));
                text
            },
            Fault::NoKeyPair => "no key pair available".to_string(),
            Fault::NoTerminalForScheme => "no terminal available - pass --algo to choose a scheme".to_string(),
            Fault::NoTerminalForKey => "no terminal available - pass --key to choose a key pair".to_string(),
            Fault::NoTerminalForPassword => "no terminal available - use --password-stdin".to_string(),
            Fault::NoTerminalForKeygen => "no terminal available - use --no-passphrase for unattended key generation".to_string(),
            Fault::EmptyPassword => "empty password on stdin".to_string(),
            Fault::EncryptionFailed => "encryption failed".to_string(),
            Fault::AuthenticationFailed => "authentication failed - wrong key or damaged file".to_string(),
            Fault::EndsEarly => "file ends early - the container is truncated".to_string(),
            Fault::TrailingData => "trailing data after the final chunk".to_string(),
        }
    }
}

// --------------------------------------------------------------------- laws

/// Whether a text holds another one.
pub open spec fn mentions(text: Seq<char>, part: Seq<char>) -> bool {
    exists|at: int|
        0 <= at && at + part.len() <= text.len() && #[trigger] text.subrange(
            at,
            at + part.len(),
        ) == part
}

/// A text holds what it was put together from.
proof fn lemma_mentions(before: Seq<char>, part: Seq<char>, after: Seq<char>)
    ensures
        mentions(before + part + after, part),
        mentions(before + part, part),
        mentions(part + after, part),
{
    let n = before.len() as int;
    let a = before + part + after;
    let b = before + part;
    let c = part + after;
    assert(a.subrange(n, n + part.len()) =~= part);
    assert(b.subrange(n, n + part.len()) =~= part);
    assert(c.subrange(0, 0 + part.len() as int) =~= part);
}

/// A message names what it is about: the path, the name, the fingerprint or the
/// number that the fault holds. What an outside call said is handed on as it is.
pub proof fn law_messages_name_what_they_are_about(f: Fault)
    ensures
        f matches Fault::AlreadyExists(p) ==> mentions(fault_text(f), p@),
        f matches Fault::UnusablePath(p) ==> mentions(fault_text(f), p@),
        f matches Fault::NotOnDisk(p) ==> mentions(fault_text(f), p@),
        f matches Fault::NoLinkTarget(p) ==> mentions(fault_text(f), p@),
        f matches Fault::SymlinkMoved(p) ==> mentions(fault_text(f), p@),
        f matches Fault::DiffersFromArchive(p) ==> mentions(fault_text(f), p@),
        f matches Fault::OutsideRoot(r, p) ==> mentions(fault_text(f), r@) && mentions(
            fault_text(f),
            p@,
        ),
        f matches Fault::KeyExists(s, d) ==> mentions(fault_text(f), s@) && mentions(
            fault_text(f),
            d@,
        ),
        f matches Fault::NoSuchKey(s, d) ==> mentions(fault_text(f), s@) && mentions(
            fault_text(f),
            d@,
        ),
        f matches Fault::KeyMismatch(s, fp) ==> mentions(fault_text(f), s@) && mentions(
            fault_text(f),
            fp@,
        ),
        f matches Fault::NoPrivateKey(fp) ==> mentions(fault_text(f), fp@),
        f matches Fault::UnknownScheme(s) ==> mentions(fault_text(f), s@),
        f matches Fault::UnknownKeyType(s) ==> mentions(fault_text(f), s@),
        f matches Fault::UnusableKeyName(s) ==> mentions(fault_text(f), s@),
        f matches Fault::UnsupportedKdf(s) ==> mentions(fault_text(f), s@),
        f matches Fault::OtherKeyType(s, has, wants) ==> mentions(fault_text(f), s@) && mentions(
            fault_text(f),
            algo_label(has),
        ) && mentions(fault_text(f), algo_label(wants)),
        f matches Fault::DamagedPublicKey(a, _) ==> mentions(fault_text(f), short_label(a)),
        f matches Fault::DamagedPrivateKey(a, _) ==> mentions(fault_text(f), short_label(a)),
        f matches Fault::HeaderLength(n) ==> mentions(fault_text(f), decimal(n as nat)),
        f matches Fault::Version(n) ==> mentions(fault_text(f), decimal(n as nat)),
        f matches Fault::ChunkSize(n) ==> mentions(fault_text(f), decimal(n as nat)),
        f matches Fault::ManifestLength(n) ==> mentions(fault_text(f), decimal(n as nat)),
        f matches Fault::EntryCount(s, d) ==> mentions(fault_text(f), decimal(s as nat))
            && mentions(fault_text(f), decimal(d as nat)),
        f matches Fault::Argon2Parameters(e) ==> mentions(fault_text(f), e@),
        f matches Fault::KeyDerivation(e) ==> mentions(fault_text(f), e@),
        f matches Fault::UnwritableKey(e) ==> fault_text(f) == e@,
        f matches Fault::RsaGeneration(e) ==> fault_text(f) == e@,
        f matches Fault::RsaEncryption(e) ==> fault_text(f) == e@,
        f matches Fault::FieldNotBase64(e) ==> fault_text(f) == e@,
{
    match f {
        Fault::AlreadyExists(p) => lemma_mentions(
            Seq::empty(),
            p@,
            " already exists (use -f to overwrite)"@,
        ),
        Fault::UnusablePath(p) => lemma_mentions("unusable path "@, p@, Seq::empty()),
        Fault::NotOnDisk(p) => lemma_mentions(
            Seq::empty(),
            p@,
            " is in the archive but not on disk"@,
        ),
        Fault::NoLinkTarget(p) => lemma_mentions(Seq::empty(), p@, " has no link target"@),
        Fault::SymlinkMoved(p) => lemma_mentions(
            "the symlink "@,
            p@,
            " points somewhere else now"@,
        ),
        Fault::DiffersFromArchive(p) => lemma_mentions(
            Seq::empty(),
            p@,
            " differs from the archive"@,
        ),
        Fault::OutsideRoot(r, p) => {
            let head = "the archive holds an entry outside "@;
            assert(fault_text(f) =~= head + r@ + (": "@ + p@));
            lemma_mentions(head, r@, ": "@ + p@);
            lemma_mentions(head + r@ + ": "@, p@, Seq::empty());
        },
        Fault::KeyExists(s, d) => {
            let head = "a key named '"@;
            let mid = "' already exists in "@;
            assert(fault_text(f) =~= head + s@ + (mid + d@));
            lemma_mentions(head, s@, mid + d@);
            lemma_mentions(head + s@ + mid, d@, Seq::empty());
        },
        Fault::NoSuchKey(s, d) => {
            let head = "no key '"@;
            let mid = "' found (looked in "@;
            assert(fault_text(f) =~= head + s@ + (mid + d@ + ")"@));
            lemma_mentions(head, s@, mid + d@ + ")"@);
            lemma_mentions(head + s@ + mid, d@, ")"@);
        },
        Fault::KeyMismatch(s, fp) => {
            let head = "key '"@;
            let mid = "' does not match this container ("@;
            assert(fault_text(f) =~= head + s@ + (mid + fp@ + ")"@));
            lemma_mentions(head, s@, mid + fp@ + ")"@);
            lemma_mentions(head + s@ + mid, fp@, ")"@);
        },
        Fault::NoPrivateKey(fp) => lemma_mentions(
            "no private key "@,
            fp@,
            " in the key store - pass --key with the file path"@,
        ),
        Fault::UnknownScheme(s) => lemma_mentions(
            "unknown scheme '"@,
            s@,
            "' (use aes, chacha, rsa, ecc or mlkem)"@,
        ),
        Fault::UnknownKeyType(s) => lemma_mentions("unknown key type '"@, s@, "'"@),
        Fault::UnusableKeyName(s) => lemma_mentions("'"@, s@, "' is not a usable key name"@),
        Fault::UnsupportedKdf(s) => lemma_mentions("unsupported key derivation '"@, s@, "'"@),
        Fault::OtherKeyType(s, h, w) => {
            let a = "key '"@;
            let b = "' is a "@;
            let c = " key, but "@;
            let d = " was requested"@;
            assert(fault_text(f) =~= a + s@ + (b + algo_label(h) + c + algo_label(w) + d));
            lemma_mentions(a, s@, b + algo_label(h) + c + algo_label(w) + d);
            assert(fault_text(f) =~= (a + s@ + b) + algo_label(h) + (c + algo_label(w) + d));
            lemma_mentions(a + s@ + b, algo_label(h), c + algo_label(w) + d);
            lemma_mentions(a + s@ + b + algo_label(h) + c, algo_label(w), d);
        },
        Fault::DamagedPublicKey(a, _) => lemma_mentions(
            "damaged "@,
            short_label(a),
            " public key"@,
        ),
        Fault::DamagedPrivateKey(a, _) => lemma_mentions(
            "damaged "@,
            short_label(a),
            " private key"@,
        ),
        Fault::HeaderLength(n) => lemma_mentions(
            "corrupt header (metadata length "@,
            decimal(n as nat),
            ")"@,
        ),
        Fault::Version(n) => lemma_mentions(
            "container version "@,
            decimal(n as nat),
            " is not supported by this build"@,
        ),
        Fault::ChunkSize(n) => lemma_mentions(
            "unsupported chunk size "@,
            decimal(n as nat),
            Seq::empty(),
        ),
        Fault::ManifestLength(n) => lemma_mentions(
            "damaged container (manifest length "@,
            decimal(n as nat),
            ")"@,
        ),
        Fault::EntryCount(s, d) => {
            let a = "the archive holds "@;
            let b = " entries, the directory "@;
            assert(fault_text(f) =~= a + decimal(s as nat) + (b + decimal(d as nat)));
            lemma_mentions(a, decimal(s as nat), b + decimal(d as nat));
            lemma_mentions(a + decimal(s as nat) + b, decimal(d as nat), Seq::empty());
        },
        Fault::Argon2Parameters(e) => lemma_mentions(
            "invalid Argon2 parameters: "@,
            e@,
            Seq::empty(),
        ),
        Fault::KeyDerivation(e) => lemma_mentions("key derivation failed: "@, e@, Seq::empty()),
        _ => {},
    }
}

/// Whoever is refused for one reason is told the same: two faults that stand for
/// the same refusal have the same message and the same cause.
pub proof fn law_one_reason_one_message(a: Fault, b: Fault, r: Refusal)
    requires
        a.is_for(r),
        b.is_for(r),
    ensures
        fault_text(a) == fault_text(b),
        fault_cause(a) == fault_cause(b),
{
}

/// A refusal is told as what it is: by the fault itself, or by the fault of its
/// name with its text, which is the cause where the message does not hold it.
pub proof fn law_a_refusal_is_told_as_it_is(a: Fault, r: Refusal)
    requires
        a.is_for(r),
    ensures
        r matches Refusal::Is(f) ==> a == f,
        r matches Refusal::Argon2Parameters(t) ==> a is Argon2Parameters && fault_text(a)
            == "invalid Argon2 parameters: "@ + t,
        r matches Refusal::KeyDerivation(t) ==> a is KeyDerivation && fault_text(a)
            == "key derivation failed: "@ + t,
        r matches Refusal::DamagedKeyFile(t) ==> a is DamagedKeyFile && fault_text(a)
            == "damaged key file"@ && fault_cause(a) == Some(t),
        r matches Refusal::DamagedHeader(t) ==> a is DamagedHeader && fault_text(a)
            == "damaged header"@ && fault_cause(a) == Some(t),
        r matches Refusal::DamagedPublicKey(algo, t) ==> a is DamagedPublicKey && fault_cause(a)
            == t && fault_text(a) == "damaged "@ + short_label(algo) + " public key"@,
        r matches Refusal::DamagedPrivateKey(algo, t) ==> a is DamagedPrivateKey && fault_cause(a)
            == t && fault_text(a) == "damaged "@ + short_label(algo) + " private key"@,
{
}

/// The types of key pairs are told apart in messages.
pub proof fn law_short_labels_differ(a: KeyAlgo, b: KeyAlgo)
    ensures
        short_label(a) == short_label(b) ==> a == b,
        short_label(a) == "RSA"@ <==> a == KeyAlgo::Rsa4096,
        short_label(a) == "X25519"@ <==> a == KeyAlgo::X25519,
        short_label(a) == "ML-KEM"@ <==> a == KeyAlgo::MlKem768,
{
    reveal_strlit("RSA");
    reveal_strlit("X25519");
    reveal_strlit("ML-KEM");
    assert("RSA"@[0] == 'R' && "X25519"@[0] == 'X' && "ML-KEM"@[0] == 'M');
}

/// What is said where nothing more is to be told: the same of every such fault,
/// whatever it came from.
pub proof fn law_messages_without_details(f: Fault)
    ensures
        f is NoHeader ==> fault_text(f) == "not a CryptoSec container (no header found)"@,
        f is TruncatedHeader ==> fault_text(f) == "truncated header"@,
        f is WrapFailed ==> fault_text(f) == "wrapping the data key failed"@,
        f is MissingWrapNonce ==> fault_text(f) == "header is missing the wrap nonce"@,
        f is DamagedWrapNonce ==> fault_text(f) == "damaged wrap nonce"@,
        f is WrongKey ==> fault_text(f) == "wrong password or key - the data key did not unwrap"@,
        f is DataKeyLength ==> fault_text(f) == "unexpected data key length"@,
        f is ProtectFailed ==> fault_text(f) == "protecting the private key failed"@,
        f is ActionWithSubcommand ==> fault_text(f)
            == "-e, -d and --info cannot be combined with a subcommand"@,
        f is PasswordScheme ==> fault_text(f) == "that scheme uses a password, not a key pair"@,
        f is HomeUnset ==> fault_text(f) == "HOME is not set, cannot locate the key store"@,
        f is KeyTooLong ==> fault_text(f) == "the key is too long to be written out"@,
        f is Encapsulation ==> fault_text(f) == "ML-KEM encapsulation failed"@,
        f is Decapsulation ==> fault_text(f) == "ML-KEM decapsulation failed"@,
        f is KeyDoesNotFit ==> fault_text(f) == "this private key does not fit the container"@,
        f is MissingEphemeral ==> fault_text(f) == "header is missing the ephemeral key"@,
        f is DamagedEphemeral ==> fault_text(f) == "damaged ephemeral key"@,
        f is MissingKem ==> fault_text(f) == "header is missing the KEM ciphertext"@,
        f is DamagedKem ==> fault_text(f) == "damaged ML-KEM ciphertext"@,
        f is EmptyKeyFile ==> fault_text(f) == "empty key file"@,
        f is NotKeyFile ==> fault_text(f) == "not a CryptoSec key file"@,
        f is WrongPassphrase ==> fault_text(f) == "wrong passphrase for this private key"@,
        f is NotPasswordProtected ==> fault_text(f) == "this container is not password protected"@,
        f is DamagedPrefix ==> fault_text(f) == "damaged header (nonce prefix)"@,
        f is UnusableName ==> fault_text(f) == "the container carries an unusable name"@,
        f is ShredAndKeep ==> fault_text(f) == "--shred and --keep contradict each other"@,
        f is ShredUnchecked ==> fault_text(f)
            == "--shred needs the read-back check, drop --no-verify"@,
        f is NothingToDo ==> fault_text(f) == "nothing to do"@,
        f is CheckFailed ==> fault_text(f)
            == "read-back check failed, the source was left untouched"@,
        f is RederivedKey ==> fault_text(f) == "the re-derived data key does not match"@,
        f is OtherContents ==> fault_text(f)
            == "the container describes different contents than were written"@,
        f is DiffersFromSource ==> fault_text(f) == "the decrypted data differs from the source"@,
        f is EntryWithoutPath ==> fault_text(f) == "the archive holds an entry without a path"@,
        f is NoKeyPair ==> fault_text(f) == "no key pair available"@,
        f is NoTerminalForScheme ==> fault_text(f)
            == "no terminal available - pass --algo to choose a scheme"@,
        f is NoTerminalForKey ==> fault_text(f)
            == "no terminal available - pass --key to choose a key pair"@,
        f is NoTerminalForPassword ==> fault_text(f)
            == "no terminal available - use --password-stdin"@,
        f is NoTerminalForKeygen ==> fault_text(f)
            == "no terminal available - use --no-passphrase for unattended key generation"@,
        f is EmptyPassword ==> fault_text(f) == "empty password on stdin"@,
        f is EncryptionFailed ==> fault_text(f) == "encryption failed"@,
        f is AuthenticationFailed ==> fault_text(f)
            == "authentication failed - wrong key or damaged file"@,
        f is EndsEarly ==> fault_text(f) == "file ends early - the container is truncated"@,
        f is TrailingData ==> fault_text(f) == "trailing data after the final chunk"@,
        f is DamagedKeyFile ==> fault_text(f) == "damaged key file"@,
        f is DamagedHeader ==> fault_text(f) == "damaged header"@,
{
}

} // verus!
