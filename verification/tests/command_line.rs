use cryptosec::cli::{ask_key_type, run, Cli, Command, Scheme, Task};
use cryptosec::commands::{
    decrypt_report, encrypt_report, info, keygen, keygen_notice, keygen_report, list_keys,
    note_text, open, restored_report, Protection,
};
use cryptosec::fault::Fault;
use cryptosec::format::{Cipher, Kind, Meta, Recipient};
use cryptosec::keys::KeyAlgo;
use cryptosec::names::{
    container_name, safe_name, scratch_name_with, scratch_path, sibling_of, source_name, Shown,
};
use cryptosec::ops::{clears_place, staged, Cleanup, Note, Scratch, Staged};
use cryptosec::store::KeyEntry;
use cryptosec::ui::{
    ask_name, check_terminal, choose_key, choose_scheme, confirm, interactive, key_items,
    passphrase_for_key, read_password, scheme_at, stdin_password, KeyChoice, PasswordStep,
};
use std::path::PathBuf;

fn cli() -> Cli {
    Cli {
        encrypt: None,
        decrypt: None,
        info: None,
        output: None,
        algo: None,
        key: None,
        password_stdin: false,
        force: false,
        skip_verify: false,
        keep: false,
        shred: false,
        quiet: false,
        command: None,
    }
}

fn path(s: &str) -> Option<PathBuf> {
    Some(PathBuf::from(s))
}

fn refused(c: Cli) -> Fault {
    match run(c) {
        Ok(_) => panic!("accepted"),
        Err(e) => e,
    }
}

#[test]
fn schemes_go_by_many_names() {
    for (names, scheme) in [
        (vec!["aes", "AES256", "aes-256-gcm"], Scheme::Password(Cipher::Aes256Gcm)),
        (
            vec!["chacha", "ChaCha20", "chacha20-poly1305"],
            Scheme::Password(Cipher::ChaCha20Poly1305),
        ),
        (vec!["rsa", "RSA-4096"], Scheme::KeyPair(KeyAlgo::Rsa4096)),
        (vec!["ecc", "X25519"], Scheme::KeyPair(KeyAlgo::X25519)),
        (vec!["mlkem", "ml-kem", "ML-KEM-768", "Kyber"], Scheme::KeyPair(KeyAlgo::MlKem768)),
    ] {
        for name in names {
            assert_eq!(Scheme::parse(name).unwrap(), scheme, "{}", name);
        }
    }
    assert_eq!(
        Scheme::parse("DES").unwrap_err().message(),
        "unknown scheme 'des' (use aes, chacha, rsa, ecc or mlkem)"
    );
    assert_eq!(Scheme::KeyPair(KeyAlgo::MlKem768).cipher(), Cipher::Aes256Gcm);
    assert_eq!(
        Scheme::Password(Cipher::ChaCha20Poly1305).cipher(),
        Cipher::ChaCha20Poly1305
    );
}

#[test]
fn the_menu_lists_every_scheme() {
    let items = choose_scheme(true).unwrap();
    assert_eq!(
        items,
        [
            "AES-256-GCM           password protected",
            "ChaCha20-Poly1305     password protected",
            "RSA-4096              key pair",
            "ECC / X25519          key pair",
            "ML-KEM-768            key pair, post-quantum",
        ]
    );
    for (i, item) in items.iter().enumerate() {
        assert_eq!(&scheme_at(i).menu_entry(), item);
    }
    assert_eq!(
        choose_scheme(false).unwrap_err().message(),
        "no terminal available - pass --algo to choose a scheme"
    );
    assert_eq!(ask_key_type(scheme_at(3)).unwrap(), KeyAlgo::X25519);
    assert_eq!(
        ask_key_type(scheme_at(0)).unwrap_err().message(),
        "that scheme uses a password, not a key pair"
    );
}

#[test]
fn a_command_line_asks_for_one_thing() {
    assert!(matches!(run(cli()), Ok(Task::Help)));
    let c = Cli { info: path("c"), encrypt: path("e"), algo: Some("des".to_string()), ..cli() };
    assert!(matches!(run(c), Ok(Task::Info { path }) if path == PathBuf::from("c")));
    let c = Cli { encrypt: path("e"), decrypt: path("d"), ..cli() };
    assert!(matches!(run(c), Ok(Task::Encrypt { path, .. }) if path == PathBuf::from("e")));
    let c = Cli {
        decrypt: path("d"),
        output: path("o"),
        key: Some("k".to_string()),
        algo: Some("ECC".to_string()),
        skip_verify: true,
        force: true,
        ..cli()
    };
    match run(c).unwrap() {
        Task::Decrypt { path, opts } => {
            assert_eq!(path, PathBuf::from("d"));
            assert_eq!(opts.output, Some(PathBuf::from("o")));
            assert_eq!(opts.key.as_deref(), Some("k"));
            assert_eq!(opts.scheme, Some(Scheme::KeyPair(KeyAlgo::X25519)));
            assert!(!opts.verify && opts.force && !opts.keep && !opts.shred && !opts.quiet);
        }
        _ => panic!("another task"),
    }
    let c = Cli { algo: Some("des".to_string()), ..cli() };
    assert!(matches!(refused(c), Fault::UnknownScheme(s) if s == "des"));
}

#[test]
fn subcommands_stand_alone() {
    assert!(matches!(run(Cli { command: Some(Command::Keys), ..cli() }), Ok(Task::Keys)));
    let c = Cli { command: Some(Command::Open { path: PathBuf::from("p") }), ..cli() };
    assert!(matches!(run(c), Ok(Task::Open { path }) if path == PathBuf::from("p")));
    let c = Cli { command: Some(Command::Keys), info: path("c"), ..cli() };
    assert_eq!(
        refused(c).message(),
        "-e, -d and --info cannot be combined with a subcommand"
    );
    let gen = |t: Option<&str>| Cli {
        command: Some(Command::Keygen {
            name: Some("n".to_string()),
            key_type: t.map(|t| t.to_string()),
            no_passphrase: true,
        }),
        quiet: true,
        ..cli()
    };
    match run(gen(Some("ecc"))).unwrap() {
        Task::Keygen { name, algo, no_passphrase, quiet } => {
            assert_eq!(name.as_deref(), Some("n"));
            assert_eq!(algo, Some(KeyAlgo::X25519));
            assert!(no_passphrase && quiet);
        }
        _ => panic!("another task"),
    }
    assert!(matches!(run(gen(None)), Ok(Task::Keygen { algo: None, .. })));
    assert!(matches!(refused(gen(Some("ECC"))), Fault::UnknownKeyType(_)));
}

fn entry(name: &str, algo: KeyAlgo, has_private: bool, protected: bool) -> KeyEntry {
    KeyEntry {
        name: name.to_string(),
        algo,
        fingerprint: "0123456789abcdef".to_string(),
        protected,
        has_private,
    }
}

#[test]
fn the_key_list_has_columns() {
    assert_eq!(list_keys(&[]), ["no key pairs yet - create one with: cryptosec keygen"]);
    let lines = list_keys(&[
        entry("work", KeyAlgo::X25519, true, true),
        entry("a name of some length", KeyAlgo::Rsa4096, true, false),
        entry("\u{e4}", KeyAlgo::MlKem768, false, false),
    ]);
    let want = |a: &str, b: &str, c: &str, d: &str| format!("{:<16} {:<16} {:<18} {}", a, b, c, d);
    assert_eq!(lines[0], want("NAME", "TYPE", "FINGERPRINT", "PRIVATE KEY"));
    let fp = "0123456789abcdef";
    assert_eq!(lines[1], want("work", "X25519 (ECC)", fp, "passphrase"));
    assert_eq!(lines[2], want("a name of some length", "RSA-4096", fp, "unprotected"));
    assert_eq!(lines[3], want("\u{e4}", "ML-KEM-768", fp, "missing"));
    assert_eq!(lines.len(), 4);
}

#[test]
fn a_key_is_chosen_from_a_list() {
    let entries = [entry("work", KeyAlgo::X25519, true, true)];
    let items = key_items(true, &entries).unwrap();
    assert_eq!(items[0], format!("{:<16} {:<14} {}", "work", "X25519 (ECC)", "0123456789abcdef"));
    assert_eq!(items[1], "generate a new key pair");
    assert_eq!(items.len(), 2);
    assert!(matches!(choose_key(&entries, 0), KeyChoice::Existing(n) if n == "work"));
    assert!(matches!(choose_key(&entries, 1), KeyChoice::Generate));
    assert_eq!(
        key_items(false, &entries).unwrap_err().message(),
        "no terminal available - pass --key to choose a key pair"
    );
}

#[test]
fn nobody_is_asked_without_a_terminal() {
    assert!(interactive(true, true));
    assert!(!interactive(true, false) && !interactive(false, true));
    assert_eq!(ask_name(false, "default"), Some("default".to_string()));
    assert_eq!(ask_name(true, "default"), None);
    assert_eq!(confirm(false, true), Some(true));
    assert_eq!(confirm(false, false), Some(false));
    assert_eq!(confirm(true, false), None);
    assert!(check_terminal(true).is_ok());
    assert_eq!(
        check_terminal(false).unwrap_err().message(),
        "no terminal available - use --password-stdin"
    );
}

#[test]
fn a_password_is_read_from_a_line() {
    assert_eq!(stdin_password("pass word \r\n").unwrap(), "pass word ");
    assert_eq!(stdin_password("p\n\r\n").unwrap(), "p");
    assert_eq!(stdin_password("p").unwrap(), "p");
    assert_eq!(stdin_password("\n").unwrap_err().message(), "empty password on stdin");
}

#[test]
fn a_new_password_is_typed_twice() {
    let typed = |s: &str| s.to_string();
    assert!(matches!(read_password(None, typed(""), true), PasswordStep::Empty));
    assert!(matches!(
        read_password(None, typed("p"), false),
        PasswordStep::Done { password, short: false } if password == "p"
    ));
    assert!(matches!(
        read_password(None, typed("p"), true),
        PasswordStep::Repeat(p) if p == "p"
    ));
    assert!(matches!(
        read_password(Some(typed("p")), typed("q"), true),
        PasswordStep::Differs
    ));
    assert!(matches!(
        read_password(Some(typed("eleven char")), typed("eleven char"), true),
        PasswordStep::Done { short: true, .. }
    ));
    // six characters, twelve bytes
    let six = "\u{e4}\u{e4}\u{e4}\u{e4}\u{e4}\u{e4}";
    assert!(matches!(
        read_password(Some(typed(six)), typed(six), true),
        PasswordStep::Done { short: false, .. }
    ));
    assert_eq!(passphrase_for_key("work"), "Passphrase for key 'work'");
}

#[test]
fn a_key_pair_is_protected_unless_told_otherwise() {
    assert!(matches!(keygen("k", true, false), Ok(Protection::Nothing)));
    assert!(matches!(
        keygen("k", false, true),
        Ok(Protection::Ask(p)) if p == "Passphrase for key 'k'"
    ));
    let fault = |name: &str| match keygen(name, false, false) {
        Ok(_) => panic!("accepted"),
        Err(e) => e.message(),
    };
    assert_eq!(
        fault("k"),
        "no terminal available - use --no-passphrase for unattended key generation"
    );
    assert_eq!(fault("../k"), "'../k' is not a usable key name");
    assert!(keygen_notice(KeyAlgo::Rsa4096, false).is_some());
    assert!(keygen_notice(KeyAlgo::Rsa4096, true).is_none());
    assert!(keygen_notice(KeyAlgo::X25519, false).is_none());
    let lines = keygen_report(KeyAlgo::X25519, "k", "/p", "/s", false);
    assert_eq!(
        lines,
        [
            "created X25519 (ECC) key pair 'k'",
            "  public  /p",
            "  private /s",
            "  the private key is stored unprotected, keep the file safe",
            "",
            "Anyone with the public key can encrypt for you.",
            "Back up the private key - without it the data is gone.",
        ]
    );
    assert_eq!(keygen_report(KeyAlgo::X25519, "k", "/p", "/s", true).len(), 6);
}

#[test]
fn reports_tell_what_was_done() {
    let meta = Meta {
        version: 1,
        cipher: Cipher::ChaCha20Poly1305,
        recipient: Recipient::Rsa { fingerprint: "ab".to_string(), wrapped: String::new() },
        nonce_prefix: String::new(),
        chunk_size: 1048576,
    };
    assert_eq!(
        encrypt_report(&meta, Kind::File, "a", "a.csec", true),
        [
            "a -> a.csec",
            "  cipher   ChaCha20-Poly1305",
            "  key mode RSA-4096 key ab",
            "  contents single file",
            "  verified decrypts back to the original",
        ]
    );
    assert_eq!(encrypt_report(&meta, Kind::Directory, "a", "b", false).len(), 4);
    assert_eq!(decrypt_report(&meta)[0], "Encrypted by CryptoSec");
    assert_eq!(
        restored_report("a", Note::ContainerRemoved),
        ["  restored a", "  container removed"]
    );
    assert_eq!(note_text(Note::ContainerKept), "  container kept (-k)");
    assert_eq!(note_text(Note::SourceRemoved), "  source removed");
    assert_eq!(note_text(Note::SourceOverwritten), "  source overwritten and removed");
    let lines = info(&meta, "c", Some(&entry("work", KeyAlgo::Rsa4096, true, true)));
    assert_eq!(
        lines,
        [
            "Encrypted by CryptoSec",
            "  file     c",
            "  cipher   ChaCha20-Poly1305",
            "  key mode RSA-4096 key ab",
            "  key      'work' is in your key store",
            "",
            "Decrypt with: cryptosec -d c",
        ]
    );
    assert_eq!(info(&meta, "c", None)[4], "  key      ab is not in your key store");
}

#[test]
fn opening_from_the_desktop_replaces_the_container() {
    let opts = open();
    assert!(!opts.keep && !opts.force && !opts.quiet && opts.output.is_none());
}

#[test]
fn restored_names_stay_in_their_directory() {
    for (name, want) in [
        ("a.txt", "a.txt"),
        ("../../etc/passwd", "passwd"),
        ("/abs/x", "x"),
        ("dir/", "dir"),
        ("a//b/./", "b"),
        ("...", "..."),
        ("a/..b", "..b"),
    ] {
        assert_eq!(safe_name(name).unwrap(), want);
        let std = std::path::Path::new(name).file_name().unwrap();
        assert_eq!(std, want);
    }
    for name in ["", ".", "..", "/", "a/..", "./.", "//", "a/../."] {
        assert_eq!(
            safe_name(name).unwrap_err().message(),
            "the container carries an unusable name"
        );
        assert!(std::path::Path::new(name).file_name().is_none(), "{}", name);
    }
}

#[test]
fn results_are_named_after_their_source() {
    assert_eq!(container_name("notes.txt"), "notes.txt.csec");
    assert_eq!(source_name(Some("n"), "/n").unwrap(), "n");
    assert_eq!(source_name(None, "/").unwrap_err().message(), "unusable path /");
    assert_eq!(
        scratch_name_with(Some("a.csec"), &[0, 15, 160, 255], "part"),
        ".a.csec.000fa0ff.part"
    );
    assert_eq!(scratch_name_with(None, &[1, 2, 3, 4], "tmp"), ".cryptosec.01020304.tmp");
    let s = scratch_path(Some("a"), "part");
    assert!(s.starts_with(".a.") && s.ends_with(".part") && s.len() == 16, "{}", s);
    assert_eq!(sibling_of(true), Shown::Beside);
    assert_eq!(sibling_of(false), Shown::Itself);
    assert!(clears_place(true, true) && !clears_place(true, false) && !clears_place(false, true));
    assert_eq!(staged(true), Staged::Named);
    assert_eq!(staged(false), Staged::Whole);
}

#[test]
fn scratch_files_go_unless_they_are_kept() {
    let mut s = Scratch::file(PathBuf::from("x"));
    assert_eq!(s.cleanup(), Cleanup::RemoveFile);
    assert_eq!(s.path(), &PathBuf::from("x"));
    s.keep();
    assert_eq!(s.cleanup(), Cleanup::Nothing);
    assert_eq!(Scratch::dir(PathBuf::from("x")).cleanup(), Cleanup::RemoveDir);
}

#[test]
fn faults_say_what_went_wrong() {
    for (fault, text) in [
        (Fault::NoHeader, "not a CryptoSec container (no header found)"),
        (Fault::TruncatedHeader, "truncated header"),
        (
            Fault::Argon2Parameters("too many threads".to_string()),
            "invalid Argon2 parameters: too many threads",
        ),
        (
            Fault::KeyDerivation("password is too long".to_string()),
            "key derivation failed: password is too long",
        ),
        (Fault::WrapFailed, "wrapping the data key failed"),
        (Fault::DataKeyLength, "unexpected data key length"),
        (Fault::ProtectFailed, "protecting the private key failed"),
        (Fault::Encapsulation, "ML-KEM encapsulation failed"),
        (Fault::Decapsulation, "ML-KEM decapsulation failed"),
        (Fault::KeyDoesNotFit, "this private key does not fit the container"),
        (Fault::NothingToDo, "nothing to do"),
        (Fault::RederivedKey, "the re-derived data key does not match"),
        (
            Fault::OtherContents,
            "the container describes different contents than were written",
        ),
        (Fault::EncryptionFailed, "encryption failed"),
        (
            Fault::AuthenticationFailed,
            "authentication failed - wrong key or damaged file",
        ),
        (Fault::EndsEarly, "file ends early - the container is truncated"),
        (Fault::TrailingData, "trailing data after the final chunk"),
        (
            Fault::SymlinkMoved("l".to_string()),
            "the symlink l points somewhere else now",
        ),
        (Fault::DiffersFromArchive("f".to_string()), "f differs from the archive"),
    ] {
        assert_eq!(fault.message(), text);
    }
}

#[test]
fn faults_tell_what_is_behind_them() {
    let said = || "why".to_string();
    let mut cursor: &[u8] = &[1, 2];
    let ended = std::io::Read::read_exact(&mut cursor, &mut [0u8; 4]).unwrap_err().to_string();
    let length = <[u8; 12]>::try_from([0u8; 3].as_slice()).unwrap_err().to_string();
    for (fault, cause) in [
        (Fault::TruncatedHeader, ended),
        (Fault::DamagedWrapNonce, length.clone()),
        (Fault::DamagedEphemeral, length),
        (Fault::DamagedPublicKey(KeyAlgo::Rsa4096, Some(said())), said()),
        (Fault::DamagedPrivateKey(KeyAlgo::Rsa4096, Some(said())), said()),
        (Fault::DamagedKeyFile(said()), said()),
        (Fault::DamagedHeader(said()), said()),
    ] {
        assert_eq!(fault.cause(), Some(cause.as_str()));
    }
    assert_eq!(Fault::DamagedPublicKey(KeyAlgo::MlKem768, None).cause(), None);
    assert_eq!(Fault::WrongKey.cause(), None);
}
