//! The command line: what can be asked for, and what is done about it.
use crate::fault::Fault;
use crate::format::Cipher;
use crate::keys::{algo_named, KeyAlgo};
use crate::ops::Options;
use crate::text::{lowercase, lowercase_text, same_text};
use std::path::PathBuf;
use vstd::prelude::*;
use vstd::string::*;

verus! {

// ------------------------------------------------------------------ schemes

/// A scheme is either a password protected cipher or a key pair.
#[derive(Clone, Copy, Debug, PartialEq, Eq, Structural)]
pub enum Scheme {
    Password(Cipher),
    KeyPair(KeyAlgo),
}

/// The line of a scheme in the menu.
pub open spec fn scheme_entry(s: Scheme) -> Seq<char> {
    match s {
        Scheme::Password(Cipher::Aes256Gcm) => "AES-256-GCM           password protected"@,
        Scheme::Password(Cipher::ChaCha20Poly1305) => "ChaCha20-Poly1305     password protected"@,
        Scheme::KeyPair(KeyAlgo::Rsa4096) => "RSA-4096              key pair"@,
        Scheme::KeyPair(KeyAlgo::X25519) => "ECC / X25519          key pair"@,
        Scheme::KeyPair(KeyAlgo::MlKem768) => "ML-KEM-768            key pair, post-quantum"@,
    }
}

/// The schemes in the order of the menu.
pub open spec fn scheme_menu() -> Seq<Scheme> {
    seq![
        Scheme::Password(Cipher::Aes256Gcm),
        Scheme::Password(Cipher::ChaCha20Poly1305),
        Scheme::KeyPair(KeyAlgo::Rsa4096),
        Scheme::KeyPair(KeyAlgo::X25519),
        Scheme::KeyPair(KeyAlgo::MlKem768),
    ]
}

/// The scheme that goes by a name, in lower case.
pub open spec fn scheme_named(s: Seq<char>) -> Option<Scheme> {
    if s == "aes"@ || s == "aes256"@ || s == "aes-256-gcm"@ {
        Some(Scheme::Password(Cipher::Aes256Gcm))
    } else if s == "chacha"@ || s == "chacha20"@ || s == "chacha20-poly1305"@ {
        Some(Scheme::Password(Cipher::ChaCha20Poly1305))
    } else if s == "rsa"@ || s == "rsa-4096"@ {
        Some(Scheme::KeyPair(KeyAlgo::Rsa4096))
    } else if s == "ecc"@ || s == "x25519"@ {
        Some(Scheme::KeyPair(KeyAlgo::X25519))
    } else if s == "mlkem"@ || s == "ml-kem"@ || s == "ml-kem-768"@ || s == "kyber"@ {
        Some(Scheme::KeyPair(KeyAlgo::MlKem768))
    } else {
        None
    }
}

impl Scheme {
    /// The schemes in the order of the menu.
    pub fn menu() -> (menu: [Scheme; 5])
        ensures
            menu@ == scheme_menu(),
    {
        let menu = [
            Scheme::Password(Cipher::Aes256Gcm),
            Scheme::Password(Cipher::ChaCha20Poly1305),
            Scheme::KeyPair(KeyAlgo::Rsa4096),
            Scheme::KeyPair(KeyAlgo::X25519),
            Scheme::KeyPair(KeyAlgo::MlKem768),
        ];
        assert(menu@ =~= scheme_menu());
        menu
    }

    /// The line of the scheme in the menu.
    pub fn menu_entry(&self) -> (s: String)
        ensures
            s@ == scheme_entry(*self),
    {
        match self {
            Scheme::Password(Cipher::Aes256Gcm) => {
                "AES-256-GCM           password protected".to_string()
            },
            Scheme::Password(Cipher::ChaCha20Poly1305) => {
                "ChaCha20-Poly1305     password protected".to_string()
            },
            Scheme::KeyPair(KeyAlgo::Rsa4096) => "RSA-4096              key pair".to_string(),
            Scheme::KeyPair(KeyAlgo::X25519) => "ECC / X25519          key pair".to_string(),
            Scheme::KeyPair(KeyAlgo::MlKem768) => {
                "ML-KEM-768            key pair, post-quantum".to_string()
            },
        }
    }

    /// The cipher of the payload.
    pub fn cipher(&self) -> (c: Cipher)
        ensures
            c == match *self {
                Scheme::Password(c) => c,
                Scheme::KeyPair(_) => Cipher::Aes256Gcm,
            },
    {
        match self {
            Scheme::Password(c) => *c,
            // Key pairs only wrap the data key; the payload always uses AES-GCM.
            Scheme::KeyPair(_) => Cipher::Aes256Gcm,
        }
    }

    /// The scheme that goes by a name, in any case.
    pub fn parse(s: &str) -> (res: Result<Scheme, Fault>)
        ensures
            match scheme_named(lowercase(s@)) {
                Some(scheme) => res matches Ok(r) && r == scheme,
                None => res matches Err(Fault::UnknownScheme(name)) && name@ == lowercase(s@),
            },
    {
        let name = lowercase_text(s);
        let n = name.as_str();
        if same_text(n, "aes") || same_text(n, "aes256") || same_text(n, "aes-256-gcm") {
            Ok(Scheme::Password(Cipher::Aes256Gcm))
        } else if same_text(n, "chacha") || same_text(n, "chacha20") || same_text(
            n,
            "chacha20-poly1305",
        ) {
            Ok(Scheme::Password(Cipher::ChaCha20Poly1305))
        } else if same_text(n, "rsa") || same_text(n, "rsa-4096") {
            Ok(Scheme::KeyPair(KeyAlgo::Rsa4096))
        } else if same_text(n, "ecc") || same_text(n, "x25519") {
            Ok(Scheme::KeyPair(KeyAlgo::X25519))
        } else if same_text(n, "mlkem") || same_text(n, "ml-kem") || same_text(n, "ml-kem-768")
            || same_text(n, "kyber") {
            Ok(Scheme::KeyPair(KeyAlgo::MlKem768))
        } else {
            Err(Fault::UnknownScheme(name))
        }
    }
}

/// The type of key pair that a scheme stands for, where it stands for one.
pub fn ask_key_type(scheme: Scheme) -> (res: Result<KeyAlgo, Fault>)
    ensures
        match scheme {
            Scheme::KeyPair(a) => res == Ok::<_, Fault>(a),
            Scheme::Password(_) => res == Err::<KeyAlgo, _>(Fault::PasswordScheme),
        },
{
    match scheme {
        Scheme::KeyPair(a) => Ok(a),
        Scheme::Password(_) => Err(Fault::PasswordScheme),
    }
}

// ----------------------------------------------------------- command line

/// What stood on the command line.
#[derive(Debug)]
pub struct Cli {
    /// Encrypt a file or directory
    pub encrypt: Option<PathBuf>,
    /// Decrypt a .csec container
    pub decrypt: Option<PathBuf>,
    /// Show what a container holds without decrypting it
    pub info: Option<PathBuf>,
    /// Write the result here instead of next to the input
    pub output: Option<PathBuf>,
    /// Scheme to use: aes, chacha, rsa, ecc, mlkem
    pub algo: Option<String>,
    /// Key pair to encrypt for, or decrypt with
    pub key: Option<String>,
    /// Read the password from stdin instead of prompting
    pub password_stdin: bool,
    /// Overwrite an existing output path
    pub force: bool,
    /// Skip the read-back check after encrypting
    pub skip_verify: bool,
    /// Leave the input in place instead of replacing it
    pub keep: bool,
    /// Overwrite the source with random bytes before removing it
    pub shred: bool,
    /// Only print errors
    pub quiet: bool,
    pub command: Option<Command>,
}

/// A subcommand.
#[derive(Debug)]
pub enum Command {
    /// Create a new key pair in the key store
    Keygen {
        /// Name of the key pair, asked for when left out
        name: Option<String>,
        /// rsa, ecc or mlkem
        key_type: Option<String>,
        /// Store the private key without passphrase protection
        no_passphrase: bool,
    },
    /// List the key pairs in the key store
    Keys,
    /// Show a container and offer to decrypt it (used by the desktop handler)
    Open { path: PathBuf },
}

/// What is to be done.
pub enum Task {
    /// Create a key pair; its type is asked for when left out.
    Keygen { name: Option<String>, algo: Option<KeyAlgo>, no_passphrase: bool, quiet: bool },
    /// List the key store.
    Keys,
    /// Show a container and offer to decrypt it.
    Open { path: PathBuf },
    /// Show a container.
    Info { path: PathBuf },
    /// Encrypt.
    Encrypt { path: PathBuf, opts: Options },
    /// Decrypt.
    Decrypt { path: PathBuf, opts: Options },
    /// Show how the program is used.
    Help,
}

/// The options that a command line gives, with this scheme.
pub open spec fn options_of(cli: Cli, scheme: Option<Scheme>) -> Options {
    Options {
        output: cli.output,
        scheme,
        key: cli.key,
        password_stdin: cli.password_stdin,
        force: cli.force,
        verify: !cli.skip_verify,
        keep: cli.keep,
        shred: cli.shred,
        quiet: cli.quiet,
    }
}

/// Decides what a command line asks for. A subcommand stands alone. Otherwise
/// `--info` comes first, then `-e`, then `-d`; with none of them the usage is
/// shown.
pub fn run(cli: Cli) -> (res: Result<Task, Fault>)
    ensures
        cli.command matches Some(cmd) ==> if cli.encrypt is Some || cli.decrypt is Some || cli.info
            is Some {
            res == Err::<Task, _>(Fault::ActionWithSubcommand)
        } else {
            match cmd {
                Command::Keygen { name, key_type, no_passphrase } => match key_type {
                    None => res == Ok::<_, Fault>(
                        Task::Keygen { name, algo: None, no_passphrase, quiet: cli.quiet },
                    ),
                    Some(t) => match algo_named(t@) {
                        Some(a) => res == Ok::<_, Fault>(
                            Task::Keygen { name, algo: Some(a), no_passphrase, quiet: cli.quiet },
                        ),
                        None => res matches Err(Fault::UnknownKeyType(s)) && s@ == t@,
                    },
                },
                Command::Keys => res == Ok::<_, Fault>(Task::Keys),
                Command::Open { path } => res == Ok::<_, Fault>(Task::Open { path }),
            }
        },
        cli.command is None ==> (cli.info matches Some(path) ==> res == Ok::<_, Fault>(
            Task::Info { path },
        )),
        cli.command is None && cli.info is None ==> match cli.algo {
            Some(a) if scheme_named(lowercase(a@)) is None => res matches Err(
                Fault::UnknownScheme(s),
            ) && s@ == lowercase(a@),
            _ => {
                let scheme = match cli.algo {
                    Some(a) => scheme_named(lowercase(a@)),
                    None => None,
                };
                let opts = options_of(cli, scheme);
                res == Ok::<_, Fault>(
                    match (cli.encrypt, cli.decrypt) {
                        (Some(path), _) => Task::Encrypt { path, opts },
                        (None, Some(path)) => Task::Decrypt { path, opts },
                        (None, None) => Task::Help,
                    },
                )
            },
        },
        res matches Ok(Task::Encrypt { path, opts }) ==> {
            &&& cli.encrypt == Some(path)
            &&& opts.keep == cli.keep
            &&& opts.shred == cli.shred
            &&& opts.verify == !cli.skip_verify
            &&& opts.force == cli.force
            &&& opts.password_stdin == cli.password_stdin
            &&& opts.quiet == cli.quiet
            &&& opts.output == cli.output
            &&& opts.key == cli.key
            &&& opts.scheme is Some <==> cli.algo is Some
        },
        res matches Ok(Task::Decrypt { path, opts }) ==> {
            &&& cli.decrypt == Some(path)
            &&& cli.encrypt is None
            &&& opts.keep == cli.keep
            &&& opts.shred == cli.shred
            &&& opts.verify == !cli.skip_verify
            &&& opts.force == cli.force
            &&& opts.password_stdin == cli.password_stdin
            &&& opts.quiet == cli.quiet
            &&& opts.output == cli.output
            &&& opts.key == cli.key
            &&& opts.scheme is Some <==> cli.algo is Some
        },
        res matches Ok(Task::Keygen { name, no_passphrase, quiet, .. }) ==> {
            &&& quiet == cli.quiet
            &&& cli.command matches Some(Command::Keygen { name: asked, no_passphrase: without, .. })
                && name == asked && no_passphrase == without
        },
{
    match cli.command {
        Some(cmd) => {
            if cli.encrypt.is_some() || cli.decrypt.is_some() || cli.info.is_some() {
                return Err(Fault::ActionWithSubcommand);
            }
            return match cmd {
                Command::Keygen { name, key_type, no_passphrase } => {
                    let algo = match key_type {
                        Some(t) => match KeyAlgo::parse(t.as_str()) {
                            Ok(a) => Some(a),
                            Err(e) => {
                                return Err(e);
                            },
                        },
                        None => None,
                    };
                    Ok(Task::Keygen { name, algo, no_passphrase, quiet: cli.quiet })
                },
                Command::Keys => Ok(Task::Keys),
                Command::Open { path } => Ok(Task::Open { path }),
            };
        },
        None => {},
    }
    match cli.info {
        Some(path) => {
            return Ok(Task::Info { path });
        },
        None => {},
    }
    let scheme = match &cli.algo {
        Some(a) => match Scheme::parse(a.as_str()) {
            Ok(s) => Some(s),
            Err(e) => {
                return Err(e);
            },
        },
        None => None,
    };
    let opts = Options {
        output: cli.output,
        scheme,
        key: cli.key,
        password_stdin: cli.password_stdin,
        force: cli.force,
        verify: !cli.skip_verify,
        keep: cli.keep,
        shred: cli.shred,
        quiet: cli.quiet,
    };
    match cli.encrypt {
        Some(path) => {
            return Ok(Task::Encrypt { path, opts });
        },
        None => {},
    }
    match cli.decrypt {
        Some(path) => {
            return Ok(Task::Decrypt { path, opts });
        },
        None => {},
    }
    Ok(Task::Help)
}

// --------------------------------------------------------------------- laws

/// Every switch arrives as it stood on the command line: of two command lines that
/// differ in a switch, the options differ in that switch, and the check is left
/// out exactly where that was asked for.
pub proof fn law_options_are_the_switches(cli: Cli, scheme: Option<Scheme>)
    ensures
        options_of(cli, scheme).keep == cli.keep,
        options_of(cli, scheme).shred == cli.shred,
        options_of(cli, scheme).verify <==> !cli.skip_verify,
        options_of(cli, scheme).force == cli.force,
        options_of(cli, scheme).password_stdin == cli.password_stdin,
        options_of(cli, scheme).quiet == cli.quiet,
        options_of(cli, scheme).output == cli.output,
        options_of(cli, scheme).key == cli.key,
        options_of(cli, scheme).scheme == scheme,
{
}

/// The first character of every name of a scheme, and how long it is.
proof fn lemma_scheme_names()
    ensures
        "aes"@ =~= seq!['a', 'e', 's'],
        "aes256"@ =~= seq!['a', 'e', 's', '2', '5', '6'],
        "aes-256-gcm"@.len() == 11 && "aes-256-gcm"@[0] == 'a',
        "chacha"@ =~= seq!['c', 'h', 'a', 'c', 'h', 'a'],
        "chacha20"@.len() == 8 && "chacha20"@[0] == 'c',
        "chacha20-poly1305"@.len() == 17 && "chacha20-poly1305"@[0] == 'c',
        "rsa"@ =~= seq!['r', 's', 'a'],
        "rsa-4096"@.len() == 8 && "rsa-4096"@[0] == 'r',
        "ecc"@ =~= seq!['e', 'c', 'c'],
        "x25519"@.len() == 6 && "x25519"@[0] == 'x',
        "mlkem"@ =~= seq!['m', 'l', 'k', 'e', 'm'],
        "ml-kem"@ =~= seq!['m', 'l', '-', 'k', 'e', 'm'],
        "ml-kem-768"@.len() == 10 && "ml-kem-768"@[0] == 'm',
        "kyber"@ =~= seq!['k', 'y', 'b', 'e', 'r'],
{
    reveal_strlit("aes");
    reveal_strlit("aes256");
    reveal_strlit("aes-256-gcm");
    reveal_strlit("chacha");
    reveal_strlit("chacha20");
    reveal_strlit("chacha20-poly1305");
    reveal_strlit("rsa");
    reveal_strlit("rsa-4096");
    reveal_strlit("ecc");
    reveal_strlit("x25519");
    reveal_strlit("mlkem");
    reveal_strlit("ml-kem");
    reveal_strlit("ml-kem-768");
    reveal_strlit("kyber");
}

/// Which names stand for which scheme: each scheme has its own names, and nothing
/// else stands for it.
pub proof fn law_names_of_the_schemes(s: Seq<char>)
    ensures
        scheme_named(s) == Some(Scheme::Password(Cipher::Aes256Gcm)) <==> (s == "aes"@ || s
            == "aes256"@ || s == "aes-256-gcm"@),
        scheme_named(s) == Some(Scheme::Password(Cipher::ChaCha20Poly1305)) <==> (s == "chacha"@
            || s == "chacha20"@ || s == "chacha20-poly1305"@),
        scheme_named(s) == Some(Scheme::KeyPair(KeyAlgo::Rsa4096)) <==> (s == "rsa"@ || s
            == "rsa-4096"@),
        scheme_named(s) == Some(Scheme::KeyPair(KeyAlgo::X25519)) <==> (s == "ecc"@ || s
            == "x25519"@),
        scheme_named(s) == Some(Scheme::KeyPair(KeyAlgo::MlKem768)) <==> (s == "mlkem"@ || s
            == "ml-kem"@ || s == "ml-kem-768"@ || s == "kyber"@),
{
    lemma_scheme_names();
}

/// A type of key pair goes by the same names whether a key pair is made or
/// something is encrypted for one: what names a type names the scheme of that type.
pub proof fn law_key_types_name_their_schemes(s: Seq<char>)
    ensures
        algo_named(s) matches Some(algo) ==> scheme_named(s) == Some(Scheme::KeyPair(algo)),
        scheme_named(s) matches Some(Scheme::KeyPair(algo)) ==> s == "kyber"@ || algo_named(s)
            == Some(algo),
        scheme_named(s) matches Some(Scheme::Password(_)) ==> algo_named(s) is None,
{
    lemma_scheme_names();
}

/// A scheme may be written in any case: texts that differ only in the case of
/// letters of ASCII stand for the same scheme.
pub proof fn law_case_of_a_scheme_does_not_matter(a: Seq<char>, b: Seq<char>)
    requires
        a.len() == b.len(),
        forall|i: int|
            0 <= i < a.len() ==> {
                ||| #[trigger] a[i] == b[i]
                ||| 'A' <= a[i] <= 'Z' && b[i] as int == a[i] as int + 32
                ||| 'A' <= b[i] <= 'Z' && a[i] as int == b[i] as int + 32
            },
    ensures
        scheme_named(lowercase(a)) == scheme_named(lowercase(b)),
{
    assert forall|i: int| 0 <= i < a.len() implies lowercase(a)[i] == lowercase(b)[i] by {
        if a[i] != b[i] {
            if 'A' <= a[i] <= 'Z' {
                assert(b[i] as int == a[i] as int + 32);
            }
        }
    }
    assert(lowercase(a) =~= lowercase(b));
}

/// The menu holds every scheme once, and no two lines of it are alike. A line
/// begins with the name of its cipher or type of key pair.
pub proof fn law_menu_holds_every_scheme(s: Scheme, t: Scheme)
    ensures
        scheme_menu().contains(s),
        scheme_menu().no_duplicates(),
        scheme_entry(s) == scheme_entry(t) ==> s == t,
        scheme_entry(s).len() > 22,
        crate::text::begins_with(
            scheme_entry(s),
            match s {
                Scheme::Password(Cipher::Aes256Gcm) => "AES-256-GCM "@,
                Scheme::Password(Cipher::ChaCha20Poly1305) => "ChaCha20-Poly1305 "@,
                Scheme::KeyPair(KeyAlgo::Rsa4096) => "RSA-4096 "@,
                Scheme::KeyPair(KeyAlgo::X25519) => "ECC / X25519 "@,
                Scheme::KeyPair(KeyAlgo::MlKem768) => "ML-KEM-768 "@,
            },
        ),
        scheme_entry(s).skip(22) == match s {
            Scheme::Password(_) => "password protected"@,
            Scheme::KeyPair(KeyAlgo::MlKem768) => "key pair, post-quantum"@,
            Scheme::KeyPair(_) => "key pair"@,
        },
{
    let menu = scheme_menu();
    assert(menu[0] == Scheme::Password(Cipher::Aes256Gcm));
    assert(menu[1] == Scheme::Password(Cipher::ChaCha20Poly1305));
    assert(menu[2] == Scheme::KeyPair(KeyAlgo::Rsa4096));
    assert(menu[3] == Scheme::KeyPair(KeyAlgo::X25519));
    assert(menu[4] == Scheme::KeyPair(KeyAlgo::MlKem768));
    reveal_strlit("AES-256-GCM           password protected");
    reveal_strlit("ChaCha20-Poly1305     password protected");
    reveal_strlit("RSA-4096              key pair");
    reveal_strlit("ECC / X25519          key pair");
    reveal_strlit("ML-KEM-768            key pair, post-quantum");
    reveal_strlit("AES-256-GCM ");
    reveal_strlit("ChaCha20-Poly1305 ");
    reveal_strlit("RSA-4096 ");
    reveal_strlit("ECC / X25519 ");
    reveal_strlit("ML-KEM-768 ");
    reveal_strlit("password protected");
    reveal_strlit("key pair, post-quantum");
    reveal_strlit("key pair");
    assert(scheme_entry(Scheme::Password(Cipher::Aes256Gcm))[0] == 'A');
    assert(scheme_entry(Scheme::Password(Cipher::ChaCha20Poly1305))[0] == 'C');
    assert(scheme_entry(Scheme::KeyPair(KeyAlgo::Rsa4096))[0] == 'R');
    assert(scheme_entry(Scheme::KeyPair(KeyAlgo::X25519))[0] == 'E');
    assert(scheme_entry(Scheme::KeyPair(KeyAlgo::MlKem768))[0] == 'M');
    let line = scheme_entry(s);
    match s {
        Scheme::Password(Cipher::Aes256Gcm) => {
            assert(line.take(12) =~= "AES-256-GCM "@);
            assert(line.skip(22) =~= "password protected"@);
        },
        Scheme::Password(Cipher::ChaCha20Poly1305) => {
            assert(line.take(18) =~= "ChaCha20-Poly1305 "@);
            assert(line.skip(22) =~= "password protected"@);
        },
        Scheme::KeyPair(KeyAlgo::Rsa4096) => {
            assert(line.take(9) =~= "RSA-4096 "@);
            assert(line.skip(22) =~= "key pair"@);
        },
        Scheme::KeyPair(KeyAlgo::X25519) => {
            assert(line.take(13) =~= "ECC / X25519 "@);
            assert(line.skip(22) =~= "key pair"@);
        },
        Scheme::KeyPair(KeyAlgo::MlKem768) => {
            assert(line.take(11) =~= "ML-KEM-768 "@);
            assert(line.skip(22) =~= "key pair, post-quantum"@);
        },
    }
}

/// What was asked for on the command line is what happens to the input: with `-k`
/// nothing is ever removed, neither a source nor a container; with `--no-verify` no
/// source is, and nothing is read back; and a source is overwritten exactly where
/// `--shred` says so and it goes at all.
pub proof fn law_switches_decide_what_goes(
    cli: Cli,
    scheme: Option<Scheme>,
    events: Seq<crate::ops::EncryptEvent>,
    steps: Seq<crate::ops::DecryptEvent>,
)
    ensures
        ({
            let opts = options_of(cli, scheme);
            let action = crate::ops::encrypt_does(opts, events);
            let goes = action matches Some(a) && (a is Remove || a is Shred);
            &&& cli.keep ==> !goes
            &&& cli.skip_verify ==> !goes
            &&& goes ==> events.last() == crate::ops::EncryptEvent::Checked(true)
            &&& goes ==> (cli.shred <==> action->0 is Shred)
            &&& cli.keep ==> crate::ops::decrypt_does(opts, steps) != Some(
                crate::ops::DecryptAction::Remove,
            )
        }),
{
    let opts = options_of(cli, scheme);
    if let Some(a) = crate::ops::encrypt_does(opts, events) {
        if a is Remove || a is Shred {
            crate::ops::law_source_goes_only_after_the_check(opts, events);
        }
    }
    if crate::ops::decrypt_does(opts, steps) == Some(crate::ops::DecryptAction::Remove) {
        crate::ops::law_container_goes_only_after_its_contents_are_restored(opts, steps);
    }
}

/// A type of key pair that is named on the command line is the one that is encrypted
/// for, under each of its names and for every type; nobody is asked for a scheme or
/// a password then. A cipher that is named takes a password, and no key.
pub proof fn law_named_scheme_is_used(
    cli: Cli,
    name: Seq<char>,
    events: Seq<crate::ops::EncryptEvent>,
)
    ensures
        ({
            let action = crate::ops::encrypt_does(
                options_of(cli, scheme_named(lowercase(name))),
                events,
            );
            &&& scheme_named(lowercase(name)) is Some ==> action != Some(
                crate::ops::EncryptAction::ChooseScheme,
            )
            &&& action matches Some(crate::ops::EncryptAction::PickKey(algo)) ==> (scheme_named(
                lowercase(name),
            ) is Some ==> scheme_named(lowercase(name)) == Some(Scheme::KeyPair(algo)))
            &&& algo_named(lowercase(name)) matches Some(algo) ==> action != Some(
                crate::ops::EncryptAction::AskPassword,
            ) && (action matches Some(crate::ops::EncryptAction::PickKey(picked)) ==> picked
                == algo)
            &&& scheme_named(lowercase(name)) matches Some(Scheme::Password(_)) ==> !(
            action matches Some(crate::ops::EncryptAction::PickKey(_)))
        }),
{
    let opts = options_of(cli, scheme_named(lowercase(name)));
    law_key_types_name_their_schemes(lowercase(name));
    if crate::ops::encrypt_does(opts, events) is Some {
        crate::ops::law_key_is_of_the_asked_type(opts, events);
    }
}

} // verus!
