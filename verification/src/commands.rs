//! The subcommands, and what is reported of every command.
use crate::fault::Fault;
use crate::format::{recipient_label, Cipher, Kind, Meta, BANNER};
use crate::keys::{algo_label, KeyAlgo};
use crate::ops::{Note, Options};
use crate::store::{check_name, usable_name, KeyEntry};
use crate::text::{pad_right, padded, texts};
use crate::ui::passphrase_for_key;
use vstd::prelude::*;
use vstd::string::*;

verus! {

// ------------------------------------------------------------------- keygen

/// How the private key of a new key pair is protected.
pub enum Protection {
    /// Not at all.
    Nothing,
    /// By a passphrase, which is asked for with this prompt.
    Ask(String),
}

/// Decides whether a key pair of a name can be made, and how its private key is
/// protected.
pub fn keygen(name: &str, no_passphrase: bool, interactive: bool) -> (res: Result<
    Protection,
    Fault,
>)
    ensures
        !usable_name(name@) ==> (res matches Err(Fault::UnusableKeyName(n)) && n@ == name@),
        usable_name(name@) && no_passphrase ==> (res matches Ok(p) && p is Nothing),
        usable_name(name@) && !no_passphrase && interactive ==> (res matches Ok(
            Protection::Ask(prompt),
        ) && prompt@ == "Passphrase for key '"@ + name@ + "'"@),
        usable_name(name@) && !no_passphrase && !interactive ==> (res matches Err(e) && e
            is NoTerminalForKeygen),
{
    match check_name(name) {
        Ok(_) => {},
        Err(e) => {
            return Err(e);
        },
    }
    if no_passphrase {
        Ok(Protection::Nothing)
    } else if interactive {
        Ok(Protection::Ask(passphrase_for_key(name)))
    } else {
        Err(Fault::NoTerminalForKeygen)
    }
}

/// What is said before a key pair is made, where it takes a while.
pub fn keygen_notice(algo: KeyAlgo, quiet: bool) -> (res: Option<&'static str>)
    ensures
        match res {
            Some(s) => !quiet && algo == KeyAlgo::Rsa4096 && s@
                == "generating an RSA-4096 key pair, this takes a moment..."@,
            None => quiet || algo != KeyAlgo::Rsa4096,
        },
{
    if !quiet && algo == KeyAlgo::Rsa4096 {
        Some("generating an RSA-4096 key pair, this takes a moment...")
    } else {
        None
    }
}

/// What is said of a new key pair.
pub open spec fn keygen_lines(
    algo: KeyAlgo,
    name: Seq<char>,
    pub_path: Seq<char>,
    key_path: Seq<char>,
    protected: bool,
) -> Seq<Seq<char>> {
    seq![
        "created "@ + algo_label(algo) + " key pair '"@ + name + "'"@,
        "  public  "@ + pub_path,
        "  private "@ + key_path,
    ] + if protected {
        Seq::empty()
    } else {
        seq!["  the private key is stored unprotected, keep the file safe"@]
    } + seq![
        ""@,
        "Anyone with the public key can encrypt for you."@,
        "Back up the private key - without it the data is gone."@,
    ]
}

/// What is said of a new key pair, line by line.
pub fn keygen_report(algo: KeyAlgo, name: &str, pub_path: &str, key_path: &str, protected: bool) -> (
    lines: Vec<String>)
    ensures
        texts(lines@) == keygen_lines(algo, name@, pub_path@, key_path@, protected),
{
    let mut lines: Vec<String> = Vec::new();
    let mut line = "created ".to_string();
    line.append(algo.label());
    line.append(" key pair '");
    line.append(name);
    line.append("'");
    lines.push(line);
    let mut line = "  public  ".to_string();
    line.append(pub_path);
    lines.push(line);
    let mut line = "  private ".to_string();
    line.append(key_path);
    lines.push(line);
    if !protected {
        lines.push("  the private key is stored unprotected, keep the file safe".to_string());
    }
    lines.push("".to_string());
    lines.push("Anyone with the public key can encrypt for you.".to_string());
    lines.push("Back up the private key - without it the data is gone.".to_string());
    assert(texts(lines@) =~= keygen_lines(algo, name@, pub_path@, key_path@, protected));
    lines
}

// --------------------------------------------------------------------- keys

/// What is said of the private key of a key pair.
pub open spec fn private_state(e: KeyEntry) -> Seq<char> {
    if !e.has_private {
        "missing"@
    } else if e.protected {
        "passphrase"@
    } else {
        "unprotected"@
    }
}

/// The line of a key pair in the list of the key store.
pub open spec fn key_line(e: KeyEntry) -> Seq<char> {
    padded(e.name@, 16) + " "@ + padded(algo_label(e.algo), 16) + " "@ + padded(e.fingerprint@, 18)
        + " "@ + private_state(e)
}

/// The heading of the list of the key store.
pub open spec fn key_heading() -> Seq<char> {
    padded("NAME"@, 16) + " "@ + padded("TYPE"@, 16) + " "@ + padded("FINGERPRINT"@, 18)
        + " PRIVATE KEY"@
}

/// The list of the key store, line by line.
pub fn list_keys(entries: &[KeyEntry]) -> (lines: Vec<String>)
    ensures
        texts(lines@) == if entries@.len() == 0 {
            seq!["no key pairs yet - create one with: cryptosec keygen"@]
        } else {
            seq![key_heading()] + entries@.map_values(|e: KeyEntry| key_line(e))
        },
{
    let mut lines: Vec<String> = Vec::new();
    if entries.len() == 0 {
        lines.push("no key pairs yet - create one with: cryptosec keygen".to_string());
        assert(texts(lines@) =~= seq!["no key pairs yet - create one with: cryptosec keygen"@]);
        return lines;
    }
    let mut head = pad_right("NAME", 16);
    head.append(" ");
    head.append(pad_right("TYPE", 16).as_str());
    head.append(" ");
    head.append(pad_right("FINGERPRINT", 18).as_str());
    head.append(" PRIVATE KEY");
    lines.push(head);
    let mut i: usize = 0;
    assert(texts(lines@) =~= seq![key_heading()] + entries@.take(0).map_values(
        |e: KeyEntry| key_line(e),
    ));
    while i < entries.len()
        invariant
            i <= entries@.len(),
            texts(lines@) == seq![key_heading()] + entries@.take(i as int).map_values(
                |e: KeyEntry| key_line(e),
            ),
        decreases entries@.len() - i,
    {
        let e = &entries[i];
        let state = match (e.has_private, e.protected) {
            (false, _) => "missing",
            (true, true) => "passphrase",
            (true, false) => "unprotected",
        };
        let mut line = pad_right(e.name.as_str(), 16);
        line.append(" ");
        line.append(pad_right(e.algo.label(), 16).as_str());
        line.append(" ");
        line.append(pad_right(e.fingerprint.as_str(), 18).as_str());
        line.append(" ");
        line.append(state);
        let ghost before = texts(lines@);
        lines.push(line);
        proof {
            assert(line@ == key_line(*e));
            assert(texts(lines@) =~= before.push(line@));
            assert(entries@.take(i + 1).map_values(|e: KeyEntry| key_line(e))
                =~= entries@.take(i as int).map_values(|e: KeyEntry| key_line(e)).push(line@));
            assert(texts(lines@) =~= seq![key_heading()] + entries@.take(i + 1).map_values(
                |e: KeyEntry| key_line(e),
            ));
        }
        i += 1;
    }
    assert(entries@.take(i as int) =~= entries@);
    lines
}

// --------------------------------------------------------------------- open

/// How a container is decrypted that was opened from the desktop: next to
/// itself, and with nothing taken for granted.
pub fn open() -> (opts: Options)
    ensures
        opts == (Options {
            output: None,
            scheme: None,
            key: None,
            password_stdin: false,
            force: false,
            verify: false,
            keep: false,
            shred: false,
            quiet: false,
        }),
{
    Options {
        output: None,
        scheme: None,
        key: None,
        password_stdin: false,
        force: false,
        verify: false,
        keep: false,
        shred: false,
        quiet: false,
    }
}

// ------------------------------------------------------------------ reports

/// What is said of the source or the container in the end.
pub open spec fn note_line(note: Note) -> Seq<char> {
    match note {
        Note::SourceKept => "  source kept (-k)"@,
        Note::SourceUnchecked => "  source kept: nothing was verified (--no-verify)"@,
        Note::SourceOverwritten => "  source overwritten and removed"@,
        Note::SourceRemoved => "  source removed"@,
        Note::ContainerKept => "  container kept (-k)"@,
        Note::ContainerRemoved => "  container removed"@,
    }
}

/// What is said of the source or the container in the end.
pub fn note_text(note: Note) -> (s: &'static str)
    ensures
        s@ == note_line(note),
{
    match note {
        Note::SourceKept => "  source kept (-k)",
        Note::SourceUnchecked => "  source kept: nothing was verified (--no-verify)",
        Note::SourceOverwritten => "  source overwritten and removed",
        Note::SourceRemoved => "  source removed",
        Note::ContainerKept => "  container kept (-k)",
        Note::ContainerRemoved => "  container removed",
    }
}

/// The name that is shown for a cipher.
pub open spec fn cipher_label(c: Cipher) -> Seq<char> {
    match c {
        Cipher::Aes256Gcm => "AES-256-GCM"@,
        Cipher::ChaCha20Poly1305 => "ChaCha20-Poly1305"@,
    }
}

/// The name that is shown for a kind of contents.
pub open spec fn kind_label(k: Kind) -> Seq<char> {
    match k {
        Kind::File => "single file"@,
        Kind::Directory => "directory (tar archive)"@,
    }
}

fn cipher_line(meta: &Meta) -> (s: String)
    ensures
        s@ == "  cipher   "@ + cipher_label(meta.cipher),
{
    let mut s = "  cipher   ".to_string();
    s.append(meta.cipher.label());
    s
}

fn mode_line(meta: &Meta) -> (s: String)
    ensures
        s@ == "  key mode "@ + recipient_label(meta.recipient),
{
    let mut s = "  key mode ".to_string();
    s.append(meta.recipient.label().as_str());
    s
}

/// What is said once a container stands: where it came from and where it is, how
/// it is encrypted, what it holds, and whether it was checked.
pub fn encrypt_report(meta: &Meta, kind: Kind, from: &str, to: &str, checked: bool) -> (lines: Vec<
    String,
>)
    ensures
        texts(lines@) == seq![
            from@ + " -> "@ + to@,
            "  cipher   "@ + cipher_label(meta.cipher),
            "  key mode "@ + recipient_label(meta.recipient),
            "  contents "@ + kind_label(kind),
        ] + if checked {
            seq!["  verified decrypts back to the original"@]
        } else {
            Seq::empty()
        },
{
    let mut lines: Vec<String> = Vec::new();
    let mut line = from.to_string();
    line.append(" -> ");
    line.append(to);
    lines.push(line);
    lines.push(cipher_line(meta));
    lines.push(mode_line(meta));
    let mut line = "  contents ".to_string();
    line.append(kind.label());
    lines.push(line);
    if checked {
        lines.push("  verified decrypts back to the original".to_string());
    }
    assert(texts(lines@) =~= seq![
        from@ + " -> "@ + to@,
        "  cipher   "@ + cipher_label(meta.cipher),
        "  key mode "@ + recipient_label(meta.recipient),
        "  contents "@ + kind_label(kind),
    ] + if checked {
        seq!["  verified decrypts back to the original"@]
    } else {
        Seq::empty()
    });
    lines
}

/// What is said of a container before it is decrypted.
pub fn decrypt_report(meta: &Meta) -> (lines: Vec<String>)
    ensures
        texts(lines@) == seq![
            BANNER@,
            "  cipher   "@ + cipher_label(meta.cipher),
            "  key mode "@ + recipient_label(meta.recipient),
        ],
{
    let mut lines: Vec<String> = Vec::new();
    lines.push(BANNER.to_string());
    lines.push(cipher_line(meta));
    lines.push(mode_line(meta));
    assert(texts(lines@) =~= seq![
        BANNER@,
        "  cipher   "@ + cipher_label(meta.cipher),
        "  key mode "@ + recipient_label(meta.recipient),
    ]);
    lines
}

/// What is said once the contents of a container are restored.
pub fn restored_report(to: &str, note: Note) -> (lines: Vec<String>)
    ensures
        texts(lines@) == seq!["  restored "@ + to@, note_line(note)],
{
    let mut lines: Vec<String> = Vec::new();
    let mut line = "  restored ".to_string();
    line.append(to);
    lines.push(line);
    lines.push(note_text(note).to_string());
    assert(texts(lines@) =~= seq!["  restored "@ + to@, note_line(note)]);
    lines
}

/// What is said of the key that a container needs. `stored` is the name of the
/// key pair in the key store that has this fingerprint.
pub open spec fn key_hint(fp: Seq<char>, stored: Option<Seq<char>>) -> Seq<char> {
    match stored {
        Some(name) => "  key      '"@ + name + "' is in your key store"@,
        None => "  key      "@ + fp + " is not in your key store"@,
    }
}

/// What is said of a container that is not decrypted, line by line. `stored` is
/// the key pair in the key store that the container needs, where it needs one.
pub fn info(meta: &Meta, path: &str, stored: Option<&KeyEntry>) -> (lines: Vec<String>)
    ensures
        texts(lines@) == seq![
            BANNER@,
            "  file     "@ + path@,
            "  cipher   "@ + cipher_label(meta.cipher),
            "  key mode "@ + recipient_label(meta.recipient),
        ] + match crate::format::recipient_fingerprint(meta.recipient) {
            Some(fp) => seq![
                key_hint(
                    fp,
                    match stored {
                        Some(e) => Some(e.name@),
                        None => None,
                    },
                ),
            ],
            None => Seq::empty(),
        } + seq![""@, "Decrypt with: cryptosec -d "@ + path@],
{
    let mut lines: Vec<String> = Vec::new();
    lines.push(BANNER.to_string());
    let mut line = "  file     ".to_string();
    line.append(path);
    lines.push(line);
    lines.push(cipher_line(meta));
    lines.push(mode_line(meta));
    let ghost mut hint: Seq<Seq<char>> = Seq::empty();
    match meta.recipient.fingerprint() {
        Some(fp) => {
            let line = match stored {
                Some(e) => {
                    let mut line = "  key      '".to_string();
                    line.append(e.name.as_str());
                    line.append("' is in your key store");
                    line
                },
                None => {
                    let mut line = "  key      ".to_string();
                    line.append(fp);
                    line.append(" is not in your key store");
                    line
                },
            };
            proof {
                hint = seq![line@];
            }
            lines.push(line);
        },
        None => {},
    }
    lines.push("".to_string());
    let mut line = "Decrypt with: cryptosec -d ".to_string();
    line.append(path);
    lines.push(line);
    assert(texts(lines@) =~= seq![
        BANNER@,
        "  file     "@ + path@,
        "  cipher   "@ + cipher_label(meta.cipher),
        "  key mode "@ + recipient_label(meta.recipient),
    ] + hint + seq![""@, "Decrypt with: cryptosec -d "@ + path@]);
    lines
}

// --------------------------------------------------------------------- laws

/// The line of a key pair in the list of the key store shows its name, its type,
/// its fingerprint and what is known of its private key, in this order, each in its
/// column under its heading, or behind what is too long for one.
pub proof fn law_key_line_shows_the_key(e: KeyEntry)
    ensures
        ({
            let line = key_line(e);
            let label = algo_label(e.algo);
            let a = if e.name@.len() < 16 {
                16int
            } else {
                e.name@.len() as int
            };
            let b = a + 18 + if e.fingerprint@.len() < 18 {
                18int
            } else {
                e.fingerprint@.len() as int
            };
            &&& line.take(e.name@.len() as int) == e.name@
            &&& line.subrange(a + 1, a + 1 + label.len()) == label
            &&& line.subrange(a + 18, a + 18 + e.fingerprint@.len()) == e.fingerprint@
            &&& line.skip(b + 1) == private_state(e)
        }),
        key_heading().take(4) == "NAME"@,
        key_heading().subrange(17, 21) == "TYPE"@,
        key_heading().subrange(34, 45) == "FINGERPRINT"@,
        key_heading().skip(53) == "PRIVATE KEY"@,
{
    reveal_strlit(" ");
    reveal_strlit("NAME");
    reveal_strlit("TYPE");
    reveal_strlit("FINGERPRINT");
    reveal_strlit(" PRIVATE KEY");
    reveal_strlit("PRIVATE KEY");
    crate::keys::law_labels_of_the_types(e.algo, e.algo);
    let line = key_line(e);
    let label = algo_label(e.algo);
    let a = padded(e.name@, 16).len() as int;
    let n = padded(e.fingerprint@, 18).len() as int;
    assert(padded(label, 16).len() == 16);
    assert(line.take(e.name@.len() as int) =~= e.name@);
    assert(line.subrange(a + 1, a + 1 + label.len()) =~= label);
    assert(line.subrange(a + 18, a + 18 + e.fingerprint@.len()) =~= e.fingerprint@);
    assert(line.skip(a + 18 + n + 1) =~= private_state(e));
    let head = key_heading();
    assert(head.take(4) =~= "NAME"@);
    assert(head.subrange(17, 21) =~= "TYPE"@);
    assert(head.subrange(34, 45) =~= "FINGERPRINT"@);
    assert(head.skip(53) =~= "PRIVATE KEY"@);
}

/// A private key is shown as missing exactly where there is none, and otherwise as
/// unprotected exactly where no passphrase protects it.
pub proof fn law_state_of_a_private_key(e: KeyEntry)
    ensures
        private_state(e) == "missing"@ <==> !e.has_private,
        private_state(e) == "unprotected"@ <==> e.has_private && !e.protected,
        private_state(e) == "passphrase"@ <==> e.has_private && e.protected,
{
    reveal_strlit("missing");
    reveal_strlit("unprotected");
    reveal_strlit("passphrase");
    assert("missing"@[0] == 'm' && "unprotected"@[0] == 'u' && "passphrase"@[0] == 'p');
}

/// What is said in the end tells what it is about, the source or the container, and
/// what became of it, and both are told of in the same words. No two ends are told
/// alike.
pub proof fn law_notes_tell_what_was_done(a: Note, b: Note)
    ensures
        note_line(a) == if a is ContainerKept || a is ContainerRemoved {
            "  container "@
        } else {
            "  source "@
        } + if a is SourceKept || a is ContainerKept {
            "kept (-k)"@
        } else if a is SourceRemoved || a is ContainerRemoved {
            "removed"@
        } else if a is SourceOverwritten {
            "overwritten and removed"@
        } else {
            "kept: nothing was verified (--no-verify)"@
        },
        note_line(a) == note_line(b) ==> a == b,
{
    reveal_strlit("  source kept (-k)");
    reveal_strlit("  source kept: nothing was verified (--no-verify)");
    reveal_strlit("  source overwritten and removed");
    reveal_strlit("  source removed");
    reveal_strlit("  container kept (-k)");
    reveal_strlit("  container removed");
    reveal_strlit("  source ");
    reveal_strlit("  container ");
    reveal_strlit("kept (-k)");
    reveal_strlit("removed");
    reveal_strlit("overwritten and removed");
    reveal_strlit("kept: nothing was verified (--no-verify)");
    assert(note_line(Note::SourceKept) =~= "  source "@ + "kept (-k)"@);
    assert(note_line(Note::SourceUnchecked) =~= "  source "@
        + "kept: nothing was verified (--no-verify)"@);
    assert(note_line(Note::SourceOverwritten) =~= "  source "@ + "overwritten and removed"@);
    assert(note_line(Note::SourceRemoved) =~= "  source "@ + "removed"@);
    assert(note_line(Note::ContainerKept) =~= "  container "@ + "kept (-k)"@);
    assert(note_line(Note::ContainerRemoved) =~= "  container "@ + "removed"@);
    assert(note_line(Note::SourceKept).len() == 18);
    assert(note_line(Note::SourceUnchecked).len() == 49);
    assert(note_line(Note::SourceOverwritten).len() == 32);
    assert(note_line(Note::SourceRemoved).len() == 16);
    assert(note_line(Note::ContainerKept).len() == 21);
    assert(note_line(Note::ContainerRemoved).len() == 19);
}

/// Ciphers and kinds of contents are shown as what they are.
pub proof fn law_labels_of_ciphers_and_kinds(c: Cipher, k: Kind)
    ensures
        cipher_label(c) == "AES-256-GCM"@ <==> c == Cipher::Aes256Gcm,
        cipher_label(c) == "ChaCha20-Poly1305"@ <==> c == Cipher::ChaCha20Poly1305,
        kind_label(k) == "single file"@ <==> k == Kind::File,
        kind_label(k) == "directory (tar archive)"@ <==> k == Kind::Directory,
{
    reveal_strlit("AES-256-GCM");
    reveal_strlit("ChaCha20-Poly1305");
    reveal_strlit("single file");
    reveal_strlit("directory (tar archive)");
    assert("AES-256-GCM"@.len() == 11 && "ChaCha20-Poly1305"@.len() == 17);
    assert("single file"@.len() == 11 && "directory (tar archive)"@.len() == 23);
}

/// What is said of a new key pair names its type, its name and both its files, and
/// warns of an unprotected private key exactly where it is one.
pub proof fn law_report_of_a_new_key_pair(
    algo: KeyAlgo,
    name: Seq<char>,
    pub_path: Seq<char>,
    key_path: Seq<char>,
    protected: bool,
)
    ensures
        ({
            let lines = keygen_lines(algo, name, pub_path, key_path, protected);
            &&& lines[0] == "created "@ + algo_label(algo) + " key pair '"@ + name + "'"@
            &&& lines[1] == "  public  "@ + pub_path
            &&& lines[2] == "  private "@ + key_path
            &&& lines.len() == if protected {
                6int
            } else {
                7
            }
            &&& !protected ==> lines[3]
                == "  the private key is stored unprotected, keep the file safe"@
            &&& lines[lines.len() - 3] == ""@
            &&& lines[lines.len() - 2] == "Anyone with the public key can encrypt for you."@
            &&& lines.last() == "Back up the private key - without it the data is gone."@
        }),
{
}

/// What is said of the key that a container needs: the name of the stored key pair
/// where there is one, and otherwise the fingerprint that is looked for.
pub proof fn law_hint_names_the_key(fp: Seq<char>, name: Seq<char>)
    ensures
        key_hint(fp, Some(name)) == "  key      '"@ + name + "' is in your key store"@,
        key_hint(fp, None) == "  key      "@ + fp + " is not in your key store"@,
{
}

} // verus!
