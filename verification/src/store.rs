//! The key store: which files it has, what they hold, and what is read from
//! them.
use crate::armor::{clean, clean_field, field_of, parsed, rendered, Armor, ArmorView};
use crate::fault::{Fault, Refusal};
use crate::kdf::{
    another_seal, is_sealed, law_altered_secret_is_refused, open_secret, seal_secret, sealable,
    secret_of, unsealed_for, SealedSecret, SealedView,
};
use crate::keys::{
    algo_named, algo_tag, fingerprint_of, in_file, private_from, private_written, public_from,
    public_of, same_key, KeyAlgo, KeyView, PrivateKey, PublicKey, PublicView,
};
use crate::primitives::{sha256_of, wipe_bytes, wipe_text};
use crate::text::{
    before, bytes_before, chars_of, find_char, hex, hex_digit, lemma_before_total,
    lemma_before_transitive, lemma_index_of, lemma_trimmed_is, same_text, trimmed, white_space,
};
use vstd::prelude::*;
use vstd::slice::slice_to_vec;
use vstd::string::*;

verus! {

// ------------------------------------------------------------------- place

/// Which setting says where the key store is.
#[derive(Clone, Copy, Debug, PartialEq, Eq, Structural)]
pub enum StoreRoot {
    /// `CRYPTOSEC_HOME` names the directory itself.
    Override,
    /// The directory is `cryptosec` in `XDG_CONFIG_HOME`.
    Config,
    /// The directory is `.config/cryptosec` in `HOME`.
    Home,
}

/// Which setting counts: the first that is there.
pub fn store_dir(has_override: bool, has_config: bool, has_home: bool) -> (res: Result<
    StoreRoot,
    Fault,
>)
    ensures
        has_override ==> res == Ok::<_, Fault>(StoreRoot::Override),
        !has_override && has_config ==> res == Ok::<_, Fault>(StoreRoot::Config),
        !has_override && !has_config && has_home ==> res == Ok::<_, Fault>(StoreRoot::Home),
        !has_override && !has_config && !has_home ==> res == Err::<StoreRoot, _>(Fault::HomeUnset),
{
    if has_override {
        Ok(StoreRoot::Override)
    } else if has_config {
        Ok(StoreRoot::Config)
    } else if has_home {
        Ok(StoreRoot::Home)
    } else {
        Err(Fault::HomeUnset)
    }
}

impl StoreRoot {
    /// The directories that lead from the setting to the base of the key store.
    pub fn parts(&self) -> (parts: Vec<&'static str>)
        ensures
            parts@.len() == match *self {
                StoreRoot::Override => 0int,
                StoreRoot::Config => 1,
                StoreRoot::Home => 2,
            },
            *self == StoreRoot::Config ==> parts@[0]@ == "cryptosec"@,
            *self == StoreRoot::Home ==> parts@[0]@ == ".config"@ && parts@[1]@ == "cryptosec"@,
    {
        let mut parts: Vec<&'static str> = Vec::new();
        match self {
            StoreRoot::Override => {},
            StoreRoot::Config => {
                parts.push("cryptosec");
            },
            StoreRoot::Home => {
                parts.push(".config");
                parts.push("cryptosec");
            },
        }
        parts
    }
}

/// Whether a key pair can go by a name: it makes a plain and visible file name.
pub open spec fn usable_name(name: Seq<char>) -> bool {
    name.len() > 0 && name[0] != '.' && !name.contains('/')
}

/// Refuses a name that does not make a plain and visible file name.
pub fn check_name(name: &str) -> (res: Result<(), Fault>)
    ensures
        match res {
            Ok(_) => usable_name(name@),
            Err(e) => !usable_name(name@) && (e matches Fault::UnusableKeyName(n) && n@ == name@),
        },
        res is Ok <==> name@.len() > 0 && name@[0] != '.' && !name@.contains('/'),
{
    let chars = chars_of(name);
    if chars.len() == 0 {
        return Err(Fault::UnusableKeyName(name.to_string()));
    }
    let slash: usize = find_char(&chars, '/');
    proof {
        lemma_index_of(chars@, '/');
        if slash < chars@.len() {
            assert(chars@.contains('/'));
        }
    }
    if slash < chars.len() || chars[0] == '.' {
        return Err(Fault::UnusableKeyName(name.to_string()));
    }
    Ok(())
}

/// The name of a file of a key pair: the pair's name, a dot, and `pub` or `key`.
pub fn file_name(name: &str, ext: &str) -> (s: String)
    ensures
        s@ == name@ + "."@ + ext@,
{
    let mut s = name.to_string();
    s.append(".");
    s.append(ext);
    s
}

/// Refuses to make a key pair over one that is there. `dir` is the directory as
/// it is shown.
pub fn check_new(name: &str, pub_exists: bool, key_exists: bool, dir: &str) -> (res: Result<
    (),
    Fault,
>)
    ensures
        match res {
            Ok(_) => !pub_exists && !key_exists,
            Err(e) => (pub_exists || key_exists) && (e matches Fault::KeyExists(n, d) && n@ == name@
                && d@ == dir@),
        },
{
    if pub_exists || key_exists {
        return Err(Fault::KeyExists(name.to_string(), dir.to_string()));
    }
    Ok(())
}

/// Where a key file is.
#[derive(Clone, Copy, Debug, PartialEq, Eq, Structural)]
pub enum KeyPlace {
    /// What was given is the path of the file.
    Direct,
    /// What was given is the name of a key in the key store.
    Stored,
}

/// Decides where a key file is. A file at that path comes before a key of that
/// name. `dir` is the key store as it is shown.
pub fn resolve(name_or_path: &str, direct_is_file: bool, stored_is_file: bool, dir: &str) -> (res:
    Result<KeyPlace, Fault>)
    ensures
        match res {
            Ok(place) => if direct_is_file {
                place == KeyPlace::Direct
            } else {
                stored_is_file && place == KeyPlace::Stored
            },
            Err(e) => !direct_is_file && !stored_is_file && (e matches Fault::NoSuchKey(n, d) && n@
                == name_or_path@ && d@ == dir@),
        },
{
    if direct_is_file {
        Ok(KeyPlace::Direct)
    } else if stored_is_file {
        Ok(KeyPlace::Stored)
    } else {
        Err(Fault::NoSuchKey(name_or_path.to_string(), dir.to_string()))
    }
}

// ------------------------------------------------------------ public files

/// What a public key file says.
pub open spec fn public_armor(name: Seq<char>, pk: PublicView) -> ArmorView {
    ArmorView {
        kind: "PUBLIC"@,
        headers: seq![
            ("name"@, name),
            ("algorithm"@, algo_tag(pk.algo)),
            ("fingerprint"@, fingerprint_of(pk)),
        ],
        body: pk.bytes,
    }
}

/// How reading a public key file ends.
pub enum LoadedPublic {
    /// It holds this key of this name.
    Key(Seq<char>, PublicView),
    /// It names a type of key pair that there is not.
    UnknownType(Seq<char>),
    /// It is refused for another reason.
    Refused(Refusal),
}

/// The type that a key file names, empty where it names none.
pub open spec fn named_type(a: ArmorView) -> Seq<char> {
    match field_of(a.headers, "algorithm"@) {
        Some(t) => t,
        None => Seq::empty(),
    }
}

/// The name that a key file gives, or `given` where it gives none.
pub open spec fn named(a: ArmorView, given: Seq<char>) -> Seq<char> {
    match field_of(a.headers, "name"@) {
        Some(n) => n,
        None => given,
    }
}

/// The key that a public key file holds.
pub open spec fn loaded_public(text: Seq<char>, given: Seq<char>) -> LoadedPublic {
    match parsed(text) {
        Err(f) => LoadedPublic::Refused(f),
        Ok(a) => match algo_named(named_type(a)) {
            None => LoadedPublic::UnknownType(named_type(a)),
            Some(algo) => match public_from(algo, a.body) {
                Err(f) => LoadedPublic::Refused(f),
                Ok(bytes) => LoadedPublic::Key(named(a, given), in_file(algo, bytes)),
            },
        },
    }
}

fn field_or<'a>(armor: &'a Armor, k: &str, default: &'a str) -> (res: &'a str)
    ensures
        res@ == match field_of(armor@.headers, k@) {
            Some(v) => v,
            None => default@,
        },
{
    match armor.field(k) {
        Some(v) => v,
        None => default,
    }
}

/// Reads a public key file. `given` is what the key was asked for by.
pub fn load_public(text: &str, given: &str) -> (res: Result<(String, PublicKey), Fault>)
    ensures
        match loaded_public(text@, given@) {
            LoadedPublic::Key(name, key) => res matches Ok((n, pk)) && n@ == name && pk@ == key,
            LoadedPublic::UnknownType(t) => res matches Err(Fault::UnknownKeyType(s)) && s@ == t,
            LoadedPublic::Refused(f) => res matches Err(e) && e.is_for(f),
        },
{
    let armor = match Armor::parse(text) {
        Ok(a) => a,
        Err(e) => {
            return Err(e);
        },
    };
    proof {
        reveal_strlit("");
        assert(""@ =~= Seq::empty());
    }
    let algo = match KeyAlgo::parse(field_or(&armor, "algorithm", "")) {
        Ok(a) => a,
        Err(e) => {
            return Err(e);
        },
    };
    let pk = match PublicKey::from_bytes(algo, armor.body()) {
        Ok(pk) => pk,
        Err(e) => {
            return Err(e);
        },
    };
    let name = field_or(&armor, "name", given).to_string();
    Ok((name, pk))
}

/// Whether a body is short enough to be written as text on this machine.
pub open spec fn writable(len: nat) -> bool {
    len <= isize::MAX / 2
}

/// Writes a public key file. A clean name and a key that its own bytes stand for
/// are read from it again.
pub fn public_file(name: &str, pk: &PublicKey) -> (res: Result<String, Fault>)
    ensures
        match res {
            Ok(text) => writable(pk@.bytes.len()) && text@ == rendered(public_armor(name@, pk@)),
            Err(e) => !writable(pk@.bytes.len()) && e is KeyTooLong,
        },
        res matches Ok(text) ==> (clean_field(("name"@, name@)) ==> parsed(text@) == Ok::<
            _,
            Refusal,
        >(public_armor(name@, pk@))),
        res matches Ok(text) ==> (clean_field(("name"@, name@)) && public_from(
            pk@.algo,
            pk@.bytes,
        ) == Ok::<_, Refusal>(pk@.bytes) ==> forall|given: Seq<char>| #[trigger]
            loaded_public(text@, given) == LoadedPublic::Key(
            name@,
            in_file(pk@.algo, pk@.bytes),
        )),
{
    let bytes = match pk.to_bytes() {
        Ok(b) => b,
        Err(e) => {
            return Err(e);
        },
    };
    if bytes.len() > isize::MAX as usize / 2 {
        return Err(Fault::KeyTooLong);
    }
    let fp = match pk.fingerprint() {
        Ok(fp) => fp,
        Err(e) => {
            return Err(e);
        },
    };
    let mut armor = Armor::new("PUBLIC", &bytes);
    armor.set("name", name);
    armor.set("algorithm", pk.algo().tag());
    armor.set("fingerprint", fp.as_str());
    proof {
        assert(armor@.headers =~= public_armor(name@, pk@).headers);
        lemma_public_armor(name@, pk@);
    }
    Ok(armor.render())
}

/// Whether a text holds no white space.
spec fn no_space(s: Seq<char>) -> bool {
    forall|i: int| 0 <= i < s.len() ==> !white_space(#[trigger] s[i])
}

/// A text without white space is on one line, and is its own trimming.
proof fn lemma_no_space(s: Seq<char>)
    requires
        no_space(s),
    ensures
        !s.contains('\n'),
        trimmed(s) == s,
{
    if s.contains('\n') {
        let j = choose|j: int| 0 <= j < s.len() && s[j] == '\n';
        assert(white_space(s[j]));
    }
    if s.len() > 0 {
        assert(!white_space(s[0]));
        assert(!white_space(s[s.len() - 1]));
    }
    lemma_trimmed_is(s);
}

/// The words of key files, letter by letter.
proof fn lemma_words()
    ensures
        "PUBLIC"@ == seq!['P', 'U', 'B', 'L', 'I', 'C'],
        "PRIVATE"@ == seq!['P', 'R', 'I', 'V', 'A', 'T', 'E'],
        "name"@ == seq!['n', 'a', 'm', 'e'],
        "algorithm"@ == seq!['a', 'l', 'g', 'o', 'r', 'i', 't', 'h', 'm'],
        "fingerprint"@ == seq!['f', 'i', 'n', 'g', 'e', 'r', 'p', 'r', 'i', 'n', 't'],
        "protection"@ == seq!['p', 'r', 'o', 't', 'e', 'c', 't', 'i', 'o', 'n'],
        "none"@ == seq!['n', 'o', 'n', 'e'],
        "argon2id"@ == seq!['a', 'r', 'g', 'o', 'n', '2', 'i', 'd'],
        "rsa-4096"@ == seq!['r', 's', 'a', '-', '4', '0', '9', '6'],
        "x25519"@ == seq!['x', '2', '5', '5', '1', '9'],
        "ml-kem-768"@ == seq!['m', 'l', '-', 'k', 'e', 'm', '-', '7', '6', '8'],
{
    reveal_strlit("PUBLIC");
    reveal_strlit("PRIVATE");
    reveal_strlit("name");
    reveal_strlit("algorithm");
    reveal_strlit("fingerprint");
    reveal_strlit("protection");
    reveal_strlit("none");
    reveal_strlit("argon2id");
    reveal_strlit("rsa-4096");
    reveal_strlit("x25519");
    reveal_strlit("ml-kem-768");
    assert("PUBLIC"@ =~= seq!['P', 'U', 'B', 'L', 'I', 'C']);
    assert("PRIVATE"@ =~= seq!['P', 'R', 'I', 'V', 'A', 'T', 'E']);
    assert("name"@ =~= seq!['n', 'a', 'm', 'e']);
    assert("algorithm"@ =~= seq!['a', 'l', 'g', 'o', 'r', 'i', 't', 'h', 'm']);
    assert("fingerprint"@ =~= seq!['f', 'i', 'n', 'g', 'e', 'r', 'p', 'r', 'i', 'n', 't']);
    assert("protection"@ =~= seq!['p', 'r', 'o', 't', 'e', 'c', 't', 'i', 'o', 'n']);
    assert("none"@ =~= seq!['n', 'o', 'n', 'e']);
    assert("argon2id"@ =~= seq!['a', 'r', 'g', 'o', 'n', '2', 'i', 'd']);
    assert("rsa-4096"@ =~= seq!['r', 's', 'a', '-', '4', '0', '9', '6']);
    assert("x25519"@ =~= seq!['x', '2', '5', '5', '1', '9']);
    assert("ml-kem-768"@ =~= seq!['m', 'l', '-', 'k', 'e', 'm', '-', '7', '6', '8']);
}

/// The names of the fields differ, and each is clean with a clean value.
proof fn lemma_field_names()
    ensures
        "name"@ != "algorithm"@,
        "name"@ != "protection"@,
        "algorithm"@ != "protection"@,
        "fingerprint"@ != "protection"@,
        forall|v: Seq<char>| no_space(v) ==> #[trigger] clean_field(("algorithm"@, v)),
        forall|v: Seq<char>| no_space(v) ==> #[trigger] clean_field(("fingerprint"@, v)),
        forall|v: Seq<char>| no_space(v) ==> #[trigger] clean_field(("protection"@, v)),
{
    lemma_words();
    assert("name"@.len() == 4 && "algorithm"@.len() == 9);
    assert("fingerprint"@.len() == 11 && "protection"@.len() == 10);
    let stop = crate::armor::STOP@;
    assert(stop.len() == 8 && stop[0] == '-') by {
        reveal_strlit("-----END");
    }
    let words = seq!["algorithm"@, "fingerprint"@, "protection"@];
    assert forall|k: Seq<char>, v: Seq<char>| words.contains(k) && no_space(v) implies
        #[trigger] clean_field((k, v)) by {
        assert(no_space(k));
        assert(!k.contains(':'));
        lemma_no_space(k);
        lemma_no_space(v);
        if crate::text::begins_with(k, stop) {
            assert(k.take(8)[0] == '-');
        }
    }
    assert(words[0] == "algorithm"@ && words[1] == "fingerprint"@ && words[2] == "protection"@);
}

/// The two kinds of key files can be told from the marks around them.
proof fn lemma_kinds(kind: Seq<char>)
    requires
        kind == "PUBLIC"@ || kind == "PRIVATE"@,
    ensures
        !kind.contains('\n'),
        !crate::text::begins_with(kind + crate::armor::CLOSE@, crate::armor::BEGIN@),
        !crate::text::ends_with(kind, crate::armor::CLOSE@),
{
    lemma_words();
    reveal_strlit("-----BEGIN CRYPTOSEC ");
    reveal_strlit(" KEY-----");
    let begin = crate::armor::BEGIN@;
    if crate::text::begins_with(kind + crate::armor::CLOSE@, begin) {
        assert((kind + crate::armor::CLOSE@).take(21)[0] == 'P');
        assert(begin[0] == '-');
    }
}

/// The tag of a type holds no white space, nor do hexadecimal digits.
proof fn lemma_tags(algo: KeyAlgo)
    ensures
        no_space(algo_tag(algo)),
{
    lemma_words();
}

proof fn lemma_hex_plain(bytes: Seq<u8>)
    ensures
        no_space(hex(bytes)),
    decreases bytes.len(),
{
    if bytes.len() > 0 {
        let head = hex(bytes.drop_last());
        lemma_hex_plain(bytes.drop_last());
        let b = bytes.last();
        let all = hex(bytes);
        assert forall|i: int| 0 <= i < all.len() implies !white_space(#[trigger] all[i]) by {
            if i < head.len() {
                assert(all[i] == head[i]);
            } else if i == head.len() {
                assert(all[i] == hex_digit(b as int / 16));
            } else {
                assert(all[i] == hex_digit(b as int % 16));
            }
        }
    }
}

/// The fields of a public key file are clean where its name is, and are found.
proof fn lemma_public_armor(name: Seq<char>, pk: PublicView)
    ensures
        clean_field(("name"@, name)) ==> clean(public_armor(name, pk)),
        field_of(public_armor(name, pk).headers, "name"@) == Some(name),
        field_of(public_armor(name, pk).headers, "algorithm"@) == Some(algo_tag(pk.algo)),
        algo_named(algo_tag(pk.algo)) == Some(pk.algo),
{
    crate::keys::law_tag_parses(pk.algo);
    lemma_field_names();
    lemma_kinds("PUBLIC"@);
    lemma_tags(pk.algo);
    lemma_hex_plain(
        sha256_of(vstd::utf8::encode_utf8(algo_tag(pk.algo)) + seq![0u8] + pk.bytes).take(8),
    );
    let a = public_armor(name, pk);
    let hs = a.headers;
    assert(hs[0].0 == "name"@);
    assert(hs.skip(1)[0] == hs[1]);
    reveal_with_fuel(field_of, 3);
    if clean_field(("name"@, name)) {
        assert forall|i: int| 0 <= i < hs.len() implies clean_field(#[trigger] hs[i]) by {
            if i == 1 {
                assert(clean_field(("algorithm"@, algo_tag(pk.algo))));
            } else if i == 2 {
                assert(clean_field(("fingerprint"@, fingerprint_of(pk))));
            }
        }
    }
}

// ----------------------------------------------------------- private files

/// What a private key file says.
pub open spec fn private_armor(
    name: Seq<char>,
    sk: KeyView,
    body: Seq<u8>,
    protected: bool,
) -> ArmorView {
    ArmorView {
        kind: "PRIVATE"@,
        headers: seq![
            ("name"@, name),
            ("algorithm"@, algo_tag(sk.algo)),
            ("fingerprint"@, fingerprint_of(public_of(sk))),
            (
                "protection"@,
                if protected {
                    "argon2id"@
                } else {
                    "none"@
                },
            ),
        ],
        body,
    }
}

/// Whether a key file says that its body is sealed: anything but `none` does.
pub open spec fn says_protected(a: ArmorView) -> bool {
    field_of(a.headers, "protection"@) != Some("none"@)
}

/// A private key file that was read but not opened.
pub struct KeyFile {
    pub algo: KeyAlgo,
    pub name: String,
    pub body: Vec<u8>,
    pub protected: bool,
}

/// What was read from a private key file.
pub struct KeyFileView {
    pub algo: KeyAlgo,
    pub name: Seq<char>,
    pub body: Seq<u8>,
    pub protected: bool,
}

impl View for KeyFile {
    type V = KeyFileView;

    open spec fn view(&self) -> KeyFileView {
        KeyFileView {
            algo: self.algo,
            name: self.name@,
            body: self.body@,
            protected: self.protected,
        }
    }
}

/// How reading a private key file ends.
pub enum LoadedFile {
    /// It holds this.
    File(KeyFileView),
    /// It names a type of key pair that there is not.
    UnknownType(Seq<char>),
    /// It is refused for another reason.
    Refused(Refusal),
}

/// What a private key file holds.
pub open spec fn loaded_file(text: Seq<char>, given: Seq<char>) -> LoadedFile {
    match parsed(text) {
        Err(f) => LoadedFile::Refused(f),
        Ok(a) => match algo_named(named_type(a)) {
            None => LoadedFile::UnknownType(named_type(a)),
            Some(algo) => LoadedFile::File(
                KeyFileView {
                    algo,
                    name: named(a, given),
                    body: a.body,
                    protected: says_protected(a),
                },
            ),
        },
    }
}

/// Whether a text is read as the file of a private key of this name, with this
/// body, sealed or not, whatever the key was asked for by.
pub open spec fn loads_as(
    text: Seq<char>,
    name: Seq<char>,
    sk: KeyView,
    body: Seq<u8>,
    protected: bool,
) -> bool {
    forall|given: Seq<char>| #[trigger]
        loaded_file(text, given) == LoadedFile::File(
            KeyFileView { algo: sk.algo, name, body, protected },
        )
}

/// Reads a private key file. `given` is what the key was asked for by. Where the
/// key is protected, the body is a sealed secret, and a passphrase is needed.
pub fn read_private(text: &str, given: &str) -> (res: Result<KeyFile, Fault>)
    ensures
        match loaded_file(text@, given@) {
            LoadedFile::File(file) => res matches Ok(f) && f@ == file,
            LoadedFile::UnknownType(t) => res matches Err(Fault::UnknownKeyType(s)) && s@ == t,
            LoadedFile::Refused(f) => res matches Err(e) && e.is_for(f),
        },
{
    let armor = match Armor::parse(text) {
        Ok(a) => a,
        Err(e) => {
            return Err(e);
        },
    };
    proof {
        reveal_strlit("");
        assert(""@ =~= Seq::empty());
    }
    let algo = match KeyAlgo::parse(field_or(&armor, "algorithm", "")) {
        Ok(a) => a,
        Err(e) => {
            return Err(e);
        },
    };
    let name = field_or(&armor, "name", given).to_string();
    let protected = match armor.field("protection") {
        Some(p) => !same_text(p, "none"),
        None => true,
    };
    Ok(KeyFile { algo, name, body: slice_to_vec(armor.body()), protected })
}

/// The private key in a file, where its body is sealed as `sealed` says, or not
/// sealed.
pub open spec fn private_in(
    algo: KeyAlgo,
    body: Seq<u8>,
    sealed: Option<SealedView>,
    pass: Seq<char>,
) -> Result<Seq<u8>, Refusal> {
    match sealed {
        None => private_from(algo, body),
        Some(s) => match secret_of(pass, s) {
            Err(f) => Err(f),
            Ok(raw) => private_from(algo, raw),
        },
    }
}

/// Opens a private key file. `sealed` is what its body says where the key is
/// protected; the passphrase is wiped.
pub fn load_private(file: &KeyFile, sealed: Option<&SealedSecret>, pass: &mut String) -> (res:
    Result<PrivateKey, Fault>)
    requires
        sealed is Some <==> file.protected,
        sealed matches Some(s) ==> s.m_cost * 1024 <= isize::MAX,
    ensures
        match private_in(
            file.algo,
            file.body@,
            match sealed {
                Some(s) => Some(s@),
                None => None,
            },
            old(pass)@,
        ) {
            Ok(bytes) => res matches Ok(sk) && sk@ == (KeyView { algo: file.algo, bytes }),
            Err(f) => res matches Err(e) && e.is_for(f),
        },
        final(pass)@.len() == 0,
{
    let raw = match sealed {
        None => Ok(slice_to_vec(file.body.as_slice())),
        Some(s) => open_secret(pass.as_str(), s),
    };
    wipe_text(pass);
    let mut raw = match raw {
        Ok(r) => r,
        Err(e) => {
            return Err(e);
        },
    };
    let sk = PrivateKey::from_bytes(file.algo, &raw);
    wipe_bytes(&mut raw);
    sk
}

/// Whether the body of a private key file holds a private key: `raw` are the
/// bytes that the key is written out as, they stand for the same key, and the
/// body is those bytes, or is sealed so that they come out under the passphrase.
pub open spec fn holds_private(
    sk: KeyView,
    raw: Seq<u8>,
    body: Seq<u8>,
    sealed: Option<SealedView>,
    pass: Seq<char>,
) -> bool {
    &&& private_written(sk) == Ok::<_, Seq<char>>(raw)
    &&& private_from(sk.algo, raw) matches Ok(again) && same_key(
        sk,
        KeyView { algo: sk.algo, bytes: again },
    )
    &&& match sealed {
        None => body == raw,
        Some(s) => secret_of(pass, s) == Ok::<_, Refusal>(raw),
    }
}

/// A private key that was saved is loaded again: the file says of which type it
/// is and by which name its passphrase is to be asked for, and that it is to be
/// asked for exactly where there is one; and what is loaded is the same key,
/// which is written out as the same bytes.
pub proof fn law_saved_key_loads(
    name: Seq<char>,
    sk: KeyView,
    raw: Seq<u8>,
    body: Seq<u8>,
    sealed: Option<SealedView>,
    pass: Seq<char>,
    text: Seq<char>,
    given: Seq<char>,
)
    requires
        holds_private(sk, raw, body, sealed, pass),
        loads_as(text, name, sk, body, sealed is Some),
    ensures
        loaded_file(text, given) matches LoadedFile::File(file) && file.name == name
            && file.protected == (sealed is Some) && (private_in(
            file.algo,
            file.body,
            sealed,
            pass,
        ) matches Ok(again) && same_key(sk, KeyView { algo: file.algo, bytes: again })
            && private_written(KeyView { algo: file.algo, bytes: again }) == Ok::<_, Seq<char>>(
            raw,
        )),
{
    let file = loaded_file(text, given);
    assert(file is File);
}

/// A private key that was saved under a passphrase is not loaded under another,
/// nor once its file was altered: wherever the key that comes out of the
/// passphrase, the nonce or the data is another than it was sealed with, as long
/// as nothing is forged.
pub proof fn law_another_passphrase_loads_nothing(
    algo: KeyAlgo,
    body: Seq<u8>,
    pass: Seq<char>,
    raw: Seq<u8>,
    salt: Seq<u8>,
    nonce: Seq<u8>,
    other: Seq<char>,
    s: SealedView,
)
    requires
        another_seal(pass, raw, salt, nonce, other, s),
    ensures
        private_in(algo, body, Some(s), other) == Err::<Seq<u8>, _>(
            Refusal::Is(Fault::WrongPassphrase),
        ),
{
    law_altered_secret_is_refused(pass, raw, salt, nonce, other, s);
}

/// What the body of a private key file is made of.
pub enum KeyBody {
    /// The key itself.
    Plain(Vec<u8>),
    /// The key, sealed under a passphrase.
    Sealed(SealedSecret),
}

/// The body of the file of a private key, sealed where there is a passphrase.
/// Under the same passphrase the key comes out again.
pub fn key_body(sk: &PrivateKey, passphrase: Option<&str>) -> (res: Result<KeyBody, Fault>)
    ensures
        match private_written(sk@) {
            Err(t) => res matches Err(Fault::UnwritableKey(said)) && said@ == t,
            Ok(raw) => match passphrase {
                None => res matches Ok(KeyBody::Plain(b)) && b@ == raw && forall|pass: Seq<char>|
                    #[trigger] holds_private(sk@, raw, b@, None, pass),
                Some(p) => if sealable(p@, raw) {
                    res matches Ok(KeyBody::Sealed(s)) && is_sealed(s@, p@, raw) && forall|
                        body: Seq<u8>,
                    | #[trigger]
                        holds_private(sk@, raw, body, Some(s@), p@)
                } else {
                    res matches Err(e) && unsealed_for(e, p@, raw)
                },
            },
        },
{
    let mut raw = match sk.to_bytes() {
        Ok(r) => r,
        Err(e) => {
            return Err(e);
        },
    };
    match passphrase {
        None => Ok(KeyBody::Plain(raw)),
        Some(pass) => {
            let sealed = seal_secret(pass, &raw);
            wipe_bytes(&mut raw);
            match sealed {
                Ok(s) => Ok(KeyBody::Sealed(s)),
                Err(e) => Err(e),
            }
        },
    }
}

/// Writes a private key file around its body. A clean name, the type, the body
/// and whether it is sealed are read from it again.
pub fn private_file(name: &str, sk: &PrivateKey, body: &[u8], protected: bool) -> (res: Result<
    String,
    Fault,
>)
    ensures
        match res {
            Ok(text) => writable(body@.len()) && text@ == rendered(
                private_armor(name@, sk@, body@, protected),
            ),
            Err(e) => !writable(body@.len()) && e is KeyTooLong,
        },
        res matches Ok(text) ==> (clean_field(("name"@, name@)) ==> parsed(text@) == Ok::<
            _,
            Refusal,
        >(private_armor(name@, sk@, body@, protected))),
        res matches Ok(text) ==> (clean_field(("name"@, name@)) ==> loads_as(
            text@,
            name@,
            sk@,
            body@,
            protected,
        )),
{
    if body.len() > isize::MAX as usize / 2 {
        return Err(Fault::KeyTooLong);
    }
    let fp = match sk.public().fingerprint() {
        Ok(fp) => fp,
        Err(e) => {
            return Err(e);
        },
    };
    let mut armor = Armor::new("PRIVATE", body);
    armor.set("name", name);
    armor.set("algorithm", sk.algo().tag());
    armor.set("fingerprint", fp.as_str());
    armor.set(
        "protection",
        if protected {
            "argon2id"
        } else {
            "none"
        },
    );
    proof {
        assert(armor@.headers =~= private_armor(name@, sk@, body@, protected).headers);
        lemma_private_armor(name@, sk@, body@, protected);
    }
    Ok(armor.render())
}

/// The fields of a private key file are clean where its name is, and are found.
proof fn lemma_private_armor(name: Seq<char>, sk: KeyView, body: Seq<u8>, protected: bool)
    ensures
        ({
            let a = private_armor(name, sk, body, protected);
            &&& clean_field(("name"@, name)) ==> clean(a)
            &&& field_of(a.headers, "name"@) == Some(name)
            &&& field_of(a.headers, "algorithm"@) == Some(algo_tag(sk.algo))
            &&& says_protected(a) == protected
        }),
        algo_named(algo_tag(sk.algo)) == Some(sk.algo),
{
    crate::keys::law_tag_parses(sk.algo);
    lemma_field_names();
    lemma_kinds("PRIVATE"@);
    lemma_tags(sk.algo);
    lemma_words();
    lemma_hex_plain(
        sha256_of(
            vstd::utf8::encode_utf8(algo_tag(sk.algo)) + seq![0u8] + public_of(sk).bytes,
        ).take(8),
    );
    let a = private_armor(name, sk, body, protected);
    let hs = a.headers;
    assert(hs.skip(1)[0] == hs[1]);
    assert(hs.skip(1).skip(1)[0] == hs[2]);
    assert(hs.skip(1).skip(1).skip(1)[0] == hs[3]);
    reveal_with_fuel(field_of, 5);
    assert("none"@.len() == 4 && "argon2id"@.len() == 8);
    assert(no_space("none"@) && no_space("argon2id"@));
    if clean_field(("name"@, name)) {
        assert forall|i: int| 0 <= i < hs.len() implies clean_field(#[trigger] hs[i]) by {
            if i == 1 {
                assert(clean_field(("algorithm"@, algo_tag(sk.algo))));
            } else if i == 2 {
                assert(clean_field(("fingerprint"@, fingerprint_of(public_of(sk)))));
            } else if i == 3 {
                assert(clean_field(("protection"@, hs[3].1)));
            }
        }
    }
}

// ----------------------------------------------------------------- listing

/// A key pair in the key store.
#[derive(Debug)]
pub struct KeyEntry {
    pub name: String,
    pub algo: KeyAlgo,
    pub fingerprint: String,
    pub protected: bool,
    pub has_private: bool,
}

/// The name of the key pair that a file belongs to, if it is a public key file.
/// `extension` and `stem` are the two parts of the file's name, as far as they
/// are text.
pub fn key_name(extension: Option<&str>, stem: Option<&str>) -> (res: Option<String>)
    ensures
        res is Some <==> (extension matches Some(e) && e@ == "pub"@),
        res matches Some(name) ==> name@ == match stem {
            Some(s) => s@,
            None => Seq::empty(),
        },
{
    match extension {
        Some(e) => if same_text(e, "pub") {
            match stem {
                Some(s) => Some(s.to_string()),
                None => Some(String::new()),
            }
        } else {
            None
        },
        None => None,
    }
}

/// What was found of one key pair: its name, the text of its public key file,
/// the text of its private key file where that could be read, and whether that
/// file is there.
pub struct FoundKey {
    pub name: String,
    pub public: String,
    pub private: Option<String>,
    pub has_private: bool,
}

/// Whether an entry says what was found.
pub open spec fn is_entry(found: FoundKey, entry: KeyEntry) -> bool {
    &&& parsed(found.public@) matches Ok(a) && algo_named(named_type(a)) == Some(entry.algo)
        && entry.fingerprint@ == match field_of(a.headers, "fingerprint"@) {
        Some(fp) => fp,
        None => Seq::empty(),
    }
    &&& match found.private {
        Some(text) => parsed(text@) matches Ok(b) && entry.protected == says_protected(b),
        None => !entry.protected,
    }
    &&& entry.name@ == found.name@
    &&& entry.has_private == found.has_private
}

/// Whether what was found makes an entry.
pub open spec fn makes_entry(found: FoundKey) -> bool {
    &&& parsed(found.public@) matches Ok(a) && algo_named(named_type(a)) is Some
    &&& found.private matches Some(text) ==> parsed(text@) is Ok
}

/// Whether what was found is refused for this reason.
pub open spec fn entry_fault(found: FoundKey, f: Fault) -> bool {
    match parsed(found.public@) {
        Err(e) => f.is_for(e),
        Ok(a) => match found.private {
            Some(text) if parsed(text@) is Err => f.is_for(parsed(text@)->Err_0),
            _ => algo_named(named_type(a)) is None && (f matches Fault::UnknownKeyType(t) && t@
                == named_type(a)),
        },
    }
}

/// The entry of what was found.
pub fn entry(found: FoundKey) -> (res: Result<KeyEntry, Fault>)
    ensures
        res is Ok <==> makes_entry(found),
        match res {
            Ok(e) => is_entry(found, e),
            Err(f) => entry_fault(found, f),
        },
{
    let armor = match Armor::parse(found.public.as_str()) {
        Ok(a) => a,
        Err(e) => {
            return Err(e);
        },
    };
    let protected = match &found.private {
        Some(text) => match Armor::parse(text.as_str()) {
            Ok(b) => match b.field("protection") {
                Some(p) => !same_text(p, "none"),
                None => true,
            },
            Err(e) => {
                return Err(e);
            },
        },
        None => false,
    };
    proof {
        reveal_strlit("");
        assert(""@ =~= Seq::empty());
    }
    let algo = match KeyAlgo::parse(field_or(&armor, "algorithm", "")) {
        Ok(a) => a,
        Err(e) => {
            return Err(e);
        },
    };
    let fingerprint = field_or(&armor, "fingerprint", "").to_string();
    Ok(
        KeyEntry {
            name: found.name,
            algo,
            fingerprint,
            protected,
            has_private: found.has_private,
        },
    )
}

/// The bytes of an entry's name, by which entries are ordered.
pub open spec fn name_bytes(e: KeyEntry) -> Seq<u8> {
    vstd::utf8::encode_utf8(e.name@)
}

/// Whether one entry's name comes before another's or is the same.
pub open spec fn named_before(a: KeyEntry, b: KeyEntry) -> bool {
    before(name_bytes(a), name_bytes(b))
}

/// How many entries at the beginning do not come after `e`.
pub open spec fn place(list: Seq<KeyEntry>, e: KeyEntry) -> int
    decreases list.len(),
{
    if list.len() == 0 || !named_before(list[0], e) {
        0
    } else {
        1 + place(list.skip(1), e)
    }
}

/// The entries in the order of their names; those of the same name stay in the
/// order in which they came.
pub open spec fn sorted(list: Seq<KeyEntry>) -> Seq<KeyEntry>
    decreases list.len(),
{
    if list.len() == 0 {
        Seq::empty()
    } else {
        let rest = sorted(list.drop_last());
        rest.insert(place(rest, list.last()), list.last())
    }
}

/// `place` is within the list, and is where the names stop being before.
proof fn lemma_place(list: Seq<KeyEntry>, e: KeyEntry)
    ensures
        0 <= place(list, e) <= list.len(),
        forall|j: int| 0 <= j < place(list, e) ==> named_before(#[trigger] list[j], e),
        place(list, e) < list.len() ==> !named_before(list[place(list, e)], e),
    decreases list.len(),
{
    if list.len() > 0 && named_before(list[0], e) {
        let rest = list.skip(1);
        lemma_place(rest, e);
        assert forall|j: int| 0 <= j < place(list, e) implies named_before(#[trigger] list[j], e) by {
            if j > 0 {
                assert(rest[j - 1] == list[j]);
            }
        }
    }
}

/// The list of the key store is in the order of the names, and holds what was
/// found and nothing else.
pub proof fn law_sorted(list: Seq<KeyEntry>)
    ensures
        sorted(list).len() == list.len(),
        sorted(list).to_multiset() == list.to_multiset(),
        forall|i: int, j: int|
            0 <= i < j < list.len() ==> named_before(#[trigger] sorted(list)[i], #[trigger] sorted(
                list,
            )[j]),
    decreases list.len(),
{
    broadcast use vstd::seq_lib::group_to_multiset_ensures;

    if list.len() > 0 {
        let head = list.drop_last();
        let e = list.last();
        let rest = sorted(head);
        let at = place(rest, e);
        law_sorted(head);
        lemma_place(rest, e);
        let all = sorted(list);
        assert(list =~= head.push(e));
        assert forall|i: int, j: int| 0 <= i < j < all.len() implies named_before(
            #[trigger] all[i],
            #[trigger] all[j],
        ) by {
            if j < at {
                assert(all[i] == rest[i] && all[j] == rest[j]);
            } else if i > at {
                assert(all[i] == rest[i - 1] && all[j] == rest[j - 1]);
            } else if i == at {
                assert(all[j] == rest[j - 1]);
                let f = rest[at];
                lemma_before_total(name_bytes(f), name_bytes(e));
                assert(named_before(e, f));
                if j - 1 > at {
                    assert(named_before(rest[at], rest[j - 1]));
                    lemma_before_transitive(
                        name_bytes(e),
                        name_bytes(f),
                        name_bytes(rest[j - 1]),
                    );
                }
            } else {
                assert(all[i] == rest[i]);
                if j > at {
                    assert(all[j] == rest[j - 1]);
                    if i < j - 1 {
                        assert(named_before(rest[i], rest[j - 1]));
                    }
                }
            }
        }
    }
}

/// The names in the list of the key store are in the order of their whole bytes:
/// of two entries the first has a name that is a beginning of the second's, or that
/// has the smaller byte at the first place where the two differ. Entries of the
/// same name are in the order in which they were found.
pub proof fn law_listed_in_the_order_of_names(list: Seq<KeyEntry>, i: int, j: int)
    requires
        0 <= i < j < list.len(),
    ensures
        ({
            let a = vstd::utf8::encode_utf8(sorted(list)[i].name@);
            let b = vstd::utf8::encode_utf8(sorted(list)[j].name@);
            ||| a.len() <= b.len() && forall|k: int| 0 <= k < a.len() ==> a[k] == b[k]
            ||| exists|k: int|
                0 <= k < a.len() && k < b.len() && #[trigger] a[k] < b[k] && forall|m: int|
                    0 <= m < k ==> a[m] == b[m]
        }),
{
    law_sorted(list);
    let a = vstd::utf8::encode_utf8(sorted(list)[i].name@);
    let b = vstd::utf8::encode_utf8(sorted(list)[j].name@);
    assert(named_before(sorted(list)[i], sorted(list)[j]));
    crate::text::law_before_is_lexicographic(a, b);
}

/// Where the entries come from that stand in the list: `from[i]` is the place at
/// which the entry was found that stands at place `i`.
pub open spec fn comes_from(list: Seq<KeyEntry>, from: Seq<int>) -> bool {
    &&& from.len() == list.len()
    &&& forall|i: int| 0 <= i < from.len() ==> 0 <= #[trigger] from[i] < list.len()
    &&& forall|i: int| 0 <= i < from.len() ==> sorted(list)[i] == list[#[trigger] from[i]]
    &&& forall|i: int, j: int|
        0 <= i < j < from.len() ==> #[trigger] from[i] != #[trigger] from[j]
    &&& forall|i: int, j: int|
        0 <= i < j < from.len() && sorted(list)[i].name@ == sorted(list)[j].name@
            ==> #[trigger] from[i] < #[trigger] from[j]
}

/// Every entry that was found stands in the list exactly once, and those of the
/// same name stay in the order in which they were found.
pub proof fn law_list_is_stable(list: Seq<KeyEntry>) -> (from: Seq<int>)
    ensures
        comes_from(list, from),
    decreases list.len(),
{
    if list.len() == 0 {
        Seq::empty()
    } else {
        let head = list.drop_last();
        let e = list.last();
        let rest = sorted(head);
        let at = place(rest, e);
        let old = law_list_is_stable(head);
        law_sorted(head);
        law_sorted(list);
        lemma_place(rest, e);
        let from = old.insert(at, list.len() - 1);
        let all = sorted(list);
        assert forall|i: int| 0 <= i < from.len() implies 0 <= #[trigger] from[i] < list.len()
            && all[i] == list[from[i]] by {
            if i < at {
                assert(from[i] == old[i] && all[i] == rest[i]);
                assert(list[old[i]] == head[old[i]]);
            } else if i > at {
                assert(from[i] == old[i - 1] && all[i] == rest[i - 1]);
                assert(list[old[i - 1]] == head[old[i - 1]]);
            }
        }
        assert forall|i: int, j: int| 0 <= i < j < from.len() implies #[trigger] from[i]
            != #[trigger] from[j] by {
            let x = if i < at {
                i
            } else {
                i - 1
            };
            let y = if j < at {
                j
            } else {
                j - 1
            };
            if i != at {
                assert(from[i] == old[x] && 0 <= old[x] < head.len());
            }
            if j != at {
                assert(from[j] == old[y] && 0 <= old[y] < head.len());
            }
            if i != at && j != at {
                assert(old[x] != old[y]);
            }
        }
        assert forall|i: int, j: int|
            0 <= i < j < from.len() && all[i].name@ == all[j].name@ implies #[trigger] from[i]
            < #[trigger] from[j] by {
            if i == at {
                // the new entry comes behind all of its name
                assert(all[j] == rest[j - 1]);
                assert(!named_before(rest[at], e));
                if j - 1 > at {
                    assert(named_before(rest[at], rest[j - 1]));
                }
                assert(false);
            } else if j == at {
                let x = i;
                assert(from[i] == old[x]);
            } else {
                let x = if i < at {
                    i
                } else {
                    i - 1
                };
                let y = if j < at {
                    j
                } else {
                    j - 1
                };
                assert(all[i] == rest[x] && all[j] == rest[y]);
                assert(from[i] == old[x] && from[j] == old[y]);
            }
        }
        from
    }
}

/// Lists the key store: one entry for each key pair that was found, in the order
/// of their names.
pub fn list(found: Vec<FoundKey>) -> (res: Result<Vec<KeyEntry>, Fault>)
    ensures
        match res {
            Ok(entries) => exists|raw: Seq<KeyEntry>|
                raw.len() == found@.len() && entries@ == #[trigger] sorted(raw) && forall|i: int|
                    0 <= i < raw.len() ==> is_entry(found@[i], #[trigger] raw[i]) && raw[i].name@
                        == found@[i].name@ && raw[i].has_private == found@[i].has_private,
            Err(f) => exists|i: int|
                0 <= i < found@.len() && !makes_entry(found@[i]) && entry_fault(
                    #[trigger] found@[i],
                    f,
                ) && forall|j: int| 0 <= j < i ==> makes_entry(#[trigger] found@[j]),
        },
{
    let ghost all = found@;
    let mut queue = found;
    let mut out: Vec<KeyEntry> = Vec::new();
    let ghost mut raw: Seq<KeyEntry> = Seq::empty();
    while queue.len() > 0
        invariant
            all == found@,
            raw.len() + queue@.len() == all.len(),
            queue@ == all.skip(raw.len() as int),
            out@ == sorted(raw),
            forall|i: int| 0 <= i < raw.len() ==> is_entry(all[i], #[trigger] raw[i]),
            forall|i: int| 0 <= i < raw.len() ==> makes_entry(#[trigger] found@[i]),
        decreases queue@.len(),
    {
        let ghost n: int = raw.len() as int;
        let ghost here = queue@[0];
        let one = queue.remove(0);
        assert(here == all[n]);
        assert(queue@ =~= all.skip(n + 1));
        match entry(one) {
            Ok(e) => {
                proof {
                    let so_far = raw;
                    raw = raw.push(e);
                    assert(raw.drop_last() =~= so_far);
                    lemma_place(sorted(raw.drop_last()), e);
                }
                let mut at: usize = 0;
                let ghost before_it = out@;
                assert(out@.skip(0) =~= out@);
                while at < out.len() && bytes_before(
                    out[at].name.as_str().as_bytes(),
                    e.name.as_str().as_bytes(),
                )
                    invariant
                        at <= out@.len(),
                        out@ == before_it,
                        place(before_it, e) == at + place(before_it.skip(at as int), e),
                    decreases out@.len() - at,
                {
                    assert(before_it.skip(at as int).skip(1) =~= before_it.skip(at + 1));
                    at += 1;
                }
                out.insert(at, e);
            },
            Err(f) => {
                assert(entry_fault(found@[n], f));
                return Err(f);
            },
        }
    }
    Ok(out)
}

/// Whether an entry has this fingerprint and a private key.
pub open spec fn matches_key(e: KeyEntry, fp: Seq<char>) -> bool {
    e.fingerprint@ == fp && e.has_private
}

/// Picks the stored key that matches a container's fingerprint: the first that
/// has it and a private key.
pub fn find_by_fingerprint<'a>(entries: &'a [KeyEntry], fp: &str) -> (res: Option<&'a KeyEntry>)
    ensures
        match res {
            Some(e) => exists|i: int|
                0 <= i < entries@.len() && *e == #[trigger] entries@[i] && matches_key(*e, fp@)
                    && forall|j: int| 0 <= j < i ==> !matches_key(#[trigger] entries@[j], fp@),
            None => forall|i: int|
                0 <= i < entries@.len() ==> !matches_key(#[trigger] entries@[i], fp@),
        },
        res is None <==> forall|i: int|
            0 <= i < entries@.len() ==> !((#[trigger] entries@[i]).fingerprint@ == fp@
                && entries@[i].has_private),
        res matches Some(e) ==> e.fingerprint@ == fp@ && e.has_private,
{
    let mut i: usize = 0;
    while i < entries.len()
        invariant
            i <= entries@.len(),
            forall|j: int| 0 <= j < i ==> !matches_key(#[trigger] entries@[j], fp@),
        decreases entries@.len() - i,
    {
        if same_text(entries[i].fingerprint.as_str(), fp) && entries[i].has_private {
            return Some(&entries[i]);
        }
        i += 1;
    }
    None
}

/// An entry is the one that a container needs wherever it has the container's
/// fingerprint and a private key, whatever else is said of it: two entries that
/// agree in these are both it, or neither is.
pub proof fn law_key_is_found_by_its_fingerprint(a: KeyEntry, b: KeyEntry, fp: Seq<char>)
    ensures
        matches_key(a, fp) <==> a.fingerprint@ == fp && a.has_private,
        a.fingerprint@ == b.fingerprint@ && a.has_private == b.has_private ==> matches_key(a, fp)
            == matches_key(b, fp),
{
}

// ---------------------------------------------------------------- choosing

/// Refuses a public key of another type than the one that was asked for.
pub fn check_algo(name: &str, has: KeyAlgo, wants: KeyAlgo) -> (res: Result<(), Fault>)
    ensures
        match res {
            Ok(_) => has == wants,
            Err(e) => has != wants && (e matches Fault::OtherKeyType(n, h, w) && n@ == name@ && h
                == has && w == wants),
        },
{
    if has != wants {
        return Err(Fault::OtherKeyType(name.to_string(), has, wants));
    }
    Ok(())
}

/// The key pairs of a type, in the order of the list.
pub fn matching(entries: Vec<KeyEntry>, algo: KeyAlgo) -> (res: Vec<KeyEntry>)
    ensures
        res@ == entries@.filter(|e: KeyEntry| e.algo == algo),
        forall|i: int| 0 <= i < res@.len() ==> (#[trigger] res@[i]).algo == algo,
        forall|i: int|
            0 <= i < entries@.len() && (#[trigger] entries@[i]).algo == algo ==> res@.contains(
                entries@[i],
            ),
        forall|i: int| 0 <= i < res@.len() ==> entries@.contains(#[trigger] res@[i]),
{
    let ghost all = entries@;
    let ghost fits = |e: KeyEntry| e.algo == algo;
    let mut queue = entries;
    let mut res: Vec<KeyEntry> = Vec::new();
    let ghost mut n: int = 0;
    proof {
        assert(all.skip(0) =~= all);
        reveal(Seq::filter);
        assert(all.take(0).filter(fits) =~= Seq::empty());
    }
    while queue.len() > 0
        invariant
            all == entries@,
            fits == (|e: KeyEntry| e.algo == algo),
            0 <= n <= all.len(),
            queue@ == all.skip(n),
            res@ == all.take(n).filter(fits),
        decreases queue@.len(),
    {
        let e = queue.remove(0);
        proof {
            assert(e == all[n]);
            assert(queue@ =~= all.skip(n + 1));
            assert(all.take(n + 1).drop_last() =~= all.take(n));
            reveal(Seq::filter);
        }
        if e.algo == algo {
            res.push(e);
        }
        proof {
            n = n + 1;
        }
    }
    assert(all.take(n) =~= all);
    proof {
        assert forall|i: int| 0 <= i < res@.len() implies (#[trigger] res@[i]).algo == algo
            && entries@.contains(res@[i]) by {
            all.lemma_filter_pred(fits, i);
            all.lemma_filter_contains_rev(fits, res@[i]);
        }
        assert forall|i: int|
            0 <= i < entries@.len() && (#[trigger] entries@[i]).algo == algo implies res@.contains(
            entries@[i],
        ) by {
            all.lemma_filter_contains(fits, i);
        }
    }
    res
}

/// How to come by a public key to encrypt for.
#[derive(Clone, Copy, Debug, PartialEq, Eq, Structural)]
pub enum PickStep {
    /// Load the key that was asked for.
    Load,
    /// There is none yet: offer to make one.
    Offer,
    /// Let one be chosen.
    Choose,
}

/// Decides how to come by a public key. `asked` says whether one was asked for,
/// and `matching` how many of the wanted type there are.
pub fn pick_public_key(asked: bool, matching: usize) -> (step: PickStep)
    ensures
        step == if asked {
            PickStep::Load
        } else if matching == 0 {
            PickStep::Offer
        } else {
            PickStep::Choose
        },
{
    if asked {
        PickStep::Load
    } else if matching == 0 {
        PickStep::Offer
    } else {
        PickStep::Choose
    }
}

/// What is asked where there is no key pair of a type.
pub fn offer_prompt(algo: KeyAlgo) -> (s: String)
    ensures
        s@ == "No "@ + crate::keys::algo_label(algo) + " key pair yet. Create one now?"@,
{
    let mut s = "No ".to_string();
    s.append(algo.label());
    s.append(" key pair yet. Create one now?");
    s
}

/// Goes on only where a key pair is to be made.
pub fn check_offer(accepted: bool) -> (res: Result<(), Fault>)
    ensures
        match res {
            Ok(_) => accepted,
            Err(e) => !accepted && e is NoKeyPair,
        },
{
    if !accepted {
        return Err(Fault::NoKeyPair);
    }
    Ok(())
}

// --------------------------------------------------------------------- laws

/// A key pair can go by every name that is not empty, does not begin with a dot and
/// holds no slash, and by no other. Such a name is the name of a file, and stays in
/// its directory.
pub proof fn law_usable_names_are_file_names(name: Seq<char>, ext: Seq<char>)
    requires
        !ext.contains('/'),
    ensures
        usable_name(name) <==> name.len() > 0 && name[0] != '.' && !name.contains('/'),
        usable_name(name) ==> crate::names::file_name_of(name + "."@ + ext) == Some(
            name + "."@ + ext,
        ),
{
    if usable_name(name) {
        reveal_strlit(".");
        let file = name + "."@ + ext;
        assert(file[0] == name[0]);
        assert(!file.contains('/')) by {
            if file.contains('/') {
                let j = choose|j: int| 0 <= j < file.len() && file[j] == '/';
                if j < name.len() {
                    assert(name[j] == '/');
                } else if j > name.len() {
                    assert(ext[j - name.len() - 1] == '/');
                } else {
                    assert("."@[0] == '.');
                }
            }
        }
        assert(seq!['.'][0] == '.' && seq!['.', '.'][0] == '.');
        crate::names::law_plain_name_is_kept(file);
    }
}

/// A private key counts as protected unless its file says plainly that it is not.
pub proof fn law_protected_unless_said_otherwise(a: ArmorView)
    ensures
        !says_protected(a) <==> field_of(a.headers, "protection"@) == Some("none"@),
        field_of(a.headers, "protection"@) is None ==> says_protected(a),
{
}

/// What the files of a key pair say: its name, the tag of its type, its
/// fingerprint and, of the private key, whether it is protected. The public file
/// says nothing of protection, and both say the same of the pair.
pub proof fn law_what_key_files_say(
    name: Seq<char>,
    pk: PublicView,
    sk: KeyView,
    body: Seq<u8>,
    protected: bool,
)
    requires
        pk == public_of(sk),
    ensures
        ({
            let a = public_armor(name, pk);
            let b = private_armor(name, sk, body, protected);
            &&& a.kind == "PUBLIC"@ && b.kind == "PRIVATE"@
            &&& a.body == pk.bytes && b.body == body
            &&& field_of(a.headers, "name"@) == Some(name) && field_of(b.headers, "name"@) == Some(
                name,
            )
            &&& field_of(a.headers, "algorithm"@) == Some(algo_tag(sk.algo)) && field_of(
                b.headers,
                "algorithm"@,
            ) == Some(algo_tag(sk.algo))
            &&& field_of(a.headers, "fingerprint"@) == Some(fingerprint_of(pk)) && field_of(
                b.headers,
                "fingerprint"@,
            ) == Some(fingerprint_of(pk))
            &&& field_of(a.headers, "protection"@) is None
            &&& field_of(b.headers, "protection"@) == Some(
                if protected {
                    "argon2id"@
                } else {
                    "none"@
                },
            )
            &&& a.headers.len() == 3 && b.headers.len() == 4
        }),
{
    lemma_field_names();
    lemma_words();
    crate::keys::law_public_part_of_a_key(sk);
    assert("name"@.len() == 4 && "algorithm"@.len() == 9 && "fingerprint"@.len() == 11
        && "protection"@.len() == 10);
    let a = public_armor(name, pk).headers;
    let b = private_armor(name, sk, body, protected).headers;
    reveal_with_fuel(field_of, 5);
    assert(a.skip(1)[0] == a[1]);
    assert(a.skip(1).skip(1)[0] == a[2]);
    assert(a.skip(1).skip(1).skip(1).len() == 0);
    assert(b.skip(1)[0] == b[1]);
    assert(b.skip(1).skip(1)[0] == b[2]);
    assert(b.skip(1).skip(1).skip(1)[0] == b[3]);
}

/// A key pair that was saved is listed as what it is, and is found for every
/// container that was encrypted for it: its entry shows the name of its file, its
/// type, its fingerprint, and whether its private key is there and protected; and
/// the container's fingerprint leads to it wherever its private key is there.
pub proof fn law_saved_pair_is_listed_and_found(
    name: Seq<char>,
    pk: PublicView,
    sk: KeyView,
    body: Seq<u8>,
    protected: bool,
    found: FoundKey,
    e: KeyEntry,
    r: crate::format::Recipient,
)
    requires
        pk == public_of(sk),
        parsed(found.public@) == Ok::<_, Refusal>(public_armor(name, pk)),
        found.private matches Some(text) ==> parsed(text@) == Ok::<_, Refusal>(
            private_armor(name, sk, body, protected),
        ),
    ensures
        makes_entry(found),
        is_entry(found, e) ==> {
            &&& e.name@ == found.name@
            &&& e.algo == sk.algo
            &&& e.fingerprint@ == fingerprint_of(pk)
            &&& e.has_private == found.has_private
            &&& e.protected <==> found.private is Some && protected
        },
        is_entry(found, e) && crate::format::recipient_fingerprint(r) == Some(fingerprint_of(pk))
            ==> (matches_key(e, crate::format::recipient_fingerprint(r)->0)
            <==> found.has_private),
{
    law_what_key_files_say(name, pk, sk, body, protected);
    crate::keys::law_tag_parses(sk.algo);
    lemma_words();
    assert("none"@.len() == 4 && "argon2id"@.len() == 8);
}

/// What is read from a public key file: the name that stands there, or else what
/// was asked for; and the key of the type that stands there, out of its body. A file
/// without a type, or with one that there is not, is refused for that.
pub proof fn law_what_a_public_key_file_gives(
    text: Seq<char>,
    given: Seq<char>,
    name: Seq<char>,
    key: PublicView,
)
    ensures
        loaded_public(text, given) == LoadedPublic::Key(name, key) <==> (parsed(text) matches Ok(a)
            && (field_of(a.headers, "algorithm"@) matches Some(tag) && algo_named(tag) == Some(
            key.algo,
        ) && public_from(key.algo, a.body) == Ok::<_, Refusal>(key.bytes)) && key.hash is None
            && name == match field_of(a.headers, "name"@) {
            Some(n) => n,
            None => given,
        }),
        parsed(text) matches Err(f) ==> loaded_public(text, given) == LoadedPublic::Refused(f),
        parsed(text) matches Ok(a) ==> (field_of(a.headers, "algorithm"@) is None ==> loaded_public(
            text,
            given,
        ) == LoadedPublic::UnknownType(Seq::empty())),
{
    lemma_type_of_nothing();
}

/// What is read from a private key file, likewise; its body is handed on as it is.
pub proof fn law_what_a_private_key_file_gives(
    text: Seq<char>,
    given: Seq<char>,
    file: KeyFileView,
)
    ensures
        loaded_file(text, given) == LoadedFile::File(file) <==> (parsed(text) matches Ok(a) && (
        field_of(a.headers, "algorithm"@) matches Some(tag) && algo_named(tag) == Some(file.algo))
            && file.body == a.body && file.protected == (field_of(a.headers, "protection"@) != Some(
            "none"@,
        )) && file.name == match field_of(a.headers, "name"@) {
            Some(n) => n,
            None => given,
        }),
        parsed(text) matches Err(f) ==> loaded_file(text, given) == LoadedFile::Refused(f),
        parsed(text) matches Ok(a) ==> (field_of(a.headers, "algorithm"@) is None ==> loaded_file(
            text,
            given,
        ) == LoadedFile::UnknownType(Seq::empty())),
{
    lemma_type_of_nothing();
}

/// No type goes by no name.
proof fn lemma_type_of_nothing()
    ensures
        algo_named(Seq::empty()) is None,
{
    reveal_strlit("rsa-4096");
    reveal_strlit("rsa");
    reveal_strlit("x25519");
    reveal_strlit("ecc");
    reveal_strlit("ml-kem-768");
    reveal_strlit("mlkem");
    reveal_strlit("ml-kem");
    assert("rsa-4096"@.len() == 8 && "rsa"@.len() == 3 && "x25519"@.len() == 6 && "ecc"@.len() == 3);
    assert("ml-kem-768"@.len() == 10 && "mlkem"@.len() == 5 && "ml-kem"@.len() == 6);
    assert(Seq::<char>::empty().len() == 0);
}

/// A private key is the one that the body of its file stands for, or what comes out
/// of the sealed body under the passphrase does; what does not come out, or stands
/// for no key, is refused for its own reason.
pub proof fn law_what_a_private_key_is_read_from(
    algo: KeyAlgo,
    body: Seq<u8>,
    s: SealedView,
    pass: Seq<char>,
    raw: Seq<u8>,
)
    ensures
        private_in(algo, body, None, pass) == private_from(algo, body),
        secret_of(pass, s) == Ok::<_, Refusal>(raw) ==> private_in(algo, body, Some(s), pass)
            == private_from(algo, raw),
        secret_of(pass, s) matches Err(f) ==> private_in(algo, body, Some(s), pass) == Err::<
            Seq<u8>,
            _,
        >(f),
{
}

/// Which key pairs can be listed: those whose public key file can be read and is of
/// a type that there is, and whose private key file can be read where it is at hand.
/// What cannot be listed is refused for a reason that holds of it.
pub proof fn law_which_key_pairs_are_listed(found: FoundKey, f: Fault)
    ensures
        makes_entry(found) <==> (parsed(found.public@) matches Ok(a) && (field_of(
            a.headers,
            "algorithm"@,
        ) matches Some(tag) && algo_named(tag) is Some)) && (found.private matches Some(text)
            ==> parsed(text@) is Ok),
        parsed(found.public@) matches Err(e) ==> (entry_fault(found, f) <==> f.is_for(e)),
        !makes_entry(found) && parsed(found.public@) is Ok && found.private is None ==> (
        entry_fault(found, f) ==> f is UnknownKeyType),
{
    lemma_type_of_nothing();
}

/// A key is too long to be written only where its text could not be addressed: no
/// key that fits into half of the memory that there can be is refused.
pub proof fn law_every_key_can_be_written(len: nat)
    ensures
        writable(len) <==> 2 * len <= isize::MAX,
        len <= 0x3FFF_FFFF ==> writable(len),
{
}

} // verus!
