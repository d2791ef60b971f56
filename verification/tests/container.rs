use base64::Engine;
use cryptosec::check::{FirstPart, Found, TreeCheck};
use cryptosec::cli::Scheme;
use cryptosec::commands::note_text;
use cryptosec::fault::Fault;
use cryptosec::format::{
    check_meta, looks_encrypted, preamble, read_header, read_manifest, Cipher, Kind, Manifest, Meta,
    Recipient, HEADER_MAX, SEALED_CHUNK,
};
use cryptosec::kdf::random_bytes;
use cryptosec::keys::{generate, KeyAlgo, PrivateKey, PublicKey};
use cryptosec::names::ensure_free;
use cryptosec::ops::{
    begin_container, decrypt, encrypt, open_container, verify_key, verify_manifest, DecryptAction,
    DecryptEvent, DecryptState, EncryptAction, EncryptEvent, EncryptState, Note, Options,
};
use cryptosec::recipient::{
    key_for, key_recipient, new_meta, password_recipient, unwrap_key, unwrap_password,
};
use cryptosec::stream::DecReader;
use rsa::pkcs8::EncodePrivateKey;

const PASS: &str = "correct horse battery staple";

/// The header and the manifest as they would be written out. What they look like
/// does not matter to the container.
const HEADER: &[u8] = b"{\"version\":1}";
const MANIFEST: &[u8] = b"{\"name\":\"a.bin\",\"kind\":\"file\"}";

fn bytes(len: usize) -> Vec<u8> {
    (0..len).map(|i| (i * 31 + 7) as u8).collect()
}

fn seal(meta: &Meta, dek: &[u8; 32], data: &[u8]) -> Vec<u8> {
    let (mut raw, mut w) = begin_container(meta, HEADER, dek, MANIFEST).unwrap();
    for part in data.chunks(100_000) {
        raw.extend_from_slice(&w.write(part).unwrap());
    }
    raw.extend_from_slice(&w.finish().unwrap());
    raw
}

fn drain(r: &mut DecReader, rest: &mut &[u8], want: usize) -> Result<Vec<u8>, Fault> {
    let mut out = Vec::new();
    let mut buf = vec![0u8; 70_000];
    while out.len() < want {
        if r.wants_chunk() {
            let n = rest.len().min(SEALED_CHUNK);
            r.fill(&rest[..n], 0)?;
            *rest = &rest[n..];
            continue;
        }
        let room = buf.len().min(want - out.len());
        let n = r.read(&mut buf[..room]);
        if n == 0 {
            break;
        }
        out.extend_from_slice(&buf[..n]);
    }
    Ok(out)
}

fn unseal(meta: &Meta, dek: &[u8; 32], raw: &[u8]) -> Result<Vec<u8>, Fault> {
    let header = read_header(&raw[..raw.len().min(HEADER_MAX)])?;
    check_meta(meta)?;
    assert_eq!(header.json, HEADER);
    let mut r = open_container(meta, &header.json, dek)?;
    let mut rest = &raw[header.end..];
    let head = drain(&mut r, &mut rest, 4)?;
    let len = read_manifest(&[head[0], head[1], head[2], head[3]])?;
    assert_eq!(drain(&mut r, &mut rest, len)?, MANIFEST);
    drain(&mut r, &mut rest, usize::MAX)
}

fn meta_for(scheme: Scheme, recipient: Recipient) -> Meta {
    new_meta(scheme, recipient, &random_bytes::<7>())
}

fn rsa_recipient() -> Recipient {
    Recipient::Rsa { fingerprint: String::new(), wrapped: String::new() }
}

fn options() -> Options {
    Options {
        output: None,
        scheme: Some(Scheme::Password(Cipher::Aes256Gcm)),
        key: None,
        password_stdin: true,
        force: false,
        verify: true,
        keep: false,
        shred: false,
        quiet: true,
    }
}

#[test]
fn password_roundtrip_across_chunk_boundaries() {
    let dek = random_bytes::<32>();
    let recipient = password_recipient(PASS, &dek).unwrap();
    let meta = meta_for(Scheme::Password(Cipher::Aes256Gcm), recipient);
    let again = unwrap_password(&meta.recipient, PASS).unwrap();
    assert_eq!(again, dek);
    // 1 MiB is the chunk size, so the boundary cases matter most.
    for len in [0usize, 1, 1024, 1048575, 1048576, 1048577, 2097152] {
        let original = bytes(len);
        let raw = seal(&meta, &dek, &original);
        assert_eq!(unseal(&meta, &again, &raw).unwrap(), original, "payload differs at {}", len);
        // what is not hidden: the size, plus a tag for every chunk
        let plain = 4 + MANIFEST.len() + len;
        let end = read_header(&raw[..raw.len().min(HEADER_MAX)]).unwrap().end;
        assert_eq!(raw.len() - end, plain + (plain / 1048576 + 1) * 16);
    }
}

#[test]
fn both_ciphers_differ_and_come_back() {
    let dek = random_bytes::<32>();
    let data = bytes(2_000_000);
    let aes = meta_for(Scheme::Password(Cipher::Aes256Gcm), rsa_recipient());
    let cha = meta_for(Scheme::Password(Cipher::ChaCha20Poly1305), rsa_recipient());
    let cha = Meta { nonce_prefix: aes.nonce_prefix.clone(), ..cha };
    let a = seal(&aes, &dek, &data);
    let c = seal(&cha, &dek, &data);
    assert_eq!(a.len(), c.len());
    assert_ne!(a, c);
    assert_eq!(unseal(&aes, &dek, &a).unwrap(), data);
    assert_eq!(unseal(&cha, &dek, &c).unwrap(), data);
    assert!(matches!(unseal(&cha, &dek, &a), Err(Fault::AuthenticationFailed)));
}

#[test]
fn container_starts_with_the_readable_banner() {
    let dek = random_bytes::<32>();
    let meta = meta_for(Scheme::Password(Cipher::Aes256Gcm), rsa_recipient());
    let raw = seal(&meta, &dek, b"secret");
    assert!(raw.starts_with(b"Encrypted by CryptoSec"));
    assert!(looks_encrypted(&raw[..32]));
    assert!(!raw.windows(6).any(|w| w == b"secret"));
    let magic = raw.windows(5).position(|w| w == b"CSEC\x01").expect("header magic");
    let readable = String::from_utf8(raw[..magic].to_vec()).unwrap();
    assert_eq!(
        readable,
        "Encrypted by CryptoSec\n\
         Decrypt with: cryptosec -d <this file>\n\
         Get it at: https://github.com/poezi123/CryptoSec\n\n"
    );
    assert_eq!(readable, preamble());
}

#[test]
fn wrong_password_is_rejected() {
    let dek = random_bytes::<32>();
    let recipient = password_recipient(PASS, &dek).unwrap();
    let err = unwrap_password(&recipient, "not the password").unwrap_err();
    assert!(err.message().contains("wrong password"), "{}", err.message());
}

#[test]
fn a_single_flipped_byte_is_detected() {
    let dek = random_bytes::<32>();
    let meta = meta_for(Scheme::Password(Cipher::Aes256Gcm), rsa_recipient());
    let mut raw = seal(&meta, &dek, &bytes(5000));
    let last = raw.len() - 20;
    raw[last] ^= 0x01;
    let err = unseal(&meta, &dek, &raw).unwrap_err();
    assert!(err.message().contains("authentication failed"), "{}", err.message());
}

#[test]
fn truncation_is_detected() {
    let dek = random_bytes::<32>();
    let meta = meta_for(Scheme::Password(Cipher::Aes256Gcm), rsa_recipient());
    let raw = seal(&meta, &dek, &bytes(3_000_000));
    let cut = &raw[..raw.len() - (16 + 100)];
    let err = unseal(&meta, &dek, cut).unwrap_err();
    assert!(!err.message().is_empty());
    // the final chunk is gone altogether
    let end = read_header(&raw[..HEADER_MAX]).unwrap().end;
    let whole = &raw[..end + 2 * SEALED_CHUNK];
    assert!(matches!(unseal(&meta, &dek, whole), Err(Fault::EndsEarly)));
}

#[test]
fn swapped_appended_and_foreign_chunks_are_detected() {
    let dek = random_bytes::<32>();
    let meta = meta_for(Scheme::Password(Cipher::ChaCha20Poly1305), rsa_recipient());
    let raw = seal(&meta, &dek, &bytes(2_500_000));
    let end = read_header(&raw[..HEADER_MAX]).unwrap().end;
    let mut swapped = raw[..end].to_vec();
    swapped.extend_from_slice(&raw[end + SEALED_CHUNK..end + 2 * SEALED_CHUNK]);
    swapped.extend_from_slice(&raw[end..end + SEALED_CHUNK]);
    swapped.extend_from_slice(&raw[end + 2 * SEALED_CHUNK..]);
    assert!(matches!(unseal(&meta, &dek, &swapped), Err(Fault::AuthenticationFailed)));
    let mut longer = raw.clone();
    longer.push(0);
    assert!(matches!(unseal(&meta, &dek, &longer), Err(Fault::AuthenticationFailed)));
    assert!(matches!(unseal(&meta, &[9u8; 32], &raw), Err(Fault::AuthenticationFailed)));
}

#[test]
fn an_edited_header_is_detected() {
    let dek = random_bytes::<32>();
    let meta = meta_for(Scheme::Password(Cipher::Aes256Gcm), rsa_recipient());
    let raw = seal(&meta, &dek, b"secret");
    let header = read_header(&raw).unwrap();
    let mut other = header.json.clone();
    other[2] ^= 1;
    let mut r = open_container(&meta, &other, &dek).unwrap();
    let mut rest = &raw[header.end..];
    assert!(matches!(drain(&mut r, &mut rest, 4), Err(Fault::AuthenticationFailed)));
}

#[test]
fn keypair_roundtrip_ecc_and_mlkem() {
    let original = bytes(200_000);
    for (name, algo) in [("alice", KeyAlgo::X25519), ("bob", KeyAlgo::MlKem768)] {
        let sk = generate(algo).unwrap();
        let pk = sk.public();
        let dek = random_bytes::<32>();
        let recipient = key_recipient(algo, &pk, &dek).unwrap();
        assert_eq!(recipient.fingerprint().unwrap(), pk.fingerprint().unwrap());
        let meta = meta_for(Scheme::KeyPair(algo), recipient);
        assert_eq!(meta.cipher, Cipher::Aes256Gcm);
        let raw = seal(&meta, &dek, &original);
        let back = unwrap_key(&meta.recipient, &sk, name).unwrap();
        assert_eq!(back, dek);
        assert_eq!(unseal(&meta, &back, &raw).unwrap(), original);
    }
}

#[test]
fn keypair_roundtrip_rsa() {
    // A short key: finding one of 4096 bits takes too long here.
    let key = rsa::RsaPrivateKey::new(&mut rand::thread_rng(), 1024).unwrap();
    let der = key.to_pkcs8_der().unwrap();
    let sk = PrivateKey::from_bytes(KeyAlgo::Rsa4096, der.as_bytes()).unwrap();
    assert_eq!(sk.to_bytes().unwrap(), der.as_bytes());
    let raw_pk = sk.public().to_bytes().unwrap();
    let pk = PublicKey::from_bytes(KeyAlgo::Rsa4096, &raw_pk).unwrap();
    assert_eq!(pk.to_bytes().unwrap(), raw_pk);
    let original = bytes(100_000);
    let dek = random_bytes::<32>();
    let recipient = key_recipient(KeyAlgo::Rsa4096, &pk, &dek).unwrap();
    let meta = meta_for(Scheme::KeyPair(KeyAlgo::Rsa4096), recipient);
    let raw = seal(&meta, &dek, &original);
    let back = unwrap_key(&meta.recipient, &sk, "carol").unwrap();
    assert_eq!(back, dek);
    assert_eq!(unseal(&meta, &back, &raw).unwrap(), original);
    // another key of the same type does not fit
    let other = rsa::RsaPrivateKey::new(&mut rand::thread_rng(), 1024).unwrap();
    let other = PrivateKey::from_bytes(
        KeyAlgo::Rsa4096,
        other.to_pkcs8_der().unwrap().as_bytes(),
    )
    .unwrap();
    assert!(matches!(unwrap_key(&meta.recipient, &other, "x"), Err(Fault::KeyMismatch(_, _))));
    // too short to take a data key in
    let short = rsa::RsaPrivateKey::new(&mut rand::thread_rng(), 512).unwrap();
    let short = PrivateKey::from_bytes(
        KeyAlgo::Rsa4096,
        short.to_pkcs8_der().unwrap().as_bytes(),
    )
    .unwrap();
    assert!(matches!(
        key_recipient(KeyAlgo::Rsa4096, &short.public(), &dek),
        Err(Fault::RsaEncryption(said)) if said == "message too long"
    ));
}

#[test]
fn a_foreign_key_cannot_open_the_container() {
    let alice = generate(KeyAlgo::X25519).unwrap();
    let mallory = generate(KeyAlgo::X25519).unwrap();
    let dek = random_bytes::<32>();
    let recipient = key_recipient(KeyAlgo::X25519, &alice.public(), &dek).unwrap();
    let err = unwrap_key(&recipient, &mallory, "mallory").unwrap_err();
    assert!(err.message().contains("does not match"), "{}", err.message());
    let fp = alice.public().fingerprint().unwrap();
    assert_eq!(err.message(), format!("key 'mallory' does not match this container ({})", fp));
    let none = key_for(None, None, &fp).unwrap_err();
    assert_eq!(
        none.message(),
        format!("no private key {} in the key store - pass --key with the file path", fp)
    );
}

#[test]
fn a_mismatched_wrapping_is_written_with_empty_parts() {
    let alice = generate(KeyAlgo::X25519).unwrap();
    let dek = random_bytes::<32>();
    let r = key_recipient(KeyAlgo::Rsa4096, &alice.public(), &dek).unwrap();
    assert!(matches!(r, Recipient::Rsa { .. }));
    let der = rsa::RsaPrivateKey::new(&mut rand::thread_rng(), 1024).unwrap().to_pkcs8_der().unwrap();
    let rsa = PrivateKey::from_bytes(KeyAlgo::Rsa4096, der.as_bytes()).unwrap();
    let r = key_recipient(KeyAlgo::X25519, &rsa.public(), &dek).unwrap();
    match r {
        Recipient::X25519 { ephemeral, wrap_nonce, .. } => {
            assert_eq!(ephemeral, "");
            assert_eq!(wrap_nonce, "AAAAAAAAAAAAAAAA");
        }
        _ => panic!("another recipient"),
    }
}

#[test]
fn damaged_recipients_are_refused() {
    let sk = generate(KeyAlgo::X25519).unwrap();
    let fingerprint = sk.public().fingerprint().unwrap();
    let with = |ephemeral: &str, wrap_nonce: &str, wrapped: &str| Recipient::X25519 {
        fingerprint: fingerprint.clone(),
        ephemeral: ephemeral.to_string(),
        wrap_nonce: wrap_nonce.to_string(),
        wrapped: wrapped.to_string(),
    };
    let key = "AAAAAAAAAAAAAAAAAAAAAAAAAAAAAAAAAAAAAAAAAAA=";
    let open = |r: &Recipient| unwrap_key(r, &sk, "me").unwrap_err().message();
    assert_eq!(open(&with("*", "", "")), "Invalid symbol 42, offset 0.");
    assert_eq!(open(&with("", "*", "")), "Invalid symbol 42, offset 0.");
    assert_eq!(open(&with("", "", "*")), "Invalid symbol 42, offset 0.");
    assert_eq!(open(&with("", "", "")), "damaged ephemeral key");
    assert_eq!(open(&with(key, "", "")), "damaged wrap nonce");
    assert_eq!(
        open(&with(key, "AAAAAAAAAAAAAAAA", "AAAA")),
        "wrong password or key - the data key did not unwrap"
    );
    assert_eq!(
        unwrap_password(&with(key, "", ""), PASS).unwrap_err().message(),
        "this container is not password protected"
    );
    let password = |kdf: &str, salt: &str, m_cost: u32| Recipient::Password {
        kdf: kdf.to_string(),
        salt: salt.to_string(),
        m_cost,
        t_cost: 1,
        p_cost: 1,
        wrap_nonce: String::new(),
        wrapped: String::new(),
    };
    let open = |r: &Recipient| unwrap_password(r, PASS).unwrap_err().message();
    assert_eq!(open(&password("scrypt", "", 8)), "unsupported key derivation 'scrypt'");
    assert_eq!(open(&password("argon2id", "*", 8)), "damaged header");
    assert_eq!(
        open(&password("argon2id", "AAAA", 8)),
        "key derivation failed: salt is too short"
    );
    assert_eq!(
        open(&password("argon2id", "AAAA", 7)),
        "invalid Argon2 parameters: memory cost is too small"
    );
    assert_eq!(open(&password("argon2id", "AAAAAAAAAAAA", 8)), "damaged wrap nonce");
}

#[test]
fn damaged_prefixes_are_refused() {
    let meta = meta_for(Scheme::Password(Cipher::Aes256Gcm), rsa_recipient());
    let short = Meta { nonce_prefix: "AAAA".to_string(), ..meta };
    let err = match open_container(&short, HEADER, &[0u8; 32]) {
        Ok(_) => panic!("opened"),
        Err(e) => e,
    };
    assert_eq!(err.message(), "damaged header (nonce prefix)");
    let bad = Meta { nonce_prefix: "?".to_string(), ..short };
    let err = match open_container(&bad, HEADER, &[0u8; 32]) {
        Ok(_) => panic!("opened"),
        Err(e) => e,
    };
    assert_eq!(err.message(), "damaged header");
    let said = base64::engine::general_purpose::STANDARD.decode("?").unwrap_err().to_string();
    assert_eq!(err.cause(), Some(said.as_str()));
    // nothing is begun under a header that could not be read again
    let begun = |meta: &Meta| match begin_container(meta, HEADER, &[0u8; 32], MANIFEST) {
        Ok(_) => panic!("begun"),
        Err(e) => e.message(),
    };
    assert_eq!(begun(&bad), "damaged header");
    let short = Meta { nonce_prefix: "AAAA".to_string(), ..bad };
    assert_eq!(begun(&short), "damaged header (nonce prefix)");
}

#[test]
fn the_read_back_check_derives_the_key_again() {
    let dek = random_bytes::<32>();
    let recipient = password_recipient(PASS, &dek).unwrap();
    assert_eq!(verify_key(&recipient, &dek, Some(PASS)).unwrap(), dek);
    assert!(matches!(verify_key(&recipient, &[1u8; 32], Some(PASS)), Err(Fault::RederivedKey)));
    assert_eq!(verify_key(&rsa_recipient(), &dek, None).unwrap(), dek);
    let manifest = Manifest { name: "a".to_string(), kind: Kind::File };
    assert!(verify_manifest(&manifest, "a", Kind::File).is_ok());
    assert!(matches!(verify_manifest(&manifest, "b", Kind::File), Err(Fault::OtherContents)));
    assert!(matches!(verify_manifest(&manifest, "a", Kind::Directory), Err(Fault::OtherContents)));
}

#[test]
fn directory_roundtrip_keeps_the_tree() {
    let mut b = tar::Builder::new(Vec::new());
    let file = |b: &mut tar::Builder<Vec<u8>>, path: &str, data: &[u8]| {
        let mut h = tar::Header::new_gnu();
        h.set_size(data.len() as u64);
        h.set_mode(0o644);
        h.set_cksum();
        b.append_data(&mut h, path, data).unwrap();
    };
    let other = |b: &mut tar::Builder<Vec<u8>>, kind: tar::EntryType, path: &str, to: &str| {
        let mut h = tar::Header::new_gnu();
        h.set_size(0);
        h.set_entry_type(kind);
        if to.is_empty() {
            h.set_cksum();
            b.append_data(&mut h, path, &b""[..]).unwrap();
        } else {
            b.append_link(&mut h, path, to).unwrap();
        }
    };
    let three = bytes(300_000);
    other(&mut b, tar::EntryType::Directory, "tree/", "");
    other(&mut b, tar::EntryType::Directory, "tree/empty/", "");
    file(&mut b, "tree/one.txt", b"one");
    file(&mut b, "tree/sub/two.txt", b"two");
    file(&mut b, "tree/sub/deep/three.bin", &three);
    other(&mut b, tar::EntryType::Symlink, "tree/link.txt", "one.txt");
    other(&mut b, tar::EntryType::Symlink, "tree/dangling", "nowhere");
    let archive = b.into_inner().unwrap();

    let dek = random_bytes::<32>();
    let meta = meta_for(Scheme::Password(Cipher::ChaCha20Poly1305), rsa_recipient());
    let raw = seal(&meta, &dek, &archive);
    let back = unseal(&meta, &dek, &raw).unwrap();
    assert_eq!(back, archive);

    let mut check = TreeCheck::new("tree");
    let mut unpacked = tar::Archive::new(&back[..]);
    let mut names = Vec::new();
    for entry in unpacked.entries().unwrap() {
        let entry = entry.unwrap();
        let path = entry.path().unwrap().into_owned();
        let shown = path.display().to_string();
        let first = path.components().next().unwrap().as_os_str().to_str().unwrap();
        let kind = entry.header().entry_type();
        let found = if kind.is_dir() {
            Found::Directory { on_disk: true }
        } else if kind.is_symlink() {
            names.push(entry.link_name().unwrap().unwrap().display().to_string());
            Found::Symlink { has_target: true, same: true }
        } else {
            Found::File { on_disk: true, same: true }
        };
        check.entry(FirstPart::Text(first), found, &shown).unwrap();
    }
    assert_eq!(names, ["one.txt", "nowhere"]);
    check.finish(5).unwrap();
}

#[test]
fn existing_output_is_not_overwritten_by_accident() {
    let err = ensure_free(true, false, "a.txt.csec").unwrap_err();
    assert!(err.message().contains("already exists"), "{}", err.message());
    assert_eq!(err.message(), "a.txt.csec already exists (use -f to overwrite)");
    assert!(ensure_free(true, true, "a.txt.csec").is_ok());
    assert!(ensure_free(false, false, "a.txt.csec").is_ok());
}

#[test]
fn plain_files_are_not_mistaken_for_containers() {
    let err = match read_header(b"just text\n") {
        Ok(_) => panic!("read"),
        Err(e) => e.message(),
    };
    assert!(err.contains("not a CryptoSec container"), "{}", err);
    assert!(!looks_encrypted(b"just text\n"));
}

fn run_encrypt(opts: &Options, events: &[EncryptEvent]) -> Result<Vec<EncryptAction>, Fault> {
    let mut state = EncryptState::Start;
    let mut done = Vec::new();
    for e in events {
        let (next, action) = encrypt(opts, state, *e)?;
        state = next;
        done.push(action);
    }
    Ok(done)
}

fn run_decrypt(opts: &Options, events: &[DecryptEvent]) -> Vec<DecryptAction> {
    let mut state = DecryptState::Start;
    let mut done = Vec::new();
    for e in events {
        let (next, action) = decrypt(opts, state, *e);
        state = next;
        done.push(action);
    }
    done
}

const TO_WRITTEN: [EncryptEvent; 6] = [
    EncryptEvent::Begin,
    EncryptEvent::Located(Kind::File),
    EncryptEvent::Head(false),
    EncryptEvent::Free,
    EncryptEvent::Keyed,
    EncryptEvent::Written,
];

fn after_written(more: &[EncryptEvent]) -> Vec<EncryptEvent> {
    let mut all = TO_WRITTEN.to_vec();
    all.extend_from_slice(more);
    all
}

const TO_RESTORED: [DecryptEvent; 6] = [
    DecryptEvent::Begin,
    DecryptEvent::Opened(true),
    DecryptEvent::Keyed,
    DecryptEvent::Manifest(Kind::File),
    DecryptEvent::Free,
    DecryptEvent::Restored,
];

#[test]
fn encrypting_replaces_the_source_and_decrypting_replaces_the_container() {
    let did = run_encrypt(
        &options(),
        &after_written(&[EncryptEvent::Checked(true), EncryptEvent::Disposed]),
    )
    .unwrap();
    assert_eq!(
        did,
        [
            EncryptAction::Locate,
            EncryptAction::Peek,
            EncryptAction::Probe,
            EncryptAction::AskPassword,
            EncryptAction::Write,
            EncryptAction::Check,
            EncryptAction::Remove(Kind::File),
            EncryptAction::Finish(Note::SourceRemoved),
        ]
    );
    let mut events = TO_RESTORED.to_vec();
    events.push(DecryptEvent::Removed);
    assert_eq!(
        run_decrypt(&options(), &events),
        [
            DecryptAction::Open,
            DecryptAction::AskPassword,
            DecryptAction::ReadManifest,
            DecryptAction::Probe,
            DecryptAction::Restore(Kind::File),
            DecryptAction::Remove,
            DecryptAction::Finish(Note::ContainerRemoved),
        ]
    );
}

#[test]
fn keep_leaves_the_input_in_place() {
    let opts = Options { keep: true, ..options() };
    let did = run_encrypt(&opts, &after_written(&[EncryptEvent::Checked(true)])).unwrap();
    assert_eq!(did.last(), Some(&EncryptAction::Finish(Note::SourceKept)));
    assert_eq!(note_text(Note::SourceKept), "  source kept (-k)");
    let did = run_decrypt(&opts, &TO_RESTORED);
    assert_eq!(did.last(), Some(&DecryptAction::Finish(Note::ContainerKept)));
}

#[test]
fn skipping_the_check_keeps_the_source() {
    let opts = Options { verify: false, ..options() };
    let did = run_encrypt(&opts, &TO_WRITTEN).unwrap();
    assert_eq!(did.last(), Some(&EncryptAction::Finish(Note::SourceUnchecked)));
    assert!(note_text(Note::SourceUnchecked).contains("nothing was verified"));
}

#[test]
fn shred_and_keep_are_rejected_together() {
    let opts = Options { shred: true, keep: true, ..options() };
    let err = run_encrypt(&opts, &[EncryptEvent::Begin]).unwrap_err();
    assert!(err.message().contains("contradict"), "{}", err.message());
    let opts = Options { shred: true, verify: false, ..options() };
    let err = run_encrypt(&opts, &[EncryptEvent::Begin]).unwrap_err();
    assert_eq!(err.message(), "--shred needs the read-back check, drop --no-verify");
}

#[test]
fn shred_removes_the_source_after_the_check() {
    let opts = Options { shred: true, ..options() };
    let did = run_encrypt(
        &opts,
        &after_written(&[EncryptEvent::Checked(true), EncryptEvent::Disposed]),
    )
    .unwrap();
    assert_eq!(did[6], EncryptAction::Shred(Kind::File));
    assert_eq!(did[7], EncryptAction::Finish(Note::SourceOverwritten));
}

#[test]
fn a_failed_check_discards_the_container_and_keeps_the_source() {
    let events = after_written(&[EncryptEvent::Checked(false)]);
    let did = run_encrypt(&options(), &events).unwrap();
    assert_eq!(did.last(), Some(&EncryptAction::Discard));
    let events = after_written(&[EncryptEvent::Checked(false), EncryptEvent::Discarded]);
    let err = run_encrypt(&options(), &events).unwrap_err();
    assert_eq!(err.message(), "read-back check failed, the source was left untouched");
}

#[test]
fn a_container_is_not_encrypted_again_unasked() {
    let events = [
        EncryptEvent::Begin,
        EncryptEvent::Located(Kind::File),
        EncryptEvent::Head(true),
        EncryptEvent::Answer(false),
    ];
    assert!(matches!(run_encrypt(&options(), &events), Err(Fault::NothingToDo)));
    let opts = Options { scheme: None, ..options() };
    let events = [
        EncryptEvent::Begin,
        EncryptEvent::Located(Kind::File),
        EncryptEvent::Head(true),
        EncryptEvent::Answer(true),
        EncryptEvent::Free,
        EncryptEvent::Chosen(Scheme::KeyPair(KeyAlgo::X25519)),
    ];
    let did = run_encrypt(&opts, &events).unwrap();
    assert_eq!(did[2], EncryptAction::Confirm);
    assert_eq!(did[4], EncryptAction::ChooseScheme);
    assert_eq!(did[5], EncryptAction::PickKey(KeyAlgo::X25519));
    let did = run_encrypt(
        &opts,
        &[EncryptEvent::Begin, EncryptEvent::Located(Kind::Directory)],
    )
    .unwrap();
    assert_eq!(did[1], EncryptAction::Probe);
}
