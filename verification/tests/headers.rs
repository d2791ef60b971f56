use cryptosec::fault::Fault;
use cryptosec::format::{
    aad, check_meta, looks_encrypted, preamble, read_header, read_manifest, write_header,
    write_manifest, Cipher, Kind, Meta, Recipient, CHUNK, HEADER_MAX, MAGIC, PREAMBLE_LIMIT,
};
use sha2::Digest;

fn fault(data: &[u8]) -> Fault {
    match read_header(data) {
        Ok(_) => panic!("read"),
        Err(e) => e,
    }
}

#[test]
fn a_header_comes_back() {
    let json = b"{\"a\":1}";
    let mut data = write_header(json);
    assert_eq!(data.len(), 112 + 5 + 4 + 7);
    assert_eq!(&data[112..117], b"CSEC\x01");
    assert_eq!(&data[117..121], [7, 0, 0, 0]);
    data.extend_from_slice(b"stream CSEC\x01 stream");
    let header = read_header(&data).unwrap();
    assert_eq!(header.json, json);
    assert_eq!(&data[header.end..], b"stream CSEC\x01 stream");
}

#[test]
fn the_first_bytes_are_enough_for_the_header() {
    let json = vec![b'x'; PREAMBLE_LIMIT];
    let mut data = write_header(&json);
    data.extend_from_slice(&vec![1u8; 2 * HEADER_MAX]);
    let header = read_header(&data[..HEADER_MAX]).unwrap();
    assert_eq!(header.json, json);
    assert_eq!(header.end, read_header(&data).unwrap().end);
}

#[test]
fn damaged_headers_are_refused() {
    assert!(matches!(fault(b""), Fault::NoHeader));
    assert!(matches!(fault(b"CSEC"), Fault::NoHeader));
    assert!(matches!(fault(b"CSEC\x01"), Fault::TruncatedHeader));
    assert!(matches!(fault(b"CSEC\x01\x01\x00\x00"), Fault::TruncatedHeader));
    assert!(matches!(fault(b"CSEC\x01\x02\x00\x00\x00{"), Fault::TruncatedHeader));
    assert!(matches!(fault(b"CSEC\x01\x00\x00\x00\x00"), Fault::HeaderLength(0)));
    assert!(matches!(fault(b"CSEC\x01\x01\x20\x00\x00"), Fault::HeaderLength(8193)));
    assert!(matches!(fault(b"CSEC\x01\xff\xff\xff\xff"), Fault::HeaderLength(u32::MAX)));
    assert_eq!(fault(b"CSEC\x01\x00\x00\x00\x00").message(), "corrupt header (metadata length 0)");
}

#[test]
fn the_marker_counts_up_to_the_limit() {
    let behind = |n: usize| {
        let mut data = vec![b' '; n];
        data.extend_from_slice(&MAGIC);
        data.extend_from_slice(&[1, 0, 0, 0, b'{']);
        data
    };
    assert!(read_header(&behind(PREAMBLE_LIMIT + 1 - 5)).is_ok());
    assert!(matches!(fault(&behind(PREAMBLE_LIMIT + 2 - 5)), Fault::NoHeader));
}

#[test]
fn other_versions_and_chunk_sizes_are_refused() {
    let meta = |version: u32, chunk_size: u32| Meta {
        version,
        cipher: Cipher::Aes256Gcm,
        recipient: Recipient::Rsa { fingerprint: "f".to_string(), wrapped: String::new() },
        nonce_prefix: String::new(),
        chunk_size,
    };
    assert!(check_meta(&meta(1, CHUNK as u32)).is_ok());
    let err = check_meta(&meta(2, 5)).unwrap_err();
    assert_eq!(err.message(), "container version 2 is not supported by this build");
    let err = check_meta(&meta(1, 5)).unwrap_err();
    assert_eq!(err.message(), "unsupported chunk size 5");
}

#[test]
fn the_associated_data_is_a_digest_of_the_header() {
    let mut h = sha2::Sha256::new();
    h.update(b"cryptosec/v1");
    h.update(b"{}");
    let digest: [u8; 32] = h.finalize().into();
    assert_eq!(aad(b"{}"), digest);
    assert_ne!(aad(b"{ }"), digest);
}

#[test]
fn containers_are_recognised_by_their_banner() {
    assert!(looks_encrypted(b"Encrypted by CryptoSec\nDecrypt w"));
    assert!(looks_encrypted(preamble().as_bytes()));
    assert!(!looks_encrypted(b"Encrypted by CryptoSe"));
    assert!(!looks_encrypted(b""));
}

#[test]
fn a_manifest_record_comes_back() {
    let record = write_manifest(b"{\"n\":2}");
    assert_eq!(record, b"\x07\x00\x00\x00{\"n\":2}");
    assert_eq!(read_manifest(&[7, 0, 0, 0]).unwrap(), 7);
    assert_eq!(read_manifest(&[0, 0, 1, 0]).unwrap(), 65536);
    assert!(matches!(read_manifest(&[0, 0, 0, 0]), Err(Fault::ManifestLength(0))));
    let err = read_manifest(&[1, 0, 1, 0]).unwrap_err();
    assert_eq!(err.message(), "damaged container (manifest length 65537)");
}

#[test]
fn labels_are_what_is_shown() {
    assert_eq!(Cipher::Aes256Gcm.label(), "AES-256-GCM");
    assert_eq!(Cipher::ChaCha20Poly1305.label(), "ChaCha20-Poly1305");
    assert_eq!(Kind::File.label(), "single file");
    assert_eq!(Kind::Directory.label(), "directory (tar archive)");
    let text = |s: &str| s.to_string();
    let password = Recipient::Password {
        kdf: text("argon2id"),
        salt: text(""),
        m_cost: 0,
        t_cost: 0,
        p_cost: 0,
        wrap_nonce: text(""),
        wrapped: text(""),
    };
    assert_eq!(password.label(), "password (argon2id)");
    assert_eq!(password.fingerprint(), None);
    let rsa = Recipient::Rsa { fingerprint: text("ab"), wrapped: text("") };
    assert_eq!(rsa.label(), "RSA-4096 key ab");
    assert_eq!(rsa.fingerprint(), Some("ab"));
    let x = Recipient::X25519 {
        fingerprint: text("cd"),
        ephemeral: text(""),
        wrap_nonce: text(""),
        wrapped: text(""),
    };
    assert_eq!(x.label(), "X25519 key cd");
    assert_eq!(x.fingerprint(), Some("cd"));
    let m = Recipient::MlKem {
        fingerprint: text("ef"),
        kem_ct: text(""),
        wrap_nonce: text(""),
        wrapped: text(""),
    };
    assert_eq!(m.label(), "ML-KEM-768 key ef");
    assert_eq!(m.fingerprint(), Some("ef"));
}
