use aes_gcm::aead::{Aead, KeyInit, Payload};
use cryptosec::fault::Fault;
use cryptosec::format::{Cipher, CHUNK, SEALED_CHUNK};
use cryptosec::stream::{
    read_upto, DecReader, EncWriter, ReadEvent, ReadStep, Sealer,
};

const KEY: [u8; 32] = [7; 32];
const PREFIX: [u8; 7] = [1, 2, 3, 4, 5, 6, 7];
const AAD: [u8; 32] = [9; 32];

fn sealer(cipher: Cipher) -> Sealer {
    Sealer::new(cipher, &KEY, PREFIX, AAD)
}

#[test]
fn a_nonce_holds_prefix_number_and_flag() {
    let mut s = sealer(Cipher::Aes256Gcm);
    assert_eq!(s.nonce(false), [1, 2, 3, 4, 5, 6, 7, 0, 0, 0, 0, 0]);
    assert_eq!(s.nonce(true), [1, 2, 3, 4, 5, 6, 7, 0, 0, 0, 0, 1]);
    for _ in 0..258 {
        s.seal(b"", false).unwrap();
    }
    assert_eq!(s.nonce(false), [1, 2, 3, 4, 5, 6, 7, 0, 0, 1, 2, 0]);
}

#[test]
fn chunks_are_what_the_ciphers_make() {
    let mut nonce = [0u8; 12];
    nonce[..7].copy_from_slice(&PREFIX);
    let payload = Payload { msg: b"first", aad: &AAD };
    let aes = aes_gcm::Aes256Gcm::new(&KEY.into()).encrypt(&nonce.into(), payload).unwrap();
    assert_eq!(sealer(Cipher::Aes256Gcm).seal(b"first", false).unwrap(), aes);
    let payload = Payload { msg: b"first", aad: &AAD };
    let cha = chacha20poly1305::ChaCha20Poly1305::new(&KEY.into())
        .encrypt(&nonce.into(), payload)
        .unwrap();
    assert_eq!(sealer(Cipher::ChaCha20Poly1305).seal(b"first", false).unwrap(), cha);
    assert_eq!(sealer(Cipher::Aes256Gcm).open(&aes, false).unwrap(), b"first");
    assert_eq!(sealer(Cipher::ChaCha20Poly1305).open(&cha, false).unwrap(), b"first");
    // a chunk that was not the last is not taken for the last
    assert!(matches!(
        sealer(Cipher::Aes256Gcm).open(&aes, true),
        Err(Fault::AuthenticationFailed)
    ));
}

fn stream_of(cipher: Cipher, data: &[u8], piece: usize) -> Vec<u8> {
    let mut w = EncWriter::new(sealer(cipher));
    let mut out = Vec::new();
    for part in data.chunks(piece) {
        out.extend_from_slice(&w.write(part).unwrap());
    }
    out.extend_from_slice(&w.finish().unwrap());
    out
}

#[test]
fn how_writes_are_split_does_not_show() {
    let data: Vec<u8> = (0..2_300_000usize).map(|i| (i % 251) as u8).collect();
    let whole = stream_of(Cipher::ChaCha20Poly1305, &data, data.len());
    assert_eq!(whole, stream_of(Cipher::ChaCha20Poly1305, &data, 4096));
    assert_eq!(whole, stream_of(Cipher::ChaCha20Poly1305, &data, CHUNK));
    assert_eq!(whole.len(), data.len() + 3 * 16);
}

#[test]
fn a_full_chunk_comes_out_at_once() {
    let mut w = EncWriter::new(sealer(Cipher::Aes256Gcm));
    assert!(w.write(&vec![0u8; CHUNK - 1]).unwrap().is_empty());
    assert_eq!(w.write(&[0u8]).unwrap().len(), SEALED_CHUNK);
    assert_eq!(w.finish().unwrap().len(), 16);
}

#[test]
fn a_reader_hands_out_what_it_has() {
    let sealed = stream_of(Cipher::Aes256Gcm, b"hello", 5);
    let mut r = DecReader::new(sealer(Cipher::Aes256Gcm));
    assert!(r.wants_chunk());
    let mut out = [0u8; 3];
    assert_eq!(r.read(&mut out), 0);
    r.fill(&sealed, 0).unwrap();
    assert!(!r.wants_chunk());
    assert_eq!(r.read(&mut out), 3);
    assert_eq!(&out, b"hel");
    assert_eq!(r.read(&mut out), 2);
    assert_eq!(&out, b"lol");
    assert_eq!(r.read(&mut out), 0);
    assert!(!r.wants_chunk());
}

#[test]
fn a_reader_refuses_what_is_missing_or_too_much() {
    let mut r = DecReader::new(sealer(Cipher::Aes256Gcm));
    assert!(matches!(r.fill(&[], 0), Err(Fault::EndsEarly)));
    let sealed = stream_of(Cipher::Aes256Gcm, b"hello", 5);
    let mut r = DecReader::new(sealer(Cipher::Aes256Gcm));
    assert!(matches!(r.fill(&sealed, 1), Err(Fault::TrailingData)));
    let mut r = DecReader::new(sealer(Cipher::Aes256Gcm));
    assert!(matches!(r.fill(&sealed[..10], 0), Err(Fault::AuthenticationFailed)));
    // the first chunk of a longer stream, and nothing behind it
    let sealed = stream_of(Cipher::Aes256Gcm, &vec![1u8; CHUNK], CHUNK);
    let mut r = DecReader::new(sealer(Cipher::Aes256Gcm));
    r.fill(&sealed[..SEALED_CHUNK], 0).unwrap();
    let mut out = vec![0u8; CHUNK];
    assert_eq!(r.read(&mut out), CHUNK);
    assert!(r.wants_chunk());
    assert!(matches!(r.fill(&[], 0), Err(Fault::EndsEarly)));
}

#[test]
fn short_reads_fill_a_buffer_all_the_same() {
    assert!(matches!(read_upto(0, 10, ReadEvent::Got(4)), ReadStep::Again(4)));
    assert!(matches!(read_upto(4, 10, ReadEvent::Got(6)), ReadStep::Done(10)));
    assert!(matches!(read_upto(4, 10, ReadEvent::Got(0)), ReadStep::Done(4)));
    assert!(matches!(read_upto(4, 10, ReadEvent::Interrupted), ReadStep::Again(4)));
    assert!(matches!(read_upto(4, 10, ReadEvent::Failed), ReadStep::Failed));
}

#[test]
fn what_comes_out_before_a_refusal_is_a_beginning() {
    let data: Vec<u8> = (0..2 * CHUNK + 7).map(|i| (i % 253) as u8).collect();
    let mut sealed = stream_of(Cipher::Aes256Gcm, &data, data.len());
    sealed[2 * SEALED_CHUNK - 1] ^= 1;
    let mut r = DecReader::new(sealer(Cipher::Aes256Gcm));
    r.fill(&sealed[..SEALED_CHUNK], 0).unwrap();
    let mut out = vec![0u8; CHUNK];
    assert_eq!(r.read(&mut out), CHUNK);
    assert_eq!(out, data[..CHUNK]);
    assert_eq!(r.read(&mut []), 0);
    let next = &sealed[SEALED_CHUNK..2 * SEALED_CHUNK];
    assert!(matches!(r.fill(next, 0), Err(Fault::AuthenticationFailed)));
    assert_eq!(r.read(&mut out), 0);
}
