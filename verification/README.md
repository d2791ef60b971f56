# cryptosec

CryptoSec encrypts a file or a whole directory into a single container, and
decrypts it again. This crate holds its rules, written and proved in Verus: the
container format, the encrypted stream, data keys and how they are wrapped, key
pairs and their files, and the order in which files are written, checked and
removed.

## Layout

| Module | What it holds |
| --- | --- |
| `format` | preamble, header and manifest of a container |
| `stream` | the chunked, authenticated stream, as a writer and a reader |
| `kdf` | keys out of passwords, keys wrapped under keys, sealed secrets |
| `keys` | key pairs, fingerprints, data keys wrapped for a key pair |
| `armor` | the text form of key files |
| `store` | what the key store holds and what is read from it |
| `recipient` | how a header says where its data key is |
| `ops` | encrypting and decrypting, step by step, and where results go |
| `readback` | reading a finished container back, step by step |
| `deliver` | putting a result into its place, step by step |
| `check` | holding a container against its source, overwriting the source |
| `names` | names of containers, restored files and scratch files |
| `cli`, `commands`, `ui` | the command line, what is reported, what is asked |
| `fault` | everything that can go wrong, and its message |
| `text` | operations on bytes and characters |
| `primitives` | the cryptographic crates, each call behind a contract |

`app/` is the program around the library: the terminal, the file system and the
archive. `tests/` runs the library on concrete values.

## What is proved

- What is written is read again: a stream opens to what went in, and a container
  gives back its header, its manifest and its contents.
- What is encrypted for a password or a private key comes back with it: data key,
  header and stream in one law.
- Where no chunk is forged, only the stream that was written opens. One that was
  cut, reordered, extended or put behind another header is refused, and what came
  out before is a beginning of what was written.
- No two chunks of a stream share a nonce, as long as it has no more than 2^32 of
  them.
- A data key comes out under the password it was wrapped under, and under the
  private key of the X25519 key it was wrapped for.
- A key file with a clean name is read as what was written, and the private key
  in it is the one that was saved.
- The source is removed only after the container was read back; a container that
  fails the check is discarded. One passes only once its data key, its manifest,
  its contents and the end of its stream all fitted.
- Where nothing is forged, another password, another passphrase, another X25519 or
  ML-KEM key, and a wrapping or a sealed key that was altered are refused.
- An old output is removed, and a result moved into its place, only once the
  stream came to its end and all of it was well. No scratch file stays behind.
- A restored file has a plain name, so it stays in the directory it was meant for.

## What is trusted

The ciphers, hashes, key exchanges and encodings are not proved here. Each call
stands behind one function in `primitives`, whose contract says what the rest
relies on. Two kinds of keys are promised less than the third: RSA decryption
gives back what was encrypted only where the factors of the key are prime, and
ML-KEM does so up to chance, so what is stated of them is conditional. An RSA key
whose second factor is far longer than its first is not decrypted with: that would
take longer than anyone waits.
