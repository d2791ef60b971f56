//! The container format: a readable preamble, a marker, the header, and behind
//! it the encrypted stream.
use crate::fault::Fault;
use crate::primitives::sha256;
use crate::text::{
    begins_with, bytes_begin_with, from_le32, le32, le32_bytes, le32_value, lemma_le32, push_bytes,
};
use vstd::prelude::*;
use vstd::slice::{slice_subrange, slice_to_vec};
use vstd::string::*;

verus! {

/// Marker that separates the readable preamble from the binary container.
pub const MAGIC: [u8; 5] = [0x43, 0x53, 0x45, 0x43, 0x01];

/// First line of every container. Also used as the shared-mime-info magic.
pub const BANNER: &'static str = "Encrypted by CryptoSec";

/// How the name of a container ends.
pub const EXTENSION: &'static str = "csec";

/// The readable part, the same in every container.
pub const PREAMBLE: &'static str = "Encrypted by CryptoSec\nDecrypt with: cryptosec -d <this file>\nGet it at: https://github.com/poezi123/CryptoSec\n\n";

/// What the associated data of a stream is made of, besides the header.
pub const AAD_LABEL: &'static str = "cryptosec/v1";

/// How many bytes of the payload one chunk holds.
pub const CHUNK: usize = 1048576;

/// How many bytes longer an encrypted chunk is.
pub const TAG: usize = 16;

/// How many bytes a full chunk has once it is encrypted.
pub const SEALED_CHUNK: usize = 1048592;

/// Upper bound for the preamble scan, so a random file is rejected quickly. A
/// header may be as long.
pub const PREAMBLE_LIMIT: usize = 8192;

/// No header reaches further into a container.
pub const HEADER_MAX: usize = 16389;

// ------------------------------------------------------------------- types

/// What the header of a container says. Everything here is public by design.
#[derive(Debug)]
pub struct Meta {
    pub version: u32,
    pub cipher: Cipher,
    pub recipient: Recipient,
    pub nonce_prefix: String,
    pub chunk_size: u32,
}

/// Which cipher encrypts the payload.
#[derive(Clone, Copy, Debug, PartialEq, Eq, Structural)]
pub enum Cipher {
    Aes256Gcm,
    ChaCha20Poly1305,
}

impl Cipher {
    /// The name that is shown for a cipher.
    pub fn label(&self) -> (s: &'static str)
        ensures
            s@ == match *self {
                Cipher::Aes256Gcm => "AES-256-GCM"@,
                Cipher::ChaCha20Poly1305 => "ChaCha20-Poly1305"@,
            },
    {
        match self {
            Cipher::Aes256Gcm => "AES-256-GCM",
            Cipher::ChaCha20Poly1305 => "ChaCha20-Poly1305",
        }
    }
}

/// How the data key is wrapped. Everything here is public by design.
#[derive(Debug)]
pub enum Recipient {
    Password {
        kdf: String,
        salt: String,
        m_cost: u32,
        t_cost: u32,
        p_cost: u32,
        wrap_nonce: String,
        wrapped: String,
    },
    Rsa { fingerprint: String, wrapped: String },
    X25519 { fingerprint: String, ephemeral: String, wrap_nonce: String, wrapped: String },
    MlKem { fingerprint: String, kem_ct: String, wrap_nonce: String, wrapped: String },
}

/// What is shown for a recipient.
pub open spec fn recipient_label(r: Recipient) -> Seq<char> {
    match r {
        Recipient::Password { kdf, .. } => "password ("@ + kdf@ + ")"@,
        Recipient::Rsa { fingerprint, .. } => "RSA-4096 key "@ + fingerprint@,
        Recipient::X25519 { fingerprint, .. } => "X25519 key "@ + fingerprint@,
        Recipient::MlKem { fingerprint, .. } => "ML-KEM-768 key "@ + fingerprint@,
    }
}

/// The fingerprint of the key that a data key is wrapped for, if it is wrapped
/// for one.
pub open spec fn recipient_fingerprint(r: Recipient) -> Option<Seq<char>> {
    match r {
        Recipient::Password { .. } => None,
        Recipient::Rsa { fingerprint, .. } => Some(fingerprint@),
        Recipient::X25519 { fingerprint, .. } => Some(fingerprint@),
        Recipient::MlKem { fingerprint, .. } => Some(fingerprint@),
    }
}

impl Recipient {
    /// What is shown for a recipient.
    pub fn label(&self) -> (s: String)
        ensures
            s@ == recipient_label(*self),
    {
        match self {
            Recipient::Password { kdf, .. } => {
                let mut s = "password (".to_string();
                s.append(kdf.as_str());
                s.append(")");
                s
            },
            Recipient::Rsa { fingerprint, .. } => {
                let mut s = "RSA-4096 key ".to_string();
                s.append(fingerprint.as_str());
                s
            },
            Recipient::X25519 { fingerprint, .. } => {
                let mut s = "X25519 key ".to_string();
                s.append(fingerprint.as_str());
                s
            },
            Recipient::MlKem { fingerprint, .. } => {
                let mut s = "ML-KEM-768 key ".to_string();
                s.append(fingerprint.as_str());
                s
            },
        }
    }

    /// The fingerprint of the key that the data key is wrapped for.
    pub fn fingerprint(&self) -> (res: Option<&str>)
        ensures
            match res {
                Some(s) => recipient_fingerprint(*self) == Some(s@),
                None => recipient_fingerprint(*self) is None,
            },
            res is None <==> *self is Password,
    {
        match self {
            Recipient::Password { .. } => None,
            Recipient::Rsa { fingerprint, .. } => Some(fingerprint.as_str()),
            Recipient::X25519 { fingerprint, .. } => Some(fingerprint.as_str()),
            Recipient::MlKem { fingerprint, .. } => Some(fingerprint.as_str()),
        }
    }
}

/// Written as the first record of the encrypted stream, so the original name
/// never shows up in clear text.
#[derive(Debug)]
pub struct Manifest {
    pub name: String,
    pub kind: Kind,
}

/// Whether a container holds a single file or a packed directory.
#[derive(Clone, Copy, Debug, PartialEq, Eq, Structural)]
pub enum Kind {
    File,
    Directory,
}

impl Kind {
    /// What is shown for the contents of a container.
    pub fn label(&self) -> (s: &'static str)
        ensures
            s@ == match *self {
                Kind::File => "single file"@,
                Kind::Directory => "directory (tar archive)"@,
            },
    {
        match self {
            Kind::File => "single file",
            Kind::Directory => "directory (tar archive)",
        }
    }
}

// ------------------------------------------------------------------ header

/// The readable part of a container.
pub fn preamble() -> (s: String)
    ensures
        s@ == PREAMBLE@,
{
    PREAMBLE.to_string()
}

/// A container up to its first chunk: the preamble, the marker, the length of
/// the header, and the header.
pub open spec fn header_bytes(json: Seq<u8>) -> Seq<u8> {
    PREAMBLE.spec_bytes() + MAGIC@ + le32((json.len() % 0x1_0000_0000) as u32) + json
}

/// Writes everything that comes before the first chunk. `json` is the header.
pub fn write_header(json: &[u8]) -> (out: Vec<u8>)
    ensures
        out@ == header_bytes(json@),
{
    let mut out: Vec<u8> = Vec::new();
    push_bytes(&mut out, preamble().as_str().as_bytes());
    push_bytes(&mut out, &MAGIC);
    let len: u32 = (json.len() as u64 % 0x1_0000_0000) as u32;
    push_bytes(&mut out, &le32_bytes(len));
    push_bytes(&mut out, json);
    assert(out@ =~= header_bytes(json@));
    out
}

/// Whether the marker ends after `i` bytes.
pub open spec fn magic_ends_at(data: Seq<u8>, i: int) -> bool {
    MAGIC@.len() <= i <= data.len() && data.subrange(i - MAGIC@.len(), i) == MAGIC@
}

/// Where the first marker ends that ends after `i` bytes or later, if it does
/// so within the limit.
pub open spec fn magic_from(data: Seq<u8>, i: int) -> Option<int>
    decreases data.len() + 1 - i,
{
    if i > data.len() || i > PREAMBLE_LIMIT + 1 {
        None
    } else if magic_ends_at(data, i) {
        Some(i)
    } else {
        magic_from(data, i + 1)
    }
}

/// The header of a container and where it ends, or why there is none.
pub open spec fn header_of(data: Seq<u8>) -> Result<(Seq<u8>, int), Fault> {
    match magic_from(data, 1) {
        None => Err(Fault::NoHeader),
        Some(i) => if data.len() < i + 4 {
            Err(Fault::TruncatedHeader)
        } else {
            let n = from_le32(data.subrange(i, i + 4));
            if n == 0 || n > PREAMBLE_LIMIT {
                Err(Fault::HeaderLength(n as u32))
            } else if data.len() < i + 4 + n {
                Err(Fault::TruncatedHeader)
            } else {
                Ok((data.subrange(i + 4, i + 4 + n), i + 4 + n))
            }
        },
    }
}

/// The header as it stands in a container.
pub struct Header {
    /// The header itself.
    pub json: Vec<u8>,
    /// Where it ends and the first chunk begins.
    pub end: usize,
}

/// Finds the header at the beginning of a container. `data` is the container,
/// or its first `HEADER_MAX` bytes.
pub fn read_header(data: &[u8]) -> (res: Result<Header, Fault>)
    ensures
        match header_of(data@) {
            Ok((json, end)) => res matches Ok(h) && h.json@ == json && h.end == end,
            Err(f) => res matches Err(e) && e == f,
        },
{
    let mut i: usize = 1;
    let mut found = false;
    while i <= data.len() && i <= PREAMBLE_LIMIT + 1 && !found
        invariant
            1 <= i <= data@.len() + 1,
            i <= PREAMBLE_LIMIT + 2,
            found ==> magic_from(data@, 1) == Some(i as int),
            found ==> i <= data@.len(),
            !found ==> magic_from(data@, 1) == magic_from(data@, i as int),
        decreases (if found { 0 } else { data@.len() + 2 - i }),
    {
        if i >= 5 && bytes_begin_with(slice_subrange(data, i - 5, i), &MAGIC) {
            proof {
                let part = data@.subrange(i - 5, i as int);
                assert(part.take(5) =~= part);
            }
            found = true;
        } else {
            proof {
                if i >= 5 {
                    let part = data@.subrange(i - 5, i as int);
                    assert(part.take(5) =~= part);
                }
            }
            i += 1;
        }
    }
    if !found {
        return Err(Fault::NoHeader);
    }
    if data.len() - i < 4 {
        return Err(Fault::TruncatedHeader);
    }
    let n: u32 = le32_value(slice_subrange(data, i, i + 4));
    if n == 0 || n as usize > PREAMBLE_LIMIT {
        return Err(Fault::HeaderLength(n));
    }
    let from: usize = i + 4;
    if data.len() - from < n as usize {
        return Err(Fault::TruncatedHeader);
    }
    let end: usize = from + n as usize;
    let json = slice_to_vec(slice_subrange(data, from, end));
    Ok(Header { json, end })
}

/// Whether this library reads containers with such a header.
pub open spec fn meta_fault(version: u32, chunk_size: u32) -> Option<Fault> {
    if version != 1 {
        Some(Fault::Version(version))
    } else if chunk_size != CHUNK {
        Some(Fault::ChunkSize(chunk_size))
    } else {
        None
    }
}

/// Refuses a header that belongs to another version of the format.
pub fn check_meta(meta: &Meta) -> (res: Result<(), Fault>)
    ensures
        match meta_fault(meta.version, meta.chunk_size) {
            Some(f) => res matches Err(e) && e == f,
            None => res is Ok,
        },
        res is Ok <==> meta.version == 1 && meta.chunk_size == 1048576,
{
    if meta.version != 1 {
        return Err(Fault::Version(meta.version));
    }
    if meta.chunk_size as usize != CHUNK {
        return Err(Fault::ChunkSize(meta.chunk_size));
    }
    Ok(())
}

/// The associated data of every chunk behind the header `json`.
pub open spec fn aad_of(json: Seq<u8>) -> Seq<u8> {
    crate::primitives::sha256_of(AAD_LABEL.spec_bytes() + json)
}

/// Associated data for every chunk, binding the payload to its header.
pub fn aad(meta_json: &[u8]) -> (res: [u8; 32])
    ensures
        res@ == aad_of(meta_json@),
{
    let mut data: Vec<u8> = Vec::new();
    push_bytes(&mut data, AAD_LABEL.as_bytes());
    push_bytes(&mut data, meta_json);
    assert(data@ =~= AAD_LABEL.spec_bytes() + meta_json@);
    sha256(&data)
}

/// Whether a file that begins with `head` is a container already.
pub fn looks_encrypted(head: &[u8]) -> (yes: bool)
    ensures
        yes == begins_with(head@, BANNER.spec_bytes()),
{
    bytes_begin_with(head, BANNER.as_bytes())
}

// ---------------------------------------------------------------- manifest

/// The longest manifest that is read.
pub const MANIFEST_MAX: usize = 65536;

/// The first record of the stream: the length of the manifest, and the manifest.
pub open spec fn manifest_record(json: Seq<u8>) -> Seq<u8> {
    le32((json.len() % 0x1_0000_0000) as u32) + json
}

/// Writes the first record of the stream. `json` is the manifest.
pub fn write_manifest(json: &[u8]) -> (out: Vec<u8>)
    ensures
        out@ == manifest_record(json@),
{
    let mut out: Vec<u8> = Vec::new();
    let len: u32 = (json.len() as u64 % 0x1_0000_0000) as u32;
    push_bytes(&mut out, &le32_bytes(len));
    push_bytes(&mut out, json);
    assert(out@ =~= manifest_record(json@));
    out
}

/// How long the first record of a stream says the manifest is, or why it cannot
/// be.
pub open spec fn manifest_length(head: Seq<u8>) -> Result<int, Fault> {
    let n = from_le32(head);
    if n == 0 || n > MANIFEST_MAX {
        Err(Fault::ManifestLength(n as u32))
    } else {
        Ok(n)
    }
}

/// Reads the length of the manifest from the first four bytes of the stream. The
/// manifest is as many bytes as it says, right behind them.
pub fn read_manifest(head: &[u8; 4]) -> (res: Result<usize, Fault>)
    ensures
        match manifest_length(head@) {
            Ok(n) => res matches Ok(len) && len == n,
            Err(f) => res matches Err(e) && e == f,
        },
{
    let n: u32 = le32_value(head.as_slice());
    if n == 0 || n as usize > MANIFEST_MAX {
        return Err(Fault::ManifestLength(n));
    }
    Ok(n as usize)
}

// -------------------------------------------------------------------- laws

/// The manifest comes back: its length is read from the record, and behind it
/// stand the manifest and then the contents, whatever they are.
pub proof fn law_manifest_round_trip(json: Seq<u8>, contents: Seq<u8>)
    requires
        0 < json.len() <= MANIFEST_MAX,
    ensures
        ({
            let plain = manifest_record(json) + contents;
            &&& manifest_length(plain.take(4)) == Ok::<_, Fault>(json.len() as int)
            &&& plain.subrange(4, (4 + json.len()) as int) == json
            &&& plain.skip((4 + json.len()) as int) == contents
        }),
{
    lemma_le32(json.len() as u32);
    let plain = manifest_record(json) + contents;
    assert(plain.take(4) =~= le32(json.len() as u32));
    assert(plain.subrange(4, (4 + json.len()) as int) =~= json);
    assert(plain.skip((4 + json.len()) as int) =~= contents);
}

/// The preamble is plain text.
proof fn lemma_preamble()
    ensures
        PREAMBLE@.len() == 112,
        forall|i: int| 0 <= i < PREAMBLE@.len() ==> PREAMBLE@[i] == '\n' || ' ' <= #[trigger] PREAMBLE@[i] <= '~',
{
    reveal_strlit("Encrypted by CryptoSec\nDecrypt with: cryptosec -d <this file>\nGet it at: https://github.com/poezi123/CryptoSec\n\n");
    let s = seq![
        'E', 'n', 'c', 'r', 'y', 'p', 't', 'e', 'd', ' ', 'b', 'y', ' ', 'C', 'r', 'y', 'p', 't', 'o', 'S', 'e', 'c', '\n', 'D', 'e', 'c', 'r', 'y', 'p', 't', ' ', 'w', 'i', 't', 'h', ':', ' ', 'c', 'r', 'y', 'p', 't', 'o', 's', 'e', 'c', ' ', '-', 'd', ' ', '<', 't', 'h', 'i', 's', ' ', 'f', 'i', 'l', 'e', '>', '\n', 'G', 'e', 't', ' ', 'i', 't', ' ', 'a', 't', ':', ' ', 'h', 't', 't', 'p', 's', ':', '/', '/', 'g', 'i', 't', 'h', 'u', 'b', '.', 'c', 'o', 'm', '/', 'p', 'o', 'e', 'z', 'i', '1', '2', '3', '/', 'C', 'r', 'y', 'p', 't', 'o', 'S', 'e', 'c', '\n', '\n'
    ];
    assert(PREAMBLE@ =~= s);
    assert forall|i: int| 0 <= i < s.len() implies s[i] == '\n' || ' ' <= #[trigger] s[i] <= '~' by {}
}

/// The bytes of the preamble are its characters.
proof fn lemma_preamble_bytes()
    ensures
        PREAMBLE.spec_bytes().len() == 112,
        forall|i: int| 0 <= i < 112 ==> #[trigger] PREAMBLE.spec_bytes()[i] != MAGIC@[4],
{
    lemma_preamble();
    assert(is_ascii(PREAMBLE)) by {
        assert forall|i: int| 0 <= i < PREAMBLE@.len() implies 0 <= #[trigger] PREAMBLE@[i] as nat
            <= 127 by {
            assert(PREAMBLE@[i] == '\n' || ' ' <= PREAMBLE@[i] <= '~');
        }
    }
    is_ascii_spec_bytes(PREAMBLE);
    assert forall|i: int| 0 <= i < PREAMBLE@.len() implies #[trigger] PREAMBLE.spec_bytes()[i]
        != MAGIC@[4] by {
        assert(PREAMBLE.spec_bytes()[i] == PREAMBLE@[i] as u8);
        assert(PREAMBLE@[i] == '\n' || ' ' <= PREAMBLE@[i] <= '~');
    }
}

/// The scan goes past every place where the marker does not end.
proof fn lemma_magic_skips(data: Seq<u8>, i: int, end: int)
    requires
        i <= end <= data.len(),
        end <= PREAMBLE_LIMIT + 1,
        forall|j: int| i <= j < end ==> !magic_ends_at(data, j),
    ensures
        magic_from(data, i) == magic_from(data, end),
    decreases end - i,
{
    if i < end {
        assert(!magic_ends_at(data, i));
        lemma_magic_skips(data, i + 1, end);
    }
}

/// What is written comes back: the header of a container is the one that was
/// written, and the stream begins right behind it, whatever it holds.
pub proof fn law_header_round_trip(json: Seq<u8>, stream: Seq<u8>)
    requires
        0 < json.len() <= PREAMBLE_LIMIT,
    ensures
        header_of(header_bytes(json) + stream) == Ok::<_, Fault>(
            (json, header_bytes(json).len() as int),
        ),
{
    lemma_preamble_bytes();
    lemma_le32(json.len() as u32);
    let pre = PREAMBLE.spec_bytes();
    let len = le32((json.len() % 0x1_0000_0000) as u32);
    let data = header_bytes(json) + stream;
    let end = (pre.len() + 5) as int;
    assert(data =~= pre + MAGIC@ + (len + json + stream));
    lemma_first_magic(pre, len + json + stream);
    assert(data.subrange(end, end + 4) =~= len);
    assert(data.subrange(end + 4, end + 4 + json.len()) =~= json);
}

/// Behind bytes that hold no byte 1, the marker is the first one.
proof fn lemma_first_magic(pre: Seq<u8>, rest: Seq<u8>)
    requires
        pre.len() + 5 <= PREAMBLE_LIMIT + 1,
        forall|i: int| 0 <= i < pre.len() ==> #[trigger] pre[i] != MAGIC@[4],
    ensures
        magic_from(pre + MAGIC@ + rest, 1) == Some((pre.len() + 5) as int),
{
    let data = pre + MAGIC@ + rest;
    let end = (pre.len() + 5) as int;
    assert(data.subrange(end - 5, end) =~= MAGIC@);
    assert forall|j: int| 1 <= j < end implies !magic_ends_at(data, j) by {
        if magic_ends_at(data, j) {
            let part = data.subrange(j - 5, j);
            assert(part[4] == data[j - 1]);
            if j - 1 < pre.len() {
                assert(data[j - 1] == pre[j - 1]);
            } else {
                assert(data[j - 1] == MAGIC@[j - 1 - pre.len()]);
            }
        }
    }
    lemma_magic_skips(data, 1, end);
    assert(magic_from(data, end) == Some(end));
}

/// The scan sees only so far.
proof fn lemma_magic_local(data: Seq<u8>, i: int)
    requires
        data.len() >= HEADER_MAX,
        i >= 1,
    ensures
        magic_from(data.take(HEADER_MAX as int), i) == magic_from(data, i),
    decreases PREAMBLE_LIMIT + 2 - i,
{
    if i <= PREAMBLE_LIMIT + 1 {
        let part = data.take(HEADER_MAX as int);
        if i >= 5 {
            assert(part.subrange(i - 5, i) =~= data.subrange(i - 5, i));
        }
        if !magic_ends_at(data, i) {
            lemma_magic_local(data, i + 1);
        }
    }
}

/// What `magic_from` finds lies within the limit.
proof fn lemma_magic_bounds(data: Seq<u8>, i: int)
    ensures
        magic_from(data, i) matches Some(end) ==> i <= end <= PREAMBLE_LIMIT + 1,
    decreases data.len() + 1 - i,
{
    if i <= data.len() && i <= PREAMBLE_LIMIT + 1 && !magic_ends_at(data, i) {
        lemma_magic_bounds(data, i + 1);
    }
}

/// The first `HEADER_MAX` bytes of a container are enough to read its header.
pub proof fn law_header_needs_only_the_beginning(data: Seq<u8>)
    requires
        data.len() >= HEADER_MAX,
    ensures
        header_of(data.take(HEADER_MAX as int)) == header_of(data),
{
    lemma_magic_local(data, 1);
    lemma_magic_bounds(data, 1);
    let part = data.take(HEADER_MAX as int);
    if let Some(i) = magic_from(data, 1) {
        assert(part.subrange(i, i + 4) =~= data.subrange(i, i + 4));
        let n = from_le32(data.subrange(i, i + 4));
        if 0 < n <= PREAMBLE_LIMIT {
            assert(part.subrange(i + 4, i + 4 + n) =~= data.subrange(i + 4, i + 4 + n));
        }
    }
}

/// The readable part is the same in every container: whatever the header and the
/// stream hold, a container begins with the preamble and the marker.
pub proof fn law_every_container_begins_alike(json: Seq<u8>, stream: Seq<u8>)
    ensures
        begins_with(header_bytes(json) + stream, PREAMBLE.spec_bytes() + MAGIC@),
{
    let head = PREAMBLE.spec_bytes() + MAGIC@;
    assert((header_bytes(json) + stream).take(head.len() as int) =~= head);
}

/// Every container begins with the banner, so it is recognised as one.
pub proof fn law_a_container_looks_encrypted(json: Seq<u8>, stream: Seq<u8>)
    ensures
        begins_with(header_bytes(json) + stream, BANNER.spec_bytes()),
{
    lemma_preamble();
    lemma_preamble_bytes();
    reveal_strlit("Encrypted by CryptoSec");
    reveal_strlit("Encrypted by CryptoSec\nDecrypt with: cryptosec -d <this file>\nGet it at: https://github.com/poezi123/CryptoSec\n\n");
    assert(is_ascii(PREAMBLE)) by {
        assert forall|i: int| 0 <= i < PREAMBLE@.len() implies 0 <= #[trigger] PREAMBLE@[i] as nat
            <= 127 by {
            assert(PREAMBLE@[i] == '\n' || ' ' <= PREAMBLE@[i] <= '~');
        }
    }
    is_ascii_spec_bytes(PREAMBLE);
    assert(BANNER@ =~= PREAMBLE@.take(22));
    assert(is_ascii(BANNER));
    is_ascii_spec_bytes(BANNER);
    let data = header_bytes(json) + stream;
    assert(data.take(22) =~= PREAMBLE.spec_bytes().take(22));
    assert(data.take(22) =~= BANNER.spec_bytes());
}

/// The sizes of the format: chunks of 1 MiB with a tag of 16 bytes, a header of at
/// most 8 KiB that begins within as many bytes, and a manifest of at most 64 KiB.
pub proof fn law_sizes_of_the_format()
    ensures
        CHUNK == 1024 * 1024,
        TAG == 16,
        SEALED_CHUNK == CHUNK + TAG,
        PREAMBLE_LIMIT == 8 * 1024,
        HEADER_MAX == (PREAMBLE_LIMIT + 1) + 4 + PREAMBLE_LIMIT,
        MANIFEST_MAX == 64 * 1024,
        MAGIC@ == seq![67u8, 83, 69, 67, 1],
{
    assert(MAGIC@ =~= seq![67u8, 83, 69, 67, 1]);
}

/// A container up to its first chunk is laid out as the preamble, the marker, the
/// length of the header with its least significant byte first, and the header, and
/// nothing else.
pub proof fn law_header_layout(json: Seq<u8>)
    requires
        json.len() <= u32::MAX,
    ensures
        ({
            let h = header_bytes(json);
            let n = PREAMBLE.spec_bytes().len() as int;
            &&& h.len() == n + 9 + json.len()
            &&& h.take(n) == PREAMBLE.spec_bytes()
            &&& h.subrange(n, n + 5) == seq![67u8, 83, 69, 67, 1]
            &&& h[n + 5] + 256 * h[n + 6] + 65536 * h[n + 7] + 16777216 * h[n + 8] == json.len()
            &&& h.skip(n + 9) == json
        }),
{
    let h = header_bytes(json);
    let n = PREAMBLE.spec_bytes().len() as int;
    let len = le32((json.len() % 0x1_0000_0000) as u32);
    lemma_le32(json.len() as u32);
    assert(MAGIC@ =~= seq![67u8, 83, 69, 67, 1]);
    assert(h.take(n) =~= PREAMBLE.spec_bytes());
    assert(h.subrange(n, n + 5) =~= seq![67u8, 83, 69, 67, 1]);
    assert(h[n + 5] == len[0] && h[n + 6] == len[1] && h[n + 7] == len[2] && h[n + 8] == len[3]);
    assert(h.skip(n + 9) =~= json);
}

/// What `magic_from` finds is the end of the first marker, and it finds nothing
/// only where none ends within the limit.
proof fn lemma_magic_is_first(data: Seq<u8>, i: int)
    requires
        i >= 1,
    ensures
        match magic_from(data, i) {
            Some(end) => i <= end <= data.len() && end <= PREAMBLE_LIMIT + 1 && magic_ends_at(
                data,
                end,
            ) && forall|j: int| i <= j < end ==> !magic_ends_at(data, j),
            None => forall|j: int|
                i <= j <= data.len() && j <= PREAMBLE_LIMIT + 1 ==> !magic_ends_at(data, j),
        },
    decreases data.len() + 1 - i,
{
    if i <= data.len() && i <= PREAMBLE_LIMIT + 1 && !magic_ends_at(data, i) {
        lemma_magic_is_first(data, i + 1);
    }
}

/// Whether the five bytes of the marker stand at a place.
pub open spec fn marked_at(data: Seq<u8>, at: int) -> bool {
    &&& 0 <= at
    &&& at + 5 <= data.len()
    &&& data[at] == 67 && data[at + 1] == 83 && data[at + 2] == 69 && data[at + 3] == 67 && data[at
        + 4] == 1
}

/// The header is looked for behind the first marker, wherever within the first
/// 8 KiB that is, and whatever stands in front of it: four bytes give its length,
/// the least significant one first, and it follows. A length of nothing or of more
/// than 8 KiB is refused, and so is a header that the data does not hold whole.
pub proof fn law_header_is_found_behind_the_marker(data: Seq<u8>, at: int)
    requires
        marked_at(data, at),
        at + 5 <= 8193,
        forall|j: int| 0 <= j < at ==> !#[trigger] marked_at(data, j),
    ensures
        ({
            let n = data[at + 5] + 256 * data[at + 6] + 65536 * data[at + 7] + 16777216 * data[at
                + 8];
            &&& data.len() < at + 9 ==> header_of(data) == Err::<(Seq<u8>, int), _>(
                Fault::TruncatedHeader,
            )
            &&& data.len() >= at + 9 && (n == 0 || n > 8192) ==> header_of(data) == Err::<
                (Seq<u8>, int),
                _,
            >(Fault::HeaderLength(n as u32))
            &&& data.len() >= at + 9 && 0 < n <= 8192 && data.len() < at + 9 + n ==> header_of(data)
                == Err::<(Seq<u8>, int), _>(Fault::TruncatedHeader)
            &&& data.len() >= at + 9 && 0 < n <= 8192 && data.len() >= at + 9 + n ==> header_of(
                data,
            ) == Ok::<_, Fault>((data.subrange(at + 9, at + 9 + n), at + 9 + n))
        }),
{
    let end = at + 5;
    assert(data.subrange(end - 5, end) =~= MAGIC@);
    assert(magic_ends_at(data, end));
    assert forall|j: int| 1 <= j < end implies !magic_ends_at(data, j) by {
        if magic_ends_at(data, j) {
            let part = data.subrange(j - 5, j);
            assert(part[0] == MAGIC@[0] && part[1] == MAGIC@[1] && part[2] == MAGIC@[2] && part[3]
                == MAGIC@[3] && part[4] == MAGIC@[4]);
            assert(marked_at(data, j - 5));
        }
    }
    lemma_magic_skips(data, 1, end);
    assert(magic_from(data, end) == Some(end));
    if data.len() >= end + 4 {
        let part = data.subrange(end, end + 4);
        assert(part[0] == data[end] && part[1] == data[end + 1] && part[2] == data[end + 2]
            && part[3] == data[end + 3]);
    }
}

/// Where no marker stands within the first 8 KiB there is no header, whatever else
/// the data holds.
pub proof fn law_no_marker_no_header(data: Seq<u8>)
    requires
        forall|j: int| 0 <= j && j + 5 <= 8193 ==> !#[trigger] marked_at(data, j),
    ensures
        header_of(data) == Err::<(Seq<u8>, int), _>(Fault::NoHeader),
{
    lemma_magic_is_first(data, 1);
    if let Some(end) = magic_from(data, 1) {
        let part = data.subrange(end - 5, end);
        assert(part[0] == MAGIC@[0] && part[1] == MAGIC@[1] && part[2] == MAGIC@[2] && part[3]
            == MAGIC@[3] && part[4] == MAGIC@[4]);
        assert(marked_at(data, end - 5));
    }
}

/// Exactly the headers of this version with chunks of 1 MiB are read, and the
/// version is looked at first.
pub proof fn law_which_headers_are_read(version: u32, chunk_size: u32)
    ensures
        meta_fault(version, chunk_size) is None <==> version == 1 && chunk_size == 1048576,
        version != 1 ==> meta_fault(version, chunk_size) == Some(Fault::Version(version)),
        version == 1 && chunk_size != 1048576 ==> meta_fault(version, chunk_size) == Some(
            Fault::ChunkSize(chunk_size),
        ),
{
}

/// The associated data of a stream is the digest of a label and the header, so that
/// headers with different digests do not share it.
pub proof fn law_stream_is_bound_to_its_header(json: Seq<u8>)
    ensures
        aad_of(json) == crate::primitives::sha256_of("cryptosec/v1".spec_bytes() + json),
{
}

/// The record of a manifest is its length, with the least significant byte first,
/// and the manifest. A length of nothing or of more than 64 KiB is refused, and
/// every other is taken.
pub proof fn law_manifest_layout(json: Seq<u8>, head: Seq<u8>)
    requires
        json.len() <= u32::MAX,
        head.len() == 4,
    ensures
        ({
            let r = manifest_record(json);
            &&& r.len() == 4 + json.len()
            &&& r[0] + 256 * r[1] + 65536 * r[2] + 16777216 * r[3] == json.len()
            &&& r.skip(4) == json
        }),
        ({
            let n = head[0] + 256 * head[1] + 65536 * head[2] + 16777216 * head[3];
            if n == 0 || n > 65536 {
                manifest_length(head) == Err::<int, _>(Fault::ManifestLength(n as u32))
            } else {
                manifest_length(head) == Ok::<_, Fault>(n)
            }
        }),
{
    lemma_le32(json.len() as u32);
    assert(manifest_record(json).skip(4) =~= json);
}

/// A container says for which key its data key is wrapped, exactly where it is
/// wrapped for one, and what is shown of it ends with that.
pub proof fn law_recipient_shows_its_key(r: Recipient)
    ensures
        recipient_fingerprint(r) is None <==> r is Password,
        r matches Recipient::Rsa { fingerprint, .. } ==> recipient_fingerprint(r) == Some(
            fingerprint@,
        ) && recipient_label(r) == "RSA-4096 key "@ + fingerprint@,
        r matches Recipient::X25519 { fingerprint, .. } ==> recipient_fingerprint(r) == Some(
            fingerprint@,
        ) && recipient_label(r) == "X25519 key "@ + fingerprint@,
        r matches Recipient::MlKem { fingerprint, .. } ==> recipient_fingerprint(r) == Some(
            fingerprint@,
        ) && recipient_label(r) == "ML-KEM-768 key "@ + fingerprint@,
        r matches Recipient::Password { kdf, .. } ==> recipient_label(r) == "password ("@ + kdf@
            + ")"@,
{
}

} // verus!
