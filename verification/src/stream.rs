//! The encrypted payload stream: chunks of a fixed size, each under its own
//! nonce. The nonce of the final chunk carries a flag, so a stream that was cut
//! short is detected instead of silently accepted.
use crate::fault::Fault;
use crate::format::{Cipher, CHUNK, SEALED_CHUNK, TAG};
use crate::primitives::{aes_open, aes_seal, chacha_open, chacha_seal};
use crate::text::{begins_with, ends_with};
use vstd::prelude::*;

verus! {

// ------------------------------------------------------------------- model

/// Everything that decides what a stream looks like: the cipher, its key, the
/// nonce prefix, the associated data and the number of the next chunk.
pub struct SealerView {
    pub cipher: Cipher,
    pub key: Seq<u8>,
    pub prefix: Seq<u8>,
    pub aad: Seq<u8>,
    pub counter: u32,
}

/// A number as four bytes, the most significant one first.
pub open spec fn be32(n: u32) -> Seq<u8> {
    seq![
        (n / 0x100_0000) as u8,
        ((n / 0x1_0000) % 0x100) as u8,
        ((n / 0x100) % 0x100) as u8,
        (n % 0x100) as u8,
    ]
}

/// The number after `n`, going round at the end.
pub open spec fn next_counter(n: u32) -> u32 {
    if n == u32::MAX {
        0
    } else {
        (n + 1) as u32
    }
}

impl SealerView {
    /// The nonce of the next chunk: prefix, number, and whether it is the last.
    pub open spec fn nonce(self, last: bool) -> Seq<u8> {
        self.prefix + be32(self.counter) + seq![
            if last {
                1u8
            } else {
                0u8
            },
        ]
    }

    /// The same stream, one chunk further.
    pub open spec fn next(self) -> SealerView {
        SealerView { counter: next_counter(self.counter), ..self }
    }

    /// What the cipher makes of `plain` as the next chunk.
    pub open spec fn sealed(self, plain: Seq<u8>, last: bool) -> Seq<u8> {
        match self.cipher {
            Cipher::Aes256Gcm => crate::primitives::aes_sealed(
                self.key,
                self.nonce(last),
                self.aad,
                plain,
            ),
            Cipher::ChaCha20Poly1305 => crate::primitives::chacha_sealed(
                self.key,
                self.nonce(last),
                self.aad,
                plain,
            ),
        }
    }

    /// What the cipher reads out of `ct` as the next chunk.
    pub open spec fn opened(self, ct: Seq<u8>, last: bool) -> Option<Seq<u8>> {
        match self.cipher {
            Cipher::Aes256Gcm => crate::primitives::aes_opened(
                self.key,
                self.nonce(last),
                self.aad,
                ct,
            ),
            Cipher::ChaCha20Poly1305 => crate::primitives::chacha_opened(
                self.key,
                self.nonce(last),
                self.aad,
                ct,
            ),
        }
    }
}

/// The stream that holds `plain`: as many full chunks as there are, then one
/// final chunk with what is left, which may be nothing.
pub open spec fn stream_seal(v: SealerView, plain: Seq<u8>) -> Seq<u8>
    decreases plain.len(),
{
    if plain.len() < CHUNK {
        v.sealed(plain, true)
    } else {
        v.sealed(plain.subrange(0, CHUNK as int), false) + stream_seal(
            v.next(),
            plain.subrange(CHUNK as int, plain.len() as int),
        )
    }
}

/// Why a stream does not open.
pub enum StreamFault {
    EndsEarly,
    AuthenticationFailed,
}

/// What a stream opens to. A chunk that is shorter than a full one is the final
/// one; without it the stream ends early.
pub open spec fn stream_open(v: SealerView, ct: Seq<u8>) -> Result<Seq<u8>, StreamFault>
    decreases ct.len(),
{
    if ct.len() == 0 {
        Err(StreamFault::EndsEarly)
    } else if ct.len() < SEALED_CHUNK {
        match v.opened(ct, true) {
            Some(p) => Ok(p),
            None => Err(StreamFault::AuthenticationFailed),
        }
    } else {
        match v.opened(ct.subrange(0, SEALED_CHUNK as int), false) {
            Some(p) => match stream_open(
                v.next(),
                ct.subrange(SEALED_CHUNK as int, ct.len() as int),
            ) {
                Ok(q) => Ok(p + q),
                Err(e) => Err(e),
            },
            None => Err(StreamFault::AuthenticationFailed),
        }
    }
}

/// What comes out of a stream before anything in it is refused.
pub open spec fn came_out(v: SealerView, ct: Seq<u8>) -> Seq<u8>
    decreases ct.len(),
{
    if ct.len() == 0 {
        Seq::empty()
    } else if ct.len() < SEALED_CHUNK {
        match v.opened(ct, true) {
            Some(p) => p,
            None => Seq::empty(),
        }
    } else {
        match v.opened(ct.subrange(0, SEALED_CHUNK as int), false) {
            Some(p) => p + came_out(v.next(), ct.subrange(SEALED_CHUNK as int, ct.len() as int)),
            None => Seq::empty(),
        }
    }
}

/// Whether a chunk, once it is encrypted, is longer by its tag and opens to what
/// it was.
pub open spec fn sound_chunk(v: SealerView, plain: Seq<u8>, last: bool) -> bool {
    &&& v.sealed(plain, last).len() == plain.len() + TAG
    &&& v.opened(v.sealed(plain, last), last) == Some(plain)
}

/// Whether every chunk of the stream that holds `plain` opens to what it was.
pub open spec fn sound(v: SealerView, plain: Seq<u8>) -> bool
    decreases plain.len(),
{
    if plain.len() < CHUNK {
        sound_chunk(v, plain, true)
    } else {
        &&& sound_chunk(v, plain.subrange(0, CHUNK as int), false)
        &&& sound(v.next(), plain.subrange(CHUNK as int, plain.len() as int))
    }
}

/// A stretch of plaintext put in front of what the rest opens to.
pub open spec fn prepend(
    plain: Seq<u8>,
    rest: Result<Seq<u8>, StreamFault>,
) -> Result<Seq<u8>, StreamFault> {
    match rest {
        Ok(q) => Ok(plain + q),
        Err(e) => Err(e),
    }
}

/// Whether `ct` is the stretch of stream that takes a sealer from `from` to
/// `to` and carries `plain`: whatever follows, the stream is `ct` and then the
/// rest, it opens to `plain` and then what the rest opens to, it gives `plain` and
/// then what the rest gives, and its chunks open to what they were where those of
/// the rest do.
pub open spec fn span(from: SealerView, to: SealerView, plain: Seq<u8>, ct: Seq<u8>) -> bool {
    &&& forall|t: Seq<u8>| stream_seal(from, plain + t) == ct + #[trigger] stream_seal(to, t)
    &&& forall|t: Seq<u8>|
        stream_open(from, ct + t) == prepend(plain, #[trigger] stream_open(to, t))
    &&& forall|t: Seq<u8>| came_out(from, ct + t) == plain + #[trigger] came_out(to, t)
    &&& forall|t: Seq<u8>| #[trigger] sound(to, t) ==> sound(from, plain + t)
}

/// Nothing carries nothing.
proof fn lemma_span_empty(v: SealerView)
    ensures
        span(v, v, Seq::empty(), Seq::empty()),
{
    assert forall|t: Seq<u8>|
        stream_seal(v, Seq::empty() + t) == Seq::<u8>::empty() + #[trigger] stream_seal(v, t) by {
        assert(Seq::empty() + t =~= t);
        assert(Seq::empty() + stream_seal(v, t) =~= stream_seal(v, t));
    }
    assert forall|t: Seq<u8>|
        stream_open(v, Seq::empty() + t) == prepend(
            Seq::empty(),
            #[trigger] stream_open(v, t),
        ) by {
        assert(Seq::empty() + t =~= t);
        if let Ok(q) = stream_open(v, t) {
            assert(Seq::empty() + q =~= q);
        }
    }
    assert forall|t: Seq<u8>|
        came_out(v, Seq::empty() + t) == Seq::<u8>::empty() + #[trigger] came_out(v, t) by {
        assert(Seq::empty() + t =~= t);
        assert(Seq::empty() + came_out(v, t) =~= came_out(v, t));
    }
    assert forall|t: Seq<u8>| #[trigger] sound(v, t) implies sound(v, Seq::empty() + t) by {
        assert(Seq::empty() + t =~= t);
    }
}

/// A full chunk carries its plaintext.
proof fn lemma_span_chunk(v: SealerView, plain: Seq<u8>, ct: Seq<u8>)
    requires
        plain.len() == CHUNK,
        ct.len() == SEALED_CHUNK,
        v.sealed(plain, false) == ct,
        v.opened(ct, false) == Some(plain),
    ensures
        span(v, v.next(), plain, ct),
{
    assert forall|t: Seq<u8>|
        stream_seal(v, plain + t) == ct + #[trigger] stream_seal(v.next(), t) by {
        let all = plain + t;
        assert(all.subrange(0, CHUNK as int) =~= plain);
        assert(all.subrange(CHUNK as int, all.len() as int) =~= t);
    }
    assert forall|t: Seq<u8>|
        stream_open(v, ct + t) == prepend(plain, #[trigger] stream_open(v.next(), t)) by {
        let all = ct + t;
        assert(all.subrange(0, SEALED_CHUNK as int) =~= ct);
        assert(all.subrange(SEALED_CHUNK as int, all.len() as int) =~= t);
    }
    assert forall|t: Seq<u8>|
        came_out(v, ct + t) == plain + #[trigger] came_out(v.next(), t) by {
        let all = ct + t;
        assert(all.subrange(0, SEALED_CHUNK as int) =~= ct);
        assert(all.subrange(SEALED_CHUNK as int, all.len() as int) =~= t);
    }
    assert forall|t: Seq<u8>| #[trigger] sound(v.next(), t) implies sound(v, plain + t) by {
        let all = plain + t;
        assert(all.subrange(0, CHUNK as int) =~= plain);
        assert(all.subrange(CHUNK as int, all.len() as int) =~= t);
    }
}

/// Two stretches, one after the other, are a stretch.
proof fn lemma_span_join(
    a: SealerView,
    b: SealerView,
    c: SealerView,
    p1: Seq<u8>,
    c1: Seq<u8>,
    p2: Seq<u8>,
    c2: Seq<u8>,
)
    requires
        span(a, b, p1, c1),
        span(b, c, p2, c2),
    ensures
        span(a, c, p1 + p2, c1 + c2),
{
    assert forall|t: Seq<u8>|
        stream_seal(a, p1 + p2 + t) == c1 + c2 + #[trigger] stream_seal(c, t) by {
        assert(stream_seal(b, p2 + t) == c2 + stream_seal(c, t));
        assert(p1 + p2 + t =~= p1 + (p2 + t));
        assert(c1 + c2 + stream_seal(c, t) =~= c1 + (c2 + stream_seal(c, t)));
    }
    assert forall|t: Seq<u8>|
        stream_open(a, c1 + c2 + t) == prepend(p1 + p2, #[trigger] stream_open(c, t)) by {
        assert(stream_open(b, c2 + t) == prepend(p2, stream_open(c, t)));
        assert(c1 + c2 + t =~= c1 + (c2 + t));
        if let Ok(q) = stream_open(c, t) {
            assert(p1 + p2 + q =~= p1 + (p2 + q));
        }
    }
    assert forall|t: Seq<u8>|
        came_out(a, c1 + c2 + t) == p1 + p2 + #[trigger] came_out(c, t) by {
        assert(came_out(b, c2 + t) == p2 + came_out(c, t));
        assert(c1 + c2 + t =~= c1 + (c2 + t));
        assert(p1 + p2 + came_out(c, t) =~= p1 + (p2 + came_out(c, t)));
    }
    assert forall|t: Seq<u8>| #[trigger] sound(c, t) implies sound(a, p1 + p2 + t) by {
        assert(sound(b, p2 + t));
        assert(p1 + p2 + t =~= p1 + (p2 + t));
    }
}

// ------------------------------------------------------------------ sealer

/// Encrypts and decrypts single chunks and counts them.
pub struct Sealer {
    cipher: Cipher,
    key: [u8; 32],
    prefix: [u8; 7],
    aad: [u8; 32],
    counter: u32,
}

impl View for Sealer {
    type V = SealerView;

    closed spec fn view(&self) -> SealerView {
        SealerView {
            cipher: self.cipher,
            key: self.key@,
            prefix: self.prefix@,
            aad: self.aad@,
            counter: self.counter,
        }
    }
}

impl Sealer {
    /// A sealer before its first chunk.
    pub fn new(cipher: Cipher, key: &[u8; 32], prefix: [u8; 7], aad: [u8; 32]) -> (sealer: Sealer)
        ensures
            sealer@ == (SealerView {
                cipher,
                key: key@,
                prefix: prefix@,
                aad: aad@,
                counter: 0,
            }),
    {
        Sealer { cipher, key: *key, prefix, aad, counter: 0 }
    }

    /// The nonce of the next chunk.
    pub fn nonce(&self, last: bool) -> (nonce: [u8; 12])
        ensures
            nonce@ == self@.nonce(last),
    {
        let c: u32 = self.counter;
        let p: [u8; 7] = self.prefix;
        let flag: u8 = if last {
            1
        } else {
            0
        };
        let nonce = [
            p[0],
            p[1],
            p[2],
            p[3],
            p[4],
            p[5],
            p[6],
            (c / 0x100_0000) as u8,
            ((c / 0x1_0000) % 0x100) as u8,
            ((c / 0x100) % 0x100) as u8,
            (c % 0x100) as u8,
            flag,
        ];
        assert(nonce@ =~= self@.nonce(last));
        nonce
    }

    /// Encrypts the next chunk.
    pub fn seal(&mut self, plain: &[u8], last: bool) -> (res: Result<Vec<u8>, Fault>)
        requires
            plain@.len() <= CHUNK,
        ensures
            final(self)@ == old(self)@.next(),
            res is Ok,
            res matches Ok(ct) ==> ct@ == old(self)@.sealed(plain@, last),
            res matches Ok(ct) ==> ct@.len() == plain@.len() + TAG,
            res matches Ok(ct) ==> old(self)@.opened(ct@, last) == Some(plain@),
    {
        let nonce = self.nonce(last);
        let out = match self.cipher {
            Cipher::Aes256Gcm => aes_seal(&self.key, &nonce, &self.aad, plain),
            Cipher::ChaCha20Poly1305 => chacha_seal(&self.key, &nonce, &self.aad, plain),
        };
        self.counter = self.counter.wrapping_add(1);
        match out {
            Ok(ct) => Ok(ct),
            Err(_) => Err(Fault::EncryptionFailed),
        }
    }

    /// Decrypts the next chunk.
    pub fn open(&mut self, ct: &[u8], last: bool) -> (res: Result<Vec<u8>, Fault>)
        requires
            ct@.len() <= SEALED_CHUNK,
        ensures
            final(self)@ == old(self)@.next(),
            match res {
                Ok(plain) => old(self)@.opened(ct@, last) == Some(plain@),
                Err(e) => e is AuthenticationFailed && old(self)@.opened(ct@, last) is None,
            },
            res matches Ok(plain) ==> plain@.len() + TAG == ct@.len(),
            res matches Ok(plain) ==> old(self)@.sealed(plain@, last) == ct@,
    {
        let nonce = self.nonce(last);
        let out = match self.cipher {
            Cipher::Aes256Gcm => aes_open(&self.key, &nonce, &self.aad, ct),
            Cipher::ChaCha20Poly1305 => chacha_open(&self.key, &nonce, &self.aad, ct),
        };
        self.counter = self.counter.wrapping_add(1);
        match out {
            Ok(plain) => Ok(plain),
            Err(_) => Err(Fault::AuthenticationFailed),
        }
    }
}

// ------------------------------------------------------------------ writer

/// Encrypts a stream as it is written, chunk by chunk. What it hands back is to
/// be written to the container in that order.
pub struct EncWriter {
    sealer: Sealer,
    buf: Vec<u8>,
    start: Ghost<SealerView>,
    sealed: Ghost<Seq<u8>>,
    given: Ghost<Seq<u8>>,
}

impl EncWriter {
    #[verifier::type_invariant]
    spec fn inv(self) -> bool {
        let full = self.sealed@.len() / CHUNK as nat;
        &&& self.buf@.len() < CHUNK
        &&& self.sealed@.len() == full * CHUNK
        &&& self.given@.len() == full * SEALED_CHUNK
        &&& span(self.start@, self.sealer@, self.sealed@, self.given@)
    }

    /// The sealer that the stream began with.
    pub closed spec fn start(self) -> SealerView {
        self.start@
    }

    /// Everything that has been written so far.
    pub closed spec fn taken(self) -> Seq<u8> {
        self.sealed@ + self.buf@
    }

    /// Everything that has been handed back so far.
    pub closed spec fn given(self) -> Seq<u8> {
        self.given@
    }

    /// A writer that nothing was written to yet.
    pub fn new(sealer: Sealer) -> (w: EncWriter)
        ensures
            w.start() == sealer@,
            w.taken() == Seq::<u8>::empty(),
            w.given() == Seq::<u8>::empty(),
    {
        proof {
            lemma_span_empty(sealer@);
        }
        let w = EncWriter {
            start: Ghost(sealer@),
            sealer,
            buf: Vec::new(),
            sealed: Ghost(Seq::empty()),
            given: Ghost(Seq::empty()),
        };
        assert(w.taken() =~= Seq::empty());
        w
    }

    /// Seals every full chunk at the front of `buf`, and leaves the rest in it.
    fn flush_full(sealer: &mut Sealer, buf: &mut Vec<u8>) -> (res: Result<Vec<u8>, Fault>)
        ensures
            res is Ok,
            final(buf)@.len() < CHUNK,
            ({
                let full = old(buf)@.len() / CHUNK as nat;
                let done = full * CHUNK;
                &&& res->Ok_0@.len() == full * SEALED_CHUNK
                &&& final(buf)@ == old(buf)@.subrange(done, old(buf)@.len() as int)
                &&& span(
                    old(sealer)@,
                    final(sealer)@,
                    old(buf)@.subrange(0, done),
                    res->Ok_0@,
                )
            }),
    {
        let mut out: Vec<u8> = Vec::new();
        let ghost all = buf@;
        let ghost first = sealer@;
        let ghost mut done: Seq<u8> = Seq::empty();
        let ghost mut full: nat = 0;
        proof {
            lemma_span_empty(first);
        }
        while buf.len() >= CHUNK
            invariant
                span(first, sealer@, done, out@),
                all == done + buf@,
                done.len() == full * CHUNK,
                out@.len() == full * SEALED_CHUNK,
            decreases buf@.len(),
        {
            let rest = buf.split_off(CHUNK);
            let ghost before = sealer@;
            let ghost chunk = buf@;
            let ct = match sealer.seal(buf, false) {
                Ok(ct) => ct,
                Err(e) => {
                    return Err(e);
                },
            };
            proof {
                lemma_span_chunk(before, chunk, ct@);
                lemma_span_join(first, before, sealer@, done, out@, chunk, ct@);
                done = done + chunk;
                full = full + 1;
            }
            let ghost so_far = out@;
            out.extend_from_slice(&ct);
            assert(out@ =~= so_far + ct@);
            *buf = rest;
            assert(all =~= done + buf@);
        }
        assert(done =~= all.subrange(0, all.len() - buf@.len()));
        Ok(out)
    }

    /// Takes `data` in, and hands back the chunks that became full.
    pub fn write(&mut self, data: &[u8]) -> (res: Result<Vec<u8>, Fault>)
        ensures
            res is Ok,
            final(self).start() == old(self).start(),
            final(self).taken() == old(self).taken() + data@,
            final(self).given() == old(self).given() + res->Ok_0@,
            final(self).given() == stream_seal(final(self).start(), final(self).taken()).take(
                (final(self).taken().len() / CHUNK as nat) * SEALED_CHUNK,
            ),
    {
        let mut whole = EncWriter::new(
            Sealer::new(Cipher::Aes256Gcm, &[0u8; 32], [0u8; 7], [0u8; 32]),
        );
        std::mem::swap(self, &mut whole);
        proof {
            use_type_invariant(&whole);
        }
        let EncWriter { mut sealer, mut buf, start, sealed, given } = whole;
        let ghost before = sealer@;
        buf.extend_from_slice(data);
        let ghost all = buf@;
        let res = EncWriter::flush_full(&mut sealer, &mut buf);
        let ghost out = res->Ok_0@;
        let ghost done = all.subrange(0, (all.len() / CHUNK as nat) * CHUNK);
        proof {
            lemma_span_join(start@, before, sealer@, sealed@, given@, done, out);
        }
        *self = EncWriter {
            sealer,
            buf,
            start,
            sealed: Ghost(sealed@ + done),
            given: Ghost(given@ + out),
        };
        assert(self.taken() =~= old(self).taken() + data@);
        proof {
            let rest = stream_seal(self.sealer@, self.buf@);
            assert(self.given@ =~= (self.given@ + rest).take(self.given@.len() as int));
        }
        res
    }

    /// Ends the stream: seals what is left as the final chunk.
    ///
    /// All that was handed back, this chunk included, is the stream that holds
    /// all that was written, and opens to it, chunk by chunk.
    pub fn finish(self) -> (res: Result<Vec<u8>, Fault>)
        ensures
            res is Ok,
            self.given() + res->Ok_0@ == stream_seal(self.start(), self.taken()),
            stream_open(self.start(), self.given() + res->Ok_0@) == Ok::<_, StreamFault>(
                self.taken(),
            ),
            sound(self.start(), self.taken()),
            (self.given() + res->Ok_0@).len() == self.taken().len() + (self.taken().len()
                / CHUNK as nat + 1) * TAG,
    {
        proof {
            use_type_invariant(&self);
        }
        let EncWriter { mut sealer, buf, start, sealed, given } = self;
        let ghost before = sealer@;
        let res = sealer.seal(&buf, true);
        proof {
            let ct = res->Ok_0@;
            assert(stream_seal(before, buf@) == ct);
            assert(stream_open(before, ct) == Ok::<_, StreamFault>(buf@));
            assert(sound(before, buf@));
        }
        res
    }
}

// ------------------------------------------------------------------ reader

/// Decrypts a stream chunk by chunk. It is handed the encrypted chunks, and
/// hands out the plaintext in pieces of any size.
pub struct DecReader {
    sealer: Sealer,
    plain: Vec<u8>,
    pos: usize,
    done: bool,
    start: Ghost<SealerView>,
    consumed: Ghost<Seq<u8>>,
    opened: Ghost<Seq<u8>>,
    intact: Ghost<bool>,
}

impl DecReader {
    #[verifier::type_invariant]
    spec fn inv(self) -> bool {
        &&& self.pos <= self.plain@.len()
        &&& ends_with(
            self.opened@,
            self.plain@.subrange(self.pos as int, self.plain@.len() as int),
        )
        &&& self.intact@ ==> self.in_step()
    }

    /// Whether what was consumed and what came out of it belong together: they
    /// are a stretch of stream that leads to where the sealer is, or the whole
    /// stream once its final chunk has been opened.
    pub open spec fn in_step(self) -> bool {
        &&& self.left().len() <= self.opened().len()
        &&& !self.done() ==> span(self.start(), self.sealer(), self.opened(), self.consumed())
        &&& self.done() ==> stream_seal(self.start(), self.opened()) == self.consumed()
        &&& self.done() ==> stream_open(self.start(), self.consumed()) == Ok::<_, StreamFault>(
            self.opened(),
        )
        &&& self.done() ==> came_out(self.start(), self.consumed()) == self.opened()
    }

    /// The sealer that opens the next chunk.
    pub closed spec fn sealer(self) -> SealerView {
        self.sealer@
    }

    /// What was decrypted and not handed out yet.
    pub closed spec fn left(self) -> Seq<u8> {
        self.plain@.subrange(self.pos as int, self.plain@.len() as int)
    }

    /// Whether the final chunk has been opened.
    pub closed spec fn done(self) -> bool {
        self.done
    }

    /// The sealer that the stream began with.
    pub closed spec fn start(self) -> SealerView {
        self.start@
    }

    /// All the chunks that were opened.
    pub closed spec fn consumed(self) -> Seq<u8> {
        self.consumed@
    }

    /// All the plaintext that came out of them.
    pub closed spec fn opened(self) -> Seq<u8> {
        self.opened@
    }

    /// All the plaintext that was handed out: what was decrypted, but for what is
    /// left.
    pub open spec fn handed(self) -> Seq<u8> {
        self.opened().take(self.opened().len() - self.left().len())
    }

    /// Whether no chunk was refused so far.
    pub closed spec fn intact(self) -> bool {
        self.intact@
    }

    /// A reader before its first chunk.
    pub fn new(sealer: Sealer) -> (r: DecReader)
        ensures
            r.sealer() == sealer@,
            r.start() == sealer@,
            r.left() == Seq::<u8>::empty(),
            r.consumed() == Seq::<u8>::empty(),
            r.opened() == Seq::<u8>::empty(),
            r.handed() == Seq::<u8>::empty(),
            r.intact(),
            r.in_step(),
            !r.done(),
    {
        proof {
            lemma_span_empty(sealer@);
        }
        let r = DecReader {
            start: Ghost(sealer@),
            sealer,
            plain: Vec::new(),
            pos: 0,
            done: false,
            consumed: Ghost(Seq::empty()),
            opened: Ghost(Seq::empty()),
            intact: Ghost(true),
        };
        assert(r.left() =~= Seq::empty());
        assert(r.handed() =~= Seq::empty());
        r
    }

    /// Whether everything decrypted was handed out and there is more to come.
    pub fn wants_chunk(&self) -> (wants: bool)
        ensures
            wants == (self.left().len() == 0 && !self.done()),
    {
        proof {
            use_type_invariant(self);
        }
        self.pos == self.plain.len() && !self.done
    }

    /// Takes in the next chunk: as many bytes as the container still has, up to
    /// a full encrypted chunk. `extra` is how many bytes one more attempt to
    /// read gave after a chunk that was not full.
    pub fn fill(&mut self, ct: &[u8], extra: usize) -> (res: Result<(), Fault>)
        requires
            ct@.len() <= SEALED_CHUNK,
            old(self).left().len() == 0,
            !old(self).done(),
        ensures
            final(self).start() == old(self).start(),
            final(self).intact() == (old(self).intact() && res is Ok),
            final(self).intact() ==> final(self).in_step(),
            final(self).handed() == old(self).handed(),
            ({
                let last = ct@.len() < SEALED_CHUNK;
                if ct@.len() == 0 {
                    &&& res matches Err(e) && e is EndsEarly
                    &&& final(self).sealer() == old(self).sealer()
                    &&& final(self).left().len() == 0
                    &&& !final(self).done()
                    &&& final(self).consumed() == old(self).consumed()
                    &&& final(self).opened() == old(self).opened()
                } else {
                    &&& final(self).sealer() == old(self).sealer().next()
                    &&& match old(self).sealer().opened(ct@, last) {
                        None => {
                            &&& res matches Err(e) && e is AuthenticationFailed
                            &&& final(self).left().len() == 0
                            &&& !final(self).done()
                            &&& final(self).consumed() == old(self).consumed()
                            &&& final(self).opened() == old(self).opened()
                        },
                        Some(p) => {
                            &&& res is Ok <==> !(last && extra != 0)
                            &&& res matches Err(e) ==> e is TrailingData
                            &&& final(self).left() == p
                            &&& final(self).done() == last
                            &&& final(self).consumed() == old(self).consumed() + ct@
                            &&& final(self).opened() == old(self).opened() + p
                        },
                    }
                }
            }),
            old(self).intact() ==> (res matches Err(Fault::EndsEarly) ==> stream_open(
                old(self).start(),
                old(self).consumed(),
            ) == Err::<Seq<u8>, StreamFault>(StreamFault::EndsEarly)),
            old(self).intact() ==> (res matches Err(Fault::AuthenticationFailed) ==> forall|
                more: Seq<u8>,
            |
                ct@.len() == SEALED_CHUNK || more.len() == 0 ==> #[trigger] stream_open(
                    old(self).start(),
                    old(self).consumed() + (ct@ + more),
                ) == Err::<Seq<u8>, StreamFault>(StreamFault::AuthenticationFailed)),
    {
        let mut whole = DecReader::new(
            Sealer::new(Cipher::Aes256Gcm, &[0u8; 32], [0u8; 7], [0u8; 32]),
        );
        std::mem::swap(self, &mut whole);
        proof {
            use_type_invariant(&whole);
        }
        let DecReader { mut sealer, plain, pos, done, start, consumed, opened, intact } = whole;
        let ghost v = sealer@;
        if ct.len() == 0 {
            *self = DecReader {
                sealer,
                plain,
                pos,
                done,
                start,
                consumed,
                opened,
                intact: Ghost(false),
            };
            proof {
                assert(stream_open(v, Seq::<u8>::empty()) is Err);
                assert(consumed@ + Seq::<u8>::empty() =~= consumed@);
            }
            return Err(Fault::EndsEarly);
        }
        let last = ct.len() < SEALED_CHUNK;
        let p = match sealer.open(ct, last) {
            Ok(p) => p,
            Err(e) => {
                *self = DecReader {
                    sealer,
                    plain,
                    pos,
                    done,
                    start,
                    consumed,
                    opened,
                    intact: Ghost(false),
                };
                proof {
                    if intact@ {
                        assert forall|more: Seq<u8>|
                            ct@.len() == SEALED_CHUNK || more.len() == 0 implies #[trigger] stream_open(
                            start@,
                            consumed@ + (ct@ + more),
                        ) == Err::<Seq<u8>, StreamFault>(StreamFault::AuthenticationFailed) by {
                            let all = ct@ + more;
                            if more.len() == 0 {
                                assert(all =~= ct@);
                            }
                            if ct@.len() == SEALED_CHUNK {
                                assert(all.subrange(0, SEALED_CHUNK as int) =~= ct@);
                            }
                            assert(stream_open(v, all) == Err::<Seq<u8>, StreamFault>(
                                StreamFault::AuthenticationFailed,
                            ));
                        }
                    }
                }
                return Err(e);
            },
        };
        let trailing = last && extra != 0;
        proof {
            if last {
                assert(stream_seal(v, p@) == ct@);
                assert(stream_open(v, ct@) == Ok::<_, StreamFault>(p@));
                assert(came_out(v, ct@) == p@);
            } else {
                lemma_span_chunk(v, p@, ct@);
                if intact@ {
                    lemma_span_join(start@, v, sealer@, opened@, consumed@, p@, ct@);
                }
            }
        }
        let ghost got = p@;
        let ghost still = intact@ && !trailing;
        assert(p@.subrange(0, p@.len() as int) =~= got);
        assert((opened@ + got).skip(opened@.len() as int) =~= got);
        *self = DecReader {
            sealer,
            plain: p,
            pos: 0,
            done: last,
            start,
            consumed: Ghost(consumed@ + ct@),
            opened: Ghost(opened@ + got),
            intact: Ghost(still),
        };
        assert(self.left() =~= got);
        assert(self.handed() =~= opened@);
        if trailing {
            return Err(Fault::TrailingData);
        }
        Ok(())
    }

    /// Hands out plaintext: as much as there is and as fits. Nothing comes out
    /// where a chunk is wanted first, or where the stream has ended.
    pub fn read(&mut self, out: &mut [u8]) -> (n: usize)
        ensures
            n <= old(out)@.len(),
            n == old(self).left().len() || n == old(out)@.len() && n < old(self).left().len(),
            final(out)@ == old(self).left().take(n as int) + old(out)@.skip(n as int),
            final(self).left() == old(self).left().skip(n as int),
            final(self).handed() == old(self).handed() + old(self).left().take(n as int),
            final(self).left().len() == 0 ==> final(self).handed() == final(self).opened(),
            final(self).sealer() == old(self).sealer(),
            final(self).done() == old(self).done(),
            final(self).start() == old(self).start(),
            final(self).consumed() == old(self).consumed(),
            final(self).opened() == old(self).opened(),
            final(self).intact() == old(self).intact(),
            final(self).intact() ==> final(self).in_step(),
    {
        proof {
            use_type_invariant(&*self);
        }
        let ghost before = out@;
        let ghost left = self.left();
        let len: usize = self.plain.len();
        let room: usize = len - self.pos;
        let n: usize = if out.len() < room {
            out.len()
        } else {
            room
        };
        let mut i: usize = 0;
        while i < n
            invariant
                n <= out@.len(),
                n <= left.len(),
                out@.len() == before.len(),
                len == self.plain@.len(),
                self.pos <= len,
                left == self.plain@.subrange(self.pos as int, self.plain@.len() as int),
                i <= n,
                out@ == left.take(i as int) + before.skip(i as int),
            decreases n - i,
        {
            out[i] = self.plain[self.pos + i];
            i += 1;
            assert(out@ =~= left.take(i as int) + before.skip(i as int));
        }
        let ghost all = self.opened();
        let ghost from = all.len() - left.len();
        assert(all.skip(from + n) =~= all.skip(from).skip(n as int));
        assert(self.plain@.subrange(self.pos + n, len as int) =~= left.skip(n as int));
        self.pos = self.pos + n;
        assert(self.left() =~= left.skip(n as int));
        assert(self.handed() =~= all.take(from) + left.take(n as int)) by {
            assert(left == all.skip(from));
        }
        assert(self.left().len() == 0 ==> self.handed() =~= all);
        n
    }
}

// ------------------------------------------------------------- short reads

/// How one attempt to read ended.
pub enum ReadEvent {
    /// So many bytes came; none at the end of the source.
    Got(usize),
    /// A signal came in between.
    Interrupted,
    /// The source failed.
    Failed,
}

/// What to do after an attempt to read into a buffer.
pub enum ReadStep {
    /// Read on, behind so many bytes.
    Again(usize),
    /// The buffer holds so many bytes, and no more are coming or fit.
    Done(usize),
    /// Give the source's failure back.
    Failed,
}

/// What an attempt to read leads to while `filled` of `len` bytes are there.
pub open spec fn read_next(filled: usize, len: usize, event: ReadEvent) -> ReadStep {
    match event {
        ReadEvent::Got(n) => if n == 0 || filled + n == len {
            ReadStep::Done((filled + n) as usize)
        } else {
            ReadStep::Again((filled + n) as usize)
        },
        ReadEvent::Interrupted => ReadStep::Again(filled),
        ReadEvent::Failed => ReadStep::Failed,
    }
}

/// One step of filling a buffer of `len` bytes that holds `filled` already. A
/// read may give less than there is room for; a chunk boundary must not depend
/// on that, so reading goes on until the buffer is full or the source ends.
pub fn read_upto(filled: usize, len: usize, event: ReadEvent) -> (step: ReadStep)
    requires
        filled < len,
        event matches ReadEvent::Got(n) ==> filled + n <= len,
    ensures
        step == read_next(filled, len, event),
{
    match event {
        ReadEvent::Got(n) => if n == 0 || filled + n == len {
            ReadStep::Done(filled + n)
        } else {
            ReadStep::Again(filled + n)
        },
        ReadEvent::Interrupted => ReadStep::Again(filled),
        ReadEvent::Failed => ReadStep::Failed,
    }
}

/// Where a run of attempts leads to.
pub open spec fn read_run(filled: usize, len: usize, events: Seq<ReadEvent>) -> ReadStep
    decreases events.len(),
{
    if events.len() == 0 {
        ReadStep::Again(filled)
    } else {
        match read_next(filled, len, events[0]) {
            ReadStep::Again(now) => read_run(now, len, events.skip(1)),
            step => step,
        }
    }
}

/// Whether a source with `there` bytes left can answer a run of attempts this
/// way: it never gives more than it has or than fits, and gives nothing only at
/// its end.
pub open spec fn can_answer(there: nat, filled: usize, len: usize, events: Seq<ReadEvent>) -> bool
    decreases events.len(),
{
    if events.len() == 0 {
        true
    } else {
        match events[0] {
            ReadEvent::Got(n) => {
                &&& n <= there
                &&& filled + n <= len
                &&& n == 0 ==> there == 0
                &&& can_answer((there - n) as nat, (filled + n) as usize, len, events.skip(1))
            },
            _ => can_answer(there, filled, len, events.skip(1)),
        }
    }
}

// -------------------------------------------------------------------- laws

/// How a source splits its answers does not show: a buffer ends up with all the
/// source has, or as much of it as fits.
pub proof fn law_short_reads_do_not_show(
    there: nat,
    filled: usize,
    len: usize,
    events: Seq<ReadEvent>,
)
    requires
        filled < len,
        can_answer(there, filled, len, events),
        read_run(filled, len, events) is Done,
    ensures
        read_run(filled, len, events)->Done_0 == if filled + there < len {
            filled + there
        } else {
            len as int
        },
    decreases events.len(),
{
    if events.len() > 0 {
        match events[0] {
            ReadEvent::Got(n) => {
                if n != 0 && filled + n != len {
                    law_short_reads_do_not_show(
                        (there - n) as nat,
                        (filled + n) as usize,
                        len,
                        events.skip(1),
                    );
                }
            },
            ReadEvent::Interrupted => {
                law_short_reads_do_not_show(there, filled, len, events.skip(1));
            },
            ReadEvent::Failed => {},
        }
    }
}

/// The four bytes of a number determine it.
proof fn lemma_be32(n: u32)
    ensures
        n == 0x100_0000 * be32(n)[0] + 0x1_0000 * be32(n)[1] + 0x100 * be32(n)[2] + be32(n)[3],
{
    let a: u32 = n / 0x100;
    let b: u32 = n / 0x1_0000;
    let c: u32 = n / 0x100_0000;
    assert(n == 0x100 * a + n % 0x100);
    assert(b == a / 0x100);
    assert(a == 0x100 * b + a % 0x100);
    assert(c == b / 0x100);
    assert(b == 0x100 * c + b % 0x100);
    assert(c < 0x100);
}

/// Chunks of different numbers do not share a nonce, nor do a final chunk and one
/// that is not: the nonce tells the number of its chunk and whether it is the
/// final one. The numbers go round after 2^32 chunks, and not before.
pub proof fn law_nonces_differ(v: SealerView, w: SealerView, v_last: bool, w_last: bool)
    requires
        v.prefix.len() == w.prefix.len(),
        v.nonce(v_last) == w.nonce(w_last),
    ensures
        v.prefix == w.prefix,
        v.counter == w.counter,
        v_last == w_last,
{
    let n = v.prefix.len() as int;
    let a = v.nonce(v_last);
    let b = w.nonce(w_last);
    assert(v.prefix =~= a.subrange(0, n));
    assert(w.prefix =~= b.subrange(0, n));
    assert(be32(v.counter) =~= a.subrange(n, n + 4));
    assert(be32(w.counter) =~= b.subrange(n, n + 4));
    assert(be32(v.counter)[0] == be32(w.counter)[0]);
    assert(be32(v.counter)[1] == be32(w.counter)[1]);
    assert(be32(v.counter)[2] == be32(w.counter)[2]);
    assert(be32(v.counter)[3] == be32(w.counter)[3]);
    lemma_be32(v.counter);
    lemma_be32(w.counter);
    assert(a[n + 4] == b[n + 4]);
}

/// A stream that ends where a full chunk ends is refused, whatever it holds and
/// whatever the key: its final chunk is missing.
pub proof fn law_cut_at_a_chunk_is_refused(v: SealerView, ct: Seq<u8>)
    requires
        ct.len() % SEALED_CHUNK as nat == 0,
    ensures
        stream_open(v, ct) is Err,
    decreases ct.len(),
{
    if ct.len() > 0 {
        assert(ct.len() >= SEALED_CHUNK);
        law_cut_at_a_chunk_is_refused(
            v.next(),
            ct.subrange(SEALED_CHUNK as int, ct.len() as int),
        );
    }
}

/// Whether the stream that holds `plain` has `ct` as its chunk number
/// `counter`, final or not as `last` says.
pub open spec fn wrote(
    v: SealerView,
    plain: Seq<u8>,
    counter: u32,
    last: bool,
    ct: Seq<u8>,
) -> bool
    decreases plain.len(),
{
    if plain.len() < CHUNK {
        counter == v.counter && last && ct == v.sealed(plain, true)
    } else {
        ||| counter == v.counter && !last && ct == v.sealed(
            plain.subrange(0, CHUNK as int),
            false,
        )
        ||| wrote(
            v.next(),
            plain.subrange(CHUNK as int, plain.len() as int),
            counter,
            last,
            ct,
        )
    }
}

/// Whether nothing in `ct` is forged, as a reader that stands at `at` goes
/// through it: a chunk that opens there is one that the writer of `plain`, who
/// began at `v`, made for that very place and under that very associated data.
/// This is what the authentication of a cipher gives against whoever does not
/// hold the key.
pub open spec fn unforged(v: SealerView, plain: Seq<u8>, at: SealerView, ct: Seq<u8>) -> bool
    decreases ct.len(),
{
    if ct.len() == 0 {
        true
    } else if ct.len() < SEALED_CHUNK {
        at.opened(ct, true) is Some ==> at.aad == v.aad && wrote(v, plain, at.counter, true, ct)
    } else {
        let first = ct.subrange(0, SEALED_CHUNK as int);
        let rest = ct.subrange(SEALED_CHUNK as int, ct.len() as int);
        &&& at.opened(first, false) is Some ==> at.aad == v.aad && wrote(
            v,
            plain,
            at.counter,
            false,
            first,
        )
        &&& unforged(v, plain, at.next(), rest)
    }
}

/// The chunks of a stream are numbered from its beginning on.
proof fn lemma_wrote_from(v: SealerView, plain: Seq<u8>, counter: u32, last: bool, ct: Seq<u8>)
    requires
        wrote(v, plain, counter, last, ct),
        v.counter + plain.len() / CHUNK as nat <= u32::MAX,
    ensures
        counter >= v.counter,
    decreases plain.len(),
{
    if plain.len() >= CHUNK {
        let rest = plain.subrange(CHUNK as int, plain.len() as int);
        if wrote(v.next(), rest, counter, last, ct) {
            lemma_wrote_from(v.next(), rest, counter, last, ct);
        }
    }
}

/// What is left of a stream opens only where it is what the writer has left:
/// `here` is how far the writer of `plain` is, and `left` what is still to come.
proof fn lemma_only_the_rest_opens(
    v: SealerView,
    plain: Seq<u8>,
    here: SealerView,
    left: Seq<u8>,
    aad: Seq<u8>,
    ct: Seq<u8>,
)
    requires
        here.aad == v.aad,
        unforged(v, plain, SealerView { aad, ..here }, ct),
        here.counter + left.len() / CHUNK as nat <= u32::MAX,
        forall|counter: u32, last: bool, c: Seq<u8>|
            counter >= here.counter && #[trigger] wrote(v, plain, counter, last, c) ==> wrote(
                here,
                left,
                counter,
                last,
                c,
            ),
        stream_open(SealerView { aad, ..here }, ct) is Ok,
    ensures
        aad == v.aad,
        ct == stream_seal(here, left),
    decreases left.len(),
{
    let at = SealerView { aad, ..here };
    let last = ct.len() < SEALED_CHUNK;
    let first = if last {
        ct
    } else {
        ct.subrange(0, SEALED_CHUNK as int)
    };
    assert(at.opened(first, last) is Some);
    assert(wrote(v, plain, here.counter, last, first));
    assert(wrote(here, left, here.counter, last, first));
    if left.len() >= CHUNK {
        let more = left.subrange(CHUNK as int, left.len() as int);
        let n = here.next();
        if wrote(n, more, here.counter, last, first) {
            lemma_wrote_from(n, more, here.counter, last, first);
            assert(false);
        }
        assert(!last);
        let rest = ct.subrange(SEALED_CHUNK as int, ct.len() as int);
        assert forall|counter: u32, last2: bool, c: Seq<u8>|
            counter >= n.counter && #[trigger] wrote(v, plain, counter, last2, c) implies wrote(
            n,
            more,
            counter,
            last2,
            c,
        ) by {
            assert(wrote(here, left, counter, last2, c));
        }
        assert(at.next() == SealerView { aad, ..n });
        lemma_only_the_rest_opens(v, plain, n, more, aad, rest);
        assert(ct =~= first + rest);
    }
}

/// Only the stream that was written opens. Where nothing is forged, cutting it
/// short, swapping or dropping chunks, changing a byte of one or appending to it
/// is detected, and so is another header in front of it.
pub proof fn law_only_the_written_stream_opens(
    v: SealerView,
    plain: Seq<u8>,
    aad: Seq<u8>,
    ct: Seq<u8>,
)
    requires
        unforged(v, plain, SealerView { aad, ..v }, ct),
        v.counter + plain.len() / CHUNK as nat <= u32::MAX,
        stream_open(SealerView { aad, ..v }, ct) is Ok,
    ensures
        aad == v.aad,
        ct == stream_seal(v, plain),
{
    lemma_only_the_rest_opens(v, plain, v, plain, aad, ct);
}

/// The stream that was written opens to what was written.
pub proof fn law_the_written_stream_opens(v: SealerView, plain: Seq<u8>)
    requires
        sound(v, plain),
    ensures
        stream_open(v, stream_seal(v, plain)) == Ok::<_, StreamFault>(plain),
    decreases plain.len(),
{
    let ct = stream_seal(v, plain);
    if plain.len() >= CHUNK {
        let chunk = plain.subrange(0, CHUNK as int);
        let rest = plain.subrange(CHUNK as int, plain.len() as int);
        law_the_written_stream_opens(v.next(), rest);
        assert(ct.subrange(0, SEALED_CHUNK as int) =~= v.sealed(chunk, false));
        assert(ct.subrange(SEALED_CHUNK as int, ct.len() as int) =~= stream_seal(v.next(), rest));
        assert(plain =~= chunk + rest);
    }
}

/// Where nothing is forged, a stream opens exactly where it is the one that was
/// written, behind the header it was written with, and then it opens to what was
/// written.
pub proof fn law_opens_where_it_was_written(
    v: SealerView,
    plain: Seq<u8>,
    aad: Seq<u8>,
    ct: Seq<u8>,
)
    requires
        sound(v, plain),
        unforged(v, plain, SealerView { aad, ..v }, ct),
        v.counter + plain.len() / CHUNK as nat <= u32::MAX,
    ensures
        stream_open(SealerView { aad, ..v }, ct) is Ok <==> aad == v.aad && ct == stream_seal(
            v,
            plain,
        ),
        stream_open(SealerView { aad, ..v }, ct) matches Ok(p) ==> p == plain,
{
    law_the_written_stream_opens(v, plain);
    if stream_open(SealerView { aad, ..v }, ct) is Ok {
        law_only_the_written_stream_opens(v, plain, aad, ct);
    }
    if aad == v.aad {
        assert(SealerView { aad, ..v } == v);
    }
}

/// What comes out of the rest of a stream begins what the writer has left.
proof fn lemma_the_rest_gives_a_beginning(
    v: SealerView,
    plain: Seq<u8>,
    here: SealerView,
    left: Seq<u8>,
    aad: Seq<u8>,
    ct: Seq<u8>,
)
    requires
        here.aad == v.aad,
        sound(here, left),
        unforged(v, plain, SealerView { aad, ..here }, ct),
        here.counter + left.len() / CHUNK as nat <= u32::MAX,
        forall|counter: u32, last: bool, c: Seq<u8>|
            counter >= here.counter && #[trigger] wrote(v, plain, counter, last, c) ==> wrote(
                here,
                left,
                counter,
                last,
                c,
            ),
    ensures
        begins_with(left, came_out(SealerView { aad, ..here }, ct)),
    decreases left.len(),
{
    let at = SealerView { aad, ..here };
    let last = ct.len() < SEALED_CHUNK;
    let first = if last {
        ct
    } else {
        ct.subrange(0, SEALED_CHUNK as int)
    };
    if ct.len() == 0 || at.opened(first, last) is None {
        assert(came_out(at, ct) =~= Seq::empty());
        assert(left.take(0) =~= Seq::empty());
    } else {
        assert(wrote(v, plain, here.counter, last, first));
        assert(wrote(here, left, here.counter, last, first));
        assert(at == here);
        if left.len() < CHUNK {
            assert(came_out(at, ct) == left);
            assert(left.take(left.len() as int) =~= left);
        } else {
            let chunk = left.subrange(0, CHUNK as int);
            let more = left.subrange(CHUNK as int, left.len() as int);
            let n = here.next();
            if wrote(n, more, here.counter, last, first) {
                lemma_wrote_from(n, more, here.counter, last, first);
                assert(false);
            }
            assert(!last);
            let rest = ct.subrange(SEALED_CHUNK as int, ct.len() as int);
            assert forall|counter: u32, last2: bool, c: Seq<u8>|
                counter >= n.counter && #[trigger] wrote(v, plain, counter, last2, c) implies wrote(
                n,
                more,
                counter,
                last2,
                c,
            ) by {
                assert(wrote(here, left, counter, last2, c));
            }
            assert(at.next() == SealerView { aad, ..n });
            lemma_the_rest_gives_a_beginning(v, plain, n, more, aad, rest);
            let out = came_out(at.next(), rest);
            assert(came_out(at, ct) == chunk + out);
            assert(left.take((CHUNK + out.len()) as int) =~= chunk + more.take(out.len() as int));
        }
    }
}

/// Where nothing is forged, what comes out of a stream before anything in it is
/// refused is a beginning of what was written, whatever was done to the stream
/// and to the header in front of it.
pub proof fn law_a_refused_stream_gives_a_beginning(
    v: SealerView,
    plain: Seq<u8>,
    aad: Seq<u8>,
    ct: Seq<u8>,
)
    requires
        sound(v, plain),
        unforged(v, plain, SealerView { aad, ..v }, ct),
        v.counter + plain.len() / CHUNK as nat <= u32::MAX,
    ensures
        begins_with(plain, came_out(SealerView { aad, ..v }, ct)),
{
    lemma_the_rest_gives_a_beginning(v, plain, v, plain, aad, ct);
}

/// What a reader has handed out while nothing was refused is a beginning of what
/// was written. Where it has come to the end of the stream, the stream and the
/// header are the ones that were written, and all of it has come out. `rest` is
/// what the reader has still in front of it.
pub proof fn law_reader_gives_a_beginning(
    v: SealerView,
    plain: Seq<u8>,
    r: DecReader,
    rest: Seq<u8>,
)
    requires
        r.intact(),
        r.in_step(),
        r.done() ==> rest.len() == 0,
        r.start() == (SealerView { aad: r.start().aad, ..v }),
        sound(v, plain),
        unforged(v, plain, r.start(), r.consumed() + rest),
        v.counter + plain.len() / CHUNK as nat <= u32::MAX,
    ensures
        begins_with(plain, r.opened()),
        begins_with(plain, r.handed()),
        r.done() ==> r.start() == v && r.consumed() == stream_seal(v, plain) && r.opened()
            == plain,
{
    let ct = r.consumed() + rest;
    let out = came_out(r.start(), ct);
    law_a_refused_stream_gives_a_beginning(v, plain, r.start().aad, ct);
    if r.done() {
        assert(ct =~= r.consumed());
        law_opens_where_it_was_written(v, plain, r.start().aad, ct);
    } else {
        assert(out == r.opened() + came_out(r.sealer(), rest));
    }
    assert(plain.take(r.opened().len() as int) =~= out.take(r.opened().len() as int));
    assert(out.take(r.opened().len() as int) =~= r.opened());
    assert(plain.take(r.handed().len() as int) =~= r.opened().take(r.handed().len() as int));
    assert(r.opened().take(r.handed().len() as int) =~= r.handed());
}

/// What an attempt to read leads to: what came is counted, reading ends where the
/// buffer is full or nothing came, a signal changes nothing, and a failure is one.
pub proof fn law_what_an_attempt_leads_to(filled: usize, len: usize, event: ReadEvent)
    requires
        filled < len,
        event matches ReadEvent::Got(n) ==> filled + n <= len,
    ensures
        read_next(filled, len, event) is Failed <==> event is Failed,
        read_next(filled, len, event) matches ReadStep::Again(now) ==> now < len && (
        event is Interrupted && now == filled || (event matches ReadEvent::Got(n) && n > 0 && now
            == filled + n)),
        read_next(filled, len, event) matches ReadStep::Done(now) ==> (event matches ReadEvent::Got(
            n,
        ) && now == filled + n && (n == 0 || now == len)),
{
}

/// The nonce of a chunk is laid out as the prefix, the number of the chunk with its
/// most significant byte first, and a byte that is 1 for the final chunk and 0 for
/// every other.
pub proof fn law_nonce_layout(v: SealerView, last: bool)
    requires
        v.prefix.len() == 7,
    ensures
        v.nonce(last).len() == 12,
        forall|i: int| 0 <= i < 7 ==> v.nonce(last)[i] == v.prefix[i],
        16777216 * v.nonce(last)[7] + 65536 * v.nonce(last)[8] + 256 * v.nonce(last)[9] + v.nonce(
            last,
        )[10] == v.counter,
        v.nonce(last)[11] == 1 <==> last,
        v.nonce(last)[11] == 0 <==> !last,
{
    lemma_be32(v.counter);
    let n = v.nonce(last);
    assert(n[7] == be32(v.counter)[0]);
    assert(n[8] == be32(v.counter)[1]);
    assert(n[9] == be32(v.counter)[2]);
    assert(n[10] == be32(v.counter)[3]);
}

/// A chunk is encrypted and decrypted with the cipher of the stream, under its key
/// and its associated data and with the nonce of the chunk, and only the number of
/// the chunk changes from one to the next.
pub proof fn law_cipher_of_a_chunk(v: SealerView, data: Seq<u8>, last: bool)
    ensures
        v.cipher is Aes256Gcm ==> v.sealed(data, last) == crate::primitives::aes_sealed(
            v.key,
            v.nonce(last),
            v.aad,
            data,
        ) && v.opened(data, last) == crate::primitives::aes_opened(
            v.key,
            v.nonce(last),
            v.aad,
            data,
        ),
        v.cipher is ChaCha20Poly1305 ==> v.sealed(data, last) == crate::primitives::chacha_sealed(
            v.key,
            v.nonce(last),
            v.aad,
            data,
        ) && v.opened(data, last) == crate::primitives::chacha_opened(
            v.key,
            v.nonce(last),
            v.aad,
            data,
        ),
        v.next().cipher == v.cipher,
        v.next().key == v.key,
        v.next().prefix == v.prefix,
        v.next().aad == v.aad,
        v.next().counter == (v.counter + 1) % 0x1_0000_0000,
{
}

/// A stream is laid out chunk by chunk: its chunk number `i` is the `i`-th stretch
/// of 1 MiB of the contents, encrypted under the number `i` behind the first, and
/// the final one is what is left, which is less than 1 MiB. Every chunk is longer
/// than its contents by 16 bytes, and nothing stands between them.
pub proof fn law_stream_layout(v: SealerView, plain: Seq<u8>, i: int)
    requires
        sound(v, plain),
        0 <= i <= plain.len() / 1048576,
        v.counter + plain.len() / 1048576 <= u32::MAX,
    ensures
        stream_seal(v, plain).len() == plain.len() + 16 * (plain.len() / 1048576 + 1),
        ({
            let here = SealerView { counter: (v.counter + i) as u32, ..v };
            if i < plain.len() / 1048576 {
                stream_seal(v, plain).subrange(i * 1048592, (i + 1) * 1048592) == here.sealed(
                    plain.subrange(i * 1048576, (i + 1) * 1048576),
                    false,
                )
            } else {
                stream_seal(v, plain).skip(i * 1048592) == here.sealed(
                    plain.skip(i * 1048576),
                    true,
                )
            }
        }),
    decreases plain.len(),
{
    let all = stream_seal(v, plain);
    if plain.len() < CHUNK {
        assert(plain.skip(0) =~= plain);
        assert(all.skip(0) =~= all);
        assert(SealerView { counter: (v.counter + 0) as u32, ..v } == v);
    } else {
        let first = plain.subrange(0, CHUNK as int);
        let rest = plain.subrange(CHUNK as int, plain.len() as int);
        let one = v.sealed(first, false);
        let more = stream_seal(v.next(), rest);
        assert(rest.len() / 1048576 == plain.len() / 1048576 - 1);
        if i == 0 {
            law_stream_layout(v.next(), rest, 0);
            assert(all.subrange(0, 1048592) =~= one);
            assert(SealerView { counter: (v.counter + 0) as u32, ..v } == v);
        } else {
            law_stream_layout(v.next(), rest, i - 1);
            let a = SealerView { counter: (v.counter + i) as u32, ..v };
            let b = SealerView { counter: (v.next().counter + (i - 1)) as u32, ..v.next() };
            assert(a == b);
            if i < plain.len() / 1048576 {
                assert(all.subrange(i * 1048592, (i + 1) * 1048592) =~= more.subrange(
                    (i - 1) * 1048592,
                    i * 1048592,
                ));
                assert(plain.subrange(i * 1048576, (i + 1) * 1048576) =~= rest.subrange(
                    (i - 1) * 1048576,
                    i * 1048576,
                ));
            } else {
                assert(all.skip(i * 1048592) =~= more.skip((i - 1) * 1048592));
                assert(plain.skip(i * 1048576) =~= rest.skip((i - 1) * 1048576));
            }
        }
    }
}

} // verus!
