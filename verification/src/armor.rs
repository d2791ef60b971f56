//! The text form of key files: a begin line, named fields, a blank line, the
//! body in base64, and an end line.
use crate::fault::{Fault, Refusal};
use crate::primitives::{base64_char, base64_decode, base64_encode, base64_of, base64_read};
use crate::text::{
    begins_with, chars_begin_with, chars_end_with, chars_of, ends_with, find_char, index_of,
    lemma_index_of_is, lemma_lines_push, lemma_trimmed_is, lines, rows, same_text,
    split_lines, text_of, trim, trim_end, trim_start, trimmed, white_space,
};
use vstd::prelude::*;
use vstd::slice::{slice_subrange, slice_to_vec};
use vstd::string::*;

verus! {

/// How a begin line begins.
pub const BEGIN: &'static str = "-----BEGIN CRYPTOSEC ";

/// How an end line begins where one is written.
pub const END: &'static str = "-----END CRYPTOSEC ";

/// How begin and end lines end.
pub const CLOSE: &'static str = " KEY-----";

/// How a line begins that ends the body where one is read.
pub const STOP: &'static str = "-----END";

/// How many characters of the body one line holds.
pub const WIDTH: usize = 64;

/// A key file, taken apart.
#[derive(Debug)]
pub struct Armor {
    kind: String,
    headers: Vec<(String, String)>,
    pub body: Vec<u8>,
}

/// What a key file says.
pub struct ArmorView {
    pub kind: Seq<char>,
    pub headers: Seq<(Seq<char>, Seq<char>)>,
    pub body: Seq<u8>,
}

/// The names and values of a list of fields.
pub open spec fn fields(headers: Seq<(String, String)>) -> Seq<(Seq<char>, Seq<char>)> {
    headers.map_values(|h: (String, String)| (h.0@, h.1@))
}

impl View for Armor {
    type V = ArmorView;

    closed spec fn view(&self) -> ArmorView {
        ArmorView { kind: self.kind@, headers: fields(self.headers@), body: self.body@ }
    }
}

// ------------------------------------------------------------------- model

/// The value of the first field of a name.
pub open spec fn field_of(headers: Seq<(Seq<char>, Seq<char>)>, k: Seq<char>) -> Option<Seq<char>>
    decreases headers.len(),
{
    if headers.len() == 0 {
        None
    } else if headers[0].0 == k {
        Some(headers[0].1)
    } else {
        field_of(headers.skip(1), k)
    }
}

/// The lines of a list of fields.
pub open spec fn header_lines(headers: Seq<(Seq<char>, Seq<char>)>) -> Seq<char>
    decreases headers.len(),
{
    if headers.len() == 0 {
        Seq::empty()
    } else {
        headers[0].0 + ": "@ + headers[0].1 + "\n"@ + header_lines(headers.skip(1))
    }
}

/// A text in lines of `WIDTH` characters.
pub open spec fn body_lines(b64: Seq<char>) -> Seq<char>
    decreases b64.len(),
{
    if b64.len() == 0 {
        Seq::empty()
    } else if b64.len() <= WIDTH {
        b64 + "\n"@
    } else {
        b64.take(WIDTH as int) + "\n"@ + body_lines(b64.skip(WIDTH as int))
    }
}

/// A key file as text.
pub open spec fn rendered(a: ArmorView) -> Seq<char> {
    BEGIN@ + a.kind + CLOSE@ + "\n"@ + header_lines(a.headers) + "\n"@ + body_lines(
        base64_of(a.body),
    ) + END@ + a.kind + CLOSE@ + "\n"@
}

/// A text without any number of `head` at its beginning.
pub open spec fn without_head(text: Seq<char>, head: Seq<char>) -> Seq<char>
    decreases text.len(),
{
    if head.len() > 0 && begins_with(text, head) {
        without_head(text.skip(head.len() as int), head)
    } else {
        text
    }
}

/// A text without any number of `tail` at its end.
pub open spec fn without_tail(text: Seq<char>, tail: Seq<char>) -> Seq<char>
    decreases text.len(),
{
    if tail.len() > 0 && ends_with(text, tail) {
        without_tail(text.take(text.len() - tail.len()), tail)
    } else {
        text
    }
}

/// The fields that the lines behind the begin line hold. They end at a blank
/// line, at one without a colon, or at the end line.
pub open spec fn headers_in(rest: Seq<Seq<char>>) -> Seq<(Seq<char>, Seq<char>)>
    decreases rest.len(),
{
    if rest.len() == 0 {
        Seq::empty()
    } else {
        let line = trimmed(rest[0]);
        let i = index_of(line, ':');
        if begins_with(line, STOP@) || i == line.len() {
            Seq::empty()
        } else {
            seq![(trimmed(line.take(i)), trimmed(line.skip(i + 1)))] + headers_in(rest.skip(1))
        }
    }
}

/// The lines of the body, put together: those behind the fields, up to the end
/// line.
pub open spec fn body_in(rest: Seq<Seq<char>>, in_body: bool) -> Seq<char>
    decreases rest.len(),
{
    if rest.len() == 0 {
        Seq::empty()
    } else {
        let line = trimmed(rest[0]);
        if begins_with(line, STOP@) {
            Seq::empty()
        } else if !in_body && index_of(line, ':') < line.len() {
            body_in(rest.skip(1), false)
        } else {
            line + body_in(rest.skip(1), true)
        }
    }
}

/// What a text says as a key file, or why it is none.
pub open spec fn parsed(text: Seq<char>) -> Result<ArmorView, Refusal> {
    let all = lines(text);
    if all.len() == 0 {
        Err(Refusal::Is(Fault::EmptyKeyFile))
    } else {
        let begin = trimmed(all[0]);
        if !begins_with(begin, BEGIN@) {
            Err(Refusal::Is(Fault::NotKeyFile))
        } else {
            match base64_read(body_in(all.skip(1), false)) {
                Err(e) => Err(Refusal::DamagedKeyFile(e)),
                Ok(body) => Ok(
                    ArmorView {
                        kind: without_tail(without_head(begin, BEGIN@), CLOSE@),
                        headers: headers_in(all.skip(1)),
                        body,
                    },
                ),
            }
        }
    }
}

// -------------------------------------------------------------- operations

fn strip_head<'a>(text: &'a [char], head: &[char]) -> (res: &'a [char])
    requires
        head@.len() > 0,
    ensures
        res@ == without_head(text@, head@),
    decreases text@.len(),
{
    if chars_begin_with(text, head) {
        let rest = slice_subrange(text, head.len(), text.len());
        assert(rest@ =~= text@.skip(head@.len() as int));
        strip_head(rest, head)
    } else {
        text
    }
}

fn strip_tail<'a>(text: &'a [char], tail: &[char]) -> (res: &'a [char])
    requires
        tail@.len() > 0,
    ensures
        res@ == without_tail(text@, tail@),
    decreases text@.len(),
{
    if chars_end_with(text, tail) {
        let rest = slice_subrange(text, 0, text.len() - tail.len());
        assert(rest@ =~= text@.take(text@.len() - tail@.len()));
        strip_tail(rest, tail)
    } else {
        text
    }
}

impl Armor {
    /// A key file without fields.
    pub fn new(kind: &str, body: &[u8]) -> (a: Armor)
        ensures
            a@ == (ArmorView { kind: kind@, headers: Seq::empty(), body: body@ }),
    {
        let a = Armor { kind: kind.to_string(), headers: Vec::new(), body: slice_to_vec(body) };
        assert(a@.headers =~= Seq::empty());
        a
    }

    /// Adds a field behind the others.
    pub fn set(&mut self, k: &str, v: &str)
        ensures
            final(self)@ == (ArmorView { headers: old(self)@.headers.push((k@, v@)), ..old(self)@ }),
    {
        self.headers.push((k.to_string(), v.to_string()));
        assert(self@.headers =~= old(self)@.headers.push((k@, v@)));
    }

    /// The value of the first field of a name.
    pub fn field(&self, k: &str) -> (res: Option<&str>)
        ensures
            match res {
                Some(v) => field_of(self@.headers, k@) == Some(v@),
                None => field_of(self@.headers, k@) is None,
            },
    {
        let ghost all = fields(self.headers@);
        let mut i: usize = 0;
        assert(all.skip(0) =~= all);
        while i < self.headers.len()
            invariant
                i <= self.headers@.len(),
                all == fields(self.headers@),
                field_of(all, k@) == field_of(all.skip(i as int), k@),
            decreases self.headers@.len() - i,
        {
            if same_text(self.headers[i].0.as_str(), k) {
                return Some(self.headers[i].1.as_str());
            }
            assert(all.skip(i as int).skip(1) =~= all.skip(i + 1));
            i += 1;
        }
        None
    }

    /// The bytes that the key file holds.
    pub fn body(&self) -> (body: &[u8])
        ensures
            body@ == self@.body,
    {
        self.body.as_slice()
    }

    /// The key file as text. A clean key file is read as what was written.
    pub fn render(&self) -> (s: String)
        requires
            (self@.body.len() + 2) / 3 * 4 <= isize::MAX,
        ensures
            s@ == rendered(self@),
            clean(self@) ==> parsed(s@) == Ok::<_, Refusal>(self@),
    {
        let mut s = BEGIN.to_string();
        s.append(self.kind.as_str());
        s.append(CLOSE);
        s.append("\n");
        let ghost top = s@;
        let ghost all = fields(self.headers@);
        let mut i: usize = 0;
        assert(all.skip(0) =~= all);
        while i < self.headers.len()
            invariant
                i <= self.headers@.len(),
                all == fields(self.headers@),
                s@ + header_lines(all.skip(i as int)) == top + header_lines(all),
            decreases self.headers@.len() - i,
        {
            let ghost before = s@;
            s.append(self.headers[i].0.as_str());
            s.append(": ");
            s.append(self.headers[i].1.as_str());
            s.append("\n");
            proof {
                let line = all[i as int].0 + ": "@ + all[i as int].1 + "\n"@;
                let rest = header_lines(all.skip(i + 1));
                assert(all.skip(i as int).skip(1) =~= all.skip(i + 1));
                assert(s@ =~= before + line);
                assert(s@ + rest =~= before + (line + rest));
            }
            i += 1;
        }
        assert(s@ + header_lines(all.skip(i as int)) =~= s@);
        s.append("\n");
        let ghost head = s@;
        let b64 = base64_encode(&self.body);
        let chars = chars_of(b64.as_str());
        let mut from: usize = 0;
        assert(chars@.skip(0) =~= chars@);
        while from < chars.len()
            invariant
                from <= chars@.len(),
                s@ + body_lines(chars@.skip(from as int)) == head + body_lines(chars@),
            decreases chars@.len() - from,
        {
            let ghost before = s@;
            let ghost here = chars@.skip(from as int);
            let end: usize = if chars.len() - from <= WIDTH {
                chars.len()
            } else {
                from + WIDTH
            };
            let line = text_of(slice_subrange(&chars, from, end));
            s.append(line.as_str());
            s.append("\n");
            proof {
                let rest = body_lines(chars@.skip(end as int));
                if here.len() <= WIDTH {
                    assert(line@ =~= here);
                    assert(chars@.skip(end as int) =~= Seq::empty());
                } else {
                    assert(line@ =~= here.take(WIDTH as int));
                    assert(here.skip(WIDTH as int) =~= chars@.skip(end as int));
                }
                assert(body_lines(here) =~= line@ + "\n"@ + rest);
                assert(s@ + rest =~= before + body_lines(here));
            }
            from = end;
        }
        assert(s@ + body_lines(chars@.skip(from as int)) =~= s@);
        s.append(END);
        s.append(self.kind.as_str());
        s.append(CLOSE);
        s.append("\n");
        assert(s@ =~= rendered(self@));
        proof {
            if clean(self@) {
                lemma_round_trip(self@);
            }
        }
        s
    }

    /// Reads a key file.
    pub fn parse(text: &str) -> (res: Result<Armor, Fault>)
        ensures
            match parsed(text@) {
                Ok(a) => res matches Ok(armor) && armor@ == a,
                Err(f) => res matches Err(e) && e.is_for(f),
            },
    {
        let chars = chars_of(text);
        let all = split_lines(&chars);
        assert(rows(all@) == lines(text@));
        if all.len() == 0 {
            return Err(Fault::EmptyKeyFile);
        }
        let begin = trim(&all[0]);
        let head = chars_of(BEGIN);
        if !chars_begin_with(begin, &head) {
            return Err(Fault::NotKeyFile);
        }
        let tail = chars_of(CLOSE);
        proof {
            reveal_strlit("-----BEGIN CRYPTOSEC ");
            reveal_strlit(" KEY-----");
        }
        let kind = text_of(strip_tail(strip_head(begin, &head), &tail));
        let stop = chars_of(STOP);
        let ghost rest = lines(text@).skip(1);
        let mut headers: Vec<(String, String)> = Vec::new();
        let mut b64: Vec<char> = Vec::new();
        let mut in_body = false;
        let mut i: usize = 1;
        let mut stopped = false;
        assert(rest.skip(0) =~= rest);
        assert(fields(headers@) + headers_in(rest) =~= headers_in(rest));
        assert(b64@ + body_in(rest, false) =~= body_in(rest, false));
        while i < all.len() && !stopped
            invariant
                1 <= i <= all@.len(),
                stop@ == STOP@,
                rows(all@).skip(1) == rest,
                stopped ==> fields(headers@) == headers_in(rest) && b64@ == body_in(rest, false),
                !stopped && in_body ==> fields(headers@) == headers_in(rest),
                !stopped && !in_body ==> fields(headers@) + headers_in(rest.skip(i - 1))
                    == headers_in(rest),
                !stopped ==> b64@ + body_in(rest.skip(i - 1), in_body) == body_in(rest, false),
            decreases all@.len() - i, (if stopped { 0int } else { 1 }),
        {
            let ghost here = rest.skip(i - 1);
            let line = trim(&all[i]);
            assert(here[0] == rows(all@)[i as int]);
            assert(here.skip(1) =~= rest.skip(i as int));
            let ghost h0 = fields(headers@);
            let ghost b0 = b64@;
            if chars_begin_with(line, &stop) {
                stopped = true;
                assert(h0 + Seq::empty() =~= h0);
                assert(b0 + Seq::empty() =~= b0);
            } else {
                let colon: usize = find_char(line, ':');
                if !in_body && colon < line.len() {
                    let k = text_of(trim(slice_subrange(line, 0, colon)));
                    let v = text_of(trim(slice_subrange(line, colon + 1, line.len())));
                    headers.push((k, v));
                    proof {
                        let one = (
                            trimmed(line@.take(colon as int)),
                            trimmed(line@.skip(colon + 1)),
                        );
                        assert(line@.subrange(0, colon as int) =~= line@.take(colon as int));
                        assert(line@.subrange(colon + 1, line@.len() as int) =~= line@.skip(
                            colon + 1,
                        ));
                        assert(fields(headers@) =~= h0.push(one));
                        assert(h0.push(one) + headers_in(here.skip(1)) =~= h0 + (seq![one]
                            + headers_in(here.skip(1))));
                    }
                } else {
                    proof {
                        if !in_body {
                            assert(h0 + headers_in(here) =~= h0);
                        }
                        assert(b0 + (line@ + body_in(here.skip(1), true)) =~= b0 + line@ + body_in(
                            here.skip(1),
                            true,
                        ));
                    }
                    in_body = true;
                    let mut j: usize = 0;
                    while j < line.len()
                        invariant
                            j <= line@.len(),
                            b64@ == b0 + line@.take(j as int),
                        decreases line@.len() - j,
                    {
                        b64.push(line[j]);
                        j += 1;
                        assert(b64@ =~= b0 + line@.take(j as int));
                    }
                    assert(line@.take(j as int) =~= line@);
                }
                i += 1;
            }
        }
        proof {
            if !stopped {
                assert(rest.skip(i - 1) =~= Seq::empty());
                assert(b64@ + Seq::<char>::empty() =~= b64@);
                assert(fields(headers@) + Seq::<(Seq<char>, Seq<char>)>::empty() =~= fields(
                    headers@,
                ));
            }
        }
        let text64 = text_of(&b64);
        match base64_decode(text64.as_str()) {
            Ok(body) => Ok(Armor { kind, headers, body }),
            Err(e) => Err(Fault::DamagedKeyFile(e)),
        }
    }
}

// -------------------------------------------------------------------- laws

/// Whether a field survives being written on a line of its own: neither part
/// has a line break or white space at its ends, and the name has no colon and
/// does not look like the end line.
pub open spec fn clean_field(h: (Seq<char>, Seq<char>)) -> bool {
    &&& !h.0.contains('\n') && !h.1.contains('\n')
    &&& !h.0.contains(':')
    &&& trimmed(h.0) == h.0 && trimmed(h.1) == h.1
    &&& !begins_with(h.0, STOP@)
}

/// Whether a key file survives being written: its fields do, and its kind can be
/// told from the marks around it.
pub open spec fn clean(a: ArmorView) -> bool {
    &&& forall|i: int| 0 <= i < a.headers.len() ==> clean_field(#[trigger] a.headers[i])
    &&& !a.kind.contains('\n')
    &&& !begins_with(a.kind + CLOSE@, BEGIN@)
    &&& !ends_with(a.kind, CLOSE@)
}

/// The marks, letter by letter.
proof fn lemma_marks()
    ensures
        "\n"@ == seq!['\n'],
        ": "@ == seq![':', ' '],
        STOP@ == seq!['-', '-', '-', '-', '-', 'E', 'N', 'D'],
        begins_with(END@, STOP@),
        END@.len() == 19,
        BEGIN@.len() == 21,
        BEGIN@[0] == '-',
        CLOSE@.len() == 9,
        CLOSE@[8] == '-',
        !BEGIN@.contains('\n'),
        !END@.contains('\n'),
        !CLOSE@.contains('\n'),
{
    reveal_strlit("\n");
    reveal_strlit(": ");
    reveal_strlit("-----END");
    reveal_strlit("-----END CRYPTOSEC ");
    reveal_strlit("-----BEGIN CRYPTOSEC ");
    reveal_strlit(" KEY-----");
    assert("\n"@ =~= seq!['\n']);
    assert(": "@ =~= seq![':', ' ']);
    assert(STOP@ =~= seq!['-', '-', '-', '-', '-', 'E', 'N', 'D']);
    assert(END@.take(8) =~= STOP@);
    assert(BEGIN@ =~= seq![
        '-', '-', '-', '-', '-', 'B', 'E', 'G', 'I', 'N', ' ', 'C', 'R', 'Y', 'P', 'T', 'O', 'S',
        'E', 'C', ' ',
    ]);
    assert(END@ =~= seq![
        '-', '-', '-', '-', '-', 'E', 'N', 'D', ' ', 'C', 'R', 'Y', 'P', 'T', 'O', 'S', 'E', 'C',
        ' ',
    ]);
    assert(CLOSE@ =~= seq![' ', 'K', 'E', 'Y', '-', '-', '-', '-', '-']);
}

/// A text that is its own trimming neither begins nor ends with white space.
proof fn lemma_trimmed_ends(s: Seq<char>)
    requires
        trimmed(s) == s,
    ensures
        s.len() > 0 ==> !white_space(s[0]) && !white_space(s.last()),
{
    lemma_trim_lengths(s);
    lemma_trim_lengths(trim_start(s));
}

proof fn lemma_trim_lengths(s: Seq<char>)
    ensures
        trim_start(s).len() <= s.len(),
        s.len() > 0 && white_space(s[0]) ==> trim_start(s).len() < s.len(),
        trim_start(s).len() == s.len() ==> trim_start(s) == s,
        trim_end(s).len() <= s.len(),
        s.len() > 0 && white_space(s.last()) ==> trim_end(s).len() < s.len(),
    decreases s.len(),
{
    if s.len() > 0 {
        lemma_trim_lengths(s.skip(1));
        lemma_trim_lengths(s.drop_last());
    }
}

/// The line of a clean field, trimmed, is read as that field.
proof fn lemma_field_line(h: (Seq<char>, Seq<char>))
    requires
        clean_field(h),
    ensures
        ({
            let line = trimmed(h.0 + ": "@ + h.1);
            let i = index_of(line, ':');
            &&& !begins_with(line, STOP@)
            &&& i < line.len()
            &&& trimmed(line.take(i)) == h.0
            &&& trimmed(line.skip(i + 1)) == h.1
        }),
{
    lemma_marks();
    let k = h.0;
    let v = h.1;
    let n = k.len() as int;
    let raw = k + ": "@ + v;
    lemma_trimmed_ends(k);
    lemma_trimmed_ends(v);
    let line = if v.len() == 0 {
        k.push(':')
    } else {
        raw
    };
    if v.len() == 0 {
        assert(raw.last() == ' ');
        assert(raw.drop_last() =~= line);
        assert(line.last() == ':');
        assert(trim_start(raw) == raw) by {
            if n == 0 {
                assert(raw[0] == ':');
            } else {
                assert(raw[0] == k[0]);
            }
        }
        assert(trim_end(raw) == trim_end(line));
        assert(trim_end(line) == line);
    } else {
        assert(raw.last() == v.last());
        if n == 0 {
            assert(raw[0] == ':');
        } else {
            assert(raw[0] == k[0]);
        }
        lemma_trimmed_is(raw);
    }
    assert(trimmed(raw) == line);
    assert(line[n] == ':');
    assert forall|j: int| 0 <= j < n implies line[j] != ':' by {
        assert(line[j] == k[j]);
        assert(k.contains(k[j]));
    }
    lemma_index_of_is(line, ':', n);
    assert(line.take(n) =~= k);
    if v.len() == 0 {
        assert(line.skip(n + 1) =~= v);
    } else {
        let after = line.skip(n + 1);
        assert(after =~= seq![' '] + v);
        assert(after.skip(1) =~= v);
        assert(trim_start(after) == trim_start(v));
    }
    if begins_with(line, STOP@) {
        let head = line.take(8);
        if n >= 8 {
            assert(k.take(8) =~= head);
        } else {
            assert(head[n] == ':');
            assert(STOP@[n] == ':');
        }
        assert(false);
    }
}

/// Clean fields, written as lines in front of a text, are read as those fields.
proof fn lemma_headers(hs: Seq<(Seq<char>, Seq<char>)>, rest: Seq<char>)
    requires
        forall|i: int| 0 <= i < hs.len() ==> clean_field(#[trigger] hs[i]),
    ensures
        headers_in(lines(header_lines(hs) + rest)) == hs + headers_in(lines(rest)),
        body_in(lines(header_lines(hs) + rest), false) == body_in(lines(rest), false),
    decreases hs.len(),
{
    if hs.len() == 0 {
        assert(header_lines(hs) + rest =~= rest);
        assert(hs + headers_in(lines(rest)) =~= headers_in(lines(rest)));
    } else {
        lemma_marks();
        let h = hs[0];
        let line = h.0 + ": "@ + h.1;
        let more = header_lines(hs.skip(1)) + rest;
        assert(clean_field(h));
        assert forall|i: int| 0 <= i < hs.skip(1).len() implies clean_field(
            #[trigger] hs.skip(1)[i],
        ) by {
            assert(clean_field(hs[i + 1]));
        }
        lemma_headers(hs.skip(1), rest);
        assert(header_lines(hs) + rest =~= line + seq!['\n'] + more);
        assert(!line.contains('\n')) by {
            if line.contains('\n') {
                let j = choose|j: int| 0 <= j < line.len() && line[j] == '\n';
                if j < h.0.len() {
                    assert(h.0[j] == '\n');
                } else if j >= h.0.len() + 2 {
                    assert(h.1[j - h.0.len() - 2] == '\n');
                }
            }
        }
        lemma_lines_push(line, more);
        lemma_field_line(h);
        let all = lines(line + seq!['\n'] + more);
        assert(all.skip(1) =~= lines(more));
        assert(hs =~= seq![h] + hs.skip(1));
        assert(hs + headers_in(lines(rest)) =~= seq![h] + (hs.skip(1) + headers_in(lines(rest))));
    }
}

/// Text in base64, written as lines in front of a text, is read as that text.
proof fn lemma_body(b: Seq<char>, rest: Seq<char>)
    requires
        forall|i: int| 0 <= i < b.len() ==> base64_char(#[trigger] b[i]),
    ensures
        body_in(lines(body_lines(b) + rest), true) == b + body_in(lines(rest), true),
    decreases b.len(),
{
    lemma_marks();
    if b.len() == 0 {
        assert(body_lines(b) + rest =~= rest);
        assert(b + body_in(lines(rest), true) =~= body_in(lines(rest), true));
    } else {
        let n = if b.len() <= WIDTH {
            b.len() as int
        } else {
            WIDTH as int
        };
        let line = b.take(n);
        let tail = b.skip(n);
        let more = body_lines(tail) + rest;
        if b.len() <= WIDTH {
            assert(line =~= b);
            assert(tail =~= Seq::empty());
        }
        assert(body_lines(b) =~= line + "\n"@ + body_lines(tail));
        assert(body_lines(b) + rest =~= line + seq!['\n'] + more);
        assert forall|i: int| 0 <= i < line.len() implies base64_char(#[trigger] line[i]) by {
            assert(base64_char(b[i]));
        }
        assert forall|i: int| 0 <= i < tail.len() implies base64_char(#[trigger] tail[i]) by {
            assert(base64_char(b[i + n]));
        }
        lemma_body(tail, rest);
        assert(!line.contains('\n')) by {
            if line.contains('\n') {
                let j = choose|j: int| 0 <= j < line.len() && line[j] == '\n';
                assert(base64_char(line[j]));
            }
        }
        lemma_lines_push(line, more);
        assert(base64_char(line[0]));
        assert(base64_char(line.last()));
        lemma_trimmed_is(line);
        if begins_with(line, STOP@) {
            assert(line.take(8)[0] == '-');
        }
        let all = lines(line + seq!['\n'] + more);
        assert(all.skip(1) =~= lines(more));
        assert(b =~= line + tail);
        assert(b + body_in(lines(rest), true) =~= line + (tail + body_in(lines(rest), true)));
    }
}

/// A clean key file is read as what was written.
proof fn lemma_round_trip(a: ArmorView)
    requires
        clean(a),
        base64_read(base64_of(a.body)) == Ok::<_, Seq<char>>(a.body),
        forall|i: int|
            0 <= i < base64_of(a.body).len() ==> base64_char(#[trigger] base64_of(a.body)[i]),
    ensures
        parsed(rendered(a)) == Ok::<_, Refusal>(a),
{
    lemma_marks();
    let b64 = base64_of(a.body);
    let begin = BEGIN@ + a.kind + CLOSE@;
    let last = END@ + a.kind + CLOSE@;
    let end = last + "\n"@;
    let body = body_lines(b64) + end;
    let rest = header_lines(a.headers) + ("\n"@ + body);
    let text = rendered(a);
    assert(text =~= begin + seq!['\n'] + rest);
    assert(!begin.contains('\n')) by {
        lemma_no_break(BEGIN@, a.kind, CLOSE@);
    }
    lemma_lines_push(begin, rest);
    let all = lines(text);
    assert(all[0] == begin);
    assert(all.skip(1) =~= lines(rest));
    assert(begin[0] == '-');
    assert(begin.last() == '-');
    lemma_trimmed_is(begin);
    assert(begin.take(21) =~= BEGIN@);
    assert(begin.skip(21) =~= a.kind + CLOSE@);
    let named = a.kind + CLOSE@;
    assert(without_head(named, BEGIN@) == named);
    assert(without_head(begin, BEGIN@) == named);
    assert(named.skip(named.len() - 9) =~= CLOSE@);
    assert(named.take(named.len() - 9) =~= a.kind);
    assert(without_tail(a.kind, CLOSE@) == a.kind);
    assert(without_tail(named, CLOSE@) == a.kind);

    // behind the begin line: the fields, a blank line, the body, the end line
    lemma_headers(a.headers, "\n"@ + body);
    assert("\n"@ + body =~= Seq::<char>::empty() + seq!['\n'] + body);
    lemma_lines_push(Seq::empty(), body);
    let tail = lines("\n"@ + body);
    assert(tail[0] =~= Seq::<char>::empty());
    assert(tail.skip(1) =~= lines(body));
    lemma_trimmed_is(Seq::<char>::empty());
    assert(headers_in(tail) =~= Seq::empty());
    assert(a.headers + headers_in(tail) =~= a.headers);
    assert(body_in(tail, false) =~= body_in(lines(body), true));
    lemma_body(b64, end);
    assert(end =~= last + seq!['\n'] + Seq::empty());
    assert(!last.contains('\n')) by {
        lemma_no_break(END@, a.kind, CLOSE@);
    }
    lemma_lines_push(last, Seq::empty());
    assert(lines(end)[0] == last);
    assert(last[0] == END@[0]);
    assert(END@[0] == END@.take(8)[0]);
    assert(last.last() == '-');
    lemma_trimmed_is(last);
    assert(last.take(8) =~= END@.take(8));
    assert(body_in(lines(end), true) =~= Seq::empty());
    assert(b64 + body_in(lines(end), true) =~= b64);
}

/// Parts without a line break make a text without one.
proof fn lemma_no_break(a: Seq<char>, b: Seq<char>, c: Seq<char>)
    requires
        !a.contains('\n'),
        !b.contains('\n'),
        !c.contains('\n'),
    ensures
        !(a + b + c).contains('\n'),
{
    let all = a + b + c;
    if all.contains('\n') {
        let j = choose|j: int| 0 <= j < all.len() && all[j] == '\n';
        if j < a.len() {
            assert(a[j] == '\n');
        } else if j < a.len() + b.len() {
            assert(b[j - a.len()] == '\n');
        } else {
            assert(c[j - a.len() - b.len()] == '\n');
        }
    }
}

// --------------------------------------------------------------------- laws

/// The value of a name is that of the first field of the name, and there is one
/// exactly where there is such a field.
pub proof fn law_first_field_counts(headers: Seq<(Seq<char>, Seq<char>)>, k: Seq<char>)
    ensures
        field_of(headers, k) is None <==> forall|i: int|
            0 <= i < headers.len() ==> (#[trigger] headers[i]).0 != k,
        forall|i: int|
            0 <= i < headers.len() && (#[trigger] headers[i]).0 == k && (forall|j: int|
                0 <= j < i ==> (#[trigger] headers[j]).0 != k) ==> field_of(headers, k) == Some(
                headers[i].1,
            ),
    decreases headers.len(),
{
    if headers.len() > 0 {
        let rest = headers.skip(1);
        law_first_field_counts(rest, k);
        assert forall|i: int| 0 <= i < rest.len() implies #[trigger] rest[i] == headers[i + 1] by {}
        if headers[0].0 != k {
            if field_of(headers, k) is None {
                assert forall|i: int| 0 <= i < headers.len() implies (#[trigger] headers[i]).0
                    != k by {
                    if i > 0 {
                        assert(rest[i - 1].0 != k);
                    }
                }
            }
            assert forall|i: int|
                0 <= i < headers.len() && (#[trigger] headers[i]).0 == k && (forall|j: int|
                    0 <= j < i ==> (#[trigger] headers[j]).0 != k) implies field_of(headers, k)
                == Some(headers[i].1) by {
                assert(rest[i - 1] == headers[i]);
                assert forall|j: int| 0 <= j < i - 1 implies (#[trigger] rest[j]).0 != k by {
                    assert(headers[j + 1].0 != k);
                }
            }
        }
    }
}

/// Fields are written one to a line, in their order: the name, a colon and a space,
/// and the value.
pub proof fn law_fields_are_lines(
    a: Seq<(Seq<char>, Seq<char>)>,
    b: Seq<(Seq<char>, Seq<char>)>,
    h: (Seq<char>, Seq<char>),
)
    ensures
        header_lines(a + b) == header_lines(a) + header_lines(b),
        header_lines(seq![h]) == h.0 + seq![':', ' '] + h.1 + seq!['\n'],
    decreases a.len(),
{
    reveal_strlit(": ");
    reveal_strlit("\n");
    let one = seq![h];
    assert(one.skip(1) =~= Seq::empty());
    assert(": "@ =~= seq![':', ' ']);
    assert("\n"@ =~= seq!['\n']);
    assert(header_lines(one.skip(1)) =~= Seq::empty());
    assert(header_lines(one) =~= h.0 + seq![':', ' '] + h.1 + seq!['\n']);
    if a.len() == 0 {
        assert(a + b =~= b);
        assert(header_lines(a) + header_lines(b) =~= header_lines(b));
    } else {
        law_fields_are_lines(a.skip(1), b, h);
        assert((a + b).skip(1) =~= a.skip(1) + b);
        let line = a[0].0 + ": "@ + a[0].1 + "\n"@;
        assert((a + b)[0] == a[0]);
        assert(line + (header_lines(a.skip(1)) + header_lines(b)) =~= (line + header_lines(
            a.skip(1),
        )) + header_lines(b));
    }
}

/// The body is written in lines of 64 characters: with a line feed behind every 64,
/// and one at the end. So its character number `i` stands `i / 64` places further.
pub proof fn law_body_is_in_lines_of_64(b: Seq<char>, i: int)
    requires
        0 <= i < b.len(),
    ensures
        body_lines(b).len() == b.len() + (b.len() + 63) / 64,
        body_lines(b)[i + i / 64] == b[i],
        body_lines(b)[65 * (i / 64) + if b.len() - 64 * (i / 64) < 64 {
            b.len() - 64 * (i / 64)
        } else {
            64
        }] == '\n',
    decreases b.len(),
{
    reveal_strlit("\n");
    assert("\n"@ =~= seq!['\n']);
    let all = body_lines(b);
    if b.len() <= 64 {
        assert(i / 64 == 0);
        assert(all =~= b + seq!['\n']);
    } else {
        let tail = b.skip(64);
        let rest = body_lines(tail);
        assert(all =~= b.take(64) + seq!['\n'] + rest);
        if i >= 64 {
            let j = i - 64;
            law_body_is_in_lines_of_64(tail, j);
            assert(j / 64 == i / 64 - 1);
            assert(tail[j] == b[i]);
            assert(all[i + i / 64] == rest[j + j / 64]);
            let n = tail.len() - 64 * (j / 64);
            assert(n == b.len() - 64 * (i / 64));
            let at = 65 * (j / 64) + if n < 64 {
                n
            } else {
                64
            };
            assert(rest[at] == '\n');
            assert(0 <= at < rest.len());
            assert(all[65 + at] == rest[at]);
        } else {
            law_body_is_in_lines_of_64(tail, 0);
            assert(i / 64 == 0);
        }
    }
}

/// A key file is a begin line with its kind, the fields, a blank line, the body in
/// base64, and an end line with its kind, and nothing else.
pub proof fn law_text_of_a_key_file(a: ArmorView)
    ensures
        rendered(a) == "-----BEGIN CRYPTOSEC "@ + a.kind + " KEY-----\n"@ + header_lines(a.headers)
            + "\n"@ + body_lines(base64_of(a.body)) + "-----END CRYPTOSEC "@ + a.kind
            + " KEY-----\n"@,
{
    reveal_strlit(" KEY-----");
    reveal_strlit(" KEY-----\n");
    reveal_strlit("\n");
    assert(" KEY-----\n"@ =~= " KEY-----"@ + "\n"@);
    assert(rendered(a) =~= "-----BEGIN CRYPTOSEC "@ + a.kind + " KEY-----\n"@ + header_lines(
        a.headers,
    ) + "\n"@ + body_lines(base64_of(a.body)) + "-----END CRYPTOSEC "@ + a.kind
        + " KEY-----\n"@);
}

/// A clean key file is read as what was written, wherever base64 gives back what it
/// was made of.
pub proof fn law_key_file_comes_back(a: ArmorView)
    requires
        clean(a),
        base64_read(base64_of(a.body)) == Ok::<_, Seq<char>>(a.body),
        forall|i: int|
            0 <= i < base64_of(a.body).len() ==> base64_char(#[trigger] base64_of(a.body)[i]),
    ensures
        parsed(rendered(a)) == Ok::<_, Refusal>(a),
{
    lemma_round_trip(a);
}

/// What is a key file: something with a first line that begins as begin lines do,
/// and a body in base64. Anything else is refused for the first of these that fails.
pub proof fn law_what_is_a_key_file(text: Seq<char>)
    ensures
        parsed(text) == Err::<ArmorView, _>(Refusal::Is(Fault::EmptyKeyFile)) <==> text.len() == 0,
        parsed(text) == Err::<ArmorView, _>(Refusal::Is(Fault::NotKeyFile)) <==> text.len() > 0
            && !begins_with(trimmed(lines(text)[0]), "-----BEGIN CRYPTOSEC "@),
        parsed(text) is Ok ==> text.len() > 0 && begins_with(
            trimmed(lines(text)[0]),
            "-----BEGIN CRYPTOSEC "@,
        ),
        parsed(text) matches Err(f) ==> f is DamagedKeyFile || f == Refusal::Is(
            Fault::EmptyKeyFile,
        ) || f == Refusal::Is(Fault::NotKeyFile),
{
}

/// White space around lines does not matter, and neither does how lines end: two
/// texts whose lines are the same once they are trimmed say the same.
pub proof fn law_white_space_around_lines_does_not_matter(a: Seq<char>, b: Seq<char>)
    requires
        lines(a).len() == lines(b).len(),
        forall|i: int|
            0 <= i < lines(a).len() ==> trimmed(#[trigger] lines(a)[i]) == trimmed(lines(b)[i]),
    ensures
        parsed(a) == parsed(b),
{
    let x = lines(a);
    let y = lines(b);
    if x.len() > 0 {
        assert(trimmed(x[0]) == trimmed(y[0]));
        let p = x.skip(1);
        let q = y.skip(1);
        assert forall|i: int| 0 <= i < p.len() implies trimmed(#[trigger] p[i]) == trimmed(
            q[i],
        ) by {
            assert(trimmed(x[i + 1]) == trimmed(y[i + 1]));
        }
        lemma_trimmed_alike(p, q, false);
    }
}

proof fn lemma_trimmed_alike(p: Seq<Seq<char>>, q: Seq<Seq<char>>, in_body: bool)
    requires
        p.len() == q.len(),
        forall|i: int| 0 <= i < p.len() ==> trimmed(#[trigger] p[i]) == trimmed(q[i]),
    ensures
        headers_in(p) == headers_in(q),
        body_in(p, in_body) == body_in(q, in_body),
    decreases p.len(),
{
    if p.len() > 0 {
        assert(trimmed(p[0]) == trimmed(q[0]));
        assert forall|i: int| 0 <= i < p.skip(1).len() implies trimmed(#[trigger] p.skip(1)[i])
            == trimmed(q.skip(1)[i]) by {
            assert(trimmed(p[i + 1]) == trimmed(q[i + 1]));
        }
        lemma_trimmed_alike(p.skip(1), q.skip(1), true);
        lemma_trimmed_alike(p.skip(1), q.skip(1), false);
    }
}

/// What stands behind the end line does not matter: the fields and the body are
/// those in front of it.
pub proof fn law_nothing_counts_behind_the_end(
    front: Seq<Seq<char>>,
    end: Seq<char>,
    behind: Seq<Seq<char>>,
    in_body: bool,
)
    requires
        begins_with(trimmed(end), "-----END"@),
    ensures
        headers_in(front + seq![end] + behind) == headers_in(front),
        body_in(front + seq![end] + behind, in_body) == body_in(front, in_body),
    decreases front.len(),
{
    let all = front + seq![end] + behind;
    if front.len() == 0 {
        assert(all[0] == end);
    } else {
        assert(all[0] == front[0]);
        assert(all.skip(1) =~= front.skip(1) + seq![end] + behind);
        law_nothing_counts_behind_the_end(front.skip(1), end, behind, true);
        law_nothing_counts_behind_the_end(front.skip(1), end, behind, false);
    }
}

/// A line with a colon in front of the body is a field: its name is what stands in
/// front of the first colon, and its value what stands behind it, both trimmed. The
/// first line without one begins the body, and from there on every line belongs to
/// it, up to the end line.
pub proof fn law_fields_come_before_the_body(
    line: Seq<char>,
    k: Seq<char>,
    v: Seq<char>,
    plain: Seq<char>,
    rest: Seq<Seq<char>>,
)
    requires
        trimmed(line) == k + seq![':'] + v,
        !k.contains(':'),
        !begins_with(trimmed(line), "-----END"@),
        !trimmed(plain).contains(':'),
        !begins_with(trimmed(plain), "-----END"@),
    ensures
        headers_in(seq![line] + rest) == seq![(trimmed(k), trimmed(v))] + headers_in(rest),
        body_in(seq![line] + rest, false) == body_in(rest, false),
        body_in(seq![line] + rest, true) == trimmed(line) + body_in(rest, true),
        headers_in(seq![plain] + rest) == Seq::<(Seq<char>, Seq<char>)>::empty(),
        body_in(seq![plain] + rest, false) == trimmed(plain) + body_in(rest, true),
        body_in(seq![plain] + rest, true) == trimmed(plain) + body_in(rest, true),
{
    let a = seq![line] + rest;
    let b = seq![plain] + rest;
    assert(a[0] == line && a.skip(1) =~= rest);
    assert(b[0] == plain && b.skip(1) =~= rest);
    let t = trimmed(line);
    let n = k.len() as int;
    assert forall|j: int| 0 <= j < n implies t[j] != ':' by {
        assert(k.contains(k[j]));
    }
    lemma_index_of_is(t, ':', n);
    assert(t.take(n) =~= k);
    assert(t.skip(n + 1) =~= v);
    let u = trimmed(plain);
    assert forall|j: int| 0 <= j < u.len() implies u[j] != ':' by {
        assert(u.contains(u[j]));
    }
    lemma_index_of_is(u, ':', u.len() as int);
}

/// The marks around the kind are taken off as often as they stand there, and only
/// from its ends.
pub proof fn law_marks_are_taken_off(text: Seq<char>, mark: Seq<char>)
    requires
        mark.len() > 0,
    ensures
        without_head(mark + text, mark) == without_head(text, mark),
        without_tail(text + mark, mark) == without_tail(text, mark),
        !begins_with(text, mark) ==> without_head(text, mark) == text,
        !ends_with(text, mark) ==> without_tail(text, mark) == text,
{
    let a = mark + text;
    let b = text + mark;
    assert(a.take(mark.len() as int) =~= mark);
    assert(a.skip(mark.len() as int) =~= text);
    assert(b.skip(b.len() - mark.len()) =~= mark);
    assert(b.take(b.len() - mark.len()) =~= text);
}

/// The fields of a key file are the names and values that were put in, in the same
/// order.
pub proof fn law_fields_are_what_was_put_in(headers: Seq<(String, String)>)
    ensures
        fields(headers).len() == headers.len(),
        forall|i: int|
            0 <= i < headers.len() ==> #[trigger] fields(headers)[i] == (
                headers[i].0@,
                headers[i].1@,
            ),
{
}

} // verus!
