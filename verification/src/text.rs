//! Small exact operations on bytes and characters that the rest of the library
//! is built from.
use vstd::prelude::*;
use vstd::slice::slice_subrange;
use vstd::string::*;

verus! {

// ------------------------------------------------------------------- bytes

/// Whether two byte strings are the same.
pub fn same_bytes(a: &[u8], b: &[u8]) -> (same: bool)
    ensures
        same == (a@ == b@),
{
    if a.len() != b.len() {
        return false;
    }
    let mut i: usize = 0;
    while i < a.len()
        invariant
            a@.len() == b@.len(),
            i <= a@.len(),
            forall|j: int| 0 <= j < i ==> a@[j] == b@[j],
        decreases a@.len() - i,
    {
        if a[i] != b[i] {
            return false;
        }
        i += 1;
    }
    assert(a@ =~= b@);
    true
}

/// Whether `data` begins with `head`.
pub open spec fn begins_with<T>(data: Seq<T>, head: Seq<T>) -> bool {
    head.len() <= data.len() && data.take(head.len() as int) == head
}

/// Whether a byte string begins with another one.
pub fn bytes_begin_with(data: &[u8], head: &[u8]) -> (yes: bool)
    ensures
        yes == begins_with(data@, head@),
{
    if head.len() > data.len() {
        return false;
    }
    let part = slice_subrange(data, 0, head.len());
    assert(part@ =~= data@.take(head@.len() as int));
    same_bytes(part, head)
}

/// Puts the bytes of `more` behind those of `bytes`.
pub fn push_bytes(bytes: &mut Vec<u8>, more: &[u8])
    ensures
        final(bytes)@ == old(bytes)@ + more@,
{
    bytes.extend_from_slice(more);
    assert(bytes@ =~= old(bytes)@ + more@);
}

/// A number as four bytes, the least significant one first.
pub open spec fn le32(n: u32) -> Seq<u8> {
    seq![
        (n % 0x100) as u8,
        ((n / 0x100) % 0x100) as u8,
        ((n / 0x1_0000) % 0x100) as u8,
        (n / 0x100_0000) as u8,
    ]
}

/// The number that four bytes stand for, the least significant one first.
pub open spec fn from_le32(b: Seq<u8>) -> int {
    b[0] + 0x100 * b[1] + 0x1_0000 * b[2] + 0x100_0000 * b[3]
}

/// Writing a number down and reading it again gives the number.
pub proof fn lemma_le32(n: u32)
    ensures
        from_le32(le32(n)) == n,
        le32(n).len() == 4,
{
    let a: u32 = n / 0x100;
    let b: u32 = n / 0x1_0000;
    let c: u32 = n / 0x100_0000;
    assert(n == 0x100 * a + n % 0x100);
    assert(b == a / 0x100);
    assert(a == 0x100 * b + a % 0x100);
    assert(c == b / 0x100);
    assert(b == 0x100 * c + b % 0x100);
    assert(c < 0x100);
}

/// Writes a number as four bytes, the least significant one first.
pub fn le32_bytes(n: u32) -> (b: [u8; 4])
    ensures
        b@ == le32(n),
        from_le32(b@) == n,
{
    let b = [
        (n % 0x100) as u8,
        ((n / 0x100) % 0x100) as u8,
        ((n / 0x1_0000) % 0x100) as u8,
        (n / 0x100_0000) as u8,
    ];
    assert(b@ =~= le32(n));
    proof {
        lemma_le32(n);
    }
    b
}

/// Reads a number from four bytes, the least significant one first.
pub fn le32_value(b: &[u8]) -> (n: u32)
    requires
        b@.len() == 4,
    ensures
        n == from_le32(b@),
        le32(n) == b@,
{
    let n: u32 = b[0] as u32 + 0x100 * (b[1] as u32) + 0x1_0000 * (b[2] as u32) + 0x100_0000 * (
    b[3] as u32);
    proof {
        let hi: u32 = (b@[1] + 0x100 * b@[2] + 0x1_0000 * b@[3]) as u32;
        let top: u32 = (b@[2] + 0x100 * b@[3]) as u32;
        assert(n == b@[0] + 0x100 * hi);
        assert(n / 0x100 == hi);
        assert(hi == b@[1] + 0x100 * top);
        assert(hi / 0x100 == top);
        assert(n / 0x1_0000 == top);
        assert(n / 0x100_0000 == b@[3]);
        assert(le32(n)[0] == b@[0]);
        assert(le32(n)[1] == b@[1]);
        assert(le32(n)[2] == b@[2]);
        assert(le32(n)[3] == b@[3]);
        assert(le32(n) =~= b@);
    }
    n
}

/// The 32 bytes of `data`, where it has exactly that many.
pub fn array_32(data: &[u8]) -> (res: Option<[u8; 32]>)
    ensures
        res is Some <==> data@.len() == 32,
        res matches Some(a) ==> a@ == data@,
{
    if data.len() != 32 {
        return None;
    }
    let mut a = [0u8; 32];
    let mut i: usize = 0;
    while i < 32
        invariant
            data@.len() == 32,
            i <= 32,
            forall|j: int| 0 <= j < i ==> a@[j] == data@[j],
        decreases 32 - i,
    {
        a[i] = data[i];
        i += 1;
    }
    assert(a@ =~= data@);
    Some(a)
}

/// The 12 bytes of `data`, where it has exactly that many.
pub fn array_12(data: &[u8]) -> (res: Option<[u8; 12]>)
    ensures
        res is Some <==> data@.len() == 12,
        res matches Some(a) ==> a@ == data@,
{
    if data.len() != 12 {
        return None;
    }
    let mut a = [0u8; 12];
    let mut i: usize = 0;
    while i < 12
        invariant
            data@.len() == 12,
            i <= 12,
            forall|j: int| 0 <= j < i ==> a@[j] == data@[j],
        decreases 12 - i,
    {
        a[i] = data[i];
        i += 1;
    }
    assert(a@ =~= data@);
    Some(a)
}

/// The 7 bytes of `data`, where it has exactly that many.
pub fn array_7(data: &[u8]) -> (res: Option<[u8; 7]>)
    ensures
        res is Some <==> data@.len() == 7,
        res matches Some(a) ==> a@ == data@,
{
    if data.len() != 7 {
        return None;
    }
    let a = [data[0], data[1], data[2], data[3], data[4], data[5], data[6]];
    assert(a@ =~= data@);
    Some(a)
}

/// Whether one byte string comes before another or is the same, byte by byte.
pub open spec fn before(a: Seq<u8>, b: Seq<u8>) -> bool
    decreases a.len(),
{
    if a.len() == 0 {
        true
    } else if b.len() == 0 {
        false
    } else {
        a[0] < b[0] || a[0] == b[0] && before(a.skip(1), b.skip(1))
    }
}

/// Of two byte strings one comes before the other.
pub proof fn lemma_before_total(a: Seq<u8>, b: Seq<u8>)
    ensures
        before(a, b) || before(b, a),
    decreases a.len(),
{
    if a.len() > 0 && b.len() > 0 {
        lemma_before_total(a.skip(1), b.skip(1));
    }
}

/// What comes before what comes before comes before.
pub proof fn lemma_before_transitive(a: Seq<u8>, b: Seq<u8>, c: Seq<u8>)
    requires
        before(a, b),
        before(b, c),
    ensures
        before(a, c),
    decreases a.len(),
{
    if a.len() > 0 && a[0] == b[0] && b[0] == c[0] {
        lemma_before_transitive(a.skip(1), b.skip(1), c.skip(1));
    }
}

/// Whether one byte string comes before another or is the same.
pub fn bytes_before(a: &[u8], b: &[u8]) -> (yes: bool)
    ensures
        yes == before(a@, b@),
{
    let mut i: usize = 0;
    assert(a@.skip(0) =~= a@);
    assert(b@.skip(0) =~= b@);
    while i < a.len() && i < b.len()
        invariant
            i <= a@.len(),
            i <= b@.len(),
            before(a@, b@) == before(a@.skip(i as int), b@.skip(i as int)),
        decreases a@.len() - i,
    {
        if a[i] < b[i] {
            return true;
        }
        if a[i] > b[i] {
            return false;
        }
        assert(a@.skip(i as int).skip(1) =~= a@.skip(i + 1));
        assert(b@.skip(i as int).skip(1) =~= b@.skip(i + 1));
        i += 1;
    }
    i == a.len()
}

// -------------------------------------------------------------- characters

/// `String::push`: the character comes behind those that are there.
pub assume_specification[ String::push ](s: &mut String, c: char)
    ensures
        final(s)@ == old(s)@.push(c),
;

/// Whether two texts are the same.
pub fn same_text(a: &str, b: &str) -> (same: bool)
    ensures
        same == (a@ == b@),
{
    proof {
        vstd::utf8::encode_utf8_decode_utf8(a@);
        vstd::utf8::encode_utf8_decode_utf8(b@);
    }
    same_bytes(a.as_bytes(), b.as_bytes())
}

/// The characters of a text.
pub fn chars_of(s: &str) -> (v: Vec<char>)
    ensures
        v@ == s@,
{
    let mut v: Vec<char> = Vec::new();
    for c in it: s.chars()
        invariant
            it.seq() == s@,
            v@ == it.seq().take(it.index()),
    {
        v.push(c);
    }
    assert(v@ =~= s@);
    v
}

/// The text that a row of characters makes.
pub fn text_of(chars: &[char]) -> (s: String)
    ensures
        s@ == chars@,
{
    let mut s = String::new();
    let mut i: usize = 0;
    while i < chars.len()
        invariant
            i <= chars@.len(),
            s@ == chars@.take(i as int),
        decreases chars@.len() - i,
    {
        s.push(chars[i]);
        i += 1;
        assert(s@ =~= chars@.take(i as int));
    }
    assert(s@ =~= chars@);
    s
}

/// Whether two rows of characters are the same.
pub fn same_chars(a: &[char], b: &[char]) -> (same: bool)
    ensures
        same == (a@ == b@),
{
    if a.len() != b.len() {
        return false;
    }
    let mut i: usize = 0;
    while i < a.len()
        invariant
            a@.len() == b@.len(),
            i <= a@.len(),
            forall|j: int| 0 <= j < i ==> a@[j] == b@[j],
        decreases a@.len() - i,
    {
        if a[i] != b[i] {
            return false;
        }
        i += 1;
    }
    assert(a@ =~= b@);
    true
}

/// Whether a row of characters begins with another one.
pub fn chars_begin_with(text: &[char], head: &[char]) -> (yes: bool)
    ensures
        yes == begins_with(text@, head@),
{
    if head.len() > text.len() {
        return false;
    }
    let part = slice_subrange(text, 0, head.len());
    assert(part@ =~= text@.take(head@.len() as int));
    same_chars(part, head)
}

/// Whether `data` ends with `tail`.
pub open spec fn ends_with<T>(data: Seq<T>, tail: Seq<T>) -> bool {
    tail.len() <= data.len() && data.skip(data.len() - tail.len()) == tail
}

/// Whether a row of characters ends with another one.
pub fn chars_end_with(text: &[char], tail: &[char]) -> (yes: bool)
    ensures
        yes == ends_with(text@, tail@),
{
    if tail.len() > text.len() {
        return false;
    }
    let part = slice_subrange(text, text.len() - tail.len(), text.len());
    assert(part@ =~= text@.skip(text@.len() - tail@.len()));
    same_chars(part, tail)
}

/// The first place of `c` in `text`, or the length where it does not occur.
pub open spec fn index_of(text: Seq<char>, c: char) -> int
    decreases text.len(),
{
    if text.len() == 0 || text[0] == c {
        0
    } else {
        1 + index_of(text.skip(1), c)
    }
}

/// What `index_of` says of the characters before that place and at it.
pub proof fn lemma_index_of(text: Seq<char>, c: char)
    ensures
        0 <= index_of(text, c) <= text.len(),
        forall|j: int| 0 <= j < index_of(text, c) ==> text[j] != c,
        index_of(text, c) < text.len() ==> text[index_of(text, c)] == c,
    decreases text.len(),
{
    if text.len() > 0 && text[0] != c {
        let rest = text.skip(1);
        lemma_index_of(rest, c);
        assert forall|j: int| 0 <= j < index_of(text, c) implies text[j] != c by {
            if j > 0 {
                assert(rest[j - 1] == text[j]);
            }
        }
    }
}

/// `index_of` is that place, and no other.
pub proof fn lemma_index_of_is(text: Seq<char>, c: char, i: int)
    requires
        0 <= i <= text.len(),
        forall|j: int| 0 <= j < i ==> text[j] != c,
        i < text.len() ==> text[i] == c,
    ensures
        index_of(text, c) == i,
{
    lemma_index_of(text, c);
}

/// Finds the first place of `c`, or the length where it does not occur.
pub fn find_char(text: &[char], c: char) -> (i: usize)
    ensures
        i == index_of(text@, c),
        i <= text@.len(),
{
    let mut i: usize = 0;
    while i < text.len()
        invariant
            i <= text@.len(),
            forall|j: int| 0 <= j < i ==> text@[j] != c,
        decreases text@.len() - i,
    {
        if text[i] == c {
            proof {
                lemma_index_of_is(text@, c, i as int);
            }
            return i;
        }
        i += 1;
    }
    proof {
        lemma_index_of_is(text@, c, i as int);
    }
    i
}

// -------------------------------------------------------------- white space

/// The characters that Unicode counts as white space.
pub open spec fn white_space(c: char) -> bool {
    let n = c as u32;
    ||| 0x09 <= n <= 0x0d
    ||| n == 0x20
    ||| n == 0x85
    ||| n == 0xa0
    ||| n == 0x1680
    ||| 0x2000 <= n <= 0x200a
    ||| n == 0x2028
    ||| n == 0x2029
    ||| n == 0x202f
    ||| n == 0x205f
    ||| n == 0x3000
}

/// Whether a character is white space.
pub fn is_white_space(c: char) -> (yes: bool)
    ensures
        yes == white_space(c),
{
    let n: u32 = c as u32;
    (0x09 <= n && n <= 0x0d) || n == 0x20 || n == 0x85 || n == 0xa0 || n == 0x1680 || (0x2000 <= n
        && n <= 0x200a) || n == 0x2028 || n == 0x2029 || n == 0x202f || n == 0x205f || n == 0x3000
}

/// A text without the white space at its beginning.
pub open spec fn trim_start(s: Seq<char>) -> Seq<char>
    decreases s.len(),
{
    if s.len() > 0 && white_space(s[0]) {
        trim_start(s.skip(1))
    } else {
        s
    }
}

/// A text without the white space at its end.
pub open spec fn trim_end(s: Seq<char>) -> Seq<char>
    decreases s.len(),
{
    if s.len() > 0 && white_space(s.last()) {
        trim_end(s.drop_last())
    } else {
        s
    }
}

/// A text without the white space at both ends.
pub open spec fn trimmed(s: Seq<char>) -> Seq<char> {
    trim_end(trim_start(s))
}

/// Leaves out the white space at both ends.
pub fn trim<'a>(text: &'a [char]) -> (res: &'a [char])
    ensures
        res@ == trimmed(text@),
{
    let mut i: usize = 0;
    assert(text@.skip(0) =~= text@);
    while i < text.len() && is_white_space(text[i])
        invariant
            i <= text@.len(),
            trim_start(text@) == trim_start(text@.skip(i as int)),
        decreases text@.len() - i,
    {
        assert(text@.skip(i as int).skip(1) =~= text@.skip(i + 1));
        i += 1;
    }
    let ghost s = text@.skip(i as int);
    let mut j: usize = text.len();
    assert(text@.subrange(i as int, j as int) =~= s);
    while j > i && is_white_space(text[j - 1])
        invariant
            i <= j <= text@.len(),
            trim_end(s) == trim_end(text@.subrange(i as int, j as int)),
        decreases j,
    {
        assert(text@.subrange(i as int, j as int).drop_last() =~= text@.subrange(
            i as int,
            j - 1,
        ));
        j -= 1;
    }
    slice_subrange(text, i, j)
}

/// A text that neither begins nor ends with white space is left as it is.
pub proof fn lemma_trimmed_is(s: Seq<char>)
    requires
        s.len() > 0 ==> !white_space(s[0]) && !white_space(s.last()),
    ensures
        trimmed(s) == s,
{
}

// ------------------------------------------------------------------- lines

/// The lines of a text: what stands between its line feeds. What comes behind
/// the last one is a line only where it holds something.
pub open spec fn lines(text: Seq<char>) -> Seq<Seq<char>>
    decreases text.len(),
    via lines_decreases
{
    let i = index_of(text, '\n');
    if text.len() == 0 {
        Seq::empty()
    } else if i == text.len() {
        seq![text]
    } else {
        seq![text.take(i)] + lines(text.skip(i + 1))
    }
}

#[via_fn]
proof fn lines_decreases(text: Seq<char>) {
    lemma_index_of(text, '\n');
}

/// A line and its line feed in front of a text is the first of its lines.
pub proof fn lemma_lines_push(line: Seq<char>, rest: Seq<char>)
    requires
        !line.contains('\n'),
    ensures
        lines(line + seq!['\n'] + rest) == seq![line] + lines(rest),
{
    let text = line + seq!['\n'] + rest;
    let n = line.len() as int;
    assert forall|j: int| 0 <= j < n implies text[j] != '\n' by {
        assert(text[j] == line[j]);
        assert(line.contains(line[j]));
    }
    assert(text[n] == '\n');
    lemma_index_of_is(text, '\n', n);
    assert(text.take(n) =~= line);
    assert(text.skip(n + 1) =~= rest);
}

/// The rows of characters that a list of them stands for.
pub open spec fn rows(list: Seq<Vec<char>>) -> Seq<Seq<char>> {
    list.map_values(|row: Vec<char>| row@)
}

/// Splits a text into its lines.
pub fn split_lines(text: &[char]) -> (res: Vec<Vec<char>>)
    ensures
        rows(res@) == lines(text@),
{
    let mut res: Vec<Vec<char>> = Vec::new();
    let mut from: usize = 0;
    assert(text@.skip(0) =~= text@);
    assert(rows(res@) + lines(text@) =~= lines(text@));
    while from < text.len()
        invariant
            from <= text@.len(),
            rows(res@) + lines(text@.skip(from as int)) == lines(text@),
        decreases text@.len() - from,
    {
        let rest = slice_subrange(text, from, text.len());
        assert(rest@ =~= text@.skip(from as int));
        let i: usize = find_char(rest, '\n');
        proof {
            lemma_index_of(rest@, '\n');
        }
        let row = vstd::slice::slice_to_vec(slice_subrange(rest, 0, i));
        assert(row@ =~= rest@.take(i as int));
        let ghost before = rows(res@);
        res.push(row);
        assert(rows(res@) =~= before + seq![rest@.take(i as int)]);
        if i == rest.len() {
            assert(rest@.take(i as int) =~= rest@);
            assert(before + seq![rest@] =~= rows(res@));
            return res;
        }
        assert(rest@.skip(i + 1) =~= text@.skip(from + i + 1));
        assert(before + (seq![rest@.take(i as int)] + lines(rest@.skip(i + 1))) =~= rows(res@)
            + lines(rest@.skip(i + 1)));
        from = from + i + 1;
    }
    assert(lines(text@.skip(from as int)) =~= Seq::empty());
    assert(rows(res@) =~= lines(text@));
    res
}

// --------------------------------------------------------------- rendering

/// The hexadecimal digit of a number below 16.
pub open spec fn hex_digit(n: int) -> char {
    if n < 10 {
        (48 + n) as char
    } else {
        (87 + n) as char
    }
}

/// Bytes as hexadecimal digits, two for each.
pub open spec fn hex(bytes: Seq<u8>) -> Seq<char>
    decreases bytes.len(),
{
    if bytes.len() == 0 {
        Seq::empty()
    } else {
        let b = bytes.last();
        hex(bytes.drop_last()) + seq![hex_digit(b as int / 16), hex_digit(b as int % 16)]
    }
}

fn digit(n: u8) -> (c: char)
    requires
        n < 16,
    ensures
        c == hex_digit(n as int),
{
    if n < 10 {
        (48 + n) as char
    } else {
        (87 + n) as char
    }
}

/// Writes bytes as hexadecimal digits.
pub fn hex_text(bytes: &[u8]) -> (s: String)
    ensures
        s@ == hex(bytes@),
{
    let mut s = String::new();
    let mut i: usize = 0;
    while i < bytes.len()
        invariant
            i <= bytes@.len(),
            s@ == hex(bytes@.take(i as int)),
        decreases bytes@.len() - i,
    {
        let b: u8 = bytes[i];
        let ghost before = s@;
        s.push(digit(b / 16));
        s.push(digit(b % 16));
        i += 1;
        assert(bytes@.take(i as int).drop_last() =~= bytes@.take(i - 1));
        assert(s@ =~= before + seq![hex_digit(b as int / 16), hex_digit(b as int % 16)]);
    }
    assert(bytes@.take(i as int) =~= bytes@);
    s
}

/// A number in decimal digits.
pub open spec fn decimal(n: nat) -> Seq<char>
    decreases n,
{
    if n < 10 {
        seq![hex_digit(n as int)]
    } else {
        decimal(n / 10).push(hex_digit((n % 10) as int))
    }
}

/// Writes a number in decimal digits.
pub fn decimal_text(n: u64) -> (s: String)
    ensures
        s@ == decimal(n as nat),
    decreases n,
{
    if n < 10 {
        let mut s = String::new();
        s.push(digit(n as u8));
        assert(s@ =~= decimal(n as nat));
        s
    } else {
        let mut s = decimal_text(n / 10);
        s.push(digit((n % 10) as u8));
        s
    }
}

/// A letter of ASCII in lower case, and any other character as it is.
pub open spec fn lower(c: char) -> char {
    if 'A' <= c <= 'Z' {
        (c as int + 32) as char
    } else {
        c
    }
}

/// A text with the letters of ASCII in lower case.
pub open spec fn lowercase(text: Seq<char>) -> Seq<char> {
    text.map_values(|c: char| lower(c))
}

/// Puts the letters of ASCII in lower case.
pub fn lowercase_text(text: &str) -> (s: String)
    ensures
        s@ == lowercase(text@),
{
    let chars = chars_of(text);
    let mut s = String::new();
    let mut i: usize = 0;
    while i < chars.len()
        invariant
            i <= chars@.len(),
            s@ == lowercase(chars@.take(i as int)),
        decreases chars@.len() - i,
    {
        let c: char = chars[i];
        if 'A' <= c && c <= 'Z' {
            s.push((c as u8 + 32) as char);
        } else {
            s.push(c);
        }
        i += 1;
        assert(s@ =~= lowercase(chars@.take(i as int)));
    }
    assert(chars@.take(i as int) =~= chars@);
    s
}

/// As many spaces as it takes to fill `text` up to `width` characters.
pub open spec fn padding(text: Seq<char>, width: int) -> Seq<char> {
    Seq::new(
        if width > text.len() {
            (width - text.len()) as nat
        } else {
            0
        },
        |i: int| ' ',
    )
}

/// A text filled up with spaces on its right.
pub open spec fn padded(text: Seq<char>, width: int) -> Seq<char> {
    text + padding(text, width)
}

/// Fills a text up with spaces on its right.
pub fn pad_right(text: &str, width: usize) -> (s: String)
    ensures
        s@ == padded(text@, width as int),
{
    let chars = chars_of(text);
    let mut s = text_of(&chars);
    let mut n: usize = chars.len();
    assert(s@ =~= text@ + Seq::<char>::empty());
    while n < width
        invariant
            n >= text@.len(),
            n == text@.len() || n <= width,
            s@ == text@ + Seq::new((n - text@.len()) as nat, |i: int| ' '),
        decreases width - n,
    {
        s.push(' ');
        n += 1;
        assert(s@ =~= text@ + Seq::new((n - text@.len()) as nat, |i: int| ' '));
    }
    assert(s@ =~= padded(text@, width as int));
    s
}

/// The characters of a list of texts.
pub open spec fn texts(list: Seq<String>) -> Seq<Seq<char>> {
    list.map_values(|s: String| s@)
}

// --------------------------------------------------------------------- laws

/// One byte string comes before another or is the same exactly where it is a
/// beginning of it, or has the smaller byte at the first place where they differ.
pub proof fn law_before_is_lexicographic(a: Seq<u8>, b: Seq<u8>)
    ensures
        before(a, b) <==> {
            ||| a.len() <= b.len() && forall|k: int| 0 <= k < a.len() ==> a[k] == b[k]
            ||| exists|k: int|
                0 <= k < a.len() && k < b.len() && #[trigger] a[k] < b[k] && forall|j: int|
                    0 <= j < k ==> a[j] == b[j]
        },
    decreases a.len(),
{
    if a.len() > 0 && b.len() > 0 {
        let x = a.skip(1);
        let y = b.skip(1);
        law_before_is_lexicographic(x, y);
        if a[0] == b[0] {
            if before(x, y) {
                if x.len() <= y.len() && forall|k: int| 0 <= k < x.len() ==> x[k] == y[k] {
                    assert forall|k: int| 0 <= k < a.len() implies a[k] == b[k] by {
                        if k > 0 {
                            assert(x[k - 1] == y[k - 1]);
                        }
                    }
                } else {
                    let k = choose|k: int|
                        0 <= k < x.len() && k < y.len() && #[trigger] x[k] < y[k] && forall|j: int|
                            0 <= j < k ==> x[j] == y[j];
                    assert(a[k + 1] < b[k + 1]);
                    assert forall|j: int| 0 <= j < k + 1 implies a[j] == b[j] by {
                        if j > 0 {
                            assert(x[j - 1] == y[j - 1]);
                        }
                    }
                }
            } else {
                if a.len() <= b.len() && forall|k: int| 0 <= k < a.len() ==> a[k] == b[k] {
                    assert forall|k: int| 0 <= k < x.len() implies x[k] == y[k] by {
                        assert(a[k + 1] == b[k + 1]);
                    }
                }
                if exists|k: int|
                    0 <= k < a.len() && k < b.len() && #[trigger] a[k] < b[k] && forall|j: int|
                        0 <= j < k ==> a[j] == b[j] {
                    let k = choose|k: int|
                        0 <= k < a.len() && k < b.len() && #[trigger] a[k] < b[k] && forall|j: int|
                            0 <= j < k ==> a[j] == b[j];
                    assert(x[k - 1] < y[k - 1]);
                    assert forall|j: int| 0 <= j < k - 1 implies x[j] == y[j] by {
                        assert(a[j + 1] == b[j + 1]);
                    }
                }
            }
        } else {
            if a[0] < b[0] {
                assert(0 <= 0 < a.len() && a[0] < b[0]);
            }
        }
    }
}

/// Two byte strings that come before each other are the same.
pub proof fn law_before_both_ways_is_the_same(a: Seq<u8>, b: Seq<u8>)
    requires
        before(a, b),
        before(b, a),
    ensures
        a == b,
    decreases a.len(),
{
    if a.len() > 0 && b.len() > 0 {
        law_before_both_ways_is_the_same(a.skip(1), b.skip(1));
        assert(a =~= seq![a[0]] + a.skip(1));
        assert(b =~= seq![b[0]] + b.skip(1));
    } else {
        assert(a =~= b);
    }
}

/// One row begins with another exactly where it is that row and something behind
/// it, and ends with another exactly where it is something and that row behind it.
pub proof fn law_begins_and_ends<T>(data: Seq<T>, part: Seq<T>)
    ensures
        begins_with(data, part) <==> exists|rest: Seq<T>| data == #[trigger] (part + rest),
        ends_with(data, part) <==> exists|rest: Seq<T>| data == #[trigger] (rest + part),
{
    if begins_with(data, part) {
        assert(data =~= part + data.skip(part.len() as int));
    }
    if exists|rest: Seq<T>| data == #[trigger] (part + rest) {
        let rest = choose|rest: Seq<T>| data == #[trigger] (part + rest);
        assert(data.take(part.len() as int) =~= part);
    }
    if ends_with(data, part) {
        assert(data =~= data.take(data.len() - part.len()) + part);
    }
    if exists|rest: Seq<T>| data == #[trigger] (rest + part) {
        let rest = choose|rest: Seq<T>| data == #[trigger] (rest + part);
        assert(data.skip(data.len() - part.len()) =~= part);
    }
}

/// A number is written with its least significant byte first: the bytes, weighed
/// by the powers of 256, make up the number.
pub proof fn law_le32_is_little_endian(n: u32, b: Seq<u8>)
    ensures
        le32(n).len() == 4,
        le32(n)[0] + 256 * le32(n)[1] + 65536 * le32(n)[2] + 16777216 * le32(n)[3] == n,
        b.len() == 4 ==> from_le32(b) == b[0] + 256 * b[1] + 65536 * b[2] + 16777216 * b[3],
{
    lemma_le32(n);
}

/// The place that is found is the first at which the character stands; where it
/// stands nowhere, the length is given instead.
pub proof fn law_index_of_is_the_first(text: Seq<char>, c: char)
    ensures
        0 <= index_of(text, c) <= text.len(),
        text.contains(c) <==> index_of(text, c) < text.len(),
        index_of(text, c) < text.len() ==> text[index_of(text, c)] == c,
        forall|j: int| 0 <= j < index_of(text, c) ==> text[j] != c,
{
    lemma_index_of(text, c);
}

/// What counts as white space: the controls from the tab to the carriage return,
/// the space, and the other characters that Unicode gives the property.
pub proof fn law_white_space(c: char)
    ensures
        white_space(c) <==> seq![
            0x09u32, 0x0a, 0x0b, 0x0c, 0x0d, 0x20, 0x85, 0xa0, 0x1680, 0x2000, 0x2001, 0x2002,
            0x2003, 0x2004, 0x2005, 0x2006, 0x2007, 0x2008, 0x2009, 0x200a, 0x2028, 0x2029, 0x202f,
            0x205f, 0x3000,
        ].contains(c as u32),
{
    let all = seq![
        0x09u32, 0x0a, 0x0b, 0x0c, 0x0d, 0x20, 0x85, 0xa0, 0x1680, 0x2000, 0x2001, 0x2002,
        0x2003, 0x2004, 0x2005, 0x2006, 0x2007, 0x2008, 0x2009, 0x200a, 0x2028, 0x2029, 0x202f,
        0x205f, 0x3000,
    ];
    let n = c as u32;
    assert(all[0] == 0x09 && all[1] == 0x0a && all[2] == 0x0b && all[3] == 0x0c && all[4] == 0x0d);
    assert(all[5] == 0x20 && all[6] == 0x85 && all[7] == 0xa0 && all[8] == 0x1680);
    assert(all[9] == 0x2000 && all[10] == 0x2001 && all[11] == 0x2002 && all[12] == 0x2003);
    assert(all[13] == 0x2004 && all[14] == 0x2005 && all[15] == 0x2006 && all[16] == 0x2007);
    assert(all[17] == 0x2008 && all[18] == 0x2009 && all[19] == 0x200a && all[20] == 0x2028);
    assert(all[21] == 0x2029 && all[22] == 0x202f && all[23] == 0x205f && all[24] == 0x3000);
}

/// Trimming at the beginning leaves out white space only, and all of it.
proof fn lemma_trim_start_is(s: Seq<char>) -> (i: int)
    ensures
        0 <= i <= s.len(),
        trim_start(s) == s.skip(i),
        forall|k: int| 0 <= k < i ==> white_space(#[trigger] s[k]),
        i < s.len() ==> !white_space(s[i]),
    decreases s.len(),
{
    if s.len() > 0 && white_space(s[0]) {
        let rest = s.skip(1);
        let j = lemma_trim_start_is(rest);
        assert(rest.skip(j) =~= s.skip(j + 1));
        assert forall|k: int| 0 <= k < j + 1 implies white_space(#[trigger] s[k]) by {
            if k > 0 {
                assert(rest[k - 1] == s[k]);
            }
        }
        j + 1
    } else {
        assert(s.skip(0) =~= s);
        0
    }
}

/// Trimming at the end leaves out white space only, and all of it.
proof fn lemma_trim_end_is(s: Seq<char>) -> (j: int)
    ensures
        0 <= j <= s.len(),
        trim_end(s) == s.take(j),
        forall|k: int| j <= k < s.len() ==> white_space(#[trigger] s[k]),
        j > 0 ==> !white_space(s[j - 1]),
    decreases s.len(),
{
    if s.len() > 0 && white_space(s.last()) {
        let rest = s.drop_last();
        let j = lemma_trim_end_is(rest);
        assert(rest.take(j) =~= s.take(j));
        assert forall|k: int| j <= k < s.len() implies white_space(#[trigger] s[k]) by {
            if k < rest.len() {
                assert(rest[k] == s[k]);
            }
        }
        j
    } else {
        assert(s.take(s.len() as int) =~= s);
        s.len() as int
    }
}

/// Trimming gives a stretch of the text: all that is left out, on both sides, is
/// white space, and what stays neither begins nor ends with any.
pub proof fn law_trimming_leaves_out_white_space(s: Seq<char>) -> (ends: (int, int))
    ensures
        0 <= ends.0 <= ends.1 <= s.len(),
        trimmed(s) == s.subrange(ends.0, ends.1),
        forall|k: int| 0 <= k < ends.0 ==> white_space(#[trigger] s[k]),
        forall|k: int| ends.1 <= k < s.len() ==> white_space(#[trigger] s[k]),
        trimmed(s).len() > 0 ==> !white_space(trimmed(s)[0]) && !white_space(trimmed(s).last()),
{
    let i = lemma_trim_start_is(s);
    let t = s.skip(i);
    let j = lemma_trim_end_is(t);
    assert(t.take(j) =~= s.subrange(i, i + j));
    assert forall|k: int| i + j <= k < s.len() implies white_space(#[trigger] s[k]) by {
        assert(t[k - i] == s[k]);
    }
    if j > 0 {
        assert(t[0] == s[i]);
    }
    (i, i + j)
}

/// Lines, each with its line feed.
pub open spec fn joined_lines(list: Seq<Seq<char>>) -> Seq<char>
    decreases list.len(),
{
    if list.len() == 0 {
        Seq::empty()
    } else {
        list[0] + seq!['\n'] + joined_lines(list.skip(1))
    }
}

/// The lines of a text hold no line feeds, and with one behind each they are the
/// text again, but for the last one where the text does not end in a line feed.
pub proof fn law_lines_make_up_the_text(text: Seq<char>)
    ensures
        forall|i: int| 0 <= i < lines(text).len() ==> !(#[trigger] lines(text)[i]).contains('\n'),
        joined_lines(lines(text)) == if text.len() == 0 || text.last() == '\n' {
            text
        } else {
            text.push('\n')
        },
    decreases text.len(),
{
    lemma_index_of(text, '\n');
    let i = index_of(text, '\n');
    let all = lines(text);
    if text.len() == 0 {
    } else if i == text.len() {
        assert(!text.contains('\n')) by {
            if text.contains('\n') {
                let j = choose|j: int| 0 <= j < text.len() && text[j] == '\n';
            }
        }
        assert(all.skip(1) =~= Seq::empty());
        assert(joined_lines(all.skip(1)) =~= Seq::empty());
        assert(joined_lines(all) =~= text.push('\n'));
        assert(text.last() != '\n') by {
            assert(text[text.len() - 1] != '\n');
        }
    } else {
        let rest = text.skip(i + 1);
        law_lines_make_up_the_text(rest);
        assert(all.skip(1) =~= lines(rest));
        let first = text.take(i);
        assert(!first.contains('\n')) by {
            if first.contains('\n') {
                let j = choose|j: int| 0 <= j < first.len() && first[j] == '\n';
                assert(text[j] == '\n');
            }
        }
        assert forall|k: int| 0 <= k < all.len() implies !(#[trigger] all[k]).contains('\n') by {
            if k > 0 {
                assert(all[k] == lines(rest)[k - 1]);
            }
        }
        assert(text =~= first + seq!['\n'] + rest);
        if rest.len() > 0 {
            assert(rest.last() == text.last());
            assert(first + seq!['\n'] + rest.push('\n') =~= text.push('\n'));
        } else {
            assert(text.last() == '\n');
            assert(joined_lines(lines(rest)) =~= Seq::empty());
        }
    }
}

/// The number that a hexadecimal digit in lower case stands for.
pub open spec fn digit_value(c: char) -> int {
    if '0' <= c <= '9' {
        c as int - '0' as int
    } else if 'a' <= c <= 'f' {
        c as int - 'a' as int + 10
    } else {
        -1
    }
}

/// Bytes are written as two digits each, in their order, the more significant one
/// first, in lower case: the digits of a byte give the byte. So different bytes are
/// written differently.
pub proof fn law_hex_digits_give_the_bytes(bytes: Seq<u8>)
    ensures
        hex(bytes).len() == 2 * bytes.len(),
        forall|i: int|
            0 <= i < bytes.len() ==> 16 * digit_value(hex(bytes)[2 * i]) + digit_value(
                hex(bytes)[2 * i + 1],
            ) == #[trigger] bytes[i],
        forall|i: int| 0 <= i < hex(bytes).len() ==> 0 <= digit_value(#[trigger] hex(bytes)[i]) < 16,
    decreases bytes.len(),
{
    if bytes.len() > 0 {
        let head = bytes.drop_last();
        law_hex_digits_give_the_bytes(head);
        let b = bytes.last();
        let n = head.len() as int;
        let all = hex(bytes);
        assert(all[2 * n] == hex_digit(b as int / 16));
        assert(all[2 * n + 1] == hex_digit(b as int % 16));
        assert forall|i: int| 0 <= i < bytes.len() implies 16 * digit_value(all[2 * i])
            + digit_value(all[2 * i + 1]) == #[trigger] bytes[i] by {
            if i < n {
                assert(all[2 * i] == hex(head)[2 * i]);
                assert(all[2 * i + 1] == hex(head)[2 * i + 1]);
                assert(head[i] == bytes[i]);
            } else {
                assert(16 * (b as int / 16) + b as int % 16 == b);
            }
        }
        assert forall|i: int| 0 <= i < all.len() implies 0 <= digit_value(#[trigger] all[i])
            < 16 by {
            if i < 2 * n {
                assert(all[i] == hex(head)[i]);
            }
        }
    }
}

/// The number that decimal digits stand for.
pub open spec fn number_of(digits: Seq<char>) -> int
    decreases digits.len(),
{
    if digits.len() == 0 {
        0
    } else {
        10 * number_of(digits.drop_last()) + (digits.last() as int - '0' as int)
    }
}

/// A number is written in decimal digits that stand for it, without a zero in
/// front.
pub proof fn law_decimal_digits_give_the_number(n: nat)
    ensures
        number_of(decimal(n)) == n,
        decimal(n).len() > 0,
        decimal(n).len() > 1 ==> decimal(n)[0] != '0',
        n > 0 ==> decimal(n)[0] != '0',
        forall|i: int| 0 <= i < decimal(n).len() ==> '0' <= #[trigger] decimal(n)[i] <= '9',
    decreases n,
{
    if n < 10 {
        assert(decimal(n).drop_last() =~= Seq::empty());
        assert(number_of(Seq::<char>::empty()) == 0);
    } else {
        law_decimal_digits_give_the_number(n / 10);
        let all = decimal(n);
        assert(all.drop_last() =~= decimal(n / 10));
        assert(all[0] == decimal(n / 10)[0]);
        assert forall|i: int| 0 <= i < all.len() implies '0' <= #[trigger] all[i] <= '9' by {
            if i < all.len() - 1 {
                assert(all[i] == decimal(n / 10)[i]);
            }
        }
    }
}

/// A text in lower case is as long, has its letters of ASCII in lower case, and is
/// otherwise the same.
pub proof fn law_lowercase_changes_only_capitals(text: Seq<char>)
    ensures
        lowercase(text).len() == text.len(),
        forall|i: int|
            0 <= i < text.len() ==> if 'A' <= #[trigger] text[i] <= 'Z' {
                lowercase(text)[i] as int - 'a' as int == text[i] as int - 'A' as int
            } else {
                lowercase(text)[i] == text[i]
            },
{
}

/// A text that is filled up begins with the text, has spaces behind it, and is as
/// long as it was to be, or as the text where that is longer.
pub proof fn law_padding_is_spaces(text: Seq<char>, width: int)
    ensures
        padded(text, width).take(text.len() as int) == text,
        padded(text, width).len() == if width > text.len() {
            width
        } else {
            text.len() as int
        },
        forall|i: int| text.len() <= i < padded(text, width).len() ==> padded(text, width)[i] == ' ',
{
    assert(padded(text, width).take(text.len() as int) =~= text);
}

/// A list of texts, or of rows of characters, stands for what each of them holds, in
/// the same order.
pub proof fn law_lists_stand_for_what_they_hold(list: Seq<String>, table: Seq<Vec<char>>)
    ensures
        texts(list).len() == list.len(),
        forall|i: int| 0 <= i < list.len() ==> #[trigger] texts(list)[i] == list[i]@,
        rows(table).len() == table.len(),
        forall|i: int| 0 <= i < table.len() ==> #[trigger] rows(table)[i] == table[i]@,
{
}

} // verus!
