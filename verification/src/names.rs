//! The names of files: what a container and its contents are called, and what
//! they may not be called.
use crate::fault::Fault;
use crate::format::EXTENSION;
use crate::kdf::random_bytes;
use crate::text::{chars_of, hex, hex_text, text_of};
use vstd::prelude::*;
use vstd::slice::slice_subrange;
use vstd::string::*;

verus! {

/// Where the last slash of a path is; -1 where there is none.
pub open spec fn last_slash(path: Seq<char>) -> int
    decreases path.len(),
{
    if path.len() == 0 {
        -1
    } else if path.last() == '/' {
        path.len() - 1
    } else {
        last_slash(path.drop_last())
    }
}

/// What `last_slash` says of the characters behind that place and at it.
proof fn lemma_last_slash(path: Seq<char>)
    ensures
        -1 <= last_slash(path) < path.len(),
        last_slash(path) >= 0 ==> path[last_slash(path)] == '/',
        forall|j: int| last_slash(path) < j < path.len() ==> path[j] != '/',
    decreases path.len(),
{
    if path.len() > 0 && path.last() != '/' {
        let head = path.drop_last();
        lemma_last_slash(head);
        assert forall|j: int| last_slash(path) < j < path.len() implies path[j] != '/' by {
            if j < head.len() {
                assert(head[j] == path[j]);
            }
        }
    }
}

/// The name of the file at a path: its last part, leaving out empty parts and
/// dots. A path that ends in two dots, or has no part left, names no file.
pub open spec fn file_name_of(path: Seq<char>) -> Option<Seq<char>>
    decreases path.len(),
    via file_name_decreases
{
    let i = last_slash(path);
    let part = path.skip(i + 1);
    if part.len() == 0 || part == seq!['.'] {
        if i < 0 {
            None
        } else {
            file_name_of(path.take(i))
        }
    } else if part == seq!['.', '.'] {
        None
    } else {
        Some(part)
    }
}

#[via_fn]
proof fn file_name_decreases(path: Seq<char>) {
    lemma_last_slash(path);
}

/// The name of the file at a path is a plain name: it leads neither elsewhere
/// nor to the directory itself or the one above.
pub proof fn law_file_name_is_plain(path: Seq<char>)
    ensures
        file_name_of(path) matches Some(name) ==> name.len() > 0 && name != seq!['.'] && name
            != seq!['.', '.'] && !name.contains('/'),
    decreases path.len(),
{
    lemma_last_slash(path);
    let i = last_slash(path);
    let part = path.skip(i + 1);
    if part.len() == 0 || part == seq!['.'] {
        if i >= 0 {
            law_file_name_is_plain(path.take(i));
        }
    } else if part.contains('/') {
        let j = choose|j: int| 0 <= j < part.len() && part[j] == '/';
        assert(path[i + 1 + j] == '/');
    }
}

/// A name without a slash that is neither empty nor dots is the name of the file
/// at that path.
pub proof fn law_plain_name_is_kept(name: Seq<char>)
    requires
        name.len() > 0,
        name != seq!['.'],
        name != seq!['.', '.'],
        !name.contains('/'),
    ensures
        file_name_of(name) == Some(name),
{
    lemma_last_slash(name);
    let i = last_slash(name);
    if i >= 0 {
        assert(name.contains(name[i]));
    }
    assert(name.skip(0) =~= name);
}

/// `last_slash` is that place, and no other.
proof fn lemma_last_slash_is(path: Seq<char>, i: int)
    requires
        -1 <= i < path.len(),
        i >= 0 ==> path[i] == '/',
        forall|j: int| i < j < path.len() ==> path[j] != '/',
    ensures
        last_slash(path) == i,
{
    lemma_last_slash(path);
    let k = last_slash(path);
    if k < i {
        assert(path[i] != '/');
    }
}

/// What stands in front of the last slash does not matter: the name of a file in a
/// directory is its name, whatever the directory is.
pub proof fn law_directories_do_not_show(dir: Seq<char>, name: Seq<char>)
    requires
        name.len() > 0,
        name != seq!['.'],
        name != seq!['.', '.'],
        !name.contains('/'),
    ensures
        file_name_of(dir + seq!['/'] + name) == Some(name),
{
    let path = dir + seq!['/'] + name;
    let n = dir.len() as int;
    assert forall|j: int| n < j < path.len() implies path[j] != '/' by {
        assert(path[j] == name[j - n - 1]);
        assert(name.contains(name[j - n - 1]));
    }
    lemma_last_slash_is(path, n);
    assert(path.skip(n + 1) =~= name);
}

/// A slash at the end does not matter, nor does a dot behind one, and two dots
/// behind one leave no name.
pub proof fn law_trailing_parts(path: Seq<char>)
    ensures
        file_name_of(path + seq!['/']) == file_name_of(path),
        file_name_of(path + seq!['/', '.']) == file_name_of(path),
        file_name_of(path + seq!['/', '.', '.']) is None,
{
    let n = path.len() as int;
    let a = path + seq!['/'];
    let b = path + seq!['/', '.'];
    let c = path + seq!['/', '.', '.'];
    lemma_last_slash_is(a, n);
    lemma_last_slash_is(b, n);
    lemma_last_slash_is(c, n);
    assert(a.skip(n + 1) =~= Seq::empty());
    assert(b.skip(n + 1) =~= seq!['.']);
    assert(c.skip(n + 1) =~= seq!['.', '.']);
    assert(a.take(n) =~= path);
    assert(b.take(n) =~= path);
    assert(seq!['.', '.'].len() == 2 && seq!['.'].len() == 1);
}

/// Nothing, a dot and two dots are the names of no file.
pub proof fn law_dots_name_no_file()
    ensures
        file_name_of(Seq::empty()) is None,
        file_name_of(seq!['.']) is None,
        file_name_of(seq!['.', '.']) is None,
{
    let none = Seq::<char>::empty();
    lemma_last_slash_is(none, -1);
    lemma_last_slash_is(seq!['.'], -1);
    lemma_last_slash_is(seq!['.', '.'], -1);
    assert(none.skip(0) =~= none);
    assert(seq!['.'].skip(0) =~= seq!['.']);
    assert(seq!['.', '.'].skip(0) =~= seq!['.', '.']);
    assert(seq!['.', '.'].len() == 2 && seq!['.'].len() == 1);
}

/// The name under which the contents of a container are restored: the last part
/// of the name that the container carries. It is a plain name, so nothing is
/// written outside the directory that was meant.
pub fn safe_name(name: &str) -> (res: Result<String, Fault>)
    ensures
        match file_name_of(name@) {
            Some(n) => res matches Ok(s) && s@ == n,
            None => res matches Err(e) && e is UnusableName,
        },
        res matches Ok(s) ==> s@.len() > 0 && s@ != seq!['.'] && s@ != seq!['.', '.']
            && !s@.contains('/'),
{
    let chars = chars_of(name);
    let mut end: usize = chars.len();
    assert(chars@.take(end as int) =~= chars@);
    loop
        invariant
            end <= chars@.len(),
            chars@ == name@,
            file_name_of(name@) == file_name_of(chars@.take(end as int)),
        decreases end,
    {
        let ghost here = chars@.take(end as int);
        let mut from: usize = end;
        while from > 0 && chars[from - 1] != '/'
            invariant
                from <= end <= chars@.len(),
                last_slash(here) == last_slash(chars@.take(from as int)),
                here == chars@.take(end as int),
            decreases from,
        {
            assert(chars@.take(from as int).drop_last() =~= chars@.take(from - 1));
            from -= 1;
        }
        proof {
            lemma_last_slash(here);
            if from > 0 {
                assert(chars@.take(from as int).last() == '/');
            }
            assert(last_slash(here) == from - 1);
            assert(here.skip(from as int) =~= chars@.subrange(from as int, end as int));
        }
        let part = slice_subrange(&chars, from, end);
        if part.len() == 0 || (part.len() == 1 && part[0] == '.') {
            proof {
                if part@.len() == 1 {
                    assert(part@ =~= seq!['.']);
                }
            }
            if from == 0 {
                return Err(Fault::UnusableName);
            }
            assert(here.take(from - 1) =~= chars@.take(from - 1));
            end = from - 1;
        } else if part.len() == 2 && part[0] == '.' && part[1] == '.' {
            assert(part@ =~= seq!['.', '.']);
            return Err(Fault::UnusableName);
        } else {
            proof {
                law_file_name_is_plain(name@);
                assert(part@ != seq!['.']) by {
                    if part@ == seq!['.'] {
                        assert(part@.len() == 1 && part@[0] == '.');
                    }
                }
                assert(part@ != seq!['.', '.']) by {
                    if part@ == seq!['.', '.'] {
                        assert(part@.len() == 2 && part@[0] == '.' && part@[1] == '.');
                    }
                }
            }
            return Ok(text_of(part));
        }
    }
}

/// The name of the source, where it has one that is text. `shown` is the path as
/// it is shown.
pub fn source_name(name: Option<&str>, shown: &str) -> (res: Result<String, Fault>)
    ensures
        match name {
            Some(n) => res matches Ok(s) && s@ == n@,
            None => res matches Err(Fault::UnusablePath(p)) && p@ == shown@,
        },
{
    match name {
        Some(n) => Ok(n.to_string()),
        None => Err(Fault::UnusablePath(shown.to_string())),
    }
}

/// The name of the container of a file or directory.
pub fn container_name(name: &str) -> (s: String)
    ensures
        s@ == name@ + "."@ + EXTENSION@,
{
    let mut s = name.to_string();
    s.append(".");
    s.append(EXTENSION);
    s
}

/// The text that is there, if any is.
pub open spec fn text_in(o: Option<&str>) -> Option<Seq<char>> {
    match o {
        Some(s) => Some(s@),
        None => None,
    }
}

/// The name of the file that a result is written to before it is moved into
/// place: hidden, and told apart by a tag.
pub open spec fn scratch_name_of(name: Option<Seq<char>>, tag: Seq<u8>, suffix: Seq<char>) -> Seq<
    char,
> {
    let base = match name {
        Some(n) => n,
        None => "cryptosec"@,
    };
    "."@ + base + "."@ + hex(tag) + "."@ + suffix
}

/// The name of a scratch file with a given tag. `name` is the name of the target
/// where it has one that is text.
pub fn scratch_name_with(name: Option<&str>, tag: &[u8; 4], suffix: &str) -> (s: String)
    ensures
        s@ == scratch_name_of(text_in(name), tag@, suffix@),
{
    let mut s = ".".to_string();
    match name {
        Some(n) => s.append(n),
        None => s.append("cryptosec"),
    }
    s.append(".");
    s.append(hex_text(tag).as_str());
    s.append(".");
    s.append(suffix);
    s
}

/// The name of a scratch file with a fresh tag.
pub fn scratch_path(name: Option<&str>, suffix: &str) -> (s: String)
    ensures
        exists|tag: Seq<u8>|
            tag.len() == 4 && s@ == #[trigger] scratch_name_of(text_in(name), tag, suffix@),
{
    let tag = random_bytes::<4>();
    scratch_name_with(name, &tag, suffix)
}

/// Refuses to write over what is there, unless that was asked for. `shown` is
/// the path as it is shown.
pub fn ensure_free(taken: bool, force: bool, shown: &str) -> (res: Result<(), Fault>)
    ensures
        match res {
            Ok(_) => !taken || force,
            Err(e) => taken && !force && (e matches Fault::AlreadyExists(p) && p@ == shown@),
        },
{
    if taken && !force {
        return Err(Fault::AlreadyExists(shown.to_string()));
    }
    Ok(())
}

/// Which path is shown for the result that stands next to the input.
#[derive(Clone, Copy, Debug, PartialEq, Eq, Structural)]
pub enum Shown {
    /// The input with the result's name in place of its own.
    Beside,
    /// The path of the result itself.
    Itself,
}

/// Keeps terminal output in the same shape the user typed the path in.
/// `has_name` says whether the path that was typed ends in a name.
pub fn sibling_of(has_name: bool) -> (s: Shown)
    ensures
        s == if has_name {
            Shown::Beside
        } else {
            Shown::Itself
        },
{
    if has_name {
        Shown::Beside
    } else {
        Shown::Itself
    }
}

/// The name of a scratch file is hidden, holds the name of the target behind the
/// dot, ends with its suffix behind another, and tells its tag apart: names with
/// different tags differ, and none is that of the target.
pub proof fn law_scratch_names(name: Seq<char>, tag: Seq<u8>, other: Seq<u8>, suffix: Seq<char>)
    requires
        tag.len() == 4,
        other.len() == 4,
    ensures
        ({
            let s = scratch_name_of(Some(name), tag, suffix);
            &&& s[0] == '.'
            &&& s.subrange(1, (1 + name.len()) as int) == name
            &&& s.len() == name.len() + 11 + suffix.len()
            &&& s.skip((name.len() + 11) as int) == suffix
            &&& s[(name.len() + 1) as int] == '.'
            &&& s[(name.len() + 10) as int] == '.'
            &&& s != name
        }),
        scratch_name_of(Some(name), tag, suffix) == scratch_name_of(Some(name), other, suffix)
            ==> tag == other,
        scratch_name_of(None, tag, suffix) == scratch_name_of(Some("cryptosec"@), tag, suffix),
{
    reveal_strlit(".");
    crate::text::law_hex_digits_give_the_bytes(tag);
    crate::text::law_hex_digits_give_the_bytes(other);
    let s = scratch_name_of(Some(name), tag, suffix);
    let t = scratch_name_of(Some(name), other, suffix);
    let n = name.len() as int;
    assert(s.subrange(1, 1 + n) =~= name);
    assert(s.skip(n + 11) =~= suffix);
    assert(s.subrange(n + 2, n + 10) =~= hex(tag));
    assert(t.subrange(n + 2, n + 10) =~= hex(other));
    if s == t {
        assert forall|i: int| 0 <= i < 4 implies tag[i] == other[i] by {
            assert(hex(tag)[2 * i] == hex(other)[2 * i]);
            assert(hex(tag)[2 * i + 1] == hex(other)[2 * i + 1]);
        }
        assert(tag =~= other);
    }
}

} // verus!
