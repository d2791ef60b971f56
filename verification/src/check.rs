//! Holding a container against its source, and walking and overwriting the
//! source.
use crate::fault::Fault;
use crate::kdf::random_bytes;
use crate::stream::{read_next, read_upto, ReadEvent, ReadStep};
use crate::text::{same_bytes, same_text};
use std::path::PathBuf;
use vstd::prelude::*;
use vstd::slice::{slice_subrange, slice_to_vec};
use vstd::string::*;

verus! {

/// How many bytes are compared or overwritten at once.
pub const BLOCK: usize = 65536;

// ----------------------------------------------------------------- compare

/// One step of filling a block of `len` bytes that holds `filled` already. A
/// signal that comes in between is a failure here.
pub fn fill(filled: usize, len: usize, event: ReadEvent) -> (step: ReadStep)
    requires
        filled < len,
        event matches ReadEvent::Got(n) ==> filled + n <= len,
    ensures
        step == match event {
            ReadEvent::Interrupted => ReadStep::Failed,
            _ => read_next(filled, len, event),
        },
        event matches ReadEvent::Got(n) ==> step == if n == 0 || filled + n == len {
            ReadStep::Done((filled + n) as usize)
        } else {
            ReadStep::Again((filled + n) as usize)
        },
        step is Failed <==> !(event is Got),
{
    match event {
        ReadEvent::Interrupted => ReadStep::Failed,
        _ => read_upto(filled, len, event),
    }
}

/// One step of comparing what was decrypted with the source, block by block: two
/// blocks are the same, and empty only at the end of both.
pub fn compare(a: &[u8], b: &[u8]) -> (res: Result<bool, Fault>)
    ensures
        match res {
            Ok(done) => a@ == b@ && done == (a@.len() == 0),
            Err(e) => a@ != b@ && e is DiffersFromSource,
        },
{
    if !same_bytes(a, b) {
        return Err(Fault::DiffersFromSource);
    }
    Ok(a.len() == 0)
}

/// The first block of some data.
pub open spec fn block(data: Seq<u8>) -> Seq<u8> {
    if data.len() < BLOCK {
        data
    } else {
        data.take(BLOCK as int)
    }
}

/// Whether comparing two pieces of data block by block finds no difference.
pub open spec fn same_by_block(a: Seq<u8>, b: Seq<u8>) -> bool
    decreases a.len(),
{
    if block(a) != block(b) {
        false
    } else if a.len() == 0 {
        true
    } else {
        same_by_block(a.skip(block(a).len() as int), b.skip(block(b).len() as int))
    }
}

/// Comparing block by block finds no difference exactly where there is none.
pub proof fn law_compare_by_block(a: Seq<u8>, b: Seq<u8>)
    ensures
        same_by_block(a, b) <==> a == b,
    decreases a.len(),
{
    if block(a) == block(b) {
        if a.len() == 0 {
            assert(b =~= a);
        } else {
            let n = block(a).len() as int;
            law_compare_by_block(a.skip(n), b.skip(n));
            if a.skip(n) == b.skip(n) {
                assert(a =~= block(a) + a.skip(n));
                assert(b =~= block(b) + b.skip(n));
            }
        }
    }
}

// --------------------------------------------------------------- directory

/// The first part of the path of an entry in an archive.
#[derive(Clone, Copy, Debug)]
pub enum FirstPart<'a> {
    Missing,
    NotText,
    Text(&'a str),
}

/// What an entry in an archive is, and what is on disk in its place.
#[derive(Clone, Copy, Debug)]
pub enum Found {
    /// A directory; a directory is on disk or not.
    Directory { on_disk: bool },
    /// A symlink; it has a target or not, and the one on disk points there or
    /// elsewhere.
    Symlink { has_target: bool, same: bool },
    /// Anything else; it could be opened on disk or not, and its contents are
    /// the same or not.
    File { on_disk: bool, same: bool },
}

/// Whether an entry belongs to the directory `root` and is on disk as it is in
/// the archive.
pub open spec fn entry_fits(root: Seq<char>, first: FirstPart, found: Found) -> bool {
    &&& first matches FirstPart::Text(s) && s@ == root
    &&& match found {
        Found::Directory { on_disk } => on_disk,
        Found::Symlink { has_target, same } => has_target && same,
        Found::File { on_disk, same } => on_disk && same,
    }
}

/// Why an entry does not fit, with its path as it is shown.
pub open spec fn is_entry_fault(
    root: Seq<char>,
    first: FirstPart,
    found: Found,
    shown: Seq<char>,
    f: Fault,
) -> bool {
    match first {
        FirstPart::Missing => f is EntryWithoutPath,
        FirstPart::Text(s) if s@ == root => match found {
            Found::Directory { .. } => f matches Fault::NotOnDisk(p) && p@ == shown,
            Found::Symlink { has_target: false, .. } => f matches Fault::NoLinkTarget(p) && p@
                == shown,
            Found::Symlink { .. } => f matches Fault::SymlinkMoved(p) && p@ == shown,
            Found::File { on_disk: false, .. } => f matches Fault::NotOnDisk(p) && p@ == shown,
            Found::File { .. } => f matches Fault::DiffersFromArchive(p) && p@ == shown,
        },
        _ => f matches Fault::OutsideRoot(r, p) && r@ == root && p@ == shown,
    }
}

/// Walks the archive that was just written and holds every entry against the
/// directory on disk. Nothing is deleted on the strength of a weaker check.
#[derive(Debug)]
pub struct TreeCheck {
    root: String,
    seen: usize,
}

impl TreeCheck {
    /// The name of the directory.
    pub closed spec fn root(self) -> Seq<char> {
        self.root@
    }

    /// How many entries that are no directories fitted so far.
    pub closed spec fn seen(self) -> int {
        self.seen as int
    }

    /// A check of the directory of this name, before its first entry.
    pub fn new(root: &str) -> (c: TreeCheck)
        ensures
            c.root() == root@,
            c.seen() == 0,
    {
        TreeCheck { root: root.to_string(), seen: 0 }
    }

    /// Holds an entry against the disk. `shown` is its path as it is shown.
    pub fn entry(&mut self, first: FirstPart, found: Found, shown: &str) -> (res: Result<(), Fault>)
        requires
            old(self).seen() < usize::MAX,
        ensures
            final(self).root() == old(self).root(),
            res is Ok <==> {
                &&& first matches FirstPart::Text(s) && s@ == old(self).root()
                &&& found matches Found::Directory { on_disk } ==> on_disk
                &&& found matches Found::Symlink { has_target, same } ==> has_target && same
                &&& found matches Found::File { on_disk, same } ==> on_disk && same
            },
            match res {
                Ok(_) => {
                    &&& entry_fits(old(self).root(), first, found)
                    &&& final(self).seen() == old(self).seen() + if found is Directory {
                        0int
                    } else {
                        1
                    }
                },
                Err(e) => {
                    &&& !entry_fits(old(self).root(), first, found)
                    &&& is_entry_fault(old(self).root(), first, found, shown@, e)
                    &&& final(self).seen() == old(self).seen()
                },
            },
    {
        let inside = match first {
            FirstPart::Missing => {
                return Err(Fault::EntryWithoutPath);
            },
            FirstPart::NotText => false,
            FirstPart::Text(s) => same_text(s, self.root.as_str()),
        };
        if !inside {
            return Err(Fault::OutsideRoot(self.root.clone(), shown.to_string()));
        }
        match found {
            Found::Directory { on_disk } => {
                if !on_disk {
                    return Err(Fault::NotOnDisk(shown.to_string()));
                }
            },
            Found::Symlink { has_target, same } => {
                if !has_target {
                    return Err(Fault::NoLinkTarget(shown.to_string()));
                }
                if !same {
                    return Err(Fault::SymlinkMoved(shown.to_string()));
                }
                self.seen = self.seen + 1;
            },
            Found::File { on_disk, same } => {
                if !on_disk {
                    return Err(Fault::NotOnDisk(shown.to_string()));
                }
                if !same {
                    return Err(Fault::DiffersFromArchive(shown.to_string()));
                }
                self.seen = self.seen + 1;
            },
        }
        Ok(())
    }

    /// How many entries that are no directories fitted so far.
    pub fn count(&self) -> (n: usize)
        ensures
            n == self.seen(),
    {
        self.seen
    }

    /// Ends the check: the directory holds as many entries as the archive.
    pub fn finish(self, on_disk: usize) -> (res: Result<(), Fault>)
        ensures
            match res {
                Ok(_) => self.seen() == on_disk,
                Err(e) => self.seen() != on_disk && (e matches Fault::EntryCount(s, d) && s
                    == self.seen() && d == on_disk),
            },
    {
        if self.seen != on_disk {
            return Err(Fault::EntryCount(self.seen, on_disk));
        }
        Ok(())
    }
}

/// How many of a run of entries are no directories.
pub open spec fn counted(entries: Seq<(FirstPart<'_>, Found)>) -> int
    decreases entries.len(),
{
    if entries.len() == 0 {
        0
    } else {
        counted(entries.drop_last()) + if entries.last().1 is Directory {
            0int
        } else {
            1
        }
    }
}

/// How many entries a check has seen after a run of them, or that one did not
/// fit.
pub open spec fn tree_after(root: Seq<char>, entries: Seq<(FirstPart<'_>, Found)>) -> Option<int>
    decreases entries.len(),
{
    if entries.len() == 0 {
        Some(0)
    } else {
        match tree_after(root, entries.drop_last()) {
            None => None,
            Some(seen) => if !entry_fits(root, entries.last().0, entries.last().1) {
                None
            } else if entries.last().1 is Directory {
                Some(seen)
            } else {
                Some(seen + 1)
            },
        }
    }
}

/// A directory passes exactly where every entry of the archive is on disk as it
/// is in the archive, and the directory holds no more than the archive does.
pub proof fn law_tree_passes(
    root: Seq<char>,
    entries: Seq<(FirstPart<'_>, Found)>,
    on_disk: int,
)
    ensures
        tree_after(root, entries) == Some(on_disk) <==> (forall|i: int|
            0 <= i < entries.len() ==> entry_fits(root, #[trigger] entries[i].0, entries[i].1))
            && counted(entries) == on_disk,
    decreases entries.len(),
{
    if entries.len() > 0 {
        let head = entries.drop_last();
        let one = if entries.last().1 is Directory {
            0int
        } else {
            1
        };
        law_tree_passes(root, head, on_disk - one);
        assert(forall|i: int| 0 <= i < head.len() ==> head[i] == entries[i]);
        if tree_after(root, entries) == Some(on_disk) {
            assert forall|i: int| 0 <= i < entries.len() implies entry_fits(
                root,
                #[trigger] entries[i].0,
                entries[i].1,
            ) by {
                if i < head.len() {
                    assert(entry_fits(root, head[i].0, head[i].1));
                }
            }
        }
        if forall|i: int|
            0 <= i < entries.len() ==> entry_fits(root, #[trigger] entries[i].0, entries[i].1) {
            assert forall|i: int| 0 <= i < head.len() implies entry_fits(
                root,
                #[trigger] head[i].0,
                head[i].1,
            ) by {
                assert(entry_fits(root, entries[i].0, entries[i].1));
            }
            assert(entry_fits(
                root,
                entries[entries.len() - 1].0,
                entries[entries.len() - 1].1,
            ));
        }
    }
}

// -------------------------------------------------------------------- walk

/// What is found in a directory.
#[derive(Clone, Copy, Debug, PartialEq, Eq, Structural)]
pub enum OnDisk {
    Directory,
    File,
    Other,
}

/// A walk through a directory and all below it.
#[derive(Debug)]
pub struct Walk {
    stack: Vec<PathBuf>,
    files: Vec<PathBuf>,
    count: usize,
}

/// Where a walk stands.
pub struct WalkView {
    /// The directories that were not looked into yet.
    pub stack: Seq<PathBuf>,
    /// The regular files that were found.
    pub files: Seq<PathBuf>,
    /// How many entries were found that are no directories.
    pub count: int,
}

impl View for Walk {
    type V = WalkView;

    closed spec fn view(&self) -> WalkView {
        WalkView { stack: self.stack@, files: self.files@, count: self.count as int }
    }
}

impl Walk {
    /// A walk that has not begun.
    pub fn new(root: PathBuf) -> (w: Walk)
        ensures
            w@ == (WalkView { stack: seq![root], files: Seq::empty(), count: 0 }),
    {
        let mut stack: Vec<PathBuf> = Vec::new();
        stack.push(root);
        let w = Walk { stack, files: Vec::new(), count: 0 };
        assert(w@.stack =~= seq![root]);
        w
    }

    /// The next directory to look into, if one is left.
    pub fn next_dir(&mut self) -> (res: Option<PathBuf>)
        ensures
            match res {
                Some(dir) => old(self)@.stack.len() > 0 && dir == old(self)@.stack.last()
                    && final(self)@ == (WalkView {
                    stack: old(self)@.stack.drop_last(),
                    ..old(self)@
                }),
                None => old(self)@.stack.len() == 0 && final(self)@ == old(self)@,
            },
    {
        self.stack.pop()
    }

    /// Takes note of what was found: directories are looked into later, and
    /// everything else is counted, so symlinks count as themselves.
    pub fn found(&mut self, path: PathBuf, what: OnDisk)
        requires
            old(self)@.count < usize::MAX,
        ensures
            final(self)@ == match what {
                OnDisk::Directory => WalkView {
                    stack: old(self)@.stack.push(path),
                    ..old(self)@
                },
                OnDisk::File => WalkView {
                    files: old(self)@.files.push(path),
                    count: old(self)@.count + 1,
                    ..old(self)@
                },
                OnDisk::Other => WalkView { count: old(self)@.count + 1, ..old(self)@ },
            },
    {
        match what {
            OnDisk::Directory => {
                self.stack.push(path);
            },
            OnDisk::File => {
                self.files.push(path);
                self.count = self.count + 1;
            },
            OnDisk::Other => {
                self.count = self.count + 1;
            },
        }
    }

    /// How many entries were found that are no directories.
    pub fn count(&self) -> (n: usize)
        ensures
            n == self@.count,
    {
        self.count
    }

    /// The regular files that were found.
    pub fn files(self) -> (files: Vec<PathBuf>)
        ensures
            files@ == self@.files,
    {
        self.files
    }
}

// ------------------------------------------------------------------- shred

/// How many bytes are written next over a file of `len` bytes of which `written`
/// are overwritten.
pub open spec fn shred_size(written: u64, len: u64) -> int {
    if written >= len {
        0
    } else if len - written < BLOCK {
        len - written
    } else {
        BLOCK as int
    }
}

/// The next bytes to write over a file out of a block of noise: as many as are
/// left and at most the block.
pub fn shred_block_with(noise: &[u8; 65536], written: u64, len: u64) -> (bytes: Vec<u8>)
    ensures
        bytes@ == noise@.take(shred_size(written, len)),
        written < len ==> 0 < bytes@.len() <= len - written,
        bytes@.len() < 65536 ==> written + bytes@.len() >= len,
{
    let n: usize = if written >= len {
        0
    } else if len - written < BLOCK as u64 {
        (len - written) as usize
    } else {
        BLOCK
    };
    slice_to_vec(slice_subrange(noise.as_slice(), 0, n))
}

/// The next bytes to write over a file: random ones, as many as are left and at
/// most a block. Best effort only: on SSDs and copy-on-write filesystems the old
/// blocks may survive.
pub fn shred_block(written: u64, len: u64) -> (bytes: Vec<u8>)
    ensures
        bytes@.len() == shred_size(written, len),
{
    let noise = random_bytes::<65536>();
    shred_block_with(&noise, written, len)
}

/// How many bytes are overwritten after `blocks` blocks.
pub open spec fn shredded(len: u64, blocks: nat) -> int
    decreases blocks,
{
    if blocks == 0 {
        0
    } else {
        let before = shredded(len, (blocks - 1) as nat);
        before + shred_size(before as u64, len)
    }
}

/// Block by block, exactly the whole file is overwritten.
pub proof fn law_shred_covers_the_file(len: u64, blocks: nat)
    ensures
        shredded(len, blocks) == if blocks * BLOCK < len {
            blocks * BLOCK
        } else {
            len as int
        },
    decreases blocks,
{
    if blocks > 0 {
        law_shred_covers_the_file(len, (blocks - 1) as nat);
    }
}

/// Never more than is left is overwritten, nor more than a block, and less than a
/// block only where no more is left: the blocks come to an end exactly with the
/// file.
pub proof fn law_shred_size(written: u64, len: u64)
    ensures
        0 <= shred_size(written, len) <= 65536,
        written <= len ==> written + shred_size(written, len) <= len,
        shred_size(written, len) == 0 <==> written >= len,
        shred_size(written, len) < 65536 && written <= len ==> written + shred_size(written, len)
            == len,
{
}

/// Whether an entry fits is decided by what is on disk in its place, and by nothing
/// else: an entry outside the directory never fits, one that is not on disk never
/// does, and neither does a file whose contents differ or a symlink that points
/// elsewhere. Everything else does.
pub proof fn law_what_fits(root: Seq<char>, first: FirstPart<'_>, found: Found)
    ensures
        entry_fits(root, first, found) ==> first is Text,
        first matches FirstPart::Text(s) ==> {
            &&& s@ != root ==> !entry_fits(root, first, found)
            &&& s@ == root && found == (Found::Directory { on_disk: true }) ==> entry_fits(
                root,
                first,
                found,
            )
            &&& s@ == root && found == (Found::Symlink { has_target: true, same: true })
                ==> entry_fits(root, first, found)
            &&& s@ == root && found == (Found::File { on_disk: true, same: true }) ==> entry_fits(
                root,
                first,
                found,
            )
        },
        found matches Found::Directory { on_disk: false } ==> !entry_fits(root, first, found),
        found matches Found::File { on_disk: false, .. } ==> !entry_fits(root, first, found),
        found matches Found::File { same: false, .. } ==> !entry_fits(root, first, found),
        found matches Found::Symlink { same: false, .. } ==> !entry_fits(root, first, found),
        found matches Found::Symlink { has_target: false, .. } ==> !entry_fits(root, first, found),
{
}

/// An entry that does not fit is refused for the reason that holds: no path, not
/// in the directory, not on disk, no target, another target, other contents. No two
/// reasons are given for one entry.
pub proof fn law_why_an_entry_is_refused(
    root: Seq<char>,
    first: FirstPart<'_>,
    found: Found,
    shown: Seq<char>,
    f: Fault,
)
    requires
        !entry_fits(root, first, found),
        is_entry_fault(root, first, found, shown, f),
    ensures
        f is EntryWithoutPath <==> first is Missing,
        f is OutsideRoot <==> (first is NotText || (first matches FirstPart::Text(
            s,
        ) && s@ != root)),
        f is NotOnDisk ==> (found matches Found::Directory { on_disk: false }) || (
        found matches Found::File { on_disk: false, .. }),
        f is NoLinkTarget ==> found matches Found::Symlink { has_target: false, .. },
        f is SymlinkMoved ==> found matches Found::Symlink { has_target: true, same: false },
        f is DiffersFromArchive ==> found matches Found::File { on_disk: true, same: false },
        f is EntryWithoutPath || f is OutsideRoot || f is NotOnDisk || f is NoLinkTarget || f
            is SymlinkMoved || f is DiffersFromArchive,
        f matches Fault::NotOnDisk(p) ==> p@ == shown,
        f matches Fault::NoLinkTarget(p) ==> p@ == shown,
        f matches Fault::SymlinkMoved(p) ==> p@ == shown,
        f matches Fault::DiffersFromArchive(p) ==> p@ == shown,
        f matches Fault::OutsideRoot(r, p) ==> r@ == root && p@ == shown,
{
}

} // verus!
