use cryptosec::check::{
    compare, fill, shred_block, shred_block_with, FirstPart, Found, OnDisk, TreeCheck, Walk, BLOCK,
};
use cryptosec::fault::Fault;
use cryptosec::stream::{ReadEvent, ReadStep};
use std::path::PathBuf;

const ROOT: FirstPart = FirstPart::Text("tree");
const DIR: Found = Found::Directory { on_disk: true };
const LINK: Found = Found::Symlink { has_target: true, same: true };
const FILE: Found = Found::File { on_disk: true, same: true };

/// A check of the tree with a file `a.txt`, a file `sub/b.bin` and a symlink
/// `link`, as far as the first entry that does not fit.
fn tree(a: Found, b: Found, link: Found) -> Result<TreeCheck, Fault> {
    let mut c = TreeCheck::new("tree");
    c.entry(ROOT, DIR, "tree")?;
    c.entry(ROOT, a, "tree/a.txt")?;
    c.entry(ROOT, DIR, "tree/sub")?;
    c.entry(ROOT, b, "tree/sub/b.bin")?;
    c.entry(ROOT, link, "tree/link")?;
    Ok(c)
}

fn message(res: Result<TreeCheck, Fault>) -> String {
    match res {
        Ok(_) => panic!("fits"),
        Err(e) => e.message(),
    }
}

#[test]
fn accepts_a_tree_that_still_matches() {
    tree(FILE, FILE, LINK).unwrap().finish(3).unwrap();
}

#[test]
fn rejects_changed_file_contents() {
    let err = message(tree(Found::File { on_disk: true, same: false }, FILE, LINK));
    assert!(err.contains("a.txt"), "{}", err);
}

#[test]
fn rejects_a_file_the_archive_never_saw() {
    let err = tree(FILE, FILE, LINK).unwrap().finish(4).unwrap_err().message();
    assert!(err.contains("entries"), "{}", err);
    assert_eq!(err, "the archive holds 3 entries, the directory 4");
}

#[test]
fn rejects_a_retargeted_symlink() {
    let err = message(tree(FILE, FILE, Found::Symlink { has_target: true, same: false }));
    assert!(err.contains("symlink"), "{}", err);
    let err = message(tree(FILE, FILE, Found::Symlink { has_target: false, same: false }));
    assert_eq!(err, "tree/link has no link target");
}

#[test]
fn rejects_a_file_that_disappeared() {
    let err = message(tree(FILE, Found::File { on_disk: false, same: false }, LINK));
    assert!(err.contains("not on disk"), "{}", err);
}

#[test]
fn rejects_what_lies_outside_the_tree() {
    let mut c = TreeCheck::new("tree");
    let err = c.entry(FirstPart::Text("other"), FILE, "other/x").unwrap_err();
    assert_eq!(err.message(), "the archive holds an entry outside tree: other/x");
    assert!(matches!(c.entry(FirstPart::NotText, DIR, "?"), Err(Fault::OutsideRoot(_, _))));
    let err = c.entry(FirstPart::Missing, DIR, "").unwrap_err();
    assert_eq!(err.message(), "the archive holds an entry without a path");
    let gone = Found::Directory { on_disk: false };
    let err = c.entry(ROOT, gone, "tree/sub").unwrap_err();
    assert_eq!(err.message(), "tree/sub is in the archive but not on disk");
    c.finish(0).unwrap();
}

#[test]
fn blocks_are_compared_to_the_end() {
    assert!(!compare(b"abc", b"abc").unwrap());
    assert!(compare(b"", b"").unwrap());
    assert!(matches!(compare(b"abc", b"abd"), Err(Fault::DiffersFromSource)));
    let err = compare(b"abc", b"ab").unwrap_err();
    assert_eq!(err.message(), "the decrypted data differs from the source");
    assert!(matches!(fill(0, BLOCK, ReadEvent::Got(BLOCK)), ReadStep::Done(BLOCK)));
    assert!(matches!(fill(5, BLOCK, ReadEvent::Got(0)), ReadStep::Done(5)));
    assert!(matches!(fill(5, BLOCK, ReadEvent::Interrupted), ReadStep::Failed));
    assert!(matches!(fill(5, BLOCK, ReadEvent::Failed), ReadStep::Failed));
}

#[test]
fn a_walk_counts_everything_but_directories() {
    let p = |s: &str| PathBuf::from(s);
    let mut w = Walk::new(p("r"));
    assert_eq!(w.next_dir(), Some(p("r")));
    w.found(p("r/a"), OnDisk::File);
    w.found(p("r/d"), OnDisk::Directory);
    w.found(p("r/l"), OnDisk::Other);
    assert_eq!(w.next_dir(), Some(p("r/d")));
    w.found(p("r/d/b"), OnDisk::File);
    assert_eq!(w.next_dir(), None);
    assert_eq!(w.count(), 3);
    assert_eq!(w.files(), [p("r/a"), p("r/d/b")]);
}

#[test]
fn shredding_covers_the_whole_file() {
    for len in [0u64, 1, 65535, 65536, 65537, 200_000] {
        let mut written = 0u64;
        while written < len {
            let noise = shred_block(written, len);
            assert!(!noise.is_empty() && noise.len() <= BLOCK);
            written += noise.len() as u64;
        }
        assert_eq!(written, len);
        assert!(shred_block(written, len).is_empty());
    }
    assert_ne!(shred_block(0, 64), shred_block(0, 64));
    let mut noise = [0u8; 65536];
    for (i, b) in noise.iter_mut().enumerate() {
        *b = (i % 251) as u8;
    }
    assert_eq!(shred_block_with(&noise, 65536, 65540), [0, 1, 2, 3]);
    assert_eq!(shred_block_with(&noise, 0, 200_000), noise);
    assert!(shred_block_with(&noise, 7, 7).is_empty());
}
