//! Directory entries and the naming convention of packed artifacts.

use vstd::prelude::*;

verus! {

/// What a path turned out to be when it was inspected.
#[derive(Clone, Copy, Debug, PartialEq, Eq, Structural)]
pub enum EntryKind {
    /// A regular file.
    File,
    /// A directory.
    Directory,
    /// Anything else: a special file, a dangling link, or nothing at all.
    Other,
}

/// One child of a directory, as the listing reported it.
#[derive(Debug)]
pub struct PathEntry {
    /// The last component of the entry's path.
    pub name: String,
    pub kind: EntryKind,
    /// Length in bytes; meaningful for files only.
    pub size: u64,
}

/// The suffix that marks a packed artifact: the extension `7z` with its dot.
pub const SUFFIX: &'static str = ".7z";

/// The characters of [`SUFFIX`].
pub open spec fn suffix() -> Seq<char> {
    seq!['.', '7', 'z']
}

/// `name` ends in `tail`.
pub open spec fn ends_with(name: Seq<char>, tail: Seq<char>) -> bool {
    name.len() >= tail.len() && name.subrange(name.len() - tail.len(), name.len() as int) == tail
}

/// A file name is that of a packed artifact when its extension is `7z`:
/// the name ends in `.7z` and the dot is not its first character.
pub open spec fn is_archive_name(name: Seq<char>) -> bool {
    name.len() > suffix().len() && ends_with(name, suffix())
}

/// The name under which a file called `name` is packed when names are kept.
pub open spec fn archive_name(name: Seq<char>) -> Seq<char> {
    name + suffix()
}

/// An entry takes part in packing when it is a regular file that is not
/// itself a packed artifact.
pub open spec fn is_packable(kind: EntryKind, name: Seq<char>) -> bool {
    kind == EntryKind::File && !is_archive_name(name)
}

/// An entry takes part in loading when it is a regular file that is a
/// packed artifact.
pub open spec fn is_loadable(kind: EntryKind, name: Seq<char>) -> bool {
    kind == EntryKind::File && is_archive_name(name)
}

impl PathEntry {
    pub fn new(name: String, kind: EntryKind, size: u64) -> (entry: PathEntry)
        ensures
            entry.name == name,
            entry.kind == kind,
            entry.size == size,
    {
        PathEntry { name, kind, size }
    }

    pub open spec fn packable(self) -> bool {
        is_packable(self.kind, self.name@)
    }

    pub open spec fn directory(self) -> bool {
        self.kind == EntryKind::Directory
    }

    /// Whether this entry is a file that packing picks up.
    pub fn is_packable(&self) -> (b: bool)
        ensures
            b == self.packable(),
    {
        match self.kind {
            EntryKind::File => !has_suffix(self.name.as_str()),
            _ => false,
        }
    }

    /// Whether this entry is a directory.
    pub fn is_directory(&self) -> (b: bool)
        ensures
            b == self.directory(),
    {
        match self.kind {
            EntryKind::Directory => true,
            _ => false,
        }
    }
}

/// Tells whether `name` is the file name of a packed artifact.
pub fn has_suffix(name: &str) -> (b: bool)
    ensures
        b == is_archive_name(name@),
{
    let n: usize = name.unicode_len();
    if n <= 3 {
        return false;
    }
    let a = name.get_char(n - 3);
    let b = name.get_char(n - 2);
    let c = name.get_char(n - 1);
    proof {
        let tail = name@.subrange(n - 3, n as int);
        assert(tail.len() == 3);
        assert(tail[0] == a && tail[1] == b && tail[2] == c);
        if a == '.' && b == '7' && c == 'z' {
            assert(tail =~= suffix());
        }
    }
    a == '.' && b == '7' && c == 'z'
}

/// Appends the artifact suffix to `name`.
pub fn with_suffix(name: &str) -> (packed: String)
    ensures
        packed@ == archive_name(name@),
{
    proof {
        reveal_strlit(".7z");
        assert(SUFFIX@ =~= suffix());
    }
    String::from_str(name).concat(SUFFIX)
}

/// A kept name, once packed, is recognised as an artifact by loading and
/// left alone by packing, whatever the file was called, as long as its
/// name was not empty.
pub proof fn lemma_archive_name_is_recognised(name: Seq<char>)
    requires
        name.len() > 0,
    ensures
        is_archive_name(archive_name(name)),
        is_loadable(EntryKind::File, archive_name(name)),
        !is_packable(EntryKind::File, archive_name(name)),
{
    let packed = archive_name(name);
    assert(packed.subrange(packed.len() - 3, packed.len() as int) =~= suffix());
}

/// Stripping the suffix from a packed name gives the file's own name back,
/// so two different files never share a packed name.
pub proof fn lemma_archive_name_is_injective(a: Seq<char>, b: Seq<char>)
    requires
        archive_name(a) == archive_name(b),
    ensures
        a == b,
{
    assert(a =~= archive_name(a).subrange(0, a.len() as int));
    assert(b =~= archive_name(b).subrange(0, b.len() as int));
    assert(archive_name(a).len() == a.len() + 3);
    assert(archive_name(b).len() == b.len() + 3);
}

} // verus!
