//! The file metadata model: the descriptor the catalog produces for every
//! visible directory child, and the order in which listings present them
//! (directories before files, then byte-lexicographic by name).

use vstd::prelude::*;

use crate::paths::{child_path, DOT};

verus! {

/// What the I/O layer reads off one directory child before the catalog
/// shapes it: the bare name, byte size, kind, and the modification (or
/// creation) time in seconds since the epoch.
#[derive(Debug)]
pub struct RawEntry {
    pub name: Vec<u8>,
    pub size: u64,
    pub is_directory: bool,
    pub modified_at: u64,
}

/// The mathematical value of a [`RawEntry`].
pub ghost struct RawEntryV {
    pub name: Seq<u8>,
    pub size: u64,
    pub is_directory: bool,
    pub modified_at: u64,
}

impl View for RawEntry {
    type V = RawEntryV;

    open spec fn view(&self) -> RawEntryV {
        RawEntryV {
            name: self.name@,
            size: self.size,
            is_directory: self.is_directory,
            modified_at: self.modified_at,
        }
    }
}

impl DeepView for RawEntry {
    type V = RawEntryV;

    open spec fn deep_view(&self) -> RawEntryV {
        self.view()
    }
}

/// One listed directory child, as served to clients: its bare `name`, its
/// root-relative `path`, its `size` in bytes (0 for directories), whether it
/// is a directory, and its modification-or-creation time in seconds since
/// the epoch (directories fall back to modification time, which is the more
/// reliable of the two for them).
#[derive(Debug)]
pub struct FileEntry {
    pub name: Vec<u8>,
    pub path: Vec<u8>,
    pub size: u64,
    pub is_directory: bool,
    pub modified_at: u64,
}

/// The mathematical value of a [`FileEntry`].
pub ghost struct FileEntryV {
    pub name: Seq<u8>,
    pub path: Seq<u8>,
    pub size: u64,
    pub is_directory: bool,
    pub modified_at: u64,
}

impl View for FileEntry {
    type V = FileEntryV;

    open spec fn view(&self) -> FileEntryV {
        FileEntryV {
            name: self.name@,
            path: self.path@,
            size: self.size,
            is_directory: self.is_directory,
            modified_at: self.modified_at,
        }
    }
}

impl DeepView for FileEntry {
    type V = FileEntryV;

    open spec fn deep_view(&self) -> FileEntryV {
        self.view()
    }
}

impl Clone for FileEntry {
    /// Clones preserve the entry's value.
    fn clone(&self) -> (r: Self)
        ensures
            r@ == self@,
    {
        let name = self.name.clone();
        let path = self.path.clone();
        proof {
            assert(name@ =~= self.name@);
            assert(path@ =~= self.path@);
        }
        FileEntry { name, path, size: self.size, is_directory: self.is_directory, modified_at: self.modified_at }
    }
}

/// A directory child surfaced by listings: its name is non-empty and does
/// not start with a dot.  Hidden children (and the engine's own temporary
/// upload files, whose names always start with a dot) never appear.
pub open spec fn visible_name(name: Seq<u8>) -> bool {
    name.len() > 0 && name[0] != DOT
}

/// The entry served for raw child `e` found under the cleaned parent path
/// `parent`.
pub open spec fn entry_of(parent: Seq<u8>, e: RawEntryV) -> FileEntryV {
    FileEntryV {
        name: e.name,
        path: child_path(parent, e.name),
        size: e.size,
        is_directory: e.is_directory,
        modified_at: e.modified_at,
    }
}

/// Byte-wise lexicographic order on names.
pub open spec fn lex_le(a: Seq<u8>, b: Seq<u8>) -> bool
    decreases a.len(),
{
    if a.len() == 0 {
        true
    } else if b.len() == 0 {
        false
    } else if a[0] < b[0] {
        true
    } else if a[0] > b[0] {
        false
    } else {
        lex_le(a.subrange(1, a.len() as int), b.subrange(1, b.len() as int))
    }
}

/// The listing order: directories sort before files; within the same kind,
/// names sort lexicographically.
pub open spec fn entry_le(a: FileEntryV, b: FileEntryV) -> bool {
    if a.is_directory != b.is_directory {
        a.is_directory
    } else {
        lex_le(a.name, b.name)
    }
}

/// Lexicographic order is total: one direction always holds.
pub proof fn lemma_lex_le_total(a: Seq<u8>, b: Seq<u8>)
    ensures
        lex_le(a, b) || lex_le(b, a),
    decreases a.len(),
{
    if a.len() > 0 && b.len() > 0 && a[0] == b[0] {
        lemma_lex_le_total(a.subrange(1, a.len() as int), b.subrange(1, b.len() as int));
    }
}

/// Lexicographic order is transitive.
pub proof fn lemma_lex_le_trans(a: Seq<u8>, b: Seq<u8>, c: Seq<u8>)
    requires
        lex_le(a, b),
        lex_le(b, c),
    ensures
        lex_le(a, c),
    decreases a.len(),
{
    if a.len() > 0 && b.len() > 0 && c.len() > 0 && a[0] == b[0] && b[0] == c[0] {
        lemma_lex_le_trans(
            a.subrange(1, a.len() as int),
            b.subrange(1, b.len() as int),
            c.subrange(1, c.len() as int),
        );
    }
}

/// The listing order is total.
pub proof fn lemma_entry_le_total(a: FileEntryV, b: FileEntryV)
    ensures
        entry_le(a, b) || entry_le(b, a),
{
    if a.is_directory == b.is_directory {
        lemma_lex_le_total(a.name, b.name);
    }
}

/// The listing order is transitive.
pub proof fn lemma_entry_le_trans(a: FileEntryV, b: FileEntryV, c: FileEntryV)
    requires
        entry_le(a, b),
        entry_le(b, c),
    ensures
        entry_le(a, c),
{
    if a.is_directory == b.is_directory && b.is_directory == c.is_directory {
        lemma_lex_le_trans(a.name, b.name, c.name);
    }
}

/// Compares two names in lexicographic byte order.
pub fn lex_le_exec(a: &[u8], b: &[u8]) -> (r: bool)
    ensures
        r == lex_le(a@, b@),
{
    let mut i: usize = 0;
    let na = a.len();
    let nb = b.len();
    proof {
        assert(a@.subrange(0, na as int) =~= a@);
        assert(b@.subrange(0, nb as int) =~= b@);
    }
    loop
        invariant
            i <= na,
            i <= nb,
            na == a@.len(),
            nb == b@.len(),
            forall|k: int| 0 <= k < i ==> a@[k] == b@[k],
            lex_le(a@, b@) == lex_le(
                a@.subrange(i as int, na as int),
                b@.subrange(i as int, nb as int),
            ),
        decreases na - i,
    {
        let ghost ta = a@.subrange(i as int, na as int);
        let ghost tb = b@.subrange(i as int, nb as int);
        if i == na {
            assert(ta.len() == 0);
            return true;
        }
        if i == nb {
            assert(tb.len() == 0 && ta.len() > 0);
            return false;
        }
        if a[i] < b[i] {
            assert(ta[0] < tb[0]);
            return true;
        }
        if a[i] > b[i] {
            assert(ta[0] > tb[0]);
            return false;
        }
        proof {
            assert(ta[0] == tb[0]);
            assert(ta.subrange(1, ta.len() as int) =~= a@.subrange(i + 1, na as int));
            assert(tb.subrange(1, tb.len() as int) =~= b@.subrange(i + 1, nb as int));
        }
        i = i + 1;
    }
}

/// Compares two entries in the listing order.
pub fn entry_le_exec(a: &FileEntry, b: &FileEntry) -> (r: bool)
    ensures
        r == entry_le(a@, b@),
{
    if a.is_directory != b.is_directory {
        a.is_directory
    } else {
        lex_le_exec(a.name.as_slice(), b.name.as_slice())
    }
}

} // verus!
