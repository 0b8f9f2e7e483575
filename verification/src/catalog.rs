//! The directory catalog: shapes raw directory reads into sorted, filtered
//! listings, and decides the outcome of directory create and delete
//! requests.
//!
//! The catalog owns the listing rules: children whose name starts with a dot
//! are omitted; the survivors are served with directories first and, within
//! the same kind, in byte-lexicographic name order.  It also owns the
//! emptiness rule for deletion: a directory counts as empty when every child
//! it still holds is hidden.
//!
//! The catalog never touches a filesystem itself.  The I/O layer resolves
//! a path here, stats and reads the directory, and hands the outcome back in
//! as plain values; every rule applied to those values is stated below.

use vstd::multiset::Multiset;
use vstd::prelude::*;

use crate::entries::{
    entry_le, entry_of, visible_name, FileEntry, FileEntryV, RawEntry, RawEntryV,
    lemma_entry_le_total, lemma_entry_le_trans, entry_le_exec,
};
use crate::errors::FsError;
use crate::paths::{clean_path, has_dotdot, resolved_path, Sandbox, SLASH};

verus! {

broadcast use vstd::seq_lib::group_to_multiset_ensures;

/// The entries a listing serves for the raw children `s` of the cleaned
/// parent path `parent`, before sorting: the visible ones, each shaped by
/// [`entry_of`], in read order.
pub open spec fn visible_entries(parent: Seq<u8>, s: Seq<RawEntryV>) -> Seq<FileEntryV>
    decreases s.len(),
{
    if s.len() == 0 {
        Seq::empty()
    } else {
        let rest = visible_entries(parent, s.drop_last());
        if visible_name(s.last().name) {
            rest.push(entry_of(parent, s.last()))
        } else {
            rest
        }
    }
}

/// How many of the raw children `s` are visible (not hidden).
pub open spec fn count_visible(s: Seq<RawEntryV>) -> nat
    decreases s.len(),
{
    if s.len() == 0 {
        0
    } else {
        count_visible(s.drop_last()) + if visible_name(s.last().name) {
            1nat
        } else {
            0nat
        }
    }
}

/// Whether `s` is sorted in the listing order: directories before files,
/// names lexicographically within a kind.
pub open spec fn entries_sorted(s: Seq<FileEntryV>) -> bool {
    forall|i: int, j: int| 0 <= i < j < s.len() ==> #[trigger] entry_le(s[i], s[j])
}

/// Counts the children whose name does not start with a dot; the deletion
/// rules treat a directory with none as empty.
pub fn count_visible_exec(raw: &Vec<RawEntry>) -> (r: usize)
    ensures
        r == count_visible(raw.deep_view()),
{
    let mut count: usize = 0;
    let mut i: usize = 0;
    while i < raw.len()
        invariant
            i <= raw@.len(),
            raw.deep_view().len() == raw@.len(),
            count == count_visible(raw.deep_view().subrange(0, i as int)),
            count <= i,
        decreases raw@.len() - i,
    {
        let ghost prefix = raw.deep_view().subrange(0, i as int);
        let ghost next = raw.deep_view().subrange(0, i + 1);
        proof {
            assert(next.drop_last() =~= prefix);
            assert(next.last() == raw.deep_view()[i as int]);
        }
        let e = &raw[i];
        if e.name.len() > 0 && e.name[0] != crate::paths::DOT {
            assert(visible_name(raw.deep_view()[i as int].name));
            count = count + 1;
        } else {
            assert(!visible_name(raw.deep_view()[i as int].name));
        }
        i = i + 1;
    }
    proof {
        assert(raw.deep_view().subrange(0, raw@.len() as int) =~= raw.deep_view());
    }
    count
}

/// Shapes the raw children of `parent` into the listing: hidden names are
/// dropped, every survivor carries its root-relative path, and the result
/// holds exactly the visible entries, sorted in the listing order.
pub fn list_entries(parent: &[u8], raw: Vec<RawEntry>) -> (r: Vec<FileEntry>)
    ensures
        r.deep_view().to_multiset() == visible_entries(parent@, raw.deep_view()).to_multiset(),
        entries_sorted(r.deep_view()),
{
    let ghost orig = raw.deep_view();
    let mut rest = raw;
    let mut picked: Vec<FileEntry> = Vec::new();
    loop
        invariant
            picked.deep_view().to_multiset().add(
                visible_entries(parent@, rest.deep_view()).to_multiset(),
            ) =~= visible_entries(parent@, orig).to_multiset(),
        ensures
            picked.deep_view().to_multiset() == visible_entries(parent@, orig).to_multiset(),
        decreases rest@.len(),
    {
        let ghost before = rest.deep_view();
        let e = match rest.pop() {
            Some(e) => e,
            None => {
                proof {
                    assert(rest.deep_view() =~= Seq::<RawEntryV>::empty());
                    assert(visible_entries(parent@, rest.deep_view()) =~= Seq::<
                        FileEntryV,
                    >::empty());
                    assert(visible_entries(parent@, rest.deep_view()).to_multiset() =~= Multiset::<
                        FileEntryV,
                    >::empty());
                    assert(picked.deep_view().to_multiset().add(
                        Multiset::<FileEntryV>::empty(),
                    ) =~= picked.deep_view().to_multiset());
                }
                break;
            },
        };
        proof {
            assert(rest.deep_view() =~= before.drop_last());
            assert(e.deep_view() == before.last());
        }
        if e.name.len() > 0 && e.name[0] != crate::paths::DOT {
            assert(visible_name(before.last().name));
            let path = crate::paths::join_path(parent, e.name.as_slice());
            let fe = FileEntry {
                name: e.name,
                path,
                size: e.size,
                is_directory: e.is_directory,
                modified_at: e.modified_at,
            };
            proof {
                assert(fe.deep_view() == entry_of(parent@, before.last()));
            }
            let ghost picked_before = picked.deep_view();
            picked.push(fe);
            proof {
                assert(picked.deep_view() =~= picked_before.push(fe.deep_view()));
                assert(picked.deep_view().to_multiset().add(
                    visible_entries(parent@, rest.deep_view()).to_multiset(),
                ) =~= visible_entries(parent@, orig).to_multiset());
            }
        } else {
            assert(!visible_name(before.last().name));
        }
    }
    sort_entries(picked)
}

/// Law: a listing never produces a hidden entry.  Every entry it serves has
/// a visible name, carries the root-relative path of that name under the
/// listed parent, and echoes the raw child it was read from.
pub proof fn lemma_visible_entries_all_visible(parent: Seq<u8>, s: Seq<RawEntryV>)
    ensures
        forall|k: int|
            0 <= k < visible_entries(parent, s).len() ==> visible_name(
                #[trigger] visible_entries(parent, s)[k].name,
            ) && visible_entries(parent, s)[k].path == crate::paths::child_path(
                parent,
                visible_entries(parent, s)[k].name,
            ),
    decreases s.len(),
{
    if s.len() > 0 {
        lemma_visible_entries_all_visible(parent, s.drop_last());
        let rest = visible_entries(parent, s.drop_last());
        let whole = visible_entries(parent, s);
        assert forall|k: int| 0 <= k < whole.len() implies visible_name(#[trigger] whole[k].name)
            && whole[k].path == crate::paths::child_path(parent, whole[k].name) by {
            if visible_name(s.last().name) {
                assert(whole == rest.push(entry_of(parent, s.last())));
                if k < rest.len() {
                    assert(whole[k] == rest[k]);
                } else {
                    assert(whole[k] == entry_of(parent, s.last()));
                }
            } else {
                assert(whole == rest);
            }
        }
    }
}

/// Law: a staging file of an in-flight upload never surfaces in a listing,
/// whatever directory is listed and whatever the session id: its name is
/// hidden, and listings drop hidden names.
pub proof fn lemma_temp_files_never_listed(parent: Seq<u8>, s: Seq<RawEntryV>, id: Seq<u8>)
    ensures
        forall|k: int|
            0 <= k < visible_entries(parent, s).len() ==> #[trigger] visible_entries(
                parent,
                s,
            )[k].name != crate::upload::temp_name(id),
{
    lemma_visible_entries_all_visible(parent, s);
    crate::upload::lemma_temp_name_hidden(id);
}

/// A served listing: the sorted visible entries, and the normalized client
/// path echoed back for navigation state.
#[derive(Debug)]
pub struct Listing {
    pub files: Vec<FileEntry>,
    pub current_path: Vec<u8>,
}

/// Serves a listing request for the client path `path`.
///
/// The I/O layer first resolves `path` through the sandbox, reports in
/// `dir_exists` and `is_dir` what it found at the resolved path, and hands
/// the children it read in `raw` (empty unless the target is an existing
/// directory).  The request fails with `InvalidPath` when the path is
/// rejected, `NotFound` when nothing exists there, and `FailedPrecondition`
/// when the object is not a directory; otherwise the visible children are
/// served sorted, under their root-relative paths.
pub fn list_directory(
    sandbox: &Sandbox,
    path: &[u8],
    dir_exists: bool,
    is_dir: bool,
    raw: Vec<RawEntry>,
) -> (r: Result<Listing, FsError>)
    requires
        sandbox.wf(),
    ensures
        match r {
            Ok(l) => {
                &&& !has_dotdot(clean_path(path@))
                &&& dir_exists
                &&& is_dir
                &&& l.current_path@ == clean_path(path@)
                &&& l.files.deep_view().to_multiset() == visible_entries(
                    clean_path(path@),
                    raw.deep_view(),
                ).to_multiset()
                &&& entries_sorted(l.files.deep_view())
            },
            Err(e) => match e {
                FsError::InvalidPath => has_dotdot(clean_path(path@)),
                FsError::NotFound => !has_dotdot(clean_path(path@)) && !dir_exists,
                FsError::FailedPrecondition => !has_dotdot(clean_path(path@)) && dir_exists
                    && !is_dir,
                _ => false,
            },
        },
{
    match sandbox.resolve(path) {
        Ok(_) => (),
        Err(e) => {
            return Err(e);
        },
    }
    if !dir_exists {
        return Err(FsError::NotFound);
    }
    if !is_dir {
        return Err(FsError::FailedPrecondition);
    }
    let cleaned = crate::paths::clean(path);
    let files = list_entries(cleaned.as_slice(), raw);
    Ok(Listing { files, current_path: cleaned })
}

/// Computes the absolute path at which `CreateDirectory(parent, name)` would
/// create its one directory level.
///
/// The parent is resolved through the sandbox (`InvalidPath` on rejection);
/// the name must be a valid single component (`InvalidArgument` otherwise,
/// in particular when it is empty or still contains a separator after
/// trailing separators are trimmed).
pub fn create_directory_target(sandbox: &Sandbox, parent: &[u8], name: &[u8]) -> (r: Result<
    Vec<u8>,
    FsError,
>)
    requires
        sandbox.wf(),
    ensures
        match r {
            Ok(t) => {
                &&& !has_dotdot(clean_path(parent@))
                &&& crate::paths::valid_name(name@)
                &&& t@ == resolved_path(sandbox.root(), parent@) + seq![SLASH]
                    + crate::paths::trim_trailing(name@)
            },
            Err(e) => match e {
                FsError::InvalidPath => has_dotdot(clean_path(parent@)),
                FsError::InvalidArgument => !has_dotdot(clean_path(parent@))
                    && !crate::paths::valid_name(name@),
                _ => false,
            },
        },
{
    let dir = match sandbox.resolve(parent) {
        Ok(d) => d,
        Err(e) => {
            return Err(e);
        },
    };
    let trimmed = match crate::paths::validate_name(name) {
        Ok(t) => t,
        Err(e) => {
            return Err(e);
        },
    };
    let target = crate::paths::join_path(dir.as_slice(), trimmed.as_slice());
    proof {
        assert(dir@.len() > 0);
        assert(target@ == dir@ + seq![SLASH] + trimmed@);
    }
    Ok(target)
}

/// Decides a directory-create request once the I/O layer has checked whether
/// the computed target already exists: exactly then the request fails with
/// `AlreadyExists`; otherwise exactly one directory level is created.
pub fn create_directory_decide(target_exists: bool) -> (r: Result<(), FsError>)
    ensures
        match r {
            Ok(()) => !target_exists,
            Err(e) => e == FsError::AlreadyExists && target_exists,
        },
{
    if target_exists {
        Err(FsError::AlreadyExists)
    } else {
        Ok(())
    }
}

/// Decides a directory-delete request.
///
/// The I/O layer resolves `path`, reports what stands there, and hands the
/// directory's children in `raw`.  The request fails with `InvalidPath` when
/// the path is rejected, `NotFound` when nothing exists there,
/// `FailedPrecondition` when the object is not a directory or when it still
/// holds a visible child and `recursive` was not asked for.  Hidden children
/// alone never block the deletion: such a directory counts as empty, and its
/// hidden children are swept away with it.  On success the returned absolute
/// path is to be removed with all its remaining contents.
pub fn delete_directory_check(
    sandbox: &Sandbox,
    path: &[u8],
    dir_exists: bool,
    is_dir: bool,
    raw: &Vec<RawEntry>,
    recursive: bool,
) -> (r: Result<Vec<u8>, FsError>)
    requires
        sandbox.wf(),
    ensures
        match r {
            Ok(t) => {
                &&& !has_dotdot(clean_path(path@))
                &&& dir_exists
                &&& is_dir
                &&& (recursive || count_visible(raw.deep_view()) == 0)
                &&& t@ == resolved_path(sandbox.root(), path@)
            },
            Err(e) => match e {
                FsError::InvalidPath => has_dotdot(clean_path(path@)),
                FsError::NotFound => !has_dotdot(clean_path(path@)) && !dir_exists,
                FsError::FailedPrecondition => !has_dotdot(clean_path(path@)) && dir_exists && (
                !is_dir || (!recursive && count_visible(raw.deep_view()) > 0)),
                _ => false,
            },
        },
{
    let target = match sandbox.resolve(path) {
        Ok(t) => t,
        Err(e) => {
            return Err(e);
        },
    };
    if !dir_exists {
        return Err(FsError::NotFound);
    }
    if !is_dir {
        return Err(FsError::FailedPrecondition);
    }
    if !recursive && count_visible_exec(raw) > 0 {
        return Err(FsError::FailedPrecondition);
    }
    Ok(target)
}

/// Decides a file-delete request: resolves the path (`InvalidPath` on
/// rejection), fails with `NotFound` when no file exists there, and
/// otherwise returns the absolute path to remove.
pub fn delete_file_check(sandbox: &Sandbox, path: &[u8], file_exists: bool) -> (r: Result<
    Vec<u8>,
    FsError,
>)
    requires
        sandbox.wf(),
    ensures
        match r {
            Ok(t) => {
                &&& !has_dotdot(clean_path(path@))
                &&& file_exists
                &&& t@ == resolved_path(sandbox.root(), path@)
            },
            Err(e) => match e {
                FsError::InvalidPath => has_dotdot(clean_path(path@)),
                FsError::NotFound => !has_dotdot(clean_path(path@)) && !file_exists,
                _ => false,
            },
        },
{
    let target = match sandbox.resolve(path) {
        Ok(t) => t,
        Err(e) => {
            return Err(e);
        },
    };
    if !file_exists {
        return Err(FsError::NotFound);
    }
    Ok(target)
}

/// Sorts entries into the listing order, preserving them as a multiset.
pub fn sort_entries(v: Vec<FileEntry>) -> (r: Vec<FileEntry>)
    ensures
        r.deep_view().to_multiset() == v.deep_view().to_multiset(),
        entries_sorted(r.deep_view()),
{
    let ghost orig = v.deep_view();
    let mut rest = v;
    let mut out: Vec<FileEntry> = Vec::new();
    while rest.len() > 0
        invariant
            out.deep_view().to_multiset().add(rest.deep_view().to_multiset()) =~= orig.to_multiset(),
            entries_sorted(out.deep_view()),
            forall|p: int, q: int|
                0 <= p < out.deep_view().len() && 0 <= q < rest.deep_view().len() ==> #[trigger] entry_le(
                    out.deep_view()[p],
                    rest.deep_view()[q],
                ),
        decreases rest@.len(),
    {
        let mut best: usize = 0;
        proof {
            lemma_entry_le_total(rest.deep_view()[0], rest.deep_view()[0]);
        }
        let mut j: usize = 1;
        while j < rest.len()
            invariant
                best < j <= rest@.len(),
                rest@.len() > 0,
                rest.deep_view().len() == rest@.len(),
                forall|k: int|
                    0 <= k < j ==> #[trigger] entry_le(
                        rest.deep_view()[best as int],
                        rest.deep_view()[k],
                    ),
            decreases rest@.len() - j,
        {
            if entry_le_exec(&rest[j], &rest[best]) {
                proof {
                    lemma_entry_le_total(rest.deep_view()[j as int], rest.deep_view()[j as int]);
                    assert forall|k: int| 0 <= k < j + 1 implies #[trigger] entry_le(
                        rest.deep_view()[j as int],
                        rest.deep_view()[k],
                    ) by {
                        if k < j {
                            lemma_entry_le_trans(
                                rest.deep_view()[j as int],
                                rest.deep_view()[best as int],
                                rest.deep_view()[k],
                            );
                        }
                    }
                }
                best = j;
            } else {
                proof {
                    lemma_entry_le_total(rest.deep_view()[best as int], rest.deep_view()[j as int]);
                }
            }
            j = j + 1;
        }
        let ghost before = rest.deep_view();
        let ghost min = before[best as int];
        let e = rest.remove(best);
        proof {
            assert(e.deep_view() == min);
            assert(rest.deep_view() =~= before.remove(best as int));
            assert(before.to_multiset().contains(min));
        }
        let ghost out_before = out.deep_view();
        out.push(e);
        proof {
            assert(out.deep_view() =~= out_before.push(min));
            assert(out.deep_view().to_multiset() =~= out_before.to_multiset().insert(min));
            assert(rest.deep_view().to_multiset() =~= before.to_multiset().remove(min));
            assert(out.deep_view().to_multiset().add(rest.deep_view().to_multiset())
                =~= out_before.to_multiset().add(before.to_multiset()));
            // the new last element follows everything already placed, and
            // precedes everything left
            assert forall|p: int, q: int|
                0 <= p < out.deep_view().len() && 0 <= q < rest.deep_view().len() implies #[trigger] entry_le(
                out.deep_view()[p],
                rest.deep_view()[q],
            ) by {
                let rq = rest.deep_view()[q];
                assert(before.remove(best as int)[q] == if q < best {
                    before[q]
                } else {
                    before[q + 1]
                });
                assert(entry_le(min, rq));
                if p < out_before.len() {
                    assert(entry_le(out_before[p], min));
                    lemma_entry_le_trans(out_before[p], min, rq);
                }
            }
            assert(entries_sorted(out.deep_view())) by {
                assert(forall|i: int, j2: int|
                    0 <= i < j2 < out_before.len() ==> #[trigger] entry_le(
                        out_before[i],
                        out_before[j2],
                    ));
                assert(forall|i: int|
                    0 <= i < out_before.len() ==> #[trigger] entry_le(out_before[i], min));
            }
        }
    }
    proof {
        assert(rest.deep_view() =~= Seq::<FileEntryV>::empty());
        assert(rest.deep_view().to_multiset() =~= Multiset::<FileEntryV>::empty());
        assert(out.deep_view().to_multiset() =~= orig.to_multiset());
    }
    out
}

} // verus!
