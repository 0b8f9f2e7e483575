//! Path sandboxing: the single choke point that maps client-supplied
//! relative paths (slash-separated byte strings) into the storage root.
//!
//! A relative path is first cleaned by trimming leading and trailing path
//! separators.  A cleaned path that still contains the two-dot sequence
//! anywhere is rejected outright: the check is textual and deliberately
//! conservative, so that no input can name an object outside the root.

use vstd::prelude::*;

use crate::errors::FsError;

verus! {

/// The path separator byte, `/`.
pub const SLASH: u8 = 47;

/// The dot byte, `.`; two in a row form the rejected parent-directory
/// sequence, and a leading one marks a hidden name.
pub const DOT: u8 = 46;

/// `s` with every leading separator removed.
pub open spec fn trim_leading(s: Seq<u8>) -> Seq<u8>
    decreases s.len(),
{
    if s.len() > 0 && s[0] == SLASH {
        trim_leading(s.subrange(1, s.len() as int))
    } else {
        s
    }
}

/// `s` with every trailing separator removed.
pub open spec fn trim_trailing(s: Seq<u8>) -> Seq<u8>
    decreases s.len(),
{
    if s.len() > 0 && s[s.len() - 1] == SLASH {
        trim_trailing(s.subrange(0, s.len() - 1))
    } else {
        s
    }
}

/// The cleaned form of a client path: leading and trailing separators gone.
pub open spec fn clean_path(s: Seq<u8>) -> Seq<u8> {
    trim_trailing(trim_leading(s))
}

/// Whether `s` contains two consecutive dots anywhere.
pub open spec fn has_dotdot(s: Seq<u8>) -> bool {
    exists|i: int| 0 <= i && i + 1 < s.len() && #[trigger] s[i] == DOT && s[i + 1] == DOT
}

/// The absolute path a cleaned relative path maps to: the root itself for
/// the empty path, else the cleaned path appended under the root.
pub open spec fn resolved_path(root: Seq<u8>, rel: Seq<u8>) -> Seq<u8> {
    if clean_path(rel).len() == 0 {
        root
    } else {
        root + seq![SLASH] + clean_path(rel)
    }
}

/// If the first `i` bytes of `s` are separators and the byte at `i` (when
/// there is one) is not, trimming from the left drops exactly those `i`.
proof fn lemma_trim_leading_prefix(s: Seq<u8>, i: int)
    requires
        0 <= i <= s.len(),
        forall|k: int| 0 <= k < i ==> s[k] == SLASH,
        i == s.len() || s[i] != SLASH,
    ensures
        trim_leading(s) == s.subrange(i, s.len() as int),
    decreases i,
{
    if i == 0 {
        assert(s =~= s.subrange(0, s.len() as int));
    } else {
        let t = s.subrange(1, s.len() as int);
        lemma_trim_leading_prefix(t, i - 1);
        assert(t.subrange(i - 1, t.len() as int) =~= s.subrange(i, s.len() as int));
    }
}

/// If the bytes of `s` from `j` on are separators and the byte before `j`
/// (when there is one) is not, trimming from the right keeps exactly `j`.
proof fn lemma_trim_trailing_suffix(s: Seq<u8>, j: int)
    requires
        0 <= j <= s.len(),
        forall|k: int| j <= k < s.len() ==> s[k] == SLASH,
        j == 0 || s[j - 1] != SLASH,
    ensures
        trim_trailing(s) == s.subrange(0, j),
    decreases s.len() - j,
{
    if j == s.len() {
        assert(s =~= s.subrange(0, s.len() as int));
    } else {
        let t = s.subrange(0, s.len() - 1);
        lemma_trim_trailing_suffix(t, j);
        assert(t.subrange(0, j) =~= s.subrange(0, j));
    }
}

/// Trimming from the left never removes a dot, so the two-dot sequence
/// survives it.
proof fn lemma_dotdot_trim_leading(s: Seq<u8>)
    requires
        has_dotdot(s),
    ensures
        has_dotdot(trim_leading(s)),
    decreases s.len(),
{
    if s.len() > 0 && s[0] == SLASH {
        let t = s.subrange(1, s.len() as int);
        let i = choose|i: int| 0 <= i && i + 1 < s.len() && #[trigger] s[i] == DOT && s[i + 1] == DOT;
        assert(t[i - 1] == DOT && t[i] == DOT);
        lemma_dotdot_trim_leading(t);
    }
}

/// Trimming from the right never removes a dot, so the two-dot sequence
/// survives it.
proof fn lemma_dotdot_trim_trailing(s: Seq<u8>)
    requires
        has_dotdot(s),
    ensures
        has_dotdot(trim_trailing(s)),
    decreases s.len(),
{
    if s.len() > 0 && s[s.len() - 1] == SLASH {
        let t = s.subrange(0, s.len() - 1);
        let i = choose|i: int| 0 <= i && i + 1 < s.len() && #[trigger] s[i] == DOT && s[i + 1] == DOT;
        assert(t[i] == DOT && t[i + 1] == DOT);
        lemma_dotdot_trim_trailing(t);
    }
}

/// Law: the two-dot check on the cleaned path misses nothing, because
/// cleaning removes only separators.  Together with the contract of
/// [`Sandbox::resolve`] this says every path containing the sequence,
/// cleaned or not, is rejected.
pub proof fn lemma_dotdot_survives_clean(s: Seq<u8>)
    requires
        has_dotdot(s),
    ensures
        has_dotdot(clean_path(s)),
{
    lemma_dotdot_trim_leading(s);
    lemma_dotdot_trim_trailing(trim_leading(s));
}

/// Law: resolution stays inside the storage root.  Every resolved path is
/// the root itself or extends the root by a separator.
pub proof fn lemma_resolve_within_root(root: Seq<u8>, rel: Seq<u8>)
    ensures
        resolved_path(root, rel) == root || resolved_path(root, rel).subrange(
            0,
            root.len() as int + 1,
        ) == root + seq![SLASH],
{
    if clean_path(rel).len() != 0 {
        assert((root + seq![SLASH] + clean_path(rel)).subrange(0, root.len() as int + 1) =~= root
            + seq![SLASH]);
    }
}

/// Law: resolution is injective on cleaned paths.  Two relative paths with
/// distinct cleaned forms resolve to distinct absolute paths.
pub proof fn lemma_resolve_injective(root: Seq<u8>, a: Seq<u8>, b: Seq<u8>)
    requires
        clean_path(a) != clean_path(b),
    ensures
        resolved_path(root, a) != resolved_path(root, b),
{
    let ca = clean_path(a);
    let cb = clean_path(b);
    if ca.len() == 0 && cb.len() == 0 {
        assert(ca =~= cb);
    } else if ca.len() == 0 || cb.len() == 0 {
        assert(resolved_path(root, a).len() != resolved_path(root, b).len());
    } else {
        let ra = resolved_path(root, a);
        let rb = resolved_path(root, b);
        assert(ra == root + seq![SLASH] + ca);
        assert(rb == root + seq![SLASH] + cb);
        assert((root + seq![SLASH] + ca).len() == root.len() + 1 + ca.len());
        assert((root + seq![SLASH] + cb).len() == root.len() + 1 + cb.len());
        if ra == rb {
            assert(ca =~= cb) by {
                assert(ca.len() == cb.len());
                assert forall|k: int| 0 <= k < ca.len() implies ca[k] == cb[k] by {
                    assert(ca[k] == (root + seq![SLASH] + ca)[root.len() + 1 + k]);
                    assert(cb[k] == (root + seq![SLASH] + cb)[root.len() + 1 + k]);
                }
            }
        }
    }
}

/// A valid object name (of a directory to create, or of an uploaded file):
/// non-empty once trailing separators are trimmed, and free of separators
/// thereafter, so that a name can never inject a nested path.
pub open spec fn valid_name(name: Seq<u8>) -> bool {
    trim_trailing(name).len() > 0 && forall|k: int|
        0 <= k < trim_trailing(name).len() ==> #[trigger] trim_trailing(name)[k] != SLASH
}

/// The root-relative path of a child `name` under a cleaned parent path:
/// the name itself when the parent is the root, else parent, separator, name.
pub open spec fn child_path(parent: Seq<u8>, name: Seq<u8>) -> Seq<u8> {
    if parent.len() == 0 {
        name
    } else {
        parent + seq![SLASH] + name
    }
}

/// Where the final path component of `s` starts: just after the last
/// separator, or at the front when there is none.
pub open spec fn base_start(s: Seq<u8>) -> int
    decreases s.len(),
{
    if s.len() == 0 {
        0
    } else if s[s.len() - 1] == SLASH {
        s.len() as int
    } else {
        base_start(s.subrange(0, s.len() - 1))
    }
}

/// The final path component of `s` (empty when `s` ends in a separator).
pub open spec fn base_name(s: Seq<u8>) -> Seq<u8> {
    s.subrange(base_start(s), s.len() as int)
}

pub proof fn lemma_base_start_bounds(s: Seq<u8>)
    ensures
        0 <= base_start(s) <= s.len(),
    decreases s.len(),
{
    if s.len() > 0 && s[s.len() - 1] != SLASH {
        lemma_base_start_bounds(s.subrange(0, s.len() - 1));
    }
}

/// If no separator stands at or after `j`, the final component starts where
/// it starts in the prefix of length `j`.
proof fn lemma_base_start_suffix(s: Seq<u8>, j: int)
    requires
        0 <= j <= s.len(),
        forall|k: int| j <= k < s.len() ==> s[k] != SLASH,
    ensures
        base_start(s) == base_start(s.subrange(0, j)),
    decreases s.len() - j,
{
    if j == s.len() {
        assert(s =~= s.subrange(0, s.len() as int));
    } else {
        let t = s.subrange(0, s.len() - 1);
        lemma_base_start_suffix(t, j);
        assert(t.subrange(0, j) =~= s.subrange(0, j));
    }
}

/// Checks an object name: trims trailing separators, then fails with
/// `InvalidArgument` when nothing is left or a separator remains, and
/// otherwise returns the trimmed name.
pub fn validate_name(name: &[u8]) -> (r: Result<Vec<u8>, FsError>)
    ensures
        match r {
            Ok(v) => valid_name(name@) && v@ == trim_trailing(name@),
            Err(e) => e == FsError::InvalidArgument && !valid_name(name@),
        },
{
    let n = name.len();
    let mut end: usize = n;
    while end > 0 && name[end - 1] == SLASH
        invariant
            end <= n,
            n == name@.len(),
            forall|k: int| end <= k < n ==> name@[k] == SLASH,
        decreases end,
    {
        end = end - 1;
    }
    proof {
        lemma_trim_trailing_suffix(name@, end as int);
    }
    if end == 0 {
        return Err(FsError::InvalidArgument);
    }
    let ghost trimmed = name@.subrange(0, end as int);
    let mut out: Vec<u8> = Vec::new();
    let mut i: usize = 0;
    while i < end
        invariant
            i <= end <= n,
            n == name@.len(),
            trimmed == name@.subrange(0, end as int),
            trimmed == trim_trailing(name@),
            out@ == name@.subrange(0, i as int),
            forall|k: int| 0 <= k < i ==> #[trigger] trimmed[k] != SLASH,
        decreases end - i,
    {
        if name[i] == SLASH {
            assert(trimmed[i as int] == SLASH);
            return Err(FsError::InvalidArgument);
        }
        out.push(name[i]);
        assert(name@.subrange(0, i + 1 as int) =~= name@.subrange(0, i as int).push(
            name@[i as int],
        ));
        i = i + 1;
    }
    assert(out@ == trimmed);
    Ok(out)
}

/// Joins a cleaned parent path and a child name into the child's
/// root-relative path.
pub fn join_path(parent: &[u8], name: &[u8]) -> (r: Vec<u8>)
    ensures
        r@ == child_path(parent@, name@),
{
    let mut out: Vec<u8> = Vec::new();
    if parent.len() > 0 {
        let mut i: usize = 0;
        while i < parent.len()
            invariant
                i <= parent@.len(),
                out@ == parent@.subrange(0, i as int),
            decreases parent@.len() - i,
        {
            out.push(parent[i]);
            assert(parent@.subrange(0, i + 1 as int) =~= parent@.subrange(0, i as int).push(
                parent@[i as int],
            ));
            i = i + 1;
        }
        assert(out@ =~= parent@);
        out.push(SLASH);
    }
    let ghost pre = out@;
    let mut j: usize = 0;
    while j < name.len()
        invariant
            j <= name@.len(),
            out@ == pre + name@.subrange(0, j as int),
        decreases name@.len() - j,
    {
        out.push(name[j]);
        assert(pre + name@.subrange(0, j + 1 as int) =~= (pre + name@.subrange(0, j as int)).push(
            name@[j as int],
        ));
        j = j + 1;
    }
    assert(name@.subrange(0, name@.len() as int) =~= name@);
    if parent.len() > 0 {
        assert(out@ =~= parent@ + seq![SLASH] + name@);
    } else {
        assert(out@ =~= name@);
    }
    out
}

/// Cleans a client path: trims leading and trailing separators.
pub fn clean(rel: &[u8]) -> (r: Vec<u8>)
    ensures
        r@ == clean_path(rel@),
{
    let n = rel.len();
    let mut start: usize = 0;
    while start < n && rel[start] == SLASH
        invariant
            start <= n,
            n == rel@.len(),
            forall|k: int| 0 <= k < start ==> rel@[k] == SLASH,
        decreases n - start,
    {
        start = start + 1;
    }
    proof {
        lemma_trim_leading_prefix(rel@, start as int);
    }
    let mut end: usize = n;
    while end > start && rel[end - 1] == SLASH
        invariant
            start <= end <= n,
            n == rel@.len(),
            forall|k: int| end <= k < n ==> rel@[k] == SLASH,
        decreases end,
    {
        end = end - 1;
    }
    let ghost led = rel@.subrange(start as int, n as int);
    proof {
        lemma_trim_trailing_suffix(led, end - start);
        assert(led.subrange(0, end - start) =~= rel@.subrange(start as int, end as int));
    }
    let mut out: Vec<u8> = Vec::new();
    let mut i: usize = start;
    while i < end
        invariant
            start <= i <= end <= n,
            n == rel@.len(),
            out@ == rel@.subrange(start as int, i as int),
        decreases end - i,
    {
        out.push(rel[i]);
        assert(rel@.subrange(start as int, i + 1 as int) =~= rel@.subrange(
            start as int,
            i as int,
        ).push(rel@[i as int]));
        i = i + 1;
    }
    out
}

/// Extracts the final path component: everything after the last separator.
pub fn base_name_of(path: &[u8]) -> (r: Vec<u8>)
    ensures
        r@ == base_name(path@),
{
    let n = path.len();
    let mut j: usize = n;
    while j > 0 && path[j - 1] != SLASH
        invariant
            j <= n,
            n == path@.len(),
            forall|k: int| j <= k < n ==> path@[k] != SLASH,
        decreases j,
    {
        j = j - 1;
    }
    proof {
        lemma_base_start_suffix(path@, j as int);
        if j > 0 {
            assert(path@.subrange(0, j as int)[j - 1] == SLASH);
        }
        assert(base_start(path@) == j as int);
    }
    let mut out: Vec<u8> = Vec::new();
    let mut i: usize = j;
    while i < n
        invariant
            j <= i <= n,
            n == path@.len(),
            out@ == path@.subrange(j as int, i as int),
        decreases n - i,
    {
        out.push(path[i]);
        assert(path@.subrange(j as int, i + 1 as int) =~= path@.subrange(j as int, i as int).push(
            path@[i as int],
        ));
        i = i + 1;
    }
    out
}

/// A storage root under which all client paths are confined.
#[derive(Debug)]
pub struct Sandbox {
    root: Vec<u8>,
}

impl Sandbox {
    /// The root path, as configured (trailing separators trimmed).
    pub closed spec fn root(&self) -> Seq<u8> {
        self.root@
    }

    /// A usable sandbox names a non-empty root with no trailing separator.
    pub open spec fn wf(&self) -> bool {
        self.root().len() > 0 && self.root()[self.root().len() - 1] != SLASH
    }

    /// Builds a sandbox over `root`, trimming trailing separators; a root
    /// that is empty after trimming is rejected.
    pub fn new(root: Vec<u8>) -> (r: Result<Sandbox, FsError>)
        ensures
            match r {
                Ok(s) => s.wf() && s.root() == trim_trailing(root@),
                Err(e) => e == FsError::InvalidArgument && trim_trailing(root@).len() == 0,
            },
    {
        let mut end: usize = root.len();
        while end > 0 && root[end - 1] == SLASH
            invariant
                end <= root@.len(),
                forall|k: int| end <= k < root@.len() ==> root@[k] == SLASH,
            decreases end,
        {
            end = end - 1;
        }
        proof {
            lemma_trim_trailing_suffix(root@, end as int);
        }
        if end == 0 {
            Err(FsError::InvalidArgument)
        } else {
            let mut trimmed = root;
            trimmed.truncate(end);
            Ok(Sandbox { root: trimmed })
        }
    }

    /// Maps a client-relative path into the storage root.
    ///
    /// The path is cleaned of leading and trailing separators; a cleaned
    /// path still containing two consecutive dots fails with `InvalidPath`,
    /// the empty cleaned path resolves to the root itself, and any other
    /// resolves to the cleaned path appended under the root.  No filesystem
    /// is consulted: the function is deterministic and side-effect-free.
    pub fn resolve(&self, rel: &[u8]) -> (r: Result<Vec<u8>, FsError>)
        requires
            self.wf(),
        ensures
            match r {
                Ok(p) => !has_dotdot(clean_path(rel@)) && p@ == resolved_path(self.root(), rel@),
                Err(e) => e == FsError::InvalidPath && has_dotdot(clean_path(rel@)),
            },
    {
        let n = rel.len();
        let mut start: usize = 0;
        while start < n && rel[start] == SLASH
            invariant
                start <= n,
                n == rel@.len(),
                forall|k: int| 0 <= k < start ==> rel@[k] == SLASH,
            decreases n - start,
        {
            start = start + 1;
        }
        proof {
            lemma_trim_leading_prefix(rel@, start as int);
        }
        let mut end: usize = n;
        while end > start && rel[end - 1] == SLASH
            invariant
                start <= end <= n,
                n == rel@.len(),
                forall|k: int| end <= k < n ==> rel@[k] == SLASH,
            decreases end,
        {
            end = end - 1;
        }
        let ghost led = rel@.subrange(start as int, n as int);
        proof {
            lemma_trim_trailing_suffix(led, end - start);
            assert(led.subrange(0, end - start) =~= rel@.subrange(start as int, end as int));
        }
        let ghost cleaned = rel@.subrange(start as int, end as int);
        assert(clean_path(rel@) == cleaned);

        let mut i: usize = start;
        while i < end
            invariant
                start <= i <= end <= n,
                n == rel@.len(),
                cleaned == rel@.subrange(start as int, end as int),
                cleaned == clean_path(rel@),
                forall|k: int|
                    0 <= k && k + 1 < cleaned.len() && k < i - start ==> !(#[trigger] cleaned[k]
                        == DOT && cleaned[k + 1] == DOT),
            decreases end - i,
        {
            if i + 1 < end && rel[i] == DOT && rel[i + 1] == DOT {
                assert(cleaned[i - start] == DOT && cleaned[i - start + 1] == DOT);
                assert(has_dotdot(cleaned));
                return Err(FsError::InvalidPath);
            }
            assert(cleaned[i - start] == rel@[i as int]);
            assert(i - start + 1 < cleaned.len() ==> cleaned[i - start + 1] == rel@[i + 1]);
            i = i + 1;
        }
        assert(!has_dotdot(cleaned));

        let mut out = self.root.clone();
        assert(out@ == self.root());
        if start == end {
            return Ok(out);
        }
        out.push(SLASH);
        let mut j: usize = start;
        while j < end
            invariant
                start <= j <= end <= n,
                n == rel@.len(),
                out@ == self.root() + seq![SLASH] + rel@.subrange(start as int, j as int),
            decreases end - j,
        {
            out.push(rel[j]);
            assert(rel@.subrange(start as int, j + 1 as int) =~= rel@.subrange(
                start as int,
                j as int,
            ).push(rel@[j as int]));
            j = j + 1;
        }
        assert(out@ == resolved_path(self.root(), rel@));
        Ok(out)
    }
}

} // verus!
