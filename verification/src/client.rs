//! Client-side upload preparation: drawing a collision-resistant session id
//! and deriving the metadata of an upload's first chunk from the local
//! source path.

use vstd::prelude::*;

use crate::errors::FsError;
use crate::paths::{base_name, base_start, trim_trailing, valid_name, SLASH};

verus! {

/// Relies on `uuid::Uuid::new_v4` and the hyphenated `Display` form of
/// `uuid`: the string of a version-4 id is exactly 36 characters, each a
/// lowercase hexadecimal digit or a hyphen.  Nothing else can be promised of
/// a random id.
#[verifier::external_body]
fn random_session_id() -> (r: Vec<u8>)
    ensures
        r@.len() == 36,
        forall|k: int|
            0 <= k < r@.len() ==> (48 <= #[trigger] r@[k] <= 57) || (97 <= r@[k] <= 102) || r@[k]
                == 45,
{
    uuid::Uuid::new_v4().to_string().into_bytes()
}

/// Draws a fresh upload-session id: 36 characters of hexadecimal digits and
/// hyphens, which is always a valid single name (no separator can occur in
/// it, so it can never name anything outside its target directory).
pub fn fresh_upload_id() -> (r: Vec<u8>)
    ensures
        r@.len() == 36,
        valid_name(r@),
        trim_trailing(r@) == r@,
{
    let id = random_session_id();
    proof {
        assert(id@[id@.len() - 1] != SLASH);
        assert(trim_trailing(id@) == id@);
        assert(forall|k: int| 0 <= k < id@.len() ==> #[trigger] id@[k] != SLASH);
    }
    id
}

/// The metadata an upload stream's first chunk carries: the session id, the
/// final filename, and the target directory (empty for the storage root).
pub struct UploadStart {
    pub upload_id: Vec<u8>,
    pub filename: Vec<u8>,
    pub target_dir: Vec<u8>,
}

/// No separator stands in a final path component.
proof fn lemma_base_name_no_slash(s: Seq<u8>)
    ensures
        forall|k: int| 0 <= k < base_name(s).len() ==> #[trigger] base_name(s)[k] != SLASH,
    decreases s.len(),
{
    if s.len() == 0 {
    } else if s[s.len() - 1] == SLASH {
        assert(base_name(s).len() == 0);
    } else {
        let t = s.subrange(0, s.len() - 1);
        lemma_base_name_no_slash(t);
        crate::paths::lemma_base_start_bounds(t);
        assert(base_start(s) == base_start(t));
        let b = base_start(s);
        assert forall|k: int| 0 <= k < base_name(s).len() implies #[trigger] base_name(s)[k]
            != SLASH by {
            assert(base_name(s)[k] == s[b + k]);
            if b + k < s.len() - 1 {
                assert(base_name(t)[k] == t[b + k]);
                assert(t[b + k] == s[b + k]);
            } else {
                assert(s[b + k] == s[s.len() - 1]);
            }
        }
    }
}

/// Prepares the first chunk of an upload, as the interactive client does
/// before streaming a local file: a fresh session id, the source's base name
/// as the final filename, and the chosen target directory.  A source path
/// whose final component is empty (it ends in a separator, or is empty) is
/// rejected with `InvalidArgument`: there is no filename to publish under.
pub fn prepare_upload(source_path: &[u8], target_dir: Vec<u8>) -> (r: Result<
    UploadStart,
    FsError,
>)
    ensures
        match r {
            Ok(u) => {
                &&& base_name(source_path@).len() > 0
                &&& u.filename@ == base_name(source_path@)
                &&& valid_name(u.filename@)
                &&& u.upload_id@.len() == 36
                &&& valid_name(u.upload_id@)
                &&& u.target_dir@ == target_dir@
            },
            Err(e) => e == FsError::InvalidArgument && base_name(source_path@).len() == 0,
        },
{
    let name = crate::paths::base_name_of(source_path);
    if name.len() == 0 {
        return Err(FsError::InvalidArgument);
    }
    proof {
        lemma_base_name_no_slash(source_path@);
        assert(name@[name@.len() - 1] != SLASH);
        assert(trim_trailing(name@) == name@);
    }
    let upload_id = fresh_upload_id();
    Ok(UploadStart { upload_id, filename: name, target_dir })
}

} // verus!
