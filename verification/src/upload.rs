//! The upload session: one client-streamed upload, from its first metadata
//! chunk to the atomic publication of the finished file.
//!
//! Bytes are staged in a temporary file named after the session id; only the
//! final rename publishes them, so a reader never observes a partial file
//! under the final name.  Temporary names start with a dot and therefore
//! never surface in listings.  The session tracks, in ghost state, exactly
//! the bytes received so far: the concatenation of the chunk payloads in
//! stream order.

use vstd::prelude::*;

use crate::errors::FsError;
use crate::paths::{
    clean_path, has_dotdot, resolved_path, trim_trailing, valid_name, Sandbox, DOT, SLASH,
};

verus! {

/// The suffix of a temporary staging file, `.tmp` (the leading dot of the
/// whole name stands separately in [`temp_name`]).
pub open spec fn tmp_suffix() -> Seq<u8> {
    seq![DOT, 116u8, 109u8, 112u8]
}

/// The staging-file name of the session `id`: a dot, the id, and `.tmp`.
/// The leading dot keeps it hidden from every listing.
pub open spec fn temp_name(id: Seq<u8>) -> Seq<u8> {
    seq![DOT] + id + tmp_suffix()
}

/// Builds the staging-file name for `id`.
pub fn temp_name_of(id: &[u8]) -> (r: Vec<u8>)
    ensures
        r@ == temp_name(id@),
{
    let mut out: Vec<u8> = Vec::new();
    out.push(DOT);
    let mut i: usize = 0;
    while i < id.len()
        invariant
            i <= id@.len(),
            out@ == seq![DOT] + id@.subrange(0, i as int),
        decreases id@.len() - i,
    {
        out.push(id[i]);
        assert(seq![DOT] + id@.subrange(0, i + 1 as int) =~= (seq![DOT] + id@.subrange(
            0,
            i as int,
        )).push(id@[i as int]));
        i = i + 1;
    }
    assert(id@.subrange(0, id@.len() as int) =~= id@);
    out.push(DOT);
    out.push(116);
    out.push(109);
    out.push(112);
    assert(out@ =~= temp_name(id@));
    out
}

/// One in-flight upload: the identifiers from the first chunk, the staging
/// and final absolute paths, and the running byte count.  `content` and
/// `chunks` are the ghost record of what has arrived: every byte appended,
/// and the chunk payloads in stream order.
pub struct UploadSession {
    pub upload_id: Vec<u8>,
    pub filename: Vec<u8>,
    pub temp_path: Vec<u8>,
    pub final_path: Vec<u8>,
    pub total_bytes: u64,
    pub content: Ghost<Seq<u8>>,
    pub chunks: Ghost<Seq<Seq<u8>>>,
}

impl UploadSession {
    /// The session's accounting is exact: the byte count equals the staged
    /// content's length, and the content is the concatenation of the chunks
    /// received, in order.
    pub open spec fn wf(&self) -> bool {
        &&& self.content@.len() == self.total_bytes as nat
        &&& self.content@ == self.chunks@.flatten()
    }
}

/// Opens an upload session from the metadata of the stream's first chunk.
///
/// The target directory (empty for the storage root) is resolved through the
/// sandbox (`InvalidPath` on rejection); the session id and the final
/// filename must be valid single names (`InvalidArgument` otherwise), so
/// that neither can name anything outside the resolved directory; and the
/// resolved directory must exist (`NotFound`, as reported by the I/O layer
/// in `dir_exists`).  The fresh session has received nothing, stages into
/// the hidden `temp_name` of its id, and will publish at the final filename
/// under the target directory.
pub fn begin_upload(
    sandbox: &Sandbox,
    upload_id: Vec<u8>,
    filename: Vec<u8>,
    target_dir: &[u8],
    dir_exists: bool,
) -> (r: Result<UploadSession, FsError>)
    requires
        sandbox.wf(),
    ensures
        match r {
            Ok(s) => {
                &&& !has_dotdot(clean_path(target_dir@))
                &&& valid_name(upload_id@)
                &&& valid_name(filename@)
                &&& dir_exists
                &&& s.upload_id@ == trim_trailing(upload_id@)
                &&& s.filename@ == trim_trailing(filename@)
                &&& s.temp_path@ == resolved_path(sandbox.root(), target_dir@) + seq![SLASH]
                    + temp_name(trim_trailing(upload_id@))
                &&& s.final_path@ == resolved_path(sandbox.root(), target_dir@) + seq![SLASH]
                    + trim_trailing(filename@)
                &&& s.total_bytes == 0
                &&& s.content@ == Seq::<u8>::empty()
                &&& s.chunks@ == Seq::<Seq<u8>>::empty()
                &&& s.wf()
            },
            Err(e) => match e {
                FsError::InvalidPath => has_dotdot(clean_path(target_dir@)),
                FsError::InvalidArgument => !has_dotdot(clean_path(target_dir@)) && (!valid_name(
                    upload_id@,
                ) || !valid_name(filename@)),
                FsError::NotFound => !has_dotdot(clean_path(target_dir@)) && valid_name(upload_id@)
                    && valid_name(filename@) && !dir_exists,
                _ => false,
            },
        },
{
    let dir = match sandbox.resolve(target_dir) {
        Ok(d) => d,
        Err(e) => {
            return Err(e);
        },
    };
    let id = match crate::paths::validate_name(upload_id.as_slice()) {
        Ok(v) => v,
        Err(e) => {
            return Err(e);
        },
    };
    let name = match crate::paths::validate_name(filename.as_slice()) {
        Ok(v) => v,
        Err(e) => {
            return Err(e);
        },
    };
    if !dir_exists {
        return Err(FsError::NotFound);
    }
    assert(dir@.len() > 0);
    let tname = temp_name_of(id.as_slice());
    let temp_path = crate::paths::join_path(dir.as_slice(), tname.as_slice());
    let final_path = crate::paths::join_path(dir.as_slice(), name.as_slice());
    let session = UploadSession {
        upload_id: id,
        filename: name,
        temp_path,
        final_path,
        total_bytes: 0,
        content: Ghost(Seq::empty()),
        chunks: Ghost(Seq::empty()),
    };
    proof {
        assert(session.chunks@.flatten() =~= Seq::<u8>::empty());
    }
    Ok(session)
}

impl UploadSession {
    /// Records one chunk payload appended, in stream order, to the staging
    /// file.  The stream order alone places the bytes; an advisory chunk
    /// index carried by the wire format is not consulted.  The caller checks
    /// that the running total cannot overflow the 64-bit byte count (a file
    /// that large cannot exist).
    pub fn append_chunk(&mut self, data: &[u8])
        requires
            old(self).wf(),
            old(self).total_bytes + data@.len() <= u64::MAX,
        ensures
            final(self).wf(),
            final(self).content@ == old(self).content@ + data@,
            final(self).chunks@ == old(self).chunks@.push(data@),
            final(self).total_bytes == old(self).total_bytes + data@.len(),
            final(self).upload_id == old(self).upload_id,
            final(self).filename == old(self).filename,
            final(self).temp_path == old(self).temp_path,
            final(self).final_path == old(self).final_path,
    {
        proof {
            broadcast use vstd::prelude::Seq::lemma_flatten_push;

        }
        self.total_bytes = self.total_bytes + data.len() as u64;
        proof {
            self.content@ = self.content@ + data@;
            self.chunks@ = self.chunks@.push(data@);
        }
    }

    /// Closes the stream: after the staging file is renamed onto the final
    /// path (the sole publication point), reports the response of the
    /// completed upload.  The reported size is exactly the number of bytes
    /// received, and the file id echoes the session id.
    pub fn finish(self, now_seconds: u64) -> (r: UploadResponse)
        requires
            self.wf(),
        ensures
            r.file_id@ == self.upload_id@,
            r.filename@ == self.filename@,
            r.size == self.total_bytes,
            r.size == self.content@.len(),
            r.upload_time == now_seconds,
    {
        UploadResponse {
            file_id: self.upload_id,
            filename: self.filename,
            size: self.total_bytes,
            upload_time: now_seconds,
        }
    }
}

/// The response to a completed upload: the session id standing as file id,
/// the final filename, the byte count, and the server-assigned completion
/// time in seconds since the epoch.
pub struct UploadResponse {
    pub file_id: Vec<u8>,
    pub filename: Vec<u8>,
    pub size: u64,
    pub upload_time: u64,
}

/// Appending to a common prefix is injective.
proof fn lemma_append_injective(prefix: Seq<u8>, a: Seq<u8>, b: Seq<u8>)
    requires
        a != b,
    ensures
        prefix + a != prefix + b,
{
    if prefix + a == prefix + b {
        assert((prefix + a).len() == prefix.len() + a.len());
        assert((prefix + b).len() == prefix.len() + b.len());
        assert(a =~= b) by {
            assert(a.len() == b.len());
            assert forall|k: int| 0 <= k < a.len() implies a[k] == b[k] by {
                assert(a[k] == (prefix + a)[prefix.len() + k]);
                assert(b[k] == (prefix + b)[prefix.len() + k]);
            }
        }
    }
}

/// Distinct session ids stage under distinct temporary names.
pub proof fn lemma_temp_name_injective(id1: Seq<u8>, id2: Seq<u8>)
    requires
        id1 != id2,
    ensures
        temp_name(id1) != temp_name(id2),
{
    if temp_name(id1) == temp_name(id2) {
        assert(temp_name(id1).len() == 1 + id1.len() + 4);
        assert(temp_name(id2).len() == 1 + id2.len() + 4);
        assert(id1 =~= id2) by {
            assert(id1.len() == id2.len());
            assert forall|k: int| 0 <= k < id1.len() implies id1[k] == id2[k] by {
                assert(id1[k] == temp_name(id1)[1 + k]);
                assert(id2[k] == temp_name(id2)[1 + k]);
            }
        }
    }
}

/// Law: concurrent uploads with distinct session ids stage into distinct
/// temporary files of the same directory, so neither can touch the other's
/// bytes.
pub proof fn lemma_temp_paths_distinct(dir: Seq<u8>, id1: Seq<u8>, id2: Seq<u8>)
    requires
        id1 != id2,
    ensures
        dir + seq![SLASH] + temp_name(id1) != dir + seq![SLASH] + temp_name(id2),
{
    lemma_temp_name_injective(id1, id2);
    lemma_append_injective(dir + seq![SLASH], temp_name(id1), temp_name(id2));
    assert(dir + seq![SLASH] + temp_name(id1) =~= (dir + seq![SLASH]) + temp_name(id1));
    assert(dir + seq![SLASH] + temp_name(id2) =~= (dir + seq![SLASH]) + temp_name(id2));
}

/// Law: uploads publishing distinct filenames in one directory publish at
/// distinct final paths, so they stay independently visible afterwards.
pub proof fn lemma_final_paths_distinct(dir: Seq<u8>, name1: Seq<u8>, name2: Seq<u8>)
    requires
        name1 != name2,
    ensures
        dir + seq![SLASH] + name1 != dir + seq![SLASH] + name2,
{
    lemma_append_injective(dir + seq![SLASH], name1, name2);
    assert(dir + seq![SLASH] + name1 =~= (dir + seq![SLASH]) + name1);
    assert(dir + seq![SLASH] + name2 =~= (dir + seq![SLASH]) + name2);
}

/// A temporary staging name is hidden: it never satisfies the listing
/// filter.
pub proof fn lemma_temp_name_hidden(id: Seq<u8>)
    ensures
        !crate::entries::visible_name(temp_name(id)),
{
    assert(temp_name(id)[0] == DOT);
}

} // verus!
