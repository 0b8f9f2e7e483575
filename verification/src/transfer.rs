//! Chunked transfer: how file bytes are cut into stream chunks for a
//! download (or a client-side upload), and the round-trip guarantee that
//! uploading any chunking of a file and downloading it again returns the
//! bytes unchanged.
//!
//! The buffer size is a tuning parameter: it only governs the granularity of
//! the stream, never its contents.

use vstd::prelude::*;

verus! {

/// The chunks a reader emits for `data` when reading through a buffer of
/// `sz` bytes: full buffers, then one final short chunk; no empty chunk is
/// ever emitted, and no chunks at all for an empty file.
pub open spec fn chunks_of(data: Seq<u8>, sz: nat) -> Seq<Seq<u8>>
    decreases data.len(),
{
    if sz == 0 || data.len() == 0 {
        Seq::empty()
    } else if data.len() <= sz {
        seq![data]
    } else {
        seq![data.take(sz as int)] + chunks_of(data.skip(sz as int), sz)
    }
}

/// Chunking loses nothing: the emitted chunks concatenate back to the data.
pub proof fn lemma_chunks_of_flatten(data: Seq<u8>, sz: nat)
    requires
        sz > 0,
    ensures
        chunks_of(data, sz).flatten() == data,
    decreases data.len(),
{
    if data.len() == 0 {
        assert(chunks_of(data, sz).flatten() =~= data);
    } else if data.len() <= sz {
        let cs = seq![data];
        assert(cs.drop_first() =~= Seq::<Seq<u8>>::empty());
        assert(cs.flatten() == data + cs.drop_first().flatten());
        assert(cs.flatten() =~= data);
    } else {
        lemma_chunks_of_flatten(data.skip(sz as int), sz);
        let cs = chunks_of(data, sz);
        assert(cs.first() == data.take(sz as int));
        assert(cs.drop_first() =~= chunks_of(data.skip(sz as int), sz));
        assert(cs.flatten() == data.take(sz as int) + cs.drop_first().flatten());
        assert(data.take(sz as int) + data.skip(sz as int) =~= data);
    }
}

/// Every emitted chunk is non-empty and at most the buffer size, and every
/// chunk but the last fills its buffer exactly.
pub proof fn lemma_chunks_shape(data: Seq<u8>, sz: nat)
    requires
        sz > 0,
    ensures
        forall|k: int|
            0 <= k < chunks_of(data, sz).len() ==> 0 < #[trigger] chunks_of(data, sz)[k].len()
                <= sz,
        forall|k: int|
            0 <= k < chunks_of(data, sz).len() - 1 ==> #[trigger] chunks_of(data, sz)[k].len()
                == sz,
    decreases data.len(),
{
    if sz == 0 || data.len() == 0 {
    } else if data.len() <= sz {
        assert(chunks_of(data, sz)[0] == data);
    } else {
        lemma_chunks_shape(data.skip(sz as int), sz);
        let cs = chunks_of(data, sz);
        let rest = chunks_of(data.skip(sz as int), sz);
        assert(cs == seq![data.take(sz as int)] + rest);
        assert forall|k: int| 0 <= k < cs.len() implies 0 < #[trigger] cs[k].len() <= sz by {
            if k == 0 {
                assert(cs[k] == data.take(sz as int));
            } else {
                assert(cs[k] == rest[k - 1]);
            }
        }
        assert forall|k: int| 0 <= k < cs.len() - 1 implies #[trigger] cs[k].len() == sz by {
            if k == 0 {
                assert(cs[k] == data.take(sz as int));
            } else {
                assert(cs[k] == rest[k - 1]);
            }
        }
    }
}

/// Law: the round trip is the identity.  A file whose bytes arrived as any
/// sequence of upload chunks (the committed content is their concatenation,
/// see [`crate::upload::UploadSession`]) and is then downloaded through a
/// buffer of any size comes back as chunks that concatenate to the same
/// bytes; the reported size is the byte count of that content.
pub proof fn lemma_upload_download_round_trip(chunks: Seq<Seq<u8>>, buf: nat)
    requires
        buf > 0,
    ensures
        chunks_of(chunks.flatten(), buf).flatten() == chunks.flatten(),
{
    lemma_chunks_of_flatten(chunks.flatten(), buf);
}

/// Cuts `data` into transfer chunks of at most `chunk_size` bytes, exactly
/// as [`chunks_of`] describes.
pub fn split_into_chunks(data: &[u8], chunk_size: usize) -> (r: Vec<Vec<u8>>)
    requires
        chunk_size > 0,
    ensures
        r.deep_view() == chunks_of(data@, chunk_size as nat),
{
    let n = data.len();
    let mut out: Vec<Vec<u8>> = Vec::new();
    let mut i: usize = 0;
    proof {
        assert(data@.skip(0) =~= data@);
        assert(out.deep_view() + chunks_of(data@, chunk_size as nat) =~~= chunks_of(
            data@,
            chunk_size as nat,
        ));
    }
    while i < n
        invariant
            i <= n,
            n == data@.len(),
            chunk_size > 0,
            out.deep_view() + chunks_of(data@.skip(i as int), chunk_size as nat) =~~= chunks_of(
                data@,
                chunk_size as nat,
            ),
        decreases n - i,
    {
        let ghost rest = data@.skip(i as int);
        let end: usize = if n - i <= chunk_size {
            n
        } else {
            i + chunk_size
        };
        let mut chunk: Vec<u8> = Vec::new();
        let mut j: usize = i;
        while j < end
            invariant
                i <= j <= end <= n,
                n == data@.len(),
                chunk@ == data@.subrange(i as int, j as int),
            decreases end - j,
        {
            chunk.push(data[j]);
            assert(data@.subrange(i as int, j + 1 as int) =~= data@.subrange(
                i as int,
                j as int,
            ).push(data@[j as int]));
            j = j + 1;
        }
        let ghost out_before = out.deep_view();
        out.push(chunk);
        proof {
            assert(out.deep_view() =~~= out_before.push(chunk@));
            if n - i <= chunk_size {
                assert(chunk@ =~= rest);
                assert(chunks_of(rest, chunk_size as nat) == seq![rest]);
                assert(data@.skip(n as int) =~= Seq::<u8>::empty());
                assert(chunks_of(data@.skip(n as int), chunk_size as nat) =~~= Seq::<
                    Seq<u8>,
                >::empty());
                assert(out_before.push(chunk@) + Seq::<Seq<u8>>::empty() =~~= out_before + seq![
                    rest,
                ]);
            } else {
                assert(chunk@ =~= rest.take(chunk_size as int));
                assert(rest.skip(chunk_size as int) =~= data@.skip(i + chunk_size));
                assert(chunks_of(rest, chunk_size as nat) == seq![rest.take(chunk_size as int)]
                    + chunks_of(rest.skip(chunk_size as int), chunk_size as nat));
                assert(out_before.push(chunk@) + chunks_of(
                    data@.skip(i + chunk_size),
                    chunk_size as nat,
                ) =~~= out_before + chunks_of(rest, chunk_size as nat));
            }
        }
        i = end;
    }
    proof {
        assert(data@.skip(n as int) =~= Seq::<u8>::empty());
        assert(chunks_of(data@.skip(n as int), chunk_size as nat) =~~= Seq::<Seq<u8>>::empty());
        assert(out.deep_view() + Seq::<Seq<u8>>::empty() =~~= out.deep_view());
    }
    out
}

} // verus!
