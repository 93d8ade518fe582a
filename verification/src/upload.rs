//! The upload body protocol.
//!
//! An upload body has no declared length.  The connection is read in chunks
//! of at most 1024 bytes; a chunk is appended to the file, and the body ends
//! at the first empty read or at the first read shorter than 1024 bytes.
//! This short-read heuristic is the upload termination policy: a body whose
//! length is an exact multiple of 1024 must be followed by an empty read, and
//! any other short intermediate read ends the upload early.
use vstd::prelude::*;
use crate::response::{content_ok_spec, content_header_spec};

verus! {

/// What to do with one read of the upload body.
pub enum ChunkStep {
    /// An empty read: keep nothing more, the body is complete.
    Discard,
    /// A short read: append it, then stop.
    AppendLast,
    /// A full read: append it and read on.
    AppendMore,
}

/// The decision taken on a read of `n` bytes.
pub open spec fn chunk_step_spec(n: nat) -> ChunkStep {
    if n == 0 {
        ChunkStep::Discard
    } else if n < 1024 {
        ChunkStep::AppendLast
    } else {
        ChunkStep::AppendMore
    }
}

/// Decides how the upload loop treats a read of `n` bytes.
pub fn upload_step(n: usize) -> (r: ChunkStep)
    ensures
        r == chunk_step_spec(n as nat),
{
    if n == 0 {
        ChunkStep::Discard
    } else if n < 1024 {
        ChunkStep::AppendLast
    } else {
        ChunkStep::AppendMore
    }
}

/// The bytes the upload loop stores when the connection delivers the given
/// chunks in order: chunks are taken while full, and the first empty or
/// short chunk ends the body.
pub open spec fn stored_of(chunks: Seq<Seq<u8>>) -> Seq<u8>
    decreases chunks.len(),
{
    if chunks.len() == 0 {
        Seq::empty()
    } else if chunks[0].len() == 0 {
        Seq::empty()
    } else if chunks[0].len() < 1024 {
        chunks[0]
    } else {
        chunks[0] + stored_of(chunks.drop_first())
    }
}

/// A body split into full reads: consecutive 1024-byte chunks with the
/// remainder last.
pub open spec fn blocks_of(b: Seq<u8>) -> Seq<Seq<u8>>
    decreases b.len(),
{
    if b.len() == 0 {
        Seq::empty()
    } else if b.len() <= 1024 {
        seq![b]
    } else {
        seq![b.take(1024)] + blocks_of(b.skip(1024))
    }
}

/// A body delivered in full reads is stored whole: the upload loop, fed the
/// blocks of `b`, writes exactly `b`.
pub proof fn lemma_blocks_stored_whole(b: Seq<u8>)
    ensures
        stored_of(blocks_of(b)) == b,
    decreases b.len(),
{
    if b.len() == 0 {
        assert(stored_of(blocks_of(b)) =~= b);
    } else if b.len() < 1024 {
        assert(stored_of(blocks_of(b)) =~= b);
    } else if b.len() == 1024 {
        let cs = blocks_of(b);
        assert(cs[0] == b);
        assert(cs.drop_first() =~= Seq::<Seq<u8>>::empty());
        assert(stored_of(Seq::<Seq<u8>>::empty()) =~= Seq::<u8>::empty());
        assert(stored_of(cs) == cs[0] + stored_of(cs.drop_first()));
        assert(stored_of(cs) =~= b);
    } else {
        lemma_blocks_stored_whole(b.skip(1024));
        let cs = blocks_of(b);
        assert(cs[0] == b.take(1024));
        assert(cs.drop_first() =~= blocks_of(b.skip(1024)));
        assert(stored_of(cs) =~= b.take(1024) + b.skip(1024));
        assert(b.take(1024) + b.skip(1024) =~= b);
    }
}

/// Round trip: bytes uploaded in full reads are stored whole, and the
/// download response for the stored file carries exactly those bytes after
/// its headers.
pub proof fn lemma_upload_content_round_trip(name: Seq<u8>, b: Seq<u8>)
    ensures
        stored_of(blocks_of(b)) == b,
        content_ok_spec(name, b).skip(content_header_spec(name).len() as int) == b,
{
    lemma_blocks_stored_whole(b);
    assert(content_ok_spec(name, b).skip(content_header_spec(name).len() as int) =~= b);
}

} // verus!
