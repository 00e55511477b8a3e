//! The output file's header: the input header with its chunk count
//! replaced, optionally Snappy-framed.
use crate::bytes::{le_bytes, le_value, lemma_le_round_trip, lemma_pow256_8, write_le};
use std::io::Write;
use vstd::prelude::*;

verus! {

/// The Snappy frame format encoding of `data`.
pub uninterp spec fn snappy_frame_of(data: Seq<u8>) -> Seq<u8>;

/// Relies on `snap::write::FrameEncoder` (`new`, `write_all`, `into_inner`):
/// the encoding depends on the bytes alone. Writing into a `Vec` cannot fail.
#[verifier::external_body]
fn snappy_frame(data: &Vec<u8>) -> (r: Vec<u8>)
    ensures
        r@ == snappy_frame_of(data@),
{
    let mut enc = snap::write::FrameEncoder::new(Vec::with_capacity(data.len()));
    enc.write_all(data).expect("writing to memory");
    enc.into_inner().expect("flushing to memory")
}

/// `prefix` with the eight bytes at `count_pos` replaced by `num_chunks`,
/// least significant byte first.
pub open spec fn with_chunk_count(prefix: Seq<u8>, count_pos: int, num_chunks: u64) -> Seq<u8> {
    prefix.subrange(0, count_pos) + le_bytes(num_chunks as nat, 8) + prefix.subrange(
        count_pos + 8,
        prefix.len() as int,
    )
}

/// The header bytes as they go to the output.
pub open spec fn output_header_of(
    prefix: Seq<u8>,
    count_pos: int,
    num_chunks: u64,
    compress: bool,
) -> Seq<u8> {
    if compress {
        snappy_frame_of(with_chunk_count(prefix, count_pos, num_chunks))
    } else {
        with_chunk_count(prefix, count_pos, num_chunks)
    }
}

/// Builds the output header from `prefix`, the input's header, tag
/// sections and file-tag values: the chunk count field at `count_pos` is
/// set to `num_chunks` and the whole is Snappy-framed when `compress`.
pub fn output_header(prefix: Vec<u8>, count_pos: usize, num_chunks: u64, compress: bool) -> (r:
    Vec<u8>)
    requires
        count_pos + 8 <= prefix@.len(),
    ensures
        r@ == output_header_of(prefix@, count_pos as int, num_chunks, compress),
{
    let mut buf = prefix;
    write_le(&mut buf, count_pos, num_chunks, 8);
    if compress {
        snappy_frame(&buf)
    } else {
        buf
    }
}

/// The rewritten header keeps its length and holds the chunk count at
/// `count_pos`, readable back as the same number; all other bytes are kept.
pub proof fn lemma_header_holds_count(prefix: Seq<u8>, count_pos: int, num_chunks: u64)
    requires
        0 <= count_pos,
        count_pos + 8 <= prefix.len(),
    ensures
        ({
            let h = with_chunk_count(prefix, count_pos, num_chunks);
            &&& h.len() == prefix.len()
            &&& le_value(h.subrange(count_pos, count_pos + 8)) == num_chunks
            &&& forall|k: int|
                0 <= k < prefix.len() && !(count_pos <= k < count_pos + 8) ==> h[k] == prefix[k]
        }),
{
    let h = with_chunk_count(prefix, count_pos, num_chunks);
    assert(h.subrange(count_pos, count_pos + 8) =~= le_bytes(num_chunks as nat, 8));
    lemma_le_round_trip(num_chunks as nat, 8);
    lemma_pow256_8();
}

/// The compressed header is the Snappy frame of the uncompressed one.
pub proof fn lemma_header_compression(prefix: Seq<u8>, count_pos: int, num_chunks: u64)
    ensures
        output_header_of(prefix, count_pos, num_chunks, true) == snappy_frame_of(
            output_header_of(prefix, count_pos, num_chunks, false),
        ),
{
}

} // verus!
