//! Framing of input chunks handed to the scatter workers, and the checks
//! that close the scatter and gather phases.
use crate::bytes::{le_bytes, write_le};
use crate::planner::{buckets_view, count_sum, lemma_plan_mass, plan_of, records_sum, PlannedBucket};
use crate::settings::CollateError;
use vstd::prelude::*;

verus! {

/// Bytes of a chunk header: `n_bytes` then `n_records`, as `u32` each.
pub const CHUNK_HEADER_BYTES: usize = 8;

/// A chunk buffer of `n_bytes` bytes whose first eight hold the chunk
/// header, least significant byte first, and the rest zeros.
pub open spec fn chunk_frame_of(n_bytes: u32, n_records: u32) -> Seq<u8> {
    le_bytes(n_bytes as nat, 4) + le_bytes(n_records as nat, 4) + Seq::new(
        (n_bytes - 8) as nat,
        |i: int| 0u8,
    )
}

/// A chunk header is well formed when it frames at least its own eight
/// bytes and one record.
pub open spec fn chunk_header_ok(n_bytes: u32, n_records: u32) -> bool {
    n_bytes >= 8 && n_records > 0
}

/// Allocates the buffer for one input chunk, with its header written back
/// into the first eight bytes; the payload is read after them. A header
/// with no record or fewer than eight bytes is refused.
pub fn chunk_frame(n_bytes: u32, n_records: u32) -> (r: Result<Vec<u8>, CollateError>)
    ensures
        chunk_header_ok(n_bytes, n_records) ==> r == Ok::<Vec<u8>, CollateError>(
            r->Ok_0,
        ) && r->Ok_0@ == chunk_frame_of(n_bytes, n_records),
        !chunk_header_ok(n_bytes, n_records) ==> r == Err::<Vec<u8>, CollateError>(
            CollateError::MalformedChunk { n_bytes, n_records },
        ),
{
    if n_bytes < 8 || n_records == 0 {
        return Err(CollateError::MalformedChunk { n_bytes, n_records });
    }
    let mut buf: Vec<u8> = Vec::new();
    let mut i: u32 = 0;
    while i < n_bytes
        invariant
            i <= n_bytes,
            buf@ == Seq::new(i as nat, |k: int| 0u8),
        decreases n_bytes - i,
    {
        buf.push(0u8);
        i = i + 1;
        assert(buf@ =~= Seq::new(i as nat, |k: int| 0u8));
    }
    let ghost zeros = buf@;
    write_le(&mut buf, 0, n_bytes as u64, 4);
    let ghost mid = buf@;
    write_le(&mut buf, 4, n_records as u64, 4);
    assert(buf@ =~= chunk_frame_of(n_bytes, n_records));
    Ok(buf)
}

/// Bucket `i` received what was planned for it: its records, and a file
/// as long as the bytes counted for it.
pub open spec fn bucket_matches(
    planned: Seq<PlannedBucket>,
    records_written: Seq<u64>,
    bytes_written: Seq<u64>,
    file_lens: Seq<u64>,
    i: int,
) -> bool {
    records_written[i] == planned[i].num_records && bytes_written[i] == file_lens[i]
}

/// Checks every bucket after scatter; the first one that does not match
/// is reported.
pub fn check_scatter(
    planned: &Vec<PlannedBucket>,
    records_written: &Vec<u64>,
    bytes_written: &Vec<u64>,
    file_lens: &Vec<u64>,
) -> (r: Result<(), CollateError>)
    requires
        records_written@.len() == planned@.len(),
        bytes_written@.len() == planned@.len(),
        file_lens@.len() == planned@.len(),
    ensures
        r is Ok <==> forall|i: int|
            0 <= i < planned@.len() ==> bucket_matches(
                planned@,
                records_written@,
                bytes_written@,
                file_lens@,
                i,
            ),
        r matches Err(e) ==> e matches CollateError::BucketMismatch { bucket } && bucket
            < planned@.len() && !bucket_matches(
            planned@,
            records_written@,
            bytes_written@,
            file_lens@,
            bucket as int,
        ) && forall|i: int|
            0 <= i < bucket ==> bucket_matches(
                planned@,
                records_written@,
                bytes_written@,
                file_lens@,
                i,
            ),
{
    let n: usize = planned.len();
    let mut i: usize = 0;
    while i < n
        invariant
            i <= n == planned@.len(),
            records_written@.len() == n,
            bytes_written@.len() == n,
            file_lens@.len() == n,
            forall|k: int|
                0 <= k < i ==> bucket_matches(
                    planned@,
                    records_written@,
                    bytes_written@,
                    file_lens@,
                    k,
                ),
        decreases n - i,
    {
        if records_written[i] != planned[i].num_records || bytes_written[i] != file_lens[i] {
            assert(!bucket_matches(planned@, records_written@, bytes_written@, file_lens@, i as int));
            return Err(CollateError::BucketMismatch { bucket: i });
        }
        i = i + 1;
    }
    Ok(())
}

/// Gather must write one chunk per corrected barcode.
pub fn check_output_chunks(expected: u64, written: u64) -> (r: Result<(), CollateError>)
    ensures
        expected == written ==> r is Ok,
        expected != written ==> r == Err::<(), CollateError>(
            CollateError::ChunkCountMismatch { expected, written },
        ),
{
    if expected == written {
        Ok(())
    } else {
        Err(CollateError::ChunkCountMismatch { expected, written })
    }
}

/// The buckets whose slice of a worker's scatter buffer still holds bytes
/// (a positive write position) and must be flushed when the worker ends,
/// in bucket order.
pub fn buckets_to_flush(positions: &Vec<u64>) -> (r: Vec<usize>)
    ensures
        r@.len() <= positions@.len(),
        forall|k: int| 0 <= k < r@.len() ==> #[trigger] r@[k] < positions@.len() && positions@[r@[k] as int] > 0,
        forall|b: int| 0 <= b < positions@.len() && positions@[b] > 0 ==> r@.contains(b as usize),
        forall|k: int, l: int| 0 <= k < l < r@.len() ==> r@[k] < r@[l],
{
    let n: usize = positions.len();
    let mut out: Vec<usize> = Vec::new();
    let mut i: usize = 0;
    while i < n
        invariant
            i <= n == positions@.len(),
            out@.len() <= i,
            forall|k: int| 0 <= k < out@.len() ==> #[trigger] out@[k] < i && positions@[out@[k] as int] > 0,
            forall|b: int| 0 <= b < i && positions@[b] > 0 ==> out@.contains(b as usize),
            forall|k: int, l: int| 0 <= k < l < out@.len() ==> out@[k] < out@[l],
        decreases n - i,
    {
        if positions[i] > 0 {
            let ghost before = out@;
            out.push(i);
            proof {
                assert forall|b: int| 0 <= b < i && positions@[b] > 0 implies out@.contains(b as usize) by {
                    let k = choose|k: int| 0 <= k < before.len() && before[k] == b as usize;
                    assert(out@[k] == b as usize);
                }
                assert(out@[out@.len() - 1] == i);
            }
        }
        i = i + 1;
    }
    out
}

/// The sum of `s`.
pub open spec fn u64_sum(s: Seq<u64>) -> nat
    decreases s.len(),
{
    if s.len() == 0 {
        0
    } else {
        u64_sum(s.drop_last()) + s.last() as nat
    }
}

proof fn lemma_written_is_planned(planned: Seq<PlannedBucket>, written: Seq<u64>)
    requires
        written.len() == planned.len(),
        forall|i: int| 0 <= i < planned.len() ==> written[i] == planned[i].num_records,
    ensures
        u64_sum(written) == records_sum(buckets_view(planned)),
    decreases planned.len(),
{
    if planned.len() > 0 {
        assert(buckets_view(planned.drop_last()) =~= buckets_view(planned).drop_last());
        lemma_written_is_planned(planned.drop_last(), written.drop_last());
    }
}

/// When every bucket received the records planned for it, the records
/// written over all buckets add up to the records listed in the frequency
/// map, as the planned ones do.
pub proof fn lemma_written_mass(
    tsv_map: Seq<(u64, u64)>,
    budget: nat,
    planned: Seq<PlannedBucket>,
    records_written: Seq<u64>,
)
    requires
        budget > 0,
        buckets_view(planned) == plan_of(tsv_map, budget).1,
        records_written.len() == planned.len(),
        forall|i: int| 0 <= i < planned.len() ==> records_written[i] == planned[i].num_records,
    ensures
        u64_sum(records_written) == records_sum(buckets_view(planned)),
        records_sum(buckets_view(planned)) == count_sum(tsv_map),
{
    lemma_written_is_planned(planned, records_written);
    lemma_plan_mass(tsv_map, budget);
}

} // verus!
