//! Everything decided before the scatter phase, from the barcode
//! frequencies and the run's settings.
use crate::planner::{
    bucket_budget, count_sum, plan_buckets, plan_of, sort_by_count_desc, sorted_by_count_desc,
    total_count, assignment_view, buckets_view, BucketPlan,
};
use crate::settings::{
    local_buffer_size, local_buffer_size_of, max_record_size, worker_count, worker_count_of,
    CollateError,
};
use vstd::prelude::*;

verus! {

/// The decisions that drive one collation run.
#[derive(Debug)]
pub struct CollationPlan {
    /// Corrected barcodes with their record counts, largest first.
    pub tsv_map: Vec<(u64, u64)>,
    /// The number of records to collate.
    pub total_to_collate: u64,
    /// The number of worker threads of each phase.
    pub n_workers: usize,
    pub plan: BucketPlan,
    /// Size of each per-bucket slice of a worker's scatter buffer.
    pub local_buffer_size: u64,
}

/// Whether the run's sizes fit the integers they are computed in.
pub open spec fn sizes_fit(freq: Seq<(u64, u64)>, num_threads: u32, most_ambig_record: u64) -> bool {
    &&& count_sum(freq) <= u64::MAX
    &&& 24 + 4 * most_ambig_record <= u64::MAX
    &&& (freq.len() + 1) * worker_count_of(num_threads) <= u64::MAX
}

/// Orders the frequency map's entries by count, largest first, plans the
/// temporary buckets for them, and sizes the workers' scatter buffers.
/// Fails where a count or size overflows its integer.
pub fn prepare_collation(
    freq: Vec<(u64, u64)>,
    num_threads: u32,
    max_records: u32,
    most_ambig_record: u64,
) -> (r: Result<CollationPlan, CollateError>)
    ensures
        sizes_fit(freq@, num_threads, most_ambig_record) <==> r is Ok,
        !sizes_fit(freq@, num_threads, most_ambig_record) ==> r == Err::<
            CollationPlan,
            CollateError,
        >(CollateError::SizeOverflow),
        r matches Ok(p) ==> {
            &&& p.tsv_map@.to_multiset() == freq@.to_multiset()
            &&& sorted_by_count_desc(p.tsv_map@)
            &&& p.total_to_collate == count_sum(freq@)
            &&& p.n_workers == worker_count_of(num_threads)
            &&& (assignment_view(p.plan.assignment@), buckets_view(p.plan.buckets@)) == plan_of(
                p.tsv_map@,
                bucket_budget(max_records, p.n_workers),
            )
            &&& p.local_buffer_size == local_buffer_size_of(
                most_ambig_record,
                max_records,
                p.plan.buckets@.len() as u64,
                p.n_workers as u64,
            )
            &&& p.local_buffer_size >= max_record_size(most_ambig_record)
        },
{
    let n_workers: usize = worker_count(num_threads);
    let total: u64 = match total_count(&freq) {
        Some(t) => t,
        None => {
            return Err(CollateError::SizeOverflow);
        },
    };
    if most_ambig_record > (u64::MAX - 24) / 4 {
        return Err(CollateError::SizeOverflow);
    }
    let n: usize = freq.len();
    if n as u64 >= u64::MAX / (n_workers as u64) {
        proof {
            assert((n + 1) * n_workers > u64::MAX) by (nonlinear_arith)
                requires
                    n >= (u64::MAX as int) / (n_workers as int),
                    n_workers >= 1,
            ;
        }
        return Err(CollateError::SizeOverflow);
    }
    proof {
        assert((n + 1) * n_workers <= u64::MAX) by (nonlinear_arith)
            requires
                n < (u64::MAX as int) / (n_workers as int),
                n_workers >= 1,
        ;
    }
    let mut tsv_map = freq;
    sort_by_count_desc(&mut tsv_map);
    proof {
        lemma_count_sum_multiset(freq@, tsv_map@);
        vstd::seq_lib::to_multiset_len(freq@);
        vstd::seq_lib::to_multiset_len(tsv_map@);
        assert(tsv_map@.len() == n);
    }
    let plan = plan_buckets(&tsv_map, n_workers, max_records);
    proof {
        crate::planner::lemma_plan_mass(tsv_map@, bucket_budget(max_records, n_workers));
        assert(plan.buckets@.len() == buckets_view(plan.buckets@).len());
        lemma_bucket_count(tsv_map@, bucket_budget(max_records, n_workers));
        assert(plan.buckets@.len() * n_workers <= (n + 1) * n_workers) by (nonlinear_arith)
            requires
                plan.buckets@.len() <= n + 1,
        ;
    }
    let num_buckets: u64 = plan.buckets.len() as u64;
    let size: u64 = local_buffer_size(most_ambig_record, max_records, num_buckets, n_workers as u64);
    Ok(CollationPlan { tsv_map, total_to_collate: total, n_workers, plan, local_buffer_size: size })
}

proof fn lemma_bucket_count(s: Seq<(u64, u64)>, budget: nat)
    requires
        budget > 0,
    ensures
        plan_of(s, budget).1.len() <= s.len() + 1,
    decreases s.len(),
{
    if s.len() > 0 {
        lemma_bucket_count(s.drop_last(), budget);
        crate::planner::lemma_plan_mass(s.drop_last(), budget);
        let (a, b) = plan_of(s.drop_last(), budget);
        let idx = b.len() - 1;
        let filled: (nat, nat) = ((b.last().0 + 1) as nat, (b.last().1 + s.last().1) as nat);
        assert(b.update(idx, filled).len() == b.len());
    } else {
        assert(plan_of(s, budget).1 =~= seq![(0nat, 0nat)]);
    }
}

/// Entries with the same multiset have the same count sum.
proof fn lemma_count_sum_multiset(a: Seq<(u64, u64)>, b: Seq<(u64, u64)>)
    requires
        a.to_multiset() == b.to_multiset(),
    ensures
        count_sum(a) == count_sum(b),
    decreases a.len(),
{
    broadcast use vstd::seq_lib::group_to_multiset_ensures;
    broadcast use vstd::multiset::group_multiset_properties;

    if a.len() == 0 {
        assert(b.to_multiset().len() == 0);
        assert(b.len() == 0);
    } else {
        let x = a.last();
        assert(a.to_multiset().count(x) > 0) by {
            assert(a.contains(x)) by { assert(a[a.len() - 1] == x); }
        }
        assert(b.contains(x));
        let j = b.index_of(x);
        let b2 = b.remove(j);
        assert(a.drop_last() =~= a.remove(a.len() - 1));
        vstd::seq_lib::to_multiset_remove(a, a.len() - 1);
        vstd::seq_lib::to_multiset_remove(b, j);
        lemma_count_sum_multiset(a.drop_last(), b2);
        lemma_count_sum_remove(b, j);
    }
}

proof fn lemma_count_sum_remove(s: Seq<(u64, u64)>, j: int)
    requires
        0 <= j < s.len(),
    ensures
        count_sum(s) == count_sum(s.remove(j)) + s[j].1,
    decreases s.len(),
{
    if j == s.len() - 1 {
        assert(s.remove(j) =~= s.drop_last());
    } else {
        lemma_count_sum_remove(s.drop_last(), j);
        assert(s.remove(j).drop_last() =~= s.drop_last().remove(j));
        assert(s.remove(j).last() == s.last());
    }
}

} // verus!
