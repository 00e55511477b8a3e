//! Greedy assignment of corrected barcodes to temporary buckets.
use vstd::prelude::*;

verus! {

/// What the planner decided for one temporary bucket.
#[derive(Clone, Copy, Debug, PartialEq, Eq)]
pub struct PlannedBucket {
    /// Number of corrected barcodes (output chunks) assigned to the bucket.
    pub num_chunks: u64,
    /// Number of records those barcodes hold together.
    pub num_records: u64,
}

/// The buckets and, for each entry of the barcode list, its bucket.
#[derive(Debug)]
pub struct BucketPlan {
    /// `assignment[i]` is the bucket of the `i`-th listed barcode.
    pub assignment: Vec<usize>,
    pub buckets: Vec<PlannedBucket>,
}

/// The sum of the counts of `s`.
pub open spec fn count_sum(s: Seq<(u64, u64)>) -> nat
    decreases s.len(),
{
    if s.len() == 0 {
        0
    } else {
        count_sum(s.drop_last()) + s.last().1 as nat
    }
}

/// The sum of the record counts of buckets `b`.
pub open spec fn records_sum(b: Seq<(nat, nat)>) -> nat
    decreases b.len(),
{
    if b.len() == 0 {
        0
    } else {
        records_sum(b.drop_last()) + b.last().1
    }
}

/// The sum of the chunk counts of buckets `b`.
pub open spec fn chunks_sum(b: Seq<(nat, nat)>) -> nat
    decreases b.len(),
{
    if b.len() == 0 {
        0
    } else {
        chunks_sum(b.drop_last()) + b.last().0
    }
}

/// The record budget of one bucket: `max_records / n_workers + 1`.
pub open spec fn bucket_budget(max_records: u32, n_workers: usize) -> nat {
    (max_records as nat / n_workers as nat) + 1
}

/// The plan for the `(barcode, count)` list `s`: its bucket assignment and
/// its buckets as `(chunks, records)`. Barcodes are added in list order to
/// the last (open) bucket; once its records reach `budget`, a new empty
/// bucket is opened. The first bucket always exists.
pub open spec fn plan_of(s: Seq<(u64, u64)>, budget: nat) -> (Seq<nat>, Seq<(nat, nat)>)
    decreases s.len(),
{
    if s.len() == 0 {
        (Seq::empty(), seq![(0nat, 0nat)])
    } else {
        let (a, b) = plan_of(s.drop_last(), budget);
        let idx = b.len() - 1;
        let filled: (nat, nat) = ((b.last().0 + 1) as nat, (b.last().1 + s.last().1) as nat);
        if filled.1 >= budget {
            (a.push(idx as nat), b.update(idx, filled).push((0nat, 0nat)))
        } else {
            (a.push(idx as nat), b.update(idx, filled))
        }
    }
}

pub open spec fn buckets_view(b: Seq<PlannedBucket>) -> Seq<(nat, nat)> {
    b.map_values(|x: PlannedBucket| (x.num_chunks as nat, x.num_records as nat))
}

pub open spec fn assignment_view(a: Seq<usize>) -> Seq<nat> {
    a.map_values(|x: usize| x as nat)
}

proof fn lemma_sums_update_last(b: Seq<(nat, nat)>, x: (nat, nat))
    requires
        b.len() > 0,
    ensures
        records_sum(b.update(b.len() - 1, x)) == records_sum(b.drop_last()) + x.1,
        chunks_sum(b.update(b.len() - 1, x)) == chunks_sum(b.drop_last()) + x.0,
        records_sum(b.update(b.len() - 1, x).push((0nat, 0nat))) == records_sum(b.drop_last())
            + x.1,
        chunks_sum(b.update(b.len() - 1, x).push((0nat, 0nat))) == chunks_sum(b.drop_last())
            + x.0,
{
    let u = b.update(b.len() - 1, x);
    assert(u.drop_last() =~= b.drop_last());
    assert(u.push((0nat, 0nat)).drop_last() =~= u);
    assert(records_sum(u) == records_sum(u.drop_last()) + u.last().1);
    assert(chunks_sum(u) == chunks_sum(u.drop_last()) + u.last().0);
    let p = u.push((0nat, 0nat));
    assert(records_sum(p) == records_sum(p.drop_last()) + p.last().1);
    assert(chunks_sum(p) == chunks_sum(p.drop_last()) + p.last().0);
}

/// The plan keeps every record and every barcode: the buckets' record counts
/// add up to the sum of the listed counts, their chunk counts to the number
/// of listed barcodes, and each barcode goes to exactly one existing bucket.
/// Every bucket but the last reached the budget, the last did not, and the
/// buckets are filled in order.
pub proof fn lemma_plan_mass(s: Seq<(u64, u64)>, budget: nat)
    requires
        budget > 0,
    ensures
        ({
            let (a, b) = plan_of(s, budget);
            &&& b.len() > 0
            &&& a.len() == s.len()
            &&& records_sum(b) == count_sum(s)
            &&& chunks_sum(b) == s.len()
            &&& forall|i: int| 0 <= i < a.len() ==> #[trigger] a[i] < b.len()
            &&& forall|i: int, j: int| 0 <= i <= j < a.len() ==> a[i] <= a[j]
            &&& forall|j: int| 0 <= j < b.len() - 1 ==> #[trigger] b[j].1 >= budget
            &&& b.last().1 < budget
            &&& b.last().1 <= count_sum(s)
            &&& b.last().0 <= s.len()
        }),
    decreases s.len(),
{
    if s.len() > 0 {
        let init = s.drop_last();
        lemma_plan_mass(init, budget);
        let (a, b) = plan_of(init, budget);
        let idx = b.len() - 1;
        let filled: (nat, nat) = ((b.last().0 + 1) as nat, (b.last().1 + s.last().1) as nat);
        lemma_sums_update_last(b, filled);
        assert(records_sum(b) == records_sum(b.drop_last()) + b.last().1);
        assert(chunks_sum(b) == chunks_sum(b.drop_last()) + b.last().0);
        let (a2, b2) = plan_of(s, budget);
        assert(forall|i: int| 0 <= i < a.len() ==> a2[i] == a[i]);
        if a.len() > 0 {
            assert(a[a.len() - 1] < b.len());
        }
        assert(count_sum(s) == count_sum(init) + s.last().1);
    } else {
        let b = plan_of(s, budget).1;
        assert(b.drop_last() =~= Seq::<(nat, nat)>::empty());
        assert(records_sum(b) == records_sum(b.drop_last()) + b.last().1);
        assert(chunks_sum(b) == chunks_sum(b.drop_last()) + b.last().0);
    }
}

/// How many entries of `a` name bucket `j`.
pub open spec fn assigned_count(a: Seq<nat>, j: nat) -> nat
    decreases a.len(),
{
    if a.len() == 0 {
        0
    } else {
        assigned_count(a.drop_last(), j) + if a.last() == j {
            1nat
        } else {
            0
        }
    }
}

/// Each bucket's chunk count is the number of barcodes assigned to it: every
/// listed barcode stands in exactly one bucket.
pub proof fn lemma_plan_chunks(s: Seq<(u64, u64)>, budget: nat, j: nat)
    requires
        budget > 0,
        j < plan_of(s, budget).1.len(),
    ensures
        plan_of(s, budget).1[j as int].0 == assigned_count(plan_of(s, budget).0, j),
    decreases s.len(),
{
    lemma_plan_mass(s, budget);
    if s.len() > 0 {
        let init = s.drop_last();
        lemma_plan_mass(init, budget);
        let (a, b) = plan_of(init, budget);
        let (a2, b2) = plan_of(s, budget);
        let idx = b.len() - 1;
        assert(a2.drop_last() == a);
        if j < b.len() {
            lemma_plan_chunks(init, budget, j);
        } else {
            lemma_assigned_none(a, j);
        }
    } else {
        assert(plan_of(s, budget).1 =~= seq![(0nat, 0nat)]);
    }
}

proof fn lemma_assigned_none(a: Seq<nat>, j: nat)
    requires
        forall|i: int| 0 <= i < a.len() ==> #[trigger] a[i] < j,
    ensures
        assigned_count(a, j) == 0,
    decreases a.len(),
{
    if a.len() > 0 {
        assert(a.last() == a[a.len() - 1]);
        lemma_assigned_none(a.drop_last(), j);
    }
}

/// Plans the temporary buckets for `tsv_map`, the corrected barcodes with
/// their record counts (largest first, for buckets of even size).
pub fn plan_buckets(tsv_map: &Vec<(u64, u64)>, n_workers: usize, max_records: u32) -> (r:
    BucketPlan)
    requires
        n_workers > 0,
        count_sum(tsv_map@) <= u64::MAX,
    ensures
        (assignment_view(r.assignment@), buckets_view(r.buckets@)) == plan_of(
            tsv_map@,
            bucket_budget(max_records, n_workers),
        ),
{
    let budget: u64 = (max_records as u64) / (n_workers as u64) + 1;
    let ghost gb = bucket_budget(max_records, n_workers);
    assert(budget as nat == gb);
    let mut assignment: Vec<usize> = Vec::new();
    let mut buckets: Vec<PlannedBucket> = vec![PlannedBucket { num_chunks: 0, num_records: 0 }];
    let mut open_chunks: u64 = 0;
    let mut open_records: u64 = 0;
    let n: usize = tsv_map.len();
    let mut i: usize = 0;
    assert(tsv_map@.take(0) =~= Seq::<(u64, u64)>::empty());
    assert(assignment_view(assignment@) =~= Seq::<nat>::empty());
    assert(buckets_view(buckets@) =~= seq![(0nat, 0nat)]);
    while i < n
        invariant
            i <= n == tsv_map@.len(),
            count_sum(tsv_map@) <= u64::MAX,
            budget as nat == gb,
            gb > 0,
            buckets@.len() > 0,
            buckets@.len() <= i + 1,
            (assignment_view(assignment@), buckets_view(buckets@)) == plan_of(
                tsv_map@.take(i as int),
                gb,
            ),
            buckets@.last() == (PlannedBucket { num_chunks: open_chunks, num_records: open_records }),
        decreases n - i,
    {
        let ghost pre = tsv_map@.take(i as int);
        let ghost post = tsv_map@.take(i + 1);
        proof {
            assert(post.drop_last() =~= pre);
            lemma_plan_mass(pre, gb);
            lemma_prefix_sum_bound(tsv_map@, i + 1);
        }
        let idx: usize = buckets.len() - 1;
        let count: u64 = tsv_map[i].1;
        assignment.push(idx);
        open_chunks = open_chunks + 1;
        open_records = open_records + count;
        buckets.set(idx, PlannedBucket { num_chunks: open_chunks, num_records: open_records });
        if open_records >= budget {
            buckets.push(PlannedBucket { num_chunks: 0, num_records: 0 });
            open_chunks = 0;
            open_records = 0;
        }
        proof {
            let (a, b) = plan_of(post, gb);
            assert(assignment_view(assignment@) =~= a);
            assert(buckets_view(buckets@) =~= b);
        }
        i = i + 1;
    }
    assert(tsv_map@.take(n as int) =~= tsv_map@);
    BucketPlan { assignment, buckets }
}

proof fn lemma_prefix_sum_bound(s: Seq<(u64, u64)>, k: int)
    requires
        0 <= k <= s.len(),
    ensures
        count_sum(s.take(k)) <= count_sum(s),
    decreases s.len(),
{
    if k < s.len() {
        assert(s.drop_last().take(k) =~= s.take(k));
        lemma_prefix_sum_bound(s.drop_last(), k);
    } else {
        assert(s.take(k) =~= s);
    }
}

/// The sum of all counts of `tsv_map` (the number of records to collate),
/// or `None` where it does not fit in a `u64`.
pub fn total_count(tsv_map: &Vec<(u64, u64)>) -> (r: Option<u64>)
    ensures
        r == (if count_sum(tsv_map@) <= u64::MAX {
            Some(count_sum(tsv_map@) as u64)
        } else {
            None::<u64>
        }),
{
    let n: usize = tsv_map.len();
    let mut acc: u64 = 0;
    let mut i: usize = 0;
    assert(tsv_map@.take(0) =~= Seq::<(u64, u64)>::empty());
    while i < n
        invariant
            i <= n == tsv_map@.len(),
            acc as nat == count_sum(tsv_map@.take(i as int)),
        decreases n - i,
    {
        let c: u64 = tsv_map[i].1;
        proof {
            assert(tsv_map@.take(i + 1).drop_last() =~= tsv_map@.take(i as int));
            lemma_prefix_sum_bound(tsv_map@, i + 1);
        }
        if acc > u64::MAX - c {
            return None;
        }
        acc = acc + c;
        i = i + 1;
    }
    assert(tsv_map@.take(n as int) =~= tsv_map@);
    Some(acc)
}

/// Counts never increase along `s`.
pub open spec fn sorted_by_count_desc(s: Seq<(u64, u64)>) -> bool {
    forall|i: int, j: int| 0 <= i < j < s.len() ==> s[i].1 >= s[j].1
}

/// Merges two lists ordered by count, largest first, into one.
fn merge_by_count_desc(a: Vec<(u64, u64)>, b: Vec<(u64, u64)>) -> (r: Vec<(u64, u64)>)
    requires
        sorted_by_count_desc(a@),
        sorted_by_count_desc(b@),
    ensures
        sorted_by_count_desc(r@),
        r@.to_multiset() == a@.to_multiset().add(b@.to_multiset()),
{
    broadcast use vstd::seq_lib::group_to_multiset_ensures;
    broadcast use vstd::multiset::group_multiset_axioms;

    let na: usize = a.len();
    let nb: usize = b.len();
    let mut r: Vec<(u64, u64)> = Vec::new();
    let mut i: usize = 0;
    let mut j: usize = 0;
    assert(a@.take(0) =~= Seq::<(u64, u64)>::empty());
    assert(b@.take(0) =~= Seq::<(u64, u64)>::empty());
    assert(r@.to_multiset() =~= a@.take(0).to_multiset().add(b@.take(0).to_multiset()));
    while i < na || j < nb
        invariant
            na == a@.len(),
            nb == b@.len(),
            i <= na,
            j <= nb,
            sorted_by_count_desc(a@),
            sorted_by_count_desc(b@),
            sorted_by_count_desc(r@),
            r@.to_multiset() == a@.take(i as int).to_multiset().add(b@.take(j as int).to_multiset()),
            r@.len() > 0 && i < na ==> r@.last().1 >= a@[i as int].1,
            r@.len() > 0 && j < nb ==> r@.last().1 >= b@[j as int].1,
        decreases na + nb - i - j,
    {
        if j >= nb || (i < na && a[i].1 >= b[j].1) {
            let x = a[i];
            let ghost before = r@;
            r.push(x);
            proof {
                assert(a@.take(i + 1) =~= a@.take(i as int).push(x));
                assert(r@ == before.push(x));
                vstd::seq_lib::to_multiset_build(before, x);
                vstd::seq_lib::to_multiset_build(a@.take(i as int), x);
                assert(r@.to_multiset() =~= a@.take(i + 1).to_multiset().add(
                    b@.take(j as int).to_multiset(),
                ));
            }
            i = i + 1;
        } else {
            let y = b[j];
            let ghost before = r@;
            r.push(y);
            proof {
                assert(b@.take(j + 1) =~= b@.take(j as int).push(y));
                assert(r@ == before.push(y));
                vstd::seq_lib::to_multiset_build(before, y);
                vstd::seq_lib::to_multiset_build(b@.take(j as int), y);
                assert(r@.to_multiset() =~= a@.take(i as int).to_multiset().add(
                    b@.take(j + 1).to_multiset(),
                ));
            }
            j = j + 1;
        }
    }
    assert(a@.take(na as int) =~= a@);
    assert(b@.take(nb as int) =~= b@);
    r
}

/// `v` ordered by count, largest first, with the same entries.
fn merge_sort_by_count_desc(v: Vec<(u64, u64)>) -> (r: Vec<(u64, u64)>)
    ensures
        r@.to_multiset() == v@.to_multiset(),
        sorted_by_count_desc(r@),
    decreases v@.len(),
{
    if v.len() <= 1 {
        return v;
    }
    let ghost whole = v@;
    let mut left = v;
    let mid: usize = left.len() / 2;
    let right = left.split_off(mid);
    proof {
        assert(whole =~= left@ + right@);
        vstd::seq_lib::lemma_multiset_commutative(left@, right@);
    }
    let sl = merge_sort_by_count_desc(left);
    let sr = merge_sort_by_count_desc(right);
    merge_by_count_desc(sl, sr)
}

/// Orders `v` by count, largest first, keeping its entries.
pub fn sort_by_count_desc(v: &mut Vec<(u64, u64)>)
    ensures
        final(v)@.to_multiset() == old(v)@.to_multiset(),
        sorted_by_count_desc(final(v)@),
{
    let mut taken: Vec<(u64, u64)> = Vec::new();
    std::mem::swap(v, &mut taken);
    *v = merge_sort_by_count_desc(taken);
}

} // verus!
