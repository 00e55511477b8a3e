//! Folding per-raw-barcode unmapped read counts through the barcode
//! correction map.
use crate::bytes::{lemma_pow256_4, le_value, read_le};
use std::collections::HashMap;
use vstd::prelude::*;

verus! {

broadcast use vstd::std_specs::hash::group_hash_axioms;

/// Bytes taken by one `(raw barcode: u64, count: u32)` record.
pub const UNMAPPED_RECORD_BYTES: usize = 12;

/// The raw barcode of the `i`-th record of `data`.
pub open spec fn record_key(data: Seq<u8>, i: int) -> u64 {
    le_value(data.subrange(12 * i, 12 * i + 8)) as u64
}

/// The count of the `i`-th record of `data`.
pub open spec fn record_count(data: Seq<u8>, i: int) -> u32 {
    le_value(data.subrange(12 * i + 8, 12 * i + 12)) as u32
}

/// The records of `data`, one per complete 12 bytes; a trailing partial
/// record is not read.
pub open spec fn unmapped_pairs(data: Seq<u8>) -> Seq<(u64, u32)> {
    Seq::new((data.len() / 12) as nat, |i: int| (record_key(data, i), record_count(data, i)))
}

/// `a + b` in 32-bit wrapping arithmetic.
pub open spec fn add_wrapping_u32(a: u32, b: u32) -> u32 {
    ((a as nat + b as nat) % 0x1_0000_0000) as u32
}

/// The corrected-barcode counts after reading `pairs` in order: the count of
/// every pair whose raw barcode the correction map holds is added to its
/// corrected barcode; other pairs are dropped.
pub open spec fn fold_unmapped(pairs: Seq<(u64, u32)>, cmap: Map<u64, u64>) -> Map<u64, u32>
    decreases pairs.len(),
{
    if pairs.len() == 0 {
        Map::empty()
    } else {
        let m = fold_unmapped(pairs.drop_last(), cmap);
        let (k, v) = pairs.last();
        if cmap.contains_key(k) {
            let c = cmap[k];
            let prev: u32 = if m.contains_key(c) {
                m[c]
            } else {
                0
            };
            m.insert(c, add_wrapping_u32(prev, v))
        } else {
            m
        }
    }
}

/// Whether the raw barcode `k` is corrected to `c`.
pub open spec fn corrects_to(cmap: Map<u64, u64>, k: u64, c: u64) -> bool {
    cmap.contains_key(k) && cmap[k] == c
}

/// The sum of the counts in `pairs` of all raw barcodes corrected to `c`.
pub open spec fn unmapped_total(pairs: Seq<(u64, u32)>, cmap: Map<u64, u64>, c: u64) -> nat
    decreases pairs.len(),
{
    if pairs.len() == 0 {
        0
    } else {
        unmapped_total(pairs.drop_last(), cmap, c) + if corrects_to(cmap, pairs.last().0, c) {
            pairs.last().1 as nat
        } else {
            0
        }
    }
}

/// For every corrected barcode `c`, the folded count at `c` is the sum of
/// the counts of all raw barcodes corrected to `c`: exactly where that sum
/// fits a `u32`, in 32-bit wrapping arithmetic otherwise; and `c` has an entry exactly when some pair's raw barcode is
/// corrected to it.
pub proof fn lemma_unmapped_fold(pairs: Seq<(u64, u32)>, cmap: Map<u64, u64>, c: u64)
    ensures
        fold_unmapped(pairs, cmap).contains_key(c) <==> exists|i: int|
            0 <= i < pairs.len() && corrects_to(cmap, #[trigger] pairs[i].0, c),
        fold_unmapped(pairs, cmap).contains_key(c) ==> fold_unmapped(pairs, cmap)[c] as nat
            == unmapped_total(pairs, cmap, c) % 0x1_0000_0000,
        !fold_unmapped(pairs, cmap).contains_key(c) ==> unmapped_total(pairs, cmap, c) == 0,
        fold_unmapped(pairs, cmap).contains_key(c) && unmapped_total(pairs, cmap, c)
            < 0x1_0000_0000 ==> fold_unmapped(pairs, cmap)[c] as nat == unmapped_total(
            pairs,
            cmap,
            c,
        ),
    decreases pairs.len(),
{
    if pairs.len() > 0 {
        let init = pairs.drop_last();
        lemma_unmapped_fold(init, cmap, c);
        let m = fold_unmapped(init, cmap);
        let (k, v) = pairs.last();
        if exists|i: int| 0 <= i < init.len() && corrects_to(cmap, #[trigger] init[i].0, c) {
            let i = choose|i: int| 0 <= i < init.len() && corrects_to(cmap, #[trigger] init[i].0, c);
            assert(pairs[i] == init[i]);
        }
        if exists|i: int| 0 <= i < pairs.len() && corrects_to(cmap, #[trigger] pairs[i].0, c) {
            let i = choose|i: int| 0 <= i < pairs.len() && corrects_to(cmap, #[trigger] pairs[i].0, c);
            if i < init.len() {
                assert(init[i] == pairs[i]);
            }
        }
        if corrects_to(cmap, k, c) {
            assert(corrects_to(cmap, pairs[pairs.len() - 1].0, c));
            let prev: u32 = if m.contains_key(c) {
                m[c]
            } else {
                0
            };
            assert(prev as nat == unmapped_total(init, cmap, c) % 0x1_0000_0000);
            assert((prev as nat + v as nat) % 0x1_0000_0000 == (unmapped_total(init, cmap, c)
                + v as nat) % 0x1_0000_0000) by (nonlinear_arith)
                requires
                    prev as nat == unmapped_total(init, cmap, c) % 0x1_0000_0000,
            ;
        }
    }
}

/// Reads the `(raw barcode, count)` records of `data` until fewer than a
/// record's bytes remain, and sums the counts per corrected barcode: a
/// record whose raw barcode the correction map lacks is dropped.
pub fn correct_unmapped_counts(correct_map: &HashMap<u64, u64>, data: &[u8]) -> (r: HashMap<
    u64,
    u32,
>)
    ensures
        r@ == fold_unmapped(unmapped_pairs(data@), correct_map@),
{
    let mut out: HashMap<u64, u32> = HashMap::new();
    let len: usize = data.len();
    let n: usize = len / UNMAPPED_RECORD_BYTES;
    let ghost pairs = unmapped_pairs(data@);
    let mut i: usize = 0;
    assert(pairs.take(0) =~= Seq::<(u64, u32)>::empty());
    while i < n
        invariant
            i <= n,
            n == data@.len() / 12,
            len == data@.len(),
            pairs == unmapped_pairs(data@),
            out@ == fold_unmapped(pairs.take(i as int), correct_map@),
        decreases n - i,
    {
        assert(12 * i + 12 <= len) by (nonlinear_arith)
            requires
                i < n,
                n == len / 12,
        ;
        let off: usize = i * UNMAPPED_RECORD_BYTES;
        let k: u64 = read_le(data, off, 8);
        let wide: u64 = read_le(data, off + 8, 4);
        proof {
            lemma_pow256_4();
        }
        let v: u32 = wide as u32;
        assert(pairs.take(i + 1).drop_last() =~= pairs.take(i as int));
        assert(pairs[i as int] == (k, v));
        match correct_map.get(&k) {
            Some(c) => {
                let c: u64 = *c;
                let prev: u32 = match out.get(&c) {
                    Some(x) => *x,
                    None => 0,
                };
                let sum: u32 = ((prev as u64 + v as u64) % 0x1_0000_0000) as u32;
                out.insert(c, sum);
            },
            None => {},
        }
        i = i + 1;
    }
    assert(pairs.take(n as int) =~= pairs);
    out
}

} // verus!
