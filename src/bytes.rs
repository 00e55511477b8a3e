//! Little-endian integers in byte sequences.
use vstd::arithmetic::div_mod::{lemma_div_denominator, lemma_mod_breakdown};
use vstd::prelude::*;

verus! {

/// `256` raised to the `n`-th power.
pub open spec fn pow256(n: nat) -> nat
    decreases n,
{
    if n == 0 {
        1
    } else {
        256 * pow256((n - 1) as nat)
    }
}

/// The unsigned value of `s`, least significant byte first.
pub open spec fn le_value(s: Seq<u8>) -> nat
    decreases s.len(),
{
    if s.len() == 0 {
        0
    } else {
        s[0] as nat + 256 * le_value(s.drop_first())
    }
}

pub proof fn lemma_pow256_monotonic(a: nat, b: nat)
    requires
        a <= b,
    ensures
        1 <= pow256(a) <= pow256(b),
    decreases b,
{
    if b > a {
        lemma_pow256_monotonic(a, (b - 1) as nat);
    } else if a > 0 {
        lemma_pow256_monotonic((a - 1) as nat, (a - 1) as nat);
    }
}

pub proof fn lemma_pow256_8()
    ensures
        pow256(8) == 0x1_0000_0000_0000_0000,
{
    reveal_with_fuel(pow256, 9);
}

pub proof fn lemma_pow256_4()
    ensures
        pow256(4) == 0x1_0000_0000,
{
    reveal_with_fuel(pow256, 5);
}

proof fn lemma_le_value_step(s: Seq<u8>, lo: int, hi: int)
    requires
        0 <= lo < hi <= s.len(),
    ensures
        le_value(s.subrange(lo, hi)) == s[lo] as nat + 256 * le_value(s.subrange(lo + 1, hi)),
{
    assert(s.subrange(lo, hi).drop_first() =~= s.subrange(lo + 1, hi));
}

/// Reads the `n`-byte little-endian unsigned integer at `start`.
pub fn read_le(b: &[u8], start: usize, n: usize) -> (r: u64)
    requires
        n <= 8,
        start + n <= b@.len(),
    ensures
        r as nat == le_value(b@.subrange(start as int, start + n)),
        (r as nat) < pow256(n as nat),
{
    let len = b.len();
    let mut acc: u64 = 0;
    let mut i: usize = n;
    proof {
        assert(b@.subrange(start + n, start + n) =~= Seq::<u8>::empty());
    }
    while i > 0
        invariant
            i <= n <= 8,
            start + n <= b@.len(),
            b@.len() == len,
            acc as nat == le_value(b@.subrange(start + i, start + n)),
            acc < pow256((n - i) as nat),
        decreases i,
    {
        i = i - 1;
        let byte = b[start + i];
        proof {
            let m = (n - i - 1) as nat;
            lemma_pow256_monotonic(m + 1, 8);
            lemma_pow256_8();
            assert(pow256(m + 1) == 256 * pow256(m));
            assert(acc as nat * 256 + byte as nat <= 256 * pow256(m) - 1) by (nonlinear_arith)
                requires
                    acc < pow256(m),
                    byte < 256,
            ;
            lemma_le_value_step(b@, start + i, start + n);
        }
        acc = acc * 256 + byte as u64;
    }
    acc
}

/// Byte `j` of `v`, counting from the least significant one.
pub open spec fn le_byte(v: nat, j: nat) -> u8 {
    ((v / pow256(j)) % 256) as u8
}

/// The `n` low bytes of `v`, least significant first.
pub open spec fn le_bytes(v: nat, n: nat) -> Seq<u8> {
    Seq::new(n, |j: int| le_byte(v, j as nat))
}

/// Reading back the `n` low bytes of `v` gives `v` modulo `256^n`.
pub proof fn lemma_le_round_trip(v: nat, n: nat)
    ensures
        le_value(le_bytes(v, n)) == v % pow256(n),
    decreases n,
{
    if n > 0 {
        let m = (n - 1) as nat;
        lemma_le_round_trip(v / 256, m);
        assert forall|j: int| 0 <= j < m implies #[trigger] le_byte(v, (j + 1) as nat) == le_byte(
            v / 256,
            j as nat,
        ) by {
            lemma_pow256_monotonic(0, j as nat);
            lemma_div_denominator(v as int, 256, pow256(j as nat) as int);
        }
        assert(le_bytes(v, n).drop_first() =~= le_bytes(v / 256, m));
        lemma_pow256_monotonic(0, m);
        lemma_mod_breakdown(v as int, 256, pow256(m) as int);
        assert(le_byte(v, 0) == v % 256);
    } else {
        assert(le_bytes(v, 0) =~= Seq::<u8>::empty());
    }
}

/// Overwrites the `n` bytes at `pos` with the `n` low bytes of `v`, least
/// significant first.
pub fn write_le(buf: &mut Vec<u8>, pos: usize, v: u64, n: usize)
    requires
        n <= 8,
        pos + n <= old(buf)@.len(),
    ensures
        final(buf)@ == old(buf)@.subrange(0, pos as int) + le_bytes(v as nat, n as nat) + old(
            buf,
        )@.subrange(pos + n, old(buf)@.len() as int),
{
    let len = buf.len();
    let mut x: u64 = v;
    let mut i: usize = 0;
    assert(pow256(0) == 1);
    while i < n
        invariant
            i <= n <= 8,
            pos + n <= buf@.len(),
            buf@.len() == old(buf)@.len(),
            len == buf@.len(),
            x as nat == v as nat / pow256(i as nat),
            forall|j: int| 0 <= j < i ==> #[trigger] buf@[pos + j] == le_byte(v as nat, j as nat),
            forall|k: int|
                0 <= k < buf@.len() && !(pos <= k < pos + n) ==> buf@[k] == old(buf)@[k],
        decreases n - i,
    {
        buf.set(pos + i, (x % 256) as u8);
        proof {
            lemma_pow256_monotonic(0, i as nat);
            lemma_div_denominator(v as int, pow256(i as nat) as int, 256);
            assert(pow256((i + 1) as nat) == 256 * pow256(i as nat));
        }
        x = x / 256;
        i = i + 1;
    }
    let ghost expect = old(buf)@.subrange(0, pos as int) + le_bytes(v as nat, n as nat) + old(
        buf,
    )@.subrange(pos + n, old(buf)@.len() as int);
    assert forall|k: int| 0 <= k < buf@.len() implies buf@[k] == expect[k] by {
        if pos <= k < pos + n {
            assert(buf@[pos + (k - pos)] == le_byte(v as nat, (k - pos) as nat));
        }
    }
    assert(buf@ =~= expect);
}

} // verus!
