//! Little-endian integers.

use vstd::prelude::*;

verus! {

/// The `width` lowest bytes of `n`, lowest first.
pub open spec fn le_bytes(n: nat, width: nat) -> Seq<u8>
    decreases width,
{
    if width == 0 {
        Seq::empty()
    } else {
        seq![(n % 256) as u8] + le_bytes(n / 256, (width - 1) as nat)
    }
}

/// The number with the given bytes, lowest first.
pub open spec fn le_value(s: Seq<u8>) -> nat
    decreases s.len(),
{
    if s.len() == 0 {
        0
    } else {
        s[0] as nat + 256 * le_value(s.drop_first())
    }
}

/// `256` to the power `k`.
pub open spec fn pow256(k: nat) -> nat
    decreases k,
{
    if k == 0 {
        1
    } else {
        256 * pow256((k - 1) as nat)
    }
}

/// The bytes of a number that fits denote the number.
pub proof fn le_round_trip(n: nat, width: nat)
    requires
        n < pow256(width),
    ensures
        le_bytes(n, width).len() == width,
        le_value(le_bytes(n, width)) == n,
    decreases width,
{
    if width > 0 {
        let w1 = (width - 1) as nat;
        assert(n / 256 < pow256(w1)) by (nonlinear_arith)
            requires
                n < 256 * pow256(w1),
        ;
        le_round_trip(n / 256, w1);
        assert(le_bytes(n, width).drop_first() =~= le_bytes(n / 256, w1));
    }
}

/// A sequence of `k` bytes denotes a number below `256` to the power `k`.
pub proof fn le_value_bound(s: Seq<u8>)
    ensures
        le_value(s) < pow256(s.len()),
    decreases s.len(),
{
    if s.len() > 0 {
        le_value_bound(s.drop_first());
    }
}

/// The powers of 256 that stand for the widths in use.
pub proof fn pow256_values()
    ensures
        pow256(4) == 0x1_0000_0000,
        pow256(8) == 0x1_0000_0000_0000_0000,
{
    reveal_with_fuel(pow256, 9);
}

/// Appends `n` in `width` bytes, lowest first.
pub fn push_le(out: &mut Vec<u8>, n: u64, width: usize)
    ensures
        final(out)@ == old(out)@ + le_bytes(n as nat, width as nat),
{
    let mut rest: u64 = n;
    let mut k: usize = 0;
    while k < width
        invariant
            k <= width,
            out@ + le_bytes(rest as nat, (width - k) as nat) == old(out)@ + le_bytes(n as nat, width as nat),
        decreases width - k,
    {
        let ghost before = out@;
        out.push((rest % 256) as u8);
        proof {
            let tail = le_bytes((rest / 256) as nat, (width - k - 1) as nat);
            assert(before + (seq![(rest % 256) as u8] + tail) =~= before.push((rest % 256) as u8) + tail);
        }
        rest = rest / 256;
        k = k + 1;
    }
    assert(out@ + Seq::<u8>::empty() =~= out@);
}

/// Reads `width` bytes at `from`, lowest first.
pub fn read_le(s: &[u8], from: usize, width: usize) -> (n: u64)
    requires
        width <= 8,
        from + width <= s.len(),
    ensures
        n == le_value(s@.subrange(from as int, from + width)),
{
    let mut n: u64 = 0;
    let mut k: usize = width;
    proof {
        assert(s@.subrange(from + width, from + width) =~= Seq::<u8>::empty());
    }
    while k > 0
        invariant
            k <= width <= 8,
            from + width <= s.len(),
            n == le_value(s@.subrange(from + k, from + width)),
        decreases k,
    {
        k = k - 1;
        proof {
            let part = s@.subrange(from + k, from + width);
            assert(part.drop_first() =~= s@.subrange(from + k + 1, from + width));
            le_value_bound(part);
            lemma_pow256_monotone(part.len(), 8);
            pow256_values();
        }
        n = s[from + k] as u64 + 256 * n;
    }
    n
}

proof fn lemma_pow256_monotone(a: nat, b: nat)
    requires
        a <= b,
    ensures
        pow256(a) <= pow256(b),
    decreases b,
{
    if a < b {
        lemma_pow256_monotone(a, (b - 1) as nat);
    }
}

/// The first byte counts least: each byte after it counts 256 times as much as the one
/// before.
pub proof fn later_bytes_count_more(s: Seq<u8>, b: u8)
    ensures
        le_value(seq![b]) == b,
        le_value(s.push(b)) == le_value(s) + b * pow256(s.len()),
    decreases s.len(),
{
    reveal_with_fuel(le_value, 2);
    let all = s.push(b);
    if s.len() == 0 {
        assert(all =~= seq![b]);
        assert(seq![b].drop_first() =~= Seq::<u8>::empty());
        assert(b * 1 == b) by (nonlinear_arith);
    } else {
        let t = s.drop_first();
        later_bytes_count_more(t, b);
        assert(all.drop_first() =~= t.push(b));
        let p = pow256(t.len());
        assert(256 * (b * p) == b * (256 * p)) by (nonlinear_arith);
    }
    assert(seq![b].drop_first() =~= Seq::<u8>::empty());
}

} // verus!
