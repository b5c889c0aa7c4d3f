//! Bit-level groundwork for the bitboards: a population-count model
//! and the handful of word-level facts the rest of the library rests on.

use vstd::prelude::*;

verus! {

/// The number of set bits in a 64-bit word.
pub open spec fn popcount(b: u64) -> nat
    decreases b,
{
    if b == 0 {
        0
    } else {
        ((b & 1) + popcount(b / 2)) as nat
    }
}

/// Bit `i` of `b` (bits at or above index 64 are never set).
pub open spec fn bit(b: u64, i: u64) -> bool {
    (b >> i) & 1 == 1
}

/// A word is zero exactly when it has no set bits.
pub proof fn lemma_popcount_zero(b: u64)
    ensures
        popcount(b) == 0 <==> b == 0,
    decreases b,
{
    if b != 0 {
        if b & 1 == 0 {
            assert(b / 2 != 0) by (bit_vector)
                requires
                    b != 0 && b & 1 == 0,
            ;
            lemma_popcount_zero(b / 2);
        }
    }
}

/// Splitting a word into its low bit and the rest.
proof fn lemma_split_or(a: u64, b: u64)
    by (bit_vector)
    ensures
        a & b == 0 ==> ((a | b) & 1) == (a & 1) + (b & 1),
        a & b == 0 ==> ((a | b) / 2) == (a / 2) | (b / 2),
        a & b == 0 ==> (a / 2) & (b / 2) == 0,
        (a | b == 0) ==> (a == 0 && b == 0),
{
}

/// Disjoint words contribute their set bits independently.
pub proof fn lemma_popcount_or_disjoint(a: u64, b: u64)
    requires
        a & b == 0,
    ensures
        popcount(a | b) == popcount(a) + popcount(b),
    decreases a + b,
{
    lemma_split_or(a, b);
    if a | b != 0 {
        assert(a / 2 <= a && b / 2 <= b && a + b > 0) by (bit_vector)
            requires
                a | b != 0,
        ;
        lemma_popcount_or_disjoint(a / 2, b / 2);
        assert(popcount(a | b) == ((a | b) & 1) + popcount((a | b) / 2));
        assert(popcount(a) == if a == 0 { 0 } else { ((a & 1) + popcount(a / 2)) as nat });
        assert(popcount(b) == if b == 0 { 0 } else { ((b & 1) + popcount(b / 2)) as nat });
        assert(a == 0 ==> a & 1 == 0 && a / 2 == 0) by (bit_vector);
        assert(b == 0 ==> b & 1 == 0 && b / 2 == 0) by (bit_vector);
    }
}

/// Removing a sub-word `g` of `r` removes exactly `popcount(g)` bits.
pub proof fn lemma_popcount_remove(r: u64, g: u64)
    requires
        g & r == g,
    ensures
        popcount(r) == popcount(g) + popcount(r & !g),
{
    assert(g & (r & !g) == 0 && (g | (r & !g)) == r) by (bit_vector)
        requires
            g & r == g,
    ;
    lemma_popcount_or_disjoint(g, r & !g);
}

/// A strict sub-word has strictly fewer set bits.
pub proof fn lemma_popcount_strict_sub(a: u64, b: u64)
    requires
        a & b == a,
        a != b,
    ensures
        popcount(a) < popcount(b),
{
    lemma_popcount_remove(b, a);
    assert(b & !a != 0) by (bit_vector)
        requires
            a & b == a && a != b,
    ;
    lemma_popcount_zero(b & !a);
}

/// A word fits in 64 bits, so it has at most 64 set bits.
pub proof fn lemma_popcount_le_64(b: u64)
    ensures
        popcount(b) <= 64,
{
    lemma_popcount_width(b, 64);
}

proof fn lemma_popcount_width(b: u64, w: u64)
    requires
        w <= 64,
        w < 64 ==> b >> w == 0,
    ensures
        popcount(b) <= w,
    decreases w,
{
    if w == 0 {
        assert(b == 0) by (bit_vector)
            requires
                b >> 0u64 == 0,
        ;
    } else {
        assert((b / 2) >> ((w - 1) as u64) == 0) by (bit_vector)
            requires
                w <= 64u64 && w >= 1u64 && (w < 64u64 ==> b >> w == 0),
        ;
        lemma_popcount_width(b / 2, (w - 1) as u64);
        if b != 0 {
            assert(b & 1 <= 1) by (bit_vector);
        }
    }
}

/// Counts the set bits of a word by peeling them from the low end.
pub fn count_ones(b: u64) -> (r: u32)
    ensures
        r == popcount(b),
{
    proof {
        lemma_popcount_le_64(b);
    }
    let mut rest: u64 = b;
    let mut count: u32 = 0;
    while rest != 0
        invariant
            count + popcount(rest) == popcount(b),
            popcount(b) <= 64,
            count <= 64,
        decreases rest,
    {
        proof {
            lemma_popcount_le_64(rest);
            lemma_popcount_zero(rest);
            assert(rest >> 1u64 == rest / 2 && (rest & 1) <= 1) by (bit_vector);
        }
        count = count + (b_low(rest) as u32);
        rest = rest >> 1;
    }
    proof {
        lemma_popcount_zero(rest);
    }
    count
}

/// The lowest bit of a word, as 0 or 1.
fn b_low(b: u64) -> (r: u64)
    ensures
        r == b & 1,
        r <= 1,
{
    proof {
        assert(b & 1 <= 1) by (bit_vector);
    }
    b & 1
}

/// Counts the set bits of a stack-composition byte.
pub fn count_ones_u8(b: u8) -> (r: u32)
    ensures
        r == popcount(b as u64),
        r <= 8,
{
    proof {
        assert((b as u64) >> 8u64 == 0) by (bit_vector);
        lemma_popcount_width(b as u64, 8);
    }
    count_ones(b as u64)
}

/// A single set bit counts once.
pub proof fn lemma_popcount_single(i: u64)
    requires
        i < 64,
    ensures
        popcount(1u64 << i) == 1,
    decreases i,
{
    assert((i == 0 ==> ((1u64 << i) == 1 && 1u64 & 1 == 1 && 1u64 / 2 == 0)) && (1 <= i < 64 ==> (
    (1u64 << i) & 1 == 0 && (1u64 << i) / 2 == 1u64 << ((i - 1) as u64) && (1u64 << i) != 0)))
        by (bit_vector)
        requires
            i < 64,
    ;
    if i == 0 {
        assert(1u64 << i == 1);
        assert(popcount(0u64) == 0);
        assert(popcount(1u64) == ((1u64 & 1) + popcount(1u64 / 2)) as nat);
    } else {
        lemma_popcount_single((i - 1) as u64);
        assert(popcount(1u64 << i) == (((1u64 << i) & 1) + popcount((1u64 << i) / 2)) as nat);
    }
}
} // verus!
