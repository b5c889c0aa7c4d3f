//! Fixed-width bitboards over an N x N Tak board, N in 3..=8.
//!
//! Bit `i` of the underlying 64-bit word is the square in column
//! `i % N` and row `i / N`, where columns grow toward the West edge
//! and rows toward the North edge: shifting right by 1 moves a piece
//! toward the East edge and shifting right by N toward the South edge.
//! Bits at or above `N * N` are kept zero by every operation.

use vstd::prelude::*;

use crate::bits::{count_ones, lemma_popcount_le_64, lemma_popcount_remove,
    lemma_popcount_strict_sub, lemma_popcount_zero, popcount};
use crate::Direction;

verus! {

/// True for the board sizes this library supports.
pub open spec fn n_ok(n: u64) -> bool {
    3 <= n <= 8
}

/// The mask of the N * N live bits of a board word.
pub open spec fn board_mask(n: u64) -> u64 {
    if n == 3 {
        0x1ffu64
    } else if n == 4 {
        0xffffu64
    } else if n == 5 {
        0x1ffffffu64
    } else if n == 6 {
        0xfffffffffu64
    } else if n == 7 {
        0x1ffffffffffffu64
    } else {
        0xffffffffffffffffu64
    }
}

/// The column adjacent to the East edge: bits whose index is 0 mod N.
pub open spec fn east_edge(n: u64) -> u64 {
    if n == 3 {
        0x49u64
    } else if n == 4 {
        0x1111u64
    } else if n == 5 {
        0x108421u64
    } else if n == 6 {
        0x41041041u64
    } else if n == 7 {
        0x40810204081u64
    } else {
        0x0101010101010101u64
    }
}

/// The row adjacent to the South edge: the low N bits.
pub open spec fn south_edge(n: u64) -> u64 {
    if n == 3 {
        0x7u64
    } else if n == 4 {
        0xfu64
    } else if n == 5 {
        0x1fu64
    } else if n == 6 {
        0x3fu64
    } else if n == 7 {
        0x7fu64
    } else {
        0xffu64
    }
}

/// The column adjacent to the West edge.
pub open spec fn west_edge(n: u64) -> u64 {
    east_edge(n) << (n - 1) as u64
}

/// The row adjacent to the North edge.
pub open spec fn north_edge(n: u64) -> u64 {
    south_edge(n) << ((n * (n - 1)) as u64)
}

/// One step toward the North edge.
pub open spec fn north_of(n: u64, b: u64) -> u64 {
    (b << n) & board_mask(n)
}

/// One step toward the South edge.
pub open spec fn south_of(n: u64, b: u64) -> u64 {
    b >> n
}

/// One step toward the West edge.
pub open spec fn west_of(n: u64, b: u64) -> u64 {
    ((b << 1u64) & !east_edge(n)) & board_mask(n)
}

/// One step toward the East edge.
pub open spec fn east_of(n: u64, b: u64) -> u64 {
    (b >> 1u64) & !west_edge(n)
}

/// A word together with its 4-neighborhood.
pub open spec fn dilate_of(n: u64, b: u64) -> u64 {
    b | north_of(n, b) | south_of(n, b) | east_of(n, b) | west_of(n, b)
}

/// Dilation never leaves the board and is monotone in its argument.
pub proof fn lemma_dilate_frame(n: u64, a: u64, b: u64)
    requires
        n_ok(n),
        a & board_mask(n) == a,
        b & board_mask(n) == b,
    ensures
        dilate_of(n, a) & board_mask(n) == dilate_of(n, a),
        a & !dilate_of(n, a) == 0,
        a & !b == 0 ==> dilate_of(n, a) & !dilate_of(n, b) == 0,
{
    assert((dilate_of(n, a) & board_mask(n) == dilate_of(n, a)) && (a & !dilate_of(n, a) == 0) && (
    a & !b == 0 ==> dilate_of(n, a) & !dilate_of(n, b) == 0)) by (bit_vector)
        requires
            3 <= n <= 8 && a & board_mask(n) == a && b & board_mask(n) == b,
    ;
}

/// Dilation distributes over union.
pub proof fn lemma_dilate_or(n: u64, a: u64, b: u64)
    ensures
        dilate_of(n, a | b) == dilate_of(n, a) | dilate_of(n, b),
{
    assert(dilate_of(n, a | b) == dilate_of(n, a) | dilate_of(n, b)) by (bit_vector);
}

/// Adjacency is symmetric: a word meets the dilation of another exactly
/// when the other meets its dilation.
pub proof fn lemma_dilate_symm(n: u64, a: u64, b: u64)
    requires
        n_ok(n),
        a & board_mask(n) == a,
        b & board_mask(n) == b,
    ensures
        (dilate_of(n, a) & b == 0) <==> (a & dilate_of(n, b) == 0),
{
    assert((dilate_of(n, a) & b == 0) <==> (a & dilate_of(n, b) == 0)) by (bit_vector)
        requires
            3 <= n <= 8 && a & board_mask(n) == a && b & board_mask(n) == b,
    ;
}

/// The boolean-algebra facts the bitboard operations rest on: results of
/// `&`, `|`, `^`, `!` and the directional shifts stay inside the board.
proof fn lemma_op_frame(n: u64, a: u64, b: u64)
    by (bit_vector)
    ensures
        a & board_mask(n) == a ==> (a & b) & board_mask(n) == (a & b),
        (a & board_mask(n) == a && b & board_mask(n) == b) ==> ((a | b) & board_mask(n) == (a | b)
            && (a ^ b) & board_mask(n) == (a ^ b)),
        (!a & board_mask(n)) & board_mask(n) == !a & board_mask(n),
        0u64 & board_mask(n) == 0u64,
        ((a << n) & board_mask(n)) & board_mask(n) == (a << n) & board_mask(n),
        (3 <= n <= 8 && a & board_mask(n) == a) ==> ((a >> n) & board_mask(n) == a >> n && ((a
            >> 1u64) & !west_edge(n)) & board_mask(n) == (a >> 1u64) & !west_edge(n)),
        (((a << 1u64) & !east_edge(n)) & board_mask(n)) & board_mask(n) == ((a << 1u64) & !east_edge(
        n)) & board_mask(n),
{
}

/// A bitboard over an N x N board.
#[derive(Copy, Clone)]
pub struct Bitmap<const N: usize> {
    pub raw: u64,
}

impl<const N: usize> Bitmap<N> {
    /// A well-formed bitboard has a supported size and no bits outside
    /// the N * N live region.
    pub open spec fn wf(self) -> bool {
        &&& n_ok(N as u64)
        &&& self.raw & board_mask(N as u64) == self.raw
    }

    /// The empty bitboard.
    pub fn empty() -> (r: Self)
        requires
            n_ok(N as u64),
        ensures
            r.wf(),
            r.raw == 0u64,
    {
        proof {
            lemma_op_frame(N as u64, 0, 0);
        }
        Bitmap { raw: 0 }
    }

    /// A bitboard from a raw word whose bits all lie on the board.
    pub fn new(raw: u64) -> (r: Self)
        requires
            n_ok(N as u64),
            raw & board_mask(N as u64) == raw,
        ensures
            r.wf(),
            r.raw == raw,
    {
        Bitmap { raw }
    }

    /// The mask of the board's live bits.
    pub fn mask() -> (r: u64)
        requires
            n_ok(N as u64),
        ensures
            r == board_mask(N as u64),
    {
        match N {
            3 => 0x1ffu64,
            4 => 0xffffu64,
            5 => 0x1ffffffu64,
            6 => 0xfffffffffu64,
            7 => 0x1ffffffffffffu64,
            _ => 0xffffffffffffffffu64,
        }
    }

    /// The single row or column adjacent to the named edge.
    pub fn edge_mask(d: Direction) -> (r: Self)
        requires
            n_ok(N as u64),
        ensures
            r.wf(),
            d == Direction::North ==> r.raw == north_edge(N as u64),
            d == Direction::South ==> r.raw == south_edge(N as u64),
            d == Direction::East ==> r.raw == east_edge(N as u64),
            d == Direction::West ==> r.raw == west_edge(N as u64),
    {
        let n = N as u64;
        let south: u64 = match N {
            3 => 0x7u64,
            4 => 0xfu64,
            5 => 0x1fu64,
            6 => 0x3fu64,
            7 => 0x7fu64,
            _ => 0xffu64,
        };
        let east: u64 = match N {
            3 => 0x49u64,
            4 => 0x1111u64,
            5 => 0x108421u64,
            6 => 0x41041041u64,
            7 => 0x40810204081u64,
            _ => 0x0101010101010101u64,
        };
        proof {
            assert(n * (n - 1) <= 56) by (nonlinear_arith)
                requires
                    3 <= n <= 8,
            ;
        }
        let raw = match d {
            Direction::North => south << (n * (n - 1)),
            Direction::South => south,
            Direction::East => east,
            Direction::West => east << (n - 1),
        };
        proof {
            let nn = N as u64;
            assert((south_edge(nn) & board_mask(nn) == south_edge(nn)) && (east_edge(nn)
                & board_mask(nn) == east_edge(nn)) && (north_edge(nn) & board_mask(nn)
                == north_edge(nn)) && (west_edge(nn) & board_mask(nn) == west_edge(nn)))
                by (bit_vector)
                requires
                    3 <= nn <= 8,
            ;
        }
        Bitmap { raw }
    }

    /// Bitwise intersection.
    pub fn and(self, other: Self) -> (r: Self)
        requires
            self.wf(),
            other.wf(),
        ensures
            r.wf(),
            r.raw == self.raw & other.raw,
    {
        proof {
            lemma_op_frame(N as u64, self.raw, other.raw);
        }
        Bitmap { raw: self.raw & other.raw }
    }

    /// Bitwise union.
    pub fn or(self, other: Self) -> (r: Self)
        requires
            self.wf(),
            other.wf(),
        ensures
            r.wf(),
            r.raw == self.raw | other.raw,
    {
        proof {
            lemma_op_frame(N as u64, self.raw, other.raw);
        }
        Bitmap { raw: self.raw | other.raw }
    }

    /// Bitwise symmetric difference.
    pub fn xor(self, other: Self) -> (r: Self)
        requires
            self.wf(),
            other.wf(),
        ensures
            r.wf(),
            r.raw == self.raw ^ other.raw,
    {
        proof {
            lemma_op_frame(N as u64, self.raw, other.raw);
        }
        Bitmap { raw: self.raw ^ other.raw }
    }

    /// Complement within the board's live region.
    pub fn not(self) -> (r: Self)
        requires
            self.wf(),
        ensures
            r.wf(),
            r.raw == !self.raw & board_mask(N as u64),
    {
        proof {
            lemma_op_frame(N as u64, self.raw, 0);
        }
        Bitmap { raw: !self.raw & Self::mask() }
    }

    /// The number of set bits.
    pub fn count_ones(self) -> (r: u32)
        ensures
            r == popcount(self.raw),
            r <= 64,
    {
        proof {
            lemma_popcount_le_64(self.raw);
        }
        count_ones(self.raw)
    }

    /// Whether no bit is set.
    pub fn is_empty(self) -> (r: bool)
        ensures
            r <==> self.raw == 0,
    {
        self.raw == 0
    }

    /// One step toward the North edge.
    pub fn north(self) -> (r: Self)
        requires
            self.wf(),
        ensures
            r.wf(),
            r.raw == north_of(N as u64, self.raw),
    {
        let n = N as u64;
        proof {
            lemma_op_frame(n, self.raw, 0);
        }
        Bitmap { raw: (self.raw << n) & Self::mask() }
    }

    /// One step toward the South edge.
    pub fn south(self) -> (r: Self)
        requires
            self.wf(),
        ensures
            r.wf(),
            r.raw == south_of(N as u64, self.raw),
    {
        let n = N as u64;
        proof {
            lemma_op_frame(n, self.raw, 0);
        }
        Bitmap { raw: self.raw >> n }
    }

    /// One step toward the West edge.
    pub fn west(self) -> (r: Self)
        requires
            self.wf(),
        ensures
            r.wf(),
            r.raw == west_of(N as u64, self.raw),
    {
        let n = N as u64;
        proof {
            lemma_op_frame(n, self.raw, 0);
        }
        let east_col = Self::edge_mask(Direction::East);
        Bitmap { raw: ((self.raw << 1) & !east_col.raw) & Self::mask() }
    }

    /// One step toward the East edge.
    pub fn east(self) -> (r: Self)
        requires
            self.wf(),
        ensures
            r.wf(),
            r.raw == east_of(N as u64, self.raw),
    {
        let n = N as u64;
        proof {
            lemma_op_frame(n, self.raw, 0);
        }
        let west_col = Self::edge_mask(Direction::West);
        Bitmap { raw: (self.raw >> 1) & !west_col.raw }
    }

    /// The word together with its 4-neighborhood.
    pub fn dilate(self) -> (r: Self)
        requires
            self.wf(),
        ensures
            r.wf(),
            r.raw == dilate_of(N as u64, self.raw),
    {
        let n = self.north();
        let s = self.south();
        let e = self.east();
        let w = self.west();
        self.or(n).or(s).or(e).or(w)
    }
}

/// Everyday subset algebra on words, with `a & !b == 0` for "a is
/// contained in b".
pub(crate) proof fn lemma_sub(a: u64, b: u64, c: u64)
    by (bit_vector)
    ensures
        (a & !b == 0 && b & !c == 0) ==> a & !c == 0,
        a & !(a | b) == 0,
        (a & !c == 0 && b & !c == 0) ==> (a | b) & !c == 0,
        (a & b) & !b == 0,
        a & !a == 0,
        a & !b == 0 <==> a & b == a,
        (b & !a == 0) ==> (a | b == a),
        (a & !b == 0) ==> ((a & c) & !(b & c) == 0),
        (a & !b == 0 && a != 0) ==> b != 0,
        (a | b == a) ==> b & !a == 0,
        (a & b) & !a == 0,
        a & b == b & a,
        (a & b == a) ==> (a | (b & !a)) == b,
        (a & !(b & !c) == 0) ==> (a & c == 0),
        (a & !b == 0 && a & c == 0) ==> a & !(b & !c) == 0,
        (a != 0 && a & b == a && a & !c == 0) ==> (b & !c) < b,
        (a & c == a) ==> (a & (b & c)) == (a & b),
        a | b == b | a,
        (a & b) & c == a & (b & c),
        (a & !b == 0 && a & !c == 0) ==> a & !(b & c) == 0,
        a & b == (a & b & c) | (a & b & !c),
        (a & b == 0 && a & !b == 0) ==> a == 0,
        ((a | b) & c != 0) ==> (a & c != 0 || b & c != 0),
{
}

/// A set of squares closed under 4-adjacency within `within`: no
/// square of `within` outside `c` borders `c`.
pub open spec fn adjacency_closed(n: u64, c: u64, within: u64) -> bool {
    dilate_of(n, c) & within & !c == 0
}

/// The four edge masks lie on the board.
pub proof fn lemma_edges_in_board(n: u64)
    requires
        n_ok(n),
    ensures
        west_edge(n) & board_mask(n) == west_edge(n),
        east_edge(n) & board_mask(n) == east_edge(n),
        north_edge(n) & board_mask(n) == north_edge(n),
        south_edge(n) & board_mask(n) == south_edge(n),
{
    assert(west_edge(n) & board_mask(n) == west_edge(n) && east_edge(n) & board_mask(n)
        == east_edge(n) && north_edge(n) & board_mask(n) == north_edge(n) && south_edge(n)
        & board_mask(n) == south_edge(n)) by (bit_vector)
        requires
            3 <= n <= 8,
    ;
}

/// A flood seed cut from a map lies in that map.
pub proof fn lemma_seed_in(road: u64, edge: u64)
    ensures
        (road & edge) & !road == 0,
{
    lemma_sub(road, edge, 0);
}

/// Union of words is symmetric.
pub proof fn lemma_or_comm(a: u64, b: u64)
    ensures
        a | b == b | a,
{
    lemma_sub(a, b, 0);
}

/// Masking a complement to the board changes nothing for on-board words.
pub proof fn lemma_block_mask(a: u64, b: u64, m: u64)
    requires
        a & m == a,
    ensures
        a & (!b & m) == a & !b,
{
    lemma_sub(a, !b, m);
}

/// The lowest set bit of a nonzero word.
pub open spec fn low_bit(b: u64) -> u64 {
    1u64 << (vstd::std_specs::bits::u64_trailing_zeros(b) as u64)
}

proof fn lemma_low_bit(b: u64)
    requires
        b != 0,
    ensures
        low_bit(b) != 0,
        low_bit(b) & b == low_bit(b),
        vstd::std_specs::bits::u64_trailing_zeros(b) < 64,
{
    vstd::std_specs::bits::axiom_u64_trailing_zeros(b);
    let t = vstd::std_specs::bits::u64_trailing_zeros(b) as u64;
    assert(t < 64 && (b >> t) & 1u64 == 1u64 ==> ((1u64 << t) != 0 && (1u64 << t) & b == (1u64
        << t))) by (bit_vector);
}

/// A lowest-bit word meets any other word either fully or not at all.
proof fn lemma_low_bit_dichotomy(b: u64, c: u64)
    ensures
        low_bit(b) & c == 0 || low_bit(b) & c == low_bit(b),
{
    let t = vstd::std_specs::bits::u64_trailing_zeros(b) as u64;
    assert((1u64 << t) & c == 0 || (1u64 << t) & c == 1u64 << t) by (bit_vector);
}

/// `k` rounds of flood fill: dilate `seed` and keep what lies in
/// `through`, repeatedly.
pub open spec fn flood_spec(n: u64, seed: u64, through: u64, k: nat) -> u64
    decreases k,
{
    if k == 0 {
        seed
    } else {
        flood_spec(n, seed | (dilate_of(n, seed) & through), through, (k - 1) as nat)
    }
}

/// Flooding stays inside `through` (plus the seed) and keeps the seed.
pub proof fn lemma_flood_in(n: u64, s: u64, t: u64, k: nat)
    requires
        s & !t == 0,
    ensures
        flood_spec(n, s, t, k) & !t == 0,
        s & !flood_spec(n, s, t, k) == 0,
    decreases k,
{
    lemma_sub(s, t, 0);
    if k != 0 {
        let d = dilate_of(n, s);
        let s1 = s | (d & t);
        lemma_sub(d, t, 0);
        lemma_sub(s, d & t, t);
        lemma_sub(s, d & t, 0);
        lemma_flood_in(n, s1, t, (k - 1) as nat);
        lemma_sub(s, s1, flood_spec(n, s1, t, (k - 1) as nat));
    }
}

/// A seed that is already adjacency-closed within `through` never grows.
pub proof fn lemma_flood_stable(n: u64, s: u64, t: u64, k: nat)
    requires
        dilate_of(n, s) & t & !s == 0,
    ensures
        flood_spec(n, s, t, k) == s,
    decreases k,
{
    if k != 0 {
        let d = dilate_of(n, s);
        assert(d & t & !s == 0 ==> s | (d & t) == s) by {
            lemma_sub(s, d & t, 0);
        }
        lemma_flood_stable(n, s, t, (k - 1) as nat);
    }
}

/// Flood rounds compose.
pub proof fn lemma_flood_add(n: u64, s: u64, t: u64, j: nat, k: nat)
    ensures
        flood_spec(n, s, t, j + k) == flood_spec(n, flood_spec(n, s, t, j), t, k),
    decreases j,
{
    if j != 0 {
        let s1 = s | (dilate_of(n, s) & t);
        lemma_flood_add(n, s1, t, (j - 1) as nat, k);
    }
}

/// With fuel at least `popcount(through) - popcount(seed)`, the flood
/// reaches a fixed point: the result is adjacency-closed within `through`.
pub proof fn lemma_flood_fix(n: u64, s: u64, t: u64, f: nat)
    requires
        s & !t == 0,
        f + popcount(s) >= popcount(t),
    ensures
        dilate_of(n, flood_spec(n, s, t, f)) & t & !flood_spec(n, s, t, f) == 0,
    decreases f,
{
    let d = dilate_of(n, s);
    if d & t & !s == 0 {
        lemma_flood_stable(n, s, t, f);
    } else {
        let s1 = s | (d & t);
        lemma_sub(s, s1, 0);
        lemma_sub(d & t, t, 0);
        lemma_sub(s, d & t, t);
        assert(s1 != s) by {
            lemma_sub(s, d & t, 0);
        }
        assert(s & s1 == s) by {
            lemma_sub(s, s1, 0);
        }
        lemma_popcount_strict_sub(s, s1);
        if f == 0 {
            assert(s & t == s) by {
                lemma_sub(s, t, 0);
            }
            if s != t {
                lemma_popcount_strict_sub(s, t);
            }
            lemma_sub(d, s, 0);
        } else {
            assert(s1 & !t == 0) by {
                lemma_sub(d, t, 0);
                lemma_sub(s, d & t, t);
            }
            assert(popcount(s1) <= popcount(t)) by {
                lemma_sub(s1, t, 0);
                if s1 != t {
                    lemma_popcount_strict_sub(s1, t);
                }
            }
            lemma_flood_fix(n, s1, t, (f - 1) as nat);
        }
    }
}

/// The flood result is below every adjacency-closed set that contains
/// the seed: it reaches only squares connected to the seed.
pub proof fn lemma_flood_least(n: u64, s: u64, t: u64, k: nat, c: u64)
    requires
        n_ok(n),
        t & board_mask(n) == t,
        c & board_mask(n) == c,
        s & !t == 0,
        s & !c == 0,
        dilate_of(n, c) & t & !c == 0,
    ensures
        flood_spec(n, s, t, k) & !c == 0,
    decreases k,
{
    if k != 0 {
        let d = dilate_of(n, s);
        let s1 = s | (d & t);
        assert(s & board_mask(n) == s) by {
            lemma_sub(t, board_mask(n), 0);
            lemma_sub(s, t, board_mask(n));
            lemma_sub(s, board_mask(n), 0);
        }
        lemma_dilate_frame(n, s, c);
        assert(d & !dilate_of(n, c) == 0);
        lemma_sub(d, dilate_of(n, c), t);
        assert((d & t) & !c == 0) by {
            lemma_sub(d & t, dilate_of(n, c) & t, c);
        }
        lemma_sub(s, d & t, c);
        lemma_sub(d, t, 0);
        lemma_sub(s, d & t, t);
        lemma_flood_least(n, s1, t, (k - 1) as nat, c);
    }
}

/// The maximal 4-connected components of a word, in the order the
/// grouping loop emits them: flood the lowest remaining bit, emit the
/// component, clear it, repeat.
pub open spec fn groups_seq(n: u64, b: u64) -> Seq<u64>
    decreases b,
    via groups_seq_dec
{
    if b == 0 {
        Seq::empty()
    } else {
        let g = flood_spec(n, low_bit(b), b, 64);
        seq![g] + groups_seq(n, b & !g)
    }
}

#[via_fn]
proof fn groups_seq_dec(n: u64, b: u64) {
    if b != 0 {
        lemma_groups_step(n, b);
    }
}

/// One step of the grouping recursion removes a nonzero component.
proof fn lemma_groups_step(n: u64, b: u64)
    requires
        b != 0,
    ensures
        ({
            let g = flood_spec(n, low_bit(b), b, 64);
            &&& low_bit(b) & !g == 0
            &&& g & !b == 0
            &&& g != 0
            &&& (b & !g) < b
        }),
{
    lemma_low_bit(b);
    let s = low_bit(b);
    assert(s & !b == 0) by {
        lemma_sub(s, b, 0);
    }
    lemma_flood_in(n, s, b, 64);
    let g = flood_spec(n, s, b, 64);
    lemma_sub(s, g, 0);
    lemma_sub(s, g, b);
    assert(g != 0) by {
        lemma_sub(s, g, 0);
    }
    assert((b & !g) < b) by {
        lemma_sub(s, b, g);
    }
}

/// The union of a sequence of words.
pub open spec fn union_of(s: Seq<u64>) -> u64
    decreases s.len(),
{
    if s.len() == 0 {
        0u64
    } else {
        s[0] | union_of(s.drop_first())
    }
}

/// The total number of set bits over a sequence of words.
pub open spec fn sum_pop(s: Seq<u64>) -> nat
    decreases s.len(),
{
    if s.len() == 0 {
        0
    } else {
        popcount(s[0]) + sum_pop(s.drop_first())
    }
}

/// What the grouping decomposition guarantees: the components are
/// nonzero, pairwise disjoint, adjacency-closed within the word
/// (maximal), and together they carry exactly the word's set bits.
pub proof fn lemma_groups_props(n: u64, b: u64)
    requires
        n_ok(n),
        b & board_mask(n) == b,
    ensures
        union_of(groups_seq(n, b)) == b,
        sum_pop(groups_seq(n, b)) == popcount(b),
        forall|i: int|
            0 <= i < groups_seq(n, b).len() ==> (#[trigger] groups_seq(n, b)[i] != 0 && groups_seq(
            n,
            b,
            )[i] & !b == 0 && dilate_of(n, groups_seq(n, b)[i]) & b & !groups_seq(n, b)[i] == 0),
        forall|i: int, j: int|
            #![trigger groups_seq(n, b)[i], groups_seq(n, b)[j]]
            0 <= i < j < groups_seq(n, b).len() ==> groups_seq(n, b)[i] & groups_seq(n, b)[j] == 0,
        forall|i: int, c: u64|
            #![trigger groups_seq(n, b)[i] & c]
            0 <= i < groups_seq(n, b).len() && c & board_mask(n) == c && dilate_of(n, c)
                & groups_seq(n, b)[i] & !c == 0 && groups_seq(n, b)[i] & c != 0 ==> groups_seq(
                n,
                b,
            )[i] & !c == 0,
    decreases b,
{
    if b == 0 {
        lemma_popcount_zero(0);
    } else {
        lemma_groups_step(n, b);
        let g = flood_spec(n, low_bit(b), b, 64);
        let rest = b & !g;
        lemma_popcount_le_64(b);
        lemma_low_bit(b);
        lemma_sub(low_bit(b), b, 0);
        lemma_flood_fix(n, low_bit(b), b, 64);
        lemma_sub(b, !g, 0);
        lemma_sub(b, board_mask(n), 0);
        lemma_sub(rest, b, board_mask(n));
        lemma_sub(rest, board_mask(n), 0);
        lemma_groups_props(n, rest);
        let gs = groups_seq(n, b);
        let tail = groups_seq(n, rest);
        assert(gs == seq![g] + tail);
        assert(gs.drop_first() == tail);
        assert(gs[0] == g);
        // The components carry exactly the word's bits.
        assert(g & b == g) by {
            lemma_sub(g, b, 0);
        }
        lemma_popcount_remove(b, g);
        assert(union_of(gs) == g | union_of(tail));
        assert(g | rest == b) by {
            lemma_sub(g, b, 0);
        }
        // Each tail component lies in `rest`, hence in `b`, away from `g`,
        // and its adjacency closure within `rest` extends to `b`, since
        // `g` is itself closed and so borders no tail component.
        assert forall|i: int| 0 <= i < tail.len() implies (#[trigger] tail[i] & !b == 0 && tail[i]
            & g == 0 && dilate_of(n, tail[i]) & b & !tail[i] == 0) by {
            let ti = tail[i];
            let dg = dilate_of(n, g);
            assert(ti & !rest == 0);
            lemma_sub(rest, b, 0);
            lemma_sub(ti, rest, b);
            assert(ti & g == 0) by {
                lemma_sub(ti, b, g);
            }
            assert(dg & ti == 0) by {
                assert((ti & !(b & !g) == 0 && (dg & b) & !g == 0) ==> dg & ti == 0)
                    by (bit_vector);
            }
            assert(g & board_mask(n) == g) by {
                lemma_sub(b, board_mask(n), 0);
                lemma_sub(g, b, board_mask(n));
                lemma_sub(g, board_mask(n), 0);
            }
            assert(ti & board_mask(n) == ti) by {
                lemma_sub(b, board_mask(n), 0);
                lemma_sub(ti, b, board_mask(n));
                lemma_sub(ti, board_mask(n), 0);
            }
            lemma_sub(dg, ti, 0);
            lemma_dilate_symm(n, ti, g);
            let dt = dilate_of(n, ti);
            assert(dt & g == 0);
            assert((dt & (b & !g) & !ti == 0 && dt & g == 0) ==> dt & b & !ti == 0)
                by (bit_vector);
        }
        // The head component is connected: an adjacency-closed set that
        // meets it swallows it whole. The flood's least-fixed-point
        // property pins the seed's side of any closed split of `g`.
        assert forall|c: u64|
            (c & board_mask(n) == c && dilate_of(n, c) & g & !c == 0 && g & c != 0) implies g & !c
            == 0 by {
            lemma_connected_component(n, b, c);
        }
        assert forall|i: int, c: u64|
            #![trigger gs[i] & c]
            (0 <= i < gs.len() && c & board_mask(n) == c && dilate_of(n, c) & gs[i] & !c == 0 && gs[
            i] & c != 0) implies gs[i] & !c == 0 by {
            if i > 0 {
                assert(gs[i] == tail[i - 1]);
            }
        }
        assert forall|i: int|
            0 <= i < gs.len() implies (#[trigger] gs[i] != 0 && gs[i] & !b == 0 && dilate_of(
                n,
                gs[i],
            ) & b & !gs[i] == 0) by {
            if i > 0 {
                assert(gs[i] == tail[i - 1]);
            }
        }
        assert forall|i: int, j: int|
            #![trigger gs[i], gs[j]]
            0 <= i < j < gs.len() implies gs[i] & gs[j] == 0 by {
            assert(gs[j] == tail[j - 1]);
            if i == 0 {
                lemma_sub(g, tail[j - 1], 0);
            } else {
                assert(gs[i] == tail[i - 1]);
            }
        }
    }
}

/// The component the grouping loop floods from the lowest bit of `b`
/// is connected: every on-board adjacency-closed subset of it that
/// meets it contains all of it.
proof fn lemma_connected_component(n: u64, b: u64, c: u64)
    requires
        n_ok(n),
        b != 0,
        b & board_mask(n) == b,
        c & board_mask(n) == c,
        dilate_of(n, c) & flood_spec(n, low_bit(b), b, 64) & !c == 0,
        flood_spec(n, low_bit(b), b, 64) & c != 0,
    ensures
        flood_spec(n, low_bit(b), b, 64) & !c == 0,
{
    let bm = board_mask(n);
    let seed = low_bit(b);
    let g = flood_spec(n, seed, b, 64);
    lemma_groups_step(n, b);
    lemma_low_bit(b);
    lemma_sub(seed, b, 0);
    lemma_low_bit_dichotomy(b, c);
    lemma_popcount_le_64(b);
    lemma_flood_fix(n, seed, b, 64);
    lemma_sub(g, b, bm);
    lemma_sub(b, bm, 0);
    lemma_sub(g, bm, 0);
    let dg = dilate_of(n, g);
    assert(dg & (b & !g) == 0) by {
        lemma_sub(dg, b, !g);
        assert((dg & b & !g == 0) ==> dg & (b & !g) == 0) by (bit_vector);
    }
    lemma_sub(b, !g, 0);
    lemma_sub(b & !g, b, bm);
    lemma_sub(b & !g, bm, 0);
    lemma_dilate_symm(n, g, b & !g);
    let dbg = dilate_of(n, b & !g);
    assert(dbg & g == 0) by {
        lemma_sub(g, dbg, 0);
    }
    let dc = dilate_of(n, c);
    if seed & c == seed {
        let cc = (g & c) | (b & !g);
        lemma_sub(g, c, 0);
        lemma_sub(g & c, g, bm);
        lemma_sub(g & c, bm, 0);
        lemma_sub(g & c, c, 0);
        lemma_dilate_frame(n, g & c, c);
        let d1 = dilate_of(n, g & c);
        lemma_dilate_or(n, g & c, b & !g);
        assert(dilate_of(n, cc) & b & !cc == 0 && seed & !cc == 0 && cc & bm == cc) by (bit_vector)
            requires
                dilate_of(n, cc) == d1 | dbg,
                cc == (g & c) | (b & !g),
                d1 & !dc == 0,
                dc & g & !c == 0,
                dbg & g == 0,
                seed & !g == 0,
                seed & c == seed,
                g & bm == g,
                b & bm == b,
                c & bm == c,
        ;
        lemma_flood_least(n, seed, b, 64, cc);
        assert((g & !((g & c) | (b & !g)) == 0) ==> g & !c == 0) by (bit_vector);
    } else {
        let cc = (g & !c) | (b & !g);
        lemma_sub(g, !c, 0);
        lemma_sub(g & !c, g, bm);
        lemma_sub(g & !c, bm, 0);
        assert(dc & (g & !c) == 0) by {
            lemma_sub(dc, g, !c);
            assert((dc & g & !c == 0) ==> dc & (g & !c) == 0) by (bit_vector);
        }
        lemma_dilate_symm(n, c, g & !c);
        let d1 = dilate_of(n, g & !c);
        assert(d1 & c == 0) by {
            lemma_sub(c, d1, 0);
        }
        lemma_sub(g & !c, g, 0);
        lemma_dilate_frame(n, g & !c, g);
        lemma_dilate_or(n, g & !c, b & !g);
        assert(dilate_of(n, cc) & b & !cc == 0 && seed & !cc == 0 && cc & bm == cc) by (bit_vector)
            requires
                dilate_of(n, cc) == d1 | dbg,
                cc == (g & !c) | (b & !g),
                d1 & c == 0,
                d1 & !dilate_of(n, g) == 0,
                dilate_of(n, g) & b & !g == 0,
                dbg & g == 0,
                seed & !g == 0,
                seed & c == 0,
                g & bm == g,
                b & bm == b,
                c & bm == c,
        ;
        lemma_flood_least(n, seed, b, 64, cc);
        assert((g & !((g & !c) | (b & !g)) == 0 && g & c != 0) ==> false) by (bit_vector);
    }
}

/// The number of components is at most the number of set bits.
pub proof fn lemma_count_le_sum(s: Seq<u64>)
    requires
        forall|i: int| 0 <= i < s.len() ==> #[trigger] s[i] != 0,
    ensures
        s.len() <= sum_pop(s),
    decreases s.len(),
{
    if s.len() != 0 {
        lemma_popcount_zero(s[0]);
        lemma_count_le_sum(s.drop_first());
    }
}

impl<const N: usize> Bitmap<N> {
    /// The lowest set bit, as a one-bit board.
    pub fn lowest_bit(self) -> (r: Self)
        requires
            self.wf(),
            self.raw != 0,
        ensures
            r.wf(),
            r.raw == low_bit(self.raw),
            r.raw != 0,
            r.raw & self.raw == r.raw,
    {
        proof {
            lemma_low_bit(self.raw);
            lemma_sub(low_bit(self.raw), self.raw, 0);
            lemma_sub(self.raw, board_mask(N as u64), 0);
            lemma_sub(low_bit(self.raw), self.raw, board_mask(N as u64));
            lemma_sub(low_bit(self.raw), board_mask(N as u64), 0);
        }
        let t = self.raw.trailing_zeros();
        assert(t < 64);
        Bitmap { raw: 1u64 << (t as u64) }
    }

    /// Flood fill: the set of squares of `through` 4-connected to `seed`
    /// (`seed` included), computed by dilating to a fixed point.
    pub fn flood(self, through: Self) -> (r: Self)
        requires
            self.wf(),
            through.wf(),
            self.raw & !through.raw == 0,
        ensures
            r.wf(),
            r.raw == flood_spec(N as u64, self.raw, through.raw, 64),
    {
        let n = N as u64;
        let mut cur = self;
        let ghost mut j: nat = 0;
        proof {
            lemma_popcount_le_64(through.raw);
        }
        loop
            invariant
                cur.wf(),
                through.wf(),
                n == N as u64,
                self.raw & !through.raw == 0,
                cur.raw == flood_spec(n, self.raw, through.raw, j),
                j + popcount(self.raw) <= popcount(cur.raw),
                popcount(through.raw) <= 64,
                cur.raw & !through.raw == 0,
            ensures
                cur.wf(),
                cur.raw == flood_spec(n, self.raw, through.raw, j),
                j <= 64,
                dilate_of(n, cur.raw) & through.raw & !cur.raw == 0,
            decreases 64 - j,
        {
            let next = cur.or(cur.dilate().and(through));
            if next.raw == cur.raw {
                proof {
                    lemma_popcount_le_64(cur.raw);
                    lemma_sub(cur.raw, dilate_of(n, cur.raw) & through.raw, 0);
                }
                break ;
            }
            proof {
                lemma_sub(cur.raw, dilate_of(n, cur.raw) & through.raw, 0);
                lemma_sub(cur.raw, next.raw, 0);
                lemma_popcount_strict_sub(cur.raw, next.raw);
                lemma_sub(dilate_of(n, cur.raw), through.raw, 0);
                lemma_sub(cur.raw, dilate_of(n, cur.raw) & through.raw, through.raw);
                assert(flood_spec(n, next.raw, through.raw, 0) == next.raw);
                assert(flood_spec(n, cur.raw, through.raw, 1) == next.raw);
                assert(flood_spec(n, self.raw, through.raw, j + 1) == next.raw) by {
                    lemma_flood_add(n, self.raw, through.raw, j, 1);
                }
                lemma_popcount_le_64(next.raw);
                j = j + 1;
            }
            cur = next;
        }
        proof {
            lemma_flood_stable(n, cur.raw, through.raw, (64 - j) as nat);
            lemma_flood_add(n, self.raw, through.raw, j, (64 - j) as nat);
        }
        cur
    }

    /// The maximal 4-connected components of the set squares, emitted
    /// lowest bit first.
    pub fn groups(self) -> (r: Vec<Bitmap<N>>)
        requires
            self.wf(),
        ensures
            r@.map_values(|g: Bitmap<N>| g.raw) == groups_seq(N as u64, self.raw),
            forall|i: int| 0 <= i < r@.len() ==> (#[trigger] r@[i]).wf(),
    {
        let n = N as u64;
        let mut remaining = self;
        let mut out: Vec<Bitmap<N>> = Vec::new();
        while remaining.raw != 0
            invariant
                remaining.wf(),
                self.wf(),
                n == N as u64,
                groups_seq(n, self.raw) == out@.map_values(|g: Bitmap<N>| g.raw) + groups_seq(
                    n,
                    remaining.raw,
                ),
                forall|i: int| 0 <= i < out@.len() ==> (#[trigger] out@[i]).wf(),
            decreases remaining.raw,
        {
            proof {
                lemma_groups_step(n, remaining.raw);
            }
            let seed = remaining.lowest_bit();
            proof {
                lemma_sub(seed.raw, remaining.raw, 0);
            }
            let g = seed.flood(remaining);
            proof {
                lemma_flood_in(n, seed.raw, remaining.raw, 64);
                lemma_sub(g.raw, remaining.raw, board_mask(n));
                lemma_sub(remaining.raw, board_mask(n), 0);
                lemma_sub(g.raw, board_mask(n), 0);
            }
            let cleared = remaining.and(g.not());
            proof {
                let cr = cleared.raw;
                let rr = remaining.raw;
                let gr = g.raw;
                let bm = board_mask(n);
                assert(cr == rr & !gr) by (bit_vector)
                    requires
                        cr == rr & (!gr & bm),
                        rr & bm == rr,
                ;
                assert(groups_seq(n, remaining.raw) == seq![g.raw] + groups_seq(n, cleared.raw));
            }
            let ghost prev = out@;
            let ghost rr0 = remaining.raw;
            out.push(g);
            remaining = cleared;
            proof {
                assert(out@.map_values(|q: Bitmap<N>| q.raw) =~= prev.map_values(
                    |q: Bitmap<N>| q.raw,
                ) + seq![g.raw]);
                assert(groups_seq(n, self.raw) =~= out@.map_values(|q: Bitmap<N>| q.raw)
                    + groups_seq(n, remaining.raw)) by {
                    assert(groups_seq(n, self.raw) == prev.map_values(|q: Bitmap<N>| q.raw)
                        + groups_seq(n, rr0));
                }
            }
        }
        proof {
            assert(groups_seq(n, remaining.raw) == Seq::<u64>::empty());
            assert(out@.map_values(|g: Bitmap<N>| g.raw) + Seq::<u64>::empty()
                =~= out@.map_values(|g: Bitmap<N>| g.raw));
        }
        out
    }
}

/// The mask of board column `c` (columns grow toward the West edge).
pub open spec fn col_mask(n: u64, c: u64) -> u64 {
    east_edge(n) << c
}

/// The mask of board row `r` (rows grow toward the North edge).
pub open spec fn row_mask(n: u64, r: u64) -> u64 {
    south_edge(n) << ((r * n) as u64)
}

/// The first column at or after `c` holding a set bit, or `n` if none.
pub open spec fn first_col(n: u64, b: u64, c: u64) -> u64
    decreases n - c,
{
    if c >= n {
        n
    } else if b & col_mask(n, c) != 0 {
        c
    } else {
        first_col(n, b, (c + 1) as u64)
    }
}

/// The last column at or before `c` holding a set bit, or 0 if none.
pub open spec fn last_col(n: u64, b: u64, c: u64) -> u64
    decreases c,
{
    if b & col_mask(n, c) != 0 {
        c
    } else if c == 0 {
        0
    } else {
        last_col(n, b, (c - 1) as u64)
    }
}

/// The first row at or after `r` holding a set bit, or `n` if none.
pub open spec fn first_row(n: u64, b: u64, r: u64) -> u64
    decreases n - r,
{
    if r >= n {
        n
    } else if b & row_mask(n, r) != 0 {
        r
    } else {
        first_row(n, b, (r + 1) as u64)
    }
}

/// The last row at or before `r` holding a set bit, or 0 if none.
pub open spec fn last_row(n: u64, b: u64, r: u64) -> u64
    decreases r,
{
    if b & row_mask(n, r) != 0 {
        r
    } else if r == 0 {
        0
    } else {
        last_row(n, b, (r - 1) as u64)
    }
}

/// The bounding-box extent of a nonzero word in columns.
pub open spec fn width_of(n: u64, b: u64) -> int {
    last_col(n, b, (n - 1) as u64) - first_col(n, b, 0) + 1
}

/// The bounding-box extent of a nonzero word in rows.
pub open spec fn height_of(n: u64, b: u64) -> int {
    last_row(n, b, (n - 1) as u64) - first_row(n, b, 0) + 1
}

proof fn lemma_first_col_props(n: u64, b: u64, c: u64)
    ensures
        c <= n ==> c <= first_col(n, b, c) <= n,
        first_col(n, b, c) == n ==> forall|k: u64|
            c <= k < n ==> #[trigger] (b & col_mask(n, k)) == 0,
        first_col(n, b, c) < n ==> (c <= first_col(n, b, c) && b & col_mask(n, first_col(n, b, c))
            != 0),
    decreases n - c,
{
    if c < n && b & col_mask(n, c) == 0 {
        lemma_first_col_props(n, b, (c + 1) as u64);
    }
}

proof fn lemma_last_col_props(n: u64, b: u64, c: u64, m: u64)
    requires
        m <= c,
        b & col_mask(n, m) != 0,
    ensures
        m <= last_col(n, b, c) <= c,
        b & col_mask(n, last_col(n, b, c)) != 0,
    decreases c,
{
    if b & col_mask(n, c) == 0 {
        lemma_last_col_props(n, b, (c - 1) as u64, m);
    }
}

proof fn lemma_first_row_props(n: u64, b: u64, r: u64)
    ensures
        r <= n ==> r <= first_row(n, b, r) <= n,
        first_row(n, b, r) == n ==> forall|k: u64|
            r <= k < n ==> #[trigger] (b & row_mask(n, k)) == 0,
        first_row(n, b, r) < n ==> (r <= first_row(n, b, r) && b & row_mask(n, first_row(n, b, r))
            != 0),
    decreases n - r,
{
    if r < n && b & row_mask(n, r) == 0 {
        lemma_first_row_props(n, b, (r + 1) as u64);
    }
}

proof fn lemma_last_row_props(n: u64, b: u64, r: u64, m: u64)
    requires
        m <= r,
        b & row_mask(n, m) != 0,
    ensures
        m <= last_row(n, b, r) <= r,
        b & row_mask(n, last_row(n, b, r)) != 0,
    decreases r,
{
    if b & row_mask(n, r) == 0 {
        lemma_last_row_props(n, b, (r - 1) as u64, m);
    }
}

/// A nonzero word on the board meets some column and some row.
proof fn lemma_lines_cover(n: u64, b: u64)
    requires
        n_ok(n),
        b & board_mask(n) == b,
        b != 0,
    ensures
        first_col(n, b, 0) < n,
        first_row(n, b, 0) < n,
{
    lemma_first_col_props(n, b, 0);
    lemma_first_row_props(n, b, 0);
    if first_col(n, b, 0) == n {
        assert((3 <= n <= 8 && b & board_mask(n) == b && (0 < n ==> b & col_mask(n, 0u64) == 0) && (
        1 < n ==> b & col_mask(n, 1u64) == 0) && (2 < n ==> b & col_mask(n, 2u64) == 0) && (3 < n
            ==> b & col_mask(n, 3u64) == 0) && (4 < n ==> b & col_mask(n, 4u64) == 0) && (5 < n
            ==> b & col_mask(n, 5u64) == 0) && (6 < n ==> b & col_mask(n, 6u64) == 0) && (7 < n
            ==> b & col_mask(n, 7u64) == 0)) ==> b == 0) by (bit_vector);
    }
    if first_row(n, b, 0) == n {
        assert((3 <= n <= 8 && b & board_mask(n) == b && (0 < n ==> b & row_mask(n, 0u64) == 0) && (
        1 < n ==> b & row_mask(n, 1u64) == 0) && (2 < n ==> b & row_mask(n, 2u64) == 0) && (3 < n
            ==> b & row_mask(n, 3u64) == 0) && (4 < n ==> b & row_mask(n, 4u64) == 0) && (5 < n
            ==> b & row_mask(n, 5u64) == 0) && (6 < n ==> b & row_mask(n, 6u64) == 0) && (7 < n
            ==> b & row_mask(n, 7u64) == 0)) ==> b == 0) by (bit_vector);
    }
}

/// A nonzero word's bounding box spans between 1 and N lines each way.
pub proof fn lemma_span_bounds(n: u64, b: u64)
    requires
        n_ok(n),
        b & board_mask(n) == b,
        b != 0,
    ensures
        1 <= width_of(n, b) <= n,
        1 <= height_of(n, b) <= n,
{
    lemma_lines_cover(n, b);
    lemma_first_col_props(n, b, 0);
    lemma_last_col_props(n, b, (n - 1) as u64, first_col(n, b, 0));
    lemma_first_row_props(n, b, 0);
    lemma_last_row_props(n, b, (n - 1) as u64, first_row(n, b, 0));
}

impl<const N: usize> Bitmap<N> {
    fn col_first(b: u64, c: u64) -> (r: u64)
        requires
            n_ok(N as u64),
            c <= N as u64,
        ensures
            r == first_col(N as u64, b, c),
        decreases N as u64 - c,
    {
        if c >= N as u64 {
            N as u64
        } else {
            let ee = Self::edge_mask(Direction::East);
            if b & (ee.raw << c) != 0 {
                c
            } else {
                Self::col_first(b, c + 1)
            }
        }
    }

    fn col_last(b: u64, c: u64) -> (r: u64)
        requires
            n_ok(N as u64),
            c < N as u64,
        ensures
            r == last_col(N as u64, b, c),
        decreases c,
    {
        let ee = Self::edge_mask(Direction::East);
        if b & (ee.raw << c) != 0 {
            c
        } else if c == 0 {
            0
        } else {
            Self::col_last(b, c - 1)
        }
    }

    fn row_first(b: u64, r: u64) -> (res: u64)
        requires
            n_ok(N as u64),
            r <= N as u64,
        ensures
            res == first_row(N as u64, b, r),
        decreases N as u64 - r,
    {
        if r >= N as u64 {
            N as u64
        } else {
            let se = Self::edge_mask(Direction::South);
            proof {
                assert(r * (N as u64) <= 56) by (nonlinear_arith)
                    requires
                        r < N as u64 && N as u64 <= 8,
                ;
            }
            if b & (se.raw << (r * (N as u64))) != 0 {
                r
            } else {
                Self::row_first(b, r + 1)
            }
        }
    }

    fn row_last(b: u64, r: u64) -> (res: u64)
        requires
            n_ok(N as u64),
            r < N as u64,
        ensures
            res == last_row(N as u64, b, r),
        decreases r,
    {
        let se = Self::edge_mask(Direction::South);
        proof {
            assert(r * (N as u64) <= 56) by (nonlinear_arith)
                requires
                    r < N as u64 && N as u64 <= 8,
            ;
        }
        if b & (se.raw << (r * (N as u64))) != 0 {
            r
        } else if r == 0 {
            0
        } else {
            Self::row_last(b, r - 1)
        }
    }

    /// The bounding-box extent of the set bits in columns, 1-based.
    pub fn width(self) -> (r: u64)
        requires
            self.wf(),
            self.raw != 0,
        ensures
            r == width_of(N as u64, self.raw),
            1 <= r <= N as u64,
    {
        proof {
            lemma_span_bounds(N as u64, self.raw);
        }
        let f = Self::col_first(self.raw, 0);
        let l = Self::col_last(self.raw, (N as u64) - 1);
        proof {
            lemma_lines_cover(N as u64, self.raw);
            lemma_first_col_props(N as u64, self.raw, 0);
            lemma_last_col_props(N as u64, self.raw, (N as u64 - 1) as u64, f);
        }
        l - f + 1
    }

    /// The bounding-box extent of the set bits in rows, 1-based.
    pub fn height(self) -> (r: u64)
        requires
            self.wf(),
            self.raw != 0,
        ensures
            r == height_of(N as u64, self.raw),
            1 <= r <= N as u64,
    {
        proof {
            lemma_span_bounds(N as u64, self.raw);
        }
        let f = Self::row_first(self.raw, 0);
        let l = Self::row_last(self.raw, (N as u64) - 1);
        proof {
            lemma_lines_cover(N as u64, self.raw);
            lemma_first_row_props(N as u64, self.raw, 0);
            lemma_last_row_props(N as u64, self.raw, (N as u64 - 1) as u64, f);
        }
        l - f + 1
    }
}

} // verus!
