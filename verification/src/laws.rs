//! The laws the evaluator obeys, stated and proved over the spec-level
//! model: determinism, color symmetry, terminal scoring, and the
//! terminal score band.

use vstd::prelude::*;

use crate::bitmap::{adjacency_closed, board_mask, dilate_of, east_edge, lemma_dilate_frame,
    lemma_dilate_symm, lemma_edges_in_board, lemma_flood_in, lemma_flood_least, lemma_seed_in,
    lemma_sub, n_ok, north_edge, south_edge, west_edge};
use crate::bits::{bit, lemma_popcount_or_disjoint, lemma_popcount_single, popcount};
use crate::eval::{eval_spec, h_threats_of, material_spec, reach_from, v_threats_of, winner_of,
    Resolution, State, LOSE, MAX_PLY, WIN};
use crate::Color;

verus! {

/// The other player.
pub open spec fn flip(c: Color) -> Color {
    match c {
        Color::White => Color::Black,
        Color::Black => Color::White,
    }
}

/// A resolution with the players' colors exchanged.
pub open spec fn swap_resolution(r: Option<Resolution>) -> Option<Resolution> {
    match r {
        Some(Resolution::Road(c)) => Some(Resolution::Road(flip(c))),
        Some(Resolution::Flats { color, margin }) => Some(
            Resolution::Flats { color: flip(color), margin },
        ),
        other => other,
    }
}

/// Whether `t` is `s` with White and Black exchanged: pieces, stacks,
/// the side to move and the reported resolution all swap.
pub open spec fn color_swapped<const N: usize>(s: State<N>, t: State<N>) -> bool {
    &&& t.metadata.flatstones == s.metadata.flatstones
    &&& t.metadata.standing_stones == s.metadata.standing_stones
    &&& t.metadata.capstones == s.metadata.capstones
    &&& t.metadata.p1_pieces == s.metadata.p2_pieces
    &&& t.metadata.p2_pieces == s.metadata.p1_pieces
    &&& t.metadata.p1_stacks == s.metadata.p2_stacks
    &&& t.metadata.p2_stacks == s.metadata.p1_stacks
    &&& t.to_move == flip(s.to_move)
    &&& t.ply_count == s.ply_count
    &&& t.resolution == swap_resolution(s.resolution)
}

/// The evaluation is a function of the position alone: equal inputs
/// evaluate equally.
pub proof fn lemma_evaluate_deterministic<const N: usize>(a: State<N>, b: State<N>)
    requires
        a == b,
    ensures
        eval_spec(a) == eval_spec(b),
{
}

/// Exchanging the players' colors everywhere leaves the score, seen
/// from the side to move, unchanged.
pub proof fn lemma_color_symmetry<const N: usize>(s: State<N>, t: State<N>)
    requires
        color_swapped(s, t),
    ensures
        eval_spec(t) == eval_spec(s),
{
    crate::bitmap::lemma_or_comm(s.metadata.p1_pieces.raw, s.metadata.p2_pieces.raw);
}

/// A reported win for the side to move scores the win value less the
/// plies played; a loss likewise from the other side; a draw scores
/// the played plies against the mover.
pub proof fn lemma_terminal_correctness<const N: usize>(s: State<N>)
    ensures
        winner_of(s.resolution) == Some(s.to_move) ==> eval_spec(s) == WIN - s.ply_count,
        winner_of(s.resolution) is Some && winner_of(s.resolution) != Some(s.to_move) ==> eval_spec(
            s,
        ) == LOSE + s.ply_count,
        s.resolution == Some(Resolution::Draw) ==> eval_spec(s) == 0 - s.ply_count,
{
}

/// Within the first `MAX_PLY` plies, a decisive terminal score stands
/// outside the band every heuristic score lies in. (A reported draw
/// scores near zero instead: it carries no mate distance.)
pub proof fn lemma_terminal_band<const N: usize>(s: State<N>)
    requires
        winner_of(s.resolution) is Some,
        s.ply_count < MAX_PLY,
    ensures
        eval_spec(s) > WIN - MAX_PLY || eval_spec(s) < LOSE + MAX_PLY,
{
}

/// Grouping loses no stone and invents none: the set bits of a board
/// word are exactly the disjoint union of its 4-connected components,
/// so the population counts of the components sum to the word's.
pub proof fn lemma_groups_partition_popcount(n: u64, b: u64)
    requires
        n_ok(n),
        b & board_mask(n) == b,
    ensures
        crate::bitmap::sum_pop(crate::bitmap::groups_seq(n, b)) == popcount(b),
        crate::bitmap::union_of(crate::bitmap::groups_seq(n, b)) == b,
{
    crate::bitmap::lemma_groups_props(n, b);
}

/// Placing a friendly flatstone on an empty square raises the material
/// kernel by exactly the flatstone weight scaled by the board size.
/// The last hypothesis keeps the integer divisions exact: without it
/// truncation can shift the increase by one.
pub proof fn lemma_material_monotonic(
    n: u64,
    flats: u64,
    standing: u64,
    caps: u64,
    p: u64,
    i: u64,
)
    requires
        n_ok(n),
        i < 64,
        !bit(flats, i),
        !bit(standing, i),
        !bit(caps, i),
        !bit(p, i),
        ((popcount(p & flats) as int) * 2000) % (n as int) + 2000int % (n as int) < (n as int),
    ensures
        material_spec(n, flats | (1u64 << i), standing, caps, p | (1u64 << i)) == material_spec(
            n,
            flats,
            standing,
            caps,
            p,
        ) + 2000int / (n as int),
{
    let t = 1u64 << i;
    assert(t != 0 && ((p | t) & (flats | t)) == ((p & flats) | t) && ((p & flats) & t) == 0 && ((p
        | t) & standing) == (p & standing) && ((p | t) & caps) == (p & caps)) by (bit_vector)
        requires
            i < 64 && (flats >> i) & 1 != 1 && (standing >> i) & 1 != 1 && (caps >> i) & 1 != 1 && (
            p >> i) & 1 != 1 && t == 1u64 << i,
    ;
    lemma_popcount_single(i);
    lemma_popcount_or_disjoint(p & flats, t);
    let a = (popcount(p & flats) as int) * 2000;
    let nn = n as int;
    assert((a + 2000) / nn == a / nn + 2000int / nn) by (nonlinear_arith)
        requires
            nn >= 3 && a >= 0 && a % nn + 2000int % nn < nn,
    ;
}

/// A set `c` that contains the candidate square `t`, lies on the board,
/// and is adjacency-closed within the filled road map must hold some
/// square of `edge`, provided `t` borders the flood of `road` from that
/// edge: the flood square next to `t` is forced into `c`, and an edge
/// avoiding `c` would let `road` minus `c` trap the flood away from it.
proof fn lemma_closed_set_meets_edge(n: u64, road: u64, edge: u64, t: u64, c: u64)
    requires
        n_ok(n),
        road & board_mask(n) == road,
        edge & board_mask(n) == edge,
        t & board_mask(n) == t,
        t != 0,
        t & road == 0,
        t & !c == 0,
        c & board_mask(n) == c,
        adjacency_closed(n, c, road | t),
        (dilate_of(n, reach_from(n, road, edge)) | edge) & t != 0,
    ensures
        c & edge != 0,
{
    let bm = board_mask(n);
    let seed = road & edge;
    let rw = reach_from(n, road, edge);
    lemma_sub(dilate_of(n, rw), edge, t);
    if edge & t != 0 {
        lemma_sub(t, c, 0);
        lemma_sub(edge, t, 0);
        lemma_sub(edge, t, c);
        assert((edge & t != 0 && t & c == t) ==> c & edge != 0) by (bit_vector);
        return ;
    }
    assert(dilate_of(n, rw) & t != 0);
    lemma_seed_in(road, edge);
    lemma_flood_in(n, seed, road, 64);
    lemma_sub(road, bm, 0);
    lemma_sub(rw, road, bm);
    lemma_sub(rw, bm, 0);
    lemma_dilate_symm(n, rw, t);
    let s = rw & dilate_of(n, t);
    assert(s != 0);
    lemma_sub(t, c, 0);
    lemma_dilate_frame(n, t, c);
    lemma_sub(rw, dilate_of(n, t), 0);
    lemma_sub(s, dilate_of(n, t), dilate_of(n, c));
    lemma_sub(road, t, 0);
    lemma_sub(s, rw, road);
    lemma_sub(s, road, road | t);
    lemma_sub(s, dilate_of(n, c), road | t);
    lemma_sub(s, dilate_of(n, c) & (road | t), c);
    if c & edge == 0 {
        let rd = road & !c;
        assert(dilate_of(n, c) & rd == 0) by {
            lemma_sub(road, !c, 0);
            lemma_sub(rd, road, road | t);
            lemma_sub(dilate_of(n, c), rd, 0);
            lemma_sub(dilate_of(n, c) & rd, rd, road | t);
            lemma_sub(dilate_of(n, c) & rd, dilate_of(n, c), road | t);
            lemma_sub(dilate_of(n, c) & rd, dilate_of(n, c) & (road | t), c);
            lemma_sub(dilate_of(n, c) & rd, road, c);
            lemma_sub(dilate_of(n, c) & rd, c, 0);
        }
        lemma_sub(road, !c, 0);
        lemma_sub(rd, road, bm);
        lemma_sub(rd, bm, 0);
        lemma_dilate_symm(n, c, rd);
        lemma_sub(c, dilate_of(n, rd), 0);
        let drd = dilate_of(n, rd);
        assert((drd & c == 0 && rd == road & !c) ==> drd & road & !rd == 0) by (bit_vector);
        assert((c & edge == 0 && rd == road & !c) ==> (road & edge) & !rd == 0) by (bit_vector);
        lemma_flood_least(n, seed, road, 64, rd);
        lemma_sub(s, rw, rd);
        lemma_sub(s, road, c);
        lemma_sub(s, c, 0);
        assert(false);
    }
}

/// Placement-threat soundness along one axis: a square the threat map
/// names lies on the board, holds no road-piece and no blocking piece,
/// and once filled with the player's road-piece, every on-board
/// adjacency-closed set of the new road map containing it meets both
/// named edges: its connected component joins the two edges.
proof fn lemma_threats_sound_axis(n: u64, road: u64, block: u64, e1: u64, e2: u64, i: u64)
    requires
        n_ok(n),
        road & board_mask(n) == road,
        block & board_mask(n) == block,
        e1 & board_mask(n) == e1,
        e2 & board_mask(n) == e2,
        bit(
            (dilate_of(n, reach_from(n, road, e1)) | e1) & (dilate_of(n, reach_from(n, road, e2))
                | e2) & (!(road | block) & board_mask(n)),
            i,
        ),
    ensures
        i < n * n,
        !bit(road, i),
        !bit(block, i),
        forall|c: u64|
            (c & board_mask(n) == c && #[trigger] bit(c, i) && adjacency_closed(
                n,
                c,
                road | (1u64 << i),
            )) ==> (c & e1 != 0 && c & e2 != 0),
{
    let bm = board_mask(n);
    let dw = dilate_of(n, reach_from(n, road, e1)) | e1;
    let de = dilate_of(n, reach_from(n, road, e2)) | e2;
    let h = dw & de & (!(road | block) & bm);
    assert(((h >> i) & 1 == 1) ==> (i < 64 && (1u64 << i) & h == (1u64 << i) && (1u64 << i) != 0))
        by (bit_vector);
    let t = 1u64 << i;
    lemma_sub(t, h, 0);
    lemma_sub(dw & de, !(road | block) & bm, 0);
    lemma_sub(dw, de, 0);
    lemma_sub(t, h, dw & de);
    lemma_sub(t, dw & de, dw);
    lemma_sub(t, dw & de, de);
    lemma_sub(t, h, !(road | block) & bm);
    assert((t & (!(road | block) & bm) == t) ==> (t & road == 0 && t & block == 0 && t & bm == t))
        by (bit_vector);
    lemma_sub(t, !(road | block) & bm, 0);
    assert((t & bm == t && t != 0 && t == 1u64 << i && 3 <= n && n <= 8 && bm == board_mask(n))
        ==> i < n * n) by (bit_vector);
    assert((t & road == 0 && t & block == 0 && t == 1u64 << i && i < 64) ==> ((road >> i) & 1 != 1
        && (block >> i) & 1 != 1)) by (bit_vector);
    assert forall|c: u64|
        (c & bm == c && #[trigger] bit(c, i) && adjacency_closed(n, c, road | t)) implies (c & e1
        != 0 && c & e2 != 0) by {
        assert(t & !c == 0) by (bit_vector)
            requires
                (c >> i) & 1 == 1 && i < 64 && t == 1u64 << i,
        ;
        lemma_sub(t, dw, 0);
        lemma_sub(dw, t, 0);
        lemma_closed_set_meets_edge(n, road, e1, t, c);
        lemma_sub(t, de, 0);
        lemma_sub(de, t, 0);
        lemma_closed_set_meets_edge(n, road, e2, t, c);
    }
}

/// Horizontal placement-threat soundness: a square of the horizontal
/// threat map is empty and unblocked, and filling it yields a road map
/// in which the square's connected component touches both the West and
/// the East edge.
pub proof fn lemma_threats_sound_horizontal(n: u64, road: u64, block: u64, i: u64)
    requires
        n_ok(n),
        road & board_mask(n) == road,
        block & board_mask(n) == block,
        bit(h_threats_of(n, road, block), i),
    ensures
        i < n * n,
        !bit(road, i),
        !bit(block, i),
        forall|c: u64|
            (c & board_mask(n) == c && #[trigger] bit(c, i) && adjacency_closed(
                n,
                c,
                road | (1u64 << i),
            )) ==> (c & west_edge(n) != 0 && c & east_edge(n) != 0),
{
    lemma_edges_in_board(n);
    lemma_threats_sound_axis(n, road, block, west_edge(n), east_edge(n), i);
}

/// Vertical placement-threat soundness, South edge to North edge.
pub proof fn lemma_threats_sound_vertical(n: u64, road: u64, block: u64, i: u64)
    requires
        n_ok(n),
        road & board_mask(n) == road,
        block & board_mask(n) == block,
        bit(v_threats_of(n, road, block), i),
    ensures
        i < n * n,
        !bit(road, i),
        !bit(block, i),
        forall|c: u64|
            (c & board_mask(n) == c && #[trigger] bit(c, i) && adjacency_closed(
                n,
                c,
                road | (1u64 << i),
            )) ==> (c & south_edge(n) != 0 && c & north_edge(n) != 0),
{
    lemma_edges_in_board(n);
    lemma_threats_sound_axis(n, road, block, south_edge(n), north_edge(n), i);
}
} // verus!
