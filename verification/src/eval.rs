//! The position evaluator: terminal scoring and the five sub-feature
//! kernels (material, road groups, road slices, captured flats,
//! placement threats), each pinned to a spec-level formula.

use vstd::prelude::*;
use vstd::arithmetic::div_mod::{lemma_div_is_ordered, lemma_div_is_ordered_by_denominator};

use crate::bitmap::{board_mask, col_mask, dilate_of, east_edge, flood_spec, groups_seq, height_of,
    north_edge, row_mask, south_edge, west_edge, width_of, Bitmap};
use crate::bits::{bit, count_ones_u8, lemma_popcount_le_64, lemma_popcount_zero, popcount};
use crate::Color;
use crate::Direction;

verus! {

/// How a finished game ended.
#[derive(Copy, Clone, PartialEq, Eq, Structural, Debug)]
pub enum Resolution {
    Road(Color),
    Flats { color: Color, margin: i32 },
    Draw,
}

/// A win for the side to move, before the distance-to-mate adjustment.
pub const WIN: i32 = 1_000_000;

/// A loss for the side to move, before the distance-to-mate adjustment.
pub const LOSE: i32 = -1_000_000;

/// The evaluation of a balanced position.
pub const ZERO: i32 = 0;

/// The greatest number of plies after which a decisive terminal score
/// still stands clear of every heuristic score: non-terminal scores
/// stay strictly inside `(LOSE + MAX_PLY, WIN - MAX_PLY)`.
pub const MAX_PLY: i32 = 2000;

/// Weight of each of a player's top-most flatstones.
pub const WEIGHT_FLATSTONE: i32 = 2000;

/// Weight of each of a player's top-most standing stones.
pub const WEIGHT_STANDING_STONE: i32 = 1000;

/// Weight of each of a player's capstones.
pub const WEIGHT_CAPSTONE: i32 = 1500;

/// Weight (a penalty) per unit of road-group bounding-box span.
pub const WEIGHT_ROAD_GROUP: i32 = -500;

/// Weight of each row or column holding a road-piece.
pub const WEIGHT_ROAD_SLICE: i32 = 250;

/// Weight of each friendly flatstone captured under a player's stack.
pub const WEIGHT_HARD_FLAT: i32 = 500;

/// Weight (a penalty) of each enemy flatstone under a player's stack.
pub const WEIGHT_SOFT_FLAT: i32 = -250;

/// Weight of each road-completing placement square.
pub const WEIGHT_PLACEMENT_THREAT: i32 = 1000;

/// The player's count of pieces of their own color in the stack on
/// square `i` of the board (bit `i` of the piece bitmaps): stacks are
/// indexed `[x][y]` with `x` the file from the West edge and `y` the
/// row from the South edge, while bit columns grow toward the West.
pub open spec fn stack_of<const N: usize>(s: [[u8; N]; N], i: u64) -> u8 {
    s@[N as int - 1 - ((i % (N as u64)) as int)]@[(i / (N as u64)) as int]
}

/// Every square a player owns holds at least one piece of that player.
pub open spec fn stacks_cover<const N: usize>(p: u64, s: [[u8; N]; N]) -> bool {
    forall|i: u64| i < (N * N) as u64 && #[trigger] bit(p, i) ==> stack_of::<N>(s, i) != 0
}

/// The read-only projection of a game state that the evaluator consumes.
pub struct Metadata<const N: usize> {
    pub flatstones: Bitmap<N>,
    pub standing_stones: Bitmap<N>,
    pub capstones: Bitmap<N>,
    pub p1_pieces: Bitmap<N>,
    pub p2_pieces: Bitmap<N>,
    pub p1_stacks: [[u8; N]; N],
    pub p2_stacks: [[u8; N]; N],
}

impl<const N: usize> Metadata<N> {
    /// The invariants the rules engine maintains: bitmaps live on the
    /// board, every occupied square has exactly one owner and one piece
    /// kind, and an owned square holds a piece of its owner.
    pub open spec fn wf(self) -> bool {
        &&& self.flatstones.wf()
        &&& self.standing_stones.wf()
        &&& self.capstones.wf()
        &&& self.p1_pieces.wf()
        &&& self.p2_pieces.wf()
        &&& self.flatstones.raw & self.standing_stones.raw == 0
        &&& self.flatstones.raw & self.capstones.raw == 0
        &&& self.standing_stones.raw & self.capstones.raw == 0
        &&& self.p1_pieces.raw & self.p2_pieces.raw == 0
        &&& (self.p1_pieces.raw | self.p2_pieces.raw) == (self.flatstones.raw
            | self.standing_stones.raw | self.capstones.raw)
        &&& stacks_cover::<N>(self.p1_pieces.raw, self.p1_stacks)
        &&& stacks_cover::<N>(self.p2_pieces.raw, self.p2_stacks)
    }
}

/// A game state at the moment of evaluation.
pub struct State<const N: usize> {
    pub metadata: Metadata<N>,
    pub to_move: Color,
    pub ply_count: u32,
    pub half_komi: i32,
    pub resolution: Option<Resolution>,
}

impl<const N: usize> State<N> {
    pub open spec fn wf(self) -> bool {
        self.metadata.wf()
    }

    /// The player whose turn it is.
    pub fn to_move(&self) -> (r: Color)
        ensures
            r == self.to_move,
    {
        self.to_move
    }

    /// The terminal resolution the rules engine reported, if any.
    pub fn resolution(&self) -> (r: Option<Resolution>)
        ensures
            r == self.resolution,
    {
        self.resolution
    }
}

/// The material kernel: each top-most piece scores its kind's weight,
/// scaled down by the board size.
pub open spec fn material_spec(n: u64, flats: u64, standing: u64, caps: u64, p: u64) -> int {
    (popcount(p & flats) as int) * 2000 / (n as int) + (popcount(p & standing) as int) * 1000 / (
    n as int) + (popcount(p & caps) as int) * 1500 / (n as int)
}

/// The road-group penalty accumulated over the components from `idx` on:
/// each group costs its bounding-box width and height, scaled.
pub open spec fn groups_penalty(n: u64, gs: Seq<u64>, idx: int) -> int
    decreases gs.len() - idx,
{
    if idx < 0 || idx >= gs.len() {
        0
    } else {
        500 * width_of(n, gs[idx]) / (n as int) + 500 * height_of(n, gs[idx]) / (n as int)
            + groups_penalty(n, gs, idx + 1)
    }
}

/// The road-groups kernel: a penalty for every unit of bounding-box
/// span of each connected group of road-pieces.
pub open spec fn road_groups_spec(n: u64, road: u64) -> int {
    0 - groups_penalty(n, groups_seq(n, road), 0)
}

/// How many rows below `k` hold a set bit.
pub open spec fn occ_rows(n: u64, b: u64, k: u64) -> int
    decreases k,
{
    if k == 0 {
        0
    } else {
        occ_rows(n, b, (k - 1) as u64) + if b & row_mask(n, (k - 1) as u64) != 0 {
            1int
        } else {
            0int
        }
    }
}

/// How many columns below `k` hold a set bit.
pub open spec fn occ_cols(n: u64, b: u64, k: u64) -> int
    decreases k,
{
    if k == 0 {
        0
    } else {
        occ_cols(n, b, (k - 1) as u64) + if b & col_mask(n, (k - 1) as u64) != 0 {
            1int
        } else {
            0int
        }
    }
}

/// The road-slices kernel: a bonus per row and per column holding at
/// least one road-piece.
pub open spec fn road_slices_spec(n: u64, road: u64) -> int {
    (occ_rows(n, road, n) + occ_cols(n, road, n)) * (250int / (n as int))
}

/// Friendly pieces buried under the player's top pieces, over squares
/// below bit `i`.
pub open spec fn hard_acc<const N: usize>(p: u64, ps: [[u8; N]; N], i: u64) -> int
    decreases i,
{
    if i == 0 {
        0
    } else {
        hard_acc::<N>(p, ps, (i - 1) as u64) + if bit(p, (i - 1) as u64) {
            (popcount(stack_of::<N>(ps, (i - 1) as u64) as u64) as int) - 1
        } else {
            0int
        }
    }
}

/// Enemy pieces buried under the player's top pieces, over squares
/// below bit `i`.
pub open spec fn soft_acc<const N: usize>(p: u64, os: [[u8; N]; N], i: u64) -> int
    decreases i,
{
    if i == 0 {
        0
    } else {
        soft_acc::<N>(p, os, (i - 1) as u64) + if bit(p, (i - 1) as u64) {
            popcount(stack_of::<N>(os, (i - 1) as u64) as u64) as int
        } else {
            0int
        }
    }
}

/// The captured-flats kernel: friendly captives score, enemy captives
/// under the player's stacks cost.
pub open spec fn captured_spec<const N: usize>(
    p: u64,
    ps: [[u8; N]; N],
    os: [[u8; N]; N],
) -> int {
    hard_acc::<N>(p, ps, (N * N) as u64) * 500 / (N as int) - soft_acc::<N>(p, os, (N * N) as u64)
        * 250 / (N as int)
}

/// The winning color a terminal resolution names, if any.
pub open spec fn winner_of(res: Option<Resolution>) -> Option<Color> {
    match res {
        Some(Resolution::Road(c)) => Some(c),
        Some(Resolution::Flats { color, margin: _ }) => Some(color),
        _ => None,
    }
}

/// The squares of `road` 4-connected to the given edge.
pub open spec fn reach_from(n: u64, road: u64, edge: u64) -> u64 {
    flood_spec(n, road & edge, road, 64)
}

/// The empty squares whose filling joins the West and East edges: a
/// square does so if, on each side, it either borders road-pieces
/// connected to that edge or lies on that edge itself.
pub open spec fn h_threats_of(n: u64, road: u64, block: u64) -> u64 {
    (dilate_of(n, reach_from(n, road, west_edge(n))) | west_edge(n)) & (dilate_of(
        n,
        reach_from(n, road, east_edge(n)),
    ) | east_edge(n)) & (!(road | block) & board_mask(n))
}

/// The empty squares whose filling joins the South and North edges.
pub open spec fn v_threats_of(n: u64, road: u64, block: u64) -> u64 {
    (dilate_of(n, reach_from(n, road, south_edge(n))) | south_edge(n)) & (dilate_of(
        n,
        reach_from(n, road, north_edge(n)),
    ) | north_edge(n)) & (!(road | block) & board_mask(n))
}

/// The placement-threats kernel: a bonus per road-completing square.
pub open spec fn threats_spec(n: u64, road: u64, block: u64) -> int {
    ((popcount(h_threats_of(n, road, block)) + popcount(v_threats_of(n, road, block))) as int)
        * 1000 / (n as int)
}

/// One player's whole heuristic score.
pub open spec fn player_score_spec<const N: usize>(
    m: Metadata<N>,
    p: u64,
    ps: [[u8; N]; N],
    os: [[u8; N]; N],
) -> int {
    let n = N as u64;
    let road = (m.flatstones.raw | m.capstones.raw) & p;
    let block = (m.p1_pieces.raw | m.p2_pieces.raw) & !road;
    material_spec(n, m.flatstones.raw, m.standing_stones.raw, m.capstones.raw, p) + road_groups_spec(
        n,
        road,
    ) + road_slices_spec(n, road) + captured_spec::<N>(p, ps, os) + threats_spec(n, road, block)
}

/// What `evaluate` returns, from the side-to-move's perspective:
/// terminal positions score by distance to mate, all others by the
/// difference of the players' heuristic scores.
pub open spec fn eval_spec<const N: usize>(s: State<N>) -> int {
    match s.resolution {
        Some(Resolution::Road(c)) => if c == s.to_move {
            WIN - s.ply_count
        } else {
            LOSE + s.ply_count
        },
        Some(Resolution::Flats { color: c, margin: _ }) => if c == s.to_move {
            WIN - s.ply_count
        } else {
            LOSE + s.ply_count
        },
        Some(Resolution::Draw) => ZERO - s.ply_count,
        None => {
            let p1 = player_score_spec::<N>(s.metadata, s.metadata.p1_pieces.raw, s.metadata.p1_stacks, s.metadata.p2_stacks);
            let p2 = player_score_spec::<N>(s.metadata, s.metadata.p2_pieces.raw, s.metadata.p2_stacks, s.metadata.p1_stacks);
            if s.to_move == Color::White {
                p1 - p2
            } else {
                p2 - p1
            }
        },
    }
}

/// A quotient shrinks when the dividend is capped and the divisor is at
/// least the board-size minimum.
proof fn lemma_udiv_bound(x: int, n: int, c: int)
    requires
        3 <= n,
        0 <= x <= c,
    ensures
        0 <= x / n <= c / 3,
        x / n <= x,
{
    lemma_div_is_ordered_by_denominator(x, 3, n);
    lemma_div_is_ordered(x, c, 3);
    lemma_div_is_ordered_by_denominator(x, 1, n);
}

/// Scores a player's top-most pieces by kind.
pub fn evaluate_material<const N: usize>(m: &Metadata<N>, player_pieces: Bitmap<N>) -> (r: i32)
    requires
        m.wf(),
        player_pieces.wf(),
    ensures
        r == material_spec(
            N as u64,
            m.flatstones.raw,
            m.standing_stones.raw,
            m.capstones.raw,
            player_pieces.raw,
        ),
        0 <= r <= 96000,
{
    let n = N as u64;
    let flats = player_pieces.and(m.flatstones).count_ones() as u64;
    let standing = player_pieces.and(m.standing_stones).count_ones() as u64;
    let caps = player_pieces.and(m.capstones).count_ones() as u64;
    proof {
        lemma_udiv_bound(flats * 2000, n as int, 128000);
        lemma_udiv_bound(standing * 1000, n as int, 64000);
        lemma_udiv_bound(caps * 1500, n as int, 96000);
    }
    let e = flats * 2000 / n + standing * 1000 / n + caps * 1500 / n;
    e as i32
}

/// Scores a player's road-contributing groups by how much of the board
/// they span in each direction.
pub fn evaluate_road_groups<const N: usize>(player_road_pieces: Bitmap<N>) -> (r: i32)
    requires
        player_road_pieces.wf(),
    ensures
        r == road_groups_spec(N as u64, player_road_pieces.raw),
        -173000 <= r <= 0,
{
    let n = N as u64;
    let gs = player_road_pieces.groups();
    proof {
        crate::bitmap::lemma_groups_props(n, player_road_pieces.raw);
        crate::bitmap::lemma_count_le_sum(groups_seq(n, player_road_pieces.raw));
        lemma_popcount_le_64(player_road_pieces.raw);
    }
    let ghost gseq = groups_seq(n, player_road_pieces.raw);
    let mut penalty: u64 = 0;
    let mut idx: usize = 0;
    proof {
        assert(gseq.len() <= 64);
    }
    while idx < gs.len()
        invariant
            player_road_pieces.wf(),
            n == N as u64,
            gseq == groups_seq(n, player_road_pieces.raw),
            gs@.map_values(|g: Bitmap<N>| g.raw) == gseq,
            forall|i: int| 0 <= i < gs@.len() ==> (#[trigger] gs@[i]).wf(),
            forall|i: int| 0 <= i < gseq.len() ==> #[trigger] gseq[i] != 0,
            idx <= gs.len(),
            gseq.len() <= 64,
            penalty <= idx * 2700,
            penalty + groups_penalty(n, gseq, idx as int) == groups_penalty(n, gseq, 0),
        decreases gs.len() - idx,
    {
        let g = gs[idx];
        proof {
            assert(g.raw == gseq[idx as int]);
        }
        let w = g.width();
        let h = g.height();
        proof {
            lemma_udiv_bound(w * 500, n as int, 4000);
            lemma_udiv_bound(h * 500, n as int, 4000);
            assert(500 * width_of(n, g.raw) == (w * 500) as int);
            assert(500 * height_of(n, g.raw) == (h * 500) as int);
        }
        penalty = penalty + (w * 500 / n + h * 500 / n);
        idx = idx + 1;
    }
    proof {
        assert(groups_penalty(n, gseq, gseq.len() as int) == 0);
    }
    0i32 - (penalty as i32)
}

/// Returns a bonus for each horizontal and vertical slice of the board
/// that a player has at least one road-contributing piece in.
pub fn evaluate_road_slices<const N: usize>(player_road_pieces: Bitmap<N>) -> (r: i32)
    requires
        player_road_pieces.wf(),
    ensures
        r == road_slices_spec(N as u64, player_road_pieces.raw),
        0 <= r <= 1400,
{
    let n = N as u64;
    let b = player_road_pieces.raw;
    let south = Bitmap::<N>::edge_mask(Direction::South);
    let east = Bitmap::<N>::edge_mask(Direction::East);
    let mut count: u64 = 0;
    let mut k: u64 = 0;
    while k < n
        invariant
            player_road_pieces.wf(),
            n == N as u64,
            b == player_road_pieces.raw,
            south.raw == south_edge(n),
            k <= n,
            count == occ_rows(n, b, k),
            count <= k,
        decreases n - k,
    {
        proof {
            assert(k * n <= 56) by (nonlinear_arith)
                requires
                    k < n <= 8,
            ;
        }
        if b & (south.raw << (k * n)) != 0 {
            count = count + 1;
        }
        k = k + 1;
    }
    let mut c: u64 = 0;
    while c < n
        invariant
            player_road_pieces.wf(),
            n == N as u64,
            b == player_road_pieces.raw,
            east.raw == east_edge(n),
            c <= n,
            count - occ_rows(n, b, n) == occ_cols(n, b, c),
            count <= n + c,
        decreases n - c,
    {
        if b & (east.raw << c) != 0 {
            count = count + 1;
        }
        c = c + 1;
    }
    proof {
        lemma_udiv_bound(250, n as int, 250);
    }
    let per = 250 / n;
    proof {
        assert(count <= 16 && per <= 83);
        assert(count * per <= 1328) by (nonlinear_arith)
            requires
                count <= 16 && per <= 83,
        ;
    }
    (count * per) as i32
}

/// Scores a player's stacks by how many of each player's flatstones are
/// contained within them.
pub fn evaluate_captured_flats<const N: usize>(
    player_pieces: Bitmap<N>,
    player_stacks: &[[u8; N]; N],
    opponent_stacks: &[[u8; N]; N],
) -> (r: i32)
    requires
        player_pieces.wf(),
        stacks_cover::<N>(player_pieces.raw, *player_stacks),
    ensures
        r == captured_spec::<N>(player_pieces.raw, *player_stacks, *opponent_stacks),
        -43000 <= r <= 75000,
{
    let n = N as u64;
    proof {
        assert(N * N <= 64) by (nonlinear_arith)
            requires
                N <= 8,
        ;
    }
    let nn = (N * N) as u64;
    let p = player_pieces.raw;
    let mut hard: u64 = 0;
    let mut soft: u64 = 0;
    let mut i: u64 = 0;
    while i < nn
        invariant
            player_pieces.wf(),
            stacks_cover::<N>(player_pieces.raw, *player_stacks),
            n == N as u64,
            nn == (N * N) as u64,
            nn <= 64,
            p == player_pieces.raw,
            i <= nn,
            hard == hard_acc::<N>(p, *player_stacks, i),
            soft == soft_acc::<N>(p, *opponent_stacks, i),
            hard <= 7 * i,
            soft <= 8 * i,
        decreases nn - i,
    {
        let xq = i % n;
        proof {
            assert(i / n < n) by (nonlinear_arith)
                requires
                    i < n * n && n >= 1,
            ;
            assert(xq < n) by (nonlinear_arith)
                requires
                    xq == i % n && n >= 1,
            ;
        }
        let y = (i / n) as usize;
        let x = (N - 1) - (xq as usize);
        let owned = (p >> i) & 1;
        proof {
            assert(((p >> i) & 1 == 1) == bit(p, i));
            assert((p >> i) & 1 <= 1) by (bit_vector);
        }
        if owned == 1 {
            let ps = count_ones_u8(player_stacks[x][y]);
            let os = count_ones_u8(opponent_stacks[x][y]);
            proof {
                assert(player_stacks@[x as int]@[y as int] == stack_of::<N>(*player_stacks, i));
                assert(opponent_stacks@[x as int]@[y as int] == stack_of::<N>(
                    *opponent_stacks,
                    i,
                ));
                assert(stack_of::<N>(*player_stacks, i) != 0);
                lemma_popcount_zero(stack_of::<N>(*player_stacks, i) as u64);
            }
            hard = hard + ((ps - 1) as u64);
            soft = soft + (os as u64);
        }
        i = i + 1;
    }
    proof {
        lemma_udiv_bound(hard * 500, n as int, 224000);
        lemma_udiv_bound(soft * 250, n as int, 128000);
    }
    let hterm = hard * 500 / n;
    let sterm = soft * 250 / n;
    (hterm as i32) - (sterm as i32)
}

/// From a player's road-pieces and the squares blocking them, the empty
/// squares where placing a flatstone completes a road: horizontally
/// (West to East) in the first map, vertically in the second.
pub fn placement_threat_maps<const N: usize>(
    player_road_pieces: Bitmap<N>,
    blocking_pieces: Bitmap<N>,
) -> (r: (Bitmap<N>, Bitmap<N>))
    requires
        player_road_pieces.wf(),
        blocking_pieces.wf(),
    ensures
        r.0.wf(),
        r.1.wf(),
        r.0.raw == h_threats_of(N as u64, player_road_pieces.raw, blocking_pieces.raw),
        r.1.raw == v_threats_of(N as u64, player_road_pieces.raw, blocking_pieces.raw),
{
    let road = player_road_pieces;
    let open = road.or(blocking_pieces).not();
    let edge_w = Bitmap::<N>::edge_mask(Direction::West);
    let edge_e = Bitmap::<N>::edge_mask(Direction::East);
    let edge_s = Bitmap::<N>::edge_mask(Direction::South);
    let edge_n = Bitmap::<N>::edge_mask(Direction::North);
    let west_seed = road.and(edge_w);
    let east_seed = road.and(edge_e);
    let south_seed = road.and(edge_s);
    let north_seed = road.and(edge_n);
    proof {
        crate::bitmap::lemma_seed_in(road.raw, west_edge(N as u64));
        crate::bitmap::lemma_seed_in(road.raw, east_edge(N as u64));
        crate::bitmap::lemma_seed_in(road.raw, south_edge(N as u64));
        crate::bitmap::lemma_seed_in(road.raw, north_edge(N as u64));
    }
    let reach_w = west_seed.flood(road);
    let reach_e = east_seed.flood(road);
    let reach_s = south_seed.flood(road);
    let reach_n = north_seed.flood(road);
    let h = reach_w.dilate().or(edge_w).and(reach_e.dilate().or(edge_e)).and(open);
    let v = reach_s.dilate().or(edge_s).and(reach_n.dilate().or(edge_n)).and(open);
    (h, v)
}

/// Counts the road-completing placement squares of both axes.
pub fn evaluate_placement_threats<const N: usize>(
    player_road_pieces: Bitmap<N>,
    blocking_pieces: Bitmap<N>,
) -> (r: i32)
    requires
        player_road_pieces.wf(),
        blocking_pieces.wf(),
    ensures
        r == threats_spec(N as u64, player_road_pieces.raw, blocking_pieces.raw),
        0 <= r <= 43000,
{
    let n = N as u64;
    let (h, v) = placement_threat_maps(player_road_pieces, blocking_pieces);
    let hc = h.count_ones() as u64;
    let vc = v.count_ones() as u64;
    proof {
        lemma_udiv_bound((hc + vc) * 1000, n as int, 128000);
    }
    ((hc + vc) * 1000 / n) as i32
}

/// Evaluates a position from the side-to-move's perspective: positive
/// is good for the mover. A reported terminal resolution scores by
/// distance to mate (shorter wins and longer losses are preferred);
/// otherwise the result is the difference of the two players' summed
/// kernels, and stays far inside the terminal bands.
pub fn evaluate<const N: usize>(state: &State<N>) -> (r: i32)
    requires
        state.wf(),
        state.ply_count <= 0x7fffffff,
    ensures
        r == eval_spec(*state),
        winner_of(state.resolution) == Some(state.to_move) ==> r == WIN - state.ply_count,
        winner_of(state.resolution) is Some && winner_of(state.resolution) != Some(state.to_move)
            ==> r == LOSE + state.ply_count,
        state.resolution == Some(Resolution::Draw) ==> r == ZERO - state.ply_count,
        state.resolution is None ==> LOSE + MAX_PLY < r < WIN - MAX_PLY,
{
    match state.resolution() {
        Option::Some(Resolution::Road(color)) | Option::Some(
            Resolution::Flats { color, margin: _ },
        ) => {
            let who = state.to_move();
            if color == who {
                return WIN - state.ply_count as i32;
            } else {
                return LOSE + state.ply_count as i32;
            }
        },
        Option::Some(Resolution::Draw) => {
            return ZERO - state.ply_count as i32;
        },
        Option::None => {},
    }
    let m = &state.metadata;

    let road_pieces = m.flatstones.or(m.capstones);
    let p1_road_pieces = road_pieces.and(m.p1_pieces);
    let p2_road_pieces = road_pieces.and(m.p2_pieces);
    let all_pieces = m.p1_pieces.or(m.p2_pieces);

    let mut p1_eval: i32 = ZERO;
    let mut p2_eval: i32 = ZERO;

    // Material
    p1_eval = p1_eval + evaluate_material(m, m.p1_pieces);
    p2_eval = p2_eval + evaluate_material(m, m.p2_pieces);

    // Road groups
    p1_eval = p1_eval + evaluate_road_groups(p1_road_pieces);
    p2_eval = p2_eval + evaluate_road_groups(p2_road_pieces);

    // Road slices
    p1_eval = p1_eval + evaluate_road_slices(p1_road_pieces);
    p2_eval = p2_eval + evaluate_road_slices(p2_road_pieces);

    // Captured flats
    p1_eval = p1_eval + evaluate_captured_flats(m.p1_pieces, &m.p1_stacks, &m.p2_stacks);
    p2_eval = p2_eval + evaluate_captured_flats(m.p2_pieces, &m.p2_stacks, &m.p1_stacks);

    // Placement threats
    proof {
        crate::bitmap::lemma_block_mask(
            all_pieces.raw,
            p1_road_pieces.raw,
            board_mask(N as u64),
        );
        crate::bitmap::lemma_block_mask(
            all_pieces.raw,
            p2_road_pieces.raw,
            board_mask(N as u64),
        );
    }
    p1_eval = p1_eval + evaluate_placement_threats(
        p1_road_pieces,
        all_pieces.and(p1_road_pieces.not()),
    );
    p2_eval = p2_eval + evaluate_placement_threats(
        p2_road_pieces,
        all_pieces.and(p2_road_pieces.not()),
    );

    match state.to_move() {
        Color::White => p1_eval - p2_eval,
        Color::Black => p2_eval - p1_eval,
    }
}

} // verus!
