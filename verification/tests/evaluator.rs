use takeval::bitmap::Bitmap;
use takeval::eval::{evaluate, evaluate_captured_flats, evaluate_material,
    evaluate_placement_threats, evaluate_road_groups, evaluate_road_slices, Metadata, Resolution,
    State, WEIGHT_FLATSTONE};
use takeval::Color;

fn empty_metadata<const N: usize>() -> Metadata<N> {
    Metadata {
        flatstones: Bitmap { raw: 0 },
        standing_stones: Bitmap { raw: 0 },
        capstones: Bitmap { raw: 0 },
        p1_pieces: Bitmap { raw: 0 },
        p2_pieces: Bitmap { raw: 0 },
        p1_stacks: [[0u8; N]; N],
        p2_stacks: [[0u8; N]; N],
    }
}

#[test]
fn empty_board_evaluates_to_zero() {
    let state: State<5> = State {
        metadata: empty_metadata(),
        to_move: Color::White,
        ply_count: 0,
        half_komi: 0,
        resolution: None,
    };
    assert_eq!(evaluate(&state), 0);
}

#[test]
fn road_win_for_mover_scores_win_minus_ply() {
    let state: State<5> = State {
        metadata: empty_metadata(),
        to_move: Color::White,
        ply_count: 10,
        half_komi: 0,
        resolution: Some(Resolution::Road(Color::White)),
    };
    assert_eq!(evaluate(&state), 1_000_000 - 10);
}

#[test]
fn road_win_for_opponent_scores_lose_plus_ply() {
    let state: State<5> = State {
        metadata: empty_metadata(),
        to_move: Color::Black,
        ply_count: 10,
        half_komi: 0,
        resolution: Some(Resolution::Road(Color::White)),
    };
    assert_eq!(evaluate(&state), -1_000_000 + 10);
}

#[test]
fn flat_win_discards_margin() {
    let state: State<6> = State {
        metadata: empty_metadata(),
        to_move: Color::Black,
        ply_count: 36,
        half_komi: 0,
        resolution: Some(Resolution::Flats { color: Color::Black, margin: 7 }),
    };
    assert_eq!(evaluate(&state), 1_000_000 - 36);
}

#[test]
fn draw_scores_minus_ply() {
    let state: State<6> = State {
        metadata: empty_metadata(),
        to_move: Color::White,
        ply_count: 80,
        half_komi: 0,
        resolution: Some(Resolution::Draw),
    };
    assert_eq!(evaluate(&state), -80);
}

#[test]
fn decisive_terminal_scores_leave_the_heuristic_band() {
    let state: State<6> = State {
        metadata: empty_metadata(),
        to_move: Color::White,
        ply_count: 1999,
        half_komi: 0,
        resolution: Some(Resolution::Road(Color::White)),
    };
    let v = evaluate(&state);
    assert!(v.abs() > 1_000_000 - 2000);
}

/// A small 6x6 position: White flatstones on a1 and b1, a Black
/// flatstone on c3.
fn small_position() -> Metadata<6> {
    // a1: y=0, file 0 -> bit 5; b1: file 1 -> bit 4; c3: y=2, file 2 -> bit 15.
    let p1 = (1u64 << 5) | (1u64 << 4);
    let p2 = 1u64 << 15;
    let mut p1_stacks = [[0u8; 6]; 6];
    let mut p2_stacks = [[0u8; 6]; 6];
    p1_stacks[0][0] = 1;
    p1_stacks[1][0] = 1;
    p2_stacks[2][2] = 1;
    Metadata {
        flatstones: Bitmap { raw: p1 | p2 },
        standing_stones: Bitmap { raw: 0 },
        capstones: Bitmap { raw: 0 },
        p1_pieces: Bitmap { raw: p1 },
        p2_pieces: Bitmap { raw: p2 },
        p1_stacks,
        p2_stacks,
    }
}

#[test]
fn evaluate_is_deterministic() {
    let make = || State::<6> {
        metadata: small_position(),
        to_move: Color::White,
        ply_count: 4,
        half_komi: 0,
        resolution: None,
    };
    let a = make();
    let b = make();
    assert_eq!(evaluate(&a), evaluate(&b));
}

#[test]
fn color_swap_preserves_the_score() {
    let m = small_position();
    let swapped = Metadata::<6> {
        flatstones: m.flatstones,
        standing_stones: m.standing_stones,
        capstones: m.capstones,
        p1_pieces: m.p2_pieces,
        p2_pieces: m.p1_pieces,
        p1_stacks: m.p2_stacks,
        p2_stacks: m.p1_stacks,
    };
    let s = State::<6> {
        metadata: small_position(),
        to_move: Color::White,
        ply_count: 4,
        half_komi: 0,
        resolution: None,
    };
    let t = State::<6> {
        metadata: swapped,
        to_move: Color::Black,
        ply_count: 4,
        half_komi: 0,
        resolution: None,
    };
    assert_eq!(evaluate(&s), evaluate(&t));
}

#[test]
fn adding_a_flatstone_raises_material_by_its_scaled_weight() {
    let before = empty_metadata::<6>();
    // Place one white flatstone on d4 (y=3, file 3 -> bit 20).
    let b = 1u64 << 20;
    let mut after = empty_metadata::<6>();
    after.flatstones = Bitmap { raw: b };
    after.p1_pieces = Bitmap { raw: b };
    after.p1_stacks[3][3] = 1;
    let delta =
        evaluate_material(&after, after.p1_pieces) - evaluate_material(&before, before.p1_pieces);
    assert_eq!(delta, WEIGHT_FLATSTONE / 6);
}

#[test]
fn evaluate_sums_the_kernels_for_both_players() {
    let m = small_position();
    let s = State::<6> {
        metadata: small_position(),
        to_move: Color::White,
        ply_count: 4,
        half_komi: 0,
        resolution: None,
    };
    let road = m.flatstones.raw | m.capstones.raw;
    let all = m.p1_pieces.raw | m.p2_pieces.raw;
    let p1_road = Bitmap::<6> { raw: road & m.p1_pieces.raw };
    let p2_road = Bitmap::<6> { raw: road & m.p2_pieces.raw };
    let p1 = evaluate_material(&m, m.p1_pieces) + evaluate_road_groups(p1_road)
        + evaluate_road_slices(p1_road)
        + evaluate_captured_flats(m.p1_pieces, &m.p1_stacks, &m.p2_stacks)
        + evaluate_placement_threats(p1_road, Bitmap { raw: all & !p1_road.raw & 0xfffffffff });
    let p2 = evaluate_material(&m, m.p2_pieces) + evaluate_road_groups(p2_road)
        + evaluate_road_slices(p2_road)
        + evaluate_captured_flats(m.p2_pieces, &m.p2_stacks, &m.p1_stacks)
        + evaluate_placement_threats(p2_road, Bitmap { raw: all & !p2_road.raw & 0xfffffffff });
    assert_eq!(evaluate(&s), p1 - p2);
}
