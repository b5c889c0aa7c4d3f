use takeval::bitmap::Bitmap;
use takeval::eval::{evaluate_placement_threats, evaluate_road_groups, evaluate_road_slices,
    placement_threat_maps};
use takeval::Direction;

#[test]
fn count_ones_counts_set_bits() {
    let b: Bitmap<6> = Bitmap { raw: 0b1011 };
    assert_eq!(b.count_ones(), 3);
    let e: Bitmap<6> = Bitmap { raw: 0 };
    assert_eq!(e.count_ones(), 0);
}

#[test]
fn edge_masks_of_a_3x3_board() {
    assert_eq!(Bitmap::<3>::edge_mask(Direction::South).raw, 0b111);
    assert_eq!(Bitmap::<3>::edge_mask(Direction::North).raw, 0b111_000_000);
    assert_eq!(Bitmap::<3>::edge_mask(Direction::East).raw, 0b001_001_001);
    assert_eq!(Bitmap::<3>::edge_mask(Direction::West).raw, 0b100_100_100);
}

#[test]
fn groups_partition_the_set_bits() {
    // Two components on 6x6: {a1,b1} (bits 5,4) and {d3} (bit 14).
    let b: Bitmap<6> = Bitmap { raw: (1 << 5) | (1 << 4) | (1 << 14) };
    let groups = b.groups();
    assert_eq!(groups.len(), 2);
    let total: u32 = groups.iter().map(|g| g.count_ones()).sum();
    assert_eq!(total, b.count_ones());
    for g in &groups {
        assert_eq!(g.raw & b.raw, g.raw);
        assert!(g.raw != 0);
    }
    assert_eq!(groups[0].raw | groups[1].raw, b.raw);
    assert_eq!(groups[0].raw & groups[1].raw, 0);
}

#[test]
fn group_spans_give_the_bounding_box() {
    // An L of white road pieces: bits 4,5 (row 0, cols 4,5) and bit 11 (row 1, col 5).
    let b: Bitmap<6> = Bitmap { raw: (1 << 4) | (1 << 5) | (1 << 11) };
    assert_eq!(b.width(), 2);
    assert_eq!(b.height(), 2);
    let single: Bitmap<6> = Bitmap { raw: 1 << 14 };
    assert_eq!(single.width(), 1);
    assert_eq!(single.height(), 1);
}

#[test]
fn road_group_penalty_of_one_single_stone() {
    // One lone road stone on 6x6: width 1, height 1.
    let b: Bitmap<6> = Bitmap { raw: 1 << 14 };
    assert_eq!(evaluate_road_groups(b), -(500 * 1 / 6 + 500 * 1 / 6));
}

#[test]
fn road_slices_count_occupied_lines() {
    // Road pieces on a1 (bit 5) and b2 (bit 10): two rows, two columns.
    let b: Bitmap<6> = Bitmap { raw: (1 << 5) | (1 << 10) };
    assert_eq!(evaluate_road_slices(b), 4 * (250 / 6));
    let empty: Bitmap<6> = Bitmap { raw: 0 };
    assert_eq!(evaluate_road_slices(empty), 0);
}

#[test]
fn placement_threat_on_the_open_end_of_a_row() {
    // 5x5: White flatstones a1..d1 (bits 4,3,2,1), e1 (bit 0) empty.
    let road: Bitmap<5> = Bitmap { raw: 0b11110 };
    let blocking: Bitmap<5> = Bitmap { raw: 0 };
    let (h, v) = placement_threat_maps(road, blocking);
    assert_eq!(h.raw & 1, 1, "e1 completes the horizontal road");
    assert_eq!(v.raw, 0);
    assert_eq!(evaluate_placement_threats(road, blocking), 1 * 1000 / 5);
}

#[test]
fn a_blocked_end_is_no_placement_threat() {
    // As above, but a Black standing stone occupies e1.
    let road: Bitmap<5> = Bitmap { raw: 0b11110 };
    let blocking: Bitmap<5> = Bitmap { raw: 0b00001 };
    let (h, _v) = placement_threat_maps(road, blocking);
    assert_eq!(h.raw & 1, 0);
    assert_eq!(evaluate_placement_threats(road, blocking), 0);
}

#[test]
fn threat_squares_are_empty_and_unblocked() {
    let road: Bitmap<5> = Bitmap { raw: 0b11110 };
    let blocking: Bitmap<5> = Bitmap { raw: 0 };
    let (h, v) = placement_threat_maps(road, blocking);
    assert_eq!(h.raw & road.raw, 0);
    assert_eq!(h.raw & blocking.raw, 0);
    assert_eq!(v.raw & road.raw, 0);
}

#[test]
fn dilate_adds_the_four_neighbours() {
    // A single stone on c3 of a 5x5 board: bit index 2*5 + 2 = 12.
    let b: Bitmap<5> = Bitmap { raw: 1 << 12 };
    let d = b.dilate();
    let expected = (1u64 << 12) | (1 << 7) | (1 << 17) | (1 << 11) | (1 << 13);
    assert_eq!(d.raw, expected);
}

#[test]
fn directional_shifts_respect_the_edges() {
    // A stone on the East edge of a 4x4 board (bit 0) cannot move East.
    let b: Bitmap<4> = Bitmap { raw: 1 };
    assert_eq!(b.east().raw, 0);
    assert_eq!(b.west().raw, 0b10);
    assert_eq!(b.north().raw, 1 << 4);
    assert_eq!(b.south().raw, 0);
}

#[test]
fn threats_on_both_axes_divide_the_summed_count_once() {
    // 6x6: White road pieces on a1..e1 (bits 5..1) and c2..c5 (bits
    // 9, 15, 21, 27), nothing blocking. Exactly f1 (bit 0) completes a
    // horizontal road and c6 (bit 33) a vertical one, and the kernel
    // scores the summed count with a single scaled division.
    let road: Bitmap<6> = Bitmap {
        raw: (1 << 5) | (1 << 4) | (1 << 3) | (1 << 2) | (1 << 1) | (1 << 9) | (1 << 15)
            | (1 << 21) | (1 << 27),
    };
    let blocking: Bitmap<6> = Bitmap { raw: 0 };
    let (h, v) = placement_threat_maps(road, blocking);
    assert_eq!(h.raw, 1);
    assert_eq!(v.raw, 1 << 33);
    assert_eq!(evaluate_placement_threats(road, blocking), (1 + 1) * 1000 / 6);
}
