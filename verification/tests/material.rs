use takeval::bitmap::Bitmap;
use takeval::eval::{evaluate_material, Metadata, WEIGHT_CAPSTONE, WEIGHT_FLATSTONE,
    WEIGHT_STANDING_STONE};

/// Builds the evaluator's position view from the board part of a TPS
/// string: rows from the North rank down, cells from file a (West)
/// rightward, `xK` for K empty squares, digit strings bottom-to-top
/// with `1` for White and `2` for Black, and a trailing `S` or `C` for
/// a standing stone or capstone on top.
fn metadata_from_tps6(tps: &str) -> Metadata<6> {
    let board = tps.split(' ').next().unwrap();
    let mut flats: u64 = 0;
    let mut standing: u64 = 0;
    let mut caps: u64 = 0;
    let mut p1: u64 = 0;
    let mut p2: u64 = 0;
    let mut p1_stacks = [[0u8; 6]; 6];
    let mut p2_stacks = [[0u8; 6]; 6];
    for (ri, row) in board.split('/').enumerate() {
        let y = 5 - ri;
        let mut fx = 0usize;
        for cell in row.split(',') {
            let bytes = cell.as_bytes();
            if bytes[0] == b'x' {
                let run = if bytes.len() > 1 {
                    (bytes[1] - b'0') as usize
                } else {
                    1
                };
                fx += run;
                continue;
            }
            let (kind, digits) = match bytes[bytes.len() - 1] {
                b'S' => (b'S', &bytes[..bytes.len() - 1]),
                b'C' => (b'C', &bytes[..bytes.len() - 1]),
                _ => (b'F', bytes),
            };
            let mut p1w = 0u8;
            let mut p2w = 0u8;
            for (j, d) in digits.iter().enumerate() {
                // The composition word records the lowest eight pieces.
                if j >= 8 {
                    break;
                }
                if *d == b'1' {
                    p1w |= 1 << j;
                } else {
                    p2w |= 1 << j;
                }
            }
            let i = y * 6 + (5 - fx);
            let b = 1u64 << i;
            if *digits.last().unwrap() == b'1' {
                p1 |= b;
            } else {
                p2 |= b;
            }
            match kind {
                b'S' => standing |= b,
                b'C' => caps |= b,
                _ => flats |= b,
            }
            p1_stacks[fx][y] = p1w;
            p2_stacks[fx][y] = p2w;
            fx += 1;
        }
    }
    Metadata {
        flatstones: Bitmap { raw: flats },
        standing_stones: Bitmap { raw: standing },
        capstones: Bitmap { raw: caps },
        p1_pieces: Bitmap { raw: p1 },
        p2_pieces: Bitmap { raw: p2 },
        p1_stacks,
        p2_stacks,
    }
}

#[test]
fn material() {
    let m = metadata_from_tps6("x6/x4,2,1/x2,2,2C,1,2/x2,2,x,1,1/x5,1/x6 1 6");
    assert_eq!(evaluate_material(&m, m.p1_pieces), 5 * WEIGHT_FLATSTONE / 6);
    assert_eq!(
        evaluate_material(&m, m.p2_pieces),
        4 * WEIGHT_FLATSTONE / 6 + 1 * WEIGHT_CAPSTONE / 6,
    );

    let m = metadata_from_tps6(
        "x2,21,122,1121S,112S/1S,x,1112,x,2S,x/112C,2S,x,1222221C,2,x/2,x2,1,2121S,x/112,1112111112S,x3,221S/2,2,x2,21,2 1 56",
    );
    assert_eq!(
        evaluate_material(&m, m.p1_pieces),
        3 * WEIGHT_FLATSTONE / 6 + 4 * WEIGHT_STANDING_STONE / 6 + 1 * WEIGHT_CAPSTONE / 6,
    );
    assert_eq!(
        evaluate_material(&m, m.p2_pieces),
        8 * WEIGHT_FLATSTONE / 6 + 4 * WEIGHT_STANDING_STONE / 6 + 1 * WEIGHT_CAPSTONE / 6,
    );
}
