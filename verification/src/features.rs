//! Support for the learned evaluator's explainer: the canonical
//! feature-name table, selection of the nonzero features of an input
//! vector, and the mask-perturbation contract. Feature values are the
//! raw integer counts the extractor produces; turning them into reals
//! and running the model is the caller's affair.

use vstd::prelude::*;

verus! {

/// The names selected from `names` at the positions where `values` is
/// nonzero, in order, starting at position `i`.
pub open spec fn gathered_spec(names: Seq<&'static str>, values: Seq<i64>, i: int) -> Seq<
    &'static str,
>
    decreases names.len() - i,
{
    if i < 0 || i >= names.len() || i >= values.len() {
        Seq::empty()
    } else if values[i] != 0 {
        seq![names[i]] + gathered_spec(names, values, i + 1)
    } else {
        gathered_spec(names, values, i + 1)
    }
}

/// The names of the features with a nonzero value, in canonical order.
pub fn gather_feature_names(names: &Vec<&'static str>, values: &Vec<i64>) -> (r: Vec<
    &'static str,
>)
    requires
        names@.len() == values@.len(),
    ensures
        r@ == gathered_spec(names@, values@, 0),
{
    let mut out: Vec<&'static str> = Vec::new();
    let mut i: usize = 0;
    while i < names.len()
        invariant
            names@.len() == values@.len(),
            i <= names@.len(),
            gathered_spec(names@, values@, 0) == out@ + gathered_spec(names@, values@, i as int),
        decreases names@.len() - i,
    {
        if values[i] != 0 {
            let ghost prev = out@;
            out.push(names[i]);
            proof {
                assert(out@ =~= prev + seq![names@[i as int]]);
                assert(prev + (seq![names@[i as int]] + gathered_spec(
                    names@,
                    values@,
                    i + 1,
                )) =~= out@ + gathered_spec(names@, values@, i + 1));
            }
        }
        i = i + 1;
    }
    proof {
        assert(out@ + Seq::<&'static str>::empty() =~= out@);
    }
    out
}

/// The explainer's perturbation: every originally nonzero entry that
/// the mask drops is zeroed; all other entries are unchanged.
pub fn perturb_values(values: &Vec<i64>, keep: &Vec<bool>) -> (r: Vec<i64>)
    requires
        keep@.len() == values@.len(),
    ensures
        r@.len() == values@.len(),
        forall|i: int|
            0 <= i < values@.len() ==> r@[i] == (if values@[i] != 0 && !keep@[i] {
                0i64
            } else {
                values@[i]
            }),
{
    let mut out: Vec<i64> = Vec::new();
    let mut i: usize = 0;
    while i < values.len()
        invariant
            keep@.len() == values@.len(),
            i <= values@.len(),
            out@.len() == i,
            forall|j: int|
                0 <= j < i ==> out@[j] == (if values@[j] != 0 && !keep@[j] {
                    0i64
                } else {
                    values@[j]
                }),
        decreases values@.len() - i,
    {
        if values[i] != 0 && !keep[i] {
            out.push(0);
        } else {
            out.push(values[i]);
        }
        i = i + 1;
    }
    out
}

/// How many entries of a mask, up to position `i`, are set.
pub open spec fn count_true(s: Seq<bool>, i: int) -> int
    decreases i,
{
    if i <= 0 {
        0
    } else {
        count_true(s, i - 1) + if s[i - 1] {
            1int
        } else {
            0int
        }
    }
}

/// The number of selected features of a mask. The explainer's sample
/// weight is zero exactly when this is zero; otherwise it is the
/// cosine-kernel weight built from this count.
pub fn mask_count(keep: &Vec<bool>) -> (r: usize)
    ensures
        r == count_true(keep@, keep@.len() as int),
        r <= keep@.len(),
{
    let mut count: usize = 0;
    let mut i: usize = 0;
    while i < keep.len()
        invariant
            i <= keep@.len(),
            count == count_true(keep@, i as int),
            count <= i,
        decreases keep@.len() - i,
    {
        if keep[i] {
            count = count + 1;
        }
        i = i + 1;
    }
    count
}

/// The canonical names of the 6x6 model's 54 features, in the order of
/// the feature vector: side to move, flat-count differential, then
/// twenty-six per-player entries for the player and for the opponent.
pub fn model6s_feature_names() -> (r: Vec<&'static str>)
    ensures
        r@.len() == 54,
        r@[0]@ == "White to move"@,
        r@[1]@ == "Flat count differential"@,
        r@[2]@ == "Player: Reserve flatstones"@,
        r@[3]@ == "Player: Reserve capstones"@,
        r@[4]@ == "Player: Friendlies under flatstones"@,
        r@[5]@ == "Player: Friendlies under standing stones"@,
        r@[6]@ == "Player: Friendlies under capstones"@,
        r@[7]@ == "Player: Captives under flatstones"@,
        r@[8]@ == "Player: Captives under standing stones"@,
        r@[9]@ == "Player: Captives under capstones"@,
        r@[10]@ == "Player: Flatstones in a1 symmetries"@,
        r@[11]@ == "Player: Flatstones in b1 symmetries"@,
        r@[12]@ == "Player: Flatstones in c1 symmetries"@,
        r@[13]@ == "Player: Flatstones in b2 symmetries"@,
        r@[14]@ == "Player: Flatstones in c2 symmetries"@,
        r@[15]@ == "Player: Flatstones in c3 symmetries"@,
        r@[16]@ == "Player: Capstones in a1 symmetries"@,
        r@[17]@ == "Player: Capstones in b1 symmetries"@,
        r@[18]@ == "Player: Capstones in c1 symmetries"@,
        r@[19]@ == "Player: Capstones in b2 symmetries"@,
        r@[20]@ == "Player: Capstones in c2 symmetries"@,
        r@[21]@ == "Player: Capstones in c3 symmetries"@,
        r@[22]@ == "Player: Road groups"@,
        r@[23]@ == "Player: Lines occupied"@,
        r@[24]@ == "Player: Enemy flatstones next to our standing stones"@,
        r@[25]@ == "Player: Enemy flatstones next to our capstones"@,
        r@[26]@ == "Player: Unblocked road completion"@,
        r@[27]@ == "Player: Soft-blocked road completion"@,
        r@[28]@ == "Opponent: Reserve flatstones"@,
        r@[29]@ == "Opponent: Reserve capstones"@,
        r@[30]@ == "Opponent: Friendlies under flatstones"@,
        r@[31]@ == "Opponent: Friendlies under standing stones"@,
        r@[32]@ == "Opponent: Friendlies under capstones"@,
        r@[33]@ == "Opponent: Captives under flatstones"@,
        r@[34]@ == "Opponent: Captives under standing stones"@,
        r@[35]@ == "Opponent: Captives under capstones"@,
        r@[36]@ == "Opponent: Flatstones in a1 symmetries"@,
        r@[37]@ == "Opponent: Flatstones in b1 symmetries"@,
        r@[38]@ == "Opponent: Flatstones in c1 symmetries"@,
        r@[39]@ == "Opponent: Flatstones in b2 symmetries"@,
        r@[40]@ == "Opponent: Flatstones in c2 symmetries"@,
        r@[41]@ == "Opponent: Flatstones in c3 symmetries"@,
        r@[42]@ == "Opponent: Capstones in a1 symmetries"@,
        r@[43]@ == "Opponent: Capstones in b1 symmetries"@,
        r@[44]@ == "Opponent: Capstones in c1 symmetries"@,
        r@[45]@ == "Opponent: Capstones in b2 symmetries"@,
        r@[46]@ == "Opponent: Capstones in c2 symmetries"@,
        r@[47]@ == "Opponent: Capstones in c3 symmetries"@,
        r@[48]@ == "Opponent: Road groups"@,
        r@[49]@ == "Opponent: Lines occupied"@,
        r@[50]@ == "Opponent: Enemy flatstones next to our standing stones"@,
        r@[51]@ == "Opponent: Enemy flatstones next to our capstones"@,
        r@[52]@ == "Opponent: Unblocked road completion"@,
        r@[53]@ == "Opponent: Soft-blocked road completion"@,
{
    let names: Vec<&'static str> = vec![
        "White to move",
        "Flat count differential",
        "Player: Reserve flatstones",
        "Player: Reserve capstones",
        "Player: Friendlies under flatstones",
        "Player: Friendlies under standing stones",
        "Player: Friendlies under capstones",
        "Player: Captives under flatstones",
        "Player: Captives under standing stones",
        "Player: Captives under capstones",
        "Player: Flatstones in a1 symmetries",
        "Player: Flatstones in b1 symmetries",
        "Player: Flatstones in c1 symmetries",
        "Player: Flatstones in b2 symmetries",
        "Player: Flatstones in c2 symmetries",
        "Player: Flatstones in c3 symmetries",
        "Player: Capstones in a1 symmetries",
        "Player: Capstones in b1 symmetries",
        "Player: Capstones in c1 symmetries",
        "Player: Capstones in b2 symmetries",
        "Player: Capstones in c2 symmetries",
        "Player: Capstones in c3 symmetries",
        "Player: Road groups",
        "Player: Lines occupied",
        "Player: Enemy flatstones next to our standing stones",
        "Player: Enemy flatstones next to our capstones",
        "Player: Unblocked road completion",
        "Player: Soft-blocked road completion",
        "Opponent: Reserve flatstones",
        "Opponent: Reserve capstones",
        "Opponent: Friendlies under flatstones",
        "Opponent: Friendlies under standing stones",
        "Opponent: Friendlies under capstones",
        "Opponent: Captives under flatstones",
        "Opponent: Captives under standing stones",
        "Opponent: Captives under capstones",
        "Opponent: Flatstones in a1 symmetries",
        "Opponent: Flatstones in b1 symmetries",
        "Opponent: Flatstones in c1 symmetries",
        "Opponent: Flatstones in b2 symmetries",
        "Opponent: Flatstones in c2 symmetries",
        "Opponent: Flatstones in c3 symmetries",
        "Opponent: Capstones in a1 symmetries",
        "Opponent: Capstones in b1 symmetries",
        "Opponent: Capstones in c1 symmetries",
        "Opponent: Capstones in b2 symmetries",
        "Opponent: Capstones in c2 symmetries",
        "Opponent: Capstones in c3 symmetries",
        "Opponent: Road groups",
        "Opponent: Lines occupied",
        "Opponent: Enemy flatstones next to our standing stones",
        "Opponent: Enemy flatstones next to our capstones",
        "Opponent: Unblocked road completion",
        "Opponent: Soft-blocked road completion",
    ];
    names
}
} // verus!
