use takeval::features::{gather_feature_names, mask_count, model6s_feature_names, perturb_values};
use takeval::version;

#[test]
fn version_is_stable() {
    assert_eq!(version(), "0.1.0");
}

#[test]
fn feature_name_table_has_all_entries() {
    let names = model6s_feature_names();
    assert_eq!(names.len(), 54);
    assert_eq!(names[0], "White to move");
    assert_eq!(names[53], "Opponent: Soft-blocked road completion");
}

#[test]
fn gathering_keeps_only_nonzero_features_in_order() {
    let names: Vec<&'static str> = vec!["a", "b", "c", "d"];
    let values: Vec<i64> = vec![1, 0, -2, 0];
    let gathered = gather_feature_names(&names, &values);
    assert_eq!(gathered, vec!["a", "c"]);
}

#[test]
fn gathering_an_all_zero_vector_yields_nothing() {
    let names: Vec<&'static str> = vec!["a", "b"];
    let values: Vec<i64> = vec![0, 0];
    assert!(gather_feature_names(&names, &values).is_empty());
}

#[test]
fn perturbation_zeroes_dropped_nonzero_entries_only() {
    let values: Vec<i64> = vec![3, 0, 5, 7];
    let keep: Vec<bool> = vec![false, true, true, false];
    let out = perturb_values(&values, &keep);
    assert_eq!(out, vec![0, 0, 5, 0]);
}

#[test]
fn perturbation_with_everything_kept_changes_nothing() {
    let values: Vec<i64> = vec![3, 0, 5];
    let keep: Vec<bool> = vec![true, true, true];
    assert_eq!(perturb_values(&values, &keep), values);
}

#[test]
fn mask_count_counts_selected_features() {
    let keep: Vec<bool> = vec![true, false, true, true];
    assert_eq!(mask_count(&keep), 3);
    let none: Vec<bool> = vec![false, false];
    assert_eq!(mask_count(&none), 0, "an empty selection weighs zero");
    let empty: Vec<bool> = Vec::new();
    assert_eq!(mask_count(&empty), 0);
}
