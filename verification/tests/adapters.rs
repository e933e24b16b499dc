use sona::fixed::{SCALE, VALUE_LIMIT, WEIGHT_LIMIT};
use sona::lora::{LowRankPair, STEP_BOUND};
use sona::micro::{accumulate, signal_exec, MicroAdapter};

#[test]
fn new_pair_is_banded_and_starts_as_identity() {
    let pair = LowRankPair::new(4, 2, 0);
    assert_eq!(pair.dim, 4);
    assert_eq!(pair.rank, 2);
    assert_eq!(pair.scale, SCALE / 2);
    assert_eq!(pair.down, vec![SCALE, 0, SCALE, 0, 0, SCALE, 0, SCALE]);
    assert_eq!(pair.up, vec![0; 8]);
    let x = vec![1_000_000, -2_000_000, 3_000_000, 4];
    assert_eq!(pair.apply(&x), x);

    let shifted = LowRankPair::new(4, 2, 1);
    assert_eq!(shifted.down, vec![0, SCALE, 0, SCALE, SCALE, 0, SCALE, 0]);
}

#[test]
fn projection_sums_the_coordinates_of_each_band() {
    let pair = LowRankPair::new(4, 2, 0);
    let h = pair.project(&vec![1_000_000, 2_000_000, 3_000_000, 4_000_000]);
    assert_eq!(h, vec![4_000_000, 6_000_000]);
}

#[test]
fn forward_pass_adds_the_scaled_delta() {
    let mut pair = LowRankPair::new(2, 2, 0);
    // up rows: output 0 <- [0.5, 0.25], output 1 <- [-1.0, 0.0]
    pair.up = vec![500_000, 250_000, -1_000_000, 0];
    let out = pair.apply(&vec![2_000_000, 4_000_000]);
    // hidden = [2.0, 4.0]; row sums = [2.0, -2.0]; scale = 0.5
    assert_eq!(out, vec![3_000_000, 3_000_000]);
}

#[test]
fn forward_pass_saturates_at_the_value_limit() {
    let mut pair = LowRankPair::new(1, 1, 0);
    pair.up = vec![WEIGHT_LIMIT];
    let out = pair.apply(&vec![VALUE_LIMIT]);
    assert_eq!(out, vec![VALUE_LIMIT]);
    pair.up = vec![-WEIGHT_LIMIT];
    let out = pair.apply(&vec![VALUE_LIMIT]);
    assert_eq!(out, vec![-VALUE_LIMIT]);
}

#[test]
fn reinforce_moves_each_weight_by_step_times_hidden() {
    let mut pair = LowRankPair::new(2, 2, 0);
    pair.reinforce(&vec![35, -7], &vec![1_000_000, 2_000_000]);
    assert_eq!(pair.up, vec![35, 70, -7, -14]);
    pair.reinforce(&vec![35, -7], &vec![0, -1_000_000]);
    assert_eq!(pair.up, vec![35, 35, -7, -7]);
    pair.reinforce(&vec![STEP_BOUND, -STEP_BOUND], &vec![1_000_000, 1_000_000]);
    assert_eq!(pair.up, vec![WEIGHT_LIMIT, WEIGHT_LIMIT, -WEIGHT_LIMIT, -WEIGHT_LIMIT]);
    assert_eq!(pair.down, LowRankPair::new(2, 2, 0).down);
}

#[test]
fn dampen_halves_toward_zero() {
    let mut pair = LowRankPair::new(2, 2, 0);
    pair.up = vec![35, -35, 1, -1];
    pair.dampen();
    assert_eq!(pair.up, vec![17, -17, 0, 0]);
}

#[test]
fn duplicate_pair_holds_the_same_weights() {
    let mut pair = LowRankPair::new(3, 2, 1);
    pair.reinforce(&vec![1, 2, 3], &vec![1_000_000, -2_000_000]);
    let copy = pair.duplicate();
    assert_eq!(copy.dim, 3);
    assert_eq!(copy.rank, 2);
    assert_eq!(copy.scale, pair.scale);
    assert_eq!(copy.down, pair.down);
    assert_eq!(copy.up, pair.up);
}

#[test]
fn signal_scales_the_embedding_and_pads_with_zero() {
    let x = vec![100_000, -2_000_000];
    assert_eq!(signal_exec(350_000, &x, 0), 35_000);
    assert_eq!(signal_exec(350_000, &x, 1), -700_000);
    assert_eq!(signal_exec(350_000, &x, 2), 0);
    assert_eq!(signal_exec(-SCALE, &x, 1), 2_000_000);
}

#[test]
fn accumulate_adds_and_saturates() {
    assert_eq!(accumulate(&vec![1, -2], &vec![3, -4]), vec![4, -6]);
    assert_eq!(
        accumulate(&vec![VALUE_LIMIT, -VALUE_LIMIT], &vec![1, -1]),
        vec![VALUE_LIMIT, -VALUE_LIMIT]
    );
}

#[test]
fn micro_update_moves_weights_and_drift() {
    let mut micro = MicroAdapter::new(4, 1);
    micro.update(&vec![100_000; 4], 350_000, 1_000);
    // step 0.000035 for each output, hidden component 0.4
    assert_eq!(micro.pair.up, vec![14; 4]);
    assert_eq!(micro.drift, vec![35; 4]);
    assert_eq!(micro.apply(&vec![1_000_000; 4]), vec![1_000_056; 4]);
    // a shorter embedding is read as zero beyond its end
    micro.update(&vec![100_000, 0], -350_000, 1_000);
    assert_eq!(micro.pair.up, vec![11, 14, 14, 14]);
    assert_eq!(micro.drift, vec![0, 35, 35, 35]);
}

#[test]
fn micro_update_with_zero_rate_changes_nothing() {
    let mut micro = MicroAdapter::new(2, 1);
    micro.update(&vec![1_000_000, 1_000_000], 500_000, 0);
    assert_eq!(micro.pair.up, vec![0, 0]);
    assert_eq!(micro.drift, vec![0, 0]);
}

#[test]
fn micro_flush_hands_the_drift_out_and_dampens() {
    let mut micro = MicroAdapter::new(2, 1);
    micro.update(&vec![1_000_000, 0], 500_000, 1_000);
    assert_eq!(micro.pair.up, vec![500, 0]);
    let pending = micro.flush();
    assert_eq!(pending, vec![500, 0]);
    assert_eq!(micro.drift, vec![0, 0]);
    assert_eq!(micro.pair.up, vec![250, 0]);
    let again = micro.flush();
    assert_eq!(again, vec![0, 0]);
    assert_eq!(micro.pair.up, vec![125, 0]);
}

#[test]
fn embedding_without_hidden_activity_moves_nothing() {
    let mut micro = MicroAdapter::new(2, 1);
    // the two coordinates cancel in the one hidden unit
    micro.update(&vec![1_000_000, -1_000_000], 500_000, 1_000);
    assert_eq!(micro.pair.up, vec![0, 0]);
    assert_eq!(micro.drift, vec![500, -500]);
}
