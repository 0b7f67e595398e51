use llm::sampling::{in_penalty_window, logit_transforms, order_key, top_k};
use llm::{InferenceParameters, LogitTransform, TokenBias};

fn params(top_k: usize, penalty_last_n: usize, bias: Vec<(u32, u32)>) -> InferenceParameters {
    InferenceParameters {
        n_threads: 1,
        n_batch: 8,
        top_k,
        top_p: 1.0f32.to_bits(),
        repeat_penalty: 2.0f32.to_bits(),
        temperature: 1.0f32.to_bits(),
        bias_tokens: TokenBias::new(bias),
        repetition_penalty_last_n: penalty_last_n,
    }
}

#[test]
fn top_two_of_four_keeps_highest_first() {
    let logits = [1.0f32, 2.0, 3.0, 4.0];
    let candidates: Vec<(u32, u32)> =
        logits.iter().enumerate().map(|(i, v)| (v.to_bits(), i as u32)).collect();
    let kept = top_k(candidates, 2);
    let ids: Vec<u32> = kept.iter().map(|c| c.1).collect();
    assert_eq!(ids, vec![3, 2]);
}

#[test]
fn top_one_is_argmax_with_negatives() {
    let logits = [-3.0f32, -0.5, -7.25, -1.0];
    let candidates: Vec<(u32, u32)> =
        logits.iter().enumerate().map(|(i, v)| (v.to_bits(), i as u32)).collect();
    let kept = top_k(candidates, 1);
    assert_eq!(kept.len(), 1);
    assert_eq!(kept[0].1, 1);
}

#[test]
fn top_k_larger_than_vocabulary_keeps_all() {
    let logits = [0.5f32, -0.5, 2.0];
    let candidates: Vec<(u32, u32)> =
        logits.iter().enumerate().map(|(i, v)| (v.to_bits(), i as u32)).collect();
    let kept = top_k(candidates, 10);
    let ids: Vec<u32> = kept.iter().map(|c| c.1).collect();
    assert_eq!(ids, vec![2, 0, 1]);
}

#[test]
fn total_order_matches_float_order() {
    let values = [f32::NEG_INFINITY, -2.0, -0.0, 0.0, 1.5, f32::INFINITY];
    for w in values.windows(2) {
        assert!(order_key(w[0].to_bits()) < order_key(w[1].to_bits()));
    }
    assert_eq!(order_key(0.0f32.to_bits()), 0);
    assert_eq!(order_key((-0.0f32).to_bits()), -1);
}

#[test]
fn penalty_branches_on_unscaled_sign() {
    let logits = [5.0f32.to_bits(), (-5.0f32).to_bits()];
    let p = params(2, 8, vec![]);
    let t = logit_transforms(&logits, &[0, 1], &p);
    assert_eq!(t, vec![LogitTransform::ScaleAndDividePenalty, LogitTransform::ScaleAndMultiplyPenalty]);
    let only_first = logit_transforms(&logits, &[0], &p);
    assert_eq!(only_first, vec![LogitTransform::ScaleAndDividePenalty, LogitTransform::Scale]);
}

#[test]
fn penalty_window_looks_at_last_tokens_only() {
    let history = [4u32, 1, 2, 3];
    assert!(!in_penalty_window(&history, 2, 1));
    assert!(in_penalty_window(&history, 2, 2));
    assert!(in_penalty_window(&history, 100, 4));
    assert!(!in_penalty_window(&history, 0, 3));
}

#[test]
fn bias_overrides_everything() {
    let logits = [(-5.0f32).to_bits(), 1.0f32.to_bits(), 1.0f32.to_bits()];
    let big = 1.0e9f32.to_bits();
    let p = params(1, 8, vec![(0, big), (0, 0)]);
    let t = logit_transforms(&logits, &[0, 1], &p);
    assert_eq!(t, vec![LogitTransform::Override(big), LogitTransform::ScaleAndDividePenalty, LogitTransform::Scale]);
    assert_eq!(p.bias_tokens.get(0), Some(big));
    assert_eq!(p.bias_tokens.get(2), None);
}

#[test]
fn dominant_bias_survives_top_one() {
    let values = [0.5f32, f32::INFINITY, 3.0];
    let candidates: Vec<(u32, u32)> =
        values.iter().enumerate().map(|(i, v)| (v.to_bits(), i as u32)).collect();
    let kept = top_k(candidates, 1);
    assert_eq!(kept[0].1, 1);
}

#[test]
fn equal_values_keep_ascending_ids() {
    let candidates: Vec<(u32, u32)> = (0..4u32).map(|i| (0.0f32.to_bits(), i)).collect();
    let kept = top_k(candidates, 4);
    let ids: Vec<u32> = kept.iter().map(|c| c.1).collect();
    assert_eq!(ids, vec![0, 1, 2, 3]);
    let reversed: Vec<(u32, u32)> = (0..4u32).rev().map(|i| (0.0f32.to_bits(), i)).collect();
    let two: Vec<u32> = top_k(reversed, 2).iter().map(|c| c.1).collect();
    assert_eq!(two, vec![0, 1]);
}
