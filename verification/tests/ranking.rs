use ordered_float::OrderedFloat;
use text_generation::error::GenerationError;
use text_generation::number::NEG_INFINITY;
use text_generation::ranking::{
    argmax, argsort_descending, cut_nucleus, greedy_tokens, keep_best, top_k_filtering,
    top_p_filtering,
};

fn key(x: f64) -> i64 {
    let bits = x.to_bits() as i64;
    bits ^ ((((bits >> 63) as u64) >> 1) as i64)
}

fn keys(row: &[f64]) -> Vec<i64> {
    row.iter().map(|x| key(*x)).collect()
}

fn cumulative_probabilities(row: &[f64]) -> Vec<i64> {
    let order = argsort_descending(&keys(row));
    let total: f64 = row.iter().map(|x| x.exp()).sum();
    let mut sum = 0.0;
    let mut out = Vec::new();
    for place in order {
        sum += row[place].exp() / total;
        out.push(key(sum));
    }
    out
}

#[test]
fn argsort_puts_the_best_first() {
    assert_eq!(argsort_descending(&keys(&[0.5, 2.0, -1.0, 1.0])), vec![1, 3, 0, 2]);
    assert_eq!(argsort_descending(&keys(&[])), Vec::<usize>::new());
    assert_eq!(argsort_descending(&keys(&[3.0])), vec![0]);
}

#[test]
fn argsort_keeps_equal_scores_in_place_order() {
    assert_eq!(argsort_descending(&keys(&[1.0, 2.0, 1.0, 2.0, 1.0])), vec![1, 3, 0, 2, 4]);
    assert_eq!(argsort_descending(&keys(&[0.0, -0.0, 0.0])), vec![0, 1, 2]);
}

#[test]
fn argsort_ranks_infinities_and_what_is_no_number() {
    let row = keys(&[f64::NEG_INFINITY, f64::NAN, f64::INFINITY, 0.0, f64::NAN]);
    assert_eq!(argsort_descending(&row), vec![1, 4, 2, 3, 0]);
}

#[test]
fn argsort_orders_a_long_row() {
    let row: Vec<f64> = (0..1000).map(|i| ((i * 7919) % 1009) as f64).collect();
    let order = argsort_descending(&keys(&row));
    assert_eq!(order.len(), 1000);
    let mut seen = vec![false; 1000];
    for p in 0..1000 {
        assert!(!seen[order[p]]);
        seen[order[p]] = true;
        if p > 0 {
            let before = row[order[p - 1]];
            let here = row[order[p]];
            assert!(before > here || (before == here && order[p - 1] < order[p]));
        }
    }
}

#[test]
fn argmax_is_the_first_of_the_best() {
    assert_eq!(argmax(&keys(&[0.5, 2.0, -1.0, 2.0])), Some(1));
    assert_eq!(argmax(&keys(&[f64::NEG_INFINITY, f64::NEG_INFINITY])), Some(0));
    assert_eq!(argmax(&keys(&[])), None);
}

#[test]
fn greedy_tokens_takes_the_best_of_each_row() {
    let scores = vec![keys(&[0.1, 0.9, 0.3]), keys(&[-1.0, -3.0, -0.5]), keys(&[2.0, 2.0, 2.0])];
    assert_eq!(greedy_tokens(&scores), Some(vec![1, 2, 0]));
    assert_eq!(greedy_tokens(&vec![keys(&[0.1]), keys(&[])]), None);
    assert_eq!(greedy_tokens(&vec![]), Some(vec![]));
}

#[test]
fn keep_best_masks_all_but_the_best() {
    let row = keys(&[0.5, 2.0, -1.0, 1.0]);
    assert_eq!(keep_best(&row, 2), vec![NEG_INFINITY, key(2.0), NEG_INFINITY, key(1.0)]);
    assert_eq!(keep_best(&row, 0), vec![NEG_INFINITY; 4]);
    assert_eq!(keep_best(&row, 4), row);
    assert_eq!(keep_best(&row, 9), row);
}

#[test]
fn top_k_keeps_k_tokens() {
    let logits = vec![keys(&[0.5, 2.0, -1.0, 1.0]), keys(&[4.0, 3.0, 2.0, 1.0])];
    assert_eq!(
        top_k_filtering(&logits, 1, 1),
        vec![
            vec![NEG_INFINITY, key(2.0), NEG_INFINITY, NEG_INFINITY],
            vec![key(4.0), NEG_INFINITY, NEG_INFINITY, NEG_INFINITY]
        ]
    );
    assert_eq!(
        top_k_filtering(&logits, 3, 1),
        vec![
            vec![key(0.5), key(2.0), NEG_INFINITY, key(1.0)],
            vec![key(4.0), key(3.0), key(2.0), NEG_INFINITY]
        ]
    );
}

#[test]
fn top_k_keeps_at_least_min_tokens_to_keep() {
    let logits = vec![keys(&[0.5, 2.0, -1.0, 1.0])];
    assert_eq!(
        top_k_filtering(&logits, 1, 2),
        vec![vec![NEG_INFINITY, key(2.0), NEG_INFINITY, key(1.0)]]
    );
}

#[test]
fn top_k_of_the_whole_vocabulary_changes_nothing() {
    let logits = vec![keys(&[0.5, 2.0, -1.0, 1.0]), keys(&[4.0, 3.0, 2.0, 1.0])];
    assert_eq!(top_k_filtering(&logits, 4, 1), logits);
    assert_eq!(top_k_filtering(&logits, 400, 1), logits);
}

#[test]
fn top_k_of_zero_is_turned_off() {
    let logits = vec![keys(&[0.5, 2.0, -1.0, 1.0])];
    assert_eq!(top_k_filtering(&logits, 0, 1), logits);
    assert_eq!(top_k_filtering(&logits, 0, 2), logits);
}

#[test]
fn top_p_of_one_changes_nothing() {
    let row = [0.5, 2.0, -1.0, 1.0];
    let cumulative = cumulative_probabilities(&row);
    assert_eq!(cut_nucleus(&keys(&row), &cumulative, key(1.0), 1), Some(keys(&row)));
    assert_eq!(cut_nucleus(&keys(&row), &cumulative, key(1.5), 1), Some(keys(&row)));
    let logits = vec![keys(&row)];
    assert_eq!(top_p_filtering(&logits, &vec![cumulative], key(1.0), 1), Ok(logits.clone()));
}

#[test]
fn top_p_keeps_the_token_that_crosses_the_threshold() {
    // probabilities in descending order: 0.5, 0.25, 0.125, 0.125
    let row = [(0.125f64).ln(), (0.5f64).ln(), (0.25f64).ln(), (0.125f64).ln()];
    let cumulative = keys(&[0.5, 0.75, 0.875, 1.0]);
    assert_eq!(
        cut_nucleus(&keys(&row), &cumulative, key(0.6), 1),
        Some(vec![NEG_INFINITY, key(row[1]), key(row[2]), NEG_INFINITY])
    );
    assert_eq!(
        cut_nucleus(&keys(&row), &cumulative, key(0.4), 1),
        Some(vec![NEG_INFINITY, key(row[1]), NEG_INFINITY, NEG_INFINITY])
    );
    assert_eq!(
        cut_nucleus(&keys(&row), &cumulative, key(0.8), 1),
        Some(vec![key(row[0]), key(row[1]), key(row[2]), NEG_INFINITY])
    );
    assert_eq!(cut_nucleus(&keys(&row), &cumulative, key(0.9), 1), Some(keys(&row)));
}

#[test]
fn top_p_masks_only_what_strictly_exceeds() {
    let row = [(0.125f64).ln(), (0.5f64).ln(), (0.25f64).ln(), (0.125f64).ln()];
    let cumulative = keys(&[0.5, 0.75, 0.875, 1.0]);
    assert_eq!(
        cut_nucleus(&keys(&row), &cumulative, key(0.5), 1),
        Some(vec![NEG_INFINITY, key(row[1]), key(row[2]), NEG_INFINITY])
    );
    assert_eq!(
        cut_nucleus(&keys(&row), &cumulative, key(0.75), 1),
        Some(vec![key(row[0]), key(row[1]), key(row[2]), NEG_INFINITY])
    );
}

#[test]
fn top_p_always_keeps_the_best_token() {
    let row = [0.0, 3.0, 1.0];
    let cumulative = cumulative_probabilities(&row);
    assert_eq!(
        cut_nucleus(&keys(&row), &cumulative, key(0.0), 1),
        Some(vec![NEG_INFINITY, key(3.0), NEG_INFINITY])
    );
}

#[test]
fn top_p_keeps_more_where_beams_need_it() {
    let row = [5.0, 4.0, 3.0, 2.0, 1.0, 0.0];
    let cumulative = cumulative_probabilities(&row);
    assert_eq!(
        cut_nucleus(&keys(&row), &cumulative, key(0.0), 2),
        Some(vec![key(5.0), key(4.0), key(3.0), key(2.0), NEG_INFINITY, NEG_INFINITY])
    );
    assert_eq!(
        cut_nucleus(&keys(&row), &cumulative, key(0.0), 1),
        Some(vec![key(5.0), NEG_INFINITY, NEG_INFINITY, NEG_INFINITY, NEG_INFINITY, NEG_INFINITY])
    );
}

#[test]
fn top_p_refuses_another_shape() {
    let row = keys(&[0.0, 3.0, 1.0]);
    assert_eq!(cut_nucleus(&row, &keys(&[0.5, 1.0]), key(0.5), 1), None);
    assert_eq!(
        top_p_filtering(&vec![row.clone()], &vec![], key(0.5), 1),
        Err(GenerationError::ShapeMismatch)
    );
    assert_eq!(
        top_p_filtering(&vec![row], &vec![keys(&[0.5, 1.0])], key(0.5), 1),
        Err(GenerationError::ShapeMismatch)
    );
}

#[test]
fn argsort_agrees_with_a_stable_sort_of_the_numbers() {
    let choices =
        [-0.0, 0.0, -1.0, 1.0, 2.5, -2.5, f64::NEG_INFINITY, f64::INFINITY, f64::NAN, 0.5, 1.0e-300];
    let mut state: u64 = 77;
    for round in 0..300 {
        let length = (round % 17) as usize;
        let mut row: Vec<f64> = Vec::new();
        for _ in 0..length {
            state = state.wrapping_mul(6364136223846793005).wrapping_add(1442695040888963407);
            row.push(choices[((state >> 33) % choices.len() as u64) as usize]);
        }
        let mut expected: Vec<usize> = (0..length).collect();
        expected.sort_by(|a, b| OrderedFloat(row[*b]).cmp(&OrderedFloat(row[*a])));
        assert_eq!(argsort_descending(&keys(&row)), expected, "row {:?}", row);
        let best = argmax(&keys(&row));
        assert_eq!(best, expected.first().cloned());
        for keep in 0..=length + 1 {
            let filtered = keep_best(&keys(&row), keep);
            for (p, place) in expected.iter().enumerate() {
                if p < keep {
                    assert_eq!(filtered[*place], key(row[*place]));
                } else {
                    assert_eq!(filtered[*place], NEG_INFINITY);
                }
            }
        }
    }
}
