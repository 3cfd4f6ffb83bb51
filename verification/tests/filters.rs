use text_generation::filters::{
    ban_tokens, banned_tokens_of, filter_scores, get_banned_tokens, mask_row, mask_tokens,
};
use text_generation::number::NEG_INFINITY;
use text_generation::penalty::{
    repetition_penalty_plan, uses_repetition_penalty, uses_temperature, Rescaling,
};
use std::collections::HashMap;
use text_generation::error::GenerationError;

fn key(x: f64) -> i64 {
    let bits = x.to_bits() as i64;
    bits ^ ((((bits >> 63) as u64) >> 1) as i64)
}

fn keys(row: &[f64]) -> Vec<i64> {
    row.iter().map(|x| key(*x)).collect()
}

#[test]
fn a_repeated_bigram_bans_its_second_token() {
    assert_eq!(banned_tokens_of(&vec![5, 9, 5, 9], 2), vec![5]);
}

#[test]
fn every_follower_of_the_prefix_is_banned() {
    assert_eq!(banned_tokens_of(&vec![1, 2, 3, 1, 2, 4, 1, 2], 3), vec![3, 4]);
    assert_eq!(banned_tokens_of(&vec![7, 7, 7], 2), vec![7, 7]);
    assert_eq!(banned_tokens_of(&vec![4, 5, 6], 1), vec![4, 5, 6]);
}

#[test]
fn nothing_is_banned_without_a_repeated_prefix() {
    assert_eq!(banned_tokens_of(&vec![1, 2, 3, 4], 2), Vec::<i64>::new());
    assert_eq!(banned_tokens_of(&vec![5, 9, 4, 9], 3), Vec::<i64>::new());
    assert_eq!(banned_tokens_of(&vec![5, 9, 5, 9], 3), vec![5]);
}

#[test]
fn a_size_of_zero_turns_banning_off() {
    assert_eq!(banned_tokens_of(&vec![5, 9, 5, 9], 0), Vec::<i64>::new());
    assert_eq!(banned_tokens_of(&vec![], 0), Vec::<i64>::new());
}

#[test]
fn a_history_that_is_too_short_bans_nothing() {
    assert_eq!(banned_tokens_of(&vec![5, 9], 4), Vec::<i64>::new());
    assert_eq!(banned_tokens_of(&vec![5, 9], 3), Vec::<i64>::new());
    assert_eq!(banned_tokens_of(&vec![], 2), Vec::<i64>::new());
    assert_eq!(banned_tokens_of(&vec![5, 5], 2), vec![5]);
}

#[test]
fn each_row_is_banned_by_its_own_history() {
    let input_ids = vec![vec![5, 9, 5, 9], vec![1, 2, 3, 4], vec![3, 3, 3, 3]];
    let banned: Vec<Vec<i64>> = vec![vec![5], vec![], vec![3, 3, 3]];
    assert_eq!(get_banned_tokens(&input_ids, 2), banned);
    let nothing: Vec<Vec<i64>> = vec![vec![], vec![], vec![]];
    assert_eq!(get_banned_tokens(&input_ids, 0), nothing);
}

#[test]
fn masking_sets_scores_to_negative_infinity() {
    let mut row = keys(&[0.5, -1.0, 2.0, 0.0]);
    mask_row(&mut row, &vec![2, 0, 2]);
    assert_eq!(row, vec![NEG_INFINITY, key(-1.0), NEG_INFINITY, key(0.0)]);
    assert_eq!(NEG_INFINITY, key(f64::NEG_INFINITY));
}

#[test]
fn a_token_without_a_place_is_passed_over() {
    let mut row = keys(&[0.5, -1.0]);
    mask_row(&mut row, &vec![-1, 2, 100]);
    assert_eq!(row, keys(&[0.5, -1.0]));
}

#[test]
fn bans_apply_row_by_row() {
    let scores = vec![keys(&[1.0, 2.0, 3.0]), keys(&[4.0, 5.0, 6.0]), keys(&[7.0, 8.0, 9.0])];
    let banned = vec![vec![1], vec![]];
    let out = ban_tokens(scores, &banned);
    assert_eq!(
        out,
        vec![
            vec![key(1.0), NEG_INFINITY, key(3.0)],
            keys(&[4.0, 5.0, 6.0]),
            keys(&[7.0, 8.0, 9.0])
        ]
    );
}

#[test]
fn end_of_sequence_tokens_are_masked_in_every_row() {
    let scores = vec![keys(&[1.0, 2.0, 3.0]), keys(&[4.0, 5.0, 6.0])];
    let out = mask_tokens(scores, &vec![2, 0]);
    assert_eq!(
        out,
        vec![vec![NEG_INFINITY, key(2.0), NEG_INFINITY], vec![NEG_INFINITY, key(5.0), NEG_INFINITY]]
    );
}

#[test]
fn the_filter_bans_repeats_and_early_ends() {
    let input_ids = vec![vec![0, 1, 0, 1], vec![2, 2, 1, 0]];
    let scores = vec![keys(&[0.1, 0.2, 0.3, 0.4]), keys(&[0.5, 0.6, 0.7, 0.8])];
    let out = filter_scores(scores, &input_ids, 2, &Some(vec![3]), true);
    assert_eq!(
        out,
        vec![
            vec![NEG_INFINITY, key(0.2), key(0.3), NEG_INFINITY],
            vec![key(0.5), key(0.6), key(0.7), NEG_INFINITY]
        ]
    );
    let scores = vec![keys(&[0.1, 0.2, 0.3, 0.4]), keys(&[0.5, 0.6, 0.7, 0.8])];
    let out = filter_scores(scores, &input_ids, 2, &Some(vec![3]), false);
    assert_eq!(
        out,
        vec![vec![NEG_INFINITY, key(0.2), key(0.3), key(0.4)], keys(&[0.5, 0.6, 0.7, 0.8])]
    );
}

#[test]
fn without_penalty_and_without_banning_the_scores_stay_as_they_are() {
    let input_ids = vec![vec![0, 1, 0, 1], vec![2, 2, 2, 2]];
    let scores = vec![keys(&[0.1, -0.2, 0.3, 0.4]), keys(&[0.5, 0.6, -0.7, 0.8])];
    let plan = repetition_penalty_plan(&scores, &input_ids, key(1.0)).unwrap();
    assert_eq!(plan, vec![Vec::<Rescaling>::new(), Vec::<Rescaling>::new()]);
    let out = filter_scores(scores.clone(), &input_ids, 0, &Some(vec![3]), false);
    assert_eq!(out, scores);
    let out = filter_scores(scores.clone(), &input_ids, 0, &None, true);
    assert_eq!(out, scores);
}

#[test]
fn the_penalty_rescales_each_token_once() {
    let input_ids = vec![vec![0, 1, 0], vec![2, 2, 1]];
    let scores = vec![keys(&[0.5, -0.2, 0.3]), keys(&[0.0, -0.0, -3.0])];
    let plan = repetition_penalty_plan(&scores, &input_ids, key(1.3)).unwrap();
    assert_eq!(
        plan,
        vec![
            vec![Rescaling { token: 0, multiply: false }, Rescaling { token: 1, multiply: true }],
            vec![Rescaling { token: 2, multiply: true }, Rescaling { token: 1, multiply: false }]
        ]
    );
}

#[test]
fn a_token_that_occurs_twice_is_penalised_once() {
    let mut logits = vec![vec![2.0, -1.0, 3.0]];
    let plan = repetition_penalty_plan(
        &vec![keys(&logits[0])],
        &vec![vec![0, 0, 1]],
        key(2.0),
    )
    .unwrap();
    assert_eq!(
        plan,
        vec![vec![Rescaling { token: 0, multiply: false }, Rescaling { token: 1, multiply: true }]]
    );
    for (row, rescalings) in logits.iter_mut().zip(plan) {
        for rescaling in rescalings {
            if rescaling.multiply {
                row[rescaling.token] *= 2.0;
            } else {
                row[rescaling.token] /= 2.0;
            }
        }
    }
    assert_eq!(logits, vec![vec![1.0, -2.0, 3.0]]);
}

#[test]
fn tokens_are_penalised_in_the_order_of_their_first_occurrence() {
    let scores = vec![keys(&[0.5, -0.2, 0.3, 0.0])];
    let plan = repetition_penalty_plan(&scores, &vec![vec![3, 1, 3, 0, 1, 3]], key(1.5)).unwrap();
    let tokens: Vec<usize> = plan[0].iter().map(|r| r.token).collect();
    assert_eq!(tokens, vec![3, 1, 0]);
}

#[test]
fn the_penalty_refuses_what_does_not_fit() {
    let scores = vec![keys(&[0.5, -0.2, 0.3])];
    assert_eq!(
        repetition_penalty_plan(&scores, &vec![vec![0], vec![1]], key(1.3)),
        Err(GenerationError::ShapeMismatch)
    );
    assert_eq!(
        repetition_penalty_plan(&scores, &vec![vec![0, 3]], key(1.3)),
        Err(GenerationError::InvalidToken)
    );
    assert_eq!(
        repetition_penalty_plan(&scores, &vec![vec![-1]], key(1.3)),
        Err(GenerationError::InvalidToken)
    );
    assert_eq!(repetition_penalty_plan(&scores, &vec![vec![0, 3]], key(1.0)), Ok(vec![vec![]]));
}

#[test]
fn penalty_and_temperature_act_above_one_only() {
    assert!(!uses_repetition_penalty(key(1.0)));
    assert!(uses_repetition_penalty(key(1.0000001)));
    assert!(!uses_repetition_penalty(key(f64::NAN)));
    assert!(!uses_temperature(key(1.0)));
    assert!(!uses_temperature(key(0.7)));
    assert!(uses_temperature(key(1.1)));
}

/// The banned tokens, found with a table from each prefix to its followers.
fn banned_by_table(history: &Vec<i64>, n: usize) -> Vec<i64> {
    if n == 0 || history.len() + 1 < n {
        return Vec::new();
    }
    let mut followers: HashMap<Vec<i64>, Vec<i64>> = HashMap::new();
    if history.len() >= n {
        for window in history.windows(n) {
            let prefix = window[..n - 1].to_vec();
            followers.entry(prefix).or_insert_with(Vec::new).push(window[n - 1]);
        }
    }
    let query = history[history.len() + 1 - n..].to_vec();
    followers.get(&query).cloned().unwrap_or_default()
}

#[test]
fn banning_agrees_with_a_table_of_prefixes() {
    let mut state: u64 = 2024;
    for round in 0..300 {
        let length = (round % 13) as usize;
        let alphabet = 1 + (round % 3) as u64;
        let mut history: Vec<i64> = Vec::new();
        for _ in 0..length {
            state = state.wrapping_mul(6364136223846793005).wrapping_add(1442695040888963407);
            history.push(((state >> 33) % (alphabet + 1)) as i64);
        }
        for n in 0..6usize {
            assert_eq!(
                banned_tokens_of(&history, n as u64),
                banned_by_table(&history, n),
                "history {:?}, size {}",
                history,
                n
            );
        }
    }
}
