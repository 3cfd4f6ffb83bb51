use text_generation::beam_search::{order_candidates, BeamSearch, Candidate};
use text_generation::config::GenerateConfig;
use text_generation::error::GenerationError;
use text_generation::generation::{start_generation, Decoder};
use text_generation::number::{NEG_INFINITY, ZERO};

const VOCAB: usize = 3;
const EOS: i64 = 2;

fn key(x: f64) -> i64 {
    let bits = x.to_bits() as i64;
    bits ^ ((((bits >> 63) as u64) >> 1) as i64)
}

fn value(k: i64) -> f64 {
    f64::from_bits((k ^ ((((k >> 63) as u64) >> 1) as i64)) as u64)
}

/// A model that gives the same probabilities whatever the history.
fn ending_model(_row: &Vec<i64>) -> Vec<f64> {
    vec![(0.3f64).ln(), (0.2f64).ln(), (0.5f64).ln()]
}

/// A model under which a sequence hardly ever ends.
fn lasting_model(row: &Vec<i64>) -> Vec<f64> {
    if *row.last().unwrap() == 0 {
        vec![(0.3f64).ln(), (0.6f64).ln(), (0.1f64).ln()]
    } else {
        vec![(0.7f64).ln(), (0.2f64).ln(), (0.1f64).ln()]
    }
}

fn beam_config(num_beams: u64, num_return_sequences: u64, max_length: u64) -> GenerateConfig {
    GenerateConfig {
        do_sample: false,
        num_beams,
        num_return_sequences,
        max_length,
        no_repeat_ngram_size: 0,
        ..Default::default()
    }
}

fn start(config: &GenerateConfig, prompts: &Vec<Vec<i64>>, pad: Option<i64>) -> BeamSearch {
    match start_generation(config, Some(prompts), None, None, Some(vec![EOS]), pad, 0, VOCAB) {
        Ok(Decoder::BeamSearch(search)) => search,
        Ok(Decoder::NoBeamSearch(_)) => panic!("no beam search was set up"),
        Err(e) => panic!("no decoder was set up: {:?}", e),
    }
}

fn candidates_of(search: &BeamSearch, model: fn(&Vec<i64>) -> Vec<f64>) -> Vec<Vec<Candidate>> {
    let length = search.current_length() as f64;
    let log_probabilities: Vec<Vec<i64>> = search
        .input_ids()
        .iter()
        .map(|row| model(row).iter().map(|x| key(*x)).collect())
        .collect();
    let filtered = search.filter_scores(log_probabilities).unwrap();
    let summed: Vec<Vec<i64>> = filtered
        .iter()
        .zip(search.beam_scores().iter())
        .map(|(row, beam)| row.iter().map(|s| key(value(*s) + value(*beam))).collect())
        .collect();
    let ranked = search.rank_candidates(&summed).unwrap();
    ranked
        .iter()
        .map(|item| {
            item.iter()
                .map(|r| Candidate {
                    index: r.index,
                    score: r.score,
                    normalized_score: key(value(r.score) / length),
                })
                .collect()
        })
        .collect()
}

fn decode(mut search: BeamSearch, model: fn(&Vec<i64>) -> Vec<f64>) -> Vec<Vec<i64>> {
    while search.is_running() {
        let candidates = candidates_of(&search, model);
        search = search.step(candidates).unwrap();
    }
    let length = search.current_length() as f64;
    let normalized: Vec<i64> =
        search.beam_scores().iter().map(|s| key(value(*s) / length)).collect();
    search.finalize(&normalized).unwrap()
}

#[test]
fn only_the_first_beam_of_an_item_starts_at_zero() {
    let config = beam_config(3, 1, 4);
    let search = start(&config, &vec![vec![1], vec![0]], None);
    assert_eq!(
        search.beam_scores(),
        &vec![ZERO, NEG_INFINITY, NEG_INFINITY, ZERO, NEG_INFINITY, NEG_INFINITY]
    );
    assert_eq!(search.input_ids(), &vec![vec![1], vec![1], vec![1], vec![0], vec![0], vec![0]]);
    assert_eq!(search.done(), &vec![false, false]);
    assert_eq!(search.current_length(), 1);
    assert!(search.source_rows().is_empty());
    assert!(search.is_running());
}

#[test]
fn with_sampling_every_beam_starts_at_zero() {
    let config = GenerateConfig { do_sample: true, ..beam_config(2, 1, 4) };
    let search = start(&config, &vec![vec![1]], None);
    assert_eq!(search.beam_scores(), &vec![ZERO, ZERO]);
}

#[test]
fn candidates_are_ranked_over_all_beams_of_an_item() {
    let config = beam_config(2, 2, 4);
    let search = start(&config, &vec![vec![1]], None);
    let candidates = candidates_of(&search, ending_model);
    assert_eq!(candidates.len(), 1);
    let indices: Vec<i64> = candidates[0].iter().map(|c| c.index).collect();
    assert_eq!(indices, vec![2, 0, 1, 3]);
    let scores: Vec<i64> = candidates[0].iter().map(|c| c.score).collect();
    assert_eq!(
        scores,
        vec![key((0.5f64).ln()), key((0.3f64).ln()), key((0.2f64).ln()), NEG_INFINITY]
    );
}

#[test]
fn a_step_finishes_hypotheses_and_reorders_the_rows() {
    let config = beam_config(2, 2, 4);
    let search = start(&config, &vec![vec![1]], None);
    let candidates = candidates_of(&search, ending_model);
    let search = search.step(candidates).unwrap();
    assert_eq!(search.input_ids(), &vec![vec![1, 0], vec![1, 1]]);
    assert_eq!(search.attention_mask(), &vec![vec![1, 1], vec![1, 1]]);
    assert_eq!(search.beam_scores(), &vec![key((0.3f64).ln()), key((0.2f64).ln())]);
    assert_eq!(search.source_rows(), &vec![0, 0]);
    assert_eq!(search.done(), &vec![false]);
    assert_eq!(search.current_length(), 2);
    assert!(search.is_running());
}

#[test]
fn beam_search_returns_the_best_finished_hypotheses() {
    let config = beam_config(2, 2, 4);
    let search = start(&config, &vec![vec![1]], None);
    assert_eq!(decode(search, ending_model), vec![vec![1, 2, 2], vec![1, 0, 2]]);
}

#[test]
fn beam_search_pads_with_the_padding_token() {
    let config = beam_config(2, 2, 4);
    let search = start(&config, &vec![vec![1]], Some(0));
    assert_eq!(decode(search, ending_model), vec![vec![1, 2, 0], vec![1, 0, 2]]);
}

#[test]
fn beam_search_runs_to_max_length_where_nothing_ends() {
    let config = beam_config(2, 2, 4);
    let search = start(&config, &vec![vec![1]], None);
    // best continuations: 1 0 1 0 (0.7 * 0.6 * 0.7) and 1 0 0 1 (0.7 * 0.3 * 0.6)
    assert_eq!(decode(search, lasting_model), vec![vec![1, 0, 1, 0], vec![1, 0, 0, 1]]);
}

#[test]
fn beam_search_gives_the_same_result_twice() {
    let config = beam_config(2, 2, 6);
    let prompts = vec![vec![1, 0], vec![0, 0]];
    let first = decode(start(&config, &prompts, None), lasting_model);
    let second = decode(start(&config, &prompts, None), lasting_model);
    assert_eq!(first, second);
    let first = decode(start(&config, &prompts, None), ending_model);
    let second = decode(start(&config, &prompts, None), ending_model);
    assert_eq!(first, second);
}

#[test]
fn beam_search_returns_num_return_sequences_for_each_prompt() {
    let prompts = vec![vec![1, 0], vec![0, 0], vec![1, 1]];
    for (num_beams, num_return_sequences) in [(2, 1), (2, 2), (3, 2), (4, 4)] {
        let config = beam_config(num_beams, num_return_sequences, 6);
        let out = decode(start(&config, &prompts, None), lasting_model);
        assert_eq!(out.len(), 3 * num_return_sequences as usize);
        assert!(out.iter().all(|row| row.len() <= 6));
        let out = decode(start(&config, &prompts, None), ending_model);
        assert_eq!(out.len(), 3 * num_return_sequences as usize);
        assert!(out.iter().all(|row| row.len() <= 6));
    }
}

#[test]
fn a_done_item_is_filled_with_padding() {
    let config = beam_config(2, 1, 6);
    let mut search = start(&config, &vec![vec![1], vec![0]], Some(0));
    // item 0 ends at once; item 1 goes on
    let mut steps = 0;
    while search.is_running() && steps < 2 {
        let mut candidates = candidates_of(&search, ending_model);
        let lasting = candidates_of(&search, lasting_model);
        candidates[1] = lasting.into_iter().nth(1).unwrap();
        search = search.step(candidates).unwrap();
        steps += 1;
    }
    assert_eq!(search.done(), &vec![true, false]);
    assert_eq!(search.current_length(), 3);
    let candidates = candidates_of(&search, lasting_model);
    let search = search.step(candidates).unwrap();
    assert_eq!(search.input_ids()[0], vec![1, 0, 0, 0]);
    assert_eq!(search.input_ids()[1], vec![1, 0, 0, 0]);
    assert_eq!(search.beam_scores()[0], ZERO);
    assert_eq!(search.beam_scores()[1], ZERO);
    assert_eq!(search.source_rows()[0], 0);
    assert_eq!(search.source_rows()[1], 0);
    assert_eq!(search.input_ids()[2].len(), 4);
    assert_eq!(search.done(), &vec![true, false]);
}

#[test]
fn early_stopping_ends_an_item_as_soon_as_its_set_is_full() {
    let config = GenerateConfig { early_stopping: true, ..beam_config(2, 2, 8) };
    let search = start(&config, &vec![vec![1]], None);
    assert_eq!(decode(search, ending_model), vec![vec![1, 2, 2], vec![1, 0, 2]]);
}

#[test]
fn an_end_of_sequence_candidate_beyond_num_beams_is_passed_over() {
    let config = beam_config(2, 2, 4);
    let search = start(&config, &vec![vec![1]], None);
    let candidates = vec![vec![
        Candidate { index: 2, score: key(-0.1), normalized_score: key(-0.1) },
        Candidate { index: 5, score: key(-0.2), normalized_score: key(-0.4) },
        Candidate { index: 2, score: key(-0.3), normalized_score: key(-0.3) },
        Candidate { index: 2, score: key(-0.4), normalized_score: key(-0.2) },
        Candidate { index: 0, score: key(-0.5), normalized_score: key(-0.5) },
        Candidate { index: 4, score: key(-0.6), normalized_score: key(-0.6) },
    ]];
    let search = search.step(candidates).unwrap();
    assert_eq!(search.input_ids(), &vec![vec![1, 0], vec![1, 1]]);
    assert_eq!(search.source_rows(), &vec![0, 1]);
    assert_eq!(search.beam_scores(), &vec![key(-0.5), key(-0.6)]);
    assert_eq!(search.done(), &vec![false]);
    // The hypotheses kept have the scores -0.1 and -0.3: the candidate at
    // place 3 was not offered, or a row of score -0.25 could not come in.
    let normalized = vec![key(-0.25), key(-0.5)];
    assert_eq!(search.finalize(&normalized), Ok(vec![vec![1, 2, 2], vec![1, 0, 2]]));
}

#[test]
fn a_step_needs_enough_candidates_that_go_on() {
    let config = beam_config(2, 2, 4);
    let search = start(&config, &vec![vec![1]], None);
    let candidates = vec![vec![
        Candidate { index: 2, score: key(-0.1), normalized_score: key(-0.1) },
        Candidate { index: 0, score: key(-0.5), normalized_score: key(-0.5) },
    ]];
    assert_eq!(search.step(candidates).err(), Some(GenerationError::BeamIncomplete));
    let search = start(&config, &vec![vec![1]], None);
    assert_eq!(search.step(vec![vec![]]).err(), Some(GenerationError::BeamIncomplete));
}

#[test]
fn a_step_refuses_what_does_not_fit() {
    let config = beam_config(2, 2, 4);
    let search = start(&config, &vec![vec![1]], None);
    assert_eq!(search.step(vec![]).err(), Some(GenerationError::ShapeMismatch));
    let search = start(&config, &vec![vec![1]], None);
    let candidates =
        vec![vec![Candidate { index: 6, score: key(-0.1), normalized_score: key(-0.1) }]];
    assert_eq!(search.step(candidates).err(), Some(GenerationError::InvalidCandidate));
    let search = start(&config, &vec![vec![1]], None);
    let candidates =
        vec![vec![Candidate { index: -1, score: key(-0.1), normalized_score: key(-0.1) }]];
    assert_eq!(search.step(candidates).err(), Some(GenerationError::InvalidCandidate));
    let search = start(&config, &vec![vec![1]], None);
    assert_eq!(
        search.rank_candidates(&vec![vec![0; VOCAB]]).err(),
        Some(GenerationError::ShapeMismatch)
    );
    let search = start(&config, &vec![vec![1]], None);
    assert_eq!(
        search.rank_candidates(&vec![vec![0; VOCAB], vec![0; VOCAB + 1]]).err(),
        Some(GenerationError::ShapeMismatch)
    );
    assert_eq!(
        search.filter_scores(vec![vec![0; VOCAB]]).err(),
        Some(GenerationError::ShapeMismatch)
    );
    assert_eq!(search.finalize(&vec![ZERO]).err(), Some(GenerationError::ShapeMismatch));
}

#[test]
fn no_step_follows_the_end() {
    let config = beam_config(2, 2, 1);
    let search = start(&config, &vec![vec![1]], None);
    assert!(!search.is_running());
    assert_eq!(search.step(vec![vec![]]).err(), Some(GenerationError::NotRunning));
    let search = start(&config, &vec![vec![1]], None);
    assert_eq!(search.finalize(&vec![ZERO, NEG_INFINITY]), Ok(vec![vec![1], vec![1]]));
}

#[test]
fn a_search_needs_items_beams_and_a_vocabulary() {
    let config = beam_config(2, 2, 4);
    let ids = vec![vec![1], vec![1]];
    let mask = vec![vec![1], vec![1]];
    assert_eq!(
        BeamSearch::new(vec![], vec![], 0, VOCAB, &config, None, None).err(),
        Some(GenerationError::EmptyBatch)
    );
    assert_eq!(
        BeamSearch::new(ids.clone(), mask.clone(), 1, 0, &config, None, None).err(),
        Some(GenerationError::EmptyVocabulary)
    );
    let no_beams = beam_config(0, 1, 4);
    assert_eq!(
        BeamSearch::new(ids.clone(), mask.clone(), 1, VOCAB, &no_beams, None, None).err(),
        Some(GenerationError::NoBeams)
    );
    let too_many = beam_config(2, 3, 4);
    assert_eq!(
        BeamSearch::new(ids.clone(), mask.clone(), 1, VOCAB, &too_many, None, None).err(),
        Some(GenerationError::SequenceCount)
    );
    assert_eq!(
        BeamSearch::new(ids.clone(), mask.clone(), 2, VOCAB, &config, None, None).err(),
        Some(GenerationError::ShapeMismatch)
    );
    assert_eq!(
        BeamSearch::new(ids.clone(), vec![vec![1]], 1, VOCAB, &config, None, None).err(),
        Some(GenerationError::ShapeMismatch)
    );
    assert!(BeamSearch::new(ids, mask, 1, VOCAB, &config, None, None).is_ok());
}

#[test]
fn padding_results_needs_the_special_tokens() {
    let config = beam_config(2, 2, 4);
    let ids = vec![vec![1], vec![1]];
    let mask = vec![vec![1], vec![1]];
    let search =
        BeamSearch::new(ids, mask, 1, VOCAB, &config, None, Some(vec![EOS])).unwrap();
    let candidates = vec![vec![
        Candidate { index: 2, score: key(-0.1), normalized_score: key(-0.1) },
        Candidate { index: 0, score: key(-0.5), normalized_score: key(-0.5) },
        Candidate { index: 1, score: key(-0.6), normalized_score: key(-0.6) },
    ]];
    let search = search.step(candidates).unwrap();
    let normalized = vec![key(-0.05), key(-0.2)];
    assert_eq!(search.finalize(&normalized).err(), Some(GenerationError::MissingSpecialToken));
}

#[test]
fn drawn_candidates_are_brought_into_order() {
    let ranked = order_candidates(&vec![7, 3, 5, 1], &vec![key(-2.0), key(-0.5), key(-2.0), key(-1.0)])
        .unwrap();
    let indices: Vec<i64> = ranked.iter().map(|r| r.index).collect();
    let scores: Vec<i64> = ranked.iter().map(|r| r.score).collect();
    assert_eq!(indices, vec![3, 1, 7, 5]);
    assert_eq!(scores, vec![key(-0.5), key(-1.0), key(-2.0), key(-2.0)]);
    assert!(order_candidates(&vec![7, 3], &vec![key(-2.0)]).is_none());
}

#[test]
fn a_done_item_needs_a_padding_token() {
    let config = beam_config(2, 2, 6);
    let ids = vec![vec![1], vec![1], vec![0], vec![0]];
    let mask = vec![vec![1], vec![1], vec![1], vec![1]];
    let search = BeamSearch::new(ids, mask, 2, VOCAB, &config, None, Some(vec![EOS])).unwrap();
    let ending = vec![
        Candidate { index: 2, score: key(-0.1), normalized_score: key(-0.5) },
        Candidate { index: 5, score: key(-0.2), normalized_score: key(-0.2) },
        Candidate { index: 0, score: key(-0.3), normalized_score: key(-0.3) },
        Candidate { index: 1, score: key(-0.4), normalized_score: key(-0.4) },
    ];
    let lasting = vec![
        Candidate { index: 0, score: key(-0.3), normalized_score: key(-0.3) },
        Candidate { index: 1, score: key(-0.4), normalized_score: key(-0.4) },
    ];
    let search = search.step(vec![ending, lasting]).unwrap();
    assert_eq!(search.done(), &vec![true, false]);
    assert!(search.is_running());
    let lasting = vec![
        Candidate { index: 0, score: key(-0.3), normalized_score: key(-0.3) },
        Candidate { index: 1, score: key(-0.4), normalized_score: key(-0.4) },
    ];
    assert_eq!(
        search.step(vec![vec![], lasting]).err(),
        Some(GenerationError::MissingSpecialToken)
    );
}

#[test]
fn padded_rows_are_no_longer_than_max_length() {
    let config = beam_config(2, 2, 3);
    let search = start(&config, &vec![vec![1]], Some(0));
    let candidates = vec![vec![
        Candidate { index: 2, score: key(-0.1), normalized_score: key(-0.1) },
        Candidate { index: 0, score: key(-0.3), normalized_score: key(-0.3) },
        Candidate { index: 1, score: key(-0.4), normalized_score: key(-0.4) },
    ]];
    let search = search.step(candidates).unwrap();
    let candidates = vec![vec![
        Candidate { index: 1, score: key(-0.5), normalized_score: key(-0.25) },
        Candidate { index: 3, score: key(-0.6), normalized_score: key(-0.3) },
    ]];
    let search = search.step(candidates).unwrap();
    assert_eq!(search.input_ids(), &vec![vec![1, 0, 1], vec![1, 1, 0]]);
    assert!(!search.is_running());
    let normalized = vec![key(-0.05), key(-0.5)];
    assert_eq!(search.finalize(&normalized), Ok(vec![vec![1, 0, 1], vec![1, 2, 0]]));
}

#[test]
fn a_beam_search_without_banning_lets_the_scores_pass_unchanged() {
    let config = beam_config(2, 1, 6);
    let search = start(&config, &vec![vec![1, 0, 1, 0]], None);
    let scores: Vec<Vec<i64>> = search
        .input_ids()
        .iter()
        .map(|row| lasting_model(row).iter().map(|x| key(*x)).collect())
        .collect();
    assert_eq!(search.filter_scores(scores.clone()), Ok(scores));
}

#[test]
fn a_beam_keeps_two_tokens_and_draws_twice_its_beams() {
    let config = GenerateConfig { do_sample: true, ..beam_config(2, 1, 6) };
    let search = start(&config, &vec![vec![1, 0]], None);
    assert_eq!(search.min_tokens_to_keep(), 2);
    assert_eq!(search.candidates_to_draw(), 4);
    let config = GenerateConfig { do_sample: true, ..beam_config(5, 1, 6) };
    let search = start(&config, &vec![vec![1, 0]], None);
    assert_eq!(search.candidates_to_draw(), 10);
    let ids = vec![vec![1]; 3];
    let mask = vec![vec![1]; 3];
    let config = GenerateConfig { do_sample: true, ..beam_config(3, 1, 6) };
    let narrow = BeamSearch::new(ids, mask, 1, 1, &config, None, None).unwrap();
    assert_eq!(narrow.candidates_to_draw(), 3);
}
