use text_generation::config::{ConfigError, GenerateConfig};
use text_generation::error::GenerationError;
use text_generation::generation::{resolve_pad_token, start_generation, Decoder};
use text_generation::generators::{
    select_last_column, GPT2Generator, LanguageGenerator, OpenAIGenerator,
    PrivateLanguageGenerator,
};
use text_generation::keywords::KeywordScorerType;
use text_generation::number::ZERO;

fn rows_of(decoder: &Decoder) -> Vec<Vec<i64>> {
    match decoder {
        Decoder::BeamSearch(search) => search.input_ids().clone(),
        Decoder::NoBeamSearch(search) => search.input_ids().clone(),
    }
}

fn mask_of(decoder: &Decoder) -> Vec<Vec<i64>> {
    match decoder {
        Decoder::BeamSearch(search) => search.attention_mask().clone(),
        Decoder::NoBeamSearch(search) => search.attention_mask().clone(),
    }
}

#[test]
fn the_padding_token_falls_back_to_the_first_end_of_sequence_token() {
    assert_eq!(resolve_pad_token(Some(4), &Some(vec![7, 8])), Some(4));
    assert_eq!(resolve_pad_token(None, &Some(vec![7, 8])), Some(7));
    assert_eq!(resolve_pad_token(None, &Some(vec![])), None);
    assert_eq!(resolve_pad_token(None, &None), None);
}

#[test]
fn greedy_decoding_gets_one_row_for_each_prompt() {
    let config = GenerateConfig { do_sample: false, num_beams: 1, ..Default::default() };
    let prompts = vec![vec![1, 2, 3], vec![4]];
    let decoder =
        start_generation(&config, Some(&prompts), None, None, Some(vec![9]), None, 0, 10).unwrap();
    assert!(matches!(decoder, Decoder::NoBeamSearch(_)));
    assert_eq!(rows_of(&decoder), vec![vec![1, 2, 3], vec![9, 9, 4]]);
    assert_eq!(mask_of(&decoder), vec![vec![1, 1, 1], vec![1, 1, 1]]);
}

#[test]
fn the_mask_hides_the_configured_padding_token() {
    let config = GenerateConfig { do_sample: false, num_beams: 1, ..Default::default() };
    let prompts = vec![vec![1, 2, 3], vec![4]];
    let decoder =
        start_generation(&config, Some(&prompts), None, None, Some(vec![9]), Some(0), 5, 10)
            .unwrap();
    assert_eq!(rows_of(&decoder), vec![vec![1, 2, 3], vec![0, 0, 4]]);
    assert_eq!(mask_of(&decoder), vec![vec![1, 1, 1], vec![0, 0, 1]]);
}

#[test]
fn the_unknown_token_pads_where_there_is_no_other() {
    let config = GenerateConfig { do_sample: false, num_beams: 1, ..Default::default() };
    let prompts = vec![vec![1, 2, 3], vec![4]];
    let decoder = start_generation(&config, Some(&prompts), None, None, None, None, 5, 10).unwrap();
    assert_eq!(rows_of(&decoder), vec![vec![1, 2, 3], vec![5, 5, 4]]);
    assert_eq!(mask_of(&decoder), vec![vec![1, 1, 1], vec![1, 1, 1]]);
}

#[test]
fn a_given_mask_is_kept() {
    let config = GenerateConfig { do_sample: false, num_beams: 2, ..Default::default() };
    let prompts = vec![vec![1, 2], vec![3, 4]];
    let mask = vec![vec![0, 1], vec![1, 0]];
    let decoder =
        start_generation(&config, Some(&prompts), Some(mask), None, None, None, 5, 10).unwrap();
    assert!(matches!(decoder, Decoder::BeamSearch(_)));
    assert_eq!(rows_of(&decoder), vec![vec![1, 2], vec![1, 2], vec![3, 4], vec![3, 4]]);
    assert_eq!(mask_of(&decoder), vec![vec![0, 1], vec![0, 1], vec![1, 0], vec![1, 0]]);
}

#[test]
fn a_mask_of_another_shape_is_refused() {
    let config = GenerateConfig { do_sample: false, num_beams: 2, ..Default::default() };
    let prompts = vec![vec![1, 2], vec![3, 4]];
    let result = start_generation(&config, Some(&prompts), Some(vec![vec![1, 1]]), None, None, None, 5, 10);
    assert_eq!(result.err(), Some(GenerationError::ShapeMismatch));
    let mask = vec![vec![1, 1], vec![1]];
    let result = start_generation(&config, Some(&prompts), Some(mask), None, None, None, 5, 10);
    assert_eq!(result.err(), Some(GenerationError::ShapeMismatch));
}

#[test]
fn sampling_gets_a_row_for_each_sequence_of_each_prompt() {
    let config = GenerateConfig {
        do_sample: true,
        num_beams: 1,
        num_return_sequences: 3,
        ..Default::default()
    };
    let prompts = vec![vec![1, 2], vec![3, 4]];
    let decoder = start_generation(&config, Some(&prompts), None, None, None, None, 5, 10).unwrap();
    assert!(matches!(decoder, Decoder::NoBeamSearch(_)));
    assert_eq!(
        rows_of(&decoder),
        vec![vec![1, 2], vec![1, 2], vec![1, 2], vec![3, 4], vec![3, 4], vec![3, 4]]
    );
    if let Decoder::NoBeamSearch(search) = decoder {
        let mut search = search;
        while search.is_running() {
            search = search.advance(&vec![1, 2, 3, 4, 5, 6]).unwrap();
        }
        assert_eq!(search.finish().unwrap().len(), 2 * 3);
    }
}

#[test]
fn sampling_with_beams_gets_a_row_for_each_beam_of_each_sequence() {
    let config = GenerateConfig {
        do_sample: true,
        num_beams: 2,
        num_return_sequences: 3,
        ..Default::default()
    };
    let prompts = vec![vec![1, 2], vec![3, 4]];
    let decoder = start_generation(&config, Some(&prompts), None, None, None, None, 5, 10).unwrap();
    assert_eq!(rows_of(&decoder).len(), 2 * 3 * 2);
    match decoder {
        Decoder::BeamSearch(search) => {
            assert_eq!(search.done().len(), 2 * 3);
            assert_eq!(search.beam_scores(), &vec![ZERO; 12]);
        }
        Decoder::NoBeamSearch(_) => panic!("no beam search was set up"),
    }
}

#[test]
fn beam_search_without_sampling_gets_a_row_for_each_beam() {
    let config = GenerateConfig {
        do_sample: false,
        num_beams: 3,
        num_return_sequences: 2,
        ..Default::default()
    };
    let prompts = vec![vec![1, 2], vec![3, 4]];
    let decoder = start_generation(&config, Some(&prompts), None, None, None, None, 5, 10).unwrap();
    assert_eq!(rows_of(&decoder).len(), 2 * 3);
    match decoder {
        Decoder::BeamSearch(search) => assert_eq!(search.done().len(), 2),
        Decoder::NoBeamSearch(_) => panic!("no beam search was set up"),
    }
}

#[test]
fn without_a_prompt_generation_starts_from_the_beginning_of_sequence_token() {
    let config = GenerateConfig { do_sample: false, num_beams: 1, ..Default::default() };
    let decoder = start_generation(&config, None, None, Some(8), None, None, 5, 10).unwrap();
    assert_eq!(rows_of(&decoder), vec![vec![8]]);
}

#[test]
fn prompts_are_cut_to_max_length() {
    let config =
        GenerateConfig { do_sample: false, num_beams: 1, max_length: 2, ..Default::default() };
    let prompts = vec![vec![1, 2, 3], vec![4]];
    let decoder = start_generation(&config, Some(&prompts), None, None, None, None, 5, 10).unwrap();
    assert_eq!(rows_of(&decoder), vec![vec![1, 2], vec![5, 4]]);
}

#[test]
fn a_run_needs_prompts_and_beams() {
    let config = GenerateConfig { do_sample: false, num_beams: 1, ..Default::default() };
    let none: Vec<Vec<i64>> = vec![];
    let result = start_generation(&config, Some(&none), None, Some(8), None, None, 5, 10);
    assert_eq!(result.err(), Some(GenerationError::EmptyBatch));
    let config = GenerateConfig { num_beams: 0, ..Default::default() };
    let result = start_generation(&config, Some(&vec![vec![1]]), None, None, None, None, 5, 10);
    assert_eq!(result.err(), Some(GenerationError::NoBeams));
    let config = GenerateConfig { do_sample: false, num_beams: 2, ..Default::default() };
    let result = start_generation(&config, Some(&vec![vec![1]]), None, None, None, None, 5, 0);
    assert_eq!(result.err(), Some(GenerationError::EmptyVocabulary));
    let config = GenerateConfig {
        do_sample: false,
        num_beams: 2,
        num_return_sequences: 3,
        ..Default::default()
    };
    let result = start_generation(&config, Some(&vec![vec![1]]), None, None, None, None, 5, 10);
    assert_eq!(result.err(), Some(GenerationError::SequenceCount));
}

#[test]
fn an_open_ai_generator_has_no_special_tokens() {
    let generator = OpenAIGenerator::new(GenerateConfig::default());
    assert_eq!(generator.get_config().num_beams, 5);
    assert_eq!(generator.get_bos_id(), &None);
    assert_eq!(generator.get_eos_ids(), &None);
    assert_eq!(generator.get_pad_id(), &None);
    let batch = vec![vec![1, 2, 3], vec![4, 5, 6]];
    assert_eq!(generator.prepare_inputs_for_generation(&batch, false), batch);
    assert_eq!(generator.prepare_inputs_for_generation(&batch, true), batch);
    let decoder = generator.generate(Some(&vec![vec![1, 2], vec![3]]), None, 7, 10).unwrap();
    assert_eq!(rows_of(&decoder).len(), 2 * 5);
    assert_eq!(rows_of(&decoder)[9], vec![7, 3]);
}

#[test]
fn a_gpt2_generator_has_a_beginning_and_an_end() {
    let generator = GPT2Generator::new(GenerateConfig::default(), 50256, 50256);
    assert_eq!(generator.get_bos_id(), &Some(50256));
    assert_eq!(generator.get_eos_ids(), &Some(vec![50256]));
    assert_eq!(generator.get_pad_id(), &None);
    let batch = vec![vec![1, 2, 3], vec![4, 5, 6]];
    assert_eq!(generator.prepare_inputs_for_generation(&batch, false), batch);
    assert_eq!(generator.prepare_inputs_for_generation(&batch, true), vec![vec![3], vec![6]]);
    let decoder = generator.generate(None, None, 7, 50257).unwrap();
    assert_eq!(rows_of(&decoder), vec![vec![50256]; 5]);
    let decoder = generator.generate(Some(&vec![vec![1, 2], vec![3]]), None, 7, 50257).unwrap();
    assert_eq!(rows_of(&decoder)[9], vec![50256, 3]);
    assert_eq!(mask_of(&decoder)[9], vec![1, 1]);
}

#[test]
fn a_generator_keeps_its_configuration() {
    let config = GenerateConfig {
        do_sample: false,
        num_beams: 3,
        num_return_sequences: 2,
        max_length: 7,
        ..Default::default()
    };
    assert_eq!(config.find_violation(), None);
    let generator = GPT2Generator::new(config, 1, 2);
    assert_eq!(generator.get_config().num_beams, 3);
    assert_eq!(generator.get_config().num_return_sequences, 2);
    assert_eq!(generator.get_config().max_length, 7);
    assert!(!generator.get_config().do_sample);
}

#[test]
fn an_invalid_configuration_is_found_before_a_generator_is_built() {
    let config = GenerateConfig { num_beams: 0, ..Default::default() };
    assert_eq!(config.find_violation(), Some(ConfigError::NumBeams));
    let config = GenerateConfig { temperature: ZERO, ..Default::default() };
    assert_eq!(config.find_violation(), Some(ConfigError::Temperature));
}

#[test]
fn the_last_column_is_the_last_token_of_each_row() {
    assert_eq!(select_last_column(&vec![vec![1, 2], vec![3], vec![]]), vec![vec![2], vec![3], vec![]]);
}

#[test]
fn keyword_scorers_are_told_apart() {
    assert_ne!(KeywordScorerType::CosineSimilarity, KeywordScorerType::MaxSum);
    assert_ne!(KeywordScorerType::MaximalMarginRelevance, KeywordScorerType::MaxSum);
    assert_eq!(KeywordScorerType::MaxSum, KeywordScorerType::MaxSum);
}

#[test]
fn a_batch_beyond_what_can_be_addressed_is_refused() {
    let config = GenerateConfig {
        do_sample: true,
        num_beams: 1,
        num_return_sequences: u64::MAX,
        ..Default::default()
    };
    let prompts = vec![vec![1, 2], vec![3, 4]];
    let result = start_generation(&config, Some(&prompts), None, None, None, None, 5, 10);
    assert_eq!(result.err(), Some(GenerationError::TooLarge));
}
