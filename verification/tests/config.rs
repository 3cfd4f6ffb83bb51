use text_generation::config::{ConfigError, GenerateConfig, NINE_TENTHS};
use text_generation::number::{INFINITY, ONE, ZERO};

fn key(x: f64) -> i64 {
    let bits = x.to_bits() as i64;
    bits ^ ((((bits >> 63) as u64) >> 1) as i64)
}

#[test]
fn default_configuration_has_the_documented_values() {
    let config = GenerateConfig::default();
    assert_eq!(config.min_length, 0);
    assert_eq!(config.max_length, 20);
    assert!(config.do_sample);
    assert!(!config.early_stopping);
    assert_eq!(config.num_beams, 5);
    assert_eq!(config.temperature, key(1.0));
    assert_eq!(config.top_k, 0);
    assert_eq!(config.top_p, key(0.9));
    assert_eq!(config.top_p, NINE_TENTHS);
    assert_eq!(config.repetition_penalty, key(1.0));
    assert_eq!(config.length_penalty, key(1.0));
    assert_eq!(config.no_repeat_ngram_size, 3);
    assert_eq!(config.num_return_sequences, 1);
    assert_eq!(config.find_violation(), None);
}

#[test]
fn temperature_must_be_positive() {
    let zero = GenerateConfig { temperature: ZERO, ..Default::default() };
    assert_eq!(zero.find_violation(), Some(ConfigError::Temperature));
    let negative = GenerateConfig { temperature: key(-1.5), ..Default::default() };
    assert_eq!(negative.find_violation(), Some(ConfigError::Temperature));
    let not_a_number = GenerateConfig { temperature: key(f64::NAN), ..Default::default() };
    assert_eq!(not_a_number.find_violation(), Some(ConfigError::Temperature));
    let tiny = GenerateConfig { temperature: key(5.0e-324), ..Default::default() };
    assert_eq!(tiny.find_violation(), None);
    let huge = GenerateConfig { temperature: INFINITY, ..Default::default() };
    assert_eq!(huge.find_violation(), None);
}

#[test]
fn top_p_must_lie_between_zero_and_one() {
    let above = GenerateConfig { top_p: key(1.000001), ..Default::default() };
    assert_eq!(above.find_violation(), Some(ConfigError::TopP));
    let below = GenerateConfig { top_p: key(-0.1), ..Default::default() };
    assert_eq!(below.find_violation(), Some(ConfigError::TopP));
    let one = GenerateConfig { top_p: ONE, ..Default::default() };
    assert_eq!(one.find_violation(), None);
    let zero = GenerateConfig { top_p: ZERO, ..Default::default() };
    assert_eq!(zero.find_violation(), None);
    let negative_zero = GenerateConfig { top_p: key(-0.0), ..Default::default() };
    assert_eq!(negative_zero.find_violation(), None);
}

#[test]
fn penalties_have_their_bounds() {
    let weak = GenerateConfig { repetition_penalty: key(0.99), ..Default::default() };
    assert_eq!(weak.find_violation(), Some(ConfigError::RepetitionPenalty));
    let strong = GenerateConfig { repetition_penalty: key(1.2), ..Default::default() };
    assert_eq!(strong.find_violation(), None);
    let flat = GenerateConfig { length_penalty: ZERO, ..Default::default() };
    assert_eq!(flat.find_violation(), Some(ConfigError::LengthPenalty));
    let long = GenerateConfig { length_penalty: key(2.0), ..Default::default() };
    assert_eq!(long.find_violation(), None);
}

#[test]
fn counts_must_be_positive() {
    let none = GenerateConfig { num_return_sequences: 0, ..Default::default() };
    assert_eq!(none.find_violation(), Some(ConfigError::NumReturnSequences));
    let no_beams = GenerateConfig { num_beams: 0, ..Default::default() };
    assert_eq!(no_beams.find_violation(), Some(ConfigError::NumBeams));
}

#[test]
fn return_sequences_are_bounded_without_sampling() {
    let greedy = GenerateConfig {
        do_sample: false,
        num_beams: 1,
        num_return_sequences: 2,
        ..Default::default()
    };
    assert_eq!(greedy.find_violation(), Some(ConfigError::GreedyReturnSequences));
    let beams = GenerateConfig {
        do_sample: false,
        num_beams: 3,
        num_return_sequences: 4,
        ..Default::default()
    };
    assert_eq!(beams.find_violation(), Some(ConfigError::BeamReturnSequences));
    let all_beams = GenerateConfig {
        do_sample: false,
        num_beams: 3,
        num_return_sequences: 3,
        ..Default::default()
    };
    assert_eq!(all_beams.find_violation(), None);
    let sampled = GenerateConfig {
        do_sample: true,
        num_beams: 1,
        num_return_sequences: 7,
        ..Default::default()
    };
    assert_eq!(sampled.find_violation(), None);
}

#[test]
fn the_first_broken_rule_is_reported() {
    let config = GenerateConfig {
        temperature: ZERO,
        top_p: key(2.0),
        num_beams: 0,
        ..Default::default()
    };
    assert_eq!(config.find_violation(), Some(ConfigError::Temperature));
    let config = GenerateConfig { top_p: key(2.0), num_beams: 0, ..Default::default() };
    assert_eq!(config.find_violation(), Some(ConfigError::TopP));
}

#[test]
fn errors_say_what_is_wrong() {
    assert_eq!(ConfigError::Temperature.message(), "temperature must positive");
    assert_eq!(ConfigError::TopP.message(), "top_p must be 0 and 1");
    assert_eq!(
        ConfigError::RepetitionPenalty.message(),
        "repetition_penalty must be greater than 1"
    );
    assert_eq!(
        ConfigError::LengthPenalty.message(),
        "length_penalty must be strictly greater than 0"
    );
    assert_eq!(
        ConfigError::NumReturnSequences.message(),
        "num_return_sequences must be strictly greater than 0"
    );
    assert_eq!(ConfigError::NumBeams.message(), "num_beams must be strictly greater than 0");
    assert_eq!(
        ConfigError::GreedyReturnSequences.message(),
        "num_return_sequences must be set to 1 for greedy decoding"
    );
    assert_eq!(
        ConfigError::BeamReturnSequences.message(),
        "num_return_sequences must be lower than the number of beams"
    );
}

#[test]
fn a_valid_configuration_passes() {
    let config = GenerateConfig::default();
    config.validate();
    assert_eq!(config.find_violation(), None);
    let beams = GenerateConfig {
        do_sample: false,
        num_beams: 3,
        num_return_sequences: 3,
        ..Default::default()
    };
    beams.validate();
    assert_eq!(beams.num_return_sequences, 3);
}
