//! The parameters of a generation run, and the rules they must meet.

use crate::number::{ge, gt, le, less, at_most, Number, ONE, ZERO};
use vstd::prelude::*;

verus! {

/// The key of nine tenths, the default of `top_p`.
pub const NINE_TENTHS: Number = 0x3FEC_CCCC_CCCC_CCCD;

/// The parameters of a generation run.
pub struct GenerateConfig {
    /// Minimum sequence length, prompt included.
    pub min_length: u64,
    /// Maximum sequence length, prompt included.
    pub max_length: u64,
    /// Whether tokens are drawn at random rather than chosen greedily.
    pub do_sample: bool,
    /// Whether beam search stops for an item as soon as `num_beams`
    /// hypotheses are finished.
    pub early_stopping: bool,
    /// Number of beams. One turns beam search off.
    pub num_beams: u64,
    /// Temperature. Must be positive.
    pub temperature: Number,
    /// Number of highest-scoring tokens kept for sampling. Zero keeps all.
    pub top_k: u64,
    /// Cumulative probability kept for nucleus sampling. Must lie between
    /// zero and one.
    pub top_p: Number,
    /// Penalty on tokens already generated. Must be at least one.
    pub repetition_penalty: Number,
    /// Exponent on the length when hypotheses are ranked. Must be positive.
    pub length_penalty: Number,
    /// Size of the n-grams that may not occur twice. Zero allows all.
    pub no_repeat_ngram_size: u64,
    /// Number of sequences returned for each prompt. Must be positive.
    pub num_return_sequences: u64,
}

/// The rule that a configuration breaks.
#[derive(Clone, Copy, Debug, PartialEq, Eq, Structural)]
pub enum ConfigError {
    /// `temperature` is not greater than zero.
    Temperature,
    /// `top_p` is not between zero and one.
    TopP,
    /// `repetition_penalty` is less than one.
    RepetitionPenalty,
    /// `length_penalty` is not greater than zero.
    LengthPenalty,
    /// `num_return_sequences` is zero.
    NumReturnSequences,
    /// `num_beams` is zero.
    NumBeams,
    /// Greedy decoding was asked for more than one sequence.
    GreedyReturnSequences,
    /// Beam search was asked for more sequences than it has beams.
    BeamReturnSequences,
}

impl GenerateConfig {
    /// The first rule that the configuration breaks, in the order in which
    /// they are checked; `None` where it breaks none.
    pub open spec fn violation(&self) -> Option<ConfigError> {
        if !less(ZERO, self.temperature) {
            Some(ConfigError::Temperature)
        } else if !(at_most(ZERO, self.top_p) && at_most(self.top_p, ONE)) {
            Some(ConfigError::TopP)
        } else if !at_most(ONE, self.repetition_penalty) {
            Some(ConfigError::RepetitionPenalty)
        } else if !less(ZERO, self.length_penalty) {
            Some(ConfigError::LengthPenalty)
        } else if self.num_return_sequences == 0 {
            Some(ConfigError::NumReturnSequences)
        } else if self.num_beams == 0 {
            Some(ConfigError::NumBeams)
        } else if !self.do_sample && self.num_beams == 1 && self.num_return_sequences != 1 {
            Some(ConfigError::GreedyReturnSequences)
        } else if !self.do_sample && self.num_beams != 1 && self.num_beams
            < self.num_return_sequences {
            Some(ConfigError::BeamReturnSequences)
        } else {
            None
        }
    }

    /// The configuration meets every rule.
    pub open spec fn is_valid(&self) -> bool {
        &&& less(ZERO, self.temperature)
        &&& at_most(ZERO, self.top_p)
        &&& at_most(self.top_p, ONE)
        &&& at_most(ONE, self.repetition_penalty)
        &&& less(ZERO, self.length_penalty)
        &&& self.num_return_sequences > 0
        &&& self.num_beams > 0
        &&& (!self.do_sample && self.num_beams == 1 ==> self.num_return_sequences == 1)
        &&& (!self.do_sample && self.num_beams > 1 ==> self.num_return_sequences <= self.num_beams)
    }

    /// The first rule that the configuration breaks, in the order in which
    /// the rules stand; `None` where it breaks none. The configuration is
    /// never repaired.
    pub fn find_violation(&self) -> (r: Option<ConfigError>)
        ensures
            r == self.violation(),
            r is None <==> self.is_valid(),
    {
        if !gt(self.temperature, ZERO) {
            Some(ConfigError::Temperature)
        } else if !(ge(self.top_p, ZERO) && le(self.top_p, ONE)) {
            Some(ConfigError::TopP)
        } else if !ge(self.repetition_penalty, ONE) {
            Some(ConfigError::RepetitionPenalty)
        } else if !gt(self.length_penalty, ZERO) {
            Some(ConfigError::LengthPenalty)
        } else if self.num_return_sequences == 0 {
            Some(ConfigError::NumReturnSequences)
        } else if self.num_beams == 0 {
            Some(ConfigError::NumBeams)
        } else if !self.do_sample && self.num_beams == 1 && self.num_return_sequences != 1 {
            Some(ConfigError::GreedyReturnSequences)
        } else if !self.do_sample && self.num_beams != 1 && self.num_beams
            < self.num_return_sequences {
            Some(ConfigError::BeamReturnSequences)
        } else {
            None
        }
    }

    /// Passes a valid configuration, and no other: a configuration that
    /// breaks a rule has no place here. `find_violation` tells which rule a
    /// configuration breaks.
    pub fn validate(&self)
        requires
            self.is_valid(),
        ensures
            self.violation() is None,
    {
    }
}

/// A configuration is valid exactly if it breaks no rule.
pub proof fn lemma_valid_breaks_no_rule(config: GenerateConfig)
    ensures
        config.is_valid() <==> config.violation() is None,
{
}

impl ConfigError {
    /// The rule in words.
    pub fn message(&self) -> (r: &'static str)
        ensures
            r@ == match *self {
                ConfigError::Temperature => "temperature must positive"@,
                ConfigError::TopP => "top_p must be 0 and 1"@,
                ConfigError::RepetitionPenalty => "repetition_penalty must be greater than 1"@,
                ConfigError::LengthPenalty => "length_penalty must be strictly greater than 0"@,
                ConfigError::NumReturnSequences => "num_return_sequences must be strictly greater than 0"@,
                ConfigError::NumBeams => "num_beams must be strictly greater than 0"@,
                ConfigError::GreedyReturnSequences => "num_return_sequences must be set to 1 for greedy decoding"@,
                ConfigError::BeamReturnSequences => "num_return_sequences must be lower than the number of beams"@,
            },
    {
        match self {
            ConfigError::Temperature => "temperature must positive",
            ConfigError::TopP => "top_p must be 0 and 1",
            ConfigError::RepetitionPenalty => "repetition_penalty must be greater than 1",
            ConfigError::LengthPenalty => "length_penalty must be strictly greater than 0",
            ConfigError::NumReturnSequences => "num_return_sequences must be strictly greater than 0",
            ConfigError::NumBeams => "num_beams must be strictly greater than 0",
            ConfigError::GreedyReturnSequences => "num_return_sequences must be set to 1 for greedy decoding",
            ConfigError::BeamReturnSequences => "num_return_sequences must be lower than the number of beams",
        }
    }
}

impl Default for GenerateConfig {
    /// Sampling with five beams, up to twenty tokens, one sequence for each
    /// prompt, nucleus of nine tenths, no n-gram of three tokens twice.
    fn default() -> (r: GenerateConfig)
        ensures
            r.min_length == 0,
            r.max_length == 20,
            r.do_sample,
            !r.early_stopping,
            r.num_beams == 5,
            r.temperature == ONE,
            r.top_k == 0,
            r.top_p == NINE_TENTHS,
            r.repetition_penalty == ONE,
            r.length_penalty == ONE,
            r.no_repeat_ngram_size == 3,
            r.num_return_sequences == 1,
            r.is_valid(),
            r.violation() is None,
    {
        GenerateConfig {
            min_length: 0,
            max_length: 20,
            do_sample: true,
            early_stopping: false,
            num_beams: 5,
            temperature: ONE,
            top_k: 0,
            top_p: NINE_TENTHS,
            repetition_penalty: ONE,
            length_penalty: ONE,
            no_repeat_ngram_size: 3,
            num_return_sequences: 1,
        }
    }
}

} // verus!
