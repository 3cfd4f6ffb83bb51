//! What a decoder without beams is in contracts: its state, and what a step
//! and the end make of it.

use crate::config::GenerateConfig;
use crate::error::GenerationError;
use crate::filters::filtered_row;
use crate::matrix::{has_width, with_constant_column};
use crate::number::Number;
use crate::ranking::first_maximum;
use vstd::prelude::*;

verus! {

/// The greatest entry; zero where there is none.
pub open spec fn greatest(s: Seq<u64>) -> nat
    decreases s.len(),
{
    if s.len() == 0 {
        0
    } else {
        let before = greatest(s.drop_last());
        if s.last() > before {
            s.last() as nat
        } else {
            before
        }
    }
}

/// All entries are equal.
pub open spec fn all_equal(s: Seq<u64>) -> bool {
    forall|i: int| 0 <= i < s.len() ==> #[trigger] s[i] == s[0]
}

/// What a decoder without beams is in contracts.
pub struct NoBeamSearchView {
    /// The number of rows.
    pub batch_size: nat,
    /// The length under which no sequence may end.
    pub min_length: nat,
    /// The length at which every sequence ends.
    pub max_length: nat,
    /// The size of the n-grams that may not occur twice.
    pub no_repeat_ngram_size: nat,
    /// The token that fills a row once it is finished.
    pub pad_token_id: Option<i64>,
    /// The tokens that end a sequence.
    pub eos_token_ids: Option<Seq<i64>>,
    /// The number of tokens that each row had at the start.
    pub prompt_length: nat,
    /// Whether each row still grows.
    pub unfinished_sentences: Seq<bool>,
    /// The length of each row's sequence: up to and with its end-of-sequence
    /// token once it has one, and `max_length` until then.
    pub sentence_lengths: Seq<u64>,
    /// The tokens of each row.
    pub input_ids: Seq<Seq<i64>>,
    /// The attention mask, of the shape of `input_ids`.
    pub attention_mask: Seq<Seq<i64>>,
    /// The number of tokens of each row.
    pub current_length: nat,
    /// Whether a step left no row unfinished.
    pub finished: bool,
}

impl NoBeamSearchView {
    /// Whether the token ends a sequence.
    pub open spec fn is_eos(self, token: i64) -> bool {
        self.eos_token_ids matches Some(ids) && ids.contains(token)
    }

    /// The padding token, or zero where there is none.
    pub open spec fn pad(self) -> i64 {
        match self.pad_token_id {
            Some(p) => p,
            None => 0,
        }
    }

    /// The end of row `i`: its length once it is finished, and the current
    /// length until then.
    pub open spec fn end_of(self, i: int) -> int {
        if self.unfinished_sentences[i] {
            self.current_length as int
        } else {
            self.sentence_lengths[i] as int
        }
    }

    /// The shapes agree. A row that still grows has generated no
    /// end-of-sequence token. A finished row ends with the only one it has
    /// generated, and holds nothing but padding after it.
    pub open spec fn wf(self) -> bool {
        &&& self.batch_size >= 1
        &&& self.unfinished_sentences.len() == self.batch_size
        &&& self.sentence_lengths.len() == self.batch_size
        &&& self.input_ids.len() == self.batch_size
        &&& self.attention_mask.len() == self.batch_size
        &&& has_width(self.input_ids, self.current_length)
        &&& has_width(self.attention_mask, self.current_length)
        &&& self.prompt_length <= self.current_length
        &&& self.current_length > self.prompt_length ==> self.current_length <= self.max_length
        &&& self.finished ==> forall|i: int|
            0 <= i < self.batch_size ==> !#[trigger] self.unfinished_sentences[i]
        &&& (exists|i: int| 0 <= i < self.batch_size && !#[trigger] self.unfinished_sentences[i])
            ==> self.eos_token_ids is Some && self.pad_token_id is Some
        &&& forall|i: int|
            0 <= i < self.batch_size && #[trigger] self.unfinished_sentences[i]
                ==> self.sentence_lengths[i] == self.max_length
        &&& forall|i: int|
            0 <= i < self.batch_size && !#[trigger] self.unfinished_sentences[i] ==> {
                &&& self.prompt_length < self.sentence_lengths[i] <= self.current_length
                &&& self.is_eos(self.input_ids[i][self.sentence_lengths[i] - 1])
            }
        &&& forall|i: int, j: int|
            0 <= i < self.batch_size && !self.unfinished_sentences[i] && self.sentence_lengths[i]
                <= j < self.current_length ==> #[trigger] self.input_ids[i][j] == self.pad()
        &&& forall|i: int, j: int|
            0 <= i < self.batch_size && self.prompt_length <= j < self.end_of(i) - (
            if self.unfinished_sentences[i] {
                0int
            } else {
                1int
            }) ==> !self.is_eos(#[trigger] self.input_ids[i][j])
    }

    /// Whether another step is due: some row still grows, and the rows are
    /// shorter than `max_length`.
    pub open spec fn running(self) -> bool {
        !self.finished && self.current_length < self.max_length
    }

    /// The scores of row `i` as the decoder lets them through: masked out are
    /// the tokens that would repeat an n-gram and, while the row is shorter
    /// than `min_length`, the tokens that would end it.
    pub open spec fn filtered_row(self, i: int, scores: Seq<Number>) -> Seq<Number> {
        filtered_row(
            scores,
            self.input_ids[i],
            self.no_repeat_ngram_size,
            self.eos_token_ids,
            self.current_length < self.min_length,
        )
    }

    /// Why `advance` fails; `None` where it does not.
    pub open spec fn advance_error(self, next_tokens: Seq<i64>) -> Option<GenerationError> {
        if !self.running() {
            Some(GenerationError::NotRunning)
        } else if next_tokens.len() != self.batch_size {
            Some(GenerationError::ShapeMismatch)
        } else if self.eos_token_ids is Some && self.pad_token_id is None {
            Some(GenerationError::MissingSpecialToken)
        } else {
            None
        }
    }

    /// For each row the token that greedy decoding chooses: the first of the
    /// tokens with the best score among those that the decoder lets through.
    pub open spec fn greedy_choice(self, scores: Seq<Seq<Number>>) -> Seq<i64> {
        Seq::new(
            self.batch_size,
            |i: int| first_maximum(self.filtered_row(i, scores[i])) as i64,
        )
    }

    /// Why `greedy_step` fails; `None` where it does not.
    pub open spec fn greedy_error(self, scores: Seq<Seq<Number>>) -> Option<GenerationError> {
        if !self.running() {
            Some(GenerationError::NotRunning)
        } else if scores.len() != self.batch_size {
            Some(GenerationError::ShapeMismatch)
        } else if exists|i: int|
            0 <= i < scores.len() && ((#[trigger] scores[i]).len() == 0 || scores[i].len()
                > i64::MAX) {
            Some(GenerationError::EmptyVocabulary)
        } else if self.eos_token_ids is Some && self.pad_token_id is None {
            Some(GenerationError::MissingSpecialToken)
        } else {
            None
        }
    }

    /// The token that row `i` gets: the token chosen for it, unless the row is
    /// finished; then padding.
    pub open spec fn token_to_add(self, i: int, next_tokens: Seq<i64>) -> i64 {
        if self.eos_token_ids is Some && !self.unfinished_sentences[i] {
            self.pad()
        } else {
            next_tokens[i]
        }
    }

    /// Whether row `i` ends with this step.
    pub open spec fn ends_now(self, i: int, next_tokens: Seq<i64>) -> bool {
        self.unfinished_sentences[i] && self.is_eos(next_tokens[i])
    }

    /// The decoder after each row got its token. A row that gets an
    /// end-of-sequence token is finished, and its length is noted, once.
    pub open spec fn advance(self, next_tokens: Seq<i64>) -> Self {
        let unfinished = Seq::new(
            self.batch_size,
            |i: int| self.unfinished_sentences[i] && !self.ends_now(i, next_tokens),
        );
        NoBeamSearchView {
            input_ids: Seq::new(
                self.batch_size,
                |i: int| self.input_ids[i].push(self.token_to_add(i, next_tokens)),
            ),
            attention_mask: with_constant_column(self.attention_mask, 1),
            current_length: self.current_length + 1,
            sentence_lengths: Seq::new(
                self.batch_size,
                |i: int|
                    if self.ends_now(i, next_tokens) {
                        (self.current_length + 1) as u64
                    } else {
                        self.sentence_lengths[i]
                    },
            ),
            unfinished_sentences: unfinished,
            finished: self.eos_token_ids is Some && forall|i: int|
                0 <= i < self.batch_size ==> !#[trigger] unfinished[i],
            ..self
        }
    }

    /// The result: the rows as they are where all sequences have one length
    /// or there is no padding token; otherwise each row's sequence, followed
    /// by padding up to the length of the longest.
    pub open spec fn finish(self) -> Seq<Seq<i64>> {
        if !all_equal(self.sentence_lengths) && self.pad_token_id is Some {
            Seq::new(
                self.batch_size,
                |i: int|
                    Seq::new(
                        greatest(self.sentence_lengths),
                        |j: int|
                            if j < self.sentence_lengths[i] {
                                self.input_ids[i][j]
                            } else {
                                self.pad()
                            },
                    ),
            )
        } else {
            self.input_ids
        }
    }
}

/// Why no decoder can be set up on these arguments; `None` where one can.
pub open spec fn new_error(
    input_ids: Seq<Seq<i64>>,
    attention_mask: Seq<Seq<i64>>,
    batch_size: nat,
) -> Option<GenerationError> {
    if batch_size == 0 {
        Some(GenerationError::EmptyBatch)
    } else if input_ids.len() != batch_size || attention_mask.len() != batch_size || !has_width(
        input_ids,
        input_ids[0].len(),
    ) || !has_width(attention_mask, input_ids[0].len()) {
        Some(GenerationError::ShapeMismatch)
    } else {
        None
    }
}

/// The decoder before its first step: every row still grows.
pub open spec fn initial(
    input_ids: Seq<Seq<i64>>,
    attention_mask: Seq<Seq<i64>>,
    batch_size: nat,
    config: GenerateConfig,
    pad_token_id: Option<i64>,
    eos_token_ids: Option<Seq<i64>>,
) -> NoBeamSearchView {
    NoBeamSearchView {
        batch_size,
        min_length: config.min_length as nat,
        max_length: config.max_length as nat,
        no_repeat_ngram_size: config.no_repeat_ngram_size as nat,
        pad_token_id,
        eos_token_ids,
        prompt_length: input_ids[0].len(),
        unfinished_sentences: Seq::new(batch_size, |i: int| true),
        sentence_lengths: Seq::new(batch_size, |i: int| config.max_length),
        input_ids,
        attention_mask,
        current_length: input_ids[0].len(),
        finished: false,
    }
}

} // verus!
