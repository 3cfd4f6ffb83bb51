//! Decoding with one hypothesis for each input row: greedy, or by sampling.
//!
//! The decoder is a state machine. The caller runs the language model on
//! `input_ids` and hands its scores to `greedy_step`, which gives each row the
//! token with the best score; or it has the scores filtered by
//! `filter_scores`, draws one token for each row at random and hands the
//! tokens to `advance`. When `is_running` turns false, `finish` gives the
//! result.
//!
//! What a decoder is in contracts, and what a step and the end do to it, is
//! laid down in `model`; what follows from that is proved in `laws`.

pub mod laws;
pub mod model;

use crate::beam_search::is_eos_token;
use crate::config::GenerateConfig;
use crate::error::GenerationError;
use crate::filters::filter_scores;
use crate::matrix::{append_column, append_constant_column, check_width, rows, token_list};
use crate::no_beam_search::laws::lemma_advance_preserves_wf;
use crate::no_beam_search::model::{greatest, initial, new_error, NoBeamSearchView};
use crate::number::Number;
use crate::ranking::greedy_tokens;
use vstd::prelude::*;

verus! {

/// The decoder of a batch, one hypothesis for each row.
pub struct NoBeamSearch {
    batch_size: usize,
    min_length: u64,
    max_length: u64,
    no_repeat_ngram_size: u64,
    pad_token_id: Option<i64>,
    eos_token_ids: Option<Vec<i64>>,
    prompt_length: usize,
    unfinished_sentences: Vec<bool>,
    sentence_lengths: Vec<u64>,
    input_ids: Vec<Vec<i64>>,
    attention_mask: Vec<Vec<i64>>,
    current_length: usize,
    finished: bool,
}

impl View for NoBeamSearch {
    type V = NoBeamSearchView;

    closed spec fn view(&self) -> NoBeamSearchView {
        NoBeamSearchView {
            batch_size: self.batch_size as nat,
            min_length: self.min_length as nat,
            max_length: self.max_length as nat,
            no_repeat_ngram_size: self.no_repeat_ngram_size as nat,
            pad_token_id: self.pad_token_id,
            eos_token_ids: token_list(self.eos_token_ids),
            prompt_length: self.prompt_length as nat,
            unfinished_sentences: self.unfinished_sentences@,
            sentence_lengths: self.sentence_lengths@,
            input_ids: rows(self.input_ids@),
            attention_mask: rows(self.attention_mask@),
            current_length: self.current_length as nat,
            finished: self.finished,
        }
    }
}

impl NoBeamSearch {
    /// Sets up the decoding of a batch.
    pub fn new(
        input_ids: Vec<Vec<i64>>,
        attention_mask: Vec<Vec<i64>>,
        batch_size: usize,
        config: &GenerateConfig,
        pad_token_id: Option<i64>,
        eos_token_ids: Option<Vec<i64>>,
    ) -> (r: Result<NoBeamSearch, GenerationError>)
        ensures
            match r {
                Ok(search) => new_error(rows(input_ids@), rows(attention_mask@), batch_size as nat)
                    is None && search@ == initial(
                    rows(input_ids@),
                    rows(attention_mask@),
                    batch_size as nat,
                    *config,
                    pad_token_id,
                    token_list(eos_token_ids),
                ) && search@.wf(),
                Err(e) => new_error(rows(input_ids@), rows(attention_mask@), batch_size as nat)
                    == Some(e),
            },
    {
        if batch_size == 0 {
            return Err(GenerationError::EmptyBatch);
        }
        if input_ids.len() != batch_size || attention_mask.len() != batch_size {
            return Err(GenerationError::ShapeMismatch);
        }
        let current_length: usize = input_ids[0].len();
        assert(rows(input_ids@)[0].len() == current_length);
        if !check_width(&input_ids, current_length) || !check_width(&attention_mask, current_length) {
            return Err(GenerationError::ShapeMismatch);
        }
        let mut unfinished_sentences: Vec<bool> = Vec::new();
        let mut sentence_lengths: Vec<u64> = Vec::new();
        let mut i: usize = 0;
        while i < batch_size
            invariant
                i <= batch_size,
                unfinished_sentences.len() == i,
                sentence_lengths.len() == i,
                forall|k: int| 0 <= k < i ==> #[trigger] unfinished_sentences[k],
                forall|k: int| 0 <= k < i ==> #[trigger] sentence_lengths[k] == config.max_length,
            decreases batch_size - i,
        {
            unfinished_sentences.push(true);
            sentence_lengths.push(config.max_length);
            i += 1;
        }
        let search = NoBeamSearch {
            batch_size,
            min_length: config.min_length,
            max_length: config.max_length,
            no_repeat_ngram_size: config.no_repeat_ngram_size,
            pad_token_id,
            eos_token_ids,
            prompt_length: current_length,
            unfinished_sentences,
            sentence_lengths,
            input_ids,
            attention_mask,
            current_length,
            finished: false,
        };
        proof {
            let want = initial(
                rows(input_ids@),
                rows(attention_mask@),
                batch_size as nat,
                *config,
                pad_token_id,
                token_list(eos_token_ids),
            );
            assert(search@.unfinished_sentences =~= want.unfinished_sentences);
            assert(search@.sentence_lengths =~= want.sentence_lengths);
        }
        Ok(search)
    }

    /// The number of tokens that nucleus and top-k filtering leave in every
    /// row in any case: one.
    pub fn min_tokens_to_keep(&self) -> (r: u64)
        ensures
            r == 1,
    {
        1
    }

    /// Whether another step is due.
    pub fn is_running(&self) -> (r: bool)
        ensures
            r == self@.running(),
    {
        !self.finished && (self.current_length as u64) < self.max_length
    }

    /// The tokens of each row.
    pub fn input_ids(&self) -> (r: &Vec<Vec<i64>>)
        ensures
            rows(r@) == self@.input_ids,
    {
        &self.input_ids
    }

    /// The attention mask.
    pub fn attention_mask(&self) -> (r: &Vec<Vec<i64>>)
        ensures
            rows(r@) == self@.attention_mask,
    {
        &self.attention_mask
    }

    /// The number of tokens of each row.
    pub fn current_length(&self) -> (r: usize)
        ensures
            r == self@.current_length,
    {
        self.current_length
    }

    /// Whether each row still grows.
    pub fn unfinished_sentences(&self) -> (r: &Vec<bool>)
        ensures
            r@ == self@.unfinished_sentences,
    {
        &self.unfinished_sentences
    }

    /// The length of each row's sequence.
    pub fn sentence_lengths(&self) -> (r: &Vec<u64>)
        ensures
            r@ == self@.sentence_lengths,
    {
        &self.sentence_lengths
    }

    /// Filters the scores that the model gave for the next token of each row.
    pub fn filter_scores(&self, scores: Vec<Vec<Number>>) -> (r: Result<
        Vec<Vec<Number>>,
        GenerationError,
    >)
        requires
            self@.wf(),
        ensures
            match r {
                Ok(filtered) => scores.len() == self@.batch_size && filtered.len() == scores.len()
                    && forall|i: int|
                    0 <= i < filtered.len() ==> (#[trigger] filtered[i])@ == self@.filtered_row(
                        i,
                        scores[i]@,
                    ),
                Err(e) => scores.len() != self@.batch_size && e == GenerationError::ShapeMismatch,
            },
    {
        if scores.len() != self.batch_size {
            return Err(GenerationError::ShapeMismatch);
        }
        let filtered = filter_scores(
            scores,
            &self.input_ids,
            self.no_repeat_ngram_size,
            &self.eos_token_ids,
            (self.current_length as u64) < self.min_length,
        );
        assert forall|i: int| 0 <= i < filtered.len() implies (#[trigger] filtered[i])@
            == self@.filtered_row(i, scores[i]@) by {
            assert(rows(self.input_ids@)[i] == self.input_ids[i]@);
        }
        Ok(filtered)
    }

    /// Makes one step of greedy decoding on the scores that the model gave
    /// for the next token of each row: the scores are filtered, and each row
    /// gets the first of the tokens with the best score.
    pub fn greedy_step(self, scores: Vec<Vec<Number>>) -> (r: Result<NoBeamSearch, GenerationError>)
        requires
            self@.wf(),
        ensures
            match r {
                Ok(next) => self@.greedy_error(rows(scores@)) is None && next@ == self@.advance(
                    self@.greedy_choice(rows(scores@)),
                ) && next@.wf(),
                Err(e) => self@.greedy_error(rows(scores@)) == Some(e),
            },
    {
        if !self.is_running() {
            return Err(GenerationError::NotRunning);
        }
        let ghost given = rows(scores@);
        let filtered = match self.filter_scores(scores) {
            Ok(filtered) => filtered,
            Err(e) => {
                return Err(e);
            },
        };
        assert forall|i: int| 0 <= i < given.len() implies (#[trigger] filtered[i]).len()
            == given[i].len() by {
            assert(filtered[i]@ == self@.filtered_row(i, given[i]));
        }
        let next_tokens = match greedy_tokens(&filtered) {
            Some(tokens) => tokens,
            None => {
                let ghost i = choose|i: int|
                    0 <= i < filtered.len() && ((#[trigger] filtered[i]).len() == 0
                        || filtered[i].len() > i64::MAX);
                assert(given[i].len() == 0 || given[i].len() > i64::MAX);
                return Err(GenerationError::EmptyVocabulary);
            },
        };
        assert forall|i: int| 0 <= i < given.len() implies !((#[trigger] given[i]).len() == 0
            || given[i].len() > i64::MAX) by {
            assert(filtered[i].len() == given[i].len());
            assert(next_tokens[i] < filtered[i].len());
        }
        assert(next_tokens@ =~= self@.greedy_choice(given)) by {
            assert forall|i: int| 0 <= i < next_tokens.len() implies next_tokens[i]
                == self@.greedy_choice(given)[i] by {
                assert(filtered[i]@ == self@.filtered_row(i, given[i]));
            }
        }
        self.advance(&next_tokens)
    }

    /// Gives each row the token chosen for it.
    pub fn advance(self, next_tokens: &Vec<i64>) -> (r: Result<NoBeamSearch, GenerationError>)
        requires
            self@.wf(),
        ensures
            match r {
                Ok(next) => self@.advance_error(next_tokens@) is None && next@ == self@.advance(
                    next_tokens@,
                ) && next@.wf(),
                Err(e) => self@.advance_error(next_tokens@) == Some(e),
            },
    {
        let ghost before = self@;
        if !self.is_running() {
            return Err(GenerationError::NotRunning);
        }
        if next_tokens.len() != self.batch_size {
            return Err(GenerationError::ShapeMismatch);
        }
        if self.eos_token_ids.is_some() && self.pad_token_id.is_none() {
            return Err(GenerationError::MissingSpecialToken);
        }
        let NoBeamSearch {
            batch_size,
            min_length,
            max_length,
            no_repeat_ngram_size,
            pad_token_id,
            eos_token_ids,
            prompt_length,
            unfinished_sentences,
            sentence_lengths,
            input_ids,
            attention_mask,
            current_length,
            finished,
        } = self;
        let pad: i64 = match pad_token_id {
            Some(p) => p,
            None => 0,
        };
        let has_eos: bool = eos_token_ids.is_some();
        let mut tokens_to_add: Vec<i64> = Vec::new();
        let mut unfinished: Vec<bool> = Vec::new();
        let mut lengths: Vec<u64> = Vec::new();
        let mut any_unfinished: bool = false;
        let mut i: usize = 0;
        while i < batch_size
            invariant
                i <= batch_size,
                before.wf(),
                before.running(),
                before.batch_size == batch_size,
                before.eos_token_ids == token_list(eos_token_ids),
                before.pad_token_id == pad_token_id,
                before.unfinished_sentences == unfinished_sentences@,
                before.sentence_lengths == sentence_lengths@,
                before.current_length == current_length,
                before.max_length == max_length,
                has_eos == (eos_token_ids is Some),
                pad == before.pad(),
                next_tokens.len() == batch_size,
                tokens_to_add.len() == i,
                unfinished.len() == i,
                lengths.len() == i,
                forall|k: int|
                    0 <= k < i ==> #[trigger] tokens_to_add[k] == before.token_to_add(
                        k,
                        next_tokens@,
                    ),
                forall|k: int|
                    0 <= k < i ==> #[trigger] unfinished[k] == (before.unfinished_sentences[k]
                        && !before.ends_now(k, next_tokens@)),
                forall|k: int|
                    0 <= k < i ==> #[trigger] lengths[k] == if before.ends_now(k, next_tokens@) {
                        (current_length + 1) as u64
                    } else {
                        before.sentence_lengths[k]
                    },
                any_unfinished == !(forall|k: int|
                    0 <= k < i ==> !(#[trigger] before.unfinished_sentences[k] && !before.ends_now(
                        k,
                        next_tokens@,
                    ))),
            decreases batch_size - i,
        {
            let token: i64 = if has_eos && !unfinished_sentences[i] {
                pad
            } else {
                next_tokens[i]
            };
            let ends: bool = unfinished_sentences[i] && is_eos_token(&eos_token_ids, next_tokens[i]);
            tokens_to_add.push(token);
            if ends {
                lengths.push(current_length as u64 + 1);
            } else {
                lengths.push(sentence_lengths[i]);
            }
            let still: bool = unfinished_sentences[i] && !ends;
            unfinished.push(still);
            if still {
                any_unfinished = true;
                assert(before.unfinished_sentences[i as int] && !before.ends_now(
                    i as int,
                    next_tokens@,
                ));
            }
            i += 1;
        }
        let next_input_ids = append_column(input_ids, &tokens_to_add);
        let next_attention_mask = append_constant_column(attention_mask, 1);
        assert(rows(next_input_ids@)[0] == rows(input_ids@)[0].push(tokens_to_add[0]));
        let next_length: usize = next_input_ids[0].len();
        let next = NoBeamSearch {
            batch_size,
            min_length,
            max_length,
            no_repeat_ngram_size,
            pad_token_id,
            eos_token_ids,
            prompt_length,
            unfinished_sentences: unfinished,
            sentence_lengths: lengths,
            input_ids: next_input_ids,
            attention_mask: next_attention_mask,
            current_length: next_length,
            finished: has_eos && !any_unfinished,
        };
        proof {
            let want = before.advance(next_tokens@);
            assert(next@.unfinished_sentences =~= want.unfinished_sentences);
            assert(next@.sentence_lengths =~= want.sentence_lengths);
            assert(next@.input_ids =~= want.input_ids);
            assert(next@.attention_mask =~= want.attention_mask);
            if any_unfinished {
                let k = choose|k: int|
                    0 <= k < batch_size && (#[trigger] before.unfinished_sentences[k]
                        && !before.ends_now(k, next_tokens@));
                assert(want.unfinished_sentences[k]);
            } else {
                assert forall|k: int| 0 <= k < batch_size implies !#[trigger] want.unfinished_sentences[k] by {
                    assert(!(before.unfinished_sentences[k] && !before.ends_now(k, next_tokens@)));
                }
            }
            assert(next@.finished == want.finished);
            assert(next@ == want);
            lemma_advance_preserves_wf(before, next_tokens@);
        }
        Ok(next)
    }

    /// Ends the decoding and gives the result.
    pub fn finish(self) -> (r: Result<Vec<Vec<i64>>, GenerationError>)
        requires
            self@.wf(),
        ensures
            match r {
                Ok(out) => !self@.running() && rows(out@) == self@.finish() && out.len()
                    == self@.batch_size,
                Err(e) => self@.running() && e == GenerationError::StillRunning,
            },
    {
        let ghost before = self@;
        if self.is_running() {
            return Err(GenerationError::StillRunning);
        }
        let first: u64 = self.sentence_lengths[0];
        let mut most: u64 = 0;
        let mut same: bool = true;
        let mut i: usize = 0;
        while i < self.sentence_lengths.len()
            invariant
                i <= self.sentence_lengths.len(),
                self.sentence_lengths.len() >= 1,
                first == self.sentence_lengths[0],
                most == greatest(self.sentence_lengths@.take(i as int)),
                same == forall|k: int| 0 <= k < i ==> #[trigger] self.sentence_lengths[k] == first,
                forall|k: int| 0 <= k < i ==> #[trigger] self.sentence_lengths[k] <= most,
                i > 0 ==> exists|k: int| 0 <= k < i && #[trigger] self.sentence_lengths[k] == most,
            decreases self.sentence_lengths.len() - i,
        {
            proof {
                let next = self.sentence_lengths@.take(i + 1);
                assert(next.drop_last() =~= self.sentence_lengths@.take(i as int));
                assert(next.last() == self.sentence_lengths[i as int]);
            }
            if self.sentence_lengths[i] > most {
                most = self.sentence_lengths[i];
            }
            if self.sentence_lengths[i] != first {
                same = false;
            }
            i += 1;
        }
        assert(self.sentence_lengths@.take(i as int) =~= self.sentence_lengths@);
        if same {
            return Ok(self.input_ids);
        }
        let pad: i64 = match self.pad_token_id {
            Some(p) => p,
            None => {
                return Ok(self.input_ids);
            },
        };
        assert(most <= self.current_length) by {
            let k = choose|k: int|
                0 <= k < self.sentence_lengths.len() && #[trigger] self.sentence_lengths[k] == most;
            if before.unfinished_sentences[k] {
            }
        }
        let width: usize = most as usize;
        let mut out: Vec<Vec<i64>> = Vec::new();
        let mut i: usize = 0;
        while i < self.batch_size
            invariant
                i <= self.batch_size,
                before == self@,
                before.wf(),
                width == most,
                width <= self.current_length,
                out.len() == i,
                forall|k: int|
                    0 <= k < i ==> (#[trigger] out[k])@ == Seq::new(
                        width as nat,
                        |j: int|
                            if j < before.sentence_lengths[k] {
                                before.input_ids[k][j]
                            } else {
                                pad
                            },
                    ),
            decreases self.batch_size - i,
        {
            let length: u64 = self.sentence_lengths[i];
            let tokens = &self.input_ids[i];
            assert(tokens@ == before.input_ids[i as int]);
            assert(tokens.len() == self.current_length);
            let mut row: Vec<i64> = Vec::new();
            let mut j: usize = 0;
            while j < width
                invariant
                    j <= width,
                    width <= tokens.len(),
                    row.len() == j,
                    forall|k: int|
                        0 <= k < j ==> #[trigger] row[k] == if k < length {
                            tokens[k]
                        } else {
                            pad
                        },
                decreases width - j,
            {
                if (j as u64) < length {
                    row.push(tokens[j]);
                } else {
                    row.push(pad);
                }
                j += 1;
            }
            assert(row@ =~= Seq::new(
                width as nat,
                |j: int|
                    if j < before.sentence_lengths[i as int] {
                        before.input_ids[i as int][j]
                    } else {
                        pad
                    },
            ));
            out.push(row);
            i += 1;
        }
        assert(rows(out@) =~= before.finish());
        Ok(out)
    }
}

} // verus!
