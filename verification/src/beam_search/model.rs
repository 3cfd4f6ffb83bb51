//! What a beam search is in contracts: its state, and what a step and the end
//! make of it.

use crate::beam_hypotheses::{best_tokens, BeamHypotheses, BeamHypothesesView};
use crate::beam_search::{Beam, Candidate, Ranked};
use crate::config::GenerateConfig;
use crate::error::GenerationError;
use crate::filters::filtered_row;
use crate::matrix::{has_width, longest, same_length, with_constant_column};
use crate::number::{rank, Number, NEG_INFINITY, ZERO};
use crate::ranking::descending_order;
use vstd::prelude::*;

verus! {

/// The candidates of each item, as sequences.
pub open spec fn candidate_rows(c: Seq<Vec<Candidate>>) -> Seq<Seq<Candidate>> {
    Seq::new(c.len(), |i: int| c[i]@)
}

/// The sets of a vector, each by its view.
pub open spec fn set_views(s: Seq<BeamHypotheses>) -> Seq<BeamHypothesesView> {
    Seq::new(s.len(), |i: int| s[i]@)
}

/// The place of the candidate with the best score: the first among those of
/// greatest rank.
pub open spec fn leading(candidates: Seq<Candidate>) -> int
    decreases candidates.len(),
{
    if candidates.len() <= 1 {
        0
    } else {
        let before = leading(candidates.drop_last());
        if rank(candidates.last().score) > rank(candidates[before].score) {
            candidates.len() - 1
        } else {
            before
        }
    }
}

/// The sequence in `width` places: its tokens, then `eos` if it is shorter
/// than `max_length`, then `pad`.
pub open spec fn padded_row(tokens: Seq<i64>, width: nat, max_length: nat, pad: i64, eos: i64) -> Seq<
    i64,
> {
    Seq::new(
        width,
        |j: int|
            if j < tokens.len() {
                tokens[j]
            } else if j == tokens.len() && tokens.len() < max_length {
                eos
            } else {
                pad
            },
    )
}

/// The sequences in rows of one width: the length of the longest and one
/// more, or `max_length` if that is less.
pub open spec fn padded(chosen: Seq<Seq<i64>>, max_length: nat, pad: i64, eos: i64) -> Seq<Seq<i64>> {
    let width = if longest(chosen) + 1 < max_length {
        longest(chosen) + 1
    } else {
        max_length
    };
    Seq::new(chosen.len(), |i: int| padded_row(chosen[i], width, max_length, pad, eos))
}

/// What a beam search is in contracts.
pub struct BeamSearchView {
    /// The number of input items.
    pub batch_size: nat,
    /// The number of beams of each item.
    pub num_beams: nat,
    /// The number of tokens of the vocabulary.
    pub vocab_size: nat,
    /// The length under which no sequence may end.
    pub min_length: nat,
    /// The length at which every sequence ends.
    pub max_length: nat,
    /// Whether candidates are drawn at random.
    pub do_sample: bool,
    /// The number of sequences asked for each item.
    pub num_return_sequences: nat,
    /// The size of the n-grams that may not occur twice.
    pub no_repeat_ngram_size: nat,
    /// The token that fills the rows of finished items and short results.
    pub pad_token_id: Option<i64>,
    /// The tokens that end a sequence.
    pub eos_token_ids: Option<Seq<i64>>,
    /// The finished hypotheses of each item.
    pub hypotheses: Seq<BeamHypothesesView>,
    /// The cumulative log-probability of each row.
    pub beam_scores: Seq<Number>,
    /// Whether each item is done.
    pub done: Seq<bool>,
    /// The tokens of each row: the beams of item `b` are the rows from
    /// `b * num_beams` on.
    pub input_ids: Seq<Seq<i64>>,
    /// The attention mask, of the shape of `input_ids`.
    pub attention_mask: Seq<Seq<i64>>,
    /// The number of tokens of each row.
    pub current_length: nat,
    /// The number of tokens that each row had at the start.
    pub prompt_length: nat,
    /// For each row, the row of the batch before the last step that it
    /// continues. Empty before the first step.
    pub source_rows: Seq<usize>,
    /// Whether a step found every item done.
    pub finished: bool,
}

impl BeamSearchView {
    /// The number of rows.
    pub open spec fn height(self) -> nat {
        self.batch_size * self.num_beams
    }

    /// The number of sequences returned for each item.
    pub open spec fn per_item(self) -> nat {
        if self.do_sample {
            1
        } else {
            self.num_return_sequences
        }
    }

    /// The sequence holds a prompt and, after it, no token that ends a
    /// sequence.
    pub open spec fn goes_on(self, tokens: Seq<i64>) -> bool {
        &&& self.prompt_length <= tokens.len()
        &&& forall|j: int|
            self.prompt_length <= j < tokens.len() ==> !self.is_eos(#[trigger] tokens[j])
    }

    /// The shapes agree, every set of hypotheses is in order, a done item has
    /// a full set, and no hypothesis is longer than the rows are. No
    /// hypothesis, and no row of an item that is not done, holds a token that
    /// ends a sequence after its prompt.
    pub open spec fn wf(self) -> bool {
        &&& self.batch_size >= 1
        &&& self.num_beams >= 1
        &&& self.vocab_size >= 1
        &&& 1 <= self.per_item() <= self.num_beams
        &&& 2 * self.num_beams <= usize::MAX
        &&& self.hypotheses.len() == self.batch_size
        &&& self.done.len() == self.batch_size
        &&& self.beam_scores.len() == self.height()
        &&& self.input_ids.len() == self.height()
        &&& self.attention_mask.len() == self.height()
        &&& has_width(self.input_ids, self.current_length)
        &&& has_width(self.attention_mask, self.current_length)
        &&& forall|b: int|
            0 <= b < self.batch_size ==> (#[trigger] self.hypotheses[b]).wf()
                && self.hypotheses[b].num_beams == self.num_beams
        &&& forall|b: int|
            0 <= b < self.batch_size && #[trigger] self.done[b] ==> self.hypotheses[b].beams.len()
                == self.num_beams
        &&& forall|b: int, k: int|
            0 <= b < self.batch_size && 0 <= k < self.hypotheses[b].beams.len() ==> (
            #[trigger] self.hypotheses[b].beams[k]).1.len() <= self.current_length
        &&& self.current_length > self.max_length ==> forall|b: int|
            0 <= b < self.batch_size ==> (#[trigger] self.hypotheses[b]).beams.len() == 0
        &&& self.prompt_length <= self.current_length
        &&& forall|b: int, k: int|
            0 <= b < self.batch_size && 0 <= k < self.hypotheses[b].beams.len() ==> self.goes_on(
                (#[trigger] self.hypotheses[b].beams[k]).1,
            )
        &&& forall|r: int|
            0 <= r < self.height() && !self.done[r / (self.num_beams as int)] ==> self.goes_on(
                #[trigger] self.input_ids[r],
            )
    }

    /// Whether another step is due: no step found every item done, and the
    /// rows are shorter than `max_length`.
    pub open spec fn running(self) -> bool {
        !self.finished && self.current_length < self.max_length
    }

    /// Whether the token ends a sequence.
    pub open spec fn is_eos(self, token: i64) -> bool {
        self.eos_token_ids matches Some(ids) && ids.contains(token)
    }

    /// The padding token, or zero where there is none.
    pub open spec fn pad(self) -> i64 {
        match self.pad_token_id {
            Some(p) => p,
            None => 0,
        }
    }

    /// The candidate names a beam of its item.
    pub open spec fn valid_candidate(self, c: Candidate) -> bool {
        0 <= c.index && (c.index as int) / (self.vocab_size as int) < self.num_beams
    }

    /// The token that the candidate ends with.
    pub open spec fn token_of(self, c: Candidate) -> i64 {
        ((c.index as int) % (self.vocab_size as int)) as i64
    }

    /// The row that the candidate continues.
    pub open spec fn row_of(self, item: int, c: Candidate) -> int {
        item * self.num_beams + (c.index as int) / (self.vocab_size as int)
    }

    /// The scores of row `r` as the search lets them through: masked out are
    /// the tokens that would repeat an n-gram and, while the rows are shorter
    /// than `min_length`, the tokens that would end one.
    pub open spec fn filtered_row(self, r: int, scores: Seq<Number>) -> Seq<Number> {
        filtered_row(
            scores,
            self.input_ids[r],
            self.no_repeat_ngram_size,
            self.eos_token_ids,
            self.current_length < self.min_length,
        )
    }

    /// The scores of the beams of `item`, one beam after the other: the
    /// score of token `t` of beam `k` stands at place `k * vocab_size + t`.
    pub open spec fn item_scores(self, scores: Seq<Seq<Number>>, item: int) -> Seq<Number> {
        Seq::new(
            self.num_beams * self.vocab_size,
            |k: int|
                scores[item * self.num_beams + k / (self.vocab_size as int)][k % (
                self.vocab_size as int)],
        )
    }

    /// The number of candidates ranked for each item: twice the number of
    /// beams, or all there are if that is less.
    pub open spec fn candidate_count(self) -> nat {
        if 2 * self.num_beams < self.num_beams * self.vocab_size {
            2 * self.num_beams
        } else {
            self.num_beams * self.vocab_size
        }
    }

    /// The candidate of `item` at place `p`: the place and the score that
    /// stand at place `p` of the descending order of the item's scores.
    pub open spec fn ranked(self, scores: Seq<Seq<Number>>, item: int, p: int) -> Ranked {
        let flat = self.item_scores(scores, item);
        let place = descending_order(flat)[p];
        Ranked { index: place as i64, score: flat[place] }
    }

    /// Whether the scores have a row for each row of the search and a place
    /// for each token.
    pub open spec fn fits(self, scores: Seq<Seq<Number>>) -> bool {
        scores.len() == self.height() && has_width(scores, self.vocab_size)
    }

    /// Goes through the candidates of `item` from place `place` on, best
    /// first, until `num_beams` beams are collected. A candidate that ends
    /// with an end-of-sequence token finishes its row, which is offered to the
    /// item's hypotheses, unless its place is beyond `num_beams`: then it is
    /// passed over. Every other candidate becomes a beam of the next step.
    pub open spec fn walk(
        self,
        item: int,
        candidates: Seq<Candidate>,
        place: int,
        set: BeamHypothesesView,
        beams: Seq<Beam>,
    ) -> (BeamHypothesesView, Seq<Beam>)
        decreases candidates.len() - place,
    {
        if place < 0 || place >= candidates.len() || beams.len() >= self.num_beams {
            (set, beams)
        } else {
            let c = candidates[place];
            if self.is_eos(self.token_of(c)) {
                if place > self.num_beams {
                    self.walk(item, candidates, place + 1, set, beams)
                } else {
                    self.walk(
                        item,
                        candidates,
                        place + 1,
                        set.add(self.input_ids[self.row_of(item, c)], c.normalized_score),
                        beams,
                    )
                }
            } else {
                self.walk(
                    item,
                    candidates,
                    place + 1,
                    set,
                    beams.push(
                        Beam {
                            score: c.score,
                            token: self.token_of(c),
                            row: self.row_of(item, c) as usize,
                        },
                    ),
                )
            }
        }
    }

    /// The hypotheses and the beams of `item` after its candidates were gone
    /// through.
    pub open spec fn item_walk(self, item: int, candidates: Seq<Seq<Candidate>>) -> (
        BeamHypothesesView,
        Seq<Beam>,
    ) {
        self.walk(item, candidates[item], 0, self.hypotheses[item], Seq::empty())
    }

    /// Why `step` fails on these candidates; `None` where it does not.
    pub open spec fn step_error(self, candidates: Seq<Seq<Candidate>>) -> Option<GenerationError> {
        if !self.running() {
            Some(GenerationError::NotRunning)
        } else if candidates.len() != self.batch_size {
            Some(GenerationError::ShapeMismatch)
        } else if exists|b: int, r: int|
            0 <= b < self.batch_size && 0 <= r < candidates[b].len() && !self.valid_candidate(
                #[trigger] candidates[b][r],
            ) {
            Some(GenerationError::InvalidCandidate)
        } else if (exists|b: int| 0 <= b < self.batch_size && #[trigger] self.done[b]) && (
        self.eos_token_ids is None || self.pad_token_id is None) {
            Some(GenerationError::MissingSpecialToken)
        } else if exists|b: int|
            0 <= b < self.batch_size && !self.done[b] && (#[trigger] self.item_walk(
                b,
                candidates,
            )).1.len() != self.num_beams {
            Some(GenerationError::BeamIncomplete)
        } else {
            None
        }
    }

    /// The hypotheses of each item after the step. Those of a done item stay
    /// as they are.
    pub open spec fn next_sets(self, candidates: Seq<Seq<Candidate>>) -> Seq<BeamHypothesesView> {
        Seq::new(
            self.batch_size,
            |b: int|
                if self.done[b] {
                    self.hypotheses[b]
                } else {
                    self.item_walk(b, candidates).0
                },
        )
    }

    /// The beams of the next step, those of item `b` from `b * num_beams` on.
    /// A done item gets `num_beams` beams of score zero that add the padding
    /// token to the first row.
    pub open spec fn next_beams(self, candidates: Seq<Seq<Candidate>>) -> Seq<Beam> {
        Seq::new(
            self.height(),
            |r: int|
                {
                    let b = r / (self.num_beams as int);
                    if self.done[b] {
                        Beam { score: ZERO, token: self.pad(), row: 0 }
                    } else {
                        self.item_walk(b, candidates).1[r % (self.num_beams as int)]
                    }
                },
        )
    }

    /// Whether each item is done after the step: it was before, or its
    /// hypotheses say so of the best candidate's normalised score.
    pub open spec fn next_done(self, candidates: Seq<Seq<Candidate>>) -> Seq<bool> {
        Seq::new(
            self.batch_size,
            |b: int|
                self.done[b] || self.item_walk(b, candidates).0.is_done(
                    candidates[b][leading(candidates[b])].normalized_score,
                ),
        )
    }

    /// The search after a step on these candidates. Where every item is done
    /// the rows stay as they are and the search is finished. Otherwise every
    /// row is replaced by the row its beam continues, with the beam's token
    /// added, and the attention mask grows by a column of ones.
    pub open spec fn step(self, candidates: Seq<Seq<Candidate>>) -> Self {
        let done = self.next_done(candidates);
        let sets = self.next_sets(candidates);
        if forall|b: int| 0 <= b < self.batch_size ==> #[trigger] done[b] {
            BeamSearchView { hypotheses: sets, done, finished: true, ..self }
        } else {
            let beams = self.next_beams(candidates);
            BeamSearchView {
                hypotheses: sets,
                done,
                beam_scores: Seq::new(self.height(), |r: int| beams[r].score),
                input_ids: Seq::new(
                    self.height(),
                    |r: int| self.input_ids[beams[r].row as int].push(beams[r].token),
                ),
                attention_mask: with_constant_column(self.attention_mask, 1),
                current_length: self.current_length + 1,
                source_rows: Seq::new(self.height(), |r: int| beams[r].row),
                ..self
            }
        }
    }

    /// The hypotheses of `item` after its rows from beam `from` on were
    /// offered with their normalised scores.
    pub open spec fn add_live_beams(
        self,
        item: int,
        scores: Seq<Number>,
        from: int,
        set: BeamHypothesesView,
    ) -> BeamHypothesesView
        decreases self.num_beams - from,
    {
        if from < 0 || from >= self.num_beams {
            set
        } else {
            self.add_live_beams(
                item,
                scores,
                from + 1,
                set.add(
                    self.input_ids[item * self.num_beams + from],
                    scores[item * self.num_beams + from],
                ),
            )
        }
    }

    /// The hypotheses of each item when the search ends: an item that is not
    /// done is offered each of its rows.
    pub open spec fn final_sets(self, scores: Seq<Number>) -> Seq<BeamHypothesesView> {
        Seq::new(
            self.batch_size,
            |b: int|
                if self.done[b] {
                    self.hypotheses[b]
                } else {
                    self.add_live_beams(b, scores, 0, self.hypotheses[b])
                },
        )
    }

    /// The sequences selected: for each item its `per_item` best hypotheses,
    /// best first.
    pub open spec fn chosen(self, scores: Seq<Number>) -> Seq<Seq<i64>> {
        Seq::new(
            self.batch_size * self.per_item(),
            |i: int|
                best_tokens(
                    self.final_sets(scores)[i / (self.per_item() as int)].beams,
                    self.per_item(),
                )[i % (self.per_item() as int)],
        )
    }

    /// Why `finalize` fails; `None` where it does not.
    pub open spec fn finalize_error(self, scores: Seq<Number>) -> Option<GenerationError> {
        if scores.len() != self.height() {
            Some(GenerationError::ShapeMismatch)
        } else if !same_length(self.chosen(scores)) && (self.pad_token_id is None || !(
        self.eos_token_ids matches Some(ids) && ids.len() > 0)) {
            Some(GenerationError::MissingSpecialToken)
        } else {
            None
        }
    }

    /// The result of the search. Sequences of one length are returned as they
    /// are. Otherwise each is followed by the first end-of-sequence token, if
    /// it is shorter than `max_length`, and by padding up to the length of the
    /// longest and one more, or `max_length` if that is less.
    pub open spec fn finalize(self, scores: Seq<Number>) -> Seq<Seq<i64>> {
        let chosen = self.chosen(scores);
        if same_length(chosen) {
            chosen
        } else {
            padded(
                chosen,
                self.max_length,
                self.pad(),
                match self.eos_token_ids {
                    Some(ids) => ids[0],
                    None => 0,
                },
            )
        }
    }
}

/// Why no search can be set up on these arguments; `None` where one can.
pub open spec fn new_error(
    input_ids: Seq<Seq<i64>>,
    attention_mask: Seq<Seq<i64>>,
    batch_size: nat,
    vocab_size: nat,
    config: GenerateConfig,
) -> Option<GenerationError> {
    let per_item = if config.do_sample {
        1
    } else {
        config.num_return_sequences as int
    };
    if batch_size == 0 {
        Some(GenerationError::EmptyBatch)
    } else if config.num_beams == 0 {
        Some(GenerationError::NoBeams)
    } else if vocab_size == 0 {
        Some(GenerationError::EmptyVocabulary)
    } else if per_item < 1 || per_item > config.num_beams {
        Some(GenerationError::SequenceCount)
    } else if input_ids.len() != batch_size * config.num_beams || attention_mask.len()
        != input_ids.len() || !has_width(input_ids, input_ids[0].len()) || !has_width(
        attention_mask,
        input_ids[0].len(),
    ) {
        Some(GenerationError::ShapeMismatch)
    } else if 2 * config.num_beams > usize::MAX {
        Some(GenerationError::TooLarge)
    } else {
        None
    }
}

/// The search before its first step: no hypothesis, no item done. With
/// sampling every beam starts at score zero; without, only the first beam of
/// each item does and the others start at negative infinity, so that the
/// beams of an item, which all hold the same tokens, do not all go the same
/// way.
pub open spec fn initial(
    input_ids: Seq<Seq<i64>>,
    attention_mask: Seq<Seq<i64>>,
    batch_size: nat,
    vocab_size: nat,
    config: GenerateConfig,
    pad_token_id: Option<i64>,
    eos_token_ids: Option<Seq<i64>>,
) -> BeamSearchView {
    BeamSearchView {
        batch_size,
        num_beams: config.num_beams as nat,
        vocab_size,
        min_length: config.min_length as nat,
        max_length: config.max_length as nat,
        do_sample: config.do_sample,
        num_return_sequences: config.num_return_sequences as nat,
        no_repeat_ngram_size: config.no_repeat_ngram_size as nat,
        pad_token_id,
        eos_token_ids,
        hypotheses: Seq::new(
            batch_size,
            |b: int|
                BeamHypothesesView {
                    max_length: if config.max_length > 0 {
                        (config.max_length - 1) as nat
                    } else {
                        0
                    },
                    length_penalty: config.length_penalty,
                    early_stopping: config.early_stopping,
                    num_beams: config.num_beams as nat,
                    beams: Seq::empty(),
                    worst_score: crate::number::INFINITY,
                },
        ),
        beam_scores: Seq::new(
            batch_size * (config.num_beams as nat),
            |r: int|
                if config.do_sample || r % (config.num_beams as int) == 0 {
                    ZERO
                } else {
                    NEG_INFINITY
                },
        ),
        done: Seq::new(batch_size, |b: int| false),
        input_ids,
        attention_mask,
        current_length: input_ids[0].len(),
        prompt_length: input_ids[0].len(),
        source_rows: Seq::empty(),
        finished: false,
    }
}

} // verus!
