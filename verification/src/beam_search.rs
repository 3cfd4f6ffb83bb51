//! Beam search: several hypotheses for each input item, pruned at every step.
//!
//! The search is a state machine. The caller runs the language model on
//! `input_ids`, turns its answer into ranked candidates for each item, and
//! hands them to `step`, which decides which hypotheses are finished, which
//! beams go on and from which rows. When `is_running` turns false, `finalize`
//! selects the sequences to return.
//!
//! What a search is in contracts, and what a step and the end do to it, is
//! laid down in `model`; what follows from that is proved in `laws`.

pub mod laws;
pub mod model;

use crate::beam_hypotheses::{
    lemma_add_keeps, lemma_add_keeps_lengths, lemma_add_preserves_wf, BeamHypotheses,
    BeamHypothesesView,
};
use crate::beam_search::model::{
    candidate_rows, initial, leading, new_error, padded, padded_row, set_views, BeamSearchView,
};
use crate::config::GenerateConfig;
use crate::error::GenerationError;
use crate::filters::filter_scores;
use crate::matrix::{
    append_column, append_constant_column, check_width, copy_row, has_width, longest, rows,
    select_rows, token_list,
};
use crate::number::{rank_of, Number, NEG_INFINITY, ZERO};
use crate::ranking::{argsort_descending, descending_order, places};
use vstd::prelude::*;

verus! {

/// One ranked continuation of an item: a beam of the item and the token that
/// would follow it.
pub struct Candidate {
    /// The beam and the token in one number: `beam * vocab_size + token`.
    pub index: i64,
    /// The cumulative log-probability of the beam with this token.
    pub score: Number,
    /// That score divided by the current length raised to the length penalty.
    pub normalized_score: Number,
}

/// A place in a list of scores, and the score that stands there.
#[derive(Clone, Copy)]
pub struct Ranked {
    /// The place.
    pub index: i64,
    /// The score.
    pub score: Number,
}

/// A beam that goes on to the next step.
#[derive(Clone, Copy)]
pub struct Beam {
    /// Its cumulative log-probability.
    pub score: Number,
    /// The token it ends with.
    pub token: i64,
    /// The row of the current batch that it continues.
    pub row: usize,
}

/// The beam search of a batch.
pub struct BeamSearch {
    batch_size: usize,
    num_beams: usize,
    vocab_size: usize,
    min_length: u64,
    max_length: u64,
    do_sample: bool,
    num_return_sequences: u64,
    no_repeat_ngram_size: u64,
    pad_token_id: Option<i64>,
    eos_token_ids: Option<Vec<i64>>,
    hypotheses: Vec<BeamHypotheses>,
    beam_scores: Vec<Number>,
    done: Vec<bool>,
    input_ids: Vec<Vec<i64>>,
    attention_mask: Vec<Vec<i64>>,
    current_length: usize,
    prompt_length: usize,
    source_rows: Vec<usize>,
    finished: bool,
}

impl View for BeamSearch {
    type V = BeamSearchView;

    closed spec fn view(&self) -> BeamSearchView {
        BeamSearchView {
            batch_size: self.batch_size as nat,
            num_beams: self.num_beams as nat,
            vocab_size: self.vocab_size as nat,
            min_length: self.min_length as nat,
            max_length: self.max_length as nat,
            do_sample: self.do_sample,
            num_return_sequences: self.num_return_sequences as nat,
            no_repeat_ngram_size: self.no_repeat_ngram_size as nat,
            pad_token_id: self.pad_token_id,
            eos_token_ids: token_list(self.eos_token_ids),
            hypotheses: set_views(self.hypotheses@),
            beam_scores: self.beam_scores@,
            done: self.done@,
            input_ids: rows(self.input_ids@),
            attention_mask: rows(self.attention_mask@),
            current_length: self.current_length as nat,
            prompt_length: self.prompt_length as nat,
            source_rows: self.source_rows@,
            finished: self.finished,
        }
    }
}

/// Whether `token` is one of `ids`.
pub fn is_eos_token(ids: &Option<Vec<i64>>, token: i64) -> (r: bool)
    ensures
        r == (token_list(*ids) matches Some(s) && s.contains(token)),
{
    match ids {
        None => false,
        Some(v) => {
            let mut i: usize = 0;
            while i < v.len()
                invariant
                    i <= v.len(),
                    token_list(*ids) == Some(v@),
                    forall|k: int| 0 <= k < i ==> v[k] != token,
                decreases v.len() - i,
            {
                if v[i] == token {
                    assert(v@[i as int] == token);
                    return true;
                }
                i += 1;
            }
            false
        },
    }
}

/// The place of the candidate with the best score.
fn leading_position(candidates: &Vec<Candidate>) -> (r: usize)
    requires
        candidates.len() > 0,
    ensures
        r == leading(candidates@),
        r < candidates.len(),
{
    let mut position: usize = 0;
    let mut i: usize = 1;
    assert(candidates@.take(1).len() == 1);
    while i < candidates.len()
        invariant
            1 <= i <= candidates.len(),
            position == leading(candidates@.take(i as int)),
            position < i,
        decreases candidates.len() - i,
    {
        proof {
            let next = candidates@.take(i + 1);
            assert(next.drop_last() =~= candidates@.take(i as int));
            assert(next.last() == candidates@[i as int]);
            assert(next[position as int] == candidates@[position as int]);
        }
        if rank_of(candidates[i].score) > rank_of(candidates[position].score) {
            position = i;
        }
        i += 1;
    }
    assert(candidates@.take(i as int) =~= candidates@);
    position
}

/// Goes through the candidates of one item, offering finished rows to `set`;
/// returns the beams collected.
fn walk_candidates(
    set: &mut BeamHypotheses,
    input_ids: &Vec<Vec<i64>>,
    candidates: &Vec<Candidate>,
    item: usize,
    batch_size: usize,
    num_beams: usize,
    vocab_size: usize,
    current_length: usize,
    eos_token_ids: &Option<Vec<i64>>,
    Ghost(search): Ghost<BeamSearchView>,
) -> (beams: Vec<Beam>)
    requires
        search.batch_size == batch_size,
        search.num_beams == num_beams,
        search.vocab_size == vocab_size,
        search.input_ids == rows(input_ids@),
        search.eos_token_ids == token_list(*eos_token_ids),
        item < batch_size,
        num_beams >= 1,
        vocab_size >= 1,
        input_ids.len() == batch_size * num_beams,
        has_width(rows(input_ids@), current_length as nat),
        forall|r: int| 0 <= r < candidates.len() ==> search.valid_candidate(#[trigger] candidates[r]),
        old(set)@.wf(),
        old(set)@.num_beams == num_beams,
        forall|k: int|
            0 <= k < old(set)@.beams.len() ==> (#[trigger] old(set)@.beams[k]).1.len()
                <= current_length,
        forall|k: int|
            0 <= k < old(set)@.beams.len() ==> search.goes_on((#[trigger] old(set)@.beams[k]).1),
        forall|k: int|
            0 <= k < num_beams ==> search.goes_on(#[trigger] rows(input_ids@)[item * num_beams + k]),
    ensures
        search.walk(item as int, candidates@, 0, old(set)@, Seq::empty()) == (final(set)@, beams@),
        final(set)@.wf(),
        final(set)@.num_beams == num_beams,
        forall|k: int|
            0 <= k < final(set)@.beams.len() ==> (#[trigger] final(set)@.beams[k]).1.len()
                <= current_length,
        forall|r: int| 0 <= r < beams.len() ==> (#[trigger] beams[r]).row < batch_size * num_beams,
        forall|k: int|
            0 <= k < final(set)@.beams.len() ==> search.goes_on(
                (#[trigger] final(set)@.beams[k]).1,
            ),
        forall|r: int|
            0 <= r < beams.len() ==> ((#[trigger] beams[r]).row as int) / (num_beams as int) == item
                && !search.is_eos(beams[r].token),
{
    let ghost start = set@;
    let mut beams: Vec<Beam> = Vec::new();
    let mut place: usize = 0;
    while place < candidates.len() && beams.len() < num_beams
        invariant
            place <= candidates.len(),
            search.batch_size == batch_size,
            search.num_beams == num_beams,
            search.vocab_size == vocab_size,
            search.input_ids == rows(input_ids@),
            search.eos_token_ids == token_list(*eos_token_ids),
            item < batch_size,
            num_beams >= 1,
            vocab_size >= 1,
            input_ids.len() == batch_size * num_beams,
            has_width(rows(input_ids@), current_length as nat),
            forall|r: int|
                0 <= r < candidates.len() ==> search.valid_candidate(#[trigger] candidates[r]),
            set@.wf(),
            set@.num_beams == num_beams,
            forall|k: int|
                0 <= k < set@.beams.len() ==> (#[trigger] set@.beams[k]).1.len() <= current_length,
            search.walk(item as int, candidates@, place as int, set@, beams@) == search.walk(
                item as int,
                candidates@,
                0,
                start,
                Seq::empty(),
            ),
            forall|r: int|
                0 <= r < beams.len() ==> (#[trigger] beams[r]).row < batch_size * num_beams,
            forall|k: int|
                0 <= k < set@.beams.len() ==> search.goes_on((#[trigger] set@.beams[k]).1),
            forall|k: int|
                0 <= k < num_beams ==> search.goes_on(
                    #[trigger] rows(input_ids@)[item * num_beams + k],
                ),
            forall|r: int|
                0 <= r < beams.len() ==> ((#[trigger] beams[r]).row as int) / (num_beams as int) == item
                    && !search.is_eos(beams[r].token),
        decreases candidates.len() - place,
    {
        let ghost c = candidates@[place as int];
        assert(search.valid_candidate(c));
        let index: u64 = candidates[place].index as u64;
        let token: i64 = (index % (vocab_size as u64)) as i64;
        let beam: usize = (index / (vocab_size as u64)) as usize;
        proof {
            lemma_row_of_item(batch_size as int, num_beams as int, item as int, beam as int);
        }
        let row: usize = item * num_beams + beam;
        assert(token == search.token_of(c));
        assert(row == search.row_of(item as int, c));
        if is_eos_token(eos_token_ids, token) {
            if place <= num_beams {
                proof {
                    assert(rows(input_ids@)[row as int].len() == current_length);
                    lemma_add_preserves_wf(
                        set@,
                        rows(input_ids@)[row as int],
                        c.normalized_score,
                    );
                    lemma_add_keeps_lengths(
                        set@,
                        rows(input_ids@)[row as int],
                        c.normalized_score,
                        current_length as nat,
                    );
                    assert(search.goes_on(rows(input_ids@)[item * num_beams + beam]));
                    lemma_add_keeps(
                        set@,
                        rows(input_ids@)[row as int],
                        c.normalized_score,
                        |t: Seq<i64>| search.goes_on(t),
                    );
                }
                set.add(copy_row(&input_ids[row]), candidates[place].normalized_score);
            }
        } else {
            beams.push(Beam { score: candidates[place].score, token, row });
        }
        place += 1;
    }
    beams
}

/// Brings candidates that were drawn at random into descending order of
/// their scores: `indices[i]` is the place that was drawn, `scores[i]` the
/// score that stands there. `None` where the two differ in length.
pub fn order_candidates(indices: &Vec<i64>, scores: &Vec<Number>) -> (r: Option<Vec<Ranked>>)
    ensures
        match r {
            Some(ranked) => indices.len() == scores.len() && ranked.len() == scores.len()
                && forall|p: int|
                0 <= p < ranked.len() ==> #[trigger] ranked[p] == (Ranked {
                    index: indices[descending_order(scores@)[p]],
                    score: scores[descending_order(scores@)[p]],
                }),
            None => indices.len() != scores.len(),
        },
{
    if indices.len() != scores.len() {
        return None;
    }
    let order = argsort_descending(scores);
    let mut ranked: Vec<Ranked> = Vec::new();
    let mut p: usize = 0;
    while p < order.len()
        invariant
            p <= order.len(),
            order.len() == scores.len(),
            indices.len() == scores.len(),
            places(order@) == descending_order(scores@),
            forall|q: int| 0 <= q < order.len() ==> #[trigger] order[q] < scores.len(),
            ranked.len() == p,
            forall|q: int|
                0 <= q < p ==> #[trigger] ranked[q] == (Ranked {
                    index: indices[descending_order(scores@)[q]],
                    score: scores[descending_order(scores@)[q]],
                }),
        decreases order.len() - p,
    {
        let place: usize = order[p];
        assert(places(order@)[p as int] == place);
        ranked.push(Ranked { index: indices[place], score: scores[place] });
        p += 1;
    }
    Some(ranked)
}

/// Every row of the batch belongs to an item.
pub(crate) proof fn lemma_item_of_row(batch_size: int, num_beams: int, row: int)
    requires
        0 <= row < batch_size * num_beams,
        num_beams > 0,
    ensures
        0 <= row / num_beams < batch_size,
        0 <= row % num_beams < num_beams,
        row == (row / num_beams) * num_beams + row % num_beams,
{
    assert(0 <= row / num_beams < batch_size) by (nonlinear_arith)
        requires
            0 <= row < batch_size * num_beams,
            num_beams > 0,
    ;
    vstd::arithmetic::div_mod::lemma_fundamental_div_mod(row, num_beams);
    vstd::arithmetic::div_mod::lemma_mod_bound(row, num_beams);
    assert(num_beams * (row / num_beams) == (row / num_beams) * num_beams) by (nonlinear_arith);
}

/// Row `item * num_beams + beam` is a row of the batch, and belongs to `item`.
pub(crate) proof fn lemma_row_of_item(batch_size: int, num_beams: int, item: int, beam: int)
    requires
        0 <= item < batch_size,
        0 <= beam < num_beams,
    ensures
        0 <= item * num_beams + beam < batch_size * num_beams,
        (item * num_beams + beam) / num_beams == item,
        (item * num_beams + beam) % num_beams == beam,
        item * num_beams + num_beams == (item + 1) * num_beams,
        (item + 1) * num_beams <= batch_size * num_beams,
{
    assert(item * num_beams + num_beams == (item + 1) * num_beams) by (nonlinear_arith);
    assert((item + 1) * num_beams <= batch_size * num_beams) by (nonlinear_arith)
        requires
            item + 1 <= batch_size,
            num_beams > 0,
    ;
    assert(0 <= item * num_beams) by (nonlinear_arith)
        requires
            0 <= item,
            num_beams > 0,
    ;
    vstd::arithmetic::div_mod::lemma_fundamental_div_mod_converse(
        item * num_beams + beam,
        num_beams,
        item,
        beam,
    );
}

impl BeamSearch {
    /// Sets up the search of a batch whose rows already stand `num_beams`
    /// times for each item.
    pub fn new(
        input_ids: Vec<Vec<i64>>,
        attention_mask: Vec<Vec<i64>>,
        batch_size: usize,
        vocab_size: usize,
        config: &GenerateConfig,
        pad_token_id: Option<i64>,
        eos_token_ids: Option<Vec<i64>>,
    ) -> (r: Result<BeamSearch, GenerationError>)
        ensures
            match r {
                Ok(search) => new_error(
                    rows(input_ids@),
                    rows(attention_mask@),
                    batch_size as nat,
                    vocab_size as nat,
                    *config,
                ) is None && search@ == initial(
                    rows(input_ids@),
                    rows(attention_mask@),
                    batch_size as nat,
                    vocab_size as nat,
                    *config,
                    pad_token_id,
                    token_list(eos_token_ids),
                ) && search@.wf(),
                Err(e) => new_error(
                    rows(input_ids@),
                    rows(attention_mask@),
                    batch_size as nat,
                    vocab_size as nat,
                    *config,
                ) == Some(e),
            },
    {
        if batch_size == 0 {
            return Err(GenerationError::EmptyBatch);
        }
        if config.num_beams == 0 {
            return Err(GenerationError::NoBeams);
        }
        if vocab_size == 0 {
            return Err(GenerationError::EmptyVocabulary);
        }
        let per_item: u64 = if config.do_sample {
            1
        } else {
            config.num_return_sequences
        };
        if per_item < 1 || per_item > config.num_beams {
            return Err(GenerationError::SequenceCount);
        }
        let height: usize = input_ids.len();
        assert((batch_size as int) * (config.num_beams as int) <= 0xFFFF_FFFF_FFFF_FFFF
            * 0xFFFF_FFFF_FFFF_FFFF) by (nonlinear_arith)
            requires
                0 <= batch_size <= 0xFFFF_FFFF_FFFF_FFFF,
                0 <= config.num_beams <= 0xFFFF_FFFF_FFFF_FFFF,
        ;
        let product: u128 = (batch_size as u128) * (config.num_beams as u128);
        if product != height as u128 {
            return Err(GenerationError::ShapeMismatch);
        }
        assert(config.num_beams <= height) by (nonlinear_arith)
            requires
                batch_size >= 1,
                batch_size * config.num_beams == height,
        ;
        assert(height >= 1) by (nonlinear_arith)
            requires
                batch_size >= 1,
                config.num_beams >= 1,
                batch_size * config.num_beams == height,
        ;
        let num_beams: usize = config.num_beams as usize;
        if attention_mask.len() != height {
            return Err(GenerationError::ShapeMismatch);
        }
        let current_length: usize = input_ids[0].len();
        assert(rows(input_ids@)[0].len() == current_length);
        if !check_width(&input_ids, current_length) || !check_width(&attention_mask, current_length) {
            return Err(GenerationError::ShapeMismatch);
        }
        if num_beams > usize::MAX / 2 {
            return Err(GenerationError::TooLarge);
        }
        let mut hypotheses: Vec<BeamHypotheses> = Vec::new();
        let mut b: usize = 0;
        while b < batch_size
            invariant
                b <= batch_size,
                hypotheses.len() == b,
                forall|k: int|
                    0 <= k < b ==> (#[trigger] hypotheses[k])@ == (BeamHypothesesView {
                        max_length: if config.max_length > 0 {
                            (config.max_length - 1) as nat
                        } else {
                            0
                        },
                        length_penalty: config.length_penalty,
                        early_stopping: config.early_stopping,
                        num_beams: num_beams as nat,
                        beams: Seq::empty(),
                        worst_score: crate::number::INFINITY,
                    }) && hypotheses[k]@.wf(),
            decreases batch_size - b,
        {
            hypotheses.push(
                BeamHypotheses::new(
                    num_beams,
                    config.max_length,
                    config.length_penalty,
                    config.early_stopping,
                ),
            );
            b += 1;
        }
        let mut done: Vec<bool> = Vec::new();
        let mut b: usize = 0;
        while b < batch_size
            invariant
                b <= batch_size,
                done.len() == b,
                forall|k: int| 0 <= k < b ==> !done[k],
            decreases batch_size - b,
        {
            done.push(false);
            b += 1;
        }
        let mut beam_scores: Vec<Number> = Vec::new();
        let mut r: usize = 0;
        while r < height
            invariant
                r <= height,
                num_beams >= 1,
                beam_scores.len() == r,
                forall|k: int|
                    0 <= k < r ==> #[trigger] beam_scores[k] == if config.do_sample || k % (
                    num_beams as int) == 0 {
                        ZERO
                    } else {
                        NEG_INFINITY
                    },
            decreases height - r,
        {
            if config.do_sample || r % num_beams == 0 {
                beam_scores.push(ZERO);
            } else {
                beam_scores.push(NEG_INFINITY);
            }
            r += 1;
        }
        let search = BeamSearch {
            batch_size,
            num_beams,
            vocab_size,
            min_length: config.min_length,
            max_length: config.max_length,
            do_sample: config.do_sample,
            num_return_sequences: config.num_return_sequences,
            no_repeat_ngram_size: config.no_repeat_ngram_size,
            pad_token_id,
            eos_token_ids,
            hypotheses,
            beam_scores,
            done,
            input_ids,
            attention_mask,
            current_length,
            prompt_length: current_length,
            source_rows: Vec::new(),
            finished: false,
        };
        proof {
            let want = initial(
                rows(input_ids@),
                rows(attention_mask@),
                batch_size as nat,
                vocab_size as nat,
                *config,
                pad_token_id,
                token_list(eos_token_ids),
            );
            assert(search@.hypotheses =~= want.hypotheses);
            assert(search@.beam_scores =~= want.beam_scores);
            assert(search@.done =~= want.done);
            assert(search@.source_rows =~= want.source_rows);
            assert(search@ == want);
        }
        Ok(search)
    }

    /// Whether every candidate names a beam of its item.
    fn candidates_are_valid(&self, candidates: &Vec<Vec<Candidate>>) -> (r: bool)
        requires
            self@.wf(),
        ensures
            r == forall|b: int, k: int|
                0 <= b < candidates.len() && 0 <= k < candidates[b].len() ==> self@.valid_candidate(
                    #[trigger] candidate_rows(candidates@)[b][k],
                ),
    {
        let mut b: usize = 0;
        while b < candidates.len()
            invariant
                b <= candidates.len(),
                self@.wf(),
                forall|i: int, k: int|
                    0 <= i < b && 0 <= k < candidates[i].len() ==> self@.valid_candidate(
                        #[trigger] candidate_rows(candidates@)[i][k],
                    ),
            decreases candidates.len() - b,
        {
            let mut k: usize = 0;
            while k < candidates[b].len()
                invariant
                    b < candidates.len(),
                    k <= candidates[b as int].len(),
                    self@.wf(),
                    forall|j: int|
                        0 <= j < k ==> self@.valid_candidate(
                            #[trigger] candidate_rows(candidates@)[b as int][j],
                        ),
                decreases candidates[b as int].len() - k,
            {
                let index: i64 = candidates[b][k].index;
                if index < 0 || (index as u64) / (self.vocab_size as u64) >= self.num_beams as u64 {
                    assert(!self@.valid_candidate(candidate_rows(candidates@)[b as int][k as int]));
                    return false;
                }
                k += 1;
            }
            b += 1;
        }
        true
    }

    /// Whether some item is done.
    fn any_done(&self) -> (r: bool)
        ensures
            r == exists|b: int| 0 <= b < self.done.len() && #[trigger] self.done[b],
    {
        let mut b: usize = 0;
        while b < self.done.len()
            invariant
                b <= self.done.len(),
                forall|k: int| 0 <= k < b ==> !self.done[k],
            decreases self.done.len() - b,
        {
            if self.done[b] {
                return true;
            }
            b += 1;
        }
        false
    }

    /// Takes the ranked candidates of each item, best first, and makes one
    /// step of the search.
    pub fn step(self, candidates: Vec<Vec<Candidate>>) -> (r: Result<BeamSearch, GenerationError>)
        requires
            self@.wf(),
        ensures
            match r {
                Ok(next) => self@.step_error(candidate_rows(candidates@)) is None && next@
                    == self@.step(candidate_rows(candidates@)) && next@.wf(),
                Err(e) => self@.step_error(candidate_rows(candidates@)) == Some(e),
            },
    {
        let ghost before = self@;
        let ghost offered = candidate_rows(candidates@);
        if !self.is_running() {
            return Err(GenerationError::NotRunning);
        }
        if candidates.len() != self.batch_size {
            return Err(GenerationError::ShapeMismatch);
        }
        if !self.candidates_are_valid(&candidates) {
            return Err(GenerationError::InvalidCandidate);
        }
        if self.any_done() && (self.eos_token_ids.is_none() || self.pad_token_id.is_none()) {
            return Err(GenerationError::MissingSpecialToken);
        }
        let BeamSearch {
            batch_size,
            num_beams,
            vocab_size,
            min_length,
            max_length,
            do_sample,
            num_return_sequences,
            no_repeat_ngram_size,
            pad_token_id,
            eos_token_ids,
            mut hypotheses,
            beam_scores,
            done,
            input_ids,
            attention_mask,
            current_length,
            prompt_length,
            source_rows,
            finished,
        } = self;
        let mut beams: Vec<Beam> = Vec::new();
        let mut next_done: Vec<bool> = Vec::new();
        let mut b: usize = 0;
        assert(before.hypotheses =~= set_views(hypotheses@));
        assert forall|k: int| 0 <= k < batch_size implies (#[trigger] hypotheses[k])@
            == before.hypotheses[k] by {
            assert(set_views(hypotheses@)[k] == hypotheses[k]@);
        }
        assert forall|k: int, j: int|
            0 <= k < batch_size && 0 <= j < hypotheses[k]@.beams.len() implies (
        #[trigger] hypotheses[k]@.beams[j]).1.len() <= current_length by {
            assert(before.hypotheses[k].beams[j].1.len() <= before.current_length);
        }
        assert forall|k: int, j: int|
            0 <= k < batch_size && 0 <= j < hypotheses[k]@.beams.len() implies before.goes_on(
            (#[trigger] hypotheses[k]@.beams[j]).1,
        ) by {
            assert(before.goes_on(before.hypotheses[k].beams[j].1));
        }
        while b < batch_size
            invariant
                b <= batch_size,
                before == self@,
                before.wf(),
                before.running(),
                before.batch_size == batch_size,
                before.num_beams == num_beams,
                before.vocab_size == vocab_size,
                before.input_ids == rows(input_ids@),
                before.eos_token_ids == token_list(eos_token_ids),
                before.pad_token_id == pad_token_id,
                before.done == done@,
                before.current_length == current_length,
                offered == candidate_rows(candidates@),
                candidates.len() == batch_size,
                forall|i: int, k: int|
                    0 <= i < candidates.len() && 0 <= k < candidates[i].len()
                        ==> before.valid_candidate(#[trigger] offered[i][k]),
                (exists|i: int| 0 <= i < done.len() && #[trigger] done[i]) ==> pad_token_id is Some
                    && eos_token_ids is Some,
                hypotheses.len() == batch_size,
                forall|k: int|
                    0 <= k < b ==> (#[trigger] hypotheses[k])@ == before.next_sets(offered)[k],
                forall|k: int|
                    b <= k < batch_size ==> (#[trigger] hypotheses[k])@ == before.hypotheses[k],
                forall|k: int|
                    0 <= k < batch_size ==> (#[trigger] hypotheses[k])@.wf() && hypotheses[k]@.num_beams
                        == num_beams,
                forall|k: int, j: int|
                    0 <= k < batch_size && 0 <= j < hypotheses[k]@.beams.len() ==> (
                    #[trigger] hypotheses[k]@.beams[j]).1.len() <= current_length,
                next_done.len() == b,
                forall|k: int|
                    0 <= k < b ==> #[trigger] next_done[k] == before.next_done(offered)[k],
                forall|k: int|
                    0 <= k < b && next_done[k] ==> (#[trigger] hypotheses[k])@.beams.len()
                        == num_beams,
                beams.len() == b * num_beams,
                forall|r: int|
                    0 <= r < beams.len() ==> #[trigger] beams[r] == before.next_beams(offered)[r],
                forall|r: int|
                    0 <= r < beams.len() ==> (#[trigger] beams[r]).row < batch_size * num_beams,
                forall|k: int, j: int|
                    0 <= k < batch_size && 0 <= j < hypotheses[k]@.beams.len() ==> before.goes_on(
                        (#[trigger] hypotheses[k]@.beams[j]).1,
                    ),
                forall|r: int|
                    0 <= r < beams.len() && !before.done[r / (num_beams as int)] ==> ((
                    #[trigger] beams[r]).row as int) / (num_beams as int) == r / (num_beams as int)
                        && !before.is_eos(beams[r].token),
                forall|k: int|
                    0 <= k < b && !before.done[k] ==> (#[trigger] before.item_walk(
                        k,
                        offered,
                    )).1.len() == num_beams,
            decreases batch_size - b,
        {
            proof {
                lemma_row_of_item(batch_size as int, num_beams as int, b as int, 0);
            }
            let ghost beams_before = beams@;
            if done[b] {
                assert(pad_token_id is Some);
                let pad: i64 = match pad_token_id {
                    Some(p) => p,
                    None => 0,
                };
                let mut k: usize = 0;
                while k < num_beams
                    invariant
                        k <= num_beams,
                        b < batch_size,
                        num_beams >= 1,
                        batch_size * num_beams == before.height(),
                        beams.len() == b * num_beams + k,
                        (b + 1) * num_beams <= batch_size * num_beams,
                        b * num_beams + num_beams == (b + 1) * num_beams,
                        forall|r: int| 0 <= r < b * num_beams ==> beams[r] == beams_before[r],
                        forall|r: int|
                            b * num_beams <= r < beams.len() ==> #[trigger] beams[r] == (Beam {
                                score: ZERO,
                                token: pad,
                                row: 0,
                            }),
                    decreases num_beams - k,
                {
                    beams.push(Beam { score: ZERO, token: pad, row: 0 });
                    k += 1;
                }
                next_done.push(true);
                assert(hypotheses[b as int]@ == before.next_sets(offered)[b as int]);
                assert forall|r: int| 0 <= r < beams.len() implies #[trigger] beams[r]
                    == before.next_beams(offered)[r] by {
                    if r >= b * num_beams {
                        lemma_row_of_item(
                            batch_size as int,
                            num_beams as int,
                            b as int,
                            r - b * num_beams,
                        );
                    } else {
                        assert(beams[r] == beams_before[r]);
                    }
                }
                assert forall|r: int| 0 <= r < beams.len() implies (#[trigger] beams[r]).row
                    < batch_size * num_beams by {
                    if r < b * num_beams {
                        assert(beams[r] == beams_before[r]);
                    }
                }
                assert forall|r: int|
                    0 <= r < beams.len() && !before.done[r / (num_beams as int)] implies ((
                #[trigger] beams[r]).row as int) / (num_beams as int) == r / (num_beams as int)
                    && !before.is_eos(beams[r].token) by {
                    if r >= b * num_beams {
                        lemma_row_of_item(
                            batch_size as int,
                            num_beams as int,
                            b as int,
                            r - b * num_beams,
                        );
                    } else {
                        assert(beams[r] == beams_before[r]);
                    }
                }
            } else {
                assert(offered[b as int] == candidates[b as int]@);
                assert forall|r: int| 0 <= r < candidates[b as int].len() implies before.valid_candidate(
                    #[trigger] candidates[b as int][r],
                ) by {
                    assert(offered[b as int][r] == candidates[b as int][r]);
                }
                if candidates[b].len() == 0 {
                    assert(before.item_walk(b as int, offered).1.len() == 0);
                    return Err(GenerationError::BeamIncomplete);
                }
                assert forall|k: int| 0 <= k < num_beams implies before.goes_on(
                    #[trigger] rows(input_ids@)[b * num_beams + k],
                ) by {
                    lemma_row_of_item(batch_size as int, num_beams as int, b as int, k);
                    assert(before.goes_on(before.input_ids[b * num_beams + k]));
                }
                let mut item_beams = walk_candidates(
                    &mut hypotheses[b],
                    &input_ids,
                    &candidates[b],
                    b,
                    batch_size,
                    num_beams,
                    vocab_size,
                    current_length,
                    &eos_token_ids,
                    Ghost(before),
                );
                assert(before.item_walk(b as int, offered) == (hypotheses[b as int]@, item_beams@));
                if item_beams.len() != num_beams {
                    return Err(GenerationError::BeamIncomplete);
                }
                let best = leading_position(&candidates[b]);
                let item_done = hypotheses[b].is_done(candidates[b][best].normalized_score);
                next_done.push(item_done);
                let ghost collected = item_beams@;
                beams.append(&mut item_beams);
                assert(hypotheses[b as int]@ == before.next_sets(offered)[b as int]);
                assert forall|r: int| 0 <= r < beams.len() implies #[trigger] beams[r]
                    == before.next_beams(offered)[r] by {
                    if r >= b * num_beams {
                        lemma_row_of_item(
                            batch_size as int,
                            num_beams as int,
                            b as int,
                            r - b * num_beams,
                        );
                        assert(beams[r] == collected[r - b * num_beams]);
                    } else {
                        assert(beams[r] == beams_before[r]);
                    }
                }
                assert forall|r: int| 0 <= r < beams.len() implies (#[trigger] beams[r]).row
                    < batch_size * num_beams by {
                    if r >= b * num_beams {
                        assert(beams[r] == collected[r - b * num_beams]);
                    } else {
                        assert(beams[r] == beams_before[r]);
                    }
                }
                assert forall|r: int|
                    0 <= r < beams.len() && !before.done[r / (num_beams as int)] implies ((
                #[trigger] beams[r]).row as int) / (num_beams as int) == r / (num_beams as int)
                    && !before.is_eos(beams[r].token) by {
                    if r >= b * num_beams {
                        lemma_row_of_item(
                            batch_size as int,
                            num_beams as int,
                            b as int,
                            r - b * num_beams,
                        );
                        assert(beams[r] == collected[r - b * num_beams]);
                    } else {
                        assert(beams[r] == beams_before[r]);
                    }
                }
            }
            b += 1;
        }
        let mut all_done: bool = true;
        let mut k: usize = 0;
        while k < batch_size
            invariant
                k <= batch_size,
                next_done.len() == batch_size,
                all_done == forall|i: int| 0 <= i < k ==> #[trigger] next_done[i],
            decreases batch_size - k,
        {
            if !next_done[k] {
                all_done = false;
            }
            k += 1;
        }
        assert(next_done@ =~= before.next_done(offered));
        assert(set_views(hypotheses@) =~= before.next_sets(offered));
        if all_done {
            let next = BeamSearch {
                batch_size,
                num_beams,
                vocab_size,
                min_length,
                max_length,
                do_sample,
                num_return_sequences,
                no_repeat_ngram_size,
                pad_token_id,
                eos_token_ids,
                hypotheses,
                beam_scores,
                done: next_done,
                input_ids,
                attention_mask,
                current_length,
                prompt_length,
                source_rows,
                finished: true,
            };
            assert(next@ == before.step(offered));
            assert forall|r: int|
                0 <= r < next@.height() && !next@.done[r / (num_beams as int)] implies next@.goes_on(
                #[trigger] next@.input_ids[r],
            ) by {
                lemma_item_of_row(batch_size as int, num_beams as int, r);
                assert(before.goes_on(before.input_ids[r]));
            }
            assert forall|k: int, j: int|
                0 <= k < batch_size && 0 <= j < next@.hypotheses[k].beams.len() implies next@.goes_on(
                (#[trigger] next@.hypotheses[k].beams[j]).1,
            ) by {
                assert(before.goes_on(hypotheses[k]@.beams[j].1));
            }
            return Ok(next);
        }
        let mut scores: Vec<Number> = Vec::new();
        let mut tokens: Vec<i64> = Vec::new();
        let mut sources: Vec<usize> = Vec::new();
        let mut r: usize = 0;
        while r < beams.len()
            invariant
                r <= beams.len(),
                scores.len() == r,
                tokens.len() == r,
                sources.len() == r,
                forall|i: int| 0 <= i < r ==> #[trigger] scores[i] == beams[i].score,
                forall|i: int| 0 <= i < r ==> #[trigger] tokens[i] == beams[i].token,
                forall|i: int| 0 <= i < r ==> #[trigger] sources[i] == beams[i].row,
            decreases beams.len() - r,
        {
            scores.push(beams[r].score);
            tokens.push(beams[r].token);
            sources.push(beams[r].row);
            r += 1;
        }
        proof {
            lemma_row_of_item(batch_size as int, num_beams as int, 0, 0);
        }
        let gathered = select_rows(&input_ids, &sources);
        let next_input_ids = append_column(gathered, &tokens);
        let next_attention_mask = append_constant_column(attention_mask, 1);
        assert(rows(gathered@)[0] == rows(input_ids@)[sources[0] as int]);
        assert(rows(next_input_ids@)[0] == rows(gathered@)[0].push(tokens[0]));
        assert(rows(next_input_ids@)[0].len() == current_length + 1);
        let next_length: usize = next_input_ids[0].len();
        let next = BeamSearch {
            batch_size,
            num_beams,
            vocab_size,
            min_length,
            max_length,
            do_sample,
            num_return_sequences,
            no_repeat_ngram_size,
            pad_token_id,
            eos_token_ids,
            hypotheses,
            beam_scores: scores,
            done: next_done,
            input_ids: next_input_ids,
            attention_mask: next_attention_mask,
            current_length: next_length,
            prompt_length,
            source_rows: sources,
            finished,
        };
        proof {
            let want = before.step(offered);
            assert(beams@ =~= before.next_beams(offered));
            assert(next@.beam_scores =~= want.beam_scores);
            assert(next@.source_rows =~= want.source_rows);
            assert(next@.input_ids =~= want.input_ids);
            assert(next@.attention_mask =~= want.attention_mask);
            assert(next@ == want);
            assert forall|r: int|
                0 <= r < want.height() && !want.done[r / (num_beams as int)] implies want.goes_on(
                #[trigger] want.input_ids[r],
            ) by {
                lemma_item_of_row(batch_size as int, num_beams as int, r);
                let source = beams[r].row as int;
                lemma_item_of_row(batch_size as int, num_beams as int, source);
                assert(before.goes_on(before.input_ids[source]));
                assert(want.input_ids[r] == before.input_ids[source].push(beams[r].token));
                assert(before.input_ids[source].len() == before.current_length);
            }
            assert forall|k: int, j: int|
                0 <= k < batch_size && 0 <= j < want.hypotheses[k].beams.len() implies want.goes_on(
                (#[trigger] want.hypotheses[k].beams[j]).1,
            ) by {
                assert(before.goes_on(hypotheses[k]@.beams[j].1));
            }
        }
        Ok(next)
    }

    /// Ends the search and selects the sequences to return. `scores` holds,
    /// for each row, its cumulative log-probability divided by the current
    /// length raised to the length penalty.
    pub fn finalize(self, scores: &Vec<Number>) -> (r: Result<Vec<Vec<i64>>, GenerationError>)
        requires
            self@.wf(),
        ensures
            match r {
                Ok(out) => self@.finalize_error(scores@) is None && rows(out@) == self@.finalize(
                    scores@,
                ) && out.len() == self@.batch_size * self@.per_item(),
                Err(e) => self@.finalize_error(scores@) == Some(e),
            },
    {
        let ghost before = self@;
        if scores.len() != self.input_ids.len() {
            return Err(GenerationError::ShapeMismatch);
        }
        let BeamSearch {
            batch_size,
            num_beams,
            vocab_size,
            min_length,
            max_length,
            do_sample,
            num_return_sequences,
            no_repeat_ngram_size,
            pad_token_id,
            eos_token_ids,
            mut hypotheses,
            beam_scores,
            done,
            input_ids,
            attention_mask,
            current_length,
            prompt_length,
            source_rows,
            finished,
        } = self;
        assert(before.hypotheses =~= set_views(hypotheses@));
        assert forall|k: int| 0 <= k < batch_size implies (#[trigger] hypotheses[k])@
            == before.hypotheses[k] by {
            assert(set_views(hypotheses@)[k] == hypotheses[k]@);
        }
        let mut b: usize = 0;
        while b < batch_size
            invariant
                b <= batch_size,
                before.wf(),
                before.batch_size == batch_size,
                before.num_beams == num_beams,
                before.input_ids == rows(input_ids@),
                before.done == done@,
                scores.len() == batch_size * num_beams,
                input_ids.len() == batch_size * num_beams,
                hypotheses.len() == batch_size,
                forall|k: int|
                    0 <= k < b ==> (#[trigger] hypotheses[k])@ == before.final_sets(scores@)[k],
                forall|k: int|
                    b <= k < batch_size ==> (#[trigger] hypotheses[k])@ == before.hypotheses[k],
                forall|k: int| 0 <= k < b ==> (#[trigger] hypotheses[k])@.beams.len() == num_beams,
            decreases batch_size - b,
        {
            if !done[b] {
                let ghost start = hypotheses[b as int]@;
                let ghost old_sets = hypotheses@;
                let mut k: usize = 0;
                while k < num_beams
                    invariant
                        k <= num_beams,
                        b < batch_size,
                        before.wf(),
                        before.batch_size == batch_size,
                        before.num_beams == num_beams,
                        before.input_ids == rows(input_ids@),
                        scores.len() == batch_size * num_beams,
                        input_ids.len() == batch_size * num_beams,
                        hypotheses.len() == batch_size,
                        forall|i: int|
                            0 <= i < batch_size && i != b ==> (#[trigger] hypotheses[i])
                                == old_sets[i],
                        hypotheses[b as int]@.wf(),
                        hypotheses[b as int]@.num_beams == num_beams,
                        hypotheses[b as int]@.beams.len() >= k || hypotheses[b as int]@.beams.len()
                            == num_beams,
                        before.add_live_beams(b as int, scores@, k as int, hypotheses[b as int]@)
                            == before.add_live_beams(b as int, scores@, 0, start),
                    decreases num_beams - k,
                {
                    proof {
                        lemma_row_of_item(batch_size as int, num_beams as int, b as int, k as int);
                        lemma_add_preserves_wf(
                            hypotheses[b as int]@,
                            rows(input_ids@)[b * num_beams + k],
                            scores@[b * num_beams + k],
                        );
                    }
                    let row: usize = b * num_beams + k;
                    hypotheses[b].add(copy_row(&input_ids[row]), scores[row]);
                    k += 1;
                }
            }
            b += 1;
        }
        proof {
            assert(set_views(hypotheses@) =~= before.final_sets(scores@));
        }
        let per_item: usize = if do_sample {
            1
        } else {
            num_return_sequences as usize
        };
        let mut chosen: Vec<Vec<i64>> = Vec::new();
        let mut b: usize = 0;
        while b < batch_size
            invariant
                b <= batch_size,
                before.wf(),
                before.batch_size == batch_size,
                before.per_item() == per_item,
                1 <= per_item <= num_beams,
                hypotheses.len() == batch_size,
                set_views(hypotheses@) == before.final_sets(scores@),
                forall|k: int|
                    0 <= k < batch_size ==> (#[trigger] hypotheses[k])@.beams.len() == num_beams,
                chosen.len() == b * per_item,
                forall|i: int|
                    0 <= i < chosen.len() ==> (#[trigger] chosen[i])@ == before.chosen(scores@)[i],
            decreases batch_size - b,
        {
            let mut best = hypotheses[b].best(per_item);
            let ghost picked = rows(best@);
            let ghost chosen_before = rows(chosen@);
            proof {
                lemma_row_of_item(batch_size as int, per_item as int, b as int, 0);
                assert(set_views(hypotheses@)[b as int] == hypotheses[b as int]@);
            }
            chosen.append(&mut best);
            assert forall|i: int| 0 <= i < chosen.len() implies (#[trigger] chosen[i])@
                == before.chosen(scores@)[i] by {
                if i >= b * per_item {
                    lemma_row_of_item(
                        batch_size as int,
                        per_item as int,
                        b as int,
                        i - b * per_item,
                    );
                    assert(chosen[i]@ == picked[i - b * per_item]);
                } else {
                    assert(chosen[i]@ == chosen_before[i]);
                }
            }
            b += 1;
        }
        assert(rows(chosen@) =~= before.chosen(scores@));
        proof {
            lemma_row_of_item(batch_size as int, per_item as int, 0, 0);
        }
        let first: usize = chosen[0].len();
        let mut most: usize = 0;
        let mut same: bool = true;
        let mut i: usize = 0;
        while i < chosen.len()
            invariant
                i <= chosen.len(),
                chosen.len() >= 1,
                first == chosen[0].len(),
                most == longest(rows(chosen@).take(i as int)),
                same == forall|k: int| 0 <= k < i ==> (#[trigger] rows(chosen@)[k]).len() == first,
            decreases chosen.len() - i,
        {
            proof {
                let next = rows(chosen@).take(i + 1);
                assert(next.drop_last() =~= rows(chosen@).take(i as int));
                assert(next.last() == chosen[i as int]@);
            }
            if chosen[i].len() > most {
                most = chosen[i].len();
            }
            if chosen[i].len() != first {
                same = false;
            }
            i += 1;
        }
        assert(rows(chosen@).take(i as int) =~= rows(chosen@));
        assert(rows(chosen@)[0].len() == first);
        if same {
            return Ok(chosen);
        }
        let pad: i64 = match pad_token_id {
            Some(p) => p,
            None => {
                return Err(GenerationError::MissingSpecialToken);
            },
        };
        let eos: i64 = match &eos_token_ids {
            Some(ids) => {
                if ids.len() == 0 {
                    return Err(GenerationError::MissingSpecialToken);
                }
                ids[0]
            },
            None => {
                return Err(GenerationError::MissingSpecialToken);
            },
        };
        let mut out: Vec<Vec<i64>> = Vec::new();
        let ghost width: nat = if most + 1 < max_length {
            (most + 1) as nat
        } else {
            max_length as nat
        };
        let mut i: usize = 0;
        while i < chosen.len()
            invariant
                i <= chosen.len(),
                out.len() == i,
                width == if most + 1 < max_length {
                    (most + 1) as nat
                } else {
                    max_length as nat
                },
                forall|k: int|
                    0 <= k < i ==> (#[trigger] out[k])@ == padded_row(
                        chosen[k]@,
                        width,
                        max_length as nat,
                        pad,
                        eos,
                    ),
            decreases chosen.len() - i,
        {
            let tokens = &chosen[i];
            let mut row: Vec<i64> = Vec::new();
            let mut j: usize = 0;
            while j < most && (j as u64) < max_length
                invariant
                    j <= most,
                    j <= max_length,
                    row.len() == j,
                    forall|k: int|
                        0 <= k < j ==> #[trigger] row[k] == padded_row(
                            tokens@,
                            width,
                            max_length as nat,
                            pad,
                            eos,
                        )[k],
                    width == if most + 1 < max_length {
                        (most + 1) as nat
                    } else {
                        max_length as nat
                    },
                decreases most - j,
            {
                if j < tokens.len() {
                    row.push(tokens[j]);
                } else if j == tokens.len() && (tokens.len() as u64) < max_length {
                    row.push(eos);
                } else {
                    row.push(pad);
                }
                j += 1;
            }
            if (most as u64) < max_length {
                if most < tokens.len() {
                    row.push(tokens[most]);
                } else if most == tokens.len() {
                    row.push(eos);
                } else {
                    row.push(pad);
                }
            }
            assert(row@ =~= padded_row(tokens@, width, max_length as nat, pad, eos));
            out.push(row);
            i += 1;
        }
        proof {
            assert(rows(out@) =~= padded(rows(chosen@), max_length as nat, pad, eos));
        }
        Ok(out)
    }

    /// Filters the scores that the model gave for the next token of each row.
    pub fn filter_scores(&self, scores: Vec<Vec<Number>>) -> (r: Result<
        Vec<Vec<Number>>,
        GenerationError,
    >)
        requires
            self@.wf(),
        ensures
            match r {
                Ok(filtered) => scores.len() == self@.height() && filtered.len() == scores.len()
                    && forall|i: int|
                    0 <= i < filtered.len() ==> (#[trigger] filtered[i])@ == self@.filtered_row(
                        i,
                        scores[i]@,
                    ),
                Err(e) => scores.len() != self@.height() && e == GenerationError::ShapeMismatch,
            },
    {
        if scores.len() != self.input_ids.len() {
            return Err(GenerationError::ShapeMismatch);
        }
        let filtered = filter_scores(
            scores,
            &self.input_ids,
            self.no_repeat_ngram_size,
            &self.eos_token_ids,
            (self.current_length as u64) < self.min_length,
        );
        assert forall|i: int| 0 <= i < filtered.len() implies (#[trigger] filtered[i])@
            == self@.filtered_row(i, scores[i]@) by {
            assert(rows(self.input_ids@)[i] == self.input_ids[i]@);
        }
        Ok(filtered)
    }

    /// Ranks, for each item, the continuations of its beams: `scores` holds
    /// for each row the cumulative log-probability of the row with each token
    /// of the vocabulary. The best `2 * num_beams` of each item are returned,
    /// best first.
    pub fn rank_candidates(&self, scores: &Vec<Vec<Number>>) -> (r: Result<
        Vec<Vec<Ranked>>,
        GenerationError,
    >)
        requires
            self@.wf(),
        ensures
            match r {
                Ok(ranked) => self@.fits(rows(scores@)) && self@.num_beams * self@.vocab_size
                    <= i64::MAX && ranked.len() == self@.batch_size && (forall|b: int|
                    0 <= b < self@.batch_size ==> (#[trigger] ranked[b]).len()
                        == self@.candidate_count()) && (forall|b: int, p: int|
                    0 <= b < self@.batch_size && 0 <= p < self@.candidate_count()
                        ==> #[trigger] ranked[b][p] == self@.ranked(rows(scores@), b, p)),
                Err(e) => if self@.fits(rows(scores@)) {
                    self@.num_beams * self@.vocab_size > i64::MAX && e
                        == GenerationError::TooLarge
                } else {
                    e == GenerationError::ShapeMismatch
                },
            },
    {
        if scores.len() != self.input_ids.len() || !check_width(scores, self.vocab_size) {
            return Err(GenerationError::ShapeMismatch);
        }
        assert((self.num_beams as int) * (self.vocab_size as int) <= 0xFFFF_FFFF_FFFF_FFFF
            * 0xFFFF_FFFF_FFFF_FFFF) by (nonlinear_arith)
            requires
                0 <= self.num_beams <= 0xFFFF_FFFF_FFFF_FFFF,
                0 <= self.vocab_size <= 0xFFFF_FFFF_FFFF_FFFF,
        ;
        let places_of_item: u128 = (self.num_beams as u128) * (self.vocab_size as u128);
        if places_of_item > i64::MAX as u128 {
            return Err(GenerationError::TooLarge);
        }
        let mut ranked: Vec<Vec<Ranked>> = Vec::new();
        let mut b: usize = 0;
        while b < self.batch_size
            invariant
                b <= self.batch_size,
                self@.wf(),
                self@.fits(rows(scores@)),
                scores.len() == self.batch_size * self.num_beams,
                self.num_beams * self.vocab_size <= i64::MAX,
                ranked.len() == b,
                forall|i: int| 0 <= i < b ==> (#[trigger] ranked[i]).len() == self@.candidate_count(),
                forall|i: int, p: int|
                    0 <= i < b && 0 <= p < self@.candidate_count() ==> #[trigger] ranked[i][p]
                        == self@.ranked(rows(scores@), i, p),
            decreases self.batch_size - b,
        {
            let ghost want = self@.item_scores(rows(scores@), b as int);
            let mut flat: Vec<Number> = Vec::new();
            let mut k: usize = 0;
            while k < self.num_beams
                invariant
                    k <= self.num_beams,
                    b < self.batch_size,
                    self@.wf(),
                    self@.fits(rows(scores@)),
                    scores.len() == self.batch_size * self.num_beams,
                    want == self@.item_scores(rows(scores@), b as int),
                    flat.len() == k * self.vocab_size,
                    forall|j: int| 0 <= j < flat.len() ==> #[trigger] flat[j] == want[j],
                decreases self.num_beams - k,
            {
                proof {
                    lemma_row_of_item(
                        self.batch_size as int,
                        self.num_beams as int,
                        b as int,
                        k as int,
                    );
                    lemma_row_of_item(self.num_beams as int, self.vocab_size as int, k as int, 0);
                }
                let row = &scores[b * self.num_beams + k];
                assert(row@ == rows(scores@)[b * self.num_beams + k]);
                let mut t: usize = 0;
                while t < self.vocab_size
                    invariant
                        t <= self.vocab_size,
                        k < self.num_beams,
                        self.vocab_size >= 1,
                        row.len() == self.vocab_size,
                        row@ == rows(scores@)[b * self.num_beams + k],
                        want == self@.item_scores(rows(scores@), b as int),
                        self@.num_beams == self.num_beams,
                        self@.vocab_size == self.vocab_size,
                        (k + 1) * self.vocab_size <= self.num_beams * self.vocab_size,
                        flat.len() == k * self.vocab_size + t,
                        forall|j: int| 0 <= j < flat.len() ==> #[trigger] flat[j] == want[j],
                    decreases self.vocab_size - t,
                {
                    proof {
                        lemma_row_of_item(
                            self.num_beams as int,
                            self.vocab_size as int,
                            k as int,
                            t as int,
                        );
                    }
                    flat.push(row[t]);
                    t += 1;
                }
                proof {
                    lemma_row_of_item(self.num_beams as int, self.vocab_size as int, k as int, 0);
                }
                k += 1;
            }
            assert(flat@ =~= want);
            let order = argsort_descending(&flat);
            let mut item: Vec<Ranked> = Vec::new();
            let mut p: usize = 0;
            while p < order.len() && (p as u128) < 2 * (self.num_beams as u128)
                invariant
                    p <= order.len(),
                    p <= 2 * self.num_beams,
                    order.len() == flat.len(),
                    flat.len() <= i64::MAX,
                    flat@ == want,
                    places(order@) == descending_order(flat@),
                    forall|q: int| 0 <= q < order.len() ==> #[trigger] order[q] < flat.len(),
                    item.len() == p,
                    forall|q: int|
                        0 <= q < p ==> #[trigger] item[q] == (Ranked {
                            index: descending_order(want)[q] as i64,
                            score: want[descending_order(want)[q]],
                        }),
                decreases order.len() - p,
            {
                let place: usize = order[p];
                assert(places(order@)[p as int] == place);
                item.push(Ranked { index: place as i64, score: flat[place] });
                p += 1;
            }
            assert(item.len() == self@.candidate_count());
            assert forall|q: int| 0 <= q < item.len() implies #[trigger] item[q] == self@.ranked(
                rows(scores@),
                b as int,
                q,
            ) by {}
            let ghost ranked_before = ranked@;
            ranked.push(item);
            assert forall|i: int, q: int|
                0 <= i < b + 1 && 0 <= q < self@.candidate_count() implies #[trigger] ranked[i][q]
                == self@.ranked(rows(scores@), i, q) by {
                if i < b {
                    assert(ranked[i] == ranked_before[i]);
                }
            }
            b += 1;
        }
        Ok(ranked)
    }

    /// The number of tokens that nucleus and top-k filtering leave in every
    /// row in any case: a beam needs two continuations to choose from.
    pub fn min_tokens_to_keep(&self) -> (r: u64)
        ensures
            r == 2,
    {
        2
    }

    /// The number of candidates that are drawn for each item where candidates
    /// are drawn at random: as many as are ranked where they are not.
    pub fn candidates_to_draw(&self) -> (r: usize)
        requires
            self@.wf(),
        ensures
            r == self@.candidate_count(),
    {
        assert((self.num_beams as int) * (self.vocab_size as int) <= 0xFFFF_FFFF_FFFF_FFFF
            * 0xFFFF_FFFF_FFFF_FFFF) by (nonlinear_arith)
            requires
                0 <= self.num_beams <= 0xFFFF_FFFF_FFFF_FFFF,
                0 <= self.vocab_size <= 0xFFFF_FFFF_FFFF_FFFF,
        ;
        let places_of_item: u128 = (self.num_beams as u128) * (self.vocab_size as u128);
        let twice: usize = 2 * self.num_beams;
        if (twice as u128) < places_of_item {
            twice
        } else {
            places_of_item as usize
        }
    }

    /// Whether another step is due.
    pub fn is_running(&self) -> (r: bool)
        ensures
            r == self@.running(),
    {
        !self.finished && (self.current_length as u64) < self.max_length
    }

    /// The tokens of each row.
    pub fn input_ids(&self) -> (r: &Vec<Vec<i64>>)
        ensures
            rows(r@) == self@.input_ids,
    {
        &self.input_ids
    }

    /// The attention mask.
    pub fn attention_mask(&self) -> (r: &Vec<Vec<i64>>)
        ensures
            rows(r@) == self@.attention_mask,
    {
        &self.attention_mask
    }

    /// The cumulative log-probability of each row.
    pub fn beam_scores(&self) -> (r: &Vec<Number>)
        ensures
            r@ == self@.beam_scores,
    {
        &self.beam_scores
    }

    /// For each row, the row of the batch before the last step that it
    /// continues: the order in which the caller rearranges what it keeps for
    /// each row.
    pub fn source_rows(&self) -> (r: &Vec<usize>)
        ensures
            r@ == self@.source_rows,
    {
        &self.source_rows
    }

    /// The number of tokens of each row.
    pub fn current_length(&self) -> (r: usize)
        ensures
            r == self@.current_length,
    {
        self.current_length
    }

    /// Whether each item is done.
    pub fn done(&self) -> (r: &Vec<bool>)
        ensures
            r@ == self@.done,
    {
        &self.done
    }
}

} // verus!
