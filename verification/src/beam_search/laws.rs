//! What holds of every beam search: which beams go on, how many sequences
//! are returned, and how long they are.

use crate::beam_hypotheses::{
    best_tokens, lemma_add_keeps, lemma_add_keeps_lengths, lemma_add_preserves_wf,
    lemma_best_tokens, BeamHypothesesView,
};
use crate::beam_search::model::BeamSearchView;
use crate::beam_search::{lemma_row_of_item, Beam, Candidate};
use crate::matrix::{lemma_longest_bounds, same_length};
use crate::number::Number;
use vstd::prelude::*;

verus! {

/// The candidates from place `place` on that end no sequence, as beams of
/// the next step, in their order.
pub open spec fn continuing(
    state: BeamSearchView,
    item: int,
    candidates: Seq<Candidate>,
    place: int,
) -> Seq<Beam>
    decreases candidates.len() - place,
{
    if place < 0 || place >= candidates.len() {
        Seq::empty()
    } else {
        let c = candidates[place];
        let rest = continuing(state, item, candidates, place + 1);
        if state.is_eos(state.token_of(c)) {
            rest
        } else {
            seq![
                Beam {
                    score: c.score,
                    token: state.token_of(c),
                    row: state.row_of(item, c) as usize,
                },
            ] + rest
        }
    }
}

/// The beams that go on are the first `num_beams` of the candidates that end
/// no sequence, in the order of the candidates; all of them where there are
/// fewer.
pub proof fn lemma_walk_collects_the_first_that_go_on(
    state: BeamSearchView,
    item: int,
    candidates: Seq<Candidate>,
    place: int,
    set: BeamHypothesesView,
    beams: Seq<Beam>,
)
    requires
        0 <= place <= candidates.len(),
        beams.len() <= state.num_beams,
    ensures
        state.walk(item, candidates, place, set, beams).1 == if (beams + continuing(
            state,
            item,
            candidates,
            place,
        )).len() <= state.num_beams {
            beams + continuing(state, item, candidates, place)
        } else {
            (beams + continuing(state, item, candidates, place)).take(state.num_beams as int)
        },
    decreases candidates.len() - place,
{
    let rest = continuing(state, item, candidates, place);
    if place >= candidates.len() {
        assert(beams + rest =~= beams);
    } else if beams.len() >= state.num_beams {
        assert((beams + rest).take(state.num_beams as int) =~= beams);
        assert(beams + rest =~= beams || (beams + rest).len() > state.num_beams);
    } else {
        let c = candidates[place];
        let after = continuing(state, item, candidates, place + 1);
        if state.is_eos(state.token_of(c)) {
            if place > state.num_beams {
                lemma_walk_collects_the_first_that_go_on(
                    state,
                    item,
                    candidates,
                    place + 1,
                    set,
                    beams,
                );
            } else {
                lemma_walk_collects_the_first_that_go_on(
                    state,
                    item,
                    candidates,
                    place + 1,
                    set.add(state.input_ids[state.row_of(item, c)], c.normalized_score),
                    beams,
                );
            }
        } else {
            let beam = Beam {
                score: c.score,
                token: state.token_of(c),
                row: state.row_of(item, c) as usize,
            };
            lemma_walk_collects_the_first_that_go_on(
                state,
                item,
                candidates,
                place + 1,
                set,
                beams.push(beam),
            );
            assert(beams.push(beam) + after =~= beams + rest);
        }
    }
}

/// Offering its rows to the hypotheses of an item that is not done fills the
/// set, and brings no sequence into it that is longer than the rows are or
/// that holds a token that ends a sequence after its prompt.
pub proof fn lemma_add_live_beams(
    state: BeamSearchView,
    item: int,
    scores: Seq<Number>,
    from: int,
    set: BeamHypothesesView,
)
    requires
        state.wf(),
        0 <= item < state.batch_size,
        !state.done[item],
        0 <= from <= state.num_beams,
        set.wf(),
        set.num_beams == state.num_beams,
        set.beams.len() >= from || set.beams.len() == state.num_beams,
        forall|k: int| 0 <= k < set.beams.len() ==> (#[trigger] set.beams[k]).1.len()
            <= state.current_length,
        forall|k: int| 0 <= k < set.beams.len() ==> state.goes_on((#[trigger] set.beams[k]).1),
    ensures
        state.add_live_beams(item, scores, from, set).wf(),
        state.add_live_beams(item, scores, from, set).beams.len() == state.num_beams,
        forall|k: int|
            0 <= k < state.add_live_beams(item, scores, from, set).beams.len() ==> (
            #[trigger] state.add_live_beams(item, scores, from, set).beams[k]).1.len()
                <= state.current_length,
        forall|k: int|
            0 <= k < state.add_live_beams(item, scores, from, set).beams.len() ==> state.goes_on(
                (#[trigger] state.add_live_beams(item, scores, from, set).beams[k]).1,
            ),
    decreases state.num_beams - from,
{
    if from < state.num_beams {
        lemma_row_of_item(state.batch_size as int, state.num_beams as int, item, from);
        let row = state.input_ids[item * state.num_beams + from];
        let score = scores[item * state.num_beams + from];
        assert(row.len() == state.current_length);
        assert(state.goes_on(row));
        lemma_add_preserves_wf(set, row, score);
        lemma_add_keeps_lengths(set, row, score, state.current_length);
        lemma_add_keeps(set, row, score, |t: Seq<i64>| state.goes_on(t));
        lemma_add_live_beams(state, item, scores, from + 1, set.add(row, score));
    }
}

/// The search returns as many sequences as there are items, times the number
/// asked for each. None of them is longer than the rows are, each holds a
/// prompt, and none holds a token that ends a sequence after its prompt.
pub proof fn lemma_chosen(state: BeamSearchView, scores: Seq<Number>)
    requires
        state.wf(),
    ensures
        state.chosen(scores).len() == state.batch_size * state.per_item(),
        forall|i: int|
            0 <= i < state.chosen(scores).len() ==> (#[trigger] state.chosen(scores)[i]).len()
                <= state.current_length,
        forall|i: int|
            0 <= i < state.chosen(scores).len() ==> state.goes_on(#[trigger] state.chosen(scores)[i]),
{
    let per = state.per_item() as int;
    assert forall|i: int| 0 <= i < state.chosen(scores).len() implies (#[trigger] state.chosen(
        scores,
    )[i]).len() <= state.current_length && state.goes_on(state.chosen(scores)[i]) by {
        let b = i / per;
        let k = i % per;
        assert(0 <= b < state.batch_size && 0 <= k < per) by (nonlinear_arith)
            requires
                0 <= i < state.batch_size * per,
                per >= 1,
                b == i / per,
                k == i % per,
        ;
        let set = state.final_sets(scores)[b];
        if !state.done[b] {
            lemma_add_live_beams(state, b, scores, 0, state.hypotheses[b]);
        }
        assert(set.beams.len() == state.num_beams);
        lemma_best_tokens(set.beams, state.per_item());
        let picked = best_tokens(set.beams, state.per_item());
        let j = choose|j: int| 0 <= j < set.beams.len() && (#[trigger] set.beams[j]).1 == picked[k];
        assert(set.beams[j].1.len() <= state.current_length);
        assert(state.goes_on(set.beams[j].1));
    }
}

/// The result of a search that started within `max_length` holds one row for
/// each sequence asked for. Every row holds a prompt and is no longer than
/// `max_length`. It starts with the sequence selected for it, which holds no
/// token that ends a sequence after the prompt. Where the rows were padded,
/// the sequence is followed by the end-of-sequence token, if it is shorter
/// than `max_length`, and after that by nothing but padding.
pub proof fn lemma_finalize_respects_max_length(state: BeamSearchView, scores: Seq<Number>)
    requires
        state.wf(),
        state.current_length <= state.max_length,
    ensures
        state.finalize(scores).len() == state.batch_size * state.per_item(),
        forall|i: int|
            0 <= i < state.finalize(scores).len() ==> state.prompt_length <= (
            #[trigger] state.finalize(scores)[i]).len() <= state.max_length,
        forall|i: int, j: int|
            0 <= i < state.finalize(scores).len() && 0 <= j < state.chosen(scores)[i].len() && j
                < state.finalize(scores)[i].len() ==> #[trigger] state.finalize(scores)[i][j]
                == state.chosen(scores)[i][j],
        forall|i: int, j: int|
            0 <= i < state.finalize(scores).len() && state.prompt_length <= j < state.chosen(
                scores,
            )[i].len() && j < state.finalize(scores)[i].len() ==> !state.is_eos(
                #[trigger] state.finalize(scores)[i][j],
            ),
        !same_length(state.chosen(scores)) ==> forall|i: int|
            0 <= i < state.finalize(scores).len() && state.chosen(scores)[i].len()
                < state.max_length ==> state.chosen(scores)[i].len() < (#[trigger] state.finalize(
                scores,
            )[i]).len() && state.finalize(scores)[i][state.chosen(scores)[i].len() as int] == (
            match state.eos_token_ids {
                Some(ids) => ids[0],
                None => 0,
            }),
        !same_length(state.chosen(scores)) ==> forall|i: int, j: int|
            0 <= i < state.finalize(scores).len() && state.chosen(scores)[i].len() < j
                < state.finalize(scores)[i].len() ==> #[trigger] state.finalize(scores)[i][j]
                == state.pad(),
{
    lemma_chosen(state, scores);
    let chosen = state.chosen(scores);
    let out = state.finalize(scores);
    assert(chosen.len() >= 1) by (nonlinear_arith)
        requires
            chosen.len() == state.batch_size * state.per_item(),
            state.batch_size >= 1,
            state.per_item() >= 1,
    ;
    assert(state.goes_on(chosen[0]));
    lemma_longest_bounds(chosen, 0);
    assert forall|i: int| 0 <= i < out.len() implies state.prompt_length <= (#[trigger] out[i]).len()
        <= state.max_length by {
        assert(state.goes_on(chosen[i]));
    }
    assert forall|i: int, j: int|
        0 <= i < out.len() && state.prompt_length <= j < chosen[i].len() && j
            < out[i].len() implies !state.is_eos(#[trigger] out[i][j]) by {
        assert(state.goes_on(chosen[i]));
        assert(out[i][j] == chosen[i][j]);
    }
    if !same_length(chosen) {
        assert forall|i: int| 0 <= i < out.len() && chosen[i].len() < state.max_length implies chosen[i].len()
            < (#[trigger] out[i]).len() by {
            lemma_longest_bounds(chosen, i);
        }
    }
}

/// A step changes neither the number of items nor the number of sequences
/// returned for each, and keeps the rows within `max_length`.
pub proof fn lemma_step_keeps_shape(state: BeamSearchView, candidates: Seq<Seq<Candidate>>)
    requires
        state.wf(),
        state.step_error(candidates) is None,
    ensures
        state.step(candidates).batch_size == state.batch_size,
        state.step(candidates).per_item() == state.per_item(),
        state.step(candidates).max_length == state.max_length,
        state.step(candidates).current_length <= state.max_length,
{
}

} // verus!
