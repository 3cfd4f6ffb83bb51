//! What holds of every decoding without beams: a step keeps the decoder in
//! order, and the result is within its limits.

use crate::filters::lemma_no_bans_no_change;
use crate::no_beam_search::model::{all_equal, greatest, NoBeamSearchView};
use crate::number::Number;
use crate::ranking::first_maximum;
use vstd::prelude::*;

verus! {

/// A step keeps the decoder in order: in particular, a finished row holds
/// nothing but padding after its end-of-sequence token, and no row grows
/// beyond `max_length`.
pub proof fn lemma_advance_preserves_wf(state: NoBeamSearchView, next_tokens: Seq<i64>)
    requires
        state.wf(),
        state.advance_error(next_tokens) is None,
    ensures
        state.advance(next_tokens).wf(),
{
    let next = state.advance(next_tokens);
    assert forall|i: int| 0 <= i < next.batch_size implies (#[trigger] next.input_ids[i]).len()
        == next.current_length by {
        assert(state.input_ids[i].len() == state.current_length);
    }
    assert forall|i: int| 0 <= i < next.batch_size implies (#[trigger] next.attention_mask[i]).len()
        == next.current_length by {
        assert(state.attention_mask[i].len() == state.current_length);
    }
    assert forall|i: int|
        0 <= i < next.batch_size && !#[trigger] next.unfinished_sentences[i] implies {
        &&& next.prompt_length < next.sentence_lengths[i] <= next.current_length
        &&& next.is_eos(next.input_ids[i][next.sentence_lengths[i] - 1])
    } by {
        assert(state.input_ids[i].len() == state.current_length);
        if state.unfinished_sentences[i] {
            assert(state.ends_now(i, next_tokens));
        }
    }
    assert forall|i: int, j: int|
        0 <= i < next.batch_size && !next.unfinished_sentences[i] && next.sentence_lengths[i] <= j
            < next.current_length implies #[trigger] next.input_ids[i][j] == next.pad() by {
        assert(state.input_ids[i].len() == state.current_length);
        if !state.unfinished_sentences[i] {
            if j < state.current_length {
                assert(state.input_ids[i][j] == state.pad());
            }
        }
    }
    assert forall|i: int, j: int|
        0 <= i < next.batch_size && next.prompt_length <= j < next.end_of(i) - (
        if next.unfinished_sentences[i] {
            0int
        } else {
            1int
        }) implies !next.is_eos(#[trigger] next.input_ids[i][j]) by {
        assert(state.input_ids[i].len() == state.current_length);
        if j < state.current_length {
            assert(next.input_ids[i][j] == state.input_ids[i][j]);
            if state.unfinished_sentences[i] {
                assert(!state.is_eos(state.input_ids[i][j]));
            } else {
                assert(!state.is_eos(state.input_ids[i][j]));
            }
        }
    }
    if exists|i: int| 0 <= i < next.batch_size && !#[trigger] next.unfinished_sentences[i] {
        let i = choose|i: int| 0 <= i < next.batch_size && !#[trigger] next.unfinished_sentences[i];
        if state.unfinished_sentences[i] {
            assert(state.ends_now(i, next_tokens));
        }
    }
}

/// A step changes neither the number of rows nor the limits.
pub proof fn lemma_advance_keeps_shape(state: NoBeamSearchView, next_tokens: Seq<i64>)
    requires
        state.wf(),
        state.advance_error(next_tokens) is None,
    ensures
        state.advance(next_tokens).batch_size == state.batch_size,
        state.advance(next_tokens).max_length == state.max_length,
        state.advance(next_tokens).prompt_length == state.prompt_length,
        state.advance(next_tokens).current_length <= state.max_length,
{
}

/// No entry is greater than the greatest, and the greatest is an entry.
pub proof fn lemma_greatest(s: Seq<u64>)
    ensures
        forall|i: int| 0 <= i < s.len() ==> #[trigger] s[i] <= greatest(s),
        s.len() > 0 ==> exists|i: int| 0 <= i < s.len() && #[trigger] s[i] == greatest(s),
    decreases s.len(),
{
    if s.len() > 0 {
        let front = s.drop_last();
        lemma_greatest(front);
        assert forall|i: int| 0 <= i < s.len() implies #[trigger] s[i] <= greatest(s) by {
            if i < front.len() {
                assert(front[i] == s[i]);
            }
        }
        if s.last() > greatest(front) {
            assert(s[s.len() - 1] == greatest(s));
        } else if front.len() > 0 {
            let i = choose|i: int| 0 <= i < front.len() && #[trigger] front[i] == greatest(front);
            assert(s[i] == greatest(s));
        }
    }
}

/// The result of a run whose prompts were within `max_length` holds one row
/// for each row of the batch, and no row is longer than `max_length`. A row
/// that generated an end-of-sequence token holds it at the end of its
/// sequence, no other one between the prompt and it, and nothing but padding
/// after it.
pub proof fn lemma_finish_respects_max_length(state: NoBeamSearchView)
    requires
        state.wf(),
        !state.running(),
        state.prompt_length <= state.max_length,
    ensures
        state.finish().len() == state.batch_size,
        forall|i: int|
            0 <= i < state.batch_size ==> (#[trigger] state.finish()[i]).len() <= state.max_length,
        forall|i: int, j: int|
            0 <= i < state.batch_size && !state.unfinished_sentences[i]
                && state.sentence_lengths[i] <= j < state.finish()[i].len()
                ==> #[trigger] state.finish()[i][j] == state.pad(),
        forall|i: int|
            0 <= i < state.batch_size && !#[trigger] state.unfinished_sentences[i] ==> state.is_eos(
                state.finish()[i][state.sentence_lengths[i] - 1],
            ),
        forall|i: int, j: int|
            0 <= i < state.batch_size && !state.unfinished_sentences[i] && state.prompt_length <= j
                < state.sentence_lengths[i] - 1 ==> !state.is_eos(#[trigger] state.finish()[i][j]),
{
    lemma_greatest(state.sentence_lengths);
    let most = greatest(state.sentence_lengths);
    let k = choose|k: int|
        0 <= k < state.sentence_lengths.len() && #[trigger] state.sentence_lengths[k] == most;
    assert(most <= state.max_length) by {
        if state.unfinished_sentences[k] {
        }
    }
    assert forall|i: int| 0 <= i < state.batch_size implies (#[trigger] state.finish()[i]).len()
        <= state.max_length by {
        assert(state.input_ids[i].len() == state.current_length);
    }
    assert forall|i: int, j: int|
        0 <= i < state.batch_size && !state.unfinished_sentences[i] && state.sentence_lengths[i]
            <= j < state.finish()[i].len() implies #[trigger] state.finish()[i][j]
        == state.pad() by {
        assert(state.input_ids[i].len() == state.current_length);
        if !(!all_equal(state.sentence_lengths) && state.pad_token_id is Some) {
            assert(state.input_ids[i][j] == state.pad());
        }
    }
    assert forall|i: int|
        0 <= i < state.batch_size && !#[trigger] state.unfinished_sentences[i] implies state.is_eos(
        state.finish()[i][state.sentence_lengths[i] - 1],
    ) by {
        assert(state.sentence_lengths[i] <= most);
    }
    assert forall|i: int, j: int|
        0 <= i < state.batch_size && !state.unfinished_sentences[i] && state.prompt_length <= j
            < state.sentence_lengths[i] - 1 implies !state.is_eos(
        #[trigger] state.finish()[i][j],
    ) by {
        assert(state.sentence_lengths[i] <= most);
        assert(!state.is_eos(state.input_ids[i][j]));
    }
}

/// The scores that a model gives for the next token of each row, where the
/// model goes by the tokens of the row alone.
pub open spec fn model_scores(state: NoBeamSearchView, model: spec_fn(Seq<i64>) -> Seq<Number>) -> Seq<
    Seq<Number>,
> {
    Seq::new(state.batch_size, |i: int| model(state.input_ids[i]))
}

/// The model gives a score for at least one token, whatever the row.
pub open spec fn gives_scores(model: spec_fn(Seq<i64>) -> Seq<Number>) -> bool {
    forall|tokens: Seq<i64>| 1 <= (#[trigger] model(tokens)).len() <= i64::MAX
}

/// The filters let every score through: no n-gram is banned, and every row is
/// as long as a sequence must be before it may end.
pub open spec fn lets_through(state: NoBeamSearchView) -> bool {
    state.no_repeat_ngram_size == 0 && state.min_length <= state.prompt_length
}

/// Every token that a row holds after its prompt and up to its end is the
/// token that the model likes best after the tokens before it.
pub open spec fn follows_model(state: NoBeamSearchView, model: spec_fn(Seq<i64>) -> Seq<Number>) -> bool {
    forall|i: int, t: int|
        0 <= i < state.batch_size && state.prompt_length <= t < state.end_of(i)
            ==> #[trigger] state.input_ids[i][t] == first_maximum(
            model(state.input_ids[i].take(t)),
        )
}

/// The decoder after greedy decoding has run to its end on a model.
pub open spec fn greedy_run(state: NoBeamSearchView, model: spec_fn(Seq<i64>) -> Seq<Number>) -> NoBeamSearchView
    decreases state.max_length - state.current_length,
{
    if state.running() {
        greedy_run(state.advance(state.greedy_choice(model_scores(state, model))), model)
    } else {
        state
    }
}

/// A step of greedy decoding on the scores of a model cannot fail, keeps the
/// prompts, and keeps every row to the tokens that the model likes best.
pub proof fn lemma_greedy_step_follows(state: NoBeamSearchView, model: spec_fn(Seq<i64>) -> Seq<Number>)
    requires
        state.wf(),
        state.running(),
        lets_through(state),
        gives_scores(model),
        state.eos_token_ids is Some ==> state.pad_token_id is Some,
        follows_model(state, model),
    ensures
        state.greedy_error(model_scores(state, model)) is None,
        state.advance(state.greedy_choice(model_scores(state, model))).wf(),
        follows_model(state.advance(state.greedy_choice(model_scores(state, model))), model),
        forall|i: int|
            0 <= i < state.batch_size ==> (#[trigger] state.advance(
                state.greedy_choice(model_scores(state, model)),
            ).input_ids[i]).take(state.prompt_length as int) == state.input_ids[i].take(
                state.prompt_length as int,
            ),
{
    let scores = model_scores(state, model);
    let choice = state.greedy_choice(scores);
    let next = state.advance(choice);
    assert forall|i: int| 0 <= i < scores.len() implies !((#[trigger] scores[i]).len() == 0
        || scores[i].len() > i64::MAX) by {
        assert(1 <= model(state.input_ids[i]).len() <= i64::MAX);
    }
    lemma_advance_preserves_wf(state, choice);
    assert forall|i: int| 0 <= i < state.batch_size implies (#[trigger] next.input_ids[i]).take(
        state.prompt_length as int,
    ) == state.input_ids[i].take(state.prompt_length as int) by {
        assert(state.input_ids[i].len() == state.current_length);
        assert(next.input_ids[i].take(state.prompt_length as int) =~= state.input_ids[i].take(
            state.prompt_length as int,
        ));
    }
    assert forall|i: int, t: int|
        0 <= i < next.batch_size && next.prompt_length <= t < next.end_of(
            i,
        ) implies #[trigger] next.input_ids[i][t] == first_maximum(
        model(next.input_ids[i].take(t)),
    ) by {
        let old = state.input_ids[i];
        assert(old.len() == state.current_length);
        assert(next.input_ids[i] == old.push(state.token_to_add(i, choice)));
        if t < state.current_length {
            assert(next.input_ids[i].take(t) =~= old.take(t));
            assert(next.input_ids[i][t] == old[t]);
            if state.unfinished_sentences[i] {
                assert(t < state.end_of(i));
            } else {
                assert(next.sentence_lengths[i] == state.sentence_lengths[i]);
                assert(t < state.end_of(i));
            }
            assert(state.input_ids[i][t] == first_maximum(model(old.take(t))));
        } else {
            assert(state.unfinished_sentences[i]);
            assert(t == state.current_length);
            assert(next.input_ids[i].take(t) =~= old);
            lemma_no_bans_no_change(old, scores[i], state.eos_token_ids);
            assert(state.filtered_row(i, scores[i]) == scores[i]);
            assert(scores[i] == model(old));
            assert(choice[i] == first_maximum(model(old)) as i64);
            crate::ranking::lemma_first_maximum_exists(model(old));
        }
    }
}

/// Greedy decoding that runs to its end on a model ends, keeps the prompts,
/// and keeps every row to the tokens that the model likes best.
pub proof fn lemma_greedy_run_follows(state: NoBeamSearchView, model: spec_fn(Seq<i64>) -> Seq<Number>)
    requires
        state.wf(),
        lets_through(state),
        gives_scores(model),
        state.eos_token_ids is Some ==> state.pad_token_id is Some,
        follows_model(state, model),
    ensures
        greedy_run(state, model).wf(),
        !greedy_run(state, model).running(),
        follows_model(greedy_run(state, model), model),
        greedy_run(state, model).batch_size == state.batch_size,
        greedy_run(state, model).prompt_length == state.prompt_length,
        greedy_run(state, model).max_length == state.max_length,
        greedy_run(state, model).eos_token_ids == state.eos_token_ids,
        greedy_run(state, model).pad_token_id == state.pad_token_id,
        forall|i: int|
            0 <= i < state.batch_size ==> (#[trigger] greedy_run(state, model).input_ids[i]).take(
                state.prompt_length as int,
            ) == state.input_ids[i].take(state.prompt_length as int),
    decreases state.max_length - state.current_length,
{
    if state.running() {
        let next = state.advance(state.greedy_choice(model_scores(state, model)));
        lemma_greedy_step_follows(state, model);
        lemma_greedy_run_follows(next, model);
        assert forall|i: int| 0 <= i < state.batch_size implies (#[trigger] greedy_run(
            state,
            model,
        ).input_ids[i]).take(state.prompt_length as int) == state.input_ids[i].take(
            state.prompt_length as int,
        ) by {
            assert(greedy_run(next, model).input_ids[i].take(state.prompt_length as int)
                == next.input_ids[i].take(state.prompt_length as int));
        }
    }
}

/// Greedy decoding from the prompts, with no n-gram banned and no minimum
/// length beyond the prompts, returns for each row the prompt followed, token
/// by token, by the token that the model likes best after what stands before
/// it. A row ends at `max_length`, or with the first end-of-sequence token
/// that the model likes best; what follows the end is padding.
pub proof fn lemma_greedy_decoding(state: NoBeamSearchView, model: spec_fn(Seq<i64>) -> Seq<Number>)
    requires
        state.wf(),
        !state.finished,
        state.current_length == state.prompt_length,
        state.prompt_length <= state.max_length,
        forall|i: int| 0 <= i < state.batch_size ==> #[trigger] state.unfinished_sentences[i],
        lets_through(state),
        gives_scores(model),
        state.eos_token_ids is Some ==> state.pad_token_id is Some,
    ensures
        ({
            let end = greedy_run(state, model);
            let out = end.finish();
            &&& out.len() == state.batch_size
            &&& forall|i: int|
                0 <= i < state.batch_size ==> state.prompt_length <= end.end_of(i) <= (
                #[trigger] out[i]).len() <= state.max_length
            &&& forall|i: int, t: int|
                0 <= i < state.batch_size && 0 <= t < state.prompt_length ==> #[trigger] out[i][t]
                    == state.input_ids[i][t]
            &&& forall|i: int, t: int|
                0 <= i < state.batch_size && state.prompt_length <= t < end.end_of(i)
                    ==> #[trigger] out[i][t] == first_maximum(model(out[i].take(t)))
            &&& forall|i: int|
                0 <= i < state.batch_size ==> end.end_of(i) == state.max_length || (
                !#[trigger] end.unfinished_sentences[i] && end.is_eos(out[i][end.end_of(i) - 1]))
            &&& forall|i: int, t: int|
                0 <= i < state.batch_size && state.prompt_length <= t < end.end_of(i) - 1
                    ==> !end.is_eos(#[trigger] out[i][t])
            &&& forall|i: int, t: int|
                0 <= i < state.batch_size && end.end_of(i) <= t < out[i].len() ==> #[trigger] out[i][t]
                    == end.pad()
        }),
{
    let end = greedy_run(state, model);
    let out = end.finish();
    lemma_greedy_run_follows(state, model);
    lemma_finish_respects_max_length(end);
    lemma_greatest(end.sentence_lengths);
    assert forall|i: int| 0 <= i < state.batch_size implies end.end_of(i) <= (#[trigger] out[i]).len()
        && state.prompt_length <= end.end_of(i) && (forall|t: int|
        0 <= t < end.end_of(i) ==> out[i][t] == end.input_ids[i][t]) && (end.end_of(i)
        == state.max_length || !end.unfinished_sentences[i]) by {
        assert(end.input_ids[i].len() == end.current_length);
        if end.unfinished_sentences[i] {
            assert(end.sentence_lengths[i] == end.max_length);
        }
    }
    assert forall|i: int, t: int|
        0 <= i < state.batch_size && 0 <= t < state.prompt_length implies #[trigger] out[i][t]
        == state.input_ids[i][t] by {
        assert(out[i][t] == end.input_ids[i][t]);
        assert(end.input_ids[i].take(state.prompt_length as int)[t] == state.input_ids[i].take(
            state.prompt_length as int,
        )[t]);
    }
    assert forall|i: int, t: int|
        0 <= i < state.batch_size && state.prompt_length <= t < end.end_of(
            i,
        ) implies #[trigger] out[i][t] == first_maximum(model(out[i].take(t))) by {
        assert(out[i][t] == end.input_ids[i][t]);
        assert(out[i].take(t) =~= end.input_ids[i].take(t));
    }
    assert forall|i: int, t: int|
        0 <= i < state.batch_size && state.prompt_length <= t < end.end_of(i)
            - 1 implies !end.is_eos(#[trigger] out[i][t]) by {
        assert(out[i][t] == end.input_ids[i][t]);
        assert(!end.is_eos(end.input_ids[i][t]));
    }
    assert forall|i: int, t: int|
        0 <= i < state.batch_size && end.end_of(i) <= t < out[i].len() implies #[trigger] out[i][t]
        == end.pad() by {
        if end.unfinished_sentences[i] {
            assert(end.sentence_lengths[i] == end.max_length);
        }
    }
}

} // verus!
