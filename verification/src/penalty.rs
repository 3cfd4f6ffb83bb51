//! What is done to the scores before they are filtered: the penalty on tokens
//! that a row already holds, and the temperature. The arithmetic is the
//! caller's; which score is rescaled and which way is decided here.

use crate::error::GenerationError;
use crate::number::{less, lt, Number, ONE, ZERO};
use vstd::prelude::*;

verus! {

/// One rescaling of the score of one token.
#[derive(Clone, Copy, Debug, PartialEq, Eq, Structural)]
pub struct Rescaling {
    /// The token whose score is rescaled.
    pub token: usize,
    /// Whether the score is multiplied by the penalty. Otherwise it is
    /// divided by it.
    pub multiply: bool,
}

/// Whether a repetition penalty has any effect: it is above one.
pub open spec fn penalizes(repetition_penalty: Number) -> bool {
    less(ONE, repetition_penalty)
}

/// Whether a temperature has any effect: it is above one.
pub open spec fn tempers(temperature: Number) -> bool {
    less(ONE, temperature)
}

/// The rescaling of the score of a token that the history holds: a negative
/// score is multiplied by the penalty, any other divided by it, so that the
/// token becomes less likely either way.
pub open spec fn rescaling_of(scores: Seq<Number>, token: i64) -> Rescaling {
    Rescaling { token: token as usize, multiply: less(scores[token as int], ZERO) }
}

/// The tokens among the first `upto` of a history, each of them once, in the
/// order in which they first occur.
pub open spec fn distinct_tokens(history: Seq<i64>, upto: int) -> Seq<i64>
    decreases upto,
{
    if upto <= 0 {
        Seq::empty()
    } else {
        let before = distinct_tokens(history, upto - 1);
        if before.contains(history[upto - 1]) {
            before
        } else {
            before.push(history[upto - 1])
        }
    }
}

/// The rescalings of one row: one for each token that its history holds,
/// however often the history holds it, in the order in which the tokens first
/// occur; none where the penalty has no effect.
pub open spec fn plan_of(scores: Seq<Number>, history: Seq<i64>, repetition_penalty: Number) -> Seq<
    Rescaling,
> {
    if penalizes(repetition_penalty) {
        let tokens = distinct_tokens(history, history.len() as int);
        Seq::new(tokens.len(), |j: int| rescaling_of(scores, tokens[j]))
    } else {
        Seq::empty()
    }
}

/// Why no plan can be made; `None` where one can.
pub open spec fn plan_error(
    scores: Seq<Vec<Number>>,
    history: Seq<Vec<i64>>,
    repetition_penalty: Number,
) -> Option<GenerationError> {
    if scores.len() != history.len() {
        Some(GenerationError::ShapeMismatch)
    } else if penalizes(repetition_penalty) && exists|i: int, j: int|
        0 <= i < history.len() && 0 <= j < history[i].len() && !(0 <= #[trigger] history[i][j]
            < scores[i].len()) {
        Some(GenerationError::InvalidToken)
    } else {
        None
    }
}

/// Whether the scores are divided by the temperature.
pub fn uses_temperature(temperature: Number) -> (r: bool)
    ensures
        r == tempers(temperature),
{
    lt(ONE, temperature)
}

/// Whether tokens that a row already holds are penalised.
pub fn uses_repetition_penalty(repetition_penalty: Number) -> (r: bool)
    ensures
        r == penalizes(repetition_penalty),
{
    lt(ONE, repetition_penalty)
}

/// Whether `token` is one of `tokens`.
fn holds(tokens: &Vec<i64>, token: i64) -> (r: bool)
    ensures
        r == tokens@.contains(token),
{
    let mut k: usize = 0;
    while k < tokens.len()
        invariant
            k <= tokens.len(),
            forall|j: int| 0 <= j < k ==> tokens[j] != token,
        decreases tokens.len() - k,
    {
        if tokens[k] == token {
            assert(tokens@[k as int] == token);
            return true;
        }
        k += 1;
    }
    false
}

/// Plans the repetition penalty of one step: for each row the rescalings of
/// its scores, one for each token that the row holds. A token that occurs
/// more than once is rescaled once.
pub fn repetition_penalty_plan(
    next_token_logits: &Vec<Vec<Number>>,
    prev_output_tokens: &Vec<Vec<i64>>,
    repetition_penalty: Number,
) -> (r: Result<Vec<Vec<Rescaling>>, GenerationError>)
    ensures
        match r {
            Ok(plan) => plan_error(next_token_logits@, prev_output_tokens@, repetition_penalty)
                is None && plan.len() == next_token_logits.len() && forall|i: int|
                0 <= i < plan.len() ==> (#[trigger] plan[i])@ == plan_of(
                    next_token_logits[i]@,
                    prev_output_tokens[i]@,
                    repetition_penalty,
                ),
            Err(e) => plan_error(next_token_logits@, prev_output_tokens@, repetition_penalty)
                == Some(e),
        },
{
    if next_token_logits.len() != prev_output_tokens.len() {
        return Err(GenerationError::ShapeMismatch);
    }
    let active: bool = uses_repetition_penalty(repetition_penalty);
    let mut plan: Vec<Vec<Rescaling>> = Vec::new();
    let mut i: usize = 0;
    while i < next_token_logits.len()
        invariant
            i <= next_token_logits.len(),
            next_token_logits.len() == prev_output_tokens.len(),
            active == penalizes(repetition_penalty),
            plan.len() == i,
            forall|k: int|
                0 <= k < i ==> (#[trigger] plan[k])@ == plan_of(
                    next_token_logits[k]@,
                    prev_output_tokens[k]@,
                    repetition_penalty,
                ),
            active ==> forall|k: int, j: int|
                0 <= k < i && 0 <= j < prev_output_tokens[k].len() ==> 0
                    <= #[trigger] prev_output_tokens[k][j] < next_token_logits[k].len(),
        decreases next_token_logits.len() - i,
    {
        let scores = &next_token_logits[i];
        let history = &prev_output_tokens[i];
        let mut row: Vec<Rescaling> = Vec::new();
        if active {
            let mut seen: Vec<i64> = Vec::new();
            let mut j: usize = 0;
            while j < history.len()
                invariant
                    j <= history.len(),
                    i < next_token_logits.len(),
                    next_token_logits.len() == prev_output_tokens.len(),
                    scores == next_token_logits[i as int],
                    history == prev_output_tokens[i as int],
                    penalizes(repetition_penalty),
                    seen@ == distinct_tokens(history@, j as int),
                    row.len() == seen.len(),
                    forall|k: int|
                        0 <= k < row.len() ==> #[trigger] row[k] == rescaling_of(scores@, seen[k]),
                    forall|k: int| 0 <= k < j ==> 0 <= #[trigger] history[k] < scores.len(),
                decreases history.len() - j,
            {
                let token: i64 = history[j];
                if token < 0 || token as u64 >= scores.len() as u64 {
                    assert(!(0 <= prev_output_tokens[i as int][j as int]
                        < next_token_logits[i as int].len()));
                    return Err(GenerationError::InvalidToken);
                }
                if !holds(&seen, token) {
                    let place: usize = token as usize;
                    seen.push(token);
                    row.push(Rescaling { token: place, multiply: lt(scores[place], ZERO) });
                }
                j += 1;
            }
            assert(row@ =~= plan_of(scores@, history@, repetition_penalty));
        }
        plan.push(row);
        i += 1;
    }
    Ok(plan)
}

/// The distinct tokens of a history are the tokens that the history holds,
/// and none of them stands twice.
pub proof fn lemma_distinct_tokens(history: Seq<i64>, upto: int)
    requires
        0 <= upto <= history.len(),
    ensures
        distinct_tokens(history, upto).no_duplicates(),
        forall|token: i64|
            distinct_tokens(history, upto).contains(token) <==> exists|j: int|
                0 <= j < upto && #[trigger] history[j] == token,
    decreases upto,
{
    if upto > 0 {
        lemma_distinct_tokens(history, upto - 1);
        let before = distinct_tokens(history, upto - 1);
        let now = distinct_tokens(history, upto);
        let last = history[upto - 1];
        assert forall|token: i64| now.contains(token) <==> exists|j: int|
            0 <= j < upto && #[trigger] history[j] == token by {
            if now.contains(token) {
                let k = choose|k: int| 0 <= k < now.len() && now[k] == token;
                if k < before.len() {
                    assert(before[k] == token);
                    assert(before.contains(token));
                } else {
                    assert(history[upto - 1] == token);
                }
            }
            if exists|j: int| 0 <= j < upto && #[trigger] history[j] == token {
                let j = choose|j: int| 0 <= j < upto && #[trigger] history[j] == token;
                if j < upto - 1 {
                    assert(before.contains(token));
                    let k = choose|k: int| 0 <= k < before.len() && before[k] == token;
                    assert(now[k] == token);
                } else if before.contains(last) {
                } else {
                    assert(now[before.len() as int] == token);
                }
            }
        }
        if !before.contains(last) {
            assert forall|a: int, b: int|
                0 <= a < now.len() && 0 <= b < now.len() && a != b implies now[a] != now[b] by {
                if a < before.len() && b < before.len() {
                    assert(before[a] != before[b]);
                } else if a < before.len() {
                    assert(before[a] == now[a]);
                    assert(before.contains(now[a]));
                } else {
                    assert(before[b] == now[b]);
                    assert(before.contains(now[b]));
                }
            }
        }
    }
}

/// A penalty of one changes nothing: the plan of every row is empty.
pub proof fn lemma_penalty_of_one_is_idle(scores: Seq<Number>, history: Seq<i64>)
    ensures
        plan_of(scores, history, ONE) == Seq::<Rescaling>::empty(),
{
}

} // verus!
