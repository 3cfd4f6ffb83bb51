//! From tokenized prompts to the batch that decoding starts from.

use crate::error::GenerationError;
use crate::matrix::{
    copy_row, has_width, lemma_longest_bounds, lemma_longest_within, longest, longest_row, rows,
    token_list,
};
use vstd::prelude::*;

verus! {

/// The prompt cut down to its first `max_len` tokens.
pub open spec fn truncated(tokens: Seq<i64>, max_len: nat) -> Seq<i64> {
    if tokens.len() > max_len {
        tokens.take(max_len as int)
    } else {
        tokens
    }
}

/// The prompts, each cut down to its first `max_len` tokens.
pub open spec fn truncated_prompts(prompts: Seq<Seq<i64>>, max_len: nat) -> Seq<Seq<i64>> {
    Seq::new(prompts.len(), |i: int| truncated(prompts[i], max_len))
}

/// The tokens in `width` places, padding first.
pub open spec fn left_padded(tokens: Seq<i64>, width: nat, pad: i64) -> Seq<i64> {
    Seq::new((width - tokens.len()) as nat, |j: int| pad) + tokens
}

/// The batch of the prompts: each cut down to `max_len` tokens, and all
/// brought to the length of the longest of them by padding on the left.
pub open spec fn encoded(prompts: Seq<Seq<i64>>, max_len: nat, pad: i64) -> Seq<Seq<i64>> {
    let cut = truncated_prompts(prompts, max_len);
    Seq::new(prompts.len(), |i: int| left_padded(cut[i], longest(cut), pad))
}

/// The attention mask of a batch: zero where the padding token stands, one
/// elsewhere; one everywhere if there is no padding token.
pub open spec fn mask_of(input_ids: Seq<Seq<i64>>, pad_token_id: Option<i64>) -> Seq<Seq<i64>> {
    Seq::new(
        input_ids.len(),
        |i: int|
            Seq::new(
                input_ids[i].len(),
                |j: int|
                    if pad_token_id == Some(input_ids[i][j]) {
                        0i64
                    } else {
                        1i64
                    },
            ),
    )
}

/// The sequence without its last `count` tokens; nothing where it has fewer.
pub open spec fn without_last(tokens: Seq<i64>, count: nat) -> Option<Seq<i64>> {
    if count <= tokens.len() {
        Some(tokens.take(tokens.len() - count))
    } else {
        None
    }
}

/// The batch of the prompts has a row for each prompt, all rows have one
/// length, and that length is no more than `max_len`.
pub proof fn lemma_encoded_shape(prompts: Seq<Seq<i64>>, max_len: nat, pad: i64)
    ensures
        encoded(prompts, max_len, pad).len() == prompts.len(),
        has_width(
            encoded(prompts, max_len, pad),
            longest(truncated_prompts(prompts, max_len)),
        ),
        longest(truncated_prompts(prompts, max_len)) <= max_len,
{
    let cut = truncated_prompts(prompts, max_len);
    lemma_longest_within(cut, max_len);
    assert forall|i: int| 0 <= i < prompts.len() implies (#[trigger] encoded(
        prompts,
        max_len,
        pad,
    )[i]).len() == longest(cut) by {
        lemma_longest_bounds(cut, i);
    }
}

/// `truncate_sequences` of `rust_tokenizers`, called on one sequence with the
/// strategy `LongestFirst` and no stride. With no second sequence it cuts
/// `num_tokens_to_remove` tokens off the end of the first and returns what is
/// left, or fails if the sequence has fewer tokens than that.
#[verifier::external_body]
fn truncate_sequence(tokens: Vec<i64>, num_tokens_to_remove: usize) -> (r: Option<Vec<i64>>)
    ensures
        token_list(r) == without_last(tokens@, num_tokens_to_remove as nat),
{
    match rust_tokenizers::preprocessing::tokenizer::tokenization_utils::truncate_sequences(
        tokens,
        None,
        num_tokens_to_remove,
        &rust_tokenizers::TruncationStrategy::LongestFirst,
        0,
    ) {
        Ok(kept) => Some(kept.0),
        Err(_) => None,
    }
}

/// Cuts a prompt down to its first `max_len` tokens.
pub fn truncate_prompt(tokens: &Vec<i64>, max_len: u64) -> (r: Vec<i64>)
    ensures
        r@ == truncated(tokens@, max_len as nat),
{
    let num_truncated_tokens: usize = if tokens.len() as u64 > max_len {
        tokens.len() - max_len as usize
    } else {
        0
    };
    match truncate_sequence(copy_row(tokens), num_truncated_tokens) {
        Some(kept) => {
            assert(tokens@.take(tokens.len() as int) =~= tokens@);
            kept
        },
        None => copy_row(tokens),
    }
}

/// Builds the batch that decoding starts from, out of the token ids of each
/// prompt. `pad_token_id` fills the rows on the left; where there is none,
/// `unknown_token_id` does.
pub fn encode_prompt_text(
    token_ids: &Vec<Vec<i64>>,
    max_len: u64,
    pad_token_id: Option<i64>,
    unknown_token_id: i64,
) -> (r: Result<Vec<Vec<i64>>, GenerationError>)
    ensures
        match r {
            Ok(batch) => token_ids.len() > 0 && batch.len() == token_ids.len() && rows(batch@)
                == encoded(
                rows(token_ids@),
                max_len as nat,
                match pad_token_id {
                    Some(p) => p,
                    None => unknown_token_id,
                },
            ),
            Err(e) => token_ids.len() == 0 && e == GenerationError::EmptyBatch,
        },
{
    if token_ids.len() == 0 {
        return Err(GenerationError::EmptyBatch);
    }
    let mut cut: Vec<Vec<i64>> = Vec::new();
    let mut i: usize = 0;
    while i < token_ids.len()
        invariant
            i <= token_ids.len(),
            cut.len() == i,
            forall|k: int|
                0 <= k < i ==> (#[trigger] cut[k])@ == truncated(token_ids[k]@, max_len as nat),
        decreases token_ids.len() - i,
    {
        cut.push(truncate_prompt(&token_ids[i], max_len));
        i += 1;
    }
    assert(rows(cut@) =~= truncated_prompts(rows(token_ids@), max_len as nat));
    let width: usize = longest_row(&cut);
    let pad_token: i64 = match pad_token_id {
        Some(value) => value,
        None => unknown_token_id,
    };
    let mut batch: Vec<Vec<i64>> = Vec::new();
    let mut i: usize = 0;
    while i < cut.len()
        invariant
            i <= cut.len(),
            batch.len() == i,
            width == longest(rows(cut@)),
            forall|k: int|
                0 <= k < i ==> (#[trigger] batch[k])@ == left_padded(cut[k]@, width as nat, pad_token),
        decreases cut.len() - i,
    {
        proof {
            lemma_longest_bounds(rows(cut@), i as int);
        }
        let tokens = &cut[i];
        let fill: usize = width - tokens.len();
        let mut row: Vec<i64> = Vec::new();
        let mut j: usize = 0;
        while j < fill
            invariant
                j <= fill,
                row.len() == j,
                forall|k: int| 0 <= k < j ==> row[k] == pad_token,
            decreases fill - j,
        {
            row.push(pad_token);
            j += 1;
        }
        let mut j: usize = 0;
        while j < tokens.len()
            invariant
                j <= tokens.len(),
                row.len() == fill + j,
                fill + tokens.len() == width,
                forall|k: int| 0 <= k < fill ==> row[k] == pad_token,
                forall|k: int| 0 <= k < j ==> row[fill + k] == tokens[k],
            decreases tokens.len() - j,
        {
            row.push(tokens[j]);
            j += 1;
        }
        assert(row@ =~= left_padded(tokens@, width as nat, pad_token));
        batch.push(row);
        i += 1;
    }
    assert(rows(batch@) =~= encoded(rows(token_ids@), max_len as nat, pad_token));
    Ok(batch)
}

/// The attention mask of a batch.
pub fn attention_mask_of(input_ids: &Vec<Vec<i64>>, pad_token_id: Option<i64>) -> (r: Vec<Vec<i64>>)
    ensures
        r.len() == input_ids.len(),
        rows(r@) == mask_of(rows(input_ids@), pad_token_id),
{
    let mut mask: Vec<Vec<i64>> = Vec::new();
    let mut i: usize = 0;
    while i < input_ids.len()
        invariant
            i <= input_ids.len(),
            mask.len() == i,
            forall|k: int|
                0 <= k < i ==> (#[trigger] mask[k])@ == mask_of(rows(input_ids@), pad_token_id)[k],
        decreases input_ids.len() - i,
    {
        let tokens = &input_ids[i];
        let mut row: Vec<i64> = Vec::new();
        let mut j: usize = 0;
        while j < tokens.len()
            invariant
                j <= tokens.len(),
                row.len() == j,
                forall|k: int|
                    0 <= k < j ==> #[trigger] row[k] == if pad_token_id == Some(tokens[k]) {
                        0i64
                    } else {
                        1i64
                    },
            decreases tokens.len() - j,
        {
            let counts: bool = match pad_token_id {
                Some(p) => tokens[j] != p,
                None => true,
            };
            if counts {
                row.push(1);
            } else {
                row.push(0);
            }
            j += 1;
        }
        assert(row@ =~= mask_of(rows(input_ids@), pad_token_id)[i as int]);
        mask.push(row);
        i += 1;
    }
    assert(rows(mask@) =~= mask_of(rows(input_ids@), pad_token_id));
    mask
}

} // verus!
