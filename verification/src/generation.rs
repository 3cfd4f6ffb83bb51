//! The start of a generation run: from a configuration, the special tokens
//! and the prompts to the decoder that will do the decoding.

use crate::beam_search::BeamSearch;
use crate::config::GenerateConfig;
use crate::error::GenerationError;
use crate::matrix::{check_width, expand_rows, expanded, has_width, rows, token_list};
use crate::no_beam_search::NoBeamSearch;
use crate::prompt::{attention_mask_of, encode_prompt_text, encoded, mask_of};
use vstd::prelude::*;

verus! {

/// The decoder of a run: a beam search where there is more than one beam.
pub enum Decoder {
    /// Several hypotheses for each item.
    BeamSearch(BeamSearch),
    /// One hypothesis for each row.
    NoBeamSearch(NoBeamSearch),
}

/// The padding token of a run: the one configured; else the first
/// end-of-sequence token; else none.
pub open spec fn effective_pad(pad_token_id: Option<i64>, eos_token_ids: Option<Seq<i64>>) -> Option<
    i64,
> {
    match pad_token_id {
        Some(p) => Some(p),
        None => match eos_token_ids {
            Some(ids) => if ids.len() > 0 {
                Some(ids[0])
            } else {
                None
            },
            None => None,
        },
    }
}

/// The number of independent sequences that each prompt is decoded into: the
/// number of sequences to return with sampling, one without.
pub open spec fn sequences_per_prompt(config: GenerateConfig) -> nat {
    if config.do_sample {
        config.num_return_sequences as nat
    } else {
        1
    }
}

/// The number of rows that each prompt gets: one for each beam of each of
/// its sequences.
pub open spec fn rows_per_prompt(config: GenerateConfig) -> nat {
    if config.num_return_sequences > 1 || config.num_beams > 1 {
        sequences_per_prompt(config) * (config.num_beams as nat)
    } else {
        1
    }
}

/// The batch before it is expanded: the encoded prompts, or a single
/// beginning-of-sequence token where there is no prompt.
pub open spec fn first_batch(
    config: GenerateConfig,
    prompts: Option<Seq<Seq<i64>>>,
    bos_token_id: Option<i64>,
    pad_token_id: Option<i64>,
    unknown_token_id: i64,
) -> Seq<Seq<i64>> {
    match prompts {
        Some(p) => encoded(
            p,
            config.max_length as nat,
            match pad_token_id {
                Some(pad) => pad,
                None => unknown_token_id,
            },
        ),
        None => seq![seq![
            match bos_token_id {
                Some(bos) => bos,
                None => 0,
            },
        ]],
    }
}

/// The attention mask before it is expanded: the one given, or one that
/// hides the configured padding token.
pub open spec fn first_mask(
    given: Option<Seq<Seq<i64>>>,
    input_ids: Seq<Seq<i64>>,
    pad_token_id: Option<i64>,
) -> Seq<Seq<i64>> {
    match given {
        Some(mask) => mask,
        None => mask_of(input_ids, pad_token_id),
    }
}

/// The rows of an optional batch.
pub open spec fn optional_rows(m: Option<Vec<Vec<i64>>>) -> Option<Seq<Seq<i64>>> {
    match m {
        Some(v) => Some(rows(v@)),
        None => None,
    }
}

/// Why no run can start on prompts or on a beginning-of-sequence token; `None`
/// where one can.
pub open spec fn start_error(
    config: GenerateConfig,
    prompts: Option<Seq<Seq<i64>>>,
    attention_mask: Option<Seq<Seq<i64>>>,
    bos_token_id: Option<i64>,
    eos_token_ids: Option<Seq<i64>>,
    pad_token_id: Option<i64>,
    unknown_token_id: i64,
    vocab_size: nat,
) -> Option<GenerationError> {
    let pad = effective_pad(pad_token_id, eos_token_ids);
    let input_ids = first_batch(config, prompts, bos_token_id, pad, unknown_token_id);
    let mask = first_mask(attention_mask, input_ids, pad_token_id);
    let batch_size = input_ids.len() * sequences_per_prompt(config);
    if prompts matches Some(p) && p.len() == 0 {
        Some(GenerationError::EmptyBatch)
    } else if config.num_beams == 0 {
        Some(GenerationError::NoBeams)
    } else if mask.len() != input_ids.len() || !has_width(mask, input_ids[0].len()) {
        Some(GenerationError::ShapeMismatch)
    } else if batch_size > usize::MAX || rows_per_prompt(config) > usize::MAX {
        Some(GenerationError::TooLarge)
    } else if config.num_beams > 1 {
        crate::beam_search::model::new_error(
            expanded(input_ids, rows_per_prompt(config)),
            expanded(mask, rows_per_prompt(config)),
            batch_size,
            vocab_size,
            config,
        )
    } else {
        crate::no_beam_search::model::new_error(
            expanded(input_ids, rows_per_prompt(config)),
            expanded(mask, rows_per_prompt(config)),
            batch_size,
        )
    }
}

/// The padding token of a run: the one configured, or else the first
/// end-of-sequence token.
pub fn resolve_pad_token(pad_token_id: Option<i64>, eos_token_ids: &Option<Vec<i64>>) -> (r: Option<
    i64,
>)
    ensures
        r == effective_pad(pad_token_id, token_list(*eos_token_ids)),
{
    match pad_token_id {
        Some(value) => Some(value),
        None => match eos_token_ids {
            Some(eos_ids) => {
                if eos_ids.len() > 0 {
                    Some(eos_ids[0])
                } else {
                    None
                }
            },
            None => None,
        },
    }
}

/// Starts a generation run: builds the batch from the token ids of the
/// prompts, or from the beginning-of-sequence token where there is none,
/// gives each prompt a row for each beam of each sequence asked for, and sets
/// up the decoder: a beam search where there is more than one beam. A run
/// needs prompts or a beginning-of-sequence token.
pub fn start_generation(
    config: &GenerateConfig,
    prompt_token_ids: Option<&Vec<Vec<i64>>>,
    attention_mask: Option<Vec<Vec<i64>>>,
    bos_token_id: Option<i64>,
    eos_token_ids: Option<Vec<i64>>,
    pad_token_id: Option<i64>,
    unknown_token_id: i64,
    vocab_size: usize,
) -> (r: Result<Decoder, GenerationError>)
    requires
        prompt_token_ids is Some || bos_token_id is Some,
    ensures
        match r {
            Ok(decoder) => {
                let prompts = match prompt_token_ids {
                    Some(p) => Some(rows(p@)),
                    None => None,
                };
                let pad = effective_pad(pad_token_id, token_list(eos_token_ids));
                let input_ids = first_batch(*config, prompts, bos_token_id, pad, unknown_token_id);
                let mask = first_mask(optional_rows(attention_mask), input_ids, pad_token_id);
                let batch_size = input_ids.len() * sequences_per_prompt(*config);
                &&& start_error(
                    *config,
                    prompts,
                    optional_rows(attention_mask),
                    bos_token_id,
                    token_list(eos_token_ids),
                    pad_token_id,
                    unknown_token_id,
                    vocab_size as nat,
                ) is None
                &&& match decoder {
                    Decoder::BeamSearch(search) => config.num_beams > 1 && search@.wf() && search@
                        == crate::beam_search::model::initial(
                        expanded(input_ids, rows_per_prompt(*config)),
                        expanded(mask, rows_per_prompt(*config)),
                        batch_size,
                        vocab_size as nat,
                        *config,
                        pad,
                        token_list(eos_token_ids),
                    ),
                    Decoder::NoBeamSearch(search) => config.num_beams == 1 && search@.wf()
                        && search@ == crate::no_beam_search::model::initial(
                        expanded(input_ids, rows_per_prompt(*config)),
                        expanded(mask, rows_per_prompt(*config)),
                        batch_size,
                        *config,
                        pad,
                        token_list(eos_token_ids),
                    ),
                }
            },
            Err(e) => start_error(
                *config,
                match prompt_token_ids {
                    Some(p) => Some(rows(p@)),
                    None => None,
                },
                optional_rows(attention_mask),
                bos_token_id,
                token_list(eos_token_ids),
                pad_token_id,
                unknown_token_id,
                vocab_size as nat,
            ) == Some(e),
        },
{
    let pad = resolve_pad_token(pad_token_id, &eos_token_ids);
    let input_ids: Vec<Vec<i64>> = match prompt_token_ids {
        Some(token_ids) => match encode_prompt_text(
            token_ids,
            config.max_length,
            pad,
            unknown_token_id,
        ) {
            Ok(batch) => batch,
            Err(e) => {
                return Err(e);
            },
        },
        None => {
            let bos: i64 = match bos_token_id {
                Some(bos) => bos,
                None => 0,
            };
            let mut row: Vec<i64> = Vec::new();
            row.push(bos);
            let mut batch: Vec<Vec<i64>> = Vec::new();
            batch.push(row);
            assert(rows(batch@) =~= seq![seq![bos]]);
            batch
        },
    };
    if config.num_beams == 0 {
        return Err(GenerationError::NoBeams);
    }
    let current_length: usize = input_ids[0].len();
    assert(rows(input_ids@)[0].len() == current_length);
    let mask: Vec<Vec<i64>> = match attention_mask {
        Some(value) => value,
        None => attention_mask_of(&input_ids, pad_token_id),
    };
    if mask.len() != input_ids.len() || !check_width(&mask, current_length) {
        return Err(GenerationError::ShapeMismatch);
    }
    let per_prompt: u64 = if config.do_sample {
        config.num_return_sequences
    } else {
        1
    };
    assert((input_ids.len() as int) * (per_prompt as int) <= 0xFFFF_FFFF_FFFF_FFFF
        * 0xFFFF_FFFF_FFFF_FFFF) by (nonlinear_arith)
        requires
            0 <= input_ids.len() <= 0xFFFF_FFFF_FFFF_FFFF,
            0 <= per_prompt <= 0xFFFF_FFFF_FFFF_FFFF,
    ;
    assert((per_prompt as int) * (config.num_beams as int) <= 0xFFFF_FFFF_FFFF_FFFF
        * 0xFFFF_FFFF_FFFF_FFFF) by (nonlinear_arith)
        requires
            0 <= per_prompt <= 0xFFFF_FFFF_FFFF_FFFF,
            0 <= config.num_beams <= 0xFFFF_FFFF_FFFF_FFFF,
    ;
    let batch_size: u128 = (input_ids.len() as u128) * (per_prompt as u128);
    let times: u128 = if config.num_return_sequences > 1 || config.num_beams > 1 {
        (per_prompt as u128) * (config.num_beams as u128)
    } else {
        1
    };
    if batch_size > usize::MAX as u128 || times > usize::MAX as u128 {
        return Err(GenerationError::TooLarge);
    }
    let expanded_ids = expand_rows(&input_ids, times as usize);
    let expanded_mask = expand_rows(&mask, times as usize);
    if config.num_beams > 1 {
        match BeamSearch::new(
            expanded_ids,
            expanded_mask,
            batch_size as usize,
            vocab_size,
            config,
            pad,
            eos_token_ids,
        ) {
            Ok(search) => Ok(Decoder::BeamSearch(search)),
            Err(e) => Err(e),
        }
    } else {
        match NoBeamSearch::new(
            expanded_ids,
            expanded_mask,
            batch_size as usize,
            config,
            pad,
            eos_token_ids,
        ) {
            Ok(search) => Ok(Decoder::NoBeamSearch(search)),
            Err(e) => Err(e),
        }
    }
}

/// With a valid configuration a run returns, for each prompt, as many
/// sequences as the configuration asks for: a beam search holds an item for
/// each independent sequence of each prompt and returns `per_item` sequences
/// for each; a decoder without beams holds one row for each sequence.
pub proof fn lemma_output_count(
    config: GenerateConfig,
    num_prompts: nat,
    input_ids: Seq<Seq<i64>>,
    attention_mask: Seq<Seq<i64>>,
    vocab_size: nat,
    pad_token_id: Option<i64>,
    eos_token_ids: Option<Seq<i64>>,
)
    requires
        config.is_valid(),
    ensures
        config.num_beams > 1 ==> ({
            let search = crate::beam_search::model::initial(
                input_ids,
                attention_mask,
                num_prompts * sequences_per_prompt(config),
                vocab_size,
                config,
                pad_token_id,
                eos_token_ids,
            );
            search.batch_size * search.per_item() == num_prompts * config.num_return_sequences
        }),
        config.num_beams == 1 ==> crate::no_beam_search::model::initial(
            input_ids,
            attention_mask,
            num_prompts * sequences_per_prompt(config),
            config,
            pad_token_id,
            eos_token_ids,
        ).batch_size == num_prompts * config.num_return_sequences,
{
    if config.num_beams > 1 {
        if config.do_sample {
            assert(num_prompts * (config.num_return_sequences as nat) * 1 == num_prompts
                * config.num_return_sequences) by (nonlinear_arith);
        } else {
            assert(num_prompts * 1 * (config.num_return_sequences as nat) == num_prompts
                * config.num_return_sequences) by (nonlinear_arith);
        }
    } else {
        if !config.do_sample {
            assert(config.num_return_sequences == 1);
        }
    }
}

} // verus!