//! Language generators: a valid configuration, the special
//! tokens of a model family, and what the family does to the batch before
//! the model sees it.

use crate::config::GenerateConfig;
use crate::error::GenerationError;
use crate::generation::{
    effective_pad, first_batch, first_mask, optional_rows, rows_per_prompt, sequences_per_prompt,
    start_error, start_generation, Decoder,
};
use crate::matrix::{copy_rows, expanded, rows, token_list};
use vstd::prelude::*;

verus! {

/// The last token of each row, as a batch of one column. A row without
/// tokens stays without.
pub open spec fn last_column(input_ids: Seq<Seq<i64>>) -> Seq<Seq<i64>> {
    Seq::new(
        input_ids.len(),
        |i: int|
            if input_ids[i].len() > 0 {
                seq![input_ids[i].last()]
            } else {
                Seq::empty()
            },
    )
}

/// The last token of each row.
pub fn select_last_column(input_ids: &Vec<Vec<i64>>) -> (r: Vec<Vec<i64>>)
    ensures
        r.len() == input_ids.len(),
        rows(r@) == last_column(rows(input_ids@)),
{
    let mut out: Vec<Vec<i64>> = Vec::new();
    let mut i: usize = 0;
    while i < input_ids.len()
        invariant
            i <= input_ids.len(),
            out.len() == i,
            forall|k: int|
                0 <= k < i ==> (#[trigger] out[k])@ == last_column(rows(input_ids@))[k],
        decreases input_ids.len() - i,
    {
        let tokens = &input_ids[i];
        let mut row: Vec<i64> = Vec::new();
        if tokens.len() > 0 {
            row.push(tokens[tokens.len() - 1]);
            assert(row@ =~= seq![tokens@.last()]);
        }
        out.push(row);
        i += 1;
    }
    assert(rows(out@) =~= last_column(rows(input_ids@)));
    out
}

/// What every generator holds, and what it does to the batch before the
/// model sees it.
pub trait PrivateLanguageGenerator {
    /// The configuration, which is valid.
    spec fn config(&self) -> GenerateConfig;

    /// The beginning-of-sequence token, if the model has one.
    spec fn bos_id(&self) -> Option<i64>;

    /// The end-of-sequence tokens, if the model has any.
    spec fn eos_ids(&self) -> Option<Seq<i64>>;

    /// The padding token, if the model has one.
    spec fn pad_id(&self) -> Option<i64>;

    /// What the model sees of the batch once it keeps a cache of the steps
    /// before.
    spec fn cached_input(&self, input_ids: Seq<Seq<i64>>) -> Seq<Seq<i64>>;

    /// The generator is in order: its configuration is valid.
    spec fn wf(&self) -> bool;

    /// The configuration.
    fn get_config(&self) -> (r: &GenerateConfig)
        ensures
            *r == self.config(),
            self.wf() ==> r.is_valid(),
    ;

    /// The beginning-of-sequence token.
    fn get_bos_id(&self) -> (r: &Option<i64>)
        ensures
            *r == self.bos_id(),
    ;

    /// The end-of-sequence tokens.
    fn get_eos_ids(&self) -> (r: &Option<Vec<i64>>)
        ensures
            token_list(*r) == self.eos_ids(),
    ;

    /// The padding token.
    fn get_pad_id(&self) -> (r: &Option<i64>)
        ensures
            *r == self.pad_id(),
    ;

    /// What is handed to the model: the whole batch as long as the model
    /// keeps no cache; once it does, what the family needs.
    fn prepare_inputs_for_generation(&self, input_ids: &Vec<Vec<i64>>, has_past: bool) -> (r: Vec<
        Vec<i64>,
    >)
        ensures
            rows(r@) == if has_past {
                self.cached_input(rows(input_ids@))
            } else {
                rows(input_ids@)
            },
    ;
}

/// A generator that can start a run.
pub trait LanguageGenerator: PrivateLanguageGenerator {
    /// Starts a generation run on the token ids of the prompts, or on the
    /// beginning-of-sequence token where there is no prompt. A run needs one
    /// of the two.
    fn generate(
        &self,
        prompt_token_ids: Option<&Vec<Vec<i64>>>,
        attention_mask: Option<Vec<Vec<i64>>>,
        unknown_token_id: i64,
        vocab_size: usize,
    ) -> (r: Result<Decoder, GenerationError>)
        requires
            prompt_token_ids is Some || self.bos_id() is Some,
        ensures
            match r {
                Ok(decoder) => {
                    let prompts = match prompt_token_ids {
                        Some(p) => Some(rows(p@)),
                        None => None,
                    };
                    let pad = effective_pad(self.pad_id(), self.eos_ids());
                    let input_ids = first_batch(
                        self.config(),
                        prompts,
                        self.bos_id(),
                        pad,
                        unknown_token_id,
                    );
                    let mask = first_mask(optional_rows(attention_mask), input_ids, self.pad_id());
                    let batch_size = input_ids.len() * sequences_per_prompt(self.config());
                    &&& start_error(
                        self.config(),
                        prompts,
                        optional_rows(attention_mask),
                        self.bos_id(),
                        self.eos_ids(),
                        self.pad_id(),
                        unknown_token_id,
                        vocab_size as nat,
                    ) is None
                    &&& match decoder {
                        Decoder::BeamSearch(search) => self.config().num_beams > 1 && search@.wf()
                            && search@ == crate::beam_search::model::initial(
                            expanded(input_ids, rows_per_prompt(self.config())),
                            expanded(mask, rows_per_prompt(self.config())),
                            batch_size,
                            vocab_size as nat,
                            self.config(),
                            pad,
                            self.eos_ids(),
                        ),
                        Decoder::NoBeamSearch(search) => self.config().num_beams == 1
                            && search@.wf() && search@ == crate::no_beam_search::model::initial(
                            expanded(input_ids, rows_per_prompt(self.config())),
                            expanded(mask, rows_per_prompt(self.config())),
                            batch_size,
                            self.config(),
                            pad,
                            self.eos_ids(),
                        ),
                    }
                },
                Err(e) => start_error(
                    self.config(),
                    match prompt_token_ids {
                        Some(p) => Some(rows(p@)),
                        None => None,
                    },
                    optional_rows(attention_mask),
                    self.bos_id(),
                    self.eos_ids(),
                    self.pad_id(),
                    unknown_token_id,
                    vocab_size as nat,
                ) == Some(e),
            },
    {
        let eos_token_ids: Option<Vec<i64>> = match self.get_eos_ids() {
            Some(ids) => Some(crate::matrix::copy_row(ids)),
            None => None,
        };
        start_generation(
            self.get_config(),
            prompt_token_ids,
            attention_mask,
            *self.get_bos_id(),
            eos_token_ids,
            *self.get_pad_id(),
            unknown_token_id,
            vocab_size,
        )
    }
}

/// A language generator of the GPT family: without special tokens, and
/// always shown the whole batch.
pub struct OpenAIGenerator {
    generate_config: GenerateConfig,
    bos_token_id: Option<i64>,
    eos_token_ids: Option<Vec<i64>>,
    pad_token_id: Option<i64>,
}

impl OpenAIGenerator {
    /// A generator with this configuration, which is valid.
    pub fn new(generate_config: GenerateConfig) -> (r: OpenAIGenerator)
        requires
            generate_config.is_valid(),
        ensures
            r.config() == generate_config,
            r.bos_id() is None,
            r.eos_ids() is None,
            r.pad_id() is None,
            r.wf(),
    {
        generate_config.validate();
        OpenAIGenerator {
            generate_config,
            bos_token_id: None,
            eos_token_ids: None,
            pad_token_id: None,
        }
    }
}

impl PrivateLanguageGenerator for OpenAIGenerator {
    closed spec fn config(&self) -> GenerateConfig {
        self.generate_config
    }

    closed spec fn bos_id(&self) -> Option<i64> {
        self.bos_token_id
    }

    closed spec fn eos_ids(&self) -> Option<Seq<i64>> {
        token_list(self.eos_token_ids)
    }

    closed spec fn pad_id(&self) -> Option<i64> {
        self.pad_token_id
    }

    closed spec fn cached_input(&self, input_ids: Seq<Seq<i64>>) -> Seq<Seq<i64>> {
        input_ids
    }

    closed spec fn wf(&self) -> bool {
        self.generate_config.is_valid()
    }

    fn get_config(&self) -> (r: &GenerateConfig) {
        &self.generate_config
    }

    fn get_bos_id(&self) -> (r: &Option<i64>) {
        &self.bos_token_id
    }

    fn get_eos_ids(&self) -> (r: &Option<Vec<i64>>) {
        &self.eos_token_ids
    }

    fn get_pad_id(&self) -> (r: &Option<i64>) {
        &self.pad_token_id
    }

    fn prepare_inputs_for_generation(&self, input_ids: &Vec<Vec<i64>>, has_past: bool) -> (r: Vec<
        Vec<i64>,
    >)
        ensures
            rows(r@) == rows(input_ids@),
    {
        copy_rows(input_ids)
    }
}

impl LanguageGenerator for OpenAIGenerator {

}

/// A language generator of the GPT2 family: with a beginning-of-sequence and
/// an end-of-sequence token, and shown only the last token of each row once
/// the model keeps a cache.
pub struct GPT2Generator {
    generate_config: GenerateConfig,
    bos_token_id: Option<i64>,
    eos_token_ids: Option<Vec<i64>>,
    pad_token_id: Option<i64>,
}

impl GPT2Generator {
    /// A generator with this configuration, which is valid, and with the
    /// special tokens that the vocabulary gives.
    pub fn new(generate_config: GenerateConfig, bos_token_id: i64, eos_token_id: i64) -> (r:
        GPT2Generator)
        requires
            generate_config.is_valid(),
        ensures
            r.config() == generate_config,
            r.bos_id() == Some(bos_token_id),
            r.eos_ids() == Some(seq![eos_token_id]),
            r.pad_id() is None,
            r.wf(),
    {
        generate_config.validate();
        let mut eos: Vec<i64> = Vec::new();
        eos.push(eos_token_id);
        assert(eos@ =~= seq![eos_token_id]);
        GPT2Generator {
            generate_config,
            bos_token_id: Some(bos_token_id),
            eos_token_ids: Some(eos),
            pad_token_id: None,
        }
    }
}

impl PrivateLanguageGenerator for GPT2Generator {
    closed spec fn config(&self) -> GenerateConfig {
        self.generate_config
    }

    closed spec fn bos_id(&self) -> Option<i64> {
        self.bos_token_id
    }

    closed spec fn eos_ids(&self) -> Option<Seq<i64>> {
        token_list(self.eos_token_ids)
    }

    closed spec fn pad_id(&self) -> Option<i64> {
        self.pad_token_id
    }

    closed spec fn cached_input(&self, input_ids: Seq<Seq<i64>>) -> Seq<Seq<i64>> {
        last_column(input_ids)
    }

    closed spec fn wf(&self) -> bool {
        self.generate_config.is_valid()
    }

    fn get_config(&self) -> (r: &GenerateConfig) {
        &self.generate_config
    }

    fn get_bos_id(&self) -> (r: &Option<i64>) {
        &self.bos_token_id
    }

    fn get_eos_ids(&self) -> (r: &Option<Vec<i64>>) {
        &self.eos_token_ids
    }

    fn get_pad_id(&self) -> (r: &Option<i64>) {
        &self.pad_token_id
    }

    fn prepare_inputs_for_generation(&self, input_ids: &Vec<Vec<i64>>, has_past: bool) -> (r: Vec<
        Vec<i64>,
    >)
        ensures
            rows(r@) == if has_past {
                last_column(rows(input_ids@))
            } else {
                rows(input_ids@)
            },
    {
        if has_past {
            select_last_column(input_ids)
        } else {
            copy_rows(input_ids)
        }
    }
}

impl LanguageGenerator for GPT2Generator {

}

} // verus!
