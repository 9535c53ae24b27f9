//! Speech synthesis with the exported models: what a loaded runtime holds, and
//! how a request starts and ends.

use vstd::prelude::*;

use crate::cache::{self, fast_sides, filled, sides_fit, slow_sides, HalfArray};
use crate::generate::{due, initial, planned, run, Event, Generation, GenerationError, SpecAction};
use crate::generate::{law_generation_stays_consistent, law_positions_follow_the_prompt, Stage};
use crate::grid::{row_views, BatchTensor, CodeGrid};
use crate::manifest::RuntimeManifest;
use crate::prompt::{fault_of, prompt_table, semantic_ids_fit, PromptBuilder, PromptError};
use crate::sampling::{self, allowed_of, semantic_choice};
use crate::session::{self, fast_path_of, session_planned, slow_path_of};
use crate::session::{ExecutionProviderChoice, FastPath, LoadOptions, Model, SessionPlan, SlowPath};
use crate::tokenizer::is_loaded;

verus! {

/// What the runtime knows besides the models themselves.
pub struct ArkTtsRuntime {
    manifest: RuntimeManifest,
    prompt_builder: PromptBuilder,
    bound: bool,
    sessions: SessionPlan,
}

/// Why a request cannot be worked on.
#[derive(Debug)]
pub enum SynthesisError {
    Prompt(PromptError),
    Generation(GenerationError),
}

impl ArkTtsRuntime {
    pub closed spec fn manifest(self) -> RuntimeManifest {
        self.manifest
    }

    pub closed spec fn builder(self) -> PromptBuilder {
        self.prompt_builder
    }

    /// Whether the models are bound to tensors that stay where they are.
    pub closed spec fn bound(self) -> bool {
        self.bound
    }

    /// How the session of a model is set up.
    pub closed spec fn sessions(self, model: Model) -> SessionPlan {
        self.sessions
    }

    /// Prompts are built with the sizes of the manifest.
    #[verifier::type_invariant]
    closed spec fn wf(self) -> bool {
        &&& self.prompt_builder.begin_id() == self.manifest.semantic_begin_id
        &&& self.prompt_builder.codebooks() == self.manifest.num_codebooks
    }

    /// A runtime for the CPU.
    pub fn load(manifest: RuntimeManifest, tokenizer_json: &str) -> (r: Result<
        ArkTtsRuntime,
        PromptError,
    >)
        ensures
            is_loaded_runtime(r, manifest, tokenizer_json@, cpu_options()),
    {
        let options = LoadOptions {
            ep: ExecutionProviderChoice::Cpu,
            verbose: false,
            cuda_graph: false,
            cuda_only: false,
        };
        Self::load_with_ep(manifest, tokenizer_json, options)
    }

    /// A runtime for the given provider. The models are bound on CUDA only, and
    /// all of them are set up alike.
    pub fn load_with_ep(
        manifest: RuntimeManifest,
        tokenizer_json: &str,
        options: LoadOptions,
    ) -> (r: Result<ArkTtsRuntime, PromptError>)
        ensures
            is_loaded_runtime(r, manifest, tokenizer_json@, options),
    {
        let prompt_builder = match PromptBuilder::new(
            tokenizer_json,
            manifest.semantic_begin_id,
            manifest.num_codebooks,
        ) {
            Ok(builder) => builder,
            Err(e) => {
                return Err(e);
            },
        };
        let bound = match options.ep {
            ExecutionProviderChoice::Cpu => false,
            ExecutionProviderChoice::Cuda => true,
        };
        let sessions = session::session_plan(options);
        Ok(ArkTtsRuntime { manifest, prompt_builder, bound, sessions })
    }

    /// How the session of a model is set up.
    pub fn session(&self, model: Model) -> (r: SessionPlan)
        ensures
            r == self.sessions(model),
    {
        self.sessions
    }

    pub fn sizes(&self) -> (r: &RuntimeManifest)
        ensures
            *r == self.manifest(),
    {
        &self.manifest
    }

    /// Whether the tokenizer draws random numbers.
    pub fn is_random(&self) -> (r: bool)
        ensures
            r == self.builder().draws(),
    {
        self.prompt_builder.is_random()
    }

    /// The caches of the slow model at the start of a request.
    pub fn empty_slow_caches(&self) -> (r: Vec<HalfArray>)
        requires
            sides_fit(slow_sides(&self.manifest())),
            2 * self.manifest().num_layers <= usize::MAX,
        ensures
            r@.len() == 2 * self.manifest().num_layers,
            forall|i: int|
                0 <= i < r@.len() ==> (#[trigger] r@[i]).sides() == slow_sides(&self.manifest())
                    && r@[i].cells() == filled(slow_sides(&self.manifest()), 0),
    {
        cache::empty_slow_caches(&self.manifest)
    }

    /// The caches of the fast model at the start of a frame.
    pub fn empty_fast_caches(&self) -> (r: Vec<HalfArray>)
        requires
            sides_fit(fast_sides(&self.manifest())),
            2 * self.manifest().num_fast_layers <= usize::MAX,
        ensures
            r@.len() == 2 * self.manifest().num_fast_layers,
            forall|i: int|
                0 <= i < r@.len() ==> (#[trigger] r@[i]).sides() == fast_sides(&self.manifest())
                    && r@[i].cells() == filled(fast_sides(&self.manifest()), 0),
    {
        cache::empty_fast_caches(&self.manifest)
    }

    /// How a step of the slow model on that many columns is run.
    pub fn slow_step(&self, columns: usize) -> (r: SlowPath)
        ensures
            r == slow_path_of(columns as nat, self.bound()),
    {
        session::slow_path(columns, self.bound)
    }

    /// How a step of the fast model is run.
    pub fn fast_step(&self, use_hidden: bool) -> (r: FastPath)
        ensures
            r == fast_path_of(use_hidden, self.bound()),
    {
        session::fast_path(use_hidden, self.bound)
    }

    /// The semantic token, where the two draws gave places in the list of
    /// allowed tokens.
    pub fn sample_semantic(&self, normal_idx: usize, high_idx: usize, previous: &Vec<i64>) -> (r:
        i64)
        requires
            normal_idx < allowed_of(&self.manifest()).len(),
            high_idx < allowed_of(&self.manifest()).len(),
        ensures
            r == semantic_choice(
                allowed_of(&self.manifest())[normal_idx as int],
                allowed_of(&self.manifest())[high_idx as int],
                self.manifest().semantic_begin_id,
                self.manifest().semantic_end_id,
                previous@,
            ),
    {
        sampling::sample_semantic(&self.manifest, normal_idx, high_idx, previous)
    }

    /// The start of a request: its prompt, and the generation behind it. What
    /// the generation makes of the tokens that are drawn is the codes of the
    /// speech.
    pub fn synthesize_no_reference(
        &self,
        text: &str,
        reference_text: &str,
        reference_codes: &CodeGrid,
        max_new_tokens: usize,
    ) -> (r: Result<(BatchTensor, Generation), SynthesisError>)
        requires
            self.builder().fits(reference_codes) ==> semantic_ids_fit(
                reference_codes.rows(),
                self.builder().begin_id(),
            ),
        ensures
            match r {
                Err(SynthesisError::Prompt(PromptError::CodeShape { codebooks, rows, cols })) => {
                    &&& !self.builder().fits(reference_codes)
                    &&& codebooks == self.builder().codebooks()
                    &&& rows == reference_codes.rows().len()
                    &&& cols == reference_codes.width()
                },
                Err(SynthesisError::Prompt(e)) => {
                    &&& fault_of(e) is Some
                    &&& self.builder().fits(reference_codes)
                    &&& self.builder().may_prompt(
                        text@,
                        reference_text@,
                        Err(fault_of(e).unwrap()),
                    )
                    &&& !self.builder().draws() ==> self.builder().prompt_ids(
                        text@,
                        reference_text@,
                    ) == Err::<(Seq<i64>, Seq<i64>), _>(fault_of(e).unwrap())
                },
                Err(SynthesisError::Generation(e)) => {
                    &&& self.builder().fits(reference_codes)
                    &&& e matches GenerationError::PromptTooLong { prompt_len, max_seq_len }
                    &&& max_seq_len == self.manifest().max_seq_len
                    &&& prompt_len >= max_seq_len
                    &&& exists|front: Seq<i64>, back: Seq<i64>|
                        #[trigger] self.builder().may_prompt(
                            text@,
                            reference_text@,
                            Ok((front, back)),
                        ) && prompt_len == front.len() + reference_codes.width() + back.len()
                    &&& !self.builder().draws() ==> prompt_len == self.prompt_len(
                        text@,
                        reference_text@,
                        reference_codes,
                    )
                },
                Ok((prompt, generation)) => {
                    &&& self.builder().fits(reference_codes)
                    &&& prompt.width() < self.manifest().max_seq_len
                    &&& generation.valid()
                    &&& generation@ == initial()
                    &&& generation.plan() == planned(
                        &self.manifest(),
                        prompt.width() as usize,
                        max_new_tokens,
                    )
                    &&& exists|front: Seq<i64>, back: Seq<i64>|
                        self.builder().may_prompt(text@, reference_text@, Ok((front, back)))
                            && prompt.rows() == #[trigger] prompt_table(
                            front,
                            back,
                            reference_codes.rows(),
                            self.builder().begin_id(),
                        ) && prompt.width() == front.len() + reference_codes.width() + back.len()
                    &&& !self.builder().draws() ==> (self.builder().prompt_ids(
                        text@,
                        reference_text@,
                    ) matches Ok((prefix, suffix)) && prompt.rows() == prompt_table(
                        prefix,
                        suffix,
                        reference_codes.rows(),
                        self.builder().begin_id(),
                    ) && prompt.width() == self.prompt_len(text@, reference_text@, reference_codes))
                },
            },
    {
        proof {
            use_type_invariant(self);
        }
        let prompt = match self.prompt_builder.build(text, reference_text, reference_codes) {
            Ok(prompt) => prompt,
            Err(e) => {
                return Err(SynthesisError::Prompt(e));
            },
        };
        let prompt_len: usize = prompt.dim().2;
        match Generation::start(&self.manifest, prompt_len, max_new_tokens) {
            Ok(generation) => Ok((prompt, generation)),
            Err(e) => Err(SynthesisError::Generation(e)),
        }
    }

    /// The length of the prompt where all its texts can be encoded.
    pub open spec fn prompt_len(
        self,
        text: Seq<char>,
        reference_text: Seq<char>,
        reference_codes: &CodeGrid,
    ) -> nat {
        let ids = self.builder().prompt_ids(text, reference_text)->Ok_0;
        ids.0.len() + reference_codes.width() + ids.1.len()
    }

    /// The input of the decoder: one batch of the codes.
    pub fn decode_codes(&self, codes: &CodeGrid) -> (r: BatchTensor)
        ensures
            r.rows() == codes.rows(),
            r.width() == codes.width(),
    {
        let (rows, cols) = codes.dim();
        let mut table: Vec<Vec<i64>> = Vec::new();
        for i in 0..rows
            invariant
                rows == codes.rows().len(),
                table@.len() == i,
                forall|r: int|
                    #![trigger table@[r]]
                    0 <= r < i ==> table@[r]@ == codes.rows()[r],
        {
            table.push(codes.row(i));
        }
        assert(row_views(table@) =~= codes.rows());
        BatchTensor::from_rows(&table, cols)
    }
}

/// The CPU, with nothing asked for besides.
pub open spec fn cpu_options() -> LoadOptions {
    LoadOptions {
        ep: ExecutionProviderChoice::Cpu,
        verbose: false,
        cuda_graph: false,
        cuda_only: false,
    }
}

/// `r` is what loading gives for a manifest, a tokenizer description and what is
/// asked of the load.
pub open spec fn is_loaded_runtime(
    r: Result<ArkTtsRuntime, PromptError>,
    manifest: RuntimeManifest,
    tokenizer_json: Seq<char>,
    options: LoadOptions,
) -> bool {
    match r {
        Ok(runtime) => {
            &&& is_loaded(Ok(runtime.builder().tokenizer()), tokenizer_json)
            &&& runtime.manifest() == manifest
            &&& runtime.bound() == (options.ep == ExecutionProviderChoice::Cuda)
            &&& runtime.builder().begin_id() == manifest.semantic_begin_id
            &&& runtime.builder().codebooks() == manifest.num_codebooks
            &&& forall|model: Model| #[trigger]
                runtime.sessions(model) == session_planned(options)
        },
        Err(PromptError::Tokenizer(e)) => is_loaded(Err(e), tokenizer_json),
        Err(_) => false,
    }
}

/// Whatever is drawn, a request stays within the caches: every step of the slow
/// model, and every step of the fast model, has a position that its caches have.
pub proof fn law_requests_stay_within_caches(
    manifest: &RuntimeManifest,
    prompt_len: usize,
    max_new_tokens: usize,
    events: Seq<Event>,
)
    requires
        1 <= manifest.num_codebooks,
        prompt_len < manifest.max_seq_len,
    ensures
        ({
            let plan = planned(manifest, prompt_len, max_new_tokens);
            let p = run(plan, events);
            match due(plan, p) {
                SpecAction::RunPrompt { len } => len <= slow_sides(manifest).2,
                SpecAction::RunSlow { column, position } => {
                    &&& prompt_len <= position < slow_sides(manifest).2
                    &&& column.len() == manifest.num_codebooks + 1
                },
                SpecAction::DrawCode { position, .. } => 1 <= position < fast_sides(manifest).2,
                _ => true,
            }
        }),
{
    let plan = planned(manifest, prompt_len, max_new_tokens);
    assert(plan.wf());
    law_generation_stays_consistent(plan, events);
    law_positions_follow_the_prompt(plan, events);
    let p = run(plan, events);
    if p.stage == Stage::Slow {
        assert(p.frames.last().len() == plan.num_codebooks);
    }
}

/// A runtime keeps what it is loaded with: its manifest, the ids and sizes of its
/// prompts, a session for each model as the options ask for it, and bound tensors
/// on CUDA only.
pub proof fn law_runtime_keeps_what_it_is_loaded_with(
    manifest: RuntimeManifest,
    json: &str,
    options: LoadOptions,
    r: Result<ArkTtsRuntime, PromptError>,
    model: Model,
    plan: SessionPlan,
)
    requires
        call_ensures(ArkTtsRuntime::load_with_ep, (manifest, json, options), r),
        call_ensures(session::session_plan, (options,), plan),
    ensures
        r matches Ok(runtime) ==> {
            &&& runtime.manifest() == manifest
            &&& runtime.builder().begin_id() == manifest.semantic_begin_id
            &&& runtime.builder().codebooks() == manifest.num_codebooks
            &&& runtime.sessions(model) == plan
            &&& runtime.bound() <==> options.ep == ExecutionProviderChoice::Cuda
        },
{
}

/// Without a word on the provider a runtime is one for the CPU.
pub proof fn law_runtimes_are_for_the_cpu(
    manifest: RuntimeManifest,
    json: &str,
    r: Result<ArkTtsRuntime, PromptError>,
    model: Model,
)
    requires
        call_ensures(ArkTtsRuntime::load, (manifest, json), r),
    ensures
        r matches Ok(runtime) ==> {
            &&& runtime.manifest() == manifest
            &&& !runtime.bound()
            &&& runtime.sessions(model).cuda is None
            &&& runtime.sessions(model).intra_threads is None
        },
{
}

/// A runtime draws, runs its steps and starts its caches by its own manifest and
/// tensors.
pub proof fn law_runtime_goes_by_its_manifest(
    runtime: &ArkTtsRuntime,
    normal: usize,
    high: usize,
    previous: &Vec<i64>,
    a: i64,
    b: i64,
    columns: usize,
    slow: SlowPath,
    flag: bool,
    fast: FastPath,
)
    requires
        call_ensures(ArkTtsRuntime::sample_semantic, (runtime, normal, high, previous), a),
        call_ensures(sampling::sample_semantic, (&runtime.manifest(), normal, high, previous), b),
        call_ensures(ArkTtsRuntime::slow_step, (runtime, columns), slow),
        call_ensures(ArkTtsRuntime::fast_step, (runtime, flag), fast),
    ensures
        a == b,
        slow is Bound <==> runtime.bound() && columns == 1,
        fast is Bound <==> runtime.bound(),
        fast matches FastPath::Bound { clear } ==> clear == flag,
{
}

/// The codes that the decoder is given are the codes that are asked for, place by
/// place.
pub proof fn law_decoder_is_given_the_codes(
    runtime: &ArkTtsRuntime,
    codes: &CodeGrid,
    r: BatchTensor,
    i: int,
    j: int,
)
    requires
        call_ensures(ArkTtsRuntime::decode_codes, (runtime, codes), r),
        0 <= i < codes.rows().len(),
        0 <= j < codes.rows()[i].len(),
    ensures
        r.rows().len() == codes.rows().len(),
        r.width() == codes.width(),
        r.rows()[i][j] == codes.rows()[i][j],
{
}

/// A request that is taken starts with the prompt of its texts and codes, and with
/// nothing generated; as many frames are planned as are asked for and fit.
pub proof fn law_requests_start_with_their_prompt(
    runtime: &ArkTtsRuntime,
    text: &str,
    reference: &str,
    codes: &CodeGrid,
    wish: usize,
    r: Result<(BatchTensor, Generation), SynthesisError>,
    before: Seq<i64>,
    behind: Seq<i64>,
)
    requires
        call_ensures(
            ArkTtsRuntime::synthesize_no_reference,
            (runtime, text, reference, codes, wish),
            r,
        ),
        !runtime.builder().draws(),
        runtime.builder().prompt_ids(text@, reference@) == Ok::<
            (Seq<i64>, Seq<i64>),
            crate::tokenizer::EncodeFault,
        >((before, behind)),
        runtime.builder().fits(codes),
    ensures
        ({
            let n = before.len() + codes.width() + behind.len();
            &&& r is Ok <==> n < runtime.manifest().max_seq_len
            &&& r matches Ok((prompt, g)) ==> {
                &&& prompt.width() == n
                &&& prompt.rows() == prompt_table(
                    before,
                    behind,
                    codes.rows(),
                    runtime.builder().begin_id(),
                )
                &&& g@.frames.len() == 0
                &&& g@.stage == Stage::Prompt
                &&& g.plan().prompt_len == n
                &&& g.plan().max_new <= wish
                &&& n + g.plan().max_new <= runtime.manifest().max_seq_len
                &&& g.plan().max_new < wish ==> n + g.plan().max_new
                    == runtime.manifest().max_seq_len
                &&& g.plan().stop_id == runtime.manifest().im_end_id
                &&& g.plan().semantic_begin_id == runtime.manifest().semantic_begin_id
                &&& g.plan().num_codebooks == runtime.manifest().num_codebooks
                &&& g.plan().codebook_size == runtime.manifest().codebook_size
            }
        }),
{
}

} // verus!
