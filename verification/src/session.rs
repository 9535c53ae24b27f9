//! How the exported models are opened and called: the order of loading, the
//! tensors that go into a step and come out of it, and which of the two ways of
//! running a step is taken.

use vstd::prelude::*;

use crate::cache::{filled, Place, Sides};
use crate::digits::{decimal, law_numbered_names_differ, numbered};
use crate::manifest::{RuntimeManifest, DIM};

verus! {

/// Where the models are run.
#[derive(Debug, Clone, Copy, PartialEq, Eq, Structural)]
pub enum ExecutionProviderChoice {
    Cpu,
    Cuda,
}

/// The three exported models.
#[derive(Debug, Clone, Copy, PartialEq, Eq, Structural)]
pub enum Model {
    Slow,
    Fast,
    Decoder,
}

/// What the caller and the environment ask of a load.
#[derive(Clone, Copy)]
pub struct LoadOptions {
    pub ep: ExecutionProviderChoice,
    /// Log what the inference engine says.
    pub verbose: bool,
    /// Let the engine record its work as a graph.
    pub cuda_graph: bool,
    /// Fail where an operation would have to run on the CPU.
    pub cuda_only: bool,
}

/// One step of loading.
#[derive(Debug, Clone, Copy, PartialEq, Eq, Structural)]
pub enum LoadStep {
    InitLogging,
    ReadManifest,
    Open(Model),
    LoadTokenizer,
    BuildFastGraph,
    BuildSlowGraph,
}

/// The kernels that may be used for attention.
#[derive(Debug, Clone, Copy, PartialEq, Eq, Structural)]
pub struct AttentionKernels {
    pub flash: bool,
    pub efficient: bool,
    pub cudnn_flash: bool,
}

/// How the algorithm of a convolution is found.
#[derive(Debug, Clone, Copy, PartialEq, Eq, Structural)]
pub enum ConvSearch {
    Exhaustive,
    Heuristic,
    Default,
}

/// How the memory of the provider grows.
#[derive(Debug, Clone, Copy, PartialEq, Eq, Structural)]
pub enum ArenaGrowth {
    NextPowerOfTwo,
    SameAsRequested,
}

/// How the CUDA provider is set up.
#[derive(Debug, Clone, Copy, PartialEq, Eq, Structural)]
pub struct CudaPlan {
    /// Record the work as a graph.
    pub graph: bool,
    /// Compute matrix products with the TF32 format.
    pub tf32: bool,
    pub attention: AttentionKernels,
    pub conv_search: ConvSearch,
    pub arena: ArenaGrowth,
}

/// How a model is opened.
#[derive(Debug, Clone, Copy, PartialEq, Eq, Structural)]
pub struct SessionPlan {
    /// The CUDA provider, where it is used.
    pub cuda: Option<CudaPlan>,
    pub disable_cpu_fallback: bool,
    /// The number of threads within an operation, where it is not left to the
    /// engine.
    pub intra_threads: Option<usize>,
}

/// The steps of loading, in their order.
pub open spec fn load_script(options: LoadOptions) -> Seq<LoadStep> {
    let first = if options.verbose {
        seq![LoadStep::InitLogging]
    } else {
        Seq::empty()
    };
    let graphs = if options.ep == ExecutionProviderChoice::Cuda {
        seq![LoadStep::BuildFastGraph, LoadStep::BuildSlowGraph]
    } else {
        Seq::empty()
    };
    first + seq![
        LoadStep::ReadManifest,
        LoadStep::Open(Model::Slow),
        LoadStep::Open(Model::Fast),
        LoadStep::Open(Model::Decoder),
        LoadStep::LoadTokenizer,
    ] + graphs
}

pub fn load_steps(options: LoadOptions) -> (r: Vec<LoadStep>)
    ensures
        r@ == load_script(options),
{
    let mut steps: Vec<LoadStep> = Vec::new();
    if options.verbose {
        steps.push(LoadStep::InitLogging);
    }
    steps.push(LoadStep::ReadManifest);
    steps.push(LoadStep::Open(Model::Slow));
    steps.push(LoadStep::Open(Model::Fast));
    steps.push(LoadStep::Open(Model::Decoder));
    steps.push(LoadStep::LoadTokenizer);
    match options.ep {
        ExecutionProviderChoice::Cpu => {},
        ExecutionProviderChoice::Cuda => {
            steps.push(LoadStep::BuildFastGraph);
            steps.push(LoadStep::BuildSlowGraph);
        },
    }
    assert(steps@ =~= load_script(options));
    steps
}

/// The same plan holds for all three models. On the CPU everything is left to
/// the engine; on CUDA the few operations that stay on the CPU get two threads.
pub open spec fn session_planned(options: LoadOptions) -> SessionPlan {
    match options.ep {
        ExecutionProviderChoice::Cpu => SessionPlan {
            cuda: None,
            disable_cpu_fallback: false,
            intra_threads: None,
        },
        ExecutionProviderChoice::Cuda => SessionPlan {
            cuda: Some(
                CudaPlan {
                    graph: options.cuda_graph,
                    tf32: true,
                    attention: AttentionKernels {
                        flash: true,
                        efficient: true,
                        cudnn_flash: true,
                    },
                    conv_search: ConvSearch::Exhaustive,
                    arena: ArenaGrowth::SameAsRequested,
                },
            ),
            disable_cpu_fallback: options.cuda_only,
            intra_threads: Some(2),
        },
    }
}

pub fn session_plan(options: LoadOptions) -> (r: SessionPlan)
    ensures
        r == session_planned(options),
{
    match options.ep {
        ExecutionProviderChoice::Cpu => SessionPlan {
            cuda: None,
            disable_cpu_fallback: false,
            intra_threads: None,
        },
        ExecutionProviderChoice::Cuda => SessionPlan {
            cuda: Some(
                CudaPlan {
                    graph: options.cuda_graph,
                    tf32: true,
                    attention: AttentionKernels {
                        flash: true,
                        efficient: true,
                        cudnn_flash: true,
                    },
                    conv_search: ConvSearch::Exhaustive,
                    arena: ArenaGrowth::SameAsRequested,
                },
            ),
            disable_cpu_fallback: options.cuda_only,
            intra_threads: Some(2),
        },
    }
}

/// The file of a model.
pub open spec fn file_of(model: Model) -> Seq<char> {
    match model {
        Model::Slow => "slow_ar_int4.onnx"@,
        Model::Fast => "fast_ar_int4.onnx"@,
        Model::Decoder => "codec_decoder_fp16.onnx"@,
    }
}

pub fn model_file(model: Model) -> (r: &'static str)
    ensures
        r@ == file_of(model),
{
    match model {
        Model::Slow => "slow_ar_int4.onnx",
        Model::Fast => "fast_ar_int4.onnx",
        Model::Decoder => "codec_decoder_fp16.onnx",
    }
}

/// The elements of a tensor.
#[derive(Debug, Clone, Copy, PartialEq, Eq, Structural)]
pub enum Element {
    Half,
    Integer,
    Flag,
}

/// What an input tensor is filled with.
#[derive(Debug, Clone, Copy, PartialEq, Eq, Structural)]
pub enum Source {
    Codes,
    Positions,
    Hidden,
    Token,
    UseHidden,
    /// The cache with that number: those of the keys are even, those of the
    /// values odd, and those of one layer neighbours.
    Cache(usize),
}

/// Where an output tensor goes.
#[derive(Debug, Clone, Copy, PartialEq, Eq, Structural)]
pub enum Target {
    Logits,
    Hidden,
    /// Into the cache with that number, at the positions of the step.
    Cache(usize),
}

/// An input tensor of a step.
#[derive(Debug)]
pub struct InputPlan {
    pub name: String,
    pub element: Element,
    pub sides: Vec<usize>,
    pub source: Source,
}

/// An output tensor of a step.
#[derive(Debug)]
pub struct OutputPlan {
    pub name: String,
    pub target: Target,
}

/// The form of an input plan in specifications.
pub ghost struct Input {
    pub name: Seq<char>,
    pub element: Element,
    pub sides: Seq<usize>,
    pub source: Source,
}

/// The form of an output plan in specifications.
pub ghost struct Output {
    pub name: Seq<char>,
    pub target: Target,
}

pub open spec fn input_of(plan: InputPlan) -> Input {
    Input { name: plan.name@, element: plan.element, sides: plan.sides@, source: plan.source }
}

pub open spec fn inputs_of(plans: Seq<InputPlan>) -> Seq<Input> {
    plans.map_values(|plan: InputPlan| input_of(plan))
}

pub open spec fn output_of(plan: OutputPlan) -> Output {
    Output { name: plan.name@, target: plan.target }
}

pub open spec fn outputs_of(plans: Seq<OutputPlan>) -> Seq<Output> {
    plans.map_values(|plan: OutputPlan| output_of(plan))
}

/// The name that tensor `k` of the caches has: those of a layer's keys and
/// values follow each other, and carry the number of the layer.
pub open spec fn cache_name(keys: Seq<char>, values: Seq<char>, k: int) -> Seq<char> {
    (if k % 2 == 0 {
        keys
    } else {
        values
    }) + decimal((k / 2) as nat)
}

/// The cache inputs of a model with `layers` layers.
pub open spec fn cache_inputs(layers: nat, sides: Seq<usize>) -> Seq<Input> {
    Seq::new(
        2 * layers,
        |k: int|
            Input {
                name: cache_name("cache_key_"@, "cache_value_"@, k),
                element: Element::Half,
                sides,
                source: Source::Cache(k as usize),
            },
    )
}

/// The outputs that update the caches of a model with `layers` layers.
pub open spec fn delta_outputs(layers: nat) -> Seq<Output> {
    Seq::new(
        2 * layers,
        |k: int|
            Output {
                name: cache_name("key_delta_"@, "value_delta_"@, k),
                target: Target::Cache(k as usize),
            },
    )
}

/// The inputs of the slow model for a step of `t` columns.
pub open spec fn slow_inputs(manifest: &RuntimeManifest, t: usize) -> Seq<Input> {
    seq![
        Input {
            name: "codes"@,
            element: Element::Integer,
            sides: seq![1usize, (manifest.num_codebooks + 1) as usize, t],
            source: Source::Codes,
        },
        Input {
            name: "input_pos"@,
            element: Element::Integer,
            sides: seq![t],
            source: Source::Positions,
        },
    ] + cache_inputs(
        manifest.num_layers as nat,
        seq![1usize, manifest.n_local_heads, manifest.max_seq_len, manifest.head_dim],
    )
}

/// The outputs of the slow model.
pub open spec fn slow_outputs(manifest: &RuntimeManifest) -> Seq<Output> {
    seq![
        Output { name: "logits"@, target: Target::Logits },
        Output { name: "slow_hidden"@, target: Target::Hidden },
    ] + delta_outputs(manifest.num_layers as nat)
}

/// The inputs of the fast model.
pub open spec fn fast_inputs(manifest: &RuntimeManifest) -> Seq<Input> {
    seq![
        Input {
            name: "slow_hidden"@,
            element: Element::Half,
            sides: seq![1usize, 1usize, DIM],
            source: Source::Hidden,
        },
        Input {
            name: "token_id"@,
            element: Element::Integer,
            sides: seq![1usize, 1usize],
            source: Source::Token,
        },
        Input {
            name: "use_slow_hidden"@,
            element: Element::Flag,
            sides: seq![1usize],
            source: Source::UseHidden,
        },
        Input {
            name: "input_pos"@,
            element: Element::Integer,
            sides: seq![1usize],
            source: Source::Positions,
        },
    ] + cache_inputs(
        manifest.num_fast_layers as nat,
        seq![
            1usize,
            manifest.fast_n_local_heads,
            manifest.num_codebooks,
            manifest.fast_head_dim,
        ],
    )
}

/// The outputs of the fast model.
pub open spec fn fast_outputs(manifest: &RuntimeManifest) -> Seq<Output> {
    seq![Output { name: "logits"@, target: Target::Logits }] + delta_outputs(
        manifest.num_fast_layers as nat,
    )
}

fn push_cache_inputs(plans: &mut Vec<InputPlan>, layers: usize, sides: (usize, usize, usize, usize))
    requires
        2 * layers <= usize::MAX,
    ensures
        inputs_of(final(plans)@) == inputs_of(old(plans)@) + cache_inputs(
            layers as nat,
            seq![sides.0, sides.1, sides.2, sides.3],
        ),
{
    let ghost sides_seq = seq![sides.0, sides.1, sides.2, sides.3];
    let ghost all = cache_inputs(layers as nat, sides_seq);
    let ghost before = inputs_of(plans@);
    assert(before + all.take(0) =~= before);
    for i in 0..layers
        invariant
            2 * layers <= usize::MAX,
            sides_seq == seq![sides.0, sides.1, sides.2, sides.3],
            all == cache_inputs(layers as nat, sides_seq),
            inputs_of(plans@) == before + all.take(2 * i),
    {
        let ghost start = plans@;
        let key_sides: Vec<usize> = vec![sides.0, sides.1, sides.2, sides.3];
        let value_sides: Vec<usize> = vec![sides.0, sides.1, sides.2, sides.3];
        assert(key_sides@ =~= sides_seq);
        assert(value_sides@ =~= sides_seq);
        plans.push(
            InputPlan {
                name: numbered("cache_key_", i),
                element: Element::Half,
                sides: key_sides,
                source: Source::Cache(2 * i),
            },
        );
        plans.push(
            InputPlan {
                name: numbered("cache_value_", i),
                element: Element::Half,
                sides: value_sides,
                source: Source::Cache(2 * i + 1),
            },
        );
        assert(inputs_of(plans@) =~= inputs_of(start) + seq![all[2 * i], all[2 * i + 1]]);
        assert(inputs_of(start) + seq![all[2 * i], all[2 * i + 1]] =~= before + all.take(
            2 * (i + 1),
        ));
    }
    assert(all.take(2 * layers) =~= all);
}

fn push_delta_outputs(plans: &mut Vec<OutputPlan>, layers: usize)
    requires
        2 * layers <= usize::MAX,
    ensures
        outputs_of(final(plans)@) == outputs_of(old(plans)@) + delta_outputs(layers as nat),
{
    let ghost all = delta_outputs(layers as nat);
    let ghost before = outputs_of(plans@);
    assert(before + all.take(0) =~= before);
    for i in 0..layers
        invariant
            2 * layers <= usize::MAX,
            all == delta_outputs(layers as nat),
            outputs_of(plans@) == before + all.take(2 * i),
    {
        let ghost start = plans@;
        plans.push(
            OutputPlan { name: numbered("key_delta_", i), target: Target::Cache(2 * i) },
        );
        plans.push(
            OutputPlan { name: numbered("value_delta_", i), target: Target::Cache(2 * i + 1) },
        );
        assert(outputs_of(plans@) =~= outputs_of(start) + seq![all[2 * i], all[2 * i + 1]]);
        assert(outputs_of(start) + seq![all[2 * i], all[2 * i + 1]] =~= before + all.take(
            2 * (i + 1),
        ));
    }
    assert(all.take(2 * layers) =~= all);
}

/// The inputs of the slow model for a step of `t` columns, in the order in which
/// they are bound.
pub fn slow_input_plan(manifest: &RuntimeManifest, t: usize) -> (r: Vec<InputPlan>)
    requires
        manifest.num_codebooks < usize::MAX,
        2 * manifest.num_layers <= usize::MAX,
    ensures
        inputs_of(r@) == slow_inputs(manifest, t),
{
    let code_sides: Vec<usize> = vec![1, manifest.num_codebooks + 1, t];
    let pos_sides: Vec<usize> = vec![t];
    assert(code_sides@ =~= seq![1usize, (manifest.num_codebooks + 1) as usize, t]);
    assert(pos_sides@ =~= seq![t]);
    let mut plans: Vec<InputPlan> = Vec::new();
    plans.push(
        InputPlan {
            name: "codes".to_owned(),
            element: Element::Integer,
            sides: code_sides,
            source: Source::Codes,
        },
    );
    plans.push(
        InputPlan {
            name: "input_pos".to_owned(),
            element: Element::Integer,
            sides: pos_sides,
            source: Source::Positions,
        },
    );
    let ghost first = inputs_of(plans@);
    push_cache_inputs(
        &mut plans,
        manifest.num_layers,
        (1, manifest.n_local_heads, manifest.max_seq_len, manifest.head_dim),
    );
    assert(first =~= slow_inputs(manifest, t).take(2));
    assert(inputs_of(plans@) =~= slow_inputs(manifest, t));
    plans
}

/// The outputs of the slow model, in the order in which they are bound.
pub fn slow_output_plan(manifest: &RuntimeManifest) -> (r: Vec<OutputPlan>)
    requires
        2 * manifest.num_layers <= usize::MAX,
    ensures
        outputs_of(r@) == slow_outputs(manifest),
{
    let mut plans: Vec<OutputPlan> = Vec::new();
    plans.push(OutputPlan { name: "logits".to_owned(), target: Target::Logits });
    plans.push(OutputPlan { name: "slow_hidden".to_owned(), target: Target::Hidden });
    let ghost first = outputs_of(plans@);
    push_delta_outputs(&mut plans, manifest.num_layers);
    assert(first =~= slow_outputs(manifest).take(2));
    assert(outputs_of(plans@) =~= slow_outputs(manifest));
    plans
}

/// The inputs of the fast model, in the order in which they are bound.
pub fn fast_input_plan(manifest: &RuntimeManifest) -> (r: Vec<InputPlan>)
    requires
        2 * manifest.num_fast_layers <= usize::MAX,
    ensures
        inputs_of(r@) == fast_inputs(manifest),
{
    let hidden_sides: Vec<usize> = vec![1, 1, DIM];
    let token_sides: Vec<usize> = vec![1, 1];
    let flag_sides: Vec<usize> = vec![1];
    let pos_sides: Vec<usize> = vec![1];
    assert(hidden_sides@ =~= seq![1usize, 1usize, DIM]);
    assert(token_sides@ =~= seq![1usize, 1usize]);
    assert(flag_sides@ =~= seq![1usize]);
    assert(pos_sides@ =~= seq![1usize]);
    let mut plans: Vec<InputPlan> = Vec::new();
    plans.push(
        InputPlan {
            name: "slow_hidden".to_owned(),
            element: Element::Half,
            sides: hidden_sides,
            source: Source::Hidden,
        },
    );
    plans.push(
        InputPlan {
            name: "token_id".to_owned(),
            element: Element::Integer,
            sides: token_sides,
            source: Source::Token,
        },
    );
    plans.push(
        InputPlan {
            name: "use_slow_hidden".to_owned(),
            element: Element::Flag,
            sides: flag_sides,
            source: Source::UseHidden,
        },
    );
    plans.push(
        InputPlan {
            name: "input_pos".to_owned(),
            element: Element::Integer,
            sides: pos_sides,
            source: Source::Positions,
        },
    );
    let ghost first = inputs_of(plans@);
    push_cache_inputs(
        &mut plans,
        manifest.num_fast_layers,
        (1, manifest.fast_n_local_heads, manifest.num_codebooks, manifest.fast_head_dim),
    );
    assert(first =~= fast_inputs(manifest).take(4));
    assert(inputs_of(plans@) =~= fast_inputs(manifest));
    plans
}

/// The outputs of the fast model, in the order in which they are bound.
pub fn fast_output_plan(manifest: &RuntimeManifest) -> (r: Vec<OutputPlan>)
    requires
        2 * manifest.num_fast_layers <= usize::MAX,
    ensures
        outputs_of(r@) == fast_outputs(manifest),
{
    let mut plans: Vec<OutputPlan> = Vec::new();
    plans.push(OutputPlan { name: "logits".to_owned(), target: Target::Logits });
    let ghost first = outputs_of(plans@);
    push_delta_outputs(&mut plans, manifest.num_fast_layers);
    assert(first =~= fast_outputs(manifest).take(1));
    assert(outputs_of(plans@) =~= fast_outputs(manifest));
    plans
}

/// A model step can be bound once, to tensors that stay where they are: the
/// inputs, in binding order, and the outputs.
pub struct GraphPlan {
    pub inputs: Vec<InputPlan>,
    pub outputs: Vec<OutputPlan>,
}

/// The tensors that the fast model is bound to.
pub fn build_fast_graph_state(manifest: &RuntimeManifest) -> (r: GraphPlan)
    requires
        2 * manifest.num_fast_layers <= usize::MAX,
    ensures
        inputs_of(r.inputs@) == fast_inputs(manifest),
        outputs_of(r.outputs@) == fast_outputs(manifest),
{
    GraphPlan { inputs: fast_input_plan(manifest), outputs: fast_output_plan(manifest) }
}

/// The tensors that the slow model is bound to, for steps of one column.
pub fn build_slow_graph_state(manifest: &RuntimeManifest) -> (r: GraphPlan)
    requires
        manifest.num_codebooks < usize::MAX,
        2 * manifest.num_layers <= usize::MAX,
    ensures
        inputs_of(r.inputs@) == slow_inputs(manifest, 1),
        outputs_of(r.outputs@) == slow_outputs(manifest),
{
    GraphPlan { inputs: slow_input_plan(manifest, 1), outputs: slow_output_plan(manifest) }
}

/// How a step of the slow model is run.
#[derive(Debug, Clone, Copy, PartialEq, Eq, Structural)]
pub enum SlowPath {
    /// On the bound tensors; the caches that the caller holds are left alone.
    Bound,
    /// On fresh tensors. Afterwards the caches are copied into the bound
    /// tensors, where there are any.
    Fresh { seed_bound: bool },
}

pub open spec fn slow_path_of(columns: nat, bound: bool) -> SlowPath {
    if columns == 1 && bound {
        SlowPath::Bound
    } else {
        SlowPath::Fresh { seed_bound: bound }
    }
}

/// Only steps of one column fit the bound tensors.
pub fn slow_path(columns: usize, bound: bool) -> (r: SlowPath)
    ensures
        r == slow_path_of(columns as nat, bound),
{
    if columns == 1 && bound {
        SlowPath::Bound
    } else {
        SlowPath::Fresh { seed_bound: bound }
    }
}

/// How a step of the fast model is run.
#[derive(Debug, Clone, Copy, PartialEq, Eq, Structural)]
pub enum FastPath {
    /// On the bound tensors, whose caches are cleared first at the start of a
    /// frame.
    Bound { clear: bool },
    /// On fresh tensors.
    Fresh,
}

pub open spec fn fast_path_of(use_hidden: bool, bound: bool) -> FastPath {
    if bound {
        FastPath::Bound { clear: use_hidden }
    } else {
        FastPath::Fresh
    }
}

/// A step with the hidden state starts a frame.
pub fn fast_path(use_hidden: bool, bound: bool) -> (r: FastPath)
    ensures
        r == fast_path_of(use_hidden, bound),
{
    if bound {
        FastPath::Bound { clear: use_hidden }
    } else {
        FastPath::Fresh
    }
}

/// The last of `steps` rows of `width` values.
pub fn last_row<T: Copy>(values: &[T], steps: usize, width: usize) -> (r: Vec<T>)
    requires
        steps >= 1,
        values@.len() == steps * width,
    ensures
        r@ == values@.subrange((steps - 1) * width, steps * width),
{
    let total: usize = values.len();
    assert((steps - 1) * width == steps * width - width) by (nonlinear_arith);
    assert(0 <= (steps - 1) * width) by (nonlinear_arith)
        requires
            steps >= 1,
            0 <= width,
    ;
    let from: usize = total - width;
    let mut out: Vec<T> = Vec::new();
    for i in 0..width
        invariant
            total == values@.len(),
            width <= total,
            from == total - width,
            out@ == values@.subrange(from as int, from + i),
    {
        out.push(values[from + i]);
        assert(out@ =~= values@.subrange(from as int, from + i + 1));
    }
    out
}

/// The tensors that a step of one column is bound to are the tensors that the
/// step takes on the other way, under the same names.
pub proof fn law_bound_tensors_are_those_of_a_step(manifest: &RuntimeManifest, k: int)
    requires
        0 <= k < slow_inputs(manifest, 1).len(),
    ensures
        slow_inputs(manifest, 1).len() == 2 + 2 * manifest.num_layers,
        forall|t: usize|
            slow_inputs(manifest, t).len() == slow_inputs(manifest, 1).len() && (
            #[trigger] slow_inputs(manifest, t))[k].name == slow_inputs(manifest, 1)[k].name
                && slow_inputs(manifest, t)[k].source == slow_inputs(manifest, 1)[k].source && (k
                >= 2 ==> slow_inputs(manifest, t)[k] == slow_inputs(manifest, 1)[k]),
{
}

/// Each cache is an input once and gets one output, and those of the same number
/// carry the number of the same layer.
pub proof fn law_deltas_match_caches(layers: nat, sides: Seq<usize>, k: int)
    requires
        0 <= k < 2 * layers,
        2 * layers <= usize::MAX,
    ensures
        cache_inputs(layers, sides)[k].source == Source::Cache(k as usize),
        delta_outputs(layers)[k].target == Target::Cache(k as usize),
        k % 2 == 0 ==> cache_inputs(layers, sides)[k].name == "cache_key_"@ + decimal(
            (k / 2) as nat,
        ) && delta_outputs(layers)[k].name == "key_delta_"@ + decimal((k / 2) as nat),
        k % 2 == 1 ==> cache_inputs(layers, sides)[k].name == "cache_value_"@ + decimal(
            (k / 2) as nat,
        ) && delta_outputs(layers)[k].name == "value_delta_"@ + decimal((k / 2) as nat),
{
}

/// The cache tensors of a model all have different names.
proof fn lemma_cache_names(keys: Seq<char>, values: Seq<char>, at: int, i: int, j: int)
    requires
        0 <= i < j,
        0 <= at < keys.len(),
        at < values.len(),
        keys[at] != values[at],
    ensures
        cache_name(keys, values, i) != cache_name(keys, values, j),
{
    let a = cache_name(keys, values, i);
    let b = cache_name(keys, values, j);
    if a == b {
        assert(a[at] == (if i % 2 == 0 { keys } else { values })[at]);
        assert(b[at] == (if j % 2 == 0 { keys } else { values })[at]);
        assert(i % 2 == j % 2);
        let name = if i % 2 == 0 {
            keys
        } else {
            values
        };
        law_numbered_names_differ(name, (i / 2) as nat, (j / 2) as nat);
    }
}

/// No two inputs of the slow model have the same name, and no two outputs.
pub proof fn law_slow_names_differ(manifest: &RuntimeManifest, t: usize, i: int, j: int)
    requires
        0 <= i < j < slow_inputs(manifest, t).len(),
    ensures
        slow_inputs(manifest, t)[i].name != slow_inputs(manifest, t)[j].name,
        slow_outputs(manifest)[i].name != slow_outputs(manifest)[j].name,
{
    reveal_strlit("codes");
    reveal_strlit("input_pos");
    reveal_strlit("cache_key_");
    reveal_strlit("cache_value_");
    reveal_strlit("logits");
    reveal_strlit("slow_hidden");
    reveal_strlit("key_delta_");
    reveal_strlit("value_delta_");
    if i >= 2 {
        lemma_cache_names("cache_key_"@, "cache_value_"@, 6, i - 2, j - 2);
        lemma_cache_names("key_delta_"@, "value_delta_"@, 0, i - 2, j - 2);
    } else {
        let a = slow_inputs(manifest, t)[i].name;
        let b = slow_inputs(manifest, t)[j].name;
        assert(a[1] != b[1] || a[0] != b[0]);
        let c = slow_outputs(manifest)[i].name;
        let d = slow_outputs(manifest)[j].name;
        assert(c[0] != d[0]);
    }
}

/// No two inputs of the fast model have the same name, and no two outputs.
pub proof fn law_fast_names_differ(manifest: &RuntimeManifest, i: int, j: int)
    requires
        0 <= i < j,
    ensures
        j < fast_inputs(manifest).len() ==> fast_inputs(manifest)[i].name
            != fast_inputs(manifest)[j].name,
        j < fast_outputs(manifest).len() ==> fast_outputs(manifest)[i].name
            != fast_outputs(manifest)[j].name,
{
    reveal_strlit("slow_hidden");
    reveal_strlit("token_id");
    reveal_strlit("use_slow_hidden");
    reveal_strlit("input_pos");
    reveal_strlit("cache_key_");
    reveal_strlit("cache_value_");
    reveal_strlit("logits");
    reveal_strlit("key_delta_");
    reveal_strlit("value_delta_");
    if j < fast_inputs(manifest).len() {
        if i >= 4 {
            lemma_cache_names("cache_key_"@, "cache_value_"@, 6, i - 4, j - 4);
        } else {
            let a = fast_inputs(manifest)[i].name;
            let b = fast_inputs(manifest)[j].name;
            assert(a[0] != b[0]);
        }
    }
    if j < fast_outputs(manifest).len() {
        if i >= 1 {
            lemma_cache_names("key_delta_"@, "value_delta_"@, 0, i - 1, j - 1);
        } else {
            let c = fast_outputs(manifest)[i].name;
            let d = fast_outputs(manifest)[j].name;
            assert(c[0] != d[0]);
        }
    }
}

/// The caches that a step of the fast model is given: on the bound tensors those
/// that they hold, or empty ones where they are cleared first; else those of the
/// caller.
pub open spec fn caches_given(
    path: FastPath,
    bound: Seq<Map<Place, u16>>,
    host: Seq<Map<Place, u16>>,
    sides: Sides,
) -> Seq<Map<Place, u16>> {
    match path {
        FastPath::Bound { clear } => if clear {
            Seq::new(bound.len(), |i: int| filled(sides, 0))
        } else {
            bound
        },
        FastPath::Fresh => host,
    }
}

/// The caches of the caller after a step that would change them to `written`.
pub open spec fn host_after(
    path: FastPath,
    host: Seq<Map<Place, u16>>,
    written: Seq<Map<Place, u16>>,
) -> Seq<Map<Place, u16>> {
    match path {
        FastPath::Bound { .. } => host,
        FastPath::Fresh => written,
    }
}

/// On bound tensors the first step of a frame does not depend on earlier steps:
/// whatever they left in the caches, a model that goes by its inputs gives the
/// same. No step on bound tensors changes the caches of the caller.
pub proof fn law_frames_start_afresh<I, O>(
    step: spec_fn(I, Seq<Map<Place, u16>>) -> O,
    input: I,
    bound1: Seq<Map<Place, u16>>,
    bound2: Seq<Map<Place, u16>>,
    host1: Seq<Map<Place, u16>>,
    host2: Seq<Map<Place, u16>>,
    written: Seq<Map<Place, u16>>,
    use_hidden: bool,
    sides: Sides,
)
    requires
        bound1.len() == bound2.len(),
    ensures
        step(input, caches_given(fast_path_of(true, true), bound1, host1, sides)) == step(
            input,
            caches_given(fast_path_of(true, true), bound2, host2, sides),
        ),
        host_after(fast_path_of(use_hidden, true), host1, written) == host1,
{
}

/// Loading reads the manifest, then opens the slow model, the fast model and the
/// decoder, then loads the tokenizer. Logging, where it is wanted, comes before
/// all that; on CUDA, and only there, the two graphs come behind it, the one of
/// the fast model first.
pub proof fn law_loading_goes_in_order(options: LoadOptions, r: Vec<LoadStep>)
    requires
        call_ensures(load_steps, (options,), r),
    ensures
        ({
            let core = seq![
                LoadStep::ReadManifest,
                LoadStep::Open(Model::Slow),
                LoadStep::Open(Model::Fast),
                LoadStep::Open(Model::Decoder),
                LoadStep::LoadTokenizer,
            ];
            let on_cuda = options.ep == ExecutionProviderChoice::Cuda;
            &&& !options.verbose && !on_cuda ==> r@ == core
            &&& options.verbose && !on_cuda ==> r@ == seq![LoadStep::InitLogging] + core
            &&& !options.verbose && on_cuda ==> r@ == core.push(LoadStep::BuildFastGraph).push(
                LoadStep::BuildSlowGraph,
            )
            &&& options.verbose && on_cuda ==> r@ == (seq![LoadStep::InitLogging] + core).push(
                LoadStep::BuildFastGraph,
            ).push(LoadStep::BuildSlowGraph)
        }),
{
    let core = seq![
        LoadStep::ReadManifest,
        LoadStep::Open(Model::Slow),
        LoadStep::Open(Model::Fast),
        LoadStep::Open(Model::Decoder),
        LoadStep::LoadTokenizer,
    ];
    let first = seq![LoadStep::InitLogging];
    assert(Seq::<LoadStep>::empty() + core + Seq::<LoadStep>::empty() =~= core);
    assert(first + core + Seq::<LoadStep>::empty() =~= first + core);
    assert(Seq::<LoadStep>::empty() + core + seq![
        LoadStep::BuildFastGraph,
        LoadStep::BuildSlowGraph,
    ] =~= core.push(LoadStep::BuildFastGraph).push(LoadStep::BuildSlowGraph));
    assert(first + core + seq![LoadStep::BuildFastGraph, LoadStep::BuildSlowGraph] =~= (first
        + core).push(LoadStep::BuildFastGraph).push(LoadStep::BuildSlowGraph));
}

/// On the CPU a session is left to the engine, whatever else is asked for. On
/// CUDA it computes with TF32, all attention kernels, an exhaustive search for
/// convolutions, memory as requested and two threads beside; graphs and the
/// refusal of the CPU are there where they are asked for. Logging has no part in
/// it.
pub proof fn law_sessions_follow_the_options(
    options: LoadOptions,
    other: LoadOptions,
    r: SessionPlan,
    q: SessionPlan,
)
    requires
        call_ensures(session_plan, (options,), r),
        call_ensures(session_plan, (other,), q),
    ensures
        r.cuda is Some <==> options.ep == ExecutionProviderChoice::Cuda,
        options.ep == ExecutionProviderChoice::Cpu ==> !r.disable_cpu_fallback && r.intra_threads
            is None,
        r.cuda matches Some(c) ==> {
            &&& c.graph == options.cuda_graph
            &&& c.tf32
            &&& c.attention.flash && c.attention.efficient && c.attention.cudnn_flash
            &&& c.conv_search == ConvSearch::Exhaustive
            &&& c.arena == ArenaGrowth::SameAsRequested
            &&& r.disable_cpu_fallback == options.cuda_only
            &&& r.intra_threads == Some(2usize)
        },
        options.ep == other.ep && (options.ep == ExecutionProviderChoice::Cpu || (
        options.cuda_graph == other.cuda_graph && options.cuda_only == other.cuda_only)) ==> r == q,
{
}

/// The models have the files of their names.
pub proof fn law_models_have_their_files(model: Model, r: &'static str)
    requires
        call_ensures(model_file, (model,), r),
    ensures
        model == Model::Slow ==> r@ == "slow_ar_int4.onnx"@,
        model == Model::Fast ==> r@ == "fast_ar_int4.onnx"@,
        model == Model::Decoder ==> r@ == "codec_decoder_fp16.onnx"@,
{
}

/// The slow model takes the columns of a step and their positions, as many as
/// there are, and all its caches, the keys of a layer before its values; it
/// gives the logits, the hidden state and what is new in each cache.
pub proof fn law_slow_model_takes_columns_and_caches(
    manifest: &RuntimeManifest,
    t: usize,
    r: Vec<InputPlan>,
    q: Vec<OutputPlan>,
    layer: int,
)
    requires
        call_ensures(slow_input_plan, (manifest, t), r),
        call_ensures(slow_output_plan, (manifest,), q),
        0 <= layer < manifest.num_layers,
        2 * manifest.num_layers <= usize::MAX,
        manifest.num_codebooks < usize::MAX,
    ensures
        r@.len() == 2 + 2 * manifest.num_layers,
        r@[0].name@ == "codes"@,
        r@[0].element == Element::Integer,
        r@[0].source == Source::Codes,
        r@[0].sides@ == seq![1usize, (manifest.num_codebooks + 1) as usize, t],
        r@[1].name@ == "input_pos"@,
        r@[1].element == Element::Integer,
        r@[1].source == Source::Positions,
        r@[1].sides@ == seq![t],
        r@[2 + 2 * layer].name@ == "cache_key_"@ + decimal(layer as nat),
        r@[2 + 2 * layer].source == Source::Cache((2 * layer) as usize),
        r@[3 + 2 * layer].name@ == "cache_value_"@ + decimal(layer as nat),
        r@[3 + 2 * layer].source == Source::Cache((2 * layer + 1) as usize),
        r@[2 + 2 * layer].element == Element::Half,
        r@[3 + 2 * layer].element == Element::Half,
        r@[2 + 2 * layer].sides@ == seq![
            1usize,
            manifest.n_local_heads,
            manifest.max_seq_len,
            manifest.head_dim,
        ],
        r@[3 + 2 * layer].sides@ == r@[2 + 2 * layer].sides@,
        q@.len() == 2 + 2 * manifest.num_layers,
        q@[0].name@ == "logits"@,
        q@[0].target == Target::Logits,
        q@[1].name@ == "slow_hidden"@,
        q@[1].target == Target::Hidden,
        q@[2 + 2 * layer].name@ == "key_delta_"@ + decimal(layer as nat),
        q@[2 + 2 * layer].target == Target::Cache((2 * layer) as usize),
        q@[3 + 2 * layer].name@ == "value_delta_"@ + decimal(layer as nat),
        q@[3 + 2 * layer].target == Target::Cache((2 * layer + 1) as usize),
{
    let a = inputs_of(r@);
    let b = outputs_of(q@);
    assert(a.len() == r@.len() && b.len() == q@.len());
    assert(a[0] == input_of(r@[0]) && a[1] == input_of(r@[1]));
    assert(a[2 + 2 * layer] == input_of(r@[2 + 2 * layer]));
    assert(a[3 + 2 * layer] == input_of(r@[3 + 2 * layer]));
    assert(b[0] == output_of(q@[0]) && b[1] == output_of(q@[1]));
    assert(b[2 + 2 * layer] == output_of(q@[2 + 2 * layer]));
    assert(b[3 + 2 * layer] == output_of(q@[3 + 2 * layer]));
}

/// The fast model takes the hidden state, a token, whether the hidden state
/// counts, one position and all its caches; it gives the logits and what is new
/// in each cache.
pub proof fn law_fast_model_takes_a_token_and_caches(
    manifest: &RuntimeManifest,
    r: Vec<InputPlan>,
    q: Vec<OutputPlan>,
    layer: int,
)
    requires
        call_ensures(fast_input_plan, (manifest,), r),
        call_ensures(fast_output_plan, (manifest,), q),
        0 <= layer < manifest.num_fast_layers,
        2 * manifest.num_fast_layers <= usize::MAX,
    ensures
        r@.len() == 4 + 2 * manifest.num_fast_layers,
        r@[0].name@ == "slow_hidden"@ && r@[0].source == Source::Hidden && r@[0].element
            == Element::Half && r@[0].sides@ == seq![1usize, 1usize, 896usize],
        r@[1].name@ == "token_id"@ && r@[1].source == Source::Token && r@[1].element
            == Element::Integer && r@[1].sides@ == seq![1usize, 1usize],
        r@[2].name@ == "use_slow_hidden"@ && r@[2].source == Source::UseHidden && r@[2].element
            == Element::Flag && r@[2].sides@ == seq![1usize],
        r@[3].name@ == "input_pos"@ && r@[3].source == Source::Positions && r@[3].element
            == Element::Integer && r@[3].sides@ == seq![1usize],
        r@[4 + 2 * layer].name@ == "cache_key_"@ + decimal(layer as nat),
        r@[4 + 2 * layer].source == Source::Cache((2 * layer) as usize),
        r@[5 + 2 * layer].name@ == "cache_value_"@ + decimal(layer as nat),
        r@[5 + 2 * layer].source == Source::Cache((2 * layer + 1) as usize),
        r@[4 + 2 * layer].element == Element::Half,
        r@[5 + 2 * layer].element == Element::Half,
        r@[4 + 2 * layer].sides@ == seq![
            1usize,
            manifest.fast_n_local_heads,
            manifest.num_codebooks,
            manifest.fast_head_dim,
        ],
        r@[5 + 2 * layer].sides@ == r@[4 + 2 * layer].sides@,
        q@.len() == 1 + 2 * manifest.num_fast_layers,
        q@[0].name@ == "logits"@,
        q@[0].target == Target::Logits,
        q@[1 + 2 * layer].name@ == "key_delta_"@ + decimal(layer as nat),
        q@[1 + 2 * layer].target == Target::Cache((2 * layer) as usize),
        q@[2 + 2 * layer].name@ == "value_delta_"@ + decimal(layer as nat),
        q@[2 + 2 * layer].target == Target::Cache((2 * layer + 1) as usize),
{
    let a = inputs_of(r@);
    let b = outputs_of(q@);
    assert(a.len() == r@.len() && b.len() == q@.len());
    assert(a[0] == input_of(r@[0]) && a[1] == input_of(r@[1]) && a[2] == input_of(r@[2]) && a[3]
        == input_of(r@[3]));
    assert(a[4 + 2 * layer] == input_of(r@[4 + 2 * layer]));
    assert(a[5 + 2 * layer] == input_of(r@[5 + 2 * layer]));
    assert(b[0] == output_of(q@[0]));
    assert(b[1 + 2 * layer] == output_of(q@[1 + 2 * layer]));
    assert(b[2 + 2 * layer] == output_of(q@[2 + 2 * layer]));
}

/// The bound tensors are those of a step: of one column for the slow model, and
/// of any step for the fast model.
pub proof fn law_graphs_bind_the_tensors_of_a_step(
    manifest: &RuntimeManifest,
    slow: GraphPlan,
    fast: GraphPlan,
    a: Vec<InputPlan>,
    b: Vec<OutputPlan>,
    c: Vec<InputPlan>,
    d: Vec<OutputPlan>,
)
    requires
        call_ensures(build_slow_graph_state, (manifest,), slow),
        call_ensures(build_fast_graph_state, (manifest,), fast),
        call_ensures(slow_input_plan, (manifest, 1), a),
        call_ensures(slow_output_plan, (manifest,), b),
        call_ensures(fast_input_plan, (manifest,), c),
        call_ensures(fast_output_plan, (manifest,), d),
    ensures
        inputs_of(slow.inputs@) == inputs_of(a@),
        outputs_of(slow.outputs@) == outputs_of(b@),
        inputs_of(fast.inputs@) == inputs_of(c@),
        outputs_of(fast.outputs@) == outputs_of(d@),
{
}

/// Steps run on the bound tensors where there are any: those of the fast model
/// always, and are cleared at the start of a frame only; those of the slow model
/// for one column exactly. Any other step of the slow model hands its caches on
/// to the bound tensors, where there are any.
pub proof fn law_bound_tensors_are_used_where_they_fit(columns: usize, flag: bool, bound: bool)
    ensures
        slow_path_of(columns as nat, bound) is Bound <==> bound && columns == 1,
        slow_path_of(columns as nat, bound) matches SlowPath::Fresh { seed_bound } ==> seed_bound
            == bound,
        fast_path_of(flag, bound) is Bound <==> bound,
        fast_path_of(flag, bound) matches FastPath::Bound { clear } ==> clear == flag,
{
}

/// The last row is as long as a row, and ends where the values end.
pub proof fn law_last_row_ends_the_values<T: Copy>(
    values: &[T],
    steps: usize,
    width: usize,
    r: Vec<T>,
    i: int,
)
    requires
        call_ensures(last_row, (values, steps, width), r),
        steps >= 1,
        values@.len() == steps * width,
        0 <= i < width,
    ensures
        r@.len() == width,
        r@[i] == values@[values@.len() - width + i],
{
    assert((steps - 1) * width == steps * width - width) by (nonlinear_arith);
    assert(0 <= (steps - 1) * width) by (nonlinear_arith)
        requires
            steps >= 1,
            0 <= width,
    ;
}

} // verus!
