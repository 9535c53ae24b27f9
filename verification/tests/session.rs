use audio8_runtime::manifest::RuntimeManifest;
use audio8_runtime::session::{
    build_fast_graph_state, build_slow_graph_state, fast_path, fast_input_plan, fast_output_plan,
    last_row, load_steps, model_file, session_plan, slow_input_plan, slow_output_plan, slow_path,
    ArenaGrowth, ConvSearch, Element, ExecutionProviderChoice, FastPath, LoadOptions, LoadStep, Model, SlowPath, Source,
    Target,
};

fn manifest() -> RuntimeManifest {
    RuntimeManifest {
        max_seq_len: 2048,
        num_layers: 24,
        num_fast_layers: 4,
        num_codebooks: 10,
        n_local_heads: 2,
        fast_n_local_heads: 3,
        head_dim: 64,
        fast_head_dim: 32,
        semantic_begin_id: 151678,
        semantic_end_id: 155773,
        im_end_id: 151645,
        codebook_size: 4096,
        codec_hop_length: 2048,
        slow_logits_layout: None,
    }
}

fn options(ep: ExecutionProviderChoice, verbose: bool) -> LoadOptions {
    LoadOptions { ep, verbose, cuda_graph: true, cuda_only: false }
}

#[test]
fn loading_on_the_cpu() {
    let steps = load_steps(options(ExecutionProviderChoice::Cpu, false));
    assert_eq!(
        steps,
        vec![
            LoadStep::ReadManifest,
            LoadStep::Open(Model::Slow),
            LoadStep::Open(Model::Fast),
            LoadStep::Open(Model::Decoder),
            LoadStep::LoadTokenizer,
        ]
    );
    let plan = session_plan(options(ExecutionProviderChoice::Cpu, false));
    assert_eq!(plan.cuda, None);
    assert!(!plan.disable_cpu_fallback);
    assert_eq!(plan.intra_threads, None);
}

#[test]
fn loading_on_cuda() {
    let steps = load_steps(options(ExecutionProviderChoice::Cuda, true));
    assert_eq!(steps[0], LoadStep::InitLogging);
    assert_eq!(steps[6..].to_vec(), vec![LoadStep::BuildFastGraph, LoadStep::BuildSlowGraph]);
    let plan = session_plan(options(ExecutionProviderChoice::Cuda, true));
    let cuda = plan.cuda.unwrap();
    assert!(cuda.graph && cuda.tf32);
    assert!(cuda.attention.flash && cuda.attention.efficient && cuda.attention.cudnn_flash);
    assert_eq!(cuda.conv_search, ConvSearch::Exhaustive);
    assert_eq!(cuda.arena, ArenaGrowth::SameAsRequested);
    assert_eq!(plan.intra_threads, Some(2));
    let only = LoadOptions {
        ep: ExecutionProviderChoice::Cuda,
        verbose: false,
        cuda_graph: false,
        cuda_only: true,
    };
    assert!(!session_plan(only).cuda.unwrap().graph);
    assert!(session_plan(only).disable_cpu_fallback);
}

#[test]
fn files() {
    assert_eq!(model_file(Model::Slow), "slow_ar_int4.onnx");
    assert_eq!(model_file(Model::Fast), "fast_ar_int4.onnx");
    assert_eq!(model_file(Model::Decoder), "codec_decoder_fp16.onnx");
}

#[test]
fn inputs_of_a_slow_step() {
    let plan = slow_input_plan(&manifest(), 7);
    assert_eq!(plan.len(), 50);
    assert_eq!(plan[0].name, "codes");
    assert_eq!(plan[0].sides, vec![1, 11, 7]);
    assert_eq!(plan[0].element, Element::Integer);
    assert_eq!(plan[1].name, "input_pos");
    assert_eq!(plan[1].sides, vec![7]);
    assert_eq!(plan[2].name, "cache_key_0");
    assert_eq!(plan[3].name, "cache_value_0");
    assert_eq!(plan[49].name, "cache_value_23");
    assert_eq!(plan[49].sides, vec![1, 2, 2048, 64]);
    assert_eq!(plan[49].source, Source::Cache(47));
    assert_eq!(plan[48].source, Source::Cache(46));
}

#[test]
fn inputs_of_a_fast_step() {
    let plan = fast_input_plan(&manifest());
    let names: Vec<&str> = plan.iter().map(|p| p.name.as_str()).collect();
    assert_eq!(
        names,
        vec![
            "slow_hidden", "token_id", "use_slow_hidden", "input_pos", "cache_key_0",
            "cache_value_0", "cache_key_1", "cache_value_1", "cache_key_2", "cache_value_2",
            "cache_key_3", "cache_value_3",
        ]
    );
    assert_eq!(plan[0].sides, vec![1, 1, 896]);
    assert_eq!(plan[0].source, Source::Hidden);
    assert_eq!(plan[1].sides, vec![1, 1]);
    assert_eq!(plan[2].element, Element::Flag);
    assert_eq!(plan[2].source, Source::UseHidden);
    assert_eq!(plan[4].sides, vec![1, 3, 10, 32]);
    assert_eq!(plan[4].element, Element::Half);
}

#[test]
fn outputs_of_the_steps() {
    let slow = slow_output_plan(&manifest());
    assert_eq!(slow.len(), 50);
    assert_eq!(slow[0].name, "logits");
    assert_eq!(slow[1].name, "slow_hidden");
    assert_eq!(slow[1].target, Target::Hidden);
    assert_eq!(slow[2].name, "key_delta_0");
    assert_eq!(slow[49].name, "value_delta_23");
    assert_eq!(slow[49].target, Target::Cache(47));
    let fast = fast_output_plan(&manifest());
    assert_eq!(fast.len(), 9);
    assert_eq!(fast[8].name, "value_delta_3");
    assert_eq!(fast[0].target, Target::Logits);
}

#[test]
fn names_are_distinct() {
    let mut names: Vec<String> =
        slow_input_plan(&manifest(), 1).into_iter().map(|p| p.name).collect();
    names.sort();
    names.dedup();
    assert_eq!(names.len(), 50);
    let mut outputs: Vec<String> =
        slow_output_plan(&manifest()).into_iter().map(|p| p.name).collect();
    outputs.sort();
    outputs.dedup();
    assert_eq!(outputs.len(), 50);
}

#[test]
fn bound_tensors_are_those_of_a_step() {
    let m = manifest();
    let bound = build_slow_graph_state(&m);
    let step = slow_input_plan(&m, 1);
    assert_eq!(bound.inputs.len(), step.len());
    for (a, b) in bound.inputs.iter().zip(step.iter()) {
        assert_eq!((&a.name, &a.sides), (&b.name, &b.sides));
    }
    assert_eq!(bound.outputs.len(), 50);
    let fast = build_fast_graph_state(&m);
    assert_eq!((fast.inputs.len(), fast.outputs.len()), (12, 9));
}

#[test]
fn paths() {
    assert_eq!(slow_path(1, true), SlowPath::Bound);
    assert_eq!(slow_path(1, false), SlowPath::Fresh { seed_bound: false });
    assert_eq!(slow_path(2, true), SlowPath::Fresh { seed_bound: true });
    assert_eq!(slow_path(0, true), SlowPath::Fresh { seed_bound: true });
    assert_eq!(fast_path(true, true), FastPath::Bound { clear: true });
    assert_eq!(fast_path(true, false), FastPath::Fresh);
}

#[test]
fn the_last_row() {
    assert_eq!(last_row(&[1, 2, 3, 4, 5, 6], 3, 2), vec![5, 6]);
    assert_eq!(last_row(&[1, 2, 3], 1, 3), vec![1, 2, 3]);
    assert_eq!(last_row::<u8>(&[], 4, 0), Vec::<u8>::new());
}
