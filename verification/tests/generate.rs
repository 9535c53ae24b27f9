use audio8_runtime::generate::{
    code_of_semantic, Action, Event, Generation, GenerationError,
};
use audio8_runtime::grid::CodeGrid;
use audio8_runtime::manifest::RuntimeManifest;
use audio8_runtime::prompt::PromptError;
use audio8_runtime::runtime::{ArkTtsRuntime, SynthesisError};
use audio8_runtime::session::{
    session_plan, ExecutionProviderChoice, FastPath, LoadOptions, Model, SlowPath,
};
use audio8_runtime::tokenizer::TokenizerError;

fn manifest() -> RuntimeManifest {
    RuntimeManifest {
        max_seq_len: 20,
        num_layers: 2,
        num_fast_layers: 1,
        num_codebooks: 3,
        n_local_heads: 2,
        fast_n_local_heads: 1,
        head_dim: 4,
        fast_head_dim: 2,
        semantic_begin_id: 100,
        semantic_end_id: 107,
        im_end_id: 50,
        codebook_size: 8,
        codec_hop_length: 2048,
        slow_logits_layout: None,
    }
}

fn grid(g: &CodeGrid) -> Vec<Vec<i64>> {
    (0..g.dim().0).map(|r| g.row(r)).collect()
}

/// Plays a whole generation: semantic tokens from a list, codes from a counter.
/// Gives back the slow positions with their columns, and the fast calls.
fn play(
    g: &mut Generation,
    semantics: &[i64],
) -> (Vec<(usize, Vec<i64>)>, Vec<(i64, usize)>, usize) {
    let mut slow = Vec::new();
    let mut fast = Vec::new();
    let mut next = 0usize;
    let mut code = 0i64;
    let mut opened = 0usize;
    loop {
        match g.next_action() {
            Action::RunPrompt { len } => {
                assert_eq!(slow.len(), 0);
                assert!(len > 0);
                g.advance(Event::Ran);
            }
            Action::DrawSemantic => {
                g.advance(Event::Drawn(semantics[next]));
                next += 1;
            }
            Action::OpenFrame => {
                opened += 1;
                g.advance(Event::Ran);
            }
            Action::DrawCode { code: last, position } => {
                fast.push((last, position));
                code += 1;
                g.advance(Event::Drawn(code));
            }
            Action::RunSlow { column, position } => {
                slow.push((position, column));
                g.advance(Event::Ran);
            }
            Action::Stop => return (slow, fast, opened),
        }
    }
}

#[test]
fn frames_until_the_stop_token() {
    let mut g = Generation::start(&manifest(), 5, 100).unwrap();
    let (slow, fast, opened) = play(&mut g, &[103, 107, 50]);
    assert!(g.is_done());
    assert_eq!(opened, 2);
    assert_eq!(slow, vec![(5, vec![103, 3, 1, 2]), (6, vec![107, 7, 3, 4])]);
    assert_eq!(fast, vec![(3, 1), (1, 2), (7, 1), (3, 2)]);
    assert_eq!(g.recent(), &vec![103, 107]);
    let codes = g.finish().unwrap();
    assert_eq!(grid(&codes), vec![vec![3, 7], vec![1, 3], vec![2, 4]]);
}

#[test]
fn the_last_frame_is_not_run_through_the_slow_model() {
    let mut g = Generation::start(&manifest(), 5, 2).unwrap();
    let (slow, _, opened) = play(&mut g, &[101, 102, 103]);
    assert_eq!(opened, 2);
    assert_eq!(slow.len(), 1);
    assert_eq!(slow[0].0, 5);
    assert_eq!(g.finish().unwrap().dim(), (3, 2));
}

#[test]
fn a_smaller_budget_cuts_the_utterance_short() {
    let mut long = Generation::start(&manifest(), 5, 6).unwrap();
    play(&mut long, &[101, 104, 102, 107, 50]);
    let whole = long.finish().unwrap();
    for m in 1..8usize {
        let mut short = Generation::start(&manifest(), 5, m).unwrap();
        play(&mut short, &[101, 104, 102, 107, 50]);
        let part = short.finish().unwrap();
        let kept = m.min(4);
        assert_eq!(part.dim(), (3, kept));
        for row in 0..3 {
            assert_eq!(part.row(row), whole.row(row)[..kept].to_vec());
        }
    }
}

#[test]
fn the_memory_bounds_the_frames() {
    let mut g = Generation::start(&manifest(), 17, 100).unwrap();
    let (slow, _, opened) = play(&mut g, &[101; 30]);
    assert_eq!(opened, 3);
    assert_eq!(slow.iter().map(|s| s.0).collect::<Vec<_>>(), vec![17, 18]);
}

#[test]
fn only_ten_tokens_are_recent() {
    let mut m = manifest();
    m.max_seq_len = 100;
    let mut g = Generation::start(&m, 5, 12).unwrap();
    let semantics: Vec<i64> = (0..12).map(|i| 100 + i % 8).collect();
    play(&mut g, &semantics);
    assert_eq!(g.recent(), &semantics[2..].to_vec());
}

#[test]
fn one_codebook_needs_no_drawn_codes() {
    let mut m = manifest();
    m.num_codebooks = 1;
    let mut g = Generation::start(&m, 1, 2).unwrap();
    let (slow, fast, _) = play(&mut g, &[104, 99]);
    assert_eq!(slow, vec![(1, vec![104, 4])]);
    assert!(fast.is_empty());
    assert_eq!(grid(&g.finish().unwrap()), vec![vec![4, 0]]);
}

#[test]
fn no_frames_are_an_error() {
    let mut g = Generation::start(&manifest(), 5, 4).unwrap();
    play(&mut g, &[50]);
    assert!(matches!(g.finish(), Err(GenerationError::NoFrames)));
    let mut none = Generation::start(&manifest(), 5, 0).unwrap();
    play(&mut none, &[]);
    assert!(matches!(none.finish(), Err(GenerationError::NoFrames)));
}

#[test]
fn silence_needs_no_codebook_entries() {
    let mut m = manifest();
    m.codebook_size = 0;
    let mut g = Generation::start(&m, 5, 4).unwrap();
    play(&mut g, &[50]);
    assert!(matches!(g.finish(), Err(GenerationError::NoFrames)));
}

#[test]
fn long_prompts_are_refused() {
    assert!(matches!(
        Generation::start(&manifest(), 20, 4),
        Err(GenerationError::PromptTooLong { prompt_len: 20, max_seq_len: 20 })
    ));
    assert!(Generation::start(&manifest(), 19, 4).is_ok());
}

#[test]
fn first_codes_stay_within_the_codebook() {
    assert_eq!(code_of_semantic(103, 100, 8), 3);
    assert_eq!(code_of_semantic(99, 100, 8), 0);
    assert_eq!(code_of_semantic(108, 100, 8), 7);
    assert_eq!(code_of_semantic(i64::MIN, i64::MAX, 8), 0);
    assert_eq!(code_of_semantic(i64::MAX, i64::MIN, 4096), 4095);
}

const TOKENIZER: &str = "{\"version\":\"1.0\",\"truncation\":null,\"padding\":null,\
    \"added_tokens\":[],\"normalizer\":null,\"pre_tokenizer\":null,\"post_processor\":null,\
    \"decoder\":null,\"model\":{\"type\":\"WordLevel\",\"vocab\":{\"?\":9},\"unk_token\":\"?\"}}";

#[test]
fn a_request_starts_with_its_prompt() {
    let rt = ArkTtsRuntime::load(manifest(), TOKENIZER).unwrap();
    assert!(!rt.is_random());
    assert_eq!(rt.sizes().max_seq_len, 20);
    let codes = CodeGrid::from_cells(3, 2, vec![1, 2, 3, 4, 5, 6]).unwrap();
    let (prompt, mut g) = rt.synthesize_no_reference("Hello", "Voice", &codes, 3).unwrap();
    assert_eq!(prompt.dim(), (1, 4, 11));
    assert_eq!(prompt.row(0), vec![9, 9, 9, 9, 101, 102, 9, 9, 9, 9, 9]);
    match g.next_action() {
        Action::RunPrompt { len } => assert_eq!(len, 11),
        other => panic!("{:?}", other),
    }
    let (slow, _, _) = play(&mut g, &[100, 101, 102]);
    assert_eq!(slow[0].0, 11);
    let spoken = g.finish().unwrap();
    let input = rt.decode_codes(&spoken);
    assert_eq!(input.dim(), (1, 3, 3));
    assert_eq!(input.row(0), spoken.row(0));
    assert_eq!(input.row(2), spoken.row(2));
}

#[test]
fn requests_fail_as_their_parts_do() {
    let rt = ArkTtsRuntime::load(manifest(), TOKENIZER).unwrap();
    let wrong = CodeGrid::from_cells(2, 1, vec![1, 2]).unwrap();
    assert!(matches!(
        rt.synthesize_no_reference("a", "b", &wrong, 3),
        Err(SynthesisError::Prompt(PromptError::CodeShape { codebooks: 3, rows: 2, cols: 1 }))
    ));
    let long = CodeGrid::from_cells(3, 11, vec![0; 33]).unwrap();
    assert!(matches!(
        rt.synthesize_no_reference("a", "b", &long, 3),
        Err(SynthesisError::Generation(GenerationError::PromptTooLong {
            prompt_len: 20,
            max_seq_len: 20
        }))
    ));
    assert!(matches!(
        ArkTtsRuntime::load(manifest(), "no"),
        Err(PromptError::Tokenizer(TokenizerError::Load(_)))
    ));
    let mute = TOKENIZER.replace("\"unk_token\":\"?\"", "\"unk_token\":\"!\"");
    let rt = ArkTtsRuntime::load(manifest(), &mute).unwrap();
    let codes = CodeGrid::from_cells(3, 1, vec![1, 2, 3]).unwrap();
    assert!(matches!(
        rt.synthesize_no_reference("a", "b", &codes, 3),
        Err(SynthesisError::Prompt(PromptError::Tokenizer(TokenizerError::Encode(_))))
    ));
}

#[test]
fn only_cuda_binds_tensors() {
    let options = |ep| LoadOptions { ep, verbose: false, cuda_graph: true, cuda_only: false };
    let on_cpu = options(ExecutionProviderChoice::Cpu);
    let on_cuda = options(ExecutionProviderChoice::Cuda);
    let cpu = ArkTtsRuntime::load_with_ep(manifest(), TOKENIZER, on_cpu).unwrap();
    let cuda = ArkTtsRuntime::load_with_ep(manifest(), TOKENIZER, on_cuda).unwrap();
    for model in [Model::Slow, Model::Fast, Model::Decoder] {
        assert_eq!(cpu.session(model), session_plan(on_cpu));
        assert_eq!(cuda.session(model), session_plan(on_cuda));
        assert_eq!(cpu.session(model).intra_threads, None);
        assert_eq!(cuda.session(model).intra_threads, Some(2));
        assert!(cuda.session(model).cuda.unwrap().tf32);
    }
    assert_eq!(cpu.slow_step(1), SlowPath::Fresh { seed_bound: false });
    assert_eq!(cuda.slow_step(1), SlowPath::Bound);
    assert_eq!(cuda.slow_step(7), SlowPath::Fresh { seed_bound: true });
    assert_eq!(cpu.fast_step(true), FastPath::Fresh);
    assert_eq!(cuda.fast_step(true), FastPath::Bound { clear: true });
    assert_eq!(cuda.fast_step(false), FastPath::Bound { clear: false });
}

#[test]
fn empty_caches_have_the_sides_of_the_manifest() {
    let rt = ArkTtsRuntime::load(manifest(), TOKENIZER).unwrap();
    let slow = rt.empty_slow_caches();
    assert_eq!(slow.len(), 4);
    assert!(slow.iter().all(|c| c.shape() == (1, 2, 20, 4)));
    let fast = rt.empty_fast_caches();
    assert_eq!(fast.len(), 2);
    assert!(fast.iter().all(|c| c.shape() == (1, 1, 3, 2) && c.to_values() == vec![0; 6]));
}

#[test]
fn a_recent_token_is_replaced_by_the_second_draw() {
    let rt = ArkTtsRuntime::load(manifest(), TOKENIZER).unwrap();
    // Places 0 to 7 are the semantic tokens, place 8 ends the speech.
    assert_eq!(rt.sample_semantic(3, 5, &vec![101]), 103);
    assert_eq!(rt.sample_semantic(3, 5, &vec![101, 103]), 105);
    assert_eq!(rt.sample_semantic(3, 3, &vec![103]), 103);
    assert_eq!(rt.sample_semantic(8, 5, &vec![50]), 50);
    assert_eq!(rt.sample_semantic(3, 8, &vec![103]), 50);
}
