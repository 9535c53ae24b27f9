use audio8_runtime::capture::{
    after_end_capture, after_instantiate, debug_n_layers, enable_graph_mempool_reuse, next_try,
    CaptureOp, CaptureStatus, ChainedFastStepGraph, EndFault, FastStepGraph, GraphUnit, PoolOp,
    RetryStatus, TryOp, Unit, CAPTURE_RETRY_ATTEMPTS,
};
use audio8_runtime::grid::BatchTensor;
use audio8_runtime::model::{
    causal_mask, device_cuda_or_cpu, repeat_interleave_heads, Attention, DeviceChoice, FastAr,
    FastSides, SlowAr, TableRow,
};

#[test]
fn attention_splits_its_projection() {
    let call = SlowAr::attention().forward(5, 5);
    assert_eq!(call.split.q, (0, 896));
    assert_eq!(call.split.k, (896, 128));
    assert_eq!(call.split.v, (1024, 128));
    assert_eq!(call.repeats, 7);
    assert!(call.masked);
    assert!(!SlowAr::attention().forward(1, 9).masked);
    let other = Attention { n_head: 3, n_local_heads: 2, head_dim: 5 };
    assert_eq!(other.forward(1, 1).repeats, 1);
}

#[test]
fn heads_are_repeated_side_by_side() {
    assert_eq!(repeat_interleave_heads(2, 3), vec![0, 0, 0, 1, 1, 1]);
    assert_eq!(repeat_interleave_heads(2, 1), vec![0, 1]);
    assert_eq!(repeat_interleave_heads(2, 0), Vec::<usize>::new());
}

#[test]
fn causal_masks() {
    assert_eq!(causal_mask(0), Vec::<bool>::new());
    assert_eq!(
        causal_mask(3),
        vec![true, false, false, true, true, false, true, true, true]
    );
}

fn ids(row0: i64, code: i64) -> BatchTensor {
    let mut rows = vec![vec![row0]];
    for _ in 0..10 {
        rows.push(vec![code]);
    }
    BatchTensor::from_rows(&rows, 1)
}

#[test]
fn columns_are_embedded_by_table_rows() {
    let (slow, _) = SlowAr::load();
    let one = |row0: i64, code: i64| {
        let tensor = ids(row0, code);
        slow.embed(&vec![&tensor]).unwrap().pop().unwrap()
    };
    let plan = one(151678, 4095);
    assert_eq!(plan.tokens, vec![151678]);
    assert_eq!(plan.gated, vec![true]);
    assert_eq!(plan.codes.len(), 10);
    assert_eq!(plan.codes[0], vec![4095]);
    assert_eq!(plan.codes[9], vec![40959]);
    assert_eq!(one(155773, 0).gated, vec![true]);
    assert_eq!(one(155774, 0).gated, vec![false]);
    assert_eq!(one(151677, 0).gated, vec![false]);
    let odd = one(-1, -5000);
    assert_eq!(odd.tokens, vec![u32::MAX]);
    assert_eq!(odd.codes[0], vec![0]);
    assert_eq!(odd.codes[2], vec![3192]);
    assert_eq!(one((1i64 << 32) + 5, i64::MAX).tokens, vec![5]);
    assert_eq!(one(0, i64::MAX).codes[3], vec![u32::MAX]);
    let short = BatchTensor::from_rows(&vec![vec![1], vec![2]], 1);
    let (first, second) = (ids(7, 1), ids(151680, 2));
    let plans = slow.embed(&vec![&first, &second]).unwrap();
    assert_eq!(plans.len(), 2);
    assert_eq!((plans[0].tokens[0], plans[1].tokens[0]), (7, 151680));
    assert_eq!((plans[0].gated[0], plans[1].gated[0]), (false, true));
    assert_eq!(slow.embed(&vec![&first, &short]).unwrap_err().rows, 2);
    assert!(slow.embed(&vec![]).unwrap().is_empty());
}

#[test]
fn slow_steps() {
    let (slow, weights) = SlowAr::load();
    assert_eq!(weights.len(), 196);
    let caches = SlowAr::new_kv_caches(1);
    assert_eq!(caches.len(), 24);
    assert_eq!(caches[23].shape(), (1, 2, 2048, 64));
    let plan = slow.slow_step(3, &[0, 1, 2], caches.len()).unwrap();
    assert_eq!((plan.start, plan.len, plan.causal_len, plan.last, plan.layers), (0, 3, 3, 2, 24));
    assert_eq!(plan.logits, (3, 4097));
    assert_eq!(plan.hidden, (3, 1, 896));
    let plan = slow.slow_step(1, &[2047], 5).unwrap();
    assert_eq!((plan.start, plan.len, plan.causal_len, plan.layers), (2047, 1, 2048, 5));
    let e = slow.slow_step(1, &[2047, 2048], 24).unwrap_err();
    assert_eq!((e.position, e.max_len), (2048, 2048));
}

#[test]
fn fast_steps() {
    let (fast, weights) = FastAr::load();
    assert_eq!(weights.len(), 31);
    assert_eq!(fast.num_layers(), 4);
    assert_eq!(FastAr::new_kv_caches(2)[0].shape(), (2, 2, 10, 64));
    let plan = fast.fast_step(2, 9, 4).unwrap();
    assert_eq!((plan.position, plan.causal_len, plan.layers, plan.head), (9, 10, 4, true));
    assert_eq!(plan.result, FastSides::Rows(2, 4096));
    assert_eq!(fast.fast_output_head(2), FastSides::Rows(2, 4096));
    assert_eq!(fast.fast_step(1, 10, 4).unwrap_err().max_len, 10);
    let plan = fast.fast_step_n_layers(3, 0, 4, 2).unwrap();
    assert_eq!((plan.layers, plan.head), (2, false));
    assert_eq!(plan.result, FastSides::Rows(3, 896));
    let plan = fast.fast_step_n_layers(1, 0, 3, 4).unwrap();
    assert_eq!((plan.layers, plan.head), (3, true));
    let plan = fast.fast_step_n_layers(1, 0, 4, 9).unwrap();
    assert_eq!((plan.layers, plan.head), (4, false));
    let plan = fast.fast_layer_step(5, 3, 2).unwrap();
    assert_eq!((plan.first_layer, plan.layers, plan.causal_len, plan.head), (3, 1, 3, false));
    assert_eq!(plan.result, FastSides::Positions(5, 1, 896));
    assert!(fast.fast_layer_step(1, 0, 10).is_err());
    assert_eq!(fast.embed_token(4095).unwrap(), TableRow::Row(4095));
    assert_eq!(fast.embed_token(u32::MAX).unwrap(), TableRow::Zeros);
    let e = fast.embed_token(4096).unwrap_err();
    assert_eq!((e.token, e.size), (4096, 4096));
}

#[test]
fn a_step_is_its_layers_in_turn() {
    let (fast, _) = FastAr::load();
    // A layer writes the hidden state into its cache, and adds up what it attends to.
    let run = |first: usize, layers: usize, position: usize, seen: usize, h: u64, c: &mut Vec<Vec<u64>>| {
        let mut h = h;
        for layer in first..first + layers {
            c[layer][position] = h + layer as u64;
            h = 3 * h + c[layer][..seen].iter().sum::<u64>();
        }
        h
    };
    for n in 0..5 {
        let start: Vec<Vec<u64>> = (0..4u64).map(|l| (0..10u64).map(|p| 10 * l + p).collect()).collect();
        let (mut whole, mut single) = (start.clone(), start.clone());
        let plan = fast.fast_step_n_layers(1, 6, 4, n).unwrap();
        assert_eq!(plan.head, n == 4);
        let a = run(plan.first_layer, plan.layers, plan.position, plan.causal_len, 5, &mut whole);
        let mut b = 5;
        for layer in 0..n {
            let one = fast.fast_layer_step(1, layer, 6).unwrap();
            assert!(!one.head);
            b = run(one.first_layer, one.layers, one.position, one.causal_len, b, &mut single);
        }
        assert_eq!((a, &whole), (b, &single));
        assert_eq!(whole[n..], start[n..]);
    }
}

#[test]
fn devices() {
    assert_eq!(device_cuda_or_cpu(true, true), (DeviceChoice::Cuda, false));
    assert_eq!(device_cuda_or_cpu(true, false), (DeviceChoice::Cpu, true));
    assert_eq!(device_cuda_or_cpu(false, true), (DeviceChoice::Cpu, false));
    assert_eq!(device_cuda_or_cpu(false, false), (DeviceChoice::Cpu, false));
}

#[test]
fn a_recording_goes_through_its_operations() {
    let mut c = FastStepGraph::capture(false, 2);
    let mut ops = Vec::new();
    while c.status() == CaptureStatus::Running {
        ops.push(c.next_op());
        c.report(true);
    }
    assert_eq!(c.status(), CaptureStatus::Captured);
    assert_eq!(
        ops,
        vec![
            CaptureOp::FindStream, CaptureOp::GuardPool, CaptureOp::MakeInput, CaptureOp::WarmUp,
            CaptureOp::WarmUp, CaptureOp::WarmUp, CaptureOp::Synchronize, CaptureOp::MakeOutput,
            CaptureOp::ZeroPosition(0), CaptureOp::ZeroPosition(1), CaptureOp::Begin,
            CaptureOp::Record, CaptureOp::End, CaptureOp::Upload,
        ]
    );
    let mut unit = GraphUnit::try_capture_once();
    assert_eq!(unit.next_op(), CaptureOp::MakeInput);
    unit.report(false);
    assert_eq!(unit.status(), CaptureStatus::Failed(CaptureOp::MakeInput));
}

#[test]
fn without_a_stream_nothing_is_run() {
    let mut c = FastStepGraph::capture(true, 4);
    assert_eq!(c.next_op(), CaptureOp::FindStream);
    c.report(false);
    assert_eq!(c.status(), CaptureStatus::Failed(CaptureOp::FindStream));
}

#[test]
fn a_failed_recording_is_still_stopped() {
    for end_ok in [true, false] {
        let mut c = FastStepGraph::capture(true, 0);
        while c.next_op() != CaptureOp::Record {
            c.report(true);
        }
        c.report(false);
        assert_eq!(c.status(), CaptureStatus::Running);
        assert_eq!(c.next_op(), CaptureOp::End);
        c.report(end_ok);
        assert_eq!(c.status(), CaptureStatus::Failed(CaptureOp::Record));
    }
    let mut c = FastStepGraph::capture(true, 0);
    while c.next_op() != CaptureOp::End {
        c.report(true);
    }
    c.report(false);
    assert_eq!(c.status(), CaptureStatus::Failed(CaptureOp::End));
}

#[test]
fn tries_are_limited() {
    let mut s = GraphUnit::capture();
    let mut n = 0;
    while matches!(s, RetryStatus::Trying { .. }) {
        s = next_try(s, false);
        n += 1;
    }
    assert_eq!(n, CAPTURE_RETRY_ATTEMPTS);
    assert_eq!(s, RetryStatus::GivenUp { last: TryOp::Record });
    let mut s = GraphUnit::capture();
    for ok in [true, true, false, true, true, true] {
        s = next_try(s, ok);
    }
    assert_eq!(s, RetryStatus::Captured { attempt: 1 });
    assert_eq!(next_try(s, false), s);
}

#[test]
fn ends_of_recordings() {
    assert_eq!(after_end_capture(true, true), Ok(()));
    assert_eq!(after_end_capture(false, true), Err(EndFault::EndCapture));
    assert_eq!(after_end_capture(true, false), Err(EndFault::NoGraph));
    assert_eq!(after_instantiate(true, true), Ok(()));
    assert_eq!(after_instantiate(false, false), Err(EndFault::Instantiate));
    assert_eq!(after_instantiate(true, false), Err(EndFault::Destroy));
}

#[test]
fn pools_and_layers_and_chains() {
    assert!(enable_graph_mempool_reuse(false).is_empty());
    let ops = enable_graph_mempool_reuse(true);
    assert_eq!(ops[0], PoolOp::Find);
    assert_eq!(ops[4], PoolOp::ReleaseThreshold(u64::MAX));
    assert_eq!(ops.len(), 5);
    assert_eq!(debug_n_layers(None), None);
    assert_eq!(debug_n_layers(Some("2")), Some(2));
    assert_eq!(debug_n_layers(Some("two")), None);
    assert_eq!(debug_n_layers(Some(&format!("{}", usize::MAX))), None);
    assert_eq!(
        ChainedFastStepGraph::capture(4, 4),
        vec![Unit::Layer(0), Unit::Layer(1), Unit::Layer(2), Unit::Layer(3), Unit::Head]
    );
    assert_eq!(ChainedFastStepGraph::capture(4, 1), vec![Unit::Layer(0), Unit::Head]);
}
