//! Recording device work as graphs: the order of the operations, what happens
//! where one of them fails, and how often a recording is tried again.

use vstd::prelude::*;

use crate::chars::to_chars;
use crate::digits::{parse_usize, parsed_usize};

verus! {

/// How often the work is run before it is recorded.
pub const WARMUP_ITERATIONS: usize = 3;

/// How often a recording is tried.
pub const CAPTURE_RETRY_ATTEMPTS: usize = 20;

/// An operation on the way to a recorded graph.
#[derive(Debug, Clone, Copy, PartialEq, Eq, Structural)]
pub enum CaptureOp {
    /// Find the stream of the device, which must be a CUDA device.
    FindStream,
    /// Let the memory pool keep what a graph frees.
    GuardPool,
    /// Make the input buffer.
    MakeInput,
    /// Run the work without recording it.
    WarmUp,
    /// Wait for the device.
    Synchronize,
    /// Make the output buffer, in the form of what the work gave.
    MakeOutput,
    /// Clear the position in the cache with that number.
    ZeroPosition(usize),
    /// Start recording.
    Begin,
    /// Run the work while recording, and copy what it gives to the output
    /// buffer.
    Record,
    /// Stop recording, and make the graph ready to run.
    End,
    /// Hand the graph to the device.
    Upload,
}

/// The operations that record some work. The stream is found first unless it is
/// there already, a guard of the memory pool is set where it is asked for, and
/// the position is cleared in so many caches before the recording.
pub open spec fn capture_script(find: bool, guard: bool, caches: nat) -> Seq<CaptureOp> {
    (if find {
        seq![CaptureOp::FindStream]
    } else {
        Seq::empty()
    }) + (if guard {
        seq![CaptureOp::GuardPool]
    } else {
        Seq::empty()
    }) + seq![CaptureOp::MakeInput] + Seq::new(
        WARMUP_ITERATIONS as nat,
        |i: int| CaptureOp::WarmUp,
    ) + seq![CaptureOp::Synchronize, CaptureOp::MakeOutput] + Seq::new(
        caches,
        |i: int| CaptureOp::ZeroPosition(i as usize),
    ) + seq![CaptureOp::Begin, CaptureOp::Record, CaptureOp::End, CaptureOp::Upload]
}

/// How a recording stands.
#[derive(Debug, Clone, Copy, PartialEq, Eq, Structural)]
pub enum CaptureStatus {
    /// The next operation of the script is due.
    Running,
    /// The graph is there.
    Captured,
    /// There is no graph, and the error of that operation says why.
    Failed(CaptureOp),
}

/// How far a recording has come.
pub ghost struct CaptureView {
    pub script: Seq<CaptureOp>,
    /// The number of operations that were performed.
    pub done: int,
    /// Whether the work failed while it was recorded.
    pub record_failed: bool,
    pub status: CaptureStatus,
}

/// How a recording stands after its next operation was performed, with success
/// or not. A recording that was started is stopped even where the work failed,
/// and the error of the work then counts before all later ones.
pub open spec fn after_op(v: CaptureView, ok: bool) -> CaptureView {
    let op = v.script[v.done];
    let done = v.done + 1;
    if op == CaptureOp::Record {
        CaptureView { done, record_failed: !ok, ..v }
    } else if v.record_failed {
        CaptureView { done, status: CaptureStatus::Failed(CaptureOp::Record), ..v }
    } else if !ok {
        CaptureView { done, status: CaptureStatus::Failed(op), ..v }
    } else if done == v.script.len() {
        CaptureView { done, status: CaptureStatus::Captured, ..v }
    } else {
        CaptureView { done, ..v }
    }
}

/// A recording in work.
pub struct Capture {
    script: Vec<CaptureOp>,
    done: usize,
    record_failed: bool,
    status: CaptureStatus,
}

impl View for Capture {
    type V = CaptureView;

    closed spec fn view(&self) -> CaptureView {
        CaptureView {
            script: self.script@,
            done: self.done as int,
            record_failed: self.record_failed,
            status: self.status,
        }
    }
}

impl Capture {
    /// An operation is due as long as the recording runs.
    pub open spec fn wf(self) -> bool {
        &&& 0 <= self@.done <= self@.script.len()
        &&& self@.status == CaptureStatus::Running ==> self@.done < self@.script.len()
        &&& self@.script.len() >= 2
        &&& self@.script[self@.script.len() - 1] == CaptureOp::Upload
        &&& forall|i: int|
            0 <= i < self@.script.len() - 1 ==> #[trigger] self@.script[i] != CaptureOp::Upload
    }

    /// A recording that is about to start.
    pub fn start(find: bool, guard: bool, caches: usize) -> (r: Capture)
        ensures
            r.wf(),
            r@ == (CaptureView {
                script: capture_script(find, guard, caches as nat),
                done: 0,
                record_failed: false,
                status: CaptureStatus::Running,
            }),
    {
        let mut script: Vec<CaptureOp> = Vec::new();
        if find {
            script.push(CaptureOp::FindStream);
        }
        if guard {
            script.push(CaptureOp::GuardPool);
        }
        script.push(CaptureOp::MakeInput);
        let ghost first = script@;
        for i in 0..WARMUP_ITERATIONS
            invariant
                script@ == first + Seq::new(i as nat, |k: int| CaptureOp::WarmUp),
        {
            script.push(CaptureOp::WarmUp);
            assert(script@ =~= first + Seq::new((i + 1) as nat, |k: int| CaptureOp::WarmUp));
        }
        script.push(CaptureOp::Synchronize);
        script.push(CaptureOp::MakeOutput);
        let ghost second = script@;
        for i in 0..caches
            invariant
                script@ == second + Seq::new(
                    i as nat,
                    |k: int| CaptureOp::ZeroPosition(k as usize),
                ),
        {
            script.push(CaptureOp::ZeroPosition(i));
            assert(script@ =~= second + Seq::new(
                (i + 1) as nat,
                |k: int| CaptureOp::ZeroPosition(k as usize),
            ));
        }
        script.push(CaptureOp::Begin);
        script.push(CaptureOp::Record);
        script.push(CaptureOp::End);
        script.push(CaptureOp::Upload);
        assert(script@ =~= capture_script(find, guard, caches as nat));
        Capture { script, done: 0, record_failed: false, status: CaptureStatus::Running }
    }

    pub fn status(&self) -> (r: CaptureStatus)
        ensures
            r == self@.status,
    {
        self.status
    }

    /// The operation that is due.
    pub fn next_op(&self) -> (r: CaptureOp)
        requires
            self.wf(),
            self@.status == CaptureStatus::Running,
        ensures
            r == self@.script[self@.done],
    {
        self.script[self.done]
    }

    /// Takes in whether the operation that was due succeeded.
    pub fn report(&mut self, ok: bool)
        requires
            old(self).wf(),
            old(self)@.status == CaptureStatus::Running,
        ensures
            final(self).wf(),
            final(self)@ == after_op(old(self)@, ok),
    {
        let op = self.script[self.done];
        let total: usize = self.script.len();
        assert(self.done < total);
        self.done = self.done + 1;
        match op {
            CaptureOp::Record => {
                self.record_failed = !ok;
            },
            _ => {
                if self.record_failed {
                    self.status = CaptureStatus::Failed(CaptureOp::Record);
                } else if !ok {
                    self.status = CaptureStatus::Failed(op);
                } else if self.done == total {
                    self.status = CaptureStatus::Captured;
                }
            },
        }
    }
}

/// A step of the fast model at one position, recorded as one graph.
pub struct FastStepGraph;

impl FastStepGraph {
    /// The recording of a step that uses so many caches.
    pub fn capture(skip_pool_guard: bool, caches: usize) -> (r: Capture)
        ensures
            r.wf(),
            r@ == (CaptureView {
                script: capture_script(true, !skip_pool_guard, caches as nat),
                done: 0,
                record_failed: false,
                status: CaptureStatus::Running,
            }),
    {
        Capture::start(true, !skip_pool_guard, caches)
    }
}

/// One graph of several that are run one after the other.
pub struct GraphUnit;

impl GraphUnit {
    /// One attempt at its recording: the stream is found, the pool is guarded and
    /// the caches are cleared beforehand.
    pub fn try_capture_once() -> (r: Capture)
        ensures
            r.wf(),
            r@ == (CaptureView {
                script: capture_script(false, false, 0),
                done: 0,
                record_failed: false,
                status: CaptureStatus::Running,
            }),
    {
        Capture::start(false, false, 0)
    }

    /// The start of a series of attempts.
    pub fn capture() -> (r: RetryStatus)
        ensures
            r == first_try(),
    {
        RetryStatus::Trying { attempt: 0, op: TryOp::Record }
    }
}

/// The places of the last operations in a script.
proof fn lemma_script_end(find: bool, guard: bool, caches: nat)
    ensures
        ({
            let script = capture_script(find, guard, caches);
            let n = script.len() as int;
            &&& n == (if find { 1int } else { 0 }) + (if guard { 1int } else { 0 }) + 1 + WARMUP_ITERATIONS + 2 + caches + 4
            &&& script[n - 4] == CaptureOp::Begin
            &&& script[n - 3] == CaptureOp::Record
            &&& script[n - 2] == CaptureOp::End
            &&& script[n - 1] == CaptureOp::Upload
            &&& forall|i: int|
                0 <= i < n - 4 ==> #[trigger] script[i] != CaptureOp::Begin && script[i]
                    != CaptureOp::Record && script[i] != CaptureOp::End && script[i]
                    != CaptureOp::Upload
        }),
{
}

/// Once recording has started, it is stopped: the work comes next, and then the
/// stop, whether the work succeeded or not.
pub proof fn law_recording_is_always_stopped(find: bool, guard: bool, caches: nat, done: int, ok: bool)
    requires
        0 <= done < capture_script(find, guard, caches).len(),
        capture_script(find, guard, caches)[done] == CaptureOp::Begin,
    ensures
        ({
            let script = capture_script(find, guard, caches);
            let begun = after_op(
                CaptureView {
                    script,
                    done,
                    record_failed: false,
                    status: CaptureStatus::Running,
                },
                true,
            );
            let worked = after_op(begun, ok);
            &&& begun.status == CaptureStatus::Running
            &&& script[begun.done] == CaptureOp::Record
            &&& worked.status == CaptureStatus::Running
            &&& script[worked.done] == CaptureOp::End
        }),
{
    lemma_script_end(find, guard, caches);
}

/// Where the work fails while it is recorded, that is the error that counts,
/// whatever stopping gives.
pub proof fn law_error_of_the_work_counts_first(v: CaptureView, end_ok: bool)
    requires
        v.status == CaptureStatus::Running,
        v.record_failed,
        0 <= v.done < v.script.len(),
        v.script[v.done] != CaptureOp::Record,
    ensures
        after_op(v, end_ok).status == CaptureStatus::Failed(CaptureOp::Record),
{
}

/// The view after the first `n` operations all succeeded.
pub open spec fn all_succeeded(find: bool, guard: bool, caches: nat, n: nat) -> CaptureView
    decreases n,
{
    if n == 0 {
        CaptureView {
            script: capture_script(find, guard, caches),
            done: 0,
            record_failed: false,
            status: CaptureStatus::Running,
        }
    } else {
        after_op(all_succeeded(find, guard, caches, (n - 1) as nat), true)
    }
}

/// Where every operation succeeds, the graph is there after the last one and
/// not before.
pub proof fn law_success_captures(find: bool, guard: bool, caches: nat, n: nat)
    requires
        n <= capture_script(find, guard, caches).len(),
    ensures
        all_succeeded(find, guard, caches, n).done == n,
        all_succeeded(find, guard, caches, n).script == capture_script(find, guard, caches),
        !all_succeeded(find, guard, caches, n).record_failed,
        all_succeeded(find, guard, caches, n).status == if n == capture_script(find, guard, caches).len() {
            CaptureStatus::Captured
        } else {
            CaptureStatus::Running
        },
    decreases n,
{
    lemma_script_end(find, guard, caches);
    if n > 0 {
        law_success_captures(find, guard, caches, (n - 1) as nat);
    }
}

/// On a device without a stream the recording of a step ends at its first
/// operation, before any work that writes to the caches.
pub proof fn law_no_stream_no_work(guard: bool, caches: nat, i: int)
    requires
        0 <= i < capture_script(true, guard, caches).len(),
    ensures
        ({
            let script = capture_script(true, guard, caches);
            let start = CaptureView {
                script,
                done: 0,
                record_failed: false,
                status: CaptureStatus::Running,
            };
            let stopped = after_op(start, false);
            &&& stopped.done == 1
            &&& stopped.status == CaptureStatus::Failed(CaptureOp::FindStream)
            &&& writes_caches(script[i]) ==> i >= stopped.done
        }),
{
}

/// The operations that write to the caches.
pub open spec fn writes_caches(op: CaptureOp) -> bool {
    op == CaptureOp::WarmUp || op == CaptureOp::Record || op is ZeroPosition
}

/// What stopping a recording can fail at.
#[derive(Debug, Clone, Copy, PartialEq, Eq, Structural)]
pub enum EndFault {
    /// The driver could not stop the recording.
    EndCapture,
    /// Nothing was recorded.
    NoGraph,
    /// The driver could not make the graph ready.
    Instantiate,
    /// The driver could not release what it made it from.
    Destroy,
}

/// Whether to go on once the driver has stopped the recording.
pub fn after_end_capture(end_ok: bool, has_graph: bool) -> (r: Result<(), EndFault>)
    ensures
        r is Ok <==> end_ok && has_graph,
        r == Err::<(), _>(EndFault::EndCapture) <==> !end_ok,
        r == Err::<(), _>(EndFault::NoGraph) <==> end_ok && !has_graph,
{
    if !end_ok {
        return Err(EndFault::EndCapture);
    }
    if !has_graph {
        return Err(EndFault::NoGraph);
    }
    Ok(())
}

/// What counts of making the graph ready and releasing its source; both are done
/// in any case.
pub fn after_instantiate(instantiate_ok: bool, destroy_ok: bool) -> (r: Result<(), EndFault>)
    ensures
        r is Ok <==> instantiate_ok && destroy_ok,
        r == Err::<(), _>(EndFault::Instantiate) <==> !instantiate_ok,
        r == Err::<(), _>(EndFault::Destroy) <==> instantiate_ok && !destroy_ok,
{
    if !instantiate_ok {
        return Err(EndFault::Instantiate);
    }
    if !destroy_ok {
        return Err(EndFault::Destroy);
    }
    Ok(())
}

/// A setting of the memory pool of a device.
#[derive(Debug, Clone, Copy, PartialEq, Eq, Structural)]
pub enum PoolOp {
    /// Find the pool.
    Find,
    /// Reuse memory along the dependencies of events.
    FollowEvents,
    /// Reuse memory where that happens to be possible.
    Opportunistic,
    /// Reuse memory and add dependencies for it.
    InternalDependencies,
    /// Keep that much memory in the pool.
    ReleaseThreshold(u64),
}

/// The settings under which graphs can reuse memory. A device whose memory is
/// not allocated in the order of a stream needs none.
pub open spec fn pool_script(has_async_alloc: bool) -> Seq<PoolOp> {
    if has_async_alloc {
        seq![
            PoolOp::Find,
            PoolOp::FollowEvents,
            PoolOp::Opportunistic,
            PoolOp::InternalDependencies,
            PoolOp::ReleaseThreshold(u64::MAX),
        ]
    } else {
        Seq::empty()
    }
}

/// The settings, in the order in which they are made; the first that fails ends
/// them.
pub fn enable_graph_mempool_reuse(has_async_alloc: bool) -> (r: Vec<PoolOp>)
    ensures
        r@ == pool_script(has_async_alloc),
{
    let mut ops: Vec<PoolOp> = Vec::new();
    if has_async_alloc {
        ops.push(PoolOp::Find);
        ops.push(PoolOp::FollowEvents);
        ops.push(PoolOp::Opportunistic);
        ops.push(PoolOp::InternalDependencies);
        ops.push(PoolOp::ReleaseThreshold(u64::MAX));
    }
    assert(ops@ =~= pool_script(has_async_alloc));
    ops
}

/// The number of layers that a text asks for, where it names one that is not the
/// greatest number there is.
pub open spec fn layers_asked(text: Option<Seq<char>>) -> Option<usize> {
    match text {
        None => None,
        Some(t) => match parsed_usize(t) {
            Some(n) => if n == usize::MAX {
                None
            } else {
                Some(n)
            },
            None => None,
        },
    }
}

/// How many layers are to be recorded: all of them, where nothing is given.
pub fn debug_n_layers(text: Option<&str>) -> (r: Option<usize>)
    ensures
        r == layers_asked(
            match text {
                Some(t) => Some(t@),
                None => None::<Seq<char>>,
            },
        ),
{
    match text {
        None => None,
        Some(t) => {
            let chars = to_chars(t);
            match parse_usize(&chars) {
                Some(n) => if n == usize::MAX {
                    None
                } else {
                    Some(n)
                },
                None => None,
            }
        },
    }
}

/// What an attempt at a recording does next.
#[derive(Debug, Clone, Copy, PartialEq, Eq, Structural)]
pub enum TryOp {
    /// Record, with new buffers.
    Record,
    /// Make an input for a trial run.
    MakeProbe,
    /// Run the graph once, and wait for the device.
    Probe,
}

/// How a series of attempts stands.
#[derive(Debug, Clone, Copy, PartialEq, Eq, Structural)]
pub enum RetryStatus {
    /// An operation of attempt number `attempt` is due.
    Trying { attempt: usize, op: TryOp },
    /// That attempt succeeded.
    Captured { attempt: usize },
    /// No attempt is left; the latest error is that of the given operation.
    GivenUp { last: TryOp },
}

/// The start of a series of attempts.
pub open spec fn first_try() -> RetryStatus {
    RetryStatus::Trying { attempt: 0, op: TryOp::Record }
}

/// How a series stands after an operation, with success or not. Any failure
/// costs the whole attempt; the next one starts from scratch.
pub open spec fn after_try(s: RetryStatus, ok: bool) -> RetryStatus {
    match s {
        RetryStatus::Trying { attempt, op } => if ok {
            match op {
                TryOp::Record => RetryStatus::Trying { attempt, op: TryOp::MakeProbe },
                TryOp::MakeProbe => RetryStatus::Trying { attempt, op: TryOp::Probe },
                TryOp::Probe => RetryStatus::Captured { attempt },
            }
        } else if attempt + 1 < CAPTURE_RETRY_ATTEMPTS {
            RetryStatus::Trying { attempt: (attempt + 1) as usize, op: TryOp::Record }
        } else {
            RetryStatus::GivenUp { last: op }
        },
        _ => s,
    }
}

/// Takes in whether the operation that was due succeeded.
pub fn next_try(s: RetryStatus, ok: bool) -> (r: RetryStatus)
    ensures
        r == after_try(s, ok),
{
    match s {
        RetryStatus::Trying { attempt, op } => {
            if ok {
                match op {
                    TryOp::Record => RetryStatus::Trying { attempt, op: TryOp::MakeProbe },
                    TryOp::MakeProbe => RetryStatus::Trying { attempt, op: TryOp::Probe },
                    TryOp::Probe => RetryStatus::Captured { attempt },
                }
            } else if attempt < CAPTURE_RETRY_ATTEMPTS - 1 {
                RetryStatus::Trying { attempt: attempt + 1, op: TryOp::Record }
            } else {
                RetryStatus::GivenUp { last: op }
            }
        },
        RetryStatus::Captured { attempt } => RetryStatus::Captured { attempt },
        RetryStatus::GivenUp { last } => RetryStatus::GivenUp { last },
    }
}

/// How a series stands after `results`, one after the other.
pub open spec fn tried(results: Seq<bool>) -> RetryStatus
    decreases results.len(),
{
    if results.len() == 0 {
        first_try()
    } else {
        after_try(tried(results.drop_last()), results.last())
    }
}

/// An attempt has three operations at most, so a series comes to its end.
pub proof fn law_tries_end(results: Seq<bool>)
    requires
        results.len() >= 3 * CAPTURE_RETRY_ATTEMPTS,
    ensures
        !(tried(results) is Trying),
{
    lemma_tries(results);
}

proof fn lemma_tries(results: Seq<bool>)
    ensures
        match tried(results) {
            RetryStatus::Trying { attempt, op } => {
                &&& attempt < CAPTURE_RETRY_ATTEMPTS
                &&& results.len() <= 3 * attempt + match op {
                    TryOp::Record => 0int,
                    TryOp::MakeProbe => 1,
                    TryOp::Probe => 2,
                }
            },
            RetryStatus::Captured { attempt } => attempt < CAPTURE_RETRY_ATTEMPTS,
            RetryStatus::GivenUp { .. } => true,
        },
    decreases results.len(),
{
    if results.len() > 0 {
        lemma_tries(results.drop_last());
    }
}

/// A series succeeds only by a recording, an input and a trial run that all
/// succeed one after the other.
pub proof fn law_captured_only_after_a_good_probe(results: Seq<bool>)
    requires
        tried(results) is Captured,
        !(tried(results.drop_last()) is Captured),
    ensures
        results.len() >= 3,
        results[results.len() - 1],
        results[results.len() - 2],
        results[results.len() - 3],
{
    let r1 = results.drop_last();
    let r2 = r1.drop_last();
    let r3 = r2.drop_last();
    assert(tried(r1) matches RetryStatus::Trying { op, .. } && op == TryOp::Probe);
    assert(r1.len() > 0);
    assert(results.last());
    assert(tried(r2) matches RetryStatus::Trying { op, .. } && op == TryOp::MakeProbe);
    assert(r1.last());
    assert(r2.len() > 0);
    assert(tried(r3) matches RetryStatus::Trying { op, .. } && op == TryOp::Record);
    assert(r2.last());
}

/// One of the graphs that a step of the fast model is cut into.
#[derive(Debug, Clone, Copy, PartialEq, Eq, Structural)]
pub enum Unit {
    /// The layer with that number.
    Layer(usize),
    /// What comes behind the layers.
    Head,
}

/// The graphs of a step, in the order in which they are recorded and run: one
/// for each layer that has a cache, and one for the head.
pub open spec fn chain(layers: nat, caches: nat) -> Seq<Unit> {
    let n = if caches < layers {
        caches
    } else {
        layers
    };
    Seq::new(n, |i: int| Unit::Layer(i as usize)).push(Unit::Head)
}

/// A step of the fast model at one position, recorded as a chain of graphs.
pub struct ChainedFastStepGraph;

impl ChainedFastStepGraph {
    /// The graphs of a step of `layers` layers with so many caches.
    pub fn capture(layers: usize, caches: usize) -> (r: Vec<Unit>)
        ensures
            r@ == chain(layers as nat, caches as nat),
    {
        chained_units(layers, caches)
    }
}

fn chained_units(layers: usize, caches: usize) -> (r: Vec<Unit>)
    ensures
        r@ == chain(layers as nat, caches as nat),
{
    let n: usize = if caches < layers {
        caches
    } else {
        layers
    };
    let mut units: Vec<Unit> = Vec::new();
    for i in 0..n
        invariant
            units@ == Seq::new(i as nat, |k: int| Unit::Layer(k as usize)),
    {
        units.push(Unit::Layer(i));
        assert(units@ =~= Seq::new((i + 1) as nat, |k: int| Unit::Layer(k as usize)));
    }
    units.push(Unit::Head);
    assert(units@ =~= chain(layers as nat, caches as nat));
    units
}

/// A chain runs every layer once, in order, and the head last.
pub proof fn law_chain_is_the_whole_step(layers: nat, caches: nat, i: int)
    requires
        layers <= caches,
        layers <= usize::MAX,
        0 <= i <= layers,
    ensures
        chain(layers, caches).len() == layers + 1,
        chain(layers, caches)[i] == if i < layers {
            Unit::Layer(i as usize)
        } else {
            Unit::Head
        },
{
}

/// The operations of a recording, place by place: the stream where it is to be
/// found, the guard where it is asked for, the input, three runs beforehand, a
/// wait, the output, a cleared position for each cache, and the recording itself.
pub proof fn law_script_goes_in_order(skip_pool_guard: bool, caches: usize, c: Capture, i: int)
    requires
        call_ensures(FastStepGraph::capture, (skip_pool_guard, caches), c),
        0 <= i < caches,
    ensures
        ({
            let s = c@.script;
            let at: int = if skip_pool_guard {
                1
            } else {
                2
            };
            &&& c@.done == 0 && c@.status == CaptureStatus::Running && !c@.record_failed
            &&& s.len() == at + 10 + caches
            &&& s[0] == CaptureOp::FindStream
            &&& !skip_pool_guard ==> s[1] == CaptureOp::GuardPool
            &&& s[at] == CaptureOp::MakeInput
            &&& s[at + 1] == CaptureOp::WarmUp && s[at + 2] == CaptureOp::WarmUp && s[at + 3]
                == CaptureOp::WarmUp
            &&& s[at + 4] == CaptureOp::Synchronize
            &&& s[at + 5] == CaptureOp::MakeOutput
            &&& s[at + 6 + i] == CaptureOp::ZeroPosition(i as usize)
            &&& s[at + 6 + caches] == CaptureOp::Begin
            &&& s[at + 7 + caches] == CaptureOp::Record
            &&& s[at + 8 + caches] == CaptureOp::End
            &&& s[at + 9 + caches] == CaptureOp::Upload
        }),
{
}

/// One graph of a chain is recorded without what the chain does once for all.
pub proof fn law_unit_script_goes_in_order(c: Capture)
    requires
        call_ensures(GraphUnit::try_capture_once, (), c),
    ensures
        c@.done == 0 && c@.status == CaptureStatus::Running && !c@.record_failed,
        c@.script == seq![
            CaptureOp::MakeInput,
            CaptureOp::WarmUp,
            CaptureOp::WarmUp,
            CaptureOp::WarmUp,
            CaptureOp::Synchronize,
            CaptureOp::MakeOutput,
            CaptureOp::Begin,
            CaptureOp::Record,
            CaptureOp::End,
            CaptureOp::Upload,
        ],
{
    assert(c@.script =~= seq![
        CaptureOp::MakeInput,
        CaptureOp::WarmUp,
        CaptureOp::WarmUp,
        CaptureOp::WarmUp,
        CaptureOp::Synchronize,
        CaptureOp::MakeOutput,
        CaptureOp::Begin,
        CaptureOp::Record,
        CaptureOp::End,
        CaptureOp::Upload,
    ]);
}

/// A failure ends a recording at once and is the error that counts, unless it is
/// that of the work itself, which is looked at once the recording is stopped. A
/// success leads to the next operation, and behind the last one to the graph.
pub proof fn law_first_failure_ends_a_recording(v: CaptureView, ok: bool)
    requires
        v.status == CaptureStatus::Running,
        0 <= v.done < v.script.len(),
    ensures
        after_op(v, ok).done == v.done + 1,
        after_op(v, ok).script == v.script,
        v.script[v.done] != CaptureOp::Record && !v.record_failed && !ok ==> after_op(v, ok).status
            == CaptureStatus::Failed(v.script[v.done]),
        v.script[v.done] == CaptureOp::Record ==> after_op(v, ok).status == CaptureStatus::Running
            && after_op(v, ok).record_failed == !ok,
        !v.record_failed && ok && v.script[v.done] != CaptureOp::Record ==> after_op(v, ok).status
            == if v.done + 1 == v.script.len() {
            CaptureStatus::Captured
        } else {
            CaptureStatus::Running
        },
        v.script[v.done] != CaptureOp::Record ==> after_op(v, ok).record_failed == v.record_failed,
{
}

/// A recording is tried twenty times. Each try records, makes an input and runs
/// the graph once; a failure of any of these starts the next try from scratch,
/// and that of the last try ends the series with its operation as the error. A
/// series that has ended stays as it is.
pub proof fn law_twenty_tries(attempt: usize, op: TryOp, s: RetryStatus, ok: bool)
    ensures
        first_try() == (RetryStatus::Trying { attempt: 0, op: TryOp::Record }),
        after_try(RetryStatus::Trying { attempt, op: TryOp::Record }, true) == (
        RetryStatus::Trying { attempt, op: TryOp::MakeProbe }),
        after_try(RetryStatus::Trying { attempt, op: TryOp::MakeProbe }, true) == (
        RetryStatus::Trying { attempt, op: TryOp::Probe }),
        after_try(RetryStatus::Trying { attempt, op: TryOp::Probe }, true) == (
        RetryStatus::Captured { attempt }),
        attempt < 19 ==> after_try(RetryStatus::Trying { attempt, op }, false) == (
        RetryStatus::Trying { attempt: (attempt + 1) as usize, op: TryOp::Record }),
        attempt >= 19 ==> after_try(RetryStatus::Trying { attempt, op }, false) == (
        RetryStatus::GivenUp { last: op }),
        !(s is Trying) ==> after_try(s, ok) == s,
{
}

/// The settings of the pool, in their order, where the device needs them; none
/// where it does not.
pub proof fn law_pool_keeps_its_memory(has_async_alloc: bool, r: Vec<PoolOp>)
    requires
        call_ensures(enable_graph_mempool_reuse, (has_async_alloc,), r),
    ensures
        !has_async_alloc ==> r@.len() == 0,
        has_async_alloc ==> r@ == seq![
            PoolOp::Find,
            PoolOp::FollowEvents,
            PoolOp::Opportunistic,
            PoolOp::InternalDependencies,
            PoolOp::ReleaseThreshold(0xffff_ffff_ffff_ffff),
        ],
{
}

/// The layers that are asked for are the number that a text states, unless it is
/// the greatest there is; any other text asks for nothing.
pub proof fn law_layers_are_asked_by_number(t: Seq<char>)
    ensures
        layers_asked(None) is None,
        parsed_usize(t) is None ==> layers_asked(Some(t)) is None,
        parsed_usize(t) matches Some(n) ==> (n < usize::MAX ==> layers_asked(Some(t)) == Some(n))
            && (n == usize::MAX ==> layers_asked(Some(t)) is None),
{
}

/// Only layers with a cache are in a chain: as many as there are of both, in
/// order, and the head behind them.
pub proof fn law_chain_stops_at_the_caches(layers: usize, caches: usize, r: Vec<Unit>, i: int)
    requires
        call_ensures(ChainedFastStepGraph::capture, (layers, caches), r),
        0 <= i < r@.len(),
    ensures
        layers <= caches ==> r@.len() == layers + 1,
        caches <= layers ==> r@.len() == caches + 1,
        i < r@.len() - 1 ==> r@[i] == Unit::Layer(i as usize),
        i == r@.len() - 1 ==> r@[i] == Unit::Head,
{
}

} // verus!
