//! The codec decoder as a chain of steps, whatever its weights are: that it is
//! causal, how long its output is, and what a debugging run of it shows.

use vstd::prelude::*;

use crate::codec::{audio_sides, conv_len, conv_plan, debug_stages, dilations, in_window, rates};
use crate::codec::{law_hop_is_the_product_of_strides, stretch, stretch_plan, transposed_len};
use crate::codec::{CausalConv1d, CausalConvTranspose1d, HIDDEN, HOP, N_TRANSFORMER_LAYERS, WINDOW};

verus! {

/// `f` is causal and stretches its input by `factor`: what it makes of a part of
/// the input from the start on is the part of the output that belongs to it.
pub open spec fn is_causal<X>(f: spec_fn(Seq<X>) -> Seq<X>, factor: nat) -> bool {
    forall|xs: Seq<X>, n: int|
        0 <= n <= xs.len() ==> (#[trigger] f(xs.take(n))) == f(xs).take(n * factor) && f(xs).len()
            == xs.len() * factor
}

/// What a causal convolution makes of a sequence, whatever it computes from the
/// inputs that its kernel covers.
pub open spec fn conv_applied<X>(
    c: CausalConv1d,
    zero: X,
    kernel: spec_fn(Seq<X>) -> X,
    xs: Seq<X>,
) -> Seq<X> {
    let padded = Seq::new(c.left_pad as nat, |i: int| zero) + xs;
    Seq::new(
        conv_len(padded.len() as int, c.kernel as int, c.dilation as int) as nat,
        |i: int| kernel(Seq::new(c.kernel as nat, |k: int| padded[i + k * c.dilation])),
    )
}

/// A convolution with its padding is causal, and keeps the length.
pub proof fn law_convolutions_are_causal<X>(
    c: CausalConv1d,
    zero: X,
    kernel: spec_fn(Seq<X>) -> X,
)
    requires
        c.wf(),
    ensures
        is_causal(|xs: Seq<X>| conv_applied(c, zero, kernel, xs), 1),
{
    let f = |xs: Seq<X>| conv_applied(c, zero, kernel, xs);
    assert forall|xs: Seq<X>, n: int| 0 <= n <= xs.len() implies (#[trigger] f(xs.take(n))) == f(
        xs,
    ).take(n * 1) && f(xs).len() == xs.len() * 1 by {
        let part = xs.take(n);
        let zeros = Seq::new(c.left_pad as nat, |i: int| zero);
        let padded = zeros + xs;
        let padded_part = zeros + part;
        assert(conv_applied(c, zero, kernel, part).len() == n);
        assert forall|i: int| 0 <= i < n implies conv_applied(c, zero, kernel, part)[i]
            == conv_applied(c, zero, kernel, xs)[i] by {
            let a = Seq::new(c.kernel as nat, |k: int| padded_part[i + k * c.dilation]);
            let b = Seq::new(c.kernel as nat, |k: int| padded[i + k * c.dilation]);
            assert forall|k: int| 0 <= k < c.kernel implies a[k] == b[k] by {
                assert(0 <= k * c.dilation <= (c.kernel - 1) * c.dilation) by (nonlinear_arith)
                    requires
                        0 <= k <= c.kernel - 1,
                ;
            }
            assert(a =~= b);
        }
        assert(f(part) =~= f(xs).take(n));
    }
}

/// What a transposed convolution makes of a sequence before it is cut, whatever
/// it computes from the inputs whose kernels reach an output: those from
/// `(o - kernel) / stride + 1` on to `o / stride`, as far as they exist.
pub open spec fn transposed_raw<X>(
    c: CausalConvTranspose1d,
    kernel: spec_fn(int, Seq<X>) -> X,
    xs: Seq<X>,
) -> Seq<X> {
    Seq::new(
        transposed_len(xs.len() as int, c.kernel as int, c.stride as int) as nat,
        |o: int| kernel(o, reaching(c, xs, o)),
    )
}

/// The inputs whose kernels reach output `o`.
pub open spec fn reaching<X>(c: CausalConvTranspose1d, xs: Seq<X>, o: int) -> Seq<X> {
    let first = if o < c.kernel {
        0
    } else {
        (o - c.kernel) / c.stride as int + 1
    };
    let behind = if o / c.stride as int + 1 < xs.len() {
        o / c.stride as int + 1
    } else {
        xs.len() as int
    };
    if first <= behind {
        xs.subrange(first, behind)
    } else {
        Seq::empty()
    }
}

/// What a transposed convolution makes of a sequence once it is cut.
pub open spec fn transposed_applied<X>(
    c: CausalConvTranspose1d,
    kernel: spec_fn(int, Seq<X>) -> X,
    xs: Seq<X>,
) -> Seq<X> {
    if xs.len() == 0 {
        Seq::empty()
    } else {
        let raw = transposed_raw(c, kernel, xs);
        raw.take(raw.len() - c.trim)
    }
}

/// A transposed convolution with its cut is causal, and stretches by its stride.
pub proof fn law_transposed_convolutions_are_causal<X>(
    c: CausalConvTranspose1d,
    kernel: spec_fn(int, Seq<X>) -> X,
)
    requires
        c.wf(),
        c.stride >= 1,
    ensures
        is_causal(|xs: Seq<X>| transposed_applied(c, kernel, xs), c.stride as nat),
{
    let f = |xs: Seq<X>| transposed_applied(c, kernel, xs);
    let s = c.stride as int;
    assert forall|xs: Seq<X>, n: int| 0 <= n <= xs.len() implies (#[trigger] f(xs.take(n))) == f(
        xs,
    ).take(n * c.stride as nat) && f(xs).len() == xs.len() * c.stride as nat by {
        let part = xs.take(n);
        lemma_transposed_len(c, kernel, xs);
        lemma_transposed_len(c, kernel, part);
        assert(0 <= n * s <= xs.len() * s) by (nonlinear_arith)
            requires
                0 <= n <= xs.len(),
                s >= 1,
        ;
        let cut = transposed_applied(c, kernel, part);
        let whole = transposed_applied(c, kernel, xs);
        assert forall|o: int| 0 <= o < n * s implies #[trigger] cut[o] == whole[o] by {
            assert(o / s < n) by (nonlinear_arith)
                requires
                    0 <= o < n * s,
                    s >= 1,
            ;
            assert(o / s >= 0) by (nonlinear_arith)
                requires
                    0 <= o,
                    s >= 1,
            ;
            if o >= c.kernel {
                assert(0 <= (o - c.kernel) / s) by (nonlinear_arith)
                    requires
                        o >= c.kernel,
                        s >= 1,
                ;
            }
            assert(reaching(c, part, o) =~= reaching(c, xs, o));
            assert(o < xs.len() * s);
        }
        assert(cut =~= whole.take(n * s));
    }
}

proof fn lemma_transposed_len<X>(
    c: CausalConvTranspose1d,
    kernel: spec_fn(int, Seq<X>) -> X,
    xs: Seq<X>,
)
    requires
        c.wf(),
        c.stride >= 1,
    ensures
        transposed_applied(c, kernel, xs).len() == xs.len() * c.stride,
        forall|o: int|
            0 <= o < xs.len() * c.stride ==> #[trigger] transposed_applied(c, kernel, xs)[o]
                == kernel(o, reaching(c, xs, o)),
{
    let n = xs.len() as int;
    let s = c.stride as int;
    assert((n - 1) * s == n * s - s) by (nonlinear_arith);
    assert(n * s >= 0) by (nonlinear_arith)
        requires
            n >= 0,
            s >= 1,
    ;
    if n > 0 {
        assert(n * s >= s) by (nonlinear_arith)
            requires
                n >= 1,
                s >= 1,
        ;
    }
}

/// What attention within a window makes of a sequence, whatever it computes from
/// the positions that a position sees.
pub open spec fn window_applied<X>(
    window: int,
    attend: spec_fn(int, Seq<X>) -> X,
    xs: Seq<X>,
) -> Seq<X> {
    Seq::new(
        xs.len(),
        |i: int|
            attend(
                i,
                xs.subrange(
                    if i - window + 1 > 0 {
                        i - window + 1
                    } else {
                        0
                    },
                    i + 1,
                ),
            ),
    )
}

/// Attention within a window is causal, and keeps the length; what a position
/// attends to is what the mask lets it see.
pub proof fn law_windowed_attention_is_causal<X>(
    window: int,
    attend: spec_fn(int, Seq<X>) -> X,
    i: int,
    j: int,
)
    requires
        window >= 1,
        0 <= j,
    ensures
        is_causal(|xs: Seq<X>| window_applied(window, attend, xs), 1),
        in_window(i, j, window) <==> (if i - window + 1 > 0 {
            i - window + 1
        } else {
            0
        }) <= j < i + 1,
{
    let f = |xs: Seq<X>| window_applied(window, attend, xs);
    assert forall|xs: Seq<X>, n: int| 0 <= n <= xs.len() implies (#[trigger] f(xs.take(n))) == f(
        xs,
    ).take(n * 1) && f(xs).len() == xs.len() * 1 by {
        let part = xs.take(n);
        let cut = window_applied(window, attend, part);
        let whole = window_applied(window, attend, xs);
        assert forall|k: int| 0 <= k < n implies #[trigger] cut[k] == whole[k] by {
            let from = if k - window + 1 > 0 {
                k - window + 1
            } else {
                0
            };
            assert(part.subrange(from, k + 1) =~= xs.subrange(from, k + 1));
        }
        assert(cut =~= whole.take(n));
    }
}

/// What is computed for each position by itself is causal.
pub proof fn law_pointwise_is_causal<X>(g: spec_fn(X) -> X)
    ensures
        is_causal(|xs: Seq<X>| xs.map_values(g), 1),
{
    let f = |xs: Seq<X>| xs.map_values(g);
    assert forall|xs: Seq<X>, n: int| 0 <= n <= xs.len() implies (#[trigger] f(xs.take(n))) == f(
        xs,
    ).take(n * 1) && f(xs).len() == xs.len() * 1 by {
        assert(f(xs.take(n)) =~= f(xs).take(n));
    }
}

/// One causal stage behind another is causal, and the factors multiply.
pub proof fn law_causal_stages_compose<X>(
    f: spec_fn(Seq<X>) -> Seq<X>,
    a: nat,
    g: spec_fn(Seq<X>) -> Seq<X>,
    b: nat,
)
    requires
        is_causal(f, a),
        is_causal(g, b),
    ensures
        is_causal(|xs: Seq<X>| g(f(xs)), a * b),
{
    let h = |xs: Seq<X>| g(f(xs));
    assert forall|xs: Seq<X>, n: int| 0 <= n <= xs.len() implies (#[trigger] h(xs.take(n))) == h(
        xs,
    ).take(n * (a * b)) && h(xs).len() == xs.len() * (a * b) by {
        let ys = f(xs);
        assert(f(xs.take(n)) == ys.take(n * a));
        assert(ys.len() == xs.len() * a);
        assert(0 <= n * a <= ys.len()) by (nonlinear_arith)
            requires
                0 <= n <= xs.len(),
                ys.len() == xs.len() * a,
                a >= 0,
        ;
        assert(g(ys.take(n * a)) == g(ys).take((n * a) * b));
        assert((n * a) * b == n * (a * b)) by (nonlinear_arith);
        assert((xs.len() * a) * b == xs.len() * (a * b)) by (nonlinear_arith);
    }
}

/// A causal stage that keeps the length, with a way round it, is causal.
pub proof fn law_residual_is_causal<X>(f: spec_fn(Seq<X>) -> Seq<X>, join: spec_fn(X, X) -> X)
    requires
        is_causal(f, 1),
    ensures
        is_causal(|xs: Seq<X>| Seq::new(xs.len(), |i: int| join(f(xs)[i], xs[i])), 1),
{
    let h = |xs: Seq<X>| Seq::new(xs.len(), |i: int| join(f(xs)[i], xs[i]));
    assert forall|xs: Seq<X>, n: int| 0 <= n <= xs.len() implies (#[trigger] h(xs.take(n))) == h(
        xs,
    ).take(n * 1) && h(xs).len() == xs.len() * 1 by {
        let part = xs.take(n);
        assert(f(part) == f(xs).take(n * 1));
        assert(f(xs).len() == xs.len() * 1);
        assert(h(part) =~= h(xs).take(n));
    }
}

/// A step of the decoder: its plan, and what it computes, whatever that is.
#[verifier::reject_recursive_types(X)]
pub ghost enum Step<X> {
    /// Each position by itself.
    Each(spec_fn(X) -> X),
    Conv(CausalConv1d, spec_fn(Seq<X>) -> X),
    Stretch(CausalConvTranspose1d, spec_fn(int, Seq<X>) -> X),
    /// Attention within a window of so many positions.
    Window(int, spec_fn(int, Seq<X>) -> X),
    /// Steps with a way round them.
    Around(Seq<Step<X>>, spec_fn(X, X) -> X),
    /// Steps one behind the other.
    Chain(Seq<Step<X>>),
}

/// What a step makes of a sequence; convolutions pad with `zero`.
pub open spec fn step_applied<X>(step: Step<X>, zero: X, xs: Seq<X>) -> Seq<X>
    decreases step, 0nat,
{
    match step {
        Step::Each(g) => xs.map_values(g),
        Step::Conv(c, kernel) => conv_applied(c, zero, kernel, xs),
        Step::Stretch(c, kernel) => transposed_applied(c, kernel, xs),
        Step::Window(window, attend) => window_applied(window, attend, xs),
        Step::Around(inner, join) => {
            let ys = steps_applied(inner, inner.len(), zero, xs);
            Seq::new(xs.len(), |i: int| join(ys[i], xs[i]))
        },
        Step::Chain(inner) => steps_applied(inner, inner.len(), zero, xs),
    }
}

/// What the first `n` steps make of a sequence, one behind the other.
pub open spec fn steps_applied<X>(steps: Seq<Step<X>>, n: nat, zero: X, xs: Seq<X>) -> Seq<X>
    decreases steps, n,
{
    if n == 0 || n > steps.len() {
        xs
    } else {
        step_applied(steps[n - 1], zero, steps_applied(steps, (n - 1) as nat, zero, xs))
    }
}

/// By how much a step stretches a sequence.
pub open spec fn step_factor<X>(step: Step<X>) -> nat
    decreases step, 0nat,
{
    match step {
        Step::Stretch(c, _) => c.stride as nat,
        Step::Chain(inner) => steps_factor(inner, inner.len()),
        _ => 1,
    }
}

/// By how much the first `n` steps stretch a sequence.
pub open spec fn steps_factor<X>(steps: Seq<Step<X>>, n: nat) -> nat
    decreases steps, n,
{
    if n == 0 || n > steps.len() {
        1
    } else {
        steps_factor(steps, (n - 1) as nat) * step_factor(steps[n - 1])
    }
}

/// The plans are sound, and steps with a way round them keep the length.
pub open spec fn step_valid<X>(step: Step<X>) -> bool
    decreases step, 0nat,
{
    match step {
        Step::Each(_) => true,
        Step::Conv(c, _) => c.wf(),
        Step::Stretch(c, _) => c.wf() && c.stride >= 1,
        Step::Window(window, _) => window >= 1,
        Step::Around(inner, _) => steps_valid(inner, inner.len()) && steps_factor(
            inner,
            inner.len(),
        ) == 1,
        Step::Chain(inner) => steps_valid(inner, inner.len()),
    }
}

/// The first `n` steps are valid.
pub open spec fn steps_valid<X>(steps: Seq<Step<X>>, n: nat) -> bool
    decreases steps, n,
{
    if n == 0 || n > steps.len() {
        true
    } else {
        steps_valid(steps, (n - 1) as nat) && step_valid(steps[n - 1])
    }
}

/// Every valid step is causal, and stretches by its factor.
pub proof fn law_steps_are_causal<X>(step: Step<X>, zero: X)
    requires
        step_valid(step),
    ensures
        is_causal(|xs: Seq<X>| step_applied(step, zero, xs), step_factor(step)),
    decreases step, 0nat,
{
    let h = |xs: Seq<X>| step_applied(step, zero, xs);
    match step {
        Step::Each(g) => {
            law_pointwise_is_causal(g);
            let f = |xs: Seq<X>| xs.map_values(g);
            lemma_same_is_causal(f, h, 1);
        },
        Step::Conv(c, kernel) => {
            law_convolutions_are_causal(c, zero, kernel);
            let f = |xs: Seq<X>| conv_applied(c, zero, kernel, xs);
            lemma_same_is_causal(f, h, 1);
        },
        Step::Stretch(c, kernel) => {
            law_transposed_convolutions_are_causal(c, kernel);
            let f = |xs: Seq<X>| transposed_applied(c, kernel, xs);
            lemma_same_is_causal(f, h, c.stride as nat);
        },
        Step::Window(window, attend) => {
            law_windowed_attention_is_causal(window, attend, 0, 0);
            let f = |xs: Seq<X>| window_applied(window, attend, xs);
            lemma_same_is_causal(f, h, 1);
        },
        Step::Around(inner, join) => {
            lemma_steps_are_causal(inner, inner.len(), zero);
            let f = |xs: Seq<X>| steps_applied(inner, inner.len(), zero, xs);
            law_residual_is_causal(f, join);
            let g = |xs: Seq<X>| Seq::new(xs.len(), |i: int| join(f(xs)[i], xs[i]));
            assert forall|xs: Seq<X>| #[trigger] g(xs) == h(xs) by {
                assert(g(xs) =~= h(xs));
            }
            lemma_same_is_causal(g, h, 1);
        },
        Step::Chain(inner) => {
            lemma_steps_are_causal(inner, inner.len(), zero);
            let f = |xs: Seq<X>| steps_applied(inner, inner.len(), zero, xs);
            lemma_same_is_causal(f, h, steps_factor(inner, inner.len()));
        },
    }
}

proof fn lemma_same_is_causal<X>(
    f: spec_fn(Seq<X>) -> Seq<X>,
    g: spec_fn(Seq<X>) -> Seq<X>,
    factor: nat,
)
    requires
        is_causal(f, factor),
        forall|xs: Seq<X>| #[trigger] f(xs) == g(xs),
    ensures
        is_causal(g, factor),
{
    assert forall|xs: Seq<X>, n: int| 0 <= n <= xs.len() implies (#[trigger] g(xs.take(n))) == g(
        xs,
    ).take(n * factor) && g(xs).len() == xs.len() * factor by {
        assert(f(xs.take(n)) == f(xs).take(n * factor));
        assert(f(xs) == g(xs));
    }
}

proof fn lemma_steps_are_causal<X>(steps: Seq<Step<X>>, n: nat, zero: X)
    requires
        n <= steps.len(),
        steps_valid(steps, n),
    ensures
        is_causal(|xs: Seq<X>| steps_applied(steps, n, zero, xs), steps_factor(steps, n)),
    decreases steps, n,
{
    let h = |xs: Seq<X>| steps_applied(steps, n, zero, xs);
    if n == 0 {
        assert forall|xs: Seq<X>, k: int| 0 <= k <= xs.len() implies (#[trigger] h(xs.take(k)))
            == h(xs).take(k * steps_factor(steps, n)) && h(xs).len() == xs.len() * steps_factor(
            steps,
            n,
        ) by {
            assert(steps_factor(steps, n) == 1);
            assert(k * steps_factor(steps, n) == k);
            assert(h(xs) == xs && h(xs.take(k)) == xs.take(k));
        }
    } else {
        let m = (n - 1) as nat;
        let last = steps[m as int];
        lemma_steps_are_causal(steps, m, zero);
        law_steps_are_causal(last, zero);
        let f = |xs: Seq<X>| steps_applied(steps, m, zero, xs);
        let g = |xs: Seq<X>| step_applied(last, zero, xs);
        law_causal_stages_compose(f, steps_factor(steps, m), g, step_factor(last));
        let both = |xs: Seq<X>| g(f(xs));
        lemma_same_is_causal(both, h, steps_factor(steps, n));
    }
}

/// What a residual unit of the vocoder computes.
#[verifier::reject_recursive_types(X)]
pub ghost struct UnitWork<X> {
    pub snake1: spec_fn(X) -> X,
    pub conv1: spec_fn(Seq<X>) -> X,
    pub snake2: spec_fn(X) -> X,
    pub conv2: spec_fn(Seq<X>) -> X,
    pub join: spec_fn(X, X) -> X,
}

/// A residual unit: two activations and two convolutions, with a way round them.
pub open spec fn unit_step<X>(dilation: usize, work: UnitWork<X>) -> Step<X> {
    Step::Around(
        seq![
            Step::Each(work.snake1),
            Step::Conv(conv_plan(7, dilation, 1), work.conv1),
            Step::Each(work.snake2),
            Step::Conv(conv_plan(1, 1, 1), work.conv2),
        ],
        work.join,
    )
}

/// What a block of the vocoder computes.
#[verifier::reject_recursive_types(X)]
pub ghost struct BlockWork<X> {
    pub snake: spec_fn(X) -> X,
    pub conv_tr: spec_fn(int, Seq<X>) -> X,
    pub units: spec_fn(int) -> UnitWork<X>,
}

/// A block of the vocoder: an activation, a transposed convolution, and a
/// residual unit for each dilation.
pub open spec fn block_step<X>(stride: usize, work: BlockWork<X>) -> Step<X> {
    Step::Chain(
        seq![
            Step::Each(work.snake),
            Step::Stretch(stretch_plan((2 * stride) as usize, stride), work.conv_tr),
            unit_step(dilations()[0], (work.units)(0)),
            unit_step(dilations()[1], (work.units)(1)),
            unit_step(dilations()[2], (work.units)(2)),
        ],
    )
}

/// What a layer of the transformer computes.
#[verifier::reject_recursive_types(X)]
pub ghost struct LayerParts<X> {
    pub attention_norm: spec_fn(X) -> X,
    pub attend: spec_fn(int, Seq<X>) -> X,
    pub attention_join: spec_fn(X, X) -> X,
    pub ffn_norm: spec_fn(X) -> X,
    pub feed_forward: spec_fn(X) -> X,
    pub ffn_join: spec_fn(X, X) -> X,
}

/// A layer of the transformer: attention within the window and a feed-forward
/// net, each with a way round it.
pub open spec fn layer_step<X>(work: LayerParts<X>) -> Step<X> {
    Step::Chain(
        seq![
            Step::Around(
                seq![Step::Each(work.attention_norm), Step::Window(WINDOW as int, work.attend)],
                work.attention_join,
            ),
            Step::Around(
                seq![Step::Each(work.ffn_norm), Step::Each(work.feed_forward)],
                work.ffn_join,
            ),
        ],
    )
}

/// What a stage that doubles the length computes.
#[verifier::reject_recursive_types(X)]
pub ghost struct DoublingWork<X> {
    pub conv_tr: spec_fn(int, Seq<X>) -> X,
    pub dwconv: spec_fn(Seq<X>) -> X,
    pub norm: spec_fn(X) -> X,
    pub pwconv1: spec_fn(X) -> X,
    pub pwconv2: spec_fn(X) -> X,
    pub join: spec_fn(X, X) -> X,
}

/// A stage that doubles the length: a transposed convolution, and a convolution
/// and two matrices with a way round them.
pub open spec fn doubling_step<X>(work: DoublingWork<X>) -> Step<X> {
    Step::Chain(
        seq![
            Step::Stretch(stretch_plan(2, 2), work.conv_tr),
            Step::Around(
                seq![
                    Step::Conv(conv_plan(7, 1, HIDDEN), work.dwconv),
                    Step::Each(work.norm),
                    Step::Each(work.pwconv1),
                    Step::Each(work.pwconv2),
                ],
                work.join,
            ),
        ],
    )
}

/// What the whole decoder computes.
#[verifier::reject_recursive_types(X)]
pub ghost struct CodecWork<X> {
    /// The sum of the entries of the codebooks.
    pub rvq: spec_fn(X) -> X,
    pub layers: spec_fn(int) -> LayerParts<X>,
    pub norm: spec_fn(X) -> X,
    pub upsample0: DoublingWork<X>,
    pub upsample1: DoublingWork<X>,
    pub conv1: spec_fn(Seq<X>) -> X,
    pub blocks: spec_fn(int) -> BlockWork<X>,
    pub snake: spec_fn(X) -> X,
    pub conv2: spec_fn(Seq<X>) -> X,
    pub tanh: spec_fn(X) -> X,
}

pub open spec fn layer_steps<X>(work: CodecWork<X>) -> Seq<Step<X>> {
    Seq::new(N_TRANSFORMER_LAYERS as nat, |i: int| layer_step((work.layers)(i)))
}

/// The blocks of the vocoder.
pub open spec fn block_steps<X>(work: CodecWork<X>) -> Seq<Step<X>> {
    Seq::new(rates().len(), |i: int| block_step(rates()[i], (work.blocks)(i)))
}

/// The transformer.
pub open spec fn post_step<X>(work: CodecWork<X>) -> Step<X> {
    Step::Chain(seq![Step::Chain(layer_steps(work)), Step::Each(work.norm)])
}

/// The decoder.
pub open spec fn decoder_step<X>(work: CodecWork<X>) -> Step<X> {
    Step::Chain(
        seq![
            Step::Each(work.rvq),
            post_step(work),
            doubling_step(work.upsample0),
            doubling_step(work.upsample1),
            vocoder_step(work),
        ],
    )
}

/// The vocoder.
pub open spec fn vocoder_step<X>(work: CodecWork<X>) -> Step<X> {
    Step::Chain(
        seq![
            Step::Conv(conv_plan(7, 1, 1), work.conv1),
            Step::Chain(block_steps(work)),
            Step::Each(work.snake),
            Step::Conv(conv_plan(7, 1, 1), work.conv2),
            Step::Each(work.tanh),
        ],
    )
}

/// The decoder is causal, whatever its weights are: later frames never change
/// the samples of earlier ones, and every frame gives as many samples as the hop
/// length says.
pub proof fn law_decoder_is_causal<X>(work: CodecWork<X>, zero: X, frames: Seq<X>, k: int)
    requires
        0 <= k <= frames.len(),
    ensures
        step_applied(decoder_step(work), zero, frames.take(k)) == step_applied(
            decoder_step(work),
            zero,
            frames,
        ).take(k * HOP),
        step_applied(decoder_step(work), zero, frames).len() == frames.len() * HOP,
{
    let d = decoder_step(work);
    lemma_decoder_step(work);
    law_steps_are_causal(d, zero);
    let h = |xs: Seq<X>| step_applied(d, zero, xs);
    assert(h(frames.take(k)) == h(frames).take(k * step_factor(d)));
}

proof fn lemma_step<X>(step: Step<X>)
    ensures
        step_factor(step) == match step {
            Step::Stretch(c, _) => c.stride as nat,
            Step::Chain(inner) => steps_factor(inner, inner.len()),
            _ => 1,
        },
        step_valid(step) == match step {
            Step::Each(_) => true,
            Step::Conv(c, _) => c.wf(),
            Step::Stretch(c, _) => c.wf() && c.stride >= 1,
            Step::Window(window, _) => window >= 1,
            Step::Around(inner, _) => steps_valid(inner, inner.len()) && steps_factor(
                inner,
                inner.len(),
            ) == 1,
            Step::Chain(inner) => steps_valid(inner, inner.len()),
        },
{
    reveal_with_fuel(step_factor, 2);
    reveal_with_fuel(step_valid, 2);
}

proof fn lemma_steps_valid<X>(steps: Seq<Step<X>>, n: nat)
    requires
        n <= steps.len(),
        forall|i: int| 0 <= i < n ==> step_valid(#[trigger] steps[i]),
    ensures
        steps_valid(steps, n),
    decreases n,
{
    reveal_with_fuel(steps_valid, 2);
    if n > 0 {
        lemma_steps_valid(steps, (n - 1) as nat);
    }
}

/// Where one step at most stretches, all of them stretch by its factor.
proof fn lemma_steps_factor<X>(steps: Seq<Step<X>>, n: nat, k: int)
    requires
        n <= steps.len(),
        forall|i: int| 0 <= i < n && i != k ==> step_factor(#[trigger] steps[i]) == 1,
    ensures
        steps_factor(steps, n) == if 0 <= k < n {
            step_factor(steps[k])
        } else {
            1
        },
    decreases n,
{
    reveal_with_fuel(steps_factor, 2);
    if n > 0 {
        lemma_steps_factor(steps, (n - 1) as nat, k);
        let f = step_factor(steps[n - 1]);
        assert(1 * f == f);
        assert(steps_factor(steps, n) == steps_factor(steps, (n - 1) as nat) * f);
    }
}

proof fn lemma_unit_step<X>(dilation: usize, work: UnitWork<X>)
    requires
        dilation <= 9,
    ensures
        step_valid(unit_step(dilation, work)),
        step_factor(unit_step(dilation, work)) == 1,
{
    let step = unit_step(dilation, work);
    let inner = step->Around_0;
    lemma_step(step);
    lemma_step(inner[0]);
    lemma_step(inner[1]);
    lemma_step(inner[2]);
    lemma_step(inner[3]);
    assert((7 - 1) * dilation == 6 * dilation) by (nonlinear_arith);
    assert(conv_plan(7, dilation, 1).wf());
    assert(conv_plan(1, 1, 1).wf());
    lemma_steps_valid(inner, 4);
    lemma_steps_factor(inner, 4, -1);
}

proof fn lemma_block_step<X>(stride: usize, work: BlockWork<X>)
    requires
        1 <= stride <= 8,
    ensures
        step_valid(block_step(stride, work)),
        step_factor(block_step(stride, work)) == stride,
{
    let step = block_step(stride, work);
    let inner = step->Chain_0;
    lemma_unit_step(1, (work.units)(0));
    lemma_unit_step(3, (work.units)(1));
    lemma_unit_step(9, (work.units)(2));
    lemma_step(step);
    lemma_step(inner[0]);
    lemma_step(inner[1]);
    lemma_steps_valid(inner, 5);
    lemma_steps_factor(inner, 5, 1);
}

proof fn lemma_layer_step<X>(work: LayerParts<X>)
    ensures
        step_valid(layer_step(work)),
        step_factor(layer_step(work)) == 1,
{
    let step = layer_step(work);
    let inner = step->Chain_0;
    let attention = inner[0]->Around_0;
    let ffn = inner[1]->Around_0;
    lemma_step(step);
    lemma_step(inner[0]);
    lemma_step(inner[1]);
    lemma_step(attention[0]);
    lemma_step(attention[1]);
    lemma_step(ffn[0]);
    lemma_step(ffn[1]);
    lemma_steps_valid(attention, 2);
    lemma_steps_factor(attention, 2, -1);
    lemma_steps_valid(ffn, 2);
    lemma_steps_factor(ffn, 2, -1);
    lemma_steps_valid(inner, 2);
    lemma_steps_factor(inner, 2, -1);
}

proof fn lemma_doubling_step<X>(work: DoublingWork<X>)
    ensures
        step_valid(doubling_step(work)),
        step_factor(doubling_step(work)) == 2,
{
    let step = doubling_step(work);
    let inner = step->Chain_0;
    let around = inner[1]->Around_0;
    lemma_step(step);
    lemma_step(inner[0]);
    lemma_step(inner[1]);
    lemma_step(around[0]);
    lemma_step(around[1]);
    lemma_step(around[2]);
    lemma_step(around[3]);
    lemma_steps_valid(around, 4);
    lemma_steps_factor(around, 4, -1);
    lemma_steps_valid(inner, 2);
    lemma_steps_factor(inner, 2, 0);
}

proof fn lemma_layer_steps<X>(work: CodecWork<X>)
    ensures
        step_valid(Step::Chain(layer_steps(work))),
        step_factor(Step::Chain(layer_steps(work))) == 1,
{
    let steps = layer_steps(work);
    assert forall|i: int| 0 <= i < steps.len() implies step_valid(#[trigger] steps[i])
        && step_factor(steps[i]) == 1 by {
        lemma_layer_step((work.layers)(i));
    }
    lemma_step(Step::Chain(steps));
    lemma_steps_valid(steps, steps.len());
    lemma_steps_factor(steps, steps.len(), -1);
}

proof fn lemma_block_steps<X>(work: CodecWork<X>, n: nat)
    requires
        n <= rates().len(),
    ensures
        steps_valid(block_steps(work), n),
        steps_factor(block_steps(work), n) == stretch(rates(), n),
    decreases n,
{
    reveal_with_fuel(steps_valid, 2);
    reveal_with_fuel(steps_factor, 2);
    if n > 0 {
        lemma_block_steps(work, (n - 1) as nat);
        lemma_block_step(rates()[n - 1], (work.blocks)(n - 1));
    }
}

proof fn lemma_post_step<X>(work: CodecWork<X>)
    ensures
        step_valid(post_step(work)),
        step_factor(post_step(work)) == 1,
{
    let step = post_step(work);
    let inner = step->Chain_0;
    lemma_layer_steps(work);
    lemma_step(step);
    lemma_step(inner[1]);
    lemma_steps_valid(inner, 2);
    lemma_steps_factor(inner, 2, -1);
}

proof fn lemma_vocoder_step<X>(work: CodecWork<X>)
    ensures
        step_valid(vocoder_step(work)),
        step_factor(vocoder_step(work)) == stretch(rates(), rates().len()),
{
    let step = vocoder_step(work);
    let inner = step->Chain_0;
    lemma_block_steps(work, rates().len());
    lemma_step(step);
    lemma_step(inner[0]);
    lemma_step(inner[1]);
    lemma_step(inner[2]);
    lemma_step(inner[3]);
    lemma_step(inner[4]);
    lemma_steps_valid(inner, 5);
    lemma_steps_factor(inner, 5, 1);
}

proof fn lemma_decoder_step<X>(work: CodecWork<X>)
    ensures
        step_valid(decoder_step(work)),
        step_factor(decoder_step(work)) == HOP,
{
    let step = decoder_step(work);
    let d = step->Chain_0;
    lemma_post_step(work);
    lemma_doubling_step(work.upsample0);
    lemma_doubling_step(work.upsample1);
    lemma_vocoder_step(work);
    law_hop_is_the_product_of_strides();
    lemma_step(step);
    lemma_step(d[0]);
    lemma_steps_valid(d, 5);
    lemma_steps_factor(d, 3, 2);
    reveal_with_fuel(steps_factor, 2);
    assert(steps_factor(d, 4) == steps_factor(d, 3) * 2);
    assert(steps_factor(d, 5) == steps_factor(d, 4) * step_factor(d[4]));
}

/// What the debugging run shows, one stage after the other, and what it gives.
pub open spec fn debug_run<X>(work: CodecWork<X>, zero: X, codes: Seq<X>) -> (
    Seq<(Seq<char>, Seq<X>)>,
    Seq<X>,
) {
    let stage = work.upsample0;
    let sum = codes.map_values(work.rvq);
    let post = step_applied(post_step(work), zero, sum);
    let up = transposed_applied(stretch_plan(2, 2), stage.conv_tr, post);
    let dw = conv_applied(conv_plan(7, 1, HIDDEN), zero, stage.dwconv, up);
    let normed = dw.map_values(stage.norm);
    let wide = normed.map_values(stage.pwconv1);
    let narrow = wide.map_values(stage.pwconv2);
    let first = Seq::new(up.len(), |i: int| (stage.join)(narrow[i], up[i]));
    let second = step_applied(doubling_step(work.upsample1), zero, first);
    let conv1 = conv_applied(conv_plan(7, 1, 1), zero, work.conv1, second);
    (
        seq![
            ("rvq_sum"@, sum),
            ("post_module"@, post),
            ("upsample0_conv_tr"@, up),
            ("upsample0_dwconv"@, dw),
            ("upsample0_norm"@, normed),
            ("upsample0_pwconv1"@, wide),
            ("upsample0_pwconv2"@, narrow),
            ("upsample0"@, first),
            ("upsample1"@, second),
            ("decoder_conv1"@, conv1),
        ],
        step_applied(vocoder_step(work), zero, second),
    )
}

/// The debugging run gives what the decoder gives, and shows each stage under
/// the name and at the length that are planned for it.
pub proof fn law_debugging_changes_nothing<X>(
    work: CodecWork<X>,
    zero: X,
    codes: Seq<X>,
    batch: usize,
    i: int,
)
    requires
        0 <= i < 10,
        codes.len() * HOP <= usize::MAX,
    ensures
        debug_run(work, zero, codes).1 == step_applied(decoder_step(work), zero, codes),
        debug_run(work, zero, codes).1.len() == audio_sides(batch, codes.len() as int).2,
        debug_run(work, zero, codes).0.len() == debug_stages(batch, codes.len() as int).len(),
        debug_run(work, zero, codes).0[i].0 == debug_stages(batch, codes.len() as int)[i].0,
        debug_stages(batch, codes.len() as int)[i].1.contains(
            debug_run(work, zero, codes).0[i].1.len() as usize,
        ),
{
    let n = codes.len();
    let d = decoder_step(work);
    let steps = d->Chain_0;
    let stage = work.upsample0;
    let shown = debug_run(work, zero, codes).0;
    let sum = shown[0].1;
    let post = shown[1].1;
    let up = shown[2].1;
    let dw = shown[3].1;
    let normed = shown[4].1;
    let wide = shown[5].1;
    let narrow = shown[6].1;
    let first = shown[7].1;
    let second = shown[8].1;
    lemma_applied(d, zero, codes);
    lemma_applied(steps[0], zero, codes);
    lemma_applied(steps[2], zero, post);
    let doubling = steps[2]->Chain_0;
    lemma_applied(doubling[0], zero, post);
    lemma_applied(doubling[1], zero, up);
    let around = doubling[1]->Around_0;
    lemma_applied(around[0], zero, up);
    lemma_applied(around[1], zero, dw);
    lemma_applied(around[2], zero, normed);
    lemma_applied(around[3], zero, wide);
    lemma_next_applied(around, 1, zero, up);
    lemma_next_applied(around, 2, zero, up);
    lemma_next_applied(around, 3, zero, up);
    lemma_next_applied(around, 4, zero, up);
    assert(steps_applied(around, 4, zero, up) == narrow);
    lemma_next_applied(doubling, 1, zero, post);
    lemma_next_applied(doubling, 2, zero, post);
    assert(steps_applied(doubling, 2, zero, post) =~= first);
    lemma_next_applied(steps, 1, zero, codes);
    lemma_next_applied(steps, 2, zero, codes);
    lemma_next_applied(steps, 3, zero, codes);
    lemma_next_applied(steps, 4, zero, codes);
    lemma_next_applied(steps, 5, zero, codes);
    law_decoder_is_causal(work, zero, codes, 0);
    lemma_post_step(work);
    lemma_keeps_pace(post_step(work), zero, sum);
    lemma_transposed_len(stretch_plan(2, 2), stage.conv_tr, post);
    lemma_doubling_step(work.upsample1);
    lemma_keeps_pace(steps[3], zero, first);
    let sides = debug_stages(batch, n as int);
    assert(sides[0].1[2] == n && sides[1].1[2] == n);
    assert(sides[2].1[2] == 2 * n && sides[3].1[2] == 2 * n && sides[4].1[1] == 2 * n);
    assert(sides[5].1[1] == 2 * n && sides[6].1[1] == 2 * n && sides[7].1[2] == 2 * n);
    assert(sides[8].1[2] == 4 * n && sides[9].1[2] == 4 * n);
}

proof fn lemma_keeps_pace<X>(step: Step<X>, zero: X, xs: Seq<X>)
    requires
        step_valid(step),
    ensures
        step_applied(step, zero, xs).len() == xs.len() * step_factor(step),
{
    law_steps_are_causal(step, zero);
    let h = |ys: Seq<X>| step_applied(step, zero, ys);
    assert(h(xs.take(0)) == h(xs).take(0int * step_factor(step)));
}

proof fn lemma_applied<X>(step: Step<X>, zero: X, xs: Seq<X>)
    ensures
        step_applied(step, zero, xs) == match step {
            Step::Each(g) => xs.map_values(g),
            Step::Conv(c, kernel) => conv_applied(c, zero, kernel, xs),
            Step::Stretch(c, kernel) => transposed_applied(c, kernel, xs),
            Step::Window(window, attend) => window_applied(window, attend, xs),
            Step::Around(inner, join) => {
                let ys = steps_applied(inner, inner.len(), zero, xs);
                Seq::new(xs.len(), |i: int| join(ys[i], xs[i]))
            },
            Step::Chain(inner) => steps_applied(inner, inner.len(), zero, xs),
        },
{
    reveal_with_fuel(step_applied, 2);
}

proof fn lemma_next_applied<X>(steps: Seq<Step<X>>, n: nat, zero: X, xs: Seq<X>)
    requires
        0 < n <= steps.len(),
    ensures
        steps_applied(steps, n, zero, xs) == step_applied(
            steps[n - 1],
            zero,
            steps_applied(steps, (n - 1) as nat, zero, xs),
        ),
        steps_applied(steps, 0, zero, xs) == xs,
{
    reveal_with_fuel(steps_applied, 2);
}

} // verus!
