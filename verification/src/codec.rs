//! The codec decoder, which turns codes into sound: its weights in the order of
//! loading, the lengths that its convolutions give, and the mask of its
//! transformer.

use vstd::prelude::*;

use crate::chars::joined;
use crate::digits::{decimal, numbered};
use crate::model::{causal, Attention};
use crate::weights::{named_views, Named};

verus! {

/// The number of channels between the stages.
pub const HIDDEN: usize = 1024;

pub const N_HEADS_Q: usize = 16;

pub const N_HEADS_KV: usize = 8;

pub const CODEC_HEAD_DIM: usize = 64;

pub const N_TRANSFORMER_LAYERS: usize = 8;

pub const N_ACOUSTIC_CODEBOOKS: usize = 9;

/// The width between the two halves of a feed-forward layer.
pub const FFN_DIM: usize = 1216;

/// How many positions a position sees, itself included.
pub const WINDOW: usize = 128;

/// The channels behind the first convolution of the vocoder.
pub const VOCODER_CHANNELS: usize = 1536;

/// How many samples a frame of codes stands for.
pub const HOP: usize = 2048;

/// By how much each block of the vocoder stretches its input.
pub open spec fn rates() -> Seq<usize> {
    seq![8usize, 8, 4, 2]
}

/// The strides of the vocoder blocks.
pub fn rate_list() -> (r: Vec<usize>)
    ensures
        r@ == rates(),
{
    let v: Vec<usize> = vec![8, 8, 4, 2];
    assert(v@ =~= rates());
    v
}

/// An array of weights: its name and its sides.
pub type Array = (Seq<char>, Seq<usize>);

/// The slope of a snake activation.
pub open spec fn snake(prefix: Seq<char>, channels: usize) -> Seq<Array> {
    seq![(prefix + ".alpha"@, seq![1usize, channels, 1usize])]
}

/// A convolution.
pub open spec fn conv(
    prefix: Seq<char>,
    in_c: usize,
    out_c: usize,
    kernel: usize,
    groups: usize,
) -> Seq<Array> {
    seq![
        (prefix + ".weight"@, seq![out_c, (in_c as int / groups as int) as usize, kernel]),
        (prefix + ".bias"@, seq![out_c]),
    ]
}

/// A transposed convolution.
pub open spec fn conv_transpose(prefix: Seq<char>, in_c: usize, out_c: usize, kernel: usize) -> Seq<
    Array,
> {
    seq![(prefix + ".weight"@, seq![in_c, out_c, kernel]), (prefix + ".bias"@, seq![out_c])]
}

/// Two convolutions with a way round them.
pub open spec fn residual_unit(prefix: Seq<char>, dim: usize) -> Seq<Array> {
    snake(prefix + ".block.0"@, dim) + conv(prefix + ".block.1.conv"@, dim, dim, 7, 1) + snake(
        prefix + ".block.2"@,
        dim,
    ) + conv(prefix + ".block.3.conv"@, dim, dim, 1, 1)
}

/// A block of the vocoder.
pub open spec fn decoder_block(
    prefix: Seq<char>,
    in_dim: usize,
    out_dim: usize,
    stride: usize,
) -> Seq<Array> {
    snake(prefix + ".block.0"@, in_dim) + conv_transpose(
        prefix + ".block.1.conv"@,
        in_dim,
        out_dim,
        (2 * stride) as usize,
    ) + residual_unit(prefix + ".block.2"@, out_dim) + residual_unit(
        prefix + ".block.3"@,
        out_dim,
    ) + residual_unit(prefix + ".block.4"@, out_dim)
}

/// The channels behind the first `n` blocks of the vocoder, which halve them.
pub open spec fn halved(channels: usize, n: nat) -> usize
    decreases n,
{
    if n == 0 {
        channels
    } else {
        (halved(channels, (n - 1) as nat) as int / 2) as usize
    }
}

/// The first `n` blocks of the vocoder.
pub open spec fn decoder_blocks(
    prefix: Seq<char>,
    channels: usize,
    strides: Seq<usize>,
    n: nat,
) -> Seq<Array>
    decreases n,
{
    if n == 0 {
        Seq::empty()
    } else {
        decoder_blocks(prefix, channels, strides, (n - 1) as nat) + decoder_block(
            prefix + "."@ + decimal(n),
            halved(channels, (n - 1) as nat),
            halved(channels, n),
            strides[n - 1],
        )
    }
}

/// The vocoder.
pub open spec fn vocoder(
    prefix: Seq<char>,
    in_c: usize,
    channels: usize,
    strides: Seq<usize>,
    d_out: usize,
) -> Seq<Array> {
    let model = prefix + ".model"@;
    let last = halved(channels, strides.len());
    conv(model + ".0.conv"@, in_c, channels, 7, 1) + decoder_blocks(
        model,
        channels,
        strides,
        strides.len(),
    ) + snake(model + "."@ + decimal(strides.len() + 1), last) + conv(
        model + "."@ + decimal(strides.len() + 2) + ".conv"@,
        last,
        d_out,
        7,
        1,
    )
}

/// A codebook, and the matrix that spreads its entries over the channels.
pub open spec fn quantizer(prefix: Seq<char>, size: usize, dim: usize, out_c: usize) -> Seq<Array> {
    seq![
        (prefix + ".codebook.weight"@, seq![size, dim]),
        (prefix + ".out_proj.weight"@, seq![out_c, dim, 1usize]),
        (prefix + ".out_proj.bias"@, seq![out_c]),
    ]
}

/// The first `n` acoustic codebooks.
pub open spec fn acoustic(prefix: Seq<char>, n: nat) -> Seq<Array>
    decreases n,
{
    if n == 0 {
        Seq::empty()
    } else {
        acoustic(prefix, (n - 1) as nat) + quantizer(
            prefix + ".quantizer.quantizers."@ + decimal((n - 1) as nat),
            1024,
            8,
            HIDDEN,
        )
    }
}

/// The codebooks: one for semantics, the others for acoustics.
pub open spec fn residual_quantizer(prefix: Seq<char>) -> Seq<Array> {
    quantizer(prefix + ".semantic_quantizer.quantizers.0"@, 4096, 8, HIDDEN) + acoustic(
        prefix,
        N_ACOUSTIC_CODEBOOKS as nat,
    )
}

/// A layer of the transformer.
pub open spec fn transformer_layer(prefix: Seq<char>) -> Seq<Array> {
    let q_dim = (N_HEADS_Q * CODEC_HEAD_DIM) as usize;
    let qkv_dim = ((N_HEADS_Q + 2 * N_HEADS_KV) * CODEC_HEAD_DIM) as usize;
    seq![
        (prefix + ".attention_norm.weight"@, seq![HIDDEN]),
        (prefix + ".attention.wqkv.weight"@, seq![HIDDEN, qkv_dim]),
        (prefix + ".attention.wo.weight"@, seq![q_dim, HIDDEN]),
        (prefix + ".attention_layer_scale.gamma"@, seq![HIDDEN]),
        (prefix + ".ffn_norm.weight"@, seq![HIDDEN]),
        (prefix + ".feed_forward.w1.weight"@, seq![HIDDEN, FFN_DIM]),
        (prefix + ".feed_forward.w2.weight"@, seq![FFN_DIM, HIDDEN]),
        (prefix + ".feed_forward.w3.weight"@, seq![HIDDEN, FFN_DIM]),
        (prefix + ".ffn_layer_scale.gamma"@, seq![HIDDEN]),
    ]
}

/// The first `n` layers of the transformer.
pub open spec fn transformer_layers(prefix: Seq<char>, n: nat) -> Seq<Array>
    decreases n,
{
    if n == 0 {
        Seq::empty()
    } else {
        transformer_layers(prefix, (n - 1) as nat) + transformer_layer(
            prefix + ".layers."@ + decimal((n - 1) as nat),
        )
    }
}

/// The transformer.
pub open spec fn post_module(prefix: Seq<char>) -> Seq<Array> {
    transformer_layers(prefix, N_TRANSFORMER_LAYERS as nat) + seq![
        (prefix + ".norm.weight"@, seq![HIDDEN]),
    ]
}

/// A stage that doubles the length.
pub open spec fn upsample_stage(prefix: Seq<char>) -> Seq<Array> {
    let wide = (4 * HIDDEN) as usize;
    conv_transpose(prefix + ".0.conv"@, HIDDEN, HIDDEN, 2) + conv(
        prefix + ".1.dwconv.conv"@,
        HIDDEN,
        HIDDEN,
        7,
        HIDDEN,
    ) + seq![
        (prefix + ".1.norm.weight"@, seq![HIDDEN]),
        (prefix + ".1.norm.bias"@, seq![HIDDEN]),
        (prefix + ".1.pwconv1.weight"@, seq![HIDDEN, wide]),
        (prefix + ".1.pwconv1.bias"@, seq![wide]),
        (prefix + ".1.pwconv2.weight"@, seq![wide, HIDDEN]),
        (prefix + ".1.pwconv2.bias"@, seq![HIDDEN]),
        (prefix + ".1.gamma"@, seq![HIDDEN]),
    ]
}

/// The weights of the codec decoder, in the order of loading.
pub open spec fn codec_weights() -> Seq<Array> {
    residual_quantizer("quantizer"@) + post_module("quantizer.post_module"@) + upsample_stage(
        "quantizer.upsample.0"@,
    ) + upsample_stage("quantizer.upsample.1"@) + vocoder(
        "decoder"@,
        HIDDEN,
        VOCODER_CHANNELS,
        rates(),
        1,
    )
}

fn push1(list: &mut Vec<Named>, prefix: &str, name: &str, a: usize)
    ensures
        named_views(final(list)@) == named_views(old(list)@) + seq![(prefix@ + name@, seq![a])],
{
    let dims: Vec<usize> = vec![a];
    assert(dims@ =~= seq![a]);
    list.push(Named { name: joined(prefix, name), dims });
    assert(named_views(list@) =~= named_views(old(list)@) + seq![(prefix@ + name@, seq![a])]);
}

fn push2(list: &mut Vec<Named>, prefix: &str, name: &str, a: usize, b: usize)
    ensures
        named_views(final(list)@) == named_views(old(list)@) + seq![(prefix@ + name@, seq![a, b])],
{
    let dims: Vec<usize> = vec![a, b];
    assert(dims@ =~= seq![a, b]);
    list.push(Named { name: joined(prefix, name), dims });
    assert(named_views(list@) =~= named_views(old(list)@) + seq![(prefix@ + name@, seq![a, b])]);
}

fn push3(list: &mut Vec<Named>, prefix: &str, name: &str, a: usize, b: usize, c: usize)
    ensures
        named_views(final(list)@) == named_views(old(list)@) + seq![
            (prefix@ + name@, seq![a, b, c]),
        ],
{
    let dims: Vec<usize> = vec![a, b, c];
    assert(dims@ =~= seq![a, b, c]);
    list.push(Named { name: joined(prefix, name), dims });
    assert(named_views(list@) =~= named_views(old(list)@) + seq![(prefix@ + name@, seq![a, b, c])]);
}

fn push_snake(list: &mut Vec<Named>, prefix: &str, channels: usize)
    ensures
        named_views(final(list)@) == named_views(old(list)@) + snake(prefix@, channels),
{
    push3(list, prefix, ".alpha", 1, channels, 1);
}

fn push_conv(
    list: &mut Vec<Named>,
    prefix: &str,
    in_c: usize,
    out_c: usize,
    kernel: usize,
    groups: usize,
)
    requires
        groups > 0,
    ensures
        named_views(final(list)@) == named_views(old(list)@) + conv(
            prefix@,
            in_c,
            out_c,
            kernel,
            groups,
        ),
{
    push3(list, prefix, ".weight", out_c, in_c / groups, kernel);
    push1(list, prefix, ".bias", out_c);
    assert(named_views(list@) =~= named_views(old(list)@) + conv(
        prefix@,
        in_c,
        out_c,
        kernel,
        groups,
    ));
}

fn push_conv_transpose(
    list: &mut Vec<Named>,
    prefix: &str,
    in_c: usize,
    out_c: usize,
    kernel: usize,
)
    ensures
        named_views(final(list)@) == named_views(old(list)@) + conv_transpose(
            prefix@,
            in_c,
            out_c,
            kernel,
        ),
{
    push3(list, prefix, ".weight", in_c, out_c, kernel);
    push1(list, prefix, ".bias", out_c);
    assert(named_views(list@) =~= named_views(old(list)@) + conv_transpose(
        prefix@,
        in_c,
        out_c,
        kernel,
    ));
}

fn push_residual_unit(list: &mut Vec<Named>, prefix: &str, dim: usize)
    ensures
        named_views(final(list)@) == named_views(old(list)@) + residual_unit(prefix@, dim),
{
    push_snake(list, &joined(prefix, ".block.0"), dim);
    push_conv(list, &joined(prefix, ".block.1.conv"), dim, dim, 7, 1);
    push_snake(list, &joined(prefix, ".block.2"), dim);
    push_conv(list, &joined(prefix, ".block.3.conv"), dim, dim, 1, 1);
    assert(named_views(list@) =~= named_views(old(list)@) + residual_unit(prefix@, dim));
}

fn push_decoder_block(
    list: &mut Vec<Named>,
    prefix: &str,
    in_dim: usize,
    out_dim: usize,
    stride: usize,
)
    requires
        2 * stride <= usize::MAX,
    ensures
        named_views(final(list)@) == named_views(old(list)@) + decoder_block(
            prefix@,
            in_dim,
            out_dim,
            stride,
        ),
{
    push_snake(list, &joined(prefix, ".block.0"), in_dim);
    push_conv_transpose(list, &joined(prefix, ".block.1.conv"), in_dim, out_dim, 2 * stride);
    push_residual_unit(list, &joined(prefix, ".block.2"), out_dim);
    push_residual_unit(list, &joined(prefix, ".block.3"), out_dim);
    push_residual_unit(list, &joined(prefix, ".block.4"), out_dim);
    assert(named_views(list@) =~= named_views(old(list)@) + decoder_block(
        prefix@,
        in_dim,
        out_dim,
        stride,
    ));
}

fn push_vocoder(
    list: &mut Vec<Named>,
    prefix: &str,
    in_c: usize,
    channels: usize,
    strides: &Vec<usize>,
    d_out: usize,
)
    requires
        strides@.len() < usize::MAX - 2,
        forall|i: int| 0 <= i < strides@.len() ==> 2 * #[trigger] strides@[i] <= usize::MAX,
    ensures
        named_views(final(list)@) == named_views(old(list)@) + vocoder(
            prefix@,
            in_c,
            channels,
            strides@,
            d_out,
        ),
{
    let ghost before = named_views(list@);
    let model = joined(prefix, ".model");
    let dotted = joined(&model, ".");
    push_conv(list, &joined(&model, ".0.conv"), in_c, channels, 7, 1);
    let ghost first = conv(model@ + ".0.conv"@, in_c, channels, 7, 1);
    let mut width: usize = channels;
    let n: usize = strides.len();
    assert(before + first + decoder_blocks(model@, channels, strides@, 0) =~= before + first);
    for i in 0..n
        invariant
            n == strides@.len(),
            n < usize::MAX - 2,
            forall|k: int| 0 <= k < strides@.len() ==> 2 * #[trigger] strides@[k] <= usize::MAX,
            dotted@ == model@ + "."@,
            width == halved(channels, i as nat),
            named_views(list@) == before + first + decoder_blocks(
                model@,
                channels,
                strides@,
                i as nat,
            ),
    {
        let ghost start = named_views(list@);
        let name = numbered(&dotted, i + 1);
        let half: usize = width / 2;
        let stride: usize = strides[i];
        push_decoder_block(list, &name, width, half, stride);
        width = half;
        proof {
            let added = decoder_block(
                model@ + "."@ + decimal((i + 1) as nat),
                halved(channels, i as nat),
                halved(channels, (i + 1) as nat),
                strides@[i as int],
            );
            assert(named_views(list@) == start + added);
            assert(start + added =~= before + first + (decoder_blocks(
                model@,
                channels,
                strides@,
                i as nat,
            ) + added));
        }
    }
    push_snake(list, &numbered(&dotted, n + 1), width);
    push_conv(list, &joined(&numbered(&dotted, n + 2), ".conv"), width, d_out, 7, 1);
    assert(named_views(list@) =~= before + vocoder(prefix@, in_c, channels, strides@, d_out));
}

fn push_quantizer(list: &mut Vec<Named>, prefix: &str, size: usize, dim: usize, out_c: usize)
    ensures
        named_views(final(list)@) == named_views(old(list)@) + quantizer(
            prefix@,
            size,
            dim,
            out_c,
        ),
{
    push2(list, prefix, ".codebook.weight", size, dim);
    push3(list, prefix, ".out_proj.weight", out_c, dim, 1);
    push1(list, prefix, ".out_proj.bias", out_c);
    assert(named_views(list@) =~= named_views(old(list)@) + quantizer(prefix@, size, dim, out_c));
}

fn push_residual_quantizer(list: &mut Vec<Named>, prefix: &str)
    ensures
        named_views(final(list)@) == named_views(old(list)@) + residual_quantizer(prefix@),
{
    let ghost before = named_views(list@);
    push_quantizer(list, &joined(prefix, ".semantic_quantizer.quantizers.0"), 4096, 8, HIDDEN);
    let ghost first = quantizer(prefix@ + ".semantic_quantizer.quantizers.0"@, 4096, 8, HIDDEN);
    let stem = joined(prefix, ".quantizer.quantizers.");
    assert(before + first + acoustic(prefix@, 0) =~= before + first);
    for i in 0..N_ACOUSTIC_CODEBOOKS
        invariant
            stem@ == prefix@ + ".quantizer.quantizers."@,
            named_views(list@) == before + first + acoustic(prefix@, i as nat),
    {
        let ghost start = named_views(list@);
        push_quantizer(list, &numbered(&stem, i), 1024, 8, HIDDEN);
        assert(named_views(list@) =~= before + first + acoustic(prefix@, (i + 1) as nat));
    }
    assert(named_views(list@) =~= before + residual_quantizer(prefix@));
}

fn push_transformer_layer(list: &mut Vec<Named>, prefix: &str)
    ensures
        named_views(final(list)@) == named_views(old(list)@) + transformer_layer(prefix@),
{
    let q_dim: usize = N_HEADS_Q * CODEC_HEAD_DIM;
    let kv_dim: usize = N_HEADS_KV * CODEC_HEAD_DIM;
    push1(list, prefix, ".attention_norm.weight", HIDDEN);
    push2(list, prefix, ".attention.wqkv.weight", HIDDEN, q_dim + 2 * kv_dim);
    push2(list, prefix, ".attention.wo.weight", q_dim, HIDDEN);
    push1(list, prefix, ".attention_layer_scale.gamma", HIDDEN);
    push1(list, prefix, ".ffn_norm.weight", HIDDEN);
    push2(list, prefix, ".feed_forward.w1.weight", HIDDEN, FFN_DIM);
    push2(list, prefix, ".feed_forward.w2.weight", FFN_DIM, HIDDEN);
    push2(list, prefix, ".feed_forward.w3.weight", HIDDEN, FFN_DIM);
    push1(list, prefix, ".ffn_layer_scale.gamma", HIDDEN);
    assert(named_views(list@) =~= named_views(old(list)@) + transformer_layer(prefix@));
}

fn push_post_module(list: &mut Vec<Named>, prefix: &str)
    ensures
        named_views(final(list)@) == named_views(old(list)@) + post_module(prefix@),
{
    let ghost before = named_views(list@);
    let stem = joined(prefix, ".layers.");
    assert(before + transformer_layers(prefix@, 0) =~= before);
    for i in 0..N_TRANSFORMER_LAYERS
        invariant
            stem@ == prefix@ + ".layers."@,
            named_views(list@) == before + transformer_layers(prefix@, i as nat),
    {
        let ghost start = named_views(list@);
        push_transformer_layer(list, &numbered(&stem, i));
        assert(named_views(list@) =~= before + transformer_layers(prefix@, (i + 1) as nat));
    }
    push1(list, prefix, ".norm.weight", HIDDEN);
    assert(named_views(list@) =~= before + post_module(prefix@));
}

fn push_upsample_stage(list: &mut Vec<Named>, prefix: &str)
    ensures
        named_views(final(list)@) == named_views(old(list)@) + upsample_stage(prefix@),
{
    let wide: usize = HIDDEN * 4;
    push_conv_transpose(list, &joined(prefix, ".0.conv"), HIDDEN, HIDDEN, 2);
    push_conv(list, &joined(prefix, ".1.dwconv.conv"), HIDDEN, HIDDEN, 7, HIDDEN);
    push1(list, prefix, ".1.norm.weight", HIDDEN);
    push1(list, prefix, ".1.norm.bias", HIDDEN);
    push2(list, prefix, ".1.pwconv1.weight", HIDDEN, wide);
    push1(list, prefix, ".1.pwconv1.bias", wide);
    push2(list, prefix, ".1.pwconv2.weight", wide, HIDDEN);
    push1(list, prefix, ".1.pwconv2.bias", HIDDEN);
    push1(list, prefix, ".1.gamma", HIDDEN);
    assert(named_views(list@) =~= named_views(old(list)@) + upsample_stage(prefix@));
}

/// A convolution that looks at no later position: its input is padded on the
/// left only.
#[derive(Clone, Copy)]
pub struct CausalConv1d {
    pub kernel: usize,
    pub dilation: usize,
    pub groups: usize,
    pub left_pad: usize,
}

/// The length that a convolution without padding leaves of `len` positions.
pub open spec fn conv_len(len: int, kernel: int, dilation: int) -> int {
    len - (kernel - 1) * dilation
}

impl CausalConv1d {
    /// The padding makes up for what the kernel takes away.
    pub open spec fn wf(self) -> bool {
        self.kernel >= 1 && self.left_pad == (self.kernel - 1) * self.dilation
    }

    /// The length behind the convolution: that of the input.
    pub fn forward(&self, t: usize) -> (r: usize)
        requires
            self.wf(),
            t + self.left_pad <= usize::MAX,
        ensures
            r == conv_len(t + self.left_pad, self.kernel as int, self.dilation as int),
            r == t,
    {
        (t + self.left_pad) - (self.kernel - 1) * self.dilation
    }
}

/// The plan of a convolution with its padding.
pub open spec fn conv_plan(kernel: usize, dilation: usize, groups: usize) -> CausalConv1d {
    CausalConv1d { kernel, dilation, groups, left_pad: ((kernel - 1) * dilation) as usize }
}

pub fn causal_conv1d_plain(kernel: usize, dilation: usize, groups: usize) -> (r: CausalConv1d)
    requires
        kernel >= 1,
        (kernel - 1) * dilation <= usize::MAX,
    ensures
        r.wf(),
        r == conv_plan(kernel, dilation, groups),
        r.left_pad == (kernel - 1) * dilation,
{
    CausalConv1d { kernel, dilation, groups, left_pad: (kernel - 1) * dilation }
}

/// A transposed convolution whose output is cut at its end.
#[derive(Clone, Copy)]
pub struct CausalConvTranspose1d {
    pub kernel: usize,
    pub stride: usize,
    pub trim: usize,
}

/// The length that a transposed convolution makes of `len` positions.
pub open spec fn transposed_len(len: int, kernel: int, stride: int) -> int {
    (len - 1) * stride + kernel
}

impl CausalConvTranspose1d {
    /// What is cut is what the kernel is longer than the stride.
    pub open spec fn wf(self) -> bool {
        self.kernel >= self.stride && self.trim == self.kernel - self.stride
    }

    /// The length behind the convolution and the cut: that of the input times
    /// the stride.
    pub fn forward(&self, t: usize) -> (r: usize)
        requires
            self.wf(),
            t >= 1,
            t * self.stride + self.trim <= usize::MAX,
        ensures
            r == transposed_len(t as int, self.kernel as int, self.stride as int) - self.trim,
            r == t * self.stride,
    {
        assert((t - 1) * self.stride == t * self.stride - self.stride) by (nonlinear_arith);
        assert(0 <= (t - 1) * self.stride) by (nonlinear_arith)
            requires
                t >= 1,
        ;
        let raw: usize = (t - 1) * self.stride + self.kernel;
        raw - self.trim
    }
}

/// The plan of a transposed convolution with its cut.
pub open spec fn stretch_plan(kernel: usize, stride: usize) -> CausalConvTranspose1d {
    CausalConvTranspose1d { kernel, stride, trim: (kernel - stride) as usize }
}

pub fn causal_conv_transpose1d_plain(kernel: usize, stride: usize) -> (r: CausalConvTranspose1d)
    requires
        kernel >= stride,
    ensures
        r.wf(),
        r == stretch_plan(kernel, stride),
        r.trim == kernel - stride,
{
    CausalConvTranspose1d { kernel, stride, trim: kernel - stride }
}

/// The dilations of the residual units of a vocoder block.
pub open spec fn dilations() -> Seq<usize> {
    seq![1usize, 3, 9]
}

pub fn dilation_list() -> (r: Vec<usize>)
    ensures
        r@ == dilations(),
{
    let v: Vec<usize> = vec![1, 3, 9];
    assert(v@ =~= dilations());
    v
}

/// The length behind a residual unit: that of the input, so that the two can be
/// summed.
fn residual_len(t: usize, dilation: usize) -> (r: usize)
    requires
        t + 6 * dilation <= usize::MAX,
    ensures
        r == t,
{
    let conv1 = causal_conv1d_plain(7, dilation, 1);
    let conv2 = causal_conv1d_plain(1, 1, 1);
    conv2.forward(conv1.forward(t))
}

/// The length behind a vocoder block.
fn block_len(t: usize, stride: usize) -> (r: usize)
    requires
        1 <= t,
        t * stride + stride <= usize::MAX,
        t * stride + 54 <= usize::MAX,
        2 * stride <= usize::MAX,
    ensures
        r == t * stride,
{
    let conv_tr = causal_conv_transpose1d_plain(2 * stride, stride);
    let t1: usize = conv_tr.forward(t);
    let t2: usize = residual_len(t1, 1);
    let t3: usize = residual_len(t2, 3);
    residual_len(t3, 9)
}

/// The length behind a stage that doubles it.
fn upsample_len(t: usize) -> (r: usize)
    requires
        1 <= t,
        2 * t + 6 <= usize::MAX,
    ensures
        r == 2 * t,
{
    let conv_tr = causal_conv_transpose1d_plain(2, 2);
    let dwconv = causal_conv1d_plain(7, 1, HIDDEN);
    dwconv.forward(conv_tr.forward(t))
}

/// The product of the first `n` strides.
pub open spec fn stretch(strides: Seq<usize>, n: nat) -> int
    decreases n,
{
    if n == 0 {
        1
    } else {
        stretch(strides, (n - 1) as nat) * strides[n - 1]
    }
}

/// The length behind the vocoder.
fn vocoder_len(t: usize) -> (r: usize)
    requires
        1 <= t,
        t * 512 + 54 <= usize::MAX,
    ensures
        r == t * 512,
{
    let conv1 = causal_conv1d_plain(7, 1, 1);
    let conv2 = causal_conv1d_plain(7, 1, 1);
    let t0: usize = conv1.forward(t);
    let t1: usize = block_len(t0, 8);
    let t2: usize = block_len(t1, 8);
    let t3: usize = block_len(t2, 4);
    let t4: usize = block_len(t3, 2);
    conv2.forward(t4)
}

/// Attention as the layers of the transformer have it.
pub fn codec_attention() -> (r: Attention)
    ensures
        r == (Attention {
            n_head: N_HEADS_Q,
            n_local_heads: N_HEADS_KV,
            head_dim: CODEC_HEAD_DIM,
        }),
        r.wf(),
{
    let r = Attention { n_head: N_HEADS_Q, n_local_heads: N_HEADS_KV, head_dim: CODEC_HEAD_DIM };
    assert((r.n_head + 2 * r.n_local_heads) * r.head_dim == 2048) by (nonlinear_arith)
        requires
            r.n_head == 16,
            r.n_local_heads == 8,
            r.head_dim == 64,
    ;
    r
}

/// The codec decoder, as far as it is planned.
pub struct CodecDecoder {
    /// The weights, in the order of loading.
    pub weights: Vec<Named>,
}

/// The sides of the sound that so many frames give.
pub open spec fn audio_sides(batch: usize, frames: int) -> (usize, usize, usize) {
    (batch, 1usize, (frames * HOP) as usize)
}

/// What `forward_debug` shows: the stages, each with the sides of its output.
pub open spec fn debug_stages(batch: usize, frames: int) -> Seq<Array> {
    let wide = (4 * HIDDEN) as usize;
    let once = frames as usize;
    let twice = (2 * frames) as usize;
    let four = (4 * frames) as usize;
    seq![
        ("rvq_sum"@, seq![batch, HIDDEN, once]),
        ("post_module"@, seq![batch, HIDDEN, once]),
        ("upsample0_conv_tr"@, seq![batch, HIDDEN, twice]),
        ("upsample0_dwconv"@, seq![batch, HIDDEN, twice]),
        ("upsample0_norm"@, seq![batch, twice, HIDDEN]),
        ("upsample0_pwconv1"@, seq![batch, twice, wide]),
        ("upsample0_pwconv2"@, seq![batch, twice, HIDDEN]),
        ("upsample0"@, seq![batch, HIDDEN, twice]),
        ("upsample1"@, seq![batch, HIDDEN, four]),
        ("decoder_conv1"@, seq![batch, VOCODER_CHANNELS, four]),
    ]
}

fn push_stage(list: &mut Vec<Named>, name: &str, a: usize, b: usize, c: usize)
    ensures
        named_views(final(list)@) == named_views(old(list)@) + seq![(name@, seq![a, b, c])],
{
    let dims: Vec<usize> = vec![a, b, c];
    assert(dims@ =~= seq![a, b, c]);
    list.push(Named { name: name.to_owned(), dims });
    assert(named_views(list@) =~= named_views(old(list)@) + seq![(name@, seq![a, b, c])]);
}

impl CodecDecoder {
    /// The decoder, with the list of the weights that it loads.
    pub fn new() -> (r: CodecDecoder)
        ensures
            named_views(r.weights@) == codec_weights(),
    {
        let mut weights: Vec<Named> = Vec::new();
        push_residual_quantizer(&mut weights, "quantizer");
        push_post_module(&mut weights, "quantizer.post_module");
        push_upsample_stage(&mut weights, "quantizer.upsample.0");
        push_upsample_stage(&mut weights, "quantizer.upsample.1");
        push_vocoder(&mut weights, "decoder", HIDDEN, VOCODER_CHANNELS, &rate_list(), 1);
        assert(named_views(weights@) =~= codec_weights());
        CodecDecoder { weights }
    }

    /// The sides of the sound that codes of the given sides give.
    pub fn forward(&self, batch: usize, frames: usize) -> (r: (usize, usize, usize))
        requires
            frames >= 1,
            frames * HOP + 54 <= usize::MAX,
        ensures
            r == audio_sides(batch, frames as int),
    {
        let t0: usize = upsample_len(frames);
        let t1: usize = upsample_len(t0);
        let samples: usize = vocoder_len(t1);
        (batch, 1, samples)
    }

    /// The stages on the way, in their order, each with the sides of its output,
    /// and the sides of the sound at the end.
    pub fn forward_debug(&self, batch: usize, frames: usize) -> (r: (
        Vec<Named>,
        (usize, usize, usize),
    ))
        requires
            frames >= 1,
            frames * HOP + 54 <= usize::MAX,
        ensures
            named_views(r.0@) == debug_stages(batch, frames as int),
            r.1 == audio_sides(batch, frames as int),
    {
        let wide: usize = HIDDEN * 4;
        let twice: usize = upsample_len(frames);
        let four: usize = upsample_len(twice);
        let conv1 = causal_conv1d_plain(7, 1, 1);
        let mut list: Vec<Named> = Vec::new();
        push_stage(&mut list, "rvq_sum", batch, HIDDEN, frames);
        push_stage(&mut list, "post_module", batch, HIDDEN, frames);
        push_stage(&mut list, "upsample0_conv_tr", batch, HIDDEN, twice);
        push_stage(&mut list, "upsample0_dwconv", batch, HIDDEN, twice);
        push_stage(&mut list, "upsample0_norm", batch, twice, HIDDEN);
        push_stage(&mut list, "upsample0_pwconv1", batch, twice, wide);
        push_stage(&mut list, "upsample0_pwconv2", batch, twice, HIDDEN);
        push_stage(&mut list, "upsample0", batch, HIDDEN, twice);
        push_stage(&mut list, "upsample1", batch, HIDDEN, four);
        push_stage(&mut list, "decoder_conv1", batch, VOCODER_CHANNELS, conv1.forward(four));
        assert(named_views(list@) =~= debug_stages(batch, frames as int));
        let samples: usize = vocoder_len(four);
        (list, (batch, 1, samples))
    }
}

/// Whether position `i` sees position `j`: itself and earlier ones, no more than
/// `window` in all.
pub open spec fn in_window(i: int, j: int, window: int) -> bool {
    j <= i && j >= i - window + 1
}

/// The mask row by row.
pub open spec fn windowed(t: nat, window: int) -> Seq<bool> {
    Seq::new(t * t, |k: int| in_window(k / t as int, k % t as int, window))
}

/// The mask of `t` positions, for each pair whether the one sees the other.
pub fn causal_sliding_window_mask(t: usize, window: usize) -> (r: Vec<bool>)
    requires
        window >= 1,
        t * t <= usize::MAX,
    ensures
        r@ == windowed(t as nat, window as int),
{
    let mut out: Vec<bool> = Vec::new();
    assert(0 * t == 0) by (nonlinear_arith);
    for i in 0..t
        invariant
            window >= 1,
            out@.len() == i * t,
            forall|k: int|
                0 <= k < out@.len() ==> #[trigger] out@[k] == windowed(t as nat, window as int)[k],
    {
        let lo: usize = if i >= window - 1 {
            i - (window - 1)
        } else {
            0
        };
        assert(i * t + t <= t * t) by (nonlinear_arith)
            requires
                i + 1 <= t,
        ;
        for j in 0..t
            invariant
                i < t,
                lo == if i >= window - 1 {
                    i - (window - 1)
                } else {
                    0
                },
                window >= 1,
                i * t + t <= t * t,
                out@.len() == i * t + j,
                forall|k: int|
                    0 <= k < out@.len() ==> #[trigger] out@[k] == windowed(
                        t as nat,
                        window as int,
                    )[k],
        {
            proof {
                vstd::arithmetic::div_mod::lemma_fundamental_div_mod_converse(
                    i * t + j,
                    t as int,
                    i as int,
                    j as int,
                );
            }
            out.push(!(j > i || j < lo));
        }
        assert((i + 1) * t == i * t + t) by (nonlinear_arith);
    }
    assert(out@ =~= windowed(t as nat, window as int));
    out
}

/// Sequences no longer than the window are masked as if there were no window.
pub proof fn law_short_sequences_are_just_causal(t: nat, window: int)
    requires
        t <= window,
    ensures
        windowed(t, window) == causal(t),
{
    assert forall|k: int| 0 <= k < t * t implies windowed(t, window)[k] == causal(t)[k] by {
        vstd::arithmetic::div_mod::lemma_fundamental_div_mod(k, t as int);
        let i = k / t as int;
        assert(i < t) by (nonlinear_arith)
            requires
                t * i <= k,
                k < t * t,
                t >= 0,
        ;
        assert(t > 0) by (nonlinear_arith)
            requires
                0 <= k < t * t,
                t >= 0,
        ;
        vstd::arithmetic::div_mod::lemma_mod_bound(k, t as int);
    }
    assert(windowed(t, window) =~= causal(t));
}

/// Every position sees itself, and no position beyond the window.
pub proof fn law_window_bounds_what_is_seen(i: int, j: int, window: int)
    requires
        window >= 1,
    ensures
        in_window(i, i, window),
        in_window(i, j, window) ==> 0 <= i - j < window,
{
}

/// The vocoder and the stages before it stretch frames to samples by the hop
/// length.
pub proof fn law_hop_is_the_product_of_strides()
    ensures
        2 * 2 * stretch(rates(), rates().len()) == HOP,
{
    let s = rates();
    assert(stretch(s, 0) == 1);
    assert(stretch(s, 1) == stretch(s, 0) * 8);
    assert(stretch(s, 2) == stretch(s, 1) * 8);
    assert(stretch(s, 3) == stretch(s, 2) * 4);
    assert(stretch(s, 4) == stretch(s, 3) * 2);
    assert(s.len() == 4);
}

/// The blocks of the vocoder halve the channels down to those of its last
/// convolution.
pub proof fn law_vocoder_channels()
    ensures
        halved(VOCODER_CHANNELS, 1) == 768,
        halved(VOCODER_CHANNELS, 2) == 384,
        halved(VOCODER_CHANNELS, 3) == 192,
        halved(VOCODER_CHANNELS, rates().len()) == 96,
{
    reveal_with_fuel(halved, 6);
}

/// The number of weights of the decoder.
pub proof fn law_codec_weight_count()
    ensures
        codec_weights().len() == 3 * (1 + N_ACOUSTIC_CODEBOOKS) + (9 * N_TRANSFORMER_LAYERS + 1)
            + 2 * 11 + (2 + rates().len() * 21 + 1 + 2),
{
    lemma_acoustic_len("quantizer"@, N_ACOUSTIC_CODEBOOKS as nat);
    lemma_layers_len("quantizer.post_module"@, N_TRANSFORMER_LAYERS as nat);
    lemma_decoder_blocks_len("decoder"@ + ".model"@, VOCODER_CHANNELS, rates(), rates().len());
}

proof fn lemma_acoustic_len(prefix: Seq<char>, n: nat)
    ensures
        acoustic(prefix, n).len() == 3 * n,
    decreases n,
{
    if n > 0 {
        lemma_acoustic_len(prefix, (n - 1) as nat);
    }
}

proof fn lemma_layers_len(prefix: Seq<char>, n: nat)
    ensures
        transformer_layers(prefix, n).len() == 9 * n,
    decreases n,
{
    if n > 0 {
        lemma_layers_len(prefix, (n - 1) as nat);
    }
}

proof fn lemma_decoder_blocks_len(prefix: Seq<char>, channels: usize, strides: Seq<usize>, n: nat)
    ensures
        decoder_blocks(prefix, channels, strides, n).len() == 21 * n,
    decreases n,
{
    if n > 0 {
        lemma_decoder_blocks_len(prefix, channels, strides, (n - 1) as nat);
    }
}

/// Every frame gives 2048 samples in one channel, for each sequence, whether the
/// stages are shown on the way or not.
pub proof fn law_frames_give_their_samples(
    c: &CodecDecoder,
    batch: usize,
    frames: usize,
    r: (usize, usize, usize),
    d: (Vec<Named>, (usize, usize, usize)),
)
    requires
        call_ensures(CodecDecoder::forward, (c, batch, frames), r),
        call_ensures(CodecDecoder::forward_debug, (c, batch, frames), d),
        frames * 2048 <= usize::MAX,
    ensures
        r.0 == batch,
        r.1 == 1,
        r.2 == frames * 2048,
        d.1 == r,
        d.0@.len() == 10,
{
    assert(d.0@.len() == named_views(d.0@).len());
}

/// The stages that are shown, in their order, with their sides: behind the
/// codebooks and the transformer as long as the frames, behind the first stage
/// that doubles twice, and behind the second one and the first convolution of
/// the vocoder four times as long.
pub proof fn law_stages_are_shown_in_order(
    c: &CodecDecoder,
    batch: usize,
    frames: usize,
    d: (Vec<Named>, (usize, usize, usize)),
)
    requires
        call_ensures(CodecDecoder::forward_debug, (c, batch, frames), d),
        4 * frames <= usize::MAX,
    ensures
        d.0@[0].name@ == "rvq_sum"@ && d.0@[0].dims@ == seq![batch, 1024usize, frames],
        d.0@[1].name@ == "post_module"@ && d.0@[1].dims@ == seq![batch, 1024usize, frames],
        d.0@[2].name@ == "upsample0_conv_tr"@ && d.0@[2].dims@ == seq![
            batch,
            1024usize,
            (2 * frames) as usize,
        ],
        d.0@[3].name@ == "upsample0_dwconv"@ && d.0@[3].dims@ == d.0@[2].dims@,
        d.0@[4].name@ == "upsample0_norm"@ && d.0@[4].dims@ == seq![
            batch,
            (2 * frames) as usize,
            1024usize,
        ],
        d.0@[5].name@ == "upsample0_pwconv1"@ && d.0@[5].dims@ == seq![
            batch,
            (2 * frames) as usize,
            4096usize,
        ],
        d.0@[6].name@ == "upsample0_pwconv2"@ && d.0@[6].dims@ == d.0@[4].dims@,
        d.0@[7].name@ == "upsample0"@ && d.0@[7].dims@ == d.0@[2].dims@,
        d.0@[8].name@ == "upsample1"@ && d.0@[8].dims@ == seq![
            batch,
            1024usize,
            (4 * frames) as usize,
        ],
        d.0@[9].name@ == "decoder_conv1"@ && d.0@[9].dims@ == seq![
            batch,
            1536usize,
            (4 * frames) as usize,
        ],
{
    let v = named_views(d.0@);
    assert(v == debug_stages(batch, frames as int));
    assert(v.len() == 10 && d.0@.len() == 10);
    assert(v[0] == (d.0@[0].name@, d.0@[0].dims@));
    assert(v[1] == (d.0@[1].name@, d.0@[1].dims@));
    assert(v[2] == (d.0@[2].name@, d.0@[2].dims@));
    assert(v[3] == (d.0@[3].name@, d.0@[3].dims@));
    assert(v[4] == (d.0@[4].name@, d.0@[4].dims@));
    assert(v[5] == (d.0@[5].name@, d.0@[5].dims@));
    assert(v[6] == (d.0@[6].name@, d.0@[6].dims@));
    assert(v[7] == (d.0@[7].name@, d.0@[7].dims@));
    assert(v[8] == (d.0@[8].name@, d.0@[8].dims@));
    assert(v[9] == (d.0@[9].name@, d.0@[9].dims@));
}

/// In the mask a position sees itself and as many earlier ones as the window
/// holds with it, and nothing else.
pub proof fn law_mask_shows_the_window(t: usize, window: usize, r: Vec<bool>, i: int, j: int)
    requires
        call_ensures(causal_sliding_window_mask, (t, window), r),
        0 <= i < t,
        0 <= j < t,
    ensures
        r@.len() == t * t,
        0 <= i * t + j < r@.len(),
        r@[i * t + j] <==> 0 <= i - j < window,
{
    assert(0 <= i * t && i * t + t <= t * t) by (nonlinear_arith)
        requires
            0 <= i,
            i + 1 <= t,
    ;
    vstd::arithmetic::div_mod::lemma_fundamental_div_mod_converse(i * t + j, t as int, i, j);
}

/// A convolution is padded in front by what its kernel reaches back, so that it
/// keeps the length; a transposed one is cut behind by what its kernel is longer
/// than its stride, so that it multiplies the length by the stride.
pub proof fn law_convolutions_keep_their_pace(
    kernel: usize,
    dilation: usize,
    groups: usize,
    stride: usize,
    t: usize,
    c: CausalConv1d,
    u: CausalConvTranspose1d,
    kept: usize,
    stretched: usize,
)
    requires
        kernel >= 1,
        call_ensures(causal_conv1d_plain, (kernel, dilation, groups), c),
        call_ensures(causal_conv_transpose1d_plain, (kernel, stride), u),
        call_ensures(CausalConv1d::forward, (&c, t), kept),
        call_ensures(CausalConvTranspose1d::forward, (&u, t), stretched),
    ensures
        c.left_pad == (kernel - 1) * dilation,
        c.kernel == kernel && c.dilation == dilation && c.groups == groups,
        u.trim + stride == kernel,
        u.kernel == kernel && u.stride == stride,
        kept == t,
        stretched == t * stride,
{
}

/// The vocoder stretches by eight, eight, four and two, and its units reach back
/// one, three and nine places at a time; attention has sixteen query heads of 64
/// that share eight, and a window of 128.
pub proof fn law_codec_has_its_sizes(
    rates: Vec<usize>,
    reach: Vec<usize>,
    a: Attention,
)
    requires
        call_ensures(rate_list, (), rates),
        call_ensures(dilation_list, (), reach),
        call_ensures(codec_attention, (), a),
    ensures
        rates@ == seq![8usize, 8, 4, 2],
        reach@ == seq![1usize, 3, 9],
        a.n_head == 16 && a.n_local_heads == 8 && a.head_dim == 64,
        WINDOW == 128,
        HIDDEN == 1024 && FFN_DIM == 1216 && VOCODER_CHANNELS == 1536,
        N_TRANSFORMER_LAYERS == 8 && N_ACOUSTIC_CODEBOOKS == 9,
        HOP == 2048,
{
}

/// The decoder loads the codebooks: one of 4096 entries for semantics and nine
/// of 1024 for acoustics, each with the matrix that spreads its entries.
pub proof fn law_codec_has_its_codebooks(c: CodecDecoder, i: int)
    requires
        call_ensures(CodecDecoder::new, (), c),
        0 <= i < 9,
    ensures
        ({
            let w = named_views(c.weights@);
            let a = "quantizer"@ + ".semantic_quantizer.quantizers.0"@;
            let b = "quantizer"@ + ".quantizer.quantizers."@ + decimal(i as nat);
            &&& w[0] == (a + ".codebook.weight"@, seq![4096usize, 8])
            &&& w[1] == (a + ".out_proj.weight"@, seq![1024usize, 8, 1])
            &&& w[2] == (a + ".out_proj.bias"@, seq![1024usize])
            &&& w[3 + 3 * i] == (b + ".codebook.weight"@, seq![1024usize, 8])
            &&& w[4 + 3 * i] == (b + ".out_proj.weight"@, seq![1024usize, 8, 1])
            &&& w[5 + 3 * i] == (b + ".out_proj.bias"@, seq![1024usize])
        }),
{
    lemma_acoustic_at("quantizer"@, 9, i);
    lemma_acoustic_len("quantizer"@, 9);
}

proof fn lemma_acoustic_at(prefix: Seq<char>, n: nat, i: int)
    requires
        0 <= i < n,
    ensures
        ({
            let q = quantizer(
                prefix + ".quantizer.quantizers."@ + decimal(i as nat),
                1024,
                8,
                HIDDEN,
            );
            &&& acoustic(prefix, n).len() == 3 * n
            &&& acoustic(prefix, n)[3 * i] == q[0]
            &&& acoustic(prefix, n)[3 * i + 1] == q[1]
            &&& acoustic(prefix, n)[3 * i + 2] == q[2]
        }),
    decreases n,
{
    lemma_acoustic_len(prefix, n);
    lemma_acoustic_len(prefix, (n - 1) as nat);
    if i < n - 1 {
        lemma_acoustic_at(prefix, (n - 1) as nat, i);
    }
}

/// The decoder loads eight layers of the transformer, behind the codebooks, each
/// with its two norms, its attention, its feed-forward net and its two scales,
/// and then the last norm.
pub proof fn law_codec_has_its_layers(c: CodecDecoder, i: int)
    requires
        call_ensures(CodecDecoder::new, (), c),
        0 <= i < 8,
    ensures
        ({
            let w = named_views(c.weights@);
            let p = "quantizer.post_module"@ + ".layers."@ + decimal(i as nat);
            let at = 30 + 9 * i;
            &&& w[at] == (p + ".attention_norm.weight"@, seq![1024usize])
            &&& w[at + 1] == (p + ".attention.wqkv.weight"@, seq![1024usize, 2048])
            &&& w[at + 2] == (p + ".attention.wo.weight"@, seq![1024usize, 1024])
            &&& w[at + 3] == (p + ".attention_layer_scale.gamma"@, seq![1024usize])
            &&& w[at + 4] == (p + ".ffn_norm.weight"@, seq![1024usize])
            &&& w[at + 5] == (p + ".feed_forward.w1.weight"@, seq![1024usize, 1216])
            &&& w[at + 6] == (p + ".feed_forward.w2.weight"@, seq![1216usize, 1024])
            &&& w[at + 7] == (p + ".feed_forward.w3.weight"@, seq![1024usize, 1216])
            &&& w[at + 8] == (p + ".ffn_layer_scale.gamma"@, seq![1024usize])
            &&& w[102] == ("quantizer.post_module"@ + ".norm.weight"@, seq![1024usize])
        }),
{
    lemma_acoustic_len("quantizer"@, 9);
    lemma_layers_len("quantizer.post_module"@, 8);
    lemma_layer_at("quantizer.post_module"@, 8, i);
    let layer = transformer_layer("quantizer.post_module"@ + ".layers."@ + decimal(i as nat));
    let w = codec_weights();
    let at = 30 + 9 * i;
    assert forall|k: int| 0 <= k < 9 implies w[at + k] == #[trigger] layer[k] by {}
    assert(w[at + 0] == layer[0] && w[at + 1] == layer[1] && w[at + 2] == layer[2] && w[at + 3]
        == layer[3] && w[at + 4] == layer[4] && w[at + 5] == layer[5] && w[at + 6] == layer[6]
        && w[at + 7] == layer[7] && w[at + 8] == layer[8]);
}

proof fn lemma_layer_at(prefix: Seq<char>, n: nat, i: int)
    requires
        0 <= i < n,
    ensures
        forall|k: int|
            0 <= k < 9 ==> transformer_layers(prefix, n)[9 * i + k] == #[trigger] transformer_layer(
                prefix + ".layers."@ + decimal(i as nat),
            )[k],
    decreases n,
{
    lemma_layers_len(prefix, n);
    lemma_layers_len(prefix, (n - 1) as nat);
    if i < n - 1 {
        lemma_layer_at(prefix, (n - 1) as nat, i);
    }
}

/// The decoder loads two stages that double the length, behind the transformer.
pub proof fn law_codec_has_its_doublings(c: CodecDecoder)
    requires
        call_ensures(CodecDecoder::new, (), c),
    ensures
        ({
            let w = named_views(c.weights@);
            let p = "quantizer.upsample.0"@;
            let q = "quantizer.upsample.1"@;
            &&& w[103] == (p + ".0.conv"@ + ".weight"@, seq![1024usize, 1024, 2])
            &&& w[104] == (p + ".0.conv"@ + ".bias"@, seq![1024usize])
            &&& w[105] == (p + ".1.dwconv.conv"@ + ".weight"@, seq![1024usize, 1, 7])
            &&& w[106] == (p + ".1.dwconv.conv"@ + ".bias"@, seq![1024usize])
            &&& w[107] == (p + ".1.norm.weight"@, seq![1024usize])
            &&& w[108] == (p + ".1.norm.bias"@, seq![1024usize])
            &&& w[109] == (p + ".1.pwconv1.weight"@, seq![1024usize, 4096])
            &&& w[110] == (p + ".1.pwconv1.bias"@, seq![4096usize])
            &&& w[111] == (p + ".1.pwconv2.weight"@, seq![4096usize, 1024])
            &&& w[112] == (p + ".1.pwconv2.bias"@, seq![1024usize])
            &&& w[113] == (p + ".1.gamma"@, seq![1024usize])
            &&& w[114] == (q + ".0.conv"@ + ".weight"@, seq![1024usize, 1024, 2])
            &&& w[116] == (q + ".1.dwconv.conv"@ + ".weight"@, seq![1024usize, 1, 7])
            &&& w[120] == (q + ".1.pwconv1.weight"@, seq![1024usize, 4096])
            &&& w[122] == (q + ".1.pwconv2.weight"@, seq![4096usize, 1024])
            &&& w[124] == (q + ".1.gamma"@, seq![1024usize])
        }),
{
    lemma_acoustic_len("quantizer"@, 9);
    lemma_layers_len("quantizer.post_module"@, 8);
}

/// The decoder loads the vocoder last: its first convolution, four blocks that
/// halve the channels and stretch by their strides, and the last convolution,
/// which leaves one channel.
pub proof fn law_codec_has_its_vocoder(c: CodecDecoder, n: int, unit: int)
    requires
        call_ensures(CodecDecoder::new, (), c),
        1 <= n <= 4,
        0 <= unit < 3,
    ensures
        ({
            let w = named_views(c.weights@);
            let p = "decoder"@ + ".model"@;
            let b = p + "."@ + decimal(n as nat);
            let wide = seq![0usize, 1536, 768, 384, 192][n];
            let half = seq![0usize, 768, 384, 192, 96][n];
            let kernel = seq![0usize, 16, 16, 8, 4][n];
            let at = 127 + 21 * (n - 1);
            let u = b + seq![".block.2"@, ".block.3"@, ".block.4"@][unit];
            let k = at + 3 + 6 * unit;
            &&& w.len() == 127 + 21 * 4 + 3
            &&& w[125] == (p + ".0.conv"@ + ".weight"@, seq![1536usize, 1024, 7])
            &&& w[126] == (p + ".0.conv"@ + ".bias"@, seq![1536usize])
            &&& w[at] == (b + ".block.0"@ + ".alpha"@, seq![1usize, wide, 1])
            &&& w[at + 1] == (b + ".block.1.conv"@ + ".weight"@, seq![wide, half, kernel])
            &&& w[at + 2] == (b + ".block.1.conv"@ + ".bias"@, seq![half])
            &&& w[k] == (u + ".block.0"@ + ".alpha"@, seq![1usize, half, 1])
            &&& w[k + 1] == (u + ".block.1.conv"@ + ".weight"@, seq![half, half, 7usize])
            &&& w[k + 2] == (u + ".block.1.conv"@ + ".bias"@, seq![half])
            &&& w[k + 3] == (u + ".block.2"@ + ".alpha"@, seq![1usize, half, 1])
            &&& w[k + 4] == (u + ".block.3.conv"@ + ".weight"@, seq![half, half, 1usize])
            &&& w[k + 5] == (u + ".block.3.conv"@ + ".bias"@, seq![half])
            &&& w[211] == (p + "."@ + decimal(5) + ".alpha"@, seq![1usize, 96, 1])
            &&& w[212] == (p + "."@ + decimal(6) + ".conv"@ + ".weight"@, seq![1usize, 96, 7])
            &&& w[213] == (p + "."@ + decimal(6) + ".conv"@ + ".bias"@, seq![1usize])
        }),
{
    lemma_acoustic_len("quantizer"@, 9);
    lemma_layers_len("quantizer.post_module"@, 8);
    let p = "decoder"@ + ".model"@;
    lemma_decoder_blocks_len(p, VOCODER_CHANNELS, rates(), 4);
    lemma_decoder_block_at(p, VOCODER_CHANNELS, rates(), 4, n);
    law_vocoder_channels();
    assert(rates().len() == 4);
    assert(halved(VOCODER_CHANNELS, 0) == 1536);
    let w = codec_weights();
    let block = decoder_block(
        p + "."@ + decimal(n as nat),
        halved(VOCODER_CHANNELS, (n - 1) as nat),
        halved(VOCODER_CHANNELS, n as nat),
        rates()[n - 1],
    );
    let at = 127 + 21 * (n - 1);
    assert(block.len() == 21);
    assert forall|k: int| 0 <= k < 21 implies w[at + k] == #[trigger] block[k] by {}
    assert(w[at + 0] == block[0] && w[at + 1] == block[1] && w[at + 2] == block[2]);
    let k = 3 + 6 * unit;
    assert(w[at + k] == block[k]);
    assert(w[at + (k + 1)] == block[k + 1]);
    assert(w[at + (k + 2)] == block[k + 2]);
    assert(w[at + (k + 3)] == block[k + 3]);
    assert(w[at + (k + 4)] == block[k + 4]);
    assert(w[at + (k + 5)] == block[k + 5]);
}

proof fn lemma_decoder_block_at(
    prefix: Seq<char>,
    channels: usize,
    strides: Seq<usize>,
    n: nat,
    i: int,
)
    requires
        1 <= i <= n,
    ensures
        forall|k: int|
            0 <= k < 21 ==> decoder_blocks(prefix, channels, strides, n)[21 * (i - 1) + k]
                == #[trigger] decoder_block(
                prefix + "."@ + decimal(i as nat),
                halved(channels, (i - 1) as nat),
                halved(channels, i as nat),
                strides[i - 1],
            )[k],
    decreases n,
{
    lemma_decoder_blocks_len(prefix, channels, strides, n);
    lemma_decoder_blocks_len(prefix, channels, strides, (n - 1) as nat);
    if i < n {
        lemma_decoder_block_at(prefix, channels, strides, (n - 1) as nat, i);
    }
}

} // verus!
