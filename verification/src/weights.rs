//! The weights of the two language models: their names and shapes, which of
//! them are quantized, and the checks on a file of them.

use vstd::prelude::*;

use crate::chars::{joined, same_chars, to_chars};
use crate::digits::{decimal, is_digit, law_decimal_injective, law_decimal_reads_back, numbered};
use crate::manifest::{CODEBOOK_SIZE, DIM, FAST_DIM, HEAD_DIM, INTERMEDIATE_SIZE, NUM_CODEBOOKS};
use crate::manifest::{N_FAST_LAYER, N_HEAD, N_LAYER, N_LOCAL_HEADS, SLOW_LOGITS_SIZE, VOCAB_SIZE};

verus! {

/// The part of a dotted name behind the last dot.
pub open spec fn leaf(name: Seq<char>) -> Seq<char>
    decreases name.len(),
{
    if name.len() == 0 || name.last() == '.' {
        Seq::empty()
    } else {
        leaf(name.drop_last()).push(name.last())
    }
}

pub open spec fn ends_with(s: Seq<char>, end: Seq<char>) -> bool {
    end.len() <= s.len() && s.skip(s.len() - end.len()) == end
}

/// Whether a weight with that name is worth quantizing: a matrix, as far as the
/// name tells, and not the weight of a norm.
pub open spec fn quantizable(name: Seq<char>) -> bool {
    &&& leaf(name) == "weight"@
    &&& !ends_with(name, "_norm.weight"@)
    &&& name != "norm.weight"@
    &&& name != "fast_norm.weight"@
}

fn text_ends_with(s: &Vec<char>, end: &Vec<char>) -> (r: bool)
    ensures
        r == ends_with(s@, end@),
{
    if end.len() > s.len() {
        return false;
    }
    let n: usize = s.len();
    let from: usize = n - end.len();
    for i in 0..end.len()
        invariant
            n == s@.len(),
            from + end@.len() == n,
            forall|k: int| 0 <= k < i ==> s@[from + k] == end@[k],
    {
        if s[from + i] != end[i] {
            assert(s@.skip(from as int)[i as int] != end@[i as int]);
            return false;
        }
    }
    assert(s@.skip(from as int) =~= end@);
    true
}

fn leaf_of(name: &Vec<char>) -> (r: Vec<char>)
    ensures
        r@ == leaf(name@),
{
    let n: usize = name.len();
    let mut out: Vec<char> = Vec::new();
    assert(name@.take(0) =~= Seq::<char>::empty());
    for i in 0..n
        invariant
            n == name@.len(),
            out@ == leaf(name@.take(i as int)),
    {
        assert(name@.take(i + 1).drop_last() =~= name@.take(i as int));
        if name[i] == '.' {
            out = Vec::new();
        } else {
            out.push(name[i]);
        }
    }
    assert(name@.take(n as int) =~= name@);
    out
}

pub fn should_quantize(name: &str) -> (r: bool)
    ensures
        r == quantizable(name@),
{
    let chars = to_chars(name);
    let last = leaf_of(&chars);
    let weight = to_chars("weight");
    if !same_chars(&last, &weight) {
        return false;
    }
    let any_norm = to_chars("_norm.weight");
    let norm = to_chars("norm.weight");
    let fast_norm = to_chars("fast_norm.weight");
    !(text_ends_with(&chars, &any_norm) || same_chars(&chars, &norm) || same_chars(
        &chars,
        &fast_norm,
    ))
}

/// How a weight is stored.
#[derive(Debug, Clone, Copy, PartialEq, Eq, Structural)]
pub enum Storage {
    /// In blocks of four-bit numbers.
    Quantized,
    /// As plain numbers, since its rows are no whole number of blocks.
    PlainFallback,
    /// As plain numbers.
    Plain,
}

/// The number of weights in a block.
pub const BLOCK: usize = 32;

pub open spec fn storage_of(name: Seq<char>, dims: Seq<usize>) -> Storage {
    if dims.len() == 2 && quantizable(name) {
        if dims[1] % BLOCK == 0 {
            Storage::Quantized
        } else {
            Storage::PlainFallback
        }
    } else {
        Storage::Plain
    }
}

pub fn storage(name: &str, dims: &Vec<usize>) -> (r: Storage)
    ensures
        r == storage_of(name@, dims@),
{
    if dims.len() == 2 && should_quantize(name) {
        if dims[1] % BLOCK == 0 {
            Storage::Quantized
        } else {
            Storage::PlainFallback
        }
    } else {
        Storage::Plain
    }
}

/// What a report calls a way of storing.
pub open spec fn storage_label(s: Storage) -> Seq<char> {
    match s {
        Storage::Quantized => "Q4_0"@,
        Storage::PlainFallback => "F32(fallback)"@,
        Storage::Plain => "F32"@,
    }
}

pub fn label(s: Storage) -> (r: &'static str)
    ensures
        r@ == storage_label(s),
{
    match s {
        Storage::Quantized => "Q4_0",
        Storage::PlainFallback => "F32(fallback)",
        Storage::Plain => "F32",
    }
}

/// A named array of weights, by its name and its sides.
#[derive(Debug)]
pub struct Named {
    pub name: String,
    pub dims: Vec<usize>,
}

/// How each of several arrays is stored, and how many are quantized or not.
#[derive(Debug)]
pub struct RepackPlan {
    pub stored: Vec<Storage>,
    pub n_quantized: usize,
    pub n_plain: usize,
}

pub open spec fn repacked(arrays: Seq<Named>) -> Seq<Storage> {
    arrays.map_values(|a: Named| storage_of(a.name@, a.dims@))
}

/// How many of them are quantized.
pub open spec fn quantized_count(stored: Seq<Storage>) -> nat
    decreases stored.len(),
{
    if stored.len() == 0 {
        0
    } else {
        quantized_count(stored.drop_last()) + if stored.last() == Storage::Quantized {
            1nat
        } else {
            0nat
        }
    }
}

/// How the arrays of a file are stored.
pub fn repack_one(arrays: &Vec<Named>) -> (r: RepackPlan)
    ensures
        r.stored@ == repacked(arrays@),
        r.n_quantized == quantized_count(r.stored@),
        r.n_quantized + r.n_plain == arrays@.len(),
{
    let n: usize = arrays.len();
    let mut stored: Vec<Storage> = Vec::new();
    let mut n_quantized: usize = 0;
    let mut n_plain: usize = 0;
    for i in 0..n
        invariant
            n == arrays@.len(),
            stored@ == repacked(arrays@).take(i as int),
            n_quantized == quantized_count(stored@),
            n_quantized + n_plain == i,
    {
        let s = storage(&arrays[i].name, &arrays[i].dims);
        let ghost before = stored@;
        stored.push(s);
        assert(stored@.drop_last() =~= before);
        assert(stored@ =~= repacked(arrays@).take(i + 1));
        match s {
            Storage::Quantized => {
                n_quantized = n_quantized + 1;
            },
            _ => {
                n_plain = n_plain + 1;
            },
        }
    }
    assert(stored@ =~= repacked(arrays@));
    RepackPlan { stored, n_quantized, n_plain }
}

/// `a` stands before `b` in a dictionary that goes by code points.
pub open spec fn text_before(a: Seq<char>, b: Seq<char>) -> bool
    decreases a.len(),
{
    if b.len() == 0 {
        false
    } else if a.len() == 0 {
        true
    } else if a[0] == b[0] {
        text_before(a.drop_first(), b.drop_first())
    } else {
        (a[0] as u32) < (b[0] as u32)
    }
}

fn comes_before(a: &Vec<char>, b: &Vec<char>) -> (r: bool)
    ensures
        r == text_before(a@, b@),
{
    let mut i: usize = 0;
    assert(a@.skip(0) =~= a@);
    assert(b@.skip(0) =~= b@);
    while i < a.len() && i < b.len()
        invariant
            i <= a@.len(),
            i <= b@.len(),
            text_before(a@, b@) == text_before(a@.skip(i as int), b@.skip(i as int)),
        decreases a@.len() - i,
    {
        let x: char = a[i];
        let y: char = b[i];
        let ghost s = a@.skip(i as int);
        let ghost t = b@.skip(i as int);
        assert(s[0] == x && t[0] == y);
        if x != y {
            return (x as u32) < (y as u32);
        }
        assert(s.drop_first() =~= a@.skip(i + 1));
        assert(t.drop_first() =~= b@.skip(i + 1));
        i = i + 1;
    }
    i < b.len()
}

proof fn lemma_before_is_total(a: Seq<char>, b: Seq<char>)
    ensures
        text_before(a, b) || text_before(b, a) || a == b,
        !(text_before(a, b) && text_before(b, a)),
    decreases a.len() + b.len(),
{
    if a.len() > 0 && b.len() > 0 && a[0] == b[0] {
        lemma_before_is_total(a.drop_first(), b.drop_first());
        if a.drop_first() == b.drop_first() {
            assert(a =~= seq![a[0]] + a.drop_first());
            assert(b =~= seq![b[0]] + b.drop_first());
        }
    } else if a.len() == 0 && b.len() == 0 {
        assert(a =~= b);
    } else if a.len() > 0 && b.len() > 0 {
        lemma_char_number(a[0], b[0]);
    }
}

proof fn lemma_char_number(a: char, b: char)
    ensures
        a as u32 == b as u32 ==> a == b,
{
}

proof fn lemma_before_is_transitive(a: Seq<char>, b: Seq<char>, c: Seq<char>)
    requires
        text_before(a, b),
        text_before(b, c),
    ensures
        text_before(a, c),
    decreases a.len(),
{
    if a.len() > 0 && a[0] == b[0] && b[0] == c[0] {
        lemma_before_is_transitive(a.drop_first(), b.drop_first(), c.drop_first());
    }
}

pub open spec fn names_of(arrays: Seq<Named>) -> Seq<Seq<char>> {
    arrays.map_values(|a: Named| a.name@)
}

/// The name of array `k` is listed by that array or a later one.
pub open spec fn is_listed(order: Seq<usize>, names: Seq<Seq<char>>, k: int) -> bool {
    exists|i: int|
        0 <= i < order.len() && #[trigger] order[i] >= k && names[order[i] as int] == names[k]
}

/// `order` lists the names in the order of a dictionary: each name once, by the
/// last array that has it.
pub open spec fn is_index(order: Seq<usize>, names: Seq<Seq<char>>) -> bool {
    &&& forall|i: int| 0 <= i < order.len() ==> #[trigger] order[i] < names.len()
    &&& forall|i: int, j: int|
        0 <= i < j < order.len() ==> text_before(
            names[#[trigger] order[i] as int],
            names[#[trigger] order[j] as int],
        )
    &&& forall|k: int| 0 <= k < names.len() ==> #[trigger] is_listed(order, names, k)
}

/// A name that is there already is listed by its latest array.
proof fn lemma_index_replace(order: Seq<usize>, names: Seq<Seq<char>>, at: int, k: usize)
    requires
        names.len() == k + 1,
        is_index(order, names.take(k as int)),
        0 <= at < order.len(),
        names[order[at] as int] == names[k as int],
    ensures
        is_index(order.update(at, k), names),
{
    let part = names.take(k as int);
    let new = order.update(at, k);
    assert forall|i: int, j: int| 0 <= i < j < new.len() implies text_before(
        names[#[trigger] new[i] as int],
        names[#[trigger] new[j] as int],
    ) by {
        assert(order[i] < part.len() && order[j] < part.len());
        assert(text_before(part[order[i] as int], part[order[j] as int]));
    }
    assert forall|q: int| 0 <= q < names.len() implies #[trigger] is_listed(new, names, q) by {
        if q < k {
            assert(is_listed(order, part, q));
            let i = choose|i: int|
                0 <= i < order.len() && #[trigger] order[i] >= q && part[order[i] as int]
                    == part[q];
            assert(order[i] < part.len());
            assert(new[i] >= q && names[new[i] as int] == names[q]);
        } else {
            assert(new[at] >= q && names[new[at] as int] == names[q]);
        }
    }
}

/// A new name is listed between the smaller and the greater ones.
proof fn lemma_index_insert(order: Seq<usize>, names: Seq<Seq<char>>, at: int, k: usize)
    requires
        names.len() == k + 1,
        is_index(order, names.take(k as int)),
        0 <= at <= order.len(),
        forall|i: int|
            0 <= i < at ==> text_before(names[#[trigger] order[i] as int], names[k as int]),
        at < order.len() ==> text_before(names[k as int], names[order[at] as int]),
    ensures
        is_index(order.insert(at, k), names),
{
    let part = names.take(k as int);
    let new = order.insert(at, k);
    assert forall|i: int| at <= i < order.len() implies text_before(
        names[k as int],
        names[#[trigger] order[i] as int],
    ) by {
        assert(order[i] < part.len() && order[at] < part.len());
        if i > at {
            assert(text_before(part[order[at] as int], part[order[i] as int]));
            lemma_before_is_transitive(
                names[k as int],
                names[order[at] as int],
                names[order[i] as int],
            );
        }
    }
    assert forall|i: int, j: int| 0 <= i < j < new.len() implies text_before(
        names[#[trigger] new[i] as int],
        names[#[trigger] new[j] as int],
    ) by {
        let i0 = if i < at {
            i
        } else {
            i - 1
        };
        let j0 = if j < at {
            j
        } else {
            j - 1
        };
        if i == at {
            assert(new[j] == order[j0]);
        } else if j == at {
            assert(new[i] == order[i0]);
        } else {
            assert(new[i] == order[i0] && new[j] == order[j0]);
            assert(order[i0] < part.len() && order[j0] < part.len());
            assert(text_before(part[order[i0] as int], part[order[j0] as int]));
        }
    }
    assert forall|i: int| 0 <= i < new.len() implies #[trigger] new[i] < names.len() by {
        if i < at {
            assert(new[i] == order[i]);
        } else if i > at {
            assert(new[i] == order[i - 1]);
        }
    }
    assert forall|q: int| 0 <= q < names.len() implies #[trigger] is_listed(new, names, q) by {
        if q < k {
            assert(is_listed(order, part, q));
            let i = choose|i: int|
                0 <= i < order.len() && #[trigger] order[i] >= q && part[order[i] as int]
                    == part[q];
            assert(order[i] < part.len());
            let i1 = if i < at {
                i
            } else {
                i + 1
            };
            assert(new[i1] == order[i]);
        } else {
            assert(new[at] >= q && names[new[at] as int] == names[q]);
        }
    }
}

/// The arrays in the order of their names; of those with the same name, only the
/// last.
pub fn name_index(arrays: &Vec<Named>) -> (r: Vec<usize>)
    ensures
        is_index(r@, names_of(arrays@)),
{
    let ghost names = names_of(arrays@);
    let mut order: Vec<usize> = Vec::new();
    let mut texts: Vec<Vec<char>> = Vec::new();
    for k in 0..arrays.len()
        invariant
            names == names_of(arrays@),
            texts@.len() == k,
            forall|q: int| #![trigger texts@[q]] 0 <= q < k ==> texts@[q]@ == names[q],
            is_index(order@, names.take(k as int)),
    {
        let text = to_chars(&arrays[k].name);
        let at: usize = place_for(&order, &texts, &text, Ghost(names.take(k as int)));
        let ghost next = names.take(k + 1);
        proof {
            assert(next.take(k as int) =~= names.take(k as int));
            assert forall|i: int| 0 <= i < at implies text_before(
                next[#[trigger] order@[i] as int],
                text@,
            ) by {
                assert(next[order@[i] as int] == next.take(k as int)[order@[i] as int]);
            }
            if at < order@.len() {
                assert(order@[at as int] < k);
                lemma_before_is_total(next[order@[at as int] as int], text@);
            }
        }
        if at < order.len() && same_chars(&texts[order[at]], &text) {
            proof {
                lemma_index_replace(order@, next, at as int, k);
            }
            order.set(at, k);
        } else {
            proof {
                lemma_index_insert(order@, next, at as int, k);
            }
            order.insert(at, k);
        }
        texts.push(text);
    }
    assert(names.take(names.len() as int) =~= names);
    order
}

/// How many of the listed names come before `text`.
fn place_for(
    order: &Vec<usize>,
    texts: &Vec<Vec<char>>,
    text: &Vec<char>,
    Ghost(names): Ghost<Seq<Seq<char>>>,
) -> (r: usize)
    requires
        texts@.len() == names.len(),
        forall|q: int| #![trigger texts@[q]] 0 <= q < names.len() ==> texts@[q]@ == names[q],
        is_index(order@, names),
    ensures
        r <= order@.len(),
        forall|i: int| 0 <= i < r ==> text_before(names[#[trigger] order@[i] as int], text@),
        r < order@.len() ==> !text_before(names[order@[r as int] as int], text@),
{
    for at in 0..order.len()
        invariant
            texts@.len() == names.len(),
            forall|q: int| #![trigger texts@[q]] 0 <= q < names.len() ==> texts@[q]@ == names[q],
            is_index(order@, names),
            forall|i: int| 0 <= i < at ==> text_before(names[#[trigger] order@[i] as int], text@),
    {
        assert(order@[at as int] < names.len());
        if !comes_before(&texts[order[at]], text) {
            return at;
        }
    }
    order.len()
}

/// How the models use a weight.
#[derive(Debug, Clone, Copy, PartialEq, Eq, Structural)]
pub enum Form {
    /// As a matrix that stays quantized.
    Matrix,
    /// As plain numbers.
    Dense,
}

/// A weight of a model.
#[derive(Debug)]
pub struct WeightPlan {
    pub name: String,
    pub dims: Vec<usize>,
    pub form: Form,
}

/// The form of a weight in specifications.
pub ghost struct Weight {
    pub name: Seq<char>,
    pub dims: Seq<usize>,
    pub form: Form,
}

pub open spec fn weight(name: Seq<char>, dims: Seq<usize>, form: Form) -> Weight {
    Weight { name, dims, form }
}

pub open spec fn weights_of(plans: Seq<WeightPlan>) -> Seq<Weight> {
    plans.map_values(|p: WeightPlan| weight(p.name@, p.dims@, p.form))
}

/// The number of rows that project to queries, keys and values.
pub const QKV_DIM: usize = (N_HEAD + 2 * N_LOCAL_HEADS) * HEAD_DIM;

/// The size of all heads together.
pub const HEADS_DIM: usize = N_HEAD * HEAD_DIM;

/// The weights of one transformer block, in the order of loading.
pub open spec fn block(prefix: Seq<char>, bias: bool) -> Seq<Weight> {
    seq![weight(prefix + ".attention.wqkv.weight"@, seq![QKV_DIM, DIM], Form::Matrix)] + (
    if bias {
        seq![weight(prefix + ".attention.wqkv.bias"@, seq![QKV_DIM], Form::Dense)]
    } else {
        Seq::empty()
    }) + seq![
        weight(prefix + ".attention.wo.weight"@, seq![HEADS_DIM, DIM], Form::Matrix),
        weight(prefix + ".feed_forward.w1.weight"@, seq![INTERMEDIATE_SIZE, DIM], Form::Matrix),
        weight(prefix + ".feed_forward.w2.weight"@, seq![DIM, INTERMEDIATE_SIZE], Form::Matrix),
        weight(prefix + ".feed_forward.w3.weight"@, seq![INTERMEDIATE_SIZE, DIM], Form::Matrix),
        weight(prefix + ".attention_norm.weight"@, seq![DIM], Form::Dense),
        weight(prefix + ".ffn_norm.weight"@, seq![DIM], Form::Dense),
    ]
}

/// The weights of `n` blocks, whose names are numbered.
pub open spec fn blocks(prefix: Seq<char>, n: nat, bias: bool) -> Seq<Weight>
    decreases n,
{
    if n == 0 {
        Seq::empty()
    } else {
        blocks(prefix, (n - 1) as nat, bias) + block(prefix + decimal((n - 1) as nat), bias)
    }
}

/// The weights of the slow model, in the order of loading.
pub open spec fn slow_weights() -> Seq<Weight> {
    seq![
        weight("embeddings.weight"@, seq![VOCAB_SIZE, DIM], Form::Dense),
        weight(
            "codebook_embeddings.weight"@,
            seq![(CODEBOOK_SIZE * NUM_CODEBOOKS) as usize, DIM],
            Form::Dense,
        ),
    ] + blocks("layers."@, N_LAYER as nat, true) + seq![
        weight("norm.weight"@, seq![DIM], Form::Dense),
        weight("lm_head.weight"@, seq![SLOW_LOGITS_SIZE, DIM], Form::Matrix),
    ]
}

/// The weights of the fast model, in the order of loading.
pub open spec fn fast_weights() -> Seq<Weight> {
    seq![weight("fast_embeddings.weight"@, seq![CODEBOOK_SIZE, FAST_DIM], Form::Dense)] + blocks(
        "fast_layers."@,
        N_FAST_LAYER as nat,
        false,
    ) + seq![
        weight("fast_norm.weight"@, seq![FAST_DIM], Form::Dense),
        weight("fast_output.weight"@, seq![CODEBOOK_SIZE, FAST_DIM], Form::Matrix),
    ]
}

fn push_matrix(plans: &mut Vec<WeightPlan>, prefix: &str, name: &str, rows: usize, cols: usize)
    ensures
        weights_of(final(plans)@) == weights_of(old(plans)@).push(
            weight(prefix@ + name@, seq![rows, cols], Form::Matrix),
        ),
{
    let dims: Vec<usize> = vec![rows, cols];
    assert(dims@ =~= seq![rows, cols]);
    plans.push(WeightPlan { name: joined(prefix, name), dims, form: Form::Matrix });
    assert(weights_of(plans@) =~= weights_of(old(plans)@).push(
        weight(prefix@ + name@, seq![rows, cols], Form::Matrix),
    ));
}

fn push_dense(plans: &mut Vec<WeightPlan>, prefix: &str, name: &str, dims: Vec<usize>)
    ensures
        weights_of(final(plans)@) == weights_of(old(plans)@).push(
            weight(prefix@ + name@, dims@, Form::Dense),
        ),
{
    let ghost sides = dims@;
    plans.push(WeightPlan { name: joined(prefix, name), dims, form: Form::Dense });
    assert(weights_of(plans@) =~= weights_of(old(plans)@).push(
        weight(prefix@ + name@, sides, Form::Dense),
    ));
}

fn side(n: usize) -> (r: Vec<usize>)
    ensures
        r@ == seq![n],
{
    let v: Vec<usize> = vec![n];
    assert(v@ =~= seq![n]);
    v
}

fn two_sides(rows: usize, cols: usize) -> (r: Vec<usize>)
    ensures
        r@ == seq![rows, cols],
{
    let v: Vec<usize> = vec![rows, cols];
    assert(v@ =~= seq![rows, cols]);
    v
}

/// Appends the weights of the block `prefix`, in the order of loading.
pub fn load_block(plans: &mut Vec<WeightPlan>, prefix: &str, qkv_bias: bool)
    ensures
        weights_of(final(plans)@) == weights_of(old(plans)@) + block(prefix@, qkv_bias),
{
    let ghost before = weights_of(plans@);
    push_matrix(plans, prefix, ".attention.wqkv.weight", QKV_DIM, DIM);
    if qkv_bias {
        push_dense(plans, prefix, ".attention.wqkv.bias", side(QKV_DIM));
    }
    push_matrix(plans, prefix, ".attention.wo.weight", HEADS_DIM, DIM);
    push_matrix(plans, prefix, ".feed_forward.w1.weight", INTERMEDIATE_SIZE, DIM);
    push_matrix(plans, prefix, ".feed_forward.w2.weight", DIM, INTERMEDIATE_SIZE);
    push_matrix(plans, prefix, ".feed_forward.w3.weight", INTERMEDIATE_SIZE, DIM);
    push_dense(plans, prefix, ".attention_norm.weight", side(DIM));
    push_dense(plans, prefix, ".ffn_norm.weight", side(DIM));
    assert(weights_of(plans@) =~= before + block(prefix@, qkv_bias));
}

fn load_blocks(plans: &mut Vec<WeightPlan>, prefix: &str, n: usize, qkv_bias: bool)
    ensures
        weights_of(final(plans)@) == weights_of(old(plans)@) + blocks(prefix@, n as nat, qkv_bias),
{
    let ghost before = weights_of(plans@);
    assert(before + blocks(prefix@, 0, qkv_bias) =~= before);
    for i in 0..n
        invariant
            weights_of(plans@) == before + blocks(prefix@, i as nat, qkv_bias),
    {
        let ghost start = weights_of(plans@);
        let name = numbered(prefix, i);
        load_block(plans, &name, qkv_bias);
        assert(weights_of(plans@) =~= before + blocks(prefix@, (i + 1) as nat, qkv_bias));
    }
}

/// The weights of the slow model.
pub fn slow_weight_plan() -> (r: Vec<WeightPlan>)
    ensures
        weights_of(r@) == slow_weights(),
{
    let mut plans: Vec<WeightPlan> = Vec::new();
    push_dense(&mut plans, "", "embeddings.weight", two_sides(VOCAB_SIZE, DIM));
    push_dense(
        &mut plans,
        "",
        "codebook_embeddings.weight",
        two_sides(CODEBOOK_SIZE * NUM_CODEBOOKS, DIM),
    );
    load_blocks(&mut plans, "layers.", N_LAYER, true);
    push_dense(&mut plans, "", "norm.weight", side(DIM));
    push_matrix(&mut plans, "", "lm_head.weight", SLOW_LOGITS_SIZE, DIM);
    proof {
        reveal_strlit("");
        assert(""@ + "embeddings.weight"@ =~= "embeddings.weight"@);
        assert(""@ + "codebook_embeddings.weight"@ =~= "codebook_embeddings.weight"@);
        assert(""@ + "norm.weight"@ =~= "norm.weight"@);
        assert(""@ + "lm_head.weight"@ =~= "lm_head.weight"@);
        assert(weights_of(plans@) =~= slow_weights());
    }
    plans
}

/// The weights of the fast model.
pub fn fast_weight_plan() -> (r: Vec<WeightPlan>)
    ensures
        weights_of(r@) == fast_weights(),
{
    let mut plans: Vec<WeightPlan> = Vec::new();
    push_dense(&mut plans, "", "fast_embeddings.weight", two_sides(CODEBOOK_SIZE, FAST_DIM));
    load_blocks(&mut plans, "fast_layers.", N_FAST_LAYER, false);
    push_dense(&mut plans, "", "fast_norm.weight", side(FAST_DIM));
    push_matrix(&mut plans, "", "fast_output.weight", CODEBOOK_SIZE, FAST_DIM);
    proof {
        reveal_strlit("");
        assert(""@ + "fast_embeddings.weight"@ =~= "fast_embeddings.weight"@);
        assert(""@ + "fast_norm.weight"@ =~= "fast_norm.weight"@);
        assert(""@ + "fast_output.weight"@ =~= "fast_output.weight"@);
        assert(weights_of(plans@) =~= fast_weights());
    }
    plans
}

/// The number of weights of a block.
pub open spec fn block_len(bias: bool) -> nat {
    if bias {
        8
    } else {
        7
    }
}

/// What the name of a weight of a block adds to the name of the block.
pub open spec fn block_suffix(bias: bool, k: int) -> Seq<char> {
    let place = if bias || k == 0 {
        k
    } else {
        k + 1
    };
    if place == 0 {
        ".attention.wqkv.weight"@
    } else if place == 1 {
        ".attention.wqkv.bias"@
    } else if place == 2 {
        ".attention.wo.weight"@
    } else if place == 3 {
        ".feed_forward.w1.weight"@
    } else if place == 4 {
        ".feed_forward.w2.weight"@
    } else if place == 5 {
        ".feed_forward.w3.weight"@
    } else if place == 6 {
        ".attention_norm.weight"@
    } else {
        ".ffn_norm.weight"@
    }
}

proof fn lemma_block(prefix: Seq<char>, bias: bool, k: int)
    requires
        0 <= k < block_len(bias),
    ensures
        block(prefix, bias).len() == block_len(bias),
        block(prefix, bias)[k].name == prefix + block_suffix(bias, k),
{
}

proof fn lemma_blocks(prefix: Seq<char>, n: nat, bias: bool, k: int)
    requires
        0 <= k < n * block_len(bias),
    ensures
        blocks(prefix, n, bias).len() == n * block_len(bias),
        0 <= k / block_len(bias) as int <= n - 1,
        0 <= k % (block_len(bias) as int) < block_len(bias),
        blocks(prefix, n, bias)[k] == block(
            prefix + decimal((k / block_len(bias) as int) as nat),
            bias,
        )[k % (block_len(bias) as int)],
    decreases n,
{
    let size = block_len(bias) as int;
    lemma_blocks_len(prefix, n, bias);
    lemma_blocks_len(prefix, (n - 1) as nat, bias);
    lemma_block(prefix + decimal((n - 1) as nat), bias, 0);
    if k < (n - 1) * size {
        lemma_blocks(prefix, (n - 1) as nat, bias, k);
    } else {
        vstd::arithmetic::div_mod::lemma_fundamental_div_mod_converse(
            k,
            size,
            n - 1,
            k - (n - 1) * size,
        );
    }
}

proof fn lemma_blocks_len(prefix: Seq<char>, n: nat, bias: bool)
    ensures
        blocks(prefix, n, bias).len() == n * block_len(bias),
    decreases n,
{
    if n > 0 {
        lemma_blocks_len(prefix, (n - 1) as nat, bias);
        lemma_block(prefix + decimal((n - 1) as nat), bias, 0);
        assert((n - 1) * block_len(bias) + block_len(bias) == n * block_len(bias))
            by (nonlinear_arith);
    }
}

/// The slow model has 196 weights and the fast model has 31.
pub proof fn law_weight_counts()
    ensures
        slow_weights().len() == 2 + N_LAYER * 8 + 2,
        fast_weights().len() == 1 + N_FAST_LAYER * 7 + 2,
{
    lemma_blocks_len("layers."@, N_LAYER as nat, true);
    lemma_blocks_len("fast_layers."@, N_FAST_LAYER as nat, false);
}

proof fn lemma_leaf_of_weight(a: Seq<char>)
    ensures
        leaf(a + ".weight"@) == "weight"@,
{
    reveal_strlit(".weight");
    reveal_strlit("weight");
    let s0 = a + ".weight"@;
    let s1 = s0.drop_last();
    let s2 = s1.drop_last();
    let s3 = s2.drop_last();
    let s4 = s3.drop_last();
    let s5 = s4.drop_last();
    let s6 = s5.drop_last();
    assert(leaf(s6) =~= Seq::<char>::empty());
    assert(leaf(s5) == leaf(s6).push('w'));
    assert(leaf(s4) == leaf(s5).push('e'));
    assert(leaf(s3) == leaf(s4).push('i'));
    assert(leaf(s2) == leaf(s3).push('g'));
    assert(leaf(s1) == leaf(s2).push('h'));
    assert(leaf(s0) == leaf(s1).push('t'));
    assert(leaf(s0) =~= "weight"@);
}

proof fn lemma_other_end(a: Seq<char>, b: Seq<char>, end: Seq<char>, at: int)
    requires
        end.len() <= b.len(),
        0 <= at < end.len(),
        b[b.len() - end.len() + at] != end[at],
    ensures
        !ends_with(a + b, end),
{
    let s = a + b;
    assert(s.skip(s.len() - end.len())[at] == b[b.len() - end.len() + at]);
}

/// A matrix of a block is quantized, a bias or the weight of a norm is not.
proof fn lemma_block_storage(prefix: Seq<char>, bias: bool, k: int)
    requires
        0 <= k < block_len(bias),
    ensures
        ({
            let w = block(prefix, bias)[k];
            let stored = storage_of(w.name, w.dims);
            &&& stored == Storage::Quantized <==> w.form == Form::Matrix
            &&& stored == Storage::Plain <==> w.form == Form::Dense
        }),
{
    lemma_block(prefix, bias, k);
    let w = block(prefix, bias)[k];
    let b = block_suffix(bias, k);
    if w.form == Form::Matrix {
        reveal_strlit(".attention.wqkv.weight");
        reveal_strlit(".attention.wo.weight");
        reveal_strlit(".feed_forward.w1.weight");
        reveal_strlit(".feed_forward.w2.weight");
        reveal_strlit(".feed_forward.w3.weight");
        reveal_strlit(".weight");
        reveal_strlit("_norm.weight");
        reveal_strlit("norm.weight");
        reveal_strlit("fast_norm.weight");
        let a = prefix + b.take(b.len() - 7);
        assert(w.name =~= a + ".weight"@);
        lemma_leaf_of_weight(a);
        lemma_other_end(prefix, b, "_norm.weight"@, 4);
    }
}

proof fn lemma_named_storage(name: Seq<char>, stem: Seq<char>)
    requires
        name == stem + ".weight"@,
        stem.len() > 0,
        stem.last() != 'm',
    ensures
        quantizable(name),
{
    reveal_strlit(".weight");
    reveal_strlit("_norm.weight");
    reveal_strlit("norm.weight");
    reveal_strlit("fast_norm.weight");
    lemma_leaf_of_weight(stem);
    assert(name[name.len() - 8] != 'm');
    if ends_with(name, "_norm.weight"@) {
        assert(name.skip(name.len() - 12)[4] == name[name.len() - 8]);
    }
    assert("fast_norm.weight"@["fast_norm.weight"@.len() - 8] == 'm');
    assert("norm.weight"@["norm.weight"@.len() - 8] == 'm');
}

/// A weight of the slow model is quantized exactly where it has two sides, and
/// none falls back to plain numbers.
pub proof fn law_slow_matrices_are_quantized(k: int)
    requires
        0 <= k < slow_weights().len(),
    ensures
        ({
            let w = slow_weights()[k];
            storage_of(w.name, w.dims) == if w.dims.len() == 2 {
                Storage::Quantized
            } else {
                Storage::Plain
            }
        }),
{
    law_weight_counts();
    lemma_blocks_len("layers."@, N_LAYER as nat, true);
    if 2 <= k < 2 + N_LAYER * 8 {
        lemma_blocks("layers."@, N_LAYER as nat, true, k - 2);
        lemma_block_storage("layers."@ + decimal(((k - 2) / 8) as nat), true, (k - 2) % 8);
    } else {
        reveal_strlit(".weight");
        reveal_strlit("embeddings");
        reveal_strlit("embeddings.weight");
        reveal_strlit("codebook_embeddings");
        reveal_strlit("codebook_embeddings.weight");
        reveal_strlit("lm_head");
        reveal_strlit("lm_head.weight");
        assert("embeddings.weight"@ =~= "embeddings"@ + ".weight"@);
        assert("codebook_embeddings.weight"@ =~= "codebook_embeddings"@ + ".weight"@);
        assert("lm_head.weight"@ =~= "lm_head"@ + ".weight"@);
        lemma_named_storage("embeddings.weight"@, "embeddings"@);
        lemma_named_storage("codebook_embeddings.weight"@, "codebook_embeddings"@);
        lemma_named_storage("lm_head.weight"@, "lm_head"@);
    }
}

/// A weight of the fast model is quantized exactly where it has two sides, and
/// none falls back to plain numbers.
pub proof fn law_fast_matrices_are_quantized(k: int)
    requires
        0 <= k < fast_weights().len(),
    ensures
        ({
            let w = fast_weights()[k];
            storage_of(w.name, w.dims) == if w.dims.len() == 2 {
                Storage::Quantized
            } else {
                Storage::Plain
            }
        }),
{
    law_weight_counts();
    lemma_blocks_len("fast_layers."@, N_FAST_LAYER as nat, false);
    if 1 <= k < 1 + N_FAST_LAYER * 7 {
        lemma_blocks("fast_layers."@, N_FAST_LAYER as nat, false, k - 1);
        lemma_block_storage("fast_layers."@ + decimal(((k - 1) / 7) as nat), false, (k - 1) % 7);
    } else {
        reveal_strlit(".weight");
        reveal_strlit("fast_embeddings");
        reveal_strlit("fast_embeddings.weight");
        reveal_strlit("fast_output");
        reveal_strlit("fast_output.weight");
        assert("fast_embeddings.weight"@ =~= "fast_embeddings"@ + ".weight"@);
        assert("fast_output.weight"@ =~= "fast_output"@ + ".weight"@);
        lemma_named_storage("fast_embeddings.weight"@, "fast_embeddings"@);
        lemma_named_storage("fast_output.weight"@, "fast_output"@);
    }
}

proof fn lemma_suffixes_differ(bias: bool, a: int, b: int)
    requires
        0 <= a < block_len(bias),
        0 <= b < block_len(bias),
        a != b,
    ensures
        block_suffix(bias, a) != block_suffix(bias, b),
{
    reveal_strlit(".attention.wqkv.weight");
    reveal_strlit(".attention.wqkv.bias");
    reveal_strlit(".attention.wo.weight");
    reveal_strlit(".feed_forward.w1.weight");
    reveal_strlit(".feed_forward.w2.weight");
    reveal_strlit(".feed_forward.w3.weight");
    reveal_strlit(".attention_norm.weight");
    reveal_strlit(".ffn_norm.weight");
    let s = block_suffix(bias, a);
    let t = block_suffix(bias, b);
    assert(s.len() != t.len() || s[10] != t[10] || s[12] != t[12] || s[15] != t[15]);
}

proof fn lemma_suffix_is_dotted(bias: bool, a: int)
    ensures
        block_suffix(bias, a).len() > 0,
        block_suffix(bias, a)[0] == '.',
{
    reveal_strlit(".attention.wqkv.weight");
    reveal_strlit(".attention.wqkv.bias");
    reveal_strlit(".attention.wo.weight");
    reveal_strlit(".feed_forward.w1.weight");
    reveal_strlit(".feed_forward.w2.weight");
    reveal_strlit(".feed_forward.w3.weight");
    reveal_strlit(".attention_norm.weight");
    reveal_strlit(".ffn_norm.weight");
}

/// A number that a dot follows can be told from any other.
proof fn lemma_dotted_numbers(p: nat, q: nat, a: Seq<char>, b: Seq<char>)
    requires
        a.len() > 0,
        b.len() > 0,
        a[0] == '.',
        b[0] == '.',
        decimal(p) + a == decimal(q) + b,
    ensures
        p == q,
        a == b,
{
    let s = decimal(p) + a;
    let t = decimal(q) + b;
    let m = decimal(p).len() as int;
    let n = decimal(q).len() as int;
    law_decimal_reads_back(p);
    law_decimal_reads_back(q);
    if m < n {
        assert(s[m] == '.');
        assert(is_digit(decimal(q)[m]));
    }
    if n < m {
        assert(t[n] == '.');
        assert(is_digit(decimal(p)[n]));
    }
    assert(s.take(m) =~= decimal(p));
    assert(t.take(n) =~= decimal(q));
    assert(s.skip(m) =~= a);
    assert(t.skip(n) =~= b);
    law_decimal_injective(p, q);
}

proof fn lemma_block_names_differ(prefix: Seq<char>, n: nat, bias: bool, i: int, j: int)
    requires
        0 <= i < j < n * block_len(bias),
    ensures
        blocks(prefix, n, bias).len() == n * block_len(bias),
        blocks(prefix, n, bias)[i].name != blocks(prefix, n, bias)[j].name,
{
    let size = block_len(bias) as int;
    lemma_blocks(prefix, n, bias, i);
    lemma_blocks(prefix, n, bias, j);
    let p = (i / size) as nat;
    let q = (j / size) as nat;
    let a = block_suffix(bias, i % size);
    let b = block_suffix(bias, j % size);
    lemma_block(prefix + decimal(p), bias, i % size);
    lemma_block(prefix + decimal(q), bias, j % size);
    lemma_suffix_is_dotted(bias, i % size);
    lemma_suffix_is_dotted(bias, j % size);
    let s = (prefix + decimal(p)) + a;
    let t = (prefix + decimal(q)) + b;
    if s == t {
        assert(s.skip(prefix.len() as int) =~= decimal(p) + a);
        assert(t.skip(prefix.len() as int) =~= decimal(q) + b);
        lemma_dotted_numbers(p, q, a, b);
        vstd::arithmetic::div_mod::lemma_fundamental_div_mod(i, size);
        vstd::arithmetic::div_mod::lemma_fundamental_div_mod(j, size);
        lemma_suffixes_differ(bias, i % size, j % size);
    }
}

/// The name of a block's weight starts with the name of the blocks.
proof fn lemma_block_name_start(prefix: Seq<char>, n: nat, bias: bool, k: int, at: int)
    requires
        0 <= k < n * block_len(bias),
        0 <= at < prefix.len(),
    ensures
        blocks(prefix, n, bias).len() == n * block_len(bias),
        blocks(prefix, n, bias)[k].name.len() > at,
        blocks(prefix, n, bias)[k].name[at] == prefix[at],
{
    let size = block_len(bias) as int;
    lemma_blocks(prefix, n, bias, k);
    lemma_block(prefix + decimal((k / size) as nat), bias, k % size);
}

/// No two weights of the slow model have the same name.
pub proof fn law_slow_weight_names_differ(i: int, j: int)
    requires
        0 <= i < j < slow_weights().len(),
    ensures
        slow_weights()[i].name != slow_weights()[j].name,
{
    law_weight_counts();
    let n = N_LAYER as nat;
    let prefix = "layers."@;
    lemma_blocks_len(prefix, n, true);
    reveal_strlit("layers.");
    reveal_strlit("embeddings.weight");
    reveal_strlit("codebook_embeddings.weight");
    reveal_strlit("norm.weight");
    reveal_strlit("lm_head.weight");
    let last = 2 + N_LAYER * 8;
    let a = slow_weights()[i].name;
    let b = slow_weights()[j].name;
    if 2 <= i < last {
        lemma_block_name_start(prefix, n, true, i - 2, 0);
        lemma_block_name_start(prefix, n, true, i - 2, 1);
    }
    if 2 <= j < last {
        lemma_block_name_start(prefix, n, true, j - 2, 0);
        lemma_block_name_start(prefix, n, true, j - 2, 1);
    }
    if 2 <= i && j < last {
        lemma_block_names_differ(prefix, n, true, i - 2, j - 2);
    } else {
        assert(a[0] != b[0] || a[1] != b[1]);
    }
}

/// No two weights of the fast model have the same name.
pub proof fn law_fast_weight_names_differ(i: int, j: int)
    requires
        0 <= i < j < fast_weights().len(),
    ensures
        fast_weights()[i].name != fast_weights()[j].name,
{
    law_weight_counts();
    let n = N_FAST_LAYER as nat;
    let prefix = "fast_layers."@;
    lemma_blocks_len(prefix, n, false);
    reveal_strlit("fast_layers.");
    reveal_strlit("fast_embeddings.weight");
    reveal_strlit("fast_norm.weight");
    reveal_strlit("fast_output.weight");
    let last = 1 + N_FAST_LAYER * 7;
    let a = fast_weights()[i].name;
    let b = fast_weights()[j].name;
    if 1 <= i < last {
        lemma_block_name_start(prefix, n, false, i - 1, 5);
    }
    if 1 <= j < last {
        lemma_block_name_start(prefix, n, false, j - 1, 5);
    }
    if 1 <= i && j < last {
        lemma_block_names_differ(prefix, n, false, i - 1, j - 1);
    } else {
        assert(a[5] != b[5]);
    }
}

/// The names and sides of several arrays.
pub open spec fn named_views(arrays: Seq<Named>) -> Seq<(Seq<char>, Seq<usize>)> {
    arrays.map_values(|a: Named| (a.name@, a.dims@))
}

/// The weights of the slow model whose sides are checked in a file.
pub open spec fn slow_checked() -> Seq<(Seq<char>, Seq<usize>)> {
    seq![
        ("embeddings.weight"@, seq![VOCAB_SIZE, DIM]),
        ("codebook_embeddings.weight"@, seq![(CODEBOOK_SIZE * NUM_CODEBOOKS) as usize, DIM]),
        ("layers.0.attention.wqkv.weight"@, seq![QKV_DIM, DIM]),
        ("layers.0.attention.wo.weight"@, seq![HEADS_DIM, DIM]),
        ("layers.0.feed_forward.w1.weight"@, seq![INTERMEDIATE_SIZE, DIM]),
        ("layers.0.feed_forward.w2.weight"@, seq![DIM, INTERMEDIATE_SIZE]),
        ("layers.0.feed_forward.w3.weight"@, seq![INTERMEDIATE_SIZE, DIM]),
        ("layers.0.attention_norm.weight"@, seq![DIM]),
        ("layers.0.ffn_norm.weight"@, seq![DIM]),
        ("layers.23.attention.wqkv.weight"@, seq![QKV_DIM, DIM]),
        ("layers.23.feed_forward.w2.weight"@, seq![DIM, INTERMEDIATE_SIZE]),
        ("norm.weight"@, seq![DIM]),
        ("lm_head.weight"@, seq![SLOW_LOGITS_SIZE, DIM]),
    ]
}

/// The weights of the fast model whose sides are checked in a file.
pub open spec fn fast_checked() -> Seq<(Seq<char>, Seq<usize>)> {
    seq![
        ("fast_embeddings.weight"@, seq![CODEBOOK_SIZE, FAST_DIM]),
        ("fast_layers.0.attention.wqkv.weight"@, seq![QKV_DIM, FAST_DIM]),
        ("fast_layers.0.attention.wo.weight"@, seq![HEADS_DIM, FAST_DIM]),
        ("fast_layers.3.feed_forward.w1.weight"@, seq![INTERMEDIATE_SIZE, FAST_DIM]),
        ("fast_norm.weight"@, seq![FAST_DIM]),
        ("fast_output.weight"@, seq![CODEBOOK_SIZE, FAST_DIM]),
    ]
}

pub fn slow_checks() -> (r: Vec<Named>)
    ensures
        named_views(r@) == slow_checked(),
{
    let mut list: Vec<Named> = Vec::new();
    list.push(Named { name: "embeddings.weight".to_owned(), dims: two_sides(VOCAB_SIZE, DIM) });
    list.push(Named { name: "codebook_embeddings.weight".to_owned(), dims: two_sides(CODEBOOK_SIZE * NUM_CODEBOOKS, DIM) });
    list.push(Named { name: "layers.0.attention.wqkv.weight".to_owned(), dims: two_sides(QKV_DIM, DIM) });
    list.push(Named { name: "layers.0.attention.wo.weight".to_owned(), dims: two_sides(HEADS_DIM, DIM) });
    list.push(Named { name: "layers.0.feed_forward.w1.weight".to_owned(), dims: two_sides(INTERMEDIATE_SIZE, DIM) });
    list.push(Named { name: "layers.0.feed_forward.w2.weight".to_owned(), dims: two_sides(DIM, INTERMEDIATE_SIZE) });
    list.push(Named { name: "layers.0.feed_forward.w3.weight".to_owned(), dims: two_sides(INTERMEDIATE_SIZE, DIM) });
    list.push(Named { name: "layers.0.attention_norm.weight".to_owned(), dims: side(DIM) });
    list.push(Named { name: "layers.0.ffn_norm.weight".to_owned(), dims: side(DIM) });
    list.push(Named { name: "layers.23.attention.wqkv.weight".to_owned(), dims: two_sides(QKV_DIM, DIM) });
    list.push(Named { name: "layers.23.feed_forward.w2.weight".to_owned(), dims: two_sides(DIM, INTERMEDIATE_SIZE) });
    list.push(Named { name: "norm.weight".to_owned(), dims: side(DIM) });
    list.push(Named { name: "lm_head.weight".to_owned(), dims: two_sides(SLOW_LOGITS_SIZE, DIM) });
    assert(named_views(list@) =~= slow_checked());
    list
}

pub fn fast_checks() -> (r: Vec<Named>)
    ensures
        named_views(r@) == fast_checked(),
{
    let mut list: Vec<Named> = Vec::new();
    list.push(Named { name: "fast_embeddings.weight".to_owned(), dims: two_sides(CODEBOOK_SIZE, FAST_DIM) });
    list.push(Named { name: "fast_layers.0.attention.wqkv.weight".to_owned(), dims: two_sides(QKV_DIM, FAST_DIM) });
    list.push(Named { name: "fast_layers.0.attention.wo.weight".to_owned(), dims: two_sides(HEADS_DIM, FAST_DIM) });
    list.push(Named { name: "fast_layers.3.feed_forward.w1.weight".to_owned(), dims: two_sides(INTERMEDIATE_SIZE, FAST_DIM) });
    list.push(Named { name: "fast_norm.weight".to_owned(), dims: side(FAST_DIM) });
    list.push(Named { name: "fast_output.weight".to_owned(), dims: two_sides(CODEBOOK_SIZE, FAST_DIM) });
    assert(named_views(list@) =~= fast_checked());
    list
}

/// What a check of a file found wrong.
#[derive(Debug, Clone, Copy, PartialEq, Eq, Structural)]
pub enum FileFault {
    /// The file does not have the array with that place in the list.
    Missing(usize),
    /// The array has other sides.
    OtherSides(usize),
}

/// What is wrong with the array at one place of the list.
pub open spec fn array_fault(
    expected: Seq<(Seq<char>, Seq<usize>)>,
    found: Seq<Option<Seq<usize>>>,
    i: int,
) -> Option<FileFault> {
    match found[i] {
        None => Some(FileFault::Missing(i as usize)),
        Some(dims) => if dims != expected[i].1 {
            Some(FileFault::OtherSides(i as usize))
        } else {
            None
        },
    }
}

pub open spec fn found_views(found: Seq<Option<Vec<usize>>>) -> Seq<Option<Seq<usize>>> {
    found.map_values(
        |dims: Option<Vec<usize>>|
            match dims {
                Some(d) => Some(d@),
                None => None::<Seq<usize>>,
            },
    )
}

fn same_sides(a: &Vec<usize>, b: &Vec<usize>) -> (r: bool)
    ensures
        r == (a@ == b@),
{
    if a.len() != b.len() {
        return false;
    }
    for i in 0..a.len()
        invariant
            a@.len() == b@.len(),
            forall|k: int| 0 <= k < i ==> a@[k] == b@[k],
    {
        if a[i] != b[i] {
            return false;
        }
    }
    assert(a@ =~= b@);
    true
}

/// Checks the arrays of a list against what a file has under their names: the
/// first fault, if there is one.
pub fn load_and_report(expected: &Vec<Named>, found: &Vec<Option<Vec<usize>>>) -> (r: Option<
    FileFault,
>)
    requires
        expected@.len() == found@.len(),
    ensures
        match r {
            None => forall|i: int|
                0 <= i < expected@.len() ==> #[trigger] array_fault(
                    named_views(expected@),
                    found_views(found@),
                    i,
                ) is None,
            Some(fault) => exists|i: int|
                0 <= i < expected@.len() && #[trigger] array_fault(
                    named_views(expected@),
                    found_views(found@),
                    i,
                ) == Some(fault) && forall|j: int|
                    0 <= j < i ==> #[trigger] array_fault(
                        named_views(expected@),
                        found_views(found@),
                        j,
                    ) is None,
        },
{
    let ghost e = named_views(expected@);
    let ghost f = found_views(found@);
    for i in 0..expected.len()
        invariant
            expected@.len() == found@.len(),
            e == named_views(expected@),
            f == found_views(found@),
            forall|j: int| 0 <= j < i ==> #[trigger] array_fault(e, f, j) is None,
    {
        match &found[i] {
            None => {
                assert(array_fault(e, f, i as int) == Some(FileFault::Missing(i)));
                return Some(FileFault::Missing(i));
            },
            Some(dims) => {
                if !same_sides(dims, &expected[i].dims) {
                    assert(array_fault(e, f, i as int) == Some(FileFault::OtherSides(i)));
                    return Some(FileFault::OtherSides(i));
                }
                assert(array_fault(e, f, i as int) is None);
            },
        }
    }
    None
}

/// The weight by which a layer is known to be in a file.
pub open spec fn layer_key_of(prefix: Seq<char>, i: nat) -> Seq<char> {
    prefix + decimal(i) + ".attention.wqkv.weight"@
}

pub fn layer_key(prefix: &str, i: usize) -> (r: String)
    ensures
        r@ == layer_key_of(prefix@, i as nat),
{
    let front = numbered(prefix, i);
    joined(&front, ".attention.wqkv.weight")
}

/// Where `present` says of each layer whether a file has it, and lastly of the
/// one behind the last layer: the first one that is missing or, where none is,
/// the one too many.
pub open spec fn layer_fault_from(present: Seq<bool>, i: int) -> Option<usize>
    decreases present.len() - i,
{
    if i < 0 || i >= present.len() {
        None
    } else if present[i] == (i == present.len() - 1) {
        Some(i as usize)
    } else {
        layer_fault_from(present, i + 1)
    }
}

/// Checks that a file has all layers of a model and no more.
pub fn layer_fault(present: &Vec<bool>) -> (r: Option<usize>)
    ensures
        r == layer_fault_from(present@, 0),
{
    let n: usize = present.len();
    for i in 0..n
        invariant
            n == present@.len(),
            layer_fault_from(present@, 0) == layer_fault_from(present@, i as int),
    {
        let beyond = i == n - 1;
        if present[i] == beyond {
            return Some(i);
        }
    }
    None
}

/// What is checked in a file of the slow model are weights of that model, with
/// the sides that it has them with.
pub proof fn law_slow_checks_are_weights(i: int)
    requires
        0 <= i < slow_checked().len(),
    ensures
        exists|k: int|
            0 <= k < slow_weights().len() && (#[trigger] slow_weights()[k]).name
                == slow_checked()[i].0 && slow_weights()[k].dims == slow_checked()[i].1,
{
    law_weight_counts();
    lemma_blocks_len("layers."@, N_LAYER as nat, true);
    let places = seq![0int, 1, 2, 4, 5, 6, 7, 8, 9, 186, 190, 194, 195];
    let k = places[i];
    if 2 <= k < 194 {
        lemma_blocks("layers."@, N_LAYER as nat, true, k - 2);
        let layer = (k - 2) / 8;
        lemma_block("layers."@ + decimal(layer as nat), true, (k - 2) % 8);
        reveal_with_fuel(decimal, 3);
        reveal_strlit("layers.");
        reveal_strlit(".attention.wqkv.weight");
        reveal_strlit(".attention.wo.weight");
        reveal_strlit(".feed_forward.w1.weight");
        reveal_strlit(".feed_forward.w2.weight");
        reveal_strlit(".feed_forward.w3.weight");
        reveal_strlit(".attention_norm.weight");
        reveal_strlit(".ffn_norm.weight");
        reveal_strlit("layers.0.attention.wqkv.weight");
        reveal_strlit("layers.0.attention.wo.weight");
        reveal_strlit("layers.0.feed_forward.w1.weight");
        reveal_strlit("layers.0.feed_forward.w2.weight");
        reveal_strlit("layers.0.feed_forward.w3.weight");
        reveal_strlit("layers.0.attention_norm.weight");
        reveal_strlit("layers.0.ffn_norm.weight");
        reveal_strlit("layers.23.attention.wqkv.weight");
        reveal_strlit("layers.23.feed_forward.w2.weight");
        assert(slow_weights()[k].name =~= slow_checked()[i].0);
    }
    assert(slow_weights()[k].dims =~= slow_checked()[i].1);
    assert(slow_weights()[k].name == slow_checked()[i].0);
}

/// What is checked in a file of the fast model are weights of that model, with
/// the sides that it has them with.
pub proof fn law_fast_checks_are_weights(i: int)
    requires
        0 <= i < fast_checked().len(),
    ensures
        exists|k: int|
            0 <= k < fast_weights().len() && (#[trigger] fast_weights()[k]).name
                == fast_checked()[i].0 && fast_weights()[k].dims == fast_checked()[i].1,
{
    law_weight_counts();
    lemma_blocks_len("fast_layers."@, N_FAST_LAYER as nat, false);
    let places = seq![0int, 1, 2, 24, 29, 30];
    let k = places[i];
    if 1 <= k < 29 {
        lemma_blocks("fast_layers."@, N_FAST_LAYER as nat, false, k - 1);
        let layer = (k - 1) / 7;
        lemma_block("fast_layers."@ + decimal(layer as nat), false, (k - 1) % 7);
        reveal_with_fuel(decimal, 3);
        reveal_strlit("fast_layers.");
        reveal_strlit(".attention.wqkv.weight");
        reveal_strlit(".attention.wo.weight");
        reveal_strlit(".feed_forward.w1.weight");
        reveal_strlit("fast_layers.0.attention.wqkv.weight");
        reveal_strlit("fast_layers.0.attention.wo.weight");
        reveal_strlit("fast_layers.3.feed_forward.w1.weight");
        assert(fast_weights()[k].name =~= fast_checked()[i].0);
    }
    assert(fast_weights()[k].dims =~= fast_checked()[i].1);
    assert(fast_weights()[k].name == fast_checked()[i].0);
}

/// A file passes the layer check exactly where it has every layer and none
/// behind the last.
pub proof fn law_layer_check_passes_iff_exact(present: Seq<bool>)
    requires
        present.len() > 0,
    ensures
        layer_fault_from(present, 0) is None <==> !present.last() && forall|i: int|
            0 <= i < present.len() - 1 ==> #[trigger] present[i],
{
    lemma_layer_fault(present, 0);
}

proof fn lemma_layer_fault(present: Seq<bool>, from: int)
    requires
        0 <= from < present.len(),
    ensures
        layer_fault_from(present, from) is None <==> !present.last() && forall|i: int|
            from <= i < present.len() - 1 ==> #[trigger] present[i],
    decreases present.len() - from,
{
    reveal_with_fuel(layer_fault_from, 2);
    if from < present.len() - 1 {
        lemma_layer_fault(present, from + 1);
    }
}

/// The weight of a name is quantized where the part behind its last dot, or the
/// whole name, is `weight`, and it is not the weight of a norm.
pub proof fn law_matrices_are_known_by_name(name: &str, r: bool)
    requires
        call_ensures(should_quantize, (name,), r),
    ensures
        r <==> {
            let s = name@;
            let n = s.len() as int;
            &&& s == "weight"@ || (n >= 7 && s.skip(n - 7) == ".weight"@)
            &&& !(n >= 12 && s.skip(n - 12) == "_norm.weight"@)
            &&& s != "norm.weight"@
        },
{
    let s = name@;
    let n = s.len() as int;
    reveal_strlit("weight");
    reveal_strlit(".weight");
    reveal_strlit("_norm.weight");
    reveal_strlit("fast_norm.weight");
    if s == "fast_norm.weight"@ {
        assert(s.skip(n - 12) =~= "_norm.weight"@);
    }
    if n >= 7 && s.skip(n - 7) == ".weight"@ {
        lemma_leaf_of_weight(s.take(n - 7));
        assert(s.take(n - 7) + ".weight"@ =~= s);
    } else if s == "weight"@ {
        lemma_leaf_is_all(s);
    } else if leaf(s) == "weight"@ {
        lemma_leaf_ends(s);
        if n == 6 {
            assert(s.skip(0) =~= s);
        } else {
            assert(s.skip(n - 7) =~= ".weight"@) by {
                assert(s.skip(n - 7)[0] == '.');
                assert forall|i: int| 1 <= i < 7 implies s.skip(n - 7)[i] == ".weight"@[i] by {
                    assert(s.skip(n - 6)[i - 1] == s[n - 7 + i]);
                    assert("weight"@[i - 1] == ".weight"@[i]);
                }
            }
        }
    }
}

proof fn lemma_leaf_is_all(s: Seq<char>)
    requires
        forall|i: int| 0 <= i < s.len() ==> #[trigger] s[i] != '.',
    ensures
        leaf(s) == s,
    decreases s.len(),
{
    if s.len() > 0 {
        assert(s[s.len() - 1] != '.');
        assert forall|i: int| 0 <= i < s.drop_last().len() implies #[trigger] s.drop_last()[i]
            != '.' by {
            assert(s.drop_last()[i] == s[i]);
        }
        lemma_leaf_is_all(s.drop_last());
        assert(s.drop_last().push(s.last()) =~= s);
    } else {
        assert(leaf(s) =~= s);
    }
}

proof fn lemma_leaf_ends(s: Seq<char>)
    ensures
        leaf(s).len() <= s.len(),
        s.skip(s.len() - leaf(s).len()) == leaf(s),
        leaf(s).len() < s.len() ==> s[s.len() - leaf(s).len() - 1] == '.',
    decreases s.len(),
{
    if s.len() == 0 || s.last() == '.' {
        assert(s.skip(s.len() as int) =~= leaf(s));
    } else {
        let t = s.drop_last();
        lemma_leaf_ends(t);
        assert(s.skip(s.len() - leaf(s).len()) =~= leaf(s)) by {
            assert forall|i: int| 0 <= i < leaf(t).len() implies s[s.len() - leaf(s).len() + i]
                == leaf(t)[i] by {
                assert(t.skip(t.len() - leaf(t).len())[i] == t[t.len() - leaf(t).len() + i]);
            }
        }
    }
}

/// Only arrays of two sides are quantized, in blocks of 32: those whose name
/// says so and whose rows are whole blocks. Where only the last is missing, that
/// is told apart.
pub proof fn law_whole_blocks_are_quantized(
    name: &str,
    dims: &Vec<usize>,
    r: Storage,
    q: bool,
)
    requires
        call_ensures(storage, (name, dims), r),
        call_ensures(should_quantize, (name,), q),
    ensures
        r == Storage::Quantized <==> q && dims@.len() == 2 && dims@[1] as int % 32 == 0,
        r == Storage::PlainFallback <==> q && dims@.len() == 2 && dims@[1] as int % 32 != 0,
{
}

/// The report calls the ways of storing by these names.
pub proof fn law_ways_of_storing_have_names(s: Storage, r: &'static str)
    requires
        call_ensures(label, (s,), r),
    ensures
        s == Storage::Quantized ==> r@ == "Q4_0"@,
        s == Storage::PlainFallback ==> r@ == "F32(fallback)"@,
        s == Storage::Plain ==> r@ == "F32"@,
{
}

/// Every array of a file is stored as it would be by itself, and is counted once:
/// one more array leaves the others as they are, and adds to the one number or
/// to the other.
pub proof fn law_arrays_are_stored_one_by_one(
    arrays: &Vec<Named>,
    more: &Vec<Named>,
    r: RepackPlan,
    q: RepackPlan,
    i: int,
)
    requires
        call_ensures(repack_one, (arrays,), r),
        call_ensures(repack_one, (more,), q),
        more@.len() == arrays@.len() + 1,
        forall|k: int|
            0 <= k < arrays@.len() ==> (#[trigger] more@[k]).name@ == arrays@[k].name@
                && more@[k].dims@ == arrays@[k].dims@,
        0 <= i < more@.len(),
    ensures
        q.stored@.len() == more@.len(),
        q.stored@[i] == storage_of(more@[i].name@, more@[i].dims@),
        i < arrays@.len() ==> q.stored@[i] == r.stored@[i],
        q.stored@.last() == Storage::Quantized ==> q.n_quantized == r.n_quantized + 1 && q.n_plain
            == r.n_plain,
        q.stored@.last() != Storage::Quantized ==> q.n_quantized == r.n_quantized && q.n_plain
            == r.n_plain + 1,
        arrays@.len() == 0 ==> r.n_quantized == 0 && r.n_plain == 0,
{
    assert(q.stored@.drop_last() =~= r.stored@) by {
        assert forall|k: int| 0 <= k < arrays@.len() implies q.stored@[k] == r.stored@[k] by {
            assert(more@[k].name@ == arrays@[k].name@ && more@[k].dims@ == arrays@[k].dims@);
        }
    }
}

/// The order of a dictionary: the first character in which two names differ
/// decides, and a name stands before its continuations.
pub proof fn law_first_difference_decides(
    p: Seq<char>,
    a: char,
    x: Seq<char>,
    b: char,
    y: Seq<char>,
)
    requires
        a != b,
    ensures
        text_before(p + seq![a] + x, p + seq![b] + y) <==> (a as u32) < (b as u32),
        text_before(p, p + seq![b] + y),
        !text_before(p + seq![b] + y, p),
        !text_before(p, p),
    decreases p.len(),
{
    let u = p + seq![a] + x;
    let v = p + seq![b] + y;
    if p.len() == 0 {
        assert(u[0] == a && v[0] == b);
    } else {
        let q = p.drop_first();
        law_first_difference_decides(q, a, x, b, y);
        assert(u[0] == p[0] && v[0] == p[0]);
        assert(u.drop_first() =~= q + seq![a] + x);
        assert(v.drop_first() =~= q + seq![b] + y);
    }
}

/// The index lists every name once, in the order of the dictionary, by the last
/// array that has it.
pub proof fn law_index_lists_the_latest(
    arrays: &Vec<Named>,
    r: Vec<usize>,
    i: int,
    j: int,
    k: int,
)
    requires
        call_ensures(name_index, (arrays,), r),
        0 <= i < j < r@.len(),
        0 <= k < arrays@.len(),
    ensures
        r@[i] < arrays@.len() && r@[j] < arrays@.len(),
        text_before(arrays@[r@[i] as int].name@, arrays@[r@[j] as int].name@),
        exists|m: int|
            0 <= m < r@.len() && arrays@[(#[trigger] r@[m]) as int].name@ == arrays@[k].name@,
        arrays@[k].name@ == arrays@[r@[i] as int].name@ ==> k <= r@[i],
{
    let names = names_of(arrays@);
    assert(text_before(names[r@[i] as int], names[r@[j] as int]));
    assert(is_listed(r@, names, k));
    let m = choose|m: int| 0 <= m < r@.len() && #[trigger] r@[m] >= k && names[r@[m] as int]
        == names[k];
    assert(arrays@[r@[m] as int].name@ == arrays@[k].name@);
    if arrays@[k].name@ == arrays@[r@[i] as int].name@ {
        if m < i {
            assert(text_before(names[r@[m] as int], names[r@[i] as int]));
            lemma_before_is_total(names[r@[m] as int], names[r@[i] as int]);
        } else if i < m {
            assert(text_before(names[r@[i] as int], names[r@[m] as int]));
            lemma_before_is_total(names[r@[i] as int], names[r@[m] as int]);
        }
    }
}

/// The weights of the slow model: two tables, eight weights for each of its 24
/// layers, a norm and the matrix of the logits, with the sides that they have.
pub proof fn law_slow_model_has_its_weights(r: Vec<WeightPlan>, layer: int)
    requires
        call_ensures(slow_weight_plan, (), r),
        0 <= layer < 24,
    ensures
        ({
            &&& r@.len() == 196
            &&& r@[0].name@ == "embeddings.weight"@ && r@[0].dims@ == seq![155776usize, 896]
            &&& r@[1].name@ == "codebook_embeddings.weight"@ && r@[1].dims@ == seq![40960usize, 896]
            &&& r@[0].form == Form::Dense && r@[1].form == Form::Dense
            &&& r@[2 + 8 * layer + 0].name@ == "layers."@ + decimal(layer as nat) + ".attention.wqkv.weight"@
            &&& r@[2 + 8 * layer + 0].dims@ == seq![1152usize, 896]
            &&& r@[2 + 8 * layer + 0].form == Form::Matrix
            &&& r@[2 + 8 * layer + 1].name@ == "layers."@ + decimal(layer as nat) + ".attention.wqkv.bias"@
            &&& r@[2 + 8 * layer + 1].dims@ == seq![1152usize]
            &&& r@[2 + 8 * layer + 1].form == Form::Dense
            &&& r@[2 + 8 * layer + 2].name@ == "layers."@ + decimal(layer as nat) + ".attention.wo.weight"@
            &&& r@[2 + 8 * layer + 2].dims@ == seq![896usize, 896]
            &&& r@[2 + 8 * layer + 2].form == Form::Matrix
            &&& r@[2 + 8 * layer + 3].name@ == "layers."@ + decimal(layer as nat) + ".feed_forward.w1.weight"@
            &&& r@[2 + 8 * layer + 3].dims@ == seq![4864usize, 896]
            &&& r@[2 + 8 * layer + 3].form == Form::Matrix
            &&& r@[2 + 8 * layer + 4].name@ == "layers."@ + decimal(layer as nat) + ".feed_forward.w2.weight"@
            &&& r@[2 + 8 * layer + 4].dims@ == seq![896usize, 4864]
            &&& r@[2 + 8 * layer + 4].form == Form::Matrix
            &&& r@[2 + 8 * layer + 5].name@ == "layers."@ + decimal(layer as nat) + ".feed_forward.w3.weight"@
            &&& r@[2 + 8 * layer + 5].dims@ == seq![4864usize, 896]
            &&& r@[2 + 8 * layer + 5].form == Form::Matrix
            &&& r@[2 + 8 * layer + 6].name@ == "layers."@ + decimal(layer as nat) + ".attention_norm.weight"@
            &&& r@[2 + 8 * layer + 6].dims@ == seq![896usize]
            &&& r@[2 + 8 * layer + 6].form == Form::Dense
            &&& r@[2 + 8 * layer + 7].name@ == "layers."@ + decimal(layer as nat) + ".ffn_norm.weight"@
            &&& r@[2 + 8 * layer + 7].dims@ == seq![896usize]
            &&& r@[2 + 8 * layer + 7].form == Form::Dense
            &&& r@[194].name@ == "norm.weight"@ && r@[194].dims@ == seq![896usize]
            &&& r@[194].form == Form::Dense
            &&& r@[195].name@ == "lm_head.weight"@ && r@[195].dims@ == seq![4097usize, 896]
            &&& r@[195].form == Form::Matrix
        }),
{
    let a = weights_of(r@);
    law_weight_counts();
    lemma_blocks_len("layers."@, N_LAYER as nat, true);
    assert(a.len() == r@.len());
    assert(a[0] == weight(r@[0].name@, r@[0].dims@, r@[0].form));
    assert(a[1] == weight(r@[1].name@, r@[1].dims@, r@[1].form));
    assert(a[194] == weight(r@[194].name@, r@[194].dims@, r@[194].form));
    assert(a[195] == weight(r@[195].name@, r@[195].dims@, r@[195].form));
    lemma_blocks("layers."@, N_LAYER as nat, true, 8 * layer + 0);
    assert((8 * layer + 0) / 8 == layer && (8 * layer + 0) % 8 == 0);
    lemma_block("layers."@ + decimal(layer as nat), true, 0);
    assert(a[2 + 8 * layer + 0] == block("layers."@ + decimal(layer as nat), true)[0]);
    assert(a[2 + 8 * layer + 0] == weight(
        r@[2 + 8 * layer + 0].name@,
        r@[2 + 8 * layer + 0].dims@,
        r@[2 + 8 * layer + 0].form,
    ));
    lemma_blocks("layers."@, N_LAYER as nat, true, 8 * layer + 1);
    assert((8 * layer + 1) / 8 == layer && (8 * layer + 1) % 8 == 1);
    lemma_block("layers."@ + decimal(layer as nat), true, 1);
    assert(a[2 + 8 * layer + 1] == block("layers."@ + decimal(layer as nat), true)[1]);
    assert(a[2 + 8 * layer + 1] == weight(
        r@[2 + 8 * layer + 1].name@,
        r@[2 + 8 * layer + 1].dims@,
        r@[2 + 8 * layer + 1].form,
    ));
    lemma_blocks("layers."@, N_LAYER as nat, true, 8 * layer + 2);
    assert((8 * layer + 2) / 8 == layer && (8 * layer + 2) % 8 == 2);
    lemma_block("layers."@ + decimal(layer as nat), true, 2);
    assert(a[2 + 8 * layer + 2] == block("layers."@ + decimal(layer as nat), true)[2]);
    assert(a[2 + 8 * layer + 2] == weight(
        r@[2 + 8 * layer + 2].name@,
        r@[2 + 8 * layer + 2].dims@,
        r@[2 + 8 * layer + 2].form,
    ));
    lemma_blocks("layers."@, N_LAYER as nat, true, 8 * layer + 3);
    assert((8 * layer + 3) / 8 == layer && (8 * layer + 3) % 8 == 3);
    lemma_block("layers."@ + decimal(layer as nat), true, 3);
    assert(a[2 + 8 * layer + 3] == block("layers."@ + decimal(layer as nat), true)[3]);
    assert(a[2 + 8 * layer + 3] == weight(
        r@[2 + 8 * layer + 3].name@,
        r@[2 + 8 * layer + 3].dims@,
        r@[2 + 8 * layer + 3].form,
    ));
    lemma_blocks("layers."@, N_LAYER as nat, true, 8 * layer + 4);
    assert((8 * layer + 4) / 8 == layer && (8 * layer + 4) % 8 == 4);
    lemma_block("layers."@ + decimal(layer as nat), true, 4);
    assert(a[2 + 8 * layer + 4] == block("layers."@ + decimal(layer as nat), true)[4]);
    assert(a[2 + 8 * layer + 4] == weight(
        r@[2 + 8 * layer + 4].name@,
        r@[2 + 8 * layer + 4].dims@,
        r@[2 + 8 * layer + 4].form,
    ));
    lemma_blocks("layers."@, N_LAYER as nat, true, 8 * layer + 5);
    assert((8 * layer + 5) / 8 == layer && (8 * layer + 5) % 8 == 5);
    lemma_block("layers."@ + decimal(layer as nat), true, 5);
    assert(a[2 + 8 * layer + 5] == block("layers."@ + decimal(layer as nat), true)[5]);
    assert(a[2 + 8 * layer + 5] == weight(
        r@[2 + 8 * layer + 5].name@,
        r@[2 + 8 * layer + 5].dims@,
        r@[2 + 8 * layer + 5].form,
    ));
    lemma_blocks("layers."@, N_LAYER as nat, true, 8 * layer + 6);
    assert((8 * layer + 6) / 8 == layer && (8 * layer + 6) % 8 == 6);
    lemma_block("layers."@ + decimal(layer as nat), true, 6);
    assert(a[2 + 8 * layer + 6] == block("layers."@ + decimal(layer as nat), true)[6]);
    assert(a[2 + 8 * layer + 6] == weight(
        r@[2 + 8 * layer + 6].name@,
        r@[2 + 8 * layer + 6].dims@,
        r@[2 + 8 * layer + 6].form,
    ));
    lemma_blocks("layers."@, N_LAYER as nat, true, 8 * layer + 7);
    assert((8 * layer + 7) / 8 == layer && (8 * layer + 7) % 8 == 7);
    lemma_block("layers."@ + decimal(layer as nat), true, 7);
    assert(a[2 + 8 * layer + 7] == block("layers."@ + decimal(layer as nat), true)[7]);
    assert(a[2 + 8 * layer + 7] == weight(
        r@[2 + 8 * layer + 7].name@,
        r@[2 + 8 * layer + 7].dims@,
        r@[2 + 8 * layer + 7].form,
    ));
}

/// The weights of the fast model: a table, seven weights for each of its four
/// layers, a norm and the matrix of the scores.
pub proof fn law_fast_model_has_its_weights(r: Vec<WeightPlan>, layer: int)
    requires
        call_ensures(fast_weight_plan, (), r),
        0 <= layer < 4,
    ensures
        ({
            &&& r@.len() == 31
            &&& r@[0].name@ == "fast_embeddings.weight"@ && r@[0].dims@ == seq![4096usize, 896]
            &&& r@[0].form == Form::Dense
            &&& r@[1 + 7 * layer + 0].name@ == "fast_layers."@ + decimal(layer as nat) + ".attention.wqkv.weight"@
            &&& r@[1 + 7 * layer + 0].dims@ == seq![1152usize, 896]
            &&& r@[1 + 7 * layer + 0].form == Form::Matrix
            &&& r@[1 + 7 * layer + 1].name@ == "fast_layers."@ + decimal(layer as nat) + ".attention.wo.weight"@
            &&& r@[1 + 7 * layer + 1].dims@ == seq![896usize, 896]
            &&& r@[1 + 7 * layer + 1].form == Form::Matrix
            &&& r@[1 + 7 * layer + 2].name@ == "fast_layers."@ + decimal(layer as nat) + ".feed_forward.w1.weight"@
            &&& r@[1 + 7 * layer + 2].dims@ == seq![4864usize, 896]
            &&& r@[1 + 7 * layer + 2].form == Form::Matrix
            &&& r@[1 + 7 * layer + 3].name@ == "fast_layers."@ + decimal(layer as nat) + ".feed_forward.w2.weight"@
            &&& r@[1 + 7 * layer + 3].dims@ == seq![896usize, 4864]
            &&& r@[1 + 7 * layer + 3].form == Form::Matrix
            &&& r@[1 + 7 * layer + 4].name@ == "fast_layers."@ + decimal(layer as nat) + ".feed_forward.w3.weight"@
            &&& r@[1 + 7 * layer + 4].dims@ == seq![4864usize, 896]
            &&& r@[1 + 7 * layer + 4].form == Form::Matrix
            &&& r@[1 + 7 * layer + 5].name@ == "fast_layers."@ + decimal(layer as nat) + ".attention_norm.weight"@
            &&& r@[1 + 7 * layer + 5].dims@ == seq![896usize]
            &&& r@[1 + 7 * layer + 5].form == Form::Dense
            &&& r@[1 + 7 * layer + 6].name@ == "fast_layers."@ + decimal(layer as nat) + ".ffn_norm.weight"@
            &&& r@[1 + 7 * layer + 6].dims@ == seq![896usize]
            &&& r@[1 + 7 * layer + 6].form == Form::Dense
            &&& r@[29].name@ == "fast_norm.weight"@ && r@[29].dims@ == seq![896usize]
            &&& r@[29].form == Form::Dense
            &&& r@[30].name@ == "fast_output.weight"@ && r@[30].dims@ == seq![4096usize, 896]
            &&& r@[30].form == Form::Matrix
        }),
{
    let a = weights_of(r@);
    law_weight_counts();
    lemma_blocks_len("fast_layers."@, N_FAST_LAYER as nat, false);
    assert(a.len() == r@.len());
    assert(a[0] == weight(r@[0].name@, r@[0].dims@, r@[0].form));
    assert(a[29] == weight(r@[29].name@, r@[29].dims@, r@[29].form));
    assert(a[30] == weight(r@[30].name@, r@[30].dims@, r@[30].form));
    lemma_blocks("fast_layers."@, N_FAST_LAYER as nat, false, 7 * layer + 0);
    assert((7 * layer + 0) / 7 == layer && (7 * layer + 0) % 7 == 0);
    lemma_block("fast_layers."@ + decimal(layer as nat), false, 0);
    assert(a[1 + 7 * layer + 0] == block("fast_layers."@ + decimal(layer as nat), false)[0]);
    assert(a[1 + 7 * layer + 0] == weight(
        r@[1 + 7 * layer + 0].name@,
        r@[1 + 7 * layer + 0].dims@,
        r@[1 + 7 * layer + 0].form,
    ));
    lemma_blocks("fast_layers."@, N_FAST_LAYER as nat, false, 7 * layer + 1);
    assert((7 * layer + 1) / 7 == layer && (7 * layer + 1) % 7 == 1);
    lemma_block("fast_layers."@ + decimal(layer as nat), false, 1);
    assert(a[1 + 7 * layer + 1] == block("fast_layers."@ + decimal(layer as nat), false)[1]);
    assert(a[1 + 7 * layer + 1] == weight(
        r@[1 + 7 * layer + 1].name@,
        r@[1 + 7 * layer + 1].dims@,
        r@[1 + 7 * layer + 1].form,
    ));
    lemma_blocks("fast_layers."@, N_FAST_LAYER as nat, false, 7 * layer + 2);
    assert((7 * layer + 2) / 7 == layer && (7 * layer + 2) % 7 == 2);
    lemma_block("fast_layers."@ + decimal(layer as nat), false, 2);
    assert(a[1 + 7 * layer + 2] == block("fast_layers."@ + decimal(layer as nat), false)[2]);
    assert(a[1 + 7 * layer + 2] == weight(
        r@[1 + 7 * layer + 2].name@,
        r@[1 + 7 * layer + 2].dims@,
        r@[1 + 7 * layer + 2].form,
    ));
    lemma_blocks("fast_layers."@, N_FAST_LAYER as nat, false, 7 * layer + 3);
    assert((7 * layer + 3) / 7 == layer && (7 * layer + 3) % 7 == 3);
    lemma_block("fast_layers."@ + decimal(layer as nat), false, 3);
    assert(a[1 + 7 * layer + 3] == block("fast_layers."@ + decimal(layer as nat), false)[3]);
    assert(a[1 + 7 * layer + 3] == weight(
        r@[1 + 7 * layer + 3].name@,
        r@[1 + 7 * layer + 3].dims@,
        r@[1 + 7 * layer + 3].form,
    ));
    lemma_blocks("fast_layers."@, N_FAST_LAYER as nat, false, 7 * layer + 4);
    assert((7 * layer + 4) / 7 == layer && (7 * layer + 4) % 7 == 4);
    lemma_block("fast_layers."@ + decimal(layer as nat), false, 4);
    assert(a[1 + 7 * layer + 4] == block("fast_layers."@ + decimal(layer as nat), false)[4]);
    assert(a[1 + 7 * layer + 4] == weight(
        r@[1 + 7 * layer + 4].name@,
        r@[1 + 7 * layer + 4].dims@,
        r@[1 + 7 * layer + 4].form,
    ));
    lemma_blocks("fast_layers."@, N_FAST_LAYER as nat, false, 7 * layer + 5);
    assert((7 * layer + 5) / 7 == layer && (7 * layer + 5) % 7 == 5);
    lemma_block("fast_layers."@ + decimal(layer as nat), false, 5);
    assert(a[1 + 7 * layer + 5] == block("fast_layers."@ + decimal(layer as nat), false)[5]);
    assert(a[1 + 7 * layer + 5] == weight(
        r@[1 + 7 * layer + 5].name@,
        r@[1 + 7 * layer + 5].dims@,
        r@[1 + 7 * layer + 5].form,
    ));
    lemma_blocks("fast_layers."@, N_FAST_LAYER as nat, false, 7 * layer + 6);
    assert((7 * layer + 6) / 7 == layer && (7 * layer + 6) % 7 == 6);
    lemma_block("fast_layers."@ + decimal(layer as nat), false, 6);
    assert(a[1 + 7 * layer + 6] == block("fast_layers."@ + decimal(layer as nat), false)[6]);
    assert(a[1 + 7 * layer + 6] == weight(
        r@[1 + 7 * layer + 6].name@,
        r@[1 + 7 * layer + 6].dims@,
        r@[1 + 7 * layer + 6].form,
    ));
}

/// A file passes where it has every array of the list with just its sides. Where
/// it does not, the first array that is missing or has other sides is named.
pub proof fn law_first_fault_is_reported(
    expected: &Vec<Named>,
    found: &Vec<Option<Vec<usize>>>,
    r: Option<FileFault>,
    k: int,
)
    requires
        call_ensures(load_and_report, (expected, found), r),
        expected@.len() == found@.len(),
        expected@.len() <= usize::MAX,
        0 <= k < expected@.len(),
    ensures
        r is None ==> found@[k] is Some && found@[k]->Some_0@ == expected@[k].dims@,
        r matches Some(FileFault::Missing(i)) ==> {
            &&& i < found@.len()
            &&& found@[i as int] is None
            &&& k < i ==> found@[k] is Some && found@[k]->Some_0@ == expected@[k].dims@
        },
        r matches Some(FileFault::OtherSides(i)) ==> {
            &&& i < found@.len()
            &&& found@[i as int] is Some && found@[i as int]->Some_0@ != expected@[i as int].dims@
            &&& k < i ==> found@[k] is Some && found@[k]->Some_0@ == expected@[k].dims@
        },
{
    let e = named_views(expected@);
    let f = found_views(found@);
    assert(e[k].1 == expected@[k].dims@);
    match r {
        None => {
            assert(array_fault(e, f, k) is None);
        },
        Some(fault) => {
            let i = choose|i: int|
                0 <= i < expected@.len() && #[trigger] array_fault(e, f, i) == Some(fault)
                    && forall|j: int| 0 <= j < i ==> #[trigger] array_fault(e, f, j) is None;
            assert(e[i].1 == expected@[i].dims@);
            if k < i {
                assert(array_fault(e, f, k) is None);
            }
        },
    }
}

/// A layer is known by the matrix of its attention.
pub proof fn law_layers_are_known_by_their_attention(prefix: &str, i: usize, r: String)
    requires
        call_ensures(layer_key, (prefix, i), r),
    ensures
        r@ == prefix@ + decimal(i as nat) + ".attention.wqkv.weight"@,
{
}

/// The layer that is named is the first that is missing; or, where none is, the
/// one behind the last.
pub proof fn law_first_missing_layer_is_named(present: &Vec<bool>, r: Option<usize>, k: int)
    requires
        call_ensures(layer_fault, (present,), r),
        0 <= k < present@.len() - 1,
        present@.len() <= usize::MAX,
    ensures
        r is None <==> !present@.last() && forall|j: int|
            0 <= j < present@.len() - 1 ==> #[trigger] present@[j],
        r matches Some(i) ==> {
            &&& i < present@.len()
            &&& k < i ==> present@[k]
            &&& i < present@.len() - 1 ==> !present@[i as int]
            &&& i == present@.len() - 1 ==> present@[i as int]
        },
{
    law_layer_check_passes_iff_exact(present@);
    lemma_layer_fault_place(present@, 0, k);
}

proof fn lemma_layer_fault_place(present: Seq<bool>, from: int, k: int)
    requires
        0 <= from < present.len() <= usize::MAX,
        from <= k < present.len() - 1 || k < from,
    ensures
        layer_fault_from(present, from) matches Some(i) ==> {
            &&& from <= i < present.len()
            &&& from <= k < i ==> present[k]
            &&& i < present.len() - 1 ==> !present[i as int]
            &&& i == present.len() - 1 ==> present[i as int]
        },
    decreases present.len() - from,
{
    reveal_with_fuel(layer_fault_from, 2);
    if from < present.len() - 1 {
        lemma_layer_fault_place(present, from + 1, k);
    }
}

} // verus!
