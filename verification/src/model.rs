//! The two transformer models: how attention splits and masks, which table rows
//! a column is embedded by, and which positions, layers and caches a step uses.

use vstd::prelude::*;

use crate::cache::{contiguous, replaced, FixedKvCache};
use crate::grid::BatchTensor;
use crate::manifest::{CODEBOOK_SIZE, DIM, FAST_DIM, HEAD_DIM, MAX_SEQ_LEN, NUM_CODEBOOKS};
use crate::manifest::N_FAST_LAYER;
use crate::manifest::{N_HEAD, N_LAYER, N_LOCAL_HEADS, SEMANTIC_BEGIN_ID, SEMANTIC_END_ID};
use crate::manifest::{SLOW_LOGITS_SIZE, VOCAB_SIZE};
use crate::weights::{fast_weight_plan, fast_weights, slow_weight_plan, slow_weights};
use crate::weights::{weights_of, WeightPlan};

verus! {

/// Attention with groups of query heads that share their keys and values.
#[derive(Clone, Copy)]
pub struct Attention {
    pub n_head: usize,
    pub n_local_heads: usize,
    pub head_dim: usize,
}

/// Where queries, keys and values lie in the projection of a position: the
/// first place and the number of places of each.
#[derive(Debug, Clone, Copy, PartialEq, Eq)]
pub struct Split {
    pub q: (usize, usize),
    pub k: (usize, usize),
    pub v: (usize, usize),
}

/// What a call of attention does with its positions.
#[derive(Debug, Clone, Copy, PartialEq, Eq)]
pub struct AttentionCall {
    pub split: Split,
    /// How many query heads share one head of keys and values.
    pub repeats: usize,
    /// Whether later positions are hidden from earlier ones.
    pub masked: bool,
}

impl Attention {
    /// There are heads, and the projection of a position can be addressed.
    pub open spec fn wf(self) -> bool {
        &&& self.n_local_heads > 0
        &&& (self.n_head + 2 * self.n_local_heads) * self.head_dim <= usize::MAX
    }

    pub open spec fn q_size(self) -> int {
        self.n_head * self.head_dim
    }

    pub open spec fn kv_size(self) -> int {
        self.n_local_heads * self.head_dim
    }

    /// What a call on `t` positions does that attend to `causal_len` of them.
    pub open spec fn call(self, t: usize, causal_len: usize) -> AttentionCall {
        AttentionCall {
            split: Split {
                q: (0, self.q_size() as usize),
                k: (self.q_size() as usize, self.kv_size() as usize),
                v: ((self.q_size() + self.kv_size()) as usize, self.kv_size() as usize),
            },
            repeats: (self.n_head as int / self.n_local_heads as int) as usize,
            masked: t == causal_len,
        }
    }

    pub fn forward(&self, t: usize, causal_len: usize) -> (r: AttentionCall)
        requires
            self.wf(),
        ensures
            r == self.call(t, causal_len),
    {
        proof {
            self.lemma_sizes();
        }
        let q_size: usize = self.n_head * self.head_dim;
        let kv_size: usize = self.n_local_heads * self.head_dim;
        AttentionCall {
            split: Split { q: (0, q_size), k: (q_size, kv_size), v: (q_size + kv_size, kv_size) },
            repeats: self.n_head / self.n_local_heads,
            masked: t == causal_len,
        }
    }

    proof fn lemma_sizes(self)
        requires
            self.wf(),
        ensures
            0 <= self.q_size(),
            0 <= self.kv_size(),
            self.q_size() + 2 * self.kv_size() == (self.n_head + 2 * self.n_local_heads)
                * self.head_dim,
            self.q_size() + 2 * self.kv_size() <= usize::MAX,
    {
        let a = self.n_head as int;
        let b = self.n_local_heads as int;
        let d = self.head_dim as int;
        assert((a + 2 * b) * d == a * d + 2 * (b * d)) by (nonlinear_arith);
        assert(0 <= a * d && 0 <= b * d) by (nonlinear_arith)
            requires
                0 <= a,
                0 <= b,
                0 <= d,
        ;
    }

    /// Queries, keys and values follow each other without gap and fill the
    /// projection.
    pub proof fn law_split_fills_projection(self, t: usize, causal_len: usize)
        requires
            self.wf(),
        ensures
            ({
                let split = self.call(t, causal_len).split;
                &&& split.q.0 == 0
                &&& split.k.0 == split.q.0 + split.q.1
                &&& split.v.0 == split.k.0 + split.k.1
                &&& split.v.0 + split.v.1 == (self.n_head + 2 * self.n_local_heads) * self.head_dim
            }),
    {
        self.lemma_sizes();
    }
}

/// The head of keys and values that query head `h` uses.
pub open spec fn shared_head(h: int, repeats: int) -> int {
    h / repeats
}

/// The heads that stand behind one another when each of `heads` heads is
/// repeated.
pub fn repeat_interleave_heads(heads: usize, repeats: usize) -> (r: Vec<usize>)
    requires
        heads * repeats <= usize::MAX,
    ensures
        r@.len() == heads * repeats,
        forall|h: int| 0 <= h < r@.len() ==> #[trigger] r@[h] == shared_head(h, repeats as int),
{
    let mut out: Vec<usize> = Vec::new();
    assert(0 * repeats == 0) by (nonlinear_arith);
    for h in 0..heads
        invariant
            heads * repeats <= usize::MAX,
            out@.len() == h * repeats,
            forall|k: int|
                0 <= k < out@.len() ==> #[trigger] out@[k] == shared_head(k, repeats as int),
    {
        for i in 0..repeats
            invariant
                out@.len() == h * repeats + i,
                forall|k: int|
                    0 <= k < out@.len() ==> #[trigger] out@[k] == shared_head(k, repeats as int),
        {
            proof {
                vstd::arithmetic::div_mod::lemma_fundamental_div_mod_converse(
                    h * repeats + i,
                    repeats as int,
                    h as int,
                    i as int,
                );
            }
            out.push(h);
        }
        assert((h + 1) * repeats == h * repeats + repeats) by (nonlinear_arith);
    }
    out
}

/// Every head of keys and values serves the same number of query heads, and each
/// query head is served by a head that exists.
pub proof fn law_heads_are_shared_evenly(a: Attention, h: int)
    requires
        a.n_local_heads > 0,
        a.n_head > 0,
        a.n_head as int % a.n_local_heads as int == 0,
        0 <= h < a.n_head,
    ensures
        a.n_local_heads * (a.n_head as int / a.n_local_heads as int) == a.n_head,
        0 <= shared_head(h, a.n_head as int / a.n_local_heads as int) < a.n_local_heads,
{
    let n = a.n_head as int;
    let m = a.n_local_heads as int;
    let repeats = n / m;
    vstd::arithmetic::div_mod::lemma_fundamental_div_mod(n, m);
    assert(repeats > 0) by (nonlinear_arith)
        requires
            m * repeats == n,
            n > 0,
            m > 0,
    ;
    vstd::arithmetic::div_mod::lemma_fundamental_div_mod(h, repeats);
    let s = h / repeats;
    assert(s < m) by (nonlinear_arith)
        requires
            repeats * s <= h,
            h < m * repeats,
            repeats > 0,
    ;
    assert(s >= 0) by (nonlinear_arith)
        requires
            h == repeats * s + h % repeats,
            h >= 0,
            0 <= h % repeats < repeats,
            repeats > 0,
    ;
}

/// Whether position `i` may attend to position `j`, for a square mask row by
/// row.
pub open spec fn causal(t: nat) -> Seq<bool> {
    Seq::new(t * t, |k: int| k % t as int <= k / t as int)
}

/// The mask of `t` positions: each may attend to itself and to earlier ones.
pub fn causal_mask(t: usize) -> (r: Vec<bool>)
    requires
        t * t <= usize::MAX,
    ensures
        r@ == causal(t as nat),
{
    let mut out: Vec<bool> = Vec::new();
    assert(0 * t == 0) by (nonlinear_arith);
    for i in 0..t
        invariant
            out@.len() == i * t,
            forall|k: int| 0 <= k < out@.len() ==> #[trigger] out@[k] == causal(t as nat)[k],
    {
        assert(i * t + t <= t * t) by (nonlinear_arith)
            requires
                i + 1 <= t,
        ;
        for j in 0..t
            invariant
                i < t,
                out@.len() == i * t + j,
                i * t + t <= t * t,
                forall|k: int| 0 <= k < out@.len() ==> #[trigger] out@[k] == causal(t as nat)[k],
        {
            proof {
                vstd::arithmetic::div_mod::lemma_fundamental_div_mod_converse(
                    i * t + j,
                    t as int,
                    i as int,
                    j as int,
                );
            }
            out.push(j <= i);
        }
        assert((i + 1) * t == i * t + t) by (nonlinear_arith);
    }
    assert(out@ =~= causal(t as nat));
    out
}

/// Whether column `i` of a call sees position `j`.
pub open spec fn sees(a: Attention, t: usize, causal_len: usize, i: int, j: int) -> bool {
    !a.call(t, causal_len).masked || causal(t as nat)[i * t + j]
}

/// A prompt from position zero on, and a step of one column at the end, let
/// each column see the positions up to its own and no later ones.
pub proof fn law_columns_see_their_past(a: Attention, start: usize, t: usize, i: int, j: int)
    requires
        start == 0 || t == 1,
        start + t <= usize::MAX,
        0 <= i < t,
        0 <= j < start + t,
    ensures
        sees(a, t, (start + t) as usize, i, j) <==> j <= start + i,
{
    if start == 0 {
        vstd::arithmetic::div_mod::lemma_fundamental_div_mod_converse(i * t + j, t as int, i, j);
        assert(0 <= i * t + j < t * t) by (nonlinear_arith)
            requires
                0 <= i < t,
                0 <= j < t,
        ;
    }
}

/// The table rows that a column of codes is embedded by.
#[derive(Debug)]
pub struct EmbedPlan {
    /// For each column the row in the table of tokens.
    pub tokens: Vec<u32>,
    /// For each codebook, and each column, the row in the table of codes.
    pub codes: Vec<Vec<u32>>,
    /// For each column whether the rows of the codes count.
    pub gated: Vec<bool>,
}

/// There are fewer rows than one for the tokens and one for each codebook.
#[derive(Debug)]
pub struct TooFewRows {
    pub rows: usize,
}

/// The table row of a token: its id in 32 bits.
pub open spec fn token_row(id: i64) -> u32 {
    id as u32
}

/// The table row of a code: those of one codebook follow those of the one
/// before. A row that no 32-bit number can hold is replaced by the nearest that
/// can.
pub open spec fn code_row(code: i64, codebook: int) -> u32 {
    let row = code + codebook * CODEBOOK_SIZE;
    if row < 0 {
        0
    } else if row > u32::MAX {
        u32::MAX
    } else {
        row as u32
    }
}

/// Only semantic tokens carry codes.
pub open spec fn carries_codes(id: i64, begin: i64, end: i64) -> bool {
    begin <= id <= end
}

/// The slow model, as far as its steps are planned.
#[derive(Clone, Copy)]
pub struct SlowAr {
    pub semantic_begin_id: i64,
    pub semantic_end_id: i64,
}

/// The fast model, as far as its steps are planned.
#[derive(Clone, Copy)]
pub struct FastAr {
    pub layers: usize,
}

/// The positions of a step.
#[derive(Debug, Clone, Copy, PartialEq, Eq)]
pub struct StepPlan {
    /// The first position, and with it the first row of the rotation tables.
    pub start: usize,
    /// The number of positions.
    pub len: usize,
    /// The number of positions that the step attends to.
    pub causal_len: usize,
    /// The column whose hidden state gives the logits.
    pub last: usize,
    /// The number of layers that are run, each on its own cache.
    pub layers: usize,
    /// The sides of the logits: one row for each sequence of the batch.
    pub logits: (usize, usize),
    /// The sides of the normalized hidden state of the last column.
    pub hidden: (usize, usize, usize),
}

/// A position behind the last one that the model knows.
#[derive(Debug)]
pub struct PositionError {
    pub position: usize,
    pub max_len: usize,
}

fn row_of_code(code: i64, codebook: usize) -> (r: u32)
    requires
        codebook < NUM_CODEBOOKS,
    ensures
        r == code_row(code, codebook as int),
{
    let row: i128 = code as i128 + (codebook as i128) * 4096;
    if row < 0 {
        0
    } else if row > 4294967295 {
        4294967295
    } else {
        row as u32
    }
}

fn smaller(a: usize, b: usize) -> (r: usize)
    ensures
        r == if a < b {
            a
        } else {
            b
        },
{
    if a < b {
        a
    } else {
        b
    }
}

pub open spec fn least(a: usize, b: usize) -> usize {
    if a < b {
        a
    } else {
        b
    }
}

impl SlowAr {
    /// The slow model, and the weights that it loads.
    pub fn load() -> (r: (SlowAr, Vec<WeightPlan>))
        ensures
            r.0.semantic_begin_id == SEMANTIC_BEGIN_ID,
            r.0.semantic_end_id == SEMANTIC_END_ID,
            weights_of(r.1@) == slow_weights(),
    {
        (
            SlowAr { semantic_begin_id: SEMANTIC_BEGIN_ID, semantic_end_id: SEMANTIC_END_ID },
            slow_weight_plan(),
        )
    }

    /// Attention as the layers of the slow model have it.
    pub fn attention() -> (r: Attention)
        ensures
            r == (Attention {
                n_head: N_HEAD,
                n_local_heads: N_LOCAL_HEADS,
                head_dim: HEAD_DIM,
            }),
            r.wf(),
    {
        Attention { n_head: N_HEAD, n_local_heads: N_LOCAL_HEADS, head_dim: HEAD_DIM }
    }

    /// One cache for each layer, as long as the model's memory.
    pub fn new_kv_caches(batch: usize) -> (r: Vec<FixedKvCache>)
        ensures
            r@.len() == N_LAYER,
            forall|i: int|
                0 <= i < r@.len() ==> (#[trigger] r@[i]).sides() == (
                    batch,
                    N_LOCAL_HEADS,
                    MAX_SEQ_LEN,
                    HEAD_DIM,
                ),
    {
        new_caches(N_LAYER, batch, MAX_SEQ_LEN)
    }

    /// The table rows of the columns of every sequence of a batch. Rows behind
    /// that of the last codebook are not looked at.
    pub fn embed(&self, batch: &Vec<&BatchTensor>) -> (r: Result<Vec<EmbedPlan>, TooFewRows>)
        ensures
            match r {
                Ok(plans) => {
                    &&& plans@.len() == batch@.len()
                    &&& forall|b: int|
                        #![trigger plans@[b]]
                        0 <= b < plans@.len() ==> self.embeds(batch@[b].rows(), plans@[b])
                },
                Err(e) => exists|b: int|
                    0 <= b < batch@.len() && (#[trigger] batch@[b]).rows().len() < NUM_CODEBOOKS + 1
                        && e.rows == batch@[b].rows().len(),
            },
    {
        let mut plans: Vec<EmbedPlan> = Vec::new();
        for b in 0..batch.len()
            invariant
                plans@.len() == b,
                forall|k: int|
                    #![trigger plans@[k]]
                    0 <= k < b ==> self.embeds(batch@[k].rows(), plans@[k]),
        {
            match self.embed_sequence(batch[b]) {
                Ok(plan) => {
                    plans.push(plan);
                },
                Err(e) => {
                    assert(batch@[b as int].rows().len() < NUM_CODEBOOKS + 1);
                    return Err(e);
                },
            }
        }
        Ok(plans)
    }

    /// `plan` holds the table rows of the columns with these ids and codes.
    pub open spec fn embeds(self, rows: Seq<Seq<i64>>, plan: EmbedPlan) -> bool {
        &&& rows.len() >= NUM_CODEBOOKS + 1
        &&& plan.tokens@ == rows[0].map_values(|id: i64| token_row(id))
        &&& plan.gated@ == rows[0].map_values(
            |id: i64| carries_codes(id, self.semantic_begin_id, self.semantic_end_id),
        )
        &&& plan.codes@.len() == NUM_CODEBOOKS
        &&& forall|cb: int|
            0 <= cb < NUM_CODEBOOKS ==> (#[trigger] plan.codes@[cb])@ == rows[cb + 1].map_values(
                |code: i64| code_row(code, cb),
            )
    }

    fn embed_sequence(&self, input_ids: &BatchTensor) -> (r: Result<EmbedPlan, TooFewRows>)
        ensures
            match r {
                Ok(plan) => self.embeds(input_ids.rows(), plan),
                Err(e) => input_ids.rows().len() < NUM_CODEBOOKS + 1 && e.rows
                    == input_ids.rows().len(),
            },
    {
        let (_, rows, cols) = input_ids.dim();
        if rows < NUM_CODEBOOKS + 1 {
            return Err(TooFewRows { rows });
        }
        let ghost table = input_ids.rows();
        let ids = input_ids.row(0);
        let mut tokens: Vec<u32> = Vec::new();
        let mut gated: Vec<bool> = Vec::new();
        for t in 0..ids.len()
            invariant
                tokens@ == ids@.map_values(|id: i64| token_row(id)).take(t as int),
                gated@ == ids@.map_values(
                    |id: i64| carries_codes(id, self.semantic_begin_id, self.semantic_end_id),
                ).take(t as int),
        {
            let id: i64 = ids[t];
            tokens.push(low_bits(id));
            gated.push(self.semantic_begin_id <= id && id <= self.semantic_end_id);
            assert(tokens@ =~= ids@.map_values(|id: i64| token_row(id)).take(t + 1));
            assert(gated@ =~= ids@.map_values(
                |id: i64| carries_codes(id, self.semantic_begin_id, self.semantic_end_id),
            ).take(t + 1));
        }
        assert(tokens@ =~= ids@.map_values(|id: i64| token_row(id)));
        assert(gated@ =~= ids@.map_values(
            |id: i64| carries_codes(id, self.semantic_begin_id, self.semantic_end_id),
        ));
        let mut codes: Vec<Vec<u32>> = Vec::new();
        for cb in 0..NUM_CODEBOOKS
            invariant
                table == input_ids.rows(),
                table.len() >= NUM_CODEBOOKS + 1,
                codes@.len() == cb,
                forall|k: int|
                    0 <= k < cb ==> (#[trigger] codes@[k])@ == table[k + 1].map_values(
                        |code: i64| code_row(code, k),
                    ),
        {
            let row = input_ids.row(cb + 1);
            let ghost target = row@.map_values(|code: i64| code_row(code, cb as int));
            let mut line: Vec<u32> = Vec::new();
            for t in 0..row.len()
                invariant
                    cb < NUM_CODEBOOKS,
                    target == row@.map_values(|code: i64| code_row(code, cb as int)),
                    line@ == target.take(t as int),
            {
                line.push(row_of_code(row[t], cb));
                assert(line@ =~= target.take(t + 1));
            }
            assert(line@ =~= target);
            codes.push(line);
        }
        Ok(EmbedPlan { tokens, codes, gated })
    }

    /// A step of a batch at `positions`, with that many caches at hand.
    pub fn slow_step(&self, batch: usize, positions: &[usize], caches: usize) -> (r: Result<
        StepPlan,
        PositionError,
    >)
        requires
            positions@.len() > 0,
            contiguous(positions@),
        ensures
            match r {
                Ok(plan) => {
                    &&& positions@.last() < MAX_SEQ_LEN
                    &&& plan.start == positions@[0]
                    &&& plan.len == positions@.len()
                    &&& plan.causal_len == positions@.last() + 1
                    &&& plan.last == positions@.len() - 1
                    &&& plan.layers == least(N_LAYER, caches)
                    &&& plan.logits == (batch, SLOW_LOGITS_SIZE)
                    &&& plan.hidden == (batch, 1usize, DIM)
                },
                Err(e) => positions@.last() >= MAX_SEQ_LEN && e.position == positions@.last()
                    && e.max_len == MAX_SEQ_LEN,
            },
    {
        let len: usize = positions.len();
        let last: usize = positions[len - 1];
        if last >= MAX_SEQ_LEN {
            return Err(PositionError { position: last, max_len: MAX_SEQ_LEN });
        }
        Ok(
            StepPlan {
                start: positions[0],
                len,
                causal_len: last + 1,
                last: len - 1,
                layers: smaller(N_LAYER, caches),
                logits: (batch, SLOW_LOGITS_SIZE),
                hidden: (batch, 1, DIM),
            },
        )
    }
}

fn new_caches(count: usize, batch: usize, max_len: usize) -> (r: Vec<FixedKvCache>)
    ensures
        r@.len() == count,
        forall|i: int|
            0 <= i < r@.len() ==> (#[trigger] r@[i]).sides() == (
                batch,
                N_LOCAL_HEADS,
                max_len,
                HEAD_DIM,
            ),
{
    let mut out: Vec<FixedKvCache> = Vec::new();
    for i in 0..count
        invariant
            out@.len() == i,
            forall|k: int|
                0 <= k < i ==> (#[trigger] out@[k]).sides() == (
                    batch,
                    N_LOCAL_HEADS,
                    max_len,
                    HEAD_DIM,
                ),
    {
        out.push(FixedKvCache::new(batch, N_LOCAL_HEADS, max_len, HEAD_DIM));
    }
    out
}

#[verifier::truncate]
fn low_bits(id: i64) -> (r: u32)
    ensures
        r == token_row(id),
{
    id as u32
}

/// The sides of what a step of the fast model gives.
#[derive(Debug, Clone, Copy, PartialEq, Eq, Structural)]
pub enum FastSides {
    /// A row for each sequence.
    Rows(usize, usize),
    /// The one position of each sequence, with a row for it.
    Positions(usize, usize, usize),
}

/// What a step of the fast model runs.
#[derive(Debug, Clone, Copy, PartialEq, Eq, Structural)]
pub struct FastPlan {
    pub position: usize,
    /// The number of positions that the step attends to.
    pub causal_len: usize,
    /// The first layer that is run.
    pub first_layer: usize,
    /// The number of layers that are run one after the other, each on its own
    /// cache.
    pub layers: usize,
    /// Whether the norm and the output matrix are run behind the layers.
    pub head: bool,
    /// The sides of the scores of the codes, or of the hidden state.
    pub result: FastSides,
}

/// A code that the table of the fast model has no row for.
#[derive(Debug)]
pub struct TokenError {
    pub token: u32,
    pub size: usize,
}

/// The row of a table that an index selects.
#[derive(Debug, Clone, Copy, PartialEq, Eq, Structural)]
pub enum TableRow {
    Row(u32),
    /// The greatest index stands for a row of zeros.
    Zeros,
}

impl FastAr {
    /// The fast model, and the weights that it loads.
    pub fn load() -> (r: (FastAr, Vec<WeightPlan>))
        ensures
            r.0.layers == N_FAST_LAYER,
            weights_of(r.1@) == fast_weights(),
    {
        (FastAr { layers: N_FAST_LAYER }, fast_weight_plan())
    }

    /// One cache for each layer, with a position for each codebook.
    pub fn new_kv_caches(batch: usize) -> (r: Vec<FixedKvCache>)
        ensures
            r@.len() == N_FAST_LAYER,
            forall|i: int|
                0 <= i < r@.len() ==> (#[trigger] r@[i]).sides() == (
                    batch,
                    N_LOCAL_HEADS,
                    NUM_CODEBOOKS,
                    HEAD_DIM,
                ),
    {
        new_caches(N_FAST_LAYER, batch, NUM_CODEBOOKS)
    }

    pub fn num_layers(&self) -> (r: usize)
        ensures
            r == self.layers,
    {
        self.layers
    }

    /// A step of the whole model.
    pub fn fast_step(&self, batch: usize, position: usize, caches: usize) -> (r: Result<
        FastPlan,
        PositionError,
    >)
        ensures
            is_fast_plan(r, position, self.n_layers_plan(batch, position, caches, self.layers)),
    {
        self.fast_step_n_layers(batch, position, caches, self.layers)
    }

    /// The plan of a step of the first `n_layers` layers.
    pub open spec fn n_layers_plan(
        self,
        batch: usize,
        position: usize,
        caches: usize,
        n_layers: usize,
    ) -> FastPlan {
        FastPlan {
            position,
            causal_len: (position + 1) as usize,
            first_layer: 0,
            layers: least(least(self.layers, caches), n_layers),
            head: n_layers == self.layers,
            result: if n_layers == self.layers {
                FastSides::Rows(batch, CODEBOOK_SIZE)
            } else {
                FastSides::Rows(batch, FAST_DIM)
            },
        }
    }

    /// A step of the first `n_layers` layers alone; only where these are all
    /// layers is the head run too.
    pub fn fast_step_n_layers(
        &self,
        batch: usize,
        position: usize,
        caches: usize,
        n_layers: usize,
    ) -> (r: Result<FastPlan, PositionError>)
        ensures
            is_fast_plan(r, position, self.n_layers_plan(batch, position, caches, n_layers)),
    {
        if position >= NUM_CODEBOOKS {
            return Err(PositionError { position, max_len: NUM_CODEBOOKS });
        }
        Ok(
            FastPlan {
                position,
                causal_len: position + 1,
                first_layer: 0,
                layers: smaller(smaller(self.layers, caches), n_layers),
                head: n_layers == self.layers,
                result: if n_layers == self.layers {
                    FastSides::Rows(batch, CODEBOOK_SIZE)
                } else {
                    FastSides::Rows(batch, FAST_DIM)
                },
            },
        )
    }

    /// The plan of a step of one layer.
    pub open spec fn layer_plan(self, batch: usize, layer_idx: usize, position: usize) -> FastPlan {
        FastPlan {
            position,
            causal_len: (position + 1) as usize,
            first_layer: layer_idx,
            layers: 1,
            head: false,
            result: FastSides::Positions(batch, 1, FAST_DIM),
        }
    }

    /// A step of one layer alone, which keeps the form of its input.
    pub fn fast_layer_step(&self, batch: usize, layer_idx: usize, position: usize) -> (r: Result<
        FastPlan,
        PositionError,
    >)
        requires
            layer_idx < self.layers,
        ensures
            is_fast_plan(r, position, self.layer_plan(batch, layer_idx, position)),
    {
        if position >= NUM_CODEBOOKS {
            return Err(PositionError { position, max_len: NUM_CODEBOOKS });
        }
        Ok(
            FastPlan {
                position,
                causal_len: position + 1,
                first_layer: layer_idx,
                layers: 1,
                head: false,
                result: FastSides::Positions(batch, 1, FAST_DIM),
            },
        )
    }

    /// The sides of what the norm and the output matrix make of a hidden state:
    /// the scores of the codes.
    pub fn fast_output_head(&self, batch: usize) -> (r: FastSides)
        ensures
            r == FastSides::Rows(batch, CODEBOOK_SIZE),
    {
        FastSides::Rows(batch, CODEBOOK_SIZE)
    }

    /// The table row of a code.
    pub fn embed_token(&self, token: u32) -> (r: Result<TableRow, TokenError>)
        ensures
            match r {
                Ok(TableRow::Row(row)) => token < CODEBOOK_SIZE && row == token,
                Ok(TableRow::Zeros) => token == u32::MAX,
                Err(e) => CODEBOOK_SIZE <= token < u32::MAX && e.token == token && e.size
                    == CODEBOOK_SIZE,
            },
    {
        if token == u32::MAX {
            Ok(TableRow::Zeros)
        } else if (token as usize) < CODEBOOK_SIZE {
            Ok(TableRow::Row(token))
        } else {
            Err(TokenError { token, size: CODEBOOK_SIZE })
        }
    }
}

/// `r` is `plan` where the fast model has the position.
pub open spec fn is_fast_plan(
    r: Result<FastPlan, PositionError>,
    position: usize,
    plan: FastPlan,
) -> bool {
    match r {
        Ok(p) => position < NUM_CODEBOOKS && p == plan,
        Err(e) => position >= NUM_CODEBOOKS && e.position == position && e.max_len == NUM_CODEBOOKS,
    }
}

/// What the layers of a model compute, whatever it is: the row that a layer
/// writes into its cache for a hidden state, and the hidden state that it makes
/// of one and of the rows that it attends to.
#[verifier::reject_recursive_types(H)]
#[verifier::reject_recursive_types(R)]
pub ghost struct LayerWork<H, R> {
    pub row: spec_fn(int, H) -> R,
    pub out: spec_fn(int, H, Seq<R>) -> H,
}

/// What `count` layers from `first` on make of a hidden state and of the caches,
/// each of which holds one row for each position.
pub open spec fn layers_run<H, R>(
    work: LayerWork<H, R>,
    plan: FastPlan,
    count: nat,
    hidden: H,
    caches: Seq<Seq<R>>,
) -> (H, Seq<Seq<R>>)
    decreases count,
{
    if count == 0 {
        (hidden, caches)
    } else {
        let (h, c) = layers_run(work, plan, (count - 1) as nat, hidden, caches);
        let layer = plan.first_layer + count - 1;
        let written = c[layer].update(plan.position as int, (work.row)(layer, h));
        ((work.out)(layer, h, written.take(plan.causal_len as int)), c.update(layer, written))
    }
}

/// What a plan makes of a hidden state and of the caches.
pub open spec fn plan_run<H, R>(
    work: LayerWork<H, R>,
    plan: FastPlan,
    hidden: H,
    caches: Seq<Seq<R>>,
) -> (H, Seq<Seq<R>>) {
    layers_run(work, plan, plan.layers as nat, hidden, caches)
}

/// What the single layers below `n` make of a hidden state and of the caches,
/// each run by itself on what the one before left.
pub open spec fn layers_in_turn<H, R>(
    work: LayerWork<H, R>,
    fast: FastAr,
    batch: usize,
    position: usize,
    n: nat,
    hidden: H,
    caches: Seq<Seq<R>>,
) -> (H, Seq<Seq<R>>)
    decreases n,
{
    if n == 0 {
        (hidden, caches)
    } else {
        let (h, c) = layers_in_turn(work, fast, batch, position, (n - 1) as nat, hidden, caches);
        plan_run(work, fast.layer_plan(batch, (n - 1) as usize, position), h, c)
    }
}

/// A step of `n` layers is the single layers one after the other; the head comes
/// only behind all of them. The caches of the other layers are left alone, and
/// those of the `n` layers are changed at the position of the step only.
pub proof fn law_step_is_its_layers_in_turn<H, R>(
    work: LayerWork<H, R>,
    fast: FastAr,
    batch: usize,
    position: usize,
    n: usize,
    hidden: H,
    caches: Seq<Seq<R>>,
    other: int,
    p: int,
)
    requires
        n <= fast.layers,
        fast.layers == caches.len(),
        forall|k: int| 0 <= k < caches.len() ==> position < (#[trigger] caches[k]).len(),
        0 <= other < caches.len(),
        0 <= p < caches[other].len(),
        other >= n || p != position,
    ensures
        ({
            let plan = fast.n_layers_plan(batch, position, fast.layers, n);
            let after = plan_run(work, plan, hidden, caches);
            &&& after == layers_in_turn(work, fast, batch, position, n as nat, hidden, caches)
            &&& plan.head <==> n == fast.layers
            &&& after.1.len() == caches.len()
            &&& after.1[other].len() == caches[other].len()
            &&& after.1[other][p] == caches[other][p]
        }),
{
    let plan = fast.n_layers_plan(batch, position, fast.layers, n);
    lemma_layers(work, fast, batch, plan, n as nat, hidden, caches);
}

proof fn lemma_layers<H, R>(
    work: LayerWork<H, R>,
    fast: FastAr,
    batch: usize,
    plan: FastPlan,
    n: nat,
    hidden: H,
    caches: Seq<Seq<R>>,
)
    requires
        n <= caches.len(),
        caches.len() <= usize::MAX,
        forall|k: int| 0 <= k < caches.len() ==> plan.position < (#[trigger] caches[k]).len(),
        plan.first_layer == 0,
        plan.causal_len == (plan.position + 1) as usize,
    ensures
        ({
            let after = layers_run(work, plan, n, hidden, caches);
            &&& after == layers_in_turn(work, fast, batch, plan.position, n, hidden, caches)
            &&& after.1.len() == caches.len()
            &&& forall|k: int|
                0 <= k < caches.len() ==> (#[trigger] after.1[k]).len() == caches[k].len()
            &&& forall|k: int, p: int|
                0 <= k < caches.len() && 0 <= p < caches[k].len() && (k >= n || p != plan.position)
                    ==> #[trigger] after.1[k][p] == caches[k][p]
        }),
    decreases n,
{
    if n > 0 {
        lemma_layers(work, fast, batch, plan, (n - 1) as nat, hidden, caches);
        let single = fast.layer_plan(batch, (n - 1) as usize, plan.position);
        let (h, c) = layers_run(work, plan, (n - 1) as nat, hidden, caches);
        assert(layers_run(work, single, 0, h, c) == (h, c));
        assert(plan_run(work, single, h, c) == layers_run(work, single, 1, h, c));
        let after = layers_run(work, plan, n, hidden, caches);
        assert(after == plan_run(work, single, h, c));
        let layer = n - 1;
        assert(c[layer].len() == caches[layer].len());
        assert forall|k: int, p: int|
            0 <= k < caches.len() && 0 <= p < caches[k].len() && (k >= n || p
                != plan.position) implies #[trigger] after.1[k][p] == caches[k][p] by {
            assert(c[k][p] == caches[k][p]);
        }
        assert forall|k: int| 0 <= k < caches.len() implies (#[trigger] after.1[k]).len()
            == caches[k].len() by {
            assert(c[k].len() == caches[k].len());
        }
    }
}

/// Where a model is to run.
#[derive(Debug, Clone, Copy, PartialEq, Eq, Structural)]
pub enum DeviceChoice {
    Cpu,
    Cuda,
}

/// The device to run on, given whether CUDA is preferred and whether a CUDA
/// device was found, and whether falling back to the CPU is worth a warning.
pub fn device_cuda_or_cpu(prefer_cuda: bool, found: bool) -> (r: (DeviceChoice, bool))
    ensures
        r.0 == DeviceChoice::Cuda <==> prefer_cuda && found,
        r.1 == (prefer_cuda && !found),
{
    if prefer_cuda {
        if found {
            return (DeviceChoice::Cuda, false);
        }
        return (DeviceChoice::Cpu, true);
    }
    (DeviceChoice::Cpu, false)
}

/// Codes of a codebook have rows in the part of the table that belongs to the
/// codebook, and tokens of the vocabulary have the row of their id.
pub proof fn law_rows_of_valid_columns(id: i64, code: i64, codebook: int)
    requires
        0 <= id < VOCAB_SIZE,
        0 <= code < CODEBOOK_SIZE,
        0 <= codebook < NUM_CODEBOOKS,
    ensures
        token_row(id) == id,
        codebook * CODEBOOK_SIZE <= code_row(code, codebook) < (codebook + 1) * CODEBOOK_SIZE,
        code_row(code, codebook) < CODEBOOK_SIZE * NUM_CODEBOOKS,
        code_row(code, codebook) - codebook * CODEBOOK_SIZE == code,
{
}

/// The codes of a column count exactly where its id is a semantic one, as it is
/// in the columns of a prompt that hold the reference.
pub proof fn law_codes_count_for_semantic_ids(code: i64, id: i64)
    requires
        0 <= code < CODEBOOK_SIZE,
    ensures
        carries_codes((SEMANTIC_BEGIN_ID + code) as i64, SEMANTIC_BEGIN_ID, SEMANTIC_END_ID),
        carries_codes(id, SEMANTIC_BEGIN_ID, SEMANTIC_END_ID) ==> 0 <= id - SEMANTIC_BEGIN_ID
            < CODEBOOK_SIZE,
{
}

/// A step that succeeds stays within the caches: its last position has a place
/// in each of them, and it attends to all positions up to that one.
pub proof fn law_steps_stay_within_caches(positions: Seq<usize>, plan: StepPlan)
    requires
        positions.len() > 0,
        contiguous(positions),
        positions.last() < MAX_SEQ_LEN,
        plan.start == positions[0],
        plan.len == positions.len(),
        plan.causal_len == positions.last() + 1,
    ensures
        plan.start + plan.len == plan.causal_len,
        plan.causal_len <= MAX_SEQ_LEN,
        plan.len == plan.causal_len <==> plan.start == 0,
{
    assert(positions[positions.len() - 1] == positions[0] + positions.len() - 1);
}

/// A step of the slow model changes each cache at its own positions only.
pub proof fn law_slow_step_changes_its_positions<R>(
    cache: FixedKvCache,
    positions: Seq<usize>,
    plan: StepPlan,
    rows: Seq<R>,
    new: Seq<R>,
    p: int,
)
    requires
        positions.len() > 0,
        contiguous(positions),
        positions.last() < MAX_SEQ_LEN,
        plan.start == positions[0],
        plan.len == positions.len(),
        0 <= p < rows.len(),
        !(plan.start <= p < plan.start + plan.len),
    ensures
        replaced(rows, cache.part(positions[0], (positions.last() + 1) as usize), new)[p]
            == rows[p],
{
    assert(positions[positions.len() - 1] == positions[0] + positions.len() - 1);
}

/// The projection of a position holds the queries of all heads, then the keys and
/// then the values of the shared heads. Each shared head serves as many query
/// heads as there are to one of them, and later positions are hidden exactly
/// where a call attends to just its own positions.
pub proof fn law_attention_splits_by_heads(
    a: &Attention,
    t: usize,
    causal_len: usize,
    r: AttentionCall,
)
    requires
        a.wf(),
        call_ensures(Attention::forward, (a, t, causal_len), r),
    ensures
        r.split.q.0 == 0,
        r.split.q.1 == a.n_head * a.head_dim,
        r.split.k.0 == a.n_head * a.head_dim,
        r.split.k.1 == a.n_local_heads * a.head_dim,
        r.split.v.0 == a.n_head * a.head_dim + a.n_local_heads * a.head_dim,
        r.split.v.1 == a.n_local_heads * a.head_dim,
        a.n_local_heads * r.repeats <= a.n_head < a.n_local_heads * (r.repeats + 1),
        r.masked <==> t == causal_len,
{
    a.lemma_sizes();
    let n = a.n_head as int;
    let m = a.n_local_heads as int;
    vstd::arithmetic::div_mod::lemma_fundamental_div_mod(n, m);
    vstd::arithmetic::div_mod::lemma_mod_bound(n, m);
    assert(m * (n / m + 1) == m * (n / m) + m) by (nonlinear_arith);
    assert(0 <= n / m <= n) by (nonlinear_arith)
        requires
            n == m * (n / m) + n % m,
            0 <= n % m < m,
            m >= 1,
            n >= 0,
    ;
}

/// Each head is repeated as often as is asked for, one behind the other, before
/// the next one comes.
pub proof fn law_heads_are_repeated_in_place(
    heads: usize,
    repeats: usize,
    r: Vec<usize>,
    h: int,
    i: int,
)
    requires
        call_ensures(repeat_interleave_heads, (heads, repeats), r),
        0 <= h < heads,
        0 <= i < repeats,
    ensures
        r@.len() == heads * repeats,
        0 <= h * repeats + i < r@.len(),
        r@[h * repeats + i] == h,
{
    assert(0 <= h * repeats && h * repeats + repeats <= heads * repeats) by (nonlinear_arith)
        requires
            0 <= h,
            h + 1 <= heads,
            0 <= repeats,
    ;
    vstd::arithmetic::div_mod::lemma_fundamental_div_mod_converse(
        h * repeats + i,
        repeats as int,
        h,
        i,
    );
}

/// In the mask a position sees itself and all earlier ones, and no later one.
pub proof fn law_mask_hides_the_future(t: usize, r: Vec<bool>, i: int, j: int)
    requires
        call_ensures(causal_mask, (t,), r),
        0 <= i < t,
        0 <= j < t,
    ensures
        r@.len() == t * t,
        0 <= i * t + j < r@.len(),
        r@[i * t + j] <==> j <= i,
{
    assert(0 <= i * t && i * t + t <= t * t) by (nonlinear_arith)
        requires
            0 <= i,
            i + 1 <= t,
    ;
    vstd::arithmetic::div_mod::lemma_fundamental_div_mod_converse(i * t + j, t as int, i, j);
}

/// Every column of every sequence is embedded by the row of its own token and by
/// one row for each codebook, those of a codebook behind the 4096 of the one
/// before; its codes count where the token is a semantic one.
pub proof fn law_columns_are_embedded_by_their_rows(
    slow: &SlowAr,
    batch: &Vec<&BatchTensor>,
    r: Result<Vec<EmbedPlan>, TooFewRows>,
    b: int,
    t: int,
    cb: int,
)
    requires
        call_ensures(SlowAr::embed, (slow, batch), r),
        0 <= b < batch@.len(),
        forall|k: int| 0 <= k < batch@.len() ==> (#[trigger] batch@[k]).rows().len() >= 11,
        0 <= t < batch@[b].rows()[0].len(),
        0 <= cb < 10,
        t < batch@[b].rows()[cb + 1].len(),
    ensures
        r is Ok,
        r->Ok_0@.len() == batch@.len(),
        ({
            let plan = r->Ok_0@[b];
            let id = batch@[b].rows()[0][t];
            let code = batch@[b].rows()[cb + 1][t];
            &&& plan.tokens@.len() == batch@[b].rows()[0].len()
            &&& 0 <= id < 0x1_0000_0000 ==> plan.tokens@[t] == id
            &&& plan.gated@.len() == batch@[b].rows()[0].len()
            &&& plan.gated@[t] <==> slow.semantic_begin_id <= id <= slow.semantic_end_id
            &&& plan.codes@.len() == 10
            &&& plan.codes@[cb]@.len() == batch@[b].rows()[cb + 1].len()
            &&& 0 <= code < 4096 ==> plan.codes@[cb]@[t] == 4096 * cb + code
            &&& code + 4096 * cb < 0 ==> plan.codes@[cb]@[t] == 0
            &&& code + 4096 * cb > 0xffff_ffff ==> plan.codes@[cb]@[t] == 0xffff_ffff
            &&& 0 <= code + 4096 * cb <= 0xffff_ffff ==> plan.codes@[cb]@[t] == code + 4096 * cb
        }),
{
    if r is Ok {
        let plan = r->Ok_0@[b];
        assert(slow.embeds(batch@[b].rows(), plan));
        assert(plan.codes@[cb]@ == batch@[b].rows()[cb + 1].map_values(
            |code: i64| code_row(code, cb),
        ));
    }
}

/// A row of too few codes is refused: of a batch some sequence of which has fewer
/// than one row for the tokens and one for each codebook, nothing is embedded.
pub proof fn law_short_columns_are_refused(
    slow: &SlowAr,
    batch: &Vec<&BatchTensor>,
    r: Result<Vec<EmbedPlan>, TooFewRows>,
    b: int,
)
    requires
        call_ensures(SlowAr::embed, (slow, batch), r),
        0 <= b < batch@.len(),
        batch@[b].rows().len() < 11,
    ensures
        r is Err,
        r->Err_0.rows < 11,
{
    if r is Ok {
        assert(slow.embeds(batch@[b].rows(), r->Ok_0@[b]));
    }
}

/// The row of a token is its id, cut to 32 bits.
pub proof fn law_token_rows_are_ids(id: i64)
    ensures
        0 <= id < 0x1_0000_0000 ==> token_row(id) == id,
        token_row(id) as i64 == id & 0xffff_ffff,
{
    assert((id as u32) as i64 == id & 0xffff_ffff) by (bit_vector);
}

/// A step of the slow model starts at its first position, is as long as its
/// positions, attends to all up to its last one, and gives the 4097 logits and
/// the hidden state of its last column for each sequence. It runs a layer for
/// each cache, 24 at most, and is refused from position 2048 on.
pub proof fn law_slow_steps_follow_their_positions(
    slow: &SlowAr,
    batch: usize,
    positions: &[usize],
    caches: usize,
    r: Result<StepPlan, PositionError>,
)
    requires
        call_ensures(SlowAr::slow_step, (slow, batch, positions, caches), r),
        positions@.len() > 0,
    ensures
        r is Ok <==> positions@.last() < 2048,
        r matches Ok(plan) ==> {
            &&& plan.start == positions@[0]
            &&& plan.len == positions@.len()
            &&& plan.last + 1 == positions@.len()
            &&& plan.causal_len == positions@.last() + 1
            &&& caches <= 24 ==> plan.layers == caches
            &&& caches >= 24 ==> plan.layers == 24
            &&& plan.logits == (batch, 4097usize)
            &&& plan.hidden == (batch, 1usize, 896usize)
        },
        r matches Err(e) ==> e.position == positions@.last() && e.max_len == 2048,
{
}

/// A step of the fast model is at one of ten positions and attends to all up to
/// its own. It runs the layers from the first on, as many as are asked for, are
/// there and have a cache; the head, which gives the 4096 scores of the codes,
/// where all are asked for, and only there. A single layer is run by itself and
/// keeps the form of its input.
pub proof fn law_fast_steps_follow_what_is_asked(
    fast: &FastAr,
    batch: usize,
    position: usize,
    caches: usize,
    n: usize,
    r: Result<FastPlan, PositionError>,
    whole: Result<FastPlan, PositionError>,
    single: Result<FastPlan, PositionError>,
)
    requires
        call_ensures(FastAr::fast_step_n_layers, (fast, batch, position, caches, n), r),
        call_ensures(FastAr::fast_step, (fast, batch, position, caches), whole),
        call_ensures(FastAr::fast_layer_step, (fast, batch, n, position), single),
    ensures
        r is Ok <==> position < 10,
        whole is Ok <==> position < 10,
        single is Ok <==> position < 10,
        r matches Err(e) ==> e.position == position && e.max_len == 10,
        n == fast.layers && r is Ok ==> whole == Ok::<_, PositionError>(r->Ok_0),
        r matches Ok(plan) ==> {
            &&& plan.position == position
            &&& plan.causal_len == position + 1
            &&& plan.first_layer == 0
            &&& plan.layers <= n && plan.layers <= caches && plan.layers <= fast.layers
            &&& plan.layers == n || plan.layers == caches || plan.layers == fast.layers
            &&& plan.head <==> n == fast.layers
            &&& plan.head ==> plan.result == FastSides::Rows(batch, 4096)
            &&& !plan.head ==> plan.result == FastSides::Rows(batch, 896)
        },
        single matches Ok(plan) ==> {
            &&& plan.position == position
            &&& plan.causal_len == position + 1
            &&& plan.first_layer == n
            &&& plan.layers == 1
            &&& !plan.head
            &&& plan.result == FastSides::Positions(batch, 1, 896)
        },
{
}

/// The models have their layers and heads: 24 layers with caches of 2048
/// positions, 4 with caches of 10, and in all of them 14 query heads of 64 that
/// share two heads.
pub proof fn law_models_have_their_layers(
    batch: usize,
    slow: Vec<FixedKvCache>,
    fast: Vec<FixedKvCache>,
    a: Attention,
    model: (FastAr, Vec<WeightPlan>),
    other: (SlowAr, Vec<WeightPlan>),
    i: int,
    j: int,
)
    requires
        call_ensures(SlowAr::new_kv_caches, (batch,), slow),
        call_ensures(FastAr::new_kv_caches, (batch,), fast),
        call_ensures(SlowAr::attention, (), a),
        call_ensures(FastAr::load, (), model),
        call_ensures(SlowAr::load, (), other),
        0 <= i < slow@.len(),
        0 <= j < fast@.len(),
    ensures
        slow@.len() == 24,
        slow@[i].sides() == (batch, 2usize, 2048usize, 64usize),
        fast@.len() == 4,
        fast@[j].sides() == (batch, 2usize, 10usize, 64usize),
        a.n_head == 14 && a.n_local_heads == 2 && a.head_dim == 64,
        model.0.layers == 4,
        other.0.semantic_begin_id == 151678 && other.0.semantic_end_id == 155773,
{
}

/// A code has the row of its number; the greatest number stands for a row of
/// zeros, and the numbers between are refused.
pub proof fn law_codes_have_their_rows(fast: &FastAr, token: u32, r: Result<TableRow, TokenError>)
    requires
        call_ensures(FastAr::embed_token, (fast, token), r),
    ensures
        token < 4096 ==> r is Ok && r->Ok_0 == TableRow::Row(token),
        token == 0xffff_ffff ==> r matches Ok(TableRow::Zeros),
        4096 <= token < 0xffff_ffff ==> r is Err && r->Err_0.token == token && r->Err_0.size == 4096,
{
}

} // verus!
