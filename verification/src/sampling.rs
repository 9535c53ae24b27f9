//! The decisions of token sampling: the ranking of the candidates, which of
//! them are kept, which one wins, and which semantic token is taken.
//!
//! Logits and scores come as the bits of IEEE 754 numbers, of which only the
//! order matters here.

use vstd::prelude::*;

use crate::chars::{copy_range, same_chars, to_chars};
use crate::manifest::RuntimeManifest;

verus! {

/// The bits of a 32-bit number that is no number.
pub open spec fn nan32(bits: u32) -> bool {
    bits & 0x7fff_ffff > 0x7f80_0000
}

/// A 32-bit number's place in the order of numbers; both zeros have the same.
pub open spec fn key32(bits: u32) -> int {
    if bits & 0x8000_0000 == 0 {
        (bits & 0x7fff_ffff) as int
    } else {
        -((bits & 0x7fff_ffff) as int)
    }
}

/// The bits of a 64-bit number that is no number.
pub open spec fn nan64(bits: u64) -> bool {
    bits & 0x7fff_ffff_ffff_ffff > 0x7ff0_0000_0000_0000
}

/// A 64-bit number's place in the order of numbers; both zeros have the same.
pub open spec fn key64(bits: u64) -> int {
    if bits & 0x8000_0000_0000_0000 == 0 {
        (bits & 0x7fff_ffff_ffff_ffff) as int
    } else {
        -((bits & 0x7fff_ffff_ffff_ffff) as int)
    }
}

fn order_key32(bits: u32) -> (r: i64)
    ensures
        r == key32(bits),
{
    let magnitude: u32 = bits & 0x7fff_ffff;
    assert(bits & 0x7fff_ffff <= 0x7fff_ffff) by (bit_vector);
    if bits & 0x8000_0000 == 0 {
        magnitude as i64
    } else {
        -(magnitude as i64)
    }
}

fn order_key64(bits: u64) -> (r: i64)
    ensures
        r == key64(bits),
{
    let magnitude: u64 = bits & 0x7fff_ffff_ffff_ffff;
    assert(bits & 0x7fff_ffff_ffff_ffff <= 0x7fff_ffff_ffff_ffff) by (bit_vector);
    if bits & 0x8000_0000_0000_0000 == 0 {
        magnitude as i64
    } else {
        -(magnitude as i64)
    }
}

/// Candidate `a` ranks before candidate `b`: it has the greater logit or, where
/// they are equal, the smaller index.
pub open spec fn ranks_before(logits: Seq<u32>, a: usize, b: usize) -> bool {
    key32(logits[a as int]) > key32(logits[b as int]) || (key32(logits[a as int]) == key32(
        logits[b as int],
    ) && a < b)
}

/// `order` holds the candidates from `lo` to `hi`, each once, the best first.
pub open spec fn ranks_range(logits: Seq<u32>, lo: int, hi: int, order: Seq<usize>) -> bool {
    &&& order.len() == hi - lo
    &&& forall|r: int| 0 <= r < order.len() ==> lo <= #[trigger] order[r] < hi
    &&& forall|a: usize| lo <= a < hi ==> #[trigger] order.contains(a)
    &&& forall|i: int, j: int|
        0 <= i < j < order.len() ==> ranks_before(logits, #[trigger] order[i], #[trigger] order[j])
}

/// `order` holds all candidates, each once, the best first.
pub open spec fn is_ranking(logits: Seq<u32>, order: Seq<usize>) -> bool {
    ranks_range(logits, 0, logits.len() as int, order)
}

/// Merges the ranking of the candidates below `mid` with that of those from
/// `mid` on.
fn merge(
    logits: &[u32],
    left: &Vec<usize>,
    right: &Vec<usize>,
    Ghost(lo): Ghost<int>,
    Ghost(mid): Ghost<int>,
    Ghost(hi): Ghost<int>,
) -> (r: Vec<usize>)
    requires
        0 <= lo <= mid <= hi <= logits@.len(),
        ranks_range(logits@, lo, mid, left@),
        ranks_range(logits@, mid, hi, right@),
    ensures
        ranks_range(logits@, lo, hi, r@),
{
    let mut out: Vec<usize> = Vec::new();
    let mut i: usize = 0;
    let mut j: usize = 0;
    while i < left.len() || j < right.len()
        invariant
            0 <= lo <= mid <= hi <= logits@.len(),
            ranks_range(logits@, lo, mid, left@),
            ranks_range(logits@, mid, hi, right@),
            i <= left@.len(),
            j <= right@.len(),
            out@.len() == i + j,
            forall|r: int| 0 <= r < out@.len() ==> lo <= #[trigger] out@[r] < hi,
            forall|k: int| 0 <= k < i ==> out@.contains(#[trigger] left@[k]),
            forall|k: int| 0 <= k < j ==> out@.contains(#[trigger] right@[k]),
            forall|r: int, k: int|
                0 <= r < out@.len() && i <= k < left@.len() ==> ranks_before(
                    logits@,
                    #[trigger] out@[r],
                    #[trigger] left@[k],
                ),
            forall|r: int, k: int|
                0 <= r < out@.len() && j <= k < right@.len() ==> ranks_before(
                    logits@,
                    #[trigger] out@[r],
                    #[trigger] right@[k],
                ),
            forall|r: int, q: int|
                0 <= r < q < out@.len() ==> ranks_before(
                    logits@,
                    #[trigger] out@[r],
                    #[trigger] out@[q],
                ),
        decreases left@.len() - i + right@.len() - j,
    {
        let ghost before = out@;
        let from_left = if i == left.len() {
            false
        } else if j == right.len() {
            true
        } else {
            order_key32(logits[left[i]]) >= order_key32(logits[right[j]])
        };
        if from_left {
            let a: usize = left[i];
            out.push(a);
            i = i + 1;
            proof {
                assert(out@.last() == a);
                assert forall|k: int| j <= k < right@.len() implies ranks_before(
                    logits@,
                    a,
                    #[trigger] right@[k],
                ) by {
                    assert(ranks_before(logits@, a, right@[j as int]));
                    assert(j < k ==> ranks_before(logits@, right@[j as int], right@[k]));
                }
            }
        } else {
            let b: usize = right[j];
            out.push(b);
            j = j + 1;
            proof {
                assert(out@.last() == b);
                assert forall|k: int| i <= k < left@.len() implies ranks_before(
                    logits@,
                    b,
                    #[trigger] left@[k],
                ) by {
                    assert(ranks_before(logits@, b, left@[i as int]));
                    assert(i < k ==> ranks_before(logits@, left@[i as int], left@[k]));
                }
            }
        }
        proof {
            assert forall|a: usize| before.contains(a) implies #[trigger] out@.contains(a) by {
                let w = choose|w: int| 0 <= w < before.len() && before[w] == a;
                assert(out@[w] == a);
            }
            assert(out@.contains(out@.last()));
        }
    }
    proof {
        assert forall|a: usize| lo <= a < hi implies #[trigger] out@.contains(a) by {
            if a < mid {
                assert(left@.contains(a));
                let k = choose|k: int| 0 <= k < left@.len() && left@[k] == a;
                assert(out@.contains(left@[k]));
            } else {
                assert(right@.contains(a));
                let k = choose|k: int| 0 <= k < right@.len() && right@[k] == a;
                assert(out@.contains(right@[k]));
            }
        }
    }
    out
}

fn rank_range(logits: &[u32], lo: usize, hi: usize) -> (r: Vec<usize>)
    requires
        lo <= hi <= logits@.len(),
    ensures
        ranks_range(logits@, lo as int, hi as int, r@),
    decreases hi - lo,
{
    if hi - lo <= 1 {
        let mut out: Vec<usize> = Vec::new();
        if lo < hi {
            out.push(lo);
            assert(out@[0] == lo);
        }
        return out;
    }
    let mid: usize = lo + (hi - lo) / 2;
    let left = rank_range(logits, lo, mid);
    let right = rank_range(logits, mid, hi);
    merge(logits, &left, &right, Ghost(lo as int), Ghost(mid as int), Ghost(hi as int))
}

/// The candidates, the one with the greatest logit first; of equal ones the one
/// with the smaller index comes first.
pub fn rank_order(logits: &[u32]) -> (r: Vec<usize>)
    requires
        logits@.len() <= 1 || forall|i: int|
            0 <= i < logits@.len() ==> !nan32(#[trigger] logits@[i]),
    ensures
        is_ranking(logits@, r@),
{
    rank_range(logits, 0, logits.len())
}

/// The first `k` candidates of the ranking, or all where there are fewer.
pub fn top_k_indices(logits: &[u32], k: usize) -> (r: Vec<usize>)
    requires
        logits@.len() <= 1 || forall|i: int|
            0 <= i < logits@.len() ==> !nan32(#[trigger] logits@[i]),
    ensures
        exists|order: Seq<usize>| #[trigger]
            is_ranking(logits@, order) && r@ == if k < order.len() {
                order.take(k as int)
            } else {
                order
            },
{
    let order = rank_order(logits);
    let count: usize = if k < order.len() {
        k
    } else {
        order.len()
    };
    let out: Vec<usize> = copy_range(&order, 0, count);
    proof {
        assert(is_ranking(logits@, order@));
        assert(k < order@.len() ==> out@ =~= order@.take(k as int));
        assert(k >= order@.len() ==> out@ =~= order@);
    }
    out
}

/// `r` is the last candidate with the greatest logit.
pub open spec fn is_greatest(logits: Seq<u32>, r: int) -> bool {
    &&& 0 <= r < logits.len()
    &&& forall|i: int|
        0 <= i < logits.len() ==> key32(#[trigger] logits[i]) <= key32(logits[r]) && (i > r
            ==> key32(logits[i]) < key32(logits[r]))
}

/// The candidate with the greatest logit; of equal ones the last.
pub fn argmax(logits: &[u32]) -> (r: usize)
    requires
        logits@.len() > 0,
        logits@.len() == 1 || forall|i: int|
            0 <= i < logits@.len() ==> !nan32(#[trigger] logits@[i]),
    ensures
        is_greatest(logits@, r as int),
{
    let mut best: usize = 0;
    for i in 1..logits.len()
        invariant
            best < i <= logits@.len(),
            is_greatest(logits@.take(i as int), best as int),
    {
        let ghost part = logits@.take(i as int);
        let ghost next = logits@.take(i + 1);
        let ghost before = best;
        if order_key32(logits[i]) >= order_key32(logits[best]) {
            best = i;
        }
        proof {
            assert forall|k: int| 0 <= k < next.len() implies key32(#[trigger] next[k]) <= key32(
                next[best as int],
            ) && (k > best ==> key32(next[k]) < key32(next[best as int])) by {
                if k < i {
                    assert(part[k] == next[k]);
                    assert(part[before as int] == next[before as int]);
                }
            }
        }
    }
    assert(logits@.take(logits@.len() as int) =~= logits@);
    best
}

/// The candidate of rank `r` stays: the best one always does; another one where
/// the probabilities up to it do not exceed the limit, and its rank is below
/// `top_k`.
pub open spec fn stays(over: Seq<bool>, top_k: usize, r: int) -> bool {
    r == 0 || (!over[r] && r < top_k)
}

/// For each candidate whether it stays. `over` says of each rank whether the
/// probabilities up to it exceed the limit.
pub fn keep_mask(order: &Vec<usize>, over: &Vec<bool>, top_k: usize) -> (r: Vec<bool>)
    requires
        over@.len() == order@.len(),
        forall|i: int| 0 <= i < order@.len() ==> #[trigger] order@[i] < order@.len(),
        forall|i: int, j: int| 0 <= i < j < order@.len() ==> order@[i] != order@[j],
    ensures
        r@.len() == order@.len(),
        forall|i: int|
            0 <= i < order@.len() ==> r@[#[trigger] order@[i] as int] == stays(over@, top_k, i),
{
    let n: usize = order.len();
    let mut keep: Vec<bool> = Vec::new();
    for i in 0..n
        invariant
            keep@.len() == i,
    {
        keep.push(true);
    }
    for rank in 0..n
        invariant
            n == order@.len(),
            over@.len() == n,
            keep@.len() == n,
            forall|i: int| 0 <= i < n ==> #[trigger] order@[i] < n,
            forall|i: int, j: int| 0 <= i < j < n ==> order@[i] != order@[j],
            forall|i: int|
                0 <= i < rank ==> keep@[#[trigger] order@[i] as int] == stays(over@, top_k, i),
    {
        let stay = rank == 0 || (!over[rank] && rank < top_k);
        let at: usize = order[rank];
        keep.set(at, stay);
        proof {
            assert forall|i: int| 0 <= i < rank + 1 implies keep@[#[trigger] order@[i] as int]
                == stays(over@, top_k, i) by {
                if i < rank {
                    assert(order@[i] != order@[rank as int]);
                }
            }
        }
    }
    keep
}

/// A score that can win: a number above negative infinity.
pub open spec fn eligible(bits: u64) -> bool {
    !nan64(bits) && key64(bits) > key64(0xfff0_0000_0000_0000)
}

/// `r` is the first candidate with the greatest eligible score, or zero where
/// no score is eligible.
pub open spec fn is_pick(scores: Seq<u64>, r: int) -> bool {
    if exists|i: int| 0 <= i < scores.len() && eligible(#[trigger] scores[i]) {
        &&& 0 <= r < scores.len()
        &&& eligible(scores[r])
        &&& forall|i: int|
            0 <= i < scores.len() && eligible(#[trigger] scores[i]) ==> key64(scores[i]) <= key64(
                scores[r],
            ) && (i < r ==> key64(scores[i]) < key64(scores[r]))
    } else {
        r == 0
    }
}

/// The winning candidate.
pub fn pick(scores: &[u64]) -> (r: usize)
    requires
        scores@.len() > 0,
    ensures
        is_pick(scores@, r as int),
        r < scores@.len(),
{
    assert(0xfff0_0000_0000_0000u64 & 0x8000_0000_0000_0000 != 0) by (bit_vector);
    assert(0xfff0_0000_0000_0000u64 & 0x7fff_ffff_ffff_ffff == 0x7ff0_0000_0000_0000)
        by (bit_vector);
    let mut best: usize = 0;
    let mut best_key: i64 = order_key64(0xfff0_0000_0000_0000);
    let ghost floor = best_key;
    for i in 0..scores.len()
        invariant
            floor == key64(0xfff0_0000_0000_0000),
            best_key >= floor,
            best_key == floor ==> best == 0 && forall|k: int|
                0 <= k < i ==> !eligible(#[trigger] scores@[k]),
            best_key > floor ==> {
                &&& best < i
                &&& eligible(scores@[best as int])
                &&& best_key == key64(scores@[best as int])
                &&& forall|k: int|
                    0 <= k < i && eligible(#[trigger] scores@[k]) ==> key64(scores@[k]) <= best_key
                        && (k < best ==> key64(scores@[k]) < best_key)
            },
    {
        let bits: u64 = scores[i];
        let key: i64 = order_key64(bits);
        let is_number = bits & 0x7fff_ffff_ffff_ffff <= 0x7ff0_0000_0000_0000;
        if is_number && key > best_key {
            best = i;
            best_key = key;
        }
    }
    best
}

/// The semantic tokens from `begin` to `end`, and the token that ends the
/// speech.
pub open spec fn allowed(begin: int, end: int, stop: i64) -> Seq<i64> {
    let count: int = if begin <= end {
        end - begin + 1
    } else {
        0
    };
    Seq::new(count as nat, |i: int| (begin + i) as i64).push(stop)
}

/// The tokens that the slow model may say.
pub fn allowed_ids(begin: i64, end: i64, stop: i64) -> (r: Vec<i64>)
    ensures
        r@ == allowed(begin as int, end as int, stop),
{
    let mut out: Vec<i64> = Vec::new();
    if begin <= end {
        let mut id: i64 = begin;
        loop
            invariant_except_break
                begin <= id <= end,
                out@ == Seq::new((id - begin) as nat, |i: int| (begin + i) as i64),
            ensures
                out@ == Seq::new((end - begin + 1) as nat, |i: int| (begin + i) as i64),
            decreases end - id,
        {
            out.push(id);
            assert(out@ =~= Seq::new((id - begin + 1) as nat, |i: int| (begin + i) as i64));
            if id == end {
                break;
            }
            id = id + 1;
        }
    }
    out.push(stop);
    assert(out@ =~= allowed(begin as int, end as int, stop));
    out
}

/// The logits of the allowed tokens: as they come where the model gives no
/// others, else picked out by token.
pub open spec fn logits_of<T>(logits: Seq<T>, ids: Seq<i64>, compact: bool) -> Seq<T> {
    if compact {
        logits
    } else {
        ids.map_values(|id: i64| logits[id as int])
    }
}

pub fn allowed_logits<T: Copy>(logits: &[T], ids: &Vec<i64>, compact: bool) -> (r: Vec<T>)
    requires
        compact || forall|i: int|
            0 <= i < ids@.len() ==> 0 <= #[trigger] ids@[i] < logits@.len(),
    ensures
        r@ == logits_of(logits@, ids@, compact),
{
    let mut out: Vec<T> = Vec::new();
    if compact {
        for i in 0..logits.len()
            invariant
                out@ == logits@.take(i as int),
        {
            out.push(logits[i]);
            assert(out@ =~= logits@.take(i + 1));
        }
        assert(out@ =~= logits@);
    } else {
        for i in 0..ids.len()
            invariant
                forall|k: int| 0 <= k < ids@.len() ==> 0 <= #[trigger] ids@[k] < logits@.len(),
                out@ == logits_of(logits@, ids@, false).take(i as int),
        {
            let id: i64 = ids[i];
            out.push(logits[id as usize]);
            assert(out@ =~= logits_of(logits@, ids@, false).take(i + 1));
        }
        assert(out@ =~= logits_of(logits@, ids@, false));
    }
    out
}

/// Whether the slow model gives the logits of the allowed tokens alone.
pub open spec fn compact_layout(manifest: &RuntimeManifest) -> bool {
    manifest.slow_logits_layout matches Some(layout) && layout@ == "semantic_then_eos"@
}

pub fn is_compact_layout(manifest: &RuntimeManifest) -> (r: bool)
    ensures
        r == compact_layout(manifest),
{
    match &manifest.slow_logits_layout {
        Some(layout) => {
            let text = to_chars(layout);
            let name = to_chars("semantic_then_eos");
            same_chars(&text, &name)
        },
        None => false,
    }
}

/// The semantic token that two draws give. The second draw replaces the first
/// where the first is a semantic token that was said recently.
pub open spec fn semantic_choice(
    normal: i64,
    high: i64,
    begin: i64,
    end: i64,
    previous: Seq<i64>,
) -> i64 {
    if begin <= normal <= end && previous.contains(normal) {
        high
    } else {
        normal
    }
}

/// The semantic token, where the two draws gave places in the list of allowed
/// tokens.
pub fn sample_semantic(
    manifest: &RuntimeManifest,
    normal_idx: usize,
    high_idx: usize,
    previous: &Vec<i64>,
) -> (r: i64)
    requires
        normal_idx < allowed_of(manifest).len(),
        high_idx < allowed_of(manifest).len(),
    ensures
        r == semantic_choice(
            allowed_of(manifest)[normal_idx as int],
            allowed_of(manifest)[high_idx as int],
            manifest.semantic_begin_id,
            manifest.semantic_end_id,
            previous@,
        ),
{
    let begin: i64 = manifest.semantic_begin_id;
    let end: i64 = manifest.semantic_end_id;
    let ids = allowed_ids(begin, end, manifest.im_end_id);
    let normal: i64 = ids[normal_idx];
    let high: i64 = ids[high_idx];
    if normal < begin || normal > end {
        return normal;
    }
    for i in 0..previous.len()
        invariant
            forall|k: int| 0 <= k < i ==> previous@[k] != normal,
            begin == manifest.semantic_begin_id,
            end == manifest.semantic_end_id,
            ids@ == allowed_of(manifest),
            normal == ids@[normal_idx as int],
            high == ids@[high_idx as int],
            begin <= normal <= end,
    {
        if previous[i] == normal {
            assert(previous@.contains(normal));
            return high;
        }
    }
    normal
}

/// The tokens that a manifest allows.
pub open spec fn allowed_of(manifest: &RuntimeManifest) -> Seq<i64> {
    allowed(
        manifest.semantic_begin_id as int,
        manifest.semantic_end_id as int,
        manifest.im_end_id,
    )
}

/// There is only one ranking.
pub proof fn law_ranking_is_unique(logits: Seq<u32>, a: Seq<usize>, b: Seq<usize>)
    requires
        is_ranking(logits, a),
        is_ranking(logits, b),
    ensures
        a == b,
{
    lemma_same_front(logits, a, b, a.len() as int);
    assert(a =~= b);
}

proof fn lemma_same_front(logits: Seq<u32>, a: Seq<usize>, b: Seq<usize>, n: int)
    requires
        is_ranking(logits, a),
        is_ranking(logits, b),
        0 <= n <= a.len(),
    ensures
        forall|r: int| 0 <= r < n ==> a[r] == b[r],
    decreases n,
{
    if n > 0 {
        let d = n - 1;
        lemma_same_front(logits, a, b, d);
        assert(b.contains(a[d]));
        let i = choose|i: int| 0 <= i < b.len() && b[i] == a[d];
        assert(a.contains(b[d]));
        let j = choose|j: int| 0 <= j < a.len() && a[j] == b[d];
        if i < d {
            assert(a[i] == b[i]);
            assert(ranks_before(logits, a[i], a[d]));
        } else if j < d {
            assert(a[j] == b[j]);
            assert(ranks_before(logits, b[j], b[d]));
        } else if i > d {
            assert(ranks_before(logits, b[d], b[i]));
            if j > d {
                assert(ranks_before(logits, a[d], a[j]));
            }
        }
    }
}

/// The best candidate always stays, and no other one stays whose rank is not
/// below `top_k`, whatever the probabilities are.
pub proof fn law_top_k_bounds_what_stays(over: Seq<bool>, top_k: usize, r: int)
    requires
        0 <= r < over.len(),
    ensures
        stays(over, top_k, 0),
        stays(over, top_k, r) ==> r == 0 || r < top_k,
        r > 0 && over[r] ==> !stays(over, top_k, r),
{
}

/// There is only one winner.
pub proof fn law_pick_is_unique(scores: Seq<u64>, a: int, b: int)
    requires
        is_pick(scores, a),
        is_pick(scores, b),
    ensures
        a == b,
{
}

/// A recent semantic token is said again only where the second draw gave it.
pub proof fn law_repeats_come_from_the_second_draw(
    normal: i64,
    high: i64,
    begin: i64,
    end: i64,
    previous: Seq<i64>,
)
    ensures
        ({
            let said = semantic_choice(normal, high, begin, end, previous);
            &&& said == normal || said == high
            &&& begin <= said <= end && previous.contains(said) ==> said == high
        }),
{
}

/// Each semantic token, and the token that ends the speech, has its place among
/// the allowed ones: the distance to the first, and the last place.
pub proof fn law_allowed_places(begin: i64, end: i64, stop: i64, id: i64)
    requires
        begin <= id <= end,
    ensures
        allowed(begin as int, end as int, stop).len() == end - begin + 2,
        allowed(begin as int, end as int, stop)[id - begin] == id,
        allowed(begin as int, end as int, stop).last() == stop,
{
}

/// The order of 64-bit numbers, by their bits: with the sign bit clear it is that
/// of the bits, with the sign bit set it is the reverse, and what has the sign
/// bit set lies below what has not, but for the two zeros, which are equal.
pub proof fn law_keys64_order_numbers(a: u64, b: u64)
    ensures
        a < b < 0x8000_0000_0000_0000 ==> key64(a) < key64(b),
        0x8000_0000_0000_0000 <= a < b ==> key64(a) > key64(b),
        b < 0x8000_0000_0000_0000 <= a && !(a == 0x8000_0000_0000_0000 && b == 0) ==> key64(a)
            < key64(b),
        key64(0x8000_0000_0000_0000) == key64(0),
        key64(a) == key64(b) <==> a == b || (a == 0 && b == 0x8000_0000_0000_0000) || (a
            == 0x8000_0000_0000_0000 && b == 0),
{
    lemma_key64(a);
    lemma_key64(b);
    lemma_key64(0);
    lemma_key64(0x8000_0000_0000_0000);
}

proof fn lemma_key64(a: u64)
    ensures
        key64(a) == if a < 0x8000_0000_0000_0000 {
            a as int
        } else {
            0x8000_0000_0000_0000 - a
        },
        nan64(a) <==> 0x7ff0_0000_0000_0000 < a < 0x8000_0000_0000_0000 || a
            > 0xfff0_0000_0000_0000,
{
    assert(a & 0x8000_0000_0000_0000 == 0 <==> a < 0x8000_0000_0000_0000) by (bit_vector);
    assert(a < 0x8000_0000_0000_0000 ==> a & 0x7fff_ffff_ffff_ffff == a) by (bit_vector);
    assert(a >= 0x8000_0000_0000_0000 ==> a & 0x7fff_ffff_ffff_ffff == a - 0x8000_0000_0000_0000)
        by (bit_vector);
}

/// The order of 32-bit numbers, by their bits, in the same way.
pub proof fn law_keys32_order_numbers(a: u32, b: u32)
    ensures
        a < b < 0x8000_0000 ==> key32(a) < key32(b),
        0x8000_0000 <= a < b ==> key32(a) > key32(b),
        b < 0x8000_0000 <= a && !(a == 0x8000_0000 && b == 0) ==> key32(a) < key32(b),
        key32(0x8000_0000) == key32(0),
        key32(a) == key32(b) <==> a == b || (a == 0 && b == 0x8000_0000) || (a == 0x8000_0000 && b
            == 0),
{
    lemma_key32(a);
    lemma_key32(b);
    lemma_key32(0);
    lemma_key32(0x8000_0000);
}

proof fn lemma_key32(a: u32)
    ensures
        key32(a) == if a < 0x8000_0000 {
            a as int
        } else {
            0x8000_0000 - a
        },
        nan32(a) <==> 0x7f80_0000 < a < 0x8000_0000 || a > 0xff80_0000,
{
    assert(a & 0x8000_0000 == 0 <==> a < 0x8000_0000) by (bit_vector);
    assert(a < 0x8000_0000 ==> a & 0x7fff_ffff == a) by (bit_vector);
    assert(a >= 0x8000_0000 ==> a & 0x7fff_ffff == a - 0x8000_0000) by (bit_vector);
}

/// The bits of what is no number: all those beyond the infinities.
pub proof fn law_numbers_end_at_infinity(a: u64, b: u32)
    ensures
        nan64(a) <==> 0x7ff0_0000_0000_0000 < a < 0x8000_0000_0000_0000 || a
            > 0xfff0_0000_0000_0000,
        nan32(b) <==> 0x7f80_0000 < b < 0x8000_0000 || b > 0xff80_0000,
        eligible(a) <==> a <= 0x7ff0_0000_0000_0000 || 0x8000_0000_0000_0000 <= a
            < 0xfff0_0000_0000_0000,
{
    lemma_key64(a);
    lemma_key64(0xfff0_0000_0000_0000);
    lemma_key32(b);
}

/// No candidate with a greater score is passed over, nor an earlier one with the
/// same: where the winner has its sign bit clear, all scores that are numbers
/// with the sign bit clear have smaller bits, or the same bits further back;
/// where it has not, no such score is there, and all other numbers lie below it.
/// Without a number above negative infinity the first candidate wins.
pub proof fn law_pick_takes_the_greatest(scores: &[u64], r: usize, i: int)
    requires
        call_ensures(pick, (scores,), r),
        0 <= i < scores@.len(),
    ensures
        r < scores@.len(),
        ({
            let top = scores@[r as int];
            let s = scores@[i];
            &&& s <= 0x7ff0_0000_0000_0000 ==> top <= 0x7ff0_0000_0000_0000 && s <= top || (top
                == 0x8000_0000_0000_0000 && s == 0)
            &&& s <= 0x7ff0_0000_0000_0000 && i < r ==> s < top <= 0x7ff0_0000_0000_0000
            &&& 0x8000_0000_0000_0000 <= s < 0xfff0_0000_0000_0000 ==> top <= 0x7ff0_0000_0000_0000
                || 0x8000_0000_0000_0000 <= top <= s
            &&& 0x8000_0000_0000_0000 < s < 0xfff0_0000_0000_0000 && i < r ==> s != top
            &&& s == 0x8000_0000_0000_0000 && i < r ==> 0 < top <= 0x7ff0_0000_0000_0000
            &&& top > 0x7ff0_0000_0000_0000 && !(0x8000_0000_0000_0000 <= top
                < 0xfff0_0000_0000_0000) ==> r == 0
        }),
{
    let top = scores@[r as int];
    let s = scores@[i];
    law_numbers_end_at_infinity(s, 0);
    law_numbers_end_at_infinity(top, 0);
    lemma_key64(s);
    lemma_key64(top);
    if eligible(s) {
        assert(exists|k: int| 0 <= k < scores@.len() && eligible(#[trigger] scores@[k]));
    }
}

/// The ranking names every candidate once, and of two candidates the one with
/// the greater logit comes first; of equal ones, the one with the smaller index.
pub proof fn law_ranking_goes_by_the_logits(logits: &[u32], r: Vec<usize>, i: int, j: int, c: usize)
    requires
        call_ensures(rank_order, (logits,), r),
        0 <= i < j < r@.len(),
        c < logits@.len(),
    ensures
        r@.len() == logits@.len(),
        r@.contains(c),
        r@[i] != r@[j],
        r@[i] < logits@.len(),
        ({
            let a = logits@[r@[i] as int];
            let b = logits@[r@[j] as int];
            &&& a < 0x8000_0000 && b < 0x8000_0000 ==> a > b || (a == b && r@[i] < r@[j])
            &&& a >= 0x8000_0000 && b >= 0x8000_0000 ==> a < b || (a == b && r@[i] < r@[j])
            &&& a >= 0x8000_0000 && b < 0x8000_0000 ==> a == 0x8000_0000 && b == 0 && r@[i] < r@[j]
            &&& a == 0 && b == 0x8000_0000 ==> r@[i] < r@[j]
        }),
{
    assert(ranks_before(logits@, r@[i], r@[j]));
    lemma_key32(logits@[r@[i] as int]);
    lemma_key32(logits@[r@[j] as int]);
}

/// The first candidates of the ranking: as many as are asked for or are there,
/// and no candidate that is left out ranks before one that is named.
pub proof fn law_top_k_names_the_best(logits: &[u32], k: usize, r: Vec<usize>, i: int, c: usize)
    requires
        call_ensures(top_k_indices, (logits, k), r),
        0 <= i < r@.len(),
        c < logits@.len(),
    ensures
        r@.len() == if k < logits@.len() {
            k as int
        } else {
            logits@.len() as int
        },
        r@[i] < logits@.len(),
        !r@.contains(c) ==> {
            let a = logits@[r@[i] as int];
            let b = logits@[c as int];
            &&& a < 0x8000_0000 && b < 0x8000_0000 ==> a > b || (a == b && r@[i] < c)
            &&& a >= 0x8000_0000 && b >= 0x8000_0000 ==> a < b || (a == b && r@[i] < c)
            &&& a >= 0x8000_0000 && b < 0x8000_0000 ==> a == 0x8000_0000 && b == 0 && r@[i] < c
        },
        forall|j: int|
            i < j < r@.len() ==> ranks_before(logits@, r@[i], #[trigger] r@[j]) && r@[i] != r@[j],
{
    let order = choose|order: Seq<usize>| #[trigger]
        is_ranking(logits@, order) && r@ == if k < order.len() {
            order.take(k as int)
        } else {
            order
        };
    assert(order.contains(c));
    let at = choose|at: int| 0 <= at < order.len() && order[at] == c;
    assert(r@[i] == order[i]);
    assert forall|j: int| i < j < r@.len() implies ranks_before(logits@, r@[i], #[trigger] r@[j])
        && r@[i] != r@[j] by {
        assert(ranks_before(logits@, order[i], order[j]));
    }
    if !r@.contains(c) {
        if at < r@.len() {
            assert(r@[at] == c);
        }
        assert(ranks_before(logits@, order[i], order[at]));
        lemma_key32(logits@[r@[i] as int]);
        lemma_key32(logits@[c as int]);
    }
}

/// No logit is greater than that of the greatest candidate, and none behind it
/// is equal.
pub proof fn law_argmax_takes_the_last_greatest(logits: &[u32], r: usize, i: int)
    requires
        call_ensures(argmax, (logits,), r),
        0 <= i < logits@.len(),
    ensures
        r < logits@.len(),
        ({
            let top = logits@[r as int];
            let a = logits@[i];
            &&& a < 0x8000_0000 ==> (a <= top < 0x8000_0000) || (a == 0 && top == 0x8000_0000)
            &&& a >= 0x8000_0000 ==> top < 0x8000_0000 || top <= a
            &&& i > r ==> a != top
        }),
{
    lemma_key32(logits@[r as int]);
    lemma_key32(logits@[i]);
}

/// Of the candidates behind the best one those stay whose rank is below `top_k`
/// and up to which the limit is not exceeded: all of these, and no others. Where
/// more are allowed, none falls away.
pub proof fn law_both_limits_decide_what_stays(
    order: &Vec<usize>,
    over: &Vec<bool>,
    top_k: usize,
    more: usize,
    r: Vec<bool>,
    q: Vec<bool>,
    rank: int,
)
    requires
        call_ensures(keep_mask, (order, over, top_k), r),
        call_ensures(keep_mask, (order, over, more), q),
        0 <= rank < order@.len(),
        top_k <= more,
    ensures
        r@.len() == order@.len(),
        r@[order@[0] as int],
        rank > 0 && over@[rank] ==> !r@[order@[rank] as int],
        rank > 0 && rank >= top_k ==> !r@[order@[rank] as int],
        !over@[rank] && rank < top_k ==> r@[order@[rank] as int],
        r@[order@[rank] as int] ==> q@[order@[rank] as int],
{
    assert(r@[order@[0] as int] == stays(over@, top_k, 0));
    assert(r@[order@[rank] as int] == stays(over@, top_k, rank));
    assert(q@[order@[rank] as int] == stays(over@, more, rank));
}

/// The first draw is what is said wherever it was not said recently, and
/// wherever it is no semantic token; only a recent semantic token gives way, to
/// the second draw.
pub proof fn law_first_draw_stands_unless_recent(
    normal: i64,
    high: i64,
    begin: i64,
    end: i64,
    previous: Seq<i64>,
)
    ensures
        !previous.contains(normal) ==> semantic_choice(normal, high, begin, end, previous) == normal,
        normal < begin || normal > end ==> semantic_choice(normal, high, begin, end, previous)
            == normal,
        previous.contains(normal) && begin <= normal <= end ==> semantic_choice(
            normal,
            high,
            begin,
            end,
            previous,
        ) == high,
{
}

/// What is said is a semantic token of the manifest or the token that ends the
/// speech: the one at the place of the first draw, unless that is a semantic
/// token that was said recently; then the one at the place of the second.
pub proof fn law_semantic_tokens_are_drawn(
    manifest: &RuntimeManifest,
    normal_idx: usize,
    high_idx: usize,
    previous: &Vec<i64>,
    r: i64,
)
    requires
        call_ensures(sample_semantic, (manifest, normal_idx, high_idx, previous), r),
        manifest.semantic_begin_id <= manifest.semantic_end_id,
        normal_idx <= manifest.semantic_end_id - manifest.semantic_begin_id + 1,
        high_idx <= manifest.semantic_end_id - manifest.semantic_begin_id + 1,
    ensures
        ({
            let begin = manifest.semantic_begin_id;
            let stop_place = manifest.semantic_end_id - begin + 1;
            let first = begin + normal_idx;
            &&& normal_idx == stop_place && manifest.im_end_id < begin ==> r == manifest.im_end_id
            &&& normal_idx == stop_place && manifest.im_end_id > manifest.semantic_end_id ==> r
                == manifest.im_end_id
            &&& normal_idx < stop_place && !previous@.contains(first as i64) ==> r == first
            &&& normal_idx < stop_place && previous@.contains(first as i64) && high_idx < stop_place
                ==> r == begin + high_idx
            &&& normal_idx < stop_place && previous@.contains(first as i64) && high_idx
                == stop_place ==> r == manifest.im_end_id
        }),
{
}

/// Where there are no semantic tokens, the token that ends the speech is the
/// only one that is allowed.
pub proof fn law_stopping_is_always_allowed(begin: i64, end: i64, stop: i64)
    requires
        begin > end,
    ensures
        allowed(begin as int, end as int, stop) == seq![stop],
{
    assert(allowed(begin as int, end as int, stop) =~= seq![stop]);
}

/// In the compact layout the logits are used as they come; in the other one each
/// allowed token has the logit at its own place.
pub proof fn law_logits_belong_to_their_tokens<T>(logits: Seq<T>, ids: Seq<i64>, i: int)
    ensures
        logits_of(logits, ids, true) == logits,
        logits_of(logits, ids, false).len() == ids.len(),
        0 <= i < ids.len() ==> logits_of(logits, ids, false)[i] == logits[ids[i] as int],
{
}

/// The layout is compact where the manifest names it, and only there.
pub proof fn law_only_the_named_layout_is_compact(manifest: &RuntimeManifest)
    ensures
        manifest.slow_logits_layout is None ==> !compact_layout(manifest),
        manifest.slow_logits_layout matches Some(layout) ==> (compact_layout(manifest) <==> layout@
            == "semantic_then_eos"@),
{
}

} // verus!
