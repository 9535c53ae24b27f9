//! What a benchmark says of its measurements.

use vstd::prelude::*;
use vstd::seq_lib::*;

verus! {

/// How many of the first measurements do not count for the steady state.
pub const SETTLING: usize = 10;

pub open spec fn ascending(s: Seq<u128>) -> bool {
    forall|i: int, j: int| 0 <= i <= j < s.len() ==> s[i] <= s[j]
}

/// `s` holds the measurements `times` in ascending order.
pub open spec fn is_sorted_form(s: Seq<u128>, times: Seq<u128>) -> bool {
    ascending(s) && s.to_multiset() == times.to_multiset()
}

fn sorted(times: &[u128]) -> (r: Vec<u128>)
    ensures
        is_sorted_form(r@, times@),
        r@.len() == times@.len(),
{
    let mut out: Vec<u128> = Vec::new();
    assert(times@.take(0) =~= Seq::<u128>::empty());
    for k in 0..times.len()
        invariant
            is_sorted_form(out@, times@.take(k as int)),
            out@.len() == k,
    {
        let time: u128 = times[k];
        let mut at: usize = 0;
        while at < out.len() && out[at] <= time
            invariant
                at <= out@.len(),
                ascending(out@),
                forall|i: int| 0 <= i < at ==> out@[i] <= time,
            ensures
                at <= out@.len(),
                forall|i: int| 0 <= i < at ==> out@[i] <= time,
                at < out@.len() ==> out@[at as int] > time,
            decreases out@.len() - at,
        {
            at = at + 1;
        }
        let ghost before = out@;
        out.insert(at, time);
        proof {
            to_multiset_insert(before, at as int, time);
            to_multiset_build(times@.take(k as int), time);
            assert(times@.take(k + 1) =~= times@.take(k as int).push(time));
            assert forall|i: int, j: int| 0 <= i <= j < out@.len() implies out@[i] <= out@[j] by {
                let i0 = if i < at {
                    i
                } else {
                    i - 1
                };
                let j0 = if j < at {
                    j
                } else {
                    j - 1
                };
                if i != at && j != at {
                    assert(before[i0] <= before[j0]);
                } else if i == at && j != at {
                    assert(before[at as int] <= before[j0]);
                }
            }
        }
    }
    assert(times@.take(times@.len() as int) =~= times@);
    out
}

/// The measurement in the middle of the sorted ones; of two middle ones the
/// greater.
pub fn median(times: &[u128]) -> (r: u128)
    requires
        times@.len() > 0,
    ensures
        exists|s: Seq<u128>| #[trigger]
            is_sorted_form(s, times@) && s.len() == times@.len() && r == s[times@.len() as int / 2],
{
    let s = sorted(times);
    let r: u128 = s[s.len() / 2];
    assert(is_sorted_form(s@, times@));
    r
}

/// The sum of the measurements from `from` on.
pub open spec fn total_from(times: Seq<u128>, from: int) -> int
    decreases times.len() - from,
{
    if from < 0 || from >= times.len() {
        0
    } else {
        times[from] + total_from(times, from + 1)
    }
}

/// The sum of the measurements of the steady state, and their number.
pub fn steady_state(times: &[u128]) -> (r: (u128, usize))
    requires
        times@.len() >= SETTLING,
        total_from(times@, SETTLING as int) <= u128::MAX,
    ensures
        r.0 == total_from(times@, SETTLING as int),
        r.1 == times@.len() - SETTLING,
{
    let n: usize = times.len();
    let mut sum: u128 = 0;
    for i in SETTLING..n
        invariant
            n == times@.len(),
            SETTLING <= n,
            sum + total_from(times@, i as int) == total_from(times@, SETTLING as int),
            total_from(times@, SETTLING as int) <= u128::MAX,
    {
        proof {
            lemma_total_is_natural(times@, i + 1);
        }
        sum = sum + times[i];
    }
    (sum, n - SETTLING)
}

proof fn lemma_total_is_natural(times: Seq<u128>, from: int)
    ensures
        total_from(times, from) >= 0,
    decreases times.len() - from,
{
    if 0 <= from < times.len() {
        lemma_total_is_natural(times, from + 1);
    }
}

/// A median does not depend on the way of sorting: two ascending forms of the
/// same measurements are the same.
pub proof fn law_median_is_unique(s: Seq<u128>, t: Seq<u128>, times: Seq<u128>)
    requires
        is_sorted_form(s, times),
        is_sorted_form(t, times),
    ensures
        s == t,
{
    let leq = |a: u128, b: u128| a <= b;
    assert(vstd::relations::sorted_by(s, leq));
    assert(vstd::relations::sorted_by(t, leq));
    lemma_sorted_unique(s, t, leq);
}

/// The median is one of the measurements, and the middle one of them in every
/// ascending order; of two middle ones the greater.
pub proof fn law_median_stands_in_the_middle(times: &[u128], r: u128, s: Seq<u128>)
    requires
        call_ensures(median, (times,), r),
        forall|i: int, j: int| 0 <= i <= j < s.len() ==> s[i] <= s[j],
        s.to_multiset() == times@.to_multiset(),
        times@.len() > 0,
    ensures
        s.len() == times@.len(),
        r == s[times@.len() as int / 2],
        times@.contains(r),
{
    let t = choose|t: Seq<u128>| #[trigger]
        is_sorted_form(t, times@) && t.len() == times@.len() && r == t[times@.len() as int / 2];
    assert(is_sorted_form(s, times@));
    law_median_is_unique(s, t, times@);
    let at = times@.len() as int / 2;
    to_multiset_contains(s, r);
    to_multiset_contains(times@, r);
    assert(s[at] == r);
    assert(s.contains(r));
}

/// The first ten measurements do not count for the steady state, and every later
/// one counts once: one more measurement adds its time and one to the number,
/// and what the first ten are changes nothing.
pub proof fn law_steady_state_counts_what_follows(
    times: &[u128],
    more: &[u128],
    other: &[u128],
    time: u128,
    r: (u128, usize),
    s: (u128, usize),
    t: (u128, usize),
)
    requires
        call_ensures(steady_state, (times,), r),
        call_ensures(steady_state, (more,), s),
        call_ensures(steady_state, (other,), t),
        times@.len() >= 10,
        more@ == times@.push(time),
        other@.len() == times@.len(),
        forall|i: int| 10 <= i < times@.len() ==> #[trigger] other@[i] == times@[i],
    ensures
        times@.len() == 10 ==> r == (0u128, 0usize),
        s.0 == r.0 + time,
        s.1 == r.1 + 1,
        t == r,
{
    lemma_total_of_one_more(times@, time, 10);
    lemma_same_total(times@, other@, 10);
}

proof fn lemma_total_of_one_more(times: Seq<u128>, time: u128, from: int)
    requires
        0 <= from <= times.len(),
    ensures
        total_from(times.push(time), from) == total_from(times, from) + time,
    decreases times.len() - from,
{
    if from < times.len() {
        lemma_total_of_one_more(times, time, from + 1);
    } else {
        assert(total_from(times.push(time), from + 1) == 0);
    }
}

proof fn lemma_same_total(a: Seq<u128>, b: Seq<u128>, from: int)
    requires
        0 <= from,
        a.len() == b.len(),
        forall|i: int| from <= i < a.len() ==> #[trigger] b[i] == a[i],
    ensures
        total_from(a, from) == total_from(b, from),
    decreases a.len() - from,
{
    if from < a.len() {
        assert(b[from] == a[from]);
        lemma_same_total(a, b, from + 1);
    }
}

} // verus!
