//! The performance analyzer: the critical work threshold `k` and throughput.
//!
//! Given one honest trajectory and one rescaled adversary trajectory, the
//! analyzer walks the honest records in time order, keeping a cursor on the
//! latest adversary record strictly before each honest improvement — a
//! record tying the improvement's timestamp does not count — and derives the
//! smallest honest accumulated work beyond which the adversary can never
//! again overtake the honest chain within the simulated horizon.

use vstd::prelude::*;

use crate::types::{
    frac_le, frac_le_u64, frac_lt, frac_lt_u64, k_le, k_le_exec, lemma_mul_ge_one,
    lemma_mul_le_mono, lemma_mul_nonneg, lemma_u64_mul_fits_u128, Chain, ChainSeq, ChainsView,
    KValue, Ratio, TailPolicy, TailStat,
};
use vstd::relations::{sorted_by, total_ordering};
use vstd::seq_lib::lemma_sorted_unique;

verus! {

broadcast use
    vstd::seq_lib::to_multiset_build,
    vstd::seq_lib::to_multiset_insert,
    vstd::multiset::group_multiset_axioms,
;

/// The smallest index at or after `j` whose adversary record is not
/// strictly earlier than the honest timestamp `t` (a numerator over `h_td`),
/// or the sequence length if none is.  A record tying the honest timestamp
/// stops the cursor: it does not count as preceding the improvement.
pub open spec fn adv_cursor(a: Seq<Chain>, j: int, t: int, h_td: int, a_td: int) -> int
    decreases a.len() - j,
{
    if j < 0 || j >= a.len() {
        a.len() as int
    } else if frac_lt(a[j].timestamp as int, a_td, t, h_td) {
        adv_cursor(a, j + 1, t, h_td, a_td)
    } else {
        j
    }
}

/// The analyzer's walk from honest index `i` with adversary cursor `j` and
/// provisional depth `k`.  At each honest improvement: if the adversary was
/// racing the previous honest record, the current work becomes the depth
/// needed to survive the race; if the adversary is ahead of the current
/// record, no safe depth exists yet.  When the cursor runs off the adversary
/// sequence, the walk stops with the current provisional depth.
pub open spec fn k_rec(
    h: Seq<Chain>,
    a: Seq<Chain>,
    h_td: int,
    h_wd: int,
    a_td: int,
    a_wd: int,
    i: int,
    j: int,
    k: KValue,
) -> KValue
    decreases h.len() - i,
{
    if i < 1 || i >= h.len() {
        k
    } else {
        let j2 = adv_cursor(a, j, h[i].timestamp as int, h_td, a_td);
        if j2 >= a.len() {
            k
        } else {
            let k1 = if frac_le(h[i - 1].work as int, h_wd, a[j2 - 1].work as int, a_wd) {
                KValue::Finite(h[i].work)
            } else {
                k
            };
            let k2 = if frac_le(h[i].work as int, h_wd, a[j2 - 1].work as int, a_wd) {
                KValue::Infinite
            } else {
                k1
            };
            k_rec(h, a, h_td, h_wd, a_td, a_wd, i + 1, j2, k2)
        }
    }
}

/// The adversary cursor never moves backwards and never leaves the sequence.
pub proof fn lemma_adv_cursor_ge(a: Seq<Chain>, j: int, t: int, h_td: int, a_td: int)
    requires
        0 <= j <= a.len(),
    ensures
        j <= adv_cursor(a, j, t, h_td, a_td) <= a.len(),
    decreases a.len() - j,
{
    if j < a.len() && frac_lt(a[j].timestamp as int, a_td, t, h_td) {
        lemma_adv_cursor_ge(a, j + 1, t, h_td, a_td);
    }
}

/// The critical depth of one honest trajectory against one adversary
/// trajectory, as the analyzer's walk computes it.
pub open spec fn k_spec(h: ChainsView, a: ChainsView) -> KValue {
    k_rec(h.chains, a.chains, h.time_den, h.work_den, a.time_den, a.work_den, 1, 0, KValue::Infinite)
}

/// Computes the critical depth: the smallest honest accumulated work (as a
/// numerator in the honest sequence's work unit) beyond which the adversary
/// can never again out-work the honest chain at a later honest improvement,
/// or infinity when no such depth exists within the horizon.
pub fn get_k(honest_work_progresses: &ChainSeq, adversary_work_progresses: &ChainSeq) -> (k: KValue)
    requires
        honest_work_progresses.wf(),
        adversary_work_progresses.wf(),
    ensures
        k == k_spec(honest_work_progresses@, adversary_work_progresses@),
{
    let h = honest_work_progresses;
    let a = adversary_work_progresses;
    let ghost h_td = h.time_den as int;
    let ghost h_wd = h.work_den as int;
    let ghost a_td = a.time_den as int;
    let ghost a_wd = a.work_den as int;

    let mut k = KValue::Infinite;
    let mut adversary_index: usize = 0;
    let mut i: usize = 1;
    while i < h.chains.len()
        invariant
            h == honest_work_progresses,
            a == adversary_work_progresses,
            h.wf(),
            a.wf(),
            h_td == h.time_den as int,
            h_wd == h.work_den as int,
            a_td == a.time_den as int,
            a_wd == a.work_den as int,
            1 <= i,
            adversary_index <= a.chains@.len(),
            k_rec(h.chains@, a.chains@, h_td, h_wd, a_td, a_wd, i as int, adversary_index as int, k)
                == k_spec(h@, a@),
        decreases h.chains@.len() - i,
    {
        let honest_progress = h.chains[i];
        let ghost t = honest_progress.timestamp as int;
        let ghost j0 = adversary_index as int;
        let ghost k0 = k;

        while adversary_index < a.chains.len() && frac_lt_u64(
            a.chains[adversary_index].timestamp,
            a.time_den,
            honest_progress.timestamp,
            h.time_den,
        )
            invariant
                a.wf(),
                h_td >= 1,
                a_td >= 1,
                h_td == h.time_den as int,
                a_td == a.time_den as int,
                0 <= j0 <= adversary_index,
                adversary_index <= a.chains@.len(),
                t == honest_progress.timestamp as int,
                adv_cursor(a.chains@, adversary_index as int, t, h_td, a_td) == adv_cursor(
                    a.chains@,
                    j0,
                    t,
                    h_td,
                    a_td,
                ),
            decreases a.chains@.len() - adversary_index,
        {
            adversary_index = adversary_index + 1;
        }
        proof {
            assert(adv_cursor(a.chains@, j0, t, h_td, a_td) == adversary_index as int);
        }

        if adversary_index == a.chains.len() {
            proof {
                assert(k_rec(h.chains@, a.chains@, h_td, h_wd, a_td, a_wd, i as int, j0, k) == k);
                assert(k_spec(h@, a@) == k_rec(
                    h.chains@,
                    a.chains@,
                    h_td,
                    h_wd,
                    a_td,
                    a_wd,
                    i as int,
                    j0,
                    k,
                ));
            }
            return k;
        }

        proof {
            if adversary_index == 0 {
                assert(a.chains@[0].timestamp == 0);
                assert(h.chains@[0].timestamp < h.chains@[i as int].timestamp);
                lemma_mul_ge_one(t, a_td);
                assert((a.chains@[0].timestamp as int) * h_td < t * a_td) by (nonlinear_arith)
                    requires
                        a.chains@[0].timestamp == 0,
                        1 <= t * a_td,
                ;
                assert(frac_lt(a.chains@[0].timestamp as int, a_td, t, h_td));
                lemma_adv_cursor_ge(a.chains@, 1, t, h_td, a_td);
                assert(adv_cursor(a.chains@, 0, t, h_td, a_td) == adv_cursor(
                    a.chains@,
                    1,
                    t,
                    h_td,
                    a_td,
                ));
                assert(false);
            }
        }
        let previous_adversary_progress = a.chains[adversary_index - 1];
        let previous_honest_progress = h.chains[i - 1];

        if frac_le_u64(
            previous_honest_progress.work,
            h.work_den,
            previous_adversary_progress.work,
            a.work_den,
        ) {
            k = KValue::Finite(honest_progress.work);
        }
        if frac_le_u64(
            honest_progress.work,
            h.work_den,
            previous_adversary_progress.work,
            a.work_den,
        ) {
            k = KValue::Infinite;
        }
        proof {
            assert(k_rec(h.chains@, a.chains@, h_td, h_wd, a_td, a_wd, i as int, j0, k0) == k_rec(
                h.chains@,
                a.chains@,
                h_td,
                h_wd,
                a_td,
                a_wd,
                i + 1,
                adversary_index as int,
                k,
            ));
        }
        i = i + 1;
    }
    k
}

/// The analyzer's arithmetic for throughput stays in range.
pub open spec fn perf_fits(h: ChainsView) -> bool {
    &&& h.chains.last().work * h.time_den <= u64::MAX
    &&& h.chains.last().timestamp * h.work_den <= u64::MAX
    &&& h.chains.last().height * h.time_den <= u64::MAX
}

/// The honest work rate: final accumulated work over final timestamp.
pub open spec fn f_work_spec(h: ChainsView) -> Ratio {
    Ratio {
        num: (h.chains.last().work * h.time_den) as u64,
        den: (h.chains.last().timestamp * h.work_den) as u64,
    }
}

/// The honest height rate: final height over final timestamp.
pub open spec fn f_height_spec(h: ChainsView) -> Ratio {
    Ratio {
        num: (h.chains.last().height * h.time_den) as u64,
        den: (h.chains.last().timestamp) as u64,
    }
}

/// Computes the critical depth together with the honest trajectory's work
/// rate and height rate.
pub fn get_performance(
    honest_work_progresses: &ChainSeq,
    adversary_work_progresses: &ChainSeq,
) -> (r: (KValue, Ratio, Ratio))
    requires
        honest_work_progresses.wf(),
        adversary_work_progresses.wf(),
        honest_work_progresses.chains@.len() >= 2,
        perf_fits(honest_work_progresses@),
    ensures
        r.0 == k_spec(honest_work_progresses@, adversary_work_progresses@),
        r.1 == f_work_spec(honest_work_progresses@),
        r.2 == f_height_spec(honest_work_progresses@),
        r.1.wf(),
        r.2.wf(),
{
    let h = honest_work_progresses;
    let k = get_k(honest_work_progresses, adversary_work_progresses);
    let last = h.chains[h.chains.len() - 1];
    proof {
        assert(last == h.chains@.last());
        assert(h.chains@[0].timestamp < last.timestamp);
        lemma_mul_ge_one(last.timestamp as int, h.work_den as int);
    }
    let f_work = Ratio { num: last.work * h.time_den, den: last.timestamp * h.work_den };
    let f_height = Ratio { num: last.height * h.time_den, den: last.timestamp };
    (k, f_work, f_height)
}

/// The total order on critical depths, as a relation value.
pub open spec fn k_leq() -> spec_fn(KValue, KValue) -> bool {
    |x: KValue, y: KValue| k_le(x, y)
}

/// `k_leq` is a total ordering.
pub proof fn lemma_k_leq_total()
    ensures
        total_ordering(k_leq()),
{
    let r = k_leq();
    assert forall|x: KValue| #[trigger] r(x, x) by {}
    assert forall|x: KValue, y: KValue| #[trigger] r(x, y) && #[trigger] r(y, x) implies x == y by {}
    assert forall|x: KValue, y: KValue, z: KValue| #[trigger] r(x, y) && #[trigger] r(y, z)
        implies r(x, z) by {}
    assert forall|x: KValue, y: KValue| #[trigger] r(x, y) || #[trigger] r(y, x) by {}
}

/// Sorts the collected per-trial depths ascending, with infinities last.
pub fn sort_k_values(k: &mut Vec<KValue>)
    ensures
        final(k)@ == old(k)@.sort_by(k_leq()),
        sorted_by(final(k)@, k_leq()),
        final(k)@.to_multiset() == old(k)@.to_multiset(),
        final(k)@.len() == old(k)@.len(),
{
    proof {
        lemma_k_leq_total();
    }
    let mut sorted_vec: Vec<KValue> = Vec::new();
    proof {
        let e1 = sorted_vec@;
        let e2 = k@.take(0);
        e1.to_multiset_ensures();
        e2.to_multiset_ensures();
        assert(e1.len() == 0 && e2.len() == 0);
        assert forall|a: KValue| e1.to_multiset().count(a) == e2.to_multiset().count(a) by {
            assert(!e1.contains(a));
            assert(!e2.contains(a));
        }
        assert(e1.to_multiset() =~= e2.to_multiset());
    }
    let mut i: usize = 0;
    while i < k.len()
        invariant
            k@ == old(k)@,
            0 <= i <= k@.len(),
            sorted_vec@.len() == i,
            sorted_by(sorted_vec@, k_leq()),
            sorted_vec@.to_multiset() == k@.take(i as int).to_multiset(),
            total_ordering(k_leq()),
        decreases k@.len() - i,
    {
        let x = k[i];
        let mut pos: usize = 0;
        while pos < sorted_vec.len() && k_le_exec(&sorted_vec[pos], &x)
            invariant
                0 <= pos <= sorted_vec@.len(),
                forall|t: int| 0 <= t < pos ==> k_le(#[trigger] sorted_vec@[t], x),
            decreases sorted_vec@.len() - pos,
        {
            pos = pos + 1;
        }
        proof {
            let s = sorted_vec@;
            let r = k_leq();
            assert forall|t: int| pos <= t < s.len() implies r(x, #[trigger] s[t]) by {
                assert(!k_le(s[pos as int], x));
                assert(r(s[pos as int], x) || r(x, s[pos as int]));
                if t > pos {
                    assert(r(s[pos as int], s[t]));
                }
            }
            let s2 = s.insert(pos as int, x);
            assert forall|u: int, v: int| 0 <= u < v < s2.len() implies #[trigger] r(
                s2[u],
                s2[v],
            ) by {
                if u < pos && v < pos {
                    assert(s2[u] == s[u] && s2[v] == s[v]);
                } else if u < pos && v == pos {
                    assert(s2[u] == s[u] && s2[v] == x);
                    assert(k_le(s[u], x));
                } else if u < pos && v > pos {
                    assert(s2[u] == s[u] && s2[v] == s[v - 1]);
                    assert(r(s[u], s[v - 1]));
                } else if u == pos {
                    assert(s2[u] == x && s2[v] == s[v - 1]);
                    assert(r(x, s[v - 1]));
                } else {
                    assert(s2[u] == s[u - 1] && s2[v] == s[v - 1]);
                }
            }
            assert(k@.take(i + 1).drop_last() =~= k@.take(i as int));
            assert(k@.take(i + 1) =~= k@.take(i as int).push(k@[i as int]));
        }
        sorted_vec.insert(pos, x);
        i = i + 1;
    }
    proof {
        assert(k@.take(k@.len() as int) =~= k@);
        k@.lemma_sort_by_ensures(k_leq());
        lemma_sorted_unique(sorted_vec@, k@.sort_by(k_leq()), k_leq());
        k@.sort_by(k_leq()).to_multiset_ensures();
        sorted_vec@.to_multiset_ensures();
    }
    *k = sorted_vec;
}

/// Every finite depth in the sequence fits the statistic's working range.
pub open spec fn k_bounds(s: Seq<KValue>) -> bool {
    &&& s.len() <= 0xFFFF_FFFF
    &&& forall|i: int|
        0 <= i < s.len() ==> ((#[trigger] s[i]) matches KValue::Finite(v) ==> v <= 0xFFFF_FFFF)
}

/// A permutation keeps the depth bounds.
pub proof fn lemma_k_bounds_permuted(s1: Seq<KValue>, s2: Seq<KValue>)
    requires
        s1.to_multiset() == s2.to_multiset(),
        s1.len() == s2.len(),
        k_bounds(s1),
    ensures
        k_bounds(s2),
{
    s1.to_multiset_ensures();
    s2.to_multiset_ensures();
    assert forall|i: int| 0 <= i < s2.len() implies ((#[trigger] s2[i]) matches KValue::Finite(v)
        ==> v <= 0xFFFF_FFFF) by {
        assert(s2.contains(s2[i]));
        assert(s2.to_multiset().count(s2[i]) > 0);
        assert(s1.contains(s2[i]));
        let j = choose|j: int| 0 <= j < s1.len() && s1[j] == s2[i];
        assert(s1[j] matches KValue::Finite(v) ==> v <= 0xFFFF_FFFF);
    }
}

/// Zero-based order-statistic index at the `(1 - eps)` quantile.
pub open spec fn discrete_k_index(n: int, eps: Ratio) -> int {
    ((eps.den - eps.num) * n) / (eps.den as int) - 1
}

/// The last index of the contiguous run of values equal to `s[i]` that starts
/// at `i`.
pub open spec fn run_right(s: Seq<KValue>, i: int) -> int
    decreases s.len() - i,
{
    if i + 1 < s.len() && s[i + 1] == s[i] {
        run_right(s, i + 1)
    } else {
        i
    }
}

/// The index the interpolation anchors on below the run of `v`: the first
/// index under the run, or zero when the run reaches the bottom.
pub open spec fn run_left(s: Seq<KValue>, i: int, v: KValue) -> int
    decreases i,
{
    if i > 0 && s[i] == v {
        run_left(s, i - 1, v)
    } else {
        i
    }
}

/// The numerator a finite depth carries; zero for infinity.
pub open spec fn k_finite_val(k: KValue) -> int {
    match k {
        KValue::Finite(v) => v as int,
        KValue::Infinite => 0,
    }
}

/// The smoothed `(1 - eps)` order statistic of a sorted depth sequence:
/// within a run of equal values the raw statistic is interpolated linearly
/// between the run's boundaries, so heavy ties do not bias it.
pub open spec fn interpolated_k_star_spec(s: Seq<KValue>, eps: Ratio) -> TailStat {
    let idx = discrete_k_index(s.len() as int, eps);
    if s[idx] is Infinite {
        TailStat::Infinite
    } else {
        let right = run_right(s, idx);
        let left = run_left(s, idx - 1, s[idx]);
        let lv = k_finite_val(s[left]);
        let rv = k_finite_val(s[right]);
        TailStat::Finite(
            Ratio {
                num: (lv * (right - left) + (idx - left) * (rv - lv)) as u64,
                den: (right - left) as u64,
            },
        )
    }
}

/// The right run boundary stays inside the sequence and on the same value.
pub proof fn lemma_run_right_bounds(s: Seq<KValue>, i: int)
    requires
        0 <= i < s.len(),
    ensures
        i <= run_right(s, i) < s.len(),
        s[run_right(s, i)] == s[i],
    decreases s.len() - i,
{
    if i + 1 < s.len() && s[i + 1] == s[i] {
        lemma_run_right_bounds(s, i + 1);
    }
}

/// The left anchor stays between zero and its starting index.
pub proof fn lemma_run_left_bounds(s: Seq<KValue>, i: int, v: KValue)
    requires
        0 <= i,
    ensures
        0 <= run_left(s, i, v) <= i,
    decreases i,
{
    if i > 0 && s[i] == v {
        lemma_run_left_bounds(s, i - 1, v);
    }
}

/// Sorts the collected depths and returns the interpolated order statistic.
pub fn get_interpolated_k_star(k: &mut Vec<KValue>, epsilon: Ratio) -> (r: TailStat)
    requires
        epsilon.wf(),
        epsilon.num <= epsilon.den,
        k_bounds(old(k)@),
        1 <= discrete_k_index(old(k)@.len() as int, epsilon),
        discrete_k_index(old(k)@.len() as int, epsilon) < old(k)@.len(),
    ensures
        final(k)@ == old(k)@.sort_by(k_leq()),
        final(k)@.len() == old(k)@.len(),
        r == interpolated_k_star_spec(old(k)@.sort_by(k_leq()), epsilon),
{
    sort_k_values(k);
    proof {
        lemma_k_leq_total();
        lemma_k_bounds_permuted(old(k)@, k@);
    }
    let ghost s = k@;
    let n = k.len();

    let diff = epsilon.den - epsilon.num;
    proof {
        lemma_u64_mul_fits_u128(diff as int, n as int);
    }
    let q128 = (diff as u128) * (n as u128) / (epsilon.den as u128);
    proof {
        assert(q128 == (diff as int) * (n as int) / (epsilon.den as int));
        assert(q128 - 1 == discrete_k_index(s.len() as int, epsilon));
    }
    let discrete_k_index_exec: usize = (q128 - 1) as usize;
    let discrete_k = k[discrete_k_index_exec];
    let ghost idx = discrete_k_index_exec as int;

    if matches!(discrete_k, KValue::Infinite) {
        return TailStat::Infinite;
    }

    let mut right_index: usize = discrete_k_index_exec;
    while right_index + 1 < n && k_values_equal(&k[right_index + 1], &discrete_k)
        invariant
            s == k@,
            n == s.len(),
            0 <= idx <= right_index < s.len(),
            discrete_k == s[idx],
            s[right_index as int] == s[idx],
            run_right(s, idx) == run_right(s, right_index as int),
        decreases s.len() - right_index,
    {
        right_index = right_index + 1;
    }
    proof {
        assert(run_right(s, idx) == right_index as int);
    }

    let mut left_index: usize = discrete_k_index_exec - 1;
    while left_index > 0 && k_values_equal(&k[left_index], &discrete_k)
        invariant
            s == k@,
            n == s.len(),
            0 <= left_index <= idx - 1,
            idx < s.len(),
            run_left(s, idx - 1, s[idx]) == run_left(s, left_index as int, s[idx]),
            discrete_k == s[idx],
        decreases left_index,
    {
        left_index = left_index - 1;
    }
    proof {
        assert(run_left(s, idx - 1, s[idx]) == left_index as int);
    }

    let lv = match k[left_index] {
        KValue::Finite(v) => v,
        KValue::Infinite => 0,
    };
    let rv = match k[right_index] {
        KValue::Finite(v) => v,
        KValue::Infinite => 0,
    };
    proof {
        let left = left_index as int;
        let right = right_index as int;
        assert(sorted_by(s, k_leq()));
        assert(k_leq()(s[left], s[idx]) || left == idx);
        assert(lv <= 0xFFFF_FFFF && rv <= 0xFFFF_FFFF) by {
            assert(s[left] matches KValue::Finite(v) ==> v <= 0xFFFF_FFFF);
            assert(s[right] matches KValue::Finite(v) ==> v <= 0xFFFF_FFFF);
        }
        assert(lv <= rv) by {
            if left < right {
                assert(k_leq()(s[left], s[right]));
            }
        }
        assert(idx <= right);
        assert((lv as int) * (right - left) <= (0xFFFF_FFFF as int) * (0xFFFF_FFFF as int)) by {
            lemma_mul_le_mono(lv as int, (0xFFFF_FFFF as int), right - left, (0xFFFF_FFFF as int));
        }
        assert((idx - left) * ((rv - lv) as int) <= (0xFFFF_FFFF as int) * (0xFFFF_FFFF as int)) by {
            lemma_mul_le_mono(idx - left, (0xFFFF_FFFF as int), (rv - lv) as int, (0xFFFF_FFFF as int));
        }
        assert((lv as int) * (right - left) + (idx - left) * ((rv - lv) as int) <= (rv as int) * (
        right - left)) by (nonlinear_arith)
            requires
                0 <= lv <= rv,
                0 <= idx - left <= right - left,
        ;
        assert((rv as int) * (right - left) <= (0xFFFF_FFFF as int) * (0xFFFF_FFFF as int)) by {
            lemma_mul_le_mono(rv as int, (0xFFFF_FFFF as int), right - left, (0xFFFF_FFFF as int));
        }
        lemma_mul_nonneg(lv as int, right - left);
        lemma_mul_nonneg(idx - left, (rv - lv) as int);
    }
    let num = lv * ((right_index - left_index) as u64) + ((discrete_k_index_exec - left_index)
        as u64) * (rv - lv);
    TailStat::Finite(Ratio { num, den: (right_index - left_index) as u64 })
}

/// Zero-based index of the `(1 - 2 eps)` quantile, where the shortfall
/// average begins.
pub open spec fn es_start_index(n: int, eps: Ratio) -> int {
    ((eps.den - 2 * eps.num) * n) / (eps.den as int)
}

/// Zero-based index of the `(1 - eps)` quantile for the shortfall policy.
pub open spec fn es_quantile_index(n: int, eps: Ratio) -> int {
    ((eps.den - eps.num) * n) / (eps.den as int)
}

/// The first index at or after `i` holding an infinite depth, or the length.
pub open spec fn first_infinite_at(s: Seq<KValue>, i: int) -> int
    decreases s.len() - i,
{
    if i < 0 || i >= s.len() {
        s.len() as int
    } else if s[i] is Infinite {
        i
    } else {
        first_infinite_at(s, i + 1)
    }
}

/// The sum of the depths in `[from, to)`, counting infinities as zero.
pub open spec fn sum_values(s: Seq<KValue>, from: int, to: int) -> int
    decreases to - from,
{
    if from >= to {
        0
    } else {
        k_finite_val(s[from]) + sum_values(s, from + 1, to)
    }
}

/// The expected-shortfall statistic of a sorted depth sequence: the average
/// of the depths from the `(1 - 2 eps)` quantile up to (but excluding) the
/// first infinity at or after the `(1 - eps)` quantile, or infinity when the
/// `(1 - eps)` quantile itself is already infinite.
pub open spec fn expected_shortfall_spec(s: Seq<KValue>, eps: Ratio) -> TailStat {
    let n = s.len() as int;
    let q = es_quantile_index(n, eps);
    if s[q] is Infinite {
        TailStat::Infinite
    } else {
        let start = es_start_index(n, eps);
        let end = first_infinite_at(s, q);
        TailStat::Finite(
            Ratio { num: sum_values(s, start, end) as u64, den: (end - start) as u64 },
        )
    }
}

/// Extending the summed range by one index adds that index's depth.
pub proof fn lemma_sum_values_extend(s: Seq<KValue>, from: int, to: int)
    requires
        from <= to,
    ensures
        sum_values(s, from, to + 1) == sum_values(s, from, to) + k_finite_val(s[to]),
    decreases to - from,
{
    if from < to {
        lemma_sum_values_extend(s, from + 1, to);
    } else {
        assert(sum_values(s, from, to) == 0);
        assert(sum_values(s, from + 1, to + 1) == 0);
    }
}

/// The first infinity at or after `i` is no earlier than `i`.
pub proof fn lemma_first_infinite_bounds(s: Seq<KValue>, i: int)
    requires
        0 <= i <= s.len(),
    ensures
        i <= first_infinite_at(s, i) <= s.len(),
    decreases s.len() - i,
{
    if i < s.len() && !(s[i] is Infinite) {
        lemma_first_infinite_bounds(s, i + 1);
    }
}

/// Sorts the collected depths and returns the expected-shortfall statistic.
pub fn get_expected_shortfall(k: &mut Vec<KValue>, epsilon: Ratio) -> (r: TailStat)
    requires
        epsilon.wf(),
        2 * epsilon.num <= epsilon.den,
        k_bounds(old(k)@),
        old(k)@.len() >= 1,
        es_quantile_index(old(k)@.len() as int, epsilon) < old(k)@.len(),
    ensures
        final(k)@ == old(k)@.sort_by(k_leq()),
        final(k)@.len() == old(k)@.len(),
        r == expected_shortfall_spec(old(k)@.sort_by(k_leq()), epsilon),
{
    sort_k_values(k);
    proof {
        lemma_k_leq_total();
        lemma_k_bounds_permuted(old(k)@, k@);
    }
    let ghost s = k@;
    let n = k.len();

    let diff = epsilon.den - epsilon.num;
    proof {
        lemma_u64_mul_fits_u128(diff as int, n as int);
        lemma_u64_mul_fits_u128((epsilon.den - 2 * epsilon.num) as int, n as int);
    }
    let q128 = (diff as u128) * (n as u128) / (epsilon.den as u128);
    proof {
        assert(q128 == es_quantile_index(s.len() as int, epsilon));
    }
    let q: usize = q128 as usize;

    if matches!(k[q], KValue::Infinite) {
        return TailStat::Infinite;
    }

    let start128 = ((epsilon.den - 2 * epsilon.num) as u128) * (n as u128) / (epsilon.den as u128);
    proof {
        assert(start128 == es_start_index(s.len() as int, epsilon));
        lemma_mul_le_mono(
            (epsilon.den - 2 * epsilon.num) as int,
            (epsilon.den - epsilon.num) as int,
            n as int,
            n as int,
        );
        vstd::arithmetic::div_mod::lemma_div_is_ordered(
            ((epsilon.den - 2 * epsilon.num) as int) * (n as int),
            ((epsilon.den - epsilon.num) as int) * (n as int),
            epsilon.den as int,
        );
    }
    let start: usize = start128 as usize;

    let mut end: usize = q;
    while end < n && !matches!(k[end], KValue::Infinite)
        invariant
            s == k@,
            n == s.len(),
            0 <= q <= end <= s.len(),
            first_infinite_at(s, q as int) == first_infinite_at(s, end as int),
        decreases s.len() - end,
    {
        end = end + 1;
    }
    proof {
        assert(first_infinite_at(s, q as int) == end as int);
        assert(!(s[q as int] is Infinite));
        assert(end > q);
    }

    let mut sum: u64 = 0;
    let mut t: usize = start;
    while t < end
        invariant
            s == k@,
            k_bounds(s),
            n == s.len(),
            0 <= start <= t <= end <= s.len(),
            sum == sum_values(s, start as int, t as int),
            sum <= (t - start) * 0xFFFF_FFFF,
        decreases end - t,
    {
        let v = match k[t] {
            KValue::Finite(v) => v,
            KValue::Infinite => 0,
        };
        proof {
            lemma_sum_values_extend(s, start as int, t as int);
        }
        sum = sum + v;
        t = t + 1;
    }
    TailStat::Finite(Ratio { num: sum, den: (end - start) as u64 })
}

/// Structural equality of two depths.
fn k_values_equal(a: &KValue, b: &KValue) -> (r: bool)
    ensures
        r == (*a == *b),
{
    match a {
        KValue::Finite(x) => match b {
            KValue::Finite(y) => *x == *y,
            KValue::Infinite => false,
        },
        KValue::Infinite => match b {
            KValue::Finite(_) => false,
            KValue::Infinite => true,
        },
    }
}

/// Resolution to which per-trial rates are quantized before averaging, so
/// that the mean across thousands of trials stays an exact rational of
/// bounded size.
pub const RATE_DEN: u64 = 1048576;

/// One trial's work rate, quantized to `RATE_DEN`.
pub open spec fn rate_q(h: ChainsView) -> int {
    (h.chains.last().work * h.time_den * RATE_DEN) / (h.chains.last().timestamp * h.work_den)
}

/// One trial's height rate, quantized to `RATE_DEN`.
pub open spec fn height_rate_q(h: ChainsView) -> int {
    (h.chains.last().height * h.time_den * RATE_DEN) / (h.chains.last().timestamp as int)
}

/// Sum of the first `i` trials' quantized work rates.
pub open spec fn sum_rate_q(hs: Seq<ChainsView>, i: int) -> int
    decreases i,
{
    if i <= 0 {
        0
    } else {
        sum_rate_q(hs, i - 1) + rate_q(hs[i - 1])
    }
}

/// Sum of the first `i` trials' quantized height rates.
pub open spec fn sum_height_rate_q(hs: Seq<ChainsView>, i: int) -> int
    decreases i,
{
    if i <= 0 {
        0
    } else {
        sum_height_rate_q(hs, i - 1) + height_rate_q(hs[i - 1])
    }
}

/// Largest final work numerator among the first `i` trials.
pub open spec fn max_last_work(ss: Seq<ChainsView>, i: int) -> int
    decreases i,
{
    if i <= 0 {
        0
    } else {
        let m = max_last_work(ss, i - 1);
        if ss[i - 1].chains.last().work > m {
            ss[i - 1].chains.last().work as int
        } else {
            m
        }
    }
}

/// Largest final height among the first `i` trials.
pub open spec fn max_last_height(ss: Seq<ChainsView>, i: int) -> int
    decreases i,
{
    if i <= 0 {
        0
    } else {
        let m = max_last_height(ss, i - 1);
        if ss[i - 1].chains.last().height > m {
            ss[i - 1].chains.last().height as int
        } else {
            m
        }
    }
}

/// The per-trial critical depths of paired trajectories.
pub open spec fn k_values_of(hs: Seq<ChainsView>, adv: Seq<ChainsView>) -> Seq<KValue> {
    Seq::new(hs.len(), |i: int| k_spec(hs[i], adv[i]))
}

/// The views of a vector of chain sequences.
pub open spec fn views_of(ss: Seq<ChainSeq>) -> Seq<ChainsView> {
    ss.map_values(|s: ChainSeq| s@)
}

/// One trial's bounds for the aggregator's arithmetic.
pub open spec fn agg_fits(h: ChainsView) -> bool {
    &&& h.chains.len() >= 2
    &&& perf_fits(h)
    &&& rate_q(h) <= 0xFFFF_FFFF
    &&& height_rate_q(h) <= 0xFFFF_FFFF
    &&& h.chains.last().work <= 0xFFFF_FFFF
}

/// The walk's depth is either infinite or one of the honest works, so it
/// inherits the honest sequence's work bound.
pub proof fn lemma_k_rec_bounded(
    h: Seq<Chain>,
    a: Seq<Chain>,
    h_td: int,
    h_wd: int,
    a_td: int,
    a_wd: int,
    i: int,
    j: int,
    k: KValue,
    bound: int,
)
    requires
        forall|t: int| 0 <= t < h.len() ==> (#[trigger] h[t].work) <= bound,
        k matches KValue::Finite(v) ==> v <= bound,
    ensures
        k_rec(h, a, h_td, h_wd, a_td, a_wd, i, j, k) matches KValue::Finite(v) ==> v <= bound,
    decreases h.len() - i,
{
    if 1 <= i < h.len() {
        let j2 = adv_cursor(a, j, h[i].timestamp as int, h_td, a_td);
        if j2 < a.len() {
            let k1 = if frac_le(h[i - 1].work as int, h_wd, a[j2 - 1].work as int, a_wd) {
                KValue::Finite(h[i].work)
            } else {
                k
            };
            let k2 = if frac_le(h[i].work as int, h_wd, a[j2 - 1].work as int, a_wd) {
                KValue::Infinite
            } else {
                k1
            };
            lemma_k_rec_bounded(h, a, h_td, h_wd, a_td, a_wd, i + 1, j2, k2, bound);
        }
    }
}

/// The analyzer's depth respects the honest final-work bound.
pub proof fn lemma_k_spec_bounded(h: ChainsView, a: ChainsView, bound: int)
    requires
        h.wf(),
        h.chains.last().work <= bound,
    ensures
        k_spec(h, a) matches KValue::Finite(v) ==> v <= bound,
{
    assert forall|t: int| 0 <= t < h.chains.len() implies (#[trigger] h.chains[t].work)
        <= bound by {
        if t < h.chains.len() - 1 {
            assert(h.chains[t].work < h.chains[h.chains.len() - 1].work);
        }
    }
    lemma_k_rec_bounded(
        h.chains,
        a.chains,
        h.time_den,
        h.work_den,
        a.time_den,
        a.work_den,
        1,
        0,
        KValue::Infinite,
        bound,
    );
}

/// The aggregate of one grid point: the tail statistic of the per-trial
/// depths, the mean quantized rates, and the extreme final work and height
/// of either role.
pub struct Performance {
    pub k_star: TailStat,
    pub f_work: Ratio,
    pub f_height: Ratio,
    pub max_work: u64,
    pub max_height: u64,
    pub adversary_max_work: u64,
    pub adversary_max_height: u64,
}

/// What the aggregator owes for trial sequences `hs` and `adv` under
/// `epsilon` and `policy`.
pub open spec fn performance_spec(
    hs: Seq<ChainsView>,
    adv: Seq<ChainsView>,
    epsilon: Ratio,
    policy: TailPolicy,
) -> Performance {
    let n = hs.len() as int;
    Performance {
        k_star: match policy {
            TailPolicy::Interpolated => interpolated_k_star_spec(
                k_values_of(hs, adv).sort_by(k_leq()),
                epsilon,
            ),
            TailPolicy::ExpectedShortfall => expected_shortfall_spec(
                k_values_of(hs, adv).sort_by(k_leq()),
                epsilon,
            ),
        },
        f_work: Ratio { num: sum_rate_q(hs, n) as u64, den: (n * RATE_DEN) as u64 },
        f_height: Ratio { num: sum_height_rate_q(hs, n) as u64, den: (n * RATE_DEN) as u64 },
        max_work: max_last_work(hs, n) as u64,
        max_height: max_last_height(hs, n) as u64,
        adversary_max_work: max_last_work(adv, n) as u64,
        adversary_max_height: max_last_height(adv, n) as u64,
    }
}

/// The statistic's index preconditions for the chosen policy.
pub open spec fn epsilon_fits(n: int, epsilon: Ratio, policy: TailPolicy) -> bool {
    match policy {
        TailPolicy::Interpolated => {
            &&& epsilon.num <= epsilon.den
            &&& 1 <= discrete_k_index(n, epsilon) < n
        },
        TailPolicy::ExpectedShortfall => {
            &&& 2 * epsilon.num <= epsilon.den
            &&& es_quantile_index(n, epsilon) < n
        },
    }
}

/// Runs the analyzer over every trial pair, reduces the depths to the chosen
/// tail statistic, and averages the quantized rates.
pub fn get_monte_carlo_performance(
    honest_monte_carlo_progress: &Vec<ChainSeq>,
    adversary_monte_carlo_progress: &Vec<ChainSeq>,
    epsilon: Ratio,
    policy: TailPolicy,
) -> (r: Performance)
    requires
        honest_monte_carlo_progress@.len() == adversary_monte_carlo_progress@.len(),
        1 <= honest_monte_carlo_progress@.len() <= 0xFFFF_FFFF,
        forall|i: int|
            0 <= i < honest_monte_carlo_progress@.len() ==> (#[trigger] honest_monte_carlo_progress@[i]).wf()
                && agg_fits(honest_monte_carlo_progress@[i]@),
        forall|i: int|
            0 <= i < adversary_monte_carlo_progress@.len() ==> (
            #[trigger] adversary_monte_carlo_progress@[i]).wf(),
        epsilon.wf(),
        epsilon_fits(honest_monte_carlo_progress@.len() as int, epsilon, policy),
    ensures
        r == performance_spec(
            views_of(honest_monte_carlo_progress@),
            views_of(adversary_monte_carlo_progress@),
            epsilon,
            policy,
        ),
{
    let hs = honest_monte_carlo_progress;
    let advs = adversary_monte_carlo_progress;
    let n = hs.len();
    let ghost hss = views_of(hs@);
    let ghost advss = views_of(advs@);

    let mut k_vec: Vec<KValue> = Vec::new();
    let mut rate_sum: u64 = 0;
    let mut height_rate_sum: u64 = 0;
    let mut max_work: u64 = 0;
    let mut max_height: u64 = 0;
    let mut adversary_max_work: u64 = 0;
    let mut adversary_max_height: u64 = 0;

    let mut i: usize = 0;
    while i < n
        invariant
            hss == views_of(hs@),
            advss == views_of(advs@),
            hs == honest_monte_carlo_progress,
            advs == adversary_monte_carlo_progress,
            n == hss.len(),
            hss.len() == advss.len(),
            n <= 0xFFFF_FFFF,
            forall|t: int|
                0 <= t < hs@.len() ==> (#[trigger] hs@[t]).wf() && agg_fits(hs@[t]@),
            forall|t: int| 0 <= t < advs@.len() ==> (#[trigger] advs@[t]).wf(),
            0 <= i <= n,
            k_vec@.len() == i,
            k_vec@ =~= k_values_of(hss, advss).take(i as int),
            k_bounds(k_vec@),
            rate_sum == sum_rate_q(hss, i as int),
            rate_sum <= i * 0xFFFF_FFFF,
            height_rate_sum == sum_height_rate_q(hss, i as int),
            height_rate_sum <= i * 0xFFFF_FFFF,
            max_work == max_last_work(hss, i as int),
            max_height == max_last_height(hss, i as int),
            adversary_max_work == max_last_work(advss, i as int),
            adversary_max_height == max_last_height(advss, i as int),
        decreases n - i,
    {
        let h = &hs[i];
        let a = &advs[i];
        let kv = get_k(h, a);
        proof {
            assert(hss[i as int] == hs@[i as int]@);
            assert(advss[i as int] == advs@[i as int]@);
            assert(hss[i as int].wf());
            lemma_k_spec_bounded(hss[i as int], advss[i as int], 0xFFFF_FFFF);
            assert(k_values_of(hss, advss).take(i + 1) =~= k_values_of(hss, advss).take(
                i as int,
            ).push(k_spec(hss[i as int], advss[i as int])));
        }
        k_vec.push(kv);

        let h_last = h.chains[h.chains.len() - 1];
        proof {
            assert(h_last == hss[i as int].chains.last());
            assert(hss[i as int].chains[0].timestamp < h_last.timestamp);
            lemma_u64_mul_fits_u128(h_last.work as int, h.time_den as int);
            lemma_u64_mul_fits_u128(h_last.timestamp as int, h.work_den as int);
            lemma_u64_mul_fits_u128(h_last.height as int, h.time_den as int);
            lemma_mul_le_mono(
                h_last.work * h.time_den,
                u64::MAX as int,
                RATE_DEN as int,
                RATE_DEN as int,
            );
            lemma_mul_le_mono(
                h_last.height * h.time_den,
                u64::MAX as int,
                RATE_DEN as int,
                RATE_DEN as int,
            );
            lemma_mul_ge_one(h_last.timestamp as int, h.work_den as int);
        }
        let rq128 = ((h_last.work as u128) * (h.time_den as u128) * (RATE_DEN as u128)) / (
        (h_last.timestamp as u128) * (h.work_den as u128));
        let hq128 = ((h_last.height as u128) * (h.time_den as u128) * (RATE_DEN as u128))
            / (h_last.timestamp as u128);
        proof {
            assert(rq128 == rate_q(hss[i as int]));
            assert(hq128 == height_rate_q(hss[i as int]));
        }
        rate_sum = rate_sum + (rq128 as u64);
        height_rate_sum = height_rate_sum + (hq128 as u64);

        if h_last.work > max_work {
            max_work = h_last.work;
        }
        if h_last.height > max_height {
            max_height = h_last.height;
        }
        let a_last = a.chains[a.chains.len() - 1];
        proof {
            assert(a_last == advss[i as int].chains.last());
        }
        if a_last.work > adversary_max_work {
            adversary_max_work = a_last.work;
        }
        if a_last.height > adversary_max_height {
            adversary_max_height = a_last.height;
        }
        i = i + 1;
    }

    proof {
        assert(k_values_of(hss, advss).take(n as int) =~= k_values_of(hss, advss));
    }
    let k_star = match policy {
        TailPolicy::Interpolated => get_interpolated_k_star(&mut k_vec, epsilon),
        TailPolicy::ExpectedShortfall => get_expected_shortfall(&mut k_vec, epsilon),
    };

    Performance {
        k_star,
        f_work: Ratio { num: rate_sum, den: (n as u64) * RATE_DEN },
        f_height: Ratio { num: height_rate_sum, den: (n as u64) * RATE_DEN },
        max_work,
        max_height,
        adversary_max_work,
        adversary_max_height,
    }
}

/// Like the aggregator, but reports both the raw `(1 - eps)` order statistic
/// and its interpolated refinement, together with the sorted depths, for
/// inspecting a statistic side by side with its inputs.
pub fn test_get_performance(
    multiple_honest_work_progresses: &Vec<ChainSeq>,
    multiple_adversary_work_progresses: &Vec<ChainSeq>,
    epsilon: Ratio,
) -> (r: (KValue, TailStat, Ratio, Ratio, Vec<KValue>))
    requires
        multiple_honest_work_progresses@.len() == multiple_adversary_work_progresses@.len(),
        1 <= multiple_honest_work_progresses@.len() <= 0xFFFF_FFFF,
        forall|i: int|
            0 <= i < multiple_honest_work_progresses@.len() ==> (
            #[trigger] multiple_honest_work_progresses@[i]).wf() && agg_fits(
                multiple_honest_work_progresses@[i]@,
            ),
        forall|i: int|
            0 <= i < multiple_adversary_work_progresses@.len() ==> (
            #[trigger] multiple_adversary_work_progresses@[i]).wf(),
        epsilon.wf(),
        epsilon_fits(
            multiple_honest_work_progresses@.len() as int,
            epsilon,
            TailPolicy::Interpolated,
        ),
        es_quantile_index(multiple_honest_work_progresses@.len() as int, epsilon)
            < multiple_honest_work_progresses@.len(),
    ensures
        ({
            let sorted = k_values_of(
                views_of(multiple_honest_work_progresses@),
                views_of(multiple_adversary_work_progresses@),
            ).sort_by(k_leq());
            let n = multiple_honest_work_progresses@.len() as int;
            &&& r.0 == sorted[es_quantile_index(n, epsilon)]
            &&& r.1 == interpolated_k_star_spec(sorted, epsilon)
            &&& r.2 == Ratio {
                num: sum_rate_q(views_of(multiple_honest_work_progresses@), n) as u64,
                den: (n * RATE_DEN) as u64,
            }
            &&& r.3 == Ratio {
                num: sum_height_rate_q(views_of(multiple_honest_work_progresses@), n) as u64,
                den: (n * RATE_DEN) as u64,
            }
            &&& r.4@ == sorted
        }),
{
    let hs = multiple_honest_work_progresses;
    let advs = multiple_adversary_work_progresses;
    let n = hs.len();
    let ghost hss = views_of(hs@);
    let ghost advss = views_of(advs@);

    let mut k_vec: Vec<KValue> = Vec::new();
    let mut rate_sum: u64 = 0;
    let mut height_rate_sum: u64 = 0;

    let mut i: usize = 0;
    while i < n
        invariant
            hss == views_of(hs@),
            advss == views_of(advs@),
            hs == multiple_honest_work_progresses,
            advs == multiple_adversary_work_progresses,
            n == hss.len(),
            hss.len() == advss.len(),
            n <= 0xFFFF_FFFF,
            forall|t: int|
                0 <= t < hs@.len() ==> (#[trigger] hs@[t]).wf() && agg_fits(hs@[t]@),
            forall|t: int| 0 <= t < advs@.len() ==> (#[trigger] advs@[t]).wf(),
            0 <= i <= n,
            k_vec@.len() == i,
            k_vec@ =~= k_values_of(hss, advss).take(i as int),
            k_bounds(k_vec@),
            rate_sum == sum_rate_q(hss, i as int),
            rate_sum <= i * 0xFFFF_FFFF,
            height_rate_sum == sum_height_rate_q(hss, i as int),
            height_rate_sum <= i * 0xFFFF_FFFF,
        decreases n - i,
    {
        let h = &hs[i];
        let a = &advs[i];
        let kv = get_k(h, a);
        proof {
            assert(hss[i as int] == hs@[i as int]@);
            assert(advss[i as int] == advs@[i as int]@);
            assert(hss[i as int].wf());
            lemma_k_spec_bounded(hss[i as int], advss[i as int], 0xFFFF_FFFF);
            assert(k_values_of(hss, advss).take(i + 1) =~= k_values_of(hss, advss).take(
                i as int,
            ).push(k_spec(hss[i as int], advss[i as int])));
        }
        k_vec.push(kv);

        let h_last = h.chains[h.chains.len() - 1];
        proof {
            assert(h_last == hss[i as int].chains.last());
            assert(hss[i as int].chains[0].timestamp < h_last.timestamp);
            lemma_u64_mul_fits_u128(h_last.work as int, h.time_den as int);
            lemma_u64_mul_fits_u128(h_last.timestamp as int, h.work_den as int);
            lemma_u64_mul_fits_u128(h_last.height as int, h.time_den as int);
            lemma_mul_le_mono(
                h_last.work * h.time_den,
                u64::MAX as int,
                RATE_DEN as int,
                RATE_DEN as int,
            );
            lemma_mul_le_mono(
                h_last.height * h.time_den,
                u64::MAX as int,
                RATE_DEN as int,
                RATE_DEN as int,
            );
            lemma_mul_ge_one(h_last.timestamp as int, h.work_den as int);
        }
        let rq128 = ((h_last.work as u128) * (h.time_den as u128) * (RATE_DEN as u128)) / (
        (h_last.timestamp as u128) * (h.work_den as u128));
        let hq128 = ((h_last.height as u128) * (h.time_den as u128) * (RATE_DEN as u128))
            / (h_last.timestamp as u128);
        proof {
            assert(rq128 == rate_q(hss[i as int]));
            assert(hq128 == height_rate_q(hss[i as int]));
        }
        rate_sum = rate_sum + (rq128 as u64);
        height_rate_sum = height_rate_sum + (hq128 as u64);
        i = i + 1;
    }

    proof {
        assert(k_values_of(hss, advss).take(n as int) =~= k_values_of(hss, advss));
    }
    let interpolated_k_star = get_interpolated_k_star(&mut k_vec, epsilon);

    let diff = epsilon.den - epsilon.num;
    proof {
        lemma_u64_mul_fits_u128(diff as int, n as int);
    }
    let q128 = (diff as u128) * (n as u128) / (epsilon.den as u128);
    proof {
        assert(q128 == es_quantile_index(k_vec@.len() as int, epsilon));
    }
    let k_star = k_vec[q128 as usize];

    (
        k_star,
        interpolated_k_star,
        Ratio { num: rate_sum, den: (n as u64) * RATE_DEN },
        Ratio { num: height_rate_sum, den: (n as u64) * RATE_DEN },
        k_vec,
    )
}

} // verus!
