//! A backward-walking variant of the critical-depth analyzer.
//!
//! This variant first rules out trials whose adversary trajectory ends no
//! later than the honest one — the adversary never gets a chance to race past
//! the observed window, so no finite depth can be concluded and the result is
//! infinite.  Otherwise it walks the honest records from the end, moving an
//! adversary cursor backwards, and reports the first (latest) honest record
//! whose predecessor was matched or beaten by the preceding adversary work.

use vstd::prelude::*;

use crate::types::{
    frac_le, frac_le_u64, lemma_mul_ge_one, lemma_mul_nonneg, Chain, ChainSeq, KValue,
};

verus! {

/// The largest index at or below `j` whose preceding adversary record is
/// strictly earlier than the honest timestamp `t` (a numerator over `h_td`).
/// A record tying the honest timestamp does not count as preceding it.
pub open spec fn serial_cursor(a: Seq<Chain>, j: int, t: int, h_td: int, a_td: int) -> int
    decreases j,
{
    if j < 1 {
        j
    } else if frac_le(t, h_td, a[j - 1].timestamp as int, a_td) {
        serial_cursor(a, j - 1, t, h_td, a_td)
    } else {
        j
    }
}

/// The backward walk from honest index `i` with adversary cursor `j`.
pub open spec fn serial_rec(
    h: Seq<Chain>,
    a: Seq<Chain>,
    h_td: int,
    h_wd: int,
    a_td: int,
    a_wd: int,
    i: int,
    j: int,
) -> Option<KValue>
    decreases i,
{
    if i < 1 {
        None
    } else {
        let j2 = serial_cursor(a, j, h[i].timestamp as int, h_td, a_td);
        if frac_le(h[i - 1].work as int, h_wd, a[j2 - 1].work as int, a_wd) {
            Some(KValue::Finite(h[i].work))
        } else {
            serial_rec(h, a, h_td, h_wd, a_td, a_wd, i - 1, j2)
        }
    }
}

/// The serial analyzer's result: infinite when the adversary's final record
/// is no later than the honest one, otherwise the backward walk's answer.
pub open spec fn serial_k_spec(h: ChainSeq, a: ChainSeq) -> Option<KValue> {
    if frac_le(
        a.chains@.last().timestamp as int,
        a.time_den as int,
        h.chains@.last().timestamp as int,
        h.time_den as int,
    ) {
        Some(KValue::Infinite)
    } else {
        serial_rec(
            h.chains@,
            a.chains@,
            h.time_den as int,
            h.work_den as int,
            a.time_den as int,
            a.work_den as int,
            h.chains@.len() - 1,
            a.chains@.len() - 1,
        )
    }
}

/// The backward cursor never leaves the sequence: it stops at one at the
/// latest, because the adversary's genesis record is never later than any
/// honest timestamp.
pub proof fn lemma_serial_cursor_ge_one(a: Seq<Chain>, j: int, t: int, h_td: int, a_td: int)
    requires
        1 <= j,
        1 <= a.len(),
        a[0].timestamp == 0,
        a_td >= 1,
        h_td >= 1,
        t >= 1,
    ensures
        1 <= serial_cursor(a, j, t, h_td, a_td) <= j,
    decreases j,
{
    if frac_le(t, h_td, a[j - 1].timestamp as int, a_td) {
        if j == 1 {
            lemma_mul_ge_one(t, a_td);
            assert(!(t * a_td <= (a[0].timestamp as int) * h_td)) by (nonlinear_arith)
                requires
                    a[0].timestamp == 0,
                    1 <= t * a_td,
            ;
            assert(false);
        } else {
            lemma_serial_cursor_ge_one(a, j - 1, t, h_td, a_td);
        }
    }
}

/// The backward walk always reaches an answer: at the honest genesis record,
/// whose work is zero, any adversary work suffices to end the walk.
pub proof fn lemma_serial_rec_some(
    h: Seq<Chain>,
    a: Seq<Chain>,
    h_td: int,
    h_wd: int,
    a_td: int,
    a_wd: int,
    i: int,
    j: int,
)
    requires
        1 <= i < h.len(),
        1 <= j <= a.len(),
        h[0].work == 0,
        a[0].timestamp == 0,
        forall|x: int| 1 <= x < h.len() ==> (#[trigger] h[x].timestamp) >= 1,
        h_td >= 1,
        h_wd >= 1,
        a_td >= 1,
        a_wd >= 1,
    ensures
        serial_rec(h, a, h_td, h_wd, a_td, a_wd, i, j) is Some,
    decreases i,
{
    let t = h[i].timestamp as int;
    lemma_serial_cursor_ge_one(a, j, t, h_td, a_td);
    let j2 = serial_cursor(a, j, t, h_td, a_td);
    if !frac_le(h[i - 1].work as int, h_wd, a[j2 - 1].work as int, a_wd) {
        if i == 1 {
            lemma_mul_nonneg(a[j2 - 1].work as int, h_wd);
            assert((h[0].work as int) * a_wd <= (a[j2 - 1].work as int) * h_wd)
                by (nonlinear_arith)
                requires
                    h[0].work == 0,
                    0 <= (a[j2 - 1].work as int) * h_wd,
            ;
            assert(false);
        } else {
            lemma_serial_rec_some(h, a, h_td, h_wd, a_td, a_wd, i - 1, j2);
        }
    }
}

/// Computes the critical depth by the backward walk.  Always returns a value:
/// in particular, whenever the adversary's final timestamp is at most the
/// honest final timestamp, the result is infinite.
pub fn get_k(honest_sample: &ChainSeq, adversary_sample: &ChainSeq) -> (r: Option<KValue>)
    requires
        honest_sample.wf(),
        adversary_sample.wf(),
        honest_sample.chains@.len() >= 2,
    ensures
        r == serial_k_spec(*honest_sample, *adversary_sample),
        r is Some,
        frac_le(
            adversary_sample.chains@.last().timestamp as int,
            adversary_sample.time_den as int,
            honest_sample.chains@.last().timestamp as int,
            honest_sample.time_den as int,
        ) ==> r == Some(KValue::Infinite),
{
    let h = honest_sample;
    let a = adversary_sample;
    let ghost h_td = h.time_den as int;
    let ghost h_wd = h.work_den as int;
    let ghost a_td = a.time_den as int;
    let ghost a_wd = a.work_den as int;

    let h_last = h.chains[h.chains.len() - 1];
    let a_last = a.chains[a.chains.len() - 1];
    if frac_le_u64(a_last.timestamp, a.time_den, h_last.timestamp, h.time_den) {
        return Some(KValue::Infinite);
    }

    proof {
        if a.chains@.len() == 1 {
            assert(a.chains@.last() == a.chains@[0]);
            lemma_mul_nonneg(h.chains@.last().timestamp as int, a_td);
            assert((a.chains@[0].timestamp as int) * h_td <= (h.chains@.last().timestamp as int)
                * a_td) by (nonlinear_arith)
                requires
                    a.chains@[0].timestamp == 0,
                    0 <= (h.chains@.last().timestamp as int) * a_td,
            ;
            assert(false);
        }
    }

    let mut j: usize = a.chains.len() - 1;
    let mut i: usize = h.chains.len() - 1;
    while i >= 1
        invariant
            h == honest_sample,
            a == adversary_sample,
            h.wf(),
            a.wf(),
            h.chains@.len() >= 2,
            h_td == h.time_den as int,
            h_wd == h.work_den as int,
            a_td == a.time_den as int,
            a_wd == a.work_den as int,
            i < h.chains@.len(),
            1 <= j < a.chains@.len(),
            serial_rec(h.chains@, a.chains@, h_td, h_wd, a_td, a_wd, i as int, j as int)
                == serial_rec(
                h.chains@,
                a.chains@,
                h_td,
                h_wd,
                a_td,
                a_wd,
                h.chains@.len() - 1,
                a.chains@.len() - 1,
            ),
            !frac_le(
                a.chains@.last().timestamp as int,
                a_td,
                h.chains@.last().timestamp as int,
                h_td,
            ),
        decreases i,
    {
        let honest_progress = h.chains[i];
        let ghost t = honest_progress.timestamp as int;
        let ghost j0 = j as int;

        while j >= 1 && frac_le_u64(
            honest_progress.timestamp,
            h.time_den,
            a.chains[j - 1].timestamp,
            a.time_den,
        )
            invariant
                a == adversary_sample,
                a.wf(),
                h_td >= 1,
                a_td >= 1,
                a_td == a.time_den as int,
                h_td == h.time_den as int,
                j <= j0,
                0 <= j0 < a.chains@.len(),
                t == honest_progress.timestamp as int,
                serial_cursor(a.chains@, j as int, t, h_td, a_td) == serial_cursor(
                    a.chains@,
                    j0,
                    t,
                    h_td,
                    a_td,
                ),
            decreases j,
        {
            j = j - 1;
        }
        proof {
            assert(h.chains@[0].timestamp < h.chains@[i as int].timestamp);
            lemma_serial_cursor_ge_one(a.chains@, j0, t, h_td, a_td);
            assert(serial_cursor(a.chains@, j0, t, h_td, a_td) == j as int);
        }

        let previous_adversary = a.chains[j - 1];
        let previous_honest = h.chains[i - 1];
        if frac_le_u64(previous_honest.work, h.work_den, previous_adversary.work, a.work_den) {
            return Some(KValue::Finite(honest_progress.work));
        }
        proof {
            if i == 1 {
                lemma_mul_nonneg(previous_adversary.work as int, h_wd);
                assert((h.chains@[0].work as int) * a_wd <= (previous_adversary.work as int)
                    * h_wd) by (nonlinear_arith)
                    requires
                        h.chains@[0].work == 0,
                        0 <= (previous_adversary.work as int) * h_wd,
                ;
                assert(frac_le(
                    h.chains@[0].work as int,
                    h_wd,
                    previous_adversary.work as int,
                    a_wd,
                ));
                assert(false);
            }
        }
        i = i - 1;
    }
    proof {
        assert forall|x: int| 1 <= x < h.chains@.len() implies (#[trigger] h.chains@[x].timestamp)
            >= 1 by {
            assert(h.chains@[0].timestamp < h.chains@[x].timestamp);
        }
        lemma_serial_rec_some(
            h.chains@,
            a.chains@,
            h_td,
            h_wd,
            a_td,
            a_wd,
            h.chains@.len() - 1,
            a.chains@.len() - 1,
        );
        assert(false);
    }
    None
}

} // verus!
