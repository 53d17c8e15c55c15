//! Core data model: blocks, chain progress records, and exact rationals.
//!
//! A mining event or a chain record stores integer numerators; the sequence
//! that owns it stores one denominator for timestamps (`time_den`) and one for
//! work values (`work_den`).  The value of a timestamp numerator `t` is the
//! rational `t / time_den`, and likewise for work.  Keeping denominators at
//! the sequence level means the chain-growth simulation is pure integer
//! arithmetic, while cross-sequence comparisons multiply out exactly.

use vstd::prelude::*;

verus! {

/// A nonnegative rational `num / den`; well-formed when `den >= 1`.
#[derive(Clone, Copy, Debug, PartialEq, Eq, Structural)]
pub struct Ratio {
    pub num: u64,
    pub den: u64,
}

impl Ratio {
    pub open spec fn wf(self) -> bool {
        self.den >= 1
    }

    /// Spec-level value comparison against another ratio.
    pub open spec fn le(self, other: Ratio) -> bool {
        frac_le(self.num as int, self.den as int, other.num as int, other.den as int)
    }
}

/// `a_num / a_den <= b_num / b_den`, with positive denominators.
pub open spec fn frac_le(a_num: int, a_den: int, b_num: int, b_den: int) -> bool {
    a_num * b_den <= b_num * a_den
}

/// `a_num / a_den < b_num / b_den`, with positive denominators.
pub open spec fn frac_lt(a_num: int, a_den: int, b_num: int, b_den: int) -> bool {
    a_num * b_den < b_num * a_den
}

/// `a_num / a_den == b_num / b_den`, with positive denominators.
pub open spec fn frac_eq(a_num: int, a_den: int, b_num: int, b_den: int) -> bool {
    a_num * b_den == b_num * a_den
}

/// The product of two `u64` values fits in a `u128`.
pub proof fn lemma_u64_mul_fits_u128(a: int, b: int)
    requires
        0 <= a <= u64::MAX,
        0 <= b <= u64::MAX,
    ensures
        0 <= a * b <= u128::MAX,
{
    assert(a * b <= u64::MAX * u64::MAX) by (nonlinear_arith)
        requires
            0 <= a <= u64::MAX,
            0 <= b <= u64::MAX,
    ;
}

/// Strict multiplication monotonicity by a positive factor.
pub proof fn lemma_mul_lt_mono(a: int, b: int, c: int)
    requires
        a < b,
        c >= 1,
    ensures
        a * c < b * c,
{
    assert(a * c < b * c) by (nonlinear_arith)
        requires
            a < b,
            c >= 1,
    ;
}

/// Multiplication preserves `<=` on nonnegative values.
pub proof fn lemma_mul_le_mono(a: int, b: int, c: int, d: int)
    requires
        0 <= a <= b,
        0 <= c <= d,
    ensures
        a * c <= b * d,
{
    assert(a * c <= b * d) by (nonlinear_arith)
        requires
            0 <= a <= b,
            0 <= c <= d,
    ;
}

/// The product of two nonnegative values is nonnegative.
pub proof fn lemma_mul_nonneg(a: int, b: int)
    requires
        0 <= a,
        0 <= b,
    ensures
        0 <= a * b,
{
    assert(0 <= a * b) by (nonlinear_arith)
        requires
            0 <= a,
            0 <= b,
    ;
}

/// The product of two positive values is positive.
pub proof fn lemma_mul_ge_one(a: int, b: int)
    requires
        a >= 1,
        b >= 1,
    ensures
        a * b >= 1,
{
    assert(a * b >= 1) by (nonlinear_arith)
        requires
            a >= 1,
            b >= 1,
    ;
}

/// Exact comparison of two nonnegative fractions of `u64` parts.
pub fn frac_le_u64(a_num: u64, a_den: u64, b_num: u64, b_den: u64) -> (r: bool)
    requires
        a_den >= 1,
        b_den >= 1,
    ensures
        r == frac_le(a_num as int, a_den as int, b_num as int, b_den as int),
{
    proof {
        lemma_u64_mul_fits_u128(a_num as int, b_den as int);
        lemma_u64_mul_fits_u128(b_num as int, a_den as int);
    }
    (a_num as u128) * (b_den as u128) <= (b_num as u128) * (a_den as u128)
}

/// Exact strict comparison of two nonnegative fractions of `u64` parts.
pub fn frac_lt_u64(a_num: u64, a_den: u64, b_num: u64, b_den: u64) -> (r: bool)
    requires
        a_den >= 1,
        b_den >= 1,
    ensures
        r == frac_lt(a_num as int, a_den as int, b_num as int, b_den as int),
{
    proof {
        lemma_u64_mul_fits_u128(a_num as int, b_den as int);
        lemma_u64_mul_fits_u128(b_num as int, a_den as int);
    }
    (a_num as u128) * (b_den as u128) < (b_num as u128) * (a_den as u128)
}

/// One mining event: creation time and contributed weight, as numerators of
/// the owning sequence's denominators.
#[derive(Clone, Copy, Debug, PartialEq, Eq, Structural)]
pub struct Block {
    pub timestamp: u64,
    pub work: u64,
}

/// One weight-improvement record: a moment the heaviest observed chain
/// strictly increased in cumulative work.  `arrival_time` is the time the
/// improvement becomes visible to others (timestamp plus the network delay).
#[derive(Clone, Copy, Debug, PartialEq, Eq, Structural)]
pub struct Chain {
    pub timestamp: u64,
    pub work: u64,
    pub height: u64,
    pub arrival_time: u64,
}

/// The genesis record: zero time, zero work, height zero, immediately visible.
pub open spec fn genesis() -> Chain {
    Chain { timestamp: 0, work: 0, height: 0, arrival_time: 0 }
}

/// A block sequence together with its two denominators.
#[derive(Clone, Debug)]
pub struct BlockSeq {
    pub blocks: Vec<Block>,
    pub time_den: u64,
    pub work_den: u64,
}

/// A chain-record sequence together with its two denominators.
#[derive(Clone, Debug)]
pub struct ChainSeq {
    pub chains: Vec<Chain>,
    pub time_den: u64,
    pub work_den: u64,
}

/// Blocks arrive in strictly increasing timestamp order, strictly after the
/// genesis instant.
pub open spec fn blocks_wf(blocks: Seq<Block>) -> bool {
    &&& forall|i: int| 0 <= i < blocks.len() ==> #[trigger] blocks[i].timestamp >= 1
    &&& forall|i: int, j: int|
        0 <= i < j < blocks.len() ==> #[trigger] blocks[i].timestamp < #[trigger] blocks[j].timestamp
}

/// The invariants of a chain-record sequence: it starts at genesis, and
/// timestamps and works strictly increase while heights count the records.
pub open spec fn chains_wf(cs: Seq<Chain>) -> bool {
    &&& cs.len() >= 1
    &&& cs[0] == genesis()
    &&& forall|i: int, j: int|
        0 <= i < j < cs.len() ==> #[trigger] cs[i].timestamp < #[trigger] cs[j].timestamp
    &&& forall|i: int, j: int|
        0 <= i < j < cs.len() ==> #[trigger] cs[i].work < #[trigger] cs[j].work
    &&& forall|i: int| 0 <= i < cs.len() ==> #[trigger] cs[i].height == i
}

/// The mathematical content of a block sequence: the records and the two
/// denominators, free of any container.
pub ghost struct BlocksView {
    pub blocks: Seq<Block>,
    pub time_den: int,
    pub work_den: int,
}

/// The mathematical content of a chain-record sequence.
pub ghost struct ChainsView {
    pub chains: Seq<Chain>,
    pub time_den: int,
    pub work_den: int,
}

impl BlocksView {
    pub open spec fn wf(self) -> bool {
        &&& self.time_den >= 1
        &&& self.work_den >= 1
        &&& blocks_wf(self.blocks)
    }
}

impl ChainsView {
    pub open spec fn wf(self) -> bool {
        &&& self.time_den >= 1
        &&& self.work_den >= 1
        &&& chains_wf(self.chains)
    }
}

impl View for BlockSeq {
    type V = BlocksView;

    open spec fn view(&self) -> BlocksView {
        BlocksView {
            blocks: self.blocks@,
            time_den: self.time_den as int,
            work_den: self.work_den as int,
        }
    }
}

impl View for ChainSeq {
    type V = ChainsView;

    open spec fn view(&self) -> ChainsView {
        ChainsView {
            chains: self.chains@,
            time_den: self.time_den as int,
            work_den: self.work_den as int,
        }
    }
}

impl BlockSeq {
    pub open spec fn wf(self) -> bool {
        &&& self.time_den >= 1
        &&& self.work_den >= 1
        &&& blocks_wf(self.blocks@)
    }
}

impl ChainSeq {
    pub open spec fn wf(self) -> bool {
        &&& self.time_den >= 1
        &&& self.work_den >= 1
        &&& chains_wf(self.chains@)
    }
}

/// A critical depth: a work numerator in the honest sequence's work unit, or
/// infinity when no safe depth exists within the simulated horizon.
#[derive(Clone, Copy, Debug, PartialEq, Eq, Structural)]
pub enum KValue {
    Finite(u64),
    Infinite,
}

/// An aggregated statistic: an exact rational, or infinity.
#[derive(Clone, Copy, Debug, PartialEq, Eq, Structural)]
pub enum TailStat {
    Finite(Ratio),
    Infinite,
}

/// Which tail statistic reduces the per-trial depths: the interpolated
/// order statistic, or the expected shortfall.  The choice is made once per
/// sweep and applied consistently.
#[derive(Clone, Copy, Debug, PartialEq, Eq, Structural)]
pub enum TailPolicy {
    Interpolated,
    ExpectedShortfall,
}

/// Total order on critical depths, with infinity greatest.
pub open spec fn k_le(a: KValue, b: KValue) -> bool {
    match a {
        KValue::Finite(x) => match b {
            KValue::Finite(y) => x <= y,
            KValue::Infinite => true,
        },
        KValue::Infinite => match b {
            KValue::Finite(_) => false,
            KValue::Infinite => true,
        },
    }
}

/// Executable counterpart of `k_le`.
pub fn k_le_exec(a: &KValue, b: &KValue) -> (r: bool)
    ensures
        r == k_le(*a, *b),
{
    match a {
        KValue::Finite(x) => match b {
            KValue::Finite(y) => *x <= *y,
            KValue::Infinite => true,
        },
        KValue::Infinite => match b {
            KValue::Finite(_) => false,
            KValue::Infinite => true,
        },
    }
}

} // verus!
