//! The integer side of DCG and ERR. Both metrics sum, over the first `k`
//! positions of a gain sequence, a term whose numerator is `2^gain - 1`:
//! DCG divides it by `log2(i + 2)`, ERR by `2^maxJudgment` to get the
//! probability that position `i` satisfies the user.
use vstd::prelude::*;
use vstd::arithmetic::power2::{pow2, lemma_pow2_unfold, lemma_pow2_strictly_increases, lemma2_to64};

verus! {

/// The largest grade the metrics accept: `2^grade` then fits in an `i32`.
pub const MAX_GRADE: u32 = 30;

/// Every gain in `gains` is at most `MAX_GRADE`.
pub open spec fn grades_in_range(gains: Seq<u32>) -> bool {
    forall|i: int| 0 <= i < gains.len() ==> #[trigger] gains[i] <= MAX_GRADE
}

/// How many positions a cutoff of `k` covers in a sequence of `n`.
pub open spec fn depth(k: nat, n: nat) -> nat {
    if k < n { k } else { n }
}

/// `2^g - 1`: what a document of grade `g` contributes before discounting.
pub open spec fn gain_value(g: nat) -> nat {
    (pow2(g) - 1) as nat
}

/// The numerators of the metric terms for the first `k` positions of `gains`.
pub open spec fn cutoff_terms(k: nat, gains: Seq<u32>) -> Seq<nat> {
    Seq::new(depth(k, gains.len()), |i: int| gain_value(gains[i] as nat))
}

/// Computes `2^e`.
pub fn power_of_two(e: u32) -> (r: u64)
    requires
        e <= MAX_GRADE,
    ensures
        r as nat == pow2(e as nat),
{
    let mut p: u64 = 1;
    let mut j: u32 = 0;
    proof {
        lemma2_to64();
    }
    while j < e
        invariant
            j <= e <= MAX_GRADE,
            p as nat == pow2(j as nat),
        decreases e - j,
    {
        proof {
            lemma_pow2_unfold((j + 1) as nat);
            lemma_pow2_strictly_increases((j + 1) as nat, 31);
            lemma2_to64();
        }
        p = p * 2;
        j = j + 1;
    }
    p
}

/// The numerator of the term for one gain: `2^g - 1`.
pub fn gain_numerator(g: u32) -> (r: u64)
    requires
        g <= MAX_GRADE,
    ensures
        r as nat == gain_value(g as nat),
{
    proof {
        vstd::arithmetic::power2::lemma_pow2_pos(g as nat);
    }
    power_of_two(g) - 1
}

/// The numerators that DCG and ERR sum at cutoff `k`, position by position.
pub fn gain_terms(k: usize, gain: &Vec<u32>) -> (r: Vec<u64>)
    requires
        grades_in_range(gain@),
    ensures
        r@.len() == cutoff_terms(k as nat, gain@).len(),
        forall|i: int| 0 <= i < r@.len() ==> r@[i] as nat == #[trigger] cutoff_terms(k as nat, gain@)[i],
{
    let mut r: Vec<u64> = Vec::new();
    let mut i: usize = 0;
    while i < k && i < gain.len()
        invariant
            i <= gain@.len(),
            i <= k,
            grades_in_range(gain@),
            r@.len() == i,
            forall|j: int| 0 <= j < i ==> r@[j] as nat == gain_value(gain@[j] as nat),
        decreases gain.len() - i,
    {
        let t = gain_numerator(gain[i]);
        r.push(t);
        i = i + 1;
    }
    r
}

/// The denominator of ERR's relevance probability: `2^max_judgment`.
pub fn relevance_scale(max_judgment: u32) -> (r: u64)
    requires
        max_judgment <= MAX_GRADE,
    ensures
        r as nat == pow2(max_judgment as nat),
        r >= 1,
{
    proof {
        vstd::arithmetic::power2::lemma_pow2_pos(max_judgment as nat);
    }
    power_of_two(max_judgment)
}

/// Whether some position within the cutoff has a positive gain, which is
/// when DCG is positive: every term is nonnegative and the discount of a
/// position is positive.
pub fn has_gain(k: usize, gain: &Vec<u32>) -> (r: bool)
    ensures
        r == exists|i: int| 0 <= i < depth(k as nat, gain@.len()) && #[trigger] gain@[i] > 0,
{
    let mut i: usize = 0;
    while i < k && i < gain.len()
        invariant
            i <= gain@.len(),
            i <= k,
            forall|j: int| 0 <= j < i ==> #[trigger] gain@[j] == 0,
        decreases gain.len() - i,
    {
        if gain[i] > 0 {
            return true;
        }
        i = i + 1;
    }
    false
}

/// With no gains, or a cutoff of zero, both metrics sum no term and are 0.
pub proof fn lemma_empty_or_zero_cutoff(k: nat, gains: Seq<u32>)
    ensures
        cutoff_terms(k, Seq::<u32>::empty()).len() == 0,
        cutoff_terms(0, gains).len() == 0,
{
}

/// A cutoff at or past the end of the gains sums the same terms as a cutoff
/// at the end: cutting off beyond the sequence changes nothing.
pub proof fn lemma_cutoff_past_end(k: nat, gains: Seq<u32>)
    requires
        k >= gains.len(),
    ensures
        cutoff_terms(k, gains) == cutoff_terms(gains.len(), gains),
{
    assert(cutoff_terms(k, gains) =~= cutoff_terms(gains.len(), gains));
}

} // verus!
