use vstd::prelude::*;

use crate::model::RuleScore;

verus! {

/// Sum of the weighted scores.
pub open spec fn sum_weighted(s: Seq<RuleScore>) -> int
    decreases s.len(),
{
    if s.len() == 0 {
        0
    } else {
        sum_weighted(s.drop_last()) + s.last().weighted_score
    }
}

/// Sum of the absolute weights.
pub open spec fn sum_abs_weight(s: Seq<RuleScore>) -> int
    decreases s.len(),
{
    if s.len() == 0 {
        0
    } else {
        sum_abs_weight(s.drop_last()) + if s.last().weight < 0 {
            -s.last().weight
        } else {
            s.last().weight as int
        }
    }
}

/// Composite score in hundredths of a point: `num/den × 100` clamped to
/// [0, 100], rounded down, where `num` sums the weighted scores (millionths
/// × thousandths) and `den` the absolute weights (thousandths); 0 when `den = 0`.
pub open spec fn composite_of(s: Seq<RuleScore>) -> int {
    let num = sum_weighted(s);
    let den = sum_abs_weight(s);
    if den == 0 || num <= 0 {
        0
    } else if num / (100 * den) > 10_000 {
        10_000
    } else {
        num / (100 * den)
    }
}

pub open spec fn all_wf(s: Seq<RuleScore>) -> bool {
    forall|i: int| 0 <= i < s.len() ==> (#[trigger] s[i]).wf()
}

/// Largest magnitude of one weighted score.
pub const MAX_WEIGHTED: i128 = 2_147_483_648_000_000;

/// Compute the composite score (hundredths of a point, 0..=10000) from the rule scores.
pub fn compute_composite(scores: &[RuleScore]) -> (r: u32)
    requires
        all_wf(scores@),
    ensures
        r == composite_of(scores@),
        0 <= r <= 10_000,
{
    let mut num: i128 = 0;
    let mut den: i128 = 0;
    let mut i: usize = 0;
    while i < scores.len()
        invariant
            i <= scores.len(),
            all_wf(scores@),
            num == sum_weighted(scores@.subrange(0, i as int)),
            den == sum_abs_weight(scores@.subrange(0, i as int)),
            -(i as int) * MAX_WEIGHTED <= num <= (i as int) * MAX_WEIGHTED,
            0 <= den <= (i as int) * 2_147_483_648,
        decreases scores.len() - i,
    {
        let s = &scores[i];
        proof {
            let p = scores@.subrange(0, i as int + 1);
            assert(p.drop_last() =~= scores@.subrange(0, i as int));
            assert(p.last() == scores@[i as int]);
            assert(scores@[i as int].wf());
            let rv = s.raw_value as int;
            let w = s.weight as int;
            assert(-MAX_WEIGHTED <= rv * w <= MAX_WEIGHTED) by (nonlinear_arith)
                requires
                    -1_000_000 <= rv <= 1_000_000,
                    -2_147_483_648 <= w <= 2_147_483_647,
            ;
            assert((i as int) <= usize::MAX);
        }
        num = num + s.weighted_score as i128;
        den = den + if s.weight < 0 { -(s.weight as i128) } else { s.weight as i128 };
        i = i + 1;
    }
    assert(scores@.subrange(0, scores.len() as int) =~= scores@);
    if den == 0 || num <= 0 {
        return 0;
    }
    let q: i128 = num / (100 * den);
    if q > 10_000 {
        10_000
    } else {
        q as u32
    }
}

/// The composite score always lies in [0, 100] (0..=10000 hundredths).
pub proof fn lemma_composite_in_range(s: Seq<RuleScore>)
    ensures
        0 <= composite_of(s) <= 10_000,
{
    let num = sum_weighted(s);
    let den = sum_abs_weight(s);
    if den != 0 && num > 0 {
        lemma_abs_weight_nonneg(s);
        vstd::arithmetic::div_mod::lemma_div_pos_is_pos(num, 100 * den);
    }
}

proof fn lemma_abs_weight_nonneg(s: Seq<RuleScore>)
    ensures
        sum_abs_weight(s) >= 0,
    decreases s.len(),
{
    if s.len() > 0 {
        lemma_abs_weight_nonneg(s.drop_last());
    }
}

} // verus!
