use vstd::prelude::*;
use crate::model::{Class, class_avg_total, class_avg_subject, class_gender_ratio};
use crate::params::{OptimizationParams, default_params};

verus! {

/// How far apart the classes are, and whether that is within the thresholds.
/// Score spreads are in hundredths of a point, ratio spreads in
/// ten-thousandths; `subject_max_diffs[k]` is the spread of subject `k`.
#[derive(Debug)]
pub struct ConstraintValidation {
    pub score_constraints_met: bool,
    pub gender_constraints_met: bool,
    pub max_score_diff: u64,
    pub max_gender_ratio_diff: u64,
    pub subject_max_diffs: Vec<u64>,
}

/// Largest of `f(0) .. f(n - 1)`.
pub open spec fn max_upto(f: spec_fn(int) -> int, n: int) -> int
    decreases n,
{
    if n <= 1 {
        f(0)
    } else {
        let m = max_upto(f, n - 1);
        if f(n - 1) > m {
            f(n - 1)
        } else {
            m
        }
    }
}

/// Smallest of `f(0) .. f(n - 1)`.
pub open spec fn min_upto(f: spec_fn(int) -> int, n: int) -> int
    decreases n,
{
    if n <= 1 {
        f(0)
    } else {
        let m = min_upto(f, n - 1);
        if f(n - 1) < m {
            f(n - 1)
        } else {
            m
        }
    }
}

/// Largest minus smallest of `f(0) .. f(n - 1)`.
pub open spec fn spread(f: spec_fn(int) -> int, n: int) -> int {
    max_upto(f, n) - min_upto(f, n)
}

pub open spec fn avg_totals_of(classes: Seq<Class>) -> spec_fn(int) -> int {
    |g: int| class_avg_total(classes[g])
}

pub open spec fn gender_ratios_of(classes: Seq<Class>) -> spec_fn(int) -> int {
    |g: int| class_gender_ratio(classes[g])
}

pub open spec fn avg_subjects_of(classes: Seq<Class>, k: int) -> spec_fn(int) -> int {
    |g: int| class_avg_subject(classes[g], k)
}

/// Number of subjects considered: that of the first student of the first
/// class, or zero.
pub open spec fn validated_subjects(classes: Seq<Class>) -> int {
    if classes.len() > 0 && classes[0].students@.len() > 0 {
        classes[0].students@[0].scores@.len() as int
    } else {
        0
    }
}

proof fn lemma_min_le_max(f: spec_fn(int) -> int, n: int)
    ensures
        min_upto(f, n) <= max_upto(f, n),
    decreases n,
{
    if n > 1 {
        lemma_min_le_max(f, n - 1);
    }
}

/// Spread of the values of `v`, which are those of `f`.
fn spread_of(v: &Vec<u32>, Ghost(f): Ghost<spec_fn(int) -> int>) -> (r: u64)
    requires
        v@.len() > 0,
        forall|g: int| 0 <= g < v@.len() ==> v@[g] == #[trigger] f(g),
    ensures
        r == spread(f, v@.len() as int),
{
    let mut hi: u32 = v[0];
    let mut lo: u32 = v[0];
    let mut i: usize = 1;
    while i < v.len()
        invariant
            1 <= i <= v@.len(),
            forall|g: int| 0 <= g < v@.len() ==> v@[g] == #[trigger] f(g),
            hi == max_upto(f, i as int),
            lo == min_upto(f, i as int),
        decreases v@.len() - i,
    {
        if v[i] > hi {
            hi = v[i];
        }
        if v[i] < lo {
            lo = v[i];
        }
        i = i + 1;
    }
    proof {
        lemma_min_le_max(f, v@.len() as int);
    }
    (hi - lo) as u64
}

/// Spreads of the class averages and ratios under the thresholds of
/// `params`; a spread meets its threshold when it does not exceed it.
pub fn validate_constraints_with_params(classes: &[Class], params: &OptimizationParams) -> (r: ConstraintValidation)
    ensures
        classes@.len() == 0 ==> r.score_constraints_met && r.gender_constraints_met
            && r.max_score_diff == 0 && r.max_gender_ratio_diff == 0
            && r.subject_max_diffs@.len() == 0,
        classes@.len() > 0 ==> {
            let n = classes@.len() as int;
            &&& r.max_score_diff == spread(avg_totals_of(classes@), n)
            &&& r.max_gender_ratio_diff == spread(gender_ratios_of(classes@), n)
            &&& r.score_constraints_met == (r.max_score_diff <= params.max_score_diff)
            &&& r.gender_constraints_met == (r.max_gender_ratio_diff <= params.max_gender_ratio_diff)
            &&& r.subject_max_diffs@.len() == validated_subjects(classes@)
            &&& forall|k: int|
                0 <= k < r.subject_max_diffs@.len() ==> #[trigger] r.subject_max_diffs@[k]
                    == spread(avg_subjects_of(classes@, k), n)
        },
{
    let n = classes.len();
    if n == 0 {
        return ConstraintValidation {
            score_constraints_met: true,
            gender_constraints_met: true,
            max_score_diff: 0,
            max_gender_ratio_diff: 0,
            subject_max_diffs: Vec::new(),
        };
    }
    let m: usize = if classes[0].students.len() > 0 {
        classes[0].students[0].scores.len()
    } else {
        0
    };
    let ghost cs = classes@;
    let mut totals: Vec<u32> = Vec::new();
    let mut ratios: Vec<u32> = Vec::new();
    let mut g: usize = 0;
    while g < n
        invariant
            n == cs.len(),
            cs == classes@,
            g <= n,
            totals@.len() == g,
            ratios@.len() == g,
            forall|h: int| 0 <= h < g ==> totals@[h] == #[trigger] avg_totals_of(cs)(h),
            forall|h: int| 0 <= h < g ==> ratios@[h] == #[trigger] gender_ratios_of(cs)(h),
        decreases n - g,
    {
        totals.push(classes[g].avg_total_score());
        ratios.push(classes[g].gender_ratio());
        g = g + 1;
    }
    let max_score_diff = spread_of(&totals, Ghost(avg_totals_of(cs)));
    let max_gender_ratio_diff = spread_of(&ratios, Ghost(gender_ratios_of(cs)));
    let mut diffs: Vec<u64> = Vec::new();
    let mut k: usize = 0;
    while k < m
        invariant
            n == cs.len(),
            n > 0,
            cs == classes@,
            m == validated_subjects(cs),
            k <= m,
            diffs@.len() == k,
            forall|j: int|
                0 <= j < k ==> #[trigger] diffs@[j] == spread(avg_subjects_of(cs, j), n as int),
        decreases m - k,
    {
        let mut avgs: Vec<u32> = Vec::new();
        let mut g: usize = 0;
        while g < n
            invariant
                n == cs.len(),
                cs == classes@,
                g <= n,
                avgs@.len() == g,
                forall|h: int| 0 <= h < g ==> avgs@[h] == #[trigger] avg_subjects_of(cs, k as int)(h),
            decreases n - g,
        {
            avgs.push(classes[g].avg_subject_score(k));
            g = g + 1;
        }
        let d = spread_of(&avgs, Ghost(avg_subjects_of(cs, k as int)));
        diffs.push(d);
        k = k + 1;
    }
    ConstraintValidation {
        score_constraints_met: max_score_diff <= params.max_score_diff,
        gender_constraints_met: max_gender_ratio_diff <= params.max_gender_ratio_diff,
        max_score_diff,
        max_gender_ratio_diff,
        subject_max_diffs: diffs,
    }
}

/// `validate_constraints_with_params` with the default parameters.
pub fn validate_constraints(classes: &[Class]) -> (r: ConstraintValidation)
    ensures
        classes@.len() == 0 ==> r.score_constraints_met && r.gender_constraints_met
            && r.max_score_diff == 0 && r.max_gender_ratio_diff == 0
            && r.subject_max_diffs@.len() == 0,
        classes@.len() > 0 ==> {
            let n = classes@.len() as int;
            &&& r.max_score_diff == spread(avg_totals_of(classes@), n)
            &&& r.max_gender_ratio_diff == spread(gender_ratios_of(classes@), n)
            &&& r.score_constraints_met == (r.max_score_diff <= default_params().max_score_diff)
            &&& r.gender_constraints_met == (r.max_gender_ratio_diff
                <= default_params().max_gender_ratio_diff)
            &&& r.subject_max_diffs@.len() == validated_subjects(classes@)
            &&& forall|k: int|
                0 <= k < r.subject_max_diffs@.len() ==> #[trigger] r.subject_max_diffs@[k]
                    == spread(avg_subjects_of(classes@, k), n)
        },
{
    validate_constraints_with_params(classes, &OptimizationParams::default())
}

} // verus!
