use vstd::prelude::*;
use vstd::arithmetic::power::pow;
use crate::model::seq_sum;
use crate::params::OptimizationParams;
use crate::model::Student;
use crate::solution::{
    CachedClassStats, Solution, lemma_group_sum_by_count, same_stats, total_of, male_count_of, subject_of,
};

verus! {

/// Ten-thousandths in a ratio of one.
pub const RATIO_SCALE: u64 = 10000;

/// `min(x, u128::MAX)`: the value of a quantity held in a saturating `u128`.
pub open spec fn capped(x: int) -> int {
    if x > u128::MAX {
        u128::MAX as int
    } else {
        x
    }
}

pub open spec fn abs_diff(a: int, b: int) -> int {
    if a >= b {
        a - b
    } else {
        b - a
    }
}

/// Largest distance of the first `n` values from `mean` (zero when `n` is zero).
pub open spec fn max_dev(v: Seq<u32>, mean: int, n: int) -> int
    decreases n,
{
    if n <= 0 {
        0
    } else {
        let d = abs_diff(v[n - 1] as int, mean);
        let rest = max_dev(v, mean, n - 1);
        if d > rest {
            d
        } else {
            rest
        }
    }
}

/// Sum of the squared distances of the first `n` values from `mean`.
pub open spec fn sq_dev_sum(v: Seq<u32>, mean: int, n: int) -> int
    decreases n,
{
    if n <= 0 {
        0
    } else {
        sq_dev_sum(v, mean, n - 1) + (v[n - 1] - mean) * (v[n - 1] - mean)
    }
}

/// Mean of the class values, rounded down.
pub open spec fn mean_of(v: Seq<u32>) -> int {
    seq_sum(v, v.len() as int) / (v.len() as int)
}

/// Penalty of a spread `d` over a threshold: `(d - threshold)^power * weight`.
pub open spec fn excess_penalty(d: int, threshold: int, weight: int, power: nat) -> int {
    if d > threshold {
        pow(d - threshold, power) * weight
    } else {
        0
    }
}

/// Cost of one balanced quantity, given its value in each class: the penalty
/// on the largest distance from the mean of the class values, plus the
/// weighted variance of the class values.
pub open spec fn dimension_cost(
    v: Seq<u32>,
    threshold: int,
    penalty_weight: int,
    power: nat,
    soft_weight: int,
) -> int {
    let mean = mean_of(v);
    let n = v.len() as int;
    excess_penalty(max_dev(v, mean, n), threshold, penalty_weight, power) + (sq_dev_sum(v, mean, n)
        / n) * soft_weight
}

/// Average total score of a class; zero for an empty class.
pub open spec fn avg_total_of(st: CachedClassStats) -> int {
    if st.student_count == 0 {
        0
    } else {
        st.total_sum as int / st.student_count as int
    }
}

/// Average score of subject `k` in a class; zero for an empty class.
pub open spec fn avg_subject_of(st: CachedClassStats, k: int) -> int {
    if st.student_count == 0 {
        0
    } else {
        st.subject_sums@[k] as int / st.student_count as int
    }
}

/// Share of male students in a class, in ten-thousandths; one half for an
/// empty class.
pub open spec fn male_ratio_of(st: CachedClassStats) -> int {
    if st.student_count == 0 {
        RATIO_SCALE as int / 2
    } else {
        st.male_count as int * RATIO_SCALE as int / st.student_count as int
    }
}

/// The sums of a class stay within what its members can contribute.
pub open spec fn stats_bounded(st: CachedClassStats) -> bool {
    &&& st.total_sum <= u32::MAX as int * st.student_count as int
    &&& st.male_count <= st.student_count
    &&& forall|k: int|
        0 <= k < st.subject_sums@.len() ==> #[trigger] st.subject_sums@[k] <= u32::MAX as int
            * st.student_count as int
}

pub open spec fn total_avgs(stats: Seq<CachedClassStats>) -> Seq<u32> {
    Seq::new(stats.len(), |g: int| avg_total_of(stats[g]) as u32)
}

pub open spec fn male_ratios(stats: Seq<CachedClassStats>) -> Seq<u32> {
    Seq::new(stats.len(), |g: int| male_ratio_of(stats[g]) as u32)
}

pub open spec fn subject_avgs(stats: Seq<CachedClassStats>, k: int) -> Seq<u32> {
    Seq::new(stats.len(), |g: int| avg_subject_of(stats[g], k) as u32)
}

/// Cost of the first `m` subjects.
pub open spec fn subjects_cost(stats: Seq<CachedClassStats>, p: OptimizationParams, m: int) -> int
    decreases m,
{
    if m <= 0 {
        0
    } else {
        subjects_cost(stats, p, m - 1) + dimension_cost(
            subject_avgs(stats, m - 1),
            p.max_subject_score_diff as int,
            p.subject_score_penalty_weight as int,
            p.penalty_power as nat,
            p.subject_variance_weight as int,
        )
    }
}

/// Cost of a division: the sum of the costs of the total score, of the male
/// ratio and of each subject; zero when there is no class.
pub open spec fn cost_of(stats: Seq<CachedClassStats>, m: int, p: OptimizationParams) -> int {
    if stats.len() == 0 {
        0
    } else {
        dimension_cost(
            total_avgs(stats),
            p.max_score_diff as int,
            p.total_score_penalty_weight as int,
            p.penalty_power as nat,
            p.total_variance_weight as int,
        ) + dimension_cost(
            male_ratios(stats),
            p.max_gender_ratio_diff as int,
            p.gender_ratio_penalty_weight as int,
            p.penalty_power as nat,
            p.gender_variance_weight as int,
        ) + subjects_cost(stats, p, m)
    }
}

/// `a * b`, saturating, where `a` holds a possibly saturated `x`.
fn sat_mul(a: u128, b: u128, Ghost(x): Ghost<int>) -> (r: u128)
    requires
        x >= 0,
        a == capped(x),
    ensures
        r == capped(x * b),
{
    proof {
        if x > u128::MAX {
            if b >= 1 {
                assert(x * b >= x) by (nonlinear_arith)
                    requires x >= 0, b >= 1;
                assert(a * b >= a) by (nonlinear_arith)
                    requires a >= 0, b >= 1;
            } else {
                assert(x * b == 0);
            }
        }
    }
    match a.checked_mul(b) {
        Some(v) => v,
        None => u128::MAX,
    }
}

/// `x^e`, saturating.
fn sat_pow(x: u128, e: u32) -> (r: u128)
    ensures
        r == capped(pow(x as int, e as nat)),
{
    let mut r: u128 = 1;
    let mut i: u32 = 0;
    proof {
        reveal(pow);
    }
    while i < e
        invariant
            i <= e,
            r == capped(pow(x as int, i as nat)),
            pow(x as int, i as nat) >= 0,
        decreases e - i,
    {
        proof {
            reveal(pow);
            assert(pow(x as int, (i + 1) as nat) == x * pow(x as int, i as nat));
            let q = pow(x as int, i as nat);
            assert(x * q == q * x) by (nonlinear_arith);
            assert(pow(x as int, i as nat) * x >= 0) by (nonlinear_arith)
                requires pow(x as int, i as nat) >= 0, x >= 0;
        }
        r = sat_mul(r, x, Ghost(pow(x as int, i as nat)));
        i = i + 1;
    }
    r
}

proof fn lemma_capped_add(a: int, b: int)
    requires
        a >= 0,
        b >= 0,
    ensures
        capped(capped(a) + capped(b)) == capped(a + b),
{
}

/// Sum of the first `n` values, with its bounds.
proof fn lemma_seq_sum_bound(v: Seq<u32>, n: int)
    requires
        0 <= n <= v.len(),
    ensures
        0 <= seq_sum(v, n) <= n * u32::MAX,
    decreases n,
{
    if n > 0 {
        lemma_seq_sum_bound(v, n - 1);
    }
}

proof fn lemma_max_dev_nonneg(v: Seq<u32>, mean: int, n: int)
    ensures
        max_dev(v, mean, n) >= 0,
    decreases n,
{
    if n > 0 {
        lemma_max_dev_nonneg(v, mean, n - 1);
    }
}

/// The cost of one balanced quantity from its value in each class.
pub fn calc_dimension_cost(
    v: &Vec<u32>,
    threshold: u64,
    penalty_weight: u64,
    power: u32,
    soft_weight: u64,
) -> (r: u128)
    requires
        v@.len() > 0,
    ensures
        r == capped(
            dimension_cost(v@, threshold as int, penalty_weight as int, power as nat, soft_weight as int),
        ),
{
    let n = v.len();
    let mut sum: u128 = 0;
    let mut i: usize = 0;
    while i < n
        invariant
            n == v@.len(),
            i <= n,
            sum == seq_sum(v@, i as int),
        decreases n - i,
    {
        proof {
            lemma_seq_sum_bound(v@, i as int);
            assert(i * u32::MAX + u32::MAX <= u128::MAX) by (nonlinear_arith)
                requires i <= usize::MAX;
        }
        sum = sum + v[i] as u128;
        i = i + 1;
    }
    let mean: u128 = sum / (n as u128);
    let ghost gm = mean_of(v@);
    proof {
        lemma_seq_sum_bound(v@, n as int);
        assert(mean <= u32::MAX) by (nonlinear_arith)
            requires mean == sum as int / (n as int), sum <= n * u32::MAX, n > 0;
    }
    let mut maxd: u128 = 0;
    let mut sq: u128 = 0;
    let mut i: usize = 0;
    while i < n
        invariant
            n == v@.len(),
            i <= n,
            mean == gm,
            mean <= u32::MAX,
            maxd == max_dev(v@, gm, i as int),
            maxd <= u32::MAX,
            sq == sq_dev_sum(v@, gm, i as int),
            sq <= i * (u32::MAX as int * u32::MAX as int),
        decreases n - i,
    {
        let x = v[i] as u128;
        let d: u128 = if x >= mean {
            x - mean
        } else {
            mean - x
        };
        if d > maxd {
            maxd = d;
        }
        proof {
            assert(d * d <= u32::MAX as int * u32::MAX as int) by (nonlinear_arith)
                requires 0 <= d <= u32::MAX;
            assert(i * (u32::MAX as int * u32::MAX as int) + u32::MAX as int * u32::MAX as int
                == (i + 1) * (u32::MAX as int * u32::MAX as int)) by (nonlinear_arith);
            assert((i + 1) * (u32::MAX as int * u32::MAX as int) <= u128::MAX) by (nonlinear_arith)
                requires i + 1 <= usize::MAX;
            assert((v@[i as int] - gm) * (v@[i as int] - gm) == d * d) by (nonlinear_arith)
                requires d == abs_diff(v@[i as int] as int, gm);
        }
        sq = sq + d * d;
        i = i + 1;
    }
    let var: u128 = sq / (n as u128);
    proof {
        assert(var <= u32::MAX as int * u32::MAX as int) by (nonlinear_arith)
            requires var == sq as int / (n as int), sq <= n * (u32::MAX as int * u32::MAX as int), n > 0;
        assert(var * soft_weight <= u128::MAX) by (nonlinear_arith)
            requires var <= u32::MAX as int * u32::MAX as int, soft_weight <= u64::MAX;
    }
    let soft: u128 = var * (soft_weight as u128);
    let pen: u128 = if maxd > threshold as u128 {
        let p = sat_pow(maxd - threshold as u128, power);
        proof {
            assert(pow((maxd - threshold) as int, power as nat) >= 0) by {
                vstd::arithmetic::power::lemma_pow_positive((maxd - threshold) as int, power as nat);
            }
        }
        sat_mul(p, penalty_weight as u128, Ghost(pow((maxd - threshold) as int, power as nat)))
    } else {
        0
    };
    proof {
        lemma_max_dev_nonneg(v@, gm, n as int);
        let e = excess_penalty(maxd as int, threshold as int, penalty_weight as int, power as nat);
        if maxd > threshold {
            vstd::arithmetic::power::lemma_pow_positive((maxd - threshold) as int, power as nat);
            assert(e >= 0) by (nonlinear_arith)
                requires e == pow((maxd - threshold) as int, power as nat) * penalty_weight,
                    pow((maxd - threshold) as int, power as nat) >= 0, penalty_weight >= 0;
        }
        lemma_capped_add(e, soft as int);
    }
    pen.saturating_add(soft)
}

proof fn lemma_sq_dev_sum_nonneg(v: Seq<u32>, mean: int, n: int)
    ensures
        sq_dev_sum(v, mean, n) >= 0,
    decreases n,
{
    if n > 0 {
        lemma_sq_dev_sum_nonneg(v, mean, n - 1);
        let d = v[n - 1] - mean;
        assert(d * d >= 0) by (nonlinear_arith);
    }
}

pub proof fn lemma_dimension_cost_nonneg(v: Seq<u32>, t: int, w: int, p: nat, sw: int)
    requires
        v.len() > 0,
        w >= 0,
        sw >= 0,
    ensures
        dimension_cost(v, t, w, p, sw) >= 0,
{
    let mean = mean_of(v);
    let n = v.len() as int;
    let d = max_dev(v, mean, n);
    if d > t {
        vstd::arithmetic::power::lemma_pow_positive(d - t, p);
        let q = pow(d - t, p);
        assert(q * w >= 0) by (nonlinear_arith)
            requires q > 0, w >= 0;
    }
    lemma_sq_dev_sum_nonneg(v, mean, n);
    let s = sq_dev_sum(v, mean, n) / n;
    assert(s >= 0) by (nonlinear_arith)
        requires sq_dev_sum(v, mean, n) >= 0, n > 0, s == sq_dev_sum(v, mean, n) / n;
    assert(s * sw >= 0) by (nonlinear_arith)
        requires s >= 0, sw >= 0;
}

pub proof fn lemma_subjects_cost_nonneg(stats: Seq<CachedClassStats>, p: OptimizationParams, m: int)
    requires
        stats.len() > 0,
    ensures
        subjects_cost(stats, p, m) >= 0,
    decreases m,
{
    if m > 0 {
        lemma_subjects_cost_nonneg(stats, p, m - 1);
        lemma_dimension_cost_nonneg(
            subject_avgs(stats, m - 1),
            p.max_subject_score_diff as int,
            p.subject_score_penalty_weight as int,
            p.penalty_power as nat,
            p.subject_variance_weight as int,
        );
    }
}

/// Every aggregate of a well-formed division stays within what its members
/// can contribute.
pub proof fn lemma_wf_bounded(sol: Solution, pop: Seq<Student>)
    requires
        sol.wf(pop),
    ensures
        sol.bounded(),
{
    let a = sol.assignments@;
    let n = pop.len() as int;
    let m = sol.subjects_count as int;
    assert forall|g: int| 0 <= g < sol.num_classes() implies stats_bounded(#[trigger] sol.class_stats@[g])
        && sol.class_stats@[g].subject_sums@.len() == m by {
        let st = sol.class_stats@[g];
        assert(st.matches(pop, a, g, m));
        lemma_group_sum_by_count(pop, a, g, total_of(), n, u32::MAX as int);
        lemma_group_sum_by_count(pop, a, g, male_count_of(), n, 1);
        assert forall|k: int| 0 <= k < st.subject_sums@.len() implies #[trigger] st.subject_sums@[k]
            <= u32::MAX as int * st.student_count as int by {
            lemma_group_sum_by_count(pop, a, g, subject_of(k), n, u32::MAX as int);
        }
    }
}

impl CachedClassStats {
    /// Average total score; zero for an empty class.
    pub fn avg_total(&self) -> (r: u32)
        requires
            stats_bounded(*self),
        ensures
            r == avg_total_of(*self),
    {
        if self.student_count == 0 {
            0
        } else {
            proof {
                let c = self.student_count as int;
                assert(self.total_sum as int / c <= u32::MAX) by (nonlinear_arith)
                    requires self.total_sum <= u32::MAX as int * c, c > 0;
            }
            (self.total_sum / self.student_count as u128) as u32
        }
    }

    /// Average score of subject `k`; zero for an empty class.
    pub fn avg_subject(&self, k: usize) -> (r: u32)
        requires
            stats_bounded(*self),
            k < self.subject_sums@.len(),
        ensures
            r == avg_subject_of(*self, k as int),
    {
        if self.student_count == 0 {
            0
        } else {
            proof {
                let c = self.student_count as int;
                let x = self.subject_sums@[k as int];
                assert(x as int / c <= u32::MAX) by (nonlinear_arith)
                    requires x <= u32::MAX as int * c, c > 0;
            }
            (self.subject_sums[k] / self.student_count as u128) as u32
        }
    }

    /// Share of male students in ten-thousandths; one half for an empty class.
    pub fn male_ratio(&self) -> (r: u32)
        requires
            stats_bounded(*self),
        ensures
            r == male_ratio_of(*self),
    {
        if self.student_count == 0 {
            (RATIO_SCALE / 2) as u32
        } else {
            let c = self.student_count as u128;
            proof {
                let ci = self.student_count as int;
                let mi = self.male_count as int;
                assert(mi * 10000 <= ci * 10000) by (nonlinear_arith)
                    requires mi <= ci;
                assert(mi * 10000 / ci <= 10000) by (nonlinear_arith)
                    requires mi <= ci, ci > 0;
            }
            (self.male_count as u128 * (RATIO_SCALE as u128) / c) as u32
        }
    }
}

impl Solution {
    /// Every class's aggregates are bounded and cover all subjects.
    pub open spec fn bounded(&self) -> bool {
        forall|g: int|
            0 <= g < self.num_classes() ==> stats_bounded(#[trigger] self.class_stats@[g])
                && self.class_stats@[g].subject_sums@.len() == self.subjects_count
    }

    /// The cost of this division under `params`, saturating at `u128::MAX`.
    pub fn calculate_cost(&self, params: &OptimizationParams) -> (r: u128)
        requires
            self.bounded(),
        ensures
            r == capped(cost_of(self.class_stats@, self.subjects_count as int, *params)),
    {
        let num_classes = self.class_stats.len();
        if num_classes == 0 {
            return 0;
        }
        let ghost stats = self.class_stats@;
        let mut totals: Vec<u32> = Vec::new();
        let mut ratios: Vec<u32> = Vec::new();
        let mut g: usize = 0;
        while g < num_classes
            invariant
                stats == self.class_stats@,
                num_classes == stats.len(),
                self.bounded(),
                g <= num_classes,
                totals@ == total_avgs(stats).take(g as int),
                ratios@ == male_ratios(stats).take(g as int),
            decreases num_classes - g,
        {
            let t = self.class_stats[g].avg_total();
            let q = self.class_stats[g].male_ratio();
            totals.push(t);
            ratios.push(q);
            g = g + 1;
            assert(totals@ =~= total_avgs(stats).take(g as int));
            assert(ratios@ =~= male_ratios(stats).take(g as int));
        }
        assert(totals@ =~= total_avgs(stats));
        assert(ratios@ =~= male_ratios(stats));
        let p = params;
        let c1 = calc_dimension_cost(
            &totals,
            p.max_score_diff,
            p.total_score_penalty_weight,
            p.penalty_power,
            p.total_variance_weight,
        );
        let c2 = calc_dimension_cost(
            &ratios,
            p.max_gender_ratio_diff,
            p.gender_ratio_penalty_weight,
            p.penalty_power,
            p.gender_variance_weight,
        );
        let ghost d1 = dimension_cost(
            total_avgs(stats),
            p.max_score_diff as int,
            p.total_score_penalty_weight as int,
            p.penalty_power as nat,
            p.total_variance_weight as int,
        );
        let ghost d2 = dimension_cost(
            male_ratios(stats),
            p.max_gender_ratio_diff as int,
            p.gender_ratio_penalty_weight as int,
            p.penalty_power as nat,
            p.gender_variance_weight as int,
        );
        proof {
            lemma_dimension_cost_nonneg(
                total_avgs(stats),
                p.max_score_diff as int,
                p.total_score_penalty_weight as int,
                p.penalty_power as nat,
                p.total_variance_weight as int,
            );
            lemma_dimension_cost_nonneg(
                male_ratios(stats),
                p.max_gender_ratio_diff as int,
                p.gender_ratio_penalty_weight as int,
                p.penalty_power as nat,
                p.gender_variance_weight as int,
            );
            lemma_capped_add(d1, d2);
        }
        let mut cost = c1.saturating_add(c2);
        let m = self.subjects_count;
        let mut k: usize = 0;
        while k < m
            invariant
                stats == self.class_stats@,
                num_classes == stats.len(),
                num_classes > 0,
                self.bounded(),
                m == self.subjects_count,
                k <= m,
                d1 + d2 >= 0,
                cost == capped(d1 + d2 + subjects_cost(stats, *p, k as int)),
            decreases m - k,
        {
            let mut avgs: Vec<u32> = Vec::new();
            let mut g: usize = 0;
            while g < num_classes
                invariant
                    stats == self.class_stats@,
                    num_classes == stats.len(),
                    self.bounded(),
                    m == self.subjects_count,
                    k < m,
                    g <= num_classes,
                    avgs@ == subject_avgs(stats, k as int).take(g as int),
                decreases num_classes - g,
            {
                let a = self.class_stats[g].avg_subject(k);
                avgs.push(a);
                g = g + 1;
                assert(avgs@ =~= subject_avgs(stats, k as int).take(g as int));
            }
            assert(avgs@ =~= subject_avgs(stats, k as int));
            let c = calc_dimension_cost(
                &avgs,
                p.max_subject_score_diff,
                p.subject_score_penalty_weight,
                p.penalty_power,
                p.subject_variance_weight,
            );
            proof {
                let dk = dimension_cost(
                    subject_avgs(stats, k as int),
                    p.max_subject_score_diff as int,
                    p.subject_score_penalty_weight as int,
                    p.penalty_power as nat,
                    p.subject_variance_weight as int,
                );
                lemma_dimension_cost_nonneg(
                    subject_avgs(stats, k as int),
                    p.max_subject_score_diff as int,
                    p.subject_score_penalty_weight as int,
                    p.penalty_power as nat,
                    p.subject_variance_weight as int,
                );
                lemma_subjects_cost_nonneg(stats, *p, k as int);
                lemma_capped_add(d1 + d2 + subjects_cost(stats, *p, k as int), dk);
            }
            cost = cost.saturating_add(c);
            k = k + 1;
        }
        cost
    }
}

/// The cost depends on the numbers in the class aggregates alone.
pub proof fn lemma_cost_same_stats(
    s1: Seq<CachedClassStats>,
    s2: Seq<CachedClassStats>,
    m: int,
    p: OptimizationParams,
)
    requires
        same_stats(s1, s2),
    ensures
        cost_of(s1, m, p) == cost_of(s2, m, p),
    decreases m,
{
    assert(total_avgs(s1) =~= total_avgs(s2));
    assert(male_ratios(s1) =~= male_ratios(s2));
    lemma_subjects_cost_same(s1, s2, m, p);
}

proof fn lemma_subjects_cost_same(
    s1: Seq<CachedClassStats>,
    s2: Seq<CachedClassStats>,
    m: int,
    p: OptimizationParams,
)
    requires
        same_stats(s1, s2),
    ensures
        subjects_cost(s1, p, m) == subjects_cost(s2, p, m),
    decreases m,
{
    if m > 0 {
        lemma_subjects_cost_same(s1, s2, m - 1, p);
        assert(subject_avgs(s1, m - 1) =~= subject_avgs(s2, m - 1));
    }
}

} // verus!
