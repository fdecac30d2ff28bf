use vstd::prelude::*;
use crate::cost::{cost_of, lemma_cost_same_stats};
use crate::division::members;
use crate::model::Student;
use crate::params::OptimizationParams;
use crate::solution::{
    CachedClassStats, Solution, group_sum, lemma_group_sum_bounds, lemma_swapped_twice,
    lemma_wf_same_stats, one_of, same_stats, swapped, total_of, male_count_of, female_count_of,
    subject_of,
};
use crate::validate::spread;

verus! {

/// Exchanging the same two students twice restores the division: the same
/// assignment, the same class aggregates and the same cost.
pub proof fn swap_twice_restores(
    s0: Solution,
    s1: Solution,
    s2: Solution,
    pop: Seq<Student>,
    i: int,
    j: int,
    params: OptimizationParams,
)
    requires
        s0.wf(pop),
        0 <= i < pop.len(),
        0 <= j < pop.len(),
        s1.wf(pop),
        s1.assignments@ == swapped(s0.assignments@, i, j),
        s1.num_classes() == s0.num_classes(),
        s1.subjects_count == s0.subjects_count,
        s2.wf(pop),
        s2.assignments@ == swapped(s1.assignments@, i, j),
        s2.num_classes() == s0.num_classes(),
        s2.subjects_count == s0.subjects_count,
    ensures
        s2.assignments@ == s0.assignments@,
        same_stats(s2.class_stats@, s0.class_stats@),
        cost_of(s2.class_stats@, s2.subjects_count as int, params) == cost_of(
            s0.class_stats@,
            s0.subjects_count as int,
            params,
        ),
{
    lemma_swapped_twice(s0.assignments@, i, j);
    lemma_wf_same_stats(s2, s0, pop);
    lemma_cost_same_stats(s2.class_stats@, s0.class_stats@, s0.subjects_count as int, params);
}

/// With a single class, that class holds every student, in order.
pub proof fn one_class_holds_everyone(a: Seq<usize>)
    requires
        forall|i: int| 0 <= i < a.len() ==> #[trigger] a[i] < 1,
    ensures
        members(a, 0, a.len() as int) == Seq::new(a.len(), |i: int| i),
{
    lemma_members_all(a, a.len() as int);
}

proof fn lemma_members_all(a: Seq<usize>, n: int)
    requires
        0 <= n <= a.len(),
        forall|i: int| 0 <= i < a.len() ==> #[trigger] a[i] < 1,
    ensures
        members(a, 0, n) == Seq::new(n as nat, |i: int| i),
    decreases n,
{
    if n > 0 {
        lemma_members_all(a, n - 1);
        assert(a[n - 1] == 0);
        assert(Seq::new((n - 1) as nat, |i: int| i).push(n - 1) =~= Seq::new(n as nat, |i: int| i));
    }
}

/// Over a single class every spread is zero.
pub proof fn single_class_spread_is_zero(f: spec_fn(int) -> int)
    ensures
        spread(f, 1) == 0,
{
}

/// The cached aggregates of a class in a well-formed division equal the
/// aggregates recounted from scratch over its current members.
pub proof fn cache_equals_recount(sol: Solution, pop: Seq<Student>, g: int, fresh: CachedClassStats)
    requires
        sol.wf(pop),
        0 <= g < sol.num_classes(),
        fresh.matches(pop, sol.assignments@, g, sol.subjects_count as int),
    ensures
        fresh.total_sum == sol.class_stats@[g].total_sum,
        fresh.student_count == sol.class_stats@[g].student_count,
        fresh.male_count == sol.class_stats@[g].male_count,
        fresh.female_count == sol.class_stats@[g].female_count,
        fresh.subject_sums@ == sol.class_stats@[g].subject_sums@,
{
    assert(sol.class_stats@[g].matches(pop, sol.assignments@, g, sol.subjects_count as int));
    assert(fresh.subject_sums@ =~= sol.class_stats@[g].subject_sums@);
}

} // verus!
