use vstd::prelude::*;
use crate::model::{Class, Student, same_student};
use crate::annealing::{Annealer, can_move, capped_u64};
use crate::cost::{capped, cost_of};
use crate::params::{DivideConfig, OptimizationParams};
use crate::seed::{create_initial_solution, seeded_by};
use crate::solution::Solution;

verus! {

/// Positions, in increasing order, of the first `n` entries of `a` equal to `g`.
pub open spec fn members(a: Seq<usize>, g: int, n: int) -> Seq<int>
    decreases n,
{
    if n <= 0 {
        Seq::empty()
    } else if a[n - 1] as int == g {
        members(a, g, n - 1).push(n - 1)
    } else {
        members(a, g, n - 1)
    }
}

/// Sum of the sizes of classes `0..k` over the first `n` entries of `a`.
pub open spec fn class_size_sum(a: Seq<usize>, k: int, n: int) -> int
    decreases k,
{
    if k <= 0 {
        0
    } else {
        class_size_sum(a, k - 1, n) + members(a, k - 1, n).len()
    }
}

/// A class `c` numbered `g` holds, in order, the students of `pop` that
/// assignment `a` places in class `g`.
pub open spec fn class_matches(c: Class, g: int, pop: Seq<Student>, a: Seq<usize>) -> bool {
    let ms = members(a, g, pop.len() as int);
    &&& c.id == g
    &&& c.students@.len() == ms.len()
    &&& forall|q: int|
        0 <= q < ms.len() ==> same_student(#[trigger] c.students@[q], pop[ms[q]])
}

proof fn lemma_members_elems(a: Seq<usize>, g: int, n: int)
    requires
        0 <= n <= a.len(),
    ensures
        forall|q: int|
            0 <= q < members(a, g, n).len() ==> 0 <= #[trigger] members(a, g, n)[q] < n
                && a[members(a, g, n)[q]] as int == g,
    decreases n,
{
    if n > 0 {
        lemma_members_elems(a, g, n - 1);
        let ms = members(a, g, n - 1);
        if a[n - 1] as int == g {
            assert forall|q: int| 0 <= q < ms.len() + 1 implies 0 <= #[trigger] ms.push(n - 1)[q] < n
                && a[ms.push(n - 1)[q]] as int == g by {
                if q < ms.len() {
                    assert(ms.push(n - 1)[q] == ms[q]);
                }
            }
        }
    }
}

proof fn lemma_size_sum_step(a: Seq<usize>, k: int, n: int)
    requires
        1 <= n <= a.len(),
        k >= 0,
    ensures
        class_size_sum(a, k, n) == class_size_sum(a, k, n - 1) + if a[n - 1] < k {
            1int
        } else {
            0int
        },
    decreases k,
{
    if k > 0 {
        lemma_size_sum_step(a, k - 1, n);
    }
}

/// Every student placed in one of `k` classes is in exactly one class list,
/// and the class sizes add up to the number of students.
pub proof fn lemma_division_covers_everyone(a: Seq<usize>, k: int)
    requires
        forall|i: int| 0 <= i < a.len() ==> #[trigger] a[i] < k,
        k >= 0,
    ensures
        class_size_sum(a, k, a.len() as int) == a.len(),
        forall|i: int, g: int|
            0 <= i < a.len() && 0 <= g < k ==> (#[trigger] members(a, g, a.len() as int).contains(i)
                <==> a[i] as int == g),
{
    lemma_size_sum_all(a, k, a.len() as int);
    assert forall|i: int, g: int| 0 <= i < a.len() && 0 <= g < k implies (#[trigger] members(
        a,
        g,
        a.len() as int,
    ).contains(i) <==> a[i] as int == g) by {
        lemma_members_contains(a, g, i, a.len() as int);
    }
}

proof fn lemma_size_sum_all(a: Seq<usize>, k: int, n: int)
    requires
        0 <= n <= a.len(),
        forall|i: int| 0 <= i < a.len() ==> #[trigger] a[i] < k,
        k >= 0,
    ensures
        class_size_sum(a, k, n) == n,
    decreases n,
{
    if n > 0 {
        lemma_size_sum_all(a, k, n - 1);
        lemma_size_sum_step(a, k, n);
    } else {
        lemma_size_sum_zero(a, k);
    }
}

proof fn lemma_size_sum_zero(a: Seq<usize>, k: int)
    ensures
        class_size_sum(a, k, 0) == 0,
    decreases k,
{
    if k > 0 {
        lemma_size_sum_zero(a, k - 1);
    }
}

proof fn lemma_members_contains(a: Seq<usize>, g: int, i: int, n: int)
    requires
        0 <= i < n <= a.len(),
    ensures
        members(a, g, n).contains(i) <==> a[i] as int == g,
    decreases n,
{
    lemma_members_elems(a, g, n - 1);
    if i < n - 1 {
        lemma_members_contains(a, g, i, n - 1);
        if a[n - 1] as int == g {
            let ms = members(a, g, n - 1);
            let ms1 = ms.push(n - 1);
            if ms1.contains(i) {
                let q = choose|q: int| 0 <= q < ms1.len() && ms1[q] == i;
                assert(q < ms.len());
                assert(ms[q] == i);
            }
            if ms.contains(i) {
                let q = choose|q: int| 0 <= q < ms.len() && ms[q] == i;
                assert(ms.push(n - 1)[q] == i);
            }
        }
    } else {
        let ms = members(a, g, n - 1);
        if a[n - 1] as int == g {
            assert(ms.push(n - 1)[ms.len() as int] == n - 1);
        } else {
            if ms.contains(i) {
                let q = choose|q: int| 0 <= q < ms.len() && ms[q] == i;
            }
        }
    }
}

impl Solution {
    /// The classes of this division: class `g` lists, in order, copies of
    /// the students placed in it.
    pub fn to_classes(&self, students: &[Student]) -> (r: Vec<Class>)
        requires
            self.assignments@.len() == students@.len(),
            self.complete(),
        ensures
            r@.len() == self.num_classes(),
            forall|g: int|
                0 <= g < r@.len() ==> class_matches(#[trigger] r@[g], g, students@, self.assignments@),
    {
        let k = self.class_stats.len();
        let n = students.len();
        let ghost a = self.assignments@;
        let mut classes: Vec<Class> = Vec::new();
        let mut g: usize = 0;
        while g < k
            invariant
                g <= k,
                classes@.len() == g,
                forall|h: int|
                    0 <= h < g ==> (#[trigger] classes@[h]).id == h && classes@[h].students@.len() == 0,
            decreases k - g,
        {
            classes.push(Class { id: g, students: Vec::new() });
            g = g + 1;
        }
        let mut i: usize = 0;
        while i < n
            invariant
                n == students@.len(),
                a == self.assignments@,
                a.len() == n,
                k == self.num_classes(),
                self.complete(),
                i <= n,
                classes@.len() == k,
                forall|h: int|
                    0 <= h < k ==> {
                        let ms = members(a, h, i as int);
                        &&& (#[trigger] classes@[h]).id == h
                        &&& classes@[h].students@.len() == ms.len()
                        &&& forall|q: int|
                            0 <= q < ms.len() ==> same_student(
                                #[trigger] classes@[h].students@[q],
                                students@[ms[q]],
                            )
                    },
            decreases n - i,
        {
            let c = self.assignments[i];
            let s = students[i].duplicate();
            let ghost before = classes@;
            classes[c].students.push(s);
            proof {
                assert forall|h: int| 0 <= h < k implies {
                    let ms = members(a, h, i + 1);
                    &&& (#[trigger] classes@[h]).id == h
                    &&& classes@[h].students@.len() == ms.len()
                    &&& forall|q: int|
                        0 <= q < ms.len() ==> same_student(
                            #[trigger] classes@[h].students@[q],
                            students@[ms[q]],
                        )
                } by {
                    let ms0 = members(a, h, i as int);
                    if h == c as int {
                        assert(members(a, h, i + 1) == ms0.push(i as int));
                        assert forall|q: int| 0 <= q < ms0.len() + 1 implies same_student(
                            #[trigger] classes@[h].students@[q],
                            students@[ms0.push(i as int)[q]],
                        ) by {
                            if q < ms0.len() {
                                assert(classes@[h].students@[q] == before[h].students@[q]);
                            }
                        }
                    } else {
                        assert(classes@[h] == before[h]);
                    }
                }
            }
            i = i + 1;
        }
        classes
    }
}

/// How a division is carried out.
#[derive(Clone, Copy, Debug, PartialEq, Eq, Structural)]
pub enum DivisionPlan {
    /// No students or no classes: no class at all.
    Empty,
    /// Fewer students than classes: one class per student.
    Singletons,
    /// A parallel search with this many instances, each with this budget,
    /// over this many subjects.
    Search { instances: usize, iterations: usize, subjects_count: usize },
}

pub open spec fn min_usize(a: int, b: int) -> int {
    if a < b {
        a
    } else {
        b
    }
}

pub open spec fn max_usize(a: int, b: int) -> int {
    if a > b {
        a
    } else {
        b
    }
}

/// Number of search instances: the requested number, or else the number of
/// processors capped at 16 above 2000 students, 12 above 1000 and 8 above
/// 500, and 4 for fewer students.
pub open spec fn instances_for(n: int, requested: Option<usize>, cpus: int) -> int {
    match requested {
        Some(x) => x as int,
        None => if n > 2000 {
            min_usize(cpus, 16)
        } else if n > 1000 {
            min_usize(cpus, 12)
        } else if n > 500 {
            min_usize(cpus, 8)
        } else {
            4
        },
    }
}

/// Iteration budget of each instance: at least 500000 above 3000 students,
/// 400000 above 1000, and 300000 otherwise.
pub open spec fn iterations_for(n: int, max_iterations: int) -> int {
    if n > 3000 {
        max_usize(max_iterations, 500000)
    } else if n > 1000 {
        max_usize(max_iterations, 400000)
    } else {
        max_usize(max_iterations, 300000)
    }
}

pub fn instance_count(n: usize, requested: Option<usize>, cpus: usize) -> (r: usize)
    ensures
        r == instances_for(n as int, requested, cpus as int),
{
    match requested {
        Some(x) => x,
        None => {
            if n > 2000 {
                if cpus < 16 { cpus } else { 16 }
            } else if n > 1000 {
                if cpus < 12 { cpus } else { 12 }
            } else if n > 500 {
                if cpus < 8 { cpus } else { 8 }
            } else {
                4
            }
        },
    }
}

pub fn adjusted_iterations(n: usize, max_iterations: usize) -> (r: usize)
    ensures
        r == iterations_for(n as int, max_iterations as int),
{
    let floor: usize = if n > 3000 {
        500000
    } else if n > 1000 {
        400000
    } else {
        300000
    };
    if max_iterations > floor {
        max_iterations
    } else {
        floor
    }
}

/// Relies on `num_cpus::get`: the number of processors available, at least one.
#[verifier::external_body]
fn available_cpus() -> (r: usize)
    ensures
        r >= 1,
{
    num_cpus::get()
}

/// Number of subjects: that of the first student, or zero.
pub open spec fn subjects_of(students: Seq<Student>) -> int {
    if students.len() == 0 {
        0
    } else {
        students[0].scores@.len() as int
    }
}

/// What `divide_students` does for these students and this configuration,
/// with `cpus` processors.
pub fn plan_division(students: &[Student], config: &DivideConfig, cpus: usize) -> (r: DivisionPlan)
    ensures
        students@.len() == 0 || config.num_classes == 0 ==> r == DivisionPlan::Empty,
        students@.len() > 0 && 0 < config.num_classes && students@.len() < config.num_classes
            ==> r == DivisionPlan::Singletons,
        students@.len() > 0 && 0 < config.num_classes <= students@.len() ==> r == (DivisionPlan::Search {
            instances: instances_for(
                students@.len() as int,
                config.optimization_params.num_parallel_instances,
                cpus as int,
            ) as usize,
            iterations: iterations_for(students@.len() as int, config.max_iterations as int) as usize,
            subjects_count: subjects_of(students@) as usize,
        }),
{
    let n = students.len();
    if n == 0 || config.num_classes == 0 {
        return DivisionPlan::Empty;
    }
    if n < config.num_classes {
        return DivisionPlan::Singletons;
    }
    DivisionPlan::Search {
        instances: instance_count(n, config.optimization_params.num_parallel_instances, cpus),
        iterations: adjusted_iterations(n, config.max_iterations),
        subjects_count: students[0].scores.len(),
    }
}

/// `plan_division` with the processors of this machine.
pub fn plan_division_here(students: &[Student], config: &DivideConfig) -> (r: DivisionPlan)
    ensures
        students@.len() == 0 || config.num_classes == 0 ==> r == DivisionPlan::Empty,
        students@.len() > 0 && 0 < config.num_classes && students@.len() < config.num_classes
            ==> r == DivisionPlan::Singletons,
        students@.len() > 0 && 0 < config.num_classes <= students@.len() ==> exists|cpus: int|
            cpus >= 1 && r == (DivisionPlan::Search {
                instances: instances_for(
                    students@.len() as int,
                    config.optimization_params.num_parallel_instances,
                    cpus,
                ) as usize,
                iterations: iterations_for(students@.len() as int, config.max_iterations as int)
                    as usize,
                subjects_count: subjects_of(students@) as usize,
            }),
{
    let cpus = available_cpus();
    plan_division(students, config, cpus)
}

/// One class per student: class `i` holds student `i` alone.
pub fn singleton_classes(students: &[Student]) -> (r: Vec<Class>)
    ensures
        r@.len() == students@.len(),
        forall|i: int|
            0 <= i < r@.len() ==> (#[trigger] r@[i]).id == i && r@[i].students@.len() == 1
                && same_student(r@[i].students@[0], students@[i]),
{
    let mut out: Vec<Class> = Vec::new();
    let mut i: usize = 0;
    while i < students.len()
        invariant
            i <= students@.len(),
            out@.len() == i,
            forall|j: int|
                0 <= j < i ==> (#[trigger] out@[j]).id == j && out@[j].students@.len() == 1
                    && same_student(out@[j].students@[0], students@[j]),
        decreases students@.len() - i,
    {
        let mut v: Vec<Student> = Vec::new();
        v.push(students[i].duplicate());
        out.push(Class { id: i, students: v });
        i = i + 1;
    }
    out
}

/// Starting temperature of search instance `index`:
/// `initial_temperature + index * temperature_diversity_delta`, capped.
pub fn instance_temperature(params: &OptimizationParams, index: usize) -> (r: u64)
    ensures
        r == capped_u64(
            params.initial_temperature + index as int * params.temperature_diversity_delta,
        ),
{
    proof {
        assert(index as int * params.temperature_diversity_delta as int <= u64::MAX as int
            * u64::MAX as int) by (nonlinear_arith)
            requires index <= u64::MAX, params.temperature_diversity_delta <= u64::MAX;
    }
    let t: u128 = params.initial_temperature as u128 + (index as u128) * (
    params.temperature_diversity_delta as u128);
    if t > u64::MAX as u128 {
        u64::MAX
    } else {
        t as u64
    }
}

/// Search instance `index`: the greedy starting division and its own
/// starting temperature.
pub fn start_instance(
    students: &[Student],
    num_classes: usize,
    subjects_count: usize,
    iterations: usize,
    index: usize,
    params: &OptimizationParams,
) -> (r: Annealer)
    requires
        num_classes > 0,
    ensures
        r.inv(students@),
        r.current.num_classes() == num_classes,
        r.current.subjects_count == subjects_count,
        r.params == *params,
        r.max_iterations == iterations,
        exists|order: Seq<usize>, trace: Seq<Seq<usize>>|
            #[trigger] seeded_by(students@, num_classes as int, order, trace, r.current.assignments@),
        r.best.assignments@ == r.current.assignments@,
        r.best_cost == r.current_cost,
        r.iterations_left == (if can_move(r.current.assignments@) {
            iterations
        } else {
            0
        }),
        r.temperature == r.start_temperature,
        r.start_temperature == ({
            let t = capped_u64(
                params.initial_temperature + index as int * params.temperature_diversity_delta,
            );
            if students@.len() > 2000 {
                capped_u64(t * 3)
            } else if students@.len() > 1000 {
                capped_u64(t * 2)
            } else {
                t
            }
        }),
        r.accept_count == 0,
        r.iterations_since_improvement == 0,
        !r.found_good,
{
    let initial = create_initial_solution(students, num_classes, subjects_count);
    let t = instance_temperature(params, index);
    Annealer::new(initial, students, iterations, t, params)
}

/// The first of the candidates with the lowest cost.
pub fn best_solution(candidates: Vec<Solution>, params: &OptimizationParams) -> (r: Solution)
    requires
        candidates@.len() > 0,
        forall|i: int| 0 <= i < candidates@.len() ==> (#[trigger] candidates@[i]).bounded(),
    ensures
        exists|b: int|
            0 <= b < candidates@.len() && r == candidates@[b] && (forall|j: int|
                0 <= j < candidates@.len() ==> capped(
                    cost_of(r.class_stats@, r.subjects_count as int, *params),
                ) <= capped(
                    cost_of(
                        (#[trigger] candidates@[j]).class_stats@,
                        candidates@[j].subjects_count as int,
                        *params,
                    ),
                )) && (forall|j: int|
                0 <= j < b ==> capped(cost_of(r.class_stats@, r.subjects_count as int, *params))
                    < capped(
                    cost_of(
                        (#[trigger] candidates@[j]).class_stats@,
                        candidates@[j].subjects_count as int,
                        *params,
                    ),
                )),
{
    let mut candidates = candidates;
    let ghost c = candidates@;
    let mut best: usize = 0;
    let mut best_cost = candidates[0].calculate_cost(params);
    let mut i: usize = 1;
    while i < candidates.len()
        invariant
            candidates@ == c,
            1 <= i <= c.len(),
            best < i,
            forall|j: int| 0 <= j < c.len() ==> (#[trigger] c[j]).bounded(),
            best_cost == capped(cost_of(c[best as int].class_stats@, c[best as int].subjects_count as int, *params)),
            forall|j: int|
                0 <= j < i ==> best_cost <= capped(
                    cost_of((#[trigger] c[j]).class_stats@, c[j].subjects_count as int, *params),
                ),
            forall|j: int|
                0 <= j < best ==> best_cost < capped(
                    cost_of((#[trigger] c[j]).class_stats@, c[j].subjects_count as int, *params),
                ),
        decreases c.len() - i,
    {
        let cost = candidates[i].calculate_cost(params);
        if cost < best_cost {
            best = i;
            best_cost = cost;
        }
        i = i + 1;
    }
    candidates.swap_remove(best)
}

} // verus!
