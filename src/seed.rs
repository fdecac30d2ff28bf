use vstd::prelude::*;
use rayon::slice::ParallelSliceMut;
use crate::cost::{abs_diff, stats_bounded, lemma_wf_bounded};
use crate::model::{Gender, Student, male_of};
use crate::solution::{
    CachedClassStats, Solution, group_sum, male_count_of, one_of, total_of,
};

verus! {

/// Weight of the male-ratio imbalance when seeding, in hundredths of a point
/// per unit of ratio (ten thousand points).
pub const SEED_GENDER_BIAS: u128 = 1_000_000;

/// Ascending order of sort keys: by the first part, then by the second.
pub open spec fn key_le(a: (u32, usize), b: (u32, usize)) -> bool {
    a.0 < b.0 || (a.0 == b.0 && a.1 <= b.1)
}

/// Relies on rayon's `ParallelSliceMut::par_sort_unstable`: the keys end up in
/// ascending tuple order and are a rearrangement of the keys given.
#[verifier::external_body]
fn sort_keys(v: &mut Vec<(u32, usize)>)
    ensures
        final(v)@.to_multiset() == old(v)@.to_multiset(),
        forall|p: int, q: int|
            0 <= p < q < final(v)@.len() ==> key_le(final(v)@[p], final(v)@[q]),
{
    v.par_sort_unstable();
}

/// Placement score of class `st` for student `s`: the class's total score
/// plus the bias times the distance of the class's male ratio, with `s`
/// added, from one half.
pub open spec fn seed_key(st: CachedClassStats, s: Student) -> int {
    let n1 = st.student_count as int + 1;
    let m1 = st.male_count as int + male_of(s);
    st.total_sum as int + SEED_GENDER_BIAS as int * abs_diff(2 * m1, n1) / (2 * n1)
}

/// `seed_key` of class `g` under assignment `a`, from the class's members.
pub open spec fn placement_score(pop: Seq<Student>, a: Seq<usize>, g: int, s: Student) -> int {
    let n = pop.len() as int;
    let n1 = group_sum(pop, a, g, one_of(), n) + 1;
    let m1 = group_sum(pop, a, g, male_count_of(), n) + male_of(s);
    group_sum(pop, a, g, total_of(), n) + SEED_GENDER_BIAS as int * abs_diff(2 * m1, n1) / (2 * n1)
}

/// `g` is the first of the `k` classes with the smallest placement score for
/// student `s` under assignment `a`.
pub open spec fn greedy_class(pop: Seq<Student>, a: Seq<usize>, k: int, s: Student, g: int) -> bool {
    &&& 0 <= g < k
    &&& forall|h: int|
        0 <= h < k ==> placement_score(pop, a, g, s) <= #[trigger] placement_score(pop, a, h, s)
    &&& forall|h: int|
        0 <= h < g ==> placement_score(pop, a, g, s) < #[trigger] placement_score(pop, a, h, s)
}

/// One seeding step for student `idx`: if not yet placed, it goes to the
/// greedy class; otherwise nothing changes.
pub open spec fn seed_step(pop: Seq<Student>, k: int, before: Seq<usize>, after: Seq<usize>, idx: int) -> bool {
    if before[idx] as int == k {
        &&& after == before.update(idx, after[idx])
        &&& greedy_class(pop, before, k, pop[idx], after[idx] as int)
    } else {
        after == before
    }
}

/// `result` comes from seeding the students in `order` (every student, by
/// descending total score, ties by position) through the assignments of
/// `trace`, starting with nobody placed.
pub open spec fn seeded_by(
    pop: Seq<Student>,
    k: int,
    order: Seq<usize>,
    trace: Seq<Seq<usize>>,
    result: Seq<usize>,
) -> bool {
    let n = pop.len() as int;
    &&& order.len() == n
    &&& forall|p: int| 0 <= p < n ==> #[trigger] order[p] < n
    &&& forall|i: int| 0 <= i < n ==> #[trigger] order.contains(i as usize)
    &&& forall|p: int, q: int|
        0 <= p < q < n ==> pop[#[trigger] order[p] as int].total_score > pop[#[trigger] order[q] as int].total_score
            || (pop[order[p] as int].total_score == pop[order[q] as int].total_score && order[p]
            <= order[q])
    &&& trace.len() == n + 1
    &&& trace[0] == Seq::new(n as nat, |i: int| k as usize)
    &&& trace[n] == result
    &&& forall|p: int| 0 <= p < n ==> seed_step(pop, k, #[trigger] trace[p], trace[p + 1], order[p] as int)
}

/// The first class with the smallest placement score for student `s`.
pub fn choose_class(sol: &Solution, s: &Student) -> (r: usize)
    requires
        sol.num_classes() > 0,
        sol.bounded(),
    ensures
        r < sol.num_classes(),
        forall|g: int|
            0 <= g < sol.num_classes() ==> seed_key(sol.class_stats@[r as int], *s) <= seed_key(
                #[trigger] sol.class_stats@[g],
                *s,
            ),
        forall|g: int|
            0 <= g < r ==> seed_key(sol.class_stats@[r as int], *s) < seed_key(
                #[trigger] sol.class_stats@[g],
                *s,
            ),
{
    let k = sol.class_stats.len();
    let mut best: usize = 0;
    let mut best_key: u128 = placement_key(&sol.class_stats[0], s);
    let mut g: usize = 1;
    while g < k
        invariant
            k == sol.num_classes(),
            sol.bounded(),
            1 <= g <= k,
            best < g,
            best_key == seed_key(sol.class_stats@[best as int], *s),
            forall|h: int|
                0 <= h < g ==> best_key <= seed_key(#[trigger] sol.class_stats@[h], *s),
            forall|h: int|
                0 <= h < best ==> best_key < seed_key(#[trigger] sol.class_stats@[h], *s),
        decreases k - g,
    {
        let key = placement_key(&sol.class_stats[g], s);
        if key < best_key {
            best = g;
            best_key = key;
        }
        g = g + 1;
    }
    best
}

/// `seed_key` of a class, computed.
fn placement_key(st: &CachedClassStats, s: &Student) -> (r: u128)
    requires
        stats_bounded(*st),
    ensures
        r == seed_key(*st, *s),
{
    let n1: u128 = st.student_count as u128 + 1;
    let male: u128 = match s.gender {
        Gender::Male => 1,
        Gender::Female => 0,
    };
    let m1: u128 = st.male_count as u128 + male;
    let d: u128 = if 2 * m1 >= n1 {
        2 * m1 - n1
    } else {
        n1 - 2 * m1
    };
    proof {
        assert(d <= 2 * n1);
        assert(SEED_GENDER_BIAS * d <= SEED_GENDER_BIAS * (2 * n1)) by (nonlinear_arith)
            requires d <= 2 * n1;
        assert(st.total_sum <= u32::MAX as int * st.student_count as int);
        assert(u32::MAX as int * st.student_count as int <= u32::MAX as int * usize::MAX as int)
            by (nonlinear_arith)
            requires st.student_count <= usize::MAX;
        let q = SEED_GENDER_BIAS * d / (2 * n1);
        assert(q <= SEED_GENDER_BIAS) by (nonlinear_arith)
            requires q == SEED_GENDER_BIAS * d / (2 * n1), d <= 2 * n1, n1 > 0;
    }
    st.total_sum + SEED_GENDER_BIAS * d / (2 * n1)
}

/// Every sorted key is the key of the student it names.
proof fn lemma_key_of(orig: Seq<(u32, usize)>, keys: Seq<(u32, usize)>, pop: Seq<Student>, p: int)
    requires
        orig.len() == pop.len(),
        pop.len() <= usize::MAX,
        forall|j: int| 0 <= j < orig.len() ==> (#[trigger] orig[j]) == (
        (u32::MAX - pop[j].total_score) as u32, j as usize),
        keys.to_multiset() == orig.to_multiset(),
        0 <= p < keys.len(),
    ensures
        keys[p].1 < pop.len(),
        keys[p].0 == u32::MAX - pop[keys[p].1 as int].total_score,
{
    broadcast use vstd::seq_lib::group_to_multiset_ensures;

    assert(keys.contains(keys[p]));
    assert(keys.to_multiset().count(keys[p]) > 0);
    assert(orig.contains(keys[p]));
    let j = choose|j: int| 0 <= j < orig.len() && orig[j] == keys[p];
    assert(orig[j] == ((u32::MAX - pop[j].total_score) as u32, j as usize));
}

/// The placement score of a class computed from its cached aggregates equals
/// the one computed from its members.
proof fn lemma_scores_agree(sol: Solution, pop: Seq<Student>, s: Student)
    requires
        sol.wf(pop),
    ensures
        forall|g: int|
            0 <= g < sol.num_classes() ==> seed_key(#[trigger] sol.class_stats@[g], s) == placement_score(
                pop,
                sol.assignments@,
                g,
                s,
            ),
{
    assert forall|g: int| 0 <= g < sol.num_classes() implies seed_key(#[trigger] sol.class_stats@[g], s)
        == placement_score(pop, sol.assignments@, g, s) by {
        assert(sol.class_stats@[g].matches(pop, sol.assignments@, g, sol.subjects_count as int));
    }
}

/// The greedy starting division: students in descending order of total
/// score (ties by position), each placed in the class with the smallest
/// placement score at that moment.
pub fn create_initial_solution(
    students: &[Student],
    num_classes: usize,
    subjects_count: usize,
) -> (r: Solution)
    requires
        num_classes > 0,
    ensures
        r.wf(students@),
        r.complete(),
        r.num_classes() == num_classes,
        r.subjects_count == subjects_count,
        exists|order: Seq<usize>, trace: Seq<Seq<usize>>|
            #[trigger] seeded_by(students@, num_classes as int, order, trace, r.assignments@),
{
    broadcast use vstd::seq_lib::group_to_multiset_ensures;

    let n = students.len();
    let mut sol = Solution::new(students, num_classes, subjects_count);
    let mut keys: Vec<(u32, usize)> = Vec::new();
    let mut i: usize = 0;
    while i < n
        invariant
            n == students@.len(),
            i <= n,
            keys@.len() == i,
            forall|j: int| 0 <= j < i ==> (#[trigger] keys@[j]) == (
            (u32::MAX - students@[j].total_score) as u32, j as usize),
        decreases n - i,
    {
        keys.push((u32::MAX - students[i].total_score, i));
        i = i + 1;
    }
    let ghost orig = keys@;
    sort_keys(&mut keys);
    proof {
        assert(keys@.len() == n) by {
            assert(keys@.to_multiset().len() == orig.to_multiset().len());
        }
        assert forall|p: int| 0 <= p < n implies (#[trigger] keys@[p]).1 < n by {
            assert(keys@.contains(keys@[p]));
            assert(keys@.to_multiset().count(keys@[p]) > 0);
            assert(orig.contains(keys@[p]));
        }
    }
    let ghost order = Seq::new(n as nat, |q: int| keys@[q].1);
    let ghost mut trace: Seq<Seq<usize>> = seq![sol.assignments@];
    let mut p: usize = 0;
    while p < n
        invariant
            n == students@.len(),
            keys@.len() == n,
            order == Seq::new(n as nat, |q: int| keys@[q].1),
            trace.len() == p + 1,
            trace[0] == Seq::new(n as nat, |i: int| num_classes),
            trace[p as int] == sol.assignments@,
            forall|q: int| 0 <= q < p ==> seed_step(students@, num_classes as int, #[trigger] trace[q], trace[q + 1], order[q] as int),
            forall|q: int| 0 <= q < n ==> (#[trigger] keys@[q]).1 < n,
            p <= n,
            num_classes > 0,
            sol.wf(students@),
            sol.num_classes() == num_classes,
            sol.subjects_count == subjects_count,
            forall|q: int| 0 <= q < p ==> sol.assignments@[(#[trigger] keys@[q]).1 as int] < num_classes,
        decreases n - p,
    {
        let idx = keys[p].1;
        let ghost before = sol.assignments@;
        if sol.assignments[idx] == num_classes {
            proof {
                lemma_wf_bounded(sol, students@);
                lemma_scores_agree(sol, students@, students@[idx as int]);
            }
            let best = choose_class(&sol, &students[idx]);
            proof {
                let st = students@[idx as int];
                let k = num_classes as int;
                assert forall|h: int| 0 <= h < k implies placement_score(students@, before, best as int, st)
                    <= #[trigger] placement_score(students@, before, h, st) by {
                    assert(seed_key(sol.class_stats@[h], st) == placement_score(students@, before, h, st));
                    assert(seed_key(sol.class_stats@[best as int], st) == placement_score(students@, before, best as int, st));
                }
                assert forall|h: int| 0 <= h < best implies placement_score(students@, before, best as int, st)
                    < #[trigger] placement_score(students@, before, h, st) by {
                    assert(seed_key(sol.class_stats@[h], st) == placement_score(students@, before, h, st));
                    assert(seed_key(sol.class_stats@[best as int], st) == placement_score(students@, before, best as int, st));
                }
                assert(greedy_class(students@, before, k, st, best as int));
            }
            sol.assign_student(idx, best, students);
            assert(sol.assignments@ == before.update(idx as int, sol.assignments@[idx as int]));
        }
        proof {
            trace = trace.push(sol.assignments@);
            assert(seed_step(students@, num_classes as int, trace[p as int], trace[p + 1], order[p as int] as int));
        }
        p = p + 1;
    }
    proof {
        assert forall|j: int| 0 <= j < sol.assignments@.len() implies #[trigger] sol.assignments@[j]
            < sol.num_classes() by {
            assert(orig[j].1 == j);
            assert(orig.contains(orig[j]));
            assert(keys@.to_multiset().count(orig[j]) > 0);
            assert(keys@.contains(orig[j]));
            let q = choose|q: int| 0 <= q < keys@.len() && keys@[q] == orig[j];
            assert(keys@[q].1 == j);
        }
        assert forall|i: int| 0 <= i < n implies #[trigger] order.contains(i as usize) by {
            assert(orig[i].1 == i);
            assert(orig.contains(orig[i]));
            assert(keys@.to_multiset().count(orig[i]) > 0);
            assert(keys@.contains(orig[i]));
            let q = choose|q: int| 0 <= q < keys@.len() && keys@[q] == orig[i];
            assert(order[q] == i as usize);
        }
        assert forall|a: int, b: int| 0 <= a < b < n implies students@[#[trigger] order[a] as int].total_score
            > students@[#[trigger] order[b] as int].total_score || (students@[order[a] as int].total_score
            == students@[order[b] as int].total_score && order[a] <= order[b]) by {
            assert(key_le(keys@[a], keys@[b]));
            lemma_key_of(orig, keys@, students@, a);
            lemma_key_of(orig, keys@, students@, b);
        }
        assert(seeded_by(students@, num_classes as int, order, trace, sol.assignments@));
    }
    sol
}

} // verus!
