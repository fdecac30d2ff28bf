use vstd::prelude::*;
use crate::model::{Gender, Student, subject_score, male_of, female_of};

verus! {

/// Sum of `f` over the students among the first `n` whose class is `g`.
pub open spec fn group_sum(
    pop: Seq<Student>,
    a: Seq<usize>,
    g: int,
    f: spec_fn(Student) -> int,
    n: int,
) -> int
    decreases n,
{
    if n <= 0 {
        0
    } else {
        group_sum(pop, a, g, f, n - 1) + if a[n - 1] as int == g {
            f(pop[n - 1])
        } else {
            0
        }
    }
}

pub open spec fn total_of() -> spec_fn(Student) -> int {
    |s: Student| s.total_score as int
}

pub open spec fn one_of() -> spec_fn(Student) -> int {
    |s: Student| 1int
}

pub open spec fn male_count_of() -> spec_fn(Student) -> int {
    |s: Student| male_of(s)
}

pub open spec fn female_count_of() -> spec_fn(Student) -> int {
    |s: Student| female_of(s)
}

pub open spec fn subject_of(k: int) -> spec_fn(Student) -> int {
    |s: Student| subject_score(s, k)
}

/// Moving student `i` to class `h` changes the sums of its old and new class
/// by its own contribution and leaves every other class alone.
pub proof fn lemma_group_sum_update(
    pop: Seq<Student>,
    a: Seq<usize>,
    i: int,
    h: usize,
    g: int,
    f: spec_fn(Student) -> int,
    n: int,
)
    requires
        0 <= i < a.len(),
        0 <= n <= a.len(),
    ensures
        group_sum(pop, a.update(i, h), g, f, n) == group_sum(pop, a, g, f, n) - (if i < n
            && a[i] as int == g {
            f(pop[i])
        } else {
            0
        }) + (if i < n && h as int == g {
            f(pop[i])
        } else {
            0
        }),
    decreases n,
{
    if n > 0 {
        lemma_group_sum_update(pop, a, i, h, g, f, n - 1);
    }
}

/// A sum of values in `[0, b]` over `n` students lies in `[0, n * b]`.
pub proof fn lemma_group_sum_bounds(
    pop: Seq<Student>,
    a: Seq<usize>,
    g: int,
    f: spec_fn(Student) -> int,
    n: int,
    b: int,
)
    requires
        0 <= n,
        0 <= b,
        forall|s: Student| 0 <= #[trigger] f(s) <= b,
    ensures
        0 <= group_sum(pop, a, g, f, n) <= n * b,
    decreases n,
{
    if n > 0 {
        lemma_group_sum_bounds(pop, a, g, f, n - 1, b);
        assert((n - 1) * b + b == n * b) by (nonlinear_arith);
    }
}

/// A sum of values in `[0, b]` is at most `b` times the number of members.
pub proof fn lemma_group_sum_by_count(
    pop: Seq<Student>,
    a: Seq<usize>,
    g: int,
    f: spec_fn(Student) -> int,
    n: int,
    b: int,
)
    requires
        0 <= n,
        0 <= b,
        forall|s: Student| 0 <= #[trigger] f(s) <= b,
    ensures
        group_sum(pop, a, g, f, n) <= b * group_sum(pop, a, g, one_of(), n),
    decreases n,
{
    if n > 0 {
        lemma_group_sum_by_count(pop, a, g, f, n - 1, b);
        let c = group_sum(pop, a, g, one_of(), n - 1);
        assert(b * c + b == b * (c + 1)) by (nonlinear_arith);
    }
}

/// With nobody assigned to class `g`, its sums are zero.
pub proof fn lemma_group_sum_empty(
    pop: Seq<Student>,
    a: Seq<usize>,
    g: int,
    f: spec_fn(Student) -> int,
    n: int,
)
    requires
        0 <= n <= a.len(),
        forall|i: int| 0 <= i < n ==> a[i] as int != g,
    ensures
        group_sum(pop, a, g, f, n) == 0,
    decreases n,
{
    if n > 0 {
        lemma_group_sum_empty(pop, a, g, f, n - 1);
    }
}

/// Running aggregates of one class: sums of total and subject scores and the
/// member counts by gender.
#[derive(Debug)]
pub struct CachedClassStats {
    pub total_sum: u128,
    pub student_count: usize,
    pub male_count: usize,
    pub female_count: usize,
    pub subject_sums: Vec<u128>,
}

impl CachedClassStats {
    /// The aggregates equal those of the current members of class `g`,
    /// computed from scratch over the whole population.
    pub open spec fn matches(
        &self,
        pop: Seq<Student>,
        a: Seq<usize>,
        g: int,
        subjects_count: int,
    ) -> bool {
        let n = pop.len() as int;
        &&& self.total_sum == group_sum(pop, a, g, total_of(), n)
        &&& self.student_count == group_sum(pop, a, g, one_of(), n)
        &&& self.male_count == group_sum(pop, a, g, male_count_of(), n)
        &&& self.female_count == group_sum(pop, a, g, female_count_of(), n)
        &&& self.subject_sums@.len() == subjects_count
        &&& forall|k: int|
            0 <= k < subjects_count ==> #[trigger] self.subject_sums@[k] == group_sum(
                pop,
                a,
                g,
                subject_of(k),
                n,
            )
    }

    /// Empty aggregates for `subjects_count` subjects.
    pub fn new(subjects_count: usize) -> (r: CachedClassStats)
        ensures
            r.total_sum == 0,
            r.student_count == 0,
            r.male_count == 0,
            r.female_count == 0,
            r.subject_sums@ == Seq::new(subjects_count as nat, |k: int| 0u128),
    {
        let mut sums: Vec<u128> = Vec::new();
        let mut k: usize = 0;
        while k < subjects_count
            invariant
                k <= subjects_count,
                sums@ == Seq::new(k as nat, |j: int| 0u128),
            decreases subjects_count - k,
        {
            sums.push(0);
            k = k + 1;
            assert(sums@ =~= Seq::new(k as nat, |j: int| 0u128));
        }
        CachedClassStats {
            total_sum: 0,
            student_count: 0,
            male_count: 0,
            female_count: 0,
            subject_sums: sums,
        }
    }

    /// Adds one student's contribution.
    pub fn add(&mut self, s: &Student)
        requires
            old(self).total_sum + s.total_score <= u128::MAX,
            old(self).student_count < usize::MAX,
            old(self).male_count + male_of(*s) <= usize::MAX,
            old(self).female_count + female_of(*s) <= usize::MAX,
            forall|k: int|
                0 <= k < old(self).subject_sums@.len() ==> old(self).subject_sums@[k]
                    + subject_score(*s, k) <= u128::MAX,
        ensures
            final(self).total_sum == old(self).total_sum + s.total_score,
            final(self).student_count == old(self).student_count + 1,
            final(self).male_count == old(self).male_count + male_of(*s),
            final(self).female_count == old(self).female_count + female_of(*s),
            final(self).subject_sums@.len() == old(self).subject_sums@.len(),
            forall|k: int|
                0 <= k < old(self).subject_sums@.len() ==> #[trigger] final(self).subject_sums@[k]
                    == old(self).subject_sums@[k] + subject_score(*s, k),
    {
        self.total_sum = self.total_sum + s.total_score as u128;
        self.student_count = self.student_count + 1;
        match s.gender {
            Gender::Male => {
                self.male_count = self.male_count + 1;
            },
            Gender::Female => {
                self.female_count = self.female_count + 1;
            },
        }
        let n = self.subject_sums.len();
        let mut k: usize = 0;
        while k < n
            invariant
                self.total_sum == old(self).total_sum + s.total_score,
                self.student_count == old(self).student_count + 1,
                self.male_count == old(self).male_count + male_of(*s),
                self.female_count == old(self).female_count + female_of(*s),
                n == old(self).subject_sums@.len(),
                self.subject_sums@.len() == n,
                0 <= k <= n,
                forall|j: int|
                    0 <= j < n ==> old(self).subject_sums@[j] + subject_score(*s, j) <= u128::MAX,
                forall|j: int|
                    0 <= j < k ==> #[trigger] self.subject_sums@[j] == old(self).subject_sums@[j]
                        + subject_score(*s, j),
                forall|j: int| k <= j < n ==> #[trigger] self.subject_sums@[j] == old(self).subject_sums@[j],
            decreases n - k,
        {
            let add: u128 = if k < s.scores.len() {
                s.scores[k] as u128
            } else {
                0
            };
            assert(self.subject_sums@[k as int] == old(self).subject_sums@[k as int]);
            assert(add == subject_score(*s, k as int));
            let v = self.subject_sums[k] + add;
            self.subject_sums.set(k, v);
            k = k + 1;
        }
    }

    /// Removes one student's contribution.
    pub fn remove(&mut self, s: &Student)
        requires
            old(self).total_sum >= s.total_score,
            old(self).student_count >= 1,
            old(self).male_count >= male_of(*s),
            old(self).female_count >= female_of(*s),
            forall|k: int|
                0 <= k < old(self).subject_sums@.len() ==> old(self).subject_sums@[k]
                    >= subject_score(*s, k),
        ensures
            final(self).total_sum == old(self).total_sum - s.total_score,
            final(self).student_count == old(self).student_count - 1,
            final(self).male_count == old(self).male_count - male_of(*s),
            final(self).female_count == old(self).female_count - female_of(*s),
            final(self).subject_sums@.len() == old(self).subject_sums@.len(),
            forall|k: int|
                0 <= k < old(self).subject_sums@.len() ==> #[trigger] final(self).subject_sums@[k]
                    == old(self).subject_sums@[k] - subject_score(*s, k),
    {
        self.total_sum = self.total_sum - s.total_score as u128;
        self.student_count = self.student_count - 1;
        match s.gender {
            Gender::Male => {
                self.male_count = self.male_count - 1;
            },
            Gender::Female => {
                self.female_count = self.female_count - 1;
            },
        }
        let n = self.subject_sums.len();
        let mut k: usize = 0;
        while k < n
            invariant
                self.total_sum == old(self).total_sum - s.total_score,
                self.student_count == old(self).student_count - 1,
                self.male_count == old(self).male_count - male_of(*s),
                self.female_count == old(self).female_count - female_of(*s),
                n == old(self).subject_sums@.len(),
                self.subject_sums@.len() == n,
                0 <= k <= n,
                forall|j: int|
                    0 <= j < n ==> old(self).subject_sums@[j] >= subject_score(*s, j),
                forall|j: int|
                    0 <= j < k ==> #[trigger] self.subject_sums@[j] == old(self).subject_sums@[j]
                        - subject_score(*s, j),
                forall|j: int| k <= j < n ==> #[trigger] self.subject_sums@[j] == old(self).subject_sums@[j],
            decreases n - k,
        {
            let sub: u128 = if k < s.scores.len() {
                s.scores[k] as u128
            } else {
                0
            };
            assert(self.subject_sums@[k as int] == old(self).subject_sums@[k as int]);
            assert(sub == subject_score(*s, k as int));
            let v = self.subject_sums[k] - sub;
            self.subject_sums.set(k, v);
            k = k + 1;
        }
    }
}

/// Every sum of class `g` after moving student `i` to class `to`, in terms
/// of the sums before, and the bounds that keep the new sums in range.
pub proof fn lemma_move_sums(pop: Seq<Student>, a: Seq<usize>, i: int, to: usize, g: int, m: int)
    requires
        0 <= i < a.len(),
        a.len() == pop.len(),
        pop.len() <= usize::MAX,
    ensures
        ({
            let n = pop.len() as int;
            let a2 = a.update(i, to);
            let out = if a[i] as int == g { 1int } else { 0int };
            let inc = if to as int == g { 1int } else { 0int };
            &&& group_sum(pop, a2, g, total_of(), n) == group_sum(pop, a, g, total_of(), n)
                - out * pop[i].total_score + inc * pop[i].total_score
            &&& group_sum(pop, a2, g, one_of(), n) == group_sum(pop, a, g, one_of(), n) - out + inc
            &&& group_sum(pop, a2, g, male_count_of(), n) == group_sum(pop, a, g, male_count_of(), n)
                - out * male_of(pop[i]) + inc * male_of(pop[i])
            &&& group_sum(pop, a2, g, female_count_of(), n) == group_sum(pop, a, g, female_count_of(), n)
                - out * female_of(pop[i]) + inc * female_of(pop[i])
            &&& forall|k: int| 0 <= k < m ==> #[trigger] group_sum(pop, a2, g, subject_of(k), n)
                == group_sum(pop, a, g, subject_of(k), n) - out * subject_score(pop[i], k) + inc
                * subject_score(pop[i], k)
            &&& 0 <= group_sum(pop, a2, g, total_of(), n) <= u128::MAX
            &&& 0 <= group_sum(pop, a2, g, one_of(), n) <= usize::MAX
            &&& 0 <= group_sum(pop, a2, g, male_count_of(), n) <= usize::MAX
            &&& 0 <= group_sum(pop, a2, g, female_count_of(), n) <= usize::MAX
            &&& forall|k: int| 0 <= k < m ==> 0 <= #[trigger] group_sum(pop, a2, g, subject_of(k), n)
                <= u128::MAX
        }),
{
    let n = pop.len() as int;
    let a2 = a.update(i, to);
    lemma_group_sum_update(pop, a, i, to, g, total_of(), n);
    lemma_group_sum_update(pop, a, i, to, g, one_of(), n);
    lemma_group_sum_update(pop, a, i, to, g, male_count_of(), n);
    lemma_group_sum_update(pop, a, i, to, g, female_count_of(), n);
    let big: int = u32::MAX as int;
    assert(n * big <= u128::MAX) by (nonlinear_arith)
        requires 0 <= n <= usize::MAX, big == u32::MAX;
    lemma_group_sum_bounds(pop, a2, g, total_of(), n, big);
    lemma_group_sum_bounds(pop, a2, g, one_of(), n, 1);
    lemma_group_sum_bounds(pop, a2, g, male_count_of(), n, 1);
    lemma_group_sum_bounds(pop, a2, g, female_count_of(), n, 1);
    assert forall|k: int| 0 <= k < m implies #[trigger] group_sum(pop, a2, g, subject_of(k), n)
        == group_sum(pop, a, g, subject_of(k), n) - (if a[i] as int == g { 1int } else { 0int })
        * subject_score(pop[i], k) + (if to as int == g { 1int } else { 0int }) * subject_score(pop[i], k)
        && 0 <= group_sum(pop, a2, g, subject_of(k), n) <= u128::MAX by {
        lemma_group_sum_update(pop, a, i, to, g, subject_of(k), n);
        lemma_group_sum_bounds(pop, a2, g, subject_of(k), n, big);
    }
}

/// A division in progress: the class of each student (or the number of
/// classes for a student not yet placed) and the aggregates of each class.
#[derive(Debug)]
pub struct Solution {
    pub assignments: Vec<usize>,
    pub class_stats: Vec<CachedClassStats>,
    pub subjects_count: usize,
}

impl Solution {
    pub open spec fn num_classes(&self) -> int {
        self.class_stats@.len() as int
    }

    /// Each student is placed in at most one class, and each class's cached
    /// aggregates equal those recomputed from its current members.
    pub open spec fn wf(&self, pop: Seq<Student>) -> bool {
        &&& self.assignments@.len() == pop.len()
        &&& forall|i: int|
            0 <= i < pop.len() ==> #[trigger] self.assignments@[i] <= self.num_classes()
        &&& forall|g: int|
            0 <= g < self.num_classes() ==> #[trigger] self.class_stats@[g].matches(
                pop,
                self.assignments@,
                g,
                self.subjects_count as int,
            )
    }

    /// Every student is placed in a class.
    pub open spec fn complete(&self) -> bool {
        forall|i: int|
            0 <= i < self.assignments@.len() ==> #[trigger] self.assignments@[i] < self.num_classes()
    }

    /// A division of `pop` into `num_classes` classes with nobody placed yet.
    pub fn new(pop: &[Student], num_classes: usize, subjects_count: usize) -> (r: Solution)
        ensures
            r.wf(pop@),
            r.num_classes() == num_classes,
            r.subjects_count == subjects_count,
            r.assignments@ == Seq::new(pop@.len(), |i: int| num_classes),
    {
        let n = pop.len();
        let mut assignments: Vec<usize> = Vec::new();
        let mut i: usize = 0;
        while i < n
            invariant
                n == pop@.len(),
                i <= n,
                assignments@ == Seq::new(i as nat, |j: int| num_classes),
            decreases n - i,
        {
            assignments.push(num_classes);
            i = i + 1;
            assert(assignments@ =~= Seq::new(i as nat, |j: int| num_classes));
        }
        let mut class_stats: Vec<CachedClassStats> = Vec::new();
        let mut g: usize = 0;
        while g < num_classes
            invariant
                g <= num_classes,
                class_stats@.len() == g,
                assignments@ == Seq::new(n as nat, |j: int| num_classes),
                n == pop@.len(),
                forall|h: int|
                    0 <= h < g ==> #[trigger] class_stats@[h].matches(
                        pop@,
                        assignments@,
                        h,
                        subjects_count as int,
                    ),
            decreases num_classes - g,
        {
            let st = CachedClassStats::new(subjects_count);
            proof {
                let a = assignments@;
                let gi = g as int;
                lemma_group_sum_empty(pop@, a, gi, total_of(), n as int);
                lemma_group_sum_empty(pop@, a, gi, one_of(), n as int);
                lemma_group_sum_empty(pop@, a, gi, male_count_of(), n as int);
                lemma_group_sum_empty(pop@, a, gi, female_count_of(), n as int);
                assert forall|k: int| 0 <= k < subjects_count implies #[trigger] st.subject_sums@[k]
                    == group_sum(pop@, a, gi, subject_of(k), n as int) by {
                    lemma_group_sum_empty(pop@, a, gi, subject_of(k), n as int);
                }
            }
            class_stats.push(st);
            g = g + 1;
        }
        Solution { assignments, class_stats, subjects_count }
    }

    /// Moves student `i` from its class to class `to`, updating the
    /// aggregates of both classes.
    fn move_student(&mut self, i: usize, to: usize, pop: &[Student])
        requires
            old(self).wf(pop@),
            i < pop@.len(),
            to < old(self).num_classes(),
            old(self).assignments@[i as int] < old(self).num_classes(),
            old(self).assignments@[i as int] != to,
        ensures
            final(self).wf(pop@),
            final(self).assignments@ == old(self).assignments@.update(i as int, to),
            final(self).num_classes() == old(self).num_classes(),
            final(self).subjects_count == old(self).subjects_count,
    {
        let from = self.assignments[i];
        let pop_len = pop.len();
        let ghost a = self.assignments@;
        let ghost a2 = a.update(i as int, to);
        let ghost m = self.subjects_count as int;
        let ghost n = pop@.len() as int;
        let ghost old_stats = self.class_stats@;
        proof {
            lemma_move_sums(pop@, a, i as int, to, from as int, m);
            lemma_move_sums(pop@, a, i as int, to, to as int, m);
            assert(old_stats[from as int].matches(pop@, a, from as int, m));
            assert(old_stats[to as int].matches(pop@, a, to as int, m));
            assert forall|k: int| 0 <= k < m implies old_stats[from as int].subject_sums@[k]
                >= subject_score(pop@[i as int], k) by {
                assert(old_stats[from as int].subject_sums@[k] == group_sum(pop@, a, from as int, subject_of(k), n));
                assert(0 <= group_sum(pop@, a2, from as int, subject_of(k), n));
            }
            assert forall|k: int| 0 <= k < m implies old_stats[to as int].subject_sums@[k]
                + subject_score(pop@[i as int], k) <= u128::MAX by {
                assert(old_stats[to as int].subject_sums@[k] == group_sum(pop@, a, to as int, subject_of(k), n));
                assert(group_sum(pop@, a2, to as int, subject_of(k), n) <= u128::MAX);
            }
        }
        self.class_stats[from].remove(&pop[i]);
        self.class_stats[to].add(&pop[i]);
        self.assignments.set(i, to);
        proof {
            assert forall|g: int| 0 <= g < self.num_classes() implies #[trigger] self.class_stats@[g].matches(
                pop@,
                a2,
                g,
                m,
            ) by {
                lemma_move_sums(pop@, a, i as int, to, g, m);
                assert(old_stats[g].matches(pop@, a, g, m));
                if g == from as int {
                    assert forall|k: int| 0 <= k < m implies #[trigger] self.class_stats@[g].subject_sums@[k]
                        == group_sum(pop@, a2, g, subject_of(k), n) by {
                        assert(group_sum(pop@, a2, g, subject_of(k), n) == group_sum(pop@, a, g, subject_of(k), n)
                            - 1 * subject_score(pop@[i as int], k) + 0 * subject_score(pop@[i as int], k));
                    }
                } else if g == to as int {
                    assert forall|k: int| 0 <= k < m implies #[trigger] self.class_stats@[g].subject_sums@[k]
                        == group_sum(pop@, a2, g, subject_of(k), n) by {
                        assert(group_sum(pop@, a2, g, subject_of(k), n) == group_sum(pop@, a, g, subject_of(k), n)
                            - 0 * subject_score(pop@[i as int], k) + 1 * subject_score(pop@[i as int], k));
                    }
                } else {
                    assert forall|k: int| 0 <= k < m implies #[trigger] self.class_stats@[g].subject_sums@[k]
                        == group_sum(pop@, a2, g, subject_of(k), n) by {
                        assert(group_sum(pop@, a2, g, subject_of(k), n) == group_sum(pop@, a, g, subject_of(k), n)
                            - 0 * subject_score(pop@[i as int], k) + 0 * subject_score(pop@[i as int], k));
                    }
                }
            }
        }
    }

    /// Places student `i`, not yet placed, in class `class_id`.
    pub fn assign_student(&mut self, i: usize, class_id: usize, pop: &[Student])
        requires
            old(self).wf(pop@),
            i < pop@.len(),
            class_id < old(self).num_classes(),
            old(self).assignments@[i as int] == old(self).num_classes(),
        ensures
            final(self).wf(pop@),
            final(self).assignments@ == old(self).assignments@.update(i as int, class_id),
            final(self).num_classes() == old(self).num_classes(),
            final(self).subjects_count == old(self).subjects_count,
    {
        let pop_len = pop.len();
        let ghost a = self.assignments@;
        let ghost a2 = a.update(i as int, class_id);
        let ghost m = self.subjects_count as int;
        let ghost n = pop@.len() as int;
        let ghost old_stats = self.class_stats@;
        proof {
            lemma_move_sums(pop@, a, i as int, class_id, class_id as int, m);
            assert(old_stats[class_id as int].matches(pop@, a, class_id as int, m));
            assert forall|k: int| 0 <= k < m implies old_stats[class_id as int].subject_sums@[k]
                + subject_score(pop@[i as int], k) <= u128::MAX by {
                assert(old_stats[class_id as int].subject_sums@[k] == group_sum(pop@, a, class_id as int, subject_of(k), n));
                assert(group_sum(pop@, a2, class_id as int, subject_of(k), n) <= u128::MAX);
            }
        }
        self.class_stats[class_id].add(&pop[i]);
        self.assignments.set(i, class_id);
        proof {
            assert forall|g: int| 0 <= g < self.num_classes() implies #[trigger] self.class_stats@[g].matches(
                pop@,
                a2,
                g,
                m,
            ) by {
                lemma_move_sums(pop@, a, i as int, class_id, g, m);
                assert(old_stats[g].matches(pop@, a, g, m));
                if g == class_id as int {
                    assert forall|k: int| 0 <= k < m implies #[trigger] self.class_stats@[g].subject_sums@[k]
                        == group_sum(pop@, a2, g, subject_of(k), n) by {
                        assert(group_sum(pop@, a2, g, subject_of(k), n) == group_sum(pop@, a, g, subject_of(k), n)
                            - 0 * subject_score(pop@[i as int], k) + 1 * subject_score(pop@[i as int], k));
                    }
                } else {
                    assert forall|k: int| 0 <= k < m implies #[trigger] self.class_stats@[g].subject_sums@[k]
                        == group_sum(pop@, a2, g, subject_of(k), n) by {
                        assert(group_sum(pop@, a2, g, subject_of(k), n) == group_sum(pop@, a, g, subject_of(k), n)
                            - 0 * subject_score(pop@[i as int], k) + 0 * subject_score(pop@[i as int], k));
                    }
                }
            }
        }
    }

    /// Exchanges the classes of students `i` and `j`; nothing changes when
    /// they already share a class.
    pub fn swap_students(&mut self, i: usize, j: usize, pop: &[Student])
        requires
            old(self).wf(pop@),
            old(self).complete(),
            i < pop@.len(),
            j < pop@.len(),
        ensures
            final(self).wf(pop@),
            final(self).complete(),
            final(self).assignments@ == swapped(old(self).assignments@, i as int, j as int),
            final(self).num_classes() == old(self).num_classes(),
            final(self).subjects_count == old(self).subjects_count,
    {
        let class1 = self.assignments[i];
        let class2 = self.assignments[j];
        if class1 == class2 {
            return;
        }
        self.move_student(i, class2, pop);
        self.move_student(j, class1, pop);
    }
}

/// Exchanging the same two students twice gives back the assignment.
pub proof fn lemma_swapped_twice(a: Seq<usize>, i: int, j: int)
    requires
        0 <= i < a.len(),
        0 <= j < a.len(),
    ensures
        swapped(swapped(a, i, j), i, j) == a,
{
    if a[i] != a[j] {
        let b = swapped(a, i, j);
        assert(b[i] == a[j]);
        assert(b[j] == a[i]);
        assert(swapped(b, i, j) =~= a);
    }
}

/// The assignment after exchanging the classes of `i` and `j`.
pub open spec fn swapped(a: Seq<usize>, i: int, j: int) -> Seq<usize> {
    if a[i] == a[j] {
        a
    } else {
        a.update(i, a[j]).update(j, a[i])
    }
}

/// Two lists of class aggregates hold the same numbers.
pub open spec fn same_stats(s1: Seq<CachedClassStats>, s2: Seq<CachedClassStats>) -> bool {
    &&& s1.len() == s2.len()
    &&& forall|g: int|
        0 <= g < s1.len() ==> {
            &&& (#[trigger] s1[g]).total_sum == s2[g].total_sum
            &&& s1[g].student_count == s2[g].student_count
            &&& s1[g].male_count == s2[g].male_count
            &&& s1[g].female_count == s2[g].female_count
            &&& s1[g].subject_sums@ == s2[g].subject_sums@
        }
}

/// The aggregates of a well-formed division are determined by its
/// assignment: two such divisions with the same assignment have the same
/// aggregates.
pub proof fn lemma_wf_same_stats(s1: Solution, s2: Solution, pop: Seq<Student>)
    requires
        s1.wf(pop),
        s2.wf(pop),
        s1.assignments@ == s2.assignments@,
        s1.num_classes() == s2.num_classes(),
        s1.subjects_count == s2.subjects_count,
    ensures
        same_stats(s1.class_stats@, s2.class_stats@),
{
    let m = s1.subjects_count as int;
    assert forall|g: int| 0 <= g < s1.class_stats@.len() implies {
        &&& (#[trigger] s1.class_stats@[g]).total_sum == s2.class_stats@[g].total_sum
        &&& s1.class_stats@[g].student_count == s2.class_stats@[g].student_count
        &&& s1.class_stats@[g].male_count == s2.class_stats@[g].male_count
        &&& s1.class_stats@[g].female_count == s2.class_stats@[g].female_count
        &&& s1.class_stats@[g].subject_sums@ == s2.class_stats@[g].subject_sums@
    } by {
        assert(s1.class_stats@[g].matches(pop, s1.assignments@, g, m));
        assert(s2.class_stats@[g].matches(pop, s2.assignments@, g, m));
        assert(s1.class_stats@[g].subject_sums@ =~= s2.class_stats@[g].subject_sums@);
    }
}

impl CachedClassStats {
    /// The aggregates of class `g` recounted from scratch over the students
    /// that `assignments` places in it.
    pub fn recount(
        pop: &[Student],
        assignments: &Vec<usize>,
        g: usize,
        subjects_count: usize,
    ) -> (r: CachedClassStats)
        requires
            assignments@.len() == pop@.len(),
        ensures
            r.matches(pop@, assignments@, g as int, subjects_count as int),
    {
        let n = pop.len();
        let ghost a = assignments@;
        let mut st = CachedClassStats::new(subjects_count);
        let mut i: usize = 0;
        while i < n
            invariant
                n == pop@.len(),
                a == assignments@,
                a.len() == n,
                i <= n,
                st.total_sum == group_sum(pop@, a, g as int, total_of(), i as int),
                st.student_count == group_sum(pop@, a, g as int, one_of(), i as int),
                st.male_count == group_sum(pop@, a, g as int, male_count_of(), i as int),
                st.female_count == group_sum(pop@, a, g as int, female_count_of(), i as int),
                st.subject_sums@.len() == subjects_count,
                forall|k: int|
                    0 <= k < subjects_count ==> #[trigger] st.subject_sums@[k] == group_sum(
                        pop@,
                        a,
                        g as int,
                        subject_of(k),
                        i as int,
                    ),
            decreases n - i,
        {
            if assignments[i] == g {
                proof {
                    let ii = i as int + 1;
                    let big: int = u32::MAX as int;
                    assert(ii * big <= u128::MAX) by (nonlinear_arith)
                        requires 0 <= ii <= usize::MAX, big == u32::MAX;
                    lemma_group_sum_bounds(pop@, a, g as int, total_of(), ii, big);
                    lemma_group_sum_bounds(pop@, a, g as int, one_of(), ii, 1);
                    lemma_group_sum_bounds(pop@, a, g as int, male_count_of(), ii, 1);
                    lemma_group_sum_bounds(pop@, a, g as int, female_count_of(), ii, 1);
                    assert forall|k: int| 0 <= k < st.subject_sums@.len() implies st.subject_sums@[k]
                        + subject_score(pop@[i as int], k) <= u128::MAX by {
                        lemma_group_sum_bounds(pop@, a, g as int, subject_of(k), ii, big);
                    }
                }
                st.add(&pop[i]);
            }
            i = i + 1;
        }
        st
    }

    /// A copy holding the same numbers.
    pub fn duplicate(&self) -> (r: CachedClassStats)
        ensures
            r.total_sum == self.total_sum,
            r.student_count == self.student_count,
            r.male_count == self.male_count,
            r.female_count == self.female_count,
            r.subject_sums@ == self.subject_sums@,
    {
        CachedClassStats {
            total_sum: self.total_sum,
            student_count: self.student_count,
            male_count: self.male_count,
            female_count: self.female_count,
            subject_sums: copy_u128s(&self.subject_sums),
        }
    }
}

fn copy_u128s(v: &Vec<u128>) -> (r: Vec<u128>)
    ensures
        r@ == v@,
{
    let mut out: Vec<u128> = Vec::new();
    let mut i: usize = 0;
    while i < v.len()
        invariant
            i <= v@.len(),
            out@ == v@.take(i as int),
        decreases v@.len() - i,
    {
        out.push(v[i]);
        i = i + 1;
        assert(out@ =~= v@.take(i as int));
    }
    assert(out@ =~= v@);
    out
}

impl Solution {
    /// A deep copy: the same assignment and the same aggregates.
    pub fn duplicate(&self) -> (r: Solution)
        ensures
            r.assignments@ == self.assignments@,
            same_stats(r.class_stats@, self.class_stats@),
            r.subjects_count == self.subjects_count,
    {
        let mut assignments: Vec<usize> = Vec::new();
        let mut i: usize = 0;
        while i < self.assignments.len()
            invariant
                i <= self.assignments@.len(),
                assignments@ == self.assignments@.take(i as int),
            decreases self.assignments@.len() - i,
        {
            assignments.push(self.assignments[i]);
            i = i + 1;
            assert(assignments@ =~= self.assignments@.take(i as int));
        }
        assert(assignments@ =~= self.assignments@);
        let mut class_stats: Vec<CachedClassStats> = Vec::new();
        let mut g: usize = 0;
        while g < self.class_stats.len()
            invariant
                g <= self.class_stats@.len(),
                class_stats@.len() == g,
                same_stats(class_stats@, self.class_stats@.take(g as int)),
            decreases self.class_stats@.len() - g,
        {
            let c = self.class_stats[g].duplicate();
            class_stats.push(c);
            g = g + 1;
        }
        assert(self.class_stats@.take(g as int) =~= self.class_stats@);
        Solution { assignments, class_stats, subjects_count: self.subjects_count }
    }

    /// Well-formedness carries over to a division with the same assignment
    /// and the same aggregates.
    pub proof fn lemma_wf_transfer(self, other: Solution, pop: Seq<Student>)
        requires
            self.wf(pop),
            other.assignments@ == self.assignments@,
            same_stats(other.class_stats@, self.class_stats@),
            other.subjects_count == self.subjects_count,
        ensures
            other.wf(pop),
            self.complete() ==> other.complete(),
    {
        assert forall|g: int| 0 <= g < other.num_classes() implies #[trigger] other.class_stats@[g].matches(
            pop,
            other.assignments@,
            g,
            other.subjects_count as int,
        ) by {
            assert(self.class_stats@[g].matches(pop, self.assignments@, g, self.subjects_count as int));
        }
    }
}

} // verus!
