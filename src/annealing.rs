use vstd::prelude::*;
use crate::cost::{capped, cost_of, lemma_cost_same_stats, lemma_wf_bounded};
use crate::model::{Gender, Student};
use crate::params::{OptimizationParams, PPM};
use crate::solution::{Solution, lemma_wf_same_stats, same_stats, swapped};

verus! {

/// Fixed-point scale of an acceptance draw: a draw of `EXP_SCALE` stands for
/// one unit of an exponentially distributed variable.
pub const EXP_SCALE: u128 = 4_294_967_296;

/// Kind of a proposed exchange.
#[derive(Clone, Copy, Debug, PartialEq, Eq, Structural)]
pub enum MoveKind {
    /// Two students of the same gender, preferably male ones.
    SameGender { prefer_male: bool },
    /// One male and one female student.
    CrossGender,
}

/// The random choices of one iteration: the kind of exchange, two raw picks
/// (reduced modulo the size of the group they pick from) and an acceptance
/// draw, an exponentially distributed variable in units of `1 / EXP_SCALE`.
#[derive(Clone, Copy, Debug, PartialEq, Eq, Structural)]
pub struct MoveDraw {
    pub kind: MoveKind,
    pub pick1: u64,
    pub pick2: u64,
    pub acceptance: u64,
}

/// The group that a same-gender exchange picks from, if any has two members.
pub open spec fn same_gender_pool(prefer_male: bool, males: int, females: int) -> Option<bool> {
    if prefer_male && males >= 2 {
        Some(true)
    } else if !prefer_male && females >= 2 {
        Some(false)
    } else if males >= 2 {
        Some(true)
    } else if females >= 2 {
        Some(false)
    } else {
        None
    }
}

/// The pair of students a draw proposes.
pub open spec fn proposal(males: Seq<usize>, females: Seq<usize>, d: MoveDraw) -> Option<(usize, usize)> {
    let cross = if males.len() > 0 && females.len() > 0 {
        Some((males[d.pick1 as int % males.len() as int], females[d.pick2 as int % females.len() as int]))
    } else {
        None
    };
    match d.kind {
        MoveKind::SameGender { prefer_male } => match same_gender_pool(
            prefer_male,
            males.len() as int,
            females.len() as int,
        ) {
            Some(true) => Some(
                (males[d.pick1 as int % males.len() as int], males[d.pick2 as int % males.len() as int]),
            ),
            Some(false) => Some(
                (
                    females[d.pick1 as int % females.len() as int],
                    females[d.pick2 as int % females.len() as int],
                ),
            ),
            None => cross,
        },
        MoveKind::CrossGender => cross,
    }
}

/// Picks the two students of a draw: for a same-gender exchange from the
/// preferred gender, else the other one, else one of each; for a
/// cross-gender exchange one of each. `None` when no such pair exists.
pub fn propose_move(males: &Vec<usize>, females: &Vec<usize>, d: &MoveDraw) -> (r: Option<(usize, usize)>)
    ensures
        r == proposal(males@, females@, *d),
{
    let lm = males.len() as u64;
    let lf = females.len() as u64;
    let cross = if lm > 0 && lf > 0 {
        Some((males[(d.pick1 % lm) as usize], females[(d.pick2 % lf) as usize]))
    } else {
        None
    };
    match d.kind {
        MoveKind::SameGender { prefer_male } => {
            if prefer_male && lm >= 2 || !prefer_male && lm >= 2 && lf < 2 {
                Some((males[(d.pick1 % lm) as usize], males[(d.pick2 % lm) as usize]))
            } else if lf >= 2 {
                Some((females[(d.pick1 % lf) as usize], females[(d.pick2 % lf) as usize]))
            } else if lm >= 2 {
                Some((males[(d.pick1 % lm) as usize], males[(d.pick2 % lm) as usize]))
            } else {
                cross
            }
        },
        MoveKind::CrossGender => cross,
    }
}

/// Whether a move from cost `current` to cost `candidate` is accepted at
/// `temperature` with acceptance draw `e`: always when the cost drops, else
/// when the rise is below `temperature * e / EXP_SCALE`. With `e` drawn from
/// an exponential distribution this accepts a rise `delta` with probability
/// `exp(-delta / temperature)`.
pub open spec fn accepts(current: int, candidate: int, temperature: int, e: int) -> bool {
    candidate < current || candidate - current < temperature * e / EXP_SCALE as int
}

/// Temperature after one cooling step, capped at `u64::MAX`.
pub open spec fn cooled(t: int, rate: int) -> int {
    let x = t * rate / PPM as int;
    if x > u64::MAX {
        u64::MAX as int
    } else {
        x
    }
}

/// What one step did.
#[derive(Clone, Copy, Debug, PartialEq, Eq, Structural)]
pub enum StepOutcome {
    /// No exchange was possible or the two students share a class.
    Skipped,
    /// The exchange was made and kept.
    Accepted { cost: u128 },
    /// The exchange was tried at this cost and undone.
    Rejected { cost: u128 },
}

/// One search instance: the current division and its cost, the best
/// division seen and its cost, the temperature, the reheat bookkeeping and
/// what is left of the iteration budget.
#[derive(Debug)]
pub struct Annealer {
    pub current: Solution,
    pub current_cost: u128,
    pub best: Solution,
    pub best_cost: u128,
    pub temperature: u64,
    pub start_temperature: u64,
    pub accept_count: usize,
    pub iterations_since_improvement: usize,
    pub iterations_left: usize,
    pub max_iterations: usize,
    pub found_good: bool,
    pub male_indices: Vec<usize>,
    pub female_indices: Vec<usize>,
    pub params: OptimizationParams,
}

/// Whether some student is in another class than student 0, which any
/// exchange needs.
pub open spec fn can_move(a: Seq<usize>) -> bool {
    exists|i: int| 0 <= i < a.len() && #[trigger] a[i] != a[0]
}

impl Annealer {
    /// The state invariant over population `pop`.
    pub open spec fn inv(&self, pop: Seq<Student>) -> bool {
        &&& self.current.wf(pop)
        &&& self.current.complete()
        &&& self.best.wf(pop)
        &&& self.best.complete()
        &&& self.best.num_classes() == self.current.num_classes()
        &&& self.best.subjects_count == self.current.subjects_count
        &&& self.current_cost == capped(
            cost_of(self.current.class_stats@, self.current.subjects_count as int, self.params),
        )
        &&& self.best_cost == capped(
            cost_of(self.best.class_stats@, self.best.subjects_count as int, self.params),
        )
        &&& self.accept_count + self.iterations_left <= self.max_iterations
        &&& self.iterations_since_improvement + self.iterations_left <= self.max_iterations
        &&& forall|p: int|
            0 <= p < self.male_indices@.len() ==> #[trigger] self.male_indices@[p] < pop.len()
        &&& forall|p: int|
            0 <= p < self.female_indices@.len() ==> #[trigger] self.female_indices@[p] < pop.len()
    }

    /// A search instance starting from `initial` with a budget of
    /// `max_iterations` exchanges and the given starting temperature, raised
    /// threefold above 2000 students and twofold above 1000. The budget is
    /// zero when every student shares one class, as no exchange can change
    /// anything then.
    pub fn new(
        initial: Solution,
        pop: &[Student],
        max_iterations: usize,
        initial_temperature: u64,
        params: &OptimizationParams,
    ) -> (r: Annealer)
        requires
            initial.wf(pop@),
            initial.complete(),
        ensures
            r.inv(pop@),
            r.current.assignments@ == initial.assignments@,
            r.current.num_classes() == initial.num_classes(),
            r.current.subjects_count == initial.subjects_count,
            r.best.assignments@ == initial.assignments@,
            r.best_cost == r.current_cost,
            r.params == *params,
            r.iterations_left == (if can_move(initial.assignments@) {
                max_iterations
            } else {
                0
            }),
            r.max_iterations == max_iterations,
            r.accept_count == 0,
            r.iterations_since_improvement == 0,
            !r.found_good,
            r.start_temperature == (if pop@.len() > 2000 {
                capped_u64(initial_temperature as int * 3)
            } else if pop@.len() > 1000 {
                capped_u64(initial_temperature as int * 2)
            } else {
                initial_temperature as int
            }),
            r.temperature == r.start_temperature,
            forall|i: int|
                0 <= i < pop@.len() ==> (r.male_indices@.contains(i as usize) <==> pop@[i].gender
                    == Gender::Male),
            forall|i: int|
                0 <= i < pop@.len() ==> (r.female_indices@.contains(i as usize) <==> pop@[i].gender
                    == Gender::Female),
    {
        proof {
            lemma_wf_bounded(initial, pop@);
        }
        let cost = initial.calculate_cost(params);
        let best = initial.duplicate();
        proof {
            initial.lemma_wf_transfer(best, pop@);
            lemma_cost_same_stats(best.class_stats@, initial.class_stats@, initial.subjects_count as int, *params);
        }
        let n = pop.len();
        let start = if n > 2000 {
            match initial_temperature.checked_mul(3) {
                Some(t) => t,
                None => u64::MAX,
            }
        } else if n > 1000 {
            match initial_temperature.checked_mul(2) {
                Some(t) => t,
                None => u64::MAX,
            }
        } else {
            initial_temperature
        };
        let mut males: Vec<usize> = Vec::new();
        let mut females: Vec<usize> = Vec::new();
        let mut movable = false;
        let mut i: usize = 0;
        while i < n
            invariant
                n == pop@.len(),
                i <= n,
                initial.assignments@.len() == n,
                forall|p: int| 0 <= p < males@.len() ==> #[trigger] males@[p] < i,
                forall|p: int| 0 <= p < females@.len() ==> #[trigger] females@[p] < i,
                forall|j: int|
                    0 <= j < i ==> (males@.contains(j as usize) <==> pop@[j].gender == Gender::Male),
                forall|j: int|
                    0 <= j < i ==> (females@.contains(j as usize) <==> pop@[j].gender == Gender::Female),
                movable <==> exists|j: int| 0 <= j < i && #[trigger] initial.assignments@[j] != initial.assignments@[0],
            decreases n - i,
        {
            let ghost m0 = males@;
            let ghost f0 = females@;
            match pop[i].gender {
                Gender::Male => {
                    males.push(i);
                },
                Gender::Female => {
                    females.push(i);
                },
            }
            proof {
                lemma_push_contains(m0, males@, i);
                lemma_push_contains(f0, females@, i);
            }
            if initial.assignments[i] != initial.assignments[0] {
                movable = true;
            }
            i = i + 1;
        }
        Annealer {
            current: initial,
            current_cost: cost,
            best,
            best_cost: cost,
            temperature: start,
            start_temperature: start,
            accept_count: 0,
            iterations_since_improvement: 0,
            iterations_left: if movable {
                max_iterations
            } else {
                0
            },
            max_iterations,
            found_good: false,
            male_indices: males,
            female_indices: females,
            params: *params,
        }
    }
}

/// After pushing `i` (or nothing) onto a list of indices below `i`, the
/// indices below `i` it contains are the same.
proof fn lemma_push_contains(before: Seq<usize>, after: Seq<usize>, i: usize)
    requires
        forall|p: int| 0 <= p < before.len() ==> #[trigger] before[p] < i,
        after == before || after == before.push(i),
    ensures
        forall|j: int| 0 <= j < i ==> (#[trigger] after.contains(j as usize) <==> before.contains(j as usize)),
        after.contains(i) <==> after == before.push(i),
        forall|p: int| 0 <= p < after.len() ==> #[trigger] after[p] < i + 1,
{
    if after == before.push(i) {
        assert(after[after.len() - 1] == i);
        assert forall|j: int| 0 <= j < i implies (#[trigger] after.contains(j as usize) <==> before.contains(j as usize)) by {
            if after.contains(j as usize) {
                let p = choose|p: int| 0 <= p < after.len() && after[p] == j as usize;
                assert(p < before.len());
                assert(before[p] == j as usize);
            }
            if before.contains(j as usize) {
                let p = choose|p: int| 0 <= p < before.len() && before[p] == j as usize;
                assert(after[p] == j as usize);
            }
        }
    } else {
        if after.contains(i) {
            let p = choose|p: int| 0 <= p < after.len() && after[p] == i;
            assert(before[p] < i);
        }
    }
}

impl StepOutcome {
    pub open spec fn tried_cost(self) -> int {
        match self {
            StepOutcome::Skipped => 0,
            StepOutcome::Accepted { cost } => cost as int,
            StepOutcome::Rejected { cost } => cost as int,
        }
    }
}

/// What one step does: see `Annealer::step`.
pub open spec fn step_post(o: Annealer, f: Annealer, d: MoveDraw, r: StepOutcome, pop: Seq<Student>) -> bool {
    &&& f.current.num_classes() == o.current.num_classes()
    &&& f.current.subjects_count == o.current.subjects_count
    &&& {
        let a = o.current.assignments@;
        let k = o.current.num_classes();
        let m = o.current.subjects_count as int;
        match proposal(o.male_indices@, o.female_indices@, d) {
            None => r == StepOutcome::Skipped && f == o,
            Some((i, j)) => if a[i as int] == a[j as int] {
                r == StepOutcome::Skipped && f == o
            } else {
                let b = swapped(a, i as int, j as int);
                let c = r.tried_cost();
                let accepted = r is Accepted;
                let improved = accepted && c < o.best_cost;
                let acc1 = o.accept_count + if accepted { 1int } else { 0int };
                let since1 = if improved { 0 } else { o.iterations_since_improvement + 1 };
                let reheat = since1 > o.params.reheat_after_iterations && acc1
                    < o.params.reheat_min_accept_count;
                &&& !(r is Skipped)
                &&& forall|s: Solution|
                    s.wf(pop) && s.assignments@ == b && s.num_classes() == k
                        && s.subjects_count == m ==> c == capped(
                        cost_of(#[trigger] s.class_stats@, m, o.params),
                    )
                &&& accepted == accepts(o.current_cost as int, c, o.temperature as int, d.acceptance as int)
                &&& f.current.assignments@ == (if accepted { b } else { a })
                &&& f.current_cost == (if accepted { c } else { o.current_cost as int })
                &&& f.best.assignments@ == (if improved { b } else { o.best.assignments@ })
                &&& f.best_cost == (if improved { c } else { o.best_cost as int })
                &&& f.found_good == (o.found_good || improved && c
                    < o.params.good_solution_threshold)
                &&& f.temperature == (if reheat {
                    capped_u64(o.start_temperature * o.params.reheat_temperature_factor / PPM as int)
                } else {
                    cooled(o.temperature as int, o.params.cooling_rate as int)
                })
                &&& f.accept_count == (if reheat { 0 } else { acc1 })
                &&& f.iterations_since_improvement == (if reheat { 0 } else { since1 })
                &&& f.iterations_left == o.iterations_left - 1
                &&& f.start_temperature == o.start_temperature
                &&& f.max_iterations == o.max_iterations
                &&& f.params == o.params
                &&& f.male_indices@ == o.male_indices@
                &&& f.female_indices@ == o.female_indices@
            },
        }
    }
}

impl Annealer {
    /// One iteration with the random choices `d`.
    ///
    /// When the draw proposes no pair, or a pair in one class, nothing
    /// changes and the budget is not used. Otherwise the two students are
    /// exchanged and the new cost computed; the exchange is kept if
    /// `accepts` says so and undone if not. A kept exchange that beats the
    /// best cost becomes the best division, and flags the instance as done
    /// when its cost is below `good_solution_threshold`. Then, if no
    /// improvement came for more than `reheat_after_iterations` iterations
    /// while fewer than `reheat_min_accept_count` exchanges were kept, the
    /// temperature is reset to `start_temperature * reheat_temperature_factor`
    /// and both counters to zero; else the temperature cools by
    /// `cooling_rate`. One unit of budget is used.
    pub fn step(&mut self, d: &MoveDraw, pop: &[Student]) -> (r: StepOutcome)
        requires
            old(self).inv(pop@),
            old(self).iterations_left > 0,
        ensures
            final(self).inv(pop@),
            step_post(*old(self), *final(self), *d, r, pop@),
    {
        let ghost o = *self;
        let prop = propose_move(&self.male_indices, &self.female_indices, d);
        let (i, j) = match prop {
            None => {
                return StepOutcome::Skipped;
            },
            Some(pair) => pair,
        };
        proof {
            let lm = o.male_indices@.len();
            let lf = o.female_indices@.len();
            if lm > 0 {
                assert(o.male_indices@[d.pick1 as int % lm as int] < pop@.len());
                assert(o.male_indices@[d.pick2 as int % lm as int] < pop@.len());
            }
            if lf > 0 {
                assert(o.female_indices@[d.pick1 as int % lf as int] < pop@.len());
                assert(o.female_indices@[d.pick2 as int % lf as int] < pop@.len());
            }
        }
        if self.current.assignments[i] == self.current.assignments[j] {
            return StepOutcome::Skipped;
        }
        let ghost a = self.current.assignments@;
        let ghost m = self.current.subjects_count as int;
        self.current.swap_students(i, j, pop);
        let ghost tried = self.current;
        proof {
            lemma_wf_bounded(self.current, pop@);
        }
        let new_cost = self.current.calculate_cost(&self.params);
        proof {
            assert(self.temperature as int * d.acceptance as int <= u128::MAX) by (nonlinear_arith)
                requires self.temperature <= u64::MAX, d.acceptance <= u64::MAX;
        }
        let limit: u128 = (self.temperature as u128) * (d.acceptance as u128) / EXP_SCALE;
        let accepted = new_cost < self.current_cost || new_cost - self.current_cost < limit;
        let mut improved = false;
        if accepted {
            self.current_cost = new_cost;
            self.accept_count = self.accept_count + 1;
            if new_cost < self.best_cost {
                improved = true;
                let copy = self.current.duplicate();
                proof {
                    self.current.lemma_wf_transfer(copy, pop@);
                    lemma_cost_same_stats(copy.class_stats@, self.current.class_stats@, m, self.params);
                }
                self.best = copy;
                self.best_cost = new_cost;
                self.iterations_since_improvement = 0;
                if new_cost < self.params.good_solution_threshold {
                    self.found_good = true;
                }
            } else {
                self.iterations_since_improvement = self.iterations_since_improvement + 1;
            }
        } else {
            self.current.swap_students(i, j, pop);
            proof {
                crate::solution::lemma_swapped_twice(a, i as int, j as int);
                lemma_wf_same_stats(self.current, o.current, pop@);
                lemma_cost_same_stats(self.current.class_stats@, o.current.class_stats@, m, self.params);
            }
            self.iterations_since_improvement = self.iterations_since_improvement + 1;
        }
        if self.iterations_since_improvement > self.params.reheat_after_iterations
            && self.accept_count < self.params.reheat_min_accept_count {
            proof {
                assert(self.start_temperature as int * self.params.reheat_temperature_factor as int
                    <= u128::MAX) by (nonlinear_arith)
                    requires self.start_temperature <= u64::MAX,
                        self.params.reheat_temperature_factor <= u64::MAX;
            }
            let t = (self.start_temperature as u128) * (self.params.reheat_temperature_factor as u128)
                / (PPM as u128);
            self.temperature = if t > u64::MAX as u128 {
                u64::MAX
            } else {
                t as u64
            };
            self.iterations_since_improvement = 0;
            self.accept_count = 0;
        } else {
            proof {
                assert(self.temperature as int * self.params.cooling_rate as int <= u128::MAX)
                    by (nonlinear_arith)
                    requires self.temperature <= u64::MAX, self.params.cooling_rate <= u64::MAX;
            }
            let t = (self.temperature as u128) * (self.params.cooling_rate as u128) / (PPM as u128);
            self.temperature = if t > u64::MAX as u128 {
                u64::MAX
            } else {
                t as u64
            };
        }
        self.iterations_left = self.iterations_left - 1;
        let r = if accepted {
            StepOutcome::Accepted { cost: new_cost }
        } else {
            StepOutcome::Rejected { cost: new_cost }
        };
        proof {
            let b = swapped(a, i as int, j as int);
            assert forall|s: Solution|
                s.wf(pop@) && s.assignments@ == b && s.num_classes() == o.current.num_classes()
                    && s.subjects_count == m implies new_cost == capped(
                cost_of(#[trigger] s.class_stats@, m, o.params),
            ) by {
                lemma_wf_same_stats(s, tried, pop@);
                lemma_cost_same_stats(s.class_stats@, tried.class_stats@, m, o.params);
            }
        }
        r
    }
}

/// `states` runs from `start` to `end` through one step per draw, each
/// taken with budget left, with outcomes `outs`.
pub open spec fn ran_steps(
    states: Seq<Annealer>,
    outs: Seq<StepOutcome>,
    draws: Seq<MoveDraw>,
    used: int,
    pop: Seq<Student>,
    start: Annealer,
    end: Annealer,
) -> bool {
    &&& 0 <= used <= draws.len()
    &&& states.len() == used + 1
    &&& outs.len() == used
    &&& states[0] == start
    &&& states[used] == end
    &&& forall|q: int|
        0 <= q < used ==> (#[trigger] states[q]).iterations_left > 0 && step_post(
            states[q],
            states[q + 1],
            draws[q],
            outs[q],
            pop,
        )
}

impl Annealer {
    /// Runs one step per draw, in order, until the draws or the budget run
    /// out; returns how many draws were used. The best cost never rises.
    pub fn run_batch(&mut self, draws: &Vec<MoveDraw>, pop: &[Student]) -> (used: usize)
        requires
            old(self).inv(pop@),
        ensures
            final(self).inv(pop@),
            used <= draws@.len(),
            used == draws@.len() || final(self).iterations_left == 0,
            exists|states: Seq<Annealer>, outs: Seq<StepOutcome>|
                #[trigger] ran_steps(states, outs, draws@, used as int, pop@, *old(self), *final(self)),
            final(self).iterations_left <= old(self).iterations_left,
            final(self).best_cost <= old(self).best_cost,
            old(self).found_good ==> final(self).found_good,
            final(self).params == old(self).params,
            final(self).max_iterations == old(self).max_iterations,
            final(self).start_temperature == old(self).start_temperature,
            final(self).current.num_classes() == old(self).current.num_classes(),
            final(self).current.subjects_count == old(self).current.subjects_count,
    {
        let mut used: usize = 0;
        let ghost mut states: Seq<Annealer> = seq![*self];
        let ghost mut outs: Seq<StepOutcome> = Seq::empty();
        while used < draws.len() && self.iterations_left > 0
            invariant
                self.inv(pop@),
                ran_steps(states, outs, draws@, used as int, pop@, *old(self), *self),
                used <= draws@.len(),
                self.iterations_left <= old(self).iterations_left,
                self.best_cost <= old(self).best_cost,
                old(self).found_good ==> self.found_good,
                self.params == old(self).params,
                self.max_iterations == old(self).max_iterations,
                self.start_temperature == old(self).start_temperature,
                self.current.num_classes() == old(self).current.num_classes(),
                self.current.subjects_count == old(self).current.subjects_count,
            decreases draws@.len() - used,
        {
            let ghost before = *self;
            let r = self.step(&draws[used], pop);
            proof {
                states = states.push(*self);
                outs = outs.push(r);
                assert(states[used as int] == before);
                assert(step_post(states[used as int], states[used + 1], draws@[used as int], outs[used as int], pop@));
            }
            used = used + 1;
        }
        assert(ran_steps(states, outs, draws@, used as int, pop@, *old(self), *self));
        used
    }
}

pub open spec fn capped_u64(x: int) -> int {
    if x > u64::MAX {
        u64::MAX as int
    } else {
        x
    }
}

} // verus!
