use fenban::annealing::EXP_SCALE;
use fenban::cost::calc_dimension_cost;
use fenban::division::{adjusted_iterations, instance_count};
use fenban::{
    Annealer, CachedClassStats, Class, DivideConfig, DivisionPlan, Gender, MoveDraw, MoveKind,
    OptimizationParams, Solution, Student, best_solution, create_initial_solution, plan_division,
    propose_move, singleton_classes, start_instance, validate_constraints,
};
use rand::rngs::StdRng;
use rand::{Rng, SeedableRng};

fn normal(rng: &mut StdRng, mean: f64, sd: f64) -> f64 {
    let u1: f64 = 1.0 - rng.random::<f64>();
    let u2: f64 = rng.random::<f64>();
    mean + sd * (-2.0 * u1.ln()).sqrt() * (2.0 * std::f64::consts::PI * u2).cos()
}

fn create_test_students(count: usize) -> Vec<Student> {
    let mut rng = StdRng::seed_from_u64(42);
    (0..count)
        .map(|i| {
            let caps = [150.0, 150.0, 150.0, 100.0, 100.0, 100.0, 100.0, 100.0, 100.0];
            let scores: Vec<u32> = caps
                .iter()
                .map(|cap| (normal(&mut rng, 100.0, 15.0).clamp(0.0, *cap) * 100.0).round() as u32)
                .collect();
            let gender = if i % 2 == 0 { Gender::Male } else { Gender::Female };
            Student::new(format!("Student{}", i), gender, scores)
        })
        .collect()
}

fn draw(rng: &mut StdRng) -> MoveDraw {
    let kind = if rng.random::<f64>() < 0.4 {
        MoveKind::SameGender { prefer_male: rng.random_bool(0.5) }
    } else {
        MoveKind::CrossGender
    };
    let e = -(1.0 - rng.random::<f64>()).ln();
    MoveDraw {
        kind,
        pick1: rng.random::<u64>(),
        pick2: rng.random::<u64>(),
        acceptance: (e * EXP_SCALE as f64).min(u64::MAX as f64) as u64,
    }
}

fn run(annealer: &mut Annealer, students: &[Student], rng: &mut StdRng) {
    while annealer.iterations_left > 0 && !annealer.found_good {
        let batch: Vec<MoveDraw> = (0..1000).map(|_| draw(rng)).collect();
        annealer.run_batch(&batch, students);
    }
}

fn divide(students: &[Student], config: DivideConfig) -> Vec<Class> {
    match plan_division(students, &config, 4) {
        DivisionPlan::Empty => vec![],
        DivisionPlan::Singletons => singleton_classes(students),
        DivisionPlan::Search { instances, iterations, subjects_count } => {
            let params = config.optimization_params;
            let mut found = Vec::new();
            for index in 0..instances {
                let mut a = start_instance(students, config.num_classes, subjects_count, iterations, index, &params);
                let mut rng = StdRng::seed_from_u64(index as u64 + 1);
                run(&mut a, students, &mut rng);
                found.push(a.best);
            }
            best_solution(found, &params).to_classes(students)
        }
    }
}

#[test]
fn test_division() {
    let students = create_test_students(100);
    let config = DivideConfig::new(4).with_iterations(300000);
    let classes = divide(&students, config);
    assert_eq!(classes.len(), 4);
    assert_eq!(classes.iter().map(|c| c.students.len()).sum::<usize>(), 100);
    let validation = validate_constraints(&classes);
    assert!(validation.max_score_diff <= 200, "total spread {}", validation.max_score_diff);
    assert!(validation.max_gender_ratio_diff <= 2500, "ratio spread {}", validation.max_gender_ratio_diff);
}

#[test]
fn test_large_scale() {
    let students = create_test_students(500);
    let start = std::time::Instant::now();
    let config = DivideConfig::new(10).with_iterations(400000);
    let classes = divide(&students, config);
    let duration = start.elapsed();
    assert_eq!(classes.len(), 10);
    assert!(duration.as_secs() < 30);
    let validation = validate_constraints(&classes);
    assert!(validation.max_score_diff <= 300, "total spread {}", validation.max_score_diff);
    assert!(validation.max_gender_ratio_diff <= 4000, "ratio spread {}", validation.max_gender_ratio_diff);
}

#[test]
fn every_student_lands_in_exactly_one_class() {
    let students = create_test_students(37);
    let classes = divide(&students, DivideConfig::new(5).with_iterations(2000));
    assert_eq!(classes.len(), 5);
    assert_eq!(classes.iter().map(|c| c.students.len()).sum::<usize>(), 37);
    let mut names: Vec<String> = classes.iter().flat_map(|c| c.students.iter().map(|s| s.name.clone())).collect();
    names.sort();
    names.dedup();
    assert_eq!(names.len(), 37);
    for (g, c) in classes.iter().enumerate() {
        assert_eq!(c.id, g);
    }
}

#[test]
fn fewer_students_than_classes_gives_singletons() {
    let students = create_test_students(3);
    let classes = divide(&students, DivideConfig::new(5));
    assert_eq!(classes.len(), 3);
    for (i, c) in classes.iter().enumerate() {
        assert_eq!(c.id, i);
        assert_eq!(c.students.len(), 1);
        assert_eq!(c.students[0].name, students[i].name);
    }
}

#[test]
fn empty_population_or_no_class_gives_nothing() {
    assert!(divide(&[], DivideConfig::new(3)).is_empty());
    assert!(divide(&create_test_students(4), DivideConfig::new(0)).is_empty());
}

#[test]
fn one_class_holds_the_whole_population() {
    let students = create_test_students(20);
    let classes = divide(&students, DivideConfig::new(1).with_iterations(1000));
    assert_eq!(classes.len(), 1);
    assert_eq!(classes[0].students.len(), 20);
    let v = validate_constraints(&classes);
    assert_eq!(v.max_score_diff, 0);
    assert_eq!(v.max_gender_ratio_diff, 0);
    assert!(v.subject_max_diffs.iter().all(|d| *d == 0));
}

#[test]
fn single_gender_population_has_no_ratio_spread() {
    let students: Vec<Student> = create_test_students(30)
        .into_iter()
        .map(|mut s| {
            s.gender = Gender::Female;
            s
        })
        .collect();
    let mut params = OptimizationParams::default();
    params.num_parallel_instances = Some(1);
    for k in [2, 4] {
        let classes = divide(&students, DivideConfig::new(k).with_optimization_params(params));
        assert_eq!(classes.len(), k);
        assert_eq!(validate_constraints(&classes).max_gender_ratio_diff, 0);
    }
}

#[test]
fn same_draws_give_the_same_division() {
    let students = create_test_students(60);
    let params = OptimizationParams::default();
    let mut runs = Vec::new();
    for _ in 0..2 {
        let mut a = start_instance(&students, 3, 9, 20000, 0, &params);
        let mut rng = StdRng::seed_from_u64(7);
        run(&mut a, &students, &mut rng);
        runs.push((a.current.assignments.clone(), a.best.assignments.clone(), a.best_cost));
    }
    assert_eq!(runs[0], runs[1]);
}

#[test]
fn swapping_twice_restores_the_cost() {
    let students = create_test_students(40);
    let params = OptimizationParams::default();
    let mut s = create_initial_solution(&students, 4, 9);
    let before = s.calculate_cost(&params);
    let assignments = s.assignments.clone();
    let (i, j) = (0..40).flat_map(|i| (0..40).map(move |j| (i, j))).find(|&(i, j)| assignments[i] != assignments[j]).unwrap();
    s.swap_students(i, j, &students);
    assert_ne!(s.assignments, assignments);
    s.swap_students(i, j, &students);
    assert_eq!(s.assignments, assignments);
    assert_eq!(s.calculate_cost(&params), before);
}

fn same_numbers(a: &CachedClassStats, b: &CachedClassStats) -> bool {
    a.total_sum == b.total_sum
        && a.student_count == b.student_count
        && a.male_count == b.male_count
        && a.female_count == b.female_count
        && a.subject_sums == b.subject_sums
}

#[test]
fn cached_stats_match_a_recount_after_random_swaps() {
    let students = create_test_students(50);
    let mut s = create_initial_solution(&students, 6, 9);
    let mut rng = StdRng::seed_from_u64(3);
    for _ in 0..500 {
        let i = rng.random_range(0..50);
        let j = rng.random_range(0..50);
        s.swap_students(i, j, &students);
    }
    for g in 0..6 {
        let fresh = CachedClassStats::recount(&students, &s.assignments, g, 9);
        assert!(same_numbers(&fresh, &s.class_stats[g]));
    }
}

#[test]
fn initial_solution_places_everyone_and_balances_gender() {
    let students = create_test_students(40);
    let s = create_initial_solution(&students, 4, 9);
    assert!(s.assignments.iter().all(|&g| g < 4));
    let sizes: Vec<usize> = s.class_stats.iter().map(|c| c.student_count).collect();
    assert_eq!(sizes.iter().sum::<usize>(), 40);
    for c in &s.class_stats {
        assert!(c.student_count >= 9 && c.student_count <= 11);
    }
}

#[test]
fn new_solution_places_nobody() {
    let students = create_test_students(5);
    let s = Solution::new(&students, 2, 9);
    assert_eq!(s.assignments, vec![2; 5]);
    assert!(s.class_stats.iter().all(|c| c.student_count == 0 && c.subject_sums == vec![0; 9]));
}

#[test]
fn dimension_cost_exact_value() {
    // mean 150, largest distance 50, variance 2500
    assert_eq!(calc_dimension_cost(&vec![100, 200], 10, 2, 2, 3), 40 * 40 * 2 + 2500 * 3);
    // below the threshold only the variance counts
    assert_eq!(calc_dimension_cost(&vec![100, 200], 50, 2, 2, 3), 7500);
    // equal values cost nothing
    assert_eq!(calc_dimension_cost(&vec![7, 7, 7], 0, 5, 6, 5), 0);
    // the penalty saturates
    assert_eq!(calc_dimension_cost(&vec![0, 4_000_000_000], 0, u64::MAX, 6, 1), u128::MAX);
}

#[test]
fn empty_class_ratio_is_one_half() {
    let s = CachedClassStats::new(2);
    assert_eq!(s.male_ratio(), 5000);
    assert_eq!(s.avg_total(), 0);
    assert_eq!(s.avg_subject(1), 0);
}

#[test]
fn proposals_follow_the_draw() {
    let males = vec![0, 2, 4];
    let females = vec![1, 3];
    let d = |kind, p1, p2| MoveDraw { kind, pick1: p1, pick2: p2, acceptance: 0 };
    assert_eq!(propose_move(&males, &females, &d(MoveKind::CrossGender, 4, 3)), Some((2, 3)));
    assert_eq!(propose_move(&males, &females, &d(MoveKind::SameGender { prefer_male: true }, 1, 2)), Some((2, 4)));
    assert_eq!(propose_move(&males, &females, &d(MoveKind::SameGender { prefer_male: false }, 1, 2)), Some((3, 1)));
    let one = vec![5];
    assert_eq!(propose_move(&one, &females, &d(MoveKind::SameGender { prefer_male: true }, 0, 1)), Some((1, 3)));
    assert_eq!(propose_move(&one, &vec![], &d(MoveKind::SameGender { prefer_male: true }, 0, 1)), None);
    assert_eq!(propose_move(&males, &vec![], &d(MoveKind::CrossGender, 0, 1)), None);
}

#[test]
fn plan_and_instance_tables() {
    assert_eq!(instance_count(100, None, 32), 4);
    assert_eq!(instance_count(600, None, 32), 8);
    assert_eq!(instance_count(1500, None, 32), 12);
    assert_eq!(instance_count(2500, None, 32), 16);
    assert_eq!(instance_count(2500, None, 2), 2);
    assert_eq!(instance_count(2500, Some(3), 32), 3);
    assert_eq!(adjusted_iterations(100, 10), 300000);
    assert_eq!(adjusted_iterations(2000, 10), 400000);
    assert_eq!(adjusted_iterations(4000, 10), 500000);
    assert_eq!(adjusted_iterations(100, 900000), 900000);
    let students = create_test_students(10);
    assert_eq!(
        plan_division(&students, &DivideConfig::new(2), 6),
        DivisionPlan::Search { instances: 4, iterations: 500000, subjects_count: 9 }
    );
}

#[test]
fn step_skips_pairs_in_one_class() {
    let students = create_test_students(8);
    let params = OptimizationParams::default();
    let mut a = start_instance(&students, 2, 9, 10, 0, &params);
    let left = a.iterations_left;
    let g0 = a.current.assignments[0];
    let same = (1..8).find(|&j| a.current.assignments[j] == g0 && j % 2 == 0).unwrap_or(0);
    let d = MoveDraw { kind: MoveKind::SameGender { prefer_male: true }, pick1: 0, pick2: (same / 2) as u64, acceptance: 0 };
    assert_eq!(a.step(&d, &students), fenban::StepOutcome::Skipped);
    assert_eq!(a.iterations_left, left);
}

#[test]
fn worse_move_without_acceptance_is_undone() {
    let students = create_test_students(12);
    let params = OptimizationParams::default();
    let mut a = start_instance(&students, 3, 9, 100, 0, &params);
    let before = a.current.assignments.clone();
    let cost = a.current_cost;
    for p1 in 0..6u64 {
        for p2 in 0..6u64 {
            let d = MoveDraw { kind: MoveKind::CrossGender, pick1: p1, pick2: p2, acceptance: 0 };
            match a.step(&d, &students) {
                fenban::StepOutcome::Rejected { cost: c } => {
                    assert!(c >= cost);
                    assert_eq!(a.current.assignments, before);
                    assert_eq!(a.current_cost, cost);
                    return;
                }
                fenban::StepOutcome::Accepted { cost: c } => {
                    assert!(c < cost);
                    return;
                }
                fenban::StepOutcome::Skipped => {}
            }
        }
    }
}

#[test]
fn seeding_places_the_strongest_first_and_balances_gender() {
    let students = vec![
        Student::new("m1".to_string(), Gender::Male, vec![9000]),
        Student::new("m2".to_string(), Gender::Male, vec![8000]),
        Student::new("f1".to_string(), Gender::Female, vec![7000]),
        Student::new("f2".to_string(), Gender::Female, vec![6000]),
    ];
    let s = create_initial_solution(&students, 2, 1);
    // m1 opens class 0, m2 opens class 1, then each class takes one girl,
    // the lower-total class first.
    assert_eq!(s.assignments, vec![0, 1, 1, 0]);
}

#[test]
fn seeding_goes_by_descending_total_not_by_position() {
    let students = vec![
        Student::new("f0".to_string(), Gender::Female, vec![6000]),
        Student::new("f1".to_string(), Gender::Female, vec![7000]),
        Student::new("m2".to_string(), Gender::Male, vec![8000]),
        Student::new("m3".to_string(), Gender::Male, vec![9000]),
    ];
    let s = create_initial_solution(&students, 2, 1);
    assert_eq!(s.assignments, vec![0, 1, 1, 0]);
}
