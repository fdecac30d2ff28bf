use vstd::prelude::*;

verus! {

/// Thresholds, weights and annealing schedule of the optimiser.
///
/// Score thresholds are in hundredths of a point and ratio thresholds in
/// ten-thousandths. Weights apply to costs in those units. Rates and factors
/// are in millionths.
#[derive(Clone, Copy, Debug, PartialEq, Eq, Structural)]
pub struct OptimizationParams {
    pub max_score_diff: u64,
    pub max_subject_score_diff: u64,
    pub max_class_size_diff: usize,
    pub max_gender_ratio_diff: u64,
    pub total_score_penalty_weight: u64,
    pub subject_score_penalty_weight: u64,
    pub gender_ratio_penalty_weight: u64,
    pub penalty_power: u32,
    pub total_variance_weight: u64,
    pub gender_variance_weight: u64,
    pub subject_variance_weight: u64,
    pub initial_temperature: u64,
    pub cooling_rate: u64,
    pub num_parallel_instances: Option<usize>,
    pub temperature_diversity_delta: u64,
    pub good_solution_threshold: u128,
    pub reheat_after_iterations: usize,
    pub reheat_temperature_factor: u64,
    pub reheat_min_accept_count: usize,
}

/// Millionths in one whole, the unit of rates and factors.
pub const PPM: u64 = 1_000_000;

pub open spec fn default_params() -> OptimizationParams {
    OptimizationParams {
        max_score_diff: 100,
        max_subject_score_diff: 100,
        max_class_size_diff: 5,
        max_gender_ratio_diff: 1000,
        total_score_penalty_weight: 100_000_000_000,
        subject_score_penalty_weight: 100_000_000_000,
        gender_ratio_penalty_weight: 10,
        penalty_power: 6,
        total_variance_weight: 100_000_000_000,
        gender_variance_weight: 5_000_000_000,
        subject_variance_weight: 500_000_000_000,
        initial_temperature: 1_000_000_000_000_000_000,
        cooling_rate: 999_900,
        num_parallel_instances: None,
        temperature_diversity_delta: 100_000_000_000_000_000,
        good_solution_threshold: 100_000_000_000_000,
        reheat_after_iterations: 1000,
        reheat_temperature_factor: 500_000,
        reheat_min_accept_count: 100,
    }
}

impl Default for OptimizationParams {
    fn default() -> (r: OptimizationParams)
        ensures
            r == default_params(),
    {
        OptimizationParams {
            max_score_diff: 100,
            max_subject_score_diff: 100,
            max_class_size_diff: 5,
            max_gender_ratio_diff: 1000,
            total_score_penalty_weight: 100_000_000_000,
            subject_score_penalty_weight: 100_000_000_000,
            gender_ratio_penalty_weight: 10,
            penalty_power: 6,
            total_variance_weight: 100_000_000_000,
            gender_variance_weight: 5_000_000_000,
            subject_variance_weight: 500_000_000_000,
            initial_temperature: 1_000_000_000_000_000_000,
            cooling_rate: 999_900,
            num_parallel_instances: None,
            temperature_diversity_delta: 100_000_000_000_000_000,
            good_solution_threshold: 100_000_000_000_000,
            reheat_after_iterations: 1000,
            reheat_temperature_factor: 500_000,
            reheat_min_accept_count: 100,
        }
    }
}

impl OptimizationParams {
    /// Looser thresholds and a cubic penalty: faster, less precise.
    pub fn relaxed() -> (r: OptimizationParams)
        ensures
            r == (OptimizationParams {
                max_score_diff: 200,
                max_subject_score_diff: 200,
                max_gender_ratio_diff: 1500,
                penalty_power: 3,
                total_score_penalty_weight: 100_000_000_000_000_000,
                subject_score_penalty_weight: 100_000_000_000_000_000,
                gender_ratio_penalty_weight: 10_000_000_000_000,
                initial_temperature: 800_000_000_000_000_000,
                cooling_rate: 999_500,
                ..default_params()
            }),
    {
        OptimizationParams {
            max_score_diff: 200,
            max_subject_score_diff: 200,
            max_gender_ratio_diff: 1500,
            penalty_power: 3,
            total_score_penalty_weight: 100_000_000_000_000_000,
            subject_score_penalty_weight: 100_000_000_000_000_000,
            gender_ratio_penalty_weight: 10_000_000_000_000,
            initial_temperature: 800_000_000_000_000_000,
            cooling_rate: 999_500,
            ..OptimizationParams::default()
        }
    }

    /// Tighter thresholds and a fifth-power penalty: slower, more precise.
    pub fn strict() -> (r: OptimizationParams)
        ensures
            r == (OptimizationParams {
                max_score_diff: 50,
                max_subject_score_diff: 50,
                max_gender_ratio_diff: 500,
                penalty_power: 5,
                total_score_penalty_weight: 50_000_000_000_000,
                subject_score_penalty_weight: 50_000_000_000_000,
                gender_ratio_penalty_weight: 5000,
                initial_temperature: 1_500_000_000_000_000_000,
                cooling_rate: 999_950,
                ..default_params()
            }),
    {
        OptimizationParams {
            max_score_diff: 50,
            max_subject_score_diff: 50,
            max_gender_ratio_diff: 500,
            penalty_power: 5,
            total_score_penalty_weight: 50_000_000_000_000,
            subject_score_penalty_weight: 50_000_000_000_000,
            gender_ratio_penalty_weight: 5000,
            initial_temperature: 1_500_000_000_000_000_000,
            cooling_rate: 999_950,
            ..OptimizationParams::default()
        }
    }

    /// The default parameters with a hotter, slower schedule for large
    /// populations.
    pub fn adaptive(student_count: usize) -> (r: OptimizationParams)
        ensures
            student_count > 2000 ==> r == (OptimizationParams {
                initial_temperature: 3_000_000_000_000_000_000,
                cooling_rate: 999_920,
                ..default_params()
            }),
            1000 < student_count <= 2000 ==> r == (OptimizationParams {
                initial_temperature: 2_000_000_000_000_000_000,
                cooling_rate: 999_910,
                ..default_params()
            }),
            student_count <= 1000 ==> r == default_params(),
    {
        let mut params = OptimizationParams::default();
        if student_count > 2000 {
            params.initial_temperature = params.initial_temperature * 3;
            params.cooling_rate = 999_920;
        } else if student_count > 1000 {
            params.initial_temperature = params.initial_temperature * 2;
            params.cooling_rate = 999_910;
        }
        params
    }
}

/// What to divide: the number of classes, the iteration budget of each
/// search instance, and the optimiser parameters.
#[derive(Clone, Copy, Debug, PartialEq, Eq, Structural)]
pub struct DivideConfig {
    pub num_classes: usize,
    pub max_iterations: usize,
    pub optimization_params: OptimizationParams,
}

impl Default for DivideConfig {
    fn default() -> (r: DivideConfig)
        ensures
            r == (DivideConfig {
                num_classes: 3,
                max_iterations: 500000,
                optimization_params: default_params(),
            }),
    {
        DivideConfig {
            num_classes: 3,
            max_iterations: 500000,
            optimization_params: OptimizationParams::default(),
        }
    }
}

impl DivideConfig {
    pub fn new(num_classes: usize) -> (r: DivideConfig)
        ensures
            r == (DivideConfig {
                num_classes,
                max_iterations: 500000,
                optimization_params: default_params(),
            }),
    {
        DivideConfig { num_classes, ..DivideConfig::default() }
    }

    pub fn with_iterations(self, max_iterations: usize) -> (r: DivideConfig)
        ensures
            r == (DivideConfig { max_iterations, ..self }),
    {
        DivideConfig { max_iterations, ..self }
    }

    pub fn with_optimization_params(self, params: OptimizationParams) -> (r: DivideConfig)
        ensures
            r == (DivideConfig { optimization_params: params, ..self }),
    {
        DivideConfig { optimization_params: params, ..self }
    }
}

} // verus!
