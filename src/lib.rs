//! Balanced class division: assigns students to classes so that the class
//! averages of the total score, of each subject score and the share of male
//! students stay close to each other.
//!
//! Scores are fixed-point integers in hundredths of a point and ratios are
//! in ten-thousandths, so that every running sum is exact. A division is
//! searched for by simulated annealing from a greedy start; the random
//! choices of each iteration are handed in as values, so that the search is
//! a deterministic function of them.
pub mod annealing;
pub mod column_config;
pub mod columns;
pub mod cost;
pub mod division;
pub mod history;
pub mod laws;
pub mod model;
pub mod params;
pub mod seed;
pub mod solution;
pub mod text;
pub mod updater;
pub mod validate;

pub use annealing::{Annealer, MoveDraw, MoveKind, StepOutcome, propose_move};
pub use column_config::{ColumnConfig, ConfigError, ExcelColumnConfigBuilder};
pub use columns::{AppStep, ColumnMapping, ColumnType, infer_column_type, infer_column_type_lower};
pub use division::{DivisionPlan, best_solution, plan_division, plan_division_here, singleton_classes, start_instance};
pub use history::{HistoryRecord, add_record, remove_records_at};
pub use model::{Class, Gender, InvalidGender, Student, has_real_student_ids};
pub use params::{DivideConfig, OptimizationParams};
pub use seed::create_initial_solution;
pub use solution::{CachedClassStats, Solution};
pub use updater::{Arch, BundleType, OS, SystemInfo, UpdaterError, extract_path_from_executable};
pub use validate::{ConstraintValidation, validate_constraints, validate_constraints_with_params};
