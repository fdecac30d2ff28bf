use fenban::{
    AppStep, Arch, Class, ColumnConfig, ColumnType, ConfigError, DivideConfig, Gender, HistoryRecord,
    OS, OptimizationParams, Student, SystemInfo, UpdaterError, add_record,
    extract_path_from_executable, infer_column_type, infer_column_type_lower, remove_records_at,
    validate_constraints, validate_constraints_with_params,
};

#[test]
fn column_type_keys_round_trip() {
    let all = [
        ColumnType::Name,
        ColumnType::Gender,
        ColumnType::StudentId,
        ColumnType::TotalScore,
        ColumnType::Subject,
        ColumnType::Extra,
        ColumnType::Ignore,
    ];
    for t in all {
        assert_eq!(ColumnType::from_string(t.to_string()), t);
    }
    assert_eq!(ColumnType::TotalScore.to_string(), "total");
    assert_eq!(ColumnType::StudentId.to_string(), "student_id");
    assert_eq!(ColumnType::from_string("whatever"), ColumnType::Ignore);
    assert_ne!(AppStep::SelectFile, AppStep::Results);
}

#[test]
fn column_roles_are_guessed_from_headers() {
    assert_eq!(infer_column_type("姓名"), ColumnType::Name);
    assert_eq!(infer_column_type("Student Name"), ColumnType::Name);
    assert_eq!(infer_column_type("性别"), ColumnType::Gender);
    assert_eq!(infer_column_type("ID"), ColumnType::StudentId);
    assert_eq!(infer_column_type("学号"), ColumnType::StudentId);
    assert_eq!(infer_column_type("TOTAL"), ColumnType::TotalScore);
    assert_eq!(infer_column_type("总成绩"), ColumnType::TotalScore);
    assert_eq!(infer_column_type("数学成绩"), ColumnType::Subject);
    assert_eq!(infer_column_type("原班级"), ColumnType::Extra);
    assert_eq!(infer_column_type("Totals"), ColumnType::Ignore);
    assert_eq!(infer_column_type_lower("TOTAL"), ColumnType::Ignore);
    assert_eq!(infer_column_type_lower("total"), ColumnType::TotalScore);
}

#[test]
fn platform_from_target_names() {
    assert_eq!(
        SystemInfo::from_target("macos", "aarch64"),
        Ok(SystemInfo { os: OS::Macos, arch: Arch::Arm64 })
    );
    assert_eq!(
        SystemInfo::from_target("windows", "x86_64"),
        Ok(SystemInfo { os: OS::Windows, arch: Arch::X86_64 })
    );
    assert_eq!(SystemInfo::from_target("linux", "x86_64"), Err(UpdaterError::UnsupportedOs));
    assert_eq!(SystemInfo::from_target("windows", "riscv64"), Err(UpdaterError::UnsupportedArch));
    assert_eq!(OS::Macos.name(), "macos");
    assert_eq!(Arch::Arm64.name(), "arm64");
}

#[test]
fn extract_path_is_the_executable_directory() {
    assert_eq!(
        extract_path_from_executable("/opt/app/bin/fenban", OS::Windows),
        Ok("/opt/app/bin".to_string())
    );
    assert_eq!(
        extract_path_from_executable("/Applications/FenBan.app/Contents/MacOS/fenban", OS::Macos),
        Ok("/Applications/FenBan.app".to_string())
    );
    assert_eq!(
        extract_path_from_executable("/Applications/FenBan.app/Contents/MacOS/fenban", OS::Windows),
        Ok("/Applications/FenBan.app/Contents/MacOS".to_string())
    );
    assert_eq!(
        extract_path_from_executable("/", OS::Windows),
        Err(UpdaterError::FailedToDetermineExtractPath)
    );
}

fn record(ts: &str) -> HistoryRecord {
    let mut r = HistoryRecord::new(
        "in.xlsx".to_string(),
        None,
        3,
        90,
        "xlsx".to_string(),
        OptimizationParams::default(),
    );
    r.timestamp = ts.to_string();
    r
}

#[test]
fn history_keeps_newest_first_and_at_most_fifty() {
    let mut records = Vec::new();
    for i in 0..55 {
        records = add_record(records, record(&format!("t{i}")));
    }
    assert_eq!(records.len(), 50);
    assert_eq!(records[0].timestamp, "t54");
    assert_eq!(records[49].timestamp, "t5");
    let fresh = HistoryRecord::new("a".to_string(), Some("b".to_string()), 2, 10, "csv".to_string(), OptimizationParams::strict());
    assert!(!fresh.timestamp.is_empty());
    assert_eq!(fresh.num_classes, 2);
}

#[test]
fn history_delete_drops_matching_timestamps_only() {
    let records = vec![record("a"), record("b"), record("a"), record("c")];
    let kept = remove_records_at(records, "a");
    let stamps: Vec<&str> = kept.iter().map(|r| r.timestamp.as_str()).collect();
    assert_eq!(stamps, vec!["b", "c"]);
}

#[test]
fn column_config_builder() {
    let cfg = ColumnConfig::builder()
        .name(0)
        .gender(2)
        .id(1)
        .add_subject("数学".to_string(), 3)
        .add_subject("语文".to_string(), 4)
        .add_subject("数学".to_string(), 5)
        .add_extra("备注".to_string(), 6)
        .build()
        .unwrap();
    assert_eq!(cfg.name_column, 0);
    assert_eq!(cfg.gender_column, 2);
    assert_eq!(cfg.student_id_column, Some(1));
    assert_eq!(cfg.total_score_column, None);
    assert_eq!(cfg.subject_columns, vec![("数学".to_string(), 5), ("语文".to_string(), 4)]);
    assert_eq!(cfg.extra_columns, vec![("备注".to_string(), 6)]);
    assert_eq!(ColumnConfig::builder().gender(1).build().err(), Some(ConfigError::MissingNameColumn));
    assert_eq!(ColumnConfig::builder().name(1).build().err(), Some(ConfigError::MissingGenderColumn));
}

#[test]
fn parameter_presets() {
    let d = OptimizationParams::default();
    assert_eq!(d.max_score_diff, 100);
    assert_eq!(d.max_gender_ratio_diff, 1000);
    assert_eq!(d.penalty_power, 6);
    assert_eq!(d.max_class_size_diff, 5);
    let r = OptimizationParams::relaxed();
    assert_eq!((r.max_score_diff, r.penalty_power, r.cooling_rate), (200, 3, 999_500));
    let s = OptimizationParams::strict();
    assert_eq!((s.max_gender_ratio_diff, s.penalty_power), (500, 5));
    assert_eq!(OptimizationParams::adaptive(2500).initial_temperature, 3 * d.initial_temperature);
    assert_eq!(OptimizationParams::adaptive(1500).cooling_rate, 999_910);
    assert_eq!(OptimizationParams::adaptive(10), d);
    let c = DivideConfig::new(7).with_iterations(12);
    assert_eq!((c.num_classes, c.max_iterations), (7, 12));
    assert_eq!(DivideConfig::default().num_classes, 3);
    assert_eq!(c.with_optimization_params(s).optimization_params, s);
}

fn class_of(id: usize, members: &[(Gender, u32)]) -> Class {
    let mut c = Class::new(id);
    for (i, (g, t)) in members.iter().enumerate() {
        c.add_student(Student::new(format!("s{i}"), *g, vec![*t]));
    }
    c
}

#[test]
fn validation_spreads_and_thresholds() {
    let classes = vec![
        class_of(0, &[(Gender::Male, 8000), (Gender::Female, 9000)]),
        class_of(1, &[(Gender::Male, 8600), (Gender::Male, 8600)]),
    ];
    let v = validate_constraints(&classes);
    assert_eq!(v.max_score_diff, 100);
    assert_eq!(v.max_gender_ratio_diff, 5000);
    assert!(v.score_constraints_met);
    assert!(!v.gender_constraints_met);
    assert_eq!(v.subject_max_diffs, vec![100]);
    let mut tight = OptimizationParams::default();
    tight.max_score_diff = 99;
    assert!(!validate_constraints_with_params(&classes, &tight).score_constraints_met);
    let empty = validate_constraints(&[]);
    assert!(empty.score_constraints_met && empty.gender_constraints_met);
    assert_eq!(empty.max_score_diff, 0);
}
