use fenban::{Class, Gender, Student, has_real_student_ids};

fn student(name: &str, gender: Gender, total: u32) -> Student {
    Student {
        name: name.to_string(),
        id: None,
        gender,
        scores: vec![],
        total_score: total,
        extra_fields: vec![],
    }
}

#[test]
fn test_gender_parsing() {
    assert_eq!("男".parse::<Gender>().unwrap(), Gender::Male);
    assert_eq!("女".parse::<Gender>().unwrap(), Gender::Female);
    assert!("unknown".parse::<Gender>().is_err());
}

#[test]
fn test_student_creation() {
    let student = Student::new("Test".to_string(), Gender::Male, vec![9000, 8500]);
    assert_eq!(student.total_score, 17500);
}

#[test]
fn test_class_statistics() {
    let mut class = Class::new(0);
    class.add_student(student("Student1", Gender::Male, 60000));
    class.add_student(student("Student2", Gender::Female, 70000));
    assert_eq!(class.male_count(), 1);
    assert_eq!(class.female_count(), 1);
    assert_eq!(class.avg_total_score(), 65000);
}

#[test]
fn class_averages_round_down_and_empty_class_is_zero() {
    let mut class = Class::new(3);
    assert_eq!(class.avg_total_score(), 0);
    assert_eq!(class.gender_ratio(), 0);
    assert_eq!(class.avg_subject_score(0), 0);
    class.add_student(Student::new("a".to_string(), Gender::Male, vec![100, 1]));
    class.add_student(Student::new("b".to_string(), Gender::Female, vec![201, 2]));
    class.add_student(Student::new("c".to_string(), Gender::Female, vec![300]));
    assert_eq!(class.avg_total_score(), (101 + 203 + 300) / 3);
    assert_eq!(class.avg_subject_score(0), 601 / 3);
    assert_eq!(class.avg_subject_score(1), 1);
    assert_eq!(class.gender_ratio(), 3333);
    assert_eq!(class.variance(200), 1);
}

#[test]
fn student_builders_set_fields() {
    let s = Student::new("x".to_string(), Gender::Female, vec![])
        .with_id(Some("2024001".to_string()))
        .with_extra_fields(vec![("班级".to_string(), "3".to_string())]);
    assert_eq!(s.total_score, 0);
    assert_eq!(s.id.as_deref(), Some("2024001"));
    assert_eq!(s.extra_fields.len(), 1);
}

#[test]
fn real_ids_are_those_not_starting_with_r() {
    let mut c = Class::new(0);
    c.add_student(student("a", Gender::Male, 1).with_id(Some("R1".to_string())));
    assert!(!has_real_student_ids(&[c]));
    let mut d = Class::new(1);
    d.add_student(student("b", Gender::Male, 1).with_id(Some("S7".to_string())));
    assert!(has_real_student_ids(&[d]));
    assert!(!has_real_student_ids(&[]));
}

#[test]
fn duplicate_copies_every_field() {
    let s = Student::new("dup".to_string(), Gender::Male, vec![1, 2, 3])
        .with_id(Some("9".to_string()))
        .with_extra_fields(vec![("k".to_string(), "v".to_string())]);
    let d = s.duplicate();
    assert_eq!(d.name, "dup");
    assert_eq!(d.id.as_deref(), Some("9"));
    assert_eq!(d.scores, vec![1, 2, 3]);
    assert_eq!(d.total_score, 6);
    assert_eq!(d.extra_fields, vec![("k".to_string(), "v".to_string())]);
}

#[test]
fn subject_variance_over_students_with_the_subject() {
    let mut class = Class::new(0);
    class.add_student(Student::new("a".to_string(), Gender::Male, vec![100]));
    class.add_student(Student::new("b".to_string(), Gender::Female, vec![300]));
    class.add_student(Student::new("c".to_string(), Gender::Female, vec![]));
    assert_eq!(class.subject_variances(&vec![0, 1]), vec![10000, 0]);
}
