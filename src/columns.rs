use vstd::prelude::*;
use crate::text::{chars_of, has_run, str_has, str_is};

verus! {

/// The steps of the division wizard.
#[derive(Clone, Copy, Debug, PartialEq, Eq, Structural)]
pub enum AppStep {
    SelectFile,
    PreviewData,
    ConfigureColumns,
    ConfigureDivision,
    Processing,
    Results,
}

/// What a column of the input table holds.
#[derive(Clone, Copy, Debug, PartialEq, Eq, Structural)]
pub enum ColumnType {
    Name,
    Gender,
    StudentId,
    TotalScore,
    Subject,
    Extra,
    Ignore,
}

/// A column of the input table: its header, position and role.
#[derive(Debug)]
pub struct ColumnMapping {
    pub name: String,
    pub index: usize,
    pub column_type: ColumnType,
}

/// The key of a column type.
pub open spec fn column_type_key(t: ColumnType) -> Seq<char> {
    match t {
        ColumnType::Name => "name"@,
        ColumnType::Gender => "gender"@,
        ColumnType::StudentId => "student_id"@,
        ColumnType::TotalScore => "total"@,
        ColumnType::Subject => "subject"@,
        ColumnType::Extra => "extra"@,
        ColumnType::Ignore => "ignore"@,
    }
}

/// The column type of a key; anything unknown is ignored.
pub open spec fn column_type_of_key(s: Seq<char>) -> ColumnType {
    if s == "name"@ {
        ColumnType::Name
    } else if s == "gender"@ {
        ColumnType::Gender
    } else if s == "student_id"@ {
        ColumnType::StudentId
    } else if s == "total"@ {
        ColumnType::TotalScore
    } else if s == "subject"@ {
        ColumnType::Subject
    } else if s == "extra"@ {
        ColumnType::Extra
    } else {
        ColumnType::Ignore
    }
}

impl ColumnType {
    pub fn to_string(&self) -> (r: &'static str)
        ensures
            r@ == column_type_key(*self),
    {
        match self {
            ColumnType::Name => "name",
            ColumnType::Gender => "gender",
            ColumnType::StudentId => "student_id",
            ColumnType::TotalScore => "total",
            ColumnType::Subject => "subject",
            ColumnType::Extra => "extra",
            ColumnType::Ignore => "ignore",
        }
    }

    pub fn from_string(s: &str) -> (r: ColumnType)
        ensures
            r == column_type_of_key(s@),
    {
        let c = chars_of(s);
        if str_is(&c, "name") {
            ColumnType::Name
        } else if str_is(&c, "gender") {
            ColumnType::Gender
        } else if str_is(&c, "student_id") {
            ColumnType::StudentId
        } else if str_is(&c, "total") {
            ColumnType::TotalScore
        } else if str_is(&c, "subject") {
            ColumnType::Subject
        } else if str_is(&c, "extra") {
            ColumnType::Extra
        } else {
            ColumnType::Ignore
        }
    }
}

/// The lower-case form of a text, as `str::to_lowercase` gives it.
pub uninterp spec fn lower_of(s: Seq<char>) -> Seq<char>;

/// Relies on `str::to_lowercase`: the lower-case form of `s`, which depends
/// on its characters alone.
#[verifier::external_body]
fn lowercase(s: &str) -> (r: String)
    ensures
        r@ == lower_of(s@),
{
    s.to_lowercase()
}

/// The role guessed from a lower-case column header.
pub open spec fn infer_from_lower(l: Seq<char>) -> ColumnType {
    if has_run(l, "姓名"@) || has_run(l, "name"@) {
        ColumnType::Name
    } else if has_run(l, "性别"@) || has_run(l, "gender"@) {
        ColumnType::Gender
    } else if has_run(l, "学号"@) || has_run(l, "id"@) || has_run(l, "编号"@) {
        ColumnType::StudentId
    } else if has_run(l, "总分"@) || has_run(l, "总成绩"@) || l == "total"@ {
        ColumnType::TotalScore
    } else if has_run(l, "语文"@) || has_run(l, "数学"@) || has_run(l, "英语"@) || has_run(
        l,
        "日语"@,
    ) || has_run(l, "物理"@) || has_run(l, "化学"@) || has_run(l, "生物"@) || has_run(l, "政治"@)
        || has_run(l, "历史"@) || has_run(l, "地理"@) || has_run(l, "外语"@) {
        ColumnType::Subject
    } else if has_run(l, "班级"@) || has_run(l, "备注"@) || has_run(l, "原班级"@) {
        ColumnType::Extra
    } else {
        ColumnType::Ignore
    }
}

/// The role guessed from a column header already in lower case.
pub fn infer_column_type_lower(lower: &str) -> (r: ColumnType)
    ensures
        r == infer_from_lower(lower@),
{
    let l = chars_of(lower);
    if str_has(&l, "姓名") || str_has(&l, "name") {
        ColumnType::Name
    } else if str_has(&l, "性别") || str_has(&l, "gender") {
        ColumnType::Gender
    } else if str_has(&l, "学号") || str_has(&l, "id") || str_has(&l, "编号") {
        ColumnType::StudentId
    } else if str_has(&l, "总分") || str_has(&l, "总成绩") || str_is(&l, "total") {
        ColumnType::TotalScore
    } else if str_has(&l, "语文") || str_has(&l, "数学") || str_has(&l, "英语") || str_has(
        &l,
        "日语",
    ) || str_has(&l, "物理") || str_has(&l, "化学") || str_has(&l, "生物") || str_has(&l, "政治")
        || str_has(&l, "历史") || str_has(&l, "地理") || str_has(&l, "外语") {
        ColumnType::Subject
    } else if str_has(&l, "班级") || str_has(&l, "备注") || str_has(&l, "原班级") {
        ColumnType::Extra
    } else {
        ColumnType::Ignore
    }
}

/// The role guessed from a column header, matched in lower case.
pub fn infer_column_type(name: &str) -> (r: ColumnType)
    ensures
        r == infer_from_lower(lower_of(name@)),
{
    let lower = lowercase(name);
    infer_column_type_lower(lower.as_str())
}

} // verus!
