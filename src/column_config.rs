use vstd::prelude::*;
use crate::text::{chars_of, same_chars};

verus! {

/// Where the fields of a student are in the input table. Subject and extra
/// columns are listed by name, each name once, in order of first mention.
#[derive(Debug)]
pub struct ColumnConfig {
    pub name_column: usize,
    pub student_id_column: Option<usize>,
    pub gender_column: usize,
    pub total_score_column: Option<usize>,
    pub subject_columns: Vec<(String, usize)>,
    pub extra_columns: Vec<(String, usize)>,
}

/// A required column that was not given.
#[derive(Clone, Copy, Debug, PartialEq, Eq, Structural)]
pub enum ConfigError {
    MissingNameColumn,
    MissingGenderColumn,
}

/// Collects a `ColumnConfig` step by step.
#[derive(Debug)]
pub struct ExcelColumnConfigBuilder {
    pub name: Option<usize>,
    pub id: Option<usize>,
    pub gender: Option<usize>,
    pub total_score: Option<usize>,
    pub subject_score: Vec<(String, usize)>,
    pub extra: Vec<(String, usize)>,
}

pub open spec fn has_key(entries: Seq<(String, usize)>, key: Seq<char>) -> bool {
    exists|i: int| 0 <= i < entries.len() && (#[trigger] entries[i]).0@ == key
}

/// `after` is `before` with `key` mapped to `col`: the column of every entry
/// named `key` replaced when there is one, else a new entry at the end.
pub open spec fn sets_entry(
    before: Seq<(String, usize)>,
    after: Seq<(String, usize)>,
    key: Seq<char>,
    col: usize,
) -> bool {
    if has_key(before, key) {
        &&& after.len() == before.len()
        &&& forall|j: int|
            0 <= j < before.len() ==> (#[trigger] after[j]).0@ == before[j].0@ && after[j].1 == (if before[j].0@
                == key {
                col
            } else {
                before[j].1
            })
    } else {
        &&& after.len() == before.len() + 1
        &&& after.take(before.len() as int) == before
        &&& after[before.len() as int].0@ == key
        &&& after[before.len() as int].1 == col
    }
}

/// Maps `key` to `col` in `entries`.
fn set_entry(entries: &mut Vec<(String, usize)>, key: String, col: usize)
    ensures
        sets_entry(old(entries)@, final(entries)@, key@, col),
{
    let k = chars_of(key.as_str());
    let n = entries.len();
    let mut found = false;
    let mut i: usize = 0;
    let ghost before = entries@;
    while i < n
        invariant
            n == before.len(),
            entries@.len() == n,
            i <= n,
            k@ == key@,
            found <==> exists|j: int| 0 <= j < i && (#[trigger] before[j]).0@ == key@,
            forall|j: int|
                0 <= j < i ==> if before[j].0@ == key@ {
                    (#[trigger] entries@[j]).0 == before[j].0 && entries@[j].1 == col
                } else {
                    entries@[j] == before[j]
                },
            forall|j: int| i <= j < n ==> #[trigger] entries@[j] == before[j],
        decreases n - i,
    {
        let here = chars_of(entries[i].0.as_str());
        if same_chars(&here, &k) {
            entries[i].1 = col;
            found = true;
        }
        i = i + 1;
    }
    if !found {
        entries.push((key, col));
        assert(entries@.take(n as int) =~= before);
    }
}

impl ColumnConfig {
    pub fn builder() -> (r: ExcelColumnConfigBuilder)
        ensures
            r.name is None,
            r.id is None,
            r.gender is None,
            r.total_score is None,
            r.subject_score@.len() == 0,
            r.extra@.len() == 0,
    {
        ExcelColumnConfigBuilder {
            name: None,
            id: None,
            gender: None,
            total_score: None,
            subject_score: Vec::new(),
            extra: Vec::new(),
        }
    }
}

impl ExcelColumnConfigBuilder {
    pub fn name(self, col: usize) -> (r: ExcelColumnConfigBuilder)
        ensures
            r == (ExcelColumnConfigBuilder { name: Some(col), ..self }),
    {
        ExcelColumnConfigBuilder { name: Some(col), ..self }
    }

    pub fn id(self, col: usize) -> (r: ExcelColumnConfigBuilder)
        ensures
            r == (ExcelColumnConfigBuilder { id: Some(col), ..self }),
    {
        ExcelColumnConfigBuilder { id: Some(col), ..self }
    }

    pub fn gender(self, col: usize) -> (r: ExcelColumnConfigBuilder)
        ensures
            r == (ExcelColumnConfigBuilder { gender: Some(col), ..self }),
    {
        ExcelColumnConfigBuilder { gender: Some(col), ..self }
    }

    pub fn total_score(self, col: usize) -> (r: ExcelColumnConfigBuilder)
        ensures
            r == (ExcelColumnConfigBuilder { total_score: Some(col), ..self }),
    {
        ExcelColumnConfigBuilder { total_score: Some(col), ..self }
    }

    pub fn add_subject(self, name: String, col: usize) -> (r: ExcelColumnConfigBuilder)
        ensures
            sets_entry(self.subject_score@, r.subject_score@, name@, col),
            r.name == self.name,
            r.id == self.id,
            r.gender == self.gender,
            r.total_score == self.total_score,
            r.extra@ == self.extra@,
    {
        let mut b = self;
        set_entry(&mut b.subject_score, name, col);
        b
    }

    pub fn add_extra(self, name: String, col: usize) -> (r: ExcelColumnConfigBuilder)
        ensures
            sets_entry(self.extra@, r.extra@, name@, col),
            r.name == self.name,
            r.id == self.id,
            r.gender == self.gender,
            r.total_score == self.total_score,
            r.subject_score@ == self.subject_score@,
    {
        let mut b = self;
        set_entry(&mut b.extra, name, col);
        b
    }

    /// The configuration; the name and gender columns are required.
    pub fn build(self) -> (r: Result<ColumnConfig, ConfigError>)
        ensures
            self.name is None ==> r == Err::<ColumnConfig, ConfigError>(ConfigError::MissingNameColumn),
            self.name is Some && self.gender is None ==> r == Err::<ColumnConfig, ConfigError>(
                ConfigError::MissingGenderColumn,
            ),
            self.name is Some && self.gender is Some ==> r == Ok::<ColumnConfig, ConfigError>(
                ColumnConfig {
                    name_column: self.name->0,
                    student_id_column: self.id,
                    gender_column: self.gender->0,
                    total_score_column: self.total_score,
                    subject_columns: self.subject_score,
                    extra_columns: self.extra,
                },
            ),
    {
        let name_column = match self.name {
            Some(c) => c,
            None => {
                return Err(ConfigError::MissingNameColumn);
            },
        };
        let gender_column = match self.gender {
            Some(c) => c,
            None => {
                return Err(ConfigError::MissingGenderColumn);
            },
        };
        Ok(
            ColumnConfig {
                name_column,
                student_id_column: self.id,
                gender_column,
                total_score_column: self.total_score,
                subject_columns: self.subject_score,
                extra_columns: self.extra,
            },
        )
    }
}

} // verus!
