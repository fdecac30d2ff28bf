use vstd::prelude::*;

verus! {

/// Hundredths of a point in one point of score.
pub const SCORE_SCALE: u32 = 100;

/// The category a student is balanced on.
#[derive(Clone, Copy, Debug, PartialEq, Eq, Structural, Hash)]
pub enum Gender {
    Male,
    Female,
}

/// One student: subject scores in a fixed subject order (hundredths of a
/// point) and the total score.
#[derive(Debug)]
pub struct Student {
    pub name: String,
    pub id: Option<String>,
    pub gender: Gender,
    pub scores: Vec<u32>,
    pub total_score: u32,
    pub extra_fields: Vec<(String, String)>,
}

/// Sum of the first `n` values of `s`.
pub open spec fn seq_sum(s: Seq<u32>, n: int) -> int
    decreases n,
{
    if n <= 0 || n > s.len() {
        0
    } else {
        seq_sum(s, n - 1) + s[n - 1] as int
    }
}

/// Score of subject `k` of a student; a missing subject counts as zero.
pub open spec fn subject_score(s: Student, k: int) -> int {
    if 0 <= k < s.scores@.len() {
        s.scores@[k] as int
    } else {
        0
    }
}

pub open spec fn male_of(s: Student) -> int {
    if s.gender == Gender::Male {
        1
    } else {
        0
    }
}

pub open spec fn female_of(s: Student) -> int {
    if s.gender == Gender::Female {
        1
    } else {
        0
    }
}

pub proof fn lemma_seq_sum_mono(s: Seq<u32>, n: int)
    requires
        0 <= n < s.len(),
    ensures
        seq_sum(s, n) <= seq_sum(s, n + 1),
        seq_sum(s, n) >= 0,
    decreases n,
{
    if n > 0 {
        lemma_seq_sum_mono(s, n - 1);
    }
}

impl Gender {
    /// Reads the category from its label: "男" is male, "女" is female.
    pub fn from_label(s: &str) -> (r: Option<Gender>)
        ensures
            r == Some(Gender::Male) <==> s@ == "男"@,
            r == Some(Gender::Female) <==> s@ == "女"@,
    {
        let c = crate::text::chars_of(s);
        let m = crate::text::chars_of("男");
        let f = crate::text::chars_of("女");
        proof {
            reveal_strlit("男");
            reveal_strlit("女");
            assert("男"@[0] != "女"@[0]);
        }
        if crate::text::same_chars(&c, &m) {
            Some(Gender::Male)
        } else if crate::text::same_chars(&c, &f) {
            Some(Gender::Female)
        } else {
            None
        }
    }
}

/// A gender label other than "男" or "女".
#[derive(Clone, Copy, Debug, PartialEq, Eq, Structural)]
pub struct InvalidGender;

impl std::str::FromStr for Gender {
    type Err = InvalidGender;

    fn from_str(s: &str) -> (r: Result<Gender, InvalidGender>) {
        match Gender::from_label(s) {
            Some(g) => Ok(g),
            None => Err(InvalidGender),
        }
    }
}

impl Student {
    /// A student whose total score is the sum of the subject scores.
    pub fn new(name: String, gender: Gender, scores: Vec<u32>) -> (r: Student)
        requires
            seq_sum(scores@, scores@.len() as int) <= u32::MAX,
        ensures
            r.name == name,
            r.id is None,
            r.gender == gender,
            r.scores@ == scores@,
            r.total_score == seq_sum(scores@, scores@.len() as int),
            r.extra_fields@.len() == 0,
    {
        let mut total: u32 = 0;
        let mut i: usize = 0;
        while i < scores.len()
            invariant
                0 <= i <= scores@.len(),
                total == seq_sum(scores@, i as int),
                seq_sum(scores@, scores@.len() as int) <= u32::MAX,
            decreases scores@.len() - i,
        {
            proof {
                lemma_sum_prefix_le(scores@, i as int + 1, scores@.len() as int);
            }
            total = total + scores[i];
            i = i + 1;
        }
        Student { name, id: None, gender, scores, total_score: total, extra_fields: Vec::new() }
    }

    pub fn with_id(self, id: Option<String>) -> (r: Student)
        ensures
            r == (Student { id, ..self }),
    {
        Student { id, ..self }
    }

    pub fn with_extra_fields(self, extra_fields: Vec<(String, String)>) -> (r: Student)
        ensures
            r == (Student { extra_fields, ..self }),
    {
        Student { extra_fields, ..self }
    }
}

pub proof fn lemma_sum_prefix_le(s: Seq<u32>, a: int, b: int)
    requires
        0 <= a <= b <= s.len(),
    ensures
        0 <= seq_sum(s, a) <= seq_sum(s, b),
    decreases b - a,
{
    if a < b {
        lemma_sum_prefix_le(s, a, b - 1);
        lemma_seq_sum_mono(s, b - 1);
    } else if a > 0 {
        lemma_seq_sum_mono(s, a - 1);
    }
}

/// Two student records hold the same data.
pub open spec fn same_student(a: Student, b: Student) -> bool {
    &&& a.name == b.name
    &&& a.id == b.id
    &&& a.gender == b.gender
    &&& a.scores@ == b.scores@
    &&& a.total_score == b.total_score
    &&& a.extra_fields@ == b.extra_fields@
}

impl Student {
    /// A copy of the record.
    pub fn duplicate(&self) -> (r: Student)
        ensures
            same_student(r, *self),
    {
        let id = match &self.id {
            Some(x) => Some(x.clone()),
            None => None,
        };
        let mut scores: Vec<u32> = Vec::new();
        let mut i: usize = 0;
        while i < self.scores.len()
            invariant
                i <= self.scores@.len(),
                scores@ == self.scores@.take(i as int),
            decreases self.scores@.len() - i,
        {
            scores.push(self.scores[i]);
            i = i + 1;
            assert(scores@ =~= self.scores@.take(i as int));
        }
        assert(scores@ =~= self.scores@);
        let mut extra: Vec<(String, String)> = Vec::new();
        let mut j: usize = 0;
        while j < self.extra_fields.len()
            invariant
                j <= self.extra_fields@.len(),
                extra@ == self.extra_fields@.take(j as int),
            decreases self.extra_fields@.len() - j,
        {
            let k = self.extra_fields[j].0.clone();
            let v = self.extra_fields[j].1.clone();
            extra.push((k, v));
            j = j + 1;
            assert(extra@ =~= self.extra_fields@.take(j as int));
        }
        assert(extra@ =~= self.extra_fields@);
        Student {
            name: self.name.clone(),
            id,
            gender: self.gender,
            scores,
            total_score: self.total_score,
            extra_fields: extra,
        }
    }
}

/// A class: its number and its students.
#[derive(Debug)]
pub struct Class {
    pub id: usize,
    pub students: Vec<Student>,
}

/// Sum of the total scores of the first `n` students.
pub open spec fn total_sum_of(s: Seq<Student>, n: int) -> int
    decreases n,
{
    if n <= 0 {
        0
    } else {
        total_sum_of(s, n - 1) + s[n - 1].total_score as int
    }
}

/// Sum of the scores in subject `k` of the first `n` students.
pub open spec fn subject_sum_of(s: Seq<Student>, k: int, n: int) -> int
    decreases n,
{
    if n <= 0 {
        0
    } else {
        subject_sum_of(s, k, n - 1) + subject_score(s[n - 1], k)
    }
}

/// Number of male students among the first `n`.
pub open spec fn male_count_of(s: Seq<Student>, n: int) -> int
    decreases n,
{
    if n <= 0 {
        0
    } else {
        male_count_of(s, n - 1) + male_of(s[n - 1])
    }
}

/// Number of female students among the first `n`.
pub open spec fn female_count_of(s: Seq<Student>, n: int) -> int
    decreases n,
{
    if n <= 0 {
        0
    } else {
        female_count_of(s, n - 1) + female_of(s[n - 1])
    }
}

/// Average total score of a class; zero when it is empty.
pub open spec fn class_avg_total(c: Class) -> int {
    let n = c.students@.len() as int;
    if n == 0 {
        0
    } else {
        total_sum_of(c.students@, n) / n
    }
}

/// Average score in subject `k` of a class; zero when it is empty.
pub open spec fn class_avg_subject(c: Class, k: int) -> int {
    let n = c.students@.len() as int;
    if n == 0 {
        0
    } else {
        subject_sum_of(c.students@, k, n) / n
    }
}

/// Share of male students of a class in ten-thousandths; zero when it is
/// empty.
pub open spec fn class_gender_ratio(c: Class) -> int {
    let n = c.students@.len() as int;
    if n == 0 {
        0
    } else {
        male_count_of(c.students@, n) * 10000 / n
    }
}

proof fn lemma_sums_bounded(s: Seq<Student>, k: int, n: int)
    requires
        0 <= n <= s.len(),
    ensures
        0 <= total_sum_of(s, n) <= n * u32::MAX,
        0 <= subject_sum_of(s, k, n) <= n * u32::MAX,
        0 <= male_count_of(s, n) <= n,
        0 <= female_count_of(s, n) <= n,
    decreases n,
{
    if n > 0 {
        lemma_sums_bounded(s, k, n - 1);
    }
}

/// Number of the first `n` students that have a score in subject `k`.
pub open spec fn count_having(s: Seq<Student>, k: int, n: int) -> int
    decreases n,
{
    if n <= 0 {
        0
    } else {
        count_having(s, k, n - 1) + if 0 <= k < s[n - 1].scores@.len() {
            1int
        } else {
            0int
        }
    }
}

/// Sum of the squared distances from `mean` of the subject-`k` scores of the
/// first `n` students that have one.
pub open spec fn sq_dev_having(s: Seq<Student>, k: int, mean: int, n: int) -> int
    decreases n,
{
    if n <= 0 {
        0
    } else {
        sq_dev_having(s, k, mean, n - 1) + if 0 <= k < s[n - 1].scores@.len() {
            (subject_score(s[n - 1], k) - mean) * (subject_score(s[n - 1], k) - mean)
        } else {
            0
        }
    }
}

/// Variance, rounded down, of the subject-`k` scores of the students of a
/// class that have one (around their mean rounded down); zero when none has.
pub open spec fn subject_variance_of(c: Class, k: int) -> int {
    let n = c.students@.len() as int;
    let cnt = count_having(c.students@, k, n);
    if cnt == 0 {
        0
    } else {
        sq_dev_having(c.students@, k, subject_sum_of(c.students@, k, n) / cnt, n) / cnt
    }
}

proof fn lemma_having_bounds(s: Seq<Student>, k: int, mean: int, n: int)
    requires
        0 <= n <= s.len(),
        0 <= mean <= u32::MAX,
    ensures
        0 <= count_having(s, k, n) <= n,
        0 <= subject_sum_of(s, k, n) <= count_having(s, k, n) * u32::MAX,
        0 <= sq_dev_having(s, k, mean, n) <= n * (u32::MAX as int * u32::MAX as int),
    decreases n,
{
    if n > 0 {
        lemma_having_bounds(s, k, mean, n - 1);
        let d = subject_score(s[n - 1], k) - mean;
        assert(d * d <= u32::MAX as int * u32::MAX as int) by (nonlinear_arith)
            requires -(u32::MAX as int) <= d <= u32::MAX;
        assert(d * d >= 0) by (nonlinear_arith);
        assert((n - 1) * (u32::MAX as int * u32::MAX as int) + u32::MAX as int * u32::MAX as int
            == n * (u32::MAX as int * u32::MAX as int)) by (nonlinear_arith);
        let c = count_having(s, k, n - 1);
        assert(c * u32::MAX + u32::MAX == (c + 1) * u32::MAX) by (nonlinear_arith);
    }
}

impl Class {
    /// The variance of each listed subject within the class.
    pub fn subject_variances(&self, subjects: &Vec<usize>) -> (r: Vec<u128>)
        ensures
            r@.len() == subjects@.len(),
            forall|j: int|
                0 <= j < subjects@.len() ==> #[trigger] r@[j] == subject_variance_of(*self, subjects@[j] as int),
    {
        let mut out: Vec<u128> = Vec::new();
        let mut j: usize = 0;
        while j < subjects.len()
            invariant
                j <= subjects@.len(),
                out@.len() == j,
                forall|q: int|
                    0 <= q < j ==> #[trigger] out@[q] == subject_variance_of(*self, subjects@[q] as int),
            decreases subjects@.len() - j,
        {
            out.push(self.subject_variance(subjects[j]));
            j = j + 1;
        }
        out
    }

    fn subject_variance(&self, k: usize) -> (r: u128)
        ensures
            r == subject_variance_of(*self, k as int),
    {
        let n = self.students.len();
        let ghost st = self.students@;
        let mut cnt: usize = 0;
        let mut sum: u128 = 0;
        let mut i: usize = 0;
        while i < n
            invariant
                n == st.len(),
                st == self.students@,
                i <= n,
                cnt == count_having(st, k as int, i as int),
                sum == subject_sum_of(st, k as int, i as int),
            decreases n - i,
        {
            proof {
                lemma_having_bounds(st, k as int, 0, i as int);
                assert(count_having(st, k as int, i as int) * u32::MAX + u32::MAX <= u128::MAX)
                    by (nonlinear_arith)
                    requires count_having(st, k as int, i as int) <= usize::MAX;
            }
            let s = &self.students[i];
            if k < s.scores.len() {
                cnt = cnt + 1;
                sum = sum + s.scores[k] as u128;
            }
            i = i + 1;
        }
        if cnt == 0 {
            return 0;
        }
        let mean: u128 = sum / cnt as u128;
        proof {
            lemma_having_bounds(st, k as int, 0, n as int);
            assert(mean <= u32::MAX) by (nonlinear_arith)
                requires mean == sum as int / cnt as int, sum <= cnt * u32::MAX, cnt > 0;
        }
        let mut sq: u128 = 0;
        let mut i: usize = 0;
        while i < n
            invariant
                n == st.len(),
                st == self.students@,
                i <= n,
                mean <= u32::MAX,
                sq == sq_dev_having(st, k as int, mean as int, i as int),
            decreases n - i,
        {
            proof {
                lemma_having_bounds(st, k as int, mean as int, i as int + 1);
                assert((i + 1) * (u32::MAX as int * u32::MAX as int) <= u128::MAX) by (nonlinear_arith)
                    requires i + 1 <= usize::MAX;
            }
            let s = &self.students[i];
            if k < s.scores.len() {
                let v = s.scores[k] as u128;
                let d: u128 = if v >= mean {
                    v - mean
                } else {
                    mean - v
                };
                proof {
                    assert((v - mean) * (v - mean) == d * d) by (nonlinear_arith)
                        requires d == (if v >= mean { v - mean } else { mean - v });
                }
                sq = sq + d * d;
            }
            i = i + 1;
        }
        sq / cnt as u128
    }

    pub fn new(id: usize) -> (r: Class)
        ensures
            r.id == id,
            r.students@.len() == 0,
    {
        Class { id, students: Vec::new() }
    }

    pub fn add_student(&mut self, student: Student)
        ensures
            final(self).id == old(self).id,
            final(self).students@ == old(self).students@.push(student),
    {
        self.students.push(student);
    }

    pub fn male_count(&self) -> (r: usize)
        ensures
            r == male_count_of(self.students@, self.students@.len() as int),
    {
        let mut c: usize = 0;
        let mut i: usize = 0;
        while i < self.students.len()
            invariant
                i <= self.students@.len(),
                c == male_count_of(self.students@, i as int),
            decreases self.students@.len() - i,
        {
            proof {
                lemma_sums_bounded(self.students@, 0, i as int);
            }
            if self.students[i].gender == Gender::Male {
                c = c + 1;
            }
            i = i + 1;
        }
        c
    }

    pub fn female_count(&self) -> (r: usize)
        ensures
            r == female_count_of(self.students@, self.students@.len() as int),
    {
        let mut c: usize = 0;
        let mut i: usize = 0;
        while i < self.students.len()
            invariant
                i <= self.students@.len(),
                c == female_count_of(self.students@, i as int),
            decreases self.students@.len() - i,
        {
            proof {
                lemma_sums_bounded(self.students@, 0, i as int);
            }
            if self.students[i].gender == Gender::Female {
                c = c + 1;
            }
            i = i + 1;
        }
        c
    }

    /// Average total score, rounded down; zero for an empty class.
    pub fn avg_total_score(&self) -> (r: u32)
        ensures
            r == class_avg_total(*self),
    {
        let n = self.students.len();
        if n == 0 {
            return 0;
        }
        let mut sum: u128 = 0;
        let mut i: usize = 0;
        while i < n
            invariant
                n == self.students@.len(),
                i <= n,
                sum == total_sum_of(self.students@, i as int),
            decreases n - i,
        {
            proof {
                lemma_sums_bounded(self.students@, 0, i as int);
                assert(i * u32::MAX + u32::MAX <= u128::MAX) by (nonlinear_arith)
                    requires i <= usize::MAX;
            }
            sum = sum + self.students[i].total_score as u128;
            i = i + 1;
        }
        proof {
            lemma_sums_bounded(self.students@, 0, n as int);
            assert(sum as int / n as int <= u32::MAX) by (nonlinear_arith)
                requires sum <= n * u32::MAX, n > 0;
        }
        (sum / n as u128) as u32
    }

    /// Average score in subject `k`, rounded down; zero for an empty class.
    pub fn avg_subject_score(&self, k: usize) -> (r: u32)
        ensures
            r == class_avg_subject(*self, k as int),
    {
        let n = self.students.len();
        if n == 0 {
            return 0;
        }
        let mut sum: u128 = 0;
        let mut i: usize = 0;
        while i < n
            invariant
                n == self.students@.len(),
                i <= n,
                sum == subject_sum_of(self.students@, k as int, i as int),
            decreases n - i,
        {
            proof {
                lemma_sums_bounded(self.students@, k as int, i as int);
                assert(i * u32::MAX + u32::MAX <= u128::MAX) by (nonlinear_arith)
                    requires i <= usize::MAX;
            }
            let s = &self.students[i];
            if k < s.scores.len() {
                sum = sum + s.scores[k] as u128;
            }
            i = i + 1;
        }
        proof {
            lemma_sums_bounded(self.students@, k as int, n as int);
            assert(sum as int / n as int <= u32::MAX) by (nonlinear_arith)
                requires sum <= n * u32::MAX, n > 0;
        }
        (sum / n as u128) as u32
    }

    /// Share of male students in ten-thousandths, rounded down; zero for an
    /// empty class.
    pub fn gender_ratio(&self) -> (r: u32)
        ensures
            r == class_gender_ratio(*self),
    {
        let n = self.students.len();
        if n == 0 {
            return 0;
        }
        let m = self.male_count();
        proof {
            lemma_sums_bounded(self.students@, 0, n as int);
            assert(m as int * 10000 / n as int <= 10000) by (nonlinear_arith)
                requires m <= n, n > 0;
        }
        ((m as u128 * 10000) / n as u128) as u32
    }

    /// Squared distance of the average total score from `mean`; zero for an
    /// empty class.
    pub fn variance(&self, mean: u32) -> (r: u64)
        ensures
            r == (if self.students@.len() == 0 {
                0
            } else {
                (class_avg_total(*self) - mean) * (class_avg_total(*self) - mean)
            }),
    {
        if self.students.len() == 0 {
            return 0;
        }
        let avg = self.avg_total_score();
        let d: u64 = if avg >= mean {
            (avg - mean) as u64
        } else {
            (mean - avg) as u64
        };
        proof {
            assert(d * d <= u64::MAX) by (nonlinear_arith)
                requires d <= u32::MAX;
            assert((avg - mean) * (avg - mean) == d * d) by (nonlinear_arith)
                requires d == (if avg >= mean { avg - mean } else { mean - avg });
        }
        d * d
    }
}

/// Whether some student has an identifier that was not generated from a row
/// number (generated ones start with `R`).
pub open spec fn has_real_id(classes: Seq<Class>) -> bool {
    exists|g: int, q: int|
        0 <= g < classes.len() && 0 <= q < classes[g].students@.len() && match (
        #[trigger] classes[g].students@[q]).id {
            Some(id) => !(id@.len() > 0 && id@[0] == 'R'),
            None => false,
        }
}

pub fn has_real_student_ids(classes: &[Class]) -> (r: bool)
    ensures
        r == has_real_id(classes@),
{
    let mut g: usize = 0;
    while g < classes.len()
        invariant
            g <= classes@.len(),
            forall|h: int, q: int|
                0 <= h < g && 0 <= q < classes@[h].students@.len() ==> match (
                #[trigger] classes@[h].students@[q]).id {
                    Some(id) => id@.len() > 0 && id@[0] == 'R',
                    None => true,
                },
        decreases classes@.len() - g,
    {
        let c = &classes[g];
        let mut q: usize = 0;
        while q < c.students.len()
            invariant
                g < classes@.len(),
                *c == classes@[g as int],
                q <= c.students@.len(),
                forall|h: int, p: int|
                    0 <= h < g && 0 <= p < classes@[h].students@.len() ==> match (
                    #[trigger] classes@[h].students@[p]).id {
                        Some(id) => id@.len() > 0 && id@[0] == 'R',
                        None => true,
                    },
                forall|p: int|
                    0 <= p < q ==> match (#[trigger] c.students@[p]).id {
                        Some(id) => id@.len() > 0 && id@[0] == 'R',
                        None => true,
                    },
            decreases c.students@.len() - q,
        {
            match &c.students[q].id {
                Some(id) => {
                    let cs = crate::text::chars_of(id.as_str());
                    if cs.len() == 0 || cs[0] != 'R' {
                        proof {
                            assert(classes@[g as int].students@[q as int] == c.students@[q as int]);
                        }
                        return true;
                    }
                },
                None => {},
            }
            q = q + 1;
        }
        g = g + 1;
    }
    false
}

} // verus!
