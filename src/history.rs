use vstd::prelude::*;
use crate::params::OptimizationParams;
use crate::text::{chars_of, same_chars};

verus! {

/// Most records the history keeps.
pub const MAX_HISTORY: usize = 50;

/// One past division: when, from which file to which, and with which
/// settings.
#[derive(Debug)]
pub struct HistoryRecord {
    pub timestamp: String,
    pub input_path: String,
    pub output_path: Option<String>,
    pub num_classes: usize,
    pub num_students: usize,
    pub format: String,
    pub optimization_params: OptimizationParams,
}

/// Relies on `chrono::Local::now` and `DelayedFormat::to_string`: the local
/// time now as `YYYY-MM-DD hh:mm:ss`. Nothing is claimed of the value.
#[verifier::external_body]
fn local_timestamp() -> String {
    chrono::Local::now().format("%Y-%m-%d %H:%M:%S").to_string()
}

impl HistoryRecord {
    /// A record stamped with the local time now.
    pub fn new(
        input_path: String,
        output_path: Option<String>,
        num_classes: usize,
        num_students: usize,
        format: String,
        optimization_params: OptimizationParams,
    ) -> (r: HistoryRecord)
        ensures
            r.input_path == input_path,
            r.output_path == output_path,
            r.num_classes == num_classes,
            r.num_students == num_students,
            r.format == format,
            r.optimization_params == optimization_params,
    {
        HistoryRecord {
            timestamp: local_timestamp(),
            input_path,
            output_path,
            num_classes,
            num_students,
            format,
            optimization_params,
        }
    }
}

/// The history after adding `record`: newest first, at most `MAX_HISTORY`.
pub open spec fn history_with(records: Seq<HistoryRecord>, record: HistoryRecord) -> Seq<HistoryRecord> {
    let all = seq![record] + records;
    if all.len() > MAX_HISTORY {
        all.take(MAX_HISTORY as int)
    } else {
        all
    }
}

/// The first `n` records whose timestamp is not `ts`, in order.
pub open spec fn kept_records(s: Seq<HistoryRecord>, ts: Seq<char>, n: int) -> Seq<HistoryRecord>
    decreases n,
{
    if n <= 0 {
        Seq::empty()
    } else if s[n - 1].timestamp@ == ts {
        kept_records(s, ts, n - 1)
    } else {
        kept_records(s, ts, n - 1).push(s[n - 1])
    }
}

/// Puts `record` first and keeps at most `MAX_HISTORY` records.
pub fn add_record(records: Vec<HistoryRecord>, record: HistoryRecord) -> (r: Vec<HistoryRecord>)
    ensures
        r@ == history_with(records@, record),
{
    let mut records = records;
    let ghost old_records = records@;
    records.insert(0, record);
    assert(records@ =~= seq![record] + old_records);
    if records.len() > MAX_HISTORY {
        records.truncate(MAX_HISTORY);
    }
    records
}

/// Drops every record with timestamp `timestamp`.
pub fn remove_records_at(records: Vec<HistoryRecord>, timestamp: &str) -> (r: Vec<HistoryRecord>)
    ensures
        r@ == kept_records(records@, timestamp@, records@.len() as int),
{
    let mut records = records;
    let ghost orig = records@;
    let ts = chars_of(timestamp);
    let n = records.len();
    let mut i: usize = 0;
    let mut j: usize = 0;
    while j < n
        invariant
            n == orig.len(),
            j <= n,
            ts@ == timestamp@,
            i == kept_records(orig, ts@, j as int).len(),
            records@ == kept_records(orig, ts@, j as int) + orig.subrange(j as int, n as int),
        decreases n - j,
    {
        let ghost k = kept_records(orig, ts@, j as int);
        let len_now = records.len();
        assert(i < len_now);
        assert(records@[i as int] == orig[j as int]);
        let here = chars_of(records[i].timestamp.as_str());
        if same_chars(&here, &ts) {
            records.remove(i);
            assert(records@ =~= k + orig.subrange(j + 1, n as int));
        } else {
            assert(records@ =~= k.push(orig[j as int]) + orig.subrange(j + 1, n as int));
            i = i + 1;
        }
        j = j + 1;
    }
    assert(records@ =~= kept_records(orig, ts@, n as int));
    records
}

} // verus!
