//! What surrounds a criterion measurement: whether a budget can be measured at all,
//! where criterion leaves its files, and how many samples it took.

use crate::data::{json_document, parse_json, Data, DataV};
use crate::harness::Budget;
use crate::paths::{joined_path, path_join};
use crate::perf::{safe_id, safe_text};
use crate::text::{dec, decimal};
use vstd::prelude::*;

verus! {

/// What is wrong with measuring batches of this size on this budget.
pub open spec fn budget_fault(budget: Budget, batch: u64) -> Option<Seq<char>> {
    if batch == 0 {
        Some("a case must run at least one query per sample"@)
    } else if budget.sample_size < 10 {
        Some(
            "budget.sample_size "@ + dec(budget.sample_size as nat)
                + " is below criterion's minimum of 10"@,
        )
    } else if budget.warm_up_ms == 0 || budget.measurement_ms == 0 {
        Some("budget warm-up and measurement times must be non-zero"@)
    } else {
        None
    }
}

/// Refuse what cannot be measured. Refused, not clamped: the budget is the harness
/// contract, and a driver that quietly measured with a different sample size than it
/// was told would put a number in the dataset that nothing explains. Criterion itself
/// panics on a zero duration and on a sample size below ten.
pub fn check_budget(budget: &Budget, batch: u64) -> (r: Result<(), String>)
    ensures
        (match r {
            Ok(_) => None,
            Err(e) => Some(e@),
        }) == budget_fault(*budget, batch),
{
    if batch == 0 {
        return Err("a case must run at least one query per sample".to_owned());
    }
    if budget.sample_size < 10 {
        let mut s = "budget.sample_size ".to_owned();
        s.append(decimal(budget.sample_size as u64).as_str());
        s.append(" is below criterion's minimum of 10");
        return Err(s);
    }
    if budget.warm_up_ms == 0 || budget.measurement_ms == 0 {
        return Err("budget warm-up and measurement times must be non-zero".to_owned());
    }
    Ok(())
}

/// Where criterion works, and what it leaves there for one case.
#[derive(Debug)]
pub struct CriterionFiles {
    pub out_dir: String,
    /// The directory's name is the identifier, and the identifier also lands in
    /// provenance, so both use the same sanitised form.
    pub id: String,
    pub estimates: String,
    pub sample: String,
}

pub open spec fn criterion_dir(temp: Seq<char>, process: u32) -> Seq<char> {
    path_join(temp, "spatial-bench-driver-"@ + dec(process as nat))
}

pub open spec fn latest_dir(temp: Seq<char>, process: u32, id: Seq<char>) -> Seq<char> {
    path_join(path_join(criterion_dir(temp, process), safe_text(id)), "new"@)
}

/// The directory is left for post-mortems; it is under the temporary directory.
pub fn criterion_files(temp: &str, process: u32, case_id: &str) -> (r: CriterionFiles)
    ensures
        r.out_dir@ == criterion_dir(temp@, process),
        r.id@ == safe_text(case_id@),
        r.estimates@ == path_join(latest_dir(temp@, process, case_id@), "estimates.json"@),
        r.sample@ == path_join(latest_dir(temp@, process, case_id@), "sample.json"@),
{
    let mut name = "spatial-bench-driver-".to_owned();
    name.append(decimal(process as u64).as_str());
    let out_dir = joined_path(temp, name.as_str());
    let id = safe_id(case_id);
    let own = joined_path(out_dir.as_str(), id.as_str());
    let dir = joined_path(own.as_str(), "new");
    CriterionFiles {
        out_dir,
        id,
        estimates: joined_path(dir.as_str(), "estimates.json"),
        sample: joined_path(dir.as_str(), "sample.json"),
    }
}

/// How many times a sample document lists.
pub open spec fn listed_times(sample: DataV) -> Option<nat> {
    match sample.get("times"@) {
        Some(DataV::List(times)) => Some(times.len()),
        _ => None,
    }
}

/// How many samples a document that has been read as JSON lists.
pub fn times_in(sample: &Data) -> (r: Option<u64>)
    ensures
        (match r {
            Some(n) => Some(n as nat),
            None => None,
        }) == listed_times(sample@),
{
    match sample.get("times") {
        Some(times) => match times.as_list() {
            Some(list) => Some(list.len() as u64),
            None => None,
        },
        None => None,
    }
}

/// The sample count that criterion recorded; absent, not zero, where there is none: a
/// zero would read as a real measurement of nothing once it reached a chart.
pub fn sample_count(text: Option<&str>) -> (r: Option<u64>)
    ensures
        (match r {
            Some(n) => Some(n as nat),
            None => None,
        }) == (match text {
            Some(s) => match json_document(s@) {
                Ok(sample) => listed_times(sample),
                Err(_) => None,
            },
            None => None,
        }),
{
    match text {
        Some(s) => match parse_json(s) {
            Ok(sample) => times_in(&sample),
            Err(_) => None,
        },
        None => None,
    }
}

} // verus!
