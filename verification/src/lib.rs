//! A benchmark engine for spatial indexes, as a verified library.
//!
//! Each module states what it decides as contracts over mathematical models and
//! is proved against them; programs around the library do the reading, the
//! writing and the running of processes.

pub mod adapter;
pub mod build_laws;
pub mod calendar;
pub mod case;
pub mod catalog;
pub mod catalog_laws;
pub mod catalog_load;
pub mod catalog_load_laws;
pub mod chart;
pub mod chart_laws;
pub mod cli;
pub mod conform;
pub mod context;
pub mod data;
pub mod dataset;
pub mod dataset_laws;
pub mod digest;
pub mod exec;
pub mod exec_laws;
pub mod execute;
pub mod fingerprint;
pub mod fingerprint_laws;
pub mod harness;
pub mod host_laws;
pub mod kitty;
pub mod layout;
pub mod machine;
pub mod manifest;
pub mod manifest_laws;
pub mod measure;
pub mod menu;
pub mod ordered;
pub mod package;
pub mod paths;
pub mod perf;
pub mod perf_laws;
pub mod picker;
pub mod picker_laws;
pub mod report_laws;
pub mod resolve;
pub mod results;
pub mod run;
pub mod run_laws;
pub mod schema;
pub mod schema_laws;
pub mod selection_laws;
pub mod selector;
pub mod selector_laws;
pub mod session_laws;
pub mod steps;
pub mod submit;
pub mod submit_laws;
pub mod tag;
pub mod term;
pub mod text;
pub mod text_laws;
pub mod toolchain;
pub mod value_laws;
pub mod version;
pub mod vocab;

pub use catalog::Catalog;
pub use selector::{Selector, SelectorSet};

use crate::catalog_laws::distinct_axes;
use crate::catalog_load::{catalog_result, load_dir, loaded, tables_in_order, SubjectDir};
use crate::manifest::ManifestError;
use crate::ordered::ascending;
use crate::tag::Floats;
use vstd::prelude::*;

verus! {

/// Load every vendored subject manifest of a `subjects` directory.
///
/// Subjects are always vendored, so this is the only way in which cases enter the
/// catalog.
pub fn load_subjects(entries: Vec<SubjectDir>, floats: &Floats) -> (r: Result<Catalog, ManifestError>)
    requires
        forall|i: int| 0 <= i < entries@.len() ==> tables_in_order(#[trigger] entries@[i]),
    ensures
        exists|order: Seq<SubjectDir>|
            #![trigger loaded(order, *floats)]
            ascending::<SubjectDir>(order) && order.to_multiset() == entries@.to_multiset()
                && catalog_result(r) == loaded(order, *floats),
        r matches Ok(c) ==> forall|i: int|
            0 <= i < c@.cases.len() ==> distinct_axes(#[trigger] c@.cases[i]),
{
    load_dir(entries, floats)
}

} // verus!
