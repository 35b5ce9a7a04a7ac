//! Source resolution shared by the run pipeline and the conformance check: where a
//! subject's source and its driver crate come from for a given build.
//!
//! One implementation, two callers. Resolution order for a driver crate: a
//! manifest-relative path (driver assets beside the manifest), then an engine-owned
//! crate under the engine checkout, then the published version the manifest pins. For
//! a subject's source: a working tree, else the manifest's pin.

use crate::catalog::{driver_choice, facts_in, Catalog, CatalogV};
use crate::package::{DriverSource, DriverSourceV, SubjectSource, SubjectSourceV};
use crate::paths::{joined_path, path_join};
use crate::text::{option_text, same};
use vstd::prelude::*;

verus! {

/// A working tree to build a subject from.
#[derive(Debug)]
pub struct SubjectPath {
    pub name: String,
    pub path: String,
}

/// A [`SubjectPath`] by its contents.
pub struct SubjectPathV {
    pub name: Seq<char>,
    pub path: Seq<char>,
}

impl View for SubjectPath {
    type V = SubjectPathV;

    open spec fn view(&self) -> SubjectPathV {
        SubjectPathV {
            name: self.name@,
            path: self.path@,
        }
    }
}

impl Clone for SubjectPath {
    fn clone(&self) -> (r: Self)
        ensures
            r@ == self@,
    {
        let r = SubjectPath {
            name: self.name.clone(),
            path: self.path.clone(),
        };
        r
    }
}

/// What resolution needs. Both callers hold these; both pass the same fields.
pub struct Inputs<'a> {
    pub catalog: &'a Catalog,
    pub engine_root: &'a Option<String>,
    pub subject_paths: &'a Vec<SubjectPath>,
}

pub open spec fn overrides(v: Seq<SubjectPath>) -> Seq<SubjectPathV> {
    Seq::new(v.len(), |i: int| v[i]@)
}

/// The working tree given for a subject.
pub open spec fn override_of(paths: Seq<SubjectPathV>, subject: Seq<char>) -> Option<Seq<char>>
    decreases paths.len(),
{
    if paths.len() == 0 {
        None
    } else if paths[0].name == subject {
        Some(paths[0].path)
    } else {
        override_of(paths.drop_first(), subject)
    }
}

/// The working tree given for a subject.
pub fn subject_override(paths: &Vec<SubjectPath>, subject: &str) -> (r: Option<String>)
    ensures
        option_text(r) == override_of(overrides(paths@), subject@),
{
    let ghost all = overrides(paths@);
    let mut i: usize = 0;
    assert(all.skip(0) =~= all);
    while i < paths.len()
        invariant
            i <= paths@.len(),
            all == overrides(paths@),
            override_of(all, subject@) == override_of(all.skip(i as int), subject@),
        decreases paths@.len() - i,
    {
        assert(all.skip(i as int).drop_first() =~= all.skip(i + 1));
        assert(all.skip(i as int)[0] == paths@[i as int]@);
        if same(paths[i].name.as_str(), subject) {
            return Some(paths[i].path.clone());
        }
        i = i + 1;
    }
    None
}

/// Where the manifest says the driver's assets stand.
pub open spec fn manifest_place(cat: CatalogV, subject: Seq<char>) -> Option<Seq<char>> {
    match (facts_in(cat.subjects, subject), driver_choice(cat.subjects, subject)) {
        (Some(f), Ok(d)) => match d.path {
            Some(p) => Some(path_join(f.manifest_dir, p)),
            None => None,
        },
        _ => None,
    }
}

/// Where an engine checkout would hold the driver crate.
pub open spec fn engine_place(root: Seq<char>, driver_crate: Seq<char>) -> Seq<char> {
    path_join(path_join(root, "crates"@), driver_crate)
}

/// The path at which an engine checkout would hold the driver crate.
pub fn engine_driver_path(root: &str, driver_crate: &str) -> (r: String)
    ensures
        r@ == engine_place(root@, driver_crate@),
{
    joined_path(joined_path(root, "crates").as_str(), driver_crate)
}

/// Which of the two places of a driver crate are there.
#[derive(Clone, Copy, Debug, PartialEq, Eq, Structural)]
pub struct Places {
    pub in_manifest: bool,
    pub in_engine: bool,
}

/// Where the driver crate of a subject comes from, and the cache-lane identity for
/// it.
pub open spec fn driver_place(
    cat: CatalogV,
    engine_root: Option<Seq<char>>,
    subject: Seq<char>,
    driver_crate: Seq<char>,
    there: Places,
) -> Result<(DriverSourceV, Seq<char>), Seq<char>> {
    match manifest_place(cat, subject) {
        Some(path) if there.in_manifest => Ok(
            (
                DriverSourceV::Path(path),
                match engine_root {
                    Some(root) => "path:"@ + path + ";engine:"@ + root,
                    None => "path:"@ + path,
                },
            ),
        ),
        _ => match engine_root {
            Some(root) if there.in_engine => Ok(
                (DriverSourceV::Path(engine_place(root, driver_crate)), "path:"@ + root),
            ),
            _ => match driver_choice(cat.subjects, subject) {
                Ok(d) if d.version is Some => Ok(
                    (
                        DriverSourceV::Registry { version: d.version->Some_0 },
                        "registry:"@ + d.version->Some_0,
                    ),
                ),
                _ => Err(
                    "no driver at the path "@ + subject
                        + "'s manifest declares, no engine source tree to build "@ + driver_crate
                        + " from, and no published driver version.\nPoint at a checkout:  --engine-src /path/to/spatial-bench"@,
                ),
            },
        },
    }
}

/// Where the driver crate for `subject` comes from, and the cache-lane identity for
/// it. The cache key covers which branch resolved, so a manifest-path build and an
/// engine-path build of the same source never share a directory.
pub fn driver_source(inputs: &Inputs, subject: &str, driver_crate: &str, there: Places) -> (r: Result<
    (DriverSource, String),
    String,
>)
    ensures
        (match r {
            Ok((d, rev)) => Ok((d@, rev@)),
            Err(e) => Err(e@),
        }) == driver_place(
            inputs.catalog@,
            option_text(*inputs.engine_root),
            subject@,
            driver_crate@,
            there,
        ),
{
    if let Some(path) = inputs.catalog.manifest_driver_path(subject) {
        if there.in_manifest {
            let mut rev = "path:".to_owned();
            rev.append(path.as_str());
            if let Some(root) = inputs.engine_root {
                rev.append(";engine:");
                rev.append(root.as_str());
            }
            return Ok((DriverSource::Path(path), rev));
        }
    }
    if let Some(root) = inputs.engine_root {
        if there.in_engine {
            let mut rev = "path:".to_owned();
            rev.append(root.as_str());
            return Ok((DriverSource::Path(engine_driver_path(root.as_str(), driver_crate)), rev));
        }
    }
    match inputs.catalog.driver_version(subject) {
        Some(version) => {
            let mut rev = "registry:".to_owned();
            rev.append(version.as_str());
            Ok((DriverSource::Registry { version }, rev))
        },
        None => {
            let mut s = "no driver at the path ".to_owned();
            s.append(subject);
            s.append("'s manifest declares, no engine source tree to build ");
            s.append(driver_crate);
            s.append(
                " from, and no published driver version.\nPoint at a checkout:  --engine-src /path/to/spatial-bench",
            );
            Err(s)
        },
    }
}

/// Where a subject's source comes from: a working tree if given, else the manifest's
/// pin.
pub open spec fn subject_place(
    cat: CatalogV,
    paths: Seq<SubjectPathV>,
    subject: Seq<char>,
) -> Result<SubjectSourceV, Seq<char>> {
    match override_of(paths, subject) {
        Some(path) => Ok(SubjectSourceV::Path(path)),
        None => match facts_in(cat.subjects, subject) {
            None => Err(
                "the catalog has no source for "@ + subject + "; the manifest is missing"@,
            ),
            Some(f) => if f.source_kind == "cargo-git"@ {
                match f.repo {
                    Some(repo) => Ok(SubjectSourceV::Git { repo, reference: f.pinned_ref }),
                    None => Err(subject + " declares source kind cargo-git but no repo"@),
                }
            } else {
                Err(
                    "building "@ + subject + " from source kind `"@ + f.source_kind
                        + "` is not implemented yet (it needs the engine's build recipe, not cargo)"@,
                )
            },
        },
    }
}

/// Where a subject's source comes from for this run: a working tree if given, else
/// the manifest's pin, which is the default and the only path a submittable run can
/// take.
pub fn subject_source(inputs: &Inputs, subject: &str) -> (r: Result<SubjectSource, String>)
    ensures
        (match r {
            Ok(s) => Ok(s@),
            Err(e) => Err(e@),
        }) == subject_place(inputs.catalog@, overrides(inputs.subject_paths@), subject@),
{
    if let Some(path) = subject_override(inputs.subject_paths, subject) {
        return Ok(SubjectSource::Path(path));
    }
    match inputs.catalog.source(subject) {
        None => {
            let mut s = "the catalog has no source for ".to_owned();
            s.append(subject);
            s.append("; the manifest is missing");
            Err(s)
        },
        Some((kind, repo, pin)) => {
            if same(kind.as_str(), "cargo-git") {
                match repo {
                    Some(repo) => Ok(SubjectSource::Git { repo, reference: pin }),
                    None => {
                        let mut s = subject.to_owned();
                        s.append(" declares source kind cargo-git but no repo");
                        Err(s)
                    },
                }
            } else {
                let mut s = "building ".to_owned();
                s.append(subject);
                s.append(" from source kind `");
                s.append(kind.as_str());
                s.append(
                    "` is not implemented yet (it needs the engine's build recipe, not cargo)",
                );
                Err(s)
            }
        },
    }
}

/// The subject's revision for the cache key.
pub open spec fn revision(cat: CatalogV, paths: Seq<SubjectPathV>, subject: Seq<char>) -> Seq<char> {
    match override_of(paths, subject) {
        Some(path) => "worktree:"@ + path,
        None => match facts_in(cat.subjects, subject) {
            Some(f) => f.pinned_ref,
            None => ""@,
        },
    }
}

/// The subject's revision for the cache key: its pin, or the working tree's path. A
/// working tree has no revision; naming it as such keeps two builds from sharing a
/// cache key across an edit.
pub fn subject_rev(inputs: &Inputs, subject: &str) -> (r: String)
    ensures
        r@ == revision(inputs.catalog@, overrides(inputs.subject_paths@), subject@),
{
    match subject_override(inputs.subject_paths, subject) {
        Some(path) => {
            let mut s = "worktree:".to_owned();
            s.append(path.as_str());
            s
        },
        None => match inputs.catalog.pinned_ref(subject) {
            Some(p) => p,
            None => "".to_owned(),
        },
    }
}

/// A driver built from a path and a published one never share a cache lane.
pub proof fn driver_lanes_differ(path: Seq<char>, version: Seq<char>)
    ensures
        "path:"@ + path != "registry:"@ + version,
{
    reveal_strlit("path:");
    reveal_strlit("registry:");
    assert(("path:"@ + path)[0] == 'p');
    assert(("registry:"@ + version)[0] == 'r');
}

} // verus!
