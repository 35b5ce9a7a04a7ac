//! Run-level environment context: everything outside the machine's hardware that
//! changed since the last run and that a chart may want to facet by.

use crate::schema::{Context, ContextV};
use crate::text::{
    copy_option, lines, option_text, same, split_lines, strip_prefix, texts, trim, trim_matches,
    trimmed, without_around,
};
use vstd::prelude::*;

verus! {

/// What the host's files and environment said; nothing where one was unreadable.
#[derive(Debug)]
pub struct HostContext {
    /// `/proc/sys/kernel/osrelease`
    pub kernel: Option<String>,
    /// `/etc/os-release`
    pub os_release: Option<String>,
    /// `BENCH_PROFILE`
    pub bench_profile: Option<String>,
    /// `/sys/devices/system/cpu/cpu0/cpufreq/scaling_governor`
    pub governor: Option<String>,
    /// `/sys/devices/system/cpu/smt/active`
    pub smt: Option<String>,
    /// `/sys/devices/system/cpu/cpufreq/boost`
    pub boost: Option<String>,
    /// `/sys/devices/system/cpu/isolated`
    pub isolated_cpus: Option<String>,
}

/// A reading without the space around it, unless nothing is left.
pub open spec fn tidy(reading: Option<Seq<char>>) -> Option<Seq<char>> {
    match reading {
        Some(s) => if trim(s).len() == 0 {
            None
        } else {
            Some(trim(s))
        },
        None => None,
    }
}

pub open spec fn is_one(reading: Option<Seq<char>>) -> Option<bool> {
    match tidy(reading) {
        Some(s) => Some(s == "1"@),
        None => None,
    }
}

/// A text without the quotes around it.
pub open spec fn unquoted(s: Seq<char>) -> Seq<char> {
    without_around(s, '"')
}

/// What stands behind the prefix on the first line that has it.
pub open spec fn first_with(all: Seq<Seq<char>>, prefix: Seq<char>) -> Option<Seq<char>>
    decreases all.len(),
{
    if all.len() == 0 {
        None
    } else if prefix.is_prefix_of(all[0]) {
        Some(all[0].skip(prefix.len() as int))
    } else {
        first_with(all.drop_first(), prefix)
    }
}

/// `PRETTY_NAME` from os-release, e.g. "Fedora Linux 43 (Workstation Edition)".
pub open spec fn os_name(release: Option<Seq<char>>) -> Option<Seq<char>> {
    match release {
        Some(raw) => match first_with(lines(raw), "PRETTY_NAME="@) {
            Some(v) => if unquoted(v).len() == 0 {
                None
            } else {
                Some(unquoted(v))
            },
            None => None,
        },
        None => None,
    }
}

fn tidied(reading: &Option<String>) -> (r: Option<String>)
    ensures
        option_text(r) == tidy(option_text(*reading)),
{
    match reading {
        Some(s) => {
            let t = trimmed(s.as_str());
            if t.is_empty() {
                None
            } else {
                Some(t.to_owned())
            }
        },
        None => None,
    }
}

fn says_one(reading: &Option<String>) -> (r: Option<bool>)
    ensures
        r == is_one(option_text(*reading)),
{
    match tidied(reading) {
        Some(s) => Some(same(s.as_str(), "1")),
        None => None,
    }
}

/// The system's own name for itself.
pub fn pretty_os_name(release: &Option<String>) -> (r: Option<String>)
    ensures
        option_text(r) == os_name(option_text(*release)),
{
    let raw = match release {
        Some(s) => s,
        None => {
            return None;
        },
    };
    let all = split_lines(raw.as_str());
    let ghost ls = texts(all@);
    let mut i: usize = 0;
    assert(ls.skip(0) =~= ls);
    while i < all.len()
        invariant
            i <= all@.len(),
            ls == texts(all@),
            ls == lines(raw@),
            *release == Some(*raw),
            first_with(ls, "PRETTY_NAME="@) == first_with(ls.skip(i as int), "PRETTY_NAME="@),
        decreases all@.len() - i,
    {
        assert(ls.skip(i as int).drop_first() =~= ls.skip(i + 1));
        assert(ls.skip(i as int)[0] == all@[i as int]@);
        match strip_prefix(all[i].as_str(), "PRETTY_NAME=") {
            Some(v) => {
                let name = trim_matches(v, '"');
                return if name.as_str().is_empty() {
                    None
                } else {
                    Some(name)
                };
            },
            None => {},
        }
        i = i + 1;
    }
    None
}

pub open spec fn context_of(host: HostContext) -> ContextV {
    ContextV {
        kernel: tidy(option_text(host.kernel)),
        os: os_name(option_text(host.os_release)),
        bench_profile: option_text(host.bench_profile),
        governor: tidy(option_text(host.governor)),
        smt: is_one(option_text(host.smt)),
        boost: is_one(option_text(host.boost)),
        isolated_cpus: tidy(option_text(host.isolated_cpus)),
        fingerprint: None,
    }
}

/// The context of a host. Never fails: anything unreadable stays absent, because a
/// missing governor line must not stop a run; it is context, not identity. The run
/// gate names the fingerprint it validated against; a probe has no file to name.
pub fn probe(host: &HostContext) -> (r: Context)
    ensures
        r@ == context_of(*host),
{
    Context {
        kernel: tidied(&host.kernel),
        os: pretty_os_name(&host.os_release),
        bench_profile: copy_option(&host.bench_profile),
        governor: tidied(&host.governor),
        smt: says_one(&host.smt),
        boost: says_one(&host.boost),
        isolated_cpus: tidied(&host.isolated_cpus),
        fingerprint: None,
    }
}

} // verus!
