//! Semantic versions, as far as the choice of a driver needs them.

use crate::text::decimal;
use vstd::prelude::*;

verus! {

/// A semantic version: its three numbers, and whether a pre-release part and a
/// build part follow them.
#[derive(Clone, Copy, Debug, PartialEq, Eq, Structural)]
pub struct SemVer {
    pub major: u64,
    pub minor: u64,
    pub patch: u64,
    pub pre_release: bool,
    pub build: bool,
}

/// The parts that `semver::Version::parse` reads from a text: the three numbers,
/// the pre-release part and the build part, or what its error says.
pub uninterp spec fn semver_parts(text: Seq<char>) -> Result<(u64, u64, u64, Seq<char>, Seq<char>), Seq<char>>;

/// How a text reads as a version.
pub open spec fn semver_reading(text: Seq<char>) -> Result<SemVer, Seq<char>> {
    match semver_parts(text) {
        Ok(p) => Ok(
            SemVer {
                major: p.0,
                minor: p.1,
                patch: p.2,
                pre_release: p.3.len() > 0,
                build: p.4.len() > 0,
            },
        ),
        Err(e) => Err(e),
    }
}

/// `semver::Version::parse` reads a text as a version. Its result is a function of
/// the text. A pre-release part is read only behind a `-` and a build part only
/// behind a `+`, so a text without them has neither.
#[verifier::external_body]
fn parse_version(text: &str) -> (r: Result<(u64, u64, u64, String, String), String>)
    ensures
        match r {
            Ok(p) => semver_parts(text@) == Ok::<
                (u64, u64, u64, Seq<char>, Seq<char>),
                Seq<char>,
            >((p.0, p.1, p.2, p.3@, p.4@)),
            Err(e) => semver_parts(text@) == Err::<
                (u64, u64, u64, Seq<char>, Seq<char>),
                Seq<char>,
            >(e@),
        },
        r matches Ok(p) ==> (!text@.contains('-') ==> p.3@.len() == 0) && (!text@.contains('+')
            ==> p.4@.len() == 0),
{
    match semver::Version::parse(text) {
        Ok(v) => Ok((v.major, v.minor, v.patch, v.pre.to_string(), v.build.to_string())),
        Err(e) => Err(e.to_string()),
    }
}

/// Read a text as a version.
pub fn read_semver(text: &str) -> (r: Result<SemVer, String>)
    ensures
        match r {
            Ok(v) => semver_reading(text@) == Ok::<SemVer, Seq<char>>(v),
            Err(e) => semver_reading(text@) == Err::<SemVer, Seq<char>>(e@),
        },
        r matches Ok(v) ==> (!text@.contains('-') ==> !v.pre_release) && (!text@.contains('+')
            ==> !v.build),
{
    match parse_version(text) {
        Ok(p) => Ok(
            SemVer {
                major: p.0,
                minor: p.1,
                patch: p.2,
                pre_release: !p.3.as_str().is_empty(),
                build: !p.4.as_str().is_empty(),
            },
        ),
        Err(e) => Err(e),
    }
}

impl SemVer {
    /// Three numbers, and nothing behind them.
    pub open spec fn is_release(self) -> bool {
        !self.pre_release && !self.build
    }
}

/// Lexicographic order of the three numbers.
pub open spec fn numbers_lt(a: SemVer, b: SemVer) -> bool {
    a.major < b.major || (a.major == b.major && (a.minor < b.minor || (a.minor == b.minor
        && a.patch < b.patch)))
}

/// Is a release without further parts at or above a version? A release is above
/// its own pre-releases and below its own builds.
pub open spec fn at_least(v: SemVer, m: SemVer) -> bool {
    numbers_lt(m, v) || (!numbers_lt(v, m) && (m.pre_release || !m.build))
}

impl SemVer {
    /// Is this release, which has no further parts, at or above a version?
    pub fn reaches(&self, m: &SemVer) -> (r: bool)
        requires
            self.is_release(),
        ensures
            r == at_least(*self, *m),
    {
        if self.major != m.major {
            return self.major > m.major;
        }
        if self.minor != m.minor {
            return self.minor > m.minor;
        }
        if self.patch != m.patch {
            return self.patch > m.patch;
        }
        m.pre_release || !m.build
    }

    /// The three numbers as written.
    pub fn to_string(&self) -> (r: String)
        ensures
            r@ == crate::catalog::version_text(*self),
    {
        let mut s = decimal(self.major);
        s.append(".");
        s.append(decimal(self.minor).as_str());
        s.append(".");
        s.append(decimal(self.patch).as_str());
        s
    }
}

} // verus!
