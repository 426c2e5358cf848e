//! Semantic versions of this library and the policy for reading and writing
//! what another version wrote.
use vstd::prelude::*;

verus! {

/// A semantic version: major, minor and patch numbers.
#[derive(Debug, Clone, Copy, PartialEq, Eq, Structural, Hash)]
pub struct Version {
    pub major: u64,
    pub minor: u64,
    pub patch: u64,
}

/// The numbers of the version that `s` spells, where it spells one.
pub uninterp spec fn semver_numbers(s: Seq<char>) -> Option<(u64, u64, u64)>;

/// The numbers of a version.
pub open spec fn numbers(v: Version) -> (u64, u64, u64) {
    (v.major, v.minor, v.patch)
}

/// Relies on `semver::Version::parse`: reads a version written as
/// `major.minor.patch`, with an optional pre-release and build part.
#[verifier::external_body]
fn parse_semver(s: &str) -> (r: Option<Version>)
    ensures
        r matches Some(v) ==> semver_numbers(s@) == Some(numbers(v)),
        r is None ==> semver_numbers(s@) is None,
{
    semver::Version::parse(s).ok().map(|v| Version { major: v.major, minor: v.minor, patch: v.patch })
}

impl Version {
    pub fn new(major: u64, minor: u64, patch: u64) -> (r: Self)
        ensures
            r.major == major,
            r.minor == minor,
            r.patch == patch,
    {
        Version { major, minor, patch }
    }

    /// The version that `s` spells, if it spells one.
    pub fn parse(s: &str) -> (r: Option<Self>)
        ensures
            r matches Some(v) ==> semver_numbers(s@) == Some(numbers(v)),
            r is None ==> semver_numbers(s@) is None,
    {
        parse_semver(s)
    }
}

pub const CRATE_MAJOR: u64 = 0;

pub const CRATE_MINOR: u64 = 3;

pub const CRATE_PATCH: u64 = 0;

/// The version of this library.
pub open spec fn crate_version() -> Version {
    Version { major: CRATE_MAJOR, minor: CRATE_MINOR, patch: CRATE_PATCH }
}

pub fn curr_crate_ver() -> (r: Version)
    ensures
        r == crate_version(),
{
    Version { major: CRATE_MAJOR, minor: CRATE_MINOR, patch: CRATE_PATCH }
}

/// The version assumed for metadata that names none: the first that wrote a file table.
pub fn default_last_write_version() -> (r: Version)
    ensures
        r == (Version { major: 0, minor: 2, patch: 1 }),
{
    Version { major: 0, minor: 2, patch: 1 }
}

/// Reading is safe when both versions are in the same breaking cohort: the same
/// major, and under a zero major the same minor.
pub open spec fn read_compatible(curr: Version, prev: Version) -> bool {
    curr.major == prev.major && (curr.major != 0 || curr.minor == prev.minor)
}

/// Writing is safe when `curr` does not go back from `prev`: no lower major,
/// and under a zero major no lower minor.
pub open spec fn write_compatible(curr: Version, prev: Version) -> bool {
    curr.major >= prev.major && (curr.major != 0 || curr.minor >= prev.minor)
}

pub fn check_version_compat_read(curr: &Version, prev: &Version) -> (r: bool)
    ensures
        r == read_compatible(*curr, *prev),
{
    curr.major == prev.major && (curr.major != 0 || curr.minor == prev.minor)
}

pub fn check_version_compat_write(curr: &Version, prev: &Version) -> (r: bool)
    ensures
        r == write_compatible(*curr, *prev),
{
    curr.major >= prev.major && (curr.major != 0 || curr.minor >= prev.minor)
}

/// A version that may write over `prev` can read what it wrote, and a chain of
/// permitted writes is itself a permitted write.
pub proof fn lemma_version_monotonic(prev: Version, curr: Version, next: Version)
    ensures
        write_compatible(curr, prev) ==> read_compatible(curr, curr),
        write_compatible(curr, prev) && write_compatible(next, curr) ==> write_compatible(next, prev),
{
}

/// Metadata written by a later major version can neither be read nor written
/// over, whatever this version is.
pub proof fn lemma_version_refusal(curr: Version, stored: Version)
    requires
        stored.major > curr.major,
    ensures
        !read_compatible(curr, stored),
        !write_compatible(curr, stored),
{
}

} // verus!
