use vstd::prelude::*;

verus! {

/// Which versions a query keeps, by their semantic-version components and recency.
#[derive(Clone, Copy, Debug, PartialEq, Eq, Structural)]
pub enum Release {
    /// Every version.
    Any,
    /// The most recent version of each package and compatibility range.
    Last,
    /// Exactly version 1.0.0.
    First,
    /// Versions `x.0.0`.
    Major,
    /// Versions `x.y.0` with `y` not zero.
    Minor,
    /// Versions `x.y.z` with `z` not zero.
    Patch,
}

pub open spec fn is_first(major: i32, minor: i32, patch: i32) -> bool {
    major == 1 && minor == 0 && patch == 0
}

pub open spec fn is_major(major: i32, minor: i32, patch: i32) -> bool {
    minor == 0 && patch == 0
}

pub open spec fn is_minor(major: i32, minor: i32, patch: i32) -> bool {
    minor != 0 && patch == 0
}

pub open spec fn is_patch(major: i32, minor: i32, patch: i32) -> bool {
    patch != 0
}

/// Whether a version passes the classification of `release`; `Any` and `Last`
/// put no condition on the version itself.
pub open spec fn version_kind_holds(release: Release, major: i32, minor: i32, patch: i32) -> bool {
    match release {
        Release::Any => true,
        Release::Last => true,
        Release::First => is_first(major, minor, patch),
        Release::Major => is_major(major, minor, patch),
        Release::Minor => is_minor(major, minor, patch),
        Release::Patch => is_patch(major, minor, patch),
    }
}

impl Release {
    /// Whether version `major.minor.patch` passes this classification.
    pub fn accepts(&self, major: i32, minor: i32, patch: i32) -> (r: bool)
        ensures
            r == version_kind_holds(*self, major, minor, patch),
    {
        match self {
            Release::Any => true,
            Release::Last => true,
            Release::First => major == 1 && minor == 0 && patch == 0,
            Release::Major => minor == 0 && patch == 0,
            Release::Minor => minor != 0 && patch == 0,
            Release::Patch => patch != 0,
        }
    }
}

/// Every version other than 1.0.0 is exactly one of first, major, minor or patch
/// release (1.0.0 is both first and major).
pub proof fn lemma_release_partition(major: i32, minor: i32, patch: i32)
    requires
        !(major == 1 && minor == 0 && patch == 0),
    ensures
        (is_first(major, minor, patch) as int) + (is_major(major, minor, patch) as int) + (
        is_minor(major, minor, patch) as int) + (is_patch(major, minor, patch) as int) == 1,
{
}

/// Every first release is a major release.
pub proof fn lemma_first_is_major(major: i32, minor: i32, patch: i32)
    ensures
        is_first(major, minor, patch) ==> is_major(major, minor, patch),
{
}

} // verus!
