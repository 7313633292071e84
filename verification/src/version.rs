//! Client versions, ordered by the rules of semantic versioning.

use vstd::prelude::*;

verus! {

/// The version that a client announces: its release numbers, and whether
/// it carries a pre-release tag.
#[derive(Clone, Copy, Debug, PartialEq, Eq, Hash, Structural)]
pub struct Version {
    pub major: u64,
    pub minor: u64,
    pub patch: u64,
    pub pre_release: bool,
}

/// Whether release `a` comes before release `b`: the numbers are compared
/// from left to right, as a triple.
pub open spec fn release_precedes(a: (u64, u64, u64), b: (u64, u64, u64)) -> bool {
    a.0 < b.0 || (a.0 == b.0 && (a.1 < b.1 || (a.1 == b.1 && a.2 < b.2)))
}

/// Compares two releases with the `<` of `semver::Version`, each built by
/// `semver::Version::new` from its three numbers.
///
/// This is not proved but taken from `semver`. A version that `new` builds
/// has neither pre-release tag nor build metadata, and for such versions
/// `semver` orders by major, minor and patch number, numerically, from
/// left to right: that is what the contract states.
#[verifier::external_body]
fn semver_release_precedes(
    a_major: u64,
    a_minor: u64,
    a_patch: u64,
    b_major: u64,
    b_minor: u64,
    b_patch: u64,
) -> (r: bool)
    ensures
        r == release_precedes((a_major, a_minor, a_patch), (b_major, b_minor, b_patch)),
{
    semver::Version::new(a_major, a_minor, a_patch) < semver::Version::new(
        b_major,
        b_minor,
        b_patch,
    )
}

impl Version {
    /// A release, without pre-release tag.
    pub fn new(major: u64, minor: u64, patch: u64) -> (r: Version)
        ensures
            r == (Version { major, minor, patch, pre_release: false }),
    {
        Version { major, minor, patch, pre_release: false }
    }

    pub open spec fn release(self) -> (u64, u64, u64) {
        (self.major, self.minor, self.patch)
    }

    /// Whether this version is the release `major.minor.patch` or a later
    /// one. A pre-release of a release comes before that release.
    pub open spec fn spec_reaches(self, major: u64, minor: u64, patch: u64) -> bool {
        if release_precedes(self.release(), (major, minor, patch)) {
            false
        } else if release_precedes((major, minor, patch), self.release()) {
            true
        } else {
            !self.pre_release
        }
    }

    pub fn reaches(&self, major: u64, minor: u64, patch: u64) -> (r: bool)
        ensures
            r == self.spec_reaches(major, minor, patch),
    {
        if semver_release_precedes(self.major, self.minor, self.patch, major, minor, patch) {
            false
        } else if semver_release_precedes(major, minor, patch, self.major, self.minor, self.patch) {
            true
        } else {
            !self.pre_release
        }
    }
}

/// A version reaches a release exactly if its numbers are beyond the
/// release's, or equal to them without a pre-release tag.
pub proof fn lemma_reaches(v: Version, major: u64, minor: u64, patch: u64)
    ensures
        v.spec_reaches(major, minor, patch) <==> (release_precedes((major, minor, patch), v.release())
            || (v.release() == (major, minor, patch) && !v.pre_release)),
{
}

/// Reaching a release carries over to every earlier release.
pub proof fn lemma_reaches_earlier(v: Version, a: (u64, u64, u64), b: (u64, u64, u64))
    requires
        v.spec_reaches(b.0, b.1, b.2),
        release_precedes(a, b),
    ensures
        v.spec_reaches(a.0, a.1, a.2),
{
}

} // verus!
