//! Semantic versions as the tag index sees them: the text that was parsed, the
//! three release numbers, and the total order the `semver` crate defines.

use std::cmp::Ordering;
use vstd::prelude::*;

verus! {

/// The release numbers `(major, minor, patch)` that `semver::Version::parse`
/// reads from `text`, or `None` where it rejects the text.
pub uninterp spec fn semver_core(text: Seq<char>) -> Option<(u64, u64, u64)>;

/// How `semver::Version` orders the versions written as `a` and `b`:
/// `-1` where the first is lower, `0` where they are equal, `1` where it is
/// higher. Meaningful only for texts that parse.
pub uninterp spec fn semver_order(a: Seq<char>, b: Seq<char>) -> int;

/// Lexicographic order on release-number triples.
pub open spec fn core_below(a: (u64, u64, u64), b: (u64, u64, u64)) -> bool {
    a.0 < b.0 || (a.0 == b.0 && (a.1 < b.1 || (a.1 == b.1 && a.2 < b.2)))
}

/// Calls `semver::Version::parse` and keeps the three numeric fields of the
/// version it returns. Trusted: the result is, by definition, what
/// [`semver_core`] names for this text.
#[verifier::external_body]
fn parse_core(text: &str) -> (r: Option<(u64, u64, u64)>)
    ensures
        r == semver_core(text@),
{
    match semver::Version::parse(text) {
        Ok(v) => Some((v.major, v.minor, v.patch)),
        Err(_) => None,
    }
}

/// Calls `Ord::cmp` of `semver::Version` on the versions written as `a` and
/// `b`. Trusted: the result is what [`semver_order`] names; the order is
/// total, as the crate documents and `Ord` demands, which is stated here as
/// antisymmetry and as transitivity through the two versions compared; and,
/// as the crate documents, versions whose release numbers differ are ordered
/// by those numbers, compared from left to right.
#[verifier::external_body]
fn compare_parsed(a: &str, b: &str) -> (r: i8)
    requires
        semver_core(a@) is Some,
        semver_core(b@) is Some,
    ensures
        r == semver_order(a@, b@),
        -1 <= r <= 1,
        semver_order(b@, a@) == -r,
        forall|c: Seq<char>|
            semver_core(c) is Some && r <= 0 && #[trigger] semver_order(b@, c) <= 0
                ==> semver_order(a@, c) <= 0,
        forall|c: Seq<char>|
            semver_core(c) is Some && r >= 0 && #[trigger] semver_order(c, b@) <= 0
                ==> semver_order(c, a@) <= 0,
        core_below(semver_core(a@)->0, semver_core(b@)->0) ==> r == -1,
        core_below(semver_core(b@)->0, semver_core(a@)->0) ==> r == 1,
{
    let left = semver::Version::parse(a).unwrap();
    let right = semver::Version::parse(b).unwrap();
    match left.cmp(&right) {
        Ordering::Less => -1,
        Ordering::Equal => 0,
        Ordering::Greater => 1,
    }
}

/// A semantic version that parsed.
#[derive(Debug)]
pub struct SemVer {
    text: String,
    major: u64,
    minor: u64,
    patch: u64,
}

impl Clone for SemVer {
    fn clone(&self) -> (r: Self)
        ensures
            r == *self,
    {
        SemVer {
            text: self.text.clone(),
            major: self.major,
            minor: self.minor,
            patch: self.patch,
        }
    }
}

impl SemVer {
    /// The text is a semantic version and the numbers are the ones it holds.
    pub open spec fn wf(&self) -> bool {
        semver_core(self.text_view()) == Some(self.numbers())
    }

    /// The version as it was written.
    pub closed spec fn text_view(&self) -> Seq<char> {
        self.text@
    }

    /// The release numbers.
    pub closed spec fn numbers(&self) -> (u64, u64, u64) {
        (self.major, self.minor, self.patch)
    }

    /// `self` does not come after `other` in version order.
    pub open spec fn at_most(&self, other: &SemVer) -> bool {
        semver_order(self.text_view(), other.text_view()) <= 0
    }

    /// Parses `text` strictly; `None` where it is no semantic version.
    pub fn parse(text: &str) -> (r: Option<SemVer>)
        ensures
            r is Some <==> semver_core(text@) is Some,
            r matches Some(v) ==> v.wf() && v.text_view() == text@ && Some(v.numbers())
                == semver_core(text@),
    {
        match parse_core(text) {
            Some((major, minor, patch)) => Some(
                SemVer { text: text.to_owned(), major, minor, patch },
            ),
            None => None,
        }
    }

    /// Version order: `-1`, `0` or `1` as `self` is lower than, equal to or
    /// higher than `other`.
    pub fn compare(&self, other: &SemVer) -> (r: i8)
        requires
            self.wf(),
            other.wf(),
        ensures
            r == semver_order(self.text_view(), other.text_view()),
            -1 <= r <= 1,
            semver_order(other.text_view(), self.text_view()) == -r,
            forall|c: SemVer|
                c.wf() && r <= 0 && #[trigger] other.at_most(&c) ==> self.at_most(&c),
            forall|c: SemVer|
                c.wf() && r >= 0 && #[trigger] c.at_most(other) ==> c.at_most(self),
            core_below(self.numbers(), other.numbers()) ==> r == -1,
            core_below(other.numbers(), self.numbers()) ==> r == 1,
    {
        compare_parsed(self.text.as_str(), other.text.as_str())
    }

    /// The version as it was written.
    pub fn text(&self) -> (r: &str)
        ensures
            r@ == self.text_view(),
    {
        self.text.as_str()
    }

    /// The major number.
    pub fn major(&self) -> (r: u64)
        ensures
            r == self.numbers().0,
    {
        self.major
    }

    /// The minor number.
    pub fn minor(&self) -> (r: u64)
        ensures
            r == self.numbers().1,
    {
        self.minor
    }

    /// The patch number.
    pub fn patch(&self) -> (r: u64)
        ensures
            r == self.numbers().2,
    {
        self.patch
    }
}

} // verus!
