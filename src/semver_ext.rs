//! The SemVer versions that range evaluation compares, as the `semver` crate parses and
//! orders them.
use crate::ports::digits_value;
use crate::text::{all_digits, split};
use std::cmp::Ordering;
use vstd::prelude::*;

verus! {

#[verifier::external_type_specification]
#[verifier::external_body]
pub struct ExVersion(semver::Version);

/// Whether `semver::Version::parse` accepts a text; it depends on the text alone.
pub uninterp spec fn semver_accepts(s: Seq<char>) -> bool;

/// How `semver::Version` orders the versions that two accepted texts parse to.
pub uninterp spec fn semver_order(a: Seq<char>, b: Seq<char>) -> Ordering;

/// A decimal numeral without leading zeros that fits in `u64`.
pub open spec fn numeral(s: Seq<char>) -> bool {
    &&& s.len() > 0
    &&& all_digits(s)
    &&& (s.len() == 1 || s[0] != '0')
    &&& digits_value(s) <= u64::MAX
}

/// A bare `MAJOR.MINOR.PATCH` version.
pub open spec fn plain_version(s: Seq<char>) -> bool {
    let p = split(s, '.');
    p.len() == 3 && numeral(p[0]) && numeral(p[1]) && numeral(p[2])
}

/// The three numbers of a bare version.
pub open spec fn plain_numbers(s: Seq<char>) -> (nat, nat, nat) {
    let p = split(s, '.');
    (digits_value(p[0]), digits_value(p[1]), digits_value(p[2]))
}

/// Lexicographic order of number triples.
pub open spec fn triple_order(a: (nat, nat, nat), b: (nat, nat, nat)) -> Ordering {
    if a.0 != b.0 {
        if a.0 < b.0 {
            Ordering::Less
        } else {
            Ordering::Greater
        }
    } else if a.1 != b.1 {
        if a.1 < b.1 {
            Ordering::Less
        } else {
            Ordering::Greater
        }
    } else if a.2 != b.2 {
        if a.2 < b.2 {
            Ordering::Less
        } else {
            Ordering::Greater
        }
    } else {
        Ordering::Equal
    }
}

/// A version that `semver` accepted, together with the text it was parsed from.
pub struct ParsedVersion {
    text: String,
    version: semver::Version,
}

impl ParsedVersion {
    pub closed spec fn source(&self) -> Seq<char> {
        self.text@
    }
}

/// Relies on `semver::Version::parse`: it succeeds exactly on the texts it accepts, among
/// them every bare `MAJOR.MINOR.PATCH`.
#[verifier::external_body]
pub(crate) fn parse_version(s: &str) -> (r: Option<ParsedVersion>)
    ensures
        r.is_some() == semver_accepts(s@),
        plain_version(s@) ==> r.is_some(),
        r matches Some(p) ==> p.source() == s@,
{
    match semver::Version::parse(s) {
        Ok(version) => Some(ParsedVersion { text: s.to_string(), version }),
        Err(_) => None,
    }
}

/// Relies on the order that `semver::Version` derives (major, minor, patch, pre-release,
/// build): it is a function of the two parsed texts, and bare versions, which have neither
/// pre-release nor build, go by their numbers.
#[verifier::external_body]
pub(crate) fn compare_versions(a: &ParsedVersion, b: &ParsedVersion) -> (r: Ordering)
    ensures
        r == semver_order(a.source(), b.source()),
        plain_version(a.source()) && plain_version(b.source()) ==> r == triple_order(
            plain_numbers(a.source()),
            plain_numbers(b.source()),
        ),
{
    a.version.cmp(&b.version)
}

} // verus!
