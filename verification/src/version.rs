//! Semantic versions, backed by the `semver` crate.
//!
//! A [`Version`] holds the exact text that `semver::Version::parse` accepted.
//! Validity and ordering of the texts are named by [`semver_valid`] and
//! [`semver_gt`]; the trusted wrappers below are the only places that call
//! into the `semver` crate.

use vstd::prelude::*;

verus! {

/// Whether `semver::Version::parse` accepts this text, that is, whether the
/// text is a strict semantic version: `major.minor.patch` with optional
/// pre-release and build metadata and no leading zeroes.
pub uninterp spec fn semver_valid(s: Seq<char>) -> bool;

/// How the `semver` crate orders two valid version texts: the result of `>`
/// on the `semver::Version` values parsed from them.
pub uninterp spec fn semver_gt(a: Seq<char>, b: Seq<char>) -> bool;

/// A desired version counts as newer than an installed one when the texts
/// differ and the `semver` crate orders the first above the second. Equal
/// texts are never newer, so no update is ever triggered by them.
pub open spec fn version_newer(a: Seq<char>, b: Seq<char>) -> bool {
    a != b && semver_gt(a, b)
}

/// Relies on `semver::Version::parse`: it returns `Ok` exactly on the strict
/// semantic-version texts, a pure function of the text.
#[verifier::external_body]
fn semver_parse_ok(s: &str) -> (r: bool)
    ensures
        r == semver_valid(s@),
{
    semver::Version::parse(s).is_ok()
}

/// Relies on `semver::Version::parse` and on the total order of
/// `semver::Version` (numeric on major/minor/patch, semantic-version
/// precedence on pre-release, lexical tie-break on build metadata). The
/// `requires` keeps both unwraps from panicking.
#[verifier::external_body]
fn semver_text_gt(a: &str, b: &str) -> (r: bool)
    requires
        semver_valid(a@),
        semver_valid(b@),
    ensures
        r == semver_gt(a@, b@),
{
    semver::Version::parse(a).unwrap() > semver::Version::parse(b).unwrap()
}

/// A semantic version, kept as the exact text that the `semver` crate
/// accepted. Its view is that text.
#[derive(Debug)]
pub struct Version {
    text: String,
}

impl View for Version {
    type V = Seq<char>;

    closed spec fn view(&self) -> Seq<char> {
        self.text@
    }
}

impl DeepView for Version {
    type V = Seq<char>;

    open spec fn deep_view(&self) -> Seq<char> {
        self.view()
    }
}

impl Version {
    #[verifier::type_invariant]
    closed spec fn inv(self) -> bool {
        semver_valid(self.text@)
    }

    /// Parse a semantic-version text; returns a version exactly when the
    /// `semver` crate accepts the text.
    pub fn parse(s: &str) -> (r: Option<Version>)
        ensures
            r is Some <==> semver_valid(s@),
            r matches Some(v) ==> v@ == s@,
    {
        if semver_parse_ok(s) {
            Some(Version { text: s.to_owned() })
        } else {
            None
        }
    }

    /// The version's text, exactly as it was parsed.
    pub fn text(&self) -> (r: &str)
        ensures
            r@ == self@,
    {
        self.text.as_str()
    }

    /// Whether `self` is strictly newer than `other` in semantic-version
    /// order.
    pub fn newer_than(&self, other: &Version) -> (r: bool)
        ensures
            r == version_newer(self@, other@),
    {
        proof {
            use_type_invariant(self);
            use_type_invariant(other);
        }
        if self.text == other.text {
            false
        } else {
            semver_text_gt(self.text.as_str(), other.text.as_str())
        }
    }
}

impl Clone for Version {
    /// Cloning keeps the text.
    fn clone(&self) -> (r: Self)
        ensures
            r == *self,
    {
        proof {
            use_type_invariant(self);
        }
        Version { text: self.text.clone() }
    }
}

} // verus!
