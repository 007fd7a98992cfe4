//! Versions and version requirements.
//!
//! Their syntax, their order and what satisfies what are those of the `semver`
//! crate. Here they are plain values: the parts of a version, and the text of a
//! requirement in the form that the crate prints.
use vstd::prelude::*;

use crate::text::{decimal, decimal_string, same_str};

verus! {

/// A version in three parts, with an optional pre-release tag and optional build
/// metadata (empty where absent).
#[derive(Debug, Clone, PartialEq, Eq)]
pub struct Version {
    pub major: u64,
    pub minor: u64,
    pub patch: u64,
    pub pre: String,
    pub build: String,
}

/// A version as a mathematical value.
pub struct VersionView {
    pub major: u64,
    pub minor: u64,
    pub patch: u64,
    pub pre: Seq<char>,
    pub build: Seq<char>,
}

impl View for Version {
    type V = VersionView;

    open spec fn view(&self) -> VersionView {
        VersionView {
            major: self.major,
            minor: self.minor,
            patch: self.patch,
            pre: self.pre@,
            build: self.build@,
        }
    }
}

/// A requirement on versions, such as `>=1.2.3, <1.8.0`; `*` admits every version
/// without a pre-release tag.
#[derive(Debug, Clone, PartialEq, Eq)]
pub struct VersionReq {
    pub text: String,
}

impl View for VersionReq {
    type V = Seq<char>;

    open spec fn view(&self) -> Seq<char> {
        self.text@
    }
}

/// How a version is written.
pub open spec fn version_text(v: VersionView) -> Seq<char> {
    let core = decimal(v.major as nat) + "."@ + decimal(v.minor as nat) + "."@ + decimal(v.patch as nat);
    let with_pre = if v.pre.len() > 0 {
        core + "-"@ + v.pre
    } else {
        core
    };
    if v.build.len() > 0 {
        with_pre + "+"@ + v.build
    } else {
        with_pre
    }
}

/// What `semver::Version::parse` makes of a text: the version, or the description
/// of the error.
pub uninterp spec fn semver_version(text: Seq<char>) -> Result<VersionView, Seq<char>>;

/// What `semver::VersionReq::parse` makes of a text: the requirement as it is
/// printed, or the description of the error.
pub uninterp spec fn semver_requirement(text: Seq<char>) -> Result<Seq<char>, Seq<char>>;

/// Whether the version written as `version` satisfies the requirement written as
/// `req`, by `semver::VersionReq::matches`. Nothing satisfies a text that is no
/// requirement, and a text that is no version satisfies nothing.
pub uninterp spec fn semver_matches(req: Seq<char>, version: Seq<char>) -> bool;

/// Whether the version written as `a` is older than the one written as `b`, by the
/// order of `semver::Version`. A text that is no version is older than every
/// version.
pub uninterp spec fn semver_older(a: Seq<char>, b: Seq<char>) -> bool;

/// `semver::Version::parse`: the parts of the parsed version, or what the error
/// says.
#[verifier::external_body]
fn parse_semver(text: &str) -> (r: Result<Version, String>)
    ensures
        match r {
            Ok(v) => semver_version(text@) == Ok::<VersionView, Seq<char>>(v@),
            Err(e) => semver_version(text@) == Err::<VersionView, Seq<char>>(e@),
        },
{
    match semver::Version::parse(text) {
        Ok(v) => Ok(Version {
            major: v.major,
            minor: v.minor,
            patch: v.patch,
            pre: v.pre.as_str().to_string(),
            build: v.build.as_str().to_string(),
        }),
        Err(e) => Err(e.to_string()),
    }
}

/// `semver::VersionReq::parse`: the requirement as the crate prints it, or what the
/// error says.
#[verifier::external_body]
fn parse_semver_req(text: &str) -> (r: Result<String, String>)
    ensures
        match r {
            Ok(v) => semver_requirement(text@) == Ok::<Seq<char>, Seq<char>>(v@),
            Err(e) => semver_requirement(text@) == Err::<Seq<char>, Seq<char>>(e@),
        },
{
    match semver::VersionReq::parse(text) {
        Ok(v) => Ok(v.to_string()),
        Err(e) => Err(e.to_string()),
    }
}

/// `semver::VersionReq::matches`, on the texts of a requirement and of a version.
#[verifier::external_body]
fn matches_semver(req: &str, version: &str) -> (r: bool)
    ensures
        r == semver_matches(req@, version@),
{
    match (semver::VersionReq::parse(req), semver::Version::parse(version)) {
        (Ok(q), Ok(v)) => q.matches(&v),
        _ => false,
    }
}

/// The order of `semver::Version`, on the texts of two versions. It is the strict
/// part of a total order on versions: asymmetric, and both it and its negation are
/// transitive.
#[verifier::external_body]
fn older_semver(a: &str, b: &str) -> (r: bool)
    ensures
        r == semver_older(a@, b@),
        r ==> !semver_older(b@, a@),
        forall|c: Seq<char>| r && #[trigger] semver_older(b@, c) ==> semver_older(a@, c),
        forall|c: Seq<char>| !r && !(#[trigger] semver_older(b@, c)) ==> !semver_older(a@, c),
{
    semver::Version::parse(a).ok() < semver::Version::parse(b).ok()
}

impl Version {
    /// The version with the given parts, no pre-release tag and no build metadata.
    pub fn new(major: u64, minor: u64, patch: u64) -> (r: Version)
        ensures
            r@ == (VersionView { major, minor, patch, pre: seq![], build: seq![] }),
    {
        Version { major, minor, patch, pre: String::new(), build: String::new() }
    }

    /// Reads a version; the error is the description of what is wrong.
    pub fn parse(text: &str) -> (r: Result<Version, String>)
        ensures
            match r {
                Ok(v) => semver_version(text@) == Ok::<VersionView, Seq<char>>(v@),
                Err(e) => semver_version(text@) == Err::<VersionView, Seq<char>>(e@),
            },
    {
        parse_semver(text)
    }

    /// How the version is written.
    pub fn text(&self) -> (r: String)
        ensures
            r@ == version_text(self@),
    {
        let mut r: String = decimal_string(self.major).concat(".").concat(decimal_string(self.minor).as_str())
            .concat(".").concat(decimal_string(self.patch).as_str());
        if !self.pre.as_str().is_empty() {
            r = r.concat("-").concat(self.pre.as_str());
        }
        if !self.build.as_str().is_empty() {
            r = r.concat("+").concat(self.build.as_str());
        }
        r
    }

    /// Whether the version comes before `other` in the order of versions.
    pub fn is_older_than(&self, other: &Version) -> (r: bool)
        ensures
            r == older(self@, other@),
            r ==> !older(other@, self@),
            forall|c: VersionView| r && #[trigger] older(other@, c) ==> older(self@, c),
            forall|c: VersionView| !r && !(#[trigger] older(other@, c)) ==> !older(self@, c),
    {
        older_semver(self.text().as_str(), other.text().as_str())
    }

    /// Whether the two versions are the same in all parts.
    pub fn equals(&self, other: &Version) -> (r: bool)
        ensures
            r == (self@ == other@),
    {
        self.major == other.major && self.minor == other.minor && self.patch == other.patch && same_str(
            self.pre.as_str(),
            other.pre.as_str(),
        ) && same_str(self.build.as_str(), other.build.as_str())
    }

    /// A copy of the version.
    pub fn copy(&self) -> (r: Version)
        ensures
            r@ == self@,
    {
        Version {
            major: self.major,
            minor: self.minor,
            patch: self.patch,
            pre: self.pre.as_str().to_owned(),
            build: self.build.as_str().to_owned(),
        }
    }
}

/// The order of versions.
pub open spec fn older(a: VersionView, b: VersionView) -> bool {
    semver_older(version_text(a), version_text(b))
}

/// Whether a version satisfies a requirement in the sense of the `semver` crate.
pub open spec fn satisfies(v: VersionView, req: Seq<char>) -> bool {
    semver_matches(req, version_text(v))
}

impl VersionReq {
    /// The requirement that is written `*`.
    pub fn any() -> (r: VersionReq)
        ensures
            r@ == "*"@,
    {
        VersionReq { text: "*".to_owned() }
    }

    /// Reads a requirement; the error is the description of what is wrong.
    pub fn parse(text: &str) -> (r: Result<VersionReq, String>)
        ensures
            match r {
                Ok(v) => semver_requirement(text@) == Ok::<Seq<char>, Seq<char>>(v@),
                Err(e) => semver_requirement(text@) == Err::<Seq<char>, Seq<char>>(e@),
            },
    {
        match parse_semver_req(text) {
            Ok(t) => Ok(VersionReq { text: t }),
            Err(e) => Err(e),
        }
    }

    /// Whether `version` satisfies the requirement.
    pub fn matches(&self, version: &Version) -> (r: bool)
        ensures
            r == satisfies(version@, self@),
    {
        matches_semver(self.text.as_str(), version.text().as_str())
    }

    /// A copy of the requirement.
    pub fn copy(&self) -> (r: VersionReq)
        ensures
            r@ == self@,
    {
        VersionReq { text: self.text.as_str().to_owned() }
    }
}

} // verus!
