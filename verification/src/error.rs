//! What can go wrong.
use vstd::prelude::*;

verus! {

/// The errors of the library. The variants that carry a single text for a fault
/// found elsewhere (`Network`, `Io`, `TomlSer`, `TomlDe`, `Semver`) hold the
/// description of that fault.
#[derive(Debug, PartialEq, Eq)]
pub enum UvrError {
    ManifestNotFound,
    ManifestParse(String),
    LockfileParse(String),
    PackageNotFound(String),
    VersionConflict { package: String, required: String, conflicting: String },
    NoMatchingVersion { package: String, constraint: String },
    ChecksumMismatch { package: String, expected: String, actual: String },
    RNotFound,
    RVersionUnsatisfied { constraint: String, installed: String },
    Network(String),
    Io(String),
    TomlSer(String),
    TomlDe(String),
    Semver(String),
    UnsupportedPlatform(String),
    InstallFailed { package: String, code: i32 },
    CircularDependency(String),
    Other(String),
}

/// An error as a mathematical value.
pub enum ErrorView {
    ManifestNotFound,
    ManifestParse(Seq<char>),
    LockfileParse(Seq<char>),
    PackageNotFound(Seq<char>),
    VersionConflict { package: Seq<char>, required: Seq<char>, conflicting: Seq<char> },
    NoMatchingVersion { package: Seq<char>, constraint: Seq<char> },
    ChecksumMismatch { package: Seq<char>, expected: Seq<char>, actual: Seq<char> },
    RNotFound,
    RVersionUnsatisfied { constraint: Seq<char>, installed: Seq<char> },
    Network(Seq<char>),
    Io(Seq<char>),
    TomlSer(Seq<char>),
    TomlDe(Seq<char>),
    Semver(Seq<char>),
    UnsupportedPlatform(Seq<char>),
    InstallFailed { package: Seq<char>, code: i32 },
    CircularDependency(Seq<char>),
    Other(Seq<char>),
}

impl View for UvrError {
    type V = ErrorView;

    open spec fn view(&self) -> ErrorView {
        match *self {
            UvrError::ManifestNotFound => ErrorView::ManifestNotFound,
            UvrError::ManifestParse(s) => ErrorView::ManifestParse(s@),
            UvrError::LockfileParse(s) => ErrorView::LockfileParse(s@),
            UvrError::PackageNotFound(s) => ErrorView::PackageNotFound(s@),
            UvrError::VersionConflict { package, required, conflicting } => ErrorView::VersionConflict {
                package: package@,
                required: required@,
                conflicting: conflicting@,
            },
            UvrError::NoMatchingVersion { package, constraint } => ErrorView::NoMatchingVersion {
                package: package@,
                constraint: constraint@,
            },
            UvrError::ChecksumMismatch { package, expected, actual } => ErrorView::ChecksumMismatch {
                package: package@,
                expected: expected@,
                actual: actual@,
            },
            UvrError::RNotFound => ErrorView::RNotFound,
            UvrError::RVersionUnsatisfied { constraint, installed } => ErrorView::RVersionUnsatisfied {
                constraint: constraint@,
                installed: installed@,
            },
            UvrError::Network(s) => ErrorView::Network(s@),
            UvrError::Io(s) => ErrorView::Io(s@),
            UvrError::TomlSer(s) => ErrorView::TomlSer(s@),
            UvrError::TomlDe(s) => ErrorView::TomlDe(s@),
            UvrError::Semver(s) => ErrorView::Semver(s@),
            UvrError::UnsupportedPlatform(s) => ErrorView::UnsupportedPlatform(s@),
            UvrError::InstallFailed { package, code } => ErrorView::InstallFailed {
                package: package@,
                code,
            },
            UvrError::CircularDependency(s) => ErrorView::CircularDependency(s@),
            UvrError::Other(s) => ErrorView::Other(s@),
        }
    }
}

/// The outcome of a fallible computation as a mathematical value.
pub open spec fn outcome<T: View>(r: Result<T, UvrError>) -> Result<T::V, ErrorView> {
    match r {
        Ok(v) => Ok(v@),
        Err(e) => Err(e@),
    }
}

/// The decimal digits of an exit code, with a minus sign where it is negative.
pub open spec fn code_text(code: i32) -> Seq<char> {
    if code < 0 {
        "-"@ + crate::text::decimal((-(code as int)) as nat)
    } else {
        crate::text::decimal(code as nat)
    }
}

/// What is said to the user about an error.
pub open spec fn error_message(e: ErrorView) -> Seq<char> {
    match e {
        ErrorView::ManifestNotFound =>
            "Project manifest not found (no uvr.toml in current directory or any parent)"@,
        ErrorView::ManifestParse(s) => "Manifest parse error: "@ + s,
        ErrorView::LockfileParse(s) => "Lockfile parse error: "@ + s,
        ErrorView::PackageNotFound(s) => "Package not found: "@ + s,
        ErrorView::VersionConflict { package, required, conflicting } =>
            "Version conflict for package '"@ + package + "': required "@ + required + ", but "@ + conflicting
                + " is already selected"@,
        ErrorView::NoMatchingVersion { package, constraint } =>
            "No version of '"@ + package + "' satisfies constraint '"@ + constraint + "'"@,
        ErrorView::ChecksumMismatch { package, expected, actual } =>
            "Checksum mismatch for "@ + package + ": expected "@ + expected + ", got "@ + actual,
        ErrorView::RNotFound => "R not found on PATH. Install R or use `uvr r install <version>`"@,
        ErrorView::RVersionUnsatisfied { constraint, installed } =>
            "R version constraint '"@ + constraint + "' not satisfied by any installed R ("@ + installed + ")"@,
        ErrorView::Network(s) => "Network error: "@ + s,
        ErrorView::Io(s) => "I/O error: "@ + s,
        ErrorView::TomlSer(s) => "TOML serialization error: "@ + s,
        ErrorView::TomlDe(s) => "TOML deserialization error: "@ + s,
        ErrorView::Semver(s) => "Semver parse error: "@ + s,
        ErrorView::UnsupportedPlatform(s) => "Unsupported platform: "@ + s,
        ErrorView::InstallFailed { package, code } =>
            "R CMD INSTALL failed for "@ + package + " (exit code "@ + code_text(code) + ")"@,
        ErrorView::CircularDependency(s) => "Circular dependency detected involving: "@ + s,
        ErrorView::Other(s) => s,
    }
}

fn code_string(code: i32) -> (r: String)
    ensures
        r@ == code_text(code),
{
    if code < 0 {
        let n: u64 = (-(code as i64)) as u64;
        "-".to_owned().concat(crate::text::decimal_string(n).as_str())
    } else {
        crate::text::decimal_string(code as u64)
    }
}

impl UvrError {
    /// What is said to the user about the error.
    pub fn message(&self) -> (r: String)
        ensures
            r@ == error_message(self@),
    {
        match self {
            UvrError::ManifestNotFound =>
                "Project manifest not found (no uvr.toml in current directory or any parent)".to_owned(),
            UvrError::ManifestParse(s) => "Manifest parse error: ".to_owned().concat(s.as_str()),
            UvrError::LockfileParse(s) => "Lockfile parse error: ".to_owned().concat(s.as_str()),
            UvrError::PackageNotFound(s) => "Package not found: ".to_owned().concat(s.as_str()),
            UvrError::VersionConflict { package, required, conflicting } =>
                "Version conflict for package '".to_owned().concat(package.as_str()).concat("': required ")
                    .concat(required.as_str()).concat(", but ").concat(conflicting.as_str())
                    .concat(" is already selected"),
            UvrError::NoMatchingVersion { package, constraint } =>
                "No version of '".to_owned().concat(package.as_str()).concat("' satisfies constraint '")
                    .concat(constraint.as_str()).concat("'"),
            UvrError::ChecksumMismatch { package, expected, actual } =>
                "Checksum mismatch for ".to_owned().concat(package.as_str()).concat(": expected ")
                    .concat(expected.as_str()).concat(", got ").concat(actual.as_str()),
            UvrError::RNotFound => "R not found on PATH. Install R or use `uvr r install <version>`".to_owned(),
            UvrError::RVersionUnsatisfied { constraint, installed } =>
                "R version constraint '".to_owned().concat(constraint.as_str())
                    .concat("' not satisfied by any installed R (").concat(installed.as_str()).concat(")"),
            UvrError::Network(s) => "Network error: ".to_owned().concat(s.as_str()),
            UvrError::Io(s) => "I/O error: ".to_owned().concat(s.as_str()),
            UvrError::TomlSer(s) => "TOML serialization error: ".to_owned().concat(s.as_str()),
            UvrError::TomlDe(s) => "TOML deserialization error: ".to_owned().concat(s.as_str()),
            UvrError::Semver(s) => "Semver parse error: ".to_owned().concat(s.as_str()),
            UvrError::UnsupportedPlatform(s) => "Unsupported platform: ".to_owned().concat(s.as_str()),
            UvrError::InstallFailed { package, code } =>
                "R CMD INSTALL failed for ".to_owned().concat(package.as_str()).concat(" (exit code ")
                    .concat(code_string(*code).as_str()).concat(")"),
            UvrError::CircularDependency(s) => "Circular dependency detected involving: ".to_owned().concat(s.as_str()),
            UvrError::Other(s) => s.as_str().to_owned(),
        }
    }
}

} // verus!
