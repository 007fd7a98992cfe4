//! Package registries.
pub mod bioconductor;
pub mod cran;
pub mod cran_laws;
pub mod forgejo;
pub mod git_laws;
pub mod github;
pub mod gitlab;
pub mod index_fetch;
pub mod index_laws;
pub mod p3m;

use vstd::prelude::*;

use crate::lockfile::{PackageSource, SourceView};
use crate::order::view_each;
use crate::text::{copy_opt, opt_view};
use crate::version::{Version, VersionView};

verus! {

/// A package that another one needs, with the requirement on its version where
/// there is one.
#[derive(Debug, Clone, PartialEq, Eq)]
pub struct Dep {
    pub name: String,
    pub constraint: Option<String>,
}

/// A dependency as a mathematical value.
pub struct DepView {
    pub name: Seq<char>,
    pub constraint: Option<Seq<char>>,
}

impl View for Dep {
    type V = DepView;

    open spec fn view(&self) -> DepView {
        DepView { name: self.name@, constraint: opt_view(self.constraint) }
    }
}

impl Dep {
    /// Any version of the package.
    pub fn any(name: &str) -> (r: Self)
        ensures
            r@ == (DepView { name: name@, constraint: None }),
    {
        Dep { name: name.to_owned(), constraint: None }
    }

    /// The versions of the package that satisfy the requirement.
    pub fn with_constraint(name: &str, constraint: &str) -> (r: Self)
        ensures
            r@ == (DepView { name: name@, constraint: Some(constraint@) }),
    {
        Dep { name: name.to_owned(), constraint: Some(constraint.to_owned()) }
    }

    /// A copy of the dependency.
    pub fn copy(&self) -> (r: Dep)
        ensures
            r@ == self@,
    {
        Dep { name: self.name.as_str().to_owned(), constraint: copy_opt(&self.constraint) }
    }
}

/// What a registry says of a package.
#[derive(Debug, Clone, PartialEq, Eq)]
pub struct PackageInfo {
    pub name: String,
    pub version: Version,
    pub source: PackageSource,
    pub checksum: Option<String>,
    /// What the package needs, with the requirements on versions.
    pub requires: Vec<Dep>,
    /// Where the package is downloaded from.
    pub url: String,
    /// The version as the registry writes it, where it differs in form.
    pub raw_version: Option<String>,
    /// The `SystemRequirements` field, where the package has one.
    pub system_requirements: Option<String>,
}

/// What a registry says of a package, as a mathematical value.
pub struct PackageInfoView {
    pub name: Seq<char>,
    pub version: VersionView,
    pub source: SourceView,
    pub checksum: Option<Seq<char>>,
    pub requires: Seq<DepView>,
    pub url: Seq<char>,
    pub raw_version: Option<Seq<char>>,
    pub system_requirements: Option<Seq<char>>,
}

impl View for PackageInfo {
    type V = PackageInfoView;

    open spec fn view(&self) -> PackageInfoView {
        PackageInfoView {
            name: self.name@,
            version: self.version@,
            source: self.source@,
            checksum: opt_view(self.checksum),
            requires: view_each(self.requires@),
            url: self.url@,
            raw_version: opt_view(self.raw_version),
            system_requirements: opt_view(self.system_requirements),
        }
    }
}

} // verus!
