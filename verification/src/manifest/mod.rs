//! The project manifest: what a project is called and what it depends on.
use vstd::prelude::*;

use crate::text::{copy_opt, opt_str, opt_view};
use crate::text_map::TextMap;

pub mod check;
pub mod description;
pub mod description_laws;
pub mod remote_laws;
pub mod remotes;

verus! {

/// The table form of a dependency.
#[derive(Debug, Clone, PartialEq, Eq)]
pub struct DetailedDep {
    pub version: Option<String>,
    /// Whether the package comes from Bioconductor.
    pub bioc: Option<bool>,
    /// A git source: `owner/repo` on GitHub, or `forgejo::..` or `gitlab::..`.
    pub git: Option<String>,
    /// The package fetched must have the name under which it is declared.
    pub exact: bool,
    /// A branch, a tag or a commit.
    pub rev: Option<String>,
    /// The directory of the package inside its repository.
    pub subdirectory: Option<String>,
}

/// A detailed dependency as a mathematical value.
pub struct DetailedView {
    pub version: Option<Seq<char>>,
    pub bioc: Option<bool>,
    pub git: Option<Seq<char>>,
    pub exact: bool,
    pub rev: Option<Seq<char>>,
    pub subdirectory: Option<Seq<char>>,
}

impl View for DetailedDep {
    type V = DetailedView;

    open spec fn view(&self) -> DetailedView {
        DetailedView {
            version: opt_view(self.version),
            bioc: self.bioc,
            git: opt_view(self.git),
            exact: self.exact,
            rev: opt_view(self.rev),
            subdirectory: opt_view(self.subdirectory),
        }
    }
}

impl DetailedDep {
    /// A copy of the dependency.
    pub fn copy(&self) -> (r: DetailedDep)
        ensures
            r@ == self@,
    {
        DetailedDep {
            version: copy_opt(&self.version),
            bioc: self.bioc,
            git: copy_opt(&self.git),
            exact: self.exact,
            rev: copy_opt(&self.rev),
            subdirectory: copy_opt(&self.subdirectory),
        }
    }
}

impl Default for DetailedDep {
    /// The dependency of which nothing is said.
    fn default() -> (r: Self)
        ensures
            r@ == (DetailedView { version: None, bioc: None, git: None, exact: false, rev: None, subdirectory: None }),
    {
        DetailedDep { version: None, bioc: None, git: None, exact: false, rev: None, subdirectory: None }
    }
}

/// A dependency: a bare version requirement (`>=3.0.0`, `*`) or a table.
#[derive(Debug, Clone, PartialEq, Eq)]
pub enum DependencySpec {
    Version(String),
    Detailed(DetailedDep),
}

/// A dependency as a mathematical value.
pub enum SpecView {
    Version(Seq<char>),
    Detailed(DetailedView),
}

impl View for DependencySpec {
    type V = SpecView;

    open spec fn view(&self) -> SpecView {
        match *self {
            DependencySpec::Version(v) => SpecView::Version(v@),
            DependencySpec::Detailed(d) => SpecView::Detailed(d@),
        }
    }
}

/// The version requirement of a dependency.
pub open spec fn spec_version_req(s: SpecView) -> Option<Seq<char>> {
    match s {
        SpecView::Version(v) => Some(v),
        SpecView::Detailed(d) => d.version,
    }
}

impl DependencySpec {
    /// The version requirement, where there is one.
    pub fn version_req(&self) -> (r: Option<&str>)
        ensures
            opt_str(r) == spec_version_req(self@),
    {
        match self {
            DependencySpec::Version(v) => Some(v.as_str()),
            DependencySpec::Detailed(d) => match &d.version {
                Some(v) => Some(v.as_str()),
                None => None,
            },
        }
    }

    /// Whether the package comes from Bioconductor.
    pub fn is_bioc(&self) -> (r: bool)
        ensures
            r == (self@ matches SpecView::Detailed(d) && d.bioc == Some(true)),
    {
        match self {
            DependencySpec::Version(_) => false,
            DependencySpec::Detailed(d) => match d.bioc {
                Some(b) => b,
                None => false,
            },
        }
    }

    /// The git source, where there is one.
    pub fn git(&self) -> (r: Option<&str>)
        ensures
            opt_str(r) == (match self@ {
                SpecView::Detailed(d) => d.git,
                SpecView::Version(_) => None,
            }),
    {
        match self {
            DependencySpec::Detailed(d) => match &d.git {
                Some(v) => Some(v.as_str()),
                None => None,
            },
            DependencySpec::Version(_) => None,
        }
    }

    /// The directory of the package inside its repository, where one is given.
    pub fn subdirectory(&self) -> (r: Option<&str>)
        ensures
            opt_str(r) == (match self@ {
                SpecView::Detailed(d) => d.subdirectory,
                SpecView::Version(_) => None,
            }),
    {
        match self {
            DependencySpec::Detailed(d) => match &d.subdirectory {
                Some(v) => Some(v.as_str()),
                None => None,
            },
            DependencySpec::Version(_) => None,
        }
    }

    /// A copy of the dependency.
    pub fn copy(&self) -> (r: DependencySpec)
        ensures
            r@ == self@,
    {
        match self {
            DependencySpec::Version(v) => DependencySpec::Version(v.as_str().to_owned()),
            DependencySpec::Detailed(d) => DependencySpec::Detailed(d.copy()),
        }
    }
}

impl Default for DependencySpec {
    /// Any version.
    fn default() -> (r: Self)
        ensures
            r@ == SpecView::Version("*"@),
    {
        DependencySpec::Version("*".to_owned())
    }
}

/// How the shell behaves while the project is active.
#[derive(Debug, Clone, PartialEq, Eq)]
pub struct ActivateMeta {
    /// Whether the prompt shows the name of the project.
    pub prompt: Option<bool>,
}

/// What the manifest says of the project itself.
#[derive(Debug, Clone, PartialEq, Eq)]
pub struct ProjectMeta {
    pub name: String,
    /// The requirement on the version of R.
    pub r_version: Option<String>,
    /// The release of Bioconductor, where it is fixed.
    pub bioc_version: Option<String>,
    pub description: Option<String>,
    /// The project consists of the manifest and the library only.
    pub bare: bool,
}

/// A repository that the project adds.
#[derive(Debug, Clone, PartialEq, Eq)]
pub struct PackageSource {
    pub name: String,
    pub url: String,
}

/// The manifest of a project.
#[derive(Debug, PartialEq, Eq)]
pub struct Manifest {
    pub project: ProjectMeta,
    pub dependencies: TextMap<DependencySpec>,
    pub dev_dependencies: TextMap<DependencySpec>,
    pub sources: Vec<PackageSource>,
    pub activate: Option<ActivateMeta>,
}

/// A manifest as a mathematical value.
pub struct ManifestView {
    pub name: Seq<char>,
    pub r_version: Option<Seq<char>>,
    pub bioc_version: Option<Seq<char>>,
    pub description: Option<Seq<char>>,
    pub bare: bool,
    pub dependencies: Map<Seq<char>, SpecView>,
    pub dev_dependencies: Map<Seq<char>, SpecView>,
    pub sources: Seq<(Seq<char>, Seq<char>)>,
    pub activate: Option<Option<bool>>,
}

impl View for Manifest {
    type V = ManifestView;

    open spec fn view(&self) -> ManifestView {
        ManifestView {
            name: self.project.name@,
            r_version: opt_view(self.project.r_version),
            bioc_version: opt_view(self.project.bioc_version),
            description: opt_view(self.project.description),
            bare: self.project.bare,
            dependencies: self.dependencies@,
            dev_dependencies: self.dev_dependencies@,
            sources: self.sources@.map_values(|s: PackageSource| (s.name@, s.url@)),
            activate: match self.activate {
                Some(a) => Some(a.prompt),
                None => None,
            },
        }
    }
}

/// The manifest of a project of which only the name and the requirement on R are
/// known.
pub open spec fn bare_manifest(name: Seq<char>, r_version: Option<Seq<char>>) -> ManifestView {
    ManifestView {
        name,
        r_version,
        bioc_version: None,
        description: None,
        bare: false,
        dependencies: Map::empty(),
        dev_dependencies: Map::empty(),
        sources: seq![],
        activate: None,
    }
}

/// A manifest with a dependency added or replaced, be it one for development or not.
pub open spec fn with_dep(m: ManifestView, name: Seq<char>, spec: SpecView, dev: bool) -> ManifestView {
    if dev {
        ManifestView { dev_dependencies: m.dev_dependencies.insert(name, spec), ..m }
    } else {
        ManifestView { dependencies: m.dependencies.insert(name, spec), ..m }
    }
}

/// A manifest without a dependency, be it one for development or not.
pub open spec fn without_dep(m: ManifestView, name: Seq<char>) -> ManifestView {
    ManifestView {
        dependencies: m.dependencies.remove(name),
        dev_dependencies: m.dev_dependencies.remove(name),
        ..m
    }
}

impl Manifest {
    /// A manifest without dependencies.
    pub fn new(name: &str, r_version: Option<String>) -> (r: Self)
        ensures
            r@ == bare_manifest(name@, opt_view(r_version)),
    {
        let sources: Vec<PackageSource> = Vec::new();
        assert(sources@.map_values(|s: PackageSource| (s.name@, s.url@)) == Seq::<(Seq<char>, Seq<char>)>::empty());
        Manifest {
            project: ProjectMeta {
                name: name.to_owned(),
                r_version,
                bioc_version: None,
                description: None,
                bare: false,
            },
            dependencies: TextMap::new(),
            dev_dependencies: TextMap::new(),
            sources,
            activate: None,
        }
    }

    /// Adds a dependency or replaces it. Says whether it is new.
    pub fn add_dep(&mut self, name: &str, spec: DependencySpec, dev: bool) -> (r: bool)
        ensures
            r == !(if dev {
                old(self)@.dev_dependencies
            } else {
                old(self)@.dependencies
            }).contains_key(name@),
            final(self)@ == with_dep(old(self)@, name@, spec@, dev),
    {
        if dev {
            let new = !self.dev_dependencies.contains_key(name);
            self.dev_dependencies.insert(name, spec);
            new
        } else {
            let new = !self.dependencies.contains_key(name);
            self.dependencies.insert(name, spec);
            new
        }
    }

    /// Takes a dependency out, be it one for development or not. Says whether it was
    /// there.
    pub fn remove_dep(&mut self, name: &str) -> (r: bool)
        ensures
            r == (old(self)@.dependencies.contains_key(name@) || old(self)@.dev_dependencies.contains_key(name@)),
            final(self)@ == without_dep(old(self)@, name@),
    {
        let a = self.dependencies.remove(name);
        let b = self.dev_dependencies.remove(name);
        a || b
    }
}

/// Taking out a dependency undoes adding it, where the manifest did not have it.
pub proof fn removing_undoes_adding(m: ManifestView, name: Seq<char>, spec: SpecView, dev: bool)
    requires
        !m.dependencies.contains_key(name),
        !m.dev_dependencies.contains_key(name),
    ensures
        without_dep(with_dep(m, name, spec, dev), name) == m,
{
    let r = without_dep(with_dep(m, name, spec, dev), name);
    assert(r.dependencies == m.dependencies);
    assert(r.dev_dependencies == m.dev_dependencies);
}

} // verus!
