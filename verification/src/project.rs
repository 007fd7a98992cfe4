//! Projects: where their files are and what they are read from.
use vstd::prelude::*;

use crate::error::{ErrorView, UvrError};
use crate::manifest::Manifest;
use crate::paths::{join_on, joined_on};
use crate::text::{chars_of, is_whitespace, opt_str, opt_view, skip_space, space_end, string_of, trim, trim_start, trimmed};

verus! {

pub const MANIFEST_FILE: &'static str = "uvr.toml";

pub const DESCRIPTION_FILE: &'static str = "DESCRIPTION";

pub const LOCK_FILE: &'static str = "uvr.lock";

pub const R_VERSION_FILE: &'static str = ".r-version";

pub const DOT_UVR_DIR: &'static str = ".uvr";

pub const LIBRARY_DIR: &'static str = "library";

/// What the manifest of a project was read from.
#[derive(Debug, Clone, Copy, PartialEq, Eq, Structural)]
pub enum ManifestSource {
    /// A manifest, which can be changed.
    Toml,
    /// A `DESCRIPTION` file, which is only read.
    Description,
}

/// A project.
#[derive(Debug, PartialEq, Eq)]
pub struct Project {
    /// The directory of the project.
    pub root: String,
    pub manifest: Manifest,
    pub manifest_source: ManifestSource,
    /// Paths are those of Windows.
    pub windows: bool,
}

/// The files of a directory that make it a project.
#[derive(Debug, Clone, Copy, PartialEq, Eq, Structural)]
pub struct ProjectFiles {
    pub has_manifest: bool,
    pub has_description: bool,
}

/// The first directory from position `i` on that is a project, and what its manifest is
/// read from. A manifest comes before a `DESCRIPTION` file.
pub open spec fn first_project(dirs: Seq<ProjectFiles>, i: int) -> Option<(int, ManifestSource)>
    decreases dirs.len() - i,
{
    if i >= dirs.len() {
        None
    } else if dirs[i].has_manifest {
        Some((i, ManifestSource::Toml))
    } else if dirs[i].has_description {
        Some((i, ManifestSource::Description))
    } else {
        first_project(dirs, i + 1)
    }
}

/// The project that a directory belongs to. `dirs` are the directory and those that hold
/// it, from the innermost on.
pub fn find_project(dirs: &Vec<ProjectFiles>) -> (r: Result<(usize, ManifestSource), UvrError>)
    ensures
        match first_project(dirs@, 0) {
            Some((k, s)) => r matches Ok((i, t)) && i == k && t == s,
            None => r matches Err(e) && e@ == ErrorView::ManifestNotFound,
        },
{
    let mut i: usize = 0;
    while i < dirs.len()
        invariant
            i <= dirs@.len(),
            first_project(dirs@, 0) == first_project(dirs@, i as int),
        decreases dirs@.len() - i,
    {
        if dirs[i].has_manifest {
            return Ok((i, ManifestSource::Toml));
        }
        if dirs[i].has_description {
            return Ok((i, ManifestSource::Description));
        }
        i += 1;
    }
    Err(UvrError::ManifestNotFound)
}

/// A file that pins the version of R.
#[derive(Debug, PartialEq, Eq)]
pub enum PinFile {
    Absent,
    /// It is there and cannot be read.
    Unreadable,
    Content(String),
}

/// The version that a file pins; one with only white space pins none.
pub open spec fn pinned_in(content: Seq<char>) -> Option<Seq<char>> {
    if trim(content).len() == 0 {
        None
    } else {
        Some(trim(content))
    }
}

/// The version that a file pins; see [`pinned_in`].
pub fn parse_pin(content: &str) -> (r: Option<String>)
    ensures
        opt_view(r) == pinned_in(content@),
{
    let cs = chars_of(content);
    let t = trimmed(cs.as_slice());
    if t.len() == 0 {
        None
    } else {
        Some(string_of(t))
    }
}

/// The version that the files from position `i` on pin: the first that pins one counts,
/// and one that cannot be read ends the search.
pub open spec fn first_pin(files: Seq<PinFile>, i: int) -> Option<Seq<char>>
    decreases files.len() - i,
{
    if i >= files.len() {
        None
    } else {
        match files[i] {
            PinFile::Absent => first_pin(files, i + 1),
            PinFile::Unreadable => None,
            PinFile::Content(c) => if pinned_in(c@) is Some {
                pinned_in(c@)
            } else {
                first_pin(files, i + 1)
            },
        }
    }
}

/// The version that is pinned for a directory. `files` are those of the directory and of
/// the directories that hold it, from the innermost on.
pub fn read_r_version_pin_from(files: &Vec<PinFile>) -> (r: Option<String>)
    ensures
        opt_view(r) == first_pin(files@, 0),
{
    let mut i: usize = 0;
    while i < files.len()
        invariant
            i <= files@.len(),
            first_pin(files@, 0) == first_pin(files@, i as int),
        decreases files@.len() - i,
    {
        match &files[i] {
            PinFile::Absent => {},
            PinFile::Unreadable => {
                return None;
            },
            PinFile::Content(c) => {
                if let Some(v) = parse_pin(c.as_str()) {
                    return Some(v);
                }
            },
        }
        i += 1;
    }
    None
}

/// The file that pins a version.
pub fn render_pin(version: &str) -> (r: String)
    ensures
        r@ == version@ + "\n"@,
{
    version.to_owned().concat("\n")
}

/// Whether the manifest of a project can be changed.
pub fn check_writable(source: ManifestSource) -> (r: Result<(), UvrError>)
    ensures
        r is Ok <==> source == ManifestSource::Toml,
        r matches Err(e) ==> e@ == ErrorView::Other(
            "Cannot modify DESCRIPTION directly. Run `uvr init` to create a uvr.toml."@,
        ),
{
    match source {
        ManifestSource::Toml => Ok(()),
        ManifestSource::Description => Err(
            UvrError::Other("Cannot modify DESCRIPTION directly. Run `uvr init` to create a uvr.toml.".to_owned()),
        ),
    }
}

impl Project {
    pub fn manifest_path(&self) -> (r: String)
        ensures
            r@ == joined_on(self.windows, self.root@, MANIFEST_FILE@),
    {
        join_on(self.windows, self.root.as_str(), MANIFEST_FILE)
    }

    pub fn lock_path(&self) -> (r: String)
        ensures
            r@ == joined_on(self.windows, self.root@, LOCK_FILE@),
    {
        join_on(self.windows, self.root.as_str(), LOCK_FILE)
    }

    pub fn dot_uvr_dir(&self) -> (r: String)
        ensures
            r@ == joined_on(self.windows, self.root@, DOT_UVR_DIR@),
    {
        join_on(self.windows, self.root.as_str(), DOT_UVR_DIR)
    }

    /// The library of the project: the one that the environment names, where it names
    /// one, else a directory of the project.
    pub fn library_path(&self, env_library: Option<&str>) -> (r: String)
        ensures
            r@ == (match crate::env_vars::set_value(opt_str(env_library)) {
                Some(l) => l,
                None => joined_on(self.windows, joined_on(self.windows, self.root@, DOT_UVR_DIR@), LIBRARY_DIR@),
            }),
    {
        match crate::env_vars::read_env_var(env_library) {
            Some(l) => l,
            None => join_on(self.windows, self.dot_uvr_dir().as_str(), LIBRARY_DIR),
        }
    }

    pub fn r_version_pin_path(&self) -> (r: String)
        ensures
            r@ == joined_on(self.windows, self.root@, R_VERSION_FILE@),
    {
        join_on(self.windows, self.root.as_str(), R_VERSION_FILE)
    }
}

proof fn lemma_skip_none(s: Seq<char>)
    requires
        s.len() > 0,
        !is_whitespace(s[0]),
    ensures
        skip_space(s, 0) == 0,
{
}

/// A version that is pinned is read back, if it does not begin or end with white space.
pub proof fn pin_is_read_back(version: Seq<char>)
    requires
        version.len() > 0,
        !is_whitespace(version[0]),
        !is_whitespace(version.last()),
    ensures
        pinned_in(version + "\n"@) == Some(version),
{
    reveal_strlit("\n");
    let s = version + "\n"@;
    lemma_skip_none(s);
    assert(trim_start(s) =~= s);
    assert(s[s.len() - 1] == '\n');
    assert(is_whitespace('\n'));
    assert(space_end(s, s.len() as int) == space_end(s, s.len() - 1));
    assert(s[s.len() - 2] == version.last());
    assert(space_end(s, s.len() - 1) == s.len() - 1);
    assert(s.subrange(0, s.len() - 1) =~= version);
}

/// A project with a manifest is found by it, even where a `DESCRIPTION` file stands
/// beside it.
pub proof fn manifest_comes_first(dirs: Seq<ProjectFiles>)
    requires
        dirs.len() > 0,
        dirs[0].has_manifest,
    ensures
        first_project(dirs, 0) == Some((0int, ManifestSource::Toml)),
{
}

} // verus!
