//! The OpenMP runtime that comes with builds of R for macOS.
//!
//! Packages built with OpenMP leave the symbols of the runtime undefined, and nothing
//! loads the runtime that R comes with. A block in a site profile, which R reads when
//! it starts, loads it before any package.
use vstd::prelude::*;

use crate::paths::{home_of, is_home, path_view, same_path};
use crate::text::{chars_of, contains_text, has_suffix, has_text, opt_str, opt_view, same_str, stands_at, trim, trimmed, ends_with};

verus! {

/// The line by which the block is recognised.
pub const MARKER: &'static str = "# >>> uvr openmp shim >>>";

/// What follows the marker in the block. The runtime is looked for below the home of
/// the R that reads the block, so the block survives a move of the installation.
pub const SHIM_BODY: &'static str = "\n# Loads the bundled OpenMP runtime so CRAN/P3M binary packages built with\n# -fopenmp (Rtsne, dotCall64, mgcv, ...) can resolve their __kmpc_* symbols.\n# Without this they fail with \"symbol not found in flat namespace\".\nlocal({\n  lib <- file.path(R.home(\"lib\"), if (.Platform$OS.type == \"windows\") \"libomp.dll\" else \"libomp.dylib\")\n  if (file.exists(lib)) try(dyn.load(lib, local = FALSE, now = FALSE), silent = TRUE)\n})\n# <<< uvr openmp shim <<<\n";

/// The environment variable that names the site profile that the profile of this tool
/// reads first.
pub const ORIG_SITE_PROFILE_VAR: &'static str = "UVR_SITE_PROFILE_ORIG";

/// The start of the profile of this tool: it reads the site profile that it stands in
/// for, unless that is itself.
pub const RUNTIME_PROFILE_HEADER: &'static str = "# Written by uvr; rewritten on every use, so edits here will not survive.\n# R reads this file instead of $R_HOME/etc/Rprofile.site because uvr set\n# R_PROFILE for this session. It chains to that file first, then loads the\n# bundled OpenMP runtime — the only startup hook that reaches every R this\n# project runs (uvr run, activate, R CMD INSTALL's child sessions) without\n# editing an R installation uvr does not own. See uvr issue #261.\nlocal({\n  self <- Sys.getenv(\"R_PROFILE\")\n  orig <- Sys.getenv(\"UVR_SITE_PROFILE_ORIG\")\n  if (!nzchar(orig)) orig <- file.path(R.home(\"etc\"), \"Rprofile.site\")\n  if (file.exists(orig)) {\n    same <- nzchar(self) && file.exists(self) &&\n      identical(normalizePath(orig), normalizePath(self))\n    if (!same) try(sys.source(orig, envir = globalenv()))\n  }\n})\n";

/// The block.
pub open spec fn shim() -> Seq<char> {
    MARKER@ + SHIM_BODY@
}

fn shim_text() -> (r: String)
    ensures
        r@ == shim(),
{
    MARKER.to_owned().concat(SHIM_BODY)
}

/// A site profile with the block at its end; none where it has the block already.
pub open spec fn shimmed(existing: Seq<char>) -> Option<Seq<char>> {
    if contains_text(existing, MARKER@) {
        None
    } else if trim(existing).len() == 0 {
        Some(shim())
    } else if ends_with(existing, "\n"@) {
        Some(existing + "\n"@ + shim())
    } else {
        Some(existing + "\n\n"@ + shim())
    }
}

/// The site profile that an installation gets, where it has to be written: the
/// installation has the runtime and a directory for the profile, and the profile has
/// not the block yet.
pub fn ensure_openmp_shim(has_libomp: bool, has_etc: bool, existing: &str) -> (r: Option<String>)
    ensures
        opt_view(r) == (if has_libomp && has_etc {
            shimmed(existing@)
        } else {
            None
        }),
{
    if !has_libomp || !has_etc {
        return None;
    }
    let cs = chars_of(existing);
    let s = cs.as_slice();
    if has_text(s, MARKER) {
        return None;
    }
    if trimmed(s).len() == 0 {
        Some(shim_text())
    } else if has_suffix(s, "\n") {
        Some(existing.to_owned().concat("\n").concat(shim_text().as_str()))
    } else {
        Some(existing.to_owned().concat("\n\n").concat(shim_text().as_str()))
    }
}

/// The profile of this tool.
pub fn runtime_profile() -> (r: String)
    ensures
        r@ == RUNTIME_PROFILE_HEADER@ + shim(),
{
    RUNTIME_PROFILE_HEADER.to_owned().concat(shim_text().as_str())
}

/// The profile of this tool, where what is in its place differs from it.
pub fn runtime_profile_update(current: Option<&str>) -> (r: Option<String>)
    ensures
        opt_view(r) == (if opt_str(current) == Some(RUNTIME_PROFILE_HEADER@ + shim()) {
            None
        } else {
            Some(RUNTIME_PROFILE_HEADER@ + shim())
        }),
{
    let content = runtime_profile();
    if let Some(c) = current {
        if same_str(c, content.as_str()) {
            return None;
        }
    }
    Some(content)
}

/// The site profile that the profile of this tool reads first: the one that the
/// environment names, unless it names none or the profile of this tool.
pub open spec fn original_profile(profile: Seq<char>, r_profile: Option<Seq<char>>, windows: bool) -> Seq<char> {
    match r_profile {
        Some(v) => if trim(v).len() == 0 || path_view(v, windows) == path_view(profile, windows) {
            seq![]
        } else {
            v
        },
        None => seq![],
    }
}

/// The variables that make R read the profile of this tool. `r_profile` is what the
/// environment has for `R_PROFILE`.
pub fn site_profile_env(profile: &str, r_profile: Option<&str>, windows: bool) -> (r: [(&'static str, String); 2])
    ensures
        r@[0].0@ == "R_PROFILE"@,
        r@[0].1@ == profile@,
        r@[1].0@ == ORIG_SITE_PROFILE_VAR@,
        r@[1].1@ == original_profile(profile@, opt_str(r_profile), windows),
{
    let orig = match r_profile {
        Some(v) => {
            let cs = chars_of(v);
            if trimmed(cs.as_slice()).len() == 0 || same_path(v, profile, windows) {
                String::new()
            } else {
                v.to_owned()
            }
        },
        None => String::new(),
    };
    [("R_PROFILE", profile.to_owned()), (ORIG_SITE_PROFILE_VAR, orig)]
}

/// The home of an R: the directory that holds the directory of its program.
pub fn r_home_from_binary(r_binary: &str) -> (r: Option<String>)
    ensures
        is_home(r_binary@, opt_view(r)),
{
    home_of(r_binary)
}

/// A profile that has got the block is not changed again, and it keeps what it held,
/// unless that was only white space.
pub proof fn shim_is_added_once(existing: Seq<char>)
    ensures
        shimmed(existing) matches Some(t) ==> shimmed(t) is None && (trim(existing).len() > 0 ==> t.len() >= existing.len()
            && t.subrange(0, existing.len() as int) == existing),
{
    if let Some(t) = shimmed(existing) {
        let k = t.len() - shim().len();
        assert(t.subrange(k, k + MARKER@.len()) =~= MARKER@);
        assert(stands_at(t, MARKER@, k));
        if trim(existing).len() > 0 {
            assert(t.subrange(0, existing.len() as int) =~= existing);
        }
    }
}

} // verus!
