//! Removing an installation of R.
use vstd::prelude::*;

use crate::error::{ErrorView, UvrError};
use crate::text::{chars_of, contains_text, debug_form, debug_text, has_char, has_text};

verus! {

/// The name of a directory of an installation: not empty, not hidden, and without
/// anything that leads out of the directory that holds it.
pub open spec fn is_install_name(version: Seq<char>) -> bool {
    &&& version.len() > 0
    &&& version[0] != '.'
    &&& !version.contains('/')
    &&& !version.contains('\\')
    &&& !contains_text(version, ".."@)
}

/// Whether an installation can have the name; see [`is_install_name`].
pub fn is_removable_name(version: &str) -> (r: bool)
    ensures
        r == is_install_name(version@),
{
    let cs = chars_of(version);
    let s = cs.as_slice();
    cs.len() > 0 && cs[0] != '.' && !has_char(s, '/') && !has_char(s, '\\') && !has_text(s, "..")
}

/// Whether the installation of a version may be removed. `dir` is its directory, none
/// where the home directory is not known.
pub fn check_uninstall(version: &str, dir: Option<&str>, exists: bool) -> (r: Result<(), UvrError>)
    ensures
        if !is_install_name(version@) {
            r matches Err(e) && e@ == ErrorView::Other("Invalid R version: "@ + debug_text(version@))
        } else {
            match dir {
                None => r matches Err(e) && e@ == ErrorView::Other("Cannot determine home directory"@),
                Some(d) => if exists {
                    r is Ok
                } else {
                    r matches Err(e) && e@ == ErrorView::Other("R "@ + version@ + " is not installed at "@ + d@)
                },
            }
        },
{
    if !is_removable_name(version) {
        return Err(UvrError::Other("Invalid R version: ".to_owned().concat(debug_form(version).as_str())));
    }
    match dir {
        None => Err(UvrError::Other("Cannot determine home directory".to_owned())),
        Some(d) => if exists {
            Ok(())
        } else {
            Err(UvrError::Other("R ".to_owned().concat(version).concat(" is not installed at ").concat(d)))
        },
    }
}

} // verus!
