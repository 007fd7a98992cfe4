//! The names that R packages can have.
use vstd::prelude::*;

use crate::text::{char_is_alphanumeric, chars_of, is_alphanumeric, is_letter};

verus! {

/// A package name consists of at least two ASCII letters, digits and dots, starts
/// with a letter and does not end with a dot.
pub open spec fn is_package_name(name: Seq<char>) -> bool {
    &&& name.len() >= 2
    &&& is_letter(name[0])
    &&& name.last() != '.'
    &&& forall|i: int| 0 <= i < name.len() ==> is_alphanumeric(#[trigger] name[i]) || name[i] == '.'
}

/// Whether a package can have the name; see [`is_package_name`].
pub fn is_valid(name: &str) -> (r: bool)
    ensures
        r == is_package_name(name@),
{
    let cs = chars_of(name);
    let n: usize = cs.len();
    if n < 2 || cs[n - 1] == '.' {
        return false;
    }
    let c = cs[0];
    if !(('a' <= c && c <= 'z') || ('A' <= c && c <= 'Z')) {
        return false;
    }
    let mut i: usize = 0;
    while i < n
        invariant
            i <= n,
            n == cs@.len(),
            cs@ == name@,
            forall|j: int| 0 <= j < i ==> is_alphanumeric(#[trigger] cs@[j]) || cs@[j] == '.',
        decreases n - i,
    {
        if !char_is_alphanumeric(cs[i]) && cs[i] != '.' {
            assert(!(is_alphanumeric(name@[i as int]) || name@[i as int] == '.'));
            return false;
        }
        i += 1;
    }
    true
}

} // verus!
