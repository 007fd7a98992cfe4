//! Paths of packages inside a repository.
use vstd::prelude::*;

use crate::text::{chars_of, has_char, is_text, pieces, slice_views, split};

verus! {

/// One step of a path: neither empty nor one that stays or leaves.
pub open spec fn is_step(s: Seq<char>) -> bool {
    s.len() > 0 && s != "."@ && s != ".."@
}

/// A path that leads down from the root of a repository: its steps are separated by
/// slashes, and it has no backslash. An absolute path has an empty first step.
pub open spec fn is_subdirectory(path: Seq<char>) -> bool {
    &&& !path.contains('\\')
    &&& forall|i: int| 0 <= i < split(path, '/').len() ==> is_step(#[trigger] split(path, '/')[i])
}

/// What is said of a path that does not lead down from the root of a repository.
pub open spec fn refused_subdirectory(path: Seq<char>) -> Seq<char> {
    "`subdirectory` must be a relative path inside the repository, got '"@ + path + "'"@
}

/// Checks that a path leads down from the root of a repository.
pub fn validate(path: &str) -> (r: Result<(), String>)
    ensures
        r is Ok <==> is_subdirectory(path@),
        r matches Err(e) ==> e@ == refused_subdirectory(path@),
{
    let cs = chars_of(path);
    let ps = pieces(cs.as_slice(), '/');
    let ghost all = split(path@, '/');
    let mut ok = !has_char(cs.as_slice(), '\\');
    let mut i: usize = 0;
    while i < ps.len()
        invariant
            i <= ps@.len(),
            slice_views(ps@) == all,
            ok <==> !path@.contains('\\') && forall|j: int| 0 <= j < i ==> is_step(#[trigger] all[j]),
        decreases ps@.len() - i,
    {
        assert(all[i as int] == ps@[i as int]@);
        if ps[i].len() == 0 || is_text(ps[i], ".") || is_text(ps[i], "..") {
            assert(!is_step(all[i as int]));
            ok = false;
        }
        i += 1;
    }
    if ok {
        Ok(())
    } else {
        Err(
            "`subdirectory` must be a relative path inside the repository, got '".to_owned().concat(path).concat("'"),
        )
    }
}

} // verus!
