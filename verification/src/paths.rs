//! Paths as texts.
use vstd::prelude::*;

use crate::text::{chars_of, ends_with, find_char, has_prefix, has_suffix, index_of, is_letter, is_text, lower, lowered,
    opt_view, part, pieces, replace_char, same, slice_views, split, starts_with, string_of, with_char_replaced};

verus! {

/// A name that means the same at the end of a path on every system: it holds nothing that
/// separates names or marks a drive, and does not end in a dot.
pub open spec fn plain_name(name: Seq<char>) -> bool {
    name.len() > 0 && !name.contains('/') && !name.contains('\\') && !name.contains(':') && name.last() != '.'
}

/// A directory whose path is read alike on every system: slashes separate its names, no
/// drive or host stands in front, and no slash or dot at the end.
pub open spec fn plain_dir(dir: Seq<char>) -> bool {
    &&& dir.len() > 0
    &&& !dir.contains('\\')
    &&& !dir.contains(':')
    &&& dir.last() != '/'
    &&& dir.last() != '.'
    &&& !starts_with(dir, "//"@)
}

/// The path of a name that stands in a directory.
pub open spec fn child(dir: Seq<char>, name: Seq<char>) -> Seq<char> {
    dir + "/"@ + name
}

/// What every system says of the directory that holds a file or directory.
pub open spec fn is_parent(path: Seq<char>, parent: Option<Seq<char>>) -> bool {
    &&& path.len() == 0 ==> parent is None
    &&& path == "/"@ ==> parent is None
    &&& plain_name(path) ==> parent == Some(Seq::<char>::empty())
    &&& forall|name: Seq<char>| plain_name(name) && path == #[trigger] ("/"@ + name) ==> parent == Some("/"@)
    &&& forall|dir: Seq<char>, name: Seq<char>|
        plain_dir(dir) && plain_name(name) && path == #[trigger] child(dir, name) ==> parent == Some(dir)
}

/// `std::path::Path::parent`. It is the path without its last name, where there is one, and
/// nothing for an empty path and for a root. How a path is read differs from system to
/// system: nothing is claimed of one that holds a backslash or a colon, that begins with two
/// slashes, or whose last names are dots or are followed by a slash.
#[verifier::external_body]
pub(crate) fn parent_of(path: &str) -> (r: Option<String>)
    ensures
        is_parent(path@, opt_view(r)),
{
    std::path::Path::new(path).parent().map(|p| p.display().to_string())
}

/// The directory that holds the directory of a file, as [`is_parent`] tells it.
pub open spec fn is_home(file: Seq<char>, home: Option<Seq<char>>) -> bool {
    exists|dir: Option<Seq<char>>|
        #[trigger] is_parent(file, dir) && (match dir {
            Some(d) => is_parent(d, home),
            None => home is None,
        })
}

/// The directory that holds the directory of a file; see [`is_home`].
pub fn home_of(file: &str) -> (r: Option<String>)
    ensures
        is_home(file@, opt_view(r)),
{
    let dir = parent_of(file);
    assert(is_parent(file@, opt_view(dir)));
    match dir {
        Some(d) => parent_of(d.as_str()),
        None => None,
    }
}

/// What is two names below a directory has that directory for its home.
pub proof fn home_is_two_names_up(home: Seq<char>, dir: Seq<char>, name: Seq<char>, found: Option<Seq<char>>)
    requires
        plain_dir(home),
        plain_name(dir),
        plain_name(name),
        is_home(child(child(home, dir), name), found),
    ensures
        found == Some(home),
{
    reveal_strlit("/");
    reveal_strlit("//");
    let d = child(home, dir);
    assert(d.last() == dir.last());
    assert forall|c: char| c != '/' && d.contains(c) implies home.contains(c) || dir.contains(c) by {
        let i = choose|i: int| 0 <= i < d.len() && d[i] == c;
        if i < home.len() {
            assert(home[i] == c);
        } else {
            assert(dir[i - home.len() - 1] == c);
        }
    }
    assert(dir.contains(dir.last()));
    if starts_with(d, "//"@) {
        assert(d[0] == "//"@[0] && d[1] == "//"@[1]);
        if home.len() == 1 {
            assert(home.last() == home[0]);
        } else {
            assert(home.take(2) =~= "//"@);
        }
        assert(false);
    }
    assert(plain_dir(d));
}

/// The last name in a path whose names slashes separate. Empty names and dots at the end
/// do not count, and a path that ends in `..` has none.
pub open spec fn last_name(names: Seq<Seq<char>>) -> Option<Seq<char>>
    decreases names.len(),
{
    if names.len() == 0 {
        None
    } else if names.last().len() == 0 || names.last() == "."@ {
        last_name(names.drop_last())
    } else if names.last() == ".."@ {
        None
    } else {
        Some(names.last())
    }
}

/// The last name in a path whose names slashes separate; see [`last_name`].
pub fn file_name(path: &[char]) -> (r: Option<String>)
    ensures
        opt_view(r) == last_name(split(path@, '/')),
{
    let names = pieces(path, '/');
    let ghost all = split(path@, '/');
    let mut j: usize = names.len();
    assert(all.take(j as int) == all);
    while j > 0
        invariant
            j <= names@.len(),
            slice_views(names@) == all,
            all == split(path@, '/'),
            last_name(all) == last_name(all.take(j as int)),
        decreases j,
    {
        let name = names[j - 1];
        assert(all.take(j as int).last() == name@);
        assert(all.take(j as int).drop_last() == all.take(j - 1));
        if name.len() > 0 && !is_text(name, ".") {
            if is_text(name, "..") {
                return None;
            }
            return Some(string_of(name));
        }
        j = j - 1;
    }
    None
}

/// The path of a name in a directory, with a slash between them. A name that begins with a
/// slash is a path of its own.
pub open spec fn joined(dir: Seq<char>, name: Seq<char>) -> Seq<char> {
    if dir.len() == 0 || starts_with(name, "/"@) {
        name
    } else if ends_with(dir, "/"@) {
        dir + name
    } else {
        dir + "/"@ + name
    }
}

/// The path of a name in a directory; see [`joined`].
pub fn join_path(dir: &str, name: &str) -> (r: String)
    ensures
        r@ == joined(dir@, name@),
{
    let cs = chars_of(dir);
    let ns = chars_of(name);
    if cs.len() == 0 || has_prefix(ns.as_slice(), "/") {
        name.to_owned()
    } else if has_suffix(cs.as_slice(), "/") {
        dir.to_owned().concat(name)
    } else {
        dir.to_owned().concat("/").concat(name)
    }
}

/// A drive in front of a path, as Windows has them.
pub open spec fn has_drive(path: Seq<char>) -> bool {
    path.len() >= 2 && is_letter(path[0]) && path[1] == ':'
}

/// A path with slashes for what separates names.
pub open spec fn slashed(path: Seq<char>, windows: bool) -> Seq<char> {
    if windows {
        replace_char(path, '\\', '/')
    } else {
        path
    }
}

/// A path with slashes for what separates names; see [`slashed`].
pub fn slashed_chars(path: &str, windows: bool) -> (r: Vec<char>)
    ensures
        r@ == slashed(path@, windows),
        r@.len() == path@.len(),
{
    let cs = chars_of(path);
    if windows {
        with_char_replaced(cs.as_slice(), '\\', '/')
    } else {
        cs
    }
}

/// How much of a path with slashes is a drive, or a host and what it shares, as Windows has
/// them.
pub open spec fn prefix_end(p: Seq<char>, windows: bool) -> int {
    if !windows {
        0
    } else if has_drive(p) {
        2
    } else if p.len() > 2 && p[0] == '/' && p[1] == '/' && p[2] != '/' {
        let a = find_char(p, '/', 2);
        if a + 1 < p.len() && p[a + 1] != '/' {
            find_char(p, '/', a + 1)
        } else {
            0
        }
    } else {
        0
    }
}

fn is_drive_at(p: &[char]) -> (r: bool)
    ensures
        r == has_drive(p@),
{
    p.len() >= 2 && p[1] == ':' && (('a' <= p[0] && p[0] <= 'z') || ('A' <= p[0] && p[0] <= 'Z'))
}

fn prefix_length(p: &[char], windows: bool) -> (r: usize)
    ensures
        r == prefix_end(p@, windows),
        r <= p@.len(),
{
    if !windows {
        0
    } else if is_drive_at(p) {
        2
    } else if p.len() > 2 && p[0] == '/' && p[1] == '/' && p[2] != '/' {
        let a = index_of(p, '/', 2);
        if a < p.len() && a + 1 < p.len() && p[a + 1] != '/' {
            index_of(p, '/', a + 1)
        } else {
            0
        }
    } else {
        0
    }
}

/// The path of a name in a directory, as the system writes it. On Windows a backslash
/// separates the two, unless the directory ends in a separator or is a drive. A name that
/// begins with a drive or a host is a path of its own; one that begins with a separator
/// keeps the drive or the host of the directory.
pub open spec fn joined_on(windows: bool, dir: Seq<char>, name: Seq<char>) -> Seq<char> {
    let d = slashed(dir, true);
    let n = slashed(name, true);
    if !windows {
        joined(dir, name)
    } else if prefix_end(n, true) > 0 {
        name
    } else if n.len() > 0 && n[0] == '/' {
        dir.take(prefix_end(d, true)) + name
    } else if d.len() == 0 || d.last() == '/' || (has_drive(d) && d.len() == 2) {
        dir + name
    } else {
        dir + "\\"@ + name
    }
}

/// The path of a name in a directory, as the system writes it; see [`joined_on`].
pub fn join_on(windows: bool, dir: &str, name: &str) -> (r: String)
    ensures
        r@ == joined_on(windows, dir@, name@),
{
    if !windows {
        return join_path(dir, name);
    }
    let d = slashed_chars(dir, true);
    let n = slashed_chars(name, true);
    if prefix_length(n.as_slice(), true) > 0 {
        return name.to_owned();
    }
    if n.len() > 0 && n[0] == '/' {
        let k = prefix_length(d.as_slice(), true);
        let cs = chars_of(dir);
        assert(dir@.subrange(0, k as int) == dir@.take(k as int));
        return string_of(part(cs.as_slice(), 0, k)).concat(name);
    }
    if d.len() == 0 || d[d.len() - 1] == '/' || (is_drive_at(d.as_slice()) && d.len() == 2) {
        return dir.to_owned().concat(name);
    }
    dir.to_owned().concat("\\").concat(name)
}

/// The names of a path that count: empty ones do not, nor does a dot that is not the first.
pub open spec fn kept_names(parts: Seq<Seq<char>>) -> Seq<Seq<char>>
    decreases parts.len(),
{
    if parts.len() == 0 {
        seq![]
    } else if parts.last().len() == 0 || (parts.last() == "."@ && parts.len() > 1) {
        kept_names(parts.drop_last())
    } else {
        kept_names(parts.drop_last()).push(parts.last())
    }
}

/// What a path stands for, whatever separators are repeated in it and whatever dots stand
/// inside it.
pub struct PathView {
    /// The drive, or the host and what it shares.
    pub prefix: Seq<char>,
    pub rooted: bool,
    pub names: Seq<Seq<char>>,
}

/// What a path stands for. The case of a drive does not matter.
pub open spec fn path_view(path: Seq<char>, windows: bool) -> PathView {
    let p = slashed(path, windows);
    let k = prefix_end(p, windows);
    let rest = p.subrange(k, p.len() as int);
    let drive = windows && has_drive(p);
    PathView {
        prefix: if drive {
            lower(p.take(2))
        } else {
            p.take(k)
        },
        rooted: (k > 0 && !drive) || starts_with(rest, "/"@),
        names: kept_names(split(rest, '/')),
    }
}

fn names_in<'a>(s: &'a [char]) -> (r: Vec<&'a [char]>)
    ensures
        slice_views(r@) == kept_names(split(s@, '/')),
{
    let ps = pieces(s, '/');
    let ghost all = split(s@, '/');
    let mut out: Vec<&'a [char]> = Vec::new();
    let mut i: usize = 0;
    proof {
        assert(all.take(0) == Seq::<Seq<char>>::empty());
        assert(slice_views(out@) == Seq::<Seq<char>>::empty());
    }
    while i < ps.len()
        invariant
            i <= ps@.len(),
            slice_views(ps@) == all,
            slice_views(out@) == kept_names(all.take(i as int)),
        decreases ps@.len() - i,
    {
        let ghost before = out@;
        let p = ps[i];
        proof {
            assert(slice_views(ps@)[i as int] == p@);
            assert(all.take(i + 1).drop_last() == all.take(i as int));
            assert(all.take(i + 1).last() == p@);
        }
        if p.len() > 0 && !(i > 0 && is_text(p, ".")) {
            out.push(p);
            assert(slice_views(out@) == slice_views(before).push(p@));
        }
        i += 1;
    }
    assert(all.take(i as int) == all);
    out
}

fn same_names(a: &Vec<&[char]>, b: &Vec<&[char]>) -> (r: bool)
    ensures
        r == (slice_views(a@) == slice_views(b@)),
{
    let ghost x = slice_views(a@);
    let ghost y = slice_views(b@);
    assert(x.len() == a@.len() && y.len() == b@.len());
    if a.len() != b.len() {
        return false;
    }
    let mut i: usize = 0;
    while i < a.len()
        invariant
            i <= a@.len(),
            a@.len() == b@.len(),
            x == slice_views(a@),
            y == slice_views(b@),
            x.len() == a@.len(),
            y.len() == b@.len(),
            forall|j: int| 0 <= j < i ==> #[trigger] x[j] == y[j],
        decreases a@.len() - i,
    {
        assert(x[i as int] == a@[i as int]@ && y[i as int] == b@[i as int]@);
        if !same(a[i], b[i]) {
            assert(x[i as int] != y[i as int]);
            return false;
        }
        i += 1;
    }
    assert(x =~= y);
    true
}

/// Whether two paths stand for the same; see [`path_view`].
pub fn same_path(a: &str, b: &str, windows: bool) -> (r: bool)
    ensures
        r == (path_view(a@, windows) == path_view(b@, windows)),
{
    let p = slashed_chars(a, windows);
    let q = slashed_chars(b, windows);
    let j = prefix_length(p.as_slice(), windows);
    let k = prefix_length(q.as_slice(), windows);
    let x = part(p.as_slice(), j, p.len());
    let y = part(q.as_slice(), k, q.len());
    let ghost v = path_view(a@, windows);
    let ghost w = path_view(b@, windows);
    let p_drive = windows && is_drive_at(p.as_slice());
    let q_drive = windows && is_drive_at(q.as_slice());
    let p_prefix = prefix_text(part(p.as_slice(), 0, j), p_drive);
    let q_prefix = prefix_text(part(q.as_slice(), 0, k), q_drive);
    proof {
        assert(p@.subrange(0, j as int) == p@.take(j as int));
        assert(q@.subrange(0, k as int) == q@.take(k as int));
        assert(p_prefix@ == v.prefix);
        assert(q_prefix@ == w.prefix);
    }
    let p_rooted = (j > 0 && !p_drive) || has_prefix(x, "/");
    let q_rooted = (k > 0 && !q_drive) || has_prefix(y, "/");
    same(p_prefix.as_slice(), q_prefix.as_slice()) && p_rooted == q_rooted && same_names(&names_in(x), &names_in(y))
}

fn prefix_text(s: &[char], drive: bool) -> (r: Vec<char>)
    ensures
        r@ == (if drive {
            lower(s@)
        } else {
            s@
        }),
{
    if drive {
        lowered(s)
    } else {
        chars_of(string_of(s).as_str())
    }
}

/// The names of a path are the same where a separator is repeated or a dot stands inside it.
pub proof fn repeated_separators_do_not_count(a: Seq<Seq<char>>, b: Seq<Seq<char>>)
    requires
        a.len() > 0,
    ensures
        kept_names(a + seq![Seq::<char>::empty()] + b) == kept_names(a + b),
        kept_names(a + seq!["."@] + b) == kept_names(a + b),
    decreases b.len(),
{
    let e = Seq::<char>::empty();
    if b.len() == 0 {
        assert((a + seq![e] + b).drop_last() == a);
        assert((a + seq!["."@] + b).drop_last() == a);
        assert(a + b == a);
    } else {
        let c = b.drop_last();
        repeated_separators_do_not_count(a, c);
        assert((a + seq![e] + b).drop_last() == a + seq![e] + c);
        assert((a + seq!["."@] + b).drop_last() == a + seq!["."@] + c);
        assert((a + b).drop_last() == a + c);
    }
}

} // verus!
