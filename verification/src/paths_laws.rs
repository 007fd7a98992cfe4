//! How paths are joined and compared.
use vstd::prelude::*;

use crate::paths::{has_drive, joined, joined_on, kept_names, last_name, path_view, prefix_end, slashed};
use crate::text::{ends_with, is_letter, lower, replace_char, split, starts_with};
use crate::text_laws::{pieces_make_the_text, pieces_of_both, plain_text_is_one_piece};

verus! {

/// A name is put below a directory with one slash between; an absolute path stays as it
/// is, and so does a name where there is no directory.
pub proof fn names_are_put_below(dir: Seq<char>, name: Seq<char>)
    requires
        name.len() == 0 || name[0] != '/',
        dir.len() > 0,
        dir.last() != '/',
    ensures
        joined(dir, name) == dir + seq!['/'] + name,
        joined(dir.push('/'), name) == dir + seq!['/'] + name,
        joined(dir, seq!['/'] + name) == seq!['/'] + name,
        joined(Seq::<char>::empty(), name) == name,
        joined_on(false, dir, name) == dir + seq!['/'] + name,
{
    reveal_strlit("/");
    assert("/"@ == seq!['/']);
    if starts_with(name, "/"@) {
        assert(name.subrange(0, 1)[0] == '/');
    }
    if ends_with(dir, "/"@) {
        assert(dir.subrange(dir.len() - 1, dir.len() as int)[0] == '/');
    }
    let d = dir.push('/');
    assert(d.subrange(d.len() - 1, d.len() as int) == "/"@);
    assert(d + name == dir + seq!['/'] + name);
    let a = seq!['/'] + name;
    assert(a.subrange(0, 1) == "/"@);
}

/// On Windows a name is put below a directory with a backslash between, unless the
/// directory ends with a separator; a path with a drive stays as it is.
pub proof fn names_are_put_below_on_windows(dir: Seq<char>, name: Seq<char>, drive: char)
    requires
        name.len() > 0,
        name[0] != '/',
        name[0] != '\\',
        !(name.len() >= 2 && name[1] == ':'),
        dir.len() > 2,
        dir.last() != '/',
        dir.last() != '\\',
        is_letter(drive),
    ensures
        joined_on(true, dir, name) == dir + seq!['\\'] + name,
        joined_on(true, dir.push('\\'), name) == dir + seq!['\\'] + name,
        joined_on(true, dir.push('/'), name) == dir + seq!['/'] + name,
        joined_on(true, dir, seq![drive, ':'] + name) == seq![drive, ':'] + name,
{
    reveal_strlit("\\");
    assert("\\"@ == seq!['\\']);
    let n = slashed(name, true);
    let d = slashed(dir, true);
    assert(n[0] == name[0]);
    if n.len() >= 2 {
        assert(n[1] != ':');
    }
    assert(prefix_end(n, true) == 0);
    assert(d.last() == dir.last());
    let x = slashed(dir.push('\\'), true);
    assert(x.last() == '/');
    assert(dir.push('\\') + name == dir + seq!['\\'] + name);
    let y = slashed(dir.push('/'), true);
    assert(y.last() == '/');
    assert(dir.push('/') + name == dir + seq!['/'] + name);
    let w = seq![drive, ':'] + name;
    let v = slashed(w, true);
    assert(v[0] == drive && v[1] == ':');
    assert(has_drive(v));
}

proof fn lemma_kept_concat(a: Seq<Seq<char>>, b: Seq<Seq<char>>)
    requires
        a.len() > 0,
        b.len() > 0,
    ensures
        kept_names(a + b) == kept_names(a) + kept_names(seq![Seq::<char>::empty()] + b),
    decreases b.len(),
{
    let e = seq![Seq::<char>::empty()];
    let w = a + b;
    let v = e + b;
    assert(w.last() == b.last() && v.last() == b.last());
    assert(w.drop_last() == a + b.drop_last());
    assert(v.drop_last() == e + b.drop_last());
    if b.len() == 1 {
        assert(a + b.drop_last() == a);
        assert(e + b.drop_last() == e);
        assert(e.drop_last() == Seq::<Seq<char>>::empty());
        assert(e.last() == Seq::<char>::empty());
        assert(kept_names(Seq::<Seq<char>>::empty()) == Seq::<Seq<char>>::empty());
        assert(kept_names(e) == Seq::<Seq<char>>::empty());
        assert(kept_names(a) + kept_names(e) == kept_names(a));
        if !(b.last().len() == 0 || b.last() == "."@) {
            assert(kept_names(w) == kept_names(a) + kept_names(v));
        }
    } else {
        lemma_kept_concat(a, b.drop_last());
        assert(kept_names(w) == kept_names(a) + kept_names(v));
    }
}

/// The names in a path are those in front of a slash and those behind it, as they would be
/// below the root. Empty ones do not count, nor does a dot behind a slash; at the start of a
/// path a dot does.
#[verifier::rlimit(40)]
pub proof fn names_in_a_path(a: Seq<char>, b: Seq<char>, name: Seq<char>)
    requires
        !name.contains('/'),
        name.len() > 0,
        name != "."@,
    ensures
        kept_names(split(a + seq!['/'] + b, '/')) == kept_names(split(a, '/')) + kept_names(split(seq!['/'] + b, '/')),
        kept_names(split(name, '/')) == seq![name],
        kept_names(split(seq!['/'] + name, '/')) == seq![name],
        kept_names(split("."@, '/')) == seq!["."@],
        kept_names(split(seq!['/', '.'], '/')).len() == 0,
        kept_names(split(seq!['/'], '/')).len() == 0,
{
    reveal_strlit(".");
    assert("."@ == seq!['.']);
    let e = Seq::<char>::empty();
    let none = Seq::<Seq<char>>::empty();
    pieces_of_both(a, b, '/');
    pieces_make_the_text(a, '/');
    pieces_make_the_text(b, '/');
    pieces_of_both(e, b, '/');
    plain_text_is_one_piece(e, '/');
    assert(e + seq!['/'] + b == seq!['/'] + b);
    lemma_kept_concat(split(a, '/'), split(b, '/'));
    plain_text_is_one_piece(name, '/');
    assert(seq![name].drop_last() == none && seq![name].last() == name);
    assert(kept_names(none) == none);
    assert(kept_names(seq![name]) == seq![name]);
    pieces_of_both(e, name, '/');
    assert(e + seq!['/'] + name == seq!['/'] + name);
    assert((seq![e] + seq![name]).drop_last() == seq![e] && (seq![e] + seq![name]).last() == name);
    assert(seq![e].drop_last() == none && seq![e].last() == e);
    assert(kept_names(seq![e]) == none);
    assert(kept_names(seq![e] + seq![name]) == seq![name]);
    let dot = seq!['.'];
    assert(!dot.contains('/'));
    plain_text_is_one_piece(dot, '/');
    assert(seq![dot].drop_last() == none && seq![dot].last() == dot);
    assert(kept_names(seq![dot]) == seq![dot]);
    pieces_of_both(e, dot, '/');
    assert(e + seq!['/'] + dot == seq!['/', '.']);
    assert((seq![e] + seq![dot]).drop_last() == seq![e] && (seq![e] + seq![dot]).last() == dot);
    pieces_of_both(e, e, '/');
    assert(e + seq!['/'] + e == seq!['/']);
    assert((seq![e] + seq![e]).drop_last() == seq![e] && (seq![e] + seq![e]).last() == e);
}

/// Two paths are the same where they differ in repeated slashes and slashes at the end only.
/// A path with a slash in front is never the same as one without.
#[verifier::rlimit(40)]
pub proof fn paths_are_compared_by_names(a: Seq<char>, b: Seq<char>)
    requires
        a.len() > 0,
    ensures
        path_view(a + seq!['/'], false) == path_view(a, false),
        path_view(a + seq!['/', '/'] + b, false) == path_view(a + seq!['/'] + b, false),
        path_view(a, false).rooted <==> a[0] == '/',
        path_view(a, false).names == kept_names(split(a, '/')),
        path_view(a, false).prefix.len() == 0,
{
    reveal_strlit("/");
    reveal_strlit(".");
    assert("/"@ == seq!['/']);
    let e = Seq::<char>::empty();
    let x = a + seq!['/'];
    let y = a + seq!['/', '/'] + b;
    let z = a + seq!['/'] + b;
    lemma_plain_view(a);
    lemma_plain_view(x);
    lemma_plain_view(y);
    lemma_plain_view(z);
    let none = seq!['.', '.', '.'];
    assert(!none.contains('/'));
    assert("."@.len() == 1);
    names_in_a_path(a, e, none);
    assert(a + seq!['/'] + e == x);
    assert(seq!['/'] + e == seq!['/']);
    let c = seq!['/'] + b;
    names_in_a_path(a, c, none);
    names_in_a_path(a, b, none);
    names_in_a_path(e, c, none);
    names_in_a_path(e, b, none);
    assert(a + seq!['/'] + c == y);
    names_in_a_path(seq!['/'], b, none);
    assert(seq!['/'] + seq!['/'] + b == seq!['/'] + c);
    assert(kept_names(split(seq!['/'] + c, '/')) == kept_names(split(seq!['/'] + b, '/')));
    assert(x[0] == a[0] && y[0] == a[0] && z[0] == a[0]);
}

proof fn lemma_plain_view(p: Seq<char>)
    requires
        p.len() > 0,
    ensures
        path_view(p, false).prefix == Seq::<char>::empty(),
        path_view(p, false).rooted <==> p[0] == '/',
        path_view(p, false).names == kept_names(split(p, '/')),
{
    reveal_strlit("/");
    assert("/"@ == seq!['/']);
    assert(p.subrange(0, p.len() as int) == p);
    assert(p.take(0) == Seq::<char>::empty());
    assert(p.subrange(0, 1)[0] == p[0]);
    if p[0] == '/' {
        assert(p.subrange(0, 1) == "/"@);
    }
}

/// On Windows a backslash is a slash, and the case of the drive does not count.
pub proof fn paths_are_compared_on_windows(p: Seq<char>, c: char, d: char, rest: Seq<char>)
    requires
        is_letter(c),
        is_letter(d),
        crate::text::lower_char(c) == crate::text::lower_char(d),
    ensures
        path_view(replace_char(p, '\\', '/'), true) == path_view(p, true),
        path_view(seq![c, ':'] + rest, true) == path_view(seq![d, ':'] + rest, true),
{
    assert(replace_char(replace_char(p, '\\', '/'), '\\', '/') == replace_char(p, '\\', '/'));
    let x = seq![c, ':'] + rest;
    let y = seq![d, ':'] + rest;
    let s = slashed(x, true);
    let t = slashed(y, true);
    assert(s[0] == c && s[1] == ':' && t[0] == d && t[1] == ':');
    assert(s.subrange(2, s.len() as int) == t.subrange(2, t.len() as int));
    assert(lower(s.take(2)) == lower(t.take(2)));
}

/// The name of a file is the last part of its path; dots and slashes at the end do not
/// count, and a path that ends with two dots has none.
pub proof fn last_name_of_a_path(names: Seq<Seq<char>>, name: Seq<char>)
    requires
        name.len() > 0,
        name != "."@,
        name != ".."@,
    ensures
        last_name(names.push(name)) == Some(name),
        last_name(names.push(Seq::<char>::empty())) == last_name(names),
        last_name(names.push("."@)) == last_name(names),
        last_name(names.push(".."@)) is None,
        last_name(Seq::<Seq<char>>::empty()) is None,
{
    reveal_strlit(".");
    reveal_strlit("..");
    assert("."@.len() == 1 && ".."@.len() == 2);
    assert(names.push(name).drop_last() == names);
    assert(names.push(Seq::<char>::empty()).drop_last() == names);
    assert(names.push("."@).drop_last() == names);
}

} // verus!
