//! How the description of a package becomes a manifest, and what is wrong with manifests.
use vstd::prelude::*;

use super::check::{
    directory_fault, entries_of_section, exact_fault, fault_of, find_key, first_fault, form_fault,
    is_dep_key, manifest_fault, section_fault, sections_fault, strange_keys, TomlView,
};
use super::description::{
    declared, entry_pairs, in_brackets, is_known, is_r_entry, known_package, known_without, manifest_of,
    package_of, r_requirement, with_pairs, with_remotes, with_source, without_space, Dependencies, Specs,
};
use super::remote_laws::is_trimmed;
use super::remotes::{dependency_on, remotes_of, RemoteEntryView, RemoteView};
use super::{spec_version_req, with_dep, without_dep, DetailedView, ManifestView, SpecView};
use crate::registry::forgejo::forgejo_parts;
use crate::registry::github::is_repo_spec;
use crate::registry::gitlab::gitlab_parts;
use crate::subdirectory::is_subdirectory;
use crate::text::{find_char, is_whitespace, rfind_char, split, starts_with, strip_suffix, trim};
use crate::text_laws::{
    is_blank, nothing_is_left_of_space, pieces_of_both, plain_text_is_one_piece, stripping_undoes_adding,
    trimming_takes_only_space, trimming_undoes_padding,
};
use crate::text_map::{in_order, in_order_holds};

verus! {

proof fn lemma_pairs_concat(a: Seq<Seq<char>>, b: Seq<Seq<char>>)
    ensures
        entry_pairs(a + b) == entry_pairs(a) + entry_pairs(b),
    decreases b.len(),
{
    if b.len() == 0 {
        assert(a + b == a);
        assert(entry_pairs(b) == Seq::<(Seq<char>, SpecView)>::empty());
    } else {
        assert((a + b).drop_last() == a + b.drop_last());
        lemma_pairs_concat(a, b.drop_last());
        assert(entry_pairs(a + b) == entry_pairs(a) + entry_pairs(b));
    }
}

/// A field states the dependencies in front of a comma and those behind it.
pub proof fn commas_part_entries(a: Seq<char>, b: Seq<char>)
    ensures
        entry_pairs(split(a + seq![','] + b, ',')) == entry_pairs(split(a, ',')) + entry_pairs(split(b, ',')),
{
    pieces_of_both(a, b, ',');
    lemma_pairs_concat(split(a, ','), split(b, ','));
}

proof fn lemma_find_none(s: Seq<char>, c: char, i: int)
    requires
        !s.contains(c),
        0 <= i <= s.len(),
    ensures
        find_char(s, c, i) == s.len(),
    decreases s.len() - i,
{
    if i < s.len() {
        assert(s.contains(s[i]));
        lemma_find_none(s, c, i + 1);
    }
}

proof fn lemma_find_first(a: Seq<char>, b: Seq<char>, c: char, i: int)
    requires
        !a.contains(c),
        0 <= i <= a.len(),
    ensures
        find_char(a + seq![c] + b, c, i) == a.len(),
    decreases a.len() - i,
{
    let w = a + seq![c] + b;
    if i < a.len() {
        assert(w[i] == a[i]);
        assert(a.contains(a[i]));
        lemma_find_first(a, b, c, i + 1);
    } else {
        assert(w[i] == c);
    }
}

proof fn lemma_blank_has_no(x: Seq<char>, c: char)
    requires
        is_blank(x),
        !is_whitespace(c),
    ensures
        !x.contains(c),
{
    if x.contains(c) {
        let i = choose|i: int| 0 <= i < x.len() && x[i] == c;
        assert(is_whitespace(x[i]));
    }
}

proof fn lemma_concat_has_no(a: Seq<char>, b: Seq<char>, c: char)
    requires
        !a.contains(c),
        !b.contains(c),
    ensures
        !(a + b).contains(c),
{
    let w = a + b;
    if w.contains(c) {
        let i = choose|i: int| 0 <= i < w.len() && w[i] == c;
        if i < a.len() {
            assert(a[i] == c);
        } else {
            assert(b[i - a.len()] == c);
        }
    }
}

proof fn lemma_trimmed(t: Seq<char>)
    requires
        is_trimmed(t),
    ensures
        trim(t) == t,
{
    let e = Seq::<char>::empty();
    trimming_undoes_padding(e, t, e);
    assert(e + t + e == t);
}

/// A name alone states a dependency on any version, and white space states none.
pub proof fn plain_entries(a: Seq<char>, name: Seq<char>, b: Seq<char>)
    requires
        is_blank(a),
        is_blank(b),
        is_trimmed(name),
        !name.contains(','),
        !name.contains('('),
    ensures
        entry_pairs(split(a + name + b, ',')) == seq![(name, SpecView::Version("*"@))],
        entry_pairs(split(a, ',')).len() == 0,
{
    let e = Seq::<Seq<char>>::empty();
    let s = a + name + b;
    lemma_blank_has_no(a, ',');
    lemma_blank_has_no(b, ',');
    lemma_concat_has_no(a, name, ',');
    lemma_concat_has_no(a + name, b, ',');
    plain_text_is_one_piece(s, ',');
    plain_text_is_one_piece(a, ',');
    trimming_undoes_padding(a, name, b);
    nothing_is_left_of_space(a);
    assert(seq![s].drop_last() == e && seq![s].last() == s);
    assert(seq![a].drop_last() == e && seq![a].last() == a);
    assert(entry_pairs(e) == Seq::<(Seq<char>, SpecView)>::empty());
    lemma_find_none(name, '(', 0);
    assert(entry_pairs(seq![s]) == seq![(name, SpecView::Version("*"@))]);
}

proof fn lemma_bracketed(name: Seq<char>, gap: Seq<char>, req: Seq<char>)
    requires
        is_trimmed(name),
        !name.contains('('),
        is_blank(gap),
        !req.contains(')'),
    ensures
        ({
            let s = name + gap + seq!['('] + req + seq![')'];
            let k = find_char(s, '(', 0);
            &&& trim(s) == s
            &&& 0 <= k < s.len()
            &&& trim(s.take(k)) == name
            &&& in_brackets(s) == without_space(trim(req))
        }),
{
    let e = Seq::<char>::empty();
    let head = name + gap;
    let tail = req + seq![')'];
    let s = name + gap + seq!['('] + req + seq![')'];
    assert(s == head + seq!['('] + tail);
    lemma_blank_has_no(gap, '(');
    lemma_concat_has_no(name, gap, '(');
    lemma_find_first(head, tail, '(', 0);
    let k = head.len() as int;
    assert(s.take(k) == head);
    trimming_undoes_padding(e, name, gap);
    assert(e + name + gap == head);
    assert(s[0] == name[0]);
    assert(s.last() == ')');
    lemma_trimmed(s);
    let j = s.len() - 1;
    assert(s[j] == ')');
    assert(rfind_char(s, ')', s.len() as int) == j);
    assert(s.subrange(k + 1, j) == req);
}

/// A requirement in parentheses behind a name is taken without the white space in it.
pub proof fn bracketed_entries(name: Seq<char>, gap: Seq<char>, req: Seq<char>)
    requires
        is_trimmed(name),
        !name.contains(','),
        !name.contains('('),
        is_blank(gap),
        !req.contains(','),
        !req.contains(')'),
    ensures
        entry_pairs(split(name + gap + seq!['('] + req + seq![')'], ',')) == seq![
            (name, SpecView::Version(without_space(trim(req)))),
        ],
{
    let e = Seq::<Seq<char>>::empty();
    let s = name + gap + seq!['('] + req + seq![')'];
    lemma_blank_has_no(gap, ',');
    lemma_concat_has_no(name, gap, ',');
    lemma_concat_has_no(name + gap, seq!['('], ',');
    lemma_concat_has_no(name + gap + seq!['('], req, ',');
    lemma_concat_has_no(name + gap + seq!['('] + req, seq![')'], ',');
    plain_text_is_one_piece(s, ',');
    lemma_bracketed(name, gap, req);
    assert(seq![s].drop_last() == e && seq![s].last() == s);
    assert(entry_pairs(e) == Seq::<(Seq<char>, SpecView)>::empty());
    assert(entry_pairs(seq![s]) == seq![(name, SpecView::Version(without_space(trim(req))))]);
}

/// White space goes wherever it stands, and everything else stays in its order.
pub proof fn only_space_goes(a: Seq<char>, c: char)
    ensures
        is_whitespace(c) ==> without_space(a.push(c)) == without_space(a),
        !is_whitespace(c) ==> without_space(a.push(c)) == without_space(a).push(c),
        without_space(Seq::<char>::empty()).len() == 0,
{
    reveal(Seq::filter);
    assert(a.push(c).drop_last() == a);
    assert(a.push(c).last() == c);
}

proof fn lemma_r_requirement_shift(entry: Seq<char>, rest: Seq<Seq<char>>, i: int)
    requires
        0 <= i <= rest.len(),
    ensures
        r_requirement(seq![entry] + rest, i + 1) == r_requirement(rest, i),
    decreases rest.len() - i,
{
    if i < rest.len() {
        assert((seq![entry] + rest)[i + 1] == rest[i]);
        lemma_r_requirement_shift(entry, rest, i + 1);
    }
}

proof fn lemma_r_with_requirement(gap: Seq<char>, req: Seq<char>)
    requires
        is_blank(gap),
        !req.contains(')'),
    ensures
        ({
            let s = seq!['R'] + gap + seq!['('] + req + seq![')'];
            &&& trim(s) == s
            &&& is_r_entry(s)
            &&& find_char(s, '(', 0) < s.len()
            &&& in_brackets(s) == without_space(trim(req))
        }),
{
    reveal_strlit("R");
    let r = seq!['R'];
    assert("R"@ == r);
    let e = Seq::<char>::empty();
    let s = r + gap + seq!['('] + req + seq![')'];
    let tail = seq!['('] + req + seq![')'];
    lemma_bracketed(r, gap, req);
    assert(is_r_entry(s)) by {
        assert(s == r + (gap + tail));
        stripping_undoes_adding(r, gap + tail);
        assert(tail[0] == '(' && tail.last() == ')');
        trimming_undoes_padding(gap, tail, e);
        assert(gap + tail + e == gap + tail);
    }
}

proof fn lemma_r_alone()
    ensures
        trim(seq!['R']) == seq!['R'],
        is_r_entry(seq!['R']),
        find_char(seq!['R'], '(', 0) == 1,
{
    reveal_strlit("R");
    let r = seq!['R'];
    assert("R"@ == r);
    let e = Seq::<char>::empty();
    lemma_trimmed(r);
    stripping_undoes_adding(r, e);
    assert(r + e == r);
    nothing_is_left_of_space(e);
    lemma_find_none(r, '(', 0);
}

/// The requirement on R is that of the first entry for it; entries for packages do not
/// count. An entry for R without a requirement states none.
pub proof fn requirement_on_r_is_found(gap: Seq<char>, req: Seq<char>, other: Seq<char>, rest: Seq<Seq<char>>)
    requires
        is_blank(gap),
        !req.contains(')'),
        without_space(trim(req)).len() > 0,
        !is_r_entry(trim(other)),
    ensures
        r_requirement(seq![seq!['R'] + gap + seq!['('] + req + seq![')']] + rest, 0) == Some(without_space(trim(req))),
        r_requirement(seq![seq!['R']] + rest, 0) is None,
        r_requirement(seq![other] + rest, 0) == r_requirement(rest, 0),
        r_requirement(Seq::<Seq<char>>::empty(), 0) is None,
{
    let s = seq!['R'] + gap + seq!['('] + req + seq![')'];
    lemma_r_with_requirement(gap, req);
    assert((seq![s] + rest)[0] == s);
    lemma_r_alone();
    assert((seq![seq!['R']] + rest)[0] == seq!['R']);
    assert((seq![other] + rest)[0] == other);
    lemma_r_requirement_shift(other, rest, 0);
}

/// A package whose name begins with the letter R is not R.
pub proof fn packages_are_not_r(c: char, rest: Seq<char>)
    requires
        !is_whitespace(c),
        c != '(',
    ensures
        !is_r_entry(seq!['R', c] + rest),
{
    reveal_strlit("R");
    assert("R"@ == seq!['R']);
    let t = seq![c] + rest;
    assert(seq!['R', c] + rest == seq!['R'] + t);
    stripping_undoes_adding(seq!['R'], t);
    let r = trimming_takes_only_space(t);
    if r.0.len() > 0 {
        assert(t[0] == r.0[0]);
        assert(is_whitespace(r.0[0]));
    }
    if trim(t).len() > 0 {
        assert(t[0] == trim(t)[0]);
    } else if r.1.len() > 0 {
        assert(t[0] == r.1[0]);
        assert(is_whitespace(r.1[0]));
    }
}

/// A pair for the name, from `from` on.
spec fn is_stated(pairs: Seq<(Seq<char>, SpecView)>, n: Seq<char>, from: int) -> bool {
    exists|i: int| from <= i < pairs.len() && (#[trigger] pairs[i]).0 == n
}

proof fn lemma_stated_in_front(pairs: Seq<(Seq<char>, SpecView)>, n: Seq<char>, from: int)
    requires
        0 <= from < pairs.len(),
    ensures
        is_stated(pairs, n, from) <==> is_stated(pairs.drop_last(), n, from) || pairs.last().0 == n,
{
    let front = pairs.drop_last();
    if is_stated(pairs, n, from) {
        let i = choose|i: int| from <= i < pairs.len() && (#[trigger] pairs[i]).0 == n;
        if i < front.len() {
            assert(front[i].0 == n);
        }
    }
    if is_stated(front, n, from) {
        let i = choose|i: int| from <= i < front.len() && (#[trigger] front[i]).0 == n;
        assert(pairs[i].0 == n);
    }
    assert(pairs[pairs.len() - 1] == pairs.last());
}

proof fn lemma_noted_names(m: Specs, pairs: Seq<(Seq<char>, SpecView)>, skip_r: bool, n: Seq<char>)
    ensures
        with_pairs(m, pairs, skip_r).contains_key(n) <==> m.contains_key(n) || (!(skip_r && n == "R"@) && is_stated(
            pairs,
            n,
            0,
        )),
        !is_stated(pairs, n, 0) || (skip_r && n == "R"@) ==> (m.contains_key(n) ==> with_pairs(m, pairs, skip_r)[n] == m[n]),
    decreases pairs.len(),
{
    if pairs.len() > 0 {
        lemma_noted_names(m, pairs.drop_last(), skip_r, n);
        lemma_stated_in_front(pairs, n, 0);
    }
}

proof fn lemma_last_noted(m: Specs, pairs: Seq<(Seq<char>, SpecView)>, skip_r: bool, i: int)
    requires
        0 <= i < pairs.len(),
        !(skip_r && pairs[i].0 == "R"@),
        !is_stated(pairs, pairs[i].0, i + 1),
    ensures
        with_pairs(m, pairs, skip_r)[pairs[i].0] == pairs[i].1,
    decreases pairs.len(),
{
    let front = pairs.drop_last();
    if i < front.len() {
        assert(front[i] == pairs[i]);
        lemma_stated_in_front(pairs, pairs[i].0, i + 1);
        lemma_last_noted(m, front, skip_r, i);
    } else {
        assert(pairs[i] == pairs.last());
    }
}

/// The dependencies stated one after another are noted by their names, and of two with one
/// name the later counts. An entry for R is left out where that is asked for.
pub proof fn stated_dependencies_are_noted(m: Specs, pairs: Seq<(Seq<char>, SpecView)>, skip_r: bool, n: Seq<char>)
    ensures
        with_pairs(m, pairs, skip_r).contains_key(n) <==> m.contains_key(n) || (!(skip_r && n == "R"@) && exists|i: int|
            0 <= i < pairs.len() && (#[trigger] pairs[i]).0 == n),
        forall|i: int|
            0 <= i < pairs.len() && (#[trigger] pairs[i]).0 == n && !(skip_r && n == "R"@) && (forall|j: int|
                i < j < pairs.len() ==> (#[trigger] pairs[j]).0 != n) ==> with_pairs(m, pairs, skip_r)[n] == pairs[i].1,
        (forall|i: int| 0 <= i < pairs.len() ==> (#[trigger] pairs[i]).0 != n) || (skip_r && n == "R"@) ==> (
        m.contains_key(n) ==> with_pairs(m, pairs, skip_r)[n] == m[n]),
{
    lemma_noted_names(m, pairs, skip_r, n);
    assert forall|i: int|
        0 <= i < pairs.len() && (#[trigger] pairs[i]).0 == n && !(skip_r && n == "R"@) && (forall|j: int|
            i < j < pairs.len() ==> (#[trigger] pairs[j]).0 != n) implies with_pairs(m, pairs, skip_r)[n] == pairs[i].1 by {
        lemma_last_noted(m, pairs, skip_r, i);
    }
}

/// The field is there and states a dependency of the given name.
pub open spec fn states(fields: Map<Seq<char>, Seq<char>>, key: Seq<char>, n: Seq<char>) -> bool {
    fields.contains_key(key) && exists|i: int|
        0 <= i < entry_pairs(split(fields[key], ',')).len() && (#[trigger] entry_pairs(split(fields[key], ','))[i]).0 == n
}

/// A project depends on what its description imports and depends on, R itself left out, and
/// for its development on what it suggests; on nothing else.
pub proof fn description_declares_dependencies(fields: Map<Seq<char>, Seq<char>>, n: Seq<char>)
    ensures
        declared(fields).main.contains_key(n) <==> states(fields, "Imports"@, n) || (states(fields, "Depends"@, n) && n != "R"@),
        declared(fields).dev.contains_key(n) <==> states(fields, "Suggests"@, n),
{
    let e: Specs = Map::empty();
    let imports = if fields.contains_key("Imports"@) {
        entry_pairs(split(fields["Imports"@], ','))
    } else {
        seq![]
    };
    let depends = if fields.contains_key("Depends"@) {
        entry_pairs(split(fields["Depends"@], ','))
    } else {
        seq![]
    };
    let suggests = if fields.contains_key("Suggests"@) {
        entry_pairs(split(fields["Suggests"@], ','))
    } else {
        seq![]
    };
    stated_dependencies_are_noted(e, imports, false, n);
    stated_dependencies_are_noted(with_pairs(e, imports, false), depends, true, n);
    stated_dependencies_are_noted(e, suggests, false, n);
    assert(declared(fields).main == with_pairs(with_pairs(e, imports, false), depends, true));
    assert(declared(fields).dev == with_pairs(e, suggests, false));
}

/// A manifest from a description has its name, its title and its requirement on R, its
/// dependencies where it names no remotes, and nothing else.
pub proof fn manifest_says_what_the_description_says(fields: Map<Seq<char>, Seq<char>>)
    ensures
        manifest_of(fields) matches Ok(m) ==> {
            &&& fields.contains_key("Package"@) ==> m.name == fields["Package"@]
            &&& !fields.contains_key("Package"@) ==> m.name.len() == 0
            &&& fields.contains_key("Title"@) <==> m.description is Some
            &&& m.description matches Some(t) ==> t == fields["Title"@]
            &&& !fields.contains_key("Depends"@) ==> m.r_version is None
            &&& fields.contains_key("Depends"@) ==> m.r_version == r_requirement(split(fields["Depends"@], ','), 0)
            &&& m.bioc_version is None && !m.bare && m.sources.len() == 0 && m.activate is None
            &&& !fields.contains_key("Remotes"@) ==> m.dependencies == declared(fields).main && m.dev_dependencies == declared(fields).dev
        },
        !fields.contains_key("Remotes"@) ==> manifest_of(fields) is Ok,
        fields.contains_key("Remotes"@) ==> match with_remotes(declared(fields), remotes_of(split(fields["Remotes"@], ','))) {
            Ok(d) => manifest_of(fields) is Ok && manifest_of(fields)->Ok_0.dependencies == d.main && manifest_of(
                fields,
            )->Ok_0.dev_dependencies == d.dev,
            Err(e) => manifest_of(fields) == Err::<ManifestView, crate::error::ErrorView>(e),
        },
{
}

/// A repository whose name is that of a dependency, or that with the letter R behind a
/// hyphen, an underscore or a dot, is taken for that dependency; the whole name comes first.
#[verifier::rlimit(40)]
pub proof fn repositories_are_matched_by_name(d: Dependencies, name: Seq<char>, sep: char, letter: char)
    requires
        sep == '-' || sep == '_' || sep == '.',
        letter == 'r' || letter == 'R',
        name.len() > 0,
    ensures
        is_known(d, name) ==> known_package(d, name) == Some(name),
        is_known(d, name) && !is_known(d, name + seq![sep, letter]) ==> known_package(d, name + seq![sep, letter]) == Some(name),
        known_package(d, name) matches Some(k) ==> is_known(d, k) && (k == name || (name.len() == k.len() + 2 && name.take(
            k.len() as int,
        ) == k)),
{
    reveal_strlit("-r");
    reveal_strlit("_r");
    reveal_strlit(".r");
    reveal_strlit("-R");
    reveal_strlit("_R");
    reveal_strlit(".R");
    let all = seq!["-r"@, "_r"@, ".r"@, "-R"@, "_R"@, ".R"@];
    assert forall|x: Seq<char>, i: int| 0 <= i < 6 implies (#[trigger] known_without(d, x, all[i]) matches Some(k) ==> is_known(d, k)
        && x.len() == k.len() + 2 && x.take(k.len() as int) == k) by {
        if let Some(k) = known_without(d, x, all[i]) {
            assert(x.take(k.len() as int) == k);
        }
    }
    assert(all[0] == "-r"@ && all[1] == "_r"@ && all[2] == ".r"@ && all[3] == "-R"@ && all[4] == "_R"@ && all[5] == ".R"@);
    let suffix = seq![sep, letter];
    let w = name + suffix;
    stripping_undoes_adding(suffix, name);
    assert(w[w.len() - 2] == sep && w[w.len() - 1] == letter);
    assert("-r"@ == seq!['-', 'r'] && "_r"@ == seq!['_', 'r'] && ".r"@ == seq!['.', 'r']);
    assert("-R"@ == seq!['-', 'R'] && "_R"@ == seq!['_', 'R'] && ".R"@ == seq!['.', 'R']);
    assert forall|t: Seq<char>| t.len() == 2 && (#[trigger] strip_suffix(w, t)) is Some implies t == suffix by {
        assert(w.subrange(w.len() - 2, w.len() as int) == t);
        assert(t[0] == w[w.len() - 2] && t[1] == w[w.len() - 1]);
    }
    assert(suffix == "-r"@ || suffix == "_r"@ || suffix == ".r"@ || suffix == "-R"@ || suffix == "_R"@ || suffix == ".R"@);
    let t0 = known_without(d, name, all[0]);
    let t1 = known_without(d, name, all[1]);
    let t2 = known_without(d, name, all[2]);
    let t3 = known_without(d, name, all[3]);
    let t4 = known_without(d, name, all[4]);
    let t5 = known_without(d, name, all[5]);
}

/// The remote of a dependency says where it comes from and keeps the requirement on its
/// version, unless that was a star. It stays a dependency of the same kind, and others are
/// not touched.
pub proof fn remotes_say_where_dependencies_come_from(d: Dependencies, name: Seq<char>, s: RemoteView, other: Seq<char>)
    ensures
        ({
            let after = with_source(d, name, s);
            let spec = if d.dev.contains_key(name) {
                after.dev[name]
            } else {
                after.main[name]
            };
            let before = if d.dev.contains_key(name) {
                spec_version_req(d.dev[name])
            } else if d.main.contains_key(name) {
                spec_version_req(d.main[name])
            } else {
                None
            };
            &&& spec matches SpecView::Detailed(t) && t.git == dependency_on(s).git && t.rev == s.requested_ref && t.subdirectory
                == s.subdirectory && t.exact == s.explicit_name && t.bioc is None && t.version == (if before is Some && before->0
                != "*"@ {
                before
            } else {
                None
            })
            &&& d.dev.contains_key(name) ==> after.main == d.main && after.dev.dom() == d.dev.dom()
            &&& !d.dev.contains_key(name) ==> after.dev == d.dev && after.main.dom() == d.main.dom().insert(name)
            &&& other != name ==> after.main.contains_key(other) == d.main.contains_key(other) && after.dev.contains_key(other)
                == d.dev.contains_key(other)
            &&& other != name && d.main.contains_key(other) ==> after.main[other] == d.main[other]
            &&& other != name && d.dev.contains_key(other) ==> after.dev[other] == d.dev[other]
        }),
{
    let after = with_source(d, name, s);
    if d.dev.contains_key(name) {
        assert(after.dev.dom() =~= d.dev.dom());
    } else {
        assert(after.main.dom() =~= d.main.dom().insert(name));
    }
}

/// A remote with a name is for the package of that name; one without is for the dependency
/// that it matches, or else for a package of its own name, unless it is in a directory. What
/// is bound and cannot be followed is an error, what is not bound is passed over.
pub proof fn remotes_are_applied(d: Dependencies, entries: Seq<RemoteEntryView>, s: RemoteView, entry: Seq<char>, reason: Seq<char>)
    ensures
        s.explicit_name ==> package_of(d, s) == Ok::<Seq<char>, crate::error::ErrorView>(s.name),
        !s.explicit_name && known_package(d, s.name) is Some ==> package_of(d, s) == Ok::<Seq<char>, crate::error::ErrorView>(
            known_package(d, s.name)->0,
        ),
        !s.explicit_name && known_package(d, s.name) is None && s.subdirectory is None ==> package_of(d, s) == Ok::<
            Seq<char>,
            crate::error::ErrorView,
        >(s.name),
        !s.explicit_name && known_package(d, s.name) is None && s.subdirectory is Some ==> package_of(d, s) is Err,
        with_remotes(d, Seq::<RemoteEntryView>::empty()) == Ok::<Dependencies, crate::error::ErrorView>(d),
        with_remotes(d, entries) matches Err(e) ==> with_remotes(d, entries.push(RemoteEntryView::Source(s))) == Err::<
            Dependencies,
            crate::error::ErrorView,
        >(e),
        with_remotes(d, entries) matches Ok(f) ==> {
            &&& with_remotes(d, entries.push(RemoteEntryView::Unsupported { entry, reason, bound: false })) == Ok::<
                Dependencies,
                crate::error::ErrorView,
            >(f)
            &&& with_remotes(d, entries.push(RemoteEntryView::Unsupported { entry, reason, bound: true })) is Err
            &&& package_of(f, s) matches Ok(n) ==> with_remotes(d, entries.push(RemoteEntryView::Source(s))) == Ok::<
                Dependencies,
                crate::error::ErrorView,
            >(with_source(f, n, s))
            &&& package_of(f, s) is Err ==> with_remotes(d, entries.push(RemoteEntryView::Source(s))) is Err
        },
{
    assert(entries.push(RemoteEntryView::Source(s)).drop_last() == entries);
    assert(entries.push(RemoteEntryView::Unsupported { entry, reason, bound: false }).drop_last() == entries);
    assert(entries.push(RemoteEntryView::Unsupported { entry, reason, bound: true }).drop_last() == entries);
}

/// Adding a dependency makes it one of its kind and touches no other; removing one takes it
/// out of both kinds.
pub proof fn dependencies_are_kept_by_kind(m: ManifestView, name: Seq<char>, spec: SpecView, other: Seq<char>)
    ensures
        with_dep(m, name, spec, false).dependencies.contains_key(name) && with_dep(m, name, spec, false).dependencies[name] == spec,
        with_dep(m, name, spec, true).dev_dependencies.contains_key(name) && with_dep(m, name, spec, true).dev_dependencies[name] == spec,
        with_dep(m, name, spec, false).dev_dependencies == m.dev_dependencies,
        with_dep(m, name, spec, true).dependencies == m.dependencies,
        other != name && m.dependencies.contains_key(other) ==> with_dep(m, name, spec, false).dependencies[other] == m.dependencies[other],
        !without_dep(m, name).dependencies.contains_key(name),
        !without_dep(m, name).dev_dependencies.contains_key(name),
        other != name ==> without_dep(m, name).dependencies.contains_key(other) == m.dependencies.contains_key(other),
        other != name ==> without_dep(m, name).dev_dependencies.contains_key(other) == m.dev_dependencies.contains_key(other),
{
}

/// An exact source is in order where it names a repository of a kind that is known, with a
/// revision behind it; where nothing is exact there is nothing to say.
pub proof fn exact_sources_are_checked(name: Seq<char>, section: Seq<char>, d: DetailedView)
    ensures
        !d.exact ==> exact_fault(name, section, d) is None,
        d.exact && d.git is None ==> exact_fault(name, section, d) is Some,
        d.exact && d.git is Some && is_blank(d.git->0) ==> exact_fault(name, section, d) is Some,
        d.exact && d.git is Some && trim(d.git->0).len() > 0 ==> {
            let git = trim(d.git->0);
            let spec = if d.rev is Some {
                git + seq!['@'] + d.rev->0
            } else {
                git
            };
            exact_fault(name, section, d) is None <==> (if starts_with(git, "forgejo::"@) {
                forgejo_parts(spec) is Some
            } else if starts_with(git, "gitlab::"@) {
                gitlab_parts(spec) is Some
            } else {
                is_repo_spec(spec)
            })
        },
{
    reveal_strlit("@");
    assert("@"@ == seq!['@']);
    if d.git is Some && is_blank(d.git->0) {
        nothing_is_left_of_space(d.git->0);
    }
}

/// A directory is in order where the source is a repository on GitHub and the directory
/// leads down in it.
pub proof fn directories_are_checked(name: Seq<char>, section: Seq<char>, d: DetailedView)
    ensures
        d.subdirectory is None ==> directory_fault(name, section, d) is None,
        d.subdirectory is Some && d.git is None ==> directory_fault(name, section, d) is Some,
        d.subdirectory is Some && d.git is Some ==> {
            let git = d.git->0;
            let spec = if d.rev is Some {
                git + seq!['@'] + d.rev->0
            } else {
                git
            };
            directory_fault(name, section, d) is None <==> !starts_with(git, "forgejo::"@) && !starts_with(git, "gitlab::"@)
                && is_repo_spec(spec) && is_subdirectory(d.subdirectory->0)
        },
{
    reveal_strlit("@");
    assert("@"@ == seq!['@']);
}

#[verifier::rlimit(40)]
proof fn lemma_first_fault(m: Map<Seq<char>, SpecView>, names: Seq<Seq<char>>, section: Seq<char>, i: int)
    requires
        0 <= i <= names.len(),
    ensures
        first_fault(m, names, section, i) is None <==> forall|j: int|
            i <= j < names.len() ==> fault_of(#[trigger] names[j], section, m[names[j]]) is None,
        first_fault(m, names, section, i) matches Some(f) ==> exists|j: int|
            i <= j < names.len() && fault_of(#[trigger] names[j], section, m[names[j]]) == Some(f) && (forall|k: int|
                i <= k < j ==> fault_of(#[trigger] names[k], section, m[names[k]]) is None),
    decreases names.len() - i,
{
    if i < names.len() {
        lemma_first_fault(m, names, section, i + 1);
        if fault_of(names[i], section, m[names[i]]) is None {
            if let Some(f) = first_fault(m, names, section, i) {
                let j = choose|j: int|
                    i + 1 <= j < names.len() && fault_of(#[trigger] names[j], section, m[names[j]]) == Some(f) && (forall|k: int|
                        i + 1 <= k < j ==> fault_of(#[trigger] names[k], section, m[names[k]]) is None);
                assert(fault_of(names[j], section, m[names[j]]) == Some(f));
            }
        } else {
            assert(fault_of(names[i], section, m[names[i]]) == first_fault(m, names, section, i));
        }
    }
}

/// A manifest is in order exactly where each of its dependencies is, of both kinds.
#[verifier::rlimit(40)]
pub proof fn every_dependency_is_checked(m: ManifestView)
    requires
        m.dependencies.dom().finite(),
        m.dev_dependencies.dom().finite(),
    ensures
        manifest_fault(m) is None <==> (forall|n: Seq<char>|
            #[trigger] m.dependencies.contains_key(n) ==> fault_of(n, "dependencies"@, m.dependencies[n]) is None) && (forall|n: Seq<char>|
            #[trigger] m.dev_dependencies.contains_key(n) ==> fault_of(n, "dev-dependencies"@, m.dev_dependencies[n]) is None),
{
    let a = in_order(m.dependencies.dom());
    let b = in_order(m.dev_dependencies.dom());
    in_order_holds(m.dependencies.dom());
    in_order_holds(m.dev_dependencies.dom());
    lemma_first_fault(m.dependencies, a, "dependencies"@, 0);
    lemma_first_fault(m.dev_dependencies, b, "dev-dependencies"@, 0);
    assert forall|n: Seq<char>| m.dependencies.contains_key(n) <==> #[trigger] a.contains(n) by {
        assert(a.to_set().contains(n) <==> m.dependencies.dom().contains(n));
    }
    assert forall|n: Seq<char>| m.dev_dependencies.contains_key(n) <==> #[trigger] b.contains(n) by {
        assert(b.to_set().contains(n) <==> m.dev_dependencies.dom().contains(n));
    }
    if manifest_fault(m) is None {
        assert forall|n: Seq<char>| #[trigger] m.dependencies.contains_key(n) implies fault_of(n, "dependencies"@, m.dependencies[n]) is None by {
            assert(a.contains(n));
            let j = choose|j: int| 0 <= j < a.len() && a[j] == n;
            assert(fault_of(a[j], "dependencies"@, m.dependencies[a[j]]) is None);
        }
        assert forall|n: Seq<char>| #[trigger] m.dev_dependencies.contains_key(n) implies fault_of(
            n,
            "dev-dependencies"@,
            m.dev_dependencies[n],
        ) is None by {
            assert(b.contains(n));
            let j = choose|j: int| 0 <= j < b.len() && b[j] == n;
            assert(fault_of(b[j], "dev-dependencies"@, m.dev_dependencies[b[j]]) is None);
        }
    } else if first_fault(m.dependencies, a, "dependencies"@, 0) is Some {
        let j = choose|j: int| 0 <= j < a.len() && fault_of(#[trigger] a[j], "dependencies"@, m.dependencies[a[j]]) is Some;
        assert(a.contains(a[j]));
    } else {
        let j = choose|j: int| 0 <= j < b.len() && fault_of(#[trigger] b[j], "dev-dependencies"@, m.dev_dependencies[b[j]]) is Some;
        assert(b.contains(b[j]));
    }
}

/// A dependency that is only a version is always in order; one with details is where both
/// its exact source and its directory are.
pub proof fn details_are_checked(name: Seq<char>, section: Seq<char>, v: Seq<char>, d: DetailedView)
    ensures
        fault_of(name, section, SpecView::Version(v)) is None,
        fault_of(name, section, SpecView::Detailed(d)) is None <==> exact_fault(name, section, d) is None && directory_fault(
            name,
            section,
            d,
        ) is None,
{
}

/// The keys of a dependency are these six and no others.
pub proof fn keys_of_a_dependency(k: Seq<char>)
    ensures
        is_dep_key(k) <==> seq!["bioc"@, "exact"@, "git"@, "rev"@, "subdirectory"@, "version"@].contains(k),
{
    let keys = seq!["bioc"@, "exact"@, "git"@, "rev"@, "subdirectory"@, "version"@];
    assert(keys[0] == "bioc"@ && keys[1] == "exact"@ && keys[2] == "git"@ && keys[3] == "rev"@ && keys[4] == "subdirectory"@ && keys[5]
        == "version"@);
}

proof fn lemma_strange_keys(t: Seq<(Seq<char>, TomlView)>)
    ensures
        strange_keys(t).len() == 0 <==> forall|i: int| 0 <= i < t.len() ==> is_dep_key((#[trigger] t[i]).0),
    decreases t.len(),
{
    if t.len() > 0 {
        let front = t.drop_last();
        lemma_strange_keys(front);
        assert forall|i: int| 0 <= i < front.len() implies #[trigger] t[i] == front[i] by {}
        assert(t[t.len() - 1] == t.last());
        if forall|i: int| 0 <= i < front.len() ==> is_dep_key((#[trigger] front[i]).0) {
            assert forall|i: int| 0 <= i < front.len() implies is_dep_key((#[trigger] t[i]).0) by {
                assert(is_dep_key(front[i].0));
            }
        }
        if forall|i: int| 0 <= i < t.len() ==> is_dep_key((#[trigger] t[i]).0) {
            assert forall|i: int| 0 <= i < front.len() implies is_dep_key((#[trigger] front[i]).0) by {
                assert(is_dep_key(t[i].0));
            }
        }
    }
}

proof fn lemma_find_key(t: Seq<(Seq<char>, TomlView)>, key: Seq<char>, i: int)
    requires
        0 <= i <= t.len(),
    ensures
        i <= find_key(t, key, i) <= t.len(),
        find_key(t, key, i) < t.len() ==> t[find_key(t, key, i)].0 == key,
        forall|j: int| i <= j < find_key(t, key, i) ==> (#[trigger] t[j]).0 != key,
    decreases t.len() - i,
{
    if i < t.len() && t[i].0 != key {
        lemma_find_key(t, key, i + 1);
    }
}

/// A dependency is well written where it is no table, or where all its keys are those of a
/// dependency and its directory, if it has one, is a text.
pub proof fn tables_are_checked(key: Seq<char>, section: Seq<char>, t: Seq<(Seq<char>, TomlView)>, item: TomlView)
    ensures
        !(item is Table) ==> form_fault(key, section, item) is None,
        (exists|i: int| 0 <= i < t.len() && !is_dep_key((#[trigger] t[i]).0)) ==> form_fault(key, section, TomlView::Table(t)) is Some,
        (forall|i: int| 0 <= i < t.len() ==> is_dep_key((#[trigger] t[i]).0) && (t[i].0 == "subdirectory"@ ==> t[i].1 is Text))
            ==> form_fault(key, section, TomlView::Table(t)) is None,
        (forall|i: int, j: int| 0 <= i < j < t.len() ==> (#[trigger] t[i]).0 != (#[trigger] t[j]).0) && (exists|i: int|
            0 <= i < t.len() && (#[trigger] t[i]).0 == "subdirectory"@ && !(t[i].1 is Text)) ==> form_fault(
            key,
            section,
            TomlView::Table(t),
        ) is Some,
{
    lemma_strange_keys(t);
    lemma_find_key(t, "subdirectory"@, 0);
    let k = find_key(t, "subdirectory"@, 0);
    if (forall|i: int, j: int| 0 <= i < j < t.len() ==> (#[trigger] t[i]).0 != (#[trigger] t[j]).0) && (exists|i: int|
        0 <= i < t.len() && (#[trigger] t[i]).0 == "subdirectory"@ && !(t[i].1 is Text)) {
        let i = choose|i: int| 0 <= i < t.len() && (#[trigger] t[i]).0 == "subdirectory"@ && !(t[i].1 is Text);
        if k < i {
            assert(t[k].0 != t[i].0);
        } else if i < k {
            assert(t[i].0 != "subdirectory"@);
        }
    }
}

proof fn lemma_section_fault(entries: Seq<(Seq<char>, TomlView)>, section: Seq<char>, i: int)
    requires
        0 <= i <= entries.len(),
    ensures
        section_fault(entries, section, i) is None <==> forall|j: int|
            i <= j < entries.len() ==> form_fault((#[trigger] entries[j]).0, section, entries[j].1) is None,
    decreases entries.len() - i,
{
    if i < entries.len() {
        lemma_section_fault(entries, section, i + 1);
        if section_fault(entries, section, i) is None {
            assert forall|j: int| i <= j < entries.len() implies form_fault((#[trigger] entries[j]).0, section, entries[j].1) is None by {
                if j > i {
                    assert(section_fault(entries, section, i + 1) is None);
                }
            }
        }
    }
}

/// A document is well written where every dependency in both of its sections is.
pub proof fn both_sections_are_checked(d: TomlView)
    ensures
        sections_fault(d) is None <==> (forall|j: int|
            0 <= j < entries_of_section(d, "dependencies"@).len() ==> form_fault(
                (#[trigger] entries_of_section(d, "dependencies"@)[j]).0,
                "dependencies"@,
                entries_of_section(d, "dependencies"@)[j].1,
            ) is None) && (forall|j: int|
            0 <= j < entries_of_section(d, "dev-dependencies"@).len() ==> form_fault(
                (#[trigger] entries_of_section(d, "dev-dependencies"@)[j]).0,
                "dev-dependencies"@,
                entries_of_section(d, "dev-dependencies"@)[j].1,
            ) is None),
{
    lemma_section_fault(entries_of_section(d, "dependencies"@), "dependencies"@, 0);
    lemma_section_fault(entries_of_section(d, "dev-dependencies"@), "dev-dependencies"@, 0);
}

/// The dependencies of a section are those of the first table of its name in the document.
pub proof fn sections_are_found(d: Seq<(Seq<char>, TomlView)>, section: Seq<char>, t: Seq<(Seq<char>, TomlView)>, i: int)
    requires
        0 <= i < d.len(),
        d[i] == (section, TomlView::Table(t)),
        forall|j: int| 0 <= j < i ==> (#[trigger] d[j]).0 != section,
    ensures
        entries_of_section(TomlView::Table(d), section) == t,
{
    lemma_find_key(d, section, 0);
    let k = find_key(d, section, 0);
    assert(d[i].0 == section);
    if k < i {
        assert(d[k].0 != section);
    }
}

} // verus!
