//! What is promised of indexes and their entries, in terms of the texts they come from.
use vstd::prelude::*;

use super::cran::{
    age_slot, best, binary_at, built_of, dep_field, deps_of_entries, entries_of, entry_deps, entry_given,
    entry_of, exact, exact_given, exactly, field, index_of_blocks, info_of, runs_on, tarball_at,
    vendorless, wanted, with_entry, BuiltView, EntryView, RegistryView,
};
use super::DepView;
use crate::dcf::dcf_fields;
use crate::error::ErrorView;
use crate::lockfile::SourceView;
use crate::r_version::host::{first_two_parts, TripleView};
use crate::resolver::requirement::{admits, normal_version, requirement};
use crate::resolver::solve::{is_base, is_real, non_base};
use crate::text::{
    char_end, find_char, is_whitespace, join, lower, same_ignoring_case, split, split_once, strip_prefix,
    trim, trim_end_char,
};
use crate::text_laws::{
    cutting_undoes_joining, is_blank, nothing_is_left_of_space, pieces_make_the_text, pieces_of_both,
    plain_text_is_one_piece, stripping_undoes_adding, trimming_takes_only_space,
    trimming_twice_is_trimming, trimming_undoes_padding,
};
use crate::version::{older, semver_version, VersionView};

verus! {

/// Whether a package comes with R does not depend on the case of its name, and these are
/// the packages that do.
pub proof fn base_packages(a: Seq<char>, b: Seq<char>)
    ensures
        same_ignoring_case(a, b) ==> is_base(a) == is_base(b),
        is_base(a) <==> seq![
            "base"@, "compiler"@, "datasets"@, "graphics"@, "grdevices"@, "grid"@, "methods"@, "parallel"@, "r"@, "splines"@,
            "stats"@, "stats4"@, "tcltk"@, "tools"@, "utils"@,
        ].contains(lower(a)),
{
    let names = seq![
        "base"@, "compiler"@, "datasets"@, "graphics"@, "grdevices"@, "grid"@, "methods"@, "parallel"@, "r"@, "splines"@,
        "stats"@, "stats4"@, "tcltk"@, "tools"@, "utils"@,
    ];
    let n = lower(a);
    assert(names[0] == "base"@ && names[1] == "compiler"@ && names[2] == "datasets"@ && names[3] == "graphics"@);
    assert(names[4] == "grdevices"@ && names[5] == "grid"@ && names[6] == "methods"@ && names[7] == "parallel"@);
    assert(names[8] == "r"@ && names[9] == "splines"@ && names[10] == "stats"@ && names[11] == "stats4"@);
    assert(names[12] == "tcltk"@ && names[13] == "tools"@ && names[14] == "utils"@);
    if is_base(a) {
        assert(exists|i: int| 0 <= i < names.len() && names[i] == n);
    }
}

/// Of dependencies one after another, those that do not come with R are taken from each.
pub proof fn left_out_of_both(a: Seq<DepView>, b: Seq<DepView>)
    ensures
        non_base(a + b) == non_base(a) + non_base(b),
    decreases b.len(),
{
    if b.len() == 0 {
        assert(a + b == a);
        assert(non_base(b) == Seq::<DepView>::empty());
    } else {
        assert((a + b).drop_last() == a + b.drop_last());
        left_out_of_both(a, b.drop_last());
        assert(non_base(a + b) == non_base(a) + non_base(b));
    }
}

/// Of the dependencies exactly those are left out that come with R, and where none does
/// all of them stay in their order.
pub proof fn only_base_packages_are_left_out(deps: Seq<DepView>)
    ensures
        forall|d: DepView| #[trigger] non_base(deps).contains(d) <==> deps.contains(d) && !is_base(d.name),
        (forall|i: int| 0 <= i < deps.len() ==> !is_base((#[trigger] deps[i]).name)) ==> non_base(deps) == deps,
    decreases deps.len(),
{
    if deps.len() == 0 {
    } else {
        let front = deps.drop_last();
        let x = deps.last();
        only_base_packages_are_left_out(front);
        assert(deps == front.push(x));
        assert forall|d: DepView| #[trigger] non_base(deps).contains(d) <==> deps.contains(d) && !is_base(d.name) by {
            lemma_push_contains(front, x, d);
            lemma_push_contains(non_base(front), x, d);
        }
        if forall|i: int| 0 <= i < deps.len() ==> !is_base((#[trigger] deps[i]).name) {
            assert forall|i: int| 0 <= i < front.len() implies !is_base((#[trigger] front[i]).name) by {
                assert(front[i] == deps[i]);
            }
            assert(!is_base(deps[deps.len() - 1].name));
        }
    }
}

proof fn lemma_push_contains<T>(s: Seq<T>, x: T, y: T)
    ensures
        s.push(x).contains(y) <==> s.contains(y) || x == y,
{
    let t = s.push(x);
    if s.contains(y) {
        let i = choose|i: int| 0 <= i < s.len() && s[i] == y;
        assert(t[i] == y);
    }
    if x == y {
        assert(t[s.len() as int] == y);
    }
    if t.contains(y) {
        let i = choose|i: int| 0 <= i < t.len() && t[i] == y;
        if i < s.len() {
            assert(s[i] == y);
        }
    }
}

proof fn lemma_concat_contains<T>(a: Seq<T>, b: Seq<T>, y: T)
    ensures
        (a + b).contains(y) <==> a.contains(y) || b.contains(y),
{
    let t = a + b;
    if a.contains(y) {
        let i = choose|i: int| 0 <= i < a.len() && a[i] == y;
        assert(t[i] == y);
    }
    if b.contains(y) {
        let i = choose|i: int| 0 <= i < b.len() && b[i] == y;
        assert(t[a.len() + i] == y);
    }
    if t.contains(y) {
        let i = choose|i: int| 0 <= i < t.len() && t[i] == y;
        if i < a.len() {
            assert(a[i] == y);
        } else {
            assert(b[i - a.len()] == y);
        }
    }
}

/// A package needs what it depends on, what it imports and what it links to, but for what
/// comes with R; it needs nothing else.
pub proof fn entry_needs_what_it_states(e: EntryView, d: DepView)
    ensures
        e.depends.contains(d) && !is_base(d.name) ==> entry_deps(e).contains(d),
        e.imports.contains(d) && !is_base(d.name) ==> entry_deps(e).contains(d),
        e.linking_to.contains(d) && !is_base(d.name) ==> entry_deps(e).contains(d),
        entry_deps(e).contains(d) ==> !is_base(d.name) && (e.depends.contains(d) || e.imports.contains(d)
            || e.linking_to.contains(d)),
{
    let all = e.depends + e.imports + e.linking_to;
    only_base_packages_are_left_out(all);
    lemma_concat_contains(e.depends + e.imports, e.linking_to, d);
    lemma_concat_contains(e.depends, e.imports, d);
}

/// Each further package that an entry links to is one more that it needs, behind the
/// others; so is each that it imports where it links to none, and each that it depends on
/// where it does neither. One that comes with R changes nothing.
pub proof fn one_more_need(e: EntryView, d: DepView)
    ensures
        is_base(d.name) ==> entry_deps(EntryView { depends: e.depends.push(d), ..e }) == entry_deps(e),
        is_base(d.name) ==> entry_deps(EntryView { imports: e.imports.push(d), ..e }) == entry_deps(e),
        is_base(d.name) ==> entry_deps(EntryView { linking_to: e.linking_to.push(d), ..e }) == entry_deps(e),
        !is_base(d.name) ==> entry_deps(EntryView { linking_to: e.linking_to.push(d), ..e }) == entry_deps(e).push(d),
        !is_base(d.name) && e.linking_to.len() == 0 ==> entry_deps(EntryView { imports: e.imports.push(d), ..e })
            == entry_deps(e).push(d),
        !is_base(d.name) && e.linking_to.len() == 0 && e.imports.len() == 0 ==> entry_deps(
            EntryView { depends: e.depends.push(d), ..e },
        ) == entry_deps(e).push(d),
{
    let (a, b, c) = (e.depends, e.imports, e.linking_to);
    left_out_of_both(a, b);
    left_out_of_both(a + b, c);
    left_out_of_both(a.push(d), b);
    left_out_of_both(a.push(d) + b, c);
    left_out_of_both(a, b.push(d));
    left_out_of_both(a + b.push(d), c);
    left_out_of_both(a + b, c.push(d));
    lemma_non_base_push(a, d);
    lemma_non_base_push(b, d);
    lemma_non_base_push(c, d);
    let none = Seq::<DepView>::empty();
    assert(non_base(none) == none);
    if c.len() == 0 {
        assert(c == none);
        if b.len() == 0 {
            assert(b == none);
        }
    }
}

proof fn lemma_non_base_push(s: Seq<DepView>, d: DepView)
    ensures
        is_base(d.name) ==> non_base(s.push(d)) == non_base(s),
        !is_base(d.name) ==> non_base(s.push(d)) == non_base(s).push(d),
{
    assert(s.push(d).drop_last() == s);
    assert(s.push(d).last() == d);
}

proof fn lemma_deps_concat(a: Seq<Seq<char>>, b: Seq<Seq<char>>)
    ensures
        deps_of_entries(a + b) == deps_of_entries(a) + deps_of_entries(b),
    decreases b.len(),
{
    if b.len() == 0 {
        assert(a + b == a);
        assert(deps_of_entries(b) == Seq::<DepView>::empty());
    } else {
        assert((a + b).drop_last() == a + b.drop_last());
        lemma_deps_concat(a, b.drop_last());
        assert(deps_of_entries(a + b) == deps_of_entries(a) + deps_of_entries(b));
    }
}

/// A field states what stands in front of a comma and then what stands behind it.
pub proof fn commas_part_dependencies(a: Seq<char>, b: Seq<char>)
    ensures
        dep_field(a + seq![','] + b) == dep_field(a) + dep_field(b),
{
    pieces_of_both(a, b, ',');
    lemma_deps_concat(split(a, ','), split(b, ','));
}

/// White space states no dependency.
pub proof fn space_states_no_dependency(s: Seq<char>)
    requires
        is_blank(s),
    ensures
        dep_field(s) == Seq::<DepView>::empty(),
{
    assert(!s.contains(',')) by {
        if s.contains(',') {
            let i = choose|i: int| 0 <= i < s.len() && s[i] == ',';
            assert(is_whitespace(s[i]));
        }
    }
    plain_text_is_one_piece(s, ',');
    nothing_is_left_of_space(s);
    assert(split(s, ',').drop_last() == Seq::<Seq<char>>::empty());
    assert(deps_of_entries(split(s, ',').drop_last()) == Seq::<DepView>::empty());
}

proof fn lemma_one_entry(s: Seq<char>)
    requires
        !s.contains(','),
        trim(s).len() > 0,
    ensures
        dep_field(s) == seq![super::cran::dep_of(trim(s))],
{
    plain_text_is_one_piece(s, ',');
    assert(split(s, ',').drop_last() == Seq::<Seq<char>>::empty());
    assert(deps_of_entries(split(s, ',').drop_last()) == Seq::<DepView>::empty());
    assert(dep_field(s) == seq![super::cran::dep_of(trim(s))]);
}

proof fn lemma_find_none(s: Seq<char>, c: char, i: int)
    requires
        !s.contains(c),
        0 <= i <= s.len(),
    ensures
        find_char(s, c, i) == s.len(),
    decreases s.len() - i,
{
    if i < s.len() {
        assert(s.contains(s[i]));
        lemma_find_none(s, c, i + 1);
    }
}

/// A name alone states a dependency on any version of the package.
pub proof fn name_alone_is_a_dependency(a: Seq<char>, name: Seq<char>, b: Seq<char>)
    requires
        is_blank(a),
        is_blank(b),
        name.len() > 0,
        !is_whitespace(name[0]),
        !is_whitespace(name.last()),
        !name.contains(','),
        !name.contains('('),
    ensures
        dep_field(a + name + b) == seq![DepView { name, constraint: None }],
{
    let s = a + name + b;
    trimming_undoes_padding(a, name, b);
    assert(!s.contains(',')) by {
        if s.contains(',') {
            let i = choose|i: int| 0 <= i < s.len() && s[i] == ',';
            if i < a.len() {
                assert(is_whitespace(a[i]));
            } else if i < a.len() + name.len() {
                assert(name[i - a.len()] == ',');
            } else {
                assert(is_whitespace(b[i - a.len() - name.len()]));
            }
        }
    }
    lemma_one_entry(s);
    lemma_find_none(name, '(', 0);
}

proof fn lemma_no_end_char(s: Seq<char>, c: char)
    requires
        !s.contains(c),
    ensures
        trim_end_char(s + seq![c], c) == s,
{
    let w = s + seq![c];
    let n = s.len() as int;
    assert(w[n] == c);
    if n > 0 {
        assert(w[n - 1] == s[n - 1]);
        assert(s.contains(s[n - 1]));
    }
    assert(char_end(w, c, n) == n);
    assert(char_end(w, c, n + 1) == n);
    assert(w.subrange(0, n) == s);
}

proof fn lemma_not_in_three<T>(a: Seq<T>, b: Seq<T>, c: Seq<T>, x: T)
    requires
        !a.contains(x),
        !b.contains(x),
        !c.contains(x),
    ensures
        !(a + b + c).contains(x),
{
    lemma_concat_contains(a + b, c, x);
    lemma_concat_contains(a, b, x);
}

proof fn lemma_not_blank(s: Seq<char>, c: char)
    requires
        is_blank(s),
        !is_whitespace(c),
    ensures
        !s.contains(c),
{
    if s.contains(c) {
        let i = choose|i: int| 0 <= i < s.len() && s[i] == c;
        assert(is_whitespace(s[i]));
    }
}

proof fn lemma_parenthesised(name: Seq<char>, gap: Seq<char>, tail: Seq<char>)
    requires
        name.len() > 0,
        !is_whitespace(name[0]),
        !is_whitespace(name.last()),
        !name.contains('('),
        is_blank(gap),
        tail.len() > 0,
        tail.last() == ')',
    ensures
        ({
            let s = name + gap + seq!['('] + tail;
            let k = find_char(s, '(', 0);
            &&& trim(s) == s
            &&& k < s.len()
            &&& trim(s.subrange(0, k)) == name
            &&& s.subrange(k + 1, s.len() as int) == tail
        }),
{
    let e = Seq::<char>::empty();
    let head = name + gap;
    let s = name + gap + seq!['('] + tail;
    assert(s[0] == name[0]);
    assert(s.last() == ')');
    assert(!is_whitespace(')'));
    trimming_undoes_padding(e, s, e);
    assert(e + s + e == s);
    lemma_not_blank(gap, '(');
    lemma_concat_contains(name, gap, '(');
    cutting_undoes_joining(head, tail, '(');
    let k = find_char(s, '(', 0);
    assert(split_once(s, '(') == Some((head, tail)));
    assert(k < s.len());
    assert(s.subrange(0, k) == head);
    trimming_undoes_padding(e, name, gap);
    assert(e + name + gap == head);
}

/// A name with a requirement in parentheses behind it states a dependency on the versions
/// that the requirement admits, and on any version where the requirement cannot be read.
pub proof fn requirement_in_parentheses(name: Seq<char>, gap: Seq<char>, req: Seq<char>)
    requires
        name.len() > 0,
        !is_whitespace(name[0]),
        !is_whitespace(name.last()),
        !name.contains(','),
        !name.contains('('),
        is_blank(gap),
        !req.contains(','),
        !req.contains(')'),
    ensures
        ({
            let deps = dep_field(name + gap + seq!['('] + req + seq![')']);
            &&& deps.len() == 1
            &&& deps[0].name == name
            &&& match requirement(req) {
                Ok(q) => deps[0].constraint == Some(q),
                Err(_) => deps[0].constraint is None,
            }
        }),
{
    let tail = req + seq![')'];
    let s = name + gap + seq!['('] + req + seq![')'];
    assert(s == name + gap + seq!['('] + tail);
    assert(!s.contains(',')) by {
        lemma_not_blank(gap, ',');
        lemma_not_in_three(name, gap, seq!['('], ',');
        lemma_not_in_three(name + gap + seq!['('], req, seq![')'], ',');
    }
    lemma_parenthesised(name, gap, tail);
    lemma_one_entry(s);
    lemma_no_end_char(req, ')');
    assert(requirement(trim(req)) == requirement(req)) by {
        trimming_twice_is_trimming(req);
    }
}

/// A record becomes an entry with the name and version that it gives. What its fields
/// `Depends`, `Imports` and `LinkingTo` state is what the package depends on, imports and
/// links to; an absent field states nothing.
pub proof fn record_becomes_entry(fields: Map<Seq<char>, Seq<char>>, v: VersionView)
    requires
        fields.contains_key("Package"@),
        fields.contains_key("Version"@),
    ensures
        ({
            let e = entry_given(fields, Ok(v))->0;
            &&& entry_given(fields, Ok(v)) is Some
            &&& e.name == fields["Package"@]
            &&& e.raw_version == fields["Version"@]
            &&& e.version == v
            &&& fields.contains_key("Depends"@) ==> e.depends == dep_field(fields["Depends"@])
            &&& !fields.contains_key("Depends"@) ==> e.depends.len() == 0
            &&& fields.contains_key("Imports"@) ==> e.imports == dep_field(fields["Imports"@])
            &&& !fields.contains_key("Imports"@) ==> e.imports.len() == 0
            &&& fields.contains_key("LinkingTo"@) ==> e.linking_to == dep_field(fields["LinkingTo"@])
            &&& !fields.contains_key("LinkingTo"@) ==> e.linking_to.len() == 0
            &&& fields.contains_key("MD5sum"@) ==> e.md5sum == fields["MD5sum"@]
            &&& !fields.contains_key("MD5sum"@) ==> e.md5sum.len() == 0
            &&& fields.contains_key("SystemRequirements"@) <==> e.system_requirements is Some
            &&& e.system_requirements matches Some(r) ==> r == fields["SystemRequirements"@]
            &&& fields.contains_key("Path"@) && fields["Path"@].len() > 0 <==> e.path is Some
            &&& e.path matches Some(p) ==> p == fields["Path"@]
            &&& e.built is Some <==> fields.contains_key("Built"@) && built_of(fields["Built"@]) is Some
            &&& e.built matches Some(b) ==> built_of(fields["Built"@]) == Some(b)
        }),
{
}

/// What is no record of a package with a version is no entry.
pub proof fn records_without_name_or_version_are_no_entries(
    fields: Map<Seq<char>, Seq<char>>,
    version: Result<VersionView, Seq<char>>,
    block: Seq<char>,
)
    ensures
        !fields.contains_key("Package"@) || !fields.contains_key("Version"@) || version is Err ==> entry_given(
            fields,
            version,
        ) is None,
        !dcf_fields(block).contains_key("Package"@) || !dcf_fields(block).contains_key("Version"@) ==> entry_of(block) is None,
{
}

/// An entry is read with the version of its record in its normal form.
pub proof fn entry_has_the_version_of_its_record(block: Seq<char>)
    ensures
        entry_of(block) matches Some(e) ==> dcf_fields(block).contains_key("Version"@) && e.raw_version == dcf_fields(
            block,
        )["Version"@] && semver_version(normal_version(e.raw_version)) == Ok::<VersionView, Seq<char>>(e.version)
            && e.name == dcf_fields(block)["Package"@],
{
}

/// A platform of at least three parts loses its second one; one of fewer is kept.
pub proof fn vendor_is_left_out(arch: Seq<char>, vendor: Seq<char>, rest: Seq<char>)
    requires
        !arch.contains('-'),
        !vendor.contains('-'),
    ensures
        vendorless(arch + seq!['-'] + vendor + seq!['-'] + rest) == arch + seq!['-'] + rest,
        vendorless(arch + seq!['-'] + vendor) == arch + seq!['-'] + vendor,
        vendorless(arch) == arch,
{
    reveal_strlit("-");
    assert("-"@ == seq!['-']);
    let tail = vendor + seq!['-'] + rest;
    cutting_undoes_joining(arch, tail, '-');
    cutting_undoes_joining(vendor, rest, '-');
    assert(arch + seq!['-'] + vendor + seq!['-'] + rest == arch + seq!['-'] + tail);
    cutting_undoes_joining(arch, vendor, '-');
    lemma_find_none(arch, '-', 0);
    lemma_find_none(vendor, '-', 0);
}

/// The series of an R version is what stands in front of its second dot.
pub proof fn series_of_a_version(major: Seq<char>, minor: Seq<char>, rest: Seq<char>)
    requires
        !major.contains('.'),
        !minor.contains('.'),
    ensures
        first_two_parts(major + seq!['.'] + minor + seq!['.'] + rest) == major + seq!['.'] + minor,
        first_two_parts(major + seq!['.'] + minor) == major + seq!['.'] + minor,
        first_two_parts(major) == major,
{
    reveal_strlit(".");
    assert("."@ == seq!['.']);
    let two = major + seq!['.'] + minor;
    let both = seq![major, minor];
    plain_text_is_one_piece(major, '.');
    plain_text_is_one_piece(minor, '.');
    pieces_of_both(major, minor, '.');
    pieces_of_both(two, rest, '.');
    pieces_make_the_text(two, '.');
    pieces_make_the_text(rest, '.');
    assert(split(two, '.') == both);
    assert((both + split(rest, '.')).take(2) == both);
    assert(join(seq![major], "."@) == major);
}

/// A build runs on the machines of its platform, whatever vendor it names, with an R of its
/// series, and on no others.
pub proof fn builds_run_on_their_platform(b: BuiltView, vendor: Seq<char>, host: TripleView, major: Seq<char>, minor: Seq<char>, patch: Seq<char>)
    requires
        !major.contains('.'),
        !minor.contains('.'),
        !host.arch.contains('-'),
        !vendor.contains('-'),
        b.r_version == major + seq!['.'] + minor + seq!['.'] + patch,
        b.platform == host.arch + seq!['-'] + vendor + seq!['-'] + host.os + seq!['-'] + host.abi,
        b.os_family == (if host.os == "windows"@ {
            "windows"@
        } else {
            "unix"@
        }),
    ensures
        runs_on(b, host, major + seq!['.'] + minor),
        forall|other: Seq<char>| #[trigger] runs_on(b, host, other) ==> other == major + seq!['.'] + minor,
        forall|family: Seq<char>|
            family != b.os_family ==> !(#[trigger] runs_on(BuiltView { os_family: family, ..b }, host, major + seq!['.'] + minor)),
        forall|platform: Seq<char>|
            vendorless(platform) != host.arch + seq!['-'] + host.os + seq!['-'] + host.abi ==> !(#[trigger] runs_on(
                BuiltView { platform, ..b },
                host,
                major + seq!['.'] + minor,
            )),
{
    reveal_strlit("-");
    assert("-"@ == seq!['-']);
    series_of_a_version(major, minor, patch);
    let tail = host.os + seq!['-'] + host.abi;
    vendor_is_left_out(host.arch, vendor, tail);
    assert(b.platform == host.arch + seq!['-'] + vendor + seq!['-'] + tail);
    assert(host.arch + "-"@ + host.os + "-"@ + host.abi == host.arch + seq!['-'] + tail);
}

/// A `Built` field names the version of R, the platform, the day and the family of
/// systems, between semicolons.
#[verifier::rlimit(40)]
pub proof fn built_field_is_read(v: Seq<char>, platform: Seq<char>, date: Seq<char>, family: Seq<char>, more: Seq<char>)
    requires
        v.len() > 0,
        !is_whitespace(v[0]),
        !is_whitespace(v.last()),
        !v.contains(';'),
        !platform.contains(';'),
        !date.contains(';'),
        !family.contains(';'),
    ensures
        ({
            let s = "R "@ + v + seq![';'] + platform + seq![';'] + date + seq![';'] + family;
            let want = BuiltView {
                r_version: v,
                platform: trim(platform),
                date: trim(date),
                os_family: trim(family),
            };
            built_of(s) == Some(want) && built_of(s + seq![';'] + more) == Some(want)
        }),
{
    reveal_strlit("R ");
    let e = Seq::<char>::empty();
    let first = "R "@ + v;
    assert(!first.contains(';')) by {
        if first.contains(';') {
            let i = choose|i: int| 0 <= i < first.len() && first[i] == ';';
            if i >= 2 {
                assert(v[i - 2] == ';');
            }
        }
    }
    let two = first + seq![';'] + platform;
    let three = two + seq![';'] + date;
    let s = three + seq![';'] + family;
    plain_text_is_one_piece(first, ';');
    plain_text_is_one_piece(platform, ';');
    plain_text_is_one_piece(date, ';');
    plain_text_is_one_piece(family, ';');
    pieces_of_both(first, platform, ';');
    pieces_of_both(two, date, ';');
    pieces_of_both(three, family, ';');
    pieces_of_both(s, more, ';');
    assert(split(s, ';') == seq![first, platform, date, family]);
    assert(first[0] == 'R');
    assert(!is_whitespace('R'));
    assert(first.last() == v.last());
    trimming_undoes_padding(e, first, e);
    assert(e + first + e == first);
    stripping_undoes_adding("R "@, v);
    trimming_undoes_padding(e, v, e);
    assert(e + v + e == v);
}

/// A field with fewer than four parts, or that does not begin with `R`, is none of a
/// build.
pub proof fn other_fields_are_no_builds(s: Seq<char>)
    ensures
        built_of(s) is Some ==> split(s, ';').len() >= 4 && trim(s).len() > 0,
        strip_prefix(trim(split(s, ';')[0]), "R "@) is None ==> built_of(s) is None,
{
    pieces_make_the_text(s, ';');
    if built_of(s) is Some && trim(s).len() == 0 {
        reveal_strlit("R ");
        let r = trimming_takes_only_space(s);
        assert forall|i: int| 0 <= i < s.len() implies is_whitespace(#[trigger] s[i]) by {
            if i < r.0.len() {
                assert(is_whitespace(r.0[i]));
            } else {
                assert(is_whitespace(r.1[i - r.0.len()]));
            }
        }
        assert(!s.contains(';')) by {
            if s.contains(';') {
                let i = choose|i: int| 0 <= i < s.len() && s[i] == ';';
                assert(is_whitespace(s[i]));
            }
        }
        plain_text_is_one_piece(s, ';');
    }
}

/// The address of a package ends with its name and its version, and lies below the
/// repository. A path is part of it where none of its parts leads up and it is not
/// absolute; else the address is that of the package at the top.
pub proof fn addresses_stay_below_the_repository(base: Seq<char>, e: EntryView)
    ensures
        e.path is None ==> tarball_at(base, e) == base + seq!['/'] + e.name + seq!['_'] + e.raw_version + ".tar.gz"@,
        e.path matches Some(p) ==> {
            let up = split(p, '/').contains(".."@);
            let below = p.len() > 0 && p[0] != '/' && !up;
            &&& below ==> tarball_at(base, e) == base + seq!['/'] + p + seq!['/'] + e.name + seq!['_'] + e.raw_version
                + ".tar.gz"@
            &&& !below ==> tarball_at(base, e) == tarball_at(base, EntryView { path: None, ..e })
        },
{
    reveal_strlit("/");
    reveal_strlit("_");
    assert("/"@ == seq!['/']);
    assert("_"@ == seq!['_']);
}

/// What a repository says of a package is what the entry says: its checksum is marked as an
/// MD5 digest, its address is that of a source package at the top, and it needs what the
/// entry needs.
pub proof fn repository_says_what_the_entry_says(e: EntryView, base: Seq<char>, source: SourceView)
    ensures
        ({
            let i = info_of(e, base, source);
            &&& i.name == e.name
            &&& i.version == e.version
            &&& i.raw_version == Some(e.raw_version)
            &&& i.source == source
            &&& i.system_requirements == e.system_requirements
            &&& i.checksum is None <==> e.md5sum.len() == 0
            &&& i.checksum matches Some(c) ==> strip_prefix(c, "md5:"@) == Some(e.md5sum)
            &&& i.url == tarball_at(base, EntryView { path: None, ..e })
            &&& forall|d: DepView| #[trigger] i.requires.contains(d) <==> !is_base(d.name) && (e.depends.contains(d)
                || e.imports.contains(d) || e.linking_to.contains(d))
        }),
{
    stripping_undoes_adding("md5:"@, e.md5sum);
    assert forall|d: DepView| #[trigger] entry_deps(e).contains(d) <==> !is_base(d.name) && (e.depends.contains(d)
        || e.imports.contains(d) || e.linking_to.contains(d)) by {
        entry_needs_what_it_states(e, d);
    }
}

proof fn lemma_age_slot(s: Seq<EntryView>, v: VersionView, i: int)
    requires
        0 <= i <= s.len(),
    ensures
        i <= age_slot(s, v, i) <= s.len(),
        forall|j: int| i <= j < age_slot(s, v, i) ==> !older((#[trigger] s[j]).version, v),
        age_slot(s, v, i) < s.len() ==> older(s[age_slot(s, v, i)].version, v),
    decreases s.len() - i,
{
    if i < s.len() && !older(s[i].version, v) {
        lemma_age_slot(s, v, i + 1);
    }
}

/// An index with one more entry holds it and all that it held, each as often. The entry
/// stands behind all that are not older, up to the first that is; the others keep their
/// order, and other packages are not touched.
pub proof fn entries_are_added(m: Map<Seq<char>, Seq<EntryView>>, e: EntryView) -> (k: int)
    ensures
        ({
            let before = entries_of(m, e.name);
            let after = entries_of(with_entry(m, e), e.name);
            &&& 0 <= k <= before.len()
            &&& after == before.take(k) + seq![e] + before.skip(k)
            &&& forall|j: int| 0 <= j < k ==> !older((#[trigger] before[j]).version, e.version)
            &&& k < before.len() ==> older(before[k].version, e.version)
            &&& forall|n: Seq<char>| n != e.name ==> #[trigger] entries_of(with_entry(m, e), n) == entries_of(m, n)
            &&& with_entry(m, e).dom() == m.dom().insert(e.name)
        }),
{
    let s = entries_of(m, e.name);
    lemma_age_slot(s, e.version, 0);
    let k = age_slot(s, e.version, 0);
    assert(s.insert(k, e) == s.take(k) + seq![e] + s.skip(k));
    assert(with_entry(m, e).dom() == m.dom().insert(e.name));
    k
}

/// An index holds the entry of every record that is one.
#[verifier::rlimit(40)]
pub proof fn every_record_is_in_the_index(blocks: Seq<Seq<char>>, i: int)
    requires
        0 <= i < blocks.len(),
        entry_of(trim(blocks[i])) is Some,
        trim(blocks[i]).len() > 0,
    ensures
        ({
            let e = entry_of(trim(blocks[i]))->0;
            index_of_blocks(blocks).contains_key(e.name) && index_of_blocks(blocks)[e.name].contains(e)
        }),
    decreases blocks.len(),
{
    let e = entry_of(trim(blocks[i]))->0;
    let m = index_of_blocks(blocks.drop_last());
    if i < blocks.len() - 1 {
        assert(blocks.drop_last()[i] == blocks[i]);
        every_record_is_in_the_index(blocks.drop_last(), i);
        if trim(blocks.last()).len() > 0 {
            if let Some(f) = entry_of(trim(blocks.last())) {
                let k = entries_are_added(m, f);
                let after = with_entry(m, f);
                assert(after.contains_key(e.name));
                if e.name == f.name {
                    let s = m[e.name];
                    let j = choose|j: int| 0 <= j < s.len() && s[j] == e;
                    let t = s.take(k) + seq![f] + s.skip(k);
                    assert(entries_of(after, e.name) == t);
                    if j < k {
                        assert(t[j] == e);
                    } else {
                        assert(t[j + 1] == e);
                    }
                } else {
                    assert(entries_of(after, e.name) == entries_of(m, e.name));
                }
            }
        }
    } else {
        let k = entries_are_added(m, e);
        let s = entries_of(m, e.name);
        let t = s.take(k) + seq![e] + s.skip(k);
        assert(t[k] == e);
    }
}

/// Every entry of an index comes from a record, and stands under its own name.
#[verifier::rlimit(40)]
pub proof fn index_holds_only_records(blocks: Seq<Seq<char>>, name: Seq<char>, e: EntryView)
    requires
        index_of_blocks(blocks).contains_key(name),
        index_of_blocks(blocks)[name].contains(e),
    ensures
        e.name == name,
        exists|i: int| 0 <= i < blocks.len() && entry_of(trim(#[trigger] blocks[i])) == Some(e),
    decreases blocks.len(),
{
    let front = blocks.drop_last();
    let m = index_of_blocks(front);
    let block = trim(blocks.last());
    let mut old = true;
    if block.len() > 0 {
        if let Some(f) = entry_of(block) {
            let k = entries_are_added(m, f);
            let after = with_entry(m, f);
            if f.name == name {
                let s = entries_of(m, name);
                let t = s.take(k) + seq![f] + s.skip(k);
                assert(after[name] == t);
                let j = choose|j: int| 0 <= j < t.len() && t[j] == e;
                if j == k {
                    old = false;
                } else {
                    let j2 = if j < k {
                        j
                    } else {
                        j - 1
                    };
                    assert(s[j2] == e);
                }
            } else {
                assert(entries_of(after, name) == entries_of(m, name));
            }
        }
    }
    if old {
        assert(m.contains_key(name));
        assert(m[name].contains(e));
        index_holds_only_records(front, name, e);
        let i = choose|i: int| 0 <= i < front.len() && entry_of(trim(#[trigger] front[i])) == Some(e);
        assert(front[i] == blocks[i]);
    } else {
        assert(blocks[blocks.len() - 1] == blocks.last());
    }
}

proof fn lemma_admitted_found(s: Seq<EntryView>, req: Option<Seq<char>>, i: int, j: int)
    requires
        0 <= i <= j < s.len(),
        req is None || admits(req->0, s[j].version),
    ensures
        super::cran::admitted(s, req, i) <= j,
    decreases j - i,
{
    if i < j && !(req is None || admits(req->0, s[i].version)) {
        lemma_admitted_found(s, req, i + 1, j);
    }
}

/// A package whose requirement can be read is found where some entry of it is admitted; a
/// requirement that says nothing admits all. A package that the index does not know is
/// not found, and one without an admitted entry has no matching version.
pub proof fn admitted_entries_are_found(m: Map<Seq<char>, Seq<EntryView>>, name: Seq<char>, constraint: Option<Seq<char>>, j: int)
    ensures
        !m.contains_key(name) ==> best(m, name, constraint) == Err::<EntryView, ErrorView>(ErrorView::PackageNotFound(name)),
        m.contains_key(name) && 0 <= j < m[name].len() && (constraint is None || constraint == Some("*"@) || constraint
            == Some(Seq::<char>::empty())) ==> best(m, name, constraint) == Ok::<EntryView, ErrorView>(m[name][0]),
        m.contains_key(name) && 0 <= j < m[name].len() && is_real(constraint) ==> match requirement(constraint->0) {
            Ok(req) => admits(req, m[name][j].version) ==> best(m, name, constraint) is Ok,
            Err(e) => best(m, name, constraint) == Err::<EntryView, ErrorView>(e),
        },
        m.contains_key(name) && best(m, name, constraint) is Err && !(is_real(constraint) && requirement(constraint->0) is Err)
            ==> best(m, name, constraint)->Err_0 is NoMatchingVersion,
{
    if m.contains_key(name) && 0 <= j < m[name].len() {
        match wanted(constraint) {
            Ok(req) => {
                if req is None || admits(req->0, m[name][j].version) {
                    lemma_admitted_found(m[name], req, 0, j);
                }
            },
            Err(_) => {},
        }
    }
}

proof fn lemma_exactly(s: Seq<EntryView>, v: VersionView, i: int)
    requires
        0 <= i <= s.len(),
    ensures
        i <= exactly(s, v, i) <= s.len(),
        exactly(s, v, i) < s.len() ==> s[exactly(s, v, i)].version == v,
        forall|j: int| i <= j < exactly(s, v, i) ==> (#[trigger] s[j]).version != v,
    decreases s.len() - i,
{
    if i < s.len() && s[i].version != v {
        lemma_exactly(s, v, i + 1);
    }
}

/// The entry of a version is found if and only if the index has one of the package with
/// that version, and the one found has it.
pub proof fn exact_versions_are_found(m: Map<Seq<char>, Seq<EntryView>>, name: Seq<char>, v: VersionView)
    ensures
        exact_given(m, name, Ok(v)) is Some <==> (m.contains_key(name) && exists|j: int|
            0 <= j < m[name].len() && (#[trigger] m[name][j]).version == v),
        exact_given(m, name, Ok(v)) matches Some(e) ==> m[name].contains(e) && e.version == v,
{
    let s = entries_of(m, name);
    lemma_exactly(s, v, 0);
    let k = exactly(s, v, 0);
    if k < s.len() {
        assert(m[name][k].version == v);
    }
    if m.contains_key(name) && exists|j: int| 0 <= j < m[name].len() && (#[trigger] m[name][j]).version == v {
        let j = choose|j: int| 0 <= j < m[name].len() && (#[trigger] m[name][j]).version == v;
        assert(s[j].version == v);
    }
}

/// Two ways of writing one version find the same entry.
pub proof fn ways_of_writing_do_not_count(m: Map<Seq<char>, Seq<EntryView>>, name: Seq<char>, v: Seq<char>, w: Seq<char>)
    requires
        normal_version(v) == normal_version(w),
    ensures
        exact(m, name, v) == exact(m, name, w),
        semver_version(normal_version(v)) is Err ==> exact(m, name, v) is None,
        exact(m, name, v) matches Some(e) ==> semver_version(normal_version(v)) == Ok::<VersionView, Seq<char>>(e.version),
{
    if let Ok(x) = semver_version(normal_version(v)) {
        exact_versions_are_found(m, name, x);
    }
}

/// A binary is offered exactly where the entry is a build that runs on the machine, and
/// lies where the entry says.
pub proof fn binaries_are_builds_that_run(reg: RegistryView, e: EntryView, host: TripleView, r_minor: Seq<char>)
    ensures
        binary_at(reg, None, host, r_minor) is None,
        e.built is None ==> binary_at(reg, Some(e), host, r_minor) is None,
        e.built matches Some(b) ==> (binary_at(reg, Some(e), host, r_minor) is Some <==> runs_on(b, host, r_minor)),
        binary_at(reg, Some(e), host, r_minor) matches Some(u) ==> u == tarball_at(reg.src_base, e),
{
}

} // verus!
