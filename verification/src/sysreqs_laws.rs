//! Which packages the rules ask for, in terms of what the rules say.
use vstd::prelude::*;

use crate::registry::cran_laws::series_of_a_version;
use crate::sysreqs::{
    after_lookup, catalogue_name, catalogue_release, distro_parts, lookup_of, missing_of, named_packages,
    needed_by, nested_views, CatalogueReply, CheckView, LookupView, PackageSysReqQuery,
};
use crate::sysreqs_rules::{
    admits_system, caseless, first_for, is_for, matches_of, needed_packages, regex_set_matches, with_new,
    ConstraintView, DependencyView, RuleView,
};
use crate::text::{contains_text, split, split_once};
use crate::text_laws::{
    cuts_are_at_the_ends, cutting_undoes_joining, pieces_of_both, plain_text_is_one_piece,
};

verus! {

/// A constraint is for the releases of the distribution that it names, on Linux: for all
/// of them where it lists none, else for those that it lists. It lists releases of Alpine
/// by their first two parts.
pub proof fn constraints_name_their_releases(c: ConstraintView, distribution: Seq<char>, version: Seq<char>, major: Seq<char>, minor: Seq<char>, patch: Seq<char>)
    requires
        !major.contains('.'),
        !minor.contains('.'),
    ensures
        c.distribution is None ==> !admits_system(c, distribution, version),
        c.distribution matches Some(d) && d != distribution ==> !admits_system(c, distribution, version),
        c.os matches Some(os) && os != "linux"@ ==> !admits_system(c, distribution, version),
        c.distribution == Some(distribution) && (c.os is None || c.os == Some("linux"@)) ==> {
            &&& c.versions.len() == 0 ==> admits_system(c, distribution, version)
            &&& c.versions.len() > 0 && distribution != "alpine"@ ==> (admits_system(c, distribution, version)
                <==> c.versions.contains(version))
            &&& c.versions.len() > 0 && distribution == "alpine"@ ==> (admits_system(
                c,
                distribution,
                major + seq!['.'] + minor + seq!['.'] + patch,
            ) <==> c.versions.contains(major + seq!['.'] + minor))
        },
{
    series_of_a_version(major, minor, patch);
}

/// A dependency is for a release where one of its constraints is.
pub proof fn one_constraint_is_enough(d: DependencyView, distribution: Seq<char>, version: Seq<char>, c: ConstraintView)
    ensures
        d.constraints.contains(c) && admits_system(c, distribution, version) ==> is_for(d, distribution, version),
        (forall|i: int| 0 <= i < d.constraints.len() ==> !admits_system(#[trigger] d.constraints[i], distribution, version))
            ==> !is_for(d, distribution, version),
{
    if d.constraints.contains(c) && admits_system(c, distribution, version) {
        let i = choose|i: int| 0 <= i < d.constraints.len() && d.constraints[i] == c;
        assert(admits_system(d.constraints[i], distribution, version));
    }
}

proof fn lemma_first_for(deps: Seq<DependencyView>, distribution: Seq<char>, version: Seq<char>, i: int)
    requires
        0 <= i <= deps.len(),
    ensures
        i <= first_for(deps, distribution, version, i) <= deps.len(),
        forall|j: int| i <= j < first_for(deps, distribution, version, i) ==> !is_for(#[trigger] deps[j], distribution, version),
        first_for(deps, distribution, version, i) < deps.len() ==> is_for(
            deps[first_for(deps, distribution, version, i)],
            distribution,
            version,
        ),
    decreases deps.len() - i,
{
    if i < deps.len() && !is_for(deps[i], distribution, version) {
        lemma_first_for(deps, distribution, version, i + 1);
    }
}

/// The position is that of the first of a rule's dependencies that is for the release.
pub open spec fn is_first_for(rule: RuleView, k: int, distribution: Seq<char>, version: Seq<char>) -> bool {
    &&& 0 <= k < rule.dependencies.len()
    &&& is_for(rule.dependencies[k], distribution, version)
    &&& forall|j: int| 0 <= j < k ==> !is_for(#[trigger] rule.dependencies[j], distribution, version)
}

proof fn lemma_is_first_for(rule: RuleView, k: int, distribution: Seq<char>, version: Seq<char>)
    requires
        is_first_for(rule, k, distribution, version),
    ensures
        first_for(rule.dependencies, distribution, version, 0) == k,
{
    lemma_first_for(rule.dependencies, distribution, version, 0);
}

#[verifier::rlimit(40)]
proof fn lemma_with_new_contains(out: Seq<Seq<char>>, packages: Seq<Seq<char>>, p: Seq<char>)
    ensures
        with_new(out, packages).contains(p) <==> out.contains(p) || packages.contains(p),
    decreases packages.len(),
{
    if packages.len() > 0 {
        let rest = packages.drop_last();
        let x = packages.last();
        lemma_with_new_contains(out, rest, p);
        let front = with_new(out, rest);
        assert(packages == rest.push(x));
        if rest.contains(p) {
            let i = choose|i: int| 0 <= i < rest.len() && rest[i] == p;
            assert(packages[i] == p);
        }
        if packages.contains(p) && p != x {
            let i = choose|i: int| 0 <= i < packages.len() && packages[i] == p;
            assert(rest[i] == p);
        }
        if p == x {
            assert(packages[packages.len() - 1] == p);
            assert(front.push(x)[front.len() as int] == p);
        }
        if front.contains(p) {
            let i = choose|i: int| 0 <= i < front.len() && front[i] == p;
            assert(front.push(x)[i] == p);
        }
        if front.push(x).contains(p) && p != x {
            let i = choose|i: int| 0 <= i < front.push(x).len() && front.push(x)[i] == p;
            assert(front[i] == p);
        }
    } else {
        assert(!packages.contains(p));
    }
}

proof fn lemma_with_new_prefix(out: Seq<Seq<char>>, packages: Seq<Seq<char>>)
    ensures
        out.len() <= with_new(out, packages).len(),
        with_new(out, packages).take(out.len() as int) == out,
    decreases packages.len(),
{
    if packages.len() > 0 {
        lemma_with_new_prefix(out, packages.drop_last());
        let front = with_new(out, packages.drop_last());
        assert(front.push(packages.last()).take(out.len() as int) == front.take(out.len() as int));
    } else {
        assert(out.take(out.len() as int) == out);
    }
}

/// Every rule with a match asks for all packages of the first of its dependencies that is
/// for the release, whatever other rules match.
pub proof fn every_matching_rule_counts(
    rules: Seq<RuleView>,
    matched: Seq<bool>,
    distribution: Seq<char>,
    version: Seq<char>,
    i: int,
    k: int,
    p: Seq<char>,
)
    requires
        matched.len() == rules.len(),
        0 <= i < rules.len(),
        matched[i],
        is_first_for(rules[i], k, distribution, version),
        rules[i].dependencies[k].packages.contains(p),
    ensures
        needed_packages(rules, matched, distribution, version).contains(p),
    decreases rules.len(),
{
    let front = needed_packages(rules.drop_last(), matched.drop_last(), distribution, version);
    let deps = rules.last().dependencies;
    let f = first_for(deps, distribution, version, 0);
    if i < rules.len() - 1 {
        assert(rules.drop_last()[i] == rules[i]);
        assert(matched.drop_last()[i] == matched[i]);
        every_matching_rule_counts(rules.drop_last(), matched.drop_last(), distribution, version, i, k, p);
        if matched.last() && f < deps.len() {
            lemma_with_new_contains(front, deps[f].packages, p);
        }
    } else {
        lemma_is_first_for(rules[i], k, distribution, version);
        lemma_with_new_contains(front, deps[f].packages, p);
    }
}

/// A package is asked for only by a rule with a match, in the first of its dependencies
/// that is for the release.
pub proof fn only_matching_rules_count(
    rules: Seq<RuleView>,
    matched: Seq<bool>,
    distribution: Seq<char>,
    version: Seq<char>,
    p: Seq<char>,
) -> (r: (int, int))
    requires
        matched.len() == rules.len(),
        needed_packages(rules, matched, distribution, version).contains(p),
    ensures
        0 <= r.0 < rules.len(),
        matched[r.0],
        is_first_for(rules[r.0], r.1, distribution, version),
        rules[r.0].dependencies[r.1].packages.contains(p),
    decreases rules.len(),
{
    let front = needed_packages(rules.drop_last(), matched.drop_last(), distribution, version);
    let deps = rules.last().dependencies;
    let f = first_for(deps, distribution, version, 0);
    lemma_first_for(deps, distribution, version, 0);
    if rules.len() == 0 {
        assert(false);
        (0, 0)
    } else {
        if matched.last() && f < deps.len() {
            lemma_with_new_contains(front, deps[f].packages, p);
        }
        if front.contains(p) {
            let r = only_matching_rules_count(rules.drop_last(), matched.drop_last(), distribution, version, p);
            assert(rules.drop_last()[r.0] == rules[r.0]);
            assert(matched.drop_last()[r.0] == matched[r.0]);
            r
        } else {
            (rules.len() - 1, f)
        }
    }
}

/// What a further rule asks for stands behind what the others ask for.
pub proof fn further_rules_add_behind(rules: Seq<RuleView>, matched: Seq<bool>, rule: RuleView, hit: bool, distribution: Seq<char>, version: Seq<char>)
    requires
        matched.len() == rules.len(),
    ensures
        ({
            let before = needed_packages(rules, matched, distribution, version);
            let after = needed_packages(rules.push(rule), matched.push(hit), distribution, version);
            &&& before.len() <= after.len()
            &&& after.take(before.len() as int) == before
            &&& !hit ==> after == before
        }),
{
    assert(rules.push(rule).drop_last() == rules);
    assert(matched.push(hit).drop_last() == matched);
    let before = needed_packages(rules, matched, distribution, version);
    let f = first_for(rule.dependencies, distribution, version, 0);
    lemma_with_new_prefix(before, rule.dependencies[f].packages);
    assert(before.take(before.len() as int) == before);
}

/// A rule matches a requirement where one of its patterns does, each with the mark for any
/// case put in front.
pub proof fn rules_match_without_regard_to_case(rules: Seq<RuleView>, text: Seq<char>, i: int, marked: Seq<Seq<char>>)
    requires
        0 <= i < rules.len(),
        marked.len() == rules[i].patterns.len(),
        forall|j: int| 0 <= j < marked.len() ==> #[trigger] marked[j] == seq!['(', '?', 'i', ')'] + rules[i].patterns[j],
    ensures
        matches_of(rules, text).len() == rules.len(),
        matches_of(rules, text)[i] == regex_set_matches(marked, text),
{
    reveal_strlit("(?i)");
    assert("(?i)"@ == seq!['(', '?', 'i', ')']);
    assert(caseless(rules[i].patterns) =~= marked);
}

/// The catalogue has its own names for some distributions, and knows the relatives of Red
/// Hat and Fedora by the first part of their release; all others by their own name and the
/// whole release.
pub proof fn names_in_the_catalogue(id: Seq<char>, major: Seq<char>, minor: Seq<char>, version: Seq<char>)
    requires
        !major.contains('.'),
    ensures
        catalogue_name("rhel"@) == "redhat"@,
        catalogue_name("rocky"@) == "rockylinux"@ && catalogue_name("almalinux"@) == "rockylinux"@,
        catalogue_name("sles"@) == "sle"@,
        catalogue_name("opensuse-leap"@) == "opensuse"@ && catalogue_name("opensuse-tumbleweed"@) == "opensuse"@,
        !seq!["rhel"@, "rocky"@, "almalinux"@, "sles"@, "opensuse-leap"@, "opensuse-tumbleweed"@].contains(id) ==> catalogue_name(id) == id,
        seq!["redhat"@, "rockylinux"@, "centos"@, "fedora"@].contains(id) ==> catalogue_release(id, major + seq!['.'] + minor) == major
            && catalogue_release(id, major) == major,
        !seq!["redhat"@, "rockylinux"@, "centos"@, "fedora"@].contains(id) ==> catalogue_release(id, version) == version,
{
    reveal_strlit("rhel");
    reveal_strlit("rocky");
    reveal_strlit("almalinux");
    reveal_strlit("sles");
    reveal_strlit("opensuse-leap");
    reveal_strlit("opensuse-tumbleweed");
    assert("rhel"@.len() == 4 && "rocky"@.len() == 5 && "almalinux"@.len() == 9 && "sles"@.len() == 4 && "opensuse-leap"@.len() == 13
        && "opensuse-tumbleweed"@.len() == 19);
    assert("rhel"@[0] == 'r' && "sles"@[0] == 's');
    let own = seq!["rhel"@, "rocky"@, "almalinux"@, "sles"@, "opensuse-leap"@, "opensuse-tumbleweed"@];
    assert(own[0] == "rhel"@ && own[1] == "rocky"@ && own[2] == "almalinux"@ && own[3] == "sles"@ && own[4] == "opensuse-leap"@ && own[5]
        == "opensuse-tumbleweed"@);
    let short = seq!["redhat"@, "rockylinux"@, "centos"@, "fedora"@];
    assert(short[0] == "redhat"@ && short[1] == "rockylinux"@ && short[2] == "centos"@ && short[3] == "fedora"@);
    plain_text_is_one_piece(major, '.');
    pieces_of_both(major, minor, '.');
    assert(split(major + seq!['.'] + minor, '.')[0] == major);
}

/// A distribution and its release are taken apart where they were put together.
pub proof fn distribution_and_release(name: Seq<char>, release: Seq<char>)
    requires
        !name.contains('-'),
    ensures
        distro_parts(name + seq!['-'] + release) == (name, release),
        distro_parts(name) == (name, Seq::<char>::empty()),
{
    cutting_undoes_joining(name, release, '-');
    cuts_are_at_the_ends(name, '-');
    if let Some((a, b)) = split_once(name, '-') {
        assert(name[a.len() as int] == '-');
    }
}

/// The packages that the catalogue names are all that it names for any requirement, but
/// for empty names.
#[verifier::rlimit(40)]
pub proof fn catalogue_names_packages(reqs: Seq<Seq<Seq<char>>>, p: Seq<char>)
    ensures
        named_packages(reqs).contains(p) <==> p.len() > 0 && exists|i: int| 0 <= i < reqs.len() && (#[trigger] reqs[i]).contains(p),
    decreases reqs.len(),
{
    if reqs.len() > 0 {
        let front = reqs.drop_last();
        let last = reqs.last();
        let f = |p: Seq<char>| p.len() > 0;
        catalogue_names_packages(front, p);
        lemma_filter_contains(last, f, p);
        let a = named_packages(front);
        let b = last.filter(f);
        if a.contains(p) {
            let i = choose|i: int| 0 <= i < a.len() && a[i] == p;
            assert((a + b)[i] == p);
        }
        if b.contains(p) {
            let i = choose|i: int| 0 <= i < b.len() && b[i] == p;
            assert((a + b)[a.len() + i] == p);
        }
        if (a + b).contains(p) {
            let i = choose|i: int| 0 <= i < (a + b).len() && (a + b)[i] == p;
            if i < a.len() {
                assert(a[i] == p);
            } else {
                assert(b[i - a.len()] == p);
            }
        }
        assert(reqs[reqs.len() - 1] == last);
        if exists|i: int| 0 <= i < front.len() && (#[trigger] front[i]).contains(p) {
            let i = choose|i: int| 0 <= i < front.len() && (#[trigger] front[i]).contains(p);
            assert(reqs[i] == front[i]);
        }
        if exists|i: int| 0 <= i < reqs.len() && (#[trigger] reqs[i]).contains(p) {
            let i = choose|i: int| 0 <= i < reqs.len() && (#[trigger] reqs[i]).contains(p);
            if i < front.len() {
                assert(reqs[i] == front[i]);
            }
        }
    }
}

#[verifier::rlimit(40)]
proof fn lemma_filter_contains<T>(s: Seq<T>, f: spec_fn(T) -> bool, x: T)
    ensures
        s.filter(f).contains(x) <==> s.contains(x) && f(x),
    decreases s.len(),
{
    reveal(Seq::filter);
    if s.len() > 0 {
        let front = s.drop_last();
        let last = s.last();
        lemma_filter_contains(front, f, x);
        let w = front.filter(f);
        if front.contains(x) {
            let i = choose|i: int| 0 <= i < front.len() && front[i] == x;
            assert(s[i] == x);
        }
        if s.contains(x) && x != last {
            let i = choose|i: int| 0 <= i < s.len() && s[i] == x;
            assert(front[i] == x);
        }
        assert(s[s.len() - 1] == last);
        assert(w.push(last)[w.len() as int] == last);
        if w.contains(x) {
            let i = choose|i: int| 0 <= i < w.len() && w[i] == x;
            assert(w.push(last)[i] == x);
        }
        if w.push(last).contains(x) && x != last {
            let i = choose|i: int| 0 <= i < w.push(last).len() && w.push(last)[i] == x;
            assert(w[i] == x);
        }
    }
}

/// What the catalogue answers is what is known: only an answer that names the system as
/// unsupported makes the distribution unknown, and any other refusal is a failed lookup.
pub proof fn answers_of_the_catalogue(r: CatalogueReply)
    ensures
        r is Unreached || r is Unreadable ==> lookup_of(r) is LookupFailed,
        r matches CatalogueReply::Refused { body } ==> (lookup_of(r) is UnsupportedDistro <==> contains_text(
            body@,
            "Unsupported system"@,
        )) && !(lookup_of(r) is Supported),
        r matches CatalogueReply::Requirements(q) ==> lookup_of(r) == LookupView::Supported(named_packages(nested_views(q@))),
{
}

/// A package is missing if and only if it was looked for and is not there; one of which
/// nothing is known is not.
#[verifier::rlimit(40)]
pub proof fn missing_packages_are_not_there(packages: Seq<Seq<char>>, installed: Seq<Option<bool>>, p: Seq<char>)
    requires
        packages.len() == installed.len(),
    ensures
        missing_of(packages, installed).contains(p) <==> exists|i: int|
            0 <= i < packages.len() && #[trigger] packages[i] == p && installed[i] == Some(false),
    decreases packages.len(),
{
    if packages.len() > 0 {
        let front = packages.drop_last();
        let known = installed.drop_last();
        let last = packages.last();
        missing_packages_are_not_there(front, known, p);
        let w = missing_of(front, known);
        assert(packages[packages.len() - 1] == last && installed[packages.len() - 1] == installed.last());
        if exists|i: int| 0 <= i < front.len() && #[trigger] front[i] == p && known[i] == Some(false) {
            let i = choose|i: int| 0 <= i < front.len() && #[trigger] front[i] == p && known[i] == Some(false);
            assert(packages[i] == p && installed[i] == known[i]);
        }
        if exists|i: int| 0 <= i < packages.len() && #[trigger] packages[i] == p && installed[i] == Some(false) {
            let i = choose|i: int| 0 <= i < packages.len() && #[trigger] packages[i] == p && installed[i] == Some(false);
            if i < front.len() {
                assert(front[i] == p && known[i] == installed[i]);
            }
        }
        assert(w.push(last)[w.len() as int] == last);
        if w.contains(p) {
            let i = choose|i: int| 0 <= i < w.len() && w[i] == p;
            assert(w.push(last)[i] == p);
        }
        if w.push(last).contains(p) && p != last {
            let i = choose|i: int| 0 <= i < w.push(last).len() && w.push(last)[i] == p;
            assert(w[i] == p);
        }
    }
}

/// What a package needs is what the catalogue says where it answered; else what the rules
/// say to its requirement, and nothing where it states none.
pub proof fn needs_of_a_package(rules: Seq<RuleView>, pkg: PackageSysReqQuery, distribution: Seq<char>, release: Seq<char>, named: Seq<Seq<char>>)
    requires
        !distribution.contains('-'),
    ensures
        needed_by(rules, pkg, distribution + seq!['-'] + release, Some(LookupView::Supported(named))) == named,
        pkg.system_requirements is None ==> needed_by(rules, pkg, distribution + seq!['-'] + release, None).len() == 0,
        pkg.system_requirements matches Some(t) ==> (t@.len() == 0 ==> needed_by(
            rules,
            pkg,
            distribution + seq!['-'] + release,
            None,
        ).len() == 0),
        pkg.system_requirements matches Some(t) ==> (t@.len() > 0 ==> needed_by(rules, pkg, distribution + seq!['-'] + release, None)
            == needed_packages(rules, matches_of(rules, t@), distribution, release)),
{
    distribution_and_release(distribution, release);
}

/// What a lookup came to is remembered, and nothing that was found missing is forgotten.
pub proof fn lookups_are_remembered(c: CheckView)
    ensures
        after_lookup(c, Some(LookupView::UnsupportedDistro)).unsupported_distro,
        after_lookup(c, Some(LookupView::LookupFailed)).lookup_failed,
        forall|l: Option<LookupView>| (#[trigger] after_lookup(c, l)).missing == c.missing,
        forall|l: Option<LookupView>| c.lookup_failed ==> (#[trigger] after_lookup(c, l)).lookup_failed,
        forall|named: Seq<Seq<char>>| #[trigger] after_lookup(c, Some(LookupView::Supported(named))) == c,
        after_lookup(c, None) == c,
{
}

} // verus!
