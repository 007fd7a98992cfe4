//! Rules that say which packages of a Linux distribution an R package needs.
use vstd::prelude::*;

use crate::order::view_each;
use crate::r_version::host::{first_two_parts, minor_of};
use crate::text::{chars_of, holds_text, opt_view, same_str, views};

verus! {

/// The systems that a dependency is for.
#[derive(Debug, Clone, PartialEq, Eq)]
pub struct SysReqConstraint {
    pub os: Option<String>,
    pub distribution: Option<String>,
    /// The releases of the distribution; all of them where none is named.
    pub versions: Vec<String>,
}

/// The systems that a dependency is for, as mathematical values.
pub struct ConstraintView {
    pub os: Option<Seq<char>>,
    pub distribution: Option<Seq<char>>,
    pub versions: Seq<Seq<char>>,
}

impl View for SysReqConstraint {
    type V = ConstraintView;

    open spec fn view(&self) -> ConstraintView {
        ConstraintView {
            os: opt_view(self.os),
            distribution: opt_view(self.distribution),
            versions: views(self.versions@),
        }
    }
}

/// The packages that are needed on some systems.
#[derive(Debug, Clone, PartialEq, Eq)]
pub struct SysReqDependency {
    pub packages: Vec<String>,
    pub constraints: Vec<SysReqConstraint>,
}

/// The packages that are needed on some systems, as mathematical values.
pub struct DependencyView {
    pub packages: Seq<Seq<char>>,
    pub constraints: Seq<ConstraintView>,
}

impl View for SysReqDependency {
    type V = DependencyView;

    open spec fn view(&self) -> DependencyView {
        DependencyView { packages: views(self.packages@), constraints: view_each(self.constraints@) }
    }
}

/// A rule: what is needed where a requirement matches one of the patterns.
#[derive(Debug, Clone, PartialEq, Eq)]
pub struct SysReqRule {
    pub name: String,
    pub patterns: Vec<String>,
    pub dependencies: Vec<SysReqDependency>,
}

/// A rule as a mathematical value.
pub struct RuleView {
    pub name: Seq<char>,
    pub patterns: Seq<Seq<char>>,
    pub dependencies: Seq<DependencyView>,
}

impl View for SysReqRule {
    type V = RuleView;

    open spec fn view(&self) -> RuleView {
        RuleView {
            name: self.name@,
            patterns: views(self.patterns@),
            dependencies: view_each(self.dependencies@),
        }
    }
}

/// All of the patterns are regular expressions.
pub uninterp spec fn regex_set_is_valid(patterns: Seq<Seq<char>>) -> bool;

/// One of the regular expressions matches somewhere in the text.
pub uninterp spec fn regex_set_matches(patterns: Seq<Seq<char>>, text: Seq<char>) -> bool;

/// `regex::RegexSet::new` accepts the patterns. That this depends on the patterns alone is
/// all that is claimed.
#[verifier::external_body]
fn set_is_valid(patterns: &Vec<String>) -> (r: bool)
    ensures
        r == regex_set_is_valid(views(patterns@)),
{
    regex::RegexSet::new(patterns).is_ok()
}

/// `regex::RegexSet::is_match`, of a set that `regex::RegexSet::new` accepts. That the
/// answer depends on the patterns and the text alone is all that is claimed.
#[verifier::external_body]
fn set_matches(patterns: &Vec<String>, text: &str) -> (r: bool)
    requires
        regex_set_is_valid(views(patterns@)),
    ensures
        r == regex_set_matches(views(patterns@), text@),
{
    regex::RegexSet::new(patterns).map(|s| s.is_match(text)).unwrap_or_default()
}

/// The patterns of a rule, without regard to case.
pub open spec fn caseless(patterns: Seq<Seq<char>>) -> Seq<Seq<char>> {
    patterns.map_values(|p: Seq<char>| "(?i)"@ + p)
}

fn caseless_patterns(patterns: &Vec<String>) -> (r: Vec<String>)
    ensures
        views(r@) == caseless(views(patterns@)),
{
    let ghost all = caseless(views(patterns@));
    let mut out: Vec<String> = Vec::new();
    let mut i: usize = 0;
    assert(views(out@) == all.take(0));
    while i < patterns.len()
        invariant
            i <= patterns@.len(),
            all == caseless(views(patterns@)),
            views(out@) == all.take(i as int),
        decreases patterns@.len() - i,
    {
        let ghost before = out@;
        out.push("(?i)".to_owned().concat(patterns[i].as_str()));
        proof {
            assert(views(patterns@)[i as int] == patterns@[i as int]@);
            assert(all[i as int] == "(?i)"@ + patterns@[i as int]@);
            assert(views(out@) == views(before).push(all[i as int]));
            assert(all.take(i + 1) == all.take(i as int).push(all[i as int]));
        }
        i += 1;
    }
    assert(all.take(i as int) == all);
    out
}

/// The release by which rules name a release of a distribution. Those for Alpine name it
/// without its last part.
pub open spec fn rule_release(distribution: Seq<char>, version: Seq<char>) -> Seq<char> {
    if distribution == "alpine"@ {
        first_two_parts(version)
    } else {
        version
    }
}

/// A constraint admits a release of a Linux distribution.
pub open spec fn admits_system(c: ConstraintView, distribution: Seq<char>, version: Seq<char>) -> bool {
    &&& c.os is Some ==> c.os->0 == "linux"@
    &&& c.distribution == Some(distribution)
    &&& c.versions.len() == 0 || c.versions.contains(rule_release(distribution, version))
}

/// Whether a constraint admits a release of a Linux distribution; see [`admits_system`].
pub fn constraint_matches(c: &SysReqConstraint, distribution: &str, version: &str) -> (r: bool)
    ensures
        r == admits_system(c@, distribution@, version@),
{
    if let Some(os) = &c.os {
        if !same_str(os.as_str(), "linux") {
            return false;
        }
    }
    match &c.distribution {
        Some(d) => {
            if !same_str(d.as_str(), distribution) {
                return false;
            }
        },
        None => {
            return false;
        },
    }
    assert(views(c.versions@).len() == c.versions@.len());
    if c.versions.len() == 0 {
        return true;
    }
    if same_str(distribution, "alpine") {
        let release = minor_of(version);
        holds_text(&c.versions, release.as_str())
    } else {
        holds_text(&c.versions, version)
    }
}

/// A dependency is for a release of a distribution.
pub open spec fn is_for(d: DependencyView, distribution: Seq<char>, version: Seq<char>) -> bool {
    exists|i: int| 0 <= i < d.constraints.len() && admits_system(#[trigger] d.constraints[i], distribution, version)
}

fn dependency_is_for(d: &SysReqDependency, distribution: &str, version: &str) -> (r: bool)
    ensures
        r == is_for(d@, distribution@, version@),
{
    let ghost all = view_each(d.constraints@);
    let mut i: usize = 0;
    while i < d.constraints.len()
        invariant
            i <= d.constraints@.len(),
            all == view_each(d.constraints@),
            forall|j: int| 0 <= j < i ==> !admits_system(#[trigger] all[j], distribution@, version@),
        decreases d.constraints@.len() - i,
    {
        assert(all[i as int] == d.constraints@[i as int]@);
        if constraint_matches(&d.constraints[i], distribution, version) {
            assert(admits_system(d@.constraints[i as int], distribution@, version@));
            return true;
        }
        i += 1;
    }
    false
}

/// The first dependency from position `i` on that is for the release, or the length.
pub open spec fn first_for(deps: Seq<DependencyView>, distribution: Seq<char>, version: Seq<char>, i: int) -> int
    decreases deps.len() - i,
{
    if i >= deps.len() {
        deps.len() as int
    } else if is_for(deps[i], distribution, version) {
        i
    } else {
        first_for(deps, distribution, version, i + 1)
    }
}

/// The packages with those that are new put behind them.
pub open spec fn with_new(out: Seq<Seq<char>>, packages: Seq<Seq<char>>) -> Seq<Seq<char>>
    decreases packages.len(),
{
    if packages.len() == 0 {
        out
    } else {
        let front = with_new(out, packages.drop_last());
        if front.contains(packages.last()) {
            front
        } else {
            front.push(packages.last())
        }
    }
}

/// The packages that the rules with a match ask for on a release: those of the first
/// dependency of each that is for it, each package once, in the order of the rules.
pub open spec fn needed_packages(
    rules: Seq<RuleView>,
    matched: Seq<bool>,
    distribution: Seq<char>,
    version: Seq<char>,
) -> Seq<Seq<char>>
    decreases rules.len(),
{
    if rules.len() == 0 {
        seq![]
    } else {
        let front = needed_packages(rules.drop_last(), matched.drop_last(), distribution, version);
        let deps = rules.last().dependencies;
        let k = first_for(deps, distribution, version, 0);
        if matched.last() && k < deps.len() {
            with_new(front, deps[k].packages)
        } else {
            front
        }
    }
}

fn push_new(out: &mut Vec<String>, packages: &Vec<String>)
    ensures
        views(final(out)@) == with_new(views(old(out)@), views(packages@)),
{
    let ghost start = views(out@);
    let ghost all = views(packages@);
    let mut i: usize = 0;
    assert(all.take(0) == Seq::<Seq<char>>::empty());
    while i < packages.len()
        invariant
            i <= packages@.len(),
            all == views(packages@),
            views(out@) == with_new(start, all.take(i as int)),
        decreases packages@.len() - i,
    {
        proof {
            assert(all[i as int] == packages@[i as int]@);
            assert(all.take(i + 1).drop_last() == all.take(i as int));
        }
        if !holds_text(&*out, packages[i].as_str()) {
            let ghost before = out@;
            out.push(packages[i].as_str().to_owned());
            assert(views(out@) == views(before).push(all[i as int]));
        }
        i += 1;
    }
    assert(all.take(i as int) == all);
}

fn position_for(deps: &Vec<SysReqDependency>, distribution: &str, version: &str) -> (r: usize)
    ensures
        r == first_for(view_each(deps@), distribution@, version@, 0),
        r <= deps@.len(),
{
    let ghost all = view_each(deps@);
    let mut i: usize = 0;
    while i < deps.len() && !dependency_is_for(&deps[i], distribution, version)
        invariant
            i <= deps@.len(),
            all == view_each(deps@),
            first_for(all, distribution@, version@, 0) == first_for(all, distribution@, version@, i as int),
        decreases deps@.len() - i,
    {
        assert(all[i as int] == deps@[i as int]@);
        i += 1;
    }
    proof {
        if i < all.len() {
            assert(all[i as int] == deps@[i as int]@);
        }
    }
    i
}

/// The packages that the rules with a match ask for on a release; see
/// [`needed_packages`].
pub fn packages_for(rules: &Vec<SysReqRule>, matched: &Vec<bool>, distribution: &str, version: &str) -> (r: Vec<String>)
    requires
        matched@.len() == rules@.len(),
    ensures
        views(r@) == needed_packages(view_each(rules@), matched@, distribution@, version@),
{
    let ghost all = view_each(rules@);
    let mut out: Vec<String> = Vec::new();
    let mut i: usize = 0;
    assert(all.take(0) == Seq::<RuleView>::empty());
    assert(views(out@) == Seq::<Seq<char>>::empty());
    while i < rules.len()
        invariant
            i <= rules@.len(),
            all == view_each(rules@),
            matched@.len() == rules@.len(),
            views(out@) == needed_packages(all.take(i as int), matched@.take(i as int), distribution@, version@),
        decreases rules@.len() - i,
    {
        proof {
            assert(all[i as int] == rules@[i as int]@);
            assert(all.take(i + 1).drop_last() == all.take(i as int));
            assert(matched@.take(i + 1).drop_last() == matched@.take(i as int));
        }
        if matched[i] {
            let deps = &rules[i].dependencies;
            let k: usize = position_for(deps, distribution, version);
            if k < deps.len() {
                assert(view_each(deps@)[k as int] == deps@[k as int]@);
                push_new(&mut out, &deps[k].packages);
            }
        }
        i += 1;
    }
    proof {
        assert(all.take(i as int) == all);
        assert(matched@.take(i as int) == matched@);
    }
    out
}

/// All rules can be used.
pub open spec fn rules_are_valid(rules: Seq<RuleView>) -> bool {
    forall|i: int| 0 <= i < rules.len() ==> regex_set_is_valid(caseless((#[trigger] rules[i]).patterns))
}

/// Which of the rules match a requirement.
pub open spec fn matches_of(rules: Seq<RuleView>, text: Seq<char>) -> Seq<bool> {
    rules.map_values(|r: RuleView| regex_set_matches(caseless(r.patterns), text))
}

/// The packages that a requirement asks for on a release. An empty requirement asks for
/// none.
pub fn resolve_local(rules: &Vec<SysReqRule>, sys_req_text: &str, distribution: &str, version: &str) -> (r: Vec<String>)
    requires
        rules_are_valid(view_each(rules@)),
    ensures
        views(r@) == (if sys_req_text@.len() == 0 {
            Seq::<Seq<char>>::empty()
        } else {
            needed_packages(
                view_each(rules@),
                matches_of(view_each(rules@), sys_req_text@),
                distribution@,
                version@,
            )
        }),
{
    let letters = chars_of(sys_req_text);
    if letters.len() == 0 {
        let none: Vec<String> = Vec::new();
        assert(views(none@) == Seq::<Seq<char>>::empty());
        return none;
    }
    let ghost all = view_each(rules@);
    let ghost expected = matches_of(all, sys_req_text@);
    let mut matched: Vec<bool> = Vec::new();
    let mut i: usize = 0;
    while i < rules.len()
        invariant
            i <= rules@.len(),
            all == view_each(rules@),
            rules_are_valid(all),
            expected == matches_of(all, sys_req_text@),
            matched@ == expected.take(i as int),
        decreases rules@.len() - i,
    {
        assert(all[i as int] == rules@[i as int]@);
        let patterns = caseless_patterns(&rules[i].patterns);
        assert(regex_set_is_valid(caseless(all[i as int].patterns)));
        matched.push(set_matches(&patterns, sys_req_text));
        assert(matched@ == expected.take(i + 1));
        i += 1;
    }
    assert(matched@ == expected);
    packages_for(rules, &matched, distribution, version)
}

/// The packages that a requirement asks for on a release, or nothing where a rule cannot
/// be used.
pub fn resolve_with_rules(rules: &Vec<SysReqRule>, sys_req_text: &str, distribution: &str, version: &str) -> (r: Option<
    Vec<String>,
>)
    ensures
        r is Some <==> rules_are_valid(view_each(rules@)),
        r matches Some(v) ==> views(v@) == (if sys_req_text@.len() == 0 {
            Seq::<Seq<char>>::empty()
        } else {
            needed_packages(
                view_each(rules@),
                matches_of(view_each(rules@), sys_req_text@),
                distribution@,
                version@,
            )
        }),
{
    let ghost all = view_each(rules@);
    let mut i: usize = 0;
    while i < rules.len()
        invariant
            i <= rules@.len(),
            all == view_each(rules@),
            forall|j: int| 0 <= j < i ==> regex_set_is_valid(caseless((#[trigger] all[j]).patterns)),
        decreases rules@.len() - i,
    {
        assert(all[i as int] == rules@[i as int]@);
        let patterns = caseless_patterns(&rules[i].patterns);
        if !set_is_valid(&patterns) {
            assert(!regex_set_is_valid(caseless(all[i as int].patterns)));
            return None;
        }
        i += 1;
    }
    Some(resolve_local(rules, sys_req_text, distribution, version))
}

proof fn lemma_with_new(out: Seq<Seq<char>>, packages: Seq<Seq<char>>)
    requires
        out.no_duplicates(),
    ensures
        with_new(out, packages).no_duplicates(),
    decreases packages.len(),
{
    if packages.len() > 0 {
        lemma_with_new(out, packages.drop_last());
    }
}

/// No package is asked for twice.
pub proof fn packages_are_distinct(
    rules: Seq<RuleView>,
    matched: Seq<bool>,
    distribution: Seq<char>,
    version: Seq<char>,
)
    ensures
        needed_packages(rules, matched, distribution, version).no_duplicates(),
    decreases rules.len(),
{
    if rules.len() > 0 {
        packages_are_distinct(rules.drop_last(), matched.drop_last(), distribution, version);
        let front = needed_packages(rules.drop_last(), matched.drop_last(), distribution, version);
        let deps = rules.last().dependencies;
        lemma_with_new(front, deps[first_for(deps, distribution, version, 0)].packages);
    }
}

/// On a distribution that no rule names nothing is asked for.
pub proof fn unknown_distribution_needs_nothing(
    rules: Seq<RuleView>,
    matched: Seq<bool>,
    distribution: Seq<char>,
    version: Seq<char>,
)
    requires
        forall|i: int, j: int, k: int|
            0 <= i < rules.len() && 0 <= j < rules[i].dependencies.len() && 0 <= k
                < rules[i].dependencies[j].constraints.len()
                ==> #[trigger] rules[i].dependencies[j].constraints[k].distribution != Some(distribution),
    ensures
        needed_packages(rules, matched, distribution, version) == Seq::<Seq<char>>::empty(),
    decreases rules.len(),
{
    if rules.len() > 0 {
        let front = rules.drop_last();
        assert forall|i: int, j: int, k: int|
            0 <= i < front.len() && 0 <= j < front[i].dependencies.len() && 0 <= k
                < front[i].dependencies[j].constraints.len()
            implies #[trigger] front[i].dependencies[j].constraints[k].distribution != Some(distribution) by {
            assert(rules[i].dependencies[j].constraints[k].distribution != Some(distribution));
        }
        unknown_distribution_needs_nothing(front, matched.drop_last(), distribution, version);
        let n = rules.len() - 1;
        assert forall|j: int| 0 <= j < rules[n].dependencies.len() implies !is_for(
            #[trigger] rules[n].dependencies[j],
            distribution,
            version,
        ) by {
            assert forall|k: int| 0 <= k < rules[n].dependencies[j].constraints.len() implies !admits_system(
                #[trigger] rules[n].dependencies[j].constraints[k],
                distribution,
                version,
            ) by {
                assert(rules[n].dependencies[j].constraints[k].distribution != Some(distribution));
            }
        }
        lemma_none_for(rules[n].dependencies, distribution, version, 0);
    }
}

proof fn lemma_none_for(deps: Seq<DependencyView>, distribution: Seq<char>, version: Seq<char>, i: int)
    requires
        0 <= i <= deps.len(),
        forall|j: int| 0 <= j < deps.len() ==> !is_for(#[trigger] deps[j], distribution, version),
    ensures
        first_for(deps, distribution, version, i) == deps.len(),
    decreases deps.len() - i,
{
    if i < deps.len() {
        lemma_none_for(deps, distribution, version, i + 1);
    }
}

} // verus!
