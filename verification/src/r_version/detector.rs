//! The installations of R that are there, and the choice among them.
use vstd::prelude::*;

use crate::error::{outcome, ErrorView, UvrError};
use crate::order::{are_before, is_weak_order, numbers_are_ordered, numbers_before, slot_by, sorted_by,
    sorted_by_is_sorted};
use crate::paths::{path_view, same_path};
use crate::registry::cran::parsed_view;
use crate::resolver::requirement::{normal_version, normalize_version, parse_version_req, requirement};
use crate::text::{char_is_digit, chars_of, has_char, is_digit, join, join_strings, lines, lines_of, opt_view,
    parse_number, pieces, read_number, same_str, slice_views, split, string_of, trim, trimmed, views};
use crate::version::{satisfies, semver_version, Version, VersionReq, VersionView};

verus! {

/// An installation of R.
#[derive(Debug, Clone, PartialEq, Eq)]
pub struct RInstallation {
    /// The path of the program.
    pub binary: String,
    pub version: String,
    /// It was installed by this tool.
    pub managed: bool,
}

/// An installation of R as a mathematical value.
pub struct InstallationView {
    pub binary: Seq<char>,
    pub version: Seq<char>,
    pub managed: bool,
}

impl View for RInstallation {
    type V = InstallationView;

    open spec fn view(&self) -> InstallationView {
        InstallationView { binary: self.binary@, version: self.version@, managed: self.managed }
    }
}

pub open spec fn installation_views(s: Seq<RInstallation>) -> Seq<InstallationView> {
    s.map_values(|i: RInstallation| i@)
}

impl RInstallation {
    fn copy(&self) -> (r: RInstallation)
        ensures
            r@ == self@,
    {
        RInstallation {
            binary: self.binary.as_str().to_owned(),
            version: self.version.as_str().to_owned(),
            managed: self.managed,
        }
    }
}

/// A place where R was looked for.
pub enum Candidate {
    /// A directory of this tool, whose name is the version.
    Managed { binary: String, version: String },
    /// A program, with the version that it said it is.
    Program { binary: String, version: Option<String> },
}

/// A place where R was looked for, as a mathematical value.
pub enum CandidateView {
    Managed { binary: Seq<char>, version: Seq<char> },
    Program { binary: Seq<char>, version: Option<Seq<char>> },
}

impl View for Candidate {
    type V = CandidateView;

    open spec fn view(&self) -> CandidateView {
        match *self {
            Candidate::Managed { binary, version } => CandidateView::Managed { binary: binary@, version: version@ },
            Candidate::Program { binary, version } => CandidateView::Program {
                binary: binary@,
                version: opt_view(version),
            },
        }
    }
}

/// One of the installations is the program given, however its path is written.
pub open spec fn has_binary(s: Seq<InstallationView>, binary: Seq<char>, windows: bool) -> bool {
    exists|i: int| 0 <= i < s.len() && path_view((#[trigger] s[i]).binary, windows) == path_view(binary, windows)
}

/// The installations with one more place looked at. A program that is there already,
/// or that does not say its version, adds nothing.
pub open spec fn with_candidate(s: Seq<InstallationView>, c: CandidateView, windows: bool) -> Seq<InstallationView> {
    match c {
        CandidateView::Managed { binary, version } => s.push(InstallationView { binary, version, managed: true }),
        CandidateView::Program { binary, version } => match version {
            Some(v) => if has_binary(s, binary, windows) {
                s
            } else {
                s.push(InstallationView { binary, version: v, managed: false })
            },
            None => s,
        },
    }
}

/// The installations in the places looked at.
pub open spec fn installations_in(c: Seq<CandidateView>, windows: bool) -> Seq<InstallationView>
    decreases c.len(),
{
    if c.len() == 0 {
        seq![]
    } else {
        with_candidate(installations_in(c.drop_last(), windows), c.last(), windows)
    }
}

pub open spec fn candidate_views(s: Seq<Candidate>) -> Seq<CandidateView> {
    s.map_values(|c: Candidate| c@)
}

fn is_among(found: &Vec<RInstallation>, binary: &str, windows: bool) -> (r: bool)
    ensures
        r == has_binary(installation_views(found@), binary@, windows),
{
    let ghost all = installation_views(found@);
    let mut i: usize = 0;
    while i < found.len()
        invariant
            i <= found@.len(),
            all == installation_views(found@),
            forall|j: int| 0 <= j < i ==> path_view((#[trigger] all[j]).binary, windows) != path_view(binary@, windows),
        decreases found@.len() - i,
    {
        assert(all[i as int] == found@[i as int]@);
        if same_path(found[i].binary.as_str(), binary, windows) {
            return true;
        }
        i += 1;
    }
    false
}

/// The installations in the places looked at; see [`installations_in`].
pub fn collect_installations(candidates: &Vec<Candidate>, windows: bool) -> (r: Vec<RInstallation>)
    ensures
        installation_views(r@) == installations_in(candidate_views(candidates@), windows),
{
    let ghost all = candidate_views(candidates@);
    let mut found: Vec<RInstallation> = Vec::new();
    let mut i: usize = 0;
    assert(all.take(0) == Seq::<CandidateView>::empty());
    assert(installation_views(found@) == Seq::<InstallationView>::empty());
    while i < candidates.len()
        invariant
            i <= candidates@.len(),
            all == candidate_views(candidates@),
            installation_views(found@) == installations_in(all.take(i as int), windows),
        decreases candidates@.len() - i,
    {
        proof {
            assert(all[i as int] == candidates@[i as int]@);
            assert(all.take(i + 1).drop_last() == all.take(i as int));
        }
        let ghost before = found@;
        match &candidates[i] {
            Candidate::Managed { binary, version } => {
                found.push(
                    RInstallation {
                        binary: binary.as_str().to_owned(),
                        version: version.as_str().to_owned(),
                        managed: true,
                    },
                );
                assert(installation_views(found@) == installation_views(before).push(found@[before.len() as int]@));
            },
            Candidate::Program { binary, version } => {
                if let Some(v) = version {
                    if !is_among(&found, binary.as_str(), windows) {
                        found.push(
                            RInstallation {
                                binary: binary.as_str().to_owned(),
                                version: v.as_str().to_owned(),
                                managed: false,
                            },
                        );
                        assert(installation_views(found@) == installation_views(before).push(
                            found@[before.len() as int]@,
                        ));
                    }
                }
            },
        }
        i += 1;
    }
    assert(all.take(i as int) == all);
    found
}

/// The first installation of the version at or after position `i`, or the length.
pub open spec fn find_version(s: Seq<InstallationView>, version: Seq<char>, i: int) -> int
    decreases s.len() - i,
{
    if i >= s.len() {
        s.len() as int
    } else if s[i].version == version {
        i
    } else {
        find_version(s, version, i + 1)
    }
}

fn position_of(installations: &Vec<RInstallation>, version: &str) -> (r: usize)
    ensures
        r == find_version(installation_views(installations@), version@, 0),
        r <= installations@.len(),
{
    let ghost all = installation_views(installations@);
    let mut i: usize = 0;
    while i < installations.len() && !same_str(installations[i].version.as_str(), version)
        invariant
            i <= installations@.len(),
            all == installation_views(installations@),
            find_version(all, version@, 0) == find_version(all, version@, i as int),
        decreases installations@.len() - i,
    {
        assert(all[i as int] == installations@[i as int]@);
        i += 1;
    }
    proof {
        if i < all.len() {
            assert(all[i as int] == installations@[i as int]@);
        }
    }
    i
}

/// The installation of exactly the version that is pinned.
pub open spec fn exact_version(s: Seq<InstallationView>, version: Seq<char>) -> Result<Seq<char>, ErrorView> {
    let k = find_version(s, version, 0);
    if k < s.len() {
        Ok(s[k].binary)
    } else {
        Err(
            ErrorView::Other(
                "R "@ + version + " is pinned in .r-version but not installed. Run: uvr r install "@ + version,
            ),
        )
    }
}

/// The installation of exactly the version that is pinned; see [`exact_version`].
pub fn find_exact_version(installations: &Vec<RInstallation>, version: &str) -> (r: Result<String, UvrError>)
    ensures
        outcome(r) == exact_version(installation_views(installations@), version@),
{
    let k: usize = position_of(installations, version);
    if k < installations.len() {
        assert(installation_views(installations@)[k as int] == installations@[k as int]@);
        Ok(installations[k].binary.as_str().to_owned())
    } else {
        Err(
            UvrError::Other(
                "R ".to_owned().concat(version).concat(
                    " is pinned in .r-version but not installed. Run: uvr r install ",
                ).concat(version),
            ),
        )
    }
}

/// The same as [`find_exact_version`].
pub fn test_find_exact(installations: &Vec<RInstallation>, version: &str) -> (r: Result<String, UvrError>)
    ensures
        outcome(r) == exact_version(installation_views(installations@), version@),
{
    find_exact_version(installations, version)
}

/// The installation of a version, or what is said where it is not installed.
pub fn binary_for_version(installations: &Vec<RInstallation>, version: &str) -> (r: Result<String, UvrError>)
    ensures
        ({
            let s = installation_views(installations@);
            let k = find_version(s, version@, 0);
            if k < s.len() {
                r matches Ok(b) && b@ == s[k].binary
            } else {
                r matches Err(e) && e@ == ErrorView::Other("R "@ + version@ + " is not installed"@)
            }
        }),
{
    let k: usize = position_of(installations, version);
    if k < installations.len() {
        assert(installation_views(installations@)[k as int] == installations@[k as int]@);
        Ok(installations[k].binary.as_str().to_owned())
    } else {
        Err(UvrError::Other("R ".to_owned().concat(version).concat(" is not installed")))
    }
}

/// A version that was read satisfies a requirement.
pub open spec fn read_satisfies(req: Seq<char>, version: Result<VersionView, Seq<char>>) -> bool {
    match version {
        Ok(v) => satisfies(v, req),
        Err(_) => false,
    }
}

/// Whether a version that was read satisfies a requirement.
pub fn version_satisfies(req: &VersionReq, version: Result<Version, String>) -> (r: bool)
    ensures
        r == read_satisfies(req@, parsed_view(version)),
{
    match version {
        Ok(v) => req.matches(&v),
        Err(_) => false,
    }
}

/// The first installation at or after position `i` that satisfies a requirement, or
/// the length.
pub open spec fn find_satisfying(s: Seq<InstallationView>, req: Seq<char>, i: int) -> int
    decreases s.len() - i,
{
    if i >= s.len() {
        s.len() as int
    } else if read_satisfies(req, semver_version(normal_version(s[i].version))) {
        i
    } else {
        find_satisfying(s, req, i + 1)
    }
}

/// The versions of the installations, separated by commas; `none` where this is
/// nothing.
pub open spec fn installed_text(s: Seq<InstallationView>) -> Seq<char> {
    let t = join(s.map_values(|i: InstallationView| i.version), ", "@);
    if t.len() == 0 {
        "none"@
    } else {
        t
    }
}

fn installed_list(installations: &Vec<RInstallation>) -> (r: String)
    ensures
        r@ == installed_text(installation_views(installations@)),
{
    let ghost all = installation_views(installations@).map_values(|i: InstallationView| i.version);
    let mut names: Vec<String> = Vec::new();
    let mut i: usize = 0;
    assert(views(names@) == all.take(0));
    while i < installations.len()
        invariant
            i <= installations@.len(),
            all == installation_views(installations@).map_values(|i: InstallationView| i.version),
            views(names@) == all.take(i as int),
        decreases installations@.len() - i,
    {
        let ghost before = names@;
        names.push(installations[i].version.as_str().to_owned());
        proof {
            assert(installation_views(installations@)[i as int] == installations@[i as int]@);
            assert(all[i as int] == installations@[i as int].version@);
            assert(views(names@) == views(before).push(all[i as int]));
            assert(all.take(i + 1) == all.take(i as int).push(all[i as int]));
        }
        i += 1;
    }
    assert(all.take(i as int) == all);
    let text = join_strings(&names, ", ");
    let letters = chars_of(text.as_str());
    if letters.len() == 0 {
        "none".to_owned()
    } else {
        text
    }
}

/// The numbers in a version, without the parts that are none.
pub open spec fn version_numbers(parts: Seq<Seq<char>>) -> Seq<u32>
    decreases parts.len(),
{
    if parts.len() == 0 {
        seq![]
    } else {
        let front = version_numbers(parts.drop_last());
        match parse_number(parts.last(), u32::MAX as nat) {
            Some(n) => front.push(n as u32),
            None => front,
        }
    }
}

fn numbers_in(version: &str) -> (r: Vec<u32>)
    ensures
        r@ == version_numbers(split(version@, '.')),
{
    let cs = chars_of(version);
    let ps = pieces(cs.as_slice(), '.');
    let ghost all = split(version@, '.');
    let mut out: Vec<u32> = Vec::new();
    let mut i: usize = 0;
    assert(all.take(0) == Seq::<Seq<char>>::empty());
    while i < ps.len()
        invariant
            i <= ps@.len(),
            slice_views(ps@) == all,
            out@ == version_numbers(all.take(i as int)),
        decreases ps@.len() - i,
    {
        proof {
            assert(slice_views(ps@)[i as int] == ps@[i as int]@);
            assert(all.take(i + 1).drop_last() == all.take(i as int));
        }
        if let Some(n) = read_number(ps[i], u32::MAX as u64) {
            out.push(n as u32);
        }
        i += 1;
    }
    assert(all.take(i as int) == all);
    out
}

/// `a` is an installation of a newer version than `b`.
pub open spec fn newer(a: InstallationView, b: InstallationView) -> bool {
    numbers_before(version_numbers(split(b.version, '.')), version_numbers(split(a.version, '.')))
}

fn is_newer(a: &RInstallation, b: &RInstallation) -> (r: bool)
    ensures
        r == newer(a@, b@),
{
    are_before(&numbers_in(b.version.as_str()), &numbers_in(a.version.as_str()))
}

fn newest_first(items: Vec<RInstallation>) -> (r: Vec<RInstallation>)
    ensures
        installation_views(r@) == sorted_by(
            installation_views(items@),
            |a: InstallationView, b: InstallationView| newer(a, b),
        ),
{
    let ghost all = installation_views(items@);
    let ghost before = |a: InstallationView, b: InstallationView| newer(a, b);
    let mut rest: Vec<RInstallation> = items;
    let mut out: Vec<RInstallation> = Vec::new();
    proof {
        assert(all.skip(all.len() as int) == Seq::<InstallationView>::empty());
        assert(installation_views(out@) == Seq::<InstallationView>::empty());
        assert(installation_views(rest@) == all.take(all.len() as int));
    }
    while rest.len() > 0
        invariant
            before == (|a: InstallationView, b: InstallationView| newer(a, b)),
            rest@.len() <= all.len(),
            installation_views(rest@) == all.take(rest@.len() as int),
            installation_views(out@) == sorted_by(all.skip(rest@.len() as int), before),
        decreases rest@.len(),
    {
        let ghost n = rest@.len() as int;
        let ghost whole = rest@;
        match rest.pop() {
            Some(x) => {
                let ghost o = installation_views(out@);
                let mut i: usize = 0;
                while i < out.len() && is_newer(&out[i], &x)
                    invariant
                        i <= out@.len(),
                        o == installation_views(out@),
                        before == (|a: InstallationView, b: InstallationView| newer(a, b)),
                        slot_by(o, x@, before, 0) == slot_by(o, x@, before, i as int),
                    decreases out@.len() - i,
                {
                    assert(o[i as int] == out@[i as int]@);
                    i += 1;
                }
                proof {
                    if i < o.len() {
                        assert(o[i as int] == out@[i as int]@);
                    }
                    let s = all.skip(n - 1);
                    assert(installation_views(whole)[n - 1] == x@);
                    assert(s[0] == x@);
                    assert(s.drop_first() == all.skip(n));
                    assert(installation_views(rest@) == all.take(n - 1)) by {
                        assert(installation_views(rest@) == installation_views(whole).drop_last());
                    }
                }
                let ghost prev = out@;
                out.insert(i, x);
                assert(installation_views(out@) == installation_views(prev).insert(i as int, x@));
            },
            None => {},
        }
    }
    assert(all.skip(0) == all);
    out
}

/// The installations that were, or were not, installed by this tool.
pub open spec fn of_kind(s: Seq<InstallationView>, managed: bool) -> Seq<InstallationView> {
    s.filter(|i: InstallationView| i.managed == managed)
}

fn select(installations: &Vec<RInstallation>, managed: bool) -> (r: Vec<RInstallation>)
    ensures
        installation_views(r@) == of_kind(installation_views(installations@), managed),
{
    let ghost all = installation_views(installations@);
    let ghost keep = |i: InstallationView| i.managed == managed;
    let mut out: Vec<RInstallation> = Vec::new();
    let mut i: usize = 0;
    proof {
        reveal(Seq::filter);
        assert(all.take(0).filter(keep) == Seq::<InstallationView>::empty());
        assert(installation_views(out@) == Seq::<InstallationView>::empty());
    }
    while i < installations.len()
        invariant
            i <= installations@.len(),
            all == installation_views(installations@),
            keep == (|i: InstallationView| i.managed == managed),
            installation_views(out@) == all.take(i as int).filter(keep),
        decreases installations@.len() - i,
    {
        proof {
            reveal(Seq::filter);
            assert(all[i as int] == installations@[i as int]@);
            assert(all.take(i + 1).drop_last() == all.take(i as int));
        }
        if installations[i].managed == managed {
            let ghost before = out@;
            out.push(installations[i].copy());
            assert(installation_views(out@) == installation_views(before).push(all[i as int]));
        }
        i += 1;
    }
    assert(all.take(i as int) == all);
    out
}

/// The installations in the order in which they are tried: those of this tool before
/// the others, and newer ones before older ones.
pub open spec fn tried_order(s: Seq<InstallationView>) -> Seq<InstallationView> {
    let before = |a: InstallationView, b: InstallationView| newer(a, b);
    sorted_by(of_kind(s, true), before) + sorted_by(of_kind(s, false), before)
}

/// What is done to get a program of R.
#[derive(Debug)]
pub enum BinaryChoice {
    /// It is this one.
    Use(String),
    /// It is the first of these that runs.
    TryInOrder(Vec<String>),
}

pub open spec fn binaries(s: Seq<InstallationView>) -> Seq<Seq<char>> {
    s.map_values(|i: InstallationView| i.binary)
}

fn binaries_of(items: &Vec<RInstallation>, out: &mut Vec<String>)
    ensures
        views(final(out)@) == views(old(out)@) + binaries(installation_views(items@)),
{
    let ghost start = views(out@);
    let ghost all = binaries(installation_views(items@));
    let mut i: usize = 0;
    assert(views(out@) == start + all.take(0));
    while i < items.len()
        invariant
            i <= items@.len(),
            all == binaries(installation_views(items@)),
            views(out@) == start + all.take(i as int),
        decreases items@.len() - i,
    {
        let ghost before = out@;
        out.push(items[i].binary.as_str().to_owned());
        proof {
            assert(installation_views(items@)[i as int] == items@[i as int]@);
            assert(all[i as int] == items@[i as int].binary@);
            assert(views(out@) == views(before).push(all[i as int]));
            assert(all.take(i + 1) == all.take(i as int).push(all[i as int]));
        }
        i += 1;
    }
    assert(all.take(i as int) == all);
}

/// The program of R to use under a requirement that has been read.
pub open spec fn satisfying(s: Seq<InstallationView>, constraint: Seq<char>, req: Result<Seq<char>, ErrorView>) -> Result<
    Seq<char>,
    ErrorView,
> {
    match req {
        Err(e) => Err(e),
        Ok(q) => {
            let k = find_satisfying(s, q, 0);
            if k < s.len() {
                Ok(s[k].binary)
            } else {
                Err(ErrorView::RVersionUnsatisfied { constraint, installed: installed_text(s) })
            }
        },
    }
}

/// The program of R to use: the version that is pinned, else the first that satisfies
/// the requirement, else the first that runs. Without installations there is none.
pub fn choose_r_binary(
    installations: &Vec<RInstallation>,
    pinned: Option<&str>,
    version_constraint: Option<&str>,
) -> (r: Result<BinaryChoice, UvrError>)
    ensures
        ({
            let s = installation_views(installations@);
            if s.len() == 0 {
                r matches Err(e) && e@ == ErrorView::RNotFound
            } else if pinned is Some {
                match exact_version(s, pinned->0@) {
                    Ok(b) => r matches Ok(BinaryChoice::Use(p)) && p@ == b,
                    Err(f) => r matches Err(e) && e@ == f,
                }
            } else if version_constraint is Some {
                let c = version_constraint->0@;
                match satisfying(s, c, requirement(c)) {
                    Ok(b) => r matches Ok(BinaryChoice::Use(p)) && p@ == b,
                    Err(f) => r matches Err(e) && e@ == f,
                }
            } else {
                r matches Ok(BinaryChoice::TryInOrder(v)) && views(v@) == binaries(tried_order(s))
            }
        }),
{
    if installations.len() == 0 {
        return Err(UvrError::RNotFound);
    }
    if let Some(version) = pinned {
        return match find_exact_version(installations, version) {
            Ok(b) => Ok(BinaryChoice::Use(b)),
            Err(e) => Err(e),
        };
    }
    if let Some(constraint) = version_constraint {
        let req = match parse_version_req(constraint) {
            Ok(q) => q,
            Err(e) => {
                return Err(e);
            },
        };
        let ghost all = installation_views(installations@);
        let mut i: usize = 0;
        while i < installations.len()
            invariant
                i <= installations@.len(),
                all == installation_views(installations@),
                find_satisfying(all, req@, 0) == find_satisfying(all, req@, i as int),
                all.len() > 0,
                pinned is None,
                version_constraint == Some(constraint),
                requirement(constraint@) == Ok::<Seq<char>, ErrorView>(req@),
            decreases installations@.len() - i,
        {
            assert(all[i as int] == installations@[i as int]@);
            let normal = normalize_version(installations[i].version.as_str());
            let version = Version::parse(normal.as_str());
            if version_satisfies(&req, version) {
                return Ok(BinaryChoice::Use(installations[i].binary.as_str().to_owned()));
            }
            i += 1;
        }
        return Err(
            UvrError::RVersionUnsatisfied {
                constraint: constraint.to_owned(),
                installed: installed_list(installations),
            },
        );
    }
    let managed = newest_first(select(installations, true));
    let system = newest_first(select(installations, false));
    let mut order: Vec<String> = Vec::new();
    assert(views(order@) == Seq::<Seq<char>>::empty());
    binaries_of(&managed, &mut order);
    binaries_of(&system, &mut order);
    proof {
        let s = installation_views(installations@);
        assert(views(order@) =~= binaries(tried_order(s)));
    }
    Ok(BinaryChoice::TryInOrder(order))
}

/// A line that is a version: digits and dots, with at least one dot.
pub open spec fn is_version_line(t: Seq<char>) -> bool {
    &&& t.contains('.')
    &&& forall|i: int| 0 <= i < t.len() ==> is_digit(#[trigger] t[i]) || t[i] == '.'
}

fn line_is_version(t: &[char]) -> (r: bool)
    ensures
        r == is_version_line(t@),
{
    if !has_char(t, '.') {
        return false;
    }
    let n: usize = t.len();
    let mut i: usize = 0;
    while i < n
        invariant
            i <= n,
            n == t@.len(),
            forall|j: int| 0 <= j < i ==> is_digit(#[trigger] t@[j]) || t@[j] == '.',
        decreases n - i,
    {
        if !char_is_digit(t[i]) && t[i] != '.' {
            return false;
        }
        i += 1;
    }
    true
}

/// The last of the lines before position `j` that is a version.
pub open spec fn last_version_line(ls: Seq<Seq<char>>, j: int) -> Option<Seq<char>>
    decreases j,
{
    if j <= 0 {
        None
    } else if is_version_line(trim(ls[j - 1])) {
        Some(trim(ls[j - 1]))
    } else {
        last_version_line(ls, j - 1)
    }
}

/// The version in what R printed: R may print warnings before it.
pub fn version_in_output(stdout: &str) -> (r: Option<String>)
    ensures
        opt_view(r) == last_version_line(lines(stdout@), lines(stdout@).len() as int),
{
    let cs = chars_of(stdout);
    let ls = lines_of(cs.as_slice());
    let ghost all = lines(stdout@);
    let mut j: usize = ls.len();
    while j > 0
        invariant
            j <= ls@.len(),
            slice_views(ls@) == all,
            all == lines(stdout@),
            last_version_line(all, all.len() as int) == last_version_line(all, j as int),
        decreases j,
    {
        assert(slice_views(ls@)[j - 1] == ls@[j - 1]@);
        let t = trimmed(ls[j - 1]);
        if line_is_version(t) {
            return Some(string_of(t));
        }
        j -= 1;
    }
    None
}

/// Installations of this tool are tried first, and among those of one kind none is
/// tried before a newer one.
pub proof fn managed_and_newer_come_first(s: Seq<InstallationView>)
    ensures
        ({
            let m = of_kind(s, true).len();
            let t = tried_order(s);
            &&& forall|i: int| 0 <= i < m ==> (#[trigger] t[i]).managed
            &&& forall|i: int| m <= i < t.len() ==> !(#[trigger] t[i]).managed
            &&& forall|i: int, j: int| 0 <= i < j < m ==> !newer(#[trigger] t[j], #[trigger] t[i])
            &&& forall|i: int, j: int| m <= i < j < t.len() ==> !newer(#[trigger] t[j], #[trigger] t[i])
        }),
{
    broadcast use vstd::seq_lib::group_to_multiset_ensures;

    let before = |a: InstallationView, b: InstallationView| newer(a, b);
    assert(is_weak_order(before)) by {
        assert forall|a: InstallationView, b: InstallationView| #[trigger] before(a, b) implies !before(b, a) by {
            lemma_newer(a, b, a);
        }
        assert forall|a: InstallationView, b: InstallationView, c: InstallationView|
            before(a, b) && #[trigger] before(b, c) implies #[trigger] before(a, c) by {
            lemma_newer(a, b, c);
        }
        assert forall|a: InstallationView, b: InstallationView, c: InstallationView|
            !before(a, b) && !(#[trigger] before(b, c)) implies !(#[trigger] before(a, c)) by {
            lemma_newer(a, b, c);
        }
    }
    let a = of_kind(s, true);
    let b = of_kind(s, false);
    sorted_by_is_sorted(a, before);
    sorted_by_is_sorted(b, before);
    let x = sorted_by(a, before);
    let y = sorted_by(b, before);
    let t = tried_order(s);
    assert(t == x + y);
    lemma_kind_holds(s, true);
    lemma_kind_holds(s, false);
    assert forall|i: int| 0 <= i < x.len() implies (#[trigger] t[i]).managed by {
        assert(x.to_multiset().contains(x[i]));
        assert(a.contains(x[i]));
    }
    assert forall|i: int| x.len() <= i < t.len() implies !(#[trigger] t[i]).managed by {
        assert(y.to_multiset().contains(y[i - x.len()]));
        assert(b.contains(y[i - x.len()]));
    }
    assert forall|i: int, j: int| 0 <= i < j < x.len() implies !newer(#[trigger] t[j], #[trigger] t[i]) by {
        assert(!before(x[j], x[i]));
    }
    assert forall|i: int, j: int| x.len() <= i < j < t.len() implies !newer(#[trigger] t[j], #[trigger] t[i]) by {
        assert(!before(y[j - x.len()], y[i - x.len()]));
    }
}

proof fn lemma_kind_holds(s: Seq<InstallationView>, managed: bool)
    ensures
        forall|i: int| 0 <= i < of_kind(s, managed).len() ==> (#[trigger] of_kind(s, managed)[i]).managed == managed,
    decreases s.len(),
{
    reveal(Seq::filter);
    if s.len() > 0 {
        lemma_kind_holds(s.drop_last(), managed);
    }
}

proof fn lemma_newer(a: InstallationView, b: InstallationView, c: InstallationView)
    ensures
        newer(a, b) ==> !newer(b, a),
        newer(a, b) && newer(b, c) ==> newer(a, c),
        !newer(a, b) && !newer(b, c) ==> !newer(a, c),
{
    let x = version_numbers(split(a.version, '.'));
    let y = version_numbers(split(b.version, '.'));
    let z = version_numbers(split(c.version, '.'));
    numbers_are_ordered(y, x, y);
    numbers_are_ordered(z, y, x);
    numbers_are_ordered(x, y, x);
}

} // verus!
