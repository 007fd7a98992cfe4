//! Which releases of R are offered, and which R of a machine is used.
use vstd::prelude::*;

use super::detector::{
    exact_version, find_satisfying, find_version, has_binary, installations_in, is_version_line,
    last_version_line, newer, of_kind, read_satisfies, satisfying, tried_order, version_numbers,
    CandidateView, InstallationView,
};
use super::host::{is_published, r_numbers, Platform};
use super::install::{
    archive_address, home_line, home_set, is_withheld, line_end, next, patched_wrapper, sets_home,
    shell_word, ActionView, EventView, JobView, PhaseView,
};
use super::openmp::original_profile;
use super::published::{
    channels, has_parts, index_labels, is_full_version, is_release_for, is_version_shaped,
    last_with_parts, present, release_rank, released_before, releases, without_repeats,
};
use super::search::{after_look, DEEPEST};
use crate::error::ErrorView;
use crate::order::{
    is_weak_order, numbers_are_ordered, numbers_before, numbers_before_from, sorted_by,
    sorted_by_is_sorted,
};
use crate::paths::path_view;
use crate::resolver::requirement::normal_version;
use crate::text::{
    all_digits, decimal, decimal_is_read_back, decimal_parses, find_char, is_digit, is_whitespace,
    skip_space, split, starts_with, trim, trim_start,
};
use crate::text_laws::{
    is_blank, joined_of_both, nothing_is_left_of_space, pieces_make_the_text, pieces_of_both,
    plain_text_is_one_piece,
};
use crate::version::{satisfies, semver_version, VersionView};

verus! {

/// A number: digits and nothing else, at least one.
pub open spec fn is_number(p: Seq<char>) -> bool {
    p.len() > 0 && all_digits(p)
}

proof fn lemma_number_is_plain(p: Seq<char>)
    requires
        is_number(p),
    ensures
        !p.contains('.'),
{
    if p.contains('.') {
        let i = choose|i: int| 0 <= i < p.len() && p[i] == '.';
        assert(is_digit(p[i]));
    }
}

/// Numbers with dots between them are a full version if they are three or four, and have
/// the shape of one also if they are two.
pub proof fn versions_are_numbers(a: Seq<char>, b: Seq<char>, c: Seq<char>, d: Seq<char>, e: Seq<char>)
    requires
        is_number(a),
        is_number(b),
        is_number(c),
        is_number(d),
    ensures
        ({
            let two = a + seq!['.'] + b;
            let three = two + seq!['.'] + c;
            let four = three + seq!['.'] + d;
            &&& !is_full_version(a) && !is_version_shaped(a)
            &&& !is_full_version(two) && is_version_shaped(two)
            &&& is_full_version(three) && is_version_shaped(three)
            &&& is_full_version(four) && is_version_shaped(four)
            &&& !is_full_version(four + seq!['.'] + e) && !is_version_shaped(four + seq!['.'] + e)
        }),
{
    let two = a + seq!['.'] + b;
    let three = two + seq!['.'] + c;
    let four = three + seq!['.'] + d;
    lemma_number_is_plain(a);
    lemma_number_is_plain(b);
    lemma_number_is_plain(c);
    lemma_number_is_plain(d);
    plain_text_is_one_piece(a, '.');
    plain_text_is_one_piece(b, '.');
    plain_text_is_one_piece(c, '.');
    plain_text_is_one_piece(d, '.');
    pieces_of_both(a, b, '.');
    pieces_of_both(two, c, '.');
    pieces_of_both(three, d, '.');
    pieces_of_both(four, e, '.');
    pieces_make_the_text(e, '.');
    assert(split(two, '.') == seq![a, b]);
    assert(split(three, '.') == seq![a, b, c]);
    assert(split(four, '.') == seq![a, b, c, d]);
}

/// A text with a part that is no number is no version, full or not.
pub proof fn other_texts_are_no_versions(s: Seq<char>, i: int)
    requires
        0 <= i < split(s, '.').len(),
        !is_number(split(s, '.')[i]),
    ensures
        !is_full_version(s),
        !is_version_shaped(s),
{
    if is_version_shaped(s) {
        assert(split(s, '.')[i].len() > 0 && all_digits(split(s, '.')[i]));
    }
}

/// A version has the parts of a prefix if and only if it is the prefix, or the prefix, a
/// dot and more.
pub proof fn prefixes_end_at_dots(prefix: Seq<char>, version: Seq<char>, rest: Seq<char>)
    ensures
        has_parts(prefix, prefix),
        has_parts(prefix, prefix + seq!['.'] + rest),
        has_parts(prefix, version) ==> version == prefix || starts_with(version, prefix + seq!['.']),
{
    let p = split(prefix, '.');
    let v = split(version, '.');
    pieces_of_both(prefix, rest, '.');
    pieces_make_the_text(prefix, '.');
    pieces_make_the_text(version, '.');
    if has_parts(prefix, version) {
        if p.len() < v.len() {
            let tail = v.skip(p.len() as int);
            assert(v == p + tail);
            joined_of_both(p, tail, seq!['.']);
            let head = prefix + seq!['.'];
            assert(version.subrange(0, head.len() as int) == head);
        } else {
            assert(v == p);
        }
    }
}

proof fn lemma_last_with_parts(available: Seq<Seq<char>>, prefix: Seq<char>, j: int)
    requires
        0 <= j <= available.len(),
    ensures
        match last_with_parts(available, prefix, j) {
            Some(v) => exists|i: int|
                0 <= i < j && #[trigger] available[i] == v && has_parts(prefix, v) && (forall|k: int|
                    i < k < j ==> !has_parts(prefix, #[trigger] available[k])),
            None => forall|k: int| 0 <= k < j ==> !has_parts(prefix, #[trigger] available[k]),
        },
    decreases j,
{
    if j > 0 && !has_parts(prefix, available[j - 1]) {
        lemma_last_with_parts(available, prefix, j - 1);
        if let Some(v) = last_with_parts(available, prefix, j - 1) {
            let i = choose|i: int|
                0 <= i < j - 1 && #[trigger] available[i] == v && has_parts(prefix, v) && (forall|k: int|
                    i < k < j - 1 ==> !has_parts(prefix, #[trigger] available[k]));
            assert(available[i] == v);
        }
    } else if j > 0 {
        assert(available[j - 1] == available[j - 1]);
    }
}

/// The last of the versions with the parts asked for is picked, and none only where no
/// version has them.
pub proof fn last_with_the_parts_is_picked(available: Seq<Seq<char>>, prefix: Seq<char>)
    ensures
        match last_with_parts(available, prefix, available.len() as int) {
            Some(v) => exists|i: int|
                0 <= i < available.len() && #[trigger] available[i] == v && has_parts(prefix, v) && (forall|k: int|
                    i < k < available.len() ==> !has_parts(prefix, #[trigger] available[k])),
            None => forall|k: int| 0 <= k < available.len() ==> !has_parts(prefix, #[trigger] available[k]),
        },
{
    lemma_last_with_parts(available, prefix, available.len() as int);
}

proof fn lemma_before_three(a: Seq<u32>, b: Seq<u32>)
    requires
        a.len() == 3,
        b.len() == 3,
    ensures
        numbers_before(a, b) <==> a[0] < b[0] || (a[0] == b[0] && (a[1] < b[1] || (a[1] == b[1] && a[2] < b[2]))),
{
    reveal_with_fuel(numbers_before_from, 4);
}

/// A release is before another if its first number is smaller, or, among equal ones, the
/// second, or then the third; numbers are compared as numbers.
pub proof fn releases_are_ordered_by_numbers(v: Seq<char>, w: Seq<char>)
    requires
        r_numbers(v) is Some,
        r_numbers(w) is Some,
    ensures
        ({
            let (a, b, c) = r_numbers(v)->0;
            let (x, y, z) = r_numbers(w)->0;
            released_before(v, w) <==> a < x || (a == x && (b < y || (b == y && c < z)))
        }),
{
    let (a, b, c) = r_numbers(v)->0;
    let (x, y, z) = r_numbers(w)->0;
    assert(a <= u32::MAX && b <= u32::MAX && c <= u32::MAX);
    assert(x <= u32::MAX && y <= u32::MAX && z <= u32::MAX);
    lemma_before_three(release_rank(v), release_rank(w));
}

#[verifier::rlimit(40)]
proof fn lemma_repeats_keep_all(s: Seq<Seq<char>>, x: Seq<char>)
    ensures
        without_repeats(s).contains(x) <==> s.contains(x),
    decreases s.len(),
{
    if s.len() > 0 {
        let front = s.drop_last();
        let last = s.last();
        lemma_repeats_keep_all(front, x);
        let w = without_repeats(front);
        if front.contains(x) {
            let i = choose|i: int| 0 <= i < front.len() && front[i] == x;
            assert(s[i] == x);
        }
        if s.contains(x) && x != last {
            let i = choose|i: int| 0 <= i < s.len() && s[i] == x;
            assert(front[i] == x);
        }
        if s.len() > 1 && s[s.len() - 2] == last {
            assert(front[s.len() - 2] == last);
            lemma_repeats_keep_all(front, last);
        } else {
            assert(w.push(last)[w.len() as int] == last);
            if w.contains(x) {
                let i = choose|i: int| 0 <= i < w.len() && w[i] == x;
                assert(w.push(last)[i] == x);
            }
            if w.push(last).contains(x) && x != last {
                let i = choose|i: int| 0 <= i < w.push(last).len() && w.push(last)[i] == x;
                assert(w[i] == x);
            }
        }
        assert(s[s.len() - 1] == last);
    }
}

#[verifier::rlimit(40)]
proof fn lemma_filter_contains<T>(s: Seq<T>, f: spec_fn(T) -> bool, x: T)
    ensures
        s.filter(f).contains(x) <==> s.contains(x) && f(x),
    decreases s.len(),
{
    reveal(Seq::filter);
    if s.len() > 0 {
        let front = s.drop_last();
        let last = s.last();
        lemma_filter_contains(front, f, x);
        let w = front.filter(f);
        if front.contains(x) {
            let i = choose|i: int| 0 <= i < front.len() && front[i] == x;
            assert(s[i] == x);
        }
        if s.contains(x) && x != last {
            let i = choose|i: int| 0 <= i < s.len() && s[i] == x;
            assert(front[i] == x);
        }
        assert(s[s.len() - 1] == last);
        assert(w.push(last)[w.len() as int] == last);
        if w.contains(x) {
            let i = choose|i: int| 0 <= i < w.len() && w[i] == x;
            assert(w.push(last)[i] == x);
        }
        if w.push(last).contains(x) && x != last {
            let i = choose|i: int| 0 <= i < w.push(last).len() && w.push(last)[i] == x;
            assert(w[i] == x);
        }
    }
}

proof fn lemma_released_before_is_order()
    ensures
        is_weak_order(|a: Seq<char>, b: Seq<char>| released_before(a, b)),
{
    let before = |a: Seq<char>, b: Seq<char>| released_before(a, b);
    assert forall|a: Seq<char>, b: Seq<char>| #[trigger] before(a, b) implies !before(b, a) by {
        numbers_are_ordered(release_rank(a), release_rank(b), release_rank(a));
    }
    assert forall|a: Seq<char>, b: Seq<char>, c: Seq<char>| before(a, b) && #[trigger] before(b, c) implies #[trigger] before(a, c) by {
        numbers_are_ordered(release_rank(a), release_rank(b), release_rank(c));
    }
    assert forall|a: Seq<char>, b: Seq<char>, c: Seq<char>| !before(a, b) && !(#[trigger] before(b, c)) implies !(#[trigger] before(a, c)) by {
        numbers_are_ordered(release_rank(a), release_rank(b), release_rank(c));
    }
}

/// The releases offered are the labels that are full versions published for the platform,
/// all of them and no others.
pub proof fn published_labels_are_offered(labels: Seq<Seq<char>>, p: Platform, l: Seq<char>)
    ensures
        releases(labels, p).contains(l) <==> labels.contains(l) && is_full_version(l) && (r_numbers(l) matches Some((a, b, c))
            && is_published(p, (a as u32, b as u32, c as u32))),
{
    broadcast use vstd::seq_lib::group_to_multiset_ensures;

    let f = |l: Seq<char>| is_release_for(l, p);
    let before = |a: Seq<char>, b: Seq<char>| released_before(a, b);
    let kept = labels.filter(f);
    lemma_filter_contains(labels, f, l);
    lemma_released_before_is_order();
    sorted_by_is_sorted(kept, before);
    let s = sorted_by(kept, before);
    assert(s.contains(l) <==> s.to_multiset().contains(l));
    assert(kept.contains(l) <==> kept.to_multiset().contains(l));
    lemma_repeats_keep_all(s, l);
}

/// The channels offered are those among the labels, each once.
pub proof fn channels_are_offered(labels: Seq<Seq<char>>)
    ensures
        channels(labels).contains("devel"@) <==> labels.contains("devel"@),
        channels(labels).contains("next"@) <==> labels.contains("next"@),
        channels(labels).no_duplicates(),
        forall|c: Seq<char>| #[trigger] channels(labels).contains(c) ==> c == "devel"@ || c == "next"@,
{
    reveal_strlit("devel");
    reveal_strlit("next");
    assert("devel"@.len() != "next"@.len());
    let c = channels(labels);
    if labels.contains("devel"@) {
        assert(c[0] == "devel"@);
    }
    if labels.contains("next"@) {
        assert(c.last() == "next"@);
    }
}

/// Of the labels of an index those that are texts are taken, in their order.
pub proof fn texts_of_an_index_are_taken(s: Seq<Option<Seq<char>>>, t: Seq<char>, why: Seq<char>)
    ensures
        present(s.push(Some(t))) == present(s).push(t),
        present(s.push(None)) == present(s),
        present(Seq::<Option<Seq<char>>>::empty()).len() == 0,
        index_labels(Ok(Some(s))) == Ok::<Seq<Seq<char>>, ErrorView>(present(s)),
        index_labels(Ok(None)) is Err,
        index_labels(Err(why)) is Err,
{
    assert(s.push(Some(t)).drop_last() == s);
    assert(s.push(None).drop_last() == s);
}

/// Every managed R is among the installations, and every other program whose version is
/// known is, by its own path or by one that is the same.
#[verifier::rlimit(40)]
pub proof fn every_r_is_noticed(c: Seq<CandidateView>, windows: bool, i: int)
    requires
        0 <= i < c.len(),
    ensures
        c[i] matches CandidateView::Managed { binary, version } ==> installations_in(c, windows).contains(
            InstallationView { binary, version, managed: true },
        ),
        c[i] matches CandidateView::Program { binary, version } ==> (version is Some ==> has_binary(
            installations_in(c, windows),
            binary,
            windows,
        )),
    decreases c.len(),
{
    let front = installations_in(c.drop_last(), windows);
    let all = installations_in(c, windows);
    assert forall|x: InstallationView| front.contains(x) implies #[trigger] all.contains(x) by {
        let k = choose|k: int| 0 <= k < front.len() && front[k] == x;
        assert(all[k] == x);
    }
    if i < c.len() - 1 {
        assert(c.drop_last()[i] == c[i]);
        every_r_is_noticed(c.drop_last(), windows, i);
        if let CandidateView::Program { binary, version } = c[i] {
            if version is Some {
                let k = choose|k: int| 0 <= k < front.len() && path_view((#[trigger] front[k]).binary, windows) == path_view(binary, windows);
                assert(all[k] == front[k]);
            }
        }
    } else {
        match c[i] {
            CandidateView::Managed { binary, version } => {
                assert(all[front.len() as int] == InstallationView { binary, version, managed: true });
            },
            CandidateView::Program { binary, version } => {
                if version is Some && !has_binary(front, binary, windows) {
                    assert(all[front.len() as int].binary == binary);
                }
            },
        }
    }
}

/// A program that is not managed is noted once: none before it has the same path. The
/// installations found first stay in front.
pub proof fn programs_are_noted_once(c: Seq<CandidateView>, x: CandidateView, windows: bool, i: int, j: int)
    requires
        0 <= i < j < installations_in(c, windows).len(),
    ensures
        !installations_in(c, windows)[j].managed ==> path_view(installations_in(c, windows)[i].binary, windows) != path_view(
            installations_in(c, windows)[j].binary,
            windows,
        ),
        installations_in(c, windows).is_prefix_of(installations_in(c.push(x), windows)),
    decreases c.len(),
{
    let all = installations_in(c, windows);
    let front = installations_in(c.drop_last(), windows);
    assert(c.push(x).drop_last() == c);
    if j < front.len() {
        assert(all[i] == front[i] && all[j] == front[j]);
        programs_are_noted_once(c.drop_last(), x, windows, i, j);
    } else {
        assert(all[i] == front[i]);
    }
}

/// Every installation is one of the candidates: a managed one with its version, or a
/// program with the version that it says.
pub proof fn installations_are_candidates(c: Seq<CandidateView>, windows: bool, x: InstallationView)
    requires
        installations_in(c, windows).contains(x),
    ensures
        c.contains(
            if x.managed {
                CandidateView::Managed { binary: x.binary, version: x.version }
            } else {
                CandidateView::Program { binary: x.binary, version: Some(x.version) }
            },
        ),
    decreases c.len(),
{
    let all = installations_in(c, windows);
    let k = choose|k: int| 0 <= k < all.len() && all[k] == x;
    let front = installations_in(c.drop_last(), windows);
    if k < front.len() {
        assert(front[k] == x);
        installations_are_candidates(c.drop_last(), windows, x);
        let y = if x.managed {
            CandidateView::Managed { binary: x.binary, version: x.version }
        } else {
            CandidateView::Program { binary: x.binary, version: Some(x.version) }
        };
        let i = choose|i: int| 0 <= i < c.drop_last().len() && c.drop_last()[i] == y;
        assert(c[i] == y);
    } else {
        assert(c[c.len() - 1] == c.last());
    }
}

proof fn lemma_find_version(s: Seq<InstallationView>, version: Seq<char>, i: int)
    requires
        0 <= i <= s.len(),
    ensures
        i <= find_version(s, version, i) <= s.len(),
        find_version(s, version, i) < s.len() ==> s[find_version(s, version, i)].version == version,
        forall|j: int| i <= j < find_version(s, version, i) ==> (#[trigger] s[j]).version != version,
    decreases s.len() - i,
{
    if i < s.len() && s[i].version != version {
        lemma_find_version(s, version, i + 1);
    }
}

/// The R of a version is found if and only if one with exactly that version is there, and
/// it is the first that has it.
pub proof fn pinned_version_is_found(s: Seq<InstallationView>, version: Seq<char>, j: int)
    ensures
        0 <= j < s.len() && s[j].version == version && (forall|k: int| 0 <= k < j ==> (#[trigger] s[k]).version != version)
            ==> exact_version(s, version) == Ok::<Seq<char>, ErrorView>(s[j].binary),
        (forall|k: int| 0 <= k < s.len() ==> (#[trigger] s[k]).version != version) ==> exact_version(s, version) is Err,
{
    lemma_find_version(s, version, 0);
}

proof fn lemma_find_satisfying(s: Seq<InstallationView>, req: Seq<char>, i: int)
    requires
        0 <= i <= s.len(),
    ensures
        i <= find_satisfying(s, req, i) <= s.len(),
        find_satisfying(s, req, i) < s.len() ==> read_satisfies(
            req,
            semver_version(normal_version(s[find_satisfying(s, req, i)].version)),
        ),
        forall|j: int|
            i <= j < find_satisfying(s, req, i) ==> !read_satisfies(req, semver_version(normal_version((#[trigger] s[j]).version))),
    decreases s.len() - i,
{
    if i < s.len() && !read_satisfies(req, semver_version(normal_version(s[i].version))) {
        lemma_find_satisfying(s, req, i + 1);
    }
}

/// The R used for a requirement is the first whose version can be read and satisfies it;
/// where there is none, or the requirement cannot be read, that is an error.
pub proof fn requirement_on_r_is_kept(s: Seq<InstallationView>, c: Seq<char>, req: Seq<char>, e: ErrorView, j: int, v: VersionView)
    ensures
        satisfying(s, c, Err(e)) == Err::<Seq<char>, ErrorView>(e),
        satisfying(s, c, Ok(req)) is Err ==> satisfying(s, c, Ok(req))->Err_0 is RVersionUnsatisfied,
        satisfying(s, c, Ok(req)) matches Ok(b) ==> exists|k: int|
            0 <= k < s.len() && (#[trigger] s[k]).binary == b && (semver_version(normal_version(s[k].version)) matches Ok(w) && satisfies(
                w,
                req,
            )),
        0 <= j < s.len() && semver_version(normal_version(s[j].version)) == Ok::<VersionView, Seq<char>>(v) && satisfies(v, req)
            ==> satisfying(s, c, Ok(req)) is Ok,
        0 < s.len() && semver_version(normal_version(s[0].version)) == Ok::<VersionView, Seq<char>>(v) && satisfies(v, req)
            ==> satisfying(s, c, Ok(req)) == Ok::<Seq<char>, ErrorView>(s[0].binary),
{
    lemma_find_satisfying(s, req, 0);
    let k = find_satisfying(s, req, 0);
    if k < s.len() {
        assert(s[k].binary == satisfying(s, c, Ok(req))->Ok_0);
    }
}

/// Every installation is tried, and nothing else.
#[verifier::rlimit(40)]
pub proof fn every_r_is_tried(s: Seq<InstallationView>, x: InstallationView)
    ensures
        tried_order(s).contains(x) <==> s.contains(x),
        tried_order(s).len() == of_kind(s, true).len() + of_kind(s, false).len(),
{
    broadcast use vstd::seq_lib::group_to_multiset_ensures;

    let before = |a: InstallationView, b: InstallationView| newer(a, b);
    lemma_newer_is_order();
    let a = of_kind(s, true);
    let b = of_kind(s, false);
    sorted_by_is_sorted(a, before);
    sorted_by_is_sorted(b, before);
    let p = sorted_by(a, before);
    let q = sorted_by(b, before);
    lemma_filter_contains(s, |i: InstallationView| i.managed == true, x);
    lemma_filter_contains(s, |i: InstallationView| i.managed == false, x);
    assert(p.contains(x) <==> p.to_multiset().contains(x));
    assert(a.contains(x) <==> a.to_multiset().contains(x));
    assert(q.contains(x) <==> q.to_multiset().contains(x));
    assert(b.contains(x) <==> b.to_multiset().contains(x));
    let t = p + q;
    if p.contains(x) {
        let i = choose|i: int| 0 <= i < p.len() && p[i] == x;
        assert(t[i] == x);
    }
    if q.contains(x) {
        let i = choose|i: int| 0 <= i < q.len() && q[i] == x;
        assert(t[p.len() + i] == x);
    }
    if t.contains(x) {
        let i = choose|i: int| 0 <= i < t.len() && t[i] == x;
        if i < p.len() {
            assert(p[i] == x);
        } else {
            assert(q[i - p.len()] == x);
        }
    }
}

proof fn lemma_newer_is_order()
    ensures
        is_weak_order(|a: InstallationView, b: InstallationView| newer(a, b)),
{
    let before = |a: InstallationView, b: InstallationView| newer(a, b);
    assert forall|a: InstallationView, b: InstallationView| #[trigger] before(a, b) implies !before(b, a) by {
        lemma_newer(a, b, a);
    }
    assert forall|a: InstallationView, b: InstallationView, c: InstallationView| before(a, b) && #[trigger] before(b, c) implies #[trigger] before(a, c) by {
        lemma_newer(a, b, c);
    }
    assert forall|a: InstallationView, b: InstallationView, c: InstallationView|
        !before(a, b) && !(#[trigger] before(b, c)) implies !(#[trigger] before(a, c)) by {
        lemma_newer(a, b, c);
    }
}

proof fn lemma_newer(a: InstallationView, b: InstallationView, c: InstallationView)
    ensures
        newer(a, b) ==> !newer(b, a),
        newer(a, b) && newer(b, c) ==> newer(a, c),
        !newer(a, b) && !newer(b, c) ==> !newer(a, c),
{
    let x = version_numbers(split(a.version, '.'));
    let y = version_numbers(split(b.version, '.'));
    let z = version_numbers(split(c.version, '.'));
    numbers_are_ordered(y, x, y);
    numbers_are_ordered(z, y, x);
    numbers_are_ordered(x, y, x);
}

#[verifier::rlimit(40)]
proof fn lemma_numbers_of_three(a: nat, b: nat, c: nat)
    requires
        a <= u32::MAX,
        b <= u32::MAX,
        c <= u32::MAX,
    ensures
        version_numbers(split(decimal(a) + seq!['.'] + decimal(b) + seq!['.'] + decimal(c), '.')) == seq![
            a as u32,
            b as u32,
            c as u32,
        ],
{
    let x = decimal(a);
    let y = decimal(b);
    let z = decimal(c);
    decimal_is_read_back(a);
    decimal_is_read_back(b);
    decimal_is_read_back(c);
    lemma_number_is_plain(x);
    lemma_number_is_plain(y);
    lemma_number_is_plain(z);
    decimal_parses(a, u32::MAX as nat);
    decimal_parses(b, u32::MAX as nat);
    decimal_parses(c, u32::MAX as nat);
    plain_text_is_one_piece(x, '.');
    plain_text_is_one_piece(y, '.');
    plain_text_is_one_piece(z, '.');
    pieces_of_both(x, y, '.');
    pieces_of_both(x + seq!['.'] + y, z, '.');
    let three = seq![x, y, z];
    assert(split(x + seq!['.'] + y + seq!['.'] + z, '.') == three);
    assert(three.drop_last() == seq![x, y]);
    assert(seq![x, y].drop_last() == seq![x]);
    assert(seq![x].drop_last() == Seq::<Seq<char>>::empty());
    assert(seq![x].last() == x && seq![x, y].last() == y && three.last() == z);
    reveal_with_fuel(version_numbers, 4);
    assert(version_numbers(seq![x]) == seq![a as u32]);
    assert(version_numbers(seq![x, y]) == seq![a as u32, b as u32]);
}

/// An R is newer than another if its first number is larger, or, among equal ones, the
/// second, or then the third; numbers are compared as numbers.
pub proof fn newer_by_numbers(i: InstallationView, j: InstallationView, a: nat, b: nat, c: nat, x: nat, y: nat, z: nat)
    requires
        a <= u32::MAX,
        b <= u32::MAX,
        c <= u32::MAX,
        x <= u32::MAX,
        y <= u32::MAX,
        z <= u32::MAX,
        i.version == decimal(a) + seq!['.'] + decimal(b) + seq!['.'] + decimal(c),
        j.version == decimal(x) + seq!['.'] + decimal(y) + seq!['.'] + decimal(z),
    ensures
        newer(i, j) <==> a > x || (a == x && (b > y || (b == y && c > z))),
{
    lemma_numbers_of_three(a, b, c);
    lemma_numbers_of_three(x, y, z);
    lemma_before_three(seq![x as u32, y as u32, z as u32], seq![a as u32, b as u32, c as u32]);
}

proof fn lemma_last_version_line(ls: Seq<Seq<char>>, j: int)
    requires
        0 <= j <= ls.len(),
    ensures
        match last_version_line(ls, j) {
            Some(v) => exists|i: int|
                0 <= i < j && trim(#[trigger] ls[i]) == v && is_version_line(v) && (forall|k: int|
                    i < k < j ==> !is_version_line(trim(#[trigger] ls[k]))),
            None => forall|k: int| 0 <= k < j ==> !is_version_line(trim(#[trigger] ls[k])),
        },
    decreases j,
{
    if j > 0 && !is_version_line(trim(ls[j - 1])) {
        lemma_last_version_line(ls, j - 1);
        if let Some(v) = last_version_line(ls, j - 1) {
            let i = choose|i: int|
                0 <= i < j - 1 && trim(#[trigger] ls[i]) == v && is_version_line(v) && (forall|k: int|
                    i < k < j - 1 ==> !is_version_line(trim(#[trigger] ls[k])));
            assert(trim(ls[i]) == v);
        }
    } else if j > 0 {
        assert(trim(ls[j - 1]) == trim(ls[j - 1]));
    }
}

/// The version that an R says is on the last line that holds nothing but digits and dots,
/// and a dot among them.
pub proof fn last_version_line_counts(ls: Seq<Seq<char>>)
    ensures
        match last_version_line(ls, ls.len() as int) {
            Some(v) => exists|i: int|
                0 <= i < ls.len() && trim(#[trigger] ls[i]) == v && is_version_line(v) && (forall|k: int|
                    i < k < ls.len() ==> !is_version_line(trim(#[trigger] ls[k]))),
            None => forall|k: int| 0 <= k < ls.len() ==> !is_version_line(trim(#[trigger] ls[k])),
        },
{
    lemma_last_version_line(ls, ls.len() as int);
}

/// Numbers with a dot between them are such a line; a text without a dot is none, nor is
/// one that holds anything else.
pub proof fn version_lines(a: Seq<char>, b: Seq<char>, c: char)
    requires
        all_digits(a),
        all_digits(b),
    ensures
        is_version_line(a + seq!['.'] + b),
        !is_version_line(a),
        !is_digit(c) && c != '.' ==> !is_version_line(a + seq!['.'] + b + seq![c]),
{
    let w = a + seq!['.'] + b;
    assert(w[a.len() as int] == '.');
    assert forall|i: int| 0 <= i < w.len() implies is_digit(#[trigger] w[i]) || w[i] == '.' by {
        if i < a.len() {
            assert(is_digit(a[i]));
        } else if i > a.len() {
            assert(is_digit(b[i - a.len() - 1]));
        }
    }
    if is_version_line(a) {
        let i = choose|i: int| 0 <= i < a.len() && a[i] == '.';
        assert(is_digit(a[i]));
    }
    let v = w + seq![c];
    assert(v[w.len() as int] == c);
}

/// The directories in a directory are looked at one after another, each with all that is
/// in it, before the next one; below the deepest level there is nothing to look at.
pub proof fn directories_are_looked_at_in_order(pending: Seq<(Seq<char>, u32)>, children: Seq<Seq<char>>)
    requires
        pending.len() > 0,
    ensures
        children.len() == 0 || pending.last().1 >= DEEPEST ==> after_look(pending, children) == pending.drop_last(),
        children.len() > 0 && pending.last().1 < DEEPEST ==> {
            let after = after_look(pending, children);
            &&& after.last() == (children[0], (pending.last().1 + 1) as u32)
            &&& after.drop_last() == after_look(pending, children.drop_first())
        },
{
    let d = (pending.last().1 + 1) as u32;
    if pending.last().1 < DEEPEST {
        let s = super::search::stacked(children, d);
        assert(after_look(pending, children) == pending.drop_last() + s);
        if children.len() > 0 {
            let t = super::search::stacked(children.drop_first(), d);
            assert(s.drop_last() == t);
            assert((pending.drop_last() + s).drop_last() == pending.drop_last() + t);
        } else {
            assert(pending.drop_last() + s == pending.drop_last());
        }
    }
}

/// An R is fetched where the C library of the machine is not too old and the version is
/// published; a channel, or a version that cannot be read, is not held back.
pub proof fn withheld_versions(j: JobView)
    ensures
        super::host::is_channel(j.version) ==> !is_withheld(j),
        r_numbers(j.version) is None ==> !is_withheld(j),
        j.platform is LinuxX86_64 || j.platform is LinuxArm64 ==> !is_withheld(j),
        r_numbers(j.version) matches Some((a, b, c)) ==> (!super::host::is_channel(j.version) ==> (is_withheld(j) <==> !is_published(
            j.platform,
            (a as u32, b as u32, c as u32),
        ))),
        archive_address(j) is Ok <==> super::host::libc_verdict(j.glibc is Some, j.musl, j.glibc) is Ok && !is_withheld(j),
        archive_address(j) matches Ok(u) ==> u == super::host::portable_url(j.platform, j.version, j.musl),
{
}

/// An installation goes on from each phase to the next: an R that is there is tried, one
/// that does not run is removed, an archive is unpacked, and a new R is looked for, given
/// its libraries and tried.
pub proof fn installing_goes_on(j: JobView, status: Seq<char>, reason: Seq<char>, stable: Seq<Seq<char>>)
    ensures
        next(j, PhaseView::Looking, EventView::BinaryThere(true)) == (PhaseView::ProbingOld, ActionView::Probe),
        archive_address(j) matches Ok(u) ==> next(j, PhaseView::Looking, EventView::BinaryThere(false)) == (
            PhaseView::Downloading,
            ActionView::Download(u),
        ),
        archive_address(j) matches Err(e) ==> next(j, PhaseView::Looking, EventView::BinaryThere(false)) == (
            PhaseView::Ended,
            ActionView::Fail(e),
        ),
        next(j, PhaseView::ProbingOld, EventView::Runs(true)) == (PhaseView::Ended, ActionView::Done),
        next(j, PhaseView::ProbingOld, EventView::Runs(false)) == (PhaseView::Removing, ActionView::RemoveTree),
        next(j, PhaseView::Removing, EventView::Removed(None)) == next(j, PhaseView::Looking, EventView::BinaryThere(false)),
        next(j, PhaseView::Removing, EventView::Removed(Some(reason))).1 is Fail,
        next(j, PhaseView::Downloading, EventView::Archive) == (PhaseView::Unpacking, ActionView::Unpack),
        next(j, PhaseView::Downloading, EventView::ClientError { status }) == (
            PhaseView::AskingIndex { status },
            ActionView::FetchIndex,
        ),
        next(j, PhaseView::Downloading, EventView::NetworkError { reason }).1 == ActionView::Fail(ErrorView::Network(reason)),
        next(j, PhaseView::AskingIndex { status }, EventView::Index(stable)).1 is Fail,
        next(j, PhaseView::Unpacking, EventView::Unpacked(None)) == (PhaseView::LookingNew, ActionView::LookForBinary),
        next(j, PhaseView::Unpacking, EventView::Unpacked(Some(reason))).1 is Fail,
        next(j, PhaseView::LookingNew, EventView::BinaryThere(true)) == (PhaseView::EnablingOpenMp, ActionView::EnableOpenMp),
        next(j, PhaseView::LookingNew, EventView::BinaryThere(false)).1 is RemoveTreeAndFail,
        !(j.platform is WindowsX86_64) ==> next(j, PhaseView::EnablingOpenMp, EventView::OpenMpDone) == (
            PhaseView::ProbingNew,
            ActionView::Probe,
        ),
        j.platform is WindowsX86_64 ==> next(j, PhaseView::EnablingOpenMp, EventView::OpenMpDone).1 is Done,
        next(j, PhaseView::ProbingNew, EventView::Runs(true)) == (PhaseView::Ended, ActionView::Done),
        next(j, PhaseView::ProbingNew, EventView::Runs(false)).1 is RemoveTreeAndFail,
{
}

/// A profile that was set before is read on, unless it is the same file or blank.
pub proof fn earlier_profile_is_kept(profile: Seq<char>, v: Seq<char>, windows: bool)
    ensures
        original_profile(profile, None, windows).len() == 0,
        original_profile(profile, Some(profile), windows).len() == 0,
        is_blank(v) ==> original_profile(profile, Some(v), windows).len() == 0,
        trim(v).len() > 0 && path_view(v, windows) != path_view(profile, windows) ==> original_profile(profile, Some(v), windows) == v,
{
    if is_blank(v) {
        nothing_is_left_of_space(v);
    }
}

/// A path with white space in it is put in quotes for the shell, any other is not.
pub proof fn paths_with_space_are_quoted(a: Seq<char>, c: char, b: Seq<char>, path: Seq<char>)
    requires
        is_whitespace(c),
        forall|i: int| 0 <= i < path.len() ==> !is_whitespace(#[trigger] path[i]),
    ensures
        shell_word(path) == path,
        shell_word(a + seq![c] + b) == seq!['"'] + (a + seq![c] + b) + seq!['"'],
{
    reveal_strlit("\"");
    assert("\""@ == seq!['"']);
    let w = a + seq![c] + b;
    assert(is_whitespace(w[a.len() as int]));
}

proof fn lemma_find_newline(s: Seq<char>, i: int)
    requires
        0 <= i <= s.len(),
    ensures
        i <= find_char(s, '\n', i) <= s.len(),
    decreases s.len() - i,
{
    if i < s.len() && s[i] != '\n' {
        lemma_find_newline(s, i + 1);
    }
}

proof fn lemma_find_shift(p: Seq<char>, t: Seq<char>, i: int)
    requires
        0 <= i <= t.len(),
    ensures
        find_char(p + t, '\n', p.len() + i) == p.len() + find_char(t, '\n', i),
    decreases t.len() - i,
{
    if i < t.len() {
        assert((p + t)[p.len() + i] == t[i]);
        if t[i] != '\n' {
            lemma_find_shift(p, t, i + 1);
        }
    }
}

proof fn lemma_home_line_shift(p: Seq<char>, t: Seq<char>, i: int)
    requires
        0 <= i <= t.len(),
    ensures
        home_line(p + t, p.len() + i) == p.len() + home_line(t, i),
        i <= home_line(t, i) <= t.len(),
    decreases t.len() - i,
{
    let s = p + t;
    if i < t.len() {
        lemma_find_newline(t, i);
        lemma_find_shift(p, t, i);
        let e = line_end(t, i);
        assert(line_end(s, p.len() + i) == p.len() + e);
        assert(s.subrange(p.len() + i, p.len() + e) == t.subrange(i, e));
        if !sets_home(t.subrange(i, e)) {
            lemma_home_line_shift(p, t, e);
        }
    }
}

proof fn lemma_first_line(line: Seq<char>, rest: Seq<char>, i: int)
    requires
        !line.contains('\n'),
        0 <= i <= line.len(),
    ensures
        find_char(line + seq!['\n'] + rest, '\n', i) == line.len(),
    decreases line.len() - i,
{
    let w = line + seq!['\n'] + rest;
    if i < line.len() {
        assert(w[i] == line[i]);
        assert(line.contains(line[i]));
        lemma_first_line(line, rest, i + 1);
    } else {
        assert(w[i] == '\n');
    }
}

proof fn lemma_skipped_line(line: Seq<char>, rest: Seq<char>)
    requires
        !line.contains('\n'),
        !sets_home(line + seq!['\n']),
    ensures
        ({
            let p = line + seq!['\n'];
            home_line(p + rest, 0) == p.len() + home_line(rest, 0) && 0 <= home_line(rest, 0) <= rest.len()
        }),
{
    let p = line + seq!['\n'];
    let s = p + rest;
    lemma_first_line(line, rest, 0);
    assert(line_end(s, 0) == p.len());
    assert(s.subrange(0, p.len() as int) == p);
    lemma_home_line_shift(p, rest, 0);
    assert(home_line(s, 0) == home_line(s, p.len() as int));
}

/// A line that does not set the home is left as it is, and the script behind it is
/// patched as if it stood alone.
pub proof fn other_lines_are_left(line: Seq<char>, rest: Seq<char>, path: Seq<char>)
    requires
        !line.contains('\n'),
        !sets_home(line + seq!['\n']),
    ensures
        match patched_wrapper(rest, path) {
            Some(t) => patched_wrapper(line + seq!['\n'] + rest, path) == Some(line + seq!['\n'] + t),
            None => patched_wrapper(line + seq!['\n'] + rest, path) is None,
        },
{
    let p = line + seq!['\n'];
    let s = p + rest;
    lemma_skipped_line(line, rest);
    let h = home_line(rest, 0);
    if h < rest.len() {
        lemma_find_newline(rest, h);
        lemma_find_shift(p, rest, h);
        let e = line_end(rest, h);
        assert(line_end(s, p.len() + h) == p.len() + e);
        assert(s.subrange(p.len() + h, p.len() + e) == rest.subrange(h, e));
        assert(s.subrange(0, p.len() + h) == p + rest.subrange(0, h));
        assert(s.subrange(p.len() + e, s.len() as int) == rest.subrange(e, rest.len() as int));
        assert(patched_wrapper(s, path)->0 == p + patched_wrapper(rest, path)->0);
    }
}

/// The first line that sets the home sets it to the path instead, with the same
/// indentation, and what follows is left as it is.
#[verifier::rlimit(40)]
pub proof fn home_is_set_to_the_path(indent: Seq<char>, old_home: Seq<char>, rest: Seq<char>, path: Seq<char>)
    requires
        is_blank(indent),
        !indent.contains('\n'),
        !old_home.contains('\n'),
    ensures
        patched_wrapper(indent + "R_HOME_DIR="@ + old_home + seq!['\n'] + rest, path) == Some(
            indent + "R_HOME_DIR="@ + shell_word(path) + seq!['\n'] + rest,
        ),
{
    reveal_strlit("R_HOME_DIR=");
    reveal_strlit("\n");
    assert("\n"@ == seq!['\n']);
    let word = "R_HOME_DIR="@ + old_home;
    let line = indent + word;
    let s = indent + "R_HOME_DIR="@ + old_home + seq!['\n'] + rest;
    assert(s == line + seq!['\n'] + rest);
    assert(!line.contains('\n')) by {
        if line.contains('\n') {
            let i = choose|i: int| 0 <= i < line.len() && line[i] == '\n';
            if i < indent.len() {
                assert(indent[i] == '\n');
            } else if i >= indent.len() + 11 {
                assert(old_home[i - indent.len() - 11] == '\n');
            }
        }
    }
    lemma_first_line(line, rest, 0);
    let e = line_end(s, 0);
    let full = line + seq!['\n'];
    assert(e == full.len());
    assert(s.subrange(0, e) == full);
    let t = word + seq!['\n'];
    assert(full == indent + t);
    assert(t[0] == 'R');
    assert(!is_whitespace('R'));
    lemma_skip_blank(indent, t, 0);
    assert(trim_start(full) == t);
    assert(t.subrange(0, 11) == "R_HOME_DIR="@);
    assert(sets_home(full));
    assert(home_line(s, 0) == 0);
    assert(full.last() == '\n');
    assert(full.subrange(0, indent.len() as int) == indent);
    assert(home_set(full, path) == indent + "R_HOME_DIR="@ + shell_word(path) + "\n"@);
    assert(s.subrange(e, s.len() as int) == rest);
    assert(s.subrange(0, 0) == Seq::<char>::empty());
    assert(patched_wrapper(s, path)->0 == indent + "R_HOME_DIR="@ + shell_word(path) + seq!['\n'] + rest);
}

proof fn lemma_skip_blank(a: Seq<char>, t: Seq<char>, i: int)
    requires
        is_blank(a),
        t.len() > 0,
        !is_whitespace(t[0]),
        0 <= i <= a.len(),
    ensures
        skip_space(a + t, i) == a.len(),
    decreases a.len() - i,
{
    if i < a.len() {
        assert((a + t)[i] == a[i]);
        lemma_skip_blank(a, t, i + 1);
    } else {
        assert((a + t)[i] == t[0]);
    }
}

} // verus!
