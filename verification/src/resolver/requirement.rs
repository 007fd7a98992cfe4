//! R version numbers and requirements in terms of semantic versions.
use vstd::prelude::*;

use crate::error::{outcome, ErrorView, UvrError};
use crate::text::{chars_of, count_char, count_of, decimal, decimal_is_read_back, decimal_string, find_digit, index_of_digit, is_text, join,
    join_strings, parse_number, part, pieces, read_number, replace_char, slice_views, split, split_from, string_of, trim, trimmed,
    views, with_char_replaced};
use crate::version::{satisfies, semver_requirement, Version, VersionReq, VersionView};

verus! {

/// A version without its pre-release tag and build metadata.
pub open spec fn release_of(v: VersionView) -> VersionView {
    VersionView { pre: seq![], build: seq![], ..v }
}

/// Whether a version satisfies a requirement, either as it is or, where it has a
/// pre-release tag, without the tag.
pub open spec fn admits(req: Seq<char>, v: VersionView) -> bool {
    satisfies(v, req) || (v.pre.len() > 0 && satisfies(release_of(v), req))
}

/// Whether `version` satisfies `req`.
///
/// A version of four parts such as `1.18.2.1` is kept as `1.18.2-4.1`. Semantic
/// versioning takes that for a pre-release, which comes before `1.18.2` and
/// satisfies hardly any requirement; so the tag is also left out of account.
pub fn version_matches_req(version: &Version, req: &VersionReq) -> (r: bool)
    ensures
        r == admits(req@, version@),
{
    if req.matches(version) {
        return true;
    }
    if !version.pre.as_str().is_empty() {
        let stripped = Version::new(version.major, version.minor, version.patch);
        assert(stripped@ == release_of(version@));
        return req.matches(&stripped);
    }
    false
}

/// One comparator of a requirement with its version in three parts: a `-` in the
/// version counts as a dot, and missing parts are zero.
pub open spec fn normal_comparator(text: Seq<char>) -> Seq<char> {
    let t = trim(text);
    let k = find_digit(t, 0);
    let operator = t.subrange(0, k);
    let number = replace_char(t.subrange(k, t.len() as int), '-', '.');
    let dots = count_char(number, '.');
    if dots == 0 && number.len() > 0 {
        operator + number + ".0.0"@
    } else if dots == 1 {
        operator + number + ".0"@
    } else {
        operator + number
    }
}

/// A requirement with each of its comparators made normal.
pub open spec fn normal_requirement(text: Seq<char>) -> Seq<char> {
    join(split(text, ',').map_values(|p: Seq<char>| normal_comparator(p)), ", "@)
}

/// What a requirement on an R package says: `*` where it is empty or `*`, else what
/// its normal form says.
pub open spec fn requirement(text: Seq<char>) -> Result<Seq<char>, ErrorView> {
    let t = trim(text);
    if t == "*"@ || t.len() == 0 {
        Ok("*"@)
    } else {
        requirement_parsed(semver_requirement(normal_requirement(t)))
    }
}

/// A parsed requirement, or the error that says why there is none.
pub open spec fn requirement_parsed(parsed: Result<Seq<char>, Seq<char>>) -> Result<Seq<char>, ErrorView> {
    match parsed {
        Ok(req) => Ok(req),
        Err(e) => Err(ErrorView::Semver(e)),
    }
}

fn normalize_comparator(text: &[char]) -> (r: String)
    ensures
        r@ == normal_comparator(text@),
{
    let t = trimmed(text);
    let k: usize = index_of_digit(t);
    let operator = string_of(part(t, 0, k));
    let number = with_char_replaced(part(t, k, t.len()), '-', '.');
    let dots: usize = count_of(number.as_slice(), '.');
    let out = operator.concat(string_of(number.as_slice()).as_str());
    if dots == 0 && number.len() > 0 {
        out.concat(".0.0")
    } else if dots == 1 {
        out.concat(".0")
    } else {
        out
    }
}

/// The requirement with the version of each comparator in three parts; see
/// [`normal_requirement`].
pub fn normalize_version_in_req(s: &str) -> (r: String)
    ensures
        r@ == normal_requirement(s@),
{
    let cs = chars_of(s);
    let ps = pieces(cs.as_slice(), ',');
    let ghost want = split(s@, ',').map_values(|p: Seq<char>| normal_comparator(p));
    let mut out: Vec<String> = Vec::new();
    let mut i: usize = 0;
    while i < ps.len()
        invariant
            i <= ps@.len(),
            slice_views(ps@) == split(s@, ','),
            want == split(s@, ',').map_values(|p: Seq<char>| normal_comparator(p)),
            views(out@) == want.take(i as int),
        decreases ps@.len() - i,
    {
        let ghost before = out@;
        let one = normalize_comparator(ps[i]);
        assert(one@ == want[i as int]) by {
            assert(slice_views(ps@)[i as int] == ps@[i as int]@);
        }
        out.push(one);
        assert(views(out@) == views(before).push(want[i as int]));
        i += 1;
        assert(views(out@) == want.take(i as int));
    }
    assert(want.take(i as int) == want);
    join_strings(&out, ", ")
}

/// Reads a requirement on an R package. R writes one or two parts where semantic
/// versioning wants three, and `-` for a dot.
pub fn parse_version_req(s: &str) -> (r: Result<VersionReq, UvrError>)
    ensures
        outcome(r) == requirement(s@),
{
    let cs = chars_of(s);
    let t = trimmed(cs.as_slice());
    if is_text(t, "*") || t.len() == 0 {
        return Ok(VersionReq::any());
    }
    let normal = normalize_version_in_req(string_of(t).as_str());
    match VersionReq::parse(normal.as_str()) {
        Ok(v) => Ok(v),
        Err(e) => Err(UvrError::Semver(e)),
    }
}

/// A part of a version without leading zeros, where it is a number.
pub open spec fn without_zeros(p: Seq<char>) -> Seq<char> {
    match parse_number(p, u64::MAX as nat) {
        Some(n) => decimal(n),
        None => p,
    }
}

/// The parts of an R version: what stands between its dots and hyphens.
pub open spec fn version_parts(v: Seq<char>) -> Seq<Seq<char>> {
    split(replace_char(v, '-', '.'), '.').map_values(|p: Seq<char>| without_zeros(p))
}

/// The semantic version of an R version.
pub open spec fn normal_version(v: Seq<char>) -> Seq<char> {
    let p = version_parts(v);
    let minor = if p.len() > 1 {
        p[1]
    } else {
        "0"@
    };
    let patch = if p.len() > 2 {
        p[2]
    } else {
        "0"@
    };
    let base = p[0] + "."@ + minor + "."@ + patch;
    if p.len() > 3 {
        base + "-4."@ + p[3]
    } else {
        base
    }
}

fn strip_zeros(p: &[char]) -> (r: String)
    ensures
        r@ == without_zeros(p@),
{
    match read_number(p, u64::MAX) {
        Some(n) => decimal_string(n),
        None => string_of(p),
    }
}

/// The semantic version of an R version: hyphens count as dots, leading zeros go,
/// missing parts are zero, and a fourth part becomes the pre-release tag `4.` and
/// the part. Parts after the fourth are left out.
pub fn normalize_version(v: &str) -> (r: String)
    ensures
        r@ == normal_version(v@),
{
    let cs = chars_of(v);
    let dotted = with_char_replaced(cs.as_slice(), '-', '.');
    let ps = pieces(dotted.as_slice(), '.');
    let ghost want = version_parts(v@);
    assert forall|i: int| 0 <= i < ps@.len() implies #[trigger] want[i] == without_zeros(ps@[i]@) by {
        assert(slice_views(ps@)[i] == ps@[i]@);
    }
    let minor = if ps.len() > 1 {
        strip_zeros(ps[1])
    } else {
        "0".to_owned()
    };
    let patch = if ps.len() > 2 {
        strip_zeros(ps[2])
    } else {
        "0".to_owned()
    };
    assert(want.len() == ps@.len()) by {
        assert(slice_views(ps@).len() == ps@.len());
    }
    let base = strip_zeros(ps[0]).concat(".").concat(minor.as_str()).concat(".").concat(patch.as_str());
    if ps.len() > 3 {
        base.concat("-4.").concat(strip_zeros(ps[3]).as_str())
    } else {
        base
    }
}

/// A part of a version, or zero where it has not that many.
pub open spec fn part_or_zero(parts: Seq<Seq<char>>, i: int) -> Seq<char> {
    if i < parts.len() {
        parts[i]
    } else {
        "0"@
    }
}

/// A dot and a hyphen mean the same in a version.
pub proof fn hyphens_count_as_dots(v: Seq<char>)
    ensures
        normal_version(replace_char(v, '-', '.')) == normal_version(v),
{
    assert(replace_char(replace_char(v, '-', '.'), '-', '.') == replace_char(v, '-', '.'));
}

spec fn is_unbroken(p: Seq<char>) -> bool {
    !p.contains('.') && !p.contains('-')
}

proof fn lemma_pieces_are_unbroken(s: Seq<char>, start: int, i: int)
    requires
        0 <= start <= i <= s.len(),
        !s.contains('-'),
        !s.subrange(start, i).contains('.'),
    ensures
        forall|k: int| 0 <= k < split_from(s, '.', start, i).len() ==> is_unbroken(
            #[trigger] split_from(s, '.', start, i)[k],
        ),
    decreases s.len() - i,
{
    assert forall|a: int, b: int| 0 <= a <= b <= s.len() implies !(#[trigger] s.subrange(a, b)).contains('-') by {
        if s.subrange(a, b).contains('-') {
            let k = choose|k: int| 0 <= k < b - a && s.subrange(a, b)[k] == '-';
            assert(s[a + k] == '-');
            assert(false);
        }
    }
    if i < s.len() {
        if s[i] == '.' {
            assert(s.subrange(i + 1, i + 1) == Seq::<char>::empty());
            lemma_pieces_are_unbroken(s, i + 1, i + 1);
            let rest = split_from(s, '.', i + 1, i + 1);
            let all = split_from(s, '.', start, i);
            assert forall|k: int| 0 <= k < all.len() implies is_unbroken(#[trigger] all[k]) by {
                if k > 0 {
                    assert(all[k] == rest[k - 1]);
                } else {
                    assert(all[0] == s.subrange(start, i));
                }
            }
        } else {
            assert(s.subrange(start, i + 1) == s.subrange(start, i).push(s[i]));
            assert forall|k: int| 0 <= k <= i - start implies #[trigger] s.subrange(start, i + 1)[k] != '.' by {
                if k < i - start {
                    assert(s.subrange(start, i)[k] == s[start + k]);
                }
            }
            lemma_pieces_are_unbroken(s, start, i + 1);
            assert(split_from(s, '.', start, i) == split_from(s, '.', start, i + 1));
        }
    } else {
        assert(split_from(s, '.', start, i) == seq![s.subrange(start, i)]);
    }
}

proof fn lemma_decimal_is_unbroken(n: nat)
    ensures
        is_unbroken(decimal(n)),
{
    decimal_is_read_back(n);
}

proof fn lemma_parts_are_unbroken(v: Seq<char>)
    ensures
        version_parts(v).len() > 0,
        forall|i: int| 0 <= i < version_parts(v).len() ==> is_unbroken(#[trigger] version_parts(v)[i]),
{
    let t = replace_char(v, '-', '.');
    assert(!t.contains('-'));
    assert(t.subrange(0, 0) == Seq::<char>::empty());
    lemma_pieces_are_unbroken(t, 0, 0);
    lemma_split_is_not_empty(t, 0, 0);
    assert forall|i: int| 0 <= i < version_parts(v).len() implies is_unbroken(#[trigger] version_parts(v)[i]) by {
        let p = split(t, '.')[i];
        assert(version_parts(v)[i] == without_zeros(p));
        if let Some(n) = parse_number(p, u64::MAX as nat) {
            lemma_decimal_is_unbroken(n);
        }
    }
}

proof fn lemma_split_is_not_empty(s: Seq<char>, start: int, i: int)
    ensures
        split_from(s, '.', start, i).len() > 0,
    decreases s.len() - i,
{
    if i < s.len() && s[i] != '.' {
        lemma_split_is_not_empty(s, start, i + 1);
    }
}

proof fn lemma_cut_is_unique(a: Seq<char>, x: Seq<char>, b: Seq<char>, y: Seq<char>, sep: Seq<char>)
    requires
        sep.len() > 0,
        !a.contains(sep[0]),
        !b.contains(sep[0]),
        a + sep + x == b + sep + y,
    ensures
        a == b,
        x == y,
{
    let s = a + sep + x;
    let t = b + sep + y;
    if a.len() < b.len() {
        assert(s[a.len() as int] == sep[0]);
        assert(t[a.len() as int] == b[a.len() as int]);
        assert(false);
    }
    if b.len() < a.len() {
        assert(t[b.len() as int] == sep[0]);
        assert(s[b.len() as int] == a[b.len() as int]);
        assert(false);
    }
    assert(a == s.take(a.len() as int));
    assert(b == t.take(a.len() as int));
    assert(x == s.skip((a.len() + sep.len()) as int));
    assert(y == t.skip((a.len() + sep.len()) as int));
}

/// What stands behind the second dot of a semantic version.
spec fn third_and_tag(p: Seq<Seq<char>>) -> Seq<char> {
    if p.len() > 3 {
        part_or_zero(p, 2) + "-4."@ + p[3]
    } else {
        part_or_zero(p, 2)
    }
}

proof fn lemma_normal_version(v: Seq<char>)
    ensures
        ({
            let p = version_parts(v);
            normal_version(v) == p[0] + "."@ + (part_or_zero(p, 1) + "."@ + third_and_tag(p))
        }),
{
}

proof fn lemma_third_and_tag(p: Seq<Seq<char>>, q: Seq<Seq<char>>)
    requires
        is_unbroken(part_or_zero(p, 2)),
        is_unbroken(part_or_zero(q, 2)),
        third_and_tag(p) == third_and_tag(q),
    ensures
        part_or_zero(p, 2) == part_or_zero(q, 2),
        p.len() > 3 <==> q.len() > 3,
        p.len() > 3 ==> p[3] == q[3],
{
    reveal_strlit("-4.");
    let a = part_or_zero(p, 2);
    let b = part_or_zero(q, 2);
    if p.len() > 3 && q.len() > 3 {
        lemma_cut_is_unique(a, p[3], b, q[3], "-4."@);
    } else if p.len() > 3 {
        assert((a + "-4."@ + p[3])[a.len() as int] == '-');
        assert(b[a.len() as int] == '-');
    } else if q.len() > 3 {
        assert((b + "-4."@ + q[3])[b.len() as int] == '-');
        assert(a[b.len() as int] == '-');
    }
}

/// Versions that differ in one of their first four parts stay apart: the fourth part is
/// not lost, and a version with a fourth part is none with three.
pub proof fn versions_stay_apart(v: Seq<char>, w: Seq<char>)
    requires
        normal_version(v) == normal_version(w),
    ensures
        forall|i: int| 0 <= i < 3 ==> #[trigger] part_or_zero(version_parts(v), i) == part_or_zero(version_parts(w), i),
        version_parts(v).len() > 3 <==> version_parts(w).len() > 3,
        version_parts(v).len() > 3 ==> version_parts(v)[3] == version_parts(w)[3],
{
    reveal_strlit("0");
    reveal_strlit(".");
    lemma_parts_are_unbroken(v);
    lemma_parts_are_unbroken(w);
    lemma_normal_version(v);
    lemma_normal_version(w);
    let p = version_parts(v);
    let q = version_parts(w);
    assert(is_unbroken("0"@));
    let x = part_or_zero(p, 1) + "."@ + third_and_tag(p);
    let y = part_or_zero(q, 1) + "."@ + third_and_tag(q);
    lemma_cut_is_unique(p[0], x, q[0], y, "."@);
    lemma_cut_is_unique(part_or_zero(p, 1), third_and_tag(p), part_or_zero(q, 1), third_and_tag(q), "."@);
    lemma_third_and_tag(p, q);
    assert(part_or_zero(p, 0) == part_or_zero(q, 0));
}

} // verus!
