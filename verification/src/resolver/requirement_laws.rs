//! What the normal forms of requirements and versions keep, and what they change.
use vstd::prelude::*;

use super::requirement::{
    admits, normal_comparator, normal_requirement, normal_version, requirement, version_parts,
    without_zeros,
};
use crate::error::ErrorView;
use crate::text::{
    count_char, decimal, find_digit, is_digit, is_whitespace, parse_number, replace_char, split, trim,
};
use crate::text_laws::{
    is_blank, joined_of_both, nothing_is_left_of_space, padding_does_not_count, pieces_make_the_text,
    pieces_of_both, plain_text_is_one_piece, trimming_takes_only_space, trimming_undoes_padding,
};
use crate::version::{satisfies, semver_requirement, VersionView};

verus! {

/// What stands between the parts of an R version.
pub open spec fn is_separator(c: char) -> bool {
    c == '.' || c == '-'
}

/// A text in which no part of a version ends.
pub open spec fn is_one_part(p: Seq<char>) -> bool {
    forall|i: int| 0 <= i < p.len() ==> !is_separator(#[trigger] p[i])
}

/// A text with exactly one separator.
pub open spec fn is_two_parts(v: Seq<char>) -> bool {
    exists|i: int|
        0 <= i < v.len() && is_separator(#[trigger] v[i]) && is_one_part(v.take(i)) && is_one_part(v.skip(i + 1))
}

proof fn lemma_find_digit(op: Seq<char>, v: Seq<char>, i: int)
    requires
        forall|j: int| 0 <= j < op.len() ==> !is_digit(#[trigger] op[j]),
        v.len() > 0 ==> is_digit(v[0]),
        0 <= i <= op.len(),
    ensures
        find_digit(op + v, i) == op.len(),
    decreases op.len() - i,
{
    if i < op.len() {
        assert((op + v)[i] == op[i]);
        lemma_find_digit(op, v, i + 1);
    } else if v.len() > 0 {
        assert((op + v)[i] == v[0]);
    }
}

proof fn lemma_count_none(v: Seq<char>)
    requires
        is_one_part(v),
    ensures
        count_char(replace_char(v, '-', '.'), '.') == 0,
    decreases v.len(),
{
    let r = replace_char(v, '-', '.');
    if v.len() > 0 {
        assert(r.drop_last() == replace_char(v.drop_last(), '-', '.'));
        assert forall|i: int| 0 <= i < v.drop_last().len() implies !is_separator(#[trigger] v.drop_last()[i]) by {
            assert(!is_separator(v[i]));
        }
        lemma_count_none(v.drop_last());
        assert(!is_separator(v[v.len() - 1]));
        assert(r.last() == v.last());
    }
}

proof fn lemma_count_concat(a: Seq<char>, b: Seq<char>, c: char)
    ensures
        count_char(a + b, c) == count_char(a, c) + count_char(b, c),
    decreases b.len(),
{
    let w = a + b;
    if b.len() == 0 {
        assert(w == a);
    } else {
        assert(w.drop_last() == a + b.drop_last());
        lemma_count_concat(a, b.drop_last(), c);
    }
}

proof fn lemma_count_at(v: Seq<char>, i: int)
    requires
        0 <= i < v.len(),
        is_separator(v[i]),
    ensures
        count_char(replace_char(v, '-', '.'), '.') == count_char(replace_char(v.take(i), '-', '.'), '.') + 1 + count_char(
            replace_char(v.skip(i + 1), '-', '.'),
            '.',
        ),
{
    let r = replace_char(v, '-', '.');
    let a = replace_char(v.take(i), '-', '.');
    let b = replace_char(v.skip(i + 1), '-', '.');
    let m = seq!['.'];
    assert(r == a + m + b);
    lemma_count_concat(a + m, b, '.');
    lemma_count_concat(a, m, '.');
    assert(m.drop_last() == Seq::<char>::empty());
    assert(m.last() == '.');
    assert(count_char(Seq::<char>::empty(), '.') == 0);
    assert(count_char(m, '.') == 1);
}

proof fn lemma_count_some(v: Seq<char>)
    requires
        !is_one_part(v),
    ensures
        count_char(replace_char(v, '-', '.'), '.') > 0,
{
    let i = choose|i: int| 0 <= i < v.len() && is_separator(#[trigger] v[i]);
    lemma_count_at(v, i);
}

proof fn lemma_count_many(v: Seq<char>)
    requires
        !is_one_part(v),
        !is_two_parts(v),
    ensures
        count_char(replace_char(v, '-', '.'), '.') > 1,
{
    let i = choose|i: int| 0 <= i < v.len() && is_separator(#[trigger] v[i]);
    lemma_count_at(v, i);
    if is_one_part(v.take(i)) {
        lemma_count_some(v.skip(i + 1));
    } else {
        lemma_count_some(v.take(i));
    }
}

proof fn lemma_trimmed_comparator(a: Seq<char>, op: Seq<char>, v: Seq<char>, b: Seq<char>)
    requires
        is_blank(a),
        is_blank(b),
        forall|i: int| 0 <= i < op.len() ==> !is_digit(#[trigger] op[i]),
        op.len() > 0 ==> !is_whitespace(op[0]),
        v.len() > 0,
        is_digit(v[0]),
        !is_whitespace(v.last()),
    ensures
        trim(a + op + v + b) == op + v,
        find_digit(op + v, 0) == op.len(),
        (op + v).subrange(0, op.len() as int) == op,
        (op + v).subrange(op.len() as int, (op + v).len() as int) == v,
{
    let t = op + v;
    assert(t.last() == v.last());
    if op.len() > 0 {
        assert(t[0] == op[0]);
    } else {
        assert(t[0] == v[0]);
    }
    trimming_undoes_padding(a, t, b);
    assert(a + op + v + b == a + t + b);
    lemma_find_digit(op, v, 0);
}

/// A comparator keeps its operator and each character of its version but the hyphens, which
/// become dots. White space round it goes. Behind a version of one part stand two zero
/// parts, behind one of two parts one, and behind any other nothing.
#[verifier::rlimit(40)]
pub proof fn comparator_is_filled_up(a: Seq<char>, op: Seq<char>, v: Seq<char>, b: Seq<char>)
    requires
        is_blank(a),
        is_blank(b),
        forall|i: int| 0 <= i < op.len() ==> !is_digit(#[trigger] op[i]),
        op.len() > 0 ==> !is_whitespace(op[0]),
        v.len() > 0,
        is_digit(v[0]),
        !is_whitespace(v.last()),
    ensures
        ({
            let r = normal_comparator(a + op + v + b);
            let n = op.len() + v.len();
            &&& r.len() >= n
            &&& r.take(op.len() as int) == op
            &&& forall|i: int|
                0 <= i < v.len() ==> r[op.len() + i] == (if #[trigger] v[i] == '-' {
                    '.'
                } else {
                    v[i]
                })
            &&& is_one_part(v) ==> r.skip(n as int) == ".0.0"@
            &&& is_two_parts(v) ==> r.skip(n as int) == ".0"@
            &&& !is_one_part(v) && !is_two_parts(v) ==> r.len() == n
        }),
{
    lemma_trimmed_comparator(a, op, v, b);
    let r = normal_comparator(a + op + v + b);
    let number = replace_char(v, '-', '.');
    let n = (op.len() + v.len()) as int;
    if is_one_part(v) {
        lemma_count_none(v);
        assert(r == op + number + ".0.0"@);
        assert(r.skip(n) == ".0.0"@);
        assert(!is_two_parts(v)) by {
            if is_two_parts(v) {
                let i = choose|i: int| 0 <= i < v.len() && is_separator(#[trigger] v[i]);
                assert(!is_separator(v[i]));
            }
        }
    } else if is_two_parts(v) {
        let i = choose|i: int|
            0 <= i < v.len() && is_separator(#[trigger] v[i]) && is_one_part(v.take(i)) && is_one_part(v.skip(i + 1));
        lemma_count_at(v, i);
        lemma_count_none(v.take(i));
        lemma_count_none(v.skip(i + 1));
        assert(r == op + number + ".0"@);
        assert(r.skip(n) == ".0"@);
    } else {
        lemma_count_many(v);
        assert(r == op + number);
    }
    assert(r.take(op.len() as int) == op);
}

/// An operator without a version stays as it is, but for white space round it.
pub proof fn operator_alone_is_kept(op: Seq<char>)
    requires
        forall|i: int| 0 <= i < op.len() ==> !is_digit(#[trigger] op[i]),
    ensures
        normal_comparator(op) == trim(op),
{
    let r = trimming_takes_only_space(op);
    let t = trim(op);
    let e = Seq::<char>::empty();
    assert forall|i: int| 0 <= i < t.len() implies !is_digit(#[trigger] t[i]) by {
        assert(op[r.0.len() + i] == t[i]);
    }
    lemma_find_digit(t, e, 0);
    assert(t + e == t);
    assert(t.subrange(0, t.len() as int) == t);
    let number = replace_char(t.subrange(t.len() as int, t.len() as int), '-', '.');
    assert(number == e);
    assert(count_char(number, '.') == 0);
    assert(t + e == t);
}

/// A version may be written with hyphens or with dots: the comparator is the same.
pub proof fn hyphens_in_comparators_count_as_dots(a: Seq<char>, op: Seq<char>, v: Seq<char>, b: Seq<char>)
    requires
        is_blank(a),
        is_blank(b),
        forall|i: int| 0 <= i < op.len() ==> !is_digit(#[trigger] op[i]),
        op.len() > 0 ==> !is_whitespace(op[0]),
        v.len() > 0,
        is_digit(v[0]),
        !is_whitespace(v.last()),
    ensures
        normal_comparator(a + op + v + b) == normal_comparator(a + op + replace_char(v, '-', '.') + b),
{
    let w = replace_char(v, '-', '.');
    lemma_trimmed_comparator(a, op, v, b);
    lemma_trimmed_comparator(a, op, w, b);
    assert(replace_char(w, '-', '.') == w);
}

/// The comparators of a requirement are made normal one by one, and stay in their order.
pub proof fn comparators_are_filled_up_one_by_one(a: Seq<char>, b: Seq<char>)
    ensures
        normal_requirement(a + seq![','] + b) == normal_requirement(a) + ", "@ + normal_requirement(b),
        !a.contains(',') ==> normal_requirement(a) == normal_comparator(a),
{
    let f = |p: Seq<char>| normal_comparator(p);
    pieces_of_both(a, b, ',');
    pieces_make_the_text(a, ',');
    pieces_make_the_text(b, ',');
    let x = split(a, ',').map_values(f);
    let y = split(b, ',').map_values(f);
    assert((split(a, ',') + split(b, ',')).map_values(f) == x + y);
    joined_of_both(x, y, ", "@);
    if !a.contains(',') {
        plain_text_is_one_piece(a, ',');
        assert(x == seq![normal_comparator(a)]);
    }
}

/// A requirement of white space, or of a star, is met by every version; white space round
/// any other does not count.
pub proof fn space_round_a_requirement_does_not_count(a: Seq<char>, t: Seq<char>, b: Seq<char>)
    requires
        is_blank(a),
        is_blank(b),
    ensures
        requirement(a) == Ok::<Seq<char>, ErrorView>("*"@),
        requirement(a + "*"@ + b) == Ok::<Seq<char>, ErrorView>("*"@),
        requirement(a + t + b) == requirement(t),
{
    reveal_strlit("*");
    nothing_is_left_of_space(a);
    trimming_undoes_padding(a, "*"@, b);
    padding_does_not_count(a, t, b);
}

/// A requirement that is in its normal form already says what it says as a requirement of
/// semantic versioning: it is accepted where that is, with the same meaning.
pub proof fn normal_requirements_are_taken_as_they_are(t: Seq<char>)
    requires
        t.len() > 0,
        trim(t) == t,
        t != "*"@,
        normal_requirement(t) == t,
    ensures
        requirement(t) is Ok <==> semver_requirement(t) is Ok,
        requirement(t) is Ok ==> requirement(t)->Ok_0 == semver_requirement(t)->Ok_0,
        requirement(t) is Err ==> requirement(t)->Err_0 == ErrorView::Semver(semver_requirement(t)->Err_0),
{
}

/// Two requirements with one normal form are one requirement.
pub proof fn normal_form_decides(s: Seq<char>, t: Seq<char>)
    requires
        trim(s).len() > 0,
        trim(s) != "*"@,
        trim(t).len() > 0,
        trim(t) != "*"@,
        normal_requirement(trim(s)) == normal_requirement(trim(t)),
    ensures
        requirement(s) == requirement(t),
{
}

/// A version without a tag is admitted where it satisfies the requirement. One with a tag
/// is admitted where it does, and where the version with the same three numbers and
/// nothing behind them does; else it is not.
pub proof fn tags_do_not_keep_versions_out(req: Seq<char>, v: VersionView, w: VersionView)
    requires
        w.major == v.major,
        w.minor == v.minor,
        w.patch == v.patch,
        w.pre == Seq::<char>::empty(),
        w.build == Seq::<char>::empty(),
    ensures
        satisfies(v, req) ==> admits(req, v),
        v.pre.len() == 0 ==> (admits(req, v) <==> satisfies(v, req)),
        v.pre.len() > 0 && satisfies(w, req) ==> admits(req, v),
        admits(req, v) ==> satisfies(v, req) || satisfies(w, req),
{
    let r = super::requirement::release_of(v);
    assert(r.pre == w.pre);
    assert(r.build == w.build);
    assert(r == w);
}

proof fn lemma_parts_of_one(p: Seq<char>)
    requires
        is_one_part(p),
    ensures
        version_parts(p) == seq![without_zeros(p)],
{
    let r = replace_char(p, '-', '.');
    assert(r == p);
    assert(!p.contains('.')) by {
        if p.contains('.') {
            let i = choose|i: int| 0 <= i < p.len() && p[i] == '.';
            assert(!is_separator(p[i]));
        }
    }
    plain_text_is_one_piece(p, '.');
    assert(version_parts(p) == seq![without_zeros(p)]);
}

/// The parts of an R version are those in front of a separator and those behind it; dots
/// and hyphens both separate.
pub proof fn separators_part_versions(a: Seq<char>, sep: char, b: Seq<char>)
    requires
        is_separator(sep),
    ensures
        version_parts(a + seq![sep] + b) == version_parts(a) + version_parts(b),
{
    let w = a + seq![sep] + b;
    let x = replace_char(a, '-', '.');
    let y = replace_char(b, '-', '.');
    let f = |p: Seq<char>| without_zeros(p);
    assert(replace_char(w, '-', '.') == x + seq!['.'] + y);
    pieces_of_both(x, y, '.');
    assert((split(x, '.') + split(y, '.')).map_values(f) == split(x, '.').map_values(f) + split(y, '.').map_values(f));
}

/// A part that is a number is written without leading zeros or a sign, any other as it is.
pub proof fn numbers_lose_their_zeros(p: Seq<char>, n: nat)
    ensures
        parse_number(p, u64::MAX as nat) == Some(n) ==> without_zeros(p) == decimal(n),
        parse_number(p, u64::MAX as nat) is None ==> without_zeros(p) == p,
{
}

/// The semantic version of an R version of one to four parts: the first three with dots
/// between them, zero for each that is missing, and the fourth as a pre-release tag.
pub proof fn version_from_its_parts(a: Seq<char>, s: char, b: Seq<char>, t: char, c: Seq<char>, u: char, d: Seq<char>)
    requires
        is_one_part(a),
        is_one_part(b),
        is_one_part(c),
        is_one_part(d),
        is_separator(s),
        is_separator(t),
        is_separator(u),
    ensures
        normal_version(a) == without_zeros(a) + ".0.0"@,
        normal_version(a + seq![s] + b) == without_zeros(a) + "."@ + without_zeros(b) + ".0"@,
        normal_version(a + seq![s] + b + seq![t] + c) == without_zeros(a) + "."@ + without_zeros(b) + "."@ + without_zeros(c),
        normal_version(a + seq![s] + b + seq![t] + c + seq![u] + d) == without_zeros(a) + "."@ + without_zeros(b) + "."@
            + without_zeros(c) + "-4."@ + without_zeros(d),
{
    reveal_strlit(".0.0");
    reveal_strlit(".0");
    reveal_strlit(".");
    reveal_strlit("0");
    lemma_parts_of_one(a);
    lemma_parts_of_one(b);
    lemma_parts_of_one(c);
    lemma_parts_of_one(d);
    let ab = a + seq![s] + b;
    let abc = ab + seq![t] + c;
    separators_part_versions(a, s, b);
    separators_part_versions(ab, t, c);
    separators_part_versions(abc, u, d);
    assert(version_parts(ab) == seq![without_zeros(a), without_zeros(b)]);
    assert(version_parts(abc) == seq![without_zeros(a), without_zeros(b), without_zeros(c)]);
    assert(version_parts(abc + seq![u] + d) == seq![without_zeros(a), without_zeros(b), without_zeros(c), without_zeros(d)]);
    assert(normal_version(a) == without_zeros(a) + ".0.0"@);
    assert(normal_version(ab) == without_zeros(a) + "."@ + without_zeros(b) + ".0"@);
}

/// What stands behind the fourth part of a version does not count.
pub proof fn parts_after_the_fourth_do_not_count(v: Seq<char>, sep: char, rest: Seq<char>)
    requires
        is_separator(sep),
        version_parts(v).len() >= 4,
    ensures
        normal_version(v + seq![sep] + rest) == normal_version(v),
{
    separators_part_versions(v, sep, rest);
}

} // verus!
