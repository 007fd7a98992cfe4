//! What the ways of taking texts apart and putting them together have to do with each
//! other.
use vstd::prelude::*;

use crate::text::{
    all_digits, char_end, contains_text, ends_with, find_char, is_digit, is_whitespace, join, lower, lower_char, number,
    parse_number, precedes, precedes_from, replace_char, replace_text, rfind_char, rsplit_once,
    same_ignoring_case, skip_char, skip_space, skip_word, space_end, split, split_from, split_once, split_text,
    split_text_from, stands_at, starts_with, strip_prefix, strip_suffix, trim, trim_char,
    trim_end_char, trim_start, trim_start_char, words, words_from,
};

verus! {

/// Only white space.
pub open spec fn is_blank(s: Seq<char>) -> bool {
    forall|i: int| 0 <= i < s.len() ==> is_whitespace(#[trigger] s[i])
}

proof fn lemma_skip_space(s: Seq<char>, i: int)
    requires
        0 <= i <= s.len(),
    ensures
        i <= skip_space(s, i) <= s.len(),
        forall|j: int| i <= j < skip_space(s, i) ==> is_whitespace(#[trigger] s[j]),
        skip_space(s, i) < s.len() ==> !is_whitespace(s[skip_space(s, i)]),
    decreases s.len() - i,
{
    if i < s.len() && is_whitespace(s[i]) {
        lemma_skip_space(s, i + 1);
    }
}

proof fn lemma_space_end(s: Seq<char>, j: int)
    requires
        0 <= j <= s.len(),
    ensures
        0 <= space_end(s, j) <= j,
        forall|i: int| space_end(s, j) <= i < j ==> is_whitespace(#[trigger] s[i]),
        space_end(s, j) > 0 ==> !is_whitespace(s[space_end(s, j) - 1]),
    decreases j,
{
    if j > 0 && is_whitespace(s[j - 1]) {
        lemma_space_end(s, j - 1);
    }
}

/// Trimming takes white space away from both ends, all of it and nothing else.
pub proof fn trimming_takes_only_space(s: Seq<char>) -> (r: (Seq<char>, Seq<char>))
    ensures
        s == r.0 + trim(s) + r.1,
        is_blank(r.0),
        is_blank(r.1),
        trim(s).len() > 0 ==> !is_whitespace(trim(s)[0]) && !is_whitespace(trim(s).last()),
{
    lemma_skip_space(s, 0);
    let a = skip_space(s, 0);
    let t = trim_start(s);
    lemma_space_end(t, t.len() as int);
    let b = space_end(t, t.len() as int);
    let left = s.subrange(0, a);
    let right = t.subrange(b, t.len() as int);
    assert(s =~= left + trim(s) + right);
    assert forall|i: int| 0 <= i < left.len() implies is_whitespace(#[trigger] left[i]) by {
        assert(is_whitespace(s[i]));
    }
    assert forall|i: int| 0 <= i < right.len() implies is_whitespace(#[trigger] right[i]) by {
        assert(is_whitespace(t[b + i]));
    }
    if trim(s).len() > 0 {
        assert(trim(s)[0] == s[a]);
        assert(trim(s).last() == t[b - 1]);
    }
    (left, right)
}

proof fn lemma_skip_blank(a: Seq<char>, t: Seq<char>, i: int)
    requires
        is_blank(a),
        t.len() > 0,
        !is_whitespace(t[0]),
        0 <= i <= a.len(),
    ensures
        skip_space(a + t, i) == a.len(),
    decreases a.len() - i,
{
    if i < a.len() {
        assert((a + t)[i] == a[i]);
        lemma_skip_blank(a, t, i + 1);
    } else {
        assert((a + t)[i] == t[0]);
    }
}

proof fn lemma_end_blank(t: Seq<char>, b: Seq<char>, j: int)
    requires
        is_blank(b),
        t.len() > 0,
        !is_whitespace(t.last()),
        t.len() <= j <= t.len() + b.len(),
    ensures
        space_end(t + b, j) == t.len(),
    decreases j,
{
    if j > t.len() {
        assert((t + b)[j - 1] == b[j - 1 - t.len()]);
        lemma_end_blank(t, b, j - 1);
    } else {
        assert((t + b)[j - 1] == t.last());
    }
}

/// White space round a text without white space at its ends is what trimming takes away.
pub proof fn trimming_undoes_padding(a: Seq<char>, t: Seq<char>, b: Seq<char>)
    requires
        is_blank(a),
        is_blank(b),
        t.len() > 0,
        !is_whitespace(t[0]),
        !is_whitespace(t.last()),
    ensures
        trim(a + t + b) == t,
{
    let s = a + t + b;
    assert(s =~= a + (t + b));
    lemma_skip_blank(a, t + b, 0);
    assert(trim_start(s) =~= t + b);
    lemma_end_blank(t, b, (t + b).len() as int);
    assert(trim(s) =~= t);
}

proof fn lemma_all_blank(s: Seq<char>, i: int)
    requires
        is_blank(s),
        0 <= i <= s.len(),
    ensures
        skip_space(s, i) == s.len(),
    decreases s.len() - i,
{
    if i < s.len() {
        lemma_all_blank(s, i + 1);
    }
}

/// Nothing is left of white space.
pub proof fn nothing_is_left_of_space(s: Seq<char>)
    requires
        is_blank(s),
    ensures
        trim(s) == Seq::<char>::empty(),
{
    lemma_all_blank(s, 0);
    assert(trim_start(s) =~= Seq::<char>::empty());
    assert(trim(s) =~= Seq::<char>::empty());
}

/// What was trimmed is trimmed.
pub proof fn trimming_twice_is_trimming(s: Seq<char>)
    ensures
        trim(trim(s)) == trim(s),
{
    let r = trimming_takes_only_space(s);
    let t = trim(s);
    let e = Seq::<char>::empty();
    if t.len() > 0 {
        trimming_undoes_padding(e, t, e);
        assert(e + t + e =~= t);
    } else {
        nothing_is_left_of_space(t);
        assert(t =~= e);
    }
}

/// White space round a text does not change what trimming leaves of it.
#[verifier::rlimit(40)]
pub proof fn padding_does_not_count(a: Seq<char>, t: Seq<char>, b: Seq<char>)
    requires
        is_blank(a),
        is_blank(b),
    ensures
        trim(a + t + b) == trim(t),
{
    let r = trimming_takes_only_space(t);
    let c = trim(t);
    let x = a + r.0;
    let y = r.1 + b;
    assert forall|i: int| 0 <= i < x.len() implies is_whitespace(#[trigger] x[i]) by {
        if i < a.len() {
            assert(is_whitespace(a[i]));
        } else {
            assert(is_whitespace(r.0[i - a.len()]));
        }
    }
    assert forall|i: int| 0 <= i < y.len() implies is_whitespace(#[trigger] y[i]) by {
        if i < r.1.len() {
            assert(is_whitespace(r.1[i]));
        } else {
            assert(is_whitespace(b[i - r.1.len()]));
        }
    }
    assert(a + t + b =~= x + c + y);
    if c.len() > 0 {
        trimming_undoes_padding(x, c, y);
    } else {
        let w = a + t + b;
        assert forall|i: int| 0 <= i < w.len() implies is_whitespace(#[trigger] w[i]) by {
            if i < x.len() {
                assert(is_whitespace(x[i]));
            } else {
                assert(is_whitespace(y[i - x.len()]));
            }
        }
        nothing_is_left_of_space(w);
        assert(c =~= Seq::<char>::empty());
    }
}

proof fn lemma_split_from(s: Seq<char>, c: char, start: int, i: int)
    requires
        0 <= start <= i <= s.len(),
        forall|j: int| start <= j < i ==> s[j] != c,
    ensures
        split_from(s, c, start, i).len() > 0,
        forall|k: int| 0 <= k < split_from(s, c, start, i).len() ==> !(#[trigger] split_from(s, c, start, i)[k]).contains(c),
        join(split_from(s, c, start, i), seq![c]) == s.subrange(start, s.len() as int),
    decreases s.len() - i,
{
    let p = split_from(s, c, start, i);
    if i >= s.len() {
        assert(p.len() == 1);
        assert(p[0] == s.subrange(start, s.len() as int));
    } else if s[i] == c {
        let q = split_from(s, c, i + 1, i + 1);
        lemma_split_from(s, c, i + 1, i + 1);
        assert(p =~= seq![s.subrange(start, i)] + q);
        assert forall|k: int| 0 <= k < p.len() implies !(#[trigger] p[k]).contains(c) by {
            if k > 0 {
                assert(p[k] == q[k - 1]);
            }
        }
        lemma_join_first(s.subrange(start, i), q, seq![c]);
        assert(s.subrange(start, s.len() as int) =~= s.subrange(start, i) + seq![c] + s.subrange(i + 1, s.len() as int));
    } else {
        lemma_split_from(s, c, start, i + 1);
    }
}

proof fn lemma_join_first(a: Seq<char>, q: Seq<Seq<char>>, sep: Seq<char>)
    requires
        q.len() > 0,
    ensures
        join(seq![a] + q, sep) == a + sep + join(q, sep),
    decreases q.len(),
{
    let p = seq![a] + q;
    if q.len() == 1 {
        assert(p.drop_last() =~= seq![a]);
        assert(join(seq![a], sep) == a);
        assert(p.last() == q[0]);
    } else {
        assert(p.drop_last() =~= seq![a] + q.drop_last());
        lemma_join_first(a, q.drop_last(), sep);
        assert(p.last() == q.last());
        assert(join(p, sep) =~= a + sep + join(q, sep));
    }
}

/// The pieces of a text hold no separator, and the text is made of them with a separator
/// between neighbours.
pub proof fn pieces_make_the_text(s: Seq<char>, c: char)
    ensures
        split(s, c).len() > 0,
        forall|k: int| 0 <= k < split(s, c).len() ==> !(#[trigger] split(s, c)[k]).contains(c),
        join(split(s, c), seq![c]) == s,
{
    lemma_split_from(s, c, 0, 0);
    assert(s.subrange(0, s.len() as int) =~= s);
}

proof fn lemma_split_plain(s: Seq<char>, c: char, i: int)
    requires
        !s.contains(c),
        0 <= i <= s.len(),
    ensures
        split_from(s, c, 0, i) == seq![s],
    decreases s.len() - i,
{
    if i < s.len() {
        assert(s.contains(s[i]));
        lemma_split_plain(s, c, i + 1);
    } else {
        assert(s.subrange(0, s.len() as int) =~= s);
    }
}

/// A text without separators is one piece.
pub proof fn plain_text_is_one_piece(s: Seq<char>, c: char)
    requires
        !s.contains(c),
    ensures
        split(s, c) == seq![s],
{
    lemma_split_plain(s, c, 0);
}

proof fn lemma_split_shift(p: Seq<char>, t: Seq<char>, c: char, start: int, i: int)
    requires
        0 <= start <= i <= t.len(),
    ensures
        split_from(p + t, c, p.len() + start, p.len() + i) == split_from(t, c, start, i),
    decreases t.len() - i,
{
    let w = p + t;
    let n = p.len() as int;
    if i >= t.len() {
        assert(w.subrange(n + start, w.len() as int) =~= t.subrange(start, t.len() as int));
    } else {
        assert(w[n + i] == t[i]);
        assert(w.subrange(n + start, n + i) =~= t.subrange(start, i));
        if t[i] == c {
            lemma_split_shift(p, t, c, i + 1, i + 1);
        } else {
            lemma_split_shift(p, t, c, start, i + 1);
        }
    }
}

proof fn lemma_split_concat(a: Seq<char>, b: Seq<char>, c: char, start: int, i: int)
    requires
        0 <= start <= i <= a.len(),
    ensures
        split_from(a + seq![c] + b, c, start, i) == split_from(a, c, start, i) + split(b, c),
    decreases a.len() - i,
{
    let w = a + seq![c] + b;
    if i < a.len() {
        assert(w[i] == a[i]);
        assert(w.subrange(start, i) =~= a.subrange(start, i));
        if a[i] == c {
            lemma_split_concat(a, b, c, i + 1, i + 1);
            assert(split_from(w, c, start, i) =~= split_from(a, c, start, i) + split(b, c));
        } else {
            lemma_split_concat(a, b, c, start, i + 1);
        }
    } else {
        assert(w[i] == c);
        assert(w.subrange(start, i) =~= a.subrange(start, i));
        let p = a + seq![c];
        lemma_split_shift(p, b, c, 0, 0);
        assert(split_from(w, c, i + 1, i + 1) == split(b, c));
    }
}

/// The pieces of two texts with a separator between them are those of the one and those of
/// the other.
pub proof fn pieces_of_both(a: Seq<char>, b: Seq<char>, c: char)
    ensures
        split(a + seq![c] + b, c) == split(a, c) + split(b, c),
{
    lemma_split_concat(a, b, c, 0, 0);
}

/// Texts joined are those in front joined, and those behind joined, with a separator
/// between.
pub proof fn joined_of_both(a: Seq<Seq<char>>, b: Seq<Seq<char>>, sep: Seq<char>)
    requires
        a.len() > 0,
        b.len() > 0,
    ensures
        join(a + b, sep) == join(a, sep) + sep + join(b, sep),
    decreases b.len(),
{
    let p = a + b;
    assert(p.last() == b.last());
    if b.len() == 1 {
        assert(p.drop_last() =~= a);
        assert(join(b, sep) == b[0]);
    } else {
        assert(p.drop_last() =~= a + b.drop_last());
        joined_of_both(a, b.drop_last(), sep);
        assert(join(p, sep) =~= join(a, sep) + sep + join(b, sep));
    }
}

proof fn lemma_find(s: Seq<char>, c: char, i: int)
    requires
        0 <= i <= s.len(),
    ensures
        i <= find_char(s, c, i) <= s.len(),
        forall|j: int| i <= j < find_char(s, c, i) ==> #[trigger] s[j] != c,
        find_char(s, c, i) < s.len() ==> s[find_char(s, c, i)] == c,
    decreases s.len() - i,
{
    if i < s.len() && s[i] != c {
        lemma_find(s, c, i + 1);
    }
}

proof fn lemma_rfind(s: Seq<char>, c: char, j: int)
    requires
        0 <= j <= s.len(),
    ensures
        -1 <= rfind_char(s, c, j) < j || j == 0,
        forall|i: int| rfind_char(s, c, j) < i < j ==> #[trigger] s[i] != c,
        rfind_char(s, c, j) >= 0 ==> rfind_char(s, c, j) < s.len() && s[rfind_char(s, c, j)] == c,
        rfind_char(s, c, j) >= -1,
    decreases j,
{
    if j > 0 && s[j - 1] != c {
        lemma_rfind(s, c, j - 1);
    }
}

/// A text is cut once at the first separator, and the last cut is at the last one; where
/// there is none it is not cut.
#[verifier::rlimit(40)]
pub proof fn cuts_are_at_the_ends(s: Seq<char>, c: char)
    ensures
        match split_once(s, c) {
            Some((a, b)) => s == a + seq![c] + b && !a.contains(c),
            None => !s.contains(c),
        },
        match rsplit_once(s, c) {
            Some((a, b)) => s == a + seq![c] + b && !b.contains(c),
            None => !s.contains(c),
        },
{
    lemma_find(s, c, 0);
    lemma_rfind(s, c, s.len() as int);
    let k = find_char(s, c, 0);
    if k < s.len() {
        let a = s.subrange(0, k);
        let b = s.subrange(k + 1, s.len() as int);
        assert(s =~= a + seq![c] + b);
        assert forall|i: int| 0 <= i < a.len() implies a[i] != c by {
            assert(s[i] != c);
        }
    } else {
        assert forall|i: int| 0 <= i < s.len() implies s[i] != c by {}
    }
    let m = rfind_char(s, c, s.len() as int);
    if m >= 0 {
        let a = s.subrange(0, m);
        let b = s.subrange(m + 1, s.len() as int);
        assert(s =~= a + seq![c] + b);
        assert forall|i: int| 0 <= i < b.len() implies b[i] != c by {
            assert(s[m + 1 + i] != c);
        }
    }
}

proof fn lemma_find_first(a: Seq<char>, b: Seq<char>, c: char, i: int)
    requires
        !a.contains(c),
        0 <= i <= a.len(),
    ensures
        find_char(a + seq![c] + b, c, i) == a.len(),
    decreases a.len() - i,
{
    let w = a + seq![c] + b;
    if i < a.len() {
        assert(w[i] == a[i]);
        assert(a.contains(a[i]));
        lemma_find_first(a, b, c, i + 1);
    } else {
        assert(w[i] == c);
    }
}

proof fn lemma_find_last(a: Seq<char>, b: Seq<char>, c: char, j: int)
    requires
        !b.contains(c),
        a.len() < j <= a.len() + 1 + b.len(),
    ensures
        rfind_char(a + seq![c] + b, c, j) == a.len(),
    decreases j,
{
    let w = a + seq![c] + b;
    if j == a.len() + 1 {
        assert(w[j - 1] == c);
    } else {
        assert(w[j - 1] == b[j - 2 - a.len()]);
        assert(b.contains(b[j - 2 - a.len()]));
        lemma_find_last(a, b, c, j - 1);
    }
}

/// What was put together at a separator is cut apart there, if the separator is the first
/// or the last one.
pub proof fn cutting_undoes_joining(a: Seq<char>, b: Seq<char>, c: char)
    ensures
        !a.contains(c) ==> split_once(a + seq![c] + b, c) == Some((a, b)),
        !b.contains(c) ==> rsplit_once(a + seq![c] + b, c) == Some((a, b)),
{
    let w = a + seq![c] + b;
    assert(w.subrange(0, a.len() as int) =~= a);
    assert(w.subrange(a.len() as int + 1, w.len() as int) =~= b);
    if !a.contains(c) {
        lemma_find_first(a, b, c, 0);
    }
    if !b.contains(c) {
        lemma_find_last(a, b, c, w.len() as int);
    }
}

/// A prefix or suffix that was put on is the one that is taken off.
pub proof fn stripping_undoes_adding(p: Seq<char>, t: Seq<char>)
    ensures
        strip_prefix(p + t, p) == Some(t),
        strip_suffix(t + p, p) == Some(t),
        starts_with(p + t, p),
        ends_with(t + p, p),
{
    let w = p + t;
    let v = t + p;
    assert(w.subrange(0, p.len() as int) =~= p);
    assert(w.subrange(p.len() as int, w.len() as int) =~= t);
    assert(v.subrange(t.len() as int, v.len() as int) =~= p);
    assert(v.subrange(0, t.len() as int) =~= t);
}

proof fn lemma_skip_word(s: Seq<char>, i: int)
    requires
        0 <= i <= s.len(),
        forall|j: int| 0 <= j < s.len() ==> !is_whitespace(#[trigger] s[j]),
    ensures
        skip_word(s, i) == s.len(),
    decreases s.len() - i,
{
    if i < s.len() {
        lemma_skip_word(s, i + 1);
    }
}

/// A text without white space is one word.
pub proof fn unbroken_text_is_one_word(s: Seq<char>)
    requires
        s.len() > 0,
        forall|j: int| 0 <= j < s.len() ==> !is_whitespace(#[trigger] s[j]),
    ensures
        words(s) == seq![s],
{
    lemma_skip_word(s, 1);
    assert(s.subrange(0, s.len() as int) =~= s);
    assert(words_from(s, s.len() as int) == Seq::<Seq<char>>::empty());
    assert(words(s) =~= seq![s]);
}

proof fn lemma_split_text_char(s: Seq<char>, c: char, start: int, i: int)
    requires
        0 <= start <= i <= s.len(),
    ensures
        split_text_from(s, seq![c], start, i) == split_from(s, c, start, i),
    decreases s.len() - i,
{
    if i < s.len() {
        assert(s.subrange(i, i + 1) =~= seq![s[i]]);
        assert(seq![s[i]][0] == s[i]);
        assert(seq![c][0] == c);
        assert(stands_at(s, seq![c], i) <==> s[i] == c);
        if s[i] == c {
            lemma_split_text_char(s, c, i + 1, i + 1);
        } else {
            lemma_split_text_char(s, c, start, i + 1);
        }
    }
}

/// A text of one character separates as the character does.
pub proof fn one_character_separates(s: Seq<char>, c: char)
    ensures
        split_text(s, seq![c]) == split(s, c),
{
    lemma_split_text_char(s, c, 0, 0);
}

/// Taking all occurrences of a character out leaves nothing else out.
pub proof fn removing_a_character(a: Seq<char>, b: Seq<char>, c: char)
    ensures
        replace_text(a + seq![c] + b, seq![c], Seq::<char>::empty()) == replace_text(a, seq![c], Seq::<char>::empty())
            + replace_text(b, seq![c], Seq::<char>::empty()),
        !a.contains(c) ==> replace_text(a, seq![c], Seq::<char>::empty()) == a,
{
    let e = Seq::<char>::empty();
    one_character_separates(a + seq![c] + b, c);
    one_character_separates(a, c);
    one_character_separates(b, c);
    pieces_of_both(a, b, c);
    pieces_make_the_text(a, c);
    pieces_make_the_text(b, c);
    joined_of_both(split(a, c), split(b, c), e);
    if !a.contains(c) {
        plain_text_is_one_piece(a, c);
    }
}

/// Every place holds what it held, but for those where one character stands for another.
pub proof fn replacing_changes_one_character(s: Seq<char>, a: char, b: char)
    ensures
        replace_char(s, a, b).len() == s.len(),
        forall|i: int| 0 <= i < s.len() ==> #[trigger] replace_char(s, a, b)[i] == (if s[i] == a {
            b
        } else {
            s[i]
        }),
        a != b ==> !replace_char(s, a, b).contains(a),
{
    if a != b {
        let r = replace_char(s, a, b);
        assert forall|i: int| 0 <= i < r.len() implies r[i] != a by {}
    }
}

proof fn lemma_number_after_zero(s: Seq<char>)
    ensures
        number(seq!['0'] + s) == number(s),
    decreases s.len(),
{
    reveal_with_fuel(number, 2);
    let w = seq!['0'] + s;
    if s.len() == 0 {
        assert(w.drop_last() == Seq::<char>::empty());
    } else {
        lemma_number_after_zero(s.drop_last());
        assert(w.drop_last() == seq!['0'] + s.drop_last());
        assert(w.last() == s.last());
    }
}

/// Zeros and a plus sign in front of a number do not count.
pub proof fn zeros_and_a_sign_do_not_count(s: Seq<char>, max: nat)
    requires
        s.len() > 0,
        all_digits(s),
    ensures
        parse_number(seq!['0'] + s, max) == parse_number(s, max),
        parse_number(seq!['+'] + s, max) == parse_number(s, max),
        parse_number(s, max) is Some <==> number(s) <= max,
        parse_number(s, max) matches Some(n) ==> n == number(s),
{
    lemma_number_after_zero(s);
    let z = seq!['0'] + s;
    assert(all_digits(z)) by {
        assert forall|i: int| 0 <= i < z.len() implies is_digit(#[trigger] z[i]) by {
            if i > 0 {
                assert(is_digit(s[i - 1]));
            }
        }
    }
    assert(is_digit(s[0]));
    assert((seq!['+'] + s).drop_first() == s);
}

/// Only digits make a number.
pub proof fn other_texts_are_no_numbers(s: Seq<char>, i: int, max: nat)
    requires
        0 < i < s.len() || s.len() == 1 && i == 0,
        !is_digit(s[i]),
    ensures
        parse_number(s, max) is None,
        parse_number(Seq::empty(), max) is None,
{
    let digits = if s[0] == '+' {
        s.drop_first()
    } else {
        s
    };
    if digits.len() > 0 && all_digits(digits) {
        assert(is_digit(digits[if s[0] == '+' { i - 1 } else { i }]));
    }
}

/// A letter counts like the letter of the other case, which is 32 code points away; any
/// other two characters are told apart.
pub proof fn letters_count_in_both_cases(a: char, b: char)
    ensures
        lower_char(a) == lower_char(b) <==> a == b || 'A' <= a <= 'Z' && b as u32 == a as u32 + 32 || 'A' <= b <= 'Z'
            && a as u32 == b as u32 + 32,
        same_ignoring_case(seq![a], seq![b]) <==> lower_char(a) == lower_char(b),
{
    let f = |c: char| lower_char(c);
    assert(lower(seq![a])[0] == lower_char(a));
    assert(lower(seq![b])[0] == lower_char(b));
    if lower_char(a) == lower_char(b) {
        assert(lower(seq![a]) == lower(seq![b]));
    }
}

/// Texts are the same up to case where their parts are.
pub proof fn case_is_ignored_part_by_part(a: Seq<char>, b: Seq<char>, c: Seq<char>, d: Seq<char>)
    requires
        a.len() == b.len(),
    ensures
        same_ignoring_case(a + c, b + d) <==> same_ignoring_case(a, b) && same_ignoring_case(c, d),
        same_ignoring_case(a, b) <==> same_ignoring_case(b, a),
        same_ignoring_case(a, lower(a)),
{
    assert(lower(a + c) == lower(a) + lower(c));
    assert(lower(b + d) == lower(b) + lower(d));
    assert(lower(a).len() == lower(b).len());
    if lower(a + c) == lower(b + d) {
        assert((lower(a) + lower(c)).take(lower(a).len() as int) == lower(a));
        assert((lower(b) + lower(d)).take(lower(b).len() as int) == lower(b));
        assert((lower(a) + lower(c)).skip(lower(a).len() as int) == lower(c));
        assert((lower(b) + lower(d)).skip(lower(b).len() as int) == lower(d));
    }
    assert(lower(lower(a)) == lower(a));
}

/// A text comes before all that it begins; of two others the first character at which they
/// differ decides.
pub proof fn first_difference_decides(p: Seq<char>, x: char, y: char, s: Seq<char>, t: Seq<char>)
    ensures
        precedes(p, p.push(x) + s),
        x != y ==> (precedes(p.push(x) + s, p.push(y) + t) <==> x < y),
{
    lemma_common_start(p, p.push(x) + s, 0, p);
    if x != y {
        lemma_common_start(p.push(x) + s, p.push(y) + t, 0, p);
    }
}

proof fn lemma_common_start(a: Seq<char>, b: Seq<char>, i: int, p: Seq<char>)
    requires
        0 <= i <= p.len() <= a.len(),
        p.len() <= b.len(),
        forall|k: int| 0 <= k < p.len() ==> a[k] == b[k],
    ensures
        precedes_from(a, b, i) == precedes_from(a, b, p.len() as int),
    decreases p.len() - i,
{
    if i < p.len() {
        lemma_common_start(a, b, i + 1, p);
    }
}

proof fn lemma_skip_char(s: Seq<char>, c: char, n: nat, i: int)
    requires
        s.len() == 0 || s[0] != c,
        0 <= i <= n,
    ensures
        skip_char(Seq::new(n, |k: int| c) + s, c, i) == n,
    decreases n - i,
{
    let w = Seq::new(n, |k: int| c) + s;
    if i < n {
        assert(w[i] == c);
        lemma_skip_char(s, c, n, i + 1);
    } else if s.len() > 0 {
        assert(w[i] == s[0]);
    }
}

proof fn lemma_char_end(s: Seq<char>, c: char, m: nat, j: int)
    requires
        s.len() == 0 || s.last() != c,
        s.len() <= j <= s.len() + m,
    ensures
        char_end(s + Seq::new(m, |k: int| c), c, j) == s.len(),
    decreases j,
{
    let w = s + Seq::new(m, |k: int| c);
    if j > s.len() {
        assert(w[j - 1] == c);
        lemma_char_end(s, c, m, j - 1);
    } else if s.len() > 0 {
        assert(w[j - 1] == s.last());
    }
}

/// A character at the ends goes as often as it stands there, and nothing else goes.
pub proof fn characters_at_the_ends_go(s: Seq<char>, c: char, n: nat, m: nat)
    requires
        s.len() > 0,
        s[0] != c,
        s.last() != c,
    ensures
        trim_char(Seq::new(n, |k: int| c) + s + Seq::new(m, |k: int| c), c) == s,
        trim_end_char(s + Seq::new(m, |k: int| c), c) == s,
        trim_start_char(Seq::new(n, |k: int| c) + s, c) == s,
{
    let a = Seq::new(n, |k: int| c);
    let b = Seq::new(m, |k: int| c);
    let sb = s + b;
    assert(sb[0] == s[0]);
    assert(a + s + b == a + sb);
    lemma_skip_char(sb, c, n, 0);
    lemma_skip_char(s, c, n, 0);
    assert((a + sb).subrange(n as int, (a + sb).len() as int) == sb);
    assert((a + s).subrange(n as int, (a + s).len() as int) == s);
    lemma_char_end(s, c, m, (s.len() + m) as int);
    assert(sb.subrange(0, s.len() as int) == s);
}

/// A text stands in another one if and only if that one is something before it, the text
/// itself and something behind it.
pub proof fn texts_stand_within_texts(s: Seq<char>, a: Seq<char>, p: Seq<char>, b: Seq<char>) -> (r: (Seq<char>, Seq<char>))
    ensures
        contains_text(a + p + b, p),
        contains_text(s, p) ==> s == r.0 + p + r.1,
{
    let w = a + p + b;
    assert(w.subrange(a.len() as int, (a.len() + p.len()) as int) == p);
    assert(stands_at(w, p, a.len() as int));
    if contains_text(s, p) {
        let i = choose|i: int| #[trigger] stands_at(s, p, i);
        let r = (s.take(i), s.skip(i + p.len()));
        assert(s == r.0 + s.subrange(i, i + p.len()) + r.1);
        r
    } else {
        (a, b)
    }
}

} // verus!
