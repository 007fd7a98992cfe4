//! Character sequences: the specification vocabulary for text, and executable
//! functions that compute it.
//!
//! A text is a sequence of Unicode scalar values. Specifications speak of
//! `Seq<char>`; code works on slices of `char` and goes back to `String` at the
//! edge.
use vstd::prelude::*;
use vstd::slice::slice_subrange;

verus! {

/// `String::push` puts one character at the end of the string.
pub assume_specification[ String::push ](s: &mut String, c: char)
    ensures
        final(s)@ == old(s)@.push(c),
;

// ---------------------------------------------------------------------------
// Vocabulary
// ---------------------------------------------------------------------------

/// The characters with the Unicode property `White_Space`.
pub open spec fn is_whitespace(c: char) -> bool {
    ||| 0x9 <= c as u32 <= 0xd
    ||| c as u32 == 0x20
    ||| c as u32 == 0x85
    ||| c as u32 == 0xa0
    ||| c as u32 == 0x1680
    ||| 0x2000 <= c as u32 <= 0x200a
    ||| c as u32 == 0x2028
    ||| c as u32 == 0x2029
    ||| c as u32 == 0x202f
    ||| c as u32 == 0x205f
    ||| c as u32 == 0x3000
}

/// `0` to `9`.
pub open spec fn is_digit(c: char) -> bool {
    '0' <= c <= '9'
}

/// An ASCII letter.
pub open spec fn is_letter(c: char) -> bool {
    'a' <= c <= 'z' || 'A' <= c <= 'Z'
}

/// An ASCII letter or digit.
pub open spec fn is_alphanumeric(c: char) -> bool {
    is_letter(c) || is_digit(c)
}

/// Every character of `s` is a digit.
pub open spec fn all_digits(s: Seq<char>) -> bool {
    forall|i: int| 0 <= i < s.len() ==> is_digit(#[trigger] s[i])
}

/// ASCII letters in lower case, every other character as it is.
pub open spec fn lower_char(c: char) -> char {
    if 'A' <= c <= 'Z' {
        ((c as u8) + 32) as char
    } else {
        c
    }
}

/// `s` with its ASCII letters in lower case.
pub open spec fn lower(s: Seq<char>) -> Seq<char> {
    s.map_values(|c: char| lower_char(c))
}

/// Equality of texts up to the case of ASCII letters.
pub open spec fn same_ignoring_case(a: Seq<char>, b: Seq<char>) -> bool {
    lower(a) == lower(b)
}

/// The first position at or after `i` that holds `c`, or the length of `s`.
pub open spec fn find_char(s: Seq<char>, c: char, i: int) -> int
    decreases s.len() - i,
{
    if i >= s.len() {
        s.len() as int
    } else if s[i] == c {
        i
    } else {
        find_char(s, c, i + 1)
    }
}

/// The last position before `j` that holds `c`, or -1.
pub open spec fn rfind_char(s: Seq<char>, c: char, j: int) -> int
    decreases j,
{
    if j <= 0 {
        -1
    } else if s[j - 1] == c {
        j - 1
    } else {
        rfind_char(s, c, j - 1)
    }
}

/// The first position at or after `i` that holds a digit, or the length of `s`.
pub open spec fn find_digit(s: Seq<char>, i: int) -> int
    decreases s.len() - i,
{
    if i >= s.len() {
        s.len() as int
    } else if is_digit(s[i]) {
        i
    } else {
        find_digit(s, i + 1)
    }
}

/// `p` stands in `s` at position `i`.
pub open spec fn stands_at(s: Seq<char>, p: Seq<char>, i: int) -> bool {
    0 <= i && i + p.len() <= s.len() && s.subrange(i, i + p.len()) == p
}

pub open spec fn starts_with(s: Seq<char>, p: Seq<char>) -> bool {
    stands_at(s, p, 0)
}

pub open spec fn ends_with(s: Seq<char>, p: Seq<char>) -> bool {
    stands_at(s, p, s.len() - p.len())
}

/// The first position at or after `i` where `p` stands in `s`, or -1.
pub open spec fn find_text(s: Seq<char>, p: Seq<char>, i: int) -> int
    decreases s.len() - i,
{
    if stands_at(s, p, i) {
        i
    } else if i >= s.len() {
        -1
    } else {
        find_text(s, p, i + 1)
    }
}

/// The last position at or before `i` where `p` stands in `s`, or -1.
pub open spec fn rfind_text(s: Seq<char>, p: Seq<char>, i: int) -> int
    decreases i + 1,
{
    if i < 0 {
        -1
    } else if stands_at(s, p, i) {
        i
    } else {
        rfind_text(s, p, i - 1)
    }
}

/// `p` stands somewhere in `s`.
pub open spec fn contains_text(s: Seq<char>, p: Seq<char>) -> bool {
    exists|i: int| #[trigger] stands_at(s, p, i)
}

/// What follows the prefix `p`, where `s` has it.
pub open spec fn strip_prefix(s: Seq<char>, p: Seq<char>) -> Option<Seq<char>> {
    if starts_with(s, p) {
        Some(s.subrange(p.len() as int, s.len() as int))
    } else {
        None
    }
}

/// What stands before the suffix `p`, where `s` has it.
pub open spec fn strip_suffix(s: Seq<char>, p: Seq<char>) -> Option<Seq<char>> {
    if ends_with(s, p) {
        Some(s.subrange(0, s.len() - p.len()))
    } else {
        None
    }
}

/// The texts before and after the first `c`, where there is one.
pub open spec fn split_once(s: Seq<char>, c: char) -> Option<(Seq<char>, Seq<char>)> {
    let k = find_char(s, c, 0);
    if k < s.len() {
        Some((s.subrange(0, k), s.subrange(k + 1, s.len() as int)))
    } else {
        None
    }
}

/// The texts before and after the last `c`, where there is one.
pub open spec fn rsplit_once(s: Seq<char>, c: char) -> Option<(Seq<char>, Seq<char>)> {
    let k = rfind_char(s, c, s.len() as int);
    if k >= 0 {
        Some((s.subrange(0, k), s.subrange(k + 1, s.len() as int)))
    } else {
        None
    }
}

/// The texts before and after the last occurrence of `p`, where there is one.
pub open spec fn rsplit_once_text(s: Seq<char>, p: Seq<char>) -> Option<(Seq<char>, Seq<char>)> {
    let k = rfind_text(s, p, s.len() as int);
    if k >= 0 {
        Some((s.subrange(0, k), s.subrange(k + p.len(), s.len() as int)))
    } else {
        None
    }
}

/// The pieces of `s` from `start` on, cut at each `c` found at or after `i`.
pub open spec fn split_from(s: Seq<char>, c: char, start: int, i: int) -> Seq<Seq<char>>
    decreases s.len() - i,
{
    if i >= s.len() {
        seq![s.subrange(start, s.len() as int)]
    } else if s[i] == c {
        seq![s.subrange(start, i)] + split_from(s, c, i + 1, i + 1)
    } else {
        split_from(s, c, start, i + 1)
    }
}

/// The pieces of `s` between the occurrences of `c`: one more than there are.
pub open spec fn split(s: Seq<char>, c: char) -> Seq<Seq<char>> {
    split_from(s, c, 0, 0)
}

/// The pieces of `s` from `start` on, cut where `p` stands, looking from `i` on.
pub open spec fn split_text_from(s: Seq<char>, p: Seq<char>, start: int, i: int) -> Seq<Seq<char>>
    decreases s.len() - i,
{
    if i + p.len() > s.len() || p.len() == 0 {
        seq![s.subrange(start, s.len() as int)]
    } else if stands_at(s, p, i) {
        seq![s.subrange(start, i)] + split_text_from(s, p, i + p.len(), i + p.len())
    } else {
        split_text_from(s, p, start, i + 1)
    }
}

/// The pieces of `s` between the occurrences of the non-empty text `p`.
pub open spec fn split_text(s: Seq<char>, p: Seq<char>) -> Seq<Seq<char>> {
    split_text_from(s, p, 0, 0)
}

/// `s` with `by` in place of each occurrence of the non-empty text `p`.
pub open spec fn replace_text(s: Seq<char>, p: Seq<char>, by: Seq<char>) -> Seq<char> {
    join(split_text(s, p), by)
}

/// `s` with `b` in place of each `a`.
pub open spec fn replace_char(s: Seq<char>, a: char, b: char) -> Seq<char> {
    s.map_values(
        |c: char|
            if c == a {
                b
            } else {
                c
            },
    )
}

/// How often `c` stands in `s`.
pub open spec fn count_char(s: Seq<char>, c: char) -> nat
    decreases s.len(),
{
    if s.len() == 0 {
        0
    } else {
        count_char(s.drop_last(), c) + (if s.last() == c {
            1nat
        } else {
            0nat
        })
    }
}

/// A line without a carriage return at its end.
pub open spec fn without_cr(s: Seq<char>) -> Seq<char> {
    if s.len() > 0 && s.last() == '\r' {
        s.drop_last()
    } else {
        s
    }
}

/// The lines of `s` from `start` on, looking for line feeds from `i` on.
pub open spec fn lines_from(s: Seq<char>, start: int, i: int) -> Seq<Seq<char>>
    decreases s.len() - i,
{
    if i >= s.len() {
        if start >= s.len() {
            seq![]
        } else {
            seq![s.subrange(start, s.len() as int)]
        }
    } else if s[i] == '\n' {
        seq![without_cr(s.subrange(start, i))] + lines_from(s, i + 1, i + 1)
    } else {
        lines_from(s, start, i + 1)
    }
}

/// The lines of `s`. A line ends with a line feed, or a carriage return and a
/// line feed; neither is part of it. What follows the last line feed is a line
/// only if it is not empty.
pub open spec fn lines(s: Seq<char>) -> Seq<Seq<char>> {
    lines_from(s, 0, 0)
}

/// The first position at or after `i` that holds no white space, or the length.
pub open spec fn skip_space(s: Seq<char>, i: int) -> int
    decreases s.len() - i,
{
    if i >= s.len() {
        s.len() as int
    } else if is_whitespace(s[i]) {
        skip_space(s, i + 1)
    } else {
        i
    }
}

/// The first position at or after `i` that holds white space, or the length.
pub open spec fn skip_word(s: Seq<char>, i: int) -> int
    decreases s.len() - i,
{
    if i >= s.len() {
        s.len() as int
    } else if is_whitespace(s[i]) {
        i
    } else {
        skip_word(s, i + 1)
    }
}

/// One past the last position before `j` that holds no white space, or 0.
pub open spec fn space_end(s: Seq<char>, j: int) -> int
    decreases j,
{
    if j <= 0 {
        0
    } else if is_whitespace(s[j - 1]) {
        space_end(s, j - 1)
    } else {
        j
    }
}

/// `s` without the white space at its start.
pub open spec fn trim_start(s: Seq<char>) -> Seq<char> {
    s.subrange(skip_space(s, 0), s.len() as int)
}

/// `s` without the white space at its end.
pub open spec fn trim_end(s: Seq<char>) -> Seq<char> {
    s.subrange(0, space_end(s, s.len() as int))
}

/// `s` without the white space at both ends.
pub open spec fn trim(s: Seq<char>) -> Seq<char> {
    trim_end(trim_start(s))
}

/// The first position at or after `i` that does not hold `c`, or the length.
pub open spec fn skip_char(s: Seq<char>, c: char, i: int) -> int
    decreases s.len() - i,
{
    if i >= s.len() {
        s.len() as int
    } else if s[i] == c {
        skip_char(s, c, i + 1)
    } else {
        i
    }
}

/// One past the last position before `j` that does not hold `c`, or 0.
pub open spec fn char_end(s: Seq<char>, c: char, j: int) -> int
    decreases j,
{
    if j <= 0 {
        0
    } else if s[j - 1] == c {
        char_end(s, c, j - 1)
    } else {
        j
    }
}

/// `s` without the `c` at its start.
pub open spec fn trim_start_char(s: Seq<char>, c: char) -> Seq<char> {
    s.subrange(skip_char(s, c, 0), s.len() as int)
}

/// `s` without the `c` at its end.
pub open spec fn trim_end_char(s: Seq<char>, c: char) -> Seq<char> {
    s.subrange(0, char_end(s, c, s.len() as int))
}

/// `s` without the `c` at both ends.
pub open spec fn trim_char(s: Seq<char>, c: char) -> Seq<char> {
    trim_end_char(trim_start_char(s, c), c)
}

/// The words of `s` from `start` on: `start` is where a word begins or is
/// followed by white space up to the next one.
pub open spec fn words_from(s: Seq<char>, i: int) -> Seq<Seq<char>>
    decreases s.len() - i,
{
    if i >= s.len() {
        seq![]
    } else if is_whitespace(s[i]) {
        words_from(s, i + 1)
    } else {
        let e = skip_word(s, i + 1);
        if e <= i || e > s.len() {
            seq![]
        } else {
            seq![s.subrange(i, e)] + words_from(s, e)
        }
    }
}

/// The longest stretches of `s` without white space, in order.
pub open spec fn words(s: Seq<char>) -> Seq<Seq<char>> {
    words_from(s, 0)
}

/// The texts one after another, with `sep` between neighbours.
pub open spec fn join(parts: Seq<Seq<char>>, sep: Seq<char>) -> Seq<char>
    decreases parts.len(),
{
    if parts.len() == 0 {
        seq![]
    } else if parts.len() == 1 {
        parts[0]
    } else {
        join(parts.drop_last(), sep) + sep + parts.last()
    }
}

/// The views of a sequence of strings.
pub open spec fn views(v: Seq<String>) -> Seq<Seq<char>> {
    v.map_values(|s: String| s@)
}

/// The view of an optional string.
pub open spec fn opt_view(s: Option<String>) -> Option<Seq<char>> {
    match s {
        Some(t) => Some(t@),
        None => None,
    }
}

/// The view of an optional string slice.
pub open spec fn opt_str(s: Option<&str>) -> Option<Seq<char>> {
    match s {
        Some(t) => Some(t@),
        None => None,
    }
}

// ---------------------------------------------------------------------------
// Order
// ---------------------------------------------------------------------------

/// `a` comes before `b` by their characters from position `i` on.
pub open spec fn precedes_from(a: Seq<char>, b: Seq<char>, i: int) -> bool
    decreases b.len() - i,
{
    if i >= b.len() {
        false
    } else if i >= a.len() {
        true
    } else if a[i] != b[i] {
        a[i] < b[i]
    } else {
        precedes_from(a, b, i + 1)
    }
}

/// `a` comes strictly before `b` in the order of texts by code points.
pub open spec fn precedes(a: Seq<char>, b: Seq<char>) -> bool {
    precedes_from(a, b, 0)
}

proof fn lemma_precedes_from_total(a: Seq<char>, b: Seq<char>, i: int)
    requires
        0 <= i <= a.len(),
        i <= b.len(),
        a.take(i) == b.take(i),
        !precedes_from(a, b, i),
        !precedes_from(b, a, i),
    ensures
        a == b,
    decreases b.len() - i,
{
    if i < b.len() && i < a.len() {
        assert(a.take(i + 1) == a.take(i).push(a[i]));
        assert(b.take(i + 1) == b.take(i).push(b[i]));
        lemma_precedes_from_total(a, b, i + 1);
    } else {
        assert(a == a.take(i));
        assert(b == b.take(i));
    }
}

proof fn lemma_precedes_from_irreflexive(a: Seq<char>, i: int)
    ensures
        !precedes_from(a, a, i),
    decreases a.len() - i,
{
    if i < a.len() {
        lemma_precedes_from_irreflexive(a, i + 1);
    }
}

proof fn lemma_precedes_from_transitive(a: Seq<char>, b: Seq<char>, c: Seq<char>, i: int)
    requires
        0 <= i,
        precedes_from(a, b, i),
        precedes_from(b, c, i),
    ensures
        precedes_from(a, c, i),
    decreases c.len() - i,
{
    if i < a.len() && i < b.len() && i < c.len() && a[i] == b[i] && b[i] == c[i] {
        lemma_precedes_from_transitive(a, b, c, i + 1);
    }
}

/// Two texts of which neither comes before the other are the same.
pub proof fn precedes_is_total(a: Seq<char>, b: Seq<char>)
    ensures
        precedes(a, b) || precedes(b, a) || a == b,
{
    if !precedes(a, b) && !precedes(b, a) {
        assert(a.take(0) == b.take(0));
        lemma_precedes_from_total(a, b, 0);
    }
}

/// No text comes before itself.
pub proof fn precedes_is_irreflexive(a: Seq<char>)
    ensures
        !precedes(a, a),
{
    lemma_precedes_from_irreflexive(a, 0);
}

/// What comes before a text comes before all that follow it.
pub proof fn precedes_is_transitive(a: Seq<char>, b: Seq<char>, c: Seq<char>)
    requires
        precedes(a, b),
        precedes(b, c),
    ensures
        precedes(a, c),
{
    lemma_precedes_from_transitive(a, b, c, 0);
}

// ---------------------------------------------------------------------------
// Numbers
// ---------------------------------------------------------------------------

/// The value of a digit.
pub open spec fn digit_value(c: char) -> nat {
    (c as u32 - '0' as u32) as nat
}

/// The digit with value `d`.
pub open spec fn digit_char(d: nat) -> char {
    (('0' as u8) + d as u8) as char
}

/// The number that a text of digits writes in base ten.
pub open spec fn number(s: Seq<char>) -> nat
    decreases s.len(),
{
    if s.len() == 0 {
        0
    } else {
        number(s.drop_last()) * 10 + digit_value(s.last())
    }
}

/// The digits of `n` in base ten, without leading zeros.
pub open spec fn decimal(n: nat) -> Seq<char>
    decreases n,
{
    if n < 10 {
        seq![digit_char(n)]
    } else {
        decimal(n / 10).push(digit_char(n % 10))
    }
}

/// What reading `s` as an unsigned number of at most `max` gives: an optional
/// plus sign and at least one digit, nothing else.
pub open spec fn parse_number(s: Seq<char>, max: nat) -> Option<nat> {
    let digits = if s.len() > 0 && s[0] == '+' {
        s.drop_first()
    } else {
        s
    };
    if digits.len() > 0 && all_digits(digits) && number(digits) <= max {
        Some(number(digits))
    } else {
        None
    }
}

proof fn lemma_digit_char(d: nat)
    requires
        d < 10,
    ensures
        is_digit(digit_char(d)),
        digit_value(digit_char(d)) == d,
{
}

/// The decimal digits of a number are read back as the number.
pub proof fn decimal_is_read_back(n: nat)
    ensures
        decimal(n).len() > 0,
        all_digits(decimal(n)),
        number(decimal(n)) == n,
    decreases n,
{
    reveal_with_fuel(number, 2);
    if n < 10 {
        lemma_digit_char(n);
        assert(decimal(n).drop_last() == Seq::<char>::empty());
    } else {
        decimal_is_read_back(n / 10);
        lemma_digit_char(n % 10);
        assert(decimal(n).drop_last() == decimal(n / 10));
    }
}

proof fn lemma_number_grows(s: Seq<char>, k: int)
    requires
        0 <= k <= s.len(),
    ensures
        number(s.take(k)) <= number(s),
    decreases s.len() - k,
{
    if k < s.len() {
        lemma_number_grows(s, k + 1);
        assert(s.take(k + 1).drop_last() == s.take(k));
    } else {
        assert(s.take(k) == s);
    }
}

// ---------------------------------------------------------------------------
// Code
// ---------------------------------------------------------------------------

/// A text in quotes, with the characters escaped that Rust escapes.
pub uninterp spec fn debug_text(s: Seq<char>) -> Seq<char>;

/// The `Debug` form of a `str`. That it depends on the text alone is all that is
/// claimed.
#[verifier::external_body]
pub(crate) fn debug_form(s: &str) -> (r: String)
    ensures
        r@ == debug_text(s@),
{
    format!("{:?}", s)
}

/// The characters of a string, as a vector.
pub fn chars_of(s: &str) -> (r: Vec<char>)
    ensures
        r@ == s@,
{
    let mut r: Vec<char> = Vec::new();
    for c in it: s.chars()
        invariant
            r@ == it.seq().take(it.index() as int),
            it.seq() == s@,
    {
        r.push(c);
    }
    assert(r@ == s@);
    r
}

/// The string made of the given characters.
pub fn string_of(v: &[char]) -> (r: String)
    ensures
        r@ == v@,
{
    let mut r: String = String::new();
    let mut i: usize = 0;
    while i < v.len()
        invariant
            i <= v.len(),
            r@ == v@.take(i as int),
        decreases v.len() - i,
    {
        r.push(v[i]);
        i += 1;
        assert(r@ == v@.take(i as int));
    }
    assert(r@ == v@);
    r
}

pub fn char_is_whitespace(c: char) -> (r: bool)
    ensures
        r == is_whitespace(c),
{
    let n: u32 = c as u32;
    (0x9 <= n && n <= 0xd) || n == 0x20 || n == 0x85 || n == 0xa0 || n == 0x1680 || (0x2000 <= n && n
        <= 0x200a) || n == 0x2028 || n == 0x2029 || n == 0x202f || n == 0x205f || n == 0x3000
}

pub fn char_is_digit(c: char) -> (r: bool)
    ensures
        r == is_digit(c),
{
    '0' <= c && c <= '9'
}

pub fn char_is_alphanumeric(c: char) -> (r: bool)
    ensures
        r == is_alphanumeric(c),
{
    ('0' <= c && c <= '9') || ('a' <= c && c <= 'z') || ('A' <= c && c <= 'Z')
}

pub fn char_lower(c: char) -> (r: char)
    ensures
        r == lower_char(c),
{
    if 'A' <= c && c <= 'Z' {
        ((c as u8) + 32) as char
    } else {
        c
    }
}

/// A part of a slice of characters.
pub fn part(s: &[char], i: usize, j: usize) -> (r: &[char])
    requires
        i <= j <= s@.len(),
    ensures
        r@ == s@.subrange(i as int, j as int),
{
    slice_subrange(s, i, j)
}

/// Equality of two slices of characters.
pub fn same(a: &[char], b: &[char]) -> (r: bool)
    ensures
        r == (a@ == b@),
{
    if a.len() != b.len() {
        return false;
    }
    let mut i: usize = 0;
    while i < a.len()
        invariant
            i <= a.len(),
            a.len() == b.len(),
            a@.take(i as int) == b@.take(i as int),
        decreases a.len() - i,
    {
        if a[i] != b[i] {
            assert(a@[i as int] != b@[i as int]);
            return false;
        }
        assert(a@.take(i + 1) == a@.take(i as int).push(a@[i as int]));
        assert(b@.take(i + 1) == b@.take(i as int).push(b@[i as int]));
        i += 1;
    }
    assert(a@ == a@.take(i as int));
    assert(b@ == b@.take(i as int));
    true
}

/// Whether the characters are those of the string `t`.
pub fn is_text(s: &[char], t: &str) -> (r: bool)
    ensures
        r == (s@ == t@),
{
    let u = chars_of(t);
    same(s, u.as_slice())
}

/// Equality of two strings.
pub fn same_str(a: &str, b: &str) -> (r: bool)
    ensures
        r == (a@ == b@),
{
    let u = chars_of(a);
    let v = chars_of(b);
    same(u.as_slice(), v.as_slice())
}

/// See [`stands_at`].
pub fn occurs_at(s: &[char], p: &[char], i: usize) -> (r: bool)
    ensures
        r == stands_at(s@, p@, i as int),
{
    if i <= s.len() && p.len() <= s.len() - i {
        same(part(s, i, i + p.len()), p)
    } else {
        false
    }
}

/// See [`starts_with`].
pub fn has_prefix(s: &[char], p: &str) -> (r: bool)
    ensures
        r == starts_with(s@, p@),
{
    let u = chars_of(p);
    occurs_at(s, u.as_slice(), 0)
}

/// See [`ends_with`].
pub fn has_suffix(s: &[char], p: &str) -> (r: bool)
    ensures
        r == ends_with(s@, p@),
{
    let u = chars_of(p);
    if u.len() <= s.len() {
        occurs_at(s, u.as_slice(), s.len() - u.len())
    } else {
        false
    }
}

/// See [`strip_prefix`].
pub fn without_prefix<'a>(s: &'a [char], p: &str) -> (r: Option<&'a [char]>)
    ensures
        match r {
            Some(t) => strip_prefix(s@, p@) == Some(t@),
            None => strip_prefix(s@, p@) is None,
        },
{
    let u = chars_of(p);
    if occurs_at(s, u.as_slice(), 0) {
        Some(part(s, u.len(), s.len()))
    } else {
        None
    }
}

/// See [`strip_suffix`].
pub fn without_suffix<'a>(s: &'a [char], p: &str) -> (r: Option<&'a [char]>)
    ensures
        match r {
            Some(t) => strip_suffix(s@, p@) == Some(t@),
            None => strip_suffix(s@, p@) is None,
        },
{
    let u = chars_of(p);
    if u.len() <= s.len() && occurs_at(s, u.as_slice(), s.len() - u.len()) {
        Some(part(s, 0, s.len() - u.len()))
    } else {
        None
    }
}

/// See [`find_char`].
pub fn index_of(s: &[char], c: char, from: usize) -> (r: usize)
    requires
        from <= s@.len(),
    ensures
        r == find_char(s@, c, from as int),
        from <= r <= s@.len(),
        r < s@.len() ==> s@[r as int] == c,
        forall|j: int| from <= j < r ==> s@[j] != c,
{
    let mut i: usize = from;
    while i < s.len()
        invariant
            from <= i <= s@.len(),
            find_char(s@, c, from as int) == find_char(s@, c, i as int),
            forall|j: int| from <= j < i ==> s@[j] != c,
        decreases s@.len() - i,
    {
        if s[i] == c {
            return i;
        }
        i += 1;
    }
    i
}

/// See [`rfind_char`].
pub fn last_index_of(s: &[char], c: char) -> (r: Option<usize>)
    ensures
        match r {
            Some(k) => k == rfind_char(s@, c, s@.len() as int) && k < s@.len() && s@[k as int] == c,
            None => rfind_char(s@, c, s@.len() as int) == -1,
        },
{
    let mut j: usize = s.len();
    while j > 0
        invariant
            j <= s@.len(),
            rfind_char(s@, c, s@.len() as int) == rfind_char(s@, c, j as int),
        decreases j,
    {
        if s[j - 1] == c {
            return Some(j - 1);
        }
        j -= 1;
    }
    None
}

/// See [`find_digit`].
pub fn index_of_digit(s: &[char]) -> (r: usize)
    ensures
        r == find_digit(s@, 0),
        r <= s@.len(),
{
    let mut i: usize = 0;
    while i < s.len()
        invariant
            i <= s@.len(),
            find_digit(s@, 0) == find_digit(s@, i as int),
        decreases s@.len() - i,
    {
        if char_is_digit(s[i]) {
            return i;
        }
        i += 1;
    }
    i
}

/// See [`find_text`].
pub fn index_of_text(s: &[char], p: &[char]) -> (r: Option<usize>)
    ensures
        match r {
            Some(k) => k == find_text(s@, p@, 0) && stands_at(s@, p@, k as int),
            None => find_text(s@, p@, 0) == -1 && !contains_text(s@, p@),
        },
{
    let mut i: usize = 0;
    loop
        invariant
            i <= s@.len(),
            find_text(s@, p@, 0) == find_text(s@, p@, i as int),
            forall|j: int| 0 <= j < i ==> !stands_at(s@, p@, j),
        decreases s@.len() - i,
    {
        if occurs_at(s, p, i) {
            return Some(i);
        }
        if i >= s.len() {
            return None;
        }
        i += 1;
    }
}

/// See [`contains_text`].
pub fn has_text(s: &[char], p: &str) -> (r: bool)
    ensures
        r == contains_text(s@, p@),
{
    let u = chars_of(p);
    index_of_text(s, u.as_slice()).is_some()
}

/// Whether `c` stands in `s`.
pub fn has_char(s: &[char], c: char) -> (r: bool)
    ensures
        r == s@.contains(c),
{
    let k: usize = index_of(s, c, 0);
    if k < s.len() {
        assert(s@[k as int] == c);
        true
    } else {
        false
    }
}

/// See [`split_once`].
pub fn cut_once<'a>(s: &'a [char], c: char) -> (r: Option<(&'a [char], &'a [char])>)
    ensures
        match r {
            Some((a, b)) => split_once(s@, c) == Some((a@, b@)),
            None => split_once(s@, c) is None,
        },
{
    let k: usize = index_of(s, c, 0);
    if k < s.len() {
        Some((part(s, 0, k), part(s, k + 1, s.len())))
    } else {
        None
    }
}

/// See [`rsplit_once`].
pub fn cut_last<'a>(s: &'a [char], c: char) -> (r: Option<(&'a [char], &'a [char])>)
    ensures
        match r {
            Some((a, b)) => rsplit_once(s@, c) == Some((a@, b@)),
            None => rsplit_once(s@, c) is None,
        },
{
    let n: usize = s.len();
    match last_index_of(s, c) {
        Some(k) => Some((part(s, 0, k), part(s, k + 1, n))),
        None => None,
    }
}

/// See [`rsplit_once_text`].
pub fn cut_last_text<'a>(s: &'a [char], p: &str) -> (r: Option<(&'a [char], &'a [char])>)
    ensures
        match r {
            Some((a, b)) => rsplit_once_text(s@, p@) == Some((a@, b@)),
            None => rsplit_once_text(s@, p@) is None,
        },
{
    let u = chars_of(p);
    let n: usize = s.len();
    let mut i: usize = n;
    loop
        invariant
            i <= n,
            n == s@.len(),
            u@ == p@,
            rfind_text(s@, p@, n as int) == rfind_text(s@, p@, i as int),
        decreases i,
    {
        if occurs_at(s, u.as_slice(), i) {
            return Some((part(s, 0, i), part(s, i + u.len(), n)));
        }
        if i == 0 {
            assert(rfind_text(s@, p@, -1) == -1);
            return None;
        }
        i -= 1;
    }
}

/// The views of a sequence of slices.
pub open spec fn slice_views(v: Seq<&[char]>) -> Seq<Seq<char>> {
    v.map_values(|s: &[char]| s@)
}

/// See [`split`].
pub fn pieces<'a>(s: &'a [char], c: char) -> (r: Vec<&'a [char]>)
    ensures
        slice_views(r@) == split(s@, c),
        r@.len() >= 1,
{
    let mut r: Vec<&'a [char]> = Vec::new();
    let mut start: usize = 0;
    let mut i: usize = 0;
    while i < s.len()
        invariant
            start <= i <= s@.len(),
            slice_views(r@) + split_from(s@, c, start as int, i as int) == split(s@, c),
        decreases s@.len() - i,
    {
        if s[i] == c {
            let ghost before = r@;
            r.push(part(s, start, i));
            proof {
                assert(slice_views(r@) == slice_views(before).push(s@.subrange(start as int, i as int)));
                assert(slice_views(before) + (seq![s@.subrange(start as int, i as int)] + split_from(s@, c, i + 1, i + 1))
                    == slice_views(r@) + split_from(s@, c, i + 1, i + 1));
            }
            start = i + 1;
        }
        i += 1;
    }
    let ghost before = r@;
    r.push(part(s, start, s.len()));
    assert(slice_views(r@) == slice_views(before).push(s@.subrange(start as int, s@.len() as int)));
    r
}

/// See [`split_text`].
pub fn pieces_text<'a>(s: &'a [char], p: &[char]) -> (r: Vec<&'a [char]>)
    requires
        p@.len() > 0,
    ensures
        slice_views(r@) == split_text(s@, p@),
{
    let mut r: Vec<&'a [char]> = Vec::new();
    let mut start: usize = 0;
    let mut i: usize = 0;
    while i <= s.len() && p.len() <= s.len() - i
        invariant
            p@.len() > 0,
            start <= i <= s@.len(),
            slice_views(r@) + split_text_from(s@, p@, start as int, i as int) == split_text(s@, p@),
        decreases s@.len() - i,
    {
        if occurs_at(s, p, i) {
            let ghost before = r@;
            r.push(part(s, start, i));
            proof {
                let k: int = i + p@.len();
                assert(slice_views(r@) == slice_views(before).push(s@.subrange(start as int, i as int)));
                assert(slice_views(before) + (seq![s@.subrange(start as int, i as int)] + split_text_from(s@, p@, k, k))
                    == slice_views(r@) + split_text_from(s@, p@, k, k));
            }
            i += p.len();
            start = i;
        } else {
            i += 1;
        }
    }
    let ghost before = r@;
    r.push(part(s, start, s.len()));
    assert(slice_views(r@) == slice_views(before).push(s@.subrange(start as int, s@.len() as int)));
    r
}

/// See [`lines`].
pub fn lines_of<'a>(s: &'a [char]) -> (r: Vec<&'a [char]>)
    ensures
        slice_views(r@) == lines(s@),
{
    let mut r: Vec<&'a [char]> = Vec::new();
    let mut start: usize = 0;
    let mut i: usize = 0;
    while i < s.len()
        invariant
            start <= i <= s@.len(),
            slice_views(r@) + lines_from(s@, start as int, i as int) == lines(s@),
        decreases s@.len() - i,
    {
        if s[i] == '\n' {
            let ghost before = r@;
            let ghost line = without_cr(s@.subrange(start as int, i as int));
            if i > start && s[i - 1] == '\r' {
                r.push(part(s, start, i - 1));
                assert(line == s@.subrange(start as int, i - 1));
            } else {
                r.push(part(s, start, i));
            }
            proof {
                assert(slice_views(r@) == slice_views(before).push(line));
                assert(slice_views(before) + (seq![line] + lines_from(s@, i + 1, i + 1))
                    == slice_views(r@) + lines_from(s@, i + 1, i + 1));
            }
            start = i + 1;
        }
        i += 1;
    }
    if start < s.len() {
        let ghost before = r@;
        r.push(part(s, start, s.len()));
        assert(slice_views(r@) == slice_views(before).push(s@.subrange(start as int, s@.len() as int)));
    }
    r
}

/// See [`trim_start`].
pub fn trimmed_start<'a>(s: &'a [char]) -> (r: &'a [char])
    ensures
        r@ == trim_start(s@),
{
    let mut i: usize = 0;
    while i < s.len() && char_is_whitespace(s[i])
        invariant
            i <= s@.len(),
            skip_space(s@, 0) == skip_space(s@, i as int),
        decreases s@.len() - i,
    {
        i += 1;
    }
    part(s, i, s.len())
}

/// See [`trim_end`].
pub fn trimmed_end<'a>(s: &'a [char]) -> (r: &'a [char])
    ensures
        r@ == trim_end(s@),
{
    let mut j: usize = s.len();
    while j > 0 && char_is_whitespace(s[j - 1])
        invariant
            j <= s@.len(),
            space_end(s@, s@.len() as int) == space_end(s@, j as int),
        decreases j,
    {
        j -= 1;
    }
    part(s, 0, j)
}

/// See [`trim`].
pub fn trimmed<'a>(s: &'a [char]) -> (r: &'a [char])
    ensures
        r@ == trim(s@),
{
    trimmed_end(trimmed_start(s))
}

/// See [`trim_start_char`].
pub fn trimmed_start_char<'a>(s: &'a [char], c: char) -> (r: &'a [char])
    ensures
        r@ == trim_start_char(s@, c),
{
    let mut i: usize = 0;
    while i < s.len() && s[i] == c
        invariant
            i <= s@.len(),
            skip_char(s@, c, 0) == skip_char(s@, c, i as int),
        decreases s@.len() - i,
    {
        i += 1;
    }
    part(s, i, s.len())
}

/// See [`trim_end_char`].
pub fn trimmed_end_char<'a>(s: &'a [char], c: char) -> (r: &'a [char])
    ensures
        r@ == trim_end_char(s@, c),
{
    let mut j: usize = s.len();
    while j > 0 && s[j - 1] == c
        invariant
            j <= s@.len(),
            char_end(s@, c, s@.len() as int) == char_end(s@, c, j as int),
        decreases j,
    {
        j -= 1;
    }
    part(s, 0, j)
}

/// See [`trim_char`].
pub fn trimmed_char<'a>(s: &'a [char], c: char) -> (r: &'a [char])
    ensures
        r@ == trim_char(s@, c),
{
    trimmed_end_char(trimmed_start_char(s, c), c)
}

/// See [`words`].
pub fn words_of<'a>(s: &'a [char]) -> (r: Vec<&'a [char]>)
    ensures
        slice_views(r@) == words(s@),
{
    let mut r: Vec<&'a [char]> = Vec::new();
    let mut i: usize = 0;
    while i < s.len()
        invariant
            i <= s@.len(),
            slice_views(r@) + words_from(s@, i as int) == words(s@),
        decreases s@.len() - i,
    {
        if char_is_whitespace(s[i]) {
            i += 1;
        } else {
            let mut e: usize = i + 1;
            while e < s.len() && !char_is_whitespace(s[e])
                invariant
                    i < e <= s@.len(),
                    skip_word(s@, i + 1) == skip_word(s@, e as int),
                decreases s@.len() - e,
            {
                e += 1;
            }
            let ghost before = r@;
            r.push(part(s, i, e));
            proof {
                assert(slice_views(r@) == slice_views(before).push(s@.subrange(i as int, e as int)));
                assert(slice_views(before) + (seq![s@.subrange(i as int, e as int)] + words_from(s@, e as int))
                    == slice_views(r@) + words_from(s@, e as int));
            }
            i = e;
        }
    }
    r
}

/// See [`lower`].
pub fn lowered(s: &[char]) -> (r: Vec<char>)
    ensures
        r@ == lower(s@),
{
    let mut r: Vec<char> = Vec::new();
    let mut i: usize = 0;
    while i < s.len()
        invariant
            i <= s@.len(),
            r@ == lower(s@).take(i as int),
        decreases s@.len() - i,
    {
        r.push(char_lower(s[i]));
        i += 1;
        assert(r@ == lower(s@).take(i as int));
    }
    assert(r@ == lower(s@));
    r
}

/// See [`same_ignoring_case`].
pub fn equals_ignoring_case(a: &[char], b: &[char]) -> (r: bool)
    ensures
        r == same_ignoring_case(a@, b@),
{
    let u = lowered(a);
    let v = lowered(b);
    same(u.as_slice(), v.as_slice())
}

/// See [`replace_char`].
pub fn with_char_replaced(s: &[char], a: char, b: char) -> (r: Vec<char>)
    ensures
        r@ == replace_char(s@, a, b),
{
    let mut r: Vec<char> = Vec::new();
    let mut i: usize = 0;
    while i < s.len()
        invariant
            i <= s@.len(),
            r@ == replace_char(s@, a, b).take(i as int),
        decreases s@.len() - i,
    {
        if s[i] == a {
            r.push(b);
        } else {
            r.push(s[i]);
        }
        i += 1;
        assert(r@ == replace_char(s@, a, b).take(i as int));
    }
    assert(r@ == replace_char(s@, a, b));
    r
}

/// See [`replace_text`].
pub fn with_text_replaced(s: &[char], p: &str, by: &str) -> (r: String)
    requires
        p@.len() > 0,
    ensures
        r@ == replace_text(s@, p@, by@),
{
    let u = chars_of(p);
    let ps = pieces_text(s, u.as_slice());
    join_slices(&ps, by)
}

/// See [`count_char`].
pub fn count_of(s: &[char], c: char) -> (r: usize)
    ensures
        r == count_char(s@, c),
{
    let mut n: usize = 0;
    let mut i: usize = 0;
    while i < s.len()
        invariant
            i <= s@.len(),
            n == count_char(s@.take(i as int), c),
            n <= i,
        decreases s@.len() - i,
    {
        assert(s@.take(i + 1).drop_last() == s@.take(i as int));
        if s[i] == c {
            n += 1;
        }
        i += 1;
    }
    assert(s@.take(i as int) == s@);
    n
}

/// See [`join`].
pub fn join_slices(parts: &Vec<&[char]>, sep: &str) -> (r: String)
    ensures
        r@ == join(slice_views(parts@), sep@),
{
    let mut r: String = String::new();
    let mut i: usize = 0;
    while i < parts.len()
        invariant
            i <= parts@.len(),
            r@ == join(slice_views(parts@).take(i as int), sep@),
        decreases parts@.len() - i,
    {
        if i > 0 {
            r.append(sep);
        }
        let p = string_of(parts[i]);
        r.append(p.as_str());
        proof {
            let next = slice_views(parts@).take(i + 1);
            assert(next.drop_last() == slice_views(parts@).take(i as int));
            assert(next.last() == p@);
        }
        i += 1;
    }
    assert(slice_views(parts@).take(i as int) == slice_views(parts@));
    r
}

/// See [`join`].
pub fn join_strings(parts: &Vec<String>, sep: &str) -> (r: String)
    ensures
        r@ == join(views(parts@), sep@),
{
    let mut r: String = String::new();
    let mut i: usize = 0;
    while i < parts.len()
        invariant
            i <= parts@.len(),
            r@ == join(views(parts@).take(i as int), sep@),
        decreases parts@.len() - i,
    {
        if i > 0 {
            r.append(sep);
        }
        r.append(parts[i].as_str());
        proof {
            let next = views(parts@).take(i + 1);
            assert(next.drop_last() == views(parts@).take(i as int));
            assert(next.last() == parts@[i as int]@);
        }
        i += 1;
    }
    assert(views(parts@).take(i as int) == views(parts@));
    r
}

/// A copy of an optional string.
pub fn copy_opt(s: &Option<String>) -> (r: Option<String>)
    ensures
        opt_view(r) == opt_view(*s),
{
    match s {
        Some(t) => Some(t.as_str().to_owned()),
        None => None,
    }
}

/// A copy of a vector of strings.
pub fn copy_strings(v: &Vec<String>) -> (r: Vec<String>)
    ensures
        views(r@) == views(v@),
{
    let mut r: Vec<String> = Vec::new();
    let mut i: usize = 0;
    while i < v.len()
        invariant
            i <= v@.len(),
            views(r@) == views(v@).take(i as int),
        decreases v@.len() - i,
    {
        let ghost before = r@;
        r.push(v[i].as_str().to_owned());
        assert(views(r@) == views(before).push(v@[i as int]@));
        i += 1;
        assert(views(r@) == views(v@).take(i as int));
    }
    assert(views(v@).take(i as int) == views(v@));
    r
}

/// Whether the strings hold `t`.
pub fn holds_text(v: &Vec<String>, t: &str) -> (r: bool)
    ensures
        r == views(v@).contains(t@),
{
    let mut i: usize = 0;
    while i < v.len()
        invariant
            i <= v@.len(),
            forall|j: int| 0 <= j < i ==> views(v@)[j] != t@,
        decreases v@.len() - i,
    {
        if same_str(v[i].as_str(), t) {
            assert(views(v@)[i as int] == t@);
            return true;
        }
        i += 1;
    }
    false
}

/// See [`precedes`].
pub fn comes_before(a: &[char], b: &[char]) -> (r: bool)
    ensures
        r == precedes(a@, b@),
{
    let mut i: usize = 0;
    while i < b.len()
        invariant
            i <= b@.len(),
            i <= a@.len(),
            precedes(a@, b@) == precedes_from(a@, b@, i as int),
        decreases b@.len() - i,
    {
        if i >= a.len() {
            return true;
        }
        if a[i] != b[i] {
            return a[i] < b[i];
        }
        i += 1;
    }
    false
}

/// See [`precedes`].
pub fn str_before(a: &str, b: &str) -> (r: bool)
    ensures
        r == precedes(a@, b@),
{
    let u = chars_of(a);
    let v = chars_of(b);
    comes_before(u.as_slice(), v.as_slice())
}

/// Whether all characters are digits.
pub fn only_digits(s: &[char]) -> (r: bool)
    ensures
        r == all_digits(s@),
{
    let mut i: usize = 0;
    while i < s.len()
        invariant
            i <= s@.len(),
            forall|j: int| 0 <= j < i ==> is_digit(#[trigger] s@[j]),
        decreases s@.len() - i,
    {
        if !char_is_digit(s[i]) {
            assert(!is_digit(s@[i as int]));
            return false;
        }
        i += 1;
    }
    true
}

/// See [`parse_number`].
pub fn read_number(s: &[char], max: u64) -> (r: Option<u64>)
    ensures
        match r {
            Some(n) => parse_number(s@, max as nat) == Some(n as nat),
            None => parse_number(s@, max as nat) is None,
        },
{
    let d: &[char] = if s.len() > 0 && s[0] == '+' {
        part(s, 1, s.len())
    } else {
        s
    };
    let ghost digits = if s@.len() > 0 && s@[0] == '+' {
        s@.drop_first()
    } else {
        s@
    };
    assert(d@ == digits);
    if d.len() == 0 || !only_digits(d) {
        return None;
    }
    let mut n: u64 = 0;
    let mut i: usize = 0;
    while i < d.len()
        invariant
            i <= d@.len(),
            all_digits(d@),
            d@ == digits,
            d@.len() > 0,
            digits == (if s@.len() > 0 && s@[0] == '+' {
                s@.drop_first()
            } else {
                s@
            }),
            n == number(d@.take(i as int)),
            n <= max,
        decreases d@.len() - i,
    {
        proof {
            assert(d@.take(i + 1).drop_last() == d@.take(i as int));
            assert(is_digit(d@[i as int]));
            lemma_number_grows(d@, i + 1);
        }
        let v: u64 = (d[i] as u32 - '0' as u32) as u64;
        let wide: u128 = n as u128 * 10 + v as u128;
        if wide > max as u128 {
            return None;
        }
        n = wide as u64;
        i += 1;
    }
    assert(d@.take(i as int) == d@);
    Some(n)
}

/// See [`decimal`].
pub fn decimal_string(n: u64) -> (r: String)
    ensures
        r@ == decimal(n as nat),
    decreases n,
{
    let mut r: String = if n < 10 {
        String::new()
    } else {
        decimal_string(n / 10)
    };
    let d: u8 = (n % 10) as u8;
    r.push((('0' as u8) + d) as char);
    assert(r@ == decimal(n as nat));
    r
}

/// The decimal digits of `n`, parsed as a number that `n` does not exceed, are `n`.
pub proof fn decimal_parses(n: nat, max: nat)
    requires
        n <= max,
    ensures
        parse_number(decimal(n), max) == Some(n),
{
    decimal_is_read_back(n);
    assert(is_digit(decimal(n)[0]));
}

proof fn lemma_lines_from_shift(p: Seq<char>, t: Seq<char>, start: int, i: int)
    requires
        0 <= start <= i,
    ensures
        lines_from(p + t, p.len() + start, p.len() + i) == lines_from(t, start, i),
    decreases t.len() - i,
{
    let s = p + t;
    let n = p.len() as int;
    if i >= t.len() {
        if start < t.len() {
            assert(s.subrange(n + start, s.len() as int) == t.subrange(start, t.len() as int));
        }
    } else {
        assert(s[n + i] == t[i]);
        if t[i] == '\n' {
            lemma_lines_from_shift(p, t, i + 1, i + 1);
            assert(s.subrange(n + start, n + i) == t.subrange(start, i));
        } else {
            lemma_lines_from_shift(p, t, start, i + 1);
        }
    }
}

proof fn lemma_lines_of_line(line: Seq<char>, rest: Seq<char>, i: int)
    requires
        0 <= i <= line.len(),
        !line.contains('\n'),
    ensures
        lines_from(line.push('\n') + rest, 0, i) == seq![without_cr(line)] + lines(rest),
    decreases line.len() - i,
{
    let s = line.push('\n') + rest;
    if i == line.len() {
        assert(s[i] == '\n');
        assert(s.subrange(0, i) == line);
        lemma_lines_from_shift(line.push('\n'), rest, 0, 0);
    } else {
        assert(s[i] == line[i]);
        assert(line.contains(line[i]));
        lemma_lines_of_line(line, rest, i + 1);
    }
}

/// The lines of a line, a line feed and more text are that line and the lines of
/// the rest.
pub proof fn lines_of_line_and_rest(line: Seq<char>, rest: Seq<char>)
    requires
        !line.contains('\n'),
    ensures
        lines(line.push('\n') + rest) == seq![without_cr(line)] + lines(rest),
{
    lemma_lines_of_line(line, rest, 0);
}

/// What begins with a text has it as a prefix, and the rest is what follows it.
pub proof fn prefix_is_stripped(p: Seq<char>, t: Seq<char>)
    ensures
        starts_with(p + t, p),
        strip_prefix(p + t, p) == Some(t),
{
    assert((p + t).subrange(0, p.len() as int) == p);
    assert((p + t).subrange(p.len() as int, (p + t).len() as int) == t);
}

} // verus!
