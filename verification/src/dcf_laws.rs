//! How the lines of a record become its fields.
use vstd::prelude::*;

use crate::dcf::{after_line, after_lines, closed_fields, dcf_fields, is_continuation, DcfState};
use crate::text::{lines, lines_of_line_and_rest, split_once, trim, without_cr};
use crate::text_laws::{
    cuts_are_at_the_ends, cutting_undoes_joining, is_blank, padding_does_not_count,
    trimming_takes_only_space, trimming_twice_is_trimming, trimming_undoes_padding,
};

verus! {

/// A text that can stand in front of the colon of a field.
pub open spec fn is_key(key: Seq<char>) -> bool {
    !key.contains(':') && (key.len() > 0 ==> key[0] != ' ' && key[0] != '\t')
}

proof fn lemma_field_line(key: Seq<char>, value: Seq<char>)
    requires
        is_key(key),
    ensures
        !is_continuation(key + seq![':'] + value),
        split_once(key + seq![':'] + value, ':') == Some((key, value)),
{
    let line = key + seq![':'] + value;
    cutting_undoes_joining(key, value, ':');
    if key.len() > 0 {
        assert(line[0] == key[0]);
    } else {
        assert(line[0] == ':');
    }
}

/// A line with a colon gives a field its value, whatever the lines above it; the other
/// fields keep theirs. White space round the name and the value does not count.
pub proof fn field_lines_set_fields(ls: Seq<Seq<char>>, key: Seq<char>, value: Seq<char>)
    requires
        is_key(key),
    ensures
        closed_fields(after_lines(ls.push(key + seq![':'] + value))) == closed_fields(after_lines(ls)).insert(
            trim(key),
            trim(value),
        ),
{
    let line = key + seq![':'] + value;
    lemma_field_line(key, value);
    assert(ls.push(line).drop_last() == ls);
    trimming_twice_is_trimming(value);
}

/// A line that begins with white space goes on with the value of the field above it, with
/// one space between; a blank one adds nothing.
#[verifier::rlimit(40)]
pub proof fn indented_lines_go_on(ls: Seq<Seq<char>>, key: Seq<char>, value: Seq<char>, indent: char, piece: Seq<char>)
    requires
        is_key(key),
        indent == ' ' || indent == '\t',
    ensures
        ({
            let before = closed_fields(after_lines(ls));
            let after = closed_fields(after_lines(ls.push(key + seq![':'] + value).push(seq![indent] + piece)));
            after == before.insert(
                trim(key),
                if trim(piece).len() == 0 {
                    trim(value)
                } else if trim(value).len() == 0 {
                    trim(piece)
                } else {
                    trim(value) + seq![' '] + trim(piece)
                },
            )
        }),
{
    reveal_strlit(" ");
    assert(" "@ == seq![' ']);
    let e = Seq::<char>::empty();
    let line = key + seq![':'] + value;
    let more = seq![indent] + piece;
    lemma_field_line(key, value);
    assert(ls.push(line).drop_last() == ls);
    assert(ls.push(line).push(more).drop_last() == ls.push(line));
    assert(more[0] == indent);
    assert(is_blank(seq![indent]));
    padding_does_not_count(seq![indent], piece, e);
    assert(more + e == more);
    let s = after_lines(ls.push(line));
    assert(s == after_line(after_lines(ls), line));
    assert(s.open == Some((trim(key), trim(value))));
    assert(after_lines(ls.push(line).push(more)) == after_line(s, more));
    assert(is_continuation(more));
    trimming_twice_is_trimming(value);
    trimming_twice_is_trimming(piece);
    if trim(piece).len() > 0 && trim(value).len() > 0 {
        let r = trimming_takes_only_space(value);
        let q = trimming_takes_only_space(piece);
        let both = trim(value) + seq![' '] + trim(piece);
        assert(both[0] == trim(value)[0]);
        assert(both.last() == trim(piece).last());
        trimming_undoes_padding(e, both, e);
        assert(e + both + e == both);
    }
}

/// A line that neither begins with white space nor holds a colon changes nothing.
pub proof fn other_lines_do_not_count(ls: Seq<Seq<char>>, line: Seq<char>)
    requires
        !line.contains(':'),
        line.len() > 0 ==> line[0] != ' ' && line[0] != '\t',
    ensures
        closed_fields(after_lines(ls.push(line))) == closed_fields(after_lines(ls)),
{
    assert(ls.push(line).drop_last() == ls);
    cuts_are_at_the_ends(line, ':');
    match split_once(line, ':') {
        Some((a, b)) => {
            assert(line[a.len() as int] == ':');
        },
        None => {},
    }
}

/// A line that gives a field its value.
pub open spec fn is_field_line(line: Seq<char>) -> bool {
    line.contains(':') && line[0] != ' ' && line[0] != '\t'
}

#[verifier::rlimit(40)]
proof fn lemma_in_front(line: Seq<char>, ls: Seq<Seq<char>>, key: Seq<char>, value: Seq<char>)
    requires
        is_key(key),
        line == key + seq![':'] + value,
        ls.len() > 0,
        is_field_line(ls[0]),
    ensures
        after_lines(ls).open is Some,
        after_lines(seq![line] + ls).open == after_lines(ls).open,
        after_lines(seq![line] + ls).fields == Map::empty().insert(trim(key), trim(value)).union_prefer_right(
            after_lines(ls).fields,
        ),
    decreases ls.len(),
{
    lemma_field_line(key, value);
    trimming_twice_is_trimming(value);
    let all = seq![line] + ls;
    let front = ls.drop_last();
    let one = Map::<Seq<char>, Seq<char>>::empty().insert(trim(key), trim(value));
    assert(all.drop_last() == seq![line] + front);
    assert(all.last() == ls.last());
    if ls.len() == 1 {
        assert(front == Seq::<Seq<char>>::empty());
        assert(seq![line] + front == seq![line]);
        assert(seq![line].drop_last() == Seq::<Seq<char>>::empty());
        assert(seq![line].last() == line);
        let start = DcfState { fields: Map::empty(), open: None };
        assert(after_lines(front) == start);
        assert(after_lines(seq![line]) == after_line(start, line));
        let f = ls[0];
        cuts_are_at_the_ends(f, ':');
        match split_once(f, ':') {
            Some((a, b)) => {},
            None => {},
        }
        assert(f.contains(':'));
        assert(closed_fields(after_lines(seq![line])) =~= one);
        assert(one =~= one.union_prefer_right(Map::empty()));
    } else {
        assert(front[0] == ls[0]);
        lemma_in_front(line, front, key, value);
        let s = after_lines(front);
        let t = after_lines(seq![line] + front);
        let last = ls.last();
        if !is_continuation(last) {
            if let Some((a, b)) = split_once(last, ':') {
                assert(closed_fields(t) =~= one.union_prefer_right(closed_fields(s)));
            }
        }
    }
}

/// A record has the field of its first line and those of the lines behind it, if these
/// begin with a field; where both give one field a value, the later counts.
#[verifier::rlimit(40)]
pub proof fn fields_of_line_and_rest(key: Seq<char>, value: Seq<char>, rest: Seq<char>)
    requires
        is_key(key),
        !key.contains('\n'),
        !value.contains('\n'),
        value.len() == 0 || value.last() != '\r',
        rest.len() == 0 || (lines(rest).len() > 0 && is_field_line(lines(rest)[0])),
    ensures
        dcf_fields(key + seq![':'] + value + seq!['\n'] + rest) == Map::empty().insert(trim(key), trim(value)).union_prefer_right(
            dcf_fields(rest),
        ),
{
    let line = key + seq![':'] + value;
    let text = key + seq![':'] + value + seq!['\n'] + rest;
    let one = Map::<Seq<char>, Seq<char>>::empty().insert(trim(key), trim(value));
    assert(!line.contains('\n')) by {
        if line.contains('\n') {
            let i = choose|i: int| 0 <= i < line.len() && line[i] == '\n';
            if i < key.len() {
                assert(key[i] == '\n');
            } else if i > key.len() {
                assert(value[i - key.len() - 1] == '\n');
            }
        }
    }
    lines_of_line_and_rest(line, rest);
    assert(line.push('\n') + rest == text);
    assert(without_cr(line) == line) by {
        if value.len() > 0 {
            assert(line.last() == value.last());
        } else {
            assert(line.last() == ':');
        }
    }
    let ls = lines(rest);
    assert(lines(text) == seq![line] + ls);
    lemma_field_line(key, value);
    trimming_twice_is_trimming(value);
    if rest.len() == 0 {
        assert(ls == Seq::<Seq<char>>::empty());
        assert(seq![line] + ls == seq![line]);
        field_lines_set_fields(ls, key, value);
        assert(ls.push(line) == seq![line]);
        assert(dcf_fields(rest) =~= Map::empty());
        assert(dcf_fields(text) =~= one);
        assert(one =~= one.union_prefer_right(Map::empty()));
    } else {
        lemma_in_front(line, ls, key, value);
        assert(dcf_fields(text) =~= one.union_prefer_right(dcf_fields(rest)));
    }
}

} // verus!
