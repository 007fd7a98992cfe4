//! The format of package descriptions and package indexes: fields of the form
//! `Name: value`, whose values may go on over lines that begin with white space.
use vstd::prelude::*;

use crate::text::{chars_of, cut_once, lines, lines_of, slice_views, split_once, string_of, trim, trimmed};
use crate::text_map::TextMap;

verus! {

/// What has been read of a record: the fields that are complete, and the field
/// that the next lines may add to.
pub struct DcfState {
    pub fields: Map<Seq<char>, Seq<char>>,
    pub open: Option<(Seq<char>, Seq<char>)>,
}

/// A line that goes on with the field above it.
pub open spec fn is_continuation(line: Seq<char>) -> bool {
    line.len() > 0 && (line[0] == ' ' || line[0] == '\t')
}

/// The value of a field after a line that goes on with it. The pieces are joined
/// by one space; a blank line adds nothing.
pub open spec fn continued(value: Seq<char>, line: Seq<char>) -> Seq<char> {
    let piece = trim(line);
    if piece.len() == 0 {
        value
    } else if value.len() == 0 {
        piece
    } else {
        value + " "@ + piece
    }
}

/// The fields once the open field is complete.
pub open spec fn closed_fields(s: DcfState) -> Map<Seq<char>, Seq<char>> {
    match s.open {
        Some((key, value)) => s.fields.insert(key, trim(value)),
        None => s.fields,
    }
}

/// What has been read after one more line. A line that neither goes on with a field
/// nor holds a colon is passed over.
pub open spec fn after_line(s: DcfState, line: Seq<char>) -> DcfState {
    if is_continuation(line) {
        match s.open {
            Some((key, value)) => DcfState { fields: s.fields, open: Some((key, continued(value, line))) },
            None => s,
        }
    } else {
        match split_once(line, ':') {
            Some((key, value)) => DcfState { fields: closed_fields(s), open: Some((trim(key), trim(value))) },
            None => s,
        }
    }
}

/// What has been read after all the lines.
pub open spec fn after_lines(lines: Seq<Seq<char>>) -> DcfState
    decreases lines.len(),
{
    if lines.len() == 0 {
        DcfState { fields: Map::empty(), open: None }
    } else {
        after_line(after_lines(lines.drop_last()), lines.last())
    }
}

/// The fields of a record. Of two fields of one name the later counts.
pub open spec fn dcf_fields(content: Seq<char>) -> Map<Seq<char>, Seq<char>> {
    closed_fields(after_lines(lines(content)))
}

/// The fields of a record; see [`dcf_fields`].
pub fn parse_dcf_fields(content: &str) -> (r: TextMap<String>)
    ensures
        r@ == dcf_fields(content@),
{
    let cs = chars_of(content);
    let ls = lines_of(cs.as_slice());
    let mut fields: TextMap<String> = TextMap::new();
    let mut key: Option<String> = None;
    let mut value: String = String::new();
    let mut i: usize = 0;
    let ghost all = lines(content@);
    while i < ls.len()
        invariant
            i <= ls@.len(),
            slice_views(ls@) == all,
            ({
                let s = after_lines(all.take(i as int));
                &&& fields@ == s.fields
                &&& match key {
                    Some(k) => s.open == Some((k@, value@)),
                    None => s.open is None,
                }
            }),
        decreases ls@.len() - i,
    {
        let line = ls[i];
        proof {
            assert(slice_views(ls@)[i as int] == line@);
            assert(all.take(i + 1).drop_last() == all.take(i as int));
            assert(all.take(i + 1).last() == line@);
        }
        if line.len() > 0 && (line[0] == ' ' || line[0] == '\t') {
            if key.is_some() {
                let piece = trimmed(line);
                if piece.len() > 0 {
                    if value.as_str().is_empty() {
                        value = string_of(piece);
                    } else {
                        value = value.concat(" ").concat(string_of(piece).as_str());
                    }
                }
            }
        } else {
            match cut_once(line, ':') {
                Some((k, v)) => {
                    if let Some(done) = key {
                        let done_value = chars_of(value.as_str());
                        fields.insert(done.as_str(), string_of(trimmed(done_value.as_slice())));
                    }
                    key = Some(string_of(trimmed(k)));
                    value = string_of(trimmed(v));
                },
                None => {},
            }
        }
        i += 1;
    }
    assert(all.take(i as int) == all);
    if let Some(done) = key {
        let done_value = chars_of(value.as_str());
        fields.insert(done.as_str(), string_of(trimmed(done_value.as_slice())));
    }
    fields
}

} // verus!
