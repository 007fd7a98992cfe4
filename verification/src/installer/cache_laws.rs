//! What the keys of packages that are kept tell apart, and when a package counts as kept.
use vstd::prelude::*;

use super::package_cache::{
    entry_of, found_entry, identity, key_of, meta_in, meta_state, name_in_key, name_is_found_in_key,
    store_next, Artifact, MetaState, StoreActionView, StoreEventView, StorePhase,
};
use crate::checksum::{
    hex_digit, hex_text, md5, md5_checksum, own_checksum_is_accepted, sha256, sha256_checksum, verdict,
};
use crate::error::ErrorView;
use crate::text::{lines, opt_str, split, split_once, starts_with};
use crate::text_laws::{cutting_undoes_joining, pieces_of_both, plain_text_is_one_piece};

verus! {

/// None of the texts that tell an artifact apart holds a bar.
pub open spec fn has_no_bars(a: Artifact) -> bool {
    &&& !a.r_minor@.contains('|')
    &&& !a.host@.contains('|')
    &&& opt_str(a.checksum) matches Some(c) ==> !c.contains('|')
    &&& opt_str(a.libr_path) matches Some(p) ==> !p.contains('|')
    &&& opt_str(a.binary_flavor) matches Some(f) ==> !f.contains('|')
}

spec fn one_or_none(t: Option<Seq<char>>) -> Seq<Seq<char>> {
    match t {
        Some(t) => seq![t],
        None => seq![],
    }
}

proof fn lemma_split_barred(s: Seq<char>, t: Option<Seq<char>>)
    requires
        t matches Some(x) ==> !x.contains('|'),
    ensures
        split(s + super::package_cache::barred(t), '|') == split(s, '|') + one_or_none(t),
{
    reveal_strlit("|");
    assert("|"@ == seq!['|']);
    match t {
        Some(x) => {
            pieces_of_both(s, x, '|');
            plain_text_is_one_piece(x, '|');
            assert(s + ("|"@ + x) == s + seq!['|'] + x);
        },
        None => {
            assert(s + super::package_cache::barred(t) == s);
            assert(split(s, '|') + one_or_none(t) == split(s, '|'));
        },
    }
}

spec fn checksum_text(a: Artifact) -> Seq<char> {
    match opt_str(a.checksum) {
        Some(c) => c,
        None => "none"@,
    }
}

spec fn kind_text(is_binary: bool) -> Seq<char> {
    if is_binary {
        "binary"@
    } else {
        "source"@
    }
}

spec fn flavor_of(a: Artifact, is_binary: bool) -> Option<Seq<char>> {
    if is_binary {
        opt_str(a.binary_flavor)
    } else {
        None
    }
}

#[verifier::rlimit(40)]
proof fn lemma_identity_parts(a: Artifact, is_binary: bool)
    requires
        has_no_bars(a),
    ensures
        split(identity(a, is_binary), '|') == seq![checksum_text(a), a.r_minor@, kind_text(is_binary), a.host@] + one_or_none(
            flavor_of(a, is_binary),
        ) + one_or_none(opt_str(a.libr_path)),
{
    reveal_strlit("|");
    reveal_strlit("none");
    reveal_strlit("binary");
    reveal_strlit("source");
    assert("|"@ == seq!['|']);
    let c = checksum_text(a);
    let k = kind_text(is_binary);
    let two = c + seq!['|'] + a.r_minor@;
    let three = two + seq!['|'] + k;
    let four = three + seq!['|'] + a.host@;
    plain_text_is_one_piece(c, '|');
    plain_text_is_one_piece(a.r_minor@, '|');
    plain_text_is_one_piece(k, '|');
    plain_text_is_one_piece(a.host@, '|');
    pieces_of_both(c, a.r_minor@, '|');
    pieces_of_both(two, k, '|');
    pieces_of_both(three, a.host@, '|');
    assert(split(four, '|') == seq![c, a.r_minor@, k, a.host@]);
    let f = flavor_of(a, is_binary);
    lemma_split_barred(four, f);
    lemma_split_barred(four + super::package_cache::barred(f), opt_str(a.libr_path));
    assert(identity(a, is_binary) == four + super::package_cache::barred(f) + super::package_cache::barred(opt_str(a.libr_path)));
}

/// Artifacts of one package and version have one identity only if they have the same
/// checksum, were made for the same series of R and the same machine, and in the same way;
/// and, where both or neither are tied to a library of R, to the same library and, if they
/// are builds, from the same place. An absent checksum counts as the text `none`.
#[verifier::rlimit(40)]
pub proof fn artifacts_are_told_apart(a: Artifact, p: bool, b: Artifact, q: bool)
    requires
        has_no_bars(a),
        has_no_bars(b),
        identity(a, p) == identity(b, q),
    ensures
        p == q,
        a.checksum is Some && b.checksum is Some ==> a.checksum->0@ == b.checksum->0@,
        a.checksum is Some && b.checksum is None ==> a.checksum->0@ == "none"@,
        a.checksum is None && b.checksum is Some ==> b.checksum->0@ == "none"@,
        a.r_minor@ == b.r_minor@,
        a.host@ == b.host@,
        (a.libr_path is Some <==> b.libr_path is Some) ==> opt_str(a.libr_path) == opt_str(b.libr_path),
        (a.libr_path is Some <==> b.libr_path is Some) && p ==> opt_str(a.binary_flavor) == opt_str(b.binary_flavor),
{
    lemma_identity_parts(a, p);
    lemma_identity_parts(b, q);
    let x = split(identity(a, p), '|');
    let y = split(identity(b, q), '|');
    assert(x[0] == checksum_text(a) && y[0] == checksum_text(b));
    assert(x[1] == a.r_minor@ && y[1] == b.r_minor@);
    assert(x[2] == kind_text(p) && y[2] == kind_text(q));
    assert(x[3] == a.host@ && y[3] == b.host@);
    assert(p == q) by {
        reveal_strlit("binary");
        reveal_strlit("source");
        assert("binary"@[0] == 'b');
        assert("source"@[0] == 's');
    }
    if a.libr_path is Some <==> b.libr_path is Some {
        let f = flavor_of(a, p);
        let g = flavor_of(b, q);
        if a.libr_path is Some {
            assert(x.last() == a.libr_path->0@);
            assert(y.last() == b.libr_path->0@);
        }
        if f is Some && g is Some {
            assert(x[4] == f->0);
            assert(y[4] == g->0);
        }
    }
}

proof fn lemma_hex_digit(m: u8, n: u8)
    requires
        m < 16,
        n < 16,
        hex_digit(m) == hex_digit(n),
    ensures
        m == n,
{
}

/// The hexadecimal digits of some bytes are two for each, and tell the bytes apart.
pub proof fn digits_tell_bytes_apart(a: Seq<u8>, b: Seq<u8>, n: nat)
    requires
        n <= a.len(),
        n <= b.len(),
        hex_text(a).take(2 * n as int) == hex_text(b).take(2 * n as int),
    ensures
        hex_text(a).len() == 2 * a.len(),
        a.take(n as int) == b.take(n as int),
{
    let x = hex_text(a).take(2 * n as int);
    let y = hex_text(b).take(2 * n as int);
    assert forall|i: int| 0 <= i < n implies a[i] == b[i] by {
        let (j, k) = (2 * i, 2 * i + 1);
        assert(j / 2 == i && j % 2 == 0 && k / 2 == i && k % 2 == 1);
        assert(x[j] == hex_text(a)[j] && y[j] == hex_text(b)[j]);
        assert(x[k] == hex_text(a)[k] && y[k] == hex_text(b)[k]);
        assert(hex_text(a)[j] == hex_digit(a[i] / 16) && hex_text(b)[j] == hex_digit(b[i] / 16));
        assert(hex_text(a)[k] == hex_digit(a[i] % 16) && hex_text(b)[k] == hex_digit(b[i] % 16));
        lemma_hex_digit(a[i] / 16, b[i] / 16);
        lemma_hex_digit(a[i] % 16, b[i] % 16);
    }
    assert(a.take(n as int) =~= b.take(n as int));
}

/// Two artifacts are kept under one key only if they are of one package and version and
/// have one identity, as far as the first sixteen bytes of their digests tell identities
/// apart.
pub proof fn keys_tell_artifacts_apart(a: Artifact, p: bool, b: Artifact, q: bool)
    requires
        !a.name@.contains('-'),
        !b.name@.contains('-'),
        sha256(vstd::utf8::encode_utf8(identity(a, p))).len() == 32,
        sha256(vstd::utf8::encode_utf8(identity(b, q))).len() == 32,
        key_of(a, p) == key_of(b, q),
    ensures
        a.name@ == b.name@,
        a.version@ == b.version@,
        sha256(vstd::utf8::encode_utf8(identity(a, p))).take(16) == sha256(vstd::utf8::encode_utf8(identity(b, q))).take(16),
{
    reveal_strlit("-");
    assert("-"@ == seq!['-']);
    let d = sha256(vstd::utf8::encode_utf8(identity(a, p)));
    let e = sha256(vstd::utf8::encode_utf8(identity(b, q)));
    let x = hex_text(d).take(32);
    let y = hex_text(e).take(32);
    let s = a.version@ + seq!['-'] + x;
    let t = b.version@ + seq!['-'] + y;
    assert(key_of(a, p) == a.name@ + seq!['-'] + s);
    assert(key_of(b, q) == b.name@ + seq!['-'] + t);
    cutting_undoes_joining(a.name@, s, '-');
    cutting_undoes_joining(b.name@, t, '-');
    assert(s == t);
    assert(a.version@ == s.take(s.len() - 33));
    assert(b.version@ == t.take(t.len() - 33));
    assert(x == s.skip(s.len() - 32));
    assert(y == t.skip(t.len() - 32));
    digits_tell_bytes_apart(d, e, 16);
}

/// A change of the checksum, the series of R, the machine or the way of making changes the
/// key, unless the first sixteen bytes of the two digests are the same.
pub proof fn changed_artifacts_have_other_keys(a: Artifact, p: bool, b: Artifact, q: bool)
    requires
        has_no_bars(a),
        has_no_bars(b),
        !a.name@.contains('-'),
        !b.name@.contains('-'),
        sha256(vstd::utf8::encode_utf8(identity(a, p))).len() == 32,
        sha256(vstd::utf8::encode_utf8(identity(b, q))).len() == 32,
        sha256(vstd::utf8::encode_utf8(identity(a, p))).take(16) == sha256(vstd::utf8::encode_utf8(identity(b, q))).take(16)
            ==> identity(a, p) == identity(b, q),
        p != q || a.r_minor@ != b.r_minor@ || a.host@ != b.host@ || (a.checksum is Some && b.checksum is Some
            && a.checksum->0@ != b.checksum->0@),
    ensures
        key_of(a, p) != key_of(b, q),
{
    if key_of(a, p) == key_of(b, q) {
        keys_tell_artifacts_apart(a, p, b, q);
        artifacts_are_told_apart(a, p, b, q);
    }
}

/// The name of a package is found in the key under which it is kept.
pub proof fn key_names_its_package(a: Artifact, p: bool)
    requires
        a.name@.len() > 0,
        !a.name@.contains('-'),
        a.version@.len() > 0,
        sha256(vstd::utf8::encode_utf8(identity(a, p))).len() == 32,
    ensures
        name_in_key(key_of(a, p)) == Some(a.name@),
{
    name_is_found_in_key(a.name@, a.version@, sha256(vstd::utf8::encode_utf8(identity(a, p))));
}

/// What is no key has no name: the last part of a key has 32 characters and the others
/// are not empty.
pub proof fn other_texts_name_no_package(key: Seq<char>)
    ensures
        !key.contains('-') ==> name_in_key(key) is None,
        key.len() < 35 ==> name_in_key(key) is None,
        name_in_key(key) matches Some(n) ==> n.len() > 0 && !n.contains('-') && key.take(n.len() as int) == n,
{
    crate::text_laws::cuts_are_at_the_ends(key, '-');
    match split_once(key, '-') {
        Some((name, rest)) => {
            crate::text_laws::cuts_are_at_the_ends(rest, '-');
            assert(key.take(name.len() as int) == name);
            assert(key[name.len() as int] == '-');
        },
        None => {},
    }
}

/// A build that is there is used where builds may be; else what was compiled, if it is
/// there; else nothing is found.
pub proof fn builds_come_first(dir: Seq<char>, a: Artifact, build: bool, source: bool, windows: bool)
    ensures
        found_entry(dir, a, true, true, source, windows) == Some(entry_of(windows, dir, a.name@, key_of(a, true))),
        found_entry(dir, a, true, false, source, windows) == found_entry(dir, a, false, build, source, windows),
        found_entry(dir, a, false, build, true, windows) == Some(entry_of(windows, dir, a.name@, key_of(a, false))),
        found_entry(dir, a, false, build, false, windows) is None,
{
}

/// Of the lines of a record the last with a key counts, and those with other keys do not.
#[verifier::rlimit(40)]
pub proof fn last_line_of_a_record_counts(ls: Seq<Seq<char>>, v: Seq<char>, other: Seq<char>)
    requires
        !other.contains('='),
        other != "r_minor"@,
        other != "kind"@,
    ensures
        v.len() > 0 ==> meta_state(ls.push("r_minor="@ + v)) == (MetaState { r_minor: Some(v), ..meta_state(ls) }),
        meta_state(ls.push("r_minor="@)) == meta_state(ls),
        meta_state(ls.push("kind="@ + v)) == (MetaState { is_binary: Some(v == "binary"@), ..meta_state(ls) }),
        meta_state(ls.push(other + seq!['='] + v)) == meta_state(ls),
        meta_state(ls.push(other)) == meta_state(ls),
{
    reveal_strlit("r_minor=");
    reveal_strlit("r_minor");
    reveal_strlit("kind=");
    reveal_strlit("kind");
    let e = Seq::<char>::empty();
    assert("r_minor="@ + v == "r_minor"@ + seq!['='] + v);
    assert("r_minor="@ == "r_minor"@ + seq!['='] + e);
    assert("kind="@ + v == "kind"@ + seq!['='] + v);
    cutting_undoes_joining("r_minor"@, v, '=');
    cutting_undoes_joining("r_minor"@, e, '=');
    cutting_undoes_joining("kind"@, v, '=');
    cutting_undoes_joining(other, v, '=');
    assert("r_minor"@ != "kind"@) by {
        assert("r_minor"@.len() != "kind"@.len());
    }
    crate::text_laws::cuts_are_at_the_ends(other, '=');
    match split_once(other, '=') {
        Some((x, y)) => {
            assert(other[x.len() as int] == '=');
        },
        None => {},
    }
    assert forall|l: Seq<char>| (#[trigger] ls.push(l)).drop_last() == ls && ls.push(l).last() == l by {}
}

/// A record that does not say both things says nothing.
pub proof fn half_a_record_says_nothing(text: Seq<char>)
    ensures
        meta_in(text) is Some <==> meta_state(lines(text)).r_minor is Some && meta_state(lines(text)).is_binary is Some,
        meta_in(text) matches Some(m) ==> meta_state(lines(text)).r_minor == Some(m.r_minor) && meta_state(lines(text)).is_binary
            == Some(m.is_binary),
{
}

/// A package counts as kept only where something as good is in its place or the copy has
/// been moved there, and it is moved only once it has been copied without an error.
pub proof fn kept_packages_are_complete(dir: Seq<char>, p: StorePhase, e: StoreEventView)
    ensures
        store_next(dir, p, e).1 is Done ==> (p is Looking && (e matches StoreEventView::Found { exists, equivalent } && exists
            && equivalent)) || (p is Publishing && (e is Published || (e matches StoreEventView::Occupied { equivalent, .. }
            && equivalent))),
        store_next(dir, p, e).1 is Publish ==> p is Staging && (e matches StoreEventView::Staged { error } && error is None),
        store_next(dir, p, e).1 is Remove ==> p is Looking && (e matches StoreEventView::Found { exists, equivalent } && exists
            && !equivalent),
        store_next(dir, p, e).1 is Done || store_next(dir, p, e).1 is Fail ==> store_next(dir, p, e).0 is Ended,
        store_next(dir, p, e).1 is Stage <==> store_next(dir, p, e).0 is Staging && !(store_next(dir, p, e).1 is Wait),
        store_next(dir, p, e).1 is Wait ==> store_next(dir, p, e).0 == p,
{
}

/// Keeping a package goes on from each phase to its end: what is missing or no good is
/// staged, what is staged is published, and what cannot be replaced is an error.
pub proof fn keeping_goes_on(dir: Seq<char>, error: Seq<char>, exists: bool, equivalent: bool)
    ensures
        store_next(dir, StorePhase::Looking, StoreEventView::Found { exists: false, equivalent }).1 is Stage,
        store_next(dir, StorePhase::Looking, StoreEventView::Found { exists: true, equivalent: false }).1 is Remove,
        store_next(dir, StorePhase::Looking, StoreEventView::Found { exists: true, equivalent: true }).1 is Done,
        store_next(dir, StorePhase::Removing, StoreEventView::Removed { error: None, exists, equivalent }).1 is Stage,
        store_next(dir, StorePhase::Removing, StoreEventView::Removed { error: Some(error), exists: true, equivalent: false }).1 is Fail,
        store_next(dir, StorePhase::Removing, StoreEventView::Removed { error: Some(error), exists: false, equivalent }).1 is Stage,
        store_next(dir, StorePhase::Removing, StoreEventView::Removed { error: Some(error), exists, equivalent: true }).1 is Stage,
        store_next(dir, StorePhase::Staging, StoreEventView::Staged { error: None }).1 is Publish,
        store_next(dir, StorePhase::Staging, StoreEventView::Staged { error: Some(error) }).1 == StoreActionView::Fail(error),
        store_next(dir, StorePhase::Publishing, StoreEventView::Published).1 is Done,
        store_next(dir, StorePhase::Publishing, StoreEventView::Occupied { error, equivalent: true }).1 is Done,
        store_next(dir, StorePhase::Publishing, StoreEventView::Occupied { error, equivalent: false }).1 is Fail,
        store_next(dir, StorePhase::Publishing, StoreEventView::NotMoved { error }).1 == StoreActionView::Fail(error),
{
}

/// A checksum is accepted if and only if it is the checksum of the bytes of the kind that
/// it names; another one is a mismatch that says both, and one of an unknown kind is an
/// error.
pub proof fn checksums_are_compared(expected: Seq<char>, data: Seq<u8>, package: Seq<char>)
    ensures
        verdict(expected, sha256_checksum(data), md5_checksum(data), package) is Ok <==> expected == "sha256:"@ + hex_text(
            sha256(data),
        ) || expected == "md5:"@ + hex_text(md5(data)),
        verdict(expected, sha256_checksum(data), md5_checksum(data), package) matches Err(
            ErrorView::ChecksumMismatch { package: p, expected: e, actual },
        ) ==> p == package && e == expected && actual != expected,
        verdict(expected, sha256_checksum(data), md5_checksum(data), package) matches Err(
            ErrorView::ChecksumMismatch { package: p, expected: e, actual },
        ) ==> (starts_with(expected, "sha256:"@) && actual == "sha256:"@ + hex_text(sha256(data)) || starts_with(
            expected,
            "md5:"@,
        ) && actual == "md5:"@ + hex_text(md5(data))),
{
    own_checksum_is_accepted(data, package);
}

} // verus!
