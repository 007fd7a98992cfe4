//! The packages that are kept once they are built, for all projects.
use vstd::prelude::*;

use crate::checksum::{hex_text, sha256, sha256_hex_digest};
use crate::paths::{join_on, joined_on};
use crate::text::{chars_of, cut_last, cut_once, find_char, is_digit, is_text, lines, lines_of, lines_of_line_and_rest,
    opt_str, opt_view, part, rfind_char, rsplit_once, slice_views, split_once, string_of, without_cr};

verus! {

/// What a package was built from and for.
pub struct Artifact<'a> {
    pub name: &'a str,
    pub version: &'a str,
    /// The checksum of the source.
    pub checksum: Option<&'a str>,
    /// The version of R without its last part.
    pub r_minor: &'a str,
    /// The library of R that builds for macOS are tied to.
    pub libr_path: Option<&'a str>,
    /// The repository of a build, where several have builds for the platform.
    pub binary_flavor: Option<&'a str>,
    /// The processor and the system, such as `x86_64-linux`.
    pub host: &'a str,
}

/// A part of the text that tells artifacts apart, behind a bar.
pub open spec fn barred(t: Option<Seq<char>>) -> Seq<char> {
    match t {
        Some(t) => "|"@ + t,
        None => seq![],
    }
}

/// The text that tells artifacts of one package and version apart. Where a build comes
/// from matters for builds only: what is compiled here comes from here.
pub open spec fn identity(a: Artifact, is_binary: bool) -> Seq<char> {
    (match opt_str(a.checksum) {
        Some(c) => c,
        None => "none"@,
    }) + "|"@ + a.r_minor@ + "|"@ + (if is_binary {
        "binary"@
    } else {
        "source"@
    }) + "|"@ + a.host@ + barred(
        if is_binary {
            opt_str(a.binary_flavor)
        } else {
            None
        },
    ) + barred(opt_str(a.libr_path))
}

/// The key under which a package is kept: its name, its version and a digest of what
/// else tells it apart.
pub open spec fn key_of(a: Artifact, is_binary: bool) -> Seq<char> {
    a.name@ + "-"@ + a.version@ + "-"@ + hex_text(sha256(vstd::utf8::encode_utf8(identity(a, is_binary)))).take(32)
}

fn push_barred(s: String, t: Option<&str>) -> (r: String)
    ensures
        r@ == s@ + barred(opt_str(t)),
{
    match t {
        Some(t) => {
            let r = s.concat("|").concat(t);
            assert(r@ == s@ + ("|"@ + t@));
            r
        },
        None => {
            assert(s@ == s@ + Seq::<char>::empty());
            s
        },
    }
}

fn identity_text(a: &Artifact, is_binary: bool) -> (r: String)
    ensures
        r@ == identity(*a, is_binary),
{
    let first = match a.checksum {
        Some(c) => c,
        None => "none",
    };
    let kind = if is_binary {
        "binary"
    } else {
        "source"
    };
    let s = first.to_owned().concat("|").concat(a.r_minor).concat("|").concat(kind).concat("|").concat(a.host);
    let flavor = if is_binary {
        a.binary_flavor
    } else {
        None
    };
    push_barred(push_barred(s, flavor), a.libr_path)
}

/// The key under which a package is kept; see [`key_of`].
pub fn cache_key(a: &Artifact, is_binary: bool) -> (r: String)
    ensures
        r@ == key_of(*a, is_binary),
{
    let text = identity_text(a, is_binary);
    let digest = sha256_hex_digest(text.as_str().as_bytes());
    let cs = chars_of(digest.as_str());
    let hash = part(cs.as_slice(), 0, 32);
    assert(hash@ == digest@.take(32));
    a.name.to_owned().concat("-").concat(a.version).concat("-").concat(string_of(hash).as_str())
}

/// The directory in which a package is kept under a key.
pub open spec fn entry_of(windows: bool, packages_dir: Seq<char>, name: Seq<char>, key: Seq<char>) -> Seq<char> {
    joined_on(windows, joined_on(windows, packages_dir, key), name)
}

/// The directory in which a package is kept under a key; see [`entry_of`].
pub fn entry_dir(packages_dir: &str, name: &str, key: &str, windows: bool) -> (r: String)
    ensures
        r@ == entry_of(windows, packages_dir@, name@, key@),
{
    join_on(windows, join_on(windows, packages_dir, key).as_str(), name)
}

/// The directory in which a package is kept under a key, if there is a `DESCRIPTION` file
/// in it.
pub fn lookup(packages_dir: &str, name: &str, key: &str, has_description: bool, windows: bool) -> (r: Option<String>)
    ensures
        opt_view(r) == (if has_description {
            Some(entry_of(windows, packages_dir@, name@, key@))
        } else {
            None
        }),
{
    if has_description {
        Some(entry_dir(packages_dir, name, key, windows))
    } else {
        None
    }
}

/// Where a package is found, given whether there is a `DESCRIPTION` file where its build is
/// kept and where what was compiled is kept. The build comes first, where it can be used.
pub open spec fn found_entry(
    packages_dir: Seq<char>,
    a: Artifact,
    binary_allowed: bool,
    build_is_there: bool,
    source_is_there: bool,
    windows: bool,
) -> Option<Seq<char>> {
    if binary_allowed && build_is_there {
        Some(entry_of(windows, packages_dir, a.name@, key_of(a, true)))
    } else if source_is_there {
        Some(entry_of(windows, packages_dir, a.name@, key_of(a, false)))
    } else {
        None
    }
}

/// Where a package is found; see [`found_entry`].
pub fn lookup_any(
    packages_dir: &str,
    a: &Artifact,
    binary_allowed: bool,
    build_is_there: bool,
    source_is_there: bool,
    windows: bool,
) -> (r: Option<String>)
    ensures
        opt_view(r) == found_entry(packages_dir@, *a, binary_allowed, build_is_there, source_is_there, windows),
{
    if binary_allowed && build_is_there {
        lookup(packages_dir, a.name, cache_key(a, true).as_str(), true, windows)
    } else {
        lookup(packages_dir, a.name, cache_key(a, false).as_str(), source_is_there, windows)
    }
}

pub open spec fn is_hex(c: char) -> bool {
    is_digit(c) || 'a' <= c <= 'f' || 'A' <= c <= 'F'
}

pub open spec fn all_hex(s: Seq<char>) -> bool {
    forall|i: int| 0 <= i < s.len() ==> is_hex(#[trigger] s[i])
}

/// The name of the package in a key: what stands before the first hyphen, for a version
/// can have hyphens and a name cannot. What is no key has none.
pub open spec fn name_in_key(key: Seq<char>) -> Option<Seq<char>> {
    match split_once(key, '-') {
        None => None,
        Some((name, rest)) => match rsplit_once(rest, '-') {
            None => None,
            Some((version, hash)) => if name.len() > 0 && version.len() > 0 && hash.len() == 32 && all_hex(hash) {
                Some(name)
            } else {
                None
            },
        },
    }
}

fn is_all_hex(s: &[char]) -> (r: bool)
    ensures
        r == all_hex(s@),
{
    let n: usize = s.len();
    let mut i: usize = 0;
    while i < n
        invariant
            i <= n,
            n == s@.len(),
            forall|j: int| 0 <= j < i ==> is_hex(#[trigger] s@[j]),
        decreases n - i,
    {
        let c = s[i];
        if !(('0' <= c && c <= '9') || ('a' <= c && c <= 'f') || ('A' <= c && c <= 'F')) {
            assert(!is_hex(s@[i as int]));
            return false;
        }
        i += 1;
    }
    true
}

/// The name of the package in a key; see [`name_in_key`].
pub fn package_name_from_key(key: &str) -> (r: Option<String>)
    ensures
        opt_view(r) == name_in_key(key@),
{
    let cs = chars_of(key);
    match cut_once(cs.as_slice(), '-') {
        None => None,
        Some((name, rest)) => match cut_last(rest, '-') {
            None => None,
            Some((version, hash)) => if name.len() > 0 && version.len() > 0 && hash.len() == 32 && is_all_hex(hash) {
                Some(string_of(name))
            } else {
                None
            },
        },
    }
}

/// The file beside a package that is kept that says what its key does not.
pub const ENTRY_META_FILENAME: &'static str = ".uvr-meta";

/// What is recorded of a package that is kept.
#[derive(Debug, Clone, PartialEq, Eq)]
pub struct EntryMeta {
    pub r_minor: String,
    pub is_binary: bool,
}

/// What is recorded of a package, as a mathematical value.
pub struct EntryMetaView {
    pub r_minor: Seq<char>,
    pub is_binary: bool,
}

impl View for EntryMeta {
    type V = EntryMetaView;

    open spec fn view(&self) -> EntryMetaView {
        EntryMetaView { r_minor: self.r_minor@, is_binary: self.is_binary }
    }
}

/// The record as text.
pub open spec fn meta_text(m: EntryMetaView) -> Seq<char> {
    "r_minor="@ + m.r_minor + "\nkind="@ + (if m.is_binary {
        "binary"@
    } else {
        "source"@
    }) + "\n"@
}

/// What the lines of a record say so far.
pub struct MetaState {
    pub r_minor: Option<Seq<char>>,
    pub is_binary: Option<bool>,
}

/// What the lines of a record say. Lines with other keys are passed over.
pub open spec fn meta_state(ls: Seq<Seq<char>>) -> MetaState
    decreases ls.len(),
{
    if ls.len() == 0 {
        MetaState { r_minor: None, is_binary: None }
    } else {
        let s = meta_state(ls.drop_last());
        match split_once(ls.last(), '=') {
            Some((k, v)) => if k == "r_minor"@ && v.len() > 0 {
                MetaState { r_minor: Some(v), ..s }
            } else if k == "kind"@ {
                MetaState { is_binary: Some(v == "binary"@), ..s }
            } else {
                s
            },
            None => s,
        }
    }
}

/// What a record says, where it says both things.
pub open spec fn meta_in(text: Seq<char>) -> Option<EntryMetaView> {
    match meta_state(lines(text)) {
        MetaState { r_minor: Some(r_minor), is_binary: Some(is_binary) } => Some(EntryMetaView { r_minor, is_binary }),
        _ => None,
    }
}

impl EntryMeta {
    /// The record as text; see [`meta_text`].
    pub fn to_file_contents(&self) -> (r: String)
        ensures
            r@ == meta_text(self@),
    {
        let kind = if self.is_binary {
            "binary"
        } else {
            "source"
        };
        "r_minor=".to_owned().concat(self.r_minor.as_str()).concat("\nkind=").concat(kind).concat("\n")
    }

    /// What a record says; see [`meta_in`].
    pub fn from_file_contents(contents: &str) -> (r: Option<EntryMeta>)
        ensures
            match r {
                Some(m) => meta_in(contents@) == Some(m@),
                None => meta_in(contents@) is None,
            },
    {
        let cs = chars_of(contents);
        let ls = lines_of(cs.as_slice());
        let ghost all = lines(contents@);
        let mut r_minor: Option<String> = None;
        let mut is_binary: Option<bool> = None;
        let mut i: usize = 0;
        assert(all.take(0) == Seq::<Seq<char>>::empty());
        while i < ls.len()
            invariant
                i <= ls@.len(),
                slice_views(ls@) == all,
                meta_state(all.take(i as int)) == (MetaState { r_minor: opt_view(r_minor), is_binary }),
            decreases ls@.len() - i,
        {
            proof {
                assert(slice_views(ls@)[i as int] == ls@[i as int]@);
                assert(all.take(i + 1).drop_last() == all.take(i as int));
            }
            if let Some((k, v)) = cut_once(ls[i], '=') {
                if is_text(k, "r_minor") && v.len() > 0 {
                    r_minor = Some(string_of(v));
                } else if is_text(k, "kind") {
                    is_binary = Some(is_text(v, "binary"));
                }
            }
            i += 1;
        }
        assert(all.take(i as int) == all);
        match (r_minor, is_binary) {
            (Some(r_minor), Some(is_binary)) => Some(EntryMeta { r_minor, is_binary }),
            _ => None,
        }
    }
}

/// A package that is kept is as good as the one that is to be kept: it is complete, and
/// it comes from the same place.
pub fn published_entry_is_equivalent(has_description: bool, same_provenance: bool) -> (r: bool)
    ensures
        r == (has_description && same_provenance),
{
    has_description && same_provenance
}

/// How far the keeping of a package has come.
#[derive(Debug, Clone, Copy, PartialEq, Eq, Structural)]
pub enum StorePhase {
    /// Is there something under the key?
    Looking,
    /// What is there and no good is being removed.
    Removing,
    /// The package is being copied next to its place.
    Staging,
    /// The copy is being moved into its place.
    Publishing,
    Ended,
}

/// What happened while a package was being kept.
#[derive(Debug)]
pub enum StoreEvent {
    /// There is something under the key, or not; if so, it is as good, or not.
    Found { exists: bool, equivalent: bool },
    /// What was there has been removed, or could not be, and why; and what is there now.
    Removed { error: Option<String>, exists: bool, equivalent: bool },
    /// The package has been copied, or could not be, and why.
    Staged { error: Option<String> },
    /// The copy is in its place.
    Published,
    /// The copy could not be moved, because there is something in its place, and why;
    /// what is there is as good, or not.
    Occupied { error: String, equivalent: bool },
    /// The copy could not be moved for another reason.
    NotMoved { error: String },
}

/// What happened while a package was being kept, as a mathematical value.
pub enum StoreEventView {
    Found { exists: bool, equivalent: bool },
    Removed { error: Option<Seq<char>>, exists: bool, equivalent: bool },
    Staged { error: Option<Seq<char>> },
    Published,
    Occupied { error: Seq<char>, equivalent: bool },
    NotMoved { error: Seq<char> },
}

impl View for StoreEvent {
    type V = StoreEventView;

    open spec fn view(&self) -> StoreEventView {
        match *self {
            StoreEvent::Found { exists, equivalent } => StoreEventView::Found { exists, equivalent },
            StoreEvent::Removed { error, exists, equivalent } => StoreEventView::Removed {
                error: opt_view(error),
                exists,
                equivalent,
            },
            StoreEvent::Staged { error } => StoreEventView::Staged { error: opt_view(error) },
            StoreEvent::Published => StoreEventView::Published,
            StoreEvent::Occupied { error, equivalent } => StoreEventView::Occupied { error: error@, equivalent },
            StoreEvent::NotMoved { error } => StoreEventView::NotMoved { error: error@ },
        }
    }
}

/// What is done next to keep a package.
#[derive(Debug, PartialEq, Eq)]
pub enum StoreAction {
    /// Remove what is under the key.
    Remove,
    /// Copy the package, and its record, next to its place.
    Stage,
    /// Move the copy into its place in one step.
    Publish,
    /// The package is kept.
    Done,
    /// Give up.
    Fail(String),
    /// Wait for what belongs to the phase.
    Wait,
}

/// What is done next to keep a package, as a mathematical value.
pub enum StoreActionView {
    Remove,
    Stage,
    Publish,
    Done,
    Fail(Seq<char>),
    Wait,
}

impl View for StoreAction {
    type V = StoreActionView;

    open spec fn view(&self) -> StoreActionView {
        match *self {
            StoreAction::Remove => StoreActionView::Remove,
            StoreAction::Stage => StoreActionView::Stage,
            StoreAction::Publish => StoreActionView::Publish,
            StoreAction::Done => StoreActionView::Done,
            StoreAction::Fail(e) => StoreActionView::Fail(e@),
            StoreAction::Wait => StoreActionView::Wait,
        }
    }
}

/// What is done next to keep a package under the directory `dir`. What is there and as
/// good is kept; what is no good is replaced. A package appears in its place complete or
/// not at all, and where another process was first, its package is used if it is as good.
pub open spec fn store_next(dir: Seq<char>, p: StorePhase, e: StoreEventView) -> (StorePhase, StoreActionView) {
    match (p, e) {
        (StorePhase::Looking, StoreEventView::Found { exists, equivalent }) => if !exists {
            (StorePhase::Staging, StoreActionView::Stage)
        } else if equivalent {
            (StorePhase::Ended, StoreActionView::Done)
        } else {
            (StorePhase::Removing, StoreActionView::Remove)
        },
        (StorePhase::Removing, StoreEventView::Removed { error, exists, equivalent }) => match error {
            Some(e) => if exists && !equivalent {
                (
                    StorePhase::Ended,
                    StoreActionView::Fail("failed to replace invalid cache entry "@ + dir + ": "@ + e),
                )
            } else {
                (StorePhase::Staging, StoreActionView::Stage)
            },
            None => (StorePhase::Staging, StoreActionView::Stage),
        },
        (StorePhase::Staging, StoreEventView::Staged { error }) => match error {
            Some(e) => (StorePhase::Ended, StoreActionView::Fail(e)),
            None => (StorePhase::Publishing, StoreActionView::Publish),
        },
        (StorePhase::Publishing, StoreEventView::Published) => (StorePhase::Ended, StoreActionView::Done),
        (StorePhase::Publishing, StoreEventView::Occupied { error, equivalent }) => if equivalent {
            (StorePhase::Ended, StoreActionView::Done)
        } else {
            (
                StorePhase::Ended,
                StoreActionView::Fail("invalid cache entry "@ + dir + " could not be replaced: "@ + error),
            )
        },
        (StorePhase::Publishing, StoreEventView::NotMoved { error }) => (
            StorePhase::Ended,
            StoreActionView::Fail(error),
        ),
        _ => (p, StoreActionView::Wait),
    }
}

/// What is done next to keep a package; see [`store_next`].
pub fn store_step(dir: &str, phase: StorePhase, event: StoreEvent) -> (r: (StorePhase, StoreAction))
    ensures
        (r.0, r.1@) == store_next(dir@, phase, event@),
{
    match (phase, event) {
        (StorePhase::Looking, StoreEvent::Found { exists, equivalent }) => if !exists {
            (StorePhase::Staging, StoreAction::Stage)
        } else if equivalent {
            (StorePhase::Ended, StoreAction::Done)
        } else {
            (StorePhase::Removing, StoreAction::Remove)
        },
        (StorePhase::Removing, StoreEvent::Removed { error, exists, equivalent }) => match error {
            Some(e) => if exists && !equivalent {
                (
                    StorePhase::Ended,
                    StoreAction::Fail(
                        "failed to replace invalid cache entry ".to_owned().concat(dir).concat(": ").concat(e.as_str()),
                    ),
                )
            } else {
                (StorePhase::Staging, StoreAction::Stage)
            },
            None => (StorePhase::Staging, StoreAction::Stage),
        },
        (StorePhase::Staging, StoreEvent::Staged { error }) => match error {
            Some(e) => (StorePhase::Ended, StoreAction::Fail(e)),
            None => (StorePhase::Publishing, StoreAction::Publish),
        },
        (StorePhase::Publishing, StoreEvent::Published) => (StorePhase::Ended, StoreAction::Done),
        (StorePhase::Publishing, StoreEvent::Occupied { error, equivalent }) => if equivalent {
            (StorePhase::Ended, StoreAction::Done)
        } else {
            (
                StorePhase::Ended,
                StoreAction::Fail(
                    "invalid cache entry ".to_owned().concat(dir).concat(" could not be replaced: ").concat(
                        error.as_str(),
                    ),
                ),
            )
        },
        (StorePhase::Publishing, StoreEvent::NotMoved { error }) => (StorePhase::Ended, StoreAction::Fail(error)),
        (phase, _) => (phase, StoreAction::Wait),
    }
}

/// An error of a move that says that there is something in the place: by its kind, or by
/// the numbers that systems have for it.
pub fn place_is_occupied(already_exists: bool, raw_os_error: Option<i32>) -> (r: bool)
    ensures
        r == (already_exists || raw_os_error == Some(39i32) || raw_os_error == Some(17i32)),
{
    if already_exists {
        return true;
    }
    match raw_os_error {
        Some(n) => n == 39 || n == 17,
        None => false,
    }
}

/// The key of what is compiled does not depend on where builds come from, so that what
/// is kept is found.
pub proof fn source_key_ignores_flavor(a: Artifact, b: Artifact)
    requires
        a.name@ == b.name@,
        a.version@ == b.version@,
        opt_str(a.checksum) == opt_str(b.checksum),
        a.r_minor@ == b.r_minor@,
        opt_str(a.libr_path) == opt_str(b.libr_path),
        a.host@ == b.host@,
    ensures
        key_of(a, false) == key_of(b, false),
        forall|dir: Seq<char>, allowed: bool, windows: bool|
            #[trigger] found_entry(dir, b, allowed, false, true, windows) == Some(entry_of(windows, dir, a.name@, key_of(a, false))),
{
}

/// Where builds cannot be used, none is found, be it there or not.
pub proof fn builds_are_not_looked_for(packages_dir: Seq<char>, a: Artifact, build: bool, source: bool, windows: bool)
    ensures
        found_entry(packages_dir, a, false, build, source, windows) == (if source {
            Some(entry_of(windows, packages_dir, a.name@, key_of(a, false)))
        } else {
            None
        }),
{
}

proof fn lemma_first(s: Seq<char>, t: Seq<char>, c: char, i: int)
    requires
        !s.contains(c),
        0 <= i <= s.len(),
    ensures
        find_char(s.push(c) + t, c, i) == s.len(),
    decreases s.len() - i,
{
    let w = s.push(c) + t;
    if i < s.len() {
        assert(w[i] == s[i]);
        assert(s.contains(s[i]));
        lemma_first(s, t, c, i + 1);
    } else {
        assert(w[i] == c);
    }
}

proof fn lemma_last(s: Seq<char>, t: Seq<char>, c: char, j: int)
    requires
        !t.contains(c),
        s.len() < j <= s.len() + 1 + t.len(),
    ensures
        rfind_char(s.push(c) + t, c, j) == s.len(),
    decreases j,
{
    let w = s.push(c) + t;
    if j == s.len() + 1 {
        assert(w[j - 1] == c);
    } else {
        assert(w[j - 1] == t[j - 2 - s.len()]);
        assert(t.contains(t[j - 2 - s.len()]));
        lemma_last(s, t, c, j - 1);
    }
}

/// The name of a package is found in its key.
pub proof fn name_is_found_in_key(name: Seq<char>, version: Seq<char>, digest: Seq<u8>)
    requires
        name.len() > 0,
        !name.contains('-'),
        version.len() > 0,
        digest.len() == 32,
    ensures
        name_in_key(name + "-"@ + version + "-"@ + hex_text(digest).take(32)) == Some(name),
{
    reveal_strlit("-");
    let hash = hex_text(digest).take(32);
    assert forall|i: int| 0 <= i < hash.len() implies is_hex(#[trigger] hash[i]) && hash[i] != '-' by {}
    let rest = version.push('-') + hash;
    let key = name + "-"@ + version + "-"@ + hash;
    assert("-"@ =~= seq!['-']);
    assert(key =~= name.push('-') + rest);
    lemma_first(name, rest, '-', 0);
    assert(key.subrange(0, name.len() as int) =~= name);
    assert(key.subrange(name.len() as int + 1, key.len() as int) =~= rest);
    lemma_last(version, hash, '-', rest.len() as int);
    assert(rest.subrange(0, version.len() as int) =~= version);
    assert(rest.subrange(version.len() as int + 1, rest.len() as int) =~= hash);
}

/// A record is read back as it was written.
pub proof fn record_is_read_back(m: EntryMetaView)
    requires
        m.r_minor.len() > 0,
        !m.r_minor.contains('\n'),
        !m.r_minor.contains('\r'),
    ensures
        meta_in(meta_text(m)) == Some(m),
{
    reveal_strlit("r_minor=");
    reveal_strlit("\nkind=");
    reveal_strlit("kind=");
    reveal_strlit("binary");
    reveal_strlit("source");
    reveal_strlit("\n");
    reveal_strlit("r_minor");
    reveal_strlit("kind");
    let kind = if m.is_binary {
        "binary"@
    } else {
        "source"@
    };
    let first = "r_minor="@ + m.r_minor;
    let second = "kind="@ + kind;
    assert(meta_text(m) =~= first.push('\n') + (second.push('\n') + Seq::<char>::empty()));
    assert(!first.contains('\n')) by {
        assert forall|i: int| 0 <= i < first.len() implies first[i] != '\n' by {
            if i >= 8 {
                assert(m.r_minor.contains(m.r_minor[i - 8]));
            }
        }
    }
    assert(!second.contains('\n'));
    lines_of_line_and_rest(first, second.push('\n') + Seq::<char>::empty());
    lines_of_line_and_rest(second, Seq::<char>::empty());
    assert(lines(Seq::<char>::empty()) == Seq::<Seq<char>>::empty());
    assert(without_cr(first) == first) by {
        assert(first.last() == m.r_minor.last());
        assert(m.r_minor.contains(m.r_minor.last()));
    }
    assert(without_cr(second) == second) by {
        assert(second.last() == kind.last());
    }
    let ls = lines(meta_text(m));
    assert(ls =~= seq![first, second]);
    let a = "r_minor"@;
    let b = "kind"@;
    assert(first =~= a.push('=') + m.r_minor);
    assert(second =~= b.push('=') + kind);
    lemma_first(a, m.r_minor, '=', 0);
    lemma_first(b, kind, '=', 0);
    assert(first.subrange(0, 7) =~= a);
    assert(first.subrange(8, first.len() as int) =~= m.r_minor);
    assert(second.subrange(0, 4) =~= b);
    assert(second.subrange(5, second.len() as int) =~= kind);
    assert(split_once(first, '=') == Some((a, m.r_minor)));
    assert(split_once(second, '=') == Some((b, kind)));
    assert(a != b) by {
        assert(a.len() != b.len());
    }
    assert(ls.drop_last() =~= seq![first]);
    assert(seq![first].drop_last() =~= Seq::<Seq<char>>::empty());
    assert(meta_state(seq![first]) == (MetaState { r_minor: Some(m.r_minor), is_binary: None::<bool> })) by {
        reveal_with_fuel(meta_state, 2);
    }
    assert(("source"@ == "binary"@) == false) by {
        assert("source"@[0] != "binary"@[0]);
    }
    assert(meta_state(ls) == (MetaState { r_minor: Some(m.r_minor), is_binary: Some(m.is_binary) }));
}

} // verus!
