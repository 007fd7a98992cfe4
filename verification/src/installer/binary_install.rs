//! Unpacking packages that are built already.
use vstd::prelude::*;
use vstd::utf8::{decode_utf8, valid_utf8};

use crate::error::{ErrorView, UvrError};
use crate::paths::{file_name, has_drive, last_name, slashed, slashed_chars};
use crate::registry::cran::{built_of, parse_built, BuiltInfo, BuiltView};
use crate::registry::index_fetch::{from_utf8, from_utf8_lossy, lossy_text};
use crate::text::{chars_of, contains_text, equals_ignoring_case, has_text, is_text, lines, lines_of,
    pieces, same_ignoring_case, same_str, slice_views, split, string_of, strip_prefix, trim, trimmed,
    without_prefix, words, words_of};

verus! {

/// An entry of an archive that would be unpacked outside the directory meant for it:
/// its path is absolute, or leads up.
pub open spec fn leads_out(path: Seq<char>, windows: bool) -> bool {
    let p = slashed(path, windows);
    (p.len() > 0 && p[0] == '/') || split(p, '/').contains(".."@) || (windows && has_drive(path))
}

/// Whether an entry of an archive would be unpacked outside the directory meant for it;
/// see [`leads_out`].
pub fn entry_leads_out(path: &str, windows: bool) -> (r: bool)
    ensures
        r == leads_out(path@, windows),
{
    let cs = chars_of(path);
    let p = slashed_chars(path, windows);
    if p.len() > 0 && p[0] == '/' {
        return true;
    }
    if windows && cs.len() >= 2 && cs[1] == ':' {
        let c = cs[0];
        if ('a' <= c && c <= 'z') || ('A' <= c && c <= 'Z') {
            return true;
        }
    }
    let ps = pieces(p.as_slice(), '/');
    let ghost all = split(p@, '/');
    let mut i: usize = 0;
    while i < ps.len()
        invariant
            i <= ps@.len(),
            slice_views(ps@) == all,
            all == split(slashed(path@, windows), '/'),
            forall|j: int| 0 <= j < i ==> #[trigger] all[j] != ".."@,
        decreases ps@.len() - i,
    {
        assert(all[i as int] == ps@[i as int]@);
        if is_text(ps[i], "..") {
            assert(all.contains(".."@));
            return true;
        }
        i += 1;
    }
    assert(!all.contains(".."@));
    false
}

/// Checks the path of an entry of an archive of R.
pub fn check_r_entry(path: &str, windows: bool) -> (r: Result<(), UvrError>)
    ensures
        r is Ok <==> !leads_out(path@, windows),
        r matches Err(e) ==> e@ == ErrorView::Other("Path traversal detected in R zip: "@ + path@),
{
    if entry_leads_out(path, windows) {
        Err(UvrError::Other("Path traversal detected in R zip: ".to_owned().concat(path)))
    } else {
        Ok(())
    }
}

/// How an archive is unpacked.
#[derive(Debug, Clone, Copy, PartialEq, Eq, Structural)]
pub enum ArchiveKind {
    Zip,
    Tgz,
}

/// How an archive is unpacked, by the extension of its file.
pub fn archive_kind(extension: Option<&str>) -> (r: ArchiveKind)
    ensures
        r == (if extension is Some && same_ignoring_case(extension->0@, "zip"@) {
            ArchiveKind::Zip
        } else {
            ArchiveKind::Tgz
        }),
{
    if let Some(e) = extension {
        let cs = chars_of(e);
        let z = chars_of("zip");
        if equals_ignoring_case(cs.as_slice(), z.as_slice()) {
            return ArchiveKind::Zip;
        }
    }
    ArchiveKind::Tgz
}

/// Checks that an archive held the package.
pub fn check_staged(package_name: &str, is_there: bool) -> (r: Result<(), UvrError>)
    ensures
        r is Ok <==> is_there,
        r matches Err(e) ==> e@ == ErrorView::Other(
            "Expected directory '"@ + package_name@ + "' not found in archive for '"@ + package_name@ + "'"@,
        ),
{
    if is_there {
        Ok(())
    } else {
        Err(
            UvrError::Other(
                "Expected directory '".to_owned().concat(package_name).concat("' not found in archive for '").concat(
                    package_name,
                ).concat("'"),
            ),
        )
    }
}

/// What is done after a directory could not be moved.
#[derive(Debug, Clone, Copy, PartialEq, Eq, Structural)]
pub enum MoveStep {
    /// Copy it, for it is on another device.
    Copy,
    /// Try again after so many milliseconds.
    Retry(u64),
    GiveUp,
}

/// What is done after the given try to move a directory failed: it is copied if it was to
/// go to another device, and on Windows tried again up to five times, after twice as long
/// each time.
pub open spec fn move_step(raw_os_error: Option<i32>, message: Seq<char>, windows: bool, attempt: u32) -> MoveStep {
    if raw_os_error == Some(18i32) || contains_text(message, "cross-device"@) {
        MoveStep::Copy
    } else if windows && (raw_os_error == Some(5i32) || raw_os_error == Some(32i32) || raw_os_error == Some(33i32))
        && attempt < 5 {
        MoveStep::Retry(wait_after(attempt as nat) as u64)
    } else {
        MoveStep::GiveUp
    }
}

/// What is done after the given try to move a directory failed. On Windows a program
/// that scans files may hold them for a moment.
pub fn after_failed_move(raw_os_error: Option<i32>, message: &str, windows: bool, attempt: u32) -> (r: MoveStep)
    ensures
        r == move_step(raw_os_error, message@, windows, attempt),
        r is Retry ==> attempt < 5,
{
    let code: i32 = match raw_os_error {
        Some(c) => c,
        None => 0,
    };
    proof {
        reveal_with_fuel(wait_after, 5);
    }
    let cs = chars_of(message);
    if code == 18 || has_text(cs.as_slice(), "cross-device") {
        MoveStep::Copy
    } else if windows && (code == 5 || code == 32 || code == 33) && attempt < 5 {
        MoveStep::Retry(
            if attempt == 0 {
                50
            } else if attempt == 1 {
                100
            } else if attempt == 2 {
                200
            } else if attempt == 3 {
                400
            } else {
                800
            },
        )
    } else {
        MoveStep::GiveUp
    }
}

/// How long is waited after the given try, in milliseconds: twice as long each time.
pub open spec fn wait_after(attempt: nat) -> nat
    decreases attempt,
{
    if attempt == 0 {
        50
    } else {
        2 * wait_after((attempt - 1) as nat)
    }
}

/// What is done after the given try to remove a directory failed: it is tried again after
/// so many milliseconds, up to three times, after twice as long each time.
pub fn after_failed_removal(attempt: u32) -> (r: Option<u64>)
    ensures
        match r {
            Some(ms) => attempt < 3 && ms == wait_after(attempt as nat),
            None => attempt >= 3,
        },
{
    proof {
        reveal_with_fuel(wait_after, 3);
    }
    if attempt == 0 {
        Some(50)
    } else if attempt == 1 {
        Some(100)
    } else if attempt == 2 {
        Some(200)
    } else {
        None
    }
}

/// An entry of an archive: its path and the start of what it holds.
#[derive(Debug)]
pub struct TarEntry {
    pub path: Vec<u8>,
    pub start: Vec<u8>,
}

/// An entry of an archive as a mathematical value.
pub struct TarEntryView {
    pub path: Seq<u8>,
    pub start: Seq<u8>,
}

impl View for TarEntry {
    type V = TarEntryView;

    open spec fn view(&self) -> TarEntryView {
        TarEntryView { path: self.path@, start: self.start@ }
    }
}

/// How much of an entry is looked at.
pub const ENTRY_START: u64 = 32768;

/// The entries of a compressed archive, with none for one that could not be read, and
/// nothing where the archive could not be opened. Of each entry at most the given number
/// of bytes is read.
pub uninterp spec fn archive_entries(data: Seq<u8>, limit: u64) -> Option<Seq<Option<TarEntryView>>>;

pub open spec fn entry_views(v: Seq<Option<TarEntry>>) -> Seq<Option<TarEntryView>> {
    v.map_values(
        |e: Option<TarEntry>|
            match e {
                Some(e) => Some(e@),
                None => None,
            },
    )
}

/// `tar::Archive::entries` over `flate2::read::GzDecoder`: the bytes of the path
/// of each entry and the start of its contents, in order. That this depends on the data and
/// the limit alone is all that is claimed.
#[verifier::external_body]
fn read_archive(data: &[u8], limit: u64) -> (r: Option<Vec<Option<TarEntry>>>)
    ensures
        match r {
            Some(v) => archive_entries(data@, limit) == Some(entry_views(v@)),
            None => archive_entries(data@, limit) is None,
        },
{
    let mut archive = tar::Archive::new(flate2::read::GzDecoder::new(data));
    let entries = archive.entries().ok()?;
    Some(
        entries.map(
            |e| e.ok().map(
                |e| {
                    let path = e.path_bytes().into_owned();
                    let mut start = Vec::new();
                    let _ = std::io::Read::read_to_end(&mut std::io::Read::take(e, limit), &mut start);
                    TarEntry { path, start }
                },
            ),
        ).collect(),
    )
}

/// What the first line from position `i` on that begins with `Built:` says of the build.
pub open spec fn built_line(ls: Seq<Seq<char>>, i: int) -> Option<BuiltView>
    decreases ls.len() - i,
{
    if i >= ls.len() {
        None
    } else {
        match strip_prefix(ls[i], "Built:"@) {
            Some(v) => built_of(trim(v)),
            None => built_line(ls, i + 1),
        }
    }
}

/// The text of some bytes; nothing where they are no UTF-8.
pub open spec fn text_or_nothing(data: Seq<u8>) -> Seq<char> {
    if valid_utf8(data) {
        decode_utf8(data)
    } else {
        seq![]
    }
}

/// What the `DESCRIPTION` file among the entries from position `i` on says of the build.
/// Entries that could not be read are passed over. On Windows a path that is no UTF-8
/// cannot be read, and ends the search.
pub open spec fn built_among(entries: Seq<Option<TarEntryView>>, want: Seq<char>, windows: bool, i: int) -> Option<
    BuiltView,
>
    decreases entries.len() - i,
{
    if i >= entries.len() {
        None
    } else {
        match entries[i] {
            None => built_among(entries, want, windows, i + 1),
            Some(e) => if windows && !valid_utf8(e.path) {
                None
            } else if lossy_text(e.path) == want {
                built_line(lines(text_or_nothing(e.start)), 0)
            } else {
                built_among(entries, want, windows, i + 1)
            },
        }
    }
}

fn built_in_text(text: &str) -> (r: Option<BuiltInfo>)
    ensures
        match r {
            Some(b) => built_line(lines(text@), 0) == Some(b@),
            None => built_line(lines(text@), 0) is None,
        },
{
    let cs = chars_of(text);
    let ls = lines_of(cs.as_slice());
    let ghost all = lines(text@);
    let mut i: usize = 0;
    while i < ls.len()
        invariant
            i <= ls@.len(),
            slice_views(ls@) == all,
            all == lines(text@),
            built_line(all, 0) == built_line(all, i as int),
        decreases ls@.len() - i,
    {
        assert(slice_views(ls@)[i as int] == ls@[i as int]@);
        if let Some(v) = without_prefix(ls[i], "Built:") {
            let value = string_of(trimmed(v));
            return parse_built(value.as_str());
        }
        i += 1;
    }
    None
}

/// What the `DESCRIPTION` file among the entries says of the build; see [`built_among`].
pub fn built_in_entries(entries: &Vec<Option<TarEntry>>, package_name: &str, windows: bool) -> (r: Option<BuiltInfo>)
    ensures
        match r {
            Some(b) => built_among(entry_views(entries@), package_name@ + "/DESCRIPTION"@, windows, 0) == Some(b@),
            None => built_among(entry_views(entries@), package_name@ + "/DESCRIPTION"@, windows, 0) is None,
        },
{
    let want = package_name.to_owned().concat("/DESCRIPTION");
    let ghost all = entry_views(entries@);
    let mut i: usize = 0;
    while i < entries.len()
        invariant
            i <= entries@.len(),
            all == entry_views(entries@),
            want@ == package_name@ + "/DESCRIPTION"@,
            built_among(all, want@, windows, 0) == built_among(all, want@, windows, i as int),
        decreases entries@.len() - i,
    {
        assert(all[i as int] == (match entries@[i as int] {
            Some(e) => Some(e@),
            None => None,
        }));
        if let Some(e) = &entries[i] {
            if windows && from_utf8(e.path.as_slice()).is_none() {
                return None;
            }
            if same_str(from_utf8_lossy(e.path.as_slice()).as_str(), want.as_str()) {
                proof {
                    reveal_strlit("");
                    assert(""@ =~= Seq::<char>::empty());
                }
                return match from_utf8(e.start.as_slice()) {
                    Some(text) => built_in_text(text.as_str()),
                    None => built_in_text(""),
                };
            }
        }
        i += 1;
    }
    None
}

/// What the archive of a package says of the build, where it is one.
pub fn detect_built_from_tarball(data: &[u8], package_name: &str, windows: bool) -> (r: Option<BuiltInfo>)
    ensures
        ({
            let found = match archive_entries(data@, ENTRY_START) {
                Some(e) => built_among(e, package_name@ + "/DESCRIPTION"@, windows, 0),
                None => None,
            };
            match r {
                Some(b) => found == Some(b@),
                None => found is None,
            }
        }),
{
    match read_archive(data, ENTRY_START) {
        Some(entries) => built_in_entries(&entries, package_name, windows),
        None => None,
    }
}

/// The library that a line of `otool -L` names, and the one of the same name in the
/// directory of R that takes its place. Only libraries of R are replaced, and only where
/// they are not in the right place.
pub open spec fn library_change(line: Seq<char>, r_lib_dir: Seq<char>) -> Option<(Seq<char>, Seq<char>)> {
    let w = words(line);
    let old_dep = if w.len() > 0 {
        w[0]
    } else {
        seq![]
    };
    if !contains_text(old_dep, "R.framework"@) && !contains_text(old_dep, "libR.dylib"@) {
        None
    } else {
        match last_name(split(old_dep, '/')) {
            Some(f) => if old_dep == r_lib_dir + "/"@ + f {
                None
            } else {
                Some((old_dep, r_lib_dir + "/"@ + f))
            },
            None => None,
        }
    }
}

/// The libraries that the lines of `otool -L` name, with those that take their place.
pub open spec fn library_changes(ls: Seq<Seq<char>>, r_lib_dir: Seq<char>) -> Seq<(Seq<char>, Seq<char>)>
    decreases ls.len(),
{
    if ls.len() == 0 {
        seq![]
    } else {
        match library_change(ls.last(), r_lib_dir) {
            Some(c) => library_changes(ls.drop_last(), r_lib_dir).push(c),
            None => library_changes(ls.drop_last(), r_lib_dir),
        }
    }
}

pub open spec fn change_views(v: Seq<(String, String)>) -> Seq<(Seq<char>, Seq<char>)> {
    v.map_values(|p: (String, String)| (p.0@, p.1@))
}

fn change_in_line(line: &[char], r_lib_dir: &str) -> (r: Option<(String, String)>)
    ensures
        match r {
            Some((a, b)) => library_change(line@, r_lib_dir@) == Some((a@, b@)),
            None => library_change(line@, r_lib_dir@) is None,
        },
{
    let w = words_of(line);
    assert(slice_views(w@).len() == w@.len());
    if w.len() == 0 {
        proof {
            reveal_strlit("R.framework");
            reveal_strlit("libR.dylib");
            let e = Seq::<char>::empty();
            assert(!contains_text(e, "R.framework"@));
            assert(!contains_text(e, "libR.dylib"@));
        }
        return None;
    }
    assert(slice_views(w@)[0] == w@[0]@);
    let dep = w[0];
    if !has_text(dep, "R.framework") && !has_text(dep, "libR.dylib") {
        return None;
    }
    let old_dep = string_of(dep);
    match file_name(dep) {
        Some(f) => {
            let new_dep = r_lib_dir.to_owned().concat("/").concat(f.as_str());
            if same_str(old_dep.as_str(), new_dep.as_str()) {
                return None;
            }
            Some((old_dep, new_dep))
        },
        None => None,
    }
}

/// The libraries that the output of `otool -L` names, with those that take their place;
/// see [`library_changes`].
pub fn libr_changes(otool_text: &str, r_lib_dir: &str) -> (r: Vec<(String, String)>)
    ensures
        change_views(r@) == library_changes(lines(otool_text@), r_lib_dir@),
{
    let cs = chars_of(otool_text);
    let ls = lines_of(cs.as_slice());
    let ghost all = lines(otool_text@);
    let mut out: Vec<(String, String)> = Vec::new();
    let mut i: usize = 0;
    assert(all.take(0) == Seq::<Seq<char>>::empty());
    assert(change_views(out@) == Seq::<(Seq<char>, Seq<char>)>::empty());
    while i < ls.len()
        invariant
            i <= ls@.len(),
            slice_views(ls@) == all,
            change_views(out@) == library_changes(all.take(i as int), r_lib_dir@),
        decreases ls@.len() - i,
    {
        proof {
            assert(slice_views(ls@)[i as int] == ls@[i as int]@);
            assert(all.take(i + 1).drop_last() == all.take(i as int));
        }
        if let Some(c) = change_in_line(ls[i], r_lib_dir) {
            let ghost before = out@;
            out.push(c);
            assert(change_views(out@) == change_views(before).push((c.0@, c.1@)));
        }
        i += 1;
    }
    assert(all.take(i as int) == all);
    out
}

/// An entry that is accepted has no step that leads up and does not begin at the root.
pub proof fn accepted_entries_stay_inside(path: Seq<char>, windows: bool)
    requires
        !leads_out(path, windows),
    ensures
        forall|i: int|
            0 <= i < split(slashed(path, windows), '/').len() ==> #[trigger] split(slashed(path, windows), '/')[i] != ".."@,
        slashed(path, windows).len() > 0 ==> slashed(path, windows)[0] != '/',
{
    let s = split(slashed(path, windows), '/');
    assert forall|i: int| 0 <= i < s.len() implies #[trigger] s[i] != ".."@ by {
        if s[i] == ".."@ {
            assert(s.contains(".."@));
        }
    }
}

} // verus!
