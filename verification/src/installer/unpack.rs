//! How the archive of a package that is built already gets into a library: what is done
//! next after each thing that happened.
use vstd::prelude::*;

use crate::error::{ErrorView, UvrError};
use crate::installer::binary_install::{after_failed_move, check_staged, entry_leads_out, leads_out, move_step, ArchiveKind,
    MoveStep};

verus! {

/// An archive to unpack.
#[derive(Debug)]
pub struct UnpackJob {
    pub kind: ArchiveKind,
    pub package_name: String,
    pub windows: bool,
}

/// An archive to unpack, as a mathematical value.
pub struct UnpackJobView {
    pub kind: ArchiveKind,
    pub package_name: Seq<char>,
    pub windows: bool,
}

impl View for UnpackJob {
    type V = UnpackJobView;

    open spec fn view(&self) -> UnpackJobView {
        UnpackJobView { kind: self.kind, package_name: self.package_name@, windows: self.windows }
    }
}

/// How far it has come with an archive.
#[derive(Debug, PartialEq, Eq)]
pub enum UnpackPhase {
    Opening,
    /// A directory is made to unpack into.
    Staging,
    /// The next entry is read.
    Reading,
    /// An entry is unpacked.
    Unpacking { path: String },
    /// Is the package among what was unpacked?
    Looking,
    /// The package is moved into the library, for the time given.
    Moving { attempt: u32 },
    /// The package is copied into the library.
    Copying,
    Ended,
}

/// How far it has come with an archive, as a mathematical value.
pub enum UnpackPhaseView {
    Opening,
    Staging,
    Reading,
    Unpacking { path: Seq<char> },
    Looking,
    Moving { attempt: u32 },
    Copying,
    Ended,
}

impl View for UnpackPhase {
    type V = UnpackPhaseView;

    open spec fn view(&self) -> UnpackPhaseView {
        match *self {
            UnpackPhase::Opening => UnpackPhaseView::Opening,
            UnpackPhase::Staging => UnpackPhaseView::Staging,
            UnpackPhase::Reading => UnpackPhaseView::Reading,
            UnpackPhase::Unpacking { path } => UnpackPhaseView::Unpacking { path: path@ },
            UnpackPhase::Looking => UnpackPhaseView::Looking,
            UnpackPhase::Moving { attempt } => UnpackPhaseView::Moving { attempt },
            UnpackPhase::Copying => UnpackPhaseView::Copying,
            UnpackPhase::Ended => UnpackPhaseView::Ended,
        }
    }
}

/// What could not be made of an entry.
#[derive(Debug, Clone, Copy, PartialEq, Eq, Structural)]
pub enum EntryPart {
    Directory,
    Parent,
    File,
    Contents,
}

/// What has happened.
#[derive(Debug, PartialEq, Eq)]
pub enum UnpackEvent {
    Opened,
    FileUnreadable { reason: String },
    /// The file is no archive of its kind.
    NoArchive { reason: String },
    Staged,
    NotStaged { reason: String },
    /// An entry: the path at which it will stand, and the one that the archive shows.
    Entry { path: String, shown: String },
    EntryUnreadable { reason: String },
    PathInvalid { reason: String },
    Unpacked,
    NotUnpacked { part: EntryPart, reason: String },
    /// There are no more entries.
    End,
    /// Whether the directory of the package is among what was unpacked.
    PackageThere(bool),
    Moved,
    NotMoved { raw_os_error: Option<i32>, reason: String },
}

/// What has happened, as a mathematical value.
pub enum UnpackEventView {
    Opened,
    FileUnreadable { reason: Seq<char> },
    NoArchive { reason: Seq<char> },
    Staged,
    NotStaged { reason: Seq<char> },
    Entry { path: Seq<char>, shown: Seq<char> },
    EntryUnreadable { reason: Seq<char> },
    PathInvalid { reason: Seq<char> },
    Unpacked,
    NotUnpacked { part: EntryPart, reason: Seq<char> },
    End,
    PackageThere(bool),
    Moved,
    NotMoved { raw_os_error: Option<i32>, reason: Seq<char> },
}

impl View for UnpackEvent {
    type V = UnpackEventView;

    open spec fn view(&self) -> UnpackEventView {
        match *self {
            UnpackEvent::Opened => UnpackEventView::Opened,
            UnpackEvent::FileUnreadable { reason } => UnpackEventView::FileUnreadable { reason: reason@ },
            UnpackEvent::NoArchive { reason } => UnpackEventView::NoArchive { reason: reason@ },
            UnpackEvent::Staged => UnpackEventView::Staged,
            UnpackEvent::NotStaged { reason } => UnpackEventView::NotStaged { reason: reason@ },
            UnpackEvent::Entry { path, shown } => UnpackEventView::Entry { path: path@, shown: shown@ },
            UnpackEvent::EntryUnreadable { reason } => UnpackEventView::EntryUnreadable { reason: reason@ },
            UnpackEvent::PathInvalid { reason } => UnpackEventView::PathInvalid { reason: reason@ },
            UnpackEvent::Unpacked => UnpackEventView::Unpacked,
            UnpackEvent::NotUnpacked { part, reason } => UnpackEventView::NotUnpacked { part, reason: reason@ },
            UnpackEvent::End => UnpackEventView::End,
            UnpackEvent::PackageThere(there) => UnpackEventView::PackageThere(there),
            UnpackEvent::Moved => UnpackEventView::Moved,
            UnpackEvent::NotMoved { raw_os_error, reason } => UnpackEventView::NotMoved { raw_os_error, reason: reason@ },
        }
    }
}

/// What is done next.
#[derive(Debug, PartialEq, Eq)]
pub enum UnpackAction {
    /// Make a directory in the library to unpack into.
    Stage,
    /// Read the next entry.
    Read,
    /// Unpack the entry at this path, below the directory that was made.
    Unpack { path: String },
    /// Look for the package among what was unpacked.
    Look,
    /// Remove an older package of the name, and move the new one into the library.
    Replace,
    /// Move the package after so many milliseconds.
    MoveAfter(u64),
    /// Copy the package into the library, and remove what was copied.
    Copy,
    Done,
    Fail(UvrError),
    Wait,
}

/// What is done next, as a mathematical value.
pub enum UnpackActionView {
    Stage,
    Read,
    Unpack { path: Seq<char> },
    Look,
    Replace,
    MoveAfter(u64),
    Copy,
    Done,
    Fail(ErrorView),
    Wait,
}

impl View for UnpackAction {
    type V = UnpackActionView;

    open spec fn view(&self) -> UnpackActionView {
        match *self {
            UnpackAction::Stage => UnpackActionView::Stage,
            UnpackAction::Read => UnpackActionView::Read,
            UnpackAction::Unpack { path } => UnpackActionView::Unpack { path: path@ },
            UnpackAction::Look => UnpackActionView::Look,
            UnpackAction::Replace => UnpackActionView::Replace,
            UnpackAction::MoveAfter(ms) => UnpackActionView::MoveAfter(ms),
            UnpackAction::Copy => UnpackActionView::Copy,
            UnpackAction::Done => UnpackActionView::Done,
            UnpackAction::Fail(e) => UnpackActionView::Fail(e@),
            UnpackAction::Wait => UnpackActionView::Wait,
        }
    }
}

/// The word for a kind of archive.
pub open spec fn kind_word(kind: ArchiveKind) -> Seq<char> {
    match kind {
        ArchiveKind::Zip => "zip"@,
        ArchiveKind::Tgz => "tgz"@,
    }
}

fn word_of_kind(kind: ArchiveKind) -> (r: &'static str)
    ensures
        r@ == kind_word(kind),
{
    match kind {
        ArchiveKind::Zip => "zip",
        ArchiveKind::Tgz => "tgz",
    }
}

/// A message of the form `<start>'<package>': <reason>`.
pub open spec fn said_of(start: Seq<char>, package: Seq<char>, reason: Seq<char>) -> ErrorView {
    ErrorView::Other(start + "'"@ + package + "': "@ + reason)
}

fn say_of(start: &str, package: &str, reason: &str) -> (r: UvrError)
    ensures
        r@ == said_of(start@, package@, reason@),
{
    UvrError::Other(start.to_owned().concat("'").concat(package).concat("': ").concat(reason))
}

/// What is said of an entry that could not be unpacked.
pub open spec fn entry_fault(j: UnpackJobView, path: Seq<char>, part: EntryPart, reason: Seq<char>) -> ErrorView {
    match j.kind {
        ArchiveKind::Tgz => ErrorView::Other(
            "Failed to extract '"@ + path + "' from '"@ + j.package_name + "': "@ + reason,
        ),
        ArchiveKind::Zip => match part {
            EntryPart::Directory => said_of("Failed to create directory for "@, j.package_name, reason),
            EntryPart::Parent => said_of("Failed to create parent directory for "@, j.package_name, reason),
            EntryPart::File => said_of("Failed to create file for "@, j.package_name, reason),
            EntryPart::Contents => said_of("Failed to write zip entry for "@, j.package_name, reason),
        },
    }
}

fn entry_error(job: &UnpackJob, path: &str, part: EntryPart, reason: &str) -> (r: UvrError)
    ensures
        r@ == entry_fault(job@, path@, part, reason@),
{
    let name = job.package_name.as_str();
    match job.kind {
        ArchiveKind::Tgz => UvrError::Other(
            "Failed to extract '".to_owned().concat(path).concat("' from '").concat(name).concat("': ").concat(reason),
        ),
        ArchiveKind::Zip => match part {
            EntryPart::Directory => say_of("Failed to create directory for ", name, reason),
            EntryPart::Parent => say_of("Failed to create parent directory for ", name, reason),
            EntryPart::File => say_of("Failed to create file for ", name, reason),
            EntryPart::Contents => say_of("Failed to write zip entry for ", name, reason),
        },
    }
}

/// What is said of an entry that would be unpacked outside the directory meant for it.
pub open spec fn leading_out(j: UnpackJobView, shown: Seq<char>) -> ErrorView {
    match j.kind {
        ArchiveKind::Tgz => said_of("Path traversal detected in package "@, j.package_name, shown),
        ArchiveKind::Zip => said_of("Zip path traversal detected in package "@, j.package_name, shown),
    }
}

/// What is said of a file that is no archive of its kind.
pub open spec fn no_archive(j: UnpackJobView, reason: Seq<char>) -> ErrorView {
    match j.kind {
        ArchiveKind::Tgz => said_of("Failed to read tgz for "@, j.package_name, reason),
        ArchiveKind::Zip => said_of("Failed to open zip for "@, j.package_name, reason),
    }
}

fn no_archive_error(job: &UnpackJob, reason: &str) -> (r: UvrError)
    ensures
        r@ == no_archive(job@, reason@),
{
    match job.kind {
        ArchiveKind::Tgz => say_of("Failed to read tgz for ", job.package_name.as_str(), reason),
        ArchiveKind::Zip => say_of("Failed to open zip for ", job.package_name.as_str(), reason),
    }
}

pub open spec fn failed(e: ErrorView) -> (UnpackPhaseView, UnpackActionView) {
    (UnpackPhaseView::Ended, UnpackActionView::Fail(e))
}

/// What is done after a move failed.
pub open spec fn move_failed(j: UnpackJobView, raw: Option<i32>, reason: Seq<char>, attempt: u32) -> (
    UnpackPhaseView,
    UnpackActionView,
) {
    match move_step(raw, reason, j.windows, attempt) {
        MoveStep::Copy => (UnpackPhaseView::Copying, UnpackActionView::Copy),
        MoveStep::Retry(ms) => (
            UnpackPhaseView::Moving { attempt: (attempt + 1) as u32 },
            UnpackActionView::MoveAfter(ms),
        ),
        MoveStep::GiveUp => failed(said_of("Failed to move staged package "@, j.package_name, reason)),
    }
}

/// What is done with an archive after each thing that happened. The package gets into the
/// library only after every entry was checked and unpacked elsewhere.
pub open spec fn next_unpack(j: UnpackJobView, p: UnpackPhaseView, e: UnpackEventView) -> (
    UnpackPhaseView,
    UnpackActionView,
) {
    let name = j.package_name;
    match (p, e) {
        (UnpackPhaseView::Opening, UnpackEventView::Opened) => (UnpackPhaseView::Staging, UnpackActionView::Stage),
        (UnpackPhaseView::Opening, UnpackEventView::FileUnreadable { reason }) => failed(ErrorView::Io(reason)),
        (UnpackPhaseView::Opening, UnpackEventView::NoArchive { reason }) => failed(no_archive(j, reason)),
        (UnpackPhaseView::Staging, UnpackEventView::Staged) => (UnpackPhaseView::Reading, UnpackActionView::Read),
        (UnpackPhaseView::Staging, UnpackEventView::NotStaged { reason }) => failed(
            said_of("Failed to create staging dir for "@, name, reason),
        ),
        (UnpackPhaseView::Reading, UnpackEventView::NoArchive { reason }) => failed(no_archive(j, reason)),
        (UnpackPhaseView::Reading, UnpackEventView::EntryUnreadable { reason }) => failed(
            said_of("Failed to read "@ + kind_word(j.kind) + " entry for "@, name, reason),
        ),
        (UnpackPhaseView::Reading, UnpackEventView::PathInvalid { reason }) => failed(
            said_of("Invalid path in "@ + kind_word(j.kind) + " for "@, name, reason),
        ),
        (UnpackPhaseView::Reading, UnpackEventView::Entry { path, shown }) => if leads_out(path, j.windows) {
            failed(leading_out(j, shown))
        } else {
            (UnpackPhaseView::Unpacking { path }, UnpackActionView::Unpack { path })
        },
        (UnpackPhaseView::Reading, UnpackEventView::End) => (UnpackPhaseView::Looking, UnpackActionView::Look),
        (UnpackPhaseView::Unpacking { .. }, UnpackEventView::Unpacked) => (
            UnpackPhaseView::Reading,
            UnpackActionView::Read,
        ),
        (UnpackPhaseView::Unpacking { path }, UnpackEventView::NotUnpacked { part, reason }) => failed(
            entry_fault(j, path, part, reason),
        ),
        (UnpackPhaseView::Looking, UnpackEventView::PackageThere(there)) => if there {
            (UnpackPhaseView::Moving { attempt: 0 }, UnpackActionView::Replace)
        } else {
            failed(
                ErrorView::Other("Expected directory '"@ + name + "' not found in archive for '"@ + name + "'"@),
            )
        },
        (UnpackPhaseView::Moving { .. }, UnpackEventView::Moved) => (UnpackPhaseView::Ended, UnpackActionView::Done),
        (UnpackPhaseView::Moving { attempt }, UnpackEventView::NotMoved { raw_os_error, reason }) => move_failed(
            j,
            raw_os_error,
            reason,
            attempt,
        ),
        (UnpackPhaseView::Copying, UnpackEventView::Moved) => (UnpackPhaseView::Ended, UnpackActionView::Done),
        (UnpackPhaseView::Copying, UnpackEventView::NotMoved { reason, .. }) => failed(
            said_of("Failed to move staged package "@, name, reason),
        ),
        _ => (p, UnpackActionView::Wait),
    }
}

fn fail(e: UvrError) -> (r: (UnpackPhase, UnpackAction))
    ensures
        (r.0@, r.1@) == failed(e@),
{
    (UnpackPhase::Ended, UnpackAction::Fail(e))
}

/// What is done with an archive after something happened; see [`next_unpack`].
pub fn unpack_step(job: &UnpackJob, phase: UnpackPhase, event: UnpackEvent) -> (r: (UnpackPhase, UnpackAction))
    ensures
        (r.0@, r.1@) == next_unpack(job@, phase@, event@),
{
    let name = job.package_name.as_str();
    match (phase, event) {
        (UnpackPhase::Opening, UnpackEvent::Opened) => (UnpackPhase::Staging, UnpackAction::Stage),
        (UnpackPhase::Opening, UnpackEvent::FileUnreadable { reason }) => fail(UvrError::Io(reason)),
        (UnpackPhase::Opening, UnpackEvent::NoArchive { reason }) => fail(no_archive_error(job, reason.as_str())),
        (UnpackPhase::Staging, UnpackEvent::Staged) => (UnpackPhase::Reading, UnpackAction::Read),
        (UnpackPhase::Staging, UnpackEvent::NotStaged { reason }) => fail(
            say_of("Failed to create staging dir for ", name, reason.as_str()),
        ),
        (UnpackPhase::Reading, UnpackEvent::NoArchive { reason }) => fail(no_archive_error(job, reason.as_str())),
        (UnpackPhase::Reading, UnpackEvent::EntryUnreadable { reason }) => {
            let start = "Failed to read ".to_owned().concat(word_of_kind(job.kind)).concat(" entry for ");
            fail(say_of(start.as_str(), name, reason.as_str()))
        },
        (UnpackPhase::Reading, UnpackEvent::PathInvalid { reason }) => {
            let start = "Invalid path in ".to_owned().concat(word_of_kind(job.kind)).concat(" for ");
            fail(say_of(start.as_str(), name, reason.as_str()))
        },
        (UnpackPhase::Reading, UnpackEvent::Entry { path, shown }) => if entry_leads_out(path.as_str(), job.windows) {
            match job.kind {
                ArchiveKind::Tgz => fail(say_of("Path traversal detected in package ", name, shown.as_str())),
                ArchiveKind::Zip => fail(say_of("Zip path traversal detected in package ", name, shown.as_str())),
            }
        } else {
            let target = path.as_str().to_owned();
            (UnpackPhase::Unpacking { path }, UnpackAction::Unpack { path: target })
        },
        (UnpackPhase::Reading, UnpackEvent::End) => (UnpackPhase::Looking, UnpackAction::Look),
        (UnpackPhase::Unpacking { .. }, UnpackEvent::Unpacked) => (UnpackPhase::Reading, UnpackAction::Read),
        (UnpackPhase::Unpacking { path }, UnpackEvent::NotUnpacked { part, reason }) => fail(
            entry_error(job, path.as_str(), part, reason.as_str()),
        ),
        (UnpackPhase::Looking, UnpackEvent::PackageThere(there)) => match check_staged(name, there) {
            Ok(()) => (UnpackPhase::Moving { attempt: 0 }, UnpackAction::Replace),
            Err(e) => fail(e),
        },
        (UnpackPhase::Moving { .. }, UnpackEvent::Moved) => (UnpackPhase::Ended, UnpackAction::Done),
        (UnpackPhase::Moving { attempt }, UnpackEvent::NotMoved { raw_os_error, reason }) => match after_failed_move(
            raw_os_error,
            reason.as_str(),
            job.windows,
            attempt,
        ) {
            MoveStep::Copy => (UnpackPhase::Copying, UnpackAction::Copy),
            MoveStep::Retry(ms) => (UnpackPhase::Moving { attempt: attempt + 1 }, UnpackAction::MoveAfter(ms)),
            MoveStep::GiveUp => fail(say_of("Failed to move staged package ", name, reason.as_str())),
        },
        (UnpackPhase::Copying, UnpackEvent::Moved) => (UnpackPhase::Ended, UnpackAction::Done),
        (UnpackPhase::Copying, UnpackEvent::NotMoved { reason, .. }) => fail(
            say_of("Failed to move staged package ", name, reason.as_str()),
        ),
        (phase, _) => (phase, UnpackAction::Wait),
    }
}

/// No entry is unpacked outside the directory meant for it.
pub proof fn unpacked_entries_stay_inside(j: UnpackJobView, p: UnpackPhaseView, e: UnpackEventView, path: Seq<char>)
    requires
        next_unpack(j, p, e).1 == (UnpackActionView::Unpack { path }),
    ensures
        !leads_out(path, j.windows),
{
}

/// The library is touched only after the last entry was unpacked and the package was
/// found among them.
pub proof fn library_is_touched_last(j: UnpackJobView, p: UnpackPhaseView, e: UnpackEventView)
    ensures
        next_unpack(j, p, e).1 is Replace ==> p is Looking && e == UnpackEventView::PackageThere(true),
        next_unpack(j, p, e).0 is Looking && !(p is Looking) ==> p is Reading && e is End,
        next_unpack(j, p, e).1 is Done ==> e is Moved,
{
}

} // verus!
