//! How a package is downloaded: what is tried, what is kept and what is believed.
use vstd::prelude::*;

use crate::checksum::{hex_text, md5, md5_checksum, md5_hex_digest, own_checksum_is_accepted, sha256, sha256_checksum,
    sha256_hex_digest, verdict, verify};
use crate::error::{ErrorView, UvrError};
use crate::lockfile::LockedPackage;
use crate::text::{chars_of, contains_text, copy_opt, cut_last, cut_last_text, ends_with, has_char, has_prefix,
    has_suffix, has_text, opt_str, opt_view, pieces, rsplit_once, rsplit_once_text, same_str, slice_views, split,
    starts_with, string_of, trim, trimmed};

verus! {

/// A package to download.
pub struct DownloadSpec<'a> {
    pub pkg: &'a LockedPackage,
    pub url: &'a str,
    /// Where the source is found, if the first address fails.
    pub fallback_url: Option<&'a str>,
    pub is_binary: bool,
    /// How the request for the build has to introduce itself.
    pub user_agent: Option<&'a str>,
}

/// A package that was downloaded.
#[derive(Debug, PartialEq, Eq)]
pub struct DownloadResult {
    pub path: String,
    /// It is a build, not the source.
    pub used_binary: bool,
}

/// One try to download a package.
#[derive(Debug, PartialEq, Eq)]
pub struct Attempt {
    pub url: String,
    /// The checksum that what comes must have.
    pub checksum: Option<String>,
    pub user_agent: Option<String>,
    pub is_binary: bool,
}

/// One try to download a package, as a mathematical value.
pub struct AttemptView {
    pub url: Seq<char>,
    pub checksum: Option<Seq<char>>,
    pub user_agent: Option<Seq<char>>,
    pub is_binary: bool,
}

impl View for Attempt {
    type V = AttemptView;

    open spec fn view(&self) -> AttemptView {
        AttemptView {
            url: self.url@,
            checksum: opt_view(self.checksum),
            user_agent: opt_view(self.user_agent),
            is_binary: self.is_binary,
        }
    }
}

fn owned(s: Option<&str>) -> (r: Option<String>)
    ensures
        opt_view(r) == opt_str(s),
{
    match s {
        Some(t) => Some(t.to_owned()),
        None => None,
    }
}

impl<'a> DownloadSpec<'a> {
    /// The first try. The checksum of the lock file is that of the source, so a build is
    /// not held against it.
    pub fn first_attempt(&self) -> (r: Attempt)
        ensures
            r@ == (AttemptView {
                url: self.url@,
                checksum: if self.is_binary {
                    None
                } else {
                    self.pkg@.checksum
                },
                user_agent: opt_str(self.user_agent),
                is_binary: self.is_binary,
            }),
    {
        Attempt {
            url: self.url.to_owned(),
            checksum: if self.is_binary {
                None
            } else {
                copy_opt(&self.pkg.checksum)
            },
            user_agent: owned(self.user_agent),
            is_binary: self.is_binary,
        }
    }

    /// The try after the first one failed: the source at the other address, where there is
    /// one.
    pub fn second_attempt(&self) -> (r: Option<Attempt>)
        ensures
            match r {
                Some(a) => self.fallback_url is Some && a@ == (AttemptView {
                    url: self.fallback_url->0@,
                    checksum: self.pkg@.checksum,
                    user_agent: None,
                    is_binary: false,
                }),
                None => self.fallback_url is None,
            },
    {
        match self.fallback_url {
            Some(url) => Some(
                Attempt {
                    url: url.to_owned(),
                    checksum: copy_opt(&self.pkg.checksum),
                    user_agent: None,
                    is_binary: false,
                },
            ),
            None => None,
        }
    }
}

/// What follows on the first try to download a package.
#[derive(Debug, PartialEq, Eq)]
pub enum AfterFirst {
    Done(DownloadResult),
    /// Try this in its place.
    Again(Attempt),
    Failed(UvrError),
}

impl Attempt {
    pub fn copy(&self) -> (r: Attempt)
        ensures
            r@ == self@,
    {
        Attempt {
            url: self.url.as_str().to_owned(),
            checksum: copy_opt(&self.checksum),
            user_agent: copy_opt(&self.user_agent),
            is_binary: self.is_binary,
        }
    }

    /// What a try that succeeded has brought.
    pub fn brought(&self, path: String) -> (r: DownloadResult)
        ensures
            r.path == path,
            r.used_binary == self.is_binary,
    {
        DownloadResult { path, used_binary: self.is_binary }
    }
}

/// What follows on the first try, given the file that it has brought or how it failed:
/// where it failed, the second is made if there is one.
pub fn after_first(first: &Attempt, second: Option<Attempt>, outcome: Result<String, UvrError>) -> (r: AfterFirst)
    ensures
        match outcome {
            Ok(path) => r matches AfterFirst::Done(d) && d.path == path && d.used_binary == first.is_binary,
            Err(e) => match second {
                Some(a) => r == AfterFirst::Again(a),
                None => r == AfterFirst::Failed(e),
            },
        },
{
    match outcome {
        Ok(path) => AfterFirst::Done(first.brought(path)),
        Err(e) => match second {
            Some(a) => AfterFirst::Again(a),
            None => AfterFirst::Failed(e),
        },
    }
}

/// Where an old version of a source package is found: repositories move it into a
/// directory `Archive` when a new one is published.
pub open spec fn archived(url: Seq<char>) -> Option<Seq<char>> {
    if contains_text(url, "/src/contrib/Archive/"@) {
        None
    } else {
        match rsplit_once_text(url, "/src/contrib/"@) {
            None => None,
            Some((base, file)) => if file.contains('/') || !ends_with(file, ".tar.gz"@) {
                None
            } else {
                match rsplit_once(file, '_') {
                    Some((package, _)) => if package.len() > 0 {
                        Some(base + "/src/contrib/Archive/"@ + package + "/"@ + file)
                    } else {
                        None
                    },
                    None => None,
                }
            },
        }
    }
}

/// Where an old version of a source package is found; see [`archived`].
pub fn cran_archive_url(url: &str) -> (r: Option<String>)
    ensures
        opt_view(r) == archived(url@),
{
    let cs = chars_of(url);
    let s = cs.as_slice();
    if has_text(s, "/src/contrib/Archive/") {
        return None;
    }
    let (base, file) = match cut_last_text(s, "/src/contrib/") {
        Some(p) => p,
        None => {
            return None;
        },
    };
    if has_char(file, '/') || !has_suffix(file, ".tar.gz") {
        return None;
    }
    match cut_last(file, '_') {
        Some((package, _)) => {
            if package.len() == 0 {
                return None;
            }
            Some(
                string_of(base).concat("/src/contrib/Archive/").concat(string_of(package).as_str()).concat("/").concat(
                    string_of(file).as_str(),
                ),
            )
        },
        None => None,
    }
}

/// The name of the file in which a package is kept: the last part of its address, so
/// that source and build do not meet; where that is empty, one made of the name and the
/// version.
pub fn cache_file_name(url: &str, name: &str, version: &str) -> (r: String)
    ensures
        ({
            let last = split(url@, '/').last();
            r@ == (if last.len() > 0 {
                last
            } else {
                name@ + "_"@ + version@ + ".tar.gz"@
            })
        }),
{
    let cs = chars_of(url);
    let ps = pieces(cs.as_slice(), '/');
    let n: usize = ps.len();
    assert(slice_views(ps@)[n - 1] == ps@[n - 1]@);
    if ps[n - 1].len() > 0 {
        string_of(ps[n - 1])
    } else {
        name.to_owned().concat("_").concat(version).concat(".tar.gz")
    }
}

pub open spec fn is_digest(c: Seq<char>) -> bool {
    starts_with(c, "md5:"@) || starts_with(c, "sha256:"@)
}

pub open spec fn is_commit(c: Seq<char>) -> bool {
    starts_with(c, "git:"@)
}

/// What is done with a copy that is there.
#[derive(Debug, PartialEq, Eq)]
pub enum CopyVerdict {
    Use,
    /// Remove it and download the package anew.
    Replace,
    /// Remove it and the checksum kept beside it, and download the package anew.
    ReplaceWithSidecar,
}

/// The data agree with a checksum.
pub open spec fn agrees(expected: Seq<char>, data: Seq<u8>, package: Seq<char>) -> bool {
    verdict(expected, sha256_checksum(data), md5_checksum(data), package) is Ok
}

/// What is done with a copy that is there. It must agree with the checksum of the lock
/// file where that is a digest; where that is a commit, with the checksum that was kept
/// beside the copy, if there is one.
pub open spec fn copy_verdict(
    expected: Option<Seq<char>>,
    sidecar: Option<Seq<char>>,
    data: Seq<u8>,
    package: Seq<char>,
) -> CopyVerdict {
    match expected {
        None => CopyVerdict::Use,
        Some(c) => if is_digest(c) {
            if agrees(c, data, package) {
                CopyVerdict::Use
            } else {
                CopyVerdict::Replace
            }
        } else if is_commit(c) {
            match sidecar {
                Some(s) => if agrees(trim(s), data, package) {
                    CopyVerdict::Use
                } else {
                    CopyVerdict::ReplaceWithSidecar
                },
                None => CopyVerdict::Use,
            }
        } else {
            CopyVerdict::Use
        },
    }
}

/// What is done with a copy that is there; see [`copy_verdict`].
pub fn judge_copy(expected: Option<&str>, sidecar: Option<&str>, data: &[u8], package: &str) -> (r: CopyVerdict)
    ensures
        r == copy_verdict(opt_str(expected), opt_str(sidecar), data@, package@),
{
    let checksum = match expected {
        Some(c) => c,
        None => {
            return CopyVerdict::Use;
        },
    };
    let cs = chars_of(checksum);
    let s = cs.as_slice();
    if has_prefix(s, "md5:") || has_prefix(s, "sha256:") {
        match verify(checksum, data, package) {
            Ok(()) => CopyVerdict::Use,
            Err(_) => CopyVerdict::Replace,
        }
    } else if has_prefix(s, "git:") {
        match sidecar {
            Some(stored) => {
                let st = chars_of(stored);
                let kept = string_of(trimmed(st.as_slice()));
                match verify(kept.as_str(), data, package) {
                    Ok(()) => CopyVerdict::Use,
                    Err(_) => CopyVerdict::ReplaceWithSidecar,
                }
            },
            None => CopyVerdict::Use,
        }
    } else {
        CopyVerdict::Use
    }
}

/// What is made of what was downloaded, whose digests are given in hexadecimal. It must
/// have the checksum of the lock file where that is a digest. Where that is a commit,
/// the checksum is returned that is to be kept beside the copy.
pub open spec fn download_verdict(
    expected: Option<Seq<char>>,
    sha_hex: Seq<char>,
    md_hex: Seq<char>,
    package: Seq<char>,
) -> Result<Option<Seq<char>>, ErrorView> {
    match expected {
        None => Ok(None),
        Some(c) => if starts_with(c, "sha256:"@) {
            if "sha256:"@ + sha_hex == c {
                Ok(None)
            } else {
                Err(ErrorView::ChecksumMismatch { package, expected: c, actual: "sha256:"@ + sha_hex })
            }
        } else if starts_with(c, "md5:"@) {
            if "md5:"@ + md_hex == c {
                Ok(None)
            } else {
                Err(ErrorView::ChecksumMismatch { package, expected: c, actual: "md5:"@ + md_hex })
            }
        } else if is_commit(c) {
            Ok(Some("sha256:"@ + sha_hex))
        } else {
            Ok(None)
        },
    }
}

fn mismatch(package: &str, expected: &str, actual: String) -> (r: UvrError)
    ensures
        r@ == (ErrorView::ChecksumMismatch { package: package@, expected: expected@, actual: actual@ }),
{
    UvrError::ChecksumMismatch { package: package.to_owned(), expected: expected.to_owned(), actual }
}

/// What is made of what was downloaded; see [`download_verdict`].
pub fn judge_download(expected: Option<&str>, sha256_hex: &str, md5_hex: &str, package: &str) -> (r: Result<
    Option<String>,
    UvrError,
>)
    ensures
        match r {
            Ok(s) => download_verdict(opt_str(expected), sha256_hex@, md5_hex@, package@) == Ok::<
                Option<Seq<char>>,
                ErrorView,
            >(opt_view(s)),
            Err(e) => download_verdict(opt_str(expected), sha256_hex@, md5_hex@, package@) == Err::<
                Option<Seq<char>>,
                ErrorView,
            >(e@),
        },
{
    let checksum = match expected {
        Some(c) => c,
        None => {
            return Ok(None);
        },
    };
    let cs = chars_of(checksum);
    let s = cs.as_slice();
    if has_prefix(s, "sha256:") {
        let actual = "sha256:".to_owned().concat(sha256_hex);
        if same_str(actual.as_str(), checksum) {
            Ok(None)
        } else {
            Err(mismatch(package, checksum, actual))
        }
    } else if has_prefix(s, "md5:") {
        let actual = "md5:".to_owned().concat(md5_hex);
        if same_str(actual.as_str(), checksum) {
            Ok(None)
        } else {
            Err(mismatch(package, checksum, actual))
        }
    } else if has_prefix(s, "git:") {
        Ok(Some("sha256:".to_owned().concat(sha256_hex)))
    } else {
        Ok(None)
    }
}

/// What is made of what was downloaded, from the data themselves; see
/// [`download_verdict`].
pub fn judge_received(expected: Option<&str>, data: &[u8], package: &str) -> (r: Result<Option<String>, UvrError>)
    ensures
        match r {
            Ok(s) => download_verdict(opt_str(expected), hex_text(sha256(data@)), hex_text(md5(data@)), package@) == Ok::<
                Option<Seq<char>>,
                ErrorView,
            >(opt_view(s)),
            Err(e) => download_verdict(opt_str(expected), hex_text(sha256(data@)), hex_text(md5(data@)), package@) == Err::<
                Option<Seq<char>>,
                ErrorView,
            >(e@),
        },
{
    let sha256_hex = sha256_hex_digest(data);
    let md5_hex = md5_hex_digest(data);
    judge_download(expected, sha256_hex.as_str(), md5_hex.as_str(), package)
}

/// A package that has to be had at an address.
#[derive(Debug)]
pub struct DownloadJob {
    pub name: String,
    pub attempt: Attempt,
    /// The file in which the package is kept.
    pub dest: String,
}

/// A package that has to be had at an address, as a mathematical value.
pub struct DownloadJobView {
    pub name: Seq<char>,
    pub attempt: AttemptView,
    pub dest: Seq<char>,
}

impl View for DownloadJob {
    type V = DownloadJobView;

    open spec fn view(&self) -> DownloadJobView {
        DownloadJobView { name: self.name@, attempt: self.attempt@, dest: self.dest@ }
    }
}

/// How far a download has come.
#[derive(Debug, PartialEq, Eq)]
pub enum DownloadPhase {
    /// Is there a copy?
    Looking,
    /// Is the copy good?
    Reading { sidecar: Option<String> },
    /// The address was asked.
    Asking,
    /// The archive was asked in its place.
    AskingArchive,
    Receiving,
    Moving,
    Ended,
}

/// How far a download has come, as a mathematical value.
pub enum DownloadPhaseView {
    Looking,
    Reading { sidecar: Option<Seq<char>> },
    Asking,
    AskingArchive,
    Receiving,
    Moving,
    Ended,
}

impl View for DownloadPhase {
    type V = DownloadPhaseView;

    open spec fn view(&self) -> DownloadPhaseView {
        match *self {
            DownloadPhase::Looking => DownloadPhaseView::Looking,
            DownloadPhase::Reading { sidecar } => DownloadPhaseView::Reading { sidecar: opt_view(sidecar) },
            DownloadPhase::Asking => DownloadPhaseView::Asking,
            DownloadPhase::AskingArchive => DownloadPhaseView::AskingArchive,
            DownloadPhase::Receiving => DownloadPhaseView::Receiving,
            DownloadPhase::Moving => DownloadPhaseView::Moving,
            DownloadPhase::Ended => DownloadPhaseView::Ended,
        }
    }
}

/// What has happened.
#[derive(Debug, PartialEq, Eq)]
pub enum DownloadEvent {
    /// Whether there is a copy, and the checksum kept beside it.
    Copy { there: bool, sidecar: Option<String> },
    CopyRead(Vec<u8>),
    CopyUnreadable { reason: String },
    /// The server sends the package.
    Answered,
    /// The server does not send it, and why.
    Refused { reason: String },
    /// The package has come.
    Received(Vec<u8>),
    /// The package was lost on its way.
    Lost { reason: String },
    /// The package could not be written down.
    NotWritten { reason: String },
    /// The package could not be put into its place.
    NotMoved { reason: String },
    Moved,
}

/// What has happened, as a mathematical value.
pub enum DownloadEventView {
    Copy { there: bool, sidecar: Option<Seq<char>> },
    CopyRead(Seq<u8>),
    CopyUnreadable { reason: Seq<char> },
    Answered,
    Refused { reason: Seq<char> },
    Received(Seq<u8>),
    Lost { reason: Seq<char> },
    NotWritten { reason: Seq<char> },
    NotMoved { reason: Seq<char> },
    Moved,
}

impl View for DownloadEvent {
    type V = DownloadEventView;

    open spec fn view(&self) -> DownloadEventView {
        match *self {
            DownloadEvent::Copy { there, sidecar } => DownloadEventView::Copy { there, sidecar: opt_view(sidecar) },
            DownloadEvent::CopyRead(data) => DownloadEventView::CopyRead(data@),
            DownloadEvent::CopyUnreadable { reason } => DownloadEventView::CopyUnreadable { reason: reason@ },
            DownloadEvent::Answered => DownloadEventView::Answered,
            DownloadEvent::Refused { reason } => DownloadEventView::Refused { reason: reason@ },
            DownloadEvent::Received(data) => DownloadEventView::Received(data@),
            DownloadEvent::Lost { reason } => DownloadEventView::Lost { reason: reason@ },
            DownloadEvent::NotWritten { reason } => DownloadEventView::NotWritten { reason: reason@ },
            DownloadEvent::NotMoved { reason } => DownloadEventView::NotMoved { reason: reason@ },
            DownloadEvent::Moved => DownloadEventView::Moved,
        }
    }
}

/// What is done next.
#[derive(Debug, PartialEq, Eq)]
pub enum DownloadAction {
    ReadCopy,
    UseCopy,
    /// Remove the copy, or the copy and the checksum beside it, and ask an address.
    Ask { url: String, remove_copy: bool, remove_sidecar: bool },
    Receive,
    /// Write the checksum, where there is one, and put the package into its place.
    Move { sidecar: Option<String> },
    Done,
    Fail(UvrError),
    Wait,
}

/// What is done next, as a mathematical value.
pub enum DownloadActionView {
    ReadCopy,
    UseCopy,
    Ask { url: Seq<char>, remove_copy: bool, remove_sidecar: bool },
    Receive,
    Move { sidecar: Option<Seq<char>> },
    Done,
    Fail(ErrorView),
    Wait,
}

impl View for DownloadAction {
    type V = DownloadActionView;

    open spec fn view(&self) -> DownloadActionView {
        match *self {
            DownloadAction::ReadCopy => DownloadActionView::ReadCopy,
            DownloadAction::UseCopy => DownloadActionView::UseCopy,
            DownloadAction::Ask { url, remove_copy, remove_sidecar } => DownloadActionView::Ask {
                url: url@,
                remove_copy,
                remove_sidecar,
            },
            DownloadAction::Receive => DownloadActionView::Receive,
            DownloadAction::Move { sidecar } => DownloadActionView::Move { sidecar: opt_view(sidecar) },
            DownloadAction::Done => DownloadActionView::Done,
            DownloadAction::Fail(e) => DownloadActionView::Fail(e@),
            DownloadAction::Wait => DownloadActionView::Wait,
        }
    }
}

/// A copy has to be read before it can be used: there is a digest to hold it against.
pub open spec fn copy_is_held_against_digest(expected: Option<Seq<char>>, sidecar: Option<Seq<char>>) -> bool {
    match expected {
        Some(c) => is_digest(c) || (is_commit(c) && sidecar is Some),
        None => false,
    }
}

fn copy_needs_reading(expected: &Option<String>, sidecar: &Option<String>) -> (r: bool)
    ensures
        r == copy_is_held_against_digest(opt_view(*expected), opt_view(*sidecar)),
{
    match expected {
        Some(c) => {
            let cs = chars_of(c.as_str());
            let s = cs.as_slice();
            has_prefix(s, "md5:") || has_prefix(s, "sha256:") || (has_prefix(s, "git:") && sidecar.is_some())
        },
        None => false,
    }
}

/// What is done about a package after each thing that happened.
///
/// A copy is used if it agrees with the digest that it is held against, and replaced if it
/// does not. What comes is put into its place only where it has the checksum expected.
pub open spec fn next_download(j: DownloadJobView, p: DownloadPhaseView, e: DownloadEventView) -> (
    DownloadPhaseView,
    DownloadActionView,
) {
    let expected = j.attempt.checksum;
    let url = j.attempt.url;
    match (p, e) {
        (DownloadPhaseView::Looking, DownloadEventView::Copy { there, sidecar }) => if !there {
            (DownloadPhaseView::Asking, DownloadActionView::Ask { url, remove_copy: false, remove_sidecar: false })
        } else if copy_is_held_against_digest(expected, sidecar) {
            (DownloadPhaseView::Reading { sidecar }, DownloadActionView::ReadCopy)
        } else {
            (DownloadPhaseView::Ended, DownloadActionView::UseCopy)
        },
        (DownloadPhaseView::Reading { sidecar }, DownloadEventView::CopyRead(data)) => match copy_verdict(
            expected,
            sidecar,
            data,
            j.name,
        ) {
            CopyVerdict::Use => (DownloadPhaseView::Ended, DownloadActionView::UseCopy),
            CopyVerdict::Replace => (
                DownloadPhaseView::Asking,
                DownloadActionView::Ask { url, remove_copy: true, remove_sidecar: false },
            ),
            CopyVerdict::ReplaceWithSidecar => (
                DownloadPhaseView::Asking,
                DownloadActionView::Ask { url, remove_copy: true, remove_sidecar: true },
            ),
        },
        (DownloadPhaseView::Reading { .. }, DownloadEventView::CopyUnreadable { reason }) => (
            DownloadPhaseView::Ended,
            DownloadActionView::Fail(ErrorView::Io(reason)),
        ),
        (DownloadPhaseView::Asking, DownloadEventView::Answered) => (
            DownloadPhaseView::Receiving,
            DownloadActionView::Receive,
        ),
        (DownloadPhaseView::Asking, DownloadEventView::Refused { reason }) => match archived(url) {
            Some(a) => (
                DownloadPhaseView::AskingArchive,
                DownloadActionView::Ask { url: a, remove_copy: false, remove_sidecar: false },
            ),
            None => (DownloadPhaseView::Ended, DownloadActionView::Fail(ErrorView::Network(reason))),
        },
        (DownloadPhaseView::AskingArchive, DownloadEventView::Answered) => (
            DownloadPhaseView::Receiving,
            DownloadActionView::Receive,
        ),
        (DownloadPhaseView::AskingArchive, DownloadEventView::Refused { reason }) => (
            DownloadPhaseView::Ended,
            DownloadActionView::Fail(ErrorView::Network(reason)),
        ),
        (DownloadPhaseView::Receiving, DownloadEventView::Received(data)) => match download_verdict(
            expected,
            hex_text(sha256(data)),
            hex_text(md5(data)),
            j.name,
        ) {
            Ok(sidecar) => (DownloadPhaseView::Moving, DownloadActionView::Move { sidecar }),
            Err(e) => (DownloadPhaseView::Ended, DownloadActionView::Fail(e)),
        },
        (DownloadPhaseView::Receiving, DownloadEventView::Lost { reason }) => (
            DownloadPhaseView::Ended,
            DownloadActionView::Fail(ErrorView::Network(reason)),
        ),
        (DownloadPhaseView::Receiving, DownloadEventView::NotWritten { reason }) => (
            DownloadPhaseView::Ended,
            DownloadActionView::Fail(ErrorView::Io(reason)),
        ),
        (DownloadPhaseView::Moving, DownloadEventView::Moved) => (DownloadPhaseView::Ended, DownloadActionView::Done),
        (DownloadPhaseView::Moving, DownloadEventView::NotMoved { reason }) => (
            DownloadPhaseView::Ended,
            DownloadActionView::Fail(
                ErrorView::Other("Failed to persist download to "@ + j.dest + ": "@ + reason),
            ),
        ),
        _ => (p, DownloadActionView::Wait),
    }
}

fn ask(url: &str, remove_copy: bool, remove_sidecar: bool) -> (r: DownloadAction)
    ensures
        r@ == (DownloadActionView::Ask { url: url@, remove_copy, remove_sidecar }),
{
    DownloadAction::Ask { url: url.to_owned(), remove_copy, remove_sidecar }
}

fn as_text(s: &Option<String>) -> (r: Option<&str>)
    ensures
        opt_str(r) == opt_view(*s),
{
    match s {
        Some(t) => Some(t.as_str()),
        None => None,
    }
}

/// What is done about a package after something happened; see [`next_download`].
pub fn download_step(job: &DownloadJob, phase: DownloadPhase, event: DownloadEvent) -> (r: (
    DownloadPhase,
    DownloadAction,
))
    ensures
        (r.0@, r.1@) == next_download(job@, phase@, event@),
{
    let url = job.attempt.url.as_str();
    match (phase, event) {
        (DownloadPhase::Looking, DownloadEvent::Copy { there, sidecar }) => if !there {
            (DownloadPhase::Asking, ask(url, false, false))
        } else if copy_needs_reading(&job.attempt.checksum, &sidecar) {
            (DownloadPhase::Reading { sidecar }, DownloadAction::ReadCopy)
        } else {
            (DownloadPhase::Ended, DownloadAction::UseCopy)
        },
        (DownloadPhase::Reading { sidecar }, DownloadEvent::CopyRead(data)) => match judge_copy(
            as_text(&job.attempt.checksum),
            as_text(&sidecar),
            data.as_slice(),
            job.name.as_str(),
        ) {
            CopyVerdict::Use => (DownloadPhase::Ended, DownloadAction::UseCopy),
            CopyVerdict::Replace => (DownloadPhase::Asking, ask(url, true, false)),
            CopyVerdict::ReplaceWithSidecar => (DownloadPhase::Asking, ask(url, true, true)),
        },
        (DownloadPhase::Reading { .. }, DownloadEvent::CopyUnreadable { reason }) => (
            DownloadPhase::Ended,
            DownloadAction::Fail(UvrError::Io(reason)),
        ),
        (DownloadPhase::Asking, DownloadEvent::Answered) => (DownloadPhase::Receiving, DownloadAction::Receive),
        (DownloadPhase::Asking, DownloadEvent::Refused { reason }) => match cran_archive_url(url) {
            Some(a) => (DownloadPhase::AskingArchive, ask(a.as_str(), false, false)),
            None => (DownloadPhase::Ended, DownloadAction::Fail(UvrError::Network(reason))),
        },
        (DownloadPhase::AskingArchive, DownloadEvent::Answered) => (DownloadPhase::Receiving, DownloadAction::Receive),
        (DownloadPhase::AskingArchive, DownloadEvent::Refused { reason }) => (
            DownloadPhase::Ended,
            DownloadAction::Fail(UvrError::Network(reason)),
        ),
        (DownloadPhase::Receiving, DownloadEvent::Received(data)) => match judge_received(
            as_text(&job.attempt.checksum),
            data.as_slice(),
            job.name.as_str(),
        ) {
            Ok(sidecar) => (DownloadPhase::Moving, DownloadAction::Move { sidecar }),
            Err(e) => (DownloadPhase::Ended, DownloadAction::Fail(e)),
        },
        (DownloadPhase::Receiving, DownloadEvent::Lost { reason }) => (
            DownloadPhase::Ended,
            DownloadAction::Fail(UvrError::Network(reason)),
        ),
        (DownloadPhase::Receiving, DownloadEvent::NotWritten { reason }) => (
            DownloadPhase::Ended,
            DownloadAction::Fail(UvrError::Io(reason)),
        ),
        (DownloadPhase::Moving, DownloadEvent::Moved) => (DownloadPhase::Ended, DownloadAction::Done),
        (DownloadPhase::Moving, DownloadEvent::NotMoved { reason }) => (
            DownloadPhase::Ended,
            DownloadAction::Fail(
                UvrError::Other(
                    "Failed to persist download to ".to_owned().concat(job.dest.as_str()).concat(": ").concat(reason.as_str()),
                ),
            ),
        ),
        (phase, _) => (phase, DownloadAction::Wait),
    }
}

/// What has been downloaded and accepted is accepted again as a copy, if it is still
/// the same.
pub proof fn accepted_download_is_good_copy(expected: Option<Seq<char>>, data: Seq<u8>, package: Seq<char>)
    requires
        expected is Some ==> !is_commit(expected->0),
    ensures
        download_verdict(expected, hex_text(sha256(data)), hex_text(md5(data)), package) is Ok ==> copy_verdict(
            expected,
            None,
            data,
            package,
        ) == CopyVerdict::Use,
{
}

/// The checksum that is kept beside the package of a commit makes its copy accepted.
pub proof fn kept_checksum_accepts_copy(commit: Seq<char>, data: Seq<u8>, package: Seq<char>)
    requires
        is_commit(commit),
    ensures
        download_verdict(Some(commit), hex_text(sha256(data)), hex_text(md5(data)), package) == Ok::<
            Option<Seq<char>>,
            ErrorView,
        >(Some(sha256_checksum(data))),
        copy_verdict(Some(commit), Some(sha256_checksum(data)), data, package) == CopyVerdict::Use,
{
    reveal_strlit("git:");
    reveal_strlit("md5:");
    reveal_strlit("sha256:");
    let g = commit.subrange(0, 4);
    assert(g == "git:"@);
    assert(commit[0] == g[0]);
    if starts_with(commit, "md5:"@) {
        assert(commit.subrange(0, 4)[0] == 'm');
    }
    if starts_with(commit, "sha256:"@) {
        assert(commit.subrange(0, 7)[0] == 's');
    }
    own_checksum_is_accepted(data, package);
    let c = sha256_checksum(data);
    assert forall|i: int| 0 <= i < c.len() implies !crate::text::is_whitespace(#[trigger] c[i]) by {}
    lemma_trim_none(c);
}

proof fn lemma_trim_none(s: Seq<char>)
    requires
        forall|i: int| 0 <= i < s.len() ==> !crate::text::is_whitespace(#[trigger] s[i]),
    ensures
        trim(s) == s,
{
    assert(crate::text::skip_space(s, 0) == 0);
    let t = crate::text::trim_start(s);
    assert(t == s);
    assert(crate::text::space_end(s, s.len() as int) == s.len());
}

/// What is downloaded and does not have the digest of the lock file is refused.
pub proof fn wrong_data_is_refused(expected: Seq<char>, data: Seq<u8>, package: Seq<char>)
    requires
        is_digest(expected),
        expected != sha256_checksum(data),
        expected != md5_checksum(data),
    ensures
        download_verdict(Some(expected), hex_text(sha256(data)), hex_text(md5(data)), package) is Err,
        copy_verdict(Some(expected), None, data, package) == CopyVerdict::Replace,
{
}

/// A copy that does not agree with the digest of the lock file is never used.
pub proof fn bad_copy_is_not_used(j: DownloadJobView, p: DownloadPhaseView, e: DownloadEventView)
    requires
        j.attempt.checksum matches Some(c) && is_digest(c),
        next_download(j, p, e).1 is UseCopy,
    ensures
        e matches DownloadEventView::CopyRead(data) && agrees(j.attempt.checksum->0, data, j.name),
{
}

/// What comes for a package with a digest is put into its place only if it has that
/// digest.
pub proof fn bad_download_is_not_kept(j: DownloadJobView, p: DownloadPhaseView, e: DownloadEventView)
    requires
        j.attempt.checksum matches Some(c) && is_digest(c),
        next_download(j, p, e).1 is Move,
    ensures
        e matches DownloadEventView::Received(data) && (j.attempt.checksum->0 == sha256_checksum(data)
            || j.attempt.checksum->0 == md5_checksum(data)),
{
    reveal_strlit("git:");
    reveal_strlit("md5:");
    reveal_strlit("sha256:");
}

} // verus!
