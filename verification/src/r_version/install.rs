//! How a build of R is installed: what is done next after each thing that happened.
use vstd::prelude::*;

use crate::error::{ErrorView, UvrError};
use crate::paths::{join_path, joined};
use crate::r_version::host::{availability, ensure_libc_supported, is_channel, is_published, is_rolling_channel,
    libc_verdict, parse_r_version, portable_availability, portable_publishes, portable_url, r_numbers, Platform};
use crate::r_version::published::{suggestion, version_not_found_error};
use crate::text::{char_is_whitespace, chars_of, find_char, has_prefix, index_of, is_whitespace, opt_view, part,
    skip_space, starts_with, string_of, trim_start, trimmed_start, views};

verus! {

/// The installation of a version of R.
#[derive(Debug)]
pub struct InstallJob {
    /// The full version, or a channel.
    pub version: String,
    pub platform: Platform,
    /// The C library of the host is musl.
    pub musl: bool,
    /// The version of glibc of the host, where it has one that is known. It counts
    /// whatever the platform of the build is.
    pub glibc: Option<(u32, u32)>,
    /// The directory of the installation.
    pub dir: String,
    /// The program of R in it.
    pub binary: String,
}

/// The installation of a version of R as a mathematical value.
pub struct JobView {
    pub version: Seq<char>,
    pub platform: Platform,
    pub musl: bool,
    pub glibc: Option<(u32, u32)>,
    pub dir: Seq<char>,
    pub binary: Seq<char>,
}

impl View for InstallJob {
    type V = JobView;

    open spec fn view(&self) -> JobView {
        JobView {
            version: self.version@,
            platform: self.platform,
            musl: self.musl,
            glibc: self.glibc,
            dir: self.dir@,
            binary: self.binary@,
        }
    }
}

/// How far an installation has come.
#[derive(Debug, PartialEq, Eq)]
pub enum Phase {
    /// Is there an R already?
    Looking,
    /// Does the R that is there run?
    ProbingOld,
    /// The R that is there, which does not run, is being removed.
    Removing,
    Downloading,
    /// The server has no such build, with this status; what has it?
    AskingIndex { status: String },
    Unpacking,
    /// Is there an R now?
    LookingNew,
    /// The OpenMP runtime is being enabled.
    EnablingOpenMp,
    /// Does the new R run?
    ProbingNew,
    Ended,
}

/// How far an installation has come, as a mathematical value.
pub enum PhaseView {
    Looking,
    ProbingOld,
    Removing,
    Downloading,
    AskingIndex { status: Seq<char> },
    Unpacking,
    LookingNew,
    EnablingOpenMp,
    ProbingNew,
    Ended,
}

impl View for Phase {
    type V = PhaseView;

    open spec fn view(&self) -> PhaseView {
        match *self {
            Phase::Looking => PhaseView::Looking,
            Phase::ProbingOld => PhaseView::ProbingOld,
            Phase::Removing => PhaseView::Removing,
            Phase::Downloading => PhaseView::Downloading,
            Phase::AskingIndex { status } => PhaseView::AskingIndex { status: status@ },
            Phase::Unpacking => PhaseView::Unpacking,
            Phase::LookingNew => PhaseView::LookingNew,
            Phase::EnablingOpenMp => PhaseView::EnablingOpenMp,
            Phase::ProbingNew => PhaseView::ProbingNew,
            Phase::Ended => PhaseView::Ended,
        }
    }
}

/// What happened.
#[derive(Debug)]
pub enum InstallEvent {
    /// The program of R was found, or not.
    BinaryThere(bool),
    /// The program of R said its version, or not.
    Runs(bool),
    /// The directory was removed, or could not be, and why.
    Removed(Option<String>),
    /// The archive has been downloaded.
    Archive,
    /// The server refused the request, with this status.
    ClientError { status: String },
    /// The server failed or was not reached.
    NetworkError { reason: String },
    /// The releases that the index has, none where it could not be had.
    Index(Vec<String>),
    /// The archive was unpacked into place, or could not be, and why.
    Unpacked(Option<String>),
    /// The OpenMP runtime was enabled as far as possible.
    OpenMpDone,
}

/// What happened, as a mathematical value.
pub enum EventView {
    BinaryThere(bool),
    Runs(bool),
    Removed(Option<Seq<char>>),
    Archive,
    ClientError { status: Seq<char> },
    NetworkError { reason: Seq<char> },
    Index(Seq<Seq<char>>),
    Unpacked(Option<Seq<char>>),
    OpenMpDone,
}

impl View for InstallEvent {
    type V = EventView;

    open spec fn view(&self) -> EventView {
        match *self {
            InstallEvent::BinaryThere(b) => EventView::BinaryThere(b),
            InstallEvent::Runs(b) => EventView::Runs(b),
            InstallEvent::Removed(e) => EventView::Removed(opt_view(e)),
            InstallEvent::Archive => EventView::Archive,
            InstallEvent::ClientError { status } => EventView::ClientError { status: status@ },
            InstallEvent::NetworkError { reason } => EventView::NetworkError { reason: reason@ },
            InstallEvent::Index(v) => EventView::Index(views(v@)),
            InstallEvent::Unpacked(e) => EventView::Unpacked(opt_view(e)),
            InstallEvent::OpenMpDone => EventView::OpenMpDone,
        }
    }
}

/// What is done next.
#[derive(Debug)]
pub enum InstallAction {
    /// See whether the program of R is there.
    LookForBinary,
    /// Ask the program of R for its version.
    Probe,
    /// Remove the directory of the installation.
    RemoveTree,
    /// Download the archive from this address.
    Download(String),
    /// Read the index of what is published.
    FetchIndex,
    /// Unpack the archive into place.
    Unpack,
    /// Enable the OpenMP runtime.
    EnableOpenMp,
    /// R is installed.
    Done,
    /// Give up.
    Fail(UvrError),
    /// Remove the directory of the installation and give up.
    RemoveTreeAndFail(UvrError),
    /// Wait for what belongs to the phase.
    Wait,
}

/// What is done next, as a mathematical value.
pub enum ActionView {
    LookForBinary,
    Probe,
    RemoveTree,
    Download(Seq<char>),
    FetchIndex,
    Unpack,
    EnableOpenMp,
    Done,
    Fail(ErrorView),
    RemoveTreeAndFail(ErrorView),
    Wait,
}

impl View for InstallAction {
    type V = ActionView;

    open spec fn view(&self) -> ActionView {
        match *self {
            InstallAction::LookForBinary => ActionView::LookForBinary,
            InstallAction::Probe => ActionView::Probe,
            InstallAction::RemoveTree => ActionView::RemoveTree,
            InstallAction::Download(u) => ActionView::Download(u@),
            InstallAction::FetchIndex => ActionView::FetchIndex,
            InstallAction::Unpack => ActionView::Unpack,
            InstallAction::EnableOpenMp => ActionView::EnableOpenMp,
            InstallAction::Done => ActionView::Done,
            InstallAction::Fail(e) => ActionView::Fail(e@),
            InstallAction::RemoveTreeAndFail(e) => ActionView::RemoveTreeAndFail(e@),
            InstallAction::Wait => ActionView::Wait,
        }
    }
}

/// A version that is known not to be published for the platform.
pub open spec fn is_withheld(j: JobView) -> bool {
    &&& !is_channel(j.version)
    &&& availability(j.platform) is Some
    &&& r_numbers(j.version) matches Some((a, b, c)) && !is_published(j.platform, (a as u32, b as u32, c as u32))
}

/// Where the archive is downloaded from, or why there is no use in that: the host is
/// too old, or the version is not published for the platform.
pub open spec fn archive_address(j: JobView) -> Result<Seq<char>, ErrorView> {
    match libc_verdict(j.glibc is Some, j.musl, j.glibc) {
        Err(e) => Err(e),
        Ok(_) => if is_withheld(j) {
            Err(
                ErrorView::Other(
                    "R "@ + j.version + " is not published for your platform. Portable builds here cover "@ + availability(
                        j.platform,
                    )->0 + "."@,
                ),
            )
        } else {
            Ok(portable_url(j.platform, j.version, j.musl))
        },
    }
}

/// What is said of a build that does not run.
pub open spec fn does_not_run(binary: Seq<char>) -> Seq<char> {
    "The R build installed at "@ + binary
        + " does not run on this host — starting it and asking for its version produced nothing. This usually means the build does not match the host's libc or architecture. Report it with the output of `uvr doctor`."@
}

/// The download is begun, unless there is no use in it.
pub open spec fn begin_download(j: JobView) -> (PhaseView, ActionView) {
    match archive_address(j) {
        Ok(url) => (PhaseView::Downloading, ActionView::Download(url)),
        Err(e) => (PhaseView::Ended, ActionView::Fail(e)),
    }
}

/// What is done next after what happened. An R that is there and runs is kept; one
/// that does not run is removed first. The new R must be there, and must run, but for
/// Windows, where its program cannot be asked.
pub open spec fn next(j: JobView, p: PhaseView, e: EventView) -> (PhaseView, ActionView) {
    match (p, e) {
        (PhaseView::Looking, EventView::BinaryThere(there)) => if there {
            (PhaseView::ProbingOld, ActionView::Probe)
        } else {
            begin_download(j)
        },
        (PhaseView::ProbingOld, EventView::Runs(runs)) => if runs {
            (PhaseView::Ended, ActionView::Done)
        } else {
            (PhaseView::Removing, ActionView::RemoveTree)
        },
        (PhaseView::Removing, EventView::Removed(error)) => match error {
            Some(e) => (
                PhaseView::Ended,
                ActionView::Fail(
                    ErrorView::Other("Failed to remove broken install at "@ + j.dir + ": "@ + e),
                ),
            ),
            None => begin_download(j),
        },
        (PhaseView::Downloading, EventView::Archive) => (PhaseView::Unpacking, ActionView::Unpack),
        (PhaseView::Downloading, EventView::ClientError { status }) => (
            PhaseView::AskingIndex { status },
            ActionView::FetchIndex,
        ),
        (PhaseView::Downloading, EventView::NetworkError { reason }) => (
            PhaseView::Ended,
            ActionView::Fail(ErrorView::Network(reason)),
        ),
        (PhaseView::AskingIndex { status }, EventView::Index(stable)) => (
            PhaseView::Ended,
            ActionView::Fail(
                ErrorView::Other(
                    "R "@ + j.version + " is not published for your platform (HTTP "@ + status + ")."@ + suggestion(stable),
                ),
            ),
        ),
        (PhaseView::Unpacking, EventView::Unpacked(error)) => match error {
            Some(e) => (PhaseView::Ended, ActionView::Fail(ErrorView::Other(e))),
            None => (PhaseView::LookingNew, ActionView::LookForBinary),
        },
        (PhaseView::LookingNew, EventView::BinaryThere(there)) => if there {
            (PhaseView::EnablingOpenMp, ActionView::EnableOpenMp)
        } else {
            (
                PhaseView::Ended,
                ActionView::RemoveTreeAndFail(
                    ErrorView::Other("R binary not found after installation at "@ + j.binary),
                ),
            )
        },
        (PhaseView::EnablingOpenMp, EventView::OpenMpDone) => if j.platform is WindowsX86_64 {
            (PhaseView::Ended, ActionView::Done)
        } else {
            (PhaseView::ProbingNew, ActionView::Probe)
        },
        (PhaseView::ProbingNew, EventView::Runs(runs)) => if runs {
            (PhaseView::Ended, ActionView::Done)
        } else {
            (PhaseView::Ended, ActionView::RemoveTreeAndFail(ErrorView::Other(does_not_run(j.binary))))
        },
        _ => (p, ActionView::Wait),
    }
}

/// Where the archive is downloaded from; see [`archive_address`].
pub fn preflight(job: &InstallJob) -> (r: Result<String, UvrError>)
    ensures
        crate::error::outcome(r) == archive_address(job@),
{
    match ensure_libc_supported(job.glibc.is_some(), job.musl, job.glibc) {
        Ok(()) => {},
        Err(e) => {
            return Err(e);
        },
    }
    if !is_rolling_channel(job.version.as_str()) {
        if let Some(available) = portable_availability(job.platform) {
            if let Some((a, b, c)) = parse_r_version(job.version.as_str()) {
                assert((a as nat) as u32 == a && (b as nat) as u32 == b && (c as nat) as u32 == c);
                if !portable_publishes(job.platform, (a, b, c)) {
                    return Err(
                        UvrError::Other(
                            "R ".to_owned().concat(job.version.as_str()).concat(
                                " is not published for your platform. Portable builds here cover ",
                            ).concat(available).concat("."),
                        ),
                    );
                }
            }
        }
    }
    Ok(job.platform.download_url(job.version.as_str(), job.musl))
}

fn begin(job: &InstallJob) -> (r: (Phase, InstallAction))
    ensures
        (r.0@, r.1@) == begin_download(job@),
{
    match preflight(job) {
        Ok(url) => (Phase::Downloading, InstallAction::Download(url)),
        Err(e) => (Phase::Ended, InstallAction::Fail(e)),
    }
}

/// What is done next after what happened; see [`next`].
pub fn install_step(job: &InstallJob, phase: Phase, event: InstallEvent) -> (r: (Phase, InstallAction))
    ensures
        (r.0@, r.1@) == next(job@, phase@, event@),
{
    match (phase, event) {
        (Phase::Looking, InstallEvent::BinaryThere(there)) => if there {
            (Phase::ProbingOld, InstallAction::Probe)
        } else {
            begin(job)
        },
        (Phase::ProbingOld, InstallEvent::Runs(runs)) => if runs {
            (Phase::Ended, InstallAction::Done)
        } else {
            (Phase::Removing, InstallAction::RemoveTree)
        },
        (Phase::Removing, InstallEvent::Removed(error)) => match error {
            Some(e) => (
                Phase::Ended,
                InstallAction::Fail(
                    UvrError::Other(
                        "Failed to remove broken install at ".to_owned().concat(job.dir.as_str()).concat(": ").concat(
                            e.as_str(),
                        ),
                    ),
                ),
            ),
            None => begin(job),
        },
        (Phase::Downloading, InstallEvent::Archive) => (Phase::Unpacking, InstallAction::Unpack),
        (Phase::Downloading, InstallEvent::ClientError { status }) => (
            Phase::AskingIndex { status },
            InstallAction::FetchIndex,
        ),
        (Phase::Downloading, InstallEvent::NetworkError { reason }) => (
            Phase::Ended,
            InstallAction::Fail(UvrError::Network(reason)),
        ),
        (Phase::AskingIndex { status }, InstallEvent::Index(stable)) => (
            Phase::Ended,
            InstallAction::Fail(version_not_found_error(job.version.as_str(), status.as_str(), &stable)),
        ),
        (Phase::Unpacking, InstallEvent::Unpacked(error)) => match error {
            Some(e) => (Phase::Ended, InstallAction::Fail(UvrError::Other(e))),
            None => (Phase::LookingNew, InstallAction::LookForBinary),
        },
        (Phase::LookingNew, InstallEvent::BinaryThere(there)) => if there {
            (Phase::EnablingOpenMp, InstallAction::EnableOpenMp)
        } else {
            (
                Phase::Ended,
                InstallAction::RemoveTreeAndFail(
                    UvrError::Other("R binary not found after installation at ".to_owned().concat(job.binary.as_str())),
                ),
            )
        },
        (Phase::EnablingOpenMp, InstallEvent::OpenMpDone) => if job.platform.is_windows() {
            (Phase::Ended, InstallAction::Done)
        } else {
            (Phase::ProbingNew, InstallAction::Probe)
        },
        (Phase::ProbingNew, InstallEvent::Runs(runs)) => match verify_r_runs(job.binary.as_str(), runs) {
            Ok(()) => (Phase::Ended, InstallAction::Done),
            Err(e) => (Phase::Ended, InstallAction::RemoveTreeAndFail(e)),
        },
        (phase, _) => (phase, InstallAction::Wait),
    }
}

/// The directory in which a version of R is installed, and the program of R in it.
pub fn install_paths(root: &str, version: &str, windows: bool) -> (r: (String, String))
    ensures
        r.0@ == joined(root@, version@),
        r.1@ == joined(
            joined(r.0@, "bin"@),
            if windows {
                "R.exe"@
            } else {
                "R"@
            },
        ),
{
    let dir = join_path(root, version);
    let program = if windows {
        "R.exe"
    } else {
        "R"
    };
    let binary = join_path(join_path(dir.as_str(), "bin").as_str(), program);
    (dir, binary)
}

/// Whether a build runs: whether its program, asked for its version, has said one.
pub fn verify_r_runs(binary: &str, runs: bool) -> (r: Result<(), UvrError>)
    ensures
        r is Ok <==> runs,
        r matches Err(e) ==> e@ == ErrorView::Other(does_not_run(binary@)),
{
    if runs {
        return Ok(());
    }
    Err(
        UvrError::Other(
            "The R build installed at ".to_owned().concat(binary).concat(
                " does not run on this host — starting it and asking for its version produced nothing. This usually means the build does not match the host's libc or architecture. Report it with the output of `uvr doctor`.",
            ),
        ),
    )
}

/// What is made of a failure to move the unpacked tree into place: where there is an R
/// by now, another process was first, and its R is used.
pub fn after_move(error: Option<&str>, dest_has_r: bool, from: &str, to: &str) -> (r: Result<(), UvrError>)
    ensures
        match error {
            Some(e) => if dest_has_r {
                r is Ok
            } else {
                r matches Err(f) && f@ == ErrorView::Other(
                    "Failed to move extracted R into place ("@ + from@ + " -> "@ + to@ + "): "@ + e@,
                )
            },
            None => r is Ok,
        },
{
    match error {
        Some(e) => if dest_has_r {
            Ok(())
        } else {
            Err(
                UvrError::Other(
                    "Failed to move extracted R into place (".to_owned().concat(from).concat(" -> ").concat(to).concat(
                        "): ",
                    ).concat(e),
                ),
            )
        },
        None => Ok(()),
    }
}

/// An installation ends well only with an R that has been seen to run, or, on Windows,
/// with one that is there.
pub proof fn done_means_running(j: JobView, p: PhaseView, e: EventView)
    requires
        next(j, p, e).1 is Done,
    ensures
        e == EventView::Runs(true) || (j.platform is WindowsX86_64 && p is EnablingOpenMp),
{
}

/// Once the archive has been unpacked, an installation that fails leaves nothing
/// behind: what is there is removed.
pub proof fn failure_leaves_nothing(j: JobView, p: PhaseView, e: EventView)
    requires
        p is LookingNew || p is EnablingOpenMp || p is ProbingNew,
    ensures
        !(next(j, p, e).1 is Fail),
{
}

/// An R that is there is removed only after it did not run, or, if it is the new one,
/// was not there.
pub proof fn working_r_is_kept(j: JobView, p: PhaseView, e: EventView)
    requires
        next(j, p, e).1 is RemoveTree || next(j, p, e).1 is RemoveTreeAndFail,
    ensures
        e == EventView::Runs(false) || e == EventView::BinaryThere(false),
{
}

/// The end of the line that begins at position `i`, with its line feed.
pub open spec fn line_end(s: Seq<char>, i: int) -> int {
    let k = find_char(s, '\n', i);
    if k < s.len() {
        k + 1
    } else {
        s.len() as int
    }
}

/// The line sets the variable `R_HOME_DIR`.
pub open spec fn sets_home(line: Seq<char>) -> bool {
    starts_with(trim_start(line), "R_HOME_DIR="@)
}

/// The start of the first line at or after the line start `i` that sets `R_HOME_DIR`,
/// or the length.
pub open spec fn home_line(s: Seq<char>, i: int) -> int
    decreases s.len() - i,
{
    if i >= s.len() || line_end(s, i) <= i {
        s.len() as int
    } else if sets_home(s.subrange(i, line_end(s, i))) {
        i
    } else {
        home_line(s, line_end(s, i))
    }
}

/// A path as a word of a shell: in quotes where it has white space.
pub open spec fn shell_word(path: Seq<char>) -> Seq<char> {
    if exists|i: int| 0 <= i < path.len() && is_whitespace(#[trigger] path[i]) {
        "\""@ + path + "\""@
    } else {
        path
    }
}

/// The line with the variable set to the path.
pub open spec fn home_set(line: Seq<char>, path: Seq<char>) -> Seq<char> {
    line.subrange(0, skip_space(line, 0)) + "R_HOME_DIR="@ + shell_word(path) + (if line.len() > 0 && line.last() == '\n' {
        "\n"@
    } else {
        ""@
    })
}

/// The script with the first line that sets `R_HOME_DIR` set to the path, where there
/// is one.
pub open spec fn patched_wrapper(s: Seq<char>, path: Seq<char>) -> Option<Seq<char>> {
    let k = home_line(s, 0);
    if k < s.len() {
        let e = line_end(s, k);
        Some(s.subrange(0, k) + home_set(s.subrange(k, e), path) + s.subrange(e, s.len() as int))
    } else {
        None
    }
}

fn shell_text(path: &str) -> (r: String)
    ensures
        r@ == shell_word(path@),
{
    let cs = chars_of(path);
    let mut i: usize = 0;
    while i < cs.len()
        invariant
            i <= cs@.len(),
            cs@ == path@,
            forall|j: int| 0 <= j < i ==> !is_whitespace(#[trigger] path@[j]),
        decreases cs@.len() - i,
    {
        if char_is_whitespace(cs[i]) {
            assert(is_whitespace(path@[i as int]));
            return "\"".to_owned().concat(path).concat("\"");
        }
        i += 1;
    }
    path.to_owned()
}

proof fn lemma_find_char_bounds(s: Seq<char>, c: char, i: int)
    requires
        0 <= i <= s.len(),
    ensures
        i <= find_char(s, c, i) <= s.len(),
    decreases s.len() - i,
{
    if i < s.len() && s[i] != c {
        lemma_find_char_bounds(s, c, i + 1);
    }
}

/// The script with the first line that sets `R_HOME_DIR` set to the path; see
/// [`patched_wrapper`].
pub fn patch_wrapper_r_home_dir(content: &str, dest: &str) -> (r: Option<String>)
    ensures
        opt_view(r) == patched_wrapper(content@, dest@),
{
    let cs = chars_of(content);
    let s = cs.as_slice();
    let n: usize = s.len();
    let value = shell_text(dest);
    let mut i: usize = 0;
    while i < n
        invariant
            i <= n,
            n == s@.len(),
            s@ == content@,
            value@ == shell_word(dest@),
            home_line(s@, 0) == home_line(s@, i as int),
        decreases n - i,
    {
        let k: usize = index_of(s, '\n', i);
        let e: usize = if k < n {
            k + 1
        } else {
            n
        };
        let line = part(s, i, e);
        let rest = trimmed_start(line);
        if has_prefix(rest, "R_HOME_DIR=") {
            proof {
                lemma_skip_space_bounds(line@, 0);
                assert(rest@.len() == line@.len() - skip_space(line@, 0));
            }
            let cut: usize = e - i - rest.len();
            let indent = part(line, 0, cut);
            let newline = if line[line.len() - 1] == '\n' {
                "\n"
            } else {
                ""
            };
            let set = string_of(indent).concat("R_HOME_DIR=").concat(value.as_str()).concat(newline);
            assert(set@ == home_set(line@, dest@));
            return Some(
                string_of(part(s, 0, i)).concat(set.as_str()).concat(string_of(part(s, e, n)).as_str()),
            );
        }
        i = e;
    }
    None
}

proof fn lemma_skip_space_bounds(s: Seq<char>, i: int)
    requires
        0 <= i <= s.len(),
    ensures
        i <= skip_space(s, i) <= s.len(),
    decreases s.len() - i,
{
    if i < s.len() && is_whitespace(s[i]) {
        lemma_skip_space_bounds(s, i + 1);
    }
}

/// Only the one line of the script changes, and it keeps its indentation.
pub proof fn patch_changes_one_line(s: Seq<char>, path: Seq<char>)
    ensures
        patched_wrapper(s, path) matches Some(t) ==> {
            let k = home_line(s, 0);
            let e = line_end(s, k);
            let rest = s.subrange(e, s.len() as int);
            &&& 0 <= k < e <= s.len()
            &&& sets_home(s.subrange(k, e))
            &&& t.len() >= k + rest.len()
            &&& t.subrange(0, k) == s.subrange(0, k)
            &&& t.subrange(t.len() - rest.len(), t.len() as int) == rest
        },
{
    lemma_home_line(s, 0);
}

proof fn lemma_home_line(s: Seq<char>, i: int)
    requires
        0 <= i <= s.len(),
    ensures
        ({
            let k = home_line(s, i);
            &&& i <= k <= s.len()
            &&& k < s.len() ==> k < line_end(s, k) <= s.len() && sets_home(s.subrange(k, line_end(s, k)))
        }),
    decreases s.len() - i,
{
    if i < s.len() {
        lemma_find_char_bounds(s, '\n', i);
        if !sets_home(s.subrange(i, line_end(s, i))) {
            lemma_home_line(s, line_end(s, i));
        }
    }
}

} // verus!
