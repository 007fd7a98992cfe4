//! Building packages with `R CMD INSTALL`.
use vstd::prelude::*;

use crate::error::{code_text, ErrorView, UvrError};
use crate::paths::{child, has_drive, home_is_two_names_up, home_of, is_home, is_parent, join_on, joined_on, parent_of,
    plain_dir, plain_name, slashed};
use crate::r_version::openmp::{original_profile, site_profile_env, ORIG_SITE_PROFILE_VAR};
use crate::text::{char_is_digit, chars_of, decimal, decimal_string, is_digit, is_text, opt_str, opt_view, parse_number, part,
    read_number, string_of, trim, trimmed, views};

verus! {

/// How long a package may take to build, in seconds, where nothing else is said: half
/// an hour.
pub const DEFAULT_INSTALL_TIMEOUT: u64 = 1800;

/// The first position at or after `i` that holds no digit, or the length.
pub open spec fn digits_end(s: Seq<char>, i: int) -> int
    decreases s.len() - i,
{
    if i >= s.len() {
        s.len() as int
    } else if is_digit(s[i]) {
        digits_end(s, i + 1)
    } else {
        i
    }
}

/// How many seconds a unit of time has.
pub open spec fn unit_seconds(unit: Seq<char>) -> Option<nat> {
    if unit == ""@ || unit == "s"@ || unit == "sec"@ || unit == "secs"@ || unit == "second"@ || unit == "seconds"@ {
        Some(1)
    } else if unit == "m"@ || unit == "min"@ || unit == "mins"@ || unit == "minute"@ || unit == "minutes"@ {
        Some(60)
    } else if unit == "h"@ || unit == "hr"@ || unit == "hrs"@ || unit == "hour"@ || unit == "hours"@ {
        Some(3600)
    } else {
        None
    }
}

/// The seconds that a text such as `30m`, `2h`, `90s` or `90` stands for.
pub open spec fn seconds_in(text: Seq<char>) -> Option<nat> {
    let s = trim(text);
    let k = digits_end(s, 0);
    match (parse_number(s.take(k), u64::MAX as nat), unit_seconds(trim(s.skip(k)))) {
        (Some(n), Some(u)) => if n * u <= u64::MAX {
            Some(n * u)
        } else {
            None
        },
        _ => None,
    }
}

fn seconds_of_unit(unit: &[char]) -> (r: Option<u64>)
    ensures
        match r {
            Some(n) => unit_seconds(unit@) == Some(n as nat),
            None => unit_seconds(unit@) is None,
        },
{
    if is_text(unit, "") || is_text(unit, "s") || is_text(unit, "sec") || is_text(unit, "secs") || is_text(unit, "second")
        || is_text(unit, "seconds") {
        Some(1)
    } else if is_text(unit, "m") || is_text(unit, "min") || is_text(unit, "mins") || is_text(unit, "minute") || is_text(
        unit,
        "minutes",
    ) {
        Some(60)
    } else if is_text(unit, "h") || is_text(unit, "hr") || is_text(unit, "hrs") || is_text(unit, "hour") || is_text(
        unit,
        "hours",
    ) {
        Some(3600)
    } else {
        None
    }
}

/// The seconds that a text such as `30m`, `2h`, `90s` or `90` stands for; see
/// [`seconds_in`].
pub fn parse_install_timeout(s: &str) -> (r: Option<u64>)
    ensures
        match r {
            Some(n) => seconds_in(s@) == Some(n as nat),
            None => seconds_in(s@) is None,
        },
{
    let cs = chars_of(s);
    let t = trimmed(cs.as_slice());
    let n: usize = t.len();
    let mut k: usize = 0;
    while k < n && char_is_digit(t[k])
        invariant
            k <= n,
            n == t@.len(),
            digits_end(t@, 0) == digits_end(t@, k as int),
        decreases n - k,
    {
        k += 1;
    }
    let number = part(t, 0, k);
    let unit = trimmed(part(t, k, n));
    proof {
        assert(number@ == t@.take(k as int));
        assert(t@.subrange(k as int, n as int) == t@.skip(k as int));
    }
    match (read_number(number, u64::MAX), seconds_of_unit(unit)) {
        (Some(a), Some(u)) => a.checked_mul(u),
        _ => None,
    }
}

/// How long a package may take to build: what is asked for, else what the environment
/// says, else the default.
pub open spec fn timeout_of(explicit: Option<u64>, env: Option<Seq<char>>) -> nat {
    match explicit {
        Some(d) => d as nat,
        None => match env {
            Some(e) => match seconds_in(e) {
                Some(d) => d,
                None => DEFAULT_INSTALL_TIMEOUT as nat,
            },
            None => DEFAULT_INSTALL_TIMEOUT as nat,
        },
    }
}

/// How long a package may take to build; see [`timeout_of`].
pub fn effective_install_timeout(explicit: Option<u64>, env: Option<&str>) -> (r: u64)
    ensures
        r == timeout_of(explicit, opt_str(env)),
{
    if let Some(d) = explicit {
        return d;
    }
    if let Some(e) = env {
        if let Some(d) = parse_install_timeout(e) {
            return d;
        }
    }
    DEFAULT_INSTALL_TIMEOUT
}

/// What was printed on both streams. One that has only white space is left out.
pub open spec fn combined(stdout: Seq<char>, stderr: Seq<char>) -> Seq<char> {
    if trim(stdout).len() == 0 && trim(stderr).len() == 0 {
        seq![]
    } else if trim(stdout).len() == 0 {
        stderr
    } else if trim(stderr).len() == 0 {
        stdout
    } else {
        stdout + "\n"@ + stderr
    }
}

/// What was printed on both streams; see [`combined`].
pub fn combine_logs(stdout: &str, stderr: &str) -> (r: String)
    ensures
        r@ == combined(stdout@, stderr@),
{
    let a = chars_of(stdout);
    let b = chars_of(stderr);
    let no_out = trimmed(a.as_slice()).len() == 0;
    let no_err = trimmed(b.as_slice()).len() == 0;
    if no_out && no_err {
        String::new()
    } else if no_out {
        stderr.to_owned()
    } else if no_err {
        stdout.to_owned()
    } else {
        stdout.to_owned().concat("\n").concat(stderr)
    }
}

/// The directory by which R locks a package while it builds it.
pub fn lock_dir_name(package_name: &str) -> (r: String)
    ensures
        r@ == "00LOCK-"@ + package_name@,
{
    "00LOCK-".to_owned().concat(package_name)
}

/// What the watchdog of a build waits for.
#[derive(Debug, Clone, Copy, PartialEq, Eq, Structural)]
pub enum WatchPhase {
    /// That the build ends or takes too long.
    Building,
    /// That a build that was asked to stop does so.
    Stopping,
}

/// What the watchdog of a build does.
#[derive(Debug, Clone, Copy, PartialEq, Eq, Structural)]
pub enum WatchAction {
    /// Look again after so many milliseconds.
    LookAgain(u64),
    /// Ask the build, and all that it started, to stop.
    AskToStop,
    /// Kill the build and all that it started.
    Kill,
    /// Nothing more.
    Leave,
}

/// How long a build may take to stop, in milliseconds.
pub const STOP_GRACE: u64 = 2000;

/// What the watchdog does after `elapsed` milliseconds in a phase. A build that has
/// ended is left alone.
pub fn watch(phase: WatchPhase, completed: bool, elapsed: u64, timeout: u64) -> (r: WatchAction)
    ensures
        r == (if completed {
            WatchAction::Leave
        } else {
            match phase {
                WatchPhase::Building => if elapsed < timeout {
                    WatchAction::LookAgain(200)
                } else {
                    WatchAction::AskToStop
                },
                WatchPhase::Stopping => if elapsed < STOP_GRACE {
                    WatchAction::LookAgain(100)
                } else {
                    WatchAction::Kill
                },
            }
        }),
{
    if completed {
        return WatchAction::Leave;
    }
    match phase {
        WatchPhase::Building => if elapsed < timeout {
            WatchAction::LookAgain(200)
        } else {
            WatchAction::AskToStop
        },
        WatchPhase::Stopping => if elapsed < STOP_GRACE {
            WatchAction::LookAgain(100)
        } else {
            WatchAction::Kill
        },
    }
}

/// What a build printed so far, with one more line.
pub fn log_with_line(log: String, line: &str) -> (r: String)
    ensures
        r@ == log@ + line@ + "\n"@,
{
    log.concat(line).concat("\n")
}

/// What is shown of a line that a build printed: nothing, if it is only white space.
pub fn shown_line(line: &str) -> (r: Option<String>)
    ensures
        opt_view(r) == (if trim(line@).len() == 0 {
            None
        } else {
            Some(trim(line@))
        }),
{
    let cs = chars_of(line);
    let t = trimmed(cs.as_slice());
    if t.len() == 0 {
        None
    } else {
        Some(string_of(t))
    }
}

fn code_string(code: i32) -> (r: String)
    ensures
        r@ == code_text(code),
{
    if code < 0 {
        let n: i64 = -(code as i64);
        "-".to_owned().concat(decimal_string(n as u64).as_str())
    } else {
        decimal_string(code as u64)
    }
}

/// How a build ended.
#[derive(Debug, PartialEq, Eq)]
pub struct BuildEnd {
    /// It took too long and was stopped.
    pub timed_out: bool,
    pub success: bool,
    /// The exit code, where there is one.
    pub code: Option<i32>,
    pub stdout: String,
    pub stderr: String,
}

/// What is made of how a build ended.
pub open spec fn build_verdict(end: BuildEnd, package: Seq<char>, timeout: nat) -> Result<(), ErrorView> {
    if end.timed_out {
        Err(
            ErrorView::Other(
                "Install of '"@ + package + "' timed out after "@ + decimal(timeout)
                    + "s — killed by uvr (#52). Override with `--timeout <duration>` or `UVR_INSTALL_TIMEOUT=<duration>` (e.g. 1h)."@,
            ),
        )
    } else if end.success {
        Ok(())
    } else {
        let code = match end.code {
            Some(c) => c,
            None => -1i32,
        };
        Err(
            ErrorView::Other(
                "R CMD INSTALL failed for '"@ + package + "' (exit "@ + code_text(code) + "):\n"@ + combined(
                    end.stdout@,
                    end.stderr@,
                ),
            ),
        )
    }
}

/// What is made of how a build ended; see [`build_verdict`].
pub fn judge_build(end: &BuildEnd, package_name: &str, timeout: u64) -> (r: Result<(), UvrError>)
    ensures
        match r {
            Ok(_) => build_verdict(*end, package_name@, timeout as nat) is Ok,
            Err(e) => build_verdict(*end, package_name@, timeout as nat) == Err::<(), ErrorView>(e@),
        },
{
    if end.timed_out {
        return Err(
            UvrError::Other(
                "Install of '".to_owned().concat(package_name).concat("' timed out after ").concat(
                    decimal_string(timeout).as_str(),
                ).concat(
                    "s — killed by uvr (#52). Override with `--timeout <duration>` or `UVR_INSTALL_TIMEOUT=<duration>` (e.g. 1h).",
                ),
            ),
        );
    }
    if end.success {
        return Ok(());
    }
    let code: i32 = match end.code {
        Some(c) => c,
        None => -1,
    };
    Err(
        UvrError::Other(
            "R CMD INSTALL failed for '".to_owned().concat(package_name).concat("' (exit ").concat(
                code_string(code).as_str(),
            ).concat("):\n").concat(combine_logs(end.stdout.as_str(), end.stderr.as_str()).as_str()),
        ),
    )
}

/// A variable of the environment and its value.
pub type EnvVar = (String, String);

/// A variable of the environment and its value, as mathematical values.
pub type VarView = (Seq<char>, Seq<char>);

pub open spec fn var_views(v: Seq<EnvVar>) -> Seq<VarView> {
    v.map_values(|p: EnvVar| (p.0@, p.1@))
}

fn push_var(vars: &mut Vec<EnvVar>, name: &str, value: String)
    ensures
        var_views(final(vars)@) == var_views(old(vars)@).push((name@, value@)),
{
    let ghost before = vars@;
    vars.push((name.to_owned(), value));
    assert(var_views(vars@) == var_views(before).push((name@, value@)));
}

/// A directory of Rtools that was looked for.
#[derive(Debug, PartialEq, Eq)]
pub struct RtoolsDir {
    pub exists: bool,
    /// Its directories of programs, where they are there.
    pub usr_bin: Option<String>,
    pub mingw_bin: Option<String>,
}

/// What a build is told by the machine and the environment it runs in.
#[derive(Debug)]
pub struct BuildHost {
    pub windows: bool,
    pub macos: bool,
    pub arm64: bool,
    /// The directories of Rtools that were looked for, in order.
    pub rtools: Vec<RtoolsDir>,
    /// The profile that loads the OpenMP runtime, where R needs it.
    pub site_profile: Option<String>,
    /// The library of R is in the directory of its libraries.
    pub libr_present: bool,
    pub path: Option<String>,
    pub ld_library_path: Option<String>,
    pub dyld_library_path: Option<String>,
    pub r_ld_library_path: Option<String>,
    pub r_profile: Option<String>,
}

/// The places where Rtools is looked for: those that the environment names, then those
/// where it is installed by default.
pub fn rtools_candidates(v45: Option<&str>, v44: Option<&str>, v43: Option<&str>) -> (r: Vec<String>)
    ensures
        views(r@) == (match opt_str(v45) {
            Some(d) => seq![d],
            None => seq![],
        }) + (match opt_str(v44) {
            Some(d) => seq![d],
            None => seq![],
        }) + (match opt_str(v43) {
            Some(d) => seq![d],
            None => seq![],
        }) + seq!["C:\\rtools45"@, "C:\\rtools44"@, "C:\\rtools43"@],
{
    let mut v: Vec<String> = Vec::new();
    assert(views(v@) == Seq::<Seq<char>>::empty());
    if let Some(d) = v45 {
        v.push(d.to_owned());
    }
    let ghost a = views(v@);
    assert(a == (match opt_str(v45) {
        Some(d) => seq![d],
        None => seq![],
    }));
    if let Some(d) = v44 {
        v.push(d.to_owned());
    }
    let ghost b = views(v@);
    assert(b == a + (match opt_str(v44) {
        Some(d) => seq![d],
        None => seq![],
    }));
    if let Some(d) = v43 {
        v.push(d.to_owned());
    }
    let ghost c = views(v@);
    assert(c == b + (match opt_str(v43) {
        Some(d) => seq![d],
        None => seq![],
    }));
    v.push("C:\\rtools45".to_owned());
    v.push("C:\\rtools44".to_owned());
    v.push("C:\\rtools43".to_owned());
    assert(views(v@) == c + seq!["C:\\rtools45"@, "C:\\rtools44"@, "C:\\rtools43"@]);
    v
}

/// A directory as the start of a list that is separated by semicolons.
pub open spec fn list_start(dir: Option<Seq<char>>) -> Seq<char> {
    match dir {
        Some(d) => d + ";"@,
        None => seq![],
    }
}

/// The directories of programs of the first Rtools from position `i` on that is there.
pub open spec fn rtools_path(dirs: Seq<RtoolsDir>, i: int) -> Seq<char>
    decreases dirs.len() - i,
{
    if i >= dirs.len() {
        seq![]
    } else if dirs[i].exists {
        list_start(opt_view(dirs[i].usr_bin)) + list_start(opt_view(dirs[i].mingw_bin))
    } else {
        rtools_path(dirs, i + 1)
    }
}

fn push_list(s: String, dir: &Option<String>) -> (r: String)
    ensures
        r@ == s@ + list_start(opt_view(*dir)),
{
    match dir {
        Some(d) => {
            let r = s.concat(d.as_str()).concat(";");
            assert(r@ == s@ + (d@ + ";"@));
            r
        },
        None => {
            assert(s@ == s@ + Seq::<char>::empty());
            s
        },
    }
}

fn rtools_list(dirs: &Vec<RtoolsDir>) -> (r: String)
    ensures
        r@ == rtools_path(dirs@, 0),
{
    let mut i: usize = 0;
    while i < dirs.len()
        invariant
            i <= dirs@.len(),
            rtools_path(dirs@, 0) == rtools_path(dirs@, i as int),
        decreases dirs@.len() - i,
    {
        if dirs[i].exists {
            let s = push_list(String::new(), &dirs[i].usr_bin);
            let t = push_list(s, &dirs[i].mingw_bin);
            assert(t@ == list_start(opt_view(dirs@[i as int].usr_bin)) + list_start(opt_view(dirs@[i as int].mingw_bin)));
            return t;
        }
        i += 1;
    }
    String::new()
}

/// A directory in front of a list of directories that is separated by colons. An empty
/// list adds nothing, not even a separator.
pub open spec fn in_front(dir: Seq<char>, list: Option<Seq<char>>) -> Seq<char> {
    match list {
        Some(l) => if l.len() > 0 {
            dir + ":"@ + l
        } else {
            dir
        },
        None => dir,
    }
}

fn put_in_front(dir: &str, list: &Option<String>) -> (r: String)
    ensures
        r@ == in_front(dir@, opt_view(*list)),
{
    match list {
        Some(l) => {
            let cs = chars_of(l.as_str());
            if cs.len() > 0 {
                dir.to_owned().concat(":").concat(l.as_str())
            } else {
                dir.to_owned()
            }
        },
        None => dir.to_owned(),
    }
}

/// The directory of the libraries of an R, from the path of its program.
pub open spec fn is_lib_dir(binary: Seq<char>, windows: bool, lib: Seq<char>) -> bool {
    exists|home: Option<Seq<char>>|
        #[trigger] is_home(binary, home) && lib == (match home {
            Some(h) => joined_on(windows, h, "lib"@),
            None => seq![],
        })
}

/// The directory of the libraries of an R; see [`is_lib_dir`].
pub fn r_lib_dir_of(binary: &str, windows: bool) -> (r: String)
    ensures
        is_lib_dir(binary@, windows, r@),
{
    let home = home_of(binary);
    assert(is_home(binary@, opt_view(home)));
    match home {
        Some(h) => join_on(windows, h.as_str(), "lib"),
        None => String::new(),
    }
}

/// The libraries of an R are beside the directory of its program.
pub proof fn libraries_are_beside_the_program(
    home: Seq<char>,
    dir: Seq<char>,
    name: Seq<char>,
    windows: bool,
    lib: Seq<char>,
)
    requires
        plain_dir(home),
        plain_name(dir),
        plain_name(name),
        is_lib_dir(child(child(home, dir), name), windows, lib),
    ensures
        lib == home + (if windows {
            "\\"@
        } else {
            "/"@
        }) + "lib"@,
{
    reveal_strlit("/");
    reveal_strlit("lib");
    let binary = child(child(home, dir), name);
    let found = choose|found: Option<Seq<char>>|
        #[trigger] is_home(binary, found) && lib == (match found {
            Some(h) => joined_on(windows, h, "lib"@),
            None => seq![],
        });
    home_is_two_names_up(home, dir, name, found);
    if crate::text::ends_with(home, "/"@) {
        assert(home.skip(home.len() - 1)[0] == '/');
        assert(false);
    }
    if crate::text::starts_with("lib"@, "/"@) {
        assert("lib"@.subrange(0, 1)[0] == 'l');
        assert(false);
    }
    assert(slashed(home, true) =~= home) by {
        assert forall|i: int| 0 <= i < home.len() implies slashed(home, true)[i] == home[i] by {
            assert(home.contains(home[i]));
        }
    }
    assert(slashed("lib"@, true) =~= "lib"@);
    assert(!has_drive(home)) by {
        if has_drive(home) {
            assert(home.contains(home[1]));
        }
    }
}

/// The variables that make R read the profile of this tool, where it needs to.
pub open spec fn profile_vars(h: BuildHost) -> Seq<VarView> {
    match h.site_profile {
        Some(p) => seq![
            ("R_PROFILE"@, p@),
            (ORIG_SITE_PROFILE_VAR@, original_profile(p@, opt_view(h.r_profile), h.windows)),
        ],
        None => seq![],
    }
}

/// The variables that a build on Windows gets: the programs of Rtools are found.
pub open spec fn windows_vars(h: BuildHost) -> Seq<VarView> {
    let tools = rtools_path(h.rtools@, 0);
    if tools.len() > 0 {
        seq![
            (
                "PATH"@,
                tools + (match opt_view(h.path) {
                    Some(p) => p,
                    None => seq![],
                }),
            ),
        ]
    } else {
        seq![]
    }
}

/// The variables that a build elsewhere gets: the libraries of R and its programs are
/// found first, and what the environment names stays behind them.
pub open spec fn unix_vars(h: BuildHost, lib: Seq<char>, bin: Option<Seq<char>>) -> Seq<VarView> {
    seq![
        ("DYLD_LIBRARY_PATH"@, in_front(lib, opt_view(h.dyld_library_path))),
        ("LD_LIBRARY_PATH"@, in_front(lib, opt_view(h.ld_library_path))),
    ] + (if h.libr_present {
        seq![("R_LD_LIBRARY_PATH"@, in_front(lib, opt_view(h.r_ld_library_path)))]
    } else {
        seq![]
    }) + (match bin {
        Some(b) => seq![("PATH"@, in_front(b, opt_view(h.path)))],
        None => seq![],
    }) + (if h.macos {
        let brew = if h.arm64 {
            "/opt/homebrew"@
        } else {
            "/usr/local"@
        };
        seq![
            ("PKG_CONFIG_PATH"@, brew + "/lib/pkgconfig"@),
            ("LDFLAGS"@, "-L"@ + brew + "/lib"@),
            ("CPPFLAGS"@, "-I"@ + brew + "/include"@),
        ]
    } else {
        seq![]
    })
}

/// The variables that a build gets. The profile of the user is not read, so that it
/// cannot stop the build.
pub open spec fn build_vars(h: BuildHost, lib: Seq<char>, bin: Option<Seq<char>>) -> Seq<VarView> {
    seq![
        (
            "R_PROFILE_USER"@,
            if h.windows {
                "NUL"@
            } else {
                "/dev/null"@
            },
        ),
    ] + profile_vars(h) + (if h.windows {
        windows_vars(h)
    } else {
        unix_vars(h, lib, bin)
    })
}

/// The variables that a build elsewhere than on Windows gets, the directories of R being
/// known; see [`unix_vars`].
pub fn unix_build_vars(host: &BuildHost, r_lib_dir: &str, r_bin_dir: Option<&str>) -> (r: Vec<EnvVar>)
    ensures
        var_views(r@) == unix_vars(*host, r_lib_dir@, opt_str(r_bin_dir)),
{
    let mut vars: Vec<EnvVar> = Vec::new();
    assert(var_views(vars@) == Seq::<VarView>::empty());
    push_var(&mut vars, "DYLD_LIBRARY_PATH", put_in_front(r_lib_dir, &host.dyld_library_path));
    push_var(&mut vars, "LD_LIBRARY_PATH", put_in_front(r_lib_dir, &host.ld_library_path));
    let ghost a = var_views(vars@);
    assert(a == seq![
        ("DYLD_LIBRARY_PATH"@, in_front(r_lib_dir@, opt_view(host.dyld_library_path))),
        ("LD_LIBRARY_PATH"@, in_front(r_lib_dir@, opt_view(host.ld_library_path))),
    ]);
    if host.libr_present {
        push_var(&mut vars, "R_LD_LIBRARY_PATH", put_in_front(r_lib_dir, &host.r_ld_library_path));
    }
    let ghost b = var_views(vars@);
    assert(b == a + (if host.libr_present {
        seq![("R_LD_LIBRARY_PATH"@, in_front(r_lib_dir@, opt_view(host.r_ld_library_path)))]
    } else {
        seq![]
    }));
    if let Some(bin) = r_bin_dir {
        push_var(&mut vars, "PATH", put_in_front(bin, &host.path));
    }
    let ghost c = var_views(vars@);
    assert(c == b + (match opt_str(r_bin_dir) {
        Some(d) => seq![("PATH"@, in_front(d, opt_view(host.path)))],
        None => seq![],
    }));
    if host.macos {
        let brew = if host.arm64 {
            "/opt/homebrew"
        } else {
            "/usr/local"
        };
        push_var(&mut vars, "PKG_CONFIG_PATH", brew.to_owned().concat("/lib/pkgconfig"));
        push_var(&mut vars, "LDFLAGS", "-L".to_owned().concat(brew).concat("/lib"));
        push_var(&mut vars, "CPPFLAGS", "-I".to_owned().concat(brew).concat("/include"));
        assert(var_views(vars@) == c + seq![
            ("PKG_CONFIG_PATH"@, brew@ + "/lib/pkgconfig"@),
            ("LDFLAGS"@, "-L"@ + brew@ + "/lib"@),
            ("CPPFLAGS"@, "-I"@ + brew@ + "/include"@),
        ]);
    } else {
        assert(c == c + Seq::<VarView>::empty());
    }
    vars
}

fn windows_build_vars(host: &BuildHost) -> (r: Vec<EnvVar>)
    ensures
        var_views(r@) == windows_vars(*host),
{
    let mut vars: Vec<EnvVar> = Vec::new();
    assert(var_views(vars@) == Seq::<VarView>::empty());
    let tools = rtools_list(&host.rtools);
    let cs = chars_of(tools.as_str());
    if cs.len() > 0 {
        let value = match &host.path {
            Some(p) => tools.concat(p.as_str()),
            None => {
                assert(tools@ == tools@ + Seq::<char>::empty());
                tools
            },
        };
        push_var(&mut vars, "PATH", value);
        assert(var_views(vars@) == windows_vars(*host));
    }
    vars
}

fn append_vars(vars: &mut Vec<EnvVar>, more: Vec<EnvVar>)
    ensures
        var_views(final(vars)@) == var_views(old(vars)@) + var_views(more@),
{
    let ghost before = vars@;
    let mut more = more;
    let ghost added = more@;
    vars.append(&mut more);
    assert(var_views(vars@) == var_views(before) + var_views(added));
}

/// The program, the arguments and the variables with which a package is built.
#[derive(Debug, PartialEq, Eq)]
pub struct BuildCommand {
    pub program: String,
    pub args: Vec<String>,
    pub vars: Vec<EnvVar>,
}

/// Building packages with one R.
#[derive(Debug, PartialEq, Eq)]
pub struct RCmdInstall {
    pub r_binary: String,
}

impl RCmdInstall {
    /// Building packages with the R whose program is given.
    pub fn new(r_binary: &str) -> (r: Self)
        ensures
            r.r_binary@ == r_binary@,
    {
        RCmdInstall { r_binary: r_binary.to_owned() }
    }

    /// How the package in an archive is built into a library.
    pub fn build_cmd(&self, tarball: &str, library: &str, host: &BuildHost) -> (r: BuildCommand)
        ensures
            r.program@ == self.r_binary@,
            views(r.args@) == seq![
                "CMD"@,
                "INSTALL"@,
                "--library="@ + library@,
                "--no-test-load"@,
                "--no-staged-install"@,
                tarball@,
            ],
            exists|lib: Seq<char>, bin: Option<Seq<char>>|
                #[trigger] is_lib_dir(self.r_binary@, host.windows, lib) && #[trigger] is_parent(self.r_binary@, bin)
                    && var_views(r.vars@) == build_vars(*host, lib, bin),
    {
        let mut args: Vec<String> = Vec::new();
        args.push("CMD".to_owned());
        args.push("INSTALL".to_owned());
        args.push("--library=".to_owned().concat(library));
        args.push("--no-test-load".to_owned());
        args.push("--no-staged-install".to_owned());
        args.push(tarball.to_owned());
        assert(views(args@) == seq![
            "CMD"@,
            "INSTALL"@,
            "--library="@ + library@,
            "--no-test-load"@,
            "--no-staged-install"@,
            tarball@,
        ]);
        let mut vars: Vec<EnvVar> = Vec::new();
        assert(var_views(vars@) == Seq::<VarView>::empty());
        let null_device = if host.windows {
            "NUL"
        } else {
            "/dev/null"
        };
        push_var(&mut vars, "R_PROFILE_USER", null_device.to_owned());
        let ghost a = var_views(vars@);
        assert(a == seq![("R_PROFILE_USER"@, null_device@)]);
        if let Some(profile) = &host.site_profile {
            let given = match &host.r_profile {
                Some(p) => Some(p.as_str()),
                None => None,
            };
            let pairs = site_profile_env(profile.as_str(), given, host.windows);
            push_var(&mut vars, pairs[0].0, pairs[0].1.as_str().to_owned());
            push_var(&mut vars, pairs[1].0, pairs[1].1.as_str().to_owned());
        }
        assert(var_views(vars@) == a + profile_vars(*host));
        let lib = r_lib_dir_of(self.r_binary.as_str(), host.windows);
        let bin = parent_of(self.r_binary.as_str());
        if host.windows {
            append_vars(&mut vars, windows_build_vars(host));
        } else {
            let bin_dir = match &bin {
                Some(b) => Some(b.as_str()),
                None => None,
            };
            append_vars(&mut vars, unix_build_vars(host, lib.as_str(), bin_dir));
        }
        assert(is_lib_dir(self.r_binary@, host.windows, lib@) && is_parent(self.r_binary@, opt_view(bin)));
        assert(var_views(vars@) == build_vars(*host, lib@, opt_view(bin)));
        BuildCommand { program: self.r_binary.as_str().to_owned(), args, vars }
    }
}

/// What the environment names for a list of directories stays in it, behind the
/// directory of R, and no empty entry comes in.
pub proof fn inherited_directories_stay(dir: Seq<char>, list: Seq<char>)
    ensures
        ({
            let r = in_front(dir, Some(list));
            &&& r.len() >= list.len()
            &&& r.subrange(r.len() - list.len(), r.len() as int) == list || list.len() == 0
            &&& list.len() == 0 ==> r == dir
        }),
{
    let r = in_front(dir, Some(list));
    if list.len() > 0 {
        assert(r.subrange(r.len() - list.len(), r.len() as int) =~= list);
    }
}

} // verus!
