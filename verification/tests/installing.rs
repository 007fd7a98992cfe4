//! Downloads, builds, the cache of built packages and archives.
use flate2::write::GzEncoder;
use flate2::Compression;
use uvr_core::checksum::{md5_hex_digest, sha256_hex, sha256_hex_digest};
use uvr_core::error::UvrError;
use uvr_core::installer::binary_install::{
    after_failed_move, after_failed_removal, archive_kind, built_in_entries, check_r_entry, check_staged, detect_built_from_tarball, entry_leads_out,
    libr_changes, ArchiveKind, MoveStep, TarEntry,
};
use uvr_core::installer::download::{
    after_first, cache_file_name, cran_archive_url, download_step, judge_copy, judge_download, judge_received, AfterFirst,
    CopyVerdict, DownloadAction, DownloadEvent, DownloadJob, DownloadPhase, DownloadSpec,
};
use uvr_core::installer::package_cache::{
    cache_key, entry_dir, lookup, lookup_any, package_name_from_key, place_is_occupied,
    published_entry_is_equivalent, store_step, Artifact, EntryMeta, StoreAction, StoreEvent, StorePhase,
};
use uvr_core::installer::r_cmd_install::{
    combine_logs, effective_install_timeout, judge_build, lock_dir_name, log_with_line, parse_install_timeout,
    r_lib_dir_of, rtools_candidates, shown_line, watch, BuildEnd, BuildHost, RCmdInstall, RtoolsDir, WatchAction,
    WatchPhase, DEFAULT_INSTALL_TIMEOUT,
};
use uvr_core::installer::unpack::{unpack_step, EntryPart, UnpackAction, UnpackEvent, UnpackJob, UnpackPhase};
use uvr_core::lockfile::{LockedPackage, PackageSource};
use uvr_core::paths::{join_on, same_path};

#[test]
fn archive_url_rewrites_cran_src_contrib() {
    assert_eq!(
        cran_archive_url("https://cran.r-project.org/src/contrib/curl_7.0.0.tar.gz").as_deref(),
        Some("https://cran.r-project.org/src/contrib/Archive/curl/curl_7.0.0.tar.gz")
    );
}

#[test]
fn archive_url_handles_cran_mirror() {
    assert_eq!(
        cran_archive_url("https://cloud.r-project.org/src/contrib/xml2_1.3.6.tar.gz").as_deref(),
        Some("https://cloud.r-project.org/src/contrib/Archive/xml2/xml2_1.3.6.tar.gz")
    );
}

#[test]
fn archive_url_handles_dotted_version() {
    assert_eq!(
        cran_archive_url("https://cran.r-project.org/src/contrib/scales_1.1-3.tar.gz").as_deref(),
        Some("https://cran.r-project.org/src/contrib/Archive/scales/scales_1.1-3.tar.gz")
    );
}

#[test]
fn archive_url_none_for_non_cran() {
    assert_eq!(
        cran_archive_url("https://bioconductor.org/packages/3.18/bioc/src/contrib/DESeq2_1.42.0.tar.gz"),
        Some(
            "https://bioconductor.org/packages/3.18/bioc/src/contrib/Archive/DESeq2/DESeq2_1.42.0.tar.gz"
                .to_string()
        )
    );
}

#[test]
fn archive_url_none_if_already_archive() {
    assert_eq!(
        cran_archive_url("https://cran.r-project.org/src/contrib/Archive/curl/curl_7.0.0.tar.gz"),
        None
    );
}

#[test]
fn archive_url_none_for_unrelated_url() {
    assert_eq!(cran_archive_url("https://example.com/foo.tar.gz"), None);
    assert_eq!(
        cran_archive_url("https://p3m.dev/cran/latest/bin/macosx/big-sur-arm64/contrib/4.5/ggplot2_3.5.1.tgz"),
        None
    );
}

#[test]
fn archive_url_none_for_non_tar_gz() {
    assert_eq!(cran_archive_url("https://cran.r-project.org/src/contrib/PACKAGES.gz"), None);
}

fn package(checksum: Option<&str>) -> LockedPackage {
    LockedPackage {
        name: "curl".to_string(),
        version: "7.0.0".to_string(),
        source: PackageSource::Cran,
        raw_version: None,
        url: None,
        checksum: checksum.map(str::to_string),
        requires: Vec::new(),
        system_requirements: None,
    }
}

#[test]
fn binary_is_tried_before_source() {
    let pkg = package(Some("sha256:abc"));
    let spec = DownloadSpec {
        pkg: &pkg,
        url: "https://bin/curl.tgz",
        fallback_url: Some("https://src/curl.tar.gz"),
        is_binary: true,
        user_agent: Some("R (4.4)"),
    };
    let first = spec.first_attempt();
    assert_eq!(first.url, "https://bin/curl.tgz");
    assert!(first.is_binary);
    let second = spec.second_attempt().unwrap();
    assert_eq!(second.url, "https://src/curl.tar.gz");
    assert!(!second.is_binary);
    assert_eq!(second.checksum.as_deref(), Some("sha256:abc"));
}

fn job(url: &str, checksum: Option<&str>) -> DownloadJob {
    let pkg = package(checksum);
    let spec = DownloadSpec { pkg: &pkg, url, fallback_url: None, is_binary: false, user_agent: None };
    DownloadJob { name: "curl".to_string(), attempt: spec.first_attempt(), dest: "/cache/curl.tar.gz".to_string() }
}

#[test]
fn archive_is_asked_after_the_address_itself() {
    let url = "https://cran.r-project.org/src/contrib/curl_7.0.0.tar.gz";
    let job = job(url, None);
    let none = DownloadEvent::Copy { there: false, sidecar: None };
    let (phase, action) = download_step(&job, DownloadPhase::Looking, none);
    assert_eq!(action, DownloadAction::Ask { url: url.to_string(), remove_copy: false, remove_sidecar: false });
    let (phase, action) = download_step(&job, phase, DownloadEvent::Refused { reason: "404".to_string() });
    assert_eq!(
        action,
        DownloadAction::Ask {
            url: "https://cran.r-project.org/src/contrib/Archive/curl/curl_7.0.0.tar.gz".to_string(),
            remove_copy: false,
            remove_sidecar: false,
        }
    );
    let (_, action) = download_step(&job, phase, DownloadEvent::Refused { reason: "404".to_string() });
    assert_eq!(action, DownloadAction::Fail(UvrError::Network("404".to_string())));
}

#[test]
fn copies_are_held_against_the_lock_file() {
    let data = b"package data".to_vec();
    let good = sha256_hex(&data);
    let job = job("https://example.com/curl.tar.gz", Some(&good));
    let there = || DownloadEvent::Copy { there: true, sidecar: None };
    let (phase, action) = download_step(&job, DownloadPhase::Looking, there());
    assert_eq!(action, DownloadAction::ReadCopy);
    let (_, action) = download_step(&job, phase, DownloadEvent::CopyRead(data));
    assert_eq!(action, DownloadAction::UseCopy);
    let (phase, _) = download_step(&job, DownloadPhase::Looking, there());
    let (phase, action) = download_step(&job, phase, DownloadEvent::CopyRead(b"rotten".to_vec()));
    assert!(matches!(action, DownloadAction::Ask { remove_copy: true, remove_sidecar: false, .. }));
    let (phase, action) = download_step(&job, phase, DownloadEvent::Answered);
    assert_eq!(action, DownloadAction::Receive);
    let wrong = DownloadEvent::Received(b"other data".to_vec());
    let (_, action) = download_step(&job, phase, wrong);
    assert!(matches!(action, DownloadAction::Fail(UvrError::ChecksumMismatch { .. })));
}

#[test]
fn commits_leave_a_checksum_beside_the_copy() {
    let job = job("https://api.github.com/repos/u/r/tarball/abc", Some("git:abc"));
    let (_, action) = download_step(
        &job,
        DownloadPhase::Receiving,
        DownloadEvent::Received(b"package".to_vec()),
    );
    let kept = format!("sha256:{}", sha256_hex_digest(b"package"));
    assert_eq!(action, DownloadAction::Move { sidecar: Some(kept) });
    let (_, action) =
        download_step(&job, DownloadPhase::Moving, DownloadEvent::NotMoved { reason: "full".to_string() });
    assert_eq!(
        action,
        DownloadAction::Fail(UvrError::Other(
            "Failed to persist download to /cache/curl.tar.gz: full".to_string()
        ))
    );
}

#[test]
fn names_of_downloaded_files() {
    let name = cache_file_name("https://cran.r-project.org/src/contrib/curl_7.0.0.tar.gz", "curl", "7.0.0");
    assert!(name.contains("curl"));
    assert!(name.ends_with(".tar.gz"));
}

#[test]
fn copies_are_judged_by_their_checksum() {
    let data = b"package data";
    let good = sha256_hex(data);
    assert!(matches!(judge_copy(Some(&good), None, data, "curl"), CopyVerdict::Use));
    assert!(!matches!(judge_copy(Some(&good), None, b"other data", "curl"), CopyVerdict::Use));
}

#[test]
fn accepted_download_is_accepted_as_copy() {
    let data = b"package data";
    let sha = sha256_hex_digest(data);
    let md5 = md5_hex_digest(data);
    let expected = format!("sha256:{sha}");
    assert!(judge_download(Some(&expected), &sha, &md5, "curl").is_ok());
    assert!(matches!(judge_copy(Some(&expected), None, data, "curl"), CopyVerdict::Use));
    let wrong = format!("sha256:{}", sha256_hex_digest(b"other"));
    assert!(judge_download(Some(&wrong), &sha, &md5, "curl").is_err());
    let by_md5 = format!("md5:{md5}");
    assert!(judge_download(Some(&by_md5), &sha, &md5, "curl").is_ok());
}

#[test]
fn what_was_received_is_judged_by_its_digests() {
    let abc = "sha256:ba7816bf8f01cfea414140de5dae2223b00361a396177a9cb410ff61f20015ad";
    assert_eq!(judge_received(Some(abc), b"abc", "curl"), Ok(None));
    assert_eq!(judge_received(Some("md5:900150983cd24fb0d6963f7d28e17f72"), b"abc", "curl"), Ok(None));
    assert_eq!(judge_received(Some("git:1234"), b"abc", "curl"), Ok(Some(abc.to_string())));
    assert_eq!(judge_received(None, b"abc", "curl"), Ok(None));
    match judge_received(Some(abc), b"abd", "curl") {
        Err(UvrError::ChecksumMismatch { package, expected, .. }) => {
            assert_eq!(package, "curl");
            assert_eq!(expected, abc);
        }
        other => panic!("other data: {other:?}"),
    }
    let job = job("https://src/curl.tar.gz", Some(abc));
    let (_, action) = download_step(&job, DownloadPhase::Receiving, DownloadEvent::Received(b"abc".to_vec()));
    assert_eq!(action, DownloadAction::Move { sidecar: None });
    let full = DownloadEvent::NotWritten { reason: "full".to_string() };
    let (_, action) = download_step(&job, DownloadPhase::Receiving, full);
    assert_eq!(action, DownloadAction::Fail(UvrError::Io("full".to_string())));
}

#[test]
fn the_fallback_is_tried_whenever_the_first_address_fails() {
    let pkg = package(Some("sha256:abc"));
    let source = DownloadSpec {
        pkg: &pkg,
        url: "https://a/curl.tar.gz",
        fallback_url: Some("https://b/curl.tar.gz"),
        is_binary: false,
        user_agent: Some("R (4.4)"),
    };
    let first = source.first_attempt();
    assert_eq!(first.checksum.as_deref(), Some("sha256:abc"));
    let lost = || Err(UvrError::Network("down".to_string()));
    match after_first(&first, source.second_attempt(), lost()) {
        AfterFirst::Again(second) => {
            assert_eq!(second.url, "https://b/curl.tar.gz");
            assert_eq!(second.checksum.as_deref(), Some("sha256:abc"));
            assert_eq!(second.user_agent, None);
            let result = second.brought("/cache/curl.tar.gz".to_string());
            assert!(!result.used_binary);
            assert_eq!(result.path, "/cache/curl.tar.gz");
        }
        other => panic!("the fallback was not tried: {other:?}"),
    }
    assert_eq!(after_first(&first, None, lost()), AfterFirst::Failed(UvrError::Network("down".to_string())));
    match after_first(&first, source.second_attempt(), Ok("/cache/a".to_string())) {
        AfterFirst::Done(result) => assert_eq!(result.path, "/cache/a"),
        other => panic!("the package is there: {other:?}"),
    }
}

#[test]
fn combine_logs_prefers_non_empty_single_stream() {
    assert_eq!(combine_logs("", "boom"), "boom");
    assert_eq!(combine_logs("progress", ""), "progress");
    assert_eq!(combine_logs("", ""), "");
}

#[test]
fn combine_logs_merges_both_streams() {
    let log = combine_logs(
        "** byte-compile...\nERROR: lazy loading failed",
        "Error in loadNamespace(x) : there is no package called 'foo'",
    );
    assert!(log.contains("ERROR: lazy loading failed"));
    assert!(log.contains("there is no package called 'foo'"));
}

#[test]
fn parse_seconds_default() {
    assert_eq!(parse_install_timeout("90"), Some(90));
    assert_eq!(parse_install_timeout("90s"), Some(90));
    assert_eq!(parse_install_timeout("90 sec"), Some(90));
}

#[test]
fn parse_minutes() {
    assert_eq!(parse_install_timeout("30m"), Some(1800));
    assert_eq!(parse_install_timeout("30 min"), Some(1800));
}

#[test]
fn parse_hours() {
    assert_eq!(parse_install_timeout("2h"), Some(7200));
    assert_eq!(parse_install_timeout("1 hour"), Some(3600));
}

#[test]
fn parse_invalid_returns_none() {
    assert!(parse_install_timeout("").is_none());
    assert!(parse_install_timeout("nope").is_none());
    assert!(parse_install_timeout("30x").is_none());
    assert!(parse_install_timeout("-5m").is_none());
}

#[test]
fn effective_prefers_explicit() {
    let d = effective_install_timeout(Some(42), None);
    assert_eq!(d, 42);
}

#[test]
fn effective_default_when_none() {
    let d = effective_install_timeout(None, None);
    assert_eq!(d, DEFAULT_INSTALL_TIMEOUT);
}

#[test]
fn effective_reads_the_environment() {
    assert_eq!(effective_install_timeout(None, Some("5m")), 300);
    assert_eq!(effective_install_timeout(None, Some("junk")), DEFAULT_INSTALL_TIMEOUT);
}

#[test]
fn lock_directories_have_names() {
    assert_eq!(lock_dir_name("foo"), "00LOCK-foo");
}

#[test]
fn overdue_builds_are_stopped() {
    assert!(matches!(watch(WatchPhase::Building, true, 0, 1000), WatchAction::Leave));
    assert!(matches!(watch(WatchPhase::Building, false, 5000, 1000), WatchAction::AskToStop));
    assert!(matches!(watch(WatchPhase::Building, false, 10, 1000), WatchAction::LookAgain(_)));
    assert!(matches!(watch(WatchPhase::Stopping, true, 0, 1000), WatchAction::Leave));
    assert!(matches!(watch(WatchPhase::Stopping, false, 60000, 1000), WatchAction::Kill));
}

#[test]
fn lines_are_collected_and_shown() {
    let log = log_with_line(String::new(), "first");
    let log = log_with_line(log, "second");
    assert!(log.contains("first") && log.contains("second"));
    assert!(log.find("first").unwrap() < log.find("second").unwrap());
    assert_eq!(shown_line("   "), None);
}

#[test]
fn builds_are_judged_by_their_end() {
    let end = |timed_out: bool, success: bool, code: Option<i32>| BuildEnd {
        timed_out,
        success,
        code,
        stdout: "out".to_string(),
        stderr: "err".to_string(),
    };
    assert!(judge_build(&end(false, true, Some(0)), "fake", 2).is_ok());
    assert!(judge_build(&end(false, false, Some(1)), "fake", 2).is_err());
    let msg = format!("{:?}", judge_build(&end(true, false, None), "fake", 2).unwrap_err());
    assert!(msg.contains("timed out"), "unexpected error: {msg}");
}

fn host() -> BuildHost {
    BuildHost {
        windows: false,
        macos: false,
        arm64: false,
        rtools: Vec::new(),
        site_profile: None,
        libr_present: false,
        path: Some("/usr/bin".to_string()),
        ld_library_path: Some("/apps/blas/lib".to_string()),
        dyld_library_path: None,
        r_ld_library_path: None,
        r_profile: None,
    }
}

#[test]
fn build_command_names_library_and_tarball() {
    let cmd = RCmdInstall::new("/opt/R/4.4.2/bin/R").build_cmd("/tmp/curl_7.0.0.tar.gz", "/proj/.uvr/library", &host());
    assert_eq!(cmd.program, "/opt/R/4.4.2/bin/R");
    assert!(cmd.args.iter().any(|a| a == "INSTALL"));
    assert!(cmd.args.iter().any(|a| a.contains("/proj/.uvr/library")));
    assert_eq!(cmd.args.last().map(String::as_str), Some("/tmp/curl_7.0.0.tar.gz"));
    let ld = cmd.vars.iter().find(|(k, _)| k == "LD_LIBRARY_PATH").map(|(_, v)| v.clone()).unwrap();
    assert!(ld.ends_with("/apps/blas/lib"), "inherited directories stay: {ld}");
}

#[test]
fn rtools_are_put_on_the_path() {
    let mut h = host();
    h.windows = true;
    h.rtools = vec![RtoolsDir {
        exists: true,
        usr_bin: Some("C:\\rtools44\\usr\\bin".to_string()),
        mingw_bin: None,
    }];
    let cmd = RCmdInstall::new("C:\\R\\bin\\R.exe").build_cmd("a.tar.gz", "lib", &h);
    let path = cmd.vars.iter().find(|(k, _)| k.eq_ignore_ascii_case("PATH")).map(|(_, v)| v.clone()).unwrap();
    assert!(path.starts_with("C:\\rtools44\\usr\\bin"));
    assert!(rtools_candidates(Some("D:\\rt45"), None, None).iter().any(|c| c == "D:\\rt45"));
    assert_eq!(r_lib_dir_of("/opt/R/4.4.2/bin/R", false), "/opt/R/4.4.2/lib");
}

fn artifact<'a>(
    name: &'a str,
    version: &'a str,
    checksum: Option<&'a str>,
    r_minor: &'a str,
    libr_path: Option<&'a str>,
    binary_flavor: Option<&'a str>,
) -> Artifact<'a> {
    Artifact { name, version, checksum, r_minor, libr_path, binary_flavor, host: "x86_64-unknown-linux-gnu" }
}

#[test]
fn cache_key_deterministic() {
    let k1 = cache_key(&artifact("ggplot2", "3.5.1", Some("abc123"), "4.4", None, None), true);
    let k2 = cache_key(&artifact("ggplot2", "3.5.1", Some("abc123"), "4.4", None, None), true);
    assert_eq!(k1, k2);
    assert!(k1.starts_with("ggplot2-3.5.1-"));
    assert_eq!(k1.len(), "ggplot2-3.5.1-".len() + 32);
}

#[test]
fn cache_key_differs_by_r_version() {
    let k1 = cache_key(&artifact("pkg", "1.0", Some("abc"), "4.4", None, None), true);
    let k2 = cache_key(&artifact("pkg", "1.0", Some("abc"), "4.5", None, None), true);
    assert_ne!(k1, k2);
}

#[test]
fn cache_key_differs_by_method() {
    let k1 = cache_key(&artifact("pkg", "1.0", Some("abc"), "4.4", None, None), true);
    let k2 = cache_key(&artifact("pkg", "1.0", Some("abc"), "4.4", None, None), false);
    assert_ne!(k1, k2);
}

#[test]
fn a_source_entry_ignores_the_binary_flavor() {
    assert_eq!(
        cache_key(&artifact("pkg", "1.0", Some("abc"), "4.4", None, Some("jammy")), false),
        cache_key(&artifact("pkg", "1.0", Some("abc"), "4.4", None, None), false)
    );
}

#[test]
fn cache_key_differs_by_binary_flavor() {
    let jammy = cache_key(&artifact("pkg", "1.0", Some("abc"), "4.4", None, Some("jammy")), true);
    let many = cache_key(&artifact("pkg", "1.0", Some("abc"), "4.4", None, Some("manylinux_2_28")), true);
    assert_ne!(jammy, many);
    let unflavoured = cache_key(&artifact("pkg", "1.0", Some("abc"), "4.4", None, None), true);
    assert_ne!(unflavoured, jammy);
    assert_ne!(unflavoured, many);
}

#[test]
fn cache_key_differs_by_libr_path() {
    let p1 = "/home/.uvr/r-versions/4.4.2/lib/libR.dylib";
    let p2 = "/home/.uvr/r-versions/4.4.3/lib/libR.dylib";
    let k1 = cache_key(&artifact("pkg", "1.0", Some("abc"), "4.4", Some(p1), None), true);
    let k2 = cache_key(&artifact("pkg", "1.0", Some("abc"), "4.4", Some(p2), None), true);
    assert_ne!(k1, k2);
}

#[test]
fn package_name_from_key_roundtrips_cache_key() {
    let key = cache_key(&artifact("ggplot2", "3.5.1", Some("abc123"), "4.4", None, None), true);
    assert_eq!(package_name_from_key(&key).as_deref(), Some("ggplot2"));
    let key = cache_key(&artifact("data.table", "1.15.4", Some("abc"), "4.5", None, None), false);
    assert_eq!(package_name_from_key(&key).as_deref(), Some("data.table"));
}

#[test]
fn package_name_from_key_handles_hyphenated_versions() {
    let key = cache_key(&artifact("Matrix", "1.6-5", Some("abc"), "4.4", None, None), true);
    assert_eq!(package_name_from_key(&key).as_deref(), Some("Matrix"));
}

#[test]
fn package_name_from_key_rejects_non_keys() {
    let hex32 = "0123456789abcdef0123456789abcdef";
    assert_eq!(package_name_from_key(".tmpAbC123"), None);
    assert_eq!(package_name_from_key("not-a-key"), None);
    assert_eq!(package_name_from_key("pkg-1.0-deadbeef"), None);
    assert_eq!(package_name_from_key(&format!("pkg-{hex32}")), None);
    assert_eq!(package_name_from_key(&format!("-1.0-{hex32}")), None);
    assert_eq!(package_name_from_key(&format!("pkg-1.0-{hex32}")).as_deref(), Some("pkg"));
}

#[test]
fn entry_meta_file_contents_roundtrip() {
    let meta = EntryMeta { r_minor: "4.5".to_string(), is_binary: true };
    let contents = meta.to_file_contents();
    assert_eq!(contents, "r_minor=4.5\nkind=binary\n");
    assert_eq!(EntryMeta::from_file_contents(&contents), Some(meta));

    let source = EntryMeta { r_minor: "4.4".to_string(), is_binary: false };
    assert_eq!(EntryMeta::from_file_contents(&source.to_file_contents()), Some(source));
}

#[test]
fn entry_meta_parse_tolerates_unknown_keys_and_rejects_incomplete() {
    let parsed = EntryMeta::from_file_contents("r_minor=4.5\nkind=source\nfuture_field=zap\n");
    assert_eq!(parsed, Some(EntryMeta { r_minor: "4.5".to_string(), is_binary: false }));
    assert_eq!(EntryMeta::from_file_contents("r_minor=4.5\n"), None);
    assert_eq!(EntryMeta::from_file_contents("kind=binary\n"), None);
    assert_eq!(EntryMeta::from_file_contents(""), None);
}

#[test]
fn lookup_any_finds_source_fallback() {
    let a = artifact("testpkg", "1.0", Some("cksum"), "4.5", None, None);
    let found = lookup_any("/packages", &a, true, false, true, false);
    assert_eq!(found, Some(format!("/packages/{}/testpkg", cache_key(&a, false))));
}

#[test]
fn lookup_missing() {
    let key = "fake-key-12345678901234567890123456789012";
    assert!(lookup("/packages", "nonexistent", key, false, false).is_none());
    assert_eq!(entry_dir("/packages", "nonexistent", key, false), format!("/packages/{key}/nonexistent"));
    assert_eq!(entry_dir(r"C:\packages", "nonexistent", key, true), format!(r"C:\packages\{key}\nonexistent"));
}

#[test]
fn lookup_any_refuses_a_binary_entry_when_binaries_are_unusable() {
    let a = artifact("binpkg", "1.0", Some("cksum"), "4.5", None, None);
    assert_eq!(
        lookup_any("/packages", &a, true, true, false, false),
        Some(format!("/packages/{}/binpkg", cache_key(&a, true)))
    );
    assert!(
        lookup_any("/packages", &a, false, true, false, false).is_none(),
        "a binary cache entry was served on a platform that cannot use binaries"
    );
}

#[test]
fn storing_replaces_a_broken_entry() {
    let (phase, action) =
        store_step("/cache/pkg", StorePhase::Looking, StoreEvent::Found { exists: true, equivalent: false });
    assert!(matches!(action, StoreAction::Remove));
    let (phase, action) =
        store_step("/cache/pkg", phase, StoreEvent::Removed { error: None, exists: false, equivalent: false });
    assert!(matches!(action, StoreAction::Stage));
    let (phase, action) = store_step("/cache/pkg", phase, StoreEvent::Staged { error: None });
    assert!(matches!(action, StoreAction::Publish));
    let (_, action) = store_step("/cache/pkg", phase, StoreEvent::Published);
    assert!(matches!(action, StoreAction::Done));
}

#[test]
fn store_errors_when_corrupted_entry_cannot_be_removed() {
    let (phase, _) =
        store_step("/cache/pkg", StorePhase::Looking, StoreEvent::Found { exists: true, equivalent: false });
    let (_, action) = store_step(
        "/cache/pkg",
        phase,
        StoreEvent::Removed { error: Some("denied".to_string()), exists: true, equivalent: false },
    );
    match action {
        StoreAction::Fail(message) => assert!(message.contains("/cache/pkg") && message.contains("denied")),
        _ => panic!("the entry cannot be used"),
    }
}

#[test]
fn equivalent_entries_are_kept() {
    let (_, action) =
        store_step("/cache/pkg", StorePhase::Looking, StoreEvent::Found { exists: true, equivalent: true });
    assert!(matches!(action, StoreAction::Done));
    assert!(published_entry_is_equivalent(true, true));
    assert!(!published_entry_is_equivalent(false, true));
    assert!(!published_entry_is_equivalent(true, false));
    assert!(place_is_occupied(true, None));
    assert!(!place_is_occupied(false, None));
}

fn tarball_with_description(content: &str) -> Vec<u8> {
    let mut enc = GzEncoder::new(Vec::new(), Compression::default());
    {
        let mut builder = tar::Builder::new(&mut enc);
        let bytes = content.as_bytes();
        let mut header = tar::Header::new_gnu();
        header.set_path("rlang/DESCRIPTION").unwrap();
        header.set_size(bytes.len() as u64);
        header.set_mode(0o644);
        header.set_cksum();
        builder.append(&header, bytes).unwrap();
        builder.finish().unwrap();
    }
    enc.finish().unwrap()
}

#[test]
fn detect_built_from_tarball_with_built() {
    let tarball = tarball_with_description(
        "Package: rlang\nVersion: 1.2.0\nBuilt: R 4.5.2; aarch64-unknown-linux-musl; 2025-01-15 12:00:00 UTC; unix\n",
    );
    let built = detect_built_from_tarball(&tarball, "rlang", false).unwrap();
    assert_eq!(built.r_version, "4.5.2");
    assert_eq!(built.platform, "aarch64-unknown-linux-musl");
    assert_eq!(built.os_family, "unix");
}

#[test]
fn detect_built_from_tarball_no_built_returns_none() {
    let tarball = tarball_with_description("Package: rlang\nVersion: 1.2.0\n");
    assert!(detect_built_from_tarball(&tarball, "rlang", false).is_none());
}

#[test]
fn detect_built_from_tarball_missing_package_returns_none() {
    let tarball = tarball_with_description("Package: rlang\nVersion: 1.2.0\n");
    assert!(detect_built_from_tarball(&tarball, "otherpkg", false).is_none());
    assert!(detect_built_from_tarball(b"no archive at all", "rlang", false).is_none());
}

#[test]
fn entries_that_lead_out_are_refused() {
    assert!(!entry_leads_out("rlang/R/rlang", false));
    assert!(entry_leads_out("../evil", false));
    assert!(entry_leads_out("/etc/passwd", false));
    assert!(entry_leads_out("rlang/../../evil", false));
    assert!(check_r_entry("R-4.4.2/bin/R", false).is_ok());
    assert!(check_r_entry("../../etc/passwd", false).is_err());
    assert!(check_r_entry("C:\\evil", true).is_err());
}

fn unpack_job(kind: ArchiveKind) -> UnpackJob {
    UnpackJob { kind, package_name: "rlang".to_string(), windows: false }
}

#[test]
fn archives_are_unpacked_before_they_are_moved() {
    let job = unpack_job(ArchiveKind::Tgz);
    let (phase, action) = unpack_step(&job, UnpackPhase::Opening, UnpackEvent::Opened);
    assert_eq!(action, UnpackAction::Stage);
    let (phase, action) = unpack_step(&job, phase, UnpackEvent::Staged);
    assert_eq!(action, UnpackAction::Read);
    let path = "rlang/DESCRIPTION".to_string();
    let (phase, action) = unpack_step(&job, phase, UnpackEvent::Entry { path: path.clone(), shown: path.clone() });
    assert_eq!(action, UnpackAction::Unpack { path });
    let (phase, _) = unpack_step(&job, phase, UnpackEvent::Unpacked);
    let (phase, action) = unpack_step(&job, phase, UnpackEvent::End);
    assert_eq!(action, UnpackAction::Look);
    let (phase, action) = unpack_step(&job, phase, UnpackEvent::PackageThere(true));
    assert_eq!(action, UnpackAction::Replace);
    let lost = UnpackEvent::NotMoved { raw_os_error: Some(18), reason: "Invalid cross-device link".to_string() };
    let (phase, action) = unpack_step(&job, phase, lost);
    assert_eq!(action, UnpackAction::Copy);
    let (_, action) = unpack_step(&job, phase, UnpackEvent::Moved);
    assert_eq!(action, UnpackAction::Done);
}

#[test]
fn faults_of_archives_are_told() {
    let told = |kind: ArchiveKind, phase: UnpackPhase, event: UnpackEvent| {
        match unpack_step(&unpack_job(kind), phase, event).1 {
            UnpackAction::Fail(e) => e.message(),
            other => panic!("unexpected: {other:?}"),
        }
    };
    let why = || "why".to_string();
    assert_eq!(
        told(ArchiveKind::Zip, UnpackPhase::Opening, UnpackEvent::NoArchive { reason: why() }),
        "Failed to open zip for 'rlang': why"
    );
    assert_eq!(
        told(ArchiveKind::Tgz, UnpackPhase::Reading, UnpackEvent::EntryUnreadable { reason: why() }),
        "Failed to read tgz entry for 'rlang': why"
    );
    assert_eq!(
        told(
            ArchiveKind::Tgz,
            UnpackPhase::Reading,
            UnpackEvent::Entry { path: "../evil".to_string(), shown: "../evil".to_string() }
        ),
        "Path traversal detected in package 'rlang': ../evil"
    );
    assert_eq!(
        told(
            ArchiveKind::Tgz,
            UnpackPhase::Unpacking { path: "rlang/R".to_string() },
            UnpackEvent::NotUnpacked { part: EntryPart::File, reason: why() }
        ),
        "Failed to extract 'rlang/R' from 'rlang': why"
    );
    assert_eq!(
        told(ArchiveKind::Zip, UnpackPhase::Looking, UnpackEvent::PackageThere(false)),
        "Expected directory 'rlang' not found in archive for 'rlang'"
    );
}

#[test]
fn archives_are_told_apart() {
    assert!(matches!(archive_kind(Some("zip")), ArchiveKind::Zip));
    assert!(matches!(archive_kind(Some("tgz")), ArchiveKind::Tgz));
    assert!(matches!(archive_kind(None), ArchiveKind::Tgz));
    assert!(check_staged("rlang", true).is_ok());
    assert!(check_staged("rlang", false).is_err());
}

#[test]
fn moves_across_devices_become_copies() {
    assert!(matches!(after_failed_move(Some(18), "cross-device link", false, 0), MoveStep::Copy));
    assert!(matches!(after_failed_move(Some(13), "denied", false, 0), MoveStep::GiveUp));
}

#[test]
fn libraries_of_r_are_pointed_at() {
    let text = "/lib/foo.so:\n\t/Library/Frameworks/R.framework/Versions/4.4-arm64/Resources/lib/libR.dylib (compatibility version 4.4.0, current version 4.4.2)\n\t/usr/lib/libSystem.B.dylib (compatibility version 1.0.0)\n";
    let changes = libr_changes(text, "/home/u/.uvr/r-versions/4.4.2/lib");
    assert_eq!(changes.len(), 1);
    assert_eq!(
        changes[0].0,
        "/Library/Frameworks/R.framework/Versions/4.4-arm64/Resources/lib/libR.dylib"
    );
    assert_eq!(changes[0].1, "/home/u/.uvr/r-versions/4.4.2/lib/libR.dylib");
}

#[test]
fn libraries_are_found_beside_the_program() {
    assert_eq!(r_lib_dir_of("/R", false), "");
    assert_eq!(r_lib_dir_of("R", false), "");
    assert_eq!(r_lib_dir_of("/bin/R", false), "/lib");
    assert_eq!(r_lib_dir_of("tools/bin/R", false), "tools/lib");
}

#[test]
fn only_the_last_name_of_a_library_counts() {
    let changes = libr_changes("\t/a/libR.dylib/. (compatibility version 4.4.0)\n", "/r/lib");
    assert_eq!(changes, vec![("/a/libR.dylib/.".to_string(), "/r/lib/libR.dylib".to_string())]);
    assert!(libr_changes("\t/R.framework/.. (compatibility version 4.4.0)\n", "/r/lib").is_empty());
    assert!(libr_changes("\t/r/lib/libR.dylib (compatibility version 4.4.0)\n", "/r/lib").is_empty());
}

#[test]
fn paths_that_are_no_utf8_end_the_search_on_windows() {
    let entries = || {
        vec![
            Some(TarEntry { path: vec![b'p', 0xff], start: Vec::new() }),
            Some(TarEntry {
                path: b"pkg/DESCRIPTION".to_vec(),
                start: b"Package: pkg\nBuilt: R 4.5.0; x86_64-pc-linux-gnu; 2025-05-01 00:00:00 UTC; unix\n".to_vec(),
            }),
        ]
    };
    assert!(built_in_entries(&entries(), "pkg", false).is_some());
    assert!(built_in_entries(&entries(), "pkg", true).is_none());
}

#[test]
fn a_directory_is_removed_in_four_tries() {
    let waits: Vec<Option<u64>> = (0..4).map(after_failed_removal).collect();
    assert_eq!(waits, vec![Some(50), Some(100), Some(200), None]);
}

#[test]
fn paths_are_joined_as_the_system_writes_them() {
    assert_eq!(join_on(false, "/a", "b"), "/a/b");
    assert_eq!(join_on(false, "/", "b"), "/b");
    assert_eq!(join_on(true, r"C:\a", "b"), r"C:\a\b");
    assert_eq!(join_on(true, r"C:\", "b"), r"C:\b");
    assert_eq!(join_on(true, "C:", "b"), "C:b");
    assert_eq!(join_on(true, "a/", "b"), "a/b");
    assert_eq!(join_on(true, "", "b"), "b");
}

#[test]
fn an_absolute_name_is_a_path_of_its_own() {
    assert_eq!(join_on(false, "/a", "/etc"), "/etc");
    assert_eq!(lookup("/p", "/etc", "k", true, false).as_deref(), Some("/etc"));
    assert_eq!(lookup("/p", "etc", "k", true, false).as_deref(), Some("/p/k/etc"));
    assert_eq!(join_on(true, r"C:\a", r"\b"), r"C:\b");
    assert_eq!(join_on(true, r"C:\a", r"D:\b"), r"D:\b");
    assert_eq!(join_on(true, r"\\host\share\a", r"\b"), r"\\host\share\b");
    assert_eq!(join_on(true, r"C:\a", r"\\host\share"), r"\\host\share");
}

#[test]
fn paths_are_compared_by_their_names() {
    assert!(same_path("/a/b", "//a///b/.", false));
    assert!(same_path("a/./b", "a/b/", false));
    assert!(!same_path("./a", "a", false));
    assert!(same_path(".", "./.", false));
    assert!(!same_path("/a", "a", false));
    assert!(!same_path("/a/b", "/a/B", false));
    assert!(!same_path(r"a\b", "a/b", false));
    assert!(same_path(r"a\b", "a/b", true));
    assert!(same_path(r"C:\a", "c:/a", true));
    assert!(!same_path("C:a", r"C:\a", true));
    assert!(!same_path(r"\\host\share\a", r"\host\share\a", true));
    for (a, b) in [("/a//b", "/a/b"), ("./a", "a"), ("/.", "/"), ("a/..", "a"), ("", "."), ("//a", "/a"), (".//a", "./a")] {
        assert_eq!(same_path(a, b, false), std::path::Path::new(a) == std::path::Path::new(b), "{a} {b}");
    }
}
