//! Versions of R: where they come from, which are there, and how one is installed.
use uvr_core::error::UvrError;
use uvr_core::r_version::detector::{
    binary_for_version, choose_r_binary, collect_installations, find_exact_version, test_find_exact, version_in_output,
    BinaryChoice, Candidate, RInstallation,
};
use uvr_core::r_version::host::{
    detect_posit_distro_slug, detect_posit_distro_slug_from_os_release, ensure_libc_supported,
    host_info_from_os_release, host_triple_from_os_release, is_rolling_channel, linux_portable_id,
    musl_from_signals,
    normalize_ua_r_version, os_release_is_alpine, parse_glibc_version, parse_r_version, portable_availability, portable_publishes,
    ppm_manylinux_repo, user_agent, DistroOverride, HostInfo, HostTriple, Platform,
};
use uvr_core::r_version::install::{
    after_move, install_paths, install_step, patch_wrapper_r_home_dir, preflight, verify_r_runs, InstallAction, InstallEvent,
    InstallJob, Phase,
};
use uvr_core::r_version::manager::{check_uninstall, is_removable_name};
use uvr_core::r_version::openmp::{
    ensure_openmp_shim, r_home_from_binary, runtime_profile, runtime_profile_update, site_profile_env, MARKER,
    ORIG_SITE_PROFILE_VAR,
};
use uvr_core::r_version::published::{
    available_from_index, choose_release, classify_request, is_real_r_version, pick_newest_matching,
    version_not_found_error, AvailableVersions, VersionRequest,
};
use uvr_core::r_version::search::RSearch;
use uvr_core::registry::p3m::ppm_linux_codename;

const ROLLING_CHANNELS: [&str; 2] = ["devel", "next"];

#[test]
fn platform_is_macos() {
    assert!(Platform::MacOsArm64.is_macos());
    assert!(Platform::MacOsX86_64.is_macos());
    assert!(!Platform::LinuxX86_64.is_macos());
    assert!(!Platform::WindowsX86_64.is_macos());
}

#[test]
fn platform_is_windows() {
    assert!(Platform::WindowsX86_64.is_windows());
    assert!(!Platform::MacOsArm64.is_windows());
    assert!(!Platform::LinuxX86_64.is_windows());
}

#[test]
fn download_url_macos_arm64() {
    let url = Platform::MacOsArm64.download_url("4.4.2", false);
    assert_eq!(
        url,
        "https://cdn.posit.co/r/macos/R-4.4.2-macos-arm64.tar.gz"
    );
}

#[test]
fn download_url_macos_x86() {
    let url = Platform::MacOsX86_64.download_url("4.3.1", false);
    assert_eq!(url, "https://cdn.posit.co/r/macos/R-4.3.1-macos.tar.gz");
}

#[test]
fn download_url_linux_x86_is_portable() {
    let url = Platform::LinuxX86_64.download_url("4.4.2", false);
    assert!(url.starts_with("https://cdn.posit.co/r/"));
    assert!(url.contains("/R-4.4.2-"));
    assert!(url.ends_with(".tar.gz"));
    assert!(!url.contains("-arm64"));
}

#[test]
fn download_url_linux_arm64_is_portable() {
    let url = Platform::LinuxArm64.download_url("4.4.2", false);
    assert!(url.contains("/R-4.4.2-"));
    assert!(url.ends_with("-arm64.tar.gz"));
}

#[test]
fn download_url_windows() {
    let url = Platform::WindowsX86_64.download_url("4.4.2", false);
    assert_eq!(url, "https://cdn.posit.co/r/windows/R-4.4.2-windows.zip");
}

#[test]
fn is_real_r_version_accepts_versions() {
    assert!(is_real_r_version("4.5.3"));
    assert!(is_real_r_version("3.6.3"));
    assert!(is_real_r_version("4.5.3.0")); // 4 components, rare but valid
}

#[test]
fn is_real_r_version_rejects_noise() {
    assert!(!is_real_r_version(".."));
    assert!(!is_real_r_version("."));
    assert!(!is_real_r_version(""));
    assert!(!is_real_r_version("4."));
    assert!(!is_real_r_version(".4.5"));
    assert!(!is_real_r_version("4..5"));
    assert!(!is_real_r_version("v4.5.3"));
    assert!(!is_real_r_version("4.5.3-rc"));
    assert!(!is_real_r_version("4.6"));
    assert!(!is_real_r_version("next"));
    assert!(!is_real_r_version("devel"));
}

#[test]
fn pick_newest_matching_resolves_partials() {
    let available: Vec<String> = ["4.4.3", "4.5.0", "4.5.1", "4.5.3", "4.6.0"]
        .iter()
        .map(|s| s.to_string())
        .collect();
    assert_eq!(
        pick_newest_matching(&available, "4.5").as_deref(),
        Some("4.5.3")
    );
    assert_eq!(
        pick_newest_matching(&available, "4.5.1").as_deref(),
        Some("4.5.1")
    );
    assert_eq!(pick_newest_matching(&available, "4.7"), None);
    assert_eq!(
        pick_newest_matching(&available, "4").as_deref(),
        Some("4.6.0")
    );
}

#[test]
fn parse_r_version_orders_correctly() {
    assert_eq!(parse_r_version("4.4.2"), Some((4, 4, 2)));
    assert_eq!(parse_r_version("4.4"), Some((4, 4, 0)));
    assert!(parse_r_version("4.1.0") > parse_r_version("4.0.5"));
    assert!(parse_r_version("next").is_none());
    assert_eq!(parse_r_version("4.4.x"), Some((4, 4, 0)));
    assert_eq!(parse_r_version("4.4.2-patched"), Some((4, 4, 0)));
    assert_eq!(parse_r_version("4.x.3"), Some((4, 0, 3)));
    assert_eq!(parse_r_version("4.4.2.1"), Some((4, 4, 2)));
    assert!(parse_r_version("x.4.2").is_none());
    assert!(parse_r_version("").is_none());
}

#[test]
fn macos_publishes_from_4_1_0() {
    for p in [Platform::MacOsArm64, Platform::MacOsX86_64] {
        assert!(!portable_publishes(p, (4, 0, 5)));
        assert!(!portable_publishes(p, (3, 6, 3)));
        assert!(portable_publishes(p, (4, 1, 0)));
        assert!(portable_publishes(p, (4, 6, 1)));
    }
}

#[test]
fn windows_publishes_3_6_3_and_then_nothing_until_4_1_0() {
    let p = Platform::WindowsX86_64;
    assert!(portable_publishes(p, (3, 6, 3)));
    assert!(!portable_publishes(p, (3, 6, 2)));
    assert!(!portable_publishes(p, (4, 0, 5)));
    assert!(portable_publishes(p, (4, 1, 0)));
}

#[test]
fn linux_publishes_the_whole_range() {
    for p in [Platform::LinuxX86_64, Platform::LinuxArm64] {
        assert!(portable_publishes(p, (3, 0, 0)));
        assert!(portable_publishes(p, (4, 0, 5)));
        assert!(portable_publishes(p, (4, 6, 1)));
        assert!(portable_availability(p).is_none());
    }
}

#[test]
fn rolling_channels_are_named_not_versioned() {
    assert!(is_rolling_channel("devel"));
    assert!(is_rolling_channel("next"));
    assert!(!is_rolling_channel("4.6.1"));
    assert!(!is_rolling_channel("nightly"));
    for ch in ROLLING_CHANNELS {
        assert!(!is_real_r_version(ch));
        assert!(parse_r_version(ch).is_none());
    }
}

#[test]
fn channels_are_published_on_every_platform() {
    for p in [
        Platform::MacOsArm64,
        Platform::WindowsX86_64,
        Platform::LinuxX86_64,
    ] {
        for ch in ROLLING_CHANNELS {
            assert!(
                parse_r_version(ch).is_none(),
                "the preflight only runs on parseable versions, so {ch} passes on {p:?}"
            );
        }
    }
}

#[test]
fn a_musl_loader_on_a_glibc_host_is_not_a_musl_host() {
    assert!(!musl_from_signals(
        false,
        Some("ldd (GNU libc) 2.44"),
        true,
        true
    ));
    assert!(!musl_from_signals(false, None, true, true));
}

#[test]
fn a_real_musl_host_is_still_musl() {
    assert!(musl_from_signals(true, None, false, false));
    assert!(musl_from_signals(
        false,
        Some("musl libc (x86_64)\nVersion 1.2.5"),
        false,
        true
    ));
    assert!(musl_from_signals(false, None, false, true));
}

#[test]
fn an_ordinary_glibc_host_is_not_musl() {
    assert!(!musl_from_signals(
        false,
        Some("ldd (GNU libc) 2.39"),
        true,
        false
    ));
    assert!(!musl_from_signals(false, None, false, false));
}

#[test]
fn host_triple_alpine_x86_64() {
    let os_release = r#"NAME="Alpine Linux"
ID=alpine
VERSION_ID=3.23.4
"#;
    let triple = host_triple_from_os_release(Some(os_release), Platform::LinuxX86_64);
    assert_eq!(triple.arch, "x86_64");
    assert_eq!(triple.vendor, "pc");
    assert_eq!(triple.os, "linux");
    assert_eq!(triple.abi, "musl");
}

#[test]
fn host_triple_ubuntu_x86_64() {
    let os_release = r#"NAME="Ubuntu"
ID=ubuntu
VERSION_ID="22.04"
"#;
    let triple = host_triple_from_os_release(Some(os_release), Platform::LinuxX86_64);
    assert_eq!(triple.abi, "gnu");
}

#[test]
fn host_triple_alpine_aarch64() {
    let os_release = r#"ID=alpine
VERSION_ID=3.23
"#;
    let triple = host_triple_from_os_release(Some(os_release), Platform::LinuxArm64);
    assert_eq!(triple.arch, "aarch64");
    assert_eq!(triple.abi, "musl");
}

#[test]
fn host_triple_no_os_release_falls_back_to_gnu() {
    let triple = host_triple_from_os_release(None, Platform::LinuxX86_64);
    assert_eq!(triple.abi, "gnu");
}

#[test]
fn host_triple_macos() {
    let triple = host_triple_from_os_release(None, Platform::MacOsArm64);
    assert_eq!(triple.vendor, "apple");
    assert_eq!(triple.os, "darwin");
    assert_eq!(triple.abi, "darwin");
}

#[test]
fn host_triple_windows() {
    let triple = host_triple_from_os_release(None, Platform::WindowsX86_64);
    assert_eq!(triple.arch, "x86_64");
    assert_eq!(triple.vendor, "pc");
    assert_eq!(triple.os, "windows");
    assert_eq!(triple.abi, "msvc");
}

#[test]
fn user_agent_alpine_matches_real_r() {
    let info = HostInfo {
        triple: HostTriple {
            arch: "x86_64".to_string(),
            vendor: "pc".to_string(),
            os: "linux".to_string(),
            abi: "musl".to_string(),
        },
        distro_label: "Alpine Linux 3.23.4".to_string(),
        r_version: "4.5.0".to_string(),
    };
    assert_eq!(
        user_agent(&info),
        "R (4.5.0 x86_64-pc-linux-musl x86_64 linux-musl)"
    );
}

#[test]
fn user_agent_ubuntu_matches_real_r() {
    let info = HostInfo {
        triple: HostTriple {
            arch: "x86_64".to_string(),
            vendor: "pc".to_string(),
            os: "linux".to_string(),
            abi: "gnu".to_string(),
        },
        distro_label: "Ubuntu 22.04".to_string(),
        r_version: "4.5.0".to_string(),
    };
    assert_eq!(
        user_agent(&info),
        "R (4.5.0 x86_64-pc-linux-gnu x86_64 linux-gnu)"
    );
}

#[test]
fn user_agent_normalizes_minor_only_r_version() {
    assert_eq!(normalize_ua_r_version("4.5"), "4.5.0");
    assert_eq!(normalize_ua_r_version("4.5.1"), "4.5.1");

    let info = HostInfo {
        triple: HostTriple {
            arch: "x86_64".to_string(),
            vendor: "pc".to_string(),
            os: "linux".to_string(),
            abi: "gnu".to_string(),
        },
        distro_label: "Ubuntu 22.04".to_string(),
        r_version: "4.5".to_string(),
    };
    assert_eq!(
        user_agent(&info),
        "R (4.5.0 x86_64-pc-linux-gnu x86_64 linux-gnu)"
    );
}

#[test]
fn user_agent_satisfies_ppm_gating() {
    let info = HostInfo {
        triple: HostTriple {
            arch: "x86_64".to_string(),
            vendor: "pc".to_string(),
            os: "linux".to_string(),
            abi: "gnu".to_string(),
        },
        distro_label: "Ubuntu 22.04".to_string(),
        r_version: "4.5.0".to_string(),
    };
    let ua = user_agent(&info);
    assert!(
        ua.starts_with("R ("),
        "PPM gating requires 'R (' prefix; got: {ua}"
    );
    assert!(ua.contains("linux-gnu"));
}

#[test]
fn host_info_uses_pretty_distro_label() {
    let os_release = r#"NAME="Alpine Linux"
ID=alpine
VERSION_ID=3.23.4
"#;
    let info = host_info_from_os_release(Some(os_release), Platform::LinuxX86_64, "4.5.0");
    assert_eq!(info.distro_label, "Alpine Linux 3.23.4");
    assert_eq!(info.r_version, "4.5.0");
}

#[test]
fn host_info_unknown_distro_label() {
    let info = host_info_from_os_release(None, Platform::LinuxX86_64, "4.5.0");
    assert_eq!(info.distro_label, "unknown");
}

#[test]
fn detect_posit_distro_slug_alpine_full_version() {
    let slug = detect_posit_distro_slug_from_os_release(Some("ID=alpine\nVERSION_ID=3.23.4\n"));
    assert_eq!(slug, "alpine-3.23");
}

#[test]
fn detect_posit_distro_slug_alpine_minor_only() {
    let slug = detect_posit_distro_slug_from_os_release(Some("ID=alpine\nVERSION_ID=3.21\n"));
    assert_eq!(slug, "alpine-3.21");
}

#[test]
fn detect_posit_distro_slug_unknown_distro_reports_itself() {
    for (os_release, expected) in [
        ("ID=arch\n", "arch"),
        ("ID=cachyos\nID_LIKE=arch\n", "cachyos"),
        ("ID=gentoo\n", "gentoo"),
        ("ID=nixos\nVERSION_ID=\"25.05\"\n", "nixos-25.05"),
        ("ID=fedora\nVERSION_ID=42\n", "fedora-42"),
    ] {
        let slug = detect_posit_distro_slug_from_os_release(Some(os_release));
        assert_eq!(slug, expected, "slug for {os_release:?}");
        assert_eq!(
            ppm_linux_codename(&slug),
            None,
            "{slug} must not resolve to a PPM codename, or binaries get installed"
        );
    }
}

#[test]
fn detect_posit_distro_slug_without_os_release_claims_nothing() {
    let slug = detect_posit_distro_slug_from_os_release(None);
    assert_eq!(slug, "unknown");
    assert_eq!(ppm_linux_codename(&slug), None);
}

#[test]
fn detect_posit_distro_slug_still_recognizes_supported_distros() {
    for (os_release, slug, codename) in [
        ("ID=ubuntu\nVERSION_ID=\"22.04\"\n", "ubuntu-2204", "jammy"),
        ("ID=ubuntu\nVERSION_ID=\"24.04\"\n", "ubuntu-2404", "noble"),
        ("ID=debian\nVERSION_ID=\"12\"\n", "debian-12", "bookworm"),
        ("ID=rocky\nVERSION_ID=\"9.3\"\n", "rhel-9", "rhel9"),
    ] {
        let got = detect_posit_distro_slug_from_os_release(Some(os_release));
        assert_eq!(got, slug);
        assert_eq!(
            ppm_linux_codename(&got),
            Some(codename)
        );
    }
}

#[test]
fn detect_posit_distro_slug_alpine_skips_p3m() {
    assert!(ppm_linux_codename("alpine-3.23").is_none());
    assert!(ppm_linux_codename("alpine-3.21").is_none());
}

#[test]
fn addresses_of_portable_builds() {
    assert_eq!(
        Platform::LinuxX86_64.download_url("4.4.2", true),
        "https://cdn.posit.co/r/musllinux_1_2/R-4.4.2-musllinux_1_2.tar.gz"
    );
    assert_eq!(
        Platform::LinuxArm64.download_url("4.4.2", false),
        "https://cdn.posit.co/r/manylinux_2_34/R-4.4.2-manylinux_2_34-arm64.tar.gz"
    );
}

#[test]
fn versions_of_glibc() {
    assert_eq!(parse_glibc_version("ldd (GNU libc) 2.39"), Some((2, 39)));
    assert_eq!(parse_glibc_version("no number"), None);
    assert!(ensure_libc_supported(true, false, Some((2, 17))).is_err());
    assert!(ensure_libc_supported(true, false, Some((2, 39))).is_ok());
    assert!(ensure_libc_supported(true, true, None).is_ok());
    assert!(ensure_libc_supported(false, false, None).is_ok());
    assert_eq!(ppm_manylinux_repo(false, false, Some((2, 39))), None);
}

#[test]
fn pinned_distribution_wins() {
    let mut pin = DistroOverride::new();
    assert!(!pin.distro_override_is_set());
    pin.set_posit_distro_override("ubuntu-2204".to_string());
    assert!(pin.distro_override_is_set());
    assert_eq!(detect_posit_distro_slug(pin.get(), Some("ID=arch\n")), "ubuntu-2204");
    assert_eq!(detect_posit_distro_slug(None, Some("ID=arch\n")), "arch");
}

fn fake_installation(version: &str, managed: bool) -> RInstallation {
    RInstallation {
        binary: format!("/fake/r-{version}/bin/R"),
        version: version.to_string(),
        managed,
    }
}

#[test]
fn find_exact_version_found() {
    let installations = vec![fake_installation("4.3.2", true), fake_installation("4.4.1", true)];
    let result = find_exact_version(&installations, "4.4.1").unwrap();
    assert_eq!(result, "/fake/r-4.4.1/bin/R");
}

#[test]
fn find_exact_version_not_found() {
    let installations = vec![fake_installation("4.3.2", true)];
    let result = find_exact_version(&installations, "4.4.1");
    assert!(result.is_err());
}

#[test]
fn r_installation_struct_fields() {
    let inst = fake_installation("4.5.0", true);
    assert_eq!(inst.version, "4.5.0");
    assert!(inst.managed);
    assert!(inst.binary.contains("4.5.0"));
}

#[test]
fn find_r_binary_prefers_managed() {
    let found = collect_installations(&vec![
        Candidate::Program { binary: "/usr/bin/R".to_string(), version: Some("4.5.0".to_string()) },
        Candidate::Managed { binary: "/home/u/.uvr/r-versions/4.3.2/bin/R".to_string(), version: "4.3.2".to_string() },
    ], false);
    assert_eq!(found.len(), 2);
    match choose_r_binary(&found, None, None).unwrap() {
        BinaryChoice::Use(binary) => assert!(binary.contains("r-versions/4.3.2")),
        BinaryChoice::TryInOrder(binaries) => assert!(binaries[0].contains("r-versions/4.3.2")),
    }
}

#[test]
fn find_r_binary_impossible_constraint() {
    let found = vec![fake_installation("4.4.1", true), fake_installation("4.5.0", false)];
    assert!(choose_r_binary(&found, None, Some(">=99.0.0")).is_err());
    assert!(choose_r_binary(&found, None, Some(">=3.0.0")).is_ok());
    assert!(choose_r_binary(&found, Some("4.9.9"), None).is_err());
    assert!(matches!(choose_r_binary(&Vec::new(), None, None), Err(UvrError::RNotFound)));
}

#[test]
fn version_is_read_from_what_r_prints() {
    assert_eq!(version_in_output("WARNING: something\n4.5.1\n").as_deref(), Some("4.5.1"));
    assert_eq!(version_in_output("nothing of the kind\n"), None);
}

#[test]
fn writes_shim_when_libomp_present() {
    let profile = ensure_openmp_shim(true, true, "").unwrap();
    assert!(profile.contains("dyn.load"));
    assert!(profile.contains("libomp.dylib"));
}

#[test]
fn is_idempotent() {
    let profile = ensure_openmp_shim(true, true, "").unwrap();
    assert!(ensure_openmp_shim(true, true, &profile).is_none());
    assert_eq!(profile.matches("dyn.load").count(), 1);
}

#[test]
fn preserves_existing_profile_content() {
    let updated =
        ensure_openmp_shim(true, true, "options(repos = c(CRAN = \"https://example.com\"))\n").unwrap();
    assert!(updated.contains("https://example.com"), "user settings must survive");
    assert!(updated.contains("dyn.load"));
}

#[test]
fn no_op_without_libomp() {
    assert!(ensure_openmp_shim(false, true, "").is_none());
}

#[test]
fn runtime_profile_chains_then_shims_and_is_stable() {
    let content = runtime_profile_update(None).unwrap();
    assert_eq!(content, runtime_profile());
    let chain = content.find("sys.source(orig").expect("chains to the original profile");
    let shim = content.find("dyn.load").expect("contains the shim");
    assert!(chain < shim);
    assert!(content.contains("globalenv()"), "site profiles are sourced into globalenv");
    assert!(content.contains(ORIG_SITE_PROFILE_VAR));
    assert!(content.contains(MARKER));
    assert!(runtime_profile_update(Some(&content)).is_none());
    assert_eq!(runtime_profile_update(Some("options(warn = 2)\n")), Some(content));
}

#[test]
fn site_profile_env_carries_the_users_r_profile_but_never_itself() {
    let ours = "/home/u/.uvr/etc/Rprofile.site";
    let vars = site_profile_env(ours, None, false);
    assert_eq!(vars[0], ("R_PROFILE", ours.to_string()));
    assert_eq!(vars[1], (ORIG_SITE_PROFILE_VAR, String::new()));
    assert_eq!(site_profile_env(ours, Some("/etc/R/Rprofile.site"), false)[1].1, "/etc/R/Rprofile.site");
    assert_eq!(site_profile_env(ours, Some(ours), false)[1].1, "");
    assert_eq!(site_profile_env(ours, Some("   "), false)[1].1, "");
}

#[test]
fn r_home_from_binary_strips_bin() {
    assert_eq!(
        r_home_from_binary("/x/.uvr/r-versions/4.6.0/bin/R").as_deref(),
        Some("/x/.uvr/r-versions/4.6.0")
    );
}

#[test]
fn install_r_portable_patches_stale_r_home_dir_in_wrapper() {
    let wrapper = "#!/bin/sh\n# Shell wrapper for R executable.\n\nR_HOME_DIR=/Library/Frameworks/R.framework/Versions/4.4-arm64/Resources\n# Override R_HOME_DIR for relocatable installation\nR_HOME_DIR=\"$(cd \"$(dirname \"$0\")/..\" && pwd)\"\n";
    let dest = "/home/u/.uvr/r-versions/4.4.1";
    let patched = patch_wrapper_r_home_dir(wrapper, dest).unwrap();
    let lines: Vec<&str> = patched.lines().collect();
    assert_eq!(lines[3], format!("R_HOME_DIR={dest}"), "first assignment must point at the install");
    assert_eq!(
        lines[5], "R_HOME_DIR=\"$(cd \"$(dirname \"$0\")/..\" && pwd)\"",
        "runtime override must be untouched"
    );
    assert!(!patched.contains("/Library/Frameworks"), "build-time path must be gone");
}

#[test]
fn install_r_portable_leaves_unrecognized_wrapper_alone() {
    assert_eq!(patch_wrapper_r_home_dir("#!/bin/sh\necho R\n", "/home/u/4.4.2"), None);
}

#[test]
fn install_r_portable_yields_to_a_concurrent_install() {
    assert!(after_move(Some("exists"), true, "/stage", "/dest").is_ok());
    assert!(after_move(None, false, "/stage", "/dest").is_ok());
}

#[test]
fn install_r_portable_still_errors_when_dest_is_unusable() {
    assert!(after_move(Some("exists"), false, "/stage", "/dest").is_err());
}

#[test]
fn verify_r_runs_rejects_an_r_that_cannot_start() {
    let good = version_in_output("4.5.1\n");
    assert_eq!(good.as_deref(), Some("4.5.1"));
    assert!(verify_r_runs("/tmp/R-good", good.is_some()).is_ok());

    // It dies in the loader and prints nothing.
    let bad = version_in_output("");
    assert!(bad.is_none());
    let err = verify_r_runs("/tmp/R-bad", bad.is_some()).unwrap_err().message();
    assert!(err.contains("/tmp/R-bad"), "got {err}");
    assert!(err.contains("does not run on this host"), "got {err}");
    assert!(err.contains("libc"), "the message must name the likely cause: {err}");
}

fn job(version: &str) -> InstallJob {
    InstallJob {
        version: version.to_string(),
        platform: Platform::LinuxX86_64,
        musl: false,
        glibc: Some((2, 39)),
        dir: "/home/u/.uvr/r-versions/4.4.2".to_string(),
        binary: "/home/u/.uvr/r-versions/4.4.2/bin/R".to_string(),
    }
}

#[test]
fn missing_r_is_downloaded_and_probed() {
    let job = job("4.4.2");
    assert!(preflight(&job).is_ok());
    let (phase, action) = install_step(&job, Phase::Looking, InstallEvent::BinaryThere(false));
    match action {
        InstallAction::Download(url) => assert!(url.contains("R-4.4.2")),
        InstallAction::RemoveTree => {}
        _ => panic!("R has to be fetched"),
    }
    let mut phase = phase;
    let mut done = false;
    for _ in 0..8 {
        let event = match phase {
            Phase::Removing => InstallEvent::Removed(None),
            Phase::Downloading => InstallEvent::Archive,
            Phase::Unpacking => InstallEvent::Unpacked(None),
            Phase::LookingNew => InstallEvent::BinaryThere(true),
            Phase::EnablingOpenMp => InstallEvent::OpenMpDone,
            Phase::ProbingNew => InstallEvent::Runs(true),
            _ => break,
        };
        let (next, action) = install_step(&job, phase, event);
        done = matches!(action, InstallAction::Done);
        phase = next;
    }
    assert!(done, "the installation ends well");
}

#[test]
fn r_that_does_not_start_is_taken_away() {
    let job = job("4.4.2");
    let (_, action) = install_step(&job, Phase::ProbingNew, InstallEvent::Runs(false));
    assert!(matches!(action, InstallAction::RemoveTreeAndFail(_)));
    let (_, action) = install_step(&job, Phase::ProbingOld, InstallEvent::Runs(true));
    assert!(matches!(action, InstallAction::Done));
}

#[test]
fn unpublished_versions_are_refused() {
    let mut old = job("4.0.5");
    old.platform = Platform::MacOsArm64;
    assert!(preflight(&old).is_err());
}

#[test]
fn published_versions_are_read() {
    let index = br#"{"r_versions":["3.6.3","4.5.1","4.4.2","next","devel"]}"#;
    let all = available_from_index(index, Platform::LinuxX86_64).unwrap();
    assert_eq!(all.stable, vec!["3.6.3", "4.4.2", "4.5.1"]);
    assert_eq!(all.rolling, vec!["devel", "next"]);
    let mac = available_from_index(index, Platform::MacOsArm64).unwrap();
    assert_eq!(mac.stable, vec!["4.4.2", "4.5.1"]);
    assert!(available_from_index(b"not json", Platform::LinuxX86_64).is_err());
}

#[test]
fn requests_are_answered_from_the_index() {
    assert!(matches!(classify_request("4.4.2"), Ok(VersionRequest::Ready(v)) if v == "4.4.2"));
    assert!(matches!(classify_request("devel"), Ok(VersionRequest::Ready(v)) if v == "devel"));
    assert!(matches!(classify_request("4.4"), Ok(VersionRequest::NeedsIndex)));
    assert!(classify_request("nonsense").is_err());
    let labels: Vec<String> = ["4.4.1", "4.4.2", "4.5.1", "devel"].iter().map(|s| s.to_string()).collect();
    let available = AvailableVersions::from_labels(&labels, Platform::LinuxX86_64);
    assert_eq!(choose_release("4.4", &available).unwrap(), "4.4.2");
    assert!(choose_release("4.9", &available).is_err());
    assert!(version_not_found_error("4.4.9", "404", &available.stable).message().contains("4.4.9"));
}

#[test]
fn only_names_of_versions_are_removed() {
    assert!(is_removable_name("4.4.2"));
    assert!(!is_removable_name("../etc"));
    assert!(!is_removable_name(""));
    assert!(check_uninstall("4.4.2", Some("/home/u/.uvr/r-versions/4.4.2"), true).is_ok());
    assert!(check_uninstall("4.4.2", Some("/home/u/.uvr/r-versions/4.4.2"), false).is_err());
    let e = check_uninstall("../etc", None, true).unwrap_err();
    assert!(e.message().contains("\"../etc\""), "got {}", e.message());
}

#[test]
fn find_dir_with_r_binary_direct() {
    let mut search = RSearch::new("/stage");
    assert_eq!(search.current(), Some("/stage"));
    assert_eq!(search.look(true, &Vec::new()).as_deref(), Some("/stage"));
}

#[test]
fn find_dir_with_r_binary_nested() {
    let mut search = RSearch::new("/stage");
    assert_eq!(search.look(false, &vec!["/stage/a".to_string(), "/stage/Resources".to_string()]), None);
    assert_eq!(search.current(), Some("/stage/a"));
    assert_eq!(search.look(false, &Vec::new()), None);
    assert_eq!(search.current(), Some("/stage/Resources"));
    assert_eq!(search.look(true, &Vec::new()).as_deref(), Some("/stage/Resources"));
}

#[test]
fn find_dir_with_r_binary_not_found() {
    let mut search = RSearch::new("/stage");
    assert_eq!(search.look(false, &Vec::new()), None);
    assert_eq!(search.current(), None);
}

#[test]
fn find_dir_depth_limit() {
    let mut search = RSearch::new("/0");
    for depth in 1..=12 {
        assert_eq!(search.look(false, &vec![format!("/{depth}")]), None);
    }
    assert_eq!(search.current(), Some("/12"));
    assert_eq!(search.look(false, &vec!["/13".to_string()]), None);
    assert_eq!(search.current(), None);
}

#[test]
fn an_installed_version_has_a_binary() {
    let there = vec![fake_installation("4.3.2", true), fake_installation("4.4.1", false)];
    assert_eq!(binary_for_version(&there, "4.4.1").unwrap(), "/fake/r-4.4.1/bin/R");
    match binary_for_version(&there, "4.4") {
        Err(UvrError::Other(m)) => assert_eq!(m, "R 4.4 is not installed"),
        other => panic!("no such version: {other:?}"),
    }
    assert_eq!(test_find_exact(&there, "4.3.2").unwrap(), "/fake/r-4.3.2/bin/R");
    assert!(test_find_exact(&there, "4.3.3").is_err());
}

#[test]
fn platforms_have_target_triples() {
    assert_eq!(Platform::MacOsArm64.rust_target_triple(), "aarch64-apple-darwin");
    assert_eq!(Platform::MacOsX86_64.rust_target_triple(), "x86_64-apple-darwin");
    assert_eq!(Platform::LinuxX86_64.rust_target_triple(), "x86_64-unknown-linux-gnu");
    assert_eq!(Platform::LinuxArm64.rust_target_triple(), "aarch64-unknown-linux-gnu");
    assert_eq!(Platform::WindowsX86_64.rust_target_triple(), "x86_64-pc-windows-msvc");
}

#[test]
fn alpine_is_told_by_a_line_of_its_own() {
    assert!(os_release_is_alpine("NAME=\"Alpine Linux\"\nID=alpine\nVERSION_ID=3.21.0\n"));
    assert!(!os_release_is_alpine("ID=ubuntu\nID_LIKE=debian\n"));
    assert_ne!(linux_portable_id(true), linux_portable_id(false));
}

#[test]
fn platform_detect_succeeds() {
    assert!(Platform::detect("linux", "x86_64").is_ok());
    assert_eq!(Platform::detect("macos", "aarch64").unwrap(), Platform::MacOsArm64);
    assert_eq!(Platform::detect("windows", "x86_64").unwrap(), Platform::WindowsX86_64);
    match Platform::detect("freebsd", "x86_64") {
        Err(UvrError::UnsupportedPlatform(p)) => assert_eq!(p, "freebsd/x86_64"),
        other => panic!("no such platform: {other:?}"),
    }
    assert!(Platform::detect("windows", "aarch64").is_err());
}

#[test]
fn an_old_host_is_refused_whatever_the_build() {
    let mut old = job("4.4.2");
    old.glibc = Some((2, 31));
    assert!(matches!(preflight(&old), Err(UvrError::UnsupportedPlatform(_))));
    old.platform = Platform::MacOsArm64;
    assert!(matches!(preflight(&old), Err(UvrError::UnsupportedPlatform(_))));
    old.glibc = None;
    assert!(preflight(&old).is_ok());
}

#[test]
fn r_is_installed_below_its_version() {
    assert_eq!(
        install_paths("/home/u/.uvr/r-versions", "4.4.2", false),
        ("/home/u/.uvr/r-versions/4.4.2".to_string(), "/home/u/.uvr/r-versions/4.4.2/bin/R".to_string())
    );
    assert_eq!(install_paths("/r/", "4.4.2", true).1, "/r/4.4.2/bin/R.exe");
}

#[test]
fn a_server_that_fails_ends_the_installation() {
    let event = InstallEvent::NetworkError { reason: "reset".to_string() };
    let (_, action) = install_step(&job("4.4.2"), Phase::Downloading, event);
    assert!(matches!(action, InstallAction::Fail(UvrError::Network(r)) if r == "reset"));
}

#[test]
fn a_program_is_listed_once_however_its_path_is_written() {
    let program = |binary: &str| Candidate::Program { binary: binary.to_string(), version: Some("4.5.0".to_string()) };
    let found = collect_installations(
        &vec![program("/usr/bin/R"), program("/usr//bin/./R"), program("/usr/bin/R/"), program("usr/bin/R")],
        false,
    );
    let binaries: Vec<&str> = found.iter().map(|i| i.binary.as_str()).collect();
    assert_eq!(binaries, vec!["/usr/bin/R", "usr/bin/R"]);

    let windows = vec![program(r"C:\R\bin\R.exe"), program("c:/R/bin/R.exe"), program(r"D:\R\bin\R.exe")];
    assert_eq!(collect_installations(&windows, true).len(), 2);
    assert_eq!(collect_installations(&windows, false).len(), 3);
}

#[test]
fn the_own_profile_is_known_however_it_is_written() {
    assert_eq!(site_profile_env("/h/etc/R", Some("/h//etc/R"), false)[1].1, "");
    assert_eq!(site_profile_env("/h/etc/R", Some("/h/./etc/R"), false)[1].1, "");
    assert_eq!(site_profile_env("/h/etc/R", Some("/h/x/../etc/R"), false)[1].1, "/h/x/../etc/R");
    assert_eq!(site_profile_env("/h/etc/R", Some("h/etc/R"), false)[1].1, "h/etc/R");
}
