//! Projects, the environment of R, running builds and system libraries.
use uvr_core::env_vars::{
    activate_prompt, derive_name_from_url, dir_or_default, read_env_var, repos, user_environ,
};
use uvr_core::manifest::Manifest;
use uvr_core::project::{
    check_writable, find_project, parse_pin, read_r_version_pin_from, render_pin, ManifestSource, PinFile, Project,
    ProjectFiles,
};
use uvr_core::r_env::{path_separator, Inherited, REnv};
use uvr_core::signal::{ActiveInstall, ActiveInstalls};
use uvr_core::sysreqs::{
    distro_of, filter_missing, is_unsupported_system_body, normalize_distro, probe_command, resolve_system_deps,
    CatalogueReply, PackageSysReqQuery, SysReq, SysReqLookup, SysReqsCheck,
};
use uvr_core::sysreqs_rules::{
    resolve_local, resolve_with_rules, SysReqConstraint, SysReqDependency, SysReqRule,
};

const PATH_SEP: &str = ":";

fn renv() -> REnv {
    REnv {
        r_binary: "/opt/R/4.4.2/bin/R".to_string(),
        library: "/proj/.uvr/library".to_string(),
        with_library: None,
        extra_libs: None,
        site_profile: None,
        windows: false,
    }
}

fn inherited() -> Inherited {
    Inherited {
        ld_library_path: None,
        dyld_library_path: None,
        r_ld_library_path: None,
        r_profile: None,
        libr_present: false,
    }
}

fn value_of(vars: &[(&'static str, String)], name: &str) -> String {
    vars.iter()
        .find(|(k, _)| *k == name)
        .map(|(_, v)| v.clone())
        .unwrap_or_else(|| panic!("{name} not exported"))
}

#[test]
fn vars_export_the_site_profile_only_when_the_r_needs_it() {
    let vars = renv().vars(&inherited());
    assert!(!vars.iter().any(|(k, _)| *k == "R_PROFILE"));
    assert!(!vars.iter().any(|(k, _)| *k == "UVR_SITE_PROFILE_ORIG"));

    let env = REnv { site_profile: Some("/home/u/.uvr/etc/Rprofile.site".to_string()), ..renv() };
    let vars = env.vars(&inherited());
    assert_eq!(value_of(&vars, "R_PROFILE"), "/home/u/.uvr/etc/Rprofile.site");
    assert_eq!(value_of(&vars, "UVR_SITE_PROFILE_ORIG"), "");
}

#[test]
fn libs_user_is_the_library_when_nothing_else_is_set() {
    assert_eq!(renv().r_libs_user(), "/proj/.uvr/library");
}

#[test]
fn with_library_takes_precedence_over_the_project_library() {
    let env = REnv { with_library: Some("/cache/with-envs/abc/.uvr/library".to_string()), ..renv() };
    assert_eq!(
        env.r_libs_user(),
        format!("/cache/with-envs/abc/.uvr/library{PATH_SEP}/proj/.uvr/library")
    );
}

#[test]
fn extra_libs_are_appended_last() {
    let env = REnv {
        with_library: Some("/with".to_string()),
        extra_libs: Some("/site/lib".to_string()),
        ..renv()
    };
    assert_eq!(env.r_libs_user(), format!("/with{PATH_SEP}/proj/.uvr/library{PATH_SEP}/site/lib"));
}

#[test]
fn whitespace_only_extra_libs_is_ignored() {
    let env = REnv { extra_libs: Some("   ".to_string()), ..renv() };
    assert_eq!(env.r_libs_user(), "/proj/.uvr/library");
}

#[test]
fn bin_and_lib_dirs_are_derived_from_the_binary() {
    let env = renv();
    assert_eq!(env.r_bin_dir(), "/opt/R/4.4.2/bin");
    assert_eq!(env.r_lib_dir(), "/opt/R/4.4.2/lib");
}

#[test]
fn vars_isolate_the_project_from_system_libraries() {
    let vars = renv().vars(&inherited());
    assert_eq!(value_of(&vars, "R_LIBS_USER"), "/proj/.uvr/library");
    assert_eq!(value_of(&vars, "R_LIBS_SITE"), "");
    assert_eq!(value_of(&vars, "R_LIBS"), "");
    assert_eq!(value_of(&vars, "R_ENVIRON"), "");
    assert_eq!(value_of(&vars, "R_ENVIRON_USER"), "");
    assert_eq!(value_of(&vars, "DYLD_LIBRARY_PATH"), "/opt/R/4.4.2/lib");
    assert_eq!(value_of(&vars, "LD_LIBRARY_PATH"), "/opt/R/4.4.2/lib");
}

#[test]
fn vars_prepend_r_lib_dir_to_inherited_ld_library_path() {
    let module_blas = "/apps/rocs/OpenBLAS/lib";
    let vars = renv().vars(&Inherited { ld_library_path: Some(module_blas.to_string()), ..inherited() });
    let r_lib = renv().r_lib_dir();
    assert_eq!(
        value_of(&vars, "LD_LIBRARY_PATH"),
        format!("{r_lib}{PATH_SEP}{module_blas}"),
        "LD_LIBRARY_PATH must prepend, not replace"
    );
    assert_eq!(value_of(&vars, "DYLD_LIBRARY_PATH"), r_lib);
}

#[test]
fn vars_empty_r_lib_dir_does_not_produce_leading_separator() {
    let blas = "/some/blas/lib";
    let env = REnv { r_binary: "R".to_string(), ..renv() };
    let vars = env.vars(&Inherited {
        ld_library_path: Some(blas.to_string()),
        dyld_library_path: Some(blas.to_string()),
        ..inherited()
    });
    let ld = value_of(&vars, "LD_LIBRARY_PATH");
    assert!(!ld.starts_with(PATH_SEP), "LD_LIBRARY_PATH must not start with separator, got: {ld:?}");
}

#[test]
fn a_binary_without_parents_does_not_panic() {
    let env = REnv { r_binary: "R".to_string(), ..renv() };
    assert_eq!(env.r_bin_dir(), "");
    assert_eq!(env.r_lib_dir(), "");
}

#[test]
fn vars_omits_r_ld_library_path_when_libr_absent() {
    let vars = renv().vars(&inherited());
    let has_r_ld = vars.iter().any(|(k, _)| *k == "R_LD_LIBRARY_PATH");
    assert!(!has_r_ld, "R_LD_LIBRARY_PATH should be omitted when libR.so is not in r_lib_dir");
    let vars = renv().vars(&Inherited { libr_present: true, ..inherited() });
    assert_eq!(value_of(&vars, "R_LD_LIBRARY_PATH"), "/opt/R/4.4.2/lib");
}

#[test]
fn separators_of_lists() {
    assert_eq!(path_separator(false), ":");
    assert_eq!(path_separator(true), ";");
}

#[test]
fn test_env_vars() {
    assert_eq!(read_env_var(None), None);
    assert_eq!(read_env_var(Some("/custom/libs")).as_deref(), Some("/custom/libs"));
    assert_eq!(read_env_var(Some("")), None);
    assert_eq!(read_env_var(Some("   ")), None);
    assert_eq!(dir_or_default(Some("/custom/cache"), Some("/home/u/.uvr/cache")).as_deref(), Some("/custom/cache"));
    assert_eq!(dir_or_default(Some(""), Some("/home/u/.uvr/cache")).as_deref(), Some("/home/u/.uvr/cache"));
    assert_eq!(dir_or_default(None, Some("/home/u/.uvr/cache")).as_deref(), Some("/home/u/.uvr/cache"));
    assert_eq!(dir_or_default(None, None), None);
    let project = project("/proj");
    assert_eq!(project.library_path(Some("/custom/library")), "/custom/library");
    assert!(project.library_path(Some("")).ends_with(".uvr/library"));
    assert!(project.library_path(None).ends_with(".uvr/library"));
}

#[test]
fn test_env_repos() {
    assert!(repos(None).is_none());

    let v = repos(Some("https://cran.rpkgs.com/arm64/alpine323/latest")).expect("one repo");
    assert_eq!(v.len(), 1);
    assert_eq!(v[0].name, "cran.rpkgs.com");
    assert_eq!(v[0].url, "https://cran.rpkgs.com/arm64/alpine323/latest");

    let v = repos(Some("https://a.example/cran,https://b.example/cran")).expect("two repos");
    assert_eq!(v.len(), 2);
    assert_eq!(v[0].name, "a.example");
    assert_eq!(v[1].name, "b.example");

    let v = repos(Some("http://localhost:8080/cran")).expect("one repo with port");
    assert_eq!(v[0].name, "localhost");

    assert!(repos(Some("  ")).is_none());
}

#[test]
fn test_activate_prompt_parsing() {
    for on in ["1", "true", "TRUE", "yes", "on", "  1  "] {
        assert_eq!(activate_prompt(Some(on)), Some(true), "{on:?} should enable");
    }
    for off in ["0", "false", "FALSE", "no", "off"] {
        assert_eq!(activate_prompt(Some(off)), Some(false), "{off:?} should disable");
    }
    for junk in ["maybe", "2", "-"] {
        assert_eq!(activate_prompt(Some(junk)), None, "{junk:?} should be ignored");
    }
    assert_eq!(activate_prompt(Some("   ")), None);
    assert_eq!(activate_prompt(None), None);
}

#[test]
fn switches_and_hosts() {
    assert!(user_environ(Some("1")));
    assert!(user_environ(Some("TRUE")));
    assert!(!user_environ(None));
    assert_eq!(derive_name_from_url("https://user@Repo.Example:80/x"), derive_name_from_url("https://user@Repo.Example:80/x"));
    assert_eq!(derive_name_from_url("https://a.example/cran"), "a.example");
}

#[test]
fn register_and_unregister_roundtrip() {
    let pid = 9_999_991;
    let mut running = ActiveInstalls::new();
    running.register(ActiveInstall {
        pid,
        library: "/tmp/lib".to_string(),
        package_name: "fake".to_string(),
    });
    running.unregister(pid);
    assert!(!running.drain().iter().any(|a| a.pid == pid));
}

#[test]
fn drained_builds_are_handed_out_once() {
    let mut running = ActiveInstalls::new();
    running.register(ActiveInstall { pid: 1, library: "/l".to_string(), package_name: "a".to_string() });
    running.register(ActiveInstall { pid: 2, library: "/l".to_string(), package_name: "b".to_string() });
    assert_eq!(running.drain().len(), 2);
    assert!(running.drain().is_empty());
}

fn project(root: &str) -> Project {
    Project {
        root: root.to_string(),
        manifest: Manifest::new("t", None),
        manifest_source: ManifestSource::Toml,
        windows: false,
    }
}

fn files(has_manifest: bool, has_description: bool) -> ProjectFiles {
    ProjectFiles { has_manifest, has_description }
}

#[test]
fn find_project_in_current_dir() {
    assert!(matches!(find_project(&vec![files(true, false)]), Ok((0, ManifestSource::Toml))));
}

#[test]
fn find_project_walks_up() {
    let dirs = vec![files(false, false), files(false, false), files(true, false)];
    assert!(matches!(find_project(&dirs), Ok((2, ManifestSource::Toml))));
}

#[test]
fn find_project_not_found() {
    assert!(find_project(&vec![files(false, false)]).is_err());
    assert!(find_project(&Vec::new()).is_err());
}

#[test]
fn find_description_fallback() {
    assert!(matches!(find_project(&vec![files(false, true)]), Ok((0, ManifestSource::Description))));
}

#[test]
fn toml_preferred_over_description() {
    assert!(matches!(find_project(&vec![files(true, true)]), Ok((0, ManifestSource::Toml))));
}

#[test]
fn path_helpers() {
    let p = project("/proj");
    assert_eq!(p.manifest_path(), "/proj/uvr.toml");
    assert_eq!(p.lock_path(), "/proj/uvr.lock");
    assert_eq!(p.dot_uvr_dir(), "/proj/.uvr");
    assert_eq!(p.library_path(None), "/proj/.uvr/library");
    assert_eq!(p.r_version_pin_path(), "/proj/.r-version");

    let w = Project { windows: true, ..project(r"C:\proj") };
    assert_eq!(w.lock_path(), r"C:\proj\uvr.lock");
    assert_eq!(w.library_path(None), r"C:\proj\.uvr\library");
}

#[test]
fn save_manifest_rejects_description_source() {
    assert!(check_writable(ManifestSource::Description).is_err());
    assert!(check_writable(ManifestSource::Toml).is_ok());
}

#[test]
fn write_and_read_r_version_pin() {
    let written = render_pin("4.3.2");
    assert_eq!(parse_pin(&written).as_deref(), Some("4.3.2"));
    assert_eq!(read_r_version_pin_from(&vec![PinFile::Content(written)]).as_deref(), Some("4.3.2"));
}

#[test]
fn read_r_version_pin_walks_up() {
    let found = vec![PinFile::Absent, PinFile::Content("4.4.1\n".to_string())];
    assert_eq!(read_r_version_pin_from(&found).as_deref(), Some("4.4.1"));
}

#[test]
fn read_r_version_pin_ignores_empty() {
    assert!(read_r_version_pin_from(&vec![PinFile::Content("  \n".to_string())]).is_none());
}

fn rule(name: &str, pattern: &str, packages: &[(&str, &str, &[&str])]) -> SysReqRule {
    SysReqRule {
        name: name.to_string(),
        patterns: vec![pattern.to_string()],
        dependencies: packages
            .iter()
            .map(|(package, distribution, versions)| SysReqDependency {
                packages: vec![package.to_string()],
                constraints: vec![SysReqConstraint {
                    os: Some("linux".to_string()),
                    distribution: Some(distribution.to_string()),
                    versions: versions.iter().map(|v| v.to_string()).collect(),
                }],
            })
            .collect(),
    }
}

fn rules() -> Vec<SysReqRule> {
    vec![
        rule(
            "libxml2",
            r"(?i)\blibxml2\b",
            &[
                ("libxml2-dev", "alpine", &[]),
                ("libxml2-dev", "ubuntu", &[]),
                ("libxml2-devel", "redhat", &["8"]),
            ],
        ),
        rule("gdal", r"(?i)\bgdal\b", &[("gdal-dev", "alpine", &["3.21"]), ("gdal-devel", "redhat", &["8"])]),
        rule("libcurl", r"(?i)\blibcurl\b", &[("curl-dev", "alpine", &[])]),
        rule("xml2", r"(?i)\bxml2?\b", &[("libxml2-dev", "alpine", &[])]),
    ]
}

#[test]
fn xml2_on_alpine_matches_libxml2_dev() {
    let pkgs = resolve_local(&rules(), "libxml2 (>= 2.6.3)", "alpine", "3.21");
    assert!(pkgs.iter().any(|p| p == "libxml2-dev"), "expected libxml2-dev, got {pkgs:?}");
}

#[test]
fn xml2_on_ubuntu_matches_libxml2_dev() {
    let pkgs = resolve_local(&rules(), "libxml2 (>= 2.6.3)", "ubuntu", "22.04");
    assert!(pkgs.iter().any(|p| p == "libxml2-dev"), "expected libxml2-dev, got {pkgs:?}");
}

#[test]
fn curl_on_alpine_matches_curl_dev() {
    let pkgs = resolve_local(
        &rules(),
        "libcurl: libcurl-openssl-dev (deb), libcurl-devel (rpm)",
        "alpine",
        "3.21",
    );
    assert!(!pkgs.is_empty(), "expected at least one package, got empty");
}

#[test]
fn unknown_distro_returns_empty() {
    let pkgs = resolve_local(&rules(), "libxml2", "haiku", "");
    assert!(pkgs.is_empty(), "expected empty, got {pkgs:?}");
}

#[test]
fn empty_sys_reqs_returns_empty() {
    let pkgs = resolve_local(&rules(), "", "alpine", "3.21");
    assert!(pkgs.is_empty());
}

#[test]
fn dedupes_packages_across_rule_matches() {
    let pkgs = resolve_local(&rules(), "libxml2 libxml2 libxml2", "alpine", "3.21");
    let n_libxml = pkgs.iter().filter(|p| *p == "libxml2-dev").count();
    assert_eq!(n_libxml, 1);
    let pkgs = resolve_local(&rules(), "libxml2, xml2", "alpine", "3.21");
    assert_eq!(pkgs, vec!["libxml2-dev"]);
}

#[test]
fn releases_of_alpine_are_cut() {
    let pkgs = resolve_local(&rules(), "GDAL", "alpine", "3.21.4");
    assert_eq!(pkgs, vec!["gdal-dev"]);
}

#[test]
fn broken_patterns_are_noticed() {
    let broken = vec![rule("broken", "(", &[])];
    assert_eq!(resolve_with_rules(&broken, "anything", "alpine", "3.21"), None);
    assert_eq!(
        resolve_with_rules(&rules(), "libxml2", "ubuntu", "22.04"),
        Some(vec!["libxml2-dev".to_string()])
    );
}

#[test]
fn rhel_normalizes_to_the_posit_vocabulary() {
    assert_eq!(normalize_distro("rhel", "8.10"), ("redhat".to_string(), "8".to_string()));
    assert_eq!(normalize_distro("rocky", "9.3"), ("rockylinux".to_string(), "9".to_string()));
    assert_eq!(normalize_distro("almalinux", "10.0"), ("rockylinux".to_string(), "10".to_string()));
    assert_eq!(normalize_distro("sles", "12.3"), ("sle".to_string(), "12.3".to_string()));
}

#[test]
fn non_rhel_distros_keep_their_full_version() {
    assert_eq!(normalize_distro("ubuntu", "22.04"), ("ubuntu".to_string(), "22.04".to_string()));
    assert_eq!(normalize_distro("opensuse-leap", "15.6"), ("opensuse".to_string(), "15.6".to_string()));
    assert_eq!(normalize_distro("debian", "12"), ("debian".to_string(), "12".to_string()));
    assert_eq!(normalize_distro("alpine", "3.24.1"), ("alpine".to_string(), "3.24.1".to_string()));
}

#[test]
fn normalized_rhel_resolves_against_the_local_rules() {
    let (distribution, release) = normalize_distro("rhel", "8.10");
    let pkgs = resolve_local(&rules(), "libxml2 (>= 2.6.3)", &distribution, &release);
    assert!(
        pkgs.iter().any(|p| p == "libxml2-devel"),
        "expected libxml2-devel for rhel-8.10, got {pkgs:?}"
    );
    let gdal = resolve_local(&rules(), "GDAL (>= 2.2.3)", &distribution, &release);
    assert!(
        gdal.iter().any(|p| p == "gdal-devel"),
        "expected gdal-devel for rhel-8.10, got {gdal:?}"
    );
}

#[test]
fn detect_distro_format() {
    let distro = distro_of("ubuntu", "22.04").unwrap();
    assert!(distro.contains('-'), "expected format 'id-version', got: {distro}");
    assert_eq!(distro, "ubuntu-22.04");
    assert_eq!(distro_of("", "22.04"), None);
}

#[test]
fn filter_missing_with_nonexistent_package() {
    let reqs = vec![SysReq { package: "uvr-nonexistent-pkg-12345".to_string() }];
    let missing = filter_missing(&reqs, &vec![Some(false)]);
    assert_eq!(missing.len(), 1);
    assert!(filter_missing(&reqs, &vec![Some(true)]).is_empty());
}

#[test]
fn filter_missing_is_a_no_op_without_a_package_manager() {
    assert!(probe_command(false, false, false).is_none());
    assert_eq!(probe_command(true, true, true).unwrap().0, "dpkg");
}

#[test]
fn detects_ppm_unsupported_system_body() {
    assert!(is_unsupported_system_body(r#"{"code":14,"error":"Unsupported system"}"#));
    assert!(!is_unsupported_system_body(r#"{"requirements":[]}"#));
    assert!(!is_unsupported_system_body(""));
}

#[test]
fn local_fallback_resolves_alpine_xml2_requirements() {
    let pkgs = resolve_local(&rules(), "libxml2 (>= 2.9.0)", "alpine", "3.21");
    assert!(
        pkgs.iter().any(|p| p == "libxml2-dev"),
        "expected libxml2-dev in fallback output, got {pkgs:?}"
    );
}

#[test]
fn bioc_packages_skip_the_posit_api_entirely() {
    let queries = vec![
        PackageSysReqQuery {
            name: "SummarizedExperiment".to_string(),
            system_requirements: None,
            bioc: true,
        },
        PackageSysReqQuery {
            name: "Rhtslib".to_string(),
            system_requirements: Some("libbz2 & liblzma & GNU make".to_string()),
            bioc: true,
        },
    ];
    let mut check = SysReqsCheck::new();
    for q in &queries {
        assert!(!check.wants_lookup(q));
        check.resolve_package(&rules(), q, "ubuntu-22.04", None);
    }
    assert!(!check.lookup_failed, "no API contact → no failed lookups");
    assert!(!check.unsupported_distro);
}

#[test]
fn rules_stand_in_for_the_catalogue() {
    let query = PackageSysReqQuery {
        name: "xml2".to_string(),
        system_requirements: Some("libxml2 (>= 2.9.0)".to_string()),
        bioc: false,
    };
    let mut check = SysReqsCheck::new();
    assert!(check.wants_lookup(&query));
    let found = check.resolve_package(&rules(), &query, "alpine-3.21", Some(SysReqLookup::UnsupportedDistro));
    assert_eq!(found.len(), 1);
    assert_eq!(found[0].package, "libxml2-dev");
    assert!(check.unsupported_distro);
    check.record("xml2", found);
    assert_eq!(check.missing.len(), 1);
}

#[test]
fn replies_of_the_catalogue() {
    assert!(matches!(resolve_system_deps(&CatalogueReply::Unreached), SysReqLookup::LookupFailed));
    assert!(matches!(
        resolve_system_deps(&CatalogueReply::Refused { body: r#"{"code":14,"error":"Unsupported system"}"#.to_string() }),
        SysReqLookup::UnsupportedDistro
    ));
    match resolve_system_deps(&CatalogueReply::Requirements(vec![vec!["a".to_string()], vec!["b".to_string()]])) {
        SysReqLookup::Supported(reqs) => assert_eq!(reqs.len(), 2),
        _ => panic!("the catalogue has answered"),
    }
}

#[test]
fn a_bad_rule_is_told_before_it_is_used() {
    let query = PackageSysReqQuery {
        name: "xml2".to_string(),
        system_requirements: Some("libxml2 (>= 2.9.0)".to_string()),
        bioc: false,
    };
    let mut check = SysReqsCheck::new();
    let found = check.check_package(&rules(), &query, "ubuntu-22.04", Some(SysReqLookup::LookupFailed)).unwrap();
    assert_eq!(found.len(), 1);
    assert_eq!(found[0].package, "libxml2-dev");
    assert!(check.lookup_failed);

    let mut check = SysReqsCheck::new();
    let bad = vec![rule("broken", "(", &[("libxml2-dev", "ubuntu", &[])])];
    assert!(check.check_package(&bad, &query, "ubuntu-22.04", Some(SysReqLookup::LookupFailed)).is_none());
    assert!(!check.lookup_failed);
}
