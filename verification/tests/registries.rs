//! Indexes of packages, and what is known of a package in each kind of registry.
use flate2::write::GzEncoder;
use flate2::Compression;
use std::io::Write;
use uvr_core::dcf::parse_dcf_fields;
use uvr_core::error::UvrError;
use uvr_core::lockfile::PackageSource;
use uvr_core::r_version::host::{HostTriple, Platform};
use uvr_core::registry::bioconductor::{
    bioc_release_for_r, bioc_release_for_version, parse_bioc_text, subrepo_cache_key, subrepo_index_url,
    BiocRegistry,
};
use uvr_core::registry::cran::{
    normalize_triple_drop_vendor, parse_built, parse_dcf_block, parse_dep_field, parse_packages_gz, CranPackageEntry,
    CranRegistry,
};
use uvr_core::registry::forgejo::{
    commits_url, first_commit, forgejo_package, forgejo_token, map_forgejo_error, parse_forgejo_parts, parse_forgejo_remotes,
    parse_forgejo_spec, token_variable,
};
use uvr_core::registry::github::{
    commit_in_reply, commit_refused, commit_url, description_refused, description_url, github_package, is_valid_git_ref, is_valid_github_repo_spec, parse_description_deps,
    parse_github_spec,
};
use uvr_core::registry::gitlab::parse_gitlab_parts;
use uvr_core::registry::index_fetch::{
    index_step, parse_cache_meta, render_cache_meta, repository_addresses, unpack, unpack_text, CacheMeta, IndexAction,
    IndexEvent, IndexJob, IndexPhase, IndexReply,
};
use uvr_core::registry::p3m::{
    bioc_builds_wanted, index_url, package_url, parse_index, platform_info, ppm_linux_codename, usable_builds,
    P3MBinaryIndex, P3MRepo, PlatformInfo,
};
use uvr_core::resolver::requirement::{normalize_version, parse_version_req};
use uvr_core::resolver::solve::PackageRegistry;
use uvr_core::version::Version;

const SAMPLE_PACKAGES: &str = r#"Package: ggplot2
Version: 3.4.4
Depends: R (>= 3.3.0)
Imports: cli, dplyr, glue, gtable (>= 0.1.1), isoband, MASS, mgcv, rlang (>= 1.0.0), scales (>= 1.2.0), stats, tibble, withr
MD5sum: abc123def456

Package: dplyr
Version: 1.1.4
Imports: cli (>= 3.4.0), generics, glue (>= 1.3.2), lifecycle (>= 1.0.3), magrittr (>= 1.5.0), methods, pillar (>= 1.9.0), R6, rlang (>= 1.1.0), tibble (>= 3.2.0), tidyselect (>= 1.2.0), utils, vctrs (>= 0.6.4)
MD5sum: 123abc

Package: scales
Version: 1.1-3
MD5sum: def789

"#;

#[test]
fn parse_packages() {
    let index = parse_packages_gz(SAMPLE_PACKAGES).unwrap();
    assert_eq!(index.len(), 3);

    let gg = index.get_best("ggplot2", None).unwrap();
    assert!(gg.version.equals(&Version::parse("3.4.4").unwrap()));
    assert_eq!(gg.raw_version, "3.4.4");
    assert!(!gg.md5sum.is_empty());
    assert!(gg.all_requires().contains(&"dplyr".to_string()));
    assert!(!gg.all_requires().contains(&"R".to_string()));

    let deps = gg.requires_as_deps();
    let rlang_dep = deps.iter().find(|d| d.name == "rlang").unwrap();
    assert_eq!(rlang_dep.constraint.as_deref(), Some(">=1.0.0"));
}

#[test]
fn raw_version_preserved_for_url() {
    let index = parse_packages_gz(SAMPLE_PACKAGES).unwrap();
    let scales = index.get_best("scales", None).unwrap();
    assert!(scales.version.equals(&Version::parse("1.1.3").unwrap()));
    assert_eq!(scales.raw_version, "1.1-3");
    assert!(scales.tarball_url().contains("scales_1.1-3.tar.gz"));
}

#[test]
fn parse_dep_field_test() {
    let deps = parse_dep_field("dplyr (>= 1.0.0), rlang, R (>= 4.1.0)");
    assert_eq!(deps.len(), 3);
    assert_eq!(deps[0].name, "dplyr");
    assert!(deps[0].req.is_some());
    assert_eq!(deps[1].name, "rlang");
    assert!(deps[1].req.is_none());
}

#[test]
fn parse_dep_field_malformed_constraint_falls_back_to_unconstrained() {
    let deps = parse_dep_field("rlang (=> 1.0.0), dplyr (>= 1.0.0)");
    assert_eq!(deps.len(), 2);
    assert_eq!(deps[0].name, "rlang");
    assert!(
        deps[0].req.is_none(),
        "malformed constraint should fall back to unconstrained"
    );
    assert_eq!(deps[1].name, "dplyr");
    assert!(deps[1].req.is_some(), "valid constraint still parsed");
}

#[test]
fn parse_dcf_block_unparseable_version_dropped() {
    let block = "Package: weird\nVersion: not-a-version\nMD5sum: abc\n";
    assert!(
        parse_dcf_block(block).is_none(),
        "unparseable version should drop the entry"
    );

    let ok = "Package: fine\nVersion: 1.2.3\nMD5sum: abc\n";
    assert!(parse_dcf_block(ok).is_some());
}

#[test]
fn constraint_version_req_roundtrip() {
    let req = parse_version_req(">=1.0.0").unwrap();
    let s = req.text.clone();
    let req2 = parse_version_req(&s).unwrap();
    assert!(req2.matches(&Version::parse("1.1.0").unwrap()));
}

#[test]
fn system_requirements_parsed() {
    let dcf =
        "Package: xml2\nVersion: 1.3.6\nSystemRequirements: libxml2 (>= 2.9.0)\nMD5sum: abc\n";
    let entry = parse_dcf_block(dcf).unwrap();
    assert_eq!(
        entry.system_requirements.as_deref(),
        Some("libxml2 (>= 2.9.0)")
    );

    let dcf2 = "Package: dplyr\nVersion: 1.1.4\nMD5sum: def\n";
    let entry2 = parse_dcf_block(dcf2).unwrap();
    assert!(entry2.system_requirements.is_none());
}

#[test]
fn parse_built_canonical() {
    let b =
        parse_built("R 4.5.0; x86_64-pc-linux-musl; 2025-01-15 12:00:00 UTC; unix").unwrap();
    assert_eq!(b.r_version, "4.5.0");
    assert_eq!(b.platform, "x86_64-pc-linux-musl");
    assert_eq!(b.date, "2025-01-15 12:00:00 UTC");
    assert_eq!(b.os_family, "unix");
}

#[test]
fn parse_built_extra_fields_ignored() {
    let b = parse_built("R 4.5.0; x86_64-pc-linux-gnu; 2025-01-15; unix; extra; junk").unwrap();
    assert_eq!(b.os_family, "unix");
}

#[test]
fn parse_built_too_few_fields_returns_none() {
    assert!(parse_built("R 4.5.0; x86_64-pc-linux-musl").is_none());
    assert!(parse_built("R 4.5.0; x86_64; 2025-01-15").is_none());
}

#[test]
fn parse_built_no_r_prefix_returns_none() {
    assert!(parse_built("4.5.0; x86_64-pc-linux-musl; 2025-01-15; unix").is_none());
}

#[test]
fn parse_built_unparseable_returns_none() {
    assert!(parse_built("garbage").is_none());
    assert!(parse_built("").is_none());
}

#[test]
fn parse_built_with_whitespace_around_separators() {
    let b = parse_built("R 4.5.0 ; x86_64-pc-linux-musl ; 2025-01-15 ; unix").unwrap();
    assert_eq!(b.r_version, "4.5.0");
    assert_eq!(b.platform, "x86_64-pc-linux-musl");
}

#[test]
fn parse_dcf_extracts_path_and_built() {
    let block = "Package: rlang
Version: 1.1.6
Path: linux/musl-3.23
Built: R 4.5.0; x86_64-pc-linux-musl; 2025-01-15 12:00:00 UTC; unix
MD5sum: abc123";
    let entry = parse_dcf_block(block).unwrap();
    assert_eq!(entry.name, "rlang");
    assert_eq!(entry.path.as_deref(), Some("linux/musl-3.23"));
    let b = entry.built.as_ref().unwrap();
    assert_eq!(b.platform, "x86_64-pc-linux-musl");
}

#[test]
fn parse_dcf_no_path_no_built_regression() {
    let block = "Package: jsonlite
Version: 1.8.8
MD5sum: deadbeef";
    let entry = parse_dcf_block(block).unwrap();
    assert!(entry.path.is_none());
    assert!(entry.built.is_none());
}

#[test]
fn parse_dcf_built_unparseable_yields_none() {
    let block = "Package: foo
Version: 1.0
Built: garbage-not-actually-built-format";
    let entry = parse_dcf_block(block).unwrap();
    assert!(entry.built.is_none(), "garbage Built: should be ignored");
}

fn entry_with_path(path: Option<&str>) -> CranPackageEntry {
    CranPackageEntry {
        name: "rlang".into(),
        version: Version::parse("1.1.6").unwrap(),
        raw_version: "1.1.6".into(),
        depends: vec![],
        imports: vec![],
        linking_to: vec![],
        md5sum: String::new(),
        system_requirements: None,
        path: path.map(|p| p.to_string()),
        built: None,
    }
}

#[test]
fn tarball_url_no_path_unchanged() {
    let entry = entry_with_path(None);
    assert_eq!(
        entry.tarball_url_with_base("https://example.com/src/contrib"),
        "https://example.com/src/contrib/rlang_1.1.6.tar.gz"
    );
}

#[test]
fn tarball_url_with_path_appends_subdir() {
    let entry = entry_with_path(Some("linux/musl-3.23"));
    assert_eq!(
        entry.tarball_url_with_base("https://example.com/src/contrib"),
        "https://example.com/src/contrib/linux/musl-3.23/rlang_1.1.6.tar.gz"
    );
}

#[test]
fn tarball_url_rejects_path_traversal() {
    let entry = entry_with_path(Some("../../../etc"));
    assert_eq!(
        entry.tarball_url_with_base("https://example.com/src/contrib"),
        "https://example.com/src/contrib/rlang_1.1.6.tar.gz"
    );
}

#[test]
fn tarball_url_rejects_absolute_path() {
    let entry = entry_with_path(Some("/usr/bin"));
    assert_eq!(
        entry.tarball_url_with_base("https://example.com/src/contrib"),
        "https://example.com/src/contrib/rlang_1.1.6.tar.gz"
    );
}

#[test]
fn tarball_url_empty_path_treated_as_none() {
    let entry = entry_with_path(Some(""));
    assert_eq!(
        entry.tarball_url_with_base("https://example.com/src/contrib"),
        "https://example.com/src/contrib/rlang_1.1.6.tar.gz"
    );
}

fn registry_from_packages(text: &str, src_base: &str) -> CranRegistry {
    let index = parse_packages_gz(text).unwrap();
    CranRegistry::for_test(index, src_base.to_string())
}

fn musl_alpine_host() -> HostTriple {
    HostTriple {
        arch: "x86_64".into(),
        vendor: "pc".into(),
        os: "linux".into(),
        abi: "musl".into(),
    }
}

fn gnu_ubuntu_host() -> HostTriple {
    HostTriple {
        arch: "x86_64".into(),
        vendor: "pc".into(),
        os: "linux".into(),
        abi: "gnu".into(),
    }
}

#[test]
fn built_matches_host_exact_alpine() {
    let b = parse_built("R 4.5.0; x86_64-pc-linux-musl; 2025-01-15; unix").unwrap();
    assert!(b.matches_host(&musl_alpine_host(), "4.5"));
}

#[test]
fn built_matches_host_r_minor_patch_ignored() {
    let b = parse_built("R 4.5.0; x86_64-pc-linux-musl; 2025-01-15; unix").unwrap();
    assert!(b.matches_host(&musl_alpine_host(), "4.5"));
    let b2 = parse_built("R 4.5.3; x86_64-pc-linux-musl; 2025-01-15; unix").unwrap();
    assert!(b2.matches_host(&musl_alpine_host(), "4.5"));
}

#[test]
fn built_mismatches_r_minor() {
    let b = parse_built("R 4.4.0; x86_64-pc-linux-musl; 2025-01-15; unix").unwrap();
    assert!(!b.matches_host(&musl_alpine_host(), "4.5"));
}

#[test]
fn built_mismatches_libc() {
    let b = parse_built("R 4.5.0; x86_64-pc-linux-gnu; 2025-01-15; unix").unwrap();
    assert!(!b.matches_host(&musl_alpine_host(), "4.5"));
}

#[test]
fn built_mismatches_arch() {
    let b = parse_built("R 4.5.0; aarch64-pc-linux-musl; 2025-01-15; unix").unwrap();
    assert!(!b.matches_host(&musl_alpine_host(), "4.5"));
}

#[test]
fn built_mismatches_os_family_windows_on_linux() {
    let b = parse_built("R 4.5.0; x86_64-w64-mingw32; 2025-01-15; windows").unwrap();
    assert!(!b.matches_host(&gnu_ubuntu_host(), "4.5"));
}

#[test]
fn is_binary_capable_yes_with_musl_built() {
    let pkgs = "Package: rlang
Version: 1.1.6
Built: R 4.5.0; x86_64-pc-linux-musl; 2025-01-15; unix

";
    let reg = registry_from_packages(pkgs, "https://example.com/src/contrib");
    assert!(reg.is_binary_capable(&musl_alpine_host(), "4.5"));
}

#[test]
fn is_binary_capable_no_for_source_only() {
    let pkgs = "Package: rlang
Version: 1.1.6

";
    let reg = registry_from_packages(pkgs, "https://example.com/src/contrib");
    assert!(!reg.is_binary_capable(&musl_alpine_host(), "4.5"));
}

#[test]
fn is_binary_capable_no_for_wrong_libc() {
    let pkgs = "Package: rlang
Version: 1.1.6
Built: R 4.5.0; x86_64-pc-linux-gnu; 2025-01-15; unix

";
    let reg = registry_from_packages(pkgs, "https://example.com/src/contrib");
    assert!(!reg.is_binary_capable(&musl_alpine_host(), "4.5"));
}

#[test]
fn binary_url_for_returns_url_when_match() {
    let pkgs = "Package: rlang
Version: 1.1.6
Built: R 4.5.0; x86_64-pc-linux-musl; 2025-01-15; unix

";
    let reg = registry_from_packages(pkgs, "https://example.com/src/contrib");
    assert_eq!(
        reg.binary_url_for("rlang", "1.1.6", &musl_alpine_host(), "4.5"),
        Some("https://example.com/src/contrib/rlang_1.1.6.tar.gz".to_string())
    );
}

#[test]
fn binary_url_for_honors_path() {
    let pkgs = "Package: rlang
Version: 1.1.6
Path: x86_64/alpine-3.23
Built: R 4.5.0; x86_64-pc-linux-musl; 2025-01-15; unix

";
    let reg = registry_from_packages(pkgs, "https://example.com/src/contrib");
    assert_eq!(
        reg.binary_url_for("rlang", "1.1.6", &musl_alpine_host(), "4.5"),
        Some(
            "https://example.com/src/contrib/x86_64/alpine-3.23/rlang_1.1.6.tar.gz".to_string()
        )
    );
}

#[test]
fn binary_url_for_returns_none_when_no_match() {
    let pkgs = "Package: rlang
Version: 1.1.6

";
    let reg = registry_from_packages(pkgs, "https://example.com/src/contrib");
    assert!(reg
        .binary_url_for("rlang", "1.1.6", &musl_alpine_host(), "4.5")
        .is_none());
}

#[test]
fn binary_url_for_returns_none_for_unknown_package() {
    let pkgs = "Package: rlang
Version: 1.1.6
Built: R 4.5.0; x86_64-pc-linux-musl; 2025-01-15; unix

";
    let reg = registry_from_packages(pkgs, "https://example.com/src/contrib");
    assert!(reg
        .binary_url_for("nonexistent", "0.0.0", &musl_alpine_host(), "4.5")
        .is_none());
}

#[test]
fn matches_host_ignores_vendor_alpine_r_reports_unknown() {
    let b = parse_built("R 4.5.2; aarch64-unknown-linux-musl; 2025-01-15; unix").unwrap();
    let host = HostTriple {
        arch: "aarch64".into(),
        vendor: "pc".into(),
        os: "linux".into(),
        abi: "musl".into(),
    };
    assert!(b.matches_host(&host, "4.5"));
}

#[test]
fn matches_host_ignores_vendor_inverse_direction() {
    let b = parse_built("R 4.5.0; x86_64-pc-linux-gnu; 2025-01-15; unix").unwrap();
    let host = HostTriple {
        arch: "x86_64".into(),
        vendor: "unknown".into(),
        os: "linux".into(),
        abi: "gnu".into(),
    };
    assert!(b.matches_host(&host, "4.5"));
}

#[test]
fn matches_host_still_rejects_arch_mismatch() {
    let b = parse_built("R 4.5.0; aarch64-pc-linux-musl; 2025-01-15; unix").unwrap();
    let host = HostTriple {
        arch: "x86_64".into(),
        vendor: "pc".into(),
        os: "linux".into(),
        abi: "musl".into(),
    };
    assert!(!b.matches_host(&host, "4.5"));
}

#[test]
fn matches_host_still_rejects_abi_mismatch_with_relaxed_vendor() {
    let b = parse_built("R 4.5.0; x86_64-unknown-linux-gnu; 2025-01-15; unix").unwrap();
    let host = HostTriple {
        arch: "x86_64".into(),
        vendor: "pc".into(),
        os: "linux".into(),
        abi: "musl".into(),
    };
    assert!(!b.matches_host(&host, "4.5"));
}

#[test]
fn normalize_triple_drop_vendor_examples() {
    assert_eq!(
        normalize_triple_drop_vendor("aarch64-unknown-linux-musl"),
        "aarch64-linux-musl"
    );
    assert_eq!(
        normalize_triple_drop_vendor("aarch64-pc-linux-musl"),
        "aarch64-linux-musl"
    );
    assert_eq!(
        normalize_triple_drop_vendor("x86_64-w64-mingw32"),
        "x86_64-mingw32"
    );
    assert_eq!(
        normalize_triple_drop_vendor("aarch64-apple-darwin20"),
        "aarch64-darwin20"
    );
    assert_eq!(normalize_triple_drop_vendor("aarch64"), "aarch64");
    assert_eq!(normalize_triple_drop_vendor("aarch64-musl"), "aarch64-musl");
    assert_eq!(normalize_triple_drop_vendor(""), "");
}

fn make_entry(name: &str, raw_version: &str, md5: &str) -> CranPackageEntry {
    let parts: Vec<u64> = raw_version
        .split(['.', '-'])
        .filter_map(|s| s.parse().ok())
        .collect();
    let version = Version::new(
        parts.first().copied().unwrap_or(0),
        parts.get(1).copied().unwrap_or(0),
        parts.get(2).copied().unwrap_or(0),
    );
    CranPackageEntry {
        name: name.to_string(),
        version,
        raw_version: raw_version.to_string(),
        depends: vec![],
        imports: vec![],
        linking_to: vec![],
        md5sum: md5.to_string(),
        system_requirements: None,
        path: None,
        built: None,
    }
}

#[test]
fn bioc_release_mapping() {
    assert_eq!(bioc_release_for_r(4, 5), "3.21");
    assert_eq!(bioc_release_for_r(4, 4), "3.20");
    assert_eq!(bioc_release_for_r(4, 3), "3.18");
    assert_eq!(bioc_release_for_r(4, 2), "3.16");
    assert_eq!(bioc_release_for_r(4, 1), "3.14");
    assert_eq!(bioc_release_for_r(4, 0), "3.12");
}

#[test]
fn bioc_release_fallback() {
    assert_eq!(bioc_release_for_r(5, 0), "3.21");
    assert_eq!(bioc_release_for_r(3, 6), "3.21");
}

#[test]
fn resolve_missing_package() {
    let registry = BiocRegistry::new("3.20");
    let result = registry.resolve_package("NonExistentPkg", None);
    assert!(result.is_err());
}

#[test]
fn resolve_software_package_uses_bioc_subrepo() {
    let mut registry = BiocRegistry::new("3.20");
    registry.add("DESeq2", make_entry("DESeq2", "1.42.0", "abc123"), "bioc");
    let info = registry.resolve_package("DESeq2", None).unwrap();
    assert_eq!(info.source, PackageSource::Bioconductor);
    assert!(info
        .url
        .contains("/3.20/bioc/src/contrib/DESeq2_1.42.0.tar.gz"));
    assert_eq!(info.checksum, Some("md5:abc123".to_string()));
}

#[test]
fn resolve_annotation_package_uses_data_annotation_subrepo() {
    let mut registry = BiocRegistry::new("3.21");
    registry.add("GenomeInfoDbData", make_entry("GenomeInfoDbData", "1.2.13", ""), "data/annotation");
    let info = registry.resolve_package("GenomeInfoDbData", None).unwrap();
    assert!(info
        .url
        .contains("/3.21/data/annotation/src/contrib/GenomeInfoDbData_1.2.13.tar.gz"));
    assert_eq!(info.checksum, None);
}

#[test]
fn resolve_package_constraint_mismatch() {
    let mut registry = BiocRegistry::new("3.18");
    registry.add("SummarizedExperiment", make_entry("SummarizedExperiment", "1.30.0", ""), "bioc");
    let result = registry.resolve_package("SummarizedExperiment", Some(">=2.0.0"));
    assert!(result.is_err());
}

#[test]
fn release_returns_bioc_version() {
    let registry = BiocRegistry::new("3.20");
    assert_eq!(registry.release(), "3.20");
}

#[test]
fn parse_multiline_description_deps() {
    let desc = "\
Package: mypkg
Version: 1.0.0
Imports: cli (>= 3.4.0), generics,
    glue,
    lifecycle (>= 1.0.3),
    rlang (>= 1.1.0)
Depends: R (>= 3.5.0)
";
    let fields = parse_dcf_fields(desc);
    let deps = parse_description_deps(&fields);
    let names: Vec<&str> = deps.iter().map(|d| d.name.as_str()).collect();
    assert!(names.contains(&"cli"), "missing cli: {names:?}");
    assert!(names.contains(&"generics"), "missing generics: {names:?}");
    assert!(names.contains(&"glue"), "missing glue: {names:?}");
    assert!(names.contains(&"lifecycle"), "missing lifecycle: {names:?}");
    assert!(names.contains(&"rlang"), "missing rlang: {names:?}");
    assert!(!names.contains(&"R"), "R should be filtered: {names:?}");
}

#[test]
fn parse_description_deps_empty() {
    let desc = "Package: mypkg\nVersion: 1.0.0\n";
    let fields = parse_dcf_fields(desc);
    let deps = parse_description_deps(&fields);
    assert!(deps.is_empty());
}

#[test]
fn parse_spec() {
    let (user, repo, git_ref) = parse_github_spec("user/myrepo@main").unwrap();
    assert_eq!(user, "user");
    assert_eq!(repo, "myrepo");
    assert_eq!(git_ref, "main");

    let (_user, _repo, git_ref) = parse_github_spec("tidyverse/ggplot2").unwrap();
    assert_eq!(git_ref, "HEAD");
}

#[test]
fn parse_spec_happy() {
    let (host, owner, repo, git_ref) =
        parse_forgejo_spec("forgejo::codefloe.com/pat-s/mypkg@v0.1.0").unwrap();
    assert_eq!(host, "codefloe.com");
    assert_eq!(owner, "pat-s");
    assert_eq!(repo, "mypkg");
    assert_eq!(git_ref, "v0.1.0");
}

#[test]
fn parse_spec_default_ref() {
    let (_h, _o, _r, git_ref) =
        parse_forgejo_spec("forgejo::codefloe.com/pat-s/mypkg").unwrap();
    assert_eq!(git_ref, "HEAD");
}

#[test]
fn parse_spec_with_port() {
    let (host, _, _, _) = parse_forgejo_spec("forgejo::git.local:3000/u/r").unwrap();
    assert_eq!(host, "git.local:3000");
}

#[test]
fn parse_spec_accepts_unprefixed() {
    let parsed = parse_forgejo_spec("codefloe.com/pat-s/mypkg@main").unwrap();
    assert_eq!(parsed.0, "codefloe.com");
    assert_eq!(parsed.3, "main");
}

#[test]
fn parse_spec_rejects_scheme_in_host() {
    assert!(parse_forgejo_spec("forgejo::https://codefloe.com/u/r").is_none());
}

#[test]
fn parse_spec_rejects_wrong_segment_count() {
    assert!(parse_forgejo_spec("forgejo::codefloe.com/u").is_none());
    assert!(parse_forgejo_spec("forgejo::codefloe.com/u/r/extra").is_none());
}

#[test]
fn parse_spec_rejects_empty_segments() {
    assert!(parse_forgejo_spec("forgejo:://u/r").is_none());
    assert!(parse_forgejo_spec("forgejo::codefloe.com//r").is_none());
    assert!(parse_forgejo_spec("forgejo::codefloe.com/u/").is_none());
}

#[test]
fn parts_ref_is_none_when_absent_head_when_via_spec() {
    let p = parse_forgejo_parts("forgejo::codefloe.com/pat-s/mypkg").unwrap();
    assert_eq!(p.git_ref, None);
    assert_eq!(p.repo, "mypkg");
    assert_eq!(
        parse_forgejo_spec("forgejo::codefloe.com/pat-s/mypkg")
            .unwrap()
            .3,
        "HEAD"
    );

    let p = parse_forgejo_parts("forgejo::codefloe.com/pat-s/mypkg@v1.0").unwrap();
    assert_eq!(p.git_ref.as_deref(), Some("v1.0"));
}

#[test]
fn parts_validates_owner_and_repo_chars() {
    assert!(parse_forgejo_parts("forgejo::codefloe.com/pat-s/my;rm -rf").is_none());
    assert!(parse_forgejo_parts("forgejo::codefloe.com/own$er/mypkg").is_none());
    assert!(parse_forgejo_parts("forgejo::codefloe.com/pat-s/my_pkg.v2").is_some());
}

#[test]
fn token_lookup() {
    let host = "lookup-test-host.example";
    assert_eq!(token_variable(host), "UVR_FORGEJO_TOKEN_LOOKUP_TEST_HOST_EXAMPLE");
    assert_eq!(forgejo_token(Some("host-specific"), Some("global")).as_deref(), Some("host-specific"));
    assert_eq!(forgejo_token(None, Some("global")).as_deref(), Some("global"));
    assert_eq!(forgejo_token(None, None), None);
    assert_eq!(token_variable("git.local:3000"), "UVR_FORGEJO_TOKEN_GIT_LOCAL");
    assert_eq!(forgejo_token(Some("t"), None).as_deref(), Some("t"));
    assert_eq!(forgejo_token(None, Some("   ")).as_deref(), None);
}

#[test]
fn parse_forgejo_remotes_keeps_all_git_bearing_entries() {
    let desc = "\
Package: x
Version: 0.1.0
Remotes: forgejo::codefloe.com/pat-s/mypkg@v0.1.0,
    github::user/other,
    gitlab::someone/skipme
";
    let fields = parse_dcf_fields(desc);
    let remotes = parse_forgejo_remotes(&fields);
    let pairs: Vec<(&str, &str)> = remotes
        .iter()
        .map(|(n, g, _)| (n.as_str(), g.as_str()))
        .collect();
    assert_eq!(
        pairs,
        vec![
            ("mypkg", "forgejo::codefloe.com/pat-s/mypkg"),
            ("other", "user/other"),
        ]
    );
    assert_eq!(remotes[0].2.as_deref(), Some("v0.1.0"));
}

fn macos_arm64_info() -> PlatformInfo {
    PlatformInfo {
        url_segment: "macosx/big-sur-arm64".to_string(),
        cache_key: "macos-arm64".to_string(),
        pkg_ext: "tgz".to_string(),
        is_linux: false,
        linux_codename: None,
        user_agent: None,
    }
}

fn windows_info() -> PlatformInfo {
    PlatformInfo {
        url_segment: "windows".to_string(),
        cache_key: "windows".to_string(),
        pkg_ext: "zip".to_string(),
        is_linux: false,
        linux_codename: None,
        user_agent: None,
    }
}

fn linux_info(codename: &str) -> PlatformInfo {
    PlatformInfo {
        url_segment: String::new(),
        cache_key: format!("linux-{codename}-x86_64"),
        pkg_ext: "tar.gz".to_string(),
        is_linux: true,
        linux_codename: Some(codename.to_string()),
        user_agent: Some("R (4.5.3 x86_64-pc-linux-gnu x86_64 linux-gnu)".to_string()),
    }
}

#[test]
fn parse_index_basic() {
    let text = "\
Package: ggplot2
Version: 3.5.1

Package: dplyr
Version: 1.1.4

";
    let info = macos_arm64_info();
    let index = parse_index(text, "4.4", &info, &P3MRepo::Cran);
    assert_eq!(index.len(), 2);

    let url = index.binary_url("ggplot2", "3.5.1").unwrap();
    assert!(url.contains("ggplot2_3.5.1.tgz"));
    assert!(url.contains("big-sur-arm64"));
    assert!(url.contains("4.4"));

    let url = index.binary_url("dplyr", "1.1.4").unwrap();
    assert!(url.contains("dplyr_1.1.4.tgz"));
}

#[test]
fn parse_index_windows() {
    let text = "Package: jsonlite\nVersion: 1.8.8\n\n";
    let info = windows_info();
    let index = parse_index(text, "4.4", &info, &P3MRepo::Cran);
    let url = index.binary_url("jsonlite", "1.8.8").unwrap();
    assert!(url.contains("jsonlite_1.8.8.zip"));
    assert!(url.contains("/windows/"));
}

#[test]
fn parse_index_empty() {
    let info = macos_arm64_info();
    let index = parse_index("", "4.4", &info, &P3MRepo::Cran);
    assert_eq!(index.len(), 0);
}

#[test]
fn parse_index_bioc_uses_bioconductor_url() {
    let text = "Package: edgeR\nVersion: 4.6.3\n\n";
    let info = macos_arm64_info();
    let index = parse_index(text, "4.5", &info, &P3MRepo::Bioc("3.21".to_string()));
    let url = index.binary_url("edgeR", "4.6.3").unwrap();
    assert!(url.contains("bioconductor.org/packages/3.21/bioc/bin"));
    assert!(url.contains("edgeR_4.6.3.tgz"));
}

#[test]
fn binary_url_version_mismatch() {
    let text = "Package: ggplot2\nVersion: 3.5.1\n\n";
    let info = macos_arm64_info();
    let index = parse_index(text, "4.4", &info, &P3MRepo::Cran);
    assert!(index.binary_url("ggplot2", "3.4.0").is_none());
    assert!(index.binary_url("dplyr", "3.5.1").is_none());
}

#[test]
fn binary_url_version_normalization() {
    let text = "Package: RcppArmadillo\nVersion: 14.2.2-1\n\n";
    let info = macos_arm64_info();
    let index = parse_index(text, "4.4", &info, &P3MRepo::Cran);
    let normalized = normalize_version("14.2.2-1");
    assert!(index.binary_url("RcppArmadillo", &normalized).is_some());
}

#[test]
fn platform_info_macos_arm64() {
    let info = platform_info(Platform::MacOsArm64, None, "4.5").unwrap();
    assert_eq!(info.url_segment, "macosx/big-sur-arm64");
    assert_eq!(info.pkg_ext, "tgz");
    assert!(!info.is_linux);
}

#[test]
fn platform_info_windows() {
    let info = platform_info(Platform::WindowsX86_64, None, "4.5").unwrap();
    assert_eq!(info.url_segment, "windows");
    assert_eq!(info.pkg_ext, "zip");
    assert!(!info.is_linux);
}

#[test]
fn platform_info_linux_supported_distro() {
    let info = platform_info(Platform::LinuxX86_64, Some("ubuntu-2204"), "4.5")
        .expect("ubuntu-2204 covered");
    assert!(info.is_linux);
    assert_eq!(info.linux_codename.as_deref(), Some("jammy"));
    assert_eq!(info.pkg_ext, "tar.gz");
    assert!(info
        .user_agent
        .as_deref()
        .is_some_and(|ua| ua.contains("R (") && ua.contains("linux-gnu")));
}

#[test]
fn platform_info_linux_unknown_distro_none() {
    assert!(platform_info(Platform::LinuxX86_64, Some("slackware-15"), "4.5").is_none());
    assert!(platform_info(Platform::LinuxArm64, Some("nixos-2411"), "4.5").is_none());
    assert!(platform_info(Platform::LinuxX86_64, None, "4.5").is_none());
}

#[test]
fn linux_index_url_uses_codename_and_src_contrib() {
    let info = linux_info("jammy");
    let url = index_url(&P3MRepo::Cran, &info, "4.5");
    assert_eq!(
        url,
        "https://packagemanager.posit.co/cran/__linux__/jammy/latest/src/contrib/PACKAGES.gz"
    );
}

#[test]
fn linux_package_url_drops_r_minor_segment() {
    let info = linux_info("bookworm");
    let url = package_url(&P3MRepo::Cran, &info, "4.5", "ggplot2", "3.5.1");
    assert_eq!(
        url,
        "https://packagemanager.posit.co/cran/__linux__/bookworm/latest/src/contrib/ggplot2_3.5.1.tar.gz"
    );
}

#[test]
fn parse_index_linux_yields_linux_url() {
    let text = "Package: jsonlite\nVersion: 1.8.8\n\n";
    let info = linux_info("jammy");
    let index = parse_index(text, "4.5", &info, &P3MRepo::Cran);
    let url = index.binary_url("jsonlite", "1.8.8").unwrap();
    assert!(url.contains("/__linux__/jammy/"));
    assert!(url.ends_with("jsonlite_1.8.8.tar.gz"));
}

#[test]
fn ppm_codename_mapping_known_distros() {
    assert_eq!(ppm_linux_codename("ubuntu-2204"), Some("jammy"));
    assert_eq!(ppm_linux_codename("ubuntu-2404"), Some("noble"));
    assert_eq!(ppm_linux_codename("debian-12"), Some("bookworm"));
    assert_eq!(ppm_linux_codename("rhel-9"), Some("rhel9"));
    assert_eq!(ppm_linux_codename("opensuse-155"), Some("opensuse155"));
    assert!(ppm_linux_codename("alpine-3.21").is_none());
}

#[test]
fn ppm_codename_rhel_centos_naming_discontinuity() {
    assert_eq!(ppm_linux_codename("rhel-7"), Some("centos7"));
    assert_eq!(ppm_linux_codename("centos-7"), Some("centos7"));
    assert_eq!(ppm_linux_codename("rhel-8"), Some("centos8"));
    assert_eq!(ppm_linux_codename("centos-8"), Some("centos8"));
    assert_eq!(ppm_linux_codename("rhel-9"), Some("rhel9"));
    assert_eq!(ppm_linux_codename("centos-9"), Some("rhel9"));
}

#[test]
fn linux_user_agent_uses_r_minor_not_hardcoded() {
    let info_x86 =
        platform_info(Platform::LinuxX86_64, Some("ubuntu-2204"), "4.6").expect("supported");
    let ua = info_x86.user_agent.expect("Linux gets a UA");
    assert!(ua.starts_with("R (4.6.0 x86_64-pc-linux-gnu"), "got {ua}");
    assert!(ua.contains("linux-gnu"));

    let info_arm =
        platform_info(Platform::LinuxArm64, Some("debian-12"), "4.5").expect("supported");
    let ua = info_arm.user_agent.expect("Linux gets a UA");
    assert!(ua.starts_with("R (4.5.0 aarch64-pc-linux-gnu"), "got {ua}");
}

#[test]
fn empty_index() {
    let idx = P3MBinaryIndex::empty();
    assert!(idx.binary_url("anything", "1.0.0").is_none());
}

fn gz(text: &str) -> Vec<u8> {
    let mut enc = GzEncoder::new(Vec::new(), Compression::default());
    enc.write_all(text.as_bytes()).unwrap();
    enc.finish().unwrap()
}

#[test]
fn index_is_unpacked_and_read() {
    let text = unpack_text(&gz(SAMPLE_PACKAGES)).unwrap();
    assert_eq!(parse_packages_gz(&text).unwrap().len(), 3);
    assert_eq!(unpack_text(&gz("some text")).unwrap(), "some text");
    assert!(unpack(b"not compressed").is_err());
}

#[test]
fn cache_notes_are_read_back() {
    let meta = CacheMeta { etag: Some("\"abc\"".to_string()), last_modified: Some("Mon, 01 Jan 2024".to_string()) };
    let read = parse_cache_meta(&render_cache_meta(&meta));
    assert_eq!(read.etag, meta.etag);
    assert_eq!(read.last_modified, meta.last_modified);
}

fn cran_job(force_refresh: bool) -> IndexJob {
    IndexJob::repository("x", force_refresh)
}

#[test]
fn copies_of_an_index_are_kept_as_long_as_they_serve() {
    let meta = || CacheMeta { etag: Some("e".to_string()), last_modified: None };
    let there = || IndexEvent::Copy { there: true, meta: Some(meta()) };
    assert_eq!(index_step(&cran_job(true), IndexPhase::Looking, there()).1, IndexAction::Download);
    let none = IndexEvent::Copy { there: false, meta: None };
    assert_eq!(index_step(&cran_job(false), IndexPhase::Looking, none).1, IndexAction::Download);
    let (phase, action) = index_step(&cran_job(false), IndexPhase::Looking, there());
    assert_eq!(action, IndexAction::Ask(meta()));
    let offline = IndexEvent::Reply(IndexReply::Failed { reason: "offline".to_string() });
    let (phase, action) = index_step(&cran_job(false), phase, offline);
    assert_eq!(action, IndexAction::ReadCopy);
    let (_, action) = index_step(&cran_job(false), phase, IndexEvent::CopyRead(b"Package: a".to_vec()));
    assert_eq!(action, IndexAction::Use { text: "Package: a".to_string(), meta: None });
}

#[test]
fn state_of_an_index_follows_its_copy() {
    let meta = || CacheMeta { etag: Some("new".to_string()), last_modified: None };
    let reply = || IndexEvent::Reply(IndexReply::Success { body: gz("Package: a"), meta: meta() });
    let (phase, action) = index_step(&cran_job(false), IndexPhase::Downloading, reply());
    assert_eq!(action, IndexAction::Keep(b"Package: a".to_vec()));
    let (_, action) = index_step(&cran_job(false), phase, IndexEvent::Kept(false));
    assert_eq!(action, IndexAction::Use { text: "Package: a".to_string(), meta: None });
    let (phase, _) = index_step(&cran_job(false), IndexPhase::Downloading, reply());
    let (_, action) = index_step(&cran_job(false), phase, IndexEvent::Kept(true));
    assert_eq!(action, IndexAction::Use { text: "Package: a".to_string(), meta: Some(meta()) });
}

#[test]
fn refused_downloads_of_an_index_fail() {
    let refused = IndexEvent::Reply(IndexReply::Refused { status: "503 Service Unavailable".to_string() });
    let (_, action) = index_step(&cran_job(false), IndexPhase::Downloading, refused);
    assert_eq!(
        action,
        IndexAction::Fail(UvrError::Other(
            "Failed to fetch package index from x (HTTP 503 Service Unavailable)".to_string()
        ))
    );
    let broken = IndexEvent::Reply(IndexReply::Broken { reason: "cut".to_string() });
    let (_, action) = index_step(&cran_job(false), IndexPhase::Asking, broken);
    assert_eq!(action, IndexAction::Fail(UvrError::Network("cut".to_string())));
    let strict = IndexJob::subrepo("bioc");
    let refused = IndexEvent::Reply(IndexReply::Refused { status: "404 Not Found".to_string() });
    let (_, action) = index_step(&strict, IndexPhase::Downloading, refused);
    assert_eq!(
        action,
        IndexAction::Fail(UvrError::Other("Failed to fetch Bioconductor bioc index (HTTP 404 Not Found)".to_string()))
    );
    let (_, action) = index_step(&strict, IndexPhase::ReadingCopy, IndexEvent::CopyRead(vec![0xff]));
    assert!(matches!(action, IndexAction::Fail(UvrError::Io(_))));
    let (_, action) = index_step(&cran_job(false), IndexPhase::ReadingCopy, IndexEvent::CopyRead(vec![0xff]));
    assert_eq!(action, IndexAction::Use { text: "\u{fffd}".to_string(), meta: None });
}

#[test]
fn repositories_have_addresses() {
    let a = repository_addresses("mine", "https://example.com/cran/");
    assert_eq!(a.src_base, "https://example.com/cran/src/contrib");
    assert_eq!(a.packages_url, "https://example.com/cran/src/contrib/PACKAGES.gz");
}

#[test]
fn registry_answers_with_the_newest_admitted_version() {
    let text = "Package: rlang\nVersion: 1.0.0\nMD5sum: a\n\nPackage: rlang\nVersion: 1.1.6\nMD5sum: b\n\n";
    let reg = registry_from_packages(text, "https://example.com/src/contrib");
    let any = reg.resolve_package("rlang", None).unwrap();
    assert_eq!(any.version.text(), "1.1.6");
    let old = reg.resolve_package("rlang", Some("<1.1.0")).unwrap();
    assert_eq!(old.version.text(), "1.0.0");
    match reg.resolve_package("rlang", Some(">=2.0.0")) {
        Err(UvrError::NoMatchingVersion { package, constraint }) => {
            assert_eq!(package, "rlang");
            assert_eq!(constraint, ">=2.0.0");
        }
        _ => panic!("no such version"),
    }
    match reg.resolve_package("nothing", None) {
        Err(UvrError::PackageNotFound(name)) => assert_eq!(name, "nothing"),
        _ => panic!("no such package"),
    }
}

#[test]
fn software_packages_hide_others_of_their_name() {
    let software = parse_bioc_text("Package: limma\nVersion: 3.58.0\n\n");
    let annotation = parse_bioc_text("Package: limma\nVersion: 9.9.9\n\nPackage: GO.db\nVersion: 3.18.0\n\n");
    let reg = BiocRegistry::assemble("3.18", Ok(software), Some(annotation), None, None).unwrap();
    assert_eq!(reg.resolve_package("limma", None).unwrap().version.text(), "3.58.0");
    assert!(reg.resolve_package("GO.db", None).unwrap().url.contains("/data/annotation/"));
    assert!(BiocRegistry::assemble("3.18", Err(UvrError::Other("down".to_string())), None, None, None).is_err());
    assert_eq!(bioc_release_for_version("4.4.2"), "3.20");
    assert!(subrepo_index_url("3.18", "bioc").contains("/3.18/bioc/src/contrib/PACKAGES"));
}

#[test]
fn repositories_on_github_are_told_apart() {
    assert!(is_valid_github_repo_spec("tidyverse/ggplot2@v3.5.0"));
    assert!(!is_valid_github_repo_spec("tidyverse"));
    assert!(!is_valid_github_repo_spec("a/b/c"));
    assert!(is_valid_git_ref("main"));
    assert!(!is_valid_git_ref(""));
    assert!(!is_valid_git_ref("a b"));
    assert_eq!(commit_in_reply("  abc123\n"), "abc123");
    let info = github_package("Package: mypkg\nVersion: 1.2-3\nImports: cli\n", "user", "myrepo", "abc123");
    assert_eq!(info.name, "mypkg");
    assert_eq!(info.version.text(), "1.2.3");
    assert!(matches!(info.source, PackageSource::GitHub));
    assert!(info.url.contains("abc123"));
}

#[test]
fn packages_on_forgejo_bring_their_remotes() {
    let (info, remotes) = forgejo_package(
        "Package: mypkg\nVersion: 0.1.0\nRemotes: user/other\n",
        "codefloe.com",
        "pat-s",
        "mypkg",
        "abc123",
    );
    assert_eq!(info.name, "mypkg");
    assert!(info.url.contains("codefloe.com"));
    assert_eq!(remotes.len(), 1);
    assert_eq!(remotes[0].0, "other");
}

#[test]
fn refusals_of_forgejo_are_explained() {
    let gone = map_forgejo_error(404, "404 Not Found", "codefloe.com", "pat-s", "mypkg", "main");
    assert!(gone.message().contains("codefloe.com"));
    let denied = map_forgejo_error(401, "401 Unauthorized", "codefloe.com", "pat-s", "mypkg", "main");
    assert_ne!(gone.message(), denied.message());
    assert_eq!(
        first_commit(Ok(vec!["abc".to_string(), "def".to_string()]), "", "h", "o", "r", "main").unwrap(),
        "abc"
    );
    assert!(first_commit(Ok(Vec::new()), "[]", "h", "o", "r", "main").is_err());
    assert!(first_commit(Err("bad json".to_string()), "<html>", "h", "o", "r", "main").is_err());
}

#[test]
fn projects_on_gitlab_may_be_nested() {
    let parts = parse_gitlab_parts("gitlab::gitlab.com/group/sub/project@v1").unwrap();
    assert_eq!(parts.host, "gitlab.com");
    assert_eq!(parts.project_path, "group/sub/project");
    assert_eq!(parts.git_ref.as_deref(), Some("v1"));
    assert_eq!(parts.project_name(), "project");
    assert!(parse_gitlab_parts("gitlab::gitlab.com/project").is_none());
}

#[test]
fn builds_of_both_repositories_are_merged() {
    let info = macos_arm64_info();
    let cran = parse_index("Package: ggplot2\nVersion: 3.5.1\n\n", "4.4", &info, &P3MRepo::Cran);
    let bioc = parse_index("Package: edgeR\nVersion: 4.6.3\n\n", "4.4", &info, &P3MRepo::Bioc("3.20".to_string()));
    let all = P3MBinaryIndex::merge(cran, bioc);
    assert_eq!(all.len(), 2);
    assert!(all.binary_url("edgeR", "4.6.3").is_some());
}

#[test]
fn builds_for_cran_come_before_those_for_bioconductor() {
    let mac = platform_info(Platform::MacOsArm64, None, "4.5").unwrap();
    let cran = "Package: limma\nVersion: 1.0.2\n";
    let bioc = "Package: limma\nVersion: 3.64.0\n\nPackage: DESeq2\nVersion: 1.48.0\n";
    let release = P3MRepo::Bioc("3.21".to_string());
    let both = usable_builds(
        &mac,
        Some(parse_index(cran, "4.5", &mac, &P3MRepo::Cran)),
        Some(parse_index(bioc, "4.5", &mac, &release)),
    );
    assert!(both.binary_url("limma", "1.0.2").is_some());
    assert!(both.binary_url("limma", "3.64.0").is_none());
    assert!(both.binary_url("DESeq2", "1.48.0").is_some());

    let alone = usable_builds(&mac, None, Some(parse_index(bioc, "4.5", &mac, &release)));
    assert!(alone.binary_url("limma", "3.64.0").is_some());

    let linux = platform_info(Platform::LinuxX86_64, Some("ubuntu-2204"), "4.5").unwrap();
    assert!(bioc_builds_wanted(&mac, true) && !bioc_builds_wanted(&mac, false));
    assert!(!bioc_builds_wanted(&linux, true));
    let none = usable_builds(&linux, None, Some(parse_index(bioc, "4.5", &linux, &release)));
    assert!(none.binary_url("DESeq2", "1.48.0").is_none());
}

#[test]
fn addresses_of_commits_and_descriptions() {
    assert_eq!(commit_url("r-lib", "cli", "main"), "https://api.github.com/repos/r-lib/cli/commits/main");
    assert_eq!(
        description_url("r-lib", "cli", "abc123"),
        "https://raw.githubusercontent.com/r-lib/cli/abc123/DESCRIPTION"
    );
    assert_eq!(
        commits_url("codeberg.org", "o", "r", "main"),
        "https://codeberg.org/api/v1/repos/o/r/commits?sha=main&limit=1"
    );
    assert_eq!(subrepo_cache_key("3.21", "bioc"), "bioc-3.21-bioc");
}

#[test]
fn refusals_name_the_repository() {
    match commit_refused("r-lib", "cli", "main", "404 Not Found") {
        UvrError::Other(m) => assert_eq!(m, "GitHub API error for r-lib/cli@main: 404 Not Found"),
        other => panic!("another error: {other:?}"),
    }
    match description_refused("r-lib", "cli", "abc123", "404 Not Found") {
        UvrError::Other(m) => assert_eq!(
            m,
            "Failed to fetch DESCRIPTION for r-lib/cli@abc123 (HTTP 404 Not Found). \
             Check that the repository contains a DESCRIPTION file at the root."
        ),
        other => panic!("another error: {other:?}"),
    }
}
