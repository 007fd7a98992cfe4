//! Manifests, `DESCRIPTION` files and lock files.
use uvr_core::error::UvrError;
use uvr_core::lockfile::{LockedPackage, Lockfile, PackageSource, RVersionPin};
use uvr_core::manifest::check::{check_document, check_text, validate_detailed_dependency};
use uvr_core::manifest::description::{description_is_well_bracketed, is_well_bracketed, parse_dep_field};
use uvr_core::manifest::remotes::{
    compatible_remote_entries, parse_remotes_field_rich, RemoteEntry, RemoteProvider, RemoteSource,
};
use uvr_core::manifest::{DependencySpec, DetailedDep, Manifest};

fn text_at(t: &toml::Table, key: &str) -> Option<String> {
    t.get(key).and_then(|v| v.as_str()).map(str::to_string)
}

fn spec_of(v: &toml::Value) -> DependencySpec {
    match v {
        toml::Value::String(s) => DependencySpec::Version(s.clone()),
        toml::Value::Table(t) => DependencySpec::Detailed(DetailedDep {
            version: text_at(t, "version"),
            bioc: t.get("bioc").and_then(|v| v.as_bool()),
            git: text_at(t, "git"),
            exact: t.get("exact").and_then(|v| v.as_bool()).unwrap_or(false),
            rev: text_at(t, "rev"),
            subdirectory: text_at(t, "subdirectory"),
        }),
        other => panic!("no dependency: {other}"),
    }
}

/// Checks the text of a manifest, fills in the values, and checks those.
fn read_manifest(text: &str) -> Result<Manifest, UvrError> {
    check_text(text)?;
    let document: toml::Table = toml::from_str(text).unwrap();
    let project = document["project"].as_table().unwrap();
    let mut m = Manifest::new(project["name"].as_str().unwrap(), text_at(project, "r_version"));
    m.project.bioc_version = text_at(project, "bioc_version");
    for (section, dev) in [("dependencies", false), ("dev-dependencies", true)] {
        if let Some(deps) = document.get(section).and_then(|d| d.as_table()) {
            for (name, value) in deps {
                m.add_dep(name, spec_of(value), dev);
            }
        }
    }
    m.validate_detailed_dependencies()?;
    Ok(m)
}

fn put(t: &mut toml::Table, key: &str, value: &Option<String>) {
    if let Some(v) = value {
        t.insert(key.to_string(), toml::Value::String(v.clone()));
    }
}

/// Checks the values of a manifest, and writes them down.
fn write_manifest(m: &Manifest) -> Result<String, UvrError> {
    m.validate_detailed_dependencies()?;
    let mut project = toml::Table::new();
    put(&mut project, "name", &Some(m.project.name.clone()));
    put(&mut project, "r_version", &m.project.r_version);
    put(&mut project, "bioc_version", &m.project.bioc_version);
    let mut document = toml::Table::new();
    document.insert("project".to_string(), toml::Value::Table(project));
    for (section, deps) in [("dependencies", &m.dependencies), ("dev-dependencies", &m.dev_dependencies)] {
        let mut table = toml::Table::new();
        for i in 0..deps.len() {
            let value = match deps.value_at(i) {
                DependencySpec::Version(v) => toml::Value::String(v.clone()),
                DependencySpec::Detailed(d) => {
                    let mut t = toml::Table::new();
                    put(&mut t, "version", &d.version);
                    if let Some(bioc) = d.bioc {
                        t.insert("bioc".to_string(), toml::Value::Boolean(bioc));
                    }
                    put(&mut t, "git", &d.git);
                    if d.exact {
                        t.insert("exact".to_string(), toml::Value::Boolean(true));
                    }
                    put(&mut t, "rev", &d.rev);
                    put(&mut t, "subdirectory", &d.subdirectory);
                    toml::Value::Table(t)
                }
            };
            table.insert(deps.key_at(i).to_string(), value);
        }
        document.insert(section.to_string(), toml::Value::Table(table));
    }
    Ok(toml::to_string_pretty(&document).unwrap())
}

fn read_lockfile(text: &str) -> Lockfile {
    let document: toml::Table = toml::from_str(text).unwrap();
    let r = document["r"].as_table().unwrap();
    let packages = document["package"]
        .as_array()
        .unwrap()
        .iter()
        .map(|p| p.as_table().unwrap())
        .map(|p| LockedPackage {
            name: text_at(p, "name").unwrap(),
            version: text_at(p, "version").unwrap(),
            source: match p["source"].as_str().unwrap() {
                "bioconductor" => PackageSource::Bioconductor,
                "github" => PackageSource::GitHub,
                "local" => PackageSource::Local,
                _ => PackageSource::Cran,
            },
            raw_version: text_at(p, "raw_version"),
            url: text_at(p, "url"),
            checksum: text_at(p, "checksum"),
            requires: p
                .get("requires")
                .and_then(|v| v.as_array())
                .map(|v| v.iter().map(|s| s.as_str().unwrap().to_string()).collect())
                .unwrap_or_default(),
            system_requirements: text_at(p, "system_requirements"),
        })
        .collect();
    Lockfile {
        r: RVersionPin { version: text_at(r, "version").unwrap(), bioc_version: text_at(r, "bioc_version") },
        packages,
    }
}

const LOCK_SAMPLE: &str = r#"
[r]
version = "4.3.2"

[[package]]
name = "ggplot2"
version = "3.4.4"
source = "cran"
url = "https://cran.r-project.org/src/contrib/ggplot2_3.4.4.tar.gz"
checksum = "sha256:abc123"
requires = ["dplyr", "scales"]

[[package]]
name = "dplyr"
version = "1.1.4"
source = "cran"
"#;

#[test]
fn backward_compat_no_bioc_version() {
    let lf = read_lockfile(LOCK_SAMPLE);
    assert!(lf.r.bioc_version.is_none());
}

#[test]
fn backward_compat_no_url() {
    let old = r#"
[r]
version = "4.3.2"

[[package]]
name = "ggplot2"
version = "3.4.4"
source = "cran"
"#;
    let lf = read_lockfile(old);
    assert!(lf.get_package("ggplot2").unwrap().url.is_none());
}
const SAMPLE: &str = r#"
[project]
name = "my-project"
r_version = ">=4.0.0"

[dependencies]
ggplot2 = ">=3.0.0"
dplyr = "*"

[dependencies.DESeq2]
bioc = true

[dependencies.myPkg]
git = "user/repo"
rev = "main"
"#;

#[test]
fn manifest_round_trip() {
    let m = read_manifest(SAMPLE).expect("parse");
    assert_eq!(m.project.name, "my-project");
    assert_eq!(m.project.r_version.as_deref(), Some(">=4.0.0"));

    let ggplot2 = m.dependencies.get("ggplot2").unwrap();
    assert!(matches!(ggplot2, DependencySpec::Version(v) if v == ">=3.0.0"));

    let deseq2 = m.dependencies.get("DESeq2").unwrap();
    assert!(deseq2.is_bioc());

    let my_pkg = m.dependencies.get("myPkg").unwrap();
    assert_eq!(my_pkg.git(), Some("user/repo"));

    let m2 = read_manifest(&write_manifest(&m).expect("serialize")).expect("reparse");
    assert_eq!(m, m2);
}

#[test]
fn bioc_version_round_trip() {
    let toml = r#"
[project]
name = "bioc-test"
r_version = ">=4.3.0"
bioc_version = "3.18"

[dependencies.DESeq2]
bioc = true
"#;
    let m = read_manifest(toml).expect("parse");
    assert_eq!(m.project.bioc_version.as_deref(), Some("3.18"));

    let m2 = read_manifest(&write_manifest(&m).expect("serialize")).expect("reparse");
    assert_eq!(m, m2);
}

#[test]
fn bioc_version_omitted() {
    let m = read_manifest(SAMPLE).expect("parse");
    assert!(m.project.bioc_version.is_none());
    assert!(!write_manifest(&m).expect("serialize").contains("bioc_version"));
}

#[test]
fn subdirectory_round_trip() {
    let toml = r#"
[project]
name = "test"

[dependencies.nested]
git = "owner/repo"
rev = "main"
subdirectory = "pkgs/nested"

[dependencies.rooted]
git = "owner/other"
"#;
    let m = read_manifest(toml).expect("parse");
    let nested = m.dependencies.get("nested").unwrap();
    assert_eq!(nested.git(), Some("owner/repo"));
    assert_eq!(nested.subdirectory(), Some("pkgs/nested"));
    assert_eq!(m.dependencies.get("rooted").unwrap().subdirectory(), None);

    let serialized = write_manifest(&m).expect("serialize");
    assert!(serialized.contains(r#"subdirectory = "pkgs/nested""#));
    assert_eq!(m, read_manifest(&serialized).expect("reparse"));
}

#[test]
fn description_differing_root_alias_survives_manifest_round_trip() {
    let imported =
        Manifest::from_description_str("Package: parent\nImports: Alias\nRemotes: Alias=owner/repo@main\n").unwrap();
    let reparsed = read_manifest(&write_manifest(&imported).unwrap()).unwrap();
    let dependency = reparsed.dependencies.get("Alias").unwrap();
    assert_eq!(dependency.git(), Some("owner/repo"));
    assert_eq!(dependency.version_req(), None);
    let DependencySpec::Detailed(dependency) = dependency else {
        panic!("expected detailed dependency");
    };
    assert!(dependency.exact);
    assert_eq!(dependency.rev.as_deref(), Some("main"));
}

#[test]
fn description_same_name_root_alias_survives_manifest_round_trip() {
    let imported =
        Manifest::from_description_str("Package: parent\nImports: repo\nRemotes: repo=owner/repo@main\n").unwrap();
    let serialized = write_manifest(&imported).unwrap();
    assert!(serialized.contains("exact = true"), "{serialized}");
    let reparsed = read_manifest(&serialized).unwrap();
    let DependencySpec::Detailed(dependency) = reparsed.dependencies.get("repo").unwrap() else {
        panic!("expected detailed dependency");
    };
    assert!(dependency.exact);
}

#[test]
fn description_unaliased_root_remains_inexact() {
    let imported =
        Manifest::from_description_str("Package: parent\nImports: repo\nRemotes: owner/repo@main\n").unwrap();
    let DependencySpec::Detailed(dependency) = imported.dependencies.get("repo").unwrap() else {
        panic!("expected detailed dependency");
    };
    assert!(!dependency.exact);
    assert!(!write_manifest(&imported).unwrap().contains("exact ="));
}

#[test]
fn programmatic_invalid_subdirectory_is_not_serialized() {
    let mut manifest = Manifest::new("t", None);
    for (git, subdirectory) in [("owner/repo", "../escape"), ("gitlab::gitlab.com/group/repo", "pkgs/nested")] {
        let dep = DetailedDep {
            version: None,
            bioc: None,
            git: Some(git.to_string()),
            exact: false,
            rev: None,
            subdirectory: Some(subdirectory.to_string()),
        };
        manifest.dependencies.insert("nested", DependencySpec::Detailed(dep));
        assert!(write_manifest(&manifest).is_err());
    }
}

const DESCRIPTION_SAMPLE: &str = r#"Package: myanalysis
Title: My Analysis Project
Version: 0.1.0
Depends:
    R (>= 4.1.0),
    methods
Imports:
    ggplot2 (>= 3.4.0),
    dplyr,
    stringr
Suggests:
    testthat (>= 3.0.0),
    knitr
"#;

#[test]
fn description_basic() {
    let m = Manifest::from_description_str(DESCRIPTION_SAMPLE).expect("parse");
    assert_eq!(m.project.name, "myanalysis");
    assert_eq!(m.project.r_version.as_deref(), Some(">=4.1.0"));
    assert_eq!(
        m.project.description.as_deref(),
        Some("My Analysis Project")
    );
}

#[test]
fn description_imports_as_deps() {
    let m = Manifest::from_description_str(DESCRIPTION_SAMPLE).expect("parse");
    let gg = m.dependencies.get("ggplot2").unwrap();
    assert!(matches!(gg, DependencySpec::Version(v) if v == ">=3.4.0"));
    let dp = m.dependencies.get("dplyr").unwrap();
    assert!(matches!(dp, DependencySpec::Version(v) if v == "*"));
    assert!(m.dependencies.contains_key("methods"));
}

#[test]
fn description_suggests_as_dev_deps() {
    let m = Manifest::from_description_str(DESCRIPTION_SAMPLE).expect("parse");
    let tt = m.dev_dependencies.get("testthat").unwrap();
    assert!(matches!(tt, DependencySpec::Version(v) if v == ">=3.0.0"));
    assert!(m.dev_dependencies.contains_key("knitr"));
}

#[test]
fn description_no_r_in_deps() {
    let m = Manifest::from_description_str(DESCRIPTION_SAMPLE).expect("parse");
    assert!(!m.dependencies.contains_key("R"));
    assert!(!m.dev_dependencies.contains_key("R"));
}

#[test]
fn description_remotes_override_imports_with_git_source() {
    let dcf = r#"Package: AQmap
Imports:
    airquality,
    dplyr,
    handyr
Remotes:
    B-Nilson/airquality,
    github::B-Nilson/handyr@dev,
    gitlab::other/thing,
    gitlab::gitlab.com/my-group/mypkg@v1.0,
    pkg=user/repo@v1.0
"#;
    let m = Manifest::from_description_str(dcf).expect("parse");

    let aq = m.dependencies.get("airquality").unwrap();
    assert_eq!(aq.git(), Some("B-Nilson/airquality"));

    let hr = m.dependencies.get("handyr").unwrap();
    assert_eq!(hr.git(), Some("B-Nilson/handyr"));
    if let DependencySpec::Detailed(d) = hr {
        assert_eq!(d.rev.as_deref(), Some("dev"));
    } else {
        panic!("handyr should be a detailed git dep");
    }

    let dp = m.dependencies.get("dplyr").unwrap();
    assert!(matches!(dp, DependencySpec::Version(v) if v == "*"));

    assert!(!m.dependencies.contains_key("thing"));

    let ml = m.dependencies.get("mypkg").unwrap();
    assert_eq!(ml.git(), Some("gitlab::gitlab.com/my-group/mypkg"));
    if let DependencySpec::Detailed(d) = ml {
        assert_eq!(d.rev.as_deref(), Some("v1.0"));
    } else {
        panic!("mypkg should be a detailed git dep");
    }

    let pk = m.dependencies.get("pkg").unwrap();
    assert_eq!(pk.git(), Some("user/repo"));
    if let DependencySpec::Detailed(d) = pk {
        assert_eq!(d.rev.as_deref(), Some("v1.0"));
    }
}

#[test]
fn description_remotes_override_preserves_version_constraint() {
    let dcf = r#"Package: thing
Imports:
    foo (>= 2.0.0),
    bar
Remotes:
    user/foo,
    user/bar
"#;
    let m = Manifest::from_description_str(dcf).expect("parse");

    let foo = m.dependencies.get("foo").unwrap();
    assert_eq!(foo.git(), Some("user/foo"));
    assert_eq!(
        foo.version_req(),
        Some(">=2.0.0"),
        "Imports version constraint should survive the Remotes override"
    );

    let bar = m.dependencies.get("bar").unwrap();
    assert_eq!(bar.git(), Some("user/bar"));
    assert!(bar.version_req().is_none());
}

#[test]
fn description_remotes_companion_suffix_binds_to_runtime_dep() {
    let dcf = r#"Package: thing
Imports:
    uvr (>= 0.1.0)
Remotes:
    nbafrank/uvr-r
"#;
    let m = Manifest::from_description_str(dcf).expect("parse");
    assert!(
        !m.dependencies.contains_key("uvr-r"),
        "uvr-r should not be a runtime dep"
        );
    assert!(
        !m.dev_dependencies.contains_key("uvr"),
        "uvr should not have moved to dev-deps"
        );
    let uvr = m
        .dependencies
        .get("uvr")
        .expect("uvr should remain a runtime dep");
    assert_eq!(uvr.git(), Some("nbafrank/uvr-r"));
}

#[test]
fn description_remotes_companion_suffix_binds_to_existing_dep() {
    let dcf = r#"Package: templates
Suggests:
    uvr (>= 0.1.0)
Remotes:
    nbafrank/uvr-r
"#;
    let m = Manifest::from_description_str(dcf).expect("parse");

    assert!(
        !m.dependencies.contains_key("uvr-r"),
        "uvr-r should not be a runtime dep"
        );

    let uvr = m
        .dev_dependencies
        .get("uvr")
        .expect("uvr should remain a dev-dep");
    assert_eq!(uvr.git(), Some("nbafrank/uvr-r"));
}

#[test]
fn description_remotes_underscore_r_suffix_binds() {
    let dcf = r#"Package: thing
Imports:
    foo
Remotes:
    user/foo_r
"#;
    let m = Manifest::from_description_str(dcf).expect("parse");
    assert!(!m.dependencies.contains_key("foo_r"));
    assert_eq!(m.dependencies.get("foo").unwrap().git(), Some("user/foo_r"));
}

#[test]
fn description_remotes_unmatched_falls_back_to_url_name() {
    let dcf = r#"Package: thing
Imports:
    foo
Remotes:
    user/totally-unrelated
"#;
    let m = Manifest::from_description_str(dcf).expect("parse");
    assert_eq!(
        m.dependencies.get("totally-unrelated").unwrap().git(),
        Some("user/totally-unrelated")
    );
    let foo = m.dependencies.get("foo").unwrap();
    assert!(foo.git().is_none(), "foo should remain version-only");
}

#[test]
fn description_import_rejects_bound_unsupported_alias() {
    let error = Manifest::from_description_str(
        "Package: parent\nImports: Alias\n\
             Remotes: Alias=url::https://example.com/pkg.tar.gz\n",
    )
    .unwrap_err()
    .message();
    assert!(error.contains("unsupported bound Remotes entry"), "{error}");
    assert!(error.contains("Alias=url::"), "{error}");
}

#[test]
fn description_import_skips_unbound_unsupported_root_hint() {
    let manifest = Manifest::from_description_str(
        "Package: parent\nImports: root\nRemotes: owner/root#42\n",
    )
    .unwrap();
    assert_eq!(
        manifest.dependencies.get("root"),
        Some(&DependencySpec::Version("*".to_string()))
    );
}

#[test]
fn description_import_rejects_unmatched_unaliased_nested_remote() {
    let error = Manifest::from_description_str(
        "Package: parent\nImports: ActualPackage\n\
             Remotes: owner/mono/packages/different\n",
    )
    .unwrap_err()
    .message();
    assert!(error.contains("unaliased nested Remotes entry"), "{error}");
    assert!(error.contains("PackageName="), "{error}");
}

#[test]
fn description_import_matches_unaliased_nested_remote_to_declared_dependency() {
    let manifest = Manifest::from_description_str(
        "Package: parent\nImports: NestedPkg\n\
             Remotes: owner/mono/packages/NestedPkg@main\n",
    )
    .unwrap();
    let dependency = manifest.dependencies.get("NestedPkg").unwrap();
    assert_eq!(dependency.git(), Some("owner/mono"));
    assert_eq!(dependency.subdirectory(), Some("packages/NestedPkg"));
}

#[test]
fn description_explicit_alias_marker_is_provider_neutral() {
    let imported = Manifest::from_description_str(
        "Package: parent\nImports: GithubAlias, ForgejoAlias, GitlabAlias\n\
             Remotes: GithubAlias=owner/repo, \
             ForgejoAlias=forgejo::code.example/team/repo, \
             GitlabAlias=gitlab::gitlab.example/group/repo\n",
    )
    .unwrap();
    for name in ["GithubAlias", "ForgejoAlias", "GitlabAlias"] {
        let DependencySpec::Detailed(dependency) = imported.dependencies.get(name).unwrap()
        else {
            panic!("expected detailed dependency for {name}");
        };
        assert!(dependency.exact, "explicit alias marker missing for {name}");
    }
}

#[test]
fn description_without_package_yields_empty_name() {
    let dcf = "Imports:\n    dplyr\n";
    let m = Manifest::from_description_str(dcf).expect("parse");
    assert_eq!(m.project.name, "");
}

#[test]
fn description_no_depends() {
    let content = "Package: minimal\nImports: ggplot2\n";
    let m = Manifest::from_description_str(content).expect("parse");
    assert_eq!(m.project.name, "minimal");
    assert!(m.project.r_version.is_none());
    assert!(m.dependencies.contains_key("ggplot2"));
}

#[test]
fn add_remove_dep() {
    let mut m = Manifest::new("test", None);
    assert!(m.add_dep("ggplot2", DependencySpec::Version("*".to_string()), false));
    assert!(!m.add_dep("ggplot2", DependencySpec::Version(">=3.0.0".to_string()), false));
    assert!(m.remove_dep("ggplot2"));
    assert!(!m.remove_dep("ggplot2"));
}

#[test]
fn parse_remotes_field_keeps_forgejo_and_gitlab() {
    let field = "forgejo::codefloe.com/pat-s/mypkg@v0.1.0, github::user/a, \
                     gitlab::other/x, gitlab::gitlab.com/my-group/my-sub/thing@v2.0";
    let v = parse_remotes_field_rich(field);
    let sources: Vec<&RemoteSource> = v
        .iter()
        .filter_map(|entry| match entry {
            RemoteEntry::Source(source) => Some(source),
            RemoteEntry::Unsupported { .. } => None,
        })
        .collect();
    let names: Vec<&str> = sources.iter().map(|source| source.name.as_str()).collect();
    assert_eq!(names, vec!["mypkg", "a", "thing"]);

    assert_eq!(sources[0].git_spec(), "forgejo::codefloe.com/pat-s/mypkg");
    assert_eq!(sources[0].requested_ref.as_deref(), Some("v0.1.0"));

    assert_eq!(
        sources[2].git_spec(),
        "gitlab::gitlab.com/my-group/my-sub/thing"
    );
    assert_eq!(sources[2].requested_ref.as_deref(), Some("v2.0"));
}

#[test]
fn github_remotes_keep_repository_ref_and_subdirectory_separate() {
    let entries = parse_remotes_field_rich(
        "SlashPkg=owner/mono/packages/slash@feature/x, \
             ColonPkg=github::owner/mono:packages/colon/more@v2.0, \
             github::LegacyPkg=owner/mono/r/legacy, owner/mono/r/inferred",
    );
    let sources: Vec<&RemoteSource> = entries
        .iter()
        .map(|entry| match entry {
            RemoteEntry::Source(source) => source,
            other => panic!("expected source, got {other:?}"),
        })
        .collect();
    assert_eq!(sources.len(), 4);

    assert_eq!(sources[0].name, "SlashPkg");
    assert!(sources[0].explicit_name);
    assert_eq!(sources[0].provider, RemoteProvider::GitHub);
    assert_eq!(sources[0].repository, "owner/mono");
    assert_eq!(sources[0].requested_ref.as_deref(), Some("feature/x"));
    assert_eq!(sources[0].subdirectory.as_deref(), Some("packages/slash"));

    assert_eq!(sources[1].name, "ColonPkg");
    assert_eq!(sources[1].repository, "owner/mono");
    assert_eq!(sources[1].requested_ref.as_deref(), Some("v2.0"));
    assert_eq!(
        sources[1].subdirectory.as_deref(),
        Some("packages/colon/more")
    );

    assert_eq!(sources[2].name, "LegacyPkg");
    assert_eq!(sources[2].subdirectory.as_deref(), Some("r/legacy"));
    assert_eq!(sources[3].name, "inferred");
    assert!(!sources[3].explicit_name);
    assert_eq!(sources[3].subdirectory.as_deref(), Some("r/inferred"));
}

#[test]
fn compatibility_remotes_adapter_rejects_nested_entries() {
    let error = compatible_remote_entries(parse_remotes_field_rich(
        "owner/root@main, github::owner/mono/pkgs/nested@v1",
    ))
    .unwrap_err()
    .message();
    assert!(error.contains("cannot represent nested package"), "{error}");
}

#[test]
fn compatibility_remotes_adapter_rejects_bound_unsupported_entries() {
    let error = compatible_remote_entries(parse_remotes_field_rich(
        "Alias=forgejo::code.example/team/pkg@",
    ))
    .unwrap_err()
    .message();
    assert!(error.contains("unsupported bound entry"), "{error}");
    assert!(error.contains("revision"), "{error}");
}

#[test]
fn compatibility_remotes_adapter_skips_unbound_unsupported_entries() {
    let compatible =
        compatible_remote_entries(parse_remotes_field_rich("owner/root#42")).unwrap();
    assert!(compatible.is_empty());
}

#[test]
fn compatibility_remotes_adapter_keeps_representable_roots() {
    let compatible = compatible_remote_entries(parse_remotes_field_rich(
        "owner/root@main, Alias=forgejo::code.example/team/pkg@dev, \
             gitlab::gitlab.example/group/project@release",
    ))
    .unwrap();
    assert_eq!(
        compatible,
        vec![
            (
                "root".to_string(),
                "owner/root".to_string(),
                Some("main".to_string())
            ),
            (
                "Alias".to_string(),
                "forgejo::code.example/team/pkg".to_string(),
                Some("dev".to_string())
            ),
            (
                "project".to_string(),
                "gitlab::gitlab.example/group/project".to_string(),
                Some("release".to_string())
            ),
        ]
    );
}

#[test]
fn malformed_or_unsupported_github_remotes_record_binding() {
    let entries = parse_remotes_field_rich(
        "owner/root#42, Alias=owner/root@*release, \
             owner/mono/pkgs/nested#7, owner/mono/pkgs/../escape, \
             AliasUrl=url::https://example.com/pkg.tar.gz, \
             AliasBad=not-a-remote, url::https://example.com/pkg.tar.gz",
    );
    assert_eq!(entries.len(), 6);
    let unsupported: Vec<(&str, bool)> = entries
        .iter()
        .map(|entry| match entry {
            RemoteEntry::Unsupported { entry, bound, .. } => (entry.as_str(), *bound),
            other => panic!("expected unsupported entry, got {other:?}"),
        })
        .collect();
    assert_eq!(unsupported[0], ("owner/root#42", false));
    assert_eq!(unsupported[1], ("Alias=owner/root@*release", true));
    assert_eq!(unsupported[2], ("owner/mono/pkgs/nested#7", true));
    assert_eq!(unsupported[3], ("owner/mono/pkgs/../escape", true));
    assert_eq!(
        unsupported[4],
        ("AliasUrl=url::https://example.com/pkg.tar.gz", true)
    );
    assert_eq!(unsupported[5], ("AliasBad=not-a-remote", true));
}

#[test]
fn explicit_aliases_are_preserved_for_all_git_providers() {
    let entries = parse_remotes_field_rich(
        "GitHubAlias=github::owner/repo@main, \
             ForgejoAlias=forgejo::code.example/team/repo@dev, \
             GitlabAlias=gitlab::gitlab.example/group/repo@release",
    );
    let sources: Vec<&RemoteSource> = entries
        .iter()
        .map(|entry| match entry {
            RemoteEntry::Source(source) => source,
            other => panic!("expected source, got {other:?}"),
        })
        .collect();
    assert_eq!(sources.len(), 3);
    for source in sources {
        assert!(source.explicit_name);
    }
}

#[test]
fn unaliased_gitlab_package_directory_is_bound_unsupported() {
    let entries = parse_remotes_field_rich("gitlab::host/group/repo/-/subdir");
    assert!(matches!(
        entries.as_slice(),
        [RemoteEntry::Unsupported {
            bound: true,
            reason,
            ..
        }] if reason.contains("package directories")
    ));
}

#[test]
fn aliased_gitlab_package_directory_is_bound_unsupported() {
    let entries = parse_remotes_field_rich("Alias=gitlab::host/group/repo/-/subdir");
    assert!(matches!(
        entries.as_slice(),
        [RemoteEntry::Unsupported {
            bound: true,
            reason,
            ..
        }] if reason.contains("package directories")
    ));
}

#[test]
fn malformed_explicit_aliases_fail_closed_for_all_git_providers() {
    let entries = parse_remotes_field_rich(
        "GithubEmpty=owner/repo@, GithubHash=owner/repo@main#7, \
             ForgejoEmpty=forgejo::code.example/team/repo@, \
             ForgejoHash=forgejo::code.example/team/repo@main#frag, \
             ForgejoColon=forgejo::code.example/team/repo:path, \
             ForgejoSlash=forgejo::code.example/team/repo/path, \
             GitlabEmpty=gitlab::gitlab.example/group/repo@, \
             GitlabHash=gitlab::gitlab.example/group/repo@main#frag, \
             GitlabColon=gitlab::gitlab.example/group/repo:path",
    );
    assert_eq!(entries.len(), 9);
    for entry in entries {
        match entry {
            RemoteEntry::Unsupported { bound: true, .. } => {}
            other => panic!("expected bound unsupported entry, got {other:?}"),
        }
    }
}

#[test]
fn malformed_unbound_root_hints_remain_unbound_for_all_git_providers() {
    let entries = parse_remotes_field_rich(
        "owner/repo@, forgejo::code.example/team/repo@, \
             gitlab::gitlab.example/group/repo@",
    );
    assert_eq!(entries.len(), 3);
    for entry in entries {
        match entry {
            RemoteEntry::Unsupported { bound: false, .. } => {}
            other => panic!("expected unbound unsupported entry, got {other:?}"),
        }
    }
}

#[test]
fn remote_parser_applies_alias_provider_fragment_ref_and_directory_order() {
    let entries = parse_remotes_field_rich(
        "Alias=github::owner/mono:packages/nested@feature/x, \
             Rejected=github::owner/mono:packages/nested@feature/x#12",
    );
    let RemoteEntry::Source(source) = &entries[0] else {
        panic!("expected source");
    };
    assert_eq!(source.name, "Alias");
    assert_eq!(source.repository, "owner/mono");
    assert_eq!(source.subdirectory.as_deref(), Some("packages/nested"));
    assert_eq!(source.requested_ref.as_deref(), Some("feature/x"));
    assert!(matches!(
        &entries[1],
        RemoteEntry::Unsupported { bound: true, .. }
    ));
}

#[test]
fn description_colon_remote_preserves_dependency_constraint_and_directory() {
    let manifest = Manifest::from_description_str(
        "Package: parent\nImports: NestedPkg (>= 1.2.0)\n\
             Remotes: NestedPkg=owner/mono:packages/nested@main\n",
    )
    .unwrap();
    let DependencySpec::Detailed(dependency) = manifest.dependencies.get("NestedPkg").unwrap()
    else {
        panic!("NestedPkg should be a detailed dependency");
    };
    assert_eq!(dependency.git.as_deref(), Some("owner/mono"));
    assert_eq!(dependency.rev.as_deref(), Some("main"));
    assert_eq!(dependency.subdirectory.as_deref(), Some("packages/nested"));
    assert_eq!(dependency.version.as_deref(), Some(">=1.2.0"));
}

#[test]
fn dotted_key_single_dot_is_rejected() {
    let toml = r#"
[project]
name = "test"
r_version = "4.5"

[dependencies.data.table]
version = "*"
"#;
    let err = read_manifest(&toml).unwrap_err().message();
    assert!(
        err.contains("data") && err.contains("table"),
        "expected dotted-key error mentioning 'data' and 'table', got: {err}"
    );
    assert!(
        err.contains("dotted TOML key") || err.contains("sub-key"),
        "expected actionable error message, got: {err}"
    );
}

#[test]
fn dotted_key_r_prefix_is_rejected() {
    let toml = r#"
[project]
name = "test"
r_version = "4.5"

[dependencies.R.utils]
version = "*"
"#;
    let err = read_manifest(&toml).unwrap_err().message();
    assert!(
        err.contains("utils"),
        "expected mention of 'utils', got: {err}"
    );
}

#[test]
fn dotted_key_bioc_flag_is_rejected() {
    let toml = r#"
[project]
name = "test"
r_version = "4.5"

[dependencies.org.Hs.eg.db]
bioc = true
"#;
    let err = read_manifest(&toml).unwrap_err().message();
    assert!(
        err.contains("org.Hs.eg.db"),
        "error must name the full package 'org.Hs.eg.db', got: {err}"
    );
    assert!(
        err.contains("uvr add org.Hs.eg.db"),
        "error must suggest 'uvr add org.Hs.eg.db', got: {err}"
    );
}

#[test]
fn dotted_key_four_segments_reconstructed() {
    let toml = r#"
[project]
name = "test"
r_version = "4.5"

[dependencies.TxDb.Hsapiens.UCSC.hg38.knownGene]
bioc = true
"#;
    let err = read_manifest(&toml).unwrap_err().message();
    assert!(
        err.contains("TxDb.Hsapiens.UCSC.hg38.knownGene"),
        "error must name the full package, got: {err}"
    );
    assert!(
        err.contains("uvr add TxDb.Hsapiens.UCSC.hg38.knownGene"),
        "error must suggest correct uvr add command, got: {err}"
    );
}

#[test]
fn dotted_key_dev_dependencies_is_rejected() {
    let toml = r#"
[project]
name = "test"
r_version = "4.5"

[dev-dependencies.shiny.test]
version = "*"
"#;
    let err = read_manifest(&toml).unwrap_err().message();
    assert!(err.contains("shiny") || err.contains("test"), "got: {err}");
}

#[test]
fn quoted_dot_package_names_are_accepted() {
    let toml = r#"
[project]
name = "test"
r_version = "4.5"

[dependencies]
"data.table" = "*"
"R.utils" = { version = "*" }
"shiny.i18n" = "*"

[dependencies."org.Hs.eg.db"]
bioc = true
"#;
    let m = read_manifest(&toml).expect("quoted dot-names must parse");
    assert!(
        m.dependencies.contains_key("data.table"),
        "data.table missing"
    );
    assert!(m.dependencies.contains_key("R.utils"), "R.utils missing");
    assert!(
        m.dependencies.contains_key("shiny.i18n"),
        "shiny.i18n missing"
    );
    let org = m.dependencies.get("org.Hs.eg.db").unwrap();
    assert!(org.is_bioc(), "org.Hs.eg.db should be bioc=true");
}

#[test]
fn subdirectory_inline_table_parses() {
    let toml = r#"
[project]
name = "test"

[dependencies]
nested = { git = "owner/repo", subdirectory = "pkgs/nested" }
"#;
    let m = read_manifest(&toml).expect("parse");
    assert_eq!(
        m.dependencies.get("nested").unwrap().subdirectory(),
        Some("pkgs/nested")
    );
}

#[test]
fn subdirectory_rejects_unsafe_paths() {
    for bad in ["../escape", "/abs", "a\\\\b", "", "a//b", "."] {
        let toml = format!(
            "[project]\nname = \"t\"\n\n[dependencies.nested]\ngit = \"owner/repo\"\n\
                 subdirectory = \"{bad}\"\n"
        );
        let parsed = read_manifest(&toml);
        assert!(parsed.is_err(), "should reject {bad}");
        let err = parsed.unwrap_err().message();
        assert!(err.contains("subdirectory"), "{bad}: {err}");
    }
}

#[test]
fn exact_binding_requires_a_valid_git_source() {
    let cases = [
        "exact = true\n",
        "git = \"owner/repo\"\nrev = \"\"\nexact = true\n",
        "git = \"owner/repo/extra\"\nexact = true\n",
        "git = \"gitlab::host/group/repo/-/subdir\"\nexact = true\n",
    ];
    for dependency in cases {
        let toml = format!("[project]\nname = \"t\"\n\n[dependencies.repo]\n{dependency}");
        let error = read_manifest(&toml).unwrap_err().message();
        assert!(error.contains("exact = true"), "{error}");
        assert!(error.contains("requires a"), "{error}");
    }
}

#[test]
fn subdirectory_requires_a_github_git_source() {
    let no_git = r#"
[project]
name = "t"

[dependencies.nested]
version = "*"
subdirectory = "pkgs/nested"
"#;
    let err = read_manifest(&no_git).unwrap_err().message();
    assert!(err.contains("requires a `git` source"), "got: {err}");

    for host in ["gitlab::gitlab.com/g/p", "forgejo::codefloe.com/o/r"] {
        let toml = format!(
            "[project]\nname = \"t\"\n\n[dependencies.nested]\ngit = \"{host}\"\n\
                 subdirectory = \"pkgs/nested\"\n"
        );
        let err = read_manifest(&toml).unwrap_err().message();
        assert!(err.contains("only supported for GitHub"), "got: {err}");
    }
}

#[test]
fn subdirectory_rejects_malformed_github_sources() {
    for (git, rev) in [
        ("owner/repo", Some("")),
        ("owner/repo", Some("a b")),
        ("", None),
        ("repo", None),
        ("owner/", None),
        ("/repo", None),
        ("owner/repo/extra", None),
    ] {
        let rev_line = rev.map(|r| format!("rev = \"{r}\"\n")).unwrap_or_default();
        let toml = format!(
            "[project]\nname = \"t\"\n\n[dependencies.nested]\ngit = \"{git}\"\n{rev_line}\
                 subdirectory = \"pkgs/nested\"\n"
        );
        let parsed = read_manifest(&toml);
        assert!(parsed.is_err(), "should reject git={git:?} rev={rev:?}");
        let err = parsed.unwrap_err().message();
        assert!(err.contains("not a valid GitHub source"), "got: {err}");
    }
}

#[test]
fn subdirectory_must_be_a_string() {
    let toml = r#"
[project]
name = "t"

[dependencies.nested]
git = "owner/repo"
subdirectory = 42
"#;
    let err = read_manifest(&toml).unwrap_err().message();
    assert!(err.contains("must be a string"), "got: {err}");
}

#[test]
fn table_header_syntax_with_valid_fields_is_accepted() {
    let toml = r#"
[project]
name = "test"
r_version = "4.5"

[dependencies.DESeq2]
bioc = true

[dependencies.myPkg]
git = "user/repo"
rev = "main"
"#;
    let m = read_manifest(&toml).expect("valid table-header syntax must parse");
    assert!(m.dependencies.get("DESeq2").unwrap().is_bioc());
    assert_eq!(
        m.dependencies.get("myPkg").unwrap().git(),
        Some("user/repo")
    );
}

#[test]
fn invalid_subdirectory_is_refused() {
    for dep in [
        DetailedDep {
            git: Some("owner/repo".to_string()),
            subdirectory: Some("../escape".to_string()),
            ..Default::default()
        },
        DetailedDep {
            git: Some("gitlab::gitlab.com/group/repo".to_string()),
            subdirectory: Some("pkgs/nested".to_string()),
            ..Default::default()
        },
    ] {
        assert!(validate_detailed_dependency("nested", "dependencies", &dep).is_err());
        let mut manifest = Manifest::new("t", None);
        manifest.add_dep("nested", DependencySpec::Detailed(dep), false);
        assert!(manifest.validate_detailed_dependencies().is_err());
    }
}

#[test]
fn aliases_of_remotes_are_exact() {
    let imported =
        Manifest::from_description_str("Package: parent\nImports: repo\nRemotes: repo=owner/repo@main\n").unwrap();
    let DependencySpec::Detailed(dependency) = imported.dependencies.get("repo").unwrap() else {
        panic!("expected detailed dependency");
    };
    assert!(dependency.exact);
    let imported =
        Manifest::from_description_str("Package: parent\nImports: repo\nRemotes: owner/repo@main\n").unwrap();
    let DependencySpec::Detailed(dependency) = imported.dependencies.get("repo").unwrap() else {
        panic!("expected detailed dependency");
    };
    assert!(!dependency.exact);
}

#[test]
fn text_that_is_no_toml_is_refused() {
    match check_text("[project\n") {
        Err(UvrError::ManifestParse(message)) => assert!(message.contains("TOML parse error"), "{message}"),
        other => panic!("unexpected: {other:?}"),
    }
    let document: toml::Value = toml::from_str("[dependencies.a]\nb = 1\nc = 2\n").unwrap();
    match check_document(&document) {
        Err(UvrError::ManifestParse(message)) => {
            assert!(message.contains(r#"sub-key(s): ["b", "c"]."#), "{message}");
            assert!(message.ends_with("uvr add a.b"), "{message}");
        }
        other => panic!("unexpected: {other:?}"),
    }
}

#[test]
fn brackets_of_fields() {
    assert!(is_well_bracketed("a (>= 1), b"));
    assert!(!is_well_bracketed("a ) >= 1 ("));
    assert!(description_is_well_bracketed("Package: a\nImports: b (>= 1)\n"));
    assert!(!description_is_well_bracketed("Package: a\nImports: b )>= 1(\n"));
    let deps = parse_dep_field("dplyr (>= 1.0.0), rlang");
    assert_eq!(deps.len(), 2);
    assert_eq!(deps[0].0, "dplyr");
    assert_eq!(deps[0].1, DependencySpec::Version(">=1.0.0".to_string()));
    assert_eq!(deps[1].1, DependencySpec::Version("*".to_string()));
}
