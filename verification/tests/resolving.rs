//! Requirements on versions, resolution, and the order of installation.
use uvr_core::error::UvrError;
use uvr_core::lockfile::{LockedPackage, Lockfile, PackageSource, RVersionPin};
use uvr_core::manifest::{DependencySpec, Manifest};
use uvr_core::registry::cran::{CranIndex, CranPackageEntry, CranRegistry, DepConstraint};
use uvr_core::resolver::graph::DependencyGraph;
use uvr_core::resolver::install::topological_install_order;
use uvr_core::resolver::requirement::{normalize_version, parse_version_req, version_matches_req};
use uvr_core::resolver::{is_base_package, Resolver};
use uvr_core::version::Version;

#[test]
fn simple_topo() {
    let mut g = DependencyGraph::new();
    g.add_edge("ggplot2", "dplyr");
    g.add_edge("dplyr", "rlang");
    g.add_node("rlang");

    let order = g.topological_sort().unwrap();
    let pos = |name: &str| order.iter().position(|x| x == name).unwrap();
    assert!(pos("rlang") < pos("dplyr"));
    assert!(pos("dplyr") < pos("ggplot2"));
}

#[test]
fn cycle_detected() {
    let mut g = DependencyGraph::new();
    g.add_edge("a", "b");
    g.add_edge("b", "a");
    assert!(g.topological_sort().is_err());
}

#[test]
fn cycle_is_named() {
    let mut g = DependencyGraph::new();
    g.add_edge("a", "b");
    g.add_edge("b", "a");
    match g.topological_sort() {
        Err(UvrError::CircularDependency(names)) => assert!(names.contains('a') && names.contains('b')),
        other => panic!("unexpected: {other:?}"),
    }
}

#[test]
fn normalize_versions() {
    assert_eq!(normalize_version("3.4.4"), "3.4.4");
    assert_eq!(normalize_version("1.1-3"), "1.1.3");
    assert_eq!(normalize_version("2.0"), "2.0.0");
    assert_eq!(normalize_version("4"), "4.0.0");
    assert_eq!(normalize_version("2026.03.11"), "2026.3.11");
    assert_eq!(normalize_version("2023.03.01"), "2023.3.1");
    assert_eq!(normalize_version("1.0.12.2"), "1.0.12-4.2");
    assert_eq!(normalize_version("1.0.12.1"), "1.0.12-4.1");
    let v1 = Version::parse(&normalize_version("1.0.12.1")).unwrap();
    let v2 = Version::parse(&normalize_version("1.0.12.2")).unwrap();
    assert!(v1.is_older_than(&v2));
}

#[test]
fn parse_constraints() {
    assert!(parse_version_req("*").is_ok());
    assert!(parse_version_req(">=3.0.0").is_ok());
    assert!(parse_version_req(">= 1.0.0").is_ok());
}

fn make_pkg(name: &str, version: &str, requires: Vec<(&str, Option<&str>)>) -> CranPackageEntry {
    CranPackageEntry {
        name: name.to_string(),
        version: Version::parse(version).unwrap(),
        raw_version: version.to_string(),
        depends: Vec::new(),
        imports: requires
            .into_iter()
            .map(|(n, c)| DepConstraint { name: n.to_string(), req: c.map(|c| parse_version_req(c).unwrap()) })
            .collect(),
        linking_to: Vec::new(),
        md5sum: String::new(),
        system_requirements: None,
        path: None,
        built: None,
    }
}

fn registry_of(packages: Vec<CranPackageEntry>) -> CranRegistry {
    let mut index = CranIndex::new();
    for p in packages {
        index.insert(p);
    }
    CranRegistry::for_test(index, "https://cran.r-project.org".to_string())
}

fn any_version() -> DependencySpec {
    DependencySpec::Version("*".to_string())
}

#[test]
fn resolve_transitive() {
    let registry = registry_of(vec![
        make_pkg("ggplot2", "3.4.4", vec![("dplyr", None), ("scales", None)]),
        make_pkg("dplyr", "1.1.4", vec![("rlang", Some(">=1.0.0"))]),
        make_pkg("scales", "1.3.0", vec![]),
        make_pkg("rlang", "1.1.4", vec![]),
    ]);
    let resolver = Resolver::new(&registry);

    let mut manifest = Manifest::new("test", None);
    manifest.add_dep("ggplot2", any_version(), false);

    let lockfile = resolver.resolve(&manifest, None).unwrap();
    assert_eq!(lockfile.packages.len(), 4);
    assert!(lockfile.get_package("rlang").is_some());
    assert!(lockfile.get_package("ggplot2").unwrap().url.is_some());
}

#[test]
fn diamond_dependency_resolved_correctly() {
    let registry = registry_of(vec![
        make_pkg("ggplot2", "3.4.4", vec![("rlang", Some(">=1.0.0"))]),
        make_pkg("tidyr", "1.3.0", vec![("rlang", Some(">=1.1.0"))]),
        make_pkg("rlang", "1.1.4", vec![]),
    ]);
    let resolver = Resolver::new(&registry);

    let mut manifest = Manifest::new("test", None);
    manifest.add_dep("ggplot2", any_version(), false);
    manifest.add_dep("tidyr", any_version(), false);

    let lockfile = resolver.resolve(&manifest, None).unwrap();
    assert_eq!(lockfile.packages.len(), 3);
    assert_eq!(lockfile.get_package("rlang").unwrap().version, "1.1.4");
}

#[test]
fn genuine_conflict_errors() {
    let registry = registry_of(vec![
        make_pkg("ggplot2", "3.4.4", vec![("rlang", Some(">=2.0.0"))]),
        make_pkg("rlang", "1.1.4", vec![]),
    ]);
    let resolver = Resolver::new(&registry);
    let mut manifest = Manifest::new("test", None);
    manifest.add_dep("ggplot2", any_version(), false);

    let result = resolver.resolve(&manifest, None);
    assert!(result.is_err());
}

#[test]
fn diamond_dep_re_resolves_with_stricter_constraint() {
    let registry = registry_of(vec![
        make_pkg("pkgA", "1.0.0", vec![("shared", Some(">=1.0.0"))]),
        make_pkg("pkgB", "1.0.0", vec![("shared", Some(">=2.0.0"))]),
        make_pkg("shared", "2.1.0", vec![]),
        make_pkg("shared", "1.5.0", vec![]),
    ]);
    let resolver = Resolver::new(&registry);
    let mut manifest = Manifest::new("test", None);
    manifest.add_dep("pkgA", any_version(), false);
    manifest.add_dep("pkgB", any_version(), false);

    let lockfile = resolver.resolve(&manifest, None).unwrap();
    let shared = lockfile.packages.iter().find(|p| p.name == "shared").unwrap();
    assert_eq!(shared.version, "2.1.0");
}

#[test]
fn missing_package_is_reported() {
    let registry = registry_of(Vec::new());
    let resolver = Resolver::new(&registry);
    let mut manifest = Manifest::new("test", None);
    manifest.add_dep("nothing", any_version(), false);
    match resolver.resolve(&manifest, None) {
        Err(UvrError::PackageNotFound(name)) => assert_eq!(name, "nothing"),
        _ => panic!("there is no such package"),
    }
}

#[test]
fn lock_file_is_in_order_and_complete() {
    let registry = registry_of(vec![
        make_pkg("zoo", "1.0.0", vec![("abc", None), ("stats", None)]),
        make_pkg("abc", "2.0.0", vec![("mid", Some(">=1.0.0"))]),
        make_pkg("mid", "1.5.0", vec![]),
    ]);
    let mut manifest = Manifest::new("test", Some(">=4.0".to_string()));
    manifest.add_dep("zoo", any_version(), false);
    manifest.add_dep("mid", DependencySpec::Version(">=1.2.0".to_string()), true);
    let lockfile = Resolver::new(&registry).resolve(&manifest, Some("4.4.2")).unwrap();
    let names: Vec<&str> = lockfile.packages.iter().map(|p| p.name.as_str()).collect();
    assert_eq!(names, vec!["abc", "mid", "zoo"]);
    assert_eq!(lockfile.r.version, "4.4.2");
    let order = topological_install_order(&lockfile.packages).unwrap();
    let order: Vec<&str> = order.iter().map(|p| p.name.as_str()).collect();
    assert_eq!(order, vec!["mid", "abc", "zoo"]);
}

#[test]
fn packages_of_r_are_known() {
    for name in ["R", "base", "stats", "utils", "methods"] {
        assert!(is_base_package(name), "{name} comes with R");
    }
    assert!(!is_base_package("ggplot2"));
}

fn locked(name: &str, version: &str) -> LockedPackage {
    LockedPackage {
        name: name.to_string(),
        version: version.to_string(),
        source: PackageSource::Cran,
        raw_version: None,
        url: None,
        checksum: None,
        requires: Vec::new(),
        system_requirements: None,
    }
}

#[test]
fn upserted_packages_are_found() {
    let mut lockfile = Lockfile {
        r: RVersionPin { version: "4.4.2".to_string(), bioc_version: None },
        packages: Vec::new(),
    };
    lockfile.upsert_package(locked("rlang", "1.0.0"));
    lockfile.upsert_package(locked("cli", "3.6.0"));
    lockfile.upsert_package(locked("rlang", "1.1.6"));
    assert_eq!(lockfile.packages.len(), 2);
    assert_eq!(lockfile.packages[0].name, "cli");
    assert_eq!(lockfile.get_package("rlang").unwrap().version, "1.1.6");
    assert_eq!(lockfile.get_package("RLANG").unwrap().version, "1.1.6");
    assert!(lockfile.get_package("dplyr").is_none());
}

#[test]
fn lock_files_are_sorted_to_be_written() {
    let lockfile = Lockfile {
        r: RVersionPin { version: "4.4.2".to_string(), bioc_version: None },
        packages: vec![locked("b", "1"), locked("a", "2"), locked("B", "3")],
    };
    let names: Vec<String> = lockfile.sorted().packages.iter().map(|p| p.name.clone()).collect();
    assert_eq!(names, vec!["B", "a", "b"]);
}

#[test]
fn topological_order_puts_deps_first() {
    let packages = vec![
        LockedPackage {
            name: "ggplot2".to_string(),
            version: "3.4.4".to_string(),
            source: PackageSource::Cran,
            raw_version: None,
            url: None,
            checksum: None,
            requires: vec!["dplyr".to_string(), "rlang".to_string()],
            system_requirements: None,
        },
        LockedPackage {
            name: "dplyr".to_string(),
            version: "1.1.4".to_string(),
            source: PackageSource::Cran,
            raw_version: None,
            url: None,
            checksum: None,
            requires: vec!["rlang".to_string()],
            system_requirements: None,
        },
        LockedPackage {
            name: "rlang".to_string(),
            version: "1.1.4".to_string(),
            source: PackageSource::Cran,
            raw_version: None,
            url: None,
            checksum: None,
            requires: vec![],
            system_requirements: None,
        },
    ];

    let ordered = topological_install_order(&packages).unwrap();
    let pos = |name: &str| ordered.iter().position(|p| p.name == name).unwrap();
    assert!(pos("rlang") < pos("dplyr"));
    assert!(pos("dplyr") < pos("ggplot2"));
}

#[test]
fn strict_greater_than_constraint() {
    let v = Version::parse(&normalize_version("2.4.1")).unwrap();
    let req = parse_version_req("> 2.4").unwrap();
    assert!(version_matches_req(&v, &req));

    let v2 = Version::parse("3.0.0").unwrap();
    let req2 = parse_version_req(">= 3").unwrap();
    assert!(version_matches_req(&v2, &req2));

    let req3 = parse_version_req(">= 1.0.0").unwrap();
    assert!(version_matches_req(&v, &req3));
}

#[test]
fn four_component_version_matches_constraint() {
    let normalized = normalize_version("1.18.2.1");
    assert_eq!(normalized, "1.18.2-4.1");

    let v = Version::parse(&normalized).unwrap();
    let req = parse_version_req(">=1.13.0").unwrap();
    assert!(version_matches_req(&v, &req));
}

#[test]
fn versions_with_four_parts_stay_apart() {
    assert_eq!(normalize_version("1.0.12.1"), "1.0.12-4.1");
    assert_ne!(normalize_version("1.0.12.1"), normalize_version("1.0.12.2"));
    assert_ne!(normalize_version("1.0.12"), normalize_version("1.0.12.0"));
    assert_eq!(normalize_version("1.1-3"), normalize_version("1.1.3"));
    let read = |v: &str| Version::parse(&normalize_version(v)).unwrap();
    assert!(read("1.0.12.1").is_older_than(&read("1.0.12.2")));
    assert!(!read("1.0.12.2").is_older_than(&read("1.0.12.1")));
}

#[test]
fn packages_of_one_name_are_kept_and_cycles_are_refused() {
    let needing = |name: &str, requires: &[&str]| LockedPackage {
        requires: requires.iter().map(|r| r.to_string()).collect(),
        ..locked(name, "1.0.0")
    };
    let twice = vec![needing("a", &["b"]), needing("b", &[]), needing("b", &["absent"])];
    let ordered = topological_install_order(&twice).unwrap();
    assert_eq!(ordered.len(), 3);
    assert_eq!(ordered.iter().filter(|p| p.name == "b").count(), 2);
    assert_eq!(ordered[2].name, "a");

    let cycle = vec![needing("a", &["b"]), needing("b", &["a"]), needing("c", &[])];
    assert!(matches!(topological_install_order(&cycle), Err(UvrError::CircularDependency(_))));
}
