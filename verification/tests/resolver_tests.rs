use upm::database::{InstalledPackage, PackageDatabase};
use upm::error::UpmError;
use upm::package::index::{IndexPackage, PackageIndex};
use upm::package::manifest::{Dependency, Manifest, PackageSource, SourceType};
use upm::package::installer::{InstallStep, Installer};
use upm::package::resolver::DependencyResolver;
use upm::rollback::RollbackManager;
use upm::verify::sha256_bytes;

fn pkg(name: &str, deps: &[&str]) -> IndexPackage {
    IndexPackage {
        name: name.to_string(),
        version: format!("{}.0", name.len()),
        description: format!("{} package", name),
        source: format!("https://github.com/o/{}", name),
        repository: format!("https://github.com/o/{}", name),
        license: None,
        dependencies: deps.iter().map(|d| d.to_string()).collect(),
        sha256: Some(format!("sum-{}", name)),
        platforms: vec!["linux".to_string(), "macos".to_string()],
    }
}

fn index(entries: &[(&str, &[&str])]) -> PackageIndex {
    let mut idx = PackageIndex::new("test", "test index");
    for (n, d) in entries {
        idx.add_package(pkg(n, d));
    }
    idx
}

fn installed(name: &str) -> InstalledPackage {
    InstalledPackage {
        name: name.to_string(),
        version: "0.1".to_string(),
        source: String::new(),
        install_path: format!("/tmp/upm/installed/{}", name),
        installed_at: "2024-01-01T00:00:00+00:00".to_string(),
        files: vec![],
        checksum: String::new(),
        manifest: Manifest {
            package: name.to_string(),
            version: "0.1".to_string(),
            description: None,
            license: None,
            platforms: vec!["all".to_string()],
            source: PackageSource {
                url: String::new(),
                source_type: SourceType::Direct,
                branch: None,
                tag: None,
            },
            dependencies: Vec::<Dependency>::new(),
            build: None,
            install: None,
            environment: None,
            sha256: None,
        },
        dependencies: vec![],
    }
}

#[test]
fn resolve_orders_dependencies_by_depth() {
    // app -> lib1 -> core ; app -> lib2 -> core ; core -> base
    let idx = index(&[
        ("app", &["lib1", "lib2"]),
        ("lib1", &["core"]),
        ("lib2", &["core"]),
        ("core", &["base"]),
        ("base", &[]),
    ]);
    let db = PackageDatabase::new("/tmp/upm/installed");
    let deps = DependencyResolver::resolve("app", &idx, &db).unwrap();
    let got: Vec<(&str, usize)> = deps.iter().map(|d| (d.name.as_str(), d.depth)).collect();
    assert_eq!(got, vec![("lib1", 0), ("lib2", 0), ("core", 1), ("base", 2)]);
    let core = &deps[2];
    assert_eq!(core.version, "4.0");
    assert_eq!(core.source, "https://github.com/o/core");
    assert_eq!(core.manifest.package, "core");
    assert_eq!(core.manifest.source.tag.as_deref(), Some("4.0"));
    assert_eq!(core.manifest.source.source_type, SourceType::Github);
    assert_eq!(core.manifest.dependencies.len(), 1);
    assert_eq!(core.manifest.dependencies[0].name, "base");
    assert_eq!(core.manifest.sha256.as_deref(), Some("sum-core"));
    assert_eq!(core.manifest.description.as_deref(), Some("core package"));
}

#[test]
fn resolve_uses_the_shortest_distance() {
    // a -> b -> c -> d and a -> d directly: d is a direct dependency.
    let idx = index(&[("a", &["b", "d"]), ("b", &["c"]), ("c", &["d"]), ("d", &[])]);
    let db = PackageDatabase::new("/x");
    let deps = DependencyResolver::resolve("a", &idx, &db).unwrap();
    let got: Vec<(&str, usize)> = deps.iter().map(|d| (d.name.as_str(), d.depth)).collect();
    assert_eq!(got, vec![("b", 0), ("d", 0), ("c", 1)]);
}

#[test]
fn resolve_skips_installed_but_walks_through_them() {
    let idx = index(&[("app", &["mid"]), ("mid", &["leaf"]), ("leaf", &[])]);
    let mut db = PackageDatabase::new("/x");
    db.add_package(installed("mid")).unwrap();
    let deps = DependencyResolver::resolve("app", &idx, &db).unwrap();
    let got: Vec<(&str, usize)> = deps.iter().map(|d| (d.name.as_str(), d.depth)).collect();
    assert_eq!(got, vec![("leaf", 1)]);
}

#[test]
fn resolve_unknown_package() {
    let idx = index(&[("a", &[])]);
    let db = PackageDatabase::new("/x");
    match DependencyResolver::resolve("zzz", &idx, &db) {
        Err(UpmError::PackageNotFound(n)) => assert_eq!(n, "zzz"),
        other => panic!("unexpected {:?}", other.map(|v| v.len())),
    }
}

#[test]
fn resolve_missing_dependency() {
    let idx = index(&[("a", &["b"]), ("b", &["ghost"])]);
    let db = PackageDatabase::new("/x");
    match DependencyResolver::resolve("a", &idx, &db) {
        Err(UpmError::DependencyError(m)) => {
            assert_eq!(m, "Package 'ghost' not found in index");
            assert_eq!(
                UpmError::DependencyError(m).message(),
                "Dependency resolution failed: Package 'ghost' not found in index"
            );
        }
        other => panic!("unexpected {:?}", other.map(|v| v.len())),
    }
}

#[test]
fn resolve_terminates_on_cycles_and_never_lists_the_root() {
    let idx = index(&[("a", &["b"]), ("b", &["c"]), ("c", &["a", "b"])]);
    let db = PackageDatabase::new("/x");
    let deps = DependencyResolver::resolve("a", &idx, &db).unwrap();
    let got: Vec<(&str, usize)> = deps.iter().map(|d| (d.name.as_str(), d.depth)).collect();
    assert_eq!(got, vec![("b", 0), ("c", 1)]);
}

#[test]
fn resolving_again_after_installing_needs_nothing() {
    let idx = index(&[("app", &["x", "y"]), ("x", &["z"]), ("y", &[]), ("z", &[])]);
    let mut db = PackageDatabase::new("/x");
    let deps = DependencyResolver::resolve("app", &idx, &db).unwrap();
    assert_eq!(deps.len(), 3);
    for d in &deps {
        db.add_package(installed(&d.name)).unwrap();
    }
    assert!(DependencyResolver::resolve("app", &idx, &db).unwrap().is_empty());
}

#[test]
fn cycles_are_reported() {
    let idx = index(&[("a", &["b"]), ("b", &["c"]), ("c", &["a"])]);
    let cycles = DependencyResolver::check_circular_dependencies(&idx, "a").unwrap();
    assert_eq!(cycles, vec![vec!["a".to_string(), "b".to_string(), "c".to_string()]]);
}

#[test]
fn cycle_away_from_the_root_is_reported() {
    let idx = index(&[("a", &["b"]), ("b", &["c"]), ("c", &["b"]), ("d", &["d"])]);
    let cycles = DependencyResolver::check_circular_dependencies(&idx, "a").unwrap();
    assert_eq!(cycles, vec![vec!["b".to_string(), "c".to_string()]]);
}

#[test]
fn self_dependency_is_a_cycle() {
    let idx = index(&[("d", &["d"])]);
    let cycles = DependencyResolver::check_circular_dependencies(&idx, "d").unwrap();
    assert_eq!(cycles, vec![vec!["d".to_string()]]);
}

#[test]
fn acyclic_graph_has_no_cycles() {
    let idx = index(&[("a", &["b", "c"]), ("b", &["c"]), ("c", &[]), ("x", &["x"])]);
    assert!(DependencyResolver::check_circular_dependencies(&idx, "a").unwrap().is_empty());
    assert!(DependencyResolver::check_circular_dependencies(&idx, "missing").unwrap().is_empty());
}

#[test]
fn two_package_cycle_is_reported_once_from_the_root() {
    let idx = index(&[("a", &["b"]), ("b", &["a"])]);
    let cycles = DependencyResolver::check_circular_dependencies(&idx, "a").unwrap();
    assert_eq!(cycles, vec![vec!["a".to_string(), "b".to_string()]]);
}

#[test]
fn cycles_come_in_discovery_order() {
    let idx = index(&[("r", &["a", "c"]), ("a", &["b"]), ("b", &["a", "r"]), ("c", &["c"])]);
    let cycles = DependencyResolver::check_circular_dependencies(&idx, "r").unwrap();
    assert_eq!(
        cycles,
        vec![
            vec!["a".to_string(), "b".to_string()],
            vec!["r".to_string(), "a".to_string(), "b".to_string()],
            vec!["c".to_string()],
        ]
    );
}

fn step_name(s: InstallStep) -> Option<String> {
    match s {
        InstallStep::InstallOne(n) => Some(n),
        InstallStep::Finish => None,
    }
}

#[test]
fn install_runs_dependencies_first_then_the_package() {
    let idx = index(&[("app", &["lib", "tool"]), ("lib", &["core"]), ("tool", &[]), ("core", &[])]);
    let mut db = PackageDatabase::new("/d");
    let mut rb = RollbackManager::new("/u");
    let mut run = Installer::start_install("app", &idx, &db, &mut rb).unwrap();
    assert_eq!(rb.list().len(), 1);
    assert_eq!(rb.list()[0].description, "Install app");
    assert_eq!(run.point_id, rb.list()[0].id);
    let mut order = Vec::new();
    while let Some(n) = step_name(Installer::next_step(&mut run, &db)) {
        db.add_package(installed(&n)).unwrap();
        order.push(n);
    }
    assert_eq!(order, vec!["lib", "tool", "core", "app"]);
    assert!(step_name(Installer::next_step(&mut run, &db)).is_none());
    assert!(rb.finalize_point(&run.point_id, &db));
    assert_eq!(rb.list()[0].packages_after.len(), 4);
}

#[test]
fn install_skips_dependencies_installed_meanwhile() {
    let idx = index(&[("app", &["lib", "tool"]), ("lib", &[]), ("tool", &[])]);
    let mut db = PackageDatabase::new("/d");
    let mut rb = RollbackManager::new("/u");
    let mut run = Installer::start_install("app", &idx, &db, &mut rb).unwrap();
    db.add_package(installed("lib")).unwrap();
    assert_eq!(step_name(Installer::next_step(&mut run, &db)), Some("tool".to_string()));
    assert_eq!(step_name(Installer::next_step(&mut run, &db)), Some("app".to_string()));
    assert_eq!(step_name(Installer::next_step(&mut run, &db)), None);
}

#[test]
fn install_refusals() {
    let idx = index(&[("app", &["ghost"])]);
    let mut db = PackageDatabase::new("/d");
    let mut rb = RollbackManager::new("/u");
    match Installer::start_install("app", &idx, &db, &mut rb) {
        Err(UpmError::DependencyError(m)) => assert_eq!(m, "Package 'ghost' not found in index"),
        other => panic!("unexpected {:?}", other.map(|r| r.next)),
    }
    assert_eq!(rb.list().len(), 1);
    match Installer::start_install("nope", &idx, &db, &mut rb) {
        Err(UpmError::PackageNotFound(n)) => assert_eq!(n, "nope"),
        other => panic!("unexpected {:?}", other.map(|r| r.next)),
    }
    db.add_package(installed("app")).unwrap();
    match Installer::start_install("app", &idx, &db, &mut rb) {
        Err(UpmError::PackageAlreadyInstalled(n)) => assert_eq!(n, "app"),
        other => panic!("unexpected {:?}", other.map(|r| r.next)),
    }
    assert_eq!(rb.list().len(), 2);
}

#[test]
fn download_checksum_gate() {
    let data = b"archive bytes";
    let good = sha256_bytes(data);
    assert_eq!(good.len(), 64);
    let bad = Some("00".to_string());
    assert_eq!(Installer::check_download(&None, &None, data), Ok(false));
    assert_eq!(Installer::check_download(&Some(good.clone()), &None, data), Ok(true));
    assert_eq!(Installer::check_download(&None, &Some(good.clone()), data), Ok(true));
    assert_eq!(Installer::check_download(&Some(good.clone()), &Some(good.clone()), data), Ok(true));
    let refused = Err(UpmError::VerificationFailed { expected: "00".to_string(), actual: good.clone() });
    assert_eq!(Installer::check_download(&bad, &None, data), refused);
    assert_eq!(Installer::check_download(&None, &bad, data), refused);
    assert_eq!(Installer::check_download(&Some(good.clone()), &bad, data), refused);
    assert_eq!(Installer::check_download(&bad, &Some(good.clone()), data), refused);
}

#[test]
fn fallback_manifest_then_index_checksum_is_checked() {
    let mut p = pkg("tool", &[]);
    let data = b"tool source";
    p.sha256 = Some("ff".to_string());
    let m = Installer::fallback_manifest("tool", &p);
    assert!(m.sha256.is_none());
    assert!(matches!(
        Installer::check_download(&m.sha256, &p.sha256, data),
        Err(UpmError::VerificationFailed { .. })
    ));
    p.sha256 = Some(sha256_bytes(data));
    assert_eq!(Installer::check_download(&m.sha256, &p.sha256, data), Ok(true));
}

#[test]
fn resolve_keeps_dependency_list_order_within_a_depth() {
    let idx = index(&[("app", &["zed", "abc", "mid"]), ("zed", &["z2"]), ("abc", &["a2"]), ("mid", &[]), ("z2", &[]), ("a2", &[])]);
    let db = PackageDatabase::new("/x");
    let r = DependencyResolver::resolve("app", &idx, &db).unwrap();
    let names: Vec<(String, usize)> = r.iter().map(|d| (d.name.clone(), d.depth)).collect();
    assert_eq!(
        names,
        vec![
            ("zed".to_string(), 0),
            ("abc".to_string(), 0),
            ("mid".to_string(), 0),
            ("z2".to_string(), 1),
            ("a2".to_string(), 1)
        ]
    );
}
