use upm::database::{InstalledPackage, PackageDatabase};
use upm::error::UpmError;
use upm::package::manifest::{Manifest, PackageSource, SourceType};
use upm::rollback::{RollbackManager, RollbackPoint};

fn installed(name: &str, version: &str) -> InstalledPackage {
    InstalledPackage {
        name: name.to_string(),
        version: version.to_string(),
        source: format!("https://github.com/o/{}", name),
        install_path: format!("/home/u/.upm/installed/{}", name),
        installed_at: "2024-05-01T10:20:30+00:00".to_string(),
        files: vec![format!("/home/u/.upm/installed/{}/bin/{}", name, name)],
        checksum: "abc".to_string(),
        manifest: Manifest {
            package: name.to_string(),
            version: version.to_string(),
            description: None,
            license: None,
            platforms: vec!["all".to_string()],
            source: PackageSource {
                url: String::new(),
                source_type: SourceType::Github,
                branch: None,
                tag: None,
            },
            dependencies: vec![],
            build: None,
            install: None,
            environment: Some(vec![("PATH".to_string(), "/x".to_string())]),
            sha256: None,
        },
        dependencies: vec![],
    }
}

#[test]
fn new_database_is_kept_in_db_json() {
    let db = PackageDatabase::new("/home/u/.upm/installed");
    assert_eq!(db.db_path, "/home/u/.upm/installed/db.json");
    assert_eq!(db.count(), 0);
    let db2 = PackageDatabase::new("/home/u/.upm/installed/");
    assert_eq!(db2.db_path, "/home/u/.upm/installed/db.json");
}

#[test]
fn add_then_get_and_is_installed() {
    let mut db = PackageDatabase::new("/d");
    db.add_package(installed("nano", "7.2")).unwrap();
    assert!(db.is_installed("nano"));
    assert!(!db.is_installed("vim"));
    assert_eq!(db.get_package("nano").unwrap().version, "7.2");
    assert!(db.get_package("vim").is_none());
    assert_eq!(db.count(), 1);
}

#[test]
fn adding_twice_is_refused() {
    let mut db = PackageDatabase::new("/d");
    db.add_package(installed("nano", "7.2")).unwrap();
    let err = db.add_package(installed("nano", "8.0")).unwrap_err();
    assert_eq!(err, UpmError::PackageAlreadyInstalled("nano".to_string()));
    assert_eq!(err.message(), "Package already installed: nano");
    assert_eq!(db.get_package("nano").unwrap().version, "7.2");
}

#[test]
fn remove_undoes_add() {
    let mut db = PackageDatabase::new("/d");
    db.add_package(installed("a", "1")).unwrap();
    db.add_package(installed("b", "2")).unwrap();
    let removed = db.remove_package("b").unwrap();
    assert_eq!(removed.name, "b");
    assert_eq!(removed.version, "2");
    assert!(!db.is_installed("b"));
    assert!(db.is_installed("a"));
    assert_eq!(db.count(), 1);
}

#[test]
fn removing_a_missing_package_is_refused() {
    let mut db = PackageDatabase::new("/d");
    let err = db.remove_package("ghost").unwrap_err();
    assert_eq!(err, UpmError::PackageNotInstalled("ghost".to_string()));
    assert_eq!(err.message(), "Package not installed: ghost");
}

#[test]
fn update_replaces_the_record() {
    let mut db = PackageDatabase::new("/d");
    db.update_package(installed("x", "1"));
    db.update_package(installed("x", "2"));
    assert_eq!(db.count(), 1);
    assert_eq!(db.get_package("x").unwrap().version, "2");
}

#[test]
fn list_is_sorted_by_name() {
    let mut db = PackageDatabase::new("/d");
    for n in ["zsh", "bat", "Fd", "ripgrep", "b"] {
        db.add_package(installed(n, "1")).unwrap();
    }
    let names: Vec<&str> = db.list_packages().iter().map(|p| p.name.as_str()).collect();
    assert_eq!(names, vec!["Fd", "b", "bat", "ripgrep", "zsh"]);
}

#[test]
fn rollback_manager_starts_empty() {
    let rb = RollbackManager::new("/home/u/.upm");
    assert_eq!(rb.db_dir, "/home/u/.upm/rollbacks");
    assert!(rb.list().is_empty());
}

#[test]
fn rollback_point_records_installed_packages() {
    let mut db = PackageDatabase::new("/d");
    db.add_package(installed("nano", "7.2")).unwrap();
    db.add_package(installed("bat", "0.24")).unwrap();
    let mut rb = RollbackManager::new("/u");
    let p = rb.create_point_at(&db, "Install fd", "20240501_102030", "2024-05-01T10:20:30+00:00".to_string());
    assert_eq!(p.id, "rp_20240501_102030_0000");
    assert_eq!(p.timestamp, "2024-05-01T10:20:30+00:00");
    assert_eq!(p.description, "Install fd");
    assert_eq!(
        p.packages_before,
        vec![("bat".to_string(), "0.24".to_string()), ("nano".to_string(), "7.2".to_string())]
    );
    assert!(p.packages_after.is_empty());
    let q = rb.create_point_at(&db, "Remove nano", "20240501_102031", "t".to_string());
    assert_eq!(q.id, "rp_20240501_102031_0001");
    assert_eq!(rb.list().len(), 2);
}

#[test]
fn finalize_records_the_state_after() {
    let mut db = PackageDatabase::new("/d");
    let mut rb = RollbackManager::new("/u");
    let p = rb.create_point_at(&db, "Install fd", "s", "t".to_string());
    db.add_package(installed("fd", "9")).unwrap();
    assert!(rb.finalize_point(&p.id, &db));
    let points: &[RollbackPoint] = rb.list();
    assert!(points[0].packages_before.is_empty());
    assert_eq!(points[0].packages_after, vec![("fd".to_string(), "9".to_string())]);
    assert!(!rb.finalize_point("rp_nope", &db));
}

#[test]
fn finalize_updates_the_latest_point_of_that_id() {
    let mut db = PackageDatabase::new("/d");
    let mut rb = RollbackManager::new("/u");
    rb.create_point_at(&db, "first", "s", "t".to_string());
    rb.rollbacks[0].id = "same".to_string();
    rb.create_point_at(&db, "second", "s", "t".to_string());
    rb.rollbacks[1].id = "same".to_string();
    db.add_package(installed("x", "1")).unwrap();
    assert!(rb.finalize_point("same", &db));
    assert!(rb.rollbacks[0].packages_after.is_empty());
    assert_eq!(rb.rollbacks[1].packages_after.len(), 1);
}

#[test]
fn create_point_uses_the_clock() {
    let db = PackageDatabase::new("/d");
    let mut rb = RollbackManager::new("/u");
    let p = rb.create_point(&db, "Install x");
    assert!(p.id.starts_with("rp_"));
    assert!(p.id.ends_with("_0000"));
    assert_eq!(p.id.len(), "rp_20240501_102030_0000".len());
    assert!(!p.timestamp.is_empty());
}

#[test]
fn rollback_ids_stay_distinct() {
    let mut db = PackageDatabase::new("/d");
    let mut rb = RollbackManager::new("/u");
    let mut ids: Vec<String> = Vec::new();
    for k in 0..12 {
        let p = rb.create_point(&db, "change");
        db.add_package(installed(&format!("p{}", k), "1")).unwrap();
        assert!(rb.finalize_point(&p.id, &db));
        ids.push(p.id);
    }
    let weird = rb.create_point_at(&db, "odd stamp", "x_0001", "t".to_string());
    ids.push(weird.id);
    for a in 0..ids.len() {
        for b in (a + 1)..ids.len() {
            assert_ne!(ids[a], ids[b]);
        }
    }
}
