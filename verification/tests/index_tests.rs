use upm::package::index::{IndexPackage, PackageIndex};

fn pkg(name: &str, deps: &[&str]) -> IndexPackage {
    IndexPackage {
        name: name.to_string(),
        version: "1.0.0".to_string(),
        description: format!("The {} tool", name),
        source: format!("https://github.com/example/{}", name),
        repository: format!("https://github.com/example/{}", name),
        license: Some("MIT".to_string()),
        dependencies: deps.iter().map(|d| d.to_string()).collect(),
        sha256: None,
        platforms: vec!["linux".to_string()],
    }
}

#[test]
fn find_after_add_returns_the_package() {
    let mut idx = PackageIndex::new("UPM Official Index", "Official package index");
    assert_eq!(idx.package_count(), 0);
    idx.add_package(pkg("ripgrep", &[]));
    let found = idx.find_package("ripgrep").expect("listed");
    assert_eq!(found.name, "ripgrep");
    assert!(idx.find_package("fd").is_none());
    assert_eq!(idx.package_count(), 1);
}

#[test]
fn add_replaces_a_package_of_the_same_name() {
    let mut idx = PackageIndex::new("local", "Local package index");
    idx.add_package(pkg("bat", &[]));
    let mut newer = pkg("bat", &["less"]);
    newer.version = "2.0.0".to_string();
    idx.add_package(newer);
    assert_eq!(idx.package_count(), 1);
    let found = idx.find_package("bat").unwrap();
    assert_eq!(found.version, "2.0.0");
    assert_eq!(found.dependencies, vec!["less".to_string()]);
    assert_eq!(idx.name, "local");
    assert_eq!(idx.description, "Local package index");
}

#[test]
fn search_ignores_case_in_name_and_description() {
    let mut idx = PackageIndex::new("i", "d");
    idx.add_package(pkg("RipGrep", &[]));
    let mut nano = pkg("nano", &[]);
    nano.description = "A small text EDITOR".to_string();
    idx.add_package(nano);
    idx.add_package(pkg("fd", &[]));

    let by_name: Vec<&str> = idx.search("ripgrep").iter().map(|p| p.name.as_str()).collect();
    assert_eq!(by_name, vec!["RipGrep"]);

    let by_desc: Vec<&str> = idx.search("editor").iter().map(|p| p.name.as_str()).collect();
    assert_eq!(by_desc, vec!["nano"]);

    assert!(idx.search("emacs").is_empty());
}

#[test]
fn search_with_empty_query_lists_every_package() {
    let mut idx = PackageIndex::new("i", "d");
    idx.add_package(pkg("a", &[]));
    idx.add_package(pkg("b", &[]));
    idx.add_package(pkg("c", &[]));
    let mut names: Vec<String> = idx.search("").iter().map(|p| p.name.clone()).collect();
    names.sort();
    assert_eq!(names, vec!["a", "b", "c"]);
}

#[test]
fn packages_lists_each_name_once() {
    let mut idx = PackageIndex::new("i", "d");
    idx.add_package(pkg("x", &[]));
    idx.add_package(pkg("y", &[]));
    idx.add_package(pkg("x", &["y"]));
    let names: Vec<&str> = idx.packages().iter().map(|p| p.name.as_str()).collect();
    assert_eq!(names, vec!["x", "y"]);
}
