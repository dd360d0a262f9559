use upm::error::UpmError;
use upm::package::index::IndexPackage;
use upm::package::installer::{Installer, SourcePlan};
use upm::package::manifest::{Manifest, PackageSource, SourceType};

fn readme_manifest() -> Manifest {
    // The example manifest of the project's README.
    Manifest {
        package: "hello".to_string(),
        version: "1.0.0".to_string(),
        description: Some("Hello World package".to_string()),
        license: Some("MIT".to_string()),
        platforms: vec!["linux".into(), "macos".into(), "windows".into(), "bsd".into()],
        source: PackageSource {
            url: "https://github.com/Distendo/hello-upm".to_string(),
            source_type: SourceType::Github,
            branch: Some("main".to_string()),
            tag: Some("v1.0.0".to_string()),
        },
        dependencies: vec![],
        build: Some(vec!["cc -o hello hello.c".to_string()]),
        install: Some(vec!["install -d {{prefix}}/bin".to_string(), "cp hello {{prefix}}/bin/".to_string()]),
        environment: None,
        sha256: None,
    }
}

#[test]
fn readme_manifest_validates_everywhere_it_lists() {
    let m = readme_manifest();
    for os in ["linux", "macos", "windows", "freebsd", "openbsd", "netbsd"] {
        assert_eq!(m.validate(os), Ok(()));
        assert!(m.supports_platform(os));
    }
}

#[test]
fn unknown_system_is_refused_with_the_platform_list() {
    let m = readme_manifest();
    assert_eq!(
        m.validate("solaris"),
        Err(UpmError::UnsupportedPlatform(
            "Package 'hello' does not support platform 'solaris'. Supported: linux, macos, windows, bsd"
                .to_string()
        ))
    );
    // The support check counts any other system as a BSD.
    assert!(m.supports_platform("solaris"));
}

#[test]
fn empty_name_or_version_is_refused() {
    let mut m = readme_manifest();
    m.package = String::new();
    assert_eq!(m.validate("linux"), Err(UpmError::ManifestParseError("Package name is empty".to_string())));
    let mut m = readme_manifest();
    m.version = String::new();
    assert_eq!(m.validate("linux"), Err(UpmError::ManifestParseError("Package version is empty".to_string())));
}

#[test]
fn platforms_compare_in_lower_case_and_all_matches() {
    let mut m = readme_manifest();
    m.platforms = vec!["LINUX".to_string()];
    assert_eq!(m.validate("linux"), Ok(()));
    assert!(!m.supports_platform("windows"));
    m.platforms = vec!["All".to_string()];
    assert_eq!(m.validate("windows"), Ok(()));
    assert_eq!(m.validate("haiku"), Ok(()));
    m.platforms = vec![];
    assert!(m.validate("linux").is_err());
    assert!(!m.supports_platform("linux"));
}

#[test]
fn source_type_text() {
    assert_eq!(SourceType::Github.as_text(), "github");
    assert_eq!(SourceType::Git.as_text(), "git");
    assert_eq!(SourceType::Direct.as_text(), "direct");
}

fn index_entry() -> IndexPackage {
    IndexPackage {
        name: "ripgrep".to_string(),
        version: "14.1.0".to_string(),
        description: "fast grep".to_string(),
        source: "https://github.com/BurntSushi/ripgrep".to_string(),
        repository: "https://github.com/BurntSushi/ripgrep//".to_string(),
        license: Some("MIT".to_string()),
        dependencies: vec!["pcre2".to_string()],
        sha256: Some("ff".to_string()),
        platforms: vec!["linux".to_string()],
    }
}

#[test]
fn manifest_from_index_entry() {
    let p = index_entry();
    let m = Manifest::from_index(&p);
    assert_eq!(m.package, "ripgrep");
    assert_eq!(m.version, "14.1.0");
    assert_eq!(m.description.as_deref(), Some("fast grep"));
    assert_eq!(m.source.url, p.repository);
    assert_eq!(m.source.tag.as_deref(), Some("14.1.0"));
    assert!(m.source.branch.is_none());
    assert_eq!(m.dependencies.len(), 1);
    assert_eq!(m.dependencies[0].name, "pcre2");
    assert!(m.build.is_none() && m.install.is_none() && m.environment.is_none());
    assert_eq!(m.sha256.as_deref(), Some("ff"));
}

#[test]
fn manifest_url_trims_trailing_slashes() {
    assert_eq!(
        Installer::manifest_url(&index_entry()),
        "https://github.com/BurntSushi/ripgrep/raw/14.1.0/manifest.upm"
    );
}

#[test]
fn fallback_manifest_copies_files_to_bin() {
    let m = Installer::fallback_manifest("rg", &index_entry());
    assert_eq!(m.package, "rg");
    assert_eq!(
        m.install,
        Some(vec!["install -d {{prefix}}/bin".to_string(), "cp files/* {{prefix}}/bin/".to_string()])
    );
    assert!(m.sha256.is_none());
    assert_eq!(m.version, "14.1.0");
}

#[test]
fn github_source_downloads_the_tag_tarball() {
    let mut m = readme_manifest();
    m.source.url = "https://github.com/Distendo/hello-upm/".to_string();
    match Installer::plan_download("hello", &m, "/home/u/.upm/cache").unwrap() {
        SourcePlan::GithubTarball { url, dest } => {
            assert_eq!(url, "https://api.github.com/repos/Distendo/hello-upm/tarball/v1.0.0");
            assert_eq!(dest, "/home/u/.upm/cache/hello-1.0.0.tgz");
        }
        other => panic!("unexpected {:?}", other),
    }
    m.source.tag = None;
    m.source.url = "hello-upm".to_string();
    match Installer::plan_download("hello", &m, "/c").unwrap() {
        SourcePlan::GithubTarball { url, .. } => {
            assert_eq!(url, "https://api.github.com/repos/unknown/hello-upm/tarball/latest");
        }
        other => panic!("unexpected {:?}", other),
    }
}

#[test]
fn direct_and_git_sources() {
    let mut m = readme_manifest();
    m.source.source_type = SourceType::Direct;
    m.source.url = "https://example.org/hello.tar.gz".to_string();
    match Installer::plan_download("hello", &m, "/c").unwrap() {
        SourcePlan::Direct { url, dest } => {
            assert_eq!(url, "https://example.org/hello.tar.gz");
            assert_eq!(dest, "/c/hello-1.0.0");
        }
        other => panic!("unexpected {:?}", other),
    }
    m.source.source_type = SourceType::Git;
    assert_eq!(
        Installer::plan_download("hello", &m, "/c").unwrap_err(),
        UpmError::General("Git source type not yet implemented".to_string())
    );
}

#[test]
fn installed_record_takes_its_fields() {
    let p = index_entry();
    let m = Manifest::from_index(&p);
    let r = Installer::installed_record(
        "ripgrep",
        m,
        &p,
        "/i/ripgrep".to_string(),
        "2024".to_string(),
        vec!["/i/ripgrep/rg".to_string()],
        "cafe".to_string(),
    );
    assert_eq!(r.name, "ripgrep");
    assert_eq!(r.version, "14.1.0");
    assert_eq!(r.source, p.repository);
    assert_eq!(r.install_path, "/i/ripgrep");
    assert_eq!(r.installed_at, "2024");
    assert_eq!(r.files, vec!["/i/ripgrep/rg".to_string()]);
    assert_eq!(r.checksum, "cafe");
    assert_eq!(r.dependencies, vec!["pcre2".to_string()]);
}
