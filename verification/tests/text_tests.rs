use upm::api::github::{raw_file_url, tarball_url, urlencoding, GithubApi};
use upm::config::{resolve_index_path, Config};
use upm::doctor::Doctor;
use upm::error::UpmError;
use upm::groq::Groq;
use upm::groq_key::decrypt_groq_key;
use upm::package::index::PackageIndex;
use upm::path::join;
use upm::registry::{GitAction, GitStep, Registry};
use upm::setup::Setup;
use upm::text::{format_zero_padded, split_on, str_occurs_in, trim, trim_end_char};
use upm::verify::{check_digest, sha256_bytes, verify_checksum, verify_directory};

#[test]
fn url_encoding() {
    assert_eq!(urlencoding("hello world"), "hello+world");
    assert_eq!(urlencoding("a-b_c.d~e"), "a-b_c.d~e");
    assert_eq!(urlencoding("c++ & rust"), "c%2B%2B+%26+rust");
    // Only the low byte of a code point is written.
    assert_eq!(urlencoding("é"), "%E9");
    assert_eq!(urlencoding("€"), "%AC");
    assert_eq!(urlencoding(""), "");
}

#[test]
fn github_urls() {
    let api = GithubApi::new(None);
    assert_eq!(api.base_url, "https://api.github.com");
    assert_eq!(
        api.search_repositories_url("text editor"),
        "https://api.github.com/search/repositories?q=text+editor&per_page=20"
    );
    assert_eq!(api.repository_url("o", "r"), "https://api.github.com/repos/o/r");
    assert_eq!(api.releases_url("o", "r"), "https://api.github.com/repos/o/r/releases?per_page=10");
    assert_eq!(api.latest_release_url("o", "r"), "https://api.github.com/repos/o/r/releases/latest");
    assert_eq!(api.repo_contents_url("o", "r", "src/lib.rs"), "https://api.github.com/repos/o/r/contents/src/lib.rs");
    assert_eq!(tarball_url("o", "r", "v1"), "https://api.github.com/repos/o/r/tarball/v1");
    assert_eq!(raw_file_url("o", "r", "manifest.upm", "main"), "https://raw.githubusercontent.com/o/r/main/manifest.upm");
}

#[test]
fn github_headers() {
    let anon = GithubApi::new(None).headers();
    assert_eq!(anon, vec![("Accept".to_string(), "application/vnd.github.v3+json".to_string())]);
    let auth = GithubApi::new(Some("tok".to_string())).headers();
    assert_eq!(auth.len(), 2);
    assert_eq!(auth[1], ("Authorization".to_string(), "Bearer tok".to_string()));
}

#[test]
fn path_join() {
    assert_eq!(join("/a", "b"), "/a/b");
    assert_eq!(join("/a/", "b"), "/a/b");
    assert_eq!(join("", "b"), "b");
    assert_eq!(join("/a", "/b"), "/b");
    assert_eq!(join("a", ".config/fish/config.fish"), "a/.config/fish/config.fish");
}

#[test]
fn config_defaults() {
    let c = Config::from_home("/home/u");
    assert_eq!(c.upm_dir, "/home/u/.upm");
    assert_eq!(c.cache_dir, "/home/u/.upm/cache");
    assert_eq!(c.installed_dir, "/home/u/.upm/installed");
    assert_eq!(c.logs_dir, "/home/u/.upm/logs");
    assert_eq!(c.config_dir, "/home/u/.upm/config");
    assert_eq!(c.index_url, "https://raw.githubusercontent.com/Distendo/UPM/master/index/official.json");
    assert_eq!(c.github_token, None);
    assert_eq!(c.concurrency, 4);
    assert_eq!(c.default_prefix, "/usr/local");
    assert_eq!(Config::config_file_path("/home/u"), "/home/u/.upm/config/config.json");
    assert_eq!(resolve_index_path(&c), "/home/u/.upm/config/package_index.json");
    assert_eq!(Registry::local_index_path(&c), "/home/u/.upm/config/official.json");
    assert_eq!(Setup::bin_dir(&c), "/home/u/.upm/installed/bin");
}

#[test]
fn sha256_checksums() {
    assert_eq!(
        sha256_bytes(b""),
        "e3b0c44298fc1c149afbf4c8996fb92427ae41e4649b934ca495991b7852b855"
    );
    assert_eq!(
        sha256_bytes(b"abc"),
        "ba7816bf8f01cfea414140de5dae2223b00361a396177a9cb410ff61f20015ad"
    );
    assert_eq!(
        verify_checksum(b"abc", "ba7816bf8f01cfea414140de5dae2223b00361a396177a9cb410ff61f20015ad"),
        Ok(())
    );
    let err = verify_checksum(b"abd", "ba7816bf8f01cfea414140de5dae2223b00361a396177a9cb410ff61f20015ad").unwrap_err();
    match &err {
        UpmError::VerificationFailed { expected, actual } => {
            assert_eq!(expected, "ba7816bf8f01cfea414140de5dae2223b00361a396177a9cb410ff61f20015ad");
            assert_eq!(actual, &sha256_bytes(b"abd"));
            assert_ne!(actual, expected);
        }
        other => panic!("unexpected {:?}", other),
    }
    assert!(err.message().starts_with("Verification failed: expected ba7816"));
    assert_eq!(check_digest("x".to_string(), "x"), Ok(()));
}

#[test]
fn shared_key_unscrambles() {
    let k = decrypt_groq_key().expect("key");
    assert_eq!(k.len(), 56);
    assert!(k.starts_with("gsk_"));
    let g = Groq::from_env_key(None).unwrap();
    assert_eq!(g.config.api_key, k);
    assert_eq!(g.config.model, "llama-3.3-70b-versatile");
    let g = Groq::from_env_key(Some("mine".to_string())).unwrap();
    assert_eq!(g.config.api_key, "mine");
}

#[test]
fn prompt_and_reply_cleaning() {
    let p = Groq::build_prompt("hello", "https://github.com/o/hello", &vec!["Makefile (10 bytes)".to_string(), "src/".to_string()], "linux", &vec![]);
    assert!(p.starts_with("You are a build system expert. Given a GitHub repository"));
    assert!(p.contains("Package: hello\nRepository: https://github.com/o/hello\nPlatform: linux\nPreferred tools: auto-detect\n\nFiles in repository:\nMakefile (10 bytes)\nsrc/\n\nReturn a JSON object"));
    assert!(p.contains("- Use {prefix} as the installation prefix (e.g. \"cp mybinary {prefix}/bin/\")"));
    assert!(p.ends_with("install is \"cp -r . {prefix}/share/{package}/\"\n"));
    let p2 = Groq::build_prompt("x", "r", &vec![], "macos", &vec!["cargo".to_string(), "make".to_string()]);
    assert!(p2.contains("Preferred tools: cargo, make\n"));
    assert_eq!(Groq::clean_response("{\"a\": 1}\u{200b}\t\nü"), "{\"a\": 1}\t\n");
    assert_eq!(Groq::clean_response(&Groq::clean_response("a\u{0}b")), "ab");
    assert!(Groq::is_skipped(".git"));
    assert!(Groq::is_skipped("target"));
    assert!(Groq::is_skipped("node_modules/x"));
    assert!(!Groq::is_skipped("src/main.rs"));
    assert!(!Groq::is_skipped("targets"));
}

#[test]
fn setup_shell_lines() {
    assert_eq!(Setup::export_line("/usr/bin/fish", "/b"), "fish_add_path /b");
    assert_eq!(Setup::export_line("/bin/bash", "/b"), "export PATH=\"$PATH:/b\"");
    assert_eq!(Setup::rc_candidates("/bin/zsh", "/h"), vec!["/h/.zshrc", "/h/.zshenv", "/h/.zprofile"]);
    assert_eq!(Setup::rc_candidates("/usr/bin/fish", "/h"), vec!["/h/.config/fish/config.fish", "/h/.fishrc"]);
    assert_eq!(Setup::rc_candidates("", "/h"), vec!["/h/.bashrc", "/h/.bash_profile", "/h/.profile"]);
    let c = vec!["a".to_string(), "b".to_string(), "c".to_string()];
    assert_eq!(Setup::choose_rc_file(&c, &vec![false, true, true]), "b");
    assert_eq!(Setup::choose_rc_file(&c, &vec![false, false, false]), "a");
    assert_eq!(Setup::split_paths("/usr/bin::/bin"), vec!["/usr/bin", "", "/bin"]);
    assert_eq!(Setup::split_paths(""), vec![""]);
    assert!(Setup::check_path_bool(&vec![false, true]));
    assert!(!Setup::check_path_bool(&vec![]));
}

#[test]
fn registry_adds_once() {
    let mut idx = PackageIndex::new("UPM Official Index", "Official package index for Universal Package Manager");
    Registry::register(&mut idx, "hello", "https://github.com/o/hello", "1.0.0", "", "MIT").unwrap();
    let p = idx.find_package("hello").unwrap();
    assert_eq!(p.repository, "https://github.com/o/hello");
    assert_eq!(p.source, "https://github.com/o/hello");
    assert_eq!(p.license.as_deref(), Some("MIT"));
    assert_eq!(p.platforms, vec!["linux", "macos", "windows", "bsd"]);
    assert!(p.dependencies.is_empty() && p.sha256.is_none());
    let err = Registry::register(&mut idx, "hello", "u", "2", "", "MIT").unwrap_err();
    assert_eq!(err, UpmError::General("Package 'hello' is already registered in the index".to_string()));
    assert_eq!(err.message(), "Package 'hello' is already registered in the index");
    let mut repo = PackageIndex::new("r", "r");
    Registry::copy_entry(&idx, &mut repo, "hello").unwrap();
    assert_eq!(repo.find_package("hello").unwrap().version, "1.0.0");
    assert_eq!(
        Registry::copy_entry(&idx, &mut repo, "nope").unwrap_err(),
        UpmError::General("Package 'nope' not found after adding".to_string())
    );
    assert_eq!(Registry::repo_index_path("/repo"), "/repo/index/official.json");
    assert_eq!(Registry::git_dir("/repo"), "/repo/.git");
    assert_eq!(Registry::commit_message("hello"), "Add package hello");
}

#[test]
fn doctor_verdicts() {
    assert_eq!(Doctor::check_github_api(false), ("GitHub API: no token set (rate limits apply)".to_string(), true));
    assert_eq!(Doctor::check_git_installed(false), ("Git: NOT found".to_string(), false));
    assert_eq!(Doctor::check_filesystem(true, true, false), ("Filesystem: FAIL".to_string(), false));
    assert_eq!(Doctor::check_path(true), ("PATH: UPM bin directory found".to_string(), true));
    let checks = vec![
        Doctor::check_github_api(true),
        Doctor::check_upm_directories(true),
        Doctor::check_permissions(false),
        Doctor::check_network(),
    ];
    assert_eq!(Doctor::passed(&checks), 3);
}

#[test]
fn text_helpers() {
    assert_eq!(format_zero_padded(7, 4), "0007");
    assert_eq!(format_zero_padded(12345, 4), "12345");
    assert_eq!(format_zero_padded(0, 4), "0000");
    assert_eq!(split_on("a/b//c", '/'), vec!["a", "b", "", "c"]);
    assert_eq!(trim_end_char("x///", '/'), "x");
    assert!(str_occurs_in("ripgrep", "pgr"));
    assert!(!str_occurs_in("rg", "rip"));
    assert!(str_occurs_in("rg", ""));
}

#[test]
fn error_messages() {
    assert_eq!(UpmError::Io("disk".into()).message(), "IO error: disk");
    assert_eq!(UpmError::Network("HTTP 404".into()).message(), "Network error: HTTP 404");
    assert_eq!(UpmError::Json("eof".into()).message(), "JSON error: eof");
    assert_eq!(UpmError::PackageNotFound("x".into()).message(), "Package not found: x");
    assert_eq!(UpmError::ManifestParseError("m".into()).message(), "Manifest parse error: m");
    assert_eq!(UpmError::BuildFailed("b".into()).message(), "Build failed: b");
    assert_eq!(UpmError::UnsupportedPlatform("p".into()).message(), "Unsupported platform: p");
    assert_eq!(UpmError::ConfigError("c".into()).message(), "Configuration error: c");
    assert_eq!(UpmError::GitError("g".into()).message(), "Git error: g");
    assert_eq!(UpmError::PermissionDenied("d".into()).message(), "Permission denied: d");
    assert_eq!(UpmError::General("plain".into()).message(), "plain");
}

#[test]
fn directory_verdicts() {
    assert_eq!(
        verify_directory("/nope", false, false, false),
        Err(UpmError::General("Path does not exist: /nope".to_string()))
    );
    assert_eq!(
        verify_directory("/etc/hosts", true, false, false),
        Err(UpmError::General("Path is not a directory: /etc/hosts".to_string()))
    );
    assert_eq!(
        verify_directory("/ro", true, true, true),
        Err(UpmError::PermissionDenied("Directory is read-only: /ro".to_string()))
    );
    assert_eq!(verify_directory("/tmp", true, true, false), Ok(()));
}

#[test]
fn chat_request_parts() {
    let g = Groq::from_env_key(Some("k-123".to_string())).unwrap();
    let parts = g.chat_request("hello".to_string());
    assert_eq!(parts.url, "https://api.groq.com/openai/v1/chat/completions");
    assert_eq!(parts.authorization, "Bearer k-123");
    assert_eq!(parts.model, "llama-3.3-70b-versatile");
    assert_eq!(parts.system_message, "You are a build system expert. Respond only with valid JSON.");
    assert_eq!(parts.user_message, "hello");
    assert_eq!(parts.max_tokens, 2000);
    assert_eq!(parts.response_type, "json_object");
}

fn action_text(a: GitAction) -> String {
    match a {
        GitAction::Commit => "commit".to_string(),
        GitAction::Push => "push".to_string(),
        GitAction::Fail(e) => format!("fail: {}", e.message()),
        GitAction::Warn(m) => format!("warn: {}", m),
        GitAction::Succeed(m) => format!("ok: {}", m),
    }
}

#[test]
fn git_publishing_steps() {
    assert_eq!(action_text(Registry::git_next(GitStep::Add, true, "")), "commit");
    assert_eq!(action_text(Registry::git_next(GitStep::Add, false, "")), "fail: git add failed");
    assert_eq!(action_text(Registry::git_next(GitStep::Commit, true, "")), "push");
    assert_eq!(
        action_text(Registry::git_next(GitStep::Commit, false, "On branch main\nnothing to commit, working tree clean\n")),
        "warn: Nothing to commit (already up to date)"
    );
    assert_eq!(
        action_text(Registry::git_next(GitStep::Commit, false, "  fatal: bad thing\n\u{3000}")),
        "warn: git commit warning: fatal: bad thing"
    );
    assert_eq!(action_text(Registry::git_next(GitStep::Push, true, "")), "ok: Committed and pushed to GitHub");
    assert_eq!(
        action_text(Registry::git_next(GitStep::Push, false, "x")),
        "warn: Commit succeeded but push failed. Push manually."
    );
    assert_eq!(trim(" \t a b \n\u{a0}"), "a b");
    assert_eq!(trim("   "), "");
}
