//! The package manager's configuration: where it keeps its files and where
//! it fetches its index.

use vstd::prelude::*;

use crate::path::{join, path_join};

verus! {

/// Directories, index location and settings.
#[derive(Debug)]
pub struct Config {
    pub upm_dir: String,
    pub cache_dir: String,
    pub installed_dir: String,
    pub logs_dir: String,
    pub config_dir: String,
    pub index_url: String,
    pub github_token: Option<String>,
    pub concurrency: usize,
    pub default_prefix: String,
}

/// The URL of the official package index.
pub open spec fn official_index_url() -> Seq<char> {
    "https://raw.githubusercontent.com/Distendo/UPM/master/index/official.json"@
}

impl Config {
    /// The default configuration for the home directory `home`: everything
    /// under `home/.upm`, the official index, no token, four downloads at
    /// a time, and `/usr/local` as the install prefix.
    pub fn from_home(home: &str) -> (r: Config)
        ensures
            r.upm_dir@ == path_join(home@, ".upm"@),
            r.cache_dir@ == path_join(r.upm_dir@, "cache"@),
            r.installed_dir@ == path_join(r.upm_dir@, "installed"@),
            r.logs_dir@ == path_join(r.upm_dir@, "logs"@),
            r.config_dir@ == path_join(r.upm_dir@, "config"@),
            r.index_url@ == official_index_url(),
            r.github_token is None,
            r.concurrency == 4,
            r.default_prefix@ == "/usr/local"@,
    {
        let upm_dir = join(home, ".upm");
        Config {
            cache_dir: join(upm_dir.as_str(), "cache"),
            installed_dir: join(upm_dir.as_str(), "installed"),
            logs_dir: join(upm_dir.as_str(), "logs"),
            config_dir: join(upm_dir.as_str(), "config"),
            upm_dir,
            index_url: String::from_str(
                "https://raw.githubusercontent.com/Distendo/UPM/master/index/official.json",
            ),
            github_token: None,
            concurrency: 4,
            default_prefix: String::from_str("/usr/local"),
        }
    }

    /// Where the configuration is saved for the home directory `home`:
    /// `home/.upm/config/config.json`.
    pub fn config_file_path(home: &str) -> (r: String)
        ensures
            r@ == path_join(path_join(path_join(home@, ".upm"@), "config"@), "config.json"@),
    {
        let a = join(home, ".upm");
        let b = join(a.as_str(), "config");
        join(b.as_str(), "config.json")
    }
}

/// Where the cached copy of the package index is kept:
/// `package_index.json` in the configuration directory.
pub fn resolve_index_path(config: &Config) -> (r: String)
    ensures
        r@ == path_join(config.config_dir@, "package_index.json"@),
{
    join(config.config_dir.as_str(), "package_index.json")
}

} // verus!
