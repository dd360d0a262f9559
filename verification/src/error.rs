//! The library's error type and the message each error reads as.

use vstd::prelude::*;

verus! {

/// Everything that can go wrong in the package manager.
#[derive(Debug, PartialEq, Eq)]
pub enum UpmError {
    Io(String),
    Network(String),
    Json(String),
    PackageNotFound(String),
    PackageAlreadyInstalled(String),
    PackageNotInstalled(String),
    ManifestParseError(String),
    VerificationFailed { expected: String, actual: String },
    DependencyError(String),
    BuildFailed(String),
    UnsupportedPlatform(String),
    ConfigError(String),
    GitError(String),
    PermissionDenied(String),
    General(String),
}

/// The text an error reads as: a fixed prefix naming its kind, then its detail.
pub open spec fn error_text(e: UpmError) -> Seq<char> {
    match e {
        UpmError::Io(s) => "IO error: "@ + s@,
        UpmError::Network(s) => "Network error: "@ + s@,
        UpmError::Json(s) => "JSON error: "@ + s@,
        UpmError::PackageNotFound(s) => "Package not found: "@ + s@,
        UpmError::PackageAlreadyInstalled(s) => "Package already installed: "@ + s@,
        UpmError::PackageNotInstalled(s) => "Package not installed: "@ + s@,
        UpmError::ManifestParseError(s) => "Manifest parse error: "@ + s@,
        UpmError::VerificationFailed { expected, actual } => "Verification failed: expected "@
            + expected@ + ", got "@ + actual@,
        UpmError::DependencyError(s) => "Dependency resolution failed: "@ + s@,
        UpmError::BuildFailed(s) => "Build failed: "@ + s@,
        UpmError::UnsupportedPlatform(s) => "Unsupported platform: "@ + s@,
        UpmError::ConfigError(s) => "Configuration error: "@ + s@,
        UpmError::GitError(s) => "Git error: "@ + s@,
        UpmError::PermissionDenied(s) => "Permission denied: "@ + s@,
        UpmError::General(s) => s@,
    }
}

/// `prefix` followed by `rest`.
pub fn concat_str(prefix: &str, rest: &str) -> (r: String)
    ensures
        r@ == prefix@ + rest@,
{
    let mut r = String::from_str(prefix);
    r.append(rest);
    r
}

impl UpmError {
    /// The text this error reads as.
    pub fn message(&self) -> (r: String)
        ensures
            r@ == error_text(*self),
    {
        match self {
            UpmError::Io(s) => concat_str("IO error: ", s.as_str()),
            UpmError::Network(s) => concat_str("Network error: ", s.as_str()),
            UpmError::Json(s) => concat_str("JSON error: ", s.as_str()),
            UpmError::PackageNotFound(s) => concat_str("Package not found: ", s.as_str()),
            UpmError::PackageAlreadyInstalled(s) => concat_str(
                "Package already installed: ",
                s.as_str(),
            ),
            UpmError::PackageNotInstalled(s) => concat_str("Package not installed: ", s.as_str()),
            UpmError::ManifestParseError(s) => concat_str("Manifest parse error: ", s.as_str()),
            UpmError::VerificationFailed { expected, actual } => {
                let mut r = concat_str("Verification failed: expected ", expected.as_str());
                r.append(", got ");
                r.append(actual.as_str());
                r
            },
            UpmError::DependencyError(s) => concat_str(
                "Dependency resolution failed: ",
                s.as_str(),
            ),
            UpmError::BuildFailed(s) => concat_str("Build failed: ", s.as_str()),
            UpmError::UnsupportedPlatform(s) => concat_str("Unsupported platform: ", s.as_str()),
            UpmError::ConfigError(s) => concat_str("Configuration error: ", s.as_str()),
            UpmError::GitError(s) => concat_str("Git error: ", s.as_str()),
            UpmError::PermissionDenied(s) => concat_str("Permission denied: ", s.as_str()),
            UpmError::General(s) => s.clone(),
        }
    }
}

} // verus!
