//! The manifest that describes a package, and its checks.

use vstd::prelude::*;

use crate::error::UpmError;
use crate::package::index::IndexPackage;
use crate::text::{
    clone_opt_string, clone_strings, join_strings, joined, lowercase, str_eq, to_lowercase, views,
};

verus! {

/// Where a package's source is fetched from.
#[derive(Debug, Clone, Copy, PartialEq, Eq)]
pub enum SourceType {
    Github,
    Git,
    Direct,
}

/// The lower-case name of a source type.
pub open spec fn source_type_text(t: SourceType) -> Seq<char> {
    match t {
        SourceType::Github => "github"@,
        SourceType::Git => "git"@,
        SourceType::Direct => "direct"@,
    }
}

impl SourceType {
    /// The lower-case name of this source type.
    pub fn as_text(&self) -> (r: String)
        ensures
            r@ == source_type_text(*self),
    {
        match self {
            SourceType::Github => String::from_str("github"),
            SourceType::Git => String::from_str("git"),
            SourceType::Direct => String::from_str("direct"),
        }
    }
}

/// Where and how to fetch a package's source.
#[derive(Debug)]
pub struct PackageSource {
    pub url: String,
    pub source_type: SourceType,
    pub branch: Option<String>,
    pub tag: Option<String>,
}

impl Clone for PackageSource {
    fn clone(&self) -> (r: Self)
        ensures
            r == *self,
    {
        PackageSource {
            url: self.url.clone(),
            source_type: self.source_type,
            branch: clone_opt_string(&self.branch),
            tag: clone_opt_string(&self.tag),
        }
    }
}

/// A dependency named in a manifest.
#[derive(Debug)]
pub struct Dependency {
    pub name: String,
    pub version: Option<String>,
    pub optional: Option<bool>,
}

impl Clone for Dependency {
    fn clone(&self) -> (r: Self)
        ensures
            r == *self,
    {
        Dependency {
            name: self.name.clone(),
            version: clone_opt_string(&self.version),
            optional: self.optional,
        }
    }
}

/// A package manifest (`manifest.upm`).
#[derive(Debug)]
pub struct Manifest {
    pub package: String,
    pub version: String,
    pub description: Option<String>,
    pub license: Option<String>,
    pub platforms: Vec<String>,
    pub source: PackageSource,
    pub dependencies: Vec<Dependency>,
    pub build: Option<Vec<String>>,
    pub install: Option<Vec<String>>,
    /// Environment variables, as (name, value) pairs.
    pub environment: Option<Vec<(String, String)>>,
    pub sha256: Option<String>,
}

fn clone_opt_strings(v: &Option<Vec<String>>) -> (r: Option<Vec<String>>)
    ensures
        match (r, *v) {
            (Some(a), Some(b)) => a@ == b@,
            (None, None) => true,
            _ => false,
        },
{
    match v {
        Some(x) => Some(clone_strings(x)),
        None => None,
    }
}

fn clone_pairs(v: &Vec<(String, String)>) -> (r: Vec<(String, String)>)
    ensures
        r@ == v@,
{
    let mut r: Vec<(String, String)> = Vec::new();
    let mut i: usize = 0;
    while i < v.len()
        invariant
            i <= v.len(),
            r@ == v@.take(i as int),
        decreases v.len() - i,
    {
        r.push((v[i].0.clone(), v[i].1.clone()));
        i = i + 1;
        assert(r@ =~= v@.take(i as int));
    }
    assert(v@.take(v.len() as int) =~= v@);
    r
}

fn clone_dependencies(v: &Vec<Dependency>) -> (r: Vec<Dependency>)
    ensures
        r@ == v@,
{
    let mut r: Vec<Dependency> = Vec::new();
    let mut i: usize = 0;
    while i < v.len()
        invariant
            i <= v.len(),
            r@ == v@.take(i as int),
        decreases v.len() - i,
    {
        r.push(v[i].clone());
        i = i + 1;
        assert(r@ =~= v@.take(i as int));
    }
    assert(v@.take(v.len() as int) =~= v@);
    r
}

impl Clone for Manifest {
    /// A copy whose fields hold the same values.
    fn clone(&self) -> (r: Self)
        ensures
            r.package == self.package,
            r.version == self.version,
            r.description == self.description,
            r.license == self.license,
            r.platforms@ == self.platforms@,
            r.source == self.source,
            r.dependencies@ == self.dependencies@,
            r.build.is_some() == self.build.is_some(),
            r.build.is_some() ==> r.build.unwrap()@ == self.build.unwrap()@,
            r.install.is_some() == self.install.is_some(),
            r.install.is_some() ==> r.install.unwrap()@ == self.install.unwrap()@,
            r.environment.is_some() == self.environment.is_some(),
            r.environment.is_some() ==> r.environment.unwrap()@ == self.environment.unwrap()@,
            r.sha256 == self.sha256,
    {
        Manifest {
            package: self.package.clone(),
            version: self.version.clone(),
            description: clone_opt_string(&self.description),
            license: clone_opt_string(&self.license),
            platforms: clone_strings(&self.platforms),
            source: self.source.clone(),
            dependencies: clone_dependencies(&self.dependencies),
            build: clone_opt_strings(&self.build),
            install: clone_opt_strings(&self.install),
            environment: match &self.environment {
                Some(e) => Some(clone_pairs(e)),
                None => None,
            },
            sha256: clone_opt_string(&self.sha256),
        }
    }
}

/// The platform family that manifest validation checks an operating system
/// name against.
pub open spec fn validation_family(os: Seq<char>) -> Seq<char> {
    if os == "linux"@ {
        "linux"@
    } else if os == "windows"@ {
        "windows"@
    } else if os == "macos"@ {
        "macos"@
    } else if os == "freebsd"@ || os == "netbsd"@ || os == "openbsd"@ {
        "bsd"@
    } else {
        "unknown"@
    }
}

/// The platform family that the support check uses: any system other than
/// Linux, Windows and macOS counts as a BSD.
pub open spec fn support_family(os: Seq<char>) -> Seq<char> {
    if os == "linux"@ {
        "linux"@
    } else if os == "windows"@ {
        "windows"@
    } else if os == "macos"@ {
        "macos"@
    } else {
        "bsd"@
    }
}

/// Some platform of `platforms`, in lower case, is `family` or "all".
pub open spec fn lists_platform(platforms: Seq<String>, family: Seq<char>) -> bool {
    exists|i: int|
        0 <= i < platforms.len() && (lowercase(#[trigger] platforms[i]@) == family || lowercase(
            platforms[i]@,
        ) == "all"@)
}

/// The message for a manifest that does not list the running system.
pub open spec fn unsupported_text(package: Seq<char>, os: Seq<char>, platforms: Seq<String>) -> Seq<
    char,
> {
    "Package '"@ + package + "' does not support platform '"@ + os + "'. Supported: "@ + joined(
        views(platforms),
        ", "@,
    )
}

fn family_for_validation(os: &str) -> (r: String)
    ensures
        r@ == validation_family(os@),
{
    if str_eq(os, "linux") {
        String::from_str("linux")
    } else if str_eq(os, "windows") {
        String::from_str("windows")
    } else if str_eq(os, "macos") {
        String::from_str("macos")
    } else if str_eq(os, "freebsd") || str_eq(os, "netbsd") || str_eq(os, "openbsd") {
        String::from_str("bsd")
    } else {
        String::from_str("unknown")
    }
}

fn family_for_support(os: &str) -> (r: String)
    ensures
        r@ == support_family(os@),
{
    if str_eq(os, "linux") {
        String::from_str("linux")
    } else if str_eq(os, "windows") {
        String::from_str("windows")
    } else if str_eq(os, "macos") {
        String::from_str("macos")
    } else {
        String::from_str("bsd")
    }
}

/// Whether some platform of `platforms`, in lower case, is `family` or "all".
fn any_platform_matches(platforms: &Vec<String>, family: &String) -> (r: bool)
    ensures
        r == lists_platform(platforms@, family@),
{
    let all = String::from_str("all");
    let mut i: usize = 0;
    while i < platforms.len()
        invariant
            i <= platforms.len(),
            all@ == "all"@,
            forall|j: int|
                0 <= j < i ==> !(lowercase(#[trigger] platforms@[j]@) == family@ || lowercase(
                    platforms@[j]@,
                ) == "all"@),
        decreases platforms.len() - i,
    {
        let p = to_lowercase(platforms[i].as_str());
        if p == *family || p == all {
            return true;
        }
        i = i + 1;
    }
    false
}

/// `m` is the manifest that the index entry `p` stands for: the index's
/// name, version, description, license, platforms and checksum; a GitHub
/// source at the repository tagged with the version; each dependency by
/// name alone; no build, install or environment steps.
pub open spec fn is_index_manifest(m: Manifest, p: IndexPackage) -> bool {
    &&& m.package == p.name
    &&& m.version == p.version
    &&& m.description == Some(p.description)
    &&& m.license == p.license
    &&& m.platforms@ == p.platforms@
    &&& m.source.url == p.repository
    &&& m.source.source_type == SourceType::Github
    &&& m.source.branch.is_none()
    &&& m.source.tag == Some(p.version)
    &&& m.dependencies@.len() == p.dependencies@.len()
    &&& forall|i: int|
        0 <= i < m.dependencies@.len() ==> (#[trigger] m.dependencies@[i]).name
            == p.dependencies@[i] && m.dependencies@[i].version.is_none()
            && m.dependencies@[i].optional.is_none()
    &&& m.build.is_none()
    &&& m.install.is_none()
    &&& m.environment.is_none()
    &&& m.sha256 == p.sha256
}

impl Manifest {
    /// Each environment variable is named once.
    pub open spec fn wf(&self) -> bool {
        match self.environment {
            Some(env) => forall|i: int, j: int|
                0 <= i < j < env@.len() ==> (#[trigger] env@[i]).0@ != (#[trigger] env@[j]).0@,
            None => true,
        }
    }

    /// The manifest that an index entry stands for.
    pub fn from_index(p: &IndexPackage) -> (m: Manifest)
        ensures
            is_index_manifest(m, *p),
            m.wf(),
    {
        let mut deps: Vec<Dependency> = Vec::new();
        let mut i: usize = 0;
        while i < p.dependencies.len()
            invariant
                i <= p.dependencies@.len(),
                deps@.len() == i,
                forall|j: int|
                    0 <= j < i ==> (#[trigger] deps@[j]).name == p.dependencies@[j]
                        && deps@[j].version.is_none() && deps@[j].optional.is_none(),
            decreases p.dependencies@.len() - i,
        {
            deps.push(Dependency { name: p.dependencies[i].clone(), version: None, optional: None });
            i = i + 1;
        }
        Manifest {
            package: p.name.clone(),
            version: p.version.clone(),
            description: Some(p.description.clone()),
            license: clone_opt_string(&p.license),
            platforms: clone_strings(&p.platforms),
            source: PackageSource {
                url: p.repository.clone(),
                source_type: SourceType::Github,
                branch: None,
                tag: Some(p.version.clone()),
            },
            dependencies: deps,
            build: None,
            install: None,
            environment: None,
            sha256: clone_opt_string(&p.sha256),
        }
    }

    /// Checks a parsed manifest for the operating system named `os` (as
    /// `std::env::consts::OS` names it): the package name and version must
    /// not be empty, and some listed platform must, in lower case, be the
    /// system's family or "all".
    pub fn validate(&self, os: &str) -> (r: Result<(), UpmError>)
        ensures
            self.package@.len() == 0 ==> (r matches Err(UpmError::ManifestParseError(m))
                && m@ == "Package name is empty"@),
            self.package@.len() != 0 && self.version@.len() == 0 ==> (r matches Err(
                UpmError::ManifestParseError(m),
            ) && m@ == "Package version is empty"@),
            self.package@.len() != 0 && self.version@.len() != 0 && !lists_platform(
                self.platforms@,
                validation_family(os@),
            ) ==> (r matches Err(UpmError::UnsupportedPlatform(m)) && m@ == unsupported_text(
                self.package@,
                os@,
                self.platforms@,
            )),
            r is Ok <==> (self.package@.len() != 0 && self.version@.len() != 0 && lists_platform(
                self.platforms@,
                validation_family(os@),
            )),
    {
        if self.package.as_str().is_empty() {
            return Err(UpmError::ManifestParseError(String::from_str("Package name is empty")));
        }
        if self.version.as_str().is_empty() {
            return Err(UpmError::ManifestParseError(String::from_str("Package version is empty")));
        }
        let family = family_for_validation(os);
        if !any_platform_matches(&self.platforms, &family) {
            let mut m = String::from_str("Package '");
            m.append(self.package.as_str());
            m.append("' does not support platform '");
            m.append(os);
            m.append("'. Supported: ");
            let listed = join_strings(&self.platforms, ", ");
            m.append(listed.as_str());
            return Err(UpmError::UnsupportedPlatform(m));
        }
        Ok(())
    }

    /// Whether the manifest lists the operating system named `os`: some
    /// platform, in lower case, is its family or "all".
    pub fn supports_platform(&self, os: &str) -> (r: bool)
        ensures
            r == lists_platform(self.platforms@, support_family(os@)),
    {
        let family = family_for_support(os);
        any_platform_matches(&self.platforms, &family)
    }
}

} // verus!
