//! The decisions of an installation: where a manifest and a source are
//! fetched from, where they go, and the record kept once installed.

use vstd::prelude::*;

use crate::database::{InstalledPackage, PackageDatabase};
use crate::error::{concat_str, UpmError};
use crate::package::graph::reachable;
use crate::package::index::{IndexPackage, PackageIndex};
use crate::package::resolver::{
    entries_view, is_resolution, missing_text, resolution_order, DependencyResolver, ResolvedDependency,
};
use crate::rollback::{is_snapshot, RollbackManager};
use crate::verify::{hex_lower, sha256_digest, verify_checksum};
use crate::package::manifest::{Manifest, SourceType};
use crate::path::{join, path_join};
use crate::text::{clone_strings, is_split, split_on, trim_end, trim_end_char, views};
use crate::api::github::tarball_url;

verus! {

/// Installs packages.
pub struct Installer;

/// How a package's source is fetched.
#[derive(Debug)]
pub enum SourcePlan {
    /// Download the GitHub tarball at `url` to `dest`, then unpack it.
    GithubTarball { url: String, dest: String },
    /// Download the file at `url` to `dest`.
    Direct { url: String, dest: String },
}

/// The URL of the manifest of index entry `p`: its repository without
/// trailing '/', then `/raw/`, its version and `/manifest.upm`.
pub open spec fn manifest_url_text(p: IndexPackage) -> Seq<char> {
    trim_end(p.repository@, '/') + "/raw/"@ + p.version@ + "/manifest.upm"@
}

/// The commands of the manifest used when a package publishes none.
pub open spec fn fallback_install_steps(steps: Seq<String>) -> bool {
    &&& steps.len() == 2
    &&& steps[0]@ == "install -d {{prefix}}/bin"@
    &&& steps[1]@ == "cp files/* {{prefix}}/bin/"@
}

/// The repository and owner named by the last two pieces of a URL's path.
pub open spec fn owner_of(pieces: Seq<Seq<char>>) -> Seq<char> {
    if pieces.len() >= 2 {
        pieces[pieces.len() - 2]
    } else {
        "unknown"@
    }
}

/// The name of a downloaded source archive.
pub open spec fn archive_name(name: Seq<char>, version: Seq<char>) -> Seq<char> {
    name + "-"@ + version
}

impl Installer {
    /// Where the manifest of index entry `p` is published.
    pub fn manifest_url(p: &IndexPackage) -> (r: String)
        ensures
            r@ == manifest_url_text(*p),
    {
        let mut r = trim_end_char(p.repository.as_str(), '/');
        r.append("/raw/");
        r.append(p.version.as_str());
        r.append("/manifest.upm");
        r
    }

    /// The manifest used for `name` when its repository publishes none:
    /// the index entry's manifest, named `name`, that copies `files/*`
    /// into `{{prefix}}/bin`.
    pub fn fallback_manifest(name: &str, p: &IndexPackage) -> (m: Manifest)
        ensures
            m.package@ == name@,
            m.version == p.version,
            m.description == Some(p.description),
            m.license == p.license,
            m.platforms@ == p.platforms@,
            m.source.url == p.repository,
            m.source.source_type == SourceType::Github,
            m.source.branch is None,
            m.source.tag == Some(p.version),
            m.dependencies@.len() == p.dependencies@.len(),
            forall|i: int|
                0 <= i < m.dependencies@.len() ==> (#[trigger] m.dependencies@[i]).name
                    == p.dependencies@[i] && m.dependencies@[i].version is None
                    && m.dependencies@[i].optional is None,
            m.build is None,
            m.install matches Some(steps) && fallback_install_steps(steps@),
            m.environment is None,
            m.wf(),
            m.sha256 is None,
    {
        let base = Manifest::from_index(p);
        let mut steps: Vec<String> = Vec::new();
        steps.push(String::from_str("install -d {{prefix}}/bin"));
        steps.push(String::from_str("cp files/* {{prefix}}/bin/"));
        Manifest {
            package: String::from_str(name),
            version: base.version,
            description: base.description,
            license: base.license,
            platforms: base.platforms,
            source: base.source,
            dependencies: base.dependencies,
            build: None,
            install: Some(steps),
            environment: None,
            sha256: None,
        }
    }

    /// How to fetch the source of `name` described by `manifest` into the
    /// cache directory `cache_dir`: a GitHub repository by the tarball of
    /// its tag (or "latest"), a direct URL as it is; git sources are
    /// refused.
    pub fn plan_download(name: &str, manifest: &Manifest, cache_dir: &str) -> (r: Result<SourcePlan, UpmError>)
        ensures
            manifest.source.source_type == SourceType::Git ==> (r matches Err(UpmError::General(m))
                && m@ == "Git source type not yet implemented"@),
            manifest.source.source_type == SourceType::Github ==> (r matches Ok(SourcePlan::GithubTarball { url, dest })
                && exists|pieces: Seq<Seq<char>>| #![trigger is_split(trim_end(manifest.source.url@, '/'), '/', pieces)]
                    is_split(trim_end(manifest.source.url@, '/'), '/', pieces)
                    && url@ == "https://api.github.com/repos/"@ + owner_of(pieces) + "/"@ + pieces.last()
                        + "/tarball/"@ + (match manifest.source.tag {
                            Some(t) => t@,
                            None => "latest"@,
                        })
                && dest@ == path_join(cache_dir@, archive_name(name@, manifest.version@) + ".tgz"@)),
            manifest.source.source_type == SourceType::Direct ==> (r matches Ok(SourcePlan::Direct { url, dest })
                && url == manifest.source.url
                && dest@ == path_join(cache_dir@, archive_name(name@, manifest.version@))),
    {
        match manifest.source.source_type {
            SourceType::Github => {
                let trimmed = trim_end_char(manifest.source.url.as_str(), '/');
                let pieces = split_on(trimmed.as_str(), '/');
                let repo = &pieces[pieces.len() - 1];
                let unknown = String::from_str("unknown");
                let owner = if pieces.len() >= 2 { &pieces[pieces.len() - 2] } else { &unknown };
                let latest = String::from_str("latest");
                let tag = match &manifest.source.tag {
                    Some(t) => t,
                    None => &latest,
                };
                let url = tarball_url(owner.as_str(), repo.as_str(), tag.as_str());
                let mut file = String::from_str(name);
                file.append("-");
                file.append(manifest.version.as_str());
                file.append(".tgz");
                let dest = join(cache_dir, file.as_str());
                proof {
                    assert(views(pieces@).last() == repo@);
                    assert(owner@ == owner_of(views(pieces@)));
                    assert(is_split(trim_end(manifest.source.url@, '/'), '/', views(pieces@)));
                }
                Ok(SourcePlan::GithubTarball { url, dest })
            },
            SourceType::Git => Err(UpmError::General(String::from_str("Git source type not yet implemented"))),
            SourceType::Direct => {
                let mut file = String::from_str(name);
                file.append("-");
                file.append(manifest.version.as_str());
                let dest = join(cache_dir, file.as_str());
                proof {
                    assert(file@ =~= archive_name(name@, manifest.version@));
                }
                Ok(SourcePlan::Direct { url: manifest.source.url.clone(), dest })
            },
        }
    }

    /// The record kept once `name` is installed from `manifest` (listed in
    /// the index as `p`) into `install_dir` at time `installed_at`, with the
    /// files copied and the archive's checksum.
    pub fn installed_record(
        name: &str,
        manifest: Manifest,
        p: &IndexPackage,
        install_dir: String,
        installed_at: String,
        files: Vec<String>,
        checksum: String,
    ) -> (r: InstalledPackage)
        ensures
            r.name@ == name@,
            r.version == manifest.version,
            r.source == p.repository,
            r.install_path == install_dir,
            r.installed_at == installed_at,
            r.files == files,
            r.checksum == checksum,
            r.manifest == manifest,
            r.dependencies@ == p.dependencies@,
    {
        let version = manifest.version.clone();
        InstalledPackage {
            name: String::from_str(name),
            version,
            source: p.repository.clone(),
            install_path: install_dir,
            installed_at,
            files,
            checksum,
            manifest,
            dependencies: clone_strings(&p.dependencies),
        }
    }
}

/// `actual` matches the checksum `sum`, when one is given.
pub open spec fn sum_holds(sum: Option<String>, actual: Seq<char>) -> bool {
    match sum {
        Some(e) => e@ == actual,
        None => true,
    }
}

/// `r` refuses a download whose checksum `actual` is not `expected`.
pub open spec fn refused_for(r: Result<bool, UpmError>, expected: Seq<char>, actual: Seq<char>) -> bool {
    match r {
        Err(UpmError::VerificationFailed { expected: x, actual: a }) => x@ == expected && a@ == actual,
        _ => false,
    }
}

/// Where an installation stands: the package asked for, the rollback point
/// recorded before it, the dependencies resolved for it, the position in
/// them of the next one to look at, and whether the package itself is
/// under way.
#[derive(Debug)]
pub struct InstallRun {
    pub target: String,
    pub point_id: String,
    pub deps: Vec<ResolvedDependency>,
    pub next: usize,
    pub target_started: bool,
}

/// What an installation does next.
#[derive(Debug)]
pub enum InstallStep {
    /// Install this one package: fetch, check, copy and record it.
    InstallOne(String),
    /// All is installed: record the state after, at the run's rollback point.
    Finish,
}

impl Installer {
    /// Starts installing `name`. Refused when `name` is installed already,
    /// and then nothing is recorded. Otherwise a rollback point
    /// "Install <name>" is recorded with what is installed now, and the
    /// dependencies are resolved; a resolution that fails fails the start
    /// (the point stays recorded).
    pub fn start_install(
        name: &str,
        index: &PackageIndex,
        db: &PackageDatabase,
        rollback: &mut RollbackManager,
    ) -> (r: Result<InstallRun, UpmError>)
        requires
            index.wf(),
            db.wf(),
        ensures
            db.view().contains_key(name@) ==> (r matches Err(UpmError::PackageAlreadyInstalled(n)) && n@
                == name@ && *final(rollback) == *old(rollback)),
            !db.view().contains_key(name@) ==> {
                &&& final(rollback).rollbacks@.len() == old(rollback).rollbacks@.len() + 1
                &&& forall|i: int|
                    0 <= i < old(rollback).rollbacks@.len() ==> #[trigger] final(rollback).rollbacks@[i]
                        == old(rollback).rollbacks@[i]
                &&& final(rollback).rollbacks@.last().description@ == "Install "@ + name@
                &&& is_snapshot(final(rollback).rollbacks@.last().packages_before@, db.view())
                &&& final(rollback).rollbacks@.last().packages_after@.len() == 0
                &&& !index.view().contains_key(name@) ==> (r matches Err(UpmError::PackageNotFound(n))
                    && n@ == name@)
                &&& index.view().contains_key(name@) ==> (r is Ok <==> forall|n: Seq<char>|
                    #[trigger] reachable(index.view(), name@, n) ==> index.view().contains_key(n))
                &&& index.view().contains_key(name@) && r is Err ==> r matches Err(
                    UpmError::DependencyError(_),
                )
            },
            r matches Err(UpmError::DependencyError(msg)) ==> resolution_order(index.view(), db.view(), name@)
                matches Err(n) && msg@ == missing_text(n),
            r matches Ok(run) ==> resolution_order(index.view(), db.view(), name@) matches Ok(o) && o
                == entries_view(run.deps@),
            r matches Ok(run) ==> {
                &&& run.target@ == name@
                &&& run.point_id == final(rollback).rollbacks@.last().id
                &&& run.next == 0
                &&& !run.target_started
                &&& is_resolution(index.view(), db.view(), name@, run.deps@)
            },
    {
        if db.is_installed(name) {
            return Err(UpmError::PackageAlreadyInstalled(name.to_owned()));
        }
        let description = concat_str("Install ", name);
        let point = rollback.create_point(db, description.as_str());
        let deps = DependencyResolver::resolve(name, index, db)?;
        Ok(InstallRun { target: name.to_owned(), point_id: point.id, deps, next: 0, target_started: false })
    }

    /// The next step of `run`: the first dependency from position `next`
    /// on that `db` does not have installed yet; once there is none, the
    /// package itself; after that, finishing.
    pub fn next_step(run: &mut InstallRun, db: &PackageDatabase) -> (s: InstallStep)
        requires
            db.wf(),
        ensures
            final(run).target == old(run).target,
            final(run).point_id == old(run).point_id,
            final(run).deps@ == old(run).deps@,
            !old(run).target_started ==> s is InstallOne,
            match s {
                InstallStep::InstallOne(n) => {
                    ||| exists|k: int| {
                        &&& old(run).next <= k < old(run).deps@.len()
                        &&& !db.view().contains_key((#[trigger] old(run).deps@[k]).name@)
                        &&& n@ == old(run).deps@[k].name@
                        &&& final(run).next == k + 1
                        &&& !final(run).target_started
                        &&& forall|j: int|
                            old(run).next <= j < k ==> db.view().contains_key(
                                (#[trigger] old(run).deps@[j]).name@,
                            )
                    }
                    ||| {
                        &&& !old(run).target_started
                        &&& forall|j: int|
                            old(run).next <= j < old(run).deps@.len() ==> db.view().contains_key(
                                (#[trigger] old(run).deps@[j]).name@,
                            )
                        &&& n@ == old(run).target@
                        &&& final(run).target_started
                    }
                },
                InstallStep::Finish => old(run).target_started && *final(run) == *old(run),
            },
    {
        let len = run.deps.len();
        if run.target_started {
            return InstallStep::Finish;
        }
        let start = run.next;
        let mut k = start;
        while k < len
            invariant
                start == old(run).next,
                start <= k,
                k <= len || k == start,
                len == run.deps@.len(),
                *run == *old(run),
                !old(run).target_started,
                db.wf(),
                forall|j: int| start <= j < k ==> db.view().contains_key((#[trigger] run.deps@[j]).name@),
            decreases len - k,
        {
            if !db.is_installed(run.deps[k].name.as_str()) {
                let n = run.deps[k].name.clone();
                run.next = k + 1;
                assert(n@ == old(run).deps@[k as int].name@);
                return InstallStep::InstallOne(n);
            }
            k = k + 1;
        }
        run.target_started = true;
        InstallStep::InstallOne(run.target.clone())
    }

    /// Checks a downloaded source `data` against the manifest's checksum
    /// `manifest_sum` and the index entry's `index_sum`, each that is given,
    /// the manifest's first. With neither there is nothing to check
    /// (`Ok(false)`); otherwise the SHA-256 of `data` must match every one
    /// given (`Ok(true)`), and the first mismatch stops the installation.
    pub fn check_download(manifest_sum: &Option<String>, index_sum: &Option<String>, data: &[u8]) -> (r: Result<
        bool,
        UpmError,
    >)
        ensures
            r is Ok <==> sum_holds(*manifest_sum, hex_lower(sha256_digest(data@))) && sum_holds(
                *index_sum,
                hex_lower(sha256_digest(data@)),
            ),
            r matches Ok(checked) ==> (checked <==> manifest_sum is Some || index_sum is Some),
            !sum_holds(*manifest_sum, hex_lower(sha256_digest(data@))) ==> refused_for(
                r,
                manifest_sum.unwrap()@,
                hex_lower(sha256_digest(data@)),
            ),
            sum_holds(*manifest_sum, hex_lower(sha256_digest(data@))) && !sum_holds(
                *index_sum,
                hex_lower(sha256_digest(data@)),
            ) ==> refused_for(r, index_sum.unwrap()@, hex_lower(sha256_digest(data@))),
    {
        let mut checked = false;
        if let Some(e) = manifest_sum {
            verify_checksum(data, e.as_str())?;
            checked = true;
        }
        if let Some(h) = index_sum {
            verify_checksum(data, h.as_str())?;
            checked = true;
        }
        Ok(checked)
    }
}

} // verus!
