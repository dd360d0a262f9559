//! Registering new packages in the package index.

use vstd::prelude::*;

use crate::config::Config;
use crate::error::{concat_str, UpmError};
use crate::package::index::{same_package, IndexPackage, PackageIndex};
use crate::path::{join, path_join};
use crate::text::{occurs_in, str_occurs_in, trim, trimmed};

verus! {

/// Registers packages in the official index.
pub struct Registry;

/// A git command run when publishing the index.
#[derive(Debug, Clone, Copy, PartialEq, Eq)]
pub enum GitStep {
    Add,
    Commit,
    Push,
}

/// What publishing the index does after a git command has run.
#[derive(Debug)]
pub enum GitAction {
    /// Run `git commit` next.
    Commit,
    /// Run `git push` next.
    Push,
    /// Stop: publishing failed.
    Fail(UpmError),
    /// Done, warning with this message.
    Warn(String),
    /// Done, reporting this success.
    Succeed(String),
}

/// git reported that there was nothing to commit.
pub open spec fn nothing_to_commit(stderr: Seq<char>) -> bool {
    occurs_in(stderr, "nothing to commit"@) || occurs_in(stderr, "nothing added"@)
}

/// The message for a package that the index already lists.
pub open spec fn already_registered_text(name: Seq<char>) -> Seq<char> {
    "Package '"@ + name + "' is already registered in the index"@
}

/// The message for a package missing from the local index after it was added.
pub open spec fn lost_text(name: Seq<char>) -> Seq<char> {
    "Package '"@ + name + "' not found after adding"@
}

/// `p` is the entry that registering `name` from `repo_url` at `version`
/// with `description` and `license` adds: the repository as both source and
/// repository, no dependencies or checksum, and all four platform families.
pub open spec fn is_registered_entry(
    p: IndexPackage,
    name: Seq<char>,
    repo_url: Seq<char>,
    version: Seq<char>,
    description: Seq<char>,
    license: Seq<char>,
) -> bool {
    &&& p.name@ == name
    &&& p.version@ == version
    &&& p.description@ == description
    &&& p.source@ == repo_url
    &&& p.repository@ == repo_url
    &&& p.license matches Some(l) && l@ == license
    &&& p.dependencies@.len() == 0
    &&& p.sha256 is None
    &&& p.platforms@.len() == 4
    &&& p.platforms@[0]@ == "linux"@
    &&& p.platforms@[1]@ == "macos"@
    &&& p.platforms@[2]@ == "windows"@
    &&& p.platforms@[3]@ == "bsd"@
}

impl Registry {
    /// The local copy of the official index: `official.json` in the
    /// configuration directory.
    pub fn local_index_path(config: &Config) -> (r: String)
        ensures
            r@ == path_join(config.config_dir@, "official.json"@),
    {
        join(config.config_dir.as_str(), "official.json")
    }

    /// The index file of a checkout of the package repository at `root`:
    /// `index/official.json`.
    pub fn repo_index_path(root: &str) -> (r: String)
        ensures
            r@ == path_join(path_join(root@, "index"@), "official.json"@),
    {
        let a = join(root, "index");
        join(a.as_str(), "official.json")
    }

    /// Where a git checkout at `path` keeps its data: `.git`.
    pub fn git_dir(path: &str) -> (r: String)
        ensures
            r@ == path_join(path@, ".git"@),
    {
        join(path, ".git")
    }

    /// The next action of publishing the index, once the git command
    /// `step` has run and succeeded (`ok`) or not, with `stderr` what it
    /// wrote to its error stream: after `add`, commit, or stop when it
    /// failed; after `commit`, push, or finish with a warning when it
    /// failed (nothing to commit, or what git said); after `push`, finish
    /// with success, or with a warning to push by hand.
    pub fn git_next(step: GitStep, ok: bool, stderr: &str) -> (a: GitAction)
        ensures
            step == GitStep::Add && ok ==> a is Commit,
            step == GitStep::Add && !ok ==> (a matches GitAction::Fail(UpmError::General(m)) && m@
                == "git add failed"@),
            step == GitStep::Commit && ok ==> a is Push,
            step == GitStep::Commit && !ok && nothing_to_commit(stderr@) ==> (a matches GitAction::Warn(m)
                && m@ == "Nothing to commit (already up to date)"@),
            step == GitStep::Commit && !ok && !nothing_to_commit(stderr@) ==> (a matches GitAction::Warn(m)
                && m@ == "git commit warning: "@ + trimmed(stderr@)),
            step == GitStep::Push && ok ==> (a matches GitAction::Succeed(m) && m@
                == "Committed and pushed to GitHub"@),
            step == GitStep::Push && !ok ==> (a matches GitAction::Warn(m) && m@
                == "Commit succeeded but push failed. Push manually."@),
    {
        match step {
            GitStep::Add => {
                if ok {
                    GitAction::Commit
                } else {
                    GitAction::Fail(UpmError::General(String::from_str("git add failed")))
                }
            },
            GitStep::Commit => {
                if ok {
                    GitAction::Push
                } else if str_occurs_in(stderr, "nothing to commit") || str_occurs_in(stderr, "nothing added") {
                    GitAction::Warn(String::from_str("Nothing to commit (already up to date)"))
                } else {
                    let said = trim(stderr);
                    GitAction::Warn(concat_str("git commit warning: ", said.as_str()))
                }
            },
            GitStep::Push => {
                if ok {
                    GitAction::Succeed(String::from_str("Committed and pushed to GitHub"))
                } else {
                    GitAction::Warn(String::from_str("Commit succeeded but push failed. Push manually."))
                }
            },
        }
    }

    /// The commit message for registering `name`.
    pub fn commit_message(name: &str) -> (r: String)
        ensures
            r@ == "Add package "@ + name@,
    {
        let mut r = String::from_str("Add package ");
        r.append(name);
        r
    }

    /// Adds a new package to `index`; refused when the index already lists
    /// a package of that name.
    pub fn register(
        index: &mut PackageIndex,
        name: &str,
        repo_url: &str,
        version: &str,
        description: &str,
        license: &str,
    ) -> (r: Result<(), UpmError>)
        requires
            old(index).wf(),
        ensures
            final(index).wf(),
            final(index).name == old(index).name,
            final(index).description == old(index).description,
            old(index).view().contains_key(name@) ==> (r matches Err(UpmError::General(m)) && m@
                == already_registered_text(name@) && final(index).view() == old(index).view()),
            !old(index).view().contains_key(name@) ==> (r is Ok && final(index).view().dom()
                == old(index).view().dom().insert(name@) && forall|k: Seq<char>|
                #![trigger final(index).view()[k]]
                k != name@ && old(index).view().contains_key(k) ==> final(index).view()[k] == old(
                index,
            ).view()[k]) && is_registered_entry(
                final(index).view()[name@],
                name@,
                repo_url@,
                version@,
                description@,
                license@,
            ),
    {
        if index.find_package(name).is_some() {
            let mut m = String::from_str("Package '");
            m.append(name);
            m.append("' is already registered in the index");
            return Err(UpmError::General(m));
        }
        let mut platforms: Vec<String> = Vec::new();
        platforms.push(String::from_str("linux"));
        platforms.push(String::from_str("macos"));
        platforms.push(String::from_str("windows"));
        platforms.push(String::from_str("bsd"));
        let pkg = IndexPackage {
            name: String::from_str(name),
            version: String::from_str(version),
            description: String::from_str(description),
            source: String::from_str(repo_url),
            repository: String::from_str(repo_url),
            license: Some(String::from_str(license)),
            dependencies: Vec::new(),
            sha256: None,
            platforms,
        };
        index.add_package(pkg);
        proof {
            assert(final(index).view().dom() =~= old(index).view().dom().insert(name@));
        }
        Ok(())
    }

    /// Copies the entry `name` of `from` into `to` (listing it there under
    /// its name); refused when `from` does not list `name`.
    pub fn copy_entry(from: &PackageIndex, to: &mut PackageIndex, name: &str) -> (r: Result<(), UpmError>)
        requires
            from.wf(),
            old(to).wf(),
        ensures
            final(to).wf(),
            final(to).name == old(to).name,
            final(to).description == old(to).description,
            !from.view().contains_key(name@) ==> (r matches Err(UpmError::General(m)) && m@ == lost_text(name@)
                && final(to).view() == old(to).view()),
            from.view().contains_key(name@) ==> (r is Ok && final(to).view().dom() == old(to).view().dom().insert(name@)
                && same_package(final(to).view()[name@], from.view()[name@])
                && forall|k: Seq<char>| #![trigger final(to).view()[k]]
                    k != name@ && old(to).view().contains_key(k) ==> final(to).view()[k] == old(to).view()[k]),
    {
        match from.find_package(name) {
            Some(p) => {
                let copy = p.clone();
                to.add_package(copy);
                proof {
                    assert(final(to).view().dom() =~= old(to).view().dom().insert(name@));
                }
                Ok(())
            },
            None => {
                let mut m = String::from_str("Package '");
                m.append(name);
                m.append("' not found after adding");
                Err(UpmError::General(m))
            },
        }
    }
}

} // verus!
