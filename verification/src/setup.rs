//! First-run setup: putting the package manager's `bin` directory on the
//! shell's PATH.

use vstd::prelude::*;

use crate::config::Config;
use crate::path::{join, path_join};
use crate::text::{ends_with, is_split, split_on, str_ends_with, views};

verus! {

/// Setup of the user's shell.
pub struct Setup;

/// The shell configuration files to look for, most preferred first, for
/// the shell `shell` and home directory `home`.
pub open spec fn rc_candidates(shell: Seq<char>, home: Seq<char>) -> Seq<Seq<char>> {
    if ends_with(shell, "fish"@) {
        seq![path_join(home, ".config/fish/config.fish"@), path_join(home, ".fishrc"@)]
    } else if ends_with(shell, "zsh"@) {
        seq![path_join(home, ".zshrc"@), path_join(home, ".zshenv"@), path_join(home, ".zprofile"@)]
    } else {
        seq![path_join(home, ".bashrc"@), path_join(home, ".bash_profile"@), path_join(home, ".profile"@)]
    }
}

/// The line that adds `bin_dir` to the PATH of the shell `shell`.
pub open spec fn export_text(shell: Seq<char>, bin_dir: Seq<char>) -> Seq<char> {
    if ends_with(shell, "fish"@) {
        "fish_add_path "@ + bin_dir
    } else {
        "export PATH=\"$PATH:"@ + bin_dir + "\""@
    }
}

impl Setup {
    /// The directory the installed programs are linked into: `bin` in the
    /// installed-packages directory.
    pub fn bin_dir(config: &Config) -> (r: String)
        ensures
            r@ == path_join(config.installed_dir@, "bin"@),
    {
        join(config.installed_dir.as_str(), "bin")
    }

    /// The directories listed in a PATH value, in order (split at ':').
    pub fn split_paths(path_var: &str) -> (r: Vec<String>)
        ensures
            is_split(path_var@, ':', views(r@)),
    {
        split_on(path_var, ':')
    }

    /// The shell configuration files to look for, most preferred first.
    pub fn rc_candidates(shell: &str, home: &str) -> (r: Vec<String>)
        ensures
            views(r@) == rc_candidates(shell@, home@),
    {
        let mut r: Vec<String> = Vec::new();
        if str_ends_with(shell, "fish") {
            r.push(join(home, ".config/fish/config.fish"));
            r.push(join(home, ".fishrc"));
        } else if str_ends_with(shell, "zsh") {
            r.push(join(home, ".zshrc"));
            r.push(join(home, ".zshenv"));
            r.push(join(home, ".zprofile"));
        } else {
            r.push(join(home, ".bashrc"));
            r.push(join(home, ".bash_profile"));
            r.push(join(home, ".profile"));
        }
        assert(views(r@) =~= rc_candidates(shell@, home@));
        r
    }

    /// The first candidate that exists (`exists[i]` tells whether
    /// `candidates[i]` does), or the first candidate when none does.
    pub fn choose_rc_file(candidates: &Vec<String>, exists: &Vec<bool>) -> (r: String)
        requires
            candidates@.len() > 0,
            exists@.len() == candidates@.len(),
        ensures
            (exists|i: int| 0 <= i < exists@.len() && exists@[i]) ==> exists|i: int|
                0 <= i < exists@.len() && exists@[i] && r == candidates@[i] && forall|j: int|
                    0 <= j < i ==> !#[trigger] exists@[j],
            (forall|i: int| 0 <= i < exists@.len() ==> !#[trigger] exists@[i]) ==> r
                == candidates@[0],
    {
        let mut i: usize = 0;
        while i < candidates.len()
            invariant
                i <= candidates@.len(),
                exists@.len() == candidates@.len(),
                forall|j: int| 0 <= j < i ==> !#[trigger] exists@[j],
            decreases candidates@.len() - i,
        {
            if exists[i] {
                return candidates[i].clone();
            }
            i = i + 1;
        }
        candidates[0].clone()
    }

    /// The line that adds `bin_dir` to the PATH of the shell `shell`.
    pub fn export_line(shell: &str, bin_dir: &str) -> (r: String)
        ensures
            r@ == export_text(shell@, bin_dir@),
    {
        if str_ends_with(shell, "fish") {
            let mut r = String::from_str("fish_add_path ");
            r.append(bin_dir);
            r
        } else {
            let mut r = String::from_str("export PATH=\"$PATH:");
            r.append(bin_dir);
            r.append("\"");
            r
        }
    }

    /// Whether the `bin` directory is on the PATH, given for each PATH entry
    /// whether it names that directory (`matches[i]` for entry `i`).
    pub fn check_path_bool(matches: &Vec<bool>) -> (r: bool)
        ensures
            r == exists|i: int| 0 <= i < matches@.len() && matches@[i],
    {
        let mut i: usize = 0;
        while i < matches.len()
            invariant
                i <= matches@.len(),
                forall|j: int| 0 <= j < i ==> !#[trigger] matches@[j],
            decreases matches@.len() - i,
        {
            if matches[i] {
                return true;
            }
            i = i + 1;
        }
        false
    }
}

} // verus!
