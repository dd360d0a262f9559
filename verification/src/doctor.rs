//! System diagnostics: the verdict and message of each check, from what
//! was observed.

use vstd::prelude::*;

verus! {

/// Runs the diagnostics.
pub struct Doctor;

/// How many of `checks` passed.
pub open spec fn passed_count(checks: Seq<(String, bool)>) -> nat
    decreases checks.len(),
{
    if checks.len() == 0 {
        0
    } else {
        passed_count(checks.drop_last()) + if checks.last().1 { 1nat } else { 0nat }
    }
}

impl Doctor {
    /// The GitHub check, given whether a token is set; it always passes.
    pub fn check_github_api(token_set: bool) -> (r: (String, bool))
        ensures
            r.1,
            token_set ==> r.0@ == "GitHub API: configured"@,
            !token_set ==> r.0@ == "GitHub API: no token set (rate limits apply)"@,
    {
        if token_set {
            (String::from_str("GitHub API: configured"), true)
        } else {
            (String::from_str("GitHub API: no token set (rate limits apply)"), true)
        }
    }

    /// The git check, given whether git was found.
    pub fn check_git_installed(found: bool) -> (r: (String, bool))
        ensures
            r.1 == found,
            found ==> r.0@ == "Git: installed"@,
            !found ==> r.0@ == "Git: NOT found"@,
    {
        if found {
            (String::from_str("Git: installed"), true)
        } else {
            (String::from_str("Git: NOT found"), false)
        }
    }

    /// The directories check, given whether each directory exists or could
    /// be made.
    pub fn check_upm_directories(all_ok: bool) -> (r: (String, bool))
        ensures
            r.1 == all_ok,
            all_ok ==> r.0@ == "UPM directories: OK"@,
            !all_ok ==> r.0@ == "UPM directories: FAIL"@,
    {
        if all_ok {
            (String::from_str("UPM directories: OK"), true)
        } else {
            (String::from_str("UPM directories: FAIL"), false)
        }
    }

    /// The permissions check, given whether no directory is read-only.
    pub fn check_permissions(all_ok: bool) -> (r: (String, bool))
        ensures
            r.1 == all_ok,
            all_ok ==> r.0@ == "Permissions: OK"@,
            !all_ok ==> r.0@ == "Permissions: FAIL"@,
    {
        if all_ok {
            (String::from_str("Permissions: OK"), true)
        } else {
            (String::from_str("Permissions: FAIL"), false)
        }
    }

    /// The file system check, given whether a test file could be written,
    /// read back and removed.
    pub fn check_filesystem(write_ok: bool, read_ok: bool, clean_ok: bool) -> (r: (String, bool))
        ensures
            r.1 == (write_ok && read_ok && clean_ok),
            r.1 ==> r.0@ == "Filesystem: read/write OK"@,
            !r.1 ==> r.0@ == "Filesystem: FAIL"@,
    {
        if write_ok && read_ok && clean_ok {
            (String::from_str("Filesystem: read/write OK"), true)
        } else {
            (String::from_str("Filesystem: FAIL"), false)
        }
    }

    /// The network check, left to when the network is used; it passes.
    pub fn check_network() -> (r: (String, bool))
        ensures
            r.1,
            r.0@ == "Network: deferred to runtime"@,
    {
        (String::from_str("Network: deferred to runtime"), true)
    }

    /// The PATH check, given whether the `bin` directory is on the PATH.
    pub fn check_path(in_path: bool) -> (r: (String, bool))
        ensures
            r.1 == in_path,
            in_path ==> r.0@ == "PATH: UPM bin directory found"@,
            !in_path ==> r.0@ == "PATH: UPM bin directory NOT found (run `upm init`)"@,
    {
        if in_path {
            (String::from_str("PATH: UPM bin directory found"), true)
        } else {
            (String::from_str("PATH: UPM bin directory NOT found (run `upm init`)"), false)
        }
    }

    /// How many checks passed.
    pub fn passed(checks: &Vec<(String, bool)>) -> (r: usize)
        ensures
            r == passed_count(checks@),
    {
        let mut n: usize = 0;
        let mut i: usize = 0;
        while i < checks.len()
            invariant
                i <= checks@.len(),
                n == passed_count(checks@.take(i as int)),
                n <= i,
            decreases checks@.len() - i,
        {
            assert(checks@.take(i + 1).drop_last() =~= checks@.take(i as int));
            if checks[i].1 {
                n = n + 1;
            }
            i = i + 1;
        }
        assert(checks@.take(checks@.len() as int) =~= checks@);
        n
    }
}

} // verus!
