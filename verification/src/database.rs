//! The database of installed packages.

use vstd::prelude::*;

use crate::error::UpmError;
use crate::keyed::{
    find_pos, keyed_map, lemma_keyed_map_at, lemma_keyed_map_dom, lemma_keyed_map_empty, lemma_keyed_map_len, lemma_keyed_map_push,
    lemma_keyed_map_remove, lemma_keyed_map_update, unique_keys, Named,
};
use crate::package::manifest::Manifest;
use crate::path::{join, path_join};
use crate::text::{chars_of, lex_compare, lex_lt};

verus! {

/// A package as recorded once it is installed.
#[derive(Debug)]
pub struct InstalledPackage {
    pub name: String,
    pub version: String,
    pub source: String,
    pub install_path: String,
    pub installed_at: String,
    pub files: Vec<String>,
    pub checksum: String,
    pub manifest: Manifest,
    pub dependencies: Vec<String>,
}

impl Named for InstalledPackage {
    open spec fn key(&self) -> Seq<char> {
        self.name@
    }

    fn name_ref(&self) -> (r: &String) {
        &self.name
    }
}

/// The installed packages, each found by its name, and the file they are
/// kept in.
#[derive(Debug)]
pub struct PackageDatabase {
    pub packages: Vec<InstalledPackage>,
    pub db_path: String,
}

/// `s` is in strictly increasing order of package name.
pub open spec fn sorted_by_name(s: Seq<&InstalledPackage>) -> bool {
    forall|i: int| 0 <= i < s.len() - 1 ==> lex_lt(#[trigger] s[i].name@, s[i + 1].name@)
}

/// Some position of `from` holds `b`.
spec fn hits(from: Seq<int>, b: int) -> bool {
    exists|a: int| 0 <= a < from.len() && #[trigger] from[a] == b
}

impl PackageDatabase {
    /// No two records share a name.
    pub open spec fn wf(&self) -> bool {
        unique_keys(self.packages@)
    }

    /// The database as a map from package name to record.
    pub open spec fn view(&self) -> Map<Seq<char>, InstalledPackage> {
        keyed_map(self.packages@)
    }

    /// An empty database kept in `db.json` under `installed_dir`.
    pub fn new(installed_dir: &str) -> (r: Self)
        ensures
            r.wf(),
            r.view() == Map::<Seq<char>, InstalledPackage>::empty(),
            r.db_path@ == path_join(installed_dir@, "db.json"@),
    {
        let r = PackageDatabase { packages: Vec::new(), db_path: join(installed_dir, "db.json") };
        proof {
            lemma_keyed_map_empty(r.packages@);
        }
        r
    }

    /// Records `pkg` as installed; refused when a package of that name is
    /// already recorded.
    pub fn add_package(&mut self, pkg: InstalledPackage) -> (r: Result<(), UpmError>)
        requires
            old(self).wf(),
        ensures
            final(self).wf(),
            final(self).db_path == old(self).db_path,
            old(self).view().contains_key(pkg.name@) ==> (r matches Err(
                UpmError::PackageAlreadyInstalled(n),
            ) && n@ == pkg.name@ && final(self).view() == old(self).view()),
            !old(self).view().contains_key(pkg.name@) ==> (r is Ok && final(self).view() == old(
                self,
            ).view().insert(pkg.name@, pkg)),
    {
        match find_pos(&self.packages, &pkg.name) {
            Some(i) => {
                proof {
                    lemma_keyed_map_at(self.packages@, i as int);
                }
                let ghost p = pkg;
                let e = UpmError::PackageAlreadyInstalled(pkg.name);
                assert(e matches UpmError::PackageAlreadyInstalled(n) && n@ == p.name@);
                Err(e)
            },
            None => {
                proof {
                    lemma_keyed_map_dom(self.packages@, pkg.name@);
                    lemma_keyed_map_push(self.packages@, pkg);
                }
                self.packages.push(pkg);
                Ok(())
            },
        }
    }

    /// Removes the record of `name` and hands it back; refused when no such
    /// package is recorded.
    pub fn remove_package(&mut self, name: &str) -> (r: Result<InstalledPackage, UpmError>)
        requires
            old(self).wf(),
        ensures
            final(self).wf(),
            final(self).db_path == old(self).db_path,
            old(self).view().contains_key(name@) ==> (r matches Ok(p) && p == old(self).view()[name@]
                && final(self).view() == old(self).view().remove(name@)),
            !old(self).view().contains_key(name@) ==> (r matches Err(
                UpmError::PackageNotInstalled(n),
            ) && n@ == name@ && final(self).view() == old(self).view()),
    {
        let key = name.to_owned();
        match find_pos(&self.packages, &key) {
            Some(i) => {
                proof {
                    lemma_keyed_map_at(self.packages@, i as int);
                    lemma_keyed_map_remove(self.packages@, i as int);
                }
                let p = self.packages.remove(i);
                Ok(p)
            },
            None => {
                proof {
                    lemma_keyed_map_dom(self.packages@, key@);
                }
                Err(UpmError::PackageNotInstalled(key))
            },
        }
    }

    /// The record of `name`, if the package is installed.
    pub fn get_package(&self, name: &str) -> (r: Option<&InstalledPackage>)
        requires
            self.wf(),
        ensures
            match r {
                Some(p) => self.view().contains_key(name@) && *p == self.view()[name@] && p.name@
                    == name@,
                None => !self.view().contains_key(name@),
            },
    {
        let key = name.to_owned();
        match find_pos(&self.packages, &key) {
            Some(i) => {
                proof {
                    lemma_keyed_map_at(self.packages@, i as int);
                }
                Some(&self.packages[i])
            },
            None => {
                proof {
                    lemma_keyed_map_dom(self.packages@, key@);
                }
                None
            },
        }
    }

    /// Whether a package named `name` is installed.
    pub fn is_installed(&self, name: &str) -> (r: bool)
        requires
            self.wf(),
        ensures
            r == self.view().contains_key(name@),
    {
        let key = name.to_owned();
        match find_pos(&self.packages, &key) {
            Some(i) => {
                proof {
                    lemma_keyed_map_at(self.packages@, i as int);
                }
                true
            },
            None => {
                proof {
                    lemma_keyed_map_dom(self.packages@, key@);
                }
                false
            },
        }
    }

    /// Records `pkg`, replacing any record of that name.
    pub fn update_package(&mut self, pkg: InstalledPackage)
        requires
            old(self).wf(),
        ensures
            final(self).wf(),
            final(self).db_path == old(self).db_path,
            final(self).view() == old(self).view().insert(pkg.name@, pkg),
    {
        match find_pos(&self.packages, &pkg.name) {
            Some(i) => {
                proof {
                    lemma_keyed_map_update(self.packages@, i as int, pkg);
                }
                self.packages.set(i, pkg);
            },
            None => {
                proof {
                    lemma_keyed_map_push(self.packages@, pkg);
                }
                self.packages.push(pkg);
            },
        }
    }

    /// The number of installed packages.
    pub fn count(&self) -> (r: usize)
        requires
            self.wf(),
        ensures
            r == self.view().dom().len(),
    {
        proof {
            lemma_keyed_map_len(self.packages@);
        }
        self.packages.len()
    }

    /// Every installed package once, in increasing order of name.
    pub fn list_packages(&self) -> (r: Vec<&InstalledPackage>)
        requires
            self.wf(),
        ensures
            sorted_by_name(r@),
            r@.len() == self.view().dom().len(),
            forall|i: int|
                0 <= i < r@.len() ==> self.view().contains_key(#[trigger] r@[i].name@)
                    && self.view()[r@[i].name@] == *r@[i],
            forall|k: Seq<char>|
                #[trigger] self.view().contains_key(k) ==> exists|i: int|
                    0 <= i < r@.len() && #[trigger] r@[i].name@ == k,
    {
        let ghost s = self.packages@;
        let ghost mut from: Seq<int> = Seq::empty();
        let mut r: Vec<&InstalledPackage> = Vec::new();
        let mut names: Vec<Vec<char>> = Vec::new();
        let mut i: usize = 0;
        while i < self.packages.len()
            invariant
                s == self.packages@,
                unique_keys(s),
                i <= s.len(),
                r@.len() == from.len(),
                r@.len() == i,
                names@.len() == r@.len(),
                forall|a: int| 0 <= a < r@.len() ==> (#[trigger] names@[a])@ == r@[a].name@,
                forall|a: int|
                    0 <= a < r@.len() ==> 0 <= #[trigger] from[a] < i && *r@[a] == s[from[a]],
                forall|a1: int, a2: int|
                    0 <= a1 < r@.len() && 0 <= a2 < r@.len() && a1 != a2 ==> #[trigger] from[a1]
                        != #[trigger] from[a2],
                forall|b: int| 0 <= b < i ==> #[trigger] hits(from, b),
                sorted_by_name(r@),
            decreases s.len() - i,
        {
            let x = &self.packages[i];
            let xn = chars_of(x.name.as_str());
            let mut j: usize = 0;
            while j < names.len() && lex_compare(&names[j], &xn) < 0
                invariant
                    j <= names@.len(),
                    names@.len() == r@.len(),
                    xn@ == x.name@,
                    forall|a: int| 0 <= a < r@.len() ==> (#[trigger] names@[a])@ == r@[a].name@,
                    forall|a: int| 0 <= a < j ==> lex_lt(#[trigger] r@[a].name@, x.name@),
                decreases names@.len() - j,
            {
                j = j + 1;
            }
            proof {
                if j < r@.len() {
                    assert(from[j as int] != i);
                    assert(s[from[j as int]].key() != s[i as int].key());
                    assert(r@[j as int].name@ != x.name@);
                    assert(lex_lt(x.name@, r@[j as int].name@));
                }
            }
            let ghost old_r = r@;
            let ghost old_from = from;
            r.insert(j, x);
            names.insert(j, xn);
            proof {
                from = from.insert(j as int, i as int);
                assert forall|a: int| 0 <= a < r@.len() - 1 implies lex_lt(
                    #[trigger] r@[a].name@,
                    r@[a + 1].name@,
                ) by {
                    if a + 1 < j {
                        assert(r@[a] == old_r[a] && r@[a + 1] == old_r[a + 1]);
                    } else if a + 1 == j {
                        assert(r@[a] == old_r[a]);
                    } else if a == j {
                        assert(r@[a + 1] == old_r[a]);
                    } else {
                        assert(r@[a] == old_r[a - 1] && r@[a + 1] == old_r[a]);
                    }
                }
                assert forall|b: int| 0 <= b < i + 1 implies #[trigger] hits(from, b) by {
                    if b == i {
                        assert(from[j as int] == b);
                    } else {
                        assert(hits(old_from, b));
                        let a0 = choose|a: int| 0 <= a < old_from.len() && #[trigger] old_from[a] == b;
                        if a0 < j {
                            assert(from[a0] == b);
                        } else {
                            assert(from[a0 + 1] == b);
                        }
                    }
                }
            }
            i = i + 1;
        }
        proof {
            lemma_keyed_map_len(s);
            assert forall|a: int| 0 <= a < r@.len() implies self.view().contains_key(
                #[trigger] r@[a].name@,
            ) && self.view()[r@[a].name@] == *r@[a] by {
                lemma_keyed_map_at(s, from[a]);
            }
            assert forall|k: Seq<char>| #[trigger] self.view().contains_key(k) implies exists|
                i: int,
            | 0 <= i < r@.len() && #[trigger] r@[i].name@ == k by {
                lemma_keyed_map_dom(s, k);
                let b = choose|b: int| 0 <= b < s.len() && #[trigger] s[b].key() == k;
                assert(hits(from, b));
                let a = choose|a: int| 0 <= a < from.len() && #[trigger] from[a] == b;
                assert(r@[a].name@ == k);
            }
        }
        r
    }
}

} // verus!
