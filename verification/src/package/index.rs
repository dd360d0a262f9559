//! The package index: the packages that can be installed, found by name.

use vstd::prelude::*;

use crate::keyed::{
    find_pos, keyed_map, lemma_keyed_map_at, lemma_keyed_map_dom, lemma_keyed_map_empty, lemma_keyed_map_len, lemma_keyed_map_push,
    lemma_keyed_map_update, unique_keys, Named,
};
use crate::text::{clone_opt_string, clone_strings, lowercase, occurs_in, str_occurs_in, to_lowercase};

verus! {

/// A package as the index lists it.
#[derive(Debug)]
pub struct IndexPackage {
    pub name: String,
    pub version: String,
    pub description: String,
    pub source: String,
    pub repository: String,
    pub license: Option<String>,
    pub dependencies: Vec<String>,
    pub sha256: Option<String>,
    pub platforms: Vec<String>,
}

/// `a` and `b` hold the same values in every field.
pub open spec fn same_package(a: IndexPackage, b: IndexPackage) -> bool {
    &&& a.name == b.name
    &&& a.version == b.version
    &&& a.description == b.description
    &&& a.source == b.source
    &&& a.repository == b.repository
    &&& a.license == b.license
    &&& a.dependencies@ == b.dependencies@
    &&& a.sha256 == b.sha256
    &&& a.platforms@ == b.platforms@
}

impl Clone for IndexPackage {
    fn clone(&self) -> (r: Self)
        ensures
            same_package(r, *self),
    {
        IndexPackage {
            name: self.name.clone(),
            version: self.version.clone(),
            description: self.description.clone(),
            source: self.source.clone(),
            repository: self.repository.clone(),
            license: clone_opt_string(&self.license),
            dependencies: clone_strings(&self.dependencies),
            sha256: clone_opt_string(&self.sha256),
            platforms: clone_strings(&self.platforms),
        }
    }
}

impl Named for IndexPackage {
    open spec fn key(&self) -> Seq<char> {
        self.name@
    }

    fn name_ref(&self) -> (r: &String) {
        &self.name
    }
}

/// The search predicate: the query, in lower case, occurs in the package's
/// name or description, in lower case.
pub open spec fn matches_query(p: IndexPackage, query: Seq<char>) -> bool {
    occurs_in(lowercase(p.name@), lowercase(query)) || occurs_in(
        lowercase(p.description@),
        lowercase(query),
    )
}

/// A named collection of packages, each found by its name.
#[derive(Debug)]
pub struct PackageIndex {
    pub name: String,
    pub description: String,
    pub packages: Vec<IndexPackage>,
}

impl PackageIndex {
    /// The index is well formed: no two packages share a name.
    pub open spec fn wf(&self) -> bool {
        unique_keys(self.packages@)
    }

    /// The packages, in the order they are kept.
    pub open spec fn entries(&self) -> Seq<IndexPackage> {
        self.packages@
    }

    /// The index as a map from package name to package.
    pub open spec fn view(&self) -> Map<Seq<char>, IndexPackage> {
        keyed_map(self.packages@)
    }

    /// An empty index with the given name and description.
    pub fn new(name: &str, description: &str) -> (r: Self)
        ensures
            r.wf(),
            r.name@ == name@,
            r.description@ == description@,
            r.view() == Map::<Seq<char>, IndexPackage>::empty(),
            r.entries().len() == 0,
    {
        let r = PackageIndex {
            name: String::from_str(name),
            description: String::from_str(description),
            packages: Vec::new(),
        };
        proof {
            lemma_keyed_map_empty(r.packages@);
        }
        r
    }

    /// The package named `name`, if the index lists one.
    pub fn find_package(&self, name: &str) -> (r: Option<&IndexPackage>)
        requires
            self.wf(),
        ensures
            match r {
                Some(p) => self.view().contains_key(name@) && *p == self.view()[name@] && p.name@
                    == name@,
                None => !self.view().contains_key(name@),
            },
    {
        let key = name.to_owned();
        match find_pos(&self.packages, &key) {
            Some(i) => {
                proof {
                    lemma_keyed_map_at(self.packages@, i as int);
                }
                Some(&self.packages[i])
            },
            None => {
                proof {
                    lemma_keyed_map_dom(self.packages@, key@);
                }
                None
            },
        }
    }

    /// Lists `pkg` under its name, replacing any package of that name.
    pub fn add_package(&mut self, pkg: IndexPackage)
        requires
            old(self).wf(),
        ensures
            final(self).wf(),
            final(self).view() == old(self).view().insert(pkg.name@, pkg),
            final(self).name == old(self).name,
            final(self).description == old(self).description,
    {
        match find_pos(&self.packages, &pkg.name) {
            Some(i) => {
                proof {
                    lemma_keyed_map_update(self.packages@, i as int, pkg);
                }
                self.packages.set(i, pkg);
            },
            None => {
                proof {
                    lemma_keyed_map_push(self.packages@, pkg);
                }
                self.packages.push(pkg);
            },
        }
    }

    /// The number of packages listed.
    pub fn package_count(&self) -> (r: usize)
        requires
            self.wf(),
        ensures
            r == self.view().dom().len(),
            r == self.entries().len(),
    {
        proof {
            lemma_keyed_map_len(self.packages@);
        }
        self.packages.len()
    }

    /// The listed packages, in the order they are kept; each name once.
    pub fn packages(&self) -> (r: &Vec<IndexPackage>)
        requires
            self.wf(),
        ensures
            r@ == self.entries(),
            unique_keys(r@),
            forall|i: int| 0 <= i < r@.len() ==> #[trigger] keyed_map(r@)[r@[i].name@] == r@[i],
            keyed_map(r@) == self.view(),
    {
        proof {
            assert forall|i: int| 0 <= i < self.packages@.len() implies #[trigger] keyed_map(
                self.packages@,
            )[self.packages@[i].name@] == self.packages@[i] by {
                lemma_keyed_map_at(self.packages@, i);
            }
        }
        &self.packages
    }

    /// The packages whose name or description contains `query`, ignoring
    /// case; each matching package once.
    pub fn search(&self, query: &str) -> (r: Vec<&IndexPackage>)
        requires
            self.wf(),
        ensures
            forall|i: int|
                0 <= i < r@.len() ==> self.view().contains_key(#[trigger] r@[i].name@)
                    && self.view()[r@[i].name@] == *r@[i] && matches_query(*r@[i], query@),
            forall|k: Seq<char>|
                #[trigger] self.view().contains_key(k) && matches_query(self.view()[k], query@)
                    ==> exists|i: int| 0 <= i < r@.len() && #[trigger] r@[i].name@ == k,
            forall|i: int, j: int|
                0 <= i < r@.len() && 0 <= j < r@.len() && i != j ==> r@[i].name@ != r@[j].name@,
            query@.len() == 0 ==> forall|k: Seq<char>|
                #[trigger] self.view().contains_key(k) ==> exists|i: int|
                    0 <= i < r@.len() && #[trigger] r@[i].name@ == k,
    {
        let q = to_lowercase(query);
        let mut r: Vec<&IndexPackage> = Vec::new();
        let ghost s = self.packages@;
        let ghost mut from: Seq<int> = Seq::empty();
        let mut i: usize = 0;
        while i < self.packages.len()
            invariant
                s == self.packages@,
                unique_keys(s),
                q@ == lowercase(query@),
                i <= s.len(),
                from.len() == r@.len(),
                forall|a: int|
                    0 <= a < r@.len() ==> 0 <= #[trigger] from[a] < i && *r@[a] == s[from[a]]
                        && matches_query(s[from[a]], query@),
                forall|a1: int, a2: int|
                    0 <= a1 < a2 < r@.len() ==> #[trigger] from[a1] < #[trigger] from[a2],
                forall|b: int|
                    0 <= b < i && matches_query(#[trigger] s[b], query@) ==> exists|a: int|
                        0 <= a < r@.len() && from[a] == b,
            decreases s.len() - i,
        {
            let ghost from_before = from;
            let ghost len_before = r@.len();
            let p = &self.packages[i];
            let n = to_lowercase(p.name.as_str());
            let d = to_lowercase(p.description.as_str());
            if str_occurs_in(n.as_str(), q.as_str()) || str_occurs_in(d.as_str(), q.as_str()) {
                r.push(p);
                proof {
                    from = from.push(i as int);
                }
            }
            proof {
                assert forall|b: int|
                    0 <= b < i + 1 && matches_query(#[trigger] s[b], query@) implies exists|a: int|
                        0 <= a < r@.len() && from[a] == b by {
                    if b == i {
                        assert(from[from.len() - 1] == b);
                    } else {
                        let a0 = choose|a: int| 0 <= a < len_before && from_before[a] == b;
                        assert(from[a0] == b);
                    }
                }
            }
            i = i + 1;
        }
        proof {
            assert forall|k: Seq<char>|
                #[trigger] self.view().contains_key(k) && matches_query(self.view()[k], query@)
                    implies exists|a: int| 0 <= a < r@.len() && #[trigger] r@[a].name@ == k by {
                lemma_keyed_map_dom(s, k);
                let b = choose|b: int| 0 <= b < s.len() && #[trigger] s[b].key() == k;
                lemma_keyed_map_at(s, b);
                let a = choose|a: int| 0 <= a < r@.len() && from[a] == b;
                assert(r@[a].name@ == k);
            }
            if query@.len() == 0 {
                assert forall|k: Seq<char>| #[trigger] self.view().contains_key(k) implies exists|a: int|
                    0 <= a < r@.len() && #[trigger] r@[a].name@ == k by {
                    let x = lowercase(self.view()[k].name@);
                    assert(lowercase(query@).len() == 0);
                    assert(x.subrange(0, 0 + lowercase(query@).len() as int) =~= lowercase(query@));
                    assert(matches_query(self.view()[k], query@));
                }
            }
            assert forall|a: int| 0 <= a < r@.len() implies self.view().contains_key(
                #[trigger] r@[a].name@,
            ) && self.view()[r@[a].name@] == *r@[a] && matches_query(*r@[a], query@) by {
                lemma_keyed_map_at(s, from[a]);
            }
            assert forall|a1: int, a2: int|
                0 <= a1 < r@.len() && 0 <= a2 < r@.len() && a1 != a2 implies r@[a1].name@
                    != r@[a2].name@ by {
                if a1 < a2 {
                    assert(from[a1] < from[a2]);
                } else {
                    assert(from[a2] < from[a1]);
                }
                assert(s[from[a1]].key() != s[from[a2]].key());
            }
        }
        r
    }
}

} // verus!
