//! Rollback points: what was installed before and after each change.

use vstd::prelude::*;

use crate::database::{InstalledPackage, PackageDatabase};
use crate::path::{join, path_join};
use crate::text::{format_zero_padded, lex_lt, zero_padded};

verus! {

/// A record of the installed packages (name, version) around one change.
#[derive(Debug)]
pub struct RollbackPoint {
    pub id: String,
    pub timestamp: String,
    /// Installed packages before the change, as (name, version) pairs.
    pub packages_before: Vec<(String, String)>,
    /// Installed packages after the change, as (name, version) pairs.
    pub packages_after: Vec<(String, String)>,
    pub description: String,
}

fn clone_pairs(v: &Vec<(String, String)>) -> (r: Vec<(String, String)>)
    ensures
        r@ == v@,
{
    let mut r: Vec<(String, String)> = Vec::new();
    let mut i: usize = 0;
    while i < v.len()
        invariant
            i <= v.len(),
            r@ == v@.take(i as int),
        decreases v.len() - i,
    {
        r.push((v[i].0.clone(), v[i].1.clone()));
        i = i + 1;
        assert(r@ =~= v@.take(i as int));
    }
    assert(v@.take(v.len() as int) =~= v@);
    r
}

/// `a` and `b` hold the same values.
pub open spec fn same_point(a: RollbackPoint, b: RollbackPoint) -> bool {
    &&& a.id == b.id
    &&& a.timestamp == b.timestamp
    &&& a.packages_before@ == b.packages_before@
    &&& a.packages_after@ == b.packages_after@
    &&& a.description == b.description
}

impl Clone for RollbackPoint {
    fn clone(&self) -> (r: Self)
        ensures
            same_point(r, *self),
    {
        RollbackPoint {
            id: self.id.clone(),
            timestamp: self.timestamp.clone(),
            packages_before: clone_pairs(&self.packages_before),
            packages_after: clone_pairs(&self.packages_after),
            description: self.description.clone(),
        }
    }
}

/// `pairs` lists each installed package of `installed` once, as (name,
/// version), in increasing order of name.
pub open spec fn is_snapshot(pairs: Seq<(String, String)>, installed: Map<Seq<char>, InstalledPackage>) -> bool {
    &&& pairs.len() == installed.dom().len()
    &&& forall|i: int|
        0 <= i < pairs.len() ==> installed.contains_key(#[trigger] pairs[i].0@) && pairs[i].0
            == installed[pairs[i].0@].name && pairs[i].1 == installed[pairs[i].0@].version
    &&& forall|k: Seq<char>|
        #[trigger] installed.contains_key(k) ==> exists|i: int| 0 <= i < pairs.len() && #[trigger] pairs[i].0@ == k
    &&& forall|i: int| 0 <= i < pairs.len() - 1 ==> lex_lt(#[trigger] pairs[i].0@, pairs[i + 1].0@)
}

/// The installed packages of `db` as (name, version) pairs, by name.
pub fn snapshot(db: &PackageDatabase) -> (r: Vec<(String, String)>)
    requires
        db.wf(),
    ensures
        is_snapshot(r@, db.view()),
{
    let list = db.list_packages();
    let mut r: Vec<(String, String)> = Vec::new();
    let mut i: usize = 0;
    while i < list.len()
        invariant
            i <= list@.len(),
            r@.len() == i,
            forall|a: int|
                0 <= a < i ==> (#[trigger] r@[a]).0 == list@[a].name && r@[a].1 == list@[a].version,
        decreases list@.len() - i,
    {
        r.push((list[i].name.clone(), list[i].version.clone()));
        i = i + 1;
    }
    proof {
        assert forall|k: Seq<char>| #[trigger] db.view().contains_key(k) implies exists|a: int|
            0 <= a < r@.len() && #[trigger] r@[a].0@ == k by {
            let a = choose|a: int| 0 <= a < list@.len() && #[trigger] list@[a].name@ == k;
            assert(r@[a].0@ == k);
        }
        assert forall|a: int| 0 <= a < r@.len() - 1 implies lex_lt(#[trigger] r@[a].0@, r@[a + 1].0@) by {
            assert(lex_lt(list@[a].name@, list@[a + 1].name@));
        }
    }
    r
}

/// `p` is a time format made of literal characters other than '%' and of
/// the fields `%Y`, `%m`, `%d`, `%H`, `%M` and `%S` only.
pub open spec fn plain_time_format(p: Seq<char>) -> bool
    decreases p.len(),
{
    if p.len() == 0 {
        true
    } else if p[0] != '%' {
        plain_time_format(p.drop_first())
    } else {
        &&& p.len() >= 2
        &&& (p[1] == 'Y' || p[1] == 'm' || p[1] == 'd' || p[1] == 'H' || p[1] == 'M' || p[1] == 'S')
        &&& plain_time_format(p.subrange(2, p.len() as int))
    }
}

/// Calls `chrono::Local::now` and formats the local time with `pattern`;
/// the time is the machine's, so nothing is promised of the result, not
/// even its length (`%Y` writes a sign and more digits past the year
/// 9999). A pattern of plain fields only cannot make the formatting fail.
#[verifier::external_body]
fn local_time_formatted(pattern: &str) -> (r: String)
    requires
        plain_time_format(pattern@),
{
    chrono::Local::now().format(pattern).to_string()
}

/// Calls `chrono::Local::now` and gives the local time in RFC 3339; the
/// time is the machine's, so nothing is promised of it.
#[verifier::external_body]
pub fn local_time_rfc3339() -> (r: String) {
    chrono::Local::now().to_rfc3339()
}

/// The identifier of the rollback point numbered `n`, made at time `stamp`.
pub open spec fn point_id(stamp: Seq<char>, n: nat) -> Seq<char> {
    "rp_"@ + stamp + "_"@ + zero_padded(n, 4)
}

/// `id` ends with '_' and then `n` written as `point_id` writes it.
pub open spec fn numbered(id: Seq<char>, n: nat) -> bool {
    let z = zero_padded(n, 4);
    &&& id.len() > z.len()
    &&& id.subrange(id.len() - z.len(), id.len() as int) == z
    &&& id[id.len() - z.len() - 1] == '_'
}

/// Each point's identifier is numbered by its position: the point at
/// position `i` was made as the `i`-th.
pub open spec fn numbered_ids(points: Seq<RollbackPoint>) -> bool {
    forall|i: int| 0 <= i < points.len() ==> numbered(#[trigger] points[i].id@, i as nat)
}

/// An identifier made for the point numbered `n` is numbered `n`.
pub proof fn lemma_point_id_numbered(stamp: Seq<char>, n: nat)
    ensures
        numbered(point_id(stamp, n), n),
{
    reveal_strlit("rp_");
    reveal_strlit("_");
    let id = point_id(stamp, n);
    let z = zero_padded(n, 4);
    assert(id.subrange(id.len() - z.len(), id.len() as int) =~= z);
    assert(id[id.len() - z.len() - 1] == "_"@[0]);
}

/// The rollback points kept, and the directory they are saved in.
#[derive(Debug)]
pub struct RollbackManager {
    pub rollbacks: Vec<RollbackPoint>,
    pub db_dir: String,
}

impl RollbackManager {
    /// No rollback points yet, kept under `rollbacks` in `upm_dir`.
    pub fn new(upm_dir: &str) -> (r: Self)
        ensures
            r.rollbacks@.len() == 0,
            numbered_ids(r.rollbacks@),
            r.db_dir@ == path_join(upm_dir@, "rollbacks"@),
    {
        RollbackManager { rollbacks: Vec::new(), db_dir: join(upm_dir, "rollbacks") }
    }

    /// Records a new rollback point for the change `description`, made at
    /// local time `stamp` (`%Y%m%d_%H%M%S`) and `timestamp` (RFC 3339),
    /// holding what `db` has installed; the point is appended and returned.
    pub fn create_point_at(
        &mut self,
        db: &PackageDatabase,
        description: &str,
        stamp: &str,
        timestamp: String,
    ) -> (r: RollbackPoint)
        requires
            db.wf(),
        ensures
            r.id@ == point_id(stamp@, old(self).rollbacks@.len()),
            r.timestamp == timestamp,
            is_snapshot(r.packages_before@, db.view()),
            r.packages_after@.len() == 0,
            r.description@ == description@,
            final(self).rollbacks@.len() == old(self).rollbacks@.len() + 1,
            forall|i: int|
                0 <= i < old(self).rollbacks@.len() ==> #[trigger] final(self).rollbacks@[i]
                    == old(self).rollbacks@[i],
            same_point(final(self).rollbacks@.last(), r),
            numbered_ids(old(self).rollbacks@) ==> numbered_ids(final(self).rollbacks@),
            final(self).db_dir == old(self).db_dir,
    {
        let before = snapshot(db);
        let mut id = String::from_str("rp_");
        id.append(stamp);
        id.append("_");
        let n = format_zero_padded(self.rollbacks.len(), 4);
        id.append(n.as_str());
        let point = RollbackPoint {
            id,
            timestamp,
            packages_before: before,
            packages_after: Vec::new(),
            description: String::from_str(description),
        };
        let copy = point.clone();
        self.rollbacks.push(point);
        proof {
            let n = old(self).rollbacks@.len();
            lemma_point_id_numbered(stamp@, n);
            assert(self.rollbacks@[n as int].id@ == point_id(stamp@, n));
            assert forall|i: int| 0 <= i < n implies #[trigger] self.rollbacks@[i] == old(self).rollbacks@[i] by {}
        }
        copy
    }

    /// Records a new rollback point for the change `description`, stamped
    /// with the current local time.
    pub fn create_point(&mut self, db: &PackageDatabase, description: &str) -> (r: RollbackPoint)
        requires
            db.wf(),
        ensures
            exists|stamp: Seq<char>| r.id@ == #[trigger] point_id(stamp, old(self).rollbacks@.len()),
            is_snapshot(r.packages_before@, db.view()),
            r.packages_after@.len() == 0,
            r.description@ == description@,
            final(self).rollbacks@.len() == old(self).rollbacks@.len() + 1,
            forall|i: int|
                0 <= i < old(self).rollbacks@.len() ==> #[trigger] final(self).rollbacks@[i]
                    == old(self).rollbacks@[i],
            same_point(final(self).rollbacks@.last(), r),
            numbered_ids(old(self).rollbacks@) ==> numbered_ids(final(self).rollbacks@),
            final(self).db_dir == old(self).db_dir,
    {
        let pattern = "%Y%m%d_%H%M%S";
        proof {
            reveal_strlit("%Y%m%d_%H%M%S");
            let p = pattern@;
            assert(plain_time_format(p.subrange(13, 13)));
            assert(plain_time_format(p.subrange(11, 13))) by {
                assert(p.subrange(11, 13).subrange(2, 2) =~= p.subrange(13, 13));
            }
            assert(plain_time_format(p.subrange(9, 13))) by {
                assert(p.subrange(9, 13).subrange(2, 4) =~= p.subrange(11, 13));
            }
            assert(plain_time_format(p.subrange(7, 13))) by {
                assert(p.subrange(7, 13).subrange(2, 6) =~= p.subrange(9, 13));
            }
            assert(plain_time_format(p.subrange(6, 13))) by {
                assert(p.subrange(6, 13).drop_first() =~= p.subrange(7, 13));
            }
            assert(plain_time_format(p.subrange(4, 13))) by {
                assert(p.subrange(4, 13).subrange(2, 9) =~= p.subrange(6, 13));
            }
            assert(plain_time_format(p.subrange(2, 13))) by {
                assert(p.subrange(2, 13).subrange(2, 11) =~= p.subrange(4, 13));
            }
            assert(plain_time_format(p.subrange(0, 13))) by {
                assert(p.subrange(0, 13).subrange(2, 13) =~= p.subrange(2, 13));
            }
            assert(p.subrange(0, 13) =~= p);
        }
        let stamp = local_time_formatted(pattern);
        let timestamp = local_time_rfc3339();
        let r = self.create_point_at(db, description, stamp.as_str(), timestamp);
        assert(r.id@ == point_id(stamp@, old(self).rollbacks@.len()));
        r
    }

    /// Records what `db` has installed as the state after the latest
    /// rollback point whose identifier is `point_id`; tells whether there
    /// was such a point (when there was none nothing changes).
    pub fn finalize_point(&mut self, point_id: &str, db: &PackageDatabase) -> (found: bool)
        requires
            db.wf(),
        ensures
            final(self).db_dir == old(self).db_dir,
            final(self).rollbacks@.len() == old(self).rollbacks@.len(),
            forall|j: int| 0 <= j < old(self).rollbacks@.len() ==> #[trigger] final(self).rollbacks@[j].id
                == old(self).rollbacks@[j].id,
            numbered_ids(old(self).rollbacks@) ==> numbered_ids(final(self).rollbacks@),
            found == exists|i: int| 0 <= i < old(self).rollbacks@.len() && (#[trigger] old(self).rollbacks@[i]).id@ == point_id@,
            !found ==> final(self).rollbacks@ == old(self).rollbacks@,
            found ==> exists|i: int| {
                &&& 0 <= i < old(self).rollbacks@.len()
                &&& (#[trigger] old(self).rollbacks@[i]).id@ == point_id@
                &&& forall|j: int| i < j < old(self).rollbacks@.len() ==> (#[trigger] old(self).rollbacks@[j]).id@ != point_id@
                &&& forall|j: int| 0 <= j < old(self).rollbacks@.len() && j != i ==> #[trigger] final(self).rollbacks@[j] == old(self).rollbacks@[j]
                &&& final(self).rollbacks@[i].id == old(self).rollbacks@[i].id
                &&& final(self).rollbacks@[i].timestamp == old(self).rollbacks@[i].timestamp
                &&& final(self).rollbacks@[i].packages_before@ == old(self).rollbacks@[i].packages_before@
                &&& final(self).rollbacks@[i].description == old(self).rollbacks@[i].description
                &&& is_snapshot(final(self).rollbacks@[i].packages_after@, db.view())
            },
    {
        let key = point_id.to_owned();
        let mut i: usize = self.rollbacks.len();
        while i > 0
            invariant
                i <= self.rollbacks@.len(),
                key@ == point_id@,
                db.wf(),
                self.rollbacks@ == old(self).rollbacks@,
                self.db_dir == old(self).db_dir,
                forall|j: int| i <= j < self.rollbacks@.len() ==> (#[trigger] self.rollbacks@[j]).id@ != point_id@,
            decreases i,
        {
            if self.rollbacks[i - 1].id == key {
                let after = snapshot(db);
                let old_point = &self.rollbacks[i - 1];
                let point = RollbackPoint {
                    id: old_point.id.clone(),
                    timestamp: old_point.timestamp.clone(),
                    packages_before: clone_pairs(&old_point.packages_before),
                    packages_after: after,
                    description: old_point.description.clone(),
                };
                self.rollbacks.set(i - 1, point);
                assert(old(self).rollbacks@[i - 1].id@ == point_id@);
                proof {
                    assert forall|j: int| 0 <= j < old(self).rollbacks@.len() implies #[trigger] self.rollbacks@[j].id
                        == old(self).rollbacks@[j].id by {
                        if j != i - 1 {
                            assert(self.rollbacks@[j] == old(self).rollbacks@[j]);
                        }
                    }
                }
                return true;
            }
            i = i - 1;
        }
        false
    }

    /// The rollback points, oldest first.
    pub fn list(&self) -> (r: &[RollbackPoint])
        ensures
            r@ == self.rollbacks@,
    {
        self.rollbacks.as_slice()
    }
}

} // verus!
