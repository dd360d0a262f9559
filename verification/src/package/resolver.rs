//! Dependency resolution: which packages an installation needs, breadth
//! first from the requested package.

use vstd::prelude::*;
use std::collections::VecDeque;

use crate::database::{InstalledPackage, PackageDatabase};
use crate::error::UpmError;
use crate::package::graph::{
    edge, lemma_closed_holds_reachable, lemma_reaches_last_edge, lemma_reaches_self, lemma_reaches_step, reachable, reaches,
};
use crate::package::index::{IndexPackage, PackageIndex};
use crate::package::manifest::{is_index_manifest, Manifest};
use crate::text::{strings_contain, views};

verus! {

/// Resolves and checks the dependencies of packages.
pub struct DependencyResolver;

/// A package that an installation needs, with how far it lies from the
/// requested package (0 for a direct dependency).
#[derive(Debug)]
pub struct ResolvedDependency {
    pub name: String,
    pub version: String,
    pub source: String,
    pub manifest: Manifest,
    pub depth: usize,
}

/// `e` describes the index entry `p`.
pub open spec fn is_resolved_entry(e: ResolvedDependency, p: IndexPackage) -> bool {
    &&& e.name == p.name
    &&& e.version == p.version
    &&& e.source == p.repository
    &&& is_index_manifest(e.manifest, p)
}

/// The shortest walk from `root` to `n` has `k` edges (`k` at least one).
pub open spec fn shortest(m: Map<Seq<char>, IndexPackage>, root: Seq<char>, n: Seq<char>, k: nat) -> bool {
    &&& k >= 1
    &&& reaches(m, root, n, k)
    &&& forall|j: nat| 1 <= j < k ==> !#[trigger] reaches(m, root, n, j)
}

/// `r` is what resolving `root` against index `m` and installed packages
/// `installed` gives: one entry for every package reachable from `root`
/// (other than `root`) that is not installed, each describing its index
/// entry at depth one less than its shortest distance from `root`, in
/// order of depth.
pub open spec fn is_resolution(
    m: Map<Seq<char>, IndexPackage>,
    installed: Map<Seq<char>, InstalledPackage>,
    root: Seq<char>,
    r: Seq<ResolvedDependency>,
) -> bool {
    &&& forall|i: int|
        0 <= i < r.len() ==> {
            &&& m.contains_key(#[trigger] r[i].name@)
            &&& is_resolved_entry(r[i], m[r[i].name@])
            &&& r[i].name@ != root
            &&& !installed.contains_key(r[i].name@)
            &&& shortest(m, root, r[i].name@, (r[i].depth + 1) as nat)
        }
    &&& forall|n: Seq<char>|
        reachable(m, root, n) && n != root && !installed.contains_key(n) ==> exists|i: int|
            0 <= i < r.len() && #[trigger] r[i].name@ == n
    &&& forall|i: int, j: int|
        0 <= i < r.len() && 0 <= j < r.len() && i != j ==> #[trigger] r[i].name@ != #[trigger] r[j].name@
    &&& forall|i: int, j: int|
        0 <= i <= j < r.len() ==> #[trigger] r[i].depth <= #[trigger] r[j].depth
}

/// The message for a dependency that the index does not list.
pub open spec fn missing_text(n: Seq<char>) -> Seq<char> {
    "Package '"@ + n + "' not found in index"@
}

/// Some entry of the queue `q` is for `n`.
pub open spec fn queued(q: Seq<(String, usize)>, n: Seq<char>) -> bool {
    exists|j: int| 0 <= j < q.len() && #[trigger] q[j].0@ == n
}

/// Some entry of the queue `q` is for `n` at depth `d`.
pub open spec fn queued_at(q: Seq<(String, usize)>, n: Seq<char>, d: int) -> bool {
    exists|j: int| 0 <= j < q.len() && #[trigger] q[j].0@ == n && q[j].1 == d
}

/// `q2` is `q` followed by an entry `(d, depth)` for each name `d` of
/// `deps` that is not in `vs` (and by nothing else).
#[verifier::opaque]
pub open spec fn enqueued(
    q: Seq<(String, usize)>,
    q2: Seq<(String, usize)>,
    deps: Seq<Seq<char>>,
    vs: Seq<Seq<char>>,
    depth: usize,
) -> bool {
    &&& q2.len() >= q.len()
    &&& q2.subrange(0, q.len() as int) == q
    &&& forall|j: int|
        q.len() <= j < q2.len() ==> (#[trigger] q2[j]).1 == depth && deps.contains(q2[j].0@)
            && !vs.contains(q2[j].0@)
    &&& forall|x: Seq<char>|
        #[trigger] deps.contains(x) && !vs.contains(x) ==> exists|j: int|
            q.len() <= j < q2.len() && #[trigger] q2[j].0@ == x
}

/// A queue's entries as (name, depth) pairs.
pub open spec fn queue_view(q: Seq<(String, usize)>) -> Seq<(Seq<char>, nat)> {
    q.map_values(|e: (String, usize)| (e.0@, e.1 as nat))
}

/// The resolved entries as (name, depth) pairs, in order.
pub open spec fn entries_view(r: Seq<ResolvedDependency>) -> Seq<(Seq<char>, nat)> {
    r.map_values(|e: ResolvedDependency| (e.name@, e.depth as nat))
}

/// `q` with `(d, depth)` appended for each name `d` of `deps`, in order,
/// that is not among `vs`.
pub open spec fn enqueue_all(
    q: Seq<(Seq<char>, nat)>,
    deps: Seq<Seq<char>>,
    vs: Seq<Seq<char>>,
    depth: nat,
) -> Seq<(Seq<char>, nat)>
    decreases deps.len(),
{
    if deps.len() == 0 {
        q
    } else {
        let q1 = enqueue_all(q, deps.drop_last(), vs, depth);
        if vs.contains(deps.last()) {
            q1
        } else {
            q1.push((deps.last(), depth))
        }
    }
}

/// The breadth-first walk, from names visited `vs`, queue `q` and entries
/// resolved `out`: takes the front of the queue; passes over a name visited
/// before; stops with the name when the index does not list it; otherwise
/// visits it, queues its dependencies not yet visited one level deeper,
/// and, unless it is installed, resolves it (queueing them once more, as
/// resolving does). Gives the entries resolved, in the order resolved, once
/// the queue runs dry, or the first name found missing.
pub open spec fn walk(
    m: Map<Seq<char>, IndexPackage>,
    installed: Map<Seq<char>, InstalledPackage>,
    vs: Seq<Seq<char>>,
    q: Seq<(Seq<char>, nat)>,
    out: Seq<(Seq<char>, nat)>,
) -> Result<Seq<(Seq<char>, nat)>, Seq<char>>
    decreases m.dom().len() - vs.len(), q.len(),
{
    if q.len() == 0 {
        Ok(out)
    } else {
        let n = q[0].0;
        let d = q[0].1;
        let q1 = q.drop_first();
        if vs.contains(n) {
            walk(m, installed, vs, q1, out)
        } else if !m.contains_key(n) {
            Err(n)
        } else if vs.len() >= m.dom().len() {
            Ok(out)
        } else {
            let vs2 = vs.push(n);
            let deps = views(m[n].dependencies@);
            let q2 = enqueue_all(q1, deps, vs2, d + 1);
            if installed.contains_key(n) {
                walk(m, installed, vs2, q2, out)
            } else {
                walk(m, installed, vs2, enqueue_all(q2, deps, vs2, d + 1), out.push((n, d)))
            }
        }
    }
}

/// Resolving `root`, which the index lists: the (name, depth) entries in
/// the order the breadth-first walk from `root` resolves them, or the first
/// name it finds missing from the index.
pub open spec fn resolution_order(
    m: Map<Seq<char>, IndexPackage>,
    installed: Map<Seq<char>, InstalledPackage>,
    root: Seq<char>,
) -> Result<Seq<(Seq<char>, nat)>, Seq<char>> {
    walk(m, installed, seq![root], enqueue_all(Seq::empty(), views(m[root].dependencies@), seq![root], 0), Seq::empty())
}

/// Appends `(d, depth)` to `queue` for each dependency `d` not yet visited.
fn enqueue_unvisited(
    deps: &Vec<String>,
    visited: &Vec<String>,
    queue: &mut VecDeque<(String, usize)>,
    depth: usize,
)
    ensures
        enqueued(old(queue)@, final(queue)@, views(deps@), views(visited@), depth),
        queue_view(final(queue)@) == enqueue_all(queue_view(old(queue)@), views(deps@), views(visited@), depth as nat),
{
    let ghost q0 = queue@;
    let mut i: usize = 0;
    while i < deps.len()
        invariant
            i <= deps@.len(),
            queue@.len() >= q0.len(),
            queue@.subrange(0, q0.len() as int) == q0,
            forall|j: int|
                q0.len() <= j < queue@.len() ==> (#[trigger] queue@[j]).1 == depth && views(
                    deps@,
                ).contains(queue@[j].0@) && !views(visited@).contains(queue@[j].0@),
            forall|a: int|
                0 <= a < i && !views(visited@).contains(#[trigger] deps@[a]@) ==> exists|j: int|
                    q0.len() <= j < queue@.len() && #[trigger] queue@[j].0@ == deps@[a]@,
            queue_view(queue@) == enqueue_all(queue_view(q0), views(deps@).take(i as int), views(visited@), depth as nat),
        decreases deps@.len() - i,
    {
        let ghost qb = queue@;
        proof {
            assert(views(deps@).take(i as int + 1).drop_last() =~= views(deps@).take(i as int));
            assert(views(deps@).take(i as int + 1).last() == deps@[i as int]@);
        }
        if !strings_contain(visited, &deps[i]) {
            queue.push_back((deps[i].clone(), depth));
            proof {
                assert(queue_view(queue@) =~= queue_view(qb).push((deps@[i as int]@, depth as nat)));
                assert(views(deps@)[i as int] == deps@[i as int]@);
                assert(queue@[qb.len() as int].0@ == deps@[i as int]@);
                assert forall|a: int|
                    0 <= a < i && !views(visited@).contains(#[trigger] deps@[a]@) implies exists|
                    j: int,
                | q0.len() <= j < queue@.len() && #[trigger] queue@[j].0@ == deps@[a]@ by {
                    let j0 = choose|j: int|
                        q0.len() <= j < qb.len() && #[trigger] qb[j].0@ == deps@[a]@;
                    assert(queue@[j0] == qb[j0]);
                }
                assert(queue@.subrange(0, q0.len() as int) =~= q0) by {
                    assert forall|j: int| 0 <= j < q0.len() implies queue@[j] == q0[j] by {
                        assert(queue@[j] == qb[j]);
                        assert(qb.subrange(0, q0.len() as int)[j] == q0[j]);
                    }
                }
            }
        }
        i = i + 1;
    }
    proof {
        assert(views(deps@).take(deps@.len() as int) =~= views(deps@));
        assert forall|d: Seq<char>|
            #[trigger] views(deps@).contains(d) && !views(visited@).contains(d) implies exists|
            j: int,
        | q0.len() <= j < queue@.len() && #[trigger] queue@[j].0@ == d by {
            let a = choose|a: int| 0 <= a < views(deps@).len() && views(deps@)[a] == d;
            assert(deps@[a]@ == d);
        }
        reveal(enqueued);
    }
}

/// Distinct names, all keys of `m`, are no more than `m` has.
proof fn lemma_distinct_keys_bound(m: Map<Seq<char>, IndexPackage>, vs: Seq<Seq<char>>)
    requires
        vs.no_duplicates(),
        forall|i: int| 0 <= i < vs.len() ==> m.contains_key(#[trigger] vs[i]),
        m.dom().finite(),
    ensures
        vs.len() <= m.dom().len(),
{
    vs.unique_seq_to_set();
    assert(vs.to_set().subset_of(m.dom())) by {
        assert forall|x: Seq<char>| vs.to_set().contains(x) implies m.dom().contains(x) by {
            let i = choose|i: int| 0 <= i < vs.len() && vs[i] == x;
        }
    }
    vstd::set_lib::lemma_len_subset(vs.to_set(), m.dom());
}

} // verus!

verus! {

/// The state of the breadth-first walk: `vs` the names visited, `q` the
/// queue, `lvl` the depth of the last entry taken from the queue.
#[verifier::opaque]
spec fn walk_state(
    m: Map<Seq<char>, IndexPackage>,
    root: Seq<char>,
    vs: Seq<Seq<char>>,
    q: Seq<(String, usize)>,
    lvl: int,
) -> bool {
    &&& vs.no_duplicates()
    &&& vs.contains(root)
    &&& forall|i: int| 0 <= i < vs.len() ==> m.contains_key(#[trigger] vs[i])
    &&& forall|v: Seq<char>| #[trigger] vs.contains(v) ==> v == root || reachable(m, root, v)
    &&& forall|j: int|
        0 <= j < q.len() ==> reaches(m, root, (#[trigger] q[j]).0@, (q[j].1 + 1) as nat)
    &&& forall|v: Seq<char>, w: Seq<char>|
        vs.contains(v) && #[trigger] edge(m, v, w) ==> vs.contains(w) || queued(q, w)
    &&& lvl >= 0
    &&& forall|j: int| 0 <= j < q.len() ==> lvl <= (#[trigger] q[j]).1 <= lvl + 1 && q[j].1 < vs.len()
    &&& forall|i: int, j: int| 0 <= i <= j < q.len() ==> (#[trigger] q[i]).1 <= (#[trigger] q[j]).1
    &&& forall|w: Seq<char>, k: nat| 1 <= k <= lvl && #[trigger] reaches(m, root, w, k) ==> vs.contains(w)
    &&& forall|w: Seq<char>|
        #[trigger] reaches(m, root, w, (lvl + 1) as nat) ==> vs.contains(w) || queued_at(q, w, lvl)
}

/// The entries resolved so far, for visited names `vs` and level `lvl`.
#[verifier::opaque]
spec fn resolved_state(
    m: Map<Seq<char>, IndexPackage>,
    installed: Map<Seq<char>, InstalledPackage>,
    root: Seq<char>,
    vs: Seq<Seq<char>>,
    r: Seq<ResolvedDependency>,
    lvl: int,
) -> bool {
    &&& forall|i: int|
        0 <= i < r.len() ==> {
            &&& vs.contains(#[trigger] r[i].name@)
            &&& m.contains_key(r[i].name@)
            &&& is_resolved_entry(r[i], m[r[i].name@])
            &&& r[i].name@ != root
            &&& !installed.contains_key(r[i].name@)
            &&& shortest(m, root, r[i].name@, (r[i].depth + 1) as nat)
            &&& r[i].depth <= lvl
        }
    &&& forall|i: int, j: int|
        0 <= i < r.len() && 0 <= j < r.len() && i != j ==> #[trigger] r[i].name@ != #[trigger] r[j].name@
    &&& forall|i: int, j: int| 0 <= i <= j < r.len() ==> #[trigger] r[i].depth <= #[trigger] r[j].depth
    &&& forall|v: Seq<char>|
        #[trigger] vs.contains(v) && v != root && !installed.contains_key(v) ==> exists|i: int|
            0 <= i < r.len() && #[trigger] r[i].name@ == v
}

/// The walk's starting state: the root visited, its dependencies queued at depth 0.
proof fn lemma_walk_start(
    m: Map<Seq<char>, IndexPackage>,
    root: Seq<char>,
    q: Seq<(String, usize)>,
)
    requires
        m.contains_key(root),
        forall|j: int|
            0 <= j < q.len() ==> (#[trigger] q[j]).1 == 0 && views(m[root].dependencies@).contains(
                q[j].0@,
            ),
        forall|d: Seq<char>|
            #[trigger] views(m[root].dependencies@).contains(d) && d != root ==> queued(q, d),
    ensures
        walk_state(m, root, seq![root], q, 0),
{
    reveal(walk_state);
    let vs = seq![root];
    assert(vs[0] == root);
    lemma_reaches_self(m, root);
    assert forall|j: int| 0 <= j < q.len() implies reaches(
        m,
        root,
        (#[trigger] q[j]).0@,
        (q[j].1 + 1) as nat,
    ) by {
        lemma_reaches_step(m, root, root, q[j].0@, 0);
    }
    assert forall|v: Seq<char>, w: Seq<char>|
        vs.contains(v) && #[trigger] edge(m, v, w) implies vs.contains(w) || queued(q, w) by {
        assert(vs[0] == v);
    }
    assert forall|w: Seq<char>| #[trigger] reaches(m, root, w, 1) implies vs.contains(w)
        || queued_at(q, w, 0) by {
        let a = lemma_reaches_last_edge(m, root, w, 0);
        let p = choose|p: Seq<Seq<char>>|
            #![trigger crate::package::graph::is_walk(m, p)]
            p.len() == 1 && p[0] == root && p[0] == a && crate::package::graph::is_walk(m, p);
        if !vs.contains(w) {
            let j = choose|j: int| 0 <= j < q.len() && #[trigger] q[j].0@ == w;
            assert(q[j].1 == 0);
        }
    }
}

/// What holds once the front entry `(n, d)` is taken off the queue.
proof fn lemma_walk_pop(
    m: Map<Seq<char>, IndexPackage>,
    root: Seq<char>,
    vs: Seq<Seq<char>>,
    q: Seq<(String, usize)>,
    lvl: int,
)
    requires
        walk_state(m, root, vs, q, lvl),
        q.len() > 0,
        m.dom().finite(),
    ensures
        ({
            let n = q[0].0@;
            let d = q[0].1 as int;
            let q1 = q.drop_first();
            &&& lvl <= d <= lvl + 1
            &&& d < vs.len()
            &&& reaches(m, root, n, (d + 1) as nat)
            &&& forall|w: Seq<char>, k: nat|
                1 <= k <= d && #[trigger] reaches(m, root, w, k) ==> vs.contains(w)
            &&& forall|w: Seq<char>|
                #[trigger] reaches(m, root, w, (d + 1) as nat) ==> vs.contains(w) || queued_at(
                    q1,
                    w,
                    d,
                ) || w == n
            &&& forall|v: Seq<char>, w: Seq<char>|
                vs.contains(v) && #[trigger] edge(m, v, w) ==> vs.contains(w) || queued(q1, w)
                    || w == n
            &&& forall|j: int|
                0 <= j < q1.len() ==> reaches(m, root, (#[trigger] q1[j]).0@, (q1[j].1 + 1) as nat)
            &&& forall|j: int| 0 <= j < q1.len() ==> d <= (#[trigger] q1[j]).1 <= d + 1 && q1[j].1 < vs.len()
            &&& forall|i: int, j: int| 0 <= i <= j < q1.len() ==> (#[trigger] q1[i]).1 <= (#[trigger] q1[j]).1
        }),
        vs.len() <= m.dom().len(),
        vs.no_duplicates(),
        vs.contains(root),
        forall|i: int| 0 <= i < vs.len() ==> m.contains_key(#[trigger] vs[i]),
        forall|v: Seq<char>| #[trigger] vs.contains(v) ==> v == root || reachable(m, root, v),
{
    reveal(walk_state);
    lemma_distinct_keys_bound(m, vs);
    let n = q[0].0@;
    let d = q[0].1 as int;
    let q1 = q.drop_first();
    assert forall|j: int| 0 <= j < q1.len() implies #[trigger] q1[j] == q[j + 1] by {}
    assert forall|w: Seq<char>, k: nat| 1 <= k <= d && #[trigger] reaches(m, root, w, k) implies vs.contains(w) by {
        if k == d && d == lvl + 1 {
            if !vs.contains(w) {
                assert(k == (lvl + 1) as nat);
                assert(reaches(m, root, w, (lvl + 1) as nat));
                assert(queued_at(q, w, lvl));
                let j = choose|j: int| 0 <= j < q.len() && #[trigger] q[j].0@ == w && q[j].1 == lvl;
                assert(q[0].1 <= q[j].1);
            }
        }
    }
    assert forall|w: Seq<char>|
        #[trigger] reaches(m, root, w, (d + 1) as nat) implies vs.contains(w) || queued_at(q1, w, d)
            || w == n by {
        if d == lvl {
            if !vs.contains(w) {
                let j = choose|j: int| 0 <= j < q.len() && #[trigger] q[j].0@ == w && q[j].1 == lvl;
                if j > 0 {
                    assert(q1[j - 1] == q[j]);
                }
            }
        } else {
            let a = lemma_reaches_last_edge(m, root, w, d as nat);
            assert(vs.contains(a));
            if !vs.contains(w) {
                let j = choose|j: int| 0 <= j < q.len() && #[trigger] q[j].0@ == w;
                assert(q[0].1 <= q[j].1);
                if j > 0 {
                    assert(q1[j - 1] == q[j]);
                }
            }
        }
    }
    assert forall|v: Seq<char>, w: Seq<char>|
        vs.contains(v) && #[trigger] edge(m, v, w) implies vs.contains(w) || queued(q1, w) || w == n by {
        if !vs.contains(w) {
            let j = choose|j: int| 0 <= j < q.len() && #[trigger] q[j].0@ == w;
            if j > 0 {
                assert(q1[j - 1] == q[j]);
            }
        }
    }
    assert forall|j: int| 0 <= j < q1.len() implies d <= (#[trigger] q1[j]).1 <= d + 1 && q1[j].1 < vs.len() by {
        assert(q[0].1 <= q[j + 1].1);
    }
    assert forall|i: int, j: int| 0 <= i <= j < q1.len() implies (#[trigger] q1[i]).1 <= (#[trigger] q1[j]).1 by {
        assert(q[i + 1].1 <= q[j + 1].1);
    }
    assert forall|j: int|
        0 <= j < q1.len() implies reaches(m, root, (#[trigger] q1[j]).0@, (q1[j].1 + 1) as nat) by {
        assert(q1[j] == q[j + 1]);
    }
}

/// The front entry of the queue: its depth, and a walk to its name.
proof fn lemma_walk_front(
    m: Map<Seq<char>, IndexPackage>,
    root: Seq<char>,
    vs: Seq<Seq<char>>,
    q: Seq<(String, usize)>,
    lvl: int,
)
    requires
        walk_state(m, root, vs, q, lvl),
        q.len() > 0,
    ensures
        reaches(m, root, q[0].0@, (q[0].1 + 1) as nat),
        reachable(m, root, q[0].0@),
        q[0].1 < vs.len(),
        lvl <= q[0].1 <= lvl + 1,
        vs.contains(root),
{
    reveal(walk_state);
    assert(reaches(m, root, q[0].0@, (q[0].1 + 1) as nat));
}

/// Taking an entry whose name was already visited keeps the walk's state.
proof fn lemma_walk_skip(
    m: Map<Seq<char>, IndexPackage>,
    root: Seq<char>,
    vs: Seq<Seq<char>>,
    q: Seq<(String, usize)>,
    lvl: int,
)
    requires
        walk_state(m, root, vs, q, lvl),
        q.len() > 0,
        vs.contains(q[0].0@),
        m.dom().finite(),
    ensures
        walk_state(m, root, vs, q.drop_first(), q[0].1 as int),
        vs.len() <= m.dom().len(),
        lvl <= q[0].1,
{
    lemma_walk_pop(m, root, vs, q, lvl);
    reveal(walk_state);
}

/// Visiting the new name `n` taken from the front of the queue, with its
/// unvisited dependencies queued one level deeper, keeps the walk's state;
/// the walk reached `n` by a shortest path.
proof fn lemma_walk_visit(
    m: Map<Seq<char>, IndexPackage>,
    root: Seq<char>,
    vs: Seq<Seq<char>>,
    q: Seq<(String, usize)>,
    lvl: int,
    q2: Seq<(String, usize)>,
    deps: Seq<Seq<char>>,
    vs2: Seq<Seq<char>>,
    q1: Seq<(String, usize)>,
    d: usize,
)
    requires
        walk_state(m, root, vs, q, lvl),
        q.len() > 0,
        !vs.contains(q[0].0@),
        m.contains_key(q[0].0@),
        m.dom().finite(),
        deps == views(m[q[0].0@].dependencies@),
        vs2 == vs.push(q[0].0@),
        q1 == q.drop_first(),
        d == q[0].1 + 1,
        enqueued(q1, q2, deps, vs2, d),
    ensures
        walk_state(m, root, vs.push(q[0].0@), q2, q[0].1 as int),
        shortest(m, root, q[0].0@, (q[0].1 + 1) as nat),
        vs.push(q[0].0@).len() <= m.dom().len(),
        lvl <= q[0].1,
{
    reveal(enqueued);
    lemma_walk_pop(m, root, vs, q, lvl);
    let n = q[0].0@;
    let d = q[0].1 as int;
    assert(vs2[vs.len() as int] == n);
    assert forall|k: nat| 1 <= k < d + 1 implies !#[trigger] reaches(m, root, n, k) by {}
    assert forall|x: Seq<char>| #[trigger] vs2.contains(x) <==> vs.contains(x) || x == n by {
        if vs2.contains(x) {
            let i = choose|i: int| 0 <= i < vs2.len() && vs2[i] == x;
            if i < vs.len() {
                assert(vs[i] == x);
            }
        }
        if vs.contains(x) {
            let i = choose|i: int| 0 <= i < vs.len() && vs[i] == x;
            assert(vs2[i] == x);
        }
    }
    assert forall|j: int| 0 <= j < q1.len() implies #[trigger] q2[j] == q1[j] by {
        assert(q2.subrange(0, q1.len() as int)[j] == q1[j]);
    }
    assert forall|i: int| 0 <= i < vs2.len() implies m.contains_key(#[trigger] vs2[i]) by {
        if i < vs.len() {
            assert(vs2[i] == vs[i]);
        }
    }
    lemma_distinct_keys_bound(m, vs2);
    reveal(walk_state);
    assert(reachable(m, root, n));
    assert forall|j: int| 0 <= j < q2.len() implies reaches(
        m,
        root,
        (#[trigger] q2[j]).0@,
        (q2[j].1 + 1) as nat,
    ) by {
        if j >= q1.len() {
            assert(edge(m, n, q2[j].0@));
            lemma_reaches_step(m, root, n, q2[j].0@, (d + 1) as nat);
        }
    }
    assert forall|v: Seq<char>, w: Seq<char>|
        vs2.contains(v) && #[trigger] edge(m, v, w) implies vs2.contains(w) || queued(q2, w) by {
        if !vs2.contains(w) {
            if v == n {
                let j = choose|j: int| q1.len() <= j < q2.len() && #[trigger] q2[j].0@ == w;
            } else {
                let j = choose|j: int| 0 <= j < q1.len() && #[trigger] q1[j].0@ == w;
                assert(q2[j] == q1[j]);
            }
        }
    }
    assert forall|j: int| 0 <= j < q2.len() implies d <= (#[trigger] q2[j]).1 <= d + 1 && q2[j].1
        < vs2.len() by {}
    assert forall|i: int, j: int| 0 <= i <= j < q2.len() implies (#[trigger] q2[i]).1 <= (
    #[trigger] q2[j]).1 by {}
    assert forall|w: Seq<char>|
        #[trigger] reaches(m, root, w, (d + 1) as nat) implies vs2.contains(w) || queued_at(q2, w, d) by {
        if !vs2.contains(w) {
            let j = choose|j: int| 0 <= j < q1.len() && #[trigger] q1[j].0@ == w && q1[j].1 == d;
            assert(q2[j] == q1[j]);
        }
    }
    assert(vs2.no_duplicates());
}

/// Queueing more dependencies of a visited name `n` one level deeper keeps
/// the walk's state.
proof fn lemma_walk_requeue(
    m: Map<Seq<char>, IndexPackage>,
    root: Seq<char>,
    vs: Seq<Seq<char>>,
    q: Seq<(String, usize)>,
    lvl: int,
    n: Seq<char>,
    q2: Seq<(String, usize)>,
    deps: Seq<Seq<char>>,
    d: usize,
)
    requires
        walk_state(m, root, vs, q, lvl),
        vs.contains(n),
        m.contains_key(n),
        reaches(m, root, n, (lvl + 1) as nat),
        deps == views(m[n].dependencies@),
        d == lvl + 1,
        d < vs.len(),
        enqueued(q, q2, deps, vs, d),
    ensures
        walk_state(m, root, vs, q2, lvl),
{
    reveal(walk_state);
    reveal(enqueued);
    assert forall|j: int| 0 <= j < q.len() implies #[trigger] q2[j] == q[j] by {
        assert(q2.subrange(0, q.len() as int)[j] == q[j]);
    }
    assert forall|j: int| 0 <= j < q2.len() implies reaches(
        m,
        root,
        (#[trigger] q2[j]).0@,
        (q2[j].1 + 1) as nat,
    ) by {
        if j >= q.len() {
            assert(edge(m, n, q2[j].0@));
            lemma_reaches_step(m, root, n, q2[j].0@, (lvl + 1) as nat);
        }
    }
    assert forall|v: Seq<char>, w: Seq<char>|
        vs.contains(v) && #[trigger] edge(m, v, w) implies vs.contains(w) || queued(q2, w) by {
        if !vs.contains(w) {
            let j = choose|j: int| 0 <= j < q.len() && #[trigger] q[j].0@ == w;
            assert(q2[j] == q[j]);
        }
    }
    assert forall|i: int, j: int| 0 <= i <= j < q2.len() implies (#[trigger] q2[i]).1 <= (
    #[trigger] q2[j]).1 by {}
    assert forall|w: Seq<char>|
        #[trigger] reaches(m, root, w, (lvl + 1) as nat) implies vs.contains(w) || queued_at(q2, w, lvl) by {
        if !vs.contains(w) {
            let j = choose|j: int| 0 <= j < q.len() && #[trigger] q[j].0@ == w && q[j].1 == lvl;
            assert(q2[j] == q[j]);
        }
    }
}

/// At the start nothing is resolved.
proof fn lemma_resolved_start(
    m: Map<Seq<char>, IndexPackage>,
    installed: Map<Seq<char>, InstalledPackage>,
    root: Seq<char>,
)
    ensures
        resolved_state(m, installed, root, seq![root], Seq::empty(), 0),
{
    reveal(resolved_state);
    let vs = seq![root];
    assert forall|v: Seq<char>| #[trigger] vs.contains(v) implies v == root by {
        let i = choose|i: int| 0 <= i < vs.len() && vs[i] == v;
    }
}

/// Visiting `n` at depth `d`, resolving nothing (when `n` is installed) or
/// resolving entry `e` for it.
proof fn lemma_resolved_visit(
    m: Map<Seq<char>, IndexPackage>,
    installed: Map<Seq<char>, InstalledPackage>,
    root: Seq<char>,
    vs: Seq<Seq<char>>,
    r: Seq<ResolvedDependency>,
    lvl: int,
    n: Seq<char>,
    d: int,
    r2: Seq<ResolvedDependency>,
)
    requires
        resolved_state(m, installed, root, vs, r, lvl),
        lvl <= d,
        !vs.contains(n),
        vs.contains(root),
        installed.contains_key(n) ==> r2 == r,
        !installed.contains_key(n) ==> {
            &&& r2.len() == r.len() + 1
            &&& r2.drop_last() == r
            &&& r2.last().name@ == n
            &&& m.contains_key(n)
            &&& is_resolved_entry(r2.last(), m[n])
            &&& r2.last().depth == d
            &&& shortest(m, root, n, (d + 1) as nat)
        },
    ensures
        resolved_state(m, installed, root, vs.push(n), r2, d),
{
    reveal(resolved_state);
    let vs2 = vs.push(n);
    assert forall|x: Seq<char>| #[trigger] vs2.contains(x) <==> vs.contains(x) || x == n by {
        if vs2.contains(x) {
            let i = choose|i: int| 0 <= i < vs2.len() && vs2[i] == x;
            if i < vs.len() {
                assert(vs[i] == x);
            }
        }
        if vs.contains(x) {
            let i = choose|i: int| 0 <= i < vs.len() && vs[i] == x;
            assert(vs2[i] == x);
        }
        if x == n {
            assert(vs2[vs.len() as int] == x);
        }
    }
    if !installed.contains_key(n) {
        assert forall|i: int| 0 <= i < r.len() implies #[trigger] r2[i] == r[i] by {
            assert(r2.drop_last()[i] == r[i]);
        }
        assert(n != root);
        assert forall|v: Seq<char>|
            #[trigger] vs2.contains(v) && v != root && !installed.contains_key(v) implies exists|i: int|
                0 <= i < r2.len() && #[trigger] r2[i].name@ == v by {
            if v == n {
                assert(r2[r.len() as int].name@ == v);
            } else {
                let i = choose|i: int| 0 <= i < r.len() && #[trigger] r[i].name@ == v;
                assert(r2[i] == r[i]);
            }
        }
        assert forall|i: int, j: int|
            0 <= i < r2.len() && 0 <= j < r2.len() && i != j implies #[trigger] r2[i].name@
                != #[trigger] r2[j].name@ by {
            if i < r.len() && j < r.len() {
                assert(r2[i] == r[i] && r2[j] == r[j]);
            } else if i < r.len() {
                assert(r2[i] == r[i]);
            } else if j < r.len() {
                assert(r2[j] == r[j]);
            }
        }
        assert forall|i: int, j: int| 0 <= i <= j < r2.len() implies #[trigger] r2[i].depth
            <= #[trigger] r2[j].depth by {
            if j < r.len() {
                assert(r2[i] == r[i] && r2[j] == r[j]);
            } else if i < r.len() {
                assert(r2[i] == r[i]);
                assert(vs.contains(r[i].name@));
                assert(r[i].depth <= lvl);
            }
        }
        assert forall|i: int| 0 <= i < r2.len() implies vs2.contains(#[trigger] r2[i].name@) && r2[i].depth <= d by {
            if i < r.len() {
                assert(r2[i] == r[i]);
            }
        }
    }
}

/// Raising the level keeps the resolved entries' state.
proof fn lemma_resolved_raise(
    m: Map<Seq<char>, IndexPackage>,
    installed: Map<Seq<char>, InstalledPackage>,
    root: Seq<char>,
    vs: Seq<Seq<char>>,
    r: Seq<ResolvedDependency>,
    lvl: int,
    lvl2: int,
)
    requires
        resolved_state(m, installed, root, vs, r, lvl),
        lvl <= lvl2,
    ensures
        resolved_state(m, installed, root, vs, r, lvl2),
{
    reveal(resolved_state);
}

/// When the queue runs dry every reachable name has been visited, and the
/// entries resolved are the resolution.
proof fn lemma_walk_done(
    m: Map<Seq<char>, IndexPackage>,
    installed: Map<Seq<char>, InstalledPackage>,
    root: Seq<char>,
    vs: Seq<Seq<char>>,
    r: Seq<ResolvedDependency>,
    lvl: int,
)
    requires
        walk_state(m, root, vs, Seq::empty(), lvl),
        resolved_state(m, installed, root, vs, r, lvl),
    ensures
        is_resolution(m, installed, root, r),
        forall|n: Seq<char>| #[trigger] reachable(m, root, n) ==> m.contains_key(n),
{
    reveal(walk_state);
    reveal(resolved_state);
    assert forall|n: Seq<char>| #[trigger] reachable(m, root, n) implies vs.contains(n) && m.contains_key(n) by {
        let k = choose|k: nat| k >= 1 && #[trigger] reaches(m, root, n, k);
        assert forall|v: Seq<char>, x: Seq<char>| vs.contains(v) && #[trigger] edge(m, v, x) implies vs.contains(x) by {
            if !vs.contains(x) {
                assert(queued(Seq::<(String, usize)>::empty(), x));
            }
        }
        lemma_closed_holds_reachable(m, root, vs, n, k);
        let i = choose|i: int| 0 <= i < vs.len() && vs[i] == n;
    }
}

impl DependencyResolver {
    /// Visits `name`, just taken at `depth` off the front `q_old[0]` of the
    /// queue and not visited before: queues its unvisited dependencies one
    /// level deeper and, unless it is installed, resolves it.
    #[verifier::rlimit(30)]
    fn visit(
        index: &PackageIndex,
        db: &PackageDatabase,
        name: String,
        depth: usize,
        visited: &mut Vec<String>,
        queue: &mut VecDeque<(String, usize)>,
        resolved: &mut Vec<ResolvedDependency>,
        Ghost(root): Ghost<Seq<char>>,
        Ghost(lvl): Ghost<int>,
        Ghost(q_old): Ghost<Seq<(String, usize)>>,
    ) -> (r: Result<(), UpmError>)
        requires
            index.wf(),
            db.wf(),
            index.view().dom().finite(),
            walk_state(index.view(), root, views(old(visited)@), q_old, lvl),
            resolved_state(index.view(), db.view(), root, views(old(visited)@), old(resolved)@, lvl),
            q_old.len() > 0,
            q_old[0] == (name, depth),
            old(queue)@ == q_old.drop_first(),
            !views(old(visited)@).contains(name@),
        ensures
            r is Ok ==> {
                &&& walk_state(index.view(), root, views(final(visited)@), final(queue)@, depth as int)
                &&& resolved_state(index.view(), db.view(), root, views(final(visited)@), final(resolved)@, depth as int)
                &&& final(visited)@.len() == old(visited)@.len() + 1
                &&& final(visited)@.len() <= index.view().dom().len()
            },
            r matches Err(e) ==> (e matches UpmError::DependencyError(msg) && exists|n: Seq<char>|
                #[trigger] reachable(index.view(), root, n) && !index.view().contains_key(n)
                    && msg@ == missing_text(n)),
            r matches Err(e) ==> (e matches UpmError::DependencyError(msg) && msg@ == missing_text(name@)
                && !index.view().contains_key(name@)),
            r is Ok ==> {
                let vs2 = views(old(visited)@).push(name@);
                let deps = views(index.view()[name@].dependencies@);
                let q2 = enqueue_all(queue_view(old(queue)@), deps, vs2, (depth + 1) as nat);
                &&& index.view().contains_key(name@)
                &&& views(final(visited)@) == vs2
                &&& db.view().contains_key(name@) ==> queue_view(final(queue)@) == q2
                    && entries_view(final(resolved)@) == entries_view(old(resolved)@)
                &&& !db.view().contains_key(name@) ==> queue_view(final(queue)@) == enqueue_all(
                    q2,
                    deps,
                    vs2,
                    (depth + 1) as nat,
                ) && entries_view(final(resolved)@) == entries_view(old(resolved)@).push((name@, depth as nat))
            },
    {
        let ghost m = index.view();
        let ghost vs = views(visited@);
        let vlen = visited.len();
        proof {
            lemma_walk_front(m, root, vs, q_old, lvl);
            assert(depth < vs.len());
            assert(vs.len() == vlen);
        }
        visited.push(name.clone());
        proof {
            assert(views(visited@) =~= vs.push(name@));
            assert(views(visited@)[vs.len() as int] == name@);
        }
        let pkg = match index.find_package(name.as_str()) {
            Some(p) => p,
            None => {
                let mut msg = String::from_str("Package '");
                msg.append(name.as_str());
                msg.append("' not found in index");
                return Err(UpmError::DependencyError(msg));
            },
        };
        let ghost q1 = queue@;
        enqueue_unvisited(&pkg.dependencies, &*visited, &mut *queue, depth + 1);
        proof {
            lemma_walk_visit(
                m,
                root,
                vs,
                q_old,
                lvl,
                queue@,
                views(pkg.dependencies@),
                views(visited@),
                q1,
                (depth + 1) as usize,
            );
        }
        let installed = db.is_installed(name.as_str());
        if !installed {
            let manifest = Manifest::from_index(pkg);
            let ghost q2 = queue@;
            enqueue_unvisited(&pkg.dependencies, &*visited, &mut *queue, depth + 1);
            proof {
                lemma_walk_requeue(
                    m,
                    root,
                    views(visited@),
                    q2,
                    depth as int,
                    name@,
                    queue@,
                    views(pkg.dependencies@),
                    (depth + 1) as usize,
                );
            }
            let ghost r_before = resolved@;
            let ghost qv_before = queue_view(queue@);
            resolved.push(
                ResolvedDependency {
                    name: pkg.name.clone(),
                    version: pkg.version.clone(),
                    source: pkg.repository.clone(),
                    manifest,
                    depth,
                },
            );
            proof {
                assert(entries_view(resolved@) =~= entries_view(r_before).push((name@, depth as nat)));
                assert(resolved@.drop_last() =~= r_before);
                lemma_resolved_visit(m, db.view(), root, vs, r_before, lvl, name@, depth as int, resolved@);
            }
        } else {
            proof {
                lemma_resolved_visit(m, db.view(), root, vs, resolved@, lvl, name@, depth as int, resolved@);
            }
        }
        Ok(())
    }

    /// The packages that installing `package_name` needs: breadth first
    /// through the dependency lists of the index, every package reachable
    /// from `package_name` that is not installed, in order of depth.
    /// Refused when the index does not list `package_name` or a package
    /// reached on the way.
    #[verifier::rlimit(100)]
    pub fn resolve(package_name: &str, index: &PackageIndex, db: &PackageDatabase) -> (r: Result<
        Vec<ResolvedDependency>,
        UpmError,
    >)
        requires
            index.wf(),
            db.wf(),
        ensures
            !index.view().contains_key(package_name@) ==> (r matches Err(
                UpmError::PackageNotFound(n),
            ) && n@ == package_name@),
            index.view().contains_key(package_name@) ==> (r is Ok <==> forall|n: Seq<char>|
                #[trigger] reachable(index.view(), package_name@, n) ==> index.view().contains_key(n)),
            r matches Err(UpmError::DependencyError(msg)) ==> exists|n: Seq<char>|
                #[trigger] reachable(index.view(), package_name@, n) && !index.view().contains_key(n)
                    && msg@ == missing_text(n),
            index.view().contains_key(package_name@) && r is Err ==> r matches Err(
                UpmError::DependencyError(_),
            ),
            r matches Ok(v) ==> is_resolution(index.view(), db.view(), package_name@, v@),
            index.view().contains_key(package_name@) ==> (r is Ok <==> resolution_order(
                index.view(),
                db.view(),
                package_name@,
            ) is Ok),
            r matches Ok(v) ==> resolution_order(index.view(), db.view(), package_name@) matches Ok(o)
                && o == entries_view(v@),
            r matches Err(UpmError::DependencyError(msg)) ==> resolution_order(
                index.view(),
                db.view(),
                package_name@,
            ) matches Err(n) && msg@ == missing_text(n),
    {
        let ghost m = index.view();
        let ghost root = package_name@;
        let root_pkg = match index.find_package(package_name) {
            Some(p) => p,
            None => {
                return Err(UpmError::PackageNotFound(package_name.to_owned()));
            },
        };
        proof {
            crate::keyed::lemma_keyed_map_len(index.packages@);
        }
        let mut visited: Vec<String> = Vec::new();
        visited.push(root_pkg.name.clone());
        let mut queue: VecDeque<(String, usize)> = VecDeque::new();
        enqueue_unvisited(&root_pkg.dependencies, &visited, &mut queue, 0);
        let mut resolved: Vec<ResolvedDependency> = Vec::new();
        let ghost mut lvl: int = 0;
        proof {
            reveal(enqueued);
            assert(views(visited@) =~= seq![root]);
            assert forall|d: Seq<char>|
                #[trigger] views(m[root].dependencies@).contains(d) && d != root implies queued(
                    queue@,
                    d,
                ) by {
                if !views(visited@).contains(d) {
                } else {
                    assert(views(visited@)[0] == d);
                }
            }
            assert forall|j: int|
                0 <= j < queue@.len() implies (#[trigger] queue@[j]).1 == 0 && views(
                    m[root].dependencies@,
                ).contains(queue@[j].0@) by {
                assert(queue@.subrange(0, 0) =~= Seq::<(String, usize)>::empty());
            }
            lemma_walk_start(m, root, queue@);
            lemma_resolved_start(m, db.view(), root);
            assert(queue_view(Seq::<(String, usize)>::empty()) =~= Seq::<(Seq<char>, nat)>::empty());
            assert(entries_view(resolved@) =~= Seq::<(Seq<char>, nat)>::empty());
        }
        let ghost target = resolution_order(m, db.view(), root);
        loop
            invariant
                index.wf(),
                db.wf(),
                m == index.view(),
                m.dom().finite(),
                root == package_name@,
                m.contains_key(root),
                walk_state(m, root, views(visited@), queue@, lvl),
                resolved_state(m, db.view(), root, views(visited@), resolved@, lvl),
                target == resolution_order(m, db.view(), root),
                walk(m, db.view(), views(visited@), queue_view(queue@), entries_view(resolved@)) == target,
            decreases m.dom().len() - visited@.len(), queue@.len(),
        {
            let ghost q_old = queue@;
            let ghost vs = views(visited@);
            let item = queue.pop_front();
            let (name, depth) = match item {
                Some(x) => x,
                None => {
                    proof {
                        assert(q_old =~= Seq::<(String, usize)>::empty());
                        lemma_walk_done(m, db.view(), root, vs, resolved@, lvl);
                    }
                    return Ok(resolved);
                },
            };
            proof {
                assert(queue@ =~= q_old.drop_first());
                assert(queue_view(queue@) =~= queue_view(q_old).drop_first());
                assert(queue_view(q_old)[0] == (name@, depth as nat));
            }
            if strings_contain(&visited, &name) {
                proof {
                    lemma_walk_skip(m, root, vs, q_old, lvl);
                    lemma_resolved_raise(m, db.view(), root, vs, resolved@, lvl, depth as int);
                    lvl = depth as int;
                }
                continue;
            }
            let ghost lvl_before = lvl;
            let step = Self::visit(index, db, name, depth, &mut visited, &mut queue, &mut resolved, Ghost(root), Ghost(lvl), Ghost(q_old));
            if let Err(e) = step {
                return Err(e);
            }
            proof {
                lvl = depth as int;
            }
        }
    }
}

} // verus!
