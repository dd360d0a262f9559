//! Detection of circular dependencies: a depth-first walk from a package
//! that reports each cycle it closes.

use vstd::prelude::*;

use crate::error::UpmError;
use crate::package::graph::{
    edge, is_walk, lemma_closed_holds_reachable, lemma_reaches_zero, lemma_reaches_last_edge, lemma_reaches_self, lemma_reaches_step, reachable,
    reaches,
};
use crate::package::index::{IndexPackage, PackageIndex};
use crate::package::resolver::DependencyResolver;
use crate::text::{strings_contain, views};

verus! {

/// `n` is `root` or reachable from it.
pub open spec fn from_root(m: Map<Seq<char>, IndexPackage>, root: Seq<char>, n: Seq<char>) -> bool {
    n == root || reachable(m, root, n)
}

/// `c` is a cycle of the dependency graph: distinct names, each with an
/// edge to the next, and the last with an edge back to the first.
pub open spec fn is_cycle(m: Map<Seq<char>, IndexPackage>, c: Seq<Seq<char>>) -> bool {
    &&& c.len() >= 1
    &&& c.no_duplicates()
    &&& forall|i: int| 0 <= i < c.len() - 1 ==> edge(m, #[trigger] c[i], c[i + 1])
    &&& edge(m, c.last(), c[0])
}

/// Some name that is `root` or reachable from it lies on a closed walk.
pub open spec fn has_cycle_from(m: Map<Seq<char>, IndexPackage>, root: Seq<char>) -> bool {
    exists|n: Seq<char>, k: nat| from_root(m, root, n) && k >= 1 && #[trigger] reaches(m, n, n, k)
}

/// Each reported cycle is a cycle through names `root` leads to.
pub open spec fn cycles_ok(
    m: Map<Seq<char>, IndexPackage>,
    root: Seq<char>,
    cs: Seq<Vec<String>>,
) -> bool {
    forall|i: int|
        0 <= i < cs.len() ==> is_cycle(m, views(#[trigger] cs[i]@)) && forall|j: int|
            0 <= j < cs[i]@.len() ==> from_root(m, root, #[trigger] cs[i]@[j]@)
}

/// A position of `x` in `path`; on a path without repeats, its only one.
pub open spec fn position_in(path: Seq<Seq<char>>, x: Seq<char>) -> int {
    choose|i: int| 0 <= i < path.len() && path[i] == x
}

/// The depth-first search for cycles at `current`, where `path` holds the
/// names on the way there, `visited` the names met so far and `found` the
/// cycles reported so far; gives the names met and the cycles reported once
/// the search at `current` is over.
/// A name already on the path closes a cycle, reported as the stretch of
/// the path from that name on. A name met before ends the search there.
/// Any other name is met, and the search goes on through its dependencies
/// in the order they are listed. `fuel` bounds the depth: with at least as
/// much as there are listed names not yet met, it never runs out.
pub open spec fn search_from(
    m: Map<Seq<char>, IndexPackage>,
    fuel: nat,
    current: Seq<char>,
    path: Seq<Seq<char>>,
    visited: Seq<Seq<char>>,
    found: Seq<Seq<Seq<char>>>,
) -> (Seq<Seq<char>>, Seq<Seq<Seq<char>>>)
    decreases fuel, 0int, 0int,
{
    if path.contains(current) {
        (visited, found.push(path.subrange(position_in(path, current), path.len() as int)))
    } else if visited.contains(current) {
        (visited, found)
    } else if !m.contains_key(current) || fuel == 0 {
        (visited.push(current), found)
    } else {
        search_deps(
            m,
            (fuel - 1) as nat,
            views(m[current].dependencies@),
            0,
            path.push(current),
            visited.push(current),
            found,
        )
    }
}

/// The search through `deps` from position `i` on, one after another, each
/// starting from what the one before left.
pub open spec fn search_deps(
    m: Map<Seq<char>, IndexPackage>,
    fuel: nat,
    deps: Seq<Seq<char>>,
    i: nat,
    path: Seq<Seq<char>>,
    visited: Seq<Seq<char>>,
    found: Seq<Seq<Seq<char>>>,
) -> (Seq<Seq<char>>, Seq<Seq<Seq<char>>>)
    decreases fuel, 1int, deps.len() - i,
{
    if i >= deps.len() {
        (visited, found)
    } else {
        let (v, f) = search_from(m, fuel, deps[i as int], path, visited, found);
        search_deps(m, fuel, deps, i + 1, path, v, f)
    }
}

/// The cycles the search from `root` reports, in the order it meets them.
pub open spec fn search_cycles(m: Map<Seq<char>, IndexPackage>, root: Seq<char>) -> Seq<Seq<Seq<char>>> {
    search_from(m, m.dom().len(), root, Seq::empty(), Seq::empty(), Seq::empty()).1
}

/// The search only adds cycles: what was reported before stays, in front.
pub proof fn lemma_search_from_extends(
    m: Map<Seq<char>, IndexPackage>,
    fuel: nat,
    current: Seq<char>,
    path: Seq<Seq<char>>,
    visited: Seq<Seq<char>>,
    found: Seq<Seq<Seq<char>>>,
)
    ensures
        search_from(m, fuel, current, path, visited, found).1.len() >= found.len(),
        search_from(m, fuel, current, path, visited, found).1.subrange(0, found.len() as int) == found,
    decreases fuel, 0int, 0int,
{
    let r = search_from(m, fuel, current, path, visited, found).1;
    if path.contains(current) {
        assert(r.subrange(0, found.len() as int) =~= found);
    } else if visited.contains(current) {
        assert(r.subrange(0, found.len() as int) =~= found);
    } else if !m.contains_key(current) || fuel == 0 {
        assert(r.subrange(0, found.len() as int) =~= found);
    } else {
        lemma_search_deps_extends(
            m,
            (fuel - 1) as nat,
            views(m[current].dependencies@),
            0,
            path.push(current),
            visited.push(current),
            found,
        );
    }
}

/// The search through a dependency list only adds cycles.
pub proof fn lemma_search_deps_extends(
    m: Map<Seq<char>, IndexPackage>,
    fuel: nat,
    deps: Seq<Seq<char>>,
    i: nat,
    path: Seq<Seq<char>>,
    visited: Seq<Seq<char>>,
    found: Seq<Seq<Seq<char>>>,
)
    ensures
        search_deps(m, fuel, deps, i, path, visited, found).1.len() >= found.len(),
        search_deps(m, fuel, deps, i, path, visited, found).1.subrange(0, found.len() as int) == found,
    decreases fuel, 1int, deps.len() - i,
{
    let r = search_deps(m, fuel, deps, i, path, visited, found).1;
    if i >= deps.len() {
        assert(r.subrange(0, found.len() as int) =~= found);
    } else {
        let (v, f) = search_from(m, fuel, deps[i as int], path, visited, found);
        lemma_search_from_extends(m, fuel, deps[i as int], path, visited, found);
        lemma_search_deps_extends(m, fuel, deps, i + 1, path, v, f);
        assert(r.subrange(0, f.len() as int).subrange(0, found.len() as int) =~= r.subrange(0, found.len() as int));
    }
}

/// Going through `deps` from position `i` with `path` the names on the way,
/// every dependency from `i` on that is on the path closes a cycle, and
/// that cycle (the stretch of the path from it) is reported.
pub proof fn lemma_search_deps_closing(
    m: Map<Seq<char>, IndexPackage>,
    fuel: nat,
    deps: Seq<Seq<char>>,
    i: nat,
    path: Seq<Seq<char>>,
    visited: Seq<Seq<char>>,
    found: Seq<Seq<Seq<char>>>,
)
    ensures
        forall|j: int|
            i <= j < deps.len() && path.contains(#[trigger] deps[j]) ==> search_deps(
                m,
                fuel,
                deps,
                i,
                path,
                visited,
                found,
            ).1.contains(path.subrange(position_in(path, deps[j]), path.len() as int)),
    decreases deps.len() - i,
{
    if i < deps.len() {
        let (v, f) = search_from(m, fuel, deps[i as int], path, visited, found);
        lemma_search_deps_closing(m, fuel, deps, i + 1, path, v, f);
        let r = search_deps(m, fuel, deps, i, path, visited, found).1;
        assert(r == search_deps(m, fuel, deps, i + 1, path, v, f).1);
        if path.contains(deps[i as int]) {
            let c = path.subrange(position_in(path, deps[i as int]), path.len() as int);
            assert(f == found.push(c));
            lemma_search_deps_extends(m, fuel, deps, i + 1, path, v, f);
            assert(r.subrange(0, f.len() as int)[found.len() as int] == c);
            assert(r[found.len() as int] == c);
        }
    }
}

/// Each of `cs` as a sequence of names.
pub open spec fn cycle_views(cs: Seq<Vec<String>>) -> Seq<Seq<Seq<char>>> {
    Seq::new(cs.len(), |i: int| views(cs[i]@))
}

/// The names finished by the walk, in the order they were finished; each
/// finished package's dependencies were finished before it, and the
/// visited names are those finished and those on the current path.
pub open spec fn finish_order(
    m: Map<Seq<char>, IndexPackage>,
    vs: Seq<Seq<char>>,
    path: Seq<Seq<char>>,
    fin: Seq<Seq<char>>,
) -> bool {
    &&& fin.no_duplicates()
    &&& forall|x: Seq<char>| #[trigger] vs.contains(x) <==> fin.contains(x) || path.contains(x)
    &&& forall|x: Seq<char>| #[trigger] fin.contains(x) ==> !path.contains(x)
    &&& forall|i: int, w: Seq<char>|
        0 <= i < fin.len() && #[trigger] edge(m, fin[i], w) ==> exists|j: int|
            0 <= j < i && #[trigger] fin[j] == w
}

/// The position of `x` in the finish order.
spec fn rank(fin: Seq<Seq<char>>, x: Seq<char>) -> int {
    choose|j: int| 0 <= j < fin.len() && fin[j] == x
}

/// Along a walk from a finished name every name is finished, and the
/// finish order falls by at least one per edge.
proof fn lemma_rank_descends(
    m: Map<Seq<char>, IndexPackage>,
    fin: Seq<Seq<char>>,
    a: Seq<char>,
    b: Seq<char>,
    k: nat,
)
    requires
        fin.no_duplicates(),
        forall|i: int, w: Seq<char>|
            0 <= i < fin.len() && #[trigger] edge(m, fin[i], w) ==> exists|j: int|
                0 <= j < i && #[trigger] fin[j] == w,
        fin.contains(a),
        reaches(m, a, b, k),
    ensures
        fin.contains(b),
        0 <= rank(fin, b) < fin.len(),
        fin[rank(fin, b)] == b,
        rank(fin, b) + k <= rank(fin, a),
    decreases k,
{
    if k == 0 {
        lemma_reaches_zero(m, a, b);
    } else {
        let c = lemma_reaches_last_edge(m, a, b, (k - 1) as nat);
        lemma_rank_descends(m, fin, a, c, (k - 1) as nat);
        let rc = rank(fin, c);
        assert(edge(m, fin[rc], b));
        let j = choose|j: int| 0 <= j < rc && #[trigger] fin[j] == b;
        assert(fin.contains(b));
        let rb = rank(fin, b);
        assert(fin[rb] == b);
        assert(rb == j);
    }
}

/// When the walk from `root` has finished with `root` finished, no closed
/// walk passes through a name `root` leads to.
proof fn lemma_finished_acyclic(m: Map<Seq<char>, IndexPackage>, root: Seq<char>, fin: Seq<Seq<char>>)
    requires
        fin.no_duplicates(),
        forall|i: int, w: Seq<char>|
            0 <= i < fin.len() && #[trigger] edge(m, fin[i], w) ==> exists|j: int|
                0 <= j < i && #[trigger] fin[j] == w,
        fin.contains(root),
    ensures
        !has_cycle_from(m, root),
{
    assert forall|v: Seq<char>, x: Seq<char>| fin.contains(v) && #[trigger] edge(m, v, x) implies fin.contains(x) by {
        let i = choose|i: int| 0 <= i < fin.len() && fin[i] == v;
        let j = choose|j: int| 0 <= j < i && #[trigger] fin[j] == x;
    }
    if has_cycle_from(m, root) {
        let (n, k) = choose|n: Seq<char>, k: nat| from_root(m, root, n) && k >= 1 && #[trigger] reaches(m, n, n, k);
        if n != root {
            let k0 = choose|k0: nat| k0 >= 1 && #[trigger] reaches(m, root, n, k0);
            lemma_closed_holds_reachable(m, root, fin, n, k0);
        }
        lemma_rank_descends(m, fin, n, n, k);
    }
}

/// A cycle is a closed walk through its first name.
proof fn lemma_cycle_closes(m: Map<Seq<char>, IndexPackage>, c: Seq<Seq<char>>)
    requires
        is_cycle(m, c),
    ensures
        reaches(m, c[0], c[0], c.len()),
{
    let p = c.push(c[0]);
    assert forall|i: int| 0 <= i < p.len() - 1 implies edge(m, #[trigger] p[i], p[i + 1]) by {
        if i < c.len() - 1 {
            assert(p[i] == c[i] && p[i + 1] == c[i + 1]);
        } else {
            assert(p[i] == c.last() && p[i + 1] == c[0]);
        }
    }
    assert(is_walk(m, p));
    assert(p[c.len() as int] == c[0]);
}

/// How many names of `m` are not among `vs`.
spec fn unvisited(m: Map<Seq<char>, IndexPackage>, vs: Seq<Seq<char>>) -> nat {
    m.dom().difference(vs.to_set()).len()
}

/// Visiting one more name of `m` leaves fewer unvisited.
proof fn lemma_unvisited_drops(
    m: Map<Seq<char>, IndexPackage>,
    v1: Seq<Seq<char>>,
    v2: Seq<Seq<char>>,
    c: Seq<char>,
)
    requires
        m.dom().finite(),
        forall|x: Seq<char>| #[trigger] v1.contains(x) ==> v2.contains(x),
        m.contains_key(c),
        !v1.contains(c),
        v2.contains(c),
    ensures
        unvisited(m, v2) < unvisited(m, v1),
{
    let d1 = m.dom().difference(v1.to_set());
    let d2 = m.dom().difference(v2.to_set());
    assert(d2.subset_of(d1.remove(c)));
    assert(d1.contains(c));
    vstd::set_lib::lemma_len_subset(d2, d1.remove(c));
}

/// The first position of `s` in `v`, if any.
fn position_of(v: &Vec<String>, s: &String) -> (r: Option<usize>)
    ensures
        match r {
            Some(i) => i < v@.len() && v@[i as int]@ == s@,
            None => !views(v@).contains(s@),
        },
{
    let mut i: usize = 0;
    while i < v.len()
        invariant
            i <= v@.len(),
            forall|j: int| 0 <= j < i ==> #[trigger] v@[j]@ != s@,
        decreases v@.len() - i,
    {
        if v[i] == *s {
            return Some(i);
        }
        i = i + 1;
    }
    proof {
        if views(v@).contains(s@) {
            let j = choose|j: int| 0 <= j < views(v@).len() && views(v@)[j] == s@;
            assert(v@[j]@ == s@);
        }
    }
    None
}

/// The strings of `v` from position `start` on.
fn tail_from(v: &Vec<String>, start: usize) -> (r: Vec<String>)
    requires
        start <= v@.len(),
    ensures
        r@ == v@.subrange(start as int, v@.len() as int),
{
    let mut r: Vec<String> = Vec::new();
    let mut i: usize = start;
    while i < v.len()
        invariant
            start <= i <= v@.len(),
            r@ == v@.subrange(start as int, i as int),
        decreases v@.len() - i,
    {
        r.push(v[i].clone());
        i = i + 1;
        assert(r@ =~= v@.subrange(start as int, i as int));
    }
    r
}

/// The current path of the walk leads from `root`, edge by edge, to `current`.
spec fn path_ok(m: Map<Seq<char>, IndexPackage>, root: Seq<char>, path: Seq<Seq<char>>, current: Seq<char>) -> bool {
    &&& path.no_duplicates()
    &&& forall|i: int| 0 <= i < path.len() ==> reaches(m, root, #[trigger] path[i], i as nat)
    &&& forall|i: int| 0 <= i < path.len() - 1 ==> edge(m, #[trigger] path[i], path[i + 1])
    &&& path.len() > 0 ==> edge(m, path.last(), current)
    &&& reaches(m, root, current, path.len())
}

/// The cycle closed when the walk meets `current` again at position `pos`
/// of its path.
proof fn lemma_found_cycle(
    m: Map<Seq<char>, IndexPackage>,
    root: Seq<char>,
    path: Seq<Seq<char>>,
    current: Seq<char>,
    pos: int,
)
    requires
        path_ok(m, root, path, current),
        0 <= pos < path.len(),
        path[pos] == current,
    ensures
        is_cycle(m, path.subrange(pos, path.len() as int)),
        forall|j: int|
            0 <= j < path.len() - pos ==> from_root(m, root, #[trigger] path.subrange(pos, path.len() as int)[j]),
{
    let c = path.subrange(pos, path.len() as int);
    assert forall|i: int| 0 <= i < c.len() - 1 implies edge(m, #[trigger] c[i], c[i + 1]) by {
        assert(c[i] == path[pos + i] && c[i + 1] == path[pos + i + 1]);
    }
    assert(c.last() == path.last());
    assert forall|j: int| 0 <= j < c.len() implies from_root(m, root, #[trigger] c[j]) by {
        assert(c[j] == path[pos + j]);
        assert(reaches(m, root, path[pos + j], (pos + j) as nat));
        if pos + j == 0 {
            lemma_reaches_zero(m, root, path[pos + j]);
        }
    }
}

impl DependencyResolver {
    /// One step of the cycle search, at `current`: reports the cycle when
    /// `current` is already on the path, stops when it was visited, and
    /// otherwise walks on through each of its dependencies.
    fn visit_for_cycles(
        current: &String,
        path: &mut Vec<String>,
        visited: &mut Vec<String>,
        index: &PackageIndex,
        cycles: &mut Vec<Vec<String>>,
        Ghost(root): Ghost<Seq<char>>,
        Ghost(fin): Ghost<Seq<Seq<char>>>,
        Ghost(fuel): Ghost<nat>,
    ) -> (fin2: Ghost<Seq<Seq<char>>>)
        requires
            unvisited(index.view(), views(old(visited)@)) <= fuel,
            index.wf(),
            index.view().dom().finite(),
            path_ok(index.view(), root, views(old(path)@), current@),
            forall|x: Seq<char>| #[trigger] views(old(path)@).contains(x) ==> views(old(visited)@).contains(x),
            cycles_ok(index.view(), root, old(cycles)@),
            old(cycles)@.len() == 0 ==> finish_order(index.view(), views(old(visited)@), views(old(path)@), fin),
        ensures
            final(path)@ == old(path)@,
            (views(final(visited)@), cycle_views(final(cycles)@)) == search_from(
                index.view(),
                fuel,
                current@,
                views(old(path)@),
                views(old(visited)@),
                cycle_views(old(cycles)@),
            ),
            forall|x: Seq<char>| #[trigger] views(old(visited)@).contains(x) ==> views(final(visited)@).contains(x),
            final(cycles)@.len() >= old(cycles)@.len(),
            cycles_ok(index.view(), root, final(cycles)@),
            final(cycles)@.len() == 0 ==> {
                &&& finish_order(index.view(), views(final(visited)@), views(old(path)@), fin2@)
                &&& fin2@.contains(current@)
                &&& forall|x: Seq<char>| #[trigger] fin.contains(x) ==> fin2@.contains(x)
            },
        decreases unvisited(index.view(), views(old(visited)@)),
    {
        let ghost m = index.view();
        let ghost p0 = views(path@);
        let ghost pv0 = path@;
        let ghost v0 = views(visited@);
        let ghost c0 = cycles@;
        if let Some(pos) = position_of(path, current) {
            let cyc = tail_from(path, pos);
            proof {
                assert(p0[pos as int] == current@);
                lemma_found_cycle(m, root, p0, current@, pos as int);
                assert(views(cyc@) =~= p0.subrange(pos as int, p0.len() as int));
            }
            cycles.push(cyc);
            proof {
                let j = position_in(p0, current@);
                assert(p0.contains(current@));
                assert(p0[j] == p0[pos as int]);
                assert(j == pos);
                assert(cycle_views(cycles@) =~= cycle_views(c0).push(views(cyc@)));
                assert forall|i: int| 0 <= i < cycles@.len() implies is_cycle(m, views(#[trigger] cycles@[i]@))
                    && forall|j: int| 0 <= j < cycles@[i]@.len() ==> from_root(m, root, #[trigger] cycles@[i]@[j]@) by {
                    if i < c0.len() {
                        assert(cycles@[i] == c0[i]);
                    } else {
                        assert forall|j: int| 0 <= j < cycles@[i]@.len() implies from_root(m, root, #[trigger] cycles@[i]@[j]@) by {
                            assert(cycles@[i]@[j]@ == views(cyc@)[j]);
                        }
                    }
                }
            }
            return Ghost(fin);
        }
        if strings_contain(visited, current) {
            return Ghost(fin);
        }
        visited.push(current.clone());
        path.push(current.clone());
        let ghost p1 = views(path@);
        let ghost pv1 = path@;
        proof {
            assert(views(visited@) =~= v0.push(current@));
            assert(p1 =~= p0.push(current@));
            assert forall|x: Seq<char>| #[trigger] views(visited@).contains(x) <==> v0.contains(x) || x == current@ by {
                if views(visited@).contains(x) {
                    let i = choose|i: int| 0 <= i < views(visited@).len() && views(visited@)[i] == x;
                    if i < v0.len() {
                        assert(v0[i] == x);
                    }
                }
                if v0.contains(x) {
                    let i = choose|i: int| 0 <= i < v0.len() && v0[i] == x;
                    assert(views(visited@)[i] == x);
                }
                if x == current@ {
                    assert(views(visited@)[v0.len() as int] == x);
                }
            }
            assert forall|x: Seq<char>| #[trigger] p1.contains(x) <==> p0.contains(x) || x == current@ by {
                if p1.contains(x) {
                    let i = choose|i: int| 0 <= i < p1.len() && p1[i] == x;
                    if i < p0.len() {
                        assert(p0[i] == x);
                    }
                }
                if p0.contains(x) {
                    let i = choose|i: int| 0 <= i < p0.len() && p0[i] == x;
                    assert(p1[i] == x);
                }
                if x == current@ {
                    assert(p1[p0.len() as int] == x);
                }
            }
        }
        let ghost mut f = fin;
        match index.find_package(current.as_str()) {
            Some(pkg) => {
                proof {
                    lemma_unvisited_drops(m, v0, views(visited@), current@);
                    assert(cycle_views(cycles@) == cycle_views(c0));
                }
                let mut i: usize = 0;
                while i < pkg.dependencies.len()
                    invariant
                        index.wf(),
                        m == index.view(),
                        m.dom().finite(),
                        m.contains_key(current@),
                        *pkg == m[current@],
                        i <= pkg.dependencies@.len(),
                        views(path@) == p1,
                        path@ == pv1,
                        pv1.drop_last() == pv0,
                        pv0 == old(path)@,
                        v0 == views(old(visited)@),
                        p1 == p0.push(current@),
                        path_ok(m, root, p0, current@),
                        !p0.contains(current@),
                        !v0.contains(current@),
                        forall|x: Seq<char>| #[trigger] v0.contains(x) ==> views(visited@).contains(x),
                        views(visited@).contains(current@),
                        forall|x: Seq<char>| #[trigger] p1.contains(x) ==> views(visited@).contains(x),
                        cycles_ok(m, root, cycles@),
                        cycles@.len() >= c0.len(),
                        fuel >= 1,
                        unvisited(m, v0) <= fuel,
                        search_deps(
                            m,
                            (fuel - 1) as nat,
                            views(pkg.dependencies@),
                            i as nat,
                            p1,
                            views(visited@),
                            cycle_views(cycles@),
                        ) == search_from(m, fuel, current@, p0, v0, cycle_views(c0)),
                        cycles@.len() == 0 ==> {
                            &&& finish_order(m, views(visited@), p1, f)
                            &&& forall|a: int| 0 <= a < i ==> f.contains(#[trigger] pkg.dependencies@[a]@)
                            &&& forall|x: Seq<char>| #[trigger] fin.contains(x) ==> f.contains(x)
                        },
                    decreases pkg.dependencies@.len() - i,
                {
                    proof {
                        lemma_unvisited_drops(m, v0, views(visited@), current@);
                        assert(views(pkg.dependencies@)[i as int] == pkg.dependencies@[i as int]@);
                        let d = pkg.dependencies@[i as int]@;
                        assert(edge(m, current@, d));
                        lemma_reaches_step(m, root, current@, d, p0.len());
                        assert forall|a: int| 0 <= a < p1.len() implies reaches(m, root, #[trigger] p1[a], a as nat) by {
                            if a < p0.len() {
                                assert(p1[a] == p0[a]);
                            }
                        }
                        assert forall|a: int| 0 <= a < p1.len() - 1 implies edge(m, #[trigger] p1[a], p1[a + 1]) by {
                            if a < p0.len() - 1 {
                                assert(p1[a] == p0[a] && p1[a + 1] == p0[a + 1]);
                            } else {
                                assert(p1[a] == p0.last() && p1[a + 1] == current@);
                            }
                        }
                        assert(p1.no_duplicates());
                    }
                    let ghost fb = f;
                    let g = Self::visit_for_cycles(
                        &pkg.dependencies[i],
                        path,
                        visited,
                        index,
                        cycles,
                        Ghost(root),
                        Ghost(f),
                        Ghost((fuel - 1) as nat),
                    );
                    proof {
                        f = g@;
                    }
                    i = i + 1;
                }
            },
            None => {},
        }
        proof {
            assert(pv1.drop_last() =~= pv0);
        }
        path.pop();
        proof {
            assert(path@ =~= pv0);
            assert(views(path@) =~= p0);
            if cycles@.len() == 0 {
                assert(!f.contains(current@));
                let f2 = f.push(current@);
                assert(f2[f.len() as int] == current@);
                assert forall|x: Seq<char>| #[trigger] f2.contains(x) <==> f.contains(x) || x == current@ by {
                    if f2.contains(x) {
                        let i = choose|i: int| 0 <= i < f2.len() && f2[i] == x;
                        if i < f.len() {
                            assert(f[i] == x);
                        }
                    }
                    if f.contains(x) {
                        let i = choose|i: int| 0 <= i < f.len() && f[i] == x;
                        assert(f2[i] == x);
                    }
                }
                assert forall|a: int, w: Seq<char>|
                    0 <= a < f2.len() && #[trigger] edge(m, f2[a], w) implies exists|j: int|
                        0 <= j < a && #[trigger] f2[j] == w by {
                    if a < f.len() {
                        assert(f2[a] == f[a]);
                        let j = choose|j: int| 0 <= j < a && #[trigger] f[j] == w;
                        assert(f2[j] == w);
                    } else {
                        assert(f2[a] == current@);
                        let k = choose|k: int| 0 <= k < views(m[current@].dependencies@).len() && views(m[current@].dependencies@)[k] == w;
                        assert(f.contains(w));
                        let j = choose|j: int| 0 <= j < f.len() && f[j] == w;
                        assert(f2[j] == w);
                    }
                }
                f = f2;
            }
        }
        Ghost(f)
    }

    /// The dependency cycles met walking depth first from `package_name`.
    /// Every reported cycle is a cycle of the dependency graph through
    /// packages that `package_name` leads to, and some cycle is reported
    /// exactly when such a cycle exists.
    pub fn check_circular_dependencies(index: &PackageIndex, package_name: &str) -> (r: Result<
        Vec<Vec<String>>,
        UpmError,
    >)
        requires
            index.wf(),
        ensures
            r matches Ok(cs) && cycle_views(cs@) == search_cycles(index.view(), package_name@),
            r matches Ok(cs) && cycles_ok(index.view(), package_name@, cs@) && (cs@.len() > 0
                <==> has_cycle_from(index.view(), package_name@)),
    {
        let ghost m = index.view();
        let ghost root = package_name@;
        let mut cycles: Vec<Vec<String>> = Vec::new();
        let mut path: Vec<String> = Vec::new();
        let mut visited: Vec<String> = Vec::new();
        let name = package_name.to_owned();
        proof {
            crate::keyed::lemma_keyed_map_len(index.packages@);
            lemma_reaches_self(m, root);
            assert(views(path@) =~= Seq::<Seq<char>>::empty());
            assert(views(visited@) =~= Seq::<Seq<char>>::empty());
            assert(cycle_views(cycles@) =~= Seq::<Seq<Seq<char>>>::empty());
            assert(m.dom().difference(views(visited@).to_set()) =~= m.dom());
        }
        let fin = Self::visit_for_cycles(
            &name,
            &mut path,
            &mut visited,
            index,
            &mut cycles,
            Ghost(root),
            Ghost(Seq::empty()),
            Ghost(m.dom().len()),
        );
        proof {
            if cycles@.len() == 0 {
                lemma_finished_acyclic(m, root, fin@);
            } else {
                let c = views(cycles@[0]@);
                lemma_cycle_closes(m, c);
                assert(cycles@[0]@[0]@ == c[0]);
                assert(from_root(m, root, c[0]));
                assert(reaches(m, c[0], c[0], c.len()));
            }
        }
        Ok(cycles)
    }
}

} // verus!
