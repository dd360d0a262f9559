//! The dependency graph that an index describes: an edge runs from each
//! listed package to each name in its dependency list.

use vstd::prelude::*;

use crate::package::index::IndexPackage;
use crate::text::views;

verus! {

/// `b` is named in the dependency list of the package `a` of `m`.
pub open spec fn edge(m: Map<Seq<char>, IndexPackage>, a: Seq<char>, b: Seq<char>) -> bool {
    m.contains_key(a) && views(m[a].dependencies@).contains(b)
}

/// Each name of `p` has an edge to the next.
pub open spec fn is_walk(m: Map<Seq<char>, IndexPackage>, p: Seq<Seq<char>>) -> bool {
    forall|i: int| 0 <= i < p.len() - 1 ==> edge(m, #[trigger] p[i], p[i + 1])
}

/// A walk of exactly `k` edges leads from `from` to `to`.
pub open spec fn reaches(
    m: Map<Seq<char>, IndexPackage>,
    from: Seq<char>,
    to: Seq<char>,
    k: nat,
) -> bool {
    exists|p: Seq<Seq<char>>|
        #![trigger is_walk(m, p)]
        p.len() == k + 1 && p[0] == from && p[k as int] == to && is_walk(m, p)
}

/// A walk of one edge or more leads from `from` to `to`.
pub open spec fn reachable(m: Map<Seq<char>, IndexPackage>, from: Seq<char>, to: Seq<char>) -> bool {
    exists|k: nat| k >= 1 && #[trigger] reaches(m, from, to, k)
}

/// Every name reaches itself by no edge.
pub proof fn lemma_reaches_self(m: Map<Seq<char>, IndexPackage>, a: Seq<char>)
    ensures
        reaches(m, a, a, 0),
{
    let p = seq![a];
    assert(is_walk(m, p));
}

/// A walk extended by one edge.
pub proof fn lemma_reaches_step(
    m: Map<Seq<char>, IndexPackage>,
    from: Seq<char>,
    a: Seq<char>,
    b: Seq<char>,
    k: nat,
)
    requires
        reaches(m, from, a, k),
        edge(m, a, b),
    ensures
        reaches(m, from, b, k + 1),
{
    let p = choose|p: Seq<Seq<char>>|
        #![trigger is_walk(m, p)]
        p.len() == k + 1 && p[0] == from && p[k as int] == a && is_walk(m, p);
    let q = p.push(b);
    assert forall|i: int| 0 <= i < q.len() - 1 implies edge(m, #[trigger] q[i], q[i + 1]) by {
        if i < k {
            assert(q[i] == p[i] && q[i + 1] == p[i + 1]);
        } else {
            assert(q[i] == a && q[i + 1] == b);
        }
    }
    assert(q[(k + 1) as int] == b);
    assert(q[0] == from);
    assert(is_walk(m, q));
    assert(q.len() == k + 1 + 1);
}

/// The last edge of a walk of `k + 1` edges.
pub proof fn lemma_reaches_last_edge(
    m: Map<Seq<char>, IndexPackage>,
    from: Seq<char>,
    b: Seq<char>,
    k: nat,
) -> (a: Seq<char>)
    requires
        reaches(m, from, b, k + 1),
    ensures
        reaches(m, from, a, k),
        edge(m, a, b),
{
    let p = choose|p: Seq<Seq<char>>|
        #![trigger is_walk(m, p)]
        p.len() == k + 2 && p[0] == from && p[(k + 1) as int] == b && is_walk(m, p);
    let q = p.take((k + 1) as int);
    assert forall|i: int| 0 <= i < q.len() - 1 implies edge(m, #[trigger] q[i], q[i + 1]) by {
        assert(q[i] == p[i] && q[i + 1] == p[i + 1]);
        assert(edge(m, p[i], p[i + 1]));
    }
    assert(edge(m, p[k as int], p[(k + 1) as int]));
    assert(is_walk(m, q));
    assert(q[k as int] == p[k as int]);
    p[k as int]
}

/// In a set of names closed under edges, everything reachable from a member
/// is a member.
pub proof fn lemma_closed_holds_reachable(
    m: Map<Seq<char>, IndexPackage>,
    root: Seq<char>,
    vs: Seq<Seq<char>>,
    w: Seq<char>,
    k: nat,
)
    requires
        vs.contains(root),
        forall|v: Seq<char>, x: Seq<char>| vs.contains(v) && #[trigger] edge(m, v, x) ==> vs.contains(x),
        reaches(m, root, w, k),
    ensures
        vs.contains(w),
    decreases k,
{
    if k == 0 {
        let p = choose|p: Seq<Seq<char>>|
            #![trigger is_walk(m, p)]
            p.len() == k + 1 && p[0] == root && p[k as int] == w && is_walk(m, p);
        assert(w == root);
    } else {
        let a = lemma_reaches_last_edge(m, root, w, (k - 1) as nat);
        lemma_closed_holds_reachable(m, root, vs, a, (k - 1) as nat);
    }
}

/// A walk of no edges stays where it starts.
pub proof fn lemma_reaches_zero(m: Map<Seq<char>, IndexPackage>, a: Seq<char>, b: Seq<char>)
    requires
        reaches(m, a, b, 0),
    ensures
        a == b,
{
    let p = choose|p: Seq<Seq<char>>|
        #![trigger is_walk(m, p)]
        p.len() == 1 && p[0] == a && p[0] == b && is_walk(m, p);
}

} // verus!
