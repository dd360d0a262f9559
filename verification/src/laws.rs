//! Properties that relate the library's operations to one another.

use vstd::prelude::*;

use crate::api::github::{encode_char, hex_upper_char, unreserved, url_encoded};
use crate::database::{InstalledPackage, PackageDatabase};
use crate::groq::{cleaned, kept_char};
use crate::keyed::lemma_keyed_map_len;
use crate::package::cycles::{is_cycle, lemma_search_deps_closing, position_in, search_from};
use crate::package::graph::{edge, is_walk, reachable, reaches};
use crate::package::index::{matches_query, IndexPackage, PackageIndex};
use crate::package::manifest::{lists_platform, support_family, validation_family};
use crate::package::resolver::{is_resolution, shortest};
use crate::rollback::{numbered, numbered_ids, RollbackPoint};
use crate::text::{ends_with, lemma_zero_padded_value, lowercase, views, zero_padded};
use crate::path::path_join;
use crate::setup::rc_candidates;

verus! {

/// Right after a package is listed, finding its name gives it back, and
/// every other name finds what it found before.
pub proof fn law_index_find_after_add(before: PackageIndex, after: PackageIndex, p: IndexPackage)
    requires
        before.wf(),
        after.view() == before.view().insert(p.name@, p),
    ensures
        after.view().contains_key(p.name@),
        after.view()[p.name@] == p,
        forall|k: Seq<char>|
            k != p.name@ ==> (#[trigger] after.view().contains_key(k) <==> before.view().contains_key(k)),
        forall|k: Seq<char>|
            k != p.name@ && #[trigger] before.view().contains_key(k) ==> after.view()[k] == before.view()[k],
{
}

/// Listing a new name adds one to the package count; listing a known name
/// again leaves the count as it was.
pub proof fn law_index_count_after_add(before: PackageIndex, after: PackageIndex, p: IndexPackage)
    requires
        before.wf(),
        after.view() == before.view().insert(p.name@, p),
    ensures
        !before.view().contains_key(p.name@) ==> after.view().dom().len() == before.view().dom().len() + 1,
        before.view().contains_key(p.name@) ==> after.view().dom().len() == before.view().dom().len(),
{
    lemma_keyed_map_len(before.packages@);
    if before.view().contains_key(p.name@) {
        assert(after.view().dom() =~= before.view().dom());
    } else {
        assert(after.view().dom() =~= before.view().dom().insert(p.name@));
    }
}

/// Recording a package installs it; removing it again uninstalls it and
/// gives back the database it came from.
pub proof fn law_db_remove_undoes_add(
    before: PackageDatabase,
    mid: PackageDatabase,
    after: PackageDatabase,
    p: InstalledPackage,
)
    requires
        !before.view().contains_key(p.name@),
        mid.view() == before.view().insert(p.name@, p),
        after.view() == mid.view().remove(p.name@),
    ensures
        mid.view().contains_key(p.name@),
        mid.view()[p.name@] == p,
        !after.view().contains_key(p.name@),
        after.view() == before.view(),
{
    assert(after.view() =~= before.view());
}

/// A walk's length from `root` to a name is the shortest in one way only.
pub proof fn law_shortest_unique(
    m: Map<Seq<char>, IndexPackage>,
    root: Seq<char>,
    n: Seq<char>,
    k1: nat,
    k2: nat,
)
    requires
        shortest(m, root, n, k1),
        shortest(m, root, n, k2),
    ensures
        k1 == k2,
{
    if k1 < k2 {
        assert(!reaches(m, root, n, k1));
    } else if k2 < k1 {
        assert(!reaches(m, root, n, k2));
    }
}

/// `r` holds an entry for the same package as `e`, at the same depth, with
/// the same version and source.
pub open spec fn holds_entry(
    r: Seq<crate::package::resolver::ResolvedDependency>,
    e: crate::package::resolver::ResolvedDependency,
) -> bool {
    exists|j: int|
        0 <= j < r.len() && #[trigger] r[j].name@ == e.name@ && r[j].depth == e.depth && r[j].version
            == e.version && r[j].source == e.source
}

/// Two resolutions of the same package against the same index and
/// installed packages hold the same packages at the same depths: only their
/// order within a depth can differ.
pub proof fn law_resolution_determined(
    m: Map<Seq<char>, IndexPackage>,
    installed: Map<Seq<char>, InstalledPackage>,
    root: Seq<char>,
    r1: Seq<crate::package::resolver::ResolvedDependency>,
    r2: Seq<crate::package::resolver::ResolvedDependency>,
)
    requires
        is_resolution(m, installed, root, r1),
        is_resolution(m, installed, root, r2),
    ensures
        forall|i: int| 0 <= i < r1.len() ==> holds_entry(r2, #[trigger] r1[i]),
{
    assert forall|i: int| 0 <= i < r1.len() implies holds_entry(r2, #[trigger] r1[i]) by {
        let n = r1[i].name@;
        assert(m.contains_key(n));
        assert(reaches(m, root, n, (r1[i].depth + 1) as nat));
        assert(reachable(m, root, n));
        let j = choose|j: int| 0 <= j < r2.len() && #[trigger] r2[j].name@ == n;
        law_shortest_unique(m, root, n, (r1[i].depth + 1) as nat, (r2[j].depth + 1) as nat);
    }
}

/// Once every package of a resolution is installed, resolving the same
/// package again needs nothing more.
pub proof fn law_resolution_installed_leaves_nothing(
    m: Map<Seq<char>, IndexPackage>,
    installed: Map<Seq<char>, InstalledPackage>,
    installed2: Map<Seq<char>, InstalledPackage>,
    root: Seq<char>,
    r: Seq<crate::package::resolver::ResolvedDependency>,
    r2: Seq<crate::package::resolver::ResolvedDependency>,
)
    requires
        is_resolution(m, installed, root, r),
        forall|k: Seq<char>| #[trigger] installed.contains_key(k) ==> installed2.contains_key(k),
        forall|i: int| 0 <= i < r.len() ==> installed2.contains_key(#[trigger] r[i].name@),
        is_resolution(m, installed2, root, r2),
    ensures
        r2.len() == 0,
{
    if r2.len() > 0 {
        let n = r2[0].name@;
        assert(m.contains_key(n));
        assert(reaches(m, root, n, (r2[0].depth + 1) as nat));
        assert(reachable(m, root, n));
        assert(!installed.contains_key(n));
        let i = choose|i: int| 0 <= i < r.len() && #[trigger] r[i].name@ == n;
        assert(installed2.contains_key(r[i].name@));
    }
}

/// A reported cycle is a closed walk: its first package leads back to
/// itself in as many steps as the cycle is long.
pub proof fn law_cycle_closes(m: Map<Seq<char>, IndexPackage>, c: Seq<Seq<char>>)
    requires
        is_cycle(m, c),
    ensures
        reaches(m, c[0], c[0], c.len()),
{
    let p = c.push(c[0]);
    assert forall|i: int| 0 <= i < p.len() - 1 implies edge(m, #[trigger] p[i], p[i + 1]) by {
        if i < c.len() - 1 {
            assert(p[i] == c[i] && p[i + 1] == c[i + 1]);
        } else {
            assert(p[i] == c.last() && p[i + 1] == c[0]);
        }
    }
    assert(is_walk(m, p));
    assert(p[c.len() as int] == c[0]);
}

/// A manifest that validates on a system whose family is known also
/// declares support for that system.
pub proof fn law_valid_manifest_supported(platforms: Seq<String>, os: Seq<char>)
    requires
        validation_family(os) != "unknown"@,
        lists_platform(platforms, validation_family(os)),
    ensures
        lists_platform(platforms, support_family(os)),
{
    reveal_strlit("linux");
    reveal_strlit("windows");
    reveal_strlit("macos");
    reveal_strlit("freebsd");
    reveal_strlit("netbsd");
    reveal_strlit("openbsd");
    reveal_strlit("bsd");
    reveal_strlit("unknown");
    assert(validation_family(os) == support_family(os));
}

/// Cleaning a reply keeps only the characters it keeps, so cleaning twice
/// is cleaning once.
pub proof fn law_clean_idempotent(s: Seq<char>)
    ensures
        forall|i: int| 0 <= i < cleaned(s).len() ==> kept_char(#[trigger] cleaned(s)[i]),
        cleaned(cleaned(s)) == cleaned(s),
    decreases s.len(),
{
    if s.len() > 0 {
        law_clean_idempotent(s.drop_last());
        let t = cleaned(s.drop_last());
        if kept_char(s.last()) {
            assert(cleaned(s) == t.push(s.last()));
            assert(t.push(s.last()).drop_last() =~= t);
            assert(forall|i: int| 0 <= i < t.len() ==> #[trigger] t.push(s.last())[i] == t[i]);
        }
    }
}

/// A character that can stand in an encoded URL query: an unreserved one,
/// '+', '%' or an upper-case hexadecimal digit.
pub open spec fn url_safe(c: char) -> bool {
    unreserved(c) || c == '+' || c == '%' || ('0' <= c && c <= '9') || ('A' <= c && c <= 'F')
}

/// URL encoding leaves only characters that are safe in a query.
pub proof fn law_url_encoded_safe(s: Seq<char>)
    ensures
        forall|i: int| 0 <= i < url_encoded(s).len() ==> url_safe(#[trigger] url_encoded(s)[i]),
    decreases s.len(),
{
    if s.len() > 0 {
        law_url_encoded_safe(s.drop_last());
        let t = url_encoded(s.drop_last());
        let e = encode_char(s.last());
        assert(url_encoded(s) == t + e);
        assert forall|j: int| 0 <= j < 16 implies url_safe(#[trigger] hex_upper_char(j)) by {
            let d = seq!['0', '1', '2', '3', '4', '5', '6', '7', '8', '9', 'A', 'B', 'C', 'D', 'E', 'F'];
            assert(hex_upper_char(j) == d[j]);
        }
        let c = s.last();
        if !unreserved(c) && c != ' ' {
            let b = (c as u32) as int % 256;
            assert(0 <= b / 16 < 16);
            assert(0 <= b % 16 < 16);
            assert(url_safe(hex_upper_char(b / 16)));
            assert(url_safe(hex_upper_char(b % 16)));
        }
        assert forall|i: int| 0 <= i < e.len() implies url_safe(#[trigger] e[i]) by {}
        assert forall|i: int| 0 <= i < url_encoded(s).len() implies url_safe(#[trigger] url_encoded(s)[i]) by {
            if i < t.len() {
                assert(url_encoded(s)[i] == t[i]);
            } else {
                assert(url_encoded(s)[i] == e[i - t.len()]);
            }
        }
    }
}

/// An identifier carries one number only: numbered `a` and numbered `b`
/// means `a` is `b`.
pub proof fn law_numbered_once(id: Seq<char>, a: nat, b: nat)
    requires
        numbered(id, a),
        numbered(id, b),
    ensures
        a == b,
{
    let za = zero_padded(a, 4);
    let zb = zero_padded(b, 4);
    lemma_zero_padded_value(a, 4);
    lemma_zero_padded_value(b, 4);
    let l = id.len() as int;
    if za.len() < zb.len() {
        let p = l - za.len() - 1;
        assert(id.subrange(l - zb.len(), l)[p - (l - zb.len())] == id[p]);
        assert(zb[p - (l - zb.len())] != '_');
    } else if zb.len() < za.len() {
        let p = l - zb.len() - 1;
        assert(id.subrange(l - za.len(), l)[p - (l - za.len())] == id[p]);
        assert(za[p - (l - za.len())] != '_');
    }
    assert(za == zb);
}

/// Rollback points made one after another, from an empty manager, through
/// any number of `create_point` and `finalize_point` calls, keep their
/// identifiers numbered by position (each of those calls keeps
/// `numbered_ids`), so no two identifiers are the same.
pub proof fn law_rollback_ids_distinct(points: Seq<RollbackPoint>)
    requires
        numbered_ids(points),
    ensures
        forall|i: int, j: int| 0 <= i < j < points.len() ==> #[trigger] points[i].id@ != #[trigger] points[j].id@,
{
    assert forall|i: int, j: int| 0 <= i < j < points.len() implies #[trigger] points[i].id@ != #[trigger] points[j].id@ by {
        if points[i].id@ == points[j].id@ {
            law_numbered_once(points[i].id@, i as nat, j as nat);
        }
    }
}

/// The depth-first cycle search reports every cycle it closes: when it
/// visits a listed name `x` that it has not met, with `path` the names on
/// the way there, each dependency `d` of `x` that is on the way (at
/// position `k`, `x` itself included) closes a cycle, and the stretch of
/// the way from position `k` on, through `x`, is among the cycles reported.
pub proof fn law_search_reports_every_closing_edge(
    m: Map<Seq<char>, IndexPackage>,
    fuel: nat,
    x: Seq<char>,
    path: Seq<Seq<char>>,
    visited: Seq<Seq<char>>,
    found: Seq<Seq<Seq<char>>>,
    d: Seq<char>,
    k: int,
)
    requires
        m.contains_key(x),
        !path.contains(x),
        path.no_duplicates(),
        !visited.contains(x),
        fuel > 0,
        views(m[x].dependencies@).contains(d),
        0 <= k <= path.len(),
        path.push(x)[k] == d,
    ensures
        search_from(m, fuel, x, path, visited, found).1.contains(path.push(x).subrange(k, path.len() + 1int)),
{
    let deps = views(m[x].dependencies@);
    let p1 = path.push(x);
    let j = choose|j: int| 0 <= j < deps.len() && deps[j] == d;
    assert(p1.contains(d));
    lemma_search_deps_closing(m, (fuel - 1) as nat, deps, 0, p1, visited.push(x), found);
    assert(deps[j] == d);
    let q = position_in(p1, d);
    assert(p1[q] == d);
    assert(p1.no_duplicates()) by {
        assert forall|a: int, b: int| 0 <= a < b < p1.len() implies p1[a] != p1[b] by {
            if b == path.len() {
                assert(path.contains(p1[a])) by { assert(path[a] == p1[a]); }
            } else {
                assert(p1[a] == path[a] && p1[b] == path[b]);
            }
        }
    }
    assert(q == k);
}

/// A manifest listing the running system's own name (Linux, Windows or
/// macOS) validates on it and supports it; one listing "bsd" does on
/// FreeBSD, NetBSD and OpenBSD.
pub proof fn law_own_platform_accepted(platforms: Seq<String>, os: Seq<char>, i: int)
    requires
        0 <= i < platforms.len(),
        os == "linux"@ || os == "windows"@ || os == "macos"@ ==> lowercase(platforms[i]@) == os,
        os == "freebsd"@ || os == "netbsd"@ || os == "openbsd"@ ==> lowercase(platforms[i]@) == "bsd"@,
        os == "linux"@ || os == "windows"@ || os == "macos"@ || os == "freebsd"@ || os == "netbsd"@ || os
            == "openbsd"@,
    ensures
        lists_platform(platforms, validation_family(os)),
        lists_platform(platforms, support_family(os)),
{
    reveal_strlit("linux");
    reveal_strlit("windows");
    reveal_strlit("macos");
    reveal_strlit("freebsd");
    reveal_strlit("netbsd");
    reveal_strlit("openbsd");
    reveal_strlit("bsd");
    assert(lowercase(platforms[i]@) == validation_family(os));
    assert(lowercase(platforms[i]@) == support_family(os));
}

/// A package matches a query when its lower-cased name or description
/// contains the lower-cased query anywhere, as a contiguous run.
pub proof fn law_query_matches_anywhere(p: IndexPackage, query: Seq<char>, i: int)
    requires
        0 <= i,
        i + lowercase(query).len() <= lowercase(p.name@).len() && lowercase(p.name@).subrange(
            i,
            i + lowercase(query).len(),
        ) == lowercase(query) || i + lowercase(query).len() <= lowercase(p.description@).len()
            && lowercase(p.description@).subrange(i, i + lowercase(query).len()) == lowercase(query),
    ensures
        matches_query(p, query),
{
}

/// The shell start-up files: fish's for a fish shell, zsh's (`.zshrc`,
/// `.zshenv`, `.zprofile`) only for a shell whose path ends in "zsh", and
/// `.bashrc`, `.bash_profile`, `.profile`, in that order, for any other,
/// bash among them.
pub proof fn law_shell_startup_files(shell: Seq<char>, home: Seq<char>)
    ensures
        ends_with(shell, "zsh"@) ==> rc_candidates(shell, home) == seq![
            path_join(home, ".zshrc"@),
            path_join(home, ".zshenv"@),
            path_join(home, ".zprofile"@),
        ],
        !ends_with(shell, "zsh"@) && !ends_with(shell, "fish"@) ==> rc_candidates(shell, home) == seq![
            path_join(home, ".bashrc"@),
            path_join(home, ".bash_profile"@),
            path_join(home, ".profile"@),
        ],
        ends_with(shell, "bash"@) ==> rc_candidates(shell, home) == seq![
            path_join(home, ".bashrc"@),
            path_join(home, ".bash_profile"@),
            path_join(home, ".profile"@),
        ],
{
    reveal_strlit("zsh");
    reveal_strlit("fish");
    reveal_strlit("bash");
    if ends_with(shell, "zsh"@) {
        let n = shell.len();
        assert(shell.subrange(n - 3, n as int)[0] == 'z');
        if ends_with(shell, "fish"@) {
            assert(shell.subrange(n - 4, n as int)[1] == shell[n - 3]);
            assert(shell.subrange(n - 3, n as int)[0] == shell[n - 3]);
        }
    }
    if ends_with(shell, "bash"@) {
        let n = shell.len();
        assert(shell.subrange(n - 4, n as int)[1] == shell[n - 3]);
        assert(shell[n - 3] == 'a');
        if ends_with(shell, "zsh"@) {
            assert(shell.subrange(n - 3, n as int)[0] == shell[n - 3]);
        }
        if ends_with(shell, "fish"@) {
            assert(shell.subrange(n - 4, n as int)[0] == shell[n - 4]);
        }
    }
}

} // verus!
