//! Sequences of records that are found again by their name: the names are
//! unique, and the sequence is read as a map from name to record.

use vstd::prelude::*;

verus! {

/// A record that carries a name by which a collection finds it.
pub trait Named {
    spec fn key(&self) -> Seq<char>;

    fn name_ref(&self) -> (r: &String)
        ensures
            r@ == self.key(),
    ;
}

/// No two records of `s` share a name.
pub open spec fn unique_keys<T: Named>(s: Seq<T>) -> bool {
    forall|i: int, j: int|
        0 <= i < s.len() && 0 <= j < s.len() && i != j ==> #[trigger] s[i].key() != #[trigger] s[j].key()
}

/// Some record of `s` has the name `k`.
pub open spec fn has_key<T: Named>(s: Seq<T>, k: Seq<char>) -> bool {
    exists|i: int| 0 <= i < s.len() && #[trigger] s[i].key() == k
}

/// A position of a record named `k` in `s` (the only one, where names are unique).
pub open spec fn pos_of<T: Named>(s: Seq<T>, k: Seq<char>) -> int {
    choose|i: int| 0 <= i < s.len() && #[trigger] s[i].key() == k
}

/// `s` read as a map from each name to the record that carries it.
pub closed spec fn keyed_map<T: Named>(s: Seq<T>) -> Map<Seq<char>, T> {
    Map::new(|k: Seq<char>| has_key(s, k), |k: Seq<char>| s[pos_of(s, k)])
}

/// In a sequence with unique names, the record at position `i` is the one
/// the map gives for its name.
pub proof fn lemma_keyed_map_at<T: Named>(s: Seq<T>, i: int)
    requires
        unique_keys(s),
        0 <= i < s.len(),
    ensures
        keyed_map(s).contains_key(s[i].key()),
        keyed_map(s)[s[i].key()] == s[i],
        pos_of(s, s[i].key()) == i,
{
    assert(has_key(s, s[i].key()));
    let p = pos_of(s, s[i].key());
    assert(s[p].key() == s[i].key());
}

/// The map's names are those of the records.
pub proof fn lemma_keyed_map_dom<T: Named>(s: Seq<T>, k: Seq<char>)
    ensures
        keyed_map(s).contains_key(k) <==> has_key(s, k),
{
}

/// The map of an empty sequence is empty.
pub proof fn lemma_keyed_map_empty<T: Named>(s: Seq<T>)
    requires
        s.len() == 0,
    ensures
        keyed_map(s) == Map::<Seq<char>, T>::empty(),
{
    assert(keyed_map(s) =~= Map::<Seq<char>, T>::empty());
}

/// The map's domain is finite, with one name per record.
pub proof fn lemma_keyed_map_len<T: Named>(s: Seq<T>)
    requires
        unique_keys(s),
    ensures
        keyed_map(s).dom().finite(),
        keyed_map(s).dom().len() == s.len(),
    decreases s.len(),
{
    if s.len() == 0 {
        assert(keyed_map(s).dom() =~= Set::<Seq<char>>::empty());
    } else {
        let t = s.drop_last();
        assert(unique_keys(t)) by {
            assert forall|i: int, j: int|
                0 <= i < t.len() && 0 <= j < t.len() && i != j implies #[trigger] t[i].key()
                != #[trigger] t[j].key() by {
                assert(t[i] == s[i] && t[j] == s[j]);
            }
        }
        lemma_keyed_map_len(t);
        let k = s.last().key();
        assert(keyed_map(s).dom() =~= keyed_map(t).dom().insert(k)) by {
            assert forall|x: Seq<char>| keyed_map(s).dom().contains(x) implies keyed_map(
                t,
            ).dom().contains(x) || x == k by {
                let i = choose|i: int| 0 <= i < s.len() && #[trigger] s[i].key() == x;
                if i < t.len() {
                    assert(t[i] == s[i]);
                }
            }
            assert forall|x: Seq<char>| keyed_map(t).dom().contains(x) implies keyed_map(
                s,
            ).dom().contains(x) by {
                let i = choose|i: int| 0 <= i < t.len() && #[trigger] t[i].key() == x;
                assert(s[i] == t[i]);
            }
            assert(s[s.len() - 1].key() == k);
        }
        assert(!keyed_map(t).dom().contains(k)) by {
            if keyed_map(t).dom().contains(k) {
                let i = choose|i: int| 0 <= i < t.len() && #[trigger] t[i].key() == k;
                assert(t[i] == s[i]);
                assert(s[i].key() == s[s.len() - 1].key());
            }
        }
    }
}

/// Appending a record with a new name adds that name to the map.
pub proof fn lemma_keyed_map_push<T: Named>(s: Seq<T>, x: T)
    requires
        unique_keys(s),
        !has_key(s, x.key()),
    ensures
        unique_keys(s.push(x)),
        keyed_map(s.push(x)) == keyed_map(s).insert(x.key(), x),
{
    let t = s.push(x);
    assert forall|i: int, j: int|
        0 <= i < t.len() && 0 <= j < t.len() && i != j implies #[trigger] t[i].key()
        != #[trigger] t[j].key() by {
        if i < s.len() && j < s.len() {
            assert(t[i] == s[i] && t[j] == s[j]);
        } else if i < s.len() {
            assert(t[i] == s[i]);
        } else if j < s.len() {
            assert(t[j] == s[j]);
        }
    }
    assert(keyed_map(t) =~= keyed_map(s).insert(x.key(), x)) by {
        assert forall|k: Seq<char>| #[trigger] keyed_map(t).contains_key(k) <==> keyed_map(
            s,
        ).insert(x.key(), x).contains_key(k) by {
            if has_key(s, k) {
                let i = choose|i: int| 0 <= i < s.len() && #[trigger] s[i].key() == k;
                assert(t[i] == s[i]);
            }
            if has_key(t, k) && k != x.key() {
                let i = choose|i: int| 0 <= i < t.len() && #[trigger] t[i].key() == k;
                assert(t[i] == s[i]);
            }
            assert(t[s.len() as int] == x);
        }
        assert forall|k: Seq<char>| #[trigger] keyed_map(t).contains_key(k) implies keyed_map(
            t,
        )[k] == keyed_map(s).insert(x.key(), x)[k] by {
            let i = choose|i: int| 0 <= i < t.len() && #[trigger] t[i].key() == k;
            lemma_keyed_map_at(t, i);
            if i < s.len() {
                assert(t[i] == s[i]);
                lemma_keyed_map_at(s, i);
            } else {
                assert(t[i] == x);
            }
        }
    }
}

/// Replacing the record at position `i` by one of the same name replaces
/// the map's value for that name.
pub proof fn lemma_keyed_map_update<T: Named>(s: Seq<T>, i: int, x: T)
    requires
        unique_keys(s),
        0 <= i < s.len(),
        s[i].key() == x.key(),
    ensures
        unique_keys(s.update(i, x)),
        keyed_map(s.update(i, x)) == keyed_map(s).insert(x.key(), x),
{
    let t = s.update(i, x);
    assert forall|a: int, b: int|
        0 <= a < t.len() && 0 <= b < t.len() && a != b implies #[trigger] t[a].key()
        != #[trigger] t[b].key() by {
        assert(t[a].key() == s[a].key());
        assert(t[b].key() == s[b].key());
    }
    assert(keyed_map(t) =~= keyed_map(s).insert(x.key(), x)) by {
        assert forall|k: Seq<char>| #[trigger] keyed_map(t).contains_key(k) <==> keyed_map(
            s,
        ).insert(x.key(), x).contains_key(k) by {
            if has_key(s, k) {
                let a = choose|a: int| 0 <= a < s.len() && #[trigger] s[a].key() == k;
                assert(t[a].key() == s[a].key());
            }
            if has_key(t, k) {
                let a = choose|a: int| 0 <= a < t.len() && #[trigger] t[a].key() == k;
                assert(t[a].key() == s[a].key());
            }
            assert(t[i] == x);
        }
        assert forall|k: Seq<char>| #[trigger] keyed_map(t).contains_key(k) implies keyed_map(
            t,
        )[k] == keyed_map(s).insert(x.key(), x)[k] by {
            let a = choose|a: int| 0 <= a < t.len() && #[trigger] t[a].key() == k;
            lemma_keyed_map_at(t, a);
            if a != i {
                assert(t[a] == s[a]);
                lemma_keyed_map_at(s, a);
            }
        }
    }
}

/// Removing the record at position `i` removes its name from the map.
pub proof fn lemma_keyed_map_remove<T: Named>(s: Seq<T>, i: int)
    requires
        unique_keys(s),
        0 <= i < s.len(),
    ensures
        unique_keys(s.remove(i)),
        keyed_map(s.remove(i)) == keyed_map(s).remove(s[i].key()),
{
    let t = s.remove(i);
    let k0 = s[i].key();
    assert forall|a: int| 0 <= a < t.len() implies #[trigger] t[a] == (if a < i {
        s[a]
    } else {
        s[a + 1]
    }) by {}
    assert forall|a: int, b: int|
        0 <= a < t.len() && 0 <= b < t.len() && a != b implies #[trigger] t[a].key()
        != #[trigger] t[b].key() by {
        let a1 = if a < i { a } else { a + 1 };
        let b1 = if b < i { b } else { b + 1 };
        assert(t[a] == s[a1]);
        assert(t[b] == s[b1]);
    }
    assert(keyed_map(t) =~= keyed_map(s).remove(k0)) by {
        assert forall|k: Seq<char>| #[trigger] keyed_map(t).contains_key(k) <==> keyed_map(
            s,
        ).remove(k0).contains_key(k) by {
            if has_key(t, k) {
                let a = choose|a: int| 0 <= a < t.len() && #[trigger] t[a].key() == k;
                let a1 = if a < i { a } else { a + 1 };
                assert(t[a] == s[a1]);
            }
            if has_key(s, k) && k != k0 {
                let a = choose|a: int| 0 <= a < s.len() && #[trigger] s[a].key() == k;
                if a < i {
                    assert(t[a] == s[a]);
                } else {
                    assert(t[a - 1] == s[a]);
                }
            }
        }
        assert forall|k: Seq<char>| #[trigger] keyed_map(t).contains_key(k) implies keyed_map(
            t,
        )[k] == keyed_map(s).remove(k0)[k] by {
            let a = choose|a: int| 0 <= a < t.len() && #[trigger] t[a].key() == k;
            let a1 = if a < i { a } else { a + 1 };
            assert(t[a] == s[a1]);
            lemma_keyed_map_at(t, a);
            lemma_keyed_map_at(s, a1);
        }
    }
}

/// The position of the record named `k` in `v`, if there is one.
pub fn find_pos<T: Named>(v: &Vec<T>, k: &String) -> (r: Option<usize>)
    ensures
        match r {
            Some(i) => i < v.len() && v@[i as int].key() == k@,
            None => !has_key(v@, k@),
        },
{
    let mut i: usize = 0;
    while i < v.len()
        invariant
            i <= v.len(),
            forall|j: int| 0 <= j < i ==> #[trigger] v@[j].key() != k@,
        decreases v.len() - i,
    {
        if *v[i].name_ref() == *k {
            return Some(i);
        }
        i = i + 1;
    }
    None
}

} // verus!
