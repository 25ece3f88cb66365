//! Association lists with mathematical map and set views.
//!
//! The index keeps its collections as vectors of entries with pairwise
//! distinct keys; contracts speak of them through [`amap`], the finite map
//! they denote, and [`aset`], the finite set a member list denotes.

use vstd::prelude::*;

verus! {

/// Key equality decided through the views: the executable comparison agrees
/// with mathematical equality of the values the keys denote.
pub trait KeyEq: View + Sized {
    /// The two keys denote the same value.
    fn key_eq(&self, other: &Self) -> (r: bool)
        ensures
            r == (self@ == other@),
    ;
}

/// The finite map an association list denotes: later entries win.
pub open spec fn amap<K: View, V: View>(s: Seq<(K, V)>) -> Map<K::V, V::V>
    decreases s.len(),
{
    if s.len() == 0 {
        Map::empty()
    } else {
        amap(s.drop_last()).insert(s.last().0@, s.last().1@)
    }
}

/// The keys of the list are pairwise distinct.
pub open spec fn akeys_unique<K: View, V>(s: Seq<(K, V)>) -> bool {
    forall|i: int, j: int| 0 <= i < j < s.len() ==> s[i].0@ != s[j].0@
}

/// A key is in the map exactly when some entry carries it.
pub proof fn lemma_amap_dom<K: View, V: View>(s: Seq<(K, V)>, k: K::V)
    ensures
        amap(s).contains_key(k) <==> exists|i: int| 0 <= i < s.len() && s[i].0@ == k,
    decreases s.len(),
{
    if s.len() > 0 {
        lemma_amap_dom(s.drop_last(), k);
        if s.last().0@ == k {
            assert(s[s.len() - 1].0@ == k);
        } else if amap(s).contains_key(k) {
            let i = choose|i: int| 0 <= i < s.drop_last().len() && s.drop_last()[i].0@ == k;
            assert(s[i].0@ == k);
        } else {
            assert forall|i: int| 0 <= i < s.len() implies s[i].0@ != k by {
                if i < s.len() - 1 {
                    assert(s.drop_last()[i].0@ != k);
                }
            }
        }
    }
}

/// With distinct keys, each entry is what the map holds at its key.
pub proof fn lemma_amap_at<K: View, V: View>(s: Seq<(K, V)>, i: int)
    requires
        akeys_unique(s),
        0 <= i < s.len(),
    ensures
        amap(s).contains_key(s[i].0@),
        amap(s)[s[i].0@] == s[i].1@,
    decreases s.len(),
{
    if i == s.len() - 1 {
        assert(s.last() == s[i]);
    } else {
        lemma_amap_at(s.drop_last(), i);
        assert(s.drop_last()[i] == s[i]);
        assert(s[i].0@ != s.last().0@);
    }
}

/// Replacing the entry at `i` by one with an equal key view updates the map
/// at that key.
pub proof fn lemma_amap_update<K: View, V: View>(s: Seq<(K, V)>, i: int, e: (K, V))
    requires
        akeys_unique(s),
        0 <= i < s.len(),
        e.0@ == s[i].0@,
    ensures
        akeys_unique(s.update(i, e)),
        amap(s.update(i, e)) == amap(s).insert(e.0@, e.1@),
    decreases s.len(),
{
    let t = s.update(i, e);
    assert forall|a: int, b: int| 0 <= a < b < t.len() implies t[a].0@ != t[b].0@ by {
        assert(s[a].0@ != s[b].0@);
    }
    if i == s.len() - 1 {
        assert(t.drop_last() =~= s.drop_last());
        assert(t.last() == e);
        assert(amap(t) == amap(s.drop_last()).insert(e.0@, e.1@));
        assert(amap(s).insert(e.0@, e.1@) == amap(s.drop_last()).insert(
            s.last().0@,
            s.last().1@,
        ).insert(e.0@, e.1@));
        assert(amap(s.drop_last()).insert(s.last().0@, s.last().1@).insert(e.0@, e.1@)
            =~= amap(s.drop_last()).insert(e.0@, e.1@));
    } else {
        assert(t.drop_last() =~= s.drop_last().update(i, e));
        assert(s.drop_last()[i] == s[i]);
        lemma_amap_update(s.drop_last(), i, e);
        assert(t.last() == s.last());
        assert(amap(t) == amap(s.drop_last()).insert(e.0@, e.1@).insert(
            s.last().0@,
            s.last().1@,
        ));
        assert(s[i].0@ != s.last().0@);
        assert(amap(s.drop_last()).insert(e.0@, e.1@).insert(s.last().0@, s.last().1@)
            =~= amap(s.drop_last()).insert(s.last().0@, s.last().1@).insert(e.0@, e.1@));
    }
}

/// Appending an entry with a fresh key view inserts it into the map.
pub proof fn lemma_amap_push<K: View, V: View>(s: Seq<(K, V)>, e: (K, V))
    requires
        akeys_unique(s),
        forall|i: int| 0 <= i < s.len() ==> s[i].0@ != e.0@,
    ensures
        akeys_unique(s.push(e)),
        amap(s.push(e)) == amap(s).insert(e.0@, e.1@),
{
    let t = s.push(e);
    assert forall|a: int, b: int| 0 <= a < b < t.len() implies t[a].0@ != t[b].0@ by {
        if b < s.len() {
            assert(s[a].0@ != s[b].0@);
        } else {
            assert(t[a].0@ == s[a].0@ && t[b].0@ == e.0@);
        }
    }
    assert(t.drop_last() =~= s);
    assert(t.last() == e);
}

/// With distinct keys the map has exactly one key per entry.
pub proof fn lemma_amap_len<K: View, V: View>(s: Seq<(K, V)>)
    requires
        akeys_unique(s),
    ensures
        amap(s).dom().finite(),
        amap(s).dom().len() == s.len(),
    decreases s.len(),
{
    if s.len() == 0 {
        assert(amap(s).dom() =~= Set::<K::V>::empty());
        broadcast use vstd::set::axiom_set_empty_len;
    } else {
        lemma_amap_len(s.drop_last());
        lemma_amap_dom(s.drop_last(), s.last().0@);
        assert forall|i: int| 0 <= i < s.drop_last().len() implies s.drop_last()[i].0@
            != s.last().0@ by {
            assert(s[i].0@ != s[s.len() - 1].0@);
        }
        assert(!amap(s.drop_last()).dom().contains(s.last().0@));
        assert(amap(s).dom() =~= amap(s.drop_last()).dom().insert(s.last().0@));
        vstd::set::axiom_set_insert_len(amap(s.drop_last()).dom(), s.last().0@);
    }
}

/// Finds the position of the entry carrying `key`.
fn afind<K: KeyEq, V>(list: &Vec<(K, V)>, key: &K) -> (r: Option<usize>)
    ensures
        match r {
            Some(i) => i < list@.len() && list@[i as int].0@ == key@,
            None => forall|i: int| 0 <= i < list@.len() ==> list@[i].0@ != key@,
        },
{
    let n = list.len();
    let mut i: usize = 0;
    while i < n
        invariant
            n == list@.len(),
            i <= n,
            forall|j: int| 0 <= j < i ==> list@[j].0@ != key@,
        decreases n - i,
    {
        if list[i].0.key_eq(key) {
            return Some(i);
        }
        i = i + 1;
    }
    None
}

/// Looks a key up in an association list with distinct keys.
pub fn aget<'a, K: KeyEq, V: View>(list: &'a Vec<(K, V)>, key: &K) -> (r: Option<&'a V>)
    requires
        akeys_unique(list@),
    ensures
        match r {
            Some(v) => amap(list@).contains_key(key@) && amap(list@)[key@] == v@,
            None => !amap(list@).contains_key(key@),
        },
{
    proof {
        lemma_amap_dom(list@, key@);
    }
    match afind(list, key) {
        Some(i) => {
            proof {
                lemma_amap_at(list@, i as int);
            }
            Some(&list[i].1)
        },
        None => None,
    }
}

/// Binds a key in an association list with distinct keys: the entry carrying
/// the key is replaced, or a fresh one appended.
pub fn abind<K: KeyEq, V: View>(list: &mut Vec<(K, V)>, key: K, val: V)
    requires
        akeys_unique(old(list)@),
    ensures
        akeys_unique(final(list)@),
        amap(final(list)@) == amap(old(list)@).insert(key@, val@),
        final(list)@.len() == if amap(old(list)@).contains_key(key@) {
            old(list)@.len()
        } else {
            old(list)@.len() + 1
        },
{
    proof {
        lemma_amap_dom(list@, key@);
    }
    match afind(list, &key) {
        Some(i) => {
            proof {
                lemma_amap_update(list@, i as int, (key, val));
            }
            list.set(i, (key, val));
        },
        None => {
            proof {
                lemma_amap_push(list@, (key, val));
            }
            list.push((key, val));
        },
    }
}

/// The finite set a member list denotes.
pub open spec fn aset<T: View>(s: Seq<T>) -> Set<T::V> {
    Set::new(|x: T::V| exists|i: int| 0 <= i < s.len() && s[i]@ == x)
}

/// Whether some member denotes `v`.
pub fn aset_contains<T: KeyEq>(list: &Vec<T>, v: &T) -> (r: bool)
    ensures
        r == aset(list@).contains(v@),
{
    let n = list.len();
    let mut i: usize = 0;
    while i < n
        invariant
            n == list@.len(),
            i <= n,
            forall|j: int| 0 <= j < i ==> list@[j]@ != v@,
        decreases n - i,
    {
        if list[i].key_eq(v) {
            return true;
        }
        i = i + 1;
    }
    false
}

/// Adds a member, keeping the list free of duplicates it already avoids.
pub fn aset_insert<T: KeyEq>(list: &mut Vec<T>, v: T)
    ensures
        aset(final(list)@) == aset(old(list)@).insert(v@),
{
    if !aset_contains(list, &v) {
        let ghost before = list@;
        list.push(v);
        proof {
            assert forall|x: <T as View>::V| aset(list@).contains(x) <==> aset(
                before,
            ).insert(v@).contains(x) by {
                if aset(before).insert(v@).contains(x) {
                    if x == v@ {
                        assert(list@[list@.len() - 1]@ == x);
                    } else {
                        let i = choose|i: int| 0 <= i < before.len() && before[i]@ == x;
                        assert(list@[i]@ == x);
                    }
                } else if aset(list@).contains(x) {
                    let i = choose|i: int| 0 <= i < list@.len() && list@[i]@ == x;
                    if i < before.len() {
                        assert(before[i]@ == x);
                    }
                }
            }
            assert(aset(list@) =~= aset(before).insert(v@));
        }
    } else {
        proof {
            let i = choose|i: int| 0 <= i < list@.len() && list@[i]@ == v@;
            assert forall|x: <T as View>::V| aset(list@).insert(v@).contains(x) implies aset(
                list@,
            ).contains(x) by {
                if x == v@ {
                    assert(list@[i]@ == x);
                }
            }
            assert(aset(list@) =~= aset(list@).insert(v@));
        }
    }
}

} // verus!
