//! Association lists keyed by text: the lookup tables of the catalog.
//!
//! A list holds each key at most once; a lookup finds the entry with the key, an
//! insertion replaces the entry with the key or adds one at the end, a removal takes
//! the entry with the key out.

use vstd::prelude::*;
use crate::sql_text::chars_eq;
use crate::text::chars_of;

verus! {

/// The view of the entries: keys as character sequences.
pub open spec fn entries_view<V>(v: Seq<(String, V)>) -> Seq<(Seq<char>, V)> {
    Seq::new(v.len(), |i: int| (v[i].0@, v[i].1))
}

/// Position of the first entry with key `k`.
pub open spec fn key_index<V>(s: Seq<(Seq<char>, V)>, k: Seq<char>) -> Option<int>
    decreases s.len(),
{
    if s.len() == 0 {
        None
    } else {
        match key_index(s.drop_last(), k) {
            Some(i) => Some(i),
            None => if s.last().0 == k {
                Some(s.len() - 1)
            } else {
                None
            },
        }
    }
}

/// The value stored under `k`.
pub open spec fn lookup<V>(s: Seq<(Seq<char>, V)>, k: Seq<char>) -> Option<V> {
    match key_index(s, k) {
        Some(i) => Some(s[i].1),
        None => None,
    }
}

/// No key occurs twice.
pub open spec fn unique_keys<V>(s: Seq<(Seq<char>, V)>) -> bool {
    forall|i: int, j: int| 0 <= i < j < s.len() ==> s[i].0 != s[j].0
}

/// `s` with the value under `k` set to `v` (replacing the entry, or adding one at the
/// end).
pub open spec fn assoc_insert<V>(s: Seq<(Seq<char>, V)>, k: Seq<char>, v: V) -> Seq<(Seq<char>, V)> {
    match key_index(s, k) {
        Some(i) => s.update(i, (k, v)),
        None => s.push((k, v)),
    }
}

/// `s` without the entry under `k`.
pub open spec fn assoc_remove<V>(s: Seq<(Seq<char>, V)>, k: Seq<char>) -> Seq<(Seq<char>, V)> {
    match key_index(s, k) {
        Some(i) => s.remove(i),
        None => s,
    }
}

/// The keys of the entries, in order.
pub open spec fn keys_of<V>(s: Seq<(Seq<char>, V)>) -> Seq<Seq<char>> {
    Seq::new(s.len(), |i: int| s[i].0)
}

pub proof fn lemma_key_index<V>(s: Seq<(Seq<char>, V)>, k: Seq<char>)
    ensures
        match key_index(s, k) {
            Some(i) => 0 <= i < s.len() && s[i].0 == k && forall|j: int| 0 <= j < i ==> s[j].0 != k,
            None => forall|j: int| 0 <= j < s.len() ==> s[j].0 != k,
        },
    decreases s.len(),
{
    if s.len() > 0 {
        let t = s.drop_last();
        lemma_key_index(t, k);
        assert forall|j: int| 0 <= j < t.len() implies #[trigger] s[j] == t[j] by {}
    }
}

pub proof fn lemma_key_index_of_unique<V>(s: Seq<(Seq<char>, V)>, k: Seq<char>, i: int)
    requires
        0 <= i < s.len(),
        s[i].0 == k,
        unique_keys(s),
    ensures
        key_index(s, k) == Some(i),
{
    lemma_key_index(s, k);
}

/// After an insertion the key holds the new value and every other key keeps its value;
/// keys stay unique.
pub proof fn lemma_insert<V>(s: Seq<(Seq<char>, V)>, k: Seq<char>, v: V)
    requires
        unique_keys(s),
    ensures
        unique_keys(assoc_insert(s, k, v)),
        lookup(assoc_insert(s, k, v), k) == Some(v),
        forall|k2: Seq<char>| k2 != k ==> #[trigger] lookup(assoc_insert(s, k, v), k2) == lookup(s, k2),
{
    lemma_key_index(s, k);
    let t = assoc_insert(s, k, v);
    assert(unique_keys(t));
    lemma_key_index(t, k);
    match key_index(s, k) {
        Some(i) => lemma_key_index_of_unique(t, k, i),
        None => lemma_key_index_of_unique(t, k, s.len() as int),
    }
    assert forall|k2: Seq<char>| k2 != k implies #[trigger] lookup(t, k2) == lookup(s, k2) by {
        lemma_key_index(s, k2);
        lemma_key_index(t, k2);
        match key_index(s, k2) {
            Some(j) => lemma_key_index_of_unique(t, k2, j),
            None => {},
        }
    }
}

/// After a removal the key holds nothing and every other key keeps its value; keys stay
/// unique.
pub proof fn lemma_remove<V>(s: Seq<(Seq<char>, V)>, k: Seq<char>)
    requires
        unique_keys(s),
    ensures
        unique_keys(assoc_remove(s, k)),
        lookup(assoc_remove(s, k), k) is None,
        forall|k2: Seq<char>| k2 != k ==> #[trigger] lookup(assoc_remove(s, k), k2) == lookup(s, k2),
{
    lemma_key_index(s, k);
    let t = assoc_remove(s, k);
    assert(unique_keys(t));
    lemma_key_index(t, k);
    assert forall|k2: Seq<char>| k2 != k implies #[trigger] lookup(t, k2) == lookup(s, k2) by {
        lemma_key_index(s, k2);
        lemma_key_index(t, k2);
        match key_index(s, k2) {
            Some(j) => {
                match key_index(s, k) {
                    Some(i) => {
                        if j < i {
                            lemma_key_index_of_unique(t, k2, j);
                        } else {
                            assert(t[j - 1] == s[j]);
                            lemma_key_index_of_unique(t, k2, j - 1);
                        }
                    },
                    None => {},
                }
            },
            None => {},
        }
    }
}

/// Position of the entry with key `k`.
pub fn find_key<V>(v: &Vec<(String, V)>, k: &[char]) -> (r: Option<usize>)
    ensures
        match r {
            Some(i) => i < v@.len() && key_index(entries_view(v@), k@) == Some(i as int),
            None => key_index(entries_view(v@), k@) is None,
        },
{
    let ghost s = entries_view(v@);
    proof {
        lemma_key_index(s, k@);
    }
    let mut i: usize = 0;
    while i < v.len()
        invariant
            i <= v@.len(),
            s == entries_view(v@),
            forall|j: int| 0 <= j < i ==> s[j].0 != k@,
        decreases v@.len() - i,
    {
        let kc = chars_of(v[i].0.as_str());
        if chars_eq(&kc, k) {
            proof {
                assert(s[i as int].0 == k@);
                lemma_key_index(s, k@);
            }
            return Some(i);
        }
        i = i + 1;
    }
    None
}

/// Sets the value under `k` to `val`.
pub fn insert_key<V>(v: &mut Vec<(String, V)>, k: String, val: V)
    requires
        unique_keys(entries_view(old(v)@)),
    ensures
        entries_view(final(v)@) == assoc_insert(entries_view(old(v)@), k@, val),
{
    let kc = chars_of(k.as_str());
    match find_key(v, &kc) {
        Some(i) => {
            let ghost s = entries_view(v@);
            v.set(i, (k, val));
            assert(entries_view(v@) =~= s.update(i as int, (kc@, val)));
        },
        None => {
            let ghost s = entries_view(v@);
            v.push((k, val));
            assert(entries_view(v@) =~= s.push((kc@, val)));
        },
    }
}

/// Takes the entry under `k` out and returns its value.
pub fn remove_key<V>(v: &mut Vec<(String, V)>, k: &[char]) -> (r: Option<V>)
    ensures
        entries_view(final(v)@) == assoc_remove(entries_view(old(v)@), k@),
        r == lookup(entries_view(old(v)@), k@),
{
    match find_key(v, k) {
        Some(i) => {
            let ghost s = entries_view(v@);
            let (_, val) = v.remove(i);
            assert(entries_view(v@) =~= s.remove(i as int));
            Some(val)
        },
        None => None,
    }
}


/// The view of entries whose values are lists: keys and values as sequences.
pub open spec fn lists_view<T>(v: Seq<(String, Vec<T>)>) -> Seq<(Seq<char>, Seq<T>)> {
    Seq::new(v.len(), |i: int| (v[i].0@, v[i].1@))
}

/// The list stored under `k`, empty when there is none.
pub open spec fn list_at<T>(s: Seq<(Seq<char>, Seq<T>)>, k: Seq<char>) -> Seq<T> {
    match lookup(s, k) {
        Some(l) => l,
        None => Seq::empty(),
    }
}

/// `s` with `x` appended to the list under `k` (a new entry when there is none).
pub open spec fn assoc_append<T>(s: Seq<(Seq<char>, Seq<T>)>, k: Seq<char>, x: T) -> Seq<(Seq<char>, Seq<T>)> {
    assoc_insert(s, k, list_at(s, k).push(x))
}

/// Two entry sequences with the same keys in the same places find every key at the same
/// position.
pub proof fn lemma_same_keys<A, B>(s: Seq<(Seq<char>, A)>, t: Seq<(Seq<char>, B)>, k: Seq<char>)
    requires
        s.len() == t.len(),
        forall|i: int| 0 <= i < s.len() ==> #[trigger] s[i].0 == t[i].0,
    ensures
        key_index(s, k) == key_index(t, k),
    decreases s.len(),
{
    if s.len() > 0 {
        let s2 = s.drop_last();
        let t2 = t.drop_last();
        assert forall|i: int| 0 <= i < s2.len() implies #[trigger] s2[i].0 == t2[i].0 by {
            assert(s[i].0 == t[i].0);
        }
        lemma_same_keys(s2, t2, k);
    }
}

/// Keys are unique in the list view exactly when they are in the entry view.
pub proof fn lemma_lists_keys<T>(v: Seq<(String, Vec<T>)>, k: Seq<char>)
    ensures
        key_index(entries_view(v), k) == key_index(lists_view(v), k),
        unique_keys(entries_view(v)) == unique_keys(lists_view(v)),
{
    let a = entries_view(v);
    let b = lists_view(v);
    assert forall|i: int| 0 <= i < a.len() implies #[trigger] a[i].0 == b[i].0 by {}
    lemma_same_keys(a, b, k);
    if unique_keys(a) {
        assert forall|i: int, j: int| 0 <= i < j < b.len() implies b[i].0 != b[j].0 by {
            assert(a[i].0 == b[i].0 && a[j].0 == b[j].0);
        }
    }
    if unique_keys(b) {
        assert forall|i: int, j: int| 0 <= i < j < a.len() implies a[i].0 != a[j].0 by {
            assert(a[i].0 == b[i].0 && a[j].0 == b[j].0);
        }
    }
}

/// Replaces the value at position `i` and returns the value that was there.
pub fn swap_value<V>(v: &mut Vec<(String, V)>, i: usize, val: V) -> (r: V)
    requires
        i < old(v)@.len(),
    ensures
        final(v)@ == old(v)@.update(i as int, (old(v)@[i as int].0, val)),
        r == old(v)@[i as int].1,
{
    let (k, prev) = v.remove(i);
    v.insert(i, (k, val));
    prev
}


/// Changing the value at one position changes only that entry of the view.
pub proof fn lemma_entries_update<V>(v: Seq<(String, V)>, i: int)
    requires
        0 <= i < v.len(),
    ensures
        forall|x: V| #[trigger] entries_view(v.update(i, (v[i].0, x))) == entries_view(v).update(i, (v[i].0@, x)),
{
    assert forall|x: V| #[trigger] entries_view(v.update(i, (v[i].0, x))) == entries_view(v).update(i, (v[i].0@, x)) by {
        assert(entries_view(v.update(i, (v[i].0, x))) =~= entries_view(v).update(i, (v[i].0@, x)));
    }
}

/// Changing the value at one position keeps the keys unique.
pub proof fn lemma_update_keeps_unique<V>(s: Seq<(Seq<char>, V)>, i: int)
    requires
        0 <= i < s.len(),
        unique_keys(s),
    ensures
        forall|x: V| #[trigger] unique_keys(s.update(i, (s[i].0, x))),
{
    assert forall|x: V| #[trigger] unique_keys(s.update(i, (s[i].0, x))) by {
        let t = s.update(i, (s[i].0, x));
        assert forall|a: int, b: int| 0 <= a < b < t.len() implies t[a].0 != t[b].0 by {
            assert(t[a].0 == s[a].0 && t[b].0 == s[b].0);
        }
    }
}

/// Position of the first element of `s` that satisfies `p`.
pub open spec fn first_where<T>(s: Seq<T>, p: spec_fn(T) -> bool) -> Option<int>
    decreases s.len(),
{
    if s.len() == 0 {
        None
    } else {
        match first_where(s.drop_last(), p) {
            Some(i) => Some(i),
            None => if p(s.last()) {
                Some(s.len() - 1)
            } else {
                None
            },
        }
    }
}

pub proof fn lemma_first_where<T>(s: Seq<T>, p: spec_fn(T) -> bool)
    ensures
        match first_where(s, p) {
            Some(i) => 0 <= i < s.len() && p(s[i]) && forall|j: int| 0 <= j < i ==> !p(#[trigger] s[j]),
            None => forall|j: int| 0 <= j < s.len() ==> !p(#[trigger] s[j]),
        },
    decreases s.len(),
{
    if s.len() > 0 {
        let t = s.drop_last();
        lemma_first_where(t, p);
        assert forall|j: int| 0 <= j < t.len() implies #[trigger] s[j] == t[j] by {}
    }
}

/// The first element satisfying `p` is at `i`.
pub proof fn lemma_first_where_at<T>(s: Seq<T>, p: spec_fn(T) -> bool, i: int)
    requires
        0 <= i < s.len(),
        p(s[i]),
        forall|j: int| 0 <= j < i ==> !p(#[trigger] s[j]),
    ensures
        first_where(s, p) == Some(i),
{
    lemma_first_where(s, p);
}

/// Changing the list at one position changes only that entry of the list view.
pub proof fn lemma_lists_update<T>(v: Seq<(String, Vec<T>)>, i: int, l: Vec<T>)
    requires
        0 <= i < v.len(),
    ensures
        lists_view(v.update(i, (v[i].0, l))) == lists_view(v).update(i, (v[i].0@, l@)),
{
    assert(lists_view(v.update(i, (v[i].0, l))) =~= lists_view(v).update(i, (v[i].0@, l@)));
}

/// Adding an entry at the end adds its view at the end.
pub proof fn lemma_lists_push<T>(v: Seq<(String, Vec<T>)>, k: String, l: Vec<T>)
    ensures
        lists_view(v.push((k, l))) == lists_view(v).push((k@, l@)),
{
    assert(lists_view(v.push((k, l))) =~= lists_view(v).push((k@, l@)));
}

/// Appends `x` to the list under `k`, adding an entry at the end when there is none.
pub fn append_key<T>(v: &mut Vec<(String, Vec<T>)>, k: String, x: T)
    requires
        unique_keys(lists_view(old(v)@)),
    ensures
        lists_view(final(v)@) == assoc_append(lists_view(old(v)@), k@, x),
        unique_keys(lists_view(final(v)@)),
{
    let ghost orig = v@;
    let ghost s = lists_view(orig);
    proof {
        lemma_lists_keys(orig, k@);
        lemma_key_index(s, k@);
    }
    let kc = crate::text::chars_of(k.as_str());
    match find_key(v, &kc) {
        Some(i) => {
            let mut list = swap_value(v, i, Vec::new());
            list.push(x);
            let _ = swap_value(v, i, list);
            proof {
                lemma_lists_update(orig, i as int, list);
                assert(v@ =~= orig.update(i as int, (orig[i as int].0, list)));
                lemma_insert(s, k@, list@);
            }
        },
        None => {
            let mut list: Vec<T> = Vec::new();
            list.push(x);
            proof {
                lemma_lists_push(orig, k, list);
                lemma_insert(s, k@, list@);
                assert(list@ =~= list_at(s, k@).push(x));
            }
            v.push((k, list));
        },
    }
}

/// Takes the list under `k` out.
pub fn take_list<T>(v: &mut Vec<(String, Vec<T>)>, k: &[char]) -> (r: Option<Vec<T>>)
    requires
        unique_keys(lists_view(old(v)@)),
    ensures
        lists_view(final(v)@) == assoc_remove(lists_view(old(v)@), k@),
        unique_keys(lists_view(final(v)@)),
        match r {
            Some(l) => lookup(lists_view(old(v)@), k@) == Some(l@),
            None => lookup(lists_view(old(v)@), k@) is None,
        },
{
    let ghost orig = v@;
    let ghost s = lists_view(orig);
    proof {
        lemma_lists_keys(orig, k@);
        lemma_key_index(s, k@);
        lemma_remove(s, k@);
    }
    match find_key(v, k) {
        Some(i) => {
            let (_, l) = v.remove(i);
            assert(lists_view(v@) =~= s.remove(i as int));
            Some(l)
        },
        None => None,
    }
}

/// Puts the list `l` under `k`, replacing the list there or adding an entry at the end.
pub fn put_list<T>(v: &mut Vec<(String, Vec<T>)>, k: String, l: Vec<T>)
    requires
        unique_keys(lists_view(old(v)@)),
    ensures
        lists_view(final(v)@) == assoc_insert(lists_view(old(v)@), k@, l@),
        unique_keys(lists_view(final(v)@)),
{
    let ghost orig = v@;
    let ghost s = lists_view(orig);
    let ghost lv = l@;
    proof {
        lemma_lists_keys(orig, k@);
        lemma_key_index(s, k@);
        lemma_insert(s, k@, lv);
    }
    let kc = crate::text::chars_of(k.as_str());
    match find_key(v, &kc) {
        Some(i) => {
            let _ = swap_value(v, i, l);
            proof {
                let l2 = v@[i as int].1;
                lemma_lists_update(orig, i as int, l2);
                assert(v@ =~= orig.update(i as int, (orig[i as int].0, l2)));
            }
        },
        None => {
            v.push((k, l));
            proof {
                let e = v@[v@.len() - 1];
                lemma_lists_push(orig, e.0, e.1);
                assert(v@ =~= orig.push(e));
            }
        },
    }
}
} // verus!
