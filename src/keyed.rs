//! Small maps held as lists of `(key, value)` entries with distinct keys.
use vstd::prelude::*;

verus! {

/// No two entries of `s` share a key.
pub open spec fn keys_unique<V>(s: Seq<(String, V)>) -> bool {
    forall|i: int, j: int|
        0 <= i < s.len() && 0 <= j < s.len() && i != j ==> (#[trigger] s[i]).0@ != (#[trigger] s[j]).0@
}

/// Some entry of `s` has the key `k`.
pub open spec fn has_key<V>(s: Seq<(String, V)>, k: Seq<char>) -> bool {
    exists|i: int| 0 <= i < s.len() && (#[trigger] s[i]).0@ == k
}

/// The position of an entry with key `k`, where there is one.
pub open spec fn key_pos<V>(s: Seq<(String, V)>, k: Seq<char>) -> int {
    choose|i: int| 0 <= i < s.len() && (#[trigger] s[i]).0@ == k
}

/// The map that a list of entries stands for.
pub open spec fn entries_map<V>(s: Seq<(String, V)>) -> Map<Seq<char>, V> {
    Map::new(|k: Seq<char>| has_key(s, k), |k: Seq<char>| s[key_pos(s, k)].1)
}

pub proof fn lemma_key_pos<V>(s: Seq<(String, V)>, i: int)
    requires
        keys_unique(s),
        0 <= i < s.len(),
    ensures
        has_key(s, s[i].0@),
        key_pos(s, s[i].0@) == i,
        entries_map(s).contains_key(s[i].0@),
        entries_map(s)[s[i].0@] == s[i].1,
{
    let k = s[i].0@;
    assert(has_key(s, k));
    let j = key_pos(s, k);
    assert(s[j].0@ == k);
}

pub proof fn lemma_map_update<V>(s: Seq<(String, V)>, i: int, e: (String, V))
    requires
        keys_unique(s),
        0 <= i < s.len(),
        e.0@ == s[i].0@,
    ensures
        keys_unique(s.update(i, e)),
        entries_map(s.update(i, e)) == entries_map(s).insert(e.0@, e.1),
{
    let t = s.update(i, e);
    assert(keys_unique(t));
    lemma_key_pos(t, i);
    assert forall|k: Seq<char>| #[trigger] has_key(t, k) == has_key(s, k) by {
        if has_key(s, k) {
            let j = key_pos(s, k);
            assert(t[j].0@ == k);
        }
        if has_key(t, k) {
            let j = key_pos(t, k);
            assert(s[j].0@ == k);
        }
    }
    assert forall|k: Seq<char>| k != e.0@ && has_key(t, k) implies entries_map(t)[k] == entries_map(s)[k] by {
        let j = key_pos(t, k);
        lemma_key_pos(t, j);
        lemma_key_pos(s, j);
    }
    assert(entries_map(t) =~= entries_map(s).insert(e.0@, e.1));
}

pub proof fn lemma_map_push<V>(s: Seq<(String, V)>, e: (String, V))
    requires
        keys_unique(s),
        !has_key(s, e.0@),
    ensures
        keys_unique(s.push(e)),
        entries_map(s.push(e)) == entries_map(s).insert(e.0@, e.1),
{
    let t = s.push(e);
    assert forall|i: int, j: int|
        0 <= i < t.len() && 0 <= j < t.len() && i != j implies (#[trigger] t[i]).0@ != (#[trigger] t[j]).0@ by {
        if i < s.len() && j < s.len() {
            assert(t[i] == s[i] && t[j] == s[j]);
        } else if i < s.len() {
            assert(t[i] == s[i]);
        } else {
            assert(t[j] == s[j]);
        }
    }
    lemma_key_pos(t, s.len() as int);
    assert forall|k: Seq<char>| #[trigger] has_key(t, k) == (has_key(s, k) || k == e.0@) by {
        if has_key(s, k) {
            let j = key_pos(s, k);
            assert(t[j] == s[j]);
        }
        if has_key(t, k) && k != e.0@ {
            let j = key_pos(t, k);
            assert(t[j] == s[j]);
        }
    }
    assert forall|k: Seq<char>| k != e.0@ && has_key(t, k) implies entries_map(t)[k] == entries_map(s)[k] by {
        let j = key_pos(t, k);
        assert(t[j] == s[j]);
        lemma_key_pos(t, j);
        lemma_key_pos(s, j);
    }
    assert(entries_map(t) =~= entries_map(s).insert(e.0@, e.1));
}

pub proof fn lemma_map_remove<V>(s: Seq<(String, V)>, i: int)
    requires
        keys_unique(s),
        0 <= i < s.len(),
    ensures
        keys_unique(s.remove(i)),
        entries_map(s.remove(i)) == entries_map(s).remove(s[i].0@),
{
    let t = s.remove(i);
    let k0 = s[i].0@;
    assert forall|a: int, b: int|
        0 <= a < t.len() && 0 <= b < t.len() && a != b implies (#[trigger] t[a]).0@ != (#[trigger] t[b]).0@ by {
        let a2 = if a < i { a } else { a + 1 };
        let b2 = if b < i { b } else { b + 1 };
        assert(t[a] == s[a2] && t[b] == s[b2]);
    }
    assert forall|k: Seq<char>| #[trigger] has_key(t, k) == (has_key(s, k) && k != k0) by {
        if has_key(s, k) && k != k0 {
            let j = key_pos(s, k);
            if j < i {
                assert(t[j] == s[j]);
            } else {
                assert(j != i);
                assert(t[j - 1] == s[j]);
            }
        }
        if has_key(t, k) {
            let j = key_pos(t, k);
            let j2 = if j < i { j } else { j + 1 };
            assert(t[j] == s[j2]);
        }
    }
    assert forall|k: Seq<char>| k != k0 && has_key(t, k) implies entries_map(t)[k] == entries_map(s)[k] by {
        let j = key_pos(t, k);
        let j2 = if j < i { j } else { j + 1 };
        assert(t[j] == s[j2]);
        lemma_key_pos(t, j);
        lemma_key_pos(s, j2);
    }
    assert(entries_map(t) =~= entries_map(s).remove(k0));
}

/// The position of the entry with key `k`.
pub fn find_key<V>(v: &Vec<(String, V)>, k: &String) -> (r: Option<usize>)
    ensures
        match r {
            Some(i) => i < v@.len() && v@[i as int].0@ == k@,
            None => !has_key(v@, k@),
        },
{
    let mut i: usize = 0;
    while i < v.len()
        invariant
            i <= v@.len(),
            forall|j: int| 0 <= j < i ==> (#[trigger] v@[j]).0@ != k@,
        decreases v@.len() - i,
    {
        if v[i].0 == *k {
            return Some(i);
        }
        i = i + 1;
    }
    None
}

/// Sets the value under `k`, adding an entry where there is none.
pub fn upsert<V>(v: &mut Vec<(String, V)>, k: String, val: V)
    requires
        keys_unique(old(v)@),
    ensures
        keys_unique(final(v)@),
        entries_map(final(v)@) == entries_map(old(v)@).insert(k@, val),
{
    match find_key(v, &k) {
        Some(i) => {
            proof {
                lemma_map_update(v@, i as int, (k, val));
            }
            v.set(i, (k, val));
        },
        None => {
            proof {
                lemma_map_push(v@, (k, val));
            }
            v.push((k, val));
        },
    }
}

/// Takes out the entry under `k`, if any, and hands back its value.
pub fn remove_key<V>(v: &mut Vec<(String, V)>, k: &String) -> (r: Option<V>)
    requires
        keys_unique(old(v)@),
    ensures
        keys_unique(final(v)@),
        entries_map(final(v)@) == entries_map(old(v)@).remove(k@),
        r == (if entries_map(old(v)@).contains_key(k@) {
            Some(entries_map(old(v)@)[k@])
        } else {
            None
        }),
{
    match find_key(v, k) {
        Some(i) => {
            proof {
                lemma_map_remove(v@, i as int);
                lemma_key_pos(v@, i as int);
            }
            let e = v.remove(i);
            Some(e.1)
        },
        None => {
            assert(entries_map(v@).remove(k@) =~= entries_map(v@));
            None
        },
    }
}

/// Whether no two entries of `v` share a key.
pub fn check_keys_unique<V>(v: &Vec<(String, V)>) -> (r: bool)
    ensures
        r == keys_unique(v@),
{
    let mut i: usize = 0;
    while i < v.len()
        invariant
            i <= v@.len(),
            forall|a: int, b: int|
                0 <= a < i && 0 <= b < v@.len() && a != b ==> (#[trigger] v@[a]).0@ != (#[trigger] v@[b]).0@,
        decreases v@.len() - i,
    {
        let mut j: usize = 0;
        while j < v.len()
            invariant
                i < v@.len(),
                j <= v@.len(),
                forall|a: int, b: int|
                    0 <= a < i && 0 <= b < v@.len() && a != b ==> (#[trigger] v@[a]).0@ != (#[trigger] v@[b]).0@,
                forall|b: int| 0 <= b < j && b != i ==> v@[i as int].0@ != (#[trigger] v@[b]).0@,
            decreases v@.len() - j,
        {
            if j != i && v[i].0 == v[j].0 {
                return false;
            }
            j = j + 1;
        }
        i = i + 1;
    }
    true
}

} // verus!
