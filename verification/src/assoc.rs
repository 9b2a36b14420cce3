use vstd::prelude::*;

use crate::address::Address;

verus! {

/// No key occurs twice in an association list.
pub open spec fn keys_distinct<K, V>(s: Seq<(K, V)>) -> bool {
    forall|i: int, j: int|
        0 <= i < s.len() && 0 <= j < s.len() && #[trigger] s[i].0 == #[trigger] s[j].0 ==> i == j
}

/// The map that an association list stands for: each key to the value beside it.
pub open spec fn assoc_map<K, V>(s: Seq<(K, V)>) -> Map<K, V> {
    Map::new(
        |k: K| exists|i: int| 0 <= i < s.len() && #[trigger] s[i].0 == k,
        |k: K| s[choose|i: int| 0 <= i < s.len() && #[trigger] s[i].0 == k].1,
    )
}

pub proof fn lemma_assoc_index<K, V>(s: Seq<(K, V)>, i: int)
    requires
        keys_distinct(s),
        0 <= i < s.len(),
    ensures
        assoc_map(s).contains_key(s[i].0),
        assoc_map(s)[s[i].0] == s[i].1,
{
    let k = s[i].0;
    assert(exists|j: int| 0 <= j < s.len() && #[trigger] s[j].0 == k);
    let j = choose|j: int| 0 <= j < s.len() && #[trigger] s[j].0 == k;
    assert(s[j].0 == s[i].0);
}

pub proof fn lemma_assoc_missing<K, V>(s: Seq<(K, V)>, k: K)
    requires
        forall|i: int| 0 <= i < s.len() ==> #[trigger] s[i].0 != k,
    ensures
        !assoc_map(s).contains_key(k),
{
}

pub proof fn lemma_assoc_push<K, V>(s: Seq<(K, V)>, k: K, v: V)
    requires
        keys_distinct(s),
        !assoc_map(s).contains_key(k),
    ensures
        keys_distinct(s.push((k, v))),
        assoc_map(s.push((k, v))) == assoc_map(s).insert(k, v),
{
    let t = s.push((k, v));
    assert forall|i: int| 0 <= i < s.len() implies #[trigger] s[i].0 != k by {
        if s[i].0 == k {
            assert(exists|j: int| 0 <= j < s.len() && #[trigger] s[j].0 == k);
        }
    }
    assert(keys_distinct(t)) by {
        assert forall|i: int, j: int|
            0 <= i < t.len() && 0 <= j < t.len() && #[trigger] t[i].0 == #[trigger] t[j].0 implies i
            == j by {
            if i < s.len() && j < s.len() {
                assert(s[i].0 == s[j].0);
            }
        }
    }
    let m = assoc_map(s).insert(k, v);
    assert forall|x: K| #[trigger] assoc_map(t).contains_key(x) <==> m.contains_key(x) by {
        if m.contains_key(x) {
            if x == k {
                assert(t[s.len() as int].0 == x);
            } else {
                let i = choose|i: int| 0 <= i < s.len() && #[trigger] s[i].0 == x;
                assert(t[i].0 == x);
            }
        }
        if assoc_map(t).contains_key(x) {
            let i = choose|i: int| 0 <= i < t.len() && #[trigger] t[i].0 == x;
            if i < s.len() {
                assert(s[i].0 == x);
            }
        }
    }
    assert forall|x: K| #[trigger] m.contains_key(x) implies assoc_map(t)[x] == m[x] by {
        if x == k {
            lemma_assoc_index(t, s.len() as int);
        } else {
            let i = choose|i: int| 0 <= i < s.len() && #[trigger] s[i].0 == x;
            lemma_assoc_index(s, i);
            lemma_assoc_index(t, i);
        }
    }
    assert(assoc_map(t) =~= m);
}

pub proof fn lemma_assoc_update<K, V>(s: Seq<(K, V)>, i: int, v: V)
    requires
        keys_distinct(s),
        0 <= i < s.len(),
    ensures
        keys_distinct(s.update(i, (s[i].0, v))),
        assoc_map(s.update(i, (s[i].0, v))) == assoc_map(s).insert(s[i].0, v),
{
    let k = s[i].0;
    let t = s.update(i, (k, v));
    assert(keys_distinct(t)) by {
        assert forall|a: int, b: int|
            0 <= a < t.len() && 0 <= b < t.len() && #[trigger] t[a].0 == #[trigger] t[b].0 implies a
            == b by {
            assert(t[a].0 == s[a].0);
            assert(t[b].0 == s[b].0);
        }
    }
    let m = assoc_map(s).insert(k, v);
    lemma_assoc_index(s, i);
    assert forall|x: K| #[trigger] assoc_map(t).contains_key(x) <==> m.contains_key(x) by {
        if m.contains_key(x) {
            let j = choose|j: int| 0 <= j < s.len() && #[trigger] s[j].0 == x;
            assert(t[j].0 == x);
        }
        if assoc_map(t).contains_key(x) {
            let j = choose|j: int| 0 <= j < t.len() && #[trigger] t[j].0 == x;
            assert(s[j].0 == x);
        }
    }
    assert forall|x: K| #[trigger] m.contains_key(x) implies assoc_map(t)[x] == m[x] by {
        let j = choose|j: int| 0 <= j < s.len() && #[trigger] s[j].0 == x;
        lemma_assoc_index(s, j);
        lemma_assoc_index(t, j);
    }
    assert(assoc_map(t) =~= m);
}

pub proof fn lemma_assoc_remove<K, V>(s: Seq<(K, V)>, i: int)
    requires
        keys_distinct(s),
        0 <= i < s.len(),
    ensures
        keys_distinct(s.remove(i)),
        assoc_map(s.remove(i)) == assoc_map(s).remove(s[i].0),
{
    let k = s[i].0;
    let t = s.remove(i);
    assert forall|a: int| 0 <= a < t.len() implies #[trigger] t[a] == s[if a < i {
        a
    } else {
        a + 1
    }] by {}
    assert(keys_distinct(t)) by {
        assert forall|a: int, b: int|
            0 <= a < t.len() && 0 <= b < t.len() && #[trigger] t[a].0 == #[trigger] t[b].0 implies a
            == b by {
            let a2 = if a < i { a } else { a + 1 };
            let b2 = if b < i { b } else { b + 1 };
            assert(t[a] == s[a2]);
            assert(t[b] == s[b2]);
            assert(s[a2].0 == s[b2].0);
        }
    }
    let m = assoc_map(s).remove(k);
    assert forall|x: K| #[trigger] assoc_map(t).contains_key(x) <==> m.contains_key(x) by {
        if m.contains_key(x) {
            let j = choose|j: int| 0 <= j < s.len() && #[trigger] s[j].0 == x;
            assert(j != i);
            let j2 = if j < i { j } else { j - 1 };
            assert(t[j2] == s[j]);
        }
        if assoc_map(t).contains_key(x) {
            let j = choose|j: int| 0 <= j < t.len() && #[trigger] t[j].0 == x;
            let j2 = if j < i { j } else { j + 1 };
            assert(t[j] == s[j2]);
            assert(s[j2].0 == x);
            if x == k {
                assert(s[j2].0 == s[i].0);
            }
        }
    }
    assert forall|x: K| #[trigger] m.contains_key(x) implies assoc_map(t)[x] == m[x] by {
        let j = choose|j: int| 0 <= j < s.len() && #[trigger] s[j].0 == x;
        assert(j != i);
        let j2 = if j < i { j } else { j - 1 };
        assert(t[j2] == s[j]);
        lemma_assoc_index(s, j);
        lemma_assoc_index(t, j2);
    }
    assert(assoc_map(t) =~= m);
}

/// Position of `key` in an association list keyed by `u32`, if it is there.
pub fn find_u32_key<V>(entries: &Vec<(u32, V)>, key: u32) -> (r: Option<usize>)
    ensures
        match r {
            Some(i) => i < entries.len() && entries@[i as int].0 == key,
            None => forall|i: int| 0 <= i < entries.len() ==> #[trigger] entries@[i].0 != key,
        },
{
    let mut i: usize = 0;
    while i < entries.len()
        invariant
            i <= entries.len(),
            forall|j: int| 0 <= j < i ==> #[trigger] entries@[j].0 != key,
        decreases entries.len() - i,
    {
        if entries[i].0 == key {
            return Some(i);
        }
        i = i + 1;
    }
    None
}

/// Position of `key` in an association list keyed by addresses, if it is there.
pub fn find_address_key<V>(entries: &Vec<(Address, V)>, key: Address) -> (r: Option<usize>)
    ensures
        match r {
            Some(i) => i < entries.len() && entries@[i as int].0 == key,
            None => forall|i: int| 0 <= i < entries.len() ==> #[trigger] entries@[i].0 != key,
        },
{
    let mut i: usize = 0;
    while i < entries.len()
        invariant
            i <= entries.len(),
            forall|j: int| 0 <= j < i ==> #[trigger] entries@[j].0 != key,
        decreases entries.len() - i,
    {
        if entries[i].0 == key {
            return Some(i);
        }
        i = i + 1;
    }
    None
}

/// Position of `key` in a list of addresses, if it is there.
pub fn find_address(entries: &Vec<Address>, key: Address) -> (r: Option<usize>)
    ensures
        match r {
            Some(i) => i < entries.len() && entries@[i as int] == key,
            None => forall|i: int| 0 <= i < entries.len() ==> #[trigger] entries@[i] != key,
        },
{
    let mut i: usize = 0;
    while i < entries.len()
        invariant
            i <= entries.len(),
            forall|j: int| 0 <= j < i ==> #[trigger] entries@[j] != key,
        decreases entries.len() - i,
    {
        if entries[i] == key {
            return Some(i);
        }
        i = i + 1;
    }
    None
}

} // verus!
