use vstd::prelude::*;

verus! {

/// The index of the first entry keyed `key`, or -1 where there is none.
pub open spec fn find_key<T>(es: Seq<(Seq<char>, T)>, key: Seq<char>) -> int
    decreases es.len(),
{
    if es.len() == 0 {
        -1
    } else {
        let r = find_key(es.drop_last(), key);
        if r >= 0 {
            r
        } else if es.last().0 == key {
            es.len() - 1
        } else {
            -1
        }
    }
}

/// No two entries have the same key.
pub open spec fn distinct_keys<T>(es: Seq<(Seq<char>, T)>) -> bool {
    forall|i: int, j: int| 0 <= i < j < es.len() ==> #[trigger] es[i].0 != #[trigger] es[j].0
}

/// The value of the entry keyed `key`, if any.
pub open spec fn lookup_key<T>(es: Seq<(Seq<char>, T)>, key: Seq<char>) -> Option<T> {
    let i = find_key(es, key);
    if i >= 0 {
        Some(es[i].1)
    } else {
        None
    }
}

/// Gives `key` the value `value`: an existing entry is overridden in place, a new
/// key is added at the end.
pub open spec fn insert_key<T>(es: Seq<(Seq<char>, T)>, key: Seq<char>, value: T) -> Seq<
    (Seq<char>, T),
> {
    let i = find_key(es, key);
    if i >= 0 {
        es.update(i, (key, value))
    } else {
        es.push((key, value))
    }
}

/// Facts about `find_key`.
pub proof fn lemma_find_key<T>(es: Seq<(Seq<char>, T)>, key: Seq<char>)
    ensures
        -1 <= find_key(es, key) < es.len(),
        find_key(es, key) >= 0 ==> es[find_key(es, key)].0 == key,
        find_key(es, key) >= 0 ==> forall|k: int| 0 <= k < find_key(es, key) ==> es[k].0 != key,
        find_key(es, key) < 0 ==> forall|k: int| 0 <= k < es.len() ==> es[k].0 != key,
    decreases es.len(),
{
    if es.len() > 0 {
        let prefix = es.drop_last();
        lemma_find_key(prefix, key);
        assert forall|k: int| 0 <= k < prefix.len() implies prefix[k] == es[k] by {}
        if find_key(prefix, key) < 0 {
            assert forall|k: int| 0 <= k < es.len() - 1 implies es[k].0 != key by {
                assert(prefix[k] == es[k]);
            }
        }
    }
}

/// `find_key` is the first index that holds `key`.
pub proof fn lemma_find_key_unique<T>(es: Seq<(Seq<char>, T)>, key: Seq<char>, i: int)
    requires
        -1 <= i < es.len(),
        i >= 0 ==> es[i].0 == key,
        forall|k: int| 0 <= k < es.len() && (i < 0 || k < i) ==> es[k].0 != key,
    ensures
        find_key(es, key) == i,
{
    lemma_find_key(es, key);
    let f = find_key(es, key);
    if f >= 0 && i >= 0 {
        if f < i {
            assert(es[f].0 != key);
        } else if i < f {
            assert(es[i].0 != key);
        }
    } else if f >= 0 {
        assert(es[f].0 != key);
    } else if i >= 0 {
        assert(es[i].0 != key);
    }
}

/// Inserting keeps the keys distinct.
pub proof fn lemma_insert_key_distinct<T>(es: Seq<(Seq<char>, T)>, key: Seq<char>, value: T)
    requires
        distinct_keys(es),
    ensures
        distinct_keys(insert_key(es, key, value)),
{
    lemma_find_key(es, key);
    let r = insert_key(es, key, value);
    assert forall|i: int, j: int| 0 <= i < j < r.len() implies #[trigger] r[i].0
        != #[trigger] r[j].0 by {
        if find_key(es, key) < 0 && j == es.len() {
            assert(es[i].0 != key);
        }
    }
}

/// The index of the first entry whose key is `key`, if there is one.
pub fn key_index<V>(entries: &Vec<(String, V)>, key: &String) -> (res: Option<usize>)
    ensures
        res matches Some(i) ==> i < entries.len() && entries@[i as int].0@ == key@ && forall|k: int|
            0 <= k < i ==> entries@[k].0@ != key@,
        res is None ==> forall|k: int| 0 <= k < entries.len() ==> entries@[k].0@ != key@,
{
    let mut i: usize = 0;
    while i < entries.len()
        invariant
            i <= entries.len(),
            forall|k: int| 0 <= k < i ==> entries@[k].0@ != key@,
        decreases entries.len() - i,
    {
        if entries[i].0 == *key {
            return Some(i);
        }
        i = i + 1;
    }
    None
}

} // verus!
