use vstd::prelude::*;

verus! {

/// The keys of an association list are pairwise distinct.
pub open spec fn keys_distinct<V>(entries: Seq<(String, V)>) -> bool {
    forall|i: int, j: int|
        0 <= i < entries.len() && 0 <= j < entries.len() && i != j ==> entries[i].0@
            != entries[j].0@
}

/// The association list read as a map from key to value.
pub open spec fn assoc_view<V>(entries: Seq<(String, V)>) -> Map<Seq<char>, V>
    decreases entries.len(),
{
    if entries.len() == 0 {
        Map::empty()
    } else {
        assoc_view(entries.drop_last()).insert(entries.last().0@, entries.last().1)
    }
}

/// The index of the entry whose key is `key`.
pub open spec fn has_key_at<V>(entries: Seq<(String, V)>, key: Seq<char>, i: int) -> bool {
    0 <= i < entries.len() && entries[i].0@ == key
}

pub proof fn lemma_assoc_index<V>(entries: Seq<(String, V)>, key: Seq<char>)
    requires
        keys_distinct(entries),
    ensures
        assoc_view(entries).dom().contains(key) <==> exists|i: int| has_key_at(entries, key, i),
        forall|i: int| has_key_at(entries, key, i) ==> assoc_view(entries)[key] == entries[i].1,
    decreases entries.len(),
{
    if entries.len() > 0 {
        let init = entries.drop_last();
        assert(keys_distinct(init));
        lemma_assoc_index(init, key);
        if entries.last().0@ != key {
            assert forall|i: int| has_key_at(entries, key, i) implies has_key_at(init, key, i) by {}
            if exists|i: int| has_key_at(init, key, i) {
                let i = choose|i: int| has_key_at(init, key, i);
                assert(has_key_at(entries, key, i));
            }
        } else {
            assert(has_key_at(entries, key, entries.len() - 1));
        }
    }
}

pub proof fn lemma_assoc_update<V>(entries: Seq<(String, V)>, i: int, k: String, v: V)
    requires
        keys_distinct(entries),
        0 <= i < entries.len(),
        entries[i].0@ == k@,
    ensures
        keys_distinct(entries.update(i, (k, v))),
        assoc_view(entries.update(i, (k, v))) =~= assoc_view(entries).insert(k@, v),
    decreases entries.len(),
{
    let e2 = entries.update(i, (k, v));
    assert(keys_distinct(e2));
    if i == entries.len() - 1 {
        assert(e2.drop_last() =~= entries.drop_last());
    } else {
        let init = entries.drop_last();
        assert(keys_distinct(init));
        assert(e2.drop_last() =~= init.update(i, (k, v)));
        lemma_assoc_update(init, i, k, v);
        assert(entries.last().0@ != k@);
    }
}

/// Sets `key` to `value` in an association list with distinct keys: the entry of
/// that key is replaced in place, or a new entry is appended.
pub fn assoc_insert<V>(entries: &mut Vec<(String, V)>, key: String, value: V)
    requires
        keys_distinct(old(entries)@),
    ensures
        keys_distinct(final(entries)@),
        assoc_view(final(entries)@) =~= assoc_view(old(entries)@).insert(key@, value),
        (exists|i: int| has_key_at(old(entries)@, key@, i)) ==> final(entries)@.len() == old(entries)@.len(),
        !(exists|i: int| has_key_at(old(entries)@, key@, i)) ==> final(entries)@ == old(entries)@.push((key, value)),
{
    let mut i: usize = 0;
    while i < entries.len()
        invariant
            i <= entries.len(),
            entries@ == old(entries)@,
            keys_distinct(old(entries)@),
            forall|j: int| 0 <= j < i ==> entries@[j].0@ != key@,
        decreases entries.len() - i,
    {
        if entries[i].0 == key {
            proof {
                lemma_assoc_update(entries@, i as int, key, value);
                assert(has_key_at(old(entries)@, key@, i as int));
            }
            entries.set(i, (key, value));
            return;
        }
        i = i + 1;
    }
    proof {
        assert forall|j: int| !has_key_at(old(entries)@, key@, j) by {}
        let e2 = entries@.push((key, value));
        assert(e2.drop_last() =~= entries@);
        assert(keys_distinct(e2));
    }
    entries.push((key, value));
}

/// Looks up `key` in an association list with distinct keys.
pub fn assoc_get<'a, V>(entries: &'a Vec<(String, V)>, key: &str) -> (r: Option<&'a V>)
    requires
        keys_distinct(entries@),
    ensures
        match r {
            Some(v) => assoc_view(entries@).dom().contains(key@) && *v == assoc_view(entries@)[key@],
            None => !assoc_view(entries@).dom().contains(key@),
        },
{
    proof {
        lemma_assoc_index(entries@, key@);
    }
    let mut i: usize = 0;
    while i < entries.len()
        invariant
            i <= entries.len(),
            keys_distinct(entries@),
            forall|j: int| 0 <= j < i ==> entries@[j].0@ != key@,
        decreases entries.len() - i,
    {
        if crate::text::str_eq(entries[i].0.as_str(), key) {
            proof {
                lemma_assoc_index(entries@, key@);
                assert(has_key_at(entries@, key@, i as int));
            }
            return Some(&entries[i].1);
        }
        i = i + 1;
    }
    assert forall|j: int| !has_key_at(entries@, key@, j) by {}
    None
}


} // verus!

verus! {

/// The position of the first entry whose key is `key`.
pub open spec fn first_key_index<V>(entries: Seq<(String, V)>, key: Seq<char>) -> Option<int>
    decreases entries.len(),
{
    if entries.len() == 0 {
        None
    } else if entries[0].0@ == key {
        Some(0)
    } else {
        match first_key_index(entries.drop_first(), key) {
            Some(i) => Some(i + 1),
            None => None,
        }
    }
}

pub proof fn lemma_first_key_index<V>(entries: Seq<(String, V)>, key: Seq<char>)
    ensures
        match first_key_index(entries, key) {
            Some(i) => has_key_at(entries, key, i) && forall|j: int| 0 <= j < i ==> entries[j].0@ != key,
            None => forall|j: int| 0 <= j < entries.len() ==> entries[j].0@ != key,
        },
    decreases entries.len(),
{
    if entries.len() > 0 && entries[0].0@ != key {
        lemma_first_key_index(entries.drop_first(), key);
        match first_key_index(entries.drop_first(), key) {
            Some(i) => {
                assert forall|j: int| 0 <= j < i + 1 implies entries[j].0@ != key by {
                    if j > 0 {
                        assert(entries[j] == entries.drop_first()[j - 1]);
                    }
                }
            },
            None => {
                assert forall|j: int| 0 <= j < entries.len() implies entries[j].0@ != key by {
                    if j > 0 {
                        assert(entries[j] == entries.drop_first()[j - 1]);
                    }
                }
            },
        }
    }
}

/// The position of the first entry whose key is `key`.
pub fn assoc_find<V>(entries: &Vec<(String, V)>, key: &str) -> (r: Option<usize>)
    ensures
        match r {
            Some(i) => first_key_index(entries@, key@) == Some(i as int),
            None => first_key_index(entries@, key@) is None,
        },
{
    proof {
        lemma_first_key_index(entries@, key@);
    }
    let mut i: usize = 0;
    while i < entries.len()
        invariant
            i <= entries.len(),
            forall|j: int| 0 <= j < i ==> entries@[j].0@ != key@,
            match first_key_index(entries@, key@) {
                Some(f) => has_key_at(entries@, key@, f) && forall|j: int|
                    0 <= j < f ==> entries@[j].0@ != key@,
                None => forall|j: int| 0 <= j < entries@.len() ==> entries@[j].0@ != key@,
            },
        decreases entries.len() - i,
    {
        if crate::text::str_eq(entries[i].0.as_str(), key) {
            return Some(i);
        }
        i = i + 1;
    }
    None
}

/// Removes the entry of `key` from an association list with distinct keys.
pub fn assoc_remove<V>(entries: &mut Vec<(String, V)>, key: &str) -> (r: Option<V>)
    requires
        keys_distinct(old(entries)@),
    ensures
        keys_distinct(final(entries)@),
        assoc_view(final(entries)@) =~= assoc_view(old(entries)@).remove(key@),
        match r {
            Some(v) => assoc_view(old(entries)@).dom().contains(key@) && v == assoc_view(
                old(entries)@,
            )[key@],
            None => !assoc_view(old(entries)@).dom().contains(key@),
        },
{
    proof {
        lemma_assoc_index(entries@, key@);
        lemma_first_key_index(entries@, key@);
    }
    match assoc_find(entries, key) {
        Some(i) => {
            proof {
                lemma_assoc_remove(entries@, i as int);
            }
            let (_, v) = entries.remove(i);
            Some(v)
        },
        None => {
            assert forall|j: int| !has_key_at(entries@, key@, j) by {}
            assert(assoc_view(entries@).remove(key@) =~= assoc_view(entries@));
            None
        },
    }
}

pub proof fn lemma_assoc_remove<V>(entries: Seq<(String, V)>, i: int)
    requires
        keys_distinct(entries),
        0 <= i < entries.len(),
    ensures
        keys_distinct(entries.remove(i)),
        assoc_view(entries.remove(i)) =~= assoc_view(entries).remove(entries[i].0@),
        assoc_view(entries).dom().contains(entries[i].0@),
        assoc_view(entries)[entries[i].0@] == entries[i].1,
    decreases entries.len(),
{
    let e2 = entries.remove(i);
    assert(keys_distinct(e2)) by {
        assert forall|a: int, b: int| 0 <= a < e2.len() && 0 <= b < e2.len() && a != b implies e2[a].0@ != e2[b].0@ by {
            let a2 = if a < i { a } else { a + 1 };
            let b2 = if b < i { b } else { b + 1 };
            assert(e2[a] == entries[a2] && e2[b] == entries[b2]);
        }
    }
    lemma_assoc_index(entries, entries[i].0@);
    let init = entries.drop_last();
    assert(keys_distinct(init));
    if i == entries.len() - 1 {
        assert(e2 =~= init);
        lemma_assoc_index(init, entries[i].0@);
        assert forall|j: int| !has_key_at(init, entries[i].0@, j) by {}
    } else {
        lemma_assoc_remove(init, i);
        assert(e2.drop_last() =~= init.remove(i));
        assert(e2.last() == entries.last());
    }
}

} // verus!
