//! Searching a sequence of keys in which no key stands twice.
//!
//! The tables of this crate are vectors of records, each found by a key of its
//! own. What is proved here of the keys alone serves all of them.

use vstd::prelude::*;

verus! {

/// Where `key` stands among `keys`, if it stands there.
pub open spec fn position<K>(keys: Seq<K>, key: K) -> Option<int> {
    if exists|i: int| 0 <= i < keys.len() && keys[i] == key {
        Some(choose|i: int| 0 <= i < keys.len() && keys[i] == key)
    } else {
        None
    }
}

/// A position that is found holds the key, and a key that is not found stands nowhere.
pub proof fn lemma_positions<K>(keys: Seq<K>)
    ensures
        forall|key: K|
            match #[trigger] position(keys, key) {
                Some(i) => 0 <= i < keys.len() && keys[i] == key,
                None => forall|i: int| 0 <= i < keys.len() ==> keys[i] != key,
            },
{
}

/// Without duplicates, a key is found where it stands.
pub proof fn lemma_position_at<K>(keys: Seq<K>, k: int)
    requires
        keys.no_duplicates(),
        0 <= k < keys.len(),
    ensures
        position(keys, keys[k]) == Some(k),
{
}

/// A new key at the end is found there, and every other key where it was.
pub proof fn lemma_position_push<K>(keys: Seq<K>, new: K)
    requires
        keys.no_duplicates(),
        forall|i: int| 0 <= i < keys.len() ==> keys[i] != new,
    ensures
        keys.push(new).no_duplicates(),
        forall|key: K| #[trigger]
            position(keys.push(new), key) == if key == new {
                Some(keys.len() as int)
            } else {
                position(keys, key)
            },
{
    let grown = keys.push(new);
    assert forall|key: K| #[trigger]
        position(grown, key) == if key == new {
            Some(keys.len() as int)
        } else {
            position(keys, key)
        } by {
        if key == new {
            lemma_position_at(grown, keys.len() as int);
        } else {
            match position(keys, key) {
                Some(i) => {
                    assert(grown[i] == key);
                    lemma_position_at(grown, i);
                },
                None => {
                    if position(grown, key) is Some {
                        let i = position(grown, key)->0;
                        assert(keys[i] == key);
                    }
                },
            }
        }
    }
}

/// After a key is taken out it is found no more; every other key is found
/// where it has moved to.
pub proof fn lemma_position_remove<K>(keys: Seq<K>, k: int)
    requires
        keys.no_duplicates(),
        0 <= k < keys.len(),
    ensures
        keys.remove(k).no_duplicates(),
        forall|key: K| #[trigger]
            position(keys.remove(k), key) == if key == keys[k] {
                None
            } else {
                match position(keys, key) {
                    Some(i) => Some(
                        if i < k {
                            i
                        } else {
                            i - 1
                        },
                    ),
                    None => None,
                }
            },
{
    let rest = keys.remove(k);
    assert forall|i: int, j: int| 0 <= i < rest.len() && 0 <= j < rest.len() && i != j implies rest[i]
        != rest[j] by {
        let a = if i < k { i } else { i + 1 };
        let b = if j < k { j } else { j + 1 };
        assert(rest[i] == keys[a] && rest[j] == keys[b]);
    }
    assert forall|key: K| #[trigger]
        position(rest, key) == if key == keys[k] {
            None
        } else {
            match position(keys, key) {
                Some(i) => Some(
                    if i < k {
                        i
                    } else {
                        i - 1
                    },
                ),
                None => None,
            }
        } by {
        if position(rest, key) is Some {
            let i = position(rest, key)->0;
            let a = if i < k { i } else { i + 1 };
            assert(keys[a] == key);
            lemma_position_at(keys, a);
        }
        if key != keys[k] && position(keys, key) is Some {
            let a = position(keys, key)->0;
            let i = if a < k { a } else { a - 1 };
            assert(rest[i] == key);
            lemma_position_at(rest, i);
        }
    }
}

} // verus!
