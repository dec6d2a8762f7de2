//! Keeping entries in the order of their keys.

use crate::text::{lemma_text_lt_transitive, lemma_text_order, text_before, text_lt};
use vstd::prelude::*;

verus! {

/// An entry that is found by a text.
pub trait Keyed {
    /// The text by which the entry is found.
    spec fn key(&self) -> Seq<char>;

    fn key_text(&self) -> (r: &String)
        ensures
            r@ == self.key(),
    ;
}

/// The entries stand in strictly ascending order of their keys.
pub open spec fn keys_ascending<T: Keyed>(entries: Seq<T>) -> bool {
    forall|i: int, j: int| 0 <= i < j < entries.len() ==> text_lt(entries[i].key(), entries[j].key())
}

/// Some entry has this key.
pub open spec fn has_key<T: Keyed>(entries: Seq<T>, key: Seq<char>) -> bool {
    exists|i: int| 0 <= i < entries.len() && entries[i].key() == key
}

/// Where `key` stands, or would stand, among entries in ascending order,
/// and whether an entry with that key is there.
pub(crate) fn locate<T: Keyed>(entries: &Vec<T>, key: &String) -> (r: (usize, bool))
    requires
        keys_ascending(entries@),
    ensures
        r.0 <= entries@.len(),
        forall|j: int| 0 <= j < r.0 ==> text_lt(entries@[j].key(), key@),
        forall|j: int| r.0 <= j < entries@.len() && !r.1 ==> text_lt(key@, entries@[j].key()),
        r.1 ==> r.0 < entries@.len() && entries@[r.0 as int].key() == key@,
        r.1 == has_key(entries@, key@),
{
    let mut p: usize = 0;
    while p < entries.len() && text_before(entries[p].key_text().as_str(), key.as_str())
        invariant
            p <= entries.len(),
            forall|j: int| 0 <= j < p ==> text_lt(entries@[j].key(), key@),
        decreases entries.len() - p,
    {
        p += 1;
    }
    let found = p < entries.len() && *entries[p].key_text() == *key;
    proof {
        assert forall|j: int| 0 <= j < p implies entries@[j].key() != key@ by {
            lemma_text_order(key@, key@);
        }
        if p < entries.len() {
            lemma_text_order(entries@[p as int].key(), key@);
            if !found {
                assert forall|j: int| p <= j < entries.len() implies text_lt(
                    key@,
                    entries@[j].key(),
                ) by {
                    if j > p {
                        lemma_text_lt_transitive(
                            key@,
                            entries@[p as int].key(),
                            entries@[j].key(),
                        );
                    }
                }
                assert forall|j: int| p <= j < entries.len() implies entries@[j].key() != key@ by {
                    lemma_text_order(key@, key@);
                }
            }
        }
    }
    (p, found)
}

/// Putting an entry where `locate` says keeps the order.
pub proof fn lemma_insert_keeps_order<T: Keyed>(entries: Seq<T>, place: int, entry: T)
    requires
        keys_ascending(entries),
        0 <= place <= entries.len(),
        forall|j: int| 0 <= j < place ==> text_lt(entries[j].key(), entry.key()),
        forall|j: int| place <= j < entries.len() ==> text_lt(entry.key(), entries[j].key()),
    ensures
        keys_ascending(entries.insert(place, entry)),
        forall|key: Seq<char>|
            #![trigger has_key(entries.insert(place, entry), key)]
            has_key(entries.insert(place, entry), key) <==> (has_key(entries, key) || key
                == entry.key()),
{
    let after = entries.insert(place, entry);
    assert forall|a: int, b: int| 0 <= a < b < after.len() implies text_lt(
        after[a].key(),
        after[b].key(),
    ) by {
        if a < place && b > place {
            lemma_text_lt_transitive(after[a].key(), entry.key(), after[b].key());
        }
    }
    assert forall|key: Seq<char>| #![trigger has_key(after, key)] has_key(after, key) <==> (
    has_key(entries, key) || key == entry.key()) by {
        if has_key(entries, key) {
            let k = choose|k: int| 0 <= k < entries.len() && entries[k].key() == key;
            if k < place {
                assert(after[k].key() == key);
            } else {
                assert(after[k + 1].key() == key);
            }
        }
        if key == entry.key() {
            assert(after[place].key() == key);
        }
        if has_key(after, key) {
            let k = choose|k: int| 0 <= k < after.len() && after[k].key() == key;
            if k < place {
                assert(entries[k].key() == key);
            } else if k > place {
                assert(entries[k - 1].key() == key);
            }
        }
    }
}

} // verus!
