//! The mathematical model of plist values and of ordered dictionaries.
//!
//! A dictionary is modelled as the sequence of its entries, in iteration
//! order.  Keys are distinct.  Inserting a new key appends an entry,
//! inserting an existing key replaces its value in place, and removing a key
//! moves the last entry into the freed position (a "swap remove").
use vstd::prelude::*;

verus! {

/// What a plist value means: the same shape as a property list, with the
/// dictionaries kept as ordered entry sequences.
pub enum ValueView {
    Array(Seq<ValueView>),
    Dictionary(Seq<(Seq<char>, ValueView)>),
    Boolean(bool),
    Data(Seq<u8>),
    /// Whole seconds since the Unix epoch.
    Date(int),
    /// The bit pattern of an IEEE 754 double.
    Real(u64),
    Integer(int),
    Text(Seq<char>),
    Uid(u64),
}

/// No key occurs twice.
pub open spec fn keys_distinct<V>(e: Seq<(Seq<char>, V)>) -> bool {
    forall|i: int, j: int|
        0 <= i < e.len() && 0 <= j < e.len() && i != j ==> #[trigger] e[i].0 != #[trigger] e[j].0
}

pub open spec fn has_key<V>(e: Seq<(Seq<char>, V)>, k: Seq<char>) -> bool {
    exists|i: int| 0 <= i < e.len() && #[trigger] e[i].0 == k
}

/// The position of key `k` (meaningful when `has_key(e, k)`).
pub open spec fn key_pos<V>(e: Seq<(Seq<char>, V)>, k: Seq<char>) -> int {
    choose|i: int| 0 <= i < e.len() && #[trigger] e[i].0 == k
}

pub open spec fn entries_get<V>(e: Seq<(Seq<char>, V)>, k: Seq<char>) -> Option<V> {
    if has_key(e, k) {
        Some(e[key_pos(e, k)].1)
    } else {
        None
    }
}

/// Insert: an existing key keeps its place and gets the new value; a new key
/// is appended.
pub open spec fn entries_insert<V>(e: Seq<(Seq<char>, V)>, k: Seq<char>, v: V) -> Seq<(Seq<char>, V)> {
    if has_key(e, k) {
        e.update(key_pos(e, k), (k, v))
    } else {
        e.push((k, v))
    }
}

/// Remove: the last entry takes the place of the removed one.
pub open spec fn entries_remove<V>(e: Seq<(Seq<char>, V)>, k: Seq<char>) -> Seq<(Seq<char>, V)> {
    if has_key(e, k) {
        e.update(key_pos(e, k), e.last()).drop_last()
    } else {
        e
    }
}

/// Extend: the entries of `s` inserted one after another, in order.
pub open spec fn entries_extend<V>(e: Seq<(Seq<char>, V)>, s: Seq<(Seq<char>, V)>) -> Seq<(Seq<char>, V)>
    decreases s.len(),
{
    if s.len() == 0 {
        e
    } else {
        entries_extend(entries_insert(e, s[0].0, s[0].1), s.drop_first())
    }
}

/// The position of a key is unique when keys are distinct.
pub proof fn lemma_key_pos<V>(e: Seq<(Seq<char>, V)>, k: Seq<char>, i: int)
    requires
        keys_distinct(e),
        0 <= i < e.len(),
        e[i].0 == k,
    ensures
        has_key(e, k),
        key_pos(e, k) == i,
{
    assert(has_key(e, k));
    let p = key_pos(e, k);
    assert(e[p].0 == k);
}

/// Inserting keeps the keys distinct.
pub proof fn lemma_insert_distinct<V>(e: Seq<(Seq<char>, V)>, k: Seq<char>, v: V)
    requires
        keys_distinct(e),
    ensures
        keys_distinct(entries_insert(e, k, v)),
        has_key(entries_insert(e, k, v), k),
{
    let r = entries_insert(e, k, v);
    if has_key(e, k) {
        let p = key_pos(e, k);
        assert(r[p].0 == k);
    } else {
        assert(r[e.len() as int].0 == k);
        assert forall|i: int, j: int|
            0 <= i < r.len() && 0 <= j < r.len() && i != j implies #[trigger] r[i].0 != #[trigger] r[j].0 by {
            if i == e.len() {
                assert(e[j].0 != k);
            } else if j == e.len() {
                assert(e[i].0 != k);
            }
        }
    }
}

/// Removing keeps the keys distinct and drops the key.
pub proof fn lemma_remove_distinct<V>(e: Seq<(Seq<char>, V)>, k: Seq<char>)
    requires
        keys_distinct(e),
    ensures
        keys_distinct(entries_remove(e, k)),
        !has_key(entries_remove(e, k), k),
{
    let r = entries_remove(e, k);
    if has_key(e, k) {
        let p = key_pos(e, k);
        let last = e.len() - 1;
        assert forall|i: int, j: int|
            0 <= i < r.len() && 0 <= j < r.len() && i != j implies #[trigger] r[i].0 != #[trigger] r[j].0 by {
            if i == p {
                assert(r[i] == e[last]);
            }
            if j == p {
                assert(r[j] == e[last]);
            }
        }
        if has_key(r, k) {
            let q = choose|q: int| 0 <= q < r.len() && #[trigger] r[q].0 == k;
            if q == p {
                assert(r[q] == e[last]);
            } else {
                assert(r[q] == e[q]);
            }
        }
    }
}

} // verus!
