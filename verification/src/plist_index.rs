//! The key index of a dictionary: a `plist::Dictionary` whose values are
//! `Uid`s naming the slot that holds each entry's value.
//!
//! Everything in this file is trusted: the contracts restate what the source
//! of `plist::Dictionary` (backed by `indexmap::IndexMap`) does.
use vstd::prelude::*;
use crate::model::{entries_get, entries_insert, entries_remove};

verus! {

#[verifier::external_type_specification]
#[verifier::external_body]
pub struct ExDictionary(plist::Dictionary);

/// The entries of a `plist::Dictionary`, in iteration order: each key with
/// the number held by its value when that value is a `Uid`, and `None` when
/// the value is of another kind.
pub uninterp spec fn dictionary_entries(d: plist::Dictionary) -> Seq<(Seq<char>, Option<u64>)>;

/// `plist::Dictionary::new`: an empty dictionary.
#[verifier::external_body]
pub(crate) fn index_new() -> (d: plist::Dictionary)
    ensures
        dictionary_entries(d) == Seq::<(Seq<char>, Option<u64>)>::empty(),
{
    plist::Dictionary::new()
}

/// `plist::Dictionary::len`: the number of entries.
#[verifier::external_body]
pub(crate) fn index_len(d: &plist::Dictionary) -> (n: usize)
    ensures
        n == dictionary_entries(*d).len(),
{
    d.len()
}

/// `plist::Dictionary::get`: the value stored under `key`, if any, taken as
/// its `Uid` number (`Some(None)` for a value of another kind).
#[verifier::external_body]
pub(crate) fn index_get(d: &plist::Dictionary, key: &str) -> (r: Option<Option<u64>>)
    ensures
        r == entries_get(dictionary_entries(*d), key@),
{
    match d.get(key) {
        Some(plist::Value::Uid(u)) => Some(Some(u.get())),
        Some(_) => Some(None),
        None => None,
    }
}

/// `plist::Dictionary::insert` of `Value::Uid(Uid::new(uid))`: an existing
/// key keeps its position and gets the new value, a new key goes last.
#[verifier::external_body]
pub(crate) fn index_insert(d: &mut plist::Dictionary, key: String, uid: u64)
    ensures
        dictionary_entries(*final(d)) == entries_insert(dictionary_entries(*old(d)), key@, Some(uid)),
{
    d.insert(key, plist::Value::Uid(plist::Uid::new(uid)));
}

/// `plist::Dictionary::remove`, which is `IndexMap::swap_remove`: the last
/// entry moves into the position of the removed one.  Returns the removed
/// value taken as its `Uid` number.
#[verifier::external_body]
pub(crate) fn index_remove(d: &mut plist::Dictionary, key: &str) -> (r: Option<Option<u64>>)
    ensures
        r == entries_get(dictionary_entries(*old(d)), key@),
        dictionary_entries(*final(d)) == entries_remove(dictionary_entries(*old(d)), key@),
{
    match d.remove(key) {
        Some(plist::Value::Uid(u)) => Some(Some(u.get())),
        Some(_) => Some(None),
        None => None,
    }
}

/// `plist::Dictionary::iter` followed by `nth(i)`: the key at position `i`,
/// with its value taken as its `Uid` number.
#[verifier::external_body]
pub(crate) fn index_entry_at(d: &plist::Dictionary, i: usize) -> (r: Option<(String, Option<u64>)>)
    ensures
        i < dictionary_entries(*d).len() <==> r is Some,
        r matches Some(p) ==> p.0@ == dictionary_entries(*d)[i as int].0 && p.1
            == dictionary_entries(*d)[i as int].1,
{
    match d.iter().nth(i) {
        Some((k, plist::Value::Uid(u))) => Some((k.clone(), Some(u.get()))),
        Some((k, _)) => Some((k.clone(), None)),
        None => None,
    }
}

/// `plist::Dictionary::clone`: the same entries in the same order.
#[verifier::external_body]
pub(crate) fn index_clone(d: &plist::Dictionary) -> (c: plist::Dictionary)
    ensures
        dictionary_entries(c) == dictionary_entries(*d),
{
    d.clone()
}

} // verus!
