//! Dictionary operations of the C API, and the readings of a dictionary
//! item as a boolean or an integer that `plist_dict_get_bool`,
//! `plist_dict_get_int` and `plist_dict_get_uint` perform.
use vstd::prelude::*;
use crate::model::{ValueView, has_key, key_pos, entries_get, entries_insert, entries_remove, entries_extend};
use crate::value::{PlistValue, PlistDict, PlistInteger, lemma_dictionary_wf};
use crate::number::{text_truth, parsed_i64, parsed_u64, data_as_signed, data_as_unsigned, parse_truth,
    parse_i64, parse_u64, le_bytes_value};
use crate::{PlistErr, PlistWrapper, NodeType};

verus! {

/// How an item reads as a boolean: a boolean as itself; a single byte of
/// data as whether it is at least 1; an integer as whether it is at least 1;
/// the text `true` or `false` in any ASCII case.  Anything else does not
/// read as a boolean.
pub open spec fn truth_of(v: ValueView) -> Option<bool> {
    match v {
        ValueView::Boolean(b) => Some(b),
        ValueView::Data(d) => if d.len() == 1 { Some(d[0] >= 1) } else { None },
        ValueView::Integer(n) => Some(n >= 1),
        ValueView::Text(s) => text_truth(s),
        _ => None,
    }
}

/// How an item reads as an `i64`: an integer that fits; 1 byte of data
/// (unsigned) or 2, 4 or 8 bytes (little-endian two's complement); text
/// that parses as a decimal number, or else as a hexadecimal one.
pub open spec fn signed_of(v: ValueView) -> Option<i64> {
    match v {
        ValueView::Data(d) => data_as_signed(d),
        ValueView::Integer(n) => if i64::MIN <= n <= i64::MAX { Some(n as i64) } else { None },
        ValueView::Text(s) => if parsed_i64(s, 10) is Some { parsed_i64(s, 10) } else { parsed_i64(s, 16) },
        _ => None,
    }
}

/// How an item reads as a `u64`: an integer that fits; 1, 2, 4 or 8 bytes
/// of data (little-endian); text that parses as a decimal number, or else as
/// a hexadecimal one.
pub open spec fn unsigned_of(v: ValueView) -> Option<u64> {
    match v {
        ValueView::Data(d) => data_as_unsigned(d),
        ValueView::Integer(n) => if 0 <= n <= u64::MAX { Some(n as u64) } else { None },
        ValueView::Text(s) => if parsed_u64(s, 10) is Some { parsed_u64(s, 10) } else { parsed_u64(s, 16) },
        _ => None,
    }
}

/// The reading of the item under `k`, if there is one.
pub open spec fn item_reading<T>(e: Seq<(Seq<char>, ValueView)>, k: Seq<char>, read: spec_fn(ValueView) -> Option<T>) -> Option<T> {
    match entries_get(e, k) {
        Some(v) => read(v),
        None => None,
    }
}

/// Read a value as a boolean.
pub fn value_truth(v: &PlistValue) -> (r: Option<bool>)
    ensures
        r == truth_of(v@),
{
    match v {
        PlistValue::Boolean(b) => Some(*b),
        PlistValue::Data(d) => {
            if d.len() != 1 {
                None
            } else if d[0] < 1 {
                Some(false)
            } else {
                Some(true)
            }
        },
        PlistValue::Integer(i) => {
            if let Some(i) = i.as_signed() {
                if i < 1 {
                    Some(false)
                } else {
                    Some(true)
                }
            } else if let Some(i) = i.as_unsigned() {
                if i < 1 {
                    Some(false)
                } else {
                    Some(true)
                }
            } else {
                None
            }
        },
        PlistValue::Text(s) => parse_truth(s.as_str()),
        _ => None,
    }
}

/// Read a value as an `i64`.
pub fn value_as_i64(v: &PlistValue) -> (r: Option<i64>)
    ensures
        r == signed_of(v@),
{
    match v {
        PlistValue::Data(d) => {
            let n = d.len();
            if n == 1 {
                Some(d[0] as i64)
            } else if n == 2 || n == 4 || n == 8 {
                let u = le_bytes_value(d);
                let half: u64 = if n == 2 {
                    0x8000
                } else if n == 4 {
                    0x8000_0000
                } else {
                    0x8000_0000_0000_0000
                };
                if u >= half {
                    let s: i128 = (u as i128) - 2 * (half as i128);
                    Some(s as i64)
                } else {
                    Some(u as i64)
                }
            } else {
                None
            }
        },
        PlistValue::Integer(i) => {
            if let Some(i) = i.as_signed() {
                Some(i)
            } else if let Some(u) = i.as_unsigned() {
                if u <= 0x7fff_ffff_ffff_ffff {
                    Some(u as i64)
                } else {
                    None
                }
            } else {
                None
            }
        },
        PlistValue::Text(s) => {
            if let Some(n) = parse_i64(s.as_str(), 10) {
                Some(n)
            } else {
                parse_i64(s.as_str(), 16)
            }
        },
        _ => None,
    }
}

/// Read a value as a `u64`.
pub fn value_as_u64(v: &PlistValue) -> (r: Option<u64>)
    ensures
        r == unsigned_of(v@),
{
    match v {
        PlistValue::Data(d) => {
            let n = d.len();
            if n == 1 || n == 2 || n == 4 || n == 8 {
                Some(le_bytes_value(d))
            } else {
                None
            }
        },
        PlistValue::Integer(i) => {
            if let Some(u) = i.as_unsigned() {
                Some(u)
            } else if let Some(s) = i.as_signed() {
                if s >= 0 {
                    Some(s as u64)
                } else {
                    None
                }
            } else {
                None
            }
        },
        PlistValue::Text(s) => {
            if let Some(n) = parse_u64(s.as_str(), 10) {
                Some(n)
            } else {
                parse_u64(s.as_str(), 16)
            }
        },
        _ => None,
    }
}

/// The item under `key` read as a boolean.
pub fn internal_get_bool(d: &PlistDict, key: &String) -> (r: Option<bool>)
    requires
        d.wf(),
    ensures
        r == item_reading(d@, key@, |v: ValueView| truth_of(v)),
{
    match d.get(key) {
        Some(v) => value_truth(v),
        None => None,
    }
}

/// The item under `key` read as an `i64`.
pub fn internal_get_i64(d: &PlistDict, key: &String) -> (r: Option<i64>)
    requires
        d.wf(),
    ensures
        r == item_reading(d@, key@, |v: ValueView| signed_of(v)),
{
    match d.get(key) {
        Some(v) => value_as_i64(v),
        None => None,
    }
}

/// The item under `key` read as a `u64`.
pub fn internal_get_u64(d: &PlistDict, key: &String) -> (r: Option<u64>)
    requires
        d.wf(),
    ensures
        r == item_reading(d@, key@, |v: ValueView| unsigned_of(v)),
{
    match d.get(key) {
        Some(v) => value_as_u64(v),
        None => None,
    }
}

/// The number of entries of a dictionary node (0 for other nodes), as the
/// C API's `u32`.
pub fn plist_dict_get_size(node: &PlistValue) -> (n: u32)
    requires
        node.wf(),
    ensures
        n == (match node@ {
            ValueView::Dictionary(e) => e.len() as u32,
            _ => 0u32,
        }),
{
    match node {
        PlistValue::Dictionary(d) => {
            proof { lemma_dictionary_wf(*d); }
            d.len() as u32
        },
        _ => 0,
    }
}

/// A new iterator over a dictionary, at its first entry.
pub fn plist_dict_new_iter() -> (it: PlistWrapper)
    ensures
        it@ == NodeType::Iterator(0),
{
    PlistWrapper::new_iterator(0)
}

/// What one step of iterating over entries `e` from position `n` reports:
/// the key and position of the entry there, or `None` past the last entry.
pub open spec fn iteration_step(e: Seq<(Seq<char>, ValueView)>, n: int) -> Option<(Seq<char>, int)> {
    if 0 <= n < e.len() {
        Some((e[n].0, n))
    } else {
        None
    }
}

/// One step of iterating a dictionary node.  `None`: the node is not a
/// dictionary, and the iterator is not touched.  Otherwise the iterator
/// moves one on, and the step reports `iteration_step` at the position it
/// stood at.
pub fn plist_dict_next_item(node: &PlistValue, iter: &mut PlistWrapper) -> (r: Option<Option<(String, usize)>>)
    requires
        node.wf(),
        node@ is Dictionary ==> (old(iter)@ matches NodeType::Iterator(n) && n < u32::MAX),
    ensures
        !(node@ is Dictionary) ==> r is None && final(iter)@ == old(iter)@,
        node@ matches ValueView::Dictionary(e) ==> {
            let n = old(iter)@->Iterator_0;
            &&& final(iter)@ == NodeType::Iterator((n + 1) as u32)
            &&& r matches Some(step) && match step {
                Some(p) => iteration_step(e, n as int) == Some((p.0@, p.1 as int)),
                None => iteration_step(e, n as int) is None,
            }
        },
{
    match node {
        PlistValue::Dictionary(d) => {
            proof { lemma_dictionary_wf(*d); }
            let i = iter.iter_next();
            if i as usize >= d.len() {
                Some(None)
            } else {
                let (k, _) = d.entry_at(i as usize);
                Some(Some((k, i as usize)))
            }
        },
        _ => None,
    }
}

/// The key by which a child handle was reached; `None` for a handle that
/// owns its node, or a child reached without a key.
pub fn plist_dict_get_item_key(node: &PlistWrapper) -> (k: Option<String>)
    requires
        !(node@ is Iterator),
    ensures
        node@ is Node ==> k is None,
        node@ matches NodeType::Child { key, .. } ==> k == key,
{
    match node.node() {
        NodeType::Node(_) => None,
        NodeType::Child { key, .. } => match key {
            Some(key) => Some(key.clone()),
            None => None,
        },
        NodeType::Iterator(_) => vstd::pervasive::unreached(),
    }
}

/// The position of the item under `key` in a dictionary node; `None` when
/// the node is not a dictionary or lacks the key.
pub fn plist_dict_get_item(node: &PlistValue, key: &String) -> (r: Option<usize>)
    requires
        node.wf(),
    ensures
        r == (match node@ {
            ValueView::Dictionary(e) => if has_key(e, key@) {
                Some(key_pos(e, key@) as usize)
            } else {
                None::<usize>
            },
            _ => None::<usize>,
        }),
{
    match node {
        PlistValue::Dictionary(d) => {
            proof { lemma_dictionary_wf(*d); }
            d.position(key)
        },
        _ => None,
    }
}

/// A new text node holding the key by which a child handle was reached;
/// `None` for a handle that owns its node or has no key.
pub fn plist_dict_item_get_key(node: &PlistWrapper) -> (r: Option<PlistValue>)
    requires
        !(node@ is Iterator),
    ensures
        node@ is Node ==> r is None,
        node@ matches NodeType::Child { key, .. } ==> match key {
            Some(k) => r matches Some(v) && v@ == ValueView::Text(k@),
            None => r is None,
        },
        r matches Some(v) ==> v.wf(),
{
    match plist_dict_get_item_key(node) {
        Some(k) => Some(PlistValue::Text(k)),
        None => None,
    }
}

/// Store the node of `item` under `key` in a dictionary node.  A node that
/// is not a dictionary is left as it is.
pub fn plist_dict_set_item(node: &mut PlistValue, key: String, item: PlistWrapper)
    requires
        old(node).wf(),
        item.wf(),
        old(node)@ is Dictionary ==> item@ is Node,
    ensures
        final(node).wf(),
        old(node)@ matches ValueView::Dictionary(e) ==> final(node)@ == ValueView::Dictionary(
            entries_insert(e, key@, item@->Node_0@),
        ),
        !(old(node)@ is Dictionary) ==> *final(node) == *old(node),
{
    match node {
        PlistValue::Dictionary(d) => {
            proof { lemma_dictionary_wf(*d); }
            let v = item.consume();
            let v = v.unwrap();
            d.insert(key, v);
            proof { lemma_dictionary_wf(*d); }
        },
        _ => {},
    }
}

/// Remove the item under `key` from a dictionary node, which must hold it.
/// A node that is not a dictionary is left as it is.
pub fn plist_dict_remove_item(node: &mut PlistValue, key: &String)
    requires
        old(node).wf(),
        old(node)@ matches ValueView::Dictionary(e) ==> has_key(e, key@),
    ensures
        final(node).wf(),
        old(node)@ matches ValueView::Dictionary(e) ==> final(node)@ == ValueView::Dictionary(
            entries_remove(e, key@),
        ),
        !(old(node)@ is Dictionary) ==> *final(node) == *old(node),
{
    match node {
        PlistValue::Dictionary(d) => {
            proof { lemma_dictionary_wf(*d); }
            d.remove(key);
            proof { lemma_dictionary_wf(*d); }
        },
        _ => {},
    }
}

/// Merge a dictionary node into another: every entry of `source`, in order,
/// is stored in `target` as by [`plist_dict_set_item`].  When either node is
/// not a dictionary, `target` is left as it is.  `source` is consumed.
pub fn plist_dict_merge(target: &mut PlistValue, source: PlistWrapper)
    requires
        old(target).wf(),
        source.wf(),
        source@ is Node,
    ensures
        final(target).wf(),
        (old(target)@, source@->Node_0@) matches (ValueView::Dictionary(et), ValueView::Dictionary(es))
            ==> final(target)@ == ValueView::Dictionary(entries_extend(et, es)),
        !(old(target)@ is Dictionary && source@->Node_0@ is Dictionary) ==> *final(target) == *old(target),
{
    let src = source.consume();
    let src = src.unwrap();
    match target {
        PlistValue::Dictionary(dt) => match &src {
            PlistValue::Dictionary(ds) => {
                proof {
                    lemma_dictionary_wf(*dt);
                    lemma_dictionary_wf(*ds);
                }
                let ghost et0 = dt@;
                let n = ds.len();
                let mut i: usize = 0;
                proof {
                    assert(ds@.subrange(0, n as int) =~= ds@);
                }
                while i < n
                    invariant
                        dt.wf(),
                        ds.wf(),
                        n == ds@.len(),
                        i <= n,
                        entries_extend(dt@, ds@.subrange(i as int, n as int)) == entries_extend(et0, ds@),
                    decreases n - i,
                {
                    let ghost rest = ds@.subrange(i as int, n as int);
                    let (k, v) = ds.entry_at(i);
                    let c = v.deep_copy();
                    proof {
                        assert(rest[0] == ds@[i as int]);
                        assert(rest.drop_first() =~= ds@.subrange(i + 1, n as int));
                    }
                    dt.insert(k, c);
                    i = i + 1;
                }
                proof {
                    assert(ds@.subrange(n as int, n as int) =~= Seq::<(Seq<char>, ValueView)>::empty());
                    lemma_dictionary_wf(*dt);
                }
            },
            _ => {},
        },
        _ => {},
    }
}

/// The key to look up in the source dictionary: the alternative one when
/// it is given.
pub open spec fn lookup_key(key: Seq<char>, alt_source_key: Option<Seq<char>>) -> Seq<char> {
    match alt_source_key {
        Some(k) => k,
        None => key,
    }
}

/// The target after copying the item under `lookup` in `source`, turned
/// into a new value by `convert`, to `key` in `target`; `None` when the
/// nodes are not both dictionaries, the key is missing, or the item does
/// not convert.
pub open spec fn copied(
    target: ValueView,
    source: ValueView,
    key: Seq<char>,
    lookup: Seq<char>,
    convert: spec_fn(ValueView) -> Option<ValueView>,
) -> Option<ValueView> {
    match (target, source) {
        (ValueView::Dictionary(et), ValueView::Dictionary(es)) => match entries_get(es, lookup) {
            Some(v) => match convert(v) {
                Some(w) => Some(ValueView::Dictionary(entries_insert(et, key, w))),
                None => None,
            },
            None => None,
        },
        _ => None,
    }
}

/// The outcome of a copy: success and the new target, or
/// `PLIST_ERR_INVALID_ARG` and the target unchanged.
pub open spec fn copy_outcome(
    r: PlistErr,
    old_target: PlistValue,
    new_target: PlistValue,
    expected: Option<ValueView>,
) -> bool {
    match expected {
        Some(t) => r == PlistErr::PLIST_ERR_SUCCESS && new_target@ == t,
        None => r == PlistErr::PLIST_ERR_INVALID_ARG && new_target == old_target,
    }
}

pub open spec fn as_item(v: ValueView) -> Option<ValueView> {
    Some(v)
}

pub open spec fn as_boolean(v: ValueView) -> Option<ValueView> {
    match truth_of(v) {
        Some(b) => Some(ValueView::Boolean(b)),
        None => None,
    }
}

pub open spec fn as_signed_integer(v: ValueView) -> Option<ValueView> {
    match signed_of(v) {
        Some(n) => Some(ValueView::Integer(n as int)),
        None => None,
    }
}

pub open spec fn as_unsigned_integer(v: ValueView) -> Option<ValueView> {
    match unsigned_of(v) {
        Some(n) => Some(ValueView::Integer(n as int)),
        None => None,
    }
}

pub open spec fn as_data(v: ValueView) -> Option<ValueView> {
    if v is Data {
        Some(v)
    } else {
        None
    }
}

pub open spec fn as_text(v: ValueView) -> Option<ValueView> {
    if v is Text {
        Some(v)
    } else {
        None
    }
}

fn pick_lookup<'a>(key: &'a String, alt_source_key: Option<&'a String>) -> (k: &'a String)
    ensures
        k@ == lookup_key(key@, match alt_source_key {
            Some(a) => Some(a@),
            None => None,
        }),
{
    match alt_source_key {
        Some(a) => a,
        None => key,
    }
}

/// The view of an optional key.
pub open spec fn opt_view(k: Option<&String>) -> Option<Seq<char>> {
    match k {
        Some(a) => Some(a@),
        None => None,
    }
}

/// Copy the item under `key` (or `alt_source_key`) of the dictionary node
/// `source` to `key` in the dictionary node `target`.
pub fn plist_dict_copy_item(
    target: &mut PlistValue,
    source: &PlistValue,
    key: &String,
    alt_source_key: Option<&String>,
) -> (r: PlistErr)
    requires
        old(target).wf(),
        source.wf(),
    ensures
        final(target).wf(),
        copy_outcome(r, *old(target), *final(target), copied(old(target)@, source@, key@,
            lookup_key(key@, opt_view(alt_source_key)), |v: ValueView| as_item(v))),
{
    let lookup = pick_lookup(key, alt_source_key);
    match target {
        PlistValue::Dictionary(dt) => match source {
            PlistValue::Dictionary(ds) => {
                proof {
                    lemma_dictionary_wf(*dt);
                    lemma_dictionary_wf(*ds);
                }
                match ds.get(lookup) {
                    Some(v) => {
                        let c = v.deep_copy();
                        dt.insert(key.clone(), c);
                        proof { lemma_dictionary_wf(*dt); }
                        PlistErr::PLIST_ERR_SUCCESS
                    },
                    None => PlistErr::PLIST_ERR_INVALID_ARG,
                }
            },
            _ => PlistErr::PLIST_ERR_INVALID_ARG,
        },
        _ => PlistErr::PLIST_ERR_INVALID_ARG,
    }
}

/// Copy the item under `key` (or `alt_source_key`) of `source`, read as a
/// boolean, to `key` in `target` as a boolean node.
pub fn plist_dict_copy_bool(
    target: &mut PlistValue,
    source: &PlistValue,
    key: &String,
    alt_source_key: Option<&String>,
) -> (r: PlistErr)
    requires
        old(target).wf(),
        source.wf(),
    ensures
        final(target).wf(),
        copy_outcome(r, *old(target), *final(target), copied(old(target)@, source@, key@,
            lookup_key(key@, opt_view(alt_source_key)), |v: ValueView| as_boolean(v))),
{
    let lookup = pick_lookup(key, alt_source_key);
    match target {
        PlistValue::Dictionary(dt) => match source {
            PlistValue::Dictionary(ds) => {
                proof {
                    lemma_dictionary_wf(*dt);
                    lemma_dictionary_wf(*ds);
                }
                match internal_get_bool(ds, lookup) {
                    Some(b) => {
                        dt.insert(key.clone(), PlistValue::Boolean(b));
                        proof { lemma_dictionary_wf(*dt); }
                        PlistErr::PLIST_ERR_SUCCESS
                    },
                    None => PlistErr::PLIST_ERR_INVALID_ARG,
                }
            },
            _ => PlistErr::PLIST_ERR_INVALID_ARG,
        },
        _ => PlistErr::PLIST_ERR_INVALID_ARG,
    }
}

/// Copy the item under `key` (or `alt_source_key`) of `source`, read as an
/// `i64`, to `key` in `target` as an integer node.
pub fn plist_dict_copy_int(
    target: &mut PlistValue,
    source: &PlistValue,
    key: &String,
    alt_source_key: Option<&String>,
) -> (r: PlistErr)
    requires
        old(target).wf(),
        source.wf(),
    ensures
        final(target).wf(),
        copy_outcome(r, *old(target), *final(target), copied(old(target)@, source@, key@,
            lookup_key(key@, opt_view(alt_source_key)), |v: ValueView| as_signed_integer(v))),
{
    let lookup = pick_lookup(key, alt_source_key);
    match target {
        PlistValue::Dictionary(dt) => match source {
            PlistValue::Dictionary(ds) => {
                proof {
                    lemma_dictionary_wf(*dt);
                    lemma_dictionary_wf(*ds);
                }
                match internal_get_i64(ds, lookup) {
                    Some(i) => {
                        dt.insert(key.clone(), PlistValue::Integer(PlistInteger::from_signed(i)));
                        proof { lemma_dictionary_wf(*dt); }
                        PlistErr::PLIST_ERR_SUCCESS
                    },
                    None => PlistErr::PLIST_ERR_INVALID_ARG,
                }
            },
            _ => PlistErr::PLIST_ERR_INVALID_ARG,
        },
        _ => PlistErr::PLIST_ERR_INVALID_ARG,
    }
}

/// Copy the item under `key` (or `alt_source_key`) of `source`, read as a
/// `u64`, to `key` in `target` as an integer node.
pub fn plist_dict_copy_uint(
    target: &mut PlistValue,
    source: &PlistValue,
    key: &String,
    alt_source_key: Option<&String>,
) -> (r: PlistErr)
    requires
        old(target).wf(),
        source.wf(),
    ensures
        final(target).wf(),
        copy_outcome(r, *old(target), *final(target), copied(old(target)@, source@, key@,
            lookup_key(key@, opt_view(alt_source_key)), |v: ValueView| as_unsigned_integer(v))),
{
    let lookup = pick_lookup(key, alt_source_key);
    match target {
        PlistValue::Dictionary(dt) => match source {
            PlistValue::Dictionary(ds) => {
                proof {
                    lemma_dictionary_wf(*dt);
                    lemma_dictionary_wf(*ds);
                }
                match internal_get_u64(ds, lookup) {
                    Some(u) => {
                        dt.insert(key.clone(), PlistValue::Integer(PlistInteger::from_unsigned(u)));
                        proof { lemma_dictionary_wf(*dt); }
                        PlistErr::PLIST_ERR_SUCCESS
                    },
                    None => PlistErr::PLIST_ERR_INVALID_ARG,
                }
            },
            _ => PlistErr::PLIST_ERR_INVALID_ARG,
        },
        _ => PlistErr::PLIST_ERR_INVALID_ARG,
    }
}

/// Copy the data item under `key` (or `alt_source_key`) of `source` to
/// `key` in `target`; an item of another kind is not copied.
pub fn plist_dict_copy_data(
    target: &mut PlistValue,
    source: &PlistValue,
    key: &String,
    alt_source_key: Option<&String>,
) -> (r: PlistErr)
    requires
        old(target).wf(),
        source.wf(),
    ensures
        final(target).wf(),
        copy_outcome(r, *old(target), *final(target), copied(old(target)@, source@, key@,
            lookup_key(key@, opt_view(alt_source_key)), |v: ValueView| as_data(v))),
{
    let lookup = pick_lookup(key, alt_source_key);
    match target {
        PlistValue::Dictionary(dt) => match source {
            PlistValue::Dictionary(ds) => {
                proof {
                    lemma_dictionary_wf(*dt);
                    lemma_dictionary_wf(*ds);
                }
                match ds.get(lookup) {
                    Some(PlistValue::Data(d)) => {
                        let c = d.clone();
                        assert(c@ =~= d@);
                        dt.insert(key.clone(), PlistValue::Data(c));
                        proof { lemma_dictionary_wf(*dt); }
                        PlistErr::PLIST_ERR_SUCCESS
                    },
                    _ => PlistErr::PLIST_ERR_INVALID_ARG,
                }
            },
            _ => PlistErr::PLIST_ERR_INVALID_ARG,
        },
        _ => PlistErr::PLIST_ERR_INVALID_ARG,
    }
}

/// Copy the text item under `key` (or `alt_source_key`) of `source` to
/// `key` in `target`; an item of another kind is not copied.
pub fn plist_dict_copy_string(
    target: &mut PlistValue,
    source: &PlistValue,
    key: &String,
    alt_source_key: Option<&String>,
) -> (r: PlistErr)
    requires
        old(target).wf(),
        source.wf(),
    ensures
        final(target).wf(),
        copy_outcome(r, *old(target), *final(target), copied(old(target)@, source@, key@,
            lookup_key(key@, opt_view(alt_source_key)), |v: ValueView| as_text(v))),
{
    let lookup = pick_lookup(key, alt_source_key);
    match target {
        PlistValue::Dictionary(dt) => match source {
            PlistValue::Dictionary(ds) => {
                proof {
                    lemma_dictionary_wf(*dt);
                    lemma_dictionary_wf(*ds);
                }
                match ds.get(lookup) {
                    Some(PlistValue::Text(s)) => {
                        dt.insert(key.clone(), PlistValue::Text(s.clone()));
                        proof { lemma_dictionary_wf(*dt); }
                        PlistErr::PLIST_ERR_SUCCESS
                    },
                    _ => PlistErr::PLIST_ERR_INVALID_ARG,
                }
            },
            _ => PlistErr::PLIST_ERR_INVALID_ARG,
        },
        _ => PlistErr::PLIST_ERR_INVALID_ARG,
    }
}

/// A dictionary node's item under `key` read as a boolean: 1 for true, 0
/// for false, for an item that does not read as a boolean, and for a node
/// that is not a dictionary.
pub fn plist_dict_get_bool(dict: &PlistValue, key: &String) -> (r: u8)
    requires
        dict.wf(),
    ensures
        r == (match dict@ {
            ValueView::Dictionary(e) => if item_reading(e, key@, |v: ValueView| truth_of(v)) == Some(true) {
                1u8
            } else {
                0u8
            },
            _ => 0u8,
        }),
{
    match dict {
        PlistValue::Dictionary(d) => {
            proof { lemma_dictionary_wf(*d); }
            match internal_get_bool(d, key) {
                Some(true) => 1,
                Some(false) => 0,
                None => 0,
            }
        },
        _ => 0,
    }
}

/// A dictionary node's item under `key` read as an `i64`; 0 when it does
/// not read as one or the node is not a dictionary.
pub fn plist_dict_get_int(dict: &PlistValue, key: &String) -> (r: i64)
    requires
        dict.wf(),
    ensures
        r == (match dict@ {
            ValueView::Dictionary(e) => match item_reading(e, key@, |v: ValueView| signed_of(v)) {
                Some(n) => n,
                None => 0i64,
            },
            _ => 0i64,
        }),
{
    match dict {
        PlistValue::Dictionary(d) => {
            proof { lemma_dictionary_wf(*d); }
            match internal_get_i64(d, key) {
                Some(n) => n,
                None => 0,
            }
        },
        _ => 0,
    }
}

/// A dictionary node's item under `key` read as a `u64`; 0 when it does
/// not read as one or the node is not a dictionary.
pub fn plist_dict_get_uint(dict: &PlistValue, key: &String) -> (r: u64)
    requires
        dict.wf(),
    ensures
        r == (match dict@ {
            ValueView::Dictionary(e) => match item_reading(e, key@, |v: ValueView| unsigned_of(v)) {
                Some(n) => n,
                None => 0u64,
            },
            _ => 0u64,
        }),
{
    match dict {
        PlistValue::Dictionary(d) => {
            proof { lemma_dictionary_wf(*d); }
            match internal_get_u64(d, key) {
                Some(n) => n,
                None => 0,
            }
        },
        _ => 0,
    }
}

} // verus!
