//! Properties of the library as a whole, stated over the model that the
//! functions' contracts use.
use vstd::prelude::*;
use crate::model::{ValueView, keys_distinct, has_key, key_pos, entries_get, entries_insert, entries_remove,
    entries_extend, lemma_key_pos, lemma_insert_distinct, lemma_remove_distinct};
use crate::number::{pow256, le_encode, lemma_le_round_trip, decimal_digits, decimal_text,
    lemma_decimal_round_trip, digit_value};
use crate::value::{PlistValue, lemma_dictionary_wf, lemma_keys_distinct};
use crate::dict::{copied, lookup_key, truth_of, signed_of, unsigned_of, as_item, as_boolean, as_signed_integer,
    as_unsigned_integer, as_data, as_text, iteration_step};

verus! {

/// A dictionary never holds a key twice, so iterating over it meets every
/// key once.
pub proof fn law_keys_unique(node: PlistValue)
    requires
        node.wf(),
    ensures
        node@ matches ValueView::Dictionary(e) ==> keys_distinct(e),
{
    if let PlistValue::Dictionary(d) = node {
        lemma_dictionary_wf(d);
        lemma_keys_distinct(d);
    }
}

/// Reading a key gives what was last stored under it; the other keys keep
/// their items.
pub proof fn law_get_after_set<V>(e: Seq<(Seq<char>, V)>, k: Seq<char>, v: V, k2: Seq<char>)
    requires
        keys_distinct(e),
    ensures
        entries_get(entries_insert(e, k, v), k2) == (if k2 == k { Some(v) } else { entries_get(e, k2) }),
{
    let r = entries_insert(e, k, v);
    lemma_insert_distinct(e, k, v);
    if has_key(e, k) {
        let p = key_pos(e, k);
        lemma_key_pos(r, k, p);
        if k2 != k && has_key(e, k2) {
            let q = key_pos(e, k2);
            lemma_key_pos(r, k2, q);
        }
        if k2 != k && has_key(r, k2) {
            let q = key_pos(r, k2);
            assert(e[q].0 == k2);
        }
    } else {
        lemma_key_pos(r, k, e.len() as int);
        if k2 != k && has_key(e, k2) {
            let q = key_pos(e, k2);
            lemma_key_pos(r, k2, q);
        }
        if k2 != k && has_key(r, k2) {
            let q = key_pos(r, k2);
            assert(e[q].0 == k2);
        }
    }
}

/// After a key is removed it is absent; the other keys keep their items.
pub proof fn law_get_after_remove<V>(e: Seq<(Seq<char>, V)>, k: Seq<char>, k2: Seq<char>)
    requires
        keys_distinct(e),
    ensures
        entries_get(entries_remove(e, k), k2) == (if k2 == k { None } else { entries_get(e, k2) }),
{
    let r = entries_remove(e, k);
    lemma_remove_distinct(e, k);
    if has_key(e, k) && k2 != k {
        let p = key_pos(e, k);
        let last = e.len() - 1;
        if has_key(e, k2) {
            let q = key_pos(e, k2);
            if q == last {
                lemma_key_pos(r, k2, p);
            } else {
                lemma_key_pos(r, k2, q);
            }
        }
        if has_key(r, k2) {
            let q = key_pos(r, k2);
            if q == p {
                assert(e[last].0 == k2);
            } else {
                assert(e[q].0 == k2);
            }
        }
    }
}

/// Storing under a new key adds one entry; under a present key, none.
/// Removing a present key takes one away.
pub proof fn law_sizes<V>(e: Seq<(Seq<char>, V)>, k: Seq<char>, v: V)
    ensures
        entries_insert(e, k, v).len() == e.len() + (if has_key(e, k) { 0int } else { 1int }),
        entries_remove(e, k).len() == e.len() - (if has_key(e, k) { 1int } else { 0int }),
{
}

/// Storing an item leaves every present key where it was; a new key comes
/// last.
pub proof fn law_set_keeps_order<V>(e: Seq<(Seq<char>, V)>, k: Seq<char>, v: V, k2: Seq<char>)
    requires
        keys_distinct(e),
    ensures
        has_key(e, k2) ==> key_pos(entries_insert(e, k, v), k2) == key_pos(e, k2),
        !has_key(e, k) ==> key_pos(entries_insert(e, k, v), k) == e.len(),
{
    let r = entries_insert(e, k, v);
    lemma_insert_distinct(e, k, v);
    if has_key(e, k2) {
        let q = key_pos(e, k2);
        assert(r[q].0 == k2);
        lemma_key_pos(r, k2, q);
    }
    if !has_key(e, k) {
        lemma_key_pos(r, k, e.len() as int);
    }
}

/// Merging: each key of the source gets the source's item, every other key
/// keeps the target's, and no key occurs twice.
pub proof fn law_merge<V>(e: Seq<(Seq<char>, V)>, s: Seq<(Seq<char>, V)>, k: Seq<char>)
    requires
        keys_distinct(e),
        keys_distinct(s),
    ensures
        keys_distinct(entries_extend(e, s)),
        entries_get(entries_extend(e, s), k) == (if has_key(s, k) { entries_get(s, k) } else { entries_get(e, k) }),
    decreases s.len(),
{
    if s.len() > 0 {
        let e1 = entries_insert(e, s[0].0, s[0].1);
        let t = s.drop_first();
        lemma_insert_distinct(e, s[0].0, s[0].1);
        assert(keys_distinct(t)) by {
            assert forall|i: int, j: int| 0 <= i < t.len() && 0 <= j < t.len() && i != j implies
                #[trigger] t[i].0 != #[trigger] t[j].0 by {
                assert(t[i] == s[i + 1]);
                assert(t[j] == s[j + 1]);
            }
        }
        law_merge(e1, t, k);
        law_get_after_set(e, s[0].0, s[0].1, k);
        if has_key(t, k) {
            let q = key_pos(t, k);
            assert(t[q] == s[q + 1]);
            lemma_key_pos(s, k, q + 1);
        } else if k == s[0].0 {
            lemma_key_pos(s, k, 0);
        } else if has_key(s, k) {
            let q = key_pos(s, k);
            assert(q != 0);
            assert(t[q - 1] == s[q]);
        }
    }
}

/// After a successful copy, the target's item under `key` is the source's
/// item under the key that was looked up.
pub proof fn law_copy_item(target: PlistValue, source: PlistValue, key: Seq<char>, alt_source_key: Option<Seq<char>>)
    requires
        target.wf(),
        source.wf(),
    ensures
        copied(target@, source@, key, lookup_key(key, alt_source_key), |v: ValueView| as_item(v)) matches Some(
            ValueView::Dictionary(t),
        ) ==> source@ matches ValueView::Dictionary(es) && entries_get(t, key) == entries_get(
            es,
            lookup_key(key, alt_source_key),
        ),
{
    if let (ValueView::Dictionary(et), ValueView::Dictionary(es)) = (target@, source@) {
        law_keys_unique(target);
        let lk = lookup_key(key, alt_source_key);
        if let Some(v) = entries_get(es, lk) {
            law_get_after_set(et, key, v, key);
        }
    }
}

/// An integer node reads back as the number it was made from, whether read
/// signed or unsigned, and reads as true exactly when it is at least 1.
pub proof fn law_integer_readings(n: int)
    requires
        i64::MIN <= n <= u64::MAX,
    ensures
        signed_of(ValueView::Integer(n)) == (if n <= i64::MAX { Some(n as i64) } else { None::<i64> }),
        unsigned_of(ValueView::Integer(n)) == (if n >= 0 { Some(n as u64) } else { None::<u64> }),
        truth_of(ValueView::Integer(n)) == Some(n >= 1),
{
}

/// A boolean node reads as itself.
pub proof fn law_boolean_reading(b: bool)
    ensures
        truth_of(ValueView::Boolean(b)) == Some(b),
{
}

/// A run of iteration over a dictionary node, with steps at positions 0, 1,
/// ..., len (a new iterator, moved one on by each step), lists every key
/// exactly once, in the dictionary's order, each at its own position and
/// with its own item; the step after the last entry reports the end.
pub proof fn law_iteration_run(node: PlistValue, steps: Seq<Option<(Seq<char>, int)>>)
    requires
        node.wf(),
        node@ is Dictionary,
        steps.len() == node@->Dictionary_0.len() + 1,
        forall|n: int| 0 <= n < steps.len() ==> #[trigger] steps[n] == iteration_step(node@->Dictionary_0, n),
    ensures
        ({
            let e = node@->Dictionary_0;
            &&& steps[e.len() as int] is None
            &&& forall|n: int| #![trigger steps[n]] 0 <= n < e.len() ==> (steps[n] matches Some(p)
                && p.1 == n && p.0 == e[n].0 && entries_get(e, p.0) == Some(e[n].1))
            &&& forall|i: int, j: int| 0 <= i < e.len() && 0 <= j < e.len() && i != j
                ==> #[trigger] steps[i]->Some_0.0 != #[trigger] steps[j]->Some_0.0
            &&& forall|k: Seq<char>| #[trigger] has_key(e, k) ==> exists|n: int| 0 <= n < e.len()
                && #[trigger] steps[n]->Some_0.0 == k
        }),
{
    let e = node@->Dictionary_0;
    law_keys_unique(node);
    assert(steps[e.len() as int] == iteration_step(e, e.len() as int));
    assert forall|n: int| #![trigger steps[n]] 0 <= n < e.len() implies (steps[n] matches Some(p)
        && p.1 == n && p.0 == e[n].0 && entries_get(e, p.0) == Some(e[n].1)) by {
        assert(steps[n] == iteration_step(e, n));
        lemma_key_pos(e, e[n].0, n);
    }
    assert forall|i: int, j: int| 0 <= i < e.len() && 0 <= j < e.len() && i != j implies
        #[trigger] steps[i]->Some_0.0 != #[trigger] steps[j]->Some_0.0 by {
        assert(steps[i] == iteration_step(e, i));
        assert(steps[j] == iteration_step(e, j));
    }
    assert forall|k: Seq<char>| #[trigger] has_key(e, k) implies exists|n: int| 0 <= n < e.len()
        && #[trigger] steps[n]->Some_0.0 == k by {
        let p = key_pos(e, k);
        assert(steps[p] == iteration_step(e, p));
    }
}

/// The little-endian bytes of an `i16`, `i32` or `i64` (`to_le_bytes`)
/// read back as that number, and a single byte as its unsigned value.
pub proof fn law_data_signed_readings(n: int, b: u8)
    ensures
        -0x8000 <= n < 0x8000 ==> signed_of(ValueView::Data(le_encode(
            (if n >= 0 { n } else { n + 0x1_0000 }) as nat, 2))) == Some(n as i64),
        -0x8000_0000 <= n < 0x8000_0000 ==> signed_of(ValueView::Data(le_encode(
            (if n >= 0 { n } else { n + 0x1_0000_0000 }) as nat, 4))) == Some(n as i64),
        i64::MIN <= n <= i64::MAX ==> signed_of(ValueView::Data(le_encode(
            (if n >= 0 { n } else { n + 0x1_0000_0000_0000_0000 }) as nat, 8))) == Some(n as i64),
        signed_of(ValueView::Data(le_encode(b as nat, 1))) == Some(b as i64),
{
    reveal_with_fuel(pow256, 9);
    if -0x8000 <= n < 0x8000 {
        lemma_le_round_trip((if n >= 0 { n } else { n + 0x1_0000 }) as nat, 2);
    }
    if -0x8000_0000 <= n < 0x8000_0000 {
        lemma_le_round_trip((if n >= 0 { n } else { n + 0x1_0000_0000 }) as nat, 4);
    }
    if i64::MIN <= n <= i64::MAX {
        lemma_le_round_trip((if n >= 0 { n } else { n + 0x1_0000_0000_0000_0000 }) as nat, 8);
    }
    lemma_le_round_trip(b as nat, 1);
    assert(le_encode(b as nat, 1)[0] == b);
}

/// The little-endian bytes of a `u8`, `u16`, `u32` or `u64`
/// (`to_le_bytes`) read back as that number.
pub proof fn law_data_unsigned_readings(v: nat, k: nat)
    requires
        k == 1 || k == 2 || k == 4 || k == 8,
        v < pow256(k),
    ensures
        unsigned_of(ValueView::Data(le_encode(v, k))) == Some(v as u64),
{
    reveal_with_fuel(pow256, 9);
    lemma_le_round_trip(v, k);
}

/// The decimal rendering of any `i64` reads back as that number (decimal
/// is tried before hexadecimal), and so does that of any `u64`.
pub proof fn law_decimal_readings(n: int, v: nat)
    ensures
        i64::MIN <= n <= i64::MAX ==> signed_of(ValueView::Text(decimal_text(n))) == Some(n as i64),
        v <= u64::MAX ==> unsigned_of(ValueView::Text(decimal_digits(v))) == Some(v as u64),
{
    if n < 0 {
        let d = decimal_digits((-n) as nat);
        lemma_decimal_round_trip((-n) as nat);
        let t = decimal_text(n);
        assert(t.drop_first() =~= d);
        assert(t[0] == '-');
    } else {
        lemma_decimal_round_trip(n as nat);
        let t = decimal_text(n);
        assert(digit_value(t[0], 10) is Some);
        assert(t[0] != '+' && t[0] != '-');
    }
    lemma_decimal_round_trip(v);
    let u = decimal_digits(v);
    assert(digit_value(u[0], 10) is Some);
    assert(u[0] != '+');
}

/// The keys of `s` after its first entry keep their distinctness.
proof fn lemma_rest_distinct<V>(s: Seq<(Seq<char>, V)>)
    requires
        keys_distinct(s),
        s.len() > 0,
    ensures
        keys_distinct(s.drop_first()),
        forall|i: int| 0 <= i < s.len() - 1 ==> #[trigger] s.drop_first()[i] == s[i + 1],
{
    let t = s.drop_first();
    assert forall|i: int, j: int| 0 <= i < t.len() && 0 <= j < t.len() && i != j implies
        #[trigger] t[i].0 != #[trigger] t[j].0 by {
        assert(t[i] == s[i + 1]);
        assert(t[j] == s[j + 1]);
    }
}

/// Merging in entries whose keys the target lacks appends them, in the
/// source's order: the result is the target followed by the source.
pub proof fn law_merge_of_new_keys<V>(e: Seq<(Seq<char>, V)>, s: Seq<(Seq<char>, V)>)
    requires
        keys_distinct(e),
        keys_distinct(s),
        forall|i: int| 0 <= i < s.len() ==> !has_key(e, #[trigger] s[i].0),
    ensures
        entries_extend(e, s) == e + s,
    decreases s.len(),
{
    if s.len() == 0 {
        assert(e + s =~= e);
    } else {
        let e1 = e.push(s[0]);
        let t = s.drop_first();
        assert(!has_key(e, s[0].0));
        assert(entries_insert(e, s[0].0, s[0].1) == e1);
        lemma_insert_distinct(e, s[0].0, s[0].1);
        lemma_rest_distinct(s);
        assert forall|i: int| 0 <= i < t.len() implies !has_key(e1, #[trigger] t[i].0) by {
            assert(t[i] == s[i + 1]);
            assert(s[i + 1].0 != s[0].0);
            assert(!has_key(e, s[i + 1].0));
            if has_key(e1, t[i].0) {
                let q = choose|q: int| 0 <= q < e1.len() && #[trigger] e1[q].0 == t[i].0;
                if q < e.len() {
                    assert(e[q].0 == t[i].0);
                }
            }
        }
        law_merge_of_new_keys(e1, t);
        assert(e1 + t =~= e + s);
    }
}

/// Merging keeps the target's keys where they were, and appends the source
/// keys that the target lacks in the source's order: of two such keys, the
/// one that comes first in the source comes first in the result.
pub proof fn law_merge_order<V>(e: Seq<(Seq<char>, V)>, s: Seq<(Seq<char>, V)>)
    requires
        keys_distinct(e),
        keys_distinct(s),
    ensures
        entries_extend(e, s).len() >= e.len(),
        forall|i: int| 0 <= i < e.len() ==> #[trigger] entries_extend(e, s)[i].0 == e[i].0,
        forall|i: int, j: int|
            0 <= i < j < s.len() && !has_key(e, #[trigger] s[i].0) && !has_key(e, #[trigger] s[j].0)
                ==> key_pos(entries_extend(e, s), s[i].0) < key_pos(entries_extend(e, s), s[j].0),
    decreases s.len(),
{
    if s.len() > 0 {
        let r = entries_extend(e, s);
        let e1 = entries_insert(e, s[0].0, s[0].1);
        let t = s.drop_first();
        lemma_insert_distinct(e, s[0].0, s[0].1);
        lemma_rest_distinct(s);
        law_merge_order(e1, t);
        assert(r == entries_extend(e1, t));
        // The keys of e1 are those of e, and s[0]'s appended when it is new.
        assert forall|i: int| 0 <= i < e.len() implies #[trigger] e1[i].0 == e[i].0 by {}
        assert(e1.len() >= e.len());
        assert forall|x: Seq<char>| #[trigger] has_key(e1, x) && x != s[0].0 implies has_key(e, x) by {
            let q = choose|q: int| 0 <= q < e1.len() && #[trigger] e1[q].0 == x;
            if q < e.len() {
                assert(e[q].0 == x);
            } else {
                assert(!has_key(e, s[0].0));
            }
        }
        assert forall|i: int, j: int|
            0 <= i < j < s.len() && !has_key(e, #[trigger] s[i].0) && !has_key(e, #[trigger] s[j].0)
                implies key_pos(r, s[i].0) < key_pos(r, s[j].0) by {
            assert(s[j].0 != s[0].0);
            assert(!has_key(e1, s[j].0));
            law_merge(e1, t, s[j].0);
            assert(t[j - 1] == s[j]);
            lemma_key_pos(t, s[j].0, j - 1);
            assert(has_key(r, s[j].0));
            let qj = key_pos(r, s[j].0);
            assert(r[qj].0 == s[j].0);
            if qj < e1.len() {
                assert(e1[qj].0 == s[j].0);
            }
            if i == 0 {
                assert(e1 == e.push(s[0]));
                assert(e1[e.len() as int].0 == s[0].0);
                assert(r[e.len() as int].0 == s[0].0);
                law_merge(e1, t, s[0].0);
                lemma_key_pos(r, s[0].0, e.len() as int);
            } else {
                assert(s[i].0 != s[0].0);
                assert(!has_key(e1, s[i].0));
                assert(t[i - 1] == s[i]);
            }
        }
    }
}

/// A single data byte reads as a boolean exactly as that byte's integer
/// value and as the boolean made from that byte do: true when it is not 0.
pub proof fn law_data_byte_truth(b: u8)
    ensures
        truth_of(ValueView::Data(seq![b])) == Some(b != 0),
        truth_of(ValueView::Data(seq![b])) == truth_of(ValueView::Integer(b as int)),
        truth_of(ValueView::Data(seq![b])) == truth_of(ValueView::Boolean(b != 0)),
{
}

/// After a boolean copy, the target's item under `key` is a boolean node
/// that reads as the same boolean as the source item it was copied from;
/// the copy succeeds exactly when the source item reads as a boolean.
pub proof fn law_copy_bool(target: PlistValue, source: PlistValue, key: Seq<char>, lookup: Seq<char>)
    requires
        target.wf(),
        source.wf(),
    ensures
        (target@, source@) matches (ValueView::Dictionary(et), ValueView::Dictionary(es)) ==> {
            match entries_get(es, lookup) {
                Some(v) => match truth_of(v) {
                    Some(b) => copied(target@, source@, key, lookup, |v: ValueView| as_boolean(v)) matches Some(
                        ValueView::Dictionary(t),
                    ) && entries_get(t, key) == Some(ValueView::Boolean(b)) && truth_of(ValueView::Boolean(b))
                        == truth_of(v),
                    None => copied(target@, source@, key, lookup, |v: ValueView| as_boolean(v)) is None,
                },
                None => copied(target@, source@, key, lookup, |v: ValueView| as_boolean(v)) is None,
            }
        },
        !(target@ is Dictionary && source@ is Dictionary) ==> copied(target@, source@, key, lookup,
            |v: ValueView| as_boolean(v)) is None,
{
    if let (ValueView::Dictionary(et), ValueView::Dictionary(es)) = (target@, source@) {
        law_keys_unique(target);
        if let Some(v) = entries_get(es, lookup) {
            if let Some(b) = truth_of(v) {
                law_get_after_set(et, key, ValueView::Boolean(b), key);
            }
        }
    }
}

/// After a signed integer copy, the target's item under `key` is the
/// integer that the source item reads as; every item that reads as an
/// `i64` is copied, and no other.
pub proof fn law_copy_int(target: PlistValue, source: PlistValue, key: Seq<char>, lookup: Seq<char>)
    requires
        target.wf(),
        source.wf(),
    ensures
        (target@, source@) matches (ValueView::Dictionary(et), ValueView::Dictionary(es)) ==> {
            match entries_get(es, lookup) {
                Some(v) => match signed_of(v) {
                    Some(n) => copied(target@, source@, key, lookup, |v: ValueView| as_signed_integer(v))
                        matches Some(ValueView::Dictionary(t)) && entries_get(t, key) == Some(
                        ValueView::Integer(n as int),
                    ) && signed_of(ValueView::Integer(n as int)) == Some(n),
                    None => copied(target@, source@, key, lookup, |v: ValueView| as_signed_integer(v)) is None,
                },
                None => copied(target@, source@, key, lookup, |v: ValueView| as_signed_integer(v)) is None,
            }
        },
        !(target@ is Dictionary && source@ is Dictionary) ==> copied(target@, source@, key, lookup,
            |v: ValueView| as_signed_integer(v)) is None,
{
    if let (ValueView::Dictionary(et), ValueView::Dictionary(es)) = (target@, source@) {
        law_keys_unique(target);
        if let Some(v) = entries_get(es, lookup) {
            if let Some(n) = signed_of(v) {
                law_get_after_set(et, key, ValueView::Integer(n as int), key);
            }
        }
    }
}

/// After an unsigned integer copy, the target's item under `key` is the
/// integer that the source item reads as; every item that reads as a `u64`
/// is copied, and no other.
pub proof fn law_copy_uint(target: PlistValue, source: PlistValue, key: Seq<char>, lookup: Seq<char>)
    requires
        target.wf(),
        source.wf(),
    ensures
        (target@, source@) matches (ValueView::Dictionary(et), ValueView::Dictionary(es)) ==> {
            match entries_get(es, lookup) {
                Some(v) => match unsigned_of(v) {
                    Some(n) => copied(target@, source@, key, lookup, |v: ValueView| as_unsigned_integer(v))
                        matches Some(ValueView::Dictionary(t)) && entries_get(t, key) == Some(
                        ValueView::Integer(n as int),
                    ) && unsigned_of(ValueView::Integer(n as int)) == Some(n),
                    None => copied(target@, source@, key, lookup, |v: ValueView| as_unsigned_integer(v)) is None,
                },
                None => copied(target@, source@, key, lookup, |v: ValueView| as_unsigned_integer(v)) is None,
            }
        },
        !(target@ is Dictionary && source@ is Dictionary) ==> copied(target@, source@, key, lookup,
            |v: ValueView| as_unsigned_integer(v)) is None,
{
    if let (ValueView::Dictionary(et), ValueView::Dictionary(es)) = (target@, source@) {
        law_keys_unique(target);
        if let Some(v) = entries_get(es, lookup) {
            if let Some(n) = unsigned_of(v) {
                law_get_after_set(et, key, ValueView::Integer(n as int), key);
            }
        }
    }
}

/// A data copy stores the source item unchanged (the same bytes, the same
/// length), and copies nothing but data; a text copy likewise for text.
pub proof fn law_copy_data_and_text(target: PlistValue, source: PlistValue, key: Seq<char>, lookup: Seq<char>)
    requires
        target.wf(),
        source.wf(),
    ensures
        (target@, source@) matches (ValueView::Dictionary(et), ValueView::Dictionary(es)) ==> {
            &&& (entries_get(es, lookup) matches Some(ValueView::Data(b)) ==> copied(target@, source@, key,
                lookup, |v: ValueView| as_data(v)) matches Some(ValueView::Dictionary(t)) && entries_get(t, key)
                == Some(ValueView::Data(b)))
            &&& (!(entries_get(es, lookup) matches Some(ValueView::Data(_))) ==> copied(target@, source@, key,
                lookup, |v: ValueView| as_data(v)) is None)
            &&& (entries_get(es, lookup) matches Some(ValueView::Text(x)) ==> copied(target@, source@, key,
                lookup, |v: ValueView| as_text(v)) matches Some(ValueView::Dictionary(t)) && entries_get(t, key)
                == Some(ValueView::Text(x)))
            &&& (!(entries_get(es, lookup) matches Some(ValueView::Text(_))) ==> copied(target@, source@, key,
                lookup, |v: ValueView| as_text(v)) is None)
        },
        !(target@ is Dictionary && source@ is Dictionary) ==> copied(target@, source@, key, lookup,
            |v: ValueView| as_data(v)) is None && copied(target@, source@, key, lookup, |v: ValueView| as_text(v)) is None,
{
    if let (ValueView::Dictionary(et), ValueView::Dictionary(es)) = (target@, source@) {
        law_keys_unique(target);
        if let Some(v) = entries_get(es, lookup) {
            law_get_after_set(et, key, v, key);
        }
    }
}

} // verus!
