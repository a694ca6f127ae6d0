//! Plist values: the library's own tree of property-list nodes.
//!
//! A dictionary keeps its key order in a `plist::Dictionary` (the index),
//! whose values are `Uid`s naming slots of a vector that holds the entry
//! values.  Entries and slots correspond one to one: every entry names its
//! own slot, and every slot records the key of the entry that names it.
use vstd::prelude::*;
use crate::model::{ValueView, keys_distinct, has_key, key_pos, entries_get, entries_insert, entries_remove, lemma_key_pos, lemma_insert_distinct, lemma_remove_distinct};
use crate::plist_index::{dictionary_entries, index_new, index_len, index_get, index_insert, index_remove, index_entry_at, index_clone};

verus! {

/// An integer that fits an `i64` or a `u64` (its type invariant), stored as
/// an `i128` as `plist::Integer` stores it.
pub struct PlistInteger {
    value: i128,
}

impl View for PlistInteger {
    type V = int;

    closed spec fn view(&self) -> int {
        self.value as int
    }
}

impl PlistInteger {
    /// The value fits an `i64` or a `u64`.
    #[verifier::type_invariant]
    spec fn fits(&self) -> bool {
        i64::MIN <= self.value <= u64::MAX
    }

    pub fn from_signed(v: i64) -> (r: PlistInteger)
        ensures
            r@ == v as int,
    {
        PlistInteger { value: v as i128 }
    }

    pub fn from_unsigned(v: u64) -> (r: PlistInteger)
        ensures
            r@ == v as int,
    {
        PlistInteger { value: v as i128 }
    }

    /// The value as an `i64`, when it fits one.
    pub fn as_signed(&self) -> (r: Option<i64>)
        ensures
            r == (if i64::MIN <= self@ <= i64::MAX { Some(self@ as i64) } else { None::<i64> }),
            i64::MIN <= self@ <= u64::MAX,
    {
        proof { use_type_invariant(self); }
        if i64::MIN as i128 <= self.value && self.value <= i64::MAX as i128 {
            Some(self.value as i64)
        } else {
            None
        }
    }

    /// The value as a `u64`, when it fits one.
    pub fn as_unsigned(&self) -> (r: Option<u64>)
        ensures
            r == (if 0 <= self@ <= u64::MAX { Some(self@ as u64) } else { None::<u64> }),
            i64::MIN <= self@ <= u64::MAX,
    {
        proof { use_type_invariant(self); }
        if 0 <= self.value && self.value <= u64::MAX as i128 {
            Some(self.value as u64)
        } else {
            None
        }
    }

    pub fn copy(&self) -> (r: PlistInteger)
        ensures
            r@ == self@,
    {
        proof { use_type_invariant(self); }
        PlistInteger { value: self.value }
    }
}

/// A property-list node.
pub enum PlistValue {
    Array(Vec<PlistValue>),
    Dictionary(PlistDict),
    Boolean(bool),
    Data(Vec<u8>),
    /// Whole seconds since the Unix epoch, never negative.
    Date(i64),
    /// The bit pattern of an IEEE 754 double.
    Real(u64),
    Integer(PlistInteger),
    Text(String),
    Uid(u64),
}

/// An ordered dictionary from strings to plist values.
pub struct PlistDict {
    index: plist::Dictionary,
    slots: Vec<PlistValue>,
    /// The key of the entry that names each slot.
    owners: Vec<String>,
}

impl PlistValue {
    pub open spec fn view(&self) -> ValueView
        decreases self,
    {
        match self {
            PlistValue::Array(v) => ValueView::Array(
                Seq::new(
                    v@.len(),
                    |i: int|
                        if 0 <= i < v@.len() {
                            v@[i].view()
                        } else {
                            ValueView::Boolean(false)
                        },
                ),
            ),
            PlistValue::Dictionary(d) => ValueView::Dictionary(d.view()),
            PlistValue::Boolean(b) => ValueView::Boolean(*b),
            PlistValue::Data(v) => ValueView::Data(v@),
            PlistValue::Date(s) => ValueView::Date(*s as int),
            PlistValue::Real(bits) => ValueView::Real(*bits),
            PlistValue::Integer(n) => ValueView::Integer(n@),
            PlistValue::Text(s) => ValueView::Text(s@),
            PlistValue::Uid(u) => ValueView::Uid(*u),
        }
    }

    /// Well-formedness: dictionaries keep their index consistent and dates
    /// are not before the epoch, at every depth.
    pub open spec fn wf(&self) -> bool
        decreases self,
    {
        match self {
            PlistValue::Array(v) => forall|i: int| #![trigger v@[i]] 0 <= i < v@.len() ==> v@[i].wf(),
            PlistValue::Dictionary(d) => d.wf(),
            PlistValue::Date(s) => *s >= 0,
            _ => true,
        }
    }
}

impl PlistDict {
    /// The entries of the key index.
    closed spec fn entries(&self) -> Seq<(Seq<char>, Option<u64>)> {
        dictionary_entries(self.index)
    }

    /// The slot that entry `i` names.
    closed spec fn slot_of(&self, i: int) -> int {
        self.entries()[i].1->Some_0 as int
    }

    closed spec fn index_wf(&self) -> bool {
        &&& keys_distinct(self.entries())
        &&& self.slots@.len() == self.entries().len()
        &&& self.owners@.len() == self.entries().len()
        &&& forall|i: int|
            0 <= i < self.entries().len() ==> {
                &&& (#[trigger] self.entries()[i]).1 is Some
                &&& 0 <= self.slot_of(i) < self.slots@.len()
                &&& self.owners@[self.slot_of(i)]@ == self.entries()[i].0
            }
        &&& forall|i: int, j: int|
            0 <= i < self.entries().len() && 0 <= j < self.entries().len() && i != j
                ==> #[trigger] self.slot_of(i) != #[trigger] self.slot_of(j)
        &&& forall|s: int|
            0 <= s < self.owners@.len() ==> {
                &&& has_key(self.entries(), #[trigger] self.owners@[s]@)
                &&& self.slot_of(key_pos(self.entries(), self.owners@[s]@)) == s
            }
    }

    pub closed spec fn wf(&self) -> bool
        decreases self,
    {
        &&& self.index_wf()
        &&& forall|j: int| #![trigger self.slots@[j]] 0 <= j < self.slots@.len() ==> self.slots@[j].wf()
    }

    /// The entries with their values, in order.
    pub closed spec fn view(&self) -> Seq<(Seq<char>, ValueView)>
        decreases self,
    {
        Seq::new(
            dictionary_entries(self.index).len(),
            |i: int|
                (
                    dictionary_entries(self.index)[i].0,
                    if 0 <= i < dictionary_entries(self.index).len() && 0
                        <= dictionary_entries(self.index)[i].1->Some_0 < self.slots@.len() {
                        self.slots@[dictionary_entries(self.index)[i].1->Some_0 as int].view()
                    } else {
                        ValueView::Boolean(false)
                    },
                ),
        )
    }

    /// What the view says of each entry, given a consistent index.
    proof fn lemma_view(&self)
        requires
            self.index_wf(),
        ensures
            self.view().len() == self.entries().len(),
            keys_distinct(self.view()),
            forall|i: int|
                0 <= i < self.entries().len() ==> {
                    &&& (#[trigger] self.view()[i]).0 == self.entries()[i].0
                    &&& self.view()[i].1 == self.slots@[self.slot_of(i)].view()
                },
    {
        let v = self.view();
        assert forall|i: int, j: int|
            0 <= i < v.len() && 0 <= j < v.len() && i != j implies #[trigger] v[i].0 != #[trigger] v[j].0 by {
            assert(self.entries()[i].1 is Some);
            assert(self.entries()[j].1 is Some);
        }
    }

    /// Keys are found at the same positions in the index and in the view.
    proof fn lemma_key(&self, k: Seq<char>)
        requires
            self.index_wf(),
        ensures
            has_key(self.view(), k) == has_key(self.entries(), k),
            has_key(self.entries(), k) ==> key_pos(self.view(), k) == key_pos(self.entries(), k),
    {
        self.lemma_view();
        if has_key(self.entries(), k) {
            let p = key_pos(self.entries(), k);
            assert(self.view()[p].0 == k);
            lemma_key_pos(self.view(), k, p);
        }
        if has_key(self.view(), k) {
            let q = choose|q: int| 0 <= q < self.view().len() && #[trigger] self.view()[q].0 == k;
            assert(self.entries()[q].0 == k);
        }
    }

    /// An empty dictionary.
    pub fn new() -> (d: PlistDict)
        ensures
            d.wf(),
            d@ == Seq::<(Seq<char>, ValueView)>::empty(),
    {
        let d = PlistDict { index: index_new(), slots: Vec::new(), owners: Vec::new() };
        assert(d@ =~= Seq::<(Seq<char>, ValueView)>::empty());
        d
    }

    /// The number of entries.
    pub fn len(&self) -> (n: usize)
        requires
            self.wf(),
        ensures
            n == self@.len(),
    {
        proof { self.lemma_view(); }
        index_len(&self.index)
    }

    /// The value stored under `key`.
    pub fn get(&self, key: &String) -> (r: Option<&PlistValue>)
        requires
            self.wf(),
        ensures
            r is Some == has_key(self@, key@),
            r matches Some(v) ==> v.wf() && v@ == entries_get(self@, key@)->Some_0,
    {
        proof {
            self.lemma_view();
        }
        let found = index_get(&self.index, key.as_str());
        match found {
            Some(Some(u)) => {
                proof {
                    let p = key_pos(self.entries(), key@);
                    assert(self.view()[p].0 == key@);
                    lemma_key_pos(self.view(), key@, p);
                    assert(self.entries()[p].1 is Some);
                    assert(self.slot_of(p) < self.slots@.len());
                    assert(self.slot_of(p) == u);
                    assert(self.slots@[u as int].wf());
                }
                let n = self.slots.len();
                assert(u < n);
                Some(&self.slots[u as usize])
            },
            Some(None) => {
                proof {
                    let p = key_pos(self.entries(), key@);
                    assert(self.entries()[p].1 is Some);
                }
                None
            },
            None => {
                proof {
                    if has_key(self.view(), key@) {
                        let q = choose|q: int| 0 <= q < self.view().len() && #[trigger] self.view()[q].0 == key@;
                        assert(self.entries()[q].0 == key@);
                    }
                }
                None
            },
        }
    }

    /// Store `value` under `key`: an existing key keeps its position, a new
    /// key goes last.
    pub fn insert(&mut self, key: String, value: PlistValue)
        requires
            old(self).wf(),
            value.wf(),
        ensures
            final(self).wf(),
            final(self)@ == entries_insert(old(self)@, key@, value@),
    {
        proof {
            self.lemma_view();
            self.lemma_key(key@);
        }
        let found = index_get(&self.index, key.as_str());
        match found {
            Some(Some(u)) => {
                let ghost p = key_pos(self.entries(), key@);
                proof {
                    assert(self.entries()[p].1 is Some);
                    assert(self.slot_of(p) == u);
                }
                let n = self.slots.len();
                assert(u < n);
                self.slots.set(u as usize, value);
                proof {
                    assert(self.entries() == old(self).entries());
                    assert forall|i: int| 0 <= i < self.entries().len() && i != p implies
                        self.slots@[#[trigger] self.slot_of(i)] == old(self).slots@[self.slot_of(i)] by {
                        assert(old(self).slot_of(i) != old(self).slot_of(p));
                    }
                    assert(self.index_wf());
                    self.lemma_view();
                    let expected = old(self).view().update(p, (key@, value@));
                    assert(self.view() =~= expected);
                }
            },
            Some(None) => {
                proof {
                    let p = key_pos(self.entries(), key@);
                    assert(self.entries()[p].1 is Some);
                }
            },
            None => {
                let u = self.slots.len();
                self.slots.push(value);
                self.owners.push(key.clone());
                index_insert(&mut self.index, key, u as u64);
                proof {
                    let e = old(self).entries();
                    let k = self.owners@[u as int]@;
                    assert(!has_key(e, k));
                    assert(self.entries() == e.push((k, Some(u as u64))));
                    lemma_insert_distinct(e, k, Some(u as u64));
                    assert forall|i: int| 0 <= i < e.len() implies
                        #[trigger] self.slot_of(i) == old(self).slot_of(i) && self.slot_of(i) < u
                        && self.slots@[self.slot_of(i)] == old(self).slots@[old(self).slot_of(i)]
                        && self.owners@[self.slot_of(i)] == old(self).owners@[old(self).slot_of(i)] by {
                        assert(self.entries()[i] == e[i]);
                        assert(e[i].1 is Some);
                    }
                    assert(self.slot_of(e.len() as int) == u);
                    lemma_key_pos(self.entries(), k, e.len() as int);
                    assert forall|i: int, j: int|
                        0 <= i < self.entries().len() && 0 <= j < self.entries().len() && i != j
                            implies #[trigger] self.slot_of(i) != #[trigger] self.slot_of(j) by {
                        if i < e.len() && j < e.len() {
                            assert(old(self).slot_of(i) != old(self).slot_of(j));
                        }
                    }
                    assert forall|t: int| 0 <= t < self.owners@.len() implies {
                        &&& has_key(self.entries(), #[trigger] self.owners@[t]@)
                        &&& self.slot_of(key_pos(self.entries(), self.owners@[t]@)) == t
                    } by {
                        if t < u {
                            let x = old(self).owners@[t]@;
                            assert(self.owners@[t] == old(self).owners@[t]);
                            let r = key_pos(e, x);
                            assert(e[r].0 == x);
                            assert(self.entries()[r] == e[r]);
                            lemma_key_pos(self.entries(), x, r);
                        }
                    }
                    assert(self.index_wf());
                    self.lemma_view();
                    let expected = old(self).view().push((key@, value@));
                    assert(self.view() =~= expected);
                }
            },
        }
    }

    /// Remove `key`: the last entry moves into its position.  Returns whether
    /// the key was present.  The freed slot is refilled from the last slot,
    /// so the slots stay as many as the entries.
    #[verifier::rlimit(40)]
    pub fn remove(&mut self, key: &String) -> (found: bool)
        requires
            old(self).wf(),
        ensures
            final(self).wf(),
            found == has_key(old(self)@, key@),
            final(self)@ == entries_remove(old(self)@, key@),
    {
        proof {
            self.lemma_view();
            self.lemma_key(key@);
        }
        let r = index_remove(&mut self.index, key.as_str());
        match r {
            Some(Some(u)) => {
                let ghost e = old(self).entries();
                let ghost n = e.len();
                let ghost p = key_pos(e, key@);
                let ghost e2 = self.entries();
                proof {
                    assert(e[p].1 is Some);
                    assert(old(self).slot_of(p) == u);
                    assert(e2 == e.update(p, e[n - 1]).drop_last());
                    lemma_remove_distinct(e, key@);
                }
                let last = self.slots.len() - 1;
                let ghost moved = old(self).owners@[last as int]@;
                let ghost q = key_pos(e, moved);
                // Where the entry of each old position stands after the swap.
                let ghost pos_of = |o: int| if o == n - 1 { p } else { o };
                if u as usize != last {
                    let mk = self.owners[last].clone();
                    proof {
                        assert(old(self).slot_of(q) == last);
                        assert(q != p);
                        assert(e2[pos_of(q)] == e[q]);
                        assert(e2[pos_of(q)].0 == moved);
                        lemma_key_pos(e2, moved, pos_of(q));
                    }
                    index_insert(&mut self.index, mk, u);
                    proof {
                        assert(self.entries() == e2.update(pos_of(q), (moved, Some(u))));
                    }
                } else {
                    proof {
                        assert(q == p) by {
                            assert(old(self).owners@[old(self).slot_of(p) as int]@ == e[p].0);
                        }
                    }
                }
                self.slots.swap_remove(u as usize);
                self.owners.swap_remove(u as usize);
                proof {
                    let e3 = self.entries();
                    let ns = self.slots@;
                    let os = old(self).slots@;
                    let no = self.owners@;
                    let oo = old(self).owners@;
                    assert(e3.len() == n - 1);
                    assert(ns == os.update(u as int, os[last as int]).drop_last());
                    assert(no == oo.update(u as int, oo[last as int]).drop_last());
                    // The old position of the entry at each new position.
                    let from = |i: int| if i == p { n - 1 } else { i };
                    assert forall|i: int| 0 <= i < n - 1 implies {
                        &&& (#[trigger] e3[i]).0 == e[from(i)].0
                        &&& e[from(i)].1 is Some
                        &&& (from(i) == q ==> self.slot_of(i) == u)
                        &&& (from(i) != q ==> self.slot_of(i) == old(self).slot_of(from(i))
                            && old(self).slot_of(from(i)) != u && old(self).slot_of(from(i)) != last)
                    } by {
                        assert(e2[i] == e[from(i)]);
                        if u as usize != last && i == pos_of(q) {
                            assert(from(i) == q);
                        } else {
                            if u as usize != last {
                                assert(from(i) != q);
                            }
                            assert(e3[i] == e2[i]);
                            if from(i) != q {
                                assert(old(self).slot_of(from(i)) != old(self).slot_of(q));
                            }
                            assert(from(i) != p);
                            assert(old(self).slot_of(from(i)) != old(self).slot_of(p));
                        }
                    }
                    assert forall|i: int| 0 <= i < n - 1 implies {
                        &&& (#[trigger] e3[i]).1 is Some
                        &&& 0 <= self.slot_of(i) < ns.len()
                        &&& no[self.slot_of(i)]@ == e3[i].0
                        &&& ns[self.slot_of(i)] == os[old(self).slot_of(from(i))]
                    } by {
                        assert(e[from(i)].1 is Some);
                        if from(i) == q {
                            assert(old(self).slot_of(q) == last);
                        }
                    }
                    assert forall|i: int, j: int| 0 <= i < e3.len() && 0 <= j < e3.len() && i != j implies
                        #[trigger] self.slot_of(i) != #[trigger] self.slot_of(j) by {
                        assert(from(i) != from(j));
                        assert(old(self).slot_of(from(i)) != old(self).slot_of(from(j)));
                    }
                    assert(keys_distinct(e3)) by {
                        if u as usize != last {
                            lemma_insert_distinct(e2, moved, Some(u));
                            lemma_key_pos(e2, moved, pos_of(q));
                        }
                    }
                    assert forall|t: int| 0 <= t < no.len() implies {
                        &&& has_key(e3, #[trigger] no[t]@)
                        &&& self.slot_of(key_pos(e3, no[t]@)) == t
                    } by {
                        let x = oo[if t == u { last as int } else { t }]@;
                        assert(no[t]@ == x);
                        let r = key_pos(e, x);
                        assert(e[r].0 == x);
                        assert(old(self).slot_of(r) == if t == u { last as int } else { t });
                        assert(r != p);
                        let j = pos_of(r);
                        assert(from(j) == r);
                        assert(e3[j].0 == x);
                        lemma_key_pos(e3, x, j);
                    }
                    assert(self.index_wf());
                    self.lemma_view();
                    let ov = old(self).view();
                    let expected = ov.update(p, ov.last()).drop_last();
                    assert forall|i: int| 0 <= i < n - 1 implies #[trigger] self.view()[i] == expected[i] by {
                        assert(ov[from(i)].0 == e[from(i)].0);
                    }
                    assert(self.view() =~= expected);
                }
                true
            },
            Some(None) => {
                proof {
                    let p = key_pos(self.entries(), key@);
                    assert(old(self).entries()[p].1 is Some);
                }
                false
            },
            None => {
                proof {
                    assert(self.entries() == old(self).entries());
                    assert(self.view() =~= old(self).view());
                }
                false
            },
        }
    }

    /// The position of `key` in iteration order.
    pub fn position(&self, key: &String) -> (r: Option<usize>)
        requires
            self.wf(),
        ensures
            r == (if has_key(self@, key@) { Some(key_pos(self@, key@) as usize) } else { None::<usize> }),
            r matches Some(i) ==> i < self@.len(),
    {
        proof {
            self.lemma_view();
            self.lemma_key(key@);
        }
        let n = index_len(&self.index);
        let mut i: usize = 0;
        while i < n
            invariant
                self.wf(),
                n == self@.len(),
                i <= n,
                forall|j: int| 0 <= j < i ==> self@[j].0 != key@,
            decreases n - i,
        {
            let e = index_entry_at(&self.index, i);
            let (k, _) = e.unwrap();
            proof { self.lemma_view(); }
            if k == *key {
                proof { lemma_key_pos(self@, key@, i as int); }
                return Some(i);
            }
            i = i + 1;
        }
        None
    }

    /// The key and value at position `i`.
    pub fn entry_at(&self, i: usize) -> (r: (String, &PlistValue))
        requires
            self.wf(),
            i < self@.len(),
        ensures
            r.0@ == self@[i as int].0,
            r.1@ == self@[i as int].1,
            r.1.wf(),
    {
        proof { self.lemma_view(); }
        let e = index_entry_at(&self.index, i);
        let (k, u) = e.unwrap();
        proof { assert(self.entries()[i as int].1 is Some); }
        let u = u.unwrap();
        let n = self.slots.len();
        proof {
            assert(self.slot_of(i as int) == u);
            assert(self.slots@[u as int].wf());
        }
        assert(u < n);
        (k, &self.slots[u as usize])
    }

    /// The value at position `i`, to be changed in place.
    pub fn value_at_mut(&mut self, i: usize) -> (r: &mut PlistValue)
        requires
            old(self).wf(),
            i < old(self)@.len(),
        ensures
            (*r)@ == old(self)@[i as int].1,
            r.wf(),
            final(r).wf() ==> final(self).wf(),
            final(self)@ == old(self)@.update(i as int, (old(self)@[i as int].0, final(r)@)),
    {
        proof { self.lemma_view(); }
        let e = index_entry_at(&self.index, i);
        let (_, u) = e.unwrap();
        proof { assert(self.entries()[i as int].1 is Some); }
        let u = u.unwrap();
        let n = self.slots.len();
        proof {
            assert(self.slot_of(i as int) == u);
            assert(self.slots@[u as int].wf());
        }
        assert(u < n);
        &mut self.slots[u as usize]
    }
}

/// A dictionary node is well formed exactly when its dictionary is.
pub proof fn lemma_dictionary_wf(d: PlistDict)
    ensures
        PlistValue::Dictionary(d).wf() == d.wf(),
{
    reveal_with_fuel(PlistValue::wf, 2);
}

/// A well-formed dictionary never holds a key twice.
pub proof fn lemma_keys_distinct(d: PlistDict)
    requires
        d.wf(),
    ensures
        keys_distinct(d@),
{
    d.lemma_view();
}

impl PlistValue {
    /// A copy of the whole tree.
    pub fn deep_copy(&self) -> (r: PlistValue)
        requires
            self.wf(),
        ensures
            r.wf(),
            r@ == self@,
        decreases self,
    {
        match self {
            PlistValue::Array(v) => {
                let mut out: Vec<PlistValue> = Vec::new();
                let mut i: usize = 0;
                while i < v.len()
                    invariant
                        *self == PlistValue::Array(*v),
                        self.wf(),
                        i <= v.len(),
                        out@.len() == i,
                        forall|j: int| #![trigger out@[j]] 0 <= j < i ==> out@[j].wf() && out@[j]@ == v@[j]@,
                    decreases v.len() - i,
                {
                    proof {
                        vstd::std_specs::vec::axiom_vec_index_decreases(*v, i as int);
                        assert(decreases_to!(*self => self->Array_0));
                        assert(v@[i as int].wf());
                    }
                    let c = v[i].deep_copy();
                    out.push(c);
                    i = i + 1;
                }
                let r = PlistValue::Array(out);
                proof {
                    if let (ValueView::Array(a), ValueView::Array(b)) = (r@, self@) {
                        assert(a =~= b);
                    }
                }
                r
            },
            PlistValue::Dictionary(d) => {
                let index = index_clone(&d.index);
                let mut slots: Vec<PlistValue> = Vec::new();
                let mut i: usize = 0;
                while i < d.slots.len()
                    invariant
                        *self == PlistValue::Dictionary(*d),
                        d.wf(),
                        i <= d.slots@.len(),
                        slots@.len() == i,
                        forall|j: int| #![trigger slots@[j]] 0 <= j < i ==> slots@[j].wf() && slots@[j]@ == d.slots@[j]@,
                    decreases d.slots@.len() - i,
                {
                    proof {
                        vstd::std_specs::vec::axiom_vec_index_decreases(d.slots, i as int);
                        assert(decreases_to!(*self => self->Dictionary_0));
                        assert(decreases_to!(self->Dictionary_0 => (self->Dictionary_0).slots));
                        assert(d.slots@[i as int].wf());
                    }
                    let c = d.slots[i].deep_copy();
                    slots.push(c);
                    i = i + 1;
                }
                let mut owners: Vec<String> = Vec::new();
                let mut j: usize = 0;
                while j < d.owners.len()
                    invariant
                        j <= d.owners@.len(),
                        owners@.len() == j,
                        forall|t: int| #![trigger owners@[t]] 0 <= t < j ==> owners@[t]@ == d.owners@[t]@,
                    decreases d.owners@.len() - j,
                {
                    owners.push(d.owners[j].clone());
                    j = j + 1;
                }
                let nd = PlistDict { index, slots, owners };
                proof {
                    assert(nd.entries() == d.entries());
                    assert forall|t: int| 0 <= t < nd.entries().len() implies #[trigger] nd.slot_of(t) == d.slot_of(t) by {}
                    assert forall|t: int| 0 <= t < nd.owners@.len() implies #[trigger] nd.owners@[t]@ == d.owners@[t]@ by {}
                    assert(nd.index_wf());
                    nd.lemma_view();
                    d.lemma_view();
                    assert(nd@ =~= d@);
                    assert(nd.wf());
                    reveal_with_fuel(PlistValue::wf, 2);
                }
                PlistValue::Dictionary(nd)
            },
            PlistValue::Boolean(b) => PlistValue::Boolean(*b),
            PlistValue::Data(v) => {
                let c = v.clone();
                assert(c@ =~= v@);
                PlistValue::Data(c)
            },
            PlistValue::Date(s) => PlistValue::Date(*s),
            PlistValue::Real(bits) => PlistValue::Real(*bits),
            PlistValue::Integer(n) => PlistValue::Integer(n.copy()),
            PlistValue::Text(s) => PlistValue::Text(s.clone()),
            PlistValue::Uid(u) => PlistValue::Uid(*u),
        }
    }
}

} // verus!
