//! Making nodes.  Each function returns a node of its own, which the caller
//! wraps in a handle.
use vstd::prelude::*;
use crate::model::ValueView;
use crate::value::{PlistValue, PlistDict, PlistInteger, lemma_dictionary_wf};

verus! {

/// An empty dictionary.
pub fn plist_new_dict() -> (v: PlistValue)
    ensures
        v.wf(),
        v@ == ValueView::Dictionary(Seq::empty()),
{
    let d = PlistDict::new();
    proof { lemma_dictionary_wf(d); }
    PlistValue::Dictionary(d)
}

/// An empty array.
pub fn plist_new_array() -> (v: PlistValue)
    ensures
        v.wf(),
        v@ == ValueView::Array(Seq::empty()),
{
    let v = PlistValue::Array(Vec::new());
    assert(v@ == ValueView::Array(Seq::empty())) by {
        if let ValueView::Array(a) = v@ {
            assert(a =~= Seq::<ValueView>::empty());
        }
    }
    v
}

/// A text node.
pub fn plist_new_string(val: String) -> (v: PlistValue)
    ensures
        v.wf(),
        v@ == ValueView::Text(val@),
{
    PlistValue::Text(val)
}

/// A boolean node: true for any byte but 0.
pub fn plist_new_bool(val: u8) -> (v: PlistValue)
    ensures
        v.wf(),
        v@ == ValueView::Boolean(val != 0),
{
    PlistValue::Boolean(val != 0)
}

/// An integer node from an unsigned number.
pub fn plist_new_uint(val: u64) -> (v: PlistValue)
    ensures
        v.wf(),
        v@ == ValueView::Integer(val as int),
{
    PlistValue::Integer(PlistInteger::from_unsigned(val))
}

/// An integer node from a signed number.
pub fn plist_new_int(val: i64) -> (v: PlistValue)
    ensures
        v.wf(),
        v@ == ValueView::Integer(val as int),
{
    PlistValue::Integer(PlistInteger::from_signed(val))
}

/// A real node, from the bit pattern of an `f64`.
pub fn plist_new_real(bits: u64) -> (v: PlistValue)
    ensures
        v.wf(),
        v@ == ValueView::Real(bits),
{
    PlistValue::Real(bits)
}

/// A data node holding the given bytes.
pub fn plist_new_data(val: Vec<u8>) -> (v: PlistValue)
    ensures
        v.wf(),
        v@ == ValueView::Data(val@),
{
    PlistValue::Data(val)
}

/// A date node, `sec` seconds after the Unix epoch.
pub fn plist_new_unix_date(sec: i64) -> (v: PlistValue)
    requires
        sec >= 0,
    ensures
        v.wf(),
        v@ == ValueView::Date(sec as int),
{
    PlistValue::Date(sec)
}

/// A uid node.
pub fn plist_new_uid(val: u64) -> (v: PlistValue)
    ensures
        v.wf(),
        v@ == ValueView::Uid(val),
{
    PlistValue::Uid(val)
}

/// What stands for libplist's null node: empty data.
pub fn plist_new_null() -> (v: PlistValue)
    ensures
        v.wf(),
        v@ == ValueView::Data(Seq::empty()),
{
    let d: Vec<u8> = Vec::new();
    assert(d@ =~= Seq::<u8>::empty());
    PlistValue::Data(d)
}

/// A copy of a node, at every depth.
pub fn plist_copy(node: &PlistValue) -> (v: PlistValue)
    requires
        node.wf(),
    ensures
        v.wf(),
        v@ == node@,
{
    node.deep_copy()
}

} // verus!
