//! Reading nodes.  Each getter answers `None` for a node of another kind,
//! where the C API leaves its out-parameter untouched.
use vstd::prelude::*;
use crate::model::ValueView;
use crate::value::PlistValue;
use crate::{PlistType, PlistWrapper, NodeType};

verus! {

/// The handle for the node that holds the one a handle reaches: one level
/// up, reached without a key.  `None` for a root (a handle that owns its
/// node, or reaches a node at depth 0) and for an iterator.
pub fn plist_get_parent(node: &PlistWrapper) -> (r: Option<PlistWrapper>)
    ensures
        node@ is Child && node.depth() > 0 ==> (r matches Some(p) && p@ == (NodeType::Child {
            index: u32::MAX,
            key: None,
            depth: (node.depth() - 1) as u64,
        })),
        !(node@ is Child && node.depth() > 0) ==> r is None,
{
    match node.node() {
        NodeType::Child { depth, .. } => {
            if *depth > 0 {
                Some(PlistWrapper::new_child(u32::MAX, None, *depth - 1))
            } else {
                None
            }
        },
        _ => None,
    }
}

/// The kind of a node.
pub open spec fn type_of(v: ValueView) -> PlistType {
    match v {
        ValueView::Array(_) => PlistType::PLIST_ARRAY,
        ValueView::Dictionary(_) => PlistType::PLIST_DICT,
        ValueView::Boolean(_) => PlistType::PLIST_BOOLEAN,
        ValueView::Data(_) => PlistType::PLIST_DATA,
        ValueView::Date(_) => PlistType::PLIST_DATE,
        ValueView::Real(_) => PlistType::PLIST_REAL,
        ValueView::Integer(_) => PlistType::PLIST_INT,
        ValueView::Text(_) => PlistType::PLIST_STRING,
        ValueView::Uid(_) => PlistType::PLIST_UID,
    }
}

/// The kind of a node.
pub fn plist_get_node_type(node: &PlistValue) -> (t: PlistType)
    ensures
        t == type_of(node@),
{
    match node {
        PlistValue::Array(_) => PlistType::PLIST_ARRAY,
        PlistValue::Dictionary(_) => PlistType::PLIST_DICT,
        PlistValue::Boolean(_) => PlistType::PLIST_BOOLEAN,
        PlistValue::Data(_) => PlistType::PLIST_DATA,
        PlistValue::Date(_) => PlistType::PLIST_DATE,
        PlistValue::Real(_) => PlistType::PLIST_REAL,
        PlistValue::Integer(_) => PlistType::PLIST_INT,
        PlistValue::Text(_) => PlistType::PLIST_STRING,
        PlistValue::Uid(_) => PlistType::PLIST_UID,
    }
}

/// The text of a text node.
pub open spec fn text_of(v: ValueView) -> Option<Seq<char>> {
    match v {
        ValueView::Text(s) => Some(s),
        _ => None,
    }
}

/// The text of a node used as a dictionary key (keys are text nodes).
pub fn plist_get_key_val(node: &PlistValue) -> (r: Option<String>)
    ensures
        r is Some == text_of(node@) is Some,
        r matches Some(s) ==> Some(s@) == text_of(node@),
{
    plist_get_string_val(node)
}

/// The text of a text node, as a new string.
pub fn plist_get_string_val(node: &PlistValue) -> (r: Option<String>)
    ensures
        r is Some == text_of(node@) is Some,
        r matches Some(s) ==> Some(s@) == text_of(node@),
{
    match node {
        PlistValue::Text(s) => Some(s.clone()),
        _ => None,
    }
}

/// The text of a text node, in place.
pub fn plist_get_string_ptr(node: &PlistValue) -> (r: Option<&String>)
    ensures
        r is Some == text_of(node@) is Some,
        r matches Some(s) ==> Some(s@) == text_of(node@),
{
    match node {
        PlistValue::Text(s) => Some(s),
        _ => None,
    }
}

/// A boolean node as 1 (true) or 0 (false).
pub fn plist_get_bool_val(node: &PlistValue) -> (r: Option<u8>)
    ensures
        r == (match node@ {
            ValueView::Boolean(b) => Some(if b { 1u8 } else { 0u8 }),
            _ => None::<u8>,
        }),
{
    match node {
        PlistValue::Boolean(b) => Some(if *b { 1 } else { 0 }),
        _ => None,
    }
}

/// An integer node's value, when it fits a `u64`.
pub fn plist_get_uint_val(node: &PlistValue) -> (r: Option<u64>)
    ensures
        r == (match node@ {
            ValueView::Integer(n) => if 0 <= n <= u64::MAX { Some(n as u64) } else { None::<u64> },
            _ => None::<u64>,
        }),
{
    match node {
        PlistValue::Integer(n) => n.as_unsigned(),
        _ => None,
    }
}

/// An integer node's value, when it fits an `i64`.
pub fn plist_get_int_val(node: &PlistValue) -> (r: Option<i64>)
    ensures
        r == (match node@ {
            ValueView::Integer(n) => if i64::MIN <= n <= i64::MAX { Some(n as i64) } else { None::<i64> },
            _ => None::<i64>,
        }),
{
    match node {
        PlistValue::Integer(n) => n.as_signed(),
        _ => None,
    }
}

/// A real node's bit pattern.
pub fn plist_get_real_val(node: &PlistValue) -> (r: Option<u64>)
    ensures
        r == (match node@ {
            ValueView::Real(bits) => Some(bits),
            _ => None::<u64>,
        }),
{
    match node {
        PlistValue::Real(bits) => Some(*bits),
        _ => None,
    }
}

/// The bytes of a data node as a new buffer with a 0 byte added at the end
/// (the C API reports the length without it).
pub fn plist_get_data_val(node: &PlistValue) -> (r: Option<Vec<u8>>)
    ensures
        r is Some == node@ is Data,
        r matches Some(b) ==> node@ == ValueView::Data(b@.drop_last()) && b@.len() > 0 && b@.last() == 0,
{
    match node {
        PlistValue::Data(d) => {
            let mut with_nul = d.clone();
            assert(with_nul@ =~= d@);
            with_nul.push(0);
            assert(with_nul@.drop_last() =~= d@);
            Some(with_nul)
        },
        _ => None,
    }
}

/// The bytes of a data node, in place.
pub fn plist_get_data_ptr(node: &PlistValue) -> (r: Option<&Vec<u8>>)
    ensures
        r is Some == node@ is Data,
        r matches Some(b) ==> node@ == ValueView::Data(b@),
{
    match node {
        PlistValue::Data(d) => Some(d),
        _ => None,
    }
}

/// A date node's seconds since the Unix epoch.
pub fn plist_get_unix_date_val(node: &PlistValue) -> (r: Option<i64>)
    requires
        node.wf(),
    ensures
        r == (match node@ {
            ValueView::Date(s) => Some(s as i64),
            _ => None::<i64>,
        }),
        r matches Some(s) ==> s >= 0,
{
    match node {
        PlistValue::Date(s) => Some(*s),
        _ => None,
    }
}

/// A uid node's number.
pub fn plist_get_uid_val(node: &PlistValue) -> (r: Option<u64>)
    ensures
        r == (match node@ {
            ValueView::Uid(u) => Some(u),
            _ => None::<u64>,
        }),
{
    match node {
        PlistValue::Uid(u) => Some(*u),
        _ => None,
    }
}

} // verus!
