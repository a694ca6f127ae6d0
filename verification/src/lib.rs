//! Property-list nodes with the semantics of libplist's C API: dictionaries
//! that keep their key order, typed getters, the conversions that
//! libplist's `plist_dict_get_*` helpers perform, and the node handles
//! (whole nodes, children of a dictionary, iterators) that the API hands out.
use vstd::prelude::*;

pub mod model;
pub mod plist_index;
pub mod value;
pub mod number;
pub mod creation;
pub mod dict;
pub mod getters;
pub mod laws;

use crate::value::PlistValue;

verus! {

/// The kind of a node, with libplist's numbering (see [`PlistType::code`]).
#[allow(non_camel_case_types)]
#[derive(Clone, Copy, Debug, PartialEq, Eq, Structural)]
pub enum PlistType {
    PLIST_NONE,
    PLIST_BOOLEAN,
    PLIST_INT,
    PLIST_REAL,
    PLIST_STRING,
    PLIST_ARRAY,
    PLIST_DICT,
    PLIST_DATE,
    PLIST_DATA,
    PLIST_KEY,
    PLIST_UID,
    PLIST_NULL,
}

impl PlistType {
    /// The number that libplist gives this kind.
    pub fn code(&self) -> (c: i32)
        ensures
            c == match *self {
                PlistType::PLIST_NONE => -1int,
                PlistType::PLIST_BOOLEAN => 0,
                PlistType::PLIST_INT => 1,
                PlistType::PLIST_REAL => 2,
                PlistType::PLIST_STRING => 3,
                PlistType::PLIST_ARRAY => 4,
                PlistType::PLIST_DICT => 5,
                PlistType::PLIST_DATE => 6,
                PlistType::PLIST_DATA => 7,
                PlistType::PLIST_KEY => 8,
                PlistType::PLIST_UID => 9,
                PlistType::PLIST_NULL => 10,
            },
    {
        match *self {
            PlistType::PLIST_NONE => -1,
            PlistType::PLIST_BOOLEAN => 0,
            PlistType::PLIST_INT => 1,
            PlistType::PLIST_REAL => 2,
            PlistType::PLIST_STRING => 3,
            PlistType::PLIST_ARRAY => 4,
            PlistType::PLIST_DICT => 5,
            PlistType::PLIST_DATE => 6,
            PlistType::PLIST_DATA => 7,
            PlistType::PLIST_KEY => 8,
            PlistType::PLIST_UID => 9,
            PlistType::PLIST_NULL => 10,
        }
    }
}

/// Result codes, with libplist's numbering (see [`PlistErr::code`]).
#[allow(non_camel_case_types)]
#[derive(Clone, Copy, Debug, PartialEq, Eq, Structural)]
pub enum PlistErr {
    PLIST_ERR_SUCCESS,
    PLIST_ERR_INVALID_ARG,
    PLIST_ERR_FORMAT,
    PLIST_ERR_PARSE,
    PLIST_ERR_NO_MEM,
    PLIST_ERR_IO,
    PLIST_ERR_UNKNOWN,
}

impl PlistErr {
    /// The number that libplist gives this result.
    pub fn code(&self) -> (c: i32)
        ensures
            c == match *self {
                PlistErr::PLIST_ERR_SUCCESS => 0int,
                PlistErr::PLIST_ERR_INVALID_ARG => -1,
                PlistErr::PLIST_ERR_FORMAT => -2,
                PlistErr::PLIST_ERR_PARSE => -3,
                PlistErr::PLIST_ERR_NO_MEM => -4,
                PlistErr::PLIST_ERR_IO => -5,
                PlistErr::PLIST_ERR_UNKNOWN => -255,
            },
    {
        match *self {
            PlistErr::PLIST_ERR_SUCCESS => 0,
            PlistErr::PLIST_ERR_INVALID_ARG => -1,
            PlistErr::PLIST_ERR_FORMAT => -2,
            PlistErr::PLIST_ERR_PARSE => -3,
            PlistErr::PLIST_ERR_NO_MEM => -4,
            PlistErr::PLIST_ERR_IO => -5,
            PlistErr::PLIST_ERR_UNKNOWN => -255,
        }
    }
}

/// Serialization formats, with libplist's numbering (see [`PlistFormat::code`]).
#[allow(non_camel_case_types)]
#[derive(Clone, Copy, Debug, PartialEq, Eq, Structural)]
pub enum PlistFormat {
    PLIST_FORMAT_NONE,
    PLIST_FORMAT_XML,
    PLIST_FORMAT_BINARY,
    PLIST_FORMAT_JSON,
    PLIST_FORMAT_OSTEP,
    PLIST_FORMAT_PRINT,
    PLIST_FORMAT_LIMD,
    PLIST_FORMAT_PLUTIL,
}

impl PlistFormat {
    /// The number that libplist gives this format.
    pub fn code(&self) -> (c: i32)
        ensures
            c == match *self {
                PlistFormat::PLIST_FORMAT_NONE => 0int,
                PlistFormat::PLIST_FORMAT_XML => 1,
                PlistFormat::PLIST_FORMAT_BINARY => 2,
                PlistFormat::PLIST_FORMAT_JSON => 3,
                PlistFormat::PLIST_FORMAT_OSTEP => 4,
                PlistFormat::PLIST_FORMAT_PRINT => 10,
                PlistFormat::PLIST_FORMAT_LIMD => 11,
                PlistFormat::PLIST_FORMAT_PLUTIL => 12,
            },
    {
        match *self {
            PlistFormat::PLIST_FORMAT_NONE => 0,
            PlistFormat::PLIST_FORMAT_XML => 1,
            PlistFormat::PLIST_FORMAT_BINARY => 2,
            PlistFormat::PLIST_FORMAT_JSON => 3,
            PlistFormat::PLIST_FORMAT_OSTEP => 4,
            PlistFormat::PLIST_FORMAT_PRINT => 10,
            PlistFormat::PLIST_FORMAT_LIMD => 11,
            PlistFormat::PLIST_FORMAT_PLUTIL => 12,
        }
    }
}

/// Write options, a bit set.
pub type PlistWriteOptions = u32;

pub const PLIST_OPT_NONE: PlistWriteOptions = 0;

pub const PLIST_OPT_COMPACT: PlistWriteOptions = 1;

pub const PLIST_OPT_PARTIAL_DATA: PlistWriteOptions = 2;

pub const PLIST_OPT_NO_NEWLINE: PlistWriteOptions = 4;

pub const PLIST_OPT_INDENT: PlistWriteOptions = 8;

/// What a handle stands for: a node of its own, a node that lives inside
/// another (with the key it was reached by, and its depth: how many nodes
/// hold it, 0 for the root of its tree), or a dictionary iterator (with the
/// position it will read next).
pub enum NodeType {
    Node(PlistValue),
    Child { index: u32, key: Option<String>, depth: u64 },
    Iterator(u32),
}

/// A handle as the C API passes it around.  Where the handle is a child,
/// the value it refers to lives in its parent; the caller keeps track of it.
pub struct PlistWrapper {
    node: NodeType,
}

impl View for PlistWrapper {
    type V = NodeType;

    closed spec fn view(&self) -> NodeType {
        self.node
    }
}

impl PlistWrapper {
    /// A handle owns well-formed values only.
    pub open spec fn wf(&self) -> bool {
        self@ matches NodeType::Node(v) ==> v.wf()
    }

    pub fn new_node(v: PlistValue) -> (w: PlistWrapper)
        ensures
            w@ == NodeType::Node(v),
    {
        PlistWrapper { node: NodeType::Node(v) }
    }

    pub fn new_iterator(i: u32) -> (w: PlistWrapper)
        ensures
            w@ == NodeType::Iterator(i),
    {
        PlistWrapper { node: NodeType::Iterator(i) }
    }

    /// A handle to a node that lives inside another.
    pub fn new_child(index: u32, key: Option<String>, depth: u64) -> (w: PlistWrapper)
        ensures
            w@ == (NodeType::Child { index, key, depth }),
    {
        PlistWrapper { node: NodeType::Child { index, key, depth } }
    }

    /// How many nodes hold the node this handle reaches: 0 for a handle
    /// that owns its node.
    pub open spec fn depth(&self) -> nat {
        match self@ {
            NodeType::Child { depth, .. } => depth as nat,
            _ => 0,
        }
    }

    /// A handle to an item of the node this handle reaches, reached by
    /// `key`: one level deeper.
    pub fn child_handle(&self, key: Option<String>) -> (w: PlistWrapper)
        requires
            !(self@ is Iterator),
            self.depth() < u64::MAX,
        ensures
            w@ == (NodeType::Child { index: u32::MAX, key, depth: (self.depth() + 1) as u64 }),
    {
        let d: u64 = match &self.node {
            NodeType::Child { depth, .. } => *depth,
            _ => 0,
        };
        PlistWrapper::new_child(u32::MAX, key, d + 1)
    }

    /// What the handle stands for.
    pub fn node(&self) -> (n: &NodeType)
        ensures
            *n == self@,
    {
        &self.node
    }

    /// The value of a handle that owns it.
    pub fn borrow_self(&mut self) -> (v: &mut PlistValue)
        requires
            old(self)@ is Node,
        ensures
            *v == old(self)@->Node_0,
            final(self)@ == NodeType::Node(*final(v)),
    {
        match &mut self.node {
            NodeType::Node(v) => v,
            _ => vstd::pervasive::unreached(),
        }
    }

    /// Take the value out of a handle: `Some` for a handle that owns its
    /// value, `None` for a child, whose value belongs to its parent.
    pub fn consume(self) -> (r: Option<PlistValue>)
        requires
            !(self@ is Iterator),
        ensures
            self@ matches NodeType::Node(v) ==> r == Some(v),
            self@ is Child ==> r is None,
    {
        match self.node {
            NodeType::Node(v) => Some(v),
            _ => None,
        }
    }

    /// The position an iterator reads next; the iterator moves one on.
    pub fn iter_next(&mut self) -> (i: u32)
        requires
            old(self)@ matches NodeType::Iterator(n) && n < u32::MAX,
        ensures
            old(self)@ == NodeType::Iterator(i),
            final(self)@ == NodeType::Iterator((i + 1) as u32),
    {
        match &mut self.node {
            NodeType::Iterator(n) => {
                let to_return = *n;
                *n = *n + 1;
                to_return
            },
            _ => 0,
        }
    }
}

} // verus!
