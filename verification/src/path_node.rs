//! A tree of named byte blobs: what an export yields before anything is
//! written to disk.

use vstd::prelude::*;
use crate::ordered::{OrderedMap, TextKey};

verus! {

impl TextKey for String {
    open spec fn text(&self) -> Seq<char> {
        self@
    }

    fn as_text(&self) -> (s: &str) {
        self.as_str()
    }
}

/// A file with its bytes, or a directory with its entries by name.
#[derive(Debug)]
pub enum PathNode {
    File(Vec<u8>),
    Directory(OrderedMap<String, PathNode>),
}

impl PathNode {
    /// The entries, if this is a directory.
    pub fn into_directory(self) -> (r: Option<OrderedMap<String, PathNode>>)
        ensures
            r == match self {
                PathNode::Directory(d) => Some(d),
                PathNode::File(_) => None,
            },
    {
        match self {
            PathNode::Directory(d) => Some(d),
            PathNode::File(_) => None,
        }
    }

    /// The bytes, if this is a file.
    pub fn into_file(self) -> (r: Option<Vec<u8>>)
        ensures
            r == match self {
                PathNode::Directory(_) => None,
                PathNode::File(f) => Some(f),
            },
    {
        match self {
            PathNode::Directory(_) => None,
            PathNode::File(f) => Some(f),
        }
    }
}

} // verus!
