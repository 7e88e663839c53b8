//! A node of the browsable tree: something to read or something to browse.

use vstd::prelude::*;
use crate::browseable::Browseable;
use crate::model::NodeModel;
use crate::readable::Readable;

verus! {

/// A node of the tree: a file to read, or a directory or archive to browse.
#[derive(Debug)]
pub enum FilesystemNode {
    Readable(Readable),
    Browseable(Browseable),
}

impl View for FilesystemNode {
    type V = NodeModel;

    open spec fn view(&self) -> NodeModel {
        match self {
            FilesystemNode::Readable(r) => r@,
            FilesystemNode::Browseable(b) => b@,
        }
    }
}

impl Clone for FilesystemNode {
    fn clone(&self) -> (r: Self)
        ensures
            r@ == self@,
    {
        match self {
            FilesystemNode::Readable(r) => FilesystemNode::Readable(r.clone()),
            FilesystemNode::Browseable(b) => FilesystemNode::Browseable(b.clone()),
        }
    }
}

impl FilesystemNode {
    /// The name under which the node is listed.
    pub fn name(&self) -> (r: &str)
        requires
            self@.has_name() || self@ is Archive,
        ensures
            r@ == self@.name(),
    {
        match self {
            FilesystemNode::Readable(r) => r.filename(),
            FilesystemNode::Browseable(b) => b.name(),
        }
    }
}

} // verus!
