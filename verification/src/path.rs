//! Directory-shaped views of the graph that path providers expose.
use vstd::prelude::*;

use crate::identity::{NodeId, NodeIdView, NodeKind, PathName, PropertyKey};

verus! {

/// A directory in the graph's path tree: a node, or a virtual directory
/// owned by a node kind.
#[derive(Debug, PartialEq, Eq)]
pub enum GraphPathDirectory {
    Node(NodeId),
    Virtual { owner: NodeKind, local: String },
}

/// What a path name resolves to.
#[derive(Debug, PartialEq, Eq)]
pub enum GraphPathEntry {
    Directory(GraphPathDirectory),
    Property { node: NodeId, key: PropertyKey },
}

/// A named entry of a directory.
#[derive(Debug, PartialEq, Eq)]
pub struct GraphPathChild {
    pub name: PathName,
    pub entry: GraphPathEntry,
}

/// What a watcher of a directory is notified about: one node, or every
/// node of a kind.
#[derive(Debug, PartialEq, Eq)]
pub enum GraphWatchTarget {
    Node(NodeId),
    Kind(NodeKind),
}

pub enum WatchModel {
    Node(NodeIdView),
    Kind(Seq<char>),
}

pub enum DirectoryModel {
    Node(NodeIdView),
    Virtual(Seq<char>, Seq<char>),
}

pub enum EntryModel {
    Directory(DirectoryModel),
    Property(NodeIdView, Seq<char>),
}

pub struct ChildModel {
    pub name: Seq<char>,
    pub entry: EntryModel,
}

impl View for GraphPathDirectory {
    type V = DirectoryModel;

    open spec fn view(&self) -> DirectoryModel {
        match self {
            GraphPathDirectory::Node(node) => DirectoryModel::Node(node@),
            GraphPathDirectory::Virtual { owner, local } => DirectoryModel::Virtual(
                owner@,
                local@,
            ),
        }
    }
}

impl View for GraphPathEntry {
    type V = EntryModel;

    open spec fn view(&self) -> EntryModel {
        match self {
            GraphPathEntry::Directory(d) => EntryModel::Directory(d@),
            GraphPathEntry::Property { node, key } => EntryModel::Property(node@, key@),
        }
    }
}

impl View for GraphPathChild {
    type V = ChildModel;

    open spec fn view(&self) -> ChildModel {
        ChildModel { name: self.name@, entry: self.entry@ }
    }
}

impl View for GraphWatchTarget {
    type V = WatchModel;

    open spec fn view(&self) -> WatchModel {
        match self {
            GraphWatchTarget::Node(node) => WatchModel::Node(node@),
            GraphWatchTarget::Kind(kind) => WatchModel::Kind(kind@),
        }
    }
}

} // verus!
