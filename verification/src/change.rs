//! Semantic graph change notifications.
use vstd::prelude::*;

use crate::identity::{NodeId, NodeIdView, NodeKind, PropertyKey, RelationName};

verus! {

/// A change in the graph that watchers are told about.
#[derive(Debug, PartialEq, Eq)]
pub enum GraphChange {
    NodeKindChanged { kind: NodeKind },
    NodeAdded { node: NodeId },
    NodeChanged { node: NodeId },
    NodeRemoved { node: NodeId },
    PropertyChanged { node: NodeId, key: PropertyKey },
    PropertyAdded { node: NodeId, key: PropertyKey },
    PropertyRemoved { node: NodeId, key: PropertyKey },
    RelationChanged { source: NodeId, relation: RelationName },
    RelationAdded { source: NodeId, relation: RelationName },
    RelationRemoved { source: NodeId, relation: RelationName },
}

/// Abstract value of a graph change.
pub enum ChangeModel {
    NodeKindChanged(Seq<char>),
    NodeAdded(NodeIdView),
    NodeChanged(NodeIdView),
    NodeRemoved(NodeIdView),
    PropertyChanged(NodeIdView, Seq<char>),
    PropertyAdded(NodeIdView, Seq<char>),
    PropertyRemoved(NodeIdView, Seq<char>),
    RelationChanged(NodeIdView, Seq<char>),
    RelationAdded(NodeIdView, Seq<char>),
    RelationRemoved(NodeIdView, Seq<char>),
}

impl View for GraphChange {
    type V = ChangeModel;

    open spec fn view(&self) -> ChangeModel {
        match self {
            GraphChange::NodeKindChanged { kind } => ChangeModel::NodeKindChanged(kind@),
            GraphChange::NodeAdded { node } => ChangeModel::NodeAdded(node@),
            GraphChange::NodeChanged { node } => ChangeModel::NodeChanged(node@),
            GraphChange::NodeRemoved { node } => ChangeModel::NodeRemoved(node@),
            GraphChange::PropertyChanged { node, key } => ChangeModel::PropertyChanged(
                node@,
                key@,
            ),
            GraphChange::PropertyAdded { node, key } => ChangeModel::PropertyAdded(node@, key@),
            GraphChange::PropertyRemoved { node, key } => ChangeModel::PropertyRemoved(
                node@,
                key@,
            ),
            GraphChange::RelationChanged { source, relation } => ChangeModel::RelationChanged(
                source@,
                relation@,
            ),
            GraphChange::RelationAdded { source, relation } => ChangeModel::RelationAdded(
                source@,
                relation@,
            ),
            GraphChange::RelationRemoved { source, relation } => ChangeModel::RelationRemoved(
                source@,
                relation@,
            ),
        }
    }
}

/// The abstract values of a run of changes.
pub open spec fn change_models(changes: Seq<GraphChange>) -> Seq<ChangeModel> {
    changes.map_values(|c: GraphChange| c@)
}

/// The abstract values of a run of changes after one more.
pub proof fn lemma_change_models_push(s: Seq<GraphChange>, x: GraphChange)
    ensures
        change_models(s.push(x)) == change_models(s).push(x@),
{
    assert(change_models(s.push(x)) =~= change_models(s).push(x@));
}

impl GraphChange {
    pub fn duplicate(&self) -> (r: GraphChange)
        ensures
            r@ == self@,
    {
        match self {
            GraphChange::NodeKindChanged { kind } => GraphChange::NodeKindChanged {
                kind: kind.duplicate(),
            },
            GraphChange::NodeAdded { node } => GraphChange::NodeAdded { node: node.duplicate() },
            GraphChange::NodeChanged { node } => GraphChange::NodeChanged {
                node: node.duplicate(),
            },
            GraphChange::NodeRemoved { node } => GraphChange::NodeRemoved {
                node: node.duplicate(),
            },
            GraphChange::PropertyChanged { node, key } => GraphChange::PropertyChanged {
                node: node.duplicate(),
                key: key.duplicate(),
            },
            GraphChange::PropertyAdded { node, key } => GraphChange::PropertyAdded {
                node: node.duplicate(),
                key: key.duplicate(),
            },
            GraphChange::PropertyRemoved { node, key } => GraphChange::PropertyRemoved {
                node: node.duplicate(),
                key: key.duplicate(),
            },
            GraphChange::RelationChanged { source, relation } => GraphChange::RelationChanged {
                source: source.duplicate(),
                relation: relation.duplicate(),
            },
            GraphChange::RelationAdded { source, relation } => GraphChange::RelationAdded {
                source: source.duplicate(),
                relation: relation.duplicate(),
            },
            GraphChange::RelationRemoved { source, relation } => GraphChange::RelationRemoved {
                source: source.duplicate(),
                relation: relation.duplicate(),
            },
        }
    }
}

} // verus!
