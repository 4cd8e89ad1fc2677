//! The capabilities a graph provider can offer for a node kind, each a
//! trait that providers implement, and a provider wrapper that forwards to
//! the provider it wraps.
use vstd::prelude::*;

use crate::error::{GraphError, Result};
use crate::identity::{NodeId, NodeIdView, NodeKind, PropertyKey, RelationName};
use crate::value::{LocusValue, PropertySpec, ValueModel};

verus! {

/// Lists and looks up the nodes of one kind.
pub trait NodeProvider {
    /// The kind the provider serves.
    spec fn provider_kind(&self) -> Seq<char>;

    /// Whether `r` is an answer the provider gives to a membership query.
    spec fn answers_contains(&self, node: NodeIdView, r: Result<bool>) -> bool;

    /// Whether `r` is an answer the provider gives to a listing.
    spec fn answers_nodes(&self, r: Result<Vec<NodeId>>) -> bool;

    fn kind(&self) -> (r: &NodeKind)
        ensures
            r@ == self.provider_kind(),
    ;

    fn contains_node(&self, node: &NodeId) -> (r: Result<bool>)
        ensures
            self.answers_contains(node@, r),
    ;

    fn nodes(&self) -> (r: Result<Vec<NodeId>>)
        ensures
            self.answers_nodes(r),
    ;
}

/// Creates and removes nodes.
pub trait NodeMutationProvider {
    /// Whether the provider may create `node`.
    spec fn creates(&self, node: NodeIdView) -> bool;

    /// Whether the provider may refuse to create `node` with `e`.
    spec fn refuses_create(&self, node: NodeIdView, e: GraphError) -> bool;

    /// Whether the provider may remove `node`.
    spec fn removes(&self, node: NodeIdView) -> bool;

    /// Whether the provider may refuse to remove `node` with `e`.
    spec fn refuses_remove(&self, node: NodeIdView, e: GraphError) -> bool;

    fn create_node(&self, node: &NodeId) -> (r: Result<()>)
        ensures
            match r {
                Ok(_) => self.creates(node@),
                Err(e) => self.refuses_create(node@, e),
            },
    ;

    fn remove_node(&self, node: &NodeId) -> (r: Result<()>)
        ensures
            match r {
                Ok(_) => self.removes(node@),
                Err(e) => self.refuses_remove(node@, e),
            },
    ;
}

/// Reads the properties of nodes.
pub trait PropertyProvider {
    spec fn answers_property_spec(
        &self,
        subject: NodeIdView,
        key: Seq<char>,
        r: Result<PropertySpec>,
    ) -> bool;

    spec fn answers_properties(&self, subject: NodeIdView, r: Result<Vec<PropertySpec>>) -> bool;

    spec fn answers_property(&self, subject: NodeIdView, key: Seq<char>, r: Result<LocusValue>) -> bool;

    fn property_spec(&self, subject: &NodeId, key: &PropertyKey) -> (r: Result<PropertySpec>)
        ensures
            self.answers_property_spec(subject@, key@, r),
    ;

    fn properties(&self, subject: &NodeId) -> (r: Result<Vec<PropertySpec>>)
        ensures
            self.answers_properties(subject@, r),
    ;

    fn property(&self, subject: &NodeId, key: &PropertyKey) -> (r: Result<LocusValue>)
        ensures
            self.answers_property(subject@, key@, r),
    ;
}

/// Writes and removes the properties of nodes.
pub trait PropertyMutationProvider {
    spec fn sets_property(&self, subject: NodeIdView, key: Seq<char>, value: ValueModel) -> bool;

    spec fn refuses_set_property(
        &self,
        subject: NodeIdView,
        key: Seq<char>,
        value: ValueModel,
        e: GraphError,
    ) -> bool;

    spec fn removes_property(&self, subject: NodeIdView, key: Seq<char>) -> bool;

    spec fn refuses_remove_property(&self, subject: NodeIdView, key: Seq<char>, e: GraphError) -> bool;

    fn set_property(&self, subject: &NodeId, key: &PropertyKey, value: LocusValue) -> (r: Result<()>)
        ensures
            match r {
                Ok(_) => self.sets_property(subject@, key@, value@),
                Err(e) => self.refuses_set_property(subject@, key@, value@, e),
            },
    ;

    fn remove_property(&self, subject: &NodeId, key: &PropertyKey) -> (r: Result<()>)
        ensures
            match r {
                Ok(_) => self.removes_property(subject@, key@),
                Err(e) => self.refuses_remove_property(subject@, key@, e),
            },
    ;
}

/// Reads the relations of nodes.
pub trait RelationProvider {
    spec fn answers_relations(&self, source: NodeIdView, r: Result<Vec<RelationName>>) -> bool;

    spec fn answers_targets(
        &self,
        source: NodeIdView,
        relation: Seq<char>,
        r: Result<Vec<NodeId>>,
    ) -> bool;

    fn relations(&self, source: &NodeId) -> (r: Result<Vec<RelationName>>)
        ensures
            self.answers_relations(source@, r),
    ;

    fn targets(&self, source: &NodeId, relation: &RelationName) -> (r: Result<Vec<NodeId>>)
        ensures
            self.answers_targets(source@, relation@, r),
    ;
}

/// Adds and removes the links of relations.
pub trait RelationMutationProvider {
    spec fn links(&self, source: NodeIdView, relation: Seq<char>, target: NodeIdView) -> bool;

    spec fn refuses_link(
        &self,
        source: NodeIdView,
        relation: Seq<char>,
        target: NodeIdView,
        e: GraphError,
    ) -> bool;

    spec fn unlinks(&self, source: NodeIdView, relation: Seq<char>, target: NodeIdView) -> bool;

    spec fn refuses_unlink(
        &self,
        source: NodeIdView,
        relation: Seq<char>,
        target: NodeIdView,
        e: GraphError,
    ) -> bool;

    fn set_link(&self, source: &NodeId, relation: &RelationName, target: &NodeId) -> (r: Result<()>)
        ensures
            match r {
                Ok(_) => self.links(source@, relation@, target@),
                Err(e) => self.refuses_link(source@, relation@, target@, e),
            },
    ;

    fn remove_link(&self, source: &NodeId, relation: &RelationName, target: &NodeId) -> (r: Result<
        (),
    >)
        ensures
            match r {
                Ok(_) => self.unlinks(source@, relation@, target@),
                Err(e) => self.refuses_unlink(source@, relation@, target@, e),
            },
    ;
}

/// A provider under a label: it answers every query exactly as the
/// provider it wraps.
pub struct TracedProvider<P> {
    label: &'static str,
    inner: P,
}

impl<P> TracedProvider<P> {
    pub closed spec fn inner_spec(&self) -> P {
        self.inner
    }

    pub closed spec fn label_spec(&self) -> Seq<char> {
        self.label@
    }

    pub fn new(label: &'static str, inner: P) -> (r: TracedProvider<P>)
        ensures
            r.inner_spec() == inner,
            r.label_spec() == label@,
    {
        TracedProvider { label, inner }
    }

    pub fn into_inner(self) -> (r: P)
        ensures
            r == self.inner_spec(),
    {
        self.inner
    }
}

impl<P: NodeProvider> NodeProvider for TracedProvider<P> {
    open spec fn provider_kind(&self) -> Seq<char> {
        self.inner_spec().provider_kind()
    }

    open spec fn answers_contains(&self, node: NodeIdView, r: Result<bool>) -> bool {
        self.inner_spec().answers_contains(node, r)
    }

    open spec fn answers_nodes(&self, r: Result<Vec<NodeId>>) -> bool {
        self.inner_spec().answers_nodes(r)
    }

    fn kind(&self) -> (r: &NodeKind) {
        self.inner.kind()
    }

    fn contains_node(&self, node: &NodeId) -> (r: Result<bool>) {
        self.inner.contains_node(node)
    }

    fn nodes(&self) -> (r: Result<Vec<NodeId>>) {
        self.inner.nodes()
    }
}

impl<P: NodeMutationProvider> NodeMutationProvider for TracedProvider<P> {
    open spec fn creates(&self, node: NodeIdView) -> bool {
        self.inner_spec().creates(node)
    }

    open spec fn refuses_create(&self, node: NodeIdView, e: GraphError) -> bool {
        self.inner_spec().refuses_create(node, e)
    }

    open spec fn removes(&self, node: NodeIdView) -> bool {
        self.inner_spec().removes(node)
    }

    open spec fn refuses_remove(&self, node: NodeIdView, e: GraphError) -> bool {
        self.inner_spec().refuses_remove(node, e)
    }

    fn create_node(&self, node: &NodeId) -> (r: Result<()>) {
        self.inner.create_node(node)
    }

    fn remove_node(&self, node: &NodeId) -> (r: Result<()>) {
        self.inner.remove_node(node)
    }
}

impl<P: PropertyProvider> PropertyProvider for TracedProvider<P> {
    open spec fn answers_property_spec(
        &self,
        subject: NodeIdView,
        key: Seq<char>,
        r: Result<PropertySpec>,
    ) -> bool {
        self.inner_spec().answers_property_spec(subject, key, r)
    }

    open spec fn answers_properties(&self, subject: NodeIdView, r: Result<Vec<PropertySpec>>) -> bool {
        self.inner_spec().answers_properties(subject, r)
    }

    open spec fn answers_property(&self, subject: NodeIdView, key: Seq<char>, r: Result<LocusValue>) -> bool {
        self.inner_spec().answers_property(subject, key, r)
    }

    fn property_spec(&self, subject: &NodeId, key: &PropertyKey) -> (r: Result<PropertySpec>) {
        self.inner.property_spec(subject, key)
    }

    fn properties(&self, subject: &NodeId) -> (r: Result<Vec<PropertySpec>>) {
        self.inner.properties(subject)
    }

    fn property(&self, subject: &NodeId, key: &PropertyKey) -> (r: Result<LocusValue>) {
        self.inner.property(subject, key)
    }
}

impl<P: PropertyMutationProvider> PropertyMutationProvider for TracedProvider<P> {
    open spec fn sets_property(&self, subject: NodeIdView, key: Seq<char>, value: ValueModel) -> bool {
        self.inner_spec().sets_property(subject, key, value)
    }

    open spec fn refuses_set_property(
        &self,
        subject: NodeIdView,
        key: Seq<char>,
        value: ValueModel,
        e: GraphError,
    ) -> bool {
        self.inner_spec().refuses_set_property(subject, key, value, e)
    }

    open spec fn removes_property(&self, subject: NodeIdView, key: Seq<char>) -> bool {
        self.inner_spec().removes_property(subject, key)
    }

    open spec fn refuses_remove_property(&self, subject: NodeIdView, key: Seq<char>, e: GraphError) -> bool {
        self.inner_spec().refuses_remove_property(subject, key, e)
    }

    fn set_property(&self, subject: &NodeId, key: &PropertyKey, value: LocusValue) -> (r: Result<()>) {
        self.inner.set_property(subject, key, value)
    }

    fn remove_property(&self, subject: &NodeId, key: &PropertyKey) -> (r: Result<()>) {
        self.inner.remove_property(subject, key)
    }
}

impl<P: RelationProvider> RelationProvider for TracedProvider<P> {
    open spec fn answers_relations(&self, source: NodeIdView, r: Result<Vec<RelationName>>) -> bool {
        self.inner_spec().answers_relations(source, r)
    }

    open spec fn answers_targets(
        &self,
        source: NodeIdView,
        relation: Seq<char>,
        r: Result<Vec<NodeId>>,
    ) -> bool {
        self.inner_spec().answers_targets(source, relation, r)
    }

    fn relations(&self, source: &NodeId) -> (r: Result<Vec<RelationName>>) {
        self.inner.relations(source)
    }

    fn targets(&self, source: &NodeId, relation: &RelationName) -> (r: Result<Vec<NodeId>>) {
        self.inner.targets(source, relation)
    }
}

impl<P: RelationMutationProvider> RelationMutationProvider for TracedProvider<P> {
    open spec fn links(&self, source: NodeIdView, relation: Seq<char>, target: NodeIdView) -> bool {
        self.inner_spec().links(source, relation, target)
    }

    open spec fn refuses_link(
        &self,
        source: NodeIdView,
        relation: Seq<char>,
        target: NodeIdView,
        e: GraphError,
    ) -> bool {
        self.inner_spec().refuses_link(source, relation, target, e)
    }

    open spec fn unlinks(&self, source: NodeIdView, relation: Seq<char>, target: NodeIdView) -> bool {
        self.inner_spec().unlinks(source, relation, target)
    }

    open spec fn refuses_unlink(
        &self,
        source: NodeIdView,
        relation: Seq<char>,
        target: NodeIdView,
        e: GraphError,
    ) -> bool {
        self.inner_spec().refuses_unlink(source, relation, target, e)
    }

    fn set_link(&self, source: &NodeId, relation: &RelationName, target: &NodeId) -> (r: Result<()>) {
        self.inner.set_link(source, relation, target)
    }

    fn remove_link(&self, source: &NodeId, relation: &RelationName, target: &NodeId) -> (r: Result<
        (),
    >) {
        self.inner.remove_link(source, relation, target)
    }
}

} // verus!
