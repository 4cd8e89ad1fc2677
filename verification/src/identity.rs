//! Graph identity: node kinds, property keys, relation names, path names
//! and node ids, each a validated identifier.
use vstd::prelude::*;

use crate::error::{GraphError, Result};
use crate::text::{chars_of, concat3, contains_char, split_once_char, split_once_spec, text_lt, TextOrder, chars_compare};

verus! {

/// Which identifier a text is validated as.
#[derive(Clone, Copy, Debug, PartialEq, Eq, Structural)]
pub enum IdentifierClass {
    NodeKind,
    NodeLocalId,
    PropertyKey,
    RelationName,
    PathName,
}

/// Why a text is not a valid identifier.
#[derive(Clone, Copy, Debug, PartialEq, Eq, Structural)]
pub enum IdentifierProblem {
    Empty,
    Reserved,
    Nul,
    Separator,
}

/// The label an identifier class carries in error messages.
pub open spec fn class_label(class: IdentifierClass) -> Seq<char> {
    match class {
        IdentifierClass::NodeKind => "node kind"@,
        IdentifierClass::NodeLocalId => "node local id"@,
        IdentifierClass::PropertyKey => "property key"@,
        IdentifierClass::RelationName => "relation name"@,
        IdentifierClass::PathName => "path name"@,
    }
}

/// The reason an identifier problem is reported with.
pub open spec fn problem_reason(problem: IdentifierProblem) -> Seq<char> {
    match problem {
        IdentifierProblem::Empty => "empty"@,
        IdentifierProblem::Reserved => "reserved path segment"@,
        IdentifierProblem::Nul => "contains NUL"@,
        IdentifierProblem::Separator => "contains node id separator"@,
    }
}

/// The first rule that `value` breaks as an identifier of `class`, if any:
/// it must be non-empty, not `.` or `..`, free of NUL, and a node kind must
/// not contain the node id separator `:`.
pub open spec fn identifier_problem(class: IdentifierClass, value: Seq<char>) -> Option<
    IdentifierProblem,
> {
    if value.len() == 0 {
        Some(IdentifierProblem::Empty)
    } else if value == seq!['.'] || value == seq!['.', '.'] {
        Some(IdentifierProblem::Reserved)
    } else if value.contains('\0') {
        Some(IdentifierProblem::Nul)
    } else if class == IdentifierClass::NodeKind && value.contains(':') {
        Some(IdentifierProblem::Separator)
    } else {
        None
    }
}

pub open spec fn valid_identifier(class: IdentifierClass, value: Seq<char>) -> bool {
    identifier_problem(class, value) is None
}

/// The error reported for an invalid identifier.
pub open spec fn identifier_error(class: IdentifierClass, value: Seq<char>, e: GraphError) -> bool {
    &&& e matches GraphError::InvalidIdentifier { kind, value: v, reason }
    &&& kind@ == class_label(class)
    &&& v@ == value
    &&& identifier_problem(class, value) is Some
    &&& reason@ == problem_reason(identifier_problem(class, value)->0)
}

impl IdentifierClass {
    pub fn label(self) -> (r: &'static str)
        ensures
            r@ == class_label(self),
    {
        match self {
            IdentifierClass::NodeKind => "node kind",
            IdentifierClass::NodeLocalId => "node local id",
            IdentifierClass::PropertyKey => "property key",
            IdentifierClass::RelationName => "relation name",
            IdentifierClass::PathName => "path name",
        }
    }
}

impl IdentifierProblem {
    pub fn reason(self) -> (r: &'static str)
        ensures
            r@ == problem_reason(self),
    {
        match self {
            IdentifierProblem::Empty => "empty",
            IdentifierProblem::Reserved => "reserved path segment",
            IdentifierProblem::Nul => "contains NUL",
            IdentifierProblem::Separator => "contains node id separator",
        }
    }
}

/// Finds the first identifier rule that `value` breaks.
pub fn identifier_check(class: IdentifierClass, value: &str) -> (r: Option<IdentifierProblem>)
    ensures
        r == identifier_problem(class, value@),
{
    let v = chars_of(value);
    if v.len() == 0 {
        return Some(IdentifierProblem::Empty);
    }
    if (v.len() == 1 && v[0] == '.') || (v.len() == 2 && v[0] == '.' && v[1] == '.') {
        assert(v@ =~= seq!['.'] || v@ =~= seq!['.', '.']);
        return Some(IdentifierProblem::Reserved);
    }
    assert(v@ != seq!['.']) by {
        if v@ == seq!['.'] {
            assert(v@.len() == 1 && v@[0] == '.');
        }
    }
    assert(v@ != seq!['.', '.']) by {
        if v@ == seq!['.', '.'] {
            assert(v@.len() == 2 && v@[0] == '.' && v@[1] == '.');
        }
    }
    if contains_char(value, '\0') {
        return Some(IdentifierProblem::Nul);
    }
    match class {
        IdentifierClass::NodeKind => {
            if contains_char(value, ':') {
                return Some(IdentifierProblem::Separator);
            }
        },
        _ => {},
    }
    None
}

/// Validates `value` as an identifier of `class`.
pub fn validate_identifier(class: IdentifierClass, value: &str) -> (r: Result<()>)
    ensures
        r is Ok <==> valid_identifier(class, value@),
        r matches Err(e) ==> identifier_error(class, value@, e),
{
    match identifier_check(class, value) {
        None => Ok(()),
        Some(problem) => Err(
            GraphError::InvalidIdentifier {
                kind: class.label(),
                value: value.to_owned(),
                reason: problem.reason(),
            },
        ),
    }
}

/// Kind of graph node (the part of a node id before `:`).
#[derive(Debug, PartialEq, Eq, Hash, PartialOrd, Ord)]
pub struct NodeKind {
    name: String,
}

/// Key of a node property.
#[derive(Debug, PartialEq, Eq, Hash, PartialOrd, Ord)]
pub struct PropertyKey {
    name: String,
}

/// Name of a relation from a node to other nodes.
#[derive(Debug, PartialEq, Eq, Hash, PartialOrd, Ord)]
pub struct RelationName {
    name: String,
}

/// One segment of a graph path.
#[derive(Debug, PartialEq, Eq, Hash, PartialOrd, Ord)]
pub struct PathName {
    name: String,
}

impl View for NodeKind {
    type V = Seq<char>;

    open spec fn view(&self) -> Seq<char> {
        self.text()
    }
}

impl View for PropertyKey {
    type V = Seq<char>;

    open spec fn view(&self) -> Seq<char> {
        self.text()
    }
}

impl View for RelationName {
    type V = Seq<char>;

    open spec fn view(&self) -> Seq<char> {
        self.text()
    }
}

impl View for PathName {
    type V = Seq<char>;

    open spec fn view(&self) -> Seq<char> {
        self.text()
    }
}

impl NodeKind {
    pub closed spec fn text(&self) -> Seq<char> {
        self.name@
    }

    #[verifier::type_invariant]
    closed spec fn well_formed(&self) -> bool {
        valid_identifier(IdentifierClass::NodeKind, self.name@)
    }


    /// Validates `value` as a node kind.
    pub fn new(value: &str) -> (r: Result<NodeKind>)
        ensures
            r is Ok <==> valid_identifier(IdentifierClass::NodeKind, value@),
            r matches Ok(k) ==> k@ == value@,
            r matches Err(e) ==> identifier_error(IdentifierClass::NodeKind, value@, e),
    {
        validate_identifier(IdentifierClass::NodeKind, value)?;
        Ok(NodeKind { name: value.to_owned() })
    }

    pub fn as_str(&self) -> (r: &str)
        ensures
            r@ == self@,
            valid_identifier(IdentifierClass::NodeKind, r@),
    {
        proof {
            use_type_invariant(self);
        }
        self.name.as_str()
    }

    pub fn duplicate(&self) -> (r: NodeKind)
        ensures
            r@ == self@,
    {
        proof {
            use_type_invariant(self);
        }
        NodeKind { name: self.name.clone() }
    }
}

impl PropertyKey {
    pub closed spec fn text(&self) -> Seq<char> {
        self.name@
    }

    #[verifier::type_invariant]
    closed spec fn well_formed(&self) -> bool {
        valid_identifier(IdentifierClass::PropertyKey, self.name@)
    }


    /// Validates `value` as a property key.
    pub fn new(value: &str) -> (r: Result<PropertyKey>)
        ensures
            r is Ok <==> valid_identifier(IdentifierClass::PropertyKey, value@),
            r matches Ok(k) ==> k@ == value@,
            r matches Err(e) ==> identifier_error(IdentifierClass::PropertyKey, value@, e),
    {
        validate_identifier(IdentifierClass::PropertyKey, value)?;
        Ok(PropertyKey { name: value.to_owned() })
    }

    pub fn as_str(&self) -> (r: &str)
        ensures
            r@ == self@,
            valid_identifier(IdentifierClass::PropertyKey, r@),
    {
        proof {
            use_type_invariant(self);
        }
        self.name.as_str()
    }

    pub fn duplicate(&self) -> (r: PropertyKey)
        ensures
            r@ == self@,
    {
        proof {
            use_type_invariant(self);
        }
        PropertyKey { name: self.name.clone() }
    }
}

impl RelationName {
    pub closed spec fn text(&self) -> Seq<char> {
        self.name@
    }

    #[verifier::type_invariant]
    closed spec fn well_formed(&self) -> bool {
        valid_identifier(IdentifierClass::RelationName, self.name@)
    }


    /// Validates `value` as a relation name.
    pub fn new(value: &str) -> (r: Result<RelationName>)
        ensures
            r is Ok <==> valid_identifier(IdentifierClass::RelationName, value@),
            r matches Ok(k) ==> k@ == value@,
            r matches Err(e) ==> identifier_error(IdentifierClass::RelationName, value@, e),
    {
        validate_identifier(IdentifierClass::RelationName, value)?;
        Ok(RelationName { name: value.to_owned() })
    }

    pub fn as_str(&self) -> (r: &str)
        ensures
            r@ == self@,
            valid_identifier(IdentifierClass::RelationName, r@),
    {
        proof {
            use_type_invariant(self);
        }
        self.name.as_str()
    }

    pub fn duplicate(&self) -> (r: RelationName)
        ensures
            r@ == self@,
    {
        proof {
            use_type_invariant(self);
        }
        RelationName { name: self.name.clone() }
    }
}

impl PathName {
    pub closed spec fn text(&self) -> Seq<char> {
        self.name@
    }

    #[verifier::type_invariant]
    closed spec fn well_formed(&self) -> bool {
        valid_identifier(IdentifierClass::PathName, self.name@)
    }


    /// Validates `value` as a path name.
    pub fn new(value: &str) -> (r: Result<PathName>)
        ensures
            r is Ok <==> valid_identifier(IdentifierClass::PathName, value@),
            r matches Ok(k) ==> k@ == value@,
            r matches Err(e) ==> identifier_error(IdentifierClass::PathName, value@, e),
    {
        validate_identifier(IdentifierClass::PathName, value)?;
        Ok(PathName { name: value.to_owned() })
    }

    pub fn as_str(&self) -> (r: &str)
        ensures
            r@ == self@,
            valid_identifier(IdentifierClass::PathName, r@),
    {
        proof {
            use_type_invariant(self);
        }
        self.name.as_str()
    }

    pub fn duplicate(&self) -> (r: PathName)
        ensures
            r@ == self@,
    {
        proof {
            use_type_invariant(self);
        }
        PathName { name: self.name.clone() }
    }
}

/// Abstract value of a node id: its kind and its local id.
pub struct NodeIdView {
    pub kind: Seq<char>,
    pub local: Seq<char>,
}

/// A graph node: a kind and a local id, written `<kind>:<local>`.
#[derive(Debug, PartialEq, Eq, Hash, PartialOrd, Ord)]
pub struct NodeId {
    kind: NodeKind,
    local: String,
}

impl View for NodeId {
    type V = NodeIdView;

    open spec fn view(&self) -> NodeIdView {
        NodeIdView { kind: self.kind_text(), local: self.local_text() }
    }
}

/// Whether a view is the view of some node id.
pub open spec fn valid_node_id(id: NodeIdView) -> bool {
    valid_identifier(IdentifierClass::NodeKind, id.kind) && valid_identifier(
        IdentifierClass::NodeLocalId,
        id.local,
    )
}

/// The textual form `<kind>:<local>` of a node id.
pub open spec fn node_id_text(id: NodeIdView) -> Seq<char> {
    id.kind + seq![':'] + id.local
}

/// Node ids ordered by kind, then by local id (the derived `Ord`).
pub open spec fn node_lt(a: NodeIdView, b: NodeIdView) -> bool {
    text_lt(a.kind, b.kind) || (a.kind == b.kind && text_lt(a.local, b.local))
}

/// The first rule that text breaks as a node id.
pub open spec fn parse_problem(value: Seq<char>) -> Option<(IdentifierClass, IdentifierProblem)> {
    match split_once_spec(value, ':') {
        None => None,
        Some((kind, local)) => if identifier_problem(IdentifierClass::NodeKind, kind) is Some {
            Some(
                (
                    IdentifierClass::NodeKind,
                    identifier_problem(IdentifierClass::NodeKind, kind)->0,
                ),
            )
        } else if identifier_problem(IdentifierClass::NodeLocalId, local) is Some {
            Some(
                (
                    IdentifierClass::NodeLocalId,
                    identifier_problem(IdentifierClass::NodeLocalId, local)->0,
                ),
            )
        } else {
            None
        },
    }
}

/// The part of a node id text that a parse problem of `class` is about.
pub open spec fn parse_failed_part(value: Seq<char>, class: IdentifierClass) -> Seq<char> {
    match split_once_spec(value, ':') {
        Some((kind, local)) => if class == IdentifierClass::NodeKind {
            kind
        } else {
            local
        },
        None => value,
    }
}

impl NodeId {
    pub closed spec fn kind_text(&self) -> Seq<char> {
        self.kind@
    }

    pub closed spec fn local_text(&self) -> Seq<char> {
        self.local@
    }

    #[verifier::type_invariant]
    closed spec fn well_formed(&self) -> bool {
        valid_identifier(IdentifierClass::NodeLocalId, self.local@)
    }


    /// A node id of `kind` with the validated local id `local`.
    pub fn new(kind: NodeKind, local: &str) -> (r: Result<NodeId>)
        ensures
            r is Ok <==> valid_identifier(IdentifierClass::NodeLocalId, local@),
            r matches Ok(id) ==> id@ == (NodeIdView { kind: kind@, local: local@ }),
            r matches Err(e) ==> identifier_error(IdentifierClass::NodeLocalId, local@, e),
    {
        validate_identifier(IdentifierClass::NodeLocalId, local)?;
        Ok(NodeId { kind, local: local.to_owned() })
    }

    /// A node id built from a kind text and a local text.
    pub fn from_parts(kind: &str, local: &str) -> (r: Result<NodeId>)
        ensures
            r is Ok <==> valid_node_id(NodeIdView { kind: kind@, local: local@ }),
            r matches Ok(id) ==> id@ == (NodeIdView { kind: kind@, local: local@ }),
            r matches Err(e) ==> if !valid_identifier(IdentifierClass::NodeKind, kind@) {
                identifier_error(IdentifierClass::NodeKind, kind@, e)
            } else {
                identifier_error(IdentifierClass::NodeLocalId, local@, e)
            },
    {
        let k = NodeKind::new(kind)?;
        NodeId::new(k, local)
    }

    /// Parses `<kind>:<local>`, splitting at the first `:`.
    pub fn parse(value: &str) -> (r: Result<NodeId>)
        ensures
            r is Ok <==> split_once_spec(value@, ':') is Some && parse_problem(value@) is None,
            r matches Ok(id) ==> split_once_spec(value@, ':') == Some((id@.kind, id@.local)),
            r matches Err(e) ==> match parse_problem(value@) {
                Some((class, _)) => identifier_error(class, parse_failed_part(value@, class), e),
                None => e matches GraphError::InvalidIdentifier { kind, value: v, reason } && kind@
                    == "node id"@ && v@ == value@ && reason@ == "expected <kind>:<local>"@,
            },
    {
        match split_once_char(value, ':') {
            None => Err(
                GraphError::InvalidIdentifier {
                    kind: "node id",
                    value: value.to_owned(),
                    reason: "expected <kind>:<local>",
                },
            ),
            Some((kind, local)) => NodeId::from_parts(kind.as_str(), local.as_str()),
        }
    }

    pub fn kind(&self) -> (r: &NodeKind)
        ensures
            r@ == self@.kind,
    {
        &self.kind
    }

    pub fn local(&self) -> (r: &str)
        ensures
            r@ == self@.local,
    {
        self.local.as_str()
    }

    pub fn into_parts(self) -> (r: (NodeKind, String))
        ensures
            r.0@ == self@.kind,
            r.1@ == self@.local,
    {
        (self.kind, self.local)
    }

    /// The textual form `<kind>:<local>`.
    pub fn to_text(&self) -> (r: String)
        ensures
            r@ == node_id_text(self@),
    {
        proof {
            reveal_strlit(":");
        }
        concat3(self.kind.as_str(), ":", self.local.as_str())
    }

    pub fn duplicate(&self) -> (r: NodeId)
        ensures
            r@ == self@,
    {
        proof {
            use_type_invariant(self);
        }
        NodeId { kind: self.kind.duplicate(), local: self.local.clone() }
    }

    /// Whether two node ids are the same node.
    pub fn same_as(&self, other: &NodeId) -> (r: bool)
        ensures
            r == (self@ == other@),
    {
        let a = self.kind.as_str().to_owned();
        let b = other.kind.as_str().to_owned();
        let c = self.local.clone();
        let d = other.local.clone();
        a == b && c == d
    }

    /// Three-way comparison in the derived order (kind, then local id).
    pub fn compare(&self, other: &NodeId) -> (r: TextOrder)
        ensures
            r == TextOrder::Equal <==> self@ == other@,
            r == TextOrder::Less <==> node_lt(self@, other@),
            r == TextOrder::Greater <==> node_lt(other@, self@),
    {
        let a = chars_of(self.kind.as_str());
        let b = chars_of(other.kind.as_str());
        let first = chars_compare(a.as_slice(), b.as_slice());
        proof {
            crate::text::lemma_text_lt_total(self@.kind, other@.kind);
            crate::text::lemma_text_lt_total(self@.local, other@.local);
            if text_lt(self@.kind, other@.kind) {
                crate::text::lemma_text_lt_asymmetric(self@.kind, other@.kind);
            }
            if text_lt(other@.kind, self@.kind) {
                crate::text::lemma_text_lt_asymmetric(other@.kind, self@.kind);
            }
            if text_lt(self@.local, other@.local) {
                crate::text::lemma_text_lt_asymmetric(self@.local, other@.local);
            }
            if text_lt(other@.local, self@.local) {
                crate::text::lemma_text_lt_asymmetric(other@.local, self@.local);
            }
            crate::text::lemma_text_lt_irreflexive(self@.kind);
            crate::text::lemma_text_lt_irreflexive(self@.local);
        }
        match first {
            TextOrder::Equal => {
                let c = chars_of(self.local.as_str());
                let d = chars_of(other.local.as_str());
                chars_compare(c.as_slice(), d.as_slice())
            },
            other_order => other_order,
        }
    }
}

/// Parsing the textual form of a node id gives the node id back.
pub proof fn lemma_node_id_text_round_trip(id: NodeIdView)
    requires
        valid_node_id(id),
    ensures
        split_once_spec(node_id_text(id), ':') == Some((id.kind, id.local)),
        parse_problem(node_id_text(id)) is None,
{
    let t = node_id_text(id);
    let i = id.kind.len() as int;
    assert(t[i] == ':');
    assert forall|j: int| 0 <= j < i implies t[j] != ':' by {
        assert(t[j] == id.kind[j]);
        assert(!id.kind.contains(':'));
        if t[j] == ':' {
            assert(id.kind.contains(':'));
        }
    }
    crate::text::lemma_first_index_unique(t, ':', i);
    assert(t.take(i) =~= id.kind);
    assert(t.skip(i + 1) =~= id.local);
}

} // verus!
