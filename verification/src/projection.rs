//! Shared pieces of the plugins' graph projections: property maps, the
//! lookups that answer provider queries from them, and the errors those
//! lookups report.
use vstd::prelude::*;

use crate::error::{is_not_found, GraphError, Result};
use crate::identity::{identifier_error, node_id_text, node_lt, valid_identifier, IdentifierClass, NodeId, NodeIdView, NodeKind, PropertyKey, RelationName};
use crate::text::{concat3, lemma_text_lt_asymmetric, lemma_text_lt_irreflexive, lemma_text_lt_total, lemma_text_lt_transitive, text_lt, TextOrder};
use crate::text_map::{lemma_entries_map_at, sorted_by_key, TextKey, TextMap};
use crate::value::{model_kind, LocusValue, PropertySpec, PropertySpecView, ValueKind, ValueModel};

verus! {

/// Properties of one node, keyed by property key.
pub type PropertyMap = TextMap<PropertyKey, LocusValue>;

/// Relations of one node: relation name to target nodes.
pub type RelationMap = TextMap<RelationName, Vec<NodeId>>;

/// The abstract values of a property map.
pub open spec fn property_models(m: PropertyMap) -> Map<Seq<char>, ValueModel> {
    m.map().map_values(|v: LocusValue| v@)
}

/// The abstract targets of a relation map.
pub open spec fn relation_models(m: RelationMap) -> Map<Seq<char>, Seq<NodeIdView>> {
    m.map().map_values(|v: Vec<NodeId>| node_views(v@))
}

/// The abstract values of a run of node ids.
pub open spec fn node_views(s: Seq<NodeId>) -> Seq<NodeIdView> {
    s.map_values(|n: NodeId| n@)
}

/// The abstract values of a run of node ids after one more.
pub proof fn lemma_node_views_push(s: Seq<NodeId>, x: NodeId)
    ensures
        node_views(s.push(x)) == node_views(s).push(x@),
{
    assert(node_views(s.push(x)) =~= node_views(s).push(x@));
}

/// Texts strictly increasing.
pub open spec fn strictly_sorted(s: Seq<Seq<char>>) -> bool {
    forall|i: int, j: int| 0 <= i < j < s.len() ==> text_lt(#[trigger] s[i], #[trigger] s[j])
}

/// The texts of a finite set, in increasing order.
pub open spec fn sorted_keys_of(s: Set<Seq<char>>) -> Seq<Seq<char>> {
    choose|q: Seq<Seq<char>>| strictly_sorted(q) && q.to_set() == s
}

pub proof fn lemma_strictly_sorted_no_duplicates(s: Seq<Seq<char>>)
    requires
        strictly_sorted(s),
    ensures
        s.no_duplicates(),
{
    assert forall|i: int, j: int| 0 <= i < s.len() && 0 <= j < s.len() && i != j implies s[i]
        != s[j] by {
        if i < j {
            assert(text_lt(s[i], s[j]));
            lemma_text_lt_irreflexive(s[i]);
        } else {
            assert(text_lt(s[j], s[i]));
            lemma_text_lt_irreflexive(s[j]);
        }
    }
}

/// Two increasing runs of texts with the same elements are the same run.
pub proof fn lemma_sorted_unique(a: Seq<Seq<char>>, b: Seq<Seq<char>>)
    requires
        strictly_sorted(a),
        strictly_sorted(b),
        a.to_set() == b.to_set(),
    ensures
        a == b,
    decreases a.len(),
{
    if a.len() == 0 {
        if b.len() > 0 {
            assert(b.to_set().contains(b[0]));
        }
        assert(b.len() == 0);
        assert(a =~= b);
    } else if b.len() == 0 {
        assert(a.to_set().contains(a[0]));
    } else {
        assert(a.to_set().contains(a[0]));
        assert(b.to_set().contains(a[0]));
        let j = choose|j: int| 0 <= j < b.len() && b[j] == a[0];
        assert(b.to_set().contains(b[0]));
        let i = choose|i: int| 0 <= i < a.len() && a[i] == b[0];
        if a[0] != b[0] {
            assert(j > 0 && i > 0);
            assert(text_lt(b[0], b[j]));
            assert(text_lt(a[0], a[i]));
            lemma_text_lt_asymmetric(b[0], a[0]);
        }
        let a1 = a.drop_first();
        let b1 = b.drop_first();
        assert(strictly_sorted(a1)) by {
            assert forall|p: int, q: int| 0 <= p < q < a1.len() implies text_lt(
                #[trigger] a1[p],
                #[trigger] a1[q],
            ) by {
                assert(a1[p] == a[p + 1] && a1[q] == a[q + 1]);
            }
        }
        assert(strictly_sorted(b1)) by {
            assert forall|p: int, q: int| 0 <= p < q < b1.len() implies text_lt(
                #[trigger] b1[p],
                #[trigger] b1[q],
            ) by {
                assert(b1[p] == b[p + 1] && b1[q] == b[q + 1]);
            }
        }
        assert(a1.to_set() =~= b1.to_set()) by {
            assert forall|x: Seq<char>| a1.to_set().contains(x) implies b1.to_set().contains(
                x,
            ) by {
                let p = choose|p: int| 0 <= p < a1.len() && a1[p] == x;
                assert(a[p + 1] == x);
                assert(text_lt(a[0], a[p + 1]));
                lemma_text_lt_irreflexive(a[0]);
                assert(a.to_set().contains(x));
                let q = choose|q: int| 0 <= q < b.len() && b[q] == x;
                if q == 0 {
                    assert(x == a[0]);
                }
                assert(b1[q - 1] == x);
            }
            assert forall|x: Seq<char>| b1.to_set().contains(x) implies a1.to_set().contains(
                x,
            ) by {
                let p = choose|p: int| 0 <= p < b1.len() && b1[p] == x;
                assert(b[p + 1] == x);
                assert(text_lt(b[0], b[p + 1]));
                lemma_text_lt_irreflexive(b[0]);
                assert(b.to_set().contains(x));
                let q = choose|q: int| 0 <= q < a.len() && a[q] == x;
                if q == 0 {
                    assert(x == b[0]);
                }
                assert(a1[q - 1] == x);
            }
        }
        lemma_sorted_unique(a1, b1);
        assert(a =~= seq![a[0]] + a1);
        assert(b =~= seq![b[0]] + b1);
    }
}

/// An increasing run of texts is the sorted key list of its elements.
pub proof fn lemma_sorted_keys_of(q: Seq<Seq<char>>)
    requires
        strictly_sorted(q),
    ensures
        sorted_keys_of(q.to_set()) == q,
{
    let r = sorted_keys_of(q.to_set());
    assert(strictly_sorted(r) && r.to_set() == q.to_set());
    lemma_sorted_unique(r, q);
}

/// The key texts of a map's entries are its keys in increasing order.
pub proof fn lemma_map_keys_sorted<K: TextKey, V>(m: TextMap<K, V>)
    requires
        sorted_by_key(m.entries()),
    ensures
        strictly_sorted(m.keys()),
        m.keys().to_set() == m.map().dom(),
        sorted_keys_of(m.map().dom()) == m.keys(),
{
    let s = m.entries();
    let q = m.keys();
    assert forall|i: int, j: int| 0 <= i < j < q.len() implies text_lt(
        #[trigger] q[i],
        #[trigger] q[j],
    ) by {
        assert(q[i] == s[i].0.key_text() && q[j] == s[j].0.key_text());
    }
    assert(q.to_set() =~= m.map().dom()) by {
        assert forall|k: Seq<char>| q.to_set().contains(k) implies m.map().dom().contains(k) by {
            let i = choose|i: int| 0 <= i < q.len() && q[i] == k;
            lemma_entries_map_at(s, i);
        }
        assert forall|k: Seq<char>| m.map().dom().contains(k) implies q.to_set().contains(k) by {
            let i = choose|i: int| 0 <= i < s.len() && #[trigger] s[i].0.key_text() == k;
            assert(q[i] == k);
        }
    }
    lemma_sorted_keys_of(q);
}

/// A property key from a key text known to be valid.
pub fn known_key(text: &str) -> (r: PropertyKey)
    requires
        valid_identifier(IdentifierClass::PropertyKey, text@),
    ensures
        r@ == text@,
{
    match PropertyKey::new(text) {
        Ok(k) => k,
        Err(_) => vstd::pervasive::unreached(),
    }
}

/// A node kind from a text known to be valid.
pub fn known_kind(text: &str) -> (r: NodeKind)
    requires
        valid_identifier(IdentifierClass::NodeKind, text@),
    ensures
        r@ == text@,
{
    match NodeKind::new(text) {
        Ok(k) => k,
        Err(_) => vstd::pervasive::unreached(),
    }
}

/// A relation name from a text known to be valid.
pub fn known_relation(text: &str) -> (r: RelationName)
    requires
        valid_identifier(IdentifierClass::RelationName, text@),
    ensures
        r@ == text@,
{
    match RelationName::new(text) {
        Ok(k) => k,
        Err(_) => vstd::pervasive::unreached(),
    }
}

/// A node id from texts known to be valid.
pub fn known_node(kind: &str, local: &str) -> (r: NodeId)
    requires
        valid_identifier(IdentifierClass::NodeKind, kind@),
        valid_identifier(IdentifierClass::NodeLocalId, local@),
    ensures
        r@ == (NodeIdView { kind: kind@, local: local@ }),
{
    match NodeId::from_parts(kind, local) {
        Ok(n) => n,
        Err(_) => vstd::pervasive::unreached(),
    }
}

/// Adds a property under a key text known to be valid.
pub fn put(map: &mut PropertyMap, key: &str, value: LocusValue)
    requires
        valid_identifier(IdentifierClass::PropertyKey, key@),
    ensures
        property_models(*final(map)) == property_models(*old(map)).insert(key@, value@),
{
    let k = known_key(key);
    let ghost v = value;
    map.insert(k, value);
    proof {
        assert(property_models(*map) =~= property_models(*old(map)).insert(key@, v@));
    }
}

/// The text `<node>/<name>` that errors about a node's entry report.
pub open spec fn entry_text(node: NodeIdView, name: Seq<char>) -> Seq<char> {
    node_id_text(node) + "/"@ + name
}

pub fn entry_name(node: &NodeId, name: &str) -> (r: String)
    ensures
        r@ == entry_text(node@, name@),
{
    let n = node.to_text();
    concat3(n.as_str(), "/", name)
}

/// The error for a node that does not exist.
pub fn node_not_found(node: &NodeId) -> (e: GraphError)
    ensures
        e matches GraphError::NotFound { kind, name } && kind@ == "node"@ && name@ == node_id_text(
            node@,
        ),
{
    GraphError::NotFound { kind: "node", name: node.to_text() }
}

/// The error for a property a node does not have.
pub fn property_not_found(node: &NodeId, key: &PropertyKey) -> (e: GraphError)
    ensures
        e matches GraphError::NotFound { kind, name } && kind@ == "property"@ && name@
            == entry_text(node@, key@),
{
    GraphError::NotFound { kind: "property", name: entry_name(node, key.as_str()) }
}

/// The error for a relation a node does not have.
pub fn relation_not_found(node: &NodeId, relation: &RelationName) -> (e: GraphError)
    ensures
        e matches GraphError::NotFound { kind, name } && kind@ == "relation"@ && name@
            == entry_text(node@, relation@),
{
    GraphError::NotFound { kind: "relation", name: entry_name(node, relation.as_str()) }
}

/// The value of property `key` in `map`, or the not-found error.
pub fn lookup_property(map: &PropertyMap, node: &NodeId, key: &PropertyKey) -> (r: Result<
    LocusValue,
>)
    ensures
        match r {
            Ok(v) => property_models(*map).contains_key(key@) && v@ == property_models(*map)[key@],
            Err(e) => !property_models(*map).contains_key(key@) && is_not_found(
                e,
                "property"@,
                entry_text(node@, key@),
            ),
        },
{
    match map.get(key.as_str()) {
        Some(v) => Ok(v.duplicate()),
        None => Err(property_not_found(node, key)),
    }
}

/// The value kind of property `key` in `map`, or the not-found error.
pub fn lookup_kind(map: &PropertyMap, node: &NodeId, key: &PropertyKey) -> (r: Result<ValueKind>)
    ensures
        match r {
            Ok(kind) => property_models(*map).contains_key(key@) && kind == model_kind(
                property_models(*map)[key@],
            ),
            Err(e) => !property_models(*map).contains_key(key@) && is_not_found(
                e,
                "property"@,
                entry_text(node@, key@),
            ),
        },
{
    match map.get(key.as_str()) {
        Some(v) => Ok(v.kind()),
        None => Err(property_not_found(node, key)),
    }
}

/// How a property may be accessed.
#[derive(Clone, Copy, Debug, PartialEq, Eq, Structural)]
pub enum Access {
    ReadOnly,
    ReadWrite,
    WriteOnly,
}

/// The spec of a property with the given access.
pub open spec fn spec_with_access(key: Seq<char>, kind: ValueKind, access: Access) -> PropertySpecView {
    match access {
        Access::ReadOnly => PropertySpecView { key, kind, readable: true, writable: false },
        Access::ReadWrite => PropertySpecView { key, kind, readable: true, writable: true },
        Access::WriteOnly => PropertySpecView { key, kind, readable: false, writable: true },
    }
}

pub fn make_spec(key: PropertyKey, kind: ValueKind, access: Access) -> (r: PropertySpec)
    ensures
        r@ == spec_with_access(key@, kind, access),
{
    match access {
        Access::ReadOnly => PropertySpec::new(key, kind),
        Access::ReadWrite => PropertySpec::read_write(key, kind),
        Access::WriteOnly => PropertySpec::write_only(key, kind),
    }
}

/// The abstract values of a run of property specs.
pub open spec fn spec_views(s: Seq<PropertySpec>) -> Seq<PropertySpecView> {
    s.map_values(|p: PropertySpec| p@)
}

/// The keys of a property map, in increasing order.
pub fn property_keys(map: &PropertyMap) -> (r: Vec<PropertyKey>)
    ensures
        r@.map_values(|k: PropertyKey| k@) == sorted_keys_of(property_models(*map).dom()),
        strictly_sorted(r@.map_values(|k: PropertyKey| k@)),
        r@.map_values(|k: PropertyKey| k@).to_set() == property_models(*map).dom(),
{
    let n = map.len();
    let mut out: Vec<PropertyKey> = Vec::new();
    let mut i: usize = 0;
    while i < n
        invariant
            n == map.entries().len(),
            i <= n,
            out@.len() == i,
            forall|q: int| 0 <= q < i ==> (#[trigger] out@[q])@ == map.keys()[q],
        decreases n - i,
    {
        let k = map.key_at(i).duplicate();
        assert(map.keys()[i as int] == k@);
        out.push(k);
        i += 1;
    }
    proof {
        lemma_map_keys_sorted(*map);
        assert(out@.map_values(|k: PropertyKey| k@) =~= map.keys());
        assert(property_models(*map).dom() =~= map.map().dom());
    }
    out
}

/// The keys whose values differ between two property maps (present in
/// only one, or with different values), in increasing order.
pub open spec fn changed_key_set(
    old: Map<Seq<char>, ValueModel>,
    new: Map<Seq<char>, ValueModel>,
) -> Set<Seq<char>> {
    Set::new(
        |k: Seq<char>|
            (old.contains_key(k) || new.contains_key(k)) && (old.contains_key(k)
                != new.contains_key(k) || old[k] != new[k]),
    )
}

pub open spec fn changed_keys_spec(
    old: Map<Seq<char>, ValueModel>,
    new: Map<Seq<char>, ValueModel>,
) -> Seq<Seq<char>> {
    sorted_keys_of(changed_key_set(old, new))
}

/// The keys whose values differ between `old` and `new`, in increasing order.
pub fn changed_keys(old: &PropertyMap, new: &PropertyMap) -> (r: Vec<PropertyKey>)
    ensures
        r@.map_values(|k: PropertyKey| k@) == changed_keys_spec(
            property_models(*old),
            property_models(*new),
        ),
{
    let ghost om = property_models(*old);
    let ghost nm = property_models(*new);
    let mut set: TextMap<PropertyKey, bool> = TextMap::new();
    let n = old.len();
    let mut i: usize = 0;
    while i < n
        invariant
            n == old.entries().len(),
            sorted_by_key(old.entries()),
            om == property_models(*old),
            nm == property_models(*new),
            i <= n,
            forall|k: Seq<char>| #[trigger]
                set.map().contains_key(k) <==> (exists|j: int|
                    0 <= j < i && old.entries()[j].0@ == k) && changed_key_set(om, nm).contains(k),
        decreases n - i,
    {
        let key = old.key_at(i);
        let value = old.value_at(i);
        proof {
            lemma_entries_map_at(old.entries(), i as int);
        }
        let differs = match new.get(key.as_str()) {
            Some(other) => !value.same_as(other),
            None => true,
        };
        let ghost before = set.map();
        if differs {
            set.insert(key.duplicate(), true);
        }
        proof {
            assert forall|k: Seq<char>| #[trigger]
                set.map().contains_key(k) <==> (exists|j: int|
                    0 <= j < i + 1 && old.entries()[j].0@ == k) && changed_key_set(om, nm).contains(
                    k,
                ) by {
                if k == key@ {
                    assert(old.entries()[i as int].0@ == k);
                } else {
                    if exists|j: int| 0 <= j < i + 1 && old.entries()[j].0@ == k {
                        let j = choose|j: int| 0 <= j < i + 1 && old.entries()[j].0@ == k;
                        assert(j != i);
                    }
                }
            }
        }
        i += 1;
    }
    proof {
        assert forall|k: Seq<char>|
            (exists|j: int| 0 <= j < n && old.entries()[j].0@ == k) <==> #[trigger] om.contains_key(
                k,
            ) by {
            if exists|j: int| 0 <= j < n && old.entries()[j].0@ == k {
                let j = choose|j: int| 0 <= j < n && old.entries()[j].0@ == k;
                lemma_entries_map_at(old.entries(), j);
            }
            if om.contains_key(k) {
                let j = choose|j: int|
                    0 <= j < old.entries().len() && #[trigger] old.entries()[j].0.key_text() == k;
                assert(old.entries()[j].0@ == k);
            }
        }
    }
    let m = new.len();
    let mut j: usize = 0;
    while j < m
        invariant
            m == new.entries().len(),
            n == old.entries().len(),
            sorted_by_key(new.entries()),
            sorted_by_key(old.entries()),
            om == property_models(*old),
            nm == property_models(*new),
            j <= m,
            forall|k: Seq<char>| #[trigger]
                set.map().contains_key(k) <==> (om.contains_key(k) || exists|q: int|
                    0 <= q < j && new.entries()[q].0@ == k) && changed_key_set(om, nm).contains(k),
        decreases m - j,
    {
        let key = new.key_at(j);
        proof {
            lemma_entries_map_at(new.entries(), j as int);
        }
        let absent = !old.contains_key(key.as_str());
        if absent {
            set.insert(key.duplicate(), true);
        }
        proof {
            assert forall|k: Seq<char>| #[trigger]
                set.map().contains_key(k) <==> (om.contains_key(k) || exists|q: int|
                    0 <= q < j + 1 && new.entries()[q].0@ == k) && changed_key_set(om, nm).contains(
                    k,
                ) by {
                if k == key@ {
                    assert(new.entries()[j as int].0@ == k);
                } else {
                    if exists|q: int| 0 <= q < j + 1 && new.entries()[q].0@ == k {
                        let q = choose|q: int| 0 <= q < j + 1 && new.entries()[q].0@ == k;
                        assert(q != j);
                    }
                }
            }
        }
        j += 1;
    }
    proof {
        assert forall|k: Seq<char>| #[trigger]
            set.map().contains_key(k) <==> changed_key_set(om, nm).contains(k) by {
            if changed_key_set(om, nm).contains(k) && !om.contains_key(k) {
                assert(nm.contains_key(k));
                assert(new.map().contains_key(k));
                let q = choose|q: int|
                    0 <= q < new.entries().len() && #[trigger] new.entries()[q].0.key_text() == k;
                assert(new.entries()[q].0@ == k);
            }
            if changed_key_set(om, nm).contains(k) && om.contains_key(k) {
                assert(old.map().contains_key(k));
                let q = choose|q: int|
                    0 <= q < old.entries().len() && #[trigger] old.entries()[q].0.key_text() == k;
                assert(old.entries()[q].0@ == k);
            }
        }
    }
    let count = set.len();
    let mut out: Vec<PropertyKey> = Vec::new();
    let mut p: usize = 0;
    while p < count
        invariant
            count == set.entries().len(),
            p <= count,
            out@.len() == p,
            forall|q: int| 0 <= q < p ==> (#[trigger] out@[q])@ == set.keys()[q],
        decreases count - p,
    {
        let k = set.key_at(p).duplicate();
        assert(set.keys()[p as int] == k@);
        out.push(k);
        p += 1;
    }
    proof {
        lemma_map_keys_sorted(set);
        assert(out@.map_values(|k: PropertyKey| k@) =~= set.keys());
        assert(set.map().dom() =~= changed_key_set(om, nm));
    }
    out
}


/// Which properties of which nodes may be written or read.
pub trait AccessPolicy {
    spec fn access_spec(&self, node: NodeIdView, key: Seq<char>) -> Access;

    fn access(&self, node: &NodeId, key: &PropertyKey) -> (r: Access)
        ensures
            r == self.access_spec(node@, key@),
    ;
}

/// A policy under which every property is read-only.
pub struct ReadOnlyAccess;

impl AccessPolicy for ReadOnlyAccess {
    open spec fn access_spec(&self, node: NodeIdView, key: Seq<char>) -> Access {
        Access::ReadOnly
    }

    fn access(&self, node: &NodeId, key: &PropertyKey) -> (r: Access) {
        Access::ReadOnly
    }
}

/// The answer to a property read: the node's value under `key`, or the
/// error for a missing node or a missing property.
pub open spec fn property_result(
    props: Option<Map<Seq<char>, ValueModel>>,
    node: NodeIdView,
    key: Seq<char>,
    r: Result<LocusValue>,
) -> bool {
    match props {
        None => r matches Err(e) && is_not_found(e, "node"@, node_id_text(node)),
        Some(m) => if m.contains_key(key) {
            r matches Ok(v) && v@ == m[key]
        } else {
            r matches Err(e) && is_not_found(e, "property"@, entry_text(node, key))
        },
    }
}

/// The answer to a property spec query.
pub open spec fn property_spec_result<P: AccessPolicy>(
    policy: P,
    props: Option<Map<Seq<char>, ValueModel>>,
    node: NodeIdView,
    key: Seq<char>,
    r: Result<PropertySpec>,
) -> bool {
    match props {
        None => r matches Err(e) && is_not_found(e, "node"@, node_id_text(node)),
        Some(m) => if m.contains_key(key) {
            r matches Ok(spec) && spec@ == spec_with_access(
                key,
                model_kind(m[key]),
                policy.access_spec(node, key),
            )
        } else {
            r matches Err(e) && is_not_found(e, "property"@, entry_text(node, key))
        },
    }
}

/// The specs of all properties of a node, in key order.
pub open spec fn properties_spec<P: AccessPolicy>(
    policy: P,
    m: Map<Seq<char>, ValueModel>,
    node: NodeIdView,
) -> Seq<PropertySpecView> {
    sorted_keys_of(m.dom()).map_values(
        |k: Seq<char>| spec_with_access(k, model_kind(m[k]), policy.access_spec(node, k)),
    )
}

/// The answer to a property listing.
pub open spec fn properties_result<P: AccessPolicy>(
    policy: P,
    props: Option<Map<Seq<char>, ValueModel>>,
    node: NodeIdView,
    r: Result<Vec<PropertySpec>>,
) -> bool {
    match props {
        None => r matches Err(e) && is_not_found(e, "node"@, node_id_text(node)),
        Some(m) => r matches Ok(specs) && spec_views(specs@) == properties_spec(policy, m, node),
    }
}

/// The answer to a relation listing: the relation names in order.
pub open spec fn relations_result(
    rels: Option<Map<Seq<char>, Seq<NodeIdView>>>,
    node: NodeIdView,
    r: Result<Vec<RelationName>>,
) -> bool {
    match rels {
        None => r matches Err(e) && is_not_found(e, "node"@, node_id_text(node)),
        Some(m) => r matches Ok(names) && names@.map_values(|n: RelationName| n@) == sorted_keys_of(
            m.dom(),
        ),
    }
}

/// The answer to a relation target query.
pub open spec fn targets_result(
    rels: Option<Map<Seq<char>, Seq<NodeIdView>>>,
    node: NodeIdView,
    relation: Seq<char>,
    r: Result<Vec<NodeId>>,
) -> bool {
    match rels {
        None => r matches Err(e) && is_not_found(e, "node"@, node_id_text(node)),
        Some(m) => if m.contains_key(relation) {
            r matches Ok(targets) && node_views(targets@) == m[relation]
        } else {
            r matches Err(e) && is_not_found(e, "relation"@, entry_text(node, relation))
        },
    }
}

pub open spec fn props_option(props: Option<PropertyMap>) -> Option<Map<Seq<char>, ValueModel>> {
    match props {
        Some(m) => Some(property_models(m)),
        None => None,
    }
}

pub open spec fn rels_option(rels: Option<RelationMap>) -> Option<Map<Seq<char>, Seq<NodeIdView>>> {
    match rels {
        Some(m) => Some(relation_models(m)),
        None => None,
    }
}

/// Answers a property read from a node's properties.
pub fn answer_property(props: Option<PropertyMap>, node: &NodeId, key: &PropertyKey) -> (r: Result<
    LocusValue,
>)
    ensures
        property_result(props_option(props), node@, key@, r),
{
    match props {
        None => Err(node_not_found(node)),
        Some(m) => lookup_property(&m, node, key),
    }
}

/// Answers a property spec query from a node's properties.
pub fn answer_property_spec<P: AccessPolicy>(
    policy: &P,
    props: Option<PropertyMap>,
    node: &NodeId,
    key: &PropertyKey,
) -> (r: Result<PropertySpec>)
    ensures
        property_spec_result(*policy, props_option(props), node@, key@, r),
{
    match props {
        None => Err(node_not_found(node)),
        Some(m) => {
            let kind = lookup_kind(&m, node, key)?;
            let access = policy.access(node, key);
            Ok(make_spec(key.duplicate(), kind, access))
        },
    }
}

/// Answers a property listing from a node's properties.
pub fn answer_properties<P: AccessPolicy>(policy: &P, props: Option<PropertyMap>, node: &NodeId) -> (r: Result<
    Vec<PropertySpec>,
>)
    ensures
        properties_result(*policy, props_option(props), node@, r),
{
    match props {
        None => Err(node_not_found(node)),
        Some(m) => {
            let keys = property_keys(&m);
            let ghost ks = keys@.map_values(|k: PropertyKey| k@);
            let ghost pm = property_models(m);
            let mut out: Vec<PropertySpec> = Vec::new();
            let mut i: usize = 0;
            while i < keys.len()
                invariant
                    i <= keys.len(),
                    ks == keys@.map_values(|k: PropertyKey| k@),
                    ks == sorted_keys_of(pm.dom()),
                    strictly_sorted(ks),
                    ks.to_set() == pm.dom(),
                    pm == property_models(m),
                    out@.len() == i,
                    forall|j: int|
                        0 <= j < i ==> (#[trigger] out@[j])@ == spec_with_access(
                            ks[j],
                            model_kind(pm[ks[j]]),
                            policy.access_spec(node@, ks[j]),
                        ),
                decreases keys.len() - i,
            {
                let key = &keys[i];
                assert(ks[i as int] == key@);
                let kind = lookup_kind(&m, node, key);
                assert(ks.to_set().contains(key@));
                let kind = match kind {
                    Ok(k) => k,
                    Err(_) => {
                        assert(false);
                        vstd::pervasive::unreached()
                    },
                };
                let access = policy.access(node, key);
                out.push(make_spec(key.duplicate(), kind, access));
                i += 1;
            }
            assert(spec_views(out@) =~= properties_spec(*policy, pm, node@));
            Ok(out)
        },
    }
}

/// Answers a relation listing from a node's relations.
pub fn answer_relations(rels: Option<RelationMap>, node: &NodeId) -> (r: Result<Vec<RelationName>>)
    ensures
        relations_result(rels_option(rels), node@, r),
{
    match rels {
        None => Err(node_not_found(node)),
        Some(m) => {
            let n = m.len();
            let mut out: Vec<RelationName> = Vec::new();
            let mut i: usize = 0;
            while i < n
                invariant
                    n == m.entries().len(),
                    sorted_by_key(m.entries()),
                    i <= n,
                    out@.len() == i,
                    forall|q: int| 0 <= q < i ==> (#[trigger] out@[q])@ == m.keys()[q],
                decreases n - i,
            {
                let k = m.key_at(i).duplicate();
                assert(m.keys()[i as int] == k@);
                out.push(k);
                i += 1;
            }
            proof {
                lemma_relation_keys_sorted(m);
                assert(out@.map_values(|n: RelationName| n@) =~= m.keys());
                assert(relation_models(m).dom() =~= m.map().dom());
            }
            Ok(out)
        },
    }
}

/// The key texts of a relation map are its keys in increasing order.
pub proof fn lemma_relation_keys_sorted(m: RelationMap)
    requires
        sorted_by_key(m.entries()),
    ensures
        strictly_sorted(m.keys()),
        m.keys().to_set() == m.map().dom(),
        sorted_keys_of(m.map().dom()) == m.keys(),
{
    let s = m.entries();
    let q = m.keys();
    assert forall|i: int, j: int| 0 <= i < j < q.len() implies text_lt(
        #[trigger] q[i],
        #[trigger] q[j],
    ) by {
        assert(q[i] == s[i].0.key_text() && q[j] == s[j].0.key_text());
    }
    assert(q.to_set() =~= m.map().dom()) by {
        assert forall|k: Seq<char>| q.to_set().contains(k) implies m.map().dom().contains(k) by {
            let i = choose|i: int| 0 <= i < q.len() && q[i] == k;
            lemma_entries_map_at(s, i);
        }
        assert forall|k: Seq<char>| m.map().dom().contains(k) implies q.to_set().contains(k) by {
            let i = choose|i: int| 0 <= i < s.len() && #[trigger] s[i].0.key_text() == k;
            assert(q[i] == k);
        }
    }
    lemma_sorted_keys_of(q);
}

/// Copies a run of node ids.
pub fn copy_nodes(v: &Vec<NodeId>) -> (r: Vec<NodeId>)
    ensures
        node_views(r@) == node_views(v@),
{
    let mut out: Vec<NodeId> = Vec::new();
    let mut i: usize = 0;
    while i < v.len()
        invariant
            i <= v.len(),
            out@.len() == i,
            forall|q: int| 0 <= q < i ==> (#[trigger] out@[q])@ == v@[q]@,
        decreases v.len() - i,
    {
        out.push(v[i].duplicate());
        i += 1;
    }
    assert(node_views(out@) =~= node_views(v@));
    out
}

/// Answers a relation target query from a node's relations.
pub fn answer_targets(rels: Option<RelationMap>, node: &NodeId, relation: &RelationName) -> (r: Result<
    Vec<NodeId>,
>)
    ensures
        targets_result(rels_option(rels), node@, relation@, r),
{
    match rels {
        None => Err(node_not_found(node)),
        Some(m) => match m.get(relation.as_str()) {
            Some(targets) => Ok(copy_nodes(targets)),
            None => Err(relation_not_found(node, relation)),
        },
    }
}


/// Node ids in non-decreasing order.
pub open spec fn nodes_sorted(s: Seq<NodeIdView>) -> bool {
    forall|i: int, j: int| 0 <= i < j < s.len() ==> !node_lt(#[trigger] s[j], #[trigger] s[i])
}

/// The order of node ids is a strict total order.
pub proof fn lemma_node_order(a: NodeIdView, b: NodeIdView, c: NodeIdView)
    ensures
        !node_lt(a, a),
        node_lt(a, b) ==> !node_lt(b, a),
        a == b || node_lt(a, b) || node_lt(b, a),
        node_lt(a, b) && node_lt(b, c) ==> node_lt(a, c),
{
    lemma_text_lt_irreflexive(a.kind);
    lemma_text_lt_irreflexive(a.local);
    lemma_text_lt_total(a.kind, b.kind);
    lemma_text_lt_total(a.local, b.local);
    if text_lt(a.kind, b.kind) {
        lemma_text_lt_asymmetric(a.kind, b.kind);
    }
    if text_lt(b.kind, a.kind) {
        lemma_text_lt_asymmetric(b.kind, a.kind);
    }
    if text_lt(a.local, b.local) {
        lemma_text_lt_asymmetric(a.local, b.local);
    }
    if text_lt(b.local, a.local) {
        lemma_text_lt_asymmetric(b.local, a.local);
    }
    if node_lt(a, b) && node_lt(b, c) {
        if text_lt(a.kind, b.kind) && text_lt(b.kind, c.kind) {
            lemma_text_lt_transitive(a.kind, b.kind, c.kind);
        }
        if a.kind == b.kind && b.kind == c.kind {
            lemma_text_lt_transitive(a.local, b.local, c.local);
        }
    }
    if a.kind == b.kind && a.local == b.local {
        assert(a == b);
    }
}

/// Sorts node ids into the order of their derived `Ord` (kind, then local
/// id), keeping duplicates.
pub fn sort_nodes(v: Vec<NodeId>) -> (r: Vec<NodeId>)
    ensures
        node_views(r@).to_multiset() == node_views(v@).to_multiset(),
        nodes_sorted(node_views(r@)),
{
    broadcast use vstd::seq_lib::group_to_multiset_ensures;
    let mut out: Vec<NodeId> = Vec::new();
    let mut i: usize = 0;
    assert(node_views(v@.take(0)) =~= Seq::<NodeIdView>::empty());
    assert(node_views(out@) =~= Seq::<NodeIdView>::empty());
    while i < v.len()
        invariant
            i <= v.len(),
            node_views(out@).to_multiset() == node_views(v@.take(i as int)).to_multiset(),
            nodes_sorted(node_views(out@)),
        decreases v.len() - i,
    {
        let x = &v[i];
        let mut pos: usize = 0;
        while pos < out.len()
            invariant
                pos <= out.len(),
                forall|k: int| 0 <= k < pos ==> !node_lt(x@, #[trigger] node_views(out@)[k]),
            ensures
                pos <= out.len(),
                forall|k: int| 0 <= k < pos ==> !node_lt(x@, #[trigger] node_views(out@)[k]),
                pos < out.len() ==> node_lt(x@, node_views(out@)[pos as int]),
            decreases out.len() - pos,
        {
            if x.compare(&out[pos]) == TextOrder::Less {
                break;
            }
            pos += 1;
        }
        let ghost before = node_views(out@);
        proof {
            assert(pos < out.len() ==> node_lt(x@, before[pos as int]));
        }
        out.insert(pos, x.duplicate());
        proof {
            let after = node_views(out@);
            assert(after =~= before.insert(pos as int, x@));
            assert(v@.take(i + 1) =~= v@.take(i as int).push(v@[i as int]));
            assert(node_views(v@.take(i + 1)) =~= node_views(v@.take(i as int)).push(x@));
            vstd::seq_lib::to_multiset_insert(before, pos as int, x@);
            vstd::seq_lib::to_multiset_build(node_views(v@.take(i as int)), x@);
            assert forall|a: int, b: int| 0 <= a < b < after.len() implies !node_lt(
                #[trigger] after[b],
                #[trigger] after[a],
            ) by {
                if a < pos && b < pos {
                    assert(after[a] == before[a] && after[b] == before[b]);
                } else if a < pos && b == pos {
                    assert(after[a] == before[a]);
                    lemma_node_order(x@, before[a], x@);
                } else if a < pos && b > pos {
                    assert(after[a] == before[a] && after[b] == before[b - 1]);
                    if a < b - 1 {
                        lemma_node_order(before[a], x@, before[b - 1]);
                        lemma_node_order(before[b - 1], before[a], x@);
                        lemma_node_order(before[a], before[b - 1], x@);
                    }
                } else if a == pos {
                    assert(after[b] == before[b - 1]);
                    assert(node_lt(x@, before[pos as int]));
                    if b - 1 > pos {
                        assert(!node_lt(before[b - 1], before[pos as int]));
                        lemma_node_order(before[b - 1], x@, before[pos as int]);
                        lemma_node_order(x@, before[pos as int], before[b - 1]);
                        lemma_node_order(before[b - 1], before[pos as int], x@);
                    } else {
                        lemma_node_order(x@, before[pos as int], x@);
                    }
                } else {
                    assert(after[a] == before[a - 1] && after[b] == before[b - 1]);
                }
            }
        }
        i += 1;
    }
    assert(v@.take(v.len() as int) =~= v@);
    out
}

/// Whether every text of a run is a valid node local id.
pub open spec fn all_valid(ids: Seq<Seq<char>>) -> bool {
    forall|i: int| 0 <= i < ids.len() ==> valid_identifier(IdentifierClass::NodeLocalId, #[trigger] ids[i])
}

/// The error for some text of a run that is not a valid node local id.
pub open spec fn some_invalid_error(ids: Seq<Seq<char>>, e: GraphError) -> bool {
    exists|i: int|
        0 <= i < ids.len() && !valid_identifier(IdentifierClass::NodeLocalId, #[trigger] ids[i])
            && identifier_error(IdentifierClass::NodeLocalId, ids[i], e)
}

/// An invalid text within a run is an invalid text of a longer run.
pub proof fn lemma_invalid_within(a: Seq<Seq<char>>, b: Seq<Seq<char>>, c: Seq<Seq<char>>, e: GraphError)
    requires
        some_invalid_error(b, e),
    ensures
        some_invalid_error(a + b + c, e),
{
    let i = choose|i: int|
        0 <= i < b.len() && !valid_identifier(IdentifierClass::NodeLocalId, #[trigger] b[i])
            && identifier_error(IdentifierClass::NodeLocalId, b[i], e);
    assert((a + b + c)[a.len() + i] == b[i]);
}

/// A run is valid exactly when both its parts are.
pub proof fn lemma_valid_concat(a: Seq<Seq<char>>, b: Seq<Seq<char>>)
    ensures
        all_valid(a + b) <==> all_valid(a) && all_valid(b),
{
    if all_valid(a + b) {
        assert forall|i: int| 0 <= i < a.len() implies valid_identifier(
            IdentifierClass::NodeLocalId,
            #[trigger] a[i],
        ) by {
            assert((a + b)[i] == a[i]);
        }
        assert forall|i: int| 0 <= i < b.len() implies valid_identifier(
            IdentifierClass::NodeLocalId,
            #[trigger] b[i],
        ) by {
            assert((a + b)[a.len() + i] == b[i]);
        }
    }
    if all_valid(a) && all_valid(b) {
        assert forall|i: int| 0 <= i < (a + b).len() implies valid_identifier(
            IdentifierClass::NodeLocalId,
            #[trigger] (a + b)[i],
        ) by {
            if i < a.len() {
                assert((a + b)[i] == a[i]);
            } else {
                assert((a + b)[i] == b[i - a.len()]);
            }
        }
    }
}


/// Whether every text of a run is a valid property key.
pub open spec fn all_keys_valid(keys: Seq<Seq<char>>) -> bool {
    forall|i: int| 0 <= i < keys.len() ==> valid_identifier(IdentifierClass::PropertyKey, #[trigger] keys[i])
}

/// The error for some text of a run that is not a valid property key.
pub open spec fn some_invalid_key_error(keys: Seq<Seq<char>>, e: GraphError) -> bool {
    exists|i: int|
        0 <= i < keys.len() && !valid_identifier(IdentifierClass::PropertyKey, #[trigger] keys[i])
            && identifier_error(IdentifierClass::PropertyKey, keys[i], e)
}

/// An invalid key within a run is an invalid key of a longer run.
pub proof fn lemma_invalid_key_within(
    a: Seq<Seq<char>>,
    b: Seq<Seq<char>>,
    c: Seq<Seq<char>>,
    e: GraphError,
)
    requires
        some_invalid_key_error(b, e),
    ensures
        some_invalid_key_error(a + b + c, e),
{
    let i = choose|i: int|
        0 <= i < b.len() && !valid_identifier(IdentifierClass::PropertyKey, #[trigger] b[i])
            && identifier_error(IdentifierClass::PropertyKey, b[i], e);
    assert((a + b + c)[a.len() + i] == b[i]);
}

/// A run of keys is valid exactly when both its parts are.
pub proof fn lemma_keys_valid_concat(a: Seq<Seq<char>>, b: Seq<Seq<char>>)
    ensures
        all_keys_valid(a + b) <==> all_keys_valid(a) && all_keys_valid(b),
{
    if all_keys_valid(a + b) {
        assert forall|i: int| 0 <= i < a.len() implies valid_identifier(
            IdentifierClass::PropertyKey,
            #[trigger] a[i],
        ) by {
            assert((a + b)[i] == a[i]);
        }
        assert forall|i: int| 0 <= i < b.len() implies valid_identifier(
            IdentifierClass::PropertyKey,
            #[trigger] b[i],
        ) by {
            assert((a + b)[a.len() + i] == b[i]);
        }
    }
    if all_keys_valid(a) && all_keys_valid(b) {
        assert forall|i: int| 0 <= i < (a + b).len() implies valid_identifier(
            IdentifierClass::PropertyKey,
            #[trigger] (a + b)[i],
        ) by {
            if i < a.len() {
                assert((a + b)[i] == a[i]);
            } else {
                assert((a + b)[i] == b[i - a.len()]);
            }
        }
    }
}

/// Texts concatenated run after run.
pub open spec fn concat_all<T>(parts: Seq<Seq<T>>) -> Seq<T>
    decreases parts.len(),
{
    if parts.len() == 0 {
        Seq::empty()
    } else {
        concat_all(parts.drop_last()) + parts.last()
    }
}

pub proof fn lemma_concat_all_append<T>(a: Seq<Seq<T>>, b: Seq<Seq<T>>)
    ensures
        concat_all(a + b) == concat_all(a) + concat_all(b),
    decreases b.len(),
{
    if b.len() == 0 {
        assert(a + b =~= a);
        assert(concat_all(a) + concat_all(b) =~= concat_all(a));
    } else {
        lemma_concat_all_append(a, b.drop_last());
        assert((a + b).drop_last() =~= a + b.drop_last());
        assert((a + b).last() == b.last());
        assert(concat_all(a + b) =~= concat_all(a) + concat_all(b));
    }
}

/// The run at index `i` lies within the concatenation, after the runs
/// before it.
pub proof fn lemma_concat_all_split<T>(parts: Seq<Seq<T>>, i: int)
    requires
        0 <= i < parts.len(),
    ensures
        concat_all(parts) == concat_all(parts.take(i)) + parts[i] + concat_all(parts.skip(i + 1)),
        concat_all(parts.take(i + 1)) == concat_all(parts.take(i)) + parts[i],
{
    assert(parts =~= parts.take(i + 1) + parts.skip(i + 1));
    lemma_concat_all_append(parts.take(i + 1), parts.skip(i + 1));
    assert(parts.take(i + 1).drop_last() =~= parts.take(i));
}

/// The node ids of one kind with the given local ids.
pub open spec fn nodes_of_kind(kind: Seq<char>, ids: Seq<Seq<char>>) -> Seq<NodeIdView> {
    ids.map_values(|l: Seq<char>| NodeIdView { kind, local: l })
}

/// Pushes the node of kind `kind` with local id `local`.
pub fn push_node(out: &mut Vec<NodeId>, kind: &str, local: &str) -> (r: Result<()>)
    requires
        valid_identifier(IdentifierClass::NodeKind, kind@),
    ensures
        r is Ok <==> valid_identifier(IdentifierClass::NodeLocalId, local@),
        r is Ok ==> node_views(final(out)@) == node_views(old(out)@).push(
            NodeIdView { kind: kind@, local: local@ },
        ),
        r matches Err(e) ==> identifier_error(IdentifierClass::NodeLocalId, local@, e),
{
    match NodeId::new(known_kind(kind), local) {
        Ok(node) => {
            proof {
                lemma_node_views_push(out@, node);
            }
            out.push(node);
            Ok(())
        },
        Err(e) => Err(e),
    }
}

/// A finite set of texts has a least element.
proof fn lemma_least_text(s: Set<Seq<char>>) -> (m: Seq<char>)
    requires
        s.finite(),
        s.len() > 0,
    ensures
        s.contains(m),
        forall|x: Seq<char>| #[trigger] s.contains(x) && x != m ==> text_lt(m, x),
    decreases s.len(),
{
    let a = s.choose();
    let rest = s.remove(a);
    if rest.len() == 0 {
        assert forall|x: Seq<char>| #[trigger] s.contains(x) && x != a implies text_lt(a, x) by {
            assert(rest.contains(x));
        }
        a
    } else {
        let m0 = lemma_least_text(rest);
        lemma_text_lt_total(a, m0);
        if text_lt(a, m0) {
            assert forall|x: Seq<char>| #[trigger] s.contains(x) && x != a implies text_lt(a, x) by {
                assert(rest.contains(x));
                if x != m0 {
                    lemma_text_lt_transitive(a, m0, x);
                }
            }
            a
        } else {
            m0
        }
    }
}

/// A finite set of texts can be listed in increasing order.
proof fn lemma_sorted_listing(s: Set<Seq<char>>) -> (q: Seq<Seq<char>>)
    requires
        s.finite(),
    ensures
        strictly_sorted(q),
        q.to_set() == s,
    decreases s.len(),
{
    if s.len() == 0 {
        assert(s =~= Set::<Seq<char>>::empty());
        let q = Seq::<Seq<char>>::empty();
        assert(q.to_set() =~= s);
        q
    } else {
        let m = lemma_least_text(s);
        let rest = s.remove(m);
        let tail = lemma_sorted_listing(rest);
        let q = seq![m] + tail;
        assert forall|i: int, j: int| 0 <= i < j < q.len() implies text_lt(#[trigger] q[i], #[trigger] q[j]) by {
            if i == 0 {
                assert(q[j] == tail[j - 1]);
                assert(tail.to_set().contains(tail[j - 1]));
            } else {
                assert(q[i] == tail[i - 1] && q[j] == tail[j - 1]);
            }
        }
        assert forall|x: Seq<char>| #[trigger] q.to_set().contains(x) == s.contains(x) by {
            if s.contains(x) && x != m {
                assert(tail.to_set().contains(x));
                let k = choose|k: int| 0 <= k < tail.len() && tail[k] == x;
                assert(q[k + 1] == x);
            }
            if q.to_set().contains(x) {
                let k = choose|k: int| 0 <= k < q.len() && q[k] == x;
                if k > 0 {
                    assert(tail[k - 1] == x);
                    assert(tail.to_set().contains(x));
                }
            }
            if x == m {
                assert(q[0] == m);
            }
        }
        assert(q.to_set() =~= s);
        q
    }
}

/// The sorted key list of a finite set is increasing and holds exactly its
/// elements.
pub proof fn lemma_sorted_keys_exist(s: Set<Seq<char>>)
    requires
        s.finite(),
    ensures
        strictly_sorted(sorted_keys_of(s)),
        sorted_keys_of(s).to_set() == s,
{
    let q = lemma_sorted_listing(s);
    assert(strictly_sorted(q) && q.to_set() == s);
}

/// A listing of a node's properties agrees with the queries of single
/// properties: its keys increase; each listed spec is what a spec query on
/// its key answers, and the value of that key has the listed kind; a key
/// whose value can be read is listed; and where the listing finds no node,
/// neither query finds it.
pub open spec fn listing_agrees(
    node: NodeIdView,
    key: Seq<char>,
    listed: Result<Vec<PropertySpec>>,
    spec_r: Result<PropertySpec>,
    value_r: Result<LocusValue>,
) -> bool {
    &&& listed matches Ok(specs) ==> strictly_sorted(
        spec_views(specs@).map_values(|p: PropertySpecView| p.key),
    )
    &&& listed matches Ok(specs) ==> ((exists|i: int| 0 <= i < specs@.len() && (#[trigger] specs@[i])@.key == key)
        <==> value_r is Ok)
    &&& listed matches Ok(specs) ==> forall|i: int|
        0 <= i < specs@.len() && (#[trigger] specs@[i])@.key == key ==> ((spec_r matches Ok(sp)
            && sp@ == specs@[i]@) && (value_r matches Ok(v) && model_kind(v@) == specs@[i]@.kind))
    &&& listed matches Err(e) ==> is_not_found(e, "node"@, node_id_text(node)) && (spec_r matches Err(
        e1,
    ) && is_not_found(e1, "node"@, node_id_text(node))) && (value_r matches Err(e2) && is_not_found(
        e2,
        "node"@,
        node_id_text(node),
    ))
}

/// The answers of a provider that projects a finite property map agree:
/// see `listing_agrees`.
pub proof fn lemma_listing_agrees_with_queries<Pol: AccessPolicy>(
    policy: Pol,
    props: Option<Map<Seq<char>, ValueModel>>,
    node: NodeIdView,
    key: Seq<char>,
    listed: Result<Vec<PropertySpec>>,
    spec_r: Result<PropertySpec>,
    value_r: Result<LocusValue>,
)
    requires
        props matches Some(m) ==> m.dom().finite(),
        properties_result(policy, props, node, listed),
        property_spec_result(policy, props, node, key, spec_r),
        property_result(props, node, key, value_r),
    ensures
        listing_agrees(node, key, listed, spec_r, value_r),
{
    match props {
        None => {},
        Some(m) => {
            lemma_sorted_keys_exist(m.dom());
            let ks = sorted_keys_of(m.dom());
            let specs = listed->Ok_0;
            assert(spec_views(specs@) == properties_spec(policy, m, node));
            assert(spec_views(specs@).map_values(|p: PropertySpecView| p.key) =~= ks);
            assert forall|i: int| 0 <= i < specs@.len() implies (#[trigger] specs@[i])@ == spec_with_access(
                ks[i],
                model_kind(m[ks[i]]),
                policy.access_spec(node, ks[i]),
            ) by {
                assert(spec_views(specs@)[i] == specs@[i]@);
            }
            if m.contains_key(key) {
                assert(ks.to_set().contains(key));
                let i = choose|i: int| 0 <= i < ks.len() && ks[i] == key;
                assert(specs@[i]@.key == key);
            } else {
                assert forall|i: int| 0 <= i < specs@.len() implies (#[trigger] specs@[i])@.key != key by {
                    assert(ks.to_set().contains(ks[i]));
                }
            }
        },
    }
}

} // verus!
