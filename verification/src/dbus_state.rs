//! D-Bus services projected into the graph: a `dbus` node per bus that
//! configured services live on, a `dbus-object` node per object a service
//! exports and a `dbus-method` node per method, whose `call` property is
//! written to call it. Under each bus node the objects form a tree of
//! directories that follows their full object paths.
use vstd::prelude::*;

use crate::change::{change_models, lemma_change_models_push, ChangeModel, GraphChange};
use crate::error::{is_invalid_value, is_not_found, GraphError, Result};
use crate::identity::{identifier_error, node_id_text, valid_identifier, IdentifierClass, NodeId, NodeIdView, NodeKind, PathName, PropertyKey, RelationName};
use crate::path::{ChildModel, DirectoryModel, EntryModel, GraphPathChild, GraphPathDirectory, GraphPathEntry, GraphWatchTarget, WatchModel};
use crate::projection::{all_keys_valid, all_valid, answer_properties, answer_property, answer_property_spec, answer_relations, answer_targets, changed_keys, changed_keys_spec, concat_all, entry_name, entry_text, known_key, known_kind, known_node, lemma_concat_all_split, lemma_invalid_key_within, lemma_invalid_within, lemma_keys_valid_concat, lemma_map_keys_sorted, lemma_valid_concat, node_not_found, node_views, nodes_of_kind, nodes_sorted, properties_result, property_models, lemma_listing_agrees_with_queries, lemma_sorted_keys_exist, listing_agrees, property_result, property_spec_result, props_option, push_node, put, relation_models, relations_result, rels_option, some_invalid_error, some_invalid_key_error, sort_nodes, sorted_keys_of, targets_result, Access, AccessPolicy, PropertyMap, RelationMap};
use crate::text::{first_index_of, concat2, concat3, ends_with, has_suffix, text_from_range, has_prefix, join_spec, join_texts, texts_of, owned, rsplit_once_char, rsplit_once_spec, split_once_char, split_once_spec, starts_with, strip_prefix, strip_trailing, text_eq, trim_end_matches_char, ascii_lower, to_ascii_lowercase, chars_of, push_char};
use crate::text_map::{lemma_entries_map_at, sorted_by_key, TextKey, TextMap};
use crate::value::{LocusValue, PropertySpec, ValueModel};

verus! {

pub const DBUS_SERVICE_KIND: &'static str = "dbus";

pub const DBUS_OBJECT_KIND: &'static str = "dbus-object";

pub const DBUS_METHOD_KIND: &'static str = "dbus-method";

const SOURCE: &'static str = "dbus";

/// The D-Bus plugin.
#[derive(Debug, Default)]
pub struct DbusPlugin;

/// The watcher of the configured services.
#[derive(Debug, Default)]
pub struct DbusRuntime;

/// The bus a service lives on.
#[derive(Clone, Copy, Debug, PartialEq, Eq, Structural)]
pub enum BusKind {
    System,
    Session,
}

pub open spec fn bus_text(b: BusKind) -> Seq<char> {
    match b {
        BusKind::System => "system"@,
        BusKind::Session => "session"@,
    }
}

impl BusKind {
    pub fn as_str(self) -> (r: &'static str)
        ensures
            r@ == bus_text(self),
    {
        match self {
            BusKind::System => "system",
            BusKind::Session => "session",
        }
    }
}

/// A configured service: its local id, bus, bus name and the path of its
/// object manager.
#[derive(Debug)]
pub struct ServiceConfig {
    pub local_id: String,
    pub bus: BusKind,
    pub name: String,
    pub object_manager_path: String,
}

/// A property of an object, with whether it can be written.
#[derive(Debug)]
pub struct DbusPropertySnapshot {
    pub value: LocusValue,
    pub writable: bool,
}

/// A method of an object, with the signatures of its arguments.
#[derive(Debug)]
pub struct DbusMethodSnapshot {
    pub input_signature: Vec<String>,
}

/// An object: its path, the properties of each interface and the methods
/// of each interface.
pub struct ObjectSnapshot {
    pub service_local_id: String,
    pub path: String,
    pub interfaces: TextMap<String, TextMap<String, DbusPropertySnapshot>>,
    pub methods: TextMap<String, TextMap<String, DbusMethodSnapshot>>,
}

/// A service with its owner, when it runs, and its objects by path.
pub struct ServiceSnapshot {
    pub config: ServiceConfig,
    pub owner: Option<String>,
    pub objects: TextMap<String, ObjectSnapshot>,
}

/// A writable property, resolved to the object and interface it lives on.
pub struct DbusWritableProperty {
    pub service: ServiceConfig,
    pub object_path: String,
    pub interface: String,
    pub property: String,
    pub current: LocusValue,
}

/// A callable method, resolved to the object and interface it lives on.
pub struct DbusCallableMethod {
    pub service: ServiceConfig,
    pub object_path: String,
    pub interface: String,
    pub method: String,
    pub input_signature: Vec<String>,
}

/// The D-Bus part of the graph.
pub struct DbusState {
    services: TextMap<String, ServiceSnapshot>,
}

impl ServiceConfig {
    pub fn duplicate(&self) -> (r: ServiceConfig)
        ensures
            r@ == self@,
    {
        ServiceConfig {
            local_id: self.local_id.clone(),
            bus: self.bus,
            name: self.name.clone(),
            object_manager_path: self.object_manager_path.clone(),
        }
    }
}

pub struct ServiceConfigView {
    pub local_id: Seq<char>,
    pub bus: BusKind,
    pub name: Seq<char>,
    pub object_manager_path: Seq<char>,
}

impl View for ServiceConfig {
    type V = ServiceConfigView;

    open spec fn view(&self) -> ServiceConfigView {
        ServiceConfigView {
            local_id: self.local_id@,
            bus: self.bus,
            name: self.name@,
            object_manager_path: self.object_manager_path@,
        }
    }
}

pub struct DbusPropertyView {
    pub value: ValueModel,
    pub writable: bool,
}

impl View for DbusPropertySnapshot {
    type V = DbusPropertyView;

    open spec fn view(&self) -> DbusPropertyView {
        DbusPropertyView { value: self.value@, writable: self.writable }
    }
}

impl View for DbusMethodSnapshot {
    type V = Seq<Seq<char>>;

    open spec fn view(&self) -> Seq<Seq<char>> {
        texts_of(self.input_signature@)
    }
}

pub open spec fn props_view(m: TextMap<String, DbusPropertySnapshot>) -> Map<Seq<char>, DbusPropertyView> {
    m.map().map_values(|p: DbusPropertySnapshot| p@)
}

pub open spec fn methods_view(m: TextMap<String, DbusMethodSnapshot>) -> Map<Seq<char>, Seq<Seq<char>>> {
    m.map().map_values(|p: DbusMethodSnapshot| p@)
}

pub open spec fn interfaces_view(m: TextMap<String, TextMap<String, DbusPropertySnapshot>>) -> Map<
    Seq<char>,
    Map<Seq<char>, DbusPropertyView>,
> {
    m.map().map_values(|t: TextMap<String, DbusPropertySnapshot>| props_view(t))
}

pub open spec fn method_ifaces_view(m: TextMap<String, TextMap<String, DbusMethodSnapshot>>) -> Map<
    Seq<char>,
    Map<Seq<char>, Seq<Seq<char>>>,
> {
    m.map().map_values(|t: TextMap<String, DbusMethodSnapshot>| methods_view(t))
}

pub struct ObjectView {
    pub service_local_id: Seq<char>,
    pub path: Seq<char>,
    pub interfaces: Map<Seq<char>, Map<Seq<char>, DbusPropertyView>>,
    pub methods: Map<Seq<char>, Map<Seq<char>, Seq<Seq<char>>>>,
}

impl View for ObjectSnapshot {
    type V = ObjectView;

    open spec fn view(&self) -> ObjectView {
        ObjectView {
            service_local_id: self.service_local_id@,
            path: self.path@,
            interfaces: interfaces_view(self.interfaces),
            methods: method_ifaces_view(self.methods),
        }
    }
}

pub open spec fn objects_view(m: TextMap<String, ObjectSnapshot>) -> Map<Seq<char>, ObjectView> {
    m.map().map_values(|o: ObjectSnapshot| o@)
}

pub struct ServiceView {
    pub config: ServiceConfigView,
    pub owner: Option<Seq<char>>,
    pub objects: Map<Seq<char>, ObjectView>,
}

pub open spec fn owner_view(o: Option<String>) -> Option<Seq<char>> {
    match o {
        Some(s) => Some(s@),
        None => None,
    }
}

impl View for ServiceSnapshot {
    type V = ServiceView;

    open spec fn view(&self) -> ServiceView {
        ServiceView {
            config: self.config@,
            owner: owner_view(self.owner),
            objects: objects_view(self.objects),
        }
    }
}

/// The services, by local id.
pub closed spec fn services_of(s: DbusState) -> Map<Seq<char>, ServiceView> {
    services_view(s.services)
}

pub open spec fn services_view(m: TextMap<String, ServiceSnapshot>) -> Map<Seq<char>, ServiceView> {
    m.map().map_values(|v: ServiceSnapshot| v@)
}

/// The keys of a map, in increasing order.
pub open spec fn keys_of<V>(m: Map<Seq<char>, V>) -> Seq<Seq<char>> {
    sorted_keys_of(m.dom())
}

/// The names the plugin uses are distinct and valid.
proof fn lemma_dbus_names()
    ensures
        "dbus"@ != "dbus-object"@,
        "dbus"@ != "dbus-method"@,
        "dbus-object"@ != "dbus-method"@,
        valid_identifier(IdentifierClass::NodeKind, "dbus"@),
        valid_identifier(IdentifierClass::NodeKind, "dbus-object"@),
        valid_identifier(IdentifierClass::NodeKind, "dbus-method"@),
        "call"@.len() == 4,
        valid_identifier(IdentifierClass::NodeLocalId, "system"@),
        valid_identifier(IdentifierClass::NodeLocalId, "session"@),
        "system"@ != "session"@,
{
    reveal_strlit("dbus");
    reveal_strlit("dbus-object");
    reveal_strlit("dbus-method");
    reveal_strlit("call");
    assert("dbus"@.len() == 4);
    assert("dbus-object"@.len() == 11);
    assert("dbus-method"@.len() == 11);
    assert("dbus-object"@[5] != "dbus-method"@[5]);
    reveal_strlit("system");
    reveal_strlit("session");
    assert("system"@.len() == 6);
    assert("session"@.len() == 7);
}

/// `<service local id>:<path>`.
pub open spec fn object_local_id_spec(service_local_id: Seq<char>, path: Seq<char>) -> Seq<char> {
    service_local_id + ":"@ + path
}

/// The local id of an object: its service and its full path, wherever
/// the service's object manager lives (`manager`).
pub open spec fn object_local(manager: Seq<char>, o: ObjectView) -> Seq<char> {
    object_local_id_spec(o.service_local_id, o.path)
}

/// How many of the interfaces `ifaces` have a member `name`.
pub open spec fn count_having<V>(ifaces: Seq<Seq<char>>, m: Map<Seq<char>, Map<Seq<char>, V>>, name: Seq<char>) -> nat
    decreases ifaces.len(),
{
    if ifaces.len() == 0 {
        0
    } else {
        count_having(ifaces.drop_last(), m, name) + if m[ifaces.last()].contains_key(name) {
            1nat
        } else {
            0nat
        }
    }
}

/// The name a method shows: the bare name when one interface alone has
/// it, else `<interface>.<method>`.
pub open spec fn method_display_spec(o: ObjectView, iface: Seq<char>, method: Seq<char>) -> Seq<char> {
    if count_having(keys_of(o.methods), o.methods, method) == 1 {
        method
    } else {
        iface + "."@ + method
    }
}

/// The local id of a method node.
pub open spec fn method_local(manager: Seq<char>, o: ObjectView, iface: Seq<char>, method: Seq<char>) -> Seq<char> {
    object_local(manager, o) + ":"@ + method_display_spec(o, iface, method)
}

pub open spec fn service_view(local: Seq<char>) -> NodeIdView {
    NodeIdView { kind: "dbus"@, local }
}

pub open spec fn object_view(local: Seq<char>) -> NodeIdView {
    NodeIdView { kind: "dbus-object"@, local }
}

pub open spec fn method_view(local: Seq<char>) -> NodeIdView {
    NodeIdView { kind: "dbus-method"@, local }
}

/// `<service local id>:<path>`.
fn object_local_id(service_local_id: &str, path: &str) -> (r: String)
    ensures
        r@ == object_local_id_spec(service_local_id@, path@),
{
    concat3(service_local_id, ":", path)
}

proof fn lemma_services_keys(m: TextMap<String, ServiceSnapshot>)
    requires
        sorted_by_key(m.entries()),
    ensures
        keys_of(services_view(m)) == m.keys(),
        m.keys().len() == m.entries().len(),
        forall|k: Seq<char>| #[trigger] services_view(m).contains_key(k) == m.map().contains_key(k),
        forall|i: int|
            0 <= i < m.keys().len() ==> #[trigger] services_view(m).contains_key(m.keys()[i]) && services_view(m)[m.keys()[i]]
                == view_service(m.entries()[i].1) && m.keys()[i] == m.entries()[i].0@,
{
    lemma_map_keys_sorted(m);
    assert(services_view(m).dom() =~= m.map().dom());
    assert forall|i: int| 0 <= i < m.keys().len() implies #[trigger] services_view(m).contains_key(m.keys()[i])
        && services_view(m)[m.keys()[i]] == view_service(m.entries()[i].1) && m.keys()[i] == m.entries()[i].0@ by {
        lemma_entries_map_at(m.entries(), i);
        assert(m.keys()[i] == m.entries()[i].0.key_text());
        assert(m.map().contains_key(m.keys()[i]));
        assert(services_view(m).contains_key(m.keys()[i]));
    }
}

proof fn lemma_objects_keys(m: TextMap<String, ObjectSnapshot>)
    requires
        sorted_by_key(m.entries()),
    ensures
        keys_of(objects_view(m)) == m.keys(),
        m.keys().len() == m.entries().len(),
        forall|k: Seq<char>| #[trigger] objects_view(m).contains_key(k) == m.map().contains_key(k),
        forall|i: int|
            0 <= i < m.keys().len() ==> #[trigger] objects_view(m).contains_key(m.keys()[i]) && objects_view(m)[m.keys()[i]]
                == view_object(m.entries()[i].1) && m.keys()[i] == m.entries()[i].0@,
{
    lemma_map_keys_sorted(m);
    assert(objects_view(m).dom() =~= m.map().dom());
    assert forall|i: int| 0 <= i < m.keys().len() implies #[trigger] objects_view(m).contains_key(m.keys()[i])
        && objects_view(m)[m.keys()[i]] == view_object(m.entries()[i].1) && m.keys()[i] == m.entries()[i].0@ by {
        lemma_entries_map_at(m.entries(), i);
        assert(m.keys()[i] == m.entries()[i].0.key_text());
        assert(m.map().contains_key(m.keys()[i]));
        assert(objects_view(m).contains_key(m.keys()[i]));
    }
}

proof fn lemma_ifaces_keys(m: TextMap<String, TextMap<String, DbusPropertySnapshot>>)
    requires
        sorted_by_key(m.entries()),
    ensures
        keys_of(interfaces_view(m)) == m.keys(),
        m.keys().len() == m.entries().len(),
        forall|k: Seq<char>| #[trigger] interfaces_view(m).contains_key(k) == m.map().contains_key(k),
        forall|i: int|
            0 <= i < m.keys().len() ==> #[trigger] interfaces_view(m).contains_key(m.keys()[i]) && interfaces_view(m)[m.keys()[i]]
                == props_view(m.entries()[i].1) && m.keys()[i] == m.entries()[i].0@,
{
    lemma_map_keys_sorted(m);
    assert(interfaces_view(m).dom() =~= m.map().dom());
    assert forall|i: int| 0 <= i < m.keys().len() implies #[trigger] interfaces_view(m).contains_key(m.keys()[i])
        && interfaces_view(m)[m.keys()[i]] == props_view(m.entries()[i].1) && m.keys()[i] == m.entries()[i].0@ by {
        lemma_entries_map_at(m.entries(), i);
        assert(m.keys()[i] == m.entries()[i].0.key_text());
        assert(m.map().contains_key(m.keys()[i]));
        assert(interfaces_view(m).contains_key(m.keys()[i]));
    }
}

proof fn lemma_method_ifaces_keys(m: TextMap<String, TextMap<String, DbusMethodSnapshot>>)
    requires
        sorted_by_key(m.entries()),
    ensures
        keys_of(method_ifaces_view(m)) == m.keys(),
        m.keys().len() == m.entries().len(),
        forall|k: Seq<char>| #[trigger] method_ifaces_view(m).contains_key(k) == m.map().contains_key(k),
        forall|i: int|
            0 <= i < m.keys().len() ==> #[trigger] method_ifaces_view(m).contains_key(m.keys()[i]) && method_ifaces_view(m)[m.keys()[i]]
                == methods_view(m.entries()[i].1) && m.keys()[i] == m.entries()[i].0@,
{
    lemma_map_keys_sorted(m);
    assert(method_ifaces_view(m).dom() =~= m.map().dom());
    assert forall|i: int| 0 <= i < m.keys().len() implies #[trigger] method_ifaces_view(m).contains_key(m.keys()[i])
        && method_ifaces_view(m)[m.keys()[i]] == methods_view(m.entries()[i].1) && m.keys()[i] == m.entries()[i].0@ by {
        lemma_entries_map_at(m.entries(), i);
        assert(m.keys()[i] == m.entries()[i].0.key_text());
        assert(m.map().contains_key(m.keys()[i]));
        assert(method_ifaces_view(m).contains_key(m.keys()[i]));
    }
}

proof fn lemma_props_keys(m: TextMap<String, DbusPropertySnapshot>)
    requires
        sorted_by_key(m.entries()),
    ensures
        keys_of(props_view(m)) == m.keys(),
        m.keys().len() == m.entries().len(),
        forall|k: Seq<char>| #[trigger] props_view(m).contains_key(k) == m.map().contains_key(k),
        forall|i: int|
            0 <= i < m.keys().len() ==> #[trigger] props_view(m).contains_key(m.keys()[i]) && props_view(m)[m.keys()[i]]
                == view_property(m.entries()[i].1) && m.keys()[i] == m.entries()[i].0@,
{
    lemma_map_keys_sorted(m);
    assert(props_view(m).dom() =~= m.map().dom());
    assert forall|i: int| 0 <= i < m.keys().len() implies #[trigger] props_view(m).contains_key(m.keys()[i])
        && props_view(m)[m.keys()[i]] == view_property(m.entries()[i].1) && m.keys()[i] == m.entries()[i].0@ by {
        lemma_entries_map_at(m.entries(), i);
        assert(m.keys()[i] == m.entries()[i].0.key_text());
        assert(m.map().contains_key(m.keys()[i]));
        assert(props_view(m).contains_key(m.keys()[i]));
    }
}

proof fn lemma_methods_keys(m: TextMap<String, DbusMethodSnapshot>)
    requires
        sorted_by_key(m.entries()),
    ensures
        keys_of(methods_view(m)) == m.keys(),
        m.keys().len() == m.entries().len(),
        forall|k: Seq<char>| #[trigger] methods_view(m).contains_key(k) == m.map().contains_key(k),
        forall|i: int|
            0 <= i < m.keys().len() ==> #[trigger] methods_view(m).contains_key(m.keys()[i]) && methods_view(m)[m.keys()[i]]
                == view_method(m.entries()[i].1) && m.keys()[i] == m.entries()[i].0@,
{
    lemma_map_keys_sorted(m);
    assert(methods_view(m).dom() =~= m.map().dom());
    assert forall|i: int| 0 <= i < m.keys().len() implies #[trigger] methods_view(m).contains_key(m.keys()[i])
        && methods_view(m)[m.keys()[i]] == view_method(m.entries()[i].1) && m.keys()[i] == m.entries()[i].0@ by {
        lemma_entries_map_at(m.entries(), i);
        assert(m.keys()[i] == m.entries()[i].0.key_text());
        assert(m.map().contains_key(m.keys()[i]));
        assert(methods_view(m).contains_key(m.keys()[i]));
    }
}

pub open spec fn view_service(v: ServiceSnapshot) -> ServiceView {
    v@
}

pub open spec fn view_object(v: ObjectSnapshot) -> ObjectView {
    v@
}

pub open spec fn view_property(v: DbusPropertySnapshot) -> DbusPropertyView {
    v@
}

pub open spec fn view_method(v: DbusMethodSnapshot) -> Seq<Seq<char>> {
    v@
}

/// How many interfaces of an object have a method `method`.
fn count_method_interfaces(object: &ObjectSnapshot, method: &str) -> (r: usize)
    ensures
        r == count_having(keys_of(object@.methods), object@.methods, method@),
{
    let n = object.methods.len();
    let ghost ks = object.methods.keys();
    let ghost om = object@.methods;
    proof {
        lemma_method_ifaces_keys(object.methods);
    }
    let mut count: usize = 0;
    let mut i: usize = 0;
    assert(ks.take(0) =~= Seq::<Seq<char>>::empty());
    while i < n
        invariant
            n == ks.len(),
            n == object.methods.entries().len(),
            ks == object.methods.keys(),
            om == object@.methods,
            keys_of(om) == ks,
            forall|j: int|
                0 <= j < ks.len() ==> #[trigger] om.contains_key(ks[j]) && om[ks[j]] == methods_view(
                    object.methods.entries()[j].1,
                ),
            i <= n,
            count <= i,
            count == count_having(ks.take(i as int), om, method@),
        decreases n - i,
    {
        let table = object.methods.value_at(i);
        assert(om.contains_key(ks[i as int]));
        assert(ks.take(i + 1).drop_last() =~= ks.take(i as int));
        let has = table.contains_key(method);
        assert(has == om[ks[i as int]].contains_key(method@));
        if has {
            count += 1;
        }
        i += 1;
    }
    assert(ks.take(n as int) =~= ks);
    count
}

/// The name a method shows in its node's local id.
fn method_display_name(object: &ObjectSnapshot, interface: &str, method: &str) -> (r: String)
    ensures
        r@ == method_display_spec(object@, interface@, method@),
{
    if count_method_interfaces(object, method) == 1 {
        owned(method)
    } else {
        concat3(interface, ".", method)
    }
}

/// The node of a service.
pub fn service_node(local_id: &str) -> (r: Result<NodeId>)
    ensures
        r is Ok <==> valid_identifier(IdentifierClass::NodeLocalId, local_id@),
        r matches Ok(n) ==> n@ == service_view(local_id@),
        r matches Err(e) ==> identifier_error(IdentifierClass::NodeLocalId, local_id@, e),
{
    proof {
        lemma_dbus_names();
    }
    NodeId::new(known_kind(DBUS_SERVICE_KIND), local_id)
}

/// The local id of an object of a service.
fn object_node_local(service: &ServiceSnapshot, object: &ObjectSnapshot) -> (r: String)
    ensures
        r@ == object_local(service@.config.object_manager_path, object@),
{
    object_local_id(object.service_local_id.as_str(), object.path.as_str())
}

/// The local id of a method of an object.
fn method_node_local(
    service: &ServiceSnapshot,
    object: &ObjectSnapshot,
    interface: &str,
    method: &str,
) -> (r: String)
    ensures
        r@ == method_local(service@.config.object_manager_path, object@, interface@, method@),
{
    let object_local_text = object_node_local(service, object);
    let display = method_display_name(object, interface, method);
    concat3(object_local_text.as_str(), ":", display.as_str())
}

/// The node of an object of a service.
fn service_object_node(service: &ServiceSnapshot, object: &ObjectSnapshot) -> (r: Result<NodeId>)
    ensures
        ({
            let local = object_local(service@.config.object_manager_path, object@);
            &&& r is Ok <==> valid_identifier(IdentifierClass::NodeLocalId, local)
            &&& r matches Ok(n) ==> n@ == object_view(local)
            &&& r matches Err(e) ==> identifier_error(IdentifierClass::NodeLocalId, local, e)
        }),
{
    proof {
        lemma_dbus_names();
    }
    let local = object_node_local(service, object);
    NodeId::new(known_kind(DBUS_OBJECT_KIND), local.as_str())
}

/// The node of a method of an object.
fn service_method_node(
    service: &ServiceSnapshot,
    object: &ObjectSnapshot,
    interface: &str,
    method: &str,
) -> (r: Result<NodeId>)
    ensures
        ({
            let local = method_local(service@.config.object_manager_path, object@, interface@, method@);
            &&& r is Ok <==> valid_identifier(IdentifierClass::NodeLocalId, local)
            &&& r matches Ok(n) ==> n@ == method_view(local)
            &&& r matches Err(e) ==> identifier_error(IdentifierClass::NodeLocalId, local, e)
        }),
{
    proof {
        lemma_dbus_names();
    }
    let local = method_node_local(service, object, interface, method);
    NodeId::new(known_kind(DBUS_METHOD_KIND), local.as_str())
}

/// The bus a bus node's local id names.
pub open spec fn bus_named(local: Seq<char>) -> Option<BusKind> {
    if local == "system"@ {
        Some(BusKind::System)
    } else if local == "session"@ {
        Some(BusKind::Session)
    } else {
        None
    }
}

/// The services among `ks` that live on bus `b`, the running ones alone
/// when `running`, in order.
pub open spec fn services_on(
    services: Map<Seq<char>, ServiceView>,
    ks: Seq<Seq<char>>,
    b: BusKind,
    running: bool,
) -> Seq<Seq<char>>
    decreases ks.len(),
{
    if ks.len() == 0 {
        Seq::empty()
    } else {
        let k = ks.last();
        services_on(services, ks.drop_last(), b, running) + if services[k].config.bus == b && (!running
            || services[k].owner is Some) {
            seq![k]
        } else {
            Seq::<Seq<char>>::empty()
        }
    }
}

/// The services configured on bus `b`, in key order.
pub open spec fn bus_services(services: Map<Seq<char>, ServiceView>, b: BusKind) -> Seq<Seq<char>> {
    services_on(services, keys_of(services), b, false)
}

/// The services on bus `b` that run, in key order.
pub open spec fn running_bus_services(services: Map<Seq<char>, ServiceView>, b: BusKind) -> Seq<Seq<char>> {
    services_on(services, keys_of(services), b, true)
}

/// Whether some service is configured on bus `b`.
pub open spec fn bus_in_use(services: Map<Seq<char>, ServiceView>, b: BusKind) -> bool {
    bus_services(services, b).len() > 0
}

/// The local ids of the bus nodes: `session`, then `system`, each when some
/// service is configured on it.
pub open spec fn bus_names(services: Map<Seq<char>, ServiceView>) -> Seq<Seq<char>> {
    (if bus_in_use(services, BusKind::Session) {
        seq!["session"@]
    } else {
        Seq::<Seq<char>>::empty()
    }) + (if bus_in_use(services, BusKind::System) {
        seq!["system"@]
    } else {
        Seq::<Seq<char>>::empty()
    })
}

/// The properties of the node of bus `b`: the services configured on it
/// and those of them that run, each list comma-separated.
pub open spec fn bus_properties_spec(services: Map<Seq<char>, ServiceView>, b: BusKind) -> Map<
    Seq<char>,
    ValueModel,
> {
    Map::<Seq<char>, ValueModel>::empty().insert("kind"@, ValueModel::Text("dbus"@)).insert(
        "source"@,
        ValueModel::Text("dbus"@),
    ).insert("bus"@, ValueModel::Text(bus_text(b))).insert(
        "services"@,
        ValueModel::Text(join_spec(bus_services(services, b), ","@)),
    ).insert("active-services"@, ValueModel::Text(join_spec(running_bus_services(services, b), ","@)))
}

/// The properties of a method node.
pub open spec fn method_properties_spec(
    c: ServiceConfigView,
    o: ObjectView,
    iface: Seq<char>,
    method: Seq<char>,
    signature: Seq<Seq<char>>,
) -> Map<Seq<char>, ValueModel> {
    Map::<Seq<char>, ValueModel>::empty().insert("kind"@, ValueModel::Text("dbus-method"@)).insert(
        "source"@,
        ValueModel::Text("dbus"@),
    ).insert("service"@, ValueModel::Text(o.service_local_id)).insert(
        "service-name"@,
        ValueModel::Text(c.name),
    ).insert("object-path"@, ValueModel::Text(o.path)).insert(
        "interface"@,
        ValueModel::Text(iface),
    ).insert("method"@, ValueModel::Text(method)).insert(
        "input-signature"@,
        ValueModel::Text(join_spec(signature, ","@)),
    ).insert("call"@, ValueModel::Text(""@))
}

fn bus_properties(b: BusKind, configured: &Vec<String>, running: &Vec<String>) -> (r: PropertyMap)
    ensures
        property_models(r) == Map::<Seq<char>, ValueModel>::empty().insert(
            "kind"@,
            ValueModel::Text("dbus"@),
        ).insert("source"@, ValueModel::Text("dbus"@)).insert("bus"@, ValueModel::Text(bus_text(b))).insert(
            "services"@,
            ValueModel::Text(join_spec(texts_of(configured@), ","@)),
        ).insert("active-services"@, ValueModel::Text(join_spec(texts_of(running@), ","@))),
{
    proof {
        reveal_strlit("kind");
        reveal_strlit("source");
        reveal_strlit("bus");
        reveal_strlit("services");
        reveal_strlit("active-services");
    }
    let mut m: PropertyMap = TextMap::new();
    put(&mut m, "kind", LocusValue::text(DBUS_SERVICE_KIND));
    put(&mut m, "source", LocusValue::text(SOURCE));
    put(&mut m, "bus", LocusValue::text(b.as_str()));
    let listed = join_texts(configured, ",");
    put(&mut m, "services", LocusValue::text(listed.as_str()));
    let active = join_texts(running, ",");
    put(&mut m, "active-services", LocusValue::text(active.as_str()));
    m
}

fn method_properties(
    service: &ServiceSnapshot,
    object: &ObjectSnapshot,
    interface: &str,
    method: &str,
    snapshot: &DbusMethodSnapshot,
) -> (r: PropertyMap)
    ensures
        property_models(r) == method_properties_spec(
            service@.config,
            object@,
            interface@,
            method@,
            snapshot@,
        ),
{
    proof {
        reveal_strlit("kind");
        reveal_strlit("source");
        reveal_strlit("service");
        reveal_strlit("service-name");
        reveal_strlit("object-path");
        reveal_strlit("interface");
        reveal_strlit("method");
        reveal_strlit("input-signature");
        reveal_strlit("call");
        reveal_strlit("");
    }
    let mut m: PropertyMap = TextMap::new();
    put(&mut m, "kind", LocusValue::text(DBUS_METHOD_KIND));
    put(&mut m, "source", LocusValue::text(SOURCE));
    put(&mut m, "service", LocusValue::text(object.service_local_id.as_str()));
    put(&mut m, "service-name", LocusValue::text(service.config.name.as_str()));
    put(&mut m, "object-path", LocusValue::text(object.path.as_str()));
    put(&mut m, "interface", LocusValue::text(interface));
    put(&mut m, "method", LocusValue::text(method));
    let signature = join_texts(&snapshot.input_signature, ",");
    put(&mut m, "input-signature", LocusValue::text(signature.as_str()));
    put(&mut m, "call", LocusValue::text(""));
    assert(property_models(m) =~= method_properties_spec(
        service@.config,
        object@,
        interface@,
        method@,
        snapshot@,
    ));
    m
}

/// The entries a map takes in, in order, later ones replacing earlier
/// ones with the same key.
pub open spec fn insert_all(
    m: Map<Seq<char>, ValueModel>,
    entries: Seq<(Seq<char>, ValueModel)>,
) -> Map<Seq<char>, ValueModel>
    decreases entries.len(),
{
    if entries.len() == 0 {
        m
    } else {
        insert_all(m, entries.drop_last()).insert(entries.last().0, entries.last().1)
    }
}

pub open spec fn entry_keys(entries: Seq<(Seq<char>, ValueModel)>) -> Seq<Seq<char>> {
    entries.map_values(|e: (Seq<char>, ValueModel)| e.0)
}

/// The entries of one property of an interface: under `<iface>.<key>`, and
/// under the bare key when no other interface has that key.
pub open spec fn property_entries(o: ObjectView, iface: Seq<char>, key: Seq<char>) -> Seq<
    (Seq<char>, ValueModel),
> {
    let v = o.interfaces[iface][key].value;
    seq![(iface + "."@ + key, v)] + if count_having(keys_of(o.interfaces), o.interfaces, key) == 1 {
        seq![(key, v)]
    } else {
        Seq::<(Seq<char>, ValueModel)>::empty()
    }
}

/// The entries of an interface's properties, in key order.
pub open spec fn iface_entries(o: ObjectView, iface: Seq<char>, keys: Seq<Seq<char>>) -> Seq<
    (Seq<char>, ValueModel),
>
    decreases keys.len(),
{
    if keys.len() == 0 {
        Seq::empty()
    } else {
        iface_entries(o, iface, keys.drop_last()) + property_entries(o, iface, keys.last())
    }
}

/// The entries of the properties of interfaces `ifaces`, in order.
pub open spec fn object_entries(o: ObjectView, ifaces: Seq<Seq<char>>) -> Seq<
    (Seq<char>, ValueModel),
>
    decreases ifaces.len(),
{
    if ifaces.len() == 0 {
        Seq::empty()
    } else {
        object_entries(o, ifaces.drop_last()) + iface_entries(
            o,
            ifaces.last(),
            keys_of(o.interfaces[ifaces.last()]),
        )
    }
}

/// The fixed properties of an object node.
pub open spec fn object_base_properties(c: ServiceConfigView, o: ObjectView) -> Map<
    Seq<char>,
    ValueModel,
> {
    Map::<Seq<char>, ValueModel>::empty().insert("kind"@, ValueModel::Text("dbus-object"@)).insert(
        "source"@,
        ValueModel::Text("dbus"@),
    ).insert("service"@, ValueModel::Text(o.service_local_id)).insert(
        "service-name"@,
        ValueModel::Text(c.name),
    ).insert("path"@, ValueModel::Text(o.path)).insert(
        "interfaces"@,
        ValueModel::Text(join_spec(keys_of(o.interfaces), ","@)),
    )
}

/// The properties of an object node: the fixed ones, then each D-Bus
/// property.
pub open spec fn object_properties_spec(c: ServiceConfigView, o: ObjectView) -> Map<
    Seq<char>,
    ValueModel,
> {
    insert_all(object_base_properties(c, o), object_entries(o, keys_of(o.interfaces)))
}

/// The keys an object node's D-Bus properties are stored under, in order.
pub open spec fn object_property_keys(o: ObjectView) -> Seq<Seq<char>> {
    entry_keys(object_entries(o, keys_of(o.interfaces)))
}

proof fn lemma_insert_all_append(
    m: Map<Seq<char>, ValueModel>,
    a: Seq<(Seq<char>, ValueModel)>,
    b: Seq<(Seq<char>, ValueModel)>,
)
    ensures
        insert_all(m, a + b) == insert_all(insert_all(m, a), b),
        entry_keys(a + b) == entry_keys(a) + entry_keys(b),
    decreases b.len(),
{
    assert(entry_keys(a + b) =~= entry_keys(a) + entry_keys(b));
    if b.len() == 0 {
        assert(a + b =~= a);
    } else {
        lemma_insert_all_append(m, a, b.drop_last());
        assert((a + b).drop_last() =~= a + b.drop_last());
        assert((a + b).last() == b.last());
    }
}

proof fn lemma_iface_entries_step(o: ObjectView, iface: Seq<char>, keys: Seq<Seq<char>>, j: int)
    requires
        0 <= j < keys.len(),
    ensures
        iface_entries(o, iface, keys.take(j + 1)) == iface_entries(o, iface, keys.take(j))
            + property_entries(o, iface, keys[j]),
{
    assert(keys.take(j + 1).drop_last() =~= keys.take(j));
}

/// Stores `value` under `key`, which must be a valid property key.
fn insert_checked(m: &mut PropertyMap, key: &str, value: LocusValue) -> (r: Result<()>)
    ensures
        r is Ok <==> valid_identifier(IdentifierClass::PropertyKey, key@),
        r is Ok ==> property_models(*final(m)) == property_models(*old(m)).insert(key@, value@),
        r is Err ==> property_models(*final(m)) == property_models(*old(m)),
        r matches Err(e) ==> identifier_error(IdentifierClass::PropertyKey, key@, e),
{
    match PropertyKey::new(key) {
        Ok(k) => {
            let ghost v = value@;
            m.insert(k, value);
            assert(property_models(*m) =~= property_models(*old(m)).insert(key@, v));
            Ok(())
        },
        Err(e) => Err(e),
    }
}

/// Stores the properties of interface `i` of an object.
fn insert_iface_properties(m: &mut PropertyMap, object: &ObjectSnapshot, i: usize) -> (r: Result<()>)
    requires
        i < object.interfaces.entries().len(),
        sorted_by_key(object.interfaces.entries()),
    ensures
        ({
            let o = object@;
            let iface = object.interfaces.keys()[i as int];
            let entries = iface_entries(o, iface, keys_of(o.interfaces[iface]));
            &&& all_keys_valid(entry_keys(entries)) <==> r is Ok
            &&& r is Ok ==> property_models(*final(m)) == insert_all(property_models(*old(m)), entries)
            &&& r matches Err(e) ==> some_invalid_key_error(entry_keys(entries), e)
        }),
{
    let ghost o = object@;
    proof {
        lemma_ifaces_keys(object.interfaces);
    }
    let ghost iface = object.interfaces.keys()[i as int];
    let name = object.interfaces.key_at(i);
    let table = object.interfaces.value_at(i);
    assert(name@ == iface);
    assert(interfaces_view(object.interfaces).contains_key(object.interfaces.keys()[i as int]));
    assert(o.interfaces[iface] == props_view(*table));
    let n = table.len();
    let ghost ks = table.keys();
    proof {
        lemma_props_keys(*table);
    }
    let ghost base = property_models(*m);
    let mut j: usize = 0;
    assert(ks.take(0) =~= Seq::<Seq<char>>::empty());
    while j < n
        invariant
            n == ks.len(),
            n == table.entries().len(),
            ks == table.keys(),
            keys_of(o.interfaces[iface]) == ks,
            o == object@,
            o.interfaces[iface] == props_view(*table),
            name@ == iface,
            i < object.interfaces.entries().len(),
            iface == object.interfaces.keys()[i as int],
            forall|q: int|
                0 <= q < ks.len() ==> #[trigger] props_view(*table).contains_key(ks[q])
                    && props_view(*table)[ks[q]] == view_property(table.entries()[q].1),
            j <= n,
            all_keys_valid(entry_keys(iface_entries(o, iface, ks.take(j as int)))),
            property_models(*m) == insert_all(base, iface_entries(o, iface, ks.take(j as int))),
        decreases n - j,
    {
        let key = table.key_at(j);
        let snapshot = table.value_at(j);
        assert(props_view(*table).contains_key(ks[j as int]));
        assert(key@ == ks[j as int]);
        proof {
            lemma_iface_entries_step(o, iface, ks, j as int);
        }
        let ghost prefix = iface_entries(o, iface, ks.take(j as int));
        let ghost pe = property_entries(o, iface, key@);
        let qualified = concat3(name.as_str(), ".", key.as_str());
        let ghost mid = property_models(*m);
        match insert_checked(m, qualified.as_str(), snapshot.value.duplicate()) {
            Ok(()) => {},
            Err(e) => {
                proof {
                    lemma_iface_entries_split(o, iface, ks, j as int);
                    lemma_entry_error(prefix, pe, iface_entries(o, iface, ks.skip(j + 1)), 0, qualified@, e);
                }
                return Err(e);
            },
        }
        let count = count_method_interfaces_of_props(object, key.as_str());
        if count == 1 {
            match insert_checked(m, key.as_str(), snapshot.value.duplicate()) {
                Ok(()) => {},
                Err(e) => {
                    proof {
                        lemma_iface_entries_split(o, iface, ks, j as int);
                        lemma_entry_error(prefix, pe, iface_entries(o, iface, ks.skip(j + 1)), 1, key@, e);
                    }
                    return Err(e);
                },
            }
        }
        proof {
            lemma_insert_all_append(base, prefix, pe);
            lemma_keys_valid_concat(entry_keys(prefix), entry_keys(pe));
            assert(entry_keys(prefix + pe) == entry_keys(prefix) + entry_keys(pe));
            assert(insert_all(mid, pe) == property_models(*m)) by {
                reveal_with_fuel(insert_all, 3);
                assert(pe.drop_last().drop_last() =~= Seq::<(Seq<char>, ValueModel)>::empty()
                    || pe.drop_last() =~= Seq::<(Seq<char>, ValueModel)>::empty());
            }
        }
        j += 1;
    }
    assert(ks.take(n as int) =~= ks);
    Ok(())
}

proof fn lemma_iface_entries_split(o: ObjectView, iface: Seq<char>, keys: Seq<Seq<char>>, j: int)
    requires
        0 <= j < keys.len(),
    ensures
        iface_entries(o, iface, keys) == iface_entries(o, iface, keys.take(j)) + property_entries(
            o,
            iface,
            keys[j],
        ) + iface_entries(o, iface, keys.skip(j + 1)),
{
    lemma_iface_entries_append(o, iface, keys.take(j + 1), keys.skip(j + 1));
    assert(keys =~= keys.take(j + 1) + keys.skip(j + 1));
    lemma_iface_entries_step(o, iface, keys, j);
}

proof fn lemma_iface_entries_append(o: ObjectView, iface: Seq<char>, a: Seq<Seq<char>>, b: Seq<Seq<char>>)
    ensures
        iface_entries(o, iface, a + b) == iface_entries(o, iface, a) + iface_entries(o, iface, b),
    decreases b.len(),
{
    if b.len() == 0 {
        assert(a + b =~= a);
        assert(iface_entries(o, iface, a) + iface_entries(o, iface, b) =~= iface_entries(o, iface, a));
    } else {
        lemma_iface_entries_append(o, iface, a, b.drop_last());
        assert((a + b).drop_last() =~= a + b.drop_last());
        assert((a + b).last() == b.last());
        assert(iface_entries(o, iface, a + b) =~= iface_entries(o, iface, a) + iface_entries(o, iface, b));
    }
}

/// How many interfaces of an object have a property `key`.
fn count_method_interfaces_of_props(object: &ObjectSnapshot, key: &str) -> (r: usize)
    ensures
        r == count_having(keys_of(object@.interfaces), object@.interfaces, key@),
{
    let n = object.interfaces.len();
    let ghost ks = object.interfaces.keys();
    let ghost om = object@.interfaces;
    proof {
        lemma_ifaces_keys(object.interfaces);
    }
    let mut count: usize = 0;
    let mut i: usize = 0;
    assert(ks.take(0) =~= Seq::<Seq<char>>::empty());
    while i < n
        invariant
            n == ks.len(),
            n == object.interfaces.entries().len(),
            ks == object.interfaces.keys(),
            om == object@.interfaces,
            keys_of(om) == ks,
            forall|j: int|
                0 <= j < ks.len() ==> #[trigger] om.contains_key(ks[j]) && om[ks[j]] == props_view(
                    object.interfaces.entries()[j].1,
                ),
            i <= n,
            count <= i,
            count == count_having(ks.take(i as int), om, key@),
        decreases n - i,
    {
        let table = object.interfaces.value_at(i);
        assert(om.contains_key(ks[i as int]));
        assert(ks.take(i + 1).drop_last() =~= ks.take(i as int));
        let has = table.contains_key(key);
        assert(has == om[ks[i as int]].contains_key(key@));
        if has {
            count += 1;
        }
        i += 1;
    }
    assert(ks.take(n as int) =~= ks);
    count
}

/// A key of an entry that is not a valid property key fails a run of
/// entries that holds it.
proof fn lemma_entry_error(
    prefix: Seq<(Seq<char>, ValueModel)>,
    pe: Seq<(Seq<char>, ValueModel)>,
    rest: Seq<(Seq<char>, ValueModel)>,
    idx: int,
    key: Seq<char>,
    e: GraphError,
)
    requires
        0 <= idx < pe.len(),
        pe[idx].0 == key,
        !valid_identifier(IdentifierClass::PropertyKey, key),
        identifier_error(IdentifierClass::PropertyKey, key, e),
    ensures
        some_invalid_key_error(entry_keys(prefix + pe + rest), e),
        !all_keys_valid(entry_keys(prefix + pe + rest)),
{
    let all = prefix + pe + rest;
    assert(all[prefix.len() + idx] == pe[idx]);
    assert(entry_keys(all)[prefix.len() + idx] == key);
}

proof fn lemma_object_entries_append(o: ObjectView, a: Seq<Seq<char>>, b: Seq<Seq<char>>)
    ensures
        object_entries(o, a + b) == object_entries(o, a) + object_entries(o, b),
    decreases b.len(),
{
    if b.len() == 0 {
        assert(a + b =~= a);
        assert(object_entries(o, a) + object_entries(o, b) =~= object_entries(o, a));
    } else {
        lemma_object_entries_append(o, a, b.drop_last());
        assert((a + b).drop_last() =~= a + b.drop_last());
        assert((a + b).last() == b.last());
        assert(object_entries(o, a + b) =~= object_entries(o, a) + object_entries(o, b));
    }
}

/// The properties of an object node; fails on a D-Bus property whose key
/// is not a valid property key.
fn object_properties(service: &ServiceSnapshot, object: &ObjectSnapshot) -> (r: Result<PropertyMap>)
    ensures
        ({
            let keys = object_property_keys(object@);
            &&& all_keys_valid(keys) <==> r is Ok
            &&& r matches Ok(m) ==> property_models(m) == object_properties_spec(
                service@.config,
                object@,
            )
            &&& r matches Err(e) ==> some_invalid_key_error(keys, e)
        }),
{
    proof {
        reveal_strlit("kind");
        reveal_strlit("source");
        reveal_strlit("service");
        reveal_strlit("service-name");
        reveal_strlit("path");
        reveal_strlit("interfaces");
    }
    let ghost o = object@;
    let mut m: PropertyMap = TextMap::new();
    put(&mut m, "kind", LocusValue::text(DBUS_OBJECT_KIND));
    put(&mut m, "source", LocusValue::text(SOURCE));
    put(&mut m, "service", LocusValue::text(object.service_local_id.as_str()));
    put(&mut m, "service-name", LocusValue::text(service.config.name.as_str()));
    put(&mut m, "path", LocusValue::text(object.path.as_str()));
    let n = object.interfaces.len();
    let ghost ks = object.interfaces.keys();
    proof {
        lemma_ifaces_keys(object.interfaces);
    }
    let mut names: Vec<String> = Vec::new();
    let mut i: usize = 0;
    while i < n
        invariant
            n == ks.len(),
            n == object.interfaces.entries().len(),
            ks == object.interfaces.keys(),
            i <= n,
            names@.len() == i,
            forall|q: int| 0 <= q < i ==> (#[trigger] names@[q])@ == ks[q],
        decreases n - i,
    {
        let name = object.interfaces.key_at(i).clone();
        assert(name@ == ks[i as int]);
        names.push(name);
        i += 1;
    }
    assert(texts_of(names@) =~= ks);
    let listed = join_texts(&names, ",");
    put(&mut m, "interfaces", LocusValue::text(listed.as_str()));
    assert(property_models(m) =~= object_base_properties(service@.config, o));
    let ghost base = property_models(m);
    let mut i: usize = 0;
    assert(ks.take(0) =~= Seq::<Seq<char>>::empty());
    while i < n
        invariant
            n == ks.len(),
            n == object.interfaces.entries().len(),
            sorted_by_key(object.interfaces.entries()),
            ks == object.interfaces.keys(),
            keys_of(o.interfaces) == ks,
            o == object@,
            base == object_base_properties(service@.config, o),
            i <= n,
            all_keys_valid(entry_keys(object_entries(o, ks.take(i as int)))),
            property_models(m) == insert_all(base, object_entries(o, ks.take(i as int))),
        decreases n - i,
    {
        let ghost prefix = object_entries(o, ks.take(i as int));
        let ghost cur = iface_entries(o, ks[i as int], keys_of(o.interfaces[ks[i as int]]));
        assert(ks.take(i + 1).drop_last() =~= ks.take(i as int));
        assert(object_entries(o, ks.take(i + 1)) == prefix + cur);
        match insert_iface_properties(&mut m, object, i) {
            Ok(()) => {},
            Err(e) => {
                proof {
                    let rest = object_entries(o, ks.skip(i + 1));
                    assert(ks =~= ks.take(i + 1) + ks.skip(i + 1));
                    lemma_object_entries_append(o, ks.take(i + 1), ks.skip(i + 1));
                    lemma_insert_all_append(base, prefix, cur);
                    lemma_insert_all_append(base, prefix + cur, rest);
                    lemma_invalid_key_within(entry_keys(prefix), entry_keys(cur), entry_keys(rest), e);
                    let all = object_entries(o, ks);
                    assert(all == prefix + cur + rest);
                    assert(entry_keys(all) == entry_keys(prefix) + entry_keys(cur) + entry_keys(rest));
                    let x = choose|x: int|
                        0 <= x < entry_keys(all).len() && !valid_identifier(
                            IdentifierClass::PropertyKey,
                            #[trigger] entry_keys(all)[x],
                        ) && identifier_error(IdentifierClass::PropertyKey, entry_keys(all)[x], e);
                }
                return Err(e);
            },
        }
        proof {
            lemma_insert_all_append(base, prefix, cur);
            lemma_keys_valid_concat(entry_keys(prefix), entry_keys(cur));
        }
        i += 1;
    }
    assert(ks.take(n as int) =~= ks);
    Ok(m)
}

/// The services a run of configurations starts as: not running and with
/// no objects, a later configuration replacing an earlier one with the same
/// local id.
pub open spec fn services_from(configs: Seq<ServiceConfigView>) -> Map<Seq<char>, ServiceView>
    decreases configs.len(),
{
    if configs.len() == 0 {
        Map::empty()
    } else {
        services_from(configs.drop_last()).insert(
            configs.last().local_id,
            ServiceView { config: configs.last(), owner: None, objects: Map::empty() },
        )
    }
}

/// The service and object path a local id `<service>:<path>` names: the
/// object of that service stored under that full path.
#[verifier::opaque]
pub open spec fn object_entry_spec(
    services: Map<Seq<char>, ServiceView>,
    local: Seq<char>,
) -> Option<(Seq<char>, Seq<char>)> {
    match split_once_spec(local, ':') {
        Some((sid, path)) => if services.contains_key(sid) {
            if services[sid].objects.contains_key(path) {
                Some((sid, path))
            } else {
                None
            }
        } else {
            None
        },
        None => None,
    }
}

/// The member names of each interface.
pub open spec fn member_names<V>(m: Map<Seq<char>, Map<Seq<char>, V>>) -> Map<Seq<char>, Set<Seq<char>>> {
    m.map_values(|t: Map<Seq<char>, V>| t.dom())
}

/// The members of interface `iface` among `names` that `display` names,
/// bare or as `<interface>.<member>`.
pub open spec fn matches_in(iface: Seq<char>, names: Seq<Seq<char>>, display: Seq<char>) -> Seq<
    (Seq<char>, Seq<char>),
>
    decreases names.len(),
{
    if names.len() == 0 {
        Seq::empty()
    } else {
        matches_in(iface, names.drop_last(), display) + if display == names.last() || display == iface
            + "."@ + names.last() {
            seq![(iface, names.last())]
        } else {
            Seq::<(Seq<char>, Seq<char>)>::empty()
        }
    }
}

/// The members of the interfaces `ifaces` that `display` names, in order.
pub open spec fn member_matches(
    names: Map<Seq<char>, Set<Seq<char>>>,
    ifaces: Seq<Seq<char>>,
    display: Seq<char>,
) -> Seq<(Seq<char>, Seq<char>)>
    decreases ifaces.len(),
{
    if ifaces.len() == 0 {
        Seq::empty()
    } else {
        member_matches(names, ifaces.drop_last(), display) + matches_in(
            ifaces.last(),
            sorted_keys_of(names[ifaces.last()]),
            display,
        )
    }
}

/// The one member that `display` names, if exactly one does.
pub open spec fn unique_member(names: Map<Seq<char>, Set<Seq<char>>>, display: Seq<char>) -> Option<
    (Seq<char>, Seq<char>),
> {
    let ms = member_matches(names, sorted_keys_of(names.dom()), display);
    if ms.len() == 1 {
        Some(ms[0])
    } else {
        None
    }
}

/// The method a method node names: its service, object path, interface
/// and method.
#[verifier::opaque]
pub open spec fn method_entry_spec(
    services: Map<Seq<char>, ServiceView>,
    node: NodeIdView,
) -> Option<(Seq<char>, Seq<char>, Seq<char>, Seq<char>)> {
    if node.kind != "dbus-method"@ {
        None
    } else {
        match rsplit_once_spec(node.local, ':') {
            Some((object_local_text, display)) => if !valid_identifier(
                IdentifierClass::NodeLocalId,
                object_local_text,
            ) {
                None
            } else {
                match object_entry_spec(services, object_local_text) {
                    Some((sk, pk)) => match unique_member(
                        member_names(services[sk].objects[pk].methods),
                        display,
                    ) {
                        Some((iface, method)) => Some((sk, pk, iface, method)),
                        None => None,
                    },
                    None => None,
                }
            },
            None => None,
        }
    }
}

/// The property a key names on an object node: its service, object path,
/// interface and property. `None` for a node that is no object, or a key
/// that names no property or more than one.
#[verifier::opaque]
pub open spec fn property_entry_spec(
    services: Map<Seq<char>, ServiceView>,
    node: NodeIdView,
    key: Seq<char>,
) -> Option<(Seq<char>, Seq<char>, Seq<char>, Seq<char>)> {
    match object_entry_spec(services, node.local) {
        Some((sk, pk)) => match unique_member(
            member_names(services[sk].objects[pk].interfaces),
            key,
        ) {
            Some((iface, prop)) => Some((sk, pk, iface, prop)),
            None => None,
        },
        None => None,
    }
}

/// The member names of each table.
pub open spec fn table_names<V>(tables: TextMap<String, TextMap<String, V>>) -> Map<
    Seq<char>,
    Set<Seq<char>>,
> {
    tables.map().map_values(|t: TextMap<String, V>| t.map().dom())
}

proof fn lemma_matches_step(iface: Seq<char>, names: Seq<Seq<char>>, display: Seq<char>, j: int)
    requires
        0 <= j < names.len(),
    ensures
        matches_in(iface, names.take(j + 1), display) == matches_in(iface, names.take(j), display)
            + if display == names[j] || display == iface + "."@ + names[j] {
            seq![(iface, names[j])]
        } else {
            Seq::<(Seq<char>, Seq<char>)>::empty()
        },
{
    assert(names.take(j + 1).drop_last() =~= names.take(j));
}

/// The position of the one member of `tables` that `display` names, if
/// exactly one does: the index of its table and its index there.
fn find_member<V>(tables: &TextMap<String, TextMap<String, V>>, display: &str) -> (r: Option<
    (usize, usize),
>)
    ensures
        ({
            let names = table_names(*tables);
            match r {
                Some((a, b)) => a < tables.entries().len() && b < tables.entries()[a as int].1.entries().len()
                    && unique_member(names, display@) == Some(
                    (tables.keys()[a as int], tables.entries()[a as int].1.keys()[b as int]),
                ),
                None => unique_member(names, display@) is None,
            }
        }),
{
    let ghost names = table_names(*tables);
    let n = tables.len();
    let ghost ks = tables.keys();
    proof {
        lemma_map_keys_sorted(*tables);
        assert(names.dom() =~= tables.map().dom());
    }
    let mut count: usize = 0;
    let mut found: Option<(usize, usize)> = None;
    let mut i: usize = 0;
    assert(ks.take(0) =~= Seq::<Seq<char>>::empty());
    while i < n
        invariant
            n == ks.len(),
            n == tables.entries().len(),
            sorted_by_key(tables.entries()),
            ks == tables.keys(),
            ks == sorted_keys_of(names.dom()),
            names == table_names(*tables),
            i <= n,
            count <= 2,
            count == 2 ==> member_matches(names, ks.take(i as int), display@).len() >= 2,
            count < 2 ==> member_matches(names, ks.take(i as int), display@).len() == count,
            match found {
                Some((a, b)) => count >= 1 && a < i && b < tables.entries()[a as int].1.entries().len()
                    && member_matches(names, ks.take(i as int), display@).last() == (
                    ks[a as int],
                    tables.entries()[a as int].1.keys()[b as int],
                ),
                None => count == 0,
            },
        decreases n - i,
    {
        let name = tables.key_at(i);
        let table = tables.value_at(i);
        let m = table.len();
        let ghost mks = table.keys();
        proof {
            lemma_map_keys_sorted(*table);
            lemma_entries_map_at(tables.entries(), i as int);
            assert(names.contains_key(ks[i as int]));
            assert(names[ks[i as int]] == table.map().dom());
        }
        let ghost prefix = member_matches(names, ks.take(i as int), display@);
        assert(ks.take(i + 1).drop_last() =~= ks.take(i as int));
        assert(name@ == ks[i as int]);
        let mut j: usize = 0;
        assert(mks.take(0) =~= Seq::<Seq<char>>::empty());
        while j < m
            invariant
                n == ks.len(),
                n == tables.entries().len(),
                ks == tables.keys(),
                i < n,
                m == mks.len(),
                m == table.entries().len(),
                *table == tables.entries()[i as int].1,
                mks == table.keys(),
                name@ == ks[i as int],
                j <= m,
                count <= 2,
                count == 2 ==> prefix.len() + matches_in(name@, mks.take(j as int), display@).len() >= 2,
                count < 2 ==> prefix.len() + matches_in(name@, mks.take(j as int), display@).len() == count,
                match found {
                    Some((a, b)) => count >= 1 && a <= i && b < tables.entries()[a as int].1.entries().len()
                        && (prefix + matches_in(name@, mks.take(j as int), display@)).last() == (
                        ks[a as int],
                        tables.entries()[a as int].1.keys()[b as int],
                    ),
                    None => count == 0,
                },
            decreases m - j,
        {
            let member = table.key_at(j);
            proof {
                lemma_matches_step(name@, mks, display@, j as int);
            }
            assert(member@ == mks[j as int]);
            let qualified = concat3(name.as_str(), ".", member.as_str());
            if text_eq(display, member.as_str()) || text_eq(display, qualified.as_str()) {
                found = Some((i, j));
                if count < 2 {
                    count += 1;
                }
                proof {
                    let cur = prefix + matches_in(name@, mks.take(j + 1), display@);
                    assert(cur == prefix + matches_in(name@, mks.take(j as int), display@) + seq![(name@, member@)]);
                }
            }
            j += 1;
        }
        assert(mks.take(m as int) =~= mks);
        assert(member_matches(names, ks.take(i + 1), display@) == prefix + matches_in(
            name@,
            mks,
            display@,
        ));
        i += 1;
    }
    assert(ks.take(n as int) =~= ks);
    if count == 1 {
        found
    } else {
        None
    }
}

/// The member names of an object's views are those of its tables.
proof fn lemma_object_names(o: &ObjectSnapshot)
    ensures
        table_names(o.methods) == member_names(o@.methods),
        table_names(o.interfaces) == member_names(o@.interfaces),
{
    assert forall|k: Seq<char>| #[trigger] table_names(o.methods).contains_key(k) implies table_names(
        o.methods,
    )[k] == member_names(o@.methods)[k] by {
        assert(methods_view(o.methods.map()[k]).dom() =~= o.methods.map()[k].map().dom());
    }
    assert(table_names(o.methods).dom() =~= member_names(o@.methods).dom());
    assert(table_names(o.methods) =~= member_names(o@.methods));
    assert forall|k: Seq<char>| #[trigger] table_names(o.interfaces).contains_key(k) implies table_names(
        o.interfaces,
    )[k] == member_names(o@.interfaces)[k] by {
        assert(props_view(o.interfaces.map()[k]).dom() =~= o.interfaces.map()[k].map().dom());
    }
    assert(table_names(o.interfaces).dom() =~= member_names(o@.interfaces).dom());
    assert(table_names(o.interfaces) =~= member_names(o@.interfaces));
}

impl DbusState {
    /// The state of the configured services, none of them running yet; of
    /// two configurations with one local id the later stays.
    pub fn new(configs: Vec<ServiceConfig>) -> (r: DbusState)
        ensures
            services_of(r) == services_from(configs@.map_values(|c: ServiceConfig| c@)),
    {
        let ghost views = configs@.map_values(|c: ServiceConfig| c@);
        let mut m: TextMap<String, ServiceSnapshot> = TextMap::new();
        assert(services_view(m) =~= services_from(views.take(0)));
        let mut i: usize = 0;
        while i < configs.len()
            invariant
                i <= configs.len(),
                views == configs@.map_values(|c: ServiceConfig| c@),
                services_view(m) == services_from(views.take(i as int)),
            decreases configs.len() - i,
        {
            let c = &configs[i];
            let config = ServiceConfig {
                local_id: c.local_id.clone(),
                bus: c.bus,
                name: c.name.clone(),
                object_manager_path: c.object_manager_path.clone(),
            };
            let key = c.local_id.clone();
            let objects: TextMap<String, ObjectSnapshot> = TextMap::new();
            let snapshot = ServiceSnapshot { config, owner: None, objects };
            assert(objects_view(snapshot.objects) =~= Map::<Seq<char>, ObjectView>::empty());
            assert(views.take(i + 1).drop_last() =~= views.take(i as int));
            assert(views[i as int] == snapshot@.config);
            let ghost sv = snapshot@;
            m.insert(key, snapshot);
            proof {
                assert(services_view(m) =~= services_from(views.take(i as int)).insert(
                    views[i as int].local_id,
                    sv,
                ));
            }
            i += 1;
        }
        assert(views.take(configs.len() as int) =~= views);
        DbusState { services: m }
    }

    /// The service and object a local id `<service>:<path>` names.
    fn object_entry(&self, local: &str) -> (r: Option<(&ServiceSnapshot, &ObjectSnapshot)>)
        ensures
            match r {
                Some((sv, ob)) => object_entry_spec(services_of(*self), local@) matches Some((sk, pk))
                    && services_of(*self)[sk] == sv@ && sv@.objects[pk] == ob@,
                None => object_entry_spec(services_of(*self), local@) is None,
            },
    {
        proof {
            reveal(object_entry_spec);
        }
        match split_once_char(local, ':') {
            None => None,
            Some((sid, path)) => match self.services.get(sid.as_str()) {
                None => None,
                Some(service) => {
                    assert(services_of(*self)[sid@] == service@);
                    match service.objects.get(path.as_str()) {
                        Some(object) => Some((service, object)),
                        None => None,
                    }
                },
            },
        }
    }

    /// The method a method node names, with its service, object,
    /// interface and method names.
    fn method_entry(&self, node: &NodeId) -> (r: Option<
        (&ServiceSnapshot, &ObjectSnapshot, &String, &String, &DbusMethodSnapshot),
    >)
        ensures
            match r {
                Some((sv, ob, iface, method, snap)) => method_entry_spec(services_of(*self), node@) matches Some((sk, pk, i, m))
                    && services_of(*self)[sk] == sv@ && sv@.objects[pk] == ob@ && iface@ == i && method@ == m
                    && ob@.methods.contains_key(i) && ob@.methods[i].contains_key(m) && ob@.methods[i][m] == snap@,
                None => method_entry_spec(services_of(*self), node@) is None,
            },
    {
        proof {
            reveal(method_entry_spec);
        }
        if !text_eq(node.kind().as_str(), DBUS_METHOD_KIND) {
            return None;
        }
        match rsplit_once_char(node.local(), ':') {
            None => None,
            Some((object_local_text, display)) => {
                let valid = match NodeId::new(known_kind_object(), object_local_text.as_str()) {
                    Ok(_) => true,
                    Err(_) => false,
                };
                if !valid {
                    return None;
                }
                match self.object_entry(object_local_text.as_str()) {
                    None => None,
                    Some((service, object)) => {
                        proof {
                            lemma_object_names(object);
                        }
                        match find_member(&object.methods, display.as_str()) {
                            None => None,
                            Some((a, b)) => {
                                let iface = object.methods.key_at(a);
                                let table = object.methods.value_at(a);
                                let method = table.key_at(b);
                                let snap = table.value_at(b);
                                proof {
                                    use_type_invariant(&object.methods);
                                    use_type_invariant(&table);
                                }
                                proof {
                                    lemma_method_ifaces_keys(object.methods);
                                    lemma_methods_keys(*table);
                                    assert(method_ifaces_view(object.methods).contains_key(
                                        object.methods.keys()[a as int],
                                    ));
                                    assert(methods_view(*table).contains_key(table.keys()[b as int]));
                                }
                                Some((service, object, iface, method, snap))
                            },
                        }
                    },
                }
            },
        }
    }

    /// The property a key names on an object node.
    fn property_entry(&self, node: &NodeId, key: &PropertyKey) -> (r: Option<
        (&ServiceSnapshot, &ObjectSnapshot, &String, &String, &DbusPropertySnapshot),
    >)
        ensures
            match r {
                Some((sv, ob, iface, prop, snap)) => property_entry_spec(services_of(*self), node@, key@) matches Some((sk, pk, i, p))
                    && services_of(*self)[sk] == sv@ && sv@.objects[pk] == ob@ && iface@ == i && prop@ == p
                    && ob@.interfaces.contains_key(i) && ob@.interfaces[i].contains_key(p) && ob@.interfaces[i][p] == snap@,
                None => property_entry_spec(services_of(*self), node@, key@) is None,
            },
    {
        proof {
            reveal(property_entry_spec);
        }
        match self.object_entry(node.local()) {
            None => None,
            Some((service, object)) => {
                proof {
                    lemma_object_names(object);
                }
                match find_member(&object.interfaces, key.as_str()) {
                    None => None,
                    Some((a, b)) => {
                        let iface = object.interfaces.key_at(a);
                        let table = object.interfaces.value_at(a);
                        let prop = table.key_at(b);
                        let snap = table.value_at(b);
                        proof {
                            use_type_invariant(&object.interfaces);
                            use_type_invariant(&table);
                        }
                        proof {
                            lemma_ifaces_keys(object.interfaces);
                            lemma_props_keys(*table);
                            assert(interfaces_view(object.interfaces).contains_key(
                                object.interfaces.keys()[a as int],
                            ));
                            assert(props_view(*table).contains_key(table.keys()[b as int]));
                        }
                        Some((service, object, iface, prop, snap))
                    },
                }
            },
        }
    }
}

/// The bus a bus node's local id names.
fn bus_of_local(local: &str) -> (r: Option<BusKind>)
    ensures
        r == bus_named(local@),
{
    if text_eq(local, "system") {
        Some(BusKind::System)
    } else if text_eq(local, "session") {
        Some(BusKind::Session)
    } else {
        None
    }
}

impl DbusState {
    /// The services on bus `b`, the running ones alone when `running`, in
    /// key order.
    fn services_on_bus(&self, b: BusKind, running: bool) -> (r: Vec<String>)
        ensures
            texts_of(r@) == services_on(services_of(*self), keys_of(services_of(*self)), b, running),
    {
        let n = self.services.len();
        let ghost ks = self.services.keys();
        let ghost sm = services_of(*self);
        proof {
            lemma_services_keys(self.services);
        }
        let mut out: Vec<String> = Vec::new();
        let mut i: usize = 0;
        assert(ks.take(0) =~= Seq::<Seq<char>>::empty());
        while i < n
            invariant
                n == ks.len(),
                n == self.services.entries().len(),
                ks == self.services.keys(),
                sm == services_of(*self),
                keys_of(sm) == ks,
                forall|j: int|
                    0 <= j < ks.len() ==> #[trigger] sm.contains_key(ks[j]) && sm[ks[j]] == view_service(
                        self.services.entries()[j].1,
                    ),
                i <= n,
                texts_of(out@) == services_on(sm, ks.take(i as int), b, running),
            decreases n - i,
        {
            let key = self.services.key_at(i);
            let service = self.services.value_at(i);
            assert(sm.contains_key(ks[i as int]));
            assert(key@ == ks[i as int]);
            assert(ks.take(i + 1).drop_last() =~= ks.take(i as int));
            assert(ks.take(i + 1).last() == ks[i as int]);
            if service.config.bus == b && (!running || service.owner.is_some()) {
                out.push(key.clone());
                assert(texts_of(out@) =~= services_on(sm, ks.take(i as int), b, running) + seq![key@]);
            } else {
                assert(services_on(sm, ks.take(i + 1), b, running) =~= services_on(
                    sm,
                    ks.take(i as int),
                    b,
                    running,
                ));
            }
            i += 1;
        }
        assert(ks.take(n as int) =~= ks);
        out
    }
}

/// The node kind of objects.
fn known_kind_object() -> (r: NodeKind)
    ensures
        r@ == "dbus-object"@,
{
    proof {
        lemma_dbus_names();
    }
    known_kind(DBUS_OBJECT_KIND)
}

/// The properties of a node, or `None` when it does not exist.
pub open spec fn node_properties_spec(
    services: Map<Seq<char>, ServiceView>,
    node: NodeIdView,
) -> Option<Map<Seq<char>, ValueModel>> {
    if node.kind == "dbus"@ {
        match bus_named(node.local) {
            Some(b) => if bus_in_use(services, b) {
                Some(bus_properties_spec(services, b))
            } else {
                None
            },
            None => None,
        }
    } else if node.kind == "dbus-object"@ {
        match object_entry_spec(services, node.local) {
            Some((sk, pk)) => Some(object_properties_spec(services[sk].config, services[sk].objects[pk])),
            None => None,
        }
    } else {
        match method_entry_spec(services, node) {
            Some((sk, pk, i, m)) => Some(
                method_properties_spec(
                    services[sk].config,
                    services[sk].objects[pk],
                    i,
                    m,
                    services[sk].objects[pk].methods[i][m],
                ),
            ),
            None => None,
        }
    }
}

/// The keys that listing a node's properties checks.
pub open spec fn property_checks(services: Map<Seq<char>, ServiceView>, node: NodeIdView) -> Seq<
    Seq<char>,
> {
    if node.kind == "dbus-object"@ {
        match object_entry_spec(services, node.local) {
            Some((sk, pk)) => object_property_keys(services[sk].objects[pk]),
            None => Seq::empty(),
        }
    } else {
        Seq::empty()
    }
}

/// Whether a node exists.
pub open spec fn contains_spec(services: Map<Seq<char>, ServiceView>, node: NodeIdView) -> bool {
    if node.kind == "dbus"@ {
        bus_named(node.local) matches Some(b) && bus_in_use(services, b)
    } else if node.kind == "dbus-object"@ {
        object_entry_spec(services, node.local) is Some
    } else {
        method_entry_spec(services, node) is Some
    }
}

/// Whether writing `key` on `node` calls a method.
pub open spec fn callable_spec(services: Map<Seq<char>, ServiceView>, node: NodeIdView, key: Seq<char>) -> bool {
    key == "call"@ && method_entry_spec(services, node) is Some
}

/// Whether `key` on `node` is a writable D-Bus property.
pub open spec fn writable_spec(services: Map<Seq<char>, ServiceView>, node: NodeIdView, key: Seq<char>) -> bool {
    node.kind == "dbus-object"@ && match property_entry_spec(services, node, key) {
        Some((sk, pk, i, p)) => services[sk].objects[pk].interfaces[i][p].writable,
        None => false,
    }
}

/// A method's `call` is write-only, a writable D-Bus property read-write,
/// every other property read-only.
pub open spec fn dbus_access(services: Map<Seq<char>, ServiceView>, node: NodeIdView, key: Seq<char>) -> Access {
    if callable_spec(services, node, key) {
        Access::WriteOnly
    } else if writable_spec(services, node, key) {
        Access::ReadWrite
    } else {
        Access::ReadOnly
    }
}

impl AccessPolicy for DbusState {
    open spec fn access_spec(&self, node: NodeIdView, key: Seq<char>) -> Access {
        dbus_access(services_of(*self), node, key)
    }

    fn access(&self, node: &NodeId, key: &PropertyKey) -> (r: Access) {
        if self.callable_method(node, key).is_ok() {
            Access::WriteOnly
        } else if self.writable_property(node, key).is_ok() {
            Access::ReadWrite
        } else {
            Access::ReadOnly
        }
    }
}

impl DbusState {
    /// Whether a node exists.
    pub fn contains_node(&self, node: &NodeId) -> (r: Result<bool>)
        ensures
            r matches Ok(b) && b == contains_spec(services_of(*self), node@),
    {
        proof {
            lemma_dbus_names();
        }
        let kind = node.kind().as_str();
        if text_eq(kind, DBUS_SERVICE_KIND) {
            match bus_of_local(node.local()) {
                Some(b) => Ok(self.services_on_bus(b, false).len() > 0),
                None => Ok(false),
            }
        } else if text_eq(kind, DBUS_OBJECT_KIND) {
            Ok(self.object_entry(node.local()).is_some())
        } else {
            Ok(self.method_entry(node).is_some())
        }
    }

    /// The properties of a node, `None` when it does not exist; fails on a
    /// D-Bus property whose key is not a valid property key.
    fn node_properties(&self, node: &NodeId) -> (r: Result<Option<PropertyMap>>)
        ensures
            ({
                let checks = property_checks(services_of(*self), node@);
                &&& all_keys_valid(checks) <==> r is Ok
                &&& r matches Ok(m) ==> props_option(m) == node_properties_spec(services_of(*self), node@)
                &&& r matches Err(e) ==> some_invalid_key_error(checks, e)
            }),
    {
        proof {
            lemma_dbus_names();
        }
        let kind = node.kind().as_str();
        if text_eq(kind, DBUS_SERVICE_KIND) {
            match bus_of_local(node.local()) {
                Some(b) => {
                    let configured = self.services_on_bus(b, false);
                    if configured.len() == 0 {
                        return Ok(None);
                    }
                    let running = self.services_on_bus(b, true);
                    Ok(Some(bus_properties(b, &configured, &running)))
                },
                None => Ok(None),
            }
        } else if text_eq(kind, DBUS_OBJECT_KIND) {
            match self.object_entry(node.local()) {
                Some((service, object)) => match object_properties(service, object) {
                    Ok(m) => Ok(Some(m)),
                    Err(e) => Err(e),
                },
                None => Ok(None),
            }
        } else {
            match self.method_entry(node) {
                Some((service, object, iface, method, snap)) => Ok(
                    Some(method_properties(service, object, iface.as_str(), method.as_str(), snap)),
                ),
                None => Ok(None),
            }
        }
    }

    /// The spec of a node's property.
    pub fn property_spec(&self, subject: &NodeId, key: &PropertyKey) -> (r: Result<PropertySpec>)
        ensures
            all_keys_valid(property_checks(services_of(*self), subject@)) ==> property_spec_result(
                *self,
                node_properties_spec(services_of(*self), subject@),
                subject@,
                key@,
                r,
            ),
            !all_keys_valid(property_checks(services_of(*self), subject@)) ==> (r matches Err(e)
                && some_invalid_key_error(property_checks(services_of(*self), subject@), e)),
    {
        match self.node_properties(subject) {
            Ok(props) => answer_property_spec(self, props, subject, key),
            Err(e) => Err(e),
        }
    }

    /// The specs of a node's properties, in key order.
    pub fn properties(&self, subject: &NodeId) -> (r: Result<Vec<PropertySpec>>)
        ensures
            all_keys_valid(property_checks(services_of(*self), subject@)) ==> properties_result(
                *self,
                node_properties_spec(services_of(*self), subject@),
                subject@,
                r,
            ),
            !all_keys_valid(property_checks(services_of(*self), subject@)) ==> (r matches Err(e)
                && some_invalid_key_error(property_checks(services_of(*self), subject@), e)),
    {
        match self.node_properties(subject) {
            Ok(props) => answer_properties(self, props, subject),
            Err(e) => Err(e),
        }
    }

    /// The value of a node's property.
    pub fn property(&self, subject: &NodeId, key: &PropertyKey) -> (r: Result<LocusValue>)
        ensures
            all_keys_valid(property_checks(services_of(*self), subject@)) ==> property_result(
                node_properties_spec(services_of(*self), subject@),
                subject@,
                key@,
                r,
            ),
            !all_keys_valid(property_checks(services_of(*self), subject@)) ==> (r matches Err(e)
                && some_invalid_key_error(property_checks(services_of(*self), subject@), e)),
    {
        match self.node_properties(subject) {
            Ok(props) => answer_property(props, subject, key),
            Err(e) => Err(e),
        }
    }

    /// The writable D-Bus property that `key` names on an object node.
    pub fn writable_property(&self, subject: &NodeId, key: &PropertyKey) -> (r: Result<
        DbusWritableProperty,
    >)
        ensures
            subject@.kind != "dbus-object"@ ==> (r matches Err(e) && is_not_found(
                e,
                "property"@,
                entry_text(subject@, key@),
            )),
            subject@.kind == "dbus-object"@ && object_entry_spec(services_of(*self), subject@.local)
                is None ==> (r matches Err(e) && is_not_found(e, "node"@, node_id_text(subject@))),
            subject@.kind == "dbus-object"@ && object_entry_spec(services_of(*self), subject@.local)
                is Some && property_entry_spec(services_of(*self), subject@, key@) is None ==> (r matches Err(
                e,
            ) && is_not_found(e, "property"@, entry_text(subject@, key@))),
            subject@.kind == "dbus-object"@ ==> match property_entry_spec(
                services_of(*self),
                subject@,
                key@,
            ) {
                Some((sk, pk, i, p)) => {
                    let sv = services_of(*self)[sk];
                    let snap = sv.objects[pk].interfaces[i][p];
                    if snap.writable {
                        r matches Ok(w) && w.service@ == sv.config && w.object_path@
                            == sv.objects[pk].path && w.interface@ == i && w.property@ == p
                            && w.current@ == snap.value
                    } else {
                        r matches Err(e) && is_invalid_value(
                            e,
                            "D-Bus property"@,
                            entry_text(subject@, key@),
                            "property is not writable"@,
                        )
                    }
                },
                None => true,
            },
            r is Ok <==> writable_spec(services_of(*self), subject@, key@),
    {
        if !text_eq(subject.kind().as_str(), DBUS_OBJECT_KIND) {
            return Err(GraphError::NotFound { kind: "property", name: entry_name(subject, key.as_str()) });
        }
        proof {
            lemma_property_entry_needs_object(services_of(*self), subject@, key@);
        }
        if self.object_entry(subject.local()).is_none() {
            return Err(node_not_found(subject));
        }
        match self.property_entry(subject, key) {
            None => Err(GraphError::NotFound { kind: "property", name: entry_name(subject, key.as_str()) }),
            Some((service, object, iface, prop, snap)) => {
                if !snap.writable {
                    return Err(
                        GraphError::InvalidValue {
                            kind: "D-Bus property",
                            value: entry_name(subject, key.as_str()),
                            reason: "property is not writable",
                        },
                    );
                }
                Ok(
                    DbusWritableProperty {
                        service: service.config.duplicate(),
                        object_path: object.path.clone(),
                        interface: iface.clone(),
                        property: prop.clone(),
                        current: snap.value.duplicate(),
                    },
                )
            },
        }
    }

    /// The method that writing `call` on a method node calls.
    pub fn callable_method(&self, subject: &NodeId, key: &PropertyKey) -> (r: Result<
        DbusCallableMethod,
    >)
        ensures
            key@ != "call"@ ==> (r matches Err(e) && is_not_found(
                e,
                "property"@,
                entry_text(subject@, key@),
            )),
            key@ == "call"@ ==> match method_entry_spec(services_of(*self), subject@) {
                Some((sk, pk, i, m)) => {
                    let sv = services_of(*self)[sk];
                    r matches Ok(c) && c.service@ == sv.config && c.object_path@ == sv.objects[pk].path
                        && c.interface@ == i && c.method@ == m && texts_of(c.input_signature@)
                        == sv.objects[pk].methods[i][m]
                },
                None => r matches Err(e) && is_not_found(e, "node"@, node_id_text(subject@)),
            },
            r is Ok <==> callable_spec(services_of(*self), subject@, key@),
    {
        proof {
            reveal_strlit("call");
        }
        if !text_eq(key.as_str(), "call") {
            return Err(GraphError::NotFound { kind: "property", name: entry_name(subject, key.as_str()) });
        }
        match self.method_entry(subject) {
            None => Err(node_not_found(subject)),
            Some((service, object, iface, method, snap)) => {
                let mut signature: Vec<String> = Vec::new();
                let mut i: usize = 0;
                while i < snap.input_signature.len()
                    invariant
                        i <= snap.input_signature.len(),
                        signature@.len() == i,
                        forall|q: int| 0 <= q < i ==> (#[trigger] signature@[q])@ == snap.input_signature@[q]@,
                    decreases snap.input_signature.len() - i,
                {
                    signature.push(snap.input_signature[i].clone());
                    i += 1;
                }
                assert(texts_of(signature@) =~= texts_of(snap.input_signature@));
                Ok(
                    DbusCallableMethod {
                        service: service.config.duplicate(),
                        object_path: object.path.clone(),
                        interface: iface.clone(),
                        method: method.clone(),
                        input_signature: signature,
                    },
                )
            },
        }
    }
}

/// The local ids of the methods of an object, interface by interface.
pub open spec fn object_method_ids(manager: Seq<char>, o: ObjectView) -> Seq<Seq<char>> {
    concat_all(keys_of(o.methods).map_values(|i: Seq<char>| iface_method_ids(manager, o, i)))
}

/// The local ids of the methods of one interface of an object.
pub open spec fn iface_method_ids(manager: Seq<char>, o: ObjectView, iface: Seq<char>) -> Seq<Seq<char>> {
    keys_of(o.methods[iface]).map_values(|m: Seq<char>| method_local(manager, o, iface, m))
}

/// The local ids of the objects of a service, in path order.
pub open spec fn service_object_ids(sv: ServiceView) -> Seq<Seq<char>> {
    keys_of(sv.objects).map_values(|p: Seq<char>| object_local(sv.config.object_manager_path, sv.objects[p]))
}

/// The local ids of the methods of a service's objects.
pub open spec fn service_method_ids(sv: ServiceView) -> Seq<Seq<char>> {
    concat_all(
        keys_of(sv.objects).map_values(
            |p: Seq<char>| object_method_ids(sv.config.object_manager_path, sv.objects[p]),
        ),
    )
}

pub open spec fn all_object_ids(services: Map<Seq<char>, ServiceView>) -> Seq<Seq<char>> {
    concat_all(keys_of(services).map_values(|k: Seq<char>| service_object_ids(services[k])))
}

pub open spec fn all_method_ids(services: Map<Seq<char>, ServiceView>) -> Seq<Seq<char>> {
    concat_all(keys_of(services).map_values(|k: Seq<char>| service_method_ids(services[k])))
}

/// The relations of a node, or `None` when it does not exist: no node of
/// the plugin has any.
pub open spec fn node_relations_spec(services: Map<Seq<char>, ServiceView>, node: NodeIdView) -> Option<
    Map<Seq<char>, Seq<NodeIdView>>,
> {
    if contains_spec(services, node) {
        Some(Map::empty())
    } else {
        None
    }
}

proof fn lemma_nodes_of_kind_concat(kind: Seq<char>, a: Seq<Seq<char>>, b: Seq<Seq<char>>)
    ensures
        nodes_of_kind(kind, a + b) == nodes_of_kind(kind, a) + nodes_of_kind(kind, b),
{
    assert(nodes_of_kind(kind, a + b) =~= nodes_of_kind(kind, a) + nodes_of_kind(kind, b));
}

proof fn lemma_invalid_not_valid(ids: Seq<Seq<char>>, e: GraphError)
    requires
        some_invalid_error(ids, e),
    ensures
        !all_valid(ids),
{
    let i = choose|i: int|
        0 <= i < ids.len() && !valid_identifier(IdentifierClass::NodeLocalId, #[trigger] ids[i])
            && identifier_error(IdentifierClass::NodeLocalId, ids[i], e);
}

/// One step of a loop that pushes the nodes of run after run of ids: the
/// runs so far, then run `i`.
proof fn lemma_runs_step(
    kind: Seq<char>,
    parts: Seq<Seq<Seq<char>>>,
    i: int,
    base: Seq<NodeIdView>,
)
    requires
        0 <= i < parts.len(),
    ensures
        concat_all(parts.take(i + 1)) == concat_all(parts.take(i)) + parts[i],
        base + nodes_of_kind(kind, concat_all(parts.take(i))) + nodes_of_kind(kind, parts[i]) == base
            + nodes_of_kind(kind, concat_all(parts.take(i + 1))),
        all_valid(concat_all(parts.take(i))) && all_valid(parts[i]) ==> all_valid(
            concat_all(parts.take(i + 1)),
        ),
        forall|e: GraphError|
            some_invalid_error(parts[i], e) ==> #[trigger] some_invalid_error(concat_all(parts), e)
                && !all_valid(concat_all(parts)),
{
    lemma_concat_all_split(parts, i);
    lemma_nodes_of_kind_concat(kind, concat_all(parts.take(i)), parts[i]);
    lemma_valid_concat(concat_all(parts.take(i)), parts[i]);
    assert forall|e: GraphError| some_invalid_error(parts[i], e) implies #[trigger] some_invalid_error(
        concat_all(parts),
        e,
    ) && !all_valid(concat_all(parts)) by {
        lemma_invalid_within(concat_all(parts.take(i)), parts[i], concat_all(parts.skip(i + 1)), e);
        lemma_invalid_not_valid(concat_all(parts), e);
    }
}

/// Pushes the nodes of the methods of interface `i` of an object.
fn push_iface_method_nodes(
    out: &mut Vec<NodeId>,
    service: &ServiceSnapshot,
    object: &ObjectSnapshot,
    i: usize,
) -> (r: Result<()>)
    requires
        i < object.methods.entries().len(),
        sorted_by_key(object.methods.entries()),
    ensures
        ({
            let ids = iface_method_ids(
                service@.config.object_manager_path,
                object@,
                object.methods.keys()[i as int],
            );
            &&& all_valid(ids) <==> r is Ok
            &&& r is Ok ==> node_views(final(out)@) == node_views(old(out)@) + nodes_of_kind(
                "dbus-method"@,
                ids,
            )
            &&& r matches Err(e) ==> some_invalid_error(ids, e)
        }),
{
    proof {
        lemma_dbus_names();
        lemma_method_ifaces_keys(object.methods);
    }
    let name = object.methods.key_at(i);
    let table = object.methods.value_at(i);
    assert(method_ifaces_view(object.methods).contains_key(object.methods.keys()[i as int]));
    let n = table.len();
    let ghost ks = table.keys();
    proof {
        lemma_methods_keys(*table);
    }
    let ghost ids = iface_method_ids(
        service@.config.object_manager_path,
        object@,
        object.methods.keys()[i as int],
    );
    assert(keys_of(object@.methods[object.methods.keys()[i as int]]) == ks);
    let ghost base = node_views(out@);
    let mut j: usize = 0;
    assert(ids.take(0) =~= Seq::<Seq<char>>::empty());
    assert(base + nodes_of_kind("dbus-method"@, Seq::empty()) =~= base);
    while j < n
        invariant
            n == ks.len(),
            n == table.entries().len(),
            ks == table.keys(),
            i < object.methods.entries().len(),
            name@ == object.methods.keys()[i as int],
            keys_of(object@.methods[object.methods.keys()[i as int]]) == ks,
            ids == iface_method_ids(
                service@.config.object_manager_path,
                object@,
                object.methods.keys()[i as int],
            ),
            valid_identifier(IdentifierClass::NodeKind, "dbus-method"@),
            forall|q: int| 0 <= q < ks.len() ==> #[trigger] ks[q] == table.entries()[q].0@,
            j <= n,
            all_valid(ids.take(j as int)),
            node_views(out@) == base + nodes_of_kind("dbus-method"@, ids.take(j as int)),
        decreases n - j,
    {
        let method = table.key_at(j);
        assert(method@ == ks[j as int]);
        let local = method_node_local(service, object, name.as_str(), method.as_str());
        assert(local@ == ids[j as int]);
        assert(ids.take(j + 1) =~= ids.take(j as int).push(ids[j as int]));
        match push_node(out, DBUS_METHOD_KIND, local.as_str()) {
            Ok(()) => {
                proof {
                    lemma_valid_concat(ids.take(j as int), seq![ids[j as int]]);
                    assert(ids.take(j as int) + seq![ids[j as int]] =~= ids.take(j + 1));
                    assert(nodes_of_kind("dbus-method"@, ids.take(j + 1)) =~= nodes_of_kind(
                        "dbus-method"@,
                        ids.take(j as int),
                    ).push(NodeIdView { kind: "dbus-method"@, local: local@ }));
                }
            },
            Err(e) => {
                assert(some_invalid_error(ids, e));
                proof {
                    lemma_invalid_not_valid(ids, e);
                }
                return Err(e);
            },
        }
        j += 1;
    }
    assert(ids.take(n as int) =~= ids);
    Ok(())
}

/// Pushes the nodes of the methods of an object.
fn push_object_method_nodes(
    out: &mut Vec<NodeId>,
    service: &ServiceSnapshot,
    object: &ObjectSnapshot,
) -> (r: Result<()>)
    ensures
        ({
            let ids = object_method_ids(service@.config.object_manager_path, object@);
            &&& all_valid(ids) <==> r is Ok
            &&& r is Ok ==> node_views(final(out)@) == node_views(old(out)@) + nodes_of_kind(
                "dbus-method"@,
                ids,
            )
            &&& r matches Err(e) ==> some_invalid_error(ids, e)
        }),
{
    let n = object.methods.len();
    let ghost ks = object.methods.keys();
    proof {
        lemma_method_ifaces_keys(object.methods);
    }
    let ghost parts = keys_of(object@.methods).map_values(
        |i: Seq<char>| iface_method_ids(service@.config.object_manager_path, object@, i),
    );
    let ghost base = node_views(out@);
    let mut i: usize = 0;
    assert(parts.take(0) =~= Seq::<Seq<Seq<char>>>::empty());
    assert(base + nodes_of_kind("dbus-method"@, Seq::empty()) =~= base);
    while i < n
        invariant
            n == ks.len(),
            n == object.methods.entries().len(),
            sorted_by_key(object.methods.entries()),
            ks == object.methods.keys(),
            keys_of(object@.methods) == ks,
            parts == keys_of(object@.methods).map_values(
                |i: Seq<char>| iface_method_ids(service@.config.object_manager_path, object@, i),
            ),
            i <= n,
            all_valid(concat_all(parts.take(i as int))),
            node_views(out@) == base + nodes_of_kind("dbus-method"@, concat_all(parts.take(i as int))),
        decreases n - i,
    {
        proof {
            lemma_runs_step("dbus-method"@, parts, i as int, base);
        }
        assert(parts[i as int] == iface_method_ids(
            service@.config.object_manager_path,
            object@,
            object.methods.keys()[i as int],
        ));
        match push_iface_method_nodes(out, service, object, i) {
            Ok(()) => {},
            Err(e) => {
                assert(some_invalid_error(concat_all(parts), e));
                return Err(e);
            },
        }
        i += 1;
    }
    assert(parts.take(n as int) =~= parts);
    Ok(())
}

/// Pushes the nodes of the objects of a service.
fn push_service_object_nodes(out: &mut Vec<NodeId>, service: &ServiceSnapshot) -> (r: Result<()>)
    ensures
        ({
            let ids = service_object_ids(service@);
            &&& all_valid(ids) <==> r is Ok
            &&& r is Ok ==> node_views(final(out)@) == node_views(old(out)@) + nodes_of_kind(
                "dbus-object"@,
                ids,
            )
            &&& r matches Err(e) ==> some_invalid_error(ids, e)
        }),
{
    proof {
        lemma_dbus_names();
    }
    let ghost sv = service@;
    let n = service.objects.len();
    let ghost ks = service.objects.keys();
    proof {
        lemma_objects_keys(service.objects);
    }
    let ghost ids = service_object_ids(sv);
    let ghost base = node_views(out@);
    let mut j: usize = 0;
    assert(ids.take(0) =~= Seq::<Seq<char>>::empty());
    assert(base + nodes_of_kind("dbus-object"@, Seq::empty()) =~= base);
    while j < n
        invariant
            n == ks.len(),
            n == service.objects.entries().len(),
            ks == service.objects.keys(),
            keys_of(sv.objects) == ks,
            sv == service@,
            ids == service_object_ids(sv),
            valid_identifier(IdentifierClass::NodeKind, "dbus-object"@),
            sorted_by_key(service.objects.entries()),
            j <= n,
            all_valid(ids.take(j as int)),
            node_views(out@) == base + nodes_of_kind("dbus-object"@, ids.take(j as int)),
        decreases n - j,
    {
        let object = service.objects.value_at(j);
        proof {
            lemma_objects_keys(service.objects);
        }
        assert(objects_view(service.objects).contains_key(ks[j as int]));
        let local = object_node_local(service, object);
        assert(local@ == ids[j as int]);
        assert(ids.take(j + 1) =~= ids.take(j as int).push(ids[j as int]));
        match push_node(out, DBUS_OBJECT_KIND, local.as_str()) {
            Ok(()) => {
                proof {
                    lemma_valid_concat(ids.take(j as int), seq![ids[j as int]]);
                    assert(ids.take(j as int) + seq![ids[j as int]] =~= ids.take(j + 1));
                    assert(nodes_of_kind("dbus-object"@, ids.take(j + 1)) =~= nodes_of_kind(
                        "dbus-object"@,
                        ids.take(j as int),
                    ).push(NodeIdView { kind: "dbus-object"@, local: local@ }));
                }
            },
            Err(e) => {
                assert(some_invalid_error(ids, e));
                return Err(e);
            },
        }
        j += 1;
    }
    assert(ids.take(n as int) =~= ids);
    Ok(())
}

/// Pushes the nodes of the methods of a service's objects.
fn push_service_method_nodes(out: &mut Vec<NodeId>, service: &ServiceSnapshot) -> (r: Result<()>)
    ensures
        ({
            let ids = service_method_ids(service@);
            &&& all_valid(ids) <==> r is Ok
            &&& r is Ok ==> node_views(final(out)@) == node_views(old(out)@) + nodes_of_kind(
                "dbus-method"@,
                ids,
            )
            &&& r matches Err(e) ==> some_invalid_error(ids, e)
        }),
{
    let n = service.objects.len();
    let ghost ks = service.objects.keys();
    proof {
        lemma_objects_keys(service.objects);
    }
    let ghost parts = keys_of(service@.objects).map_values(
        |p: Seq<char>| object_method_ids(service@.config.object_manager_path, service@.objects[p]),
    );
    let ghost base = node_views(out@);
    let mut i: usize = 0;
    assert(parts.take(0) =~= Seq::<Seq<Seq<char>>>::empty());
    assert(base + nodes_of_kind("dbus-method"@, Seq::empty()) =~= base);
    while i < n
        invariant
            n == ks.len(),
            n == service.objects.entries().len(),
            ks == service.objects.keys(),
            keys_of(service@.objects) == ks,
            parts == keys_of(service@.objects).map_values(
                |p: Seq<char>| object_method_ids(service@.config.object_manager_path, service@.objects[p]),
            ),
            sorted_by_key(service.objects.entries()),
            i <= n,
            all_valid(concat_all(parts.take(i as int))),
            node_views(out@) == base + nodes_of_kind("dbus-method"@, concat_all(parts.take(i as int))),
        decreases n - i,
    {
        let object = service.objects.value_at(i);
        proof {
            lemma_objects_keys(service.objects);
        }
        assert(objects_view(service.objects).contains_key(ks[i as int]));
        proof {
            lemma_runs_step("dbus-method"@, parts, i as int, base);
        }
        assert(parts[i as int] == object_method_ids(service@.config.object_manager_path, object@));
        match push_object_method_nodes(out, service, object) {
            Ok(()) => {},
            Err(e) => {
                assert(some_invalid_error(concat_all(parts), e));
                return Err(e);
            },
        }
        i += 1;
    }
    assert(parts.take(n as int) =~= parts);
    Ok(())
}

impl DbusState {
    /// The bus nodes: `session`, then `system`, each when some service is
    /// configured on it.
    fn bus_nodes(&self) -> (r: Vec<NodeId>)
        ensures
            node_views(r@) == nodes_of_kind("dbus"@, bus_names(services_of(*self))),
    {
        proof {
            lemma_dbus_names();
        }
        let mut out: Vec<NodeId> = Vec::new();
        if self.services_on_bus(BusKind::Session, false).len() > 0 {
            out.push(known_node(DBUS_SERVICE_KIND, "session"));
        }
        if self.services_on_bus(BusKind::System, false).len() > 0 {
            out.push(known_node(DBUS_SERVICE_KIND, "system"));
        }
        assert(node_views(out@) =~= nodes_of_kind("dbus"@, bus_names(services_of(*self))));
        out
    }

    /// The nodes of all objects, or of all methods, service by service.
    fn object_or_method_nodes(&self, methods: bool) -> (r: Result<Vec<NodeId>>)
        ensures
            ({
                let ids = if methods {
                    all_method_ids(services_of(*self))
                } else {
                    all_object_ids(services_of(*self))
                };
                let kind = if methods {
                    "dbus-method"@
                } else {
                    "dbus-object"@
                };
                &&& all_valid(ids) <==> r is Ok
                &&& r matches Ok(v) ==> node_views(v@) == nodes_of_kind(kind, ids)
                &&& r matches Err(e) ==> some_invalid_error(ids, e)
            }),
    {
        let n = self.services.len();
        let ghost ks = self.services.keys();
        proof {
            lemma_services_keys(self.services);
        }
        let ghost parts = if methods {
            keys_of(services_of(*self)).map_values(|k: Seq<char>| service_method_ids(services_of(*self)[k]))
        } else {
            keys_of(services_of(*self)).map_values(|k: Seq<char>| service_object_ids(services_of(*self)[k]))
        };
        let ghost kind = if methods {
            "dbus-method"@
        } else {
            "dbus-object"@
        };
        let mut out: Vec<NodeId> = Vec::new();
        let ghost base = node_views(out@);
        assert(base =~= Seq::<NodeIdView>::empty());
        let mut i: usize = 0;
        assert(parts.take(0) =~= Seq::<Seq<Seq<char>>>::empty());
        assert(base + nodes_of_kind(kind, Seq::empty()) =~= base);
        while i < n
            invariant
                n == ks.len(),
                n == self.services.entries().len(),
                ks == self.services.keys(),
                keys_of(services_of(*self)) == ks,
                base == Seq::<NodeIdView>::empty(),
                parts == if methods {
                    keys_of(services_of(*self)).map_values(|k: Seq<char>| service_method_ids(services_of(*self)[k]))
                } else {
                    keys_of(services_of(*self)).map_values(|k: Seq<char>| service_object_ids(services_of(*self)[k]))
                },
                kind == if methods {
                    "dbus-method"@
                } else {
                    "dbus-object"@
                },
                sorted_by_key(self.services.entries()),
                i <= n,
                all_valid(concat_all(parts.take(i as int))),
                node_views(out@) == base + nodes_of_kind(kind, concat_all(parts.take(i as int))),
            decreases n - i,
        {
            let service = self.services.value_at(i);
            proof {
                lemma_services_keys(self.services);
            }
            assert(services_view(self.services).contains_key(ks[i as int]));
            proof {
                lemma_runs_step(kind, parts, i as int, base);
            }
            let r = if methods {
                assert(parts[i as int] == service_method_ids(service@));
                push_service_method_nodes(&mut out, service)
            } else {
                assert(parts[i as int] == service_object_ids(service@));
                push_service_object_nodes(&mut out, service)
            };
            match r {
                Ok(()) => {},
                Err(e) => {
                    assert(some_invalid_error(concat_all(parts), e));
                    return Err(e);
                },
            }
            i += 1;
        }
        assert(parts.take(n as int) =~= parts);
        assert(base + nodes_of_kind(kind, concat_all(parts)) =~= nodes_of_kind(kind, concat_all(parts)));
        Ok(out)
    }

    /// The nodes of a kind, sorted. Listing fails on a local id that is not
    /// a valid node id.
    pub fn nodes(&self, kind: &NodeKind) -> (r: Result<Vec<NodeId>>)
        ensures
            kind@ == "dbus"@ ==> (r matches Ok(v) && node_views(v@) == nodes_of_kind(
                "dbus"@,
                bus_names(services_of(*self)),
            )),
            kind@ == "dbus-object"@ ==> ({
                let ids = all_object_ids(services_of(*self));
                &&& all_valid(ids) <==> r is Ok
                &&& r matches Ok(v) ==> node_views(v@).to_multiset() == nodes_of_kind(
                    "dbus-object"@,
                    ids,
                ).to_multiset() && nodes_sorted(node_views(v@))
                &&& r matches Err(e) ==> some_invalid_error(ids, e)
            }),
            kind@ == "dbus-method"@ ==> ({
                let ids = all_method_ids(services_of(*self));
                &&& all_valid(ids) <==> r is Ok
                &&& r matches Ok(v) ==> node_views(v@).to_multiset() == nodes_of_kind(
                    "dbus-method"@,
                    ids,
                ).to_multiset() && nodes_sorted(node_views(v@))
                &&& r matches Err(e) ==> some_invalid_error(ids, e)
            }),
            kind@ != "dbus"@ && kind@ != "dbus-object"@ && kind@ != "dbus-method"@ ==> (r matches Ok(
                v,
            ) && v@.len() == 0),
    {
        proof {
            lemma_dbus_names();
        }
        let k = kind.as_str();
        if text_eq(k, DBUS_SERVICE_KIND) {
            Ok(self.bus_nodes())
        } else if text_eq(k, DBUS_OBJECT_KIND) {
            match self.object_or_method_nodes(false) {
                Ok(v) => Ok(sort_nodes(v)),
                Err(e) => Err(e),
            }
        } else if text_eq(k, DBUS_METHOD_KIND) {
            match self.object_or_method_nodes(true) {
                Ok(v) => Ok(sort_nodes(v)),
                Err(e) => Err(e),
            }
        } else {
            Ok(Vec::new())
        }
    }

    /// The relations of a node, `None` when it does not exist.
    fn node_relations(&self, node: &NodeId) -> (r: Option<RelationMap>)
        ensures
            rels_option(r) == node_relations_spec(services_of(*self), node@),
    {
        match self.contains_node(node) {
            Ok(true) => {
                let m: RelationMap = TextMap::new();
                assert(relation_models(m) =~= Map::<Seq<char>, Seq<NodeIdView>>::empty());
                Some(m)
            },
            _ => None,
        }
    }

    /// The relation names of a node, in order.
    pub fn relations(&self, source: &NodeId) -> (r: Result<Vec<RelationName>>)
        ensures
            relations_result(node_relations_spec(services_of(*self), source@), source@, r),
    {
        answer_relations(self.node_relations(source), source)
    }

    /// The targets of a node's relation.
    pub fn targets(&self, source: &NodeId, relation: &RelationName) -> (r: Result<Vec<NodeId>>)
        ensures
            targets_result(node_relations_spec(services_of(*self), source@), source@, relation@, r),
    {
        answer_targets(self.node_relations(source), source, relation)
    }
}

/// A key names a property only on an object that exists.
proof fn lemma_property_entry_needs_object(
    services: Map<Seq<char>, ServiceView>,
    node: NodeIdView,
    key: Seq<char>,
)
    ensures
        object_entry_spec(services, node.local) is None ==> property_entry_spec(services, node, key) is None,
{
    reveal(property_entry_spec);
}

/// Whether two maps have the same keys.
fn same_text_keys<V>(a: &TextMap<String, V>, b: &TextMap<String, V>) -> (r: bool)
    ensures
        r == (a.keys() == b.keys()),
{
    let n = a.len();
    let m = b.len();
    if n != m {
        assert(a.keys().len() != b.keys().len());
        return false;
    }
    let mut i: usize = 0;
    while i < n
        invariant
            n == a.entries().len(),
            m == b.entries().len(),
            n == m,
            i <= n,
            forall|j: int| 0 <= j < i ==> a.keys()[j] == b.keys()[j],
        decreases n - i,
    {
        if !text_eq(a.key_at(i).as_str(), b.key_at(i).as_str()) {
            assert(a.keys()[i as int] != b.keys()[i as int]);
            return false;
        }
        i += 1;
    }
    assert(a.keys() =~= b.keys());
    true
}

/// Whether two runs of texts are equal.
fn same_texts(a: &Vec<String>, b: &Vec<String>) -> (r: bool)
    ensures
        r == (texts_of(a@) == texts_of(b@)),
{
    if a.len() != b.len() {
        assert(texts_of(a@).len() != texts_of(b@).len());
        return false;
    }
    let mut i: usize = 0;
    while i < a.len()
        invariant
            i <= a.len(),
            a.len() == b.len(),
            forall|j: int| 0 <= j < i ==> a@[j]@ == b@[j]@,
        decreases a.len() - i,
    {
        if !text_eq(a[i].as_str(), b[i].as_str()) {
            assert(texts_of(a@)[i as int] != texts_of(b@)[i as int]);
            return false;
        }
        i += 1;
    }
    assert(texts_of(a@) =~= texts_of(b@));
    true
}

fn property_equal(a: &DbusPropertySnapshot, b: &DbusPropertySnapshot) -> (r: bool)
    ensures
        r == (view_property(*a) == view_property(*b)),
{
    a.value.same_as(&b.value) && a.writable == b.writable
}

fn method_equal(a: &DbusMethodSnapshot, b: &DbusMethodSnapshot) -> (r: bool)
    ensures
        r == (view_method(*a) == view_method(*b)),
{
    same_texts(&a.input_signature, &b.input_signature)
}

/// Whether two tables hold the same entries, by view.
fn props_equal(a: &TextMap<String, DbusPropertySnapshot>, b: &TextMap<String, DbusPropertySnapshot>) -> (r: bool)
    ensures
        r == (props_view(*a) == props_view(*b)),
{
    let n = a.len();
    let m = b.len();
    proof {
        lemma_props_keys(*a);
        lemma_props_keys(*b);
    }
    if !same_text_keys(a, b) {
        return false;
    }
    let mut i: usize = 0;
    while i < n
        invariant
            n == a.entries().len(),
            m == b.entries().len(),
            sorted_by_key(a.entries()),
            sorted_by_key(b.entries()),
            a.keys() == b.keys(),
            i <= n,
            forall|j: int| 0 <= j < i ==> view_property(#[trigger] a.entries()[j].1) == view_property(b.entries()[j].1),
        decreases n - i,
    {
        proof {
            lemma_props_keys(*a);
            lemma_props_keys(*b);
        }
        if !property_equal(a.value_at(i), b.value_at(i)) {
            proof {
                assert(props_view(*a).contains_key(a.keys()[i as int]));
                assert(props_view(*b).contains_key(b.keys()[i as int]));
            }
            return false;
        }
        i += 1;
    }
    proof {
        lemma_props_keys(*a);
        lemma_props_keys(*b);
        lemma_map_keys_sorted(*a);
        assert forall|k: Seq<char>| #[trigger] props_view(*a).contains_key(k) implies props_view(*b).contains_key(k)
            && props_view(*a)[k] == props_view(*b)[k] by {
            assert(a.keys().to_set().contains(k));
            let j = choose|j: int| 0 <= j < a.keys().len() && a.keys()[j] == k;
            assert(props_view(*a).contains_key(a.keys()[j]));
            assert(props_view(*b).contains_key(b.keys()[j]));
        }
        assert forall|k: Seq<char>| #[trigger] props_view(*b).contains_key(k) implies props_view(*a).contains_key(k) by {
            lemma_map_keys_sorted(*b);
            assert(b.keys().to_set().contains(k));
            let j = choose|j: int| 0 <= j < b.keys().len() && b.keys()[j] == k;
            assert(props_view(*a).contains_key(a.keys()[j]));
        }
        assert(props_view(*a) =~= props_view(*b));
    }
    true
}

/// Whether two tables hold the same entries, by view.
fn methods_equal(a: &TextMap<String, DbusMethodSnapshot>, b: &TextMap<String, DbusMethodSnapshot>) -> (r: bool)
    ensures
        r == (methods_view(*a) == methods_view(*b)),
{
    let n = a.len();
    let m = b.len();
    proof {
        lemma_methods_keys(*a);
        lemma_methods_keys(*b);
    }
    if !same_text_keys(a, b) {
        return false;
    }
    let mut i: usize = 0;
    while i < n
        invariant
            n == a.entries().len(),
            m == b.entries().len(),
            sorted_by_key(a.entries()),
            sorted_by_key(b.entries()),
            a.keys() == b.keys(),
            i <= n,
            forall|j: int| 0 <= j < i ==> view_method(#[trigger] a.entries()[j].1) == view_method(b.entries()[j].1),
        decreases n - i,
    {
        proof {
            lemma_methods_keys(*a);
            lemma_methods_keys(*b);
        }
        if !method_equal(a.value_at(i), b.value_at(i)) {
            proof {
                assert(methods_view(*a).contains_key(a.keys()[i as int]));
                assert(methods_view(*b).contains_key(b.keys()[i as int]));
            }
            return false;
        }
        i += 1;
    }
    proof {
        lemma_methods_keys(*a);
        lemma_methods_keys(*b);
        lemma_map_keys_sorted(*a);
        assert forall|k: Seq<char>| #[trigger] methods_view(*a).contains_key(k) implies methods_view(*b).contains_key(k)
            && methods_view(*a)[k] == methods_view(*b)[k] by {
            assert(a.keys().to_set().contains(k));
            let j = choose|j: int| 0 <= j < a.keys().len() && a.keys()[j] == k;
            assert(methods_view(*a).contains_key(a.keys()[j]));
            assert(methods_view(*b).contains_key(b.keys()[j]));
        }
        assert forall|k: Seq<char>| #[trigger] methods_view(*b).contains_key(k) implies methods_view(*a).contains_key(k) by {
            lemma_map_keys_sorted(*b);
            assert(b.keys().to_set().contains(k));
            let j = choose|j: int| 0 <= j < b.keys().len() && b.keys()[j] == k;
            assert(methods_view(*a).contains_key(a.keys()[j]));
        }
        assert(methods_view(*a) =~= methods_view(*b));
    }
    true
}

/// Whether two tables hold the same entries, by view.
fn interfaces_equal(a: &TextMap<String, TextMap<String, DbusPropertySnapshot>>, b: &TextMap<String, TextMap<String, DbusPropertySnapshot>>) -> (r: bool)
    ensures
        r == (interfaces_view(*a) == interfaces_view(*b)),
{
    let n = a.len();
    let m = b.len();
    proof {
        lemma_ifaces_keys(*a);
        lemma_ifaces_keys(*b);
    }
    if !same_text_keys(a, b) {
        return false;
    }
    let mut i: usize = 0;
    while i < n
        invariant
            n == a.entries().len(),
            m == b.entries().len(),
            sorted_by_key(a.entries()),
            sorted_by_key(b.entries()),
            a.keys() == b.keys(),
            i <= n,
            forall|j: int| 0 <= j < i ==> props_view(#[trigger] a.entries()[j].1) == props_view(b.entries()[j].1),
        decreases n - i,
    {
        proof {
            lemma_ifaces_keys(*a);
            lemma_ifaces_keys(*b);
        }
        if !props_equal(a.value_at(i), b.value_at(i)) {
            proof {
                assert(interfaces_view(*a).contains_key(a.keys()[i as int]));
                assert(interfaces_view(*b).contains_key(b.keys()[i as int]));
            }
            return false;
        }
        i += 1;
    }
    proof {
        lemma_ifaces_keys(*a);
        lemma_ifaces_keys(*b);
        lemma_map_keys_sorted(*a);
        assert forall|k: Seq<char>| #[trigger] interfaces_view(*a).contains_key(k) implies interfaces_view(*b).contains_key(k)
            && interfaces_view(*a)[k] == interfaces_view(*b)[k] by {
            assert(a.keys().to_set().contains(k));
            let j = choose|j: int| 0 <= j < a.keys().len() && a.keys()[j] == k;
            assert(interfaces_view(*a).contains_key(a.keys()[j]));
            assert(interfaces_view(*b).contains_key(b.keys()[j]));
        }
        assert forall|k: Seq<char>| #[trigger] interfaces_view(*b).contains_key(k) implies interfaces_view(*a).contains_key(k) by {
            lemma_map_keys_sorted(*b);
            assert(b.keys().to_set().contains(k));
            let j = choose|j: int| 0 <= j < b.keys().len() && b.keys()[j] == k;
            assert(interfaces_view(*a).contains_key(a.keys()[j]));
        }
        assert(interfaces_view(*a) =~= interfaces_view(*b));
    }
    true
}

/// Whether two tables hold the same entries, by view.
fn method_ifaces_equal(a: &TextMap<String, TextMap<String, DbusMethodSnapshot>>, b: &TextMap<String, TextMap<String, DbusMethodSnapshot>>) -> (r: bool)
    ensures
        r == (method_ifaces_view(*a) == method_ifaces_view(*b)),
{
    let n = a.len();
    let m = b.len();
    proof {
        lemma_method_ifaces_keys(*a);
        lemma_method_ifaces_keys(*b);
    }
    if !same_text_keys(a, b) {
        return false;
    }
    let mut i: usize = 0;
    while i < n
        invariant
            n == a.entries().len(),
            m == b.entries().len(),
            sorted_by_key(a.entries()),
            sorted_by_key(b.entries()),
            a.keys() == b.keys(),
            i <= n,
            forall|j: int| 0 <= j < i ==> methods_view(#[trigger] a.entries()[j].1) == methods_view(b.entries()[j].1),
        decreases n - i,
    {
        proof {
            lemma_method_ifaces_keys(*a);
            lemma_method_ifaces_keys(*b);
        }
        if !methods_equal(a.value_at(i), b.value_at(i)) {
            proof {
                assert(method_ifaces_view(*a).contains_key(a.keys()[i as int]));
                assert(method_ifaces_view(*b).contains_key(b.keys()[i as int]));
            }
            return false;
        }
        i += 1;
    }
    proof {
        lemma_method_ifaces_keys(*a);
        lemma_method_ifaces_keys(*b);
        lemma_map_keys_sorted(*a);
        assert forall|k: Seq<char>| #[trigger] method_ifaces_view(*a).contains_key(k) implies method_ifaces_view(*b).contains_key(k)
            && method_ifaces_view(*a)[k] == method_ifaces_view(*b)[k] by {
            assert(a.keys().to_set().contains(k));
            let j = choose|j: int| 0 <= j < a.keys().len() && a.keys()[j] == k;
            assert(method_ifaces_view(*a).contains_key(a.keys()[j]));
            assert(method_ifaces_view(*b).contains_key(b.keys()[j]));
        }
        assert forall|k: Seq<char>| #[trigger] method_ifaces_view(*b).contains_key(k) implies method_ifaces_view(*a).contains_key(k) by {
            lemma_map_keys_sorted(*b);
            assert(b.keys().to_set().contains(k));
            let j = choose|j: int| 0 <= j < b.keys().len() && b.keys()[j] == k;
            assert(method_ifaces_view(*a).contains_key(a.keys()[j]));
        }
        assert(method_ifaces_view(*a) =~= method_ifaces_view(*b));
    }
    true
}

/// Whether two objects are equal, by view.
fn object_equal(a: &ObjectSnapshot, b: &ObjectSnapshot) -> (r: bool)
    ensures
        r == (a@ == b@),
{
    text_eq(a.service_local_id.as_str(), b.service_local_id.as_str()) && text_eq(
        a.path.as_str(),
        b.path.as_str(),
    ) && interfaces_equal(&a.interfaces, &b.interfaces) && method_ifaces_equal(&a.methods, &b.methods)
}

/// Identifiers checked in order: each a text and the class it must be
/// valid in.
pub open spec fn checks_valid(cs: Seq<(IdentifierClass, Seq<char>)>) -> bool {
    forall|i: int| 0 <= i < cs.len() ==> valid_identifier(#[trigger] cs[i].0, cs[i].1)
}

/// The error for some check of a run that fails.
pub open spec fn some_check_error(cs: Seq<(IdentifierClass, Seq<char>)>, e: GraphError) -> bool {
    exists|i: int|
        0 <= i < cs.len() && !valid_identifier(#[trigger] cs[i].0, cs[i].1) && identifier_error(
            cs[i].0,
            cs[i].1,
            e,
        )
}

pub open spec fn local_checks(ids: Seq<Seq<char>>) -> Seq<(IdentifierClass, Seq<char>)> {
    ids.map_values(|t: Seq<char>| (IdentifierClass::NodeLocalId, t))
}

pub open spec fn key_checks(keys: Seq<Seq<char>>) -> Seq<(IdentifierClass, Seq<char>)> {
    keys.map_values(|t: Seq<char>| (IdentifierClass::PropertyKey, t))
}

proof fn lemma_local_checks(ids: Seq<Seq<char>>)
    ensures
        checks_valid(local_checks(ids)) == all_valid(ids),
        forall|e: GraphError| some_invalid_error(ids, e) ==> #[trigger] some_check_error(local_checks(ids), e),
{
    if all_valid(ids) {
        assert forall|i: int| 0 <= i < local_checks(ids).len() implies valid_identifier(
            #[trigger] local_checks(ids)[i].0,
            local_checks(ids)[i].1,
        ) by {
            assert(valid_identifier(IdentifierClass::NodeLocalId, ids[i]));
        }
    }
    if checks_valid(local_checks(ids)) {
        assert forall|i: int| 0 <= i < ids.len() implies valid_identifier(
            IdentifierClass::NodeLocalId,
            #[trigger] ids[i],
        ) by {
            assert(valid_identifier(local_checks(ids)[i].0, local_checks(ids)[i].1));
        }
    }
    assert forall|e: GraphError| some_invalid_error(ids, e) implies #[trigger] some_check_error(
        local_checks(ids),
        e,
    ) by {
        let i = choose|i: int|
            0 <= i < ids.len() && !valid_identifier(IdentifierClass::NodeLocalId, #[trigger] ids[i])
                && identifier_error(IdentifierClass::NodeLocalId, ids[i], e);
        assert(local_checks(ids)[i] == (IdentifierClass::NodeLocalId, ids[i]));
        assert(!valid_identifier(local_checks(ids)[i].0, local_checks(ids)[i].1));
        assert(identifier_error(local_checks(ids)[i].0, local_checks(ids)[i].1, e));
    }
}

proof fn lemma_key_checks(keys: Seq<Seq<char>>)
    ensures
        checks_valid(key_checks(keys)) == all_keys_valid(keys),
        forall|e: GraphError| some_invalid_key_error(keys, e) ==> #[trigger] some_check_error(key_checks(keys), e),
{
    if all_keys_valid(keys) {
        assert forall|i: int| 0 <= i < key_checks(keys).len() implies valid_identifier(
            #[trigger] key_checks(keys)[i].0,
            key_checks(keys)[i].1,
        ) by {
            assert(valid_identifier(IdentifierClass::PropertyKey, keys[i]));
        }
    }
    if checks_valid(key_checks(keys)) {
        assert forall|i: int| 0 <= i < keys.len() implies valid_identifier(
            IdentifierClass::PropertyKey,
            #[trigger] keys[i],
        ) by {
            assert(valid_identifier(key_checks(keys)[i].0, key_checks(keys)[i].1));
        }
    }
    assert forall|e: GraphError| some_invalid_key_error(keys, e) implies #[trigger] some_check_error(
        key_checks(keys),
        e,
    ) by {
        let i = choose|i: int|
            0 <= i < keys.len() && !valid_identifier(IdentifierClass::PropertyKey, #[trigger] keys[i])
                && identifier_error(IdentifierClass::PropertyKey, keys[i], e);
        assert(key_checks(keys)[i] == (IdentifierClass::PropertyKey, keys[i]));
        assert(!valid_identifier(key_checks(keys)[i].0, key_checks(keys)[i].1));
        assert(identifier_error(key_checks(keys)[i].0, key_checks(keys)[i].1, e));
    }
}

proof fn lemma_checks_concat(a: Seq<(IdentifierClass, Seq<char>)>, b: Seq<(IdentifierClass, Seq<char>)>)
    ensures
        checks_valid(a + b) <==> checks_valid(a) && checks_valid(b),
        forall|e: GraphError| #[trigger] some_check_error(a, e) ==> some_check_error(a + b, e) && !checks_valid(a + b),
        forall|e: GraphError| #[trigger] some_check_error(b, e) ==> some_check_error(a + b, e) && !checks_valid(a + b),
{
    if checks_valid(a + b) {
        assert forall|i: int| 0 <= i < a.len() implies valid_identifier(#[trigger] a[i].0, a[i].1) by {
            assert((a + b)[i] == a[i]);
        }
        assert forall|i: int| 0 <= i < b.len() implies valid_identifier(#[trigger] b[i].0, b[i].1) by {
            assert((a + b)[a.len() + i] == b[i]);
        }
    }
    if checks_valid(a) && checks_valid(b) {
        assert forall|i: int| 0 <= i < (a + b).len() implies valid_identifier(#[trigger] (a + b)[i].0, (a + b)[i].1) by {
            if i < a.len() {
                assert((a + b)[i] == a[i]);
            } else {
                assert((a + b)[i] == b[i - a.len()]);
            }
        }
    }
    assert forall|e: GraphError| #[trigger] some_check_error(a, e) implies some_check_error(a + b, e)
        && !checks_valid(a + b) by {
        let i = choose|i: int|
            0 <= i < a.len() && !valid_identifier(#[trigger] a[i].0, a[i].1) && identifier_error(
                a[i].0,
                a[i].1,
                e,
            );
        assert((a + b)[i] == a[i]);
    }
    assert forall|e: GraphError| #[trigger] some_check_error(b, e) implies some_check_error(a + b, e)
        && !checks_valid(a + b) by {
        let i = choose|i: int|
            0 <= i < b.len() && !valid_identifier(#[trigger] b[i].0, b[i].1) && identifier_error(
                b[i].0,
                b[i].1,
                e,
            );
        assert((a + b)[a.len() + i] == b[i]);
    }
}

/// Whether object `o`, if any, has method `m` on interface `i`.
pub open spec fn has_pair(o: Option<ObjectView>, i: Seq<char>, m: Seq<char>) -> bool {
    match o {
        Some(x) => x.methods.contains_key(i) && x.methods[i].contains_key(m),
        None => false,
    }
}

/// Whether two objects, if any, have the same methods.
pub open spec fn same_pairs(a: Option<ObjectView>, b: Option<ObjectView>) -> bool {
    forall|i: Seq<char>, m: Seq<char>| has_pair(a, i, m) == has_pair(b, i, m)
}

/// The local ids of the methods of interface `i` of `o` among `names`
/// that `n` lacks.
pub open spec fn removed_in(
    manager: Seq<char>,
    o: ObjectView,
    n: ObjectView,
    i: Seq<char>,
    names: Seq<Seq<char>>,
) -> Seq<Seq<char>>
    decreases names.len(),
{
    if names.len() == 0 {
        Seq::empty()
    } else {
        removed_in(manager, o, n, i, names.drop_last()) + if has_pair(Some(n), i, names.last()) {
            Seq::<Seq<char>>::empty()
        } else {
            seq![method_local(manager, o, i, names.last())]
        }
    }
}

/// The local ids of the methods of `o` that `n` lacks.
pub open spec fn removed_pair_ids(manager: Seq<char>, o: ObjectView, n: ObjectView) -> Seq<Seq<char>> {
    concat_all(keys_of(o.methods).map_values(|i: Seq<char>| removed_in(manager, o, n, i, keys_of(o.methods[i]))))
}

/// The change of a method of a new object: changed when the old object had
/// it, else added.
pub open spec fn pair_change(local: Seq<char>, existed: bool) -> ChangeModel {
    if existed {
        ChangeModel::NodeChanged(method_view(local))
    } else {
        ChangeModel::NodeAdded(method_view(local))
    }
}

pub open spec fn new_in(
    manager: Seq<char>,
    n: ObjectView,
    oo: Option<ObjectView>,
    i: Seq<char>,
    names: Seq<Seq<char>>,
) -> Seq<ChangeModel>
    decreases names.len(),
{
    if names.len() == 0 {
        Seq::empty()
    } else {
        new_in(manager, n, oo, i, names.drop_last()) + seq![
            pair_change(method_local(manager, n, i, names.last()), has_pair(oo, i, names.last())),
        ]
    }
}

/// The changes of the methods of a new object, in order.
pub open spec fn new_pair_changes(manager: Seq<char>, n: ObjectView, oo: Option<ObjectView>) -> Seq<ChangeModel> {
    concat_all(keys_of(n.methods).map_values(|i: Seq<char>| new_in(manager, n, oo, i, keys_of(n.methods[i]))))
}

pub open spec fn removed_nodes_of(nodes: Seq<NodeIdView>) -> Seq<ChangeModel> {
    nodes.map_values(|v: NodeIdView| ChangeModel::NodeRemoved(v))
}

/// The changes of an object that is gone: the object, then its methods.
pub open spec fn removed_object_changes(manager: Seq<char>, o: ObjectView) -> Seq<ChangeModel> {
    seq![ChangeModel::NodeRemoved(object_view(object_local(manager, o)))] + removed_nodes_of(
        nodes_of_kind("dbus-method"@, object_method_ids(manager, o)),
    )
}

pub open spec fn removed_object_checks(manager: Seq<char>, o: ObjectView) -> Seq<Seq<char>> {
    seq![object_local(manager, o)] + object_method_ids(manager, o)
}

/// The changes of the objects at `paths` of `old` that `new` lacks.
pub open spec fn removed_objects_changes(old: ServiceView, new: ServiceView, paths: Seq<Seq<char>>) -> Seq<
    ChangeModel,
>
    decreases paths.len(),
{
    if paths.len() == 0 {
        Seq::empty()
    } else {
        removed_objects_changes(old, new, paths.drop_last()) + if new.objects.contains_key(paths.last()) {
            Seq::<ChangeModel>::empty()
        } else {
            removed_object_changes(old.config.object_manager_path, old.objects[paths.last()])
        }
    }
}

pub open spec fn removed_objects_checks(old: ServiceView, new: ServiceView, paths: Seq<Seq<char>>) -> Seq<
    Seq<char>,
>
    decreases paths.len(),
{
    if paths.len() == 0 {
        Seq::empty()
    } else {
        removed_objects_checks(old, new, paths.drop_last()) + if new.objects.contains_key(paths.last()) {
            Seq::<Seq<char>>::empty()
        } else {
            removed_object_checks(old.config.object_manager_path, old.objects[paths.last()])
        }
    }
}

/// The object at `path` of a service, if any.
pub open spec fn object_at(sv: ServiceView, path: Seq<char>) -> Option<ObjectView> {
    if sv.objects.contains_key(path) {
        Some(sv.objects[path])
    } else {
        None
    }
}

/// The properties of the object at `path` of a service, or none.
pub open spec fn props_at(sv: ServiceView, path: Seq<char>) -> Map<Seq<char>, ValueModel> {
    match object_at(sv, path) {
        Some(o) => object_properties_spec(sv.config, o),
        None => Map::empty(),
    }
}

/// The changes of an object node itself: the node when it differs, the
/// kind of methods when its set of methods differs.
pub open spec fn head_changes(nn: NodeIdView, oo: Option<ObjectView>, no: ObjectView) -> Seq<ChangeModel> {
    (if oo != Some(no) {
        seq![
            if oo is None {
                ChangeModel::NodeAdded(nn)
            } else {
                ChangeModel::NodeChanged(nn)
            },
        ]
    } else {
        Seq::<ChangeModel>::empty()
    }) + (if !same_pairs(oo, Some(no)) {
        seq![ChangeModel::NodeKindChanged("dbus-method"@)]
    } else {
        Seq::<ChangeModel>::empty()
    })
}

/// The removals of the methods the old object had and the new one lacks.
pub open spec fn removed_part(manager: Seq<char>, oo: Option<ObjectView>, no: ObjectView) -> Seq<ChangeModel> {
    match oo {
        Some(o) => removed_nodes_of(nodes_of_kind("dbus-method"@, removed_pair_ids(manager, o, no))),
        None => Seq::<ChangeModel>::empty(),
    }
}

/// The changes of the properties that differ.
pub open spec fn props_part(
    nn: NodeIdView,
    a: Map<Seq<char>, ValueModel>,
    b: Map<Seq<char>, ValueModel>,
) -> Seq<ChangeModel> {
    changed_keys_spec(a, b).map_values(|k: Seq<char>| ChangeModel::PropertyChanged(nn, k))
}

/// The changes of the object at a path of the new snapshot: the object
/// itself when it differs, its methods, and its properties that differ.
#[verifier::opaque]
pub open spec fn path_changes(old: ServiceView, new: ServiceView, path: Seq<char>) -> Seq<ChangeModel> {
    let no = new.objects[path];
    let nn = object_view(object_local(new.config.object_manager_path, no));
    let oo = object_at(old, path);
    head_changes(nn, oo, no) + removed_part(old.config.object_manager_path, oo, no) + new_pair_changes(
        new.config.object_manager_path,
        no,
        oo,
    ) + props_part(nn, props_at(old, path), props_at(new, path))
}

/// The identifiers checked while reporting the changes of a path.
#[verifier::opaque]
pub open spec fn path_checks(old: ServiceView, new: ServiceView, path: Seq<char>) -> Seq<
    (IdentifierClass, Seq<char>),
> {
    let no = new.objects[path];
    let oo = object_at(old, path);
    local_checks(seq![object_local(new.config.object_manager_path, no)]) + local_checks(
        match oo {
            Some(o) => removed_pair_ids(old.config.object_manager_path, o, no),
            None => Seq::<Seq<char>>::empty(),
        },
    ) + local_checks(object_method_ids(new.config.object_manager_path, no)) + key_checks(
        match oo {
            Some(o) => object_property_keys(o),
            None => Seq::<Seq<char>>::empty(),
        },
    ) + key_checks(object_property_keys(no))
}

/// The changes that a new snapshot of a service reports.
pub open spec fn snapshot_changes_spec(old: ServiceView, new: ServiceView) -> Seq<ChangeModel> {
    let sn = service_view(bus_text(new.config.bus));
    seq![
        ChangeModel::NodeKindChanged("dbus"@),
        ChangeModel::NodeChanged(sn),
        ChangeModel::PropertyChanged(sn, "active-services"@),
    ] + (if old.objects.dom() != new.objects.dom() {
        seq![ChangeModel::NodeKindChanged("dbus-object"@), ChangeModel::NodeKindChanged("dbus-method"@)]
    } else {
        Seq::<ChangeModel>::empty()
    }) + removed_objects_changes(old, new, keys_of(old.objects)) + concat_all(
        keys_of(new.objects).map_values(|p: Seq<char>| path_changes(old, new, p)),
    )
}

/// The identifiers checked while reporting a new snapshot, in order.
pub open spec fn snapshot_checks(old: ServiceView, new: ServiceView) -> Seq<(IdentifierClass, Seq<char>)> {
    local_checks(removed_objects_checks(old, new, keys_of(old.objects))) + concat_all(keys_of(new.objects).map_values(|p: Seq<char>| path_checks(old, new, p)))
}

pub open spec fn opt_view(o: Option<&ObjectSnapshot>) -> Option<ObjectView> {
    match o {
        Some(x) => Some(x@),
        None => None,
    }
}

/// Whether `b` has every method of `a`.
fn pairs_within(a: &ObjectSnapshot, b: Option<&ObjectSnapshot>) -> (r: bool)
    ensures
        r == (forall|i: Seq<char>, m: Seq<char>| has_pair(Some(a@), i, m) ==> has_pair(opt_view(b), i, m)),
{
    let n = a.methods.len();
    proof {
        lemma_method_ifaces_keys(a.methods);
        lemma_map_keys_sorted(a.methods);
    }
    let mut i: usize = 0;
    while i < n
        invariant
            n == a.methods.entries().len(),
            sorted_by_key(a.methods.entries()),
            i <= n,
            forall|q: int, y: Seq<char>|
                0 <= q < i && #[trigger] method_ifaces_view(a.methods)[a.methods.keys()[q]].contains_key(y)
                    ==> has_pair(opt_view(b), a.methods.keys()[q], y),
        decreases n - i,
    {
        let iface = a.methods.key_at(i);
        let table = a.methods.value_at(i);
        let m = table.len();
        proof {
            lemma_method_ifaces_keys(a.methods);
            lemma_methods_keys(*table);
        }
        assert(method_ifaces_view(a.methods).contains_key(a.methods.keys()[i as int]));
        assert(iface@ == a.methods.keys()[i as int]);
        assert(method_ifaces_view(a.methods)[a.methods.keys()[i as int]] == methods_view(*table));
        let mut j: usize = 0;
        while j < m
            invariant
                n == a.methods.entries().len(),
                sorted_by_key(a.methods.entries()),
                i < n,
                m == table.entries().len(),
                *table == a.methods.entries()[i as int].1,
                iface@ == a.methods.keys()[i as int],
                method_ifaces_view(a.methods)[a.methods.keys()[i as int]] == methods_view(*table),
                method_ifaces_view(a.methods).contains_key(a.methods.keys()[i as int]),
                sorted_by_key(table.entries()),
                j <= m,
                forall|r: int| 0 <= r < j ==> has_pair(opt_view(b), a.methods.keys()[i as int], #[trigger] table.keys()[r]),
            decreases m - j,
        {
            let name = table.key_at(j);
            proof {
                lemma_methods_keys(*table);
            }
            assert(methods_view(*table).contains_key(table.keys()[j as int]));
            assert(name@ == table.keys()[j as int]);
            let present = match b {
                Some(bo) => match bo.methods.get(iface.as_str()) {
                    Some(bt) => {
                        assert(bo@.methods[iface@] == methods_view(*bt));
                        bt.contains_key(name.as_str())
                    },
                    None => false,
                },
                None => false,
            };
            if !present {
                proof {
                    assert(a@.methods[iface@] == methods_view(*table));
                    assert(has_pair(Some(a@), iface@, name@));
                    assert(!has_pair(opt_view(b), iface@, name@));
                }
                return false;
            }
            j += 1;
        }
        proof {
            lemma_map_keys_sorted(*table);
            assert forall|y: Seq<char>| #[trigger] methods_view(*table).contains_key(y) implies has_pair(
                opt_view(b),
                a.methods.keys()[i as int],
                y,
            ) by {
                assert(table.map().contains_key(y));
                assert(table.keys().to_set().contains(y));
                let r = choose|r: int| 0 <= r < table.keys().len() && table.keys()[r] == y;
                assert(has_pair(opt_view(b), a.methods.keys()[i as int], table.keys()[r]));
            }
        }
        i += 1;
    }
    proof {
        lemma_method_ifaces_keys(a.methods);
        lemma_map_keys_sorted(a.methods);
        assert forall|x: Seq<char>, y: Seq<char>| has_pair(Some(a@), x, y) implies has_pair(opt_view(b), x, y) by {
            assert(a.methods.map().contains_key(x));
            assert(a.methods.keys().to_set().contains(x));
            let q = choose|q: int| 0 <= q < a.methods.keys().len() && a.methods.keys()[q] == x;
            assert(method_ifaces_view(a.methods).contains_key(a.methods.keys()[q]));
            assert(method_ifaces_view(a.methods)[a.methods.keys()[q]].contains_key(y));
        }
    }
    true
}


/// Pushes a removal for each of a run of nodes.
fn push_removals(changes: &mut Vec<GraphChange>, nodes: Vec<NodeId>)
    ensures
        change_models(final(changes)@) == change_models(old(changes)@) + removed_nodes_of(
            node_views(nodes@),
        ),
{
    let ghost base = change_models(changes@);
    let ghost views = node_views(nodes@);
    let mut i: usize = 0;
    assert(views.take(0) =~= Seq::<NodeIdView>::empty());
    assert(base + removed_nodes_of(Seq::empty()) =~= base);
    while i < nodes.len()
        invariant
            i <= nodes.len(),
            views == node_views(nodes@),
            change_models(changes@) == base + removed_nodes_of(views.take(i as int)),
        decreases nodes.len() - i,
    {
        let change = GraphChange::NodeRemoved { node: nodes[i].duplicate() };
        proof {
            lemma_change_models_push(changes@, change);
            assert(removed_nodes_of(views.take(i + 1)) =~= removed_nodes_of(views.take(i as int)).push(
                change@,
            ));
        }
        changes.push(change);
        i += 1;
    }
    assert(views.take(nodes.len() as int) =~= views);
}

/// Pushes the changes of an object that is gone.
fn push_removed_object(
    changes: &mut Vec<GraphChange>,
    service: &ServiceSnapshot,
    object: &ObjectSnapshot,
) -> (r: Result<()>)
    ensures
        ({
            let checks = removed_object_checks(service@.config.object_manager_path, object@);
            &&& all_valid(checks) <==> r is Ok
            &&& r is Ok ==> change_models(final(changes)@) == change_models(old(changes)@)
                + removed_object_changes(service@.config.object_manager_path, object@)
            &&& r matches Err(e) ==> some_invalid_error(checks, e)
        }),
{
    let ghost manager = service@.config.object_manager_path;
    let ghost first = seq![object_local(manager, object@)];
    let ghost ms = object_method_ids(manager, object@);
    assert(first[0] == object_local(manager, object@));
    let ghost base = change_models(changes@);
    let node = match service_object_node(service, object) {
        Ok(n) => n,
        Err(e) => {
            proof {
                lemma_invalid_within(Seq::empty(), first, ms, e);
                assert(Seq::<Seq<char>>::empty() + first + ms =~= first + ms);
                lemma_invalid_not_valid(first + ms, e);
            }
            return Err(e);
        },
    };
    let change = GraphChange::NodeRemoved { node };
    proof {
        lemma_change_models_push(changes@, change);
    }
    changes.push(change);
    let mut nodes: Vec<NodeId> = Vec::new();
    assert(node_views(nodes@) + nodes_of_kind("dbus-method"@, ms) =~= nodes_of_kind("dbus-method"@, ms));
    match push_object_method_nodes(&mut nodes, service, object) {
        Ok(()) => {},
        Err(e) => {
            proof {
                lemma_invalid_within(first, ms, Seq::empty(), e);
                assert(first + ms + Seq::<Seq<char>>::empty() =~= first + ms);
                lemma_invalid_not_valid(first + ms, e);
            }
            return Err(e);
        },
    }
    push_removals(changes, nodes);
    proof {
        lemma_valid_concat(first, ms);
        assert(change_models(changes@) =~= base + removed_object_changes(manager, object@));
    }
    Ok(())
}

proof fn lemma_removed_in_step(
    manager: Seq<char>,
    o: ObjectView,
    n: ObjectView,
    i: Seq<char>,
    names: Seq<Seq<char>>,
    j: int,
)
    requires
        0 <= j < names.len(),
    ensures
        removed_in(manager, o, n, i, names.take(j + 1)) == removed_in(manager, o, n, i, names.take(j))
            + if has_pair(Some(n), i, names[j]) {
            Seq::<Seq<char>>::empty()
        } else {
            seq![method_local(manager, o, i, names[j])]
        },
{
    assert(names.take(j + 1).drop_last() =~= names.take(j));
}

proof fn lemma_removed_in_append(
    manager: Seq<char>,
    o: ObjectView,
    n: ObjectView,
    i: Seq<char>,
    a: Seq<Seq<char>>,
    b: Seq<Seq<char>>,
)
    ensures
        removed_in(manager, o, n, i, a + b) == removed_in(manager, o, n, i, a) + removed_in(
            manager,
            o,
            n,
            i,
            b,
        ),
    decreases b.len(),
{
    if b.len() == 0 {
        assert(a + b =~= a);
        assert(removed_in(manager, o, n, i, a) + removed_in(manager, o, n, i, b) =~= removed_in(
            manager,
            o,
            n,
            i,
            a,
        ));
    } else {
        lemma_removed_in_append(manager, o, n, i, a, b.drop_last());
        assert((a + b).drop_last() =~= a + b.drop_last());
        assert((a + b).last() == b.last());
        assert(removed_in(manager, o, n, i, a + b) =~= removed_in(manager, o, n, i, a) + removed_in(
            manager,
            o,
            n,
            i,
            b,
        ));
    }
}

/// Pushes a removal for each method of interface `i` of `o` that `n` lacks.
fn push_removed_iface(
    changes: &mut Vec<GraphChange>,
    service: &ServiceSnapshot,
    o: &ObjectSnapshot,
    n: &ObjectSnapshot,
    i: usize,
) -> (r: Result<()>)
    requires
        i < o.methods.entries().len(),
        sorted_by_key(o.methods.entries()),
    ensures
        ({
            let iface = o.methods.keys()[i as int];
            let ids = removed_in(
                service@.config.object_manager_path,
                o@,
                n@,
                iface,
                keys_of(o@.methods[iface]),
            );
            &&& all_valid(ids) <==> r is Ok
            &&& r is Ok ==> change_models(final(changes)@) == change_models(old(changes)@)
                + removed_nodes_of(nodes_of_kind("dbus-method"@, ids))
            &&& r matches Err(e) ==> some_invalid_error(ids, e)
        }),
{
    proof {
        lemma_dbus_names();
        lemma_method_ifaces_keys(o.methods);
    }
    let name = o.methods.key_at(i);
    let table = o.methods.value_at(i);
    assert(method_ifaces_view(o.methods).contains_key(o.methods.keys()[i as int]));
    let m = table.len();
    let ghost ks = table.keys();
    proof {
        lemma_methods_keys(*table);
    }
    let ghost manager = service@.config.object_manager_path;
    let ghost iface = o.methods.keys()[i as int];
    assert(keys_of(o@.methods[iface]) == ks);
    let ghost all = removed_in(manager, o@, n@, iface, ks);
    let ghost base = change_models(changes@);
    let mut j: usize = 0;
    assert(ks.take(0) =~= Seq::<Seq<char>>::empty());
    assert(base + removed_nodes_of(nodes_of_kind("dbus-method"@, Seq::empty())) =~= base);
    while j < m
        invariant
            m == ks.len(),
            m == table.entries().len(),
            ks == table.keys(),
            name@ == iface,
            i < o.methods.entries().len(),
            iface == o.methods.keys()[i as int],
            keys_of(o@.methods[iface]) == ks,
            manager == service@.config.object_manager_path,
            all == removed_in(manager, o@, n@, iface, ks),
            forall|q: int| 0 <= q < ks.len() ==> #[trigger] ks[q] == table.entries()[q].0@,
            j <= m,
            all_valid(removed_in(manager, o@, n@, iface, ks.take(j as int))),
            change_models(changes@) == base + removed_nodes_of(
                nodes_of_kind("dbus-method"@, removed_in(manager, o@, n@, iface, ks.take(j as int))),
            ),
        decreases m - j,
    {
        let method = table.key_at(j);
        assert(method@ == ks[j as int]);
        proof {
            lemma_removed_in_step(manager, o@, n@, iface, ks, j as int);
        }
        let present = match n.methods.get(name.as_str()) {
            Some(bt) => {
                assert(n@.methods[iface] == methods_view(*bt));
                bt.contains_key(method.as_str())
            },
            None => false,
        };
        assert(present == has_pair(Some(n@), iface, method@));
        if !present {
            let node = match service_method_node(service, o, name.as_str(), method.as_str()) {
                Ok(node) => node,
                Err(e) => {
                    proof {
                        let prefix = removed_in(manager, o@, n@, iface, ks.take(j as int));
                        assert(ks =~= ks.take(j + 1) + ks.skip(j + 1));
                        lemma_removed_in_append(manager, o@, n@, iface, ks.take(j + 1), ks.skip(j + 1));
                        assert(all[prefix.len() as int] == method_local(manager, o@, iface, method@));
                        assert(some_invalid_error(all, e));
                        lemma_invalid_not_valid(all, e);
                    }
                    return Err(e);
                },
            };
            let change = GraphChange::NodeRemoved { node };
            proof {
                lemma_change_models_push(changes@, change);
                let prefix = removed_in(manager, o@, n@, iface, ks.take(j as int));
                lemma_valid_concat(prefix, seq![method_local(manager, o@, iface, method@)]);
                lemma_nodes_of_kind_concat("dbus-method"@, prefix, seq![method_local(manager, o@, iface, method@)]);
                assert(removed_nodes_of(nodes_of_kind("dbus-method"@, prefix + seq![method_local(manager, o@, iface, method@)]))
                    =~= removed_nodes_of(nodes_of_kind("dbus-method"@, prefix)).push(change@));
            }
            changes.push(change);
        } else {
            assert(removed_in(manager, o@, n@, iface, ks.take(j + 1)) =~= removed_in(
                manager,
                o@,
                n@,
                iface,
                ks.take(j as int),
            ));
        }
        j += 1;
    }
    assert(ks.take(m as int) =~= ks);
    Ok(())
}

/// Pushes a removal for each method of `o` that `n` lacks.
fn push_removed_pairs(
    changes: &mut Vec<GraphChange>,
    service: &ServiceSnapshot,
    o: &ObjectSnapshot,
    n: &ObjectSnapshot,
) -> (r: Result<()>)
    ensures
        ({
            let ids = removed_pair_ids(service@.config.object_manager_path, o@, n@);
            &&& all_valid(ids) <==> r is Ok
            &&& r is Ok ==> change_models(final(changes)@) == change_models(old(changes)@)
                + removed_nodes_of(nodes_of_kind("dbus-method"@, ids))
            &&& r matches Err(e) ==> some_invalid_error(ids, e)
        }),
{
    let count = o.methods.len();
    let ghost ks = o.methods.keys();
    proof {
        lemma_method_ifaces_keys(o.methods);
    }
    let ghost parts = keys_of(o@.methods).map_values(
        |i: Seq<char>| removed_in(service@.config.object_manager_path, o@, n@, i, keys_of(o@.methods[i])),
    );
    let ghost base = change_models(changes@);
    let mut i: usize = 0;
    assert(parts.take(0) =~= Seq::<Seq<Seq<char>>>::empty());
    assert(base + removed_nodes_of(nodes_of_kind("dbus-method"@, concat_all(parts.take(0)))) =~= base);
    while i < count
        invariant
            count == ks.len(),
            count == o.methods.entries().len(),
            sorted_by_key(o.methods.entries()),
            ks == o.methods.keys(),
            keys_of(o@.methods) == ks,
            parts == keys_of(o@.methods).map_values(
                |i: Seq<char>| removed_in(service@.config.object_manager_path, o@, n@, i, keys_of(o@.methods[i])),
            ),
            i <= count,
            all_valid(concat_all(parts.take(i as int))),
            change_models(changes@) == base + removed_nodes_of(
                nodes_of_kind("dbus-method"@, concat_all(parts.take(i as int))),
            ),
        decreases count - i,
    {
        proof {
            lemma_runs_step("dbus-method"@, parts, i as int, Seq::empty());
        }
        let ghost before = change_models(changes@);
        match push_removed_iface(changes, service, o, n, i) {
            Ok(()) => {},
            Err(e) => {
                assert(some_invalid_error(concat_all(parts), e));
                return Err(e);
            },
        }
        proof {
            let prev = concat_all(parts.take(i as int));
            lemma_nodes_of_kind_concat("dbus-method"@, prev, parts[i as int]);
            assert(removed_nodes_of(nodes_of_kind("dbus-method"@, prev + parts[i as int])) =~= removed_nodes_of(
                nodes_of_kind("dbus-method"@, prev),
            ) + removed_nodes_of(nodes_of_kind("dbus-method"@, parts[i as int])));
        }
        i += 1;
    }
    assert(parts.take(count as int) =~= parts);
    Ok(())
}

proof fn lemma_new_in_step(
    manager: Seq<char>,
    n: ObjectView,
    oo: Option<ObjectView>,
    i: Seq<char>,
    names: Seq<Seq<char>>,
    j: int,
)
    requires
        0 <= j < names.len(),
    ensures
        new_in(manager, n, oo, i, names.take(j + 1)) == new_in(manager, n, oo, i, names.take(j)) + seq![
            pair_change(method_local(manager, n, i, names[j]), has_pair(oo, i, names[j])),
        ],
{
    assert(names.take(j + 1).drop_last() =~= names.take(j));
}

/// Pushes the change of each method of interface `i` of a new object.
fn push_new_iface(
    changes: &mut Vec<GraphChange>,
    service: &ServiceSnapshot,
    n: &ObjectSnapshot,
    oo: Option<&ObjectSnapshot>,
    i: usize,
) -> (r: Result<()>)
    requires
        i < n.methods.entries().len(),
        sorted_by_key(n.methods.entries()),
    ensures
        ({
            let iface = n.methods.keys()[i as int];
            let ids = iface_method_ids(service@.config.object_manager_path, n@, iface);
            &&& all_valid(ids) <==> r is Ok
            &&& r is Ok ==> change_models(final(changes)@) == change_models(old(changes)@) + new_in(
                service@.config.object_manager_path,
                n@,
                opt_view(oo),
                iface,
                keys_of(n@.methods[iface]),
            )
            &&& r matches Err(e) ==> some_invalid_error(ids, e)
        }),
{
    proof {
        lemma_dbus_names();
        lemma_method_ifaces_keys(n.methods);
    }
    let name = n.methods.key_at(i);
    let table = n.methods.value_at(i);
    assert(method_ifaces_view(n.methods).contains_key(n.methods.keys()[i as int]));
    let m = table.len();
    let ghost ks = table.keys();
    proof {
        lemma_methods_keys(*table);
    }
    let ghost manager = service@.config.object_manager_path;
    let ghost iface = n.methods.keys()[i as int];
    let ghost oov = opt_view(oo);
    assert(keys_of(n@.methods[iface]) == ks);
    let ghost ids = iface_method_ids(manager, n@, iface);
    let ghost base = change_models(changes@);
    let mut j: usize = 0;
    assert(ks.take(0) =~= Seq::<Seq<char>>::empty());
    assert(ids.take(0) =~= Seq::<Seq<char>>::empty());
    assert(base + new_in(manager, n@, oov, iface, ks.take(0)) =~= base);
    while j < m
        invariant
            m == ks.len(),
            m == table.entries().len(),
            ks == table.keys(),
            name@ == iface,
            i < n.methods.entries().len(),
            iface == n.methods.keys()[i as int],
            manager == service@.config.object_manager_path,
            oov == opt_view(oo),
            ids == iface_method_ids(manager, n@, iface),
            keys_of(n@.methods[iface]) == ks,
            forall|q: int| 0 <= q < ks.len() ==> #[trigger] ks[q] == table.entries()[q].0@,
            j <= m,
            all_valid(ids.take(j as int)),
            change_models(changes@) == base + new_in(manager, n@, oov, iface, ks.take(j as int)),
        decreases m - j,
    {
        let method = table.key_at(j);
        assert(method@ == ks[j as int]);
        proof {
            lemma_new_in_step(manager, n@, oov, iface, ks, j as int);
        }
        assert(ids[j as int] == method_local(manager, n@, iface, method@));
        let node = match service_method_node(service, n, name.as_str(), method.as_str()) {
            Ok(node) => node,
            Err(e) => {
                assert(some_invalid_error(ids, e));
                proof {
                    lemma_invalid_not_valid(ids, e);
                }
                return Err(e);
            },
        };
        let existed = match oo {
            Some(old_object) => match old_object.methods.get(name.as_str()) {
                Some(bt) => {
                    assert(old_object@.methods[iface] == methods_view(*bt));
                    bt.contains_key(method.as_str())
                },
                None => false,
            },
            None => false,
        };
        assert(existed == has_pair(oov, iface, method@));
        let change = if existed {
            GraphChange::NodeChanged { node }
        } else {
            GraphChange::NodeAdded { node }
        };
        proof {
            lemma_change_models_push(changes@, change);
            assert(ids.take(j + 1) =~= ids.take(j as int).push(ids[j as int]));
            lemma_valid_concat(ids.take(j as int), seq![ids[j as int]]);
            assert(ids.take(j as int) + seq![ids[j as int]] =~= ids.take(j + 1));
        }
        changes.push(change);
        j += 1;
    }
    assert(ks.take(m as int) =~= ks);
    assert(ids.take(m as int) =~= ids);
    Ok(())
}

/// Pushes the change of each method of a new object.
fn push_new_pairs(
    changes: &mut Vec<GraphChange>,
    service: &ServiceSnapshot,
    n: &ObjectSnapshot,
    oo: Option<&ObjectSnapshot>,
) -> (r: Result<()>)
    ensures
        ({
            let ids = object_method_ids(service@.config.object_manager_path, n@);
            &&& all_valid(ids) <==> r is Ok
            &&& r is Ok ==> change_models(final(changes)@) == change_models(old(changes)@)
                + new_pair_changes(service@.config.object_manager_path, n@, opt_view(oo))
            &&& r matches Err(e) ==> some_invalid_error(ids, e)
        }),
{
    let count = n.methods.len();
    let ghost ks = n.methods.keys();
    proof {
        lemma_method_ifaces_keys(n.methods);
    }
    let ghost parts = keys_of(n@.methods).map_values(
        |i: Seq<char>| iface_method_ids(service@.config.object_manager_path, n@, i),
    );
    let ghost cparts = keys_of(n@.methods).map_values(
        |i: Seq<char>| new_in(service@.config.object_manager_path, n@, opt_view(oo), i, keys_of(n@.methods[i])),
    );
    let ghost base = change_models(changes@);
    let mut i: usize = 0;
    assert(parts.take(0) =~= Seq::<Seq<Seq<char>>>::empty());
    assert(cparts.take(0) =~= Seq::<Seq<ChangeModel>>::empty());
    assert(base + concat_all(cparts.take(0)) =~= base);
    while i < count
        invariant
            count == ks.len(),
            count == n.methods.entries().len(),
            sorted_by_key(n.methods.entries()),
            ks == n.methods.keys(),
            keys_of(n@.methods) == ks,
            parts == keys_of(n@.methods).map_values(
                |i: Seq<char>| iface_method_ids(service@.config.object_manager_path, n@, i),
            ),
            cparts == keys_of(n@.methods).map_values(
                |i: Seq<char>| new_in(service@.config.object_manager_path, n@, opt_view(oo), i, keys_of(n@.methods[i])),
            ),
            i <= count,
            all_valid(concat_all(parts.take(i as int))),
            change_models(changes@) == base + concat_all(cparts.take(i as int)),
        decreases count - i,
    {
        proof {
            lemma_runs_step("dbus-method"@, parts, i as int, Seq::empty());
            lemma_concat_all_split(cparts, i as int);
        }
        match push_new_iface(changes, service, n, oo, i) {
            Ok(()) => {},
            Err(e) => {
                assert(some_invalid_error(concat_all(parts), e));
                return Err(e);
            },
        }
        i += 1;
    }
    assert(parts.take(count as int) =~= parts);
    assert(cparts.take(count as int) =~= cparts);
    Ok(())
}

/// A check that fails within a run fails the run with more checks around
/// it.
proof fn lemma_check_spreads(
    a: Seq<(IdentifierClass, Seq<char>)>,
    b: Seq<(IdentifierClass, Seq<char>)>,
    c: Seq<(IdentifierClass, Seq<char>)>,
    e: GraphError,
)
    requires
        some_check_error(b, e),
    ensures
        some_check_error(a + b + c, e),
        !checks_valid(a + b + c),
{
    lemma_checks_concat(a, b);
    lemma_checks_concat(a + b, c);
}

/// Pushes a property change for each of a run of keys.
fn push_property_changes(changes: &mut Vec<GraphChange>, node: &NodeId, keys: Vec<PropertyKey>)
    ensures
        change_models(final(changes)@) == change_models(old(changes)@) + keys@.map_values(
            |k: PropertyKey| k@,
        ).map_values(|k: Seq<char>| ChangeModel::PropertyChanged(node@, k)),
{
    let ghost base = change_models(changes@);
    let ghost kv = keys@.map_values(|k: PropertyKey| k@);
    let mut i: usize = 0;
    assert(base + kv.take(0).map_values(|k: Seq<char>| ChangeModel::PropertyChanged(node@, k)) =~= base);
    while i < keys.len()
        invariant
            i <= keys.len(),
            kv == keys@.map_values(|k: PropertyKey| k@),
            change_models(changes@) == base + kv.take(i as int).map_values(
                |k: Seq<char>| ChangeModel::PropertyChanged(node@, k),
            ),
        decreases keys.len() - i,
    {
        let change = GraphChange::PropertyChanged { node: node.duplicate(), key: keys[i].duplicate() };
        proof {
            lemma_change_models_push(changes@, change);
            assert(kv.take(i + 1).map_values(|k: Seq<char>| ChangeModel::PropertyChanged(node@, k))
                =~= kv.take(i as int).map_values(|k: Seq<char>| ChangeModel::PropertyChanged(node@, k)).push(
                change@,
            ));
        }
        changes.push(change);
        i += 1;
    }
    assert(kv.take(keys.len() as int) =~= kv);
}

/// Pushes the changes of an object node itself.
fn push_head(
    changes: &mut Vec<GraphChange>,
    new_node: &NodeId,
    oo: Option<&ObjectSnapshot>,
    no: &ObjectSnapshot,
)
    ensures
        change_models(final(changes)@) == change_models(old(changes)@) + head_changes(
            new_node@,
            opt_view(oo),
            no@,
        ),
{
    proof {
        lemma_dbus_names();
    }
    let ghost base = change_models(changes@);
    let ghost nn = new_node@;
    let differs = match oo {
        Some(o) => !object_equal(o, no),
        None => true,
    };
    if differs {
        let first = match oo {
            Some(_) => GraphChange::NodeChanged { node: new_node.duplicate() },
            None => GraphChange::NodeAdded { node: new_node.duplicate() },
        };
        proof {
            lemma_change_models_push(changes@, first);
        }
        changes.push(first);
    }
    let forward = pairs_within(no, oo);
    let backward = match oo {
        Some(o) => pairs_within(o, Some(no)),
        None => true,
    };
    assert((forward && backward) == same_pairs(opt_view(oo), Some(no@)));
    if !(forward && backward) {
        let first = GraphChange::NodeKindChanged { kind: known_kind(DBUS_METHOD_KIND) };
        proof {
            lemma_change_models_push(changes@, first);
        }
        changes.push(first);
    }
    assert(change_models(changes@) =~= base + head_changes(nn, opt_view(oo), no@));
}

/// Pushes the changes of the object at path `idx` of the new snapshot.
fn push_path_changes(
    changes: &mut Vec<GraphChange>,
    before: &ServiceSnapshot,
    after: &ServiceSnapshot,
    idx: usize,
) -> (r: Result<()>)
    requires
        idx < after.objects.entries().len(),
        sorted_by_key(after.objects.entries()),
    ensures
        ({
            let path = after.objects.keys()[idx as int];
            let checks = path_checks(before@, after@, path);
            &&& checks_valid(checks) <==> r is Ok
            &&& r is Ok ==> change_models(final(changes)@) == change_models(old(changes)@) + path_changes(
                before@,
                after@,
                path,
            )
            &&& r matches Err(e) ==> some_check_error(checks, e)
        }),
{
    proof {
        lemma_dbus_names();
        lemma_objects_keys(after.objects);
    }
    let path = after.objects.key_at(idx);
    let no = after.objects.value_at(idx);
    assert(objects_view(after.objects).contains_key(after.objects.keys()[idx as int]));
    let ghost p = path@;
    assert(p == after.objects.keys()[idx as int]);
    assert(after@.objects[p] == no@);
    let oo = before.objects.get(path.as_str());
    assert(opt_view(oo) == object_at(before@, p));
    let ghost manager = after@.config.object_manager_path;
    let ghost omanager = before@.config.object_manager_path;
    let ghost c1 = local_checks(seq![object_local(manager, no@)]);
    let ghost c2 = local_checks(
        match object_at(before@, p) {
            Some(o) => removed_pair_ids(omanager, o, no@),
            None => Seq::<Seq<char>>::empty(),
        },
    );
    let ghost c3 = local_checks(object_method_ids(manager, no@));
    let ghost c4 = key_checks(
        match object_at(before@, p) {
            Some(o) => object_property_keys(o),
            None => Seq::<Seq<char>>::empty(),
        },
    );
    let ghost c5 = key_checks(object_property_keys(no@));
    proof {
        reveal(path_checks);
        reveal(path_changes);
    }
    assert(path_checks(before@, after@, p) == c1 + c2 + c3 + c4 + c5);
    let ghost base = change_models(changes@);
    let new_node = match service_object_node(after, no) {
        Ok(n) => n,
        Err(e) => {
            proof {
                assert(seq![object_local(manager, no@)][0] == object_local(manager, no@));
                assert(some_invalid_error(seq![object_local(manager, no@)], e));
                lemma_local_checks(seq![object_local(manager, no@)]);
                lemma_check_spreads(Seq::empty(), c1, c2 + c3 + c4 + c5, e);
                assert(Seq::<(IdentifierClass, Seq<char>)>::empty() + c1 + (c2 + c3 + c4 + c5) =~= c1 + c2 + c3 + c4 + c5);
            }
            return Err(e);
        },
    };
    let ghost nn = new_node@;
    push_head(changes, &new_node, oo, no);
    let ghost after_b = change_models(changes@);
    match oo {
        Some(o) => match push_removed_pairs(changes, before, o, no) {
            Ok(()) => {},
            Err(e) => {
                proof {
                    lemma_local_checks(removed_pair_ids(omanager, o@, no@));
                    lemma_local_checks(seq![object_local(manager, no@)]);
                    lemma_check_spreads(c1, c2, c3 + c4 + c5, e);
                    assert(c1 + c2 + (c3 + c4 + c5) =~= c1 + c2 + c3 + c4 + c5);
                }
                return Err(e);
            },
        },
        None => {},
    }
    let ghost after_c = change_models(changes@);
    match push_new_pairs(changes, after, no, oo) {
        Ok(()) => {},
        Err(e) => {
            proof {
                lemma_local_checks(object_method_ids(manager, no@));
                lemma_check_spreads(c1 + c2, c3, c4 + c5, e);
                assert(c1 + c2 + c3 + (c4 + c5) =~= c1 + c2 + c3 + c4 + c5);
            }
            return Err(e);
        },
    }
    let ghost after_d = change_models(changes@);
    let old_props = match oo {
        Some(o) => match object_properties(before, o) {
            Ok(m) => m,
            Err(e) => {
                proof {
                    lemma_key_checks(object_property_keys(o@));
                    lemma_check_spreads(c1 + c2 + c3, c4, c5, e);
                }
                return Err(e);
            },
        },
        None => {
            let m: PropertyMap = TextMap::new();
            assert(property_models(m) =~= Map::<Seq<char>, ValueModel>::empty());
            m
        },
    };
    let new_props = match object_properties(after, no) {
        Ok(m) => m,
        Err(e) => {
            proof {
                lemma_key_checks(object_property_keys(no@));
                lemma_check_spreads(c1 + c2 + c3 + c4, c5, Seq::empty(), e);
                assert(c1 + c2 + c3 + c4 + c5 + Seq::<(IdentifierClass, Seq<char>)>::empty() =~= c1 + c2 + c3 + c4 + c5);
            }
            return Err(e);
        },
    };
    assert(property_models(old_props) == props_at(before@, p));
    assert(property_models(new_props) == props_at(after@, p));
    let keys = changed_keys(&old_props, &new_props);
    push_property_changes(changes, &new_node, keys);
    let ghost after_e = change_models(changes@);
    assert(after_e == after_d + props_part(nn, props_at(before@, p), props_at(after@, p)));
    assert(after_c == after_b + removed_part(omanager, object_at(before@, p), no@));
    proof {
        lemma_local_checks(seq![object_local(manager, no@)]);
        lemma_local_checks(object_method_ids(manager, no@));
        match object_at(before@, p) {
            Some(o) => {
                lemma_local_checks(removed_pair_ids(omanager, o, no@));
                lemma_key_checks(object_property_keys(o));
            },
            None => {
                lemma_local_checks(Seq::<Seq<char>>::empty());
                lemma_key_checks(Seq::<Seq<char>>::empty());
            },
        }
        lemma_key_checks(object_property_keys(no@));
        lemma_checks_concat(c1, c2);
        lemma_checks_concat(c1 + c2, c3);
        lemma_checks_concat(c1 + c2 + c3, c4);
        lemma_checks_concat(c1 + c2 + c3 + c4, c5);
        assert(nn == object_view(object_local(manager, no@)));
        assert(change_models(changes@) == base + path_changes(before@, after@, p));
    }
    Ok(())
}

proof fn lemma_removed_objects_step(old: ServiceView, new: ServiceView, paths: Seq<Seq<char>>, i: int)
    requires
        0 <= i < paths.len(),
    ensures
        removed_objects_changes(old, new, paths.take(i + 1)) == removed_objects_changes(
            old,
            new,
            paths.take(i),
        ) + if new.objects.contains_key(paths[i]) {
            Seq::<ChangeModel>::empty()
        } else {
            removed_object_changes(old.config.object_manager_path, old.objects[paths[i]])
        },
        removed_objects_checks(old, new, paths.take(i + 1)) == removed_objects_checks(
            old,
            new,
            paths.take(i),
        ) + if new.objects.contains_key(paths[i]) {
            Seq::<Seq<char>>::empty()
        } else {
            removed_object_checks(old.config.object_manager_path, old.objects[paths[i]])
        },
{
    assert(paths.take(i + 1).drop_last() =~= paths.take(i));
}

proof fn lemma_removed_checks_append(old: ServiceView, new: ServiceView, a: Seq<Seq<char>>, b: Seq<Seq<char>>)
    ensures
        removed_objects_checks(old, new, a + b) == removed_objects_checks(old, new, a)
            + removed_objects_checks(old, new, b),
    decreases b.len(),
{
    if b.len() == 0 {
        assert(a + b =~= a);
        assert(removed_objects_checks(old, new, a) + removed_objects_checks(old, new, b)
            =~= removed_objects_checks(old, new, a));
    } else {
        lemma_removed_checks_append(old, new, a, b.drop_last());
        assert((a + b).drop_last() =~= a + b.drop_last());
        assert((a + b).last() == b.last());
        assert(removed_objects_checks(old, new, a + b) =~= removed_objects_checks(old, new, a)
            + removed_objects_checks(old, new, b));
    }
}

/// Pushes the changes of the objects of `before` that `after` lacks.
fn push_removed_objects(
    changes: &mut Vec<GraphChange>,
    before: &ServiceSnapshot,
    after: &ServiceSnapshot,
) -> (r: Result<()>)
    ensures
        ({
            let checks = removed_objects_checks(before@, after@, keys_of(before@.objects));
            &&& all_valid(checks) <==> r is Ok
            &&& r is Ok ==> change_models(final(changes)@) == change_models(old(changes)@)
                + removed_objects_changes(before@, after@, keys_of(before@.objects))
            &&& r matches Err(e) ==> some_invalid_error(checks, e)
        }),
{
    let n = before.objects.len();
    let ghost ks = before.objects.keys();
    proof {
        lemma_objects_keys(before.objects);
    }
    let ghost base = change_models(changes@);
    let mut i: usize = 0;
    assert(ks.take(0) =~= Seq::<Seq<char>>::empty());
    assert(base + removed_objects_changes(before@, after@, ks.take(0)) =~= base);
    while i < n
        invariant
            n == ks.len(),
            n == before.objects.entries().len(),
            sorted_by_key(before.objects.entries()),
            ks == before.objects.keys(),
            keys_of(before@.objects) == ks,
            i <= n,
            all_valid(removed_objects_checks(before@, after@, ks.take(i as int))),
            change_models(changes@) == base + removed_objects_changes(before@, after@, ks.take(i as int)),
        decreases n - i,
    {
        let path = before.objects.key_at(i);
        let object = before.objects.value_at(i);
        proof {
            lemma_objects_keys(before.objects);
            lemma_removed_objects_step(before@, after@, ks, i as int);
        }
        assert(objects_view(before.objects).contains_key(ks[i as int]));
        assert(path@ == ks[i as int]);
        assert(before@.objects[ks[i as int]] == object@);
        if !after.objects.contains_key(path.as_str()) {
            match push_removed_object(changes, before, object) {
                Ok(()) => {
                    proof {
                        lemma_valid_concat(
                            removed_objects_checks(before@, after@, ks.take(i as int)),
                            removed_object_checks(before@.config.object_manager_path, object@),
                        );
                    }
                },
                Err(e) => {
                    proof {
                        let prefix = removed_objects_checks(before@, after@, ks.take(i as int));
                        let cur = removed_object_checks(before@.config.object_manager_path, object@);
                        let rest = removed_objects_checks(before@, after@, ks.skip(i + 1));
                        assert(ks =~= ks.take(i + 1) + ks.skip(i + 1));
                        lemma_removed_checks_append(before@, after@, ks.take(i + 1), ks.skip(i + 1));
                        lemma_invalid_within(prefix, cur, rest, e);
                        lemma_invalid_not_valid(prefix + cur + rest, e);
                    }
                    return Err(e);
                },
            }
        } else {
            assert(removed_objects_checks(before@, after@, ks.take(i + 1)) =~= removed_objects_checks(
                before@,
                after@,
                ks.take(i as int),
            ));
        }
        i += 1;
    }
    assert(ks.take(n as int) =~= ks);
    Ok(())
}

/// The changes that a new snapshot of a service reports; fails on an
/// identifier that is not valid.
fn service_snapshot_changes(before: &ServiceSnapshot, after: &ServiceSnapshot) -> (r: Result<
    Vec<GraphChange>,
>)
    ensures
        ({
            let checks = snapshot_checks(before@, after@);
            &&& checks_valid(checks) <==> r is Ok
            &&& r matches Ok(v) ==> change_models(v@) == snapshot_changes_spec(before@, after@)
            &&& r matches Err(e) ==> some_check_error(checks, e)
        }),
{
    proof {
        lemma_dbus_names();
        reveal_strlit("active-services");
    }
    let ghost c2 = local_checks(removed_objects_checks(before@, after@, keys_of(before@.objects)));
    let ghost parts = keys_of(after@.objects).map_values(|p: Seq<char>| path_checks(before@, after@, p));
    let ghost cparts = keys_of(after@.objects).map_values(|p: Seq<char>| path_changes(before@, after@, p));
    let ghost c3 = concat_all(parts);
    assert(snapshot_checks(before@, after@) == c2 + c3);
    let mut changes: Vec<GraphChange> = Vec::new();
    let node = known_node(DBUS_SERVICE_KIND, after.config.bus.as_str());
    let ghost sn = node@;
    changes.push(GraphChange::NodeKindChanged { kind: known_kind(DBUS_SERVICE_KIND) });
    changes.push(GraphChange::NodeChanged { node: node.duplicate() });
    changes.push(GraphChange::PropertyChanged { node: node.duplicate(), key: known_key("active-services") });
    assert(change_models(changes@) =~= seq![
        ChangeModel::NodeKindChanged("dbus"@),
        ChangeModel::NodeChanged(sn),
        ChangeModel::PropertyChanged(sn, "active-services"@),
    ]);
    let ghost head = change_models(changes@);
    let same_paths = same_text_keys(&before.objects, &after.objects);
    proof {
        use_type_invariant(&before.objects);
        use_type_invariant(&after.objects);
    }
    proof {
        lemma_objects_keys(before.objects);
        lemma_objects_keys(after.objects);
        lemma_map_keys_sorted(before.objects);
        lemma_map_keys_sorted(after.objects);
        assert(objects_view(before.objects).dom() =~= before.objects.map().dom());
        assert(objects_view(after.objects).dom() =~= after.objects.map().dom());
        if same_paths {
            assert(before@.objects.dom() =~= after@.objects.dom());
        } else {
            if before@.objects.dom() == after@.objects.dom() {
                assert(keys_of(before@.objects) == keys_of(after@.objects));
            }
        }
    }
    if !same_paths {
        let c1 = GraphChange::NodeKindChanged { kind: known_kind(DBUS_OBJECT_KIND) };
        let c2 = GraphChange::NodeKindChanged { kind: known_kind(DBUS_METHOD_KIND) };
        changes.push(c1);
        changes.push(c2);
    }
    assert(change_models(changes@) =~= head + (if before@.objects.dom() != after@.objects.dom() {
        seq![ChangeModel::NodeKindChanged("dbus-object"@), ChangeModel::NodeKindChanged("dbus-method"@)]
    } else {
        Seq::<ChangeModel>::empty()
    }));
    let ghost mid = change_models(changes@);
    match push_removed_objects(&mut changes, before, after) {
        Ok(()) => {},
        Err(e) => {
            proof {
                lemma_local_checks(removed_objects_checks(before@, after@, keys_of(before@.objects)));
                lemma_check_spreads(Seq::empty(), c2, c3, e);
                assert(Seq::<(IdentifierClass, Seq<char>)>::empty() + c2 + c3 =~= c2 + c3);
            }
            return Err(e);
        },
    }
    match push_paths(&mut changes, before, after) {
        Ok(()) => {},
        Err(e) => {
            proof {
                lemma_check_spreads(c2, c3, Seq::empty(), e);
                assert(c2 + c3 + Seq::<(IdentifierClass, Seq<char>)>::empty() =~= c2 + c3);
            }
            return Err(e);
        },
    }
    proof {
        lemma_local_checks(removed_objects_checks(before@, after@, keys_of(before@.objects)));
        lemma_checks_concat(c2, c3);
        assert(change_models(changes@) =~= snapshot_changes_spec(before@, after@));
    }
    Ok(changes)
}

/// Pushes the changes of each object of the new snapshot, in path order.
fn push_paths(changes: &mut Vec<GraphChange>, before: &ServiceSnapshot, after: &ServiceSnapshot) -> (r: Result<
    (),
>)
    ensures
        ({
            let checks = concat_all(
                keys_of(after@.objects).map_values(|p: Seq<char>| path_checks(before@, after@, p)),
            );
            &&& checks_valid(checks) <==> r is Ok
            &&& r is Ok ==> change_models(final(changes)@) == change_models(old(changes)@) + concat_all(
                keys_of(after@.objects).map_values(|p: Seq<char>| path_changes(before@, after@, p)),
            )
            &&& r matches Err(e) ==> some_check_error(checks, e)
        }),
{
    let ghost parts = keys_of(after@.objects).map_values(|p: Seq<char>| path_checks(before@, after@, p));
    let ghost cparts = keys_of(after@.objects).map_values(|p: Seq<char>| path_changes(before@, after@, p));
    let ghost base = change_models(changes@);
    let n = after.objects.len();
    let ghost ks = after.objects.keys();
    proof {
        lemma_objects_keys(after.objects);
    }
    let mut i: usize = 0;
    assert(parts.take(0) =~= Seq::<Seq<(IdentifierClass, Seq<char>)>>::empty());
    assert(cparts.take(0) =~= Seq::<Seq<ChangeModel>>::empty());
    assert(base + concat_all(cparts.take(0)) =~= base);
    while i < n
        invariant
            n == ks.len(),
            n == after.objects.entries().len(),
            sorted_by_key(after.objects.entries()),
            ks == after.objects.keys(),
            keys_of(after@.objects) == ks,
            parts == keys_of(after@.objects).map_values(|p: Seq<char>| path_checks(before@, after@, p)),
            cparts == keys_of(after@.objects).map_values(|p: Seq<char>| path_changes(before@, after@, p)),
            i <= n,
            checks_valid(concat_all(parts.take(i as int))),
            change_models(changes@) == base + concat_all(cparts.take(i as int)),
        decreases n - i,
    {
        proof {
            lemma_concat_all_split(parts, i as int);
            lemma_concat_all_split(cparts, i as int);
        }
        assert(parts[i as int] == path_checks(before@, after@, after.objects.keys()[i as int]));
        assert(cparts[i as int] == path_changes(before@, after@, after.objects.keys()[i as int]));
        match push_path_changes(changes, before, after, i) {
            Ok(()) => {
                proof {
                    lemma_checks_concat(concat_all(parts.take(i as int)), parts[i as int]);
                }
            },
            Err(e) => {
                proof {
                    lemma_check_spreads(
                        concat_all(parts.take(i as int)),
                        parts[i as int],
                        concat_all(parts.skip(i + 1)),
                        e,
                    );
                }
                return Err(e);
            },
        }
        i += 1;
    }
    assert(parts.take(n as int) =~= parts);
    assert(cparts.take(n as int) =~= cparts);
    Ok(())
}

/// The service a new snapshot makes of service `sv`: its configuration
/// with the new owner and objects.
pub open spec fn with_snapshot(
    sv: ServiceView,
    owner: Option<Seq<char>>,
    objects: Map<Seq<char>, ObjectView>,
) -> ServiceView {
    ServiceView { config: sv.config, owner, objects }
}

/// The services after property `p` of interface `i` of the object at
/// `path` of service `sid` takes `value`.
pub open spec fn with_cached_value(
    services: Map<Seq<char>, ServiceView>,
    sid: Seq<char>,
    path: Seq<char>,
    i: Seq<char>,
    p: Seq<char>,
    value: ValueModel,
) -> Map<Seq<char>, ServiceView> {
    let sv = services[sid];
    let o = sv.objects[path];
    let t = o.interfaces[i];
    let t2 = t.insert(p, DbusPropertyView { value, writable: t[p].writable });
    let o2 = ObjectView { interfaces: o.interfaces.insert(i, t2), ..o };
    services.insert(sid, ServiceView { objects: sv.objects.insert(path, o2), ..sv })
}

impl DbusState {
    /// Stores a new snapshot of service `local_id`, with its owner and
    /// objects, and reports the changes from the snapshot it replaces. The
    /// snapshot is stored even when a change cannot be reported.
    pub fn set_service_snapshot(
        &mut self,
        local_id: &str,
        owner: Option<String>,
        objects: TextMap<String, ObjectSnapshot>,
    ) -> (r: Result<Vec<GraphChange>>)
        ensures
            !services_of(*old(self)).contains_key(local_id@) ==> (r matches Err(e) && is_not_found(
                e,
                "D-Bus service"@,
                local_id@,
            )) && services_of(*final(self)) == services_of(*old(self)),
            services_of(*old(self)).contains_key(local_id@) ==> ({
                let before = services_of(*old(self))[local_id@];
                let after = with_snapshot(before, owner_view(owner), objects_view(objects));
                let checks = snapshot_checks(before, after);
                &&& services_of(*final(self)) == services_of(*old(self)).insert(local_id@, after)
                &&& checks_valid(checks) <==> r is Ok
                &&& r matches Ok(v) ==> change_models(v@) == snapshot_changes_spec(before, after)
                &&& r matches Err(e) ==> some_check_error(checks, e)
            }),
    {
        let ghost start = services_of(*self);
        let ghost ov = owner_view(owner);
        let ghost obv = objects_view(objects);
        match self.services.remove(local_id) {
            None => {
                assert(services_of(*self) =~= start);
                Err(GraphError::NotFound { kind: "D-Bus service", name: owned(local_id) })
            },
            Some(previous) => {
                assert(start[local_id@] == previous@);
                let ghost after_view = with_snapshot(previous@, ov, obv);
                let next = ServiceSnapshot { config: previous.config.duplicate(), owner, objects };
                assert(next@ == after_view);
                let r = service_snapshot_changes(&previous, &next);
                self.services.insert(owned(local_id), next);
                assert(services_of(*self) =~= start.insert(local_id@, after_view));
                r
            },
        }
    }

    /// Stores `value` as the cached value of the writable D-Bus property
    /// that `key` names on an object node, once it was written.
    pub fn update_cached_property(&mut self, subject: &NodeId, key: &PropertyKey, value: LocusValue) -> (r: Result<()>)
        ensures
            !writable_spec(services_of(*old(self)), subject@, key@) ==> r is Err && services_of(
                *final(self),
            ) == services_of(*old(self)),
            writable_spec(services_of(*old(self)), subject@, key@) ==> ({
                let services = services_of(*old(self));
                let entry = property_entry_spec(services, subject@, key@)->0;
                let sv = services[entry.0];
                let sid = sv.config.local_id;
                let path = sv.objects[entry.1].path;
                let i = entry.2;
                let p = entry.3;
                if !(services.contains_key(sid) && services[sid].objects.contains_key(path)) {
                    r matches Err(e) && is_not_found(e, "node"@, node_id_text(subject@)) && services_of(
                        *final(self),
                    ) == services
                } else if !(services[sid].objects[path].interfaces.contains_key(i)
                    && services[sid].objects[path].interfaces[i].contains_key(p)) {
                    r matches Err(e) && is_not_found(e, "property"@, entry_text(subject@, key@))
                        && services_of(*final(self)) == services
                } else {
                    r is Ok && services_of(*final(self)) == with_cached_value(services, sid, path, i, p, value@)
                }
            }),
    {
        let ghost start = services_of(*self);
        let writable = match self.writable_property(subject, key) {
            Ok(w) => w,
            Err(e) => return Err(e),
        };
        let sid = writable.service.local_id.as_str();
        let path = writable.object_path.as_str();
        let iface = writable.interface.as_str();
        let prop = writable.property.as_str();
        let status: u8 = match self.services.get(sid) {
            Some(service) => {
                assert(start[sid@] == service@);
                match service.objects.get(path) {
                    Some(object) => {
                        assert(service@.objects[path@] == object@);
                        match object.interfaces.get(iface) {
                            Some(table) => {
                                assert(object@.interfaces[iface@] == props_view(*table));
                                if table.contains_key(prop) {
                                    0
                                } else {
                                    3
                                }
                            },
                            None => 3,
                        }
                    },
                    None => 2,
                }
            },
            None => 1,
        };
        if status == 1 || status == 2 {
            return Err(node_not_found(subject));
        }
        if status == 3 {
            return Err(GraphError::NotFound { kind: "property", name: entry_name(subject, key.as_str()) });
        }
        let ghost raw = self.services.map();
        let mut service = match self.services.remove(sid) {
            Some(s) => s,
            None => {
                assert(false);
                return Err(node_not_found(subject));
            },
        };
        let ghost sv = service@;
        let mut object = match service.objects.remove(path) {
            Some(o) => o,
            None => {
                assert(false);
                return Err(node_not_found(subject));
            },
        };
        let ghost ov = object@;
        let mut table = match object.interfaces.remove(iface) {
            Some(t) => t,
            None => {
                assert(false);
                return Err(node_not_found(subject));
            },
        };
        let ghost tv = props_view(table);
        let mut snapshot = match table.remove(prop) {
            Some(p) => p,
            None => {
                assert(false);
                return Err(node_not_found(subject));
            },
        };
        let ghost was = snapshot.writable;
        assert(tv[prop@] == snapshot@);
        snapshot.value = value;
        table.insert(writable.property.clone(), snapshot);
        assert(props_view(table) =~= tv.insert(prop@, DbusPropertyView { value: value@, writable: was }));
        object.interfaces.insert(writable.interface.clone(), table);
        assert(object@.interfaces =~= ov.interfaces.insert(
            iface@,
            tv.insert(prop@, DbusPropertyView { value: value@, writable: was }),
        ));
        service.objects.insert(writable.object_path.clone(), object);
        assert(service@.objects =~= sv.objects.insert(path@, ObjectView {
            interfaces: ov.interfaces.insert(
                iface@,
                tv.insert(prop@, DbusPropertyView { value: value@, writable: was }),
            ),
            ..ov
        }));
        self.services.insert(writable.service.local_id.clone(), service);
        assert(services_of(*self) =~= with_cached_value(start, sid@, path@, iface@, prop@, value@));
        Ok(())
    }
}

/// The local id a bus name gives: its last `.`-separated segment, in ASCII
/// lower case.
pub open spec fn service_local_id_spec(name: Seq<char>) -> Seq<char> {
    let last = match rsplit_once_spec(name, '.') {
        Some((_, tail)) => tail,
        None => name,
    };
    last.map_values(|c: char| ascii_lower(c))
}

/// The object manager path a bus name gives: `/` and the name with each `.`
/// as `/`.
pub open spec fn default_manager_path(name: Seq<char>) -> Seq<char> {
    "/"@ + name.map_values(|c: char| if c == '.' { '/' } else { c })
}

/// The local id a bus name gives.
pub fn service_local_id(name: &str) -> (r: String)
    ensures
        r@ == service_local_id_spec(name@),
{
    match rsplit_once_char(name, '.') {
        Some((_, tail)) => to_ascii_lowercase(tail.as_str()),
        None => to_ascii_lowercase(name),
    }
}

/// The object manager path a bus name gives.
pub fn manager_path_of(name: &str) -> (r: String)
    ensures
        r@ == default_manager_path(name@),
{
    proof {
        reveal_strlit("/");
    }
    let v = chars_of(name);
    let mut out = owned("/");
    let mut i: usize = 0;
    while i < v.len()
        invariant
            i <= v.len(),
            v@ == name@,
            out@ == "/"@ + v@.take(i as int).map_values(|c: char| if c == '.' { '/' } else { c }),
        decreases v.len() - i,
    {
        let c = v[i];
        if c == '.' {
            push_char(&mut out, '/');
        } else {
            push_char(&mut out, c);
        }
        assert(v@.take(i + 1) =~= v@.take(i as int).push(c));
        assert(out@ =~= "/"@ + v@.take(i + 1).map_values(|c: char| if c == '.' { '/' } else { c }));
        i += 1;
    }
    assert(v@.take(v.len() as int) =~= v@);
    out
}

impl ServiceConfig {
    /// The configuration of a service on the system bus with the local id
    /// and object manager path its bus name gives.
    pub fn system(name: &str) -> (r: ServiceConfig)
        ensures
            r@ == (ServiceConfigView {
                local_id: service_local_id_spec(name@),
                bus: BusKind::System,
                name: name@,
                object_manager_path: default_manager_path(name@),
            }),
    {
        ServiceConfig {
            local_id: service_local_id(name),
            bus: BusKind::System,
            name: owned(name),
            object_manager_path: manager_path_of(name),
        }
    }
}

/// An object with the given properties and no methods.
pub fn object_snapshot(
    service_local_id: String,
    path: String,
    interfaces: TextMap<String, TextMap<String, DbusPropertySnapshot>>,
) -> (r: ObjectSnapshot)
    ensures
        r@ == (ObjectView {
            service_local_id: service_local_id@,
            path: path@,
            interfaces: interfaces_view(interfaces),
            methods: Map::empty(),
        }),
{
    let methods: TextMap<String, TextMap<String, DbusMethodSnapshot>> = TextMap::new();
    assert(method_ifaces_view(methods) =~= Map::<Seq<char>, Map<Seq<char>, Seq<Seq<char>>>>::empty());
    ObjectSnapshot { service_local_id, path, interfaces, methods }
}

/// The segment below directory `p` that path `q` passes through: the part
/// of `q` after `p/` up to the next `/`, when it can name a path entry.
pub open spec fn child_segment(q: Seq<char>, p: Seq<char>) -> Option<Seq<char>> {
    let head = p + "/"@;
    if has_prefix(q, head) {
        let rest = q.skip(head.len() as int);
        let seg = match split_once_spec(rest, '/') {
            Some((a, _)) => a,
            None => rest,
        };
        if valid_identifier(IdentifierClass::PathName, seg) {
            Some(seg)
        } else {
            None
        }
    } else {
        None
    }
}

/// The distinct segments below directory `p` of the paths `qs`, in the
/// order they are first met.
pub open spec fn segments_below(qs: Seq<Seq<char>>, p: Seq<char>) -> Seq<Seq<char>>
    decreases qs.len(),
{
    if qs.len() == 0 {
        Seq::empty()
    } else {
        let prev = segments_below(qs.drop_last(), p);
        match child_segment(qs.last(), p) {
            Some(seg) => if prev.contains(seg) {
                prev
            } else {
                prev.push(seg)
            },
            None => prev,
        }
    }
}

/// Whether some path of `qs` is `p` or lies below it.
pub open spec fn reaches(qs: Seq<Seq<char>>, p: Seq<char>) -> bool {
    exists|j: int| 0 <= j < qs.len() && (qs[j] == p || has_prefix(#[trigger] qs[j], p + "/"@))
}

/// The object paths of the services on bus `b`, service by service.
pub open spec fn bus_paths(services: Map<Seq<char>, ServiceView>, b: BusKind) -> Seq<Seq<char>> {
    concat_all(bus_services(services, b).map_values(|k: Seq<char>| keys_of(services[k].objects)))
}

/// The first service among `ks` with an object at path `q`.
pub open spec fn holder(services: Map<Seq<char>, ServiceView>, ks: Seq<Seq<char>>, q: Seq<char>) -> Option<
    Seq<char>,
>
    decreases ks.len(),
{
    if ks.len() == 0 {
        None
    } else {
        match holder(services, ks.drop_last(), q) {
            Some(k) => Some(k),
            None => if services[ks.last()].objects.contains_key(q) {
                Some(ks.last())
            } else {
                None
            },
        }
    }
}

/// The object path a directory shows: `/` for the root of a bus.
pub open spec fn at_path(p: Seq<char>) -> Seq<char> {
    if p.len() == 0 {
        "/"@
    } else {
        p
    }
}

/// The service whose object a directory of bus `b` shows, if any.
pub open spec fn dir_holder(services: Map<Seq<char>, ServiceView>, b: BusKind, p: Seq<char>) -> Option<
    Seq<char>,
> {
    holder(services, bus_services(services, b), at_path(p))
}

/// The local id of the directory `p` of bus `b`.
pub open spec fn dir_local_spec(b: BusKind, p: Seq<char>) -> Seq<char> {
    bus_text(b) + ":"@ + p
}

/// The bus and object path prefix a directory stands for: the node of a
/// bus in use is its root, `dbus` directories `<bus>:<prefix>` stand for
/// a prefix that an object path of that bus is or passes through.
pub open spec fn dbus_dir(services: Map<Seq<char>, ServiceView>, d: DirectoryModel) -> Option<
    (BusKind, Seq<char>),
> {
    match d {
        DirectoryModel::Node(n) => if n.kind == "dbus"@ {
            match bus_named(n.local) {
                Some(b) => if bus_in_use(services, b) {
                    Some((b, Seq::<char>::empty()))
                } else {
                    None
                },
                None => None,
            }
        } else {
            None
        },
        DirectoryModel::Virtual(owner, local) => if owner == "dbus"@ {
            match split_once_spec(local, ':') {
                Some((bt, p)) => match bus_named(bt) {
                    Some(b) => if p.len() > 0 && reaches(bus_paths(services, b), p) {
                        Some((b, p))
                    } else {
                        None
                    },
                    None => None,
                },
                None => None,
            }
        } else {
            None
        },
    }
}

pub open spec fn watch_option(t: Option<GraphWatchTarget>) -> Option<WatchModel> {
    match t {
        Some(x) => Some(x@),
        None => None,
    }
}

/// The segment below `p` that path `q` passes through.
fn child_segment_of(q: &str, p: &str) -> (r: Option<String>)
    ensures
        match r {
            Some(seg) => child_segment(q@, p@) == Some(seg@),
            None => child_segment(q@, p@) is None,
        },
{
    proof {
        reveal_strlit("/");
        reveal_strlit("");
    }
    let head = concat2(p, "/");
    match strip_prefix(q, head.as_str()) {
        None => None,
        Some(rest) => {
            let seg = match split_once_char(rest.as_str(), '/') {
                Some((a, _)) => a,
                None => rest,
            };
            match PathName::new(seg.as_str()) {
                Ok(_) => Some(seg),
                Err(_) => None,
            }
        },
    }
}

/// Whether a run of texts holds `t`.
fn texts_contain(v: &Vec<String>, t: &str) -> (r: bool)
    ensures
        r == texts_of(v@).contains(t@),
{
    let mut i: usize = 0;
    while i < v.len()
        invariant
            i <= v.len(),
            forall|j: int| 0 <= j < i ==> v@[j]@ != t@,
        decreases v.len() - i,
    {
        if text_eq(v[i].as_str(), t) {
            assert(texts_of(v@)[i as int] == t@);
            return true;
        }
        i += 1;
    }
    assert(!texts_of(v@).contains(t@)) by {
        if texts_of(v@).contains(t@) {
            let j = choose|j: int| 0 <= j < texts_of(v@).len() && texts_of(v@)[j] == t@;
            assert(v@[j]@ == t@);
        }
    }
    false
}

/// The distinct segments below `p` of the paths `paths`.
fn segments_of(paths: &Vec<String>, p: &str) -> (r: Vec<String>)
    ensures
        texts_of(r@) == segments_below(texts_of(paths@), p@),
{
    let ghost qs = texts_of(paths@);
    let mut out: Vec<String> = Vec::new();
    let mut i: usize = 0;
    assert(qs.take(0) =~= Seq::<Seq<char>>::empty());
    assert(texts_of(out@) =~= Seq::<Seq<char>>::empty());
    while i < paths.len()
        invariant
            i <= paths.len(),
            qs == texts_of(paths@),
            texts_of(out@) == segments_below(qs.take(i as int), p@),
        decreases paths.len() - i,
    {
        assert(qs.take(i + 1).drop_last() =~= qs.take(i as int));
        assert(qs.take(i + 1).last() == paths@[i as int]@);
        match child_segment_of(paths[i].as_str(), p) {
            Some(seg) => {
                if !texts_contain(&out, seg.as_str()) {
                    let ghost before = texts_of(out@);
                    out.push(seg);
                    assert(texts_of(out@) =~= before.push(out@[out@.len() - 1]@));
                }
            },
            None => {},
        }
        i += 1;
    }
    assert(qs.take(paths.len() as int) =~= qs);
    out
}

/// Whether some path of `paths` is `p` or lies below it.
fn reaches_of(paths: &Vec<String>, p: &str) -> (r: bool)
    ensures
        r == reaches(texts_of(paths@), p@),
{
    let ghost qs = texts_of(paths@);
    let head = concat2(p, "/");
    let mut i: usize = 0;
    while i < paths.len()
        invariant
            i <= paths.len(),
            qs == texts_of(paths@),
            head@ == p@ + "/"@,
            forall|j: int| 0 <= j < i ==> !(qs[j] == p@ || has_prefix(#[trigger] qs[j], p@ + "/"@)),
        decreases paths.len() - i,
    {
        if text_eq(paths[i].as_str(), p) || starts_with(paths[i].as_str(), head.as_str()) {
            assert(qs[i as int] == paths@[i as int]@);
            return true;
        }
        i += 1;
    }
    false
}

impl DbusState {
    /// The object paths of the services on bus `b`, service by service.
    fn bus_object_paths(&self, b: BusKind) -> (r: Vec<String>)
        ensures
            texts_of(r@) == bus_paths(services_of(*self), b),
    {
        let n = self.services.len();
        let ghost ks = self.services.keys();
        let ghost sm = services_of(*self);
        let ghost f = |k: Seq<char>| keys_of(sm[k].objects);
        proof {
            lemma_services_keys(self.services);
        }
        let mut out: Vec<String> = Vec::new();
        let mut i: usize = 0;
        assert(ks.take(0) =~= Seq::<Seq<char>>::empty());
        assert(texts_of(out@) =~= concat_all(services_on(sm, ks.take(0), b, false).map_values(f)));
        while i < n
            invariant
                n == ks.len(),
                n == self.services.entries().len(),
                ks == self.services.keys(),
                sm == services_of(*self),
                f == (|k: Seq<char>| keys_of(sm[k].objects)),
                keys_of(sm) == ks,
                forall|j: int|
                    0 <= j < ks.len() ==> #[trigger] sm.contains_key(ks[j]) && sm[ks[j]] == view_service(
                        self.services.entries()[j].1,
                    ),
                i <= n,
                texts_of(out@) == concat_all(services_on(sm, ks.take(i as int), b, false).map_values(f)),
            decreases n - i,
        {
            let service = self.services.value_at(i);
            assert(sm.contains_key(ks[i as int]));
            assert(ks.take(i + 1).drop_last() =~= ks.take(i as int));
            assert(ks.take(i + 1).last() == ks[i as int]);
            let ghost prev = services_on(sm, ks.take(i as int), b, false);
            if service.config.bus == b {
                let m = service.objects.len();
                let ghost oks = service.objects.keys();
                proof {
                    lemma_objects_keys(service.objects);
                }
                let ghost base = texts_of(out@);
                let mut j: usize = 0;
                assert(oks.take(0) =~= Seq::<Seq<char>>::empty());
                assert(base + oks.take(0) =~= base);
                while j < m
                    invariant
                        m == oks.len(),
                        m == service.objects.entries().len(),
                        oks == service.objects.keys(),
                        j <= m,
                        texts_of(out@) == base + oks.take(j as int),
                        forall|q: int| 0 <= q < oks.len() ==> #[trigger] oks[q] == service.objects.entries()[q].0@,
                    decreases m - j,
                {
                    let key = service.objects.key_at(j);
                    assert(key@ == oks[j as int]);
                    let ghost before = texts_of(out@);
                    let copy = key.clone();
                    assert(copy@ == key@);
                    out.push(copy);
                    assert(texts_of(out@) =~= before.push(oks[j as int]));
                    assert(oks.take(j + 1) =~= oks.take(j as int).push(oks[j as int]));
                    assert(texts_of(out@) =~= base + oks.take(j + 1));
                    j += 1;
                }
                assert(oks.take(m as int) =~= oks);
                assert(keys_of(sm[ks[i as int]].objects) == oks);
                assert(services_on(sm, ks.take(i + 1), b, false) == prev + seq![ks[i as int]]);
                let ghost parts = prev.map_values(f);
                assert((prev + seq![ks[i as int]]).map_values(f) =~= parts.push(oks));
                assert(parts.push(oks).drop_last() =~= parts);
                assert(concat_all(parts.push(oks)) == concat_all(parts) + oks);
            } else {
                assert(services_on(sm, ks.take(i + 1), b, false) =~= prev);
            }
            i += 1;
        }
        assert(ks.take(n as int) =~= ks);
        out
    }

    /// The service whose object sits at path `q` on bus `b`, and that
    /// object: the first such service in key order.
    fn holder_at(&self, b: BusKind, q: &str) -> (r: Option<(&ServiceSnapshot, &ObjectSnapshot)>)
        ensures
            match r {
                Some((sv, ob)) => holder(services_of(*self), bus_services(services_of(*self), b), q@) matches Some(k)
                    && services_of(*self)[k] == sv@ && sv@.objects.contains_key(q@) && sv@.objects[q@] == ob@,
                None => holder(services_of(*self), bus_services(services_of(*self), b), q@) is None,
            },
    {
        let n = self.services.len();
        let ghost ks = self.services.keys();
        let ghost sm = services_of(*self);
        proof {
            lemma_services_keys(self.services);
        }
        let mut i: usize = 0;
        assert(ks.take(0) =~= Seq::<Seq<char>>::empty());
        while i < n
            invariant
                n == ks.len(),
                n == self.services.entries().len(),
                ks == self.services.keys(),
                sm == services_of(*self),
                keys_of(sm) == ks,
                forall|j: int|
                    0 <= j < ks.len() ==> #[trigger] sm.contains_key(ks[j]) && sm[ks[j]] == view_service(
                        self.services.entries()[j].1,
                    ),
                i <= n,
                holder(sm, services_on(sm, ks.take(i as int), b, false), q@) is None,
            decreases n - i,
        {
            let service = self.services.value_at(i);
            assert(sm.contains_key(ks[i as int]));
            assert(ks.take(i + 1).drop_last() =~= ks.take(i as int));
            assert(ks.take(i + 1).last() == ks[i as int]);
            let ghost prev = services_on(sm, ks.take(i as int), b, false);
            if service.config.bus == b {
                let ghost next = prev + seq![ks[i as int]];
                assert(services_on(sm, ks.take(i + 1), b, false) == next);
                assert(next.drop_last() =~= prev);
                match service.objects.get(q) {
                    Some(object) => {
                        proof {
                            lemma_services_on_prefix(sm, ks, b, i as int + 1);
                            assert(services_on(sm, ks, b, false).take(next.len() as int) =~= next);
                            assert(service@.objects.contains_key(q@));
                            assert(holder(sm, next, q@) == Some(ks[i as int]));
                            lemma_holder_prefix(sm, next, services_on(sm, ks, b, false), q@);
                        }
                        return Some((service, object));
                    },
                    None => {},
                }
            } else {
                assert(services_on(sm, ks.take(i + 1), b, false) =~= prev);
            }
            i += 1;
        }
        assert(ks.take(n as int) =~= ks);
        None
    }
}

/// The services a prefix of the keys selects start the services all the
/// keys select.
proof fn lemma_services_on_prefix(
    services: Map<Seq<char>, ServiceView>,
    ks: Seq<Seq<char>>,
    b: BusKind,
    i: int,
)
    requires
        0 <= i <= ks.len(),
    ensures
        services_on(services, ks, b, false) == services_on(services, ks.take(i), b, false) + services_on(
            services,
            ks.skip(i),
            b,
            false,
        ),
    decreases ks.len() - i,
{
    if i == ks.len() {
        assert(ks.take(i) =~= ks);
        assert(ks.skip(i) =~= Seq::<Seq<char>>::empty());
        assert(services_on(services, ks, b, false) + Seq::<Seq<char>>::empty() =~= services_on(services, ks, b, false));
    } else {
        lemma_services_on_append(services, ks.take(i), ks.skip(i), b);
        assert(ks.take(i) + ks.skip(i) =~= ks);
    }
}

proof fn lemma_services_on_append(
    services: Map<Seq<char>, ServiceView>,
    a: Seq<Seq<char>>,
    c: Seq<Seq<char>>,
    b: BusKind,
)
    ensures
        services_on(services, a + c, b, false) == services_on(services, a, b, false) + services_on(
            services,
            c,
            b,
            false,
        ),
    decreases c.len(),
{
    if c.len() == 0 {
        assert(a + c =~= a);
        assert(services_on(services, a, b, false) + services_on(services, c, b, false) =~= services_on(services, a, b, false));
    } else {
        lemma_services_on_append(services, a, c.drop_last(), b);
        assert((a + c).drop_last() =~= a + c.drop_last());
        assert((a + c).last() == c.last());
        assert(services_on(services, a + c, b, false) =~= services_on(services, a, b, false) + services_on(
            services,
            c,
            b,
            false,
        ));
    }
}

/// A holder met in a prefix stays the holder of the whole run.
proof fn lemma_holder_prefix(
    services: Map<Seq<char>, ServiceView>,
    a: Seq<Seq<char>>,
    all: Seq<Seq<char>>,
    q: Seq<char>,
)
    requires
        a.len() <= all.len(),
        all.take(a.len() as int) == a,
        holder(services, a, q) is Some,
    ensures
        holder(services, all, q) == holder(services, a, q),
    decreases all.len(),
{
    if all.len() > a.len() {
        assert(all.drop_last().take(a.len() as int) =~= a);
        lemma_holder_prefix(services, a, all.drop_last(), q);
    } else {
        assert(all =~= a);
    }
}

impl DbusState {
    /// The bus and prefix a directory stands for.
    fn resolve_dir(&self, d: &GraphPathDirectory) -> (r: Option<(BusKind, String)>)
        ensures
            match r {
                Some((b, p)) => dbus_dir(services_of(*self), d@) == Some((b, p@)),
                None => dbus_dir(services_of(*self), d@) is None,
            },
    {
        proof {
            lemma_dbus_names();
            reveal_strlit("");
        }
        match d {
            GraphPathDirectory::Node(node) => {
                if !text_eq(node.kind().as_str(), DBUS_SERVICE_KIND) {
                    return None;
                }
                match bus_of_local(node.local()) {
                    Some(b) => {
                        let configured = self.services_on_bus(b, false);
                        assert(texts_of(configured@).len() == configured@.len());
                        if configured.len() > 0 {
                            let root = String::new();
                            assert(root@ =~= Seq::<char>::empty());
                            Some((b, root))
                        } else {
                            None
                        }
                    },
                    None => None,
                }
            },
            GraphPathDirectory::Virtual { owner, local } => {
                if !text_eq(owner.as_str(), DBUS_SERVICE_KIND) {
                    return None;
                }
                match split_once_char(local.as_str(), ':') {
                    None => None,
                    Some((bt, p)) => match bus_of_local(bt.as_str()) {
                        None => None,
                        Some(b) => {
                            if text_eq(p.as_str(), "") {
                                assert(p@.len() == 0);
                                return None;
                            }
                            assert(p@.len() > 0) by {
                                if p@.len() == 0 {
                                    assert(p@ =~= ""@);
                                }
                            }
                            let paths = self.bus_object_paths(b);
                            if reaches_of(&paths, p.as_str()) {
                                Some((b, p))
                            } else {
                                None
                            }
                        },
                    },
                }
            },
        }
    }

    /// What a watcher of a directory follows: the objects of the plugin,
    /// for any directory of its tree.
    pub fn path_watch_target(&self, directory: &GraphPathDirectory) -> (r: Result<Option<GraphWatchTarget>>)
        ensures
            r matches Ok(t) && watch_option(t) == if dbus_dir(services_of(*self), directory@) is Some {
                Some(WatchModel::Kind("dbus-object"@))
            } else {
                None
            },
    {
        proof {
            lemma_dbus_names();
        }
        match self.resolve_dir(directory) {
            Some(_) => Ok(Some(GraphWatchTarget::Kind(known_kind(DBUS_OBJECT_KIND)))),
            None => Ok(None),
        }
    }
}


/// The method a name `<display>.call` is the call file of, on an object.
pub open spec fn call_stem(name: Seq<char>) -> Option<Seq<char>> {
    if has_suffix(name, ".call"@) {
        Some(name.take(name.len() - 5))
    } else {
        None
    }
}

/// The interface and method a call file name names on an object, when
/// exactly one method answers to it.
pub open spec fn call_target(o: ObjectView, name: Seq<char>) -> Option<(Seq<char>, Seq<char>)> {
    match call_stem(name) {
        Some(stem) => unique_member(member_names(o.methods), stem),
        None => None,
    }
}

pub open spec fn entry_view_of(e: Option<GraphPathEntry>) -> Option<EntryModel> {
    match e {
        Some(x) => Some(x@),
        None => None,
    }
}

pub open spec fn children_view_of(c: Option<Vec<GraphPathChild>>) -> Option<Seq<ChildModel>> {
    match c {
        Some(v) => Some(v@.map_values(|x: GraphPathChild| x@)),
        None => None,
    }
}

/// The directory below directory `p` of bus `b` through `seg`.
pub open spec fn sub_dir(b: BusKind, p: Seq<char>, seg: Seq<char>) -> DirectoryModel {
    DirectoryModel::Virtual("dbus"@, dir_local_spec(b, p + "/"@ + seg))
}

/// The directory entries of the segments below `p`.
pub open spec fn dir_children(b: BusKind, p: Seq<char>, segs: Seq<Seq<char>>) -> Seq<ChildModel> {
    segs.map_values(|seg: Seq<char>| ChildModel { name: seg, entry: EntryModel::Directory(sub_dir(b, p, seg)) })
}

/// The property entries of a node, one per key.
pub open spec fn key_children(node: NodeIdView, keys: Seq<Seq<char>>) -> Seq<ChildModel> {
    keys.map_values(|k: Seq<char>| ChildModel { name: k, entry: EntryModel::Property(node, k) })
}

/// The call files of method `m` of interface `i`: `<interface>.<method>.call`
/// and, when one interface alone has the method, `<method>.call`, both
/// naming the method's `call` property; a method whose node cannot be
/// named, and a name that cannot name an entry, are left out.
pub open spec fn calls_for(c: ServiceConfigView, o: ObjectView, i: Seq<char>, m: Seq<char>) -> Seq<ChildModel> {
    let local = method_local(c.object_manager_path, o, i, m);
    let entry = EntryModel::Property(method_view(local), "call"@);
    let bare = m + ".call"@;
    let qualified = i + "."@ + m + ".call"@;
    if !valid_identifier(IdentifierClass::NodeLocalId, local) {
        Seq::empty()
    } else {
        (if count_having(keys_of(o.methods), o.methods, m) == 1 && valid_identifier(
            IdentifierClass::PathName,
            bare,
        ) {
            seq![ChildModel { name: bare, entry }]
        } else {
            Seq::<ChildModel>::empty()
        }) + (if valid_identifier(IdentifierClass::PathName, qualified) {
            seq![ChildModel { name: qualified, entry }]
        } else {
            Seq::<ChildModel>::empty()
        })
    }
}

/// The call files of the methods `ms` of interface `i`, in order.
pub open spec fn iface_call_children(c: ServiceConfigView, o: ObjectView, i: Seq<char>, ms: Seq<Seq<char>>) -> Seq<
    ChildModel,
>
    decreases ms.len(),
{
    if ms.len() == 0 {
        Seq::empty()
    } else {
        iface_call_children(c, o, i, ms.drop_last()) + calls_for(c, o, i, ms.last())
    }
}

/// The call files of the methods of the interfaces `is`, in order.
pub open spec fn call_children(c: ServiceConfigView, o: ObjectView, is: Seq<Seq<char>>) -> Seq<ChildModel>
    decreases is.len(),
{
    if is.len() == 0 {
        Seq::empty()
    } else {
        call_children(c, o, is.drop_last()) + iface_call_children(c, o, is.last(), keys_of(o.methods[is.last()]))
    }
}

/// What looking up `name` in directory `d` answers: the directory below
/// through that segment; else, where an object sits at the directory, its
/// property `name` or the `call` property of the method `name` is the call
/// file of; else nothing. Fails where the object's properties or node
/// cannot be named.
pub open spec fn lookup_result(
    services: Map<Seq<char>, ServiceView>,
    d: DirectoryModel,
    name: Seq<char>,
    r: Result<Option<GraphPathEntry>>,
) -> bool {
    match dbus_dir(services, d) {
        None => r matches Ok(e) && e is None,
        Some((b, p)) => if segments_below(bus_paths(services, b), p).contains(name) {
            r matches Ok(e) && entry_view_of(e) == Some(EntryModel::Directory(sub_dir(b, p, name)))
        } else {
            match dir_holder(services, b, p) {
                None => r matches Ok(e) && e is None,
                Some(k) => {
                    let sv = services[k];
                    let o = sv.objects[at_path(p)];
                    let keys = object_property_keys(o);
                    let ol = object_local(sv.config.object_manager_path, o);
                    if !all_keys_valid(keys) {
                        r matches Err(e) && some_invalid_key_error(keys, e)
                    } else if object_properties_spec(sv.config, o).contains_key(name) {
                        if valid_identifier(IdentifierClass::NodeLocalId, ol) {
                            r matches Ok(e) && entry_view_of(e) == Some(EntryModel::Property(object_view(ol), name))
                        } else {
                            r matches Err(e) && identifier_error(IdentifierClass::NodeLocalId, ol, e)
                        }
                    } else {
                        match call_target(o, name) {
                            Some((i, m)) => {
                                let ml = method_local(sv.config.object_manager_path, o, i, m);
                                if valid_identifier(IdentifierClass::NodeLocalId, ml) {
                                    r matches Ok(e) && entry_view_of(e) == Some(
                                        EntryModel::Property(method_view(ml), "call"@),
                                    )
                                } else {
                                    r matches Err(e) && identifier_error(IdentifierClass::NodeLocalId, ml, e)
                                }
                            },
                            None => r matches Ok(e) && e is None,
                        }
                    }
                },
            }
        },
    }
}

/// What listing directory `d` answers: the directories below it, then,
/// where an object sits at it, the object's properties in key order and
/// its call files. Fails where the object's properties or node cannot be
/// named.
pub open spec fn children_result(
    services: Map<Seq<char>, ServiceView>,
    d: DirectoryModel,
    r: Result<Option<Vec<GraphPathChild>>>,
) -> bool {
    match dbus_dir(services, d) {
        None => r matches Ok(c) && c is None,
        Some((b, p)) => {
            let dirs = dir_children(b, p, segments_below(bus_paths(services, b), p));
            match dir_holder(services, b, p) {
                None => r matches Ok(c) && children_view_of(c) == Some(dirs),
                Some(k) => {
                    let sv = services[k];
                    let o = sv.objects[at_path(p)];
                    let keys = object_property_keys(o);
                    let ol = object_local(sv.config.object_manager_path, o);
                    if !all_keys_valid(keys) {
                        r matches Err(e) && some_invalid_key_error(keys, e)
                    } else if !valid_identifier(IdentifierClass::NodeLocalId, ol) {
                        r matches Err(e) && identifier_error(IdentifierClass::NodeLocalId, ol, e)
                    } else {
                        r matches Ok(c) && children_view_of(c) == Some(
                            dirs + key_children(
                                object_view(ol),
                                sorted_keys_of(object_properties_spec(sv.config, o).dom()),
                            ) + call_children(sv.config, o, keys_of(o.methods)),
                        )
                    }
                },
            }
        },
    }
}

/// The method a call file name names.
fn call_stem_of(name: &str) -> (r: Option<String>)
    ensures
        match r {
            Some(stem) => call_stem(name@) == Some(stem@),
            None => call_stem(name@) is None,
        },
{
    proof {
        reveal_strlit(".call");
    }
    if ends_with(name, ".call") {
        let v = chars_of(name);
        assert(".call"@.len() == 5);
        let stem = text_from_range(v.as_slice(), 0, v.len() - 5);
        assert(stem@ =~= name@.take(name@.len() - 5));
        Some(stem)
    } else {
        None
    }
}

/// The object path a directory shows.
fn at_path_of(p: &str) -> (r: String)
    ensures
        r@ == at_path(p@),
{
    proof {
        reveal_strlit("");
    }
    if text_eq(p, "") {
        owned("/")
    } else {
        assert(p@.len() > 0) by {
            if p@.len() == 0 {
                assert(p@ =~= ""@);
            }
        }
        owned(p)
    }
}

/// The directory below `p` of bus `b` through `seg`.
fn sub_dir_of(b: BusKind, p: &str, seg: &str) -> (r: GraphPathDirectory)
    ensures
        r@ == sub_dir(b, p@, seg@),
{
    proof {
        lemma_dbus_names();
    }
    let below = concat3(p, "/", seg);
    let local = concat3(b.as_str(), ":", below.as_str());
    assert(local@ =~= dir_local_spec(b, p@ + "/"@ + seg@));
    GraphPathDirectory::Virtual { owner: known_kind(DBUS_SERVICE_KIND), local }
}

/// The property entries of a node, in key order.
fn key_children_of(node: &NodeId, props: &PropertyMap) -> (r: Vec<GraphPathChild>)
    ensures
        r@.map_values(|x: GraphPathChild| x@) == key_children(node@, sorted_keys_of(property_models(*props).dom())),
{
    let keys = crate::projection::property_keys(props);
    let ghost ks = keys@.map_values(|k: PropertyKey| k@);
    let mut out: Vec<GraphPathChild> = Vec::new();
    let mut i: usize = 0;
    while i < keys.len()
        invariant
            i <= keys.len(),
            ks == keys@.map_values(|k: PropertyKey| k@),
            out@.map_values(|x: GraphPathChild| x@) == key_children(node@, ks.take(i as int)),
        decreases keys.len() - i,
    {
        let key = keys[i].duplicate();
        let name = match PathName::new(key.as_str()) {
            Ok(n) => n,
            Err(_) => vstd::pervasive::unreached(),
        };
        let child = GraphPathChild { name, entry: GraphPathEntry::Property { node: node.duplicate(), key } };
        let ghost prev = out@;
        let ghost cv = child@;
        out.push(child);
        proof {
            assert(ks[i as int] == keys@[i as int]@);
            assert(out@.map_values(|x: GraphPathChild| x@) =~= prev.map_values(|x: GraphPathChild| x@).push(cv));
            assert(key_children(node@, ks.take(i + 1)) =~= key_children(node@, ks.take(i as int)).push(cv));
        }
        i += 1;
    }
    assert(ks.take(keys.len() as int) =~= ks);
    out
}

/// Pushes a call file entry named `name` when the name can name an entry.
fn push_call(out: &mut Vec<GraphPathChild>, name: &str, node: &NodeId)
    ensures
        final(out)@.map_values(|x: GraphPathChild| x@) == old(out)@.map_values(|x: GraphPathChild| x@) + if valid_identifier(
            IdentifierClass::PathName,
            name@,
        ) {
            seq![ChildModel { name: name@, entry: EntryModel::Property(node@, "call"@) }]
        } else {
            Seq::<ChildModel>::empty()
        },
{
    proof {
        reveal_strlit("call");
        assert(valid_identifier(IdentifierClass::PropertyKey, "call"@));
    }
    let ghost prev = out@;
    match PathName::new(name) {
        Ok(n) => {
            let child = GraphPathChild {
                name: n,
                entry: GraphPathEntry::Property { node: node.duplicate(), key: known_key("call") },
            };
            let ghost cv = child@;
            out.push(child);
            assert(out@.map_values(|x: GraphPathChild| x@) =~= prev.map_values(|x: GraphPathChild| x@).push(cv));
        },
        Err(_) => {
            assert(out@.map_values(|x: GraphPathChild| x@) =~= prev.map_values(|x: GraphPathChild| x@) + Seq::<ChildModel>::empty());
        },
    }
}

/// Pushes the call files of method `j` of interface `i` of an object.
fn push_method_calls(
    out: &mut Vec<GraphPathChild>,
    service: &ServiceSnapshot,
    object: &ObjectSnapshot,
    i: usize,
    j: usize,
)
    requires
        i < object.methods.entries().len(),
        j < object.methods.entries()[i as int].1.entries().len(),
    ensures
        final(out)@.map_values(|x: GraphPathChild| x@) == old(out)@.map_values(|x: GraphPathChild| x@) + calls_for(
            service@.config,
            object@,
            object.methods.keys()[i as int],
            object.methods.entries()[i as int].1.keys()[j as int],
        ),
{
    proof {
        reveal_strlit(".call");
        reveal_strlit(".");
    }
    let iface = object.methods.key_at(i);
    let table = object.methods.value_at(i);
    let method = table.key_at(j);
    let ghost ci = iface@;
    let ghost cm = method@;
    let ghost prev = out@.map_values(|x: GraphPathChild| x@);
    let node = match service_method_node(service, object, iface.as_str(), method.as_str()) {
        Ok(n) => n,
        Err(_) => {
            assert(calls_for(service@.config, object@, ci, cm) =~= Seq::<ChildModel>::empty());
            assert(out@.map_values(|x: GraphPathChild| x@) =~= prev + Seq::<ChildModel>::empty());
            return;
        },
    };
    if count_method_interfaces(object, method.as_str()) == 1 {
        let bare = concat2(method.as_str(), ".call");
        push_call(out, bare.as_str(), &node);
    }
    let ghost mid = out@.map_values(|x: GraphPathChild| x@);
    let dotted = concat3(iface.as_str(), ".", method.as_str());
    let qualified = concat2(dotted.as_str(), ".call");
    push_call(out, qualified.as_str(), &node);
    assert(out@.map_values(|x: GraphPathChild| x@) =~= prev + calls_for(service@.config, object@, ci, cm));
}

/// Pushes the call files of the methods of an object.
fn push_object_calls(out: &mut Vec<GraphPathChild>, service: &ServiceSnapshot, object: &ObjectSnapshot)
    ensures
        final(out)@.map_values(|x: GraphPathChild| x@) == old(out)@.map_values(|x: GraphPathChild| x@) + call_children(
            service@.config,
            object@,
            keys_of(object@.methods),
        ),
{
    let ghost c = service@.config;
    let ghost o = object@;
    let n = object.methods.len();
    let ghost ks = object.methods.keys();
    proof {
        lemma_method_ifaces_keys(object.methods);
    }
    let ghost base = out@.map_values(|x: GraphPathChild| x@);
    let mut i: usize = 0;
    assert(ks.take(0) =~= Seq::<Seq<char>>::empty());
    assert(base + call_children(c, o, ks.take(0)) =~= base);
    while i < n
        invariant
            n == ks.len(),
            n == object.methods.entries().len(),
            ks == object.methods.keys(),
            keys_of(o.methods) == ks,
            c == service@.config,
            o == object@,
            forall|q: int|
                0 <= q < ks.len() ==> #[trigger] o.methods.contains_key(ks[q]) && o.methods[ks[q]] == methods_view(
                    object.methods.entries()[q].1,
                ),
            i <= n,
            out@.map_values(|x: GraphPathChild| x@) == base + call_children(c, o, ks.take(i as int)),
        decreases n - i,
    {
        let table = object.methods.value_at(i);
        let m = table.len();
        let ghost mks = table.keys();
        proof {
            lemma_methods_keys(*table);
        }
        assert(o.methods.contains_key(ks[i as int]));
        assert(keys_of(o.methods[ks[i as int]]) == mks);
        let ghost mid = out@.map_values(|x: GraphPathChild| x@);
        let mut j: usize = 0;
        assert(mks.take(0) =~= Seq::<Seq<char>>::empty());
        assert(mid + iface_call_children(c, o, ks[i as int], mks.take(0)) =~= mid);
        while j < m
            invariant
                n == ks.len(),
                n == object.methods.entries().len(),
                ks == object.methods.keys(),
                i < n,
                m == mks.len(),
                m == table.entries().len(),
                *table == object.methods.entries()[i as int].1,
                mks == table.keys(),
                c == service@.config,
                o == object@,
                j <= m,
                out@.map_values(|x: GraphPathChild| x@) == mid + iface_call_children(c, o, ks[i as int], mks.take(j as int)),
            decreases m - j,
        {
            push_method_calls(out, service, object, i, j);
            assert(mks.take(j + 1).drop_last() =~= mks.take(j as int));
            assert(mks.take(j + 1).last() == mks[j as int]);
            j += 1;
        }
        assert(mks.take(m as int) =~= mks);
        assert(ks.take(i + 1).drop_last() =~= ks.take(i as int));
        assert(ks.take(i + 1).last() == ks[i as int]);
        i += 1;
    }
    assert(ks.take(n as int) =~= ks);
}

impl DbusState {
    /// What looking up `name` in a directory of the tree answers.
    pub fn path_lookup_child(&self, parent: &GraphPathDirectory, name: &PathName) -> (r: Result<
        Option<GraphPathEntry>,
    >)
        ensures
            lookup_result(services_of(*self), parent@, name@, r),
    {
        proof {
            lemma_dbus_names();
            reveal_strlit("call");
        }
        let (b, p) = match self.resolve_dir(parent) {
            None => return Ok(None),
            Some(x) => x,
        };
        let paths = self.bus_object_paths(b);
        let segs = segments_of(&paths, p.as_str());
        let n = name.as_str();
        if texts_contain(&segs, n) {
            return Ok(Some(GraphPathEntry::Directory(sub_dir_of(b, p.as_str(), n))));
        }
        let at = at_path_of(p.as_str());
        let (service, object) = match self.holder_at(b, at.as_str()) {
            None => return Ok(None),
            Some(x) => x,
        };
        let props = match object_properties(service, object) {
            Ok(m) => m,
            Err(e) => return Err(e),
        };
        if props.contains_key(n) {
            let node = match NodeId::new(known_kind(DBUS_OBJECT_KIND), object_node_local(service, object).as_str()) {
                Ok(x) => x,
                Err(e) => return Err(e),
            };
            return Ok(Some(GraphPathEntry::Property { node, key: known_key(n) }));
        }
        let stem = match call_stem_of(n) {
            None => return Ok(None),
            Some(x) => x,
        };
        proof {
            lemma_object_names(object);
        }
        match find_member(&object.methods, stem.as_str()) {
            None => Ok(None),
            Some((a, c)) => {
                let iface = object.methods.key_at(a);
                let table = object.methods.value_at(a);
                let method = table.key_at(c);
                proof {
                    use_type_invariant(&object.methods);
                    use_type_invariant(&table);
                }
                match service_method_node(service, object, iface.as_str(), method.as_str()) {
                    Ok(node) => Ok(Some(GraphPathEntry::Property { node, key: known_key("call") })),
                    Err(e) => Err(e),
                }
            },
        }
    }

    /// The entries of a directory of the tree.
    pub fn path_children(&self, parent: &GraphPathDirectory) -> (r: Result<Option<Vec<GraphPathChild>>>)
        ensures
            children_result(services_of(*self), parent@, r),
    {
        proof {
            lemma_dbus_names();
        }
        let (b, p) = match self.resolve_dir(parent) {
            None => return Ok(None),
            Some(x) => x,
        };
        let paths = self.bus_object_paths(b);
        let segs = segments_of(&paths, p.as_str());
        let ghost sv = texts_of(segs@);
        let mut out: Vec<GraphPathChild> = Vec::new();
        let mut i: usize = 0;
        while i < segs.len()
            invariant
                i <= segs.len(),
                sv == texts_of(segs@),
                sv == segments_below(bus_paths(services_of(*self), b), p@),
                out@.map_values(|x: GraphPathChild| x@) == dir_children(b, p@, sv.take(i as int)),
            decreases segs.len() - i,
        {
            proof {
                lemma_segments_valid(bus_paths(services_of(*self), b), p@, i as int);
            }
            let name = match PathName::new(segs[i].as_str()) {
                Ok(x) => x,
                Err(_) => vstd::pervasive::unreached(),
            };
            let child = GraphPathChild {
                name,
                entry: GraphPathEntry::Directory(sub_dir_of(b, p.as_str(), segs[i].as_str())),
            };
            let ghost prev = out@;
            let ghost cv = child@;
            out.push(child);
            proof {
                assert(out@.map_values(|x: GraphPathChild| x@) =~= prev.map_values(|x: GraphPathChild| x@).push(cv));
                assert(dir_children(b, p@, sv.take(i + 1)) =~= dir_children(b, p@, sv.take(i as int)).push(cv));
            }
            i += 1;
        }
        assert(sv.take(segs.len() as int) =~= sv);
        let at = at_path_of(p.as_str());
        let (service, object) = match self.holder_at(b, at.as_str()) {
            None => return Ok(Some(out)),
            Some(x) => x,
        };
        let props = match object_properties(service, object) {
            Ok(m) => m,
            Err(e) => return Err(e),
        };
        let node = match NodeId::new(known_kind(DBUS_OBJECT_KIND), object_node_local(service, object).as_str()) {
            Ok(x) => x,
            Err(e) => return Err(e),
        };
        let mut keyed = key_children_of(&node, &props);
        let ghost dirs = out@;
        let ghost kv = keyed@;
        out.append(&mut keyed);
        assert(out@ =~= dirs + kv);
        assert(out@.map_values(|x: GraphPathChild| x@) =~= dirs.map_values(|x: GraphPathChild| x@) + kv.map_values(
            |x: GraphPathChild| x@,
        ));
        push_object_calls(&mut out, service, object);
        Ok(Some(out))
    }
}

/// Every segment below a directory can name an entry.
proof fn lemma_segments_valid(qs: Seq<Seq<char>>, p: Seq<char>, i: int)
    requires
        0 <= i < segments_below(qs, p).len(),
    ensures
        valid_identifier(IdentifierClass::PathName, segments_below(qs, p)[i]),
    decreases qs.len(),
{
    if qs.len() > 0 {
        let prev = segments_below(qs.drop_last(), p);
        if i < prev.len() {
            lemma_segments_valid(qs.drop_last(), p, i);
        }
    }
}


/// A segment listed below a directory comes from some path that passes
/// through it.
proof fn lemma_segment_source(qs: Seq<Seq<char>>, p: Seq<char>, seg: Seq<char>) -> (j: int)
    requires
        segments_below(qs, p).contains(seg),
    ensures
        0 <= j < qs.len(),
        child_segment(qs[j], p) == Some(seg),
    decreases qs.len(),
{
    let prev = segments_below(qs.drop_last(), p);
    if prev.contains(seg) {
        let j = lemma_segment_source(qs.drop_last(), p, seg);
        assert(qs.drop_last()[j] == qs[j]);
        j
    } else {
        qs.len() - 1
    }
}

/// A path that passes through segment `seg` below `p` is `p/seg` or lies
/// below it.
/// A char that occurs in a text occurs first somewhere.
proof fn lemma_first_occurrence(s: Seq<char>, c: char) -> (m: int)
    requires
        s.contains(c),
    ensures
        0 <= m < s.len(),
        s[m] == c,
        forall|j: int| 0 <= j < m ==> s[j] != c,
        first_index_of(s, c) == m,
    decreases s.len(),
{
    let i = choose|i: int| 0 <= i < s.len() && s[i] == c;
    let t = s.take(i);
    let m = if t.contains(c) {
        let m0 = lemma_first_occurrence(t, c);
        assert forall|j: int| 0 <= j < m0 implies s[j] != c by {
            assert(s[j] == t[j]);
        }
        assert(s[m0] == t[m0]);
        m0
    } else {
        assert forall|j: int| 0 <= j < i implies s[j] != c by {
            assert(s[j] == t[j]);
        }
        i
    };
    crate::text::lemma_first_index_unique(s, c, m);
    m
}

proof fn lemma_path_through(q: Seq<char>, head: Seq<char>, seg: Seq<char>, k: int)
    requires
        head.len() <= q.len(),
        q.take(head.len() as int) == head,
        0 <= k < q.len() - head.len(),
        q[head.len() + k] == '/',
        seg == q.skip(head.len() as int).take(k),
    ensures
        has_prefix(q, head + seg + "/"@),
{
    reveal_strlit("/");
    let hl = head.len() as int;
    let whole = head + seg + "/"@;
    assert forall|i: int| 0 <= i < whole.len() implies q[i] == whole[i] by {
        if i < hl {
            assert(q[i] == q.take(hl)[i]);
        } else if i < hl + k {
            assert(whole[i] == seg[i - hl]);
            assert(seg[i - hl] == q.skip(hl)[i - hl]);
        }
    }
    assert(q.take(whole.len() as int) =~= whole);
}

proof fn lemma_path_at(q: Seq<char>, head: Seq<char>, seg: Seq<char>)
    requires
        head.len() <= q.len(),
        q.take(head.len() as int) == head,
        seg == q.skip(head.len() as int),
    ensures
        q == head + seg,
{
    let hl = head.len() as int;
    assert forall|i: int| 0 <= i < q.len() implies q[i] == (head + seg)[i] by {
        if i < hl {
            assert(q[i] == q.take(hl)[i]);
        }
    }
    assert(q =~= head + seg);
}

proof fn lemma_segment_reaches(q: Seq<char>, p: Seq<char>, seg: Seq<char>)
    requires
        child_segment(q, p) == Some(seg),
    ensures
        q == p + "/"@ + seg || has_prefix(q, p + "/"@ + seg + "/"@),
{
    let head = p + "/"@;
    assert(has_prefix(q, head));
    let rest = q.skip(head.len() as int);
    assert(rest.len() == q.len() - head.len());
    if rest.contains('/') {
        let k = lemma_first_occurrence(rest, '/');
        assert(split_once_spec(rest, '/') == Some((rest.take(k), rest.skip(k + 1))));
        assert(seg == rest.take(k));
        assert(rest[k] == q[head.len() + k]);
        lemma_path_through(q, head, seg, k);
    } else {
        assert(split_once_spec(rest, '/') is None);
        lemma_path_at(q, head, seg);
    }
}

/// Every directory that a directory of the tree lists is itself a
/// directory of the tree, standing for the prefix one segment longer.
pub proof fn lemma_listed_directories_exist(
    services: Map<Seq<char>, ServiceView>,
    b: BusKind,
    p: Seq<char>,
    seg: Seq<char>,
)
    requires
        segments_below(bus_paths(services, b), p).contains(seg),
    ensures
        dbus_dir(services, sub_dir(b, p, seg)) == Some((b, p + "/"@ + seg)),
{
    lemma_dbus_names();
    reveal_strlit(":");
    reveal_strlit("/");
    let qs = bus_paths(services, b);
    let j = lemma_segment_source(qs, p, seg);
    lemma_segment_reaches(qs[j], p, seg);
    let below = p + "/"@ + seg;
    assert(reaches(qs, below));
    let bt = bus_text(b);
    let local = bt + ":"@ + below;
    reveal_strlit("system");
    reveal_strlit("session");
    assert(forall|i: int| 0 <= i < bt.len() ==> bt[i] != ':') by {
        match b {
            BusKind::System => assert(bt =~= seq!['s', 'y', 's', 't', 'e', 'm']),
            BusKind::Session => assert(bt =~= seq!['s', 'e', 's', 's', 'i', 'o', 'n']),
        }
    }
    assert(local[bt.len() as int] == ':');
    crate::text::lemma_first_index_unique(local, ':', bt.len() as int);
    assert(local.take(bt.len() as int) =~= bt);
    assert(local.skip(bt.len() as int + 1) =~= below);
    assert(split_once_spec(local, ':') == Some((bt, below)));
    assert(bus_named(bt) == Some(b));
    assert(below.len() > 0);
}

/// Looking up a directory that a directory lists finds that directory.
pub proof fn lemma_listed_directories_resolve(
    services: Map<Seq<char>, ServiceView>,
    d: DirectoryModel,
    seg: Seq<char>,
    r: Result<Option<GraphPathEntry>>,
)
    requires
        dbus_dir(services, d) matches Some((b, p)) && segments_below(bus_paths(services, b), p).contains(seg),
        lookup_result(services, d, seg, r),
    ensures
        r matches Ok(e) && (dbus_dir(services, d) matches Some((b, p)) && entry_view_of(e) == Some(
            EntryModel::Directory(sub_dir(b, p, seg)),
        )),
{
}


proof fn lemma_insert_all_finite(m: Map<Seq<char>, ValueModel>, entries: Seq<(Seq<char>, ValueModel)>)
    requires
        m.dom().finite(),
    ensures
        insert_all(m, entries).dom().finite(),
    decreases entries.len(),
{
    if entries.len() > 0 {
        lemma_insert_all_finite(m, entries.drop_last());
    }
}

/// The properties of every node of the plugin are finitely many.
proof fn lemma_node_properties_finite(services: Map<Seq<char>, ServiceView>, node: NodeIdView)
    ensures
        node_properties_spec(services, node) matches Some(m) ==> m.dom().finite(),
{
    match node_properties_spec(services, node) {
        Some(m) => {
            if node.kind == "dbus-object"@ {
                let (sk, pk) = object_entry_spec(services, node.local)->0;
                let c = services[sk].config;
                let o = services[sk].objects[pk];
                lemma_insert_all_finite(object_base_properties(c, o), object_entries(o, keys_of(o.interfaces)));
            }
        },
        None => {},
    }
}

/// What the plugin lists of a node's properties agrees with what it
/// answers of each property: the listed keys increase, each listed spec is
/// the spec of its key and the value of its key has the listed kind, a
/// readable key is listed, and a node that is not found is not found by any
/// of the three queries.
pub proof fn lemma_dbus_listing_agrees(
    s: DbusState,
    node: NodeIdView,
    key: Seq<char>,
    listed: Result<Vec<PropertySpec>>,
    spec_r: Result<PropertySpec>,
    value_r: Result<LocusValue>,
)
    requires
        properties_result(s, node_properties_spec(services_of(s), node), node, listed),
        property_spec_result(s, node_properties_spec(services_of(s), node), node, key, spec_r),
        property_result(node_properties_spec(services_of(s), node), node, key, value_r),
    ensures
        listing_agrees(node, key, listed, spec_r, value_r),
{
    lemma_node_properties_finite(services_of(s), node);
    lemma_listing_agrees_with_queries(
        s,
        node_properties_spec(services_of(s), node),
        node,
        key,
        listed,
        spec_r,
        value_r,
    );
}


/// The services a run of configurations starts as: one per local id that
/// some configuration has, none running and none with objects.
proof fn lemma_services_from_shape(configs: Seq<ServiceConfigView>)
    ensures
        services_from(configs).dom().finite(),
        forall|l: Seq<char>|
            #[trigger] services_from(configs).contains_key(l) <==> exists|i: int|
                0 <= i < configs.len() && configs[i].local_id == l,
        forall|l: Seq<char>|
            #[trigger] services_from(configs).contains_key(l) ==> services_from(configs)[l].owner is None
                && services_from(configs)[l].objects == Map::<Seq<char>, ObjectView>::empty(),
    decreases configs.len(),
{
    if configs.len() > 0 {
        let prev = configs.drop_last();
        lemma_services_from_shape(prev);
        assert forall|l: Seq<char>|
            #[trigger] services_from(configs).contains_key(l) <==> exists|i: int|
                0 <= i < configs.len() && configs[i].local_id == l by {
            if services_from(configs).contains_key(l) && l != configs.last().local_id {
                let i = choose|i: int| 0 <= i < prev.len() && prev[i].local_id == l;
                assert(configs[i] == prev[i]);
            }
            if exists|i: int| 0 <= i < configs.len() && configs[i].local_id == l {
                let i = choose|i: int| 0 <= i < configs.len() && configs[i].local_id == l;
                if i < prev.len() {
                    assert(prev[i] == configs[i]);
                }
            }
        }
    } else {
        assert(services_from(configs).dom() =~= Set::<Seq<char>>::empty());
    }
}

proof fn lemma_concat_all_empty<T>(parts: Seq<Seq<T>>)
    requires
        forall|i: int| 0 <= i < parts.len() ==> (#[trigger] parts[i]).len() == 0,
    ensures
        concat_all(parts).len() == 0,
    decreases parts.len(),
{
    if parts.len() > 0 {
        lemma_concat_all_empty(parts.drop_last());
    }
}

/// A state built from configurations holds exactly the configured
/// services, none running and none with objects, so it has no object and
/// no method nodes; a snapshot is refused exactly for a local id that no
/// configuration has.
pub proof fn lemma_new_state_is_empty(configs: Seq<ServiceConfigView>)
    ensures
        forall|l: Seq<char>|
            #[trigger] services_from(configs).contains_key(l) <==> exists|i: int|
                0 <= i < configs.len() && configs[i].local_id == l,
        forall|l: Seq<char>|
            #[trigger] services_from(configs).contains_key(l) ==> services_from(configs)[l].owner is None
                && services_from(configs)[l].objects == Map::<Seq<char>, ObjectView>::empty(),
        all_object_ids(services_from(configs)) == Seq::<Seq<char>>::empty(),
        all_method_ids(services_from(configs)) == Seq::<Seq<char>>::empty(),
{
    let sv = services_from(configs);
    lemma_services_from_shape(configs);
    lemma_sorted_keys_exist(sv.dom());
    lemma_sorted_keys_exist(Set::<Seq<char>>::empty());
    let none = sorted_keys_of(Set::<Seq<char>>::empty());
    if none.len() > 0 {
        assert(none.to_set().contains(none[0]));
    }
    let ks = keys_of(sv);
    let objs = ks.map_values(|k: Seq<char>| service_object_ids(sv[k]));
    let meths = ks.map_values(|k: Seq<char>| service_method_ids(sv[k]));
    assert forall|i: int| 0 <= i < objs.len() implies (#[trigger] objs[i]).len() == 0 by {
        assert(ks.to_set().contains(ks[i]));
        assert(sv[ks[i]].objects.dom() =~= Set::<Seq<char>>::empty());
    }
    assert forall|i: int| 0 <= i < meths.len() implies (#[trigger] meths[i]).len() == 0 by {
        assert(ks.to_set().contains(ks[i]));
        assert(sv[ks[i]].objects.dom() =~= Set::<Seq<char>>::empty());
        let parts = keys_of(sv[ks[i]].objects).map_values(
            |p: Seq<char>| object_method_ids(sv[ks[i]].config.object_manager_path, sv[ks[i]].objects[p]),
        );
        lemma_concat_all_empty(parts);
    }
    lemma_concat_all_empty(objs);
    lemma_concat_all_empty(meths);
    assert(all_object_ids(sv) =~= Seq::<Seq<char>>::empty());
    assert(all_method_ids(sv) =~= Seq::<Seq<char>>::empty());
}

} // verus!
