//! DBusMenu menus projected into the graph: a facade node `dbusmenu:menu`
//! related to one `dbusmenu-menu` node per menu endpoint, whose items are
//! `dbusmenu-item` nodes.
use vstd::prelude::*;

use crate::change::{change_models, lemma_change_models_push, ChangeModel, GraphChange};
use crate::error::{is_invalid_value, is_not_found, GraphError, Result};
use crate::id_map::{lemma_id_entry, ids_increasing, IdMap};
use crate::identity::{identifier_error, node_id_text, valid_identifier, IdentifierClass, NodeId, NodeIdView, NodeKind, PropertyKey, RelationName};
use crate::projection::{answer_properties, answer_property, answer_property_spec, answer_relations, answer_targets, entry_text, known_kind, known_relation, lemma_node_views_push, node_views, nodes_sorted, properties_result, property_models, property_result, property_spec_result, props_option, put, relation_models, relations_result, rels_option, sort_nodes, targets_result, Access, AccessPolicy, PropertyMap, RelationMap, all_valid, some_invalid_error, lemma_invalid_within, lemma_valid_concat, entry_name, lemma_map_keys_sorted, strictly_sorted};
use crate::text::{chars_of, concat2, concat3, i32_text, is_blank, owned, padded4, parse_i32, parse_i32_spec, push_char, rsplit_once_char, rsplit_once_spec, signed_decimal, split_once_char, split_once_spec, starts_with, strip_leading, text_eq, trim_spec, trim_start_matches_char, u32_text_padded4, has_prefix};
use crate::text_map::{lemma_entries_map_at, sorted_by_key, TextKey, TextMap};
use crate::text::{lemma_text_lt_irreflexive, text_lt};
use crate::value::{LocusValue, PropertySpec, ValueModel};

verus! {

pub const DBUSMENU_KIND: &'static str = "dbusmenu";

pub const DBUSMENU_MENU_KIND: &'static str = "dbusmenu-menu";

pub const DBUSMENU_ITEM_KIND: &'static str = "dbusmenu-item";

pub const MENU_NODE: &'static str = "menu";

pub const MENU_RELATION: &'static str = "menu";

pub const ITEM_RELATION: &'static str = "item";

pub const CHILD_RELATION: &'static str = "child";

const SOURCE: &'static str = "dbusmenu";

const ACTIVATE_PROPERTY: &'static str = "activate";

const DEFAULT_ITEM_PATH: &'static str = "/StatusNotifierItem";

/// The DBusMenu plugin.
#[derive(Debug, Default)]
pub struct DbusMenuPlugin;

/// The watcher of StatusNotifier menus.
#[derive(Debug, Default)]
pub struct DbusMenuRuntime;

/// The bus a menu lives on.
#[derive(Clone, Copy, Debug, PartialEq, Eq, Structural)]
pub enum BusKind {
    Session,
    System,
}

pub open spec fn bus_text(b: BusKind) -> Seq<char> {
    match b {
        BusKind::Session => "session"@,
        BusKind::System => "system"@,
    }
}

impl BusKind {
    pub fn as_str(self) -> (r: &'static str)
        ensures
            r@ == bus_text(self),
    {
        match self {
            BusKind::Session => "session",
            BusKind::System => "system",
        }
    }
}

impl Default for BusKind {
    fn default() -> (r: BusKind)
        ensures
            r == BusKind::Session,
    {
        BusKind::Session
    }
}

/// One item of a menu.
#[derive(Debug, PartialEq, Eq)]
pub struct DbusMenuItem {
    pub menu_id: String,
    pub bus: BusKind,
    pub service: String,
    pub path: String,
    pub item_id: i32,
    pub parent_id: Option<i32>,
    pub position: u32,
    pub child_ids: Vec<i32>,
    pub label: String,
    pub enabled: bool,
    pub visible: bool,
    pub item_type: String,
    pub toggle_type: String,
    pub toggle_state: i32,
    pub icon_name: String,
    pub disposition: String,
}

/// A menu endpoint: a bus name and object path, and its items.
pub struct DbusMenuEndpoint {
    pub local_id: String,
    pub bus: BusKind,
    pub service: String,
    pub path: String,
    pub revision: u32,
    pub root_items: Vec<i32>,
    pub items: IdMap<DbusMenuItem>,
}

/// The DBusMenu part of the graph.
pub struct DbusMenuState {
    menus: TextMap<String, DbusMenuEndpoint>,
}

/// A configured menu.
pub struct MenuConfig {
    pub service: String,
    pub path: String,
    pub bus: BusKind,
    pub local_id: Option<String>,
}

/// The plugin's configuration.
pub struct DbusMenuConfig {
    pub menus: Vec<MenuConfig>,
}

pub struct DbusMenuItemView {
    pub menu_id: Seq<char>,
    pub bus: BusKind,
    pub service: Seq<char>,
    pub path: Seq<char>,
    pub item_id: i32,
    pub parent_id: Option<i32>,
    pub position: u32,
    pub child_ids: Seq<i32>,
    pub label: Seq<char>,
    pub enabled: bool,
    pub visible: bool,
    pub item_type: Seq<char>,
    pub toggle_type: Seq<char>,
    pub toggle_state: i32,
    pub icon_name: Seq<char>,
    pub disposition: Seq<char>,
}

impl View for DbusMenuItem {
    type V = DbusMenuItemView;

    open spec fn view(&self) -> DbusMenuItemView {
        DbusMenuItemView {
            menu_id: self.menu_id@,
            bus: self.bus,
            service: self.service@,
            path: self.path@,
            item_id: self.item_id,
            parent_id: self.parent_id,
            position: self.position,
            child_ids: self.child_ids@,
            label: self.label@,
            enabled: self.enabled,
            visible: self.visible,
            item_type: self.item_type@,
            toggle_type: self.toggle_type@,
            toggle_state: self.toggle_state,
            icon_name: self.icon_name@,
            disposition: self.disposition@,
        }
    }
}

pub struct DbusMenuEndpointView {
    pub local_id: Seq<char>,
    pub bus: BusKind,
    pub service: Seq<char>,
    pub path: Seq<char>,
    pub revision: u32,
    pub root_items: Seq<i32>,
    pub item_ids: Seq<i32>,
    pub items: Map<i32, DbusMenuItemView>,
}

impl View for DbusMenuEndpoint {
    type V = DbusMenuEndpointView;

    open spec fn view(&self) -> DbusMenuEndpointView {
        DbusMenuEndpointView {
            local_id: self.local_id@,
            bus: self.bus,
            service: self.service@,
            path: self.path@,
            revision: self.revision,
            root_items: self.root_items@,
            item_ids: self.items.keys(),
            items: self.items.map().map_values(|i: DbusMenuItem| i@),
        }
    }
}

/// The local id of an item: `<menu id>:<position, four digits>:<item id>`.
pub open spec fn item_local_id(i: DbusMenuItemView) -> Seq<char> {
    i.menu_id + ":"@ + padded4(i.position as nat) + ":"@ + signed_decimal(i.item_id as int)
}

pub open spec fn facade_view() -> NodeIdView {
    NodeIdView { kind: "dbusmenu"@, local: "menu"@ }
}

pub open spec fn menu_view(local: Seq<char>) -> NodeIdView {
    NodeIdView { kind: "dbusmenu-menu"@, local }
}

pub open spec fn item_view(local: Seq<char>) -> NodeIdView {
    NodeIdView { kind: "dbusmenu-item"@, local }
}

/// Menus keyed by local id.
pub closed spec fn menus_of(s: DbusMenuState) -> Map<Seq<char>, DbusMenuEndpointView> {
    s.menus.map().map_values(|m: DbusMenuEndpoint| m@)
}

/// The item a local id names: its item id follows the last `:`, its menu
/// id precedes the `:` before that.
pub open spec fn item_spec(menus: Map<Seq<char>, DbusMenuEndpointView>, local: Seq<char>) -> Option<
    DbusMenuItemView,
> {
    match rsplit_once_spec(local, ':') {
        Some((prefix, id_text)) => match rsplit_once_spec(prefix, ':') {
            Some((menu_id, _)) => match parse_i32_spec(id_text) {
                Some(id) => if menus.contains_key(menu_id) && menus[menu_id].items.contains_key(id) {
                    Some(menus[menu_id].items[id])
                } else {
                    None
                },
                None => None,
            },
            None => None,
        },
        None => None,
    }
}

/// The properties of the facade.
pub open spec fn facade_properties_spec() -> Map<Seq<char>, ValueModel> {
    Map::<Seq<char>, ValueModel>::empty().insert("kind"@, ValueModel::Text("dbusmenu"@)).insert(
        "source"@,
        ValueModel::Text("dbusmenu"@),
    )
}

/// The properties of a menu.
pub open spec fn endpoint_properties_spec(e: DbusMenuEndpointView) -> Map<Seq<char>, ValueModel> {
    Map::<Seq<char>, ValueModel>::empty().insert("kind"@, ValueModel::Text("dbusmenu-menu"@)).insert(
        "source"@,
        ValueModel::Text("dbusmenu"@),
    ).insert("bus"@, ValueModel::Text(bus_text(e.bus))).insert(
        "service"@,
        ValueModel::Text(e.service),
    ).insert("path"@, ValueModel::Text(e.path)).insert("revision"@, ValueModel::U32(e.revision))
}

/// The first properties of an item.
pub open spec fn item_head(i: DbusMenuItemView) -> Map<Seq<char>, ValueModel> {
    Map::<Seq<char>, ValueModel>::empty().insert("kind"@, ValueModel::Text("dbusmenu-item"@)).insert(
        "source"@,
        ValueModel::Text("dbusmenu"@),
    ).insert("menu-id"@, ValueModel::Text(i.menu_id)).insert(
        "item-id"@,
        ValueModel::I32(i.item_id),
    ).insert("position"@, ValueModel::U32(i.position)).insert(
        "parent-id"@,
        ValueModel::I32(
            match i.parent_id {
                Some(p) => p,
                None => 0,
            },
        ),
    ).insert("label"@, ValueModel::Text(i.label)).insert(
        "enabled"@,
        ValueModel::Bool(i.enabled),
    )
}

/// The properties of an item.
pub open spec fn item_properties_spec(i: DbusMenuItemView) -> Map<Seq<char>, ValueModel> {
    item_head(i).insert("visible"@, ValueModel::Bool(i.visible)).insert(
        "type"@,
        ValueModel::Text(i.item_type),
    ).insert("toggle-type"@, ValueModel::Text(i.toggle_type)).insert(
        "toggle-state"@,
        ValueModel::I32(i.toggle_state),
    ).insert("icon-name"@, ValueModel::Text(i.icon_name)).insert(
        "disposition"@,
        ValueModel::Text(i.disposition),
    ).insert("activate"@, ValueModel::Bool(false))
}

/// The properties of a node, or `None` when it does not exist.
pub open spec fn node_properties_spec(s: DbusMenuState, node: NodeIdView) -> Option<
    Map<Seq<char>, ValueModel>,
> {
    if node == facade_view() {
        Some(facade_properties_spec())
    } else if node.kind == "dbusmenu-menu"@ && menus_of(s).contains_key(node.local) {
        Some(endpoint_properties_spec(menus_of(s)[node.local]))
    } else if node.kind == "dbusmenu-item"@ && item_spec(menus_of(s), node.local) is Some {
        Some(item_properties_spec(item_spec(menus_of(s), node.local).unwrap()))
    } else {
        None
    }
}

/// Whether a node exists.
pub open spec fn contains_spec(s: DbusMenuState, node: NodeIdView) -> bool {
    node_properties_spec(s, node) is Some
}

/// The `activate` property of an item is read-write; every other property
/// is read-only.
pub struct DbusMenuAccess;

impl AccessPolicy for DbusMenuAccess {
    open spec fn access_spec(&self, node: NodeIdView, key: Seq<char>) -> Access {
        if node.kind == "dbusmenu-item"@ && key == "activate"@ {
            Access::ReadWrite
        } else {
            Access::ReadOnly
        }
    }

    fn access(&self, node: &NodeId, key: &PropertyKey) -> (r: Access) {
        if text_eq(node.kind().as_str(), DBUSMENU_ITEM_KIND) && text_eq(
            key.as_str(),
            ACTIVATE_PROPERTY,
        ) {
            Access::ReadWrite
        } else {
            Access::ReadOnly
        }
    }
}

/// The names the plugin uses are distinct and valid.
proof fn lemma_dbusmenu_names()
    ensures
        "dbusmenu"@ != "dbusmenu-menu"@,
        "dbusmenu"@ != "dbusmenu-item"@,
        "dbusmenu-menu"@ != "dbusmenu-item"@,
        valid_identifier(IdentifierClass::NodeKind, "dbusmenu"@),
        valid_identifier(IdentifierClass::NodeKind, "dbusmenu-menu"@),
        valid_identifier(IdentifierClass::NodeKind, "dbusmenu-item"@),
        valid_identifier(IdentifierClass::NodeLocalId, "menu"@),
        valid_identifier(IdentifierClass::RelationName, "menu"@),
        valid_identifier(IdentifierClass::RelationName, "item"@),
        valid_identifier(IdentifierClass::RelationName, "child"@),
        "menu"@ != "item"@,
        "menu"@ != "child"@,
        "item"@ != "child"@,
{
    reveal_strlit("dbusmenu");
    reveal_strlit("dbusmenu-menu");
    reveal_strlit("dbusmenu-item");
    reveal_strlit("menu");
    reveal_strlit("item");
    reveal_strlit("child");
    assert("dbusmenu"@.len() == 8);
    assert("dbusmenu-menu"@.len() == 13);
    assert("dbusmenu-item"@.len() == 13);
    assert("dbusmenu-menu"@[9] != "dbusmenu-item"@[9]);
    assert("menu"@.len() == 4);
    assert("item"@.len() == 4);
    assert("child"@.len() == 5);
    assert("menu"@[0] != "item"@[0]);
}

fn copy_ids(v: &Vec<i32>) -> (r: Vec<i32>)
    ensures
        r@ == v@,
{
    let mut out: Vec<i32> = Vec::new();
    let mut i: usize = 0;
    while i < v.len()
        invariant
            i <= v.len(),
            out@ == v@.take(i as int),
        decreases v.len() - i,
    {
        out.push(v[i]);
        assert(v@.take(i + 1) =~= v@.take(i as int).push(v@[i as int]));
        i += 1;
    }
    assert(v@.take(v.len() as int) =~= v@);
    out
}

fn same_ids(a: &Vec<i32>, b: &Vec<i32>) -> (r: bool)
    ensures
        r == (a@ == b@),
{
    if a.len() != b.len() {
        return false;
    }
    let mut i: usize = 0;
    while i < a.len()
        invariant
            i <= a.len(),
            a.len() == b.len(),
            forall|j: int| 0 <= j < i ==> a@[j] == b@[j],
        decreases a.len() - i,
    {
        if a[i] != b[i] {
            return false;
        }
        i += 1;
    }
    assert(a@ =~= b@);
    true
}

impl DbusMenuItem {
    /// The item's local id: `<menu id>:<position, four digits>:<item id>`.
    pub fn local_id(&self) -> (r: String)
        ensures
            r@ == item_local_id(self@),
    {
        proof {
            reveal_strlit(":");
        }
        let position = u32_text_padded4(self.position);
        let id = i32_text(self.item_id);
        let head = concat3(self.menu_id.as_str(), ":", position.as_str());
        concat3(head.as_str(), ":", id.as_str())
    }

    pub fn duplicate(&self) -> (r: DbusMenuItem)
        ensures
            r@ == self@,
    {
        DbusMenuItem {
            menu_id: self.menu_id.clone(),
            bus: self.bus,
            service: self.service.clone(),
            path: self.path.clone(),
            item_id: self.item_id,
            parent_id: self.parent_id,
            position: self.position,
            child_ids: copy_ids(&self.child_ids),
            label: self.label.clone(),
            enabled: self.enabled,
            visible: self.visible,
            item_type: self.item_type.clone(),
            toggle_type: self.toggle_type.clone(),
            toggle_state: self.toggle_state,
            icon_name: self.icon_name.clone(),
            disposition: self.disposition.clone(),
        }
    }

    /// Whether two items have the same fields.
    pub fn same_as(&self, other: &DbusMenuItem) -> (r: bool)
        ensures
            r == (self@ == other@),
    {
        let parent = match (self.parent_id, other.parent_id) {
            (Some(a), Some(b)) => a == b,
            (None, None) => true,
            _ => false,
        };
        text_eq(self.menu_id.as_str(), other.menu_id.as_str()) && self.bus == other.bus && text_eq(
            self.service.as_str(),
            other.service.as_str(),
        ) && text_eq(self.path.as_str(), other.path.as_str()) && self.item_id == other.item_id
            && parent && self.position == other.position && same_ids(
            &self.child_ids,
            &other.child_ids,
        ) && text_eq(self.label.as_str(), other.label.as_str()) && self.enabled == other.enabled
            && self.visible == other.visible && text_eq(
            self.item_type.as_str(),
            other.item_type.as_str(),
        ) && text_eq(self.toggle_type.as_str(), other.toggle_type.as_str())
            && self.toggle_state == other.toggle_state && text_eq(
            self.icon_name.as_str(),
            other.icon_name.as_str(),
        ) && text_eq(self.disposition.as_str(), other.disposition.as_str())
    }

    /// The targets of an item's `child` relation: none.
    fn child_targets(&self) -> (r: Result<Vec<NodeId>>)
        ensures
            r matches Ok(v) && v@.len() == 0,
    {
        Ok(Vec::new())
    }
}

/// The properties of the facade.
fn facade_properties() -> (r: Result<PropertyMap>)
    ensures
        r matches Ok(m) && property_models(m) == facade_properties_spec(),
{
    proof {
        reveal_strlit("kind");
        reveal_strlit("source");
    }
    let mut m: PropertyMap = TextMap::new();
    put(&mut m, "kind", LocusValue::text(DBUSMENU_KIND));
    put(&mut m, "source", LocusValue::text(SOURCE));
    assert(property_models(m) =~= facade_properties_spec());
    Ok(m)
}

/// The properties of a menu.
fn endpoint_properties(endpoint: &DbusMenuEndpoint) -> (r: Result<PropertyMap>)
    ensures
        r matches Ok(m) && property_models(m) == endpoint_properties_spec(endpoint@),
{
    proof {
        reveal_strlit("kind");
        reveal_strlit("source");
        reveal_strlit("bus");
        reveal_strlit("service");
        reveal_strlit("path");
        reveal_strlit("revision");
    }
    let mut m: PropertyMap = TextMap::new();
    put(&mut m, "kind", LocusValue::text(DBUSMENU_MENU_KIND));
    put(&mut m, "source", LocusValue::text(SOURCE));
    put(&mut m, "bus", LocusValue::text(endpoint.bus.as_str()));
    put(&mut m, "service", LocusValue::text(endpoint.service.as_str()));
    put(&mut m, "path", LocusValue::text(endpoint.path.as_str()));
    put(&mut m, "revision", LocusValue::U32(endpoint.revision));
    assert(property_models(m) =~= endpoint_properties_spec(endpoint@));
    Ok(m)
}

/// The properties of an item.
fn item_properties(item: &DbusMenuItem) -> (r: Result<PropertyMap>)
    ensures
        r matches Ok(m) && property_models(m) == item_properties_spec(item@),
{
    proof {
        reveal_strlit("kind");
        reveal_strlit("source");
        reveal_strlit("menu-id");
        reveal_strlit("item-id");
        reveal_strlit("position");
        reveal_strlit("parent-id");
        reveal_strlit("label");
        reveal_strlit("enabled");
        reveal_strlit("visible");
        reveal_strlit("type");
        reveal_strlit("toggle-type");
        reveal_strlit("toggle-state");
        reveal_strlit("icon-name");
        reveal_strlit("disposition");
        reveal_strlit("activate");
    }
    let ghost iv = item@;
    let mut m: PropertyMap = TextMap::new();
    put(&mut m, "kind", LocusValue::text(DBUSMENU_ITEM_KIND));
    put(&mut m, "source", LocusValue::text(SOURCE));
    put(&mut m, "menu-id", LocusValue::text(item.menu_id.as_str()));
    put(&mut m, "item-id", LocusValue::I32(item.item_id));
    put(&mut m, "position", LocusValue::U32(item.position));
    let parent = match item.parent_id {
        Some(p) => p,
        None => 0,
    };
    put(&mut m, "parent-id", LocusValue::I32(parent));
    put(&mut m, "label", LocusValue::text(item.label.as_str()));
    put(&mut m, "enabled", LocusValue::Bool(item.enabled));
    assert(property_models(m) =~= item_head(iv));
    put(&mut m, "visible", LocusValue::Bool(item.visible));
    put(&mut m, "type", LocusValue::text(item.item_type.as_str()));
    put(&mut m, "toggle-type", LocusValue::text(item.toggle_type.as_str()));
    put(&mut m, "toggle-state", LocusValue::I32(item.toggle_state));
    put(&mut m, "icon-name", LocusValue::text(item.icon_name.as_str()));
    put(&mut m, "disposition", LocusValue::text(item.disposition.as_str()));
    put(&mut m, "activate", LocusValue::Bool(false));
    assert(property_models(m) =~= item_properties_spec(iv));
    Ok(m)
}

/// A node of kind `dbusmenu`.
pub fn dbusmenu_node(local: &str) -> (r: Result<NodeId>)
    ensures
        r is Ok <==> valid_identifier(IdentifierClass::NodeLocalId, local@),
        r matches Ok(n) ==> n@ == (NodeIdView { kind: "dbusmenu"@, local: local@ }),
        r matches Err(e) ==> identifier_error(IdentifierClass::NodeLocalId, local@, e),
{
    proof {
        lemma_dbusmenu_names();
    }
    NodeId::new(known_kind(DBUSMENU_KIND), local)
}

/// The node of a menu.
pub fn menu_node(local: &str) -> (r: Result<NodeId>)
    ensures
        r is Ok <==> valid_identifier(IdentifierClass::NodeLocalId, local@),
        r matches Ok(n) ==> n@ == menu_view(local@),
        r matches Err(e) ==> identifier_error(IdentifierClass::NodeLocalId, local@, e),
{
    proof {
        lemma_dbusmenu_names();
    }
    NodeId::new(known_kind(DBUSMENU_MENU_KIND), local)
}

/// The node of an item.
pub fn item_node(local: &str) -> (r: Result<NodeId>)
    ensures
        r is Ok <==> valid_identifier(IdentifierClass::NodeLocalId, local@),
        r matches Ok(n) ==> n@ == item_view(local@),
        r matches Err(e) ==> identifier_error(IdentifierClass::NodeLocalId, local@, e),
{
    proof {
        lemma_dbusmenu_names();
    }
    NodeId::new(known_kind(DBUSMENU_ITEM_KIND), local)
}

/// The facade node.
fn facade_node() -> (r: NodeId)
    ensures
        r@ == facade_view(),
{
    proof {
        lemma_dbusmenu_names();
    }
    match dbusmenu_node(MENU_NODE) {
        Ok(n) => n,
        Err(_) => vstd::pervasive::unreached(),
    }
}

/// A text with each of two characters replaced by `_`.
pub open spec fn underscore(s: Seq<char>, a: char, b: char) -> Seq<char> {
    s.map_values(
        |c: char|
            if c == a || c == b {
                '_'
            } else {
                c
            },
    )
}

fn underscore_chars(s: &str, a: char, b: char) -> (r: String)
    ensures
        r@ == underscore(s@, a, b),
{
    let v = chars_of(s);
    let mut out = String::new();
    let mut i: usize = 0;
    while i < v.len()
        invariant
            i <= v.len(),
            v@ == s@,
            out@ == underscore(v@.take(i as int), a, b),
        decreases v.len() - i,
    {
        let c = v[i];
        if c == a || c == b {
            push_char(&mut out, '_');
        } else {
            push_char(&mut out, c);
        }
        proof {
            assert(v@.take(i + 1) =~= v@.take(i as int).push(c));
            assert(out@ =~= underscore(v@.take(i + 1), a, b));
        }
        i += 1;
    }
    assert(v@.take(v.len() as int) =~= v@);
    out
}

/// The local id of the menu at `path` on `service`: the service without
/// leading `:` and with `.` and `/` as `_`, then, unless the path is `/`
/// alone, `:` and the path without leading `/` and with `/` as `_`.
pub open spec fn menu_local_id_spec(service: Seq<char>, path: Seq<char>) -> Seq<char> {
    let s = underscore(strip_leading(service, ':'), '.', '/');
    let p = underscore(strip_leading(path, '/'), '/', '/');
    if p.len() == 0 {
        s
    } else {
        s + ":"@ + p
    }
}

pub fn menu_local_id(service: &str, path: &str) -> (r: String)
    ensures
        r@ == menu_local_id_spec(service@, path@),
{
    proof {
        reveal_strlit(":");
    }
    let service_part = trim_start_matches_char(service, ':');
    let service_part = underscore_chars(service_part.as_str(), '.', '/');
    let path_part = trim_start_matches_char(path, '/');
    let path_part = underscore_chars(path_part.as_str(), '/', '/');
    if path_part.as_str().unicode_len() == 0 {
        service_part
    } else {
        concat3(service_part.as_str(), ":", path_part.as_str())
    }
}

/// The bus name and object path of a registered StatusNotifier item: an
/// item names a bus name, optionally followed by an object path from its
/// first `/`; a bus name alone uses `/StatusNotifierItem`. An item with no
/// bus name before its path cannot be resolved.
pub open spec fn registered_item_target_spec(item: Seq<char>) -> Option<(Seq<char>, Seq<char>)> {
    match split_once_spec(item, '/') {
        Some((service, rest)) => if service.len() == 0 {
            None
        } else {
            Some((service, "/"@ + rest))
        },
        None => if item.len() == 0 {
            None
        } else {
            Some((item, "/StatusNotifierItem"@))
        },
    }
}

pub fn registered_item_target(item: &str) -> (r: Option<(String, String)>)
    ensures
        match r {
            Some((service, path)) => registered_item_target_spec(item@) == Some((service@, path@)),
            None => registered_item_target_spec(item@) is None,
        },
{
    match split_once_char(item, '/') {
        Some((service, rest)) => {
            if service.as_str().unicode_len() == 0 {
                None
            } else {
                Some((service, concat2("/", rest.as_str())))
            }
        },
        None => {
            if item.unicode_len() == 0 {
                None
            } else {
                Some((owned(item), owned(DEFAULT_ITEM_PATH)))
            }
        },
    }
}


/// The item maps of two endpoints agree by view.
pub open spec fn item_views(m: IdMap<DbusMenuItem>) -> Map<i32, DbusMenuItemView> {
    m.map().map_values(|i: DbusMenuItem| i@)
}

fn copy_items(items: &IdMap<DbusMenuItem>) -> (r: IdMap<DbusMenuItem>)
    ensures
        r.keys() == items.keys(),
        item_views(r) == item_views(*items),
{
    let n = items.len();
    let mut out: IdMap<DbusMenuItem> = IdMap::new();
    let mut i: usize = 0;
    while i < n
        invariant
            n == items.entries().len(),
            ids_increasing(items.entries()),
            i <= n,
            out.entries().len() == i,
            forall|j: int| 0 <= j < i ==> (#[trigger] out.entries()[j]).0 == items.entries()[j].0
                && out.entries()[j].1@ == items.entries()[j].1@,
        decreases n - i,
    {
        let key = items.key_at(i);
        let value = items.value_at(i).duplicate();
        proof {
            assert forall|j: int| 0 <= j < out.entries().len() implies #[trigger] out.entries()[j].0 < key by {
                assert(items.entries()[j].0 < items.entries()[i as int].0);
            }
        }
        out.push_back(key, value);
        i += 1;
    }
    proof {
        assert(out.keys() =~= items.keys());
        assert forall|k: i32| #[trigger] item_views(out).contains_key(k) == item_views(*items).contains_key(k) by {
            if item_views(out).contains_key(k) {
                let j = choose|j: int| 0 <= j < out.entries().len() && #[trigger] out.entries()[j].0 == k;
                assert(items.entries()[j].0 == k);
            }
            if item_views(*items).contains_key(k) {
                let j = choose|j: int| 0 <= j < items.entries().len() && #[trigger] items.entries()[j].0 == k;
                assert(out.entries()[j].0 == k);
            }
        }
        assert forall|k: i32| #[trigger] item_views(out).contains_key(k) implies item_views(out)[k]
            == item_views(*items)[k] by {
            let j = choose|j: int| 0 <= j < out.entries().len() && #[trigger] out.entries()[j].0 == k;
            lemma_id_entry(out.entries(), j);
            lemma_id_entry(items.entries(), j);
        }
        assert(item_views(out) =~= item_views(*items));
    }
    out
}

impl DbusMenuEndpoint {
    /// An endpoint with no items at revision 0.
    pub fn new(local_id: String, bus: BusKind, service: String, path: String) -> (r: DbusMenuEndpoint)
        ensures
            r@ == (DbusMenuEndpointView {
                local_id: local_id@,
                bus,
                service: service@,
                path: path@,
                revision: 0,
                root_items: Seq::empty(),
                item_ids: Seq::empty(),
                items: Map::empty(),
            }),
    {
        let r = DbusMenuEndpoint {
            local_id,
            bus,
            service,
            path,
            revision: 0,
            root_items: Vec::new(),
            items: IdMap::new(),
        };
        assert(r@.items =~= Map::<i32, DbusMenuItemView>::empty());
        assert(r@.item_ids =~= Seq::<i32>::empty());
        r
    }

    pub fn duplicate(&self) -> (r: DbusMenuEndpoint)
        ensures
            r@ == self@,
    {
        DbusMenuEndpoint {
            local_id: self.local_id.clone(),
            bus: self.bus,
            service: self.service.clone(),
            path: self.path.clone(),
            revision: self.revision,
            root_items: copy_ids(&self.root_items),
            items: copy_items(&self.items),
        }
    }

    /// Whether two endpoints have the same fields.
    pub fn same_as(&self, other: &DbusMenuEndpoint) -> (r: bool)
        ensures
            r == (self@ == other@),
    {
        let n = self.items.len();
        let m = other.items.len();
        let scalars = text_eq(self.local_id.as_str(), other.local_id.as_str()) && self.bus
            == other.bus && text_eq(self.service.as_str(), other.service.as_str()) && text_eq(
            self.path.as_str(),
            other.path.as_str(),
        ) && self.revision == other.revision && same_ids(&self.root_items, &other.root_items);
        if !scalars {
            return false;
        }
        if n != m {
            assert(self@.item_ids.len() != other@.item_ids.len());
            return false;
        }
        let mut i: usize = 0;
        while i < n
            invariant
                n == self.items.entries().len(),
                n == other.items.entries().len(),
                ids_increasing(self.items.entries()),
                ids_increasing(other.items.entries()),
                i <= n,
                forall|j: int| 0 <= j < i ==> self.items.entries()[j].0 == other.items.entries()[j].0
                    && self.items.entries()[j].1@ == other.items.entries()[j].1@,
            decreases n - i,
        {
            let same_key = self.items.key_at(i) == other.items.key_at(i);
            if !same_key {
                assert(self@.item_ids[i as int] != other@.item_ids[i as int]);
                return false;
            }
            if !self.items.value_at(i).same_as(other.items.value_at(i)) {
                proof {
                    lemma_id_entry(self.items.entries(), i as int);
                    lemma_id_entry(other.items.entries(), i as int);
                    let k = self.items.entries()[i as int].0;
                    assert(self@.items[k] != other@.items[k]);
                }
                return false;
            }
            i += 1;
        }
        proof {
            assert(self@.item_ids =~= other@.item_ids);
            assert forall|k: i32| #[trigger] self@.items.contains_key(k) == other@.items.contains_key(k) by {
                if self@.items.contains_key(k) {
                    let j = choose|j: int| 0 <= j < n && #[trigger] self.items.entries()[j].0 == k;
                    assert(other.items.entries()[j].0 == k);
                }
                if other@.items.contains_key(k) {
                    let j = choose|j: int| 0 <= j < n && #[trigger] other.items.entries()[j].0 == k;
                    assert(self.items.entries()[j].0 == k);
                }
            }
            assert forall|k: i32| #[trigger] self@.items.contains_key(k) implies self@.items[k]
                == other@.items[k] by {
                let j = choose|j: int| 0 <= j < n && #[trigger] self.items.entries()[j].0 == k;
                lemma_id_entry(self.items.entries(), j);
                lemma_id_entry(other.items.entries(), j);
            }
            assert(self@.items =~= other@.items);
        }
        true
    }
}


/// The menu keys, in increasing order.
pub closed spec fn menu_keys(s: DbusMenuState) -> Seq<Seq<char>> {
    s.menus.keys()
}

/// The menus, in key order.
pub open spec fn menu_list(s: DbusMenuState) -> Seq<DbusMenuEndpointView> {
    menu_keys(s).map_values(|k: Seq<char>| menus_of(s)[k])
}

/// The menus a run of endpoints gives, a later endpoint replacing an
/// earlier one with the same local id.
pub open spec fn menus_from(endpoints: Seq<DbusMenuEndpointView>) -> Map<Seq<char>, DbusMenuEndpointView>
    decreases endpoints.len(),
{
    if endpoints.len() == 0 {
        Map::empty()
    } else {
        menus_from(endpoints.drop_last()).insert(endpoints.last().local_id, endpoints.last())
    }
}

pub open spec fn menu_nodes_of(ids: Seq<Seq<char>>) -> Seq<NodeIdView> {
    ids.map_values(|id: Seq<char>| menu_view(id))
}

pub open spec fn item_nodes_of(ids: Seq<Seq<char>>) -> Seq<NodeIdView> {
    ids.map_values(|id: Seq<char>| item_view(id))
}

/// The local ids of a menu's items, in item id order.
pub open spec fn endpoint_item_ids(e: DbusMenuEndpointView) -> Seq<Seq<char>> {
    e.item_ids.map_values(|id: i32| item_local_id(e.items[id]))
}

/// The local ids of the items of a run of menus.
pub open spec fn all_item_ids(menus: Seq<DbusMenuEndpointView>) -> Seq<Seq<char>>
    decreases menus.len(),
{
    if menus.len() == 0 {
        Seq::empty()
    } else {
        all_item_ids(menus.drop_last()) + endpoint_item_ids(menus.last())
    }
}

/// The local ids of the items that a run of item ids names, skipping ids
/// the menu lacks.
pub open spec fn root_target_ids(e: DbusMenuEndpointView, ids: Seq<i32>) -> Seq<Seq<char>>
    decreases ids.len(),
{
    if ids.len() == 0 {
        Seq::empty()
    } else {
        root_target_ids(e, ids.drop_last()) + if e.items.contains_key(ids.last()) {
            seq![item_local_id(e.items[ids.last()])]
        } else {
            Seq::<Seq<char>>::empty()
        }
    }
}

/// The local ids that listing a node's relations turns into node ids.
pub open spec fn relation_checks(s: DbusMenuState, node: NodeIdView) -> Seq<Seq<char>> {
    if node == facade_view() {
        menu_keys(s)
    } else if node.kind == "dbusmenu-menu"@ && menus_of(s).contains_key(node.local) {
        root_target_ids(menus_of(s)[node.local], menus_of(s)[node.local].root_items)
    } else {
        Seq::empty()
    }
}

/// The relations of a node, or `None` when it does not exist: the facade
/// relates to every menu, a menu to its root items, an item to no child.
pub open spec fn node_relations_spec(s: DbusMenuState, node: NodeIdView) -> Option<
    Map<Seq<char>, Seq<NodeIdView>>,
> {
    if node == facade_view() {
        Some(Map::<Seq<char>, Seq<NodeIdView>>::empty().insert("menu"@, menu_nodes_of(menu_keys(s))))
    } else if node.kind == "dbusmenu-menu"@ && menus_of(s).contains_key(node.local) {
        Some(
            Map::<Seq<char>, Seq<NodeIdView>>::empty().insert(
                "item"@,
                item_nodes_of(
                    root_target_ids(menus_of(s)[node.local], menus_of(s)[node.local].root_items),
                ),
            ),
        )
    } else if node.kind == "dbusmenu-item"@ && item_spec(menus_of(s), node.local) is Some {
        Some(Map::<Seq<char>, Seq<NodeIdView>>::empty().insert("child"@, Seq::empty()))
    } else {
        None
    }
}

/// Each menu key names the menu at its entry.
proof fn lemma_menu_keys(s: DbusMenuState)
    requires
        sorted_by_key(s.menus.entries()),
    ensures
        menu_keys(s).len() == s.menus.entries().len(),
        forall|i: int|
            0 <= i < menu_keys(s).len() ==> #[trigger] menus_of(s).contains_key(menu_keys(s)[i])
                && menus_of(s)[menu_keys(s)[i]] == s.menus.entries()[i].1@,
        forall|k: Seq<char>| #[trigger] menus_of(s).contains_key(k) ==> menu_keys(s).contains(k),
{
    assert forall|i: int| 0 <= i < menu_keys(s).len() implies #[trigger] menus_of(s).contains_key(
        menu_keys(s)[i],
    ) && menus_of(s)[menu_keys(s)[i]] == s.menus.entries()[i].1@ by {
        lemma_entries_map_at(s.menus.entries(), i);
    }
    assert forall|k: Seq<char>| #[trigger] menus_of(s).contains_key(k) implies menu_keys(s).contains(
        k,
    ) by {
        let j = choose|j: int|
            0 <= j < s.menus.entries().len() && #[trigger] s.menus.entries()[j].0.key_text() == k;
        assert(menu_keys(s)[j] == k);
    }
}

/// An item of a menu is the item at its entry.
proof fn lemma_endpoint_items(e: &DbusMenuEndpoint, j: int)
    requires
        ids_increasing(e.items.entries()),
        0 <= j < e.items.entries().len(),
    ensures
        e@.item_ids[j] == e.items.entries()[j].0,
        e@.items.contains_key(e@.item_ids[j]),
        e@.items[e@.item_ids[j]] == e.items.entries()[j].1@,
        endpoint_item_ids(e@)[j] == item_local_id(e.items.entries()[j].1@),
        endpoint_item_ids(e@).len() == e.items.entries().len(),
{
    lemma_id_entry(e.items.entries(), j);
}

proof fn lemma_root_targets_append(e: DbusMenuEndpointView, a: Seq<i32>, b: Seq<i32>)
    ensures
        root_target_ids(e, a + b) == root_target_ids(e, a) + root_target_ids(e, b),
    decreases b.len(),
{
    if b.len() == 0 {
        assert(a + b =~= a);
        assert(root_target_ids(e, a) + root_target_ids(e, b) =~= root_target_ids(e, a));
    } else {
        lemma_root_targets_append(e, a, b.drop_last());
        assert((a + b).drop_last() =~= a + b.drop_last());
        assert((a + b).last() == b.last());
        assert(root_target_ids(e, a + b) =~= root_target_ids(e, a) + root_target_ids(e, b));
    }
}

/// The nodes of the items a run of item ids names, skipping ids the menu
/// lacks; fails on an item whose local id is not a valid node id.
fn item_targets(endpoint: &DbusMenuEndpoint, ids: &Vec<i32>) -> (r: Result<Vec<NodeId>>)
    ensures
        ({
            let checks = root_target_ids(endpoint@, ids@);
            &&& all_valid(checks) <==> r is Ok
            &&& r matches Ok(v) ==> node_views(v@) == item_nodes_of(checks)
            &&& r matches Err(e) ==> some_invalid_error(checks, e)
        }),
{
    let ghost ev = endpoint@;
    let mut out: Vec<NodeId> = Vec::new();
    let mut i: usize = 0;
    assert(ids@.take(0) =~= Seq::<i32>::empty());
    while i < ids.len()
        invariant
            i <= ids.len(),
            ev == endpoint@,
            all_valid(root_target_ids(ev, ids@.take(i as int))),
            node_views(out@) == item_nodes_of(root_target_ids(ev, ids@.take(i as int))),
        decreases ids.len() - i,
    {
        let id = ids[i];
        assert(ids@.take(i + 1).drop_last() =~= ids@.take(i as int));
        match endpoint.items.get(id) {
            Some(item) => {
                let local = item.local_id();
                let node = match item_node(local.as_str()) {
                    Ok(n) => n,
                    Err(e) => {
                        proof {
                            let prefix = root_target_ids(ev, ids@.take(i as int));
                            assert(ids@ =~= ids@.take(i + 1) + ids@.skip(i + 1));
                            lemma_root_targets_append(ev, ids@.take(i + 1), ids@.skip(i + 1));
                            let all = root_target_ids(ev, ids@);
                            assert(all[prefix.len() as int] == local@);
                            assert(some_invalid_error(all, e));
                        }
                        return Err(e);
                    },
                };
                proof {
                    lemma_node_views_push(out@, node);
                    lemma_valid_concat(root_target_ids(ev, ids@.take(i as int)), seq![local@]);
                    assert(item_nodes_of(root_target_ids(ev, ids@.take(i + 1))) =~= item_nodes_of(
                        root_target_ids(ev, ids@.take(i as int)),
                    ).push(item_view(local@)));
                }
                out.push(node);
            },
            None => {
                assert(root_target_ids(ev, ids@.take(i + 1)) =~= root_target_ids(ev, ids@.take(i as int)));
            },
        }
        i += 1;
    }
    assert(ids@.take(ids.len() as int) =~= ids@);
    Ok(out)
}

impl DbusMenuState {
    /// The state of a run of menus; of two menus with one local id the later
    /// stays.
    pub fn new(menus: Vec<DbusMenuEndpoint>) -> (r: DbusMenuState)
        ensures
            menus_of(r) == menus_from(menus@.map_values(|e: DbusMenuEndpoint| e@)),
    {
        let ghost views = menus@.map_values(|e: DbusMenuEndpoint| e@);
        let mut m: TextMap<String, DbusMenuEndpoint> = TextMap::new();
        assert(m.map().map_values(|e: DbusMenuEndpoint| e@) =~= menus_from(views.take(0)));
        let mut i: usize = 0;
        while i < menus.len()
            invariant
                i <= menus.len(),
                views == menus@.map_values(|e: DbusMenuEndpoint| e@),
                m.map().map_values(|e: DbusMenuEndpoint| e@) == menus_from(views.take(i as int)),
            decreases menus.len() - i,
        {
            let endpoint = menus[i].duplicate();
            let key = endpoint.local_id.clone();
            assert(views.take(i + 1).drop_last() =~= views.take(i as int));
            assert(views[i as int] == endpoint@);
            let ghost before = m.map();
            m.insert(key, endpoint);
            proof {
                assert(m.map().map_values(|e: DbusMenuEndpoint| e@) =~= menus_from(
                    views.take(i as int),
                ).insert(views[i as int].local_id, views[i as int]));
            }
            i += 1;
        }
        assert(views.take(menus.len() as int) =~= views);
        DbusMenuState { menus: m }
    }

    /// The item a local id names.
    fn item(&self, local: &str) -> (r: Option<&DbusMenuItem>)
        ensures
            match r {
                Some(i) => item_spec(menus_of(*self), local@) == Some(i@),
                None => item_spec(menus_of(*self), local@) is None,
            },
    {
        match rsplit_once_char(local, ':') {
            None => None,
            Some((prefix, id_text)) => match rsplit_once_char(prefix.as_str(), ':') {
                None => None,
                Some((menu_id, _)) => match parse_i32(id_text.as_str()) {
                    None => None,
                    Some(id) => match self.menus.get(menu_id.as_str()) {
                        None => None,
                        Some(menu) => {
                            let found = menu.items.get(id);
                            proof {
                                assert(menus_of(*self)[menu_id@] == menu@);
                            }
                            found
                        },
                    },
                },
            },
        }
    }

    /// Whether a node exists.
    pub fn contains_node(&self, node: &NodeId) -> (r: Result<bool>)
        ensures
            r matches Ok(b) && b == contains_spec(*self, node@),
    {
        proof {
            lemma_dbusmenu_names();
        }
        let kind = node.kind().as_str();
        if text_eq(kind, DBUSMENU_KIND) {
            Ok(text_eq(node.local(), MENU_NODE))
        } else if text_eq(kind, DBUSMENU_MENU_KIND) {
            Ok(self.menus.contains_key(node.local()))
        } else if text_eq(kind, DBUSMENU_ITEM_KIND) {
            Ok(self.item(node.local()).is_some())
        } else {
            Ok(false)
        }
    }

    /// The menu nodes, in key order.
    fn menu_nodes(&self) -> (r: Result<Vec<NodeId>>)
        ensures
            ({
                let ids = menu_keys(*self);
                &&& all_valid(ids) <==> r is Ok
                &&& r matches Ok(v) ==> node_views(v@) == menu_nodes_of(ids)
                &&& r matches Err(e) ==> some_invalid_error(ids, e)
            }),
    {
        let n = self.menus.len();
        let ghost ks = menu_keys(*self);
        proof {
            lemma_menu_keys(*self);
        }
        let mut out: Vec<NodeId> = Vec::new();
        let mut i: usize = 0;
        while i < n
            invariant
                n == ks.len(),
                ks == menu_keys(*self),
                ks == self.menus.keys(),
                i <= n,
                all_valid(ks.take(i as int)),
                node_views(out@) == menu_nodes_of(ks.take(i as int)),
            decreases n - i,
        {
            let key = self.menus.key_at(i);
            assert(key@ == ks[i as int]);
            assert(ks.take(i + 1) =~= ks.take(i as int).push(ks[i as int]));
            let node = match menu_node(key.as_str()) {
                Ok(node) => node,
                Err(e) => {
                    assert(some_invalid_error(ks, e));
                    return Err(e);
                },
            };
            proof {
                lemma_node_views_push(out@, node);
                assert(menu_nodes_of(ks.take(i + 1)) =~= menu_nodes_of(ks.take(i as int)).push(
                    menu_view(ks[i as int]),
                ));
            }
            out.push(node);
            i += 1;
        }
        assert(ks.take(n as int) =~= ks);
        Ok(out)
    }

    /// The item nodes of every menu, in order.
    fn item_nodes(&self) -> (r: Result<Vec<NodeId>>)
        ensures
            ({
                let ids = all_item_ids(menu_list(*self));
                &&& all_valid(ids) <==> r is Ok
                &&& r matches Ok(v) ==> node_views(v@) == item_nodes_of(ids)
                &&& r matches Err(e) ==> some_invalid_error(ids, e)
            }),
    {
        let n = self.menus.len();
        let ghost menus = menu_list(*self);
        proof {
            lemma_menu_keys(*self);
        }
        let mut out: Vec<NodeId> = Vec::new();
        let mut i: usize = 0;
        assert(menus.take(0) =~= Seq::<DbusMenuEndpointView>::empty());
        assert forall|j: int| 0 <= j < n implies #[trigger] menus[j] == self.menus.entries()[j].1@ by {
            assert(menus_of(*self).contains_key(menu_keys(*self)[j]));
        }
        while i < n
            invariant
                n == menus.len(),
                n == self.menus.entries().len(),
                menus == menu_list(*self),
                forall|j: int| 0 <= j < n ==> #[trigger] menus[j] == self.menus.entries()[j].1@,
                i <= n,
                all_valid(all_item_ids(menus.take(i as int))),
                node_views(out@) == item_nodes_of(all_item_ids(menus.take(i as int))),
            decreases n - i,
        {
            let menu = self.menus.value_at(i);
            let count = menu.items.len();
            assert(menus[i as int] == menu@);
            assert(menus.take(i + 1).drop_last() =~= menus.take(i as int));
            let ghost prefix = all_item_ids(menus.take(i as int));
            let ghost acts = endpoint_item_ids(menu@);
            assert(all_item_ids(menus.take(i + 1)) == prefix + acts);
            let mut j: usize = 0;
            while j < count
                invariant
                    j <= count,
                    count == menu.items.entries().len(),
                    ids_increasing(menu.items.entries()),
                    n == menus.len(),
                    i < n,
                    menus == menu_list(*self),
                    menus[i as int] == menu@,
                    all_item_ids(menus.take(i + 1)) == prefix + acts,
                    acts == endpoint_item_ids(menu@),
                    acts.len() == count,
                    all_valid(prefix),
                    all_valid(acts.take(j as int)),
                    node_views(out@) == item_nodes_of(prefix + acts.take(j as int)),
                decreases count - j,
            {
                let item = menu.items.value_at(j);
                proof {
                    lemma_endpoint_items(menu, j as int);
                }
                let local = item.local_id();
                assert(acts[j as int] == local@);
                let node = match item_node(local.as_str()) {
                    Ok(node) => node,
                    Err(e) => {
                        proof {
                            let all = all_item_ids(menus);
                            let rest = all_item_ids(menus.skip(i + 1));
                            assert(menus =~= menus.take(i + 1) + menus.skip(i + 1));
                            lemma_item_ids_append(menus.take(i + 1), menus.skip(i + 1));
                            assert(all == prefix + acts + rest);
                            let p = prefix.len() + j;
                            assert((prefix + acts + rest)[p] == acts[j as int]);
                            assert(some_invalid_error(all, e));
                        }
                        return Err(e);
                    },
                };
                proof {
                    lemma_node_views_push(out@, node);
                    assert(acts.take(j + 1) =~= acts.take(j as int).push(acts[j as int]));
                    assert(prefix + acts.take(j + 1) =~= (prefix + acts.take(j as int)).push(
                        acts[j as int],
                    ));
                    lemma_valid_concat(prefix + acts.take(j as int), seq![acts[j as int]]);
                    assert(all_valid(acts.take(j + 1))) by {
                        lemma_valid_concat(acts.take(j as int), seq![acts[j as int]]);
                    }
                    assert(item_nodes_of(prefix + acts.take(j + 1)) =~= item_nodes_of(
                        prefix + acts.take(j as int),
                    ).push(item_view(acts[j as int])));
                }
                out.push(node);
                j += 1;
            }
            proof {
                assert(acts.take(acts.len() as int) =~= acts);
                lemma_valid_concat(prefix, acts);
            }
            i += 1;
        }
        assert(menus.take(n as int) =~= menus);
        Ok(out)
    }

    /// The nodes of a kind, sorted. Listing menus or items fails on a local
    /// id that is not a valid node id.
    pub fn nodes(&self, kind: &NodeKind) -> (r: Result<Vec<NodeId>>)
        ensures
            kind@ == "dbusmenu"@ ==> (r matches Ok(v) && node_views(v@) == seq![facade_view()]),
            kind@ == "dbusmenu-menu"@ ==> ({
                let ids = menu_keys(*self);
                &&& all_valid(ids) <==> r is Ok
                &&& r matches Ok(v) ==> node_views(v@) == menu_nodes_of(ids)
                &&& r matches Err(e) ==> some_invalid_error(ids, e)
            }),
            kind@ == "dbusmenu-item"@ ==> ({
                let ids = all_item_ids(menu_list(*self));
                &&& all_valid(ids) <==> r is Ok
                &&& r matches Ok(v) ==> node_views(v@).to_multiset() == item_nodes_of(
                    ids,
                ).to_multiset() && nodes_sorted(node_views(v@))
                &&& r matches Err(e) ==> some_invalid_error(ids, e)
            }),
            kind@ != "dbusmenu"@ && kind@ != "dbusmenu-menu"@ && kind@ != "dbusmenu-item"@ ==> (r matches Ok(
                v,
            ) && v@.len() == 0),
    {
        proof {
            lemma_dbusmenu_names();
        }
        let k = kind.as_str();
        if text_eq(k, DBUSMENU_KIND) {
            let mut out: Vec<NodeId> = Vec::new();
            out.push(facade_node());
            assert(node_views(out@) =~= seq![facade_view()]);
            Ok(out)
        } else if text_eq(k, DBUSMENU_MENU_KIND) {
            self.menu_nodes()
        } else if text_eq(k, DBUSMENU_ITEM_KIND) {
            match self.item_nodes() {
                Ok(v) => Ok(sort_nodes(v)),
                Err(e) => Err(e),
            }
        } else {
            Ok(Vec::new())
        }
    }

    /// The properties of a node, or `None` when it does not exist.
    fn node_properties(&self, node: &NodeId) -> (r: Option<PropertyMap>)
        ensures
            props_option(r) == node_properties_spec(*self, node@),
    {
        proof {
            lemma_dbusmenu_names();
        }
        let kind = node.kind().as_str();
        if text_eq(kind, DBUSMENU_KIND) && text_eq(node.local(), MENU_NODE) {
            match facade_properties() {
                Ok(m) => Some(m),
                Err(_) => None,
            }
        } else if text_eq(kind, DBUSMENU_MENU_KIND) {
            match self.menus.get(node.local()) {
                Some(endpoint) => {
                    assert(menus_of(*self)[node@.local] == endpoint@);
                    match endpoint_properties(endpoint) {
                        Ok(m) => Some(m),
                        Err(_) => None,
                    }
                },
                None => None,
            }
        } else if text_eq(kind, DBUSMENU_ITEM_KIND) {
            match self.item(node.local()) {
                Some(item) => match item_properties(item) {
                    Ok(m) => Some(m),
                    Err(_) => None,
                },
                None => None,
            }
        } else {
            None
        }
    }

    /// The spec of a node's property; an item's `activate` is writable.
    pub fn property_spec(&self, subject: &NodeId, key: &PropertyKey) -> (r: Result<PropertySpec>)
        ensures
            property_spec_result(
                DbusMenuAccess,
                node_properties_spec(*self, subject@),
                subject@,
                key@,
                r,
            ),
    {
        answer_property_spec(&DbusMenuAccess, self.node_properties(subject), subject, key)
    }

    /// The specs of a node's properties, in key order.
    pub fn properties(&self, subject: &NodeId) -> (r: Result<Vec<PropertySpec>>)
        ensures
            properties_result(DbusMenuAccess, node_properties_spec(*self, subject@), subject@, r),
    {
        answer_properties(&DbusMenuAccess, self.node_properties(subject), subject)
    }

    /// The value of a node's property.
    pub fn property(&self, subject: &NodeId, key: &PropertyKey) -> (r: Result<LocusValue>)
        ensures
            property_result(node_properties_spec(*self, subject@), subject@, key@, r),
    {
        answer_property(self.node_properties(subject), subject, key)
    }

    /// The relations of a node, `None` when it does not exist; fails on a
    /// target whose local id is not a valid node id.
    fn node_relations(&self, node: &NodeId) -> (r: Result<Option<RelationMap>>)
        ensures
            ({
                let checks = relation_checks(*self, node@);
                &&& all_valid(checks) <==> r is Ok
                &&& r matches Ok(m) ==> rels_option(m) == node_relations_spec(*self, node@)
                &&& r matches Err(e) ==> some_invalid_error(checks, e)
            }),
    {
        proof {
            lemma_dbusmenu_names();
        }
        let kind = node.kind().as_str();
        if text_eq(kind, DBUSMENU_KIND) && text_eq(node.local(), MENU_NODE) {
            let targets = match self.menu_nodes() {
                Ok(v) => v,
                Err(e) => return Err(e),
            };
            let ghost tv = node_views(targets@);
            let mut m: RelationMap = TextMap::new();
            m.insert(known_relation(MENU_RELATION), targets);
            assert(relation_models(m) =~= Map::<Seq<char>, Seq<NodeIdView>>::empty().insert(
                "menu"@,
                tv,
            ));
            Ok(Some(m))
        } else if text_eq(kind, DBUSMENU_MENU_KIND) {
            match self.menus.get(node.local()) {
                Some(endpoint) => {
                    assert(menus_of(*self)[node@.local] == endpoint@);
                    let targets = match item_targets(endpoint, &endpoint.root_items) {
                        Ok(v) => v,
                        Err(e) => return Err(e),
                    };
                    let ghost tv = node_views(targets@);
                    let mut m: RelationMap = TextMap::new();
                    m.insert(known_relation(ITEM_RELATION), targets);
                    assert(relation_models(m) =~= Map::<Seq<char>, Seq<NodeIdView>>::empty().insert(
                        "item"@,
                        tv,
                    ));
                    Ok(Some(m))
                },
                None => Ok(None),
            }
        } else if text_eq(kind, DBUSMENU_ITEM_KIND) {
            match self.item(node.local()) {
                Some(item) => {
                    let targets = match item.child_targets() {
                        Ok(v) => v,
                        Err(e) => return Err(e),
                    };
                    let mut m: RelationMap = TextMap::new();
                    m.insert(known_relation(CHILD_RELATION), targets);
                    assert(node_views(targets@) =~= Seq::<NodeIdView>::empty());
                    assert(relation_models(m) =~= Map::<Seq<char>, Seq<NodeIdView>>::empty().insert(
                        "child"@,
                        Seq::empty(),
                    ));
                    Ok(Some(m))
                },
                None => Ok(None),
            }
        } else {
            Ok(None)
        }
    }

    /// The relation names of a node, in order.
    pub fn relations(&self, source: &NodeId) -> (r: Result<Vec<RelationName>>)
        ensures
            all_valid(relation_checks(*self, source@)) ==> relations_result(
                node_relations_spec(*self, source@),
                source@,
                r,
            ),
            !all_valid(relation_checks(*self, source@)) ==> (r matches Err(e) && some_invalid_error(
                relation_checks(*self, source@),
                e,
            )),
    {
        match self.node_relations(source) {
            Ok(m) => answer_relations(m, source),
            Err(e) => Err(e),
        }
    }

    /// The targets of a node's relation.
    pub fn targets(&self, source: &NodeId, relation: &RelationName) -> (r: Result<Vec<NodeId>>)
        ensures
            all_valid(relation_checks(*self, source@)) ==> targets_result(
                node_relations_spec(*self, source@),
                source@,
                relation@,
                r,
            ),
            !all_valid(relation_checks(*self, source@)) ==> (r matches Err(e) && some_invalid_error(
                relation_checks(*self, source@),
                e,
            )),
    {
        match self.node_relations(source) {
            Ok(m) => answer_targets(m, source, relation),
            Err(e) => Err(e),
        }
    }

    /// The item that a write of `key` on `node` activates: only an item's
    /// `activate` property is writable, and only an enabled, visible item
    /// can be activated.
    pub fn activation_target(&self, node: &NodeId, key: &PropertyKey) -> (r: Result<DbusMenuItem>)
        ensures
            (node@.kind != "dbusmenu-item"@ || key@ != "activate"@) ==> (r matches Err(e)
                && is_not_found(e, "writable DBusMenu property"@, entry_text(node@, key@))),
            (node@.kind == "dbusmenu-item"@ && key@ == "activate"@) ==> match item_spec(
                menus_of(*self),
                node@.local,
            ) {
                Some(i) => if i.enabled && i.visible {
                    r matches Ok(it) && it@ == i
                } else {
                    r matches Err(e) && is_not_found(
                        e,
                        "activatable DBusMenu item"@,
                        node_id_text(node@),
                    )
                },
                None => r matches Err(e) && is_not_found(
                    e,
                    "activatable DBusMenu item"@,
                    node_id_text(node@),
                ),
            },
    {
        if !text_eq(node.kind().as_str(), DBUSMENU_ITEM_KIND) || !text_eq(
            key.as_str(),
            ACTIVATE_PROPERTY,
        ) {
            return Err(
                GraphError::NotFound {
                    kind: "writable DBusMenu property",
                    name: entry_name(node, key.as_str()),
                },
            );
        }
        match self.item(node.local()) {
            Some(item) => {
                if item.enabled && item.visible {
                    Ok(item.duplicate())
                } else {
                    Err(GraphError::NotFound { kind: "activatable DBusMenu item", name: node.to_text() })
                }
            },
            None => Err(GraphError::NotFound { kind: "activatable DBusMenu item", name: node.to_text() }),
        }
    }
}

proof fn lemma_item_ids_append(a: Seq<DbusMenuEndpointView>, b: Seq<DbusMenuEndpointView>)
    ensures
        all_item_ids(a + b) == all_item_ids(a) + all_item_ids(b),
    decreases b.len(),
{
    if b.len() == 0 {
        assert(a + b =~= a);
        assert(all_item_ids(a) + all_item_ids(b) =~= all_item_ids(a));
    } else {
        lemma_item_ids_append(a, b.drop_last());
        assert((a + b).drop_last() =~= a + b.drop_last());
        assert((a + b).last() == b.last());
        assert(all_item_ids(a + b) =~= all_item_ids(a) + all_item_ids(b));
    }
}


/// The local ids of the items of `from` at `ids` that `other` lacks.
pub open spec fn absent_items(
    ids: Seq<i32>,
    from: Map<i32, DbusMenuItemView>,
    other: Map<i32, DbusMenuItemView>,
) -> Seq<Seq<char>>
    decreases ids.len(),
{
    if ids.len() == 0 {
        Seq::empty()
    } else {
        absent_items(ids.drop_last(), from, other) + if other.contains_key(ids.last()) {
            Seq::<Seq<char>>::empty()
        } else {
            seq![item_local_id(from[ids.last()])]
        }
    }
}

/// The changes of an item that both menus hold: it changed, and so did its
/// children.
pub open spec fn kept_item_change(
    id: i32,
    old: Map<i32, DbusMenuItemView>,
    new: Map<i32, DbusMenuItemView>,
) -> Seq<ChangeModel> {
    if new.contains_key(id) && old[id] != new[id] {
        seq![ChangeModel::NodeChanged(item_view(item_local_id(new[id])))] + if old[id].child_ids
            != new[id].child_ids {
            seq![ChangeModel::RelationChanged(item_view(item_local_id(new[id])), "child"@)]
        } else {
            Seq::<ChangeModel>::empty()
        }
    } else {
        Seq::empty()
    }
}

/// The local id a kept item's changes are checked for.
pub open spec fn kept_item_check(
    id: i32,
    old: Map<i32, DbusMenuItemView>,
    new: Map<i32, DbusMenuItemView>,
) -> Seq<Seq<char>> {
    if new.contains_key(id) && old[id] != new[id] {
        seq![item_local_id(new[id])]
    } else {
        Seq::empty()
    }
}

pub open spec fn kept_item_changes(
    ids: Seq<i32>,
    old: Map<i32, DbusMenuItemView>,
    new: Map<i32, DbusMenuItemView>,
) -> Seq<ChangeModel>
    decreases ids.len(),
{
    if ids.len() == 0 {
        Seq::empty()
    } else {
        kept_item_changes(ids.drop_last(), old, new) + kept_item_change(ids.last(), old, new)
    }
}

pub open spec fn kept_item_checks(
    ids: Seq<i32>,
    old: Map<i32, DbusMenuItemView>,
    new: Map<i32, DbusMenuItemView>,
) -> Seq<Seq<char>>
    decreases ids.len(),
{
    if ids.len() == 0 {
        Seq::empty()
    } else {
        kept_item_checks(ids.drop_last(), old, new) + kept_item_check(ids.last(), old, new)
    }
}

pub open spec fn item_changes_of(lids: Seq<Seq<char>>, added: bool) -> Seq<ChangeModel> {
    lids.map_values(
        |l: Seq<char>|
            if added {
                ChangeModel::NodeAdded(item_view(l))
            } else {
                ChangeModel::NodeRemoved(item_view(l))
            },
    )
}

/// The item changes between two menus' items: removed items, added items,
/// then the kept items that changed.
pub open spec fn item_kind_changes_spec(
    oi: Seq<i32>,
    om: Map<i32, DbusMenuItemView>,
    ni: Seq<i32>,
    nm: Map<i32, DbusMenuItemView>,
) -> Seq<ChangeModel> {
    item_changes_of(absent_items(oi, om, nm), false) + item_changes_of(absent_items(ni, nm, om), true)
        + kept_item_changes(oi, om, nm)
}

/// The local ids the item changes turn into node ids.
pub open spec fn item_kind_checks(
    oi: Seq<i32>,
    om: Map<i32, DbusMenuItemView>,
    ni: Seq<i32>,
    nm: Map<i32, DbusMenuItemView>,
) -> Seq<Seq<char>> {
    absent_items(oi, om, nm) + absent_items(ni, nm, om) + kept_item_checks(oi, om, nm)
}

pub open spec fn endpoint_opt(e: Option<&DbusMenuEndpoint>) -> Option<DbusMenuEndpointView> {
    match e {
        Some(m) => Some(m@),
        None => None,
    }
}

/// The changes that replacing menu `old` by `new` reports (`None` for a
/// menu that is absent).
pub open spec fn menu_changes_spec(
    old: Option<DbusMenuEndpointView>,
    new: Option<DbusMenuEndpointView>,
) -> Seq<ChangeModel> {
    match (old, new) {
        (None, Some(n)) => seq![
            ChangeModel::NodeAdded(menu_view(n.local_id)),
            ChangeModel::RelationChanged(facade_view(), "menu"@),
        ] + item_kind_changes_spec(Seq::empty(), Map::empty(), n.item_ids, n.items) + seq![
            ChangeModel::RelationChanged(menu_view(n.local_id), "item"@),
        ],
        (Some(o), None) => item_kind_changes_spec(o.item_ids, o.items, Seq::empty(), Map::empty())
            + seq![
            ChangeModel::NodeRemoved(menu_view(o.local_id)),
            ChangeModel::RelationChanged(facade_view(), "menu"@),
        ],
        (Some(o), Some(n)) => if o == n {
            Seq::empty()
        } else {
            seq![ChangeModel::NodeChanged(menu_view(n.local_id))] + item_kind_changes_spec(
                o.item_ids,
                o.items,
                n.item_ids,
                n.items,
            ) + if o.root_items != n.root_items {
                seq![ChangeModel::RelationChanged(menu_view(n.local_id), "item"@)]
            } else {
                Seq::<ChangeModel>::empty()
            }
        },
        (None, None) => Seq::empty(),
    }
}

/// The local ids that the changes of replacing menu `old` by `new` turn
/// into node ids, in order.
pub open spec fn menu_checks(
    old: Option<DbusMenuEndpointView>,
    new: Option<DbusMenuEndpointView>,
) -> Seq<Seq<char>> {
    match (old, new) {
        (None, Some(n)) => seq![n.local_id] + item_kind_checks(
            Seq::empty(),
            Map::empty(),
            n.item_ids,
            n.items,
        ),
        (Some(o), None) => item_kind_checks(o.item_ids, o.items, Seq::empty(), Map::empty()) + seq![
            o.local_id,
        ],
        (Some(o), Some(n)) => if o == n {
            Seq::empty()
        } else {
            seq![n.local_id] + item_kind_checks(o.item_ids, o.items, n.item_ids, n.items)
        },
        (None, None) => Seq::empty(),
    }
}

proof fn lemma_absent_items_append(
    a: Seq<i32>,
    b: Seq<i32>,
    from: Map<i32, DbusMenuItemView>,
    other: Map<i32, DbusMenuItemView>,
)
    ensures
        absent_items(a + b, from, other) == absent_items(a, from, other) + absent_items(b, from, other),
    decreases b.len(),
{
    if b.len() == 0 {
        assert(a + b =~= a);
        assert(absent_items(a, from, other) + absent_items(b, from, other) =~= absent_items(
            a,
            from,
            other,
        ));
    } else {
        lemma_absent_items_append(a, b.drop_last(), from, other);
        assert((a + b).drop_last() =~= a + b.drop_last());
        assert((a + b).last() == b.last());
        assert(absent_items(a + b, from, other) =~= absent_items(a, from, other) + absent_items(
            b,
            from,
            other,
        ));
    }
}

proof fn lemma_kept_checks_append(
    a: Seq<i32>,
    b: Seq<i32>,
    old: Map<i32, DbusMenuItemView>,
    new: Map<i32, DbusMenuItemView>,
)
    ensures
        kept_item_checks(a + b, old, new) == kept_item_checks(a, old, new) + kept_item_checks(
            b,
            old,
            new,
        ),
    decreases b.len(),
{
    if b.len() == 0 {
        assert(a + b =~= a);
        assert(kept_item_checks(a, old, new) + kept_item_checks(b, old, new) =~= kept_item_checks(
            a,
            old,
            new,
        ));
    } else {
        lemma_kept_checks_append(a, b.drop_last(), old, new);
        assert((a + b).drop_last() =~= a + b.drop_last());
        assert((a + b).last() == b.last());
        assert(kept_item_checks(a + b, old, new) =~= kept_item_checks(a, old, new)
            + kept_item_checks(b, old, new));
    }
}

/// The item of an item map at entry `i`, by view.
proof fn lemma_item_at(m: IdMap<DbusMenuItem>, i: int)
    requires
        ids_increasing(m.entries()),
        0 <= i < m.entries().len(),
    ensures
        m.keys()[i] == m.entries()[i].0,
        item_views(m).contains_key(m.keys()[i]),
        item_views(m)[m.keys()[i]] == m.entries()[i].1@,
        m.keys().len() == m.entries().len(),
{
    lemma_id_entry(m.entries(), i);
}

/// Pushes a change for each item of `from` that `other` lacks: `NodeAdded`
/// when `added`, else `NodeRemoved`.
fn push_absent_items(
    changes: &mut Vec<GraphChange>,
    from: &IdMap<DbusMenuItem>,
    other: &IdMap<DbusMenuItem>,
    added: bool,
) -> (r: Result<()>)
    ensures
        ({
            let lids = absent_items(from.keys(), item_views(*from), item_views(*other));
            &&& all_valid(lids) <==> r is Ok
            &&& r is Ok ==> change_models(final(changes)@) == change_models(old(changes)@)
                + item_changes_of(lids, added)
            &&& r matches Err(e) ==> some_invalid_error(lids, e)
        }),
{
    let n = from.len();
    let ghost ks = from.keys();
    let ghost fm = item_views(*from);
    let ghost om = item_views(*other);
    let ghost base = change_models(changes@);
    assert(ks.take(0) =~= Seq::<i32>::empty());
    assert(item_changes_of(Seq::empty(), added) =~= Seq::<ChangeModel>::empty());
    assert(base + Seq::<ChangeModel>::empty() =~= base);
    let mut i: usize = 0;
    while i < n
        invariant
            n == from.entries().len(),
            ids_increasing(from.entries()),
            ks == from.keys(),
            fm == item_views(*from),
            om == item_views(*other),
            i <= n,
            all_valid(absent_items(ks.take(i as int), fm, om)),
            change_models(changes@) == base + item_changes_of(absent_items(ks.take(i as int), fm, om), added),
        decreases n - i,
    {
        let key = from.key_at(i);
        proof {
            lemma_item_at(*from, i as int);
            assert(ks.take(i + 1).drop_last() =~= ks.take(i as int));
        }
        if !other.contains_key(key) {
            let item = from.value_at(i);
            let local = item.local_id();
            assert(local@ == item_local_id(fm[ks[i as int]]));
            let node = match item_node(local.as_str()) {
                Ok(node) => node,
                Err(e) => {
                    proof {
                        let prefix = absent_items(ks.take(i as int), fm, om);
                        assert(ks =~= ks.take(i + 1) + ks.skip(i + 1));
                        lemma_absent_items_append(ks.take(i + 1), ks.skip(i + 1), fm, om);
                        let all = absent_items(ks, fm, om);
                        assert(all[prefix.len() as int] == local@);
                        assert(some_invalid_error(all, e));
                    }
                    return Err(e);
                },
            };
            let change = if added {
                GraphChange::NodeAdded { node }
            } else {
                GraphChange::NodeRemoved { node }
            };
            proof {
                lemma_change_models_push(changes@, change);
                lemma_valid_concat(absent_items(ks.take(i as int), fm, om), seq![local@]);
                assert(item_changes_of(absent_items(ks.take(i + 1), fm, om), added) =~= item_changes_of(
                    absent_items(ks.take(i as int), fm, om),
                    added,
                ).push(change@));
            }
            changes.push(change);
        } else {
            assert(absent_items(ks.take(i + 1), fm, om) =~= absent_items(ks.take(i as int), fm, om));
        }
        i += 1;
    }
    assert(ks.take(n as int) =~= ks);
    Ok(())
}

/// Pushes the changes of the items that both maps hold and that differ.
fn push_kept_items(
    changes: &mut Vec<GraphChange>,
    old_items: &IdMap<DbusMenuItem>,
    new_items: &IdMap<DbusMenuItem>,
) -> (r: Result<()>)
    ensures
        ({
            let ks = old_items.keys();
            let om = item_views(*old_items);
            let nm = item_views(*new_items);
            &&& all_valid(kept_item_checks(ks, om, nm)) <==> r is Ok
            &&& r is Ok ==> change_models(final(changes)@) == change_models(old(changes)@)
                + kept_item_changes(ks, om, nm)
            &&& r matches Err(e) ==> some_invalid_error(kept_item_checks(ks, om, nm), e)
        }),
{
    proof {
        lemma_dbusmenu_names();
    }
    let n = old_items.len();
    let ghost ks = old_items.keys();
    let ghost om = item_views(*old_items);
    let ghost nm = item_views(*new_items);
    let ghost base = change_models(changes@);
    assert(ks.take(0) =~= Seq::<i32>::empty());
    assert(base + Seq::<ChangeModel>::empty() =~= base);
    let mut i: usize = 0;
    while i < n
        invariant
            n == old_items.entries().len(),
            ids_increasing(old_items.entries()),
            ks == old_items.keys(),
            om == item_views(*old_items),
            nm == item_views(*new_items),
            i <= n,
            valid_identifier(IdentifierClass::RelationName, "child"@),
            all_valid(kept_item_checks(ks.take(i as int), om, nm)),
            change_models(changes@) == base + kept_item_changes(ks.take(i as int), om, nm),
        decreases n - i,
    {
        let key = old_items.key_at(i);
        proof {
            lemma_item_at(*old_items, i as int);
            assert(ks.take(i + 1).drop_last() =~= ks.take(i as int));
        }
        let ghost id = ks[i as int];
        match new_items.get(key) {
            Some(new_item) => {
                let old_item = old_items.value_at(i);
                assert(nm[id] == new_item@);
                assert(om[id] == old_item@);
                if !old_item.same_as(new_item) {
                    let local = new_item.local_id();
                    let node = match item_node(local.as_str()) {
                        Ok(node) => node,
                        Err(e) => {
                            proof {
                                let prefix = kept_item_checks(ks.take(i as int), om, nm);
                                assert(ks =~= ks.take(i + 1) + ks.skip(i + 1));
                                lemma_kept_checks_append(ks.take(i + 1), ks.skip(i + 1), om, nm);
                                let all = kept_item_checks(ks, om, nm);
                                assert(all[prefix.len() as int] == local@);
                                assert(some_invalid_error(all, e));
                            }
                            return Err(e);
                        },
                    };
                    let ghost before = changes@;
                    let again = node.duplicate();
                    let change = GraphChange::NodeChanged { node };
                    proof {
                        lemma_change_models_push(changes@, change);
                    }
                    changes.push(change);
                    if !same_ids(&old_item.child_ids, &new_item.child_ids) {
                        let change = GraphChange::RelationChanged {
                            source: again,
                            relation: known_relation(CHILD_RELATION),
                        };
                        proof {
                            lemma_change_models_push(changes@, change);
                        }
                        changes.push(change);
                    }
                    proof {
                        lemma_valid_concat(kept_item_checks(ks.take(i as int), om, nm), seq![local@]);
                        assert(change_models(changes@) =~= base + kept_item_changes(
                            ks.take(i + 1),
                            om,
                            nm,
                        ));
                    }
                } else {
                    assert(kept_item_checks(ks.take(i + 1), om, nm) =~= kept_item_checks(
                        ks.take(i as int),
                        om,
                        nm,
                    ));
                    assert(kept_item_changes(ks.take(i + 1), om, nm) =~= kept_item_changes(
                        ks.take(i as int),
                        om,
                        nm,
                    ));
                }
            },
            None => {
                assert(kept_item_checks(ks.take(i + 1), om, nm) =~= kept_item_checks(
                    ks.take(i as int),
                    om,
                    nm,
                ));
                assert(kept_item_changes(ks.take(i + 1), om, nm) =~= kept_item_changes(
                    ks.take(i as int),
                    om,
                    nm,
                ));
            },
        }
        i += 1;
    }
    assert(ks.take(n as int) =~= ks);
    Ok(())
}

/// Pushes the item changes between two item maps.
fn push_item_kind_changes(
    changes: &mut Vec<GraphChange>,
    old_items: &IdMap<DbusMenuItem>,
    new_items: &IdMap<DbusMenuItem>,
) -> (r: Result<()>)
    ensures
        ({
            let oi = old_items.keys();
            let om = item_views(*old_items);
            let ni = new_items.keys();
            let nm = item_views(*new_items);
            let checks = item_kind_checks(oi, om, ni, nm);
            &&& all_valid(checks) <==> r is Ok
            &&& r is Ok ==> change_models(final(changes)@) == change_models(old(changes)@)
                + item_kind_changes_spec(oi, om, ni, nm)
            &&& r matches Err(e) ==> some_invalid_error(checks, e)
        }),
{
    let ghost oi = old_items.keys();
    let ghost om = item_views(*old_items);
    let ghost ni = new_items.keys();
    let ghost nm = item_views(*new_items);
    let ghost a = absent_items(oi, om, nm);
    let ghost b = absent_items(ni, nm, om);
    let ghost c = kept_item_checks(oi, om, nm);
    let ghost base = change_models(changes@);
    match push_absent_items(changes, old_items, new_items, false) {
        Ok(()) => {},
        Err(e) => {
            proof {
                lemma_invalid_within(Seq::empty(), a, b + c, e);
                assert(Seq::<Seq<char>>::empty() + a + (b + c) =~= a + b + c);
                lemma_valid_concat(a + b, c);
                lemma_valid_concat(a, b);
            }
            return Err(e);
        },
    }
    match push_absent_items(changes, new_items, old_items, true) {
        Ok(()) => {},
        Err(e) => {
            proof {
                lemma_invalid_within(a, b, c, e);
                lemma_valid_concat(a + b, c);
                lemma_valid_concat(a, b);
            }
            return Err(e);
        },
    }
    match push_kept_items(changes, old_items, new_items) {
        Ok(()) => {},
        Err(e) => {
            proof {
                lemma_invalid_within(a + b, c, Seq::empty(), e);
                assert(a + b + c + Seq::<Seq<char>>::empty() =~= a + b + c);
                lemma_valid_concat(a + b, c);
            }
            return Err(e);
        },
    }
    proof {
        lemma_valid_concat(a + b, c);
        lemma_valid_concat(a, b);
        assert(change_models(changes@) =~= base + item_kind_changes_spec(oi, om, ni, nm));
    }
    Ok(())
}

/// An item map with no items.
fn no_items() -> (r: IdMap<DbusMenuItem>)
    ensures
        r.keys() == Seq::<i32>::empty(),
        item_views(r) == Map::<i32, DbusMenuItemView>::empty(),
{
    let r: IdMap<DbusMenuItem> = IdMap::new();
    assert(r.keys() =~= Seq::<i32>::empty());
    assert(item_views(r) =~= Map::<i32, DbusMenuItemView>::empty());
    r
}

/// The changes that replacing menu `old` by `new` reports; fails on a
/// menu or item whose local id is not a valid node id.
fn menu_changes(old: Option<&DbusMenuEndpoint>, new: Option<&DbusMenuEndpoint>) -> (r: Result<
    Vec<GraphChange>,
>)
    ensures
        ({
            let checks = menu_checks(endpoint_opt(old), endpoint_opt(new));
            &&& all_valid(checks) <==> r is Ok
            &&& r matches Ok(v) ==> change_models(v@) == menu_changes_spec(
                endpoint_opt(old),
                endpoint_opt(new),
            )
            &&& r matches Err(e) ==> some_invalid_error(checks, e)
        }),
{
    proof {
        lemma_dbusmenu_names();
    }
    let mut changes: Vec<GraphChange> = Vec::new();
    let facade = facade_node();
    match (old, new) {
        (None, Some(new)) => {
            let node = match menu_node(new.local_id.as_str()) {
                Ok(n) => n,
                Err(e) => {
                    proof {
                        assert(seq![new@.local_id][0] == new@.local_id);
                        lemma_invalid_within(Seq::empty(), seq![new@.local_id], item_kind_checks(
                            Seq::empty(),
                            Map::empty(),
                            new@.item_ids,
                            new@.items,
                        ), e);
                        assert(Seq::<Seq<char>>::empty() + seq![new@.local_id] =~= seq![new@.local_id]);
                        lemma_valid_concat(seq![new@.local_id], item_kind_checks(
                            Seq::empty(),
                            Map::empty(),
                            new@.item_ids,
                            new@.items,
                        ));
                    }
                    return Err(e);
                },
            };
            let again = node.duplicate();
            changes.push(GraphChange::NodeAdded { node });
            changes.push(
                GraphChange::RelationChanged { source: facade, relation: known_relation(MENU_RELATION) },
            );
            let empty = no_items();
            let ghost head = change_models(changes@);
            assert(head =~= seq![
                ChangeModel::NodeAdded(menu_view(new@.local_id)),
                ChangeModel::RelationChanged(facade_view(), "menu"@),
            ]);
            match push_item_kind_changes(&mut changes, &empty, &new.items) {
                Ok(()) => {},
                Err(e) => {
                    proof {
                        let rest = item_kind_checks(Seq::empty(), Map::empty(), new@.item_ids, new@.items);
                        lemma_invalid_within(seq![new@.local_id], rest, Seq::empty(), e);
                        assert(seq![new@.local_id] + rest + Seq::<Seq<char>>::empty() =~= seq![new@.local_id] + rest);
                        lemma_valid_concat(seq![new@.local_id], rest);
                    }
                    return Err(e);
                },
            }
            let change = GraphChange::RelationChanged {
                source: again,
                relation: known_relation(ITEM_RELATION),
            };
            proof {
                lemma_change_models_push(changes@, change);
                lemma_valid_concat(seq![new@.local_id], item_kind_checks(
                    Seq::empty(),
                    Map::empty(),
                    new@.item_ids,
                    new@.items,
                ));
            }
            changes.push(change);
            assert(change_models(changes@) =~= menu_changes_spec(None, Some(new@)));
            Ok(changes)
        },
        (Some(old), None) => {
            let empty = no_items();
            let ghost rest = item_kind_checks(old@.item_ids, old@.items, Seq::empty(), Map::empty());
            match push_item_kind_changes(&mut changes, &old.items, &empty) {
                Ok(()) => {},
                Err(e) => {
                    proof {
                        lemma_invalid_within(Seq::empty(), rest, seq![old@.local_id], e);
                        assert(Seq::<Seq<char>>::empty() + rest + seq![old@.local_id] =~= rest + seq![old@.local_id]);
                        lemma_valid_concat(rest, seq![old@.local_id]);
                    }
                    return Err(e);
                },
            }
            let node = match menu_node(old.local_id.as_str()) {
                Ok(n) => n,
                Err(e) => {
                    proof {
                        assert(seq![old@.local_id][0] == old@.local_id);
                        lemma_invalid_within(rest, seq![old@.local_id], Seq::empty(), e);
                        assert(rest + seq![old@.local_id] + Seq::<Seq<char>>::empty() =~= rest + seq![old@.local_id]);
                        lemma_valid_concat(rest, seq![old@.local_id]);
                    }
                    return Err(e);
                },
            };
            let c1 = GraphChange::NodeRemoved { node };
            proof {
                lemma_change_models_push(changes@, c1);
            }
            changes.push(c1);
            let c2 = GraphChange::RelationChanged { source: facade, relation: known_relation(MENU_RELATION) };
            proof {
                lemma_change_models_push(changes@, c2);
                lemma_valid_concat(rest, seq![old@.local_id]);
            }
            changes.push(c2);
            assert(change_models(changes@) =~= menu_changes_spec(Some(old@), None));
            Ok(changes)
        },
        (Some(old), Some(new)) => {
            if old.same_as(new) {
                assert(change_models(changes@) =~= Seq::<ChangeModel>::empty());
                return Ok(changes);
            }
            let ghost rest = item_kind_checks(old@.item_ids, old@.items, new@.item_ids, new@.items);
            let node = match menu_node(new.local_id.as_str()) {
                Ok(n) => n,
                Err(e) => {
                    proof {
                        assert(seq![new@.local_id][0] == new@.local_id);
                        lemma_invalid_within(Seq::empty(), seq![new@.local_id], rest, e);
                        assert(Seq::<Seq<char>>::empty() + seq![new@.local_id] =~= seq![new@.local_id]);
                        lemma_valid_concat(seq![new@.local_id], rest);
                    }
                    return Err(e);
                },
            };
            let again = node.duplicate();
            changes.push(GraphChange::NodeChanged { node });
            assert(change_models(changes@) =~= seq![ChangeModel::NodeChanged(menu_view(new@.local_id))]);
            match push_item_kind_changes(&mut changes, &old.items, &new.items) {
                Ok(()) => {},
                Err(e) => {
                    proof {
                        lemma_invalid_within(seq![new@.local_id], rest, Seq::empty(), e);
                        assert(seq![new@.local_id] + rest + Seq::<Seq<char>>::empty() =~= seq![new@.local_id] + rest);
                        lemma_valid_concat(seq![new@.local_id], rest);
                    }
                    return Err(e);
                },
            }
            if !same_ids(&old.root_items, &new.root_items) {
                let change = GraphChange::RelationChanged {
                    source: again,
                    relation: known_relation(ITEM_RELATION),
                };
                proof {
                    lemma_change_models_push(changes@, change);
                }
                changes.push(change);
            }
            proof {
                lemma_valid_concat(seq![new@.local_id], rest);
            }
            assert(change_models(changes@) =~= menu_changes_spec(Some(old@), Some(new@)));
            Ok(changes)
        },
        (None, None) => {
            assert(change_models(changes@) =~= Seq::<ChangeModel>::empty());
            Ok(changes)
        },
    }
}


/// The menu under `id`, or `None`.
pub open spec fn menu_at(
    menus: Map<Seq<char>, DbusMenuEndpointView>,
    id: Seq<char>,
) -> Option<DbusMenuEndpointView> {
    if menus.contains_key(id) {
        Some(menus[id])
    } else {
        None
    }
}

/// The keys, in order, of the menus on bus name `service`.
pub open spec fn service_keys(
    keys: Seq<Seq<char>>,
    menus: Map<Seq<char>, DbusMenuEndpointView>,
    service: Seq<char>,
) -> Seq<Seq<char>>
    decreases keys.len(),
{
    if keys.len() == 0 {
        Seq::empty()
    } else {
        service_keys(keys.drop_last(), menus, service) + if menus[keys.last()].service == service {
            seq![keys.last()]
        } else {
            Seq::<Seq<char>>::empty()
        }
    }
}

/// The changes of removing the menus under `ids`, one after another.
pub open spec fn removal_changes(
    ids: Seq<Seq<char>>,
    menus: Map<Seq<char>, DbusMenuEndpointView>,
) -> Seq<ChangeModel>
    decreases ids.len(),
{
    if ids.len() == 0 {
        Seq::empty()
    } else {
        removal_changes(ids.drop_last(), menus) + menu_changes_spec(Some(menus[ids.last()]), None)
    }
}

pub open spec fn removal_checks(
    ids: Seq<Seq<char>>,
    menus: Map<Seq<char>, DbusMenuEndpointView>,
) -> Seq<Seq<char>>
    decreases ids.len(),
{
    if ids.len() == 0 {
        Seq::empty()
    } else {
        removal_checks(ids.drop_last(), menus) + menu_checks(Some(menus[ids.last()]), None)
    }
}

/// The keys of a service are keys, in increasing order.
proof fn lemma_service_keys(
    keys: Seq<Seq<char>>,
    menus: Map<Seq<char>, DbusMenuEndpointView>,
    service: Seq<char>,
)
    requires
        strictly_sorted(keys),
    ensures
        strictly_sorted(service_keys(keys, menus, service)),
        forall|i: int|
            0 <= i < service_keys(keys, menus, service).len() ==> #[trigger] keys.contains(
                service_keys(keys, menus, service)[i],
            ),
    decreases keys.len(),
{
    if keys.len() > 0 {
        let init = keys.drop_last();
        assert(strictly_sorted(init)) by {
            assert forall|i: int, j: int| 0 <= i < j < init.len() implies text_lt(
                #[trigger] init[i],
                #[trigger] init[j],
            ) by {
                assert(init[i] == keys[i] && init[j] == keys[j]);
            }
        }
        lemma_service_keys(init, menus, service);
        let prev = service_keys(init, menus, service);
        let cur = service_keys(keys, menus, service);
        assert forall|i: int| 0 <= i < prev.len() implies #[trigger] keys.contains(prev[i]) by {
            assert(init.contains(prev[i]));
            let j = choose|j: int| 0 <= j < init.len() && init[j] == prev[i];
            assert(keys[j] == prev[i]);
        }
        if menus[keys.last()].service == service {
            assert(cur == prev.push(keys.last()));
            assert forall|i: int, j: int| 0 <= i < j < cur.len() implies text_lt(
                #[trigger] cur[i],
                #[trigger] cur[j],
            ) by {
                if j == cur.len() - 1 {
                    assert(keys.contains(prev[i]));
                    let q = choose|q: int| 0 <= q < keys.len() && keys[q] == prev[i];
                    assert(init.contains(prev[i]));
                    let q2 = choose|q2: int| 0 <= q2 < init.len() && init[q2] == prev[i];
                    assert(keys[q2] == prev[i]);
                    assert(text_lt(keys[q2], keys[keys.len() - 1]));
                } else {
                    assert(cur[i] == prev[i] && cur[j] == prev[j]);
                }
            }
            assert forall|i: int| 0 <= i < cur.len() implies #[trigger] keys.contains(cur[i]) by {
                if i == cur.len() - 1 {
                    assert(keys[keys.len() - 1] == cur[i]);
                } else {
                    assert(cur[i] == prev[i]);
                }
            }
        } else {
            assert(cur =~= prev);
        }
    }
}

proof fn lemma_removal_checks_append(
    a: Seq<Seq<char>>,
    b: Seq<Seq<char>>,
    menus: Map<Seq<char>, DbusMenuEndpointView>,
)
    ensures
        removal_checks(a + b, menus) == removal_checks(a, menus) + removal_checks(b, menus),
    decreases b.len(),
{
    if b.len() == 0 {
        assert(a + b =~= a);
        assert(removal_checks(a, menus) + removal_checks(b, menus) =~= removal_checks(a, menus));
    } else {
        lemma_removal_checks_append(a, b.drop_last(), menus);
        assert((a + b).drop_last() =~= a + b.drop_last());
        assert((a + b).last() == b.last());
        assert(removal_checks(a + b, menus) =~= removal_checks(a, menus) + removal_checks(b, menus));
    }
}

impl DbusMenuState {
    /// Stores a menu, replacing the one with its local id, and reports the
    /// changes from the menu it replaces. The menu is stored even when a
    /// change cannot be reported.
    pub fn upsert_menu(&mut self, menu: DbusMenuEndpoint) -> (r: Result<Vec<GraphChange>>)
        ensures
            menus_of(*final(self)) == menus_of(*old(self)).insert(menu@.local_id, menu@),
            ({
                let prev = menu_at(menus_of(*old(self)), menu@.local_id);
                let checks = menu_checks(prev, Some(menu@));
                &&& all_valid(checks) <==> r is Ok
                &&& r matches Ok(v) ==> change_models(v@) == menu_changes_spec(prev, Some(menu@))
                &&& r matches Err(e) ==> some_invalid_error(checks, e)
            }),
    {
        let ghost before = menus_of(*self);
        let ghost raw = self.menus.map();
        let previous = self.menus.remove(menu.local_id.as_str());
        let r = match &previous {
            Some(p) => {
                assert(before[menu@.local_id] == p@);
                menu_changes(Some(p), Some(&menu))
            },
            None => menu_changes(None, Some(&menu)),
        };
        let key = menu.local_id.clone();
        let ghost mv = menu@;
        self.menus.insert(key, menu);
        proof {
            assert(self.menus.map() =~= raw.remove(mv.local_id).insert(mv.local_id, menu));
            assert(menus_of(*self) =~= before.insert(mv.local_id, mv));
        }
        r
    }

    /// Removes every menu on bus name `service`, in key order, and reports
    /// the changes of each removal. On an error the menus removed so far,
    /// the failing one included, stay removed.
    pub fn remove_service(&mut self, service: &str) -> (r: Result<Vec<GraphChange>>)
        ensures
            ({
                let m0 = menus_of(*old(self));
                let ids = service_keys(menu_keys(*old(self)), m0, service@);
                &&& all_valid(removal_checks(ids, m0)) <==> r is Ok
                &&& r matches Ok(v) ==> change_models(v@) == removal_changes(ids, m0) && menus_of(
                    *final(self),
                ) == m0.remove_keys(ids.to_set())
                &&& r matches Err(e) ==> exists|k: int|
                    0 <= k < ids.len() && all_valid(removal_checks(ids.take(k), m0))
                        && some_invalid_error(menu_checks(Some(m0[ids[k]]), None), e) && menus_of(
                        *final(self),
                    ) == m0.remove_keys(ids.take(k + 1).to_set())
            }),
    {
        let n = self.menus.len();
        let ghost m0 = menus_of(*self);
        let ghost ks = menu_keys(*self);
        proof {
            lemma_menu_keys(*self);
            lemma_map_keys_sorted(self.menus);
        }
        let mut ids: Vec<String> = Vec::new();
        let mut i: usize = 0;
        assert(ks.take(0) =~= Seq::<Seq<char>>::empty());
        while i < n
            invariant
                n == ks.len(),
                n == self.menus.entries().len(),
                ks == menu_keys(*self),
                m0 == menus_of(*self),
                forall|j: int|
                    0 <= j < ks.len() ==> #[trigger] m0.contains_key(ks[j]) && m0[ks[j]]
                        == self.menus.entries()[j].1@,
                i <= n,
                ids@.map_values(|t: String| t@) == service_keys(ks.take(i as int), m0, service@),
            decreases n - i,
        {
            let key = self.menus.key_at(i);
            let menu = self.menus.value_at(i);
            assert(key@ == ks[i as int]);
            assert(m0.contains_key(ks[i as int]));
            assert(ks.take(i + 1).drop_last() =~= ks.take(i as int));
            if text_eq(menu.service.as_str(), service) {
                let id = key.clone();
                ids.push(id);
                assert(ids@.map_values(|t: String| t@) =~= service_keys(ks.take(i + 1), m0, service@));
            } else {
                assert(service_keys(ks.take(i + 1), m0, service@) =~= service_keys(
                    ks.take(i as int),
                    m0,
                    service@,
                ));
            }
            i += 1;
        }
        assert(ks.take(n as int) =~= ks);
        let ghost idv = ids@.map_values(|t: String| t@);
        proof {
            lemma_service_keys(ks, m0, service@);
            lemma_text_lt_irreflexive_all();
        }
        let mut changes: Vec<GraphChange> = Vec::new();
        let mut j: usize = 0;
        assert(idv.take(0) =~= Seq::<Seq<char>>::empty());
        assert(m0.remove_keys(idv.take(0).to_set()) =~= m0);
        while j < ids.len()
            invariant
                idv == ids@.map_values(|t: String| t@),
                idv == service_keys(ks, m0, service@),
                m0 == menus_of(*old(self)),
                ks == menu_keys(*old(self)),
                strictly_sorted(idv),
                forall|q: int| 0 <= q < idv.len() ==> #[trigger] ks.contains(idv[q]),
                forall|q: int| 0 <= q < ks.len() ==> #[trigger] m0.contains_key(ks[q]),
                forall|a: Seq<char>| !text_lt(a, a),
                j <= ids.len(),
                menus_of(*self) == m0.remove_keys(idv.take(j as int).to_set()),
                all_valid(removal_checks(idv.take(j as int), m0)),
                change_models(changes@) == removal_changes(idv.take(j as int), m0),
            decreases ids.len() - j,
        {
            let ghost id = idv[j as int];
            assert(ks.contains(id));
            let ghost q = choose|q: int| 0 <= q < ks.len() && ks[q] == id;
            assert(m0.contains_key(ks[q]));
            assert(!idv.take(j as int).to_set().contains(id)) by {
                if idv.take(j as int).to_set().contains(id) {
                    let p = choose|p: int| 0 <= p < j && idv.take(j as int)[p] == id;
                    assert(text_lt(idv[p], idv[j as int]));
                }
            }
            let ghost cur = menus_of(*self);
            assert(cur.contains_key(id) && cur[id] == m0[id]);
            let ghost raw = self.menus.map();
            assert(idv.take(j + 1).drop_last() =~= idv.take(j as int));
            assert forall|x: Seq<char>| #[trigger] idv.take(j + 1).contains(x) == (idv.take(
                j as int,
            ).contains(x) || x == id) by {
                if idv.take(j + 1).contains(x) {
                    let p = choose|p: int| 0 <= p < j + 1 && #[trigger] idv.take(j + 1)[p] == x;
                    if p < j {
                        assert(idv.take(j as int)[p] == x);
                    }
                }
                if idv.take(j as int).contains(x) {
                    let p = choose|p: int| 0 <= p < j && #[trigger] idv.take(j as int)[p] == x;
                    assert(idv.take(j + 1)[p] == x);
                }
                if x == id {
                    assert(idv.take(j + 1)[j as int] == x);
                }
            }
            assert(idv.take(j + 1).to_set() =~= idv.take(j as int).to_set().insert(id));
            let removed = self.menus.remove(ids[j].as_str());
            proof {
                assert(menus_of(*self) =~= cur.remove(id));
                assert(m0.remove_keys(idv.take(j + 1).to_set()) =~= cur.remove(id));
            }
            match removed {
                Some(old_menu) => {
                    assert(old_menu@ == m0[id]);
                    match menu_changes(Some(&old_menu), None) {
                        Ok(mut more) => {
                            let ghost more_v = more@;
                            changes.append(&mut more);
                            proof {
                                lemma_valid_concat(
                                    removal_checks(idv.take(j as int), m0),
                                    menu_checks(Some(m0[id]), None),
                                );
                                assert(change_models(changes@) =~= removal_changes(idv.take(j as int), m0)
                                    + change_models(more_v));
                            }
                        },
                        Err(e) => {
                            proof {
                                let all = removal_checks(idv, m0);
                                assert(idv =~= idv.take(j + 1) + idv.skip(j + 1));
                                lemma_removal_checks_append(idv.take(j + 1), idv.skip(j + 1), m0);
                                lemma_invalid_within(
                                    removal_checks(idv.take(j as int), m0),
                                    menu_checks(Some(m0[id]), None),
                                    removal_checks(idv.skip(j + 1), m0),
                                    e,
                                );
                                let x = choose|x: int|
                                    0 <= x < all.len() && !valid_identifier(
                                        IdentifierClass::NodeLocalId,
                                        #[trigger] all[x],
                                    ) && identifier_error(IdentifierClass::NodeLocalId, all[x], e);
                                assert(!all_valid(all));
                                assert(0 <= j < idv.len() && all_valid(removal_checks(idv.take(j as int), m0))
                                    && some_invalid_error(menu_checks(Some(m0[idv[j as int]]), None), e)
                                    && menus_of(*self) == m0.remove_keys(idv.take(j + 1).to_set()));
                            }
                            return Err(e);
                        },
                    }
                },
                None => {
                    assert(false);
                },
            }
            j += 1;
        }
        assert(idv.take(ids.len() as int) =~= idv);
        Ok(changes)
    }
}

/// No text is below itself.
proof fn lemma_text_lt_irreflexive_all()
    ensures
        forall|a: Seq<char>| !text_lt(a, a),
{
    assert forall|a: Seq<char>| !text_lt(a, a) by {
        lemma_text_lt_irreflexive(a);
    }
}


/// Whether a configured menu names a usable endpoint: a bus name that is
/// not blank and an absolute object path.
pub open spec fn config_ok(c: MenuConfig) -> bool {
    trim_spec(c.service@).len() > 0 && has_prefix(c.path@, "/"@)
}

/// The error a configured menu that is not usable is refused with.
pub open spec fn config_error(c: MenuConfig, e: GraphError) -> bool {
    if trim_spec(c.service@).len() == 0 {
        is_invalid_value(e, "DBusMenu service"@, c.service@, "must not be empty"@)
    } else {
        is_invalid_value(
            e,
            "DBusMenu object path"@,
            c.path@,
            "must be an absolute D-Bus object path"@,
        )
    }
}

/// The endpoint a usable configured menu names, at revision 0 with no
/// items; without a local id it gets the one its bus name and path give.
pub open spec fn config_endpoint(c: MenuConfig) -> DbusMenuEndpointView {
    DbusMenuEndpointView {
        local_id: match c.local_id {
            Some(l) => l@,
            None => menu_local_id_spec(c.service@, c.path@),
        },
        bus: c.bus,
        service: c.service@,
        path: c.path@,
        revision: 0,
        root_items: Seq::empty(),
        item_ids: Seq::empty(),
        items: Map::empty(),
    }
}

impl MenuConfig {
    pub fn duplicate(&self) -> (r: MenuConfig)
        ensures
            r.service@ == self.service@,
            r.path@ == self.path@,
            r.bus == self.bus,
            match (r.local_id, self.local_id) {
                (Some(a), Some(b)) => a@ == b@,
                (None, None) => true,
                _ => false,
            },
    {
        MenuConfig {
            service: self.service.clone(),
            path: self.path.clone(),
            bus: self.bus,
            local_id: match &self.local_id {
                Some(l) => Some(l.clone()),
                None => None,
            },
        }
    }
}

impl DbusMenuEndpoint {
    /// The endpoint a configured menu names.
    pub fn try_from(config: MenuConfig) -> (r: Result<DbusMenuEndpoint>)
        ensures
            config_ok(config) ==> (r matches Ok(e) && e@ == config_endpoint(config)),
            !config_ok(config) ==> (r matches Err(e) && config_error(config, e)),
    {
        proof {
            reveal_strlit("/");
        }
        if is_blank(config.service.as_str()) {
            return Err(
                GraphError::InvalidValue {
                    kind: "DBusMenu service",
                    value: config.service,
                    reason: "must not be empty",
                },
            );
        }
        if !starts_with(config.path.as_str(), "/") {
            return Err(
                GraphError::InvalidValue {
                    kind: "DBusMenu object path",
                    value: config.path,
                    reason: "must be an absolute D-Bus object path",
                },
            );
        }
        let local_id = match config.local_id {
            Some(l) => l,
            None => menu_local_id(config.service.as_str(), config.path.as_str()),
        };
        Ok(DbusMenuEndpoint::new(local_id, config.bus, config.service, config.path))
    }
}

impl DbusMenuConfig {
    /// The endpoints of the configured menus, in order; the first menu that
    /// is not usable fails the whole list.
    pub fn into_runtime_menus(self) -> (r: Result<Vec<DbusMenuEndpoint>>)
        ensures
            (forall|i: int| 0 <= i < self.menus@.len() ==> config_ok(#[trigger] self.menus@[i]))
                ==> r is Ok,
            r matches Ok(v) ==> v@.len() == self.menus@.len() && forall|i: int|
                0 <= i < v@.len() ==> #[trigger] v@[i]@ == config_endpoint(self.menus@[i]),
            r matches Err(e) ==> exists|k: int|
                0 <= k < self.menus@.len() && (forall|j: int|
                    0 <= j < k ==> config_ok(#[trigger] self.menus@[j])) && !config_ok(
                    self.menus@[k],
                ) && config_error(self.menus@[k], e),
    {
        let mut out: Vec<DbusMenuEndpoint> = Vec::new();
        let mut i: usize = 0;
        while i < self.menus.len()
            invariant
                i <= self.menus.len(),
                out@.len() == i,
                forall|j: int| 0 <= j < i ==> config_ok(#[trigger] self.menus@[j]),
                forall|j: int| 0 <= j < i ==> #[trigger] out@[j]@ == config_endpoint(self.menus@[j]),
            decreases self.menus.len() - i,
        {
            let config = self.menus[i].duplicate();
            assert(config_ok(config) == config_ok(self.menus@[i as int]));
            assert(config_endpoint(config) == config_endpoint(self.menus@[i as int]));
            match DbusMenuEndpoint::try_from(config) {
                Ok(e) => out.push(e),
                Err(e) => {
                    assert(config_error(self.menus@[i as int], e));
                    return Err(e);
                },
            }
            i += 1;
        }
        Ok(out)
    }
}

} // verus!
