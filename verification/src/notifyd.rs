//! Desktop notifications projected into the graph: the `notifyd` nodes
//! `notifications`, `state` and `commands`, one `notification` node per
//! notification and one `notification-action` node per action.
use vstd::prelude::*;

use crate::change::{change_models, lemma_change_models_push, ChangeModel, GraphChange};
use crate::error::{is_invalid_value, is_not_found, GraphError, Result};
use crate::identity::{identifier_error, node_id_text, valid_identifier, IdentifierClass, NodeId, NodeIdView, NodeKind, PathName, PropertyKey, RelationName};
use crate::path::{ChildModel, DirectoryModel, EntryModel, GraphPathChild, GraphPathDirectory, GraphPathEntry, GraphWatchTarget, WatchModel};
use crate::projection::{answer_properties, answer_property, answer_property_spec, answer_relations, answer_targets, changed_keys, changed_keys_spec, entry_text, known_key, known_kind, lemma_map_keys_sorted, lemma_node_views_push, sorted_keys_of, all_valid, some_invalid_error, lemma_invalid_within, lemma_valid_concat, node_not_found, node_views, nodes_sorted, properties_result, property_models, property_result, property_spec_result, props_option, put, relation_models, relations_result, rels_option, sort_nodes, targets_result, Access, AccessPolicy, PropertyMap, RelationMap};
use crate::text::{chars_of, concat3, owned, push_char, split_once_char, split_once_spec, text_eq};
use crate::text_map::{lemma_entries_map_at, sorted_by_key, TextKey, TextMap};
use crate::value::{value_text, LocusValue, PropertySpec, ValueModel};

verus! {

pub const NOTIFYD_KIND: &'static str = "notifyd";

pub const NOTIFICATION_KIND: &'static str = "notification";

pub const NOTIFICATION_ACTION_KIND: &'static str = "notification-action";

pub const NOTIFICATIONS_NODE: &'static str = "notifications";

pub const STATE_NODE: &'static str = "state";

pub const COMMANDS_NODE: &'static str = "commands";

const ACTIONS_DIR: &'static str = "actions";

const DISCARD_PROPERTY: &'static str = "discard";

const INVOKE_PROPERTY: &'static str = "invoke";

const DISCARD_ALL_PROPERTY: &'static str = "discard-all";

const DND_ENABLED_PROPERTY: &'static str = "dnd-enabled";

const SOURCE: &'static str = "notifyd";

const VIRTUAL_ACTIONS: &'static str = "actions";

const VIRTUAL_SEPARATOR: &'static str = "|";

/// The node kinds the notifyd provider serves.
pub const PROVIDER_KINDS: [&'static str; 3] = [NOTIFYD_KIND, NOTIFICATION_KIND, NOTIFICATION_ACTION_KIND];

/// The node kinds whose directories the notifyd provider lays out.
pub const PATH_PROVIDER_KINDS: [&'static str; 3] = PROVIDER_KINDS;

/// The notifyd plugin.
#[derive(Debug, Default)]
pub struct NotifydPlugin;

/// The notification daemon that owns the bus name.
#[derive(Debug, Default)]
pub struct NotifydRuntime;

/// How urgent a notification is.
#[derive(Clone, Copy, Debug, PartialEq, Eq, Structural)]
pub enum NotificationUrgency {
    Low,
    Normal,
    Critical,
}

pub open spec fn urgency_text(u: NotificationUrgency) -> Seq<char> {
    match u {
        NotificationUrgency::Low => "low"@,
        NotificationUrgency::Normal => "normal"@,
        NotificationUrgency::Critical => "critical"@,
    }
}

pub open spec fn urgency_level(u: NotificationUrgency) -> u32 {
    match u {
        NotificationUrgency::Low => 0,
        NotificationUrgency::Normal => 1,
        NotificationUrgency::Critical => 2,
    }
}

impl NotificationUrgency {
    pub fn as_str(self) -> (r: &'static str)
        ensures
            r@ == urgency_text(self),
    {
        match self {
            NotificationUrgency::Low => "low",
            NotificationUrgency::Normal => "normal",
            NotificationUrgency::Critical => "critical",
        }
    }

    pub fn level(self) -> (r: u32)
        ensures
            r == urgency_level(self),
    {
        match self {
            NotificationUrgency::Low => 0,
            NotificationUrgency::Normal => 1,
            NotificationUrgency::Critical => 2,
        }
    }
}

impl Default for NotificationUrgency {
    fn default() -> (r: NotificationUrgency)
        ensures
            r == NotificationUrgency::Normal,
    {
        NotificationUrgency::Normal
    }
}

/// An action a notification offers.
#[derive(Debug, PartialEq, Eq)]
pub struct NotificationAction {
    pub local_id: String,
    pub path_name: String,
    pub key: String,
    pub label: String,
    pub is_default: bool,
    pub icon_name: Option<String>,
}

/// One notification.
#[derive(Debug, PartialEq, Eq)]
pub struct NotificationRecord {
    pub local_id: String,
    pub dbus_id: u32,
    pub created_at_unix_ms: u64,
    pub updated_at_unix_ms: u64,
    pub expire_timeout_ms: i32,
    pub app_name: String,
    pub desktop_entry: String,
    pub app_icon: String,
    pub summary: String,
    pub body: String,
    pub body_markup: Option<String>,
    pub category: String,
    pub urgency: NotificationUrgency,
    pub progress: Option<u32>,
    pub resident: bool,
    pub transient: bool,
    pub suppress_sound: bool,
    pub icon_name: String,
    pub image_path: Option<String>,
    pub image_source: String,
    pub image_width: Option<u32>,
    pub image_height: Option<u32>,
    pub stack_key: Option<String>,
    pub actions: Vec<NotificationAction>,
}

/// What a write to a command property asks the daemon to do.
#[derive(Debug, PartialEq, Eq)]
pub enum NotifydCommandTarget {
    Discard { notification_id: String },
    InvokeAction { notification_id: String, action_key: String },
    DiscardAll,
    SetDnd(bool),
}

/// All notifications, keyed by local id, and the daemon's settings.
pub struct NotifydSnapshot {
    pub notifications: TextMap<String, NotificationRecord>,
    pub dnd_enabled: bool,
    pub suppressed_count: u32,
    pub server_name: String,
}

/// The notifyd part of the graph.
pub struct NotifydState {
    snapshot: NotifydSnapshot,
}

pub open spec fn opt_text(o: Option<String>) -> Option<Seq<char>> {
    match o {
        Some(s) => Some(s@),
        None => None,
    }
}

pub struct NotificationActionView {
    pub local_id: Seq<char>,
    pub path_name: Seq<char>,
    pub key: Seq<char>,
    pub label: Seq<char>,
    pub is_default: bool,
    pub icon_name: Option<Seq<char>>,
}

impl View for NotificationAction {
    type V = NotificationActionView;

    open spec fn view(&self) -> NotificationActionView {
        NotificationActionView {
            local_id: self.local_id@,
            path_name: self.path_name@,
            key: self.key@,
            label: self.label@,
            is_default: self.is_default,
            icon_name: opt_text(self.icon_name),
        }
    }
}

pub struct NotificationRecordView {
    pub local_id: Seq<char>,
    pub dbus_id: u32,
    pub created_at_unix_ms: u64,
    pub updated_at_unix_ms: u64,
    pub expire_timeout_ms: i32,
    pub app_name: Seq<char>,
    pub desktop_entry: Seq<char>,
    pub app_icon: Seq<char>,
    pub summary: Seq<char>,
    pub body: Seq<char>,
    pub body_markup: Option<Seq<char>>,
    pub category: Seq<char>,
    pub urgency: NotificationUrgency,
    pub progress: Option<u32>,
    pub resident: bool,
    pub transient: bool,
    pub suppress_sound: bool,
    pub icon_name: Seq<char>,
    pub image_path: Option<Seq<char>>,
    pub image_source: Seq<char>,
    pub image_width: Option<u32>,
    pub image_height: Option<u32>,
    pub stack_key: Option<Seq<char>>,
    pub actions: Seq<NotificationActionView>,
}

pub open spec fn action_views(s: Seq<NotificationAction>) -> Seq<NotificationActionView> {
    s.map_values(|a: NotificationAction| a@)
}

impl View for NotificationRecord {
    type V = NotificationRecordView;

    open spec fn view(&self) -> NotificationRecordView {
        NotificationRecordView {
            local_id: self.local_id@,
            dbus_id: self.dbus_id,
            created_at_unix_ms: self.created_at_unix_ms,
            updated_at_unix_ms: self.updated_at_unix_ms,
            expire_timeout_ms: self.expire_timeout_ms,
            app_name: self.app_name@,
            desktop_entry: self.desktop_entry@,
            app_icon: self.app_icon@,
            summary: self.summary@,
            body: self.body@,
            body_markup: opt_text(self.body_markup),
            category: self.category@,
            urgency: self.urgency,
            progress: self.progress,
            resident: self.resident,
            transient: self.transient,
            suppress_sound: self.suppress_sound,
            icon_name: self.icon_name@,
            image_path: opt_text(self.image_path),
            image_source: self.image_source@,
            image_width: self.image_width,
            image_height: self.image_height,
            stack_key: opt_text(self.stack_key),
            actions: action_views(self.actions@),
        }
    }
}

/// Notifications keyed by local id.
pub open spec fn records_of(s: NotifydSnapshot) -> Map<Seq<char>, NotificationRecordView> {
    s.notifications.map().map_values(|r: NotificationRecord| r@)
}

/// Notifications in local id order.
pub open spec fn record_list(s: NotifydSnapshot) -> Seq<NotificationRecordView> {
    s.notifications.entries().map_values(|e: (String, NotificationRecord)| e.1@)
}

pub open spec fn notifyd_view(local: Seq<char>) -> NodeIdView {
    NodeIdView { kind: "notifyd"@, local }
}

pub open spec fn notification_view(local: Seq<char>) -> NodeIdView {
    NodeIdView { kind: "notification"@, local }
}

pub open spec fn action_view(local: Seq<char>) -> NodeIdView {
    NodeIdView { kind: "notification-action"@, local }
}

/// A `u64` as a `u32`, `u32::MAX` when it does not fit.
pub open spec fn clamp_u32(n: u64) -> u32 {
    if n <= u32::MAX {
        n as u32
    } else {
        u32::MAX
    }
}

pub open spec fn with_text(
    m: Map<Seq<char>, ValueModel>,
    key: Seq<char>,
    o: Option<Seq<char>>,
) -> Map<Seq<char>, ValueModel> {
    match o {
        Some(t) => m.insert(key, ValueModel::Text(t)),
        None => m,
    }
}

pub open spec fn with_u32(m: Map<Seq<char>, ValueModel>, key: Seq<char>, o: Option<u32>) -> Map<
    Seq<char>,
    ValueModel,
> {
    match o {
        Some(n) => m.insert(key, ValueModel::U32(n)),
        None => m,
    }
}

/// The first properties of a notification: identity, times and texts.
pub open spec fn notification_head(r: NotificationRecordView) -> Map<Seq<char>, ValueModel> {
    Map::<Seq<char>, ValueModel>::empty().insert("id"@, ValueModel::Text(r.local_id)).insert(
        "dbus-id"@,
        ValueModel::U32(r.dbus_id),
    ).insert("source"@, ValueModel::Text("notifyd"@)).insert(
        "created-at-unix-ms"@,
        ValueModel::U32(clamp_u32(r.created_at_unix_ms)),
    ).insert("updated-at-unix-ms"@, ValueModel::U32(clamp_u32(r.updated_at_unix_ms))).insert(
        "expire-timeout-ms"@,
        ValueModel::I32(r.expire_timeout_ms),
    ).insert("app-name"@, ValueModel::Text(r.app_name)).insert(
        "desktop-entry"@,
        ValueModel::Text(r.desktop_entry),
    ).insert("app-icon"@, ValueModel::Text(r.app_icon)).insert(
        "summary"@,
        ValueModel::Text(r.summary),
    ).insert("body"@, ValueModel::Text(r.body))
}

/// The progress a notification reports, at most 100.
pub open spec fn capped_progress(p: Option<u32>) -> Option<u32> {
    match p {
        Some(p) => Some(
            if p <= 100 {
                p
            } else {
                100u32
            },
        ),
        None => None,
    }
}

/// The head, then markup, category and urgency.
pub open spec fn notification_middle(r: NotificationRecordView) -> Map<Seq<char>, ValueModel> {
    with_text(notification_head(r), "body-markup"@, r.body_markup).insert(
        "category"@,
        ValueModel::Text(r.category),
    ).insert("urgency"@, ValueModel::Text(urgency_text(r.urgency))).insert(
        "urgency-level"@,
        ValueModel::U32(urgency_level(r.urgency)),
    )
}

/// The middle, then progress, flags and icon.
pub open spec fn notification_flags(r: NotificationRecordView) -> Map<Seq<char>, ValueModel> {
    with_u32(notification_middle(r), "progress"@, capped_progress(r.progress)).insert(
        "resident"@,
        ValueModel::Bool(r.resident),
    ).insert("transient"@, ValueModel::Bool(r.transient)).insert(
        "suppress-sound"@,
        ValueModel::Bool(r.suppress_sound),
    ).insert("icon-name"@, ValueModel::Text(r.icon_name))
}

/// The flags, then the image and stack key.
pub open spec fn notification_image(r: NotificationRecordView) -> Map<Seq<char>, ValueModel> {
    with_text(
        with_u32(
            with_u32(
                with_text(notification_flags(r), "image-path"@, r.image_path).insert(
                    "image-source"@,
                    ValueModel::Text(r.image_source),
                ),
                "image-width"@,
                r.image_width,
            ),
            "image-height"@,
            r.image_height,
        ),
        "stack-key"@,
        r.stack_key,
    )
}

/// The properties of a notification.
pub open spec fn notification_properties_spec(r: NotificationRecordView) -> Map<
    Seq<char>,
    ValueModel,
> {
    notification_image(r).insert("discard"@, ValueModel::Text(Seq::empty()))
}

/// The properties of an action.
pub open spec fn action_properties_spec(a: NotificationActionView) -> Map<Seq<char>, ValueModel> {
    with_text(
        Map::<Seq<char>, ValueModel>::empty().insert("key"@, ValueModel::Text(a.key)).insert(
            "label"@,
            ValueModel::Text(a.label),
        ).insert("default"@, ValueModel::Bool(a.is_default)),
        "icon-name"@,
        a.icon_name,
    ).insert("invoke"@, ValueModel::Text(Seq::empty()))
}

/// The properties of the `state` node.
pub open spec fn state_properties_spec(s: NotifydSnapshot) -> Map<Seq<char>, ValueModel> {
    Map::<Seq<char>, ValueModel>::empty().insert("dnd-enabled"@, ValueModel::Bool(s.dnd_enabled)).insert(
        "notification-count"@,
        ValueModel::U32(clamp_u32(s.notifications.entries().len() as u64)),
    ).insert("suppressed-count"@, ValueModel::U32(s.suppressed_count)).insert(
        "server-name"@,
        ValueModel::Text(s.server_name@),
    )
}

/// The properties of the `commands` node.
pub open spec fn command_properties_spec(s: NotifydSnapshot) -> Map<Seq<char>, ValueModel> {
    Map::<Seq<char>, ValueModel>::empty().insert(
        "discard-all"@,
        ValueModel::Text(Seq::empty()),
    ).insert("dnd-enabled"@, ValueModel::Bool(s.dnd_enabled))
}

/// The first action of a run with local id `id`.
pub open spec fn first_action(actions: Seq<NotificationActionView>, id: Seq<char>) -> Option<
    NotificationActionView,
>
    decreases actions.len(),
{
    if actions.len() == 0 {
        None
    } else if actions[0].local_id == id {
        Some(actions[0])
    } else {
        first_action(actions.drop_first(), id)
    }
}

/// The first action of a run with key `key`.
pub open spec fn first_action_with_key(actions: Seq<NotificationActionView>, key: Seq<char>) -> Option<
    NotificationActionView,
>
    decreases actions.len(),
{
    if actions.len() == 0 {
        None
    } else if actions[0].key == key {
        Some(actions[0])
    } else {
        first_action_with_key(actions.drop_first(), key)
    }
}

/// The first notification, in id order, with an action of local id `id`,
/// and that action.
pub open spec fn find_action(records: Seq<NotificationRecordView>, id: Seq<char>) -> Option<
    (NotificationRecordView, NotificationActionView),
>
    decreases records.len(),
{
    if records.len() == 0 {
        None
    } else {
        match first_action(records[0].actions, id) {
            Some(a) => Some((records[0], a)),
            None => find_action(records.drop_first(), id),
        }
    }
}

/// The properties of a node, or `None` when the node does not exist.
pub open spec fn node_properties_spec(s: NotifydSnapshot, node: NodeIdView) -> Option<
    Map<Seq<char>, ValueModel>,
> {
    if node == notifyd_view("notifications"@) {
        Some(Map::empty())
    } else if node == notifyd_view("state"@) {
        Some(state_properties_spec(s))
    } else if node == notifyd_view("commands"@) {
        Some(command_properties_spec(s))
    } else if node.kind == "notification"@ && records_of(s).contains_key(node.local) {
        Some(notification_properties_spec(records_of(s)[node.local]))
    } else if node.kind == "notification-action"@ && find_action(record_list(s), node.local) is Some {
        Some(action_properties_spec(find_action(record_list(s), node.local).unwrap().1))
    } else {
        None
    }
}

/// Whether a node exists.
pub open spec fn contains_spec(s: NotifydSnapshot, node: NodeIdView) -> bool {
    node_properties_spec(s, node) is Some
}

/// The relations of a node: none, for every node that exists.
pub open spec fn node_relations_spec(s: NotifydSnapshot, node: NodeIdView) -> Option<
    Map<Seq<char>, Seq<NodeIdView>>,
> {
    if contains_spec(s, node) {
        Some(Map::empty())
    } else {
        None
    }
}

/// Which properties may be written: `discard` of a notification, `invoke`
/// of an action and `discard-all` of a `notifyd` node are write-only,
/// `dnd-enabled` of the `commands` node is read-write, the rest read-only.
pub open spec fn notifyd_access(node: NodeIdView, key: Seq<char>) -> Access {
    if (node.kind == "notification"@ && key == "discard"@) || (node.kind == "notification-action"@
        && key == "invoke"@) || (node.kind == "notifyd"@ && key == "discard-all"@) {
        Access::WriteOnly
    } else if node == notifyd_view("commands"@) && key == "dnd-enabled"@ {
        Access::ReadWrite
    } else {
        Access::ReadOnly
    }
}

/// The access rules of notifyd's properties.
pub struct NotifydAccess;

impl AccessPolicy for NotifydAccess {
    open spec fn access_spec(&self, node: NodeIdView, key: Seq<char>) -> Access {
        notifyd_access(node, key)
    }

    fn access(&self, node: &NodeId, key: &PropertyKey) -> (r: Access) {
        let kind = node.kind().as_str();
        let key = key.as_str();
        if (text_eq(kind, NOTIFICATION_KIND) && text_eq(key, DISCARD_PROPERTY)) || (text_eq(
            kind,
            NOTIFICATION_ACTION_KIND,
        ) && text_eq(key, INVOKE_PROPERTY)) || (text_eq(kind, NOTIFYD_KIND) && text_eq(
            key,
            DISCARD_ALL_PROPERTY,
        )) {
            Access::WriteOnly
        } else if text_eq(kind, NOTIFYD_KIND) && text_eq(node.local(), COMMANDS_NODE) && text_eq(
            key,
            DND_ENABLED_PROPERTY,
        ) {
            Access::ReadWrite
        } else {
            Access::ReadOnly
        }
    }
}

fn copy_opt(o: &Option<String>) -> (r: Option<String>)
    ensures
        opt_text(r) == opt_text(*o),
{
    match o {
        Some(s) => Some(s.clone()),
        None => None,
    }
}

fn same_opt(a: &Option<String>, b: &Option<String>) -> (r: bool)
    ensures
        r == (opt_text(*a) == opt_text(*b)),
{
    match (a, b) {
        (Some(x), Some(y)) => text_eq(x.as_str(), y.as_str()),
        (None, None) => true,
        _ => false,
    }
}

fn same_u32(a: Option<u32>, b: Option<u32>) -> (r: bool)
    ensures
        r == (a == b),
{
    match (a, b) {
        (Some(x), Some(y)) => x == y,
        (None, None) => true,
        _ => false,
    }
}

impl NotificationAction {
    pub fn duplicate(&self) -> (r: NotificationAction)
        ensures
            r@ == self@,
    {
        NotificationAction {
            local_id: self.local_id.clone(),
            path_name: self.path_name.clone(),
            key: self.key.clone(),
            label: self.label.clone(),
            is_default: self.is_default,
            icon_name: copy_opt(&self.icon_name),
        }
    }

    /// Whether two actions have the same fields.
    pub fn same_as(&self, other: &NotificationAction) -> (r: bool)
        ensures
            r == (self@ == other@),
    {
        text_eq(self.local_id.as_str(), other.local_id.as_str()) && text_eq(
            self.path_name.as_str(),
            other.path_name.as_str(),
        ) && text_eq(self.key.as_str(), other.key.as_str()) && text_eq(
            self.label.as_str(),
            other.label.as_str(),
        ) && self.is_default == other.is_default && same_opt(&self.icon_name, &other.icon_name)
    }
}

fn copy_actions(v: &Vec<NotificationAction>) -> (r: Vec<NotificationAction>)
    ensures
        action_views(r@) == action_views(v@),
{
    let mut out: Vec<NotificationAction> = Vec::new();
    let mut i: usize = 0;
    while i < v.len()
        invariant
            i <= v.len(),
            out@.len() == i,
            forall|j: int| 0 <= j < i ==> (#[trigger] out@[j])@ == v@[j]@,
        decreases v.len() - i,
    {
        out.push(v[i].duplicate());
        i += 1;
    }
    assert(action_views(out@) =~= action_views(v@));
    out
}

fn same_actions(a: &Vec<NotificationAction>, b: &Vec<NotificationAction>) -> (r: bool)
    ensures
        r == (action_views(a@) == action_views(b@)),
{
    if a.len() != b.len() {
        assert(action_views(a@).len() != action_views(b@).len());
        return false;
    }
    let mut i: usize = 0;
    while i < a.len()
        invariant
            i <= a.len(),
            a.len() == b.len(),
            forall|j: int| 0 <= j < i ==> a@[j]@ == b@[j]@,
        decreases a.len() - i,
    {
        if !a[i].same_as(&b[i]) {
            assert(action_views(a@)[i as int] != action_views(b@)[i as int]);
            return false;
        }
        i += 1;
    }
    assert(action_views(a@) =~= action_views(b@));
    true
}

impl NotificationRecord {
    pub fn duplicate(&self) -> (r: NotificationRecord)
        ensures
            r@ == self@,
    {
        NotificationRecord {
            local_id: self.local_id.clone(),
            dbus_id: self.dbus_id,
            created_at_unix_ms: self.created_at_unix_ms,
            updated_at_unix_ms: self.updated_at_unix_ms,
            expire_timeout_ms: self.expire_timeout_ms,
            app_name: self.app_name.clone(),
            desktop_entry: self.desktop_entry.clone(),
            app_icon: self.app_icon.clone(),
            summary: self.summary.clone(),
            body: self.body.clone(),
            body_markup: copy_opt(&self.body_markup),
            category: self.category.clone(),
            urgency: self.urgency,
            progress: self.progress,
            resident: self.resident,
            transient: self.transient,
            suppress_sound: self.suppress_sound,
            icon_name: self.icon_name.clone(),
            image_path: copy_opt(&self.image_path),
            image_source: self.image_source.clone(),
            image_width: self.image_width,
            image_height: self.image_height,
            stack_key: copy_opt(&self.stack_key),
            actions: copy_actions(&self.actions),
        }
    }

    /// Whether two notifications have the same fields.
    pub fn same_as(&self, other: &NotificationRecord) -> (r: bool)
        ensures
            r == (self@ == other@),
    {
        let scalars = self.dbus_id == other.dbus_id && self.created_at_unix_ms
            == other.created_at_unix_ms && self.updated_at_unix_ms == other.updated_at_unix_ms
            && self.expire_timeout_ms == other.expire_timeout_ms && self.urgency == other.urgency
            && same_u32(self.progress, other.progress) && self.resident == other.resident
            && self.transient == other.transient && self.suppress_sound == other.suppress_sound
            && same_u32(self.image_width, other.image_width) && same_u32(
            self.image_height,
            other.image_height,
        );
        let texts = text_eq(self.local_id.as_str(), other.local_id.as_str()) && text_eq(
            self.app_name.as_str(),
            other.app_name.as_str(),
        ) && text_eq(self.desktop_entry.as_str(), other.desktop_entry.as_str()) && text_eq(
            self.app_icon.as_str(),
            other.app_icon.as_str(),
        ) && text_eq(self.summary.as_str(), other.summary.as_str()) && text_eq(
            self.body.as_str(),
            other.body.as_str(),
        ) && text_eq(self.category.as_str(), other.category.as_str()) && text_eq(
            self.icon_name.as_str(),
            other.icon_name.as_str(),
        ) && text_eq(self.image_source.as_str(), other.image_source.as_str());
        let options = same_opt(&self.body_markup, &other.body_markup) && same_opt(
            &self.image_path,
            &other.image_path,
        ) && same_opt(&self.stack_key, &other.stack_key);
        scalars && texts && options && same_actions(&self.actions, &other.actions)
    }
}

fn clamp_to_u32(n: u64) -> (r: u32)
    ensures
        r == clamp_u32(n),
{
    if n <= 0xffff_ffffu64 {
        n as u32
    } else {
        0xffff_ffffu32
    }
}

fn put_text(m: &mut PropertyMap, key: &str, o: &Option<String>)
    requires
        valid_identifier(IdentifierClass::PropertyKey, key@),
    ensures
        property_models(*final(m)) == with_text(property_models(*old(m)), key@, opt_text(*o)),
{
    match o {
        Some(t) => put(m, key, LocusValue::text(t.as_str())),
        None => {},
    }
}

fn put_u32(m: &mut PropertyMap, key: &str, o: Option<u32>)
    requires
        valid_identifier(IdentifierClass::PropertyKey, key@),
    ensures
        property_models(*final(m)) == with_u32(property_models(*old(m)), key@, o),
{
    match o {
        Some(n) => put(m, key, LocusValue::U32(n)),
        None => {},
    }
}

/// The properties of a notification.
pub fn notification_properties(record: &NotificationRecord) -> (r: Result<PropertyMap>)
    ensures
        r matches Ok(m) && property_models(m) == notification_properties_spec(record@),
{
    proof {
        reveal_strlit("id");
        reveal_strlit("dbus-id");
        reveal_strlit("source");
        reveal_strlit("created-at-unix-ms");
        reveal_strlit("updated-at-unix-ms");
        reveal_strlit("expire-timeout-ms");
        reveal_strlit("app-name");
        reveal_strlit("desktop-entry");
        reveal_strlit("app-icon");
        reveal_strlit("summary");
        reveal_strlit("body");
        reveal_strlit("body-markup");
        reveal_strlit("category");
        reveal_strlit("urgency");
        reveal_strlit("urgency-level");
        reveal_strlit("progress");
        reveal_strlit("resident");
        reveal_strlit("transient");
        reveal_strlit("suppress-sound");
        reveal_strlit("icon-name");
        reveal_strlit("image-path");
        reveal_strlit("image-source");
        reveal_strlit("image-width");
        reveal_strlit("image-height");
        reveal_strlit("stack-key");
        reveal_strlit("discard");
        reveal_strlit("");
    }
    let ghost r = record@;
    let mut m: PropertyMap = TextMap::new();
    put(&mut m, "id", LocusValue::text(record.local_id.as_str()));
    put(&mut m, "dbus-id", LocusValue::U32(record.dbus_id));
    put(&mut m, "source", LocusValue::text(SOURCE));
    put(&mut m, "created-at-unix-ms", LocusValue::U32(clamp_to_u32(record.created_at_unix_ms)));
    put(&mut m, "updated-at-unix-ms", LocusValue::U32(clamp_to_u32(record.updated_at_unix_ms)));
    put(&mut m, "expire-timeout-ms", LocusValue::I32(record.expire_timeout_ms));
    put(&mut m, "app-name", LocusValue::text(record.app_name.as_str()));
    put(&mut m, "desktop-entry", LocusValue::text(record.desktop_entry.as_str()));
    put(&mut m, "app-icon", LocusValue::text(record.app_icon.as_str()));
    put(&mut m, "summary", LocusValue::text(record.summary.as_str()));
    put(&mut m, "body", LocusValue::text(record.body.as_str()));
    assert(property_models(m) =~= notification_head(r));
    put_text(&mut m, "body-markup", &record.body_markup);
    put(&mut m, "category", LocusValue::text(record.category.as_str()));
    put(&mut m, "urgency", LocusValue::text(record.urgency.as_str()));
    put(&mut m, "urgency-level", LocusValue::U32(record.urgency.level()));
    assert(property_models(m) =~= notification_middle(r));
    let progress = match record.progress {
        Some(p) => Some(
            if p <= 100 {
                p
            } else {
                100u32
            },
        ),
        None => None,
    };
    put_u32(&mut m, "progress", progress);
    put(&mut m, "resident", LocusValue::Bool(record.resident));
    put(&mut m, "transient", LocusValue::Bool(record.transient));
    put(&mut m, "suppress-sound", LocusValue::Bool(record.suppress_sound));
    put(&mut m, "icon-name", LocusValue::text(record.icon_name.as_str()));
    assert(property_models(m) =~= notification_flags(r));
    put_text(&mut m, "image-path", &record.image_path);
    put(&mut m, "image-source", LocusValue::text(record.image_source.as_str()));
    put_u32(&mut m, "image-width", record.image_width);
    put_u32(&mut m, "image-height", record.image_height);
    put_text(&mut m, "stack-key", &record.stack_key);
    assert(property_models(m) =~= notification_image(r));
    put(&mut m, "discard", LocusValue::text(""));
    proof {
        assert(""@ =~= Seq::<char>::empty());
        assert(property_models(m) =~= notification_properties_spec(record@));
    }
    Ok(m)
}

/// The properties of an action.
pub fn action_properties(action: &NotificationAction) -> (r: Result<PropertyMap>)
    ensures
        r matches Ok(m) && property_models(m) == action_properties_spec(action@),
{
    proof {
        reveal_strlit("key");
        reveal_strlit("label");
        reveal_strlit("default");
        reveal_strlit("icon-name");
        reveal_strlit("invoke");
        reveal_strlit("");
    }
    let mut m: PropertyMap = TextMap::new();
    put(&mut m, "key", LocusValue::text(action.key.as_str()));
    put(&mut m, "label", LocusValue::text(action.label.as_str()));
    put(&mut m, "default", LocusValue::Bool(action.is_default));
    put_text(&mut m, "icon-name", &action.icon_name);
    put(&mut m, "invoke", LocusValue::text(""));
    proof {
        assert(""@ =~= Seq::<char>::empty());
        assert(property_models(m) =~= action_properties_spec(action@));
    }
    Ok(m)
}

/// A node of kind `notifyd`.
pub fn notifyd_node(local: &str) -> (r: Result<NodeId>)
    ensures
        r is Ok <==> valid_identifier(IdentifierClass::NodeLocalId, local@),
        r matches Ok(n) ==> n@ == notifyd_view(local@),
        r matches Err(e) ==> identifier_error(IdentifierClass::NodeLocalId, local@, e),
{
    proof {
        reveal_strlit("notifyd");
    }
    NodeId::from_parts(NOTIFYD_KIND, local)
}

/// The node of a notification.
pub fn notification_node(local: &str) -> (r: Result<NodeId>)
    ensures
        r is Ok <==> valid_identifier(IdentifierClass::NodeLocalId, local@),
        r matches Ok(n) ==> n@ == notification_view(local@),
        r matches Err(e) ==> identifier_error(IdentifierClass::NodeLocalId, local@, e),
{
    proof {
        reveal_strlit("notification");
    }
    NodeId::from_parts(NOTIFICATION_KIND, local)
}

/// The node of an action.
pub fn action_node(local: &str) -> (r: Result<NodeId>)
    ensures
        r is Ok <==> valid_identifier(IdentifierClass::NodeLocalId, local@),
        r matches Ok(n) ==> n@ == action_view(local@),
        r matches Err(e) ==> identifier_error(IdentifierClass::NodeLocalId, local@, e),
{
    proof {
        reveal_strlit("notification-action");
    }
    NodeId::from_parts(NOTIFICATION_ACTION_KIND, local)
}

/// A `notifyd` node whose local id is known to be valid.
fn valid_notifyd_node(local: &str) -> (r: NodeId)
    requires
        valid_identifier(IdentifierClass::NodeLocalId, local@),
    ensures
        r@ == notifyd_view(local@),
{
    match notifyd_node(local) {
        Ok(n) => n,
        Err(_) => vstd::pervasive::unreached(),
    }
}

/// A notification node whose local id is known to be valid.
fn valid_notification_node(local: &str) -> (r: NodeId)
    requires
        valid_identifier(IdentifierClass::NodeLocalId, local@),
    ensures
        r@ == notification_view(local@),
{
    match notification_node(local) {
        Ok(n) => n,
        Err(_) => vstd::pervasive::unreached(),
    }
}

/// Whether a character may stand in a path segment as it is.
pub open spec fn segment_char(c: char) -> bool {
    ('a' <= c <= 'z') || ('A' <= c <= 'Z') || ('0' <= c <= '9') || c == '.' || c == '_' || c
        == '-'
}

/// A text with every character outside ASCII letters, digits and `._-`
/// replaced by `_`.
pub open spec fn segment_chars(value: Seq<char>) -> Seq<char> {
    value.map_values(
        |c: char|
            if segment_char(c) {
                c
            } else {
                '_'
            },
    )
}

/// A path segment for a text: `segment_chars`, or `default` when that is
/// empty, `.` or `..`.
pub open spec fn safe_segment_spec(value: Seq<char>) -> Seq<char> {
    let s = segment_chars(value);
    if s.len() == 0 || s == seq!['.'] || s == seq!['.', '.'] {
        "default"@
    } else {
        s
    }
}

pub fn safe_segment(value: &str) -> (r: String)
    ensures
        r@ == safe_segment_spec(value@),
{
    let chars = chars_of(value);
    let mut safe = String::new();
    let mut i: usize = 0;
    while i < chars.len()
        invariant
            i <= chars.len(),
            chars@ == value@,
            safe@ == segment_chars(chars@.take(i as int)),
        decreases chars.len() - i,
    {
        let c = chars[i];
        let keep = ('a' <= c && c <= 'z') || ('A' <= c && c <= 'Z') || ('0' <= c && c <= '9') || c
            == '.' || c == '_' || c == '-';
        if keep {
            push_char(&mut safe, c);
        } else {
            push_char(&mut safe, '_');
        }
        proof {
            assert(chars@.take(i + 1) =~= chars@.take(i as int).push(c));
            assert(safe@ =~= segment_chars(chars@.take(i + 1)));
        }
        i += 1;
    }
    assert(chars@.take(chars.len() as int) =~= chars@);
    let n = chars.len();
    let s = chars_of(safe.as_str());
    let reserved = s.len() == 0 || (s.len() == 1 && s[0] == '.') || (s.len() == 2 && s[0] == '.'
        && s[1] == '.');
    proof {
        if s@ == seq!['.'] {
            assert(s@.len() == 1 && s@[0] == '.');
        }
        if s@ == seq!['.', '.'] {
            assert(s@.len() == 2 && s@[0] == '.' && s@[1] == '.');
        }
        if s.len() == 1 && s[0] == '.' {
            assert(s@ =~= seq!['.']);
        }
        if s.len() == 2 && s[0] == '.' && s[1] == '.' {
            assert(s@ =~= seq!['.', '.']);
        }
    }
    if reserved {
        "default".to_owned()
    } else {
        safe
    }
}

/// The action a notification offers under `key`: its local id is
/// `<notification id>-<safe key>`, and the `default` key makes it the
/// default action.
pub open spec fn make_action_spec(notification_id: Seq<char>, key: Seq<char>, label: Seq<char>) -> NotificationActionView {
    NotificationActionView {
        local_id: notification_id + "-"@ + safe_segment_spec(key),
        path_name: safe_segment_spec(key),
        key,
        label,
        is_default: key == "default"@,
        icon_name: None,
    }
}

pub fn make_action(notification_id: &str, key: String, label: String) -> (r: NotificationAction)
    ensures
        r@ == make_action_spec(notification_id@, key@, label@),
{
    let is_default = text_eq(key.as_str(), "default");
    let path_name = safe_segment(key.as_str());
    let local_id = concat3(notification_id, "-", path_name.as_str());
    NotificationAction { local_id, path_name, key, label, is_default, icon_name: None }
}

/// The local id of the virtual directory holding a notification's actions.
pub open spec fn actions_virtual_local_spec(notification_id: Seq<char>) -> Seq<char> {
    "actions"@ + "|"@ + notification_id
}

fn actions_virtual_local(notification_id: &str) -> (r: String)
    ensures
        r@ == actions_virtual_local_spec(notification_id@),
{
    concat3(VIRTUAL_ACTIONS, VIRTUAL_SEPARATOR, notification_id)
}

/// The notification id a virtual directory's local id names: what follows
/// the first `|`, when what precedes it is `actions`.
pub open spec fn actions_virtual_id_spec(local: Seq<char>) -> Option<Seq<char>> {
    match split_once_spec(local, '|') {
        Some((kind, id)) => if kind == "actions"@ {
            Some(id)
        } else {
            None
        },
        None => None,
    }
}

fn actions_virtual_notification_id(local: &str) -> (r: Option<String>)
    ensures
        opt_text(r) == actions_virtual_id_spec(local@),
{
    match split_once_char(local, '|') {
        Some((kind, id)) => {
            if text_eq(kind.as_str(), VIRTUAL_ACTIONS) {
                Some(id)
            } else {
                None
            }
        },
        None => None,
    }
}


/// The local ids of all actions, notification by notification in id order,
/// each notification's actions in order.
pub open spec fn all_action_ids(records: Seq<NotificationRecordView>) -> Seq<Seq<char>>
    decreases records.len(),
{
    if records.len() == 0 {
        Seq::empty()
    } else {
        all_action_ids(records.drop_last()) + records.last().actions.map_values(
            |a: NotificationActionView| a.local_id,
        )
    }
}

/// The names notifyd uses are distinct and valid.
proof fn lemma_notifyd_names()
    ensures
        "notifyd"@ != "notification"@,
        "notifyd"@ != "notification-action"@,
        "notification"@ != "notification-action"@,
        "notifications"@ != "state"@,
        "notifications"@ != "commands"@,
        "state"@ != "commands"@,
        valid_identifier(IdentifierClass::NodeLocalId, "notifications"@),
        valid_identifier(IdentifierClass::NodeLocalId, "state"@),
        valid_identifier(IdentifierClass::NodeLocalId, "commands"@),
        valid_identifier(IdentifierClass::NodeKind, "notification"@),
        valid_identifier(IdentifierClass::NodeKind, "notification-action"@),
        valid_identifier(IdentifierClass::PropertyKey, "dnd-enabled"@),
        valid_identifier(IdentifierClass::PropertyKey, "notification-count"@),
        valid_identifier(IdentifierClass::PropertyKey, "suppressed-count"@),
        valid_identifier(IdentifierClass::PropertyKey, "server-name"@),
        valid_identifier(IdentifierClass::PathName, "actions"@),
{
    reveal_strlit("notifyd");
    reveal_strlit("notification");
    reveal_strlit("notification-action");
    reveal_strlit("notifications");
    reveal_strlit("state");
    reveal_strlit("commands");
    reveal_strlit("dnd-enabled");
    reveal_strlit("notification-count");
    reveal_strlit("suppressed-count");
    reveal_strlit("server-name");
    reveal_strlit("actions");
    assert("notifyd"@.len() == 7);
    assert("notification"@.len() == 12);
    assert("notification-action"@.len() == 19);
    assert("notifications"@.len() == 13);
    assert("state"@.len() == 5);
    assert("commands"@.len() == 8);
}

/// Every notification id names a valid node.
pub open spec fn ids_valid(s: NotifydSnapshot) -> bool {
    forall|id: Seq<char>| #[trigger]
        records_of(s).contains_key(id) ==> valid_identifier(IdentifierClass::NodeLocalId, id)
}

/// The `notifyd` nodes in order.
pub open spec fn notifyd_nodes_spec() -> Seq<NodeIdView> {
    seq![notifyd_view("commands"@), notifyd_view("notifications"@), notifyd_view("state"@)]
}

/// The notification nodes of a run of ids.
pub open spec fn notification_nodes_of(ids: Seq<Seq<char>>) -> Seq<NodeIdView> {
    ids.map_values(|id: Seq<char>| notification_view(id))
}

/// The action nodes of a run of ids.
pub open spec fn action_nodes_of(ids: Seq<Seq<char>>) -> Seq<NodeIdView> {
    ids.map_values(|id: Seq<char>| action_view(id))
}

proof fn lemma_records(s: NotifydSnapshot)
    requires
        sorted_by_key(s.notifications.entries()),
    ensures
        record_list(s).len() == s.notifications.keys().len(),
        forall|i: int|
            0 <= i < s.notifications.keys().len() ==> #[trigger] records_of(s).contains_key(
                s.notifications.keys()[i],
            ) && records_of(s)[s.notifications.keys()[i]] == record_list(s)[i],
        forall|k: Seq<char>| #[trigger]
            records_of(s).contains_key(k) ==> exists|i: int|
                0 <= i < s.notifications.keys().len() && s.notifications.keys()[i] == k,
{
    let e = s.notifications.entries();
    assert forall|i: int| 0 <= i < s.notifications.keys().len() implies #[trigger] records_of(
        s,
    ).contains_key(s.notifications.keys()[i]) && records_of(s)[s.notifications.keys()[i]]
        == record_list(s)[i] by {
        lemma_entries_map_at(e, i);
    }
    assert forall|k: Seq<char>| #[trigger] records_of(s).contains_key(k) implies exists|i: int|
        0 <= i < s.notifications.keys().len() && s.notifications.keys()[i] == k by {
        let i = choose|i: int| 0 <= i < e.len() && #[trigger] e[i].0.key_text() == k;
        assert(s.notifications.keys()[i] == k);
    }
}

impl NotifydSnapshot {
    /// A snapshot with no notifications.
    pub fn new(server_name: String, dnd_enabled: bool) -> (r: NotifydSnapshot)
        ensures
            records_of(r) == Map::<Seq<char>, NotificationRecordView>::empty(),
            r.server_name@ == server_name@,
            r.dnd_enabled == dnd_enabled,
            r.suppressed_count == 0,
    {
        let r = NotifydSnapshot {
            notifications: TextMap::new(),
            dnd_enabled,
            suppressed_count: 0,
            server_name,
        };
        assert(records_of(r) =~= Map::<Seq<char>, NotificationRecordView>::empty());
        r
    }
}

impl NotifydState {
    /// The snapshot the state projects.
    pub closed spec fn snapshot_spec(&self) -> NotifydSnapshot {
        self.snapshot
    }

    #[verifier::type_invariant]
    closed spec fn well_formed(&self) -> bool {
        ids_valid(self.snapshot)
    }

    /// A state with no notifications.
    pub fn new(server_name: String, dnd_enabled: bool) -> (r: NotifydState)
        ensures
            records_of(r.snapshot_spec()) == Map::<Seq<char>, NotificationRecordView>::empty(),
            r.snapshot_spec().server_name@ == server_name@,
            r.snapshot_spec().dnd_enabled == dnd_enabled,
            r.snapshot_spec().suppressed_count == 0,
    {
        NotifydState { snapshot: NotifydSnapshot::new(server_name, dnd_enabled) }
    }

    /// Whether do-not-disturb is on.
    pub fn dnd_enabled(&self) -> (r: bool)
        ensures
            r == self.snapshot_spec().dnd_enabled,
    {
        self.snapshot.dnd_enabled
    }

    /// A copy of the notification with local id `local_id`.
    pub fn notification(&self, local_id: &str) -> (r: Option<NotificationRecord>)
        ensures
            match r {
                Some(n) => records_of(self.snapshot_spec()).contains_key(local_id@) && n@
                    == records_of(self.snapshot_spec())[local_id@],
                None => !records_of(self.snapshot_spec()).contains_key(local_id@),
            },
    {
        match self.snapshot.notifications.get(local_id) {
            Some(n) => Some(n.duplicate()),
            None => None,
        }
    }

    /// The local ids of all notifications, in order.
    pub fn notification_ids(&self) -> (r: Vec<String>)
        ensures
            r@.map_values(|s: String| s@) == self.snapshot_spec().notifications.keys(),
    {
        let n = self.snapshot.notifications.len();
        let mut out: Vec<String> = Vec::new();
        let mut i: usize = 0;
        while i < n
            invariant
                n == self.snapshot.notifications.keys().len(),
                i <= n,
                out@.len() == i,
                forall|j: int| 0 <= j < i ==> (#[trigger] out@[j])@ == self.snapshot.notifications.keys()[j],
            decreases n - i,
        {
            let id = self.snapshot.notifications.key_at(i).clone();
            out.push(id);
            i += 1;
        }
        assert(out@.map_values(|s: String| s@) =~= self.snapshot.notifications.keys());
        out
    }

    /// Whether some notification carries the bus id `dbus_id`.
    pub fn contains_dbus_id(&self, dbus_id: u32) -> (r: bool)
        ensures
            r == exists|id: Seq<char>| #[trigger]
                records_of(self.snapshot_spec()).contains_key(id) && records_of(
                    self.snapshot_spec(),
                )[id].dbus_id == dbus_id,
    {
        let n = self.snapshot.notifications.len();
        proof {
            lemma_records(self.snapshot);
        }
        let mut i: usize = 0;
        while i < n
            invariant
                n == self.snapshot.notifications.keys().len(),
                n == record_list(self.snapshot).len(),
                n == self.snapshot.notifications.entries().len(),
                i <= n,
                forall|j: int| 0 <= j < i ==> record_list(self.snapshot)[j].dbus_id != dbus_id,
                forall|j: int|
                    0 <= j < n ==> #[trigger] records_of(self.snapshot).contains_key(
                        self.snapshot.notifications.keys()[j],
                    ) && records_of(self.snapshot)[self.snapshot.notifications.keys()[j]]
                        == record_list(self.snapshot)[j],
            decreases n - i,
        {
            assert(record_list(self.snapshot)[i as int]
                == self.snapshot.notifications.entries()[i as int].1@);
            if self.snapshot.notifications.value_at(i).dbus_id == dbus_id {
                proof {
                    let k = self.snapshot.notifications.keys()[i as int];
                    assert(records_of(self.snapshot).contains_key(k));
                    assert(record_list(self.snapshot)[i as int]
                        == self.snapshot.notifications.entries()[i as int].1@);
                    assert(records_of(self.snapshot)[k].dbus_id == dbus_id);
                }
                return true;
            }
            i += 1;
        }
        proof {
            if exists|id: Seq<char>| #[trigger]
                records_of(self.snapshot).contains_key(id) && records_of(self.snapshot)[id].dbus_id
                    == dbus_id {
                let id = choose|id: Seq<char>| #[trigger]
                    records_of(self.snapshot).contains_key(id) && records_of(
                        self.snapshot,
                    )[id].dbus_id == dbus_id;
                let j = choose|j: int|
                    0 <= j < self.snapshot.notifications.keys().len()
                        && self.snapshot.notifications.keys()[j] == id;
                assert(records_of(self.snapshot).contains_key(self.snapshot.notifications.keys()[j]));
            }
        }
        false
    }

    /// The notification with local id `notification_id` and its first action
    /// with key `action_key`.
    pub fn action_for_key(&self, notification_id: &str, action_key: &str) -> (r: Option<
        (NotificationRecord, NotificationAction),
    >)
        ensures
            match r {
                Some((n, a)) => records_of(self.snapshot_spec()).contains_key(notification_id@)
                    && n@ == records_of(self.snapshot_spec())[notification_id@]
                    && first_action_with_key(n@.actions, action_key@) == Some(a@),
                None => !records_of(self.snapshot_spec()).contains_key(notification_id@)
                    || first_action_with_key(
                    records_of(self.snapshot_spec())[notification_id@].actions,
                    action_key@,
                ) is None,
            },
    {
        let notification = match self.snapshot.notifications.get(notification_id) {
            Some(n) => n,
            None => return None,
        };
        let ghost acts = notification@.actions;
        assert(records_of(self.snapshot_spec())[notification_id@] == notification@);
        assert(acts.skip(0) =~= acts);
        let mut i: usize = 0;
        while i < notification.actions.len()
            invariant
                i <= notification.actions.len(),
                records_of(self.snapshot_spec()).contains_key(notification_id@),
                records_of(self.snapshot_spec())[notification_id@] == notification@,
                acts == notification@.actions,
                acts.len() == notification.actions.len(),
                first_action_with_key(acts.skip(i as int), action_key@) == first_action_with_key(
                    acts,
                    action_key@,
                ),
            decreases notification.actions.len() - i,
        {
            let action = &notification.actions[i];
            assert(acts[i as int] == action@);
            assert(acts.skip(i as int)[0] == action@);
            assert(acts.skip(i as int).drop_first() =~= acts.skip(i + 1));
            if text_eq(action.key.as_str(), action_key) {
                let n = notification.duplicate();
                let a = action.duplicate();
                return Some((n, a));
            }
            i += 1;
        }
        assert(acts.skip(acts.len() as int) =~= Seq::<NotificationActionView>::empty());
        None
    }

    /// The notification and action that an action node names.
    fn action_by_node(&self, node: &NodeId) -> (r: Option<(&NotificationRecord, &NotificationAction)>)
        ensures
            match r {
                Some((n, a)) => node@.kind == "notification-action"@ && find_action(
                    record_list(self.snapshot_spec()),
                    node@.local,
                ) == Some((n@, a@)),
                None => node@.kind != "notification-action"@ || find_action(
                    record_list(self.snapshot_spec()),
                    node@.local,
                ) is None,
            },
    {
        if !text_eq(node.kind().as_str(), NOTIFICATION_ACTION_KIND) {
            return None;
        }
        let local = node.local();
        let n = self.snapshot.notifications.len();
        let ghost records = record_list(self.snapshot);
        proof {
            lemma_records(self.snapshot);
        }
        assert(records.skip(0) =~= records);
        let mut i: usize = 0;
        while i < n
            invariant
                n == records.len(),
                records == record_list(self.snapshot),
                local@ == node@.local,
                node@.kind == "notification-action"@,
                i <= n,
                find_action(records.skip(i as int), local@) == find_action(records, local@),
            decreases n - i,
        {
            let record = self.snapshot.notifications.value_at(i);
            assert(records[i as int] == record@);
            assert(records.skip(i as int)[0] == record@);
            assert(records.skip(i as int).drop_first() =~= records.skip(i + 1));
            let ghost acts = record@.actions;
            assert(acts.skip(0) =~= acts);
            let mut j: usize = 0;
            while j < record.actions.len()
                invariant
                    j <= record.actions.len(),
                    acts == record@.actions,
                    acts.len() == record.actions.len(),
                    node@.kind == "notification-action"@,
                    local@ == node@.local,
                    i < records.len(),
                    records == record_list(self.snapshot),
                    records.skip(i as int)[0] == record@,
                    find_action(records.skip(i as int), local@) == find_action(records, local@),
                    first_action(acts.skip(j as int), local@) == first_action(acts, local@),
                decreases record.actions.len() - j,
            {
                let action = &record.actions[j];
                assert(acts[j as int] == action@);
                assert(acts.skip(j as int)[0] == action@);
                assert(acts.skip(j as int).drop_first() =~= acts.skip(j + 1));
                if text_eq(action.local_id.as_str(), local) {
                    return Some((record, action));
                }
                j += 1;
            }
            assert(acts.skip(record.actions.len() as int) =~= Seq::<NotificationActionView>::empty());
            i += 1;
        }
        assert(records.skip(n as int) =~= Seq::<NotificationRecordView>::empty());
        None
    }

    /// The properties of a node, or `None` when it does not exist.
    fn node_properties(&self, node: &NodeId) -> (r: Option<PropertyMap>)
        ensures
            props_option(r) == node_properties_spec(self.snapshot_spec(), node@),
    {
        proof {
            lemma_notifyd_names();
            reveal_strlit("dnd-enabled");
            reveal_strlit("notification-count");
            reveal_strlit("suppressed-count");
            reveal_strlit("server-name");
            reveal_strlit("discard-all");
            reveal_strlit("");
        }
        let kind = node.kind().as_str();
        let local = node.local();
        if text_eq(kind, NOTIFYD_KIND) && text_eq(local, NOTIFICATIONS_NODE) {
            let m: PropertyMap = TextMap::new();
            assert(property_models(m) =~= Map::<Seq<char>, ValueModel>::empty());
            Some(m)
        } else if text_eq(kind, NOTIFYD_KIND) && text_eq(local, STATE_NODE) {
            let mut m: PropertyMap = TextMap::new();
            put(&mut m, "dnd-enabled", LocusValue::Bool(self.snapshot.dnd_enabled));
            let count = self.snapshot.notifications.len();
            put(&mut m, "notification-count", LocusValue::U32(clamp_to_u32(count as u64)));
            put(&mut m, "suppressed-count", LocusValue::U32(self.snapshot.suppressed_count));
            put(&mut m, "server-name", LocusValue::text(self.snapshot.server_name.as_str()));
            assert(property_models(m) =~= state_properties_spec(self.snapshot));
            Some(m)
        } else if text_eq(kind, NOTIFYD_KIND) && text_eq(local, COMMANDS_NODE) {
            let mut m: PropertyMap = TextMap::new();
            put(&mut m, "discard-all", LocusValue::text(""));
            put(&mut m, "dnd-enabled", LocusValue::Bool(self.snapshot.dnd_enabled));
            assert(""@ =~= Seq::<char>::empty());
            assert(property_models(m) =~= command_properties_spec(self.snapshot));
            Some(m)
        } else if text_eq(kind, NOTIFICATION_KIND) {
            match self.snapshot.notifications.get(local) {
                Some(record) => match notification_properties(record) {
                    Ok(m) => Some(m),
                    Err(_) => None,
                },
                None => None,
            }
        } else if text_eq(kind, NOTIFICATION_ACTION_KIND) {
            match self.action_by_node(node) {
                Some((_, action)) => match action_properties(action) {
                    Ok(m) => Some(m),
                    Err(_) => None,
                },
                None => None,
            }
        } else {
            None
        }
    }

    /// Whether a node exists.
    pub fn contains_node(&self, node: &NodeId) -> (r: Result<bool>)
        ensures
            r matches Ok(b) && b == contains_spec(self.snapshot_spec(), node@),
    {
        let kind = node.kind().as_str();
        let local = node.local();
        proof {
            lemma_notifyd_names();
        }
        if text_eq(kind, NOTIFYD_KIND) {
            Ok(text_eq(local, NOTIFICATIONS_NODE) || text_eq(local, STATE_NODE) || text_eq(
                local,
                COMMANDS_NODE,
            ))
        } else if text_eq(kind, NOTIFICATION_KIND) {
            Ok(self.snapshot.notifications.contains_key(local))
        } else if text_eq(kind, NOTIFICATION_ACTION_KIND) {
            Ok(self.action_by_node(node).is_some())
        } else {
            Ok(false)
        }
    }

    /// The nodes of a kind, in order. Listing actions fails when an action's
    /// local id is not a valid node id.
    pub fn nodes(&self, kind: &NodeKind) -> (r: Result<Vec<NodeId>>)
        ensures
            kind@ == "notifyd"@ ==> (r matches Ok(v) && node_views(v@) == notifyd_nodes_spec()),
            kind@ == "notification"@ ==> (r matches Ok(v) && node_views(v@)
                == notification_nodes_of(self.snapshot_spec().notifications.keys())),
            kind@ == "notification-action"@ ==> ({
                let ids = all_action_ids(record_list(self.snapshot_spec()));
                &&& all_valid(ids) ==> (r matches Ok(v) && node_views(v@).to_multiset()
                    == action_nodes_of(ids).to_multiset() && nodes_sorted(node_views(v@)))
                &&& r matches Err(e) ==> some_invalid_error(ids, e)
                &&& !all_valid(ids) ==> r is Err
            }),
            kind@ != "notifyd"@ && kind@ != "notification"@ && kind@ != "notification-action"@
                ==> (r matches Ok(v) && v@.len() == 0),
    {
        proof {
            use_type_invariant(self);
            lemma_notifyd_names();
        }
        let k = kind.as_str();
        let mut out: Vec<NodeId> = Vec::new();
        if text_eq(k, NOTIFYD_KIND) {
            out.push(valid_notifyd_node(COMMANDS_NODE));
            out.push(valid_notifyd_node(NOTIFICATIONS_NODE));
            out.push(valid_notifyd_node(STATE_NODE));
            assert(node_views(out@) =~= notifyd_nodes_spec());
            Ok(out)
        } else if text_eq(k, NOTIFICATION_KIND) {
            let n = self.snapshot.notifications.len();
            let ghost ks = self.snapshot.notifications.keys();
            proof {
                lemma_records(self.snapshot);
            }
            let mut i: usize = 0;
            while i < n
                invariant
                    n == ks.len(),
                    ks == self.snapshot.notifications.keys(),
                    ids_valid(self.snapshot),
                    forall|j: int| 0 <= j < ks.len() ==> #[trigger] records_of(
                        self.snapshot,
                    ).contains_key(ks[j]),
                    i <= n,
                    node_views(out@) == notification_nodes_of(ks.take(i as int)),
                decreases n - i,
            {
                let id = self.snapshot.notifications.key_at(i);
                assert(id@ == ks[i as int]);
                assert(records_of(self.snapshot).contains_key(ks[i as int]));
                let node = valid_notification_node(id.as_str());
                proof {
                    lemma_node_views_push(out@, node);
                    assert(notification_nodes_of(ks.take(i + 1)) =~= notification_nodes_of(
                        ks.take(i as int),
                    ).push(notification_view(ks[i as int])));
                }
                out.push(node);
                i += 1;
            }
            assert(ks.take(n as int) =~= ks);
            Ok(out)
        } else if text_eq(k, NOTIFICATION_ACTION_KIND) {
            let n = self.snapshot.notifications.len();
            let ghost records = record_list(self.snapshot);
            proof {
                lemma_records(self.snapshot);
            }
            let mut i: usize = 0;
            while i < n
                invariant
                    n == records.len(),
                    records == record_list(self.snapshot),
                    kind@ == "notification-action"@,
                    i <= n,
                    all_valid(all_action_ids(records.take(i as int))),
                    node_views(out@) == action_nodes_of(all_action_ids(records.take(i as int))),
                decreases n - i,
            {
                let record = self.snapshot.notifications.value_at(i);
                assert(records[i as int] == record@);
                assert(records.take(i + 1).drop_last() =~= records.take(i as int));
                let ghost prefix = all_action_ids(records.take(i as int));
                let ghost acts = record@.actions.map_values(|a: NotificationActionView| a.local_id);
                assert(all_action_ids(records.take(i + 1)) == prefix + acts);
                let mut j: usize = 0;
                while j < record.actions.len()
                    invariant
                        j <= record.actions.len(),
                        kind@ == "notification-action"@,
                        n == records.len(),
                        i < n,
                        records == record_list(self.snapshot),
                        all_action_ids(records.take(i + 1)) == prefix + acts,
                        acts == record@.actions.map_values(|a: NotificationActionView| a.local_id),
                        acts.len() == record.actions.len(),
                        all_valid(prefix),
                        all_valid(acts.take(j as int)),
                        node_views(out@) == action_nodes_of(prefix + acts.take(j as int)),
                    decreases record.actions.len() - j,
                {
                    let id = &record.actions[j].local_id;
                    assert(acts[j as int] == id@);
                    let node = match action_node(id.as_str()) {
                        Ok(node) => node,
                        Err(e) => {
                            proof {
                                lemma_notifyd_names();
                                let all = all_action_ids(records);
                                let rest = all_action_ids(records.skip(i + 1));
                                assert(records =~= records.take(i + 1) + records.skip(i + 1));
                                lemma_action_ids_append(records.take(i + 1), records.skip(i + 1));
                                assert(all == prefix + acts + rest);
                                let p = prefix.len() + j;
                                assert((prefix + acts + rest)[p] == acts[j as int]);
                                assert(all[p] == acts[j as int]);
                                assert(!valid_identifier(IdentifierClass::NodeLocalId, all[p]));
                                assert(some_invalid_error(all, e));
                            }
                            return Err(e);
                        },
                    };
                    proof {
                        lemma_node_views_push(out@, node);
                        assert(acts.take(j + 1) =~= acts.take(j as int).push(acts[j as int]));
                        assert(prefix + acts.take(j + 1) =~= (prefix + acts.take(j as int)).push(
                            acts[j as int],
                        ));
                        assert(action_nodes_of(prefix + acts.take(j + 1)) =~= action_nodes_of(
                            prefix + acts.take(j as int),
                        ).push(action_view(acts[j as int])));
                    }
                    out.push(node);
                    j += 1;
                }
                assert(acts.take(acts.len() as int) =~= acts);
                i += 1;
            }
            assert(records.take(n as int) =~= records);
            let sorted = sort_nodes(out);
            Ok(sorted)
        } else {
            Ok(out)
        }
    }

    /// The spec of a node's property.
    pub fn property_spec(&self, subject: &NodeId, key: &PropertyKey) -> (r: Result<PropertySpec>)
        ensures
            property_spec_result(
                NotifydAccess,
                node_properties_spec(self.snapshot_spec(), subject@),
                subject@,
                key@,
                r,
            ),
    {
        answer_property_spec(&NotifydAccess, self.node_properties(subject), subject, key)
    }

    /// The specs of a node's properties, in key order.
    pub fn properties(&self, subject: &NodeId) -> (r: Result<Vec<PropertySpec>>)
        ensures
            properties_result(
                NotifydAccess,
                node_properties_spec(self.snapshot_spec(), subject@),
                subject@,
                r,
            ),
    {
        answer_properties(&NotifydAccess, self.node_properties(subject), subject)
    }

    /// The value of a node's property.
    pub fn property(&self, subject: &NodeId, key: &PropertyKey) -> (r: Result<LocusValue>)
        ensures
            property_result(node_properties_spec(self.snapshot_spec(), subject@), subject@, key@, r),
    {
        answer_property(self.node_properties(subject), subject, key)
    }

    fn node_relations(&self, node: &NodeId) -> (r: Option<RelationMap>)
        ensures
            rels_option(r) == node_relations_spec(self.snapshot_spec(), node@),
    {
        match self.node_properties(node) {
            Some(_) => {
                let m: RelationMap = TextMap::new();
                assert(relation_models(m) =~= Map::<Seq<char>, Seq<NodeIdView>>::empty());
                Some(m)
            },
            None => None,
        }
    }

    /// The relation names of a node: none.
    pub fn relations(&self, source: &NodeId) -> (r: Result<Vec<RelationName>>)
        ensures
            relations_result(node_relations_spec(self.snapshot_spec(), source@), source@, r),
    {
        answer_relations(self.node_relations(source), source)
    }

    /// The targets of a node's relation: always the missing-relation error
    /// for a node that exists.
    pub fn targets(&self, source: &NodeId, relation: &RelationName) -> (r: Result<Vec<NodeId>>)
        ensures
            targets_result(
                node_relations_spec(self.snapshot_spec(), source@),
                source@,
                relation@,
                r,
            ),
    {
        answer_targets(self.node_relations(source), source, relation)
    }
}

/// The action ids of two runs of notifications are those of the first, then
/// those of the second.
proof fn lemma_action_ids_append(a: Seq<NotificationRecordView>, b: Seq<NotificationRecordView>)
    ensures
        all_action_ids(a + b) == all_action_ids(a) + all_action_ids(b),
    decreases b.len(),
{
    if b.len() == 0 {
        assert(a + b =~= a);
        assert(all_action_ids(a) + all_action_ids(b) =~= all_action_ids(a));
    } else {
        lemma_action_ids_append(a, b.drop_last());
        assert((a + b).drop_last() =~= a + b.drop_last());
        assert((a + b).last() == b.last());
        assert(all_action_ids(a + b) =~= all_action_ids(a) + all_action_ids(b));
    }
}


/// The actions of a notification keyed by local id; a later action with the
/// same local id replaces an earlier one.
pub open spec fn action_map_spec(actions: Seq<NotificationActionView>) -> Map<
    Seq<char>,
    NotificationActionView,
>
    decreases actions.len(),
{
    if actions.len() == 0 {
        Map::empty()
    } else {
        action_map_spec(actions.drop_last()).insert(actions.last().local_id, actions.last())
    }
}

/// The texts of a run that a set does not hold, in order.
pub open spec fn absent_ids(keys: Seq<Seq<char>>, present: Set<Seq<char>>) -> Seq<Seq<char>>
    decreases keys.len(),
{
    if keys.len() == 0 {
        Seq::empty()
    } else {
        absent_ids(keys.drop_last(), present) + if present.contains(keys.last()) {
            Seq::empty()
        } else {
            seq![keys.last()]
        }
    }
}

/// The ids of a run whose action is in both maps but differs, in order.
pub open spec fn changed_action_ids(
    keys: Seq<Seq<char>>,
    old: Map<Seq<char>, NotificationActionView>,
    new: Map<Seq<char>, NotificationActionView>,
) -> Seq<Seq<char>>
    decreases keys.len(),
{
    if keys.len() == 0 {
        Seq::empty()
    } else {
        changed_action_ids(keys.drop_last(), old, new) + if new.contains_key(keys.last())
            && old[keys.last()] != new[keys.last()] {
            seq![keys.last()]
        } else {
            Seq::empty()
        }
    }
}

pub open spec fn removed_nodes(ids: Seq<Seq<char>>, mk: spec_fn(Seq<char>) -> NodeIdView) -> Seq<
    ChangeModel,
> {
    ids.map_values(|id: Seq<char>| ChangeModel::NodeRemoved(mk(id)))
}

pub open spec fn added_nodes(ids: Seq<Seq<char>>, mk: spec_fn(Seq<char>) -> NodeIdView) -> Seq<
    ChangeModel,
> {
    ids.map_values(|id: Seq<char>| ChangeModel::NodeAdded(mk(id)))
}

pub open spec fn changed_nodes(ids: Seq<Seq<char>>, mk: spec_fn(Seq<char>) -> NodeIdView) -> Seq<
    ChangeModel,
> {
    ids.map_values(|id: Seq<char>| ChangeModel::NodeChanged(mk(id)))
}

pub open spec fn action_mk() -> spec_fn(Seq<char>) -> NodeIdView {
    |id: Seq<char>| action_view(id)
}

pub open spec fn notification_mk() -> spec_fn(Seq<char>) -> NodeIdView {
    |id: Seq<char>| notification_view(id)
}

/// The action ids whose nodes a change between two action maps names:
/// departed, arrived, then changed actions, each in id order.
pub open spec fn action_id_checks(
    old: Map<Seq<char>, NotificationActionView>,
    new: Map<Seq<char>, NotificationActionView>,
) -> Seq<Seq<char>> {
    let ok = sorted_keys_of(old.dom());
    let nk = sorted_keys_of(new.dom());
    absent_ids(ok, new.dom()) + absent_ids(nk, old.dom()) + changed_action_ids(ok, old, new)
}

/// The changes between two action maps: the kind changed when the id set
/// changed, then departed, arrived and changed action nodes.
pub open spec fn action_changes(
    old: Map<Seq<char>, NotificationActionView>,
    new: Map<Seq<char>, NotificationActionView>,
) -> Seq<ChangeModel> {
    let ok = sorted_keys_of(old.dom());
    let nk = sorted_keys_of(new.dom());
    (if old.dom() != new.dom() {
        seq![ChangeModel::NodeKindChanged("notification-action"@)]
    } else {
        Seq::empty()
    }) + removed_nodes(absent_ids(ok, new.dom()), action_mk()) + added_nodes(
        absent_ids(nk, old.dom()),
        action_mk(),
    ) + changed_nodes(changed_action_ids(ok, old, new), action_mk())
}

/// The changes of a notification present before and after: none when it
/// is unchanged, else the node, its changed properties and its actions.
pub open spec fn record_changes(
    id: Seq<char>,
    old: NotificationRecordView,
    new: NotificationRecordView,
) -> Seq<ChangeModel> {
    if old != new {
        seq![ChangeModel::NodeChanged(notification_view(id))] + property_changes(
            notification_view(id),
            changed_keys_spec(notification_properties_spec(old), notification_properties_spec(new)),
        ) + action_changes(action_map_spec(old.actions), action_map_spec(new.actions))
    } else {
        Seq::empty()
    }
}

/// The action ids checked for a notification present before and after.
pub open spec fn record_checks(old: NotificationRecordView, new: NotificationRecordView) -> Seq<
    Seq<char>,
> {
    if old != new {
        action_id_checks(action_map_spec(old.actions), action_map_spec(new.actions))
    } else {
        Seq::empty()
    }
}

/// Property changes of one node.
pub open spec fn property_changes(node: NodeIdView, keys: Seq<Seq<char>>) -> Seq<ChangeModel> {
    keys.map_values(|k: Seq<char>| ChangeModel::PropertyChanged(node, k))
}

/// Changes of the notifications present before and after, in id order.
pub open spec fn kept_changes(
    keys: Seq<Seq<char>>,
    old: Map<Seq<char>, NotificationRecordView>,
    new: Map<Seq<char>, NotificationRecordView>,
) -> Seq<ChangeModel>
    decreases keys.len(),
{
    if keys.len() == 0 {
        Seq::empty()
    } else {
        kept_changes(keys.drop_last(), old, new) + if new.contains_key(keys.last()) {
            record_changes(keys.last(), old[keys.last()], new[keys.last()])
        } else {
            Seq::empty()
        }
    }
}

/// Action ids checked for the notifications present before and after.
pub open spec fn kept_checks(
    keys: Seq<Seq<char>>,
    old: Map<Seq<char>, NotificationRecordView>,
    new: Map<Seq<char>, NotificationRecordView>,
) -> Seq<Seq<char>>
    decreases keys.len(),
{
    if keys.len() == 0 {
        Seq::empty()
    } else {
        kept_checks(keys.drop_last(), old, new) + if new.contains_key(keys.last()) {
            record_checks(old[keys.last()], new[keys.last()])
        } else {
            Seq::empty()
        }
    }
}

/// The local ids a snapshot change turns into nodes: arriving
/// notifications, then the actions of kept notifications that change.
pub open spec fn checked_ids(old: NotifydSnapshot, new: NotifydSnapshot) -> Seq<Seq<char>> {
    absent_ids(new.notifications.keys(), records_of(old).dom()) + kept_checks(
        old.notifications.keys(),
        records_of(old),
        records_of(new),
    )
}

/// Changes of the daemon's settings.
pub open spec fn settings_changes(old: NotifydSnapshot, new: NotifydSnapshot) -> Seq<ChangeModel> {
    (if old.dnd_enabled != new.dnd_enabled {
        seq![
            ChangeModel::PropertyChanged(notifyd_view("state"@), "dnd-enabled"@),
            ChangeModel::PropertyChanged(notifyd_view("commands"@), "dnd-enabled"@),
        ]
    } else {
        Seq::empty()
    }) + (if old.notifications.entries().len() != new.notifications.entries().len() {
        seq![ChangeModel::PropertyChanged(notifyd_view("state"@), "notification-count"@)]
    } else {
        Seq::empty()
    }) + (if old.suppressed_count != new.suppressed_count {
        seq![ChangeModel::PropertyChanged(notifyd_view("state"@), "suppressed-count"@)]
    } else {
        Seq::empty()
    }) + (if old.server_name@ != new.server_name@ {
        seq![ChangeModel::PropertyChanged(notifyd_view("state"@), "server-name"@)]
    } else {
        Seq::empty()
    })
}

/// The changes that replacing snapshot `old` by `new` reports.
pub open spec fn snapshot_changes_spec(old: NotifydSnapshot, new: NotifydSnapshot) -> Seq<
    ChangeModel,
> {
    let ok = old.notifications.keys();
    let nk = new.notifications.keys();
    (if ok != nk {
        seq![
            ChangeModel::NodeChanged(notifyd_view("notifications"@)),
            ChangeModel::NodeKindChanged("notification"@),
        ]
    } else {
        Seq::empty()
    }) + removed_nodes(absent_ids(ok, records_of(new).dom()), notification_mk()) + added_nodes(
        absent_ids(nk, records_of(old).dom()),
        notification_mk(),
    ) + kept_changes(ok, records_of(old), records_of(new)) + settings_changes(old, new)
}

proof fn lemma_absent_step(keys: Seq<Seq<char>>, present: Set<Seq<char>>, i: int)
    requires
        0 <= i < keys.len(),
    ensures
        absent_ids(keys.take(i + 1), present) == absent_ids(keys.take(i), present) + if present.contains(
            keys[i],
        ) {
            Seq::<Seq<char>>::empty()
        } else {
            seq![keys[i]]
        },
{
    assert(keys.take(i + 1).drop_last() =~= keys.take(i));
}

proof fn lemma_kept_checks_append(
    a: Seq<Seq<char>>,
    b: Seq<Seq<char>>,
    old: Map<Seq<char>, NotificationRecordView>,
    new: Map<Seq<char>, NotificationRecordView>,
)
    ensures
        kept_checks(a + b, old, new) == kept_checks(a, old, new) + kept_checks(b, old, new),
    decreases b.len(),
{
    if b.len() == 0 {
        assert(a + b =~= a);
        assert(kept_checks(a, old, new) + kept_checks(b, old, new) =~= kept_checks(a, old, new));
    } else {
        lemma_kept_checks_append(a, b.drop_last(), old, new);
        assert((a + b).drop_last() =~= a + b.drop_last());
        assert((a + b).last() == b.last());
        assert(kept_checks(a + b, old, new) =~= kept_checks(a, old, new) + kept_checks(
            b,
            old,
            new,
        ));
    }
}

/// Builds the action map of a notification.
fn action_map(notification: &NotificationRecord) -> (r: TextMap<String, NotificationAction>)
    ensures
        r.map().map_values(|a: NotificationAction| a@) == action_map_spec(notification@.actions),
{
    let mut m: TextMap<String, NotificationAction> = TextMap::new();
    let ghost acts = notification@.actions;
    let mut i: usize = 0;
    assert(m.map().map_values(|a: NotificationAction| a@) =~= action_map_spec(acts.take(0)));
    while i < notification.actions.len()
        invariant
            i <= notification.actions.len(),
            acts == notification@.actions,
            acts.len() == notification.actions.len(),
            m.map().map_values(|a: NotificationAction| a@) == action_map_spec(acts.take(i as int)),
        decreases notification.actions.len() - i,
    {
        let action = notification.actions[i].duplicate();
        assert(acts[i as int] == action@);
        assert(acts.take(i + 1).drop_last() =~= acts.take(i as int));
        let ghost before = m.map();
        m.insert(action.local_id.clone(), action);
        proof {
            assert(m.map().map_values(|a: NotificationAction| a@) =~= action_map_spec(
                acts.take(i + 1),
            ));
        }
        i += 1;
    }
    assert(acts.take(acts.len() as int) =~= acts);
    m
}


proof fn lemma_absent_append(a: Seq<Seq<char>>, b: Seq<Seq<char>>, p: Set<Seq<char>>)
    ensures
        absent_ids(a + b, p) == absent_ids(a, p) + absent_ids(b, p),
    decreases b.len(),
{
    if b.len() == 0 {
        assert(a + b =~= a);
        assert(absent_ids(a, p) + absent_ids(b, p) =~= absent_ids(a, p));
    } else {
        lemma_absent_append(a, b.drop_last(), p);
        assert((a + b).drop_last() =~= a + b.drop_last());
        assert((a + b).last() == b.last());
        assert(absent_ids(a + b, p) =~= absent_ids(a, p) + absent_ids(b, p));
    }
}

proof fn lemma_absent_valid(keys: Seq<Seq<char>>, p: Set<Seq<char>>)
    requires
        all_valid(keys),
    ensures
        all_valid(absent_ids(keys, p)),
    decreases keys.len(),
{
    if keys.len() > 0 {
        assert forall|i: int| 0 <= i < keys.drop_last().len() implies valid_identifier(
            IdentifierClass::NodeLocalId,
            #[trigger] keys.drop_last()[i],
        ) by {
            assert(keys.drop_last()[i] == keys[i]);
        }
        lemma_absent_valid(keys.drop_last(), p);
        assert(valid_identifier(IdentifierClass::NodeLocalId, keys[keys.len() - 1]));
        let tail = if p.contains(keys.last()) {
            Seq::<Seq<char>>::empty()
        } else {
            seq![keys.last()]
        };
        assert(all_valid(tail));
        lemma_valid_concat(absent_ids(keys.drop_last(), p), tail);
    }
}

/// The node a change names: a notification or an action.
pub open spec fn mk_of(for_actions: bool) -> spec_fn(Seq<char>) -> NodeIdView {
    if for_actions {
        action_mk()
    } else {
        notification_mk()
    }
}

/// Pushes a change for each key of `keys` that `other` lacks: `NodeAdded`
/// when `added`, else `NodeRemoved`, naming action or notification nodes.
fn push_absent<V, W>(
    changes: &mut Vec<GraphChange>,
    keys: &TextMap<String, V>,
    other: &TextMap<String, W>,
    added: bool,
    for_actions: bool,
) -> (r: Result<()>)
    ensures
        ({
            let ids = absent_ids(keys.keys(), other.map().dom());
            &&& all_valid(ids) <==> r is Ok
            &&& r is Ok ==> change_models(final(changes)@) == change_models(old(changes)@) + if added {
                added_nodes(ids, mk_of(for_actions))
            } else {
                removed_nodes(ids, mk_of(for_actions))
            }
            &&& r matches Err(e) ==> some_invalid_error(ids, e)
        }),
{
    let n = keys.len();
    let ghost ks = keys.keys();
    let ghost p = other.map().dom();
    let ghost base = change_models(changes@);
    let ghost mk = mk_of(for_actions);
    assert(ks.take(0) =~= Seq::<Seq<char>>::empty());
    let mut i: usize = 0;
    while i < n
        invariant
            n == ks.len(),
            ks == keys.keys(),
            p == other.map().dom(),
            mk == mk_of(for_actions),
            i <= n,
            all_valid(absent_ids(ks.take(i as int), p)),
            change_models(changes@) == base + if added {
                added_nodes(absent_ids(ks.take(i as int), p), mk)
            } else {
                removed_nodes(absent_ids(ks.take(i as int), p), mk)
            },
        decreases n - i,
    {
        let id = keys.key_at(i);
        assert(id@ == ks[i as int]);
        proof {
            lemma_absent_step(ks, p, i as int);
        }
        if !other.contains_key(id.as_str()) {
            let node = if for_actions {
                action_node(id.as_str())
            } else {
                notification_node(id.as_str())
            };
            let node = match node {
                Ok(node) => node,
                Err(e) => {
                    proof {
                        let prefix = absent_ids(ks.take(i as int), p);
                        assert(ks =~= ks.take(i + 1) + ks.skip(i + 1));
                        lemma_absent_append(ks.take(i + 1), ks.skip(i + 1), p);
                        let all = absent_ids(ks, p);
                        assert(all == prefix + seq![id@] + absent_ids(ks.skip(i + 1), p));
                        assert(all[prefix.len() as int] == id@);
                        assert(some_invalid_error(all, e));
                    }
                    return Err(e);
                },
            };
            assert(node@ == mk(id@));
            let change = if added {
                GraphChange::NodeAdded { node }
            } else {
                GraphChange::NodeRemoved { node }
            };
            proof {
                lemma_change_models_push(changes@, change);
                lemma_valid_concat(absent_ids(ks.take(i as int), p), seq![id@]);
            }
            changes.push(change);
            proof {
                let prefix = absent_ids(ks.take(i as int), p);
                if added {
                    assert(added_nodes(prefix + seq![id@], mk) =~= added_nodes(prefix, mk).push(
                        ChangeModel::NodeAdded(mk(id@)),
                    ));
                } else {
                    assert(removed_nodes(prefix + seq![id@], mk) =~= removed_nodes(prefix, mk).push(
                        ChangeModel::NodeRemoved(mk(id@)),
                    ));
                }
            }
        } else {
            proof {
                assert(absent_ids(ks.take(i as int), p) + Seq::<Seq<char>>::empty() =~= absent_ids(
                    ks.take(i as int),
                    p,
                ));
            }
        }
        i += 1;
    }
    assert(ks.take(n as int) =~= ks);
    Ok(())
}

proof fn lemma_changed_step(
    keys: Seq<Seq<char>>,
    old: Map<Seq<char>, NotificationActionView>,
    new: Map<Seq<char>, NotificationActionView>,
    i: int,
)
    requires
        0 <= i < keys.len(),
    ensures
        changed_action_ids(keys.take(i + 1), old, new) == changed_action_ids(keys.take(i), old, new)
            + if new.contains_key(keys[i]) && old[keys[i]] != new[keys[i]] {
            seq![keys[i]]
        } else {
            Seq::<Seq<char>>::empty()
        },
{
    assert(keys.take(i + 1).drop_last() =~= keys.take(i));
}

proof fn lemma_changed_append(
    a: Seq<Seq<char>>,
    b: Seq<Seq<char>>,
    old: Map<Seq<char>, NotificationActionView>,
    new: Map<Seq<char>, NotificationActionView>,
)
    ensures
        changed_action_ids(a + b, old, new) == changed_action_ids(a, old, new) + changed_action_ids(
            b,
            old,
            new,
        ),
    decreases b.len(),
{
    if b.len() == 0 {
        assert(a + b =~= a);
        assert(changed_action_ids(a, old, new) + changed_action_ids(b, old, new)
            =~= changed_action_ids(a, old, new));
    } else {
        lemma_changed_append(a, b.drop_last(), old, new);
        assert((a + b).drop_last() =~= a + b.drop_last());
        assert((a + b).last() == b.last());
        assert(changed_action_ids(a + b, old, new) =~= changed_action_ids(a, old, new)
            + changed_action_ids(b, old, new));
    }
}

/// Pushes `NodeChanged` for each action in both maps whose fields differ.
fn push_changed_actions(
    changes: &mut Vec<GraphChange>,
    before: &TextMap<String, NotificationAction>,
    after: &TextMap<String, NotificationAction>,
) -> (r: Result<()>)
    ensures
        ({
            let om = before.map().map_values(|a: NotificationAction| a@);
            let nm = after.map().map_values(|a: NotificationAction| a@);
            let ids = changed_action_ids(before.keys(), om, nm);
            &&& all_valid(ids) <==> r is Ok
            &&& r is Ok ==> change_models(final(changes)@) == change_models(old(changes)@)
                + changed_nodes(ids, action_mk())
            &&& r matches Err(e) ==> some_invalid_error(ids, e)
        }),
{
    let n = before.len();
    let ghost ks = before.keys();
    let ghost om = before.map().map_values(|a: NotificationAction| a@);
    let ghost nm = after.map().map_values(|a: NotificationAction| a@);
    let ghost base = change_models(changes@);
    assert(ks.take(0) =~= Seq::<Seq<char>>::empty());
    let mut i: usize = 0;
    while i < n
        invariant
            n == ks.len(),
            n == before.entries().len(),
            sorted_by_key(before.entries()),
            ks == before.keys(),
            om == before.map().map_values(|a: NotificationAction| a@),
            nm == after.map().map_values(|a: NotificationAction| a@),
            i <= n,
            all_valid(changed_action_ids(ks.take(i as int), om, nm)),
            change_models(changes@) == base + changed_nodes(
                changed_action_ids(ks.take(i as int), om, nm),
                action_mk(),
            ),
        decreases n - i,
    {
        let id = before.key_at(i);
        let old_action = before.value_at(i);
        assert(id@ == ks[i as int]);
        proof {
            lemma_changed_step(ks, om, nm, i as int);
            lemma_entries_map_at(before.entries(), i as int);
        }
        assert(om[id@] == old_action@);
        let prefix_ok = match after.get(id.as_str()) {
            Some(new_action) => {
                assert(nm[id@] == new_action@);
                if !old_action.same_as(new_action) {
                    let node = match action_node(id.as_str()) {
                        Ok(node) => node,
                        Err(e) => {
                            proof {
                                let prefix = changed_action_ids(ks.take(i as int), om, nm);
                                assert(ks =~= ks.take(i + 1) + ks.skip(i + 1));
                                lemma_changed_append(ks.take(i + 1), ks.skip(i + 1), om, nm);
                                let all = changed_action_ids(ks, om, nm);
                                assert(all == prefix + seq![id@] + changed_action_ids(
                                    ks.skip(i + 1),
                                    om,
                                    nm,
                                ));
                                assert(all[prefix.len() as int] == id@);
                                assert(some_invalid_error(all, e));
                            }
                            return Err(e);
                        },
                    };
                    let change = GraphChange::NodeChanged { node };
                    proof {
                        let prefix = changed_action_ids(ks.take(i as int), om, nm);
                        lemma_change_models_push(changes@, change);
                        lemma_valid_concat(prefix, seq![id@]);
                        assert(changed_nodes(prefix + seq![id@], action_mk()) =~= changed_nodes(
                            prefix,
                            action_mk(),
                        ).push(ChangeModel::NodeChanged(action_view(id@))));
                    }
                    changes.push(change);
                    true
                } else {
                    true
                }
            },
            None => true,
        };
        proof {
            let prefix = changed_action_ids(ks.take(i as int), om, nm);
            assert(prefix + Seq::<Seq<char>>::empty() =~= prefix);
        }
        i += 1;
    }
    assert(ks.take(n as int) =~= ks);
    Ok(())
}

/// Whether two maps have the same keys.
fn same_keys<V, W>(a: &TextMap<String, V>, b: &TextMap<String, W>) -> (r: bool)
    ensures
        r == (a.keys() == b.keys()),
{
    let n = a.len();
    let m = b.len();
    if n != m {
        assert(a.keys().len() != b.keys().len());
        return false;
    }
    let mut i: usize = 0;
    while i < n
        invariant
            n == a.entries().len(),
            m == b.entries().len(),
            n == m,
            i <= n,
            forall|j: int| 0 <= j < i ==> a.keys()[j] == b.keys()[j],
        decreases n - i,
    {
        if !text_eq(a.key_at(i).as_str(), b.key_at(i).as_str()) {
            assert(a.keys()[i as int] != b.keys()[i as int]);
            return false;
        }
        i += 1;
    }
    assert(a.keys() =~= b.keys());
    true
}

/// Two maps whose keys are sorted have the same domain exactly when their
/// key runs agree.
proof fn lemma_same_domain<V, W>(a: TextMap<String, V>, b: TextMap<String, W>)
    requires
        sorted_by_key(a.entries()),
        sorted_by_key(b.entries()),
    ensures
        (a.keys() == b.keys()) <==> (a.map().dom() == b.map().dom()),
        sorted_keys_of(a.map().dom()) == a.keys(),
        sorted_keys_of(b.map().dom()) == b.keys(),
{
    lemma_map_keys_sorted(a);
    lemma_map_keys_sorted(b);
}


/// Pushes the action changes between two versions of a notification.
fn push_action_changes(
    changes: &mut Vec<GraphChange>,
    before: &NotificationRecord,
    after: &NotificationRecord,
) -> (r: Result<()>)
    ensures
        ({
            let oa = action_map_spec(before@.actions);
            let na = action_map_spec(after@.actions);
            &&& all_valid(action_id_checks(oa, na)) <==> r is Ok
            &&& r is Ok ==> change_models(final(changes)@) == change_models(old(changes)@)
                + action_changes(oa, na)
            &&& r matches Err(e) ==> some_invalid_error(action_id_checks(oa, na), e)
        }),
{
    let ghost oa = action_map_spec(before@.actions);
    let ghost na = action_map_spec(after@.actions);
    let old_map = action_map(before);
    let new_map = action_map(after);
    proof {
        use_type_invariant(&old_map);
        use_type_invariant(&new_map);
    }
    proof {
        lemma_same_domain(old_map, new_map);
        assert(oa.dom() =~= old_map.map().dom());
        assert(na.dom() =~= new_map.map().dom());
    }
    let ghost ok = old_map.keys();
    let ghost nk = new_map.keys();
    let ghost base = change_models(changes@);
    if !same_keys(&old_map, &new_map) {
        proof {
            reveal_strlit("notification-action");
            lemma_notifyd_names();
        }
        let change = GraphChange::NodeKindChanged { kind: known_kind(NOTIFICATION_ACTION_KIND) };
        proof {
            lemma_change_models_push(changes@, change);
        }
        changes.push(change);
    }
    let ghost head = change_models(changes@);
    assert(head == base + if oa.dom() != na.dom() {
        seq![ChangeModel::NodeKindChanged("notification-action"@)]
    } else {
        Seq::<ChangeModel>::empty()
    });
    let removed = push_absent(changes, &old_map, &new_map, false, true);
    let ghost removed_ids = absent_ids(ok, na.dom());
    let ghost added_ids = absent_ids(nk, oa.dom());
    let ghost changed_ids = changed_action_ids(ok, oa, na);
    let ghost checks = action_id_checks(oa, na);
    assert(checks == removed_ids + added_ids + changed_ids);
    match removed {
        Err(e) => {
            proof {
                lemma_invalid_within(Seq::empty(), removed_ids, added_ids + changed_ids, e);
                assert(Seq::<Seq<char>>::empty() + removed_ids + (added_ids + changed_ids) =~= checks);
            }
            return Err(e);
        },
        Ok(()) => {},
    }
    let added = push_absent(changes, &new_map, &old_map, true, true);
    match added {
        Err(e) => {
            proof {
                lemma_invalid_within(removed_ids, added_ids, changed_ids, e);
            }
            return Err(e);
        },
        Ok(()) => {},
    }
    let changed = push_changed_actions(changes, &old_map, &new_map);
    proof {
        assert(old_map.map().map_values(|a: NotificationAction| a@) == oa);
        assert(new_map.map().map_values(|a: NotificationAction| a@) == na);
    }
    match changed {
        Err(e) => {
            proof {
                lemma_invalid_within(removed_ids + added_ids, changed_ids, Seq::empty(), e);
                assert(removed_ids + added_ids + changed_ids + Seq::<Seq<char>>::empty() =~= checks);
            }
            return Err(e);
        },
        Ok(()) => {},
    }
    proof {
        lemma_valid_concat(removed_ids, added_ids);
        lemma_valid_concat(removed_ids + added_ids, changed_ids);
        assert(change_models(changes@) =~= base + action_changes(oa, na));
    }
    Ok(())
}

/// Pushes the changes of a notification present before and after.
fn push_record_changes(
    changes: &mut Vec<GraphChange>,
    id: &str,
    before: &NotificationRecord,
    after: &NotificationRecord,
) -> (r: Result<()>)
    requires
        valid_identifier(IdentifierClass::NodeLocalId, id@),
    ensures
        ({
            let checks = record_checks(before@, after@);
            &&& all_valid(checks) <==> r is Ok
            &&& r is Ok ==> change_models(final(changes)@) == change_models(old(changes)@)
                + record_changes(id@, before@, after@)
            &&& r matches Err(e) ==> some_invalid_error(checks, e)
        }),
{
    let ghost base = change_models(changes@);
    if before.same_as(after) {
        assert(change_models(changes@) =~= base + record_changes(id@, before@, after@));
        return Ok(());
    } {
        let node = valid_notification_node(id);
        let first = GraphChange::NodeChanged { node: node.duplicate() };
        proof {
            lemma_change_models_push(changes@, first);
        }
        changes.push(first);
        let old_props = notification_properties(before);
        let new_props = notification_properties(after);
        let (old_props, new_props) = match (old_props, new_props) {
            (Ok(a), Ok(b)) => (a, b),
            _ => vstd::pervasive::unreached(),
        };
        let keys = changed_keys(&old_props, &new_props);
        let ghost ks = keys@.map_values(|k: PropertyKey| k@);
        let ghost start = change_models(changes@);
        let mut p: usize = 0;
        while p < keys.len()
            invariant
                p <= keys.len(),
                node@ == notification_view(id@),
                ks == keys@.map_values(|k: PropertyKey| k@),
                change_models(changes@) == start + property_changes(node@, ks.take(p as int)),
            decreases keys.len() - p,
        {
            let change = GraphChange::PropertyChanged {
                node: node.duplicate(),
                key: keys[p].duplicate(),
            };
            proof {
                lemma_change_models_push(changes@, change);
                assert(property_changes(node@, ks.take(p + 1)) =~= property_changes(
                    node@,
                    ks.take(p as int),
                ).push(ChangeModel::PropertyChanged(node@, ks[p as int])));
            }
            changes.push(change);
            p += 1;
        }
        assert(ks.take(keys.len() as int) =~= ks);
    }
    let ghost mid = change_models(changes@);
    let r = push_action_changes(changes, before, after);
    proof {
        if r is Ok {
            assert(change_models(changes@) =~= base + record_changes(id@, before@, after@));
        }
    }
    r
}

proof fn lemma_kept_step(
    keys: Seq<Seq<char>>,
    old: Map<Seq<char>, NotificationRecordView>,
    new: Map<Seq<char>, NotificationRecordView>,
    i: int,
)
    requires
        0 <= i < keys.len(),
    ensures
        kept_changes(keys.take(i + 1), old, new) == kept_changes(keys.take(i), old, new) + if new.contains_key(
            keys[i],
        ) {
            record_changes(keys[i], old[keys[i]], new[keys[i]])
        } else {
            Seq::<ChangeModel>::empty()
        },
        kept_checks(keys.take(i + 1), old, new) == kept_checks(keys.take(i), old, new) + if new.contains_key(
            keys[i],
        ) {
            record_checks(old[keys[i]], new[keys[i]])
        } else {
            Seq::<Seq<char>>::empty()
        },
{
    assert(keys.take(i + 1).drop_last() =~= keys.take(i));
}


/// Pushes the changes of the daemon's settings.
fn push_settings_changes(
    changes: &mut Vec<GraphChange>,
    before: &NotifydSnapshot,
    after: &NotifydSnapshot,
)
    ensures
        change_models(final(changes)@) == change_models(old(changes)@) + settings_changes(
            *before,
            *after,
        ),
{
    proof {
        lemma_notifyd_names();
    }
    let ghost before_settings = change_models(changes@);
    let state = valid_notifyd_node(STATE_NODE);
    if before.dnd_enabled != after.dnd_enabled {
        proof {
            reveal_strlit("dnd-enabled");
        }
        let a = GraphChange::PropertyChanged {
            node: state.duplicate(),
            key: known_key(DND_ENABLED_PROPERTY),
        };
        let b = GraphChange::PropertyChanged {
            node: valid_notifyd_node(COMMANDS_NODE),
            key: known_key(DND_ENABLED_PROPERTY),
        };
        proof {
            lemma_change_models_push(changes@, a);
            lemma_change_models_push(changes@.push(a), b);
        }
        changes.push(a);
        changes.push(b);
    }
    if before.notifications.len() != after.notifications.len() {
        let a = GraphChange::PropertyChanged {
            node: state.duplicate(),
            key: known_key("notification-count"),
        };
        proof {
            lemma_change_models_push(changes@, a);
        }
        changes.push(a);
    }
    if before.suppressed_count != after.suppressed_count {
        let a = GraphChange::PropertyChanged {
            node: state.duplicate(),
            key: known_key("suppressed-count"),
        };
        proof {
            lemma_change_models_push(changes@, a);
        }
        changes.push(a);
    }
    if !text_eq(before.server_name.as_str(), after.server_name.as_str()) {
        let a = GraphChange::PropertyChanged { node: state, key: known_key("server-name") };
        proof {
            lemma_change_models_push(changes@, a);
        }
        changes.push(a);
    }
    proof {
        assert(change_models(changes@) =~= before_settings + settings_changes(*before, *after));
    }
}

/// The changes that replacing `old` by `new` reports, or the error for a
/// local id that cannot name a node.
#[verifier::rlimit(30)]
fn snapshot_changes(old: &NotifydSnapshot, new: &NotifydSnapshot) -> (r: Result<Vec<GraphChange>>)
    requires
        ids_valid(*old),
        sorted_by_key(old.notifications.entries()),
        sorted_by_key(new.notifications.entries()),
    ensures
        all_valid(checked_ids(*old, *new)) <==> r is Ok,
        r matches Ok(c) ==> change_models(c@) == snapshot_changes_spec(*old, *new),
        r matches Err(e) ==> some_invalid_error(checked_ids(*old, *new), e),
{
    let ghost om = records_of(*old);
    let ghost nm = records_of(*new);
    let ghost ok = old.notifications.keys();
    let ghost nk = new.notifications.keys();
    proof {
        lemma_records(*old);
        lemma_records(*new);
        lemma_notifyd_names();
    }
    let mut changes: Vec<GraphChange> = Vec::new();
    if !same_keys(&old.notifications, &new.notifications) {
        let a = GraphChange::NodeChanged { node: valid_notifyd_node(NOTIFICATIONS_NODE) };
        let b = GraphChange::NodeKindChanged { kind: known_kind(NOTIFICATION_KIND) };
        proof {
            lemma_change_models_push(changes@, a);
            lemma_change_models_push(changes@.push(a), b);
        }
        changes.push(a);
        changes.push(b);
    }
    let ghost head = change_models(changes@);
    assert(head =~= (if ok != nk {
        seq![
            ChangeModel::NodeChanged(notifyd_view("notifications"@)),
            ChangeModel::NodeKindChanged("notification"@),
        ]
    } else {
        Seq::<ChangeModel>::empty()
    }));
    proof {
        assert forall|i: int| 0 <= i < ok.len() implies valid_identifier(
            IdentifierClass::NodeLocalId,
            #[trigger] ok[i],
        ) by {
            assert(om.contains_key(ok[i]));
        }
        lemma_absent_valid(ok, nm.dom());
        assert(nm.dom() =~= new.notifications.map().dom());
        assert(om.dom() =~= old.notifications.map().dom());
    }
    let removed = push_absent(&mut changes, &old.notifications, &new.notifications, false, false);
    match removed {
        Ok(()) => {},
        Err(_) => {
            return vstd::pervasive::unreached();
        },
    }
    let added = push_absent(&mut changes, &new.notifications, &old.notifications, true, false);
    let ghost added_ids = absent_ids(nk, om.dom());
    let ghost checks = checked_ids(*old, *new);
    assert(checks == added_ids + kept_checks(ok, om, nm));
    match added {
        Err(e) => {
            proof {
                lemma_invalid_within(Seq::empty(), added_ids, kept_checks(ok, om, nm), e);
                assert(Seq::<Seq<char>>::empty() + added_ids + kept_checks(ok, om, nm) =~= checks);
            }
            return Err(e);
        },
        Ok(()) => {},
    }
    let ghost mid = change_models(changes@);
    let n = old.notifications.len();
    assert(ok.take(0) =~= Seq::<Seq<char>>::empty());
    let mut i: usize = 0;
    while i < n
        invariant
            n == ok.len(),
            ok == old.notifications.keys(),
            om == records_of(*old),
            nm == records_of(*new),
            checks == added_ids + kept_checks(ok, om, nm),
            checks == checked_ids(*old, *new),
            ids_valid(*old),
            all_valid(added_ids),
            forall|q: int|
                0 <= q < ok.len() ==> #[trigger] om.contains_key(ok[q]) && om[ok[q]]
                    == record_list(*old)[q],
            record_list(*old).len() == n,
            i <= n,
            all_valid(kept_checks(ok.take(i as int), om, nm)),
            change_models(changes@) == mid + kept_changes(ok.take(i as int), om, nm),
        decreases n - i,
    {
        let id = old.notifications.key_at(i);
        let before = old.notifications.value_at(i);
        assert(id@ == ok[i as int]);
        assert(om.contains_key(ok[i as int]));
        assert(record_list(*old)[i as int] == before@);
        proof {
            lemma_kept_step(ok, om, nm, i as int);
        }
        match new.notifications.get(id.as_str()) {
            Some(after) => {
                assert(nm[id@] == after@);
                let r = push_record_changes(&mut changes, id.as_str(), before, after);
                match r {
                    Err(e) => {
                        proof {
                            let step = record_checks(before@, after@);
                            let prefix = kept_checks(ok.take(i as int), om, nm);
                            assert(ok =~= ok.take(i + 1) + ok.skip(i + 1));
                            lemma_kept_checks_append(ok.take(i + 1), ok.skip(i + 1), om, nm);
                            let rest = kept_checks(ok.skip(i + 1), om, nm);
                            lemma_invalid_within(added_ids + prefix, step, rest, e);
                            assert(added_ids + prefix + step + rest =~= checks);
                        }
                        return Err(e);
                    },
                    Ok(()) => {
                        proof {
                            let step = record_checks(before@, after@);
                            lemma_valid_concat(kept_checks(ok.take(i as int), om, nm), step);
                        }
                    },
                }
            },
            None => {
                proof {
                    let prefix = kept_checks(ok.take(i as int), om, nm);
                    assert(prefix + Seq::<Seq<char>>::empty() =~= prefix);
                    assert(kept_changes(ok.take(i as int), om, nm) + Seq::<ChangeModel>::empty()
                        =~= kept_changes(ok.take(i as int), om, nm));
                }
            },
        }
        i += 1;
    }
    assert(ok.take(n as int) =~= ok);
    proof {
        lemma_valid_concat(added_ids, kept_checks(ok, om, nm));
    }
    let ghost before_settings = change_models(changes@);
    push_settings_changes(&mut changes, old, new);
    proof {
        assert(change_models(changes@) =~= snapshot_changes_spec(*old, *new));
    }
    Ok(changes)
}


/// The time a notification was last touched.
pub open spec fn touched_at(r: NotificationRecordView) -> u64 {
    if r.updated_at_unix_ms >= r.created_at_unix_ms {
        r.updated_at_unix_ms
    } else {
        r.created_at_unix_ms
    }
}

/// Notifications are ordered for eviction by last touch, then bus id.
pub open spec fn older(a: NotificationRecordView, b: NotificationRecordView) -> bool {
    touched_at(a) < touched_at(b) || (touched_at(a) == touched_at(b) && a.dbus_id < b.dbus_id)
}

/// The first id of a run whose notification is oldest.
pub open spec fn oldest_in(ids: Seq<Seq<char>>, m: Map<Seq<char>, NotificationRecordView>) -> Seq<
    char,
>
    decreases ids.len(),
{
    if ids.len() <= 1 {
        ids[0]
    } else {
        let best = oldest_in(ids.drop_last(), m);
        if older(m[ids.last()], m[best]) {
            ids.last()
        } else {
            best
        }
    }
}

/// The id of the oldest notification, the first in id order among equals.
pub open spec fn oldest_key(m: Map<Seq<char>, NotificationRecordView>) -> Seq<char> {
    oldest_in(sorted_keys_of(m.dom()), m)
}

/// The notifications left after evicting the oldest `k` times.
pub open spec fn drop_oldest(m: Map<Seq<char>, NotificationRecordView>, k: nat) -> Map<
    Seq<char>,
    NotificationRecordView,
>
    decreases k,
{
    if k == 0 {
        m
    } else {
        let d = drop_oldest(m, (k - 1) as nat);
        d.remove(oldest_key(d))
    }
}

/// The notifications left when at most `max` may stay.
pub open spec fn trim_spec(m: Map<Seq<char>, NotificationRecordView>, max: nat) -> Map<
    Seq<char>,
    NotificationRecordView,
> {
    if m.dom().len() > max {
        drop_oldest(m, (m.dom().len() - max) as nat)
    } else {
        m
    }
}

/// A map's domain has as many keys as it has entries.
proof fn lemma_entry_count<V>(t: TextMap<String, V>)
    requires
        sorted_by_key(t.entries()),
    ensures
        t.map().dom().len() == t.entries().len(),
        t.map().dom().finite(),
{
    lemma_map_keys_sorted(t);
    crate::projection::lemma_strictly_sorted_no_duplicates(t.keys());
    t.keys().unique_seq_to_set();
}

fn touched(r: &NotificationRecord) -> (t: u64)
    ensures
        t == touched_at(r@),
{
    if r.updated_at_unix_ms >= r.created_at_unix_ms {
        r.updated_at_unix_ms
    } else {
        r.created_at_unix_ms
    }
}

/// Evicts the oldest notifications until at most `max` are left.
fn trim_notifications(snapshot: &mut NotifydSnapshot, max: usize)
    ensures
        records_of(*final(snapshot)) == trim_spec(records_of(*old(snapshot)), max as nat),
        final(snapshot).dnd_enabled == old(snapshot).dnd_enabled,
        final(snapshot).suppressed_count == old(snapshot).suppressed_count,
        final(snapshot).server_name == old(snapshot).server_name,
{
    let ghost m0 = records_of(*snapshot);
    let n0 = snapshot.notifications.len();
    proof {
        lemma_entry_count(snapshot.notifications);
        assert(m0.dom() =~= snapshot.notifications.map().dom());
    }
    loop
        invariant
            snapshot.dnd_enabled == old(snapshot).dnd_enabled,
            snapshot.suppressed_count == old(snapshot).suppressed_count,
            snapshot.server_name == old(snapshot).server_name,
            m0 == records_of(*old(snapshot)),
            n0 == m0.dom().len(),
            snapshot.notifications.entries().len() <= n0,
            n0 > max ==> snapshot.notifications.entries().len() >= max,
            n0 <= max ==> snapshot.notifications.entries().len() == n0,
            records_of(*snapshot) == drop_oldest(
                m0,
                (n0 - snapshot.notifications.entries().len()) as nat,
            ),
        ensures
            records_of(*snapshot) == trim_spec(m0, max as nat),
        decreases snapshot.notifications.entries().len(),
    {
        let n = snapshot.notifications.len();
        if n <= max {
            proof {
                if n0 > max {
                    assert(n == max);
                }
            }
            break;
        }
        let ghost m = records_of(*snapshot);
        let ghost ks = snapshot.notifications.keys();
        proof {
            lemma_records(*snapshot);
            lemma_map_keys_sorted(snapshot.notifications);
            assert(m.dom() =~= snapshot.notifications.map().dom());
        }
        assert(m.contains_key(ks[0]));
        assert(record_list(*snapshot)[0] == snapshot.notifications.entries()[0].1@);
        let mut best: usize = 0;
        let mut best_time = touched(snapshot.notifications.value_at(0));
        let mut best_id = snapshot.notifications.value_at(0).dbus_id;
        assert(ks.take(1).len() == 1);
        let mut i: usize = 1;
        while i < n
            invariant
                n == ks.len(),
                n == record_list(*snapshot).len(),
                ks == snapshot.notifications.keys(),
                m == records_of(*snapshot),
                forall|q: int|
                    0 <= q < n ==> #[trigger] m.contains_key(ks[q]) && m[ks[q]] == record_list(
                        *snapshot,
                    )[q],
                1 <= i <= n,
                best < i,
                best_time == touched_at(m[ks[best as int]]),
                best_id == m[ks[best as int]].dbus_id,
                ks[best as int] == oldest_in(ks.take(i as int), m),
            decreases n - i,
        {
            let r = snapshot.notifications.value_at(i);
            assert(record_list(*snapshot)[i as int] == r@);
            assert(m.contains_key(ks[i as int]));
            let t = touched(r);
            proof {
                assert(ks.take(i + 1).drop_last() =~= ks.take(i as int));
                assert(ks.take(i + 1).last() == ks[i as int]);
            }
            if t < best_time || (t == best_time && r.dbus_id < best_id) {
                best = i;
                best_time = t;
                best_id = r.dbus_id;
            }
            i += 1;
        }
        assert(ks.take(n as int) =~= ks);
        let key = snapshot.notifications.key_at(best).clone();
        assert(key@ == oldest_key(m));
        let _ = snapshot.notifications.remove(key.as_str());
        assert(m.contains_key(key@));
        proof {
            assert(records_of(*snapshot) =~= m.remove(key@));
        }
    }
}


/// The local ids a change to the notifications `new` turns into nodes.
pub open spec fn checked_ids_of(old: NotifydSnapshot, new: Map<Seq<char>, NotificationRecordView>) -> Seq<
    Seq<char>,
> {
    absent_ids(sorted_keys_of(new.dom()), records_of(old).dom()) + kept_checks(
        old.notifications.keys(),
        records_of(old),
        new,
    )
}

proof fn lemma_absent_contains(keys: Seq<Seq<char>>, p: Set<Seq<char>>, i: int)
    requires
        0 <= i < keys.len(),
        !p.contains(keys[i]),
    ensures
        absent_ids(keys, p).contains(keys[i]),
    decreases keys.len(),
{
    if i == keys.len() - 1 {
        let prefix = absent_ids(keys.drop_last(), p);
        assert((prefix + seq![keys.last()])[prefix.len() as int] == keys[i]);
    } else {
        assert(keys.drop_last()[i] == keys[i]);
        lemma_absent_contains(keys.drop_last(), p, i);
        let prefix = absent_ids(keys.drop_last(), p);
        let j = choose|j: int| 0 <= j < prefix.len() && prefix[j] == keys[i];
        let tail = if p.contains(keys.last()) {
            Seq::<Seq<char>>::empty()
        } else {
            seq![keys.last()]
        };
        assert((prefix + tail)[j] == keys[i]);
    }
}

proof fn lemma_absent_none(keys: Seq<Seq<char>>, p: Set<Seq<char>>)
    requires
        forall|i: int| 0 <= i < keys.len() ==> p.contains(#[trigger] keys[i]),
    ensures
        absent_ids(keys, p) == Seq::<Seq<char>>::empty(),
    decreases keys.len(),
{
    if keys.len() > 0 {
        assert forall|i: int| 0 <= i < keys.drop_last().len() implies p.contains(
            #[trigger] keys.drop_last()[i],
        ) by {
            assert(keys.drop_last()[i] == keys[i]);
        }
        lemma_absent_none(keys.drop_last(), p);
        assert(p.contains(keys[keys.len() - 1]));
        assert(absent_ids(keys, p) =~= Seq::<Seq<char>>::empty());
    }
}

proof fn lemma_changed_none(keys: Seq<Seq<char>>, m: Map<Seq<char>, NotificationActionView>)
    ensures
        changed_action_ids(keys, m, m) == Seq::<Seq<char>>::empty(),
    decreases keys.len(),
{
    if keys.len() > 0 {
        lemma_changed_none(keys.drop_last(), m);
        assert(changed_action_ids(keys, m, m) =~= Seq::<Seq<char>>::empty());
    }
}

/// Keeping some notifications unchanged and dropping others checks no id.
proof fn lemma_kept_checks_none(
    keys: Seq<Seq<char>>,
    old: Map<Seq<char>, NotificationRecordView>,
    new: Map<Seq<char>, NotificationRecordView>,
)
    requires
        forall|k: Seq<char>| #[trigger] new.contains_key(k) ==> old.contains_key(k) && new[k] == old[k],
    ensures
        kept_checks(keys, old, new) == Seq::<Seq<char>>::empty(),
    decreases keys.len(),
{
    if keys.len() > 0 {
        lemma_kept_checks_none(keys.drop_last(), old, new);
        assert(kept_checks(keys, old, new) =~= Seq::<Seq<char>>::empty());
    }
}


proof fn lemma_checked_ids_of(old: NotifydSnapshot, new: NotifydSnapshot)
    requires
        sorted_by_key(new.notifications.entries()),
    ensures
        checked_ids(old, new) == checked_ids_of(old, records_of(new)),
        new.notifications.keys() == sorted_keys_of(records_of(new).dom()),
{
    lemma_map_keys_sorted(new.notifications);
    assert(records_of(new).dom() =~= new.notifications.map().dom());
}

impl NotifydState {
    fn copy_snapshot(&self) -> (r: NotifydSnapshot)
        ensures
            records_of(r) == records_of(self.snapshot_spec()),
            r.dnd_enabled == self.snapshot_spec().dnd_enabled,
            r.suppressed_count == self.snapshot_spec().suppressed_count,
            r.server_name@ == self.snapshot_spec().server_name@,
    {
        let n = self.snapshot.notifications.len();
        let ghost src = self.snapshot.notifications.entries();
        let mut copy: TextMap<String, NotificationRecord> = TextMap::new();
        let mut i: usize = 0;
        while i < n
            invariant
                n == src.len(),
                src == self.snapshot.notifications.entries(),
                sorted_by_key(src),
                i <= n,
                forall|k: Seq<char>| #[trigger]
                    copy.map().contains_key(k) <==> exists|j: int| 0 <= j < i && src[j].0@ == k,
                forall|j: int| 0 <= j < i ==> (#[trigger] copy.map()[src[j].0@])@ == src[j].1@,
            decreases n - i,
        {
            let key = self.snapshot.notifications.key_at(i).clone();
            let value = self.snapshot.notifications.value_at(i).duplicate();
            copy.insert(key, value);
            proof {
                assert forall|j: int| 0 <= j < i + 1 implies (#[trigger] copy.map()[src[j].0@])@
                    == src[j].1@ by {
                    if j < i {
                        assert(crate::text::text_lt(src[j].0.key_text(), src[i as int].0.key_text()));
                        crate::text::lemma_text_lt_irreflexive(src[j].0@);
                    }
                }
                assert forall|k: Seq<char>| #[trigger] copy.map().contains_key(k) <==> exists|
                    j: int,
                | 0 <= j < i + 1 && src[j].0@ == k by {
                    if k == src[i as int].0@ {
                        assert(src[i as int].0@ == k);
                    } else if exists|j: int| 0 <= j < i + 1 && src[j].0@ == k {
                        let j = choose|j: int| 0 <= j < i + 1 && src[j].0@ == k;
                        assert(j != i);
                    }
                }
            }
            i += 1;
        }
        let r = NotifydSnapshot {
            notifications: copy,
            dnd_enabled: self.snapshot.dnd_enabled,
            suppressed_count: self.snapshot.suppressed_count,
            server_name: self.snapshot.server_name.clone(),
        };
        proof {
            assert forall|k: Seq<char>| #[trigger]
                records_of(r).contains_key(k) == records_of(self.snapshot).contains_key(k) by {
                if records_of(self.snapshot).contains_key(k) {
                    let j = choose|j: int| 0 <= j < src.len() && #[trigger] src[j].0.key_text() == k;
                    assert(src[j].0@ == k);
                }
                if records_of(r).contains_key(k) {
                    let j = choose|j: int| 0 <= j < n && src[j].0@ == k;
                    lemma_entries_map_at(src, j);
                }
            }
            assert forall|k: Seq<char>| #[trigger]
                records_of(r).contains_key(k) implies records_of(r)[k] == records_of(
                self.snapshot,
            )[k] by {
                let j = choose|j: int| 0 <= j < n && src[j].0@ == k;
                lemma_entries_map_at(src, j);
            }
            assert(records_of(r) =~= records_of(self.snapshot));
        }
        r
    }

    /// Replaces the snapshot, reporting what changed. Fails, leaving the
    /// state as it was, when a local id that the change turns into a node is
    /// not a valid node id.
    fn apply_snapshot(&mut self, snapshot: NotifydSnapshot) -> (r: Result<Vec<GraphChange>>)
        ensures
            all_valid(checked_ids(old(self).snapshot_spec(), snapshot)) ==> (r matches Ok(changes)
                && change_models(changes@) == snapshot_changes_spec(
                old(self).snapshot_spec(),
                snapshot,
            ) && final(self).snapshot_spec() == snapshot),
            !all_valid(checked_ids(old(self).snapshot_spec(), snapshot)) ==> (r matches Err(e)
                && some_invalid_error(checked_ids(old(self).snapshot_spec(), snapshot), e)
                && final(self).snapshot_spec() == old(self).snapshot_spec()),
            sorted_by_key(snapshot.notifications.entries()),
    {
        proof {
            use_type_invariant(&*self);
        }
        proof {
            use_type_invariant(&snapshot.notifications);
        }
        proof {
            use_type_invariant(&self.snapshot.notifications);
        }
        let changes = snapshot_changes(&self.snapshot, &snapshot);
        match changes {
            Ok(changes) => {
                proof {
                    let om = records_of(self.snapshot);
                    let nk = snapshot.notifications.keys();
                    lemma_records(snapshot);
                    lemma_valid_concat(absent_ids(nk, om.dom()), kept_checks(
                        self.snapshot.notifications.keys(),
                        om,
                        records_of(snapshot),
                    ));
                    assert forall|id: Seq<char>| #[trigger]
                        records_of(snapshot).contains_key(id) implies valid_identifier(
                        IdentifierClass::NodeLocalId,
                        id,
                    ) by {
                        let i = choose|i: int| 0 <= i < nk.len() && nk[i] == id;
                        if !om.dom().contains(id) {
                            lemma_absent_contains(nk, om.dom(), i);
                            let ids = absent_ids(nk, om.dom());
                            let j = choose|j: int| 0 <= j < ids.len() && ids[j] == id;
                            assert(valid_identifier(IdentifierClass::NodeLocalId, ids[j]));
                        } else {
                            assert(om.contains_key(id));
                        }
                    }
                }
                self.snapshot = snapshot;
                Ok(changes)
            },
            Err(e) => Err(e),
        }
    }

    /// Adds or replaces a notification, then evicts the oldest until at most
    /// `max_notifications` are left, reporting what changed.
    pub fn upsert_notification(&mut self, record: NotificationRecord, max_notifications: usize) -> (r:
        Result<Vec<GraphChange>>)
        ensures
            ({
                let wanted = trim_spec(
                    records_of(old(self).snapshot_spec()).insert(record.local_id@, record@),
                    max_notifications as nat,
                );
                let checks = checked_ids_of(old(self).snapshot_spec(), wanted);
                &&& all_valid(checks) ==> (r matches Ok(changes) && records_of(
                    final(self).snapshot_spec(),
                ) == wanted && change_models(changes@) == snapshot_changes_spec(
                    old(self).snapshot_spec(),
                    final(self).snapshot_spec(),
                ))
                &&& !all_valid(checks) ==> (r matches Err(e) && some_invalid_error(checks, e)
                    && final(self).snapshot_spec() == old(self).snapshot_spec())
            }),
            final(self).snapshot_spec().dnd_enabled == old(self).snapshot_spec().dnd_enabled,
            final(self).snapshot_spec().suppressed_count == old(self).snapshot_spec().suppressed_count,
            final(self).snapshot_spec().server_name@ == old(self).snapshot_spec().server_name@,
    {
        let mut snapshot = self.copy_snapshot();
        let ghost rv = record@;
        let key = record.local_id.clone();
        snapshot.notifications.insert(key, record);
        proof {
            assert(records_of(snapshot) =~= records_of(self.snapshot).insert(rv.local_id, rv));
        }
        trim_notifications(&mut snapshot, max_notifications);
        proof {
            use_type_invariant(&snapshot.notifications);
        }
        proof {
            lemma_checked_ids_of(self.snapshot, snapshot);
        }
        self.apply_snapshot(snapshot)
    }

    /// Removes a notification, reporting what changed.
    pub fn discard_notification(&mut self, local_id: &str) -> (r: Result<Vec<GraphChange>>)
        ensures
            r matches Ok(changes) && records_of(final(self).snapshot_spec()) == records_of(
                old(self).snapshot_spec(),
            ).remove(local_id@) && change_models(changes@) == snapshot_changes_spec(
                old(self).snapshot_spec(),
                final(self).snapshot_spec(),
            ),
            final(self).snapshot_spec().dnd_enabled == old(self).snapshot_spec().dnd_enabled,
            final(self).snapshot_spec().suppressed_count == old(self).snapshot_spec().suppressed_count,
            final(self).snapshot_spec().server_name@ == old(self).snapshot_spec().server_name@,
    {
        let mut snapshot = self.copy_snapshot();
        let _ = snapshot.notifications.remove(local_id);
        proof {
            use_type_invariant(&snapshot.notifications);
        }
        proof {
            assert(records_of(snapshot) =~= records_of(self.snapshot).remove(local_id@));
            self.lemma_no_checks(snapshot);
        }
        self.apply_snapshot(snapshot)
    }

    /// Turns do-not-disturb on or off, reporting what changed.
    pub fn set_dnd_enabled(&mut self, enabled: bool) -> (r: Result<Vec<GraphChange>>)
        ensures
            r matches Ok(changes) && records_of(final(self).snapshot_spec()) == records_of(
                old(self).snapshot_spec(),
            ) && change_models(changes@) == snapshot_changes_spec(
                old(self).snapshot_spec(),
                final(self).snapshot_spec(),
            ),
            final(self).snapshot_spec().dnd_enabled == enabled,
            final(self).snapshot_spec().suppressed_count == old(self).snapshot_spec().suppressed_count,
            final(self).snapshot_spec().server_name@ == old(self).snapshot_spec().server_name@,
    {
        let mut snapshot = self.copy_snapshot();
        snapshot.dnd_enabled = enabled;
        proof {
            use_type_invariant(&snapshot.notifications);
        }
        proof {
            self.lemma_no_checks(snapshot);
        }
        self.apply_snapshot(snapshot)
    }

    /// Counts one more suppressed notification (saturating), reporting what
    /// changed.
    pub fn increment_suppressed(&mut self) -> (r: Result<Vec<GraphChange>>)
        ensures
            r matches Ok(changes) && records_of(final(self).snapshot_spec()) == records_of(
                old(self).snapshot_spec(),
            ) && change_models(changes@) == snapshot_changes_spec(
                old(self).snapshot_spec(),
                final(self).snapshot_spec(),
            ),
            final(self).snapshot_spec().suppressed_count == (if old(
                self,
            ).snapshot_spec().suppressed_count == u32::MAX {
                u32::MAX
            } else {
                (old(self).snapshot_spec().suppressed_count + 1) as u32
            }),
            final(self).snapshot_spec().dnd_enabled == old(self).snapshot_spec().dnd_enabled,
            final(self).snapshot_spec().server_name@ == old(self).snapshot_spec().server_name@,
    {
        let mut snapshot = self.copy_snapshot();
        snapshot.suppressed_count = snapshot.suppressed_count.saturating_add(1);
        proof {
            use_type_invariant(&snapshot.notifications);
        }
        proof {
            self.lemma_no_checks(snapshot);
        }
        self.apply_snapshot(snapshot)
    }

    /// A snapshot whose notifications the current ones hold, unchanged,
    /// checks no local id.
    proof fn lemma_no_checks(&self, snapshot: NotifydSnapshot)
        requires
            sorted_by_key(snapshot.notifications.entries()),
            forall|k: Seq<char>| #[trigger]
                records_of(snapshot).contains_key(k) ==> records_of(self.snapshot).contains_key(k)
                    && records_of(snapshot)[k] == records_of(self.snapshot)[k],
        ensures
            all_valid(checked_ids(self.snapshot_spec(), snapshot)),
    {
        let om = records_of(self.snapshot);
        let nm = records_of(snapshot);
        lemma_checked_ids_of(self.snapshot, snapshot);
        let nk = snapshot.notifications.keys();
        lemma_records(snapshot);
        assert forall|i: int| 0 <= i < nk.len() implies om.dom().contains(#[trigger] nk[i]) by {
            assert(nm.contains_key(nk[i]));
        }
        lemma_absent_none(nk, om.dom());
        lemma_kept_checks_none(self.snapshot.notifications.keys(), om, nm);
        assert(checked_ids(self.snapshot, snapshot) =~= Seq::<Seq<char>>::empty());
    }
}


/// The abstract value of a command target.
pub enum CommandModel {
    Discard(Seq<char>),
    InvokeAction(Seq<char>, Seq<char>),
    DiscardAll,
    SetDnd(bool),
}

impl View for NotifydCommandTarget {
    type V = CommandModel;

    open spec fn view(&self) -> CommandModel {
        match self {
            NotifydCommandTarget::Discard { notification_id } => CommandModel::Discard(
                notification_id@,
            ),
            NotifydCommandTarget::InvokeAction { notification_id, action_key } =>
                CommandModel::InvokeAction(notification_id@, action_key@),
            NotifydCommandTarget::DiscardAll => CommandModel::DiscardAll,
            NotifydCommandTarget::SetDnd(b) => CommandModel::SetDnd(*b),
        }
    }
}

/// Whether a value is a string or `true`.
pub open spec fn string_or_true(v: ValueModel) -> bool {
    v is Text || v == ValueModel::Bool(true)
}

/// The error for a command write whose value is refused.
pub open spec fn bad_command_value(
    e: GraphError,
    subject: NodeIdView,
    key: Seq<char>,
    value: ValueModel,
    reason: Seq<char>,
) -> bool {
    is_invalid_value(
        e,
        "notifyd command value"@,
        entry_text(subject, key) + "="@ + value_text(value),
        reason,
    )
}

/// What a write of `value` to property `key` of `subject` asks for: discard
/// a notification, invoke an action, discard all, or set do-not-disturb;
/// each refuses a value of the wrong shape, the first two a missing node,
/// and every other property is not writable.
pub open spec fn command_result(
    s: NotifydSnapshot,
    subject: NodeIdView,
    key: Seq<char>,
    value: ValueModel,
    r: Result<NotifydCommandTarget>,
) -> bool {
    if subject.kind == "notification"@ && key == "discard"@ {
        if !string_or_true(value) {
            r matches Err(e) && bad_command_value(e, subject, key, value, "write a string or true"@)
        } else if !records_of(s).contains_key(subject.local) {
            r matches Err(e) && is_not_found(e, "node"@, node_id_text(subject))
        } else {
            r matches Ok(t) && t@ == CommandModel::Discard(subject.local)
        }
    } else if subject.kind == "notification-action"@ && key == "invoke"@ {
        if !(value is Text) {
            r matches Err(e) && bad_command_value(e, subject, key, value, "expected string payload"@)
        } else {
            match find_action(record_list(s), subject.local) {
                None => r matches Err(e) && is_not_found(e, "node"@, node_id_text(subject)),
                Some((n, a)) => r matches Ok(t) && t@ == CommandModel::InvokeAction(
                    n.local_id,
                    a.key,
                ),
            }
        }
    } else if subject == notifyd_view("commands"@) && key == "discard-all"@ {
        if !string_or_true(value) {
            r matches Err(e) && bad_command_value(e, subject, key, value, "write a string or true"@)
        } else {
            r matches Ok(t) && t@ == CommandModel::DiscardAll
        }
    } else if subject == notifyd_view("commands"@) && key == "dnd-enabled"@ {
        match value {
            ValueModel::Bool(b) => r matches Ok(t) && t@ == CommandModel::SetDnd(b),
            _ => r matches Err(e) && bad_command_value(e, subject, key, value, "expected bool"@),
        }
    } else {
        r matches Err(e) && is_invalid_value(
            e,
            "notifyd command property"@,
            entry_text(subject, key),
            "property is not writable"@,
        )
    }
}

fn invalid_command_value(
    subject: &NodeId,
    key: &PropertyKey,
    value: &LocusValue,
    reason: &'static str,
) -> (e: GraphError)
    ensures
        bad_command_value(e, subject@, key@, value@, reason@),
{
    let entry = crate::projection::entry_name(subject, key.as_str());
    let text = value.display_text();
    GraphError::InvalidValue {
        kind: "notifyd command value",
        value: concat3(entry.as_str(), "=", text.as_str()),
        reason,
    }
}

fn is_string_or_true(value: &LocusValue) -> (r: bool)
    ensures
        r == string_or_true(value@),
{
    match value {
        LocusValue::String(_) => true,
        LocusValue::Bool(b) => *b,
        _ => false,
    }
}

/// The entry a property name resolves to under a node's directory.
pub open spec fn property_entry(s: NotifydSnapshot, node: NodeIdView, name: Seq<char>) -> Option<
    EntryModel,
> {
    match node_properties_spec(s, node) {
        Some(m) => if m.contains_key(name) {
            Some(EntryModel::Property(node, name))
        } else {
            None
        },
        None => None,
    }
}

/// The first action of a run whose path name is `name`.
pub open spec fn action_named(actions: Seq<NotificationActionView>, name: Seq<char>) -> Option<
    NotificationActionView,
>
    decreases actions.len(),
{
    if actions.len() == 0 {
        None
    } else if actions[0].path_name == name {
        Some(actions[0])
    } else {
        action_named(actions.drop_first(), name)
    }
}

/// The actions that the virtual directory with local id `local` lists.
pub open spec fn virtual_actions(s: NotifydSnapshot, local: Seq<char>) -> Option<
    Seq<NotificationActionView>,
> {
    match actions_virtual_id_spec(local) {
        Some(id) => if records_of(s).contains_key(id) {
            Some(records_of(s)[id].actions)
        } else {
            None
        },
        None => None,
    }
}

/// The entry `name` resolves to under `parent`, or `None`; `Err` of the
/// identifier problem when it names an action whose local id is invalid.
pub open spec fn lookup_child_result(
    s: NotifydSnapshot,
    parent: DirectoryModel,
    name: Seq<char>,
    r: Result<Option<GraphPathEntry>>,
) -> bool {
    match parent {
        DirectoryModel::Node(node) => r matches Ok(e) && entry_option(e) == if node == notifyd_view(
            "notifications"@,
        ) {
            if records_of(s).contains_key(name) {
                Some(EntryModel::Directory(DirectoryModel::Node(notification_view(name))))
            } else {
                None
            }
        } else if node.kind == "notification"@ {
            if !records_of(s).contains_key(node.local) {
                None
            } else if name == "actions"@ {
                Some(
                    EntryModel::Directory(
                        DirectoryModel::Virtual("notifyd"@, actions_virtual_local_spec(node.local)),
                    ),
                )
            } else {
                property_entry(s, node, name)
            }
        } else if node.kind == "notification-action"@ {
            property_entry(s, node, name)
        } else {
            None
        },
        DirectoryModel::Virtual(owner, local) => if owner == "notifyd"@ {
            match virtual_actions(s, local) {
                Some(actions) => match action_named(actions, name) {
                    Some(a) => if valid_identifier(IdentifierClass::NodeLocalId, a.local_id) {
                        r matches Ok(e) && entry_option(e) == Some(
                            EntryModel::Directory(DirectoryModel::Node(action_view(a.local_id))),
                        )
                    } else {
                        r matches Err(e) && identifier_error(
                            IdentifierClass::NodeLocalId,
                            a.local_id,
                            e,
                        )
                    },
                    None => r matches Ok(e) && e is None,
                },
                None => r matches Ok(e) && e is None,
            }
        } else {
            r matches Ok(e) && e is None
        },
    }
}

pub open spec fn entry_option(e: Option<GraphPathEntry>) -> Option<EntryModel> {
    match e {
        Some(x) => Some(x@),
        None => None,
    }
}

pub open spec fn children_option(c: Option<Vec<GraphPathChild>>) -> Option<Seq<ChildModel>> {
    match c {
        Some(v) => Some(v@.map_values(|x: GraphPathChild| x@)),
        None => None,
    }
}

pub open spec fn target_option(t: Option<GraphWatchTarget>) -> Option<WatchModel> {
    match t {
        Some(x) => Some(x@),
        None => None,
    }
}

/// The property entries of a node's directory, in key order.
pub open spec fn property_children(node: NodeIdView, keys: Seq<Seq<char>>) -> Seq<ChildModel> {
    keys.map_values(|k: Seq<char>| ChildModel { name: k, entry: EntryModel::Property(node, k) })
}

/// The directory entries of a notification's actions.
pub open spec fn action_children(actions: Seq<NotificationActionView>) -> Seq<ChildModel> {
    actions.map_values(
        |a: NotificationActionView|
            ChildModel {
                name: a.path_name,
                entry: EntryModel::Directory(DirectoryModel::Node(action_view(a.local_id))),
            },
    )
}

/// Whether every action can name a node and a path entry.
pub open spec fn actions_listable(actions: Seq<NotificationActionView>) -> bool {
    forall|i: int|
        0 <= i < actions.len() ==> valid_identifier(
            IdentifierClass::PathName,
            #[trigger] actions[i].path_name,
        ) && valid_identifier(IdentifierClass::NodeLocalId, actions[i].local_id)
}

impl NotifydState {
    /// What a write to a command property asks the daemon to do.
    pub fn command_target(&self, subject: &NodeId, key: &PropertyKey, value: &LocusValue) -> (r:
        Result<NotifydCommandTarget>)
        ensures
            command_result(self.snapshot_spec(), subject@, key@, value@, r),
    {
        proof {
            lemma_notifyd_names();
            reveal_strlit("discard");
            reveal_strlit("invoke");
            reveal_strlit("discard-all");
            reveal_strlit("dnd-enabled");
            assert("discard"@.len() == 7);
            assert("discard-all"@.len() == 11);
        }
        let kind = subject.kind().as_str();
        let k = key.as_str();
        if text_eq(kind, NOTIFICATION_KIND) && text_eq(k, DISCARD_PROPERTY) {
            if !is_string_or_true(value) {
                return Err(invalid_command_value(subject, key, value, "write a string or true"));
            }
            if !self.snapshot.notifications.contains_key(subject.local()) {
                return Err(node_not_found(subject));
            }
            return Ok(NotifydCommandTarget::Discard { notification_id: owned(subject.local()) });
        }
        if text_eq(kind, NOTIFICATION_ACTION_KIND) && text_eq(k, INVOKE_PROPERTY) {
            match value {
                LocusValue::String(_) => {},
                _ => {
                    return Err(invalid_command_value(subject, key, value, "expected string payload"));
                },
            }
            return match self.action_by_node(subject) {
                None => Err(node_not_found(subject)),
                Some((notification, action)) => Ok(
                    NotifydCommandTarget::InvokeAction {
                        notification_id: notification.local_id.clone(),
                        action_key: action.key.clone(),
                    },
                ),
            };
        }
        let commands = text_eq(kind, NOTIFYD_KIND) && text_eq(subject.local(), COMMANDS_NODE);
        if commands && text_eq(k, DISCARD_ALL_PROPERTY) {
            if !is_string_or_true(value) {
                return Err(invalid_command_value(subject, key, value, "write a string or true"));
            }
            return Ok(NotifydCommandTarget::DiscardAll);
        }
        if commands && text_eq(k, DND_ENABLED_PROPERTY) {
            return match value {
                LocusValue::Bool(enabled) => Ok(NotifydCommandTarget::SetDnd(*enabled)),
                _ => Err(invalid_command_value(subject, key, value, "expected bool")),
            };
        }
        Err(
            GraphError::InvalidValue {
                kind: "notifyd command property",
                value: crate::projection::entry_name(subject, k),
                reason: "property is not writable",
            },
        )
    }

    /// The entry a property name resolves to under a node's directory.
    fn property_path_lookup(&self, node: &NodeId, name: &PathName) -> (r: Option<GraphPathEntry>)
        ensures
            entry_option(r) == property_entry(self.snapshot_spec(), node@, name@),
    {
        let key = match PropertyKey::new(name.as_str()) {
            Ok(k) => k,
            Err(_) => vstd::pervasive::unreached(),
        };
        match self.node_properties(node) {
            Some(m) => {
                if m.contains_key(key.as_str()) {
                    Some(GraphPathEntry::Property { node: node.duplicate(), key })
                } else {
                    None
                }
            },
            None => None,
        }
    }

    /// The first action of a notification whose path name is `name`.
    fn find_named_action<'a>(record: &'a NotificationRecord, name: &str) -> (r: Option<
        &'a NotificationAction,
    >)
        ensures
            match r {
                Some(a) => action_named(record@.actions, name@) == Some(a@),
                None => action_named(record@.actions, name@) is None,
            },
    {
        let ghost acts = record@.actions;
        assert(acts.skip(0) =~= acts);
        let mut i: usize = 0;
        while i < record.actions.len()
            invariant
                i <= record.actions.len(),
                acts == record@.actions,
                acts.len() == record.actions.len(),
                action_named(acts.skip(i as int), name@) == action_named(acts, name@),
            decreases record.actions.len() - i,
        {
            let action = &record.actions[i];
            assert(acts[i as int] == action@);
            assert(acts.skip(i as int)[0] == action@);
            assert(acts.skip(i as int).drop_first() =~= acts.skip(i + 1));
            if text_eq(action.path_name.as_str(), name) {
                return Some(action);
            }
            i += 1;
        }
        assert(acts.skip(acts.len() as int) =~= Seq::<NotificationActionView>::empty());
        None
    }

    /// The entry that `name` resolves to under `parent`.
    pub fn path_lookup_child(&self, parent: &GraphPathDirectory, name: &PathName) -> (r: Result<
        Option<GraphPathEntry>,
    >)
        ensures
            lookup_child_result(self.snapshot_spec(), parent@, name@, r),
    {
        proof {
            use_type_invariant(self);
            lemma_notifyd_names();
        }
        match parent {
            GraphPathDirectory::Node(node) => {
                let kind = node.kind().as_str();
                if text_eq(kind, NOTIFYD_KIND) && text_eq(node.local(), NOTIFICATIONS_NODE) {
                    if self.snapshot.notifications.contains_key(name.as_str()) {
                        proof {
                            assert(records_of(self.snapshot).contains_key(name@));
                        }
                        let child = valid_notification_node(name.as_str());
                        Ok(Some(GraphPathEntry::Directory(GraphPathDirectory::Node(child))))
                    } else {
                        Ok(None)
                    }
                } else if text_eq(kind, NOTIFICATION_KIND) {
                    if !self.snapshot.notifications.contains_key(node.local()) {
                        return Ok(None);
                    }
                    if text_eq(name.as_str(), ACTIONS_DIR) {
                        proof {
                            reveal_strlit("notifyd");
                        }
                        let owner = known_kind(NOTIFYD_KIND);
                        let local = actions_virtual_local(node.local());
                        return Ok(
                            Some(
                                GraphPathEntry::Directory(
                                    GraphPathDirectory::Virtual { owner, local },
                                ),
                            ),
                        );
                    }
                    Ok(self.property_path_lookup(node, name))
                } else if text_eq(kind, NOTIFICATION_ACTION_KIND) {
                    Ok(self.property_path_lookup(node, name))
                } else {
                    Ok(None)
                }
            },
            GraphPathDirectory::Virtual { owner, local } => {
                if !text_eq(owner.as_str(), NOTIFYD_KIND) {
                    return Ok(None);
                }
                let id = match actions_virtual_notification_id(local.as_str()) {
                    Some(id) => id,
                    None => return Ok(None),
                };
                let record = match self.snapshot.notifications.get(id.as_str()) {
                    Some(record) => record,
                    None => return Ok(None),
                };
                match Self::find_named_action(record, name.as_str()) {
                    Some(action) => {
                        let node = action_node(action.local_id.as_str())?;
                        Ok(Some(GraphPathEntry::Directory(GraphPathDirectory::Node(node))))
                    },
                    None => Ok(None),
                }
            },
        }
    }
}


/// The entries of the `notifications` directory, one per notification.
pub open spec fn notification_children(ids: Seq<Seq<char>>) -> Seq<ChildModel> {
    ids.map_values(
        |id: Seq<char>|
            ChildModel {
                name: id,
                entry: EntryModel::Directory(DirectoryModel::Node(notification_view(id))),
            },
    )
}

/// The entry of a notification's actions directory.
pub open spec fn actions_child(id: Seq<char>) -> ChildModel {
    ChildModel {
        name: "actions"@,
        entry: EntryModel::Directory(
            DirectoryModel::Virtual("notifyd"@, actions_virtual_local_spec(id)),
        ),
    }
}

/// The error for an action that cannot be listed: its path name, or else
/// its local id, is not a valid identifier.
pub open spec fn unlistable_action_error(actions: Seq<NotificationActionView>, e: GraphError) -> bool {
    exists|i: int|
        0 <= i < actions.len() && if !valid_identifier(
            IdentifierClass::PathName,
            #[trigger] actions[i].path_name,
        ) {
            identifier_error(IdentifierClass::PathName, actions[i].path_name, e)
        } else {
            !valid_identifier(IdentifierClass::NodeLocalId, actions[i].local_id) && identifier_error(
                IdentifierClass::NodeLocalId,
                actions[i].local_id,
                e,
            )
        }
}

/// The children of `parent`: notifications under `notifications`, the
/// properties of a notification then its actions directory, the properties
/// of an action, and the actions under a notification's actions directory.
pub open spec fn children_result(
    s: NotifydSnapshot,
    parent: DirectoryModel,
    r: Result<Option<Vec<GraphPathChild>>>,
) -> bool {
    match parent {
        DirectoryModel::Node(node) => r matches Ok(c) && children_option(c) == if node
            == notifyd_view("notifications"@) {
            Some(notification_children(s.notifications.keys()))
        } else if node.kind == "notification"@ {
            if records_of(s).contains_key(node.local) {
                Some(
                    property_children(
                        node,
                        sorted_keys_of(node_properties_spec(s, node).unwrap().dom()),
                    ).push(actions_child(node.local)),
                )
            } else {
                None
            }
        } else if node.kind == "notification-action"@ {
            match node_properties_spec(s, node) {
                Some(m) => Some(property_children(node, sorted_keys_of(m.dom()))),
                None => None,
            }
        } else {
            None
        },
        DirectoryModel::Virtual(owner, local) => if owner == "notifyd"@ {
            match virtual_actions(s, local) {
                Some(actions) => if actions_listable(actions) {
                    r matches Ok(c) && children_option(c) == Some(action_children(actions))
                } else {
                    r matches Err(e) && unlistable_action_error(actions, e)
                },
                None => r matches Ok(c) && c is None,
            }
        } else {
            r matches Ok(c) && c is None
        },
    }
}

/// The node a watcher of a directory follows: a notifyd node follows
/// itself, an actions directory its notification.
pub open spec fn watch_result(parent: DirectoryModel, r: Result<Option<GraphWatchTarget>>) -> bool {
    match parent {
        DirectoryModel::Node(node) => r matches Ok(t) && target_option(t) == if node.kind
            == "notifyd"@ || node.kind == "notification"@ || node.kind == "notification-action"@ {
            Some(WatchModel::Node(node))
        } else {
            None
        },
        DirectoryModel::Virtual(owner, local) => if owner == "notifyd"@ {
            match actions_virtual_id_spec(local) {
                Some(id) => if valid_identifier(IdentifierClass::NodeLocalId, id) {
                    r matches Ok(t) && target_option(t) == Some(WatchModel::Node(notification_view(id)))
                } else {
                    r matches Err(e) && identifier_error(IdentifierClass::NodeLocalId, id, e)
                },
                None => r matches Ok(t) && t is None,
            }
        } else {
            r matches Ok(t) && t is None
        },
    }
}

impl NotifydState {
    /// The property entries of a node's directory, in key order.
    fn property_path_children(&self, node: &NodeId, props: &PropertyMap) -> (r: Vec<GraphPathChild>)
        ensures
            r@.map_values(|x: GraphPathChild| x@) == property_children(
                node@,
                sorted_keys_of(property_models(*props).dom()),
            ),
    {
        let keys = crate::projection::property_keys(props);
        let ghost ks = keys@.map_values(|k: PropertyKey| k@);
        let mut out: Vec<GraphPathChild> = Vec::new();
        let mut i: usize = 0;
        while i < keys.len()
            invariant
                i <= keys.len(),
                ks == keys@.map_values(|k: PropertyKey| k@),
                out@.map_values(|x: GraphPathChild| x@) == property_children(node@, ks.take(i as int)),
            decreases keys.len() - i,
        {
            let key = keys[i].duplicate();
            let name = match PathName::new(key.as_str()) {
                Ok(n) => n,
                Err(_) => vstd::pervasive::unreached(),
            };
            let child = GraphPathChild {
                name,
                entry: GraphPathEntry::Property { node: node.duplicate(), key },
            };
            let ghost prev = out@;
            let ghost cv = child@;
            out.push(child);
            proof {
                assert(ks[i as int] == keys@[i as int]@);
                assert(cv == ChildModel { name: ks[i as int], entry: EntryModel::Property(node@, ks[i as int]) });
                assert(out@.map_values(|x: GraphPathChild| x@) =~= prev.map_values(
                    |x: GraphPathChild| x@,
                ).push(cv));
                assert(property_children(node@, ks.take(i + 1)) =~= property_children(
                    node@,
                    ks.take(i as int),
                ).push(cv));
            }
            i += 1;
        }
        assert(ks.take(keys.len() as int) =~= ks);
        out
    }

    /// The children of `parent`.
    pub fn path_children(&self, parent: &GraphPathDirectory) -> (r: Result<
        Option<Vec<GraphPathChild>>,
    >)
        ensures
            children_result(self.snapshot_spec(), parent@, r),
    {
        proof {
            use_type_invariant(self);
            lemma_notifyd_names();
        }
        match parent {
            GraphPathDirectory::Node(node) => {
                let kind = node.kind().as_str();
                if text_eq(kind, NOTIFYD_KIND) && text_eq(node.local(), NOTIFICATIONS_NODE) {
                    let n = self.snapshot.notifications.len();
                    let ghost ks = self.snapshot.notifications.keys();
                    proof {
                        lemma_records(self.snapshot);
                    }
                    let mut out: Vec<GraphPathChild> = Vec::new();
                    let mut i: usize = 0;
                    while i < n
                        invariant
                            n == ks.len(),
                            ks == self.snapshot.notifications.keys(),
                            ids_valid(self.snapshot),
                            forall|j: int| 0 <= j < ks.len() ==> #[trigger] records_of(
                                self.snapshot,
                            ).contains_key(ks[j]),
                            i <= n,
                            out@.map_values(|x: GraphPathChild| x@) == notification_children(
                                ks.take(i as int),
                            ),
                        decreases n - i,
                    {
                        let id = self.snapshot.notifications.key_at(i);
                        assert(id@ == ks[i as int]);
                        assert(records_of(self.snapshot).contains_key(ks[i as int]));
                        let name = match PathName::new(id.as_str()) {
                            Ok(p) => p,
                            Err(_) => vstd::pervasive::unreached(),
                        };
                        let child = GraphPathChild {
                            name,
                            entry: GraphPathEntry::Directory(
                                GraphPathDirectory::Node(valid_notification_node(id.as_str())),
                            ),
                        };
                        let ghost prev = out@;
                        let ghost cv = child@;
                        out.push(child);
                        proof {
                            assert(out@.map_values(|x: GraphPathChild| x@) =~= prev.map_values(
                                |x: GraphPathChild| x@,
                            ).push(cv));
                            assert(notification_children(ks.take(i + 1)) =~= notification_children(
                                ks.take(i as int),
                            ).push(cv));
                        }
                        i += 1;
                    }
                    assert(ks.take(n as int) =~= ks);
                    Ok(Some(out))
                } else if text_eq(kind, NOTIFICATION_KIND) {
                    if !self.snapshot.notifications.contains_key(node.local()) {
                        return Ok(None);
                    }
                    let props = match self.node_properties(node) {
                        Some(m) => m,
                        None => return Ok(None),
                    };
                    let mut children = self.property_path_children(node, &props);
                    proof {
                        reveal_strlit("notifyd");
                        reveal_strlit("actions");
                    }
                    let name = match PathName::new(ACTIONS_DIR) {
                        Ok(p) => p,
                        Err(_) => vstd::pervasive::unreached(),
                    };
                    let child = GraphPathChild {
                        name,
                        entry: GraphPathEntry::Directory(
                            GraphPathDirectory::Virtual {
                                owner: known_kind(NOTIFYD_KIND),
                                local: actions_virtual_local(node.local()),
                            },
                        ),
                    };
                    let ghost prev = children@;
                    children.push(child);
                    proof {
                        assert(children@.map_values(|x: GraphPathChild| x@) =~= prev.map_values(
                            |x: GraphPathChild| x@,
                        ).push(child@));
                    }
                    Ok(Some(children))
                } else if text_eq(kind, NOTIFICATION_ACTION_KIND) {
                    match self.node_properties(node) {
                        Some(props) => Ok(Some(self.property_path_children(node, &props))),
                        None => Ok(None),
                    }
                } else {
                    Ok(None)
                }
            },
            GraphPathDirectory::Virtual { owner, local } => {
                if !text_eq(owner.as_str(), NOTIFYD_KIND) {
                    return Ok(None);
                }
                let id = match actions_virtual_notification_id(local.as_str()) {
                    Some(id) => id,
                    None => return Ok(None),
                };
                let record = match self.snapshot.notifications.get(id.as_str()) {
                    Some(record) => record,
                    None => return Ok(None),
                };
                let ghost acts = record@.actions;
                assert(virtual_actions(self.snapshot, local@) == Some(acts));
                let mut out: Vec<GraphPathChild> = Vec::new();
                let mut i: usize = 0;
                while i < record.actions.len()
                    invariant
                        i <= record.actions.len(),
                        virtual_actions(self.snapshot_spec(), local@) == Some(acts),
                        owner@ == "notifyd"@,
                        parent@ == DirectoryModel::Virtual(owner@, local@),
                        acts == record@.actions,
                        acts.len() == record.actions.len(),
                        actions_listable(acts.take(i as int)),
                        out@.map_values(|x: GraphPathChild| x@) == action_children(
                            acts.take(i as int),
                        ),
                    decreases record.actions.len() - i,
                {
                    let action = &record.actions[i];
                    assert(acts[i as int] == action@);
                    let name = match PathName::new(action.path_name.as_str()) {
                        Ok(p) => p,
                        Err(e) => {
                            assert(!valid_identifier(IdentifierClass::PathName, acts[i as int].path_name));
                            assert(!actions_listable(acts));
                            assert(unlistable_action_error(acts, e));
                            return Err(e);
                        },
                    };
                    let node = match action_node(action.local_id.as_str()) {
                        Ok(n) => n,
                        Err(e) => {
                            assert(acts[i as int].local_id == action.local_id@);
                            assert(!valid_identifier(IdentifierClass::NodeLocalId, acts[i as int].local_id));
                            assert(valid_identifier(IdentifierClass::PathName, acts[i as int].path_name));
                            assert(!actions_listable(acts));
                            assert(unlistable_action_error(acts, e));
                            return Err(e);
                        },
                    };
                    let child = GraphPathChild {
                        name,
                        entry: GraphPathEntry::Directory(GraphPathDirectory::Node(node)),
                    };
                    let ghost prev = out@;
                    let ghost cv = child@;
                    out.push(child);
                    proof {
                        assert(acts.take(i + 1) =~= acts.take(i as int).push(acts[i as int]));
                        assert(out@.map_values(|x: GraphPathChild| x@) =~= prev.map_values(
                            |x: GraphPathChild| x@,
                        ).push(cv));
                        assert(action_children(acts.take(i + 1)) =~= action_children(
                            acts.take(i as int),
                        ).push(cv));
                        assert(acts.take(i + 1) =~= acts.take(i as int).push(acts[i as int]));
                        assert forall|q: int| 0 <= q < acts.take(i + 1).len() implies valid_identifier(
                            IdentifierClass::PathName,
                            #[trigger] acts.take(i + 1)[q].path_name,
                        ) && valid_identifier(IdentifierClass::NodeLocalId, acts.take(i + 1)[q].local_id) by {
                            if q < i {
                                assert(acts.take(i + 1)[q] == acts.take(i as int)[q]);
                                assert(valid_identifier(
                                    IdentifierClass::PathName,
                                    acts.take(i as int)[q].path_name,
                                ));
                            } else {
                                assert(acts.take(i + 1)[q] == acts[i as int]);
                                assert(acts[i as int].path_name == action.path_name@);
                                assert(acts[i as int].local_id == action.local_id@);
                            }
                        }
                        assert(actions_listable(acts.take(i + 1)));
                    }
                    i += 1;
                }
                assert(acts.take(acts.len() as int) =~= acts);
                Ok(Some(out))
            },
        }
    }

    /// The node a watcher of `directory` follows.
    pub fn path_watch_target(&self, directory: &GraphPathDirectory) -> (r: Result<
        Option<GraphWatchTarget>,
    >)
        ensures
            watch_result(directory@, r),
    {
        proof {
            lemma_notifyd_names();
        }
        match directory {
            GraphPathDirectory::Node(node) => {
                let kind = node.kind().as_str();
                if text_eq(kind, NOTIFYD_KIND) || text_eq(kind, NOTIFICATION_KIND) || text_eq(
                    kind,
                    NOTIFICATION_ACTION_KIND,
                ) {
                    Ok(Some(GraphWatchTarget::Node(node.duplicate())))
                } else {
                    Ok(None)
                }
            },
            GraphPathDirectory::Virtual { owner, local } => {
                if !text_eq(owner.as_str(), NOTIFYD_KIND) {
                    return Ok(None);
                }
                match actions_virtual_notification_id(local.as_str()) {
                    Some(id) => {
                        let node = notification_node(id.as_str())?;
                        Ok(Some(GraphWatchTarget::Node(node)))
                    },
                    None => Ok(None),
                }
            },
        }
    }
}

/// The oldest of a run is one of its ids, and no id of the run is older.
proof fn lemma_oldest_in_least(ids: Seq<Seq<char>>, m: Map<Seq<char>, NotificationRecordView>)
    requires
        ids.len() > 0,
    ensures
        ids.contains(oldest_in(ids, m)),
        forall|i: int| 0 <= i < ids.len() ==> !older(m[#[trigger] ids[i]], m[oldest_in(ids, m)]),
    decreases ids.len(),
{
    if ids.len() > 1 {
        let pre = ids.drop_last();
        lemma_oldest_in_least(pre, m);
        let best = oldest_in(pre, m);
        let j = choose|j: int| 0 <= j < pre.len() && pre[j] == best;
        assert(ids[j] == best);
        assert forall|i: int| 0 <= i < ids.len() implies !older(m[#[trigger] ids[i]], m[oldest_in(ids, m)]) by {
            if i < pre.len() {
                assert(pre[i] == ids[i]);
            }
        }
        assert(ids[ids.len() - 1] == ids.last());
    } else {
        assert(ids[0] == oldest_in(ids, m));
    }
}

/// Evicting the oldest `k` times keeps `len - k` of the notifications,
/// unchanged, and every one evicted is no newer than every one kept.
proof fn lemma_drop_oldest_least(m: Map<Seq<char>, NotificationRecordView>, k: nat)
    requires
        m.dom().finite(),
        k <= m.dom().len(),
    ensures
        drop_oldest(m, k).dom().finite(),
        drop_oldest(m, k).dom().len() == m.dom().len() - k,
        forall|x: Seq<char>| #[trigger] drop_oldest(m, k).contains_key(x) ==> m.contains_key(x)
            && drop_oldest(m, k)[x] == m[x],
        forall|e: Seq<char>, x: Seq<char>|
            m.contains_key(e) && !drop_oldest(m, k).contains_key(e) && #[trigger] drop_oldest(m, k).contains_key(x)
                ==> !older(m[x], #[trigger] m[e]),
    decreases k,
{
    if k > 0 {
        lemma_drop_oldest_least(m, (k - 1) as nat);
        let d = drop_oldest(m, (k - 1) as nat);
        let ids = sorted_keys_of(d.dom());
        crate::projection::lemma_sorted_keys_exist(d.dom());
        assert(d.dom().len() > 0);
        if ids.len() == 0 {
            assert(ids.to_set() =~= Set::<Seq<char>>::empty());
        }
        lemma_oldest_in_least(ids, d);
        let o = oldest_key(d);
        assert(ids.to_set().contains(o));
        assert(d.contains_key(o));
        let r = drop_oldest(m, k);
        assert(r == d.remove(o));
        assert forall|e: Seq<char>, x: Seq<char>|
            m.contains_key(e) && !r.contains_key(e) && #[trigger] r.contains_key(x) implies !older(
            m[x],
            #[trigger] m[e],
        ) by {
            if e == o {
                assert(ids.to_set().contains(x));
                let i = choose|i: int| 0 <= i < ids.len() && ids[i] == x;
                assert(!older(d[ids[i]], d[o]));
            } else {
                assert(!d.contains_key(e));
            }
        }
    }
}

/// Trimming to a limit evicts the notifications touched longest ago: each
/// notification evicted was last touched (at its update, or its creation
/// where that is later) no later than each one kept, and where the two
/// times are equal its bus id is no larger. What is kept is unchanged, and
/// as many are kept as the limit allows.
pub proof fn lemma_eviction_keeps_most_recent(
    m: Map<Seq<char>, NotificationRecordView>,
    max: nat,
    evicted: Seq<char>,
    kept: Seq<char>,
)
    requires
        m.dom().finite(),
        m.contains_key(evicted),
        !trim_spec(m, max).contains_key(evicted),
        trim_spec(m, max).contains_key(kept),
    ensures
        m.contains_key(kept),
        trim_spec(m, max)[kept] == m[kept],
        trim_spec(m, max).dom().len() == if m.dom().len() > max {
            max
        } else {
            m.dom().len()
        },
        ({
            let e = m[evicted];
            let k = m[kept];
            let te = if e.updated_at_unix_ms > e.created_at_unix_ms {
                e.updated_at_unix_ms
            } else {
                e.created_at_unix_ms
            };
            let tk = if k.updated_at_unix_ms > k.created_at_unix_ms {
                k.updated_at_unix_ms
            } else {
                k.created_at_unix_ms
            };
            te < tk || (te == tk && e.dbus_id <= k.dbus_id)
        }),
{
    if m.dom().len() > max {
        lemma_drop_oldest_least(m, (m.dom().len() - max) as nat);
        assert(!older(m[kept], m[evicted]));
    }
}

} // verus!
