//! The PipeWire part of the graph: the default sink and source and the
//! sinks and sources that `pactl` reports, as nodes with properties and
//! relations, and the changes between two snapshots.
use vstd::prelude::*;

use crate::change::{change_models, lemma_change_models_push, ChangeModel, GraphChange};
use crate::error::{GraphError, Result};
use crate::identity::{
    identifier_error, valid_identifier, IdentifierClass, NodeId, NodeIdView, NodeKind,
    PropertyKey, RelationName,
};
use crate::pipewire::{
    description_spec, endpoint_state_spec, endpoint_state_text, or_else, prop, real_source_spec,
    EndpointState, PactlEndpoint, PactlInfo,
};
use crate::projection::{
    answer_properties, answer_property, answer_property_spec, answer_relations, answer_targets,
    changed_keys, changed_keys_spec, known_kind, known_node, lemma_node_views_push, node_views,
    properties_result, property_models, property_result, property_spec_result, props_option, put,
    relation_models, relations_result, rels_option, targets_result, PropertyMap,
    ReadOnlyAccess, RelationMap,
};
use crate::text::{decimal, text_eq, u32_text};
use crate::text_map::{lemma_entries_map_at, sorted_by_key, TextKey, TextMap};
use crate::value::{LocusValue, PropertySpec, ValueModel};

verus! {

pub const PIPEWIRE_KIND: &'static str = "pipewire";

pub const PIPEWIRE_SINK_KIND: &'static str = "pipewire-sink";

pub const PIPEWIRE_SOURCE_KIND: &'static str = "pipewire-source";

pub const DEFAULT_NODE: &'static str = "default";

pub const SINK_NODE: &'static str = "sink";

pub const SOURCE_NODE: &'static str = "source";

pub const SINK_RELATION: &'static str = "sink";

pub const SOURCE_RELATION: &'static str = "source";

/// A sink or source as the graph shows it. Its volume is the percentage
/// that the mean of its channels' volumes makes.
#[derive(Debug)]
pub struct AudioEndpoint {
    pub id: u32,
    pub name: String,
    pub description: String,
    pub nick: String,
    pub state: EndpointState,
    pub muted: bool,
    pub volume_percent: u32,
    pub media_class: String,
    pub form_factor: String,
}

pub struct AudioEndpointView {
    pub id: u32,
    pub name: Seq<char>,
    pub description: Seq<char>,
    pub nick: Seq<char>,
    pub state: EndpointState,
    pub muted: bool,
    pub volume_percent: u32,
    pub media_class: Seq<char>,
    pub form_factor: Seq<char>,
}

impl View for AudioEndpoint {
    type V = AudioEndpointView;

    open spec fn view(&self) -> AudioEndpointView {
        AudioEndpointView {
            id: self.id,
            name: self.name@,
            description: self.description@,
            nick: self.nick@,
            state: self.state,
            muted: self.muted,
            volume_percent: self.volume_percent,
            media_class: self.media_class@,
            form_factor: self.form_factor@,
        }
    }
}

/// The icon of a volume: muted when muted or at 0%, low up to 33%, medium
/// up to 66%, high above.
pub open spec fn icon_spec(muted: bool, percent: u32) -> Seq<char> {
    if muted || percent == 0 {
        "audio-volume-muted-symbolic"@
    } else if percent <= 33 {
        "audio-volume-low-symbolic"@
    } else if percent <= 66 {
        "audio-volume-medium-symbolic"@
    } else {
        "audio-volume-high-symbolic"@
    }
}

pub fn volume_icon(muted: bool, percent: u32) -> (r: &'static str)
    ensures
        r@ == icon_spec(muted, percent),
{
    if muted || percent == 0 {
        "audio-volume-muted-symbolic"
    } else if percent <= 33 {
        "audio-volume-low-symbolic"
    } else if percent <= 66 {
        "audio-volume-medium-symbolic"
    } else {
        "audio-volume-high-symbolic"
    }
}

/// The properties of an endpoint.
pub open spec fn endpoint_properties_spec(e: AudioEndpointView) -> Map<Seq<char>, ValueModel> {
    Map::<Seq<char>, ValueModel>::empty().insert("id"@, ValueModel::U32(e.id)).insert(
        "name"@,
        ValueModel::Text(e.name),
    ).insert("description"@, ValueModel::Text(e.description)).insert(
        "nick"@,
        ValueModel::Text(e.nick),
    ).insert("state"@, ValueModel::Text(endpoint_state_text(e.state))).insert(
        "muted"@,
        ValueModel::Bool(e.muted),
    ).insert("volume-percent"@, ValueModel::U32(e.volume_percent)).insert(
        "icon-name"@,
        ValueModel::Text(icon_spec(e.muted, e.volume_percent)),
    ).insert("form-factor"@, ValueModel::Text(e.form_factor)).insert(
        "media-class"@,
        ValueModel::Text(e.media_class),
    )
}

pub fn endpoint_properties(e: &AudioEndpoint) -> (r: PropertyMap)
    ensures
        property_models(r) == endpoint_properties_spec(e@),
{
    proof {
        reveal_strlit("id");
        reveal_strlit("name");
        reveal_strlit("description");
        reveal_strlit("nick");
        reveal_strlit("state");
        reveal_strlit("muted");
        reveal_strlit("volume-percent");
        reveal_strlit("icon-name");
        reveal_strlit("form-factor");
        reveal_strlit("media-class");
    }
    let mut m: PropertyMap = TextMap::new();
    put(&mut m, "id", LocusValue::U32(e.id));
    put(&mut m, "name", LocusValue::text(e.name.as_str()));
    put(&mut m, "description", LocusValue::text(e.description.as_str()));
    put(&mut m, "nick", LocusValue::text(e.nick.as_str()));
    put(&mut m, "state", LocusValue::text(e.state.as_str()));
    put(&mut m, "muted", LocusValue::Bool(e.muted));
    put(&mut m, "volume-percent", LocusValue::U32(e.volume_percent));
    put(&mut m, "icon-name", LocusValue::text(volume_icon(e.muted, e.volume_percent)));
    put(&mut m, "form-factor", LocusValue::text(e.form_factor.as_str()));
    put(&mut m, "media-class", LocusValue::text(e.media_class.as_str()));
    proof {
        assert(property_models(m) =~= endpoint_properties_spec(e@));
    }
    m
}

/// The properties of the `default`, `sink` and `source` nodes.
pub open spec fn facade_properties_spec(local: Seq<char>) -> Map<Seq<char>, ValueModel> {
    Map::<Seq<char>, ValueModel>::empty().insert("kind"@, ValueModel::Text("pipewire"@)).insert(
        "source"@,
        ValueModel::Text("pipewire"@),
    ).insert("name"@, ValueModel::Text(local))
}

pub fn facade_properties(local: &str) -> (r: PropertyMap)
    ensures
        property_models(r) == facade_properties_spec(local@),
{
    proof {
        reveal_strlit("kind");
        reveal_strlit("source");
        reveal_strlit("name");
    }
    let mut m: PropertyMap = TextMap::new();
    put(&mut m, "kind", LocusValue::text(PIPEWIRE_KIND));
    put(&mut m, "source", LocusValue::text("pipewire"));
    put(&mut m, "name", LocusValue::text(local));
    proof {
        assert(property_models(m) =~= facade_properties_spec(local@));
    }
    m
}

/// The endpoint that a `pactl` endpoint becomes, at the given volume
/// percentage.
pub open spec fn from_pactl_spec(e: PactlEndpoint, volume_percent: u32) -> AudioEndpointView {
    AudioEndpointView {
        id: e.index,
        name: e.name@,
        description: description_spec(e),
        nick: or_else(
            match prop(e, "node.nick"@) {
                Some(n) => Some(n),
                None => prop(e, "device.nick"@),
            },
            description_spec(e),
        ),
        state: endpoint_state_spec(
            match e.state {
                Some(s) => Some(s@),
                None => None,
            },
        ),
        muted: e.mute,
        volume_percent,
        media_class: or_else(prop(e, "media.class"@), "unknown"@),
        form_factor: or_else(prop(e, "device.form_factor"@), "unknown"@),
    }
}

impl AudioEndpoint {
    pub fn from_pactl(endpoint: &PactlEndpoint, volume_percent: u32) -> (r: AudioEndpoint)
        ensures
            r@ == from_pactl_spec(*endpoint, volume_percent),
    {
        let labels = endpoint.labels();
        let state = match &endpoint.state {
            Some(s) => EndpointState::from_pactl(Some(s.as_str())),
            None => EndpointState::from_pactl(None),
        };
        AudioEndpoint {
            id: endpoint.index,
            name: endpoint.name.clone(),
            description: labels.description,
            nick: labels.nick,
            state,
            muted: endpoint.mute,
            volume_percent,
            media_class: labels.media_class,
            form_factor: labels.form_factor,
        }
    }

    /// Whether two endpoints are equal.
    pub fn same_as(&self, other: &AudioEndpoint) -> (r: bool)
        ensures
            r == (self@ == other@),
    {
        self.id == other.id && text_eq(self.name.as_str(), other.name.as_str()) && text_eq(
            self.description.as_str(),
            other.description.as_str(),
        ) && text_eq(self.nick.as_str(), other.nick.as_str()) && self.state == other.state
            && self.muted == other.muted && self.volume_percent == other.volume_percent
            && text_eq(self.media_class.as_str(), other.media_class.as_str()) && text_eq(
            self.form_factor.as_str(),
            other.form_factor.as_str(),
        )
    }
}

/// What `pactl` reports at one moment: the default sink and source, by
/// endpoint id, and the sinks and sources keyed by id.
pub struct PipeWireSnapshot {
    pub default_sink: Option<String>,
    pub default_source: Option<String>,
    pub sinks: TextMap<String, AudioEndpoint>,
    pub sources: TextMap<String, AudioEndpoint>,
}

/// Endpoints keyed by id, as a snapshot holds them.
pub open spec fn endpoints_of(m: TextMap<String, AudioEndpoint>) -> Map<Seq<char>, AudioEndpointView> {
    m.map().map_values(|e: AudioEndpoint| e@)
}

pub open spec fn opt_text(o: Option<String>) -> Option<Seq<char>> {
    match o {
        Some(t) => Some(t@),
        None => None,
    }
}

/// Every id of a set of endpoints names a valid node.
pub open spec fn ids_valid_in(m: Map<Seq<char>, AudioEndpointView>) -> bool {
    forall|id: Seq<char>| #[trigger]
        m.contains_key(id) ==> valid_identifier(IdentifierClass::NodeLocalId, id)
}

pub open spec fn ids_valid(s: PipeWireSnapshot) -> bool {
    ids_valid_in(endpoints_of(s.sinks)) && ids_valid_in(endpoints_of(s.sources))
}

pub open spec fn facade_view(local: Seq<char>) -> NodeIdView {
    NodeIdView { kind: "pipewire"@, local }
}

pub open spec fn endpoint_view(kind: Seq<char>, id: Seq<char>) -> NodeIdView {
    NodeIdView { kind, local: id }
}

/// Changes for the ids that leave a set: each endpoint node and its
/// relation from the set's node.
pub open spec fn removed_changes(
    keys: Seq<Seq<char>>,
    new: Map<Seq<char>, AudioEndpointView>,
    kind: Seq<char>,
    facade: Seq<char>,
) -> Seq<ChangeModel>
    decreases keys.len(),
{
    if keys.len() == 0 {
        Seq::empty()
    } else {
        removed_changes(keys.drop_last(), new, kind, facade) + if new.contains_key(keys.last()) {
            Seq::empty()
        } else {
            seq![
                ChangeModel::NodeRemoved(endpoint_view(kind, keys.last())),
                ChangeModel::RelationRemoved(facade_view(facade), keys.last()),
            ]
        }
    }
}

/// Changes for the ids that arrive in a set.
pub open spec fn added_changes(
    keys: Seq<Seq<char>>,
    old: Map<Seq<char>, AudioEndpointView>,
    kind: Seq<char>,
    facade: Seq<char>,
) -> Seq<ChangeModel>
    decreases keys.len(),
{
    if keys.len() == 0 {
        Seq::empty()
    } else {
        added_changes(keys.drop_last(), old, kind, facade) + if old.contains_key(keys.last()) {
            Seq::empty()
        } else {
            seq![
                ChangeModel::NodeAdded(endpoint_view(kind, keys.last())),
                ChangeModel::RelationAdded(facade_view(facade), keys.last()),
            ]
        }
    }
}

pub open spec fn property_changes(node: NodeIdView, keys: Seq<Seq<char>>) -> Seq<ChangeModel> {
    keys.map_values(|k: Seq<char>| ChangeModel::PropertyChanged(node, k))
}

/// Changes for one endpoint present before and after: where it differs,
/// its node and each property whose value differs.
pub open spec fn kept_change(
    node: NodeIdView,
    old: AudioEndpointView,
    new: AudioEndpointView,
) -> Seq<ChangeModel> {
    if old != new {
        seq![ChangeModel::NodeChanged(node)] + property_changes(
            node,
            changed_keys_spec(endpoint_properties_spec(old), endpoint_properties_spec(new)),
        )
    } else {
        Seq::empty()
    }
}

pub open spec fn kept_changes(
    keys: Seq<Seq<char>>,
    old: Map<Seq<char>, AudioEndpointView>,
    new: Map<Seq<char>, AudioEndpointView>,
    kind: Seq<char>,
) -> Seq<ChangeModel>
    decreases keys.len(),
{
    if keys.len() == 0 {
        Seq::empty()
    } else {
        let id = keys.last();
        kept_changes(keys.drop_last(), old, new, kind) + if new.contains_key(id) {
            kept_change(endpoint_view(kind, id), old[id], new[id])
        } else {
            Seq::empty()
        }
    }
}

/// The changes between two states of a set of endpoints: the kind changed
/// when the ids changed, then departures, arrivals and changed endpoints,
/// each in id order.
pub open spec fn set_changes_spec(
    old: TextMap<String, AudioEndpoint>,
    new: TextMap<String, AudioEndpoint>,
    kind: Seq<char>,
    facade: Seq<char>,
) -> Seq<ChangeModel> {
    (if old.keys() != new.keys() {
        seq![ChangeModel::NodeKindChanged(kind)]
    } else {
        Seq::empty()
    }) + removed_changes(old.keys(), endpoints_of(new), kind, facade) + added_changes(
        new.keys(),
        endpoints_of(old),
        kind,
        facade,
    ) + kept_changes(old.keys(), endpoints_of(old), endpoints_of(new), kind)
}

/// The change of a relation of the `default` node: added, removed or
/// changed as its target comes, goes or moves; none when it stays.
pub open spec fn default_change_spec(
    old: Option<Seq<char>>,
    new: Option<Seq<char>>,
    relation: Seq<char>,
) -> Seq<ChangeModel> {
    if old == new {
        Seq::empty()
    } else {
        match (old, new) {
            (None, Some(_)) => seq![ChangeModel::RelationAdded(facade_view("default"@), relation)],
            (Some(_), None) => seq![ChangeModel::RelationRemoved(facade_view("default"@), relation)],
            _ => seq![ChangeModel::RelationChanged(facade_view("default"@), relation)],
        }
    }
}

/// The changes that replacing snapshot `old` by `new` reports: those of
/// the sinks, of the sources, then of the default sink and source.
pub open spec fn snapshot_changes_spec(old: PipeWireSnapshot, new: PipeWireSnapshot) -> Seq<
    ChangeModel,
> {
    set_changes_spec(old.sinks, new.sinks, "pipewire-sink"@, "sink"@) + set_changes_spec(
        old.sources,
        new.sources,
        "pipewire-source"@,
        "source"@,
    ) + default_change_spec(opt_text(old.default_sink), opt_text(new.default_sink), "sink"@)
        + default_change_spec(
        opt_text(old.default_source),
        opt_text(new.default_source),
        "source"@,
    )
}

/// The first arriving id that is not a valid node id, if any.
pub open spec fn first_invalid_added(
    keys: Seq<Seq<char>>,
    old: Map<Seq<char>, AudioEndpointView>,
) -> Option<Seq<char>>
    decreases keys.len(),
{
    if keys.len() == 0 {
        None
    } else if !old.contains_key(keys[0]) && !valid_identifier(
        IdentifierClass::NodeLocalId,
        keys[0],
    ) {
        Some(keys[0])
    } else {
        first_invalid_added(keys.drop_first(), old)
    }
}

/// The first id of `keys` that both maps hold with different endpoints and
/// that is not a valid node id, if any.
pub open spec fn first_invalid_changed(
    keys: Seq<Seq<char>>,
    old: Map<Seq<char>, AudioEndpointView>,
    new: Map<Seq<char>, AudioEndpointView>,
) -> Option<Seq<char>>
    decreases keys.len(),
{
    if keys.len() == 0 {
        None
    } else if new.contains_key(keys[0]) && old[keys[0]] != new[keys[0]] && !valid_identifier(
        IdentifierClass::NodeLocalId,
        keys[0],
    ) {
        Some(keys[0])
    } else {
        first_invalid_changed(keys.drop_first(), old, new)
    }
}

/// The first id of a set of endpoints that a change report must name and
/// cannot: among the departing ids, else the arriving ones, else the
/// changed ones, each in id order.
pub open spec fn first_invalid_in_set(
    old: TextMap<String, AudioEndpoint>,
    new: TextMap<String, AudioEndpoint>,
) -> Option<Seq<char>> {
    match first_invalid_added(old.keys(), endpoints_of(new)) {
        Some(id) => Some(id),
        None => match first_invalid_added(new.keys(), endpoints_of(old)) {
            Some(id) => Some(id),
            None => first_invalid_changed(old.keys(), endpoints_of(old), endpoints_of(new)),
        },
    }
}

/// The first id of the sinks, else of the sources, that a change report
/// must name and cannot, if any.
pub open spec fn first_invalid_snapshot(old: PipeWireSnapshot, new: PipeWireSnapshot) -> Option<
    Seq<char>,
> {
    match first_invalid_in_set(old.sinks, new.sinks) {
        Some(id) => Some(id),
        None => first_invalid_in_set(old.sources, new.sources),
    }
}

proof fn lemma_first_invalid_changed(
    keys: Seq<Seq<char>>,
    old: Map<Seq<char>, AudioEndpointView>,
    new: Map<Seq<char>, AudioEndpointView>,
    i: int,
)
    requires
        0 <= i <= keys.len(),
        forall|j: int|
            0 <= j < i ==> !(new.contains_key(#[trigger] keys[j]) && old[keys[j]] != new[keys[j]])
                || valid_identifier(IdentifierClass::NodeLocalId, keys[j]),
    ensures
        i < keys.len() && new.contains_key(keys[i]) && old[keys[i]] != new[keys[i]] && !valid_identifier(
            IdentifierClass::NodeLocalId,
            keys[i],
        ) ==> first_invalid_changed(keys, old, new) == Some(keys[i]),
        i == keys.len() ==> first_invalid_changed(keys, old, new) is None,
    decreases i,
{
    if i > 0 {
        assert forall|j: int| 0 <= j < i - 1 implies !(new.contains_key(#[trigger] keys.drop_first()[j])
            && old[keys.drop_first()[j]] != new[keys.drop_first()[j]]) || valid_identifier(
            IdentifierClass::NodeLocalId,
            keys.drop_first()[j],
        ) by {
            assert(keys.drop_first()[j] == keys[j + 1]);
        }
        lemma_first_invalid_changed(keys.drop_first(), old, new, i - 1);
        assert(!(new.contains_key(keys[0]) && old[keys[0]] != new[keys[0]]) || valid_identifier(
            IdentifierClass::NodeLocalId,
            keys[0],
        ));
        if i < keys.len() {
            assert(keys.drop_first()[i - 1] == keys[i]);
        }
    }
}

proof fn lemma_first_invalid_added(
    keys: Seq<Seq<char>>,
    old: Map<Seq<char>, AudioEndpointView>,
    i: int,
)
    requires
        0 <= i <= keys.len(),
        forall|j: int|
            0 <= j < i ==> old.contains_key(#[trigger] keys[j]) || valid_identifier(
                IdentifierClass::NodeLocalId,
                keys[j],
            ),
    ensures
        i < keys.len() && !old.contains_key(keys[i]) && !valid_identifier(
            IdentifierClass::NodeLocalId,
            keys[i],
        ) ==> first_invalid_added(keys, old) == Some(keys[i]),
        i == keys.len() ==> first_invalid_added(keys, old) is None,
    decreases i,
{
    if i > 0 {
        assert forall|j: int| 0 <= j < i - 1 implies old.contains_key(
            #[trigger] keys.drop_first()[j],
        ) || valid_identifier(IdentifierClass::NodeLocalId, keys.drop_first()[j]) by {
            assert(keys.drop_first()[j] == keys[j + 1]);
        }
        lemma_first_invalid_added(keys.drop_first(), old, i - 1);
        assert(old.contains_key(keys[0]) || valid_identifier(
            IdentifierClass::NodeLocalId,
            keys[0],
        ));
        if i < keys.len() {
            assert(keys.drop_first()[i - 1] == keys[i]);
        }
    }
}

proof fn lemma_first_invalid_none(keys: Seq<Seq<char>>, old: Map<Seq<char>, AudioEndpointView>)
    requires
        first_invalid_added(keys, old) is None,
    ensures
        forall|j: int|
            0 <= j < keys.len() ==> old.contains_key(#[trigger] keys[j]) || valid_identifier(
                IdentifierClass::NodeLocalId,
                keys[j],
            ),
    decreases keys.len(),
{
    if keys.len() > 0 {
        lemma_first_invalid_none(keys.drop_first(), old);
        assert forall|j: int| 0 <= j < keys.len() implies old.contains_key(#[trigger] keys[j])
            || valid_identifier(IdentifierClass::NodeLocalId, keys[j]) by {
            if j > 0 {
                assert(keys.drop_first()[j - 1] == keys[j]);
            }
        }
    }
}

/// The key texts of a set of endpoints are exactly its domain, and each
/// key's entry is its value.
proof fn lemma_endpoint_keys(m: TextMap<String, AudioEndpoint>)
    requires
        sorted_by_key(m.entries()),
    ensures
        m.keys().len() == m.entries().len(),
        forall|i: int|
            0 <= i < m.keys().len() ==> #[trigger] endpoints_of(m).contains_key(m.keys()[i])
                && endpoints_of(m)[m.keys()[i]] == m.entries()[i].1@,
        forall|k: Seq<char>| #[trigger]
            endpoints_of(m).contains_key(k) ==> exists|i: int|
                0 <= i < m.keys().len() && m.keys()[i] == k,
{
    let e = m.entries();
    assert forall|i: int| 0 <= i < m.keys().len() implies #[trigger] endpoints_of(m).contains_key(
        m.keys()[i],
    ) && endpoints_of(m)[m.keys()[i]] == m.entries()[i].1@ by {
        lemma_entries_map_at(e, i);
    }
    assert forall|k: Seq<char>| #[trigger] endpoints_of(m).contains_key(k) implies exists|i: int|
        0 <= i < m.keys().len() && m.keys()[i] == k by {
        let i = choose|i: int| 0 <= i < e.len() && #[trigger] e[i].0.key_text() == k;
        assert(m.keys()[i] == k);
    }
}

proof fn lemma_property_changes_take(node: NodeIdView, keys: Seq<Seq<char>>, i: int)
    requires
        0 <= i < keys.len(),
    ensures
        property_changes(node, keys.take(i + 1)) == property_changes(node, keys.take(i)).push(
            ChangeModel::PropertyChanged(node, keys[i]),
        ),
{
    assert(property_changes(node, keys.take(i + 1)) =~= property_changes(node, keys.take(i)).push(
        ChangeModel::PropertyChanged(node, keys[i]),
    ));
}

fn same_keys(a: &TextMap<String, AudioEndpoint>, b: &TextMap<String, AudioEndpoint>) -> (r: bool)
    ensures
        r == (a.keys() == b.keys()),
{
    let n = a.len();
    let m = b.len();
    if n != m {
        assert(a.keys().len() != b.keys().len());
        return false;
    }
    let mut i: usize = 0;
    while i < n
        invariant
            n == a.entries().len(),
            m == b.entries().len(),
            n == m,
            i <= n,
            forall|j: int| 0 <= j < i ==> a.keys()[j] == b.keys()[j],
        decreases n - i,
    {
        if !text_eq(a.key_at(i).as_str(), b.key_at(i).as_str()) {
            assert(a.keys()[i as int] != b.keys()[i as int]);
            return false;
        }
        i += 1;
    }
    assert(a.keys() =~= b.keys());
    true
}

/// The relation name an endpoint id gives, for an id that is a valid
/// node id.
fn id_relation(id: &str) -> (r: RelationName)
    requires
        valid_identifier(IdentifierClass::NodeLocalId, id@),
    ensures
        r@ == id@,
{
    match RelationName::new(id) {
        Ok(r) => r,
        Err(_) => vstd::pervasive::unreached(),
    }
}

/// Whether `kind` and `facade` name one of the two endpoint sets.
pub open spec fn endpoint_set(kind: Seq<char>, facade: Seq<char>) -> bool {
    (kind == "pipewire-sink"@ && facade == "sink"@) || (kind == "pipewire-source"@ && facade
        == "source"@)
}

/// The changes between two states of a set of endpoints, or the error for
/// the first id it must name and cannot.
fn set_changes(
    changes: &mut Vec<GraphChange>,
    from: &TextMap<String, AudioEndpoint>,
    to: &TextMap<String, AudioEndpoint>,
    kind: &str,
    facade_local: &str,
) -> (r: Result<()>)
    requires
        endpoint_set(kind@, facade_local@),
    ensures
        match first_invalid_in_set(*from, *to) {
            Some(id) => r matches Err(e) && identifier_error(IdentifierClass::NodeLocalId, id, e),
            None => r is Ok && change_models(final(changes)@) == change_models(old(changes)@)
                + set_changes_spec(*from, *to, kind@, facade_local@),
        },
{
    proof {
        reveal_strlit("pipewire-sink");
        reveal_strlit("pipewire-source");
        reveal_strlit("sink");
        reveal_strlit("source");
        reveal_strlit("pipewire");
    }
    assert(valid_identifier(IdentifierClass::NodeKind, kind@)) by {
        assert(!kind@.contains('\0'));
        assert(!kind@.contains(':'));
    }
    let ghost om = endpoints_of(*from);
    let ghost nm = endpoints_of(*to);
    let ghost ok = from.keys();
    let ghost nk = to.keys();
    let ghost start = change_models(changes@);
    let on = from.len();
    let nn = to.len();
    proof {
        lemma_endpoint_keys(*from);
        lemma_endpoint_keys(*to);
    }
    if !same_keys(from, to) {
        let ghost prev = changes@;
        let c = GraphChange::NodeKindChanged { kind: known_kind(kind) };
        proof {
            lemma_change_models_push(prev, c);
        }
        changes.push(c);
    }
    let ghost head = change_models(changes@);
    assert(head == start + (if ok != nk {
        seq![ChangeModel::NodeKindChanged(kind@)]
    } else {
        Seq::<ChangeModel>::empty()
    }));
    let facade = known_node(PIPEWIRE_KIND, facade_local);
    let mut i: usize = 0;
    while i < on
        invariant
            on == ok.len(),
            ok == from.keys(),
            om == endpoints_of(*from),
            nm == endpoints_of(*to),
            endpoint_set(kind@, facade_local@),
            valid_identifier(IdentifierClass::NodeKind, kind@),
            facade@ == facade_view(facade_local@),
            forall|j: int| 0 <= j < ok.len() ==> #[trigger] om.contains_key(ok[j]),
            forall|q: int|
                0 <= q < i ==> nm.contains_key(#[trigger] ok[q]) || valid_identifier(
                    IdentifierClass::NodeLocalId,
                    ok[q],
                ),
            i <= on,
            change_models(changes@) == head + removed_changes(
                ok.take(i as int),
                nm,
                kind@,
                facade_local@,
            ),
        decreases on - i,
    {
        let id = from.key_at(i);
        assert(id@ == ok[i as int]);
        assert(ok.take(i + 1).drop_last() =~= ok.take(i as int));
        let ghost prev = changes@;
        if !to.contains_key(id.as_str()) {
            assert(om.contains_key(ok[i as int]));
            let node = match NodeId::from_parts(kind, id.as_str()) {
                Ok(n) => n,
                Err(e) => {
                    proof {
                        lemma_first_invalid_added(ok, nm, i as int);
                    }
                    return Err(e);
                },
            };
            let relation = id_relation(id.as_str());
            let a = GraphChange::NodeRemoved { node };
            let b = GraphChange::RelationRemoved { source: facade.duplicate(), relation };
            proof {
                lemma_change_models_push(prev, a);
                lemma_change_models_push(prev.push(a), b);
            }
            changes.push(a);
            changes.push(b);
            assert(change_models(changes@) =~= change_models(prev) + seq![a@, b@]);
        }
        proof {
            assert(change_models(changes@) =~= head + removed_changes(
                ok.take(i + 1),
                nm,
                kind@,
                facade_local@,
            ));
        }
        i += 1;
    }
    assert(ok.take(on as int) =~= ok);
    proof {
        lemma_first_invalid_added(ok, nm, on as int);
    }
    let ghost mid = change_models(changes@);
    let mut j: usize = 0;
    while j < nn
        invariant
            nn == nk.len(),
            nk == to.keys(),
            ok == from.keys(),
            om == endpoints_of(*from),
            nm == endpoints_of(*to),
            first_invalid_added(ok, nm) is None,
            endpoint_set(kind@, facade_local@),
            valid_identifier(IdentifierClass::NodeKind, kind@),
            facade@ == facade_view(facade_local@),
            j <= nn,
            forall|q: int|
                0 <= q < j ==> om.contains_key(#[trigger] nk[q]) || valid_identifier(
                    IdentifierClass::NodeLocalId,
                    nk[q],
                ),
            change_models(changes@) == mid + added_changes(
                nk.take(j as int),
                om,
                kind@,
                facade_local@,
            ),
        decreases nn - j,
    {
        let id = to.key_at(j);
        assert(id@ == nk[j as int]);
        assert(nk.take(j + 1).drop_last() =~= nk.take(j as int));
        let ghost prev = changes@;
        if !from.contains_key(id.as_str()) {
            let node = match NodeId::from_parts(kind, id.as_str()) {
                Ok(n) => n,
                Err(e) => {
                    proof {
                        lemma_first_invalid_added(nk, om, j as int);
                    }
                    return Err(e);
                },
            };
            let relation = id_relation(id.as_str());
            let a = GraphChange::NodeAdded { node };
            let b = GraphChange::RelationAdded { source: facade.duplicate(), relation };
            proof {
                lemma_change_models_push(prev, a);
                lemma_change_models_push(prev.push(a), b);
            }
            changes.push(a);
            changes.push(b);
            assert(change_models(changes@) =~= change_models(prev) + seq![a@, b@]);
        }
        proof {
            assert(change_models(changes@) =~= mid + added_changes(
                nk.take(j + 1),
                om,
                kind@,
                facade_local@,
            ));
        }
        j += 1;
    }
    proof {
        lemma_first_invalid_added(nk, om, nn as int);
    }
    assert(nk.take(nn as int) =~= nk);
    let ghost mid2 = change_models(changes@);
    let mut i: usize = 0;
    while i < on
        invariant
            on == ok.len(),
            ok == from.keys(),
            sorted_by_key(from.entries()),
            om == endpoints_of(*from),
            nm == endpoints_of(*to),
            nk == to.keys(),
            first_invalid_added(ok, nm) is None,
            first_invalid_added(nk, om) is None,
            endpoint_set(kind@, facade_local@),
            valid_identifier(IdentifierClass::NodeKind, kind@),
            forall|q: int|
                0 <= q < ok.len() ==> #[trigger] om.contains_key(ok[q]) && om[ok[q]]
                    == from.entries()[q].1@,
            forall|q: int|
                0 <= q < i ==> !(nm.contains_key(#[trigger] ok[q]) && om[ok[q]] != nm[ok[q]])
                    || valid_identifier(IdentifierClass::NodeLocalId, ok[q]),
            i <= on,
            change_models(changes@) == mid2 + kept_changes(ok.take(i as int), om, nm, kind@),
        decreases on - i,
    {
        let id = from.key_at(i);
        assert(id@ == ok[i as int]);
        assert(ok.take(i + 1).drop_last() =~= ok.take(i as int));
        let old_endpoint = from.value_at(i);
        assert(om.contains_key(ok[i as int]));
        assert(om[id@] == old_endpoint@);
        match to.get(id.as_str()) {
            Some(new_endpoint) => {
                assert(nm[id@] == new_endpoint@);
                if !old_endpoint.same_as(new_endpoint) {
                    let node = match NodeId::from_parts(kind, id.as_str()) {
                        Ok(n) => n,
                        Err(e) => {
                            proof {
                                lemma_first_invalid_changed(ok, om, nm, i as int);
                            }
                            return Err(e);
                        },
                    };
                    let ghost before = change_models(changes@);
                    let first = GraphChange::NodeChanged { node: node.duplicate() };
                    proof {
                        lemma_change_models_push(changes@, first);
                    }
                    changes.push(first);
                    let old_props = endpoint_properties(old_endpoint);
                    let new_props = endpoint_properties(new_endpoint);
                    let keys = changed_keys(&old_props, &new_props);
                    let ghost ks = keys@.map_values(|k: PropertyKey| k@);
                    let ghost base = change_models(changes@);
                    let mut p: usize = 0;
                    while p < keys.len()
                        invariant
                            p <= keys.len(),
                            node@ == endpoint_view(kind@, id@),
                            ks == keys@.map_values(|k: PropertyKey| k@),
                            change_models(changes@) == base + property_changes(
                                node@,
                                ks.take(p as int),
                            ),
                        decreases keys.len() - p,
                    {
                        let change = GraphChange::PropertyChanged {
                            node: node.duplicate(),
                            key: keys[p].duplicate(),
                        };
                        proof {
                            lemma_change_models_push(changes@, change);
                            lemma_property_changes_take(node@, ks, p as int);
                        }
                        changes.push(change);
                        proof {
                            assert(change_models(changes@) =~= base + property_changes(
                                node@,
                                ks.take(p + 1),
                            ));
                        }
                        p += 1;
                    }
                    proof {
                        assert(ks.take(keys.len() as int) =~= ks);
                        assert(change_models(changes@) =~= before + kept_change(
                            endpoint_view(kind@, id@),
                            om[id@],
                            nm[id@],
                        ));
                    }
                }
            },
            None => {},
        }
        proof {
            assert(change_models(changes@) =~= mid2 + kept_changes(ok.take(i + 1), om, nm, kind@));
        }
        i += 1;
    }
    proof {
        assert(ok.take(on as int) =~= ok);
        lemma_first_invalid_changed(ok, om, nm, on as int);
        assert(change_models(changes@) =~= start + set_changes_spec(
            *from,
            *to,
            kind@,
            facade_local@,
        ));
    }
    Ok(())
}

/// Records the change of a relation of the `default` node.
fn default_change(
    changes: &mut Vec<GraphChange>,
    from: &Option<String>,
    to: &Option<String>,
    relation: &str,
)
    requires
        relation@ == "sink"@ || relation@ == "source"@,
    ensures
        change_models(final(changes)@) == change_models(old(changes)@) + default_change_spec(
            opt_text(*from),
            opt_text(*to),
            relation@,
        ),
{
    proof {
        reveal_strlit("sink");
        reveal_strlit("source");
        reveal_strlit("default");
        reveal_strlit("pipewire");
    }
    let same = match (from, to) {
        (None, None) => true,
        (Some(a), Some(b)) => text_eq(a.as_str(), b.as_str()),
        _ => false,
    };
    let ghost start = change_models(changes@);
    if same {
        assert(change_models(changes@) =~= start + default_change_spec(
            opt_text(*from),
            opt_text(*to),
            relation@,
        ));
        return ;
    }
    let source = known_node(PIPEWIRE_KIND, DEFAULT_NODE);
    let name = match RelationName::new(relation) {
        Ok(r) => r,
        Err(_) => vstd::pervasive::unreached(),
    };
    let change = match (from, to) {
        (None, Some(_)) => GraphChange::RelationAdded { source, relation: name },
        (Some(_), None) => GraphChange::RelationRemoved { source, relation: name },
        _ => GraphChange::RelationChanged { source, relation: name },
    };
    proof {
        lemma_change_models_push(changes@, change);
    }
    changes.push(change);
    assert(change_models(changes@) =~= start + default_change_spec(
        opt_text(*from),
        opt_text(*to),
        relation@,
    ));
}

/// The changes that replacing `old` by `new` reports, or the error for
/// the first id they must name and cannot.
pub fn snapshot_changes(old: &PipeWireSnapshot, new: &PipeWireSnapshot) -> (r: Result<
    Vec<GraphChange>,
>)
    ensures
        match first_invalid_snapshot(*old, *new) {
            Some(id) => r matches Err(e) && identifier_error(IdentifierClass::NodeLocalId, id, e),
            None => r matches Ok(c) && change_models(c@) == snapshot_changes_spec(*old, *new),
        },
{
    proof {
        reveal_strlit("pipewire-sink");
        reveal_strlit("pipewire-source");
        reveal_strlit("sink");
        reveal_strlit("source");
    }
    let mut changes: Vec<GraphChange> = Vec::new();
    assert(change_models(changes@) =~= Seq::<ChangeModel>::empty());
    set_changes(&mut changes, &old.sinks, &new.sinks, PIPEWIRE_SINK_KIND, SINK_NODE)?;
    set_changes(&mut changes, &old.sources, &new.sources, PIPEWIRE_SOURCE_KIND, SOURCE_NODE)?;
    default_change(&mut changes, &old.default_sink, &new.default_sink, SINK_RELATION);
    default_change(&mut changes, &old.default_source, &new.default_source, SOURCE_RELATION);
    assert(change_models(changes@) =~= snapshot_changes_spec(*old, *new));
    Ok(changes)
}

/// The endpoints a list of `pactl` endpoints (each with its volume
/// percentage) gives, keyed by the decimal text of their index, later ones
/// replacing earlier ones with the same index; with `sources_only`, only
/// the real sources are kept.
pub open spec fn endpoints_from(list: Seq<(PactlEndpoint, u32)>, sources_only: bool) -> Map<
    Seq<char>,
    AudioEndpointView,
>
    decreases list.len(),
{
    if list.len() == 0 {
        Map::empty()
    } else {
        let m = endpoints_from(list.drop_last(), sources_only);
        let e = list.last().0;
        if sources_only && !real_source_spec(e) {
            m
        } else {
            m.insert(decimal(e.index as nat), from_pactl_spec(e, list.last().1))
        }
    }
}

/// The first id, in the given order, of an endpoint with the given name.
pub open spec fn first_named(
    keys: Seq<Seq<char>>,
    m: Map<Seq<char>, AudioEndpointView>,
    name: Seq<char>,
) -> Option<Seq<char>>
    decreases keys.len(),
{
    if keys.len() == 0 {
        None
    } else if m[keys[0]].name == name {
        Some(keys[0])
    } else {
        first_named(keys.drop_first(), m, name)
    }
}

/// The id of the endpoint that a default's name names, if any.
pub open spec fn default_spec(m: TextMap<String, AudioEndpoint>, name: Option<String>) -> Option<
    Seq<char>,
> {
    match name {
        Some(n) => first_named(m.keys(), endpoints_of(m), n@),
        None => None,
    }
}

fn endpoints_map(list: &Vec<(PactlEndpoint, u32)>, sources_only: bool) -> (r: TextMap<
    String,
    AudioEndpoint,
>)
    ensures
        endpoints_of(r) == endpoints_from(list@, sources_only),
{
    let mut m: TextMap<String, AudioEndpoint> = TextMap::new();
    let mut i: usize = 0;
    assert(list@.take(0) =~= Seq::<(PactlEndpoint, u32)>::empty());
    assert(endpoints_of(m) =~= Map::<Seq<char>, AudioEndpointView>::empty());
    while i < list.len()
        invariant
            i <= list.len(),
            endpoints_of(m) == endpoints_from(list@.take(i as int), sources_only),
        decreases list.len() - i,
    {
        let (e, percent) = &list[i];
        assert(list@.take(i + 1).drop_last() =~= list@.take(i as int));
        assert(list@.take(i + 1).last() == list@[i as int]);
        if !sources_only || e.is_real_source() {
            let key = u32_text(e.index);
            let ghost before = endpoints_of(m);
            let endpoint = AudioEndpoint::from_pactl(e, *percent);
            let ghost ev = endpoint@;
            m.insert(key, endpoint);
            assert(endpoints_of(m) =~= before.insert(decimal(e.index as nat), ev));
        }
        i += 1;
    }
    assert(list@.take(list.len() as int) =~= list@);
    m
}

fn endpoint_id_by_name(m: &TextMap<String, AudioEndpoint>, name: &Option<String>) -> (r: Option<
    String,
>)
    ensures
        opt_text(r) == default_spec(*m, *name),
{
    let wanted: &String = match name {
        Some(n) => {
            assert(default_spec(*m, *name) == first_named(m.keys(), endpoints_of(*m), n@));
            n
        },
        None => {
            return None;
        },
    };
    assert(default_spec(*m, *name) == first_named(m.keys(), endpoints_of(*m), wanted@));
    let n = m.len();
    proof {
        lemma_endpoint_keys(*m);
    }
    let ghost ks = m.keys();
    let ghost em = endpoints_of(*m);
    let mut i: usize = 0;
    assert(ks.skip(0) =~= ks);
    assert forall|q: int| 0 <= q < ks.len() implies #[trigger] em.contains_key(ks[q]) && em[ks[q]]
        == m.entries()[q].1@ by {
        assert(endpoints_of(*m).contains_key(m.keys()[q]));
    }
    while i < n
        invariant
            n == ks.len(),
            ks == m.keys(),
            em == endpoints_of(*m),
            forall|q: int| 0 <= q < ks.len() ==> #[trigger] em.contains_key(ks[q]) && em[ks[q]]
                == m.entries()[q].1@,
            i <= n,
            first_named(ks.skip(i as int), em, wanted@) == first_named(ks, em, wanted@),
            default_spec(*m, *name) == first_named(ks, em, wanted@),
        decreases n - i,
    {
        let endpoint = m.value_at(i);
        assert(em[ks[i as int]] == endpoint@);
        assert(ks.skip(i as int)[0] == ks[i as int]);
        assert(ks.skip(i as int).drop_first() =~= ks.skip(i + 1));
        if text_eq(endpoint.name.as_str(), wanted.as_str()) {
            let id = crate::text::copy_text(m.key_at(i));
            assert(id@ == ks[i as int]);
            assert(ks.skip(i as int).len() > 0);
            assert(first_named(ks.skip(i as int), em, wanted@) == Some(ks[i as int]));
            return Some(id);
        }
        i += 1;
    }
    assert(ks.skip(n as int) =~= Seq::<Seq<char>>::empty());
    None
}

/// The snapshot that `pactl`'s answers give: the sinks, the real sources,
/// and the defaults resolved by name to endpoint ids.
pub fn snapshot_from_pactl(
    info: &PactlInfo,
    sinks: &Vec<(PactlEndpoint, u32)>,
    sources: &Vec<(PactlEndpoint, u32)>,
) -> (r: PipeWireSnapshot)
    ensures
        endpoints_of(r.sinks) == endpoints_from(sinks@, false),
        endpoints_of(r.sources) == endpoints_from(sources@, true),
        opt_text(r.default_sink) == default_spec(r.sinks, info.default_sink_name),
        opt_text(r.default_source) == default_spec(r.sources, info.default_source_name),
{
    let sink_map = endpoints_map(sinks, false);
    let source_map = endpoints_map(sources, true);
    let default_sink = endpoint_id_by_name(&sink_map, &info.default_sink_name);
    let default_source = endpoint_id_by_name(&source_map, &info.default_source_name);
    PipeWireSnapshot { default_sink, default_source, sinks: sink_map, sources: source_map }
}

/// Whether a node exists.
pub open spec fn contains_spec(s: PipeWireSnapshot, node: NodeIdView) -> bool {
    if node.kind == "pipewire"@ {
        node.local == "default"@ || node.local == "sink"@ || node.local == "source"@
    } else if node.kind == "pipewire-sink"@ {
        endpoints_of(s.sinks).contains_key(node.local)
    } else if node.kind == "pipewire-source"@ {
        endpoints_of(s.sources).contains_key(node.local)
    } else {
        false
    }
}

/// The endpoint nodes of a run of ids.
pub open spec fn endpoint_nodes_of(kind: Seq<char>, ids: Seq<Seq<char>>) -> Seq<NodeIdView> {
    ids.map_values(|id: Seq<char>| endpoint_view(kind, id))
}

/// The nodes of a kind, in order.
pub open spec fn nodes_spec(s: PipeWireSnapshot, kind: Seq<char>) -> Seq<NodeIdView> {
    if kind == "pipewire"@ {
        seq![facade_view("default"@), facade_view("sink"@), facade_view("source"@)]
    } else if kind == "pipewire-sink"@ {
        endpoint_nodes_of(kind, s.sinks.keys())
    } else if kind == "pipewire-source"@ {
        endpoint_nodes_of(kind, s.sources.keys())
    } else {
        Seq::empty()
    }
}

/// The properties of a node, or `None` when it does not exist.
pub open spec fn node_properties_spec(s: PipeWireSnapshot, node: NodeIdView) -> Option<
    Map<Seq<char>, ValueModel>,
> {
    if node.kind == "pipewire"@ && (node.local == "default"@ || node.local == "sink"@
        || node.local == "source"@) {
        Some(facade_properties_spec(node.local))
    } else if node.kind == "pipewire-sink"@ && endpoints_of(s.sinks).contains_key(node.local) {
        Some(endpoint_properties_spec(endpoints_of(s.sinks)[node.local]))
    } else if node.kind == "pipewire-source"@ && endpoints_of(s.sources).contains_key(
        node.local,
    ) {
        Some(endpoint_properties_spec(endpoints_of(s.sources)[node.local]))
    } else {
        None
    }
}

/// The first default whose endpoint id is not a valid node id, if any:
/// the default node's relations fail on it.
pub open spec fn default_error_spec(s: PipeWireSnapshot) -> Option<Seq<char>> {
    match opt_text(s.default_sink) {
        Some(id) if !valid_identifier(IdentifierClass::NodeLocalId, id) => Some(id),
        _ => match opt_text(s.default_source) {
            Some(id) if !valid_identifier(IdentifierClass::NodeLocalId, id) => Some(id),
            _ => None,
        },
    }
}

/// The relations of a set's node: each endpoint id to that endpoint.
pub open spec fn set_relations(kind: Seq<char>, m: Map<Seq<char>, AudioEndpointView>) -> Map<
    Seq<char>,
    Seq<NodeIdView>,
> {
    Map::new(|id: Seq<char>| m.contains_key(id), |id: Seq<char>| seq![endpoint_view(kind, id)])
}

/// The relations of the default node: `sink` and `source` to the default
/// endpoints, where there are.
pub open spec fn default_relations(s: PipeWireSnapshot) -> Map<Seq<char>, Seq<NodeIdView>> {
    let a = match opt_text(s.default_sink) {
        Some(id) => Map::<Seq<char>, Seq<NodeIdView>>::empty().insert(
            "sink"@,
            seq![endpoint_view("pipewire-sink"@, id)],
        ),
        None => Map::<Seq<char>, Seq<NodeIdView>>::empty(),
    };
    match opt_text(s.default_source) {
        Some(id) => a.insert("source"@, seq![endpoint_view("pipewire-source"@, id)]),
        None => a,
    }
}

/// The relations of a node, or `None` when it does not exist.
pub open spec fn node_relations_spec(s: PipeWireSnapshot, node: NodeIdView) -> Option<
    Map<Seq<char>, Seq<NodeIdView>>,
> {
    if node == facade_view("default"@) {
        Some(default_relations(s))
    } else if node == facade_view("sink"@) {
        Some(set_relations("pipewire-sink"@, endpoints_of(s.sinks)))
    } else if node == facade_view("source"@) {
        Some(set_relations("pipewire-source"@, endpoints_of(s.sources)))
    } else if (node.kind == "pipewire-sink"@ && endpoints_of(s.sinks).contains_key(node.local)) || (
    node.kind == "pipewire-source"@ && endpoints_of(s.sources).contains_key(node.local)) {
        Some(Map::empty())
    } else {
        None
    }
}

/// The error of a query on the relations of a node: the identifier error
/// of an invalid default id on the default node.
pub open spec fn relation_error(s: PipeWireSnapshot, node: NodeIdView, e: GraphError) -> bool {
    &&& node == facade_view("default"@)
    &&& default_error_spec(s) is Some
    &&& identifier_error(IdentifierClass::NodeLocalId, default_error_spec(s)->0, e)
}

/// The PipeWire part of the graph.
pub struct PipeWireState {
    snapshot: PipeWireSnapshot,
}

impl PipeWireSnapshot {
    /// A snapshot with no endpoints and no defaults.
    pub fn new() -> (r: PipeWireSnapshot)
        ensures
            endpoints_of(r.sinks) == Map::<Seq<char>, AudioEndpointView>::empty(),
            endpoints_of(r.sources) == Map::<Seq<char>, AudioEndpointView>::empty(),
            r.default_sink is None,
            r.default_source is None,
    {
        let r = PipeWireSnapshot {
            default_sink: None,
            default_source: None,
            sinks: TextMap::new(),
            sources: TextMap::new(),
        };
        assert(endpoints_of(r.sinks) =~= Map::<Seq<char>, AudioEndpointView>::empty());
        assert(endpoints_of(r.sources) =~= Map::<Seq<char>, AudioEndpointView>::empty());
        r
    }
}

impl PipeWireState {
    /// The snapshot the state projects.
    pub closed spec fn snapshot_spec(&self) -> PipeWireSnapshot {
        self.snapshot
    }

    #[verifier::type_invariant]
    closed spec fn well_formed(&self) -> bool {
        ids_valid(self.snapshot)
    }

    /// A state with no endpoints.
    pub fn new() -> (r: PipeWireState)
        ensures
            endpoints_of(r.snapshot_spec().sinks) == Map::<Seq<char>, AudioEndpointView>::empty(),
            endpoints_of(r.snapshot_spec().sources) == Map::<
                Seq<char>,
                AudioEndpointView,
            >::empty(),
            r.snapshot_spec().default_sink is None,
            r.snapshot_spec().default_source is None,
    {
        PipeWireState { snapshot: PipeWireSnapshot::new() }
    }

    /// Replaces the snapshot, reporting what changed. Fails, leaving the
    /// state as it was, when an arriving endpoint id is not a valid node id.
    pub fn apply_snapshot(&mut self, snapshot: PipeWireSnapshot) -> (r: Result<Vec<GraphChange>>)
        ensures
            match first_invalid_snapshot(old(self).snapshot_spec(), snapshot) {
                Some(id) => r matches Err(e) && identifier_error(
                    IdentifierClass::NodeLocalId,
                    id,
                    e,
                ) && final(self).snapshot_spec() == old(self).snapshot_spec(),
                None => r matches Ok(changes) && change_models(changes@) == snapshot_changes_spec(
                    old(self).snapshot_spec(),
                    snapshot,
                ) && final(self).snapshot_spec() == snapshot,
            },
    {
        proof {
            use_type_invariant(&*self);
        }
        proof {
            use_type_invariant(&snapshot.sinks);
            use_type_invariant(&snapshot.sources);
        }
        let changes = snapshot_changes(&self.snapshot, &snapshot);
        match changes {
            Ok(changes) => {
                proof {
                    lemma_first_invalid_none(
                        snapshot.sinks.keys(),
                        endpoints_of(self.snapshot.sinks),
                    );
                    lemma_first_invalid_none(
                        snapshot.sources.keys(),
                        endpoints_of(self.snapshot.sources),
                    );
                    lemma_endpoint_keys(snapshot.sinks);
                    lemma_endpoint_keys(snapshot.sources);
                    assert forall|id: Seq<char>| #[trigger]
                        endpoints_of(snapshot.sinks).contains_key(id) implies valid_identifier(
                        IdentifierClass::NodeLocalId,
                        id,
                    ) by {
                        let i = choose|i: int|
                            0 <= i < snapshot.sinks.keys().len() && snapshot.sinks.keys()[i]
                                == id;
                        assert(endpoints_of(self.snapshot.sinks).contains_key(
                            snapshot.sinks.keys()[i],
                        ) || valid_identifier(
                            IdentifierClass::NodeLocalId,
                            snapshot.sinks.keys()[i],
                        ));
                    }
                    assert forall|id: Seq<char>| #[trigger]
                        endpoints_of(snapshot.sources).contains_key(id) implies valid_identifier(
                        IdentifierClass::NodeLocalId,
                        id,
                    ) by {
                        let i = choose|i: int|
                            0 <= i < snapshot.sources.keys().len() && snapshot.sources.keys()[i]
                                == id;
                        assert(endpoints_of(self.snapshot.sources).contains_key(
                            snapshot.sources.keys()[i],
                        ) || valid_identifier(
                            IdentifierClass::NodeLocalId,
                            snapshot.sources.keys()[i],
                        ));
                    }
                }
                self.snapshot = snapshot;
                Ok(changes)
            },
            Err(e) => Err(e),
        }
    }

    /// Whether a node exists.
    pub fn contains_node(&self, node: &NodeId) -> (r: Result<bool>)
        ensures
            r matches Ok(b) && b == contains_spec(self.snapshot_spec(), node@),
    {
        let kind = node.kind().as_str();
        let local = node.local();
        if text_eq(kind, PIPEWIRE_KIND) {
            Ok(text_eq(local, DEFAULT_NODE) || text_eq(local, SINK_NODE) || text_eq(
                local,
                SOURCE_NODE,
            ))
        } else if text_eq(kind, PIPEWIRE_SINK_KIND) {
            Ok(self.snapshot.sinks.contains_key(local))
        } else if text_eq(kind, PIPEWIRE_SOURCE_KIND) {
            Ok(self.snapshot.sources.contains_key(local))
        } else {
            Ok(false)
        }
    }

    /// The nodes of an endpoint set, in id order.
    fn set_nodes(m: &TextMap<String, AudioEndpoint>, kind: &str) -> (r: Vec<NodeId>)
        requires
            ids_valid_in(endpoints_of(*m)),
            valid_identifier(IdentifierClass::NodeKind, kind@),
        ensures
            node_views(r@) == endpoint_nodes_of(kind@, m.keys()),
    {
        let n = m.len();
        let ghost ks = m.keys();
        proof {
            lemma_endpoint_keys(*m);
        }
        let mut out: Vec<NodeId> = Vec::new();
        let mut i: usize = 0;
        assert(node_views(out@) =~= endpoint_nodes_of(kind@, ks.take(0)));
        while i < n
            invariant
                n == ks.len(),
                ks == m.keys(),
                ids_valid_in(endpoints_of(*m)),
                valid_identifier(IdentifierClass::NodeKind, kind@),
                forall|j: int| 0 <= j < ks.len() ==> #[trigger] endpoints_of(*m).contains_key(
                    ks[j],
                ),
                i <= n,
                node_views(out@) == endpoint_nodes_of(kind@, ks.take(i as int)),
            decreases n - i,
        {
            let id = m.key_at(i);
            assert(id@ == ks[i as int]);
            assert(endpoints_of(*m).contains_key(ks[i as int]));
            let node = known_node(kind, id.as_str());
            proof {
                lemma_node_views_push(out@, node);
                assert(endpoint_nodes_of(kind@, ks.take(i + 1)) =~= endpoint_nodes_of(
                    kind@,
                    ks.take(i as int),
                ).push(endpoint_view(kind@, ks[i as int])));
            }
            out.push(node);
            i += 1;
        }
        assert(ks.take(n as int) =~= ks);
        out
    }

    /// The nodes of a kind, in order.
    pub fn nodes(&self, kind: &NodeKind) -> (r: Result<Vec<NodeId>>)
        ensures
            r matches Ok(v) && node_views(v@) == nodes_spec(self.snapshot_spec(), kind@),
    {
        proof {
            use_type_invariant(self);
            reveal_strlit("pipewire");
            reveal_strlit("pipewire-sink");
            reveal_strlit("pipewire-source");
            reveal_strlit("default");
            reveal_strlit("sink");
            reveal_strlit("source");
        }
        if text_eq(kind.as_str(), PIPEWIRE_KIND) {
            let mut out: Vec<NodeId> = Vec::new();
            out.push(known_node(PIPEWIRE_KIND, DEFAULT_NODE));
            out.push(known_node(PIPEWIRE_KIND, SINK_NODE));
            out.push(known_node(PIPEWIRE_KIND, SOURCE_NODE));
            assert(node_views(out@) =~= seq![
                facade_view("default"@),
                facade_view("sink"@),
                facade_view("source"@),
            ]);
            Ok(out)
        } else if text_eq(kind.as_str(), PIPEWIRE_SINK_KIND) {
            Ok(Self::set_nodes(&self.snapshot.sinks, PIPEWIRE_SINK_KIND))
        } else if text_eq(kind.as_str(), PIPEWIRE_SOURCE_KIND) {
            Ok(Self::set_nodes(&self.snapshot.sources, PIPEWIRE_SOURCE_KIND))
        } else {
            let out: Vec<NodeId> = Vec::new();
            assert(node_views(out@) =~= Seq::<NodeIdView>::empty());
            Ok(out)
        }
    }

    /// The properties of a node, or `None` when it does not exist.
    fn node_properties(&self, node: &NodeId) -> (r: Option<PropertyMap>)
        ensures
            props_option(r) == node_properties_spec(self.snapshot_spec(), node@),
    {
        proof {
            reveal_strlit("pipewire");
            reveal_strlit("pipewire-sink");
            reveal_strlit("pipewire-source");
        }
        let kind = node.kind().as_str();
        let local = node.local();
        if text_eq(kind, PIPEWIRE_KIND) && (text_eq(local, DEFAULT_NODE) || text_eq(
            local,
            SINK_NODE,
        ) || text_eq(local, SOURCE_NODE)) {
            Some(facade_properties(local))
        } else if text_eq(kind, PIPEWIRE_SINK_KIND) {
            match self.snapshot.sinks.get(local) {
                Some(e) => Some(endpoint_properties(e)),
                None => None,
            }
        } else if text_eq(kind, PIPEWIRE_SOURCE_KIND) {
            match self.snapshot.sources.get(local) {
                Some(e) => Some(endpoint_properties(e)),
                None => None,
            }
        } else {
            None
        }
    }

    /// The relations of a set's node.
    fn set_relation_map(m: &TextMap<String, AudioEndpoint>, kind: &str) -> (r: RelationMap)
        requires
            ids_valid_in(endpoints_of(*m)),
            valid_identifier(IdentifierClass::NodeKind, kind@),
        ensures
            relation_models(r) == set_relations(kind@, endpoints_of(*m)),
    {
        let n = m.len();
        let ghost ks = m.keys();
        let ghost pm = endpoints_of(*m);
        proof {
            lemma_endpoint_keys(*m);
        }
        let mut out: RelationMap = TextMap::new();
        let mut i: usize = 0;
        while i < n
            invariant
                n == ks.len(),
                ks == m.keys(),
                pm == endpoints_of(*m),
                ids_valid_in(pm),
                valid_identifier(IdentifierClass::NodeKind, kind@),
                forall|j: int| 0 <= j < ks.len() ==> #[trigger] pm.contains_key(ks[j]),
                i <= n,
                forall|k: Seq<char>| #[trigger]
                    relation_models(out).contains_key(k) <==> exists|j: int|
                        0 <= j < i && ks[j] == k,
                forall|k: Seq<char>| #[trigger]
                    relation_models(out).contains_key(k) ==> relation_models(out)[k] == seq![
                        endpoint_view(kind@, k),
                    ],
            decreases n - i,
        {
            let id = m.key_at(i);
            assert(id@ == ks[i as int]);
            assert(pm.contains_key(ks[i as int]));
            let target = known_node(kind, id.as_str());
            let relation = id_relation(id.as_str());
            let mut targets: Vec<NodeId> = Vec::new();
            targets.push(target);
            let ghost tv = targets@;
            let ghost rk = relation@;
            assert(node_views(tv) =~= seq![endpoint_view(kind@, id@)]);
            let ghost old_m = relation_models(out);
            out.insert(relation, targets);
            proof {
                assert(relation_models(out) =~= old_m.insert(rk, seq![endpoint_view(kind@, rk)]));
                assert forall|k: Seq<char>| #[trigger]
                    relation_models(out).contains_key(k) <==> exists|j: int|
                        0 <= j < i + 1 && ks[j] == k by {
                    if k == id@ {
                        assert(ks[i as int] == k);
                    } else if exists|j: int| 0 <= j < i + 1 && ks[j] == k {
                        let j = choose|j: int| 0 <= j < i + 1 && ks[j] == k;
                        assert(j != i);
                    }
                }
            }
            i += 1;
        }
        proof {
            let expected = set_relations(kind@, pm);
            assert forall|k: Seq<char>| #[trigger]
                relation_models(out).contains_key(k) == expected.contains_key(k) by {
                if pm.contains_key(k) {
                    let j = choose|j: int| 0 <= j < ks.len() && ks[j] == k;
                }
            }
            assert(relation_models(out) =~= expected);
        }
        out
    }

    /// The relations of the default node, or the error of an invalid
    /// default id.
    fn default_relation_map(&self) -> (r: Result<RelationMap>)
        ensures
            match default_error_spec(self.snapshot_spec()) {
                Some(id) => r matches Err(e) && identifier_error(
                    IdentifierClass::NodeLocalId,
                    id,
                    e,
                ),
                None => r matches Ok(m) && relation_models(m) == default_relations(
                    self.snapshot_spec(),
                ),
            },
    {
        proof {
            reveal_strlit("sink");
            reveal_strlit("source");
            reveal_strlit("pipewire-sink");
            reveal_strlit("pipewire-source");
        }
        assert(valid_identifier(IdentifierClass::NodeKind, "pipewire-sink"@)) by {
            assert(!"pipewire-sink"@.contains('\0'));
            assert(!"pipewire-sink"@.contains(':'));
        }
        assert(valid_identifier(IdentifierClass::NodeKind, "pipewire-source"@)) by {
            assert(!"pipewire-source"@.contains('\0'));
            assert(!"pipewire-source"@.contains(':'));
        }
        let mut out: RelationMap = TextMap::new();
        assert(relation_models(out) =~= Map::<Seq<char>, Seq<NodeIdView>>::empty());
        if let Some(id) = &self.snapshot.default_sink {
            let target = NodeId::from_parts(PIPEWIRE_SINK_KIND, id.as_str())?;
            let mut targets: Vec<NodeId> = Vec::new();
            targets.push(target);
            assert(node_views(targets@) =~= seq![endpoint_view("pipewire-sink"@, id@)]);
            let ghost before = relation_models(out);
            out.insert(known_relation_text(SINK_RELATION), targets);
            assert(relation_models(out) =~= before.insert(
                "sink"@,
                seq![endpoint_view("pipewire-sink"@, id@)],
            ));
        }
        let ghost a = relation_models(out);
        if let Some(id) = &self.snapshot.default_source {
            let target = NodeId::from_parts(PIPEWIRE_SOURCE_KIND, id.as_str())?;
            let mut targets: Vec<NodeId> = Vec::new();
            targets.push(target);
            assert(node_views(targets@) =~= seq![endpoint_view("pipewire-source"@, id@)]);
            out.insert(known_relation_text(SOURCE_RELATION), targets);
            assert(relation_models(out) =~= a.insert(
                "source"@,
                seq![endpoint_view("pipewire-source"@, id@)],
            ));
        }
        Ok(out)
    }

    /// The relations of a node, `None` when it does not exist.
    fn node_relations(&self, node: &NodeId) -> (r: Result<Option<RelationMap>>)
        ensures
            match r {
                Ok(m) => rels_option(m) == node_relations_spec(self.snapshot_spec(), node@) && !(
                node@ == facade_view("default"@) && default_error_spec(
                    self.snapshot_spec(),
                ) is Some),
                Err(e) => relation_error(self.snapshot_spec(), node@, e),
            },
    {
        proof {
            use_type_invariant(self);
            reveal_strlit("pipewire");
            reveal_strlit("pipewire-sink");
            reveal_strlit("pipewire-source");
            reveal_strlit("default");
            reveal_strlit("sink");
            reveal_strlit("source");
        }
        let kind = node.kind().as_str();
        let local = node.local();
        if text_eq(kind, PIPEWIRE_KIND) && text_eq(local, DEFAULT_NODE) {
            match self.default_relation_map() {
                Ok(m) => Ok(Some(m)),
                Err(e) => Err(e),
            }
        } else if text_eq(kind, PIPEWIRE_KIND) && text_eq(local, SINK_NODE) {
            Ok(Some(Self::set_relation_map(&self.snapshot.sinks, PIPEWIRE_SINK_KIND)))
        } else if text_eq(kind, PIPEWIRE_KIND) && text_eq(local, SOURCE_NODE) {
            Ok(Some(Self::set_relation_map(&self.snapshot.sources, PIPEWIRE_SOURCE_KIND)))
        } else if (text_eq(kind, PIPEWIRE_SINK_KIND) && self.snapshot.sinks.contains_key(local)) || (
        text_eq(kind, PIPEWIRE_SOURCE_KIND) && self.snapshot.sources.contains_key(local)) {
            let m: RelationMap = TextMap::new();
            assert(relation_models(m) =~= Map::<Seq<char>, Seq<NodeIdView>>::empty());
            Ok(Some(m))
        } else {
            Ok(None)
        }
    }

    /// The spec of a node's property; all PipeWire properties are read-only.
    pub fn property_spec(&self, subject: &NodeId, key: &PropertyKey) -> (r: Result<PropertySpec>)
        ensures
            property_spec_result(
                ReadOnlyAccess,
                node_properties_spec(self.snapshot_spec(), subject@),
                subject@,
                key@,
                r,
            ),
    {
        answer_property_spec(&ReadOnlyAccess, self.node_properties(subject), subject, key)
    }

    /// The specs of a node's properties, in key order.
    pub fn properties(&self, subject: &NodeId) -> (r: Result<Vec<PropertySpec>>)
        ensures
            properties_result(
                ReadOnlyAccess,
                node_properties_spec(self.snapshot_spec(), subject@),
                subject@,
                r,
            ),
    {
        answer_properties(&ReadOnlyAccess, self.node_properties(subject), subject)
    }

    /// The value of a node's property.
    pub fn property(&self, subject: &NodeId, key: &PropertyKey) -> (r: Result<LocusValue>)
        ensures
            property_result(node_properties_spec(self.snapshot_spec(), subject@), subject@, key@, r),
    {
        answer_property(self.node_properties(subject), subject, key)
    }

    /// The relation names of a node, in order.
    pub fn relations(&self, source: &NodeId) -> (r: Result<Vec<RelationName>>)
        ensures
            if source@ == facade_view("default"@) && default_error_spec(self.snapshot_spec()) is Some {
                r matches Err(e) && relation_error(self.snapshot_spec(), source@, e)
            } else {
                relations_result(node_relations_spec(self.snapshot_spec(), source@), source@, r)
            },
    {
        match self.node_relations(source) {
            Ok(m) => answer_relations(m, source),
            Err(e) => Err(e),
        }
    }

    /// The targets of a node's relation.
    pub fn targets(&self, source: &NodeId, relation: &RelationName) -> (r: Result<Vec<NodeId>>)
        ensures
            if source@ == facade_view("default"@) && default_error_spec(self.snapshot_spec()) is Some {
                r matches Err(e) && relation_error(self.snapshot_spec(), source@, e)
            } else {
                targets_result(
                    node_relations_spec(self.snapshot_spec(), source@),
                    source@,
                    relation@,
                    r,
                )
            },
    {
        match self.node_relations(source) {
            Ok(m) => answer_targets(m, source, relation),
            Err(e) => Err(e),
        }
    }
}

/// A relation name from a text known to be `sink` or `source`.
fn known_relation_text(name: &str) -> (r: RelationName)
    requires
        name@ == "sink"@ || name@ == "source"@,
    ensures
        r@ == name@,
{
    proof {
        reveal_strlit("sink");
        reveal_strlit("source");
    }
    match RelationName::new(name) {
        Ok(r) => r,
        Err(_) => vstd::pervasive::unreached(),
    }
}

proof fn lemma_nothing_removed(
    keys: Seq<Seq<char>>,
    m: Map<Seq<char>, AudioEndpointView>,
    kind: Seq<char>,
    facade: Seq<char>,
)
    requires
        forall|i: int| 0 <= i < keys.len() ==> m.contains_key(#[trigger] keys[i]),
    ensures
        removed_changes(keys, m, kind, facade) == Seq::<ChangeModel>::empty(),
        added_changes(keys, m, kind, facade) == Seq::<ChangeModel>::empty(),
        kept_changes(keys, m, m, kind) == Seq::<ChangeModel>::empty(),
    decreases keys.len(),
{
    if keys.len() > 0 {
        assert forall|i: int| 0 <= i < keys.drop_last().len() implies m.contains_key(
            #[trigger] keys.drop_last()[i],
        ) by {
            assert(keys.drop_last()[i] == keys[i]);
        }
        lemma_nothing_removed(keys.drop_last(), m, kind, facade);
        assert(m.contains_key(keys[keys.len() - 1]));
        assert(removed_changes(keys, m, kind, facade) =~= Seq::<ChangeModel>::empty());
        assert(added_changes(keys, m, kind, facade) =~= Seq::<ChangeModel>::empty());
        assert(kept_changes(keys, m, m, kind) =~= Seq::<ChangeModel>::empty());
    }
}

/// Replacing a snapshot by itself reports no change.
pub proof fn lemma_same_snapshot_reports_nothing(s: PipeWireSnapshot)
    requires
        sorted_by_key(s.sinks.entries()),
        sorted_by_key(s.sources.entries()),
    ensures
        snapshot_changes_spec(s, s) == Seq::<ChangeModel>::empty(),
{
    lemma_endpoint_keys(s.sinks);
    lemma_endpoint_keys(s.sources);
    lemma_nothing_removed(s.sinks.keys(), endpoints_of(s.sinks), "pipewire-sink"@, "sink"@);
    lemma_nothing_removed(s.sources.keys(), endpoints_of(s.sources), "pipewire-source"@, "source"@);
    assert(snapshot_changes_spec(s, s) =~= Seq::<ChangeModel>::empty());
}

} // verus!
