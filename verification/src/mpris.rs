//! MPRIS media players projected into the graph: a facade node
//! `mpris:player` related to one `mpris-player` node per player.
use vstd::prelude::*;

use crate::change::{change_models, lemma_change_models_push, ChangeModel, GraphChange};
use crate::error::Result;
use crate::identity::{
    identifier_error, valid_identifier, IdentifierClass, NodeId, NodeIdView, NodeKind, PathName,
    PropertyKey, RelationName,
};
use crate::path::{
    ChildModel, DirectoryModel, EntryModel, GraphPathChild, GraphPathDirectory, GraphPathEntry,
    GraphWatchTarget, WatchModel,
};
use crate::projection::{
    answer_properties, answer_property, answer_property_spec, answer_relations, answer_targets,
    changed_keys, changed_keys_spec, known_kind, lemma_node_views_push, node_views, properties_result, property_models,
    property_result, property_spec_result, props_option, put, relation_models, relations_result,
    rels_option, targets_result, PropertyMap, ReadOnlyAccess, RelationMap, lemma_map_keys_sorted,
    lemma_strictly_sorted_no_duplicates,
};
use crate::text::{
    chars_of, i64_text, owned, push_char, signed_decimal, strip_prefix, text_eq, has_prefix,
};
use crate::text_map::{lemma_entries_map_at, sorted_by_key, TextKey, TextMap};
use crate::value::{LocusValue, PropertySpec, ValueModel};

verus! {

pub const MPRIS_KIND: &'static str = "mpris";

pub const MPRIS_PLAYER_KIND: &'static str = "mpris-player";

pub const PLAYER_NODE: &'static str = "player";

const SOURCE: &'static str = "mpris";

const SERVICE_PREFIX: &'static str = "org.mpris.MediaPlayer2.";

/// The MPRIS plugin.
#[derive(Debug, Default)]
pub struct MprisPlugin;

/// The MPRIS runtime that watches the session bus for players.
#[derive(Debug, Default)]
pub struct MprisRuntime;

/// One media player.
#[derive(Debug, Default, PartialEq)]
pub struct MprisPlayer {
    pub id: String,
    pub service_name: String,
    pub playerctl_name: String,
    pub identity: String,
    pub artist: String,
    pub title: String,
    pub album: String,
    pub art_url: String,
    pub playback_status: String,
    pub can_play: bool,
    pub can_pause: bool,
    pub can_go_next: bool,
    pub can_go_previous: bool,
    pub length_us: Option<i64>,
}

/// The abstract value of a player.
pub struct MprisPlayerView {
    pub id: Seq<char>,
    pub service_name: Seq<char>,
    pub playerctl_name: Seq<char>,
    pub identity: Seq<char>,
    pub artist: Seq<char>,
    pub title: Seq<char>,
    pub album: Seq<char>,
    pub art_url: Seq<char>,
    pub playback_status: Seq<char>,
    pub can_play: bool,
    pub can_pause: bool,
    pub can_go_next: bool,
    pub can_go_previous: bool,
    pub length_us: Option<i64>,
}

impl View for MprisPlayer {
    type V = MprisPlayerView;

    open spec fn view(&self) -> MprisPlayerView {
        MprisPlayerView {
            id: self.id@,
            service_name: self.service_name@,
            playerctl_name: self.playerctl_name@,
            identity: self.identity@,
            artist: self.artist@,
            title: self.title@,
            album: self.album@,
            art_url: self.art_url@,
            playback_status: self.playback_status@,
            can_play: self.can_play,
            can_pause: self.can_pause,
            can_go_next: self.can_go_next,
            can_go_previous: self.can_go_previous,
            length_us: self.length_us,
        }
    }
}

/// All players, keyed by player id.
pub struct MprisSnapshot {
    pub players: TextMap<String, MprisPlayer>,
}

/// The MPRIS part of the graph.
pub struct MprisState {
    snapshot: MprisSnapshot,
}

/// The properties of a player, keyed by property key.
pub open spec fn player_properties_spec(p: MprisPlayerView) -> Map<Seq<char>, ValueModel> {
    let base = Map::<Seq<char>, ValueModel>::empty().insert("id"@, ValueModel::Text(p.id)).insert(
        "source"@,
        ValueModel::Text("mpris"@),
    ).insert("service-name"@, ValueModel::Text(p.service_name)).insert(
        "playerctl-name"@,
        ValueModel::Text(p.playerctl_name),
    ).insert("identity"@, ValueModel::Text(p.identity)).insert(
        "artist"@,
        ValueModel::Text(p.artist),
    ).insert("title"@, ValueModel::Text(p.title)).insert("album"@, ValueModel::Text(p.album)).insert(
        "art-url"@,
        ValueModel::Text(p.art_url),
    ).insert("playback-status"@, ValueModel::Text(p.playback_status)).insert(
        "can-play"@,
        ValueModel::Bool(p.can_play),
    ).insert("can-pause"@, ValueModel::Bool(p.can_pause)).insert(
        "can-go-next"@,
        ValueModel::Bool(p.can_go_next),
    ).insert("can-go-previous"@, ValueModel::Bool(p.can_go_previous));
    match p.length_us {
        Some(l) => base.insert("length-us"@, ValueModel::Text(signed_decimal(l as int))),
        None => base,
    }
}

/// The facade node `mpris:player`.
pub open spec fn facade_view() -> NodeIdView {
    NodeIdView { kind: "mpris"@, local: "player"@ }
}

/// The node of the player with id `id`.
pub open spec fn player_view(id: Seq<char>) -> NodeIdView {
    NodeIdView { kind: "mpris-player"@, local: id }
}

/// Players keyed by id, as the snapshot holds them.
pub open spec fn players_of(s: MprisSnapshot) -> Map<Seq<char>, MprisPlayerView> {
    s.players.map().map_values(|p: MprisPlayer| p@)
}

/// Whether a node exists.
pub open spec fn contains_spec(s: MprisSnapshot, node: NodeIdView) -> bool {
    if node.kind == "mpris"@ {
        node.local == "player"@
    } else if node.kind == "mpris-player"@ {
        players_of(s).contains_key(node.local)
    } else {
        false
    }
}

/// The player nodes of a run of ids.
pub open spec fn player_nodes_of(ids: Seq<Seq<char>>) -> Seq<NodeIdView> {
    ids.map_values(|id: Seq<char>| player_view(id))
}

/// The facade's directory entries for a run of ids.
pub open spec fn player_children_of(ids: Seq<Seq<char>>) -> Seq<ChildModel> {
    ids.map_values(
        |id: Seq<char>|
            ChildModel {
                name: id,
                entry: EntryModel::Directory(DirectoryModel::Node(player_view(id))),
            },
    )
}

proof fn lemma_ids_take(ids: Seq<Seq<char>>, i: int)
    requires
        0 <= i < ids.len(),
    ensures
        player_nodes_of(ids.take(i + 1)) == player_nodes_of(ids.take(i)).push(player_view(ids[i])),
        player_children_of(ids.take(i + 1)) == player_children_of(ids.take(i)).push(
            ChildModel {
                name: ids[i],
                entry: EntryModel::Directory(DirectoryModel::Node(player_view(ids[i]))),
            },
        ),
        ids.take(i + 1).drop_last() == ids.take(i),
        ids.take(i + 1).last() == ids[i],
{
    assert(player_nodes_of(ids.take(i + 1)) =~= player_nodes_of(ids.take(i)).push(
        player_view(ids[i]),
    ));
    assert(player_children_of(ids.take(i + 1)) =~= player_children_of(ids.take(i)).push(
        ChildModel {
            name: ids[i],
            entry: EntryModel::Directory(DirectoryModel::Node(player_view(ids[i]))),
        },
    ));
    assert(ids.take(i + 1).drop_last() =~= ids.take(i));
}

proof fn lemma_property_changes_take(node: NodeIdView, keys: Seq<Seq<char>>, i: int)
    requires
        0 <= i < keys.len(),
    ensures
        property_changes(node, keys.take(i + 1)) == property_changes(node, keys.take(i)).push(
            ChangeModel::PropertyChanged(node, keys[i]),
        ),
{
    assert(property_changes(node, keys.take(i + 1)) =~= property_changes(node, keys.take(i)).push(
        ChangeModel::PropertyChanged(node, keys[i]),
    ));
}

/// The nodes of a kind, in order.
pub open spec fn nodes_spec(s: MprisSnapshot, kind: Seq<char>) -> Seq<NodeIdView> {
    if kind == "mpris"@ {
        seq![facade_view()]
    } else if kind == "mpris-player"@ {
        player_nodes_of(s.players.keys())
    } else {
        Seq::empty()
    }
}

/// The properties of a node, or `None` when the node does not exist.
pub open spec fn node_properties_spec(s: MprisSnapshot, node: NodeIdView) -> Option<
    Map<Seq<char>, ValueModel>,
> {
    if node == facade_view() {
        Some(Map::empty())
    } else if node.kind == "mpris-player"@ && players_of(s).contains_key(node.local) {
        Some(player_properties_spec(players_of(s)[node.local]))
    } else {
        None
    }
}

/// The relations of a node, or `None` when the node does not exist: the
/// facade relates each player id to that player's node.
pub open spec fn node_relations_spec(s: MprisSnapshot, node: NodeIdView) -> Option<
    Map<Seq<char>, Seq<NodeIdView>>,
> {
    if node == facade_view() {
        Some(
            Map::new(
                |id: Seq<char>| players_of(s).contains_key(id),
                |id: Seq<char>| seq![player_view(id)],
            ),
        )
    } else if node.kind == "mpris-player"@ && players_of(s).contains_key(node.local) {
        Some(Map::empty())
    } else {
        None
    }
}

/// The entry a name resolves to under a directory: under the facade, each
/// player id names that player's node.
pub open spec fn lookup_child_spec(s: MprisSnapshot, parent: DirectoryModel, name: Seq<char>) -> Option<
    EntryModel,
> {
    if parent == DirectoryModel::Node(facade_view()) && players_of(s).contains_key(name) {
        Some(EntryModel::Directory(DirectoryModel::Node(player_view(name))))
    } else {
        None
    }
}

/// The children of a directory: under the facade, one per player, in id order.
pub open spec fn children_spec(s: MprisSnapshot, parent: DirectoryModel) -> Option<Seq<ChildModel>> {
    if parent == DirectoryModel::Node(facade_view()) {
        Some(player_children_of(s.players.keys()))
    } else {
        None
    }
}

pub open spec fn entry_option(e: Option<GraphPathEntry>) -> Option<EntryModel> {
    match e {
        Some(x) => Some(x@),
        None => None,
    }
}

pub open spec fn children_option(c: Option<Vec<GraphPathChild>>) -> Option<Seq<ChildModel>> {
    match c {
        Some(v) => Some(v@.map_values(|x: GraphPathChild| x@)),
        None => None,
    }
}

pub open spec fn target_option(t: Option<GraphWatchTarget>) -> Option<WatchModel> {
    match t {
        Some(x) => Some(x@),
        None => None,
    }
}

/// Every player id names a valid node.
pub open spec fn ids_valid(s: MprisSnapshot) -> bool {
    forall|id: Seq<char>| #[trigger]
        players_of(s).contains_key(id) ==> valid_identifier(IdentifierClass::NodeLocalId, id)
}

/// Changes for the ids that leave: each player node and its facade relation.
pub open spec fn removed_changes(keys: Seq<Seq<char>>, new: Map<Seq<char>, MprisPlayerView>) -> Seq<
    ChangeModel,
>
    decreases keys.len(),
{
    if keys.len() == 0 {
        Seq::empty()
    } else {
        removed_changes(keys.drop_last(), new) + if new.contains_key(keys.last()) {
            Seq::empty()
        } else {
            seq![
                ChangeModel::NodeRemoved(player_view(keys.last())),
                ChangeModel::RelationRemoved(facade_view(), keys.last()),
            ]
        }
    }
}

/// Changes for the ids that arrive.
pub open spec fn added_changes(keys: Seq<Seq<char>>, old: Map<Seq<char>, MprisPlayerView>) -> Seq<
    ChangeModel,
>
    decreases keys.len(),
{
    if keys.len() == 0 {
        Seq::empty()
    } else {
        added_changes(keys.drop_last(), old) + if old.contains_key(keys.last()) {
            Seq::empty()
        } else {
            seq![
                ChangeModel::NodeAdded(player_view(keys.last())),
                ChangeModel::RelationAdded(facade_view(), keys.last()),
            ]
        }
    }
}

/// Property changes of one node.
pub open spec fn property_changes(node: NodeIdView, keys: Seq<Seq<char>>) -> Seq<ChangeModel> {
    keys.map_values(|k: Seq<char>| ChangeModel::PropertyChanged(node, k))
}

/// Changes for one player present before and after.
pub open spec fn kept_change(id: Seq<char>, old: MprisPlayerView, new: MprisPlayerView) -> Seq<
    ChangeModel,
> {
    if old != new {
        seq![ChangeModel::NodeChanged(player_view(id))] + property_changes(
            player_view(id),
            changed_keys_spec(player_properties_spec(old), player_properties_spec(new)),
        )
    } else {
        Seq::empty()
    }
}

/// Changes for the ids present before and after.
pub open spec fn kept_changes(
    keys: Seq<Seq<char>>,
    old: Map<Seq<char>, MprisPlayerView>,
    new: Map<Seq<char>, MprisPlayerView>,
) -> Seq<ChangeModel>
    decreases keys.len(),
{
    if keys.len() == 0 {
        Seq::empty()
    } else {
        let id = keys.last();
        kept_changes(keys.drop_last(), old, new) + if new.contains_key(id) {
            kept_change(id, old[id], new[id])
        } else {
            Seq::empty()
        }
    }
}

/// The changes that replacing snapshot `old` by `new` reports: the kind
/// changed when the id set changed, then departures, arrivals and changed
/// players, each in id order.
pub open spec fn snapshot_changes_spec(old: MprisSnapshot, new: MprisSnapshot) -> Seq<ChangeModel> {
    let ok = old.players.keys();
    let nk = new.players.keys();
    (if ok != nk {
        seq![ChangeModel::NodeKindChanged("mpris-player"@)]
    } else {
        Seq::empty()
    }) + removed_changes(ok, players_of(new)) + added_changes(nk, players_of(old)) + kept_changes(
        ok,
        players_of(old),
        players_of(new),
    )
}

/// The first arriving id that is not a valid node id, if any.
pub open spec fn first_invalid_added(
    keys: Seq<Seq<char>>,
    old: Map<Seq<char>, MprisPlayerView>,
) -> Option<Seq<char>>
    decreases keys.len(),
{
    if keys.len() == 0 {
        None
    } else if !old.contains_key(keys[0]) && !valid_identifier(
        IdentifierClass::NodeLocalId,
        keys[0],
    ) {
        Some(keys[0])
    } else {
        first_invalid_added(keys.drop_first(), old)
    }
}

proof fn lemma_first_invalid_added(
    keys: Seq<Seq<char>>,
    old: Map<Seq<char>, MprisPlayerView>,
    i: int,
)
    requires
        0 <= i <= keys.len(),
        forall|j: int|
            0 <= j < i ==> old.contains_key(#[trigger] keys[j]) || valid_identifier(
                IdentifierClass::NodeLocalId,
                keys[j],
            ),
    ensures
        i < keys.len() && !old.contains_key(keys[i]) && !valid_identifier(
            IdentifierClass::NodeLocalId,
            keys[i],
        ) ==> first_invalid_added(keys, old) == Some(keys[i]),
        i == keys.len() ==> first_invalid_added(keys, old) is None,
    decreases i,
{
    if i > 0 {
        assert forall|j: int| 0 <= j < i - 1 implies old.contains_key(
            #[trigger] keys.drop_first()[j],
        ) || valid_identifier(IdentifierClass::NodeLocalId, keys.drop_first()[j]) by {
            assert(keys.drop_first()[j] == keys[j + 1]);
        }
        lemma_first_invalid_added(keys.drop_first(), old, i - 1);
        assert(old.contains_key(keys[0]) || valid_identifier(
            IdentifierClass::NodeLocalId,
            keys[0],
        ));
        if i < keys.len() {
            assert(keys.drop_first()[i - 1] == keys[i]);
        }
    }
}

proof fn lemma_first_invalid_none(keys: Seq<Seq<char>>, old: Map<Seq<char>, MprisPlayerView>)
    requires
        first_invalid_added(keys, old) is None,
    ensures
        forall|j: int|
            0 <= j < keys.len() ==> old.contains_key(#[trigger] keys[j]) || valid_identifier(
                IdentifierClass::NodeLocalId,
                keys[j],
            ),
    decreases keys.len(),
{
    if keys.len() > 0 {
        lemma_first_invalid_none(keys.drop_first(), old);
        assert forall|j: int| 0 <= j < keys.len() implies old.contains_key(#[trigger] keys[j])
            || valid_identifier(IdentifierClass::NodeLocalId, keys[j]) by {
            if j > 0 {
                assert(keys.drop_first()[j - 1] == keys[j]);
            }
        }
    }
}

/// The key texts of a snapshot are exactly its domain, and each key's
/// entry is its value.
proof fn lemma_player_keys(s: MprisSnapshot)
    requires
        sorted_by_key(s.players.entries()),
    ensures
        s.players.keys().len() == s.players.entries().len(),
        forall|i: int|
            0 <= i < s.players.keys().len() ==> #[trigger] players_of(s).contains_key(
                s.players.keys()[i],
            ) && players_of(s)[s.players.keys()[i]] == s.players.entries()[i].1@,
        forall|k: Seq<char>| #[trigger]
            players_of(s).contains_key(k) ==> exists|i: int|
                0 <= i < s.players.keys().len() && s.players.keys()[i] == k,
{
    let e = s.players.entries();
    assert forall|i: int| 0 <= i < s.players.keys().len() implies #[trigger] players_of(
        s,
    ).contains_key(s.players.keys()[i]) && players_of(s)[s.players.keys()[i]]
        == s.players.entries()[i].1@ by {
        lemma_entries_map_at(e, i);
    }
    assert forall|k: Seq<char>| #[trigger] players_of(s).contains_key(k) implies exists|i: int|
        0 <= i < s.players.keys().len() && s.players.keys()[i] == k by {
        let i = choose|i: int| 0 <= i < e.len() && #[trigger] e[i].0.key_text() == k;
        assert(s.players.keys()[i] == k);
    }
}

impl MprisPlayer {
    pub fn duplicate(&self) -> (r: MprisPlayer)
        ensures
            r@ == self@,
    {
        MprisPlayer {
            id: self.id.clone(),
            service_name: self.service_name.clone(),
            playerctl_name: self.playerctl_name.clone(),
            identity: self.identity.clone(),
            artist: self.artist.clone(),
            title: self.title.clone(),
            album: self.album.clone(),
            art_url: self.art_url.clone(),
            playback_status: self.playback_status.clone(),
            can_play: self.can_play,
            can_pause: self.can_pause,
            can_go_next: self.can_go_next,
            can_go_previous: self.can_go_previous,
            length_us: self.length_us,
        }
    }

    /// Whether two players have the same fields.
    pub fn same_as(&self, other: &MprisPlayer) -> (r: bool)
        ensures
            r == (self@ == other@),
    {
        let same_length = match (self.length_us, other.length_us) {
            (Some(a), Some(b)) => a == b,
            (None, None) => true,
            _ => false,
        };
        text_eq(self.id.as_str(), other.id.as_str()) && text_eq(
            self.service_name.as_str(),
            other.service_name.as_str(),
        ) && text_eq(self.playerctl_name.as_str(), other.playerctl_name.as_str()) && text_eq(
            self.identity.as_str(),
            other.identity.as_str(),
        ) && text_eq(self.artist.as_str(), other.artist.as_str()) && text_eq(
            self.title.as_str(),
            other.title.as_str(),
        ) && text_eq(self.album.as_str(), other.album.as_str()) && text_eq(
            self.art_url.as_str(),
            other.art_url.as_str(),
        ) && text_eq(self.playback_status.as_str(), other.playback_status.as_str())
            && self.can_play == other.can_play && self.can_pause == other.can_pause
            && self.can_go_next == other.can_go_next && self.can_go_previous
            == other.can_go_previous && same_length
    }
}

/// The properties of a player.
pub fn player_properties(player: &MprisPlayer) -> (r: Result<PropertyMap>)
    ensures
        r matches Ok(m) && property_models(m) == player_properties_spec(player@),
{
    proof {
        reveal_strlit("id");
        reveal_strlit("source");
        reveal_strlit("service-name");
        reveal_strlit("playerctl-name");
        reveal_strlit("identity");
        reveal_strlit("artist");
        reveal_strlit("title");
        reveal_strlit("album");
        reveal_strlit("art-url");
        reveal_strlit("playback-status");
        reveal_strlit("can-play");
        reveal_strlit("can-pause");
        reveal_strlit("can-go-next");
        reveal_strlit("can-go-previous");
        reveal_strlit("length-us");
    }
    let mut m: PropertyMap = TextMap::new();
    put(&mut m, "id", LocusValue::text(player.id.as_str()));
    put(&mut m, "source", LocusValue::text(SOURCE));
    put(&mut m, "service-name", LocusValue::text(player.service_name.as_str()));
    put(&mut m, "playerctl-name", LocusValue::text(player.playerctl_name.as_str()));
    put(&mut m, "identity", LocusValue::text(player.identity.as_str()));
    put(&mut m, "artist", LocusValue::text(player.artist.as_str()));
    put(&mut m, "title", LocusValue::text(player.title.as_str()));
    put(&mut m, "album", LocusValue::text(player.album.as_str()));
    put(&mut m, "art-url", LocusValue::text(player.art_url.as_str()));
    put(&mut m, "playback-status", LocusValue::text(player.playback_status.as_str()));
    put(&mut m, "can-play", LocusValue::Bool(player.can_play));
    put(&mut m, "can-pause", LocusValue::Bool(player.can_pause));
    put(&mut m, "can-go-next", LocusValue::Bool(player.can_go_next));
    put(&mut m, "can-go-previous", LocusValue::Bool(player.can_go_previous));
    if let Some(length_us) = player.length_us {
        let text = i64_text(length_us);
        put(&mut m, "length-us", LocusValue::String(text));
    }
    proof {
        assert(property_models(m) =~= player_properties_spec(player@));
    }
    Ok(m)
}

/// A node of kind `mpris`.
pub fn mpris_node(local: &str) -> (r: Result<NodeId>)
    ensures
        r is Ok <==> valid_identifier(IdentifierClass::NodeLocalId, local@),
        r matches Ok(n) ==> n@ == (NodeIdView { kind: "mpris"@, local: local@ }),
        r matches Err(e) ==> identifier_error(IdentifierClass::NodeLocalId, local@, e),
{
    proof {
        reveal_strlit("mpris");
    }
    NodeId::from_parts(MPRIS_KIND, local)
}

/// The node of a player.
pub fn player_node(local: &str) -> (r: Result<NodeId>)
    ensures
        r is Ok <==> valid_identifier(IdentifierClass::NodeLocalId, local@),
        r matches Ok(n) ==> n@ == player_view(local@),
        r matches Err(e) ==> identifier_error(IdentifierClass::NodeLocalId, local@, e),
{
    proof {
        reveal_strlit("mpris-player");
    }
    NodeId::from_parts(MPRIS_PLAYER_KIND, local)
}

/// The node of a player whose id is known to be valid.
fn valid_player_node(local: &str) -> (r: NodeId)
    requires
        valid_identifier(IdentifierClass::NodeLocalId, local@),
    ensures
        r@ == player_view(local@),
{
    match player_node(local) {
        Ok(n) => n,
        Err(_) => vstd::pervasive::unreached(),
    }
}

/// The facade node.
fn facade_node() -> (r: NodeId)
    ensures
        r@ == facade_view(),
{
    proof {
        reveal_strlit("player");
    }
    match mpris_node(PLAYER_NODE) {
        Ok(n) => n,
        Err(_) => vstd::pervasive::unreached(),
    }
}

/// A bus name without the leading `org.mpris.MediaPlayer2.`, when present.
pub open spec fn strip_service_prefix(service_name: Seq<char>) -> Seq<char> {
    if has_prefix(service_name, "org.mpris.MediaPlayer2."@) {
        service_name.skip("org.mpris.MediaPlayer2."@.len() as int)
    } else {
        service_name
    }
}

/// A character with NUL and `/` replaced by `_`.
pub open spec fn path_safe_char(c: char) -> char {
    if c == '\0' || c == '/' {
        '_'
    } else {
        c
    }
}

/// The player id for a bus name: the name without the MPRIS prefix, with
/// NUL and `/` replaced by `_`.
pub open spec fn player_id_spec(service_name: Seq<char>) -> Seq<char> {
    strip_service_prefix(service_name).map_values(|c: char| path_safe_char(c))
}

pub fn player_id_from_service(service_name: &str) -> (r: String)
    ensures
        r@ == player_id_spec(service_name@),
{
    let id = playerctl_name_from_service(service_name);
    let chars = chars_of(id.as_str());
    let mut out = String::new();
    let mut i: usize = 0;
    while i < chars.len()
        invariant
            i <= chars.len(),
            chars@ == id@,
            out@ == chars@.take(i as int).map_values(|c: char| path_safe_char(c)),
        decreases chars.len() - i,
    {
        let c = chars[i];
        let safe = if c == '\0' || c == '/' {
            '_'
        } else {
            c
        };
        push_char(&mut out, safe);
        proof {
            assert(chars@.take(i + 1) =~= chars@.take(i as int).push(c));
            assert(out@ =~= chars@.take(i + 1).map_values(|c: char| path_safe_char(c)));
        }
        i += 1;
    }
    proof {
        assert(chars@.take(chars.len() as int) =~= chars@);
    }
    out
}

pub fn playerctl_name_from_service(service_name: &str) -> (r: String)
    ensures
        r@ == strip_service_prefix(service_name@),
{
    match strip_prefix(service_name, SERVICE_PREFIX) {
        Some(rest) => rest,
        None => owned(service_name),
    }
}

/// Whether two snapshots have the same ids.
fn same_keys(a: &TextMap<String, MprisPlayer>, b: &TextMap<String, MprisPlayer>) -> (r: bool)
    ensures
        r == (a.keys() == b.keys()),
{
    let n = a.len();
    let m = b.len();
    if n != m {
        assert(a.keys().len() != b.keys().len());
        return false;
    }
    let mut i: usize = 0;
    while i < n
        invariant
            n == a.entries().len(),
            m == b.entries().len(),
            n == m,
            i <= n,
            forall|j: int| 0 <= j < i ==> a.keys()[j] == b.keys()[j],
        decreases n - i,
    {
        if !text_eq(a.key_at(i).as_str(), b.key_at(i).as_str()) {
            assert(a.keys()[i as int] != b.keys()[i as int]);
            return false;
        }
        i += 1;
    }
    assert(a.keys() =~= b.keys());
    true
}

/// The changes that replacing `old` by `new` reports, or the error for the
/// first arriving id that is not a valid node id.
fn snapshot_changes(old: &MprisSnapshot, new: &MprisSnapshot) -> (r: Result<Vec<GraphChange>>)
    requires
        ids_valid(*old),
    ensures
        match first_invalid_added(new.players.keys(), players_of(*old)) {
            Some(id) => r matches Err(e) && identifier_error(IdentifierClass::NodeLocalId, id, e),
            None => r matches Ok(c) && change_models(c@) == snapshot_changes_spec(*old, *new),
        },
{
    let ghost om = players_of(*old);
    let ghost nm = players_of(*new);
    let ghost ok = old.players.keys();
    let ghost nk = new.players.keys();
    let on = old.players.len();
    let nn = new.players.len();
    proof {
        lemma_player_keys(*old);
        lemma_player_keys(*new);
    }
    let mut changes: Vec<GraphChange> = Vec::new();
    if !same_keys(&old.players, &new.players) {
        proof {
            reveal_strlit("mpris-player");
        }
        changes.push(GraphChange::NodeKindChanged { kind: known_kind(MPRIS_PLAYER_KIND) });
    }
    let ghost head = change_models(changes@);
    assert(head == (if ok != nk {
        seq![ChangeModel::NodeKindChanged("mpris-player"@)]
    } else {
        Seq::<ChangeModel>::empty()
    }));
    let facade = facade_node();
    let mut i: usize = 0;
    while i < on
        invariant
            on == ok.len(),
            ok == old.players.keys(),
            om == players_of(*old),
            nm == players_of(*new),
            ids_valid(*old),
            facade@ == facade_view(),
            forall|j: int| 0 <= j < ok.len() ==> #[trigger] om.contains_key(ok[j]),
            i <= on,
            change_models(changes@) == head + removed_changes(ok.take(i as int), nm),
        decreases on - i,
    {
        let id = old.players.key_at(i);
        assert(id@ == ok[i as int]);
        proof {
            lemma_ids_take(ok, i as int);
        }
        let ghost prev = changes@;
        if !new.players.contains_key(id.as_str()) {
            assert(om.contains_key(ok[i as int]));
            let node = valid_player_node(id.as_str());
            let relation = RelationName::new(id.as_str());
            let relation = match relation {
                Ok(r) => r,
                Err(_) => vstd::pervasive::unreached(),
            };
            let a = GraphChange::NodeRemoved { node };
            let b = GraphChange::RelationRemoved { source: facade.duplicate(), relation };
            proof {
                lemma_change_models_push(prev, a);
                lemma_change_models_push(prev.push(a), b);
            }
            changes.push(a);
            changes.push(b);
            assert(change_models(changes@) =~= change_models(prev) + seq![a@, b@]);
        }
        proof {
            assert(change_models(changes@) =~= head + removed_changes(ok.take(i + 1), nm));
        }
        i += 1;
    }
    assert(ok.take(on as int) =~= ok);
    let ghost mid = change_models(changes@);
    let mut j: usize = 0;
    while j < nn
        invariant
            nn == nk.len(),
            nk == new.players.keys(),
            om == players_of(*old),
            nm == players_of(*new),
            facade@ == facade_view(),
            j <= nn,
            forall|q: int|
                0 <= q < j ==> om.contains_key(#[trigger] nk[q]) || valid_identifier(
                    IdentifierClass::NodeLocalId,
                    nk[q],
                ),
            change_models(changes@) == mid + added_changes(nk.take(j as int), om),
        decreases nn - j,
    {
        let id = new.players.key_at(j);
        assert(id@ == nk[j as int]);
        proof {
            lemma_ids_take(nk, j as int);
        }
        let ghost prev = changes@;
        if !old.players.contains_key(id.as_str()) {
            let node = player_node(id.as_str());
            let node = match node {
                Ok(n) => n,
                Err(e) => {
                    proof {
                        lemma_first_invalid_added(nk, om, j as int);
                    }
                    return Err(e);
                },
            };
            let relation = RelationName::new(id.as_str());
            let relation = match relation {
                Ok(r) => r,
                Err(_) => vstd::pervasive::unreached(),
            };
            let a = GraphChange::NodeAdded { node };
            let b = GraphChange::RelationAdded { source: facade.duplicate(), relation };
            proof {
                lemma_change_models_push(prev, a);
                lemma_change_models_push(prev.push(a), b);
            }
            changes.push(a);
            changes.push(b);
            assert(change_models(changes@) =~= change_models(prev) + seq![a@, b@]);
        }
        proof {
            assert(change_models(changes@) =~= mid + added_changes(nk.take(j + 1), om));
        }
        j += 1;
    }
    proof {
        lemma_first_invalid_added(nk, om, nn as int);
    }
    assert(nk.take(nn as int) =~= nk);
    let ghost mid2 = change_models(changes@);
    let mut i: usize = 0;
    while i < on
        invariant
            on == ok.len(),
            ok == old.players.keys(),
            sorted_by_key(old.players.entries()),
            om == players_of(*old),
            nm == players_of(*new),
            ids_valid(*old),
            forall|q: int|
                0 <= q < ok.len() ==> #[trigger] om.contains_key(ok[q]) && om[ok[q]]
                    == old.players.entries()[q].1@,
            i <= on,
            change_models(changes@) == mid2 + kept_changes(ok.take(i as int), om, nm),
        decreases on - i,
    {
        let id = old.players.key_at(i);
        assert(id@ == ok[i as int]);
        proof {
            lemma_ids_take(ok, i as int);
        }
        let old_player = old.players.value_at(i);
        assert(om.contains_key(ok[i as int]));
        assert(om[id@] == old_player@);
        match new.players.get(id.as_str()) {
            Some(new_player) => {
                assert(nm[id@] == new_player@);
                if !old_player.same_as(new_player) {
                    let node = valid_player_node(id.as_str());
                    let ghost before = change_models(changes@);
                    let first = GraphChange::NodeChanged { node: node.duplicate() };
                    proof {
                        lemma_change_models_push(changes@, first);
                    }
                    changes.push(first);
                    let old_props = player_properties(old_player);
                    let new_props = player_properties(new_player);
                    let (old_props, new_props) = match (old_props, new_props) {
                        (Ok(a), Ok(b)) => (a, b),
                        _ => vstd::pervasive::unreached(),
                    };
                    let keys = changed_keys(&old_props, &new_props);
                    let ghost ks = keys@.map_values(|k: PropertyKey| k@);
                    let ghost base = change_models(changes@);
                    let mut p: usize = 0;
                    while p < keys.len()
                        invariant
                            p <= keys.len(),
                            node@ == player_view(id@),
                            ks == keys@.map_values(|k: PropertyKey| k@),
                            change_models(changes@) == base + property_changes(
                                node@,
                                ks.take(p as int),
                            ),
                        decreases keys.len() - p,
                    {
                        let change = GraphChange::PropertyChanged {
                            node: node.duplicate(),
                            key: keys[p].duplicate(),
                        };
                        proof {
                            lemma_change_models_push(changes@, change);
                            lemma_property_changes_take(node@, ks, p as int);
                        }
                        changes.push(change);
                        proof {
                            assert(change_models(changes@) =~= base + property_changes(
                                node@,
                                ks.take(p + 1),
                            ));
                        }
                        p += 1;
                    }
                    proof {
                        assert(ks.take(keys.len() as int) =~= ks);
                        assert(change_models(changes@) =~= before + kept_change(
                            id@,
                            om[id@],
                            nm[id@],
                        ));
                    }
                }
            },
            None => {},
        }
        proof {
            assert(change_models(changes@) =~= mid2 + kept_changes(ok.take(i + 1), om, nm));
        }
        i += 1;
    }
    proof {
        assert(ok.take(on as int) =~= ok);
        assert(change_models(changes@) =~= snapshot_changes_spec(*old, *new));
    }
    Ok(changes)
}

impl MprisSnapshot {
    /// A snapshot with no players.
    pub fn new() -> (r: MprisSnapshot)
        ensures
            players_of(r) == Map::<Seq<char>, MprisPlayerView>::empty(),
    {
        let r = MprisSnapshot { players: TextMap::new() };
        assert(players_of(r) =~= Map::<Seq<char>, MprisPlayerView>::empty());
        r
    }
}

impl MprisState {
    /// The snapshot the state projects.
    pub closed spec fn snapshot_spec(&self) -> MprisSnapshot {
        self.snapshot
    }

    #[verifier::type_invariant]
    closed spec fn well_formed(&self) -> bool {
        ids_valid(self.snapshot)
    }

    /// A state with no players.
    pub fn new() -> (r: MprisState)
        ensures
            players_of(r.snapshot_spec()) == Map::<Seq<char>, MprisPlayerView>::empty(),
    {
        MprisState { snapshot: MprisSnapshot::new() }
    }

    /// Replaces the snapshot, reporting what changed. Fails, leaving the
    /// state as it was, when an arriving player id is not a valid node id.
    pub fn apply_snapshot(&mut self, snapshot: MprisSnapshot) -> (r: Result<Vec<GraphChange>>)
        ensures
            match first_invalid_added(
                snapshot.players.keys(),
                players_of(old(self).snapshot_spec()),
            ) {
                Some(id) => r matches Err(e) && identifier_error(
                    IdentifierClass::NodeLocalId,
                    id,
                    e,
                ) && final(self).snapshot_spec() == old(self).snapshot_spec(),
                None => r matches Ok(changes) && change_models(changes@) == snapshot_changes_spec(
                    old(self).snapshot_spec(),
                    snapshot,
                ) && final(self).snapshot_spec() == snapshot,
            },
    {
        proof {
            use_type_invariant(&*self);
        }
        proof {
            use_type_invariant(&snapshot.players);
        }
        let changes = snapshot_changes(&self.snapshot, &snapshot);
        match changes {
            Ok(changes) => {
                proof {
                    lemma_first_invalid_none(
                        snapshot.players.keys(),
                        players_of(self.snapshot),
                    );
                    lemma_player_keys(snapshot);
                    assert forall|id: Seq<char>| #[trigger]
                        players_of(snapshot).contains_key(id) implies valid_identifier(
                        IdentifierClass::NodeLocalId,
                        id,
                    ) by {
                        let i = choose|i: int|
                            0 <= i < snapshot.players.keys().len() && snapshot.players.keys()[i]
                                == id;
                        assert(players_of(self.snapshot).contains_key(
                            snapshot.players.keys()[i],
                        ) || valid_identifier(
                            IdentifierClass::NodeLocalId,
                            snapshot.players.keys()[i],
                        ));
                    }
                }
                self.snapshot = snapshot;
                Ok(changes)
            },
            Err(e) => Err(e),
        }
    }

    /// Adds or replaces the player under its id.
    pub fn upsert_player(&mut self, player: MprisPlayer) -> (r: Result<Vec<GraphChange>>)
        ensures
            ({
                let before = players_of(old(self).snapshot_spec());
                if before.contains_key(player.id@) || valid_identifier(
                    IdentifierClass::NodeLocalId,
                    player.id@,
                ) {
                    r matches Ok(changes) && players_of(final(self).snapshot_spec())
                        == before.insert(player.id@, player@) && change_models(changes@)
                        == snapshot_changes_spec(
                        old(self).snapshot_spec(),
                        final(self).snapshot_spec(),
                    )
                } else {
                    r matches Err(e) && identifier_error(
                        IdentifierClass::NodeLocalId,
                        player.id@,
                        e,
                    ) && final(self).snapshot_spec() == old(self).snapshot_spec()
                }
            }),
    {
        proof {
            use_type_invariant(&*self);
        }
        let ghost pv = player@;
        let mut snapshot = self.copy_snapshot();
        let id = player.id.clone();
        snapshot.players.insert(id, player);
        proof {
            use_type_invariant(&snapshot.players);
        }
        proof {
            use_type_invariant(&self.snapshot.players);
        }
        proof {
            lemma_player_keys(snapshot);
            let ks = snapshot.players.keys();
            let before = players_of(self.snapshot);
            assert(players_of(snapshot) =~= before.insert(pv.id, pv));
            assert forall|j: int| 0 <= j < ks.len() implies before.contains_key(#[trigger] ks[j])
                || ks[j] == pv.id by {
                assert(players_of(snapshot).contains_key(ks[j]));
            }
            if before.contains_key(pv.id) || valid_identifier(IdentifierClass::NodeLocalId, pv.id) {
                assert forall|j: int| 0 <= j < ks.len() implies before.contains_key(
                    #[trigger] ks[j],
                ) || valid_identifier(IdentifierClass::NodeLocalId, ks[j]) by {}
                lemma_first_invalid_added(ks, before, ks.len() as int);
            } else {
                assert(players_of(snapshot).contains_key(pv.id));
                let pos = choose|i: int| 0 <= i < ks.len() && ks[i] == pv.id;
                assert forall|j: int| 0 <= j < pos implies before.contains_key(#[trigger] ks[j])
                    || valid_identifier(IdentifierClass::NodeLocalId, ks[j]) by {
                    if !before.contains_key(ks[j]) {
                        let e = snapshot.players.entries();
                        assert(ks[j] == e[j].0.key_text() && ks[pos] == e[pos].0.key_text());
                        assert(crate::text::text_lt(ks[j], ks[pos]));
                        crate::text::lemma_text_lt_irreflexive(pv.id);
                    }
                }
                lemma_first_invalid_added(ks, before, pos);
            }
        }
        self.apply_snapshot(snapshot)
    }

    /// Removes the player with id `id`, if present.
    pub fn remove_player(&mut self, id: &str) -> (r: Result<Vec<GraphChange>>)
        ensures
            r matches Ok(changes) && change_models(changes@) == snapshot_changes_spec(
                old(self).snapshot_spec(),
                final(self).snapshot_spec(),
            ),
            players_of(final(self).snapshot_spec()) == players_of(old(self).snapshot_spec()).remove(
                id@,
            ),
    {
        proof {
            use_type_invariant(&*self);
        }
        let mut snapshot = self.copy_snapshot();
        let _ = snapshot.players.remove(id);
        proof {
            use_type_invariant(&snapshot.players);
        }
        proof {
            lemma_player_keys(snapshot);
            let ks = snapshot.players.keys();
            let before = players_of(self.snapshot);
            assert(players_of(snapshot) =~= before.remove(id@));
            assert forall|j: int| 0 <= j < ks.len() implies before.contains_key(#[trigger] ks[j])
                || valid_identifier(IdentifierClass::NodeLocalId, ks[j]) by {
                assert(players_of(snapshot).contains_key(ks[j]));
            }
            lemma_first_invalid_added(ks, before, ks.len() as int);
        }
        self.apply_snapshot(snapshot)
    }

    fn copy_snapshot(&self) -> (r: MprisSnapshot)
        ensures
            players_of(r) == players_of(self.snapshot_spec()),
    {
        let n = self.snapshot.players.len();
        let ghost src = self.snapshot.players.entries();
        let mut players: TextMap<String, MprisPlayer> = TextMap::new();
        let mut i: usize = 0;
        while i < n
            invariant
                n == src.len(),
                src == self.snapshot.players.entries(),
                sorted_by_key(src),
                i <= n,
                forall|k: Seq<char>| #[trigger]
                    players.map().contains_key(k) <==> exists|j: int|
                        0 <= j < i && src[j].0@ == k,
                forall|j: int|
                    0 <= j < i ==> (#[trigger] players.map()[src[j].0@])@ == src[j].1@,
            decreases n - i,
        {
            let key = self.snapshot.players.key_at(i).clone();
            let value = self.snapshot.players.value_at(i).duplicate();
            players.insert(key, value);
            proof {
                assert forall|j: int| 0 <= j < i + 1 implies (#[trigger] players.map()[src[j].0@])@
                    == src[j].1@ by {
                    if j < i {
                        assert(crate::text::text_lt(src[j].0.key_text(), src[i as int].0.key_text()));
                        crate::text::lemma_text_lt_irreflexive(src[j].0@);
                    }
                }
                assert forall|k: Seq<char>| #[trigger] players.map().contains_key(k) <==> exists|
                    j: int,
                | 0 <= j < i + 1 && src[j].0@ == k by {
                    if k == src[i as int].0@ {
                        assert(src[i as int].0@ == k);
                    } else if exists|j: int| 0 <= j < i + 1 && src[j].0@ == k {
                        let j = choose|j: int| 0 <= j < i + 1 && src[j].0@ == k;
                        assert(j != i);
                    }
                }
            }
            i += 1;
        }
        let r = MprisSnapshot { players };
        proof {
            assert forall|k: Seq<char>| #[trigger]
                players_of(r).contains_key(k) == players_of(self.snapshot).contains_key(k) by {
                if players_of(self.snapshot).contains_key(k) {
                    let j = choose|j: int| 0 <= j < src.len() && #[trigger] src[j].0.key_text() == k;
                    assert(src[j].0@ == k);
                }
                if players_of(r).contains_key(k) {
                    let j = choose|j: int| 0 <= j < n && src[j].0@ == k;
                    lemma_entries_map_at(src, j);
                }
            }
            assert forall|k: Seq<char>| #[trigger]
                players_of(r).contains_key(k) implies players_of(r)[k] == players_of(
                self.snapshot,
            )[k] by {
                let j = choose|j: int| 0 <= j < n && src[j].0@ == k;
                lemma_entries_map_at(src, j);
            }
            assert(players_of(r) =~= players_of(self.snapshot));
        }
        r
    }

    /// Whether a node exists.
    pub fn contains_node(&self, node: &NodeId) -> (r: Result<bool>)
        ensures
            r matches Ok(b) && b == contains_spec(self.snapshot_spec(), node@),
    {
        let kind = node.kind().as_str();
        if text_eq(kind, MPRIS_KIND) {
            Ok(text_eq(node.local(), PLAYER_NODE))
        } else if text_eq(kind, MPRIS_PLAYER_KIND) {
            Ok(self.snapshot.players.contains_key(node.local()))
        } else {
            Ok(false)
        }
    }

    /// The nodes of a kind, in order.
    pub fn nodes(&self, kind: &NodeKind) -> (r: Result<Vec<NodeId>>)
        ensures
            r matches Ok(v) && node_views(v@) == nodes_spec(self.snapshot_spec(), kind@),
    {
        proof {
            use_type_invariant(self);
        }
        let mut out: Vec<NodeId> = Vec::new();
        if text_eq(kind.as_str(), MPRIS_KIND) {
            out.push(facade_node());
            assert(node_views(out@) =~= seq![facade_view()]);
        } else if text_eq(kind.as_str(), MPRIS_PLAYER_KIND) {
            let n = self.snapshot.players.len();
            let ghost ks = self.snapshot.players.keys();
            proof {
                lemma_player_keys(self.snapshot);
            }
            let mut i: usize = 0;
            while i < n
                invariant
                    n == ks.len(),
                    ks == self.snapshot.players.keys(),
                    ids_valid(self.snapshot),
                    forall|j: int| 0 <= j < ks.len() ==> #[trigger] players_of(
                        self.snapshot,
                    ).contains_key(ks[j]),
                    i <= n,
                    node_views(out@) == player_nodes_of(ks.take(i as int)),
                decreases n - i,
            {
                let id = self.snapshot.players.key_at(i);
                assert(id@ == ks[i as int]);
                assert(players_of(self.snapshot).contains_key(ks[i as int]));
                let node = valid_player_node(id.as_str());
                proof {
                    lemma_node_views_push(out@, node);
                    lemma_ids_take(ks, i as int);
                }
                out.push(node);
                i += 1;
            }
            assert(ks.take(n as int) =~= ks);
        } else {
            assert(node_views(out@) =~= Seq::<NodeIdView>::empty());
        }
        Ok(out)
    }

    /// The properties of a node, or `None` when it does not exist.
    fn node_properties(&self, node: &NodeId) -> (r: Option<PropertyMap>)
        ensures
            props_option(r) == node_properties_spec(self.snapshot_spec(), node@),
    {
        let kind = node.kind().as_str();
        if text_eq(kind, MPRIS_KIND) && text_eq(node.local(), PLAYER_NODE) {
            let m: PropertyMap = TextMap::new();
            assert(property_models(m) =~= Map::<Seq<char>, ValueModel>::empty());
            Some(m)
        } else if text_eq(kind, MPRIS_PLAYER_KIND) {
            match self.snapshot.players.get(node.local()) {
                Some(player) => match player_properties(player) {
                    Ok(m) => Some(m),
                    Err(_) => None,
                },
                None => None,
            }
        } else {
            None
        }
    }

    /// The relations of a node, or `None` when it does not exist.
    fn node_relations(&self, node: &NodeId) -> (r: Option<RelationMap>)
        ensures
            rels_option(r) == node_relations_spec(self.snapshot_spec(), node@),
    {
        proof {
            use_type_invariant(self);
        }
        let kind = node.kind().as_str();
        if text_eq(kind, MPRIS_KIND) && text_eq(node.local(), PLAYER_NODE) {
            let n = self.snapshot.players.len();
            let ghost ks = self.snapshot.players.keys();
            let ghost pm = players_of(self.snapshot);
            proof {
                lemma_player_keys(self.snapshot);
            }
            let mut m: RelationMap = TextMap::new();
            let mut i: usize = 0;
            while i < n
                invariant
                    n == ks.len(),
                    ks == self.snapshot.players.keys(),
                    pm == players_of(self.snapshot),
                    ids_valid(self.snapshot),
                    forall|j: int| 0 <= j < ks.len() ==> #[trigger] pm.contains_key(ks[j]),
                    i <= n,
                    forall|k: Seq<char>| #[trigger]
                        relation_models(m).contains_key(k) <==> exists|j: int|
                            0 <= j < i && ks[j] == k,
                    forall|k: Seq<char>| #[trigger]
                        relation_models(m).contains_key(k) ==> relation_models(m)[k] == seq![
                            player_view(k),
                        ],
                decreases n - i,
            {
                let id = self.snapshot.players.key_at(i);
                assert(id@ == ks[i as int]);
                assert(pm.contains_key(ks[i as int]));
                let target = valid_player_node(id.as_str());
                let relation = match RelationName::new(id.as_str()) {
                    Ok(r) => r,
                    Err(_) => vstd::pervasive::unreached(),
                };
                let mut targets: Vec<NodeId> = Vec::new();
                targets.push(target);
                let ghost tv = targets@;
                let ghost rk = relation@;
                assert(rk == id@);
                assert(node_views(tv) =~= seq![player_view(id@)]);
                let ghost old_m = relation_models(m);
                m.insert(relation, targets);
                proof {
                    assert(relation_models(m) =~= old_m.insert(rk, seq![player_view(rk)]));
                    assert forall|k: Seq<char>| #[trigger]
                        relation_models(m).contains_key(k) <==> exists|j: int|
                            0 <= j < i + 1 && ks[j] == k by {
                        if k == id@ {
                            assert(ks[i as int] == k);
                        } else if exists|j: int| 0 <= j < i + 1 && ks[j] == k {
                            let j = choose|j: int| 0 <= j < i + 1 && ks[j] == k;
                            assert(j != i);
                        }
                    }
                }
                i += 1;
            }
            proof {
                let expected = Map::new(
                    |id: Seq<char>| pm.contains_key(id),
                    |id: Seq<char>| seq![player_view(id)],
                );
                assert forall|k: Seq<char>| #[trigger]
                    relation_models(m).contains_key(k) == expected.contains_key(k) by {
                    if pm.contains_key(k) {
                        let j = choose|j: int| 0 <= j < ks.len() && ks[j] == k;
                    }
                }
                assert(relation_models(m) =~= expected);
            }
            Some(m)
        } else if text_eq(kind, MPRIS_PLAYER_KIND) && self.snapshot.players.contains_key(
            node.local(),
        ) {
            let m: RelationMap = TextMap::new();
            assert(relation_models(m) =~= Map::<Seq<char>, Seq<NodeIdView>>::empty());
            Some(m)
        } else {
            None
        }
    }

    /// The spec of a node's property; all MPRIS properties are read-only.
    pub fn property_spec(&self, subject: &NodeId, key: &PropertyKey) -> (r: Result<PropertySpec>)
        ensures
            property_spec_result(
                ReadOnlyAccess,
                node_properties_spec(self.snapshot_spec(), subject@),
                subject@,
                key@,
                r,
            ),
    {
        answer_property_spec(&ReadOnlyAccess, self.node_properties(subject), subject, key)
    }

    /// The specs of a node's properties, in key order.
    pub fn properties(&self, subject: &NodeId) -> (r: Result<Vec<PropertySpec>>)
        ensures
            properties_result(
                ReadOnlyAccess,
                node_properties_spec(self.snapshot_spec(), subject@),
                subject@,
                r,
            ),
    {
        answer_properties(&ReadOnlyAccess, self.node_properties(subject), subject)
    }

    /// The value of a node's property.
    pub fn property(&self, subject: &NodeId, key: &PropertyKey) -> (r: Result<LocusValue>)
        ensures
            property_result(node_properties_spec(self.snapshot_spec(), subject@), subject@, key@, r),
    {
        answer_property(self.node_properties(subject), subject, key)
    }

    /// The relation names of a node, in order.
    pub fn relations(&self, source: &NodeId) -> (r: Result<Vec<RelationName>>)
        ensures
            relations_result(node_relations_spec(self.snapshot_spec(), source@), source@, r),
    {
        answer_relations(self.node_relations(source), source)
    }

    /// The targets of a node's relation.
    pub fn targets(&self, source: &NodeId, relation: &RelationName) -> (r: Result<Vec<NodeId>>)
        ensures
            targets_result(
                node_relations_spec(self.snapshot_spec(), source@),
                source@,
                relation@,
                r,
            ),
    {
        answer_targets(self.node_relations(source), source, relation)
    }

    /// Whether a directory is the facade node.
    fn is_facade(directory: &GraphPathDirectory) -> (r: bool)
        ensures
            r == (directory@ == DirectoryModel::Node(facade_view())),
    {
        match directory {
            GraphPathDirectory::Node(node) => text_eq(node.kind().as_str(), MPRIS_KIND) && text_eq(
                node.local(),
                PLAYER_NODE,
            ),
            GraphPathDirectory::Virtual { .. } => false,
        }
    }

    /// The entry that `name` resolves to under `parent`.
    pub fn path_lookup_child(&self, parent: &GraphPathDirectory, name: &PathName) -> (r: Result<
        Option<GraphPathEntry>,
    >)
        ensures
            r matches Ok(e) && entry_option(e) == lookup_child_spec(
                self.snapshot_spec(),
                parent@,
                name@,
            ),
    {
        proof {
            use_type_invariant(self);
        }
        if Self::is_facade(parent) && self.snapshot.players.contains_key(name.as_str()) {
            let node = valid_player_node(name.as_str());
            Ok(Some(GraphPathEntry::Directory(GraphPathDirectory::Node(node))))
        } else {
            Ok(None)
        }
    }

    /// The children of `parent`.
    pub fn path_children(&self, parent: &GraphPathDirectory) -> (r: Result<
        Option<Vec<GraphPathChild>>,
    >)
        ensures
            r matches Ok(c) && children_option(c) == children_spec(self.snapshot_spec(), parent@),
    {
        proof {
            use_type_invariant(self);
        }
        if !Self::is_facade(parent) {
            return Ok(None);
        }
        let n = self.snapshot.players.len();
        let ghost ks = self.snapshot.players.keys();
        proof {
            lemma_player_keys(self.snapshot);
        }
        let mut out: Vec<GraphPathChild> = Vec::new();
        let mut i: usize = 0;
        while i < n
            invariant
                n == ks.len(),
                ks == self.snapshot.players.keys(),
                ids_valid(self.snapshot),
                forall|j: int| 0 <= j < ks.len() ==> #[trigger] players_of(
                    self.snapshot,
                ).contains_key(ks[j]),
                i <= n,
                out@.map_values(|x: GraphPathChild| x@) == player_children_of(ks.take(i as int)),
            decreases n - i,
        {
            let id = self.snapshot.players.key_at(i);
            assert(id@ == ks[i as int]);
            assert(players_of(self.snapshot).contains_key(ks[i as int]));
            let name = match PathName::new(id.as_str()) {
                Ok(p) => p,
                Err(_) => vstd::pervasive::unreached(),
            };
            let node = valid_player_node(id.as_str());
            let child = GraphPathChild {
                name,
                entry: GraphPathEntry::Directory(GraphPathDirectory::Node(node)),
            };
            let ghost prev = out@;
            out.push(child);
            proof {
                lemma_ids_take(ks, i as int);
                assert(out@.map_values(|x: GraphPathChild| x@) =~= prev.map_values(
                    |x: GraphPathChild| x@,
                ).push(child@));
            }
            i += 1;
        }
        assert(ks.take(n as int) =~= ks);
        Ok(Some(out))
    }

    /// The node a watcher of `directory` follows: the facade follows itself.
    pub fn path_watch_target(&self, directory: &GraphPathDirectory) -> (r: Result<
        Option<GraphWatchTarget>,
    >)
        ensures
            r matches Ok(t) && target_option(t) == (if directory@ == DirectoryModel::Node(
                facade_view(),
            ) {
                Some(WatchModel::Node(facade_view()))
            } else {
                None
            }),
    {
        match directory {
            GraphPathDirectory::Node(node) => {
                if text_eq(node.kind().as_str(), MPRIS_KIND) && text_eq(node.local(), PLAYER_NODE) {
                    Ok(Some(GraphWatchTarget::Node(node.duplicate())))
                } else {
                    Ok(None)
                }
            },
            GraphPathDirectory::Virtual { .. } => Ok(None),
        }
    }
}

impl Default for MprisState {
    fn default() -> (r: MprisState)
        ensures
            players_of(r.snapshot_spec()) == Map::<Seq<char>, MprisPlayerView>::empty(),
    {
        MprisState::new()
    }
}

proof fn lemma_nothing_removed(keys: Seq<Seq<char>>, m: Map<Seq<char>, MprisPlayerView>)
    requires
        forall|i: int| 0 <= i < keys.len() ==> m.contains_key(#[trigger] keys[i]),
    ensures
        removed_changes(keys, m) == Seq::<ChangeModel>::empty(),
        added_changes(keys, m) == Seq::<ChangeModel>::empty(),
        kept_changes(keys, m, m) == Seq::<ChangeModel>::empty(),
    decreases keys.len(),
{
    if keys.len() > 0 {
        assert forall|i: int| 0 <= i < keys.drop_last().len() implies m.contains_key(
            #[trigger] keys.drop_last()[i],
        ) by {
            assert(keys.drop_last()[i] == keys[i]);
        }
        lemma_nothing_removed(keys.drop_last(), m);
        assert(m.contains_key(keys[keys.len() - 1]));
        assert(removed_changes(keys, m) =~= Seq::<ChangeModel>::empty());
        assert(added_changes(keys, m) =~= Seq::<ChangeModel>::empty());
        assert(kept_changes(keys, m, m) =~= Seq::<ChangeModel>::empty());
    }
}

/// Replacing a snapshot by itself reports no change.
pub proof fn lemma_same_snapshot_reports_nothing(s: MprisSnapshot)
    requires
        sorted_by_key(s.players.entries()),
    ensures
        snapshot_changes_spec(s, s) == Seq::<ChangeModel>::empty(),
{
    lemma_player_keys(s);
    lemma_nothing_removed(s.players.keys(), players_of(s));
    assert(snapshot_changes_spec(s, s) =~= Seq::<ChangeModel>::empty());
}

/// The changes for ids of which only `id` has gone: its node and the
/// facade's relation to it.
proof fn lemma_one_removed(keys: Seq<Seq<char>>, m: Map<Seq<char>, MprisPlayerView>, id: Seq<char>)
    requires
        keys.no_duplicates(),
        keys.contains(id),
        !m.contains_key(id),
        forall|i: int| 0 <= i < keys.len() && keys[i] != id ==> m.contains_key(#[trigger] keys[i]),
    ensures
        removed_changes(keys, m) == seq![
            ChangeModel::NodeRemoved(player_view(id)),
            ChangeModel::RelationRemoved(facade_view(), id),
        ],
    decreases keys.len(),
{
    let prefix = keys.drop_last();
    if keys.last() == id {
        assert forall|i: int| 0 <= i < prefix.len() implies m.contains_key(#[trigger] prefix[i]) by {
            assert(prefix[i] == keys[i]);
            assert(keys[i] != keys[keys.len() - 1]);
        }
        lemma_nothing_removed(prefix, m);
    } else {
        let j = choose|j: int| 0 <= j < keys.len() && keys[j] == id;
        assert(prefix[j] == id);
        assert forall|i: int| 0 <= i < prefix.len() && prefix[i] != id implies m.contains_key(
            #[trigger] prefix[i],
        ) by {
            assert(prefix[i] == keys[i]);
        }
        lemma_one_removed(prefix, m, id);
        assert(m.contains_key(keys[keys.len() - 1]));
    }
    assert(removed_changes(keys, m) =~= seq![
        ChangeModel::NodeRemoved(player_view(id)),
        ChangeModel::RelationRemoved(facade_view(), id),
    ]);
}

/// Players that kept their state report no change.
proof fn lemma_kept_unchanged(
    keys: Seq<Seq<char>>,
    old: Map<Seq<char>, MprisPlayerView>,
    new: Map<Seq<char>, MprisPlayerView>,
)
    requires
        forall|i: int|
            0 <= i < keys.len() && new.contains_key(#[trigger] keys[i]) ==> old[keys[i]]
                == new[keys[i]],
    ensures
        kept_changes(keys, old, new) == Seq::<ChangeModel>::empty(),
    decreases keys.len(),
{
    if keys.len() > 0 {
        let prefix = keys.drop_last();
        assert forall|i: int|
            0 <= i < prefix.len() && new.contains_key(#[trigger] prefix[i]) implies old[prefix[i]]
                == new[prefix[i]] by {
            assert(prefix[i] == keys[i]);
        }
        lemma_kept_unchanged(prefix, old, new);
        let k = keys[keys.len() - 1];
        assert(new.contains_key(k) ==> old[k] == new[k]);
        assert(kept_changes(keys, old, new) =~= Seq::<ChangeModel>::empty());
    }
}

/// Removing a player that an upsert brought in undoes the upsert: the
/// players, and with them every node, property and relation the plugin
/// answers, are those from before it; and the removal reports that the
/// player kind changed, then that the player's node and the facade's
/// relation to it went away.
pub proof fn lemma_remove_undoes_upsert(
    before: MprisSnapshot,
    upserted: MprisSnapshot,
    removed: MprisSnapshot,
    id: Seq<char>,
    player: MprisPlayerView,
)
    requires
        sorted_by_key(before.players.entries()),
        sorted_by_key(upserted.players.entries()),
        sorted_by_key(removed.players.entries()),
        !players_of(before).contains_key(id),
        players_of(upserted) == players_of(before).insert(id, player),
        players_of(removed) == players_of(upserted).remove(id),
    ensures
        players_of(removed) == players_of(before),
        removed.players.keys() == before.players.keys(),
        forall|n: NodeIdView| #[trigger] contains_spec(removed, n) == contains_spec(before, n),
        forall|k: Seq<char>| #[trigger] nodes_spec(removed, k) == nodes_spec(before, k),
        forall|n: NodeIdView| #[trigger]
            node_properties_spec(removed, n) == node_properties_spec(before, n),
        forall|n: NodeIdView| #[trigger]
            node_relations_spec(removed, n) == node_relations_spec(before, n),
        snapshot_changes_spec(upserted, removed) == seq![
            ChangeModel::NodeKindChanged("mpris-player"@),
            ChangeModel::NodeRemoved(player_view(id)),
            ChangeModel::RelationRemoved(facade_view(), id),
        ],
{
    let p0 = players_of(before);
    let p1 = players_of(upserted);
    let p2 = players_of(removed);
    assert(p2 =~= p0);
    lemma_map_keys_sorted(before.players);
    lemma_map_keys_sorted(upserted.players);
    lemma_map_keys_sorted(removed.players);
    assert(removed.players.map().dom() =~= before.players.map().dom()) by {
        assert(p2.dom() == removed.players.map().dom());
        assert(p0.dom() == before.players.map().dom());
    }
    assert forall|n: NodeIdView| #[trigger] node_relations_spec(removed, n) == node_relations_spec(
        before,
        n,
    ) by {
        if n == facade_view() {
            assert(Map::new(
                |i: Seq<char>| p2.contains_key(i),
                |i: Seq<char>| seq![player_view(i)],
            ) =~= Map::new(|i: Seq<char>| p0.contains_key(i), |i: Seq<char>| seq![player_view(i)]));
        }
    }
    let ok = upserted.players.keys();
    let nk = removed.players.keys();
    lemma_strictly_sorted_no_duplicates(ok);
    assert(upserted.players.map().dom() == p1.dom());
    assert(ok.to_set().contains(id));
    assert(ok.contains(id));
    assert(!nk.to_set().contains(id));
    assert(ok != nk);
    assert forall|i: int| 0 <= i < ok.len() && ok[i] != id implies p2.contains_key(#[trigger] ok[i]) by {
        assert(ok.to_set().contains(ok[i]));
    }
    lemma_one_removed(ok, p2, id);
    assert forall|i: int| 0 <= i < nk.len() implies p1.contains_key(#[trigger] nk[i]) by {
        assert(nk.to_set().contains(nk[i]));
    }
    lemma_nothing_removed(nk, p1);
    assert forall|i: int| 0 <= i < ok.len() && p2.contains_key(#[trigger] ok[i]) implies p1[ok[i]]
        == p2[ok[i]] by {}
    lemma_kept_unchanged(ok, p1, p2);
    assert(snapshot_changes_spec(upserted, removed) =~= seq![
        ChangeModel::NodeKindChanged("mpris-player"@),
        ChangeModel::NodeRemoved(player_view(id)),
        ChangeModel::RelationRemoved(facade_view(), id),
    ]);
}

/// A player node's capability properties are the player's own flags:
/// `can-play`, `can-pause`, `can-go-next` and `can-go-previous` each read
/// the flag of the same name, and `playback-status` its status.
pub proof fn lemma_player_capabilities(p: MprisPlayerView)
    ensures
        player_properties_spec(p)["can-play"@] == ValueModel::Bool(p.can_play),
        player_properties_spec(p)["can-pause"@] == ValueModel::Bool(p.can_pause),
        player_properties_spec(p)["can-go-next"@] == ValueModel::Bool(p.can_go_next),
        player_properties_spec(p)["can-go-previous"@] == ValueModel::Bool(p.can_go_previous),
        player_properties_spec(p)["playback-status"@] == ValueModel::Text(p.playback_status),
        player_properties_spec(p).contains_key("can-go-next"@),
        player_properties_spec(p).contains_key("can-go-previous"@),
{
    reveal_strlit("can-play");
    reveal_strlit("can-pause");
    reveal_strlit("can-go-next");
    reveal_strlit("can-go-previous");
    reveal_strlit("playback-status");
    reveal_strlit("length-us");
    assert("length-us"@ != "can-play"@ && "length-us"@ != "can-pause"@ && "length-us"@ != "can-go-next"@
        && "length-us"@ != "can-go-previous"@ && "length-us"@ != "playback-status"@) by {
        assert("length-us"@[0] != "can-play"@[0]);
        assert("length-us"@[0] != "playback-status"@[0]);
    }
    assert("can-go-previous"@ != "can-go-next"@) by {
        assert("can-go-previous"@[7] != "can-go-next"@[7]);
    }
    assert("can-go-previous"@ != "can-pause"@ && "can-go-next"@ != "can-pause"@) by {
        assert("can-go-previous"@[4] != "can-pause"@[4]);
    }
    assert("can-go-previous"@ != "can-play"@ && "can-go-next"@ != "can-play"@ && "can-pause"@ != "can-play"@) by {
        assert("can-go-previous"@[4] != "can-play"@[4]);
        assert("can-pause"@[5] != "can-play"@[5]);
    }
    assert("playback-status"@ != "can-play"@ && "playback-status"@ != "can-pause"@ && "playback-status"@
        != "can-go-next"@ && "playback-status"@ != "can-go-previous"@) by {
        assert("playback-status"@[0] != "can-play"@[0]);
    }
}

/// A player node's descriptive properties are the player's own texts:
/// `id`, `service-name`, `playerctl-name`, `identity`, `artist`, `title`,
/// `album` and `art-url` each read the field of that name, and `source` is
/// `mpris`.
pub proof fn lemma_player_texts(p: MprisPlayerView)
    ensures
        player_properties_spec(p)["id"@] == ValueModel::Text(p.id),
        player_properties_spec(p)["source"@] == ValueModel::Text("mpris"@),
        player_properties_spec(p)["service-name"@] == ValueModel::Text(p.service_name),
        player_properties_spec(p)["playerctl-name"@] == ValueModel::Text(p.playerctl_name),
        player_properties_spec(p)["identity"@] == ValueModel::Text(p.identity),
        player_properties_spec(p)["artist"@] == ValueModel::Text(p.artist),
        player_properties_spec(p)["title"@] == ValueModel::Text(p.title),
        player_properties_spec(p)["album"@] == ValueModel::Text(p.album),
        player_properties_spec(p)["art-url"@] == ValueModel::Text(p.art_url),
{
    reveal_strlit("id");
    reveal_strlit("source");
    reveal_strlit("service-name");
    reveal_strlit("playerctl-name");
    reveal_strlit("identity");
    reveal_strlit("artist");
    reveal_strlit("title");
    reveal_strlit("album");
    reveal_strlit("art-url");
    reveal_strlit("playback-status");
    reveal_strlit("can-play");
    reveal_strlit("can-pause");
    reveal_strlit("can-go-next");
    reveal_strlit("can-go-previous");
    reveal_strlit("length-us");
    assert("id"@.len() == 2 && "id"@[0] == 'i');
    assert("source"@.len() == 6 && "source"@[0] == 's');
    assert("service-name"@.len() == 12 && "service-name"@[0] == 's');
    assert("playerctl-name"@.len() == 14 && "playerctl-name"@[0] == 'p');
    assert("identity"@.len() == 8 && "identity"@[0] == 'i');
    assert("artist"@.len() == 6 && "artist"@[0] == 'a');
    assert("title"@.len() == 5 && "title"@[0] == 't');
    assert("album"@.len() == 5 && "album"@[0] == 'a');
    assert("art-url"@.len() == 7 && "art-url"@[0] == 'a');
    assert("playback-status"@.len() == 15 && "playback-status"@[0] == 'p');
    assert("can-play"@.len() == 8 && "can-play"@[0] == 'c');
    assert("can-pause"@.len() == 9 && "can-pause"@[0] == 'c');
    assert("can-go-next"@.len() == 11 && "can-go-next"@[0] == 'c');
    assert("can-go-previous"@.len() == 15 && "can-go-previous"@[0] == 'c');
    assert("length-us"@.len() == 9 && "length-us"@[0] == 'l');
}

} // verus!
