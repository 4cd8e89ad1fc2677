use locusfs::change::GraphChange;
use locusfs::identity::{NodeKind, PropertyKey, RelationName};
use locusfs::mpris::{
    mpris_node, player_id_from_service, player_node, player_properties,
    playerctl_name_from_service, MprisPlayer, MprisSnapshot, MprisState, MPRIS_KIND,
    MPRIS_PLAYER_KIND,
};
use locusfs::text_map::TextMap;
use locusfs::value::LocusValue;

fn player(id: &str, status: &str) -> MprisPlayer {
    MprisPlayer {
        id: id.to_string(),
        service_name: format!("org.mpris.MediaPlayer2.{id}"),
        playerctl_name: id.to_string(),
        identity: "Firefox".to_string(),
        artist: "Artist".to_string(),
        title: "Track".to_string(),
        album: "Album".to_string(),
        art_url: "file:///tmp/art.png".to_string(),
        playback_status: status.to_string(),
        can_play: true,
        can_pause: true,
        can_go_next: true,
        can_go_previous: true,
        length_us: Some(1_000_000),
    }
}

fn snapshot(players: Vec<MprisPlayer>) -> MprisSnapshot {
    let mut map = TextMap::new();
    for p in players {
        map.insert(p.id.clone(), p);
    }
    MprisSnapshot { players: map }
}

#[test]
fn state_exposes_player_properties_and_relation() {
    let mut state = MprisState::default();
    state.apply_snapshot(snapshot(vec![player("firefox", "Playing")])).unwrap();

    let source = mpris_node("player").unwrap();
    let target = player_node("firefox").unwrap();

    assert_eq!(
        state.targets(&source, &RelationName::new("firefox").unwrap()).unwrap(),
        vec![target.duplicate()]
    );
    assert_eq!(state.nodes(&NodeKind::new(MPRIS_KIND).unwrap()).unwrap().len(), 1);
    assert_eq!(state.nodes(&NodeKind::new(MPRIS_PLAYER_KIND).unwrap()).unwrap(), vec![target]);
}

#[test]
fn player_properties_include_bar_fields() {
    let properties = player_properties(&player("firefox", "Paused")).unwrap();

    assert_eq!(
        properties.get("title"),
        Some(&LocusValue::String("Track".to_string()))
    );
    assert_eq!(properties.get("can-go-next"), Some(&LocusValue::Bool(true)));
}

#[test]
fn state_emits_relation_and_property_changes() {
    let mut state = MprisState::default();
    let added = state.apply_snapshot(snapshot(vec![player("firefox", "Paused")])).unwrap();

    assert!(added.contains(&GraphChange::NodeAdded { node: player_node("firefox").unwrap() }));
    assert!(added.contains(&GraphChange::RelationAdded {
        source: mpris_node("player").unwrap(),
        relation: RelationName::new("firefox").unwrap()
    }));

    let changed = state.apply_snapshot(snapshot(vec![player("firefox", "Playing")])).unwrap();

    assert!(changed.contains(&GraphChange::PropertyChanged {
        node: player_node("firefox").unwrap(),
        key: PropertyKey::new("playback-status").unwrap()
    }));
}

#[test]
fn unchanged_snapshot_reports_no_changes() {
    let mut state = MprisState::default();
    state.apply_snapshot(snapshot(vec![player("firefox", "Paused")])).unwrap();
    let changes = state.apply_snapshot(snapshot(vec![player("firefox", "Paused")])).unwrap();
    assert!(changes.is_empty());
}

#[test]
fn removed_player_is_reported_and_gone() {
    let mut state = MprisState::default();
    state.apply_snapshot(snapshot(vec![player("firefox", "Paused")])).unwrap();
    let changes = state.apply_snapshot(snapshot(vec![])).unwrap();
    assert!(changes.contains(&GraphChange::NodeRemoved { node: player_node("firefox").unwrap() }));
    assert!(!state.contains_node(&player_node("firefox").unwrap()).unwrap());
}

#[test]
fn player_names_come_from_the_service_name() {
    assert_eq!(player_id_from_service("org.mpris.MediaPlayer2.firefox.instance_1_2"), "firefox.instance_1_2");
    assert_eq!(playerctl_name_from_service("org.mpris.MediaPlayer2.spotify"), "spotify");
}

#[test]
fn removing_an_upserted_player_undoes_the_upsert() {
    let mut state = MprisState::default();
    state.apply_snapshot(snapshot(vec![player("firefox", "Paused")])).unwrap();
    let kind = NodeKind::new(MPRIS_PLAYER_KIND).unwrap();
    let before = state.nodes(&kind).unwrap();
    state.upsert_player(player("mpv", "Playing")).unwrap();
    assert!(state.contains_node(&player_node("mpv").unwrap()).unwrap());
    let changes = state.remove_player("mpv").unwrap();
    assert_eq!(
        changes,
        vec![
            GraphChange::NodeKindChanged { kind: NodeKind::new(MPRIS_PLAYER_KIND).unwrap() },
            GraphChange::NodeRemoved { node: player_node("mpv").unwrap() },
            GraphChange::RelationRemoved {
                source: mpris_node("player").unwrap(),
                relation: RelationName::new("mpv").unwrap(),
            },
        ]
    );
    assert_eq!(state.nodes(&kind).unwrap(), before);
    assert!(!state.contains_node(&player_node("mpv").unwrap()).unwrap());
    assert!(state.remove_player("mpv").unwrap().is_empty());
}
