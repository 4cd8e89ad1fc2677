use locusfs::change::GraphChange;
use locusfs::identity::{NodeId, NodeKind, PropertyKey, RelationName};
use locusfs::pipewire::{EndpointState, PactlEndpoint, PactlInfo, PactlVolume};
use locusfs::pipewire_state::{
    endpoint_properties, snapshot_changes, snapshot_from_pactl, volume_icon, AudioEndpoint,
    PipeWireSnapshot,
    PipeWireState, PIPEWIRE_SINK_KIND, PIPEWIRE_SOURCE_KIND,
};
use locusfs::text_map::TextMap;
use locusfs::value::LocusValue;

fn node(kind: &str, local: &str) -> NodeId {
    NodeId::new(NodeKind::new(kind).unwrap(), local).unwrap()
}

fn pipewire_node(local: &str) -> NodeId {
    node("pipewire", local)
}

fn sink_node(local: &str) -> NodeId {
    node(PIPEWIRE_SINK_KIND, local)
}

fn source_node(local: &str) -> NodeId {
    node(PIPEWIRE_SOURCE_KIND, local)
}

fn texts(pairs: &[(&str, &str)]) -> TextMap<String, String> {
    let mut map = TextMap::new();
    for (key, value) in pairs {
        map.insert(key.to_string(), value.to_string());
    }
    map
}

fn endpoint(index: u32, name: &str, media_class: &str, device_class: &str) -> PactlEndpoint {
    let mut volume = TextMap::new();
    volume.insert("front-left".to_string(), PactlVolume { value: 65536 });
    PactlEndpoint {
        index,
        state: Some("SUSPENDED".to_string()),
        name: name.to_string(),
        description: None,
        mute: false,
        volume,
        properties: texts(&[("media.class", media_class), ("device.class", device_class)]),
    }
}

fn endpoint_value(id: u32, volume_percent: u32) -> AudioEndpoint {
    AudioEndpoint {
        id,
        name: format!("node-{id}"),
        description: format!("Node {id}"),
        nick: format!("Node {id}"),
        state: EndpointState::Suspended,
        muted: false,
        volume_percent,
        media_class: "Audio/Sink".to_string(),
        form_factor: "unknown".to_string(),
    }
}

fn endpoints(list: Vec<(&str, AudioEndpoint)>) -> TextMap<String, AudioEndpoint> {
    let mut map = TextMap::new();
    for (id, value) in list {
        map.insert(id.to_string(), value);
    }
    map
}

fn value(map: &locusfs::projection::PropertyMap, key: &str) -> LocusValue {
    map.get(key).unwrap().duplicate()
}

#[test]
fn maps_pactl_endpoint_to_bar_properties() {
    let mut volume = TextMap::new();
    volume.insert("front-left".to_string(), PactlVolume { value: 32768 });
    volume.insert("front-right".to_string(), PactlVolume { value: 65536 });
    let pactl = PactlEndpoint {
        index: 42,
        state: Some("RUNNING".to_string()),
        name: "alsa_output.test".to_string(),
        description: Some("Speakers".to_string()),
        mute: false,
        volume,
        properties: texts(&[
            ("node.nick", "Built-in"),
            ("device.form_factor", "speaker"),
            ("media.class", "Audio/Sink"),
        ]),
    };
    let endpoint = AudioEndpoint::from_pactl(&pactl, 75);

    let properties = endpoint_properties(&endpoint);

    assert_eq!(value(&properties, "id"), LocusValue::U32(42));
    assert_eq!(value(&properties, "description"), LocusValue::String("Speakers".to_string()));
    assert_eq!(value(&properties, "volume-percent"), LocusValue::U32(75));
    assert_eq!(
        value(&properties, "icon-name"),
        LocusValue::String("audio-volume-high-symbolic".to_string())
    );
    assert_eq!(value(&properties, "nick"), LocusValue::String("Built-in".to_string()));
    assert_eq!(value(&properties, "state"), LocusValue::String("running".to_string()));
}

#[test]
fn snapshot_resolves_defaults_by_name_and_filters_monitor_sources() {
    let snapshot = snapshot_from_pactl(
        &PactlInfo {
            default_sink_name: Some("sink-name".to_string()),
            default_source_name: Some("source-name".to_string()),
        },
        &vec![(endpoint(1, "sink-name", "Audio/Sink", "sound"), 100)],
        &vec![
            (endpoint(2, "sink-name.monitor", "Audio/Sink", "monitor"), 100),
            (endpoint(3, "source-name", "Audio/Source", "sound"), 100),
        ],
    );

    assert_eq!(snapshot.default_sink.as_deref(), Some("1"));
    assert_eq!(snapshot.default_source.as_deref(), Some("3"));
    assert!(snapshot.sources.contains_key("3"));
    assert!(!snapshot.sources.contains_key("2"));
}

#[test]
fn state_emits_relation_lifecycle_for_default_sink_and_sink_set() {
    let mut state = PipeWireState::new();
    let changes = state
        .apply_snapshot(PipeWireSnapshot {
            default_sink: Some("1".to_string()),
            default_source: None,
            sinks: endpoints(vec![("1", endpoint_value(1, 50))]),
            sources: TextMap::new(),
        })
        .unwrap();

    assert!(changes.contains(&GraphChange::NodeAdded { node: sink_node("1") }));
    assert!(changes.contains(&GraphChange::RelationAdded {
        source: pipewire_node("sink"),
        relation: RelationName::new("1").unwrap()
    }));
    assert!(changes.contains(&GraphChange::RelationAdded {
        source: pipewire_node("default"),
        relation: RelationName::new("sink").unwrap()
    }));
}

#[test]
fn state_exposes_expected_paths_as_relations() {
    let mut state = PipeWireState::new();
    state
        .apply_snapshot(PipeWireSnapshot {
            default_sink: Some("1".to_string()),
            default_source: Some("2".to_string()),
            sinks: endpoints(vec![("1", endpoint_value(1, 50))]),
            sources: endpoints(vec![("2", endpoint_value(2, 100))]),
        })
        .unwrap();

    assert_eq!(
        state
            .targets(&pipewire_node("default"), &RelationName::new("sink").unwrap())
            .unwrap(),
        vec![sink_node("1")]
    );
    assert_eq!(
        state
            .targets(&pipewire_node("source"), &RelationName::new("2").unwrap())
            .unwrap(),
        vec![source_node("2")]
    );
    assert_eq!(
        state.nodes(&NodeKind::new(PIPEWIRE_SINK_KIND).unwrap()).unwrap(),
        vec![sink_node("1")]
    );
    assert_eq!(
        state.nodes(&NodeKind::new(PIPEWIRE_SOURCE_KIND).unwrap()).unwrap(),
        vec![source_node("2")]
    );
}

#[test]
fn volume_icon_tracks_mute_and_ranges() {
    assert_eq!(volume_icon(true, 100), "audio-volume-muted-symbolic");
    assert_eq!(volume_icon(false, 10), "audio-volume-low-symbolic");
    assert_eq!(volume_icon(false, 50), "audio-volume-medium-symbolic");
    assert_eq!(volume_icon(false, 90), "audio-volume-high-symbolic");
}

#[test]
fn changed_endpoints_report_their_changed_properties() {
    let mut state = PipeWireState::new();
    state
        .apply_snapshot(PipeWireSnapshot {
            default_sink: None,
            default_source: None,
            sinks: endpoints(vec![("1", endpoint_value(1, 50)), ("2", endpoint_value(2, 50))]),
            sources: TextMap::new(),
        })
        .unwrap();
    let changes = state
        .apply_snapshot(PipeWireSnapshot {
            default_sink: None,
            default_source: None,
            sinks: endpoints(vec![("1", endpoint_value(1, 80))]),
            sources: TextMap::new(),
        })
        .unwrap();
    assert_eq!(
        changes,
        vec![
            GraphChange::NodeKindChanged { kind: NodeKind::new(PIPEWIRE_SINK_KIND).unwrap() },
            GraphChange::NodeRemoved { node: sink_node("2") },
            GraphChange::RelationRemoved {
                source: pipewire_node("sink"),
                relation: RelationName::new("2").unwrap(),
            },
            GraphChange::NodeChanged { node: sink_node("1") },
            GraphChange::PropertyChanged {
                node: sink_node("1"),
                key: PropertyKey::new("icon-name").unwrap(),
            },
            GraphChange::PropertyChanged {
                node: sink_node("1"),
                key: PropertyKey::new("volume-percent").unwrap(),
            },
        ]
    );
}

#[test]
fn invalid_default_ids_fail_the_default_relations() {
    let mut state = PipeWireState::new();
    state
        .apply_snapshot(PipeWireSnapshot {
            default_sink: Some(String::new()),
            default_source: None,
            sinks: TextMap::new(),
            sources: TextMap::new(),
        })
        .unwrap();
    assert!(state.relations(&pipewire_node("default")).is_err());
    assert!(state.relations(&pipewire_node("sink")).unwrap().is_empty());
    assert!(!state.contains_node(&sink_node("1")).unwrap());
    assert!(state.contains_node(&pipewire_node("source")).unwrap());
}

#[test]
fn departing_ids_that_cannot_name_a_node_are_refused() {
    let old = PipeWireSnapshot {
        default_sink: None,
        default_source: None,
        sinks: endpoints(vec![(".", endpoint_value(1, 40))]),
        sources: TextMap::new(),
    };
    let new = PipeWireSnapshot {
        default_sink: None,
        default_source: None,
        sinks: TextMap::new(),
        sources: TextMap::new(),
    };
    assert!(snapshot_changes(&old, &new).is_err());
    assert_eq!(snapshot_changes(&new, &new).unwrap(), Vec::<GraphChange>::new());
}
