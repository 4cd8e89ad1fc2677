use locusfs::dbus_state::{
    object_snapshot, service_node, BusKind, DbusMethodSnapshot, DbusPropertySnapshot, DbusState,
    ObjectSnapshot, ServiceConfig, DBUS_METHOD_KIND, DBUS_OBJECT_KIND, DBUS_SERVICE_KIND,
};
use locusfs::identity::{NodeId, NodeKind, PathName, PropertyKey, RelationName};
use locusfs::path::{GraphPathDirectory, GraphPathEntry, GraphWatchTarget};
use locusfs::text_map::TextMap;
use locusfs::value::LocusValue;

fn test_state() -> DbusState {
    DbusState::new(vec![ServiceConfig::system("org.example.Power")])
}

fn property(value: LocusValue) -> DbusPropertySnapshot {
    DbusPropertySnapshot {
        value,
        writable: false,
    }
}

fn writable_property(value: LocusValue) -> DbusPropertySnapshot {
    DbusPropertySnapshot {
        value,
        writable: true,
    }
}

fn table<V>(entries: Vec<(&str, V)>) -> TextMap<String, V> {
    let mut map = TextMap::new();
    for (key, value) in entries {
        map.insert(key.to_string(), value);
    }
    map
}

fn object(
    service: &str,
    path: &str,
    interfaces: Vec<(&str, Vec<(&str, DbusPropertySnapshot)>)>,
) -> ObjectSnapshot {
    let mut tables = TextMap::new();
    for (interface, properties) in interfaces {
        tables.insert(interface.to_string(), table(properties));
    }
    object_snapshot(service.to_string(), path.to_string(), tables)
}

fn no_arguments() -> DbusMethodSnapshot {
    DbusMethodSnapshot {
        input_signature: Vec::new(),
    }
}

fn objects(list: Vec<ObjectSnapshot>) -> TextMap<String, ObjectSnapshot> {
    let mut map = TextMap::new();
    for object in list {
        map.insert(object.path.clone(), object);
    }
    map
}

fn object_node(local: &str) -> NodeId {
    NodeId::new(NodeKind::new(DBUS_OBJECT_KIND).unwrap(), local).unwrap()
}

fn method_node(local: &str) -> NodeId {
    NodeId::new(NodeKind::new(DBUS_METHOD_KIND).unwrap(), local).unwrap()
}

fn lookup_dir(state: &DbusState, parent: &GraphPathDirectory, name: &str) -> GraphPathDirectory {
    match state
        .path_lookup_child(parent, &PathName::new(name).unwrap())
        .unwrap()
    {
        Some(GraphPathEntry::Directory(directory)) => directory,
        other => panic!("expected directory for {name}, got {other:?}"),
    }
}

fn child_names(state: &DbusState, parent: &GraphPathDirectory) -> Vec<String> {
    state
        .path_children(parent)
        .unwrap()
        .unwrap_or_default()
        .into_iter()
        .map(|child| child.name.as_str().to_owned())
        .collect()
}

fn is_property(state: &DbusState, parent: &GraphPathDirectory, name: &str) -> bool {
    matches!(
        state
            .path_lookup_child(parent, &PathName::new(name).unwrap())
            .unwrap(),
        Some(GraphPathEntry::Property { .. })
    )
}

fn keyboard_object(methods: Vec<(&str, Vec<&str>)>) -> ObjectSnapshot {
    let mut keyboard = object(
        "power",
        "/org/example/Power/devices/Keyboard0",
        vec![(
            "org.example.Power.Device",
            vec![("Name", property(LocusValue::String("Keyboard".to_string())))],
        )],
    );
    let mut tables = TextMap::new();
    for (interface, names) in methods {
        tables.insert(
            interface.to_string(),
            table(names.into_iter().map(|name| (name, no_arguments())).collect()),
        );
    }
    keyboard.methods = tables;
    keyboard
}

#[test]
fn exposes_configured_bus_node() {
    let state = test_state();
    let kind = NodeKind::new(DBUS_SERVICE_KIND).unwrap();
    let service = service_node("system").unwrap();

    assert_eq!(state.nodes(&kind).unwrap(), vec![service_node("system").unwrap()]);
    assert!(state.contains_node(&service).unwrap());
}

#[test]
fn inactive_bus_properties_list_services_without_active_services() {
    let state = test_state();
    let node = service_node("system").unwrap();

    assert_eq!(
        state
            .property(&node, &PropertyKey::new("services").unwrap())
            .unwrap(),
        LocusValue::String("power".to_string())
    );
    assert_eq!(
        state
            .property(&node, &PropertyKey::new("active-services").unwrap())
            .unwrap(),
        LocusValue::String(String::new())
    );
    assert!(state
        .property(&node, &PropertyKey::new("owner").unwrap())
        .is_err());
}

#[test]
fn service_snapshot_exposes_objects_without_public_relations() {
    let mut state = test_state();
    // The battery level is a D-Bus double; the library carries it as text.
    let battery = object(
        "power",
        "/org/example/Power/devices/Battery0",
        vec![(
            "org.example.Power.Device",
            vec![
                ("Percentage", property(LocusValue::String("82.5".to_string()))),
                ("NativePath", property(LocusValue::String("BAT0".to_string()))),
            ],
        )],
    );
    state
        .set_service_snapshot("power", Some(":1.42".to_string()), objects(vec![battery]))
        .expect("snapshot update succeeds");

    let service = service_node("system").unwrap();
    let object_node = object_node("power:/org/example/Power/devices/Battery0");

    assert_eq!(
        state
            .property(&service, &PropertyKey::new("active-services").unwrap())
            .unwrap(),
        LocusValue::String("power".to_string())
    );
    assert!(state.relations(&service).unwrap().is_empty());
    assert!(state
        .targets(&service, &RelationName::new("object").unwrap())
        .is_err());
    assert!(state.relations(&object_node).unwrap().is_empty());
    assert!(state
        .targets(&object_node, &RelationName::new("dbus").unwrap())
        .is_err());
    assert_eq!(
        state
            .property(&object_node, &PropertyKey::new("Percentage").unwrap())
            .unwrap(),
        LocusValue::String("82.5".to_string())
    );
    assert_eq!(
        state
            .property(&object_node, &PropertyKey::new("service-name").unwrap())
            .unwrap(),
        LocusValue::String("org.example.Power".to_string())
    );
    assert_eq!(
        state
            .property(&object_node, &PropertyKey::new("path").unwrap())
            .unwrap(),
        LocusValue::String("/org/example/Power/devices/Battery0".to_string())
    );
    assert_eq!(
        state
            .property(
                &object_node,
                &PropertyKey::new("org.example.Power.Device.Percentage").unwrap()
            )
            .unwrap(),
        LocusValue::String("82.5".to_string())
    );
}

#[test]
fn object_node_ids_use_full_dbus_paths() {
    let mut state = test_state();
    let outside = object(
        "power",
        "/org/other/Device0",
        vec![(
            "org.example.Device",
            vec![("Name", property(LocusValue::String("outside".to_string())))],
        )],
    );
    state
        .set_service_snapshot("power", Some(":1.42".to_string()), objects(vec![outside]))
        .expect("snapshot update succeeds");

    let node = object_node("power:/org/other/Device0");

    assert_eq!(
        state
            .nodes(&NodeKind::new(DBUS_OBJECT_KIND).unwrap())
            .unwrap(),
        vec![object_node("power:/org/other/Device0")]
    );
    assert!(state.contains_node(&node).unwrap());
    assert_eq!(
        state
            .property(&node, &PropertyKey::new("path").unwrap())
            .unwrap(),
        LocusValue::String("/org/other/Device0".to_string())
    );
    assert_eq!(
        state
            .property(&node, &PropertyKey::new("Name").unwrap())
            .unwrap(),
        LocusValue::String("outside".to_string())
    );
}

#[test]
fn writable_object_properties_are_marked_and_update_cache() {
    let mut state = test_state();
    let power = object(
        "power",
        "/org/example/Power",
        vec![(
            "org.example.Power",
            vec![(
                "ActiveProfile",
                writable_property(LocusValue::String("balanced".to_string())),
            )],
        )],
    );
    state
        .set_service_snapshot("power", Some(":1.42".to_string()), objects(vec![power]))
        .expect("snapshot update succeeds");

    let node = object_node("power:/org/example/Power");
    let key = PropertyKey::new("ActiveProfile").unwrap();

    assert!(state.property_spec(&node, &key).unwrap().is_writable());
    assert_eq!(
        state.writable_property(&node, &key).unwrap().interface,
        "org.example.Power"
    );

    state
        .update_cached_property(&node, &key, LocusValue::String("performance".to_string()))
        .unwrap();
    assert_eq!(
        state.property(&node, &key).unwrap(),
        LocusValue::String("performance".to_string())
    );
}

#[test]
fn object_methods_are_exposed_as_write_only_call_nodes() {
    let mut state = test_state();
    let mut keyboard = object(
        "power",
        "/org/example/Power/devices/Keyboard0",
        vec![(
            "org.example.Power.Device",
            vec![("Name", property(LocusValue::String("Keyboard".to_string())))],
        )],
    );
    keyboard.methods = table(vec![(
        "org.example.Power.Device",
        table(vec![("Connect", no_arguments())]),
    )]);
    state
        .set_service_snapshot("power", Some(":1.42".to_string()), objects(vec![keyboard]))
        .expect("snapshot update succeeds");

    let object = object_node("power:/org/example/Power/devices/Keyboard0");
    let method = method_node("power:/org/example/Power/devices/Keyboard0:Connect");
    let call_key = PropertyKey::new("call").unwrap();

    assert!(state.relations(&object).unwrap().is_empty());
    assert!(state
        .targets(&object, &RelationName::new("methods").unwrap())
        .is_err());
    assert!(state.contains_node(&method).unwrap());
    assert_eq!(
        state
            .property(&method, &PropertyKey::new("method").unwrap())
            .unwrap(),
        LocusValue::String("Connect".to_string())
    );
    assert_eq!(
        state
            .property(&method, &PropertyKey::new("interface").unwrap())
            .unwrap(),
        LocusValue::String("org.example.Power.Device".to_string())
    );
    let spec = state.property_spec(&method, &call_key).unwrap();
    assert!(spec.is_writable());
    assert!(!spec.is_readable());
    assert_eq!(
        state.callable_method(&method, &call_key).unwrap().method,
        "Connect"
    );
}

#[test]
fn rejects_unconfigured_service_nodes() {
    let state = test_state();
    let node = service_node("upower").unwrap();

    assert!(!state.contains_node(&node).unwrap());
    assert!(state
        .property(&node, &PropertyKey::new("services").unwrap())
        .is_err());
}

#[test]
fn session_services_are_listed_on_the_session_bus_node() {
    let mut state = DbusState::new(vec![
        ServiceConfig::system("org.example.Power"),
        ServiceConfig {
            local_id: "agentdbus".to_string(),
            bus: BusKind::Session,
            name: "io.github.AgentDBus".to_string(),
            object_manager_path: "/io/github/AgentDBus".to_string(),
        },
    ]);
    let kind = NodeKind::new(DBUS_SERVICE_KIND).unwrap();
    assert_eq!(
        state.nodes(&kind).unwrap(),
        vec![
            service_node("session").unwrap(),
            service_node("system").unwrap()
        ]
    );
    state
        .set_service_snapshot("agentdbus", Some(":1.77".to_string()), TextMap::new())
        .expect("snapshot update succeeds");
    let session = service_node("session").unwrap();
    let system = service_node("system").unwrap();
    let active = PropertyKey::new("active-services").unwrap();
    assert_eq!(
        state.property(&session, &active).unwrap(),
        LocusValue::String("agentdbus".to_string())
    );
    assert_eq!(
        state.property(&system, &active).unwrap(),
        LocusValue::String(String::new())
    );
    assert_eq!(
        state
            .property(&session, &PropertyKey::new("bus").unwrap())
            .unwrap(),
        LocusValue::String("session".to_string())
    );
}

#[test]
fn unknown_service_snapshots_are_rejected() {
    let mut state = test_state();
    assert!(state
        .set_service_snapshot("upower", None, TextMap::new())
        .is_err());
}

#[test]
fn bus_path_exposes_object_tree_properties_and_method_call_files() {
    let mut state = test_state();
    let keyboard = keyboard_object(vec![("org.example.Power.Device", vec!["Connect"])]);
    state
        .set_service_snapshot("power", Some(":1.42".to_string()), objects(vec![keyboard]))
        .expect("snapshot update succeeds");

    let root = GraphPathDirectory::Node(service_node("system").unwrap());
    assert_eq!(child_names(&state, &root), vec!["org".to_string()]);

    let org_dir = lookup_dir(&state, &root, "org");
    let example_dir = lookup_dir(&state, &org_dir, "example");
    let power_dir = lookup_dir(&state, &example_dir, "Power");
    let devices_dir = lookup_dir(&state, &power_dir, "devices");
    let keyboard_dir = lookup_dir(&state, &devices_dir, "Keyboard0");
    let listed_children = child_names(&state, &keyboard_dir);
    assert!(listed_children.contains(&"Name".to_string()));
    assert!(listed_children.contains(&"org.example.Power.Device.Name".to_string()));
    assert!(listed_children.contains(&"Connect.call".to_string()));
    assert!(listed_children.contains(&"org.example.Power.Device.Connect.call".to_string()));

    assert!(is_property(&state, &keyboard_dir, "Name"));
    assert!(is_property(&state, &keyboard_dir, "Connect.call"));
}

#[test]
fn bus_path_preserves_full_object_paths_without_absolute_namespace() {
    let mut state = test_state();
    let outside = object(
        "power",
        "/org/other/Device0",
        vec![(
            "org.example.Device",
            vec![("Name", property(LocusValue::String("outside".to_string())))],
        )],
    );
    state
        .set_service_snapshot("power", Some(":1.42".to_string()), objects(vec![outside]))
        .expect("snapshot update succeeds");

    let root = GraphPathDirectory::Node(service_node("system").unwrap());
    assert!(!child_names(&state, &root).contains(&"_absolute".to_string()));
    let org_dir = lookup_dir(&state, &root, "org");
    let other_dir = lookup_dir(&state, &org_dir, "other");
    let device_dir = lookup_dir(&state, &other_dir, "Device0");

    assert!(is_property(&state, &device_dir, "Name"));
}

#[test]
fn root_object_manager_paths_are_exposed_as_full_dbus_paths() {
    let mut state = DbusState::new(vec![ServiceConfig {
        local_id: "bluez".to_string(),
        bus: BusKind::System,
        name: "org.bluez".to_string(),
        object_manager_path: "/".to_string(),
    }]);
    let adapter = object(
        "bluez",
        "/org/bluez/hci0",
        vec![("org.bluez.Adapter1", vec![("Powered", property(LocusValue::Bool(true)))])],
    );
    state
        .set_service_snapshot("bluez", Some(":1.42".to_string()), objects(vec![adapter]))
        .expect("snapshot update succeeds");

    let root = GraphPathDirectory::Node(service_node("system").unwrap());
    let org_dir = lookup_dir(&state, &root, "org");
    let bluez_dir = lookup_dir(&state, &org_dir, "bluez");
    let adapter_dir = lookup_dir(&state, &bluez_dir, "hci0");

    assert!(is_property(&state, &adapter_dir, "Powered"));
}

#[test]
fn session_bus_paths_are_exposed_under_session() {
    let mut state = DbusState::new(vec![ServiceConfig {
        local_id: "agentdbus".to_string(),
        bus: BusKind::Session,
        name: "io.github.AgentDBus".to_string(),
        object_manager_path: "/io/github/AgentDBus".to_string(),
    }]);
    let codex = object(
        "agentdbus",
        "/io/github/AgentDBus/sessions/codex",
        vec![(
            "io.github.AgentDBus.Session",
            vec![("Status", property(LocusValue::String("running".to_string())))],
        )],
    );
    state
        .set_service_snapshot("agentdbus", Some(":1.77".to_string()), objects(vec![codex]))
        .expect("snapshot update succeeds");

    let session = service_node("session").unwrap();
    assert_eq!(
        state
            .nodes(&NodeKind::new(DBUS_SERVICE_KIND).unwrap())
            .unwrap(),
        vec![service_node("session").unwrap()]
    );
    let root = GraphPathDirectory::Node(session);
    let io_dir = lookup_dir(&state, &root, "io");
    let github_dir = lookup_dir(&state, &io_dir, "github");
    let agent_dir = lookup_dir(&state, &github_dir, "AgentDBus");
    let sessions_dir = lookup_dir(&state, &agent_dir, "sessions");
    let codex_dir = lookup_dir(&state, &sessions_dir, "codex");

    assert!(is_property(&state, &codex_dir, "Status"));
    assert_eq!(
        state.path_watch_target(&codex_dir).unwrap(),
        Some(GraphWatchTarget::Kind(
            NodeKind::new(DBUS_OBJECT_KIND).unwrap()
        ))
    );
}

#[test]
fn ambiguous_methods_require_canonical_call_names() {
    let mut state = test_state();
    let keyboard = keyboard_object(vec![
        ("org.example.Keyboard", vec!["Connect"]),
        ("org.example.Power.Device", vec!["Connect"]),
    ]);
    state
        .set_service_snapshot("power", Some(":1.42".to_string()), objects(vec![keyboard]))
        .expect("snapshot update succeeds");

    let root = GraphPathDirectory::Node(service_node("system").unwrap());
    let keyboard_dir = lookup_dir(
        &state,
        &lookup_dir(
            &state,
            &lookup_dir(
                &state,
                &lookup_dir(&state, &lookup_dir(&state, &root, "org"), "example"),
                "Power",
            ),
            "devices",
        ),
        "Keyboard0",
    );
    let listed_children = child_names(&state, &keyboard_dir);

    assert!(!listed_children.contains(&"Connect.call".to_string()));
    assert!(listed_children.contains(&"org.example.Keyboard.Connect.call".to_string()));
    assert!(listed_children.contains(&"org.example.Power.Device.Connect.call".to_string()));
}

#[test]
fn missing_directories_resolve_to_nothing() {
    let mut state = test_state();
    let outside = object("power", "/org/other/Device0", vec![]);
    state
        .set_service_snapshot("power", None, objects(vec![outside]))
        .expect("snapshot update succeeds");
    let root = GraphPathDirectory::Node(service_node("system").unwrap());
    assert!(state
        .path_lookup_child(&root, &PathName::new("net").unwrap())
        .unwrap()
        .is_none());
    let session_root = GraphPathDirectory::Node(service_node("session").unwrap());
    assert!(state.path_children(&session_root).unwrap().is_none());
    assert_eq!(state.path_watch_target(&session_root).unwrap(), None);
}
