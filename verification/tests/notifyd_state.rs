use locusfs::identity::{NodeKind, PathName, PropertyKey};
use locusfs::notifyd::{
    action_node, make_action, notification_node, notifyd_node, NotificationRecord,
    NotificationUrgency, NotifydCommandTarget, NotifydState, COMMANDS_NODE, NOTIFICATIONS_NODE,
    NOTIFICATION_ACTION_KIND, NOTIFICATION_KIND, NOTIFYD_KIND, PATH_PROVIDER_KINDS,
};
use locusfs::notifyd_ids::allocate_notification_id;
use locusfs::path::{GraphPathDirectory, GraphPathEntry};
use locusfs::value::LocusValue;

fn test_state() -> NotifydState {
    NotifydState::new("Locus Notifyd".to_owned(), false)
}

fn notification(id: &str, summary: &str) -> NotificationRecord {
    NotificationRecord {
        local_id: id.to_owned(),
        dbus_id: id.parse().unwrap_or(1),
        created_at_unix_ms: 1000,
        updated_at_unix_ms: 1000,
        expire_timeout_ms: 5000,
        app_name: "Tests".to_owned(),
        desktop_entry: "tests".to_owned(),
        app_icon: "dialog-information".to_owned(),
        summary: summary.to_owned(),
        body: "Body".to_owned(),
        body_markup: None,
        category: "status".to_owned(),
        urgency: NotificationUrgency::Critical,
        progress: Some(40),
        resident: false,
        transient: false,
        suppress_sound: false,
        icon_name: "dialog-information".to_owned(),
        image_path: Some("/tmp/image.png".to_owned()),
        image_source: "image-path".to_owned(),
        image_width: Some(64),
        image_height: Some(64),
        stack_key: Some("tests".to_owned()),
        actions: Vec::new(),
    }
}

#[test]
fn path_providers_cover_all_notifyd_path_node_kinds() {
    assert_eq!(PATH_PROVIDER_KINDS, [NOTIFYD_KIND, NOTIFICATION_KIND, NOTIFICATION_ACTION_KIND]);
}

#[test]
fn notifications_path_lists_notifications() {
    let mut state = test_state();
    state.upsert_notification(notification("1", "Build done"), 16).unwrap();

    let notifications = notifyd_node(NOTIFICATIONS_NODE).unwrap();
    let children = state.path_children(&GraphPathDirectory::Node(notifications)).unwrap().unwrap();

    assert_eq!(children.len(), 1);
    assert_eq!(children[0].name.as_str(), "1");
    assert_eq!(
        children[0].entry,
        GraphPathEntry::Directory(GraphPathDirectory::Node(notification_node("1").unwrap()))
    );
}

#[test]
fn notification_properties_match_record() {
    let mut state = test_state();
    state.upsert_notification(notification("7", "Hello"), 16).unwrap();
    let node = notification_node("7").unwrap();

    assert_eq!(
        state.property(&node, &PropertyKey::new("summary").unwrap()).unwrap(),
        LocusValue::String("Hello".to_owned())
    );
    assert_eq!(
        state.property(&node, &PropertyKey::new("urgency").unwrap()).unwrap(),
        LocusValue::String("critical".to_owned())
    );
    assert!(state.property_spec(&node, &PropertyKey::new("discard").unwrap()).unwrap().is_writable());
}

#[test]
fn discard_removes_notification_from_notifications_path() {
    let mut state = test_state();
    state.upsert_notification(notification("10", "Discarded"), 16).unwrap();

    state.discard_notification("10").unwrap();

    let notifications = notifyd_node(NOTIFICATIONS_NODE).unwrap();
    let children = state.path_children(&GraphPathDirectory::Node(notifications)).unwrap().unwrap();
    assert!(children.is_empty());
}

#[test]
fn command_target_validates_discard_writes() {
    let mut state = test_state();
    state.upsert_notification(notification("11", "Discardable"), 16).unwrap();

    assert_eq!(
        state
            .command_target(
                &notification_node("11").unwrap(),
                &PropertyKey::new("discard").unwrap(),
                &LocusValue::String("discarded".to_owned()),
            )
            .unwrap(),
        NotifydCommandTarget::Discard { notification_id: "11".to_owned() }
    );
}

#[test]
fn command_target_validates_discard_all_writes() {
    let state = test_state();
    let commands = notifyd_node(COMMANDS_NODE).unwrap();

    assert_eq!(
        state
            .command_target(
                &commands,
                &PropertyKey::new("discard-all").unwrap(),
                &LocusValue::String("discarded".to_owned()),
            )
            .unwrap(),
        NotifydCommandTarget::DiscardAll
    );
}

#[test]
fn notification_actions_are_exposed_under_actions_directory() {
    let mut state = test_state();
    let mut record = notification("3", "Actionable");
    record.actions = vec![make_action("3", "default".to_owned(), "Open".to_owned())];
    state.upsert_notification(record, 16).unwrap();
    let node = notification_node("3").unwrap();

    let actions = state
        .path_lookup_child(&GraphPathDirectory::Node(node.duplicate()), &PathName::new("actions").unwrap())
        .unwrap()
        .unwrap();
    let GraphPathEntry::Directory(actions_dir) = actions else {
        panic!("actions should be a directory");
    };
    let children = state.path_children(&actions_dir).unwrap().unwrap();

    assert_eq!(children.len(), 1);
    assert_eq!(children[0].name.as_str(), "default");
    let action = action_node("3-default").unwrap();
    assert_eq!(
        state.property(&action, &PropertyKey::new("label").unwrap()).unwrap(),
        LocusValue::String("Open".to_owned())
    );
    assert!(state.property_spec(&action, &PropertyKey::new("invoke").unwrap()).unwrap().is_writable());
}

#[test]
fn command_target_validates_invoke_writes() {
    let mut state = test_state();
    let mut record = notification("4", "Actionable");
    record.actions = vec![make_action("4", "default".to_owned(), "Open".to_owned())];
    state.upsert_notification(record, 16).unwrap();

    assert_eq!(
        state
            .command_target(
                &action_node("4-default").unwrap(),
                &PropertyKey::new("invoke").unwrap(),
                &LocusValue::String("default".to_owned()),
            )
            .unwrap(),
        NotifydCommandTarget::InvokeAction {
            notification_id: "4".to_owned(),
            action_key: "default".to_owned(),
        }
    );
}

#[test]
fn command_dnd_is_read_write() {
    let state = test_state();
    let commands = notifyd_node(COMMANDS_NODE).unwrap();
    let key = PropertyKey::new("dnd-enabled").unwrap();

    let spec = state.property_spec(&commands, &key).unwrap();
    assert!(spec.is_readable());
    assert!(spec.is_writable());
    assert_eq!(
        state.command_target(&commands, &key, &LocusValue::Bool(true)).unwrap(),
        NotifydCommandTarget::SetDnd(true)
    );
}

#[test]
fn node_lists_include_notifications_and_actions() {
    let mut state = test_state();
    let mut record = notification("8", "Actionable");
    record.actions = vec![make_action("8", "default".to_owned(), "Open".to_owned())];
    state.upsert_notification(record, 16).unwrap();

    assert_eq!(
        state.nodes(&NodeKind::new(NOTIFICATION_KIND).unwrap()).unwrap(),
        vec![notification_node("8").unwrap()]
    );
    assert_eq!(
        state.nodes(&NodeKind::new(NOTIFICATION_ACTION_KIND).unwrap()).unwrap(),
        vec![action_node("8-default").unwrap()]
    );
}

#[test]
fn the_oldest_notification_is_evicted_beyond_the_limit() {
    let mut state = test_state();
    let mut first = notification("1", "First");
    first.updated_at_unix_ms = 10;
    first.created_at_unix_ms = 10;
    state.upsert_notification(first, 1).unwrap();
    state.upsert_notification(notification("2", "Second"), 1).unwrap();
    assert!(state.notification("1").is_none());
    assert!(state.notification("2").is_some());
}

#[test]
fn suppressed_count_saturates_and_dnd_toggles() {
    let mut state = test_state();
    assert!(!state.dnd_enabled());
    state.set_dnd_enabled(true).unwrap();
    assert!(state.dnd_enabled());
    let changes = state.set_dnd_enabled(true).unwrap();
    assert!(changes.is_empty());
    state.increment_suppressed().unwrap();
    let count = state
        .property(&notifyd_node("state").unwrap(), &PropertyKey::new("suppressed-count").unwrap())
        .unwrap();
    assert_eq!(count, LocusValue::U32(1));
}

#[test]
fn notification_ids_skip_the_ones_in_use() {
    let mut state = test_state();
    state.upsert_notification(notification("1", "One"), 16).unwrap();
    state.upsert_notification(notification("2", "Two"), 16).unwrap();

    let mut next = 0;
    assert_eq!(allocate_notification_id(&state, 2, &mut next).unwrap(), 2);
    assert_eq!(next, 0);
    assert_eq!(allocate_notification_id(&state, 9, &mut next).unwrap(), 3);
    assert_eq!(next, 4);

    let mut last = u32::MAX;
    assert_eq!(allocate_notification_id(&state, 0, &mut last).unwrap(), u32::MAX);
    assert_eq!(last, 1);
    assert_eq!(allocate_notification_id(&state, 0, &mut last).unwrap(), 3);
    assert_eq!(last, 4);
}
