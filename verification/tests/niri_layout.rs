use locusfs::change::GraphChange;
use locusfs::dbusmenu::{BusKind, DbusMenuEndpoint};
use locusfs::dbusmenu_layout::{flatten_layout, LayoutItem, LayoutProperties};
use locusfs::identity::{NodeId, NodeKind, PropertyKey};
use locusfs::niri::{
    context_properties, output_node, push_selected_window_property_changes,
    push_selected_workspace_property_changes, selected_context_node, window_id_node,
    workspace_id_node, workspace_properties, WorkspaceInfo,
};
use locusfs::niri_events::{event_changes, NiriEvent};
use locusfs::value::LocusValue;

fn node(kind: &str, local: &str) -> NodeId {
    NodeId::new(NodeKind::new(kind).unwrap(), local).unwrap()
}

fn selected(kind: &str, local: &str) -> GraphChange {
    GraphChange::PropertyChanged {
        node: node(kind, local),
        key: PropertyKey::new("selected").unwrap(),
    }
}

fn workspace(id: u64, name: Option<&str>) -> WorkspaceInfo {
    WorkspaceInfo {
        id,
        idx: 1,
        name: name.map(|n| n.to_owned()),
        output: Some("DP-1".to_owned()),
        is_urgent: false,
        is_active: true,
        is_focused: true,
        active_window_id: Some(7),
    }
}

fn value(map: &locusfs::projection::PropertyMap, key: &str) -> Option<LocusValue> {
    map.get(key).map(|v| v.duplicate())
}

#[test]
fn niri_nodes_are_named_by_id() {
    assert_eq!(window_id_node(7), node("window", "7"));
    assert_eq!(workspace_id_node(42), node("workspace", "42"));
    assert_eq!(output_node("DP-1").unwrap(), node("output", "DP-1"));
    assert!(output_node("").is_err());
    assert_eq!(selected_context_node(), node("context", "selected"));
}

#[test]
fn selection_moves_report_both_windows() {
    let mut changes = Vec::new();
    let mut reported = None;
    push_selected_window_property_changes(&mut changes, &mut reported, Some(7), Some(8));
    assert_eq!(changes, vec![selected("window", "7"), selected("window", "8")]);
    assert_eq!(reported, Some(8));
}

#[test]
fn a_reported_selection_is_not_reported_again() {
    let mut changes = Vec::new();
    let mut reported = Some(8);
    push_selected_window_property_changes(&mut changes, &mut reported, Some(7), Some(8));
    assert!(changes.is_empty());
    assert_eq!(reported, Some(8));
}

#[test]
fn workspace_selection_reports_old_and_new() {
    let mut changes = Vec::new();
    push_selected_workspace_property_changes(&mut changes, Some(42), Some(43));
    assert_eq!(changes, vec![selected("workspace", "42"), selected("workspace", "43")]);
    let mut same = Vec::new();
    push_selected_workspace_property_changes(&mut same, Some(42), Some(42));
    assert_eq!(same, vec![selected("workspace", "42")]);
}

#[test]
fn workspace_properties_use_the_index_for_a_missing_name() {
    let props = workspace_properties(&workspace(42, None), Some(42));
    assert_eq!(value(&props, "name"), Some(LocusValue::String("1".to_owned())));
    assert_eq!(value(&props, "index"), Some(LocusValue::U32(1)));
    assert_eq!(value(&props, "selected"), Some(LocusValue::Bool(true)));
    assert_eq!(value(&props, "active-window-id"), Some(LocusValue::String("7".to_owned())));
    assert_eq!(value(&props, "idx"), None);

    let named = workspace_properties(&workspace(43, Some("web")), Some(42));
    assert_eq!(value(&named, "name"), Some(LocusValue::String("web".to_owned())));
    assert_eq!(value(&named, "selected"), Some(LocusValue::Bool(false)));
}

#[test]
fn the_context_is_named_selected() {
    let props = context_properties();
    assert_eq!(value(&props, "kind"), Some(LocusValue::String("context".to_owned())));
    assert_eq!(value(&props, "name"), Some(LocusValue::String("selected".to_owned())));
}

fn layout(id: i32, label: &str, children: Vec<LayoutItem>) -> LayoutItem {
    LayoutItem {
        id,
        properties: LayoutProperties {
            label: Some(label.to_owned()),
            ..LayoutProperties::default()
        },
        children,
    }
}

#[test]
fn layouts_are_flattened_with_parents_and_positions() {
    let mut endpoint = DbusMenuEndpoint::new(
        "app:Menu".to_owned(),
        BusKind::Session,
        "org.example.App".to_owned(),
        "/Menu".to_owned(),
    );
    let tree = layout(
        0,
        "",
        vec![layout(1, "Open", vec![]), layout(2, "More", vec![layout(3, "Deep", vec![])])],
    );
    flatten_layout(&mut endpoint, None, 0, tree);

    assert_eq!(endpoint.root_items, vec![1, 2]);
    let open = endpoint.items.get(1).unwrap();
    assert_eq!(open.parent_id, Some(0));
    assert_eq!(open.position, 0);
    assert_eq!(open.label, "Open");
    assert!(open.enabled);
    assert_eq!(open.toggle_state, -1);
    let more = endpoint.items.get(2).unwrap();
    assert_eq!(more.position, 1);
    assert_eq!(more.child_ids, vec![3]);
    let deep = endpoint.items.get(3).unwrap();
    assert_eq!(deep.parent_id, Some(2));
    assert_eq!(deep.menu_id, "app:Menu");
    assert!(endpoint.items.get(0).is_none());
}

#[test]
fn window_properties_follow_the_window() {
    let window = locusfs::niri::WindowInfo {
        id: 57,
        title: Some("Editor".to_string()),
        app_id: None,
        pid: Some(1234),
        workspace_id: Some(1),
        is_focused: true,
        is_floating: false,
        is_urgent: false,
        pos_in_scrolling_layout: Some((2, 1)),
        window_size: (800, 600),
    };
    let props = locusfs::niri::window_properties(&window, Some(57)).unwrap();
    let get = |key: &str| props.get(key).map(|v| format!("{v:?}"));
    assert_eq!(get("id"), Some(format!("{:?}", locusfs::value::LocusValue::String("57".to_string()))));
    assert_eq!(get("title"), Some(format!("{:?}", locusfs::value::LocusValue::String("Editor".to_string()))));
    assert_eq!(get("app-id"), None);
    assert_eq!(get("pid"), Some(format!("{:?}", locusfs::value::LocusValue::I32(1234))));
    assert_eq!(get("workspace-id"), Some(format!("{:?}", locusfs::value::LocusValue::String("1".to_string()))));
    assert_eq!(get("selected"), Some(format!("{:?}", locusfs::value::LocusValue::Bool(true))));
    assert_eq!(get("column"), Some(format!("{:?}", locusfs::value::LocusValue::U32(2))));
    assert_eq!(get("row"), Some(format!("{:?}", locusfs::value::LocusValue::U32(1))));
    assert_eq!(get("window-height"), Some(format!("{:?}", locusfs::value::LocusValue::I32(600))));
    let unselected = locusfs::niri::window_properties(&window, None).unwrap();
    assert_eq!(
        unselected.get("selected").map(|v| format!("{v:?}")),
        Some(format!("{:?}", locusfs::value::LocusValue::Bool(false)))
    );
}

fn niri_model(window_ids: Vec<u64>, focused_window_id: Option<u64>) -> locusfs::niri_events::NiriModel {
    locusfs::niri_events::NiriModel {
        window_ids,
        workspace_ids: vec![42],
        focused_window_id,
        focused_workspace: Some(locusfs::niri_events::FocusedWorkspace {
            id: 42,
            active_window_id: focused_window_id,
        }),
        reported_selected_window_id: None,
    }
}

fn selected_change(id: &str) -> GraphChange {
    GraphChange::PropertyChanged {
        node: node("window", id),
        key: PropertyKey::new("selected").unwrap(),
    }
}

#[test]
fn focus_change_reports_both_selected_windows() {
    let state = niri_model(vec![7, 8], Some(7));
    let (changes, reported) = event_changes(&state, &NiriEvent::WindowFocusChanged { id: Some(8) });
    assert!(changes.contains(&selected_change("7")));
    assert!(changes.contains(&selected_change("8")));
    assert_eq!(reported, Some(8));
}

#[test]
fn opened_window_is_added_and_closed_selected_window_reports_selection() {
    let state = niri_model(vec![8], Some(8));
    let (opened, _) = event_changes(&state, &NiriEvent::WindowOpenedOrChanged { id: 7, is_focused: false });
    assert!(opened.contains(&GraphChange::NodeAdded { node: node("window", "7") }));
    let (closed, reported) = event_changes(&state, &NiriEvent::WindowClosed { id: 8 });
    assert_eq!(closed[0], GraphChange::NodeRemoved { node: node("window", "8") });
    assert!(closed.contains(&selected_change("8")));
    assert_eq!(reported, None);
}

#[test]
fn windows_changed_removes_missing_windows_in_order() {
    let state = niri_model(vec![7, 8, 9], None);
    let (changes, _) = event_changes(&state, &NiriEvent::WindowsChanged { window_ids: vec![8] });
    assert_eq!(
        changes,
        vec![
            GraphChange::NodeKindChanged { kind: NodeKind::new("window").unwrap() },
            GraphChange::NodeRemoved { node: node("window", "7") },
            GraphChange::NodeRemoved { node: node("window", "9") },
            GraphChange::NodeChanged { node: node("window", "8") },
            GraphChange::RelationChanged {
                source: node("window", "8"),
                relation: locusfs::identity::RelationName::new("workspace").unwrap(),
            },
            GraphChange::RelationChanged {
                source: node("context", "selected"),
                relation: locusfs::identity::RelationName::new("window").unwrap(),
            },
        ]
    );
    let (none, reported) = event_changes(&state, &NiriEvent::Other);
    assert!(none.is_empty());
    assert_eq!(reported, None);
}
