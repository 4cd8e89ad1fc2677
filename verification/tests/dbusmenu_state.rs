use locusfs::dbusmenu::{
    dbusmenu_node, menu_local_id, menu_node, registered_item_target, BusKind, DbusMenuConfig,
    DbusMenuEndpoint, DbusMenuItem, DbusMenuState, MenuConfig, DBUSMENU_ITEM_KIND, DBUSMENU_KIND,
    DBUSMENU_MENU_KIND, MENU_RELATION,
};
use locusfs::error::GraphError;
use locusfs::id_map::IdMap;
use locusfs::identity::{NodeId, NodeKind, PropertyKey, RelationName};
use locusfs::value::LocusValue;

fn endpoint(root_items: Vec<i32>) -> DbusMenuEndpoint {
    DbusMenuEndpoint {
        local_id: "app:Menu".to_string(),
        bus: BusKind::Session,
        service: "org.example.App".to_string(),
        path: "/Menu".to_string(),
        revision: 0,
        root_items,
        items: IdMap::new(),
    }
}

fn item(menu: &DbusMenuEndpoint, id: i32, label: &str) -> DbusMenuItem {
    DbusMenuItem {
        menu_id: menu.local_id.clone(),
        bus: BusKind::Session,
        service: menu.service.clone(),
        path: menu.path.clone(),
        item_id: id,
        parent_id: None,
        position: 0,
        child_ids: Vec::new(),
        label: label.to_string(),
        enabled: true,
        visible: true,
        item_type: String::new(),
        toggle_type: String::new(),
        toggle_state: 0,
        icon_name: String::new(),
        disposition: String::new(),
    }
}

#[test]
fn exposes_configured_menu_endpoint() {
    let state = DbusMenuState::new(vec![endpoint(Vec::new())]);

    let facade = dbusmenu_node("menu").unwrap();
    let endpoint = menu_node("app:Menu").unwrap();

    assert_eq!(
        state.nodes(&NodeKind::new(DBUSMENU_KIND).unwrap()).unwrap(),
        vec![facade.duplicate()]
    );
    assert_eq!(
        state.nodes(&NodeKind::new(DBUSMENU_MENU_KIND).unwrap()).unwrap(),
        vec![endpoint.duplicate()]
    );
    assert_eq!(
        state.targets(&facade, &RelationName::new(MENU_RELATION).unwrap()).unwrap(),
        vec![endpoint.duplicate()]
    );
    assert_eq!(
        state.property(&endpoint, &PropertyKey::new("service").unwrap()).unwrap(),
        LocusValue::String("org.example.App".to_string())
    );
}

#[test]
fn exposes_activate_item_property_as_writable() {
    let mut menu = endpoint(vec![1]);
    let item = item(&menu, 1, "Open");
    let item_node = NodeId::new(NodeKind::new(DBUSMENU_ITEM_KIND).unwrap(), &item.local_id()).unwrap();
    menu.items.insert(item.item_id, item);
    let state = DbusMenuState::new(vec![menu]);

    let spec = state.property_spec(&item_node, &PropertyKey::new("activate").unwrap()).unwrap();

    assert!(spec.is_readable());
    assert!(spec.is_writable());
}

#[test]
fn registered_item_target_uses_default_statusnotifier_path() {
    assert_eq!(
        registered_item_target(":1.42"),
        Some((":1.42".to_owned(), "/StatusNotifierItem".to_owned()))
    );
}

#[test]
fn registered_item_target_accepts_service_plus_custom_path() {
    assert_eq!(
        registered_item_target(":1.62/org/ayatana/NotificationItem/nm_applet"),
        Some((":1.62".to_owned(), "/org/ayatana/NotificationItem/nm_applet".to_owned()))
    );
}

#[test]
fn registered_item_target_rejects_unresolvable_path_only_item() {
    assert_eq!(registered_item_target("/org/example/Tray"), None);
}

#[test]
fn item_local_ids_pad_the_position() {
    let menu = endpoint(Vec::new());
    let mut it = item(&menu, 12, "Quit");
    it.position = 3;
    assert_eq!(it.local_id(), "app:Menu:0003:12");
}

#[test]
fn menu_items_are_listed_and_related() {
    let mut menu = endpoint(vec![2, 1, 9]);
    let first = item(&menu, 1, "Open");
    let mut second = item(&menu, 2, "Close");
    second.position = 1;
    menu.items.insert(1, first);
    menu.items.insert(2, second);
    let state = DbusMenuState::new(vec![menu]);

    let items = state.nodes(&NodeKind::new(DBUSMENU_ITEM_KIND).unwrap()).unwrap();
    let locals: Vec<&str> = items.iter().map(|n| n.local()).collect();
    assert_eq!(locals, vec!["app:Menu:0000:1", "app:Menu:0001:2"]);

    let targets = state
        .targets(&menu_node("app:Menu").unwrap(), &RelationName::new("item").unwrap())
        .unwrap();
    let locals: Vec<&str> = targets.iter().map(|n| n.local()).collect();
    assert_eq!(locals, vec!["app:Menu:0001:2", "app:Menu:0000:1"]);
}

#[test]
fn disabled_items_cannot_be_activated() {
    let mut menu = endpoint(vec![1]);
    let mut it = item(&menu, 1, "Open");
    it.enabled = false;
    let node = NodeId::new(NodeKind::new(DBUSMENU_ITEM_KIND).unwrap(), &it.local_id()).unwrap();
    menu.items.insert(1, it);
    let state = DbusMenuState::new(vec![menu]);

    let error = state.activation_target(&node, &PropertyKey::new("activate").unwrap()).unwrap_err();
    assert!(matches!(error, GraphError::NotFound { kind: "activatable DBusMenu item", .. }));
    let error = state.activation_target(&node, &PropertyKey::new("label").unwrap()).unwrap_err();
    assert!(matches!(error, GraphError::NotFound { kind: "writable DBusMenu property", .. }));
}

#[test]
fn upserting_a_new_menu_reports_it_and_its_items() {
    let mut state = DbusMenuState::new(Vec::new());
    let mut menu = endpoint(vec![1]);
    let it = item(&menu, 1, "Open");
    menu.items.insert(1, it);
    let changes = state.upsert_menu(menu).unwrap();
    assert_eq!(changes.len(), 4);
    assert!(state.contains_node(&menu_node("app:Menu").unwrap()).unwrap());

    let again = state.upsert_menu(endpoint(vec![1])).unwrap();
    assert_eq!(again.len(), 2);
    let removed = state.remove_service("org.example.App").unwrap();
    assert_eq!(removed.len(), 2);
    assert!(!state.contains_node(&menu_node("app:Menu").unwrap()).unwrap());
}

#[test]
fn menu_local_ids_flatten_service_and_path() {
    assert_eq!(menu_local_id(":1.42", "/StatusNotifierItem/menu"), "1_42:StatusNotifierItem_menu");
    assert_eq!(menu_local_id("org.example.App", "/"), "org_example_App");
}

#[test]
fn configured_menus_default_to_generated_local_ids() {
    let config = DbusMenuConfig {
        menus: vec![MenuConfig {
            service: "org.example.App".to_string(),
            path: "/Menu".to_string(),
            bus: BusKind::default(),
            local_id: None,
        }],
    };
    let menus = config.into_runtime_menus().unwrap();
    assert_eq!(menus[0].bus.as_str(), "session");
    assert_eq!(menus[0].local_id, "org_example_App:Menu");
}

#[test]
fn configured_menus_need_a_service_and_an_absolute_path() {
    let blank = DbusMenuEndpoint::try_from(MenuConfig {
        service: "  ".to_string(),
        path: "/Menu".to_string(),
        bus: BusKind::Session,
        local_id: None,
    });
    assert!(matches!(blank, Err(GraphError::InvalidValue { kind: "DBusMenu service", .. })));
    let relative = DbusMenuEndpoint::try_from(MenuConfig {
        service: "org.example.App".to_string(),
        path: "Menu".to_string(),
        bus: BusKind::Session,
        local_id: None,
    });
    assert!(matches!(relative, Err(GraphError::InvalidValue { kind: "DBusMenu object path", .. })));
}
