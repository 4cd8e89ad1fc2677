use locusfs::config::{
    default_config_path, dedup_paths, expand_tilde, path_join, plugin_library_name,
    plugin_search_dirs, same_path,
};
use locusfs::dbus_config::{BusKind, DbusConfig, ServiceConfig};
use locusfs::dbusmenu::{BusKind as MenuBus, DbusMenuConfig, MenuConfig};
use locusfs::error::GraphError;
use locusfs::notifyd_policy::NotifydConfig;
use locusfs::pipewire::PipeWireConfig;

#[test]
fn expands_home_relative_paths() {
    let expanded = expand_tilde("~/plugins", "/home/user");
    assert!(expanded.ends_with("plugins"));
    assert!(!expanded.starts_with("~"));
}

#[test]
fn tilde_alone_is_the_home_directory() {
    assert_eq!(expand_tilde("~", "/home/user"), "/home/user");
    assert_eq!(expand_tilde("~/plugins", "/home/user"), "/home/user/plugins");
    assert_eq!(expand_tilde("~/plugins", "/home/user/"), "/home/user/plugins");
    assert_eq!(expand_tilde("~other/plugins", "/home/user"), "~other/plugins");
    assert_eq!(expand_tilde("/opt/plugins", "/home/user"), "/opt/plugins");
}

#[test]
fn joining_an_absolute_path_replaces_the_base() {
    assert_eq!(path_join("/home/user", "/etc"), "/etc");
    assert_eq!(path_join("", "plugins"), "plugins");
    assert_eq!(path_join("/", "plugins"), "/plugins");
}

#[test]
fn default_config_path_prefers_xdg_config_home() {
    assert_eq!(
        default_config_path(Some("/xdg".to_owned()), Some("/home/user".to_owned())),
        "/xdg/locusfs/config.toml"
    );
    assert_eq!(
        default_config_path(None, Some("/home/user".to_owned())),
        "/home/user/.config/locusfs/config.toml"
    );
    assert_eq!(default_config_path(None, None), "./.config/locusfs/config.toml");
}

#[test]
fn plugin_library_names_use_underscores() {
    assert_eq!(
        plugin_library_name("dbus-menu", "lib", ".so"),
        "liblocusfs_plugin_dbus_menu.so"
    );
}

#[test]
fn plugin_search_dirs_keep_the_first_of_equal_paths() {
    let dirs = plugin_search_dirs(
        vec!["./target/debug".to_owned(), "./target/debug/".to_owned()],
        Some("/usr/bin".to_owned()),
        "/home/user",
    );
    assert_eq!(
        dirs,
        vec![
            "./target/debug".to_owned(),
            "/usr/bin".to_owned(),
            "/home/user/.local/lib/locusfs/plugins".to_owned(),
        ]
    );
}

#[test]
fn paths_compare_by_components() {
    assert!(same_path("a//b", "a/b"));
    assert!(same_path("a/./b/", "a/b"));
    assert!(!same_path("./a", "a"));
    assert!(!same_path("/a", "a"));
    assert_eq!(
        dedup_paths(vec!["/x".to_owned(), "/y".to_owned(), "//x/".to_owned()]),
        vec!["/x".to_owned(), "/y".to_owned()]
    );
}

#[test]
fn dbus_config_defaults_service_fields_from_name() {
    let config = DbusConfig {
        services: vec![ServiceConfig {
            name: "org.freedesktop.UPower".to_owned(),
            bus: BusKind::default(),
            local_id: None,
            object_manager_path: None,
        }],
    };

    let services = config.into_runtime_services().unwrap();

    assert_eq!(services[0].local_id, "upower");
    assert_eq!(services[0].object_manager_path, "/org/freedesktop/UPower");
    assert_eq!(services[0].bus.as_str(), "system");
}

#[test]
fn dbus_config_accepts_session_bus() {
    let config = DbusConfig {
        services: vec![ServiceConfig {
            name: "org.example.App".to_owned(),
            bus: BusKind::Session,
            local_id: None,
            object_manager_path: None,
        }],
    };

    assert_eq!(config.services[0].bus, BusKind::Session);
    let services = config.into_runtime_services().unwrap();
    assert_eq!(services[0].bus.as_str(), "session");
}

#[test]
fn dbus_config_rejects_blank_service_names() {
    let config = DbusConfig {
        services: vec![ServiceConfig {
            name: "  ".to_owned(),
            bus: BusKind::System,
            local_id: None,
            object_manager_path: None,
        }],
    };
    assert!(matches!(
        config.into_runtime_services(),
        Err(GraphError::InvalidValue { kind: "D-Bus service name", .. })
    ));
}

#[test]
fn config_defaults_to_session_bus_and_generated_local_id() {
    let config = DbusMenuConfig {
        menus: vec![MenuConfig {
            service: "org.example.App".to_owned(),
            path: "/Menu".to_owned(),
            bus: MenuBus::Session,
            local_id: None,
        }],
    };

    let menus = config.into_runtime_menus().unwrap();

    assert_eq!(menus[0].bus.as_str(), "session");
    assert_eq!(menus[0].local_id, "org_example_App:Menu");
}

#[test]
fn config_accepts_system_bus() {
    let config = DbusMenuConfig {
        menus: vec![MenuConfig {
            service: "org.example.App".to_owned(),
            path: "/Menu".to_owned(),
            bus: MenuBus::System,
            local_id: None,
        }],
    };

    assert_eq!(config.menus[0].bus, MenuBus::System);
}

#[test]
fn pipewire_config_defaults_to_pactl() {
    let config = PipeWireConfig::default();

    assert_eq!(config.pactl, "pactl");
}

#[test]
fn config_defaults_are_valid() {
    let config = NotifydConfig::default();
    assert!(config.validate().is_ok());
    assert_eq!(config.server_name, "Locus Notifyd");
}

#[test]
fn config_rejects_empty_server_name() {
    let config = NotifydConfig {
        server_name: String::new(),
        ..NotifydConfig::default()
    };
    assert!(config.validate().is_err());
}

#[test]
fn plugins_report_their_manifests() {
    let dbus = locusfs::dbus_state::DbusPlugin.manifest();
    assert_eq!((dbus.id, dbus.name), ("dbus", "D-Bus"));
    let menu = locusfs::dbusmenu::DbusMenuPlugin.manifest();
    assert_eq!((menu.id, menu.name), ("dbusmenu", "DBusMenu"));
    let mpris = locusfs::mpris::MprisPlugin.manifest();
    assert_eq!((mpris.id, mpris.name), ("mpris", "MPRIS"));
    let niri = locusfs::niri::NiriPlugin.manifest();
    assert_eq!((niri.id, niri.name), ("niri", "Niri"));
    let notifyd = locusfs::notifyd::NotifydPlugin.manifest();
    assert_eq!((notifyd.id, notifyd.name), ("notifyd", "Notifyd"));
    let pipewire = locusfs::pipewire::PipeWirePlugin.manifest();
    assert_eq!((pipewire.id, pipewire.name, pipewire.version), ("pipewire", "PipeWire", "0.1.0"));
}
