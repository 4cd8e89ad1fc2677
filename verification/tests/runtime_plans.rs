use locusfs::cli::{parse_command, usage, Command};
use locusfs::dbus_introspect::{interfaces_to_read, IntrospectionWalk};
use locusfs::dbusmenu_watch::{watcher_step, WatcherAction, WatcherEvent};
use locusfs::error::GraphError;
use locusfs::mpris_watch::watch_plan;

#[test]
fn players_on_the_bus_are_watched_once() {
    let names = vec![
        "org.freedesktop.DBus".to_owned(),
        "org.mpris.MediaPlayer2.spotify".to_owned(),
        "org.mpris.MediaPlayer2.mpv".to_owned(),
        "org.mpris.MediaPlayer2.mpv".to_owned(),
    ];
    let watched = vec![
        "org.mpris.MediaPlayer2.vlc".to_owned(),
        "org.mpris.MediaPlayer2.mpv".to_owned(),
    ];
    let plan = watch_plan(&names, &watched);
    assert_eq!(plan.stop, vec!["org.mpris.MediaPlayer2.vlc".to_owned()]);
    assert_eq!(plan.start, vec!["org.mpris.MediaPlayer2.spotify".to_owned()]);
}

#[test]
fn no_players_means_nothing_to_start() {
    let plan = watch_plan(&vec!["org.freedesktop.DBus".to_owned()], &Vec::new());
    assert!(plan.stop.is_empty());
    assert!(plan.start.is_empty());
}

#[test]
fn introspection_walk_visits_each_path_once() {
    let mut walk = IntrospectionWalk::new("/org/example");
    assert_eq!(walk.next_path(), Some("/".to_owned()));
    walk.add_children("/", "<node><node name='org'/></node>");
    assert_eq!(walk.next_path(), Some("/org".to_owned()));
    walk.add_children("/org", "<node><node name='example'/></node>");
    assert_eq!(walk.next_path(), Some("/org/example".to_owned()));
    assert_eq!(walk.next_path(), None);
}

#[test]
fn standard_interfaces_are_not_read() {
    let xml = "<node><interface name='org.freedesktop.DBus.Properties'/>\
               <interface name='org.example.Power'/></node>";
    assert_eq!(interfaces_to_read(xml), vec!["org.example.Power".to_owned()]);
}

fn args(list: &[&str]) -> Vec<String> {
    list.iter().map(|a| a.to_string()).collect()
}

#[test]
fn command_line_mounts_with_an_optional_config() {
    assert_eq!(
        parse_command(&args(&["locusfs", "--config", "/etc/l.toml", "/mnt/l"])).unwrap(),
        Command::Mount { mountpoint: "/mnt/l".to_owned(), config: Some("/etc/l.toml".to_owned()) }
    );
    assert_eq!(
        parse_command(&args(&["locusfs", "/mnt/l"])).unwrap(),
        Command::Mount { mountpoint: "/mnt/l".to_owned(), config: None }
    );
    assert_eq!(
        parse_command(&args(&["locusfs", "--watch", "/mnt/l/x"])).unwrap(),
        Command::Watch { path: "/mnt/l/x".to_owned() }
    );
}

#[test]
fn command_line_refusals_show_usage() {
    let expected = usage("lfs");
    assert_eq!(
        expected,
        "usage: lfs [--config <path>] <mountpoint>\n       lfs --watch <path>"
    );
    assert_eq!(parse_command(&args(&["lfs"])).unwrap_err(), expected);
    assert_eq!(parse_command(&args(&["lfs", "a", "b"])).unwrap_err(), expected);
    assert_eq!(parse_command(&args(&["lfs", "a", "--config"])).unwrap_err(), expected);
    assert_eq!(parse_command(&args(&["lfs", "--watch"])).unwrap_err(), expected);
    assert_eq!(parse_command(&args(&["lfs", "--config", "c"])).unwrap_err(), expected);
    assert_eq!(
        parse_command(&args(&["lfs", "--config", "c", "--config", "d", "m"])).unwrap_err(),
        expected
    );
    assert!(parse_command(&Vec::new()).unwrap_err().starts_with("usage: locusfs "));
}

#[test]
fn registered_items_are_refreshed_at_the_item_path() {
    let action = watcher_step(WatcherEvent::Registered(Ok(":1.42".to_owned())));
    match action {
        WatcherAction::RefreshItem { service, path } => {
            assert_eq!(service, ":1.42");
            assert_eq!(path, "/StatusNotifierItem");
        }
        _ => panic!("expected a refresh"),
    }
}

#[test]
fn unregistered_services_lose_their_menus() {
    let action = watcher_step(WatcherEvent::Unregistered(Ok("org.example.Tray".to_owned())));
    match action {
        WatcherAction::RemoveService { service } => assert_eq!(service, "org.example.Tray"),
        _ => panic!("expected a removal"),
    }
}

#[test]
fn unreadable_signals_and_ended_streams_stop_the_watcher() {
    match watcher_step(WatcherEvent::Registered(Err("bad body".to_owned()))) {
        WatcherAction::Stop(GraphError::Io(message)) => {
            assert_eq!(message, "read StatusNotifierItemRegistered: bad body")
        }
        _ => panic!("expected a stop"),
    }
    match watcher_step(WatcherEvent::Unregistered(Err("bad body".to_owned()))) {
        WatcherAction::Stop(GraphError::Io(message)) => {
            assert_eq!(message, "read StatusNotifierItemUnregistered: bad body")
        }
        _ => panic!("expected a stop"),
    }
    match watcher_step(WatcherEvent::RegisteredStreamEnded) {
        WatcherAction::Stop(GraphError::Io(message)) => {
            assert_eq!(message, "StatusNotifierItemRegistered stream ended")
        }
        _ => panic!("expected a stop"),
    }
    match watcher_step(WatcherEvent::UnregisteredStreamEnded) {
        WatcherAction::Stop(GraphError::Io(message)) => {
            assert_eq!(message, "StatusNotifierItemUnregistered stream ended")
        }
        _ => panic!("expected a stop"),
    }
}
