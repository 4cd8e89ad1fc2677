//! Verified core of the locusfs graph: identities, values, property
//! metadata, provider routing and the state projections of its plugins.
pub mod change;
pub mod cli;
pub mod config;
pub mod dbus_cache;
pub mod dbus_call;
pub mod dbus_config;
pub mod dbus_introspect;
pub mod dbus_state;
pub mod dbusmenu;
pub mod dbusmenu_layout;
pub mod dbusmenu_watch;
pub mod error;
pub mod graph;
pub mod id_map;
pub mod identity;
pub mod mpris;
pub mod mpris_watch;
pub mod niri;
pub mod niri_events;
pub mod notifyd;
pub mod notifyd_ids;
pub mod notifyd_markup;
pub mod notifyd_policy;
pub mod path;
pub mod plugin;
pub mod pipewire;
pub mod pipewire_state;
pub mod projection;
pub mod provider;
pub mod text;
pub mod text_map;
pub mod value;
