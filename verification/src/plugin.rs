//! What a plugin tells about itself.
use vstd::prelude::*;

use crate::dbus_state::DbusPlugin;
use crate::dbusmenu::DbusMenuPlugin;
use crate::mpris::MprisPlugin;
use crate::niri::NiriPlugin;
use crate::notifyd::NotifydPlugin;
use crate::pipewire::PipeWirePlugin;

verus! {

/// The version the plugins of this build report.
pub const PLUGIN_VERSION: &'static str = "0.1.0";

/// A plugin's id, display name and version.
#[derive(Clone, Copy, Debug, PartialEq, Eq)]
pub struct PluginManifest {
    pub id: &'static str,
    pub name: &'static str,
    pub version: &'static str,
}

/// The manifest with an id and a name, at this build's version.
pub open spec fn manifest_of(m: PluginManifest, id: Seq<char>, name: Seq<char>) -> bool {
    m.id@ == id && m.name@ == name && m.version@ == PLUGIN_VERSION@
}

impl DbusPlugin {
    pub fn manifest(&self) -> (r: PluginManifest)
        ensures
            manifest_of(r, "dbus"@, "D-Bus"@),
    {
        PluginManifest { id: "dbus", name: "D-Bus", version: PLUGIN_VERSION }
    }
}

impl DbusMenuPlugin {
    pub fn manifest(&self) -> (r: PluginManifest)
        ensures
            manifest_of(r, "dbusmenu"@, "DBusMenu"@),
    {
        PluginManifest { id: "dbusmenu", name: "DBusMenu", version: PLUGIN_VERSION }
    }
}

impl MprisPlugin {
    pub fn manifest(&self) -> (r: PluginManifest)
        ensures
            manifest_of(r, "mpris"@, "MPRIS"@),
    {
        PluginManifest { id: "mpris", name: "MPRIS", version: PLUGIN_VERSION }
    }
}

impl NiriPlugin {
    pub fn manifest(&self) -> (r: PluginManifest)
        ensures
            manifest_of(r, "niri"@, "Niri"@),
    {
        PluginManifest { id: "niri", name: "Niri", version: PLUGIN_VERSION }
    }
}

impl NotifydPlugin {
    pub fn manifest(&self) -> (r: PluginManifest)
        ensures
            manifest_of(r, "notifyd"@, "Notifyd"@),
    {
        PluginManifest { id: "notifyd", name: "Notifyd", version: PLUGIN_VERSION }
    }
}

impl PipeWirePlugin {
    pub fn manifest(&self) -> (r: PluginManifest)
        ensures
            manifest_of(r, "pipewire"@, "PipeWire"@),
    {
        PluginManifest { id: "pipewire", name: "PipeWire", version: PLUGIN_VERSION }
    }
}

} // verus!
