//! The PipeWire plugin's view of `pactl`: endpoint states, which events
//! call for a new snapshot, which sources are real, and the labels of an
//! endpoint.
use vstd::prelude::*;

use crate::text::{
    ascii_lower, contains_str, contains_text, owned, text_eq, to_ascii_lowercase,
};
use crate::text_map::TextMap;

verus! {

/// The PipeWire plugin.
#[derive(Debug, Default)]
pub struct PipeWirePlugin;

/// The watcher of `pactl subscribe`.
#[derive(Debug, Default)]
pub struct PipeWireRuntime;

/// The plugin's configuration: the `pactl` program to run.
#[derive(Debug)]
pub struct PipeWireConfig {
    pub pactl: String,
}

impl Default for PipeWireConfig {
    fn default() -> (r: PipeWireConfig)
        ensures
            r.pactl@ == "pactl"@,
    {
        PipeWireConfig { pactl: owned("pactl") }
    }
}

/// The state of an endpoint.
#[derive(Clone, Copy, Debug, PartialEq, Eq, Structural)]
pub enum EndpointState {
    Running,
    Idle,
    Suspended,
    Error,
    Unknown,
}

pub open spec fn lower(s: Seq<char>) -> Seq<char> {
    s.map_values(|c: char| ascii_lower(c))
}

/// The state a `pactl` state names, in any case; no state, or another,
/// is unknown.
pub open spec fn endpoint_state_spec(state: Option<Seq<char>>) -> EndpointState {
    match state {
        Some(s) => if lower(s) == "running"@ {
            EndpointState::Running
        } else if lower(s) == "idle"@ {
            EndpointState::Idle
        } else if lower(s) == "suspended"@ {
            EndpointState::Suspended
        } else if lower(s) == "error"@ {
            EndpointState::Error
        } else {
            EndpointState::Unknown
        },
        None => EndpointState::Unknown,
    }
}

pub open spec fn endpoint_state_text(s: EndpointState) -> Seq<char> {
    match s {
        EndpointState::Running => "running"@,
        EndpointState::Idle => "idle"@,
        EndpointState::Suspended => "suspended"@,
        EndpointState::Error => "error"@,
        EndpointState::Unknown => "unknown"@,
    }
}

impl EndpointState {
    pub fn from_pactl(state: Option<&str>) -> (r: EndpointState)
        ensures
            r == endpoint_state_spec(
                match state {
                    Some(s) => Some(s@),
                    None => None,
                },
            ),
    {
        match state {
            None => EndpointState::Unknown,
            Some(s) => {
                let l = to_ascii_lowercase(s);
                if text_eq(l.as_str(), "running") {
                    EndpointState::Running
                } else if text_eq(l.as_str(), "idle") {
                    EndpointState::Idle
                } else if text_eq(l.as_str(), "suspended") {
                    EndpointState::Suspended
                } else if text_eq(l.as_str(), "error") {
                    EndpointState::Error
                } else {
                    EndpointState::Unknown
                }
            },
        }
    }

    pub fn as_str(self) -> (r: &'static str)
        ensures
            r@ == endpoint_state_text(self),
    {
        match self {
            EndpointState::Running => "running",
            EndpointState::Idle => "idle",
            EndpointState::Suspended => "suspended",
            EndpointState::Error => "error",
            EndpointState::Unknown => "unknown",
        }
    }
}

/// What `pactl info` tells: the default sink and source.
#[derive(Debug)]
pub struct PactlInfo {
    pub default_sink_name: Option<String>,
    pub default_source_name: Option<String>,
}

/// The volume of one channel.
#[derive(Debug)]
pub struct PactlVolume {
    pub value: u32,
}

/// A sink or source as `pactl` lists it.
pub struct PactlEndpoint {
    pub index: u32,
    pub state: Option<String>,
    pub name: String,
    pub description: Option<String>,
    pub mute: bool,
    pub volume: TextMap<String, PactlVolume>,
    pub properties: TextMap<String, String>,
}

/// The value of a property of an endpoint, if it has it.
pub open spec fn prop(e: PactlEndpoint, key: Seq<char>) -> Option<Seq<char>> {
    if e.properties.map().contains_key(key) {
        Some(e.properties.map()[key]@)
    } else {
        None
    }
}

/// Whether an endpoint is a real source: its media class is
/// `Audio/Source`, or its device class is not `monitor`.
pub open spec fn real_source_spec(e: PactlEndpoint) -> bool {
    prop(e, "media.class"@) == Some("Audio/Source"@) || prop(e, "device.class"@) != Some("monitor"@)
}

fn property_is(e: &PactlEndpoint, key: &str, value: &str) -> (r: bool)
    ensures
        r == (prop(*e, key@) == Some(value@)),
{
    match e.properties.get(key) {
        Some(v) => text_eq(v.as_str(), value),
        None => false,
    }
}

impl PactlEndpoint {
    pub fn is_real_source(&self) -> (r: bool)
        ensures
            r == real_source_spec(*self),
    {
        property_is(self, "media.class", "Audio/Source") || !property_is(self, "device.class", "monitor")
    }
}

/// The labels of an endpoint.
#[derive(Debug)]
pub struct EndpointLabels {
    pub description: String,
    pub nick: String,
    pub media_class: String,
    pub form_factor: String,
}

pub open spec fn or_else(a: Option<Seq<char>>, b: Seq<char>) -> Seq<char> {
    match a {
        Some(x) => x,
        None => b,
    }
}

/// The description of an endpoint: its own, else its device's, else its
/// name.
pub open spec fn description_spec(e: PactlEndpoint) -> Seq<char> {
    match e.description {
        Some(d) => d@,
        None => or_else(prop(e, "device.description"@), e.name@),
    }
}

fn prop_text(e: &PactlEndpoint, key: &str) -> (r: Option<String>)
    ensures
        match r {
            Some(t) => prop(*e, key@) == Some(t@),
            None => prop(*e, key@) is None,
        },
{
    match e.properties.get(key) {
        Some(v) => Some(v.clone()),
        None => None,
    }
}

impl PactlEndpoint {
    /// The labels of an endpoint: its description; its node's, else its
    /// device's nick, else its description; its media class and its
    /// device's form factor, each `unknown` when unset.
    pub fn labels(&self) -> (r: EndpointLabels)
        ensures
            r.description@ == description_spec(*self),
            r.nick@ == or_else(
                match prop(*self, "node.nick"@) {
                    Some(n) => Some(n),
                    None => prop(*self, "device.nick"@),
                },
                description_spec(*self),
            ),
            r.media_class@ == or_else(prop(*self, "media.class"@), "unknown"@),
            r.form_factor@ == or_else(prop(*self, "device.form_factor"@), "unknown"@),
    {
        let description = match &self.description {
            Some(d) => d.clone(),
            None => match prop_text(self, "device.description") {
                Some(d) => d,
                None => self.name.clone(),
            },
        };
        let nick = match prop_text(self, "node.nick") {
            Some(n) => n,
            None => match prop_text(self, "device.nick") {
                Some(n) => n,
                None => description.clone(),
            },
        };
        let media_class = match prop_text(self, "media.class") {
            Some(m) => m,
            None => owned("unknown"),
        };
        let form_factor = match prop_text(self, "device.form_factor") {
            Some(f) => f,
            None => owned("unknown"),
        };
        EndpointLabels { description, nick, media_class, form_factor }
    }
}

/// Whether a line of `pactl subscribe` calls for a new snapshot: it names
/// a sink, a source or the server, in any case.
pub open spec fn affects_snapshot_spec(line: Seq<char>) -> bool {
    contains_text(lower(line), "sink"@) || contains_text(lower(line), "source"@) || contains_text(
        lower(line),
        "server"@,
    )
}

pub fn subscription_line_affects_snapshot(line: &str) -> (r: bool)
    ensures
        r == affects_snapshot_spec(line@),
{
    let l = to_ascii_lowercase(line);
    contains_str(l.as_str(), "sink") || contains_str(l.as_str(), "source") || contains_str(
        l.as_str(),
        "server",
    )
}

/// A `pactl` state name, in any ASCII case, comes back as its own name in
/// lower case: `running`, `idle`, `suspended` and `error` each read as the
/// state of that name, so distinct names give distinct states; any other
/// name, or none, reads as `unknown`.
pub proof fn lemma_endpoint_state_round_trip(s: Seq<char>, t: Seq<char>)
    ensures
        (lower(s) == "running"@ || lower(s) == "idle"@ || lower(s) == "suspended"@ || lower(s)
            == "error"@) ==> endpoint_state_text(endpoint_state_spec(Some(s))) == lower(s),
        !(lower(s) == "running"@ || lower(s) == "idle"@ || lower(s) == "suspended"@ || lower(s)
            == "error"@) ==> endpoint_state_text(endpoint_state_spec(Some(s))) == "unknown"@,
        endpoint_state_text(endpoint_state_spec(None)) == "unknown"@,
        (lower(s) == "running"@ || lower(s) == "idle"@ || lower(s) == "suspended"@ || lower(s)
            == "error"@) && endpoint_state_spec(Some(s)) == endpoint_state_spec(Some(t)) ==> lower(s)
            == lower(t),
{
    reveal_strlit("running");
    reveal_strlit("idle");
    reveal_strlit("suspended");
    reveal_strlit("error");
    reveal_strlit("unknown");
}

} // verus!
