//! The configuration of the D-Bus plugin: the services to watch.
use vstd::prelude::*;

use crate::dbus_state::{
    default_manager_path, manager_path_of, service_local_id, service_local_id_spec,
    ServiceConfigView,
};
use crate::dbus_state;
use crate::error::{is_invalid_value, GraphError, Result};
use crate::text::{is_blank, trim_spec};

verus! {

/// The bus a configured service lives on; the system bus unless set.
#[derive(Clone, Copy, Debug, PartialEq, Eq, Structural)]
pub enum BusKind {
    System,
    Session,
}

impl Default for BusKind {
    fn default() -> (r: BusKind)
        ensures
            r == BusKind::System,
    {
        BusKind::System
    }
}

/// The bus of the state that a configured bus names.
pub open spec fn state_bus(kind: BusKind) -> dbus_state::BusKind {
    match kind {
        BusKind::System => dbus_state::BusKind::System,
        BusKind::Session => dbus_state::BusKind::Session,
    }
}

impl BusKind {
    pub fn into_state(self) -> (r: dbus_state::BusKind)
        ensures
            r == state_bus(self),
    {
        match self {
            BusKind::System => dbus_state::BusKind::System,
            BusKind::Session => dbus_state::BusKind::Session,
        }
    }
}

/// A configured service: its bus name and, optionally, its bus, local id
/// and object manager path.
#[derive(Debug)]
pub struct ServiceConfig {
    pub name: String,
    pub bus: BusKind,
    pub local_id: Option<String>,
    pub object_manager_path: Option<String>,
}

/// The plugin's configuration.
#[derive(Debug)]
pub struct DbusConfig {
    pub services: Vec<ServiceConfig>,
}

impl Default for DbusConfig {
    fn default() -> (r: DbusConfig)
        ensures
            r.services@.len() == 0,
    {
        DbusConfig { services: Vec::new() }
    }
}

/// Whether a configured service is usable: its bus name is not blank.
pub open spec fn config_ok(c: ServiceConfig) -> bool {
    trim_spec(c.name@).len() > 0
}

/// The service a usable configuration names: the local id and object
/// manager path its bus name gives where it sets none.
pub open spec fn config_service(c: ServiceConfig) -> ServiceConfigView {
    ServiceConfigView {
        local_id: match c.local_id {
            Some(l) => l@,
            None => service_local_id_spec(c.name@),
        },
        bus: state_bus(c.bus),
        name: c.name@,
        object_manager_path: match c.object_manager_path {
            Some(p) => p@,
            None => default_manager_path(c.name@),
        },
    }
}

/// The error an unusable configuration is refused with.
pub open spec fn config_error(c: ServiceConfig, e: GraphError) -> bool {
    is_invalid_value(e, "D-Bus service name"@, c.name@, "must not be empty"@)
}

impl ServiceConfig {
    pub fn duplicate(&self) -> (r: ServiceConfig)
        ensures
            r.name@ == self.name@,
            r.bus == self.bus,
            match (r.local_id, self.local_id) {
                (Some(a), Some(b)) => a@ == b@,
                (None, None) => true,
                _ => false,
            },
            match (r.object_manager_path, self.object_manager_path) {
                (Some(a), Some(b)) => a@ == b@,
                (None, None) => true,
                _ => false,
            },
    {
        ServiceConfig {
            name: self.name.clone(),
            bus: self.bus,
            local_id: match &self.local_id {
                Some(l) => Some(l.clone()),
                None => None,
            },
            object_manager_path: match &self.object_manager_path {
                Some(p) => Some(p.clone()),
                None => None,
            },
        }
    }

    /// The service a configuration names.
    pub fn try_from(config: ServiceConfig) -> (r: Result<dbus_state::ServiceConfig>)
        ensures
            config_ok(config) ==> (r matches Ok(s) && s@ == config_service(config)),
            !config_ok(config) ==> (r matches Err(e) && config_error(config, e)),
    {
        if is_blank(config.name.as_str()) {
            return Err(
                GraphError::InvalidValue {
                    kind: "D-Bus service name",
                    value: config.name,
                    reason: "must not be empty",
                },
            );
        }
        let local_id = match config.local_id {
            Some(l) => l,
            None => service_local_id(config.name.as_str()),
        };
        let object_manager_path = match config.object_manager_path {
            Some(p) => p,
            None => manager_path_of(config.name.as_str()),
        };
        Ok(
            dbus_state::ServiceConfig {
                local_id,
                bus: config.bus.into_state(),
                name: config.name,
                object_manager_path,
            },
        )
    }
}

impl DbusConfig {
    /// The services of the configuration, in order; the first unusable one
    /// fails the whole list.
    pub fn into_runtime_services(self) -> (r: Result<Vec<dbus_state::ServiceConfig>>)
        ensures
            (forall|i: int| 0 <= i < self.services@.len() ==> config_ok(#[trigger] self.services@[i]))
                ==> r is Ok,
            r matches Ok(v) ==> v@.len() == self.services@.len() && forall|i: int|
                0 <= i < v@.len() ==> #[trigger] v@[i]@ == config_service(self.services@[i]),
            r matches Err(e) ==> exists|k: int|
                0 <= k < self.services@.len() && (forall|j: int|
                    0 <= j < k ==> config_ok(#[trigger] self.services@[j])) && !config_ok(
                    self.services@[k],
                ) && config_error(self.services@[k], e),
    {
        let mut out: Vec<dbus_state::ServiceConfig> = Vec::new();
        let mut i: usize = 0;
        while i < self.services.len()
            invariant
                i <= self.services.len(),
                out@.len() == i,
                forall|j: int| 0 <= j < i ==> config_ok(#[trigger] self.services@[j]),
                forall|j: int| 0 <= j < i ==> #[trigger] out@[j]@ == config_service(self.services@[j]),
            decreases self.services.len() - i,
        {
            let config = self.services[i].duplicate();
            assert(config_ok(config) == config_ok(self.services@[i as int]));
            assert(config_service(config) == config_service(self.services@[i as int]));
            match ServiceConfig::try_from(config) {
                Ok(s) => out.push(s),
                Err(e) => {
                    assert(config_error(self.services@[i as int], e));
                    return Err(e);
                },
            }
            i += 1;
        }
        Ok(out)
    }
}

} // verus!
