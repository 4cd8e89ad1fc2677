//! What the watcher of StatusNotifier items does with each signal it
//! receives: refresh the menu of an item that registered, drop the menus of
//! a service that unregistered, and stop when a signal stream ends or a
//! signal cannot be read.
use vstd::prelude::*;

use crate::error::GraphError;
use crate::text::{concat2, owned};

verus! {

/// The item path a registered service is read at.
pub const STATUS_ITEM_PATH: &'static str = "/StatusNotifierItem";

/// A signal of the StatusNotifierWatcher, or the end of its stream: the
/// service the signal names, or the text of the error that reading it gave.
pub enum WatcherEvent {
    Registered(core::result::Result<String, String>),
    Unregistered(core::result::Result<String, String>),
    RegisteredStreamEnded,
    UnregisteredStreamEnded,
}

/// What the watcher does next.
pub enum WatcherAction {
    /// Reads the menu of the item at `path` of `service` anew.
    RefreshItem { service: String, path: String },
    /// Drops every menu of `service`.
    RemoveService { service: String },
    /// Stops watching with this error.
    Stop(GraphError),
}

pub enum WatcherActionModel {
    RefreshItem(Seq<char>, Seq<char>),
    RemoveService(Seq<char>),
    Stop(Seq<char>),
}

/// The action an event calls for; a stop is given by the text of its I/O
/// error.
pub open spec fn watcher_step_spec(
    event: WatcherEvent,
) -> WatcherActionModel {
    match event {
        WatcherEvent::Registered(Ok(service)) => WatcherActionModel::RefreshItem(
            service@,
            "/StatusNotifierItem"@,
        ),
        WatcherEvent::Registered(Err(error)) => WatcherActionModel::Stop(
            "read StatusNotifierItemRegistered: "@ + error@,
        ),
        WatcherEvent::Unregistered(Ok(service)) => WatcherActionModel::RemoveService(service@),
        WatcherEvent::Unregistered(Err(error)) => WatcherActionModel::Stop(
            "read StatusNotifierItemUnregistered: "@ + error@,
        ),
        WatcherEvent::RegisteredStreamEnded => WatcherActionModel::Stop(
            "StatusNotifierItemRegistered stream ended"@,
        ),
        WatcherEvent::UnregisteredStreamEnded => WatcherActionModel::Stop(
            "StatusNotifierItemUnregistered stream ended"@,
        ),
    }
}

/// The model of an action: a stop by the message of its I/O error.
pub open spec fn action_model(a: WatcherAction) -> Option<WatcherActionModel> {
    match a {
        WatcherAction::RefreshItem { service, path } => Some(WatcherActionModel::RefreshItem(service@, path@)),
        WatcherAction::RemoveService { service } => Some(WatcherActionModel::RemoveService(service@)),
        WatcherAction::Stop(GraphError::Io(message)) => Some(WatcherActionModel::Stop(message@)),
        WatcherAction::Stop(_) => None,
    }
}

/// The action a watcher event calls for.
pub fn watcher_step(event: WatcherEvent) -> (r: WatcherAction)
    ensures
        action_model(r) == Some(watcher_step_spec(event)),
{
    match event {
        WatcherEvent::Registered(Ok(service)) => WatcherAction::RefreshItem {
            service,
            path: owned(STATUS_ITEM_PATH),
        },
        WatcherEvent::Registered(Err(error)) => WatcherAction::Stop(
            GraphError::Io(concat2("read StatusNotifierItemRegistered: ", error.as_str())),
        ),
        WatcherEvent::Unregistered(Ok(service)) => WatcherAction::RemoveService { service },
        WatcherEvent::Unregistered(Err(error)) => WatcherAction::Stop(
            GraphError::Io(concat2("read StatusNotifierItemUnregistered: ", error.as_str())),
        ),
        WatcherEvent::RegisteredStreamEnded => WatcherAction::Stop(
            GraphError::Io(owned("StatusNotifierItemRegistered stream ended")),
        ),
        WatcherEvent::UnregisteredStreamEnded => WatcherAction::Stop(
            GraphError::Io(owned("StatusNotifierItemUnregistered stream ended")),
        ),
    }
}

} // verus!
