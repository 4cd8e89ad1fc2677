//! The changes that an event of niri's event stream reports against the
//! state the stream held before it, and the window that is reported as
//! selected afterwards.
use vstd::prelude::*;

use crate::change::{change_models, lemma_change_models_push, ChangeModel, GraphChange};
use crate::niri::{
    push_selected_window_property_changes, push_selected_workspace_property_changes,
    selected_context_node, selected_context_view, selected_window_changes_spec,
    selected_workspace_changes_spec, window_id_node, window_view, workspace_id_node,
    workspace_view, OUTPUT_RELATION, WINDOW_KIND, WINDOW_RELATION, WORKSPACE_KIND,
    WORKSPACE_RELATION,
};
use crate::projection::{known_key, known_kind, known_relation};
use crate::identity::{valid_identifier, IdentifierClass, NodeId, NodeIdView};

verus! {

/// The focused workspace: its id and its active window.
#[derive(Clone, Copy, Debug, PartialEq, Eq, Structural)]
pub struct FocusedWorkspace {
    pub id: u64,
    pub active_window_id: Option<u64>,
}

/// A workspace as a workspaces event lists it: its id and whether it is
/// focused.
#[derive(Clone, Copy, Debug, PartialEq, Eq, Structural)]
pub struct WorkspaceFocus {
    pub id: u64,
    pub is_focused: bool,
}

/// What the change reports read of the event stream's state: the ids of
/// its windows and workspaces, in the order departures are reported
/// (increasing, as the stream keeps them); the window marked focused; the
/// focused workspace; and the window last reported selected.
pub struct NiriModel {
    pub window_ids: Vec<u64>,
    pub workspace_ids: Vec<u64>,
    pub focused_window_id: Option<u64>,
    pub focused_workspace: Option<FocusedWorkspace>,
    pub reported_selected_window_id: Option<u64>,
}

/// The events whose changes the graph reports; `Other` stands for every
/// event that reports none.
#[allow(inconsistent_fields)]
pub enum NiriEvent {
    WorkspacesChanged { workspaces: Vec<WorkspaceFocus> },
    WorkspaceUrgencyChanged { id: u64 },
    WorkspaceActivated { id: u64, focused: bool },
    WorkspaceActiveWindowChanged { workspace_id: u64, active_window_id: Option<u64> },
    WindowsChanged { window_ids: Vec<u64> },
    WindowOpenedOrChanged { id: u64, is_focused: bool },
    WindowClosed { id: u64 },
    WindowFocusChanged { id: Option<u64> },
    WindowUrgencyChanged { id: u64 },
    WindowLayoutsChanged { window_ids: Vec<u64> },
    Other,
}

/// The id of the focused workspace.
pub open spec fn focused_workspace_id(s: &NiriModel) -> Option<u64> {
    match s.focused_workspace {
        Some(w) => Some(w.id),
        None => None,
    }
}

/// The selected window: the one marked focused, else the active window of
/// the focused workspace.
pub open spec fn selected_window(s: &NiriModel) -> Option<u64> {
    match s.focused_window_id {
        Some(id) => Some(id),
        None => match s.focused_workspace {
            Some(w) => w.active_window_id,
            None => None,
        },
    }
}

/// The node of a window (`windows`) or of a workspace.
pub open spec fn item_view(windows: bool, id: u64) -> NodeIdView {
    if windows {
        window_view(id)
    } else {
        workspace_view(id)
    }
}

/// The removal of each id of `old` that `new` lacks, in order.
pub open spec fn removed_changes(old: Seq<u64>, new: Seq<u64>, windows: bool) -> Seq<ChangeModel>
    decreases old.len(),
{
    if old.len() == 0 {
        Seq::empty()
    } else {
        removed_changes(old.drop_last(), new, windows) + if new.contains(old.last()) {
            Seq::<ChangeModel>::empty()
        } else {
            seq![ChangeModel::NodeRemoved(item_view(windows, old.last()))]
        }
    }
}

/// For each listed id in order: changed where `old` had it, else added,
/// then the relation to its workspace (for a window) or output.
pub open spec fn listed_changes(ids: Seq<u64>, old: Seq<u64>, windows: bool) -> Seq<ChangeModel>
    decreases ids.len(),
{
    if ids.len() == 0 {
        Seq::empty()
    } else {
        let id = ids.last();
        let node = item_view(windows, id);
        listed_changes(ids.drop_last(), old, windows) + seq![
            if old.contains(id) {
                ChangeModel::NodeChanged(node)
            } else {
                ChangeModel::NodeAdded(node)
            },
            ChangeModel::RelationChanged(node, if windows { "workspace"@ } else { "output"@ }),
        ]
    }
}

pub open spec fn focus_ids(ws: Seq<WorkspaceFocus>) -> Seq<u64> {
    ws.map_values(|w: WorkspaceFocus| w.id)
}

/// The first focused workspace of a list.
pub open spec fn first_focused(ws: Seq<WorkspaceFocus>) -> Option<u64>
    decreases ws.len(),
{
    if ws.len() == 0 {
        None
    } else {
        match first_focused(ws.drop_last()) {
            Some(id) => Some(id),
            None => if ws.last().is_focused {
                Some(ws.last().id)
            } else {
                None
            },
        }
    }
}

pub open spec fn context_change(relation: Seq<char>) -> ChangeModel {
    ChangeModel::RelationChanged(selected_context_view(), relation)
}

/// The selected window a focus change moves away from: the newly focused
/// window itself where it is the active window of the focused workspace,
/// else the selected window.
pub open spec fn focus_origin(s: &NiriModel, id: Option<u64>) -> Option<u64> {
    if id is Some && match s.focused_workspace {
        Some(w) => w.active_window_id == id,
        None => false,
    } {
        id
    } else {
        selected_window(s)
    }
}

/// Whether an active window change touches the focused workspace.
pub open spec fn on_focused_workspace(s: &NiriModel, workspace_id: u64) -> bool {
    match s.focused_workspace {
        Some(w) => w.id == workspace_id,
        None => false,
    }
}

/// The changes an event reports against state `s`.
pub open spec fn event_changes_spec(s: &NiriModel, e: &NiriEvent) -> Seq<ChangeModel> {
    match e {
        NiriEvent::WorkspacesChanged { workspaces } => seq![ChangeModel::NodeKindChanged("workspace"@)]
            + removed_changes(s.workspace_ids@, focus_ids(workspaces@), false) + listed_changes(
            focus_ids(workspaces@),
            s.workspace_ids@,
            false,
        ) + selected_workspace_changes_spec(focused_workspace_id(s), first_focused(workspaces@))
            + seq![context_change("workspace"@), context_change("window"@)],
        NiriEvent::WorkspaceUrgencyChanged { id } => seq![
            ChangeModel::PropertyChanged(workspace_view(*id), "urgent"@),
        ],
        NiriEvent::WorkspaceActivated { id, focused } => seq![
            ChangeModel::NodeKindChanged("workspace"@),
            ChangeModel::PropertyChanged(workspace_view(*id), "active"@),
            ChangeModel::PropertyChanged(workspace_view(*id), "focused"@),
        ] + if *focused {
            selected_workspace_changes_spec(focused_workspace_id(s), Some(*id)) + seq![
                context_change("workspace"@),
                context_change("window"@),
            ]
        } else {
            Seq::empty()
        },
        NiriEvent::WorkspaceActiveWindowChanged { workspace_id, active_window_id } => seq![
            ChangeModel::PropertyChanged(workspace_view(*workspace_id), "active-window-id"@),
        ] + (if on_focused_workspace(s, *workspace_id) {
            selected_window_changes_spec(s.reported_selected_window_id, selected_window(s), *active_window_id)
        } else {
            Seq::empty()
        }) + seq![context_change("window"@)],
        NiriEvent::WindowsChanged { window_ids } => seq![ChangeModel::NodeKindChanged("window"@)]
            + removed_changes(s.window_ids@, window_ids@, true) + listed_changes(
            window_ids@,
            s.window_ids@,
            true,
        ) + seq![context_change("window"@)],
        NiriEvent::WindowOpenedOrChanged { id, is_focused } => seq![
            ChangeModel::NodeKindChanged("window"@),
            if s.window_ids@.contains(*id) {
                ChangeModel::NodeChanged(window_view(*id))
            } else {
                ChangeModel::NodeAdded(window_view(*id))
            },
            ChangeModel::RelationChanged(window_view(*id), "workspace"@),
        ] + if *is_focused {
            selected_window_changes_spec(s.reported_selected_window_id, selected_window(s), Some(*id))
                + seq![context_change("window"@)]
        } else {
            Seq::empty()
        },
        NiriEvent::WindowClosed { id } => seq![
            ChangeModel::NodeRemoved(window_view(*id)),
            ChangeModel::NodeKindChanged("window"@),
        ] + (if selected_window(s) == Some(*id) {
            seq![ChangeModel::PropertyChanged(window_view(*id), "selected"@)]
        } else {
            Seq::empty()
        }) + seq![context_change("window"@)],
        NiriEvent::WindowFocusChanged { id } => seq![ChangeModel::NodeKindChanged("window"@)] + (match id {
            Some(w) => seq![ChangeModel::PropertyChanged(window_view(*w), "focused"@)],
            None => Seq::empty(),
        }) + selected_window_changes_spec(s.reported_selected_window_id, focus_origin(s, *id), *id)
            + seq![context_change("window"@)],
        NiriEvent::WindowUrgencyChanged { id } => seq![
            ChangeModel::PropertyChanged(window_view(*id), "urgent"@),
        ],
        NiriEvent::WindowLayoutsChanged { window_ids } => window_ids@.map_values(
            |id: u64| ChangeModel::NodeChanged(window_view(id)),
        ),
        NiriEvent::Other => Seq::empty(),
    }
}

/// The window reported as selected after an event: the newly selected one
/// where the event moved the selection, else the one reported before.
pub open spec fn reported_selection_spec(s: &NiriModel, e: &NiriEvent) -> Option<u64> {
    match e {
        NiriEvent::WorkspaceActiveWindowChanged { workspace_id, active_window_id } => if on_focused_workspace(
            s,
            *workspace_id,
        ) {
            *active_window_id
        } else {
            s.reported_selected_window_id
        },
        NiriEvent::WindowOpenedOrChanged { id, is_focused } => if *is_focused {
            Some(*id)
        } else {
            s.reported_selected_window_id
        },
        NiriEvent::WindowFocusChanged { id } => *id,
        _ => s.reported_selected_window_id,
    }
}

proof fn lemma_event_names()
    ensures
        valid_identifier(IdentifierClass::NodeKind, "window"@),
        valid_identifier(IdentifierClass::NodeKind, "workspace"@),
        valid_identifier(IdentifierClass::RelationName, "window"@),
        valid_identifier(IdentifierClass::RelationName, "workspace"@),
        valid_identifier(IdentifierClass::RelationName, "output"@),
        valid_identifier(IdentifierClass::PropertyKey, "urgent"@),
        valid_identifier(IdentifierClass::PropertyKey, "active"@),
        valid_identifier(IdentifierClass::PropertyKey, "focused"@),
        valid_identifier(IdentifierClass::PropertyKey, "active-window-id"@),
        valid_identifier(IdentifierClass::PropertyKey, "selected"@),
{
    reveal_strlit("window");
    reveal_strlit("workspace");
    reveal_strlit("output");
    reveal_strlit("urgent");
    reveal_strlit("active");
    reveal_strlit("focused");
    reveal_strlit("active-window-id");
    reveal_strlit("selected");
    assert("window"@.len() == 6);
    assert("workspace"@.len() == 9);
    assert("output"@.len() == 6);
    assert("urgent"@.len() == 6);
    assert("active"@.len() == 6);
    assert("focused"@.len() == 7);
    assert("active-window-id"@.len() == 16);
    assert("selected"@.len() == 8);
}

fn record(changes: &mut Vec<GraphChange>, c: GraphChange)
    ensures
        change_models(final(changes)@) == change_models(old(changes)@).push(c@),
{
    proof {
        lemma_change_models_push(changes@, c);
    }
    changes.push(c);
}

fn item_node(windows: bool, id: u64) -> (r: NodeId)
    ensures
        r@ == item_view(windows, id),
{
    if windows {
        window_id_node(id)
    } else {
        workspace_id_node(id)
    }
}

fn property_change(node: NodeId, key: &str) -> (r: GraphChange)
    requires
        valid_identifier(IdentifierClass::PropertyKey, key@),
    ensures
        r@ == ChangeModel::PropertyChanged(node@, key@),
{
    GraphChange::PropertyChanged { node, key: known_key(key) }
}

fn context_relation_change(relation: &str) -> (r: GraphChange)
    requires
        valid_identifier(IdentifierClass::RelationName, relation@),
    ensures
        r@ == context_change(relation@),
{
    GraphChange::RelationChanged { source: selected_context_node(), relation: known_relation(relation) }
}

/// Whether a run of ids holds `id`.
fn holds_id(ids: &Vec<u64>, id: u64) -> (r: bool)
    ensures
        r == ids@.contains(id),
{
    let mut i: usize = 0;
    while i < ids.len()
        invariant
            i <= ids.len(),
            forall|j: int| 0 <= j < i ==> ids@[j] != id,
        decreases ids.len() - i,
    {
        if ids[i] == id {
            return true;
        }
        i += 1;
    }
    false
}

fn push_removed(changes: &mut Vec<GraphChange>, before: &Vec<u64>, after: &Vec<u64>, windows: bool)
    ensures
        change_models(final(changes)@) == change_models(old(changes)@) + removed_changes(
            before@,
            after@,
            windows,
        ),
{
    let ghost start = change_models(changes@);
    let mut i: usize = 0;
    assert(start + removed_changes(before@.take(0), after@, windows) =~= start);
    while i < before.len()
        invariant
            i <= before.len(),
            change_models(changes@) == start + removed_changes(before@.take(i as int), after@, windows),
        decreases before.len() - i,
    {
        let id = before[i];
        assert(before@.take(i + 1).drop_last() =~= before@.take(i as int));
        assert(before@.take(i + 1).last() == id);
        if !holds_id(after, id) {
            record(changes, GraphChange::NodeRemoved { node: item_node(windows, id) });
        }
        assert(change_models(changes@) =~= start + removed_changes(before@.take(i + 1), after@, windows));
        i += 1;
    }
    assert(before@.take(before.len() as int) =~= before@);
}

fn push_listed(changes: &mut Vec<GraphChange>, ids: &Vec<u64>, before: &Vec<u64>, windows: bool)
    ensures
        change_models(final(changes)@) == change_models(old(changes)@) + listed_changes(
            ids@,
            before@,
            windows,
        ),
{
    proof {
        lemma_event_names();
    }
    let ghost start = change_models(changes@);
    let mut i: usize = 0;
    assert(start + listed_changes(ids@.take(0), before@, windows) =~= start);
    while i < ids.len()
        invariant
            i <= ids.len(),
            valid_identifier(IdentifierClass::RelationName, "workspace"@),
            valid_identifier(IdentifierClass::RelationName, "output"@),
            change_models(changes@) == start + listed_changes(ids@.take(i as int), before@, windows),
        decreases ids.len() - i,
    {
        let id = ids[i];
        assert(ids@.take(i + 1).drop_last() =~= ids@.take(i as int));
        assert(ids@.take(i + 1).last() == id);
        let node = item_node(windows, id);
        if holds_id(before, id) {
            record(changes, GraphChange::NodeChanged { node: node.duplicate() });
        } else {
            record(changes, GraphChange::NodeAdded { node: node.duplicate() });
        }
        let relation = if windows {
            known_relation(WORKSPACE_RELATION)
        } else {
            known_relation(OUTPUT_RELATION)
        };
        record(changes, GraphChange::RelationChanged { source: node, relation });
        assert(change_models(changes@) =~= start + listed_changes(ids@.take(i + 1), before@, windows));
        i += 1;
    }
    assert(ids@.take(ids.len() as int) =~= ids@);
}

/// The ids of a workspaces event, and its first focused workspace.
fn focus_summary(workspaces: &Vec<WorkspaceFocus>) -> (r: (Vec<u64>, Option<u64>))
    ensures
        r.0@ == focus_ids(workspaces@),
        r.1 == first_focused(workspaces@),
{
    let mut ids: Vec<u64> = Vec::new();
    let mut focused: Option<u64> = None;
    let mut i: usize = 0;
    while i < workspaces.len()
        invariant
            i <= workspaces.len(),
            ids@ == focus_ids(workspaces@.take(i as int)),
            focused == first_focused(workspaces@.take(i as int)),
        decreases workspaces.len() - i,
    {
        let w = workspaces[i];
        assert(workspaces@.take(i + 1).drop_last() =~= workspaces@.take(i as int));
        assert(workspaces@.take(i + 1).last() == w);
        ids.push(w.id);
        if focused.is_none() && w.is_focused {
            focused = Some(w.id);
        }
        assert(ids@ =~= focus_ids(workspaces@.take(i + 1)));
        i += 1;
    }
    assert(workspaces@.take(workspaces.len() as int) =~= workspaces@);
    (ids, focused)
}

fn selected_window_of(s: &NiriModel) -> (r: Option<u64>)
    ensures
        r == selected_window(s),
{
    match s.focused_window_id {
        Some(id) => Some(id),
        None => match s.focused_workspace {
            Some(w) => w.active_window_id,
            None => None,
        },
    }
}

/// The changes that an event reports against the state the stream held
/// before it, and the window reported as selected afterwards.
pub fn event_changes(state: &NiriModel, event: &NiriEvent) -> (r: (Vec<GraphChange>, Option<u64>))
    ensures
        change_models(r.0@) == event_changes_spec(state, event),
        r.1 == reported_selection_spec(state, event),
{
    proof {
        lemma_event_names();
    }
    let mut changes: Vec<GraphChange> = Vec::new();
    let mut reported = state.reported_selected_window_id;
    let old_workspace = match state.focused_workspace {
        Some(w) => Some(w.id),
        None => None,
    };
    match event {
        NiriEvent::WorkspacesChanged { workspaces } => {
            let (ids, focused) = focus_summary(workspaces);
            record(&mut changes, GraphChange::NodeKindChanged { kind: known_kind(WORKSPACE_KIND) });
            push_removed(&mut changes, &state.workspace_ids, &ids, false);
            push_listed(&mut changes, &ids, &state.workspace_ids, false);
            push_selected_workspace_property_changes(&mut changes, old_workspace, focused);
            record(&mut changes, context_relation_change(WORKSPACE_RELATION));
            record(&mut changes, context_relation_change(WINDOW_RELATION));
        },
        NiriEvent::WorkspaceUrgencyChanged { id } => {
            record(&mut changes, property_change(workspace_id_node(*id), "urgent"));
        },
        NiriEvent::WorkspaceActivated { id, focused } => {
            record(&mut changes, GraphChange::NodeKindChanged { kind: known_kind(WORKSPACE_KIND) });
            record(&mut changes, property_change(workspace_id_node(*id), "active"));
            record(&mut changes, property_change(workspace_id_node(*id), "focused"));
            if *focused {
                push_selected_workspace_property_changes(&mut changes, old_workspace, Some(*id));
                record(&mut changes, context_relation_change(WORKSPACE_RELATION));
                record(&mut changes, context_relation_change(WINDOW_RELATION));
            }
        },
        NiriEvent::WorkspaceActiveWindowChanged { workspace_id, active_window_id } => {
            record(&mut changes, property_change(workspace_id_node(*workspace_id), "active-window-id"));
            let on_focused = match state.focused_workspace {
                Some(w) => w.id == *workspace_id,
                None => false,
            };
            if on_focused {
                let old_selected = selected_window_of(state);
                push_selected_window_property_changes(
                    &mut changes,
                    &mut reported,
                    old_selected,
                    *active_window_id,
                );
            }
            record(&mut changes, context_relation_change(WINDOW_RELATION));
        },
        NiriEvent::WindowsChanged { window_ids } => {
            record(&mut changes, GraphChange::NodeKindChanged { kind: known_kind(WINDOW_KIND) });
            push_removed(&mut changes, &state.window_ids, window_ids, true);
            push_listed(&mut changes, window_ids, &state.window_ids, true);
            record(&mut changes, context_relation_change(WINDOW_RELATION));
        },
        NiriEvent::WindowOpenedOrChanged { id, is_focused } => {
            let node = window_id_node(*id);
            record(&mut changes, GraphChange::NodeKindChanged { kind: known_kind(WINDOW_KIND) });
            if holds_id(&state.window_ids, *id) {
                record(&mut changes, GraphChange::NodeChanged { node: node.duplicate() });
            } else {
                record(&mut changes, GraphChange::NodeAdded { node: node.duplicate() });
            }
            record(
                &mut changes,
                GraphChange::RelationChanged { source: node, relation: known_relation(WORKSPACE_RELATION) },
            );
            if *is_focused {
                let old_selected = selected_window_of(state);
                push_selected_window_property_changes(&mut changes, &mut reported, old_selected, Some(*id));
                record(&mut changes, context_relation_change(WINDOW_RELATION));
            }
        },
        NiriEvent::WindowClosed { id } => {
            let old_selected = selected_window_of(state);
            record(&mut changes, GraphChange::NodeRemoved { node: window_id_node(*id) });
            record(&mut changes, GraphChange::NodeKindChanged { kind: known_kind(WINDOW_KIND) });
            if old_selected == Some(*id) {
                record(&mut changes, property_change(window_id_node(*id), "selected"));
            }
            record(&mut changes, context_relation_change(WINDOW_RELATION));
        },
        NiriEvent::WindowFocusChanged { id } => {
            let active_matches = match state.focused_workspace {
                Some(w) => w.active_window_id == *id,
                None => false,
            };
            let old_selected = if id.is_some() && active_matches {
                *id
            } else {
                selected_window_of(state)
            };
            record(&mut changes, GraphChange::NodeKindChanged { kind: known_kind(WINDOW_KIND) });
            if let Some(w) = id {
                record(&mut changes, property_change(window_id_node(*w), "focused"));
            }
            push_selected_window_property_changes(&mut changes, &mut reported, old_selected, *id);
            record(&mut changes, context_relation_change(WINDOW_RELATION));
        },
        NiriEvent::WindowUrgencyChanged { id } => {
            record(&mut changes, property_change(window_id_node(*id), "urgent"));
        },
        NiriEvent::WindowLayoutsChanged { window_ids } => {
            let mut i: usize = 0;
            while i < window_ids.len()
                invariant
                    i <= window_ids.len(),
                    change_models(changes@) == window_ids@.take(i as int).map_values(
                        |id: u64| ChangeModel::NodeChanged(window_view(id)),
                    ),
                decreases window_ids.len() - i,
            {
                record(&mut changes, GraphChange::NodeChanged { node: window_id_node(window_ids[i]) });
                assert(window_ids@.take(i + 1).map_values(|id: u64| ChangeModel::NodeChanged(window_view(id)))
                    =~= window_ids@.take(i as int).map_values(
                    |id: u64| ChangeModel::NodeChanged(window_view(id)),
                ).push(ChangeModel::NodeChanged(window_view(window_ids@[i as int]))));
                i += 1;
            }
            assert(window_ids@.take(window_ids.len() as int) =~= window_ids@);
        },
        NiriEvent::Other => {},
    }
    assert(change_models(changes@) =~= event_changes_spec(state, event));
    (changes, reported)
}

} // verus!
