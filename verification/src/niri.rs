//! The niri plugin's graph vocabulary: the nodes of windows, workspaces,
//! outputs and the selection context, the properties of workspaces and of
//! the context, and the `selected` properties that a change of focus
//! touches.
use vstd::prelude::*;

use crate::change::{change_models, lemma_change_models_push, ChangeModel, GraphChange};
use crate::error::{is_invalid_value, GraphError, Result};
use crate::identity::{
    identifier_error, valid_identifier, IdentifierClass, NodeId, NodeIdView,
};
use crate::projection::{known_key, known_node, property_models, put, PropertyMap};
use crate::text::{decimal, digit_char, u32_text, u64_text};
use crate::text_map::TextMap;
use crate::value::{LocusValue, ValueModel};

verus! {

pub const WINDOW_KIND: &'static str = "window";

pub const WORKSPACE_KIND: &'static str = "workspace";

pub const OUTPUT_KIND: &'static str = "output";

pub const CONTEXT_KIND: &'static str = "context";

/// The local id of the selection context node.
pub const SELECTED_CONTEXT: &'static str = "selected";

pub const WINDOW_RELATION: &'static str = "window";

pub const WORKSPACE_RELATION: &'static str = "workspace";

pub const OUTPUT_RELATION: &'static str = "output";

/// The niri plugin.
#[derive(Debug, Default)]
pub struct NiriPlugin;

/// The plugin's configuration, which has no settings.
#[derive(Debug, Default, PartialEq, Eq)]
pub struct NiriConfig {}

/// The niri IPC client that feeds the event stream.
#[derive(Debug, Default)]
pub struct IpcNiriClient;

/// What the graph reads of a niri workspace.
#[derive(Debug)]
pub struct WorkspaceInfo {
    pub id: u64,
    pub idx: u8,
    pub name: Option<String>,
    pub output: Option<String>,
    pub is_urgent: bool,
    pub is_active: bool,
    pub is_focused: bool,
    pub active_window_id: Option<u64>,
}

pub struct WorkspaceInfoView {
    pub id: u64,
    pub idx: u8,
    pub name: Option<Seq<char>>,
    pub output: Option<Seq<char>>,
    pub is_urgent: bool,
    pub is_active: bool,
    pub is_focused: bool,
    pub active_window_id: Option<u64>,
}

impl View for WorkspaceInfo {
    type V = WorkspaceInfoView;

    open spec fn view(&self) -> WorkspaceInfoView {
        WorkspaceInfoView {
            id: self.id,
            idx: self.idx,
            name: match self.name {
                Some(n) => Some(n@),
                None => None,
            },
            output: match self.output {
                Some(o) => Some(o@),
                None => None,
            },
            is_urgent: self.is_urgent,
            is_active: self.is_active,
            is_focused: self.is_focused,
            active_window_id: self.active_window_id,
        }
    }
}

proof fn lemma_decimal_is_digits(n: nat)
    ensures
        decimal(n).len() >= 1,
        forall|i: int| 0 <= i < decimal(n).len() ==> '0' <= #[trigger] decimal(n)[i] <= '9',
    decreases n,
{
    if n >= 10 {
        lemma_decimal_is_digits(n / 10);
    }
    let d = n % 10;
    assert(48 <= d + 48 <= 57);
    assert(('0' as u32) == 48);
    assert(('9' as u32) == 57);
    vstd::utf8::char_u32_cast(digit_char(d), (d + 48) as u32);
}

/// A decimal number is a valid node local id.
proof fn lemma_decimal_local_id(n: nat)
    ensures
        valid_identifier(IdentifierClass::NodeLocalId, decimal(n)),
{
    lemma_decimal_is_digits(n);
    let s = decimal(n);
    if s == seq!['.'] {
        assert(s[0] == '.');
    }
    if s == seq!['.', '.'] {
        assert(s[0] == '.');
    }
    if s.contains('\0') {
        let i = choose|i: int| 0 <= i < s.len() && s[i] == '\0';
        assert('0' <= s[i]);
    }
}

/// The node of a window, by id.
pub open spec fn window_view(id: u64) -> NodeIdView {
    NodeIdView { kind: "window"@, local: decimal(id as nat) }
}

/// The node of a workspace, by id.
pub open spec fn workspace_view(id: u64) -> NodeIdView {
    NodeIdView { kind: "workspace"@, local: decimal(id as nat) }
}

/// The selection context node.
pub open spec fn selected_context_view() -> NodeIdView {
    NodeIdView { kind: "context"@, local: "selected"@ }
}

pub fn window_id_node(id: u64) -> (r: NodeId)
    ensures
        r@ == window_view(id),
{
    proof {
        reveal_strlit("window");
        lemma_decimal_local_id(id as nat);
    }
    let local = u64_text(id);
    known_node(WINDOW_KIND, local.as_str())
}

pub fn workspace_id_node(id: u64) -> (r: NodeId)
    ensures
        r@ == workspace_view(id),
{
    proof {
        reveal_strlit("workspace");
        lemma_decimal_local_id(id as nat);
    }
    let local = u64_text(id);
    known_node(WORKSPACE_KIND, local.as_str())
}

/// The node of an output, by connector name.
pub fn output_node(name: &str) -> (r: Result<NodeId>)
    ensures
        r is Ok <==> valid_identifier(IdentifierClass::NodeLocalId, name@),
        r matches Ok(n) ==> n@ == (NodeIdView { kind: "output"@, local: name@ }),
        r matches Err(e) ==> identifier_error(IdentifierClass::NodeLocalId, name@, e),
{
    proof {
        reveal_strlit("output");
    }
    NodeId::from_parts(OUTPUT_KIND, name)
}

pub fn selected_context_node() -> (r: NodeId)
    ensures
        r@ == selected_context_view(),
{
    proof {
        reveal_strlit("context");
        reveal_strlit("selected");
    }
    known_node(CONTEXT_KIND, SELECTED_CONTEXT)
}

/// The `selected` property change of a node.
pub open spec fn selected_change(node: NodeIdView) -> ChangeModel {
    ChangeModel::PropertyChanged(node, "selected"@)
}

/// The `selected` changes of windows when the selection moves from `old`
/// (the one reported last, or else the one selected before) to `new`:
/// none where they are the same window, else one for each side that is a
/// window.
pub open spec fn selected_window_changes_spec(
    reported: Option<u64>,
    old: Option<u64>,
    new: Option<u64>,
) -> Seq<ChangeModel> {
    let from = match reported {
        Some(r) => Some(r),
        None => old,
    };
    if from == new {
        Seq::empty()
    } else {
        let a = match from {
            Some(id) => seq![selected_change(window_view(id))],
            None => Seq::empty(),
        };
        let b = match new {
            Some(id) => seq![selected_change(window_view(id))],
            None => Seq::empty(),
        };
        a + b
    }
}

fn push_selected(changes: &mut Vec<GraphChange>, node: NodeId)
    ensures
        change_models(final(changes)@) == change_models(old(changes)@).push(
            selected_change(node@),
        ),
{
    proof {
        reveal_strlit("selected");
    }
    let key = known_key("selected");
    let ghost before = changes@;
    let c = GraphChange::PropertyChanged { node, key };
    let ghost cv = c@;
    changes.push(c);
    proof {
        lemma_change_models_push(before, c);
    }
}

/// Records the `selected` changes of windows for a move of the selection
/// from `old_selected` to `new_selected`; the window reported as selected
/// last stands for the old one where there is one, and the new one is
/// reported from now on.
pub fn push_selected_window_property_changes(
    changes: &mut Vec<GraphChange>,
    reported_selected_window_id: &mut Option<u64>,
    old_selected_window_id: Option<u64>,
    new_selected_window_id: Option<u64>,
)
    ensures
        change_models(final(changes)@) == change_models(old(changes)@)
            + selected_window_changes_spec(
            *old(reported_selected_window_id),
            old_selected_window_id,
            new_selected_window_id,
        ),
        *final(reported_selected_window_id) == new_selected_window_id,
{
    let from = match *reported_selected_window_id {
        Some(r) => Some(r),
        None => old_selected_window_id,
    };
    let ghost start = change_models(changes@);
    if from == new_selected_window_id {
        *reported_selected_window_id = new_selected_window_id;
        assert(start + Seq::<ChangeModel>::empty() =~= start);
        return ;
    }
    if let Some(id) = from {
        push_selected(changes, window_id_node(id));
    }
    let ghost mid = change_models(changes@);
    if let Some(id) = new_selected_window_id {
        push_selected(changes, window_id_node(id));
    }
    *reported_selected_window_id = new_selected_window_id;
    proof {
        let sel = selected_window_changes_spec(
            *old(reported_selected_window_id),
            old_selected_window_id,
            new_selected_window_id,
        );
        assert(change_models(changes@) =~= start + sel);
    }
}

/// The `selected` changes of workspaces when the selection moves from
/// `old` to `new`: one for the old workspace where there is one, and one
/// for the new workspace where it is another.
pub open spec fn selected_workspace_changes_spec(old: Option<u64>, new: Option<u64>) -> Seq<
    ChangeModel,
> {
    let a = match old {
        Some(id) => seq![selected_change(workspace_view(id))],
        None => Seq::empty(),
    };
    let b = match new {
        Some(id) => if Some(id) != old {
            seq![selected_change(workspace_view(id))]
        } else {
            Seq::empty()
        },
        None => Seq::empty(),
    };
    a + b
}

pub fn push_selected_workspace_property_changes(
    changes: &mut Vec<GraphChange>,
    old_selected_workspace_id: Option<u64>,
    new_selected_workspace_id: Option<u64>,
)
    ensures
        change_models(final(changes)@) == change_models(old(changes)@)
            + selected_workspace_changes_spec(old_selected_workspace_id, new_selected_workspace_id),
{
    let ghost start = change_models(changes@);
    if let Some(id) = old_selected_workspace_id {
        push_selected(changes, workspace_id_node(id));
    }
    if let Some(id) = new_selected_workspace_id {
        if Some(id) != old_selected_workspace_id {
            push_selected(changes, workspace_id_node(id));
        }
    }
    proof {
        assert(change_models(changes@) =~= start + selected_workspace_changes_spec(
            old_selected_workspace_id,
            new_selected_workspace_id,
        ));
    }
}

/// The properties of a workspace: its kind and source, id, index, name
/// (its index where it has none), urgency, activity, focus, whether it is
/// the selected one, and the id of its active window where it has one.
pub open spec fn workspace_properties_spec(w: WorkspaceInfoView, selected: Option<u64>) -> Map<
    Seq<char>,
    ValueModel,
> {
    let base = Map::<Seq<char>, ValueModel>::empty().insert(
        "kind"@,
        ValueModel::Text("workspace"@),
    ).insert("source"@, ValueModel::Text("niri"@)).insert(
        "id"@,
        ValueModel::Text(decimal(w.id as nat)),
    ).insert("index"@, ValueModel::U32(w.idx as u32)).insert(
        "name"@,
        ValueModel::Text(
            match w.name {
                Some(n) => n,
                None => decimal(w.idx as nat),
            },
        ),
    ).insert("urgent"@, ValueModel::Bool(w.is_urgent)).insert(
        "active"@,
        ValueModel::Bool(w.is_active),
    ).insert("focused"@, ValueModel::Bool(w.is_focused)).insert(
        "selected"@,
        ValueModel::Bool(selected == Some(w.id)),
    );
    match w.active_window_id {
        Some(a) => base.insert("active-window-id"@, ValueModel::Text(decimal(a as nat))),
        None => base,
    }
}

pub fn workspace_properties(workspace: &WorkspaceInfo, selected_workspace_id: Option<u64>) -> (r:
    PropertyMap)
    ensures
        property_models(r) == workspace_properties_spec(workspace@, selected_workspace_id),
{
    proof {
        reveal_strlit("kind");
        reveal_strlit("source");
        reveal_strlit("id");
        reveal_strlit("index");
        reveal_strlit("name");
        reveal_strlit("urgent");
        reveal_strlit("active");
        reveal_strlit("focused");
        reveal_strlit("selected");
        reveal_strlit("active-window-id");
    }
    let mut m: PropertyMap = TextMap::new();
    put(&mut m, "kind", LocusValue::text(WORKSPACE_KIND));
    put(&mut m, "source", LocusValue::text("niri"));
    put(&mut m, "id", LocusValue::String(u64_text(workspace.id)));
    put(&mut m, "index", LocusValue::U32(workspace.idx as u32));
    let name = match &workspace.name {
        Some(n) => n.clone(),
        None => u32_text(workspace.idx as u32),
    };
    put(&mut m, "name", LocusValue::String(name));
    put(&mut m, "urgent", LocusValue::Bool(workspace.is_urgent));
    put(&mut m, "active", LocusValue::Bool(workspace.is_active));
    put(&mut m, "focused", LocusValue::Bool(workspace.is_focused));
    put(&mut m, "selected", LocusValue::Bool(selected_workspace_id == Some(workspace.id)));
    if let Some(active) = workspace.active_window_id {
        put(&mut m, "active-window-id", LocusValue::String(u64_text(active)));
    }
    proof {
        assert(property_models(m) =~= workspace_properties_spec(
            workspace@,
            selected_workspace_id,
        ));
    }
    m
}

/// What the graph reads of a window: all of it but the fractional size of
/// its tile.
pub struct WindowInfo {
    pub id: u64,
    pub title: Option<String>,
    pub app_id: Option<String>,
    pub pid: Option<i32>,
    pub workspace_id: Option<u64>,
    pub is_focused: bool,
    pub is_floating: bool,
    pub is_urgent: bool,
    pub pos_in_scrolling_layout: Option<(usize, usize)>,
    pub window_size: (i32, i32),
}

pub struct WindowInfoView {
    pub id: u64,
    pub title: Option<Seq<char>>,
    pub app_id: Option<Seq<char>>,
    pub pid: Option<i32>,
    pub workspace_id: Option<u64>,
    pub is_focused: bool,
    pub is_floating: bool,
    pub is_urgent: bool,
    pub pos_in_scrolling_layout: Option<(usize, usize)>,
    pub window_size: (i32, i32),
}

pub open spec fn opt_text_of(o: Option<String>) -> Option<Seq<char>> {
    match o {
        Some(t) => Some(t@),
        None => None,
    }
}

impl View for WindowInfo {
    type V = WindowInfoView;

    open spec fn view(&self) -> WindowInfoView {
        WindowInfoView {
            id: self.id,
            title: opt_text_of(self.title),
            app_id: opt_text_of(self.app_id),
            pid: self.pid,
            workspace_id: self.workspace_id,
            is_focused: self.is_focused,
            is_floating: self.is_floating,
            is_urgent: self.is_urgent,
            pos_in_scrolling_layout: self.pos_in_scrolling_layout,
            window_size: self.window_size,
        }
    }
}

/// `m` with `key` holding the text `v`, when there is one.
pub open spec fn with_text(m: Map<Seq<char>, ValueModel>, key: Seq<char>, v: Option<Seq<char>>) -> Map<
    Seq<char>,
    ValueModel,
> {
    match v {
        Some(t) => m.insert(key, ValueModel::Text(t)),
        None => m,
    }
}

/// The properties of a window node: its id, title, app id, process,
/// workspace, whether it is focused, selected, floating or urgent, its
/// column and row in the scrolling layout when it has them, and its size.
pub open spec fn window_properties_spec(w: WindowInfoView, selected: Option<u64>) -> Map<
    Seq<char>,
    ValueModel,
> {
    window_positioned(w, selected).insert("window-width"@, ValueModel::I32(w.window_size.0)).insert(
        "window-height"@,
        ValueModel::I32(w.window_size.1),
    )
}

/// The properties of a window up to its title and app id.
pub open spec fn window_named(w: WindowInfoView) -> Map<Seq<char>, ValueModel> {
    let head = Map::<Seq<char>, ValueModel>::empty().insert("kind"@, ValueModel::Text("window"@)).insert(
        "source"@,
        ValueModel::Text("niri"@),
    ).insert("id"@, ValueModel::Text(decimal(w.id as nat)));
    with_text(with_text(head, "title"@, w.title), "app-id"@, w.app_id)
}

/// The properties of a window up to its flags.
pub open spec fn window_flagged(w: WindowInfoView, selected: Option<u64>) -> Map<Seq<char>, ValueModel> {
    let with_pid = match w.pid {
        Some(p) => window_named(w).insert("pid"@, ValueModel::I32(p)),
        None => window_named(w),
    };
    let placed = match w.workspace_id {
        Some(x) => with_pid.insert("workspace-id"@, ValueModel::Text(decimal(x as nat))),
        None => with_pid,
    };
    placed.insert("focused"@, ValueModel::Bool(w.is_focused)).insert(
        "selected"@,
        ValueModel::Bool(selected == Some(w.id)),
    ).insert("floating"@, ValueModel::Bool(w.is_floating)).insert(
        "urgent"@,
        ValueModel::Bool(w.is_urgent),
    )
}

/// The properties of a window up to its place in the layout.
pub open spec fn window_positioned(w: WindowInfoView, selected: Option<u64>) -> Map<Seq<char>, ValueModel> {
    match w.pos_in_scrolling_layout {
        Some((c, row)) => window_flagged(w, selected).insert("column"@, ValueModel::U32(c as u32)).insert(
            "row"@,
            ValueModel::U32(row as u32),
        ),
        None => window_flagged(w, selected),
    }
}

/// The error for a layout position that does not fit a `u32` property.
pub open spec fn position_too_large(e: GraphError, value: usize) -> bool {
    is_invalid_value(e, "usize property"@, decimal(value as nat), "value does not fit in u32"@)
}

/// A layout position as a `u32` property value.
fn position_value(value: usize) -> (r: Result<u32>)
    ensures
        value <= u32::MAX ==> r == Ok::<u32, GraphError>(value as u32),
        value > u32::MAX ==> (r matches Err(e) && position_too_large(e, value)),
{
    if value <= 0xffff_ffffusize {
        Ok(value as u32)
    } else {
        Err(
            GraphError::InvalidValue {
                kind: "usize property",
                value: u64_text(value as u64),
                reason: "value does not fit in u32",
            },
        )
    }
}

/// The properties of a window node; fails on a layout column, else row,
/// that does not fit a `u32`.
pub fn window_properties(window: &WindowInfo, selected_window_id: Option<u64>) -> (r: Result<
    PropertyMap,
>)
    ensures
        match window.pos_in_scrolling_layout {
            Some((c, row)) => if c > u32::MAX {
                r matches Err(e) && position_too_large(e, c)
            } else if row > u32::MAX {
                r matches Err(e) && position_too_large(e, row)
            } else {
                r matches Ok(m) && property_models(m) == window_properties_spec(window@, selected_window_id)
            },
            None => r matches Ok(m) && property_models(m) == window_properties_spec(window@, selected_window_id),
        },
{
    proof {
        reveal_strlit("kind");
        reveal_strlit("source");
        reveal_strlit("id");
        reveal_strlit("title");
        reveal_strlit("app-id");
        reveal_strlit("pid");
        reveal_strlit("workspace-id");
        reveal_strlit("focused");
        reveal_strlit("selected");
        reveal_strlit("floating");
        reveal_strlit("urgent");
        reveal_strlit("column");
        reveal_strlit("row");
        reveal_strlit("window-width");
        reveal_strlit("window-height");
    }
    let mut m: PropertyMap = TextMap::new();
    put(&mut m, "kind", LocusValue::text(WINDOW_KIND));
    put(&mut m, "source", LocusValue::text("niri"));
    put(&mut m, "id", LocusValue::String(u64_text(window.id)));
    if let Some(title) = &window.title {
        put(&mut m, "title", LocusValue::text(title.as_str()));
    }
    if let Some(app_id) = &window.app_id {
        put(&mut m, "app-id", LocusValue::text(app_id.as_str()));
    }
    assert(property_models(m) =~= window_named(window@));
    if let Some(pid) = window.pid {
        put(&mut m, "pid", LocusValue::I32(pid));
    }
    if let Some(workspace_id) = window.workspace_id {
        put(&mut m, "workspace-id", LocusValue::String(u64_text(workspace_id)));
    }
    put(&mut m, "focused", LocusValue::Bool(window.is_focused));
    put(&mut m, "selected", LocusValue::Bool(selected_window_id == Some(window.id)));
    put(&mut m, "floating", LocusValue::Bool(window.is_floating));
    put(&mut m, "urgent", LocusValue::Bool(window.is_urgent));
    assert(property_models(m) =~= window_flagged(window@, selected_window_id));
    if let Some((column, row)) = window.pos_in_scrolling_layout {
        let c = match position_value(column) {
            Ok(v) => v,
            Err(e) => {
                return Err(e);
            },
        };
        put(&mut m, "column", LocusValue::U32(c));
        let rv = match position_value(row) {
            Ok(v) => v,
            Err(e) => {
                return Err(e);
            },
        };
        put(&mut m, "row", LocusValue::U32(rv));
    }
    assert(property_models(m) =~= window_positioned(window@, selected_window_id));
    put(&mut m, "window-width", LocusValue::I32(window.window_size.0));
    put(&mut m, "window-height", LocusValue::I32(window.window_size.1));
    proof {
        assert(property_models(m) =~= window_properties_spec(window@, selected_window_id));
    }
    Ok(m)
}

/// The properties of the selection context.
pub open spec fn context_properties_spec() -> Map<Seq<char>, ValueModel> {
    Map::<Seq<char>, ValueModel>::empty().insert("kind"@, ValueModel::Text("context"@)).insert(
        "source"@,
        ValueModel::Text("niri"@),
    ).insert("name"@, ValueModel::Text("selected"@))
}

pub fn context_properties() -> (r: PropertyMap)
    ensures
        property_models(r) == context_properties_spec(),
{
    proof {
        reveal_strlit("kind");
        reveal_strlit("source");
        reveal_strlit("name");
    }
    let mut m: PropertyMap = TextMap::new();
    put(&mut m, "kind", LocusValue::text(CONTEXT_KIND));
    put(&mut m, "source", LocusValue::text("niri"));
    put(&mut m, "name", LocusValue::text(SELECTED_CONTEXT));
    proof {
        assert(property_models(m) =~= context_properties_spec());
    }
    m
}

/// Once a selection has been reported, reporting a move to the same
/// window again, whatever was selected before, reports nothing.
pub proof fn lemma_reported_selection_is_quiet(selected: Option<u64>, old: Option<u64>)
    requires
        selected is Some,
    ensures
        selected_window_changes_spec(selected, old, selected) == Seq::<ChangeModel>::empty(),
{
}

/// A move of the selection between two different windows reports both of
/// them, the old one first.
pub proof fn lemma_selection_move_reports_both(old: u64, new: u64)
    requires
        old != new,
    ensures
        selected_window_changes_spec(None, Some(old), Some(new)) == seq![
            selected_change(window_view(old)),
            selected_change(window_view(new)),
        ],
{
    assert(selected_window_changes_spec(None, Some(old), Some(new)) =~= seq![
        selected_change(window_view(old)),
        selected_change(window_view(new)),
    ]);
}

/// A window node's size properties are the window's size: `window-width`
/// is its first component and `window-height` its second, whatever else
/// the window holds.
pub proof fn lemma_window_size_properties(w: WindowInfoView, selected: Option<u64>)
    ensures
        window_properties_spec(w, selected).contains_key("window-width"@),
        window_properties_spec(w, selected)["window-width"@] == ValueModel::I32(w.window_size.0),
        window_properties_spec(w, selected).contains_key("window-height"@),
        window_properties_spec(w, selected)["window-height"@] == ValueModel::I32(w.window_size.1),
{
    reveal_strlit("window-width");
    reveal_strlit("window-height");
    assert("window-width"@ != "window-height"@) by {
        assert("window-width"@[7] != "window-height"@[7]);
    }
}

/// A window node's flags are the window's own: `focused`, `floating` and
/// `urgent` read the window's flags of those names, and `selected` is
/// whether the window is the selected one.
pub proof fn lemma_window_flag_properties(w: WindowInfoView, selected: Option<u64>)
    ensures
        window_properties_spec(w, selected)["focused"@] == ValueModel::Bool(w.is_focused),
        window_properties_spec(w, selected)["floating"@] == ValueModel::Bool(w.is_floating),
        window_properties_spec(w, selected)["urgent"@] == ValueModel::Bool(w.is_urgent),
        window_properties_spec(w, selected)["selected"@] == ValueModel::Bool(selected == Some(w.id)),
{
    reveal_strlit("focused");
    reveal_strlit("floating");
    reveal_strlit("urgent");
    reveal_strlit("selected");
    reveal_strlit("column");
    reveal_strlit("row");
    reveal_strlit("window-width");
    reveal_strlit("window-height");
    let later = seq!["column"@, "row"@, "window-width"@, "window-height"@];
    assert(later[0][0] == 'c' && later[1][0] == 'r' && later[2][0] == 'w' && later[3][0] == 'w');
    assert("focused"@[0] == 'f' && "floating"@[0] == 'f' && "urgent"@[0] == 'u' && "selected"@[0] == 's');
    assert("focused"@ != "floating"@) by {
        assert("focused"@[1] != "floating"@[1]);
    }
    assert("column"@ != "focused"@ && "column"@ != "floating"@ && "column"@ != "urgent"@ && "column"@
        != "selected"@);
    assert("row"@ != "focused"@ && "row"@ != "floating"@ && "row"@ != "urgent"@ && "row"@ != "selected"@);
    assert("window-width"@ != "focused"@ && "window-width"@ != "floating"@ && "window-width"@ != "urgent"@
        && "window-width"@ != "selected"@);
    assert("window-height"@ != "focused"@ && "window-height"@ != "floating"@ && "window-height"@
        != "urgent"@ && "window-height"@ != "selected"@);
    assert("selected"@ != "floating"@ && "selected"@ != "urgent"@ && "urgent"@ != "floating"@);
    assert("selected"@ != "focused"@ && "urgent"@ != "focused"@);
}

} // verus!
