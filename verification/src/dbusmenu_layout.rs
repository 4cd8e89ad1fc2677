//! The layout of a menu as `GetLayout` returns it, a tree of items, laid
//! out flat into a menu endpoint: each item with its parent, its position
//! among its siblings and the ids of its children.
use vstd::prelude::*;

use crate::dbusmenu::{DbusMenuEndpoint, DbusMenuEndpointView, DbusMenuItem, DbusMenuItemView};

verus! {

/// The properties of a layout item that a menu reads.
#[derive(Debug, Default)]
pub struct LayoutProperties {
    pub label: Option<String>,
    pub enabled: Option<bool>,
    pub visible: Option<bool>,
    pub item_type: Option<String>,
    pub toggle_type: Option<String>,
    pub toggle_state: Option<i32>,
    pub icon_name: Option<String>,
    pub disposition: Option<String>,
}

/// One item of a layout, with its children in order. The item with id 0
/// is the root of the menu.
#[derive(Debug)]
pub struct LayoutItem {
    pub id: i32,
    pub properties: LayoutProperties,
    pub children: Vec<LayoutItem>,
}

/// A text property, or the empty text where it is not set.
pub open spec fn text_or_empty(t: Option<String>) -> Seq<char> {
    match t {
        Some(s) => s@,
        None => Seq::empty(),
    }
}

/// The ids of items, in order.
pub open spec fn layout_ids(kids: Seq<LayoutItem>) -> Seq<i32> {
    kids.map_values(|k: LayoutItem| k.id)
}

/// What the items of a menu take from the menu: its local id, bus, bus
/// name and object path.
pub struct MenuHeader {
    pub local_id: Seq<char>,
    pub bus: crate::dbusmenu::BusKind,
    pub service: Seq<char>,
    pub path: Seq<char>,
}

pub open spec fn header_of(e: DbusMenuEndpointView) -> MenuHeader {
    MenuHeader { local_id: e.local_id, bus: e.bus, service: e.service, path: e.path }
}

/// The menu item a layout item becomes: the menu's identity, the item's
/// place in the tree, and its properties, with labels and names empty,
/// `enabled` and `visible` true and the toggle state -1 where they are not
/// set.
pub open spec fn layout_item_view(
    h: MenuHeader,
    parent: Option<i32>,
    position: u32,
    item: LayoutItem,
) -> DbusMenuItemView {
    DbusMenuItemView {
        menu_id: h.local_id,
        bus: h.bus,
        service: h.service,
        path: h.path,
        item_id: item.id,
        parent_id: parent,
        position,
        child_ids: layout_ids(item.children@),
        label: text_or_empty(item.properties.label),
        enabled: match item.properties.enabled {
            Some(b) => b,
            None => true,
        },
        visible: match item.properties.visible {
            Some(b) => b,
            None => true,
        },
        item_type: text_or_empty(item.properties.item_type),
        toggle_type: text_or_empty(item.properties.toggle_type),
        toggle_state: match item.properties.toggle_state {
            Some(t) => t,
            None => -1i32,
        },
        icon_name: text_or_empty(item.properties.icon_name),
        disposition: text_or_empty(item.properties.disposition),
    }
}

/// The items and root items of a menu after laying out `item` under
/// `parent` at `position`: its children first, in order, each at its
/// index; then the item itself, replacing an item with the same id; the
/// root (id 0) sets the root items to the ids of its children instead.
pub open spec fn flatten_spec(
    st: (Map<i32, DbusMenuItemView>, Seq<i32>),
    h: MenuHeader,
    parent: Option<i32>,
    position: u32,
    item: LayoutItem,
) -> (Map<i32, DbusMenuItemView>, Seq<i32>)
    decreases item, 0int,
{
    let after = flatten_children_spec(st, h, item.id, item.children@, item.children@.len() as int);
    if item.id == 0 {
        (after.0, layout_ids(item.children@))
    } else {
        (after.0.insert(item.id, layout_item_view(h, parent, position, item)), after.1)
    }
}

/// The first `n` children of an item laid out in order.
pub open spec fn flatten_children_spec(
    st: (Map<i32, DbusMenuItemView>, Seq<i32>),
    h: MenuHeader,
    parent_id: i32,
    kids: Seq<LayoutItem>,
    n: int,
) -> (Map<i32, DbusMenuItemView>, Seq<i32>)
    decreases kids, n,
{
    if n <= 0 || n > kids.len() {
        st
    } else {
        flatten_spec(
            flatten_children_spec(st, h, parent_id, kids, n - 1),
            h,
            Some(parent_id),
            (n - 1) as u32,
            kids[n - 1],
        )
    }
}

/// What laying out changes of a menu: its items and root items.
pub open spec fn layout_state(e: DbusMenuEndpointView) -> (Map<i32, DbusMenuItemView>, Seq<i32>) {
    (e.items, e.root_items)
}

fn text_of(t: &Option<String>) -> (r: String)
    ensures
        r@ == text_or_empty(*t),
{
    match t {
        Some(s) => s.clone(),
        None => String::new(),
    }
}

fn layout_into(
    endpoint: &mut DbusMenuEndpoint,
    parent_id: Option<i32>,
    position: u32,
    item: &LayoutItem,
)
    ensures
        final(endpoint)@.local_id == old(endpoint)@.local_id,
        final(endpoint)@.bus == old(endpoint)@.bus,
        final(endpoint)@.service == old(endpoint)@.service,
        final(endpoint)@.path == old(endpoint)@.path,
        final(endpoint)@.revision == old(endpoint)@.revision,
        layout_state(final(endpoint)@) == flatten_spec(
            layout_state(old(endpoint)@),
            header_of(old(endpoint)@),
            parent_id,
            position,
            *item,
        ),
    decreases item,
{
    let ghost e0 = endpoint@;
    let ghost h = header_of(endpoint@);
    let ghost st0 = layout_state(endpoint@);
    let mut child_ids: Vec<i32> = Vec::new();
    let mut i: usize = 0;
    while i < item.children.len()
        invariant
            i <= item.children@.len(),
            e0 == old(endpoint)@,
            h == header_of(e0),
            st0 == layout_state(e0),
            endpoint@.local_id == e0.local_id,
            endpoint@.bus == e0.bus,
            endpoint@.service == e0.service,
            endpoint@.path == e0.path,
            endpoint@.revision == e0.revision,
            child_ids@ == layout_ids(item.children@.take(i as int)),
            layout_state(endpoint@) == flatten_children_spec(
                st0,
                h,
                item.id,
                item.children@,
                i as int,
            ),
        decreases item.children@.len() - i,
    {
        let child = &item.children[i];
        assert(decreases_to!(item => item.children));
        child_ids.push(child.id);
        layout_into(endpoint, Some(item.id), i as u32, child);
        i += 1;
        assert(layout_ids(item.children@.take(i as int)) =~= layout_ids(
            item.children@.take((i - 1) as int),
        ).push(child.id));
    }
    assert(item.children@.take(i as int) =~= item.children@);
    if item.id == 0 {
        endpoint.root_items = child_ids;
        return ;
    }
    let p = &item.properties;
    let entry = DbusMenuItem {
        menu_id: endpoint.local_id.clone(),
        bus: endpoint.bus,
        service: endpoint.service.clone(),
        path: endpoint.path.clone(),
        item_id: item.id,
        parent_id,
        position,
        child_ids,
        label: text_of(&p.label),
        enabled: match p.enabled {
            Some(b) => b,
            None => true,
        },
        visible: match p.visible {
            Some(b) => b,
            None => true,
        },
        item_type: text_of(&p.item_type),
        toggle_type: text_of(&p.toggle_type),
        toggle_state: match p.toggle_state {
            Some(t) => t,
            None => -1,
        },
        icon_name: text_of(&p.icon_name),
        disposition: text_of(&p.disposition),
    };
    assert(entry@ == layout_item_view(h, parent_id, position, *item));
    let ghost before = endpoint.items.map();
    endpoint.items.insert(item.id, entry);
    proof {
        assert(endpoint.items.map().map_values(|i: DbusMenuItem| i@) =~= before.map_values(
            |i: DbusMenuItem| i@,
        ).insert(item.id, layout_item_view(h, parent_id, position, *item)));
    }
}

/// Lays out a layout tree into a menu endpoint, the item under `parent_id`
/// at `position` among its siblings.
pub fn flatten_layout(
    endpoint: &mut DbusMenuEndpoint,
    parent_id: Option<i32>,
    position: u32,
    item: LayoutItem,
)
    ensures
        final(endpoint)@.local_id == old(endpoint)@.local_id,
        final(endpoint)@.bus == old(endpoint)@.bus,
        final(endpoint)@.service == old(endpoint)@.service,
        final(endpoint)@.path == old(endpoint)@.path,
        final(endpoint)@.revision == old(endpoint)@.revision,
        layout_state(final(endpoint)@) == flatten_spec(
            layout_state(old(endpoint)@),
            header_of(old(endpoint)@),
            parent_id,
            position,
            item,
        ),
{
    layout_into(endpoint, parent_id, position, &item);
}

/// Whether `x` is `item` or an item below it.
pub open spec fn in_layout(x: LayoutItem, item: LayoutItem) -> bool
    decreases item, 0int,
{
    x == item || in_layout_children(x, item.children@, item.children@.len() as int)
}

/// Whether `x` is one of the first `n` items of `kids` or below one.
pub open spec fn in_layout_children(x: LayoutItem, kids: Seq<LayoutItem>, n: int) -> bool
    decreases kids, n,
{
    if n <= 0 || n > kids.len() {
        false
    } else {
        in_layout_children(x, kids, n - 1) || in_layout(x, kids[n - 1])
    }
}

/// A menu item read from layout item `x`: `visible` and `enabled` as its
/// properties set them, true where they leave them unset; its label, type,
/// toggle type, icon name and disposition, or nothing; its toggle state,
/// or -1; and the ids of its children, in order.
pub open spec fn read_from(v: DbusMenuItemView, x: LayoutItem) -> bool {
    &&& x.id != 0
    &&& v.item_id == x.id
    &&& v.visible == match x.properties.visible {
        Some(b) => b,
        None => true,
    }
    &&& v.enabled == match x.properties.enabled {
        Some(b) => b,
        None => true,
    }
    &&& v.label == match x.properties.label {
        Some(l) => l@,
        None => Seq::<char>::empty(),
    }
    &&& v.toggle_state == match x.properties.toggle_state {
        Some(t) => t,
        None => -1i32,
    }
    &&& v.item_type == match x.properties.item_type {
        Some(t) => t@,
        None => Seq::<char>::empty(),
    }
    &&& v.toggle_type == match x.properties.toggle_type {
        Some(t) => t@,
        None => Seq::<char>::empty(),
    }
    &&& v.icon_name == match x.properties.icon_name {
        Some(t) => t@,
        None => Seq::<char>::empty(),
    }
    &&& v.disposition == match x.properties.disposition {
        Some(t) => t@,
        None => Seq::<char>::empty(),
    }
    &&& v.child_ids.len() == x.children@.len()
    &&& forall|i: int| 0 <= i < x.children@.len() ==> v.child_ids[i] == (#[trigger] x.children@[i]).id
}

proof fn lemma_flatten_reads(
    st: (Map<i32, DbusMenuItemView>, Seq<i32>),
    h: MenuHeader,
    parent: Option<i32>,
    position: u32,
    item: LayoutItem,
)
    ensures
        forall|id: i32|
            #[trigger] flatten_spec(st, h, parent, position, item).0.contains_key(id) ==> (st.0.contains_key(id)
                && flatten_spec(st, h, parent, position, item).0[id] == st.0[id]) || exists|x: LayoutItem|
                in_layout(x, item) && x.id == id && read_from(flatten_spec(st, h, parent, position, item).0[id], x),
    decreases item, 0int,
{
    let kids = item.children@;
    let after = flatten_children_spec(st, h, item.id, kids, kids.len() as int);
    lemma_flatten_children_reads(st, h, item.id, kids, kids.len() as int);
    let r = flatten_spec(st, h, parent, position, item);
    assert forall|id: i32| #[trigger] r.0.contains_key(id) implies (st.0.contains_key(id) && r.0[id] == st.0[id])
        || exists|x: LayoutItem| in_layout(x, item) && x.id == id && read_from(r.0[id], x) by {
        if item.id != 0 && id == item.id {
            assert(in_layout(item, item));
            assert(read_from(r.0[id], item));
        } else {
            assert(r.0[id] == after.0[id]);
            if !(st.0.contains_key(id) && after.0[id] == st.0[id]) {
                let x = choose|x: LayoutItem|
                    in_layout_children(x, kids, kids.len() as int) && x.id == id && read_from(after.0[id], x);
                assert(in_layout(x, item));
            }
        }
    }
}

proof fn lemma_flatten_children_reads(
    st: (Map<i32, DbusMenuItemView>, Seq<i32>),
    h: MenuHeader,
    parent_id: i32,
    kids: Seq<LayoutItem>,
    n: int,
)
    ensures
        forall|id: i32|
            #[trigger] flatten_children_spec(st, h, parent_id, kids, n).0.contains_key(id) ==> (st.0.contains_key(id)
                && flatten_children_spec(st, h, parent_id, kids, n).0[id] == st.0[id]) || exists|x: LayoutItem|
                in_layout_children(x, kids, n) && x.id == id && read_from(
                    flatten_children_spec(st, h, parent_id, kids, n).0[id],
                    x,
                ),
    decreases kids, n,
{
    if !(n <= 0 || n > kids.len()) {
        lemma_flatten_children_reads(st, h, parent_id, kids, n - 1);
        let mid = flatten_children_spec(st, h, parent_id, kids, n - 1);
        lemma_flatten_reads(mid, h, Some(parent_id), (n - 1) as u32, kids[n - 1]);
        let r = flatten_children_spec(st, h, parent_id, kids, n);
        assert(r == flatten_spec(mid, h, Some(parent_id), (n - 1) as u32, kids[n - 1]));
        assert forall|id: i32| #[trigger] r.0.contains_key(id) implies (st.0.contains_key(id) && r.0[id]
            == st.0[id]) || exists|x: LayoutItem| in_layout_children(x, kids, n) && x.id == id && read_from(
            r.0[id],
            x,
        ) by {
            if mid.0.contains_key(id) && r.0[id] == mid.0[id] {
                if !(st.0.contains_key(id) && mid.0[id] == st.0[id]) {
                    let x = choose|x: LayoutItem|
                        in_layout_children(x, kids, n - 1) && x.id == id && read_from(mid.0[id], x);
                    assert(in_layout_children(x, kids, n));
                }
            } else {
                let x = choose|x: LayoutItem| in_layout(x, kids[n - 1]) && x.id == id && read_from(r.0[id], x);
                assert(in_layout_children(x, kids, n));
            }
        }
    }
}

/// Every menu item that laying out a tree leaves is either one the menu
/// held before, unchanged, or is read from an item of the tree with that
/// id (not the root): visible and enabled where the item's properties say
/// so or leave them unset, hidden or disabled only where they say so; its
/// texts, or none; its toggle state, or -1; its children's ids in order.
pub proof fn lemma_flattened_items_follow_properties(
    st: (Map<i32, DbusMenuItemView>, Seq<i32>),
    h: MenuHeader,
    parent: Option<i32>,
    position: u32,
    item: LayoutItem,
    id: i32,
)
    requires
        flatten_spec(st, h, parent, position, item).0.contains_key(id),
    ensures
        (st.0.contains_key(id) && flatten_spec(st, h, parent, position, item).0[id] == st.0[id])
            || exists|x: LayoutItem|
            in_layout(x, item) && x.id == id && read_from(flatten_spec(st, h, parent, position, item).0[id], x),
{
    lemma_flatten_reads(st, h, parent, position, item);
}

} // verus!
