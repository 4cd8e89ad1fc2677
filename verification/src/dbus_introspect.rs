//! Reading D-Bus introspection XML: the interface names and child node
//! names of an object, and the paths of its children.
use vstd::prelude::*;

use crate::text_map::TextMap;
use crate::text::{
    chars_of, concat2, concat3, find_char_from, find_text, first_index_of, is_space,
    is_space_char, lemma_first_index_unique, match_index, text_eq, text_from_chars,
    text_from_range, texts_of, trim_start, trim_start_spec,
};

verus! {

/// Whether the occurrence of a name at `i`, with `after` following it,
/// stands alone: at the start or after whitespace or `/`, and before
/// whitespace or `=`.
pub open spec fn stands_alone(rem: Seq<char>, i: int, after: Seq<char>) -> bool {
    &&& (i == 0 || is_space(rem[i - 1]) || rem[i - 1] == '/')
    &&& after.len() > 0
    &&& (is_space(after[0]) || after[0] == '=')
}

/// The quoted value after an attribute name: `=`, then a value in single
/// or double quotes, whitespace allowed around the `=`.
pub open spec fn quoted_value_spec(after: Seq<char>) -> Option<Seq<char>> {
    let t = trim_start_spec(after);
    if t.len() == 0 || t[0] != '=' {
        None
    } else {
        let w = trim_start_spec(t.drop_first());
        if w.len() == 0 || (w[0] != '"' && w[0] != '\'') {
            None
        } else {
            let body = w.drop_first();
            if body.contains(w[0]) {
                Some(body.take(first_index_of(body, w[0])))
            } else {
                None
            }
        }
    }
}

/// The value of the attribute `attr` in a tag body: the first occurrence
/// of the name that stands alone (each occurrence that does not is
/// skipped, and the search goes on after it), then its quoted value.
pub open spec fn attr_value_spec(rem: Seq<char>, attr: Seq<char>) -> Option<Seq<char>>
    decreases rem.len(),
{
    match match_index(rem, attr, 0) {
        None => None,
        Some(i) => if attr.len() == 0 || i < 0 || i + attr.len() > rem.len() {
            None
        } else {
            let after = rem.skip(i + attr.len());
            if stands_alone(rem, i, after) {
                quoted_value_spec(after)
            } else {
                attr_value_spec(after, attr)
            }
        },
    }
}

/// The `name` attributes of the tags that open with `needle` (`<` and the
/// tag's name), in order: an occurrence of the needle opens a tag only
/// where whitespace, `/` or `>` follows; the tag runs to the next `>`,
/// and a tag without a `name` is passed over.
pub open spec fn named_tags_spec(rem: Seq<char>, needle: Seq<char>) -> Seq<Seq<char>>
    decreases rem.len(),
{
    match match_index(rem, needle, 0) {
        None => Seq::empty(),
        Some(i) => if needle.len() == 0 || i < 0 || i + needle.len() > rem.len() {
            Seq::empty()
        } else {
            let r2 = rem.skip(i + needle.len());
            if r2.len() == 0 {
                Seq::empty()
            } else if !(is_space(r2[0]) || r2[0] == '/' || r2[0] == '>') {
                named_tags_spec(r2, needle)
            } else {
                match match_index(r2, seq!['>'], 0) {
                    None => Seq::empty(),
                    Some(end) => if end < 0 || end + 1 > r2.len() {
                        Seq::empty()
                    } else {
                        let rest = named_tags_spec(r2.skip(end + 1), needle);
                        match attr_value_spec(r2.take(end), "name"@) {
                            Some(n) => seq![n] + rest,
                            None => rest,
                        }
                    },
                }
            }
        },
    }
}

/// Whether a child node name is relative (does not start with `/`).
pub open spec fn is_relative_name(n: Seq<char>) -> bool {
    !(n.len() > 0 && n[0] == '/')
}

/// The chars of `v` from `from` on.
fn chars_from(v: &[char], from: usize) -> (r: Vec<char>)
    requires
        from <= v.len(),
    ensures
        r@ == v@.skip(from as int),
{
    let mut r: Vec<char> = Vec::new();
    let mut i: usize = from;
    while i < v.len()
        invariant
            from <= i <= v.len(),
            r@ == v@.subrange(from as int, i as int),
        decreases v.len() - i,
    {
        r.push(v[i]);
        i += 1;
        assert(r@ =~= v@.subrange(from as int, i as int));
    }
    assert(r@ =~= v@.skip(from as int));
    r
}

/// The quoted value that follows an attribute name.
fn quoted_value(after: &str) -> (r: Option<String>)
    ensures
        match r {
            Some(v) => quoted_value_spec(after@) == Some(v@),
            None => quoted_value_spec(after@) is None,
        },
{
    let t = trim_start(after);
    let tv = chars_of(t.as_str());
    if tv.len() == 0 || tv[0] != '=' {
        return None;
    }
    let rest = text_from_range(tv.as_slice(), 1, tv.len());
    assert(rest@ == t@.drop_first());
    let w = trim_start(rest.as_str());
    let wv = chars_of(w.as_str());
    if wv.len() == 0 || (wv[0] != '"' && wv[0] != '\'') {
        return None;
    }
    let q = wv[0];
    let ghost body = w@.drop_first();
    match find_char_from(wv.as_slice(), q, 1) {
        Some(e) => {
            proof {
                assert(body[e - 1] == q);
                assert forall|j: int| 0 <= j < e - 1 implies body[j] != q by {
                    assert(body[j] == wv@[j + 1]);
                }
                lemma_first_index_unique(body, q, e - 1);
            }
            let v = text_from_range(wv.as_slice(), 1, e);
            assert(v@ =~= body.take(e - 1));
            Some(v)
        },
        None => {
            assert(!body.contains(q)) by {
                if body.contains(q) {
                    let j = choose|j: int| 0 <= j < body.len() && body[j] == q;
                    assert(wv@[j + 1] == q);
                }
            }
            None
        },
    }
}

/// The value of the attribute `attr` in a tag body.
pub fn attr_value(tag_body: &str, attr: &str) -> (r: Option<String>)
    requires
        attr@.len() > 0,
    ensures
        match r {
            Some(v) => attr_value_spec(tag_body@, attr@) == Some(v@),
            None => attr_value_spec(tag_body@, attr@) is None,
        },
{
    let a = chars_of(attr);
    let mut rem = chars_of(tag_body);
    loop
        invariant
            a@ == attr@,
            a@.len() > 0,
            attr_value_spec(rem@, a@) == attr_value_spec(tag_body@, attr@),
        decreases rem.len(),
    {
        match find_text(rem.as_slice(), a.as_slice(), 0) {
            None => {
                return None;
            },
            Some(i) => {
                let end = i + a.len();
                let before_ok = i == 0 || is_space_char(rem[i - 1]) || rem[i - 1] == '/';
                let after_ok = end < rem.len() && (is_space_char(rem[end]) || rem[end] == '=');
                let next = chars_from(rem.as_slice(), end);
                assert(stands_alone(rem@, i as int, next@) == (before_ok && after_ok)) by {
                    if end < rem.len() {
                        assert(next@[0] == rem@[end as int]);
                    }
                }
                if before_ok && after_ok {
                    let text = text_from_chars(next.as_slice());
                    return quoted_value(text.as_str());
                }
                rem = next;
            },
        }
    }
}

/// The names of the tags named `tag`.
pub fn parse_named_tags(xml: &str, tag: &str) -> (r: Vec<String>)
    ensures
        texts_of(r@) == named_tags_spec(xml@, "<"@ + tag@),
{
    let needle_text = concat2("<", tag);
    let needle = chars_of(needle_text.as_str());
    proof {
        reveal_strlit("<");
        reveal_strlit("name");
    }
    let gt: Vec<char> = vec!['>'];
    let mut rem = chars_of(xml);
    let mut names: Vec<String> = Vec::new();
    assert(texts_of(names@) + named_tags_spec(rem@, needle@) =~= named_tags_spec(
        xml@,
        "<"@ + tag@,
    ));
    loop
        invariant
            needle@ == "<"@ + tag@,
            needle@.len() >= 1,
            gt@ == seq!['>'],
            "name"@.len() == 4,
            texts_of(names@) + named_tags_spec(rem@, needle@) == named_tags_spec(
                xml@,
                "<"@ + tag@,
            ),
        decreases rem.len(),
    {
        match find_text(rem.as_slice(), needle.as_slice(), 0) {
            None => {
                assert(texts_of(names@) =~= texts_of(names@) + named_tags_spec(rem@, needle@));
                return names;
            },
            Some(i) => {
                let r2 = chars_from(rem.as_slice(), i + needle.len());
                if r2.len() == 0 {
                    assert(texts_of(names@) =~= texts_of(names@) + named_tags_spec(
                        rem@,
                        needle@,
                    ));
                    return names;
                }
                let first = r2[0];
                if !(is_space_char(first) || first == '/' || first == '>') {
                    rem = r2;
                    continue ;
                }
                match find_text(r2.as_slice(), gt.as_slice(), 0) {
                    None => {
                        assert(texts_of(names@) =~= texts_of(names@) + named_tags_spec(
                            rem@,
                            needle@,
                        ));
                        return names;
                    },
                    Some(end) => {
                        let body = text_from_range(r2.as_slice(), 0, end);
                        assert(body@ =~= r2@.take(end as int));
                        let name = attr_value(body.as_str(), "name");
                        let next = chars_from(r2.as_slice(), end + 1);
                        let ghost before = names@;
                        match name {
                            Some(n) => {
                                names.push(n);
                                assert(texts_of(names@) =~= texts_of(before).push(
                                    names@.last()@,
                                ));
                                assert(texts_of(names@) + named_tags_spec(next@, needle@)
                                    =~= texts_of(before) + named_tags_spec(rem@, needle@));
                            },
                            None => {},
                        }
                        rem = next;
                    },
                }
            },
        }
    }
}

/// The interfaces an object's introspection XML lists.
pub fn parse_interface_names(xml: &str) -> (r: Vec<String>)
    ensures
        texts_of(r@) == named_tags_spec(xml@, "<"@ + "interface"@),
{
    parse_named_tags(xml, "interface")
}

/// The child nodes an object's introspection XML lists, by relative name
/// (a name that starts with `/` is left out).
pub fn parse_child_node_names(xml: &str) -> (r: Vec<String>)
    ensures
        texts_of(r@) == named_tags_spec(xml@, "<"@ + "node"@).filter(
            |n: Seq<char>| is_relative_name(n),
        ),
{
    let names = parse_named_tags(xml, "node");
    let ghost all = named_tags_spec(xml@, "<"@ + "node"@);
    let mut out: Vec<String> = Vec::new();
    let mut i: usize = 0;
    proof {
        reveal(Seq::filter);
        assert(all.take(0) =~= Seq::<Seq<char>>::empty());
    }
    while i < names.len()
        invariant
            i <= names.len(),
            texts_of(names@) == all,
            texts_of(out@) == all.take(i as int).filter(|n: Seq<char>| is_relative_name(n)),
        decreases names.len() - i,
    {
        let name = &names[i];
        assert(name@ == all[i as int]);
        assert(all.take(i + 1).drop_last() =~= all.take(i as int));
        proof {
            reveal(Seq::filter);
        }
        let relative = !crate::text::starts_with(name.as_str(), "/");
        proof {
            reveal_strlit("/");
            assert("/"@ =~= seq!['/']);
            assert(relative == !crate::text::has_prefix(name@, "/"@));
            if name@.len() > 0 {
                let p = "/"@;
                assert(p.len() == 1);
                assert(name@.take(p.len() as int) =~= seq![name@[0]]);
                if name@[0] == '/' {
                    assert(seq![name@[0]] =~= p);
                } else {
                    assert(name@.take(p.len() as int)[0] != p[0]);
                }
                assert(crate::text::has_prefix(name@, "/"@) == (name@[0] == '/'));
            }
        }
        assert(relative == is_relative_name(all[i as int]));
        if relative {
            let ghost before = out@;
            out.push(name.clone());
            assert(texts_of(out@) =~= texts_of(before).push(name@));
        }
        i += 1;
    }
    assert(all.take(names.len() as int) =~= all);
    out
}

/// Whether an interface is one of the standard D-Bus interfaces that every
/// object carries (`Introspectable`, `Peer`, `Properties`, `ObjectManager`).
pub open spec fn standard_interface_spec(interface: Seq<char>) -> bool {
    interface == "org.freedesktop.DBus.Introspectable"@ || interface
        == "org.freedesktop.DBus.Peer"@ || interface == "org.freedesktop.DBus.Properties"@
        || interface == "org.freedesktop.DBus.ObjectManager"@
}

pub fn is_standard_interface(interface: &str) -> (r: bool)
    ensures
        r == standard_interface_spec(interface@),
{
    text_eq(interface, "org.freedesktop.DBus.Introspectable") || text_eq(
        interface,
        "org.freedesktop.DBus.Peer",
    ) || text_eq(interface, "org.freedesktop.DBus.Properties") || text_eq(
        interface,
        "org.freedesktop.DBus.ObjectManager",
    )
}

/// The path of a child object: the child's name under its parent, with a
/// single `/` between them.
pub open spec fn join_object_path_spec(parent: Seq<char>, child: Seq<char>) -> Seq<char> {
    if parent == "/"@ {
        "/"@ + child
    } else {
        parent + "/"@ + child
    }
}

pub fn join_object_path(parent: &str, child: &str) -> (r: String)
    ensures
        r@ == join_object_path_spec(parent@, child@),
{
    if text_eq(parent, "/") {
        concat2("/", child)
    } else {
        concat3(parent, "/", child)
    }
}

/// The interfaces of an object whose properties are read: those its
/// introspection XML lists, but for the standard ones.
pub fn interfaces_to_read(xml: &str) -> (r: Vec<String>)
    ensures
        texts_of(r@) == named_tags_spec(xml@, "<"@ + "interface"@).filter(
            |i: Seq<char>| !standard_interface_spec(i),
        ),
{
    let names = parse_interface_names(xml);
    let ghost all = named_tags_spec(xml@, "<"@ + "interface"@);
    let mut out: Vec<String> = Vec::new();
    let mut i: usize = 0;
    proof {
        reveal(Seq::filter);
        assert(all.take(0) =~= Seq::<Seq<char>>::empty());
    }
    while i < names.len()
        invariant
            i <= names.len(),
            texts_of(names@) == all,
            texts_of(out@) == all.take(i as int).filter(|n: Seq<char>| !standard_interface_spec(n)),
        decreases names.len() - i,
    {
        let name = &names[i];
        assert(name@ == all[i as int]);
        assert(all.take(i + 1).drop_last() =~= all.take(i as int));
        proof {
            reveal(Seq::filter);
        }
        if !is_standard_interface(name.as_str()) {
            let ghost before = out@;
            out.push(name.clone());
            assert(texts_of(out@) =~= texts_of(before).push(name@));
        }
        i += 1;
    }
    assert(all.take(names.len() as int) =~= all);
    out
}

/// The walk over a service's object tree by introspection: the paths still
/// to visit, last first, and the paths visited.
pub struct IntrospectionWalk {
    pending: Vec<String>,
    visited: TextMap<String, bool>,
}

impl IntrospectionWalk {
    pub closed spec fn pending_spec(&self) -> Seq<Seq<char>> {
        texts_of(self.pending@)
    }

    pub closed spec fn visited_spec(&self) -> Set<Seq<char>> {
        self.visited.map().dom()
    }

    /// A walk that starts at the object manager path, with `/` visited
    /// first where that is another path.
    pub fn new(object_manager_path: &str) -> (r: IntrospectionWalk)
        ensures
            r.pending_spec() == (if object_manager_path@ == "/"@ {
                seq![object_manager_path@]
            } else {
                seq![object_manager_path@, "/"@]
            }),
            r.visited_spec() == Set::<Seq<char>>::empty(),
    {
        let mut pending: Vec<String> = Vec::new();
        pending.push(object_manager_path.to_owned());
        if !text_eq(object_manager_path, "/") {
            pending.push("/".to_owned());
        }
        let r = IntrospectionWalk { pending, visited: TextMap::new() };
        assert(r.visited.map().dom() =~= Set::<Seq<char>>::empty());
        assert(r.pending_spec() =~= (if object_manager_path@ == "/"@ {
            seq![object_manager_path@]
        } else {
            seq![object_manager_path@, "/"@]
        }));
        r
    }

    /// The next path to visit: the last pending one not visited yet, which
    /// becomes visited; the pending paths after it are dropped. `None` once
    /// no pending path is left unvisited.
    pub fn next_path(&mut self) -> (r: Option<String>)
        ensures
            match r {
                Some(p) => exists|i: int|
                    0 <= i < old(self).pending_spec().len()
                        && old(self).pending_spec()[i] == p@
                        && !old(self).visited_spec().contains(p@)
                        && (forall|j: int|
                        i < j < old(self).pending_spec().len() ==> old(
                            self,
                        ).visited_spec().contains(#[trigger] old(self).pending_spec()[j]))
                        && final(self).pending_spec() == old(self).pending_spec().take(i),
                None => forall|j: int|
                    0 <= j < old(self).pending_spec().len() ==> old(
                        self,
                    ).visited_spec().contains(#[trigger] old(self).pending_spec()[j]),
            },
            final(self).visited_spec() == match r {
                Some(p) => old(self).visited_spec().insert(p@),
                None => old(self).visited_spec(),
            },
            r is None ==> final(self).pending_spec().len() == 0,
    {
        let ghost p0 = self.pending_spec();
        let ghost v0 = self.visited_spec();
        loop
            invariant
                p0 == old(self).pending_spec(),
                v0 == old(self).visited_spec(),
                self.visited_spec() == v0,
                self.pending_spec().len() <= p0.len(),
                self.pending_spec() == p0.take(self.pending_spec().len() as int),
                forall|j: int|
                    self.pending_spec().len() <= j < p0.len() ==> v0.contains(#[trigger] p0[j]),
            decreases self.pending@.len(),
        {
            match self.pending.pop() {
                None => {
                    return None;
                },
                Some(path) => {
                    let ghost i = self.pending@.len() as int;
                    assert(p0[i] == path@) by {
                        assert(p0.take(i + 1)[i] == p0[i]);
                    }
                    assert(self.pending_spec() =~= p0.take(i)) by {
                        assert(p0.take(i + 1).take(i) =~= p0.take(i));
                    }
                    if !self.visited.contains_key(path.as_str()) {
                        let ghost pv = path@;
                        self.visited.insert(path.clone(), true);
                        assert(self.visited_spec() =~= v0.insert(pv));
                        return Some(path);
                    }
                },
            }
        }
    }

    /// Adds the children that an object's introspection XML lists, by
    /// their full paths under `path`, to the pending paths.
    pub fn add_children(&mut self, path: &str, xml: &str)
        ensures
            final(self).visited_spec() == old(self).visited_spec(),
            final(self).pending_spec() == old(self).pending_spec() + named_tags_spec(
                xml@,
                "<"@ + "node"@,
            ).filter(|n: Seq<char>| is_relative_name(n)).map_values(
                |c: Seq<char>| join_object_path_spec(path@, c),
            ),
    {
        let children = parse_child_node_names(xml);
        let ghost kids = texts_of(children@);
        let ghost start = self.pending_spec();
        let mut i: usize = 0;
        while i < children.len()
            invariant
                i <= children.len(),
                kids == texts_of(children@),
                self.visited_spec() == old(self).visited_spec(),
                start == old(self).pending_spec(),
                self.pending_spec() == start + kids.take(i as int).map_values(
                    |c: Seq<char>| join_object_path_spec(path@, c),
                ),
            decreases children.len() - i,
        {
            let full = join_object_path(path, children[i].as_str());
            let ghost before = self.pending_spec();
            self.pending.push(full);
            assert(kids[i as int] == children@[i as int]@);
            assert(self.pending_spec() =~= before.push(join_object_path_spec(path@, kids[i as int])));
            assert(kids.take(i + 1).map_values(|c: Seq<char>| join_object_path_spec(path@, c))
                =~= kids.take(i as int).map_values(|c: Seq<char>| join_object_path_spec(path@, c)).push(
                join_object_path_spec(path@, kids[i as int]),
            ));
            i += 1;
        }
        assert(kids.take(children.len() as int) =~= kids);
    }
}

} // verus!
