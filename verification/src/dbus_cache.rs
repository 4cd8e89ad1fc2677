//! What reading a D-Bus object gives after the cached value of one of its
//! writable properties was replaced.
use vstd::prelude::*;

use crate::dbus_state::{
    count_having, iface_entries, insert_all, keys_of, member_matches, member_names, matches_in,
    node_properties_spec, object_base_properties, object_entries, object_entry_spec,
    object_properties_spec, property_entries, property_entry_spec, unique_member, with_cached_value,
    writable_spec, DbusPropertyView, ObjectView, ServiceView,
};
use crate::projection::{lemma_sorted_keys_exist, lemma_strictly_sorted_no_duplicates, sorted_keys_of};
use crate::identity::NodeIdView;
use crate::text::split_once_spec;
use crate::value::ValueModel;

verus! {

/// A name with no `.` in it, as D-Bus member names are.
pub open spec fn dot_free(s: Seq<char>) -> bool {
    !s.contains('.')
}

/// `<a>.<b>` and `<c>.<d>` are one text only where `a` is `c` and `b` is
/// `d`, when neither `b` nor `d` has a `.`.
proof fn lemma_qualified_split(a: Seq<char>, b: Seq<char>, c: Seq<char>, d: Seq<char>)
    requires
        dot_free(b),
        dot_free(d),
        a + "."@ + b == c + "."@ + d,
    ensures
        a == c,
        b == d,
{
    reveal_strlit(".");
    let s = a + "."@ + b;
    let t = a + "."@;
    let u = c + "."@;
    assert(s == t + b);
    assert(s == u + d);
    assert(t.len() == a.len() + 1 && u.len() == c.len() + 1);
    assert(s[a.len() as int] == '.');
    assert(s[c.len() as int] == '.');
    if a.len() < c.len() {
        let k = c.len() - t.len();
        assert(s[c.len() as int] == b[k]);
        assert(b[k] == '.');
        assert(b.contains('.'));
    } else if c.len() < a.len() {
        let k = a.len() - u.len();
        assert(s[a.len() as int] == d[k]);
        assert(d[k] == '.');
        assert(d.contains('.'));
    }
    assert(a =~= s.take(a.len() as int));
    assert(c =~= s.take(c.len() as int));
    assert(b =~= s.skip(a.len() as int + 1));
    assert(d =~= s.skip(c.len() as int + 1));
}

/// A text with no `.` is no `<a>.<b>`.
proof fn lemma_bare_not_qualified(p: Seq<char>, a: Seq<char>, b: Seq<char>)
    requires
        dot_free(p),
    ensures
        p != a + "."@ + b,
{
    reveal_strlit(".");
    let s = a + "."@ + b;
    assert(s[a.len() as int] == '.');
    if p == s {
        assert(p.contains('.'));
    }
}

/// A map built from entries reads at `k` the value of the entries under
/// `k`, when there is one and all of them have that value.
proof fn lemma_insert_all_reads(
    m: Map<Seq<char>, ValueModel>,
    es: Seq<(Seq<char>, ValueModel)>,
    k: Seq<char>,
    v: ValueModel,
)
    requires
        exists|j: int| 0 <= j < es.len() && (#[trigger] es[j]).0 == k,
        forall|j: int| 0 <= j < es.len() && (#[trigger] es[j]).0 == k ==> es[j].1 == v,
    ensures
        insert_all(m, es).contains_key(k),
        insert_all(m, es)[k] == v,
    decreases es.len(),
{
    let last = es[es.len() - 1];
    if last.0 != k {
        let pre = es.drop_last();
        let j = choose|j: int| 0 <= j < es.len() && (#[trigger] es[j]).0 == k;
        assert(pre[j] == es[j]);
        assert forall|i: int| 0 <= i < pre.len() && (#[trigger] pre[i]).0 == k implies pre[i].1 == v by {
            assert(pre[i] == es[i]);
        }
        lemma_insert_all_reads(m, pre, k, v);
    }
}

/// The entries of an interface's properties under `<i>.<p>` are those of
/// property `p` of interface `i`; those under a bare name come from a
/// property of this interface.
proof fn lemma_iface_entries_read(
    o: ObjectView,
    iface: Seq<char>,
    keys: Seq<Seq<char>>,
    i: Seq<char>,
    p: Seq<char>,
)
    requires
        forall|m: int| 0 <= m < keys.len() ==> dot_free(#[trigger] keys[m]),
        dot_free(p),
    ensures
        forall|j: int|
            0 <= j < iface_entries(o, iface, keys).len() && (#[trigger] iface_entries(o, iface, keys)[j]).0
                == i + "."@ + p ==> iface == i && iface_entries(o, iface, keys)[j].1
                == o.interfaces[i][p].value,
        forall|j: int|
            0 <= j < iface_entries(o, iface, keys).len() && (#[trigger] iface_entries(o, iface, keys)[j]).0
                == p ==> keys.contains(p) && iface_entries(o, iface, keys)[j].1
                == o.interfaces[iface][p].value,
    decreases keys.len(),
{
    if keys.len() > 0 {
        let pre = keys.drop_last();
        let key = keys.last();
        assert forall|m: int| 0 <= m < pre.len() implies dot_free(#[trigger] pre[m]) by {
            assert(pre[m] == keys[m]);
        }
        lemma_iface_entries_read(o, iface, pre, i, p);
        let a = iface_entries(o, iface, pre);
        let b = property_entries(o, iface, key);
        let es = iface_entries(o, iface, keys);
        assert(es == a + b);
        assert(dot_free(keys[keys.len() - 1]));
        assert forall|j: int| 0 <= j < es.len() && (#[trigger] es[j]).0 == i + "."@ + p implies iface
            == i && es[j].1 == o.interfaces[i][p].value by {
            if j < a.len() {
                assert(es[j] == a[j]);
            } else {
                assert(es[j] == b[j - a.len()]);
                if j - a.len() == 0 {
                    lemma_qualified_split(iface, key, i, p);
                } else {
                    lemma_bare_not_qualified(key, i, p);
                }
            }
        }
        assert forall|j: int| 0 <= j < es.len() && (#[trigger] es[j]).0 == p implies keys.contains(p)
            && es[j].1 == o.interfaces[iface][p].value by {
            if j < a.len() {
                assert(es[j] == a[j]);
                let m = choose|m: int| 0 <= m < pre.len() && pre[m] == p;
                assert(keys[m] == p);
            } else {
                assert(es[j] == b[j - a.len()]);
                if j - a.len() == 0 {
                    lemma_bare_not_qualified(p, iface, key);
                } else {
                    assert(keys[keys.len() - 1] == p);
                }
            }
        }
    }
}

/// Every entry of an object's properties under `<i>.<p>` holds the value
/// of property `p` of interface `i`, and one under a bare name `p` holds
/// the value of `p` in an interface that has it.
proof fn lemma_object_entries_read(o: ObjectView, ifaces: Seq<Seq<char>>, i: Seq<char>, p: Seq<char>)
    requires
        forall|a: int, m: int|
            0 <= a < ifaces.len() && 0 <= m < keys_of(o.interfaces[ifaces[a]]).len() ==> dot_free(
                #[trigger] keys_of(o.interfaces[ifaces[a]])[m],
            ),
        dot_free(p),
    ensures
        forall|j: int|
            0 <= j < object_entries(o, ifaces).len() && (#[trigger] object_entries(o, ifaces)[j]).0
                == i + "."@ + p ==> object_entries(o, ifaces)[j].1 == o.interfaces[i][p].value,
        forall|j: int|
            0 <= j < object_entries(o, ifaces).len() && (#[trigger] object_entries(o, ifaces)[j]).0
                == p ==> exists|a: int|
                0 <= a < ifaces.len() && keys_of(o.interfaces[#[trigger] ifaces[a]]).contains(p)
                    && object_entries(o, ifaces)[j].1 == o.interfaces[ifaces[a]][p].value,
    decreases ifaces.len(),
{
    if ifaces.len() > 0 {
        let pre = ifaces.drop_last();
        let last = ifaces.last();
        assert forall|a: int, m: int|
            0 <= a < pre.len() && 0 <= m < keys_of(o.interfaces[pre[a]]).len() implies dot_free(
            #[trigger] keys_of(o.interfaces[pre[a]])[m],
        ) by {
            assert(pre[a] == ifaces[a]);
        }
        lemma_object_entries_read(o, pre, i, p);
        let keys = keys_of(o.interfaces[last]);
        assert forall|m: int| 0 <= m < keys.len() implies dot_free(#[trigger] keys[m]) by {
            assert(ifaces[ifaces.len() - 1] == last);
        }
        lemma_iface_entries_read(o, last, keys, i, p);
        let a = object_entries(o, pre);
        let b = iface_entries(o, last, keys);
        let es = object_entries(o, ifaces);
        assert(es == a + b);
        assert forall|j: int| 0 <= j < es.len() && (#[trigger] es[j]).0 == i + "."@ + p implies es[j].1
            == o.interfaces[i][p].value by {
            if j < a.len() {
                assert(es[j] == a[j]);
            } else {
                assert(es[j] == b[j - a.len()]);
            }
        }
        assert forall|j: int| 0 <= j < es.len() && (#[trigger] es[j]).0 == p implies exists|x: int|
            0 <= x < ifaces.len() && keys_of(o.interfaces[#[trigger] ifaces[x]]).contains(p)
                && es[j].1 == o.interfaces[ifaces[x]][p].value by {
            if j < a.len() {
                assert(es[j] == a[j]);
                let x = choose|x: int|
                    0 <= x < pre.len() && keys_of(o.interfaces[#[trigger] pre[x]]).contains(p)
                        && a[j].1 == o.interfaces[pre[x]][p].value;
                assert(ifaces[x] == pre[x]);
            } else {
                assert(es[j] == b[j - a.len()]);
                assert(ifaces[ifaces.len() - 1] == last);
            }
        }
    }
}

/// Property `p` of interface `iface` has an entry under `<iface>.<p>`, and
/// one under `p` where no other interface has `p`.
proof fn lemma_iface_entries_has(o: ObjectView, iface: Seq<char>, keys: Seq<Seq<char>>, p: Seq<char>)
    requires
        keys.contains(p),
    ensures
        exists|j: int|
            0 <= j < iface_entries(o, iface, keys).len() && (#[trigger] iface_entries(o, iface, keys)[j]).0
                == iface + "."@ + p,
        count_having(keys_of(o.interfaces), o.interfaces, p) == 1 ==> exists|j: int|
            0 <= j < iface_entries(o, iface, keys).len() && (#[trigger] iface_entries(o, iface, keys)[j]).0
                == p,
    decreases keys.len(),
{
    let pre = keys.drop_last();
    let a = iface_entries(o, iface, pre);
    let b = property_entries(o, iface, keys.last());
    let es = iface_entries(o, iface, keys);
    assert(es == a + b);
    if keys.last() == p {
        assert(es[a.len() as int] == b[0]);
        if count_having(keys_of(o.interfaces), o.interfaces, p) == 1 {
            assert(es[a.len() as int + 1] == b[1]);
        }
    } else {
        let m = choose|m: int| 0 <= m < keys.len() && keys[m] == p;
        assert(pre[m] == p);
        lemma_iface_entries_has(o, iface, pre, p);
        let j = choose|j: int| 0 <= j < a.len() && (#[trigger] a[j]).0 == iface + "."@ + p;
        assert(es[j] == a[j]);
        if count_having(keys_of(o.interfaces), o.interfaces, p) == 1 {
            let j2 = choose|j: int| 0 <= j < a.len() && (#[trigger] a[j]).0 == p;
            assert(es[j2] == a[j2]);
        }
    }
}

/// Property `p` of interface `i` has an entry under `<i>.<p>` among the
/// entries of an object's properties, and one under `p` where no other
/// interface has `p`.
proof fn lemma_object_entries_has(o: ObjectView, ifaces: Seq<Seq<char>>, i: Seq<char>, p: Seq<char>)
    requires
        ifaces.contains(i),
        keys_of(o.interfaces[i]).contains(p),
    ensures
        exists|j: int|
            0 <= j < object_entries(o, ifaces).len() && (#[trigger] object_entries(o, ifaces)[j]).0
                == i + "."@ + p,
        count_having(keys_of(o.interfaces), o.interfaces, p) == 1 ==> exists|j: int|
            0 <= j < object_entries(o, ifaces).len() && (#[trigger] object_entries(o, ifaces)[j]).0
                == p,
    decreases ifaces.len(),
{
    let pre = ifaces.drop_last();
    let last = ifaces.last();
    let a = object_entries(o, pre);
    let b = iface_entries(o, last, keys_of(o.interfaces[last]));
    let es = object_entries(o, ifaces);
    assert(es == a + b);
    if last == i {
        lemma_iface_entries_has(o, i, keys_of(o.interfaces[i]), p);
        let j = choose|j: int| 0 <= j < b.len() && (#[trigger] b[j]).0 == i + "."@ + p;
        assert(es[a.len() + j] == b[j]);
        if count_having(keys_of(o.interfaces), o.interfaces, p) == 1 {
            let j2 = choose|j: int| 0 <= j < b.len() && (#[trigger] b[j]).0 == p;
            assert(es[a.len() + j2] == b[j2]);
        }
    } else {
        let m = choose|m: int| 0 <= m < ifaces.len() && ifaces[m] == i;
        assert(pre[m] == i);
        lemma_object_entries_has(o, pre, i, p);
        let j = choose|j: int| 0 <= j < a.len() && (#[trigger] a[j]).0 == i + "."@ + p;
        assert(es[j] == a[j]);
        if count_having(keys_of(o.interfaces), o.interfaces, p) == 1 {
            let j2 = choose|j: int| 0 <= j < a.len() && (#[trigger] a[j]).0 == p;
            assert(es[j2] == a[j2]);
        }
    }
}

/// The members of one interface that a name matches: each is a member of
/// that interface that the name names, bare or qualified.
proof fn lemma_matches_in_elements(iface: Seq<char>, ns: Seq<Seq<char>>, d: Seq<char>)
    ensures
        forall|j: int|
            0 <= j < matches_in(iface, ns, d).len() ==> (#[trigger] matches_in(iface, ns, d)[j]).0 == iface
                && ns.contains(matches_in(iface, ns, d)[j].1) && (d == matches_in(iface, ns, d)[j].1
                || d == iface + "."@ + matches_in(iface, ns, d)[j].1),
    decreases ns.len(),
{
    if ns.len() > 0 {
        let pre = ns.drop_last();
        lemma_matches_in_elements(iface, pre, d);
        let a = matches_in(iface, pre, d);
        let ms = matches_in(iface, ns, d);
        assert forall|j: int| 0 <= j < ms.len() implies (#[trigger] ms[j]).0 == iface && ns.contains(
            ms[j].1,
        ) && (d == ms[j].1 || d == iface + "."@ + ms[j].1) by {
            if j < a.len() {
                assert(ms[j] == a[j]);
                let m = choose|m: int| 0 <= m < pre.len() && pre[m] == a[j].1;
                assert(ns[m] == pre[m]);
            } else {
                assert(ms[j] == (iface, ns.last()));
                assert(ns[ns.len() - 1] == ns.last());
            }
        }
    }
}

/// The members that a name matches: each is a member, of one of the
/// interfaces, that the name names, bare or qualified.
proof fn lemma_member_matches_elements(
    names: Map<Seq<char>, Set<Seq<char>>>,
    ifaces: Seq<Seq<char>>,
    d: Seq<char>,
)
    ensures
        forall|j: int|
            0 <= j < member_matches(names, ifaces, d).len() ==> ifaces.contains(
                (#[trigger] member_matches(names, ifaces, d)[j]).0,
            ) && sorted_keys_of(names[member_matches(names, ifaces, d)[j].0]).contains(
                member_matches(names, ifaces, d)[j].1,
            ) && (d == member_matches(names, ifaces, d)[j].1 || d == member_matches(names, ifaces, d)[j].0
                + "."@ + member_matches(names, ifaces, d)[j].1),
    decreases ifaces.len(),
{
    if ifaces.len() > 0 {
        let pre = ifaces.drop_last();
        let last = ifaces.last();
        lemma_member_matches_elements(names, pre, d);
        lemma_matches_in_elements(last, sorted_keys_of(names[last]), d);
        let a = member_matches(names, pre, d);
        let b = matches_in(last, sorted_keys_of(names[last]), d);
        let ms = member_matches(names, ifaces, d);
        assert(ms == a + b);
        assert forall|j: int| 0 <= j < ms.len() implies ifaces.contains((#[trigger] ms[j]).0)
            && sorted_keys_of(names[ms[j].0]).contains(ms[j].1) && (d == ms[j].1 || d == ms[j].0 + "."@
            + ms[j].1) by {
            if j < a.len() {
                assert(ms[j] == a[j]);
                let m = choose|m: int| 0 <= m < pre.len() && pre[m] == a[j].0;
                assert(ifaces[m] == pre[m]);
            } else {
                assert(ms[j] == b[j - a.len()]);
                assert(ifaces[ifaces.len() - 1] == last);
            }
        }
    }
}

/// A name with no `.` matches one member of an interface exactly where the
/// interface has a member of that name.
proof fn lemma_matches_in_bare(iface: Seq<char>, ns: Seq<Seq<char>>, d: Seq<char>)
    requires
        ns.no_duplicates(),
        dot_free(d),
    ensures
        matches_in(iface, ns, d).len() == if ns.contains(d) {
            1int
        } else {
            0int
        },
    decreases ns.len(),
{
    if ns.len() > 0 {
        let pre = ns.drop_last();
        let last = ns.last();
        assert(pre.no_duplicates()) by {
            assert forall|x: int, y: int| 0 <= x < pre.len() && 0 <= y < pre.len() && x != y implies pre[x]
                != pre[y] by {
                assert(pre[x] == ns[x] && pre[y] == ns[y]);
            }
        }
        lemma_matches_in_bare(iface, pre, d);
        lemma_bare_not_qualified(d, iface, last);
        if d == last {
            if pre.contains(d) {
                let m = choose|m: int| 0 <= m < pre.len() && pre[m] == d;
                assert(ns[m] == ns[ns.len() - 1]);
            }
            assert(ns[ns.len() - 1] == d);
        } else {
            if ns.contains(d) {
                let m = choose|m: int| 0 <= m < ns.len() && ns[m] == d;
                assert(pre[m] == d);
            }
            if pre.contains(d) {
                let m = choose|m: int| 0 <= m < pre.len() && pre[m] == d;
                assert(ns[m] == d);
            }
        }
    }
}

/// A name with no `.` matches as many members as there are interfaces
/// with a member of that name.
proof fn lemma_member_matches_bare<V>(
    m: Map<Seq<char>, Map<Seq<char>, V>>,
    ifaces: Seq<Seq<char>>,
    d: Seq<char>,
)
    requires
        forall|a: int| 0 <= a < ifaces.len() ==> m.contains_key(#[trigger] ifaces[a]) && m[ifaces[a]].dom().finite(),
        dot_free(d),
    ensures
        member_matches(member_names(m), ifaces, d).len() == count_having(ifaces, m, d),
    decreases ifaces.len(),
{
    if ifaces.len() > 0 {
        let pre = ifaces.drop_last();
        let last = ifaces.last();
        assert forall|a: int| 0 <= a < pre.len() implies m.contains_key(#[trigger] pre[a]) && m[pre[a]].dom().finite() by {
            assert(pre[a] == ifaces[a]);
        }
        lemma_member_matches_bare(m, pre, d);
        assert(ifaces[ifaces.len() - 1] == last);
        let names = member_names(m);
        assert(names[last] == m[last].dom());
        let ns = sorted_keys_of(m[last].dom());
        lemma_sorted_keys_exist(m[last].dom());
        lemma_strictly_sorted_no_duplicates(ns);
        lemma_matches_in_bare(last, ns, d);
        assert(ns.contains(d) <==> ns.to_set().contains(d));
    }
}

/// Interfaces that have the same member names are counted alike.
proof fn lemma_count_having_same<V, W>(
    ifaces: Seq<Seq<char>>,
    m1: Map<Seq<char>, Map<Seq<char>, V>>,
    m2: Map<Seq<char>, Map<Seq<char>, W>>,
    d: Seq<char>,
)
    requires
        forall|a: int| 0 <= a < ifaces.len() ==> #[trigger] m1[ifaces[a]].contains_key(d) == m2[ifaces[a]].contains_key(d),
    ensures
        count_having(ifaces, m1, d) == count_having(ifaces, m2, d),
    decreases ifaces.len(),
{
    if ifaces.len() > 0 {
        let pre = ifaces.drop_last();
        assert forall|a: int| 0 <= a < pre.len() implies #[trigger] m1[pre[a]].contains_key(d) == m2[pre[a]].contains_key(d) by {
            assert(pre[a] == ifaces[a]);
        }
        lemma_count_having_same(pre, m1, m2, d);
        assert(ifaces[ifaces.len() - 1] == ifaces.last());
    }
}

/// The interfaces counted include the one at `x`, after those before it.
proof fn lemma_count_prefix<V>(ifaces: Seq<Seq<char>>, m: Map<Seq<char>, Map<Seq<char>, V>>, d: Seq<char>, x: int)
    requires
        0 <= x < ifaces.len(),
    ensures
        count_having(ifaces, m, d) >= count_having(ifaces.take(x), m, d) + if m[ifaces[x]].contains_key(d) {
            1int
        } else {
            0int
        },
    decreases ifaces.len(),
{
    let pre = ifaces.drop_last();
    if x == ifaces.len() - 1 {
        assert(pre =~= ifaces.take(x));
    } else {
        lemma_count_prefix(pre, m, d, x);
        assert(pre.take(x) =~= ifaces.take(x));
        assert(pre[x] == ifaces[x]);
    }
}

/// Two interfaces with a member of one name are counted twice.
proof fn lemma_count_two<V>(ifaces: Seq<Seq<char>>, m: Map<Seq<char>, Map<Seq<char>, V>>, d: Seq<char>, x: int, y: int)
    requires
        0 <= x < y < ifaces.len(),
        m[ifaces[x]].contains_key(d),
        m[ifaces[y]].contains_key(d),
    ensures
        count_having(ifaces, m, d) >= 2,
{
    lemma_count_prefix(ifaces, m, d, y);
    let t = ifaces.take(y);
    assert(t[x] == ifaces[x]);
    lemma_count_prefix(t, m, d, x);
}

/// Once the cached value of the writable D-Bus property that `key` names
/// on an object node is replaced, the object reads that value under the
/// property's qualified key `<interface>.<property>` and under `key`
/// itself, whether `key` is the qualified or the bare name; the property is
/// one the object has, so the update is made. This holds where member
/// names have no `.` (as D-Bus member names do not) and each service and
/// object is stored under its own local id and path.
pub proof fn lemma_cached_value_is_read(
    services: Map<Seq<char>, ServiceView>,
    node: NodeIdView,
    key: Seq<char>,
    value: ValueModel,
)
    requires
        writable_spec(services, node, key),
        ({
            let e = property_entry_spec(services, node, key)->0;
            let o = services[e.0].objects[e.1];
            &&& services[e.0].config.local_id == e.0
            &&& o.path == e.1
            &&& o.interfaces.dom().finite()
            &&& forall|x: Seq<char>| #[trigger] o.interfaces.contains_key(x) ==> o.interfaces[x].dom().finite()
            &&& forall|x: Seq<char>, n: Seq<char>|
                o.interfaces.contains_key(x) && #[trigger] o.interfaces[x].contains_key(n) ==> dot_free(n)
        }),
    ensures
        ({
            let e = property_entry_spec(services, node, key)->0;
            let sv = services[e.0];
            let sid = sv.config.local_id;
            let path = sv.objects[e.1].path;
            let (i, p) = (e.2, e.3);
            &&& services.contains_key(sid) && services[sid].objects.contains_key(path)
            &&& services[sid].objects[path].interfaces.contains_key(i)
            &&& services[sid].objects[path].interfaces[i].contains_key(p)
            &&& node_properties_spec(with_cached_value(services, sid, path, i, p, value), node) matches Some(m)
                && m.contains_key(i + "."@ + p) && m[i + "."@ + p] == value && m.contains_key(key)
                && m[key] == value
        }),
{
    reveal(property_entry_spec);
    reveal(object_entry_spec);
    let e = property_entry_spec(services, node, key)->0;
    let (sk, pk, i, p) = e;
    let o = services[sk].objects[pk];
    assert(object_entry_spec(services, node.local) == Some((sk, pk)));
    let names = member_names(o.interfaces);
    assert(names.dom() =~= o.interfaces.dom());
    let ifaces = keys_of(o.interfaces);
    assert(sorted_keys_of(names.dom()) == ifaces);
    let ms = member_matches(names, ifaces, key);
    assert(unique_member(names, key) == Some((i, p)));
    assert(ms.len() == 1 && ms[0] == (i, p));
    lemma_member_matches_elements(names, ifaces, key);
    assert(ifaces.contains(i) && sorted_keys_of(names[i]).contains(p));
    lemma_sorted_keys_exist(o.interfaces.dom());
    assert(ifaces.to_set().contains(i));
    assert(o.interfaces.contains_key(i));
    let t = o.interfaces[i];
    assert(names[i] == t.dom());
    lemma_sorted_keys_exist(t.dom());
    assert(sorted_keys_of(t.dom()).to_set().contains(p));
    assert(t.contains_key(p));
    assert(dot_free(p));
    // The services after the update, and the object in them.
    let services2 = with_cached_value(services, sk, pk, i, p, value);
    let t2 = t.insert(p, DbusPropertyView { value, writable: t[p].writable });
    let o2 = ObjectView { interfaces: o.interfaces.insert(i, t2), ..o };
    assert(services2[sk].objects[pk] == o2);
    assert(services2[sk].config == services[sk].config);
    assert(split_once_spec(node.local, ':') == Some((sk, pk)));
    assert(services2.contains_key(sk));
    assert(services2[sk].objects.contains_key(pk));
    assert(object_entry_spec(services2, node.local) == Some((sk, pk)));
    reveal_strlit("dbus");
    reveal_strlit("dbus-object");
    assert(node.kind == "dbus-object"@);
    assert("dbus-object"@.len() != "dbus"@.len());
    assert(node.kind != "dbus"@);
    assert(o2.interfaces.dom() =~= o.interfaces.dom());
    assert(t2.dom() =~= t.dom());
    assert forall|x: Seq<char>| #[trigger] o2.interfaces.contains_key(x) implies o2.interfaces[x].dom()
        == o.interfaces[x].dom() by {}
    let ifaces2 = keys_of(o2.interfaces);
    assert(ifaces2 == ifaces);
    let es = object_entries(o2, ifaces);
    assert forall|a: int, m: int|
        0 <= a < ifaces.len() && 0 <= m < keys_of(o2.interfaces[ifaces[a]]).len() implies dot_free(
        #[trigger] keys_of(o2.interfaces[ifaces[a]])[m],
    ) by {
        let x = ifaces[a];
        assert(ifaces.to_set().contains(x));
        assert(o.interfaces.contains_key(x));
        let ks = keys_of(o2.interfaces[x]);
        assert(ks == keys_of(o.interfaces[x]));
        lemma_sorted_keys_exist(o.interfaces[x].dom());
        assert(ks.to_set().contains(ks[m]));
        assert(o.interfaces[x].contains_key(ks[m]));
    }
    lemma_object_entries_read(o2, ifaces, i, p);
    assert(keys_of(o2.interfaces[i]) == keys_of(t));
    assert(keys_of(t).contains(p)) by {
        assert(keys_of(t).to_set().contains(p));
    }
    lemma_object_entries_has(o2, ifaces, i, p);
    assert(o2.interfaces[i][p].value == value);
    let base = object_base_properties(services[sk].config, o2);
    assert(object_properties_spec(services[sk].config, o2) == insert_all(base, es));
    lemma_insert_all_reads(base, es, i + "."@ + p, value);
    if key != i + "."@ + p {
        assert(key == p);
        // The bare name: only interface `i` has a member of that name.
        assert forall|a: int| 0 <= a < ifaces.len() implies o.interfaces.contains_key(#[trigger] ifaces[a])
            && o.interfaces[ifaces[a]].dom().finite() by {
            assert(ifaces.to_set().contains(ifaces[a]));
        }
        lemma_member_matches_bare(o.interfaces, ifaces, p);
        assert(count_having(ifaces, o.interfaces, p) == 1);
        assert forall|a: int| 0 <= a < ifaces.len() implies #[trigger] o.interfaces[ifaces[a]].contains_key(p)
            == o2.interfaces[ifaces[a]].contains_key(p) by {
            assert(ifaces.to_set().contains(ifaces[a]));
        }
        lemma_count_having_same(ifaces, o.interfaces, o2.interfaces, p);
        let xi = choose|x: int| 0 <= x < ifaces.len() && ifaces[x] == i;
        assert forall|j: int| 0 <= j < es.len() && (#[trigger] es[j]).0 == p implies es[j].1 == value by {
            let a = choose|a: int|
                0 <= a < ifaces.len() && keys_of(o2.interfaces[#[trigger] ifaces[a]]).contains(p)
                    && es[j].1 == o2.interfaces[ifaces[a]][p].value;
            let x = ifaces[a];
            assert(ifaces.to_set().contains(x));
            lemma_sorted_keys_exist(o2.interfaces[x].dom());
            assert(keys_of(o2.interfaces[x]).to_set().contains(p));
            assert(o.interfaces[x].contains_key(p));
            if a != xi {
                if a < xi {
                    lemma_count_two(ifaces, o.interfaces, p, a, xi);
                } else {
                    lemma_count_two(ifaces, o.interfaces, p, xi, a);
                }
            }
        }
        lemma_insert_all_reads(base, es, p, value);
    }
}

} // verus!
