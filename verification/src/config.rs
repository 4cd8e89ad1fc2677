//! Paths of the daemon's configuration: `~` expansion, the default place
//! of the configuration file, and where plugin libraries are looked for.
use vstd::prelude::*;

use crate::text::{
    chars_of, concat2, concat3, has_prefix, lemma_split_nonempty, push_char, split_char,
    split_spec, strip_prefix, text_eq, texts_of,
};

verus! {

/// `base` joined with `rest` as `Path::join` joins on Unix: an absolute
/// `rest` replaces `base`; otherwise a `/` goes between them unless `base`
/// is empty or already ends with one.
pub open spec fn path_join_spec(base: Seq<char>, rest: Seq<char>) -> Seq<char> {
    if rest.len() > 0 && rest[0] == '/' {
        rest
    } else if base.len() == 0 || base.last() == '/' {
        base + rest
    } else {
        base + "/"@ + rest
    }
}

/// `Path::join` of two UTF-8 paths.
pub fn path_join(base: &str, rest: &str) -> (r: String)
    ensures
        r@ == path_join_spec(base@, rest@),
{
    proof {
        reveal_strlit("/");
        assert("/"@ =~= seq!['/']);
    }
    let rv = chars_of(rest);
    let bv = chars_of(base);
    if rv.len() > 0 && rv[0] == '/' {
        rest.to_owned()
    } else if bv.len() == 0 || bv[bv.len() - 1] == '/' {
        concat2(base, rest)
    } else {
        concat3(base, "/", rest)
    }
}

/// The home directory: `$HOME` where it is set, else the current
/// directory.
pub open spec fn home_spec(home: Option<Seq<char>>) -> Seq<char> {
    match home {
        Some(h) => h,
        None => "."@,
    }
}

pub fn home_dir(home: Option<String>) -> (r: String)
    ensures
        r@ == home_spec(match home {
            Some(h) => Some(h@),
            None => None,
        }),
{
    match home {
        Some(h) => h,
        None => ".".to_owned(),
    }
}

/// A path with a leading `~` read as the home directory: `~` alone is the
/// home directory, `~/rest` is `rest` under it, anything else is kept.
pub open spec fn expand_tilde_spec(path: Seq<char>, home: Seq<char>) -> Seq<char> {
    if path == "~"@ {
        home
    } else if has_prefix(path, "~/"@) {
        path_join_spec(home, path.skip(2))
    } else {
        path
    }
}

pub fn expand_tilde(path: &str, home: &str) -> (r: String)
    ensures
        r@ == expand_tilde_spec(path@, home@),
{
    proof {
        reveal_strlit("~/");
    }
    if text_eq(path, "~") {
        return home.to_owned();
    }
    match strip_prefix(path, "~/") {
        Some(rest) => path_join(home, rest.as_str()),
        None => path.to_owned(),
    }
}

/// Where the configuration file is by default: under
/// `$XDG_CONFIG_HOME` where it is set, else under `.config` in the home
/// directory.
pub open spec fn default_config_path_spec(
    xdg_config_home: Option<Seq<char>>,
    home: Option<Seq<char>>,
) -> Seq<char> {
    match xdg_config_home {
        Some(base) => path_join_spec(base, "locusfs/config.toml"@),
        None => path_join_spec(home_spec(home), ".config/locusfs/config.toml"@),
    }
}

pub fn default_config_path(xdg_config_home: Option<String>, home: Option<String>) -> (r: String)
    ensures
        r@ == default_config_path_spec(
            match xdg_config_home {
                Some(x) => Some(x@),
                None => None,
            },
            match home {
                Some(h) => Some(h@),
                None => None,
            },
        ),
{
    match xdg_config_home {
        Some(base) => path_join(base.as_str(), "locusfs/config.toml"),
        None => {
            let h = home_dir(home);
            path_join(h.as_str(), ".config/locusfs/config.toml")
        },
    }
}

/// A plugin id with `-` written as `_`.
pub open spec fn underscored(id: Seq<char>) -> Seq<char> {
    id.map_values(|c: char| if c == '-' {
        '_'
    } else {
        c
    })
}

/// The file name of a plugin's library: the platform's library prefix,
/// `locusfs_plugin_`, the id with `-` as `_`, and the platform's library
/// suffix.
pub open spec fn plugin_library_name_spec(
    id: Seq<char>,
    dll_prefix: Seq<char>,
    dll_suffix: Seq<char>,
) -> Seq<char> {
    dll_prefix + "locusfs_plugin_"@ + underscored(id) + dll_suffix
}

pub fn plugin_library_name(id: &str, dll_prefix: &str, dll_suffix: &str) -> (r: String)
    ensures
        r@ == plugin_library_name_spec(id@, dll_prefix@, dll_suffix@),
{
    let v = chars_of(id);
    let mut out = concat2(dll_prefix, "locusfs_plugin_");
    let ghost start = out@;
    let mut i: usize = 0;
    while i < v.len()
        invariant
            i <= v.len(),
            v@ == id@,
            start == dll_prefix@ + "locusfs_plugin_"@,
            out@ == start + underscored(id@.take(i as int)),
        decreases v.len() - i,
    {
        let c = if v[i] == '-' {
            '_'
        } else {
            v[i]
        };
        push_char(&mut out, c);
        assert(underscored(id@.take(i + 1)) =~= underscored(id@.take(i as int)).push(c));
        i += 1;
    }
    assert(id@.take(v.len() as int) =~= id@);
    let r = concat2(out.as_str(), dll_suffix);
    r
}

/// Whether a piece of a path between separators is a normal component:
/// neither empty nor `.`.
pub open spec fn normal_piece(p: Seq<char>) -> bool {
    p.len() > 0 && p != "."@
}

/// What `Path`'s equality compares on Unix: whether the path has a root,
/// whether a relative path starts with a `.` component, and its other
/// components (repeated separators, inner `.` and a trailing separator
/// make no difference).
pub open spec fn path_key(s: Seq<char>) -> (bool, bool, Seq<Seq<char>>) {
    let pieces = split_spec(s, '/');
    let rooted = s.len() > 0 && s[0] == '/';
    (rooted, !rooted && pieces[0] == "."@, pieces.filter(|p: Seq<char>| normal_piece(p)))
}

/// Whether two paths are equal as `Path`s.
pub open spec fn same_path_spec(a: Seq<char>, b: Seq<char>) -> bool {
    path_key(a) == path_key(b)
}

/// Whether `p` is equal, as a path, to one of `d`.
pub open spec fn has_same_path(d: Seq<Seq<char>>, p: Seq<char>) -> bool {
    exists|k: int| 0 <= k < d.len() && same_path_spec(#[trigger] d[k], p)
}

/// The paths of a list in order, each kept only where no equal path came
/// before it.
pub open spec fn dedup_spec(paths: Seq<Seq<char>>) -> Seq<Seq<char>>
    decreases paths.len(),
{
    if paths.len() == 0 {
        Seq::empty()
    } else {
        let d = dedup_spec(paths.drop_last());
        if has_same_path(d, paths.last()) {
            d
        } else {
            d.push(paths.last())
        }
    }
}

/// The normal components of a path, in order.
fn path_normals(s: &str) -> (r: Vec<String>)
    ensures
        texts_of(r@) == split_spec(s@, '/').filter(|p: Seq<char>| normal_piece(p)),
{
    let pieces = split_char(s, '/');
    let ghost all = split_spec(s@, '/');
    let mut out: Vec<String> = Vec::new();
    let mut i: usize = 0;
    proof {
        reveal(Seq::filter);
        assert(all.take(0) =~= Seq::<Seq<char>>::empty());
    }
    while i < pieces.len()
        invariant
            i <= pieces.len(),
            texts_of(pieces@) == all,
            texts_of(out@) == all.take(i as int).filter(|p: Seq<char>| normal_piece(p)),
        decreases pieces.len() - i,
    {
        let piece = &pieces[i];
        assert(piece@ == all[i as int]);
        assert(all.take(i + 1).drop_last() =~= all.take(i as int));
        proof {
            reveal(Seq::filter);
        }
        let normal = !text_eq(piece.as_str(), "") && !text_eq(piece.as_str(), ".");
        proof {
            reveal_strlit("");
            if piece@.len() == 0 {
                assert(piece@ =~= ""@);
            }
        }
        if normal {
            let ghost before = out@;
            out.push(piece.clone());
            assert(texts_of(out@) =~= texts_of(before).push(piece@));
        }
        i += 1;
    }
    assert(all.take(pieces.len() as int) =~= all);
    out
}

/// Whether two runs of texts are equal.
fn texts_equal(a: &Vec<String>, b: &Vec<String>) -> (r: bool)
    ensures
        r == (texts_of(a@) == texts_of(b@)),
{
    if a.len() != b.len() {
        assert(texts_of(a@).len() != texts_of(b@).len());
        return false;
    }
    let mut i: usize = 0;
    while i < a.len()
        invariant
            i <= a.len(),
            a.len() == b.len(),
            forall|k: int| 0 <= k < i ==> (#[trigger] a@[k])@ == b@[k]@,
        decreases a.len() - i,
    {
        if !text_eq(a[i].as_str(), b[i].as_str()) {
            assert(texts_of(a@)[i as int] != texts_of(b@)[i as int]);
            return false;
        }
        i += 1;
    }
    assert(texts_of(a@) =~= texts_of(b@));
    true
}

/// Whether two paths are equal as `Path`s (`Path`'s `==`).
pub fn same_path(a: &str, b: &str) -> (r: bool)
    ensures
        r == same_path_spec(a@, b@),
{
    let ap = split_char(a, '/');
    let bp = split_char(b, '/');
    proof {
        lemma_split_nonempty(a@, '/');
        lemma_split_nonempty(b@, '/');
        reveal_strlit(".");
    }
    let av = chars_of(a);
    let bv = chars_of(b);
    let a_rooted = av.len() > 0 && av[0] == '/';
    let b_rooted = bv.len() > 0 && bv[0] == '/';
    assert(ap@.len() >= 1 && bp@.len() >= 1) by {
        assert(texts_of(ap@).len() == ap@.len());
        assert(texts_of(bp@).len() == bp@.len());
    }
    assert(ap@[0]@ == split_spec(a@, '/')[0]);
    assert(bp@[0]@ == split_spec(b@, '/')[0]);
    let a_cur = !a_rooted && text_eq(ap[0].as_str(), ".");
    let b_cur = !b_rooted && text_eq(bp[0].as_str(), ".");
    if a_rooted != b_rooted || a_cur != b_cur {
        return false;
    }
    let an = path_normals(a);
    let bn = path_normals(b);
    texts_equal(&an, &bn)
}

/// Where plugin libraries are looked for, in order and without repeats:
/// the configured directories, the directory of the running program
/// where it is known, and `~/.local/lib/locusfs/plugins`.
pub open spec fn plugin_search_dirs_spec(
    configured: Seq<Seq<char>>,
    exe_dir: Option<Seq<char>>,
    home: Seq<char>,
) -> Seq<Seq<char>> {
    let with_exe = match exe_dir {
        Some(d) => configured.push(d),
        None => configured,
    };
    dedup_spec(with_exe.push(expand_tilde_spec("~/.local/lib/locusfs/plugins"@, home)))
}

pub fn plugin_search_dirs(configured: Vec<String>, exe_dir: Option<String>, home: &str) -> (r: Vec<
    String,
>)
    ensures
        texts_of(r@) == plugin_search_dirs_spec(
            texts_of(configured@),
            match exe_dir {
                Some(d) => Some(d@),
                None => None,
            },
            home@,
        ),
{
    let mut dirs = configured;
    let ghost c = texts_of(dirs@);
    match exe_dir {
        Some(d) => {
            let ghost dv = d@;
            dirs.push(d);
            assert(texts_of(dirs@) =~= c.push(dv));
        },
        None => {},
    }
    let ghost with_exe = texts_of(dirs@);
    let local = expand_tilde("~/.local/lib/locusfs/plugins", home);
    dirs.push(local);
    assert(texts_of(dirs@) =~= with_exe.push(
        expand_tilde_spec("~/.local/lib/locusfs/plugins"@, home@),
    ));
    dedup_paths(dirs)
}

/// Each path kept only where no path equal to it came before it.
pub fn dedup_paths(paths: Vec<String>) -> (r: Vec<String>)
    ensures
        texts_of(r@) == dedup_spec(texts_of(paths@)),
{
    let ghost all = texts_of(paths@);
    let mut out: Vec<String> = Vec::new();
    let mut i: usize = 0;
    assert(all.take(0) =~= Seq::<Seq<char>>::empty());
    while i < paths.len()
        invariant
            i <= paths.len(),
            all == texts_of(paths@),
            texts_of(out@) == dedup_spec(all.take(i as int)),
        decreases paths.len() - i,
    {
        let p = &paths[i];
        assert(all.take(i + 1).drop_last() =~= all.take(i as int));
        assert(all.take(i + 1).last() == p@);
        let mut seen = false;
        let mut j: usize = 0;
        while j < out.len()
            invariant
                j <= out.len(),
                seen == exists|k: int| 0 <= k < j && same_path_spec((#[trigger] out@[k])@, p@),
            decreases out.len() - j,
        {
            if same_path(out[j].as_str(), p.as_str()) {
                seen = true;
            }
            j += 1;
        }
        let ghost d = texts_of(out@);
        assert(seen == has_same_path(d, p@)) by {
            if seen {
                let k = choose|k: int| 0 <= k < out@.len() && same_path_spec((#[trigger] out@[k])@, p@);
                assert(d[k] == out@[k]@);
            }
            if has_same_path(d, p@) {
                let k = choose|k: int| 0 <= k < d.len() && same_path_spec(#[trigger] d[k], p@);
                assert(out@[k]@ == d[k]);
            }
        }
        if !seen {
            out.push(p.clone());
            assert(texts_of(out@) =~= d.push(p@));
        }
        i += 1;
    }
    assert(all.take(paths.len() as int) =~= all);
    out
}

/// A path under `~/` expands under a home directory that is set and does
/// not itself start with `~`: the result no longer starts with `~`, and
/// it ends with the rest of the path.
pub proof fn lemma_expanded_paths_leave_the_tilde(path: Seq<char>, home: Seq<char>)
    requires
        has_prefix(path, "~/"@),
        home.len() > 0,
        home[0] != '~',
    ensures
        expand_tilde_spec(path, home).len() > 0 ==> expand_tilde_spec(path, home)[0] != '~',
        crate::text::has_suffix(expand_tilde_spec(path, home), path.skip(2)),
{
    reveal_strlit("~/");
    reveal_strlit("~");
    reveal_strlit("/");
    let rest = path.skip(2);
    if path == "~"@ {
        assert(path.len() == 1);
    }
    assert(expand_tilde_spec(path, home) == path_join_spec(home, rest));
    let r = path_join_spec(home, rest);
    if rest.len() > 0 && rest[0] == '/' {
        assert(r == rest);
        assert(r.skip(r.len() - rest.len()) =~= rest);
    } else if home.last() == '/' {
        assert(r == home + rest);
        assert(r[0] == home[0]);
        assert(r.skip(r.len() - rest.len()) =~= rest);
    } else {
        assert(r == home + "/"@ + rest);
        assert(r[0] == home[0]);
        assert(r.skip(r.len() - rest.len()) =~= rest);
    }
}

/// No two paths that `dedup_paths` keeps are equal as paths, and each
/// path it was given is equal to one it keeps.
pub proof fn lemma_dedup_keeps_one_of_each(paths: Seq<Seq<char>>)
    ensures
        forall|i: int, j: int|
            0 <= i < j < dedup_spec(paths).len() ==> !same_path_spec(
                #[trigger] dedup_spec(paths)[i],
                #[trigger] dedup_spec(paths)[j],
            ),
        forall|i: int| 0 <= i < paths.len() ==> has_same_path(dedup_spec(paths), #[trigger] paths[i]),
    decreases paths.len(),
{
    if paths.len() > 0 {
        let prefix = paths.drop_last();
        lemma_dedup_keeps_one_of_each(prefix);
        let d = dedup_spec(prefix);
        let p = paths.last();
        if has_same_path(d, p) {
            assert forall|i: int| 0 <= i < paths.len() implies has_same_path(
                dedup_spec(paths),
                #[trigger] paths[i],
            ) by {
                if i < prefix.len() {
                    assert(prefix[i] == paths[i]);
                }
            }
        } else {
            let d2 = d.push(p);
            assert(dedup_spec(paths) == d2);
            assert forall|i: int, j: int| 0 <= i < j < d2.len() implies !same_path_spec(
                #[trigger] d2[i],
                #[trigger] d2[j],
            ) by {
                if j == d2.len() - 1 {
                    if same_path_spec(d2[i], d2[j]) {
                        assert(same_path_spec(d[i], p));
                        assert(has_same_path(d, p));
                    }
                } else {
                    assert(d2[i] == d[i] && d2[j] == d[j]);
                }
            }
            assert forall|i: int| 0 <= i < paths.len() implies has_same_path(
                d2,
                #[trigger] paths[i],
            ) by {
                if i < prefix.len() {
                    assert(prefix[i] == paths[i]);
                    assert(has_same_path(d, prefix[i]));
                    let k = choose|k: int| 0 <= k < d.len() && same_path_spec(#[trigger] d[k], prefix[i]);
                    assert(d2[k] == d[k]);
                } else {
                    assert(d2[d.len() as int] == p);
                    assert(same_path_spec(p, p));
                }
            }
        }
    }
}

} // verus!
