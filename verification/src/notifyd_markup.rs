//! Notification bodies: the plain text a body shows and the markup kept
//! beside it.
use vstd::prelude::*;

use crate::text::{chars_match_at, chars_of, contains_char, owned, push_char, trim, trim_spec};

verus! {

/// The characters of a body outside `<...>` tags, `in_tag` telling whether
/// the body starts inside a tag.
pub open spec fn strip_tags(s: Seq<char>, in_tag: bool) -> Seq<char>
    decreases s.len(),
{
    if s.len() == 0 {
        Seq::empty()
    } else {
        let c = s[0];
        if c == '<' {
            strip_tags(s.drop_first(), true)
        } else if c == '>' && in_tag {
            strip_tags(s.drop_first(), false)
        } else if !in_tag {
            seq![c] + strip_tags(s.drop_first(), in_tag)
        } else {
            strip_tags(s.drop_first(), in_tag)
        }
    }
}

/// `str::replace`: each occurrence of `p`, scanning from the left without
/// overlap, replaced by `r`.
pub open spec fn replace_spec(s: Seq<char>, p: Seq<char>, r: Seq<char>) -> Seq<char>
    decreases s.len(),
{
    if p.len() == 0 || s.len() < p.len() {
        s
    } else if s.take(p.len() as int) == p {
        r + replace_spec(s.skip(p.len() as int), p, r)
    } else {
        seq![s[0]] + replace_spec(s.drop_first(), p, r)
    }
}

/// The five XML entities a body may carry, decoded in turn.
pub open spec fn decode_entities_spec(s: Seq<char>) -> Seq<char> {
    replace_spec(
        replace_spec(
            replace_spec(replace_spec(replace_spec(s, "&lt;"@, "<"@), "&gt;"@, ">"@), "&amp;"@, "&"@),
            "&quot;"@,
            "\""@,
        ),
        "&apos;"@,
        "'"@,
    )
}

/// The plain text of a body: without its tags, trimmed, with its entities
/// decoded.
pub open spec fn plain_text_spec(body: Seq<char>) -> Seq<char> {
    decode_entities_spec(trim_spec(strip_tags(body, false)))
}

/// `str::replace` with text patterns.
pub fn replace_text(s: &str, p: &str, r: &str) -> (out: String)
    ensures
        out@ == replace_spec(s@, p@, r@),
{
    let v = chars_of(s);
    let q = chars_of(p);
    let mut out = String::new();
    if q.len() == 0 {
        return owned(s);
    }
    let mut i: usize = 0;
    assert(v@.skip(0) =~= v@);
    while i < v.len()
        invariant
            i <= v.len(),
            v@ == s@,
            q@ == p@,
            q.len() > 0,
            out@ + replace_spec(v@.skip(i as int), p@, r@) == replace_spec(s@, p@, r@),
        decreases v.len() - i,
    {
        let ghost rest = v@.skip(i as int);
        if q.len() <= v.len() - i && chars_match_at(v.as_slice(), q.as_slice(), i) {
            assert(rest.take(q.len() as int) =~= v@.subrange(i as int, i + q.len()));
            assert(rest.skip(q.len() as int) =~= v@.skip(i + q.len()));
            let ghost before = out@;
            out.append(r);
            proof {
                assert(out@ + replace_spec(v@.skip(i + q.len()), p@, r@) =~= before + (r@
                    + replace_spec(v@.skip(i + q.len()), p@, r@)));
            }
            i += q.len();
        } else {
            proof {
                if rest.len() >= q.len() {
                    assert(rest.take(q.len() as int) =~= v@.subrange(i as int, i + q.len()));
                }
                assert(rest.drop_first() =~= v@.skip(i + 1));
            }
            let ghost before = out@;
            push_char(&mut out, v[i]);
            proof {
                assert(out@ == before + seq![v@[i as int]]);
                assert(out@ + replace_spec(v@.skip(i + 1), p@, r@) =~= before + (seq![v@[i as int]]
                    + replace_spec(v@.skip(i + 1), p@, r@)));
            }
            i += 1;
        }
    }
    assert(v@.skip(v.len() as int) =~= Seq::<char>::empty());
    out
}

/// The entities of a text decoded.
pub fn decode_entities(value: &str) -> (r: String)
    ensures
        r@ == decode_entities_spec(value@),
{
    let a = replace_text(value, "&lt;", "<");
    let b = replace_text(a.as_str(), "&gt;", ">");
    let c = replace_text(b.as_str(), "&amp;", "&");
    let d = replace_text(c.as_str(), "&quot;", "\"");
    replace_text(d.as_str(), "&apos;", "'")
}

/// The characters of a body outside its tags.
fn strip_tag_chars(body: &str) -> (r: String)
    ensures
        r@ == strip_tags(body@, false),
{
    let v = chars_of(body);
    let mut out = String::new();
    let mut in_tag = false;
    let mut i: usize = 0;
    assert(v@.skip(0) =~= v@);
    while i < v.len()
        invariant
            i <= v.len(),
            v@ == body@,
            out@ + strip_tags(v@.skip(i as int), in_tag) == strip_tags(body@, false),
        decreases v.len() - i,
    {
        let c = v[i];
        let ghost rest = v@.skip(i as int);
        assert(rest[0] == c);
        assert(rest.drop_first() =~= v@.skip(i + 1));
        if c == '<' {
            in_tag = true;
        } else if c == '>' && in_tag {
            in_tag = false;
        } else if !in_tag {
            let ghost before = out@;
            push_char(&mut out, c);
            assert(out@ + strip_tags(v@.skip(i + 1), in_tag) =~= before + (seq![c] + strip_tags(
                v@.skip(i + 1),
                in_tag,
            )));
        }
        i += 1;
    }
    assert(v@.skip(v.len() as int) =~= Seq::<char>::empty());
    assert(out@ + Seq::<char>::empty() =~= out@);
    out
}

/// The plain text of a notification body.
pub fn plain_text(body: &str) -> (r: String)
    ensures
        r@ == plain_text_spec(body@),
{
    let stripped = strip_tag_chars(body);
    let trimmed = trim(stripped.as_str());
    decode_entities(trimmed.as_str())
}

/// The markup kept of a body: the trimmed body when markup is enabled and
/// the body has a `<`.
pub fn sanitized_markup(body: &str, enabled: bool) -> (r: Option<String>)
    ensures
        (!enabled || !body@.contains('<')) ==> r is None,
        (enabled && body@.contains('<')) ==> (r matches Some(m) && m@ == trim_spec(body@)),
{
    if !enabled || !contains_char(body, '<') {
        return None;
    }
    Some(trim(body))
}

} // verus!
