//! Calling D-Bus methods and writing D-Bus properties through the graph:
//! the arguments of a call, read from the text written to a method node,
//! and the checks on a value written to a property.
use vstd::prelude::*;

use crate::error::{is_invalid_value, GraphError, Result};
use crate::text::{
    ascii_lower, chars_of, parse_i32, parse_i32_spec, parse_u32, parse_u32_spec, split_char,
    split_once_char, split_once_spec, split_spec, strip_line_end, text_eq, text_from_range,
    texts_of, to_ascii_lowercase, trim, trim_line_end, trim_spec,
};
use crate::value::{model_kind, value_text, LocusValue};

verus! {

/// One argument of a D-Bus method call, typed by the method's input
/// signature. A `d` (double) argument keeps its text, checked to be a
/// finite number in the form Rust reads doubles in: it is read as a float
/// where the call is made, and refused there if it is too large for one.
#[derive(Debug, PartialEq, Eq)]
pub enum MethodArgument {
    String(String),
    Bool(bool),
    U32(u32),
    I32(i32),
    Double(String),
    ObjectPath(String),
}

/// Abstract value of a method argument.
pub enum ArgumentView {
    Text(Seq<char>),
    Bool(bool),
    U32(u32),
    I32(i32),
    Double(Seq<char>),
    ObjectPath(Seq<char>),
}

impl View for MethodArgument {
    type V = ArgumentView;

    open spec fn view(&self) -> ArgumentView {
        match self {
            MethodArgument::String(s) => ArgumentView::Text(s@),
            MethodArgument::Bool(b) => ArgumentView::Bool(*b),
            MethodArgument::U32(n) => ArgumentView::U32(*n),
            MethodArgument::I32(n) => ArgumentView::I32(*n),
            MethodArgument::Double(s) => ArgumentView::Double(s@),
            MethodArgument::ObjectPath(s) => ArgumentView::ObjectPath(s@),
        }
    }
}

/// A char allowed in an element of an object path: an ASCII letter or
/// digit, or `_`.
pub open spec fn object_path_char(c: char) -> bool {
    ('a' <= c && c <= 'z') || ('A' <= c && c <= 'Z') || ('0' <= c && c <= '9') || c == '_'
}

/// Whether a text is a D-Bus object path: `/` alone, or `/`-led elements
/// of ASCII letters, digits and `_`, none empty and no `/` at the end.
pub open spec fn is_object_path(s: Seq<char>) -> bool {
    &&& s.len() >= 1
    &&& s[0] == '/'
    &&& (s.len() == 1 || s.last() != '/')
    &&& forall|i: int| 1 <= i < s.len() ==> (s[i] == '/' || object_path_char(#[trigger] s[i]))
    &&& forall|i: int| 0 <= i < s.len() - 1 ==> !(#[trigger] s[i] == '/' && s[i + 1] == '/')
}

/// `zbus::ObjectPath::try_from(&str)`, as a test: it succeeds exactly on
/// the texts that `is_object_path` describes (zbus checks a leading `/`,
/// then `/`-separated non-empty runs of ASCII alphanumerics and `_`, with
/// the whole text consumed).
#[verifier::external_body]
fn zbus_accepts_object_path(value: &str) -> (r: bool)
    ensures
        r == is_object_path(value@),
{
    zbus::ObjectPath::try_from(value).is_ok()
}

/// An ASCII digit.
pub open spec fn is_digit(c: char) -> bool {
    '0' <= c && c <= '9'
}

/// A text without one leading `+` or `-`.
pub open spec fn unsigned_part(s: Seq<char>) -> Seq<char> {
    if s.len() > 0 && (s[0] == '+' || s[0] == '-') {
        s.skip(1)
    } else {
        s
    }
}

/// Digits with at most one `.` among them, and at least one digit.
pub open spec fn mantissa_text(m: Seq<char>) -> bool {
    &&& forall|i: int| 0 <= i < m.len() ==> is_digit(#[trigger] m[i]) || m[i] == '.'
    &&& forall|i: int, j: int| 0 <= i < j < m.len() ==> !(#[trigger] m[i] == '.' && #[trigger] m[j] == '.')
    &&& exists|i: int| 0 <= i < m.len() && is_digit(#[trigger] m[i])
}

/// A `+` or `-` at most, then at least one digit.
pub open spec fn exponent_text(x: Seq<char>) -> bool {
    let d = unsigned_part(x);
    d.len() > 0 && forall|i: int| 0 <= i < d.len() ==> is_digit(#[trigger] d[i])
}

/// A lowercased, unsigned number: a mantissa, then an exponent after an
/// `e` where there is one.
pub open spec fn number_text(b: Seq<char>) -> bool {
    match split_once_spec(b, 'e') {
        Some((m, x)) => mantissa_text(m) && exponent_text(x),
        None => mantissa_text(b),
    }
}

/// The words for the doubles that are not finite, lowercased and unsigned.
pub open spec fn infinite_word(b: Seq<char>) -> bool {
    b == "inf"@ || b == "infinity"@ || b == "nan"@
}

/// The lowercased text without its sign.
pub open spec fn float_body(s: Seq<char>) -> Seq<char> {
    unsigned_part(s.map_values(|c: char| ascii_lower(c)))
}

/// A text Rust reads as a double (the grammar that `f64::from_str`
/// documents for the lowercased text): a sign at most, then `inf`,
/// `infinity`, `nan`, or a number.
pub open spec fn float_text(s: Seq<char>) -> bool {
    infinite_word(float_body(s)) || number_text(float_body(s))
}

fn unsigned_text(s: &str) -> (r: String)
    ensures
        r@ == unsigned_part(s@),
{
    let v = chars_of(s);
    if v.len() > 0 && (v[0] == '+' || v[0] == '-') {
        let r = text_from_range(v.as_slice(), 1, v.len());
        assert(r@ =~= s@.skip(1));
        r
    } else {
        text_from_range(v.as_slice(), 0, v.len())
    }
}

fn is_mantissa(m: &str) -> (r: bool)
    ensures
        r == mantissa_text(m@),
{
    let v = chars_of(m);
    let mut dot: Option<usize> = None;
    let mut digit: Option<usize> = None;
    let mut i: usize = 0;
    while i < v.len()
        invariant
            i <= v.len(),
            v@ == m@,
            forall|k: int| 0 <= k < i ==> is_digit(#[trigger] m@[k]) || m@[k] == '.',
            forall|a: int, b: int| 0 <= a < b < i ==> !(#[trigger] m@[a] == '.' && #[trigger] m@[b] == '.'),
            match dot {
                Some(d) => d < i && m@[d as int] == '.',
                None => forall|k: int| 0 <= k < i ==> m@[k] != '.',
            },
            match digit {
                Some(d) => d < i && is_digit(m@[d as int]),
                None => forall|k: int| 0 <= k < i ==> !is_digit(#[trigger] m@[k]),
            },
        decreases v.len() - i,
    {
        let c = v[i];
        if '0' <= c && c <= '9' {
            digit = Some(i);
        } else if c == '.' {
            if dot.is_some() {
                assert(m@[dot.unwrap() as int] == '.' && m@[i as int] == '.');
                return false;
            }
            dot = Some(i);
        } else {
            assert(!(is_digit(m@[i as int]) || m@[i as int] == '.'));
            return false;
        }
        i += 1;
    }
    match digit {
        Some(d) => {
            assert(is_digit(m@[d as int]));
            true
        },
        None => false,
    }
}

fn is_exponent(x: &str) -> (r: bool)
    ensures
        r == exponent_text(x@),
{
    let d = unsigned_text(x);
    let v = chars_of(d.as_str());
    if v.len() == 0 {
        return false;
    }
    let mut i: usize = 0;
    while i < v.len()
        invariant
            i <= v.len(),
            v@ == unsigned_part(x@),
            forall|k: int| 0 <= k < i ==> is_digit(#[trigger] v@[k]),
        decreases v.len() - i,
    {
        if !('0' <= v[i] && v[i] <= '9') {
            assert(!is_digit(v@[i as int]));
            return false;
        }
        i += 1;
    }
    true
}

/// How a text reads as a double: `None` where it is no double,
/// `Some(false)` for the words of the doubles that are not finite,
/// `Some(true)` for a number.
fn read_float(value: &str) -> (r: Option<bool>)
    ensures
        match r {
            None => !float_text(value@),
            Some(finite) => float_text(value@) && finite == !infinite_word(float_body(value@)),
        },
{
    let lower = to_ascii_lowercase(value);
    let b = unsigned_text(lower.as_str());
    assert(b@ == float_body(value@));
    if text_eq(b.as_str(), "inf") || text_eq(b.as_str(), "infinity") || text_eq(b.as_str(), "nan") {
        return Some(false);
    }
    let number = match split_once_char(b.as_str(), 'e') {
        Some((m, x)) => is_mantissa(m.as_str()) && is_exponent(x.as_str()),
        None => is_mantissa(b.as_str()),
    };
    if number {
        Some(true)
    } else {
        None
    }
}

/// The argument a text stands for under a one-letter signature; `None`
/// where the text does not fit it, or the signature is not supported.
pub open spec fn argument_spec(signature: Seq<char>, value: Seq<char>) -> Option<ArgumentView> {
    if signature == "s"@ {
        Some(ArgumentView::Text(value))
    } else if signature == "b"@ {
        if value == "true"@ || value == "1"@ {
            Some(ArgumentView::Bool(true))
        } else if value == "false"@ || value == "0"@ {
            Some(ArgumentView::Bool(false))
        } else {
            None
        }
    } else if signature == "u"@ {
        match parse_u32_spec(value) {
            Some(n) => Some(ArgumentView::U32(n)),
            None => None,
        }
    } else if signature == "i"@ {
        match parse_i32_spec(value) {
            Some(n) => Some(ArgumentView::I32(n)),
            None => None,
        }
    } else if signature == "d"@ {
        if float_text(value) && !infinite_word(float_body(value)) {
            Some(ArgumentView::Double(value))
        } else {
            None
        }
    } else if signature == "o"@ {
        if is_object_path(value) {
            Some(ArgumentView::ObjectPath(value))
        } else {
            None
        }
    } else {
        None
    }
}

/// The error for a text that does not fit its signature.
pub open spec fn argument_error(e: GraphError, signature: Seq<char>, value: Seq<char>) -> bool {
    if signature == "b"@ {
        is_invalid_value(e, "D-Bus bool argument"@, value, "expected true, false, 1, or 0"@)
    } else if signature == "u"@ {
        is_invalid_value(e, "D-Bus u32 argument"@, value, "expected unsigned integer"@)
    } else if signature == "i"@ {
        is_invalid_value(e, "D-Bus i32 argument"@, value, "expected signed integer"@)
    } else if signature == "d"@ {
        if float_text(value) {
            is_invalid_value(e, "D-Bus f64 argument"@, value, "expected finite float"@)
        } else {
            is_invalid_value(e, "D-Bus f64 argument"@, value, "expected float"@)
        }
    } else if signature == "o"@ {
        is_invalid_value(e, "D-Bus object path argument"@, value, "invalid object path"@)
    } else {
        is_invalid_value(
            e,
            "D-Bus method argument signature"@,
            signature,
            "unsupported argument type"@,
        )
    }
}

/// Reads one argument under its signature (`s`, `b`, `u`, `i`, `d`, `o`).
pub fn parse_method_argument(signature: &str, value: &str) -> (r: Result<MethodArgument>)
    ensures
        match r {
            Ok(a) => argument_spec(signature@, value@) == Some(a@),
            Err(e) => argument_spec(signature@, value@) is None && argument_error(
                e,
                signature@,
                value@,
            ),
        },
{
    if text_eq(signature, "s") {
        Ok(MethodArgument::String(value.to_owned()))
    } else if text_eq(signature, "b") {
        if text_eq(value, "true") || text_eq(value, "1") {
            Ok(MethodArgument::Bool(true))
        } else if text_eq(value, "false") || text_eq(value, "0") {
            Ok(MethodArgument::Bool(false))
        } else {
            Err(
                GraphError::InvalidValue {
                    kind: "D-Bus bool argument",
                    value: value.to_owned(),
                    reason: "expected true, false, 1, or 0",
                },
            )
        }
    } else if text_eq(signature, "u") {
        match parse_u32(value) {
            Some(n) => Ok(MethodArgument::U32(n)),
            None => Err(
                GraphError::InvalidValue {
                    kind: "D-Bus u32 argument",
                    value: value.to_owned(),
                    reason: "expected unsigned integer",
                },
            ),
        }
    } else if text_eq(signature, "i") {
        match parse_i32(value) {
            Some(n) => Ok(MethodArgument::I32(n)),
            None => Err(
                GraphError::InvalidValue {
                    kind: "D-Bus i32 argument",
                    value: value.to_owned(),
                    reason: "expected signed integer",
                },
            ),
        }
    } else if text_eq(signature, "d") {
        match read_float(value) {
            Some(true) => Ok(MethodArgument::Double(value.to_owned())),
            Some(false) => Err(
                GraphError::InvalidValue {
                    kind: "D-Bus f64 argument",
                    value: value.to_owned(),
                    reason: "expected finite float",
                },
            ),
            None => Err(
                GraphError::InvalidValue {
                    kind: "D-Bus f64 argument",
                    value: value.to_owned(),
                    reason: "expected float",
                },
            ),
        }
    } else if text_eq(signature, "o") {
        if zbus_accepts_object_path(value) {
            Ok(MethodArgument::ObjectPath(value.to_owned()))
        } else {
            Err(
                GraphError::InvalidValue {
                    kind: "D-Bus object path argument",
                    value: value.to_owned(),
                    reason: "invalid object path",
                },
            )
        }
    } else {
        Err(
            GraphError::InvalidValue {
                kind: "D-Bus method argument signature",
                value: signature.to_owned(),
                reason: "unsupported argument type",
            },
        )
    }
}

/// The texts of the arguments written to a method node: line ends at the
/// end dropped; nothing but whitespace is no argument; otherwise the
/// comma-separated pieces, each trimmed.
pub open spec fn raw_arguments(input: Seq<char>) -> Seq<Seq<char>> {
    let s = strip_line_end(input);
    if trim_spec(s).len() == 0 {
        Seq::empty()
    } else {
        split_spec(s, ',').map_values(|p: Seq<char>| trim_spec(p))
    }
}

/// `i` is the first argument that does not fit its signature.
pub open spec fn first_bad_argument(sigs: Seq<Seq<char>>, raw: Seq<Seq<char>>, i: int) -> bool {
    &&& 0 <= i < raw.len()
    &&& argument_spec(sigs[i], raw[i]) is None
    &&& forall|j: int| 0 <= j < i ==> (#[trigger] argument_spec(sigs[j], raw[j])) is Some
}

/// The arguments of a method call, read from the text written to its
/// node against the method's input signature.
pub fn parse_method_arguments(signatures: &[String], input: &str) -> (r: Result<
    Vec<MethodArgument>,
>)
    ensures
        ({
            let raw = raw_arguments(input@);
            let sigs = texts_of(signatures@);
            if raw.len() != sigs.len() {
                r matches Err(e) && is_invalid_value(
                    e,
                    "D-Bus method call arguments"@,
                    strip_line_end(input@),
                    "argument count does not match method input signature"@,
                )
            } else {
                &&& (r is Ok <==> forall|i: int|
                    0 <= i < raw.len() ==> (#[trigger] argument_spec(sigs[i], raw[i])) is Some)
                &&& (r matches Ok(v) ==> v@.len() == raw.len() && forall|i: int|
                    0 <= i < raw.len() ==> argument_spec(sigs[i], raw[i]) == Some(
                        #[trigger] v@[i]@,
                    ))
                &&& (r matches Err(e) ==> exists|i: int|
                    first_bad_argument(sigs, raw, i) && argument_error(e, sigs[i], raw[i]))
            }
        }),
{
    let text = trim_line_end(input);
    let ghost s = strip_line_end(input@);
    let ghost sigs = texts_of(signatures@);
    let raw: Vec<String> = if crate::text::is_blank(text.as_str()) {
        Vec::new()
    } else {
        let pieces = split_char(text.as_str(), ',');
        let mut out: Vec<String> = Vec::new();
        let mut i: usize = 0;
        while i < pieces.len()
            invariant
                i <= pieces.len(),
                out@.len() == i,
                forall|k: int| 0 <= k < i ==> (#[trigger] out@[k])@ == trim_spec(pieces@[k]@),
            decreases pieces.len() - i,
        {
            out.push(trim(pieces[i].as_str()));
            i += 1;
        }
        assert(texts_of(out@) =~= split_spec(s, ',').map_values(|p: Seq<char>| trim_spec(p)));
        out
    };
    assert(texts_of(raw@) == raw_arguments(input@));
    assert(sigs.len() == signatures@.len());
    assert(texts_of(raw@).len() == raw@.len());
    if raw.len() != signatures.len() {
        return Err(
            GraphError::InvalidValue {
                kind: "D-Bus method call arguments",
                value: text,
                reason: "argument count does not match method input signature",
            },
        );
    }
    let ghost rv = raw_arguments(input@);
    let mut args: Vec<MethodArgument> = Vec::new();
    let mut i: usize = 0;
    while i < raw.len()
        invariant
            i <= raw.len(),
            raw.len() == signatures.len(),
            texts_of(raw@) == rv,
            rv == raw_arguments(input@),
            sigs == texts_of(signatures@),
            args@.len() == i,
            forall|j: int| 0 <= j < i ==> argument_spec(sigs[j], rv[j]) == Some(#[trigger] args@[j]@),
        decreases raw.len() - i,
    {
        assert(sigs[i as int] == signatures@[i as int]@);
        assert(rv[i as int] == raw@[i as int]@);
        match parse_method_argument(signatures[i].as_str(), raw[i].as_str()) {
            Ok(a) => {
                args.push(a);
            },
            Err(e) => {
                assert(argument_spec(sigs[i as int], rv[i as int]) is None);
                assert(first_bad_argument(sigs, rv, i as int)) by {
                    assert forall|j: int| 0 <= j < i implies (#[trigger] argument_spec(
                        sigs[j],
                        rv[j],
                    )) is Some by {
                        assert(argument_spec(sigs[j], rv[j]) == Some(args@[j]@));
                    }
                }
                return Err(e);
            },
        }
        i += 1;
    }
    assert forall|k: int| 0 <= k < rv.len() implies (#[trigger] argument_spec(sigs[k], rv[k])) is Some by {
        assert(argument_spec(sigs[k], rv[k]) == Some(args@[k]@));
    }
    Ok(args)
}

/// The text of a method call: only a string can be written to a method
/// node.
pub fn method_call_input(value: LocusValue) -> (r: Result<String>)
    ensures
        match value@ {
            crate::value::ValueModel::Text(s) => r matches Ok(t) && t@ == s,
            _ => r matches Err(e) && is_invalid_value(
                e,
                "D-Bus method call arguments"@,
                value_text(value@),
                "expected comma-separated string"@,
            ),
        },
{
    match value {
        LocusValue::String(s) => Ok(s),
        other => Err(
            GraphError::InvalidValue {
                kind: "D-Bus method call arguments",
                value: other.display_text(),
                reason: "expected comma-separated string",
            },
        ),
    }
}

/// A value written to a D-Bus property must be of the kind the property
/// holds now.
pub fn check_property_value(value: &LocusValue, current: &LocusValue) -> (r: Result<()>)
    ensures
        r is Ok <==> model_kind(value@) == model_kind(current@),
        r matches Err(e) ==> is_invalid_value(
            e,
            "D-Bus property value"@,
            value_text(value@),
            "value kind does not match the current D-Bus property kind"@,
        ),
{
    if value.kind() != current.kind() {
        Err(
            GraphError::InvalidValue {
                kind: "D-Bus property value",
                value: value.display_text(),
                reason: "value kind does not match the current D-Bus property kind",
            },
        )
    } else {
        Ok(())
    }
}

/// An ASCII letter or digit, or `_`: a char of a D-Bus name element.
pub open spec fn name_char(c: char) -> bool {
    ('a' <= c && c <= 'z') || ('A' <= c && c <= 'Z') || ('0' <= c && c <= '9') || c == '_'
}

/// Whether a text is a D-Bus interface name: at most 255 chars, two or
/// more `.`-separated elements of ASCII letters, digits and `_`, none
/// empty and none starting with a digit.
pub open spec fn is_interface_name(s: Seq<char>) -> bool {
    &&& 0 < s.len() <= 255
    &&& forall|i: int| 0 <= i < s.len() ==> #[trigger] s[i] == '.' || name_char(s[i])
    &&& s.contains('.')
    &&& s.last() != '.'
    &&& forall|i: int|
        0 <= i < s.len() && (i == 0 || s[i - 1] == '.') ==> #[trigger] s[i] != '.' && !is_digit(s[i])
}

/// `zbus::names::InterfaceName::try_from(&str)`, as a test: it succeeds
/// exactly on the texts that `is_interface_name` describes (zbus parses
/// two or more `.`-separated elements, each an ASCII letter or `_` and then
/// ASCII letters, digits or `_`, with the whole text consumed, then
/// refuses more than 255 bytes; an accepted text is ASCII, so its bytes
/// are its chars).
#[verifier::external_body]
fn zbus_accepts_interface_name(value: &str) -> (r: bool)
    ensures
        r == is_interface_name(value@),
{
    zbus::names::InterfaceName::try_from(value).is_ok()
}

/// The checks on a write to a D-Bus property before it is sent: the name
/// of the property's interface, then the kind of the value against the
/// kind the property holds now.
pub fn check_property_write(interface: &str, value: &LocusValue, current: &LocusValue) -> (r: Result<()>)
    ensures
        !is_interface_name(interface@) ==> (r matches Err(e) && is_invalid_value(
            e,
            "D-Bus interface"@,
            interface@,
            "invalid interface name"@,
        )),
        is_interface_name(interface@) ==> (r is Ok <==> model_kind(value@) == model_kind(current@)),
        is_interface_name(interface@) ==> (r matches Err(e) ==> is_invalid_value(
            e,
            "D-Bus property value"@,
            value_text(value@),
            "value kind does not match the current D-Bus property kind"@,
        )),
{
    if !zbus_accepts_interface_name(interface) {
        return Err(
            GraphError::InvalidValue {
                kind: "D-Bus interface",
                value: interface.to_owned(),
                reason: "invalid interface name",
            },
        );
    }
    check_property_value(value, current)
}

} // verus!
