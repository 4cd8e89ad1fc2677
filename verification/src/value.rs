//! Typed property values and property metadata.
use vstd::prelude::*;

use crate::identity::PropertyKey;
use crate::text::{decimal, i32_text, signed_decimal, u32_text};

verus! {

/// Scalar value kinds supported by graph properties.
#[derive(Clone, Copy, Debug, Eq, PartialEq, Structural)]
pub enum ValueKind {
    String,
    Bool,
    U32,
    I32,
    F64,
}

/// A property value.
#[derive(Debug, PartialEq, Eq)]
pub enum LocusValue {
    String(String),
    Bool(bool),
    U32(u32),
    I32(i32),
}

/// Abstract value of a `LocusValue`.
pub enum ValueModel {
    Text(Seq<char>),
    Bool(bool),
    U32(u32),
    I32(i32),
}

impl View for LocusValue {
    type V = ValueModel;

    open spec fn view(&self) -> ValueModel {
        match self {
            LocusValue::String(s) => ValueModel::Text(s@),
            LocusValue::Bool(b) => ValueModel::Bool(*b),
            LocusValue::U32(n) => ValueModel::U32(*n),
            LocusValue::I32(n) => ValueModel::I32(*n),
        }
    }
}

/// The text a value is written as: strings as they are, booleans as
/// `true`/`false`, numbers in decimal.
pub open spec fn value_text(v: ValueModel) -> Seq<char> {
    match v {
        ValueModel::Text(s) => s,
        ValueModel::Bool(b) => if b {
            "true"@
        } else {
            "false"@
        },
        ValueModel::U32(n) => decimal(n as nat),
        ValueModel::I32(n) => signed_decimal(n as int),
    }
}

/// The kind of a value.
pub open spec fn model_kind(v: ValueModel) -> ValueKind {
    match v {
        ValueModel::Text(_) => ValueKind::String,
        ValueModel::Bool(_) => ValueKind::Bool,
        ValueModel::U32(_) => ValueKind::U32,
        ValueModel::I32(_) => ValueKind::I32,
    }
}

impl LocusValue {
    pub fn kind(&self) -> (r: ValueKind)
        ensures
            r == model_kind(self@),
    {
        match self {
            LocusValue::String(_) => ValueKind::String,
            LocusValue::Bool(_) => ValueKind::Bool,
            LocusValue::U32(_) => ValueKind::U32,
            LocusValue::I32(_) => ValueKind::I32,
        }
    }

    pub fn duplicate(&self) -> (r: LocusValue)
        ensures
            r@ == self@,
    {
        match self {
            LocusValue::String(s) => LocusValue::String(s.clone()),
            LocusValue::Bool(b) => LocusValue::Bool(*b),
            LocusValue::U32(n) => LocusValue::U32(*n),
            LocusValue::I32(n) => LocusValue::I32(*n),
        }
    }

    /// Whether two values are equal.
    pub fn same_as(&self, other: &LocusValue) -> (r: bool)
        ensures
            r == (self@ == other@),
    {
        match (self, other) {
            (LocusValue::String(a), LocusValue::String(b)) => {
                let x = a.clone();
                let y = b.clone();
                x == y
            },
            (LocusValue::Bool(a), LocusValue::Bool(b)) => *a == *b,
            (LocusValue::U32(a), LocusValue::U32(b)) => *a == *b,
            (LocusValue::I32(a), LocusValue::I32(b)) => *a == *b,
            _ => false,
        }
    }

    /// The text the value is written as.
    pub fn display_text(&self) -> (r: String)
        ensures
            r@ == value_text(self@),
    {
        match self {
            LocusValue::String(s) => s.clone(),
            LocusValue::Bool(b) => if *b {
                "true".to_owned()
            } else {
                "false".to_owned()
            },
            LocusValue::U32(n) => u32_text(*n),
            LocusValue::I32(n) => i32_text(*n),
        }
    }

    /// A text value.
    pub fn text(value: &str) -> (r: LocusValue)
        ensures
            r@ == ValueModel::Text(value@),
    {
        LocusValue::String(value.to_owned())
    }
}

/// Abstract value of a property spec.
pub struct PropertySpecView {
    pub key: Seq<char>,
    pub kind: ValueKind,
    pub readable: bool,
    pub writable: bool,
}

/// Metadata of a property: its key, value kind, and whether it can be
/// read and written.
#[derive(Debug, PartialEq, Eq)]
pub struct PropertySpec {
    key: PropertyKey,
    kind: ValueKind,
    readable: bool,
    writable: bool,
}

impl View for PropertySpec {
    type V = PropertySpecView;

    open spec fn view(&self) -> PropertySpecView {
        PropertySpecView {
            key: self.key_text(),
            kind: self.kind_spec(),
            readable: self.readable_spec(),
            writable: self.writable_spec(),
        }
    }
}

impl PropertySpec {
    pub closed spec fn key_text(&self) -> Seq<char> {
        self.key@
    }

    pub closed spec fn kind_spec(&self) -> ValueKind {
        self.kind
    }

    pub closed spec fn readable_spec(&self) -> bool {
        self.readable
    }

    pub closed spec fn writable_spec(&self) -> bool {
        self.writable
    }

    /// A readable, not writable property.
    pub fn new(key: PropertyKey, kind: ValueKind) -> (r: PropertySpec)
        ensures
            r@ == (PropertySpecView { key: key@, kind, readable: true, writable: false }),
    {
        PropertySpec { key, kind, readable: true, writable: false }
    }

    pub fn readable(self, readable: bool) -> (r: PropertySpec)
        ensures
            r@ == (PropertySpecView { readable, ..self@ }),
    {
        PropertySpec { readable, ..self }
    }

    pub fn writable(self, writable: bool) -> (r: PropertySpec)
        ensures
            r@ == (PropertySpecView { writable, ..self@ }),
    {
        PropertySpec { writable, ..self }
    }

    /// A readable and writable property.
    pub fn read_write(key: PropertyKey, kind: ValueKind) -> (r: PropertySpec)
        ensures
            r@ == (PropertySpecView { key: key@, kind, readable: true, writable: true }),
    {
        PropertySpec::new(key, kind).writable(true)
    }

    /// A writable property that cannot be read.
    pub fn write_only(key: PropertyKey, kind: ValueKind) -> (r: PropertySpec)
        ensures
            r@ == (PropertySpecView { key: key@, kind, readable: false, writable: true }),
    {
        PropertySpec::new(key, kind).readable(false).writable(true)
    }

    pub fn key(&self) -> (r: &PropertyKey)
        ensures
            r@ == self@.key,
    {
        &self.key
    }

    pub fn kind(&self) -> (r: ValueKind)
        ensures
            r == self@.kind,
    {
        self.kind
    }

    pub fn is_readable(&self) -> (r: bool)
        ensures
            r == self@.readable,
    {
        self.readable
    }

    pub fn is_writable(&self) -> (r: bool)
        ensures
            r == self@.writable,
    {
        self.writable
    }

    pub fn into_key(self) -> (r: PropertyKey)
        ensures
            r@ == self@.key,
    {
        self.key
    }
}

} // verus!
