use locusfs::error::GraphError;
use locusfs::identity::{NodeId, NodeKind, PropertyKey};
use locusfs::value::{LocusValue, PropertySpec, ValueKind};

#[test]
fn identifiers_reject_empty_values() {
    let error = NodeKind::new("").unwrap_err();
    assert!(matches!(error, GraphError::InvalidIdentifier { .. }));
}

#[test]
fn identifiers_reject_reserved_path_segments() {
    assert!(PropertyKey::new(".").is_err());
    assert!(PropertyKey::new("..").is_err());
}

#[test]
fn identifiers_allow_shell_hostile_but_encodable_text() {
    let id = NodeId::new(NodeKind::new("node").unwrap(), "57/active title").unwrap();
    assert_eq!(id.kind().as_str(), "node");
    assert_eq!(id.local(), "57/active title");
}

#[test]
fn node_ids_parse_kind_and_local_id() {
    let id = NodeId::parse("workspace:1").unwrap();
    assert_eq!(id.kind().as_str(), "workspace");
    assert_eq!(id.local(), "1");
    assert_eq!(id.to_text(), "workspace:1");
}

#[test]
fn values_report_their_kind() {
    assert_eq!(LocusValue::Bool(false).kind(), ValueKind::Bool);
    assert_eq!(LocusValue::U32(7).kind(), ValueKind::U32);
}

#[test]
fn property_specs_record_capabilities() {
    let key = PropertyKey::new("switch-to").unwrap();
    let spec = PropertySpec::write_only(key.duplicate(), ValueKind::String);
    assert_eq!(spec.key(), &key);
    assert_eq!(spec.kind(), ValueKind::String);
    assert!(!spec.is_readable());
    assert!(spec.is_writable());
}

#[test]
fn node_kinds_reject_the_id_separator() {
    let error = NodeKind::new("a:b").unwrap_err();
    assert_eq!(error.message(), "invalid node kind a:b: contains node id separator");
}

#[test]
fn node_local_ids_reject_nul() {
    let error = NodeId::new(NodeKind::new("node").unwrap(), "a\0b").unwrap_err();
    assert!(matches!(error, GraphError::InvalidIdentifier { .. }));
}

#[test]
fn node_ids_without_separator_do_not_parse() {
    assert!(NodeId::parse("workspace").is_err());
}

#[test]
fn node_ids_split_at_the_first_separator() {
    let id = NodeId::parse("dbus-object:upower:/org/x").unwrap();
    assert_eq!(id.kind().as_str(), "dbus-object");
    assert_eq!(id.local(), "upower:/org/x");
}
