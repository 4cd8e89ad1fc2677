use locusfs::dbus_call::{
    check_property_value, check_property_write, method_call_input, parse_method_argument, parse_method_arguments,
    MethodArgument,
};
use locusfs::dbus_introspect::{
    attr_value, is_standard_interface, join_object_path, parse_child_node_names,
    parse_interface_names,
};
use locusfs::error::GraphError;
use locusfs::notifyd::NotificationUrgency;
use locusfs::notifyd_markup::plain_text;
use locusfs::notifyd_policy::{
    effective_timeout, normalize_image, trim_to_limit, NotificationHints, NotifydConfig,
};
use locusfs::pipewire::subscription_line_affects_snapshot;
use locusfs::value::LocusValue;

#[test]
fn strips_simple_markup() {
    assert_eq!(plain_text("<b>Hello</b> &amp; goodbye"), "Hello & goodbye");
}

#[test]
fn timeout_policy_uses_urgency_defaults() {
    let config = NotifydConfig::default();
    assert_eq!(effective_timeout(-1, NotificationUrgency::Low, &config), 4000);
    assert_eq!(effective_timeout(-1, NotificationUrgency::Normal, &config), 7000);
    assert_eq!(effective_timeout(-1, NotificationUrgency::Critical, &config), 0);
    assert_eq!(effective_timeout(10, NotificationUrgency::Critical, &config), 10);
}

#[test]
fn trim_limit_preserves_utf8_boundaries() {
    assert_eq!(trim_to_limit("aé", 2), "a");
}

#[test]
fn trim_limit_keeps_short_text() {
    assert_eq!(trim_to_limit("abc", 3), "abc");
    assert_eq!(trim_to_limit("abcd", 3), "abc");
    assert_eq!(trim_to_limit("é", 1), "");
}

#[test]
fn prefers_image_path_hint() {
    let hints = NotificationHints {
        image_path: Some("/tmp/test.png".to_owned()),
        ..NotificationHints::default()
    };

    let image = normalize_image("dialog-information", &hints, true);

    assert_eq!(image.image_path.as_deref(), Some("/tmp/test.png"));
    assert_eq!(image.image_source, "image-path");
}

#[test]
fn subscription_filter_tracks_relevant_pactl_events() {
    assert!(subscription_line_affects_snapshot("Event 'change' on sink #149"));
    assert!(subscription_line_affects_snapshot("Event 'change' on server #0"));
    assert!(!subscription_line_affects_snapshot("Event 'new' on client #42"));
}

#[test]
fn introspection_parser_accepts_attribute_variants() {
    let xml = r#"
            <node>
              <interface name = 'org.example.First'/>
              <interface version="1" name="org.example.Second"></interface>
              <node name = "child"/>
              <node name='/absolute-is-ignored'/>
            </node>
        "#;

    assert_eq!(
        parse_interface_names(xml),
        vec!["org.example.First".to_string(), "org.example.Second".to_string()]
    );
    assert_eq!(parse_child_node_names(xml), vec!["child".to_string()]);
}

#[test]
fn attribute_names_must_stand_alone() {
    assert_eq!(attr_value(" rename='x' name='y'", "name"), Some("y".to_owned()));
    assert_eq!(attr_value(" name=x", "name"), None);
    assert_eq!(attr_value(" name = \"a b\"", "name"), Some("a b".to_owned()));
    assert_eq!(attr_value(" name='unterminated", "name"), None);
}

#[test]
fn tags_that_only_share_a_prefix_are_not_read() {
    let xml = "<nodes name='a'/><node name='b'/><node/>";
    assert_eq!(parse_child_node_names(xml), vec!["b".to_string()]);
}

#[test]
fn standard_interfaces_and_child_paths() {
    assert!(is_standard_interface("org.freedesktop.DBus.Properties"));
    assert!(!is_standard_interface("org.example.Thing"));
    assert_eq!(join_object_path("/", "child"), "/child");
    assert_eq!(join_object_path("/org/example", "child"), "/org/example/child");
}

#[test]
fn method_arguments_follow_the_signature() {
    let signatures = vec!["s".to_owned(), "b".to_owned(), "u".to_owned(), "i".to_owned()];
    let args = parse_method_arguments(&signatures, " hello , true, 7 , -3\r\n").unwrap();
    assert_eq!(
        args,
        vec![
            MethodArgument::String("hello".to_owned()),
            MethodArgument::Bool(true),
            MethodArgument::U32(7),
            MethodArgument::I32(-3),
        ]
    );
    assert_eq!(parse_method_arguments(&[], "  \n").unwrap(), Vec::new());
}

#[test]
fn method_argument_count_must_match() {
    let signatures = vec!["s".to_owned()];
    assert!(matches!(
        parse_method_arguments(&signatures, "a,b"),
        Err(GraphError::InvalidValue {
            kind: "D-Bus method call arguments",
            ..
        })
    ));
    assert!(matches!(
        parse_method_arguments(&signatures, ""),
        Err(GraphError::InvalidValue {
            kind: "D-Bus method call arguments",
            ..
        })
    ));
}

#[test]
fn method_argument_errors_name_the_type() {
    assert!(matches!(
        parse_method_argument("b", "yes"),
        Err(GraphError::InvalidValue { kind: "D-Bus bool argument", .. })
    ));
    assert!(matches!(
        parse_method_argument("u", "-1"),
        Err(GraphError::InvalidValue { kind: "D-Bus u32 argument", .. })
    ));
    assert!(matches!(
        parse_method_argument("u", "4294967296"),
        Err(GraphError::InvalidValue { kind: "D-Bus u32 argument", .. })
    ));
    assert!(matches!(
        parse_method_argument("i", "1.5"),
        Err(GraphError::InvalidValue { kind: "D-Bus i32 argument", .. })
    ));
    assert!(matches!(
        parse_method_argument("o", "/a//b"),
        Err(GraphError::InvalidValue {
            kind: "D-Bus object path argument",
            ..
        })
    ));
    assert!(matches!(
        parse_method_argument("x", "1"),
        Err(GraphError::InvalidValue {
            kind: "D-Bus method argument signature",
            ..
        })
    ));
}

#[test]
fn method_arguments_of_every_type() {
    assert_eq!(parse_method_argument("b", "0").unwrap(), MethodArgument::Bool(false));
    assert_eq!(parse_method_argument("u", "+42").unwrap(), MethodArgument::U32(42));
    assert_eq!(
        parse_method_argument("i", "-2147483648").unwrap(),
        MethodArgument::I32(-2147483648)
    );
    assert_eq!(
        parse_method_argument("d", "0.5").unwrap(),
        MethodArgument::Double("0.5".to_owned())
    );
    assert_eq!(
        parse_method_argument("o", "/org/example_1").unwrap(),
        MethodArgument::ObjectPath("/org/example_1".to_owned())
    );
    assert_eq!(
        parse_method_argument("o", "/").unwrap(),
        MethodArgument::ObjectPath("/".to_owned())
    );
    assert!(parse_method_argument("o", "/org/").is_err());
    assert!(parse_method_argument("o", "org").is_err());
}

#[test]
fn only_strings_call_methods() {
    assert_eq!(
        method_call_input(LocusValue::String("a,b".to_owned())).unwrap(),
        "a,b"
    );
    assert!(matches!(
        method_call_input(LocusValue::U32(1)),
        Err(GraphError::InvalidValue {
            kind: "D-Bus method call arguments",
            ..
        })
    ));
}

#[test]
fn written_property_values_keep_their_kind() {
    assert!(check_property_value(&LocusValue::Bool(true), &LocusValue::Bool(false)).is_ok());
    assert!(matches!(
        check_property_value(&LocusValue::U32(1), &LocusValue::Bool(false)),
        Err(GraphError::InvalidValue { kind: "D-Bus property value", .. })
    ));
}

fn double_refusal(text: &str) -> &'static str {
    match parse_method_argument("d", text) {
        Err(GraphError::InvalidValue { kind, value, reason }) => {
            assert_eq!(kind, "D-Bus f64 argument");
            assert_eq!(value, text);
            reason
        }
        other => panic!("expected a refusal of {text}, got {other:?}"),
    }
}

#[test]
fn double_arguments_take_the_number_forms_of_rust() {
    for text in ["0.5", "5.", ".5", "-1", "+2.5e-3", "1E+3", "12e7", "007"] {
        assert_eq!(
            parse_method_argument("d", text).unwrap(),
            MethodArgument::Double(text.to_owned())
        );
    }
    for text in ["", "abc", "1.2.3", ".", "1e", "e5", "1e+", "1e2.5", "--1", " 1", "0x10"] {
        assert_eq!(double_refusal(text), "expected float");
    }
    for text in ["inf", "-Infinity", "NaN", "+INF"] {
        assert_eq!(double_refusal(text), "expected finite float");
    }
}

#[test]
fn property_writes_check_the_interface_name_first() {
    assert!(check_property_write("org.example.Player", &LocusValue::U32(3), &LocusValue::U32(1)).is_ok());
    assert!(check_property_write("_a.b9", &LocusValue::Bool(true), &LocusValue::Bool(false)).is_ok());
    for name in ["", "no-dots", "nodots", ".start", "end.", "double..dots", "the.2nd", "1st.x", "a.b-c"] {
        match check_property_write(name, &LocusValue::U32(1), &LocusValue::Bool(false)) {
            Err(GraphError::InvalidValue { kind, value, reason }) => {
                assert_eq!(kind, "D-Bus interface");
                assert_eq!(value, name);
                assert_eq!(reason, "invalid interface name");
            }
            other => panic!("expected {name} refused, got {other:?}"),
        }
    }
    let long = format!("a.{}", "b".repeat(254));
    assert!(check_property_write(&long, &LocusValue::U32(1), &LocusValue::U32(1)).is_err());
    let longest = format!("a.{}", "b".repeat(253));
    assert!(check_property_write(&longest, &LocusValue::U32(1), &LocusValue::U32(1)).is_ok());
    match check_property_write("org.example.Player", &LocusValue::U32(1), &LocusValue::Bool(false)) {
        Err(GraphError::InvalidValue { kind, .. }) => assert_eq!(kind, "D-Bus property value"),
        other => panic!("expected a kind refusal, got {other:?}"),
    }
}
