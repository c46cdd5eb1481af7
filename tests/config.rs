use polybar_iconography::bspc::{Client, Node};
use polybar_iconography::config::{
    find_sublist_entry, get_properties, skipped_mappings, ConfigValue, IconYaml, ParseError,
};
use polybar_iconography::settings::{Icons, Property};

fn text(s: &str) -> ConfigValue {
    ConfigValue::Text(s.to_string())
}

fn mapping(entries: Vec<(&str, ConfigValue)>) -> ConfigValue {
    ConfigValue::Mapping(entries.into_iter().map(|(k, v)| (text(k), v)).collect())
}

fn window(class: &str) -> Node {
    Node {
        id: 1,
        client: Some(Client {
            class_name: class.to_string(),
            urgent: false,
            shown: true,
        }),
        first_child: None,
        second_child: None,
        hidden: false,
        sticky: false,
        private: false,
        locked: false,
        marked: false,
        split_type: String::new(),
    }
}

fn browser_config() -> IconYaml {
    let rules = ConfigValue::List(vec![
        mapping(vec![
            ("contains", text("firefox")),
            ("icon", text("\u{1f310}")),
            (
                "window_title",
                ConfigValue::List(vec![mapping(vec![
                    ("starts_with", text("Private")),
                    ("icon", text("\u{1f576}")),
                ])]),
            ),
        ]),
        mapping(vec![("icon", text("no predicate"))]),
        mapping(vec![("matches", text("^term")), ("icon", text("T"))]),
        text("not a mapping"),
    ]);
    IconYaml {
        icons: vec![vec![(text("class_name"), rules)]],
        tick_rate: Some(500),
    }
}

#[test]
fn configured_rules_classify_windows() {
    let icons = Icons::new(&browser_config()).unwrap();
    assert_eq!(icons.tick_rate, Some(500));
    assert_eq!(icons.icons.len(), 1);
    match &icons.icons[0] {
        Property::ClassName(items) => assert_eq!(items.len(), 2),
        Property::WindowTitle(_) => panic!("expected class name rules"),
    }
    let firefox = window("firefox");
    assert_eq!(icons.get_icon(&firefox, Some("Private Browsing")), "\u{1f576}");
    assert_eq!(icons.get_icon(&firefox, Some("My Page")), "\u{1f310}");
    assert_eq!(icons.get_icon(&window("Terminator"), None), "T");
    assert_eq!(icons.get_icon(&window("xterm"), None), "xterm");
}

#[test]
fn bad_pattern_is_refused() {
    let rules = vec![mapping(vec![("matches", text("(")), ("icon", text("x"))])];
    assert!(matches!(
        get_properties("class_name", &rules),
        Err(ParseError::ParseFailed(_))
    ));
    let nested = vec![mapping(vec![
        ("contains", text("a")),
        ("icon", text("x")),
        (
            "class_name",
            ConfigValue::List(vec![mapping(vec![("matches", text("[")), ("icon", text("y"))])]),
        ),
    ])];
    assert!(get_properties("window_title", &nested).is_err());
}

#[test]
fn title_rules_keep_their_kind() {
    let rules = vec![mapping(vec![("starts_with", text("Mail")), ("icon", text("M"))])];
    match get_properties("window_title", &rules).unwrap() {
        Property::WindowTitle(items) => assert_eq!(items.len(), 1),
        Property::ClassName(_) => panic!("expected title rules"),
    }
}

#[test]
fn unknown_top_level_key_is_refused() {
    let yaml = IconYaml {
        icons: vec![vec![(text("colour"), ConfigValue::List(vec![]))]],
        tick_rate: None,
    };
    assert!(matches!(Icons::new(&yaml), Err(ParseError::ParseFailed(_))));
    let not_a_list = IconYaml {
        icons: vec![vec![(text("class_name"), text("firefox"))]],
        tick_rate: None,
    };
    assert!(Icons::new(&not_a_list).is_err());
}

#[test]
fn empty_configuration_has_no_rules() {
    let icons = Icons::new(&IconYaml {
        icons: vec![],
        tick_rate: None,
    })
    .unwrap();
    assert!(icons.icons.is_empty());
    assert_eq!(icons.get_icon(&window("kitty"), None), "kitty");
}

#[test]
fn regex_rule_matches_anywhere() {
    let rules = vec![mapping(vec![("matches", text("^TERM|kitty$")), ("icon", text("T"))])];
    let icons = Icons {
        icons: vec![get_properties("class_name", &rules).unwrap()],
        tick_rate: None,
    };
    assert_eq!(icons.get_icon(&window("Terminal"), None), "T");
    assert_eq!(icons.get_icon(&window("xkitty"), None), "T");
    assert_eq!(icons.get_icon(&window("kitty2"), None), "kitty2");
}

#[test]
fn skipped_mappings_are_listed() {
    let rules = vec![
        mapping(vec![("contains", text("a")), ("icon", text("A"))]),
        mapping(vec![("icon", text("no predicate"))]),
        text("not a mapping"),
        mapping(vec![("starts_with", text("b"))]),
    ];
    assert_eq!(skipped_mappings(&rules), vec![1, 3]);
    assert!(skipped_mappings(&vec![]).is_empty());
}

#[test]
fn nested_rules_are_found() {
    let m = vec![
        (text("icon"), text("x")),
        (text("window_title"), ConfigValue::List(vec![text("inner")])),
    ];
    let (key, list) = find_sublist_entry(&m).unwrap();
    assert_eq!(key, "window_title");
    assert_eq!(list.len(), 1);
    assert!(find_sublist_entry(&vec![(text("colour"), ConfigValue::List(vec![]))]).is_none());
}
