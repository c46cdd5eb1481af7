use polybar_iconography::bspc::{get_client_nodes, Client, Desktop, Monitor, Node, WmState};
use polybar_iconography::formatter::Formatter;
use polybar_iconography::render::{group_by, render};
use polybar_iconography::settings::{
    DrawSettings, Icon, Icons, Predicate, Property, PropertyListItem, Settings,
};

fn node(id: i32, client: Option<Client>, first: Option<Node>, second: Option<Node>) -> Node {
    Node {
        id,
        client,
        first_child: first.map(Box::new),
        second_child: second.map(Box::new),
        hidden: false,
        sticky: false,
        private: false,
        locked: false,
        marked: false,
        split_type: "vertical".to_string(),
    }
}

fn leaf(id: i32, class: &str, urgent: bool) -> Node {
    node(
        id,
        Some(Client {
            class_name: class.to_string(),
            urgent,
            shown: true,
        }),
        None,
        None,
    )
}

fn split(id: i32, a: Node, b: Node) -> Node {
    node(id, None, Some(a), Some(b))
}

fn desktop(name: &str, id: i32, focused_node_id: i32, root: Option<Node>) -> Desktop {
    Desktop {
        name: name.to_string(),
        id,
        focused_node_id,
        root,
    }
}

fn monitor(name: &str, id: i32, focused_desktop_id: i32, desktops: Vec<Desktop>) -> Monitor {
    Monitor {
        name: name.to_string(),
        id,
        randr_id: 0,
        focused_desktop_id,
        desktops,
    }
}

fn settings(filter: Option<&str>, icons: Vec<Property>) -> Settings {
    Settings {
        monitor: filter.map(|s| s.to_string()),
        icons: Icons {
            icons,
            tick_rate: None,
        },
        draw_settings: DrawSettings {
            prefix: None,
            postfix: None,
            separator: "|".to_string(),
            node_draw_mode: Formatter::default(),
            focused_node_draw_mode: Formatter::default().with_highlight(true),
            urgent_node_draw_mode: Formatter::default().with_background(Some(
                polybar_iconography::colors::Color::try_from("a22").unwrap(),
            )),
            workspace_draw_mode: Formatter::default(),
            focused_workspace_draw_mode: Formatter::default(),
        },
    }
}

fn item(predicate: Predicate, icon: &str, sub_list: Option<Property>) -> PropertyListItem {
    PropertyListItem {
        predicate,
        icon: Icon(icon.to_string()),
        sub_list: sub_list.map(Box::new),
    }
}

fn browser_rules() -> Vec<Property> {
    vec![Property::ClassName(vec![
        item(
            Predicate::Contains("firefox".to_string()),
            "\u{1f310}",
            Some(Property::WindowTitle(vec![item(
                Predicate::StartsWith("Private".to_string()),
                "\u{1f576}",
                None,
            )])),
        ),
        item(Predicate::Contains("fire".to_string()), "F", None),
    ])]
}

#[test]
fn nested_title_rule_refines_class_rule() {
    let s = settings(None, browser_rules());
    let n = leaf(7, "firefox", false);
    assert_eq!(s.icons.get_icon(&n, Some("Private Browsing")), "\u{1f576}");
    assert_eq!(s.icons.get_icon(&n, Some("My Page")), "\u{1f310}");
    assert_eq!(s.icons.get_icon(&n, None), "\u{1f310}");
}

#[test]
fn class_match_ignores_case() {
    let s = settings(None, browser_rules());
    assert_eq!(s.icons.get_icon(&leaf(1, "Firefox-ESR", false), None), "\u{1f310}");
}

#[test]
fn unmatched_window_falls_back_to_title_then_class() {
    let s = settings(None, browser_rules());
    let n = leaf(2, "kitty", false);
    assert_eq!(s.icons.get_icon(&n, Some("shell")), "shell");
    assert_eq!(s.icons.get_icon(&n, None), "kitty");
}

#[test]
fn leaves_in_depth_first_order() {
    let root = split(
        100,
        split(101, leaf(1, "a", false), leaf(2, "b", false)),
        leaf(3, "c", false),
    );
    let ids: Vec<i32> = get_client_nodes(&root).iter().map(|n| n.id).collect();
    assert_eq!(ids, vec![1, 2, 3]);
}

#[test]
fn groups_are_runs_of_equal_keys() {
    let items = [10, 11, 12, 13];
    let keys: Vec<String> = ["A", "A", "B", "A"].iter().map(|s| s.to_string()).collect();
    let groups = group_by(&items, &keys);
    let sizes: Vec<usize> = groups.iter().map(|g| g.len()).collect();
    assert_eq!(sizes, vec![2, 1, 1]);
    assert_eq!(*groups[2][0], 13);
    assert!(group_by::<i32>(&[], &[]).is_empty());
}

fn four_window_state() -> WmState {
    let root = split(
        100,
        split(101, leaf(1, "a", false), leaf(2, "a", false)),
        split(102, leaf(3, "b", false), leaf(4, "a", false)),
    );
    WmState {
        focused_monitor_id: 1,
        clients_count: 4,
        monitors: vec![monitor("M", 1, 10, vec![desktop("d", 10, 3, Some(root))])],
    }
}

#[test]
fn render_groups_adjacent_windows() {
    let out = render(&four_window_state(), &settings(None, vec![]), &vec![]);
    let expected = [
        "%{A1:bspc monitor -f 'M':}%{A1:bspc desktop -f 'd':}\u{2081} ",
        "%{A1:bspc node -f 1:}a \u{00b2}%{A}",
        "%{R}%{A1:bspc node -f 3:}b  %{A}%{R}",
        "%{A1:bspc node -f 4:}a  %{A}",
        "%{A}%{A}",
    ]
    .concat();
    assert_eq!(out, expected);
}

#[test]
fn urgent_style_wins_over_focus() {
    let root = split(100, leaf(-5, "a", true), leaf(6, "b", false));
    let state = WmState {
        focused_monitor_id: 1,
        clients_count: 2,
        monitors: vec![monitor("M", 1, 10, vec![desktop("d", 10, -5, Some(root))])],
    };
    let out = render(&state, &settings(None, vec![]), &vec![(6, "title".to_string())]);
    let expected = [
        "%{A1:bspc monitor -f 'M':}%{A1:bspc desktop -f 'd':}\u{2081} ",
        "%{B#AA2222}%{A1:bspc node -f -5:}a  %{A}%{B-}",
        "%{A1:bspc node -f 6:}title  %{A}",
        "%{A}%{A}",
    ]
    .concat();
    assert_eq!(out, expected);
}

#[test]
fn empty_desktop_shown_only_when_focused() {
    let make = |focused_desktop: i32| WmState {
        focused_monitor_id: 1,
        clients_count: 1,
        monitors: vec![monitor(
            "M",
            1,
            focused_desktop,
            vec![
                desktop("one", 10, 0, None),
                desktop("two", 11, 0, Some(leaf(5, "x", false))),
            ],
        )],
    };
    let s = settings(None, vec![]);
    let unfocused = render(&make(11), &s, &vec![]);
    assert_eq!(
        unfocused,
        "%{A1:bspc monitor -f 'M':}%{A1:bspc desktop -f 'two':}\u{2082} %{A1:bspc node -f 5:}x  %{A}%{A}%{A}"
    );
    let focused = render(&make(10), &s, &vec![]);
    assert_eq!(
        focused,
        "%{A1:bspc monitor -f 'M':}%{A1:bspc desktop -f 'one':}\u{2081} %{A}|%{A1:bspc desktop -f 'two':}\u{2082} %{A1:bspc node -f 5:}x  %{A}%{A}%{A}"
    );
}

#[test]
fn single_focused_empty_desktop() {
    let state = WmState {
        focused_monitor_id: 1,
        clients_count: 0,
        monitors: vec![monitor("eDP", 1, 10, vec![desktop("1", 10, 0, None)])],
    };
    let out = render(&state, &settings(None, vec![]), &vec![]);
    assert_eq!(out, "%{A1:bspc monitor -f 'eDP':}%{A1:bspc desktop -f '1':}\u{2081} %{A}%{A}");
    let filtered = render(&state, &settings(Some("HDMI"), vec![]), &vec![]);
    assert_eq!(filtered, "");
}

#[test]
fn filtered_monitor_keeps_desktop_numbering() {
    let state = WmState {
        focused_monitor_id: 2,
        clients_count: 0,
        monitors: vec![
            monitor("A", 1, 10, vec![desktop("a1", 10, 0, None), desktop("a2", 11, 0, None)]),
            monitor("B", 2, 20, vec![desktop("b1", 20, 0, None)]),
        ],
    };
    let out = render(&state, &settings(Some("B"), vec![]), &vec![]);
    assert_eq!(out, "%{A1:bspc monitor -f 'B':}%{A1:bspc desktop -f 'b1':}\u{2083} %{A}%{A}");
}

#[test]
fn prefix_postfix_and_overflow_glyphs() {
    let mut desktops = vec![];
    for i in 0..11 {
        desktops.push(desktop(&format!("d{}", i), i, 0, None));
    }
    let state = WmState {
        focused_monitor_id: 1,
        clients_count: 0,
        monitors: vec![monitor("M", 1, 10, desktops)],
    };
    let mut s = settings(None, vec![]);
    s.draw_settings.prefix = Some("[".to_string());
    s.draw_settings.postfix = Some("]".to_string());
    let out = render(&state, &s, &vec![]);
    assert_eq!(out, "%{A1:bspc monitor -f 'M':}%{A1:bspc desktop -f 'd10':}?[]%{A}%{A}");
}

#[test]
fn many_windows_use_overflow_count_glyph() {
    let mut root = leaf(0, "a", false);
    for i in 1..12 {
        root = split(100 + i, root, leaf(i, "a", false));
    }
    let state = WmState {
        focused_monitor_id: 9,
        clients_count: 12,
        monitors: vec![monitor("M", 1, 10, vec![desktop("d", 10, 0, Some(root))])],
    };
    let out = render(&state, &settings(None, vec![]), &vec![]);
    assert!(out.contains("a \u{207f}"));
}
