//! GTK action groups: paths, introspection and action names.
use waydriver::gaction::{
    action_scope, address_for, base_path_for, extract_attr_value, is_candidate_name, list_all,
    parse_action, parse_child_node_names, window_paths, ActionScope, AppScan, Discovery,
    DiscoveryAction, ScanStep, WindowSearch, DISCOVERY_ATTEMPTS,
};
use waydriver::Error;

#[test]
fn base_path_maps_dots_and_hyphens() {
    assert_eq!(
        base_path_for("io.github.bohdantkachenko.waydriver.FixtureGtk"),
        "/io/github/bohdantkachenko/waydriver/FixtureGtk"
    );
    // Hyphens are illegal in D-Bus path elements; GLib maps them to `_`.
    assert_eq!(
        base_path_for("org.gnome.gedit-test"),
        "/org/gnome/gedit_test"
    );
    assert_eq!(base_path_for("a"), "/a");
}

#[test]
fn parse_action_plain() {
    let p = parse_action("app.quit").unwrap();
    assert_eq!(p.group, "app");
    assert_eq!(p.name, "quit");
    assert_eq!(p.target, None);
}

#[test]
fn parse_action_window_group() {
    let p = parse_action("win.close").unwrap();
    assert_eq!(p.group, "win");
    assert_eq!(p.name, "close");
    assert_eq!(p.target, None);
}

#[test]
fn parse_action_string_target() {
    // GMenu detailed-name form, e.g. `app.section::adw`.
    let p = parse_action("app.section::adw").unwrap();
    assert_eq!(p.group, "app");
    assert_eq!(p.name, "section");
    assert_eq!(p.target.as_deref(), Some("adw"));
}

#[test]
fn parse_action_dotted_name_splits_on_first_dot() {
    // Action names may themselves contain dots; only the first `.`
    // separates the group from the name.
    let p = parse_action("app.preferences.open").unwrap();
    assert_eq!(p.group, "app");
    assert_eq!(p.name, "preferences.open");
}

#[test]
fn parse_action_requires_group_prefix() {
    assert!(parse_action("quit").is_err());
    assert!(parse_action("app.").is_err());
    assert!(parse_action(".quit").is_err());
}

#[test]
fn parse_child_nodes_extracts_window_ids() {
    // Representative GDBus introspection reply for `<base>/window`.
    let xml = r#"<!DOCTYPE node PUBLIC "-//freedesktop//DTD D-BUS Object Introspection 1.0//EN" "http://www.freedesktop.org/standards/dbus/1.0/introspect.dtd">
<node>
  <node name="1"/>
  <node name="2"/>
</node>"#;
    assert_eq!(parse_child_node_names(xml), vec!["1", "2"]);
}

#[test]
fn parse_child_nodes_ignores_interfaces_and_root() {
    // Introspecting a leaf object: an `<interface>` with members must not
    // be mistaken for a child node, and the unnamed root is skipped.
    let xml = r#"<node>
  <interface name="org.gtk.Actions">
    <method name="Activate">
      <arg type="s" name="action_name" direction="in"/>
    </method>
  </interface>
  <node name="window"/>
</node>"#;
    assert_eq!(parse_child_node_names(xml), vec!["window"]);
}

#[test]
fn parse_child_nodes_empty_when_no_children() {
    let xml = r#"<node><interface name="org.gtk.Actions"></interface></node>"#;
    assert!(parse_child_node_names(xml).is_empty());
}

#[test]
fn extract_attr_value_handles_both_quote_styles() {
    assert_eq!(
        extract_attr_value(r#" name="1"/"#, "name").as_deref(),
        Some("1")
    );
    assert_eq!(
        extract_attr_value(r#" name='win'/"#, "name").as_deref(),
        Some("win")
    );
}

#[test]
fn attribute_may_follow_any_white_space() {
    assert_eq!(
        extract_attr_value("node\n\tname=\"7\"", "name").as_deref(),
        Some("7")
    );
    assert_eq!(extract_attr_value("node filename=\"7\"", "name"), None);
    assert_eq!(extract_attr_value("node name=7", "name"), None);
}

#[test]
fn addresses_and_candidates() {
    let a = address_for("org.example.My-App");
    assert_eq!(a.bus_name, "org.example.My-App");
    assert_eq!(a.base_path, "/org/example/My_App");
    assert!(is_candidate_name("org.example.App"));
    assert!(!is_candidate_name(":1.42"));
    assert!(!is_candidate_name("org.freedesktop.DBus"));
}

#[test]
fn action_groups_are_app_and_win() {
    let app = parse_action("app.quit").unwrap();
    assert_eq!(action_scope(&app, "app.quit").unwrap(), ActionScope::Application);
    let win = parse_action("win.close").unwrap();
    assert_eq!(action_scope(&win, "win.close").unwrap(), ActionScope::Window);
    let other = parse_action("doc.save").unwrap();
    match action_scope(&other, "doc.save").unwrap_err() {
        Error::Atspi { message, source } => {
            assert_eq!(
                message,
                "org.gtk.Actions: unsupported action group \"doc\" in \"doc.save\"; only \"app\" and \"win\" are addressable"
            );
            assert_eq!(source, None);
        }
        e => panic!("unexpected {e:?}"),
    }
}

#[test]
fn window_paths_come_from_introspection_or_default() {
    assert_eq!(window_paths("/a", None), vec!["/a/window/1"]);
    assert_eq!(
        window_paths("/a", Some("<node></node>".to_string())),
        vec!["/a/window/1"]
    );
    assert_eq!(
        window_paths("/a", Some("<node><node name=\"3\"/><node name='5'/></node>".to_string())),
        vec!["/a/window/3", "/a/window/5"]
    );
}

#[test]
fn window_action_goes_to_the_first_window_that_has_it() {
    let paths = vec!["/w/1".to_string(), "/w/2".to_string(), "/w/3".to_string()];
    let mut s = WindowSearch::new(paths, "close");
    assert_eq!(s.next().unwrap(), "/w/1");
    assert!(!s.answered(None));
    assert_eq!(s.next().unwrap(), "/w/2");
    assert!(!s.answered(Some(vec!["open".to_string()])));
    assert_eq!(s.next().unwrap(), "/w/3");
    assert!(s.answered(Some(vec!["open".to_string(), "close".to_string()])));
    assert_eq!(s.next().unwrap(), "/w/3");
}

#[test]
fn window_action_that_no_window_has_is_an_error() {
    let mut s = WindowSearch::new(vec!["/w/1".to_string()], "close");
    assert!(!s.answered(Some(vec![])));
    match s.next().unwrap_err() {
        Error::Atspi { message, .. } => assert_eq!(
            message,
            "org.gtk.Actions: win action \"close\" not found on any application window (1 window path(s) checked)"
        ),
        e => panic!("unexpected {e:?}"),
    }
}

#[test]
fn listing_names_window_actions_once() {
    let app = vec!["quit".to_string(), "about".to_string()];
    let windows = vec![
        Some(vec!["close".to_string(), "zoom".to_string()]),
        None,
        Some(vec!["zoom".to_string(), "undo".to_string()]),
    ];
    assert_eq!(
        list_all(&app, &windows),
        vec!["app.quit", "app.about", "win.close", "win.zoom", "win.undo"]
    );
}

#[test]
fn discovery_gives_up_with_the_last_error() {
    let mut d = Discovery::new();
    for _ in 1..DISCOVERY_ATTEMPTS {
        assert!(matches!(d.missed(None, 7), DiscoveryAction::Rescan));
    }
    match d.missed(None, 7) {
        DiscoveryAction::Fail(Error::Atspi { message, .. }) => assert_eq!(
            message,
            "org.gtk.Actions: no application owned by pid 7 found on the session bus (the app may not be a registered GApplication with an id)"
        ),
        _ => panic!("should give up"),
    }

    let mut d = Discovery::new();
    assert!(matches!(
        d.missed(Some(Error::Zbus("down".to_string())), 7),
        DiscoveryAction::Rescan
    ));
    for _ in 2..DISCOVERY_ATTEMPTS {
        assert!(matches!(d.missed(None, 7), DiscoveryAction::Rescan));
    }
    assert!(matches!(
        d.missed(None, 7),
        DiscoveryAction::Fail(Error::Zbus(_))
    ));
}

fn answers(scan: &mut AppScan, owner: u32, exports: &str) -> Vec<String> {
    let mut asked = Vec::new();
    loop {
        match scan.next() {
            ScanStep::AskOwner(name) => {
                asked.push(name);
                scan.owner(Some(owner));
            }
            ScanStep::AskActions(addr) => {
                let answered = addr.bus_name == exports;
                asked.push(addr.base_path);
                scan.actions(answered);
            }
            ScanStep::Found(addr) => {
                asked.push(format!("found {}", addr.bus_name));
                return asked;
            }
            ScanStep::Exhausted => return asked,
        }
    }
}

#[test]
fn scan_asks_candidates_in_order_until_one_answers() {
    let names: Vec<String> = [":1.1", "org.freedesktop.DBus", "org.a", "org.b", "org.c"]
        .iter()
        .map(|s| s.to_string())
        .collect();
    let mut scan = AppScan::new(&names, 7);
    assert_eq!(
        answers(&mut scan, 7, "org.b"),
        vec!["org.a", "/org/a", "org.b", "/org/b", "found org.b"]
    );
}

#[test]
fn scan_passes_over_names_of_other_processes() {
    let names = vec!["org.a".to_string(), "org.b".to_string()];
    let mut scan = AppScan::new(&names, 7);
    assert_eq!(answers(&mut scan, 8, "org.b"), vec!["org.a", "org.b"]);
    let mut silent = AppScan::new(&names, 7);
    assert!(matches!(silent.next(), ScanStep::AskOwner(n) if n == "org.a"));
    silent.owner(None);
    assert!(matches!(silent.next(), ScanStep::AskOwner(n) if n == "org.b"));
    silent.owner(None);
    assert!(matches!(silent.next(), ScanStep::Exhausted));
    assert!(matches!(
        AppScan::new(&vec![":1.4".to_string()], 7).next(),
        ScanStep::Exhausted
    ));
}
