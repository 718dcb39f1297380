//! The accessibility tree: names, documents, selectors and replies.
use waydriver::atspi::{
    action_outcome, bus_or, cache_raw_role_name, cache_role_name, element_role_fields,
    emitted_state_names, emitted_states, extents_from_reply, focus_outcome, is_builtin,
    is_stale_error_name, is_state_attr, join_labels, map_action_err, request_result,
    role_or_unknown, role_to_element_name, sanitize_attr_key, selected_name,
    snapshot_cache_has_attr, tag_of_role, tolerate, xml_escape, ActionOutcome, BusFailure,
    FocusOutcome, Request, State, StateSet,
};
use waydriver::cache::{
    cache_items, cached_accessible, label_target, render_cache_snapshot, snapshot_tree_from_cache,
    CacheItem, CacheSnapshotNode,
};
use waydriver::query::{
    can_run, evaluate_xpath, evaluate_xpath_detailed, query_outcome, run_query,
    selector_uses_prefix, QueryElement,
};
use waydriver::snapshot::{
    asks_for_children, assemble_node, serialize_node, snapshot_document, NodeMap, NodeReplies,
    RawNode, SubtreeWalk, MAX_DEPTH,
};
use waydriver::{Error, Rect};

fn cnode(
    path: &str,
    parent: Option<&str>,
    index: i32,
    role: &str,
    name: &str,
    states: StateSet,
) -> CacheSnapshotNode {
    CacheSnapshotNode {
        bus: ":1.5".to_string(),
        path: path.to_string(),
        parent_path: parent.map(str::to_string),
        index_in_parent: index,
        raw_role: role.to_string(),
        name: name.to_string(),
        states,
    }
}

#[allow(clippy::too_many_arguments)]
fn raw(
    bus: &str,
    path: &str,
    depth: usize,
    role: &str,
    name: &str,
    states: StateSet,
    attrs: &[(&str, &str)],
    bounds: Option<Rect>,
    had_children: bool,
    children: &[(&str, &str)],
) -> RawNode {
    RawNode {
        bus: bus.to_string(),
        path: path.to_string(),
        depth,
        raw_role: role.to_string(),
        name: name.to_string(),
        description: String::new(),
        states,
        attrs: attrs
            .iter()
            .map(|(k, v)| (k.to_string(), v.to_string()))
            .collect(),
        bounds,
        had_children,
        children: children
            .iter()
            .map(|(b, p)| (b.to_string(), p.to_string()))
            .collect(),
    }
}

fn key(bus: &str, path: &str) -> (String, String) {
    (bus.to_string(), path.to_string())
}

fn method_error(name: &str) -> BusFailure {
    BusFailure::Method {
        name: name.to_string(),
        text: "no such thing".to_string(),
    }
}

#[test]
fn map_action_err_treats_io_timeout_as_stale() {
    // A transport-level I/O timeout (a not-yet-ready a11y bridge, e.g. a
    // second window's Text interface) must map to a retriable ElementStale,
    // not a terminal Atspi error.
    let err = BusFailure::TimedOut {
        text: "timed out".to_string(),
    };
    let mapped = map_action_err(
        "(//Terminal)[2]",
        ":1.42",
        "/org/a11y/atspi/accessible/7",
        &err,
    );
    assert!(
        matches!(mapped, Error::ElementStale { .. }),
        "got {mapped:?}"
    );
}

#[test]
fn map_action_err_keeps_non_timeout_io_terminal() {
    // A hard transport failure (connection reset) isn't recoverable by
    // retrying, so it stays a terminal Atspi error.
    let err = BusFailure::Other {
        text: "reset".to_string(),
    };
    let mapped = map_action_err("//Terminal", ":1.7", "/org/a11y/atspi/accessible/3", &err);
    assert!(
        !matches!(mapped, Error::ElementStale { .. }),
        "got {mapped:?}"
    );
}

#[test]
fn cache_role_name_unknown_index_is_labelled_not_rejected() {
    // The reporter's exact case: atspi 0.29's Role enum stops at 129, so a
    // newer at-spi2 core's role 130 (`ATSPI_ROLE_SWITCH`) must round-trip
    // as a stable label instead of blanking the whole Cache.GetItems reply.
    assert_eq!(cache_role_name(130), "unknown-role-130");
    assert_eq!(cache_role_name(9999), "unknown-role-9999");
}

#[test]
fn cache_role_name_known_index_resolves_through_element_table() {
    let frame = cache_role_name(atspi::Role::Frame as u32);
    assert_eq!(frame, "Frame");
    assert!(!frame.starts_with("unknown-role-"));
}

#[test]
fn render_cache_snapshot_builds_ordered_tree() {
    // Children supplied out of order; renderer must sort by
    // index_in_parent so XPath positional predicates stay correct.
    let nodes = vec![
        cnode("/root", None, 0, "frame", "win", StateSet::empty()),
        cnode(
            "/b",
            Some("/root"),
            1,
            "push button",
            "second",
            StateSet::new(vec![State::Focused]),
        ),
        cnode(
            "/a",
            Some("/root"),
            0,
            "push button",
            "first",
            StateSet::empty(),
        ),
    ];
    let xml = render_cache_snapshot(nodes, "/root");

    // Format parity with the walk: PascalCase tag, raw role attr,
    // name attr, _ref, and the focused state surfaced as an attribute.
    assert!(xml.contains(r#"<Frame role="frame" name="win" _ref=":1.5|/root">"#));
    assert!(xml.contains(r#"name="first" _ref=":1.5|/a"#));
    assert!(xml.contains(r#"focused="true""#));
    // Sibling order follows index, not insertion order.
    let first = xml.find("first").expect("first present");
    let second = xml.find("second").expect("second present");
    assert!(first < second, "children must render in index order");
    // The cache carries no bounds or toolkit attrs — none emitted.
    assert!(!xml.contains("bbox="));
}

#[test]
fn render_cache_snapshot_tolerates_parent_cycle() {
    // Two nodes naming each other as parent must not infinite-loop;
    // the visited-guard breaks the cycle and the render terminates.
    let nodes = vec![
        cnode("/x", Some("/y"), 0, "panel", "x", StateSet::empty()),
        cnode("/y", Some("/x"), 0, "panel", "y", StateSet::empty()),
    ];
    let xml = render_cache_snapshot(nodes, "/x");
    assert!(xml.contains("_ref=\":1.5|/x\""));
}

#[test]
fn render_cache_snapshot_unknown_root_yields_header_only() {
    let nodes = vec![cnode("/a", None, 0, "panel", "a", StateSet::empty())];
    let xml = render_cache_snapshot(nodes, "/missing");
    assert!(xml.contains("<?xml"));
    assert!(!xml.contains("_ref="));
}

#[test]
fn role_to_element_name_basic() {
    assert_eq!(
        role_to_element_name("push button").as_deref(),
        Some("PushButton")
    );
    assert_eq!(
        role_to_element_name("menu item").as_deref(),
        Some("MenuItem")
    );
    assert_eq!(role_to_element_name("window").as_deref(), Some("Window"));
    assert_eq!(role_to_element_name("panel").as_deref(), Some("Panel"));
    assert_eq!(
        role_to_element_name("application").as_deref(),
        Some("Application")
    );
}

#[test]
fn role_to_element_name_weird() {
    // Empty → None
    assert_eq!(role_to_element_name(""), None);
    // Role with only whitespace → None
    assert_eq!(role_to_element_name("   "), None);
}

#[test]
fn sanitize_attr_key_clean() {
    assert_eq!(sanitize_attr_key("id").as_deref(), Some("id"));
    assert_eq!(sanitize_attr_key("xml-roles").as_deref(), Some("xml-roles"));
}

#[test]
fn sanitize_attr_key_collides_with_reserved() {
    assert_eq!(sanitize_attr_key("name").as_deref(), Some("_name"));
    assert_eq!(sanitize_attr_key("role").as_deref(), Some("_role"));
    assert_eq!(sanitize_attr_key("_ref").as_deref(), Some("__ref"));
}

#[test]
fn sanitize_attr_key_replaces_bad_chars() {
    assert_eq!(sanitize_attr_key("foo:bar").as_deref(), Some("foo_bar"));
    assert_eq!(sanitize_attr_key("a/b c").as_deref(), Some("a_b_c"));
}

#[test]
fn xml_escape_basic() {
    assert_eq!(xml_escape("<a&b>\"'"), "&lt;a&amp;b&gt;&quot;&apos;");
    assert_eq!(xml_escape("hello"), "hello");
}

#[test]
fn serialize_node_matches_sequential_format() {
    // A frame with two resolvable children and one that failed to build
    // (absent from the map → skipped, exactly as the old walk's `continue`).
    let mut nodes = NodeMap::new();
    nodes.insert(
        key("app", "/root"),
        raw(
            "app",
            "/root",
            0,
            "frame",
            "Main",
            StateSet::empty(),
            &[],
            Some(Rect {
                x: 0,
                y: 0,
                width: 100,
                height: 50,
            }),
            true,
            &[("app", "/a"), ("app", "/b"), ("app", "/missing")],
        ),
    );
    nodes.insert(
        key("app", "/a"),
        raw(
            "app",
            "/a",
            1,
            "push button",
            "OK",
            StateSet::new(vec![State::Showing, State::Enabled]),
            &[("toolkit", "gtk")],
            None,
            false,
            &[],
        ),
    );
    nodes.insert(
        key("app", "/b"),
        raw(
            "app",
            "/b",
            1,
            "label",
            "",
            StateSet::empty(),
            &[],
            None,
            false,
            &[],
        ),
    );

    let mut out = String::new();
    serialize_node(&nodes, &key("app", "/root"), 0, &mut out);

    // Note the exact shape: role always present; name only when non-empty;
    // states in EMITTED_STATES order; bbox when bounds present; toolkit
    // attrs after; `_ref` last; 2-space indent per depth; self-closing
    // leaves; the unresolved `/missing` child contributes nothing.
    let expected = [
        "<Frame role=\"frame\" name=\"Main\" bbox=\"0,0,100,50\" _ref=\"app|/root\">\n",
        "  <PushButton role=\"push button\" name=\"OK\" showing=\"true\" enabled=\"true\" toolkit=\"gtk\" _ref=\"app|/a\"/>\n",
        "  <Label role=\"label\" _ref=\"app|/b\"/>\n",
        "</Frame>\n",
    ]
    .concat();
    assert_eq!(out, expected);
}

#[test]
fn serialize_node_emits_description_after_name() {
    // The `accessible-description` is emitted as a `description=` attribute,
    // positioned right after `name` and only when non-empty (issue #55).
    let mut nodes = NodeMap::new();
    let mut node = raw(
        "app",
        "/btn",
        0,
        "push button",
        "Close Search",
        StateSet::empty(),
        &[],
        None,
        false,
        &[],
    );
    node.description = "Close the search bar".to_string();
    nodes.insert(key("app", "/btn"), node);

    let mut out = String::new();
    serialize_node(&nodes, &key("app", "/btn"), 0, &mut out);
    assert_eq!(
        out,
        "<PushButton role=\"push button\" name=\"Close Search\" \
         description=\"Close the search bar\" _ref=\"app|/btn\"/>\n"
    );

    // Detailed XPath evaluation surfaces it on ElementInfo, and the
    // description attribute is treated as a builtin (not a toolkit attr).
    let infos = evaluate_xpath_detailed(&out, "//PushButton").unwrap();
    assert_eq!(infos.len(), 1);
    assert_eq!(
        infos[0].description.as_deref(),
        Some("Close the search bar")
    );
    assert!(!infos[0].attributes.contains_key("description"));
}

#[test]
fn serialize_node_opens_and_closes_when_children_unresolved() {
    // had_children=true but every child ref is absent from the map (all
    // failed to build) → an open+close pair, never self-closed. Mirrors the
    // old walk, whose self-close decision keyed off the *raw* GetChildren
    // reply being non-empty, not on the children resolving.
    let mut nodes = NodeMap::new();
    nodes.insert(
        key("app", "/p"),
        raw(
            "app",
            "/p",
            0,
            "panel",
            "",
            StateSet::empty(),
            &[],
            None,
            true,
            &[("app", "/gone")],
        ),
    );
    let mut out = String::new();
    serialize_node(&nodes, &key("app", "/p"), 0, &mut out);
    assert_eq!(out, "<Panel role=\"panel\" _ref=\"app|/p\">\n</Panel>\n");
}

#[test]
fn serialize_node_self_closes_past_depth_cap() {
    // Rendered past the depth cap, a node self-closes and does not recurse
    // even though it has children in the map — the guard that terminates a
    // cyclic tree (the fetch keys on path, so a cycle is captured once and
    // rendering, not fetching, bounds the expansion).
    let mut nodes = NodeMap::new();
    nodes.insert(
        key("app", "/deep"),
        raw(
            "app",
            "/deep",
            MAX_DEPTH + 1,
            "panel",
            "",
            StateSet::empty(),
            &[],
            None,
            true,
            &[("app", "/child")],
        ),
    );
    nodes.insert(
        key("app", "/child"),
        raw(
            "app",
            "/child",
            MAX_DEPTH + 2,
            "label",
            "childname",
            StateSet::empty(),
            &[],
            None,
            false,
            &[],
        ),
    );

    let mut out = String::new();
    serialize_node(&nodes, &key("app", "/deep"), MAX_DEPTH + 1, &mut out);

    assert!(
        out.trim_end().ends_with("/>"),
        "node past the depth cap should self-close: {out:?}"
    );
    assert!(
        !out.contains("/child") && !out.contains("childname"),
        "must not recurse past the depth cap: {out:?}"
    );
}

#[test]
fn evaluate_xpath_finds_by_name() {
    let xml = r#"<?xml version="1.0"?>
<Application name="calc" _ref="bus|/root">
  <Window name="Calculator" _ref="bus|/w1">
    <PushButton name="7" _ref="bus|/b7"/>
    <PushButton name="+" _ref="bus|/bplus"/>
  </Window>
</Application>"#;
    let hits = evaluate_xpath(xml, "//PushButton[@name='7']").unwrap();
    assert_eq!(hits, vec![("bus".to_string(), "/b7".to_string())]);
}

#[test]
fn evaluate_xpath_multiple_matches() {
    let xml = r#"<?xml version="1.0"?>
<Application _ref="bus|/root">
  <PushButton name="OK" _ref="bus|/b1"/>
  <Dialog _ref="bus|/d1">
    <PushButton name="OK" _ref="bus|/b2"/>
  </Dialog>
</Application>"#;
    let hits = evaluate_xpath(xml, "//PushButton[@name='OK']").unwrap();
    assert_eq!(hits.len(), 2);
    assert_eq!(hits[0].1, "/b1");
    assert_eq!(hits[1].1, "/b2");
}

#[test]
fn evaluate_xpath_scoped_descendant() {
    let xml = r#"<?xml version="1.0"?>
<Application _ref="bus|/root">
  <PushButton name="OK" _ref="bus|/b1"/>
  <Dialog name="Confirm" _ref="bus|/d1">
    <PushButton name="OK" _ref="bus|/b2"/>
  </Dialog>
</Application>"#;
    let hits = evaluate_xpath(xml, "//Dialog[@name='Confirm']//PushButton").unwrap();
    assert_eq!(hits, vec![("bus".to_string(), "/b2".to_string())]);
}

#[test]
fn evaluate_xpath_invalid_syntax() {
    let xml = r#"<?xml version="1.0"?><Application _ref="bus|/root"/>"#;
    let err = evaluate_xpath(xml, "//[").unwrap_err();
    assert!(matches!(err, Error::InvalidSelector { .. }));
}

#[test]
fn both_evaluations_fail_alike() {
    let xml = r#"<?xml version="1.0"?><Application _ref="bus|/root"/>"#;
    for (xml, xpath) in [(xml, "//["), (xml, ""), ("<Application", "//*"), ("", "//[")] {
        let err = evaluate_xpath(xml, xpath).unwrap_err();
        assert_eq!(err, evaluate_xpath_detailed(xml, xpath).unwrap_err());
    }
}

#[test]
fn evaluate_xpath_detailed_extracts_full_metadata() {
    let xml = r#"<?xml version="1.0"?>
<Application _ref="bus|/root">
  <PushButton name="Submit" showing="true" enabled="true" id="btn-submit" _ref="bus|/b1"/>
</Application>"#;
    let hits = evaluate_xpath_detailed(xml, "//PushButton").unwrap();
    assert_eq!(hits.len(), 1);
    let h = &hits[0];
    assert_eq!(h.ref_, ("bus".to_string(), "/b1".to_string()));
    assert_eq!(h.role, "PushButton");
    assert_eq!(h.role_raw, None);
    assert_eq!(h.name.as_deref(), Some("Submit"));
    assert_eq!(
        h.attributes.get("id").map(String::as_str),
        Some("btn-submit")
    );
    assert!(h.states.iter().any(|s| s == "showing"));
    assert!(h.states.iter().any(|s| s == "enabled"));
}

#[test]
fn evaluate_xpath_detailed_separates_states_from_attrs() {
    // `showing` and `enabled` are emitted state attrs; `id` is a toolkit attr;
    // `xml-roles` is a toolkit attr. Ensure they land in the right bucket.
    let xml = r#"<?xml version="1.0"?>
<Application _ref="bus|/root">
  <PushButton name="X" showing="true" enabled="true" id="x" xml-roles="button" _ref="bus|/b"/>
</Application>"#;
    let hits = evaluate_xpath_detailed(xml, "//PushButton").unwrap();
    let h = &hits[0];
    // Exactly the two state attrs should appear in `states`; no toolkit attrs.
    assert!(h.states.iter().any(|s| s == "showing"));
    assert!(h.states.iter().any(|s| s == "enabled"));
    assert!(!h.states.iter().any(|s| s == "id"));
    assert!(!h.states.iter().any(|s| s == "xml-roles"));
    // Exactly the two toolkit attrs should be in `attributes`; no state names.
    assert_eq!(h.attributes.get("id").map(String::as_str), Some("x"));
    assert_eq!(
        h.attributes.get("xml-roles").map(String::as_str),
        Some("button")
    );
    assert!(!h.attributes.contains_key("showing"));
    assert!(!h.attributes.contains_key("enabled"));
}

#[test]
fn evaluate_xpath_detailed_state_false_not_emitted() {
    // The snapshotter only emits state attrs when they're set. A serialized
    // `showing="false"` (shouldn't happen, but test the read side anyway)
    // must NOT land in `states` because the parser only accepts "true".
    let xml = r#"<?xml version="1.0"?>
<Application _ref="bus|/root">
  <PushButton showing="false" _ref="bus|/b"/>
</Application>"#;
    let hits = evaluate_xpath_detailed(xml, "//PushButton").unwrap();
    assert!(hits[0].states.is_empty());
}

#[test]
fn evaluate_xpath_detailed_node_fallback_preserves_raw_role() {
    // When the snapshotter couldn't turn a role into a valid XML name,
    // it emits `<Node role="...">`. The detailed extractor should surface
    // both `role="Node"` and `role_raw=Some("original")`.
    let xml = r#"<?xml version="1.0"?>
<Application _ref="bus|/root">
  <Node role="0weird" name="odd" _ref="bus|/x"/>
</Application>"#;
    let hits = evaluate_xpath_detailed(xml, "//Node").unwrap();
    assert_eq!(hits[0].role, "Node");
    assert_eq!(hits[0].role_raw.as_deref(), Some("0weird"));
    assert_eq!(hits[0].name.as_deref(), Some("odd"));
}

#[test]
fn evaluate_xpath_detailed_absent_name_is_none() {
    let xml = r#"<?xml version="1.0"?>
<Application _ref="bus|/root">
  <Panel _ref="bus|/p"/>
</Application>"#;
    let hits = evaluate_xpath_detailed(xml, "//Panel").unwrap();
    assert_eq!(hits[0].name, None);
}

#[test]
fn evaluate_xpath_detailed_returns_document_order() {
    let xml = r#"<?xml version="1.0"?>
<Application _ref="bus|/root">
  <PushButton name="A" _ref="bus|/a"/>
  <Dialog _ref="bus|/d">
    <PushButton name="B" _ref="bus|/b"/>
  </Dialog>
  <PushButton name="C" _ref="bus|/c"/>
</Application>"#;
    let hits = evaluate_xpath_detailed(xml, "//PushButton").unwrap();
    let names: Vec<&str> = hits.iter().filter_map(|h| h.name.as_deref()).collect();
    assert_eq!(names, vec!["A", "B", "C"]);
}

#[test]
fn evaluate_xpath_detailed_invalid_selector() {
    let xml = r#"<?xml version="1.0"?><Application _ref="bus|/root"/>"#;
    let err = evaluate_xpath_detailed(xml, "//[").unwrap_err();
    assert!(matches!(err, Error::InvalidSelector { .. }));
}

#[test]
fn is_stale_error_name_recognizes_atspi_error_names() {
    // The three D-Bus error names that surface when a widget is gone.
    assert!(is_stale_error_name(
        "org.freedesktop.DBus.Error.UnknownObject"
    ));
    assert!(is_stale_error_name(
        "org.freedesktop.DBus.Error.ServiceUnknown"
    ));
    assert!(is_stale_error_name("org.freedesktop.DBus.Error.NoReply"));
}

#[test]
fn is_stale_error_name_rejects_unrelated_errors() {
    // Real-world non-stale error names shouldn't produce false positives.
    assert!(!is_stale_error_name(
        "org.freedesktop.DBus.Error.InvalidArgs"
    ));
    assert!(!is_stale_error_name(
        "org.freedesktop.DBus.Error.AccessDenied"
    ));
    assert!(!is_stale_error_name("org.a11y.atspi.Error.SomethingElse"));
    assert!(!is_stale_error_name(""));
}

#[test]
fn rect_bbox_roundtrip() {
    let r = Rect {
        x: 10,
        y: 20,
        width: 100,
        height: 30,
    };
    assert_eq!(r.to_bbox_string(), "10,20,100,30");
    assert_eq!(Rect::parse_bbox("10,20,100,30"), Some(r));
}

#[test]
fn rect_bbox_handles_negative_coords() {
    // Scrolled-off-screen elements report negative offsets.
    let r = Rect::parse_bbox("-50,-10,200,40").unwrap();
    assert_eq!(r.x, -50);
    assert_eq!(r.y, -10);
    assert_eq!(r.width, 200);
    assert_eq!(r.height, 40);
}

#[test]
fn rect_bbox_rejects_malformed() {
    // Missing components — treated as "no bounds" rather than a panic
    // so a malformed snapshot attribute doesn't poison downstream callers.
    assert_eq!(Rect::parse_bbox(""), None);
    assert_eq!(Rect::parse_bbox("10,20,30"), None);
    assert_eq!(Rect::parse_bbox("10,20,30,40,50"), None);
    assert_eq!(Rect::parse_bbox("a,b,c,d"), None);
    assert_eq!(Rect::parse_bbox("10;20;30;40"), None);
}

#[test]
fn evaluate_xpath_detailed_populates_bounds_when_bbox_present() {
    let xml = r#"<?xml version="1.0"?>
<Application name="app" _ref="bus|/app">
  <Button role="button" name="ok" showing="true" bbox="12,34,100,28"
          _ref="bus|/ok"/>
  <Button role="button" name="no-bbox" _ref="bus|/none"/>
</Application>"#;
    let matches = evaluate_xpath_detailed(xml, "//Button").unwrap();
    assert_eq!(matches.len(), 2);
    let ok = &matches[0];
    assert_eq!(ok.name.as_deref(), Some("ok"));
    assert_eq!(
        ok.bounds,
        Some(Rect {
            x: 12,
            y: 34,
            width: 100,
            height: 28,
        })
    );
    let no_bbox = &matches[1];
    assert!(no_bbox.bounds.is_none());
    // bbox attribute should not leak into the generic attributes map
    // (it's in SNAPSHOT_BUILTINS).
    assert!(!ok.attributes.contains_key("bbox"));
}

#[test]
fn rect_is_inside_fully_contained() {
    let outer = Rect {
        x: 0,
        y: 0,
        width: 1024,
        height: 768,
    };
    let inner = Rect {
        x: 100,
        y: 200,
        width: 50,
        height: 20,
    };
    assert!(inner.is_inside(&outer));
}

#[test]
fn rect_is_inside_partial_overlap_left() {
    let outer = Rect {
        x: 10,
        y: 10,
        width: 100,
        height: 100,
    };
    // Starts before outer.x — partially off to the left.
    let straddles = Rect {
        x: 0,
        y: 20,
        width: 30,
        height: 20,
    };
    assert!(!straddles.is_inside(&outer));
}

#[test]
fn rect_is_inside_partial_overlap_bottom() {
    let outer = Rect {
        x: 0,
        y: 0,
        width: 100,
        height: 100,
    };
    // Bottom edge (y=110) extends past outer's bottom (100).
    let straddles = Rect {
        x: 10,
        y: 90,
        width: 50,
        height: 20,
    };
    assert!(!straddles.is_inside(&outer));
}

#[test]
fn rect_is_inside_exact_match() {
    // Edge-touching counts as inside — a widget flush with its
    // viewport's edges is "in view," not partially clipped.
    let r = Rect {
        x: 5,
        y: 5,
        width: 20,
        height: 20,
    };
    assert!(r.is_inside(&r));
}

#[test]
fn rect_is_inside_disjoint() {
    let outer = Rect {
        x: 0,
        y: 0,
        width: 100,
        height: 100,
    };
    let far = Rect {
        x: 500,
        y: 500,
        width: 10,
        height: 10,
    };
    assert!(!far.is_inside(&outer));
}

#[test]
fn rect_geometry_accessors() {
    let r = Rect {
        x: 10,
        y: 20,
        width: 40,
        height: 80,
    };
    assert_eq!(r.right(), 50);
    assert_eq!(r.bottom(), 100);
    assert_eq!(r.center_x(), 30);
    assert_eq!(r.center_y(), 60);
}

#[test]
fn evaluate_xpath_detailed_malformed_bbox_yields_no_bounds() {
    // Parse errors on bbox fall through to `bounds: None` without
    // aborting the whole evaluation — a strict failure here would
    // make one bad node poison the whole snapshot.
    let xml = r#"<?xml version="1.0"?>
<Application _ref="bus|/app">
  <Button role="button" bbox="not-a-rect" _ref="bus|/b"/>
</Application>"#;
    let matches = evaluate_xpath_detailed(xml, "//Button").unwrap();
    assert_eq!(matches.len(), 1);
    assert!(matches[0].bounds.is_none());
}

// ── Roles and names ─────────────────────────────────────────────────────────

#[test]
fn role_table_ends_at_129() {
    assert_eq!(cache_raw_role_name(atspi::Role::Frame as u32), "frame");
    assert_eq!(
        cache_raw_role_name(atspi::Role::Button as u32),
        atspi::Role::Button.name()
    );
    assert!(!cache_role_name(129).starts_with("unknown-role-"));
    assert_eq!(cache_raw_role_name(130), "unknown-role-130");
}

#[test]
fn role_names_become_tags() {
    assert_eq!(tag_of_role("check menu item"), "CheckMenuItem");
    assert_eq!(tag_of_role("9 lives"), "Node");
    assert_eq!(
        element_role_fields("push button"),
        ("PushButton".to_string(), Some("push button".to_string()))
    );
    assert_eq!(role_to_element_name("über uns"), None);
    assert_eq!(role_or_unknown(None), "unknown");
    assert_eq!(role_or_unknown(Some("label".to_string())), "label");
}

#[test]
fn attribute_keys_that_are_no_names_get_an_underscore_or_none() {
    assert_eq!(sanitize_attr_key(""), None);
    assert_eq!(sanitize_attr_key("1st").as_deref(), Some("_1st"));
    assert_eq!(sanitize_attr_key("clé").as_deref(), Some("cl_"));
}

#[test]
fn characters_that_a_document_cannot_hold_are_dropped() {
    assert_eq!(xml_escape("a\u{1}b\tc\nd"), "ab\tc\nd");
}

#[test]
fn emitted_states_have_names() {
    assert_eq!(emitted_states().len(), 17);
    let set = StateSet::new(vec![State::Modal, State::Showing, State::Showing]);
    assert_eq!(emitted_state_names(&set), vec!["showing", "modal"]);
    assert!(set.contains(State::Modal));
    assert!(!set.contains(State::Checked));
    for s in emitted_states() {
        assert!(is_state_attr(s.attr_name()));
        assert!(is_builtin(s.attr_name()) || is_state_attr(s.attr_name()));
    }
    assert!(!is_state_attr("id"));
    assert!(is_builtin("bbox"));
    assert!(!snapshot_cache_has_attr("id"));
    assert!(snapshot_cache_has_attr("name"));
}

// ── Documents ───────────────────────────────────────────────────────────────

fn replies(role: &str, children: Vec<(Option<String>, String)>) -> NodeReplies {
    NodeReplies {
        role: Some(role.to_string()),
        name: Some("n".to_string()),
        description: None,
        states: Some(StateSet::new(vec![State::Showing])),
        attrs: Some(vec![("id".to_string(), "x".to_string())]),
        extents: Ok((1, 2, 3, 4)),
        children: Some(children),
    }
}

#[test]
fn failed_reads_count_as_empty() {
    let node = assemble_node(
        "b".to_string(),
        "/p".to_string(),
        0,
        NodeReplies {
            role: None,
            name: None,
            description: None,
            states: None,
            attrs: None,
            extents: Err(BusFailure::Other {
                text: "down".to_string(),
            }),
            children: None,
        },
    );
    assert_eq!(node.raw_role, "unknown");
    assert_eq!(node.name, "");
    assert!(node.attrs.is_empty());
    assert_eq!(node.bounds, None);
    assert!(!node.had_children);
}

#[test]
fn children_without_a_bus_name_are_reported_but_not_resolved() {
    let node = assemble_node(
        "b".to_string(),
        "/p".to_string(),
        3,
        replies("panel", vec![(None, "/x".to_string())]),
    );
    assert!(node.had_children);
    assert!(node.children.is_empty());
    assert_eq!(
        node.bounds,
        Some(Rect {
            x: 1,
            y: 2,
            width: 3,
            height: 4
        })
    );
}

#[test]
fn nodes_beyond_the_depth_cap_are_not_asked_for_children() {
    assert!(asks_for_children(MAX_DEPTH));
    assert!(!asks_for_children(MAX_DEPTH + 1));
    let deep = assemble_node(
        "b".to_string(),
        "/p".to_string(),
        MAX_DEPTH + 1,
        replies("panel", vec![(Some("b".to_string()), "/x".to_string())]),
    );
    assert!(!deep.had_children);
    assert!(deep.children.is_empty());
}

#[test]
fn extents_that_cover_no_area_are_no_bounds() {
    assert!(extents_from_reply(Ok((0, 0, 0, 0))).unwrap().is_none());
    assert!(extents_from_reply(Ok((5, 5, 10, 0))).unwrap().is_none());
    assert!(extents_from_reply(Ok((5, 5, 0, 10))).unwrap().is_none());
    assert!(extents_from_reply(Ok((5, 5, -1, -1))).unwrap().is_none());
    assert_eq!(
        extents_from_reply(Ok((5, 6, 7, 8))).unwrap(),
        Some(Rect {
            x: 5,
            y: 6,
            width: 7,
            height: 8
        })
    );
    assert!(extents_from_reply(Err(method_error("x"))).unwrap().is_none());
    assert!(extents_from_reply(Err(BusFailure::TimedOut {
        text: "t".to_string()
    }))
    .is_err());
}

#[test]
fn walk_reads_every_node_once_even_in_a_cycle() {
    let mut walk = SubtreeWalk::new("b", "/root");
    let mut order = Vec::new();
    while let Some((bus, path, depth)) = walk.next() {
        order.push((path.clone(), depth));
        let children = match path.as_str() {
            "/root" => vec!["/a", "/b", "/a"],
            "/a" => vec!["/b", "/root"],
            _ => vec![],
        };
        if path == "/b" {
            walk.record(None);
        } else {
            let refs = children
                .iter()
                .map(|c| (Some(bus.clone()), c.to_string()))
                .collect();
            walk.record(Some(assemble_node(bus, path, depth, replies("panel", refs))));
        }
    }
    assert!(walk.idle());
    assert_eq!(
        order,
        vec![
            ("/root".to_string(), 0),
            ("/a".to_string(), 1),
            ("/b".to_string(), 1)
        ]
    );
    let nodes = walk.into_nodes();
    assert!(nodes.contains_key(&key("b", "/a")));
    assert!(!nodes.contains_key(&key("b", "/b")));
    let xml = snapshot_document(&nodes, &key("b", "/root"));
    assert!(xml.starts_with("<?xml version=\"1.0\" encoding=\"UTF-8\"?>\n<Panel role=\"panel\""));
    assert!(!xml.contains("b|/b"));
}

#[test]
fn escaped_names_survive_the_way_through_a_document() {
    let name = "a<b>&\"c\"'d'";
    let mut nodes = NodeMap::new();
    nodes.insert(
        key("b", "/p"),
        raw(
            "b",
            "/p",
            0,
            "label",
            name,
            StateSet::empty(),
            &[],
            None,
            false,
            &[],
        ),
    );
    let xml = snapshot_document(&nodes, &key("b", "/p"));
    let hits = evaluate_xpath_detailed(&xml, "//Label").unwrap();
    assert_eq!(hits[0].name.as_deref(), Some(name));
    assert_eq!(hits[0].ref_, key("b", "/p"));
}

fn item(path: &str, parent: &str, index: i32, role: u32, name: &str) -> CacheItem {
    CacheItem {
        bus: None,
        path: path.to_string(),
        parent: parent.to_string(),
        index_in_parent: index,
        child_count: 0,
        name: name.to_string(),
        role,
        description: String::new(),
        states: StateSet::new(vec![State::Focused]),
    }
}

#[test]
fn cache_entries_become_accessibles() {
    let frame = atspi::Role::Frame as u32;
    let a = cached_accessible(&item("/x", "/org/a11y/atspi/null", 0, frame, ""), ":1.9", None);
    assert_eq!(a.ref_, key(":1.9", "/x"));
    assert_eq!(a.role, "Frame");
    assert_eq!(a.name, None);
    assert_eq!(a.parent_path, None);
    assert_eq!(a.states, vec!["focused"]);
    let labelled = cached_accessible(
        &item("/x", "/p", 0, 4711, ""),
        ":1.9",
        Some("label".to_string()),
    );
    assert_eq!(labelled.name.as_deref(), Some("label"));
    assert_eq!(labelled.role, "unknown-role-4711");
    assert_eq!(labelled.parent_path.as_deref(), Some("/p"));
    assert_eq!(
        label_target(&item("/x", "", 0, 0, ""), ":1.9"),
        Some(key(":1.9", "/x"))
    );
    assert_eq!(label_target(&item("/x", "", 0, 0, "n"), ":1.9"), None);
}

#[test]
fn cache_entries_become_a_document() {
    let frame = atspi::Role::Frame as u32;
    let items = vec![
        item("/b", "/root", 1, 130, "second"),
        item("/root", "", 0, frame, "win"),
        item("/a", "/root", 0, frame, "first"),
    ];
    let xml = snapshot_tree_from_cache(&items, ":1.9", "/root");
    let hits = evaluate_xpath_detailed(&xml, "/Frame/*").unwrap();
    let names: Vec<&str> = hits.iter().filter_map(|h| h.name.as_deref()).collect();
    assert_eq!(names, vec!["first", "second"]);
    assert_eq!(hits[1].role_raw.as_deref(), Some("unknown-role-130"));
}

// ── Selectors ───────────────────────────────────────────────────────────────

#[test]
fn selector_failures_have_reasons() {
    let xml = "<A _ref=\"b|/r\"/>";
    assert!(matches!(
        evaluate_xpath(xml, "").unwrap_err(),
        Error::InvalidSelector { reason, .. } if reason == "empty xpath"
    ));
    assert!(matches!(
        evaluate_xpath(xml, "count(//A)").unwrap_err(),
        Error::InvalidSelector { reason, .. } if reason == "xpath did not return a node-set"
    ));
    match evaluate_xpath("<A", "//A").unwrap_err() {
        Error::Atspi { message, source } => {
            assert!(message.starts_with("failed to parse snapshot XML: "));
            assert!(source.is_some());
        }
        e => panic!("unexpected {e:?}"),
    }
    assert!(matches!(
        evaluate_xpath(xml, "//A[nosuch()]").unwrap_err(),
        Error::InvalidSelector { .. }
    ));
}

#[test]
fn matches_without_identity_are_passed_over() {
    let xml = "<A _ref=\"b|/r\"><B/><C _ref=\"nobar\"/><D _ref=\"b|/d|x\"/></A>";
    let ids = evaluate_xpath(xml, "//*").unwrap();
    assert_eq!(ids, vec![key("b", "/r"), key("b", "/d|x")]);
    let infos = evaluate_xpath_detailed(xml, "//*").unwrap();
    let refs: Vec<(String, String)> = infos.iter().map(|i| i.ref_.clone()).collect();
    assert_eq!(refs, ids);
    assert_eq!(run_query(xml, "//*").unwrap().len(), 4);
    assert_eq!(run_query(xml, "//A/@_ref").unwrap().len(), 1);
}

#[test]
fn prefixed_names_are_told_from_axes_calls_and_text() {
    assert!(selector_uses_prefix("//gtk:Button"));
    assert!(selector_uses_prefix("//*[@a:b='x']"));
    assert!(!selector_uses_prefix("//Button/ancestor::*"));
    assert!(!selector_uses_prefix("//*[@name='a:b']"));
    assert!(!selector_uses_prefix("//*[x:f()]"));
    assert!(!selector_uses_prefix("//*[$x:y]"));
}

// ── Replies ─────────────────────────────────────────────────────────────────

#[test]
fn stale_names_make_stale_errors() {
    let gone = method_error("org.freedesktop.DBus.Error.UnknownObject");
    match map_action_err("//X", "b", "/p", &gone) {
        Error::ElementStale { xpath, bus, path } => {
            assert_eq!((xpath.as_str(), bus.as_str(), path.as_str()), ("//X", "b", "/p"));
        }
        e => panic!("unexpected {e:?}"),
    }
    match map_action_err("//X", "b", "/p", &method_error("org.x.Failed")) {
        Error::Atspi { message, source } => {
            assert_eq!(message, "dbus: no such thing");
            assert_eq!(source.as_deref(), Some("no such thing"));
        }
        e => panic!("unexpected {e:?}"),
    }
}

#[test]
fn outcomes_tell_refusal_from_lack_of_support() {
    let none: Result<bool, BusFailure> = Err(method_error("org.x.NotSupported"));
    assert_eq!(
        action_outcome("//X", "b", "/p", &Ok(true)).unwrap(),
        ActionOutcome::Performed
    );
    assert_eq!(
        action_outcome("//X", "b", "/p", &Ok(false)).unwrap(),
        ActionOutcome::Refused
    );
    assert_eq!(
        action_outcome("//X", "b", "/p", &none).unwrap(),
        ActionOutcome::NotSupported
    );
    assert_eq!(
        focus_outcome("//X", "b", "/p", &Ok(true)).unwrap(),
        FocusOutcome::Granted
    );
    assert_eq!(
        focus_outcome("//X", "b", "/p", &Ok(false)).unwrap(),
        FocusOutcome::Rejected
    );
    assert_eq!(
        focus_outcome("//X", "b", "/p", &none).unwrap(),
        FocusOutcome::NotSupported
    );
    let gone: Result<bool, BusFailure> = Err(method_error("org.x.NoReply"));
    assert!(matches!(
        action_outcome("//X", "b", "/p", &gone).unwrap_err(),
        Error::ElementStale { .. }
    ));
}

#[test]
fn refused_requests_say_what_was_refused() {
    assert!(request_result(Request::DoAction, "//X", "b", "/p", &Ok(true)).is_ok());
    let text = |r: Request| match request_result(r, "//X", "b", "/p", &Ok(false)).unwrap_err() {
        Error::Atspi { message, .. } => message,
        e => panic!("unexpected {e:?}"),
    };
    assert_eq!(
        text(Request::DoAction),
        "do_action(0) returned false on b/p — element may not support activation"
    );
    assert_eq!(
        text(Request::GrabFocus),
        "grab_focus returned false on b/p — element not focusable"
    );
    assert_eq!(
        text(Request::SetText),
        "set_text_contents returned false on b/p — element rejected input"
    );
    assert_eq!(
        text(Request::SelectChild(-3)),
        "select_child(-3) returned false on b/p — element may not implement the Selection interface or the index is out of range"
    );
}

#[test]
fn method_errors_are_tolerated_and_others_are_not() {
    assert_eq!(tolerate(Err(method_error("x")), 7).unwrap(), 7);
    assert_eq!(tolerate(Ok(3), 7).unwrap(), 3);
    assert!(tolerate(
        Err(BusFailure::Other {
            text: "down".to_string()
        }),
        7
    )
    .is_err());
}

#[test]
fn references_without_a_bus_stay_on_their_own() {
    assert_eq!(bus_or(None, "own"), "own");
    assert_eq!(bus_or(Some("other".to_string()), "own"), "other");
    assert_eq!(bus_or(Some(String::new()), "own"), "own");
    let mut entry = item("/x", "", 0, 0, "");
    entry.bus = Some(String::new());
    assert_eq!(cached_accessible(&entry, ":1.9", None).ref_, key(":1.9", "/x"));
    assert_eq!(label_target(&entry, ":1.9"), Some(key(":1.9", "/x")));
    entry.bus = Some(":1.7".to_string());
    assert_eq!(cached_accessible(&entry, ":1.9", None).ref_, key(":1.7", "/x"));
}

#[test]
fn labels_are_joined() {
    let l = |s: &str| Some(s.to_string());
    assert_eq!(join_labels(&vec![]), None);
    assert_eq!(join_labels(&vec![None, l("")]), None);
    assert_eq!(join_labels(&vec![l("a"), None, l("b")]).as_deref(), Some("a b"));
}

// ── Rectangles ──────────────────────────────────────────────────────────────

#[test]
fn rectangles_at_the_edge_of_the_plane() {
    let r = Rect {
        x: i32::MAX,
        y: i32::MIN,
        width: i32::MAX,
        height: -3,
    };
    assert_eq!(r.right(), i32::MAX);
    assert_eq!(r.bottom(), i32::MIN);
    assert_eq!(r.center_x(), i32::MAX);
    assert_eq!(r.center_y(), i32::MIN);
    assert_eq!(Rect::parse_bbox(&r.to_bbox_string()), Some(r));
    let odd = Rect {
        x: 0,
        y: 0,
        width: 5,
        height: -5,
    };
    assert_eq!((odd.center_x(), odd.center_y()), (2, -2));
    assert!(Rect::parse_bbox("1,2,3,99999999999").is_none());
}

#[test]
fn lying_inside_is_transitive() {
    let a = Rect {
        x: 2,
        y: 2,
        width: 1,
        height: 1,
    };
    let b = Rect {
        x: 1,
        y: 1,
        width: 3,
        height: 3,
    };
    let c = Rect {
        x: 0,
        y: 0,
        width: 9,
        height: 9,
    };
    assert!(a.is_inside(&b) && b.is_inside(&c) && a.is_inside(&c));
}

#[test]
fn cache_items_take_labels_where_names_are_missing() {
    let items = vec![
        item("/a", "", 0, 0, "Named"),
        item("/b", "/a", 0, 0, ""),
        item("/c", "/a", 1, 0, ""),
    ];
    let labels = vec![None, Some("Label".to_string()), None];
    let cached = cache_items(&items, ":1.9", &labels);
    let names: Vec<Option<&str>> = cached.iter().map(|c| c.name.as_deref()).collect();
    assert_eq!(names, vec![Some("Named"), Some("Label"), None]);
    assert_eq!(cached[1].ref_.1, "/b");
    assert_eq!(cached[1].parent_path.as_deref(), Some("/a"));
    assert_eq!(cached[0].parent_path, None);
    assert!(cache_items(&vec![], ":1.9", &vec![]).is_empty());
}

#[test]
fn selected_name_is_the_name_unless_empty() {
    assert_eq!(selected_name("Blue".to_string()).as_deref(), Some("Blue"));
    assert_eq!(selected_name(String::new()), None);
}

const TREE: &str = "<A _ref='b|/a'><B name='Resume' _ref='b|/b'/><B name='an xmlns:x' _ref='b|/c'/></A>";

#[test]
fn words_in_names_do_not_disturb_a_query() {
    let found = |xpath: &str| evaluate_xpath(TREE, xpath).unwrap();
    assert_eq!(found("//B[@name='Resume']"), vec![key("b", "/b")]);
    assert_eq!(found("//B[@name='an xmlns:x']"), vec![key("b", "/c")]);
    assert_eq!(found("//B[contains('checksum(', 'sum(')]").len(), 2);
    assert_eq!(found("//*[local-name() = 'B']").len(), 2);
    let detailed = evaluate_xpath_detailed(TREE, "//B[@name='Resume']").unwrap();
    assert_eq!(detailed[0].ref_, key("b", "/b"));
}

#[test]
fn only_selectors_that_are_evaluated_need_an_answer() {
    assert!(can_run(TREE, "//B"));
    assert!(!can_run(TREE, "//x:B"));
    // Neither a malformed selector nor a malformed document gets that far.
    assert!(can_run(TREE, "//x:B["));
    assert!(can_run("<A>", "//x:B"));
    assert!(matches!(
        evaluate_xpath(TREE, "//x:B["),
        Err(Error::InvalidSelector { .. })
    ));
    assert!(matches!(
        evaluate_xpath_detailed("<A>", "//x:B"),
        Err(Error::Atspi { .. })
    ));
}

#[test]
fn query_outcomes_follow_the_replies_in_order() {
    let text = |s: &str| s.to_string();
    let node = || QueryElement {
        name: text("A"),
        attributes: vec![],
    };
    let reason = |r: Result<Vec<Option<QueryElement>>, Error>| match r {
        Err(Error::InvalidSelector { xpath, reason }) => {
            assert_eq!(xpath, "//A");
            reason
        }
        other => panic!("unexpected {other:?}"),
    };
    let rejected = query_outcome("//A", Some(text("bad")), Err(text("worse")), Ok(None));
    assert_eq!(
        rejected.unwrap_err().to_string(),
        "AT-SPI: failed to parse snapshot XML: bad"
    );
    assert_eq!(reason(query_outcome("//A", None, Err(text("bad")), Ok(None))), "bad");
    assert_eq!(
        reason(query_outcome("//A", None, Ok(false), Err(text("bad")))),
        "empty xpath"
    );
    assert_eq!(reason(query_outcome("//A", None, Ok(true), Err(text("bad")))), "bad");
    assert_eq!(
        reason(query_outcome("//A", None, Ok(true), Ok(None))),
        "xpath did not return a node-set"
    );
    let nodes = query_outcome("//A", None, Ok(true), Ok(Some(vec![Some(node()), None])));
    let nodes = nodes.unwrap();
    assert_eq!(nodes.len(), 2);
    assert_eq!(nodes[0].as_ref().unwrap().name, "A");
}
