//! Locators: selectors, waits, options and scrolling.
use waydriver::locator::{
    attribute_of, bounds_of, child_index, child_index_for_label, clipping_ancestor, has_state,
    is_actionable, is_enabled_in, is_focusable, is_hidden, pointer_target, role_of,
    select_exactly_one, single_has_state, single_is_enabled, sole_match,
};
use waydriver::poll::{is_retriable, Poll, PollAction};
use waydriver::query::{evaluate_xpath_detailed, Attributes, ElementInfo};
use waydriver::scroll::{
    scroll_target, wheel_direction, ScrollAction, ScrollEvent, ScrollKind, ScrollRun,
    MAX_WHEEL_TICKS,
};
use waydriver::{Error, Locator, Rect, SelectBy, Session};

fn compose_locate(outer: &str, sub: &str) -> String {
    Locator::new(outer).locate(sub).xpath().to_string()
}

fn compose_nth(outer: &str, n: usize) -> String {
    Locator::new(outer).nth(n).xpath().to_string()
}

fn compose_parent(outer: &str) -> String {
    Locator::new(outer).parent().xpath().to_string()
}

fn states_for(xml: &str, xpath: &str) -> Vec<String> {
    let mut hits = evaluate_xpath_detailed(xml, xpath).unwrap();
    assert_eq!(hits.len(), 1, "fixture should match exactly one element");
    hits.pop().unwrap().states
}

fn children_from(xml: &str, parent_xpath: &str) -> Vec<ElementInfo> {
    let children_xpath = format!("({parent_xpath})/*");
    evaluate_xpath_detailed(xml, &children_xpath).unwrap()
}

const COMBO_XML: &str = r#"<?xml version="1.0"?>
<Application _ref="b|/r">
  <ComboBox name="size" _ref="b|/c">
    <MenuItem name="Small" _ref="b|/c/0"/>
    <MenuItem name="Medium" _ref="b|/c/1"/>
    <MenuItem name="Large" _ref="b|/c/2"/>
  </ComboBox>
</Application>"#;

fn test_session() -> Session {
    Session::new_for_test("stub", "stub")
}

#[test]
fn locate_relative_scopes() {
    assert_eq!(
        compose_locate("//Dialog[@name='X']", "PushButton"),
        "(//Dialog[@name='X'])//PushButton"
    );
}

#[test]
fn locate_absolute_replaces() {
    assert_eq!(compose_locate("//Dialog", "//Menu"), "//Menu");
}

#[test]
fn nth_is_one_indexed_in_xpath() {
    assert_eq!(compose_nth("//PushButton", 0), "(//PushButton)[1]");
    assert_eq!(compose_nth("//PushButton", 4), "(//PushButton)[5]");
}

#[test]
fn parent_appends_dot_dot() {
    assert_eq!(
        compose_parent("//PushButton[@name='OK']"),
        "(//PushButton[@name='OK'])/.."
    );
}

#[test]
fn select_exactly_one_zero_is_not_found() {
    let err = select_exactly_one("//Missing", 0).unwrap_err();
    assert!(matches!(err, Error::ElementNotFound { .. }));
    // Error carries the xpath so callers can see what didn't match.
    assert!(err.to_string().contains("//Missing"));
}

#[test]
fn select_exactly_one_one_is_ok() {
    assert!(select_exactly_one("//PushButton[@name='OK']", 1).is_ok());
}

#[test]
fn select_exactly_one_many_is_ambiguous_with_count() {
    let err = select_exactly_one("//PushButton", 7).unwrap_err();
    match err {
        Error::AmbiguousSelector { count, xpath } => {
            assert_eq!(count, 7);
            assert_eq!(xpath, "//PushButton");
        }
        other => panic!("expected AmbiguousSelector, got {other:?}"),
    }
}

#[test]
fn single_has_state_requires_exactly_one_match() {
    fn info_with_states(states: &[&str]) -> ElementInfo {
        ElementInfo {
            ref_: ("b".into(), "/p".into()),
            role: "Node".into(),
            role_raw: None,
            name: None,
            description: None,
            attributes: Attributes::new(),
            states: states.iter().map(|s| (*s).into()).collect(),
            bounds: None,
        }
    }
    // Empty → false (nothing to check).
    assert!(!single_has_state(&[], "checked"));
    // One match with the state → true.
    let a = info_with_states(&["showing", "checked"]);
    assert!(single_has_state(std::slice::from_ref(&a), "checked"));
    // One match without the state → false.
    let b = info_with_states(&["showing"]);
    assert!(!single_has_state(std::slice::from_ref(&b), "checked"));
    // Multiple matches → false even if they all have the state (the
    // single-element waits treat ambiguity as "not satisfied," which
    // matches Playwright-style strict-one semantics).
    assert!(!single_has_state(&[a.clone(), a.clone()], "checked"));
}

#[test]
fn snapshot_exposes_checked_state() {
    let xml = r#"<?xml version="1.0"?>
<Application _ref="b|/r"><CheckBox name="Accept" checked="true" _ref="b|/c"/></Application>"#;
    let states = states_for(xml, "//CheckBox");
    assert!(states.iter().any(|s| s == "checked"));
}

#[test]
fn snapshot_exposes_focused_state() {
    let xml = r#"<?xml version="1.0"?>
<Application _ref="b|/r"><Entry focused="true" _ref="b|/e"/></Application>"#;
    let states = states_for(xml, "//Entry");
    assert!(states.iter().any(|s| s == "focused"));
}

#[test]
fn snapshot_exposes_expanded_state() {
    let xml = r#"<?xml version="1.0"?>
<Application _ref="b|/r"><TreeItem expanded="true" _ref="b|/t"/></Application>"#;
    let states = states_for(xml, "//TreeItem");
    assert!(states.iter().any(|s| s == "expanded"));
}

#[test]
fn snapshot_exposes_editable_state() {
    let xml = r#"<?xml version="1.0"?>
<Application _ref="b|/r"><Entry editable="true" _ref="b|/e"/></Application>"#;
    let states = states_for(xml, "//Entry");
    assert!(states.iter().any(|s| s == "editable"));
}

#[test]
fn snapshot_exposes_selected_state() {
    let xml = r#"<?xml version="1.0"?>
<Application _ref="b|/r"><ListItem selected="true" _ref="b|/l"/></Application>"#;
    let states = states_for(xml, "//ListItem");
    assert!(states.iter().any(|s| s == "selected"));
}

#[test]
fn snapshot_exposes_pressed_state() {
    let xml = r#"<?xml version="1.0"?>
<Application _ref="b|/r"><ToggleButton pressed="true" _ref="b|/t"/></Application>"#;
    let states = states_for(xml, "//ToggleButton");
    assert!(states.iter().any(|s| s == "pressed"));
}

#[test]
fn snapshot_exposes_modal_state() {
    let xml = r#"<?xml version="1.0"?>
<Application _ref="b|/r"><Dialog modal="true" _ref="b|/d"/></Application>"#;
    let states = states_for(xml, "//Dialog");
    assert!(states.iter().any(|s| s == "modal"));
}

#[test]
fn snapshot_state_absence_is_also_detectable() {
    // If the state attr is absent, the snapshot omits it from `states`,
    // which is exactly what `is_checked()` etc. rely on returning false.
    let xml = r#"<?xml version="1.0"?>
<Application _ref="b|/r"><CheckBox _ref="b|/c"/></Application>"#;
    let states = states_for(xml, "//CheckBox");
    assert!(!states.iter().any(|s| s == "checked"));
}

#[test]
fn child_index_for_label_finds_unique_match() {
    let children = children_from(COMBO_XML, "//ComboBox");
    assert_eq!(
        child_index_for_label(&children, "Medium", "//ComboBox").unwrap(),
        1
    );
}

#[test]
fn child_index_for_label_surfaces_absent_label() {
    let children = children_from(COMBO_XML, "//ComboBox");
    let err = child_index_for_label(&children, "Jumbo", "//ComboBox").unwrap_err();
    match err {
        Error::Atspi { message, .. } => {
            assert!(
                message.contains("Jumbo"),
                "error should name the label: {message}"
            );
            assert!(
                message.contains("//ComboBox"),
                "error should name the container: {message}"
            );
        }
        other => panic!("expected Atspi error, got {other:?}"),
    }
}

#[test]
fn child_index_for_label_flags_ambiguity() {
    let xml = r#"<?xml version="1.0"?>
<Application _ref="b|/r">
  <ComboBox _ref="b|/c">
    <MenuItem name="Red" _ref="b|/c/0"/>
    <MenuItem name="Red" _ref="b|/c/1"/>
  </ComboBox>
</Application>"#;
    let children = children_from(xml, "//ComboBox");
    let err = child_index_for_label(&children, "Red", "//ComboBox").unwrap_err();
    match err {
        Error::AmbiguousSelector { count, xpath } => {
            assert_eq!(count, 2);
            assert!(
                xpath.contains("Red"),
                "synthetic xpath should include the label: {xpath}"
            );
        }
        other => panic!("expected AmbiguousSelector, got {other:?}"),
    }
}

#[test]
fn child_index_for_label_empty_children_is_not_found() {
    let xml = r#"<?xml version="1.0"?>
<Application _ref="b|/r"><ComboBox _ref="b|/c"/></Application>"#;
    let children = children_from(xml, "//ComboBox");
    assert!(children.is_empty());
    let err = child_index_for_label(&children, "anything", "//ComboBox").unwrap_err();
    assert!(matches!(err, Error::Atspi { .. }));
}

#[test]
fn is_retriable_matches_expected_errors() {
    assert!(is_retriable(&Error::ElementNotFound { xpath: "x".into() }));
    assert!(is_retriable(&Error::ElementStale {
        xpath: "x".into(),
        bus: "b".into(),
        path: "/p".into(),
    }));
    assert!(!is_retriable(&Error::AmbiguousSelector {
        xpath: "x".into(),
        count: 2,
    }));
    assert!(!is_retriable(&Error::InvalidSelector {
        xpath: "x".into(),
        reason: "r".into(),
    }));
    assert!(!is_retriable(&Error::atspi("boom")));
    assert!(!is_retriable(&Error::Timeout("nope".into())));
}

#[test]
fn wheel_direction_above_returns_negative() {
    // Element is above the viewport — scroll up (toward the element).
    let elem = Rect {
        x: 0,
        y: -100,
        width: 50,
        height: 20,
    };
    let viewport = Rect {
        x: 0,
        y: 0,
        width: 100,
        height: 100,
    };
    assert_eq!(wheel_direction(&elem, &viewport), -1);
}

#[test]
fn wheel_direction_below_returns_positive() {
    // Element is below the viewport — scroll down (toward the element).
    let elem = Rect {
        x: 0,
        y: 200,
        width: 50,
        height: 20,
    };
    let viewport = Rect {
        x: 0,
        y: 0,
        width: 100,
        height: 100,
    };
    assert_eq!(wheel_direction(&elem, &viewport), 1);
}

#[test]
fn wheel_direction_already_inside_returns_zero() {
    // In-view element — no further scrolling needed.
    let elem = Rect {
        x: 10,
        y: 30,
        width: 20,
        height: 10,
    };
    let viewport = Rect {
        x: 0,
        y: 0,
        width: 100,
        height: 100,
    };
    assert_eq!(wheel_direction(&elem, &viewport), 0);
}

#[test]
fn wheel_direction_partially_below_returns_positive() {
    // Element top is inside, bottom peeks below — still needs a tick
    // down so the whole element fits.
    let elem = Rect {
        x: 0,
        y: 90,
        width: 20,
        height: 30, // bottom = 120, viewport.bottom = 100
    };
    let viewport = Rect {
        x: 0,
        y: 0,
        width: 100,
        height: 100,
    };
    assert_eq!(wheel_direction(&elem, &viewport), 1);
}

// ── Selectors made by a session ─────────────────────────────────────────────

#[test]
fn session_locate_carries_xpath_verbatim() {
    let s = test_session();
    let loc = s.locate("//PushButton[@name='OK']");
    assert_eq!(loc.xpath(), "//PushButton[@name='OK']");
}

#[test]
fn session_root_locator_uses_wildcard() {
    assert_eq!(test_session().root().xpath(), "/*");
}

#[test]
fn session_find_by_id_composes_xpath() {
    assert_eq!(
        test_session().find_by_id("submit-btn").xpath(),
        "//*[@id='submit-btn']"
    );
}

#[test]
fn session_find_by_name_composes_xpath() {
    assert_eq!(
        test_session().find_by_name("Save As").xpath(),
        "//*[@name='Save As']"
    );
}

#[test]
fn session_find_by_role_name_composes_xpath() {
    assert_eq!(
        test_session().find_by_role_name("PushButton", "OK").xpath(),
        "//PushButton[@name='OK']"
    );
}

#[test]
fn locator_locate_appends_descendant_when_relative() {
    let s = test_session();
    let dialog = s.locate("//Dialog");
    assert_eq!(dialog.locate("PushButton").xpath(), "(//Dialog)//PushButton");
    assert_eq!(
        dialog.locate("  PushButton \n").xpath(),
        "(//Dialog)//PushButton"
    );
}

#[test]
fn locator_locate_absolute_replaces_scope() {
    let s = test_session();
    let dialog = s.locate("//Dialog");
    // Absolute sub-xpath ignores the outer scope entirely.
    assert_eq!(dialog.locate("//Menu").xpath(), "//Menu");
}

#[test]
fn locator_nth_wraps_with_one_indexed_predicate() {
    let s = test_session();
    let loc = s.locate("//PushButton").nth(2);
    assert_eq!(loc.xpath(), "(//PushButton)[3]");
}

#[test]
fn locator_first_is_nth_zero() {
    let s = test_session();
    let loc = s.locate("//PushButton").first();
    assert_eq!(loc.xpath(), "(//PushButton)[1]");
}

#[test]
fn locator_last_uses_last_function() {
    let s = test_session();
    let loc = s.locate("//PushButton").last();
    assert_eq!(loc.xpath(), "(//PushButton)[last()]");
}

#[test]
fn locator_parent_appends_dot_dot() {
    let s = test_session();
    let loc = s.locate("//PushButton[@name='OK']").parent();
    assert_eq!(loc.xpath(), "(//PushButton[@name='OK'])/..");
}

#[test]
fn locator_composition_chains() {
    let s = test_session();
    let loc = s
        .locate("//Dialog[@name='Confirm']")
        .locate("PushButton")
        .nth(1);
    assert_eq!(loc.xpath(), "((//Dialog[@name='Confirm'])//PushButton)[2]");
}

#[test]
fn locator_clone_preserves_xpath() {
    let s = test_session();
    let loc = s.locate("//PushButton");
    let cloned = loc.clone();
    assert_eq!(cloned.xpath(), "//PushButton");
}

#[test]
fn with_timeout_overrides_session_default() {
    let s = test_session();
    let base = s.locate("//PushButton");
    let quick = base.with_timeout(100_000_000);
    assert_eq!(quick.xpath(), base.xpath());
    assert_eq!(base.effective_timeout(s.default_timeout()), 5_000_000_000);
    assert_eq!(quick.effective_timeout(s.default_timeout()), 100_000_000);
    // Composition keeps the limit.
    assert_eq!(
        quick.nth(3).locate("X").effective_timeout(s.default_timeout()),
        100_000_000
    );
}

#[test]
fn all_pins_each_match() {
    let all = Locator::new("//X").all(3);
    let xpaths: Vec<&str> = all.iter().map(|l| l.xpath()).collect();
    assert_eq!(xpaths, vec!["(//X)[1]", "(//X)[2]", "(//X)[3]"]);
    assert!(Locator::new("//X").all(0).is_empty());
}

#[test]
fn locators_resolve_against_a_snapshot() {
    let xml = "<A _ref=\"b|/r\"><B name=\"x\" _ref=\"b|/1\"/><B name=\"y\" _ref=\"b|/2\"/></A>";
    let all = Locator::new("//B");
    assert_eq!(all.count(xml).unwrap(), 2);
    assert_eq!(all.inspect_all(xml).unwrap().len(), 2);
    assert!(matches!(
        all.resolve_once_info(xml).unwrap_err(),
        Error::AmbiguousSelector { count: 2, .. }
    ));
    assert_eq!(
        all.last().resolve_once_info(xml).unwrap().name.as_deref(),
        Some("y")
    );
    assert!(matches!(
        Locator::new("//Missing").resolve_once_info(xml).unwrap_err(),
        Error::ElementNotFound { .. }
    ));
    assert!(Locator::new("//[").count(xml).is_err());
    assert!(sole_match("//X", vec![]).is_err());
}

// ── States and metadata ─────────────────────────────────────────────────────

fn element(states: &[&str], bounds: Option<Rect>) -> ElementInfo {
    let mut attributes = Attributes::new();
    attributes.insert("id".to_string(), "x".to_string());
    ElementInfo {
        ref_: ("b".to_string(), "/p".to_string()),
        role: "Node".to_string(),
        role_raw: Some("odd thing".to_string()),
        name: None,
        description: None,
        attributes,
        states: states.iter().map(|s| s.to_string()).collect(),
        bounds,
    }
}

#[test]
fn readiness_depends_on_states() {
    assert!(is_enabled_in(&["enabled".to_string()]));
    assert!(is_enabled_in(&["showing".to_string(), "sensitive".to_string()]));
    assert!(!is_enabled_in(&["showing".to_string()]));
    assert!(is_actionable(&element(&["showing", "sensitive"], None)));
    assert!(!is_actionable(&element(&["sensitive"], None)));
    assert!(!is_actionable(&element(&["showing"], None)));
    assert!(is_focusable(&element(&["showing", "focusable"], None)));
    assert!(!is_focusable(&element(&["showing", "enabled"], None)));
    assert!(is_hidden(&[]));
    assert!(is_hidden(&[element(&["enabled"], None)]));
    assert!(!is_hidden(&[element(&["showing"], None)]));
    assert!(single_is_enabled(&[element(&["enabled"], None)]));
    assert!(!single_is_enabled(&[]));
    assert!(has_state(&["modal".to_string()], "modal"));
}

#[test]
fn metadata_of_a_match() {
    let e = element(&[], None);
    assert_eq!(role_of(&e), "odd thing");
    let mut plain = element(&[], None);
    plain.role_raw = None;
    assert_eq!(role_of(&plain), "Node");
    assert_eq!(attribute_of(&e, "id").as_deref(), Some("x"));
    assert_eq!(attribute_of(&e, "other"), None);
    match bounds_of(&e, "//X").unwrap_err() {
        Error::Atspi { message, .. } => assert_eq!(
            message,
            "no bounds available for //X — element doesn't implement Component or isn't laid out"
        ),
        other => panic!("unexpected {other:?}"),
    }
    match pointer_target(&e, "//X").unwrap_err() {
        Error::Atspi { message, .. } => assert_eq!(
            message,
            "no bounds for //X — pointer actions need Component extents"
        ),
        other => panic!("unexpected {other:?}"),
    }
    match scroll_target("//X", &e).unwrap_err() {
        Error::Atspi { message, .. } => assert_eq!(
            message,
            "no bounds available for //X — can't scroll without Component extents"
        ),
        other => panic!("unexpected {other:?}"),
    }
    let r = rect(1, 2, 3, 4);
    let placed = element(&[], Some(r));
    assert_eq!(bounds_of(&placed, "//X").unwrap(), r);
    assert_eq!(pointer_target(&placed, "//X").unwrap(), r);
    assert_eq!(scroll_target("//X", &placed).unwrap(), r);
}

// ── Options ─────────────────────────────────────────────────────────────────

#[test]
fn ambiguous_options_name_selector_and_label() {
    let xml = "<A _ref=\"b|/r\"><B name=\"Red\" _ref=\"b|/0\"/><B name=\"Red\" _ref=\"b|/1\"/><B name=\"Red\" _ref=\"b|/2\"/></A>";
    match child_index_for_label(&children_from(xml, "/A"), "Red", "/A").unwrap_err() {
        Error::AmbiguousSelector { count, xpath } => {
            assert_eq!(count, 3);
            assert_eq!(xpath, "/A#Red");
        }
        e => panic!("unexpected {e:?}"),
    }
    match child_index_for_label(&children_from(xml, "/A"), "Blue", "/A").unwrap_err() {
        Error::Atspi { message, .. } => assert_eq!(
            message,
            "select_option: no child with accessible name \"Blue\" under /A"
        ),
        e => panic!("unexpected {e:?}"),
    }
}

#[test]
fn options_are_selected_by_label_or_position() {
    let combo = Locator::new("//ComboBox");
    assert_eq!(
        combo.option_to_select(SelectBy::Label("Large"), COMBO_XML).unwrap(),
        2
    );
    assert_eq!(combo.option_to_select(SelectBy::Index(7), COMBO_XML).unwrap(), 7);
    assert!(combo.option_to_select(SelectBy::Label("Jumbo"), COMBO_XML).is_err());
    assert_eq!(child_index(i32::MAX as usize).unwrap(), i32::MAX);
    match child_index(i32::MAX as usize + 1).unwrap_err() {
        Error::Atspi { message, .. } => assert_eq!(
            message,
            "select_option: index 2147483648 too large to fit AT-SPI's i32 child index"
        ),
        e => panic!("unexpected {e:?}"),
    }
}

// ── Waiting ─────────────────────────────────────────────────────────────────

/// Waits by `attempt`, with the time up after `expires_after` attempts. Gives the
/// outcome and how many attempts were made.
fn poll_with(
    budget_ms: u128,
    xpath: &str,
    cancelled: bool,
    expires_after: usize,
    mut attempt: impl FnMut(usize) -> Result<Option<i32>, Error>,
) -> (Result<i32, Error>, usize) {
    let mut poll = Poll::new(xpath, budget_ms);
    let mut made = 0;
    loop {
        if let Some(e) = poll.begin(cancelled) {
            return (Err(e), made);
        }
        let outcome = attempt(made);
        made += 1;
        match poll.observe(outcome, made >= expires_after) {
            PollAction::Done(v) => return (Ok(v), made),
            PollAction::Fail(e) => return (Err(e), made),
            PollAction::Sleep(_) => assert!(poll.rested(false).is_none()),
        }
    }
}

fn missing(xpath: &str) -> Error {
    Error::ElementNotFound {
        xpath: xpath.to_string(),
    }
}

#[test]
fn poll_returns_cancelled_when_token_tripped_before_first_attempt() {
    let (result, attempts) = poll_with(5000, "//X", true, 100, |_| Ok(Some(42)));
    assert!(matches!(result, Err(Error::Cancelled)));
    assert_eq!(attempts, 0, "predicate must not run after cancellation");
}

#[test]
fn poll_returns_cancelled_when_token_trips_during_backoff_sleep() {
    let mut poll = Poll::new("//X", 5000);
    assert!(poll.begin(false).is_none());
    let action: PollAction<i32> = poll.observe(Err(missing("//X")), false);
    assert!(matches!(action, PollAction::Sleep(50)));
    let result = poll.rested(true);
    assert!(matches!(result, Some(Error::Cancelled)), "got {result:?}");
}

#[test]
fn poll_returns_value_on_first_try() {
    let (result, attempts) = poll_with(5000, "x", false, 100, |_| Ok(Some(42)));
    assert_eq!(result.unwrap(), 42);
    assert_eq!(attempts, 1);
}

#[test]
fn poll_succeeds_after_retries() {
    let (result, attempts) = poll_with(5000, "x", false, 100, |n| {
        if n < 2 {
            Err(missing("x"))
        } else {
            Ok(Some(7))
        }
    });
    assert_eq!(result.unwrap(), 7);
    assert_eq!(attempts, 3);
}

#[test]
fn poll_surfaces_last_retriable_error_on_timeout() {
    let (result, _) = poll_with(50, "//Missing", false, 2, |_| Err(missing("//Missing")));
    let err = result.unwrap_err();
    assert!(
        matches!(err, Error::ElementNotFound { .. }),
        "expected ElementNotFound, got {err:?}"
    );
}

#[test]
fn poll_returns_timeout_when_predicate_keeps_saying_none() {
    let (result, _) = poll_with(50, "//Pending", false, 3, |_| Ok(None));
    match result.unwrap_err() {
        Error::Timeout(msg) => {
            assert!(
                msg.contains("//Pending"),
                "timeout message should include the xpath: {msg}"
            );
            assert_eq!(
                msg,
                "wait for '//Pending' timed out after 3 attempt(s) (50ms budget)"
            );
        }
        other => panic!("expected Timeout, got {other:?}"),
    }
}

#[test]
fn poll_forgets_an_error_once_the_element_was_seen() {
    let (result, _) = poll_with(50, "//X", false, 2, |n| {
        if n == 0 {
            Err(missing("//X"))
        } else {
            Ok(None)
        }
    });
    assert!(matches!(result, Err(Error::Timeout(_))));
}

#[test]
fn poll_bails_immediately_on_non_retriable_error() {
    let (result, attempts) = poll_with(5000, "//Bad", false, 100, |_| {
        Err(Error::InvalidSelector {
            xpath: "//Bad".into(),
            reason: "oops".into(),
        })
    });
    let err = result.unwrap_err();
    assert!(matches!(err, Error::InvalidSelector { .. }));
    // We should only attempt once — no retries for fatal errors.
    assert_eq!(attempts, 1);
}

#[test]
fn poll_ambiguous_selector_is_not_retriable() {
    let (result, attempts) = poll_with(5000, "//PushButton", false, 100, |_| {
        Err(Error::AmbiguousSelector {
            xpath: "//PushButton".into(),
            count: 3,
        })
    });
    assert!(matches!(
        result.unwrap_err(),
        Error::AmbiguousSelector { count: 3, .. }
    ));
    assert_eq!(attempts, 1);
}

#[test]
fn poll_zero_timeout_is_single_shot() {
    let (result, attempts) = poll_with(0, "//X", false, 1, |_| Err(missing("//X")));
    assert!(result.is_err());
    assert_eq!(attempts, 1);
}

#[test]
fn pauses_double_up_to_half_a_second() {
    let mut poll = Poll::new("//X", 5000);
    let mut pauses = Vec::new();
    for _ in 0..6 {
        assert!(poll.begin(false).is_none());
        match poll.observe::<i32>(Ok(None), false) {
            PollAction::Sleep(ms) => pauses.push(ms),
            other => panic!("unexpected {other:?}"),
        }
        assert!(poll.rested(false).is_none());
    }
    assert_eq!(pauses, vec![50, 100, 200, 400, 500, 500]);
}

// ── Scrolling ───────────────────────────────────────────────────────────────

fn rect(x: i32, y: i32, width: i32, height: i32) -> Rect {
    Rect {
        x,
        y,
        width,
        height,
    }
}

const SCROLL_XML: &str = r#"<Frame bbox="0,0,100,100" _ref="b|/f">
<Panel bbox="0,10,100,50" _ref="b|/v"><List bbox="0,10,100,500" _ref="b|/l">
<Label bbox="0,300,100,20" _ref="b|/t"/></List></Panel></Frame>"#;

#[test]
fn scrollable_ancestor_is_the_innermost_that_clips() {
    let found = Locator::new("//Label")
        .find_scrollable_ancestor(SCROLL_XML)
        .unwrap()
        .unwrap();
    assert_eq!(found.role, "Panel");
    assert!(Locator::new("//Panel")
        .find_scrollable_ancestor(SCROLL_XML)
        .unwrap()
        .is_none());
    assert!(matches!(
        Locator::new("//Missing").find_scrollable_ancestor(SCROLL_XML),
        Err(Error::ElementNotFound { .. })
    ));
    assert!(clipping_ancestor(Some(rect(0, 0, 1, 1)), vec![element(&[], None)]).is_none());
    assert!(clipping_ancestor(
        Some(rect(0, 0, 9, 9)),
        vec![element(&[], Some(rect(0, 0, 8, 20)))]
    )
    .is_some());
}

fn begin(focusable: bool, target: Rect) -> ScrollRun {
    let viewport = element(&[], Some(rect(0, 10, 100, 51)));
    ScrollRun::begin("//X", target, focusable, Some(&viewport))
        .unwrap()
        .unwrap()
}

/// Runs an attempt in a window at (200, 100): `looks` gives what each look sees, and
/// pointer moves, wheel ticks and focus requests succeed unless `fails` says otherwise.
fn scroll(
    mut run: ScrollRun,
    mut looks: impl FnMut(usize) -> Result<Option<Rect>, Error>,
    fails: impl Fn(ScrollAction) -> bool,
) -> (Vec<ScrollAction>, Result<(), Error>) {
    let mut actions = Vec::new();
    let mut looked = 0;
    while run.next() != ScrollAction::Finished {
        let action = run.next();
        actions.push(action);
        run.report(match action {
            ScrollAction::ScrollTo(_) | ScrollAction::ScrollToPoint { .. } => {
                ScrollEvent::Replied(false)
            }
            ScrollAction::Settle(_) => ScrollEvent::Settled,
            ScrollAction::Look => {
                looked += 1;
                ScrollEvent::Looked(looks(looked - 1))
            }
            ScrollAction::Locate if fails(action) => {
                ScrollEvent::Located(Err(Error::screenshot("no keepalive stream")))
            }
            ScrollAction::Locate => ScrollEvent::Located(Ok((200, 100))),
            _ if fails(action) => ScrollEvent::Acted(Err(Error::process("failed"))),
            _ => ScrollEvent::Acted(Ok(())),
        });
    }
    (actions, run.finish())
}

#[test]
fn scrolling_ends_when_the_toolkit_obliges() {
    let (actions, result) = scroll(
        begin(true, rect(0, 300, 100, 20)),
        |_| Ok(Some(rect(0, 20, 100, 20))),
        |_| false,
    );
    assert!(result.is_ok());
    assert_eq!(
        actions,
        vec![
            ScrollAction::ScrollTo(ScrollKind::Anywhere),
            ScrollAction::ScrollTo(ScrollKind::TopLeft),
            ScrollAction::ScrollTo(ScrollKind::TopEdge),
            ScrollAction::ScrollToPoint { x: 0, y: 10 },
            ScrollAction::Settle(80),
            ScrollAction::Look,
        ]
    );
}

#[test]
fn a_request_that_is_granted_is_the_last_of_its_kind() {
    let mut run = begin(false, rect(0, 300, 100, 20));
    run.report(ScrollEvent::Replied(true));
    assert_eq!(run.next(), ScrollAction::ScrollToPoint { x: 0, y: 10 });
}

#[test]
fn scrolling_falls_back_to_focus_and_wheel() {
    let (actions, result) = scroll(
        begin(true, rect(0, 300, 100, 20)),
        |n| {
            if n < 3 {
                Ok(Some(rect(0, 300, 100, 20)))
            } else {
                Ok(Some(rect(0, 20, 100, 20)))
            }
        },
        |_| false,
    );
    assert!(result.is_ok());
    assert_eq!(
        actions[6..],
        [
            ScrollAction::GrabFocus,
            ScrollAction::Settle(80),
            ScrollAction::Look,
            ScrollAction::Locate,
            ScrollAction::MovePointer {
                dx: -10_000,
                dy: -10_000
            },
            // The viewport's centre (50, 35), seen from the corner of the screen.
            ScrollAction::MovePointer { dx: 250, dy: 135 },
            ScrollAction::Wheel(1),
            ScrollAction::Settle(80),
            ScrollAction::Look,
            ScrollAction::Wheel(1),
            ScrollAction::Settle(80),
            ScrollAction::Look,
        ]
    );
}

#[test]
fn scrolling_gives_up_after_twenty_ticks() {
    let (actions, result) = scroll(begin(true, rect(0, -50, 100, 20)), |_| Ok(None), |a| {
        a == ScrollAction::GrabFocus
    });
    let ticks = actions
        .iter()
        .filter(|a| **a == ScrollAction::Wheel(-1))
        .count();
    assert_eq!(ticks, MAX_WHEEL_TICKS as usize);
    assert_eq!(
        result.unwrap_err().to_string(),
        "AT-SPI: scroll_into_view exhausted 20 wheel ticks for //X — toolkit likely ignored synthesized axis events"
    );
}

#[test]
fn an_element_beside_the_viewport_is_not_wheeled() {
    let (actions, result) = scroll(begin(false, rect(-50, 20, 10, 10)), |_| Ok(None), |_| false);
    assert!(!actions.iter().any(|a| matches!(a, ScrollAction::Wheel(_))));
    assert!(!actions.contains(&ScrollAction::GrabFocus));
    assert!(matches!(result, Err(Error::Atspi { .. })));
}

#[test]
fn an_element_that_vanishes_under_the_wheel_counts_as_progress() {
    let gone = |_: usize| Err(missing("//X"));
    let (actions, result) = scroll(begin(false, rect(0, 300, 100, 20)), gone, |_| false);
    assert!(result.is_ok());
    assert_eq!(
        actions
            .iter()
            .filter(|a| matches!(a, ScrollAction::Wheel(_)))
            .count(),
        1
    );
}

#[test]
fn failures_while_scrolling_are_reported() {
    let (_, result) = scroll(
        begin(false, rect(0, 300, 100, 20)),
        |_| Err(Error::Zbus("down".to_string())),
        |_| false,
    );
    assert!(matches!(result, Err(Error::Zbus(_))));
    let (_, result) = scroll(begin(false, rect(0, 300, 100, 20)), |_| Ok(None), |a| {
        matches!(a, ScrollAction::MovePointer { .. })
    });
    assert!(matches!(result, Err(Error::Process { .. })));
    let (actions, result) = scroll(begin(false, rect(0, 300, 100, 20)), |_| Ok(None), |a| {
        a == ScrollAction::Locate
    });
    assert_eq!(actions.last(), Some(&ScrollAction::Locate));
    assert!(matches!(result, Err(Error::Screenshot { .. })));
}

#[test]
fn scrolling_needs_a_viewport_and_leaves_what_is_in_view() {
    let target = rect(0, 20, 10, 10);
    match ScrollRun::begin("//X", target, false, None).unwrap_err() {
        Error::Atspi { message, .. } => assert_eq!(
            message,
            "no scrollable ancestor for //X — element isn't inside a ScrollPane/Viewport"
        ),
        e => panic!("unexpected {e:?}"),
    }
    match ScrollRun::begin("//X", target, false, Some(&element(&[], None))).unwrap_err() {
        Error::Atspi { message, .. } => assert_eq!(
            message,
            "scrollable ancestor for //X has no bounds — toolkit doesn't expose Component on it"
        ),
        e => panic!("unexpected {e:?}"),
    }
    let viewport = element(&[], Some(rect(0, 10, 100, 51)));
    assert!(ScrollRun::begin("//X", target, false, Some(&viewport))
        .unwrap()
        .is_none());
}

#[test]
fn selectors_without_an_answer_are_told() {
    let combo = Locator::new("//x:ComboBox");
    assert!(combo.try_count(COMBO_XML).is_none());
    assert!(combo.try_inspect_all(COMBO_XML).is_none());
    assert!(combo.try_resolve_once_info(COMBO_XML).is_none());
    assert!(combo.try_find_scrollable_ancestor(COMBO_XML).is_none());
    assert!(combo
        .try_option_to_select(SelectBy::Label("Large"), COMBO_XML)
        .is_none());
    assert_eq!(
        combo
            .try_option_to_select(SelectBy::Index(3), COMBO_XML)
            .unwrap()
            .unwrap(),
        3
    );
    assert!(combo.try_count("<A>").unwrap().is_err());
    let broken = Locator::new("//x:ComboBox[");
    assert!(matches!(
        broken.try_count(COMBO_XML),
        Some(Err(Error::InvalidSelector { .. }))
    ));
    let plain = Locator::new("//ComboBox");
    assert_eq!(plain.try_count(COMBO_XML).unwrap().unwrap(), 1);
    assert_eq!(plain.try_inspect_all(COMBO_XML).unwrap().unwrap().len(), 1);
    let info = plain.try_resolve_once_info(COMBO_XML).unwrap().unwrap();
    assert_eq!(info.ref_.1, "/c");
}
