//! Sessions: lookups, environments, printed lines and windows.
use waydriver::cache::CachedAccessible;
use waydriver::gsettings::KEYFILE_BACKEND;
use waydriver::launch::{
    app_env_pairs, directories, get_host_session_bus_inner, isolated_xdg_env,
    resolve_default_timeout, secondary_error, secondary_spec, secondary_timeout, spawn_error,
    ColorDistance, SecondaryInstance, DEFAULT_TIMEOUT_ENV_VAR, FALLBACK_DEFAULT_TIMEOUT_MS,
    SECONDARY_LAUNCH_TIMEOUT_SECS,
};
use waydriver::lifecycle::{app_name_matches, normalize_app_name, Holdings};
use waydriver::query::{evaluate_xpath, evaluate_xpath_detailed, selector_uses_prefix};
use waydriver::selector::{
    find_by_id_xpath, find_by_name_xpath, find_by_role_name_xpath, xpath_literal,
};
use waydriver::session::{
    centered_window_origin, hidden_accessibles, largest_fitting, to_screen_bounds, window_origin,
};
use waydriver::sink::{WaitAction, WakeUp};
use waydriver::{Error, Rect, Session, SessionConfig};

fn rect(x: i32, y: i32, w: i32, h: i32) -> Rect {
    Rect {
        x,
        y,
        width: w,
        height: h,
    }
}

fn minimal_cfg() -> SessionConfig {
    SessionConfig {
        command: "true".into(),
        args: vec![],
        cwd: None,
        app_name: "x".into(),
        video_output: None,
        video_bitrate: None,
        video_fps: None,
        prewarm_visual: false,
        gsettings_isolated: true,
        xdg_isolated: true,
        extra_env: vec![("CUSTOM".into(), "1".into())],
        capture_external_effects: false,
    }
}

fn make_test_session() -> Session {
    Session::new_for_test("t", "a")
}

#[test]
fn centered_window_origin_centers_the_largest_fitting_box() {
    // A 720×640 window on a 1024×768 monitor → ((1024-720)/2, (768-640)/2).
    let boxes = [rect(0, 0, 720, 640), rect(12, 420, 696, 32)];
    assert_eq!(centered_window_origin(&boxes, 1024, 768), Some((152, 64)));
}

#[test]
fn centered_window_origin_ignores_overflowing_scroll_child() {
    // The 696×800 child is taller than the 768px screen and has the
    // largest area — but a centered window can't exceed the monitor, so
    // it must be filtered out in favour of the real 720×640 window.
    let boxes = [
        rect(12, 360, 696, 800), // overflowing scroll content (area 556800)
        rect(0, 0, 720, 640),    // the real window (area 460800)
    ];
    assert_eq!(centered_window_origin(&boxes, 1024, 768), Some((152, 64)));
}

#[test]
fn centered_window_origin_clamps_negative_to_zero() {
    // A window as large as the screen sits at the origin, not a negative
    // coordinate.
    let boxes = [rect(0, 0, 1024, 768)];
    assert_eq!(centered_window_origin(&boxes, 1024, 768), Some((0, 0)));
}

#[test]
fn centered_window_origin_none_when_nothing_fits() {
    // Every bbox overflows the screen → no usable content box.
    let boxes = [rect(0, 0, 2000, 2000)];
    assert_eq!(centered_window_origin(&boxes, 1024, 768), None);
}

#[test]
fn test_normalize_app_name_lowercase() {
    assert_eq!(normalize_app_name("GNOME-Calculator"), "gnome calculator");
}

#[test]
fn test_normalize_app_name_hyphens_to_spaces() {
    assert_eq!(normalize_app_name("gnome-text-editor"), "gnome text editor");
}

#[test]
fn test_normalize_app_name_already_normal() {
    assert_eq!(normalize_app_name("calculator"), "calculator");
}

#[test]
fn test_normalize_app_name_empty() {
    assert_eq!(normalize_app_name(""), "");
}

#[test]
fn test_app_name_matches_exact() {
    assert!(app_name_matches("Calculator", "calculator"));
}

#[test]
fn test_app_name_matches_target_contains_found() {
    assert!(app_name_matches("Calculator", "gnome-calculator"));
}

#[test]
fn test_app_name_matches_found_contains_target() {
    assert!(app_name_matches(
        "GNOME Calculator 46.1",
        "gnome-calculator"
    ));
}

#[test]
fn test_app_name_matches_no_match() {
    assert!(!app_name_matches("Firefox", "gnome-calculator"));
}

#[test]
fn test_app_name_matches_hyphen_vs_space() {
    assert!(app_name_matches("gnome calculator", "gnome-calculator"));
}

#[test]
fn test_app_name_matches_empty_target() {
    assert!(!app_name_matches("Calculator", ""));
}

#[test]
fn test_app_name_matches_empty_found() {
    assert!(!app_name_matches("", "calculator"));
}

#[test]
fn test_app_name_matches_both_empty() {
    assert!(!app_name_matches("", ""));
}

#[test]
fn xpath_literal_plain() {
    assert_eq!(xpath_literal("OK"), "'OK'");
}

#[test]
fn xpath_literal_with_apostrophe() {
    assert_eq!(xpath_literal("John's"), "\"John's\"");
}

#[test]
fn xpath_literal_with_double_quote() {
    assert_eq!(xpath_literal("a\"b"), "'a\"b'");
}

#[test]
fn xpath_literal_with_both_quotes() {
    // "a'b\"c" → concat('a', "'", 'b"c')
    let out = xpath_literal("a'b\"c");
    assert_eq!(out, "concat('a', \"'\", 'b\"c')");
}

#[test]
fn find_by_id_xpath_simple() {
    assert_eq!(find_by_id_xpath("submit-btn"), "//*[@id='submit-btn']");
}

#[test]
fn find_by_id_xpath_escapes_apostrophe() {
    // An id with a single quote must use double-quoted literal.
    assert_eq!(find_by_id_xpath("a'b"), "//*[@id=\"a'b\"]");
}

#[test]
fn find_by_name_xpath_simple() {
    assert_eq!(find_by_name_xpath("OK"), "//*[@name='OK']");
}

#[test]
fn find_by_name_xpath_with_space() {
    // Spaces are fine in XPath string literals — no special handling needed.
    assert_eq!(find_by_name_xpath("Save As"), "//*[@name='Save As']");
}

#[test]
fn find_by_name_xpath_with_both_quotes_uses_concat() {
    assert_eq!(
        find_by_name_xpath("John's \"file\""),
        "//*[@name=concat('John', \"'\", 's \"file\"')]"
    );
}

#[test]
fn find_by_role_name_xpath_composes_role_and_name() {
    assert_eq!(
        find_by_role_name_xpath("PushButton", "OK"),
        "//PushButton[@name='OK']"
    );
}

#[test]
fn find_by_role_name_xpath_preserves_role_as_element_name() {
    // Role string is NOT escaped — it's used as the XPath node-test, so
    // callers pass PascalCase role names directly.
    assert_eq!(
        find_by_role_name_xpath("MenuItem", "File"),
        "//MenuItem[@name='File']"
    );
}

// ── Launching ───────────────────────────────────────────────────────────────

#[test]
fn test_get_host_session_bus_from_env() {
    let addr = "unix:path=/run/user/1000/bus";
    let result = get_host_session_bus_inner(Some(addr), 0);
    assert_eq!(result, addr);
}

#[test]
fn test_get_host_session_bus_fallback() {
    let result = get_host_session_bus_inner(None, 1000);
    assert!(
        result.contains("/run/user/"),
        "expected /run/user/ path, got: {result}"
    );
    assert_eq!(result, "unix:path=/run/user/1000/bus");
}

#[test]
fn app_env_pairs_includes_core_isolation_and_extra_env() {
    let cfg = minimal_cfg();
    let env = app_env_pairs(&cfg, "wayland-9", "/tmp/wd-dir", "unix:path=/tmp/bus");
    let get = |k: &str| {
        env.iter()
            .find(|(key, _)| key == k)
            .map(|(_, v)| v.as_str())
    };
    assert_eq!(get("WAYLAND_DISPLAY"), Some("wayland-9"));
    assert_eq!(get("DBUS_SESSION_BUS_ADDRESS"), Some("unix:path=/tmp/bus"));
    assert_eq!(get("GTK_A11Y"), Some("atspi"));
    // gsettings isolation on → keyfile backend + private config home.
    assert!(get("XDG_CONFIG_HOME").is_some());
    assert_eq!(get("GSETTINGS_BACKEND"), Some(KEYFILE_BACKEND));
    // xdg isolation on → private state dir.
    assert!(get("XDG_STATE_HOME").is_some());
    // Caller-supplied env is carried through (applied last).
    assert_eq!(get("CUSTOM"), Some("1"));
}

#[test]
fn app_env_pairs_skips_isolation_dirs_when_disabled() {
    let mut cfg = minimal_cfg();
    cfg.gsettings_isolated = false;
    cfg.xdg_isolated = false;
    let env = app_env_pairs(&cfg, "wayland-9", "/tmp/wd-dir", "unix:path=/tmp/bus");
    let has = |k: &str| env.iter().any(|(key, _)| key == k);
    assert!(!has("GSETTINGS_BACKEND"));
    assert!(!has("XDG_CONFIG_HOME"));
    assert!(!has("XDG_STATE_HOME"));
    // Core env is still present.
    assert!(has("WAYLAND_DISPLAY"));
}

#[test]
fn environment_is_applied_in_order() {
    let mut cfg = minimal_cfg();
    cfg.extra_env = vec![("GTK_A11Y".into(), "none".into())];
    let env = app_env_pairs(&cfg, "w", "/r", "b");
    let keys: Vec<&str> = env.iter().map(|(k, _)| k.as_str()).collect();
    assert_eq!(
        keys,
        vec![
            "WAYLAND_DISPLAY",
            "DBUS_SESSION_BUS_ADDRESS",
            "XDG_RUNTIME_DIR",
            "NO_AT_BRIDGE",
            "GTK_A11Y",
            "XDG_CONFIG_HOME",
            "GSETTINGS_BACKEND",
            "XDG_STATE_HOME",
            "XDG_DATA_HOME",
            "XDG_CACHE_HOME",
            "GTK_A11Y",
        ]
    );
    assert_eq!(env[5].1, "/r/config");
    assert_eq!(env.last().unwrap().1, "none");
    assert!(!keys.contains(&"HOME"));
}

#[test]
fn directories_are_those_that_the_environment_points_at() {
    let mut cfg = minimal_cfg();
    assert_eq!(
        directories(&cfg, "/r"),
        vec!["/r/config", "/r/xdg-state", "/r/xdg-data", "/r/xdg-cache"]
    );
    cfg.xdg_isolated = false;
    assert_eq!(directories(&cfg, "/r"), vec!["/r/config"]);
    cfg.gsettings_isolated = false;
    assert!(directories(&cfg, "/r").is_empty());
}

#[test]
fn isolated_xdg_env_dirs_are_private_and_distinct() {
    let runtime = "/tmp/wd-session-test";
    let dirs = isolated_xdg_env(runtime);
    let keys: Vec<&str> = dirs.iter().map(|(k, _)| k.as_str()).collect();
    assert_eq!(keys, ["XDG_STATE_HOME", "XDG_DATA_HOME", "XDG_CACHE_HOME"]);
    let mut paths = std::collections::HashSet::new();
    for (key, path) in &dirs {
        assert!(
            path.starts_with(runtime),
            "{key} must live under the runtime dir, got {path:?}"
        );
        assert!(paths.insert(path.clone()), "{key} collides: {path:?}");
    }
}

#[test]
fn resolve_default_timeout_cases() {
    assert_eq!(DEFAULT_TIMEOUT_ENV_VAR, "WAYDRIVER_DEFAULT_TIMEOUT_MS");
    assert_eq!(FALLBACK_DEFAULT_TIMEOUT_MS, 5_000);
    // Case 1: unset → fallback.
    assert_eq!(resolve_default_timeout(None), FALLBACK_DEFAULT_TIMEOUT_MS);
    // Case 2: valid number → parsed as milliseconds.
    assert_eq!(resolve_default_timeout(Some("750")), 750);
    // Case 3: garbage → fallback.
    assert_eq!(
        resolve_default_timeout(Some("not-a-number")),
        FALLBACK_DEFAULT_TIMEOUT_MS
    );
    // Case 4: empty string → fallback.
    assert_eq!(resolve_default_timeout(Some("")), FALLBACK_DEFAULT_TIMEOUT_MS);
    assert_eq!(resolve_default_timeout(Some("+7")), 7);
    assert_eq!(
        resolve_default_timeout(Some("-7")),
        FALLBACK_DEFAULT_TIMEOUT_MS
    );
    assert_eq!(
        resolve_default_timeout(Some("99999999999999999999")),
        FALLBACK_DEFAULT_TIMEOUT_MS
    );
}

#[test]
fn secondary_instances_share_the_environment() {
    let mut cfg = minimal_cfg();
    cfg.cwd = Some("/w".to_string());
    let env = app_env_pairs(&cfg, "w", "/r", "b");
    let spec = secondary_spec(&cfg, &env);
    assert_eq!(spec.command, "true");
    assert_eq!(spec.env, env);
    assert_eq!(spec.cwd.as_deref(), Some("/w"));
    assert_eq!(SECONDARY_LAUNCH_TIMEOUT_SECS, 15);
    assert_eq!(
        secondary_timeout("true", 1, 500_000_000).to_string(),
        "timeout: secondary instance 'true' did not exit within 1.5s"
    );
    assert_eq!(
        secondary_error("true", "nope").to_string(),
        "process: launch secondary 'true': nope"
    );
    assert_eq!(
        spawn_error("true", "nope").to_string(),
        "process: app 'true': nope"
    );
    let left = SecondaryInstance {
        exit_code: Some(0),
        stdout: "out".to_string(),
        stderr: String::new(),
    };
    assert_eq!(left.clone().stdout, "out");
    assert_eq!(ColorDistance::default(), ColorDistance::LabCie76);
}

// ── Names and lookups ───────────────────────────────────────────────────────

#[test]
fn names_match_either_way_round() {
    assert!(app_name_matches("gnome-calculator", "Calculator"));
    assert!(app_name_matches("Calculator", "gnome-calculator"));
    assert!(app_name_matches("STRASSE-Ä", "straße ä") == app_name_matches("straße ä", "STRASSE-Ä"));
    assert_eq!(normalize_app_name("ÄRGER-App"), "ärger app");
}

#[test]
fn lookups_find_any_name() {
    for name in ["OK", "John's", "a\"b", "a'b\"c", "'", "\"'\"'", "x:y", "Resume", "sum(1)", ""] {
        let quoted = name
            .replace('&', "&amp;")
            .replace('"', "&quot;")
            .replace('\'', "&apos;");
        let xml = format!("<A _ref=\"b|/r\"><B id=\"{quoted}\" name=\"{quoted}\" _ref=\"b|/b\"/></A>");
        for xpath in [
            find_by_id_xpath(name),
            find_by_name_xpath(name),
            find_by_role_name_xpath("B", name),
        ] {
            assert!(!selector_uses_prefix(&xpath));
            let hits = evaluate_xpath(&xml, &xpath).unwrap();
            assert_eq!(hits, vec![("b".to_string(), "/b".to_string())], "{xpath}");
        }
    }
    assert_eq!(xpath_literal("'\""), "concat('', \"'\", '\"')");
}

// ── Windows ─────────────────────────────────────────────────────────────────

#[test]
fn the_last_of_equally_large_boxes_counts() {
    // 40×20 and 20×40 are equally large.
    let boxes = [rect(0, 0, 40, 20), rect(0, 0, 20, 40)];
    assert_eq!(centered_window_origin(&boxes, 100, 100), Some((40, 30)));
    assert_eq!(centered_window_origin(&[], 100, 100), None);
    // The margin is rounded down.
    assert_eq!(
        centered_window_origin(&[rect(0, 0, 99, 98)], 100, 100),
        Some((0, 1))
    );
}

#[test]
fn window_origin_comes_from_the_tree() {
    let xml = "<A bbox=\"0,0,720,640\" _ref=\"b|/r\"><B _ref=\"b|/b\"/><C bbox=\"12,360,696,800\" _ref=\"b|/c\"/></A>";
    let all = evaluate_xpath_detailed(xml, "//*").unwrap();
    assert_eq!(window_origin(&all, 1024, 768).unwrap(), (152, 64));
    match window_origin(&[], 1024, 768).unwrap_err() {
        Error::Atspi { message, .. } => assert_eq!(
            message,
            "window_origin: AT-SPI tree has no on-screen-sized elements to size the toplevel"
        ),
        e => panic!("unexpected {e:?}"),
    }
    assert_eq!(
        to_screen_bounds(rect(1, 2, 3, 4), (152, 64)),
        rect(153, 66, 3, 4)
    );
}

// ── State ───────────────────────────────────────────────────────────────────

#[test]
fn session_default_timeout_can_be_overridden() {
    let mut s = make_test_session();
    assert_eq!(s.default_timeout(), 5_000_000_000);
    s.set_default_timeout(1_234_000_000);
    assert_eq!(s.default_timeout(), 1_234_000_000);
    // What does not fit into 64 bits is cut off.
    s.set_default_timeout(u64::MAX as u128 + 8);
    assert_eq!(s.default_timeout(), 7);
}

#[test]
fn started_sessions_take_over_what_was_found() {
    let cfg = minimal_cfg();
    let holdings = Holdings {
        sinks: true,
        reader: true,
        recorder: false,
        recorder_stream: false,
        keepalive: true,
    };
    let env = app_env_pairs(&cfg, "w", "/r", "b");
    let s = Session::started(
        "id".to_string(),
        &cfg,
        (":1.7".to_string(), "/app".to_string()),
        secondary_spec(&cfg, &env),
        holdings,
        Some("750"),
    );
    assert_eq!(s.id, "id");
    assert_eq!(s.app_name, "x");
    assert_eq!((s.app_bus_name.as_str(), s.app_path.as_str()), (":1.7", "/app"));
    assert_eq!(s.default_timeout(), 750_000_000);
    assert!(s.require_connection().is_ok());
    assert!(s.require_stream().is_ok());
    assert!(s.external_effects_enabled());
    assert_eq!(s.holdings(), holdings);
    assert_eq!(s.launch_secondary().unwrap().command, "true");
    let e = s.set_setting("org.x", "k", "1").unwrap();
    assert_eq!((e.schema.as_str(), e.key.as_str(), e.value.as_str()), ("org.x", "k", "1"));
}

#[test]
fn session_dump_tree_without_a11y_errors_cleanly() {
    let err = make_test_session().require_connection().unwrap_err();
    assert!(matches!(err, Error::Atspi { .. }));
    assert!(err.to_string().contains("no AT-SPI connection"));
}

#[test]
fn session_without_a_stream_takes_no_screenshots() {
    let err = make_test_session().require_stream().unwrap_err();
    assert_eq!(err.to_string(), "screenshot: no keepalive stream");
}

#[test]
fn set_setting_errors_without_gsettings_isolation() {
    // A test session is not isolated, so set_setting must refuse up front
    // rather than attempt a keyfile write.
    let s = make_test_session();
    let err = s
        .set_setting("org.gnome.desktop.interface", "text-scaling-factor", "1.5")
        .expect_err("set_setting must error when the session isn't gsettings-isolated");
    assert!(
        matches!(err, Error::Process { ref message, .. } if message.contains("isolation")),
        "expected an isolation-required Process error, got: {err:?}"
    );
}

#[test]
fn cancelled_sessions_launch_nothing() {
    let mut s = make_test_session();
    assert!(!s.is_cancelled());
    s.cancel();
    s.cancel();
    assert!(s.is_cancelled());
    assert!(matches!(s.launch_secondary(), Err(Error::Cancelled)));
}

// ── Printed lines ───────────────────────────────────────────────────────────

fn matched(s: &Session, after: usize, part: &str, expired: bool) -> WaitAction {
    let part = part.to_string();
    s.look_for_stdout_line(after, move |l: &String| l.contains(&part), expired, 0, 50_000_000)
}

#[test]
fn wait_for_stdout_line_returns_existing_match_immediately() {
    let mut s = make_test_session();
    s.push_stdout_line("fixture-event: clicked primary-button".to_string());
    match matched(&s, 0, "clicked primary-button", false) {
        WaitAction::Ready(i) => {
            assert!(s.stdout_lines()[i].contains("clicked primary-button"));
        }
        other => panic!("should match existing line, got {other:?}"),
    }
}

#[test]
fn wait_for_stdout_line_respects_after_cursor() {
    let mut s = make_test_session();
    // Pre-existing noise the test should skip past.
    s.push_stdout_line("some startup chatter".to_string());
    s.push_stdout_line("fixture-event: clicked old-button".to_string());
    let cursor = s.stdout_cursor();
    assert_eq!(cursor, 2);

    // Line added after cursor — should match.
    s.push_stdout_line("fixture-event: clicked new-button".to_string());
    match matched(&s, cursor, "clicked", false) {
        WaitAction::Ready(i) => assert!(s.stdout_lines()[i].contains("new-button")),
        other => panic!("should match line after cursor, got {other:?}"),
    }
}

#[test]
fn wait_for_stdout_line_wakes_on_notify() {
    let mut s = make_test_session();
    let cursor = s.stdout_cursor();
    assert!(matches!(
        matched(&s, cursor, "async-button", false),
        WaitAction::Sleep
    ));
    s.push_stdout_line("fixture-event: clicked async-button".to_string());
    assert!(s.stdout_wake_up(WakeUp::Grown, cursor, 2, 0).is_none());
    assert!(matches!(
        matched(&s, cursor, "async-button", false),
        WaitAction::Ready(0)
    ));
}

#[test]
fn wait_for_stdout_line_times_out_when_no_match() {
    let mut s = make_test_session();
    s.push_stdout_line("one".to_string());
    s.push_stdout_line("two".to_string());
    match matched(&s, 1, "never", true) {
        WaitAction::Fail(Error::Timeout(m)) => assert_eq!(
            m,
            "no stdout line matched within 50ms (buffer had 1 line(s) after cursor 1)"
        ),
        other => panic!("got: {other:?}"),
    }
    match s.stdout_wake_up(WakeUp::Elapsed, 7, 0, 50_000_000) {
        Some(Error::Timeout(m)) => assert_eq!(
            m,
            "no stdout line matched within 50ms (buffer had 0 line(s) after cursor 7)"
        ),
        other => panic!("got: {other:?}"),
    }
    // A match counts even when the time is up.
    assert!(matches!(matched(&s, 0, "two", true), WaitAction::Ready(1)));
}

#[test]
fn wait_for_stdout_line_bails_when_cancelled() {
    let s = make_test_session();
    assert!(matches!(matched(&s, 0, "never", false), WaitAction::Sleep));
    let err = s.stdout_wake_up(WakeUp::Cancelled, 0, 5, 0);
    assert!(matches!(err, Some(Error::Cancelled)), "got: {err:?}");
}

// ── Accessibles outside the tree ────────────────────────────────────────────

fn accessible(path: &str) -> CachedAccessible {
    CachedAccessible {
        ref_: ("b".to_string(), path.to_string()),
        role: "Label".to_string(),
        name: None,
        description: None,
        states: vec![],
        parent_path: None,
        child_count: 0,
    }
}

#[test]
fn hidden_accessibles_are_those_the_tree_lacks() {
    let xml = "<A _ref=\"b|/r\"><B _ref=\"other|/b\"/></A>";
    let cached = [accessible("/x"), accessible("/r"), accessible("/b"), accessible("/y")];
    let hidden = hidden_accessibles(xml, &cached).unwrap();
    let paths: Vec<&str> = hidden.iter().map(|c| c.ref_.1.as_str()).collect();
    assert_eq!(paths, vec!["/x", "/y"]);
    assert!(hidden_accessibles(xml, &[]).unwrap().is_empty());
    assert!(hidden_accessibles("<A", &cached).is_err());
}

#[test]
fn released_sinks_capture_nothing_more() {
    let mut cfg = minimal_cfg();
    cfg.capture_external_effects = true;
    let mut session = Session::started(
        "s".to_string(),
        &cfg,
        (":1.1".to_string(), "/root".to_string()),
        secondary_spec(&cfg, &vec![]),
        Holdings {
            sinks: true,
            reader: true,
            recorder: false,
            recorder_stream: false,
            keepalive: true,
        },
        None,
    );
    let uri = "https://a".to_string();
    // Nothing was numbered before.
    let handle = session.open_uri(":1.2", None, String::new(), uri.clone(), &vec![]);
    assert_eq!(
        handle.as_deref(),
        Some("/org/freedesktop/portal/desktop/request/1_2/wd1")
    );
    assert_eq!(session.open_uri_cursor().unwrap(), 1);
    let id = session.notify(
        "a".to_string(),
        0,
        String::new(),
        "s".to_string(),
        String::new(),
        vec![],
        &vec![],
        -1,
    );
    assert_eq!(id, Some(1));
    session.release_sinks();
    assert!(!session.external_effects_enabled());
    assert!(!session.holdings().sinks);
    assert!(session.holdings().keepalive);
    assert!(session.open_uri_cursor().is_err());
    assert!(session
        .open_uri(":1.2", None, String::new(), uri, &vec![])
        .is_none());
}

#[test]
fn largest_fitting_box_fits_the_screen() {
    let boxes = [
        rect(0, 0, 50, 40),
        rect(1, 1, 60, 40),
        rect(0, 0, 900, 10),
        rect(9, 9, 40, 60),
    ];
    assert_eq!(largest_fitting(&boxes, 100, 100).unwrap().width * 100, 4000);
    assert!(largest_fitting(&boxes, 10, 10).is_none());
}
