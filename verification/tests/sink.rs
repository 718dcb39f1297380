//! Captured notifications and requests to open a URI.
use waydriver::sink::{
    after_sleep, get_capabilities, get_server_information, render_dict, request_handle_path,
    response_destination, CapturedNotification, ExternalSinks, NotificationLog, OpenUriLog, Records,
    WaitAction, WakeUp, FALLBACK_HANDLE,
};
use waydriver::{Error, Session};
use zbus::zvariant::{OwnedValue, Value};

#[test]
fn records_push_assigns_monotonic_seq_and_snapshots() {
    let mut r: Records<u64> = Records::default();
    assert_eq!(r.len(), 0);
    r.push(|seq| seq);
    r.push(|seq| seq * 10);
    assert_eq!(r.snapshot(), vec![0, 10]);
    assert_eq!(r.len(), 2);
    assert_eq!(*r.get(1), 10);
}

#[test]
fn request_handle_path_strips_unique_name() {
    assert_eq!(
        request_handle_path(":1.42", "tok"),
        "/org/freedesktop/portal/desktop/request/1_42/tok"
    );
    // Empty sender falls back so the path stays valid.
    assert_eq!(
        request_handle_path("", "tok"),
        "/org/freedesktop/portal/desktop/request/wd/tok"
    );
}

#[test]
fn render_dict_is_sorted_key_value() {
    let zeta = OwnedValue::try_from(Value::from(2u32)).unwrap();
    let alpha = OwnedValue::try_from(Value::from(1u32)).unwrap();
    let d = vec![
        ("zeta".to_string(), format!("{zeta:?}")),
        ("alpha".to_string(), format!("{alpha:?}")),
    ];
    let r = render_dict(&d);
    assert_eq!(r.len(), 2);
    assert!(r[0].starts_with("alpha="), "got {r:?}");
    assert!(r[1].starts_with("zeta="), "got {r:?}");
}

#[test]
fn lines_of_a_dictionary_are_sorted_as_a_whole() {
    let d = |k: &str, v: &str| (k.to_string(), v.to_string());
    assert_eq!(
        render_dict(&vec![d("b", "1"), d("a", "2"), d("a-b", "3"), d("é", "4")]),
        vec!["a-b=3", "a=2", "b=1", "é=4"]
    );
    assert!(render_dict(&vec![]).is_empty());
}

#[test]
fn wait_for_returns_existing_match() {
    let mut r: Records<u64> = Records::default();
    r.push(|_| 7);
    match r.look(0, |v: &u64| *v == 7, false, 1, 0) {
        WaitAction::Ready(i) => assert_eq!(*r.get(i), 7),
        other => panic!("got {other:?}"),
    }
}

#[test]
fn wait_for_times_out_without_match() {
    let r: Records<u64> = Records::default();
    let res = r.look(0, |_: &u64| false, true, 0, 50_000_000);
    match res {
        WaitAction::Fail(Error::Timeout(m)) => {
            assert_eq!(m, "no captured entry matched within 50ms")
        }
        other => panic!("got {other:?}"),
    }
    assert!(matches!(
        after_sleep(WakeUp::Elapsed, 0, 50_000_000),
        Some(Error::Timeout(_))
    ));
}

#[test]
fn wait_for_wakes_on_push() {
    let mut r: Records<u64> = Records::default();
    assert!(matches!(
        r.look(0, |v: &u64| *v == 99, false, 5, 0),
        WaitAction::Sleep
    ));
    r.push(|_| 99);
    assert!(after_sleep(WakeUp::Grown, 5, 0).is_none());
    assert!(matches!(
        r.look(0, |v: &u64| *v == 99, false, 5, 0),
        WaitAction::Ready(0)
    ));
}

#[test]
fn wait_for_cancels() {
    let res = after_sleep(WakeUp::Cancelled, 5, 0);
    assert!(matches!(res, Some(Error::Cancelled)));
}

#[test]
fn waits_begin_at_their_cursor() {
    let mut r: Records<u64> = Records::default();
    for v in [7, 8, 7] {
        r.append(v);
    }
    assert_eq!(r.find_after(0, |v: &u64| *v == 7), Some(0));
    assert_eq!(r.find_after(1, |v: &u64| *v == 7), Some(2));
    assert_eq!(r.find_after(3, |v: &u64| *v == 7), None);
    assert_eq!(r.find_after(9, |_: &u64| true), None);
}

fn notify(log: &mut NotificationLog, replaces: u32) -> u32 {
    log.notify(
        "app".to_string(),
        replaces,
        "icon".to_string(),
        "summary".to_string(),
        "body".to_string(),
        vec!["default".to_string(), "Open".to_string()],
        &vec![
            ("urgency".to_string(), "1".to_string()),
            ("category".to_string(), "\"im\"".to_string()),
        ],
        -1,
    )
}

#[test]
fn notifications_get_ids_and_numbers() {
    let mut log = NotificationLog::new();
    assert_eq!(notify(&mut log, 0), 1);
    assert_eq!(notify(&mut log, 9), 9);
    assert_eq!(notify(&mut log, 0), 2);
    let all: Vec<CapturedNotification> = log.records().snapshot();
    let numbers: Vec<u64> = all.iter().map(|n| n.seq).collect();
    assert_eq!(numbers, vec![0, 1, 2]);
    assert_eq!(all[1].replaces_id, 9);
    assert_eq!(all[1].id, 9);
    assert_eq!(all[0].hints, vec!["category=\"im\"", "urgency=1"]);
    assert_eq!(all[0].actions, vec!["default", "Open"]);
    assert_eq!(all[0].expire_timeout, -1);
    assert_eq!(
        (all[0].app_name.as_str(), all[0].app_icon.as_str()),
        ("app", "icon")
    );
    assert_eq!(
        (all[0].summary.as_str(), all[0].body.as_str()),
        ("summary", "body")
    );
}

fn open(log: &mut OpenUriLog, sender: &str, token: Option<&str>) -> String {
    log.open_uri(
        sender,
        token.map(str::to_string),
        "x11:1".to_string(),
        "https://example.org".to_string(),
        &vec![("ask".to_string(), "true".to_string())],
    )
}

#[test]
fn requests_get_handles_from_tokens() {
    let mut log = OpenUriLog::new();
    let base = "/org/freedesktop/portal/desktop/request";
    assert_eq!(open(&mut log, ":1.7", Some("tok")), format!("{base}/1_7/tok"));
    assert_eq!(open(&mut log, ":1.7", None), format!("{base}/1_7/wd1"));
    assert_eq!(open(&mut log, "", None), format!("{base}/wd/wd2"));
    // A handle that is no object path is replaced.
    assert_eq!(open(&mut log, ":1.7", Some("a b")), FALLBACK_HANDLE);
    assert_eq!(open(&mut log, ":1.7", Some("")), FALLBACK_HANDLE);
    assert_eq!(open(&mut log, ":1.7", Some("é")), FALLBACK_HANDLE);
    let all = log.records().snapshot();
    assert_eq!(all.len(), 6);
    assert_eq!(all[5].seq, 5);
    assert_eq!(all[0].uri, "https://example.org");
    assert_eq!(all[0].parent_window, "x11:1");
    assert_eq!(all[0].options, vec!["ask=true"]);
}

#[test]
fn services_describe_themselves() {
    assert_eq!(get_capabilities(), vec!["body", "body-markup", "actions"]);
    assert_eq!(
        get_server_information("0.1.0"),
        (
            "waydriver".to_string(),
            "waydriver".to_string(),
            "0.1.0".to_string(),
            "1.2".to_string()
        )
    );
    assert_eq!(response_destination(":1.7").as_deref(), Some(":1.7"));
    assert_eq!(response_destination(""), None);
}

#[test]
fn both_services_start_empty() {
    let sinks = ExternalSinks::new();
    assert_eq!(sinks.notification_count(), 0);
    assert_eq!(sinks.open_uri_count(), 0);
    assert!(sinks.notifications().is_empty());
    assert!(sinks.open_uri_requests().is_empty());
}

#[test]
fn sessions_without_capture_say_so() {
    let mut s = Session::new_for_test("t", "a");
    assert!(!s.external_effects_enabled());
    let text = "process: external-effect capture is not enabled for this session; start it with SessionConfig.capture_external_effects = true";
    assert_eq!(s.notifications().unwrap_err().to_string(), text);
    assert_eq!(s.open_uri_requests().unwrap_err().to_string(), text);
    assert_eq!(s.notification_cursor().unwrap_err().to_string(), text);
    assert_eq!(s.open_uri_cursor().unwrap_err().to_string(), text);
    assert!(s
        .look_for_notification(0, |_: &CapturedNotification| true, false, 1, 0)
        .is_err());
    assert!(s
        .open_uri(":1.7", None, String::new(), String::new(), &vec![])
        .is_none());
}
