//! Errors and what they are shown as.
use waydriver::Error;

#[test]
fn test_error_display() {
    assert_eq!(
        Error::ElementNotFound {
            xpath: "//PushButton[@name='OK']".into()
        }
        .to_string(),
        "element not found for selector: //PushButton[@name='OK']"
    );
    assert_eq!(
        Error::AmbiguousSelector {
            xpath: "//PushButton".into(),
            count: 12,
        }
        .to_string(),
        "selector matched 12 elements (expected exactly one): //PushButton"
    );
    assert_eq!(
        Error::InvalidSelector {
            xpath: "//[".into(),
            reason: "unexpected token".into(),
        }
        .to_string(),
        "invalid selector '//[': unexpected token"
    );
    assert_eq!(
        Error::atspi("registry unavailable").to_string(),
        "AT-SPI: registry unavailable"
    );
    assert_eq!(
        Error::Timeout("socket did not appear".to_string()).to_string(),
        "timeout: socket did not appear"
    );
    assert_eq!(
        Error::process("dbus-launch failed").to_string(),
        "process: dbus-launch failed"
    );
    assert_eq!(
        Error::screenshot("capture failed").to_string(),
        "screenshot: capture failed"
    );
}

#[test]
fn test_error_from_io() {
    let io_err = std::io::Error::new(std::io::ErrorKind::NotFound, "file missing");
    let err = Error::Io(io_err.to_string());
    assert!(err.to_string().contains("IO:"));
    assert!(err.to_string().contains("file missing"));
}

#[test]
fn with_constructor_appends_source_to_message() {
    let io_err = std::io::Error::other("boom");
    let err = Error::screenshot_with("CreateSession", &io_err.to_string());
    assert_eq!(err.to_string(), "screenshot: CreateSession: boom");
}

#[test]
fn with_constructor_preserves_source() {
    let err = Error::process_with("spawn", "nope");
    assert_eq!(err.source(), Some("nope"));
    assert_eq!(err.to_string(), "process: spawn: nope");
    assert_eq!(Error::atspi_with("read", "gone").source(), Some("gone"));
}

#[test]
fn sourceless_constructor_has_no_source() {
    let err = Error::atspi("registry gone");
    assert!(err.source().is_none());
}

#[test]
fn bus_and_stale_errors_are_shown() {
    assert_eq!(Error::Zbus("down".to_string()).to_string(), "D-Bus: down");
    assert_eq!(
        Error::stale("//X", ":1.2", "/p").to_string(),
        "element went stale during action (selector: //X, bus: :1.2, path: /p)"
    );
    assert_eq!(Error::Cancelled.to_string(), "cancelled");
}
