//! Starting, finding and shutting down.
use waydriver::backend::stream_token_mismatch;
use waydriver::lifecycle::{
    app_name_matches, kill_timeout, normalize_app_name, shutdown, stop_failure, AppSearch,
    Holdings, SearchStep, StartStep, Startup, StopStep, APP_DISCOVERY_POLLS,
};
use waydriver::{Error, SessionConfig};

fn cfg(video: bool, sinks: bool) -> SessionConfig {
    SessionConfig {
        command: "true".into(),
        args: vec![],
        cwd: None,
        app_name: "x".into(),
        video_output: if video {
            Some("/tmp/x.webm".into())
        } else {
            None
        },
        video_bitrate: None,
        video_fps: Some(30),
        prewarm_visual: false,
        gsettings_isolated: true,
        xdg_isolated: true,
        extra_env: vec![],
        capture_external_effects: sinks,
    }
}

fn start(
    cfg: &SessionConfig,
    fails: impl Fn(StartStep) -> bool,
) -> (Vec<StartStep>, bool, Result<(), Error>) {
    let mut run = Startup::begin(cfg);
    let mut steps = Vec::new();
    while let Some(step) = run.next() {
        steps.push(step);
        run.report(if fails(step) {
            Err(Error::process("failed"))
        } else {
            Ok(())
        });
    }
    (steps, run.captures_effects(), run.finish())
}

#[test]
fn sessions_start_step_by_step() {
    let (steps, sinks, result) = start(&cfg(true, true), |_| false);
    assert!(result.is_ok());
    assert!(sinks);
    assert_eq!(
        steps,
        vec![
            StartStep::SpawnApp,
            StartStep::ConnectA11y,
            StartStep::FindApp,
            StartStep::StartSinks,
            StartStep::StartKeepalive,
            StartStep::PrimeKeyboard(0xffe1),
            StartStep::StartRecordingStream,
            StartStep::StartRecording {
                bitrate: 2_000_000,
                fps: 30
            },
        ]
    );
    let (steps, sinks, _) = start(&cfg(false, false), |_| false);
    assert!(!sinks);
    assert_eq!(steps.len(), 5);
}

#[test]
fn sessions_do_without_what_is_not_vital() {
    let (steps, sinks, result) = start(&cfg(false, true), |s| {
        matches!(s, StartStep::StartSinks | StartStep::PrimeKeyboard(_))
    });
    assert!(result.is_ok());
    assert!(!sinks);
    assert_eq!(steps.len(), 6);
}

#[test]
fn the_first_vital_failure_ends_the_start() {
    let (steps, _, result) = start(&cfg(true, true), |s| {
        matches!(s, StartStep::StartSinks | StartStep::StartRecordingStream)
    });
    assert!(matches!(result, Err(Error::Process { .. })));
    assert_eq!(steps.last(), Some(&StartStep::StartRecordingStream));
    let (steps, _, result) = start(&cfg(true, true), |s| s == StartStep::ConnectA11y);
    assert!(result.is_err());
    assert_eq!(steps.len(), 2);
}

#[test]
fn applications_are_found_by_name() {
    let mut search = AppSearch::new("gnome-calculator");
    assert!(search.accepts(Some(":1.4"), Some("Calculator")));
    assert!(!search.accepts(None, Some("Calculator")));
    assert!(!search.accepts(Some(":1.4"), None));
    assert!(!search.accepts(Some(":1.4"), Some("Firefox")));
    for _ in 0..APP_DISCOVERY_POLLS {
        assert!(matches!(search.next(), SearchStep::Scan));
        search.missed();
    }
    match search.next() {
        SearchStep::Fail(Error::Timeout(m)) => assert_eq!(
            m,
            "app 'gnome-calculator' did not appear in AT-SPI registry within 10s"
        ),
        other => panic!("unexpected {other:?}"),
    }
}

#[test]
fn sessions_shut_down_in_order() {
    let all = Holdings {
        sinks: true,
        reader: true,
        recorder: true,
        recorder_stream: true,
        keepalive: true,
    };
    assert_eq!(
        shutdown(all),
        vec![
            StopStep::Cancel,
            StopStep::ReleaseSinks,
            StopStep::StopReader,
            StopStep::KillApp,
            StopStep::StopRecording,
            StopStep::StopRecordingStream,
            StopStep::StopKeepalive,
            StopStep::ReleaseBackends,
            StopStep::StopCompositor,
        ]
    );
    let none = Holdings {
        sinks: false,
        reader: false,
        recorder: false,
        recorder_stream: false,
        keepalive: false,
    };
    assert_eq!(
        shutdown(none),
        vec![
            StopStep::Cancel,
            StopStep::KillApp,
            StopStep::ReleaseBackends,
            StopStep::StopCompositor
        ]
    );
}

#[test]
fn only_the_compositor_can_fail_a_shutdown() {
    let failed = || Err(Error::process("failed"));
    assert!(stop_failure(StopStep::StopRecording, failed()).is_none());
    assert!(stop_failure(StopStep::KillApp, failed()).is_none());
    assert!(stop_failure(StopStep::StopCompositor, Ok(())).is_none());
    assert!(stop_failure(StopStep::StopCompositor, failed()).is_some());
    assert_eq!(
        kill_timeout("s1").to_string(),
        "timeout: session s1 kill exceeded 5s budget"
    );
}

#[test]
fn stream_tokens_name_both_types() {
    assert_eq!(
        stream_token_mismatch("u32", "String").to_string(),
        "screenshot: stream token type mismatch: expected u32, found String"
    );
}

#[test]
fn names_match_by_their_normal_form() {
    for name in ["My-App", "gnome calculator", "-", "Ünïcode"] {
        assert!(app_name_matches(name, name));
        let normal = normalize_app_name(name);
        assert_eq!(normalize_app_name(&normal), normal);
        assert!(app_name_matches(&normal, name));
    }
    assert!(app_name_matches("MY APP", "my-app"));
}
