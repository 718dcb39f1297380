//! Screenshots and recordings.
use waydriver::capture::{
    build_pipeline_str, build_recording_pipeline_str, lock_capture, path_has_blanks,
    pipeline_error, recording_stopped, screenshot_size, validate_pipewire_socket, EnvChange,
    EnvGuard, GrabRun, GrabStep, LockAction, LockAttempt, PipelineFault, RecordingEnd,
    CAPTURE_LOCK_TIMEOUT_SECS, DEFAULT_VIDEO_BITRATE, DEFAULT_VIDEO_FPS,
};
use waydriver::Error;

#[test]
fn test_build_pipeline_str_contains_node_id() {
    let s = build_pipeline_str(42);
    assert!(s.contains("path=42"), "expected path=42, got: {s}");
}

#[test]
fn test_build_pipeline_str_contains_appsink() {
    let s = build_pipeline_str(0);
    assert!(s.contains("appsink name=sink"));
}

#[test]
fn test_build_pipeline_str_contains_pngenc() {
    let s = build_pipeline_str(1);
    assert!(s.contains("pngenc snapshot=true"));
}

#[test]
fn test_build_pipeline_str_max_node_id() {
    let s = build_pipeline_str(u32::MAX);
    assert!(s.contains("path=4294967295"));
}

#[test]
fn test_build_recording_pipeline_str_contains_node_id() {
    let s = build_recording_pipeline_str(
        42,
        "/tmp/out.webm",
        DEFAULT_VIDEO_BITRATE,
        DEFAULT_VIDEO_FPS,
    );
    assert!(s.contains("path=42"));
}

#[test]
fn test_build_recording_pipeline_str_contains_output_path() {
    let s = build_recording_pipeline_str(
        1,
        "/tmp/abc/abc.webm",
        DEFAULT_VIDEO_BITRATE,
        DEFAULT_VIDEO_FPS,
    );
    assert!(
        s.contains("location=/tmp/abc/abc.webm"),
        "expected filesink location=..., got: {s}"
    );
}

#[test]
fn test_build_recording_pipeline_str_uses_vp8_webm() {
    let s = build_recording_pipeline_str(
        0,
        "/tmp/x.webm",
        DEFAULT_VIDEO_BITRATE,
        DEFAULT_VIDEO_FPS,
    );
    assert!(s.contains("vp8enc"), "expected vp8enc: {s}");
    assert!(s.contains("webmmux"), "expected webmmux: {s}");
}

#[test]
fn test_build_recording_pipeline_str_uses_default_fps() {
    let s = build_recording_pipeline_str(
        0,
        "/tmp/x.webm",
        DEFAULT_VIDEO_BITRATE,
        DEFAULT_VIDEO_FPS,
    );
    assert!(
        s.contains(&format!("framerate={DEFAULT_VIDEO_FPS}/1")),
        "expected framerate={DEFAULT_VIDEO_FPS}/1: {s}"
    );
}

#[test]
fn test_build_recording_pipeline_str_honors_custom_fps() {
    let s =
        build_recording_pipeline_str(0, "/tmp/x.webm", DEFAULT_VIDEO_BITRATE, 30);
    assert!(s.contains("framerate=30/1"), "expected framerate=30/1: {s}");
}

#[test]
fn test_build_recording_pipeline_str_keyframe_max_dist_scales_with_fps() {
    let s =
        build_recording_pipeline_str(0, "/tmp/x.webm", DEFAULT_VIDEO_BITRATE, 30);
    assert!(
        s.contains("keyframe-max-dist=60"),
        "expected keyframe-max-dist=60 at 30 fps: {s}"
    );
}

#[test]
fn test_build_recording_pipeline_str_embeds_bitrate() {
    let s =
        build_recording_pipeline_str(0, "/tmp/x.webm", 1_500_000, DEFAULT_VIDEO_FPS);
    assert!(
        s.contains("target-bitrate=1500000"),
        "expected target-bitrate=1500000, got: {s}"
    );
}

#[test]
fn test_build_recording_pipeline_str_caps_quantizer() {
    let s = build_recording_pipeline_str(
        0,
        "/tmp/x.webm",
        DEFAULT_VIDEO_BITRATE,
        DEFAULT_VIDEO_FPS,
    );
    assert!(s.contains("max-quantizer=30"));
    assert!(s.contains("min-quantizer=4"));
}

#[test]
fn default_video_bitrate_is_two_mbps() {
    assert_eq!(DEFAULT_VIDEO_BITRATE, 2_000_000);
}

#[test]
fn default_video_fps_is_fifteen() {
    assert_eq!(DEFAULT_VIDEO_FPS, 15);
}

#[test]
fn test_validate_pipewire_socket_valid() {
    let parent = validate_pipewire_socket("/run/user/1000/pipewire-0").unwrap();
    assert_eq!(parent, "/run/user/1000");
}

#[test]
fn test_validate_pipewire_socket_root() {
    let parent = validate_pipewire_socket("/pipewire-0").unwrap();
    assert_eq!(parent, "/");
}

#[test]
fn test_validate_pipewire_socket_no_parent() {
    assert!(validate_pipewire_socket("").is_err());
}

#[test]
fn pipelines_are_spelled_out() {
    assert_eq!(
        build_pipeline_str(42),
        "pipewiresrc path=42 always-copy=true do-timestamp=true num-buffers=5 ! videoconvert ! pngenc snapshot=true ! appsink name=sink"
    );
    assert_eq!(
        build_recording_pipeline_str(7, "/tmp/x.webm", 2_000_000, 15),
        "pipewiresrc path=7 always-copy=true do-timestamp=true ! videoconvert ! videorate ! video/x-raw,framerate=15/1 ! vp8enc deadline=1 cpu-used=4 target-bitrate=2000000 min-quantizer=4 max-quantizer=30 keyframe-max-dist=30 ! webmmux ! filesink location=/tmp/x.webm"
    );
}

#[test]
fn paths_with_blanks_are_told() {
    assert!(path_has_blanks("/tmp/my video.webm"));
    assert!(path_has_blanks("/tmp/a\u{3000}b"));
    assert!(!path_has_blanks("/tmp/video.webm"));
    assert!(build_recording_pipeline_str(1, "/tmp/a b", 2, 3).ends_with(" location=/tmp/a b"));
}

#[test]
fn socket_without_a_parent_is_an_error() {
    match validate_pipewire_socket("").unwrap_err() {
        Error::Screenshot { message, source } => {
            assert_eq!(message, "pipewire socket path has no parent: ");
            assert_eq!(source, None);
        }
        e => panic!("unexpected {e:?}"),
    }
    assert!(validate_pipewire_socket("/").is_err());
    assert_eq!(validate_pipewire_socket("a/b/c").unwrap(), "a/b");
}

#[test]
fn lock_capture_acquires_when_free() {
    assert!(matches!(
        lock_capture(LockAttempt::Taken, false, 5),
        LockAction::Proceed
    ));
    assert!(matches!(
        lock_capture(LockAttempt::Taken, true, 5),
        LockAction::Proceed
    ));
}

#[test]
fn lock_capture_times_out_when_held() {
    assert!(matches!(
        lock_capture(LockAttempt::Busy, false, CAPTURE_LOCK_TIMEOUT_SECS),
        LockAction::Retry(25)
    ));
    match lock_capture(LockAttempt::Busy, true, CAPTURE_LOCK_TIMEOUT_SECS) {
        LockAction::Fail(Error::Timeout(m)) => assert_eq!(
            m,
            "capture subsystem busy or wedged: GRAB_PNG_LOCK not acquired within 20s (a prior screenshot/recording on a non-responsive session is likely stuck connecting to PipeWire)"
        ),
        other => panic!("unexpected {other:?}"),
    }
    match lock_capture(LockAttempt::Poisoned("boom".to_string()), false, 20) {
        LockAction::Fail(Error::Screenshot { message, .. }) => {
            assert_eq!(message, "grab_png lock poisoned: boom")
        }
        other => panic!("unexpected {other:?}"),
    }
}

fn apply(env: &mut Vec<(String, String)>, change: EnvChange<String>) {
    match change {
        EnvChange::Assign(k, v) => {
            env.retain(|(key, _)| *key != k);
            env.push((k, v));
        }
        EnvChange::Remove(k) => env.retain(|(key, _)| *key != k),
    }
}

fn lookup(env: &[(String, String)], key: &str) -> Option<String> {
    env.iter().find(|(k, _)| k == key).map(|(_, v)| v.clone())
}

fn override_all(
    env: &mut Vec<(String, String)>,
    vars: &[(&str, &str)],
) -> EnvGuard<String> {
    let mut guard = EnvGuard::new();
    for (k, v) in vars {
        guard.save(k, lookup(env, k));
        apply(env, EnvChange::Assign(k.to_string(), v.to_string()));
    }
    guard
}

#[test]
fn env_guard_restores_prior_value_on_drop() {
    let mut env = vec![("XDG_RUNTIME_DIR".to_string(), "/tmp/wd-test-root".to_string())];
    let guard = override_all(
        &mut env,
        &[("XDG_RUNTIME_DIR", "/tmp/wd-test-root/wd-session-aaaa")],
    );
    assert_eq!(
        lookup(&env, "XDG_RUNTIME_DIR").as_deref(),
        Some("/tmp/wd-test-root/wd-session-aaaa")
    );
    for change in guard.restore() {
        apply(&mut env, change);
    }
    assert_eq!(
        lookup(&env, "XDG_RUNTIME_DIR").as_deref(),
        Some("/tmp/wd-test-root")
    );
}

#[test]
fn env_guard_removes_key_that_was_unset_before() {
    let mut env = Vec::new();
    let guard = override_all(&mut env, &[("WD_TEST_ENVGUARD_KEY", "/some/session/dir")]);
    assert_eq!(
        lookup(&env, "WD_TEST_ENVGUARD_KEY").as_deref(),
        Some("/some/session/dir")
    );
    for change in guard.restore() {
        apply(&mut env, change);
    }
    assert!(lookup(&env, "WD_TEST_ENVGUARD_KEY").is_none());
}

#[test]
fn a_variable_that_is_overridden_twice_gets_its_first_value_back() {
    let mut env = vec![("A".to_string(), "0".to_string())];
    let guard = override_all(&mut env, &[("A", "1"), ("B", "2"), ("A", "3")]);
    assert_eq!(lookup(&env, "A").as_deref(), Some("3"));
    for change in guard.restore() {
        apply(&mut env, change);
    }
    assert_eq!(env, vec![("A".to_string(), "0".to_string())]);
}

fn grab(failing: Option<GrabStep>) -> (Vec<GrabStep>, Result<(), Error>) {
    let mut run = GrabRun::begin();
    let mut steps = Vec::new();
    while run.next() != GrabStep::Finished {
        let step = run.next();
        steps.push(step);
        let result = if Some(step) == failing {
            Err(Error::screenshot("failed"))
        } else {
            Ok(())
        };
        run.report(result);
    }
    (steps, run.finish())
}

#[test]
fn screenshot_runs_its_steps_in_order() {
    let (steps, result) = grab(None);
    assert!(result.is_ok());
    assert_eq!(
        steps,
        vec![
            GrabStep::Lock,
            GrabStep::Init,
            GrabStep::Override,
            GrabStep::Build,
            GrabStep::Play,
            GrabStep::Pull,
            GrabStep::TearDown,
            GrabStep::Read,
            GrabStep::Restore,
            GrabStep::Unlock,
        ]
    );
}

#[test]
fn screenshot_cleans_up_whatever_fails() {
    let (steps, result) = grab(Some(GrabStep::Pull));
    assert!(result.is_err());
    assert_eq!(
        steps[5..],
        [
            GrabStep::Pull,
            GrabStep::TearDown,
            GrabStep::Restore,
            GrabStep::Unlock
        ]
    );
    let (steps, result) = grab(Some(GrabStep::Lock));
    assert!(result.is_err());
    assert_eq!(steps, vec![GrabStep::Lock]);
    let (steps, _) = grab(Some(GrabStep::Init));
    assert_eq!(steps, vec![GrabStep::Lock, GrabStep::Init, GrabStep::Unlock]);
    let (steps, _) = grab(Some(GrabStep::Build));
    assert!(!steps.contains(&GrabStep::TearDown));
    assert!(steps.contains(&GrabStep::Restore));
    let (_, result) = grab(Some(GrabStep::Restore));
    assert!(result.is_ok());
}

#[test]
fn pipeline_faults_have_their_messages() {
    let s = |t: &str| t.to_string();
    let cases = vec![
        (PipelineFault::Spawn(s("e")), "screenshot: spawn_blocking failed: e"),
        (PipelineFault::Init(s("e")), "screenshot: gstreamer init failed: e"),
        (PipelineFault::Parse(s("e")), "screenshot: pipeline parse failed: e"),
        (
            PipelineFault::NotAPipeline,
            "screenshot: parsed element is not a Pipeline",
        ),
        (PipelineFault::NoSink, "screenshot: appsink not found in pipeline"),
        (
            PipelineFault::NotAnAppSink,
            "screenshot: element 'sink' is not an AppSink",
        ),
        (PipelineFault::Start(s("e")), "screenshot: failed to start pipeline: e"),
        (PipelineFault::NoFrame, "screenshot: timed out waiting for PNG frame"),
        (PipelineFault::NoBuffer, "screenshot: sample has no buffer"),
        (PipelineFault::ReadBuffer(s("e")), "screenshot: failed to map buffer: e"),
        (
            PipelineFault::RecordingParse(s("e")),
            "screenshot: recording pipeline parse failed: e",
        ),
        (
            PipelineFault::RecordingStart(s("e")),
            "screenshot: failed to start recording pipeline: e",
        ),
        (
            PipelineFault::RecordingPlay(s("e")),
            "screenshot: recording pipeline failed to reach PLAYING: e",
        ),
        (PipelineFault::AlreadyStopped, "screenshot: recording already stopped"),
        (PipelineFault::NoBus, "screenshot: recording pipeline has no bus"),
        (
            PipelineFault::Recording {
                error: s("e"),
                details: s("None"),
            },
            "screenshot: recording pipeline error before EOS: e (None)",
        ),
        (
            PipelineFault::RecordingStop(s("e")),
            "screenshot: failed to stop recording pipeline: e",
        ),
    ];
    for (fault, shown) in cases {
        assert_eq!(pipeline_error(fault).to_string(), shown);
    }
}

#[test]
fn an_error_on_the_bus_outweighs_the_teardown() {
    let failed = || RecordingEnd::Failed {
        error: "e".to_string(),
        details: "d".to_string(),
    };
    assert_eq!(
        recording_stopped(failed(), Err("x".to_string()))
            .unwrap_err()
            .to_string(),
        "screenshot: recording pipeline error before EOS: e (d)"
    );
    assert!(recording_stopped(failed(), Ok(())).is_err());
    assert!(recording_stopped(RecordingEnd::Ended, Ok(())).is_ok());
    assert!(recording_stopped(RecordingEnd::Silent, Ok(())).is_ok());
    assert_eq!(
        recording_stopped(RecordingEnd::Silent, Err("x".to_string()))
            .unwrap_err()
            .to_string(),
        "screenshot: failed to stop recording pipeline: x"
    );
}

#[test]
fn screenshot_size_is_read_from_the_header() {
    let mut png: Vec<u8> = vec![0x89, b'P', b'N', b'G', 0x0d, 0x0a, 0x1a, 0x0a, 0, 0, 0, 13];
    png.extend_from_slice(b"IHDR");
    png.extend_from_slice(&1024u32.to_be_bytes());
    png.extend_from_slice(&768u32.to_be_bytes());
    assert_eq!(screenshot_size(&png).unwrap(), (1024, 768));
    assert!(screenshot_size(&png[..23]).is_err());
    let mut other = png.clone();
    other[12] = b'J';
    assert!(screenshot_size(&other).is_err());
    png[16] = 0x80;
    assert_eq!(
        screenshot_size(&png).unwrap_err().to_string(),
        "screenshot: screenshot is not a PNG image"
    );
}
