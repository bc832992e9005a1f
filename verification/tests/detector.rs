use clawmon_core::detector::{
    detect, scan_result, spawn_serve, DetectAction, DetectEvent, Detector, RawStatus, RawUsage,
};
use clawmon_core::settings::Settings;

fn poll(distro: &str, alive: bool) -> DetectEvent {
    DetectEvent::Poll {
        distro: distro.to_string(),
        alive,
    }
}

fn spawned(distro: &str) -> DetectEvent {
    DetectEvent::Spawned {
        distro: distro.to_string(),
    }
}

#[test]
fn usage_defaults_to_zero() {
    let u = RawUsage::default();
    assert_eq!(
        (u.input, u.cache_read, u.cache_creation, u.output, u.requests),
        (0, 0, 0, 0, 0)
    );
}

#[test]
fn one_shot_scans_pipe_the_script() {
    let st = Settings {
        wsl_distro: "Ubuntu".into(),
        ..Default::default()
    };
    let i = detect(true, &st, "print()");
    assert_eq!(i.program, "wsl.exe");
    assert_eq!(i.args, ["-d", "Ubuntu", "python3", "-"]);
    assert_eq!(i.stdin.as_deref(), Some("print()"));
}

#[test]
fn the_resident_process_is_uploaded_then_served() {
    let (upload, serve) = spawn_serve(false, &Settings::default(), "print()");
    assert_eq!(upload.program, "sh");
    assert_eq!(upload.args, ["-c", "cat > /tmp/clawmon-detect.py"]);
    assert_eq!(upload.stdin.as_deref(), Some("print()"));
    assert_eq!(serve.program, "python3");
    assert_eq!(serve.args, ["-u", "/tmp/clawmon-detect.py", "--serve"]);
    assert_eq!(serve.stdin, None);
}

#[test]
fn unreadable_scans_are_reported() {
    let e = scan_result(Err("expected value".to_string())).unwrap_err();
    assert_eq!(e, "解析检测结果失败: expected value");
    let ok = scan_result(Ok(RawStatus {
        now: "x".into(),
        now_epoch: 7,
        sessions: Vec::new(),
        tmux_sessions: vec!["work".into()],
    }))
    .unwrap();
    assert_eq!(ok.now_epoch, 7);
    assert_eq!(ok.tmux_sessions, ["work"]);
}

#[test]
fn a_healthy_resident_process_is_reused() {
    let mut d = Detector::new();
    assert_eq!(d.detect(poll("", false)), DetectAction::Spawn);
    assert_eq!(d.detect(spawned("")), DetectAction::Request);
    assert_eq!(d.detect(DetectEvent::Answered), DetectAction::Finish);
    assert_eq!(d.detect(poll("", true)), DetectAction::Request);
    assert_eq!(d.detect(DetectEvent::Answered), DetectAction::Finish);
}

#[test]
fn a_broken_resident_process_costs_no_poll() {
    let mut d = Detector::new();
    d.detect(poll("", false));
    d.detect(spawned(""));
    d.detect(DetectEvent::Answered);
    assert_eq!(d.detect(poll("", true)), DetectAction::Request);
    assert_eq!(d.detect(DetectEvent::Broken), DetectAction::OneShot);
    // the next poll starts a new one
    assert_eq!(d.detect(poll("", true)), DetectAction::Spawn);
    assert_eq!(d.detect(DetectEvent::SpawnFailed), DetectAction::OneShot);
    assert_eq!(d.detect(poll("", false)), DetectAction::Spawn);
}

#[test]
fn a_changed_distro_starts_a_new_process() {
    let mut d = Detector::default();
    d.detect(poll("Ubuntu", false));
    d.detect(spawned("Ubuntu"));
    assert_eq!(d.detect(poll("Debian", true)), DetectAction::Spawn);
    assert_eq!(d.detect(spawned("Debian")), DetectAction::Request);
    assert_eq!(d.detect(poll("Debian", true)), DetectAction::Request);
    // a dead process is replaced as well
    assert_eq!(d.detect(poll("Debian", false)), DetectAction::Spawn);
}
