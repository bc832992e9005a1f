use clawmon_core::settings::{sanitize_distro, sanitize_keys, Settings};

#[test]
fn defaults_roundtrip() {
    let s = Settings::default();
    let loaded = Settings::load(Some(s));
    assert_eq!(loaded.wait_secs, 5 * 3600);
    assert_eq!(loaded.resume_keys, "Enter");
}

#[test]
fn partial_json_keeps_defaults() {
    let s = Settings::load(Some(Settings {
        wait_secs: 60,
        ..Default::default()
    }));
    assert_eq!(s.wait_secs, 60);
    assert_eq!(s.max_sends, 3); // default preserved
}

#[test]
fn load_clamps_hand_edited_values() {
    let s = Settings::load(Some(Settings {
        poll_interval_secs: 0,
        max_sends: 0,
        retry_interval_secs: 0,
        idle_green_secs: -5,
        blocked_after_secs: 99_999_999,
        ..Default::default()
    }));
    assert_eq!(s.poll_interval_secs, 2);
    assert_eq!(s.max_sends, 1);
    assert_eq!(s.retry_interval_secs, 5);
    assert_eq!(s.idle_green_secs, 5);
    assert_eq!(s.blocked_after_secs, 86_400);
}

#[test]
fn resume_keys_never_look_like_tmux_options() {
    let s = Settings {
        resume_keys: "-R Enter".into(),
        ..Default::default()
    }
    .sanitize();
    assert_eq!(s.resume_keys, "Enter");

    let s = Settings {
        resume_keys: "  ".into(),
        ..Default::default()
    }
    .sanitize();
    assert_eq!(s.resume_keys, "Enter");

    let s = Settings {
        resume_keys: "C-c Enter".into(),
        ..Default::default()
    }
    .sanitize();
    assert_eq!(s.resume_keys, "C-c Enter");
}

#[test]
fn distro_name_must_be_a_single_word() {
    let s = Settings {
        wsl_distro: "  Ubuntu  ".into(),
        ..Default::default()
    }
    .sanitize();
    assert_eq!(s.wsl_distro, "Ubuntu");

    let s = Settings {
        wsl_distro: "Ubuntu -e rm".into(),
        ..Default::default()
    }
    .sanitize();
    assert_eq!(s.wsl_distro, "");
}

// ---- further cases ---------------------------------------------------------

#[test]
fn nothing_readable_means_the_defaults() {
    let s = Settings::load(None);
    assert_eq!(s.poll_interval_secs, 5);
    assert_eq!(s.idle_green_secs, 120);
    assert_eq!(s.blocked_after_secs, 300);
    assert!(s.auto_continue);
    assert_eq!(s.wait_secs, 18_000);
    assert_eq!(s.resume_keys, "Enter");
    assert_eq!(s.max_sends, 3);
    assert_eq!(s.retry_interval_secs, 600);
    assert_eq!(s.wsl_distro, "");
    assert!(s.close_to_tray);
    assert_eq!(s.language, "zh");
    assert!(s.notify_red && s.notify_continue && s.notify_recovered && s.notify_exit);
    assert!(!s.notify_turn_end);
    assert!(s.sound_alerts && s.show_glm_usage);
}

#[test]
fn upper_limits_are_kept_too() {
    let s = Settings {
        poll_interval_secs: u64::MAX,
        idle_green_secs: i64::MAX,
        wait_secs: u64::MAX,
        max_sends: u32::MAX,
        retry_interval_secs: u64::MAX,
        ..Default::default()
    }
    .sanitize();
    assert_eq!(s.poll_interval_secs, 3600);
    assert_eq!(s.idle_green_secs, 86_400);
    assert_eq!(s.wait_secs, 604_800);
    assert_eq!(s.max_sends, 100);
    assert_eq!(s.retry_interval_secs, 86_400);
    let s = Settings {
        wait_secs: 0,
        blocked_after_secs: i64::MIN,
        ..Default::default()
    }
    .sanitize();
    assert_eq!(s.wait_secs, 0);
    assert_eq!(s.blocked_after_secs, 10);
}

#[test]
fn sanitizing_twice_changes_nothing() {
    let once = Settings {
        resume_keys: " -x  C-c\tEnter -- Up ".into(),
        wsl_distro: " Debian ".into(),
        max_sends: 500,
        ..Default::default()
    }
    .sanitize();
    assert_eq!(once.resume_keys, "C-c Enter Up");
    let twice = once.clone().sanitize();
    assert_eq!(twice.resume_keys, once.resume_keys);
    assert_eq!(twice.wsl_distro, once.wsl_distro);
    assert_eq!(twice.max_sends, once.max_sends);
}

#[test]
fn distro_names_without_control_codes() {
    assert_eq!(sanitize_distro("Ubuntu\u{7}"), "");
    assert_eq!(sanitize_distro(""), "");
    assert_eq!(sanitize_distro("Ubuntu-22.04"), "Ubuntu-22.04");
}

#[test]
fn only_options_leave_the_default_key() {
    assert_eq!(sanitize_keys("-a -b"), "Enter");
    assert_eq!(sanitize_keys("Escape"), "Escape");
}
