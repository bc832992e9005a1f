use clawmon_core::detector::{RawSession, RawStatus, RawUsage, TmuxInfo};
use clawmon_core::engine::{
    classify, state_counts, Countdown, Engine, EventKind, Reason, SessionState, SessionView,
};
use clawmon_core::settings::Settings;

fn session(pid: i32, last_type: &str, idle: i64) -> RawSession {
    RawSession {
        pid,
        cwd: "/home/john/statebar".into(),
        tty: "/dev/pts/2".into(),
        tmux: Some(TmuxInfo {
            pane: "%0".into(),
            session: "work".into(),
            window: "0.0".into(),
        }),
        transcript: Some("/home/john/.agent/projects/x/abc.jsonl".into()),
        session_id: "abc".into(),
        last_type: last_type.into(),
        last_ts: String::new(),
        idle_sec: Some(idle),
        preview: "做点什么".into(),
        usage: None,
        tool_running: false,
        tool_name: String::new(),
        turn_complete: false,
        thinking: false,
        transcript_live: true,
        usage_limited: false,
        resume_at: None,
        subagent_idle_sec: None,
    }
}

fn snap(now: i64, sessions: Vec<RawSession>) -> RawStatus {
    RawStatus {
        now: String::new(),
        now_epoch: now,
        sessions,
        tmux_sessions: Vec::new(),
    }
}

#[test]
fn green_when_active() {
    let st = Settings::default();
    let mut e = Engine::new();
    let (v, due, _) = e.update(snap(1000, vec![session(1, "assistant", 10)]), &st);
    assert_eq!(v[0].state, SessionState::Green);
    assert_eq!(v[0].reason, Reason::Active);
    assert!(due.is_empty());
}

/// Usage is display data: it must reach the view intact and never
/// change the classification.
#[test]
fn usage_passes_through_to_view() {
    let st = Settings::default();
    let mut e = Engine::new();
    let mut s = session(1, "assistant", 10);
    s.usage = Some(RawUsage {
        input: 1_100_000,
        cache_read: 1_200_000,
        cache_creation: 5_000,
        output: 89_000,
        requests: 42,
    });
    let (v, _, _) = e.update(snap(1000, vec![s]), &st);
    assert_eq!(v[0].state, SessionState::Green);
    let u = v[0].usage.expect("usage present");
    assert_eq!((u.input, u.output, u.requests), (1_100_000, 89_000, 42));
}

#[test]
fn yellow_waiting_for_input() {
    let st = Settings::default();
    let mut e = Engine::new();
    let (v, _, _) = e.update(snap(1000, vec![session(1, "assistant", 300)]), &st);
    assert_eq!(v[0].state, SessionState::Yellow);
    assert_eq!(v[0].reason, Reason::WaitingInput);
}

/// A finished turn is often followed by timestamped `system` records
/// (`turn_duration`, hook summaries). Those must not look like a hang
/// waiting on the API — false red auto-sends Enter.
#[test]
fn system_trailer_after_a_turn_is_waiting_input_not_red() {
    let st = Settings {
        wait_secs: 0,
        ..Default::default()
    };
    let mut e = Engine::new();
    let (v, due, _) = e.update(snap(10_000, vec![session(1, "system", 1000)]), &st);
    assert_eq!(v[0].state, SessionState::Yellow);
    assert_eq!(v[0].reason, Reason::WaitingInput);
    assert!(due.is_empty());
    assert!(v[0].blocked_since.is_none());
}

#[test]
fn green_then_red_when_waiting_on_api() {
    let st = Settings::default();
    let mut e = Engine::new();
    // default blocked_after_secs = 300; waiting on the API needs no user
    // action, however long it takes — green while merely slow
    let (v, _, _) = e.update(snap(1000, vec![session(1, "user", 240)]), &st);
    assert_eq!(v[0].state, SessionState::Green);
    assert_eq!(v[0].reason, Reason::WaitingResponse);

    let (v, _, _) = e.update(snap(1300, vec![session(1, "user", 540)]), &st);
    assert_eq!(v[0].state, SessionState::Red);
    assert_eq!(v[0].reason, Reason::ResponseTimedOut);
    assert_eq!(v[0].blocked_since, Some(1300));
}

#[test]
fn auto_continue_fires_after_wait() {
    let st = Settings {
        wait_secs: 100,
        ..Default::default()
    };
    let mut e = Engine::new();
    let t0 = 10_000;
    let (v, due, _) = e.update(snap(t0, vec![session(1, "user", 1000)]), &st);
    assert_eq!(v[0].state, SessionState::Red);
    assert!(due.is_empty());
    assert_eq!(waiting_remaining(&v[0]), Some(100));
    assert_eq!(v[0].sends, 0);

    let (v, due, _) = e.update(snap(t0 + 99, vec![session(1, "user", 1099)]), &st);
    assert!(due.is_empty());
    assert_eq!(waiting_remaining(&v[0]), Some(1));

    // the attempt is counted when it is scheduled, not by the caller
    let (v, due, _) = e.update(snap(t0 + 100, vec![session(1, "user", 1100)]), &st);
    assert_eq!(due, vec![1]);
    assert_eq!(v[0].sends, 1);
    assert_eq!(v[0].last_send_at, Some(t0 + 100));
    // retry scheduled retry_interval_secs (600) after the send
    assert_eq!(waiting_remaining(&v[0]), Some(600));
}

fn waiting_remaining(v: &SessionView) -> Option<i64> {
    match v.countdown {
        Some(Countdown::Waiting { remaining_sec }) => Some(remaining_sec),
        _ => None,
    }
}

#[test]
fn a_second_poll_of_the_same_snapshot_never_sends_twice() {
    let st = Settings {
        wait_secs: 0,
        ..Default::default()
    };
    let mut e = Engine::new();
    let t0 = 10_000;
    let (_, due, _) = e.update(snap(t0, vec![session(1, "user", 5000)]), &st);
    assert_eq!(due, vec![1]);

    // overlapping poll (slow WSL, a manual refresh) on an unchanged
    // snapshot: the key press must not be scheduled a second time
    let (v, due, _) = e.update(snap(t0, vec![session(1, "user", 5000)]), &st);
    assert!(due.is_empty());
    assert_eq!(v[0].sends, 1);
}

#[test]
fn max_sends_cap() {
    let st = Settings {
        wait_secs: 0,
        retry_interval_secs: 0,
        max_sends: 2,
        ..Default::default()
    };
    let mut e = Engine::new();
    let t0 = 10_000;
    for i in 0..5 {
        e.update(snap(t0 + i, vec![session(1, "user", 5000)]), &st);
    }
    let (v, due, _) = e.update(snap(t0 + 10, vec![session(1, "user", 5010)]), &st);
    assert_eq!(v[0].sends, 2);
    assert!(due.is_empty());
    assert_eq!(
        v[0].countdown,
        Some(Countdown::Capped { sends: 2 }),
        "no retry once the cap is reached"
    );
}

#[test]
fn recovers_to_green_resets_episode() {
    let st = Settings::default();
    let mut e = Engine::new();
    let t0 = 10_000;
    let (_, _, _) = e.update(snap(t0, vec![session(1, "user", 1000)]), &st);
    let (v, _, _) = e.update(snap(t0 + 1, vec![session(1, "user", 1001)]), &st);
    assert!(v[0].blocked_since.is_some());

    let (v, _, _) = e.update(snap(t0 + 2, vec![session(1, "assistant", 2)]), &st);
    assert_eq!(v[0].state, SessionState::Green);
    assert!(v[0].blocked_since.is_none());

    // turns red again → fresh episode
    let (v, _, _) = e.update(snap(t0 + 3, vec![session(1, "user", 1000)]), &st);
    assert_eq!(v[0].blocked_since, Some(t0 + 3));
}

#[test]
fn not_controllable_without_tmux() {
    let mut s = session(1, "user", 1000);
    s.tmux = None;
    let st = Settings {
        wait_secs: 0,
        ..Default::default()
    };
    let mut e = Engine::new();
    let t0 = 10_000;
    let (v, due, _) = e.update(snap(t0, vec![s]), &st);
    assert_eq!(v[0].state, SessionState::Red);
    assert!(!v[0].controllable);
    assert!(due.is_empty()); // never auto-sends to an uncontrolled session
    assert_eq!(v[0].countdown, Some(Countdown::NoTmux));
}

/// A manual send with auto-continue off must say "off", not "limit
/// reached" — the old payload let the webview infer a cap that was
/// never hit.
#[test]
fn manual_send_with_auto_continue_off_shows_off() {
    let st = Settings {
        auto_continue: false,
        ..Default::default()
    };
    let mut e = Engine::new();
    let t0 = 10_000;
    let (v, _, _) = e.update(snap(t0, vec![session(1, "user", 1000)]), &st);
    assert_eq!(v[0].countdown, Some(Countdown::Off));
    e.claim_send(1);
    let (v, _, _) = e.update(snap(t0 + 1, vec![session(1, "user", 1001)]), &st);
    assert_eq!(v[0].sends, 1);
    assert_eq!(
        v[0].countdown,
        Some(Countdown::Off),
        "still off, not capped"
    );
}

/// A process with no transcript yet (or one whose mapping we could not
/// establish) must never be treated as stuck — that is what would press
/// Enter in a terminal we know nothing about.
#[test]
fn no_usable_transcript_is_never_red() {
    let st = Settings {
        wait_secs: 0,
        ..Default::default()
    };
    let mut e = Engine::new();

    let mut missing = session(1, "user", 99_999);
    missing.transcript = None;
    missing.transcript_live = false;

    // a fresh process handed an old session file by the fallback pairing
    let mut borrowed = session(2, "user", 99_999);
    borrowed.transcript_live = false;

    let (v, due, _) = e.update(snap(10_000, vec![missing, borrowed]), &st);
    assert!(due.is_empty());
    for view in &v {
        assert_eq!(view.state, SessionState::Yellow);
        assert!(view.blocked_since.is_none());
    }
    let reason = |pid: i32| v.iter().find(|s| s.pid == pid).unwrap().reason;
    assert_eq!(reason(1), Reason::NoTranscript);
    assert_eq!(reason(2), Reason::TranscriptStale);
}

#[test]
fn tool_running_is_green() {
    // a long-running tool (assistant entry whose last block is tool_use)
    // waits on the tool, not on the user — green, and never blocked, no
    // matter how long it runs
    let st = Settings {
        wait_secs: 0,
        ..Default::default()
    };
    let mut e = Engine::new();
    let mut s = session(1, "assistant", 7200); // 2h "idle" while tool runs
    s.tool_running = true;
    s.tool_name = "Bash".into();
    let t0 = 10_000;
    let (v, due, _) = e.update(snap(t0, vec![s]), &st);
    assert_eq!(v[0].state, SessionState::Green);
    assert_eq!(v[0].reason, Reason::ToolRunning);
    assert!(due.is_empty());
    assert!(v[0].blocked_since.is_none());
}

/// A parked AskUserQuestion is the one tool whose result IS a user
/// action: waiting on it is waiting for input — yellow, the true
/// user-interaction light, not green "tool running".
#[test]
fn parked_askuserquestion_waits_for_input() {
    let st = Settings::default();
    let mut e = Engine::new();
    let mut s = session(1, "assistant", 7200);
    s.tool_running = true;
    s.tool_name = "AskUserQuestion".into();
    let (v, due, _) = e.update(snap(10_000, vec![s]), &st);
    assert_eq!(v[0].state, SessionState::Yellow);
    assert_eq!(v[0].reason, Reason::WaitingInput);
    assert!(due.is_empty());
}

/// A session parked on "Waiting for task" — the pending tool is a
/// subagent launch or a blocking TaskOutput poll. The subagents do the
/// writing while the main transcript sits on its tool_use, so this is
/// healthy progress however long it lasts: green, with its own tag,
/// never yellow "waiting for input".
#[test]
fn waiting_on_a_subagent_is_green() {
    let st = Settings::default();
    let mut e = Engine::new();
    for name in ["Task", "Agent", "TaskOutput"] {
        let mut s = session(1, "assistant", 7200); // subagents ran 2h
        s.tool_running = true;
        s.tool_name = name.into();
        let (v, due, _) = e.update(snap(10_000, vec![s]), &st);
        assert_eq!(v[0].state, SessionState::Green, "{name}");
        assert_eq!(v[0].reason, Reason::WaitingSubagent, "{name}");
        assert!(due.is_empty());
        assert!(v[0].blocked_since.is_none());
    }
}

#[test]
fn sorts_red_first() {
    let st = Settings::default();
    let mut e = Engine::new();
    let (v, _, _) = e.update(
        snap(
            1000,
            vec![session(5, "assistant", 10), session(9, "user", 900)],
        ),
        &st,
    );
    assert_eq!(v[0].pid, 9);
    assert_eq!(v[1].pid, 5);
}

#[test]
fn state_counts_fold() {
    let st = Settings::default();
    let mut e = Engine::new();
    let (v, _, _) = e.update(
        snap(
            1000,
            vec![session(5, "assistant", 10), session(9, "user", 900)],
        ),
        &st,
    );
    let c = state_counts(&v);
    assert_eq!((c.red, c.yellow, c.green), (1, 0, 1));
    assert!(!c.warning);
}

#[test]
fn turn_end_fires_once_per_wait() {
    let st = Settings::default();
    let mut e = Engine::new();
    let t0 = 10_000;
    // first sight is already waiting → no event: a monitor started
    // mid-wait must not report a turn that ended hours ago
    let (_, _, evs) = e.update(snap(t0, vec![session(1, "assistant", 3000)]), &st);
    assert!(evs.is_empty(), "{evs:?}");

    // actively working
    let (_, _, evs) = e.update(snap(t0 + 10, vec![session(1, "assistant", 2)]), &st);
    assert!(evs.is_empty(), "{evs:?}");

    // turn ends, the agent waits for the human → exactly one event
    let (_, _, evs) = e.update(snap(t0 + 600, vec![session(1, "assistant", 300)]), &st);
    assert_eq!(evs.len(), 1, "{evs:?}");
    assert_eq!(evs[0].kind, EventKind::TurnEnd);
    assert_eq!(evs[0].pid, 1);
    assert_eq!(evs[0].project, "statebar");

    // still waiting on the next poll → no repeat
    let (_, _, evs) = e.update(snap(t0 + 610, vec![session(1, "assistant", 310)]), &st);
    assert!(evs.is_empty(), "{evs:?}");
}

#[test]
fn red_and_recovery_events() {
    let st = Settings::default();
    let mut e = Engine::new();
    let t0 = 10_000;
    let (_, _, evs) = e.update(snap(t0, vec![session(1, "assistant", 2)]), &st);
    assert!(evs.is_empty(), "nothing happens on a healthy first poll");

    // goes red
    let (_, _, evs) = e.update(snap(t0 + 400, vec![session(1, "user", 400)]), &st);
    assert_eq!(evs.len(), 1, "{evs:?}");
    assert_eq!(evs[0].kind, EventKind::TurnedRed);
    assert_eq!(evs[0].project, "statebar");

    // stays red — quiet
    let (_, _, evs) = e.update(snap(t0 + 500, vec![session(1, "user", 500)]), &st);
    assert!(evs.is_empty(), "{evs:?}");

    // recovers on its own
    let (_, _, evs) = e.update(snap(t0 + 600, vec![session(1, "assistant", 1)]), &st);
    assert_eq!(evs.len(), 1, "{evs:?}");
    assert_eq!(evs[0].kind, EventKind::Recovered);
}

#[test]
fn exit_event_when_a_process_disappears() {
    let st = Settings::default();
    let mut e = Engine::new();
    let t0 = 10_000;
    let (_, _, evs) = e.update(
        snap(
            t0,
            vec![session(1, "assistant", 10), session(2, "assistant", 10)],
        ),
        &st,
    );
    assert!(evs.is_empty());

    // pid 2 is gone
    let (_, _, evs) = e.update(snap(t0 + 5, vec![session(1, "assistant", 10)]), &st);
    assert_eq!(evs.len(), 1, "{evs:?}");
    assert_eq!(evs[0].kind, EventKind::Exited);
    assert_eq!(evs[0].pid, 2);

    // and a monitor that starts with one process reports nothing as exited
    let mut e2 = Engine::new();
    let (_, _, evs) = e2.update(snap(t0, vec![session(1, "assistant", 10)]), &st);
    assert!(evs.is_empty());
}

#[test]
fn manual_send_before_first_poll_does_not_schedule_from_epoch_zero() {
    let st = Settings::default();
    let mut e = Engine::new();
    // the user clicks "continue now" before any poll has ever succeeded
    e.claim_send(1);
    let (v, due, _) = e.update(snap(10_000, vec![session(1, "user", 5000)]), &st);
    assert!(
        due.is_empty(),
        "retry must be scheduled from now, not epoch 0"
    );
    assert_eq!(v[0].sends, 1);
    assert_eq!(v[0].last_send_at, None);

    // once a clock exists, a manual send is scheduled from it
    e.claim_send(1);
    let (v, _, _) = e.update(snap(10_001, vec![session(1, "user", 5000)]), &st);
    assert_eq!(v[0].sends, 2);
    assert_eq!(v[0].last_send_at, Some(10_000));
}

// ---- further cases ---------------------------------------------------------

#[test]
fn unknown_idle_time_counts_as_forever() {
    let st = Settings::default();
    let mut s = session(1, "user", 0);
    s.idle_sec = None;
    assert_eq!(
        classify(&s, &st),
        (SessionState::Red, Reason::ResponseTimedOut)
    );
    s.last_type = "assistant".into();
    assert_eq!(
        classify(&s, &st),
        (SessionState::Yellow, Reason::WaitingInput)
    );
}

#[test]
fn thresholds_are_exact() {
    let st = Settings::default();
    assert_eq!(
        classify(&session(1, "user", 119), &st),
        (SessionState::Green, Reason::Active)
    );
    assert_eq!(
        classify(&session(1, "user", 120), &st),
        (SessionState::Green, Reason::WaitingResponse)
    );
    assert_eq!(
        classify(&session(1, "user", 300), &st),
        (SessionState::Green, Reason::WaitingResponse)
    );
    assert_eq!(
        classify(&session(1, "user", 301), &st),
        (SessionState::Red, Reason::ResponseTimedOut)
    );
}

#[test]
fn usage_never_changes_the_light() {
    let st = Settings::default();
    for idle in [10, 200, 1000] {
        for kind in ["user", "assistant", "system"] {
            let plain = session(1, kind, idle);
            let mut counted = session(1, kind, idle);
            counted.usage = Some(RawUsage {
                input: u64::MAX,
                cache_read: 2,
                cache_creation: 3,
                output: 4,
                requests: 5,
            });
            assert_eq!(classify(&plain, &st), classify(&counted, &st));
        }
    }
}

#[test]
fn rows_are_sorted_by_light_then_pid() {
    let st = Settings::default();
    let mut e = Engine::new();
    let (v, _, _) = e.update(
        snap(
            1000,
            vec![
                session(9, "assistant", 10),
                session(8, "assistant", 500),
                session(7, "user", 900),
                session(3, "assistant", 10),
                session(2, "assistant", 500),
                session(1, "user", 900),
            ],
        ),
        &st,
    );
    let order: Vec<i32> = v.iter().map(|r| r.pid).collect();
    assert_eq!(order, [1, 7, 2, 8, 3, 9]);
    let c = state_counts(&v);
    assert_eq!((c.red, c.yellow, c.green), (2, 2, 2));
}

#[test]
fn a_row_carries_the_session() {
    let st = Settings::default();
    let mut e = Engine::new();
    let mut bare = session(2, "user", 1000);
    bare.tmux = None;
    bare.cwd = "/srv/app/".into();
    let (v, _, _) = e.update(snap(1000, vec![session(1, "user", 1000), bare]), &st);
    assert_eq!(v[0].project, "statebar");
    assert_eq!(v[0].cwd, "/home/john/statebar");
    assert_eq!(v[0].tty, "/dev/pts/2");
    assert_eq!(v[0].session_id, "abc");
    assert_eq!(v[0].idle_sec, Some(1000));
    assert_eq!(v[0].preview, "做点什么");
    assert_eq!(v[0].tmux_label.as_deref(), Some("work:0.0"));
    assert_eq!(v[0].pane.as_deref(), Some("%0"));
    assert!(v[0].controllable);
    assert_eq!(v[0].blocked_since, Some(1000));
    assert_eq!(waiting_remaining(&v[0]), Some(18_000));
    assert_eq!(v[1].project, "app");
    assert_eq!(v[1].tmux_label, None);
    assert_eq!(v[1].pane, None);
}

#[test]
fn last_views_survive_without_a_new_scan() {
    let st = Settings::default();
    let mut e = Engine::new();
    assert!(e.last_views().is_empty());
    assert!(e.last_snapshot().is_empty());
    let (v, _, _) = e.update(snap(1000, vec![session(4, "user", 900)]), &st);
    let kept = e.last_views();
    assert_eq!(kept.len(), v.len());
    assert_eq!(kept[0].pid, 4);
    assert_eq!(e.last_snapshot().len(), 1);
    assert_eq!(e.last_snapshot()[0].pid, 4);
    assert_eq!(e.get_session(4).map(|s| s.pid), Some(4));
    assert!(e.get_session(5).is_none());
}

#[test]
fn pane_is_found_or_refused() {
    let st = Settings::default();
    let mut e = Engine::new();
    let mut bare = session(2, "user", 1000);
    bare.tmux = None;
    e.update(snap(1000, vec![session(1, "user", 1000), bare]), &st);
    assert_eq!(e.pane_for(1), Ok("%0".to_string()));
    assert_eq!(
        e.pane_for(2),
        Err("会话 2 不在 tmux 中，无法控制".to_string())
    );
    assert_eq!(
        e.pane_for(-7),
        Err("会话 -7 不在 tmux 中，无法控制".to_string())
    );
    // a refused manual send books nothing
    assert!(e.manual_target(2).is_err());
    assert_eq!(e.sends_of(2), 0);
    assert_eq!(e.manual_target(1), Ok("%0".to_string()));
    assert_eq!(e.sends_of(1), 1);
}

#[test]
fn a_manual_send_defers_the_automatic_one() {
    let st = Settings {
        wait_secs: 100,
        ..Default::default()
    };
    let mut e = Engine::new();
    e.update(snap(10_000, vec![session(1, "user", 1000)]), &st);
    e.claim_send(1);
    // the wait is over, but the manual send moved the schedule
    let (v, due, _) = e.update(snap(10_100, vec![session(1, "user", 1100)]), &st);
    assert!(due.is_empty());
    assert_eq!(waiting_remaining(&v[0]), Some(500));
    let (_, due, _) = e.update(snap(10_600, vec![session(1, "user", 1600)]), &st);
    assert_eq!(due, vec![1]);
}

#[test]
fn the_last_send_shows_the_cap() {
    let st = Settings {
        wait_secs: 0,
        max_sends: 1,
        ..Default::default()
    };
    let mut e = Engine::new();
    let (v, due, _) = e.update(snap(10_000, vec![session(1, "user", 1000)]), &st);
    assert_eq!(due, vec![1]);
    assert_eq!(v[0].countdown, Some(Countdown::Capped { sends: 1 }));
}

#[test]
fn an_exited_process_is_forgotten() {
    let st = Settings {
        wait_secs: 0,
        ..Default::default()
    };
    let mut e = Engine::new();
    e.update(snap(10_000, vec![session(1, "user", 1000)]), &st);
    assert_eq!(e.sends_of(1), 1);
    let (_, _, evs) = e.update(snap(10_001, vec![]), &st);
    assert_eq!(evs.len(), 1);
    assert_eq!(evs[0].kind, EventKind::Exited);
    assert_eq!(e.sends_of(1), 0);
    // and its exit is reported once
    let (_, _, evs) = e.update(snap(10_002, vec![]), &st);
    assert!(evs.is_empty());
}

#[test]
fn recovery_and_turn_end_come_in_one_poll() {
    let st = Settings::default();
    let mut e = Engine::new();
    e.update(snap(10_000, vec![session(1, "user", 1000)]), &st);
    let (_, _, evs) = e.update(snap(10_001, vec![session(1, "assistant", 200)]), &st);
    let kinds: Vec<EventKind> = evs.iter().map(|x| x.kind).collect();
    assert_eq!(kinds, [EventKind::Recovered, EventKind::TurnEnd]);
}

#[test]
fn a_first_sight_in_red_is_reported() {
    let st = Settings::default();
    let mut e = Engine::new();
    let (_, _, evs) = e.update(snap(10_000, vec![session(1, "user", 1000)]), &st);
    assert_eq!(evs.len(), 1);
    assert_eq!(evs[0].kind, EventKind::TurnedRed);
}

#[test]
fn clock_overflow_is_told_beforehand() {
    let st = Settings {
        wait_secs: u64::MAX,
        ..Default::default()
    };
    let e = Engine::new();
    // a wait of u64::MAX is a step of -1: harmless at an ordinary clock
    assert!(e.update_fits(&snap(10_000, vec![session(1, "user", 1000)]), &st));
    assert!(!e.update_fits(&snap(i64::MIN, vec![session(1, "user", 1000)]), &st));
    let st = Settings {
        wait_secs: i64::MAX as u64,
        ..Default::default()
    };
    assert!(!e.update_fits(&snap(10_000, vec![session(1, "user", 1000)]), &st));
    assert!(e.update_fits(&snap(10_000, vec![session(1, "user", 10)]), &st));
}

#[test]
fn retries_keep_their_distance() {
    let st = Settings {
        wait_secs: 0,
        ..Default::default()
    };
    let mut e = Engine::new();
    let (_, due, _) = e.update(snap(10_000, vec![session(1, "user", 5000)]), &st);
    assert_eq!(due, vec![1]);
    let (_, due, _) = e.update(snap(10_599, vec![session(1, "user", 5599)]), &st);
    assert!(due.is_empty());
    let (v, due, _) = e.update(snap(10_600, vec![session(1, "user", 5600)]), &st);
    assert_eq!(due, vec![1]);
    assert_eq!(v[0].sends, 2);
}

#[test]
fn the_same_scan_shows_the_same_rows() {
    let st = Settings {
        wait_secs: 0,
        ..Default::default()
    };
    let scan = || {
        let mut bare = session(3, "user", 900);
        bare.tmux = None;
        snap(
            10_000,
            vec![session(1, "user", 900), session(2, "assistant", 500), bare],
        )
    };
    let mut e = Engine::new();
    let (first, due, _) = e.update(scan(), &st);
    assert_eq!(due, vec![1]);
    let (again, due, evs) = e.update(scan(), &st);
    assert!(due.is_empty());
    assert!(evs.is_empty());
    assert_eq!(format!("{first:?}"), format!("{again:?}"));
}

#[test]
fn sessions_that_are_not_due_keep_their_books() {
    let st = Settings {
        wait_secs: 0,
        ..Default::default()
    };
    let mut e = Engine::new();
    e.update(snap(10_000, vec![session(1, "user", 900), session(2, "user", 900)]), &st);
    let (v, due, _) = e.update(
        snap(10_001, vec![session(1, "user", 901), session(2, "assistant", 1)]),
        &st,
    );
    assert!(due.is_empty());
    assert_eq!((v[0].pid, v[0].sends, v[0].last_send_at), (1, 1, Some(10_000)));
    // the other one just left red
    assert_eq!((v[1].pid, v[1].sends, v[1].last_send_at), (2, 0, None));
}

#[test]
fn an_exit_names_the_old_directory_once() {
    let st = Settings::default();
    let mut e = Engine::new();
    let mut other = session(2, "user", 900);
    other.cwd = "/srv/api".into();
    e.update(snap(10_000, vec![session(1, "user", 900), other]), &st);
    let (_, _, evs) = e.update(snap(10_001, vec![session(1, "user", 901)]), &st);
    assert_eq!(evs.len(), 1);
    assert_eq!((evs[0].pid, evs[0].kind), (2, EventKind::Exited));
    assert_eq!(evs[0].project, "api");
    assert!(e.get_session(2).is_none());
}
