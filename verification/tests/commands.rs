use clawmon_core::commands::{
    launch_ended, launch_task, open_task_terminal, poll, poll_delay, poll_tasks, send_continue,
    send_keys, send_resume, stop_task, task_view, Live,
};
use clawmon_core::detector::{RawSession, RawStatus, TmuxInfo};
use clawmon_core::engine::Engine;
use clawmon_core::notice::{continue_receipt, status_followers};
use clawmon_core::settings::Settings;
use clawmon_core::tasks::{Task, TaskStatus, TaskStore};
use clawmon_core::wsl::RunEnd;

fn session(pid: i32, last_type: &str, idle: i64) -> RawSession {
    RawSession {
        pid,
        cwd: "/srv/app".into(),
        tty: "/dev/pts/1".into(),
        tmux: Some(TmuxInfo {
            pane: format!("%{pid}"),
            session: "work".into(),
            window: "0.0".into(),
        }),
        transcript: Some("/t.jsonl".into()),
        session_id: "s".into(),
        last_type: last_type.into(),
        last_ts: String::new(),
        idle_sec: Some(idle),
        preview: String::new(),
        usage: None,
        tool_running: false,
        tool_name: String::new(),
        turn_complete: false,
        thinking: false,
        transcript_live: true,
        usage_limited: false,
        resume_at: None,
        subagent_idle_sec: None,
    }
}

fn snap(now: i64, sessions: Vec<RawSession>) -> RawStatus {
    RawStatus {
        now: String::new(),
        now_epoch: now,
        sessions,
        tmux_sessions: Vec::new(),
    }
}

fn list() -> TaskStore {
    let mut s = TaskStore::load(None);
    s.add(
        Task {
            title: "t".into(),
            cwd: "/a b".into(),
            command: "make; echo done".into(),
            ..Default::default()
        },
        5,
    )
    .unwrap();
    s
}

#[test]
fn the_next_poll_is_never_immediate() {
    let mut st = Settings::default();
    assert_eq!(poll_delay(&st), 5);
    st.poll_interval_secs = 0;
    assert_eq!(poll_delay(&st), 1);
}

#[test]
fn a_poll_announces_and_sends() {
    let st = Settings {
        wait_secs: 0,
        language: "en".into(),
        ..Default::default()
    };
    let mut e = Engine::new();
    let out = poll(
        &mut e,
        Ok(snap(
            10_000,
            vec![session(1, "user", 900), session(2, "assistant", 1)],
        )),
        &st,
        "agent",
    );
    assert_eq!(out.due, [1]);
    assert_eq!(out.rows.len(), 2);
    assert_eq!(out.notices.len(), 1);
    assert_eq!(out.notices[0].title, "Session stuck");

    let plan = send_resume(true, &e, &st, 1).unwrap();
    assert_eq!(plan.start.program, "wsl.exe");
    assert_eq!(plan.start.args, ["tmux", "send-keys", "-t", "%1", "Enter"]);
    assert_eq!(plan.receipt, "Sent Enter → %1");
    let note = continue_receipt(&st, &out.rows, 1).unwrap();
    assert_eq!(note.body, "▶ Sent \"Enter\" to app (attempt 1)");

    let (c, tip) = status_followers(&out.rows, false);
    assert_eq!((c.red, c.yellow, c.green), (1, 0, 1));
    assert!(!c.warning);
    assert_eq!(tip, "clawmon — 🔴1 🟡0 🟢1");

    // the process goes away
    let out = poll(&mut e, Ok(snap(10_001, vec![session(1, "user", 901)])), &st, "agent");
    assert!(out.due.is_empty());
    assert_eq!(out.notices.len(), 1);
    assert_eq!(
        out.notices[0].body,
        "⏹ the agent process for app has exited"
    );
}

#[test]
fn silent_switches_announce_nothing() {
    let st = Settings {
        notify_red: false,
        ..Default::default()
    };
    let mut e = Engine::new();
    let out = poll(&mut e, Ok(snap(10_000, vec![session(1, "user", 900)])), &st, "agent");
    assert!(out.notices.is_empty());
}

#[test]
fn keys_are_split_at_white_space() {
    let st = Settings {
        resume_keys: " C-c\tEnter ".into(),
        wsl_distro: "Ubuntu".into(),
        ..Default::default()
    };
    let plan = send_keys(true, &st, "%9");
    assert_eq!(
        plan.start.args,
        ["-d", "Ubuntu", "tmux", "send-keys", "-t", "%9", "C-c", "Enter"]
    );
    assert_eq!(plan.receipt, "已发送 C-c Enter → %9");
}

#[test]
fn a_manual_send_is_booked_before_it_is_sent() {
    let st = Settings::default();
    let mut e = Engine::new();
    poll(&mut e, Ok(snap(10_000, vec![session(1, "user", 900)])), &st, "agent");
    let plan = send_continue(false, &mut e, &st, 1).unwrap();
    assert_eq!(plan.start.program, "tmux");
    assert_eq!(e.sends_of(1), 1);
    assert_eq!(
        send_continue(false, &mut e, &st, 2).unwrap_err(),
        "会话 2 不在 tmux 中，无法控制"
    );
    assert_eq!(
        send_resume(false, &e, &st, 2).unwrap_err(),
        "会话 2 不在 tmux 中，无法控制"
    );
    assert_eq!(e.sends_of(2), 0);
}

#[test]
fn a_task_is_launched_and_stopped() {
    let st = Settings {
        language: "en".into(),
        ..Default::default()
    };
    let mut s = list();
    let plan = launch_task(false, &mut s, &st, 1, 100).unwrap();
    assert_eq!(plan.start.program, "tmux");
    assert_eq!(
        plan.start.args,
        [
            "new-session",
            "-d",
            "-s",
            "clawmon-task-1",
            "-c",
            "/a b",
            "make; echo done"
        ]
    );
    assert_eq!(plan.receipt, "Task started → tmux session clawmon-task-1");
    assert_eq!(s.status_of(1), TaskStatus::Launching);
    assert_eq!(
        launch_task(false, &mut s, &st, 1, 101).unwrap_err(),
        "任务正在启动中"
    );
    let plan = stop_task(false, &mut s, &st, 1, 102).unwrap();
    assert_eq!(plan.start.args, ["kill-session", "-t", "clawmon-task-1"]);
    assert_eq!(plan.receipt, "Task stopped (clawmon-task-1)");
    assert_eq!(s.status_of(1), TaskStatus::Finished);
    assert_eq!(
        stop_task(false, &mut s, &st, 1, 103).unwrap_err(),
        "任务未在运行"
    );
}

#[test]
fn a_terminal_opens_on_a_listed_task_only() {
    let st = Settings::default();
    let s = list();
    let ways = open_task_terminal(true, &s, &st, 1).unwrap();
    assert_eq!(ways.len(), 2);
    assert_eq!(
        ways[0].args,
        ["wsl.exe", "--", "tmux", "attach", "-t", "clawmon-task-1"]
    );
    assert_eq!(
        ways[1].args,
        ["--", "tmux", "attach", "-t", "clawmon-task-1"]
    );
    assert!(open_task_terminal(false, &s, &st, 1).unwrap().is_empty());
    assert_eq!(
        open_task_terminal(true, &s, &st, 2).unwrap_err(),
        "任务 2 不存在"
    );
}

#[test]
fn a_new_task_has_a_row_at_once() {
    let s = list();
    let v = task_view(&s, &[], 1).expect("listed");
    assert_eq!(v.title, "t");
    assert_eq!(v.created_at, 5);
    assert_eq!(v.status, TaskStatus::Idle);
    assert!(task_view(&s, &[], 2).is_none());
}

#[test]
fn a_failed_scan_changes_nothing() {
    let st = Settings {
        wait_secs: 0,
        ..Default::default()
    };
    let mut e = Engine::new();
    let mut s = list();
    let mut scan = snap(10_000, vec![session(1, "user", 900)]);
    scan.tmux_sessions = vec!["clawmon-task-1".to_string()];
    let out = poll(&mut e, Ok(scan), &st, "agent");
    assert_eq!(out.warning, None);
    let live = out.live.as_ref().expect("the scan succeeded");
    assert_eq!((live.names.len(), live.now), (1, 10_000));
    let rows = poll_tasks(&mut s, &out.live, e.last_snapshot());
    assert_eq!(rows[0].status, TaskStatus::Running);

    let out = poll(&mut e, Err("WSL down".to_string()), &st, "agent");
    assert_eq!(out.warning.as_deref(), Some("WSL down"));
    assert_eq!(out.rows.len(), 1);
    assert_eq!((out.rows[0].pid, out.rows[0].sends), (1, 1));
    assert!(out.due.is_empty());
    assert!(out.notices.is_empty());
    assert!(out.live.is_none());
    // the session is not seen in a failed scan, which proves nothing
    let rows = poll_tasks(&mut s, &out.live, e.last_snapshot());
    assert_eq!(rows[0].status, TaskStatus::Running);
    let gone = Some(Live {
        names: Vec::new(),
        now: 10_001,
    });
    let rows = poll_tasks(&mut s, &gone, e.last_snapshot());
    assert_eq!(rows[0].status, TaskStatus::Finished);
}

#[test]
fn a_failed_launch_leaves_the_task_finished() {
    let st = Settings::default();
    let mut s = list();
    launch_task(false, &mut s, &st, 1, 100).unwrap();
    let refused = RunEnd::Exited {
        code: Some(1),
        output: String::new(),
        errors: "no such directory".to_string(),
    };
    assert_eq!(
        launch_ended(&mut s, 1, refused, 101),
        Err("命令退出码 1: no such directory".to_string())
    );
    assert_eq!(s.status_of(1), TaskStatus::Finished);
    assert_eq!(s.tasks()[0].last_run_at, Some(100));

    launch_task(false, &mut s, &st, 1, 102).unwrap();
    let started = RunEnd::Exited {
        code: Some(0),
        output: String::new(),
        errors: String::new(),
    };
    assert_eq!(launch_ended(&mut s, 1, started, 103), Ok(()));
    assert_eq!(s.status_of(1), TaskStatus::Launching);
}
