use clawmon_core::detector::{RawSession, TmuxInfo};
use clawmon_core::tasks::{Persisted, Task, TaskStatus, TaskStore, LAUNCH_GRACE_SECS};

fn store() -> TaskStore {
    TaskStore::load(None)
}

fn task(title: &str, cwd: &str, command: &str) -> Task {
    Task {
        title: title.into(),
        cwd: cwd.into(),
        command: command.into(),
        ..Default::default()
    }
}

fn agent_in(session: &str, session_id: &str, pid: i32) -> RawSession {
    RawSession {
        pid,
        cwd: "/tmp/x".into(),
        tty: "/dev/pts/3".into(),
        tmux: Some(TmuxInfo {
            pane: "%9".into(),
            session: session.into(),
            window: "0.0".into(),
        }),
        transcript: None,
        session_id: session_id.into(),
        last_type: String::new(),
        last_ts: String::new(),
        idle_sec: None,
        preview: String::new(),
        usage: None,
        tool_running: false,
        tool_name: String::new(),
        turn_complete: false,
        thinking: false,
        transcript_live: false,
        usage_limited: false,
        resume_at: None,
        subagent_idle_sec: None,
    }
}

#[test]
fn add_assigns_ids_and_rejects_bad_input() {
    let mut s = store();
    let a = s
        .add(task("修复", "~/work/webapp", "agent \"x\""), 100)
        .unwrap();
    let b = s
        .add(task("报告", "/tmp/docs", "make report"), 101)
        .unwrap();
    assert_eq!((a.id, b.id), (1, 2), "ids are sequential and app-owned");
    assert_eq!(a.session_name(), "clawmon-task-1");

    assert!(s.add(task("", "/a", "x"), 102).is_err(), "empty title");
    assert!(
        s.add(task("t", "work/x", "x"), 102).is_err(),
        "relative cwd"
    );
    assert!(s.add(task("t", "/a", "  "), 102).is_err(), "blank command");
    assert!(
        s.add(task("t", "/a\nrm -rf", "x"), 102).is_err(),
        "control chars in cwd"
    );
}

#[test]
fn persistence_roundtrip_and_garbage_dropping() {
    let mut s = store();
    s.add(task("one", "/a", "cmd1"), 10).unwrap();
    s.add(task("two", "/b", "cmd2"), 11).unwrap();
    s.remove(1).unwrap();
    let saved = s.persisted();

    let loaded = TaskStore::load(Some(saved));
    assert_eq!(loaded.tasks().len(), 1);
    assert_eq!(loaded.tasks()[0].title, "two");
    // next_id survived the delete: no id reuse
    let c = loaded_add(loaded, "three", "/c", "cmd3");
    assert_eq!(c.id, 3);

    // hand-edited garbage entries are dropped, valid ones kept
    let mut good = task("ok", "/ok", "true");
    good.id = 4;
    good.created_at = 1;
    let mut bad = task("bad", "relative", "x");
    bad.id = 5;
    bad.created_at = 1;
    let s2 = TaskStore::load(Some(Persisted {
        next_id: 5,
        tasks: vec![good, bad],
    }));
    assert_eq!(s2.tasks().len(), 1);
    assert_eq!(s2.tasks()[0].id, 4);
    assert_eq!(s2.next_id(), 5);
}

fn loaded_add(mut s: TaskStore, title: &str, cwd: &str, cmd: &str) -> Task {
    s.add(task(title, cwd, cmd), 0).unwrap()
}

/// The claim-then-execute invariant (FR10.2): the first claim wins, the
/// second — overlapping click or poll mid-round-trip — is refused.
#[test]
fn launch_is_claimed_exactly_once() {
    let mut s = store();
    s.add(task("t", "/a", "x"), 0).unwrap();
    let spec = s.claim_launch(1, 100).unwrap();
    assert_eq!(spec.session_name(), "clawmon-task-1");
    assert_eq!(s.status_of(1), TaskStatus::Launching);
    assert_eq!(
        s.claim_launch(1, 101).unwrap_err(),
        "任务正在启动中",
        "overlapping click while the round trip is in flight"
    );
    assert_eq!(s.tasks()[0].last_run_at, Some(100));
}

#[test]
fn launch_on_running_task_is_refused() {
    let mut s = store();
    s.add(task("t", "/a", "x"), 0).unwrap();
    s.claim_launch(1, 100).unwrap();
    s.reconcile(&["clawmon-task-1".to_string()], 105);
    assert_eq!(s.status_of(1), TaskStatus::Running);
    assert_eq!(s.claim_launch(1, 106).unwrap_err(), "任务已在运行");
    // relaunch after it ends is fine
    s.reconcile(&[], 110);
    assert_eq!(s.status_of(1), TaskStatus::Finished);
    assert!(s.claim_launch(1, 120).is_ok());
}

#[test]
fn reconcile_lifecycle() {
    let mut s = store();
    s.add(task("t", "/a", "x"), 0).unwrap();

    // launching, session not seen yet, inside grace → stays launching
    s.claim_launch(1, 1000).unwrap();
    s.reconcile(&[], 1010);
    assert_eq!(s.status_of(1), TaskStatus::Launching);

    // session appears (with an agent session inside) → running + linked
    s.reconcile(&["clawmon-task-1".into()], 1020);
    assert_eq!(s.status_of(1), TaskStatus::Running);
    let v = &s.views(&[agent_in("clawmon-task-1", "sess-42", 777)])[0];
    assert_eq!(v.session_id.as_deref(), Some("sess-42"));
    assert_eq!(v.pid, Some(777));

    // session gone → finished
    s.reconcile(&[], 1030);
    assert_eq!(s.status_of(1), TaskStatus::Finished);
}

/// A launch that never shows a session (bad dir, instant exit) must not
/// wedge the button in "launching" forever.
#[test]
fn launch_past_grace_is_finished() {
    let mut s = store();
    s.add(task("t", "/a", "x"), 0).unwrap();
    s.claim_launch(1, 1000).unwrap();
    s.reconcile(&[], 1000 + LAUNCH_GRACE_SECS);
    assert_eq!(s.status_of(1), TaskStatus::Finished);
}

/// App restart while the task runs: the store comes back empty but the
/// session is alive — reconcile adopts it instead of showing "idle".
#[test]
fn restart_adopts_a_live_session() {
    let mut s = store();
    s.add(task("t", "/a", "x"), 0).unwrap();
    s.reconcile(&["clawmon-task-1".into()], 500);
    assert_eq!(s.status_of(1), TaskStatus::Running);
}

#[test]
fn stop_is_booked_then_terminal() {
    let mut s = store();
    s.add(task("t", "/a", "x"), 0).unwrap();
    assert!(s.claim_stop(1, 100).is_err(), "idle task cannot stop");
    s.claim_launch(1, 100).unwrap();
    s.reconcile(&["clawmon-task-1".into()], 105);
    s.claim_stop(1, 110).unwrap();
    assert_eq!(s.status_of(1), TaskStatus::Finished);
    assert!(s.claim_stop(1, 111).is_err(), "double stop refused");
}

#[test]
fn views_order_running_first() {
    let mut s = store();
    s.add(task("idle", "/a", "x"), 0).unwrap();
    s.add(task("run", "/b", "y"), 0).unwrap();
    s.add(task("done", "/c", "z"), 0).unwrap();
    s.claim_launch(2, 100).unwrap();
    s.reconcile(&["clawmon-task-2".into()], 105); // task 2 → running
    s.claim_launch(3, 70).unwrap();
    // one monotonic clock: task 2 stays alive, task 3's never-seen
    // launch is past the grace window → finished
    s.reconcile(&["clawmon-task-2".into()], 200);
    let order: Vec<u64> = s.views(&[]).iter().map(|v| v.id).collect();
    assert_eq!(order, [2, 1, 3], "running → idle → finished");
}

// ---- further cases ---------------------------------------------------------

#[test]
fn validate_names_the_first_fault() {
    assert_eq!(task("t", "/a", "x").validate(), Ok(()));
    assert_eq!(
        task(" \t", "bad", "").validate(),
        Err("标题不能为空".to_string())
    );
    assert_eq!(
        task("t", "bad", "").validate(),
        Err("目录必须是 WSL 绝对路径（/ 或 ~ 开头）".to_string())
    );
    assert_eq!(
        task("t", " ", "x").validate(),
        Err("目录必须是 WSL 绝对路径（/ 或 ~ 开头）".to_string())
    );
    assert_eq!(
        task("t", "/a", "\u{3000}").validate(),
        Err("命令不能为空".to_string())
    );
}

#[test]
fn directories_are_limited_in_bytes() {
    let longest = format!("/{}", "a".repeat(255));
    assert!(task("t", &longest, "x").validate().is_ok());
    let too_long = format!("/{}", "a".repeat(256));
    assert!(task("t", &too_long, "x").validate().is_err());
    // 86 characters, 256 bytes
    let wide = format!("/{}", "目".repeat(85));
    assert!(task("t", &wide, "x").validate().is_ok());
    let wider = format!("/{}", "目".repeat(86));
    assert!(task("t", &wider, "x").validate().is_err());
    assert!(task("t", "~", "x").validate().is_ok());
    assert!(task("t", "/a\u{7f}", "x").validate().is_err());
}

#[test]
fn sanitize_trims_and_cuts() {
    let t = task(
        &format!("  {}  ", "标".repeat(70)),
        "  /work  ",
        &format!("\n{}\n", "c".repeat(600)),
    )
    .sanitize()
    .expect("valid task");
    assert_eq!(t.title, "标".repeat(64));
    assert_eq!(t.cwd, "/work");
    assert_eq!(t.command, "c".repeat(512));
    assert!(task("", "/a", "x").sanitize().is_none());
}

#[test]
fn adding_sets_id_and_creation_time() {
    let mut s = store();
    let mut t = task("t", "/a", "x");
    t.id = 99;
    t.created_at = 99;
    let t = s.add(t, 7).unwrap();
    assert_eq!((t.id, t.created_at), (1, 7));
    assert_eq!(
        s.add(task("t", "a", "x"), 8).unwrap_err(),
        "任务不合法：标题/目录/命令不能为空，目录必须是绝对路径"
    );
    assert_eq!(s.tasks().len(), 1);
    assert_eq!(s.next_id(), 2);
}

#[test]
fn update_replaces_the_definition_only() {
    let mut s = store();
    s.add(task("one", "/a", "x"), 0).unwrap();
    s.add(task("two", "/b", "y"), 0).unwrap();
    s.claim_launch(2, 10).unwrap();
    let mut t = task(" new ", " /c ", " z ");
    t.id = 1;
    s.update(2, t).unwrap();
    assert_eq!(s.tasks()[0].title, "one");
    assert_eq!(s.tasks()[1].id, 2);
    assert_eq!(s.tasks()[1].title, "new");
    assert_eq!(s.tasks()[1].cwd, "/c");
    assert_eq!(s.tasks()[1].command, "z");
    assert_eq!(s.status_of(2), TaskStatus::Launching);
    assert_eq!(
        s.update(3, task("t", "/a", "x")).unwrap_err(),
        "任务 3 不存在"
    );
    assert_eq!(
        s.update(3, task("", "/a", "x")).unwrap_err(),
        "任务不合法：标题/目录/命令不能为空，目录必须是绝对路径"
    );
}

#[test]
fn remove_takes_one_task_out() {
    let mut s = store();
    s.add(task("one", "/a", "x"), 0).unwrap();
    s.add(task("two", "/b", "y"), 0).unwrap();
    s.claim_launch(1, 10).unwrap();
    s.claim_launch(2, 10).unwrap();
    s.remove(1).unwrap();
    assert_eq!(s.tasks().len(), 1);
    assert_eq!(s.tasks()[0].id, 2);
    assert_eq!(s.status_of(1), TaskStatus::Idle);
    assert_eq!(s.status_of(2), TaskStatus::Launching);
    assert_eq!(s.remove(1).unwrap_err(), "任务 1 不存在");
    // the id does not come back
    assert_eq!(s.add(task("three", "/c", "z"), 0).unwrap().id, 3);
}

#[test]
fn unknown_tasks_are_not_launched_or_stopped() {
    let mut s = store();
    assert_eq!(s.claim_launch(7, 0).unwrap_err(), "任务 7 不存在");
    assert_eq!(s.claim_stop(7, 0).unwrap_err(), "任务未在运行");
    assert_eq!(s.status_of(7), TaskStatus::Idle);
    assert_eq!(s.session_of(7), None);
}

#[test]
fn a_failed_launch_can_be_repeated() {
    let mut s = store();
    s.add(task("t", "/a", "x"), 0).unwrap();
    s.claim_launch(1, 100).unwrap();
    s.launch_failed(1, 101);
    assert_eq!(s.status_of(1), TaskStatus::Finished);
    assert!(s.claim_launch(1, 102).is_ok());
}

#[test]
fn a_launch_inside_the_grace_period_goes_on() {
    let mut s = store();
    s.add(task("t", "/a", "x"), 0).unwrap();
    s.claim_launch(1, 1000).unwrap();
    s.reconcile(&[], 1000 + LAUNCH_GRACE_SECS - 1);
    assert_eq!(s.status_of(1), TaskStatus::Launching);
}

#[test]
fn polling_twice_changes_nothing() {
    let mut s = store();
    s.add(task("t", "/a", "x"), 0).unwrap();
    s.add(task("u", "/a", "x"), 0).unwrap();
    s.claim_launch(1, 1000).unwrap();
    let live = ["clawmon-task-2".to_string()];
    s.reconcile(&live, 1030);
    let first = (s.status_of(1), s.status_of(2));
    s.reconcile(&live, 1030);
    assert_eq!((s.status_of(1), s.status_of(2)), first);
    assert_eq!(first, (TaskStatus::Finished, TaskStatus::Running));
}

#[test]
fn session_names_are_told_apart() {
    let mut s = store();
    for _ in 0..12 {
        s.add(task("t", "/a", "x"), 0).unwrap();
    }
    // the session of task 12 is not that of task 1
    s.reconcile(&["clawmon-task-12".to_string()], 5);
    assert_eq!(s.status_of(1), TaskStatus::Idle);
    assert_eq!(s.status_of(12), TaskStatus::Running);
    assert_eq!(s.session_of(12).as_deref(), Some("clawmon-task-12"));
}

#[test]
fn rows_link_the_first_session_inside() {
    let mut s = store();
    s.add(task("t", "/a", "x"), 3).unwrap();
    let v = &s.views(&[
        agent_in("other", "a", 1),
        agent_in("clawmon-task-1", "", 2),
        agent_in("clawmon-task-1", "b", 3),
    ])[0];
    // an empty session id is none at all
    assert_eq!(v.session_id, None);
    assert_eq!(v.pid, Some(2));
    assert_eq!(v.session_name, "clawmon-task-1");
    assert_eq!(v.status, TaskStatus::Idle);
    assert_eq!((v.created_at, v.last_run_at), (3, None));
}

#[test]
fn the_latest_run_comes_first_within_a_group() {
    let mut s = store();
    for _ in 0..4 {
        s.add(task("t", "/a", "x"), 0).unwrap();
    }
    s.claim_launch(1, 10).unwrap();
    s.claim_launch(2, 30).unwrap();
    s.claim_launch(3, 20).unwrap();
    s.launch_failed(1, 40);
    s.launch_failed(2, 40);
    s.launch_failed(3, 40);
    let order: Vec<u64> = s.views(&[]).iter().map(|v| v.id).collect();
    assert_eq!(order, [4, 2, 3, 1]);
}

#[test]
fn reload_cuts_white_space_that_a_cut_left_behind() {
    let mut s = store();
    let title = format!("{} and more", "x".repeat(63));
    s.add(task(&title, "/a", "x"), 0).unwrap();
    assert_eq!(s.tasks()[0].title, format!("{} ", "x".repeat(63)));
    let back = TaskStore::load(Some(s.persisted()));
    assert_eq!(back.tasks()[0].title, "x".repeat(63));
    assert_eq!(back.tasks()[0].id, 1);
    assert_eq!(back.next_id(), 2);
}

#[test]
fn an_unreadable_list_is_an_empty_one() {
    let s = TaskStore::load(None);
    assert!(s.tasks().is_empty());
    assert_eq!(s.next_id(), 1);
    let zero = TaskStore::load(Some(Persisted {
        next_id: 0,
        tasks: Vec::new(),
    }));
    assert_eq!(zero.next_id(), 1);
}

#[test]
fn launch_ages_beyond_the_clock_are_told_beforehand() {
    let mut s = store();
    s.add(task("t", "/a", "x"), 0).unwrap();
    s.claim_launch(1, i64::MIN).unwrap();
    assert!(!s.reconcile_fits(&[], 0));
    assert!(s.reconcile_fits(&["clawmon-task-1".to_string()], 0));
    assert!(s.reconcile_fits(&[], -1));
}

#[test]
fn ids_stay_unique_whatever_the_file_says() {
    let with_id = |id: u64, title: &str| {
        let mut t = task(title, "/a", "x");
        t.id = id;
        t
    };
    let mut s = TaskStore::load(Some(Persisted {
        next_id: 1,
        tasks: vec![
            with_id(1, "first"),
            with_id(1, "again"),
            with_id(7, "far"),
            with_id(u64::MAX, "farthest"),
        ],
    }));
    let kept: Vec<(u64, &str)> = s.tasks().iter().map(|t| (t.id, t.title.as_str())).collect();
    assert_eq!(kept, [(1, "first"), (7, "far")]);
    assert_eq!(s.next_id(), 8);
    assert_eq!(s.add(task("new", "/a", "x"), 0).unwrap().id, 8);
}

#[test]
fn a_stopped_task_is_not_revived_by_a_poll() {
    let mut s = store();
    s.add(task("t", "/a", "x"), 0).unwrap();
    s.claim_launch(1, 10).unwrap();
    s.claim_stop(1, 20).unwrap();
    s.reconcile(&["clawmon-task-1".to_string()], 21);
    assert_eq!(s.status_of(1), TaskStatus::Finished);
}
