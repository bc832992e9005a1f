use clawmon_core::engine::{EventKind, SessionEvent};
use clawmon_core::notice::{
    auto_continue_text, continue_receipt, dispatch_event, event_text, quit_label, sent_text,
    show_label, started_text, status_followers, stopped_text,
};
use clawmon_core::settings::Settings;

fn event(kind: EventKind) -> SessionEvent {
    SessionEvent {
        pid: 1,
        kind,
        project: "statebar".into(),
    }
}

fn told(lang: &str, kind: EventKind) -> (String, String) {
    event_text(lang, kind, "statebar", "agent")
}

fn pair(title: &str, body: &str) -> (String, String) {
    (title.to_string(), body.to_string())
}

#[test]
fn events_in_english() {
    assert_eq!(
        told("en", EventKind::TurnedRed),
        pair(
            "Session stuck",
            "🔴 statebar looks blocked — will auto-continue as configured"
        )
    );
    assert_eq!(
        told("en", EventKind::Recovered),
        pair("Session recovered", "🟢 statebar is running again")
    );
    assert_eq!(
        told("en", EventKind::TurnEnd),
        pair(
            "Turn finished",
            "✅ statebar finished its turn and waits for your input"
        )
    );
    assert_eq!(
        told("en", EventKind::Exited),
        pair(
            "Session ended",
            "⏹ the agent process for statebar has exited"
        )
    );
}

#[test]
fn events_in_chinese() {
    assert_eq!(
        told("zh", EventKind::TurnedRed),
        pair("会话疑似卡死", "🔴 statebar 疑似 API 超时，将按设置自动继续")
    );
    assert_eq!(
        told("zh", EventKind::Recovered),
        pair("会话已恢复", "🟢 statebar 已恢复运行")
    );
    assert_eq!(
        told("zh", EventKind::TurnEnd),
        pair("回合结束", "✅ statebar 本轮任务完成，等待输入")
    );
    // any other language reads Chinese
    assert_eq!(
        told("fr", EventKind::Exited),
        pair("会话已结束", "⏹ statebar 的 agent 进程已退出")
    );
}

#[test]
fn each_kind_has_its_own_switch() {
    let kinds = [
        EventKind::TurnedRed,
        EventKind::Recovered,
        EventKind::TurnEnd,
        EventKind::Exited,
    ];
    for on in kinds {
        let st = Settings {
            notify_red: on == EventKind::TurnedRed,
            notify_recovered: on == EventKind::Recovered,
            notify_turn_end: on == EventKind::TurnEnd,
            notify_exit: on == EventKind::Exited,
            sound_alerts: false,
            ..Default::default()
        };
        for kind in kinds {
            let n = dispatch_event(&st, &event(kind), "agent");
            assert_eq!(n.is_some(), kind == on);
            if let Some(n) = n {
                assert!(!n.sound);
                assert_eq!((n.title, n.body), told("zh", kind));
            }
        }
    }
}

#[test]
fn automatic_sends_are_told() {
    assert_eq!(
        auto_continue_text("en", "C-c Enter", "statebar", 2),
        pair(
            "Auto-continue sent",
            "▶ Sent \"C-c Enter\" to statebar (attempt 2)"
        )
    );
    assert_eq!(
        auto_continue_text("zh", "Enter", "statebar", 1),
        pair("已自动继续", "▶ 已向 statebar 发送「Enter」（第 1 次）")
    );
}

#[test]
fn a_receipt_without_a_row_counts_one() {
    let st = Settings {
        language: "en".into(),
        ..Default::default()
    };
    let n = continue_receipt(&st, &[], 5).expect("switched on");
    assert_eq!(n.body, "▶ Sent \"Enter\" to  (attempt 1)");
    assert!(n.sound);
    let st = Settings {
        notify_continue: false,
        ..Default::default()
    };
    assert!(continue_receipt(&st, &[], 5).is_none());
}

#[test]
fn receipts_of_commands() {
    let keys = vec!["C-c".to_string(), "Enter".to_string()];
    assert_eq!(sent_text("en", &keys, "%3"), "Sent C-c Enter → %3");
    assert_eq!(sent_text("zh", &keys, "%3"), "已发送 C-c Enter → %3");
    assert_eq!(
        started_text("en", "clawmon-task-1"),
        "Task started → tmux session clawmon-task-1"
    );
    assert_eq!(
        started_text("zh", "clawmon-task-1"),
        "任务已启动 → tmux 会话 clawmon-task-1"
    );
    assert_eq!(
        stopped_text("en", "clawmon-task-1"),
        "Task stopped (clawmon-task-1)"
    );
    assert_eq!(
        stopped_text("zh", "clawmon-task-1"),
        "任务已停止（clawmon-task-1）"
    );
}

#[test]
fn the_tray_speaks_both_languages() {
    assert_eq!(show_label("en"), "Show main window");
    assert_eq!(show_label("zh"), "显示主窗口");
    assert_eq!(quit_label("en"), "Quit");
    assert_eq!(quit_label("zh"), "退出");
}

#[test]
fn an_empty_list_counts_nothing() {
    let (c, tip) = status_followers(&[], true);
    assert_eq!((c.red, c.yellow, c.green), (0, 0, 0));
    assert!(c.warning);
    assert_eq!(tip, "clawmon — 🔴0 🟡0 🟢0");
}
