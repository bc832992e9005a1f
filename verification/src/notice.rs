//! The texts of the native surfaces: notifications, receipts, the tray.
use vstd::prelude::*;
use vstd::string::*;

use crate::engine;
use crate::engine::{EventKind, SessionEvent, SessionView, StatusCounts, ViewModel};
use crate::model;
use crate::settings::{Settings, SettingsModel};
use crate::text;

verus! {

/// One desktop notification.
#[derive(Debug)]
pub struct Notice {
    pub title: String,
    pub body: String,
    /// whether the alert sound goes with it
    pub sound: bool,
}

/// One desktop notification as the contracts see it.
pub struct NoticeModel {
    pub title: Seq<char>,
    pub body: Seq<char>,
    pub sound: bool,
}

impl View for Notice {
    type V = NoticeModel;

    open spec fn view(&self) -> NoticeModel {
        NoticeModel { title: self.title@, body: self.body@, sound: self.sound }
    }
}

/// Whether a language setting means English; anything else means Chinese.
pub open spec fn english(lang: Seq<char>) -> bool {
    lang == "en"@
}

// ---- session events -------------------------------------------------------

/// The title of a session event.
pub open spec fn event_title(en: bool, kind: EventKind) -> Seq<char> {
    match kind {
        EventKind::TurnedRed => if en {
            "Session stuck"@
        } else {
            "会话疑似卡死"@
        },
        EventKind::Recovered => if en {
            "Session recovered"@
        } else {
            "会话已恢复"@
        },
        EventKind::TurnEnd => if en {
            "Turn finished"@
        } else {
            "回合结束"@
        },
        EventKind::Exited => if en {
            "Session ended"@
        } else {
            "会话已结束"@
        },
    }
}

/// The body of a session event; `agent` is the name of the monitored program.
pub open spec fn event_body(
    en: bool,
    kind: EventKind,
    project: Seq<char>,
    agent: Seq<char>,
) -> Seq<char> {
    match kind {
        EventKind::TurnedRed => if en {
            "🔴 "@ + project + " looks blocked — will auto-continue as configured"@
        } else {
            "🔴 "@ + project + " 疑似 API 超时，将按设置自动继续"@
        },
        EventKind::Recovered => if en {
            "🟢 "@ + project + " is running again"@
        } else {
            "🟢 "@ + project + " 已恢复运行"@
        },
        EventKind::TurnEnd => if en {
            "✅ "@ + project + " finished its turn and waits for your input"@
        } else {
            "✅ "@ + project + " 本轮任务完成，等待输入"@
        },
        EventKind::Exited => if en {
            "⏹ the "@ + agent + " process for "@ + project + " has exited"@
        } else {
            "⏹ "@ + project + " 的 "@ + agent + " 进程已退出"@
        },
    }
}

/// Title and body of a session event, in the configured language; `agent` is
/// the name of the monitored program.
pub fn event_text(lang: &str, kind: EventKind, project: &str, agent: &str) -> (r: (String, String))
    ensures
        r.0@ == event_title(english(lang@), kind),
        r.1@ == event_body(english(lang@), kind, project@, agent@),
{
    let en: bool = text::same(lang, "en");
    match kind {
        EventKind::TurnedRed => if en {
            (
                "Session stuck".to_owned(),
                text::cat3("🔴 ", project, " looks blocked — will auto-continue as configured"),
            )
        } else {
            (
                "会话疑似卡死".to_owned(),
                text::cat3("🔴 ", project, " 疑似 API 超时，将按设置自动继续"),
            )
        },
        EventKind::Recovered => if en {
            (
                "Session recovered".to_owned(),
                text::cat3("🟢 ", project, " is running again"),
            )
        } else {
            ("会话已恢复".to_owned(), text::cat3("🟢 ", project, " 已恢复运行"))
        },
        EventKind::TurnEnd => if en {
            (
                "Turn finished".to_owned(),
                text::cat3("✅ ", project, " finished its turn and waits for your input"),
            )
        } else {
            (
                "回合结束".to_owned(),
                text::cat3("✅ ", project, " 本轮任务完成，等待输入"),
            )
        },
        EventKind::Exited => if en {
            let mut body = text::cat3("⏹ the ", agent, " process for ");
            body.append(project);
            body.append(" has exited");
            ("Session ended".to_owned(), body)
        } else {
            let mut body = text::cat3("⏹ ", project, " 的 ");
            body.append(agent);
            body.append(" 进程已退出");
            ("会话已结束".to_owned(), body)
        },
    }
}

/// Whether an event is to be shown at all: each kind has its own switch.
pub open spec fn shown(st: SettingsModel, kind: EventKind) -> bool {
    match kind {
        EventKind::TurnedRed => st.notify_red,
        EventKind::Recovered => st.notify_recovered,
        EventKind::TurnEnd => st.notify_turn_end,
        EventKind::Exited => st.notify_exit,
    }
}

/// The notification for a session event; none where its switch is off.
pub open spec fn event_notice(
    st: SettingsModel,
    kind: EventKind,
    project: Seq<char>,
    agent: Seq<char>,
) -> Option<NoticeModel> {
    if shown(st, kind) {
        Some(
            NoticeModel {
                title: event_title(english(st.language), kind),
                body: event_body(english(st.language), kind, project, agent),
                sound: st.sound_alerts,
            },
        )
    } else {
        None
    }
}

/// The notification for a session event; see `event_notice`.
pub fn dispatch_event(settings: &Settings, ev: &SessionEvent, agent: &str) -> (r: Option<Notice>)
    ensures
        model::view_opt(r) == event_notice(settings@, ev.kind, ev.project@, agent@),
{
    let enabled: bool = match ev.kind {
        EventKind::TurnedRed => settings.notify_red,
        EventKind::Recovered => settings.notify_recovered,
        EventKind::TurnEnd => settings.notify_turn_end,
        EventKind::Exited => settings.notify_exit,
    };
    if !enabled {
        return None;
    }
    let (title, body) = event_text(
        settings.language.as_str(),
        ev.kind,
        ev.project.as_str(),
        agent,
    );
    Some(Notice { title, body, sound: settings.sound_alerts })
}

// ---- sends ----------------------------------------------------------------

/// The title of the receipt of an automatic send.
pub open spec fn continue_title(en: bool) -> Seq<char> {
    if en {
        "Auto-continue sent"@
    } else {
        "已自动继续"@
    }
}

/// The body of the receipt of an automatic send.
pub open spec fn continue_body(en: bool, keys: Seq<char>, project: Seq<char>, count: nat) -> Seq<
    char,
> {
    if en {
        "▶ Sent \""@ + keys + "\" to "@ + project + " (attempt "@ + text::decimal(count) + ")"@
    } else {
        "▶ 已向 "@ + project + " 发送「"@ + keys + "」（第 "@ + text::decimal(count) + " 次）"@
    }
}

/// Title and body of the receipt of an automatic send.
pub fn auto_continue_text(lang: &str, keys: &str, project: &str, count: u32) -> (r: (
    String,
    String,
))
    ensures
        r.0@ == continue_title(english(lang@)),
        r.1@ == continue_body(english(lang@), keys@, project@, count as nat),
{
    let number = text::decimal_of(count as u64);
    if text::same(lang, "en") {
        let mut body = text::cat3("▶ Sent \"", keys, "\" to ");
        body.append(project);
        body.append(" (attempt ");
        body.append(number.as_str());
        body.append(")");
        ("Auto-continue sent".to_owned(), body)
    } else {
        let mut body = text::cat3("▶ 已向 ", project, " 发送「");
        body.append(keys);
        body.append("」（第 ");
        body.append(number.as_str());
        body.append(" 次）");
        ("已自动继续".to_owned(), body)
    }
}

proof fn lemma_row_stays(rows: Seq<ViewModel>, n: int, pid: i32)
    requires
        0 <= n <= rows.len(),
        engine::row_for(rows.take(n), pid) is Some,
    ensures
        engine::row_for(rows, pid) == engine::row_for(rows.take(n), pid),
    decreases rows.len(),
{
    if n == rows.len() {
        model::lemma_take_all(rows);
    } else {
        assert(rows.drop_last().take(n) =~= rows.take(n));
        lemma_row_stays(rows.drop_last(), n, pid);
    }
}

fn find_row(rows: &[SessionView], pid: i32) -> (r: Option<&SessionView>)
    ensures
        model::view_opt(r) == engine::row_for(model::views(rows@), pid),
{
    let ghost all = model::views(rows@);
    let mut i: usize = 0;
    proof {
        assert(all.take(0) =~= Seq::empty());
    }
    while i < rows.len()
        invariant
            i <= rows@.len(),
            all == model::views(rows@),
            engine::row_for(all.take(i as int), pid) is None,
        decreases rows@.len() - i,
    {
        proof {
            model::lemma_take_step(all, i as int);
        }
        if rows[i].pid == pid {
            proof {
                lemma_row_stays(all, i + 1, pid);
            }
            return Some(&rows[i]);
        }
        i = i + 1;
    }
    proof {
        model::lemma_take_all(all);
    }
    None
}

/// The receipt of an automatic send; none where its switch is off. The rows
/// carry the number of the attempt already.
pub open spec fn continue_notice(st: SettingsModel, rows: Seq<ViewModel>, pid: i32) -> Option<
    NoticeModel,
> {
    if !st.notify_continue {
        None
    } else {
        let row = engine::row_for(rows, pid);
        let count = match row {
            Some(v) => v.sends as nat,
            None => 1,
        };
        let project = match row {
            Some(v) => v.project,
            None => Seq::empty(),
        };
        Some(
            NoticeModel {
                title: continue_title(english(st.language)),
                body: continue_body(english(st.language), st.resume_keys, project, count),
                sound: st.sound_alerts,
            },
        )
    }
}

/// The receipt of an automatic send; see `continue_notice`.
pub fn continue_receipt(settings: &Settings, rows: &[SessionView], pid: i32) -> (r: Option<Notice>)
    ensures
        model::view_opt(r) == continue_notice(settings@, model::views(rows@), pid),
{
    if !settings.notify_continue {
        return None;
    }
    let nobody = String::new();
    proof {
        assert(nobody@ =~= Seq::empty());
    }
    let (count, project): (u32, &str) = match find_row(rows, pid) {
        Some(v) => (v.sends, v.project.as_str()),
        None => (1, nobody.as_str()),
    };
    let (title, body) = auto_continue_text(
        settings.language.as_str(),
        settings.resume_keys.as_str(),
        project,
        count,
    );
    Some(Notice { title, body, sound: settings.sound_alerts })
}

/// What the user reads once keys were sent to a pane.
pub open spec fn sent_line(en: bool, keys: Seq<Seq<char>>, pane: Seq<char>) -> Seq<char> {
    (if en {
        "Sent "@
    } else {
        "已发送 "@
    }) + text::joined(keys) + " → "@ + pane
}

/// What the user reads once keys were sent to a pane.
pub fn sent_text(lang: &str, keys: &Vec<String>, pane: &str) -> (r: String)
    ensures
        r@ == sent_line(english(lang@), model::views(keys@), pane@),
{
    let list = text::join_words(keys);
    let mut line = if text::same(lang, "en") {
        text::cat3("Sent ", list.as_str(), " → ")
    } else {
        text::cat3("已发送 ", list.as_str(), " → ")
    };
    line.append(pane);
    line
}

// ---- tasks ----------------------------------------------------------------

/// What the user reads once a task was launched.
pub open spec fn started_line(en: bool, name: Seq<char>) -> Seq<char> {
    (if en {
        "Task started → tmux session "@
    } else {
        "任务已启动 → tmux 会话 "@
    }) + name
}

/// What the user reads once a task was launched.
pub fn started_text(lang: &str, name: &str) -> (r: String)
    ensures
        r@ == started_line(english(lang@), name@),
{
    if text::same(lang, "en") {
        text::cat("Task started → tmux session ", name)
    } else {
        text::cat("任务已启动 → tmux 会话 ", name)
    }
}

/// What the user reads once a task was stopped.
pub open spec fn stopped_line(en: bool, name: Seq<char>) -> Seq<char> {
    if en {
        "Task stopped ("@ + name + ")"@
    } else {
        "任务已停止（"@ + name + "）"@
    }
}

/// What the user reads once a task was stopped.
pub fn stopped_text(lang: &str, name: &str) -> (r: String)
    ensures
        r@ == stopped_line(english(lang@), name@),
{
    if text::same(lang, "en") {
        text::cat3("Task stopped (", name, ")")
    } else {
        text::cat3("任务已停止（", name, "）")
    }
}

// ---- the tray -------------------------------------------------------------

/// The tooltip of the tray icon: how many sessions show each light.
pub open spec fn tooltip_line(red: nat, yellow: nat, green: nat) -> Seq<char> {
    "clawmon — 🔴"@ + text::decimal(red) + " 🟡"@ + text::decimal(yellow) + " 🟢"@ + text::decimal(
        green,
    )
}

/// The counts that the tray and the pet follow, and the tray's tooltip.
pub fn status_followers(sessions: &[SessionView], warning: bool) -> (r: (StatusCounts, String))
    requires
        engine::lit(model::views(sessions@), engine::SessionState::Red) <= u32::MAX,
        engine::lit(model::views(sessions@), engine::SessionState::Yellow) <= u32::MAX,
        engine::lit(model::views(sessions@), engine::SessionState::Green) <= u32::MAX,
    ensures
        r.0.red == engine::lit(model::views(sessions@), engine::SessionState::Red),
        r.0.yellow == engine::lit(model::views(sessions@), engine::SessionState::Yellow),
        r.0.green == engine::lit(model::views(sessions@), engine::SessionState::Green),
        r.0.warning == warning,
        r.1@ == tooltip_line(
            engine::lit(model::views(sessions@), engine::SessionState::Red),
            engine::lit(model::views(sessions@), engine::SessionState::Yellow),
            engine::lit(model::views(sessions@), engine::SessionState::Green),
        ),
{
    let mut c = engine::state_counts(sessions);
    c.warning = warning;
    let red = text::decimal_of(c.red as u64);
    let yellow = text::decimal_of(c.yellow as u64);
    let green = text::decimal_of(c.green as u64);
    let mut tip = text::cat3("clawmon — 🔴", red.as_str(), " 🟡");
    tip.append(yellow.as_str());
    tip.append(" 🟢");
    tip.append(green.as_str());
    (c, tip)
}

/// The tray entry that shows the main window.
pub open spec fn show_line(lang: Seq<char>) -> Seq<char> {
    if english(lang) {
        "Show main window"@
    } else {
        "显示主窗口"@
    }
}

/// The label of the tray entry that shows the main window.
pub fn show_label(lang: &str) -> (r: &'static str)
    ensures
        r@ == show_line(lang@),
{
    if text::same(lang, "en") {
        "Show main window"
    } else {
        "显示主窗口"
    }
}

/// The tray entry that ends the program.
pub open spec fn quit_line(lang: Seq<char>) -> Seq<char> {
    if english(lang) {
        "Quit"@
    } else {
        "退出"@
    }
}

/// The label of the tray entry that ends the program.
pub fn quit_label(lang: &str) -> (r: &'static str)
    ensures
        r@ == quit_line(lang@),
{
    if text::same(lang, "en") {
        "Quit"
    } else {
        "退出"
    }
}

// ---- laws -----------------------------------------------------------------

/// A session event is shown exactly where the switch of its kind is on, with the
/// alert sound exactly where sounds are on, whatever the other switches say.
pub proof fn law_each_kind_has_its_switch(
    st: SettingsModel,
    kind: EventKind,
    project: Seq<char>,
    agent: Seq<char>,
)
    ensures
        ({
            let n = event_notice(st, kind, project, agent);
            &&& kind == EventKind::TurnedRed ==> (n is Some <==> st.notify_red)
            &&& kind == EventKind::Recovered ==> (n is Some <==> st.notify_recovered)
            &&& kind == EventKind::TurnEnd ==> (n is Some <==> st.notify_turn_end)
            &&& kind == EventKind::Exited ==> (n is Some <==> st.notify_exit)
            &&& n is Some ==> n->0.sound == st.sound_alerts
        }),
{
}

/// What an English user reads of a session event.
pub proof fn law_english_notifications(
    st: SettingsModel,
    kind: EventKind,
    project: Seq<char>,
    agent: Seq<char>,
)
    requires
        st.language == "en"@,
    ensures
        event_notice(st, kind, project, agent) matches Some(n) ==> {
            &&& kind == EventKind::TurnedRed ==> n.title == "Session stuck"@ && n.body == "🔴 "@
                + project + " looks blocked — will auto-continue as configured"@
            &&& kind == EventKind::Recovered ==> n.title == "Session recovered"@ && n.body == "🟢 "@
                + project + " is running again"@
            &&& kind == EventKind::TurnEnd ==> n.title == "Turn finished"@ && n.body == "✅ "@
                + project + " finished its turn and waits for your input"@
            &&& kind == EventKind::Exited ==> n.title == "Session ended"@ && n.body == "⏹ the "@
                + agent + " process for "@ + project + " has exited"@
        },
{
}

/// What every other user reads of a session event.
pub proof fn law_chinese_notifications(
    st: SettingsModel,
    kind: EventKind,
    project: Seq<char>,
    agent: Seq<char>,
)
    requires
        st.language != "en"@,
    ensures
        event_notice(st, kind, project, agent) matches Some(n) ==> {
            &&& kind == EventKind::TurnedRed ==> n.title == "会话疑似卡死"@ && n.body == "🔴 "@
                + project + " 疑似 API 超时，将按设置自动继续"@
            &&& kind == EventKind::Recovered ==> n.title == "会话已恢复"@ && n.body == "🟢 "@
                + project + " 已恢复运行"@
            &&& kind == EventKind::TurnEnd ==> n.title == "回合结束"@ && n.body == "✅ "@ + project
                + " 本轮任务完成，等待输入"@
            &&& kind == EventKind::Exited ==> n.title == "会话已结束"@ && n.body == "⏹ "@ + project
                + " 的 "@ + agent + " 进程已退出"@
        },
{
}

/// The receipt of an automatic send goes up exactly where its switch is on. It
/// names the keys, and the project and the number of sends of the process as its
/// first row shows them; without a row it is a first attempt of no project.
pub proof fn law_send_receipts_tell_of_the_row(
    st: SettingsModel,
    rows: Seq<ViewModel>,
    pid: i32,
    project: Seq<char>,
    sends: nat,
)
    requires
        forall|i: int|
            {
                &&& 0 <= i < rows.len()
                &&& (#[trigger] rows[i]).pid == pid
                &&& forall|j: int| 0 <= j < i ==> (#[trigger] rows[j]).pid != pid
            } ==> project == rows[i].project && sends == rows[i].sends,
        (forall|i: int| 0 <= i < rows.len() ==> (#[trigger] rows[i]).pid != pid) ==> project.len()
            == 0 && sends == 1,
    ensures
        ({
            let n = continue_notice(st, rows, pid);
            let keys = st.resume_keys;
            let count = text::decimal(sends);
            &&& n is Some <==> st.notify_continue
            &&& n is Some ==> n->0.sound == st.sound_alerts
            &&& n is Some && st.language == "en"@ ==> n->0.title == "Auto-continue sent"@
                && n->0.body == "▶ Sent \""@ + keys + "\" to "@ + project + " (attempt "@ + count
                + ")"@
            &&& n is Some && st.language != "en"@ ==> n->0.title == "已自动继续"@ && n->0.body
                == "▶ 已向 "@ + project + " 发送「"@ + keys + "」（第 "@ + count + " 次）"@
        }),
{
    lemma_first_row(rows, pid);
    if engine::row_for(rows, pid) is None {
        assert(project =~= Seq::empty());
    }
}

proof fn lemma_first_row(rows: Seq<ViewModel>, pid: i32)
    ensures
        engine::row_for(rows, pid) is None ==> forall|i: int|
            0 <= i < rows.len() ==> (#[trigger] rows[i]).pid != pid,
        engine::row_for(rows, pid) is Some ==> exists|i: int|
            {
                &&& 0 <= i < rows.len()
                &&& (#[trigger] rows[i]).pid == pid
                &&& engine::row_for(rows, pid) == Some(rows[i])
                &&& forall|j: int| 0 <= j < i ==> (#[trigger] rows[j]).pid != pid
            },
    decreases rows.len(),
{
    if rows.len() > 0 {
        let front = rows.drop_last();
        lemma_first_row(front, pid);
        assert forall|j: int| 0 <= j < front.len() implies #[trigger] rows[j] == front[j] by {}
        if engine::row_for(front, pid) is Some {
            let i = choose|i: int|
                {
                    &&& 0 <= i < front.len()
                    &&& (#[trigger] front[i]).pid == pid
                    &&& engine::row_for(front, pid) == Some(front[i])
                    &&& forall|j: int| 0 <= j < i ==> (#[trigger] front[j]).pid != pid
                };
            assert(rows[i] == front[i]);
            assert forall|j: int| 0 <= j < i implies (#[trigger] rows[j]).pid != pid by {
                assert(front[j].pid != pid);
            }
        } else {
            assert forall|j: int| 0 <= j < front.len() implies (#[trigger] rows[j]).pid != pid by {
                assert(front[j].pid != pid);
            }
            let n = rows.len() - 1;
            if rows[n].pid == pid {
                assert(engine::row_for(rows, pid) == Some(rows[n]));
            }
        }
    }
}

/// What the tray says: the count of each light behind its mark, and the two
/// entries of its menu in the language of the user.
pub proof fn law_tray_texts(red: nat, yellow: nat, green: nat, lang: Seq<char>)
    ensures
        tooltip_line(red, yellow, green) == "clawmon — 🔴"@ + text::decimal(red) + " 🟡"@
            + text::decimal(yellow) + " 🟢"@ + text::decimal(green),
        lang == "en"@ ==> show_line(lang) == "Show main window"@ && quit_line(lang) == "Quit"@,
        lang != "en"@ ==> show_line(lang) == "显示主窗口"@ && quit_line(lang) == "退出"@,
{
}

} // verus!
