//! What a poll owes each session, said of what was scanned and remembered.
use vstd::prelude::*;

use crate::detector::RawModel;
use crate::engine;
use crate::engine::{
    Countdown, EngineModel, Episode, EventKind, EventModel, PollModel, Reason, SessionState,
    SessionView, ViewModel,
};
use crate::engine_laws;
use crate::order;
use crate::poll_laws;
use crate::settings::SettingsModel;
use crate::text;

verus! {

// ---- the light of a session -----------------------------------------------

/// Everything that decides a light, case by case. Recent activity is green
/// whatever else holds. Without a live transcript the light is yellow. A running
/// tool is green, but for the one that asks the user; tools that hand work to a
/// subagent say so. Then the last entry decides: an answer, or any entry that is
/// no prompt, waits for the user; a prompt is green until the timeout and red
/// past it.
pub proof fn law_light_table(s: RawModel, st: SettingsModel, idle: int)
    requires
        s.idle_sec is Some ==> idle == s.idle_sec->0,
        s.idle_sec is None ==> idle == i64::MAX,
    ensures
        ({
            let light = engine::classified(s, st);
            let quiet = idle >= st.idle_green_secs;
            let live = quiet && s.transcript is Some && s.transcript_live;
            let done = live && !s.tool_running;
            let asks = s.tool_name == "AskUserQuestion"@;
            let subagent = s.tool_name == "Task"@ || s.tool_name == "Agent"@ || s.tool_name
                == "TaskOutput"@;
            &&& !quiet <==> light == (SessionState::Green, Reason::Active)
            &&& quiet && s.transcript is None <==> light == (
                SessionState::Yellow,
                Reason::NoTranscript,
            )
            &&& quiet && s.transcript is Some && !s.transcript_live <==> light == (
                SessionState::Yellow,
                Reason::TranscriptStale,
            )
            &&& live && s.tool_running && !asks && !subagent <==> light == (
                SessionState::Green,
                Reason::ToolRunning,
            )
            &&& live && s.tool_running && subagent <==> light == (
                SessionState::Green,
                Reason::WaitingSubagent,
            )
            &&& (live && s.tool_running && asks) || (done && s.last_type != "user"@) <==> light == (
                SessionState::Yellow,
                Reason::WaitingInput,
            )
            &&& done && s.last_type == "user"@ && idle <= st.blocked_after_secs <==> light == (
                SessionState::Green,
                Reason::WaitingResponse,
            )
            &&& done && s.last_type == "user"@ && idle > st.blocked_after_secs <==> light == (
                SessionState::Red,
                Reason::ResponseTimedOut,
            )
        }),
{
    reveal_strlit("user");
    reveal_strlit("assistant");
    reveal_strlit("AskUserQuestion");
    reveal_strlit("Task");
    reveal_strlit("Agent");
    reveal_strlit("TaskOutput");
    assert("user"@.len() != "assistant"@.len());
    assert("AskUserQuestion"@.len() == 15);
    assert("Task"@.len() == 4);
    assert("Agent"@.len() == 5);
    assert("TaskOutput"@.len() == 10);
}

/// Nothing else that a scan tells of a session has a say in its light.
pub proof fn law_light_reads_nothing_else(s: RawModel, other: RawModel, st: SettingsModel)
    requires
        s.idle_sec == other.idle_sec,
        s.transcript is Some <==> other.transcript is Some,
        s.transcript_live == other.transcript_live,
        s.tool_running == other.tool_running,
        s.tool_name == other.tool_name,
        s.last_type == other.last_type,
    ensures
        engine::classified(s, st) == engine::classified(other, st),
{
}

// ---- what is remembered ---------------------------------------------------

/// What is known of a process that was never seen: nothing is booked, no episode
/// is open, no light was shown.
pub proof fn law_unknown_process_has_no_history(episodes: Map<i32, Episode>, pid: i32)
    ensures
        ({
            let t = engine::recall(episodes, pid);
            if episodes.contains_key(pid) {
                t == episodes[pid]
            } else {
                &&& t.sends == 0
                &&& t.blocked_since is None
                &&& t.last_send_at is None
                &&& t.last_state is None
                &&& !t.was_waiting_input
            }
        }),
{
}

/// A manual send is one send more of that process, at the clock of the last
/// scan where there was one. Nothing else of the process, no other process, and
/// nothing of the last scan changes.
pub proof fn law_manual_send_is_booked(e: EngineModel, pid: i32)
    requires
        engine::recall(e.episodes, pid).sends < u32::MAX,
    ensures
        ({
            let after = engine::after_claim(e, pid);
            let t = engine::recall(e.episodes, pid);
            let u = engine::recall(after.episodes, pid);
            &&& after.episodes.contains_key(pid)
            &&& u.sends == t.sends + 1
            &&& e.now > 0 ==> u.last_send_at == Some(e.now)
            &&& e.now <= 0 ==> u.last_send_at == t.last_send_at
            &&& u.blocked_since == t.blocked_since
            &&& u.last_state == t.last_state
            &&& u.was_waiting_input == t.was_waiting_input
            &&& forall|other: i32|
                other != pid ==> (#[trigger] after.episodes.contains_key(other)
                    <==> e.episodes.contains_key(other))
            &&& forall|other: i32|
                other != pid ==> #[trigger] engine::recall(after.episodes, other) == engine::recall(
                    e.episodes,
                    other,
                )
            &&& after.sessions == e.sessions
            &&& after.rows == e.rows
            &&& after.now == e.now
        }),
{
}

/// Seconds are counted as a signed machine integer holds them: a number that
/// fits is itself, and a larger one is short of itself by one full turn.
pub proof fn law_seconds_are_held_signed(n: int)
    requires
        0 <= n <= u64::MAX,
    ensures
        i64::MIN <= engine::signed_secs(n) <= i64::MAX,
        n <= i64::MAX ==> engine::signed_secs(n) == n,
        n > i64::MAX ==> engine::signed_secs(n) == n - u64::MAX - 1,
{
}

// ---- when keys are due ----------------------------------------------------

/// Whether keys go out now, said of a session and of what was booked for its
/// process.
pub open spec fn ready(t: Episode, s: RawModel, st: SettingsModel, now: i64) -> bool {
    let idle = if s.idle_sec is Some {
        s.idle_sec->0
    } else {
        i64::MAX
    };
    let since = if t.blocked_since is Some {
        t.blocked_since->0
    } else {
        now
    };
    let sent = if t.last_send_at is Some {
        t.last_send_at->0
    } else {
        now
    };
    &&& s.transcript is Some
    &&& s.transcript_live
    &&& !s.tool_running
    &&& s.last_type == "user"@
    &&& idle >= st.idle_green_secs
    &&& idle > st.blocked_after_secs
    &&& s.tmux is Some
    &&& st.auto_continue
    &&& t.sends < st.max_sends
    &&& t.sends == 0 ==> now - since >= st.wait_secs
    &&& t.sends > 0 ==> now - sent >= st.retry_interval_secs
}

/// Keys are due exactly for the sessions that are ready: stuck on a prompt, in
/// tmux, to be continued, with a send left, and past the wait since the episode
/// began or the retry interval since the last send.
pub proof fn law_due_exactly_when_ready(
    e: EngineModel,
    sessions: Seq<RawModel>,
    st: SettingsModel,
    now: i64,
    k: int,
)
    requires
        engine::distinct(sessions),
        0 <= k < sessions.len(),
        0 <= st.wait_secs <= i64::MAX,
        0 <= st.retry_interval_secs <= i64::MAX,
    ensures
        engine::polled(e, sessions, st, now).due.contains(sessions[k].pid) <==> ready(
            engine::recall(e.episodes, sessions[k].pid),
            sessions[k],
            st,
            now,
        ),
{
    let start = engine::poll_start(e, sessions);
    let pid = sessions[k].pid;
    let t = engine::recall(e.episodes, pid);
    assert(engine::lists(sessions, pid));
    engine_laws::lemma_surviving_recall(e.episodes, sessions, pid);
    lemma_ready(t, sessions[k], st, now);
    if engine::polled(e, sessions, st, now).due.contains(pid) {
        engine_laws::lemma_due_of_distinct(start, sessions, st, now, pid);
        let m = choose|m: int|
            {
                &&& 0 <= m < sessions.len()
                &&& (#[trigger] sessions[m]).pid == pid
                &&& engine_laws::sends_now(
                    engine::recall(start.episodes, pid),
                    sessions[m],
                    st,
                    now,
                )
            };
        assert(m == k);
    }
    if ready(t, sessions[k], st, now) {
        poll_laws::lemma_firing_is_due(start, sessions, st, now, k);
    }
}

proof fn lemma_ready(t: Episode, s: RawModel, st: SettingsModel, now: i64)
    requires
        0 <= st.wait_secs <= i64::MAX,
        0 <= st.retry_interval_secs <= i64::MAX,
    ensures
        engine_laws::sends_now(t, s, st, now) <==> ready(t, s, st, now),
{
    engine_laws::law_red_is_an_unanswered_prompt(s, st);
}

/// One session more in a scan, whatever came before it: its process is due where
/// it is ready, its row tells of it, and what is remembered of it, and of no
/// other process, moves on.
pub proof fn law_one_session_more(p: PollModel, s: RawModel, st: SettingsModel, now: i64)
    requires
        0 <= st.wait_secs <= i64::MAX,
        0 <= st.retry_interval_secs <= i64::MAX,
        st.max_sends <= u32::MAX,
    ensures
        ({
            let t = engine::recall(p.episodes, s.pid);
            let q = engine::with_session(p, s, st, now);
            let u = engine::recall(q.episodes, s.pid);
            let v = q.rows.last();
            let red = v.state == SessionState::Red;
            &&& ready(t, s, st, now) ==> q.due == p.due.push(s.pid)
            &&& !ready(t, s, st, now) ==> q.due == p.due
            &&& q.rows.len() == p.rows.len() + 1
            &&& q.rows.drop_last() == p.rows
            &&& tells_of(v, s, st)
            &&& counts_down(v, st, now)
            &&& v.blocked_since == u.blocked_since
            &&& v.sends == u.sends
            &&& v.last_send_at == u.last_send_at
            &&& u.last_state == Some(v.state)
            &&& u.was_waiting_input == (v.reason == Reason::WaitingInput)
            &&& red && t.blocked_since is Some ==> u.blocked_since == t.blocked_since
            &&& red && t.blocked_since is None ==> u.blocked_since == Some(now)
            &&& !red ==> u.blocked_since is None
            &&& ready(t, s, st, now) ==> u.sends == t.sends + 1 && u.last_send_at == Some(now)
            &&& !ready(t, s, st, now) && !red && t.blocked_since is Some ==> u.sends == 0
                && u.last_send_at is None
            &&& !ready(t, s, st, now) && (red || t.blocked_since is None) ==> u.sends == t.sends
                && u.last_send_at == t.last_send_at
            &&& forall|other: i32|
                other != s.pid ==> #[trigger] engine::recall(q.episodes, other) == engine::recall(
                    p.episodes,
                    other,
                )
        }),
{
    lemma_ready(t_of(p, s), s, st, now);
    lemma_row_tells(t_of(p, s), s, st, now);
    let q = engine::with_session(p, s, st, now);
    assert(q.rows.drop_last() =~= p.rows);
}

spec fn t_of(p: PollModel, s: RawModel) -> Episode {
    engine::recall(p.episodes, s.pid)
}

// ---- rows -----------------------------------------------------------------

/// A row carries what the scan says of its session: its own process, directory,
/// terminal, conversation and usage, under the name of the directory, with the
/// light of the session and the pane that keys go to.
pub open spec fn tells_of(v: ViewModel, s: RawModel, st: SettingsModel) -> bool {
    &&& v.pid == s.pid
    &&& v.cwd == s.cwd
    &&& v.project == text::base_name(s.cwd)
    &&& v.tty == s.tty
    &&& v.session_id == s.session_id
    &&& v.idle_sec == s.idle_sec
    &&& v.preview == s.preview
    &&& v.usage == s.usage
    &&& (v.state, v.reason) == engine::classified(s, st)
    &&& v.controllable <==> s.tmux is Some
    &&& s.tmux is Some ==> {
        &&& v.pane == Some(s.tmux->0.pane)
        &&& v.tmux_label == Some(s.tmux->0.session + ":"@ + s.tmux->0.window)
    }
    &&& s.tmux is None ==> v.pane is None && v.tmux_label is None
}

/// What the countdown of a row shows, said of the row itself. It is there
/// exactly while the row is red; it says why nothing is sent, that the sends are
/// used up exactly where they are, or else how long it takes to the next one.
pub open spec fn counts_down(v: ViewModel, st: SettingsModel, now: i64) -> bool {
    let since = if v.blocked_since is Some {
        v.blocked_since->0
    } else {
        now
    };
    let sent = if v.last_send_at is Some {
        v.last_send_at->0
    } else {
        now
    };
    let next = if v.sends == 0 {
        since + st.wait_secs
    } else {
        sent + st.retry_interval_secs
    };
    let sends_on = v.state == SessionState::Red && v.controllable && st.auto_continue;
    &&& v.countdown is None <==> v.state != SessionState::Red
    &&& v.countdown == Some(Countdown::NoTmux) <==> v.state == SessionState::Red
        && !v.controllable
    &&& v.countdown == Some(Countdown::Off) <==> v.state == SessionState::Red && v.controllable
        && !st.auto_continue
    &&& v.countdown == Some(Countdown::Capped { sends: v.sends }) <==> sends_on && v.sends
        >= st.max_sends
    &&& v.countdown matches Some(Countdown::Capped { sends }) ==> sends == v.sends
    &&& v.countdown matches Some(Countdown::Waiting { remaining_sec }) ==> {
        &&& sends_on
        &&& v.sends < st.max_sends
        &&& next - now <= i64::MAX ==> remaining_sec == next - now
    }
}

proof fn lemma_row_tells(t: Episode, s: RawModel, st: SettingsModel, now: i64)
    requires
        0 <= st.wait_secs <= i64::MAX,
        0 <= st.retry_interval_secs <= i64::MAX,
        st.max_sends <= u32::MAX,
    ensures
        tells_of(poll_laws::row_after(t, s, st, now), s, st),
        counts_down(poll_laws::row_after(t, s, st, now), st, now),
{
}

/// Every row of a poll tells of its session and counts down by its own numbers,
/// in the order of the scan; the list holds the same rows.
pub proof fn law_rows_tell_of_their_sessions(
    e: EngineModel,
    sessions: Seq<RawModel>,
    st: SettingsModel,
    now: i64,
)
    requires
        0 <= st.wait_secs <= i64::MAX,
        0 <= st.retry_interval_secs <= i64::MAX,
        st.max_sends <= u32::MAX,
    ensures
        ({
            let rows = engine::polled(e, sessions, st, now).rows;
            let after = engine::engine_after(e, sessions, st, now);
            &&& rows.len() == sessions.len()
            &&& forall|i: int|
                0 <= i < rows.len() ==> tells_of(#[trigger] rows[i], sessions[i], st)
                    && counts_down(rows[i], st, now)
            &&& after.rows.to_multiset() == rows.to_multiset()
            &&& after.sessions == sessions
            &&& after.now == now
        }),
{
    lemma_rows_tell(engine::poll_start(e, sessions), sessions, st, now);
    order::law_arranged::<SessionView>(engine::polled(e, sessions, st, now).rows);
}

proof fn lemma_rows_tell(start: PollModel, sessions: Seq<RawModel>, st: SettingsModel, now: i64)
    requires
        start.rows.len() == 0,
        0 <= st.wait_secs <= i64::MAX,
        0 <= st.retry_interval_secs <= i64::MAX,
        st.max_sends <= u32::MAX,
    ensures
        ({
            let rows = engine::folded(start, sessions, st, now).rows;
            &&& rows.len() == sessions.len()
            &&& forall|i: int|
                0 <= i < rows.len() ==> tells_of(#[trigger] rows[i], sessions[i], st)
                    && counts_down(rows[i], st, now)
        }),
    decreases sessions.len(),
{
    if sessions.len() > 0 {
        let front = sessions.drop_last();
        lemma_rows_tell(start, front, st, now);
        let p = engine::folded(start, front, st, now);
        law_one_session_more(p, sessions.last(), st, now);
        let rows = engine::folded(start, sessions, st, now).rows;
        assert forall|i: int| 0 <= i < rows.len() implies tells_of(
            #[trigger] rows[i],
            sessions[i],
            st,
        ) && counts_down(rows[i], st, now) by {
            if i < p.rows.len() {
                assert(rows[i] == rows.drop_last()[i]);
                assert(rows[i] == p.rows[i]);
            }
        }
    }
}

/// The list shows red rows before all others and green rows behind all others;
/// rows of one light stand by process id, and rows of one process and light as
/// the scan has them.
pub proof fn law_list_is_sorted_by_urgency(
    e: EngineModel,
    sessions: Seq<RawModel>,
    st: SettingsModel,
    now: i64,
    state: SessionState,
    pid: i32,
)
    ensures
        ({
            let rows = engine::engine_after(e, sessions, st, now).rows;
            let scanned = engine::polled(e, sessions, st, now).rows;
            let here = |v: ViewModel| v.state == state && v.pid == pid;
            &&& forall|i: int, j: int|
                0 <= i < j < rows.len() ==> {
                    let a = #[trigger] rows[i];
                    let b = #[trigger] rows[j];
                    &&& b.state == SessionState::Red ==> a.state == SessionState::Red
                    &&& a.state == SessionState::Green ==> b.state == SessionState::Green
                    &&& a.state == b.state ==> a.pid <= b.pid
                }
            &&& rows.filter(here) == scanned.filter(here)
        }),
{
    let rows = engine::engine_after(e, sessions, st, now).rows;
    let scanned = engine::polled(e, sessions, st, now).rows;
    let here = |v: ViewModel| v.state == state && v.pid == pid;
    order::law_arranged::<SessionView>(scanned);
    assert forall|i: int, j: int| 0 <= i < j < rows.len() implies ({
        let a = #[trigger] rows[i];
        let b = #[trigger] rows[j];
        &&& b.state == SessionState::Red ==> a.state == SessionState::Red
        &&& a.state == SessionState::Green ==> b.state == SessionState::Green
        &&& a.state == b.state ==> a.pid <= b.pid
    }) by {
        assert(order::key_le(
            <SessionView as order::Ranked>::key(rows[i]),
            <SessionView as order::Ranked>::key(rows[j]),
        ));
    }
    order::law_arranging_is_stable::<SessionView>(
        scanned,
        here,
        (engine::light_rank(state), pid as int, 0),
    );
}

/// A count of lights is the number of rows that show it.
pub proof fn law_counts_are_those_of_the_rows(rows: Seq<ViewModel>, state: SessionState)
    ensures
        engine::lit(rows, state) == rows.filter(|v: ViewModel| v.state == state).len(),
    decreases rows.len(),
{
    reveal(Seq::filter);
    if rows.len() > 0 {
        law_counts_are_those_of_the_rows(rows.drop_last(), state);
    }
}

// ---- finding a session ----------------------------------------------------

/// A process id names the first session with it, and the first row.
pub proof fn law_process_names_its_first_session(sessions: Seq<RawModel>, pid: i32, i: int)
    requires
        0 <= i < sessions.len(),
        sessions[i].pid == pid,
        forall|j: int| 0 <= j < i ==> (#[trigger] sessions[j]).pid != pid,
    ensures
        engine::found(sessions, pid) == Some(sessions[i]),
        sessions[i].tmux is Some ==> engine::pane_report(sessions, pid) == Ok::<
            Seq<char>,
            Seq<char>,
        >(sessions[i].tmux->0.pane),
        sessions[i].tmux is None ==> engine::pane_report(sessions, pid) == Err::<
            Seq<char>,
            Seq<char>,
        >("会话 "@ + text::signed_decimal(pid as int) + " 不在 tmux 中，无法控制"@),
    decreases sessions.len(),
{
    let front = sessions.drop_last();
    if i < front.len() {
        assert forall|j: int| 0 <= j < i implies (#[trigger] front[j]).pid != pid by {
            assert(sessions[j].pid != pid);
        }
        law_process_names_its_first_session(front, pid, i);
    } else {
        assert forall|j: int| 0 <= j < front.len() implies (#[trigger] front[j]).pid != pid by {
            assert(sessions[j].pid != pid);
        }
        poll_laws::lemma_not_found(front, pid);
    }
}

/// A process without a session has nothing to control.
pub proof fn law_unlisted_process_is_not_found(sessions: Seq<RawModel>, pid: i32)
    requires
        forall|j: int| 0 <= j < sessions.len() ==> (#[trigger] sessions[j]).pid != pid,
    ensures
        engine::found(sessions, pid) is None,
        engine::pane_report(sessions, pid) == Err::<Seq<char>, Seq<char>>(
            "会话 "@ + text::signed_decimal(pid as int) + " 不在 tmux 中，无法控制"@,
        ),
{
    poll_laws::lemma_not_found(sessions, pid);
}

/// A process id names its first row.
pub proof fn law_process_names_its_first_row(rows: Seq<ViewModel>, pid: i32, i: int)
    requires
        0 <= i < rows.len(),
        rows[i].pid == pid,
        forall|j: int| 0 <= j < i ==> (#[trigger] rows[j]).pid != pid,
    ensures
        engine::row_for(rows, pid) == Some(rows[i]),
    decreases rows.len(),
{
    let front = rows.drop_last();
    if i < front.len() {
        assert forall|j: int| 0 <= j < i implies (#[trigger] front[j]).pid != pid by {
            assert(rows[j].pid != pid);
        }
        law_process_names_its_first_row(front, pid, i);
    } else {
        poll_laws::lemma_row_for(front, pid);
        if engine::row_for(front, pid) is Some {
            let r = engine::row_for(front, pid)->0;
            let k = choose|k: int| 0 <= k < front.len() && front[k] == r;
            assert(rows[k].pid != pid);
        }
    }
}

// ---- the order of events --------------------------------------------------

/// What is reported of a poll starts with the processes that are gone.
pub proof fn law_exits_are_reported_first(
    e: EngineModel,
    sessions: Seq<RawModel>,
    st: SettingsModel,
    now: i64,
    i: int,
    j: int,
)
    requires
        0 <= i < j < engine::polled(e, sessions, st, now).events.len(),
        engine::polled(e, sessions, st, now).events[j].kind == EventKind::Exited,
    ensures
        engine::polled(e, sessions, st, now).events[i].kind == EventKind::Exited,
{
    let start = engine::poll_start(e, sessions);
    lemma_exits_only(e.sessions, e.episodes, sessions);
    lemma_fold_appends(start, sessions, st, now);
}

proof fn lemma_exits_only(
    prev: Seq<RawModel>,
    episodes: Map<i32, Episode>,
    sessions: Seq<RawModel>,
)
    ensures
        forall|i: int|
            0 <= i < engine::exits(prev, episodes, sessions).len() ==> (#[trigger] engine::exits(
                prev,
                episodes,
                sessions,
            )[i]).kind == EventKind::Exited,
    decreases prev.len(),
{
    if prev.len() > 0 {
        lemma_exits_only(prev.drop_last(), episodes, sessions);
    }
}

proof fn lemma_fold_appends(start: PollModel, sessions: Seq<RawModel>, st: SettingsModel, now: i64)
    ensures
        ({
            let events = engine::folded(start, sessions, st, now).events;
            &&& events.len() >= start.events.len()
            &&& forall|i: int|
                0 <= i < start.events.len() ==> (#[trigger] events[i]) == start.events[i]
            &&& forall|i: int|
                start.events.len() <= i < events.len() ==> (#[trigger] events[i]).kind
                    != EventKind::Exited
        }),
    decreases sessions.len(),
{
    if sessions.len() > 0 {
        let front = sessions.drop_last();
        lemma_fold_appends(start, front, st, now);
        let p = engine::folded(start, front, st, now);
        let events = engine::folded(start, sessions, st, now).events;
        assert forall|i: int| 0 <= i < start.events.len() implies (#[trigger] events[i])
            == start.events[i] by {
            assert(events[i] == p.events[i]);
        }
        assert forall|i: int| start.events.len() <= i < events.len() implies (
        #[trigger] events[i]).kind != EventKind::Exited by {
            if i < p.events.len() {
                assert(events[i] == p.events[i]);
            }
        }
    }
}

/// Exits are reported in the order of the previous scan, each with the name of
/// the directory that the process worked in: one process more at the end of the
/// previous scan is one report more at the end where it is gone, and none where
/// it is still there or was never remembered.
pub proof fn law_exits_follow_the_previous_scan(
    prev: Seq<RawModel>,
    s: RawModel,
    episodes: Map<i32, Episode>,
    sessions: Seq<RawModel>,
)
    ensures
        ({
            let before = engine::exits(prev, episodes, sessions);
            let all = engine::exits(prev.push(s), episodes, sessions);
            let there = exists|i: int|
                0 <= i < sessions.len() && (#[trigger] sessions[i]).pid == s.pid;
            &&& there || !episodes.contains_key(s.pid) ==> all == before
            &&& !there && episodes.contains_key(s.pid) ==> all == before.push(
                (EventModel {
                    pid: s.pid,
                    kind: EventKind::Exited,
                    project: text::base_name(s.cwd),
                }),
            )
        }),
{
    assert(prev.push(s).drop_last() =~= prev);
}

/// Where no process is listed twice, keys are due in the order of the scan, and
/// what sessions report follows that order too.
pub proof fn law_polls_follow_the_scan(
    e: EngineModel,
    sessions: Seq<RawModel>,
    st: SettingsModel,
    now: i64,
    k: int,
    m: int,
)
    requires
        engine::distinct(sessions),
        0 <= k < m < sessions.len(),
    ensures
        ({
            let q = engine::polled(e, sessions, st, now);
            &&& forall|a: int, b: int|
                0 <= a < q.due.len() && 0 <= b < q.due.len() && #[trigger] q.due[a]
                    == sessions[k].pid && #[trigger] q.due[b] == sessions[m].pid ==> a < b
            &&& forall|a: int, b: int|
                {
                    &&& 0 <= a < q.events.len()
                    &&& 0 <= b < q.events.len()
                    &&& (#[trigger] q.events[a]).pid == sessions[k].pid
                    &&& (#[trigger] q.events[b]).pid == sessions[m].pid
                } ==> a < b
        }),
{
    let start = engine::poll_start(e, sessions);
    lemma_exits_are_unlisted(e.sessions, e.episodes, sessions);
    assert(sessions =~= sessions.take(sessions.len() as int));
    lemma_fold_in_order(start, sessions, sessions, st, now, k, m);
}

proof fn lemma_exits_are_unlisted(
    prev: Seq<RawModel>,
    episodes: Map<i32, Episode>,
    sessions: Seq<RawModel>,
)
    ensures
        forall|i: int|
            0 <= i < engine::exits(prev, episodes, sessions).len() ==> !engine::lists(
                sessions,
                (#[trigger] engine::exits(prev, episodes, sessions)[i]).pid,
            ),
    decreases prev.len(),
{
    if prev.len() > 0 {
        lemma_exits_are_unlisted(prev.drop_last(), episodes, sessions);
    }
}

proof fn lemma_fold_in_order(
    start: PollModel,
    sessions: Seq<RawModel>,
    all: Seq<RawModel>,
    st: SettingsModel,
    now: i64,
    k: int,
    m: int,
)
    requires
        engine::distinct(all),
        sessions.len() <= all.len(),
        sessions == all.take(sessions.len() as int),
        0 <= k < m < all.len(),
        start.due.len() == 0,
        forall|i: int|
            0 <= i < start.events.len() ==> !engine::lists(all, (#[trigger] start.events[i]).pid),
    ensures
        ({
            let q = engine::folded(start, sessions, st, now);
            &&& forall|a: int|
                0 <= a < q.due.len() && m >= sessions.len() ==> #[trigger] q.due[a] != all[m].pid
            &&& forall|a: int|
                0 <= a < q.events.len() && m >= sessions.len() ==> (#[trigger] q.events[a]).pid
                    != all[m].pid
            &&& forall|a: int, b: int|
                0 <= a < q.due.len() && 0 <= b < q.due.len() && #[trigger] q.due[a] == all[k].pid
                    && #[trigger] q.due[b] == all[m].pid ==> a < b
            &&& forall|a: int, b: int|
                {
                    &&& 0 <= a < q.events.len()
                    &&& 0 <= b < q.events.len()
                    &&& (#[trigger] q.events[a]).pid == all[k].pid
                    &&& (#[trigger] q.events[b]).pid == all[m].pid
                } ==> a < b
        }),
    decreases sessions.len(),
{
    let q = engine::folded(start, sessions, st, now);
    if sessions.len() == 0 {
        assert(engine::lists(all, all[m].pid));
        assert forall|a: int| 0 <= a < q.events.len() implies (#[trigger] q.events[a]).pid
            != all[m].pid by {
            assert(!engine::lists(all, start.events[a].pid));
        }
    } else {
        let front = sessions.drop_last();
        let n = front.len() as int;
        assert(front =~= all.take(n));
        lemma_fold_in_order(start, front, all, st, now, k, m);
        let p = engine::folded(start, front, st, now);
        let s = sessions.last();
        assert(s == all[n]);
        assert(n != m ==> all[n].pid != all[m].pid);
        assert(n != k ==> all[n].pid != all[k].pid);
        assert forall|a: int| 0 <= a < q.due.len() implies #[trigger] q.due[a] == (if a
            < p.due.len() {
            p.due[a]
        } else {
            s.pid
        }) by {}
        assert forall|a: int| 0 <= a < q.events.len() implies ({
            let ev = #[trigger] q.events[a];
            if a < p.events.len() {
                ev == p.events[a]
            } else {
                ev.pid == s.pid
            }
        }) by {
            if a < p.events.len() {
                assert(q.events[a] == p.events[a]);
            }
        }
    }
}

/// A manual send is booked exactly where the first session of the process sits in
/// tmux; else nothing changes.
pub proof fn law_manual_send_needs_a_pane(e: EngineModel, pid: i32)
    requires
        engine::recall(e.episodes, pid).sends < u32::MAX,
    ensures
        ({
            let after = engine::after_manual(e, pid);
            &&& forall|i: int|
                {
                    &&& 0 <= i < e.sessions.len()
                    &&& (#[trigger] e.sessions[i]).pid == pid
                    &&& e.sessions[i].tmux is Some
                    &&& forall|j: int| 0 <= j < i ==> (#[trigger] e.sessions[j]).pid != pid
                } ==> engine::recall(after.episodes, pid).sends == engine::recall(
                    e.episodes,
                    pid,
                ).sends + 1 && after == engine::after_claim(e, pid)
            &&& forall|i: int|
                {
                    &&& 0 <= i < e.sessions.len()
                    &&& (#[trigger] e.sessions[i]).pid == pid
                    &&& e.sessions[i].tmux is None
                    &&& forall|j: int| 0 <= j < i ==> (#[trigger] e.sessions[j]).pid != pid
                } ==> after == e
            &&& (forall|i: int| 0 <= i < e.sessions.len() ==> (#[trigger] e.sessions[i]).pid != pid)
                ==> after == e
        }),
{
    let after = engine::after_manual(e, pid);
    law_manual_send_is_booked(e, pid);
    assert forall|i: int|
        {
            &&& 0 <= i < e.sessions.len()
            &&& (#[trigger] e.sessions[i]).pid == pid
            &&& forall|j: int| 0 <= j < i ==> (#[trigger] e.sessions[j]).pid != pid
        } implies engine::pane_report(e.sessions, pid) is Ok <==> e.sessions[i].tmux is Some by {
        law_process_names_its_first_session(e.sessions, pid, i);
    }
    if forall|i: int| 0 <= i < e.sessions.len() ==> (#[trigger] e.sessions[i]).pid != pid {
        law_unlisted_process_is_not_found(e.sessions, pid);
    }
}

} // verus!
