//! What holds of the monitoring state machine as a whole.
use vstd::prelude::*;

use crate::detector::{RawModel, RawUsage};
use crate::engine;
use crate::engine::{
    Countdown, EngineModel, Episode, EventKind, EventModel, PollModel, Reason, SessionState, SessionView,
    ViewModel,
};
use crate::order;
use crate::settings;
use crate::settings::SettingsModel;

verus! {

// ---- the light of a session -----------------------------------------------

/// Red is exactly this: a user prompt, in a transcript that is known to belong
/// to the process, with no tool running, unanswered past the timeout.
pub proof fn law_red_is_an_unanswered_prompt(s: RawModel, st: SettingsModel)
    ensures
        engine::classified(s, st).0 == SessionState::Red <==> {
            &&& s.transcript is Some
            &&& s.transcript_live
            &&& !s.tool_running
            &&& s.last_type == "user"@
            &&& engine::idle_of(s) >= st.idle_green_secs
            &&& engine::idle_of(s) > st.blocked_after_secs
        },
        engine::classified(s, st).0 == SessionState::Red <==> engine::classified(s, st).1
            == Reason::ResponseTimedOut,
{
    reveal_strlit("user");
    reveal_strlit("assistant");
    assert("user"@.len() != "assistant"@.len());
}

/// Token usage is display data: it never changes a light.
pub proof fn law_usage_never_changes_the_light(
    s: RawModel,
    usage: Option<RawUsage>,
    st: SettingsModel,
)
    ensures
        engine::classified((RawModel { usage, ..s }), st) == engine::classified(s, st),
{
}

/// A running tool is never red, however long it takes.
pub proof fn law_running_tool_is_never_red(s: RawModel, st: SettingsModel)
    requires
        s.tool_running,
    ensures
        engine::classified(s, st).0 != SessionState::Red,
{
    law_red_is_an_unanswered_prompt(s, st);
}

// ---- one session over time ------------------------------------------------

/// What is remembered of a session after one poll.
pub open spec fn stepped(t: Episode, s: RawModel, st: SettingsModel, now: i64) -> Episode {
    let light = engine::classified(s, st);
    engine::booked(engine::observed(t, light, now), light.0, s.tmux is Some, st, now)
}

/// Whether a send of a session fires in a poll.
pub open spec fn sends_now(t: Episode, s: RawModel, st: SettingsModel, now: i64) -> bool {
    let light = engine::classified(s, st);
    engine::fires(engine::observed(t, light, now), light.0, s.tmux is Some, st, now)
}

/// Whether some events hold one of a kind.
pub open spec fn holds_kind(events: Seq<EventModel>, kind: EventKind) -> bool {
    exists|i: int| 0 <= i < events.len() && (#[trigger] events[i]).kind == kind
}

/// The first send of an episode goes out once the wait since its beginning is
/// over, the next ones once the retry interval since the last send is over.
pub proof fn law_sends_follow_the_schedule(
    t: Episode,
    state: SessionState,
    controllable: bool,
    st: SettingsModel,
    now: i64,
)
    requires
        engine::may_send(t, state, controllable, st),
        0 <= st.wait_secs <= i64::MAX,
        0 <= st.retry_interval_secs <= i64::MAX,
    ensures
        t.sends == 0 && t.blocked_since is Some ==> (engine::fires(t, state, controllable, st, now)
            <==> now - t.blocked_since->0 >= st.wait_secs),
        t.sends > 0 && t.last_send_at is Some ==> (engine::fires(t, state, controllable, st, now)
            <==> now - t.last_send_at->0 >= st.retry_interval_secs),
{
}

/// A countdown only promises what can come about: it runs for no session that
/// is not red, sits outside tmux, has used up its sends, or is not to be
/// continued automatically.
pub proof fn law_countdown_promises_real_sends(
    t: Episode,
    state: SessionState,
    controllable: bool,
    st: SettingsModel,
    now: i64,
)
    ensures
        engine::countdown_of(t, state, controllable, st, now) matches Some(Countdown::Waiting { .. })
            ==> engine::may_send(t, state, controllable, st),
        state == SessionState::Red && !controllable ==> engine::countdown_of(
            t,
            state,
            controllable,
            st,
            now,
        ) == Some(Countdown::NoTmux),
{
}

/// A countdown is kept: where it shows a number of seconds and nothing has been
/// sent yet, the send goes out exactly that much later.
pub proof fn law_countdown_is_kept(
    t: Episode,
    state: SessionState,
    controllable: bool,
    st: SettingsModel,
    now: i64,
    later: i64,
)
    requires
        engine::may_send(t, state, controllable, st),
        engine::clock_fits(t, state, controllable, st, now),
        !engine::fires(t, state, controllable, st, now),
        t.sends == 0 ==> t.blocked_since is Some,
        t.sends > 0 ==> t.last_send_at is Some,
    ensures
        engine::countdown_of(t, state, controllable, st, now) matches Some(
            Countdown::Waiting { remaining_sec },
        ) && remaining_sec > 0 && (engine::fires(t, state, controllable, st, later) <==> later
            >= now + remaining_sec),
{
}

/// Leaving red ends the episode: nothing stays booked.
pub proof fn law_recovery_resets_the_episode(t: Episode, s: RawModel, st: SettingsModel, now: i64)
    requires
        t.blocked_since is Some,
        engine::classified(s, st).0 != SessionState::Red,
    ensures
        stepped(t, s, st, now).blocked_since is None,
        stepped(t, s, st, now).sends == 0,
        stepped(t, s, st, now).last_send_at is None,
{
}

/// A session seen for the first time reports neither a finished turn nor a
/// recovery.
pub proof fn law_first_sight_ends_no_turn(s: RawModel, light: (SessionState, Reason))
    ensures
        !holds_kind(engine::events_of(engine::fresh(), s, light), EventKind::TurnEnd),
        !holds_kind(engine::events_of(engine::fresh(), s, light), EventKind::Recovered),
{
}

/// The end of a turn is reported once per wait: a poll that finds the session
/// waiting, as the poll before it did, reports none.
pub proof fn law_turn_end_is_reported_once(
    t: Episode,
    first: RawModel,
    second: RawModel,
    st: SettingsModel,
    now: i64,
)
    requires
        engine::waits_for_human(engine::classified(first, st)),
    ensures
        !holds_kind(
            engine::events_of(
                stepped(t, first, st, now),
                second,
                engine::classified(second, st),
            ),
            EventKind::TurnEnd,
        ),
{
}

/// A red episode is reported once, when it begins: a poll that finds the
/// session still red reports neither a beginning nor a recovery.
pub proof fn law_red_is_reported_once(
    t: Episode,
    first: RawModel,
    second: RawModel,
    st: SettingsModel,
    now: i64,
)
    requires
        engine::classified(first, st).0 == SessionState::Red,
    ensures
        ({
            let after = stepped(t, first, st, now);
            let light = engine::classified(second, st);
            let events = engine::events_of(after, second, light);
            &&& !holds_kind(events, EventKind::TurnedRed)
            &&& light.0 == SessionState::Red ==> events.len() == 0
            &&& light.0 != SessionState::Red ==> holds_kind(events, EventKind::Recovered)
        }),
{
    let after = stepped(t, first, st, now);
    let light = engine::classified(second, st);
    let events = engine::events_of(after, second, light);
    if light.0 != SessionState::Red {
        assert(events[0].kind == EventKind::Recovered);
    }
}

// ---- one poll -------------------------------------------------------------

pub proof fn lemma_distinct_front(sessions: Seq<RawModel>)
    requires
        engine::distinct(sessions),
        sessions.len() > 0,
    ensures
        engine::distinct(sessions.drop_last()),
        !engine::lists(sessions.drop_last(), sessions.last().pid),
{
    let front = sessions.drop_last();
    assert forall|i: int, j: int| 0 <= i < j < front.len() implies (#[trigger] front[i]).pid != (
    #[trigger] front[j]).pid by {
        assert(sessions[i].pid != sessions[j].pid);
    }
    if engine::lists(front, sessions.last().pid) {
        let k = choose|k: int|
            0 <= k < front.len() && (#[trigger] front[k]).pid == sessions.last().pid;
        assert(sessions[k].pid != sessions[sessions.len() - 1].pid);
    }
}

/// Where no process is listed twice, each session steps from what was
/// remembered before the poll, and processes not listed keep theirs.
pub proof fn lemma_fold_of_distinct(
    start: PollModel,
    sessions: Seq<RawModel>,
    st: SettingsModel,
    now: i64,
)
    requires
        engine::distinct(sessions),
    ensures
        forall|i: int|
            0 <= i < sessions.len() ==> engine::recall(
                engine::folded(start, sessions, st, now).episodes,
                (#[trigger] sessions[i]).pid,
            ) == stepped(
                engine::recall(start.episodes, sessions[i].pid),
                sessions[i],
                st,
                now,
            ),
        forall|pid: i32|
            !engine::lists(sessions, pid) ==> #[trigger] engine::recall(
                engine::folded(start, sessions, st, now).episodes,
                pid,
            ) == engine::recall(start.episodes, pid),
    decreases sessions.len(),
{
    if sessions.len() > 0 {
        let front = sessions.drop_last();
        let s = sessions.last();
        lemma_distinct_front(sessions);
        lemma_fold_of_distinct(start, front, st, now);
        let p = engine::folded(start, front, st, now);
        let q = engine::folded(start, sessions, st, now);
        assert forall|i: int| 0 <= i < sessions.len() implies engine::recall(
            q.episodes,
            (#[trigger] sessions[i]).pid,
        ) == stepped(engine::recall(start.episodes, sessions[i].pid), sessions[i], st, now) by {
            if i < front.len() {
                assert(front[i] == sessions[i]);
                assert(sessions[i].pid != sessions[sessions.len() - 1].pid);
                assert(engine::recall(q.episodes, front[i].pid) == engine::recall(
                    p.episodes,
                    front[i].pid,
                ));
            } else {
                assert(engine::recall(p.episodes, s.pid) == engine::recall(start.episodes, s.pid));
            }
        }
    }
    assert forall|pid: i32| !engine::lists(sessions, pid) implies #[trigger] engine::recall(
        engine::folded(start, sessions, st, now).episodes,
        pid,
    ) == engine::recall(start.episodes, pid) by {
        lemma_unlisted_stays(start, sessions, st, now, pid);
    }
}

/// Where no process is listed twice, the due processes are those of the
/// sessions whose send fires.
pub proof fn lemma_due_of_distinct(
    start: PollModel,
    sessions: Seq<RawModel>,
    st: SettingsModel,
    now: i64,
    pid: i32,
)
    requires
        engine::distinct(sessions),
        start.due.len() == 0,
        engine::folded(start, sessions, st, now).due.contains(pid),
    ensures
        exists|i: int|
            {
                &&& 0 <= i < sessions.len()
                &&& (#[trigger] sessions[i]).pid == pid
                &&& sends_now(engine::recall(start.episodes, pid), sessions[i], st, now)
            },
    decreases sessions.len(),
{
    if sessions.len() > 0 {
        let front = sessions.drop_last();
        let s = sessions.last();
        lemma_distinct_front(sessions);
        let p = engine::folded(start, front, st, now);
        let q = engine::folded(start, sessions, st, now);
        if p.due.contains(pid) {
            lemma_due_of_distinct(start, front, st, now, pid);
            let i = choose|i: int|
                {
                    &&& 0 <= i < front.len()
                    &&& (#[trigger] front[i]).pid == pid
                    &&& sends_now(engine::recall(start.episodes, pid), front[i], st, now)
                };
            assert(sessions[i] == front[i]);
        } else {
            let k = choose|k: int| 0 <= k < q.due.len() && q.due[k] == pid;
            if k < p.due.len() {
                assert(p.due[k] == pid);
            }
            assert(pid == s.pid);
            lemma_fold_of_distinct(start, front, st, now);
            assert(engine::recall(p.episodes, s.pid) == engine::recall(start.episodes, s.pid));
            assert(sessions[sessions.len() - 1].pid == pid);
        }
    }
}

pub proof fn lemma_surviving_recall(
    episodes: Map<i32, Episode>,
    sessions: Seq<RawModel>,
    pid: i32,
)
    requires
        engine::lists(sessions, pid),
    ensures
        engine::recall(engine::surviving(episodes, sessions), pid) == engine::recall(episodes, pid),
{
}

/// Keys are only ever due for a session that is red, sits in tmux, and may be
/// continued automatically.
pub proof fn law_due_sessions_are_red_and_controllable(
    e: EngineModel,
    sessions: Seq<RawModel>,
    st: SettingsModel,
    now: i64,
    pid: i32,
)
    requires
        engine::polled(e, sessions, st, now).due.contains(pid),
    ensures
        st.auto_continue,
        exists|i: int|
            {
                &&& 0 <= i < sessions.len()
                &&& (#[trigger] sessions[i]).pid == pid
                &&& engine::classified(sessions[i], st).0 == SessionState::Red
                &&& sessions[i].tmux is Some
            },
{
    lemma_due_is_red(engine::poll_start(e, sessions), sessions, st, now, pid);
}

proof fn lemma_due_is_red(
    start: PollModel,
    sessions: Seq<RawModel>,
    st: SettingsModel,
    now: i64,
    pid: i32,
)
    requires
        start.due.len() == 0,
        engine::folded(start, sessions, st, now).due.contains(pid),
    ensures
        st.auto_continue,
        exists|i: int|
            {
                &&& 0 <= i < sessions.len()
                &&& (#[trigger] sessions[i]).pid == pid
                &&& engine::classified(sessions[i], st).0 == SessionState::Red
                &&& sessions[i].tmux is Some
            },
    decreases sessions.len(),
{
    if sessions.len() > 0 {
        let front = sessions.drop_last();
        let s = sessions.last();
        let p = engine::folded(start, front, st, now);
        let q = engine::folded(start, sessions, st, now);
        if p.due.contains(pid) {
            lemma_due_is_red(start, front, st, now, pid);
            let i = choose|i: int|
                {
                    &&& 0 <= i < front.len()
                    &&& (#[trigger] front[i]).pid == pid
                    &&& engine::classified(front[i], st).0 == SessionState::Red
                    &&& front[i].tmux is Some
                };
            assert(sessions[i] == front[i]);
        } else {
            let k = choose|k: int| 0 <= k < q.due.len() && q.due[k] == pid;
            if k < p.due.len() {
                assert(p.due[k] == pid);
            }
            assert(sessions[sessions.len() - 1].pid == pid);
        }
    }
}

/// A send is booked at the moment it is scheduled: after the poll that finds it
/// due, the session counts one send more and carries the clock of the poll.
pub proof fn law_due_sends_are_booked(
    e: EngineModel,
    sessions: Seq<RawModel>,
    st: SettingsModel,
    now: i64,
    pid: i32,
)
    requires
        engine::distinct(sessions),
        st.max_sends <= u32::MAX,
        engine::polled(e, sessions, st, now).due.contains(pid),
    ensures
        ({
            let before = engine::recall(e.episodes, pid);
            let after = engine::recall(engine::engine_after(e, sessions, st, now).episodes, pid);
            &&& after.sends == before.sends + 1
            &&& after.last_send_at == Some(now)
            &&& after.blocked_since is Some
        }),
{
    let start = engine::poll_start(e, sessions);
    lemma_due_of_distinct(start, sessions, st, now, pid);
    let i = choose|i: int|
        {
            &&& 0 <= i < sessions.len()
            &&& (#[trigger] sessions[i]).pid == pid
            &&& sends_now(engine::recall(start.episodes, pid), sessions[i], st, now)
        };
    assert(engine::lists(sessions, pid));
    lemma_surviving_recall(e.episodes, sessions, pid);
    lemma_fold_of_distinct(start, sessions, st, now);
    assert(engine::recall(engine::engine_after(e, sessions, st, now).episodes, sessions[i].pid)
        == stepped(engine::recall(start.episodes, pid), sessions[i], st, now));
}

/// Two sends to one session in consecutive polls lie at least the retry
/// interval apart, whatever the second scan holds.
pub proof fn law_sends_keep_their_distance(
    e: EngineModel,
    first: Seq<RawModel>,
    second: Seq<RawModel>,
    st: SettingsModel,
    now: i64,
    later: i64,
    pid: i32,
)
    requires
        engine::distinct(first),
        engine::distinct(second),
        0 <= st.retry_interval_secs <= i64::MAX,
        st.max_sends <= u32::MAX,
        engine::polled(e, first, st, now).due.contains(pid),
        engine::polled(engine::engine_after(e, first, st, now), second, st, later).due.contains(
            pid,
        ),
    ensures
        later - now >= st.retry_interval_secs,
{
    let e2 = engine::engine_after(e, first, st, now);
    let start = engine::poll_start(e2, second);
    law_due_sends_are_booked(e, first, st, now, pid);
    lemma_due_of_distinct(start, second, st, later, pid);
    assert(engine::lists(second, pid));
    lemma_surviving_recall(e2.episodes, second, pid);
}

/// A poll sends at most once to each process.
pub proof fn law_one_send_per_poll(
    e: EngineModel,
    sessions: Seq<RawModel>,
    st: SettingsModel,
    now: i64,
)
    requires
        engine::distinct(sessions),
    ensures
        ({
            let due = engine::polled(e, sessions, st, now).due;
            forall|i: int, j: int| 0 <= i < j < due.len() ==> #[trigger] due[i] != #[trigger] due[j]
        }),
{
    lemma_due_once(engine::poll_start(e, sessions), sessions, st, now);
}

proof fn lemma_due_once(
    start: PollModel,
    sessions: Seq<RawModel>,
    st: SettingsModel,
    now: i64,
)
    requires
        engine::distinct(sessions),
        start.due.len() == 0,
    ensures
        ({
            let due = engine::folded(start, sessions, st, now).due;
            &&& forall|i: int, j: int|
                0 <= i < j < due.len() ==> #[trigger] due[i] != #[trigger] due[j]
            &&& forall|i: int| 0 <= i < due.len() ==> engine::lists(sessions, #[trigger] due[i])
        }),
    decreases sessions.len(),
{
    if sessions.len() > 0 {
        let front = sessions.drop_last();
        let s = sessions.last();
        lemma_distinct_front(sessions);
        lemma_due_once(start, front, st, now);
        let before = engine::folded(start, front, st, now).due;
        let due = engine::folded(start, sessions, st, now).due;
        assert forall|i: int| 0 <= i < due.len() implies engine::lists(
            sessions,
            #[trigger] due[i],
        ) by {
            if i < before.len() {
                assert(before[i] == due[i]);
                let k = choose|k: int| 0 <= k < front.len() && (#[trigger] front[k]).pid == due[i];
                assert(sessions[k].pid == due[i]);
            } else {
                assert(sessions[sessions.len() - 1].pid == due[i]);
            }
        }
        assert forall|i: int, j: int| 0 <= i < j < due.len() implies #[trigger] due[i]
            != #[trigger] due[j] by {
            assert(before[i] == due[i]);
            if j < before.len() {
                assert(before[j] == due[j]);
            } else {
                assert(engine::lists(front, before[i]));
            }
        }
    }
}

/// Nothing is remembered of a process that the last scan did not list.
pub proof fn law_exited_processes_are_forgotten(
    e: EngineModel,
    sessions: Seq<RawModel>,
    st: SettingsModel,
    now: i64,
    pid: i32,
)
    requires
        !engine::lists(sessions, pid),
    ensures
        engine::recall(engine::engine_after(e, sessions, st, now).episodes, pid)
            == engine::fresh(),
{
    lemma_unlisted_stays(engine::poll_start(e, sessions), sessions, st, now, pid);
}

pub proof fn lemma_unlisted_stays(
    start: PollModel,
    sessions: Seq<RawModel>,
    st: SettingsModel,
    now: i64,
    pid: i32,
)
    requires
        !engine::lists(sessions, pid),
    ensures
        engine::recall(engine::folded(start, sessions, st, now).episodes, pid) == engine::recall(
            start.episodes,
            pid,
        ),
    decreases sessions.len(),
{
    if sessions.len() > 0 {
        let front = sessions.drop_last();
        if engine::lists(front, pid) {
            let k = choose|k: int| 0 <= k < front.len() && (#[trigger] front[k]).pid == pid;
            assert(sessions[k].pid == pid);
        }
        if sessions.last().pid == pid {
            assert(sessions[sessions.len() - 1].pid == pid);
        }
        lemma_unlisted_stays(start, front, st, now, pid);
    }
}

/// The automatic sends of an episode never exceed the configured maximum.
pub proof fn law_sends_never_exceed_the_cap(
    e: EngineModel,
    sessions: Seq<RawModel>,
    st: SettingsModel,
    now: i64,
    pid: i32,
)
    requires
        engine::recall(e.episodes, pid).sends <= st.max_sends,
    ensures
        engine::recall(engine::engine_after(e, sessions, st, now).episodes, pid).sends
            <= st.max_sends,
{
    let start = engine::poll_start(e, sessions);
    assert(engine::recall(start.episodes, pid).sends <= st.max_sends);
    lemma_cap(start, sessions, st, now, pid);
}

proof fn lemma_cap(
    start: PollModel,
    sessions: Seq<RawModel>,
    st: SettingsModel,
    now: i64,
    pid: i32,
)
    requires
        engine::recall(start.episodes, pid).sends <= st.max_sends,
    ensures
        engine::recall(engine::folded(start, sessions, st, now).episodes, pid).sends
            <= st.max_sends,
    decreases sessions.len(),
{
    if sessions.len() > 0 {
        lemma_cap(start, sessions.drop_last(), st, now, pid);
    }
}

/// A manual send defers the automatic one: until the retry interval since the
/// booking is over, no poll finds the session due. Where no poll has brought a
/// clock yet, the interval counts from the poll itself.
pub proof fn law_manual_send_defers_the_automatic_one(
    e: EngineModel,
    pid: i32,
    sessions: Seq<RawModel>,
    st: SettingsModel,
    now: i64,
)
    requires
        engine::distinct(sessions),
        0 < st.retry_interval_secs <= i64::MAX,
        engine::recall(e.episodes, pid).sends < u32::MAX,
        e.now > 0 ==> now < e.now + st.retry_interval_secs,
        e.now <= 0 ==> engine::recall(e.episodes, pid).last_send_at is None,
    ensures
        !engine::polled(engine::after_claim(e, pid), sessions, st, now).due.contains(pid),
{
    let e2 = engine::after_claim(e, pid);
    let start = engine::poll_start(e2, sessions);
    if engine::polled(e2, sessions, st, now).due.contains(pid) {
        lemma_due_of_distinct(start, sessions, st, now, pid);
        assert(engine::lists(sessions, pid));
        lemma_surviving_recall(e2.episodes, sessions, pid);
    }
}

// ---- exits ----------------------------------------------------------------

/// An exit is reported for exactly the processes of the previous scan that are
/// gone from this one.
pub proof fn law_exit_means_gone(
    e: EngineModel,
    sessions: Seq<RawModel>,
    st: SettingsModel,
    now: i64,
    pid: i32,
)
    requires
        engine::remembers(e),
    ensures
        reports_exit(engine::polled(e, sessions, st, now).events, pid) <==> engine::lists(
            e.sessions,
            pid,
        ) && !engine::lists(sessions, pid),
{
    let start = engine::poll_start(e, sessions);
    lemma_fold_adds_no_exit(start, sessions, st, now, pid);
    lemma_exits(e.sessions, e.episodes, sessions, pid);
    if engine::lists(e.sessions, pid) {
        let k = choose|k: int|
            0 <= k < e.sessions.len() && (#[trigger] e.sessions[k]).pid == pid;
        assert(e.episodes.contains_key(e.sessions[k].pid));
    }
}

/// Whether some events report that a process is gone.
pub open spec fn reports_exit(events: Seq<EventModel>, pid: i32) -> bool {
    exists|i: int|
        0 <= i < events.len() && (#[trigger] events[i]).kind == EventKind::Exited && events[i].pid
            == pid
}

proof fn lemma_exits(
    prev: Seq<RawModel>,
    episodes: Map<i32, Episode>,
    sessions: Seq<RawModel>,
    pid: i32,
)
    ensures
        reports_exit(engine::exits(prev, episodes, sessions), pid) <==> {
            &&& engine::lists(prev, pid)
            &&& !engine::lists(sessions, pid)
            &&& episodes.contains_key(pid)
        },
    decreases prev.len(),
{
    let all = engine::exits(prev, episodes, sessions);
    if prev.len() > 0 {
        let front = prev.drop_last();
        let s = prev.last();
        let before = engine::exits(front, episodes, sessions);
        lemma_exits(front, episodes, sessions, pid);
        if engine::lists(front, pid) {
            let k = choose|k: int| 0 <= k < front.len() && (#[trigger] front[k]).pid == pid;
            assert(prev[k].pid == pid);
        }
        if engine::lists(prev, pid) && s.pid != pid {
            let k = choose|k: int| 0 <= k < prev.len() && (#[trigger] prev[k]).pid == pid;
            assert(front[k].pid == pid);
        }
        if s.pid == pid {
            assert(prev[prev.len() - 1].pid == pid);
        }
        if reports_exit(before, pid) {
            let k = choose|k: int|
                0 <= k < before.len() && (#[trigger] before[k]).kind == EventKind::Exited
                    && before[k].pid == pid;
            assert(all[k] == before[k]);
        }
        if reports_exit(all, pid) {
            let k = choose|k: int|
                0 <= k < all.len() && (#[trigger] all[k]).kind == EventKind::Exited && all[k].pid
                    == pid;
            if k < before.len() {
                assert(before[k] == all[k]);
            }
        }
        if !engine::lists(sessions, s.pid) && episodes.contains_key(s.pid) && s.pid == pid {
            assert(all[before.len() as int].pid == pid);
        }
    }
}

proof fn lemma_fold_adds_no_exit(
    start: PollModel,
    sessions: Seq<RawModel>,
    st: SettingsModel,
    now: i64,
    pid: i32,
)
    ensures
        reports_exit(engine::folded(start, sessions, st, now).events, pid) <==> reports_exit(
            start.events,
            pid,
        ),
    decreases sessions.len(),
{
    if sessions.len() > 0 {
        let front = sessions.drop_last();
        let s = sessions.last();
        lemma_fold_adds_no_exit(start, front, st, now, pid);
        let p = engine::folded(start, front, st, now);
        let q = engine::folded(start, sessions, st, now);
        let more = engine::events_of(
            engine::recall(p.episodes, s.pid),
            s,
            engine::classified(s, st),
        );
        assert(q.events == p.events + more);
        if reports_exit(p.events, pid) {
            let k = choose|k: int|
                0 <= k < p.events.len() && (#[trigger] p.events[k]).kind == EventKind::Exited
                    && p.events[k].pid == pid;
            assert(q.events[k] == p.events[k]);
        }
        if reports_exit(q.events, pid) {
            let k = choose|k: int|
                0 <= k < q.events.len() && (#[trigger] q.events[k]).kind == EventKind::Exited
                    && q.events[k].pid == pid;
            if k < p.events.len() {
                assert(p.events[k] == q.events[k]);
            } else {
                assert(more[k - p.events.len()] == q.events[k]);
            }
        }
    }
}

// ---- rows -----------------------------------------------------------------

/// Before they are sorted, the rows stand one for one for the sessions.
proof fn lemma_rows_follow_sessions(
    start: PollModel,
    sessions: Seq<RawModel>,
    st: SettingsModel,
    now: i64,
)
    requires
        start.rows.len() == 0,
    ensures
        engine::folded(start, sessions, st, now).rows.len() == sessions.len(),
        forall|i: int|
            0 <= i < sessions.len() ==> {
                let row = #[trigger] engine::folded(start, sessions, st, now).rows[i];
                &&& row.pid == sessions[i].pid
                &&& (row.state, row.reason) == engine::classified(sessions[i], st)
                &&& row.controllable == (sessions[i].tmux is Some)
                &&& row.usage == sessions[i].usage
                &&& row.countdown is Some <==> row.state == SessionState::Red
            },
    decreases sessions.len(),
{
    if sessions.len() > 0 {
        lemma_rows_follow_sessions(start, sessions.drop_last(), st, now);
    }
}

/// Every poll lists one row per session, each with the session's own light and
/// usage and with a countdown exactly where it is red; red rows come first,
/// then yellow, then green, each by process id.
pub proof fn law_rows_cover_the_scan_in_order(
    e: EngineModel,
    sessions: Seq<RawModel>,
    st: SettingsModel,
    now: i64,
)
    ensures
        ({
            let after = engine::engine_after(e, sessions, st, now);
            let rows = engine::polled(e, sessions, st, now).rows;
            &&& after.rows.to_multiset() == rows.to_multiset()
            &&& after.rows.len() == sessions.len()
            &&& rows.len() == sessions.len()
            &&& forall|i: int|
                0 <= i < sessions.len() ==> {
                    &&& (#[trigger] rows[i]).pid == sessions[i].pid
                    &&& (rows[i].state, rows[i].reason) == engine::classified(sessions[i], st)
                    &&& rows[i].usage == sessions[i].usage
                    &&& rows[i].countdown is Some <==> rows[i].state == SessionState::Red
                }
            &&& forall|i: int, j: int|
                0 <= i < j < after.rows.len() ==> {
                    let a = #[trigger] after.rows[i];
                    let b = #[trigger] after.rows[j];
                    ||| engine::light_rank(a.state) < engine::light_rank(b.state)
                    ||| a.state == b.state && a.pid <= b.pid
                }
        }),
{
    let rows = engine::polled(e, sessions, st, now).rows;
    lemma_rows_follow_sessions(engine::poll_start(e, sessions), sessions, st, now);
    order::law_arranged::<SessionView>(rows);
    let after = engine::engine_after(e, sessions, st, now);
    assert(order::in_order::<SessionView>(after.rows));
}

/// The counts of the three lights add up to the number of rows.
pub proof fn law_counts_add_up(rows: Seq<ViewModel>)
    ensures
        engine::lit(rows, SessionState::Red) + engine::lit(rows, SessionState::Yellow)
            + engine::lit(rows, SessionState::Green) == rows.len(),
    decreases rows.len(),
{
    if rows.len() > 0 {
        law_counts_add_up(rows.drop_last());
    }
}

// ---- clocks ---------------------------------------------------------------

/// The latest clock for which no wait of sane settings overflows.
pub open spec fn clock_limit() -> int {
    i64::MAX - 604_800
}

/// A remembered time, where there is one, is an ordinary clock reading.
pub open spec fn calm_time(t: Option<i64>) -> bool {
    t is Some ==> 0 <= t->0 <= clock_limit()
}

/// All that is remembered are ordinary clock readings.
pub open spec fn calm(e: EngineModel) -> bool {
    &&& e.now <= clock_limit()
    &&& calm_episodes(e.episodes)
}

pub open spec fn calm_episodes(episodes: Map<i32, Episode>) -> bool {
    forall|pid: i32| #[trigger]
        episodes.contains_key(pid) ==> calm_time(episodes[pid].blocked_since) && calm_time(
            episodes[pid].last_send_at,
        )
}

/// With sane settings and an ordinary clock no poll overflows, and what is
/// remembered stays ordinary.
pub proof fn law_sane_polls_fit(
    e: EngineModel,
    sessions: Seq<RawModel>,
    st: SettingsModel,
    now: i64,
)
    requires
        calm(e),
        0 <= now <= clock_limit(),
        0 <= st.wait_secs <= 604_800,
        0 <= st.retry_interval_secs <= 86_400,
    ensures
        engine::poll_fits(e, sessions, st, now),
        calm(engine::engine_after(e, sessions, st, now)),
{
    let start = engine::poll_start(e, sessions);
    assert(calm_episodes(start.episodes));
    assert forall|i: int| 0 <= i < sessions.len() implies #[trigger] engine::session_fits(
        e,
        sessions,
        st,
        now,
        i,
    ) by {
        lemma_fold_stays_calm(start, sessions.take(i), st, now);
    }
    lemma_fold_stays_calm(start, sessions, st, now);
}

/// A fresh engine is ordinary, and settings that were sanitized are sane: a
/// monitor that starts from both, on an ordinary clock, never overflows.
pub proof fn law_sanitized_settings_never_overflow(
    e: EngineModel,
    sessions: Seq<RawModel>,
    m: SettingsModel,
    now: i64,
)
    requires
        calm(e),
        0 <= now <= clock_limit(),
    ensures
        calm(engine::new_engine()),
        engine::poll_fits(e, sessions, settings::sanitized(m), now),
        calm(engine::engine_after(e, sessions, settings::sanitized(m), now)),
{
    law_sane_polls_fit(e, sessions, settings::sanitized(m), now);
}

proof fn lemma_fold_stays_calm(
    start: PollModel,
    sessions: Seq<RawModel>,
    st: SettingsModel,
    now: i64,
)
    requires
        calm_episodes(start.episodes),
        0 <= now <= clock_limit(),
    ensures
        calm_episodes(engine::folded(start, sessions, st, now).episodes),
    decreases sessions.len(),
{
    if sessions.len() > 0 {
        lemma_fold_stays_calm(start, sessions.drop_last(), st, now);
    }
}

/// Booking a manual send keeps what is remembered ordinary.
pub proof fn law_claims_stay_calm(e: EngineModel, pid: i32)
    requires
        calm(e),
    ensures
        calm(engine::after_claim(e, pid)),
{
}

} // verus!
