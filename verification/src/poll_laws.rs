//! What holds from one poll to the next.
use vstd::prelude::*;

use crate::detector::RawModel;
use crate::engine;
use crate::engine::{
    EngineModel, Episode, EventKind, EventModel, PollModel, Reason, SessionState, SessionView,
    ViewModel,
};
use crate::engine_laws;
use crate::order;
use crate::settings::SettingsModel;
use crate::text;

verus! {

// ---- rows and what is remembered --------------------------------------------

/// Where no process is listed twice, each session is found by its process id.
pub proof fn lemma_found_of_distinct(sessions: Seq<RawModel>, i: int)
    requires
        engine::distinct(sessions),
        0 <= i < sessions.len(),
    ensures
        engine::found(sessions, sessions[i].pid) == Some(sessions[i]),
    decreases sessions.len(),
{
    let front = sessions.drop_last();
    assert forall|a: int, b: int| 0 <= a < b < front.len() implies (#[trigger] front[a]).pid != (
    #[trigger] front[b]).pid by {
        assert(sessions[a].pid != sessions[b].pid);
    }
    if i < front.len() {
        lemma_found_of_distinct(front, i);
    } else {
        lemma_not_found(front, sessions[i].pid);
    }
}

/// A process that is not listed is not found.
pub proof fn lemma_not_found(sessions: Seq<RawModel>, pid: i32)
    requires
        forall|k: int| 0 <= k < sessions.len() ==> (#[trigger] sessions[k]).pid != pid,
    ensures
        engine::found(sessions, pid) is None,
    decreases sessions.len(),
{
    if sessions.len() > 0 {
        assert(sessions[sessions.len() - 1].pid != pid);
        lemma_not_found(sessions.drop_last(), pid);
    }
}

/// What the first row of a process is.
pub proof fn lemma_row_for(rows: Seq<ViewModel>, pid: i32)
    ensures
        match engine::row_for(rows, pid) {
            Some(row) => row.pid == pid && rows.contains(row),
            None => forall|i: int| 0 <= i < rows.len() ==> (#[trigger] rows[i]).pid != pid,
        },
    decreases rows.len(),
{
    if rows.len() > 0 {
        let front = rows.drop_last();
        lemma_row_for(front, pid);
        match engine::row_for(front, pid) {
            Some(row) => {
                let k = choose|k: int| 0 <= k < front.len() && front[k] == row;
                assert(rows[k] == row);
            },
            None => {
                assert(rows[rows.len() - 1] == rows.last());
                assert forall|i: int| 0 <= i < front.len() implies (#[trigger] rows[i]).pid
                    != pid by {
                    assert(front[i].pid != pid);
                }
            },
        }
    }
}

/// The row of a session after a poll, given what was remembered before it.
pub open spec fn row_after(t: Episode, s: RawModel, st: SettingsModel, now: i64) -> ViewModel {
    let light = engine::classified(s, st);
    engine::row_of(
        s,
        light,
        engine_laws::stepped(t, s, st, now),
        engine::countdown_of(
            engine::observed(t, light, now),
            light.0,
            s.tmux is Some,
            st,
            now,
        ),
    )
}

/// Where no process is listed twice, each row is that of its session, stepped
/// from what was remembered before the poll.
proof fn lemma_rows_of_distinct(
    start: PollModel,
    sessions: Seq<RawModel>,
    st: SettingsModel,
    now: i64,
)
    requires
        engine::distinct(sessions),
        start.rows.len() == 0,
    ensures
        engine::folded(start, sessions, st, now).rows.len() == sessions.len(),
        forall|i: int|
            0 <= i < sessions.len() ==> #[trigger] engine::folded(start, sessions, st, now).rows[i]
                == row_after(
                engine::recall(start.episodes, sessions[i].pid),
                sessions[i],
                st,
                now,
            ),
    decreases sessions.len(),
{
    if sessions.len() > 0 {
        let front = sessions.drop_last();
        let s = sessions.last();
        engine_laws::lemma_distinct_front(sessions);
        lemma_rows_of_distinct(start, front, st, now);
        engine_laws::lemma_unlisted_stays(start, front, st, now, s.pid);
        let p = engine::folded(start, front, st, now);
        let q = engine::folded(start, sessions, st, now);
        assert forall|i: int| 0 <= i < sessions.len() implies #[trigger] q.rows[i] == row_after(
            engine::recall(start.episodes, sessions[i].pid),
            sessions[i],
            st,
            now,
        ) by {
            if i < front.len() {
                assert(q.rows[i] == p.rows[i]);
                assert(front[i] == sessions[i]);
            }
        }
    }
}

/// The rows of a poll, where no process is listed twice: the row of each
/// session is found by its process id, and no other process has a row.
pub proof fn lemma_rows_after(
    e: EngineModel,
    sessions: Seq<RawModel>,
    st: SettingsModel,
    now: i64,
)
    requires
        engine::distinct(sessions),
    ensures
        ({
            let after = engine::engine_after(e, sessions, st, now);
            &&& forall|k: int|
                0 <= k < sessions.len() ==> engine::row_for(
                    after.rows,
                    (#[trigger] sessions[k]).pid,
                ) == Some(row_after(engine::recall(e.episodes, sessions[k].pid), sessions[k], st, now))
            &&& forall|pid: i32|
                !engine::lists(sessions, pid) ==> #[trigger] engine::row_for(after.rows, pid) is None
            &&& forall|i: int|
                0 <= i < after.rows.len() ==> engine::lists(
                    sessions,
                    (#[trigger] after.rows[i]).pid,
                ) && engine::row_for(after.rows, after.rows[i].pid) == Some(after.rows[i])
        }),
{
    broadcast use vstd::seq_lib::group_to_multiset_ensures;

    let start = engine::poll_start(e, sessions);
    let raw = engine::polled(e, sessions, st, now).rows;
    let rows = engine::engine_after(e, sessions, st, now).rows;
    lemma_rows_of_distinct(start, sessions, st, now);
    order::law_arranged::<SessionView>(raw);
    // every row is that of some session
    assert forall|row: ViewModel| #[trigger] rows.contains(row) implies exists|k: int|
        0 <= k < sessions.len() && row == #[trigger] raw[k] by {
        assert(rows.to_multiset().count(row) > 0);
        assert(raw.to_multiset().count(row) > 0);
        assert(raw.contains(row));
    }
    assert forall|k: int| 0 <= k < sessions.len() implies engine::row_for(
        rows,
        (#[trigger] sessions[k]).pid,
    ) == Some(row_after(engine::recall(e.episodes, sessions[k].pid), sessions[k], st, now)) by {
        let pid = sessions[k].pid;
        assert(engine::lists(sessions, pid));
        engine_laws::lemma_surviving_recall(e.episodes, sessions, pid);
        assert(raw.contains(raw[k]));
        assert(raw.to_multiset().count(raw[k]) > 0);
        assert(rows.contains(raw[k]));
        lemma_row_for(rows, pid);
        let at = choose|i: int| 0 <= i < rows.len() && rows[i] == raw[k];
        assert(rows[at].pid == pid);
        let row = engine::row_for(rows, pid)->0;
        let m = choose|m: int| 0 <= m < sessions.len() && row == #[trigger] raw[m];
        if m != k {
            assert(sessions[m].pid == pid);
        }
    }
    assert forall|pid: i32| !engine::lists(sessions, pid) implies #[trigger] engine::row_for(
        rows,
        pid,
    ) is None by {
        lemma_row_for(rows, pid);
        if engine::row_for(rows, pid) is Some {
            let row = engine::row_for(rows, pid)->0;
            let m = choose|m: int| 0 <= m < sessions.len() && row == #[trigger] raw[m];
            assert(sessions[m].pid == pid);
        }
    }
    assert forall|i: int| 0 <= i < rows.len() implies engine::lists(
        sessions,
        (#[trigger] rows[i]).pid,
    ) && engine::row_for(rows, rows[i].pid) == Some(rows[i]) by {
        assert(rows.contains(rows[i]));
        let m = choose|m: int| 0 <= m < sessions.len() && rows[i] == #[trigger] raw[m];
        assert(sessions[m].pid == rows[i].pid);
        engine_laws::lemma_surviving_recall(e.episodes, sessions, sessions[m].pid);
    }
}

/// What a poll leaves behind of a listed process, whatever was remembered.
proof fn lemma_fold_settles(
    start: PollModel,
    sessions: Seq<RawModel>,
    st: SettingsModel,
    now: i64,
    pid: i32,
)
    requires
        engine::lists(sessions, pid),
    ensures
        ({
            let episodes = engine::folded(start, sessions, st, now).episodes;
            &&& episodes.contains_key(pid)
            &&& episodes[pid].blocked_since is Some <==> episodes[pid].last_state == Some(
                SessionState::Red,
            )
        }),
    decreases sessions.len(),
{
    let front = sessions.drop_last();
    if sessions.last().pid != pid {
        let k = choose|k: int| 0 <= k < sessions.len() && (#[trigger] sessions[k]).pid == pid;
        assert(front[k].pid == pid);
        lemma_fold_settles(start, front, st, now, pid);
    }
}

/// A poll remembers nothing of processes that are not listed and were not
/// remembered.
proof fn lemma_fold_adds_listed(
    start: PollModel,
    sessions: Seq<RawModel>,
    st: SettingsModel,
    now: i64,
    pid: i32,
)
    requires
        !engine::lists(sessions, pid),
        !start.episodes.contains_key(pid),
    ensures
        !engine::folded(start, sessions, st, now).episodes.contains_key(pid),
    decreases sessions.len(),
{
    if sessions.len() > 0 {
        let front = sessions.drop_last();
        if engine::lists(front, pid) {
            let k = choose|k: int| 0 <= k < front.len() && (#[trigger] front[k]).pid == pid;
            assert(sessions[k].pid == pid);
        }
        assert(sessions[sessions.len() - 1].pid != pid);
        lemma_fold_adds_listed(start, front, st, now, pid);
    }
}

/// Every poll leaves the engine consistent.
pub proof fn lemma_poll_is_consistent(
    e: EngineModel,
    sessions: Seq<RawModel>,
    st: SettingsModel,
    now: i64,
)
    ensures
        engine::consistent(engine::engine_after(e, sessions, st, now)),
{
    let start = engine::poll_start(e, sessions);
    let after = engine::engine_after(e, sessions, st, now);
    assert forall|i: int| 0 <= i < sessions.len() implies after.episodes.contains_key(
        (#[trigger] sessions[i]).pid,
    ) by {
        lemma_fold_settles(start, sessions, st, now, sessions[i].pid);
    }
    assert forall|pid: i32| #[trigger] after.episodes.contains_key(pid) implies {
        &&& after.episodes[pid].blocked_since is Some <==> after.episodes[pid].last_state == Some(
            SessionState::Red,
        )
        &&& !engine::lists(sessions, pid) ==> engine::unseen(after.episodes[pid])
    } by {
        if engine::lists(sessions, pid) {
            lemma_fold_settles(start, sessions, st, now, pid);
        } else {
            lemma_fold_adds_listed(start, sessions, st, now, pid);
        }
    }
    if engine::distinct(sessions) {
        lemma_rows_after(e, sessions, st, now);
        engine_laws::lemma_fold_of_distinct(start, sessions, st, now);
        assert forall|pid: i32|
            match #[trigger] engine::row_for(after.rows, pid) {
                Some(row) => engine::lists(sessions, pid) && engine::shows(
                    row,
                    engine::recall(after.episodes, pid),
                ),
                None => !engine::lists(sessions, pid),
            } by {
            if engine::lists(sessions, pid) {
                let k = choose|k: int| 0 <= k < sessions.len() && (#[trigger] sessions[k]).pid == pid;
                engine_laws::lemma_surviving_recall(e.episodes, sessions, pid);
                let t = engine::recall(e.episodes, pid);
                assert(engine::row_for(after.rows, sessions[k].pid) == Some(
                    row_after(t, sessions[k], st, now),
                ));
                assert(engine::recall(after.episodes, sessions[k].pid) == engine_laws::stepped(
                    t,
                    sessions[k],
                    st,
                    now,
                ));
            }
        }
    }
}

/// Booking a manual send keeps the engine consistent.
pub proof fn lemma_claim_is_consistent(e: EngineModel, pid: i32)
    requires
        engine::consistent(e),
    ensures
        engine::consistent(engine::after_claim(e, pid)),
{
    let after = engine::after_claim(e, pid);
    if engine::distinct(e.sessions) {
        assert forall|other: i32|
            match #[trigger] engine::row_for(after.rows, other) {
                Some(row) => engine::lists(after.sessions, other) && engine::shows(
                    row,
                    engine::recall(after.episodes, other),
                ),
                None => !engine::lists(after.sessions, other),
            } by {
            assert(engine::row_for(e.rows, other) == engine::row_for(after.rows, other));
        }
    }
}

// ---- booking ----------------------------------------------------------------

/// Where no process is listed twice, a session whose send fires is due.
pub proof fn lemma_firing_is_due(
    start: PollModel,
    sessions: Seq<RawModel>,
    st: SettingsModel,
    now: i64,
    k: int,
)
    requires
        engine::distinct(sessions),
        0 <= k < sessions.len(),
        engine_laws::sends_now(
            engine::recall(start.episodes, sessions[k].pid),
            sessions[k],
            st,
            now,
        ),
    ensures
        engine::folded(start, sessions, st, now).due.contains(sessions[k].pid),
    decreases sessions.len(),
{
    let front = sessions.drop_last();
    let p = engine::folded(start, front, st, now);
    let q = engine::folded(start, sessions, st, now);
    engine_laws::lemma_distinct_front(sessions);
    if k < front.len() {
        lemma_firing_is_due(start, front, st, now, k);
        let i = choose|i: int| 0 <= i < p.due.len() && p.due[i] == front[k].pid;
        assert(q.due[i] == sessions[k].pid);
    } else {
        engine_laws::lemma_unlisted_stays(start, front, st, now, sessions[k].pid);
        assert(q.due[q.due.len() - 1] == sessions[k].pid);
    }
}

/// A row after a poll, its session, and what was remembered before it.
proof fn lemma_row_has_a_session(
    e: EngineModel,
    sessions: Seq<RawModel>,
    st: SettingsModel,
    now: i64,
    i: int,
) -> (k: int)
    requires
        engine::distinct(sessions),
        0 <= i < engine::engine_after(e, sessions, st, now).rows.len(),
    ensures
        0 <= k < sessions.len(),
        engine::engine_after(e, sessions, st, now).rows[i].pid == sessions[k].pid,
        engine::engine_after(e, sessions, st, now).rows[i] == row_after(
            engine::recall(e.episodes, sessions[k].pid),
            sessions[k],
            st,
            now,
        ),
        engine::lists(sessions, sessions[k].pid),
        engine::recall(engine::poll_start(e, sessions).episodes, sessions[k].pid) == engine::recall(
            e.episodes,
            sessions[k].pid,
        ),
{
    let after = engine::engine_after(e, sessions, st, now);
    lemma_rows_after(e, sessions, st, now);
    let pid = after.rows[i].pid;
    let k = choose|k: int| 0 <= k < sessions.len() && (#[trigger] sessions[k]).pid == pid;
    engine_laws::lemma_surviving_recall(e.episodes, sessions, pid);
    k
}

/// A poll books exactly the sends that are due. A due session is red, sits in
/// tmux, may be continued, and counts one send more, at the clock of the poll
/// and within the cap. Any other session keeps what is booked, or has nothing
/// booked where it just left red.
pub proof fn law_poll_books_exactly_what_is_due(
    e: EngineModel,
    sessions: Seq<RawModel>,
    st: SettingsModel,
    now: i64,
    i: int,
)
    requires
        engine::consistent(e),
        engine::distinct(sessions),
        st.max_sends <= u32::MAX,
        0 <= i < engine::engine_after(e, sessions, st, now).rows.len(),
    ensures
        ({
            let after = engine::engine_after(e, sessions, st, now);
            let due = engine::polled(e, sessions, st, now).due;
            let v = after.rows[i];
            let before = engine::recall(e.episodes, v.pid);
            &&& v.sends == engine::recall(after.episodes, v.pid).sends
            &&& v.last_send_at == engine::recall(after.episodes, v.pid).last_send_at
            &&& if due.contains(v.pid) {
                &&& v.state == SessionState::Red
                &&& v.controllable
                &&& st.auto_continue
                &&& v.sends == before.sends + 1
                &&& v.sends <= st.max_sends
                &&& v.last_send_at == Some(now)
            } else if before.last_state == Some(SessionState::Red) && v.state != SessionState::Red {
                v.sends == 0 && v.last_send_at is None
            } else {
                v.sends == before.sends && v.last_send_at == before.last_send_at
            }
        }),
{
    let start = engine::poll_start(e, sessions);
    let due = engine::polled(e, sessions, st, now).due;
    let k = lemma_row_has_a_session(e, sessions, st, now, i);
    let pid = sessions[k].pid;
    let t = engine::recall(e.episodes, pid);
    engine_laws::lemma_fold_of_distinct(start, sessions, st, now);
    assert(engine::recall(engine::engine_after(e, sessions, st, now).episodes, sessions[k].pid)
        == engine_laws::stepped(t, sessions[k], st, now));
    if due.contains(pid) {
        engine_laws::lemma_due_of_distinct(start, sessions, st, now, pid);
        let m = choose|m: int|
            {
                &&& 0 <= m < sessions.len()
                &&& (#[trigger] sessions[m]).pid == pid
                &&& engine_laws::sends_now(
                    engine::recall(start.episodes, pid),
                    sessions[m],
                    st,
                    now,
                )
            };
        assert(m == k);
    } else if engine_laws::sends_now(t, sessions[k], st, now) {
        lemma_firing_is_due(start, sessions, st, now, k);
    }
}

// ---- red episodes -----------------------------------------------------------

/// What is remembered of a process is what its row showed.
proof fn lemma_row_before(e: EngineModel, pid: i32)
    requires
        engine::consistent(e),
        engine::distinct(e.sessions),
    ensures
        match engine::row_for(e.rows, pid) {
            Some(p) => engine::shows(p, engine::recall(e.episodes, pid)) && (p.blocked_since is Some
                <==> p.state == SessionState::Red),
            None => engine::unseen(engine::recall(e.episodes, pid)),
        },
{
    match engine::row_for(e.rows, pid) {
        Some(p) => {
            let k = choose|k: int|
                0 <= k < e.sessions.len() && (#[trigger] e.sessions[k]).pid == pid;
            assert(e.episodes.contains_key(e.sessions[k].pid));
        },
        None => {
            if e.episodes.contains_key(pid) {
                assert(!engine::lists(e.sessions, pid));
            }
        },
    }
}

/// A red episode is open exactly while the light is red. It keeps its beginning
/// from red to red, begins at the clock of the poll otherwise, and leaves
/// nothing booked when it ends.
pub proof fn law_red_episodes_follow_the_light(
    e: EngineModel,
    sessions: Seq<RawModel>,
    st: SettingsModel,
    now: i64,
    i: int,
)
    requires
        engine::consistent(e),
        engine::distinct(e.sessions),
        engine::distinct(sessions),
        0 <= i < engine::engine_after(e, sessions, st, now).rows.len(),
    ensures
        ({
            let v = engine::engine_after(e, sessions, st, now).rows[i];
            let p = engine::row_for(e.rows, v.pid);
            let was_red = p is Some && p->0.state == SessionState::Red;
            &&& v.blocked_since is Some <==> v.state == SessionState::Red
            &&& v.state == SessionState::Red && was_red ==> v.blocked_since == p->0.blocked_since
            &&& v.state == SessionState::Red && !was_red ==> v.blocked_since == Some(now)
            &&& v.state != SessionState::Red && was_red ==> v.sends == 0 && v.last_send_at is None
        }),
{
    let k = lemma_row_has_a_session(e, sessions, st, now, i);
    lemma_row_before(e, sessions[k].pid);
}

// ---- the same scan once more --------------------------------------------------

/// A second poll of the same scan changes nothing: whatever the first poll sent
/// or left waiting, the second finds nothing due, reports no event, and shows
/// the same rows.
pub proof fn law_same_scan_never_sends_twice(
    e: EngineModel,
    sessions: Seq<RawModel>,
    st: SettingsModel,
    now: i64,
)
    requires
        engine::distinct(sessions),
        0 < st.retry_interval_secs <= i64::MAX,
        st.max_sends <= u32::MAX,
    ensures
        ({
            let after = engine::engine_after(e, sessions, st, now);
            let again = engine::polled(after, sessions, st, now);
            &&& again.due.len() == 0
            &&& again.events.len() == 0
            &&& engine::engine_after(after, sessions, st, now).rows == after.rows
        }),
{
    let after = engine::engine_after(e, sessions, st, now);
    let start = engine::poll_start(e, sessions);
    let start2 = engine::poll_start(after, sessions);
    let first = engine::polled(e, sessions, st, now);
    let again = engine::polled(after, sessions, st, now);
    engine_laws::lemma_fold_of_distinct(start, sessions, st, now);
    assert forall|k: int| 0 <= k < sessions.len() implies engine::recall(
        start2.episodes,
        (#[trigger] sessions[k]).pid,
    ) == engine_laws::stepped(
        engine::recall(start.episodes, sessions[k].pid),
        sessions[k],
        st,
        now,
    ) by {
        assert(engine::lists(sessions, sessions[k].pid));
        engine_laws::lemma_surviving_recall(after.episodes, sessions, sessions[k].pid);
    }
    if again.due.len() > 0 {
        let pid = again.due[0];
        engine_laws::lemma_due_of_distinct(start2, sessions, st, now, pid);
        let k = choose|k: int|
            {
                &&& 0 <= k < sessions.len()
                &&& (#[trigger] sessions[k]).pid == pid
                &&& engine_laws::sends_now(
                    engine::recall(start2.episodes, pid),
                    sessions[k],
                    st,
                    now,
                )
            };
        lemma_step_then_quiet(engine::recall(start.episodes, pid), sessions[k], st, now);
    }
    lemma_no_exits(sessions, after.episodes, sessions);
    assert forall|k: int| 0 <= k < sessions.len() implies engine::events_of(
        engine::recall(start2.episodes, (#[trigger] sessions[k]).pid),
        sessions[k],
        engine::classified(sessions[k], st),
    ).len() == 0 by {
        lemma_step_then_quiet(
            engine::recall(start.episodes, sessions[k].pid),
            sessions[k],
            st,
            now,
        );
    }
    lemma_quiet_fold(start2, sessions, st, now);
    lemma_rows_of_distinct(start, sessions, st, now);
    lemma_rows_of_distinct(start2, sessions, st, now);
    assert forall|k: int| 0 <= k < sessions.len() implies first.rows[k] == again.rows[k] by {
        assert(sessions[k].pid == sessions[k].pid);
        lemma_step_then_quiet(
            engine::recall(start.episodes, sessions[k].pid),
            sessions[k],
            st,
            now,
        );
    }
    assert(first.rows =~= again.rows);
}

/// A session that was just polled has nothing due at the same clock, nothing to
/// report, and the same row.
proof fn lemma_step_then_quiet(t: Episode, s: RawModel, st: SettingsModel, now: i64)
    requires
        0 < st.retry_interval_secs <= i64::MAX,
        st.max_sends <= u32::MAX,
    ensures
        ({
            let next = engine_laws::stepped(t, s, st, now);
            &&& !engine_laws::sends_now(next, s, st, now)
            &&& engine::events_of(next, s, engine::classified(s, st)).len() == 0
            &&& row_after(next, s, st, now) == row_after(t, s, st, now)
        }),
{
}

proof fn lemma_no_exits(prev: Seq<RawModel>, episodes: Map<i32, Episode>, sessions: Seq<RawModel>)
    requires
        forall|i: int| 0 <= i < prev.len() ==> engine::lists(sessions, (#[trigger] prev[i]).pid),
    ensures
        engine::exits(prev, episodes, sessions).len() == 0,
    decreases prev.len(),
{
    if prev.len() > 0 {
        let front = prev.drop_last();
        assert forall|i: int| 0 <= i < front.len() implies engine::lists(
            sessions,
            (#[trigger] front[i]).pid,
        ) by {
            assert(front[i] == prev[i]);
        }
        assert(engine::lists(sessions, prev[prev.len() - 1].pid));
        lemma_no_exits(front, episodes, sessions);
    }
}

proof fn lemma_quiet_fold(start: PollModel, sessions: Seq<RawModel>, st: SettingsModel, now: i64)
    requires
        engine::distinct(sessions),
        forall|k: int|
            0 <= k < sessions.len() ==> engine::events_of(
                engine::recall(start.episodes, (#[trigger] sessions[k]).pid),
                sessions[k],
                engine::classified(sessions[k], st),
            ).len() == 0,
    ensures
        engine::folded(start, sessions, st, now).events.len() == start.events.len(),
    decreases sessions.len(),
{
    if sessions.len() > 0 {
        let front = sessions.drop_last();
        let last = sessions[sessions.len() - 1];
        engine_laws::lemma_distinct_front(sessions);
        assert forall|k: int| 0 <= k < front.len() implies engine::events_of(
            engine::recall(start.episodes, (#[trigger] front[k]).pid),
            front[k],
            engine::classified(front[k], st),
        ).len() == 0 by {
            assert(front[k] == sessions[k]);
        }
        lemma_quiet_fold(start, front, st, now);
        engine_laws::lemma_unlisted_stays(start, front, st, now, last.pid);
    }
}

// ---- events -------------------------------------------------------------------

/// How many of some events are of a kind and of a process.
pub open spec fn count_of(events: Seq<EventModel>, pid: i32, kind: EventKind) -> nat
    decreases events.len(),
{
    if events.len() == 0 {
        0
    } else {
        count_of(events.drop_last(), pid, kind) + (if events.last().pid == pid
            && events.last().kind == kind {
            1nat
        } else {
            0nat
        })
    }
}

proof fn lemma_count_add(a: Seq<EventModel>, b: Seq<EventModel>, pid: i32, kind: EventKind)
    ensures
        count_of(a + b, pid, kind) == count_of(a, pid, kind) + count_of(b, pid, kind),
    decreases b.len(),
{
    if b.len() == 0 {
        assert(a + b =~= a);
    } else {
        assert((a + b).drop_last() =~= a + b.drop_last());
        lemma_count_add(a, b.drop_last(), pid, kind);
    }
}

/// The events of one session in one poll, counted.
proof fn lemma_count_of_session(
    t: Episode,
    s: RawModel,
    light: (SessionState, Reason),
    pid: i32,
    kind: EventKind,
)
    ensures
        count_of(engine::events_of(t, s, light), pid, kind) == (if s.pid != pid {
            0nat
        } else {
            match kind {
                EventKind::Recovered => if t.last_state == Some(SessionState::Red) && light.0
                    != SessionState::Red {
                    1nat
                } else {
                    0nat
                },
                EventKind::TurnedRed => if light.0 == SessionState::Red && t.blocked_since is None {
                    1nat
                } else {
                    0nat
                },
                EventKind::TurnEnd => if engine::waits_for_human(light) && !t.was_waiting_input
                    && t.last_state is Some {
                    1nat
                } else {
                    0nat
                },
                EventKind::Exited => 0nat,
            }
        }),
{
    let all = engine::events_of(t, s, light);
    reveal_with_fuel(count_of, 4);
    assert(all.len() <= 3);
    if all.len() > 0 {
        assert(all.drop_last() =~= all.take(all.len() - 1));
    }
    if all.len() > 1 {
        assert(all.drop_last().drop_last() =~= all.take(all.len() - 2));
    }
}

/// Where no process is listed twice, the events of a listed process are those
/// of its session, and of no other.
proof fn lemma_count_of_fold(
    start: PollModel,
    sessions: Seq<RawModel>,
    st: SettingsModel,
    now: i64,
    pid: i32,
    kind: EventKind,
)
    requires
        engine::distinct(sessions),
    ensures
        !engine::lists(sessions, pid) ==> count_of(
            engine::folded(start, sessions, st, now).events,
            pid,
            kind,
        ) == count_of(start.events, pid, kind),
        forall|k: int|
            0 <= k < sessions.len() && (#[trigger] sessions[k]).pid == pid ==> count_of(
                engine::folded(start, sessions, st, now).events,
                pid,
                kind,
            ) == count_of(start.events, pid, kind) + count_of(
                engine::events_of(
                    engine::recall(start.episodes, pid),
                    sessions[k],
                    engine::classified(sessions[k], st),
                ),
                pid,
                kind,
            ),
    decreases sessions.len(),
{
    if sessions.len() > 0 {
        let front = sessions.drop_last();
        let s = sessions.last();
        let p = engine::folded(start, front, st, now);
        let more = engine::events_of(
            engine::recall(p.episodes, s.pid),
            s,
            engine::classified(s, st),
        );
        engine_laws::lemma_distinct_front(sessions);
        lemma_count_of_fold(start, front, st, now, pid, kind);
        engine_laws::lemma_unlisted_stays(start, front, st, now, s.pid);
        lemma_count_add(p.events, more, pid, kind);
        lemma_count_of_session(
            engine::recall(p.episodes, s.pid),
            s,
            engine::classified(s, st),
            pid,
            kind,
        );
        if !engine::lists(sessions, pid) {
            if engine::lists(front, pid) {
                let k = choose|k: int| 0 <= k < front.len() && (#[trigger] front[k]).pid == pid;
                assert(sessions[k].pid == pid);
            }
            assert(sessions[sessions.len() - 1].pid != pid);
        }
        assert forall|k: int| 0 <= k < sessions.len() && (#[trigger] sessions[k]).pid
            == pid implies count_of(
            engine::folded(start, sessions, st, now).events,
            pid,
            kind,
        ) == count_of(start.events, pid, kind) + count_of(
            engine::events_of(
                engine::recall(start.episodes, pid),
                sessions[k],
                engine::classified(sessions[k], st),
            ),
            pid,
            kind,
        ) by {
            if k < front.len() {
                assert(front[k] == sessions[k]);
                assert(sessions[k].pid != sessions[sessions.len() - 1].pid);
            }
        }
    }
}

/// Every event of a poll names a session of the scan, with its project, or a
/// process that is gone.
proof fn lemma_events_name_sessions(
    start: PollModel,
    sessions: Seq<RawModel>,
    st: SettingsModel,
    now: i64,
    i: int,
)
    requires
        0 <= i < engine::folded(start, sessions, st, now).events.len(),
    ensures
        ({
            let event = engine::folded(start, sessions, st, now).events[i];
            ||| i < start.events.len() && event == start.events[i]
            ||| event.kind != EventKind::Exited && exists|k: int|
                {
                    &&& 0 <= k < sessions.len()
                    &&& (#[trigger] sessions[k]).pid == event.pid
                    &&& event.project == text::base_name(sessions[k].cwd)
                }
        }),
    decreases sessions.len(),
{
    if sessions.len() > 0 {
        let front = sessions.drop_last();
        let p = engine::folded(start, front, st, now);
        let event = engine::folded(start, sessions, st, now).events[i];
        if i < p.events.len() {
            lemma_events_name_sessions(start, front, st, now, i);
            if !(i < start.events.len() && event == start.events[i]) {
                let k = choose|k: int|
                    {
                        &&& 0 <= k < front.len()
                        &&& (#[trigger] front[k]).pid == event.pid
                        &&& event.project == text::base_name(front[k].cwd)
                    };
                assert(sessions[k] == front[k]);
            }
        } else {
            assert(sessions[sessions.len() - 1].pid == event.pid);
        }
    }
}

/// The exits of a poll name processes of the scan before, with their project.
proof fn lemma_exits_name_sessions(
    prev: Seq<RawModel>,
    episodes: Map<i32, Episode>,
    sessions: Seq<RawModel>,
    i: int,
)
    requires
        0 <= i < engine::exits(prev, episodes, sessions).len(),
    ensures
        ({
            let event = engine::exits(prev, episodes, sessions)[i];
            &&& event.kind == EventKind::Exited
            &&& !engine::lists(sessions, event.pid)
            &&& exists|k: int|
                {
                    &&& 0 <= k < prev.len()
                    &&& (#[trigger] prev[k]).pid == event.pid
                    &&& event.project == text::base_name(prev[k].cwd)
                }
        }),
    decreases prev.len(),
{
    if prev.len() > 0 {
        let front = prev.drop_last();
        let before = engine::exits(front, episodes, sessions);
        let event = engine::exits(prev, episodes, sessions)[i];
        if i < before.len() {
            lemma_exits_name_sessions(front, episodes, sessions, i);
            let k = choose|k: int|
                {
                    &&& 0 <= k < front.len()
                    &&& (#[trigger] front[k]).pid == event.pid
                    &&& event.project == text::base_name(front[k].cwd)
                };
            assert(prev[k] == front[k]);
        } else {
            assert(prev[prev.len() - 1].pid == event.pid);
        }
    }
}

/// Where no process was listed twice, a process that is gone has one exit.
proof fn lemma_count_of_exits(
    prev: Seq<RawModel>,
    episodes: Map<i32, Episode>,
    sessions: Seq<RawModel>,
    pid: i32,
    kind: EventKind,
)
    requires
        engine::distinct(prev),
    ensures
        count_of(engine::exits(prev, episodes, sessions), pid, kind) == (if kind
            == EventKind::Exited && engine::lists(prev, pid) && !engine::lists(sessions, pid)
            && episodes.contains_key(pid) {
            1nat
        } else {
            0nat
        }),
    decreases prev.len(),
{
    if prev.len() > 0 {
        let front = prev.drop_last();
        let s = prev.last();
        let before = engine::exits(front, episodes, sessions);
        engine_laws::lemma_distinct_front(prev);
        lemma_count_of_exits(front, episodes, sessions, pid, kind);
        if engine::lists(front, pid) {
            let k = choose|k: int| 0 <= k < front.len() && (#[trigger] front[k]).pid == pid;
            assert(prev[k].pid == pid);
        }
        if engine::lists(prev, pid) && s.pid != pid {
            let k = choose|k: int| 0 <= k < prev.len() && (#[trigger] prev[k]).pid == pid;
            assert(front[k].pid == pid);
        }
        assert(prev[prev.len() - 1] == s);
        if !engine::lists(sessions, s.pid) && episodes.contains_key(s.pid) {
            assert(engine::exits(prev, episodes, sessions).drop_last() =~= before);
        }
    }
}

/// Exactly one exit is reported for each process that is gone, with the project
/// of its old directory, and none for any other; such a process is not found
/// any more.
pub proof fn law_one_exit_per_gone_process(
    e: EngineModel,
    sessions: Seq<RawModel>,
    st: SettingsModel,
    now: i64,
    pid: i32,
)
    requires
        engine::consistent(e),
        engine::distinct(e.sessions),
        engine::distinct(sessions),
    ensures
        ({
            let events = engine::polled(e, sessions, st, now).events;
            let gone = engine::lists(e.sessions, pid) && !engine::lists(sessions, pid);
            &&& count_of(events, pid, EventKind::Exited) == (if gone {
                1nat
            } else {
                0nat
            })
            &&& gone ==> {
                &&& engine::found(e.sessions, pid) is Some
                &&& engine::found(
                    engine::engine_after(e, sessions, st, now).sessions,
                    pid,
                ) is None
            }
            &&& forall|i: int|
                0 <= i < events.len() && (#[trigger] events[i]).kind == EventKind::Exited
                    && events[i].pid == pid ==> events[i].project == text::base_name(
                    engine::found(e.sessions, pid)->0.cwd,
                )
        }),
{
    let start = engine::poll_start(e, sessions);
    let events = engine::polled(e, sessions, st, now).events;
    lemma_count_of_fold(start, sessions, st, now, pid, EventKind::Exited);
    lemma_count_of_exits(e.sessions, e.episodes, sessions, pid, EventKind::Exited);
    if engine::lists(sessions, pid) {
        let k = choose|k: int| 0 <= k < sessions.len() && (#[trigger] sessions[k]).pid == pid;
        lemma_count_of_session(
            engine::recall(start.episodes, pid),
            sessions[k],
            engine::classified(sessions[k], st),
            pid,
            EventKind::Exited,
        );
    } else {
        assert forall|k: int| 0 <= k < sessions.len() implies (#[trigger] sessions[k]).pid != pid by {
            if sessions[k].pid == pid {
                assert(engine::lists(sessions, pid));
            }
        }
        lemma_not_found(sessions, pid);
    }
    if engine::lists(e.sessions, pid) {
        let k = choose|k: int|
            0 <= k < e.sessions.len() && (#[trigger] e.sessions[k]).pid == pid;
        assert(e.episodes.contains_key(e.sessions[k].pid));
        lemma_found_of_distinct(e.sessions, k);
    }
    assert forall|i: int|
        0 <= i < events.len() && (#[trigger] events[i]).kind == EventKind::Exited && events[i].pid
            == pid implies events[i].project == text::base_name(
        engine::found(e.sessions, pid)->0.cwd,
    ) by {
        lemma_events_name_sessions(start, sessions, st, now, i);
        lemma_exits_name_sessions(e.sessions, e.episodes, sessions, i);
        let k = choose|k: int|
            {
                &&& 0 <= k < e.sessions.len()
                &&& (#[trigger] e.sessions[k]).pid == events[i].pid
                &&& events[i].project == text::base_name(e.sessions[k].cwd)
            };
        lemma_found_of_distinct(e.sessions, k);
    }
}

/// The first poll of a fresh engine reports no exit.
pub proof fn law_first_poll_reports_no_exit(
    sessions: Seq<RawModel>,
    st: SettingsModel,
    now: i64,
    pid: i32,
)
    requires
        engine::distinct(sessions),
    ensures
        engine::consistent(engine::new_engine()),
        count_of(
            engine::polled(engine::new_engine(), sessions, st, now).events,
            pid,
            EventKind::Exited,
        ) == 0,
{
    let e = engine::new_engine();
    assert forall|pid: i32|
        match #[trigger] engine::row_for(e.rows, pid) {
            Some(row) => engine::lists(e.sessions, pid) && engine::shows(
                row,
                engine::recall(e.episodes, pid),
            ),
            None => !engine::lists(e.sessions, pid),
        } by {}
    law_one_exit_per_gone_process(e, sessions, st, now, pid);
}

/// Each change of a light is reported exactly at its edge, once, and with the
/// project of the row: that a session turned red where it was not red before,
/// that it recovered where it was, and that its turn ended where it waits for
/// input and was seen before without.
pub proof fn law_events_mark_the_edges(
    e: EngineModel,
    sessions: Seq<RawModel>,
    st: SettingsModel,
    now: i64,
    i: int,
)
    requires
        engine::consistent(e),
        engine::distinct(e.sessions),
        engine::distinct(sessions),
        0 <= i < engine::engine_after(e, sessions, st, now).rows.len(),
    ensures
        ({
            let events = engine::polled(e, sessions, st, now).events;
            let v = engine::engine_after(e, sessions, st, now).rows[i];
            let p = engine::row_for(e.rows, v.pid);
            let was_red = p is Some && p->0.state == SessionState::Red;
            &&& count_of(events, v.pid, EventKind::TurnedRed) == (if v.state == SessionState::Red
                && !was_red {
                1nat
            } else {
                0nat
            })
            &&& count_of(events, v.pid, EventKind::Recovered) == (if v.state != SessionState::Red
                && was_red {
                1nat
            } else {
                0nat
            })
            &&& count_of(events, v.pid, EventKind::TurnEnd) == (if v.reason == Reason::WaitingInput
                && p is Some && p->0.reason != Reason::WaitingInput {
                1nat
            } else {
                0nat
            })
            &&& count_of(events, v.pid, EventKind::Exited) == 0
            &&& forall|j: int|
                0 <= j < events.len() && (#[trigger] events[j]).pid == v.pid ==> events[j].project
                    == v.project
        }),
{
    let start = engine::poll_start(e, sessions);
    let events = engine::polled(e, sessions, st, now).events;
    let v = engine::engine_after(e, sessions, st, now).rows[i];
    let k = lemma_row_has_a_session(e, sessions, st, now, i);
    let pid = sessions[k].pid;
    let t = engine::recall(e.episodes, pid);
    let light = engine::classified(sessions[k], st);
    lemma_row_before(e, pid);
    lemma_edge(e, sessions, st, now, k, EventKind::TurnedRed);
    lemma_edge(e, sessions, st, now, k, EventKind::Recovered);
    lemma_edge(e, sessions, st, now, k, EventKind::TurnEnd);
    lemma_edge(e, sessions, st, now, k, EventKind::Exited);
    lemma_count_of_session(t, sessions[k], light, pid, EventKind::TurnedRed);
    lemma_count_of_session(t, sessions[k], light, pid, EventKind::Recovered);
    lemma_count_of_session(t, sessions[k], light, pid, EventKind::TurnEnd);
    lemma_count_of_session(t, sessions[k], light, pid, EventKind::Exited);
    assert forall|j: int|
        0 <= j < events.len() && (#[trigger] events[j]).pid == v.pid implies events[j].project
        == v.project by {
        lemma_events_name_sessions(start, sessions, st, now, j);
        if j < start.events.len() && events[j] == start.events[j] {
            lemma_exits_name_sessions(e.sessions, e.episodes, sessions, j);
        }
        let m = choose|m: int|
            {
                &&& 0 <= m < sessions.len()
                &&& (#[trigger] sessions[m]).pid == events[j].pid
                &&& events[j].project == text::base_name(sessions[m].cwd)
            };
        assert(m == k);
    }
}

/// The events of a listed process are those of its session.
proof fn lemma_edge(
    e: EngineModel,
    sessions: Seq<RawModel>,
    st: SettingsModel,
    now: i64,
    k: int,
    kind: EventKind,
)
    requires
        engine::distinct(e.sessions),
        engine::distinct(sessions),
        0 <= k < sessions.len(),
    ensures
        count_of(engine::polled(e, sessions, st, now).events, sessions[k].pid, kind) == count_of(
            engine::events_of(
                engine::recall(e.episodes, sessions[k].pid),
                sessions[k],
                engine::classified(sessions[k], st),
            ),
            sessions[k].pid,
            kind,
        ),
{
    let pid = sessions[k].pid;
    assert(engine::lists(sessions, pid));
    lemma_count_of_exits(e.sessions, e.episodes, sessions, pid, kind);
    lemma_count_of_fold(engine::poll_start(e, sessions), sessions, st, now, pid, kind);
    engine_laws::lemma_surviving_recall(e.episodes, sessions, pid);
}

} // verus!
