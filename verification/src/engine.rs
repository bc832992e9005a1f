//! The monitoring state machine: which light a session shows, when resume
//! keys are due, and what changed between two polls.
use std::collections::HashMap;
use vstd::prelude::*;
use vstd::string::*;

use crate::detector::{RawModel, RawSession, RawStatus, RawUsage};
use crate::model;
use crate::order;
use crate::order::Ranked;
use crate::poll_laws;
use crate::settings::{Settings, SettingsModel};
use crate::text;
use crate::wsl;

verus! {

#[derive(Debug, Clone, Copy, PartialEq, Eq, Structural)]
pub enum SessionState {
    Green,
    Yellow,
    Red,
}

/// Why a session is in its state.
#[derive(Debug, Clone, Copy, PartialEq, Eq, Structural)]
pub enum Reason {
    Active,
    NoTranscript,
    TranscriptStale,
    /// a tool call is the last activity and its result is still pending
    ToolRunning,
    /// the agent is parked on a subagent
    WaitingSubagent,
    /// the session is waiting for the human: the turn ended, or a question to
    /// the user is parked
    WaitingInput,
    /// the last entry is a user prompt that has no answer yet
    WaitingResponse,
    ResponseTimedOut,
}

/// What happened to a session between two polls.
#[derive(Debug, Clone, Copy, PartialEq, Eq, Structural)]
pub enum EventKind {
    /// entered a red (blocked) episode
    TurnedRed,
    /// left a red episode
    Recovered,
    /// finished its turn and now waits for the user
    TurnEnd,
    /// the process is gone
    Exited,
}

/// What the countdown row under a red session shows.
#[derive(Debug, Clone, Copy, PartialEq, Eq, Structural)]
pub enum Countdown {
    /// resume keys go out in this many seconds
    Waiting { remaining_sec: i64 },
    /// every configured attempt has been used up
    Capped { sends: u32 },
    /// automatic sends are switched off
    Off,
    /// not inside tmux: nothing can be sent at all
    NoTmux,
}

/// A change of one session, ready for a notification.
#[derive(Debug)]
pub struct SessionEvent {
    pub pid: i32,
    pub kind: EventKind,
    /// last component of the session's working directory
    pub project: String,
}

/// A change of one session as the contracts see it.
pub struct EventModel {
    pub pid: i32,
    pub kind: EventKind,
    pub project: Seq<char>,
}

impl View for SessionEvent {
    type V = EventModel;

    open spec fn view(&self) -> EventModel {
        EventModel { pid: self.pid, kind: self.kind, project: self.project@ }
    }
}

/// What is remembered of a session between polls.
#[derive(Debug, Clone, Copy, PartialEq, Eq, Structural)]
pub struct Episode {
    /// when the current red episode began
    pub blocked_since: Option<i64>,
    /// sends booked since the last reset
    pub sends: u32,
    pub last_send_at: Option<i64>,
    /// state at the previous poll
    pub last_state: Option<SessionState>,
    /// the previous poll saw this session waiting for input
    pub was_waiting_input: bool,
}

/// One row of the session list.
#[derive(Debug)]
pub struct SessionView {
    pub pid: i32,
    /// display name: last component of the working directory
    pub project: String,
    pub cwd: String,
    pub tty: String,
    /// e.g. "work:1.0" when the session lives inside tmux
    pub tmux_label: Option<String>,
    pub session_id: String,
    pub state: SessionState,
    pub reason: Reason,
    pub idle_sec: Option<i64>,
    pub preview: String,
    /// tokens used so far; display only
    pub usage: Option<RawUsage>,
    /// tmux pane id, present only when the session can be controlled
    pub pane: Option<String>,
    pub controllable: bool,
    /// epoch seconds when the red episode started
    pub blocked_since: Option<i64>,
    pub sends: u32,
    pub last_send_at: Option<i64>,
    /// present only while the session is red
    pub countdown: Option<Countdown>,
}

/// One row of the session list as the contracts see it.
pub struct ViewModel {
    pub pid: i32,
    pub project: Seq<char>,
    pub cwd: Seq<char>,
    pub tty: Seq<char>,
    pub tmux_label: Option<Seq<char>>,
    pub session_id: Seq<char>,
    pub state: SessionState,
    pub reason: Reason,
    pub idle_sec: Option<i64>,
    pub preview: Seq<char>,
    pub usage: Option<RawUsage>,
    pub pane: Option<Seq<char>>,
    pub controllable: bool,
    pub blocked_since: Option<i64>,
    pub sends: u32,
    pub last_send_at: Option<i64>,
    pub countdown: Option<Countdown>,
}

impl View for SessionView {
    type V = ViewModel;

    open spec fn view(&self) -> ViewModel {
        ViewModel {
            pid: self.pid,
            project: self.project@,
            cwd: self.cwd@,
            tty: self.tty@,
            tmux_label: model::view_opt(self.tmux_label),
            session_id: self.session_id@,
            state: self.state,
            reason: self.reason,
            idle_sec: self.idle_sec,
            preview: self.preview@,
            usage: self.usage,
            pane: model::view_opt(self.pane),
            controllable: self.controllable,
            blocked_since: self.blocked_since,
            sends: self.sends,
            last_send_at: self.last_send_at,
            countdown: self.countdown,
        }
    }
}

impl Clone for SessionView {
    fn clone(&self) -> (r: SessionView)
        ensures
            r == *self,
    {
        SessionView {
            pid: self.pid,
            project: self.project.clone(),
            cwd: self.cwd.clone(),
            tty: self.tty.clone(),
            tmux_label: match &self.tmux_label {
                Some(l) => Some(l.clone()),
                None => None,
            },
            session_id: self.session_id.clone(),
            state: self.state,
            reason: self.reason,
            idle_sec: self.idle_sec,
            preview: self.preview.clone(),
            usage: self.usage,
            pane: match &self.pane {
                Some(p) => Some(p.clone()),
                None => None,
            },
            controllable: self.controllable,
            blocked_since: self.blocked_since,
            sends: self.sends,
            last_send_at: self.last_send_at,
            countdown: self.countdown,
        }
    }
}

// ---- counts ---------------------------------------------------------------

/// How many sessions show each light, and whether a warning is up.
#[derive(Debug, Clone, Copy, PartialEq, Eq, Structural)]
pub struct StatusCounts {
    pub red: u32,
    pub yellow: u32,
    pub green: u32,
    pub warning: bool,
}

impl Default for StatusCounts {
    fn default() -> (r: StatusCounts)
        ensures
            r == (StatusCounts { red: 0, yellow: 0, green: 0, warning: false }),
    {
        StatusCounts { red: 0, yellow: 0, green: 0, warning: false }
    }
}

/// How many of some rows show a light.
pub open spec fn lit(rows: Seq<ViewModel>, state: SessionState) -> nat
    decreases rows.len(),
{
    if rows.len() == 0 {
        0
    } else {
        lit(rows.drop_last(), state) + (if rows.last().state == state {
            1nat
        } else {
            0nat
        })
    }
}

/// Count the lights of some rows.
pub fn state_counts(sessions: &[SessionView]) -> (c: StatusCounts)
    requires
        lit(model::views(sessions@), SessionState::Red) <= u32::MAX,
        lit(model::views(sessions@), SessionState::Yellow) <= u32::MAX,
        lit(model::views(sessions@), SessionState::Green) <= u32::MAX,
    ensures
        c.red == lit(model::views(sessions@), SessionState::Red),
        c.yellow == lit(model::views(sessions@), SessionState::Yellow),
        c.green == lit(model::views(sessions@), SessionState::Green),
        !c.warning,
{
    let mut c = StatusCounts::default();
    let ghost rows = model::views(sessions@);
    let mut i: usize = 0;
    while i < sessions.len()
        invariant
            i <= sessions@.len(),
            rows == model::views(sessions@),
            lit(rows, SessionState::Red) <= u32::MAX,
            lit(rows, SessionState::Yellow) <= u32::MAX,
            lit(rows, SessionState::Green) <= u32::MAX,
            c.red == lit(rows.take(i as int), SessionState::Red),
            c.yellow == lit(rows.take(i as int), SessionState::Yellow),
            c.green == lit(rows.take(i as int), SessionState::Green),
            !c.warning,
        decreases sessions@.len() - i,
    {
        proof {
            model::lemma_take_step(rows, i as int);
            lemma_lit_grows(rows, i + 1, SessionState::Red);
            lemma_lit_grows(rows, i + 1, SessionState::Yellow);
            lemma_lit_grows(rows, i + 1, SessionState::Green);
        }
        match sessions[i].state {
            SessionState::Red => {
                c.red = c.red + 1;
            },
            SessionState::Yellow => {
                c.yellow = c.yellow + 1;
            },
            SessionState::Green => {
                c.green = c.green + 1;
            },
        }
        i = i + 1;
    }
    proof {
        model::lemma_take_all(rows);
    }
    c
}

proof fn lemma_lit_grows(rows: Seq<ViewModel>, n: int, state: SessionState)
    requires
        0 <= n <= rows.len(),
    ensures
        lit(rows.take(n), state) <= lit(rows, state),
    decreases rows.len(),
{
    if n == rows.len() {
        model::lemma_take_all(rows);
    } else {
        lemma_lit_grows(rows.drop_last(), n, state);
        assert(rows.drop_last().take(n) =~= rows.take(n));
    }
}

// ---- the light of a session -----------------------------------------------

/// How long a session has been idle; forever where that is unknown.
pub open spec fn idle_of(s: RawModel) -> int {
    match s.idle_sec {
        Some(n) => n as int,
        None => i64::MAX as int,
    }
}

/// The light of a session and why it shows it. Green needs no action of the
/// user; yellow waits for the human, or cannot tell; red is a user prompt that
/// has gone unanswered past the timeout.
pub open spec fn classified(s: RawModel, st: SettingsModel) -> (SessionState, Reason) {
    if idle_of(s) < st.idle_green_secs {
        (SessionState::Green, Reason::Active)
    } else if s.transcript is None {
        (SessionState::Yellow, Reason::NoTranscript)
    } else if !s.transcript_live {
        (SessionState::Yellow, Reason::TranscriptStale)
    } else if s.tool_running {
        if s.tool_name == "AskUserQuestion"@ {
            (SessionState::Yellow, Reason::WaitingInput)
        } else if s.tool_name == "Task"@ || s.tool_name == "Agent"@ || s.tool_name
            == "TaskOutput"@ {
            (SessionState::Green, Reason::WaitingSubagent)
        } else {
            (SessionState::Green, Reason::ToolRunning)
        }
    } else if s.last_type == "assistant"@ {
        (SessionState::Yellow, Reason::WaitingInput)
    } else if s.last_type == "user"@ {
        if idle_of(s) > st.blocked_after_secs {
            (SessionState::Red, Reason::ResponseTimedOut)
        } else {
            (SessionState::Green, Reason::WaitingResponse)
        }
    } else {
        (SessionState::Yellow, Reason::WaitingInput)
    }
}

/// The light of a session and why it shows it; see `classified`.
pub fn classify(s: &RawSession, st: &Settings) -> (r: (SessionState, Reason))
    ensures
        r == classified(s@, st@),
{
    let idle: i64 = match s.idle_sec {
        Some(n) => n,
        None => i64::MAX,
    };
    // activity within the green window: actively working
    if idle < st.idle_green_secs {
        return (SessionState::Green, Reason::Active);
    }
    // Without a transcript that is known to belong to the process, "idle for
    // six hours" means nothing. Never call that blocked: the cost of a false
    // positive is pressing Enter in an innocent terminal.

    if s.transcript.is_none() {
        return (SessionState::Yellow, Reason::NoTranscript);
    }
    if !s.transcript_live {
        return (SessionState::Yellow, Reason::TranscriptStale);
    }
    // A pending tool call waits for something that is not the user, except for
    // the one tool whose result is the user's answer.

    if s.tool_running {
        let name: &str = s.tool_name.as_str();
        if text::same(name, "AskUserQuestion") {
            return (SessionState::Yellow, Reason::WaitingInput);
        }
        if text::same(name, "Task") || text::same(name, "Agent") || text::same(name, "TaskOutput") {
            return (SessionState::Green, Reason::WaitingSubagent);
        }
        return (SessionState::Green, Reason::ToolRunning);
    }
    if text::same(s.last_type.as_str(), "assistant") {
        return (SessionState::Yellow, Reason::WaitingInput);
    }
    // Only a trailing user prompt waits for the API, and slow is not stuck:
    // green until the timeout. Any other entry is bookkeeping after a turn.

    if text::same(s.last_type.as_str(), "user") {
        if idle > st.blocked_after_secs {
            (SessionState::Red, Reason::ResponseTimedOut)
        } else {
            (SessionState::Green, Reason::WaitingResponse)
        }
    } else {
        (SessionState::Yellow, Reason::WaitingInput)
    }
}

// ---- one session, one poll ------------------------------------------------

/// What is remembered of a session never seen before.
pub open spec fn fresh() -> Episode {
    Episode {
        blocked_since: None,
        sends: 0,
        last_send_at: None,
        last_state: None,
        was_waiting_input: false,
    }
}

/// Whether a light means that the human has to type something.
pub open spec fn waits_for_human(light: (SessionState, Reason)) -> bool {
    light == (SessionState::Yellow, Reason::WaitingInput)
}

/// What is remembered once a light has been seen. A red light opens an episode
/// or goes on with it; any other light ends an episode, and with it all that
/// was booked.
pub open spec fn observed(t: Episode, light: (SessionState, Reason), now: i64) -> Episode {
    let kept = if light.0 == SessionState::Red {
        Episode {
            blocked_since: if t.blocked_since is None {
                Some(now)
            } else {
                t.blocked_since
            },
            ..t
        }
    } else if t.blocked_since is Some {
        fresh()
    } else {
        t
    };
    Episode {
        last_state: Some(light.0),
        was_waiting_input: waits_for_human(light),
        ..kept
    }
}

/// A number of seconds as a signed machine integer holds it.
pub open spec fn signed_secs(n: int) -> int {
    if n <= i64::MAX {
        n
    } else {
        n - 0x1_0000_0000_0000_0000
    }
}

/// When the next automatic send of an episode is due: the wait after its
/// beginning, then the retry interval after the last send.
pub open spec fn next_send(t: Episode, st: SettingsModel, now: i64) -> int {
    if t.sends == 0 {
        (if t.blocked_since is Some {
            t.blocked_since->0
        } else {
            now
        }) + signed_secs(st.wait_secs)
    } else {
        (if t.last_send_at is Some {
            t.last_send_at->0
        } else {
            now
        }) + signed_secs(st.retry_interval_secs)
    }
}

/// Whether an automatic send can come about at all in an episode.
pub open spec fn may_send(
    t: Episode,
    state: SessionState,
    controllable: bool,
    st: SettingsModel,
) -> bool {
    state == SessionState::Red && controllable && st.auto_continue && t.sends < st.max_sends
}

/// Whether an automatic send goes out now.
pub open spec fn fires(
    t: Episode,
    state: SessionState,
    controllable: bool,
    st: SettingsModel,
    now: i64,
) -> bool {
    may_send(t, state, controllable, st) && next_send(t, st, now) <= now
}

/// The clock arithmetic of a session stays within a machine integer.
pub open spec fn clock_fits(
    t: Episode,
    state: SessionState,
    controllable: bool,
    st: SettingsModel,
    now: i64,
) -> bool {
    may_send(t, state, controllable, st) ==> {
        &&& i64::MIN <= next_send(t, st, now) <= i64::MAX
        &&& next_send(t, st, now) - now <= i64::MAX
    }
}

/// What is remembered once the send, if one fires, is booked.
pub open spec fn booked(
    t: Episode,
    state: SessionState,
    controllable: bool,
    st: SettingsModel,
    now: i64,
) -> Episode {
    if fires(t, state, controllable, st, now) {
        Episode { sends: (t.sends + 1) as u32, last_send_at: Some(now), ..t }
    } else {
        t
    }
}

/// What the countdown row shows: nothing unless the light is red; a reason why
/// nothing will be sent; or how long it takes. A send that fires now shows the
/// retry interval, or the cap where it was the last one.
pub open spec fn countdown_of(
    t: Episode,
    state: SessionState,
    controllable: bool,
    st: SettingsModel,
    now: i64,
) -> Option<Countdown> {
    if state != SessionState::Red {
        None
    } else if !controllable {
        Some(Countdown::NoTmux)
    } else if !st.auto_continue {
        Some(Countdown::Off)
    } else if t.sends >= st.max_sends {
        Some(Countdown::Capped { sends: t.sends })
    } else if next_send(t, st, now) > now {
        Some(Countdown::Waiting { remaining_sec: (next_send(t, st, now) - now) as i64 })
    } else if t.sends + 1 < st.max_sends {
        Some(Countdown::Waiting { remaining_sec: signed_secs(st.retry_interval_secs) as i64 })
    } else {
        Some(Countdown::Capped { sends: (t.sends + 1) as u32 })
    }
}

/// The events of one session in one poll, oldest first: the end of a red
/// episode, the beginning of one, and the end of a turn. A session that was
/// never seen before ends no turn.
pub open spec fn events_of(t: Episode, s: RawModel, light: (SessionState, Reason)) -> Seq<
    EventModel,
> {
    let project = text::base_name(s.cwd);
    let recovered = if t.last_state == Some(SessionState::Red) && light.0 != SessionState::Red {
        seq![EventModel { pid: s.pid, kind: EventKind::Recovered, project }]
    } else {
        Seq::empty()
    };
    let turned = if light.0 == SessionState::Red && t.blocked_since is None {
        seq![EventModel { pid: s.pid, kind: EventKind::TurnedRed, project }]
    } else {
        Seq::empty()
    };
    let ended = if waits_for_human(light) && !t.was_waiting_input && t.last_state is Some {
        seq![EventModel { pid: s.pid, kind: EventKind::TurnEnd, project }]
    } else {
        Seq::empty()
    };
    recovered + turned + ended
}

/// The row of one session.
pub open spec fn row_of(
    s: RawModel,
    light: (SessionState, Reason),
    t: Episode,
    countdown: Option<Countdown>,
) -> ViewModel {
    ViewModel {
        pid: s.pid,
        project: text::base_name(s.cwd),
        cwd: s.cwd,
        tty: s.tty,
        tmux_label: match s.tmux {
            Some(m) => Some(m.session + ":"@ + m.window),
            None => None,
        },
        session_id: s.session_id,
        state: light.0,
        reason: light.1,
        idle_sec: s.idle_sec,
        preview: s.preview,
        usage: s.usage,
        pane: match s.tmux {
            Some(m) => Some(m.pane),
            None => None,
        },
        controllable: s.tmux is Some,
        blocked_since: t.blocked_since,
        sends: t.sends,
        last_send_at: t.last_send_at,
        countdown,
    }
}

// ---- all sessions, one poll -----------------------------------------------

/// The outcome of a poll, or of its first sessions.
pub struct PollModel {
    pub episodes: Map<i32, Episode>,
    /// rows in the order of the scan
    pub rows: Seq<ViewModel>,
    pub due: Seq<i32>,
    pub events: Seq<EventModel>,
}

/// What is remembered of a process.
pub open spec fn recall(episodes: Map<i32, Episode>, pid: i32) -> Episode {
    if episodes.contains_key(pid) {
        episodes[pid]
    } else {
        fresh()
    }
}

/// Whether a scan lists a process.
pub open spec fn lists(sessions: Seq<RawModel>, pid: i32) -> bool {
    exists|i: int| 0 <= i < sessions.len() && (#[trigger] sessions[i]).pid == pid
}

/// No process is listed twice.
pub open spec fn distinct(sessions: Seq<RawModel>) -> bool {
    forall|i: int, j: int|
        0 <= i < j < sessions.len() ==> (#[trigger] sessions[i]).pid != (#[trigger] sessions[j]).pid
}

/// The first session of a scan with a process id.
pub open spec fn found(sessions: Seq<RawModel>, pid: i32) -> Option<RawModel>
    decreases sessions.len(),
{
    if sessions.len() == 0 {
        None
    } else {
        let before = found(sessions.drop_last(), pid);
        if before is Some {
            before
        } else if sessions.last().pid == pid {
            Some(sessions.last())
        } else {
            None
        }
    }
}

/// The first row of a process.
pub open spec fn row_for(rows: Seq<ViewModel>, pid: i32) -> Option<ViewModel>
    decreases rows.len(),
{
    if rows.len() == 0 {
        None
    } else {
        let before = row_for(rows.drop_last(), pid);
        if before is Some {
            before
        } else if rows.last().pid == pid {
            Some(rows.last())
        } else {
            None
        }
    }
}

/// Where keys for a process go, or why they cannot.
pub open spec fn pane_report(sessions: Seq<RawModel>, pid: i32) -> Result<Seq<char>, Seq<char>> {
    match found(sessions, pid) {
        Some(RawModel { tmux: Some(m), .. }) => Ok(m.pane),
        _ => Err("会话 "@ + text::signed_decimal(pid as int) + " 不在 tmux 中，无法控制"@),
    }
}

/// What is remembered of the processes that a scan lists.
pub open spec fn surviving(episodes: Map<i32, Episode>, sessions: Seq<RawModel>) -> Map<
    i32,
    Episode,
> {
    Map::new(
        |pid: i32| episodes.contains_key(pid) && lists(sessions, pid),
        |pid: i32| episodes[pid],
    )
}

/// The processes of the previous scan that are gone from this one.
pub open spec fn exits(
    prev: Seq<RawModel>,
    episodes: Map<i32, Episode>,
    sessions: Seq<RawModel>,
) -> Seq<EventModel>
    decreases prev.len(),
{
    if prev.len() == 0 {
        Seq::empty()
    } else {
        let before = exits(prev.drop_last(), episodes, sessions);
        let s = prev.last();
        if !lists(sessions, s.pid) && episodes.contains_key(s.pid) {
            before.push(
                EventModel {
                    pid: s.pid,
                    kind: EventKind::Exited,
                    project: text::base_name(s.cwd),
                },
            )
        } else {
            before
        }
    }
}

/// One more session of a scan.
pub open spec fn with_session(p: PollModel, s: RawModel, st: SettingsModel, now: i64) -> PollModel {
    let light = classified(s, st);
    let t = recall(p.episodes, s.pid);
    let seen = observed(t, light, now);
    let controllable = s.tmux is Some;
    let after = booked(seen, light.0, controllable, st, now);
    let countdown = countdown_of(seen, light.0, controllable, st, now);
    PollModel {
        episodes: p.episodes.insert(s.pid, after),
        rows: p.rows.push(row_of(s, light, after, countdown)),
        due: if fires(seen, light.0, controllable, st, now) {
            p.due.push(s.pid)
        } else {
            p.due
        },
        events: p.events + events_of(t, s, light),
    }
}

/// The sessions of a scan, one after the other.
pub open spec fn folded(
    start: PollModel,
    sessions: Seq<RawModel>,
    st: SettingsModel,
    now: i64,
) -> PollModel
    decreases sessions.len(),
{
    if sessions.len() == 0 {
        start
    } else {
        with_session(folded(start, sessions.drop_last(), st, now), sessions.last(), st, now)
    }
}

/// The engine as the contracts see it.
pub struct EngineModel {
    pub episodes: Map<i32, Episode>,
    /// the last scan
    pub sessions: Seq<RawModel>,
    /// the rows of the last scan
    pub rows: Seq<ViewModel>,
    /// clock of the last scan
    pub now: i64,
}

/// Where a poll starts: what is remembered of the processes still there, and
/// the exits of the others.
pub open spec fn poll_start(e: EngineModel, sessions: Seq<RawModel>) -> PollModel {
    PollModel {
        episodes: surviving(e.episodes, sessions),
        rows: Seq::empty(),
        due: Seq::empty(),
        events: exits(e.sessions, e.episodes, sessions),
    }
}

/// The outcome of a poll.
pub open spec fn polled(
    e: EngineModel,
    sessions: Seq<RawModel>,
    st: SettingsModel,
    now: i64,
) -> PollModel {
    folded(poll_start(e, sessions), sessions, st, now)
}

/// The engine after a poll.
pub open spec fn engine_after(
    e: EngineModel,
    sessions: Seq<RawModel>,
    st: SettingsModel,
    now: i64,
) -> EngineModel {
    let p = polled(e, sessions, st, now);
    EngineModel {
        episodes: p.episodes,
        sessions,
        rows: order::arranged::<SessionView>(p.rows),
        now,
    }
}

/// The clock arithmetic of a poll stays within machine integers.
pub open spec fn poll_fits(
    e: EngineModel,
    sessions: Seq<RawModel>,
    st: SettingsModel,
    now: i64,
) -> bool {
    forall|i: int| 0 <= i < sessions.len() ==> #[trigger] session_fits(e, sessions, st, now, i)
}

/// The clock arithmetic of one session of a poll stays within a machine
/// integer.
pub open spec fn session_fits(
    e: EngineModel,
    sessions: Seq<RawModel>,
    st: SettingsModel,
    now: i64,
    i: int,
) -> bool {
    let s = sessions[i];
    let light = classified(s, st);
    let t = recall(folded(poll_start(e, sessions), sessions.take(i), st, now).episodes, s.pid);
    clock_fits(observed(t, light, now), light.0, s.tmux is Some, st, now)
}

/// Rows are sorted red first, then yellow, then green, by process id within a
/// light.
pub open spec fn light_rank(state: SessionState) -> int {
    match state {
        SessionState::Red => 0,
        SessionState::Yellow => 1,
        SessionState::Green => 2,
    }
}

impl Ranked for SessionView {
    open spec fn key(m: ViewModel) -> (int, int, int) {
        (light_rank(m.state), m.pid as int, 0)
    }

    fn not_after(&self, other: &Self) -> (b: bool) {
        let a: u8 = rank_of(self.state);
        let b: u8 = rank_of(other.state);
        a < b || (a == b && self.pid <= other.pid)
    }
}

fn rank_of(state: SessionState) -> (r: u8)
    ensures
        r == light_rank(state),
{
    match state {
        SessionState::Red => 0,
        SessionState::Yellow => 1,
        SessionState::Green => 2,
    }
}

// ---- executable steps -----------------------------------------------------

fn new_episode() -> (r: Episode)
    ensures
        r == fresh(),
{
    Episode {
        blocked_since: None,
        sends: 0,
        last_send_at: None,
        last_state: None,
        was_waiting_input: false,
    }
}

fn is_waiting_input(light: (SessionState, Reason)) -> (r: bool)
    ensures
        r == waits_for_human(light),
{
    light.0 == SessionState::Yellow && light.1 == Reason::WaitingInput
}

fn observe(t: Episode, light: (SessionState, Reason), now: i64) -> (r: Episode)
    ensures
        r == observed(t, light, now),
{
    let mut k = t;
    if light.0 == SessionState::Red {
        if k.blocked_since.is_none() {
            k.blocked_since = Some(now);
        }
    } else if k.blocked_since.is_some() {
        // recovered: reset the episode
        k = new_episode();
    }
    k.was_waiting_input = is_waiting_input(light);
    k.last_state = Some(light.0);
    k
}

fn to_signed(n: u64) -> (r: i64)
    ensures
        r == signed_secs(n as int),
{
    if n <= 0x7fff_ffff_ffff_ffff {
        n as i64
    } else {
        -((u64::MAX - n) as i64) - 1
    }
}

/// The countdown of a session, whether a send fires, and what is remembered
/// once it is booked. Scheduling and booking are one step: two polls of the
/// same scan must not both find the send unbooked.
fn schedule(
    t: Episode,
    state: SessionState,
    controllable: bool,
    settings: &Settings,
    now: i64,
) -> (r: (Episode, Option<Countdown>, bool))
    requires
        clock_fits(t, state, controllable, settings@, now),
    ensures
        r.0 == booked(t, state, controllable, settings@, now),
        r.1 == countdown_of(t, state, controllable, settings@, now),
        r.2 == fires(t, state, controllable, settings@, now),
{
    if state != SessionState::Red {
        return (t, None, false);
    }
    if !controllable {
        return (t, Some(Countdown::NoTmux), false);
    }
    if !settings.auto_continue {
        return (t, Some(Countdown::Off), false);
    }
    if t.sends >= settings.max_sends {
        return (t, Some(Countdown::Capped { sends: t.sends }), false);
    }
    let next_at: i64 = if t.sends == 0 {
        let since: i64 = match t.blocked_since {
            Some(b) => b,
            None => now,
        };
        since + to_signed(settings.wait_secs)
    } else {
        let since: i64 = match t.last_send_at {
            Some(b) => b,
            None => now,
        };
        since + to_signed(settings.retry_interval_secs)
    };
    if next_at > now {
        return (t, Some(Countdown::Waiting { remaining_sec: next_at - now }), false);
    }
    let mut k = t;
    k.sends = t.sends + 1;
    k.last_send_at = Some(now);
    let countdown: Countdown = if k.sends < settings.max_sends {
        Countdown::Waiting { remaining_sec: to_signed(settings.retry_interval_secs) }
    } else {
        Countdown::Capped { sends: k.sends }
    };
    (k, Some(countdown), true)
}

fn push_event(events: &mut Vec<SessionEvent>, s: &RawSession, kind: EventKind)
    ensures
        model::views(final(events)@) == model::views(old(events)@).push(
            EventModel { pid: s.pid, kind, project: text::base_name(s.cwd@) },
        ),
{
    let e = SessionEvent { pid: s.pid, kind, project: text::basename(s.cwd.as_str()) };
    proof {
        model::lemma_views_push(events@, e);
    }
    events.push(e);
}

fn push_events(
    events: &mut Vec<SessionEvent>,
    t: Episode,
    s: &RawSession,
    light: (SessionState, Reason),
)
    ensures
        model::views(final(events)@) == model::views(old(events)@) + events_of(t, s@, light),
{
    let ghost before = model::views(events@);
    if t.last_state == Some(SessionState::Red) && light.0 != SessionState::Red {
        push_event(events, s, EventKind::Recovered);
    }
    if light.0 == SessionState::Red && t.blocked_since.is_none() {
        push_event(events, s, EventKind::TurnedRed);
    }
    if is_waiting_input(light) && !t.was_waiting_input && t.last_state.is_some() {
        push_event(events, s, EventKind::TurnEnd);
    }
    proof {
        assert(model::views(events@) =~= before + events_of(t, s@, light));
    }
}

fn make_row(
    s: &RawSession,
    light: (SessionState, Reason),
    t: Episode,
    countdown: Option<Countdown>,
) -> (r: SessionView)
    ensures
        r@ == row_of(s@, light, t, countdown),
{
    SessionView {
        pid: s.pid,
        project: text::basename(s.cwd.as_str()),
        cwd: s.cwd.clone(),
        tty: s.tty.clone(),
        tmux_label: match &s.tmux {
            Some(m) => Some(text::cat3(m.session.as_str(), ":", m.window.as_str())),
            None => None,
        },
        session_id: s.session_id.clone(),
        state: light.0,
        reason: light.1,
        idle_sec: s.idle_sec,
        preview: s.preview.clone(),
        usage: s.usage,
        pane: match &s.tmux {
            Some(m) => Some(m.pane.clone()),
            None => None,
        },
        controllable: s.tmux.is_some(),
        blocked_since: t.blocked_since,
        sends: t.sends,
        last_send_at: t.last_send_at,
        countdown,
    }
}

fn is_listed(sessions: &Vec<RawSession>, pid: i32) -> (r: bool)
    ensures
        r == lists(model::views(sessions@), pid),
{
    let ghost all = model::views(sessions@);
    let mut i: usize = 0;
    while i < sessions.len()
        invariant
            i <= sessions@.len(),
            all == model::views(sessions@),
            forall|k: int| 0 <= k < i ==> (#[trigger] all[k]).pid != pid,
        decreases sessions@.len() - i,
    {
        if sessions[i].pid == pid {
            assert(all[i as int].pid == pid);
            return true;
        }
        i = i + 1;
    }
    false
}

/// What is remembered of a process; see `recall`.
fn recall_episode(episodes: &HashMap<i32, Episode>, pid: i32) -> (r: Episode)
    ensures
        r == recall(episodes@, pid),
{
    match episodes.get(&pid) {
        Some(t) => *t,
        None => new_episode(),
    }
}

/// What is remembered of the processes that a scan lists; see `surviving`.
fn survivors(episodes: &HashMap<i32, Episode>, sessions: &Vec<RawSession>) -> (r: HashMap<
    i32,
    Episode,
>)
    ensures
        r@ == surviving(episodes@, model::views(sessions@)),
{
    let mut kept: HashMap<i32, Episode> = HashMap::new();
    let ghost all = model::views(sessions@);
    let mut i: usize = 0;
    proof {
        assert(kept@ =~= surviving(episodes@, all.take(0)));
    }
    while i < sessions.len()
        invariant
            i <= sessions@.len(),
            all == model::views(sessions@),
            kept@ == surviving(episodes@, all.take(i as int)),
        decreases sessions@.len() - i,
    {
        let pid: i32 = sessions[i].pid;
        let ghost before = kept@;
        proof {
            lemma_lists_step(all, i as int);
        }
        match episodes.get(&pid) {
            Some(t) => {
                kept.insert(pid, *t);
                proof {
                    assert(kept@ =~= surviving(episodes@, all.take(i + 1)));
                }
            },
            None => {
                proof {
                    assert(before =~= surviving(episodes@, all.take(i + 1)));
                }
            },
        }
        i = i + 1;
    }
    proof {
        model::lemma_take_all(all);
    }
    kept
}

proof fn lemma_lists_step(sessions: Seq<RawModel>, n: int)
    requires
        0 <= n < sessions.len(),
    ensures
        forall|pid: i32| #[trigger]
            lists(sessions.take(n + 1), pid) == (lists(sessions.take(n), pid) || pid
                == sessions[n].pid),
{
    let a = sessions.take(n);
    let b = sessions.take(n + 1);
    assert forall|pid: i32| #[trigger] lists(b, pid) == (lists(a, pid) || pid == sessions[n].pid) by {
        if lists(b, pid) {
            let k = choose|k: int| 0 <= k < b.len() && (#[trigger] b[k]).pid == pid;
            if k < n {
                assert(a[k].pid == pid);
            }
        }
        if lists(a, pid) {
            let k = choose|k: int| 0 <= k < a.len() && (#[trigger] a[k]).pid == pid;
            assert(b[k].pid == pid);
        }
        if pid == sessions[n].pid {
            assert(b[n].pid == pid);
        }
    }
}

/// What was found in the first sessions of a scan is found in all of it.
proof fn lemma_found_stays(sessions: Seq<RawModel>, n: int, pid: i32)
    requires
        0 <= n <= sessions.len(),
        found(sessions.take(n), pid) is Some,
    ensures
        found(sessions, pid) == found(sessions.take(n), pid),
    decreases sessions.len(),
{
    if n == sessions.len() {
        model::lemma_take_all(sessions);
    } else {
        assert(sessions.drop_last().take(n) =~= sessions.take(n));
        lemma_found_stays(sessions.drop_last(), n, pid);
    }
}

/// Whether the clock arithmetic of a session stays within a machine integer;
/// see `clock_fits`.
fn fits_clock(
    t: Episode,
    state: SessionState,
    controllable: bool,
    settings: &Settings,
    now: i64,
) -> (r: bool)
    ensures
        r == clock_fits(t, state, controllable, settings@, now),
{
    if state != SessionState::Red || !controllable || !settings.auto_continue || t.sends
        >= settings.max_sends {
        return true;
    }
    let since: i64 = if t.sends == 0 {
        match t.blocked_since {
            Some(b) => b,
            None => now,
        }
    } else {
        match t.last_send_at {
            Some(b) => b,
            None => now,
        }
    };
    let gap: i64 = if t.sends == 0 {
        to_signed(settings.wait_secs)
    } else {
        to_signed(settings.retry_interval_secs)
    };
    let next_at: i128 = since as i128 + gap as i128;
    i64::MIN as i128 <= next_at && next_at <= i64::MAX as i128 && next_at - now as i128
        <= i64::MAX as i128
}

/// The engine: what is remembered between polls, and the last scan.
#[derive(Debug)]
pub struct Engine {
    episodes: HashMap<i32, Episode>,
    last_snapshot: Vec<RawSession>,
    last_views: Vec<SessionView>,
    /// clock of the last scan; all scheduling uses it
    last_now: i64,
}

impl View for Engine {
    type V = EngineModel;

    closed spec fn view(&self) -> EngineModel {
        EngineModel {
            episodes: self.episodes@,
            sessions: model::views(self.last_snapshot@),
            rows: model::views(self.last_views@),
            now: self.last_now,
        }
    }
}

/// An engine that has seen nothing.
pub open spec fn new_engine() -> EngineModel {
    EngineModel {
        episodes: Map::empty(),
        sessions: Seq::empty(),
        rows: Seq::empty(),
        now: 0,
    }
}

impl Engine {
    /// What is remembered and the rows of the last scan agree; see
    /// `consistent`.
    pub open spec fn wf(self) -> bool {
        consistent(self@)
    }

    pub fn new() -> (r: Engine)
        ensures
            r@ == new_engine(),
            r.wf(),
    {
        let r = Engine {
            episodes: HashMap::new(),
            last_snapshot: Vec::new(),
            last_views: Vec::new(),
            last_now: 0,
        };
        proof {
            assert(r@.sessions =~= Seq::empty());
            assert(r@.rows =~= Seq::empty());
        }
        r
    }

    /// The rows of the last poll, for a list that stays up while WSL cannot be
    /// reached.
    pub fn last_views(&self) -> (r: Vec<SessionView>)
        ensures
            model::views(r@) == self@.rows,
    {
        let r = self.last_views.clone();
        proof {
            assert(r@ =~= self.last_views@);
        }
        r
    }

    /// The sessions of the last scan.
    pub fn last_snapshot(&self) -> (r: &[RawSession])
        ensures
            model::views(r@) == self@.sessions,
    {
        self.last_snapshot.as_slice()
    }

    /// The first session of the last scan with a process id.
    pub fn get_session(&self, pid: i32) -> (r: Option<&RawSession>)
        ensures
            model::view_opt(r) == found(self@.sessions, pid),
    {
        let ghost all = self@.sessions;
        let mut i: usize = 0;
        proof {
            assert(all.take(0) =~= Seq::empty());
        }
        while i < self.last_snapshot.len()
            invariant
                i <= self.last_snapshot@.len(),
                all == self@.sessions,
                found(all.take(i as int), pid) is None,
            decreases self.last_snapshot@.len() - i,
        {
            proof {
                model::lemma_take_step(all, i as int);
                assert(all[i as int] == self.last_snapshot@[i as int]@);
            }
            if self.last_snapshot[i].pid == pid {
                proof {
                    lemma_found_stays(all, i + 1, pid);
                }
                return Some(&self.last_snapshot[i]);
            }
            i = i + 1;
        }
        proof {
            model::lemma_take_all(all);
        }
        None
    }

    /// The tmux pane of a session of the last scan.
    pub fn pane_for(&self, pid: i32) -> (r: Result<String, String>)
        ensures
            wsl::text_result(r) == pane_report(self@.sessions, pid),
    {
        if let Some(s) = self.get_session(pid) {
            if let Some(m) = &s.tmux {
                return Ok(m.pane.clone());
            }
        }
        let number = text::decimal_of_signed(pid);
        Err(text::cat3("会话 ", number.as_str(), " 不在 tmux 中，无法控制"))
    }

    /// The tmux pane for a manual send, which is booked in the same step; a
    /// session that cannot be controlled books nothing.
    pub fn manual_target(&mut self, pid: i32) -> (r: Result<String, String>)
        requires
            pane_report(old(self)@.sessions, pid) is Ok ==> recall(
                old(self)@.episodes,
                pid,
            ).sends < u32::MAX,
        ensures
            wsl::text_result(r) == pane_report(old(self)@.sessions, pid),
            final(self)@ == after_manual(old(self)@, pid),
            old(self).wf() ==> final(self).wf(),
    {
        let pane = self.pane_for(pid);
        if pane.is_ok() {
            self.claim_send(pid);
        }
        pane
    }

    /// How many sends of a process are booked.
    pub fn sends_of(&self, pid: i32) -> (r: u32)
        ensures
            r == recall(self@.episodes, pid).sends,
    {
        recall_episode(&self.episodes, pid).sends
    }

    /// Whether the clock arithmetic of a poll stays within machine integers;
    /// see `poll_fits`.
    pub fn update_fits(&self, snap: &RawStatus, settings: &Settings) -> (r: bool)
        ensures
            r == poll_fits(self@, model::views(snap.sessions@), settings@, snap.now_epoch),
    {
        let now: i64 = snap.now_epoch;
        let ghost all = model::views(snap.sessions@);
        let ghost start = poll_start(self@, all);
        let mut episodes = survivors(&self.episodes, &snap.sessions);
        let mut i: usize = 0;
        proof {
            assert(all.take(0) =~= Seq::empty());
        }
        while i < snap.sessions.len()
            invariant
                i <= snap.sessions@.len(),
                all == model::views(snap.sessions@),
                start == poll_start(self@, all),
                now == snap.now_epoch,
                episodes@ == folded(start, all.take(i as int), settings@, now).episodes,
                forall|k: int|
                    0 <= k < i ==> #[trigger] session_fits(self@, all, settings@, now, k),
            decreases snap.sessions@.len() - i,
        {
            let s: &RawSession = &snap.sessions[i];
            let light = classify(s, settings);
            let seen = observe(recall_episode(&episodes, s.pid), light, now);
            let controllable: bool = s.tmux.is_some();
            if !fits_clock(seen, light.0, controllable, settings, now) {
                proof {
                    assert(!session_fits(self@, all, settings@, now, i as int));
                }
                return false;
            }
            let (after, _countdown, _fired) = schedule(seen, light.0, controllable, settings, now);
            proof {
                model::lemma_take_step(all, i as int);
                assert(session_fits(self@, all, settings@, now, i as int));
            }
            episodes.insert(s.pid, after);
            i = i + 1;
        }
        true
    }

    /// Fold a fresh scan into the state machine.
    ///
    /// Returns the rows for the list, the processes whose resume keys go out
    /// now, and what changed since the previous poll. A send that fires is
    /// booked already: the caller only has to send the keys.
    pub fn update(&mut self, snap: RawStatus, settings: &Settings) -> (r: (
        Vec<SessionView>,
        Vec<i32>,
        Vec<SessionEvent>,
    ))
        requires
            poll_fits(old(self)@, model::views(snap.sessions@), settings@, snap.now_epoch),
        ensures
            final(self)@ == engine_after(
                old(self)@,
                model::views(snap.sessions@),
                settings@,
                snap.now_epoch,
            ),
            model::views(r.0@) == final(self)@.rows,
            r.1@ == polled(
                old(self)@,
                model::views(snap.sessions@),
                settings@,
                snap.now_epoch,
            ).due,
            model::views(r.2@) == polled(
                old(self)@,
                model::views(snap.sessions@),
                settings@,
                snap.now_epoch,
            ).events,
            final(self).wf(),
    {
        let sessions: Vec<RawSession> = snap.sessions;
        let now: i64 = snap.now_epoch;
        let ghost e = self@;
        let ghost all = model::views(sessions@);
        let ghost start = poll_start(e, all);
        let mut rows: Vec<SessionView> = Vec::new();
        let mut due: Vec<i32> = Vec::new();
        let mut events: Vec<SessionEvent> = Vec::new();

        // A process present last time but gone now has exited. An unreachable
        // WSL brings no scan, so it never gets here.
        let ghost prev = e.sessions;
        let mut k: usize = 0;
        proof {
            assert(prev.take(0) =~= Seq::empty());
            assert(model::views(events@) =~= Seq::empty());
        }
        while k < self.last_snapshot.len()
            invariant
                k <= self.last_snapshot@.len(),
                self@ == e,
                prev == e.sessions,
                all == model::views(sessions@),
                model::views(events@) == exits(prev.take(k as int), e.episodes, all),
            decreases self.last_snapshot@.len() - k,
        {
            let s: &RawSession = &self.last_snapshot[k];
            proof {
                model::lemma_take_step(prev, k as int);
            }
            if !is_listed(&sessions, s.pid) && self.episodes.contains_key(&s.pid) {
                push_event(&mut events, s, EventKind::Exited);
            }
            k = k + 1;
        }
        proof {
            model::lemma_take_all(prev);
        }
        let mut episodes = survivors(&self.episodes, &sessions);

        let mut i: usize = 0;
        proof {
            assert(all.take(0) =~= Seq::empty());
            assert(model::views(rows@) =~= Seq::empty());
            assert(due@ =~= Seq::empty());
        }
        while i < sessions.len()
            invariant
                i <= sessions@.len(),
                all == model::views(sessions@),
                start == poll_start(e, all),
                poll_fits(e, all, settings@, now),
                episodes@ == folded(start, all.take(i as int), settings@, now).episodes,
                model::views(rows@) == order::arranged::<SessionView>(
                    folded(start, all.take(i as int), settings@, now).rows,
                ),
                due@ == folded(start, all.take(i as int), settings@, now).due,
                model::views(events@) == folded(start, all.take(i as int), settings@, now).events,
            decreases sessions@.len() - i,
        {
            let ghost p = folded(start, all.take(i as int), settings@, now);
            let s: &RawSession = &sessions[i];
            let light = classify(s, settings);
            let t = recall_episode(&episodes, s.pid);
            push_events(&mut events, t, s, light);
            let seen = observe(t, light, now);
            let controllable: bool = s.tmux.is_some();
            proof {
                assert(session_fits(e, all, settings@, now, i as int));
                model::lemma_take_step(all, i as int);
            }
            let (after, countdown, fired) = schedule(seen, light.0, controllable, settings, now);
            if fired {
                due.push(s.pid);
            }
            let row = make_row(s, light, after, countdown);
            proof {
                assert(p.rows.push(row@).drop_last() =~= p.rows);
            }
            order::place(&mut rows, row);
            episodes.insert(s.pid, after);
            i = i + 1;
        }
        proof {
            model::lemma_take_all(all);
            poll_laws::lemma_poll_is_consistent(e, all, settings@, now);
        }
        let views = rows.clone();
        proof {
            assert(views@ =~= rows@);
        }
        self.episodes = episodes;
        self.last_snapshot = sessions;
        self.last_views = views;
        self.last_now = now;
        (rows, due, events)
    }

    /// Book a manual send before the keys go out, so that a poll during the
    /// round trip schedules its retry from there instead of sending again.
    pub fn claim_send(&mut self, pid: i32)
        requires
            recall(old(self)@.episodes, pid).sends < u32::MAX,
        ensures
            final(self)@ == after_claim(old(self)@, pid),
            old(self).wf() ==> final(self).wf(),
    {
        proof {
            if self.wf() {
                poll_laws::lemma_claim_is_consistent(self@, pid);
            }
        }
        let mut t = recall_episode(&self.episodes, pid);
        t.sends = t.sends + 1;
        // Before the first poll there is no clock to schedule with. Leaving
        // the time unset makes the next poll schedule from its own clock.
        if self.last_now > 0 {
            t.last_send_at = Some(self.last_now);
        }
        self.episodes.insert(pid, t);
    }
}

/// The engine after a manual send was booked.
pub open spec fn after_claim(e: EngineModel, pid: i32) -> EngineModel {
    let t = recall(e.episodes, pid);
    EngineModel {
        episodes: e.episodes.insert(
            pid,
            Episode {
                sends: (t.sends + 1) as u32,
                last_send_at: if e.now > 0 {
                    Some(e.now)
                } else {
                    t.last_send_at
                },
                ..t
            },
        ),
        ..e
    }
}

/// The engine after a manual send was asked for: it is booked where it can be
/// sent, and nothing changes otherwise.
pub open spec fn after_manual(e: EngineModel, pid: i32) -> EngineModel {
    if pane_report(e.sessions, pid) is Ok {
        after_claim(e, pid)
    } else {
        e
    }
}

/// Every process of the last scan is remembered.
pub open spec fn remembers(e: EngineModel) -> bool {
    forall|i: int|
        0 <= i < e.sessions.len() ==> e.episodes.contains_key((#[trigger] e.sessions[i]).pid)
}

/// Nothing but sends is remembered of a process that no poll has seen yet.
pub open spec fn unseen(t: Episode) -> bool {
    t.last_state is None && t.blocked_since is None && !t.was_waiting_input
}

/// A row shows what is remembered of its session.
pub open spec fn shows(row: ViewModel, t: Episode) -> bool {
    &&& t.last_state == Some(row.state)
    &&& t.blocked_since == row.blocked_since
    &&& t.was_waiting_input == (row.reason == Reason::WaitingInput)
}

/// The rows of the last scan are those of its processes, one each, and show
/// what is remembered of them.
pub open spec fn tied(e: EngineModel) -> bool {
    &&& forall|pid: i32|
        match #[trigger] row_for(e.rows, pid) {
            Some(row) => lists(e.sessions, pid) && shows(row, recall(e.episodes, pid)),
            None => !lists(e.sessions, pid),
        }
    &&& forall|i: int|
        0 <= i < e.rows.len() ==> row_for(e.rows, (#[trigger] e.rows[i]).pid) == Some(e.rows[i])
}

/// Every process of the last scan is remembered; a red episode is open exactly
/// where the last light was red; of other processes only sends are remembered;
/// and the rows show what is remembered, where no process was listed twice.
pub open spec fn consistent(e: EngineModel) -> bool {
    &&& remembers(e)
    &&& forall|pid: i32| #[trigger]
        e.episodes.contains_key(pid) ==> {
            &&& e.episodes[pid].blocked_since is Some <==> e.episodes[pid].last_state == Some(
                SessionState::Red,
            )
            &&& !lists(e.sessions, pid) ==> unseen(e.episodes[pid])
        }
    &&& distinct(e.sessions) ==> tied(e)
}

impl Default for Engine {
    fn default() -> (r: Engine)
        ensures
            r@ == new_engine(),
            r.wf(),
    {
        Engine::new()
    }
}

} // verus!
