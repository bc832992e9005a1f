//! What one poll and one click of the user come to: which programs are
//! started, which notifications go up, and what the user reads.
use vstd::prelude::*;
use vstd::string::*;

use crate::detector::{RawModel, RawSession, RawStatus};
use crate::engine;
use crate::engine::{
    Engine, EngineModel, EventModel, SessionEvent, SessionView, ViewModel,
};
use crate::engine_laws;
use crate::model;
use crate::notice;
use crate::notice::{Notice, NoticeModel};
use crate::order;
use crate::poll_laws;
use crate::schedule_laws;
use crate::settings::{Settings, SettingsModel};
use crate::store_laws;
use crate::tasks;
use crate::tasks::{StoreModel, TaskRow, TaskStore, TaskView};
use crate::text;
use crate::wsl;
use crate::wsl::{Invocation, InvocationModel, RunEnd, TerminalCommand};

verus! {

// ---- polling --------------------------------------------------------------

/// How long to wait until the next poll (seconds).
pub open spec fn delay_of(st: SettingsModel) -> int {
    if st.poll_interval_secs < 1 {
        1
    } else {
        st.poll_interval_secs
    }
}

/// How long to wait until the next poll (seconds).
pub fn poll_delay(settings: &Settings) -> (r: u64)
    ensures
        r == delay_of(settings@),
{
    if settings.poll_interval_secs < 1 {
        1
    } else {
        settings.poll_interval_secs
    }
}

/// The tmux sessions that a scan found, and its clock.
#[derive(Debug)]
pub struct Live {
    pub names: Vec<String>,
    pub now: i64,
}

/// Live tmux sessions as the contracts see them.
pub struct LiveModel {
    pub names: Seq<Seq<char>>,
    pub now: i64,
}

impl View for Live {
    type V = LiveModel;

    open spec fn view(&self) -> LiveModel {
        LiveModel { names: model::views(self.names@), now: self.now }
    }
}

/// What one poll comes to.
#[derive(Debug)]
pub struct PollOutcome {
    pub rows: Vec<SessionView>,
    /// the processes whose resume keys go out now
    pub due: Vec<i32>,
    pub notices: Vec<Notice>,
    /// what the task list learns from the poll; none where the scan failed
    pub live: Option<Live>,
    /// a problem for the banner
    pub warning: Option<String>,
}

/// What one poll comes to, as the contracts see it.
pub struct OutcomeModel {
    pub rows: Seq<ViewModel>,
    pub due: Seq<i32>,
    pub notices: Seq<NoticeModel>,
    pub live: Option<LiveModel>,
    pub warning: Option<Seq<char>>,
}

impl View for PollOutcome {
    type V = OutcomeModel;

    open spec fn view(&self) -> OutcomeModel {
        OutcomeModel {
            rows: model::views(self.rows@),
            due: self.due@,
            notices: model::views(self.notices@),
            live: model::view_opt(self.live),
            warning: model::view_opt(self.warning),
        }
    }
}

/// The notifications for some events, in their order; `agent` is the name of
/// the monitored program.
pub open spec fn announced(
    st: SettingsModel,
    events: Seq<EventModel>,
    agent: Seq<char>,
) -> Seq<NoticeModel>
    decreases events.len(),
{
    if events.len() == 0 {
        Seq::empty()
    } else {
        let before = announced(st, events.drop_last(), agent);
        match notice::event_notice(st, events.last().kind, events.last().project, agent) {
            Some(n) => before.push(n),
            None => before,
        }
    }
}

fn announce(settings: &Settings, events: &Vec<SessionEvent>, agent: &str) -> (r: Vec<Notice>)
    ensures
        model::views(r@) == announced(settings@, model::views(events@), agent@),
{
    let ghost all = model::views(events@);
    let mut notices: Vec<Notice> = Vec::new();
    let mut i: usize = 0;
    proof {
        assert(model::views(notices@) =~= announced(settings@, all.take(0), agent@));
    }
    while i < events.len()
        invariant
            i <= events@.len(),
            all == model::views(events@),
            model::views(notices@) == announced(settings@, all.take(i as int), agent@),
        decreases events@.len() - i,
    {
        proof {
            model::lemma_take_step(all, i as int);
        }
        if let Some(n) = notice::dispatch_event(settings, &events[i], agent) {
            proof {
                model::lemma_views_push(notices@, n);
            }
            notices.push(n);
        }
        i = i + 1;
    }
    proof {
        model::lemma_take_all(all);
    }
    notices
}

/// The engine after a poll. A scan that failed proves nothing, so it changes
/// nothing.
pub open spec fn engine_polled(
    e: EngineModel,
    scan: Result<RawStatus, String>,
    st: SettingsModel,
) -> EngineModel {
    match scan {
        Ok(snap) => engine::engine_after(e, model::views(snap.sessions@), st, snap.now_epoch),
        Err(_) => e,
    }
}

/// What a poll comes to. Where the scan failed, the last rows stay up, nothing
/// is sent or announced, and the problem is shown.
pub open spec fn poll_outcome(
    e: EngineModel,
    scan: Result<RawStatus, String>,
    st: SettingsModel,
    agent: Seq<char>,
) -> OutcomeModel {
    match scan {
        Ok(snap) => {
            let p = engine::polled(e, model::views(snap.sessions@), st, snap.now_epoch);
            OutcomeModel {
                rows: engine_polled(e, scan, st).rows,
                due: p.due,
                notices: announced(st, p.events, agent),
                live: Some(
                    LiveModel { names: model::views(snap.tmux_sessions@), now: snap.now_epoch },
                ),
                warning: None,
            }
        },
        Err(problem) => OutcomeModel {
            rows: e.rows,
            due: Seq::empty(),
            notices: Seq::empty(),
            live: None,
            warning: Some(problem@),
        },
    }
}

/// Fold one scan, or its failure, into the engine. Every send that is due is
/// booked already.
pub fn poll(
    engine: &mut Engine,
    scan: Result<RawStatus, String>,
    settings: &Settings,
    agent: &str,
) -> (r: PollOutcome)
    requires
        scan matches Ok(snap) ==> engine::poll_fits(
            old(engine)@,
            model::views(snap.sessions@),
            settings@,
            snap.now_epoch,
        ),
    ensures
        final(engine)@ == engine_polled(old(engine)@, scan, settings@),
        r@ == poll_outcome(old(engine)@, scan, settings@, agent@),
        old(engine).wf() || scan is Ok ==> final(engine).wf(),
{
    match scan {
        Ok(mut snap) => {
            let mut names: Vec<String> = Vec::new();
            names.append(&mut snap.tmux_sessions);
            let live = Some(Live { names, now: snap.now_epoch });
            let (rows, due, events) = engine.update(snap, settings);
            let notices = announce(settings, &events, agent);
            PollOutcome { rows, due, notices, live, warning: None }
        },
        Err(problem) => {
            let r = PollOutcome {
                rows: engine.last_views(),
                due: Vec::new(),
                notices: Vec::new(),
                live: None,
                warning: Some(problem),
            };
            proof {
                assert(r@.due =~= Seq::empty());
                assert(r@.notices =~= Seq::empty());
            }
            r
        },
    }
}

/// The task list after a poll. A scan that failed changes no task.
pub open spec fn tasks_polled(m: StoreModel, live: Option<LiveModel>) -> StoreModel {
    match live {
        Some(l) => tasks::after_poll(m, l.names, l.now),
        None => m,
    }
}

/// Fold what a poll found into the task list, and give its rows.
pub fn poll_tasks(store: &mut TaskStore, live: &Option<Live>, sessions: &[RawSession]) -> (r: Vec<
    TaskView,
>)
    requires
        live matches Some(l) ==> tasks::launches_fit(
            old(store)@,
            model::views(l.names@),
            l.now,
        ),
    ensures
        final(store)@ == tasks_polled(old(store)@, model::view_opt(*live)),
        model::views(r@) == order::arranged::<TaskView>(
            tasks::task_rows(final(store)@, model::views(sessions@)),
        ),
        old(store).wf() ==> final(store).wf(),
{
    if let Some(l) = live {
        store.reconcile(l.names.as_slice(), l.now);
    }
    store.views(sessions)
}

// ---- sending keys ---------------------------------------------------------

/// A program start, and what the user reads once it has succeeded.
#[derive(Debug)]
pub struct Plan {
    pub start: Invocation,
    pub receipt: String,
}

/// A program start and its receipt as the contracts see them.
pub struct PlanModel {
    pub start: InvocationModel,
    pub receipt: Seq<char>,
}

impl View for Plan {
    type V = PlanModel;

    open spec fn view(&self) -> PlanModel {
        PlanModel { start: self.start@, receipt: self.receipt@ }
    }
}

/// The model of a plan, or of why there is none.
pub open spec fn plan_result(r: Result<Plan, String>) -> Result<PlanModel, Seq<char>> {
    match r {
        Ok(p) => Ok(p@),
        Err(e) => Err(e@),
    }
}

/// The configured resume keys, sent to a pane: one argument per key.
pub open spec fn keys_plan(windows: bool, st: SettingsModel, pane: Seq<char>) -> PlanModel {
    let keys = text::words(st.resume_keys);
    PlanModel {
        start: wsl::started(
            windows,
            st.wsl_distro,
            seq!["tmux"@, "send-keys"@, "-t"@, pane] + keys,
            None,
        ),
        receipt: notice::sent_line(notice::english(st.language), keys, pane),
    }
}

fn refs(keys: &Vec<String>) -> (r: Vec<&str>)
    ensures
        model::views(r@) == model::views(keys@),
{
    let ghost all = model::views(keys@);
    let mut r: Vec<&str> = Vec::new();
    let mut i: usize = 0;
    proof {
        assert(model::views(r@) =~= all.take(0));
    }
    while i < keys.len()
        invariant
            i <= keys@.len(),
            all == model::views(keys@),
            model::views(r@) == all.take(i as int),
        decreases keys@.len() - i,
    {
        let k: &str = keys[i].as_str();
        proof {
            model::lemma_views_push(r@, k);
            model::lemma_take_step(all, i as int);
        }
        r.push(k);
        i = i + 1;
    }
    proof {
        model::lemma_take_all(all);
    }
    r
}

/// The configured resume keys, sent to a pane; see `keys_plan`.
pub fn send_keys(windows: bool, settings: &Settings, pane: &str) -> (r: Plan)
    ensures
        r@ == keys_plan(windows, settings@, pane@),
{
    let keys = text::split_words(settings.resume_keys.as_str());
    let arguments = refs(&keys);
    let start = wsl::tmux_send_keys(
        windows,
        settings.wsl_distro.as_str(),
        pane,
        arguments.as_slice(),
    );
    let receipt = notice::sent_text(settings.language.as_str(), &keys, pane);
    Plan { start, receipt }
}

/// What sending the resume keys to a process comes to.
pub open spec fn resume_plan(
    windows: bool,
    st: SettingsModel,
    sessions: Seq<RawModel>,
    pid: i32,
) -> Result<PlanModel, Seq<char>> {
    match engine::pane_report(sessions, pid) {
        Ok(pane) => Ok(keys_plan(windows, st, pane)),
        Err(e) => Err(e),
    }
}

/// The automatic send for a process. The poll has booked it already, so this
/// only finds out where the keys go.
pub fn send_resume(windows: bool, engine: &Engine, settings: &Settings, pid: i32) -> (r: Result<
    Plan,
    String,
>)
    ensures
        plan_result(r) == resume_plan(windows, settings@, engine@.sessions, pid),
{
    match engine.pane_for(pid) {
        Ok(pane) => Ok(send_keys(windows, settings, pane.as_str())),
        Err(e) => Err(e),
    }
}

/// The manual send for a process, which is booked in the same step; nothing is
/// booked where nothing can be sent.
pub fn send_continue(windows: bool, engine: &mut Engine, settings: &Settings, pid: i32) -> (r:
    Result<Plan, String>)
    requires
        engine::pane_report(old(engine)@.sessions, pid) is Ok ==> engine::recall(
            old(engine)@.episodes,
            pid,
        ).sends < u32::MAX,
    ensures
        plan_result(r) == resume_plan(windows, settings@, old(engine)@.sessions, pid),
        final(engine)@ == engine::after_manual(old(engine)@, pid),
        old(engine).wf() ==> final(engine).wf(),
{
    match engine.manual_target(pid) {
        Ok(pane) => Ok(send_keys(windows, settings, pane.as_str())),
        Err(e) => Err(e),
    }
}

// ---- tasks ----------------------------------------------------------------

/// What launching a task comes to.
pub open spec fn launch_plan(windows: bool, st: SettingsModel, m: StoreModel, id: u64) -> Result<
    PlanModel,
    Seq<char>,
> {
    match tasks::launch_result(m, id) {
        Ok(t) => {
            let name = tasks::session_name_of(t.id);
            Ok(
                PlanModel {
                    start: wsl::started(
                        windows,
                        st.wsl_distro,
                        seq![
                            "tmux"@,
                            "new-session"@,
                            "-d"@,
                            "-s"@,
                            name,
                            "-c"@,
                            t.cwd,
                            t.command,
                        ],
                        None,
                    ),
                    receipt: notice::started_line(notice::english(st.language), name),
                },
            )
        },
        Err(e) => Err(e),
    }
}

/// Launch a task: the launch is booked here, before tmux is asked.
pub fn launch_task(
    windows: bool,
    store: &mut TaskStore,
    settings: &Settings,
    id: u64,
    now: i64,
) -> (r: Result<Plan, String>)
    ensures
        plan_result(r) == launch_plan(windows, settings@, old(store)@, id),
        final(store)@ == tasks::after_launch(old(store)@, id, now),
        old(store).wf() ==> final(store).wf(),
{
    match store.claim_launch(id, now) {
        Ok(task) => {
            let name = task.session_name();
            let start = wsl::tmux_new_session(
                windows,
                settings.wsl_distro.as_str(),
                name.as_str(),
                task.cwd.as_str(),
                task.command.as_str(),
            );
            let receipt = notice::started_text(settings.language.as_str(), name.as_str());
            Ok(Plan { start, receipt })
        },
        Err(e) => Err(e),
    }
}

/// The task list once the launch of a task has ended. One that failed leaves the
/// task finished, so that it can be launched again.
pub open spec fn launch_over(m: StoreModel, id: u64, end: RunEnd, now: i64) -> StoreModel {
    if wsl::run_report(end) is Ok {
        m
    } else {
        tasks::after_end(m, id, now)
    }
}

/// Take note of how the launch of a task ended; see `launch_over`. A failed one
/// is reported.
pub fn launch_ended(store: &mut TaskStore, id: u64, end: RunEnd, now: i64) -> (r: Result<
    (),
    String,
>)
    ensures
        match wsl::run_report(end) {
            Ok(_) => r is Ok,
            Err(m) => r matches Err(e) && e@ == m,
        },
        final(store)@ == launch_over(old(store)@, id, end, now),
        old(store).wf() ==> final(store).wf(),
{
    match wsl::read_all(end) {
        Ok(_) => Ok(()),
        Err(e) => {
            store.launch_failed(id, now);
            Err(e)
        },
    }
}

/// What stopping a task comes to.
pub open spec fn stop_plan(windows: bool, st: SettingsModel, m: StoreModel, id: u64) -> Result<
    PlanModel,
    Seq<char>,
> {
    match tasks::stop_result(m, id) {
        Ok(t) => {
            let name = tasks::session_name_of(t.id);
            Ok(
                PlanModel {
                    start: wsl::started(
                        windows,
                        st.wsl_distro,
                        seq!["tmux"@, "kill-session"@, "-t"@, name],
                        None,
                    ),
                    receipt: notice::stopped_line(notice::english(st.language), name),
                },
            )
        },
        Err(e) => Err(e),
    }
}

/// Stop a task: the stop is booked here, before tmux is asked.
pub fn stop_task(
    windows: bool,
    store: &mut TaskStore,
    settings: &Settings,
    id: u64,
    now: i64,
) -> (r: Result<Plan, String>)
    ensures
        plan_result(r) == stop_plan(windows, settings@, old(store)@, id),
        final(store)@ == tasks::after_stop(old(store)@, id, now),
        old(store).wf() ==> final(store).wf(),
{
    match store.claim_stop(id, now) {
        Ok(task) => {
            let name = task.session_name();
            let start = wsl::tmux_kill_session(
                windows,
                settings.wsl_distro.as_str(),
                name.as_str(),
            );
            let receipt = notice::stopped_text(settings.language.as_str(), name.as_str());
            Ok(Plan { start, receipt })
        },
        Err(e) => Err(e),
    }
}

/// What opening a terminal on a task comes to: the ways to do so, in the order in
/// which to try them.
pub open spec fn terminal_plan(windows: bool, st: SettingsModel, m: StoreModel, id: u64) -> Result<
    Seq<wsl::TerminalModel>,
    Seq<char>,
> {
    if tasks::has_task(m.tasks, id) {
        Ok(wsl::terminals(windows, st.wsl_distro, tasks::session_name_of(id)))
    } else {
        Err(tasks::no_such_task(id))
    }
}

/// The ways to open a terminal on a task's tmux session; see `terminal_plan`.
pub fn open_task_terminal(windows: bool, store: &TaskStore, settings: &Settings, id: u64) -> (r:
    Result<Vec<TerminalCommand>, String>)
    ensures
        match terminal_plan(windows, settings@, store@, id) {
            Ok(ways) => r is Ok && model::views(r->Ok_0@) == ways,
            Err(m) => r matches Err(e) && e@ == m,
        },
{
    match store.session_of(id) {
        Some(name) => Ok(
            wsl::open_terminal(windows, settings.wsl_distro.as_str(), name.as_str()),
        ),
        None => Err(tasks::absent(id)),
    }
}

/// The first row of a task.
pub open spec fn task_row_for(rows: Seq<TaskRow>, id: u64) -> Option<TaskRow>
    decreases rows.len(),
{
    if rows.len() == 0 {
        None
    } else {
        let before = task_row_for(rows.drop_last(), id);
        if before is Some {
            before
        } else if rows.last().id == id {
            Some(rows.last())
        } else {
            None
        }
    }
}

proof fn lemma_task_row_stays(rows: Seq<TaskRow>, n: int, id: u64)
    requires
        0 <= n <= rows.len(),
        task_row_for(rows.take(n), id) is Some,
    ensures
        task_row_for(rows, id) == task_row_for(rows.take(n), id),
    decreases rows.len(),
{
    if n == rows.len() {
        model::lemma_take_all(rows);
    } else {
        assert(rows.drop_last().take(n) =~= rows.take(n));
        lemma_task_row_stays(rows.drop_last(), n, id);
    }
}

/// The row of one task, as the task list shows it.
pub fn task_view(store: &TaskStore, sessions: &[RawSession], id: u64) -> (r: Option<TaskView>)
    ensures
        model::view_opt(r) == task_row_for(
            order::arranged::<TaskView>(tasks::task_rows(store@, model::views(sessions@))),
            id,
        ),
{
    let views = store.views(sessions);
    let ghost all = model::views(views@);
    let mut i: usize = 0;
    proof {
        assert(all.take(0) =~= Seq::empty());
    }
    while i < views.len()
        invariant
            i <= views@.len(),
            all == model::views(views@),
            all == order::arranged::<TaskView>(
                tasks::task_rows(store@, model::views(sessions@)),
            ),
            task_row_for(all.take(i as int), id) is None,
        decreases views@.len() - i,
    {
        proof {
            model::lemma_take_step(all, i as int);
        }
        if views[i].id == id {
            proof {
                lemma_task_row_stays(all, i + 1, id);
            }
            return Some(views[i].clone());
        }
        i = i + 1;
    }
    proof {
        model::lemma_take_all(all);
    }
    None
}

// ---- laws -----------------------------------------------------------------

/// A poll that cannot reach WSL changes neither the sessions nor the tasks: the
/// last rows stay, nothing is sent or announced, and the problem is shown.
pub proof fn law_failed_scan_changes_nothing(
    e: EngineModel,
    m: StoreModel,
    problem: String,
    st: SettingsModel,
    agent: Seq<char>,
)
    ensures
        ({
            let scan = Err::<RawStatus, String>(problem);
            let outcome = poll_outcome(e, scan, st, agent);
            &&& engine_polled(e, scan, st) == e
            &&& tasks_polled(m, outcome.live) == m
            &&& outcome.rows == e.rows
            &&& outcome.due.len() == 0
            &&& outcome.notices.len() == 0
            &&& outcome.warning == Some(problem@)
        }),
{
}

/// Keys that are due can be sent: a poll only finds sends due for processes
/// whose pane is known.
pub proof fn law_due_keys_reach_a_pane(
    windows: bool,
    e: EngineModel,
    sessions: Seq<RawModel>,
    st: SettingsModel,
    now: i64,
    pid: i32,
)
    requires
        engine::distinct(sessions),
        engine::polled(e, sessions, st, now).due.contains(pid),
    ensures
        resume_plan(windows, st, engine::engine_after(e, sessions, st, now).sessions, pid) is Ok,
{
    engine_laws::law_due_sessions_are_red_and_controllable(e, sessions, st, now, pid);
    let i = choose|i: int|
        {
            &&& 0 <= i < sessions.len()
            &&& (#[trigger] sessions[i]).pid == pid
            &&& engine::classified(sessions[i], st).0 == engine::SessionState::Red
            &&& sessions[i].tmux is Some
        };
    poll_laws::lemma_found_of_distinct(sessions, i);
}

/// A task that is in the list has a row: adding a task always gives one to
/// show.
pub proof fn law_listed_task_has_a_row(m: StoreModel, sessions: Seq<RawModel>, id: u64)
    requires
        tasks::has_task(m.tasks, id),
    ensures
        ({
            let shown = order::arranged::<TaskView>(tasks::task_rows(m, sessions));
            task_row_for(shown, id) is Some && task_row_for(shown, id)->0.id == id
        }),
{
    broadcast use vstd::seq_lib::group_to_multiset_ensures;

    let rows = tasks::task_rows(m, sessions);
    let shown = order::arranged::<TaskView>(rows);
    order::law_arranged::<TaskView>(rows);
    let k = choose|k: int| 0 <= k < m.tasks.len() && (#[trigger] m.tasks[k]).id == id;
    assert(rows[k].id == id);
    assert(rows.contains(rows[k]));
    assert(shown.to_multiset().count(rows[k]) > 0);
    assert(shown.contains(rows[k]));
    let i = choose|i: int| 0 <= i < shown.len() && shown[i] == rows[k];
    lemma_row_is_found(shown, id, i);
}

proof fn lemma_row_is_found(rows: Seq<TaskRow>, id: u64, i: int)
    requires
        0 <= i < rows.len(),
        rows[i].id == id,
    ensures
        task_row_for(rows, id) is Some,
        task_row_for(rows, id)->0.id == id,
    decreases rows.len(),
{
    let front = rows.drop_last();
    if i < front.len() {
        assert(front[i].id == id);
        lemma_row_is_found(front, id, i);
    } else if task_row_for(front, id) is Some {
        lemma_found_row_has_the_id(front, id);
    }
}

proof fn lemma_found_row_has_the_id(rows: Seq<TaskRow>, id: u64)
    requires
        task_row_for(rows, id) is Some,
    ensures
        task_row_for(rows, id)->0.id == id,
    decreases rows.len(),
{
    if rows.len() > 0 && task_row_for(rows.drop_last(), id) is Some {
        lemma_found_row_has_the_id(rows.drop_last(), id);
    }
}

/// There are never more notifications than events: none where every switch is
/// off, and one for each event where every switch is on.
pub proof fn law_announcements_follow_the_switches(
    st: SettingsModel,
    events: Seq<EventModel>,
    agent: Seq<char>,
)
    ensures
        announced(st, events, agent).len() <= events.len(),
        (forall|i: int| 0 <= i < events.len() ==> !notice::shown(st, (#[trigger] events[i]).kind))
            ==> announced(st, events, agent).len() == 0,
        (forall|i: int| 0 <= i < events.len() ==> notice::shown(st, (#[trigger] events[i]).kind))
            ==> announced(st, events, agent).len() == events.len(),
    decreases events.len(),
{
    if events.len() > 0 {
        let front = events.drop_last();
        law_announcements_follow_the_switches(st, front, agent);
        let last = events[events.len() - 1];
        assert(last == events.last());
        if forall|i: int| 0 <= i < events.len() ==> !notice::shown(st, (#[trigger] events[i]).kind) {
            assert forall|i: int| 0 <= i < front.len() implies !notice::shown(
                st,
                (#[trigger] front[i]).kind,
            ) by {
                assert(front[i] == events[i]);
            }
            assert(!notice::shown(st, last.kind));
        }
        if forall|i: int| 0 <= i < events.len() ==> notice::shown(st, (#[trigger] events[i]).kind) {
            assert forall|i: int| 0 <= i < front.len() implies notice::shown(
                st,
                (#[trigger] front[i]).kind,
            ) by {
                assert(front[i] == events[i]);
            }
            assert(notice::shown(st, last.kind));
        }
    }
}

// ---- what is started ------------------------------------------------------

/// On Windows, whatever is started runs in the configured distro: `-d` and its
/// name stand in front where one is configured, and nothing does otherwise.
pub open spec fn in_distro(distro: Seq<char>, line: Seq<Seq<char>>) -> Seq<Seq<char>> {
    if distro.len() > 0 {
        seq!["-d"@, distro] + line
    } else {
        line
    }
}

/// A launch asks tmux for a detached session named by the task's id, in the
/// task's directory and with its command as one argument, in the configured
/// distro; the receipt names the session.
pub proof fn law_launch_starts_the_task(st: SettingsModel, m: StoreModel, id: u64, i: int)
    requires
        0 <= i < m.tasks.len(),
        m.tasks[i].id == id,
        forall|j: int| 0 <= j < i ==> (#[trigger] m.tasks[j]).id != id,
    ensures
        ({
            let t = m.tasks[i];
            let name = "clawmon-task-"@ + text::decimal(id as nat);
            let status = tasks::status_in(m, id);
            let there = launch_plan(true, st, m, id);
            let here = launch_plan(false, st, m, id);
            &&& there is Ok <==> status == tasks::TaskStatus::Idle || status
                == tasks::TaskStatus::Finished
            &&& here is Ok <==> there is Ok
            &&& there matches Ok(p) ==> {
                &&& p.start.program == "wsl.exe"@
                &&& p.start.args == in_distro(
                    st.wsl_distro,
                    seq![
                        "tmux"@,
                        "new-session"@,
                        "-d"@,
                        "-s"@,
                        name,
                        "-c"@,
                        t.cwd,
                        t.command,
                    ],
                )
                &&& p.start.stdin is None && p.start.timeout_secs == 25
                &&& st.language == "en"@ ==> p.receipt == "Task started → tmux session "@ + name
                &&& st.language != "en"@ ==> p.receipt == "任务已启动 → tmux 会话 "@ + name
            }
            &&& here matches Ok(p) ==> {
                &&& p.start.program == "tmux"@
                &&& p.start.args == seq![
                    "new-session"@,
                    "-d"@,
                    "-s"@,
                    name,
                    "-c"@,
                    t.cwd,
                    t.command,
                ]
                &&& p.start.stdin is None && p.start.timeout_secs == 25
                &&& p.receipt == there->Ok_0.receipt
            }
        }),
{
    tasks::lemma_first_of(m.tasks, id);
    let k = tasks::first_of(m.tasks, id)->0;
    assert(k == i) by {
        assert(m.tasks[k].id == id);
        if k < i {
            assert(m.tasks[k].id != id);
        }
        if i < k {
            assert(m.tasks[i].id != id);
        }
    }
    let t = m.tasks[i];
    let name = tasks::session_name_of(id);
    let line = seq!["tmux"@, "new-session"@, "-d"@, "-s"@, name, "-c"@, t.cwd, t.command];
    lemma_start(st.wsl_distro, line);
    assert(line.skip(1) =~= seq!["new-session"@, "-d"@, "-s"@, name, "-c"@, t.cwd, t.command]);
}

proof fn lemma_start(distro: Seq<char>, line: Seq<Seq<char>>)
    requires
        line.len() > 0,
    ensures
        wsl::started(true, distro, line, None).program == "wsl.exe"@,
        wsl::started(true, distro, line, None).args == in_distro(distro, line),
        wsl::started(true, distro, line, None).stdin is None,
        wsl::started(true, distro, line, None).timeout_secs == 25,
        wsl::started(false, distro, line, None).program == line[0],
        wsl::started(false, distro, line, None).args == line.skip(1),
        wsl::started(false, distro, line, None).stdin is None,
        wsl::started(false, distro, line, None).timeout_secs == 25,
{
    wsl::law_starts_carry_distro_and_line(true, distro, line, None);
    wsl::law_starts_carry_distro_and_line(false, distro, line, None);
    let i = wsl::started(true, distro, line, None);
    if distro.len() > 0 {
        assert(i.args =~= seq!["-d"@, distro] + i.args.skip(2));
    }
    let k = wsl::started(false, distro, line, None);
    assert((seq![k.program] + k.args)[0] == k.program);
    assert(line.skip(1) =~= k.args);
}

/// A stop asks tmux to kill the session of the task, in the configured distro.
pub proof fn law_stop_kills_the_session(st: SettingsModel, m: StoreModel, id: u64)
    requires
        tasks::has_task(m.tasks, id),
    ensures
        ({
            let name = "clawmon-task-"@ + text::decimal(id as nat);
            let status = tasks::status_in(m, id);
            let there = stop_plan(true, st, m, id);
            let here = stop_plan(false, st, m, id);
            &&& there is Ok <==> status == tasks::TaskStatus::Launching || status
                == tasks::TaskStatus::Running
            &&& here is Ok <==> there is Ok
            &&& there matches Ok(p) ==> {
                &&& p.start.program == "wsl.exe"@
                &&& p.start.args == in_distro(
                    st.wsl_distro,
                    seq!["tmux"@, "kill-session"@, "-t"@, name],
                )
                &&& p.start.stdin is None && p.start.timeout_secs == 25
                &&& st.language == "en"@ ==> p.receipt == "Task stopped ("@ + name + ")"@
                &&& st.language != "en"@ ==> p.receipt == "任务已停止（"@ + name + "）"@
            }
            &&& here matches Ok(p) ==> {
                &&& p.start.program == "tmux"@
                &&& p.start.args == seq!["kill-session"@, "-t"@, name]
                &&& p.start.stdin is None && p.start.timeout_secs == 25
                &&& p.receipt == there->Ok_0.receipt
            }
        }),
{
    tasks::lemma_first_of(m.tasks, id);
    let name = tasks::session_name_of(id);
    let line = seq!["tmux"@, "kill-session"@, "-t"@, name];
    lemma_start(st.wsl_distro, line);
    assert(line.skip(1) =~= seq!["kill-session"@, "-t"@, name]);
}

/// A terminal for a task attaches to the session of the task, in the configured
/// distro; there is none outside Windows, and none for an id that is not in the
/// list.
pub proof fn law_terminal_attaches_to_the_task(st: SettingsModel, m: StoreModel, id: u64)
    ensures
        ({
            let name = "clawmon-task-"@ + text::decimal(id as nat);
            let listed = exists|i: int| 0 <= i < m.tasks.len() && (#[trigger] m.tasks[i]).id == id;
            let line = in_distro(st.wsl_distro, seq!["--"@, "tmux"@, "attach"@, "-t"@, name]);
            &&& !listed ==> forall|windows: bool| #[trigger]
                terminal_plan(windows, st, m, id) == Err::<Seq<wsl::TerminalModel>, Seq<char>>(
                    "任务 "@ + text::decimal(id as nat) + " 不存在"@,
                )
            &&& listed ==> terminal_plan(false, st, m, id) is Ok && terminal_plan(
                false,
                st,
                m,
                id,
            )->Ok_0.len() == 0
            &&& listed ==> {
                &&& terminal_plan(true, st, m, id) matches Ok(ways)
                &&& ways.len() == 2
                &&& ways[0].program == "wt.exe"@
                &&& ways[0].args == seq!["wsl.exe"@] + line
                &&& !ways[0].new_console
                &&& ways[1].program == "wsl.exe"@
                &&& ways[1].args == line
                &&& ways[1].new_console
            }
        }),
{
    let name = tasks::session_name_of(id);
    wsl::law_terminals_attach_to_the_session(st.wsl_distro, name);
    let line = in_distro(st.wsl_distro, seq!["--"@, "tmux"@, "attach"@, "-t"@, name]);
    let ways = wsl::terminals(true, st.wsl_distro, name);
    assert(ways[1].args =~= line);
}

/// Launching a task, stopping it and opening a terminal on it speak of one and
/// the same place: the same tmux session in the same distro.
pub proof fn law_one_task_one_place(st: SettingsModel, m: StoreModel, id: u64)
    requires
        tasks::has_task(m.tasks, id),
        st.wsl_distro.len() > 0,
    ensures
        ({
            let launch = launch_plan(true, st, m, id);
            let stop = stop_plan(true, st, m, id);
            let terminal = terminal_plan(true, st, m, id);
            &&& terminal matches Ok(ways) && ways[1].args.take(2) == seq!["-d"@, st.wsl_distro]
            &&& launch matches Ok(p) ==> {
                &&& p.start.args.take(2) == terminal->Ok_0[1].args.take(2)
                &&& p.start.args[6] == terminal->Ok_0[1].args[6]
            }
            &&& stop matches Ok(p) ==> {
                &&& p.start.args.take(2) == terminal->Ok_0[1].args.take(2)
                &&& p.start.args[5] == terminal->Ok_0[1].args[6]
            }
        }),
{
    law_terminal_attaches_to_the_task(st, m, id);
    law_stop_kills_the_session(st, m, id);
    tasks::lemma_first_of(m.tasks, id);
    law_launch_starts_the_task(st, m, id, tasks::first_of(m.tasks, id)->0);
    let d = seq!["-d"@, st.wsl_distro];
    assert(terminal_plan(true, st, m, id)->Ok_0[1].args.take(2) =~= d);
    if launch_plan(true, st, m, id) is Ok {
        assert(launch_plan(true, st, m, id)->Ok_0.start.args.take(2) =~= d);
    }
    if stop_plan(true, st, m, id) is Ok {
        assert(stop_plan(true, st, m, id)->Ok_0.start.args.take(2) =~= d);
    }
}

/// Resume keys go to the pane of the first session of the process, one argument
/// per word of the setting, in the configured distro; the receipt names keys and
/// pane. A process without a pane gets none.
pub proof fn law_keys_go_to_the_pane(
    st: SettingsModel,
    sessions: Seq<RawModel>,
    pid: i32,
    i: int,
)
    requires
        0 <= i < sessions.len(),
        sessions[i].pid == pid,
        forall|j: int| 0 <= j < i ==> (#[trigger] sessions[j]).pid != pid,
    ensures
        ({
            let there = resume_plan(true, st, sessions, pid);
            let here = resume_plan(false, st, sessions, pid);
            let pane = sessions[i].tmux->0.pane;
            let keys = text::words(st.resume_keys);
            &&& there is Ok <==> sessions[i].tmux is Some
            &&& here is Ok <==> sessions[i].tmux is Some
            &&& sessions[i].tmux is None ==> there == Err::<PlanModel, Seq<char>>(
                "会话 "@ + text::signed_decimal(pid as int) + " 不在 tmux 中，无法控制"@,
            ) && here == there
            &&& there matches Ok(p) ==> {
                &&& p.start.program == "wsl.exe"@
                &&& p.start.args == in_distro(
                    st.wsl_distro,
                    seq!["tmux"@, "send-keys"@, "-t"@, pane] + keys,
                )
                &&& p.start.stdin is None && p.start.timeout_secs == 25
                &&& st.language == "en"@ ==> p.receipt == "Sent "@ + text::joined(keys) + " → "@
                    + pane
                &&& st.language != "en"@ ==> p.receipt == "已发送 "@ + text::joined(keys) + " → "@
                    + pane
            }
            &&& here matches Ok(p) ==> {
                &&& p.start.program == "tmux"@
                &&& p.start.args == seq!["send-keys"@, "-t"@, pane] + keys
                &&& p.start.stdin is None && p.start.timeout_secs == 25
                &&& p.receipt == there->Ok_0.receipt
            }
        }),
{
    schedule_laws::law_process_names_its_first_session(sessions, pid, i);
    if sessions[i].tmux is Some {
        let pane = sessions[i].tmux->0.pane;
        let keys = text::words(st.resume_keys);
        let line = seq!["tmux"@, "send-keys"@, "-t"@, pane] + keys;
        lemma_start(st.wsl_distro, line);
        assert(line.skip(1) =~= seq!["send-keys"@, "-t"@, pane] + keys);
    }
}

// ---- what a poll tells ----------------------------------------------------

/// A scan that succeeded is told as it is: its own clock and tmux sessions, the
/// rows that the engine now holds, what is due, what is announced, and no
/// warning.
pub proof fn law_scan_is_told_as_it_is(
    e: EngineModel,
    m: StoreModel,
    snap: RawStatus,
    st: SettingsModel,
    agent: Seq<char>,
)
    ensures
        ({
            let scan = Ok::<RawStatus, String>(snap);
            let outcome = poll_outcome(e, scan, st, agent);
            let after = engine_polled(e, scan, st);
            let p = engine::polled(e, model::views(snap.sessions@), st, snap.now_epoch);
            &&& after.sessions == model::views(snap.sessions@)
            &&& after.now == snap.now_epoch
            &&& after.episodes == p.episodes
            &&& outcome.rows == after.rows
            &&& outcome.due == p.due
            &&& outcome.notices == announced(st, p.events, agent)
            &&& outcome.warning is None
            &&& outcome.live is Some
            &&& outcome.live->0.names == model::views(snap.tmux_sessions@)
            &&& outcome.live->0.now == snap.now_epoch
            &&& tasks_polled(m, outcome.live) == tasks::after_poll(
                m,
                model::views(snap.tmux_sessions@),
                snap.now_epoch,
            )
        }),
{
}

/// Each event is announced by itself and in its place: what is announced of two
/// lots of events is what is announced of the first and then of the second.
pub proof fn law_events_are_announced_one_by_one(
    st: SettingsModel,
    a: Seq<EventModel>,
    b: Seq<EventModel>,
    ev: EventModel,
    agent: Seq<char>,
)
    ensures
        announced(st, a + b, agent) == announced(st, a, agent) + announced(st, b, agent),
        match notice::event_notice(st, ev.kind, ev.project, agent) {
            Some(n) => announced(st, seq![ev], agent) == seq![n],
            None => announced(st, seq![ev], agent).len() == 0,
        },
        announced(st, Seq::empty(), agent).len() == 0,
    decreases b.len(),
{
    let one = seq![ev];
    assert(one.drop_last() =~= Seq::<EventModel>::empty());
    assert(announced(st, one.drop_last(), agent) =~= Seq::<NoticeModel>::empty());
    assert(one.last() == ev);
    if notice::event_notice(st, ev.kind, ev.project, agent) is Some {
        assert(announced(st, one, agent) =~= seq![
            notice::event_notice(st, ev.kind, ev.project, agent)->0,
        ]);
    }
    if b.len() == 0 {
        assert(a + b =~= a);
        assert(announced(st, a, agent) + announced(st, b, agent) =~= announced(st, a, agent));
    } else {
        let front = b.drop_last();
        law_events_are_announced_one_by_one(st, a, front, ev, agent);
        assert((a + b).drop_last() =~= a + front);
        assert((a + b).last() == b.last());
        assert(announced(st, a + b, agent) =~= announced(st, a, agent) + announced(st, b, agent));
    }
}

/// The wait until the next poll is the configured one, but never less than a
/// second.
pub proof fn law_polls_keep_their_distance(st: SettingsModel)
    ensures
        delay_of(st) >= 1,
        delay_of(st) >= st.poll_interval_secs,
        delay_of(st) == st.poll_interval_secs || delay_of(st) == 1,
{
}

/// An id names the first row of its task in the list; without such a row there
/// is none to show.
pub proof fn law_id_names_its_first_row(rows: Seq<TaskRow>, id: u64, i: int)
    requires
        0 <= i <= rows.len(),
        i < rows.len() ==> rows[i].id == id,
        forall|j: int| 0 <= j < i ==> (#[trigger] rows[j]).id != id,
    ensures
        i < rows.len() ==> task_row_for(rows, id) == Some(rows[i]),
        i == rows.len() ==> task_row_for(rows, id) is None,
    decreases rows.len(),
{
    if rows.len() > 0 {
        let front = rows.drop_last();
        let n: int = if i < front.len() {
            i
        } else {
            front.len() as int
        };
        assert forall|j: int| 0 <= j < n implies (#[trigger] front[j]).id != id by {
            assert(rows[j].id != id);
        }
        law_id_names_its_first_row(front, id, n);
        if i == rows.len() {
            assert(rows[rows.len() - 1].id != id);
        }
    }
}

/// A launch stays booked exactly where tmux exited with code 0; after any other
/// end the task counts as finished at the clock of that end, and no definition
/// and no other run changes.
pub proof fn law_failed_launches_are_over(m: StoreModel, id: u64, end: RunEnd, now: i64)
    ensures
        ({
            let after = launch_over(m, id, end, now);
            let came_up = end is Exited && end->Exited_code == Some(0i32);
            &&& came_up ==> after == m
            &&& !came_up ==> {
                &&& after.runtime.contains_key(id)
                &&& after.runtime[id].status == tasks::TaskStatus::Finished
                &&& after.runtime[id].since == now
            }
            &&& after.tasks == m.tasks
            &&& after.next_id == m.next_id
            &&& store_laws::same_but(m.runtime, after.runtime, id)
        }),
{
}

} // verus!
