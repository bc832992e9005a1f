//! The task list: "go into this directory and run that", launched with one
//! click into a tmux session of its own.
use std::collections::HashMap;
use vstd::prelude::*;
use vstd::string::*;

use crate::detector::{RawModel, RawSession};
use crate::model;
use crate::order;
use crate::order::Ranked;
use crate::text;

verus! {

/// How long a launched task may stay without its tmux session ever showing up
/// before the launch counts as failed. Long enough for a couple of slow polls.
pub const LAUNCH_GRACE_SECS: i64 = 30;

/// Longest title, in characters.
pub const MAX_TITLE: usize = 64;

/// Longest working directory, in bytes.
pub const MAX_CWD: usize = 256;

/// Longest command, in characters.
pub const MAX_COMMAND: usize = 512;

/// A task as the user defined it.
#[derive(Debug, PartialEq)]
pub struct Task {
    pub id: u64,
    pub title: String,
    /// working directory inside WSL, absolute (`/…` or `~/…`)
    pub cwd: String,
    /// shell command that tmux runs in that directory
    pub command: String,
    /// epoch seconds
    pub created_at: i64,
    pub last_run_at: Option<i64>,
}

/// A task as the contracts see it.
pub struct TaskModel {
    pub id: u64,
    pub title: Seq<char>,
    pub cwd: Seq<char>,
    pub command: Seq<char>,
    pub created_at: i64,
    pub last_run_at: Option<i64>,
}

impl View for Task {
    type V = TaskModel;

    open spec fn view(&self) -> TaskModel {
        TaskModel {
            id: self.id,
            title: self.title@,
            cwd: self.cwd@,
            command: self.command@,
            created_at: self.created_at,
            last_run_at: self.last_run_at,
        }
    }
}

impl Clone for Task {
    fn clone(&self) -> (r: Task)
        ensures
            r == *self,
    {
        Task {
            id: self.id,
            title: self.title.clone(),
            cwd: self.cwd.clone(),
            command: self.command.clone(),
            created_at: self.created_at,
            last_run_at: self.last_run_at,
        }
    }
}

impl Default for Task {
    fn default() -> (r: Task)
        ensures
            r@ == (TaskModel {
                id: 0,
                title: Seq::empty(),
                cwd: Seq::empty(),
                command: Seq::empty(),
                created_at: 0,
                last_run_at: None,
            }),
    {
        let r = Task {
            id: 0,
            title: String::new(),
            cwd: String::new(),
            command: String::new(),
            created_at: 0,
            last_run_at: None,
        };
        proof {
            assert(r.title@ =~= Seq::empty());
        }
        r
    }
}

/// The tmux session that belongs to a task.
pub open spec fn session_name_of(id: u64) -> Seq<char> {
    "clawmon-task-"@ + text::decimal(id as nat)
}

/// A directory that a task may run in: rooted, not too long, and without
/// control codes that could break out of the command line.
pub open spec fn usable_path(p: Seq<char>) -> bool {
    &&& text::starts_with(p, '/') || text::starts_with(p, '~')
    &&& text::byte_len(p) <= MAX_CWD
    &&& !text::has_control(p)
}

/// What is wrong with a task, the first fault only.
pub open spec fn fault(t: TaskModel) -> Option<Seq<char>> {
    if text::blank(t.title) {
        Some("标题不能为空"@)
    } else if text::blank(t.cwd) || !usable_path(t.cwd) {
        Some("目录必须是 WSL 绝对路径（/ 或 ~ 开头）"@)
    } else if text::blank(t.command) {
        Some("命令不能为空"@)
    } else {
        None
    }
}

/// A task with its texts trimmed and cut to their lengths.
pub open spec fn tidied(t: TaskModel) -> TaskModel {
    TaskModel {
        title: text::capped(text::trimmed(t.title), MAX_TITLE as nat),
        cwd: text::trimmed(t.cwd),
        command: text::capped(text::trimmed(t.command), MAX_COMMAND as nat),
        ..t
    }
}

/// The tidied task, unless something is wrong with it.
pub open spec fn sanitized(t: TaskModel) -> Option<TaskModel> {
    if fault(tidied(t)) is None {
        Some(tidied(t))
    } else {
        None
    }
}

/// Whether a directory is one that a task may run in; see `usable_path`.
fn valid_path(p: &str) -> (r: bool)
    ensures
        r == usable_path(p@),
{
    (text::begins_with(p, '/') || text::begins_with(p, '~')) && text::bytes_of(p) <= MAX_CWD
        && !text::any_control(p)
}

impl Task {
    /// The tmux session that a launch owns. It is named by its id, so it never
    /// looks like a tmux option.
    pub fn session_name(&self) -> (r: String)
        ensures
            r@ == session_name_of(self.id),
    {
        let number = text::decimal_of(self.id);
        text::cat("clawmon-task-", number.as_str())
    }

    /// Name the first fault of a task, if it has one.
    pub fn validate(&self) -> (r: Result<(), String>)
        ensures
            match fault(self@) {
                Some(m) => r matches Err(e) && e@ == m,
                None => r is Ok,
            },
    {
        if text::is_blank(self.title.as_str()) {
            return Err("标题不能为空".to_owned());
        }
        if text::is_blank(self.cwd.as_str()) || !valid_path(self.cwd.as_str()) {
            return Err("目录必须是 WSL 绝对路径（/ 或 ~ 开头）".to_owned());
        }
        if text::is_blank(self.command.as_str()) {
            return Err("命令不能为空".to_owned());
        }
        Ok(())
    }

    /// Trim the texts, cut them to their lengths, and drop the task if it is
    /// then invalid.
    pub fn sanitize(self) -> (r: Option<Task>)
        ensures
            model::view_opt(r) == sanitized(self@),
    {
        let title = text::trim(self.title.as_str());
        let command = text::trim(self.command.as_str());
        let t = Task {
            id: self.id,
            title: text::truncate(title.as_str(), MAX_TITLE),
            cwd: text::trim(self.cwd.as_str()),
            command: text::truncate(command.as_str(), MAX_COMMAND),
            created_at: self.created_at,
            last_run_at: self.last_run_at,
        };
        match t.validate() {
            Ok(_) => Some(t),
            Err(_) => None,
        }
    }
}

// ---- status ---------------------------------------------------------------

#[derive(Debug, Clone, Copy, PartialEq, Eq, Structural)]
pub enum TaskStatus {
    /// never run, as far as this store knows
    Idle,
    /// launched, and not yet seen by a poll
    Launching,
    /// the task's tmux session is alive
    Running,
    /// the tmux session is gone, or never came up
    Finished,
}

/// A status and since when it holds.
#[derive(Debug, Clone, Copy, PartialEq, Eq, Structural)]
pub struct Runtime {
    pub status: TaskStatus,
    /// epoch seconds of the change into this status
    pub since: i64,
}

/// One row of the task list.
#[derive(Debug)]
pub struct TaskView {
    pub id: u64,
    pub title: String,
    pub cwd: String,
    pub command: String,
    pub status: TaskStatus,
    /// what a terminal attaches to
    pub session_name: String,
    /// the agent session inside the task's tmux session, where there is one
    pub session_id: Option<String>,
    pub pid: Option<i32>,
    pub created_at: i64,
    pub last_run_at: Option<i64>,
}

/// One row of the task list as the contracts see it.
pub struct TaskRow {
    pub id: u64,
    pub title: Seq<char>,
    pub cwd: Seq<char>,
    pub command: Seq<char>,
    pub status: TaskStatus,
    pub session_name: Seq<char>,
    pub session_id: Option<Seq<char>>,
    pub pid: Option<i32>,
    pub created_at: i64,
    pub last_run_at: Option<i64>,
}

impl View for TaskView {
    type V = TaskRow;

    open spec fn view(&self) -> TaskRow {
        TaskRow {
            id: self.id,
            title: self.title@,
            cwd: self.cwd@,
            command: self.command@,
            status: self.status,
            session_name: self.session_name@,
            session_id: model::view_opt(self.session_id),
            pid: self.pid,
            created_at: self.created_at,
            last_run_at: self.last_run_at,
        }
    }
}

impl Clone for TaskView {
    fn clone(&self) -> (r: TaskView)
        ensures
            r == *self,
    {
        TaskView {
            id: self.id,
            title: self.title.clone(),
            cwd: self.cwd.clone(),
            command: self.command.clone(),
            status: self.status,
            session_name: self.session_name.clone(),
            session_id: match &self.session_id {
                Some(s) => Some(s.clone()),
                None => None,
            },
            pid: self.pid,
            created_at: self.created_at,
            last_run_at: self.last_run_at,
        }
    }
}

/// Running tasks come first, then idle ones, then finished ones.
pub open spec fn status_rank(s: TaskStatus) -> int {
    match s {
        TaskStatus::Running | TaskStatus::Launching => 0,
        TaskStatus::Idle => 1,
        TaskStatus::Finished => 2,
    }
}

/// When a task was last run; the beginning of time where it never was.
pub open spec fn last_run(t: Option<i64>) -> int {
    match t {
        Some(n) => n as int,
        None => 0,
    }
}

impl Ranked for TaskView {
    open spec fn key(m: TaskRow) -> (int, int, int) {
        (status_rank(m.status), -last_run(m.last_run_at), m.id as int)
    }

    fn not_after(&self, other: &Self) -> (b: bool) {
        let a: u8 = rank_of(self.status);
        let b: u8 = rank_of(other.status);
        let x: i64 = run_of(self.last_run_at);
        let y: i64 = run_of(other.last_run_at);
        a < b || (a == b && (x > y || (x == y && self.id <= other.id)))
    }
}

fn rank_of(s: TaskStatus) -> (r: u8)
    ensures
        r == status_rank(s),
{
    match s {
        TaskStatus::Running | TaskStatus::Launching => 0,
        TaskStatus::Idle => 1,
        TaskStatus::Finished => 2,
    }
}

fn run_of(t: Option<i64>) -> (r: i64)
    ensures
        r == last_run(t),
{
    match t {
        Some(n) => n,
        None => 0,
    }
}

// ---- the store ------------------------------------------------------------

/// What a task list keeps on disk.
#[derive(Debug)]
pub struct Persisted {
    pub next_id: u64,
    pub tasks: Vec<Task>,
}

/// What a task list keeps on disk, as the contracts see it.
pub struct PersistedModel {
    pub next_id: u64,
    pub tasks: Seq<TaskModel>,
}

impl View for Persisted {
    type V = PersistedModel;

    open spec fn view(&self) -> PersistedModel {
        PersistedModel { next_id: self.next_id, tasks: model::views(self.tasks@) }
    }
}

/// A task list that was never written.
pub open spec fn nothing_persisted() -> PersistedModel {
    PersistedModel { next_id: 1, tasks: Seq::empty() }
}

impl Default for Persisted {
    fn default() -> (r: Persisted)
        ensures
            r@ == nothing_persisted(),
    {
        let r = Persisted { next_id: 1, tasks: Vec::new() };
        proof {
            assert(r@.tasks =~= Seq::empty());
        }
        r
    }
}

/// The task list as the contracts see it.
pub struct StoreModel {
    pub next_id: u64,
    pub tasks: Seq<TaskModel>,
    pub runtime: Map<u64, Runtime>,
}

/// The tasks that are still valid once they are tidied. An id that an earlier
/// task has already, or that leaves no id above it, makes a task invalid too.
pub open spec fn kept(tasks: Seq<TaskModel>) -> Seq<TaskModel>
    decreases tasks.len(),
{
    if tasks.len() == 0 {
        tasks
    } else {
        let before = kept(tasks.drop_last());
        match sanitized(tasks.last()) {
            Some(t) => if t.id < u64::MAX && !has_task(before, t.id) {
                before.push(t)
            } else {
                before
            },
            None => before,
        }
    }
}

/// The least number from `n` on that lies above the id of every task.
pub open spec fn above_ids(tasks: Seq<TaskModel>, n: u64) -> u64
    decreases tasks.len(),
{
    if tasks.len() == 0 {
        n
    } else {
        let before = above_ids(tasks.drop_last(), n);
        if tasks.last().id < before {
            before
        } else {
            (tasks.last().id + 1) as u64
        }
    }
}

/// The store read from disk, or an empty one where nothing could be read. Ids
/// go on above those in the list, whatever the file says.
pub open spec fn loaded(p: Option<PersistedModel>) -> StoreModel {
    let read = match p {
        Some(d) => d,
        None => nothing_persisted(),
    };
    let tasks = kept(read.tasks);
    StoreModel {
        next_id: above_ids(
            tasks,
            if read.next_id < 1 {
                1
            } else {
                read.next_id
            },
        ),
        tasks,
        runtime: Map::empty(),
    }
}

/// The first task with an id.
pub open spec fn first_of(tasks: Seq<TaskModel>, id: u64) -> Option<int>
    decreases tasks.len(),
{
    if tasks.len() == 0 {
        None
    } else {
        let before = first_of(tasks.drop_last(), id);
        if before is Some {
            before
        } else if tasks.last().id == id {
            Some(tasks.len() - 1)
        } else {
            None
        }
    }
}

/// The status of a task; idle where nothing is known of it.
pub open spec fn status_in(m: StoreModel, id: u64) -> TaskStatus {
    if m.runtime.contains_key(id) {
        m.runtime[id].status
    } else {
        TaskStatus::Idle
    }
}

/// Why a task was refused.
pub open spec fn invalid_task() -> Seq<char> {
    "任务不合法：标题/目录/命令不能为空，目录必须是绝对路径"@
}

/// Why nothing was done to a task.
pub open spec fn no_such_task(id: u64) -> Seq<char> {
    "任务 "@ + text::decimal(id as nat) + " 不存在"@
}

/// The task that an addition puts into the list, if it is valid.
pub open spec fn new_task(m: StoreModel, t: TaskModel, now: i64) -> Option<TaskModel> {
    match sanitized(TaskModel { id: 0, created_at: now, ..t }) {
        Some(u) => Some(TaskModel { id: m.next_id, ..u }),
        None => None,
    }
}

/// The store after an addition.
pub open spec fn after_add(m: StoreModel, t: TaskModel, now: i64) -> StoreModel {
    match new_task(m, t, now) {
        Some(u) => StoreModel {
            next_id: (m.next_id + 1) as u64,
            tasks: m.tasks.push(u),
            ..m
        },
        None => m,
    }
}

/// The outcome of an edit.
pub open spec fn edit_result(m: StoreModel, id: u64, t: TaskModel) -> Result<(), Seq<char>> {
    if sanitized(TaskModel { id, ..t }) is None {
        Err(invalid_task())
    } else if first_of(m.tasks, id) is None {
        Err(no_such_task(id))
    } else {
        Ok(())
    }
}

/// The store after an edit.
pub open spec fn after_edit(m: StoreModel, id: u64, t: TaskModel) -> StoreModel {
    if edit_result(m, id, t) is Ok {
        StoreModel {
            tasks: m.tasks.update(first_of(m.tasks, id)->0, sanitized(TaskModel { id, ..t })->0),
            ..m
        }
    } else {
        m
    }
}

/// The tasks with another id.
pub open spec fn without(tasks: Seq<TaskModel>, id: u64) -> Seq<TaskModel>
    decreases tasks.len(),
{
    if tasks.len() == 0 {
        tasks
    } else if tasks.last().id == id {
        without(tasks.drop_last(), id)
    } else {
        without(tasks.drop_last(), id).push(tasks.last())
    }
}

/// The outcome of a removal.
pub open spec fn remove_result(m: StoreModel, id: u64) -> Result<(), Seq<char>> {
    if has_task(m.tasks, id) {
        Ok(())
    } else {
        Err(no_such_task(id))
    }
}

/// The store after a removal.
pub open spec fn after_remove(m: StoreModel, id: u64) -> StoreModel {
    StoreModel { tasks: without(m.tasks, id), runtime: m.runtime.remove(id), ..m }
}

/// The task to launch, or why it cannot be launched.
pub open spec fn launch_result(m: StoreModel, id: u64) -> Result<TaskModel, Seq<char>> {
    match status_in(m, id) {
        TaskStatus::Launching => Err("任务正在启动中"@),
        TaskStatus::Running => Err("任务已在运行"@),
        _ => match first_of(m.tasks, id) {
            Some(i) => Ok(m.tasks[i]),
            None => Err(no_such_task(id)),
        },
    }
}

/// The store after a launch was booked, or refused.
pub open spec fn after_launch(m: StoreModel, id: u64, now: i64) -> StoreModel {
    if launch_result(m, id) is Ok {
        let i = first_of(m.tasks, id)->0;
        StoreModel {
            tasks: m.tasks.update(i, TaskModel { last_run_at: Some(now), ..m.tasks[i] }),
            runtime: m.runtime.insert(id, Runtime { status: TaskStatus::Launching, since: now }),
            ..m
        }
    } else {
        m
    }
}

/// The store after a task has come to its end.
pub open spec fn after_end(m: StoreModel, id: u64, now: i64) -> StoreModel {
    StoreModel {
        runtime: m.runtime.insert(id, Runtime { status: TaskStatus::Finished, since: now }),
        ..m
    }
}

/// The task to stop, or why it cannot be stopped.
pub open spec fn stop_result(m: StoreModel, id: u64) -> Result<TaskModel, Seq<char>> {
    match status_in(m, id) {
        TaskStatus::Launching | TaskStatus::Running => match first_of(m.tasks, id) {
            Some(i) => Ok(m.tasks[i]),
            None => Err(no_such_task(id)),
        },
        _ => Err("任务未在运行"@),
    }
}

/// The store after a stop was booked, or refused.
pub open spec fn after_stop(m: StoreModel, id: u64, now: i64) -> StoreModel {
    if stop_result(m, id) is Ok {
        after_end(m, id, now)
    } else {
        m
    }
}

/// Whether a task is in the list.
pub open spec fn has_task(tasks: Seq<TaskModel>, id: u64) -> bool {
    exists|i: int| 0 <= i < tasks.len() && (#[trigger] tasks[i]).id == id
}

/// What is known of a task.
pub open spec fn known(runtime: Map<u64, Runtime>, id: u64) -> Option<Runtime> {
    if runtime.contains_key(id) {
        Some(runtime[id])
    } else {
        None
    }
}

/// What one poll makes of a task: a live session means running, a session that
/// is gone means finished, and so does a launch that never came up in time. A
/// live session that nothing was known of is adopted.
pub open spec fn polled_runtime(r: Option<Runtime>, alive: bool, now: i64) -> Option<Runtime> {
    match r {
        None => if alive {
            Some(Runtime { status: TaskStatus::Running, since: now })
        } else {
            None
        },
        Some(rt) => match rt.status {
            TaskStatus::Launching => if alive {
                Some(Runtime { status: TaskStatus::Running, since: now })
            } else if now - rt.since >= LAUNCH_GRACE_SECS {
                Some(Runtime { status: TaskStatus::Finished, since: now })
            } else {
                Some(rt)
            },
            TaskStatus::Running => if alive {
                Some(rt)
            } else {
                Some(Runtime { status: TaskStatus::Finished, since: now })
            },
            TaskStatus::Idle | TaskStatus::Finished => Some(rt),
        },
    }
}

/// What is known of a task after a poll, where it is in the list.
pub open spec fn polled_task(
    runtime: Map<u64, Runtime>,
    id: u64,
    live: Seq<Seq<char>>,
    now: i64,
) -> Option<Runtime> {
    polled_runtime(known(runtime, id), live.contains(session_name_of(id)), now)
}

/// What is known of all tasks after a poll.
pub open spec fn reconciled(
    runtime: Map<u64, Runtime>,
    tasks: Seq<TaskModel>,
    live: Seq<Seq<char>>,
    now: i64,
) -> Map<u64, Runtime> {
    Map::new(
        |id: u64|
            if has_task(tasks, id) {
                polled_task(runtime, id, live, now) is Some
            } else {
                runtime.contains_key(id)
            },
        |id: u64|
            if has_task(tasks, id) {
                polled_task(runtime, id, live, now)->0
            } else {
                runtime[id]
            },
    )
}

/// The store after a poll.
pub open spec fn after_poll(m: StoreModel, live: Seq<Seq<char>>, now: i64) -> StoreModel {
    StoreModel { runtime: reconciled(m.runtime, m.tasks, live, now), ..m }
}

/// How long each pending launch has lasted fits a machine integer.
pub open spec fn launches_fit(m: StoreModel, live: Seq<Seq<char>>, now: i64) -> bool {
    forall|i: int| 0 <= i < m.tasks.len() ==> #[trigger] launch_fits(m, live, now, m.tasks[i].id)
}

/// How long a pending launch has lasted fits a machine integer.
pub open spec fn launch_fits(m: StoreModel, live: Seq<Seq<char>>, now: i64, id: u64) -> bool {
    status_in(m, id) == TaskStatus::Launching && !live.contains(session_name_of(id)) ==> i64::MIN
        <= now - m.runtime[id].since <= i64::MAX
}

/// The first session that sits in a tmux session.
pub open spec fn linked(sessions: Seq<RawModel>, name: Seq<char>) -> Option<RawModel>
    decreases sessions.len(),
{
    if sessions.len() == 0 {
        None
    } else {
        let before = linked(sessions.drop_last(), name);
        if before is Some {
            before
        } else if sits_in(sessions.last(), name) {
            Some(sessions.last())
        } else {
            None
        }
    }
}

/// Whether a session sits in a tmux session.
pub open spec fn sits_in(s: RawModel, name: Seq<char>) -> bool {
    match s.tmux {
        Some(m) => m.session == name,
        None => false,
    }
}

/// The row of one task.
pub open spec fn task_row(m: StoreModel, t: TaskModel, sessions: Seq<RawModel>) -> TaskRow {
    let inside = linked(sessions, session_name_of(t.id));
    TaskRow {
        id: t.id,
        title: t.title,
        cwd: t.cwd,
        command: t.command,
        status: status_in(m, t.id),
        session_name: session_name_of(t.id),
        session_id: match inside {
            Some(s) => if s.session_id.len() == 0 {
                None
            } else {
                Some(s.session_id)
            },
            None => None,
        },
        pid: match inside {
            Some(s) => Some(s.pid),
            None => None,
        },
        created_at: t.created_at,
        last_run_at: t.last_run_at,
    }
}

/// The rows of all tasks, in the order of the list.
pub open spec fn task_rows(m: StoreModel, sessions: Seq<RawModel>) -> Seq<TaskRow> {
    Seq::new(m.tasks.len(), |i: int| task_row(m, m.tasks[i], sessions))
}

/// A task as the store holds it: valid, within its lengths, and not starting
/// in white space.
pub open spec fn clean(t: TaskModel) -> bool {
    &&& fault(t) is None
    &&& t.title.len() <= MAX_TITLE
    &&& t.command.len() <= MAX_COMMAND
    &&& !text::white(t.title[0])
    &&& !text::white(t.command[0])
    &&& text::tight(t.cwd)
}

/// Every id in the list is one that was handed out.
pub open spec fn ids_handed_out(m: StoreModel) -> bool {
    forall|i: int| 0 <= i < m.tasks.len() ==> (#[trigger] m.tasks[i]).id < m.next_id
}

/// No id is in the list twice.
pub open spec fn ids_distinct(tasks: Seq<TaskModel>) -> bool {
    forall|i: int, j: int|
        0 <= i < j < tasks.len() ==> (#[trigger] tasks[i]).id != (#[trigger] tasks[j]).id
}

/// Every task of a store is clean, ids start at one, are handed out in order
/// and stay unique, and nothing is noted of a task that is merely idle.
pub open spec fn orderly(m: StoreModel) -> bool {
    &&& m.next_id >= 1
    &&& forall|i: int| 0 <= i < m.tasks.len() ==> clean(#[trigger] m.tasks[i])
    &&& ids_handed_out(m)
    &&& ids_distinct(m.tasks)
    &&& forall|id: u64| #[trigger]
        m.runtime.contains_key(id) ==> m.runtime[id].status != TaskStatus::Idle
}

/// A sanitized task is clean.
pub proof fn lemma_sanitized_is_clean(t: TaskModel)
    requires
        sanitized(t) is Some,
    ensures
        clean(sanitized(t)->0),
{
    let u = tidied(t);
    text::lemma_trimmed(t.title);
    text::lemma_trimmed(t.cwd);
    text::lemma_trimmed(t.command);
    assert(u.title.len() > 0) by {
        if u.title.len() == 0 {
            assert(text::blank(u.title));
        }
    }
    assert(u.command.len() > 0) by {
        if u.command.len() == 0 {
            assert(text::blank(u.command));
        }
    }
}

/// What is kept of some tasks: clean tasks with unique ids.
pub proof fn lemma_kept(all: Seq<TaskModel>)
    ensures
        forall|i: int|
            0 <= i < kept(all).len() ==> clean(#[trigger] kept(all)[i]) && kept(all)[i].id
                < u64::MAX,
        ids_distinct(kept(all)),
    decreases all.len(),
{
    if all.len() > 0 {
        let before = kept(all.drop_last());
        let after = kept(all);
        lemma_kept(all.drop_last());
        if sanitized(all.last()) is Some {
            lemma_sanitized_is_clean(all.last());
        }
        assert forall|i: int| 0 <= i < after.len() implies clean(#[trigger] after[i])
            && after[i].id < u64::MAX by {
            if i < before.len() {
                assert(after[i] == before[i]);
            }
        }
        assert forall|i: int, j: int| 0 <= i < j < after.len() implies (#[trigger] after[i]).id != (
        #[trigger] after[j]).id by {
            assert(after[i] == before[i]);
            if j < before.len() {
                assert(after[j] == before[j]);
            }
        }
    }
}

/// Where `above_ids` lies: above every id, and at `n` where that is enough.
pub proof fn lemma_above_ids(tasks: Seq<TaskModel>, n: u64)
    requires
        forall|i: int| 0 <= i < tasks.len() ==> (#[trigger] tasks[i]).id < u64::MAX,
    ensures
        above_ids(tasks, n) >= n,
        forall|i: int| 0 <= i < tasks.len() ==> (#[trigger] tasks[i]).id < above_ids(tasks, n),
        (forall|i: int| 0 <= i < tasks.len() ==> (#[trigger] tasks[i]).id < n) ==> above_ids(
            tasks,
            n,
        ) == n,
    decreases tasks.len(),
{
    if tasks.len() > 0 {
        let front = tasks.drop_last();
        assert(tasks[tasks.len() - 1].id < u64::MAX);
        assert forall|i: int| 0 <= i < front.len() implies (#[trigger] front[i]).id < u64::MAX by {
            assert(front[i] == tasks[i]);
        }
        lemma_above_ids(front, n);
        assert forall|i: int| 0 <= i < tasks.len() implies (#[trigger] tasks[i]).id < above_ids(
            tasks,
            n,
        ) by {
            if i < front.len() {
                assert(front[i] == tasks[i]);
            }
        }
        if forall|i: int| 0 <= i < tasks.len() ==> (#[trigger] tasks[i]).id < n {
            assert forall|i: int| 0 <= i < front.len() implies (#[trigger] front[i]).id < n by {
                assert(front[i] == tasks[i]);
            }
            assert(tasks[tasks.len() - 1].id < n);
        }
    }
}

/// Whatever was on disk, a store that is loaded is orderly.
pub proof fn lemma_loaded_is_orderly(p: Option<PersistedModel>)
    ensures
        orderly(loaded(p)),
{
    let read = match p {
        Some(d) => d,
        None => nothing_persisted(),
    };
    lemma_kept(read.tasks);
    lemma_above_ids(
        kept(read.tasks),
        if read.next_id < 1 {
            1
        } else {
            read.next_id
        },
    );
}

/// An addition keeps a store orderly.
pub proof fn lemma_add_keeps(m: StoreModel, t: TaskModel, now: i64)
    requires
        orderly(m),
        new_task(m, t, now) is Some ==> m.next_id < u64::MAX,
    ensures
        orderly(after_add(m, t, now)),
{
    let asked = TaskModel { id: 0, created_at: now, ..t };
    let after = after_add(m, t, now);
    if sanitized(asked) is Some {
        lemma_sanitized_is_clean(asked);
        assert forall|i: int| 0 <= i < after.tasks.len() implies clean(#[trigger] after.tasks[i])
            && after.tasks[i].id < after.next_id by {
            if i < m.tasks.len() {
                assert(after.tasks[i] == m.tasks[i]);
            }
        }
        assert forall|i: int, j: int| 0 <= i < j < after.tasks.len() implies (
        #[trigger] after.tasks[i]).id != (#[trigger] after.tasks[j]).id by {
            assert(after.tasks[i] == m.tasks[i]);
            if j < m.tasks.len() {
                assert(after.tasks[j] == m.tasks[j]);
            }
        }
    }
}

/// An edit keeps a store orderly.
pub proof fn lemma_edit_keeps(m: StoreModel, id: u64, t: TaskModel)
    requires
        orderly(m),
    ensures
        orderly(after_edit(m, id, t)),
{
    lemma_first_of(m.tasks, id);
    let asked = TaskModel { id, ..t };
    if edit_result(m, id, t) is Ok {
        lemma_sanitized_is_clean(asked);
        let after = after_edit(m, id, t).tasks;
        assert forall|i: int| 0 <= i < after.len() implies (#[trigger] after[i]).id
            == m.tasks[i].id by {}
        assert forall|i: int, j: int| 0 <= i < j < after.len() implies (#[trigger] after[i]).id != (
        #[trigger] after[j]).id by {
            assert(m.tasks[i].id != m.tasks[j].id);
        }
    }
}

/// A removal keeps a store orderly.
pub proof fn lemma_remove_keeps(m: StoreModel, id: u64)
    requires
        orderly(m),
    ensures
        orderly(after_remove(m, id)),
{
    lemma_without(m.tasks, id);
    lemma_without_is_distinct(m.tasks, id);
    let left = after_remove(m, id).tasks;
    assert forall|i: int| 0 <= i < left.len() implies clean(#[trigger] left[i]) && left[i].id
        < m.next_id by {
        let k = choose|k: int| 0 <= k < m.tasks.len() && m.tasks[k] == left[i];
        assert(clean(m.tasks[k]));
    }
}

proof fn lemma_without_is_distinct(tasks: Seq<TaskModel>, id: u64)
    requires
        ids_distinct(tasks),
    ensures
        ids_distinct(without(tasks, id)),
    decreases tasks.len(),
{
    if tasks.len() > 0 {
        let front = tasks.drop_last();
        let rest = without(front, id);
        let left = without(tasks, id);
        assert forall|i: int, j: int| 0 <= i < j < front.len() implies (#[trigger] front[i]).id != (
        #[trigger] front[j]).id by {
            assert(tasks[i].id != tasks[j].id);
        }
        lemma_without_is_distinct(front, id);
        lemma_without(front, id);
        assert forall|i: int, j: int| 0 <= i < j < left.len() implies (#[trigger] left[i]).id != (
        #[trigger] left[j]).id by {
            assert(left[i] == rest[i]);
            if j < rest.len() {
                assert(left[j] == rest[j]);
            } else {
                let k = choose|k: int| 0 <= k < front.len() && front[k] == rest[i];
                assert(tasks[k].id != tasks[tasks.len() - 1].id);
            }
        }
    }
}

/// Booking a launch keeps a store orderly.
pub proof fn lemma_launch_keeps(m: StoreModel, id: u64, now: i64)
    requires
        orderly(m),
    ensures
        orderly(after_launch(m, id, now)),
{
    lemma_first_of(m.tasks, id);
    if launch_result(m, id) is Ok {
        let after = after_launch(m, id, now).tasks;
        assert forall|i: int| 0 <= i < after.len() implies (#[trigger] after[i]).id
            == m.tasks[i].id && clean(after[i]) by {
            assert(clean(m.tasks[i]));
        }
        assert forall|i: int, j: int| 0 <= i < j < after.len() implies (#[trigger] after[i]).id != (
        #[trigger] after[j]).id by {
            assert(m.tasks[i].id != m.tasks[j].id);
        }
    }
}

/// The end of a run, and a stop, keep a store orderly.
pub proof fn lemma_end_keeps(m: StoreModel, id: u64, now: i64)
    requires
        orderly(m),
    ensures
        orderly(after_end(m, id, now)),
        orderly(after_stop(m, id, now)),
{
}

/// A poll keeps a store orderly.
pub proof fn lemma_poll_keeps(m: StoreModel, live: Seq<Seq<char>>, now: i64)
    requires
        orderly(m),
    ensures
        orderly(after_poll(m, live, now)),
{
    let after = after_poll(m, live, now);
    assert forall|id: u64| #[trigger] after.runtime.contains_key(id) implies after.runtime[id].status
        != TaskStatus::Idle by {
        if m.runtime.contains_key(id) {
            assert(m.runtime[id].status != TaskStatus::Idle);
        }
    }
}

/// Where the first task with an id stands.
pub proof fn lemma_first_of(tasks: Seq<TaskModel>, id: u64)
    ensures
        match first_of(tasks, id) {
            Some(i) => {
                &&& 0 <= i < tasks.len()
                &&& tasks[i].id == id
                &&& forall|j: int| 0 <= j < i ==> (#[trigger] tasks[j]).id != id
            },
            None => forall|j: int| 0 <= j < tasks.len() ==> (#[trigger] tasks[j]).id != id,
        },
        first_of(tasks, id) is Some <==> has_task(tasks, id),
    decreases tasks.len(),
{
    if tasks.len() > 0 {
        let front = tasks.drop_last();
        lemma_first_of(front, id);
        assert forall|j: int| 0 <= j < front.len() implies #[trigger] tasks[j] == front[j] by {}
    }
}

proof fn lemma_first_stays(tasks: Seq<TaskModel>, n: int, id: u64)
    requires
        0 <= n <= tasks.len(),
        first_of(tasks.take(n), id) is Some,
    ensures
        first_of(tasks, id) == first_of(tasks.take(n), id),
    decreases tasks.len(),
{
    if n == tasks.len() {
        model::lemma_take_all(tasks);
    } else {
        assert(tasks.drop_last().take(n) =~= tasks.take(n));
        lemma_first_stays(tasks.drop_last(), n, id);
    }
}

proof fn lemma_has_task_step(tasks: Seq<TaskModel>, n: int)
    requires
        0 <= n < tasks.len(),
    ensures
        forall|id: u64| #[trigger]
            has_task(tasks.take(n + 1), id) == (has_task(tasks.take(n), id) || id == tasks[n].id),
{
    let a = tasks.take(n);
    let b = tasks.take(n + 1);
    assert forall|id: u64| #[trigger] has_task(b, id) == (has_task(a, id) || id == tasks[n].id) by {
        if has_task(b, id) {
            let k = choose|k: int| 0 <= k < b.len() && (#[trigger] b[k]).id == id;
            if k < n {
                assert(a[k].id == id);
            }
        }
        if has_task(a, id) {
            let k = choose|k: int| 0 <= k < a.len() && (#[trigger] a[k]).id == id;
            assert(b[k].id == id);
        }
        if id == tasks[n].id {
            assert(b[n].id == id);
        }
    }
}

proof fn lemma_linked_stays(sessions: Seq<RawModel>, n: int, name: Seq<char>)
    requires
        0 <= n <= sessions.len(),
        linked(sessions.take(n), name) is Some,
    ensures
        linked(sessions, name) == linked(sessions.take(n), name),
    decreases sessions.len(),
{
    if n == sessions.len() {
        model::lemma_take_all(sessions);
    } else {
        assert(sessions.drop_last().take(n) =~= sessions.take(n));
        lemma_linked_stays(sessions.drop_last(), n, name);
    }
}

pub(crate) fn absent(id: u64) -> (r: String)
    ensures
        r@ == no_such_task(id),
{
    let number = text::decimal_of(id);
    text::cat3("任务 ", number.as_str(), " 不存在")
}

fn refused() -> (r: String)
    ensures
        r@ == invalid_task(),
{
    "任务不合法：标题/目录/命令不能为空，目录必须是绝对路径".to_owned()
}

fn is_live(names: &[String], name: &str) -> (r: bool)
    ensures
        r == model::views(names@).contains(name@),
{
    let ghost all = model::views(names@);
    let mut i: usize = 0;
    while i < names.len()
        invariant
            i <= names@.len(),
            all == model::views(names@),
            forall|k: int| 0 <= k < i ==> #[trigger] all[k] != name@,
        decreases names@.len() - i,
    {
        if text::same(names[i].as_str(), name) {
            assert(all[i as int] == name@);
            return true;
        }
        i = i + 1;
    }
    false
}

fn is_listed(tasks: &Vec<Task>, id: u64) -> (r: bool)
    ensures
        r == has_task(model::views(tasks@), id),
{
    let ghost all = model::views(tasks@);
    let mut i: usize = 0;
    while i < tasks.len()
        invariant
            i <= tasks@.len(),
            all == model::views(tasks@),
            forall|k: int| 0 <= k < i ==> (#[trigger] all[k]).id != id,
        decreases tasks@.len() - i,
    {
        if tasks[i].id == id {
            assert(all[i as int].id == id);
            return true;
        }
        i = i + 1;
    }
    false
}

/// The least number from `n` on above the id of every task; see `above_ids`.
fn next_above(tasks: &Vec<Task>, n: u64) -> (r: u64)
    requires
        forall|i: int| 0 <= i < tasks@.len() ==> (#[trigger] model::views(tasks@)[i]).id < u64::MAX,
    ensures
        r == above_ids(model::views(tasks@), n),
{
    let ghost all = model::views(tasks@);
    let mut next: u64 = n;
    let mut i: usize = 0;
    proof {
        assert(all.take(0) =~= Seq::empty());
    }
    while i < tasks.len()
        invariant
            i <= tasks@.len(),
            all == model::views(tasks@),
            forall|k: int| 0 <= k < all.len() ==> (#[trigger] all[k]).id < u64::MAX,
            next == above_ids(all.take(i as int), n),
        decreases tasks@.len() - i,
    {
        proof {
            model::lemma_take_step(all, i as int);
            assert(all[i as int].id < u64::MAX);
        }
        if tasks[i].id >= next {
            next = tasks[i].id + 1;
        }
        i = i + 1;
    }
    proof {
        model::lemma_take_all(all);
    }
    next
}

/// The first session that sits in a tmux session; see `linked`.
fn link<'a>(sessions: &'a [RawSession], name: &str) -> (r: Option<&'a RawSession>)
    ensures
        model::view_opt(r) == linked(model::views(sessions@), name@),
{
    let ghost all = model::views(sessions@);
    let mut i: usize = 0;
    proof {
        assert(all.take(0) =~= Seq::empty());
    }
    while i < sessions.len()
        invariant
            i <= sessions@.len(),
            all == model::views(sessions@),
            linked(all.take(i as int), name@) is None,
        decreases sessions@.len() - i,
    {
        proof {
            model::lemma_take_step(all, i as int);
        }
        if let Some(m) = &sessions[i].tmux {
            if text::same(m.session.as_str(), name) {
                proof {
                    lemma_linked_stays(all, i + 1, name@);
                }
                return Some(&sessions[i]);
            }
        }
        i = i + 1;
    }
    proof {
        model::lemma_take_all(all);
    }
    None
}

/// The task list: definitions, and what is known of their runs.
#[derive(Debug)]
pub struct TaskStore {
    next_id: u64,
    tasks: Vec<Task>,
    runtime: HashMap<u64, Runtime>,
}

impl View for TaskStore {
    type V = StoreModel;

    closed spec fn view(&self) -> StoreModel {
        StoreModel {
            next_id: self.next_id,
            tasks: model::views(self.tasks@),
            runtime: self.runtime@,
        }
    }
}

impl TaskStore {
    /// The store is orderly; see `orderly`.
    pub open spec fn wf(self) -> bool {
        orderly(self@)
    }

    /// The store from what was read from disk: entries that are not valid
    /// tasks are dropped, so are ids that repeat, and nothing readable means an
    /// empty list.
    pub fn load(decoded: Option<Persisted>) -> (r: TaskStore)
        ensures
            r@ == loaded(model::view_opt(decoded)),
            r.wf(),
    {
        proof {
            lemma_loaded_is_orderly(model::view_opt(decoded));
        }
        let persisted = match decoded {
            Some(p) => p,
            None => Persisted::default(),
        };
        let ghost all = model::views(persisted.tasks@);
        let mut tasks: Vec<Task> = Vec::new();
        let mut i: usize = 0;
        proof {
            assert(model::views(tasks@) =~= kept(all.take(0)));
        }
        while i < persisted.tasks.len()
            invariant
                i <= persisted.tasks@.len(),
                all == model::views(persisted.tasks@),
                model::views(tasks@) == kept(all.take(i as int)),
            decreases persisted.tasks@.len() - i,
        {
            proof {
                model::lemma_take_step(all, i as int);
            }
            if let Some(t) = persisted.tasks[i].clone().sanitize() {
                if t.id < u64::MAX && !is_listed(&tasks, t.id) {
                    proof {
                        model::lemma_views_push(tasks@, t);
                    }
                    tasks.push(t);
                }
            }
            i = i + 1;
        }
        proof {
            model::lemma_take_all(all);
            lemma_kept(all);
        }
        let least: u64 = if persisted.next_id < 1 {
            1
        } else {
            persisted.next_id
        };
        let next_id: u64 = next_above(&tasks, least);
        TaskStore { next_id, tasks, runtime: HashMap::new() }
    }

    /// What is to be written to disk.
    pub fn persisted(&self) -> (r: Persisted)
        ensures
            r@ == (PersistedModel { next_id: self@.next_id, tasks: self@.tasks }),
    {
        let tasks = self.tasks.clone();
        proof {
            assert(tasks@ =~= self.tasks@);
        }
        Persisted { next_id: self.next_id, tasks }
    }

    /// The definitions.
    pub fn tasks(&self) -> (r: &[Task])
        ensures
            model::views(r@) == self@.tasks,
    {
        self.tasks.as_slice()
    }

    /// The id that the next task gets.
    pub fn next_id(&self) -> (r: u64)
        ensures
            r == self@.next_id,
    {
        self.next_id
    }

    pub fn status_of(&self, id: u64) -> (r: TaskStatus)
        ensures
            r == status_in(self@, id),
    {
        match self.runtime.get(&id) {
            Some(r) => r.status,
            None => TaskStatus::Idle,
        }
    }

    /// Where the first task with an id stands; see `first_of`.
    fn index_of(&self, id: u64) -> (r: Option<usize>)
        ensures
            match r {
                Some(i) => first_of(self@.tasks, id) == Some(i as int),
                None => first_of(self@.tasks, id) is None,
            },
    {
        let ghost all = self@.tasks;
        let mut i: usize = 0;
        proof {
            assert(all.take(0) =~= Seq::empty());
        }
        while i < self.tasks.len()
            invariant
                i <= self.tasks@.len(),
                all == self@.tasks,
                first_of(all.take(i as int), id) is None,
            decreases self.tasks@.len() - i,
        {
            proof {
                model::lemma_take_step(all, i as int);
                assert(all[i as int] == self.tasks@[i as int]@);
            }
            if self.tasks[i].id == id {
                proof {
                    lemma_first_stays(all, i + 1, id);
                }
                return Some(i);
            }
            i = i + 1;
        }
        proof {
            model::lemma_take_all(all);
        }
        None
    }

    /// The tmux session of a task, where it is in the list.
    pub fn session_of(&self, id: u64) -> (r: Option<String>)
        ensures
            model::view_opt(r) == (if has_task(self@.tasks, id) {
                Some(session_name_of(id))
            } else {
                None
            }),
    {
        proof {
            lemma_first_of(self@.tasks, id);
        }
        match self.index_of(id) {
            Some(i) => {
                proof {
                    assert(self@.tasks[i as int] == self.tasks@[i as int]@);
                }
                Some(self.tasks[i].session_name())
            },
            None => None,
        }
    }

    /// Put a task into the list. Its id and its creation time are set here.
    pub fn add(&mut self, task: Task, now: i64) -> (r: Result<Task, String>)
        requires
            new_task(old(self)@, task@, now) is Some ==> old(self)@.next_id < u64::MAX,
        ensures
            match new_task(old(self)@, task@, now) {
                Some(t) => r matches Ok(u) && u@ == t,
                None => r matches Err(e) && e@ == invalid_task(),
            },
            final(self)@ == after_add(old(self)@, task@, now),
            old(self).wf() ==> final(self).wf(),
    {
        proof {
            if self.wf() {
                lemma_add_keeps(self@, task@, now);
            }
        }
        let mut t = task;
        t.id = 0;
        t.created_at = now;
        match t.sanitize() {
            Some(u) => {
                let mut u = u;
                u.id = self.next_id;
                self.next_id = self.next_id + 1;
                proof {
                    model::lemma_views_push(self.tasks@, u);
                }
                self.tasks.push(u.clone());
                proof {
                    assert(self@ =~= after_add(old(self)@, task@, now));
                }
                Ok(u)
            },
            None => Err(refused()),
        }
    }

    /// Replace the definition of a task; the id stays.
    pub fn update(&mut self, id: u64, task: Task) -> (r: Result<(), String>)
        ensures
            match edit_result(old(self)@, id, task@) {
                Ok(_) => r is Ok,
                Err(m) => r matches Err(e) && e@ == m,
            },
            final(self)@ == after_edit(old(self)@, id, task@),
            old(self).wf() ==> final(self).wf(),
    {
        proof {
            if self.wf() {
                lemma_edit_keeps(self@, id, task@);
            }
        }
        let mut t = task;
        t.id = id;
        match t.sanitize() {
            Some(u) => match self.index_of(id) {
                Some(i) => {
                    proof {
                        lemma_first_of(self@.tasks, id);
                        assert(model::views(self.tasks@.update(i as int, u)) =~= model::views(
                            self.tasks@,
                        ).update(i as int, u@));
                    }
                    self.tasks.set(i, u);
                    Ok(())
                },
                None => Err(absent(id)),
            },
            None => Err(refused()),
        }
    }

    /// Take a task out of the list. Its tmux session is left alone: deleting
    /// the row does not stop the work.
    pub fn remove(&mut self, id: u64) -> (r: Result<(), String>)
        ensures
            match remove_result(old(self)@, id) {
                Ok(_) => r is Ok,
                Err(m) => r matches Err(e) && e@ == m,
            },
            final(self)@ == after_remove(old(self)@, id),
            old(self).wf() ==> final(self).wf(),
    {
        proof {
            if self.wf() {
                lemma_remove_keeps(self@, id);
            }
        }
        let ghost all = self@.tasks;
        let before: usize = self.tasks.len();
        let mut left: Vec<Task> = Vec::new();
        let mut i: usize = 0;
        proof {
            assert(model::views(left@) =~= without(all.take(0), id));
        }
        while i < self.tasks.len()
            invariant
                i <= self.tasks@.len(),
                self@ == old(self)@,
                all == self@.tasks,
                model::views(left@) == without(all.take(i as int), id),
            decreases self.tasks@.len() - i,
        {
            proof {
                model::lemma_take_step(all, i as int);
                assert(all[i as int] == self.tasks@[i as int]@);
                model::lemma_views_push(left@, self.tasks@[i as int]);
            }
            if self.tasks[i].id != id {
                left.push(self.tasks[i].clone());
            }
            i = i + 1;
        }
        proof {
            model::lemma_take_all(all);
            lemma_without(all, id);
        }
        self.tasks = left;
        self.runtime.remove(&id);
        proof {
            assert(self@.runtime =~= old(self)@.runtime.remove(id));
        }
        if self.tasks.len() == before {
            Err(absent(id))
        } else {
            Ok(())
        }
    }

    /// Book a launch, before tmux is asked for a session: a second click finds
    /// the task launching and is refused.
    pub fn claim_launch(&mut self, id: u64, now: i64) -> (r: Result<Task, String>)
        ensures
            match launch_result(old(self)@, id) {
                Ok(t) => r matches Ok(u) && u@ == t,
                Err(m) => r matches Err(e) && e@ == m,
            },
            final(self)@ == after_launch(old(self)@, id, now),
            old(self).wf() ==> final(self).wf(),
    {
        proof {
            if self.wf() {
                lemma_launch_keeps(self@, id, now);
            }
        }
        match self.status_of(id) {
            TaskStatus::Launching => {
                return Err("任务正在启动中".to_owned());
            },
            TaskStatus::Running => {
                return Err("任务已在运行".to_owned());
            },
            TaskStatus::Idle | TaskStatus::Finished => {},
        }
        match self.index_of(id) {
            Some(i) => {
                proof {
                    lemma_first_of(self@.tasks, id);
                }
                let task = self.tasks[i].clone();
                self.runtime.insert(id, Runtime { status: TaskStatus::Launching, since: now });
                // remembered even if the launch fails at once
                let mut run = task.clone();
                run.last_run_at = Some(now);
                proof {
                    assert(model::views(self.tasks@.update(i as int, run)) =~= model::views(
                        self.tasks@,
                    ).update(i as int, run@));
                    assert(old(self)@.tasks[i as int] == task@);
                }
                self.tasks.set(i, run);
                Ok(task)
            },
            None => Err(absent(id)),
        }
    }

    /// The launch did not come about: the task can be launched again.
    pub fn launch_failed(&mut self, id: u64, now: i64)
        ensures
            final(self)@ == after_end(old(self)@, id, now),
            old(self).wf() ==> final(self).wf(),
    {
        proof {
            if self.wf() {
                lemma_end_keeps(self@, id, now);
            }
        }
        self.runtime.insert(id, Runtime { status: TaskStatus::Finished, since: now });
    }

    /// Book a stop, before tmux is asked to end the session.
    pub fn claim_stop(&mut self, id: u64, now: i64) -> (r: Result<Task, String>)
        ensures
            match stop_result(old(self)@, id) {
                Ok(t) => r matches Ok(u) && u@ == t,
                Err(m) => r matches Err(e) && e@ == m,
            },
            final(self)@ == after_stop(old(self)@, id, now),
            old(self).wf() ==> final(self).wf(),
    {
        proof {
            if self.wf() {
                lemma_end_keeps(self@, id, now);
            }
        }
        match self.status_of(id) {
            TaskStatus::Launching | TaskStatus::Running => {},
            TaskStatus::Idle | TaskStatus::Finished => {
                return Err("任务未在运行".to_owned());
            },
        }
        match self.index_of(id) {
            Some(i) => {
                proof {
                    lemma_first_of(self@.tasks, id);
                    assert(self@.tasks[i as int] == self.tasks@[i as int]@);
                }
                let task = self.tasks[i].clone();
                self.runtime.insert(id, Runtime { status: TaskStatus::Finished, since: now });
                Ok(task)
            },
            None => Err(absent(id)),
        }
    }

    /// Whether a poll stays within machine integers; see `launches_fit`.
    pub fn reconcile_fits(&self, tmux_sessions: &[String], now: i64) -> (r: bool)
        ensures
            r == launches_fit(self@, model::views(tmux_sessions@), now),
    {
        let ghost live = model::views(tmux_sessions@);
        let mut i: usize = 0;
        while i < self.tasks.len()
            invariant
                i <= self.tasks@.len(),
                live == model::views(tmux_sessions@),
                forall|k: int|
                    0 <= k < i ==> #[trigger] launch_fits(self@, live, now, self@.tasks[k].id),
            decreases self.tasks@.len() - i,
        {
            proof {
                assert(self@.tasks[i as int] == self.tasks@[i as int]@);
            }
            let name = self.tasks[i].session_name();
            if let Some(rt) = self.runtime.get(&self.tasks[i].id) {
                if rt.status == TaskStatus::Launching && !is_live(tmux_sessions, name.as_str()) {
                    let age: i128 = now as i128 - rt.since as i128;
                    if age < i64::MIN as i128 || age > i64::MAX as i128 {
                        assert(!launch_fits(self@, live, now, self@.tasks[i as int].id));
                        return false;
                    }
                }
            }
            i = i + 1;
        }
        true
    }

    /// Fold the tmux sessions that one poll found into what is known of the
    /// tasks.
    pub fn reconcile(&mut self, tmux_sessions: &[String], now: i64)
        requires
            launches_fit(old(self)@, model::views(tmux_sessions@), now),
        ensures
            final(self)@ == after_poll(old(self)@, model::views(tmux_sessions@), now),
            old(self).wf() ==> final(self).wf(),
    {
        let ghost live = model::views(tmux_sessions@);
        proof {
            if self.wf() {
                lemma_poll_keeps(self@, live, now);
            }
        }
        let ghost all = self@.tasks;
        let ghost start = self@.runtime;
        let mut i: usize = 0;
        proof {
            assert(start =~= reconciled(start, all.take(0), live, now));
        }
        while i < self.tasks.len()
            invariant
                i <= self.tasks@.len(),
                live == model::views(tmux_sessions@),
                all == old(self)@.tasks,
                start == old(self)@.runtime,
                self@.tasks == all,
                self@.next_id == old(self)@.next_id,
                launches_fit(old(self)@, live, now),
                self@.runtime == reconciled(start, all.take(i as int), live, now),
            decreases self.tasks@.len() - i,
        {
            let id: u64 = self.tasks[i].id;
            let name = self.tasks[i].session_name();
            let alive: bool = is_live(tmux_sessions, name.as_str());
            let ghost before = self@.runtime;
            proof {
                assert(all[i as int] == self.tasks@[i as int]@);
                assert(launch_fits(old(self)@, live, now, all[i as int].id));
                lemma_poll_step(start, all, live, now, i as int);
            }
            let next: Option<Runtime> = match self.runtime.get(&id) {
                None => if alive {
                    Some(Runtime { status: TaskStatus::Running, since: now })
                } else {
                    None
                },
                Some(rt) => match rt.status {
                    TaskStatus::Launching => if alive {
                        Some(Runtime { status: TaskStatus::Running, since: now })
                    } else if now - rt.since >= LAUNCH_GRACE_SECS {
                        Some(Runtime { status: TaskStatus::Finished, since: now })
                    } else {
                        None
                    },
                    TaskStatus::Running => if alive {
                        None
                    } else {
                        Some(Runtime { status: TaskStatus::Finished, since: now })
                    },
                    TaskStatus::Idle | TaskStatus::Finished => None,
                },
            };
            if let Some(rt) = next {
                self.runtime.insert(id, rt);
            }
            proof {
                assert(self@.runtime =~= reconciled(start, all.take(i + 1), live, now));
            }
            i = i + 1;
        }
        proof {
            model::lemma_take_all(all);
        }
    }

    /// The rows of the task list: running tasks first, then idle ones, then
    /// finished ones; the latest run first within each.
    pub fn views(&self, sessions: &[RawSession]) -> (r: Vec<TaskView>)
        ensures
            model::views(r@) == order::arranged::<TaskView>(
                task_rows(self@, model::views(sessions@)),
            ),
    {
        let ghost rows = task_rows(self@, model::views(sessions@));
        let mut views: Vec<TaskView> = Vec::new();
        let mut i: usize = 0;
        proof {
            assert(model::views(views@) =~= order::arranged::<TaskView>(rows.take(0)));
        }
        while i < self.tasks.len()
            invariant
                i <= self.tasks@.len(),
                rows == task_rows(self@, model::views(sessions@)),
                model::views(views@) == order::arranged::<TaskView>(rows.take(i as int)),
            decreases self.tasks@.len() - i,
        {
            let t: &Task = &self.tasks[i];
            let name = t.session_name();
            let inside = link(sessions, name.as_str());
            let row = TaskView {
                id: t.id,
                title: t.title.clone(),
                cwd: t.cwd.clone(),
                command: t.command.clone(),
                status: self.status_of(t.id),
                session_name: name,
                session_id: match inside {
                    Some(s) => if s.session_id.as_str().is_empty() {
                        None
                    } else {
                        Some(s.session_id.clone())
                    },
                    None => None,
                },
                pid: match inside {
                    Some(s) => Some(s.pid),
                    None => None,
                },
                created_at: t.created_at,
                last_run_at: t.last_run_at,
            };
            proof {
                assert(self@.tasks[i as int] == t@);
                assert(row@ == rows[i as int]);
                model::lemma_take_step(rows, i as int);
            }
            order::place(&mut views, row);
            i = i + 1;
        }
        proof {
            model::lemma_take_all(rows);
        }
        views
    }
}

/// Polling a task once more, in the same poll, changes nothing.
proof fn lemma_poll_step(
    start: Map<u64, Runtime>,
    tasks: Seq<TaskModel>,
    live: Seq<Seq<char>>,
    now: i64,
    n: int,
)
    requires
        0 <= n < tasks.len(),
    ensures
        ({
            let id = tasks[n].id;
            let before = reconciled(start, tasks.take(n), live, now);
            let after = reconciled(start, tasks.take(n + 1), live, now);
            &&& known(after, id) == polled_task(before, id, live, now)
            &&& forall|other: u64| other != id ==> known(after, other) == #[trigger] known(
                before,
                other,
            )
            &&& known(before, id) == known(start, id) || known(before, id) == polled_task(
                start,
                id,
                live,
                now,
            )
        }),
{
    lemma_has_task_step(tasks, n);
    let id = tasks[n].id;
    assert(has_task(tasks.take(n + 1), id));
}

/// What stays when a task is taken out: every task with another id, and no
/// other.
pub proof fn lemma_without(tasks: Seq<TaskModel>, id: u64)
    ensures
        without(tasks, id).len() <= tasks.len(),
        without(tasks, id).len() == tasks.len() <==> !has_task(tasks, id),
        forall|i: int|
            0 <= i < without(tasks, id).len() ==> (#[trigger] without(tasks, id)[i]).id != id
                && tasks.contains(without(tasks, id)[i]),
        forall|k: int|
            0 <= k < tasks.len() && (#[trigger] tasks[k]).id != id ==> without(tasks, id).contains(
                tasks[k],
            ),
    decreases tasks.len(),
{
    if tasks.len() > 0 {
        let front = tasks.drop_last();
        let rest = without(front, id);
        let left = without(tasks, id);
        lemma_without(front, id);
        if has_task(front, id) {
            let k = choose|k: int| 0 <= k < front.len() && (#[trigger] front[k]).id == id;
            assert(tasks[k].id == id);
        }
        if has_task(tasks, id) && tasks.last().id != id {
            let k = choose|k: int| 0 <= k < tasks.len() && (#[trigger] tasks[k]).id == id;
            assert(front[k].id == id);
        }
        if tasks.last().id == id {
            assert(tasks[tasks.len() - 1].id == id);
        }
        assert forall|i: int| 0 <= i < left.len() implies (#[trigger] left[i]).id != id
            && tasks.contains(left[i]) by {
            if i < rest.len() {
                assert(left[i] == rest[i]);
                let k = choose|k: int| 0 <= k < front.len() && front[k] == rest[i];
                assert(tasks[k] == left[i]);
            } else {
                assert(tasks[tasks.len() - 1] == left[i]);
            }
        }
        assert forall|k: int| 0 <= k < tasks.len() && (#[trigger] tasks[k]).id != id implies left.contains(
            tasks[k],
        ) by {
            if k < front.len() {
                assert(front[k] == tasks[k]);
                assert(rest.contains(tasks[k]));
                let i = choose|i: int| 0 <= i < rest.len() && rest[i] == tasks[k];
                assert(left[i] == tasks[k]);
            } else {
                assert(left[left.len() - 1] == tasks[k]);
            }
        }
    }
}

} // verus!
