//! What each operation on the task list does, said of tasks and runs.
use vstd::prelude::*;

use crate::detector::RawModel;
use crate::order;
use crate::tasks;
use crate::tasks::{
    PersistedModel, Runtime, StoreModel, TaskModel, TaskRow, TaskStatus, TaskView,
};
use crate::text;

verus! {

// ---- definitions ----------------------------------------------------------

/// Whether a text holds anything but white space.
pub open spec fn says_something(s: Seq<char>) -> bool {
    exists|i: int| 0 <= i < s.len() && !text::white(#[trigger] s[i])
}

/// Which texts make a task, and what becomes of them. Title and command must say
/// something; the directory must be rooted, hold at most 256 bytes and no control
/// code. White space around the texts goes, the title is cut to 64 characters and
/// the command to 512, and nothing else of the task changes.
pub proof fn law_sanitize_keeps_usable_tasks(t: TaskModel)
    ensures
        ({
            let cwd = text::trimmed(t.cwd);
            let title = text::trimmed(t.title);
            let command = text::trimmed(t.command);
            &&& tasks::sanitized(t) is Some <==> {
                &&& says_something(t.title)
                &&& says_something(t.command)
                &&& cwd.len() > 0
                &&& cwd[0] == '/' || cwd[0] == '~'
                &&& text::byte_len(cwd) <= 256
                &&& forall|i: int| 0 <= i < cwd.len() ==> !text::control(#[trigger] cwd[i])
            }
            &&& tasks::sanitized(t) matches Some(u) ==> {
                &&& u.cwd == cwd
                &&& title.len() <= 64 ==> u.title == title
                &&& title.len() > 64 ==> u.title == title.subrange(0, 64)
                &&& command.len() <= 512 ==> u.command == command
                &&& command.len() > 512 ==> u.command == command.subrange(0, 512)
                &&& u.id == t.id
                &&& u.created_at == t.created_at
                &&& u.last_run_at == t.last_run_at
            }
        }),
{
    let u = tasks::tidied(t);
    lemma_tidy(t.title, 64);
    lemma_tidy(t.command, 512);
    let cwd = text::trimmed(t.cwd);
    text::lemma_trimmed(t.cwd);
    if text::blank(cwd) {
        assert(cwd.len() > 0 ==> text::white(cwd[0]));
    }
    if cwd.len() > 0 {
        assert(!text::white(cwd[0]));
    }
}

proof fn lemma_tidy(s: Seq<char>, max: nat)
    requires
        max > 0,
    ensures
        text::blank(text::capped(text::trimmed(s), max)) <==> !says_something(s),
{
    let t = text::trimmed(s);
    let c = text::capped(t, max);
    text::law_trimming_takes_white_space_only(s);
    let (from, to) = choose|from: int, to: int|
        {
            &&& 0 <= from <= to <= s.len()
            &&& t == #[trigger] s.subrange(from, to)
            &&& forall|i: int| 0 <= i < from ==> text::white(#[trigger] s[i])
            &&& forall|i: int| to <= i < s.len() ==> text::white(#[trigger] s[i])
        };
    if says_something(s) {
        let i = choose|i: int| 0 <= i < s.len() && !text::white(#[trigger] s[i]);
        assert(from <= i < to);
        assert(c.len() > 0);
        assert(c[0] == t[0]);
        assert(!text::white(c[0]));
    } else {
        if t.len() > 0 {
            assert(t[0] == s[from]);
        }
    }
}

/// The fault of a task is the first of these: a title without a word, a
/// directory that cannot be used, a command without a word.
pub proof fn law_faults_are_told_in_order(t: TaskModel)
    ensures
        ({
            let rooted = {
                &&& t.cwd.len() > 0
                &&& t.cwd[0] == '/' || t.cwd[0] == '~'
                &&& text::byte_len(t.cwd) <= 256
                &&& forall|i: int| 0 <= i < t.cwd.len() ==> !text::control(#[trigger] t.cwd[i])
            };
            &&& !says_something(t.title) ==> tasks::fault(t) == Some("标题不能为空"@)
            &&& says_something(t.title) && !rooted ==> tasks::fault(t) == Some(
                "目录必须是 WSL 绝对路径（/ 或 ~ 开头）"@,
            )
            &&& says_something(t.title) && rooted && !says_something(t.command) ==> tasks::fault(t)
                == Some("命令不能为空"@)
            &&& says_something(t.title) && rooted && says_something(t.command) ==> tasks::fault(
                t,
            ) is None
        }),
{
    if !says_something(t.title) {
        assert(text::blank(t.title));
    }
    if !says_something(t.command) {
        assert(text::blank(t.command));
    }
    if t.cwd.len() > 0 && (t.cwd[0] == '/' || t.cwd[0] == '~') {
        assert(!text::white(t.cwd[0]));
    }
}

/// A task owns the tmux session named by its id.
pub proof fn law_session_is_named_by_the_id(id: u64)
    ensures
        tasks::session_name_of(id).len() > 13,
        tasks::session_name_of(id).subrange(0, 13) == "clawmon-task-"@,
        text::value_of(tasks::session_name_of(id).skip(13)) == id,
{
    reveal_strlit("clawmon-task-");
    text::law_decimal_stands_for_its_number(id as nat);
    assert(tasks::session_name_of(id).subrange(0, 13) =~= "clawmon-task-"@);
    assert(tasks::session_name_of(id).skip(13) =~= text::decimal(id as nat));
}

// ---- changing the list ----------------------------------------------------

/// A usable task is put at the end of the list, under the next id and with the
/// clock as its date; its texts are tidied, and the rest of it, the other tasks
/// and all runs stay as they are. Any other task changes nothing.
pub proof fn law_addition_appends_one_task(m: StoreModel, t: TaskModel, now: i64)
    requires
        m.next_id < u64::MAX,
    ensures
        ({
            let after = tasks::after_add(m, t, now);
            let u = after.tasks.last();
            let tidy = tasks::sanitized(t);
            &&& tidy is None ==> after == m && tasks::new_task(m, t, now) is None
            &&& tidy is Some ==> {
                &&& tasks::new_task(m, t, now) == Some(u)
                &&& after.tasks.len() == m.tasks.len() + 1
                &&& after.tasks.drop_last() == m.tasks
                &&& after.next_id == m.next_id + 1
                &&& after.runtime == m.runtime
                &&& u.id == m.next_id
                &&& u.created_at == now
                &&& u.last_run_at == t.last_run_at
                &&& u.title == tidy->0.title
                &&& u.cwd == tidy->0.cwd
                &&& u.command == tidy->0.command
            }
        }),
{
    let after = tasks::after_add(m, t, now);
    if tasks::sanitized(t) is Some {
        assert(after.tasks.drop_last() =~= m.tasks);
    }
}

/// An edit is refused for texts that make no task, then for an id that is not in
/// the list. Else it replaces the one task with that id by the tidied new one,
/// under the same id, and touches no other task and no run.
pub proof fn law_edit_replaces_one_task(m: StoreModel, id: u64, t: TaskModel)
    ensures
        ({
            let after = tasks::after_edit(m, id, t);
            let r = tasks::edit_result(m, id, t);
            let tidy = tasks::sanitized(t);
            let listed = exists|i: int| 0 <= i < m.tasks.len() && (#[trigger] m.tasks[i]).id == id;
            &&& tidy is None ==> r == Err::<(), Seq<char>>(
                "任务不合法：标题/目录/命令不能为空，目录必须是绝对路径"@,
            )
            &&& tidy is Some && !listed ==> r == Err::<(), Seq<char>>(
                "任务 "@ + text::decimal(id as nat) + " 不存在"@,
            )
            &&& tidy is Some && listed ==> r is Ok
            &&& r is Err ==> after == m
            &&& after.next_id == m.next_id
            &&& after.runtime == m.runtime
            &&& after.tasks.len() == m.tasks.len()
            &&& forall|i: int|
                0 <= i < m.tasks.len() && (#[trigger] m.tasks[i]).id != id ==> after.tasks[i]
                    == m.tasks[i]
            &&& forall|i: int|
                {
                    &&& r is Ok
                    &&& 0 <= i < m.tasks.len()
                    &&& (#[trigger] m.tasks[i]).id == id
                    &&& forall|j: int| 0 <= j < i ==> (#[trigger] m.tasks[j]).id != id
                } ==> {
                    let u = after.tasks[i];
                    &&& u.id == id
                    &&& u.title == tidy->0.title
                    &&& u.cwd == tidy->0.cwd
                    &&& u.command == tidy->0.command
                    &&& u.created_at == t.created_at
                    &&& u.last_run_at == t.last_run_at
                }
        }),
{
    tasks::lemma_first_of(m.tasks, id);
    if tasks::edit_result(m, id, t) is Ok {
        let k = tasks::first_of(m.tasks, id)->0;
        assert(m.tasks[k].id == id);
    }
}

/// A removal takes the tasks with that id out of the list and leaves the others
/// in their order; nothing stays known of a run of the removed task, and all
/// that is known of the other runs stays. An id that is not in the list is
/// reported.
pub proof fn law_removal_filters_the_list(m: StoreModel, id: u64)
    ensures
        ({
            let after = tasks::after_remove(m, id);
            let r = tasks::remove_result(m, id);
            let listed = exists|i: int| 0 <= i < m.tasks.len() && (#[trigger] m.tasks[i]).id == id;
            &&& listed ==> r is Ok
            &&& !listed ==> r == Err::<(), Seq<char>>(
                "任务 "@ + text::decimal(id as nat) + " 不存在"@,
            )
            &&& after.tasks == m.tasks.filter(|t: TaskModel| t.id != id)
            &&& !after.runtime.contains_key(id)
            &&& forall|other: u64|
                other != id ==> (#[trigger] after.runtime.contains_key(other)
                    <==> m.runtime.contains_key(other)) && (m.runtime.contains_key(other)
                    ==> after.runtime[other] == m.runtime[other])
            &&& after.next_id == m.next_id
        }),
{
    lemma_without_filters(m.tasks, id);
}

proof fn lemma_without_filters(all: Seq<TaskModel>, id: u64)
    ensures
        tasks::without(all, id) == all.filter(|t: TaskModel| t.id != id),
    decreases all.len(),
{
    reveal(Seq::filter);
    if all.len() > 0 {
        lemma_without_filters(all.drop_last(), id);
    } else {
        assert(all.filter(|t: TaskModel| t.id != id) =~= all);
    }
}

// ---- disk -----------------------------------------------------------------

/// What is read from disk, entry by entry. An entry that makes no task, that has
/// the greatest id there is, or whose id is in the list already, is dropped; any
/// other is put, tidied, behind those before it.
pub proof fn law_load_takes_each_usable_entry(all: Seq<TaskModel>, t: TaskModel, next_id: u64)
    ensures
        ({
            let before = tasks::loaded(Some((PersistedModel { next_id, tasks: all }))).tasks;
            let after = tasks::loaded(
                Some((PersistedModel { next_id, tasks: all.push(t) })),
            ).tasks;
            let taken = exists|i: int| 0 <= i < before.len() && (#[trigger] before[i]).id == t.id;
            let usable = tasks::sanitized(t) is Some && t.id < u64::MAX && !taken;
            &&& !usable ==> after == before
            &&& usable ==> {
                &&& after.len() == before.len() + 1
                &&& after.drop_last() == before
                &&& after.last() == tasks::sanitized(t)->0
            }
            &&& all.len() == 0 ==> before.len() == 0
        }),
{
    assert(all.push(t).drop_last() =~= all);
    let before = tasks::kept(all);
    if tasks::kept(all.push(t)).len() > before.len() {
        assert(tasks::kept(all.push(t)).drop_last() =~= before);
    }
}

/// Where ids go on after a start: not below where the file says, not below one,
/// above every task of the list, and no further than that. Nothing is known yet
/// of any run, and a file that cannot be read is an empty list.
pub proof fn law_ids_go_on_above_the_list(p: Option<PersistedModel>)
    ensures
        ({
            let m = tasks::loaded(p);
            let said: u64 = if p is Some {
                p->0.next_id
            } else {
                1
            };
            &&& m.next_id >= 1
            &&& m.next_id >= said
            &&& forall|i: int| 0 <= i < m.tasks.len() ==> (#[trigger] m.tasks[i]).id < m.next_id
            &&& m.next_id == 1 || m.next_id == said || exists|i: int|
                0 <= i < m.tasks.len() && (#[trigger] m.tasks[i]).id + 1 == m.next_id
            &&& m.runtime.dom() == Set::<u64>::empty()
            &&& p is None ==> m.tasks.len() == 0
        }),
{
    let read = match p {
        Some(d) => d,
        None => tasks::nothing_persisted(),
    };
    tasks::lemma_kept(read.tasks);
    let n: u64 = if read.next_id < 1 {
        1
    } else {
        read.next_id
    };
    tasks::lemma_above_ids(tasks::kept(read.tasks), n);
    lemma_above_is_least(tasks::kept(read.tasks), n);
    assert(tasks::loaded(p).runtime.dom() =~= Set::<u64>::empty());
}

proof fn lemma_above_is_least(all: Seq<TaskModel>, n: u64)
    requires
        forall|i: int| 0 <= i < all.len() ==> (#[trigger] all[i]).id < u64::MAX,
    ensures
        tasks::above_ids(all, n) == n || exists|i: int|
            0 <= i < all.len() && (#[trigger] all[i]).id + 1 == tasks::above_ids(all, n),
    decreases all.len(),
{
    if all.len() > 0 {
        let front = all.drop_last();
        assert forall|i: int| 0 <= i < front.len() implies (#[trigger] front[i]).id < u64::MAX by {
            assert(front[i] == all[i]);
        }
        lemma_above_is_least(front, n);
        assert(all[all.len() - 1].id < u64::MAX);
        if tasks::above_ids(all, n) == tasks::above_ids(front, n) && tasks::above_ids(front, n)
            != n {
            let i = choose|i: int|
                0 <= i < front.len() && (#[trigger] front[i]).id + 1 == tasks::above_ids(front, n);
            assert(all[i].id + 1 == tasks::above_ids(all, n));
        }
    }
}

// ---- runs -----------------------------------------------------------------

/// The status of a task is the one that was noted last; a task that nothing was
/// noted of is idle.
pub proof fn law_status_is_what_was_noted(m: StoreModel, id: u64)
    ensures
        m.runtime.contains_key(id) ==> tasks::status_in(m, id) == m.runtime[id].status,
        !m.runtime.contains_key(id) ==> tasks::status_in(m, id) == TaskStatus::Idle,
        m.runtime.contains_key(id) ==> tasks::known(m.runtime, id) == Some(m.runtime[id]),
        !m.runtime.contains_key(id) ==> tasks::known(m.runtime, id) is None,
{
}

/// A launch is refused while the task is launching or running, and for an id
/// that is not in the list. Else it hands out the task, notes the clock as its
/// last run and as the beginning of the launch, and changes nothing else.
pub proof fn law_launch_notes_the_run(m: StoreModel, id: u64, now: i64)
    ensures
        ({
            let r = tasks::launch_result(m, id);
            let after = tasks::after_launch(m, id, now);
            let status = tasks::status_in(m, id);
            let listed = exists|i: int| 0 <= i < m.tasks.len() && (#[trigger] m.tasks[i]).id == id;
            let idle = status == TaskStatus::Idle || status == TaskStatus::Finished;
            &&& status == TaskStatus::Launching ==> r == Err::<TaskModel, Seq<char>>(
                "任务正在启动中"@,
            )
            &&& status == TaskStatus::Running ==> r == Err::<TaskModel, Seq<char>>("任务已在运行"@)
            &&& idle && !listed ==> r == Err::<TaskModel, Seq<char>>(
                "任务 "@ + text::decimal(id as nat) + " 不存在"@,
            )
            &&& idle && listed ==> r is Ok
            &&& r is Err ==> after == m
            &&& after.tasks.len() == m.tasks.len()
            &&& after.next_id == m.next_id
            &&& forall|i: int|
                0 <= i < m.tasks.len() && (#[trigger] m.tasks[i]).id != id ==> after.tasks[i]
                    == m.tasks[i]
            &&& forall|i: int|
                {
                    &&& r is Ok
                    &&& 0 <= i < m.tasks.len()
                    &&& (#[trigger] m.tasks[i]).id == id
                    &&& forall|j: int| 0 <= j < i ==> (#[trigger] m.tasks[j]).id != id
                } ==> {
                    let t = m.tasks[i];
                    let u = after.tasks[i];
                    &&& r->Ok_0 == t
                    &&& u.last_run_at == Some(now)
                    &&& u.id == id
                    &&& u.title == t.title
                    &&& u.cwd == t.cwd
                    &&& u.command == t.command
                    &&& u.created_at == t.created_at
                }
            &&& r is Ok ==> {
                &&& after.runtime.contains_key(id)
                &&& after.runtime[id].status == TaskStatus::Launching
                &&& after.runtime[id].since == now
            }
            &&& same_but(m.runtime, after.runtime, id)
        }),
{
    tasks::lemma_first_of(m.tasks, id);
    if tasks::launch_result(m, id) is Ok {
        let k = tasks::first_of(m.tasks, id)->0;
        assert(m.tasks[k].id == id);
    }
}

/// What is known of every run but one is the same.
pub open spec fn same_but(a: Map<u64, Runtime>, b: Map<u64, Runtime>, id: u64) -> bool {
    forall|other: u64|
        other != id ==> {
            &&& #[trigger] a.contains_key(other) <==> b.contains_key(other)
            &&& a.contains_key(other) ==> a[other] == b[other]
        }
}

/// A stop is refused unless the task is launching or running, and for an id that
/// is not in the list. Else it hands out the task and notes its end at the clock;
/// the list itself and all other runs stay as they are. A launch that failed
/// notes the end in the same way.
pub proof fn law_stop_notes_the_end(m: StoreModel, id: u64, now: i64)
    ensures
        ({
            let r = tasks::stop_result(m, id);
            let after = tasks::after_stop(m, id, now);
            let failed = tasks::after_end(m, id, now);
            let status = tasks::status_in(m, id);
            let listed = exists|i: int| 0 <= i < m.tasks.len() && (#[trigger] m.tasks[i]).id == id;
            let active = status == TaskStatus::Launching || status == TaskStatus::Running;
            &&& !active ==> r == Err::<TaskModel, Seq<char>>("任务未在运行"@)
            &&& active && !listed ==> r == Err::<TaskModel, Seq<char>>(
                "任务 "@ + text::decimal(id as nat) + " 不存在"@,
            )
            &&& active && listed ==> r is Ok
            &&& r is Err ==> after == m
            &&& r is Ok ==> after == failed
            &&& forall|i: int|
                {
                    &&& r is Ok
                    &&& 0 <= i < m.tasks.len()
                    &&& (#[trigger] m.tasks[i]).id == id
                    &&& forall|j: int| 0 <= j < i ==> (#[trigger] m.tasks[j]).id != id
                } ==> r->Ok_0 == m.tasks[i]
            &&& failed.tasks == m.tasks
            &&& failed.next_id == m.next_id
            &&& failed.runtime.contains_key(id)
            &&& failed.runtime[id].status == TaskStatus::Finished
            &&& failed.runtime[id].since == now
            &&& same_but(m.runtime, failed.runtime, id)
        }),
{
    tasks::lemma_first_of(m.tasks, id);
    if tasks::stop_result(m, id) is Ok {
        let k = tasks::first_of(m.tasks, id)->0;
        assert(m.tasks[k].id == id);
    }
}

/// What a poll makes of the run of a listed task. A task runs while its session
/// is alive and is finished once it is gone; a launch has 30 seconds to show its
/// session. A change is dated with the clock of the poll, and a run that did not
/// change keeps its date.
pub proof fn law_poll_dates_each_change(m: StoreModel, id: u64, live: Seq<Seq<char>>, now: i64)
    requires
        tasks::orderly(m),
        exists|i: int| 0 <= i < m.tasks.len() && (#[trigger] m.tasks[i]).id == id,
    ensures
        ({
            let after = tasks::after_poll(m, live, now);
            let alive = live.contains("clawmon-task-"@ + text::decimal(id as nat));
            let was = tasks::status_in(m, id);
            let turned = tasks::status_in(after, id);
            let late = now - m.runtime[id].since >= 30;
            &&& turned == TaskStatus::Running <==> alive && was != TaskStatus::Finished
            &&& turned == TaskStatus::Finished <==> {
                ||| was == TaskStatus::Finished
                ||| was == TaskStatus::Running && !alive
                ||| was == TaskStatus::Launching && !alive && late
            }
            &&& turned == TaskStatus::Launching <==> was == TaskStatus::Launching && !alive && !late
            &&& turned == TaskStatus::Idle <==> was == TaskStatus::Idle && !alive
            &&& turned != was ==> after.runtime.contains_key(id) && after.runtime[id].since == now
            &&& turned == was && m.runtime.contains_key(id) ==> after.runtime.contains_key(id)
                && after.runtime[id] == m.runtime[id]
            &&& turned == TaskStatus::Idle ==> !after.runtime.contains_key(id)
        }),
{
    assert(tasks::has_task(m.tasks, id));
}

// ---- rows -----------------------------------------------------------------

/// Each row carries what its task says and how it runs, under the name of the
/// tmux session of the task, and points to the first session that sits in it.
pub proof fn law_rows_carry_their_tasks(m: StoreModel, sessions: Seq<RawModel>, i: int)
    requires
        0 <= i < m.tasks.len(),
    ensures
        ({
            let rows = tasks::task_rows(m, sessions);
            let row = rows[i];
            let t = m.tasks[i];
            let name = "clawmon-task-"@ + text::decimal(t.id as nat);
            &&& rows.len() == m.tasks.len()
            &&& row.id == t.id
            &&& row.title == t.title
            &&& row.cwd == t.cwd
            &&& row.command == t.command
            &&& row.created_at == t.created_at
            &&& row.last_run_at == t.last_run_at
            &&& row.session_name == name
            &&& m.runtime.contains_key(t.id) ==> row.status == m.runtime[t.id].status
            &&& !m.runtime.contains_key(t.id) ==> row.status == TaskStatus::Idle
            &&& (forall|k: int| 0 <= k < sessions.len() ==> !in_session(#[trigger] sessions[k], name))
                ==> row.pid is None && row.session_id is None
            &&& forall|k: int|
                {
                    &&& 0 <= k < sessions.len()
                    &&& in_session(#[trigger] sessions[k], name)
                    &&& forall|j: int| 0 <= j < k ==> !in_session(#[trigger] sessions[j], name)
                } ==> {
                    &&& row.pid == Some(sessions[k].pid)
                    &&& sessions[k].session_id.len() > 0 ==> row.session_id == Some(
                        sessions[k].session_id,
                    )
                    &&& sessions[k].session_id.len() == 0 ==> row.session_id is None
                }
        }),
{
    let name = tasks::session_name_of(m.tasks[i].id);
    lemma_linked(sessions, name);
    assert forall|k: int|
        {
            &&& 0 <= k < sessions.len()
            &&& in_session(#[trigger] sessions[k], name)
            &&& forall|j: int| 0 <= j < k ==> !in_session(#[trigger] sessions[j], name)
        } implies tasks::linked(sessions, name) == Some(sessions[k]) by {
        let at = choose|at: int|
            {
                &&& 0 <= at < sessions.len()
                &&& in_session(#[trigger] sessions[at], name)
                &&& tasks::linked(sessions, name) == Some(sessions[at])
                &&& forall|j: int| 0 <= j < at ==> !in_session(#[trigger] sessions[j], name)
            };
        if at < k {
            assert(!in_session(sessions[at], name));
        }
        if k < at {
            assert(!in_session(sessions[k], name));
        }
    }
}

/// Whether a session sits in a tmux session of that name.
pub open spec fn in_session(s: RawModel, name: Seq<char>) -> bool {
    s.tmux is Some && s.tmux->0.session == name
}

proof fn lemma_linked(sessions: Seq<RawModel>, name: Seq<char>)
    ensures
        tasks::linked(sessions, name) is None ==> forall|k: int|
            0 <= k < sessions.len() ==> !in_session(#[trigger] sessions[k], name),
        tasks::linked(sessions, name) is Some ==> exists|at: int|
            {
                &&& 0 <= at < sessions.len()
                &&& in_session(#[trigger] sessions[at], name)
                &&& tasks::linked(sessions, name) == Some(sessions[at])
                &&& forall|j: int| 0 <= j < at ==> !in_session(#[trigger] sessions[j], name)
            },
    decreases sessions.len(),
{
    if sessions.len() > 0 {
        let front = sessions.drop_last();
        lemma_linked(front, name);
        assert forall|k: int| 0 <= k < front.len() implies #[trigger] sessions[k] == front[k] by {}
        if tasks::linked(front, name) is Some {
            let at = choose|at: int|
                {
                    &&& 0 <= at < front.len()
                    &&& in_session(#[trigger] front[at], name)
                    &&& tasks::linked(front, name) == Some(front[at])
                    &&& forall|j: int| 0 <= j < at ==> !in_session(#[trigger] front[j], name)
                };
            assert(sessions[at] == front[at]);
            assert(in_session(sessions[at], name));
            assert forall|j: int| 0 <= j < at implies !in_session(#[trigger] sessions[j], name) by {
                assert(!in_session(front[j], name));
            }
        } else {
            assert forall|j: int| 0 <= j < front.len() implies !in_session(
                #[trigger] sessions[j],
                name,
            ) by {
                assert(!in_session(front[j], name));
            }
            let n = sessions.len() - 1;
            if in_session(sessions[n], name) {
                assert(tasks::linked(sessions, name) == Some(sessions[n]));
            }
        }
    }
}

/// The list shows tasks that are launching or running before all others and
/// finished ones behind all others; among these the later run comes first, a
/// task that was never run counting as the earliest, and then the smaller id.
pub proof fn law_list_starts_with_what_runs(m: StoreModel, sessions: Seq<RawModel>)
    ensures
        ({
            let rows = tasks::task_rows(m, sessions);
            let shown = order::arranged::<TaskView>(rows);
            &&& shown.to_multiset() == rows.to_multiset()
            &&& forall|i: int, j: int|
                0 <= i < j < shown.len() ==> before_in_list(
                    #[trigger] shown[i],
                    #[trigger] shown[j],
                )
        }),
{
    let rows = tasks::task_rows(m, sessions);
    let shown = order::arranged::<TaskView>(rows);
    order::law_arranged::<TaskView>(rows);
    assert forall|i: int, j: int| 0 <= i < j < shown.len() implies before_in_list(
        #[trigger] shown[i],
        #[trigger] shown[j],
    ) by {
        assert(order::key_le(
            <TaskView as order::Ranked>::key(shown[i]),
            <TaskView as order::Ranked>::key(shown[j]),
        ));
    }
}

/// Whether a row may stand before another one.
pub open spec fn before_in_list(a: TaskRow, b: TaskRow) -> bool {
    let a_runs = a.status == TaskStatus::Running || a.status == TaskStatus::Launching;
    let b_runs = b.status == TaskStatus::Running || b.status == TaskStatus::Launching;
    let p: i64 = if a.last_run_at is Some {
        a.last_run_at->0
    } else {
        0
    };
    let q: i64 = if b.last_run_at is Some {
        b.last_run_at->0
    } else {
        0
    };
    &&& b_runs ==> a_runs
    &&& a.status == TaskStatus::Finished ==> b.status == TaskStatus::Finished
    &&& a_runs == b_runs && (a.status == TaskStatus::Finished <==> b.status
        == TaskStatus::Finished) ==> p > q || (p == q && a.id <= b.id)
}

} // verus!
