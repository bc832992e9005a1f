//! What holds of the task list as a whole.
use vstd::prelude::*;

use crate::detector::RawModel;
use crate::order;
use crate::tasks;
use crate::tasks::{PersistedModel, Runtime, StoreModel, TaskModel, TaskStatus, TaskView};
use crate::text;

verus! {

// ---- names ----------------------------------------------------------------

/// Two tasks never share a tmux session, and the name of one never looks like
/// a tmux option.
pub proof fn law_session_names_are_distinct(a: u64, b: u64)
    ensures
        tasks::session_name_of(a) == tasks::session_name_of(b) ==> a == b,
        !text::starts_with(tasks::session_name_of(a), '-'),
{
    reveal_strlit("clawmon-task-");
    let prefix = "clawmon-task-"@;
    let x = tasks::session_name_of(a);
    let y = tasks::session_name_of(b);
    assert(x[0] == 'c');
    assert(x.skip(prefix.len() as int) =~= text::decimal(a as nat));
    assert(y.skip(prefix.len() as int) =~= text::decimal(b as nat));
    if x == y {
        text::law_decimal_injective(a as nat, b as nat);
    }
}

// ---- definitions ----------------------------------------------------------

/// A sanitized task has no fault, keeps within its lengths, and differs from
/// the task it came from in its texts only.
pub proof fn law_sanitized_is_valid(t: TaskModel)
    requires
        tasks::sanitized(t) is Some,
    ensures
        ({
            let u = tasks::sanitized(t)->0;
            &&& tasks::fault(u) is None
            &&& u.title.len() <= tasks::MAX_TITLE
            &&& u.command.len() <= tasks::MAX_COMMAND
            &&& text::byte_len(u.cwd) <= tasks::MAX_CWD
            &&& !text::has_control(u.cwd)
            &&& u == (TaskModel { title: u.title, cwd: u.cwd, command: u.command, ..t })
        }),
{
    tasks::lemma_sanitized_is_clean(t);
}

/// Sanitizing a clean task only cuts white space off the end of its title and
/// its command; where there is none, it changes nothing.
pub proof fn law_sanitize_settles(t: TaskModel)
    requires
        tasks::clean(t),
    ensures
        tasks::sanitized(t) == Some(
            TaskModel {
                title: text::trim_end(t.title),
                command: text::trim_end(t.command),
                ..t
            },
        ),
        text::tight(t.title) && text::tight(t.command) ==> tasks::sanitized(t) == Some(t),
{
    text::lemma_trimmed(t.title);
    text::lemma_trimmed(t.cwd);
    text::lemma_trimmed(t.command);
    assert(t.title.len() > 0) by {
        if t.title.len() == 0 {
            assert(text::blank(t.title));
        }
    }
    assert(t.command.len() > 0) by {
        if t.command.len() == 0 {
            assert(text::blank(t.command));
        }
    }
    text::lemma_trimmed_of_started(t.title);
    text::lemma_trimmed_of_started(t.command);
    let u = tasks::tidied(t);
    assert(!text::white(u.title[0]));
    assert(!text::white(u.command[0]));
}

// ---- ids ------------------------------------------------------------------

/// An id is never handed out twice: a new task gets one that no task of the
/// list has, and that lies above all those handed out before.
pub proof fn law_new_id_is_unused(m: StoreModel, t: TaskModel, now: i64)
    requires
        tasks::orderly(m),
        m.next_id < u64::MAX,
        tasks::new_task(m, t, now) is Some,
    ensures
        ({
            let after = tasks::after_add(m, t, now);
            &&& !tasks::has_task(m.tasks, tasks::new_task(m, t, now)->0.id)
            &&& tasks::new_task(m, t, now)->0.id == m.next_id
            &&& after.next_id > m.next_id
            &&& tasks::ids_distinct(after.tasks)
            &&& tasks::orderly(after)
        }),
{
    tasks::lemma_add_keeps(m, t, now);
}

/// Edits, removals, launches, ends and polls hand out no id and change none,
/// so a removed id never comes back; and they keep the store orderly.
pub proof fn law_only_additions_use_ids(
    m: StoreModel,
    id: u64,
    t: TaskModel,
    live: Seq<Seq<char>>,
    now: i64,
)
    requires
        tasks::orderly(m),
    ensures
        tasks::after_edit(m, id, t).next_id == m.next_id,
        tasks::after_remove(m, id).next_id == m.next_id,
        tasks::after_launch(m, id, now).next_id == m.next_id,
        tasks::after_stop(m, id, now).next_id == m.next_id,
        tasks::after_end(m, id, now).next_id == m.next_id,
        tasks::after_poll(m, live, now).next_id == m.next_id,
        tasks::orderly(tasks::after_edit(m, id, t)),
        tasks::orderly(tasks::after_remove(m, id)),
        tasks::orderly(tasks::after_launch(m, id, now)),
        tasks::orderly(tasks::after_stop(m, id, now)),
        tasks::orderly(tasks::after_end(m, id, now)),
        tasks::orderly(tasks::after_poll(m, live, now)),
{
    tasks::lemma_edit_keeps(m, id, t);
    tasks::lemma_remove_keeps(m, id);
    tasks::lemma_launch_keeps(m, id, now);
    tasks::lemma_end_keeps(m, id, now);
    tasks::lemma_poll_keeps(m, live, now);
}

/// A removed task is gone; every other task stays, and what is known of the
/// others stays too.
pub proof fn law_remove_takes_only_its_task(m: StoreModel, id: u64, other: u64)
    ensures
        !tasks::has_task(tasks::after_remove(m, id).tasks, id),
        tasks::status_in(tasks::after_remove(m, id), id) == TaskStatus::Idle,
        other != id ==> {
            &&& tasks::has_task(tasks::after_remove(m, id).tasks, other) == tasks::has_task(
                m.tasks,
                other,
            )
            &&& tasks::known(tasks::after_remove(m, id).runtime, other) == tasks::known(
                m.runtime,
                other,
            )
        },
{
    tasks::lemma_without(m.tasks, id);
    let left = tasks::after_remove(m, id).tasks;
    if tasks::has_task(left, other) {
        let i = choose|i: int| 0 <= i < left.len() && (#[trigger] left[i]).id == other;
        let k = choose|k: int| 0 <= k < m.tasks.len() && m.tasks[k] == left[i];
        assert(m.tasks[k].id == other);
    }
    if tasks::has_task(m.tasks, other) && other != id {
        let k = choose|k: int| 0 <= k < m.tasks.len() && (#[trigger] m.tasks[k]).id == other;
        assert(left.contains(m.tasks[k]));
        let i = choose|i: int| 0 <= i < left.len() && left[i] == m.tasks[k];
        assert(left[i].id == other);
    }
}

// ---- disk -----------------------------------------------------------------

/// What a store writes to disk.
pub open spec fn saved(m: StoreModel) -> PersistedModel {
    PersistedModel { next_id: m.next_id, tasks: m.tasks }
}

/// Reading back what was written loses no task and no id: each task comes back
/// as it was, but for white space at the end of its title and its command.
/// Nothing is known yet of any run.
pub proof fn law_reload_keeps_every_task(m: StoreModel)
    requires
        tasks::orderly(m),
    ensures
        ({
            let back = tasks::loaded(Some(saved(m)));
            &&& back.next_id == m.next_id
            &&& back.runtime == Map::<u64, Runtime>::empty()
            &&& back.tasks.len() == m.tasks.len()
            &&& forall|i: int|
                0 <= i < m.tasks.len() ==> #[trigger] back.tasks[i] == reread(m.tasks[i])
        }),
{
    lemma_reload(m);
}

/// Reading back what was written gives the same tasks, where no title and no
/// command ends in white space.
pub proof fn law_reload_of_tight_texts_is_exact(m: StoreModel)
    requires
        tasks::orderly(m),
        forall|i: int|
            0 <= i < m.tasks.len() ==> text::tight((#[trigger] m.tasks[i]).title) && text::tight(
                m.tasks[i].command,
            ),
    ensures
        tasks::loaded(Some(saved(m))) == (StoreModel { runtime: Map::empty(), ..m }),
{
    lemma_reload(m);
    let back = tasks::loaded(Some(saved(m)));
    assert forall|i: int| 0 <= i < m.tasks.len() implies back.tasks[i] == m.tasks[i] by {
        law_sanitize_settles(m.tasks[i]);
    }
    assert(back.tasks =~= m.tasks);
}

proof fn lemma_reload(m: StoreModel)
    requires
        tasks::orderly(m),
    ensures
        ({
            let back = tasks::loaded(Some(saved(m)));
            &&& back.next_id == m.next_id
            &&& back.tasks.len() == m.tasks.len()
            &&& forall|i: int|
                0 <= i < m.tasks.len() ==> #[trigger] back.tasks[i] == reread(m.tasks[i])
        }),
{
    lemma_kept_of_clean(m.tasks);
    let back = tasks::kept(m.tasks);
    assert forall|i: int| 0 <= i < back.len() implies (#[trigger] back[i]).id < m.next_id by {
        assert(back[i] == reread(m.tasks[i]));
    }
    tasks::lemma_above_ids(back, m.next_id);
}

/// A clean task as it comes back from disk.
pub open spec fn reread(t: TaskModel) -> TaskModel {
    TaskModel { title: text::trim_end(t.title), command: text::trim_end(t.command), ..t }
}

proof fn lemma_kept_of_clean(all: Seq<TaskModel>)
    requires
        forall|i: int|
            0 <= i < all.len() ==> tasks::clean(#[trigger] all[i]) && all[i].id < u64::MAX,
        tasks::ids_distinct(all),
    ensures
        tasks::kept(all).len() == all.len(),
        forall|i: int| 0 <= i < all.len() ==> #[trigger] tasks::kept(all)[i] == reread(all[i]),
    decreases all.len(),
{
    if all.len() > 0 {
        let front = all.drop_last();
        let last = all[all.len() - 1];
        assert forall|i: int| 0 <= i < front.len() implies tasks::clean(#[trigger] front[i])
            && front[i].id < u64::MAX by {
            assert(front[i] == all[i]);
        }
        assert forall|i: int, j: int| 0 <= i < j < front.len() implies (#[trigger] front[i]).id != (
        #[trigger] front[j]).id by {
            assert(all[i].id != all[j].id);
        }
        lemma_kept_of_clean(front);
        assert(tasks::clean(last) && last.id < u64::MAX);
        law_sanitize_settles(last);
        let before = tasks::kept(front);
        if tasks::has_task(before, last.id) {
            let k = choose|k: int| 0 <= k < before.len() && (#[trigger] before[k]).id == last.id;
            assert(before[k] == reread(front[k]));
            assert(all[k].id != all[all.len() - 1].id);
        }
        assert forall|i: int| 0 <= i < all.len() implies #[trigger] tasks::kept(all)[i] == reread(
            all[i],
        ) by {
            if i < front.len() {
                assert(front[i] == all[i]);
                assert(tasks::kept(all)[i] == before[i]);
            }
        }
    }
}

/// Whatever was on disk, hand-edited files included, every task that is loaded
/// is valid, no id is in the list twice, and new ids lie above all of them.
pub proof fn law_loaded_tasks_are_valid(p: Option<PersistedModel>)
    ensures
        tasks::orderly(tasks::loaded(p)),
        tasks::ids_distinct(tasks::loaded(p).tasks),
        tasks::ids_handed_out(tasks::loaded(p)),
{
    tasks::lemma_loaded_is_orderly(p);
}

// ---- runs -----------------------------------------------------------------

/// A launch is booked exactly once: once it is booked, a second one is refused
/// until a poll or a failure has ended it.
pub proof fn law_launch_is_claimed_once(m: StoreModel, id: u64, now: i64)
    requires
        tasks::launch_result(m, id) is Ok,
    ensures
        tasks::status_in(tasks::after_launch(m, id, now), id) == TaskStatus::Launching,
        tasks::launch_result(tasks::after_launch(m, id, now), id) == Err::<TaskModel, Seq<char>>(
            "任务正在启动中"@,
        ),
{
}

/// A stop ends the task at once, and a second stop is refused.
pub proof fn law_stop_is_claimed_once(m: StoreModel, id: u64, now: i64)
    requires
        tasks::stop_result(m, id) is Ok,
    ensures
        tasks::status_in(tasks::after_stop(m, id, now), id) == TaskStatus::Finished,
        tasks::stop_result(tasks::after_stop(m, id, now), id) == Err::<TaskModel, Seq<char>>(
            "任务未在运行"@,
        ),
{
}

/// A task that has come to its end, by a failed launch or by a stop, can be
/// launched again.
pub proof fn law_ended_task_can_be_launched(m: StoreModel, id: u64, now: i64)
    requires
        tasks::has_task(m.tasks, id),
    ensures
        tasks::launch_result(tasks::after_end(m, id, now), id) is Ok,
{
    tasks::lemma_first_of(m.tasks, id);
}

/// A launch that failed leaves the task finished, so it can be launched again,
/// and the list remembers when it was tried.
pub proof fn law_failed_launch_unblocks(m: StoreModel, id: u64, now: i64, later: i64)
    requires
        tasks::launch_result(m, id) is Ok,
    ensures
        ({
            let after = tasks::after_end(tasks::after_launch(m, id, now), id, later);
            &&& tasks::status_in(after, id) == TaskStatus::Finished
            &&& tasks::launch_result(after, id) matches Ok(t) && t.last_run_at == Some(now)
        }),
{
    let booked = tasks::after_launch(m, id, now);
    tasks::lemma_first_of(m.tasks, id);
    tasks::lemma_first_of(booked.tasks, id);
    let i = tasks::first_of(m.tasks, id)->0;
    assert(booked.tasks[i].id == id);
    assert(tasks::has_task(booked.tasks, id));
    let k = tasks::first_of(booked.tasks, id)->0;
    assert(booked.tasks[k].id == id);
    if k < i {
        assert(m.tasks[k].id == id);
    }
}

/// A launch or a stop touches no other task.
pub proof fn law_runs_are_independent(m: StoreModel, id: u64, other: u64, now: i64)
    requires
        other != id,
    ensures
        tasks::status_in(tasks::after_launch(m, id, now), other) == tasks::status_in(m, other),
        tasks::status_in(tasks::after_stop(m, id, now), other) == tasks::status_in(m, other),
        tasks::status_in(tasks::after_end(m, id, now), other) == tasks::status_in(m, other),
{
}

/// What a poll makes of the status of a listed task.
pub proof fn law_poll_follows_the_session(
    m: StoreModel,
    id: u64,
    live: Seq<Seq<char>>,
    now: i64,
)
    requires
        tasks::orderly(m),
        tasks::has_task(m.tasks, id),
    ensures
        ({
            let alive = live.contains(tasks::session_name_of(id));
            let before = tasks::status_in(m, id);
            let after = tasks::status_in(tasks::after_poll(m, live, now), id);
            &&& before == TaskStatus::Launching && alive ==> after == TaskStatus::Running
            &&& before == TaskStatus::Launching && !alive ==> after == (if now
                - m.runtime[id].since >= tasks::LAUNCH_GRACE_SECS {
                TaskStatus::Finished
            } else {
                TaskStatus::Launching
            })
            &&& before == TaskStatus::Running ==> after == (if alive {
                TaskStatus::Running
            } else {
                TaskStatus::Finished
            })
            &&& before == TaskStatus::Finished ==> after == TaskStatus::Finished
            &&& before == TaskStatus::Idle ==> after == (if alive {
                TaskStatus::Running
            } else {
                TaskStatus::Idle
            })
        }),
{
}

/// A launch that never shows a session does not last: a poll past the grace
/// period leaves no task launching.
pub proof fn law_launches_do_not_hang(
    m: StoreModel,
    id: u64,
    live: Seq<Seq<char>>,
    now: i64,
)
    requires
        tasks::has_task(m.tasks, id),
        m.runtime.contains_key(id) ==> now - m.runtime[id].since >= tasks::LAUNCH_GRACE_SECS,
    ensures
        tasks::status_in(tasks::after_poll(m, live, now), id) != TaskStatus::Launching,
{
}

/// Polling the same sessions at the same clock once more changes nothing.
pub proof fn law_poll_is_idempotent(m: StoreModel, live: Seq<Seq<char>>, now: i64)
    ensures
        tasks::after_poll(tasks::after_poll(m, live, now), live, now) == tasks::after_poll(
            m,
            live,
            now,
        ),
{
    let once = tasks::reconciled(m.runtime, m.tasks, live, now);
    let twice = tasks::reconciled(once, m.tasks, live, now);
    assert forall|id: u64| tasks::known(twice, id) == #[trigger] tasks::known(once, id) by {}
    assert forall|id: u64| twice.contains_key(id) == #[trigger] once.contains_key(id) by {
        assert(tasks::known(twice, id) == tasks::known(once, id));
    }
    assert forall|id: u64| once.contains_key(id) implies twice[id] == #[trigger] once[id] by {
        assert(tasks::known(twice, id) == tasks::known(once, id));
    }
    assert(twice =~= once);
}

/// A poll changes no definition, and nothing about a run whose task is not in
/// the list.
pub proof fn law_poll_changes_runs_only(
    m: StoreModel,
    live: Seq<Seq<char>>,
    now: i64,
    other: u64,
)
    ensures
        tasks::after_poll(m, live, now).tasks == m.tasks,
        !tasks::has_task(m.tasks, other) ==> tasks::known(
            tasks::after_poll(m, live, now).runtime,
            other,
        ) == tasks::known(m.runtime, other),
{
}

// ---- rows -----------------------------------------------------------------

/// The list shows one row per task: running tasks first, then idle ones, then
/// finished ones; within each the latest run first, then the smaller id.
pub proof fn law_rows_cover_the_tasks_in_order(m: StoreModel, sessions: Seq<RawModel>)
    ensures
        ({
            let rows = tasks::task_rows(m, sessions);
            let shown = order::arranged::<TaskView>(rows);
            &&& shown.to_multiset() == rows.to_multiset()
            &&& shown.len() == m.tasks.len()
            &&& forall|i: int|
                0 <= i < m.tasks.len() ==> (#[trigger] rows[i]).id == m.tasks[i].id
                    && rows[i].status == tasks::status_in(m, m.tasks[i].id)
            &&& forall|i: int, j: int|
                0 <= i < j < shown.len() ==> {
                    let a = #[trigger] shown[i];
                    let b = #[trigger] shown[j];
                    let x = tasks::status_rank(a.status);
                    let y = tasks::status_rank(b.status);
                    let p = tasks::last_run(a.last_run_at);
                    let q = tasks::last_run(b.last_run_at);
                    x < y || (x == y && (p > q || (p == q && a.id <= b.id)))
                }
        }),
{
    let rows = tasks::task_rows(m, sessions);
    order::law_arranged::<TaskView>(rows);
    assert(order::in_order::<TaskView>(order::arranged::<TaskView>(rows)));
}

} // verus!
