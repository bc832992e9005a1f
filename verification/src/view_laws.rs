//! What the contracts see of a value is the value itself, field by field.
use vstd::prelude::*;

use crate::commands::{Live, Plan, PollOutcome};
use crate::detector::{RawSession, TmuxInfo};
use crate::engine::{SessionEvent, SessionView};
use crate::model;
use crate::notice::Notice;
use crate::settings::Settings;
use crate::tasks::{Persisted, Task, TaskView};
use crate::wsl::{Invocation, TerminalCommand};

verus! {

/// A list is seen element by element, in its order, and nothing else is.
pub proof fn law_lists_are_seen_element_by_element<T: View>(s: Seq<T>, i: int)
    ensures
        model::views(s).len() == s.len(),
        0 <= i < s.len() ==> model::views(s)[i] == s[i]@,
{
}

/// An optional value is seen exactly where it is there.
pub proof fn law_options_are_seen_as_they_are<T: View>(o: Option<T>)
    ensures
        o is Some ==> model::view_opt(o) == Some(o->0@),
        o is None ==> model::view_opt(o) is None,
{
}

/// A session of a scan is seen field by field.
pub proof fn law_raw_session_is_seen_as_it_is(x: RawSession)
    ensures
        x@.pid == x.pid,
        x@.cwd == x.cwd@,
        x@.tty == x.tty@,
        x@.tmux == model::view_opt(x.tmux),
        x@.transcript == model::view_opt(x.transcript),
        x@.session_id == x.session_id@,
        x@.last_type == x.last_type@,
        x@.last_ts == x.last_ts@,
        x@.idle_sec == x.idle_sec,
        x@.preview == x.preview@,
        x@.usage == x.usage,
        x@.tool_running == x.tool_running,
        x@.tool_name == x.tool_name@,
        x@.turn_complete == x.turn_complete,
        x@.thinking == x.thinking,
        x@.transcript_live == x.transcript_live,
        x@.usage_limited == x.usage_limited,
        x@.resume_at == x.resume_at,
        x@.subagent_idle_sec == x.subagent_idle_sec,
{
}

/// A place in tmux is seen field by field.
pub proof fn law_tmux_info_is_seen_as_it_is(x: TmuxInfo)
    ensures
        x@.pane == x.pane@,
        x@.session == x.session@,
        x@.window == x.window@,
{
}

/// The settings are seen field by field.
pub proof fn law_settings_is_seen_as_it_is(x: Settings)
    ensures
        x@.poll_interval_secs == x.poll_interval_secs as int,
        x@.idle_green_secs == x.idle_green_secs as int,
        x@.blocked_after_secs == x.blocked_after_secs as int,
        x@.auto_continue == x.auto_continue,
        x@.wait_secs == x.wait_secs as int,
        x@.resume_keys == x.resume_keys@,
        x@.max_sends == x.max_sends as int,
        x@.retry_interval_secs == x.retry_interval_secs as int,
        x@.wsl_distro == x.wsl_distro@,
        x@.close_to_tray == x.close_to_tray,
        x@.language == x.language@,
        x@.notify_red == x.notify_red,
        x@.notify_continue == x.notify_continue,
        x@.notify_recovered == x.notify_recovered,
        x@.notify_turn_end == x.notify_turn_end,
        x@.notify_exit == x.notify_exit,
        x@.sound_alerts == x.sound_alerts,
        x@.show_glm_usage == x.show_glm_usage,
{
}

/// A row of the session list is seen field by field.
pub proof fn law_session_view_is_seen_as_it_is(x: SessionView)
    ensures
        x@.pid == x.pid,
        x@.project == x.project@,
        x@.cwd == x.cwd@,
        x@.tty == x.tty@,
        x@.tmux_label == model::view_opt(x.tmux_label),
        x@.session_id == x.session_id@,
        x@.state == x.state,
        x@.reason == x.reason,
        x@.idle_sec == x.idle_sec,
        x@.preview == x.preview@,
        x@.usage == x.usage,
        x@.pane == model::view_opt(x.pane),
        x@.controllable == x.controllable,
        x@.blocked_since == x.blocked_since,
        x@.sends == x.sends,
        x@.last_send_at == x.last_send_at,
        x@.countdown == x.countdown,
{
}

/// An event is seen field by field.
pub proof fn law_session_event_is_seen_as_it_is(x: SessionEvent)
    ensures
        x@.pid == x.pid,
        x@.kind == x.kind,
        x@.project == x.project@,
{
}

/// A task is seen field by field.
pub proof fn law_task_is_seen_as_it_is(x: Task)
    ensures
        x@.id == x.id,
        x@.title == x.title@,
        x@.cwd == x.cwd@,
        x@.command == x.command@,
        x@.created_at == x.created_at,
        x@.last_run_at == x.last_run_at,
{
}

/// A row of the task list is seen field by field.
pub proof fn law_task_view_is_seen_as_it_is(x: TaskView)
    ensures
        x@.id == x.id,
        x@.title == x.title@,
        x@.cwd == x.cwd@,
        x@.command == x.command@,
        x@.status == x.status,
        x@.session_name == x.session_name@,
        x@.session_id == model::view_opt(x.session_id),
        x@.pid == x.pid,
        x@.created_at == x.created_at,
        x@.last_run_at == x.last_run_at,
{
}

/// A task list on disk is seen field by field.
pub proof fn law_persisted_is_seen_as_it_is(x: Persisted)
    ensures
        x@.next_id == x.next_id,
        x@.tasks == model::views(x.tasks@),
{
}

/// A notification is seen field by field.
pub proof fn law_notice_is_seen_as_it_is(x: Notice)
    ensures
        x@.title == x.title@,
        x@.body == x.body@,
        x@.sound == x.sound,
{
}

/// A program start is seen field by field.
pub proof fn law_invocation_is_seen_as_it_is(x: Invocation)
    ensures
        x@.program == x.program@,
        x@.args == model::views(x.args@),
        x@.stdin == model::view_opt(x.stdin),
        x@.timeout_secs == x.timeout_secs as int,
{
}

/// A way to open a terminal is seen field by field.
pub proof fn law_terminal_command_is_seen_as_it_is(x: TerminalCommand)
    ensures
        x@.program == x.program@,
        x@.args == model::views(x.args@),
        x@.new_console == x.new_console,
{
}

/// Live tmux sessions are seen field by field.
pub proof fn law_live_is_seen_as_it_is(x: Live)
    ensures
        x@.names == model::views(x.names@),
        x@.now == x.now,
{
}

/// The outcome of a poll is seen field by field.
pub proof fn law_poll_outcome_is_seen_as_it_is(x: PollOutcome)
    ensures
        x@.rows == model::views(x.rows@),
        x@.due == x.due@,
        x@.notices == model::views(x.notices@),
        x@.live == model::view_opt(x.live),
        x@.warning == model::view_opt(x.warning),
{
}

/// A plan is seen field by field.
pub proof fn law_plan_is_seen_as_it_is(x: Plan)
    ensures
        x@.start == x.start@,
        x@.receipt == x.receipt@,
{
}

} // verus!
