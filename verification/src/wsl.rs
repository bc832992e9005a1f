//! The command lines that reach into WSL, and what their outcome means.
//!
//! Nothing here starts a process. The functions say which program runs with
//! which arguments, and how the result of the run is reported.
use vstd::prelude::*;
use vstd::string::*;

use crate::model;
use crate::text;

verus! {

/// How long a WSL command may take before it is killed (seconds).
pub const CMD_TIMEOUT_SECS: u64 = 25;

/// How long the output pipes are still read once the process is gone.
pub const DRAIN_GRACE_SECS: u64 = 2;

/// How often a running child is checked (milliseconds).
pub const POLL_INTERVAL_MS: u64 = 50;

/// One program start: what to run, what to feed it, and for how long.
#[derive(Debug)]
pub struct Invocation {
    pub program: String,
    pub args: Vec<String>,
    /// text for the standard input; none closes it
    pub stdin: Option<String>,
    pub timeout_secs: u64,
}

/// A program start as the contracts see it.
pub struct InvocationModel {
    pub program: Seq<char>,
    pub args: Seq<Seq<char>>,
    pub stdin: Option<Seq<char>>,
    pub timeout_secs: int,
}

impl View for Invocation {
    type V = InvocationModel;

    open spec fn view(&self) -> InvocationModel {
        InvocationModel {
            program: self.program@,
            args: model::views(self.args@),
            stdin: model::view_opt(self.stdin),
            timeout_secs: self.timeout_secs as int,
        }
    }
}

// ---- command lines --------------------------------------------------------

/// The option that selects a distro; the default distro needs none.
pub open spec fn distro_option(distro: Seq<char>) -> Seq<Seq<char>> {
    if distro.len() == 0 {
        Seq::empty()
    } else {
        seq!["-d"@, distro]
    }
}

/// The program start for a command line inside the distro. From Windows it
/// goes through `wsl.exe`; inside WSL the tool itself is run.
pub open spec fn started(
    windows: bool,
    distro: Seq<char>,
    line: Seq<Seq<char>>,
    stdin: Option<Seq<char>>,
) -> InvocationModel {
    InvocationModel {
        program: if windows {
            "wsl.exe"@
        } else {
            line[0]
        },
        args: if windows {
            distro_option(distro) + line
        } else {
            line.skip(1)
        },
        stdin,
        timeout_secs: CMD_TIMEOUT_SECS as int,
    }
}

/// Owned copies of some words.
pub(crate) fn owned(parts: &[&str]) -> (r: Vec<String>)
    ensures
        model::views(r@) == model::views(parts@),
{
    let mut r: Vec<String> = Vec::new();
    let mut i: usize = 0;
    let ghost all = model::views(parts@);
    proof {
        assert(model::views(r@) =~= all.take(0));
    }
    while i < parts.len()
        invariant
            i <= parts@.len(),
            all == model::views(parts@),
            model::views(r@) == all.take(i as int),
        decreases parts@.len() - i,
    {
        let w = parts[i].to_owned();
        proof {
            model::lemma_views_push(r@, w);
            model::lemma_take_step(all, i as int);
        }
        r.push(w);
        i = i + 1;
    }
    proof {
        model::lemma_take_all(all);
    }
    r
}

/// The program start for a command line inside the distro; see `started`.
/// Outside Windows the first word is the program, so there has to be one.
pub fn build_command(windows: bool, distro: &str, args: &[&str], stdin: Option<String>) -> (r:
    Invocation)
    requires
        windows || args@.len() > 0,
    ensures
        r@ == started(windows, distro@, model::views(args@), model::view_opt(stdin)),
{
    let ghost line = model::views(args@);
    let mut words = owned(args);
    if windows {
        let mut full: Vec<String> = Vec::new();
        if !distro.is_empty() {
            let parts = ["-d", distro];
            full = owned(&parts);
        }
        proof {
            assert(model::views(full@) =~= distro_option(distro@));
            assert(model::views(full@ + words@) =~= model::views(full@) + model::views(words@));
        }
        full.append(&mut words);
        Invocation {
            program: "wsl.exe".to_owned(),
            args: full,
            stdin,
            timeout_secs: CMD_TIMEOUT_SECS,
        }
    } else {
        proof {
            assert(words@.len() == model::views(words@).len());
        }
        let ghost before = words@;
        let program = words.remove(0);
        proof {
            assert(model::views(words@) =~= line.skip(1));
            assert(program@ == model::views(before)[0]);
        }
        Invocation { program, args: words, stdin, timeout_secs: CMD_TIMEOUT_SECS }
    }
}

/// Run a command inside WSL with nothing on its standard input.
pub fn run_wsl(windows: bool, distro: &str, args: &[&str]) -> (r: Invocation)
    requires
        windows || args@.len() > 0,
    ensures
        r@ == started(windows, distro@, model::views(args@), None),
{
    build_command(windows, distro, args, None)
}

/// Run a command inside WSL with `input` on its standard input.
pub fn run_wsl_stdin(windows: bool, distro: &str, args: &[&str], input: &str) -> (r: Invocation)
    requires
        windows || args@.len() > 0,
    ensures
        r@ == started(windows, distro@, model::views(args@), Some(input@)),
{
    build_command(windows, distro, args, Some(input.to_owned()))
}

/// Send tmux key names to a pane. Each key is an argument of its own and never
/// passes through a shell.
pub fn tmux_send_keys(windows: bool, distro: &str, pane: &str, keys: &[&str]) -> (r: Invocation)
    ensures
        r@ == started(
            windows,
            distro@,
            seq!["tmux"@, "send-keys"@, "-t"@, pane@] + model::views(keys@),
            None,
        ),
{
    let mut line: Vec<&str> = Vec::new();
    line.push("tmux");
    line.push("send-keys");
    line.push("-t");
    line.push(pane);
    let ghost head = seq!["tmux"@, "send-keys"@, "-t"@, pane@];
    let ghost all = model::views(keys@);
    let mut i: usize = 0;
    proof {
        assert(model::views(line@) =~= head + all.take(0));
    }
    while i < keys.len()
        invariant
            i <= keys@.len(),
            all == model::views(keys@),
            model::views(line@) == head + all.take(i as int),
        decreases keys@.len() - i,
    {
        proof {
            model::lemma_views_push(line@, keys@[i as int]);
            model::lemma_take_step(all, i as int);
            assert(head + all.take(i + 1) =~= (head + all.take(i as int)).push(all[i as int]));
        }
        line.push(keys[i]);
        i = i + 1;
    }
    proof {
        model::lemma_take_all(all);
        assert(model::views(line@).len() == line@.len());
    }
    run_wsl(windows, distro, line.as_slice())
}

/// Create a detached tmux session for a task launch. tmux itself changes into
/// the working directory; name, directory and command are one argument each.
pub fn tmux_new_session(windows: bool, distro: &str, name: &str, cwd: &str, command: &str) -> (r:
    Invocation)
    ensures
        r@ == started(
            windows,
            distro@,
            seq!["tmux"@, "new-session"@, "-d"@, "-s"@, name@, "-c"@, cwd@, command@],
            None,
        ),
{
    let line = ["tmux", "new-session", "-d", "-s", name, "-c", cwd, command];
    proof {
        assert(model::views(line@) =~= seq![
            "tmux"@,
            "new-session"@,
            "-d"@,
            "-s"@,
            name@,
            "-c"@,
            cwd@,
            command@,
        ]);
    }
    run_wsl(windows, distro, &line)
}

/// Kill a task's tmux session.
pub fn tmux_kill_session(windows: bool, distro: &str, name: &str) -> (r: Invocation)
    ensures
        r@ == started(windows, distro@, seq!["tmux"@, "kill-session"@, "-t"@, name@], None),
{
    let line = ["tmux", "kill-session", "-t", name];
    proof {
        assert(model::views(line@) =~= seq!["tmux"@, "kill-session"@, "-t"@, name@]);
    }
    run_wsl(windows, distro, &line)
}

/// One way to open a terminal window.
#[derive(Debug)]
pub struct TerminalCommand {
    pub program: String,
    pub args: Vec<String>,
    /// the program needs a console window of its own
    pub new_console: bool,
}

/// The arguments with which `wsl.exe` attaches to a tmux session.
pub open spec fn attach_line(distro: Seq<char>, session: Seq<char>) -> Seq<Seq<char>> {
    distro_option(distro) + seq!["--"@, "tmux"@, "attach"@, "-t"@, session]
}

fn attach_args(distro: &str, session: &str) -> (r: Vec<String>)
    ensures
        model::views(r@) == attach_line(distro@, session@),
{
    let option = ["-d", distro];
    let rest = ["--", "tmux", "attach", "-t", session];
    let mut r: Vec<String> = Vec::new();
    proof {
        assert(model::views(r@) =~= Seq::empty());
        assert(model::views(option@) =~= seq!["-d"@, distro@]);
        assert(model::views(rest@) =~= seq!["--"@, "tmux"@, "attach"@, "-t"@, session@]);
    }
    if !distro.is_empty() {
        r = owned(&option);
    }
    let mut tail = owned(&rest);
    proof {
        assert(model::views(r@ + tail@) =~= model::views(r@) + model::views(tail@));
    }
    r.append(&mut tail);
    r
}

/// The same command line for a terminal that starts `wsl.exe` itself.
fn hosted_args(distro: &str, session: &str) -> (r: Vec<String>)
    ensures
        model::views(r@) == seq!["wsl.exe"@] + attach_line(distro@, session@),
{
    let first = ["wsl.exe"];
    let mut r = owned(&first);
    let mut tail = attach_args(distro, session);
    proof {
        assert(model::views(first@) =~= seq!["wsl.exe"@]);
        assert(model::views(r@ + tail@) =~= model::views(r@) + model::views(tail@));
    }
    r.append(&mut tail);
    r
}

/// A way to open a terminal window, as the contracts see it.
pub struct TerminalModel {
    pub program: Seq<char>,
    pub args: Seq<Seq<char>>,
    pub new_console: bool,
}

impl View for TerminalCommand {
    type V = TerminalModel;

    open spec fn view(&self) -> TerminalModel {
        TerminalModel {
            program: self.program@,
            args: model::views(self.args@),
            new_console: self.new_console,
        }
    }
}

/// The ways to open a terminal on a tmux session, in the order in which to try
/// them: Windows Terminal, then a console of its own. Outside Windows there is
/// nothing to open.
pub open spec fn terminals(windows: bool, distro: Seq<char>, session: Seq<char>) -> Seq<
    TerminalModel,
> {
    if windows {
        seq![
            TerminalModel {
                program: "wt.exe"@,
                args: seq!["wsl.exe"@] + attach_line(distro, session),
                new_console: false,
            },
            TerminalModel {
                program: "wsl.exe"@,
                args: attach_line(distro, session),
                new_console: true,
            },
        ]
    } else {
        Seq::empty()
    }
}

/// Open a visible terminal attached to a tmux session: the ways to try, in
/// order, where the first that starts is enough. On Windows that is Windows
/// Terminal, then a console of its own. Elsewhere there is nothing to open:
/// the session is visible to the detector already.
pub fn open_terminal(windows: bool, distro: &str, session: &str) -> (r: Vec<TerminalCommand>)
    ensures
        model::views(r@) == terminals(windows, distro@, session@),
{
    let mut r: Vec<TerminalCommand> = Vec::new();
    if windows {
        r.push(
            TerminalCommand {
                program: "wt.exe".to_owned(),
                args: hosted_args(distro, session),
                new_console: false,
            },
        );
        r.push(
            TerminalCommand {
                program: "wsl.exe".to_owned(),
                args: attach_args(distro, session),
                new_console: true,
            },
        );
    }
    proof {
        assert(model::views(r@) =~= terminals(windows, distro@, session@));
    }
    r
}

/// What to do next about opening a terminal.
#[derive(Debug)]
pub enum TerminalStep {
    /// try the way with this number
    Try { way: usize },
    /// nothing more to try
    Done { result: Result<(), String> },
}

/// What to do next about opening a terminal, as the contracts see it.
pub enum TerminalNext {
    Try { way: int },
    Done { result: Result<(), Seq<char>> },
}

impl View for TerminalStep {
    type V = TerminalNext;

    open spec fn view(&self) -> TerminalNext {
        match *self {
            TerminalStep::Try { way } => TerminalNext::Try { way: way as int },
            TerminalStep::Done { result: Ok(_) } => TerminalNext::Done { result: Ok(()) },
            TerminalStep::Done { result: Err(e) } => TerminalNext::Done { result: Err(e@) },
        }
    }
}

/// What to do next about opening a terminal, given how many ways there are and
/// how the tries so far ended. The first way that starts is enough; where none
/// does, the last one says why. Where there is no way at all there is nothing to
/// open, which is no fault.
pub open spec fn terminal_next(ways: int, tries: Seq<Result<(), String>>) -> TerminalNext {
    if tries.len() > 0 && tries.last() is Ok {
        TerminalNext::Done { result: Ok(()) }
    } else if tries.len() < ways {
        TerminalNext::Try { way: tries.len() as int }
    } else if tries.len() == 0 {
        TerminalNext::Done { result: Ok(()) }
    } else {
        TerminalNext::Done { result: Err("打开终端失败: "@ + tries.last()->Err_0@) }
    }
}

/// Open a terminal: try the next way, or be done; see `terminal_next`.
pub fn terminal_step(ways: usize, tries: &[Result<(), String>]) -> (r: TerminalStep)
    ensures
        r@ == terminal_next(ways as int, tries@),
{
    let n: usize = tries.len();
    if n == 0 {
        return if ways > 0 {
            TerminalStep::Try { way: 0 }
        } else {
            TerminalStep::Done { result: Ok(()) }
        };
    }
    match &tries[n - 1] {
        Ok(_) => TerminalStep::Done { result: Ok(()) },
        Err(e) => if n < ways {
            TerminalStep::Try { way: n }
        } else {
            TerminalStep::Done { result: Err(text::cat("打开终端失败: ", e.as_str())) }
        },
    }
}

// ---- waiting --------------------------------------------------------------

/// What to do with a child that was started.
#[derive(Debug, Clone, Copy, PartialEq, Eq, Structural)]
pub enum WaitStep {
    /// it is gone: collect its output
    Collect,
    /// it ran out of time: kill and reap it
    Kill,
    /// look again a moment later
    Sleep,
}

/// What to do next with a child, given whether it has exited and whether its
/// time is up. An exit that was seen counts even past the deadline.
pub open spec fn wait_next(exited: bool, past_deadline: bool) -> WaitStep {
    if exited {
        WaitStep::Collect
    } else if past_deadline {
        WaitStep::Kill
    } else {
        WaitStep::Sleep
    }
}

/// What to do next with a child; see `wait_next`.
pub fn wait_step(exited: bool, past_deadline: bool) -> (r: WaitStep)
    ensures
        r == wait_next(exited, past_deadline),
{
    if exited {
        WaitStep::Collect
    } else if past_deadline {
        WaitStep::Kill
    } else {
        WaitStep::Sleep
    }
}

// ---- outcomes -------------------------------------------------------------

/// How a run of a command ended.
#[derive(Debug)]
pub enum RunEnd {
    /// the program could not be started
    NotStarted { error: String },
    /// there was no pipe to its standard input
    NoStdin,
    /// its input could not be written
    NotFed { error: String },
    /// its state could not be read
    NotWatched { error: String },
    /// it was killed when its time was up
    TimedOut { timeout_secs: u64 },
    /// it exited, with a code unless a signal ended it
    Exited { code: Option<i32>, output: String, errors: String },
}

/// What a failed command has to say for itself: its error output, or its
/// ordinary output where that is blank.
pub open spec fn failure_detail(output: Seq<char>, errors: Seq<char>) -> Seq<char> {
    if text::blank(errors) {
        text::trimmed(output)
    } else {
        text::trimmed(errors)
    }
}

/// An exit status in words.
pub open spec fn exit_text(code: Option<i32>) -> Seq<char> {
    match code {
        Some(c) => text::signed_decimal(c as int),
        None => "signal"@,
    }
}

/// What a command's end is reported as: its output where it exited with code
/// 0, an error text otherwise.
pub open spec fn run_report(end: RunEnd) -> Result<Seq<char>, Seq<char>> {
    match end {
        RunEnd::NotStarted { error } => Err("启动命令失败: "@ + error@),
        RunEnd::NoStdin => Err("无 stdin"@),
        RunEnd::NotFed { error } => Err("写入 stdin 失败: "@ + error@),
        RunEnd::NotWatched { error } => Err("等待进程失败: "@ + error@),
        RunEnd::TimedOut { timeout_secs } => Err(
            "命令超时（>"@ + text::decimal(timeout_secs as nat) + "s），已终止"@,
        ),
        RunEnd::Exited { code, output, errors } => if code == Some(0i32) {
            Ok(output@)
        } else {
            let detail = failure_detail(output@, errors@);
            Err(
                "命令退出码 "@ + exit_text(code) + (if detail.len() == 0 {
                    Seq::empty()
                } else {
                    ": "@ + detail
                }),
            )
        },
    }
}

/// The model of a result whose values are texts.
pub open spec fn text_result(r: Result<String, String>) -> Result<Seq<char>, Seq<char>> {
    match r {
        Ok(s) => Ok(s@),
        Err(e) => Err(e@),
    }
}

/// Report how a run of a command ended; see `run_report`.
pub fn read_all(end: RunEnd) -> (r: Result<String, String>)
    ensures
        text_result(r) == run_report(end),
{
    match end {
        RunEnd::NotStarted { error } => Err(text::cat("启动命令失败: ", error.as_str())),
        RunEnd::NoStdin => Err("无 stdin".to_owned()),
        RunEnd::NotFed { error } => Err(text::cat("写入 stdin 失败: ", error.as_str())),
        RunEnd::NotWatched { error } => Err(text::cat("等待进程失败: ", error.as_str())),
        RunEnd::TimedOut { timeout_secs } => {
            let secs = text::decimal_of(timeout_secs);
            Err(text::cat3("命令超时（>", secs.as_str(), "s），已终止"))
        },
        RunEnd::Exited { code, output, errors } => {
            let status: String = match code {
                Some(c) => {
                    if c == 0 {
                        return Ok(output);
                    }
                    text::decimal_of_signed(c)
                },
                None => "signal".to_owned(),
            };
            let detail: String = if text::is_blank(errors.as_str()) {
                text::trim(output.as_str())
            } else {
                text::trim(errors.as_str())
            };
            let mut message = text::cat("命令退出码 ", status.as_str());
            if detail.as_str().is_empty() {
                proof {
                    assert(message@ + Seq::<char>::empty() =~= message@);
                }
            } else {
                let tail = text::cat(": ", detail.as_str());
                message.append(tail.as_str());
            }
            Err(message)
        },
    }
}

/// How a request to a resident child ended.
#[derive(Debug)]
pub enum RequestEnd {
    /// the request line could not be written
    NotWritten { error: String },
    /// one line came back
    Line { line: String },
    /// nothing came back in time
    TimedOut,
    /// the child closed its output
    Closed,
}

/// What a request is reported as: the line that came back, without its line
/// end, or an error text.
pub open spec fn request_report(end: RequestEnd) -> Result<Seq<char>, Seq<char>> {
    match end {
        RequestEnd::NotWritten { error } => Err("写入常驻进程失败: "@ + error@),
        RequestEnd::Line { line } => Ok(text::chomped(line@)),
        RequestEnd::TimedOut => Err("常驻进程响应超时"@),
        RequestEnd::Closed => Err("常驻进程已退出"@),
    }
}

/// Whether a child counts as gone after a request: after any failure it is
/// killed, so that the next request starts a new one instead of reading a late
/// answer.
pub open spec fn gone_after(end: RequestEnd) -> bool {
    request_report(end) is Err
}

/// Report how a request ended, and whether the child counts as gone.
pub fn request(end: RequestEnd) -> (r: (Result<String, String>, bool))
    ensures
        text_result(r.0) == request_report(end),
        r.1 == gone_after(end),
{
    match end {
        RequestEnd::NotWritten { error } => (
            Err(text::cat("写入常驻进程失败: ", error.as_str())),
            true,
        ),
        RequestEnd::Line { line } => (Ok(text::chomp(line.as_str())), false),
        RequestEnd::TimedOut => (Err("常驻进程响应超时".to_owned()), true),
        RequestEnd::Closed => (Err("常驻进程已退出".to_owned()), true),
    }
}

/// Whether tmux says that a session does not exist: it does not find it, or no
/// server is running at all.
pub open spec fn says_gone(errors: Seq<char>) -> bool {
    text::holds(errors, "can't find session"@) || text::holds(errors, "no server running"@)
}

/// Whether a run of `tmux kill-session` leaves the session gone: it was killed,
/// or tmux exited with code 1 and says that there is no such session.
pub open spec fn session_gone(end: RunEnd) -> bool {
    match end {
        RunEnd::Exited { code, output: _, errors } => code == Some(0i32) || (code == Some(1i32)
            && says_gone(errors@)),
        _ => false,
    }
}

/// Report how killing a session ended. A session that was gone already is as
/// good as one that was killed.
pub fn kill_result(end: RunEnd) -> (r: Result<(), String>)
    ensures
        r is Ok <==> session_gone(end),
        r matches Err(e) ==> run_report(end) == Err::<Seq<char>, Seq<char>>(e@),
{
    if let RunEnd::Exited { code: Some(c), output: _, errors } = &end {
        if *c == 1 && (text::contains(errors.as_str(), "can't find session") || text::contains(
            errors.as_str(),
            "no server running",
        )) {
            return Ok(());
        }
    }
    match read_all(end) {
        Ok(_) => Ok(()),
        Err(e) => Err(e),
    }
}

// ---- laws -----------------------------------------------------------------

/// Keys reach tmux as they are: the arguments behind the pane are the keys,
/// one for one, whatever they hold.
pub proof fn law_keys_are_single_arguments(
    windows: bool,
    distro: Seq<char>,
    pane: Seq<char>,
    keys: Seq<Seq<char>>,
)
    ensures
        ({
            let line = seq!["tmux"@, "send-keys"@, "-t"@, pane] + keys;
            let args = started(windows, distro, line, None).args;
            args.len() >= keys.len() && args.skip(args.len() - keys.len()) == keys
        }),
{
    let line = seq!["tmux"@, "send-keys"@, "-t"@, pane] + keys;
    let args = started(windows, distro, line, None).args;
    assert(args.skip(args.len() - keys.len()) =~= keys);
}

/// A command succeeds exactly when it exited with code 0, and what it wrote is
/// handed over unchanged.
pub proof fn law_only_exit_zero_succeeds(end: RunEnd)
    ensures
        run_report(end) is Ok <==> end is Exited && end->Exited_code == Some(0i32),
        run_report(end) is Ok ==> run_report(end)->Ok_0 == end->Exited_output@,
{
}

/// What a program start is made of. From Windows it is `wsl.exe` with `-d` and
/// the distro in front, where a distro is named, and the command line behind;
/// elsewhere it is the command line itself. Its input is passed on, and it may
/// take 25 seconds.
pub proof fn law_starts_carry_distro_and_line(
    windows: bool,
    distro: Seq<char>,
    line: Seq<Seq<char>>,
    stdin: Option<Seq<char>>,
)
    requires
        line.len() > 0,
    ensures
        ({
            let i = started(windows, distro, line, stdin);
            &&& i.stdin == stdin
            &&& i.timeout_secs == 25
            &&& windows ==> i.program == "wsl.exe"@
            &&& windows && distro.len() == 0 ==> i.args == line
            &&& windows && distro.len() > 0 ==> {
                &&& i.args.len() == line.len() + 2
                &&& i.args[0] == "-d"@
                &&& i.args[1] == distro
                &&& i.args.skip(2) == line
            }
            &&& !windows ==> seq![i.program] + i.args == line
        }),
{
    let i = started(windows, distro, line, stdin);
    if windows {
        if distro.len() == 0 {
            assert(i.args =~= line);
        } else {
            assert(i.args.skip(2) =~= line);
        }
    } else {
        assert(seq![i.program] + i.args =~= line);
    }
}

/// The ways to open a terminal: outside Windows none. On Windows the first is
/// Windows Terminal, which is told to start `wsl.exe`; the second is `wsl.exe`
/// in a console of its own. Both attach to the session, in the distro where one
/// is named.
pub proof fn law_terminals_attach_to_the_session(distro: Seq<char>, session: Seq<char>)
    ensures
        terminals(false, distro, session).len() == 0,
        ({
            let ways = terminals(true, distro, session);
            let wt = ways[0];
            let own = ways[1];
            &&& ways.len() == 2
            &&& wt.program == "wt.exe"@ && !wt.new_console
            &&& own.program == "wsl.exe"@ && own.new_console
            &&& wt.args == seq!["wsl.exe"@] + own.args
            &&& distro.len() == 0 ==> own.args == seq!["--"@, "tmux"@, "attach"@, "-t"@, session]
            &&& distro.len() > 0 ==> own.args == seq![
                "-d"@,
                distro,
                "--"@,
                "tmux"@,
                "attach"@,
                "-t"@,
                session,
            ]
        }),
{
    let own = terminals(true, distro, session)[1];
    if distro.len() == 0 {
        assert(own.args =~= seq!["--"@, "tmux"@, "attach"@, "-t"@, session]);
    } else {
        assert(own.args =~= seq!["-d"@, distro, "--"@, "tmux"@, "attach"@, "-t"@, session]);
    }
}

/// A failed command is reported with its exit code, or as ended by a signal, and
/// with what it had to say: its error output where it has any, else its ordinary
/// output, without the white space around it.
pub proof fn law_failures_say_what_happened(
    code: Option<i32>,
    output: String,
    errors: String,
    detail: Seq<char>,
)
    requires
        code != Some(0i32),
        detail == (if text::trimmed(errors@).len() > 0 {
            text::trimmed(errors@)
        } else {
            text::trimmed(output@)
        }),
    ensures
        ({
            let status = match code {
                Some(c) => text::signed_decimal(c as int),
                None => "signal"@,
            };
            let r = run_report((RunEnd::Exited { code, output, errors }));
            &&& detail.len() > 0 ==> r == Err::<Seq<char>, Seq<char>>(
                "命令退出码 "@ + status + ": "@ + detail,
            )
            &&& detail.len() == 0 ==> r == Err::<Seq<char>, Seq<char>>("命令退出码 "@ + status)
        }),
{
    text::lemma_trimmed(errors@);
    let status = match code {
        Some(c) => text::signed_decimal(c as int),
        None => "signal"@,
    };
    let r = run_report((RunEnd::Exited { code, output, errors }));
    assert("命令退出码 "@ + status + (": "@ + detail) =~= "命令退出码 "@ + status + ": "@ + detail);
    assert("命令退出码 "@ + status + Seq::<char>::empty() =~= "命令退出码 "@ + status);
}

/// A command that never came to its end, and a request without an answer, are
/// told apart, and the reason is passed on word for word.
pub proof fn law_reasons_are_passed_on(error: String, timeout_secs: u64, line: String)
    ensures
        run_report((RunEnd::NotStarted { error })) == Err::<Seq<char>, Seq<char>>(
            "启动命令失败: "@ + error@,
        ),
        run_report((RunEnd::NotFed { error })) == Err::<Seq<char>, Seq<char>>(
            "写入 stdin 失败: "@ + error@,
        ),
        run_report((RunEnd::NotWatched { error })) == Err::<Seq<char>, Seq<char>>(
            "等待进程失败: "@ + error@,
        ),
        run_report((RunEnd::TimedOut { timeout_secs })) == Err::<Seq<char>, Seq<char>>(
            "命令超时（>"@ + text::decimal(timeout_secs as nat) + "s），已终止"@,
        ),
        run_report(RunEnd::NoStdin) == Err::<Seq<char>, Seq<char>>("无 stdin"@),
        request_report((RequestEnd::NotWritten { error })) == Err::<Seq<char>, Seq<char>>(
            "写入常驻进程失败: "@ + error@,
        ),
        request_report(RequestEnd::TimedOut) == Err::<Seq<char>, Seq<char>>("常驻进程响应超时"@),
        request_report(RequestEnd::Closed) == Err::<Seq<char>, Seq<char>>("常驻进程已退出"@),
        request_report((RequestEnd::Line { line })) matches Ok(l) && l == text::chomped(line@),
{
}

/// Killing a session succeeds exactly where it is gone afterwards: the command
/// exited with 0, or with 1 and the word of tmux that there is no such session.
pub proof fn law_kill_succeeds_where_the_session_is_gone(end: RunEnd)
    ensures
        session_gone(end) <==> end is Exited && (end->Exited_code == Some(0i32) || (
        end->Exited_code == Some(1i32) && (text::holds(
            end->Exited_errors@,
            "can't find session"@,
        ) || text::holds(end->Exited_errors@, "no server running"@)))),
{
}

/// Ways to open a terminal are tried in their order, each once, until one
/// starts. It fails exactly where there was a way and every way failed, with
/// what the last one said.
pub proof fn law_ways_are_tried_in_order(ways: int, tries: Seq<Result<(), String>>)
    requires
        0 <= tries.len() <= ways,
        forall|i: int| 0 <= i < tries.len() - 1 ==> (#[trigger] tries[i]) is Err,
    ensures
        ({
            let next = terminal_next(ways, tries);
            let opened = exists|i: int| 0 <= i < tries.len() && (#[trigger] tries[i]) is Ok;
            &&& next is Try <==> !opened && tries.len() < ways
            &&& next is Try ==> next->way == tries.len()
            &&& next is Done ==> (next->result is Ok <==> opened || ways == 0)
            &&& next is Done && next->result is Err ==> next->result->Err_0 == "打开终端失败: "@
                + tries[ways - 1]->Err_0@
        }),
{
    if tries.len() > 0 {
        assert(tries[tries.len() - 1] == tries.last());
    }
}

/// The output of a child is collected exactly where its exit was seen, and it is
/// killed exactly where its time is up before that.
pub proof fn law_children_are_collected_or_killed(exited: bool, past_deadline: bool)
    ensures
        wait_next(exited, past_deadline) == WaitStep::Collect <==> exited,
        wait_next(exited, past_deadline) == WaitStep::Kill <==> past_deadline && !exited,
{
}

/// A child is kept exactly where it answered with a line.
pub proof fn law_only_answers_keep_a_child(end: RequestEnd)
    ensures
        gone_after(end) <==> !(end is Line),
        request_report(end) is Ok <==> end is Line,
{
}

} // verus!
