//! What one scan of the WSL side reports, and how a scan is obtained.
use vstd::prelude::*;
use vstd::string::*;

use crate::model;
use crate::settings::Settings;
use crate::text;
use crate::wsl;
use crate::wsl::Invocation;

verus! {

/// Where a process sits inside tmux.
#[derive(Debug)]
pub struct TmuxInfo {
    /// pane id, e.g. "%3"
    pub pane: String,
    pub session: String,
    /// window index, e.g. "0.1"
    pub window: String,
}

/// A tmux position as the contracts see it.
pub struct TmuxModel {
    pub pane: Seq<char>,
    pub session: Seq<char>,
    pub window: Seq<char>,
}

impl View for TmuxInfo {
    type V = TmuxModel;

    open spec fn view(&self) -> TmuxModel {
        TmuxModel { pane: self.pane@, session: self.session@, window: self.window@ }
    }
}

impl Clone for TmuxInfo {
    fn clone(&self) -> (r: TmuxInfo)
        ensures
            r == *self,
    {
        TmuxInfo {
            pane: self.pane.clone(),
            session: self.session.clone(),
            window: self.window.clone(),
        }
    }
}

/// Tokens a session has used so far, summed over its API requests.
#[derive(Debug, Clone, Copy, PartialEq, Eq, Structural)]
pub struct RawUsage {
    pub input: u64,
    pub cache_read: u64,
    pub cache_creation: u64,
    pub output: u64,
    pub requests: u32,
}

impl Default for RawUsage {
    fn default() -> (r: RawUsage)
        ensures
            r.input == 0,
            r.cache_read == 0,
            r.cache_creation == 0,
            r.output == 0,
            r.requests == 0,
    {
        RawUsage { input: 0, cache_read: 0, cache_creation: 0, output: 0, requests: 0 }
    }
}

/// One agent process and the state of its transcript.
#[derive(Debug)]
pub struct RawSession {
    pub pid: i32,
    pub cwd: String,
    pub tty: String,
    pub tmux: Option<TmuxInfo>,
    pub transcript: Option<String>,
    pub session_id: String,
    /// type of the last transcript entry: "assistant", "user", "attachment", ...
    pub last_type: String,
    pub last_ts: String,
    pub idle_sec: Option<i64>,
    pub preview: String,
    /// tokens used by this session so far (none before the first scan)
    pub usage: Option<RawUsage>,
    /// the last transcript entry is an assistant message with a tool call
    /// whose result is still missing
    pub tool_running: bool,
    /// name of that tool ("" when none)
    pub tool_name: String,
    /// a turn trailer follows the last turn: the turn really ended
    pub turn_complete: bool,
    /// the last turn holds only a thinking block
    pub thinking: bool,
    /// the transcript was written at or after the start of this process, so it
    /// is known to belong to it
    pub transcript_live: bool,
    /// the last turn reports an exhausted usage limit
    pub usage_limited: bool,
    /// epoch seconds when that usage window resets, where known
    pub resume_at: Option<i64>,
    /// seconds since a subagent of this session last wrote, where known
    pub subagent_idle_sec: Option<i64>,
}

/// A process and its transcript as the contracts see them.
pub struct RawModel {
    pub pid: i32,
    pub cwd: Seq<char>,
    pub tty: Seq<char>,
    pub tmux: Option<TmuxModel>,
    pub transcript: Option<Seq<char>>,
    pub session_id: Seq<char>,
    pub last_type: Seq<char>,
    pub last_ts: Seq<char>,
    pub idle_sec: Option<i64>,
    pub preview: Seq<char>,
    pub usage: Option<RawUsage>,
    pub tool_running: bool,
    pub tool_name: Seq<char>,
    pub turn_complete: bool,
    pub thinking: bool,
    pub transcript_live: bool,
    pub usage_limited: bool,
    pub resume_at: Option<i64>,
    pub subagent_idle_sec: Option<i64>,
}

impl View for RawSession {
    type V = RawModel;

    open spec fn view(&self) -> RawModel {
        RawModel {
            pid: self.pid,
            cwd: self.cwd@,
            tty: self.tty@,
            tmux: model::view_opt(self.tmux),
            transcript: model::view_opt(self.transcript),
            session_id: self.session_id@,
            last_type: self.last_type@,
            last_ts: self.last_ts@,
            idle_sec: self.idle_sec,
            preview: self.preview@,
            usage: self.usage,
            tool_running: self.tool_running,
            tool_name: self.tool_name@,
            turn_complete: self.turn_complete,
            thinking: self.thinking,
            transcript_live: self.transcript_live,
            usage_limited: self.usage_limited,
            resume_at: self.resume_at,
            subagent_idle_sec: self.subagent_idle_sec,
        }
    }
}

impl Clone for RawSession {
    fn clone(&self) -> (r: RawSession)
        ensures
            r == *self,
    {
        RawSession {
            pid: self.pid,
            cwd: self.cwd.clone(),
            tty: self.tty.clone(),
            tmux: match &self.tmux {
                Some(t) => Some(t.clone()),
                None => None,
            },
            transcript: match &self.transcript {
                Some(t) => Some(t.clone()),
                None => None,
            },
            session_id: self.session_id.clone(),
            last_type: self.last_type.clone(),
            last_ts: self.last_ts.clone(),
            idle_sec: self.idle_sec,
            preview: self.preview.clone(),
            usage: self.usage,
            tool_running: self.tool_running,
            tool_name: self.tool_name.clone(),
            turn_complete: self.turn_complete,
            thinking: self.thinking,
            transcript_live: self.transcript_live,
            usage_limited: self.usage_limited,
            resume_at: self.resume_at,
            subagent_idle_sec: self.subagent_idle_sec,
        }
    }
}

/// One scan: every agent process found, and the tmux sessions alive.
#[derive(Debug)]
pub struct RawStatus {
    pub now: String,
    /// clock of the WSL side, in whole epoch seconds
    pub now_epoch: i64,
    pub sessions: Vec<RawSession>,
    pub tmux_sessions: Vec<String>,
}

// ---- commands -------------------------------------------------------------

/// Where the script lands inside the distro for the resident process.
pub open spec fn serve_script_path() -> Seq<char> {
    "/tmp/clawmon-detect.py"@
}

/// The one-shot scan.
pub open spec fn scan_start(
    windows: bool,
    distro: Seq<char>,
    script: Seq<char>,
) -> wsl::InvocationModel {
    wsl::started(windows, distro, seq!["python3"@, "-"@], Some(script))
}

/// The upload of the script for the resident process.
pub open spec fn upload_start(
    windows: bool,
    distro: Seq<char>,
    script: Seq<char>,
) -> wsl::InvocationModel {
    wsl::started(
        windows,
        distro,
        seq!["sh"@, "-c"@, "cat > "@ + serve_script_path()],
        Some(script),
    )
}

/// The resident process.
pub open spec fn serve_start(windows: bool, distro: Seq<char>) -> wsl::InvocationModel {
    wsl::started(
        windows,
        distro,
        seq!["python3"@, "-u"@, serve_script_path(), "--serve"@],
        None,
    )
}

/// Run the detection script once, piped to a fresh interpreter.
pub fn detect(windows: bool, settings: &Settings, script: &str) -> (r: Invocation)
    ensures
        r@ == scan_start(windows, settings@.wsl_distro, script@),
{
    let line = ["python3", "-"];
    proof {
        assert(model::views(line@) =~= seq!["python3"@, "-"@]);
    }
    wsl::run_wsl_stdin(windows, settings.wsl_distro.as_str(), &line, script)
}

/// Start the resident detection process: the script is uploaded first, then
/// run in serve mode.
pub fn spawn_serve(windows: bool, settings: &Settings, script: &str) -> (r: (
    Invocation,
    Invocation,
))
    ensures
        r.0@ == upload_start(windows, settings@.wsl_distro, script@),
        r.1@ == serve_start(windows, settings@.wsl_distro),
{
    let distro: &str = settings.wsl_distro.as_str();
    let copy = text::cat("cat > ", "/tmp/clawmon-detect.py");
    let upload = ["sh", "-c", copy.as_str()];
    let serve = ["python3", "-u", "/tmp/clawmon-detect.py", "--serve"];
    proof {
        assert(model::views(upload@) =~= seq!["sh"@, "-c"@, "cat > "@ + serve_script_path()]);
        assert(model::views(serve@) =~= seq![
            "python3"@,
            "-u"@,
            serve_script_path(),
            "--serve"@,
        ]);
    }
    (
        wsl::run_wsl_stdin(windows, distro, &upload, script),
        wsl::run_wsl(windows, distro, &serve),
    )
}

/// The result of a one-shot scan, given what its output decoded to: a scan
/// that cannot be read is reported with the decoder's complaint.
pub fn scan_result(decoded: Result<RawStatus, String>) -> (r: Result<RawStatus, String>)
    ensures
        decoded is Ok ==> r == decoded,
        decoded is Err ==> r is Err && r->Err_0@ == "解析检测结果失败: "@ + decoded->Err_0@,
{
    match decoded {
        Ok(status) => Ok(status),
        Err(e) => Err(text::cat("解析检测结果失败: ", e.as_str())),
    }
}

// ---- the resident process -------------------------------------------------

/// Poll driver that keeps one resident detection process alive instead of
/// paying for a fresh interpreter on every poll.
///
/// Any failure on the resident path falls back to the one-shot scan for that
/// poll, and the next poll starts a new process.
#[derive(Debug)]
pub struct Detector {
    /// a resident process is held
    resident: bool,
    /// the distro it was started for
    distro: String,
}

/// The driver's state as the contracts see it.
pub struct DetectorModel {
    pub resident: bool,
    pub distro: Seq<char>,
}

/// What happened to a scan.
#[derive(Debug)]
pub enum DetectEvent {
    /// a poll begins, for this distro; `alive` tells whether the resident
    /// process of an earlier poll is still running
    Poll { distro: String, alive: bool },
    /// a resident process was started for this distro
    Spawned { distro: String },
    /// no resident process could be started
    SpawnFailed,
    /// the resident process answered, and the answer could be read
    Answered,
    /// the request failed, timed out, or the answer could not be read
    Broken,
}

/// What to do next for a scan.
#[derive(Debug, Clone, Copy, PartialEq, Eq, Structural)]
pub enum DetectAction {
    /// drop any resident process and start a new one
    Spawn,
    /// ask the resident process
    Request,
    /// hand out the answer
    Finish,
    /// drop any resident process and scan once without it
    OneShot,
}

/// The next state and action for an event.
pub open spec fn detect_step(m: DetectorModel, event: DetectEvent) -> (
    DetectorModel,
    DetectAction,
) {
    match event {
        DetectEvent::Poll { distro, alive } => if m.resident && m.distro == distro@ && alive {
            (m, DetectAction::Request)
        } else {
            (DetectorModel { resident: false, ..m }, DetectAction::Spawn)
        },
        DetectEvent::Spawned { distro } => (
            DetectorModel { resident: true, distro: distro@ },
            DetectAction::Request,
        ),
        DetectEvent::SpawnFailed => (
            DetectorModel { resident: false, ..m },
            DetectAction::OneShot,
        ),
        DetectEvent::Answered => (m, DetectAction::Finish),
        DetectEvent::Broken => (DetectorModel { resident: false, ..m }, DetectAction::OneShot),
    }
}

impl View for Detector {
    type V = DetectorModel;

    closed spec fn view(&self) -> DetectorModel {
        DetectorModel { resident: self.resident, distro: self.distro@ }
    }
}

impl Detector {
    /// No resident process yet.
    pub fn new() -> (r: Detector)
        ensures
            !r@.resident,
            r@.distro == Seq::<char>::empty(),
    {
        Detector { resident: false, distro: String::new() }
    }

    /// Take note of an event and say what comes next; see `detect_step`.
    pub fn detect(&mut self, event: DetectEvent) -> (r: DetectAction)
        ensures
            (final(self)@, r) == detect_step(old(self)@, event),
    {
        match event {
            DetectEvent::Poll { distro, alive } => {
                if self.resident && self.distro == distro && alive {
                    DetectAction::Request
                } else {
                    self.resident = false;
                    DetectAction::Spawn
                }
            },
            DetectEvent::Spawned { distro } => {
                self.resident = true;
                self.distro = distro;
                DetectAction::Request
            },
            DetectEvent::SpawnFailed => {
                self.resident = false;
                DetectAction::OneShot
            },
            DetectEvent::Answered => DetectAction::Finish,
            DetectEvent::Broken => {
                self.resident = false;
                DetectAction::OneShot
            },
        }
    }
}

impl Default for Detector {
    fn default() -> (r: Detector)
        ensures
            !r@.resident,
            r@.distro == Seq::<char>::empty(),
    {
        Detector::new()
    }
}

// ---- laws -----------------------------------------------------------------

/// A broken resident process never costs a poll: whatever goes wrong on the
/// resident path, the next action is the one-shot scan, and the poll after it
/// starts a new process.
pub proof fn law_resident_failure_falls_back(
    m: DetectorModel,
    failure: DetectEvent,
    distro: String,
    alive: bool,
)
    requires
        failure is SpawnFailed || failure is Broken,
    ensures
        detect_step(m, failure).1 == DetectAction::OneShot,
        detect_step(
            detect_step(m, failure).0,
            (DetectEvent::Poll { distro, alive }),
        ).1 == DetectAction::Spawn,
{
}

/// The resident process is asked only for the distro it was started for: a
/// poll for another distro starts a new process.
pub proof fn law_never_asks_the_wrong_distro(m: DetectorModel, distro: String, alive: bool)
    ensures
        ({
            let (next, action) = detect_step(m, (DetectEvent::Poll { distro, alive }));
            &&& action == DetectAction::Request || action == DetectAction::Spawn
            &&& action == DetectAction::Request ==> next.resident && next.distro == distro@ && alive
        }),
        ({
            let (next, action) = detect_step(m, (DetectEvent::Spawned { distro }));
            action == DetectAction::Request && next.resident && next.distro == distro@
        }),
{
}

/// Every program start for a scan names the configured distro: on Windows the
/// one-shot scan, the upload of the script and the resident process all carry
/// `-d` and the distro where one is configured. The scan and the upload read the
/// script, and the resident process is the uploaded one.
pub proof fn law_scans_run_in_the_configured_distro(distro: Seq<char>, script: Seq<char>)
    requires
        distro.len() > 0,
    ensures
        serve_script_path() == "/tmp/clawmon-detect.py"@,
        scan_start(true, distro, script).args == seq!["-d"@, distro, "python3"@, "-"@],
        scan_start(true, distro, script).stdin == Some(script),
        upload_start(true, distro, script).args == seq![
            "-d"@,
            distro,
            "sh"@,
            "-c"@,
            "cat > "@ + serve_script_path(),
        ],
        upload_start(true, distro, script).stdin == Some(script),
        serve_start(true, distro).args == seq![
            "-d"@,
            distro,
            "python3"@,
            "-u"@,
            serve_script_path(),
            "--serve"@,
        ],
        serve_start(true, distro).stdin is None,
        forall|i: wsl::InvocationModel|
            #![trigger i.program]
            i == scan_start(true, distro, script) || i == upload_start(true, distro, script) || i
                == serve_start(true, distro) ==> i.program == "wsl.exe"@ && i.timeout_secs == 25,
{
    assert(scan_start(true, distro, script).args =~= seq!["-d"@, distro, "python3"@, "-"@]);
    assert(upload_start(true, distro, script).args =~= seq![
        "-d"@,
        distro,
        "sh"@,
        "-c"@,
        "cat > "@ + serve_script_path(),
    ]);
    assert(serve_start(true, distro).args =~= seq![
        "-d"@,
        distro,
        "python3"@,
        "-u"@,
        serve_script_path(),
        "--serve"@,
    ]);
}

/// Without a distro, or inside WSL, the same command lines run as they are.
pub proof fn law_scans_run_without_a_distro(windows: bool, distro: Seq<char>, script: Seq<char>)
    requires
        windows ==> distro.len() == 0,
    ensures
        ({
            let scan = scan_start(windows, distro, script);
            let upload = upload_start(windows, distro, script);
            let serve = serve_start(windows, distro);
            &&& windows ==> scan.program == "wsl.exe"@ && upload.program == "wsl.exe"@
                && serve.program == "wsl.exe"@
            &&& scan.timeout_secs == 25 && upload.timeout_secs == 25 && serve.timeout_secs == 25
            &&& scan.stdin == Some(script) && upload.stdin == Some(script) && serve.stdin is None
            &&& line_of(windows, scan) == seq!["python3"@, "-"@]
            &&& line_of(windows, upload) == seq!["sh"@, "-c"@, "cat > "@ + serve_script_path()]
            &&& line_of(windows, serve) == seq![
                "python3"@,
                "-u"@,
                serve_script_path(),
                "--serve"@,
            ]
        }),
{
    assert(line_of(windows, scan_start(windows, distro, script)) =~= seq!["python3"@, "-"@]);
    assert(line_of(windows, upload_start(windows, distro, script)) =~= seq![
        "sh"@,
        "-c"@,
        "cat > "@ + serve_script_path(),
    ]);
    assert(line_of(windows, serve_start(windows, distro)) =~= seq![
        "python3"@,
        "-u"@,
        serve_script_path(),
        "--serve"@,
    ]);
}

/// The command line that a program start without a distro runs.
pub open spec fn line_of(windows: bool, i: wsl::InvocationModel) -> Seq<Seq<char>> {
    if windows {
        i.args
    } else {
        seq![i.program] + i.args
    }
}

/// A resident process is held exactly after one was started, as long as nothing
/// went wrong with it and it is the right one; an answer is handed out, and
/// nothing else is.
pub proof fn law_resident_process_is_held_while_it_works(m: DetectorModel, event: DetectEvent)
    ensures
        ({
            let (next, action) = detect_step(m, event);
            &&& action == DetectAction::Finish <==> event is Answered
            &&& action == DetectAction::OneShot <==> event is SpawnFailed || event is Broken
            &&& action == DetectAction::Spawn <==> event is Poll && !(m.resident && m.distro
                == event->Poll_distro@ && event->alive)
            &&& next.resident <==> (event is Spawned || (event is Answered && m.resident) || (
            event is Poll && m.resident && m.distro == event->Poll_distro@ && event->alive))
            &&& event is Spawned ==> next.distro == event->Spawned_distro@
            &&& !(event is Spawned) ==> next.distro == m.distro
        }),
{
}

} // verus!
