use clawmon_core::wsl::{
    build_command, kill_result, open_terminal, read_all, request, run_wsl, run_wsl_stdin,
    terminal_step, tmux_kill_session, tmux_new_session, tmux_send_keys, wait_step, RequestEnd,
    RunEnd, TerminalStep, WaitStep, CMD_TIMEOUT_SECS,
};

fn exited(code: Option<i32>, output: &str, errors: &str) -> RunEnd {
    RunEnd::Exited {
        code,
        output: output.to_string(),
        errors: errors.to_string(),
    }
}

#[test]
fn windows_commands_go_through_wsl() {
    let i = run_wsl(true, "Ubuntu", &["tmux", "ls"]);
    assert_eq!(i.program, "wsl.exe");
    assert_eq!(i.args, ["-d", "Ubuntu", "tmux", "ls"]);
    assert_eq!(i.stdin, None);
    assert_eq!(i.timeout_secs, CMD_TIMEOUT_SECS);
    let i = run_wsl(true, "", &["tmux", "ls"]);
    assert_eq!(i.args, ["tmux", "ls"]);
}

#[test]
fn inside_wsl_the_tool_runs_directly() {
    let i = run_wsl_stdin(false, "Ubuntu", &["python3", "-"], "print()");
    assert_eq!(i.program, "python3");
    assert_eq!(i.args, ["-"]);
    assert_eq!(i.stdin.as_deref(), Some("print()"));
    assert_eq!(i.timeout_secs, 25);
    let i = build_command(false, "", &["true"], None);
    assert_eq!(i.program, "true");
    assert!(i.args.is_empty());
}

#[test]
fn keys_are_single_arguments() {
    let i = tmux_send_keys(true, "", "%3", &["C-c", "rm -rf /", "Enter"]);
    assert_eq!(
        i.args,
        ["tmux", "send-keys", "-t", "%3", "C-c", "rm -rf /", "Enter"]
    );
}

#[test]
fn task_sessions_are_made_and_killed() {
    let i = tmux_new_session(false, "", "clawmon-task-1", "/tmp", "sleep 60");
    assert_eq!(i.program, "tmux");
    assert_eq!(
        i.args,
        ["new-session", "-d", "-s", "clawmon-task-1", "-c", "/tmp", "sleep 60"]
    );
    let i = tmux_kill_session(false, "", "clawmon-task-1");
    assert_eq!(i.args, ["kill-session", "-t", "clawmon-task-1"]);
}

#[test]
fn terminals_are_tried_in_order() {
    assert!(open_terminal(false, "Ubuntu", "s").is_empty());
    let ways = open_terminal(true, "Ubuntu", "s");
    assert_eq!(ways.len(), 2);
    assert_eq!(ways[0].program, "wt.exe");
    assert!(!ways[0].new_console);
    assert_eq!(ways[1].program, "wsl.exe");
    assert!(ways[1].new_console);
    assert_eq!(
        ways[0].args,
        ["wsl.exe", "-d", "Ubuntu", "--", "tmux", "attach", "-t", "s"]
    );
    assert_eq!(
        ways[1].args,
        ["-d", "Ubuntu", "--", "tmux", "attach", "-t", "s"]
    );
    let ways = open_terminal(true, "", "s");
    assert_eq!(
        ways[0].args,
        ["wsl.exe", "--", "tmux", "attach", "-t", "s"]
    );
    assert_eq!(ways[1].args, ["--", "tmux", "attach", "-t", "s"]);
}

#[test]
fn the_first_terminal_that_starts_is_enough() {
    let failed = |why: &str| Err(why.to_string());
    assert!(matches!(terminal_step(2, &[]), TerminalStep::Try { way: 0 }));
    assert!(matches!(
        terminal_step(2, &[Ok(())]),
        TerminalStep::Done { result: Ok(()) }
    ));
    assert!(matches!(
        terminal_step(2, &[failed("no wt")]),
        TerminalStep::Try { way: 1 }
    ));
    assert!(matches!(
        terminal_step(2, &[failed("no wt"), Ok(())]),
        TerminalStep::Done { result: Ok(()) }
    ));
    match terminal_step(2, &[failed("no wt"), failed("no wsl")]) {
        TerminalStep::Done { result } => {
            assert_eq!(result, Err("打开终端失败: no wsl".to_string()))
        }
        TerminalStep::Try { .. } => panic!("nothing left to try"),
    }
    // nowhere to open one: no fault
    assert!(matches!(
        terminal_step(0, &[]),
        TerminalStep::Done { result: Ok(()) }
    ));
}

#[test]
fn success_hands_the_output_over() {
    assert_eq!(
        read_all(exited(Some(0), "hello\n", "noise")),
        Ok("hello\n".to_string())
    );
}

#[test]
fn failures_name_code_and_detail() {
    assert_eq!(
        read_all(exited(Some(3), "", " boom\n")),
        Err("命令退出码 3: boom".to_string())
    );
    assert_eq!(
        read_all(exited(Some(-1), " out ", " \n")),
        Err("命令退出码 -1: out".to_string())
    );
    assert_eq!(
        read_all(exited(None, "", "")),
        Err("命令退出码 signal".to_string())
    );
}

#[test]
fn runs_that_never_ended_are_named() {
    let e = || "why".to_string();
    assert_eq!(
        read_all(RunEnd::NotStarted { error: e() }),
        Err("启动命令失败: why".to_string())
    );
    assert_eq!(read_all(RunEnd::NoStdin), Err("无 stdin".to_string()));
    assert_eq!(
        read_all(RunEnd::NotFed { error: e() }),
        Err("写入 stdin 失败: why".to_string())
    );
    assert_eq!(
        read_all(RunEnd::NotWatched { error: e() }),
        Err("等待进程失败: why".to_string())
    );
    assert_eq!(
        read_all(RunEnd::TimedOut { timeout_secs: 25 }),
        Err("命令超时（>25s），已终止".to_string())
    );
}

#[test]
fn a_child_is_waited_for_until_its_deadline() {
    assert_eq!(wait_step(false, false), WaitStep::Sleep);
    assert_eq!(wait_step(false, true), WaitStep::Kill);
    assert_eq!(wait_step(true, false), WaitStep::Collect);
    assert_eq!(wait_step(true, true), WaitStep::Collect);
}

#[test]
fn requests_report_and_give_up_the_child() {
    let (r, gone) = request(RequestEnd::Line {
        line: "got:a\r\n".to_string(),
    });
    assert_eq!((r, gone), (Ok("got:a".to_string()), false));
    let (r, gone) = request(RequestEnd::TimedOut);
    assert_eq!((r, gone), (Err("常驻进程响应超时".to_string()), true));
    let (r, gone) = request(RequestEnd::Closed);
    assert_eq!((r, gone), (Err("常驻进程已退出".to_string()), true));
    let (r, gone) = request(RequestEnd::NotWritten {
        error: "pipe".to_string(),
    });
    assert_eq!((r, gone), (Err("写入常驻进程失败: pipe".to_string()), true));
}

#[test]
fn a_session_that_is_gone_counts_as_killed() {
    assert_eq!(kill_result(exited(Some(0), "", "")), Ok(()));
    assert_eq!(
        kill_result(exited(Some(1), "", "can't find session: clawmon-task-1")),
        Ok(())
    );
    assert_eq!(
        kill_result(exited(Some(1), "", "no server running on /tmp/tmux-1000/default")),
        Ok(())
    );
    // any other refusal is one
    assert_eq!(
        kill_result(exited(Some(1), "", "error connecting (Permission denied)")),
        Err("命令退出码 1: error connecting (Permission denied)".to_string())
    );
    assert_eq!(
        kill_result(exited(Some(127), "", "no tmux")),
        Err("命令退出码 127: no tmux".to_string())
    );
    assert_eq!(
        kill_result(RunEnd::TimedOut { timeout_secs: 25 }),
        Err("命令超时（>25s），已终止".to_string())
    );
}
