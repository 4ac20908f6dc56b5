use zerosh::parse::parse_cmd;
use zerosh::parse::render;
use zerosh::reader::prompt;
use zerosh::reader::trim_line;
use zerosh::state::ProcState;
use zerosh::state::Worker;
use zerosh::sys::ChildEvent;
use zerosh::text::i32_to_string;
use zerosh::text::parse_i32;
use zerosh::text::parse_usize;
use zerosh::text::str_eq;
use zerosh::text::usize_to_string;
use zerosh::worker::perform;
use zerosh::worker::Action;
use zerosh::worker::CmdOutcome;
use zerosh::worker::Reply;
use zerosh::worker::Sig;
use zerosh::worker::SigOutcome;

const SHELL_PGID: i32 = 100;

fn spawn_and_register(w: &mut Worker, line: &str, pids: Vec<i32>) -> usize {
    let line = String::from(line);
    match w.on_cmd(&line) {
        CmdOutcome::Spawn(plan) => {
            assert!(w.can_register(plan.job_id, &pids));
            let leader = pids[0];
            let st = w.register_job(plan.job_id, &line, pids);
            assert_eq!(st.reply, None);
            assert_eq!(st.action, Some(Action::Transfer(leader)));
            plan.job_id
        },
        CmdOutcome::Step(_) => panic!("expected a spawn plan"),
    }
}

#[test]
fn empty_line_is_skipped() {
    // A blank line never reaches the worker; the prompt only repeats.
    assert!(trim_line("\n").is_none());
    assert!(trim_line("   \t ").is_none());
    assert!(trim_line("").is_none());
    let w = Worker::new(SHELL_PGID);
    assert_eq!(w.exit_val, 0);
    assert_eq!(prompt(w.exit_val), "zerosh :) &> ");
}

#[test]
fn trimming_keeps_the_command() {
    assert_eq!(trim_line("  ls -l \n").unwrap(), "ls -l");
    assert_eq!(trim_line("x").unwrap(), "x");
}

#[test]
fn simple_command_lifecycle() {
    let mut w = Worker::new(SHELL_PGID);
    let line = String::from("/bin/true");
    let plan = match w.on_cmd(&line) {
        CmdOutcome::Spawn(plan) => plan,
        CmdOutcome::Step(_) => panic!("expected a spawn plan"),
    };
    assert_eq!(plan.job_id, 0);
    assert_eq!(plan.stages.len(), 1);
    assert_eq!(plan.stages[0].cmd, "/bin/true");
    assert!(plan.stages[0].args.is_empty());

    let st = w.register_job(plan.job_id, &line, vec![123]);
    assert_eq!(st.action, Some(Action::Transfer(123)));
    assert_eq!(w.fg, Some(123));
    assert_eq!(w.jobs.len(), 1);

    let st = w.on_child_event(ChildEvent::Exited(123, 0));
    assert_eq!(st.reply, Some(Reply::Continue(0)));
    assert_eq!(st.action, Some(Action::Transfer(SHELL_PGID)));
    assert_eq!(w.exit_val, 0);
    assert_eq!(w.fg, None);
    assert_eq!(w.jobs.len(), 0);
    assert_eq!(prompt(w.exit_val), "zerosh :) &> ");
}

#[test]
fn failed_exec_reports_error_status() {
    let mut w = Worker::new(SHELL_PGID);
    spawn_and_register(&mut w, "definitely-not-a-command", vec![321]);
    // the child prints its diagnostic and exits 1; the worker sees that
    let st = w.on_child_event(ChildEvent::Exited(321, 1));
    assert_eq!(st.reply, Some(Reply::Continue(1)));
    assert_eq!(w.exit_val, 1);
    assert_eq!(prompt(w.exit_val), "zerosh :( &> ");
}

#[test]
fn pipeline_two_children_one_group() {
    let mut w = Worker::new(SHELL_PGID);
    let line = String::from("/bin/echo hello | /bin/cat");
    let plan = match w.on_cmd(&line) {
        CmdOutcome::Spawn(plan) => plan,
        CmdOutcome::Step(_) => panic!("expected a spawn plan"),
    };
    assert_eq!(plan.stages.len(), 2);
    assert_eq!(plan.stages[0].cmd, "/bin/echo");
    assert_eq!(plan.stages[0].args, vec![String::from("hello")]);
    assert_eq!(plan.stages[1].cmd, "/bin/cat");

    let st = w.register_job(plan.job_id, &line, vec![5, 6]);
    assert_eq!(st.action, Some(Action::Transfer(5)));
    assert_eq!(w.pgid_to_pids.get(&5).unwrap().pids.len(), 2);

    let st = w.on_child_event(ChildEvent::Exited(5, 0));
    assert_eq!(st.reply, None);
    let st = w.on_child_event(ChildEvent::Exited(6, 0));
    assert_eq!(st.reply, Some(Reply::Continue(0)));
    assert_eq!(st.action, Some(Action::Transfer(SHELL_PGID)));
    assert_eq!(w.jobs.len(), 0);
    assert_eq!(w.fg, None);
}

#[test]
fn stop_and_resume() {
    let mut w = Worker::new(SHELL_PGID);
    let id = spawn_and_register(&mut w, "/usr/bin/yes", vec![7]);
    assert_eq!(id, 0);

    // the user stops the foreground group
    let st = w.on_child_event(ChildEvent::Stopped(7));
    assert_eq!(st.reply, Some(Reply::Continue(0)));
    assert_eq!(st.action, Some(Action::Transfer(SHELL_PGID)));
    assert_eq!(w.fg, None);
    assert_eq!(w.jobs.len(), 1);
    assert_eq!(w.pid_to_info.get(&7).unwrap().state, ProcState::Stop);

    // fg 0 resumes it and hands the terminal over; no reply yet
    let fgline = String::from("fg 0");
    let st = match w.on_cmd(&fgline) {
        CmdOutcome::Step(st) => st,
        CmdOutcome::Spawn(_) => panic!("fg is a built-in"),
    };
    assert_eq!(st.reply, None);
    assert_eq!(st.action, Some(Action::Resume(7)));
    assert_eq!(w.fg, Some(7));

    let st = w.on_child_event(ChildEvent::Continued(7));
    assert_eq!(st.reply, None);
    assert_eq!(w.pid_to_info.get(&7).unwrap().state, ProcState::Run);
}

#[test]
fn sigcont_on_running_group_is_noop() {
    let mut w = Worker::new(SHELL_PGID);
    spawn_and_register(&mut w, "/usr/bin/yes", vec![9]);
    assert_eq!(w.pid_to_info.get(&9).unwrap().state, ProcState::Run);
    // a resumption notice for a process that already runs changes nothing
    let st = w.on_child_event(ChildEvent::Continued(9));
    assert_eq!(st.reply, None);
    assert_eq!(st.action, None);
    assert_eq!(w.pid_to_info.get(&9).unwrap().state, ProcState::Run);
    assert_eq!(w.jobs.len(), 1);
    assert_eq!(w.fg, Some(9));
}

#[test]
fn exit_refused_then_accepted() {
    let mut w = Worker::new(SHELL_PGID);
    let id = spawn_and_register(&mut w, "/usr/bin/yes", vec![11]);
    assert_eq!(id, 0);
    // pretend the job went to the background already
    let st = w.on_child_event(ChildEvent::Stopped(11));
    assert_eq!(st.reply, Some(Reply::Continue(0)));

    let exitline = String::from("exit");
    let st = match w.on_cmd(&exitline) {
        CmdOutcome::Step(st) => st,
        CmdOutcome::Spawn(_) => panic!("exit is a built-in"),
    };
    assert_eq!(st.reply, Some(Reply::Continue(1)));
    assert_eq!(w.exit_val, 1);

    // the job is killed from outside; the worker reaps it
    let st = w.on_child_event(ChildEvent::Signaled(11, 9, false));
    assert_eq!(w.exit_val, 9 + 128);
    assert_eq!(w.jobs.len(), 0);
    assert_eq!(st.reply, None);

    let st = match w.on_cmd(&exitline) {
        CmdOutcome::Step(st) => st,
        CmdOutcome::Spawn(_) => panic!("exit is a built-in"),
    };
    assert_eq!(st.reply, Some(Reply::Quit(9 + 128)));
}

#[test]
fn exit_with_status_and_bad_argument() {
    let mut w = Worker::new(SHELL_PGID);
    let line = String::from("exit 5");
    match w.on_cmd(&line) {
        CmdOutcome::Step(st) => assert_eq!(st.reply, Some(Reply::Quit(5))),
        CmdOutcome::Spawn(_) => panic!(),
    }
    let line = String::from("exit five");
    match w.on_cmd(&line) {
        CmdOutcome::Step(st) => assert_eq!(st.reply, Some(Reply::Continue(1))),
        CmdOutcome::Spawn(_) => panic!(),
    }
    assert_eq!(w.exit_val, 1);
}

#[test]
fn jobs_lists_and_resets_status() {
    let mut w = Worker::new(SHELL_PGID);
    w.exit_val = 1;
    let line = String::from("jobs");
    match w.on_cmd(&line) {
        CmdOutcome::Step(st) => assert_eq!(st.reply, Some(Reply::Continue(0))),
        CmdOutcome::Spawn(_) => panic!(),
    }
    assert_eq!(w.exit_val, 0);
}

#[test]
fn fg_rejects_bad_ids() {
    let mut w = Worker::new(SHELL_PGID);
    for line in ["fg", "fg nope", "fg 3"] {
        let line = String::from(line);
        match w.on_cmd(&line) {
            CmdOutcome::Step(st) => {
                assert_eq!(st.reply, Some(Reply::Continue(1)));
                assert_eq!(st.action, None);
            },
            CmdOutcome::Spawn(_) => panic!(),
        }
        assert_eq!(w.exit_val, 1);
        assert_eq!(w.fg, None);
    }
}

#[test]
fn cd_changes_directory_or_fails() {
    let mut w = Worker::new(SHELL_PGID);
    let line = String::from("cd /");
    match w.on_cmd(&line) {
        CmdOutcome::Step(st) => assert_eq!(st.reply, Some(Reply::Continue(0))),
        CmdOutcome::Spawn(_) => panic!(),
    }
    assert_eq!(w.exit_val, 0);
    let line = String::from("cd /definitely-not-a-directory-zzz");
    match w.on_cmd(&line) {
        CmdOutcome::Step(st) => assert_eq!(st.reply, Some(Reply::Continue(1))),
        CmdOutcome::Spawn(_) => panic!(),
    }
    assert_eq!(w.exit_val, 1);
    let line = String::from("cd");
    match w.on_cmd(&line) {
        CmdOutcome::Step(st) => assert_eq!(st.reply, Some(Reply::Continue(1))),
        CmdOutcome::Spawn(_) => panic!(),
    }
}

#[test]
fn parse_errors_and_stage_limits() {
    let mut w = Worker::new(SHELL_PGID);
    for line in ["", "  ", "a || b", "| a", "a |"] {
        let line = String::from(line);
        match w.on_cmd(&line) {
            CmdOutcome::Step(st) => assert_eq!(st.reply, Some(Reply::Continue(1))),
            CmdOutcome::Spawn(_) => panic!("parse error expected for {:?}", line),
        }
        assert_eq!(w.exit_val, 1);
    }
    // three stages are refused, with the status unchanged
    w.exit_val = 0;
    let line = String::from("a | b | c");
    match w.on_cmd(&line) {
        CmdOutcome::Step(st) => assert_eq!(st.reply, Some(Reply::Continue(0))),
        CmdOutcome::Spawn(_) => panic!(),
    }
    assert_eq!(w.exit_val, 0);
}

#[test]
fn pipelines_never_run_builtins() {
    let mut w = Worker::new(SHELL_PGID);
    let line = String::from("exit | cat");
    match w.on_cmd(&line) {
        CmdOutcome::Spawn(plan) => {
            assert_eq!(plan.stages.len(), 2);
            assert_eq!(plan.stages[0].cmd, "exit");
        },
        CmdOutcome::Step(_) => panic!("a piped exit is an external command"),
    }
}

#[test]
fn job_ids_are_dense() {
    let mut w = Worker::new(SHELL_PGID);
    let id0 = spawn_and_register(&mut w, "/usr/bin/yes", vec![21]);
    let _ = w.on_child_event(ChildEvent::Stopped(21));
    let id1 = spawn_and_register(&mut w, "/usr/bin/yes", vec![22]);
    let _ = w.on_child_event(ChildEvent::Stopped(22));
    assert_eq!((id0, id1), (0, 1));
    // job 0 dies in the background: its id is free again, 1 is not
    let _ = w.on_child_event(ChildEvent::Exited(21, 0));
    assert_eq!(w.jobs.len(), 1);
    let id2 = spawn_and_register(&mut w, "/usr/bin/yes", vec![23]);
    assert_eq!(id2, 0);
}

#[test]
fn parse_then_render_round_trip() {
    let line = String::from("cmd arg1 arg2 | cmd2");
    let stages = parse_cmd(&line).unwrap();
    let again = render(&stages);
    assert_eq!(again, "cmd arg1 arg2|cmd2");
    let reparsed = parse_cmd(&again).unwrap();
    assert_eq!(reparsed.len(), stages.len());
    for (a, b) in stages.iter().zip(reparsed.iter()) {
        assert_eq!(a.cmd, b.cmd);
        assert_eq!(a.args, b.args);
    }
}

#[test]
fn reaping_without_children_is_quiet() {
    let mut w = Worker::new(SHELL_PGID);
    // the real waitpid reports no child at all; nothing changes
    match w.on_signal(Sig::Child) {
        SigOutcome::Step(st) => {
            assert_eq!(st.reply, None);
            assert_eq!(st.action, None);
        },
        SigOutcome::Broken => panic!("waitpid must not fail here"),
    }
    match w.on_signal(Sig::Int) {
        SigOutcome::Step(st) => assert_eq!(st.reply, None),
        SigOutcome::Broken => panic!(),
    }
}

#[test]
fn terminal_actions_touch_the_real_terminal_only() {
    // in a test harness there is usually no controlling terminal on stdin;
    // perform then reports the failure instead of panicking
    let _ = perform(&Action::Transfer(SHELL_PGID));
}

#[test]
fn numbers_render_and_parse_exactly() {
    assert_eq!(usize_to_string(0), "0");
    assert_eq!(usize_to_string(12345), "12345");
    assert_eq!(i32_to_string(-7), "-7");
    assert_eq!(i32_to_string(2147483647), "2147483647");
    assert_eq!(parse_i32("-42"), Some(-42));
    assert_eq!(parse_i32("+42"), Some(42));
    assert_eq!(parse_i32("2147483647"), Some(2147483647));
    assert_eq!(parse_i32("-2147483648"), Some(-2147483648));
    assert_eq!(parse_i32("2147483648"), None);
    assert_eq!(parse_i32(""), None);
    assert_eq!(parse_i32("1x"), None);
    assert_eq!(parse_usize("007"), Some(7));
    assert_eq!(parse_usize("18446744073709551615"), Some(usize::MAX));
    assert_eq!(parse_usize("18446744073709551616"), None);
    assert!(str_eq("exit", "exit"));
    assert!(!str_eq("exit", "exi"));
}
