use kamino::clock::{clock_is_paused, instrumented_sleep};
use kamino::command::{AppendCmdImpl, CommandArgs, MaskSecret};
use kamino::command_error::{CommandError, NO_EXIT_CODE};
use kamino::engine::{begin, delay_before, Action, AttemptOutput, Plan, Severity, Step};

fn argv(parts: &[&str]) -> Vec<String> {
    parts.iter().map(|part| String::from(*part)).collect()
}

fn failed(code: i32, stdout: &str, stderr: &str) -> AttemptOutput {
    AttemptOutput { code: Some(code), stdout: String::from(stdout), stderr: String::from(stderr) }
}

fn info(text: &str) -> Action {
    Action::Log(Severity::Info, String::from(text))
}

/// Runs the engine over what the launches give and returns the actions, the
/// number of launches, and the result.
fn drive(
    cmd: Vec<String>,
    args: CommandArgs,
    outputs: Vec<AttemptOutput>,
    clock_paused: bool,
) -> (Vec<Action>, usize, Result<String, CommandError>) {
    assert!(args.dry_run || args.is_valid());
    let Plan { actions, next } = begin(cmd, args);
    let mut all = actions;
    let mut step = next;
    let mut launches = 0;
    let mut outputs = outputs.into_iter();
    loop {
        match step {
            Step::Finished(result) => return (all, launches, result),
            Step::Launch(engine) => {
                launches += 1;
                assert_eq!(engine.attempt() as usize, launches);
                let output = outputs.next().unwrap();
                let Plan { actions, next } = engine.after_attempt(output, clock_paused);
                all.extend(actions);
                step = next;
            }
        }
    }
}

fn sleeps(actions: &Vec<Action>) -> Vec<u64> {
    let mut out = Vec::new();
    for action in actions {
        if let Action::Sleep(seconds) = action {
            out.push(*seconds);
        }
    }
    out
}

#[test]
fn command_works() {
    let mut cmd = Vec::new();
    let mut args = CommandArgs::default();
    "echo".append_cmd(&mut cmd, &mut args);
    "hello world".append_cmd(&mut cmd, &mut args);
    assert_eq!(cmd, argv(&["echo", "hello world"]));
    let outputs = vec![AttemptOutput {
        code: Some(0),
        stdout: String::from("hello world\n"),
        stderr: String::new(),
    }];
    let (_, launches, result) = drive(cmd, args, outputs, false);
    let out = result.expect("must succeed");
    assert_eq!(out, String::from("hello world\n"));
    assert_eq!(launches, 1);
}

#[test]
fn tuple_flattening() {
    let mut cmd = Vec::new();
    let mut args = CommandArgs::default();
    "echo".append_cmd(&mut cmd, &mut args);
    ("hello", "world").append_cmd(&mut cmd, &mut args);
    assert_eq!(cmd, argv(&["echo", "hello", "world"]));
    let outputs = vec![AttemptOutput {
        code: Some(0),
        stdout: String::from("hello world\n"),
        stderr: String::new(),
    }];
    let (_, _, result) = drive(cmd, args, outputs, false);
    let out = result.expect("mus succeed");
    assert_eq!(out, String::from("hello world\n"));
}

#[test]
#[should_panic]
fn test_constant_backoff() {
    let args = CommandArgs { retries: 1, ..Default::default() };
    let outputs = vec![failed(1, "", "cat: dummy: No such file or directory\n")];
    let (_, _, result) = drive(argv(&["cat", "dummy"]), args, outputs, false);
    result.expect("Should panic");
}

#[test]
fn a_dry_run_launches_nothing() {
    let args = CommandArgs::new(vec![String::from("hunter2")], 3, true, true, true);
    let plan = begin(argv(&["login", "--password", "hunter2"]), args);
    assert_eq!(plan.actions, vec![info("==> [\"login\", \"--password\", \"*****\"]")]);
    match plan.next {
        Step::Finished(Ok(text)) => assert_eq!(
            text,
            "==> Command: dry-running command: [\"login\", \"--password\", \"hunter2\"]"
        ),
        other => panic!("a dry run is over at once: {:?}", other),
    }
    let again = begin(
        argv(&["login", "--password", "hunter2"]),
        CommandArgs::new(vec![String::from("hunter2")], 3, true, true, true),
    );
    match again.next {
        Step::Finished(Ok(text)) => assert_eq!(
            text,
            "==> Command: dry-running command: [\"login\", \"--password\", \"hunter2\"]"
        ),
        other => panic!("a dry run is over at once: {:?}", other),
    }
}

#[test]
fn a_dry_run_needs_no_attempts() {
    let args = CommandArgs::new(Vec::new(), 0, false, false, true);
    let (actions, launches, result) = drive(argv(&["rm", "-rf", "/"]), args, Vec::new(), false);
    assert_eq!(launches, 0);
    assert_eq!(actions, vec![info("==> [\"rm\", \"-rf\", \"/\"]")]);
    assert_eq!(
        result,
        Ok(String::from("==> Command: dry-running command: [\"rm\", \"-rf\", \"/\"]"))
    );
}

#[test]
fn a_failing_command_uses_all_attempts() {
    let args = CommandArgs::new(Vec::new(), 4, false, false, false);
    let outputs = vec![
        failed(1, "out one", "err one"),
        failed(2, "out two", "err two"),
        failed(3, "out three", "err three"),
        failed(4, "out four", "err four"),
    ];
    let (actions, launches, result) = drive(argv(&["false"]), args, outputs, false);
    assert_eq!(launches, 4);
    assert_eq!(sleeps(&actions), vec![4, 8, 16]);
    assert_eq!(
        result,
        Err(CommandError(4, String::from("out four"), String::from("err four")))
    );
    assert_eq!(
        actions,
        vec![
            info("==> [\"false\"]"),
            Action::Log(
                Severity::Warning,
                String::from("==> Command: waiting 4 seconds before try 2 of command: [\"false\"]")
            ),
            Action::Sleep(4),
            info("==> [\"false\"]"),
            Action::Log(
                Severity::Warning,
                String::from("==> Command: waiting 8 seconds before try 3 of command: [\"false\"]")
            ),
            Action::Sleep(8),
            info("==> [\"false\"]"),
            Action::Log(
                Severity::Warning,
                String::from(
                    "==> Command: waiting 16 seconds before try 4 of command: [\"false\"]"
                )
            ),
            Action::Sleep(16),
            info("==> [\"false\"]"),
        ]
    );
}

#[test]
fn one_attempt_means_no_wait() {
    let args = CommandArgs::default();
    let (actions, launches, result) =
        drive(argv(&["false"]), args, vec![failed(7, "o", "e")], false);
    assert_eq!(launches, 1);
    assert_eq!(sleeps(&actions), Vec::<u64>::new());
    assert_eq!(result, Err(CommandError(7, String::from("o"), String::from("e"))));
    assert_eq!(
        actions,
        vec![info("==> [\"false\"]"), Action::Log(Severity::Error, String::from("==> e"))]
    );
}

#[test]
fn a_clock_that_stands_still_skips_the_waits_and_nothing_else() {
    let outputs = || vec![failed(1, "", ""), failed(1, "", ""), failed(9, "last", "words")];
    let (running, launches_running, result_running) = drive(
        argv(&["false"]),
        CommandArgs::new(Vec::new(), 3, true, true, false),
        outputs(),
        false,
    );
    let (paused, launches_paused, result_paused) = drive(
        argv(&["false"]),
        CommandArgs::new(Vec::new(), 3, true, true, false),
        outputs(),
        true,
    );
    assert_eq!(launches_running, 3);
    assert_eq!(launches_paused, 3);
    assert_eq!(result_running, result_paused);
    assert_eq!(result_paused, Err(CommandError(9, String::from("last"), String::from("words"))));
    assert_eq!(sleeps(&running), vec![4, 8]);
    assert_eq!(sleeps(&paused), Vec::<u64>::new());
    let without_sleeps: Vec<Action> =
        running.into_iter().filter(|action| !matches!(action, Action::Sleep(_))).collect();
    assert_eq!(without_sleeps, paused);
}

#[test]
fn the_first_success_ends_the_run() {
    let args = CommandArgs::new(Vec::new(), 5, false, false, false);
    let outputs = vec![
        failed(1, "", ""),
        AttemptOutput { code: Some(0), stdout: String::from("done\n"), stderr: String::new() },
    ];
    let (actions, launches, result) = drive(argv(&["flaky"]), args, outputs, false);
    assert_eq!(launches, 2);
    assert_eq!(sleeps(&actions), vec![4]);
    assert_eq!(result, Ok(String::from("done\n")));
}

#[test]
fn a_process_without_an_exit_code_fails_with_the_sentinel() {
    let args = CommandArgs::default();
    let outputs =
        vec![AttemptOutput { code: None, stdout: String::from("o"), stderr: String::from("e") }];
    let (_, _, result) = drive(argv(&["killed"]), args, outputs, false);
    assert_eq!(NO_EXIT_CODE, -100);
    assert_eq!(result, Err(CommandError(-100, String::from("o"), String::from("e"))));
}

#[test]
fn output_is_logged_as_asked() {
    let output = || AttemptOutput {
        code: Some(0),
        stdout: String::from("out"),
        stderr: String::from("err"),
    };
    let run = |log_stdout: bool, log_stderr: bool| {
        drive(
            argv(&["x"]),
            CommandArgs::new(Vec::new(), 1, log_stdout, log_stderr, false),
            vec![output()],
            false,
        )
        .0
    };
    assert_eq!(run(false, false), vec![info("==> [\"x\"]")]);
    assert_eq!(run(true, false), vec![info("==> [\"x\"]"), info("==> out")]);
    assert_eq!(
        run(false, true),
        vec![info("==> [\"x\"]"), Action::Log(Severity::Error, String::from("==> err"))]
    );
    assert_eq!(
        run(true, true),
        vec![
            info("==> [\"x\"]"),
            info("==> out"),
            Action::Log(Severity::Error, String::from("==> err"))
        ]
    );
    // what is empty is not logged
    let (actions, _, _) = drive(
        argv(&["x"]),
        CommandArgs::new(Vec::new(), 1, true, true, false),
        vec![AttemptOutput { code: Some(0), stdout: String::new(), stderr: String::new() }],
        false,
    );
    assert_eq!(actions, vec![info("==> [\"x\"]")]);
}

#[test]
fn no_log_line_shows_a_secret() {
    let mut cmd = Vec::new();
    let mut args = CommandArgs::new(Vec::new(), 3, true, true, false);
    "login".append_cmd(&mut cmd, &mut args);
    MaskSecret("hunter2").append_cmd(&mut cmd, &mut args);
    assert_eq!(cmd, argv(&["login", "hunter2"]));
    assert_eq!(args.masq, argv(&["hunter2"]));
    let outputs = vec![
        failed(1, "tried hunter2", "bad password hunter2"),
        failed(1, "tried hunter2 again", ""),
        failed(1, "", "gave up on hunter2hunter2"),
    ];
    let (actions, launches, result) = drive(cmd, args, outputs, false);
    assert_eq!(launches, 3);
    let mut lines = 0;
    for action in &actions {
        if let Action::Log(_, line) = action {
            assert!(!line.contains("hunter2"), "{}", line);
            lines += 1;
        }
    }
    assert_eq!(lines, 9);
    assert_eq!(actions[0], info("==> [\"login\", \"*****\"]"));
    assert_eq!(actions[1], info("==> tried *****"));
    assert_eq!(actions[2], Action::Log(Severity::Error, String::from("==> bad password *****")));
    assert_eq!(
        actions[3],
        Action::Log(
            Severity::Warning,
            String::from(
                "==> Command: waiting 4 seconds before try 2 of command: [\"login\", \"*****\"]"
            )
        )
    );
    // what the run returns is not a log line and is left as it is
    assert_eq!(
        result,
        Err(CommandError(1, String::new(), String::from("gave up on hunter2hunter2")))
    );
}

#[test]
fn the_engine_keeps_the_argument_vector() {
    let plan = begin(argv(&["echo", "a b"]), CommandArgs::default());
    match plan.next {
        Step::Launch(engine) => {
            assert_eq!(engine.command(), &argv(&["echo", "a b"]));
            assert_eq!(engine.attempt(), 1);
            let plan = engine.after_attempt_now(AttemptOutput {
                code: Some(0),
                stdout: String::from("a b\n"),
                stderr: String::new(),
            });
            match plan.next {
                Step::Finished(Ok(out)) => assert_eq!(out, "a b\n"),
                other => panic!("the run is over: {:?}", other),
            }
        }
        other => panic!("the command is to be launched: {:?}", other),
    }
}

#[test]
fn waits_double() {
    assert_eq!(delay_before(1), 4);
    assert_eq!(delay_before(2), 8);
    assert_eq!(delay_before(3), 16);
    assert_eq!(delay_before(10), 2048);
    assert_eq!(delay_before(62), 9223372036854775808);
}

#[test]
fn the_sleep_is_skipped_on_a_clock_that_stands_still() {
    assert_eq!(instrumented_sleep(8, false), Some(8));
    assert_eq!(instrumented_sleep(8, true), None);
    // the clock of this process runs, or stands still: both are answers
    let paused = clock_is_paused();
    assert!(paused || !paused);
}

#[test]
fn arguments_are_valid_for_one_to_sixty_three_attempts() {
    assert!(CommandArgs::default().is_valid());
    assert!(!CommandArgs::new(Vec::new(), 0, false, true, false).is_valid());
    assert!(CommandArgs::new(Vec::new(), 1, false, true, false).is_valid());
    assert!(CommandArgs::new(Vec::new(), 63, false, true, false).is_valid());
    assert!(!CommandArgs::new(Vec::new(), 64, false, true, false).is_valid());
    let args = CommandArgs::default();
    assert_eq!(args.masq, Vec::<String>::new());
    assert_eq!(args.retries, 1);
    assert!(!args.log_stdout);
    assert!(args.log_stderr);
    assert!(!args.dry_run);
    let args = CommandArgs::new(vec![String::from("s")], 5, true, false, true);
    assert_eq!(args.masq, vec![String::from("s")]);
    assert_eq!(args.retries, 5);
    assert!(args.log_stdout);
    assert!(!args.log_stderr);
    assert!(args.dry_run);
}

#[test]
fn the_message_of_a_failure() {
    assert_eq!(
        CommandError(2, String::from("out"), String::from("no such file")).message(),
        "Command execution error. Exit code: 2 stderr: no such file"
    );
    assert_eq!(
        CommandError(-100, String::new(), String::new()).message(),
        "Command execution error. Exit code: -100 stderr: "
    );
    assert_eq!(
        CommandError(i32::MIN, String::new(), String::from("x")).message(),
        "Command execution error. Exit code: -2147483648 stderr: x"
    );
}
