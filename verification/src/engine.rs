//! The execution engine: it decides, attempt by attempt, what is logged, how
//! long to wait, whether the command is run once more, and what the whole
//! run gives in the end. The caller launches the process and sleeps; the
//! engine is handed what each attempt gave.

use crate::clock::{clock_is_paused, instrumented_sleep};
use crate::command::{CommandArgs, CommandArgsView, MAX_RETRIES};
use crate::command_error::{CommandError, CommandErrorView, NO_EXIT_CODE};
use crate::redaction::{lemma_redacted_holds_no_secret, redact, redact_text};
use crate::text::{decimal, decimal_digits, occurs_in};
use vstd::arithmetic::power2::{
    lemma2_to64, lemma2_to64_rest, lemma_pow2_strictly_increases, lemma_pow2_unfold, pow2,
};
use vstd::prelude::*;
use vstd::string::StringExecFns;

verus! {

/// How std writes out a vector of strings with `{:?}`: the strings in
/// brackets, each in quotes and with its special characters escaped.
pub uninterp spec fn debug_rendering(cmd: Seq<Seq<char>>) -> Seq<char>;

/// `format!` of std with `{:?}` on the argument vector. The contract only
/// gives what it writes its name, `debug_rendering`.
#[verifier::external_body]
fn render(cmd: &Vec<String>) -> (rendering: String)
    ensures
        rendering@ == debug_rendering(cmd.deep_view()),
{
    format!("{:?}", cmd)
}

/// How grave a log line is.
#[derive(Clone, Copy, Debug, PartialEq, Eq, Structural)]
pub enum Severity {
    /// What is done.
    Info,
    /// What went wrong and is tried again.
    Warning,
    /// What went wrong.
    Error,
}

/// Something for the caller to do before the next step.
#[derive(Debug, PartialEq, Eq)]
pub enum Action {
    /// Write the line to the log.
    Log(Severity, String),
    /// Wait for so many seconds.
    Sleep(u64),
}

/// An action as plain values.
pub enum ActionView {
    /// Write the line to the log.
    Log(Severity, Seq<char>),
    /// Wait for so many seconds.
    Sleep(u64),
}

impl View for Action {
    type V = ActionView;

    open spec fn view(&self) -> ActionView {
        match self {
            Action::Log(severity, line) => ActionView::Log(*severity, line@),
            Action::Sleep(seconds) => ActionView::Sleep(*seconds),
        }
    }
}

impl DeepView for Action {
    type V = ActionView;

    open spec fn deep_view(&self) -> ActionView {
        self@
    }
}

/// What one attempt gave: the exit code of the process, `None` where it
/// ended without one, and what it wrote.
#[derive(Debug)]
pub struct AttemptOutput {
    /// The exit code of the process.
    pub code: Option<i32>,
    /// What the process wrote to standard output.
    pub stdout: String,
    /// What the process wrote to standard error.
    pub stderr: String,
}

/// What one attempt gave, as plain values.
pub struct AttemptOutputView {
    /// The exit code of the process.
    pub code: Option<i32>,
    /// What the process wrote to standard output.
    pub stdout: Seq<char>,
    /// What the process wrote to standard error.
    pub stderr: Seq<char>,
}

impl AttemptOutputView {
    /// The attempt succeeded: the process ended with the exit code zero.
    pub open spec fn succeeded(self) -> bool {
        self.code == Some(0i32)
    }

    /// The failure that the attempt stands for where it is the last.
    pub open spec fn failure(self) -> CommandErrorView {
        CommandErrorView {
            exit_code: match self.code {
                Some(code) => code,
                None => NO_EXIT_CODE,
            },
            stdout: self.stdout,
            stderr: self.stderr,
        }
    }
}

impl View for AttemptOutput {
    type V = AttemptOutputView;

    open spec fn view(&self) -> AttemptOutputView {
        AttemptOutputView { code: self.code, stdout: self.stdout@, stderr: self.stderr@ }
    }
}

/// A command on its way: its argument vector, how it is to be run, and how
/// many attempts have failed.
#[derive(Debug)]
pub struct Engine {
    cmd: Vec<String>,
    args: CommandArgs,
    rendering: String,
    failures: u32,
}

/// A command on its way, as plain values.
pub struct EngineView {
    /// The argument vector.
    pub cmd: Seq<Seq<char>>,
    /// How the command is to be run.
    pub args: CommandArgsView,
    /// How many attempts have failed.
    pub failures: nat,
}

impl EngineView {
    /// The command can be run once more: its arguments are valid and an
    /// attempt is left.
    pub open spec fn running(self) -> bool {
        self.args.valid() && self.failures < self.args.retries
    }
}

impl View for Engine {
    type V = EngineView;

    closed spec fn view(&self) -> EngineView {
        EngineView { cmd: self.cmd.deep_view(), args: self.args@, failures: self.failures as nat }
    }
}

/// What comes after the actions of a plan.
#[derive(Debug)]
pub enum Step {
    /// The process is to be launched, and the engine handed what it gave.
    Launch(Engine),
    /// The run is over: what the command wrote to standard output, or its
    /// failure.
    Finished(Result<String, CommandError>),
}

/// A step as plain values.
pub enum StepView {
    /// The process is to be launched.
    Launch(EngineView),
    /// The run is over.
    Finished(Result<Seq<char>, CommandErrorView>),
}

impl View for Step {
    type V = StepView;

    open spec fn view(&self) -> StepView {
        match self {
            Step::Launch(engine) => StepView::Launch(engine@),
            Step::Finished(Ok(stdout)) => StepView::Finished(Ok(stdout@)),
            Step::Finished(Err(error)) => StepView::Finished(Err(error@)),
        }
    }
}

/// What the caller is to do: the actions in their order, then the step.
#[derive(Debug)]
pub struct Plan {
    /// What to log and how long to wait, in this order.
    pub actions: Vec<Action>,
    /// What comes after the actions.
    pub next: Step,
}

/// A plan as plain values.
pub struct PlanView {
    /// What to log and how long to wait.
    pub actions: Seq<ActionView>,
    /// What comes after the actions.
    pub next: StepView,
}

impl View for Plan {
    type V = PlanView;

    open spec fn view(&self) -> PlanView {
        PlanView { actions: self.actions.deep_view(), next: self.next@ }
    }
}

/// The line that tells of an attempt: the argument vector behind an arrow,
/// with the secrets masked.
pub open spec fn attempt_line(cmd: Seq<Seq<char>>, secrets: Seq<Seq<char>>) -> Seq<char> {
    redact("==> "@ + debug_rendering(cmd), secrets)
}

/// The line that shows what a process wrote, with the secrets masked.
pub open spec fn output_line(output: Seq<char>, secrets: Seq<Seq<char>>) -> Seq<char> {
    redact("==> "@ + output, secrets)
}

/// The line that tells of a wait of `delay` seconds before the attempt of
/// number `next_try`, with the secrets masked.
pub open spec fn backoff_line(
    delay: nat,
    next_try: nat,
    cmd: Seq<Seq<char>>,
    secrets: Seq<Seq<char>>,
) -> Seq<char> {
    redact(
        "==> Command: waiting "@ + decimal_digits(delay) + " seconds before try "@ + decimal_digits(
            next_try,
        ) + " of command: "@ + debug_rendering(cmd),
        secrets,
    )
}

/// What a dry run returns: the command that would have run.
pub open spec fn dry_run_text(cmd: Seq<Seq<char>>) -> Seq<char> {
    "==> Command: dry-running command: "@ + debug_rendering(cmd)
}

/// The seconds to wait before the retry of number `retry`, the first retry
/// being number one: four, eight, sixteen and so on.
pub open spec fn backoff_delay(retry: nat) -> nat {
    pow2(retry + 1)
}

/// The plan at the start of a run: the first attempt is logged; a dry run is
/// over with that, any other command is launched.
pub open spec fn begin_plan(cmd: Seq<Seq<char>>, args: CommandArgsView) -> PlanView {
    PlanView {
        actions: seq![ActionView::Log(Severity::Info, attempt_line(cmd, args.secrets))],
        next: if args.dry_run {
            StepView::Finished(Ok(dry_run_text(cmd)))
        } else {
            StepView::Launch(EngineView { cmd, args, failures: 0 })
        },
    }
}

/// The lines that show what an attempt wrote: standard output, then standard
/// error, each where it is to be logged and not empty.
pub open spec fn output_logs(args: CommandArgsView, output: AttemptOutputView) -> Seq<ActionView> {
    let out = if args.log_stdout && output.stdout.len() > 0 {
        seq![ActionView::Log(Severity::Info, output_line(output.stdout, args.secrets))]
    } else {
        Seq::empty()
    };
    let err = if args.log_stderr && output.stderr.len() > 0 {
        seq![ActionView::Log(Severity::Error, output_line(output.stderr, args.secrets))]
    } else {
        Seq::empty()
    };
    out + err
}

/// What is done between a failed attempt and the next one: the wait is
/// announced, then made unless the clock stands still, and the next attempt
/// is logged.
pub open spec fn retry_actions(engine: EngineView, clock_paused: bool) -> Seq<ActionView> {
    let retry = engine.failures + 1;
    let announce = seq![
        ActionView::Log(
            Severity::Warning,
            backoff_line(backoff_delay(retry), retry + 1, engine.cmd, engine.args.secrets),
        ),
    ];
    let wait = if clock_paused {
        Seq::empty()
    } else {
        seq![ActionView::Sleep(backoff_delay(retry) as u64)]
    };
    let attempt = seq![
        ActionView::Log(Severity::Info, attempt_line(engine.cmd, engine.args.secrets)),
    ];
    announce + wait + attempt
}

/// The plan after an attempt. What the process wrote is logged. After a
/// success the run is over with what it wrote to standard output. After a
/// failure the command is tried again if an attempt is left, and the run is
/// over with that failure if none is.
pub open spec fn attempt_plan(
    engine: EngineView,
    output: AttemptOutputView,
    clock_paused: bool,
) -> PlanView {
    let logs = output_logs(engine.args, output);
    if output.succeeded() {
        PlanView { actions: logs, next: StepView::Finished(Ok(output.stdout)) }
    } else if engine.failures + 1 < engine.args.retries {
        PlanView {
            actions: logs + retry_actions(engine, clock_paused),
            next: StepView::Launch(EngineView { failures: engine.failures + 1, ..engine }),
        }
    } else {
        PlanView { actions: logs, next: StepView::Finished(Err(output.failure())) }
    }
}

/// `prefix` with `text` behind it.
fn joined(prefix: &str, text: &str) -> (line: String)
    ensures
        line@ == prefix@ + text@,
{
    let mut line = prefix.to_owned();
    line.append(text);
    line
}

/// The seconds to wait before the retry of number `retry`.
pub fn delay_before(retry: u32) -> (seconds: u64)
    requires
        1 <= retry < MAX_RETRIES,
    ensures
        seconds == backoff_delay(retry as nat),
{
    let mut seconds: u64 = 2;
    let mut done: u32 = 0;
    proof {
        lemma2_to64();
    }
    while done < retry
        invariant
            done <= retry < MAX_RETRIES,
            seconds == pow2((done + 1) as nat),
        decreases retry - done,
    {
        proof {
            lemma2_to64_rest();
            if done + 1 < 62 {
                lemma_pow2_strictly_increases((done + 1) as nat, 62);
            }
            lemma_pow2_unfold((done + 2) as nat);
        }
        seconds = seconds * 2;
        done += 1;
    }
    seconds
}

/// The lines that show what an attempt wrote.
fn log_output(args: &CommandArgs, output: &AttemptOutput) -> (actions: Vec<Action>)
    ensures
        actions.deep_view() == output_logs(args@, output@),
{
    let mut actions: Vec<Action> = Vec::new();
    assert(actions.deep_view() =~= Seq::empty());
    if args.log_stdout && !output.stdout.as_str().is_empty() {
        let raw = joined("==> ", output.stdout.as_str());
        let line = redact_text(raw.as_str(), &args.masq);
        let ghost before = actions.deep_view();
        actions.push(Action::Log(Severity::Info, line));
        assert(actions.deep_view() =~= before.push(ActionView::Log(Severity::Info, line@)));
    }
    if args.log_stderr && !output.stderr.as_str().is_empty() {
        let raw = joined("==> ", output.stderr.as_str());
        let line = redact_text(raw.as_str(), &args.masq);
        let ghost before = actions.deep_view();
        actions.push(Action::Log(Severity::Error, line));
        assert(actions.deep_view() =~= before.push(ActionView::Log(Severity::Error, line@)));
    }
    assert(actions.deep_view() =~= output_logs(args@, output@));
    actions
}

/// Starts the run of the command `cmd`. The first attempt is logged, with
/// the secrets masked. A dry run is over with that and launches nothing: it
/// gives the text that shows the command. Any other command is to be
/// launched, and needs a number of attempts that is valid.
pub fn begin(cmd: Vec<String>, args: CommandArgs) -> (plan: Plan)
    requires
        args.dry_run || args@.valid(),
    ensures
        plan@ == begin_plan(cmd.deep_view(), args@),
        args.dry_run ==> plan@.next == StepView::Finished(Ok(dry_run_text(cmd.deep_view()))),
        !args.dry_run ==> (plan@.next matches StepView::Launch(engine) && engine.running()),
{
    let rendering = render(&cmd);
    let raw = joined("==> ", rendering.as_str());
    let line = redact_text(raw.as_str(), &args.masq);
    let mut actions: Vec<Action> = Vec::new();
    actions.push(Action::Log(Severity::Info, line));
    assert(actions.deep_view() =~= seq![
        ActionView::Log(Severity::Info, attempt_line(cmd.deep_view(), args@.secrets)),
    ]);
    if args.dry_run {
        let text = joined("==> Command: dry-running command: ", rendering.as_str());
        Plan { actions, next: Step::Finished(Ok(text)) }
    } else {
        Plan { actions, next: Step::Launch(Engine { cmd, args, rendering, failures: 0 }) }
    }
}

impl Engine {
    #[verifier::type_invariant]
    spec fn well_formed(self) -> bool {
        &&& self.args@.valid()
        &&& self.failures < self.args.retries
        &&& self.rendering@ == debug_rendering(self.cmd.deep_view())
    }

    /// The argument vector to launch: the program, then its arguments.
    pub fn command(&self) -> (cmd: &Vec<String>)
        ensures
            cmd.deep_view() == self@.cmd,
            self@.running(),
    {
        proof {
            use_type_invariant(self);
        }
        &self.cmd
    }

    /// Which attempt is made next; the first has the number one.
    pub fn attempt(&self) -> (number: u32)
        ensures
            number == self@.failures + 1,
            number <= self@.args.retries,
    {
        proof {
            use_type_invariant(self);
        }
        self.failures + 1
    }

    /// Takes what the attempt gave and says how the run goes on, after a look
    /// at the clock: the plan is that of `after_attempt` for a clock that
    /// stands still or for one that runs.
    pub fn after_attempt_now(self, output: AttemptOutput) -> (plan: Plan)
        ensures
            self@.running(),
            plan@ == attempt_plan(self@, output@, true) || plan@ == attempt_plan(
                self@,
                output@,
                false,
            ),
            plan@.next matches StepView::Launch(engine) ==> engine.running(),
    {
        let clock_paused = clock_is_paused();
        self.after_attempt(output, clock_paused)
    }

    /// Takes what the attempt gave and says how the run goes on.
    /// `clock_paused` says whether the clock stands still, as it does under
    /// test: no wait is made then, and all else is the same.
    pub fn after_attempt(self, output: AttemptOutput, clock_paused: bool) -> (plan: Plan)
        ensures
            self@.running(),
            plan@ == attempt_plan(self@, output@, clock_paused),
            plan@.next matches StepView::Launch(engine) ==> engine.running(),
    {
        proof {
            use_type_invariant(&self);
        }
        let Engine { cmd, args, rendering, failures } = self;
        let mut actions = log_output(&args, &output);
        let succeeded = match output.code {
            Some(code) => code == 0,
            None => false,
        };
        if succeeded {
            return Plan { actions, next: Step::Finished(Ok(output.stdout)) };
        }
        let retry: u32 = failures + 1;
        if retry < args.retries {
            let delay = delay_before(retry);
            let mut raw = joined("==> Command: waiting ", decimal(delay).as_str());
            raw.append(" seconds before try ");
            raw.append(decimal((retry + 1) as u64).as_str());
            raw.append(" of command: ");
            raw.append(rendering.as_str());
            let announce = redact_text(raw.as_str(), &args.masq);
            let ghost logs = actions.deep_view();
            actions.push(Action::Log(Severity::Warning, announce));
            match instrumented_sleep(delay, clock_paused) {
                Some(seconds) => {
                    actions.push(Action::Sleep(seconds));
                },
                None => {},
            }
            let again = joined("==> ", rendering.as_str());
            let line = redact_text(again.as_str(), &args.masq);
            actions.push(Action::Log(Severity::Info, line));
            assert(actions.deep_view() =~= logs + retry_actions(self@, clock_paused));
            let engine = Engine { cmd, args, rendering, failures: retry };
            Plan { actions, next: Step::Launch(engine) }
        } else {
            let code = match output.code {
                Some(code) => code,
                None => NO_EXIT_CODE,
            };
            Plan {
                actions,
                next: Step::Finished(Err(CommandError(code, output.stdout, output.stderr))),
            }
        }
    }
}

/// A whole run, told from its end.
pub struct RunView {
    /// How often the process was launched.
    pub launches: nat,
    /// What was logged and waited for, in order.
    pub actions: Seq<ActionView>,
    /// What the run gave; `None` where it is not over.
    pub result: Option<Result<Seq<char>, CommandErrorView>>,
}

/// The run that follows `plan` where the launches give `outputs`, one after
/// the other. The run stops where the plan is finished, and where a launch
/// is asked for that `outputs` has nothing left for.
pub open spec fn run_from(
    plan: PlanView,
    outputs: Seq<AttemptOutputView>,
    clock_paused: bool,
) -> RunView
    decreases outputs.len(),
{
    match plan.next {
        StepView::Finished(result) => RunView {
            launches: 0,
            actions: plan.actions,
            result: Some(result),
        },
        StepView::Launch(engine) => if outputs.len() == 0 {
            RunView { launches: 0, actions: plan.actions, result: None }
        } else {
            let rest = run_from(
                attempt_plan(engine, outputs[0], clock_paused),
                outputs.skip(1),
                clock_paused,
            );
            RunView {
                launches: rest.launches + 1,
                actions: plan.actions + rest.actions,
                result: rest.result,
            }
        },
    }
}

/// The run of the command `cmd` where the launches give `outputs`.
pub open spec fn run(
    cmd: Seq<Seq<char>>,
    args: CommandArgsView,
    outputs: Seq<AttemptOutputView>,
    clock_paused: bool,
) -> RunView {
    run_from(begin_plan(cmd, args), outputs, clock_paused)
}

/// The waits among `actions`, in seconds and in order.
pub open spec fn waits(actions: Seq<ActionView>) -> Seq<nat>
    decreases actions.len(),
{
    if actions.len() == 0 {
        Seq::empty()
    } else {
        match actions.last() {
            ActionView::Sleep(seconds) => waits(actions.drop_last()).push(seconds as nat),
            ActionView::Log(_, _) => waits(actions.drop_last()),
        }
    }
}

/// No line that `actions` logs holds `secret`.
pub open spec fn logs_hold_no(actions: Seq<ActionView>, secret: Seq<char>) -> bool {
    forall|i: int|
        0 <= i < actions.len() ==> (#[trigger] actions[i] matches ActionView::Log(_, line)
            ==> !occurs_in(line, secret))
}

/// The waits of two lists of actions, one behind the other, are the waits of
/// the first and then those of the second.
proof fn lemma_waits_add(first: Seq<ActionView>, second: Seq<ActionView>)
    ensures
        waits(first + second) == waits(first) + waits(second),
    decreases second.len(),
{
    if second.len() == 0 {
        assert(first + second =~= first);
        assert(waits(first) + waits(second) =~= waits(first));
    } else {
        assert((first + second).drop_last() =~= first + second.drop_last());
        lemma_waits_add(first, second.drop_last());
        assert((first + second).last() == second.last());
        match second.last() {
            ActionView::Sleep(seconds) => {
                assert(waits(first) + waits(second.drop_last()).push(seconds as nat) =~= (waits(
                    first,
                ) + waits(second.drop_last())).push(seconds as nat));
            },
            ActionView::Log(_, _) => {},
        }
    }
}

/// To log what an attempt wrote is not to wait.
proof fn lemma_output_logs_wait_not(args: CommandArgsView, output: AttemptOutputView)
    ensures
        waits(output_logs(args, output)) == Seq::<nat>::empty(),
{
    let logs = output_logs(args, output);
    reveal_with_fuel(waits, 3);
    if logs.len() == 2 {
        assert(logs.drop_last().len() == 1);
        assert(logs.drop_last().drop_last().len() == 0);
    } else if logs.len() == 1 {
        assert(logs.drop_last().len() == 0);
    }
}

/// Between a failed attempt and the next there is one wait, of the delay
/// that belongs to the retry, or none where the clock stands still.
proof fn lemma_retry_waits(engine: EngineView, clock_paused: bool)
    requires
        engine.failures + 1 < engine.args.retries <= MAX_RETRIES,
    ensures
        waits(retry_actions(engine, clock_paused)) == if clock_paused {
            Seq::<nat>::empty()
        } else {
            seq![backoff_delay(engine.failures + 1)]
        },
{
    let actions = retry_actions(engine, clock_paused);
    let retry = engine.failures + 1;
    reveal_with_fuel(waits, 4);
    lemma2_to64();
    lemma2_to64_rest();
    if retry + 1 < 63 {
        lemma_pow2_strictly_increases(retry + 1, 63);
    }
    assert(backoff_delay(retry) as u64 == backoff_delay(retry));
    if clock_paused {
        assert(actions.len() == 2);
        assert(actions.drop_last().len() == 1);
        assert(actions.drop_last().drop_last().len() == 0);
    } else {
        assert(actions.len() == 3);
        assert(actions.drop_last().len() == 2);
        assert(actions.drop_last().drop_last().len() == 1);
        assert(actions.drop_last().drop_last().drop_last().len() == 0);
        assert(actions.drop_last().last() == ActionView::Sleep(backoff_delay(retry) as u64));
        assert(waits(actions) =~= seq![backoff_delay(retry)]);
    }
}

/// The waits of a command that fails at each attempt from the state
/// `engine` on: one before each attempt that is left but the next.
proof fn lemma_failing_from(
    before: Seq<ActionView>,
    engine: EngineView,
    outputs: Seq<AttemptOutputView>,
    clock_paused: bool,
)
    requires
        engine.running(),
        outputs.len() == engine.args.retries - engine.failures,
        forall|i: int| 0 <= i < outputs.len() ==> !(#[trigger] outputs[i]).succeeded(),
    ensures
        ({
            let done = run_from(
                PlanView { actions: before, next: StepView::Launch(engine) },
                outputs,
                clock_paused,
            );
            &&& done.launches == outputs.len()
            &&& done.result == Some(
                Err::<Seq<char>, CommandErrorView>(outputs.last().failure()),
            )
            &&& waits(done.actions) == waits(before) + if clock_paused {
                Seq::<nat>::empty()
            } else {
                Seq::new(
                    (outputs.len() - 1) as nat,
                    |i: int| backoff_delay((engine.failures + 1 + i) as nat),
                )
            }
        }),
    decreases outputs.len(),
{
    let plan = PlanView { actions: before, next: StepView::Launch(engine) };
    let done = run_from(plan, outputs, clock_paused);
    let after = attempt_plan(engine, outputs[0], clock_paused);
    let logs = output_logs(engine.args, outputs[0]);
    let rest = run_from(after, outputs.skip(1), clock_paused);
    assert(!outputs[0].succeeded());
    lemma_output_logs_wait_not(engine.args, outputs[0]);
    if engine.failures + 1 < engine.args.retries {
        let next = EngineView { failures: engine.failures + 1, ..engine };
        assert forall|i: int| 0 <= i < outputs.skip(1).len() implies !(#[trigger] outputs.skip(
            1,
        )[i]).succeeded() by {
            assert(outputs.skip(1)[i] == outputs[i + 1]);
        }
        lemma_failing_from(after.actions, next, outputs.skip(1), clock_paused);
        lemma_retry_waits(engine, clock_paused);
        lemma_waits_add(logs, retry_actions(engine, clock_paused));
        lemma_waits_add(before, rest.actions);
        assert(outputs.skip(1).last() == outputs.last());
        if !clock_paused {
            assert(waits(done.actions) =~= waits(before) + Seq::new(
                (outputs.len() - 1) as nat,
                |i: int| backoff_delay((engine.failures + 1 + i) as nat),
            ));
        } else {
            assert(waits(done.actions) =~= waits(before) + Seq::<nat>::empty());
        }
    } else {
        assert(outputs.len() == 1);
        assert(outputs.last() == outputs[0]);
        lemma_waits_add(before, rest.actions);
        if !clock_paused {
            assert(waits(done.actions) =~= waits(before) + Seq::new(
                0,
                |i: int| backoff_delay((engine.failures + 1 + i) as nat),
            ));
        } else {
            assert(waits(done.actions) =~= waits(before) + Seq::<nat>::empty());
        }
    }
}

/// A dry run launches nothing and waits for nothing, whatever a launch would
/// give: it logs the command once and returns the text that shows it, which
/// depends on the argument vector alone.
pub proof fn lemma_dry_run_launches_nothing(
    cmd: Seq<Seq<char>>,
    args: CommandArgsView,
    outputs: Seq<AttemptOutputView>,
    clock_paused: bool,
)
    requires
        args.dry_run,
    ensures
        run(cmd, args, outputs, clock_paused).launches == 0,
        run(cmd, args, outputs, clock_paused).result == Some(
            Ok::<Seq<char>, CommandErrorView>(dry_run_text(cmd)),
        ),
        run(cmd, args, outputs, clock_paused).actions == seq![
            ActionView::Log(Severity::Info, attempt_line(cmd, args.secrets)),
        ],
{
}

/// A command that fails at each of its attempts is launched as often as it
/// may be tried. Between two attempts the engine waits, four seconds at
/// first and twice as long each time after, unless the clock stands still.
/// The run ends with the failure of the last attempt.
pub proof fn lemma_failing_command_uses_all_attempts(
    cmd: Seq<Seq<char>>,
    args: CommandArgsView,
    outputs: Seq<AttemptOutputView>,
    clock_paused: bool,
)
    requires
        args.valid(),
        !args.dry_run,
        outputs.len() == args.retries,
        forall|i: int| 0 <= i < outputs.len() ==> !(#[trigger] outputs[i]).succeeded(),
    ensures
        run(cmd, args, outputs, clock_paused).launches == args.retries,
        run(cmd, args, outputs, clock_paused).result == Some(
            Err::<Seq<char>, CommandErrorView>(outputs.last().failure()),
        ),
        !clock_paused ==> waits(run(cmd, args, outputs, clock_paused).actions) == Seq::new(
            (args.retries - 1) as nat,
            |i: int| pow2((i + 2) as nat),
        ),
        clock_paused ==> waits(run(cmd, args, outputs, clock_paused).actions) == Seq::<
            nat,
        >::empty(),
{
    let plan = begin_plan(cmd, args);
    let engine = EngineView { cmd, args, failures: 0 };
    reveal_with_fuel(waits, 2);
    assert(plan.actions.drop_last().len() == 0);
    assert(waits(plan.actions) =~= Seq::<nat>::empty());
    lemma_failing_from(plan.actions, engine, outputs, clock_paused);
    let done = run(cmd, args, outputs, clock_paused);
    if !clock_paused {
        assert(waits(done.actions) =~= Seq::new(
            (args.retries - 1) as nat,
            |i: int| pow2((i + 2) as nat),
        ));
    } else {
        assert(waits(done.actions) =~= Seq::<nat>::empty());
    }
}

/// The first attempt that succeeds ends the run: the command is not launched
/// again, and the run gives what that attempt wrote to standard output.
pub proof fn lemma_success_ends_run(
    before: Seq<ActionView>,
    engine: EngineView,
    outputs: Seq<AttemptOutputView>,
    clock_paused: bool,
    at: int,
)
    requires
        engine.running(),
        0 <= at < outputs.len(),
        at < engine.args.retries - engine.failures,
        outputs[at].succeeded(),
        forall|i: int| 0 <= i < at ==> !(#[trigger] outputs[i]).succeeded(),
    ensures
        ({
            let done = run_from(
                PlanView { actions: before, next: StepView::Launch(engine) },
                outputs,
                clock_paused,
            );
            &&& done.launches == at + 1
            &&& done.result == Some(Ok::<Seq<char>, CommandErrorView>(outputs[at].stdout))
        }),
    decreases at,
{
    let after = attempt_plan(engine, outputs[0], clock_paused);
    if at == 0 {
        assert(after.next == StepView::Finished(Ok::<Seq<char>, CommandErrorView>(outputs[0].stdout)));
        assert(run_from(after, outputs.skip(1), clock_paused).launches == 0);
    } else {
        let next = EngineView { failures: engine.failures + 1, ..engine };
        assert(!outputs[0].succeeded());
        assert(after == PlanView { actions: after.actions, next: StepView::Launch(next) });
        assert forall|i: int| 0 <= i < at - 1 implies !(#[trigger] outputs.skip(1)[i]).succeeded() by {
            assert(outputs.skip(1)[i] == outputs[i + 1]);
        }
        assert(outputs.skip(1)[at - 1] == outputs[at]);
        lemma_success_ends_run(after.actions, next, outputs.skip(1), clock_paused, at - 1);
    }
}

/// No line of a plan holds a secret that is not empty and holds no asterisk.
pub proof fn lemma_plans_log_no_secret(
    engine: EngineView,
    output: AttemptOutputView,
    clock_paused: bool,
    which: int,
)
    requires
        0 <= which < engine.args.secrets.len(),
        engine.args.secrets[which].len() > 0,
        !engine.args.secrets[which].contains('*'),
    ensures
        logs_hold_no(begin_plan(engine.cmd, engine.args).actions, engine.args.secrets[which]),
        logs_hold_no(attempt_plan(engine, output, clock_paused).actions, engine.args.secrets[which]),
{
    let secrets = engine.args.secrets;
    let secret = secrets[which];
    let retry = engine.failures + 1;
    lemma_redacted_holds_no_secret("==> "@ + debug_rendering(engine.cmd), secrets, which);
    lemma_redacted_holds_no_secret("==> "@ + output.stdout, secrets, which);
    lemma_redacted_holds_no_secret("==> "@ + output.stderr, secrets, which);
    lemma_redacted_holds_no_secret(
        "==> Command: waiting "@ + decimal_digits(backoff_delay(retry)) + " seconds before try "@
            + decimal_digits(retry + 1) + " of command: "@ + debug_rendering(engine.cmd),
        secrets,
        which,
    );
    assert(!occurs_in(attempt_line(engine.cmd, secrets), secret));
    assert(!occurs_in(output_line(output.stdout, secrets), secret));
    assert(!occurs_in(output_line(output.stderr, secrets), secret));
    assert(!occurs_in(
        backoff_line(backoff_delay(retry), retry + 1, engine.cmd, secrets),
        secret,
    ));
}

/// No line that a run logs, at the first attempt or at a later one, holds a
/// secret that is not empty and holds no asterisk.
pub proof fn lemma_run_logs_no_secret(
    cmd: Seq<Seq<char>>,
    args: CommandArgsView,
    outputs: Seq<AttemptOutputView>,
    clock_paused: bool,
    which: int,
)
    requires
        0 <= which < args.secrets.len(),
        args.secrets[which].len() > 0,
        !args.secrets[which].contains('*'),
    ensures
        logs_hold_no(run(cmd, args, outputs, clock_paused).actions, args.secrets[which]),
{
    let engine = EngineView { cmd, args, failures: 0 };
    lemma_plans_log_no_secret(engine, arbitrary(), clock_paused, which);
    lemma_run_from_logs_no_secret(begin_plan(cmd, args), cmd, args, outputs, clock_paused, which);
}

/// A run that goes on from a plan without the secret in its lines logs no
/// line with the secret.
proof fn lemma_run_from_logs_no_secret(
    plan: PlanView,
    cmd: Seq<Seq<char>>,
    args: CommandArgsView,
    outputs: Seq<AttemptOutputView>,
    clock_paused: bool,
    which: int,
)
    requires
        0 <= which < args.secrets.len(),
        args.secrets[which].len() > 0,
        !args.secrets[which].contains('*'),
        logs_hold_no(plan.actions, args.secrets[which]),
        plan.next matches StepView::Launch(engine) ==> engine.cmd == cmd && engine.args == args,
    ensures
        logs_hold_no(run_from(plan, outputs, clock_paused).actions, args.secrets[which]),
    decreases outputs.len(),
{
    match plan.next {
        StepView::Finished(_) => {},
        StepView::Launch(engine) => {
            if outputs.len() > 0 {
                let after = attempt_plan(engine, outputs[0], clock_paused);
                lemma_plans_log_no_secret(engine, outputs[0], clock_paused, which);
                lemma_run_from_logs_no_secret(
                    after,
                    cmd,
                    args,
                    outputs.skip(1),
                    clock_paused,
                    which,
                );
            }
        },
    }
}

} // verus!
