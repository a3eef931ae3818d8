//! The run of one input line: which command comes next, whether the shell
//! carries it out itself or starts a process for it, and how the processes
//! of a pipeline are joined.

use crate::alias::alias_lines;
use crate::builtin::{
    builtin_effect, builtin_named, lemma_builtin_names, ActionView, Builtin, BuiltinAction,
};
use crate::command::{commands, segments, CommandView, Redirection, ShellCommand};
use crate::error::ShellError;
use crate::resolve::{filled, listings, pieces, Piece};
use crate::shell::Osh;
use crate::table::Table;
use crate::text::{copy_texts, same_text, texts};
use crate::utils::expansion;
use vstd::prelude::*;

verus! {

/// Where a process reads its standard input from.
#[derive(Debug, Clone, Copy, PartialEq, Eq, Structural)]
pub enum Input {
    /// From where the shell reads its own.
    Inherited,
    /// From the standard output of the process that was started before it
    /// and is still held.
    Upstream,
}

/// How a process is to be started.
#[derive(Debug, PartialEq, Eq)]
pub struct SpawnPlan {
    /// The program.
    pub command: String,
    /// Its arguments.
    pub args: Vec<String>,
    /// Where its standard input comes from.
    pub input: Input,
    /// Whether its standard output and standard error go into pipes of the
    /// shell, and not where those of the shell go.
    pub capture: bool,
    /// Whether the shell waits for the process to end before it goes on; a
    /// process that is not waited for is held, to feed the next one.
    pub wait: bool,
}

/// A plan as the contracts speak of it.
pub struct PlanView {
    pub command: Seq<char>,
    pub args: Seq<Seq<char>>,
    pub input: Input,
    pub capture: bool,
    pub wait: bool,
}

impl View for SpawnPlan {
    type V = PlanView;

    open spec fn view(&self) -> PlanView {
        PlanView {
            command: self.command@,
            args: texts(self.args@),
            input: self.input,
            capture: self.capture,
            wait: self.wait,
        }
    }
}

/// What is to be done next for an input line.
#[derive(Debug, PartialEq, Eq)]
pub enum Step {
    /// Nothing: the line is done.
    Finished,
    /// The command was a builtin; this is left to do outside the session.
    Builtin(BuiltinAction),
    /// Start a process, and tell the session whether it started.
    Spawn(SpawnPlan),
}

/// A step as the contracts speak of it.
pub enum StepView {
    Finished,
    Builtin(ActionView),
    Spawn(PlanView),
}

impl View for Step {
    type V = StepView;

    open spec fn view(&self) -> StepView {
        match self {
            Step::Finished => StepView::Finished,
            Step::Builtin(action) => StepView::Builtin(action@),
            Step::Spawn(plan) => StepView::Spawn(plan@),
        }
    }
}

/// The run of one input line.
#[derive(Debug)]
pub struct LineRun {
    /// The commands of the line.
    pub commands: Vec<ShellCommand>,
    /// How many of them have been dealt with.
    pub next: usize,
    /// Whether a process is held whose output feeds the next one.
    pub pending: bool,
}

/// The plan for a command that is no builtin. It reads from the process
/// that is held, if one is; its output goes into pipes if it is piped or
/// redirected; and the shell waits for it unless it is piped.
pub open spec fn plan_for(command: CommandView, pending: bool) -> PlanView {
    PlanView {
        command: command.command,
        args: command.args,
        input: if pending {
            Input::Upstream
        } else {
            Input::Inherited
        },
        capture: command.piped || command.redirection != Redirection::Nowhere,
        wait: !command.piped,
    }
}

/// Where a session and the run of a line stand after a step.
pub struct Progress {
    /// The aliases of the session.
    pub aliases: Map<Seq<char>, Seq<char>>,
    /// The status of the session.
    pub status: u32,
    /// How many commands of the line have been dealt with.
    pub next: int,
    /// Whether a process is held whose output feeds the next one.
    pub pending: bool,
    /// What is to be done.
    pub step: StepView,
}

/// The step that follows when `next` of `commands` have been dealt with.
/// With no command left the line is finished. A builtin takes its effect
/// on the session; where it gives up the rest of the line, no command is
/// left and no process is held any longer. Any other command is to be
/// started as a process, by the plan for it.
pub open spec fn progress(
    commands: Seq<CommandView>,
    next: int,
    pending: bool,
    aliases: Map<Seq<char>, Seq<char>>,
    status: u32,
    previous_directory: Seq<char>,
    env: Map<Seq<char>, Seq<char>>,
) -> Progress {
    if next < 0 || next >= commands.len() {
        Progress { aliases, status, next, pending, step: StepView::Finished }
    } else {
        match builtin_named(commands[next].command) {
            Some(which) => {
                let effect = builtin_effect(
                    which,
                    commands[next].args,
                    aliases,
                    status,
                    previous_directory,
                    env,
                );
                Progress {
                    aliases: effect.aliases,
                    status: effect.status,
                    next: if effect.skip {
                        commands.len() as int
                    } else {
                        next + 1
                    },
                    pending: pending && !effect.skip,
                    step: StepView::Builtin(effect.action),
                }
            },
            None => Progress {
                aliases,
                status,
                next: next + 1,
                pending,
                step: StepView::Spawn(plan_for(commands[next], pending)),
            },
        }
    }
}

/// The previous directory of a session after an attempt to change the
/// working directory from `before`, which left the shell in `after`: the
/// directory that was left, or the old one where the shell did not move.
pub open spec fn directory_left(previous: Seq<char>, before: Seq<char>, after: Seq<char>) -> Seq<
    char,
> {
    if after != before {
        before
    } else {
        previous
    }
}

/// A step never goes back, and goes past no more than the commands there are.
pub proof fn lemma_progress_advances(
    commands: Seq<CommandView>,
    next: int,
    pending: bool,
    aliases: Map<Seq<char>, Seq<char>>,
    status: u32,
    previous_directory: Seq<char>,
    env: Map<Seq<char>, Seq<char>>,
)
    requires
        0 <= next < commands.len(),
    ensures
        next < progress(commands, next, pending, aliases, status, previous_directory, env).next
            <= commands.len(),
        !(progress(commands, next, pending, aliases, status, previous_directory, env).step
            is Finished),
{
}

/// A process reads from the one before it exactly when one is held, and no
/// builtin makes the shell hold one.
pub proof fn lemma_progress_wiring(
    commands: Seq<CommandView>,
    next: int,
    pending: bool,
    aliases: Map<Seq<char>, Seq<char>>,
    status: u32,
    previous_directory: Seq<char>,
    env: Map<Seq<char>, Seq<char>>,
)
    ensures
        ({
            let after = progress(commands, next, pending, aliases, status, previous_directory, env);
            &&& after.step is Spawn ==> (after.step->Spawn_0.input == Input::Upstream) == pending
            &&& after.step is Spawn ==> after.step->Spawn_0.wait == !commands[next].piped
            &&& after.pending ==> pending
        }),
{
}

/// `alias` without arguments ends its line: the aliases are listed, the
/// status is 0, and whatever commands follow on the line, the step after it
/// is to finish, in any environment; no process is started for them.
pub proof fn lemma_alias_listing_ends_line(
    commands: Seq<CommandView>,
    next: int,
    pending: bool,
    aliases: Map<Seq<char>, Seq<char>>,
    status: u32,
    previous_directory: Seq<char>,
    env: Map<Seq<char>, Seq<char>>,
    later: Map<Seq<char>, Seq<char>>,
)
    requires
        0 <= next < commands.len(),
        commands[next].command == "alias"@,
        commands[next].args.len() == 0,
    ensures
        ({
            let after = progress(commands, next, pending, aliases, status, previous_directory, env);
            &&& after.step == StepView::Builtin(
                ActionView::ListAliases { lines: alias_lines(aliases) },
            )
            &&& after.aliases == aliases
            &&& after.status == 0
            &&& after.next == commands.len()
            &&& !after.pending
            &&& progress(
                commands,
                after.next,
                after.pending,
                after.aliases,
                after.status,
                previous_directory,
                later,
            ).step == StepView::Finished
        }),
{
    lemma_builtin_names();
}

/// Every builtin that fails gives up the rest of its line with the status
/// 1, and every builtin that does not give up the line leaves the status 0.
pub proof fn lemma_builtin_status(
    which: Builtin,
    args: Seq<Seq<char>>,
    aliases: Map<Seq<char>, Seq<char>>,
    status: u32,
    previous_directory: Seq<char>,
    env: Map<Seq<char>, Seq<char>>,
)
    ensures
        ({
            let effect = builtin_effect(which, args, aliases, status, previous_directory, env);
            &&& effect.action is Report ==> effect.status == 1 && effect.skip
            &&& !(effect.action is Report) ==> effect.status == 0
            &&& effect.skip ==> effect.action is Report || effect.action is ListAliases
        }),
{
}

/// `cd -` goes back and forth. After a change from `here` to `there`,
/// `cd -` asks for `here`; and once that change is made, `cd -` asks for
/// `there`. This holds of directories whose names expansion leaves as they
/// are.
pub proof fn lemma_cd_dash_returns(
    here: Seq<char>,
    there: Seq<char>,
    previous: Seq<char>,
    aliases: Map<Seq<char>, Seq<char>>,
    status: u32,
    env: Map<Seq<char>, Seq<char>>,
)
    requires
        here != there,
        expansion(here, env) == here,
        expansion(there, env) == there,
    ensures
        ({
            let first = directory_left(previous, here, there);
            let back = builtin_effect(Builtin::Cd, seq!["-"@], aliases, status, first, env);
            let second = directory_left(first, there, here);
            let again = builtin_effect(Builtin::Cd, seq!["-"@], aliases, status, second, env);
            &&& back.action == ActionView::ChangeDirectory { target: here, home_missing: false }
            &&& again.action == ActionView::ChangeDirectory { target: there, home_missing: false }
        }),
{
}

impl LineRun {
    /// The run of a line whose commands are `commands`, before the first step.
    pub fn new(commands: Vec<ShellCommand>) -> (r: LineRun)
        ensures
            r.commands == commands,
            r.next == 0,
            !r.pending,
    {
        LineRun { commands, next: 0, pending: false }
    }

    /// Whether every command of the line has been dealt with.
    pub fn finished(&self) -> (r: bool)
        ensures
            r == (self.next >= self.commands.len()),
    {
        self.next >= self.commands.len()
    }
}

impl Osh {
    /// Begins the run of a line: fills the pieces with the listings of the
    /// directories they want, and divides the words into commands. A line
    /// with a directory that could not be listed has no run and sets the
    /// status to 1.
    pub fn launch(&mut self, found: &Vec<Piece>, given: &Vec<Option<Vec<String>>>) -> (r: Result<
        LineRun,
        ShellError,
    >)
        ensures
            match filled(pieces(found@), listings(given@)) {
                Ok(words) => {
                    &&& r is Ok
                    &&& commands(r->Ok_0.commands@) == segments(words)
                    &&& r->Ok_0.next == 0
                    &&& !r->Ok_0.pending
                    &&& final(self).status == old(self).status
                },
                Err(error) => {
                    &&& r is Err
                    &&& r->Err_0@ == error
                    &&& final(self).status == 1
                },
            },
            final(self).aliases == old(self).aliases,
            final(self).config == old(self).config,
            final(self).history_path == old(self).history_path,
            final(self).prompt == old(self).prompt,
            final(self).previous_directory == old(self).previous_directory,
    {
        match Osh::fill(found, given) {
            Ok(words) => Ok(LineRun::new(self.build_commands(words))),
            Err(error) => {
                self.status = 1;
                Err(error)
            },
        }
    }

    /// Decides the next step of the run of a line, and takes it as far as
    /// the session goes.
    pub fn next_step(&mut self, run: &mut LineRun, env: &Table) -> (r: Step)
        ensures
            ({
                let after = progress(
                    commands(old(run).commands@),
                    old(run).next as int,
                    old(run).pending,
                    old(self).aliases@,
                    old(self).status,
                    old(self).previous_directory@,
                    env@,
                );
                &&& r@ == after.step
                &&& final(self).aliases@ == after.aliases
                &&& final(self).status == after.status
                &&& final(run).next == after.next
                &&& final(run).pending == after.pending
            }),
            final(run).commands == old(run).commands,
            final(self).config == old(self).config,
            final(self).history_path == old(self).history_path,
            final(self).prompt == old(self).prompt,
            final(self).previous_directory == old(self).previous_directory,
    {
        if run.next >= run.commands.len() {
            return Step::Finished;
        }
        let command = &run.commands[run.next];
        assert(commands(run.commands@)[run.next as int] == command@);
        let outcome = self.try_builtin(command, env);
        if outcome.is_builtin {
            if outcome.skip {
                run.next = run.commands.len();
                run.pending = false;
            } else {
                run.next = run.next + 1;
            }
            Step::Builtin(outcome.action)
        } else {
            let plan = SpawnPlan {
                command: command.command.clone(),
                args: copy_texts(&command.args),
                input: if run.pending {
                    Input::Upstream
                } else {
                    Input::Inherited
                },
                capture: command.piped || command.redirection != Redirection::Nowhere,
                wait: !command.piped,
            };
            run.next = run.next + 1;
            Step::Spawn(plan)
        }
    }

    /// Takes note of how a change of directory went: `before` and `after`
    /// are the working directory before and after the attempt, `changed`
    /// says whether it succeeded. The directory that was left becomes the
    /// previous directory. After a failure the status is 1 and the rest of
    /// the line is given up.
    pub fn directory_changed(
        &mut self,
        run: &mut LineRun,
        before: &str,
        after: &str,
        changed: bool,
    )
        ensures
            final(self).status == if changed {
                0u32
            } else {
                1u32
            },
            final(self).previous_directory@ == directory_left(
                old(self).previous_directory@,
                before@,
                after@,
            ),
            final(run).next == if changed {
                old(run).next
            } else {
                old(run).commands.len()
            },
            final(run).pending == (old(run).pending && changed),
            final(run).commands == old(run).commands,
            final(self).aliases == old(self).aliases,
            final(self).config == old(self).config,
            final(self).history_path == old(self).history_path,
            final(self).prompt == old(self).prompt,
    {
        if !same_text(after, before) {
            self.previous_directory = before.to_owned();
        }
        if changed {
            self.status = 0;
        } else {
            self.status = 1;
            run.next = run.commands.len();
            run.pending = false;
        }
    }

    /// Takes note of whether the process of `plan` started. One that
    /// started sets the status to 0, with whatever code it ends later, and
    /// is held if it is not waited for; one that did not sets the status to
    /// 1, and nothing is held any longer. The line goes on either way.
    pub fn spawn_finished(&mut self, run: &mut LineRun, plan: &SpawnPlan, started: bool)
        ensures
            final(self).status == if started {
                0u32
            } else {
                1u32
            },
            final(run).pending == (started && !plan.wait),
            final(run).next == old(run).next,
            final(run).commands == old(run).commands,
            final(self).aliases == old(self).aliases,
            final(self).config == old(self).config,
            final(self).history_path == old(self).history_path,
            final(self).prompt == old(self).prompt,
            final(self).previous_directory == old(self).previous_directory,
    {
        self.status = if started {
            0
        } else {
            1
        };
        run.pending = started && !plan.wait;
    }
}

} // verus!
