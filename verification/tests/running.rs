use osh::{
    BuiltinAction, ConfigFile, Input, LineRun, Osh, Reading, Redirection, ShellCommand,
    ShellError, SpawnPlan, Step, Table, Turn,
};

fn session() -> Osh {
    Osh::new(ConfigFile::new(None), &Table::new(), "/tmp")
}

fn words(items: &[&str]) -> Vec<String> {
    items.iter().map(|s| s.to_string()).collect()
}

fn run_of(osh: &mut Osh, line: &str) -> LineRun {
    let pieces = osh.resolve(line, &Table::new()).expect("the line resolves");
    osh.launch(&pieces, &Vec::new()).expect("the line needs no listing")
}

fn plan(name: &str, args: &[&str], input: Input, capture: bool, wait: bool) -> SpawnPlan {
    SpawnPlan { command: name.to_string(), args: words(args), input, capture, wait }
}

fn spawn(osh: &mut Osh, run: &mut LineRun, started: bool) -> SpawnPlan {
    match osh.next_step(run, &Table::new()) {
        Step::Spawn(plan) => {
            osh.spawn_finished(run, &plan, started);
            plan
        }
        other => panic!("expected a process, got {:?}", other),
    }
}

#[test]
fn builtin_short_circuit() {
    let mut osh = session();
    osh.aliases.insert("ll".to_string(), "ls -la".to_string());
    let mut run = run_of(&mut osh, "alias ; real-command ; another | one");
    assert_eq!(run.commands.len(), 4);
    let step = osh.next_step(&mut run, &Table::new());
    assert_eq!(step, Step::Builtin(BuiltinAction::ListAliases { lines: words(&["ll: ls -la"]) }));
    assert_eq!(osh.status, 0);
    assert!(run.finished());
    assert_eq!(osh.next_step(&mut run, &Table::new()), Step::Finished);
    assert_eq!(osh.next_step(&mut run, &Table::new()), Step::Finished);
}

#[test]
fn failing_builtin_ends_the_line() {
    let mut osh = session();
    let mut run = run_of(&mut osh, "unalias nope ; ls");
    let step = osh.next_step(&mut run, &Table::new());
    assert_eq!(
        step,
        Step::Builtin(BuiltinAction::Report(ShellError::UnknownAlias("nope".to_string())))
    );
    assert_eq!(osh.status, 1);
    assert_eq!(osh.next_step(&mut run, &Table::new()), Step::Finished);
}

#[test]
fn successful_builtin_lets_the_line_go_on() {
    let mut osh = session();
    let mut run = run_of(&mut osh, "alias x y ; ls");
    assert_eq!(osh.next_step(&mut run, &Table::new()), Step::Builtin(BuiltinAction::Nothing));
    assert_eq!(run.next, 1);
    assert_eq!(
        osh.next_step(&mut run, &Table::new()),
        Step::Spawn(plan("ls", &[], Input::Inherited, false, true))
    );
    assert_eq!(run.next, 2);
    assert_eq!(osh.next_step(&mut run, &Table::new()), Step::Finished);
}

#[test]
fn sequence_runs_each_command_by_itself() {
    let mut osh = session();
    let mut run = run_of(&mut osh, "echo a ; echo b");
    assert_eq!(
        spawn(&mut osh, &mut run, true),
        plan("echo", &["a"], Input::Inherited, false, true)
    );
    assert!(!run.pending);
    assert_eq!(
        spawn(&mut osh, &mut run, true),
        plan("echo", &["b"], Input::Inherited, false, true)
    );
    assert!(!run.pending);
    assert_eq!(osh.status, 0);
    assert_eq!(osh.next_step(&mut run, &Table::new()), Step::Finished);
}

#[test]
fn pipeline_joins_its_processes() {
    let mut osh = session();
    let mut run = run_of(&mut osh, "a | b -x | c");
    assert_eq!(spawn(&mut osh, &mut run, true), plan("a", &[], Input::Inherited, true, false));
    assert!(run.pending);
    assert_eq!(spawn(&mut osh, &mut run, true), plan("b", &["-x"], Input::Upstream, true, false));
    assert!(run.pending);
    assert_eq!(spawn(&mut osh, &mut run, true), plan("c", &[], Input::Upstream, false, true));
    assert!(!run.pending);
    assert_eq!(osh.status, 0);
    assert_eq!(osh.next_step(&mut run, &Table::new()), Step::Finished);
}

#[test]
fn failed_spawn_breaks_the_pipe_and_the_line_goes_on() {
    let mut osh = session();
    let mut run = run_of(&mut osh, "a | missing | c ; d");
    spawn(&mut osh, &mut run, true);
    assert!(run.pending);
    assert_eq!(
        spawn(&mut osh, &mut run, false),
        plan("missing", &[], Input::Upstream, true, false)
    );
    assert_eq!(osh.status, 1);
    assert!(!run.pending);
    assert_eq!(spawn(&mut osh, &mut run, true), plan("c", &[], Input::Inherited, false, true));
    assert_eq!(osh.status, 0);
    assert_eq!(spawn(&mut osh, &mut run, true), plan("d", &[], Input::Inherited, false, true));
    assert_eq!(osh.next_step(&mut run, &Table::new()), Step::Finished);
}

#[test]
fn builtin_in_a_pipeline_keeps_the_held_process() {
    let mut osh = session();
    let mut run = run_of(&mut osh, "a | status | c");
    spawn(&mut osh, &mut run, true);
    assert!(run.pending);
    assert_eq!(
        osh.next_step(&mut run, &Table::new()),
        Step::Builtin(BuiltinAction::ShowStatus { status: 0 })
    );
    assert!(run.pending);
    assert_eq!(spawn(&mut osh, &mut run, true), plan("c", &[], Input::Upstream, false, true));
}

#[test]
fn redirected_command_is_captured_and_waited_for() {
    let mut osh = session();
    let mut run = LineRun::new(vec![ShellCommand {
        command: "id".to_string(),
        args: Vec::new(),
        redirection: Redirection::Stdout,
        piped: false,
    }]);
    assert_eq!(
        osh.next_step(&mut run, &Table::new()),
        Step::Spawn(plan("id", &[], Input::Inherited, true, true))
    );
}

#[test]
fn trailing_pipe_leaves_a_process_held() {
    let mut osh = session();
    let mut run = run_of(&mut osh, "a |");
    assert_eq!(run.commands.len(), 1);
    assert!(run.commands[0].piped);
    spawn(&mut osh, &mut run, true);
    assert!(run.pending);
    assert_eq!(osh.next_step(&mut run, &Table::new()), Step::Finished);
}

#[test]
fn cd_dash_semantics() {
    let mut osh = Osh::new(ConfigFile::new(None), &Table::new(), "/tmp");
    let mut here = "/tmp".to_string();
    let lines = ["cd /var", "cd -", "cd -"];
    let expected = ["/var", "/tmp", "/var"];
    let left = ["/tmp", "/var", "/tmp"];
    for k in 0..3 {
        let mut run = run_of(&mut osh, lines[k]);
        match osh.next_step(&mut run, &Table::new()) {
            Step::Builtin(BuiltinAction::ChangeDirectory { target, home_missing }) => {
                assert!(!home_missing);
                assert_eq!(target, expected[k]);
                osh.directory_changed(&mut run, &here, &target, true);
                here = target;
            }
            other => panic!("expected a change of directory, got {:?}", other),
        }
        assert_eq!(osh.status, 0);
        assert_eq!(here, expected[k]);
        assert_eq!(osh.previous_directory, left[k]);
    }
}

#[test]
fn failed_cd_ends_the_line_and_keeps_the_previous_directory() {
    let mut osh = session();
    osh.previous_directory = "/home".to_string();
    let mut run = run_of(&mut osh, "cd /nowhere ; ls");
    let step = osh.next_step(&mut run, &Table::new());
    assert_eq!(
        step,
        Step::Builtin(BuiltinAction::ChangeDirectory {
            target: "/nowhere".to_string(),
            home_missing: false,
        })
    );
    osh.directory_changed(&mut run, "/tmp", "/tmp", false);
    assert_eq!(osh.status, 1);
    assert_eq!(osh.previous_directory, "/home");
    assert!(run.finished());
    assert_eq!(osh.next_step(&mut run, &Table::new()), Step::Finished);
}

#[test]
fn cd_to_the_same_directory_keeps_the_previous_one() {
    let mut osh = session();
    osh.previous_directory = "/home".to_string();
    let mut run = run_of(&mut osh, "cd . ; ls");
    osh.next_step(&mut run, &Table::new());
    osh.directory_changed(&mut run, "/tmp", "/tmp", true);
    assert_eq!(osh.status, 0);
    assert_eq!(osh.previous_directory, "/home");
    assert!(!run.finished());
}

#[test]
fn empty_run_is_finished() {
    let mut osh = session();
    let mut run = LineRun::new(Vec::new());
    assert!(run.finished());
    assert_eq!(osh.next_step(&mut run, &Table::new()), Step::Finished);
}

#[test]
fn turns() {
    assert_eq!(Osh::turn(Reading::Line(String::new())), Turn::Prompt);
    assert_eq!(Osh::turn(Reading::Line("ls".to_string())), Turn::Run("ls".to_string()));
    assert_eq!(Osh::turn(Reading::Line(" ".to_string())), Turn::Run(" ".to_string()));
    assert_eq!(Osh::turn(Reading::Interrupted), Turn::Prompt);
    assert_eq!(Osh::turn(Reading::EndOfInput), Turn::Leave);
    assert_eq!(Osh::turn(Reading::Failed), Turn::Leave);
}
