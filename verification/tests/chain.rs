use shortcut_alias::bindings::Bindings;
use shortcut_alias::commands::CommandOutput;
use shortcut_alias::runner::ChainState;
use shortcut_alias::runner::Runner;
use shortcut_alias::shortcut::Argument;
use shortcut_alias::shortcut::ArgumentType;
use shortcut_alias::shortcut::Command;
use shortcut_alias::shortcut::Shortcut;
use shortcut_alias::shortcut::Variables;

fn step(name: &str, command: &str) -> Command {
    Command { name: name.to_string(), description: None, command: command.to_string() }
}

fn shortcut_of(commands: Vec<Command>) -> Shortcut {
    Shortcut {
        name: "version".to_string(),
        description: None,
        args: None,
        env: None,
        variables: None,
        commands,
    }
}

fn runner_of(commands: Vec<Command>) -> Runner {
    let shortcut = shortcut_of(commands);
    assert!(shortcut.validate());
    let vars = Variables::new(&shortcut, &Bindings::new(), &Bindings::new());
    let mut runner = Runner::new(shortcut, vars);
    runner.start();
    runner
}

/// A stand-in execution capability: each call records how often it ran
/// and returns the scripted result.
struct FakeCapability {
    results: Vec<(String, i32)>,
    calls: usize,
}

impl FakeCapability {
    fn run(&mut self, _command: &str) -> CommandOutput {
        let (output, status) = self.results[self.calls].clone();
        self.calls += 1;
        CommandOutput { output, status }
    }
}

fn drive(runner: &mut Runner, capability: &mut FakeCapability) -> Vec<String> {
    let mut rendered = Vec::new();
    while let Some(command) = runner.next_command() {
        let result = capability.run(&command);
        rendered.push(command);
        runner.record_step(result.output, result.status);
    }
    rendered
}

#[test]
fn test_chain_passes_prior_output_along() {
    // Step two references step one's recorded output and must see it
    // verbatim, trailing newline included.
    let mut runner = runner_of(vec![
        step("Get Version", "echo 1.0"),
        step("Report", "echo {{ commands.get_version.output }}"),
    ]);
    let mut capability = FakeCapability {
        results: vec![("1.0\n".to_string(), 0), ("1.0\n\n".to_string(), 0)],
        calls: 0,
    };
    let rendered = drive(&mut runner, &mut capability);

    assert_eq!(rendered, vec!["echo 1.0".to_string(), "echo 1.0\n".to_string()]);
    assert_eq!(runner.state, ChainState::Completed);
    assert_eq!(capability.calls, 2);
    assert!(runner.failure().is_none());
}

#[test]
fn test_chain_ordering_three_steps() {
    let mut runner = runner_of(vec![
        step("A", "first"),
        step("B", "{{ commands.a.output }}-b"),
        step("C", "{{ commands.b.output }}-c"),
    ]);
    let mut capability = FakeCapability {
        results: vec![
            ("one".to_string(), 0),
            ("two".to_string(), 0),
            ("three".to_string(), 0),
        ],
        calls: 0,
    };
    let rendered = drive(&mut runner, &mut capability);

    assert_eq!(
        rendered,
        vec!["first".to_string(), "one-b".to_string(), "two-c".to_string()]
    );
    assert_eq!(runner.state, ChainState::Completed);
}

#[test]
fn test_chain_fails_fast() {
    // Step one exits with status 1: the chain is Failed at index 0 and
    // steps two and three are never invoked.
    let mut runner = runner_of(vec![
        step("First", "exit 1"),
        step("Second", "echo two"),
        step("Third", "echo three"),
    ]);
    let mut capability = FakeCapability {
        results: vec![
            ("".to_string(), 1),
            ("two\n".to_string(), 0),
            ("three\n".to_string(), 0),
        ],
        calls: 0,
    };
    drive(&mut runner, &mut capability);

    assert_eq!(capability.calls, 1);
    assert_eq!(runner.state, ChainState::Failed { index: 0, status: 1 });
    assert!(runner.next_command().is_none());

    let failure = runner.failure().expect("a failed chain must surface its failure");
    assert_eq!(failure.step_name, "First");
    assert_eq!(failure.exit_status, 1);
}

#[test]
fn test_failed_step_result_still_recorded() {
    // The failing step's own result is recorded before the chain halts,
    // so it stays inspectable.
    let mut runner = runner_of(vec![step("Boom", "exit 1"), step("After", "echo hi")]);
    let mut capability = FakeCapability {
        results: vec![("stderr text".to_string(), 1), ("hi\n".to_string(), 0)],
        calls: 0,
    };
    drive(&mut runner, &mut capability);

    assert!(runner.vars.commands.contains_key("boom"));
    let recorded = runner.vars.commands.get("boom").unwrap();
    assert_eq!(recorded.output, "stderr text");
    assert_eq!(recorded.status, 1);
    assert!(!runner.vars.commands.contains_key("after"));
}

#[test]
fn test_step_does_not_see_its_own_result() {
    // A step referencing its own name renders fail-open: its result is
    // only recorded after it ran.
    let mut runner = runner_of(vec![
        step("Solo", "before {{ commands.solo.output }}"),
        step("Next", "after {{ commands.solo.output }}"),
    ]);
    let mut capability = FakeCapability {
        results: vec![("one".to_string(), 0), ("two".to_string(), 0)],
        calls: 0,
    };
    let rendered = drive(&mut runner, &mut capability);

    assert_eq!(
        rendered,
        vec![
            "before {{ commands.solo.output }}".to_string(),
            "after one".to_string(),
        ]
    );
}

#[test]
fn test_rerecording_a_step_overwrites() {
    // Recording twice under one step name keeps only the second result.
    let mut vars = Variables::new(&shortcut_of(vec![step("S", "x")]), &Bindings::new(), &Bindings::new());
    vars.add_command(
        "Python Version".to_string(),
        CommandOutput { output: "python 3.9.0".to_string(), status: 1 },
    );
    vars.add_command(
        "Python Version".to_string(),
        CommandOutput { output: "python 3.10.0".to_string(), status: 0 },
    );

    assert_eq!(vars.commands.len(), 1);
    let recorded = vars.commands.get("python_version").unwrap();
    assert_eq!(recorded.output, "python 3.10.0");
    assert_eq!(recorded.status, 0);
}

#[test]
fn test_validate() {
    let good = shortcut_of(vec![step("A", "echo a")]);
    assert!(good.validate());

    let no_steps = shortcut_of(vec![]);
    assert!(!no_steps.validate());

    let mut unnamed = shortcut_of(vec![step("A", "echo a")]);
    unnamed.name = "".to_string();
    assert!(!unnamed.validate());

    let arg = |name: &str| Argument {
        arg_type: ArgumentType::Data,
        name: name.to_string(),
        default: None,
        help: None,
    };
    let mut duplicated = shortcut_of(vec![step("A", "echo a")]);
    duplicated.args = Some(vec![arg("bin"), arg("other"), arg("bin")]);
    assert!(!duplicated.validate());

    let mut distinct = shortcut_of(vec![step("A", "echo a")]);
    distinct.args = Some(vec![arg("bin"), arg("other")]);
    assert!(distinct.validate());
}
