use shortcut_alias::bindings::Bindings;
use shortcut_alias::commands::CommandOutput;
use shortcut_alias::shortcut::Variables;
use shortcut_alias::strutil::i32_to_string;
use shortcut_alias::strutil::normalize_name;

fn empty_context() -> Variables {
    Variables {
        args: Bindings::new(),
        variables: Bindings::new(),
        env: Bindings::new(),
        commands: Bindings::new(),
    }
}

fn context_with_arg(name: &str, value: &str) -> Variables {
    let mut ctx = empty_context();
    ctx.args.insert(name.to_string(), value.to_string());
    ctx
}

#[test]
fn test_render_argument_scenario() {
    // A data argument `bin` supplied as `python3` renders into the step.
    let ctx = context_with_arg("bin", "python3");
    assert_eq!(ctx.render_command("{{ args.bin }} -V"), "python3 -V");
}

#[test]
fn test_render_namespace_spellings() {
    let mut ctx = context_with_arg("bin", "python3");
    ctx.variables.insert("VARIABLE".to_string(), "world".to_string());
    ctx.env.insert("HOME_DIR".to_string(), "/home/u".to_string());

    assert_eq!(ctx.render_command("{{ arguments.bin }}"), "python3");
    assert_eq!(ctx.render_command("hello {{ variables.VARIABLE }}"), "hello world");
    assert_eq!(ctx.render_command("{{ env.HOME_DIR }}"), "/home/u");
    assert_eq!(ctx.render_command("{{ environment.HOME_DIR }}"), "/home/u");
}

#[test]
fn test_render_multiple_placeholders() {
    let mut ctx = context_with_arg("a", "one");
    ctx.args.insert("b".to_string(), "two".to_string());
    assert_eq!(ctx.render_command("{{ a.c }}"), "{{ a.c }}");
    assert_eq!(ctx.render_command("{{ args.a }} and {{ args.b }}!"), "one and two!");
}

#[test]
fn test_render_command_output_and_status() {
    let mut ctx = empty_context();
    ctx.add_command(
        "Get Version".to_string(),
        CommandOutput { output: "1.0\n".to_string(), status: 0 },
    );
    assert_eq!(ctx.render_command("echo {{ commands.get_version.output }}"), "echo 1.0\n");
    assert_eq!(ctx.render_command("{{ commands.get_version.status }}"), "0");
}

#[test]
fn test_render_unknown_reference_is_fail_open() {
    // An unknown namespace or key leaves the whole template untouched.
    let ctx = context_with_arg("bin", "python3");
    assert_eq!(ctx.render_command("{{ nope.bin }} -V"), "{{ nope.bin }} -V");
    assert_eq!(ctx.render_command("{{ args.missing }} -V"), "{{ args.missing }} -V");
    assert_eq!(
        ctx.render_command("{{ commands.never_ran.output }}"),
        "{{ commands.never_ran.output }}"
    );
}

#[test]
fn test_render_malformed_is_fail_open() {
    let ctx = context_with_arg("bin", "python3");
    // Unclosed placeholder, missing dotted path, missing namespace.
    assert_eq!(ctx.render_command("{{ args.bin"), "{{ args.bin");
    assert_eq!(ctx.render_command("{{ args }}"), "{{ args }}");
    assert_eq!(ctx.render_command("{{ }}"), "{{ }}");
    // A bad field on a recorded result fails the whole template too.
    let mut ctx2 = empty_context();
    ctx2.add_command("x".to_string(), CommandOutput { output: "o".to_string(), status: 0 });
    assert_eq!(ctx2.render_command("{{ commands.x.wrong }}"), "{{ commands.x.wrong }}");
}

#[test]
fn test_render_trims_placeholder_spaces() {
    let ctx = context_with_arg("bin", "python3");
    assert_eq!(ctx.render_command("{{  args.bin   }}"), "python3");
    assert_eq!(ctx.render_command("{{args.bin}}"), "python3");
}

#[test]
fn test_render_plain_text_unchanged() {
    let ctx = empty_context();
    assert_eq!(ctx.render_command("echo 'Hello World!'"), "echo 'Hello World!'");
    assert_eq!(ctx.render_command(""), "");
    assert_eq!(ctx.render_command("a } b { c"), "a } b { c");
}

#[test]
fn test_normalize_name_folds_case_and_spaces() {
    assert_eq!(normalize_name("Python Version"), "python_version");
    assert_eq!(normalize_name("Get Version"), "get_version");
    assert_eq!(normalize_name("already_plain"), "already_plain");
    // Folding twice changes nothing more.
    assert_eq!(normalize_name("python_version"), "python_version");
}

#[test]
fn test_status_renders_in_decimal() {
    assert_eq!(i32_to_string(0), "0");
    assert_eq!(i32_to_string(127), "127");
    assert_eq!(i32_to_string(-1), "-1");
    assert_eq!(i32_to_string(i32::MAX), "2147483647");
    assert_eq!(i32_to_string(i32::MIN), "-2147483648");
}
