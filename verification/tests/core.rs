use shortcut_alias::bindings::Bindings;
use shortcut_alias::commands::output_as_string;
use shortcut_alias::commands::CommandOutput;
use shortcut_alias::settings::Settings;
use shortcut_alias::shortcut::Argument;
use shortcut_alias::shortcut::ArgumentType;
use shortcut_alias::shortcut::Command;
use shortcut_alias::shortcut::Shortcut;
use shortcut_alias::shortcut::Variables;

fn adv_shortcut() -> Shortcut {
    let mut variables: Bindings<String> = Bindings::new();
    variables.insert("VARIABLE".to_string(), "world".to_string());
    Shortcut {
        name: "version".to_string(),
        description: None,
        args: Some(vec![Argument {
            arg_type: ArgumentType::Data,
            name: "bin".to_string(),
            default: Some("python".to_string()),
            help: Some("The Python binary to use.".to_string()),
        }]),
        env: Some(vec!["ENV_VARIABLE".to_string()]),
        variables: Some(variables),
        commands: vec![Command {
            name: "Python Version".to_string(),
            description: None,
            command: "{{ args.bin }} -V".to_string(),
        }],
    }
}

fn adv_context() -> Variables {
    let shortcut = adv_shortcut();
    let mut parsed: Bindings<String> = Bindings::new();
    parsed.insert("bin".to_string(), "python".to_string());
    let mut env: Bindings<String> = Bindings::new();
    env.insert("ENV_VARIABLE".to_string(), "some_variable".to_string());
    Variables::new(&shortcut, &parsed, &env)
}

#[test]
fn test_output_as_string() {
    let hello: Vec<u8> = vec![104, 101, 108, 108, 111];
    assert!(output_as_string(hello).unwrap() == "hello");

    let world: Vec<u8> = vec![119, 111, 114, 108, 100];
    assert_eq!(output_as_string(world).unwrap(), "world");

    let hello_world: Vec<u8> = vec![104, 101, 108, 108, 111, 32, 119, 111, 114, 108, 100, 33];
    assert_eq!(output_as_string(hello_world).unwrap(), "hello world!");
}

#[test]
fn test_output_as_string_errors() {
    let faulty: Vec<u8> = vec![0, 159, 146, 150];
    assert!(output_as_string(faulty).is_none());
}

#[test]
fn test_new_settings() {
    let settings = Settings::new();

    assert_eq!(settings.show_color, true);
    assert_eq!(settings.show_header, true);
    assert_eq!(settings.show_body, true);
    assert_eq!(settings.show_footer, true);
}

#[test]
fn test_settings_from_matches() {
    let settings = Settings::from_flags(
        Some("off".to_string()),
        Some("on".to_string()),
        Some("on".to_string()),
        Some("off".to_string()),
        Some(false),
    );

    assert_eq!(settings.show_color, false);
    assert_eq!(settings.show_header, true);
    assert_eq!(settings.show_body, true);
    assert_eq!(settings.show_footer, false);
}

#[test]
fn test_settings_silent_overrides() {
    let settings = Settings::from_flags(
        Some("on".to_string()),
        Some("on".to_string()),
        None,
        None,
        Some(true),
    );

    assert_eq!(settings.show_color, false);
    assert_eq!(settings.show_header, false);
    assert_eq!(settings.show_body, false);
    assert_eq!(settings.show_footer, false);
}

#[test]
fn test_new_variables() {
    let variables = adv_context();

    assert!(variables.args.contains_key("bin"));
    assert_eq!(variables.args.get("bin"), Some(&"python".to_string()));

    assert!(variables.variables.contains_key("VARIABLE"));
    assert_eq!(variables.variables.get("VARIABLE"), Some(&"world".to_string()));

    assert!(variables.env.contains_key("ENV_VARIABLE"));
    assert_eq!(variables.env.get("ENV_VARIABLE"), Some(&"some_variable".to_string()));
}

#[test]
fn test_new_variables_filters_undeclared() {
    let shortcut = adv_shortcut();
    let mut parsed: Bindings<String> = Bindings::new();
    parsed.insert("bin".to_string(), "python3".to_string());
    parsed.insert("other".to_string(), "ignored".to_string());
    let mut env: Bindings<String> = Bindings::new();
    env.insert("UNDECLARED".to_string(), "ignored".to_string());
    let variables = Variables::new(&shortcut, &parsed, &env);

    assert_eq!(variables.args.get("bin"), Some(&"python3".to_string()));
    assert!(!variables.args.contains_key("other"));
    assert!(!variables.env.contains_key("UNDECLARED"));
    assert!(!variables.env.contains_key("ENV_VARIABLE"));
    assert_eq!(variables.commands.len(), 0);
}

#[test]
fn test_variables_add_command() {
    let mut variables = adv_context();

    assert_eq!(variables.commands.len(), 0);

    variables.add_command(
        "Python_Version".to_string(),
        CommandOutput { output: "python 3.10.0".to_string(), status: 0 },
    );

    assert_eq!(variables.commands.len(), 1);
    assert!(variables.commands.contains_key("python_version"));
}

#[test]
fn test_variables_render_command() {
    let variables = adv_context();
    let shortcut = adv_shortcut();

    let rendered = variables.render_command(&shortcut.commands[0].command);
    assert_eq!(rendered, "python -V".to_string());
}

#[test]
fn test_bindings_overwrite() {
    let mut m: Bindings<String> = Bindings::new();
    m.insert("k".to_string(), "one".to_string());
    m.insert("k".to_string(), "two".to_string());
    assert_eq!(m.len(), 1);
    assert_eq!(m.get("k"), Some(&"two".to_string()));
    assert!(!m.contains_key("missing"));
}
