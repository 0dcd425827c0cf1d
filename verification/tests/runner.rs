use universal_gui::registry::builtin_specs;
use universal_gui::runner::{build_argv, plan_run, run_result, RunError};
use universal_gui::spec::{ArgKind, ArgSpec, ArgValue, CommandSpec, IOSpec, NodeInvocation};

fn arg(name: &str, default: Option<ArgValue>) -> ArgSpec {
    ArgSpec { name: name.to_string(), kind: ArgKind::String, required: false, default, help: None }
}

fn command(args: Vec<ArgSpec>) -> CommandSpec {
    CommandSpec {
        id: "t".to_string(),
        title: "T".to_string(),
        description: String::new(),
        program: "tool".to_string(),
        args,
        io: IOSpec { stdin: false, stdout: true, stderr: true, outputs_files: false },
    }
}

fn invocation(id: &str, values: Vec<(&str, ArgValue)>) -> NodeInvocation {
    NodeInvocation {
        spec_id: id.to_string(),
        values: values.into_iter().map(|(k, v)| (k.to_string(), v)).collect(),
        stdin_text: None,
        workdir: None,
    }
}

#[test]
fn argv_follows_the_argument_list() {
    let spec = command(vec![
        arg("--verbose", None),
        arg("--quiet", None),
        arg("--count", None),
        arg("--out", None),
        arg("input", None),
        arg("-m", Some(ArgValue::Str("fast".to_string()))),
        arg("mode", Some(ArgValue::Str("slow".to_string()))),
        arg("--level", Some(ArgValue::Number("3".to_string()))),
        arg("--list", None),
        arg("--missing", None),
    ]);
    let inv = invocation(
        "t",
        vec![
            ("input", ArgValue::Str("a.txt".to_string())),
            ("--out", ArgValue::Str("b.txt".to_string())),
            ("--count", ArgValue::Number("42".to_string())),
            ("--quiet", ArgValue::Bool(false)),
            ("--verbose", ArgValue::Bool(true)),
            ("--list", ArgValue::Composite("[1,2]".to_string())),
            ("not-an-arg", ArgValue::Str("ignored".to_string())),
        ],
    );
    assert_eq!(
        build_argv(&spec, &inv),
        vec!["--verbose", "--count", "42", "--out", "b.txt", "a.txt", "-m", "fast", "slow"]
    );
}

#[test]
fn given_value_beats_default_and_null_gives_nothing() {
    let spec = command(vec![arg("--mode", Some(ArgValue::Str("slow".to_string())))]);
    let inv = invocation("t", vec![("--mode", ArgValue::Str("fast".to_string()))]);
    assert_eq!(build_argv(&spec, &inv), vec!["--mode", "fast"]);
    let inv = invocation("t", vec![("--mode", ArgValue::Null)]);
    assert!(build_argv(&spec, &inv).is_empty());
}

#[test]
fn echo_with_text() {
    let specs = builtin_specs();
    let inv = invocation("core.echo", vec![("text", ArgValue::Str("hello world".to_string()))]);
    assert_eq!(build_argv(&specs[0], &inv), vec!["hello world"]);
}

#[test]
fn plan_for_known_and_unknown_ids() {
    let specs = builtin_specs();
    let mut inv = invocation("core.cat", vec![]);
    inv.stdin_text = Some("typed".to_string());
    inv.workdir = Some("/tmp".to_string());
    let plan = plan_run(&specs, inv).ok().unwrap();
    assert_eq!(plan.program, "cat");
    assert!(plan.args.is_empty());
    assert!(plan.pipe_stdin);
    assert_eq!(plan.stdin_text.as_deref(), Some("typed"));
    assert_eq!(plan.workdir.as_deref(), Some("/tmp"));

    let plan = plan_run(&specs, invocation("core.echo", vec![])).ok().unwrap();
    assert!(!plan.pipe_stdin);
    assert_eq!(plan.program, "echo");

    match plan_run(&specs, invocation("core.nope", vec![])) {
        Err(e) => {
            assert!(matches!(&e, RunError::UnknownSpec(id) if id == "core.nope"));
            assert_eq!(e.message(), "unknown spec id: core.nope");
        }
        Ok(_) => panic!("unknown id planned"),
    }
}

#[test]
fn error_messages() {
    assert_eq!(RunError::Spawn("no such file".to_string()).message(), "failed to spawn process: no such file");
    assert_eq!(RunError::Io("broken pipe".to_string()).message(), "process IO error: broken pipe");
}

#[test]
fn run_result_decodes_and_defaults_exit_code() {
    let r = run_result(b"hi\n", &[0x66, 0xff, 0x6f], None);
    assert_eq!(r.stdout, "hi\n");
    assert_eq!(r.stderr, "f\u{fffd}o");
    assert_eq!(r.exit_code, -1);
    let r = run_result(b"", b"", Some(3));
    assert_eq!(r.exit_code, 3);
    assert_eq!(r.stdout, "");
}

#[test]
fn argv_of_joined_argument_lists_is_joined() {
    let a = vec![arg("--x", None), arg("pos", Some(ArgValue::Str("p".to_string())))];
    let b = vec![arg("--y", None)];
    let inv = invocation(
        "t",
        vec![("--x", ArgValue::Bool(true)), ("--y", ArgValue::Number("7".to_string()))],
    );
    let mut joined = a.clone();
    joined.extend(b.clone());
    let mut expected = build_argv(&command(a), &inv);
    expected.extend(build_argv(&command(b), &inv));
    assert_eq!(build_argv(&command(joined), &inv), expected);
    assert_eq!(expected, vec!["--x", "p", "--y", "7"]);
}

#[test]
fn unlisted_values_change_nothing() {
    let spec = command(vec![arg("--x", None)]);
    let plain = invocation("t", vec![("--x", ArgValue::Str("v".to_string()))]);
    let extra = invocation(
        "t",
        vec![("--z", ArgValue::Bool(true)), ("--x", ArgValue::Str("v".to_string())), ("w", ArgValue::Null)],
    );
    assert_eq!(build_argv(&spec, &plain), build_argv(&spec, &extra));
}

#[test]
fn order_of_distinct_values_does_not_matter() {
    let spec = command(vec![arg("--a", None), arg("b", None), arg("--c", None)]);
    let one = invocation(
        "t",
        vec![
            ("--a", ArgValue::Bool(true)),
            ("b", ArgValue::Str("x".to_string())),
            ("--c", ArgValue::Number("1".to_string())),
        ],
    );
    let other = invocation(
        "t",
        vec![
            ("--c", ArgValue::Number("1".to_string())),
            ("--a", ArgValue::Bool(true)),
            ("b", ArgValue::Str("x".to_string())),
        ],
    );
    assert_eq!(build_argv(&spec, &one), build_argv(&spec, &other));
    assert_eq!(build_argv(&spec, &one), vec!["--a", "x", "--c", "1"]);
}
