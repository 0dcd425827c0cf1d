use universal_gui::import::{capture_text, default_tool_id, introspect, tool_base_name, IntrospectStep};

fn run(outputs: &[Option<&str>]) -> IntrospectStep {
    let v: Vec<Option<String>> = outputs.iter().map(|o| o.map(|s| s.to_string())).collect();
    introspect("/bin/tool", &v)
}

fn probe(step: IntrospectStep) -> String {
    match step {
        IntrospectStep::Probe(a) => a,
        IntrospectStep::Done(_) => panic!("expected a probe"),
    }
}

#[test]
fn capture_prefers_output_then_errors() {
    assert_eq!(capture_text(b"help\n", b"err"), Some("help\n".to_string()));
    assert_eq!(capture_text(b"  \n", b"usage: x"), Some("usage: x".to_string()));
    assert_eq!(capture_text(b"", b" \t"), None);
    assert_eq!(capture_text(&[0xff], b""), Some("\u{fffd}".to_string()));
}

#[test]
fn probes_in_order() {
    assert_eq!(probe(run(&[])), "--help");
    assert_eq!(probe(run(&[None])), "-h");
    assert_eq!(probe(run(&[Some("h")])), "--version");
    assert_eq!(probe(run(&[None, None])), "--version");
    assert_eq!(probe(run(&[Some("h"), None])), "-V");
    assert_eq!(probe(run(&[None, Some("h"), None])), "-V");
}

#[test]
fn introspection_result() {
    match run(&[Some("HELP"), Some("  tool 1.0  \nbuilt today")]) {
        IntrospectStep::Done(t) => {
            assert_eq!(t.program, "/bin/tool");
            assert_eq!(t.help, "HELP");
            assert_eq!(t.version.as_deref(), Some("tool 1.0"));
        }
        _ => panic!("expected done"),
    }
    match run(&[None, None, None, Some("\n v2")]) {
        IntrospectStep::Done(t) => {
            assert_eq!(t.help, "Help not available (no --help)");
            assert_eq!(t.version, None);
        }
        _ => panic!("expected done"),
    }
    match run(&[None, Some("h"), None, None, Some("ignored")]) {
        IntrospectStep::Done(t) => {
            assert_eq!(t.help, "h");
            assert_eq!(t.version, None);
        }
        _ => panic!("expected done"),
    }
}

#[test]
fn default_id_and_title() {
    assert_eq!(tool_base_name("/usr/bin/My Tool", '/'), "My Tool");
    assert_eq!(default_tool_id("/usr/bin/My Tool", '/'), "cli.my_tool");
    assert_eq!(default_tool_id("C:\\Tools\\Ripgrep.EXE", '\\'), "cli.ripgrep.exe");
    assert_eq!(tool_base_name("plain", '/'), "plain");
    assert_eq!(tool_base_name("dir/", '/'), "");
}
