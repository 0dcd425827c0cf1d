use universal_gui::registry::{
    all_specs, builtin_specs, has_json_extension, merge_specs, safe_file_stem, spec_file_name,
};
use universal_gui::spec::{ArgKind, CommandSpec, IOSpec};

fn command(id: &str, title: &str) -> CommandSpec {
    CommandSpec {
        id: id.to_string(),
        title: title.to_string(),
        description: String::new(),
        program: "prog".to_string(),
        args: vec![],
        io: IOSpec { stdin: false, stdout: true, stderr: true, outputs_files: false },
    }
}

fn ids_titles(v: &[CommandSpec]) -> Vec<(String, String)> {
    v.iter().map(|c| (c.id.clone(), c.title.clone())).collect()
}

#[test]
fn builtin_specs_are_echo_and_cat() {
    let b = builtin_specs();
    assert_eq!(b.len(), 2);
    assert_eq!(b[0].id, "core.echo");
    assert_eq!(b[0].title, "Echo");
    assert_eq!(b[0].description, "Demo node: prints text");
    assert_eq!(b[0].program, "echo");
    assert_eq!(b[0].args.len(), 1);
    assert_eq!(b[0].args[0].name, "text");
    assert!(matches!(b[0].args[0].kind, ArgKind::String));
    assert!(b[0].args[0].required);
    assert_eq!(b[0].args[0].help.as_deref(), Some("Text to print"));
    assert!(!b[0].io.stdin);
    assert_eq!(b[1].id, "core.cat");
    assert_eq!(b[1].title, "Cat (stdin)");
    assert_eq!(b[1].description, "Demo node: echoes stdin (type into input)");
    assert_eq!(b[1].program, "cat");
    assert!(b[1].args.is_empty());
    assert!(b[1].io.stdin && b[1].io.stdout && b[1].io.stderr && !b[1].io.outputs_files);
}

#[test]
fn user_specs_override_builtin_by_id() {
    let all = all_specs(vec![command("core.cat", "My cat"), command("user.x", "X")]);
    assert_eq!(
        ids_titles(&all),
        vec![
            ("core.echo".to_string(), "Echo".to_string()),
            ("core.cat".to_string(), "My cat".to_string()),
            ("user.x".to_string(), "X".to_string()),
        ]
    );
}

#[test]
fn merge_keeps_order_and_all_user_specs() {
    let builtin = vec![command("a", "A"), command("b", "B"), command("c", "C")];
    let user = vec![command("c", "C2"), command("a", "A2"), command("a", "A3")];
    let merged = merge_specs(builtin, user);
    assert_eq!(
        ids_titles(&merged),
        vec![
            ("b".to_string(), "B".to_string()),
            ("c".to_string(), "C2".to_string()),
            ("a".to_string(), "A2".to_string()),
            ("a".to_string(), "A3".to_string()),
        ]
    );
    assert_eq!(all_specs(vec![]).len(), 2);
}

#[test]
fn file_names_of_saved_specs() {
    assert_eq!(safe_file_stem("cli.my/tool:v1\\x"), "cli.my_tool_v1_x");
    assert_eq!(spec_file_name("cli.echo"), "cli.echo.json");
    assert_eq!(spec_file_name("a/b"), "a_b.json");
    assert!(has_json_extension(&spec_file_name("x")));
    assert!(!has_json_extension(&spec_file_name("")));
}

#[test]
fn json_extension_as_path_extension() {
    assert!(has_json_extension("a.json"));
    assert!(has_json_extension("..json"));
    assert!(has_json_extension("a.b.json"));
    assert!(!has_json_extension(".json"));
    assert!(!has_json_extension("json"));
    assert!(!has_json_extension("a.JSON"));
    assert!(!has_json_extension("a.json.bak"));
    assert!(!has_json_extension("a."));
    assert!(!has_json_extension(""));
    for name in ["a.json", "..json", ".json", "x.jsonx", "a.", ".", "..", "b.c.json", ""] {
        let std_says = std::path::Path::new(name).extension().and_then(|s| s.to_str()) == Some("json");
        assert_eq!(has_json_extension(name), std_says, "{}", name);
    }
}
