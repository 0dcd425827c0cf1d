use universal_gui::help_parser::{
    guess_kind, kind_of_uppercase, match_flag_line, match_usage_line, normalize_positional,
    parse_help_to_spec, word_character, ToolIntrospect,
};
use universal_gui::spec::{ArgKind, CommandSpec};

fn chars(s: &str) -> Vec<char> {
    s.chars().collect()
}

fn text(v: &Option<Vec<char>>) -> Option<String> {
    v.as_ref().map(|c| c.iter().collect())
}

fn tool(program: &str, version: Option<&str>, help: &str) -> ToolIntrospect {
    ToolIntrospect {
        program: program.to_string(),
        version: version.map(|v| v.to_string()),
        help: help.to_string(),
    }
}

fn names(spec: &CommandSpec) -> Vec<String> {
    spec.args.iter().map(|a| a.name.clone()).collect()
}

#[test]
fn guess_kind_reads_the_placeholder() {
    assert!(matches!(guess_kind("<FILE>"), ArgKind::PathFile));
    assert!(matches!(guess_kind("out.json"), ArgKind::PathFile));
    assert!(matches!(guess_kind("NOTES.TXT"), ArgKind::PathFile));
    assert!(matches!(guess_kind("<dir>"), ArgKind::PathDir));
    assert!(matches!(guess_kind("FOLDER"), ArgKind::PathDir));
    assert!(matches!(guess_kind("N"), ArgKind::Int));
    assert!(matches!(guess_kind("n"), ArgKind::Int));
    assert!(matches!(guess_kind("<COUNT>"), ArgKind::Int));
    assert!(matches!(guess_kind("<num-jobs>"), ArgKind::Int));
    assert!(matches!(guess_kind("<NAME>"), ArgKind::String));
    assert!(matches!(guess_kind("<input.txt>"), ArgKind::String));
    // a file beats a folder, a folder beats a number
    assert!(matches!(guess_kind("FILE_DIR"), ArgKind::PathFile));
    assert!(matches!(guess_kind("DIR_COUNT"), ArgKind::PathDir));
}

#[test]
fn kind_of_uppercase_is_case_sensitive() {
    assert!(matches!(kind_of_uppercase("FILE"), ArgKind::PathFile));
    assert!(matches!(kind_of_uppercase("file"), ArgKind::String));
    assert!(matches!(kind_of_uppercase("X.JSON"), ArgKind::PathFile));
    assert!(matches!(kind_of_uppercase("NN"), ArgKind::String));
}

#[test]
fn normalize_positional_strips_brackets_and_case() {
    assert_eq!(normalize_positional("<INPUT>"), "input");
    assert_eq!(normalize_positional("[OUTPUT]"), "output");
    assert_eq!(normalize_positional("  [<Path>]  "), "path");
    assert_eq!(normalize_positional("[FILE]..."), "file]...");
    assert_eq!(normalize_positional("<>"), "");
    assert_eq!(normalize_positional("..."), "...");
}

#[test]
fn flag_line_with_short_long_and_placeholder() {
    let m = match_flag_line(&chars("  -o, --out <FILE>   Write to file")).unwrap();
    assert_eq!(text(&m.short), Some("-o".to_string()));
    assert_eq!(text(&m.long), Some("--out".to_string()));
    assert_eq!(text(&m.val), Some("<FILE>".to_string()));
    assert_eq!(m.help.iter().collect::<String>(), "Write to file");
}

#[test]
fn flag_line_single_letter_placeholder_stays_in_help() {
    let m = match_flag_line(&chars("      --threads N    Number of threads")).unwrap();
    assert_eq!(text(&m.short), None);
    assert_eq!(text(&m.long), Some("--threads".to_string()));
    assert_eq!(text(&m.val), None);
    assert_eq!(m.help.iter().collect::<String>(), "N    Number of threads");
}

#[test]
fn flag_line_without_help_is_no_flag() {
    assert!(match_flag_line(&chars("  --verbose")).is_none());
    assert!(match_flag_line(&chars("plain text line")).is_none());
    assert!(match_flag_line(&chars("")).is_none());
}

#[test]
fn usage_line_rest() {
    assert_eq!(
        text(&match_usage_line(&chars("Usage: prog [OPTIONS] <INPUT>"))),
        Some("prog [OPTIONS] <INPUT>".to_string())
    );
    assert_eq!(text(&match_usage_line(&chars("  USAGE:prog"))), Some("prog".to_string()));
    assert_eq!(text(&match_usage_line(&chars("uſage: x"))), Some("x".to_string()));
    assert_eq!(text(&match_usage_line(&chars("Usage:   "))), Some(" ".to_string()));
    assert_eq!(text(&match_usage_line(&chars("Usage:"))), None);
    assert_eq!(text(&match_usage_line(&chars("The usage: x"))), None);
}

const SAMPLE: &str = "Usage: prog [OPTIONS] <INPUT> [OUTPUT]\n\
\n\
Options:\n\
  -o, --out <FILE>   Write to file\n\
      --threads N    Number of threads\n\
  -v, --verbose      Be loud\n\
  -h, --help         Print help\n";

#[test]
fn parse_sample_help() {
    let spec = parse_help_to_spec(
        "cli.prog".to_string(),
        "prog".to_string(),
        tool("/usr/bin/prog", Some("prog 1.2"), SAMPLE),
    );
    assert_eq!(spec.id, "cli.prog");
    assert_eq!(spec.title, "prog");
    assert_eq!(spec.description, "Imported CLI: /usr/bin/prog (version prog 1.2)");
    assert_eq!(spec.program, "prog");
    assert_eq!(names(&spec), vec!["--out", "--threads", "--verbose", "--help", "input", "output"]);
    assert!(matches!(spec.args[0].kind, ArgKind::PathFile));
    assert_eq!(spec.args[0].help.as_deref(), Some("Write to file"));
    assert!(matches!(spec.args[1].kind, ArgKind::FlagBool));
    assert_eq!(spec.args[1].help.as_deref(), Some("N    Number of threads"));
    assert!(matches!(spec.args[2].kind, ArgKind::FlagBool));
    assert!(!spec.args[0].required);
    assert!(spec.args[4].required);
    assert!(!spec.args[5].required);
    assert!(matches!(spec.args[4].kind, ArgKind::String));
    assert_eq!(spec.args[4].help.as_deref(), Some("Positional argument (from Usage)"));
    assert!(spec.args.iter().all(|a| a.default.is_none()));
    assert!(!spec.io.stdin && spec.io.stdout && spec.io.stderr && !spec.io.outputs_files);
}

#[test]
fn parse_without_usage_or_version() {
    let spec = parse_help_to_spec(
        "t".to_string(),
        "T".to_string(),
        tool("tool", None, "  -x   Do x\r\n  -y   Do y"),
    );
    assert_eq!(spec.description, "Imported CLI: tool");
    assert_eq!(spec.program, "tool");
    assert_eq!(names(&spec), vec!["-x", "-y"]);
    assert_eq!(spec.args[0].help.as_deref(), Some("Do x"));
}

#[test]
fn parse_keeps_first_of_repeated_names() {
    let help = "usage: p <out> <OUT> --x <x>\n  --out   first\n  --out   second\n  --x  a flag";
    let spec = parse_help_to_spec("a".to_string(), "b".to_string(), tool("p", None, help));
    assert_eq!(names(&spec), vec!["--out", "--x", "out", "x"]);
    assert_eq!(spec.args[0].help.as_deref(), Some("first"));
    let mut seen = names(&spec);
    seen.sort();
    seen.dedup();
    assert_eq!(seen.len(), spec.args.len());
}

#[test]
fn parse_skips_headers_and_uses_first_usage_line_only() {
    let help = "Usage: one A\nUsage: two B\nOPTIONS: --not  a flag\nflags:\n  --real   yes";
    let spec = parse_help_to_spec("a".to_string(), "b".to_string(), tool("p", None, help));
    assert_eq!(spec.program, "one");
    assert_eq!(names(&spec), vec!["--real", "a"]);
}

#[test]
fn parse_usage_skips_option_markers_and_ellipsis() {
    let help = "Usage: prog [options] -f [FILES]... ... <x>";
    let spec = parse_help_to_spec("a".to_string(), "b".to_string(), tool("p", None, help));
    assert_eq!(names(&spec), vec!["files]...", "x"]);
    assert!(spec.args[0].required);
}

#[test]
fn guess_kind_ignores_ascii_case() {
    for p in ["<file>", "out.Json", "Dir", "n", "<Count>", "name", "<folder_x>", "a.txt", "Int"] {
        let k = format!("{:?}", guess_kind(p));
        assert_eq!(format!("{:?}", guess_kind(&p.to_ascii_lowercase())), k, "{}", p);
        assert_eq!(format!("{:?}", guess_kind(&p.to_ascii_uppercase())), k, "{}", p);
    }
}

#[test]
fn normalize_positional_is_idempotent_on_ascii_names() {
    for n in ["<INPUT>", "[Out]", "<[x]>", "[FILES]...", "<a>b>", "...", "<>", "Plain", "]x["] {
        let once = normalize_positional(n);
        assert_eq!(normalize_positional(&once), once, "{}", n);
    }
}

#[test]
fn word_characters() {
    for c in ['a', 'Z', '0', '_', 'é', 'ſ'] {
        assert!(word_character(c), "{:?}", c);
    }
    for c in ['-', ' ', ',', '<', '.', '\t'] {
        assert!(!word_character(c), "{:?}", c);
    }
}
