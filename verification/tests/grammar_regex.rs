//! The line grammars of the help parser, checked against the `regex` crate on
//! many generated lines, and the whole help parser checked against the same
//! grammar matched by `regex` on generated help texts.
use regex::Regex;
use universal_gui::help_parser::{match_flag_line, match_usage_line, parse_help_to_spec, ToolIntrospect};
use universal_gui::spec::{ArgKind, CommandSpec};

const FLAG: &str = r#"(?x)
        ^\s*
        (?P<short>-\w)?
        (?:,\s*)?
        (?P<long>--[a-zA-Z0-9][a-zA-Z0-9\-_]*)?
        (?:\s+(?P<val><[^>]+>|[A-Z][A-Z0-9_\-]+))?
        (?:\s+|\t+)
        (?P<help>.*)
        $"#;

const USAGE: &str = r#"(?i)^\s*usage:\s*(?P<rest>.+)$"#;

struct Lcg(u64);

impl Lcg {
    fn next(&mut self) -> u64 {
        self.0 = self.0.wrapping_mul(6364136223846793005).wrapping_add(1442695040888963407);
        self.0 >> 33
    }
    fn below(&mut self, n: usize) -> usize {
        (self.next() % (n as u64)) as usize
    }
}

const CHARS: &[char] = &[
    ' ', ' ', '\t', '-', '-', ',', '<', '>', 'A', 'Z', 'F', 'a', 'x', '0', '_', 'ſ', 'é', '\u{a0}',
    '\u{2003}', '.', ':', 'U', 's', 'e', '\r', '[', ']',
];

const PIECES: &[&str] = &[
    " ", "  ", "\t", "-o", "-", "--", "--out", "--a-b_c", "--9", ", ", ",", "<FILE>", "<a b>", "<>",
    "<", ">", "N", "FILE_X", "AB-", "A", "Write to file", "x", "-é", "--é", "\u{a0}", ",  ",
    "usage:", "Usage: ", "USAGE:", "uſage:", "[OPTIONS]", "<INPUT>", "[OUT]", "...", "-v",
    "options:", "Flags:", "\r",
];

fn random_line(rng: &mut Lcg) -> String {
    let mut s = String::new();
    if rng.below(2) == 0 {
        for _ in 0..rng.below(14) {
            s.push(CHARS[rng.below(CHARS.len())]);
        }
    } else {
        for _ in 0..rng.below(8) {
            s.push_str(PIECES[rng.below(PIECES.len())]);
        }
    }
    s
}

type Parts = (Option<String>, Option<String>, Option<String>, String);

fn flag_by_regex(re: &Regex, line: &str) -> Option<Parts> {
    let c = re.captures(line)?;
    let short = c.name("short").map(|m| m.as_str().to_string());
    let long = c.name("long").map(|m| m.as_str().to_string());
    if short.is_none() && long.is_none() {
        return None;
    }
    let val = c.name("val").map(|m| m.as_str().to_string());
    let help = c.name("help").map(|m| m.as_str().to_string()).unwrap_or_default();
    Some((short, long, val, help))
}

fn flag_by_library(line: &str) -> Option<Parts> {
    let chars: Vec<char> = line.chars().collect();
    let m = match_flag_line(&chars)?;
    let s = |o: Option<Vec<char>>| o.map(|v| v.into_iter().collect::<String>());
    Some((s(m.short), s(m.long), s(m.val), m.help.into_iter().collect()))
}

#[test]
fn flag_lines_agree_with_regex() {
    let re = Regex::new(FLAG).unwrap();
    let mut rng = Lcg(7);
    let mut matched = 0;
    for _ in 0..200_000 {
        let line = random_line(&mut rng);
        let expected = flag_by_regex(&re, &line);
        if expected.is_some() {
            matched += 1;
        }
        assert_eq!(flag_by_library(&line), expected, "line {:?}", line);
    }
    assert!(matched > 1000);
}

#[test]
fn usage_lines_agree_with_regex() {
    let re = Regex::new(USAGE).unwrap();
    let mut rng = Lcg(11);
    let mut matched = 0;
    for _ in 0..200_000 {
        let line = random_line(&mut rng);
        let expected = re.captures(&line).map(|c| c.name("rest").unwrap().as_str().to_string());
        if expected.is_some() {
            matched += 1;
        }
        let chars: Vec<char> = line.chars().collect();
        let got = match_usage_line(&chars).map(|v| v.into_iter().collect::<String>());
        assert_eq!(got, expected, "line {:?}", line);
    }
    assert!(matched > 100);
}

// The help parser written directly over the regex crate, to compare whole results.
fn kind_name(placeholder: &str) -> &'static str {
    let p = placeholder.to_uppercase();
    if p.contains("FILE") || p.ends_with(".JSON") || p.ends_with(".TXT") {
        "file"
    } else if p.contains("DIR") || p.contains("FOLDER") {
        "dir"
    } else if p == "N" || p.contains("NUM") || p.contains("INT") || p.contains("COUNT") {
        "int"
    } else {
        "string"
    }
}

fn normalized(name: &str) -> String {
    name.trim()
        .trim_matches(|c: char| c == '<' || c == '>' || c == '[' || c == ']')
        .to_lowercase()
}

type Arg = (String, &'static str, bool, Option<String>);

fn expected_spec(program: &str, help: &str) -> (String, Vec<Arg>) {
    let re_flag = Regex::new(FLAG).unwrap();
    let re_usage = Regex::new(USAGE).unwrap();
    let mut args: Vec<Arg> = vec![];
    let mut positionals: Vec<(String, bool)> = vec![];
    let mut usage_program: Option<String> = None;
    for line in help.lines() {
        if let Some(c) = re_usage.captures(line) {
            let rest = c.name("rest").unwrap().as_str().trim();
            let mut tokens: Vec<&str> = rest.split_whitespace().collect();
            if !tokens.is_empty() {
                usage_program = Some(tokens.remove(0).to_string());
            }
            for t in tokens {
                let up = t.to_uppercase();
                if up.contains("[OPTIONS]") || up.contains("OPTIONS") || t.starts_with('-') {
                    continue;
                }
                let required = !(t.starts_with('[') && t.ends_with(']'));
                let name = normalized(t);
                if name.is_empty() || name == "..." {
                    continue;
                }
                if !positionals.iter().any(|(n, _)| n == &name) {
                    positionals.push((name, required));
                }
            }
            break;
        }
    }
    for line in help.lines() {
        let line = line.trim_end();
        if line.trim().is_empty() {
            continue;
        }
        let lower = line.to_lowercase();
        if lower.starts_with("options:") || lower.starts_with("flags:") || lower.starts_with("arguments:") {
            continue;
        }
        if let Some(c) = re_flag.captures(line) {
            let short = c.name("short").map(|m| m.as_str().to_string());
            let long = c.name("long").map(|m| m.as_str().to_string());
            let val = c.name("val").map(|m| m.as_str().to_string());
            let h = c.name("help").map(|m| m.as_str().trim().to_string()).filter(|s| !s.is_empty());
            if short.is_none() && long.is_none() {
                continue;
            }
            let key = long.clone().or(short.clone()).unwrap();
            let kind = match val {
                Some(v) => kind_name(&v),
                None => "flag",
            };
            if args.iter().any(|a| a.0 == key) {
                continue;
            }
            args.push((key, kind, false, h));
        }
    }
    for (p, required) in positionals {
        if args.iter().any(|a| a.0 == p) {
            continue;
        }
        args.push((p, "string", required, Some("Positional argument (from Usage)".to_string())));
    }
    (usage_program.unwrap_or(program.to_string()), args)
}

fn library_args(spec: &CommandSpec) -> Vec<Arg> {
    spec.args
        .iter()
        .map(|a| {
            let kind = match a.kind {
                ArgKind::FlagBool => "flag",
                ArgKind::PathFile => "file",
                ArgKind::PathDir => "dir",
                ArgKind::Int => "int",
                ArgKind::String => "string",
                _ => "other",
            };
            (a.name.clone(), kind, a.required, a.help.clone())
        })
        .collect()
}

#[test]
fn whole_help_texts_agree_with_regex_parser() {
    let mut rng = Lcg(99);
    for _ in 0..3_000 {
        let mut help = String::new();
        for _ in 0..rng.below(8) {
            help.push_str(&random_line(&mut rng));
            help.push(if rng.below(4) == 0 { '\r' } else { ' ' });
            help.push('\n');
        }
        if rng.below(2) == 0 {
            help.push_str(&random_line(&mut rng));
        }
        let ti = ToolIntrospect { program: "p".to_string(), version: None, help: help.clone() };
        let spec = parse_help_to_spec("id".to_string(), "t".to_string(), ti);
        let (program, args) = expected_spec("p", &help);
        assert_eq!(spec.program, program, "help {:?}", help);
        assert_eq!(library_args(&spec), args, "help {:?}", help);
    }
}
