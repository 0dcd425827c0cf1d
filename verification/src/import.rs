//! Importing a command-line tool: which probes to run (`--help`, `-h`,
//! `--version`, `-V`) and what to make of their output, and the default id and
//! title of the imported command.
use vstd::prelude::*;

use crate::help_parser::{ToolIntrospect, ToolIntrospectView};
use crate::text::{
    CharClass, ascii_lower_char, chars_of, in_class, lemma_span_end, span_end, strip_cr, copy_range, lemma_span_start, lines, lines_of, lossy_text, lowercase,
    scan_backward, span_start, string_of, to_lower, trim, trimmed, utf8_lossy,
};

verus! {

/// What a probe of a tool yields, given what it wrote to its output and error
/// streams: the output when it is not blank, else the errors when they are not
/// blank (some tools print help or version there), else nothing.
pub open spec fn captured(out: Seq<char>, err: Seq<char>) -> Option<Seq<char>> {
    if trim(out).len() > 0 {
        Some(out)
    } else if trim(err).len() > 0 {
        Some(err)
    } else {
        None
    }
}

pub open spec fn opt_str(o: Option<String>) -> Option<Seq<char>> {
    match o {
        Some(s) => Some(s@),
        None => None,
    }
}

/// What a probe yields from the bytes a tool wrote (read as UTF-8, invalid
/// sequences replaced).
pub fn capture_text(stdout: &[u8], stderr: &[u8]) -> (r: Option<String>)
    ensures
        opt_str(r) == captured(utf8_lossy(stdout@), utf8_lossy(stderr@)),
{
    let s = lossy_text(stdout);
    let sc = chars_of(s.as_str());
    if trimmed(sc.as_slice()).len() > 0 {
        return Some(s);
    }
    let e = lossy_text(stderr);
    let ec = chars_of(e.as_str());
    if trimmed(ec.as_slice()).len() > 0 {
        Some(e)
    } else {
        None
    }
}

/// The help text used when neither `--help` nor `-h` yields anything.
pub open spec fn no_help() -> Seq<char> {
    "Help not available (no --help)"@
}

/// The first line of a text, or nothing for an empty text.
pub open spec fn first_line(s: Seq<char>) -> Seq<char> {
    if lines_of(s).len() > 0 {
        lines_of(s)[0]
    } else {
        seq![]
    }
}

/// A tool's version: the first line of what its version probe yielded, without
/// surrounding space, unless that is blank.
pub open spec fn version_from(out: Seq<char>) -> Option<Seq<char>> {
    if trim(first_line(out)).len() > 0 {
        Some(trim(first_line(out)))
    } else {
        None
    }
}

/// The next step of probing a tool.
pub enum IntrospectStep {
    /// Run the tool with this one argument and report what it yields.
    Probe(String),
    /// Probing is over.
    Done(ToolIntrospect),
}

pub enum StepView {
    Probe(Seq<char>),
    Done(ToolIntrospectView),
}

impl View for IntrospectStep {
    type V = StepView;

    open spec fn view(&self) -> StepView {
        match self {
            IntrospectStep::Probe(a) => StepView::Probe(a@),
            IntrospectStep::Done(t) => StepView::Done(t@),
        }
    }
}

/// How many of the outputs the help probes took: one when `--help` yielded
/// something, else two (`--help`, then `-h`).
pub open spec fn help_probes(outs: Seq<Option<Seq<char>>>) -> int {
    if outs.len() > 0 && outs[0] is Some {
        1
    } else {
        2
    }
}

/// The next step of probing the tool at `exe`, given what the probes so far
/// yielded, in order. The help comes from `--help`, or from `-h` when that
/// yielded nothing; then the version from `--version`, or from `-V` when that
/// yielded nothing. A probe is run only when the one before it yielded nothing.
pub open spec fn introspect_step(exe: Seq<char>, outs: Seq<Option<Seq<char>>>) -> StepView {
    if outs.len() == 0 {
        StepView::Probe("--help"@)
    } else if outs[0] is None && outs.len() < 2 {
        StepView::Probe("-h"@)
    } else {
        let help = match outs[0] {
            Some(h) => h,
            None => match outs[1] {
                Some(h) => h,
                None => no_help(),
            },
        };
        let v = help_probes(outs);
        if outs.len() <= v {
            StepView::Probe("--version"@)
        } else if outs[v] is None && outs.len() <= v + 1 {
            StepView::Probe("-V"@)
        } else {
            let version = match outs[v] {
                Some(x) => version_from(x),
                None => match outs[v + 1] {
                    Some(x) => version_from(x),
                    None => None,
                },
            };
            StepView::Done(ToolIntrospectView { program: exe, version, help })
        }
    }
}

pub open spec fn outputs_view(outs: Seq<Option<String>>) -> Seq<Option<Seq<char>>> {
    outs.map_values(|o: Option<String>| opt_str(o))
}

fn version_exec(out: &String) -> (r: Option<String>)
    ensures
        opt_str(r) == version_from(out@),
{
    let c = chars_of(out.as_str());
    let ls = lines(c.as_slice());
    let first: Vec<char> = if ls.len() > 0 {
        copy_range(ls[0].as_slice(), 0, ls[0].len())
    } else {
        Vec::new()
    };
    proof {
        if ls@.len() > 0 {
            assert(ls[0]@.subrange(0, ls[0]@.len() as int) =~= ls[0]@);
            assert(crate::text::views(ls@)[0] == ls[0]@);
        }
        assert(first@ == first_line(out@));
    }
    let t = trimmed(first.as_slice());
    if t.len() > 0 {
        Some(string_of(t.as_slice()))
    } else {
        None
    }
}

/// The next step of probing the tool at `exe_path`, given what the probes so far
/// yielded, in order.
pub fn introspect(exe_path: &str, outputs: &Vec<Option<String>>) -> (r: IntrospectStep)
    ensures
        r@ == introspect_step(exe_path@, outputs_view(outputs@)),
{
    let ghost ov = outputs_view(outputs@);
    let n = outputs.len();
    assert(ov.len() == n);
    if n == 0 {
        return IntrospectStep::Probe(String::from_str("--help"));
    }
    assert(ov[0] == opt_str(outputs@[0]));
    if outputs[0].is_none() && n < 2 {
        return IntrospectStep::Probe(String::from_str("-h"));
    }
    let help = match &outputs[0] {
        Some(h) => h.clone(),
        None => {
            assert(ov[1] == opt_str(outputs@[1]));
            match &outputs[1] {
                Some(h) => h.clone(),
                None => String::from_str("Help not available (no --help)"),
            }
        },
    };
    let v: usize = if outputs[0].is_some() {
        1
    } else {
        2
    };
    if n <= v {
        return IntrospectStep::Probe(String::from_str("--version"));
    }
    assert(ov[v as int] == opt_str(outputs@[v as int]));
    if outputs[v].is_none() && n <= v + 1 {
        return IntrospectStep::Probe(String::from_str("-V"));
    }
    let version = match &outputs[v] {
        Some(x) => version_exec(x),
        None => {
            assert(ov[v + 1] == opt_str(outputs@[v + 1]));
            match &outputs[v + 1] {
                Some(x) => version_exec(x),
                None => None,
            }
        },
    };
    IntrospectStep::Done(ToolIntrospect { program: String::from_str(exe_path), version, help })
}

// ---------------------------------------------------------------------------
// Default id and title

/// The last part of a path: what follows its last separator (all of it when
/// there is none).
pub open spec fn base_name(path: Seq<char>, sep: char) -> Seq<char> {
    path.subrange(span_start(path, path.len() as int, CharClass::Except(sep)), path.len() as int)
}

/// The default title of an imported tool: the last part of its path.
pub fn tool_base_name(exe_path: &str, sep: char) -> (r: String)
    ensures
        r@ == base_name(exe_path@, sep),
{
    let c = chars_of(exe_path);
    let b = base_chars(c.as_slice(), sep);
    string_of(b.as_slice())
}

fn base_chars(c: &[char], sep: char) -> (r: Vec<char>)
    ensures
        r@ == base_name(c@, sep),
{
    let s = scan_backward(c, c.len(), CharClass::Except(sep));
    proof {
        lemma_span_start(c@, c@.len() as int, CharClass::Except(sep));
    }
    copy_range(c, s, c.len())
}

/// `cli.` and the last part of the path, with spaces as `_`, in lower case.
pub open spec fn default_id(path: Seq<char>, sep: char) -> Seq<char> {
    "cli."@ + lowercase(base_name(path, sep).map_values(|c: char| if c == ' ' { '_' } else { c }))
}

/// The default id of an imported tool, such as `cli.my_tool` for `/usr/bin/My Tool`.
pub fn default_tool_id(exe_path: &str, sep: char) -> (r: String)
    ensures
        r@ == default_id(exe_path@, sep),
        r@.len() >= 4 && r@.subrange(0, 4) == "cli."@,
        vstd::utf8::is_ascii_chars(exe_path@) ==> {
            &&& r@.len() == 4 + base_name(exe_path@, sep).len()
            &&& forall|i: int|
                0 <= i < base_name(exe_path@, sep).len() ==> #[trigger] r@[i + 4] == (if base_name(
                    exe_path@,
                    sep,
                )[i] == ' ' {
                    '_'
                } else {
                    ascii_lower_char(base_name(exe_path@, sep)[i])
                })
            &&& forall|i: int| 4 <= i < r@.len() ==> #[trigger] r@[i] != ' '
        },
{
    let c = chars_of(exe_path);
    let b = base_chars(c.as_slice(), sep);
    let mut u: Vec<char> = Vec::new();
    let mut i: usize = 0;
    while i < b.len()
        invariant
            i <= b@.len(),
            u@ == b@.map_values(|c: char| if c == ' ' { '_' } else { c }).take(i as int),
        decreases b@.len() - i,
    {
        let ch = if b[i] == ' ' {
            '_'
        } else {
            b[i]
        };
        u.push(ch);
        assert(u@ =~= b@.map_values(|c: char| if c == ' ' { '_' } else { c }).take(i + 1));
        i = i + 1;
    }
    assert(u@ =~= b@.map_values(|c: char| if c == ' ' { '_' } else { c }));
    let low = to_lower(u.as_slice());
    let mut r = String::from_str("cli.");
    let tail = string_of(low.as_slice());
    r.append(tail.as_str());
    proof {
        reveal_strlit("cli.");
        assert(r@.subrange(0, 4) =~= "cli."@);
        if vstd::utf8::is_ascii_chars(exe_path@) {
            let s = span_start(c@, c@.len() as int, CharClass::Except(sep));
            lemma_span_start(c@, c@.len() as int, CharClass::Except(sep));
            assert forall|i: int| 0 <= i < u@.len() implies '\0' <= #[trigger] u@[i] <= '\u{7f}' by {
                assert(b@[i] == c@[i + s]);
                assert(u@[i] == (if b@[i] == ' ' { '_' } else { b@[i] }));
            }
            assert forall|i: int| 0 <= i < b@.len() implies #[trigger] r@[i + 4] == (if b@[i] == ' ' {
                '_'
            } else {
                ascii_lower_char(b@[i])
            }) by {
                assert(r@[i + 4] == low@[i]);
                assert(low@[i] == ascii_lower_char(u@[i]));
                assert(u@[i] == (if b@[i] == ' ' { '_' } else { b@[i] }));
            }
            assert forall|i: int| 4 <= i < r@.len() implies #[trigger] r@[i] != ' ' by {
                assert(r@[i] == low@[i - 4]);
                assert(low@[i - 4] == ascii_lower_char(u@[i - 4]));
                assert(u@[i - 4] == (if b@[i - 4] == ' ' { '_' } else { b@[i - 4] }));
            }
        }
    }
    r
}

/// Probing ends after at most four probes, and once it has ended, further
/// outputs change nothing: the outputs it did not ask for are ignored.
pub proof fn lemma_probing_ends(exe: Seq<char>, outs: Seq<Option<Seq<char>>>, more: Seq<Option<Seq<char>>>)
    ensures
        outs.len() >= 4 ==> introspect_step(exe, outs) is Done,
        introspect_step(exe, outs) is Done ==> introspect_step(exe, outs + more) == introspect_step(exe, outs),
{
    let all = outs + more;
    if outs.len() > 0 {
        assert(all[0] == outs[0]);
    }
    if outs.len() > 1 {
        assert(all[1] == outs[1]);
    }
    let v = help_probes(outs);
    if outs.len() > v {
        assert(all[v] == outs[v]);
        assert(help_probes(all) == v);
    }
    if outs.len() > v + 1 {
        assert(all[v + 1] == outs[v + 1]);
    }
}

/// Every probe that is asked for is used. The help is what `--help` yielded,
/// else what `-h` yielded, else the fixed text; the version is read from what
/// `--version` yielded, else from what `-V` yielded, else there is none. The
/// probes run in the order `--help`, `-h` (only when `--help` yielded nothing),
/// `--version`, `-V` (only when `--version` yielded nothing).
pub proof fn lemma_probes_used(exe: Seq<char>, outs: Seq<Option<Seq<char>>>, h: Seq<char>, x: Seq<char>)
    ensures
        outs.len() >= 2 && outs[0] == Some(h) && outs[1] == Some(x) ==> introspect_step(exe, outs)
            == StepView::Done(ToolIntrospectView { program: exe, version: version_from(x), help: h }),
        outs.len() >= 3 && outs[0] == Some(h) && outs[1] is None && outs[2] == Some(x)
            ==> introspect_step(exe, outs) == StepView::Done(
            ToolIntrospectView { program: exe, version: version_from(x), help: h },
        ),
        outs.len() >= 3 && outs[0] == Some(h) && outs[1] is None && outs[2] is None
            ==> introspect_step(exe, outs) == StepView::Done(
            ToolIntrospectView { program: exe, version: None, help: h },
        ),
        outs.len() >= 3 && outs[0] is None && outs[1] == Some(h) && outs[2] == Some(x)
            ==> introspect_step(exe, outs) == StepView::Done(
            ToolIntrospectView { program: exe, version: version_from(x), help: h },
        ),
        outs.len() >= 4 && outs[0] is None && outs[1] == Some(h) && outs[2] is None && outs[3] == Some(x)
            ==> introspect_step(exe, outs) == StepView::Done(
            ToolIntrospectView { program: exe, version: version_from(x), help: h },
        ),
        outs.len() >= 4 && outs[0] is None && outs[1] is None && outs[2] is None && outs[3] == Some(x)
            ==> introspect_step(exe, outs) == StepView::Done(
            ToolIntrospectView { program: exe, version: version_from(x), help: no_help() },
        ),
        outs.len() >= 4 && outs[0] is None && outs[1] is None && outs[2] is None && outs[3] is None
            ==> introspect_step(exe, outs) == StepView::Done(
            ToolIntrospectView { program: exe, version: None, help: no_help() },
        ),
        outs.len() == 0 ==> introspect_step(exe, outs) == StepView::Probe("--help"@),
        outs.len() == 1 && outs[0] is None ==> introspect_step(exe, outs) == StepView::Probe("-h"@),
        outs.len() == 1 && outs[0] is Some ==> introspect_step(exe, outs) == StepView::Probe(
            "--version"@,
        ),
        outs.len() == 2 && outs[0] is Some && outs[1] is None ==> introspect_step(exe, outs)
            == StepView::Probe("-V"@),
        outs.len() == 2 && outs[0] is None ==> introspect_step(exe, outs) == StepView::Probe(
            "--version"@,
        ),
        outs.len() == 3 && outs[0] is None && outs[2] is None ==> introspect_step(exe, outs)
            == StepView::Probe("-V"@),
{
}

/// The version is read from the first line only: for output without a line
/// feed it is the whole output, trimmed, unless that is blank; for output
/// with one, it is the part before the first line feed (without a carriage
/// return just before it), trimmed, unless that is blank.
pub proof fn lemma_version_first_line(a: Seq<char>, b: Seq<char>)
    requires
        forall|i: int| 0 <= i < a.len() ==> a[i] != '\n',
    ensures
        version_from(a) == (if trim(a).len() > 0 { Some(trim(a)) } else { None::<Seq<char>> }),
        version_from(a + seq!['\n'] + b) == (if trim(strip_cr(a)).len() > 0 {
            Some(trim(strip_cr(a)))
        } else {
            None::<Seq<char>>
        }),
{
    lemma_span_end(a, 0, CharClass::NotNewline);
    if a.len() > 0 {
        assert(span_end(a, 0, CharClass::NotNewline) == a.len());
        assert(a.subrange(0, a.len() as int) =~= a);
        assert(lines_of(a) == seq![a]);
    } else {
        assert(lines_of(a).len() == 0);
        assert(trim(a).len() == 0);
    }
    let x = a + seq!['\n'] + b;
    lemma_span_end(x, 0, CharClass::NotNewline);
    assert forall|i: int| 0 <= i < a.len() implies in_class(CharClass::NotNewline, #[trigger] x[i]) by {
        assert(x[i] == a[i]);
    }
    assert(x[a.len() as int] == '\n');
    let e = span_end(x, 0, CharClass::NotNewline);
    assert(e == a.len()) by {
        if e < a.len() {
            assert(in_class(CharClass::NotNewline, x[e]));
        }
        if e > a.len() {
            assert(in_class(CharClass::NotNewline, x[a.len() as int]));
        }
    }
    assert(x.subrange(0, a.len() as int) =~= a);
    assert(lines_of(x)[0] == strip_cr(a));
}

} // verus!
