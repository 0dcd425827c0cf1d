//! Running a command: the arguments an invocation gives the program, the plan
//! that the process launcher carries out, and the result it reports.
use vstd::prelude::*;

use crate::spec::{ArgSpec, ArgSpecView, ArgValue, ArgValueView, CommandSpec, CommandSpecView, NodeInvocation, RunResult, arg_views, spec_views, value_views};
use crate::text::{chars_of, lossy_text, same_chars, utf8_lossy};

verus! {

/// Why a command could not be run.
#[derive(Clone, Debug)]
pub enum RunError {
    /// No command has the requested id.
    UnknownSpec(String),
    /// The process could not be started.
    Spawn(String),
    /// Writing its input or reading its output failed.
    Io(String),
}

/// The text that describes a run error.
pub open spec fn error_text(e: RunError) -> Seq<char> {
    match e {
        RunError::UnknownSpec(id) => "unknown spec id: "@ + id@,
        RunError::Spawn(m) => "failed to spawn process: "@ + m@,
        RunError::Io(m) => "process IO error: "@ + m@,
    }
}

impl RunError {
    /// The text that describes the error, such as `unknown spec id: core.foo`.
    pub fn message(&self) -> (r: String)
        ensures
            r@ == error_text(*self),
    {
        match self {
            RunError::UnknownSpec(id) => {
                let mut s = String::from_str("unknown spec id: ");
                s.append(id.as_str());
                s
            },
            RunError::Spawn(m) => {
                let mut s = String::from_str("failed to spawn process: ");
                s.append(m.as_str());
                s
            },
            RunError::Io(m) => {
                let mut s = String::from_str("process IO error: ");
                s.append(m.as_str());
                s
            },
        }
    }
}

/// The value given for `key`, if any.
pub open spec fn lookup(values: Seq<(Seq<char>, ArgValueView)>, key: Seq<char>) -> Option<ArgValueView>
    decreases values.len(),
{
    if values.len() == 0 {
        None
    } else if values[0].0 == key {
        Some(values[0].1)
    } else {
        lookup(values.drop_first(), key)
    }
}

/// A name that starts with `-` is a flag such as `--out`; any other names a positional.
pub open spec fn is_flag_name(name: Seq<char>) -> bool {
    name.len() > 0 && name[0] == '-'
}

/// A text value: after the flag's name for a flag, alone for a positional.
pub open spec fn text_words(name: Seq<char>, text: Seq<char>) -> Seq<Seq<char>> {
    if is_flag_name(name) {
        seq![name, text]
    } else {
        seq![text]
    }
}

/// The words one argument contributes: a true boolean gives the name, a false
/// one nothing; a number gives the name and the number; a text gives
/// `text_words`; other values nothing. Without a value, a text default counts
/// as the value.
pub open spec fn arg_words(a: ArgSpecView, values: Seq<(Seq<char>, ArgValueView)>) -> Seq<Seq<char>> {
    match lookup(values, a.name) {
        Some(v) => match v {
            ArgValueView::Bool(b) => if b {
                seq![a.name]
            } else {
                seq![]
            },
            ArgValueView::Number(n) => seq![a.name, n],
            ArgValueView::Str(s) => text_words(a.name, s),
            _ => seq![],
        },
        None => match a.default {
            Some(ArgValueView::Str(s)) => text_words(a.name, s),
            _ => seq![],
        },
    }
}

/// The arguments of the command line, in the order the command lists its arguments.
pub open spec fn argv_of(args: Seq<ArgSpecView>, values: Seq<(Seq<char>, ArgValueView)>) -> Seq<Seq<char>>
    decreases args.len(),
{
    if args.len() == 0 {
        seq![]
    } else {
        argv_of(args.drop_last(), values) + arg_words(args.last(), values)
    }
}

pub open spec fn string_views(v: Seq<String>) -> Seq<Seq<char>> {
    v.map_values(|s: String| s@)
}

fn lookup_exec(values: &Vec<(String, ArgValue)>, key: &str) -> (r: Option<usize>)
    ensures
        match r {
            Some(i) => i < values@.len() && lookup(value_views(values@), key@) == Some(values@[i as int].1@),
            None => lookup(value_views(values@), key@) is None,
        },
{
    let ghost vv = value_views(values@);
    let k = chars_of(key);
    let mut i: usize = 0;
    assert(vv.skip(0) =~= vv);
    while i < values.len()
        invariant
            i <= values@.len(),
            vv == value_views(values@),
            k@ == key@,
            lookup(vv.skip(i as int), key@) == lookup(vv, key@),
        decreases values@.len() - i,
    {
        let name = chars_of(values[i].0.as_str());
        assert(vv.skip(i as int)[0] == vv[i as int]);
        if same_chars(name.as_slice(), k.as_slice()) {
            return Some(i);
        }
        assert(vv.skip(i as int).drop_first() =~= vv.skip(i + 1));
        i = i + 1;
    }
    None
}

fn push_text_words(argv: &mut Vec<String>, name: &String, text: &String)
    ensures
        string_views(final(argv)@) == string_views(old(argv)@) + text_words(name@, text@),
{
    let ghost before = string_views(argv@);
    let n = chars_of(name.as_str());
    if n.len() > 0 && n[0] == '-' {
        argv.push(name.clone());
        argv.push(text.clone());
        assert(string_views(argv@) =~= before + seq![name@, text@]);
    } else {
        argv.push(text.clone());
        assert(string_views(argv@) =~= before + seq![text@]);
    }
}

fn push_arg_words(argv: &mut Vec<String>, a: &ArgSpec, values: &Vec<(String, ArgValue)>)
    ensures
        string_views(final(argv)@) == string_views(old(argv)@) + arg_words(a@, value_views(values@)),
{
    let ghost before = string_views(argv@);
    match lookup_exec(values, a.name.as_str()) {
        Some(i) => match &values[i].1 {
            ArgValue::Bool(b) => {
                if *b {
                    argv.push(a.name.clone());
                    assert(string_views(argv@) =~= before + seq![a.name@]);
                } else {
                    assert(string_views(argv@) =~= before + Seq::<Seq<char>>::empty());
                }
            },
            ArgValue::Number(n) => {
                argv.push(a.name.clone());
                argv.push(n.clone());
                assert(string_views(argv@) =~= before + seq![a.name@, n@]);
            },
            ArgValue::Str(s) => {
                push_text_words(argv, &a.name, s);
            },
            _ => {
                assert(string_views(argv@) =~= before + Seq::<Seq<char>>::empty());
            },
        },
        None => match &a.default {
            Some(ArgValue::Str(s)) => {
                push_text_words(argv, &a.name, s);
            },
            _ => {
                assert(string_views(argv@) =~= before + Seq::<Seq<char>>::empty());
            },
        },
    }
}

/// The command-line arguments that an invocation gives a command.
pub fn build_argv(spec: &CommandSpec, inv: &NodeInvocation) -> (argv: Vec<String>)
    ensures
        string_views(argv@) == argv_of(spec@.args, value_views(inv.values@)),
{
    let ghost args = spec@.args;
    let ghost vals = value_views(inv.values@);
    let mut argv: Vec<String> = Vec::new();
    let mut i: usize = 0;
    assert(string_views(argv@) =~= argv_of(args.take(0), vals));
    while i < spec.args.len()
        invariant
            i <= spec.args@.len(),
            args == arg_views(spec.args@),
            vals == value_views(inv.values@),
            string_views(argv@) == argv_of(args.take(i as int), vals),
        decreases spec.args@.len() - i,
    {
        push_arg_words(&mut argv, &spec.args[i], &inv.values);
        assert(args.take(i + 1).drop_last() =~= args.take(i as int));
        assert(args.take(i + 1).last() == spec.args@[i as int]@);
        i = i + 1;
    }
    assert(args.take(i as int) =~= args);
    argv
}

/// The first command with the given id, if any.
pub open spec fn find_index(specs: Seq<CommandSpecView>, id: Seq<char>) -> Option<int> {
    if exists|k: int| 0 <= k < specs.len() && specs[k].id == id {
        Some(choose|k: int| 0 <= k < specs.len() && specs[k].id == id && (forall|j: int| 0 <= j < k ==> specs[j].id != id))
    } else {
        None
    }
}

/// What the launcher is to run: the program with its arguments, in the given
/// folder, with standard input piped in exactly when there is input text.
pub struct RunPlan {
    pub program: String,
    pub args: Vec<String>,
    pub workdir: Option<String>,
    pub stdin_text: Option<String>,
    pub pipe_stdin: bool,
}

fn find_spec(specs: &Vec<CommandSpec>, id: &str) -> (r: Option<usize>)
    ensures
        opt_usize(r) == find_index(spec_views(specs@), id@),
        r matches Some(i) ==> i < specs@.len(),
{
    let ghost sv = spec_views(specs@);
    let k = chars_of(id);
    let mut i: usize = 0;
    while i < specs.len()
        invariant
            i <= specs@.len(),
            sv == spec_views(specs@),
            k@ == id@,
            forall|j: int| 0 <= j < i ==> (#[trigger] sv[j]).id != id@,
        decreases specs@.len() - i,
    {
        let c = chars_of(specs[i].id.as_str());
        if same_chars(c.as_slice(), k.as_slice()) {
            proof {
                assert(sv[i as int].id == id@);
                let w = choose|w: int| 0 <= w < sv.len() && sv[w].id == id@ && (forall|j: int| 0 <= j < w ==> sv[j].id != id@);
                assert(w == i) by {
                    if w < i {
                        assert(sv[w].id != id@);
                    } else if w > i {
                        assert(sv[i as int].id != id@);
                    }
                }
            }
            return Some(i);
        }
        i = i + 1;
    }
    None
}

pub open spec fn opt_usize(o: Option<usize>) -> Option<int> {
    match o {
        Some(i) => Some(i as int),
        None => None,
    }
}

/// The plan for running an invocation: the first command with its id, run with
/// the arguments `build_argv` gives; or `UnknownSpec` with the id when no
/// command has it.
pub fn plan_run(specs: &Vec<CommandSpec>, inv: NodeInvocation) -> (r: Result<RunPlan, RunError>)
    ensures
        match r {
            Ok(plan) => {
                &&& find_index(spec_views(specs@), inv.spec_id@) matches Some(k)
                &&& plan.program@ == specs@[k].program@
                &&& string_views(plan.args@) == argv_of(spec_views(specs@)[k].args, value_views(inv.values@))
                &&& plan.workdir.deep_view() == inv.workdir.deep_view()
                &&& plan.stdin_text.deep_view() == inv.stdin_text.deep_view()
                &&& plan.pipe_stdin == inv.stdin_text is Some
            },
            Err(e) => {
                &&& find_index(spec_views(specs@), inv.spec_id@) is None
                &&& e matches RunError::UnknownSpec(id) && id@ == inv.spec_id@
            },
        },
{
    match find_spec(specs, inv.spec_id.as_str()) {
        Some(k) => {
            let spec = &specs[k];
            assert(spec_views(specs@)[k as int] == spec@);
            let args = build_argv(spec, &inv);
            let pipe_stdin = inv.stdin_text.is_some();
            Ok(RunPlan { program: spec.program.clone(), args, workdir: inv.workdir, stdin_text: inv.stdin_text, pipe_stdin })
        },
        None => Err(RunError::UnknownSpec(inv.spec_id)),
    }
}

/// What a finished process reports: its output and errors as text (invalid
/// UTF-8 replaced), and its exit code, or -1 when it has none (such as when a
/// signal ended it).
pub fn run_result(stdout: &[u8], stderr: &[u8], code: Option<i32>) -> (r: RunResult)
    ensures
        r.stdout@ == utf8_lossy(stdout@),
        r.stderr@ == utf8_lossy(stderr@),
        r.exit_code == match code {
            Some(c) => c as int,
            None => -1,
        },
{
    let exit_code = match code {
        Some(c) => c,
        None => -1,
    };
    RunResult { stdout: lossy_text(stdout), stderr: lossy_text(stderr), exit_code }
}

/// The command line of a list of arguments is the command lines of its parts,
/// one after the other: each argument contributes its words independently of
/// the others.
pub proof fn lemma_argv_concat(a: Seq<ArgSpecView>, b: Seq<ArgSpecView>, values: Seq<(Seq<char>, ArgValueView)>)
    ensures
        argv_of(a + b, values) == argv_of(a, values) + argv_of(b, values),
    decreases b.len(),
{
    if b.len() == 0 {
        assert(a + b =~= a);
        assert(argv_of(a, values) + argv_of(b, values) =~= argv_of(a, values));
    } else {
        lemma_argv_concat(a, b.drop_last(), values);
        assert((a + b).drop_last() =~= a + b.drop_last());
        assert((a + b).last() == b.last());
        assert(argv_of(a + b, values) =~= argv_of(a, values) + argv_of(b, values));
    }
}

proof fn lemma_lookup_other_key(
    front: Seq<(Seq<char>, ArgValueView)>,
    back: Seq<(Seq<char>, ArgValueView)>,
    key: Seq<char>,
    v: ArgValueView,
    name: Seq<char>,
)
    requires
        name != key,
    ensures
        lookup(front + seq![(key, v)] + back, name) == lookup(front + back, name),
    decreases front.len(),
{
    let with = front + seq![(key, v)] + back;
    let without = front + back;
    if front.len() == 0 {
        assert(with.drop_first() =~= back);
        assert(without =~= back);
    } else {
        lemma_lookup_other_key(front.drop_first(), back, key, v, name);
        assert(with.drop_first() =~= front.drop_first() + seq![(key, v)] + back);
        assert(without.drop_first() =~= front.drop_first() + back);
        assert(with[0] == front[0] && without[0] == front[0]);
    }
}

/// A value for a name that the command does not list changes nothing, wherever
/// it stands among the values: the command line depends only on the values of
/// the command's own arguments.
pub proof fn lemma_unlisted_value_ignored(
    args: Seq<ArgSpecView>,
    front: Seq<(Seq<char>, ArgValueView)>,
    back: Seq<(Seq<char>, ArgValueView)>,
    key: Seq<char>,
    v: ArgValueView,
)
    requires
        forall|i: int| 0 <= i < args.len() ==> args[i].name != key,
    ensures
        argv_of(args, front + seq![(key, v)] + back) == argv_of(args, front + back),
    decreases args.len(),
{
    if args.len() > 0 {
        let d = args.drop_last();
        assert forall|i: int| 0 <= i < d.len() implies d[i].name != key by {
            assert(d[i] == args[i]);
        }
        lemma_unlisted_value_ignored(d, front, back, key, v);
        lemma_lookup_other_key(front, back, key, v, args.last().name);
    }
}

/// No name occurs twice among the values, as in the JSON object that
/// invocations arrive as.
pub open spec fn keys_distinct(values: Seq<(Seq<char>, ArgValueView)>) -> bool {
    forall|i: int, j: int| 0 <= i < j < values.len() ==> values[i].0 != values[j].0
}

/// When no name occurs twice, the values behave as a map: the value for a
/// name is the one paired with it, wherever that pair stands, and a name
/// paired with nothing has no value.
pub proof fn lemma_lookup_is_map(values: Seq<(Seq<char>, ArgValueView)>, key: Seq<char>)
    requires
        keys_distinct(values),
    ensures
        forall|i: int| 0 <= i < values.len() && values[i].0 == key ==> lookup(values, key) == Some(values[i].1),
        (forall|i: int| 0 <= i < values.len() ==> values[i].0 != key) ==> lookup(values, key) is None,
    decreases values.len(),
{
    if values.len() > 0 {
        let rest = values.drop_first();
        assert(keys_distinct(rest)) by {
            assert forall|i: int, j: int| 0 <= i < j < rest.len() implies rest[i].0 != rest[j].0 by {
                assert(rest[i] == values[i + 1] && rest[j] == values[j + 1]);
            }
        }
        lemma_lookup_is_map(rest, key);
        assert forall|i: int| 0 <= i < values.len() && values[i].0 == key implies lookup(values, key) == Some(values[i].1) by {
            if i > 0 {
                assert(values[0].0 != values[i].0);
                assert(rest[i - 1] == values[i]);
            }
        }
        if forall|i: int| 0 <= i < values.len() ==> values[i].0 != key {
            assert(values[0].0 != key);
            assert forall|i: int| 0 <= i < rest.len() implies rest[i].0 != key by {
                assert(rest[i] == values[i + 1]);
            }
        }
    }
}

/// What one argument puts on the command line, by the value given for its
/// name: `true` puts the name, `false` nothing; a number puts the name and the
/// number; a text puts the name and the text when the name starts with `-`
/// (a flag such as `-o` or `--out`), the text alone otherwise (a positional);
/// a null, a list or an object puts nothing. With no value given, a text
/// default counts as given, and any other default puts nothing.
pub proof fn lemma_arg_words(a: ArgSpecView, values: Seq<(Seq<char>, ArgValueView)>)
    ensures
        lookup(values, a.name) == Some(ArgValueView::Bool(true)) ==> arg_words(a, values) == seq![a.name],
        lookup(values, a.name) == Some(ArgValueView::Bool(false)) ==> arg_words(a, values).len() == 0,
        forall|n: Seq<char>|
            lookup(values, a.name) == Some(ArgValueView::Number(n)) ==> arg_words(a, values) == seq![a.name, n],
        forall|s: Seq<char>|
            lookup(values, a.name) == Some(ArgValueView::Str(s)) ==> {
                &&& a.name.len() > 0 && a.name[0] == '-' ==> arg_words(a, values) == seq![a.name, s]
                &&& !(a.name.len() > 0 && a.name[0] == '-') ==> arg_words(a, values) == seq![s]
            },
        lookup(values, a.name) == Some(ArgValueView::Null) ==> arg_words(a, values).len() == 0,
        forall|c: Seq<char>|
            lookup(values, a.name) == Some(ArgValueView::Composite(c)) ==> arg_words(a, values).len() == 0,
        lookup(values, a.name) is None ==> {
            &&& forall|s: Seq<char>|
                a.default == Some(ArgValueView::Str(s)) ==> {
                    &&& a.name.len() > 0 && a.name[0] == '-' ==> arg_words(a, values) == seq![a.name, s]
                    &&& !(a.name.len() > 0 && a.name[0] == '-') ==> arg_words(a, values) == seq![s]
                }
            &&& !(a.default matches Some(ArgValueView::Str(_))) ==> arg_words(a, values).len() == 0
        },
{
}

/// The command line of a command with a single argument is what that argument
/// puts there: a flag `-o` given the text `out.txt` gives `-o out.txt`.
pub proof fn lemma_single_arg_argv(a: ArgSpecView, values: Seq<(Seq<char>, ArgValueView)>)
    ensures
        argv_of(seq![a], values) == arg_words(a, values),
{
    assert(seq![a].drop_last() =~= Seq::<ArgSpecView>::empty());
    assert(argv_of(Seq::<ArgSpecView>::empty(), values) + arg_words(a, values) =~= arg_words(a, values));
}

} // verus!
