//! The description of a command that the front end can run: its program, the
//! arguments it takes and how it uses standard input and output, and an
//! invocation of it with the values a user filled in.
use vstd::prelude::*;

verus! {

/// The kind of value an argument takes.
#[derive(Clone, Debug)]
pub enum ArgKind {
    /// `--verbose`
    FlagBool,
    /// `--count 3`
    Int,
    Float,
    String,
    PathFile,
    PathDir,
    Enum(Vec<String>),
}

/// `ArgKind` with its strings taken as character sequences.
#[verifier::ext_equal]
pub enum ArgKindView {
    FlagBool,
    Int,
    Float,
    Text,
    PathFile,
    PathDir,
    Choice(Seq<Seq<char>>),
}

impl View for ArgKind {
    type V = ArgKindView;

    open spec fn view(&self) -> ArgKindView {
        match self {
            ArgKind::FlagBool => ArgKindView::FlagBool,
            ArgKind::Int => ArgKindView::Int,
            ArgKind::Float => ArgKindView::Float,
            ArgKind::String => ArgKindView::Text,
            ArgKind::PathFile => ArgKindView::PathFile,
            ArgKind::PathDir => ArgKindView::PathDir,
            ArgKind::Enum(v) => ArgKindView::Choice(v.deep_view()),
        }
    }
}

/// A value a user gave for an argument, or an argument's default, as the
/// command builder reads it: a boolean, a number in its written form, a text,
/// or anything else (kept in its written form).
#[derive(Clone, Debug)]
pub enum ArgValue {
    Null,
    Bool(bool),
    Number(String),
    Str(String),
    Composite(String),
}

#[verifier::ext_equal]
pub enum ArgValueView {
    Null,
    Bool(bool),
    Number(Seq<char>),
    Str(Seq<char>),
    Composite(Seq<char>),
}

impl View for ArgValue {
    type V = ArgValueView;

    open spec fn view(&self) -> ArgValueView {
        match self {
            ArgValue::Null => ArgValueView::Null,
            ArgValue::Bool(b) => ArgValueView::Bool(*b),
            ArgValue::Number(n) => ArgValueView::Number(n@),
            ArgValue::Str(s) => ArgValueView::Str(s@),
            ArgValue::Composite(c) => ArgValueView::Composite(c@),
        }
    }
}

/// One argument of a command: a flag such as `--count`, or a positional such as `text`.
#[derive(Clone, Debug)]
pub struct ArgSpec {
    pub name: String,
    pub kind: ArgKind,
    pub required: bool,
    pub default: Option<ArgValue>,
    pub help: Option<String>,
}

#[verifier::ext_equal]
pub struct ArgSpecView {
    pub name: Seq<char>,
    pub kind: ArgKindView,
    pub required: bool,
    pub default: Option<ArgValueView>,
    pub help: Option<Seq<char>>,
}

impl View for ArgSpec {
    type V = ArgSpecView;

    open spec fn view(&self) -> ArgSpecView {
        ArgSpecView {
            name: self.name@,
            kind: self.kind@,
            required: self.required,
            default: match self.default {
                Some(d) => Some(d@),
                None => None,
            },
            help: self.help.deep_view(),
        }
    }
}

/// How a command uses its standard streams.
#[derive(Clone, Copy, Debug)]
pub struct IOSpec {
    pub stdin: bool,
    pub stdout: bool,
    pub stderr: bool,
    pub outputs_files: bool,
}

/// A command the front end can run.
#[derive(Clone, Debug)]
pub struct CommandSpec {
    /// such as `core.echo`
    pub id: String,
    pub title: String,
    pub description: String,
    /// such as `echo`
    pub program: String,
    /// flags and positionals
    pub args: Vec<ArgSpec>,
    pub io: IOSpec,
}

#[verifier::ext_equal]
pub struct CommandSpecView {
    pub id: Seq<char>,
    pub title: Seq<char>,
    pub description: Seq<char>,
    pub program: Seq<char>,
    pub args: Seq<ArgSpecView>,
    pub io: IOSpec,
}

/// The views of a list of arguments.
pub open spec fn arg_views(a: Seq<ArgSpec>) -> Seq<ArgSpecView> {
    a.map_values(|x: ArgSpec| x@)
}

impl View for CommandSpec {
    type V = CommandSpecView;

    open spec fn view(&self) -> CommandSpecView {
        CommandSpecView {
            id: self.id@,
            title: self.title@,
            description: self.description@,
            program: self.program@,
            args: arg_views(self.args@),
            io: self.io,
        }
    }
}

/// The views of a list of commands.
pub open spec fn spec_views(a: Seq<CommandSpec>) -> Seq<CommandSpecView> {
    a.map_values(|x: CommandSpec| x@)
}

/// A request to run the command `spec_id` with the given argument values.
#[derive(Clone, Debug)]
pub struct NodeInvocation {
    /// the `id` of a `CommandSpec`
    pub spec_id: String,
    /// argument name and value; each name occurs at most once (a JSON object),
    /// and then the list behaves as a map (`runner::lemma_lookup_is_map`)
    pub values: Vec<(String, ArgValue)>,
    pub stdin_text: Option<String>,
    pub workdir: Option<String>,
}

/// The views of a list of named values.
pub open spec fn value_views(v: Seq<(String, ArgValue)>) -> Seq<(Seq<char>, ArgValueView)> {
    v.map_values(|x: (String, ArgValue)| (x.0@, x.1@))
}

/// What a finished command left behind.
#[derive(Clone, Debug)]
pub struct RunResult {
    pub stdout: String,
    pub stderr: String,
    pub exit_code: i32,
}

} // verus!
