//! The commands the front end knows: the built-in demo commands, and the
//! user's saved commands, which override built-in ones of the same id. Also
//! the file names that saved commands are stored under.
use vstd::prelude::*;

use crate::spec::{ArgKind, ArgKindView, ArgSpec, ArgSpecView, CommandSpec, CommandSpecView, IOSpec, spec_views};
use crate::text::{chars_of, same_chars, string_of};

verus! {

pub open spec fn echo_spec() -> CommandSpecView {
    CommandSpecView {
        id: "core.echo"@,
        title: "Echo"@,
        description: "Demo node: prints text"@,
        program: "echo"@,
        args: seq![
            ArgSpecView {
                name: "text"@,
                kind: ArgKindView::Text,
                required: true,
                default: None,
                help: Some("Text to print"@),
            },
        ],
        io: IOSpec { stdin: false, stdout: true, stderr: true, outputs_files: false },
    }
}

pub open spec fn cat_spec() -> CommandSpecView {
    CommandSpecView {
        id: "core.cat"@,
        title: "Cat (stdin)"@,
        description: "Demo node: echoes stdin (type into input)"@,
        program: "cat"@,
        args: seq![],
        io: IOSpec { stdin: true, stdout: true, stderr: true, outputs_files: false },
    }
}

/// The demo commands: `echo` with one required text, and `cat` reading its input.
pub fn builtin_specs() -> (r: Vec<CommandSpec>)
    ensures
        spec_views(r@) == seq![echo_spec(), cat_spec()],
{
    let mut echo_args: Vec<ArgSpec> = Vec::new();
    echo_args.push(
        ArgSpec {
            name: String::from_str("text"),
            kind: ArgKind::String,
            required: true,
            default: None,
            help: Some(String::from_str("Text to print")),
        },
    );
    let echo = CommandSpec {
        id: String::from_str("core.echo"),
        title: String::from_str("Echo"),
        description: String::from_str("Demo node: prints text"),
        program: String::from_str("echo"),
        args: echo_args,
        io: IOSpec { stdin: false, stdout: true, stderr: true, outputs_files: false },
    };
    let cat = CommandSpec {
        id: String::from_str("core.cat"),
        title: String::from_str("Cat (stdin)"),
        description: String::from_str("Demo node: echoes stdin (type into input)"),
        program: String::from_str("cat"),
        args: Vec::new(),
        io: IOSpec { stdin: true, stdout: true, stderr: true, outputs_files: false },
    };
    let mut r: Vec<CommandSpec> = Vec::new();
    r.push(echo);
    r.push(cat);
    assert(spec_views(r@)[0].args =~= echo_spec().args);
    assert(spec_views(r@)[1].args =~= cat_spec().args);
    assert(spec_views(r@) =~= seq![echo_spec(), cat_spec()]);
    r
}

pub open spec fn has_id(specs: Seq<CommandSpecView>, id: Seq<char>) -> bool {
    exists|i: int| 0 <= i < specs.len() && (#[trigger] specs[i]).id == id
}

/// The built-in commands that no user command replaces, then the user's commands.
pub open spec fn merged_specs(builtin: Seq<CommandSpecView>, user: Seq<CommandSpecView>) -> Seq<CommandSpecView> {
    builtin.filter(|b: CommandSpecView| !has_id(user, b.id)) + user
}

fn has_id_exec(specs: &Vec<CommandSpec>, id: &str) -> (r: bool)
    ensures
        r == has_id(spec_views(specs@), id@),
{
    let idc = chars_of(id);
    let mut i: usize = 0;
    while i < specs.len()
        invariant
            i <= specs@.len(),
            idc@ == id@,
            forall|j: int| 0 <= j < i ==> (#[trigger] spec_views(specs@)[j]).id != id@,
        decreases specs@.len() - i,
    {
        let c = chars_of(specs[i].id.as_str());
        if same_chars(c.as_slice(), idc.as_slice()) {
            assert(spec_views(specs@)[i as int].id == id@);
            return true;
        }
        i = i + 1;
    }
    false
}

/// The built-in commands that the user's commands do not replace (by id), followed by the
/// user's commands.
pub fn merge_specs(builtin: Vec<CommandSpec>, user: Vec<CommandSpec>) -> (r: Vec<CommandSpec>)
    ensures
        spec_views(r@) == merged_specs(spec_views(builtin@), spec_views(user@)),
{
    let ghost bv = spec_views(builtin@);
    let ghost uv = spec_views(user@);
    let ghost keep = |b: CommandSpecView| !has_id(uv, b.id);
    let mut r: Vec<CommandSpec> = Vec::new();
    let mut rest = builtin;
    let mut i: usize = 0;
    let n = rest.len();
    assert(bv.take(0).filter(keep) =~= Seq::<CommandSpecView>::empty());
    while i < n
        invariant
            n == bv.len(),
            i <= n,
            spec_views(rest@) == bv.skip(i as int),
            spec_views(r@) == bv.take(i as int).filter(keep),
            uv == spec_views(user@),
            keep == (|b: CommandSpecView| !has_id(uv, b.id)),
        decreases n - i,
    {
        assert(spec_views(rest@).len() == rest@.len());
        let ghost first = rest@[0]@;
        let ghost old_rest = rest@;
        assert(spec_views(rest@)[0] == first);
        let b = rest.remove(0);
        proof {
            assert(bv.skip(i as int)[0] == b@);
            assert forall|k: int| 0 <= k < rest@.len() implies spec_views(rest@)[k] == bv.skip(
                i + 1,
            )[k] by {
                assert(rest@[k] == old_rest[k + 1]);
                assert(spec_views(old_rest)[k + 1] == old_rest[k + 1]@);
            }
            assert(spec_views(rest@) =~= bv.skip(i + 1));
            reveal_with_fuel(Seq::filter, 1);
            assert(bv.take(i + 1).drop_last() =~= bv.take(i as int));
        }
        let ghost prev = spec_views(r@);
        if !has_id_exec(&user, b.id.as_str()) {
            let ghost bw = b@;
            r.push(b);
            assert(spec_views(r@) =~= prev.push(bw));
        }
        i = i + 1;
    }
    assert(bv.take(n as int) =~= bv);
    let ghost before = spec_views(r@);
    let mut user = user;
    r.append(&mut user);
    assert(spec_views(r@) =~= before + uv);
    r
}

/// Every command: the built-in ones, with the user's saved commands in place
/// of built-in ones of the same id.
pub fn all_specs(user: Vec<CommandSpec>) -> (r: Vec<CommandSpec>)
    ensures
        spec_views(r@) == merged_specs(seq![echo_spec(), cat_spec()], spec_views(user@)),
{
    merge_specs(builtin_specs(), user)
}

// ---------------------------------------------------------------------------
// File names of saved commands

/// A character that cannot stand in a file name on some system: `/`, `\` or `:`.
pub open spec fn is_path_char(c: char) -> bool {
    c == '/' || c == '\\' || c == ':'
}

/// The id with each `/`, `\` and `:` replaced by `_`.
pub open spec fn safe_stem(id: Seq<char>) -> Seq<char> {
    id.map_values(|c: char| if is_path_char(c) { '_' } else { c })
}

pub fn safe_file_stem(id: &str) -> (r: String)
    ensures
        r@ == safe_stem(id@),
{
    let c = chars_of(id);
    let mut out: Vec<char> = Vec::new();
    let mut i: usize = 0;
    while i < c.len()
        invariant
            i <= c@.len(),
            c@ == id@,
            out@ == safe_stem(id@).take(i as int),
        decreases c@.len() - i,
    {
        let ch = c[i];
        let d = if ch == '/' || ch == '\\' || ch == ':' {
            '_'
        } else {
            ch
        };
        out.push(d);
        assert(out@ =~= safe_stem(id@).take(i + 1));
        i = i + 1;
    }
    assert(out@ =~= safe_stem(id@));
    string_of(out.as_slice())
}

/// The name of the file a command with this id is saved in: its safe stem and `.json`.
pub open spec fn spec_file(id: Seq<char>) -> Seq<char> {
    safe_stem(id) + ".json"@
}

pub fn spec_file_name(id: &str) -> (r: String)
    ensures
        r@ == spec_file(id@),
{
    let mut s = safe_file_stem(id);
    s.append(".json");
    s
}

/// The extension of a file name as `Path::extension` gives it: what follows the
/// last `.`, unless there is no `.` or the only `.` starts the name.
pub open spec fn extension(name: Seq<char>) -> Option<Seq<char>> {
    if exists|i: int| 0 < i < name.len() && name[i] == '.' && (forall|j: int| i < j < name.len() ==> name[j] != '.') {
        let i = choose|i: int| 0 < i < name.len() && name[i] == '.' && (forall|j: int| i < j < name.len() ==> name[j] != '.');
        Some(name.subrange(i + 1, name.len() as int))
    } else {
        None
    }
}

/// Whether a file in the commands folder holds a saved command: its extension is `json`.
pub open spec fn is_spec_file(name: Seq<char>) -> bool {
    extension(name) == Some("json"@)
}

pub fn has_json_extension(file_name: &str) -> (r: bool)
    ensures
        r == is_spec_file(file_name@),
{
    let c = chars_of(file_name);
    let json = chars_of("json");
    let n = c.len();
    let mut i = n;
    while i > 0 && c[i - 1] != '.'
        invariant
            i <= n,
            n == c@.len(),
            c@ == file_name@,
            forall|j: int| i <= j < n ==> c@[j] != '.',
        decreases i,
    {
        i = i - 1;
    }
    // `i` is just after the last dot, or 0 when there is none.
    if i <= 1 {
        proof {
            assert(!exists|k: int| 0 < k < c@.len() && c@[k] == '.' && (forall|j: int| k < j < c@.len() ==> c@[j] != '.')) by {
                if exists|k: int| 0 < k < c@.len() && c@[k] == '.' && (forall|j: int| k < j < c@.len() ==> c@[j] != '.') {
                    let k = choose|k: int| 0 < k < c@.len() && c@[k] == '.' && (forall|j: int| k < j < c@.len() ==> c@[j] != '.');
                    if i == 1 {
                        assert(c@[0] == '.');
                    }
                    assert(c@[k] != '.');
                }
            }
        }
        false
    } else {
        let ext = crate::text::copy_range(c.as_slice(), i, n);
        let r = same_chars(ext.as_slice(), json.as_slice());
        proof {
            let d = i - 1;
            assert(0 < d < c@.len() && c@[d] == '.' && (forall|j: int| d < j < c@.len() ==> c@[j] != '.'));
            let k = choose|k: int| 0 < k < c@.len() && c@[k] == '.' && (forall|j: int| k < j < c@.len() ==> c@[j] != '.');
            assert(k == d) by {
                if k < d {
                    assert(c@[d] != '.');
                } else if k > d {
                    assert(c@[k] != '.');
                }
            }
        }
        r
    }
}

/// A saved command is found again: the file it is saved in has the extension
/// that loading looks for, whenever its id is not empty.
pub proof fn lemma_saved_file_is_loaded(id: Seq<char>)
    requires
        id.len() > 0,
    ensures
        is_spec_file(spec_file(id)),
{
    reveal_strlit(".json");
    reveal_strlit("json");
    let name = spec_file(id);
    let d = id.len() as int;
    assert(name[d] == '.');
    assert(forall|j: int| d < j < name.len() ==> name[j] != '.');
    let k = choose|k: int| 0 < k < name.len() && name[k] == '.' && (forall|j: int| k < j < name.len() ==> name[j] != '.');
    assert(k == d) by {
        if k < d {
            assert(name[d] != '.');
        } else if k > d {
            assert(name[k] != '.');
        }
    }
    assert(name.subrange(d + 1, name.len() as int) =~= "json"@);
}

/// The stem of a saved command's file has no `/`, `\` or `:`, and as many
/// characters as the id.
pub proof fn lemma_safe_stem(id: Seq<char>)
    ensures
        safe_stem(id).len() == id.len(),
        forall|i: int| 0 <= i < id.len() ==> !is_path_char(#[trigger] safe_stem(id)[i]),
{
}

/// No two commands in the list share an id.
pub open spec fn ids_distinct(s: Seq<CommandSpecView>) -> bool {
    forall|i: int, j: int| 0 <= i < j < s.len() ==> s[i].id != s[j].id
}

proof fn lemma_filter_keeps_distinct(s: Seq<CommandSpecView>, p: spec_fn(CommandSpecView) -> bool)
    requires
        ids_distinct(s),
    ensures
        ids_distinct(s.filter(p)),
        forall|k: int| 0 <= k < s.filter(p).len() ==> s.contains(#[trigger] s.filter(p)[k]),
    decreases s.len(),
{
    reveal(Seq::filter);
    if s.len() > 0 {
        let d = s.drop_last();
        assert(ids_distinct(d)) by {
            assert forall|i: int, j: int| 0 <= i < j < d.len() implies d[i].id != d[j].id by {
                assert(d[i] == s[i] && d[j] == s[j]);
            }
        }
        lemma_filter_keeps_distinct(d, p);
        let f = d.filter(p);
        assert forall|k: int| 0 <= k < f.len() implies s.contains(#[trigger] f[k]) by {
            let idx = choose|idx: int| 0 <= idx < d.len() && d[idx] == f[k];
            assert(s[idx] == f[k]);
        }
        if p(s.last()) {
            assert forall|k: int| 0 <= k < f.len() implies f[k].id != s.last().id by {
                let idx = choose|idx: int| 0 <= idx < d.len() && d[idx] == f[k];
                assert(s[idx] == f[k]);
            }
            let g = f.push(s.last());
            assert forall|k: int| 0 <= k < g.len() implies s.contains(#[trigger] g[k]) by {
                if k == f.len() {
                    assert(s[s.len() - 1] == g[k]);
                } else {
                    assert(g[k] == f[k]);
                }
            }
        }
    }
}

/// User commands override built-in ones: the user's commands all come, in
/// order, after the kept built-in ones; no kept built-in command has the id of
/// a user command; every built-in command whose id no user command has is
/// kept; and when neither list repeats an id, the result repeats none.
pub proof fn lemma_user_overrides(builtin: Seq<CommandSpecView>, user: Seq<CommandSpecView>)
    ensures
        merged_specs(builtin, user).skip(merged_specs(builtin, user).len() - user.len()) == user,
        forall|i: int|
            0 <= i < merged_specs(builtin, user).len() - user.len() ==> !has_id(
                user,
                #[trigger] merged_specs(builtin, user)[i].id,
            ),
        forall|b: CommandSpecView|
            #[trigger] builtin.contains(b) && !has_id(user, b.id) ==> merged_specs(
                builtin,
                user,
            ).contains(b),
        ids_distinct(builtin) && ids_distinct(user) ==> ids_distinct(merged_specs(builtin, user)),
{
    broadcast use vstd::seq_lib::group_filter_ensures;

    let keep = |b: CommandSpecView| !has_id(user, b.id);
    let kept = builtin.filter(keep);
    let m = merged_specs(builtin, user);
    assert(m.skip(m.len() - user.len()) =~= user);
    assert forall|i: int| 0 <= i < m.len() - user.len() implies !has_id(user, #[trigger] m[i].id) by {
        assert(m[i] == kept[i]);
        assert(keep(kept[i]));
    }
    assert forall|b: CommandSpecView| #[trigger] builtin.contains(b) && !has_id(user, b.id) implies m.contains(b) by {
        let bi = choose|bi: int| 0 <= bi < builtin.len() && builtin[bi] == b;
        builtin.lemma_filter_contains(keep, bi);
        let k = choose|k: int| 0 <= k < kept.len() && kept[k] == b;
        assert(m[k] == b);
    }
    if ids_distinct(builtin) && ids_distinct(user) {
        lemma_filter_keeps_distinct(builtin, keep);
        assert forall|i: int, j: int| 0 <= i < j < m.len() implies m[i].id != m[j].id by {
            if j < kept.len() {
                assert(m[i] == kept[i] && m[j] == kept[j]);
            } else if i < kept.len() {
                assert(m[i] == kept[i]);
                assert(keep(kept[i]));
                assert(m[j] == user[j - kept.len()]);
            } else {
                assert(m[i] == user[i - kept.len()]);
                assert(m[j] == user[j - kept.len()]);
            }
        }
    }
}

} // verus!
