//! Turning a tool's `--help` text into a `CommandSpec`.
//!
//! Two line grammars are read from the help text. A usage line,
//! `(?i)^\s*usage:\s*(?P<rest>.+)$`, names the program and its positionals, as
//! in `Usage: prog [OPTIONS] <INPUT> [OUTPUT]`. A flag line,
//!
//! ```text
//! ^\s* (?P<short>-\w)? (?:,\s*)? (?P<long>--[a-zA-Z0-9][a-zA-Z0-9\-_]*)?
//!      (?:\s+(?P<val><[^>]+>|[A-Z][A-Z0-9_\-]+))? (?:\s+|\t+) (?P<help>.*)$
//! ```
//!
//! names a flag, its placeholder and its help, as in `  -o, --out <FILE>   Write to file`.
//! Both are matched with the leftmost-first (backtracking) preference of
//! regular expressions: greedy repetitions and present optional parts are tried
//! first. The spec functions below state the result of that preference for
//! these two patterns part by part.
use vstd::prelude::*;

use crate::spec::{ArgKind, ArgKindView, ArgSpec, ArgSpecView, CommandSpec, CommandSpecView, IOSpec, arg_views};
use crate::text::{
    CharClass, ascii_lowercase, ascii_uppercase, chars_of, lemma_ascii_case, lemma_trim_class,
    lemma_trim_class_noop, contains, contains_seq, copy_range, ends_with, is_ascii_alnum,
    is_ascii_upper, is_space, lemma_span_end, lines, lines_of, lowercase, same_chars, scan_forward,
    space_char, span_end, starts_with, string_of, to_lower, to_upper, trim, trim_class, trim_end,
    trimmed, trimmed_class, trimmed_end_class, uppercase, views, words, words_of,
};

verus! {

/// What probing a tool found: its path, the first line of its version output,
/// and its help text.
#[derive(Clone, Debug)]
pub struct ToolIntrospect {
    pub program: String,
    pub version: Option<String>,
    pub help: String,
}

pub struct ToolIntrospectView {
    pub program: Seq<char>,
    pub version: Option<Seq<char>>,
    pub help: Seq<char>,
}

impl View for ToolIntrospect {
    type V = ToolIntrospectView;

    open spec fn view(&self) -> ToolIntrospectView {
        ToolIntrospectView {
            program: self.program@,
            version: self.version.deep_view(),
            help: self.help@,
        }
    }
}

// ---------------------------------------------------------------------------
// Placeholders and positional names

/// The kind that an upper-cased placeholder such as `FILE`, `DIR` or `N` suggests.
pub open spec fn kind_for_upper(p: Seq<char>) -> ArgKindView {
    if contains_seq(p, "FILE"@) || ".JSON"@.is_suffix_of(p) || ".TXT"@.is_suffix_of(p) {
        ArgKindView::PathFile
    } else if contains_seq(p, "DIR"@) || contains_seq(p, "FOLDER"@) {
        ArgKindView::PathDir
    } else if p == "N"@ || contains_seq(p, "NUM"@) || contains_seq(p, "INT"@) || contains_seq(
        p,
        "COUNT"@,
    ) {
        ArgKindView::Int
    } else {
        ArgKindView::Text
    }
}

/// The kind that a placeholder suggests, read from its upper-case form.
pub fn kind_of_uppercase(upper: &str) -> (k: ArgKind)
    ensures
        k@ == kind_for_upper(upper@),
{
    let p = chars_of(upper);
    kind_of_upper_chars(p.as_slice())
}

fn kind_of_upper_chars(p: &[char]) -> (k: ArgKind)
    ensures
        k@ == kind_for_upper(p@),
{
    let file = chars_of("FILE");
    let json = chars_of(".JSON");
    let txt = chars_of(".TXT");
    let dir = chars_of("DIR");
    let folder = chars_of("FOLDER");
    let n = chars_of("N");
    let num = chars_of("NUM");
    let integer = chars_of("INT");
    let count = chars_of("COUNT");
    if contains(p, file.as_slice()) || ends_with(p, json.as_slice()) || ends_with(p, txt.as_slice()) {
        ArgKind::PathFile
    } else if contains(p, dir.as_slice()) || contains(p, folder.as_slice()) {
        ArgKind::PathDir
    } else if same_chars(p, n.as_slice()) || contains(p, num.as_slice()) || contains(p, integer.as_slice())
        || contains(p, count.as_slice()) {
        ArgKind::Int
    } else {
        ArgKind::String
    }
}

/// The kind of value a placeholder such as `<FILE>` or `COUNT` suggests.
pub fn guess_kind(placeholder: &str) -> (k: ArgKind)
    ensures
        k@ == kind_for_upper(uppercase(placeholder@)),
        vstd::utf8::is_ascii_chars(placeholder@) ==> k@ == kind_for_upper(ascii_uppercase(placeholder@)),
{
    let p = chars_of(placeholder);
    guess_kind_chars(p.as_slice())
}

fn guess_kind_chars(p: &[char]) -> (k: ArgKind)
    ensures
        k@ == kind_for_upper(uppercase(p@)),
        vstd::utf8::is_ascii_chars(p@) ==> k@ == kind_for_upper(ascii_uppercase(p@)),
{
    let up = to_upper(p);
    kind_of_upper_chars(up.as_slice())
}

/// A positional's name as a usage line writes it, such as `<INPUT>` or
/// `[OUTPUT]`, without surrounding space and brackets, in lower case.
pub open spec fn normalized_name(t: Seq<char>) -> Seq<char> {
    lowercase(trim_class(trim(t), CharClass::Bracket))
}

/// `normalized_name` of ASCII text, where lower-casing is the ASCII one.
pub open spec fn ascii_normalized_name(t: Seq<char>) -> Seq<char> {
    ascii_lowercase(trim_class(trim(t), CharClass::Bracket))
}

pub fn normalize_positional(name: &str) -> (r: String)
    ensures
        r@ == normalized_name(name@),
        vstd::utf8::is_ascii_chars(name@) ==> r@ == ascii_normalized_name(name@),
{
    let t = chars_of(name);
    let n = normalized_chars(t.as_slice());
    string_of(n.as_slice())
}

fn normalized_chars(t: &[char]) -> (r: Vec<char>)
    ensures
        r@ == normalized_name(t@),
        vstd::utf8::is_ascii_chars(t@) ==> r@ == ascii_normalized_name(t@),
{
    let a = trimmed(t);
    let b = trimmed_class(a.as_slice(), CharClass::Bracket);
    proof {
        lemma_trim_class(t@, CharClass::Space);
        lemma_trim_class(a@, CharClass::Bracket);
        if vstd::utf8::is_ascii_chars(t@) {
            assert forall|i: int| 0 <= i < b@.len() implies '\0' <= #[trigger] b@[i] <= '\u{7f}' by {
                let j = i + span_end(a@, 0, CharClass::Bracket);
                assert(b@[i] == a@[j]);
                assert(a@[j] == t@[j + span_end(t@, 0, CharClass::Space)]);
            }
        }
    }
    to_lower(b.as_slice())
}

// ---------------------------------------------------------------------------
// The flag line

/// Whether `c` is a word character, `\w` (the Unicode `Alphabetic`, `Mark`,
/// `Decimal_Number`, `Connector_Punctuation` and `Join_Control` characters).
pub uninterp spec fn word_char(c: char) -> bool;

/// `regex_syntax::is_word_character`, the table behind `\w`. Claimed: its
/// answer is `word_char(c)`, and for an ASCII character it holds exactly of
/// letters, digits and `_`. The Unicode table beyond ASCII is not written out.
#[verifier::external_body]
fn is_word_char(c: char) -> (r: bool)
    ensures
        r == word_char(c),
        (c as u32) < 128 ==> (r <==> (is_ascii_alnum(c) || c == '_')),
{
    regex_syntax::is_word_character(c)
}

/// Whether `c` is a word character, `\w`: for ASCII exactly the letters,
/// digits and `_` (so `-` and space are not), beyond ASCII as the Unicode
/// table says.
pub fn word_character(c: char) -> (r: bool)
    ensures
        r == word_char(c),
        (c as u32) < 128 ==> (r <==> (is_ascii_alnum(c) || c == '_')),
{
    is_word_char(c)
}

/// The captures of a flag line.
pub struct FlagParts {
    pub short: Option<Seq<char>>,
    pub long: Option<Seq<char>>,
    pub val: Option<Seq<char>>,
    pub help: Seq<char>,
}

/// `(?:\s+|\t+)(?P<help>.*)$` at `p`: at least one space, then the rest of the
/// line, which is the help.
pub open spec fn help_tail(s: Seq<char>, p: int) -> Option<Seq<char>> {
    if 0 <= p < s.len() && is_space(s[p]) {
        Some(s.subrange(span_end(s, p, CharClass::Space), s.len() as int))
    } else {
        None
    }
}

/// `<[^>]+>|[A-Z][A-Z0-9_\-]+` at `r`: where the placeholder ends. Both
/// repetitions are greedy, and neither can give back characters to the rest:
/// after `<[^>]+` only `>` may follow, and a shorter `[A-Z0-9_\-]+` would be
/// followed by a character of its class, never by the space the rest needs.
pub open spec fn placeholder_end(s: Seq<char>, r: int) -> Option<int> {
    if 0 <= r < s.len() && s[r] == '<' {
        let t = span_end(s, r + 1, CharClass::NotGt);
        if r + 1 < t && t < s.len() {
            Some(t + 1)
        } else {
            None
        }
    } else if 0 <= r < s.len() && is_ascii_upper(s[r]) {
        let u = span_end(s, r + 1, CharClass::PlaceholderChar);
        if u > r + 1 {
            Some(u)
        } else {
            None
        }
    } else {
        None
    }
}

/// `(?:\s+(?P<val>...))?` and the help at `p`. The placeholder is taken when the
/// help can follow it; else it is left out and the help starts at `p`.
pub open spec fn value_and_help(s: Seq<char>, p: int) -> Option<FlagParts> {
    if 0 <= p < s.len() && is_space(s[p]) {
        let r = span_end(s, p, CharClass::Space);
        let no_val = FlagParts { short: None, long: None, val: None, help: s.subrange(r, s.len() as int) };
        match placeholder_end(s, r) {
            Some(e) => match help_tail(s, e) {
                Some(h) => Some(FlagParts { short: None, long: None, val: Some(s.subrange(r, e)), help: h }),
                None => Some(no_val),
            },
            None => Some(no_val),
        }
    } else {
        None
    }
}

/// `(?P<long>--[a-zA-Z0-9][a-zA-Z0-9\-_]*)` at `q`: where the long name ends.
pub open spec fn long_end(s: Seq<char>, q: int) -> Option<int> {
    if 0 <= q && q + 2 < s.len() && s[q] == '-' && s[q + 1] == '-' && is_ascii_alnum(s[q + 2]) {
        Some(span_end(s, q + 3, CharClass::LongNameChar))
    } else {
        None
    }
}

/// The long name, when one is there and the rest of the line can follow it;
/// else no long name. A shorter long name would be followed by one of its own
/// characters, never by the space the rest needs; and with a long name at `q`
/// the rest cannot start at `q` either, since `-` is no space.
pub open spec fn from_long(s: Seq<char>, q: int) -> Option<FlagParts> {
    match long_end(s, q) {
        Some(e) => match value_and_help(s, e) {
            Some(f) => Some(FlagParts { long: Some(s.subrange(q, e)), ..f }),
            None => None,
        },
        None => value_and_help(s, q),
    }
}

/// `(?:,\s*)?` at `p`, then the rest. After a comma the spaces are taken
/// greedily; when the rest cannot follow them, one space is given back, and
/// from there the rest always matches (without a long name).
pub open spec fn from_comma(s: Seq<char>, p: int) -> Option<FlagParts> {
    if 0 <= p < s.len() && s[p] == ',' {
        let m = span_end(s, p + 1, CharClass::Space);
        match from_long(s, m) {
            Some(f) => Some(f),
            None => if m > p + 1 {
                from_long(s, m - 1)
            } else {
                None
            },
        }
    } else {
        from_long(s, p)
    }
}

/// The captures of the flag-line pattern, when it matches with a short or a
/// long name (a match without either names no flag). Leading space is taken
/// greedily: with less of it taken, the pattern can only go on at a space, where
/// neither name can start. `(?P<short>-\w)` is tried first; when the rest
/// fails after it, leaving it out cannot help, since the line then starts with
/// `-` followed by a word character, which neither a comma, a long name nor
/// a space can match.
pub open spec fn flag_parts(s: Seq<char>) -> Option<FlagParts> {
    let p0 = span_end(s, 0, CharClass::Space);
    let m = if p0 < s.len() && s.len() - p0 > 1 && s[p0] == '-' && word_char(s[p0 + 1]) {
        match from_comma(s, p0 + 2) {
            Some(f) => Some(FlagParts { short: Some(s.subrange(p0, p0 + 2)), ..f }),
            None => None,
        }
    } else {
        from_comma(s, p0)
    };
    match m {
        Some(f) => if f.short is Some || f.long is Some {
            Some(f)
        } else {
            None
        },
        None => None,
    }
}

pub struct Captures {
    pub short: Option<Vec<char>>,
    pub long: Option<Vec<char>>,
    pub val: Option<Vec<char>>,
    pub help: Vec<char>,
}

pub open spec fn opt_chars(o: Option<Vec<char>>) -> Option<Seq<char>> {
    match o {
        Some(v) => Some(v@),
        None => None,
    }
}

impl View for Captures {
    type V = FlagParts;

    open spec fn view(&self) -> FlagParts {
        FlagParts {
            short: opt_chars(self.short),
            long: opt_chars(self.long),
            val: opt_chars(self.val),
            help: self.help@,
        }
    }
}

pub open spec fn opt_parts(o: Option<Captures>) -> Option<FlagParts> {
    match o {
        Some(c) => Some(c@),
        None => None,
    }
}

pub open spec fn opt_index(o: Option<usize>) -> Option<int> {
    match o {
        Some(i) => Some(i as int),
        None => None,
    }
}

fn help_tail_exec(s: &[char], p: usize) -> (r: Option<Vec<char>>)
    requires
        p <= s@.len(),
    ensures
        opt_chars(r) == help_tail(s@, p as int),
{
    if p < s.len() && space_char(s[p]) {
        let r = scan_forward(s, p, CharClass::Space);
        proof {
            lemma_span_end(s@, p as int, CharClass::Space);
        }
        Some(copy_range(s, r, s.len()))
    } else {
        None
    }
}

fn placeholder_end_exec(s: &[char], r: usize) -> (e: Option<usize>)
    requires
        r <= s@.len(),
    ensures
        opt_index(e) == placeholder_end(s@, r as int),
        e matches Some(x) ==> r < x <= s@.len(),
{
    if r < s.len() && s[r] == '<' {
        let t = scan_forward(s, r + 1, CharClass::NotGt);
        proof {
            lemma_span_end(s@, r + 1, CharClass::NotGt);
        }
        if r + 1 < t && t < s.len() {
            Some(t + 1)
        } else {
            None
        }
    } else if r < s.len() && 'A' <= s[r] && s[r] <= 'Z' {
        let u = scan_forward(s, r + 1, CharClass::PlaceholderChar);
        proof {
            lemma_span_end(s@, r + 1, CharClass::PlaceholderChar);
        }
        if u > r + 1 {
            Some(u)
        } else {
            None
        }
    } else {
        None
    }
}

fn value_and_help_exec(s: &[char], p: usize) -> (r: Option<Captures>)
    requires
        p <= s@.len(),
    ensures
        opt_parts(r) == value_and_help(s@, p as int),
{
    if p < s.len() && space_char(s[p]) {
        let r = scan_forward(s, p, CharClass::Space);
        proof {
            lemma_span_end(s@, p as int, CharClass::Space);
        }
        match placeholder_end_exec(s, r) {
            Some(e) => match help_tail_exec(s, e) {
                Some(h) => Some(
                    Captures { short: None, long: None, val: Some(copy_range(s, r, e)), help: h },
                ),
                None => Some(
                    Captures { short: None, long: None, val: None, help: copy_range(s, r, s.len()) },
                ),
            },
            None => Some(
                Captures { short: None, long: None, val: None, help: copy_range(s, r, s.len()) },
            ),
        }
    } else {
        None
    }
}

fn long_end_exec(s: &[char], q: usize) -> (e: Option<usize>)
    requires
        q <= s@.len(),
    ensures
        opt_index(e) == long_end(s@, q as int),
        e matches Some(x) ==> q < x <= s@.len(),
{
    if q < s.len() && s.len() - q > 2 && s[q] == '-' && s[q + 1] == '-' && (('A' <= s[q + 2] && s[q + 2] <= 'Z')
        || ('a' <= s[q + 2] && s[q + 2] <= 'z') || ('0' <= s[q + 2] && s[q + 2] <= '9')) {
        let e = scan_forward(s, q + 3, CharClass::LongNameChar);
        proof {
            lemma_span_end(s@, q + 3, CharClass::LongNameChar);
        }
        Some(e)
    } else {
        None
    }
}

fn from_long_exec(s: &[char], q: usize) -> (r: Option<Captures>)
    requires
        q <= s@.len(),
    ensures
        opt_parts(r) == from_long(s@, q as int),
{
    match long_end_exec(s, q) {
        Some(e) => match value_and_help_exec(s, e) {
            Some(f) => Some(
                Captures { short: f.short, long: Some(copy_range(s, q, e)), val: f.val, help: f.help },
            ),
            None => None,
        },
        None => value_and_help_exec(s, q),
    }
}

fn from_comma_exec(s: &[char], p: usize) -> (r: Option<Captures>)
    requires
        p <= s@.len(),
    ensures
        opt_parts(r) == from_comma(s@, p as int),
{
    if p < s.len() && s[p] == ',' {
        let m = scan_forward(s, p + 1, CharClass::Space);
        proof {
            lemma_span_end(s@, p + 1, CharClass::Space);
        }
        match from_long_exec(s, m) {
            Some(f) => Some(f),
            None => if m > p + 1 {
                from_long_exec(s, m - 1)
            } else {
                None
            },
        }
    } else {
        from_long_exec(s, p)
    }
}

/// The captures of a flag line such as `  -o, --out <FILE>   Write to file`,
/// when it names a short or a long flag.
pub fn match_flag_line(s: &[char]) -> (r: Option<Captures>)
    ensures
        opt_parts(r) == flag_parts(s@),
{
    let p0 = scan_forward(s, 0, CharClass::Space);
    proof {
        lemma_span_end(s@, 0, CharClass::Space);
    }
    let m = if p0 < s.len() && s.len() - p0 > 1 && s[p0] == '-' && is_word_char(s[p0 + 1]) {
        match from_comma_exec(s, p0 + 2) {
            Some(f) => Some(
                Captures { short: Some(copy_range(s, p0, p0 + 2)), long: f.long, val: f.val, help: f.help },
            ),
            None => None,
        }
    } else {
        from_comma_exec(s, p0)
    };
    match m {
        Some(f) => if f.short.is_some() || f.long.is_some() {
            Some(f)
        } else {
            None
        },
        None => None,
    }
}

// ---------------------------------------------------------------------------
// The usage line

/// `(?i)usage:` at `p`: the letters in either case (under Unicode case folding
/// `s` also matches `ſ`, U+017F), then a colon.
pub open spec fn usage_word_at(s: Seq<char>, p: int) -> bool {
    &&& 0 <= p && p + 6 <= s.len()
    &&& (s[p] == 'u' || s[p] == 'U')
    &&& (s[p + 1] == 's' || s[p + 1] == 'S' || s[p + 1] == '\u{17f}')
    &&& (s[p + 2] == 'a' || s[p + 2] == 'A')
    &&& (s[p + 3] == 'g' || s[p + 3] == 'G')
    &&& (s[p + 4] == 'e' || s[p + 4] == 'E')
    &&& s[p + 5] == ':'
}

/// The `rest` capture of `(?i)^\s*usage:\s*(?P<rest>.+)$`. The spaces after the
/// colon are taken greedily, but `.+` needs one character: when only spaces
/// follow the colon, the last of them is the rest.
pub open spec fn usage_rest(s: Seq<char>) -> Option<Seq<char>> {
    let p0 = span_end(s, 0, CharClass::Space);
    if usage_word_at(s, p0) {
        let q = p0 + 6;
        let m = span_end(s, q, CharClass::Space);
        if m < s.len() {
            Some(s.subrange(m, s.len() as int))
        } else if q < s.len() {
            Some(s.subrange(s.len() - 1, s.len() as int))
        } else {
            None
        }
    } else {
        None
    }
}

pub fn match_usage_line(s: &[char]) -> (r: Option<Vec<char>>)
    ensures
        opt_chars(r) == usage_rest(s@),
{
    let p0 = scan_forward(s, 0, CharClass::Space);
    proof {
        lemma_span_end(s@, 0, CharClass::Space);
    }
    if s.len() - p0 >= 6 && (s[p0] == 'u' || s[p0] == 'U') && (s[p0 + 1] == 's' || s[p0 + 1] == 'S'
        || s[p0 + 1] == '\u{17f}') && (s[p0 + 2] == 'a' || s[p0 + 2] == 'A') && (s[p0 + 3] == 'g'
        || s[p0 + 3] == 'G') && (s[p0 + 4] == 'e' || s[p0 + 4] == 'E') && s[p0 + 5] == ':' {
        let q = p0 + 6;
        let m = scan_forward(s, q, CharClass::Space);
        proof {
            lemma_span_end(s@, q as int, CharClass::Space);
        }
        if m < s.len() {
            Some(copy_range(s, m, s.len()))
        } else if q < s.len() {
            Some(copy_range(s, s.len() - 1, s.len()))
        } else {
            None
        }
    } else {
        None
    }
}

} // verus!

verus! {

// ---------------------------------------------------------------------------
// Positionals from the usage line

/// Whether a usage token is an option marker such as `[OPTIONS]` or `-v`
/// rather than a positional.
pub open spec fn token_is_option(t: Seq<char>) -> bool {
    ||| contains_seq(uppercase(t), "[OPTIONS]"@)
    ||| contains_seq(uppercase(t), "OPTIONS"@)
    ||| (t.len() > 0 && t[0] == '-')
}

/// A positional is required unless the usage line wraps it in `[` `]`.
pub open spec fn token_required(t: Seq<char>) -> bool {
    !(t.len() > 0 && t[0] == '[' && t[t.len() - 1] == ']')
}

pub open spec fn has_positional(acc: Seq<(Seq<char>, bool)>, name: Seq<char>) -> bool {
    exists|i: int| 0 <= i < acc.len() && (#[trigger] acc[i]).0 == name
}

/// The positionals after one more usage token: option markers, empty names,
/// `...` and names seen before add nothing.
pub open spec fn add_positional(acc: Seq<(Seq<char>, bool)>, t: Seq<char>) -> Seq<(Seq<char>, bool)> {
    if token_is_option(t) {
        acc
    } else {
        let name = normalized_name(t);
        if name.len() == 0 || name == "..."@ || has_positional(acc, name) {
            acc
        } else {
            acc.push((name, token_required(t)))
        }
    }
}

/// The positionals (name, required) that a list of usage tokens names.
pub open spec fn positionals_of(ts: Seq<Seq<char>>) -> Seq<(Seq<char>, bool)>
    decreases ts.len(),
{
    if ts.len() == 0 {
        seq![]
    } else {
        add_positional(positionals_of(ts.drop_last()), ts.last())
    }
}

/// The `rest` of the first usage line from line `i` on.
pub open spec fn first_usage_from(ls: Seq<Seq<char>>, i: int) -> Option<Seq<char>>
    decreases ls.len() - i,
{
    if i < 0 || i >= ls.len() {
        None
    } else {
        match usage_rest(ls[i]) {
            Some(r) => Some(r),
            None => first_usage_from(ls, i + 1),
        }
    }
}

/// The words of the first usage line after `usage:`: the program, then its positionals.
pub open spec fn usage_tokens(ls: Seq<Seq<char>>) -> Seq<Seq<char>> {
    match first_usage_from(ls, 0) {
        Some(r) => words_of(trim(r)),
        None => seq![],
    }
}

pub open spec fn pos_views(v: Seq<(Vec<char>, bool)>) -> Seq<(Seq<char>, bool)> {
    v.map_values(|x: (Vec<char>, bool)| (x.0@, x.1))
}

fn has_positional_exec(acc: &Vec<(Vec<char>, bool)>, name: &[char]) -> (r: bool)
    ensures
        r == has_positional(pos_views(acc@), name@),
{
    let mut i: usize = 0;
    while i < acc.len()
        invariant
            i <= acc@.len(),
            forall|j: int| 0 <= j < i ==> (#[trigger] pos_views(acc@)[j]).0 != name@,
        decreases acc@.len() - i,
    {
        if same_chars(acc[i].0.as_slice(), name) {
            assert(pos_views(acc@)[i as int].0 == name@);
            return true;
        }
        i = i + 1;
    }
    false
}

fn token_is_option_exec(t: &[char]) -> (r: bool)
    ensures
        r == token_is_option(t@),
{
    let up = to_upper(t);
    let bracketed = chars_of("[OPTIONS]");
    let plain = chars_of("OPTIONS");
    contains(up.as_slice(), bracketed.as_slice()) || contains(up.as_slice(), plain.as_slice()) || (
    t.len() > 0 && t[0] == '-')
}

fn positionals_exec(ts: &Vec<Vec<char>>, from: usize) -> (r: Vec<(Vec<char>, bool)>)
    requires
        from <= ts@.len(),
    ensures
        pos_views(r@) == positionals_of(views(ts@).skip(from as int)),
{
    let ghost toks = views(ts@).skip(from as int);
    let mut acc: Vec<(Vec<char>, bool)> = Vec::new();
    let mut i = from;
    assert(toks.take(0) =~= Seq::<Seq<char>>::empty());
    while i < ts.len()
        invariant
            from <= i <= ts@.len(),
            toks == views(ts@).skip(from as int),
            pos_views(acc@) == positionals_of(toks.take(i - from)),
        decreases ts@.len() - i,
    {
        let t = ts[i].as_slice();
        let ghost prev = pos_views(acc@);
        proof {
            assert(toks.take(i - from + 1).drop_last() =~= toks.take(i - from));
            assert(toks.take(i - from + 1).last() == t@);
        }
        if !token_is_option_exec(t) {
            let name = normalized_chars(t);
            let dots = chars_of("...");
            if name.len() != 0 && !same_chars(name.as_slice(), dots.as_slice())
                && !has_positional_exec(&acc, name.as_slice()) {
                let req = !(t.len() > 0 && t[0] == '[' && t[t.len() - 1] == ']');
                acc.push((name, req));
                assert(pos_views(acc@) =~= prev.push((name@, req)));
            }
        }
        i = i + 1;
    }
    assert(toks.take(i - from) =~= toks);
    acc
}

fn first_usage_exec(ls: &Vec<Vec<char>>) -> (r: Option<Vec<char>>)
    ensures
        opt_chars(r) == first_usage_from(views(ls@), 0),
{
    let mut i: usize = 0;
    while i < ls.len()
        invariant
            i <= ls@.len(),
            first_usage_from(views(ls@), i as int) == first_usage_from(views(ls@), 0),
        decreases ls@.len() - i,
    {
        let m = match_usage_line(ls[i].as_slice());
        if m.is_some() {
            return m;
        }
        i = i + 1;
    }
    None
}

// ---------------------------------------------------------------------------
// Flags

/// Section headers that are not flags.
pub open spec fn is_section_header(lower: Seq<char>) -> bool {
    ||| "options:"@.is_prefix_of(lower)
    ||| "flags:"@.is_prefix_of(lower)
    ||| "arguments:"@.is_prefix_of(lower)
}

/// The argument a flag line describes: named by its long name when it has
/// one, of the kind its placeholder suggests (a boolean flag without one),
/// optional, with its help when that is not blank.
pub open spec fn arg_from_flag(f: FlagParts) -> ArgSpecView {
    ArgSpecView {
        name: match f.long {
            Some(l) => l,
            None => match f.short {
                Some(s) => s,
                None => seq![],
            },
        },
        kind: match f.val {
            Some(v) => kind_for_upper(uppercase(v)),
            None => ArgKindView::FlagBool,
        },
        required: false,
        default: None,
        help: if trim(f.help).len() > 0 {
            Some(trim(f.help))
        } else {
            None
        },
    }
}

/// The argument a help line describes, if it is a flag line (blank lines and
/// section headers are not).
pub open spec fn flag_line_arg(line: Seq<char>) -> Option<ArgSpecView> {
    let l = trim_end(line);
    if trim(l).len() == 0 || is_section_header(lowercase(l)) {
        None
    } else {
        match flag_parts(l) {
            Some(f) => Some(arg_from_flag(f)),
            None => None,
        }
    }
}

pub open spec fn has_name(args: Seq<ArgSpecView>, n: Seq<char>) -> bool {
    exists|i: int| 0 <= i < args.len() && (#[trigger] args[i]).name == n
}

/// The flags of the help lines, each name once (the first line that names it wins).
pub open spec fn flag_args(ls: Seq<Seq<char>>) -> Seq<ArgSpecView>
    decreases ls.len(),
{
    if ls.len() == 0 {
        seq![]
    } else {
        let prev = flag_args(ls.drop_last());
        match flag_line_arg(ls.last()) {
            Some(a) => if has_name(prev, a.name) {
                prev
            } else {
                prev.push(a)
            },
            None => prev,
        }
    }
}

pub open spec fn positional_arg(name: Seq<char>, required: bool) -> ArgSpecView {
    ArgSpecView {
        name,
        kind: ArgKindView::Text,
        required,
        default: None,
        help: Some("Positional argument (from Usage)"@),
    }
}

/// `args` followed by the positionals whose names they do not use yet.
pub open spec fn with_positionals(args: Seq<ArgSpecView>, ps: Seq<(Seq<char>, bool)>) -> Seq<ArgSpecView>
    decreases ps.len(),
{
    if ps.len() == 0 {
        args
    } else {
        let prev = with_positionals(args, ps.drop_last());
        if has_name(prev, ps.last().0) {
            prev
        } else {
            prev.push(positional_arg(ps.last().0, ps.last().1))
        }
    }
}

pub open spec fn opt_arg(o: Option<ArgSpec>) -> Option<ArgSpecView> {
    match o {
        Some(a) => Some(a@),
        None => None,
    }
}

fn has_arg_named(args: &Vec<ArgSpec>, n: &[char]) -> (r: bool)
    ensures
        r == has_name(arg_views(args@), n@),
{
    let mut i: usize = 0;
    while i < args.len()
        invariant
            i <= args@.len(),
            forall|j: int| 0 <= j < i ==> (#[trigger] arg_views(args@)[j]).name != n@,
        decreases args@.len() - i,
    {
        let a = chars_of(args[i].name.as_str());
        if same_chars(a.as_slice(), n) {
            assert(arg_views(args@)[i as int].name == n@);
            return true;
        }
        i = i + 1;
    }
    false
}

fn is_section_header_exec(lower: &[char]) -> (r: bool)
    ensures
        r == is_section_header(lower@),
{
    let o = chars_of("options:");
    let f = chars_of("flags:");
    let a = chars_of("arguments:");
    starts_with(lower, o.as_slice()) || starts_with(lower, f.as_slice()) || starts_with(
        lower,
        a.as_slice(),
    )
}

/// The argument a matched flag line describes. Its kind is what `guess_kind`
/// gives for the placeholder: the kind its upper-cased form suggests (for an
/// ASCII placeholder, its ASCII upper case), or a boolean flag without one.
pub fn arg_from_captures(f: Captures) -> (a: ArgSpec)
    requires
        f.short is Some || f.long is Some,
    ensures
        a@ == arg_from_flag(f@),
        f@.val matches Some(v) ==> a@.kind == kind_for_upper(uppercase(v)),
        f@.val matches Some(v) ==> (vstd::utf8::is_ascii_chars(v) ==> a@.kind == kind_for_upper(
            ascii_uppercase(v),
        )),
        f@.val is None ==> a@.kind == ArgKindView::FlagBool,
        a@.name == (if f@.long is Some { f@.long.unwrap() } else { f@.short.unwrap() }),
        !a@.required,
        a@.default is None,
{
    let name = match f.long {
        Some(l) => l,
        None => match f.short {
            Some(s) => s,
            None => Vec::new(),
        },
    };
    let kind = match f.val {
        Some(v) => guess_kind_chars(v.as_slice()),
        None => ArgKind::FlagBool,
    };
    let h = trimmed(f.help.as_slice());
    let help = if h.len() > 0 {
        Some(string_of(h.as_slice()))
    } else {
        None
    };
    ArgSpec { name: string_of(name.as_slice()), kind, required: false, default: None, help }
}

fn flag_line_arg_exec(line: &[char]) -> (r: Option<ArgSpec>)
    ensures
        opt_arg(r) == flag_line_arg(line@),
{
    let l = trimmed_end_class(line, CharClass::Space);
    let t = trimmed(l.as_slice());
    if t.len() == 0 {
        return None;
    }
    let lower = to_lower(l.as_slice());
    if is_section_header_exec(lower.as_slice()) {
        return None;
    }
    match match_flag_line(l.as_slice()) {
        Some(f) => Some(arg_from_captures(f)),
        None => None,
    }
}

fn flag_args_exec(ls: &Vec<Vec<char>>) -> (r: Vec<ArgSpec>)
    ensures
        arg_views(r@) == flag_args(views(ls@)),
{
    let ghost lv = views(ls@);
    let mut args: Vec<ArgSpec> = Vec::new();
    let mut i: usize = 0;
    assert(lv.take(0) =~= Seq::<Seq<char>>::empty());
    while i < ls.len()
        invariant
            i <= ls@.len(),
            lv == views(ls@),
            arg_views(args@) == flag_args(lv.take(i as int)),
        decreases ls@.len() - i,
    {
        let ghost prev = arg_views(args@);
        proof {
            assert(lv.take(i + 1).drop_last() =~= lv.take(i as int));
            assert(lv.take(i + 1).last() == ls@[i as int]@);
        }
        match flag_line_arg_exec(ls[i].as_slice()) {
            Some(a) => {
                let n = chars_of(a.name.as_str());
                if !has_arg_named(&args, n.as_slice()) {
                    let ghost av = a@;
                    args.push(a);
                    assert(arg_views(args@) =~= prev.push(av));
                }
            },
            None => {},
        }
        i = i + 1;
    }
    assert(lv.take(i as int) =~= lv);
    args
}

fn push_positionals(args: &mut Vec<ArgSpec>, ps: Vec<(Vec<char>, bool)>)
    ensures
        arg_views(final(args)@) == with_positionals(arg_views(old(args)@), pos_views(ps@)),
{
    let ghost start = arg_views(args@);
    let ghost pv = pos_views(ps@);
    let mut i: usize = 0;
    assert(pv.take(0) =~= Seq::<(Seq<char>, bool)>::empty());
    while i < ps.len()
        invariant
            i <= ps@.len(),
            pv == pos_views(ps@),
            arg_views(args@) == with_positionals(start, pv.take(i as int)),
        decreases ps@.len() - i,
    {
        let ghost prev = arg_views(args@);
        proof {
            assert(pv.take(i + 1).drop_last() =~= pv.take(i as int));
            assert(pv.take(i + 1).last() == pv[i as int]);
        }
        let name = ps[i].0.as_slice();
        if !has_arg_named(args, name) {
            let a = ArgSpec {
                name: string_of(name),
                kind: ArgKind::String,
                required: ps[i].1,
                default: None,
                help: Some(String::from_str("Positional argument (from Usage)")),
            };
            let ghost av = a@;
            args.push(a);
            assert(arg_views(args@) =~= prev.push(av));
        }
        i = i + 1;
    }
    assert(pv.take(i as int) =~= pv);
}

// ---------------------------------------------------------------------------
// The command

/// `Imported CLI: <program>`, with ` (version <version>)` when a version is known.
pub open spec fn import_description(program: Seq<char>, version: Option<Seq<char>>) -> Seq<char> {
    match version {
        Some(v) => "Imported CLI: "@ + program + " (version "@ + v + ")"@,
        None => "Imported CLI: "@ + program,
    }
}

/// Streams of an imported command: output and errors are captured, standard
/// input is not used.
pub open spec fn imported_io() -> IOSpec {
    IOSpec { stdin: false, stdout: true, stderr: true, outputs_files: false }
}

/// The command that a tool's help text describes: its flags, then the
/// positionals of its first usage line that no flag names; the program that
/// usage line names, or else the probed path.
pub open spec fn help_spec(tool_id: Seq<char>, title: Seq<char>, ti: ToolIntrospectView) -> CommandSpecView {
    let ls = lines_of(ti.help);
    let tokens = usage_tokens(ls);
    let positionals = if tokens.len() > 0 {
        positionals_of(tokens.drop_first())
    } else {
        seq![]
    };
    CommandSpecView {
        id: tool_id,
        title,
        description: import_description(ti.program, ti.version),
        program: if tokens.len() > 0 {
            tokens[0]
        } else {
            ti.program
        },
        args: with_positionals(flag_args(ls), positionals),
        io: imported_io(),
    }
}

/// The command that a tool's help text describes.
pub fn parse_help_to_spec(tool_id: String, title: String, ti: ToolIntrospect) -> (spec: CommandSpec)
    ensures
        spec@ == help_spec(tool_id@, title@, ti@),
{
    let help = chars_of(ti.help.as_str());
    let ls = lines(help.as_slice());
    let usage = first_usage_exec(&ls);
    let tokens: Vec<Vec<char>> = match usage {
        Some(rest) => {
            let r = trimmed(rest.as_slice());
            words(r.as_slice())
        },
        None => Vec::new(),
    };
    let positionals = if tokens.len() > 0 {
        positionals_exec(&tokens, 1)
    } else {
        Vec::new()
    };
    proof {
        if tokens@.len() > 0 {
            assert(views(tokens@).skip(1) =~= views(tokens@).drop_first());
        }
    }
    let mut args = flag_args_exec(&ls);
    push_positionals(&mut args, positionals);
    let mut description = String::from_str("Imported CLI: ");
    description.append(ti.program.as_str());
    match &ti.version {
        Some(v) => {
            description.append(" (version ");
            description.append(v.as_str());
            description.append(")");
        },
        None => {},
    }
    let program = if tokens.len() > 0 {
        string_of(tokens[0].as_slice())
    } else {
        ti.program
    };
    let io = IOSpec { stdin: false, stdout: true, stderr: true, outputs_files: false };
    CommandSpec { id: tool_id, title, description, program, args, io }
}

} // verus!

verus! {

// ---------------------------------------------------------------------------
// What every imported command satisfies

/// No two arguments share a name.
pub open spec fn names_distinct(args: Seq<ArgSpecView>) -> bool {
    forall|i: int, j: int| 0 <= i < j < args.len() ==> args[i].name != args[j].name
}

proof fn lemma_from_long_name(s: Seq<char>, q: int)
    requires
        0 <= q <= s.len(),
    ensures
        from_long(s, q) matches Some(f) ==> (f.long matches Some(l) ==> l.len() > 0 && l[0] == '-'),
{
    if let Some(e) = long_end(s, q) {
        lemma_span_end(s, q + 3, CharClass::LongNameChar);
    }
}

proof fn lemma_from_comma_name(s: Seq<char>, p: int)
    requires
        0 <= p <= s.len(),
    ensures
        from_comma(s, p) matches Some(f) ==> (f.long matches Some(l) ==> l.len() > 0 && l[0] == '-'),
{
    if 0 <= p < s.len() && s[p] == ',' {
        let m = span_end(s, p + 1, CharClass::Space);
        lemma_span_end(s, p + 1, CharClass::Space);
        lemma_from_long_name(s, m);
        if m > p + 1 {
            lemma_from_long_name(s, m - 1);
        }
    } else {
        lemma_from_long_name(s, p);
    }
}

proof fn lemma_flag_parts_names(s: Seq<char>)
    ensures
        flag_parts(s) matches Some(f) ==> {
            &&& (f.long matches Some(l) ==> l.len() > 0 && l[0] == '-')
            &&& (f.short matches Some(x) ==> x.len() > 0 && x[0] == '-')
            &&& (f.short is Some || f.long is Some)
        },
{
    let p0 = span_end(s, 0, CharClass::Space);
    lemma_span_end(s, 0, CharClass::Space);
    if p0 + 1 < s.len() && s[p0] == '-' && word_char(s[p0 + 1]) {
        lemma_from_comma_name(s, p0 + 2);
    } else {
        lemma_from_comma_name(s, p0);
    }
}

proof fn lemma_flag_args(ls: Seq<Seq<char>>)
    ensures
        names_distinct(flag_args(ls)),
        forall|i: int| 0 <= i < flag_args(ls).len() ==> {
            &&& crate::runner::is_flag_name((#[trigger] flag_args(ls)[i]).name)
            &&& !flag_args(ls)[i].required
            &&& flag_args(ls)[i].default is None
        },
    decreases ls.len(),
{
    if ls.len() > 0 {
        lemma_flag_args(ls.drop_last());
        let prev = flag_args(ls.drop_last());
        lemma_flag_parts_names(trim_end(ls.last()));
        if let Some(a) = flag_line_arg(ls.last()) {
            if !has_name(prev, a.name) {
                let r = prev.push(a);
                assert forall|i: int, j: int| 0 <= i < j < r.len() implies r[i].name != r[j].name by {
                    if j == prev.len() {
                        assert(r[i] == prev[i]);
                    } else {
                        assert(r[i] == prev[i] && r[j] == prev[j]);
                    }
                }
                assert forall|i: int| 0 <= i < r.len() implies {
                    &&& crate::runner::is_flag_name((#[trigger] r[i]).name)
                    &&& !r[i].required
                    &&& r[i].default is None
                } by {
                    if i < prev.len() {
                        assert(r[i] == prev[i]);
                    }
                }
            }
        }
    }
}

proof fn lemma_with_positionals(args: Seq<ArgSpecView>, ps: Seq<(Seq<char>, bool)>)
    requires
        names_distinct(args),
    ensures
        names_distinct(with_positionals(args, ps)),
        with_positionals(args, ps).len() >= args.len(),
        with_positionals(args, ps).take(args.len() as int) == args,
        forall|k: int| args.len() <= k < with_positionals(args, ps).len() ==> {
            &&& (#[trigger] with_positionals(args, ps)[k]).kind == ArgKindView::Text
            &&& with_positionals(args, ps)[k].help == Some("Positional argument (from Usage)"@)
            &&& with_positionals(args, ps)[k].default is None
        },
    decreases ps.len(),
{
    if ps.len() > 0 {
        lemma_with_positionals(args, ps.drop_last());
        let prev = with_positionals(args, ps.drop_last());
        if !has_name(prev, ps.last().0) {
            let r = prev.push(positional_arg(ps.last().0, ps.last().1));
            assert forall|i: int, j: int| 0 <= i < j < r.len() implies r[i].name != r[j].name by {
                if j == prev.len() {
                    assert(r[i] == prev[i]);
                } else {
                    assert(r[i] == prev[i] && r[j] == prev[j]);
                }
            }
            assert(r.take(args.len() as int) =~= prev.take(args.len() as int));
            assert forall|k: int| args.len() <= k < r.len() implies {
                &&& (#[trigger] r[k]).kind == ArgKindView::Text
                &&& r[k].help == Some("Positional argument (from Usage)"@)
                &&& r[k].default is None
            } by {
                if k < prev.len() {
                    assert(r[k] == prev[k]);
                }
            }
        }
    } else {
        assert(args.take(args.len() as int) =~= args);
    }
}

/// An imported command lists its flags first: each is named by a name that
/// starts with `-` (so a value given for it follows its name on the command
/// line), is optional and has no default. Then come the positionals of the
/// usage line, of the text kind, with the usage help and no default. No two
/// arguments share a name, and the command captures output and errors and
/// takes no input.
pub proof fn lemma_imported_command(tool_id: Seq<char>, title: Seq<char>, ti: ToolIntrospectView)
    ensures
        ({
            let spec = help_spec(tool_id, title, ti);
            let flags = flag_args(lines_of(ti.help));
            &&& spec.args.len() >= flags.len()
            &&& spec.args.take(flags.len() as int) == flags
            &&& forall|i: int| 0 <= i < flags.len() ==> {
                &&& crate::runner::is_flag_name((#[trigger] spec.args[i]).name)
                &&& !spec.args[i].required
                &&& spec.args[i].default is None
            }
            &&& forall|k: int| flags.len() <= k < spec.args.len() ==> {
                &&& (#[trigger] spec.args[k]).kind == ArgKindView::Text
                &&& spec.args[k].help == Some("Positional argument (from Usage)"@)
                &&& spec.args[k].default is None
            }
            &&& names_distinct(spec.args)
            &&& spec.io == IOSpec { stdin: false, stdout: true, stderr: true, outputs_files: false }
        }),
{
    let ls = lines_of(ti.help);
    let flags = flag_args(ls);
    let tokens = usage_tokens(ls);
    let ps = if tokens.len() > 0 {
        positionals_of(tokens.drop_first())
    } else {
        seq![]
    };
    lemma_flag_args(ls);
    lemma_with_positionals(flags, ps);
    let args = with_positionals(flags, ps);
    assert forall|i: int| 0 <= i < flags.len() implies args[i] == flags[i] by {
        assert(args.take(flags.len() as int)[i] == args[i]);
    }
}

/// The kind an ASCII placeholder suggests does not depend on the case of its
/// letters: its ASCII lower- and upper-case forms are ASCII and suggest the
/// same kind (which `guess_kind` gives for each of them).
pub proof fn lemma_kind_ignores_ascii_case(p: Seq<char>)
    requires
        vstd::utf8::is_ascii_chars(p),
    ensures
        vstd::utf8::is_ascii_chars(ascii_lowercase(p)),
        vstd::utf8::is_ascii_chars(ascii_uppercase(p)),
        kind_for_upper(ascii_uppercase(ascii_lowercase(p))) == kind_for_upper(ascii_uppercase(p)),
        kind_for_upper(ascii_uppercase(ascii_uppercase(p))) == kind_for_upper(ascii_uppercase(p)),
{
    lemma_ascii_case(p);
}

/// Normalizing an ASCII positional name without spaces twice gives what
/// normalizing it once gives: the normalized name is ASCII (so
/// `normalize_positional` normalizes it in the same way), has no space and
/// no bracket at either end, and is already in lower case.
pub proof fn lemma_normalize_idempotent(t: Seq<char>)
    requires
        vstd::utf8::is_ascii_chars(t),
        forall|i: int| 0 <= i < t.len() ==> !is_space(#[trigger] t[i]),
    ensures
        vstd::utf8::is_ascii_chars(ascii_normalized_name(t)),
        ascii_normalized_name(ascii_normalized_name(t)) == ascii_normalized_name(t),
{
    if t.len() > 0 {
        assert(!is_space(t[t.len() - 1]));
    }
    lemma_trim_class_noop(t, CharClass::Space);
    let m = trim_class(t, CharClass::Bracket);
    lemma_trim_class(t, CharClass::Bracket);
    assert forall|i: int| 0 <= i < m.len() implies '\0' <= #[trigger] m[i] <= '\u{7f}' && !is_space(m[i]) by {
        assert(m[i] == t[i + span_end(t, 0, CharClass::Bracket)]);
    }
    let l = ascii_lowercase(m);
    lemma_ascii_case(m);
    assert forall|i: int| 0 <= i < l.len() implies !is_space(#[trigger] l[i]) by {
        crate::text::lemma_ascii_case_char(m[i]);
    }
    if l.len() > 0 {
        crate::text::lemma_ascii_case_char(m[0]);
        crate::text::lemma_ascii_case_char(m[m.len() - 1]);
        assert(!is_space(l[l.len() - 1]));
    }
    lemma_trim_class_noop(l, CharClass::Space);
    lemma_trim_class_noop(l, CharClass::Bracket);
}

/// Which kind each keyword of an upper-cased placeholder suggests: `FILE`, a
/// `.JSON` or `.TXT` ending give a file; failing those, `DIR` or `FOLDER` a
/// folder; failing those, `N` alone or `NUM`, `INT`, `COUNT` anywhere a
/// number; anything else a text.
pub proof fn lemma_kind_keywords(p: Seq<char>)
    ensures
        contains_seq(p, "FILE"@) ==> kind_for_upper(p) == ArgKindView::PathFile,
        ".JSON"@.is_suffix_of(p) ==> kind_for_upper(p) == ArgKindView::PathFile,
        ".TXT"@.is_suffix_of(p) ==> kind_for_upper(p) == ArgKindView::PathFile,
        !contains_seq(p, "FILE"@) && !".JSON"@.is_suffix_of(p) && !".TXT"@.is_suffix_of(p) ==> {
            &&& contains_seq(p, "DIR"@) ==> kind_for_upper(p) == ArgKindView::PathDir
            &&& contains_seq(p, "FOLDER"@) ==> kind_for_upper(p) == ArgKindView::PathDir
            &&& !contains_seq(p, "DIR"@) && !contains_seq(p, "FOLDER"@) ==> {
                &&& p == "N"@ ==> kind_for_upper(p) == ArgKindView::Int
                &&& contains_seq(p, "NUM"@) ==> kind_for_upper(p) == ArgKindView::Int
                &&& contains_seq(p, "INT"@) ==> kind_for_upper(p) == ArgKindView::Int
                &&& contains_seq(p, "COUNT"@) ==> kind_for_upper(p) == ArgKindView::Int
                &&& p != "N"@ && !contains_seq(p, "NUM"@) && !contains_seq(p, "INT"@)
                    && !contains_seq(p, "COUNT"@) ==> kind_for_upper(p) == ArgKindView::Text
            }
        },
{
}

/// A placeholder in which `INT` occurs is a number, when it names no file or
/// folder: `<INT>` is one.
pub proof fn lemma_int_placeholder()
    ensures
        kind_for_upper("<INT>"@) == ArgKindView::Int,
{
    reveal_strlit("<INT>");
    reveal_strlit("INT");
    reveal_strlit("FILE");
    reveal_strlit(".JSON");
    reveal_strlit(".TXT");
    reveal_strlit("DIR");
    reveal_strlit("FOLDER");
    let p = "<INT>"@;
    assert(p.subrange(1, 1 + "INT"@.len() as int) =~= "INT"@);
    assert(contains_seq(p, "INT"@));
    assert(!contains_seq(p, "FILE"@)) by {
        assert forall|i: int| 0 <= i && i + 4 <= p.len() implies #[trigger] p.subrange(i, i + 4) != "FILE"@ by {
            assert(p.subrange(i, i + 4)[0] != 'F');
        }
    }
    assert(!contains_seq(p, "DIR"@)) by {
        assert forall|i: int| 0 <= i && i + 3 <= p.len() implies #[trigger] p.subrange(i, i + 3) != "DIR"@ by {
            assert(p.subrange(i, i + 3)[0] != 'D');
        }
    }
    assert(!contains_seq(p, "FOLDER"@));
    assert(!".JSON"@.is_suffix_of(p)) by {
        if ".JSON"@.is_suffix_of(p) {
            assert(p.subrange(0, 5)[0] == ".JSON"@[0]);
        }
    }
    assert(!".TXT"@.is_suffix_of(p)) by {
        if ".TXT"@.is_suffix_of(p) {
            assert(p.subrange(1, 5)[0] == ".TXT"@[0]);
        }
    }
    lemma_kind_keywords(p);
}

} // verus!