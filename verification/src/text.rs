//! Text primitives over sequences of characters: character classes, runs,
//! trimming, line and word splitting, and the conversions between `String`
//! and vectors of characters that the parsers work on.
use vstd::prelude::*;

verus! {

/// Unicode `White_Space`: the characters that `char::is_whitespace`, `str::trim`,
/// `str::split_whitespace` and the regular-expression class `\s` treat as space.
pub open spec fn is_space(c: char) -> bool {
    ||| ('\t' <= c && c <= '\r')
    ||| c == ' '
    ||| c == '\u{85}'
    ||| c == '\u{a0}'
    ||| c == '\u{1680}'
    ||| ('\u{2000}' <= c && c <= '\u{200a}')
    ||| c == '\u{2028}'
    ||| c == '\u{2029}'
    ||| c == '\u{202f}'
    ||| c == '\u{205f}'
    ||| c == '\u{3000}'
}

pub open spec fn is_ascii_upper(c: char) -> bool {
    'A' <= c && c <= 'Z'
}

pub open spec fn is_ascii_lower(c: char) -> bool {
    'a' <= c && c <= 'z'
}

pub open spec fn is_ascii_digit(c: char) -> bool {
    '0' <= c && c <= '9'
}

pub open spec fn is_ascii_alnum(c: char) -> bool {
    is_ascii_upper(c) || is_ascii_lower(c) || is_ascii_digit(c)
}

/// The character classes that runs of characters are scanned over.
#[derive(Clone, Copy, PartialEq, Eq, Debug)]
pub enum CharClass {
    /// `\s`
    Space,
    /// `\S`
    NotSpace,
    /// anything but a line feed
    NotNewline,
    /// `[^>]`
    NotGt,
    /// `[a-zA-Z0-9\-_]`
    LongNameChar,
    /// `[A-Z0-9_\-]`
    PlaceholderChar,
    /// one of `<`, `>`, `[`, `]`
    Bracket,
    /// anything but the given character
    Except(char),
}

pub open spec fn in_class(k: CharClass, c: char) -> bool {
    match k {
        CharClass::Space => is_space(c),
        CharClass::NotSpace => !is_space(c),
        CharClass::NotNewline => c != '\n',
        CharClass::NotGt => c != '>',
        CharClass::LongNameChar => is_ascii_alnum(c) || c == '-' || c == '_',
        CharClass::PlaceholderChar => is_ascii_upper(c) || is_ascii_digit(c) || c == '_' || c
            == '-',
        CharClass::Bracket => c == '<' || c == '>' || c == '[' || c == ']',
        CharClass::Except(x) => c != x,
    }
}

pub fn space_char(c: char) -> (r: bool)
    ensures
        r == is_space(c),
{
    ('\t' <= c && c <= '\r') || c == ' ' || c == '\u{85}' || c == '\u{a0}' || c == '\u{1680}'
        || ('\u{2000}' <= c && c <= '\u{200a}') || c == '\u{2028}' || c == '\u{2029}' || c
        == '\u{202f}' || c == '\u{205f}' || c == '\u{3000}'
}

pub fn char_in_class(k: CharClass, c: char) -> (r: bool)
    ensures
        r == in_class(k, c),
{
    match k {
        CharClass::Space => space_char(c),
        CharClass::NotSpace => !space_char(c),
        CharClass::NotNewline => c != '\n',
        CharClass::NotGt => c != '>',
        CharClass::LongNameChar => ('A' <= c && c <= 'Z') || ('a' <= c && c <= 'z') || ('0' <= c
            && c <= '9') || c == '-' || c == '_',
        CharClass::PlaceholderChar => ('A' <= c && c <= 'Z') || ('0' <= c && c <= '9') || c
            == '_' || c == '-',
        CharClass::Bracket => c == '<' || c == '>' || c == '[' || c == ']',
        CharClass::Except(x) => c != x,
    }
}

/// The end of the longest run of `k`-characters that starts at `p`.
pub open spec fn span_end(s: Seq<char>, p: int, k: CharClass) -> int
    decreases s.len() - p,
{
    if 0 <= p < s.len() && in_class(k, s[p]) {
        span_end(s, p + 1, k)
    } else {
        p
    }
}

/// The start of the longest run of `k`-characters that ends at `p`.
pub open spec fn span_start(s: Seq<char>, p: int, k: CharClass) -> int
    decreases p,
{
    if 0 < p <= s.len() && in_class(k, s[p - 1]) {
        span_start(s, p - 1, k)
    } else {
        p
    }
}

pub proof fn lemma_span_end(s: Seq<char>, p: int, k: CharClass)
    requires
        0 <= p <= s.len(),
    ensures
        p <= span_end(s, p, k) <= s.len(),
        forall|i: int| p <= i < span_end(s, p, k) ==> in_class(k, #[trigger] s[i]),
        span_end(s, p, k) == s.len() || !in_class(k, s[span_end(s, p, k)]),
    decreases s.len() - p,
{
    if p < s.len() && in_class(k, s[p]) {
        lemma_span_end(s, p + 1, k);
    }
}

pub proof fn lemma_span_start(s: Seq<char>, p: int, k: CharClass)
    requires
        0 <= p <= s.len(),
    ensures
        0 <= span_start(s, p, k) <= p,
        forall|i: int| span_start(s, p, k) <= i < p ==> in_class(k, #[trigger] s[i]),
        span_start(s, p, k) == 0 || !in_class(k, s[span_start(s, p, k) - 1]),
    decreases p,
{
    if p > 0 && in_class(k, s[p - 1]) {
        lemma_span_start(s, p - 1, k);
    }
}

pub fn scan_forward(s: &[char], p: usize, k: CharClass) -> (r: usize)
    requires
        p <= s@.len(),
    ensures
        r == span_end(s@, p as int, k),
{
    let mut i = p;
    while i < s.len() && char_in_class(k, s[i])
        invariant
            p <= i <= s@.len(),
            span_end(s@, i as int, k) == span_end(s@, p as int, k),
        decreases s@.len() - i,
    {
        i = i + 1;
    }
    i
}

pub fn scan_backward(s: &[char], p: usize, k: CharClass) -> (r: usize)
    requires
        p <= s@.len(),
    ensures
        r == span_start(s@, p as int, k),
{
    let mut i = p;
    while i > 0 && char_in_class(k, s[i - 1])
        invariant
            i <= p <= s@.len(),
            span_start(s@, i as int, k) == span_start(s@, p as int, k),
        decreases i,
    {
        i = i - 1;
    }
    i
}

/// `s` without the `k`-characters at its start.
pub open spec fn trim_start_class(s: Seq<char>, k: CharClass) -> Seq<char> {
    s.subrange(span_end(s, 0, k), s.len() as int)
}

/// `s` without the `k`-characters at its end.
pub open spec fn trim_end_class(s: Seq<char>, k: CharClass) -> Seq<char> {
    s.subrange(0, span_start(s, s.len() as int, k))
}

/// `s` without the `k`-characters at either end.
pub open spec fn trim_class(s: Seq<char>, k: CharClass) -> Seq<char> {
    trim_end_class(trim_start_class(s, k), k)
}

/// What `str::trim` gives.
pub open spec fn trim(s: Seq<char>) -> Seq<char> {
    trim_class(s, CharClass::Space)
}

/// What `str::trim_end` gives.
pub open spec fn trim_end(s: Seq<char>) -> Seq<char> {
    trim_end_class(s, CharClass::Space)
}

pub fn trimmed_end_class(s: &[char], k: CharClass) -> (r: Vec<char>)
    ensures
        r@ == trim_end_class(s@, k),
{
    let e = scan_backward(s, s.len(), k);
    proof {
        lemma_span_start(s@, s@.len() as int, k);
    }
    copy_range(s, 0, e)
}

pub fn trimmed_class(s: &[char], k: CharClass) -> (r: Vec<char>)
    ensures
        r@ == trim_class(s@, k),
{
    let b = scan_forward(s, 0, k);
    proof {
        lemma_span_end(s@, 0, k);
    }
    let t = copy_range(s, b, s.len());
    trimmed_end_class(t.as_slice(), k)
}

pub fn trimmed(s: &[char]) -> (r: Vec<char>)
    ensures
        r@ == trim(s@),
{
    trimmed_class(s, CharClass::Space)
}

pub fn copy_range(s: &[char], from: usize, to: usize) -> (r: Vec<char>)
    requires
        from <= to <= s@.len(),
    ensures
        r@ == s@.subrange(from as int, to as int),
{
    let mut r: Vec<char> = Vec::new();
    let mut i = from;
    while i < to
        invariant
            from <= i <= to <= s@.len(),
            r@ == s@.subrange(from as int, i as int),
        decreases to - i,
    {
        r.push(s[i]);
        i = i + 1;
    }
    r
}

/// A line as `str::lines` yields it: a trailing carriage return is dropped
/// when it stands before the line feed.
pub open spec fn strip_cr(s: Seq<char>) -> Seq<char> {
    if s.len() > 0 && s.last() == '\r' {
        s.drop_last()
    } else {
        s
    }
}

/// The lines of `s` from position `p` on, as `str::lines` yields them: split at
/// each line feed, a carriage return before a line feed is part of the line
/// ending, and a final line ending adds no empty line.
pub open spec fn lines_from(s: Seq<char>, p: int) -> Seq<Seq<char>>
    decreases s.len() - p,
{
    if p < 0 || p >= s.len() {
        seq![]
    } else {
        let i = span_end(s, p, CharClass::NotNewline);
        if i >= s.len() || i < p {
            seq![s.subrange(p, s.len() as int)]
        } else {
            seq![strip_cr(s.subrange(p, i))] + lines_from(s, i + 1)
        }
    }
}

pub open spec fn lines_of(s: Seq<char>) -> Seq<Seq<char>> {
    lines_from(s, 0)
}

pub fn strip_cr_exec(v: Vec<char>) -> (r: Vec<char>)
    ensures
        r@ == strip_cr(v@),
{
    let mut v = v;
    if v.len() > 0 && v[v.len() - 1] == '\r' {
        v.pop();
    }
    v
}

/// The lines of `s`, as `str::lines` yields them.
pub fn lines(s: &[char]) -> (r: Vec<Vec<char>>)
    ensures
        views(r@) == lines_of(s@),
{
    let mut r: Vec<Vec<char>> = Vec::new();
    let mut p: usize = 0;
    while p < s.len()
        invariant
            p <= s@.len(),
            views(r@) + lines_from(s@, p as int) == lines_of(s@),
        decreases s@.len() - p,
    {
        let i = scan_forward(s, p, CharClass::NotNewline);
        proof {
            lemma_span_end(s@, p as int, CharClass::NotNewline);
        }
        let ghost before = views(r@);
        if i >= s.len() {
            let line = copy_range(s, p, s.len());
            r.push(line);
            proof {
                assert(views(r@) =~= before.push(s@.subrange(p as int, s@.len() as int)));
                assert(lines_from(s@, s@.len() as int) =~= Seq::<Seq<char>>::empty());
                assert(views(r@) + lines_from(s@, s@.len() as int) =~= before + lines_from(
                    s@,
                    p as int,
                ));
            }
            p = s.len();
        } else {
            let line = strip_cr_exec(copy_range(s, p, i));
            r.push(line);
            proof {
                assert(views(r@) =~= before.push(strip_cr(s@.subrange(p as int, i as int))));
                assert(views(r@) + lines_from(s@, i + 1) =~= before + lines_from(s@, p as int));
            }
            p = i + 1;
        }
    }
    proof {
        assert(lines_from(s@, p as int) =~= Seq::<Seq<char>>::empty());
        assert(views(r@) + lines_from(s@, p as int) =~= views(r@));
    }
    r
}

/// The words of `s` from position `p` on, as `str::split_whitespace` yields
/// them: the maximal runs of non-space characters.
pub open spec fn words_from(s: Seq<char>, p: int) -> Seq<Seq<char>>
    decreases s.len() - p,
{
    let a = span_end(s, p, CharClass::Space);
    if p < 0 || a >= s.len() || a < p {
        seq![]
    } else {
        let b = span_end(s, a, CharClass::NotSpace);
        if b <= p || b > s.len() {
            seq![]
        } else {
            seq![s.subrange(a, b)] + words_from(s, b)
        }
    }
}

pub open spec fn words_of(s: Seq<char>) -> Seq<Seq<char>> {
    words_from(s, 0)
}

/// The words of `s`, as `str::split_whitespace` yields them.
pub fn words(s: &[char]) -> (r: Vec<Vec<char>>)
    ensures
        views(r@) == words_of(s@),
{
    let mut r: Vec<Vec<char>> = Vec::new();
    let mut p: usize = 0;
    while p < s.len()
        invariant
            p <= s@.len(),
            views(r@) + words_from(s@, p as int) == words_of(s@),
        decreases s@.len() - p,
    {
        let a = scan_forward(s, p, CharClass::Space);
        proof {
            lemma_span_end(s@, p as int, CharClass::Space);
        }
        if a >= s.len() {
            proof {
                assert(words_from(s@, p as int) =~= Seq::<Seq<char>>::empty());
                assert(words_from(s@, s@.len() as int) =~= Seq::<Seq<char>>::empty());
                assert(views(r@) + words_from(s@, s@.len() as int) =~= views(r@)
                    + words_from(s@, p as int));
            }
            p = s.len();
        } else {
            let b = scan_forward(s, a, CharClass::NotSpace);
            proof {
                lemma_span_end(s@, a as int, CharClass::NotSpace);
            }
            let ghost before = views(r@);
            let w = copy_range(s, a, b);
            r.push(w);
            proof {
                assert(views(r@) =~= before.push(s@.subrange(a as int, b as int)));
                assert(views(r@) + words_from(s@, b as int) =~= before + words_from(
                    s@,
                    p as int,
                ));
            }
            p = b;
        }
    }
    proof {
        assert(words_from(s@, p as int) =~= Seq::<Seq<char>>::empty());
        assert(views(r@) + words_from(s@, p as int) =~= views(r@));
    }
    r
}

/// The character sequences that a list of character vectors holds.
pub open spec fn views(v: Seq<Vec<char>>) -> Seq<Seq<char>> {
    v.map_values(|x: Vec<char>| x@)
}

/// Whether `needle` occurs in `s` as a contiguous part.
pub open spec fn contains_seq(s: Seq<char>, needle: Seq<char>) -> bool {
    exists|i: int| 0 <= i && i + needle.len() <= s.len() && #[trigger] s.subrange(i, i + needle.len()) == needle
}

pub fn same_chars(a: &[char], b: &[char]) -> (r: bool)
    ensures
        r == (a@ == b@),
{
    if a.len() != b.len() {
        return false;
    }
    let mut i: usize = 0;
    while i < a.len()
        invariant
            a@.len() == b@.len(),
            i <= a@.len(),
            forall|j: int| 0 <= j < i ==> a@[j] == b@[j],
        decreases a@.len() - i,
    {
        if a[i] != b[i] {
            return false;
        }
        i = i + 1;
    }
    assert(a@ =~= b@);
    true
}

/// Whether `s` has `q` as a contiguous part starting at `at`.
pub fn matches_at(s: &[char], at: usize, q: &[char]) -> (r: bool)
    requires
        at <= s@.len(),
    ensures
        r == (at + q@.len() <= s@.len() && s@.subrange(at as int, at + q@.len()) == q@),
{
    if q.len() > s.len() - at {
        return false;
    }
    let mut i: usize = 0;
    while i < q.len()
        invariant
            at + q@.len() <= s@.len(),
            s@.len() <= usize::MAX,
            i <= q@.len(),
            forall|j: int| 0 <= j < i ==> s@[at + j] == q@[j],
        decreases q@.len() - i,
    {
        if s[at + i] != q[i] {
            assert(s@.subrange(at as int, at + q@.len())[i as int] != q@[i as int]);
            return false;
        }
        i = i + 1;
    }
    assert(s@.subrange(at as int, at + q@.len()) =~= q@);
    true
}

pub fn starts_with(s: &[char], q: &[char]) -> (r: bool)
    ensures
        r == q@.is_prefix_of(s@),
{
    let r = matches_at(s, 0, q);
    proof {
        if q@.is_prefix_of(s@) {
            assert(s@.subrange(0, q@.len() as int) =~= q@);
        }
        if r {
            assert forall|j: int| 0 <= j < q@.len() implies q@[j] == s@[j] by {
                assert(s@.subrange(0, q@.len() as int)[j] == s@[j]);
            }
        }
    }
    r
}

pub fn ends_with(s: &[char], q: &[char]) -> (r: bool)
    ensures
        r == q@.is_suffix_of(s@),
{
    if q.len() > s.len() {
        return false;
    }
    let at = s.len() - q.len();
    let r = matches_at(s, at, q);
    proof {
        if q@.is_suffix_of(s@) {
            assert(s@.subrange(at as int, s@.len() as int) =~= q@);
        }
        if r {
            assert forall|j: int| 0 <= j < q@.len() implies q@[j] == s@[s@.len() - q@.len() + j] by {
                assert(s@.subrange(at as int, at + q@.len())[j] == s@[at + j]);
            }
        }
    }
    r
}

pub fn contains(s: &[char], q: &[char]) -> (r: bool)
    ensures
        r == contains_seq(s@, q@),
{
    if q.len() > s.len() {
        return false;
    }
    let limit = s.len() - q.len();
    let mut i: usize = 0;
    loop
        invariant
            q@.len() <= s@.len(),
            limit == s@.len() - q@.len(),
            i <= limit,
            forall|j: int| 0 <= j < i ==> #[trigger] s@.subrange(j, j + q@.len()) != q@,
        decreases limit - i,
    {
        if matches_at(s, i, q) {
            return true;
        }
        if i == limit {
            return false;
        }
        i = i + 1;
    }
}

/// `String::push`: the string grows by the one character.
#[verifier::external_body]
fn push_char(s: &mut String, c: char)
    ensures
        final(s)@ == old(s)@.push(c),
{
    s.push(c);
}

pub fn string_of(v: &[char]) -> (r: String)
    ensures
        r@ == v@,
{
    let mut r = String::new();
    let mut i: usize = 0;
    while i < v.len()
        invariant
            i <= v@.len(),
            r@ == v@.subrange(0, i as int),
        decreases v@.len() - i,
    {
        push_char(&mut r, v[i]);
        assert(v@.subrange(0, i + 1) =~= v@.subrange(0, i as int).push(v@[i as int]));
        i = i + 1;
    }
    assert(v@.subrange(0, v@.len() as int) =~= v@);
    r
}

/// The characters of a string slice, in order.
pub fn chars_of(s: &str) -> (v: Vec<char>)
    ensures
        v@ == s@,
{
    let mut v: Vec<char> = Vec::new();
    for c in it: s.chars()
        invariant
            v@ == it.seq().take(it.index() as int),
            it.seq() == s@,
    {
        v.push(c);
    }
    v
}

/// What `str::to_uppercase` gives for a string (the Unicode uppercase mapping).
pub uninterp spec fn uppercase(s: Seq<char>) -> Seq<char>;

/// What `str::to_lowercase` gives for a string (the Unicode lowercase mapping).
pub uninterp spec fn lowercase(s: Seq<char>) -> Seq<char>;

/// A letter `a`-`z` as `A`-`Z`; any other character unchanged.
pub open spec fn ascii_upper_char(c: char) -> char {
    if is_ascii_lower(c) {
        ((c as u32) - 32) as char
    } else {
        c
    }
}

/// A letter `A`-`Z` as `a`-`z`; any other character unchanged.
pub open spec fn ascii_lower_char(c: char) -> char {
    if is_ascii_upper(c) {
        ((c as u32) + 32) as char
    } else {
        c
    }
}

/// What `str::to_ascii_uppercase` gives.
pub open spec fn ascii_uppercase(s: Seq<char>) -> Seq<char> {
    s.map_values(|c: char| ascii_upper_char(c))
}

/// What `str::to_ascii_lowercase` gives.
pub open spec fn ascii_lowercase(s: Seq<char>) -> Seq<char> {
    s.map_values(|c: char| ascii_lower_char(c))
}

/// `str::to_uppercase`. Claimed: the result depends on the string alone and is
/// named `uppercase`; on ASCII text it is the ASCII upper case (the Unicode
/// mapping of ASCII letters). Unicode's case tables beyond ASCII are not
/// written out here.
#[verifier::external_body]
fn upper_of(s: &str) -> (r: String)
    ensures
        r@ == uppercase(s@),
        vstd::utf8::is_ascii_chars(s@) ==> r@ == ascii_uppercase(s@),
{
    s.to_uppercase()
}

/// `str::to_lowercase`. Claimed: the result depends on the string alone and is
/// named `lowercase`; on ASCII text it is the ASCII lower case (the Unicode
/// mapping of ASCII letters). Unicode's case tables beyond ASCII are not
/// written out here.
#[verifier::external_body]
fn lower_of(s: &str) -> (r: String)
    ensures
        r@ == lowercase(s@),
        vstd::utf8::is_ascii_chars(s@) ==> r@ == ascii_lowercase(s@),
{
    s.to_lowercase()
}

pub fn to_upper(v: &[char]) -> (r: Vec<char>)
    ensures
        r@ == uppercase(v@),
        vstd::utf8::is_ascii_chars(v@) ==> r@ == ascii_uppercase(v@),
{
    let s = string_of(v);
    let u = upper_of(s.as_str());
    chars_of(u.as_str())
}

pub fn to_lower(v: &[char]) -> (r: Vec<char>)
    ensures
        r@ == lowercase(v@),
        vstd::utf8::is_ascii_chars(v@) ==> r@ == ascii_lowercase(v@),
{
    let s = string_of(v);
    let u = lower_of(s.as_str());
    chars_of(u.as_str())
}

/// What `String::from_utf8_lossy` gives for a byte string.
pub uninterp spec fn utf8_lossy(b: Seq<u8>) -> Seq<char>;

/// `String::from_utf8_lossy`. Claimed: the result depends on the bytes alone
/// and is named `utf8_lossy`; for valid UTF-8 it is the decoded text. How
/// invalid sequences are replaced by U+FFFD is not written out.
#[verifier::external_body]
pub(crate) fn lossy_text(b: &[u8]) -> (r: String)
    ensures
        r@ == utf8_lossy(b@),
        vstd::utf8::valid_utf8(b@) ==> r@ == vstd::utf8::decode_utf8(b@),
{
    String::from_utf8_lossy(b).into_owned()
}

/// The ASCII case mappings of one ASCII character: lower-casing keeps it
/// ASCII, is idempotent, does not change what upper-casing gives, and leaves
/// space and brackets as they are.
pub proof fn lemma_ascii_case_char(c: char)
    requires
        '\0' <= c <= '\u{7f}',
    ensures
        '\0' <= ascii_lower_char(c) <= '\u{7f}',
        '\0' <= ascii_upper_char(c) <= '\u{7f}',
        ascii_lower_char(ascii_lower_char(c)) == ascii_lower_char(c),
        ascii_upper_char(ascii_lower_char(c)) == ascii_upper_char(c),
        ascii_upper_char(ascii_upper_char(c)) == ascii_upper_char(c),
        is_space(ascii_lower_char(c)) == is_space(c),
        in_class(CharClass::Bracket, ascii_lower_char(c)) == in_class(CharClass::Bracket, c),
{
}

/// The ASCII case mappings of ASCII text: lower-casing keeps it ASCII, is
/// idempotent and does not change what upper-casing gives; upper-casing keeps
/// it ASCII and is idempotent.
pub proof fn lemma_ascii_case(s: Seq<char>)
    requires
        vstd::utf8::is_ascii_chars(s),
    ensures
        vstd::utf8::is_ascii_chars(ascii_lowercase(s)),
        vstd::utf8::is_ascii_chars(ascii_uppercase(s)),
        ascii_lowercase(ascii_lowercase(s)) == ascii_lowercase(s),
        ascii_uppercase(ascii_lowercase(s)) == ascii_uppercase(s),
        ascii_uppercase(ascii_uppercase(s)) == ascii_uppercase(s),
{
    assert forall|i: int| 0 <= i < s.len() implies {
        &&& '\0' <= ascii_lower_char(#[trigger] s[i]) <= '\u{7f}'
        &&& '\0' <= ascii_upper_char(s[i]) <= '\u{7f}'
        &&& ascii_lower_char(ascii_lower_char(s[i])) == ascii_lower_char(s[i])
        &&& ascii_upper_char(ascii_lower_char(s[i])) == ascii_upper_char(s[i])
        &&& ascii_upper_char(ascii_upper_char(s[i])) == ascii_upper_char(s[i])
    } by {
        lemma_ascii_case_char(s[i]);
    }
    assert(ascii_lowercase(ascii_lowercase(s)) =~= ascii_lowercase(s));
    assert(ascii_uppercase(ascii_lowercase(s)) =~= ascii_uppercase(s));
    assert(ascii_uppercase(ascii_uppercase(s)) =~= ascii_uppercase(s));
}

/// Trimming takes a contiguous part of `s` whose ends, when it is not empty,
/// are not `k`-characters.
pub proof fn lemma_trim_class(s: Seq<char>, k: CharClass)
    ensures
        0 <= span_end(s, 0, k) <= s.len(),
        trim_class(s, k).len() <= s.len() - span_end(s, 0, k),
        forall|i: int| 0 <= i < trim_class(s, k).len() ==> #[trigger] trim_class(s, k)[i] == s[i + span_end(s, 0, k)],
        trim_class(s, k).len() > 0 ==> !in_class(k, trim_class(s, k)[0]) && !in_class(
            k,
            trim_class(s, k)[trim_class(s, k).len() - 1],
        ),
{
    lemma_span_end(s, 0, k);
    let b = span_end(s, 0, k);
    let u = s.subrange(b, s.len() as int);
    lemma_span_start(u, u.len() as int, k);
}

/// Text that neither starts nor ends with a `k`-character is its own trim.
pub proof fn lemma_trim_class_noop(s: Seq<char>, k: CharClass)
    requires
        s.len() == 0 || (!in_class(k, s[0]) && !in_class(k, s[s.len() - 1])),
    ensures
        trim_class(s, k) == s,
{
    assert(s.subrange(0, s.len() as int) =~= s);
}

} // verus!