//! The SRNG source formatter: re-indents blocks by brace depth, collapses runs
//! of blank lines and never looks inside string literals or line comments.
use vstd::prelude::*;
use crate::lexer::line_end;
use crate::text::{append_chars, chars_of, string_of, sub_chars};

verus! {

/// Unicode white space, as `char::is_whitespace` and `str::trim` see it.
pub open spec fn is_ws(c: char) -> bool {
    c == ' ' || ('\t' <= c && c <= '\r') || c == '\u{85}' || c == '\u{a0}' || c == '\u{1680}'
        || ('\u{2000}' <= c && c <= '\u{200a}') || c == '\u{2028}' || c == '\u{2029}'
        || c == '\u{202f}' || c == '\u{205f}' || c == '\u{3000}'
}

pub fn ws(c: char) -> (b: bool)
    ensures
        b == is_ws(c),
{
    c == ' ' || ('\t' <= c && c <= '\r') || c == '\u{85}' || c == '\u{a0}' || c == '\u{1680}'
        || ('\u{2000}' <= c && c <= '\u{200a}') || c == '\u{2028}' || c == '\u{2029}'
        || c == '\u{202f}' || c == '\u{205f}' || c == '\u{3000}'
}

/// Index of the first non-white-space character at or after `i`.
pub open spec fn ws_start(s: Seq<char>, i: int) -> int
    decreases s.len() - i,
{
    if i < 0 || i >= s.len() {
        i
    } else if !is_ws(s[i]) {
        i
    } else {
        ws_start(s, i + 1)
    }
}

/// One past the last non-white-space character before `j`.
pub open spec fn ws_end(s: Seq<char>, j: int) -> int
    decreases j,
{
    if j <= 0 || j > s.len() {
        0
    } else if !is_ws(s[j - 1]) {
        j
    } else {
        ws_end(s, j - 1)
    }
}

/// `str::trim`: the sequence without leading and trailing white space.
pub open spec fn trim(s: Seq<char>) -> Seq<char> {
    let a = ws_start(s, 0);
    let b = ws_end(s, s.len() as int);
    if a < b {
        s.subrange(a, b)
    } else {
        Seq::empty()
    }
}

pub(crate) proof fn lemma_ws_start(s: Seq<char>, i: int)
    requires
        0 <= i <= s.len(),
    ensures
        i <= ws_start(s, i) <= s.len(),
        forall|k: int| i <= k < ws_start(s, i) ==> is_ws(#[trigger] s[k]),
        ws_start(s, i) < s.len() ==> !is_ws(s[ws_start(s, i)]),
    decreases s.len() - i,
{
    if i < s.len() && is_ws(s[i]) {
        lemma_ws_start(s, i + 1);
    }
}

proof fn lemma_ws_end(s: Seq<char>, j: int)
    requires
        0 <= j <= s.len(),
    ensures
        0 <= ws_end(s, j) <= j,
        forall|k: int| ws_end(s, j) <= k < j ==> is_ws(#[trigger] s[k]),
        ws_end(s, j) > 0 ==> !is_ws(s[ws_end(s, j) - 1]),
    decreases j,
{
    if j > 0 && is_ws(s[j - 1]) {
        lemma_ws_end(s, j - 1);
    }
}

pub fn trim_chars(s: &Vec<char>) -> (t: Vec<char>)
    ensures
        t@ == trim(s@),
{
    let n = s.len();
    let mut a: usize = 0;
    while a < n && ws(s[a])
        invariant
            a <= n,
            n == s@.len(),
            ws_start(s@, a as int) == ws_start(s@, 0),
        decreases n - a,
    {
        a += 1;
    }
    let mut b: usize = n;
    while b > 0 && ws(s[b - 1])
        invariant
            b <= n,
            n == s@.len(),
            ws_end(s@, b as int) == ws_end(s@, n as int),
        decreases b,
    {
        b -= 1;
    }
    if a < b {
        sub_chars(s, a, b)
    } else {
        Vec::new()
    }
}

// ---------------------------------------------------------------------------
// Lines

/// A line without its trailing carriage return, if it has one.
pub open spec fn strip_cr(l: Seq<char>) -> Seq<char> {
    if l.len() > 0 && l[l.len() - 1] == '\r' {
        l.drop_last()
    } else {
        l
    }
}

/// `str::lines` of `s` from index `i`: split at `\n`, a final line ending is
/// optional, and a `\r` just before a `\n` belongs to the line ending.
pub open spec fn lines_from(s: Seq<char>, i: int) -> Seq<Seq<char>>
    decreases s.len() - i,
{
    if i < 0 || i >= s.len() {
        Seq::empty()
    } else {
        let k = line_end(s, i);
        if k < i {
            Seq::empty()
        } else if k >= s.len() {
            seq![s.subrange(i, s.len() as int)]
        } else {
            seq![strip_cr(s.subrange(i, k))] + lines_from(s, k + 1)
        }
    }
}

pub open spec fn lines(s: Seq<char>) -> Seq<Seq<char>> {
    lines_from(s, 0)
}

// ---------------------------------------------------------------------------
// Brace shape

/// Counts `{` and `}` from index `i`, skipping string literals (with
/// backslash escapes) and stopping at a `//` comment.
pub open spec fn brace_scan(line: Seq<char>, i: int, in_string: bool, escaped: bool) -> (int, int)
    decreases line.len() - i,
{
    if i < 0 || i >= line.len() {
        (0, 0)
    } else {
        let c = line[i];
        if in_string {
            if escaped {
                brace_scan(line, i + 1, true, false)
            } else if c == '\\' {
                brace_scan(line, i + 1, true, true)
            } else if c == '"' {
                brace_scan(line, i + 1, false, false)
            } else {
                brace_scan(line, i + 1, true, false)
            }
        } else if c == '"' {
            brace_scan(line, i + 1, true, false)
        } else if c == '/' && i + 1 < line.len() && line[i + 1] == '/' {
            (0, 0)
        } else {
            let r = brace_scan(line, i + 1, false, false);
            if c == '{' {
                (r.0 + 1, r.1)
            } else if c == '}' {
                (r.0, r.1 + 1)
            } else {
                r
            }
        }
    }
}

/// Opening braces, closing braces, and whether the line starts with `}`.
pub open spec fn brace_shape_spec(line: Seq<char>) -> (int, int, bool) {
    let r = brace_scan(line, 0, false, false);
    (r.0, r.1, line.len() > 0 && line[0] == '}')
}

proof fn lemma_brace_scan_bounds(line: Seq<char>, i: int, in_string: bool, escaped: bool)
    requires
        0 <= i <= line.len(),
    ensures
        0 <= brace_scan(line, i, in_string, escaped).0 <= line.len() - i,
        0 <= brace_scan(line, i, in_string, escaped).1 <= line.len() - i,
    decreases line.len() - i,
{
    if i < line.len() {
        lemma_brace_scan_bounds(line, i + 1, false, false);
        lemma_brace_scan_bounds(line, i + 1, true, false);
        lemma_brace_scan_bounds(line, i + 1, true, true);
    }
}

pub fn brace_shape(line: &Vec<char>) -> (r: (usize, usize, bool))
    ensures
        r.0 == brace_shape_spec(line@).0,
        r.1 == brace_shape_spec(line@).1,
        r.2 == brace_shape_spec(line@).2,
{
    let n = line.len();
    let mut opens: usize = 0;
    let mut closes: usize = 0;
    let mut in_string = false;
    let mut escaped = false;
    let mut i: usize = 0;
    let ghost total = brace_scan(line@, 0, false, false);
    proof { lemma_brace_scan_bounds(line@, 0, false, false); }
    while i < n
        invariant_except_break
            n == line@.len(),
            i <= n,
            opens <= i,
            closes <= i,
            total == brace_scan(line@, 0, false, false),
            !in_string ==> !escaped,
            total.0 == opens + brace_scan(line@, i as int, in_string, escaped).0,
            total.1 == closes + brace_scan(line@, i as int, in_string, escaped).1,
        ensures
            total == brace_scan(line@, 0, false, false),
            total.0 == opens,
            total.1 == closes,
        decreases n - i,
    {
        let c = line[i];
        if in_string {
            if escaped {
                escaped = false;
            } else if c == '\\' {
                escaped = true;
            } else if c == '"' {
                in_string = false;
            }
            i += 1;
        } else if c == '"' {
            in_string = true;
            i += 1;
        } else if c == '/' && i + 1 < n && line[i + 1] == '/' {
            break;
        } else {
            if c == '{' {
                opens += 1;
            } else if c == '}' {
                closes += 1;
            }
            i += 1;
        }
    }
    (opens, closes, n > 0 && line[0] == '}')
}

// ---------------------------------------------------------------------------
// Formatting

pub open spec fn sat_sub(a: int, b: int) -> int {
    if a >= b {
        a - b
    } else {
        0
    }
}

pub open spec fn spaces(n: int) -> Seq<char>
    decreases n,
{
    if n <= 0 {
        Seq::empty()
    } else {
        spaces(n - 1).push(' ')
    }
}

pub open spec fn ends_with_blank(out: Seq<char>) -> bool {
    out.len() >= 2 && out[out.len() - 1] == '\n' && out[out.len() - 2] == '\n'
}

/// The output text and indentation depth after one more input line.
pub open spec fn format_step(out: Seq<char>, indent: int, raw: Seq<char>) -> (Seq<char>, int) {
    let line = trim(raw);
    if line.len() == 0 {
        if !ends_with_blank(out) && out.len() > 0 {
            (out.push('\n'), indent)
        } else {
            (out, indent)
        }
    } else {
        let shape = brace_shape_spec(line);
        let ind1 = if shape.2 { sat_sub(indent, 1) } else { indent };
        let consumed: int = if shape.2 { 1 } else { 0 };
        ((out + spaces(4 * ind1) + line).push('\n'), sat_sub(ind1 + shape.0, sat_sub(shape.1, consumed)))
    }
}

/// Processes lines from first to last, giving the output and the final
/// indentation depth.
pub open spec fn format_state(ls: Seq<Seq<char>>, out: Seq<char>, indent: int) -> (Seq<char>, int)
    decreases ls.len(),
{
    if ls.len() == 0 {
        (out, indent)
    } else {
        let st = format_step(out, indent, ls[0]);
        format_state(ls.drop_first(), st.0, st.1)
    }
}

pub open spec fn format_lines(ls: Seq<Seq<char>>, out: Seq<char>, indent: int) -> Seq<char> {
    format_state(ls, out, indent).0
}

/// Drops trailing blank lines and makes sure a non-empty output ends with a
/// line break.
pub open spec fn finish(out: Seq<char>) -> Seq<char>
    decreases out.len(),
{
    if ends_with_blank(out) {
        finish(out.drop_last())
    } else if out.len() > 0 && out[out.len() - 1] != '\n' {
        out.push('\n')
    } else {
        out
    }
}

/// The specification of `format_srng`.
pub open spec fn format_spec(source: Seq<char>) -> Seq<char> {
    finish(format_lines(lines(source), Seq::empty(), 0))
}

proof fn lemma_lines_step(s: Seq<char>, i: int)
    requires
        0 <= i < s.len(),
    ensures
        i <= line_end(s, i) <= s.len(),
        line_end(s, i) < s.len() ==> s[line_end(s, i)] == '\n',
        line_end(s, i) >= s.len() ==> lines_from(s, i) == seq![s.subrange(i, s.len() as int)],
        line_end(s, i) < s.len() ==> lines_from(s, i) == seq![strip_cr(s.subrange(i, line_end(s, i)))] + lines_from(s, line_end(s, i) + 1),
    decreases s.len() - i,
{
    lemma_line_end_facts(s, i);
}

proof fn lemma_line_end_facts(s: Seq<char>, i: int)
    requires
        0 <= i <= s.len(),
    ensures
        i <= line_end(s, i) <= s.len(),
        line_end(s, i) < s.len() ==> s[line_end(s, i)] == '\n',
        forall|k: int| i <= k < line_end(s, i) ==> #[trigger] s[k] != '\n',
    decreases s.len() - i,
{
    if i < s.len() && s[i] != '\n' {
        lemma_line_end_facts(s, i + 1);
    }
}

proof fn lemma_trim_len(s: Seq<char>)
    ensures
        trim(s).len() <= s.len(),
{
    lemma_ws_start(s, 0);
    lemma_ws_end(s, s.len() as int);
}

fn find_newline(s: &Vec<char>, i: usize) -> (k: usize)
    requires
        i <= s@.len(),
    ensures
        k == line_end(s@, i as int),
{
    let mut k = i;
    while k < s.len() && s[k] != '\n'
        invariant
            i <= k <= s@.len(),
            line_end(s@, k as int) == line_end(s@, i as int),
        decreases s@.len() - k,
    {
        k += 1;
    }
    k
}

fn push_spaces(out: &mut Vec<char>, n: usize)
    ensures
        final(out)@ == old(out)@ + spaces(n as int),
{
    let mut k: usize = 0;
    while k < n
        invariant
            k <= n,
            out@ == old(out)@ + spaces(k as int),
        decreases n - k,
    {
        out.push(' ');
        k += 1;
        assert(out@ =~= old(out)@ + spaces(k as int));
    }
}

fn ends_blank(out: &Vec<char>) -> (b: bool)
    ensures
        b == ends_with_blank(out@),
{
    out.len() >= 2 && out[out.len() - 1] == '\n' && out[out.len() - 2] == '\n'
}

/// Reformats SRNG source: every non-blank line is trimmed and indented by four
/// spaces per open brace, runs of blank lines collapse to one, leading and
/// trailing blank lines disappear, and the result ends with a line break.
pub fn format_srng(source: &str) -> (formatted: String)
    requires
        source@.len() <= usize::MAX / 4,
    ensures
        formatted@ == format_spec(source@),
{
    let s = chars_of(source);
    let n = s.len();
    let mut out: Vec<char> = Vec::new();
    let mut indent: usize = 0;
    let mut i: usize = 0;
    let ghost target = format_lines(lines(s@), Seq::empty(), 0);
    while i < n
        invariant
            n == s@.len(),
            n <= usize::MAX / 4,
            i <= n,
            indent <= i,
            target == format_lines(lines(s@), Seq::empty(), 0),
            target == format_lines(lines_from(s@, i as int), out@, indent as int),
        decreases n - i,
    {
        let k = find_newline(&s, i);
        proof { lemma_lines_step(s@, i as int); }
        let mut raw = sub_chars(&s, i, k);
        if k < n && raw.len() > 0 && raw[raw.len() - 1] == '\r' {
            raw.pop();
        }
        let ghost rest = if k < n { lines_from(s@, k + 1) } else { Seq::<Seq<char>>::empty() };
        proof {
            assert(raw@ == (if k < n { strip_cr(s@.subrange(i as int, k as int)) } else { s@.subrange(i as int, n as int) }));
            assert(lines_from(s@, i as int) == seq![raw@] + rest);
            assert((seq![raw@] + rest).drop_first() =~= rest);
            if k >= n {
                assert(lines_from(s@, n as int) == Seq::<Seq<char>>::empty());
            }
        }
        let line = trim_chars(&raw);
        if line.len() == 0 {
            if !ends_blank(&out) && out.len() > 0 {
                out.push('\n');
            }
        } else {
            let (opens, closes, starts_with_close) = brace_shape(&line);
            proof {
                lemma_brace_scan_bounds(line@, 0, false, false);
                lemma_trim_len(raw@);
            }
            if starts_with_close {
                indent = if indent >= 1 { indent - 1 } else { 0 };
            }
            push_spaces(&mut out, 4 * indent);
            append_chars(&mut out, &line);
            out.push('\n');
            let consumed: usize = if starts_with_close { 1 } else { 0 };
            let excess = if closes >= consumed { closes - consumed } else { 0 };
            let grown = indent + opens;
            indent = if grown >= excess { grown - excess } else { 0 };
        }
        i = if k < n { k + 1 } else { n };
    }
    proof {
        assert(lines_from(s@, i as int) == Seq::<Seq<char>>::empty());
    }
    while ends_blank(&out)
        invariant
            finish(out@) == finish(target),
        decreases out@.len(),
    {
        let ghost before = out@;
        out.pop();
        assert(out@ =~= before.drop_last());
    }
    if out.len() > 0 && out[out.len() - 1] != '\n' {
        out.push('\n');
    }
    string_of(&out)
}


pub open spec fn line_views(v: Seq<Vec<char>>) -> Seq<Seq<char>> {
    v.map_values(|x: Vec<char>| x@)
}

/// The lines of `s` as `str::lines` yields them.
pub fn split_lines(s: &Vec<char>) -> (ls: Vec<Vec<char>>)
    ensures
        line_views(ls@) == lines(s@),
{
    let n = s.len();
    let mut ls: Vec<Vec<char>> = Vec::new();
    let mut i: usize = 0;
    while i < n
        invariant
            n == s@.len(),
            i <= n,
            line_views(ls@) + lines_from(s@, i as int) == lines(s@),
        decreases n - i,
    {
        let k = find_newline(s, i);
        proof { lemma_lines_step(s@, i as int); }
        let mut raw = sub_chars(s, i, k);
        if k < n && raw.len() > 0 && raw[raw.len() - 1] == '\r' {
            raw.pop();
        }
        let ghost rest = if k < n { lines_from(s@, k + 1) } else { Seq::<Seq<char>>::empty() };
        proof {
            assert(raw@ == (if k < n { strip_cr(s@.subrange(i as int, k as int)) } else { s@.subrange(i as int, n as int) }));
            assert(lines_from(s@, i as int) == seq![raw@] + rest);
            if k >= n {
                assert(lines_from(s@, n as int) == Seq::<Seq<char>>::empty());
            }
        }
        let ghost before = ls@;
        ls.push(raw);
        proof {
            assert(line_views(ls@) =~= line_views(before).push(raw@));
            assert(line_views(ls@) + rest =~= line_views(before) + lines_from(s@, i as int));
        }
        i = if k < n { k + 1 } else { n };
    }
    proof {
        assert(lines_from(s@, i as int) == Seq::<Seq<char>>::empty());
        assert(line_views(ls@) + Seq::<Seq<char>>::empty() =~= line_views(ls@));
    }
    ls
}

// ---------------------------------------------------------------------------
// Idempotence

proof fn lemma_format_state_push(ls: Seq<Seq<char>>, l: Seq<char>, out: Seq<char>, indent: int)
    ensures
        format_state(ls.push(l), out, indent) == ({
            let st = format_state(ls, out, indent);
            format_step(st.0, st.1, l)
        }),
    decreases ls.len(),
{
    if ls.len() > 0 {
        let st = format_step(out, indent, ls[0]);
        assert(ls.push(l)[0] == ls[0]);
        assert(ls.push(l).drop_first() =~= ls.drop_first().push(l));
        lemma_format_state_push(ls.drop_first(), l, st.0, st.1);
    } else {
        assert(ls.push(l)[0] == l);
        assert(ls.push(l).drop_first() =~= Seq::<Seq<char>>::empty());
        let st = format_step(out, indent, l);
        assert(format_state(Seq::<Seq<char>>::empty(), st.0, st.1) == st);
        assert(format_state(ls, out, indent) == (out, indent));
    }
}

proof fn lemma_line_end_shift(s: Seq<char>, t: Seq<char>, j: int)
    requires
        0 <= j <= t.len(),
    ensures
        line_end(s + t, s.len() + j) == s.len() + line_end(t, j),
    decreases t.len() - j,
{
    if j < t.len() {
        assert((s + t)[s.len() + j] == t[j]);
        if t[j] != '\n' {
            lemma_line_end_shift(s, t, j + 1);
        }
    }
}

proof fn lemma_lines_shift(s: Seq<char>, t: Seq<char>, j: int)
    requires
        0 <= j <= t.len(),
    ensures
        lines_from(s + t, s.len() + j) == lines_from(t, j),
    decreases t.len() - j,
{
    if j < t.len() {
        lemma_line_end_shift(s, t, j);
        lemma_line_end_facts(t, j);
        let k = line_end(t, j);
        assert((s + t).subrange(s.len() + j, s.len() + k) =~= t.subrange(j, k));
        assert((s + t).subrange(s.len() + j, (s + t).len() as int) =~= t.subrange(j, t.len() as int));
        if k < t.len() {
            lemma_lines_shift(s, t, k + 1);
        }
    }
}

/// When `s` ends with a line break, the lines of `s + t` are those of `s`
/// followed by those of `t`.
proof fn lemma_lines_concat_from(s: Seq<char>, t: Seq<char>, i: int)
    requires
        s.len() > 0,
        s[s.len() - 1] == '\n',
        0 <= i <= s.len(),
    ensures
        lines_from(s + t, i) == lines_from(s, i) + lines_from(t, 0),
    decreases s.len() - i,
{
    if i == s.len() {
        lemma_lines_shift(s, t, 0);
        assert(lines_from(s, i) =~= Seq::<Seq<char>>::empty());
        assert(lines_from(s, i) + lines_from(t, 0) =~= lines_from(t, 0));
    } else {
        lemma_line_end_facts(s, i);
        lemma_line_end_facts(s + t, i);
        let k = line_end(s, i);
        assert(k < s.len()) by {
            if k >= s.len() {
                assert(s[s.len() - 1] != '\n');
            }
        }
        assert(line_end(s + t, i) == k) by {
            lemma_line_end_prefix(s, t, i);
        }
        assert((s + t).subrange(i, k) =~= s.subrange(i, k));
        lemma_lines_concat_from(s, t, k + 1);
        assert(lines_from(s + t, i) =~= seq![strip_cr(s.subrange(i, k))] + lines_from(s + t, k + 1));
        assert(lines_from(s, i) =~= seq![strip_cr(s.subrange(i, k))] + lines_from(s, k + 1));
        assert(lines_from(s + t, i) =~= lines_from(s, i) + lines_from(t, 0));
    }
}

proof fn lemma_line_end_prefix(s: Seq<char>, t: Seq<char>, i: int)
    requires
        0 <= i <= s.len(),
        line_end(s, i) < s.len(),
    ensures
        line_end(s + t, i) == line_end(s, i),
    decreases s.len() - i,
{
    if i < s.len() && s[i] != '\n' {
        assert((s + t)[i] == s[i]);
        lemma_line_end_prefix(s, t, i + 1);
    } else if i < s.len() {
        assert((s + t)[i] == s[i]);
    }
}

pub open spec fn no_newline(r: Seq<char>) -> bool {
    forall|k: int| 0 <= k < r.len() ==> #[trigger] r[k] != '\n'
}

/// A row followed by a line break is one line.
proof fn lemma_lines_row(r: Seq<char>)
    requires
        no_newline(r),
        r.len() == 0 || r[r.len() - 1] != '\r',
    ensures
        lines(r.push('\n')) == seq![r],
{
    let s = r.push('\n');
    lemma_line_end_facts(s, 0);
    assert(line_end(s, 0) == r.len()) by {
        lemma_line_end_exact(s, 0, r.len() as int);
    }
    assert(s.subrange(0, r.len() as int) =~= r);
    assert(lines_from(s, r.len() as int + 1) =~= Seq::<Seq<char>>::empty());
    assert(lines(s) =~= seq![r]);
}

proof fn lemma_line_end_exact(s: Seq<char>, i: int, k: int)
    requires
        0 <= i <= k < s.len(),
        s[k] == '\n',
        forall|m: int| i <= m < k ==> #[trigger] s[m] != '\n',
    ensures
        line_end(s, i) == k,
    decreases k - i,
{
    if i < k {
        lemma_line_end_exact(s, i + 1, k);
    }
}

/// Lines appended after a finished line break.
proof fn lemma_lines_append_row(out: Seq<char>, r: Seq<char>)
    requires
        out.len() == 0 || out[out.len() - 1] == '\n',
        no_newline(r),
        r.len() == 0 || r[r.len() - 1] != '\r',
    ensures
        lines(out + r.push('\n')) == lines(out).push(r),
{
    lemma_lines_row(r);
    if out.len() == 0 {
        assert(out + r.push('\n') =~= r.push('\n'));
        assert(lines(out) =~= Seq::<Seq<char>>::empty());
        assert(lines(out).push(r) =~= seq![r]);
    } else {
        lemma_lines_concat_from(out, r.push('\n'), 0);
        assert(lines(out) + seq![r] =~= lines(out).push(r));
    }
}

/// A row followed by a line break is one line: the row without a final
/// carriage return.
proof fn lemma_lines_row_cr(r: Seq<char>)
    requires
        no_newline(r),
    ensures
        lines(r.push('\n')) == seq![strip_cr(r)],
{
    let s = r.push('\n');
    lemma_line_end_facts(s, 0);
    assert(line_end(s, 0) == r.len()) by {
        lemma_line_end_exact(s, 0, r.len() as int);
    }
    assert(s.subrange(0, r.len() as int) =~= r);
    assert(lines_from(s, r.len() as int + 1) =~= Seq::<Seq<char>>::empty());
    assert(lines(s) =~= seq![strip_cr(r)]);
}

/// A row appended after a finished line break adds one line.
pub(crate) proof fn lemma_lines_append_cr(out: Seq<char>, r: Seq<char>)
    requires
        out.len() == 0 || out[out.len() - 1] == '\n',
        no_newline(r),
    ensures
        lines(out + r.push('\n')) == lines(out).push(strip_cr(r)),
{
    lemma_lines_row_cr(r);
    if out.len() == 0 {
        assert(out + r.push('\n') =~= r.push('\n'));
        assert(lines(out) =~= Seq::<Seq<char>>::empty());
        assert(lines(out).push(strip_cr(r)) =~= seq![strip_cr(r)]);
    } else {
        lemma_lines_concat_from(out, r.push('\n'), 0);
        assert(lines(out) + seq![strip_cr(r)] =~= lines(out).push(strip_cr(r)));
    }
}

proof fn lemma_spaces(n: int)
    requires
        n >= 0,
    ensures
        spaces(n).len() == n,
        forall|k: int| 0 <= k < n ==> #[trigger] spaces(n)[k] == ' ',
    decreases n,
{
    if n > 0 {
        lemma_spaces(n - 1);
    }
}

/// A trimmed, non-empty line.
pub open spec fn is_trimmed(t: Seq<char>) -> bool {
    t.len() > 0 && !is_ws(t[0]) && !is_ws(t[t.len() - 1])
}

proof fn lemma_trim_spaces(n: int, t: Seq<char>)
    requires
        n >= 0,
        is_trimmed(t),
    ensures
        trim(spaces(n) + t) == t,
{
    let s = spaces(n) + t;
    lemma_spaces(n);
    lemma_ws_start(s, 0);
    lemma_ws_end(s, s.len() as int);
    assert(ws_start(s, 0) == n) by {
        if ws_start(s, 0) < n {
            assert(s[ws_start(s, 0)] == ' ');
        }
        if ws_start(s, 0) > n {
            assert(s[n] == t[0]);
        }
    }
    assert(ws_end(s, s.len() as int) == s.len()) by {
        if ws_end(s, s.len() as int) < s.len() {
            assert(s[s.len() - 1] == t[t.len() - 1]);
        }
    }
    assert(s.subrange(n, s.len() as int) =~= t);
}

proof fn lemma_trim_facts(s: Seq<char>)
    ensures
        trim(s).len() == 0 || is_trimmed(trim(s)),
        no_newline(s) ==> no_newline(trim(s)),
{
    lemma_ws_start(s, 0);
    lemma_ws_end(s, s.len() as int);
    let a = ws_start(s, 0);
    let b = ws_end(s, s.len() as int);
    if a < b {
        assert(trim(s)[0] == s[a]);
        assert(trim(s)[trim(s).len() - 1] == s[b - 1]);
        if no_newline(s) {
            assert forall|k: int| 0 <= k < trim(s).len() implies #[trigger] trim(s)[k] != '\n' by {
                assert(trim(s)[k] == s[a + k]);
            }
        }
    }
}

/// The output so far reproduces itself when its own lines are formatted.
pub open spec fn stable(out: Seq<char>, indent: int) -> bool {
    format_state(lines(out), Seq::empty(), 0) == (out, indent)
}

/// What holds of the output after every input line.
pub open spec fn format_inv(out: Seq<char>, indent: int) -> bool {
    &&& indent >= 0
    &&& stable(out, indent)
    &&& (out.len() > 0 ==> out[out.len() - 1] == '\n')
    &&& (ends_with_blank(out) ==> stable(out.drop_last(), indent) && !ends_with_blank(out.drop_last())
        && out.drop_last().len() > 0)
}

proof fn lemma_step_inv(out: Seq<char>, indent: int, raw: Seq<char>)
    requires
        format_inv(out, indent),
        no_newline(raw),
    ensures
        format_inv(format_step(out, indent, raw).0, format_step(out, indent, raw).1),
{
    let line = trim(raw);
    lemma_trim_facts(raw);
    let st = format_step(out, indent, raw);
    if line.len() == 0 {
        if !ends_with_blank(out) && out.len() > 0 {
            let empty = Seq::<char>::empty();
            assert(empty.push('\n') =~= seq!['\n']);
            lemma_lines_append_row(out, empty);
            assert(out + empty.push('\n') =~= out.push('\n'));
            lemma_format_state_push(lines(out), empty, Seq::empty(), 0);
            assert(trim(empty) =~= empty);
            assert(out.push('\n').drop_last() =~= out);
        }
    } else {
        let shape = brace_shape_spec(line);
        let ind1 = if shape.2 { sat_sub(indent, 1) } else { indent };
        let row = spaces(4 * ind1) + line;
        lemma_spaces(4 * ind1);
        assert(no_newline(row)) by {
            assert forall|k: int| 0 <= k < row.len() implies #[trigger] row[k] != '\n' by {
                if k < 4 * ind1 {
                    assert(row[k] == ' ');
                } else {
                    assert(row[k] == line[k - 4 * ind1]);
                }
            }
        }
        assert(row[row.len() - 1] == line[line.len() - 1]);
        lemma_lines_append_row(out, row);
        assert(out + row.push('\n') =~= (out + spaces(4 * ind1) + line).push('\n'));
        lemma_format_state_push(lines(out), row, Seq::empty(), 0);
        lemma_trim_spaces(4 * ind1, line);
        let o2 = (out + spaces(4 * ind1) + line).push('\n');
        assert(o2[o2.len() - 2] == line[line.len() - 1]);
    }
}

pub(crate) proof fn lemma_lines_no_newline(s: Seq<char>, i: int)
    requires
        0 <= i <= s.len(),
    ensures
        forall|k: int| 0 <= k < lines_from(s, i).len() ==> no_newline(#[trigger] lines_from(s, i)[k]),
    decreases s.len() - i,
{
    if i < s.len() {
        lemma_line_end_facts(s, i);
        let k = line_end(s, i);
        if k < s.len() {
            lemma_lines_no_newline(s, k + 1);
            let first = strip_cr(s.subrange(i, k));
            assert(no_newline(first)) by {
                assert forall|m: int| 0 <= m < first.len() implies #[trigger] first[m] != '\n' by {
                    assert(first[m] == s[i + m]);
                }
            }
            assert forall|m: int| 0 <= m < lines_from(s, i).len() implies no_newline(#[trigger] lines_from(s, i)[m]) by {
                if m > 0 {
                    assert(lines_from(s, i)[m] == lines_from(s, k + 1)[m - 1]);
                }
            }
        } else {
            let only = s.subrange(i, s.len() as int);
            assert(no_newline(only)) by {
                assert forall|m: int| 0 <= m < only.len() implies #[trigger] only[m] != '\n' by {
                    assert(only[m] == s[i + m]);
                }
            }
        }
    }
}

proof fn lemma_format_state_inv(ls: Seq<Seq<char>>, out: Seq<char>, indent: int)
    requires
        format_inv(out, indent),
        forall|k: int| 0 <= k < ls.len() ==> no_newline(#[trigger] ls[k]),
    ensures
        format_inv(format_state(ls, out, indent).0, format_state(ls, out, indent).1),
    decreases ls.len(),
{
    if ls.len() > 0 {
        lemma_step_inv(out, indent, ls[0]);
        let st = format_step(out, indent, ls[0]);
        assert forall|k: int| 0 <= k < ls.drop_first().len() implies no_newline(#[trigger] ls.drop_first()[k]) by {
            assert(ls.drop_first()[k] == ls[k + 1]);
        }
        lemma_format_state_inv(ls.drop_first(), st.0, st.1);
    }
}

/// Formatting is idempotent: formatting already formatted source changes
/// nothing.
pub proof fn law_format_idempotent(source: Seq<char>)
    ensures
        format_spec(format_spec(source)) == format_spec(source),
{
    let empty = Seq::<char>::empty();
    assert(lines(empty) =~= Seq::<Seq<char>>::empty());
    assert(format_inv(empty, 0));
    lemma_lines_no_newline(source, 0);
    lemma_format_state_inv(lines(source), empty, 0);
    let st = format_state(lines(source), empty, 0);
    let raw = st.0;
    let f = finish(raw);
    let g = if ends_with_blank(raw) { raw.drop_last() } else { raw };
    assert(f == g && stable(g, st.1) && !ends_with_blank(g) && (g.len() > 0 ==> g[g.len() - 1] == '\n')) by {
        if ends_with_blank(raw) {
            let d = raw.drop_last();
            assert(d[d.len() - 1] == '\n');
            assert(finish(d) == d);
        }
    }
    assert(format_spec(f) == finish(format_state(lines(f), empty, 0).0));
}

// ---------------------------------------------------------------------------
// Laws of indentation

/// How many times `c` occurs in `line` from index `i` on.
pub open spec fn count_from(line: Seq<char>, c: char, i: int) -> int
    decreases line.len() - i,
{
    if i < 0 || i >= line.len() {
        0
    } else {
        (if line[i] == c { 1int } else { 0int }) + count_from(line, c, i + 1)
    }
}

proof fn lemma_plain_scan(line: Seq<char>, i: int)
    requires
        0 <= i <= line.len(),
        forall|k: int| 0 <= k < line.len() ==> line[k] != '"' && line[k] != '/',
    ensures
        brace_scan(line, i, false, false) == (count_from(line, '{', i), count_from(line, '}', i)),
    decreases line.len() - i,
{
    if i < line.len() {
        lemma_plain_scan(line, i + 1);
    }
}

/// On a line with no string literal and no comment, the braces the
/// formatter counts are exactly the `{` and `}` characters of the line.
pub proof fn law_brace_counts(line: Seq<char>)
    requires
        forall|k: int| 0 <= k < line.len() ==> line[k] != '"' && line[k] != '/',
    ensures
        brace_shape_spec(line).0 == count_from(line, '{', 0),
        brace_shape_spec(line).1 == count_from(line, '}', 0),
{
    lemma_plain_scan(line, 0);
}

/// Formatting a non-blank line writes it trimmed, indented four spaces per
/// level (one level less when it starts with `}`), and moves the depth by
/// its unquoted, uncommented `{` count minus its `}` count, stopping at
/// zero; so a line with balanced braces leaves the depth as it was. (A line
/// that starts with `}` at depth zero is left out: its leading `}` closes
/// nothing.)
pub proof fn law_format_depth(out: Seq<char>, indent: int, raw: Seq<char>)
    requires
        indent >= 0,
        trim(raw).len() > 0,
        !(trim(raw)[0] == '}' && indent == 0),
    ensures
        ({
            let line = trim(raw);
            let opens = brace_shape_spec(line).0;
            let closes = brace_shape_spec(line).1;
            let level = if line[0] == '}' { indent - 1 } else { indent };
            &&& format_step(out, indent, raw).0 == out + spaces(4 * level) + line + "\n"@
            &&& format_step(out, indent, raw).1 == sat_sub(indent + opens, closes)
            &&& opens == closes ==> format_step(out, indent, raw).1 == indent
        }),
{
    let line = trim(raw);
    lemma_brace_scan_bounds(line, 0, false, false);
    let shape = brace_shape_spec(line);
    if line[0] == '}' {
        assert(brace_scan(line, 0, false, false).1 >= 1) by {
            lemma_brace_scan_bounds(line, 1, false, false);
        }
    }
    reveal_strlit("\n");
    let ind1 = if shape.2 { sat_sub(indent, 1) } else { indent };
    assert((out + spaces(4 * ind1) + line).push('\n') =~= out + spaces(4 * ind1) + line + "\n"@);
}

/// Lines whose braces balance and that do not start with `}` leave the
/// depth where it was, whatever their number.
pub proof fn law_balanced_lines_keep_depth(ls: Seq<Seq<char>>, out: Seq<char>, indent: int)
    requires
        indent >= 0,
        forall|k: int| 0 <= k < ls.len() && trim(#[trigger] ls[k]).len() > 0 ==> trim(ls[k])[0] != '}'
            && brace_shape_spec(trim(ls[k])).0 == brace_shape_spec(trim(ls[k])).1,
    ensures
        format_state(ls, out, indent).1 == indent,
    decreases ls.len(),
{
    if ls.len() > 0 {
        let st = format_step(out, indent, ls[0]);
        if trim(ls[0]).len() > 0 {
            law_format_depth(out, indent, ls[0]);
        }
        assert forall|k: int| 0 <= k < ls.drop_first().len() && trim(#[trigger] ls.drop_first()[k]).len() > 0 implies trim(
            ls.drop_first()[k],
        )[0] != '}' && brace_shape_spec(trim(ls.drop_first()[k])).0 == brace_shape_spec(trim(ls.drop_first()[k])).1 by {
            assert(ls.drop_first()[k] == ls[k + 1]);
        }
        law_balanced_lines_keep_depth(ls.drop_first(), st.0, st.1);
    }
}

// ---------------------------------------------------------------------------
// Laws of the output's shape

/// Text with no blank line at its start, never two blank lines in a row,
/// no white space at the end of a line, and a line break at its end.
pub open spec fn tidy(s: Seq<char>) -> bool {
    &&& s.len() == 0 || s[s.len() - 1] == '\n'
    &&& s.len() > 0 ==> s[0] != '\n'
    &&& forall|i: int| 0 <= i < s.len() - 2 ==> !(#[trigger] s[i] == '\n' && s[i + 1] == '\n' && s[i + 2] == '\n')
    &&& forall|i: int| 0 <= i < s.len() - 1 && s[i + 1] == '\n' ==> (#[trigger] s[i]) == '\n' || !is_ws(s[i])
}

proof fn lemma_word(pre: Seq<char>, line: Seq<char>)
    requires
        is_trimmed(line),
        no_newline(line),
        forall|k: int| 0 <= k < pre.len() ==> #[trigger] pre[k] == ' ',
    ensures
        (pre + line).len() > 0,
        no_newline(pre + line),
        !is_ws((pre + line)[(pre + line).len() - 1]),
{
    let w = pre + line;
    assert forall|k: int| 0 <= k < w.len() implies #[trigger] w[k] != '\n' by {
        if k < pre.len() {
            assert(w[k] == pre[k]);
        } else {
            assert(w[k] == line[k - pre.len()]);
        }
    }
    assert(w[w.len() - 1] == line[line.len() - 1]);
}

proof fn lemma_tidy_triples(out: Seq<char>, w: Seq<char>)
    requires
        tidy(out),
        w.len() > 0,
        no_newline(w),
    ensures
        ({
            let r = out + w + "\n"@;
            forall|i: int| 0 <= i < r.len() - 2 ==> !(#[trigger] r[i] == '\n' && r[i + 1] == '\n' && r[i + 2] == '\n')
        }),
{
    reveal_strlit("\n");
    let r = out + w + "\n"@;
    let n: int = out.len() as int;
    assert forall|i: int| 0 <= i < r.len() - 2 implies !(#[trigger] r[i] == '\n' && r[i + 1] == '\n' && r[i + 2] == '\n') by {
        if i + 2 < n {
            assert(r[i] == out[i] && r[i + 1] == out[i + 1] && r[i + 2] == out[i + 2]);
        } else if i + 2 < n + w.len() {
            assert(r[i + 2] == w[i + 2 - n]);
        } else {
            assert(r[i + 1] == w[i + 1 - n]);
        }
    }
}

proof fn lemma_tidy_ends(out: Seq<char>, w: Seq<char>)
    requires
        tidy(out),
        w.len() > 0,
        no_newline(w),
        !is_ws(w[w.len() - 1]),
    ensures
        ({
            let r = out + w + "\n"@;
            forall|i: int| 0 <= i < r.len() - 1 && r[i + 1] == '\n' ==> (#[trigger] r[i]) == '\n' || !is_ws(r[i])
        }),
{
    reveal_strlit("\n");
    let r = out + w + "\n"@;
    let n: int = out.len() as int;
    assert forall|i: int| 0 <= i < r.len() - 1 && r[i + 1] == '\n' implies (#[trigger] r[i]) == '\n' || !is_ws(r[i]) by {
        if i + 1 < n {
            assert(r[i] == out[i] && r[i + 1] == out[i + 1]);
        } else if i + 1 < n + w.len() {
            assert(r[i + 1] == w[i + 1 - n]);
        } else {
            assert(r[i] == w[w.len() - 1]);
        }
    }
}

proof fn lemma_tidy_line(out: Seq<char>, pre: Seq<char>, line: Seq<char>)
    requires
        tidy(out),
        is_trimmed(line),
        no_newline(line),
        forall|k: int| 0 <= k < pre.len() ==> #[trigger] pre[k] == ' ',
    ensures
        tidy(out + pre + line + "\n"@),
{
    reveal_strlit("\n");
    lemma_word(pre, line);
    let w = pre + line;
    lemma_tidy_triples(out, w);
    lemma_tidy_ends(out, w);
    assert(out + pre + line + "\n"@ =~= out + w + "\n"@);
    let r = out + w + "\n"@;
    assert(r[r.len() - 1] == '\n');
    if out.len() == 0 {
        assert(r[0] == w[0]);
    } else {
        assert(r[0] == out[0]);
    }
}

proof fn lemma_tidy_step(out: Seq<char>, indent: int, raw: Seq<char>)
    requires
        tidy(out),
        no_newline(raw),
        indent >= 0,
    ensures
        tidy(format_step(out, indent, raw).0),
        format_step(out, indent, raw).1 >= 0,
{
    let line = trim(raw);
    lemma_trim_facts(raw);
    if line.len() == 0 {
        if !ends_with_blank(out) && out.len() > 0 {
            let r = out.push('\n');
            assert forall|i: int| 0 <= i < r.len() - 2 implies !(#[trigger] r[i] == '\n' && r[i + 1] == '\n' && r[i + 2] == '\n') by {
                if i + 2 < out.len() {
                    assert(r[i] == out[i] && r[i + 1] == out[i + 1] && r[i + 2] == out[i + 2]);
                } else {
                    assert(r[i] == out[out.len() - 2] && r[i + 1] == out[out.len() - 1]);
                }
            }
            assert forall|i: int| 0 <= i < r.len() - 1 && r[i + 1] == '\n' implies (#[trigger] r[i]) == '\n' || !is_ws(r[i]) by {
                if i + 1 < out.len() {
                    assert(r[i] == out[i] && r[i + 1] == out[i + 1]);
                } else {
                    assert(r[i] == out[out.len() - 1]);
                }
            }
            assert(r[0] == out[0]);
        }
    } else {
        let shape = brace_shape_spec(line);
        let ind1 = if shape.2 { sat_sub(indent, 1) } else { indent };
        lemma_spaces(4 * ind1);
        lemma_tidy_line(out, spaces(4 * ind1), line);
        reveal_strlit("\n");
        assert((out + spaces(4 * ind1) + line).push('\n') =~= out + spaces(4 * ind1) + line + "\n"@);
        lemma_brace_scan_bounds(line, 0, false, false);
    }
}

proof fn lemma_tidy_state(ls: Seq<Seq<char>>, out: Seq<char>, indent: int)
    requires
        tidy(out),
        indent >= 0,
        forall|k: int| 0 <= k < ls.len() ==> no_newline(#[trigger] ls[k]),
    ensures
        tidy(format_state(ls, out, indent).0),
    decreases ls.len(),
{
    if ls.len() > 0 {
        lemma_tidy_step(out, indent, ls[0]);
        let st = format_step(out, indent, ls[0]);
        assert forall|k: int| 0 <= k < ls.drop_first().len() implies no_newline(#[trigger] ls.drop_first()[k]) by {
            assert(ls.drop_first()[k] == ls[k + 1]);
        }
        lemma_tidy_state(ls.drop_first(), st.0, st.1);
    }
}

proof fn lemma_tidy_finish(out: Seq<char>)
    requires
        tidy(out),
    ensures
        tidy(finish(out)),
        !ends_with_blank(finish(out)),
    decreases out.len(),
{
    if ends_with_blank(out) {
        let d = out.drop_last();
        assert forall|i: int| 0 <= i < d.len() - 2 implies !(#[trigger] d[i] == '\n' && d[i + 1] == '\n' && d[i + 2] == '\n') by {
            assert(d[i] == out[i] && d[i + 1] == out[i + 1] && d[i + 2] == out[i + 2]);
        }
        assert forall|i: int| 0 <= i < d.len() - 1 && d[i + 1] == '\n' implies (#[trigger] d[i]) == '\n' || !is_ws(d[i]) by {
            assert(d[i] == out[i] && d[i + 1] == out[i + 1]);
        }
        lemma_tidy_finish(d);
    }
}

/// Formatted text starts with no blank line, never holds two blank lines
/// in a row, ends no line with white space, ends with a line break unless
/// empty, and does not end with a blank line.
pub proof fn law_format_tidy(source: Seq<char>)
    ensures
        tidy(format_spec(source)),
        !ends_with_blank(format_spec(source)),
{
    lemma_lines_no_newline(source, 0);
    lemma_tidy_state(lines(source), Seq::empty(), 0);
    lemma_tidy_finish(format_lines(lines(source), Seq::empty(), 0));
}

} // verus!
