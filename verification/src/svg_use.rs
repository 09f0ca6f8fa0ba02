//! Local `<use>` instances as SRNG references: the imported block of each
//! instance becomes a `reference` to its target, drops its `use-*` payload
//! lines and carries the instance's position, size, target and paint.
use vstd::prelude::*;
use crate::font::{strip_back, strip_front};
use crate::formatter::{is_ws, line_views, lines, split_lines, trim, trim_chars, ws, ws_start};
use crate::ir::decimal;
use crate::length::{px_max0, px_wf, Px};
use crate::props::copy_chars;
use crate::srctext::{ends_with, ends_with_exec, starts_with, starts_with_exec, trim_start};
use crate::svg_import::{diag_view, diags_of, safe_ident, safe_ident_exec, DiagV, ImportDiagnostic};
use crate::svg_v4::{display_px, num4, num4_exec, push_display_px, quote4, quote4_exec};
use crate::text::{append_chars, append_str, chars_of, string_of, sub_chars};
use crate::xml::{attr, element_view, elements_view, get_attr, xml_elements, ElementView, XmlElement};

verus! {

// ---------------------------------------------------------------------------
// Blocks of SRNG text

/// One past the end of the word that starts at `i`.
pub open spec fn word_end(s: Seq<char>, i: int) -> int
    decreases s.len() - i,
{
    if i < 0 || i >= s.len() {
        i
    } else if is_ws(s[i]) {
        i
    } else {
        word_end(s, i + 1)
    }
}

/// The second white-space separated word of `t`, if it has two.
pub open spec fn second_word(t: Seq<char>) -> Option<Seq<char>> {
    let a = ws_start(t, 0);
    let b = word_end(t, a);
    let c = ws_start(t, b);
    if 0 <= c < t.len() && c <= word_end(t, c) <= t.len() {
        Some(t.subrange(c, word_end(t, c)))
    } else {
        None
    }
}

/// The id a trimmed line opens a block for: a line ending in `{` that is
/// not a relation and has at least two words.
pub open spec fn block_head(t: Seq<char>) -> Option<Seq<char>> {
    if ends_with(t, "{"@) && !starts_with(t, "relation "@) {
        second_word(strip_back(t, '{'))
    } else {
        None
    }
}

/// The first line from `j` on that is a lone `}`.
pub open spec fn close_from(ls: Seq<Seq<char>>, j: int) -> int
    decreases ls.len() - j,
{
    if j < 0 || j >= ls.len() {
        ls.len() as int
    } else if trim(ls[j]) == "}"@ {
        j
    } else {
        close_from(ls, j + 1)
    }
}

pub struct BlockV {
    pub id: Seq<char>,
    pub header: Seq<char>,
    pub lines: Seq<Seq<char>>,
    pub start: int,
    pub end: int,
}

/// The closed blocks from line `i` on.
pub open spec fn blocks_from(ls: Seq<Seq<char>>, i: int) -> Seq<BlockV>
    decreases ls.len() - i,
{
    if i < 0 || i >= ls.len() {
        Seq::empty()
    } else {
        match block_head(trim(ls[i])) {
            Some(id) => {
                let j = close_from(ls, i + 1);
                if i < j < ls.len() {
                    seq![BlockV { id, header: ls[i], lines: ls.subrange(i + 1, j), start: i, end: j }] + blocks_from(ls, j + 1)
                } else {
                    blocks_from(ls, i + 1)
                }
            },
            None => blocks_from(ls, i + 1),
        }
    }
}

/// Lines, each followed by a line break.
pub open spec fn joined(ls: Seq<Seq<char>>) -> Seq<char>
    decreases ls.len(),
{
    if ls.len() == 0 {
        Seq::empty()
    } else {
        joined(ls.drop_last()) + ls.last() + "\n"@
    }
}

/// The last of the first `k` blocks that starts at line `i`.
pub open spec fn block_at(bs: Seq<BlockV>, i: int, k: int) -> Option<BlockV>
    decreases k,
{
    if k <= 0 || k > bs.len() {
        None
    } else if bs[k - 1].start == i {
        Some(bs[k - 1])
    } else {
        block_at(bs, i, k - 1)
    }
}

/// The text from line `i` on, with each block written out from its record.
pub open spec fn render_from(ls: Seq<Seq<char>>, bs: Seq<BlockV>, i: int) -> Seq<char>
    decreases ls.len() - i,
{
    if i < 0 || i >= ls.len() {
        Seq::empty()
    } else {
        match block_at(bs, i, bs.len() as int) {
            Some(b) => if b.end >= i {
                b.header + "\n"@ + joined(b.lines) + "}\n"@ + if b.end < ls.len() {
                    render_from(ls, bs, b.end + 1)
                } else {
                    Seq::empty()
                }
            } else {
                ls[i] + "\n"@ + render_from(ls, bs, i + 1)
            },
            None => ls[i] + "\n"@ + render_from(ls, bs, i + 1),
        }
    }
}

pub struct Block {
    pub id: Vec<char>,
    pub header: Vec<char>,
    pub lines: Vec<Vec<char>>,
    pub start: usize,
    pub end: usize,
}

pub open spec fn block_view(b: Block) -> BlockV {
    BlockV { id: b.id@, header: b.header@, lines: line_views(b.lines@), start: b.start as int, end: b.end as int }
}

pub open spec fn blocks_view(bs: Seq<Block>) -> Seq<BlockV> {
    bs.map_values(|b: Block| block_view(b))
}

fn word_end_exec(s: &Vec<char>, i: usize) -> (r: usize)
    requires
        i <= s@.len(),
    ensures
        r == word_end(s@, i as int),
        i <= r <= s@.len(),
{
    let mut k = i;
    while k < s.len() && !ws(s[k])
        invariant
            i <= k <= s@.len(),
            word_end(s@, k as int) == word_end(s@, i as int),
        decreases s@.len() - k,
    {
        k += 1;
    }
    k
}

fn ws_start_exec(s: &Vec<char>, i: usize) -> (r: usize)
    requires
        i <= s@.len(),
    ensures
        r == ws_start(s@, i as int),
        i <= r <= s@.len(),
{
    let mut k = i;
    while k < s.len() && ws(s[k])
        invariant
            i <= k <= s@.len(),
            ws_start(s@, k as int) == ws_start(s@, i as int),
        decreases s@.len() - k,
    {
        k += 1;
    }
    k
}

pub(crate) fn second_word_exec(t: &Vec<char>) -> (r: Option<Vec<char>>)
    ensures
        match second_word(t@) {
            Some(w) => r is Some && r->0@ == w,
            None => r is None,
        },
{
    let a = ws_start_exec(t, 0);
    let b = word_end_exec(t, a);
    let c = ws_start_exec(t, b);
    if c < t.len() {
        let d = word_end_exec(t, c);
        Some(sub_chars(t, c, d))
    } else {
        None
    }
}

fn strip_back_exec(s: &Vec<char>, c: char) -> (r: Vec<char>)
    ensures
        r@ == strip_back(s@, c),
{
    let mut b = s.len();
    assert(s@.subrange(0, b as int) =~= s@);
    while b > 0 && s[b - 1] == c
        invariant
            b <= s@.len(),
            strip_back(s@.subrange(0, b as int), c) == strip_back(s@, c),
        decreases b,
    {
        assert(s@.subrange(0, b as int).drop_last() =~= s@.subrange(0, b - 1));
        b -= 1;
    }
    sub_chars(s, 0, b)
}

fn block_head_exec(t: &Vec<char>) -> (r: Option<Vec<char>>)
    ensures
        match block_head(t@) {
            Some(w) => r is Some && r->0@ == w,
            None => r is None,
        },
{
    if ends_with_exec(t, "{") && !starts_with_exec(t, "relation ") {
        second_word_exec(&strip_back_exec(t, '{'))
    } else {
        None
    }
}

fn is_close(l: &Vec<char>) -> (b: bool)
    ensures
        b == (trim(l@) == "}"@),
{
    let t = trim_chars(l);
    proof {
        reveal_strlit("}");
    }
    let b = t.len() == 1 && t[0] == '}';
    if b {
        assert(t@ =~= "}"@);
    }
    b
}

fn copy_lines(ls: &Vec<Vec<char>>, from: usize, to: usize) -> (r: Vec<Vec<char>>)
    requires
        from <= to <= ls@.len(),
    ensures
        line_views(r@) == line_views(ls@).subrange(from as int, to as int),
{
    let mut out: Vec<Vec<char>> = Vec::new();
    let mut k = from;
    while k < to
        invariant
            from <= k <= to,
            to <= ls@.len(),
            line_views(out@) == line_views(ls@).subrange(from as int, k as int),
        decreases to - k,
    {
        let ghost before = line_views(out@);
        out.push(copy_chars(&ls[k]));
        assert(line_views(out@) =~= before.push(line_views(ls@)[k as int]));
        assert(line_views(ls@).subrange(from as int, k + 1) =~= line_views(ls@).subrange(from as int, k as int).push(
            line_views(ls@)[k as int]));
        k += 1;
    }
    out
}

/// The closed blocks of the lines `ls`.
pub fn parse_blocks(ls: &Vec<Vec<char>>) -> (r: Vec<Block>)
    ensures
        blocks_view(r@) == blocks_from(line_views(ls@), 0),
{
    let ghost lv = line_views(ls@);
    let n = ls.len();
    let mut out: Vec<Block> = Vec::new();
    let mut i: usize = 0;
    while i < n
        invariant
            i <= n,
            n == ls@.len(),
            lv == line_views(ls@),
            blocks_view(out@) + blocks_from(lv, i as int) == blocks_from(lv, 0),
        decreases n - i,
    {
        assert(lv[i as int] == ls@[i as int]@);
        match block_head_exec(&trim_chars(&ls[i])) {
            Some(id) => {
                let mut j = i + 1;
                while j < n && !is_close(&ls[j])
                    invariant
                        i < j <= n,
                        n == ls@.len(),
                        lv == line_views(ls@),
                        close_from(lv, j as int) == close_from(lv, i + 1),
                    decreases n - j,
                {
                    assert(lv[j as int] == ls@[j as int]@);
                    j += 1;
                }
                proof {
                    if j < n {
                        assert(lv[j as int] == ls@[j as int]@);
                    }
                }
                if j < n {
                    let b = Block { id, header: copy_chars(&ls[i]), lines: copy_lines(ls, i + 1, j), start: i, end: j };
                    let ghost before = blocks_view(out@);
                    let ghost bv = block_view(b);
                    out.push(b);
                    assert(blocks_view(out@) =~= before.push(bv));
                    assert(blocks_from(lv, i as int) == seq![bv] + blocks_from(lv, j + 1));
                    assert(blocks_view(out@) + blocks_from(lv, j + 1) =~= before + blocks_from(lv, i as int));
                    i = j + 1;
                } else {
                    i += 1;
                }
            },
            None => {
                i += 1;
            },
        }
    }
    assert(blocks_view(out@) =~= blocks_from(lv, 0));
    out
}

pub(crate) fn push_joined(out: &mut Vec<char>, ls: &Vec<Vec<char>>)
    ensures
        final(out)@ == old(out)@ + joined(line_views(ls@)),
{
    let ghost start = out@;
    let ghost lv = line_views(ls@);
    let mut k: usize = 0;
    while k < ls.len()
        invariant
            k <= ls@.len(),
            lv == line_views(ls@),
            out@ == start + joined(lv.subrange(0, k as int)),
        decreases ls@.len() - k,
    {
        assert(lv.subrange(0, k + 1).drop_last() =~= lv.subrange(0, k as int));
        append_chars(out, &ls[k]);
        out.push('\n');
        proof {
            reveal_strlit("\n");
        }
        assert(out@ =~= start + joined(lv.subrange(0, k + 1)));
        k += 1;
    }
    assert(lv.subrange(0, ls@.len() as int) =~= lv);
}

fn block_at_exec(bs: &Vec<Block>, i: usize) -> (r: Option<usize>)
    ensures
        match block_at(blocks_view(bs@), i as int, bs@.len() as int) {
            Some(b) => r is Some && r->0 < bs@.len() && block_view(bs@[r->0 as int]) == b,
            None => r is None,
        },
{
    let ghost bv = blocks_view(bs@);
    let mut k = bs.len();
    while k > 0
        invariant
            k <= bs@.len(),
            bv == blocks_view(bs@),
            block_at(bv, i as int, k as int) == block_at(bv, i as int, bs@.len() as int),
        decreases k,
    {
        assert(bv[k - 1] == block_view(bs@[k - 1]));
        if bs[k - 1].start == i {
            return Some(k - 1);
        }
        k -= 1;
    }
    None
}

/// Writes the lines back, each block from its record.
pub fn render_blocks(ls: &Vec<Vec<char>>, bs: &Vec<Block>) -> (r: Vec<char>)
    ensures
        r@ == render_from(line_views(ls@), blocks_view(bs@), 0),
{
    let ghost lv = line_views(ls@);
    let ghost bv = blocks_view(bs@);
    let n = ls.len();
    let mut out: Vec<char> = Vec::new();
    let mut i: usize = 0;
    while i < n
        invariant
            n == ls@.len(),
            lv == line_views(ls@),
            bv == blocks_view(bs@),
            out@ + render_from(lv, bv, i as int) == render_from(lv, bv, 0),
        decreases n - i,
    {
        let ghost before = out@;
        proof {
            reveal_strlit("\n");
            reveal_strlit("}\n");
        }
        assert(lv[i as int] == ls@[i as int]@);
        assert(bv.len() == bs@.len());
        match block_at_exec(bs, i) {
            Some(k) => {
                let b = &bs[k];
                assert(block_at(bv, i as int, bv.len() as int) == Some(block_view(*b)));
                if b.end >= i {
                    append_chars(&mut out, &b.header);
                    out.push('\n');
                    push_joined(&mut out, &b.lines);
                    out.push('}');
                    out.push('\n');
                    assert(out@ + render_from(lv, bv, b.end + 1) =~= before + render_from(lv, bv, i as int));
                    if b.end >= n {
                        assert(render_from(lv, bv, b.end + 1) == Seq::<char>::empty());
                        assert(out@ =~= render_from(lv, bv, 0));
                        return out;
                    }
                    i = b.end + 1;
                } else {
                    append_chars(&mut out, &ls[i]);
                    out.push('\n');
                    assert(out@ + render_from(lv, bv, i + 1) =~= before + render_from(lv, bv, i as int));
                    i += 1;
                }
            },
            None => {
                append_chars(&mut out, &ls[i]);
                out.push('\n');
                assert(out@ + render_from(lv, bv, i + 1) =~= before + render_from(lv, bv, i as int));
                i += 1;
            },
        }
    }
    assert(render_from(lv, bv, i as int) == Seq::<char>::empty());
    assert(out@ =~= render_from(lv, bv, 0));
    out
}


// ---------------------------------------------------------------------------
// The instances

pub struct UseV {
    pub id: Seq<char>,
    pub index: int,
    pub href: Seq<char>,
}

/// The `<use>` elements among the first `k` elements: identifier (from `id`,
/// else numbered in document order), element index and trimmed `href`.
pub open spec fn uses_from(els: Seq<ElementView>, k: int) -> Seq<UseV>
    decreases k,
{
    if k <= 0 || k > els.len() {
        Seq::empty()
    } else {
        let prev = uses_from(els, k - 1);
        let e = els[k - 1];
        if e.name == "use"@ {
            let raw = match attr(e, "id"@) {
                Some(v) => v,
                None => "use_"@ + decimal((prev.len() + 1) as nat),
            };
            let href = match attr(e, "href"@) {
                Some(h) => trim(h),
                None => Seq::empty(),
            };
            prev.push(UseV { id: safe_ident(raw), index: k - 1, href })
        } else {
            prev
        }
    }
}

/// The distinct identifiers among the first `k` instances, in the order
/// they first occur.
pub open spec fn first_ids(us: Seq<UseV>, k: int) -> Seq<Seq<char>>
    decreases k,
{
    if k <= 0 || k > us.len() {
        Seq::empty()
    } else {
        let prev = first_ids(us, k - 1);
        if prev.contains(us[k - 1].id) { prev } else { prev.push(us[k - 1].id) }
    }
}

/// The last of the first `k` instances with identifier `id`.
pub open spec fn last_use(us: Seq<UseV>, id: Seq<char>, k: int) -> Option<UseV>
    decreases k,
{
    if k <= 0 || k > us.len() {
        None
    } else if us[k - 1].id == id {
        Some(us[k - 1])
    } else {
        last_use(us, id, k - 1)
    }
}

/// The index of the first block from `j` on with identifier `id`.
pub open spec fn first_block(bs: Seq<BlockV>, id: Seq<char>, j: int) -> Option<int>
    decreases bs.len() - j,
{
    if j < 0 || j >= bs.len() {
        None
    } else if bs[j].id == id {
        Some(j)
    } else {
        first_block(bs, id, j + 1)
    }
}

// ---------------------------------------------------------------------------
// Reference blocks

pub open spec fn payload_line(l: Seq<char>) -> bool {
    let t = trim_start(l);
    starts_with(t, "use-data:"@) || starts_with(t, "use-fill:"@) || starts_with(t, "use-stroke:"@)
}

/// The lines without `use-data`, `use-fill` and `use-stroke` payloads.
pub open spec fn kept_lines(ls: Seq<Seq<char>>) -> Seq<Seq<char>>
    decreases ls.len(),
{
    if ls.len() == 0 {
        Seq::empty()
    } else {
        kept_lines(ls.drop_last()) + if payload_line(ls.last()) { Seq::empty() } else { seq![ls.last()] }
    }
}

pub open spec fn use_prop(key: Seq<char>, value: Seq<char>) -> Seq<char> {
    "    "@ + key + ": "@ + value + ";"@
}

/// The first line from `j` on that sets `prefix`.
pub open spec fn prop_index(ls: Seq<Seq<char>>, prefix: Seq<char>, j: int) -> int
    decreases ls.len() - j,
{
    if j < 0 || j >= ls.len() {
        ls.len() as int
    } else if starts_with(trim_start(ls[j]), prefix) {
        j
    } else {
        prop_index(ls, prefix, j + 1)
    }
}

/// Sets `key` to `value`: its first line is rewritten, or a line is added.
pub open spec fn ensure_prop(ls: Seq<Seq<char>>, key: Seq<char>, value: Seq<char>) -> Seq<Seq<char>> {
    let j = prop_index(ls, key + ":"@, 0);
    if 0 <= j < ls.len() {
        ls.update(j, use_prop(key, value))
    } else {
        ls.push(use_prop(key, value))
    }
}

pub open spec fn ensure_all(ls: Seq<Seq<char>>, ps: Seq<(Seq<char>, Option<Seq<char>>)>, k: int) -> Seq<Seq<char>>
    decreases k,
{
    if k <= 0 || k > ps.len() {
        ls
    } else {
        let prev = ensure_all(ls, ps, k - 1);
        match ps[k - 1].1 {
            Some(v) => ensure_prop(prev, ps[k - 1].0, v),
            None => prev,
        }
    }
}

/// A number attribute, zero when absent or unreadable.
pub open spec fn num_or0(v: Option<Seq<char>>) -> Px {
    match v {
        Some(x) => match num4(x) {
            Some(p) => p,
            None => Px::Fin { neg: false, mag: 0 },
        },
        None => Px::Fin { neg: false, mag: 0 },
    }
}

pub open spec fn px_pair(x: Px, y: Px) -> Seq<char> {
    display_px(x) + "px "@ + display_px(y) + "px"@
}

pub open spec fn quote_opt(v: Option<Seq<char>>) -> Option<Seq<char>> {
    match v {
        Some(x) => Some(quote4(x)),
        None => None,
    }
}

/// The properties an instance sets on its reference, in order.
pub open spec fn use_props(e: ElementView, target: Seq<char>) -> Seq<(Seq<char>, Option<Seq<char>>)> {
    seq![
        ("position"@, Some(px_pair(num_or0(attr(e, "x"@)), num_or0(attr(e, "y"@))))),
        ("size"@, if attr(e, "width"@) is Some || attr(e, "height"@) is Some {
            Some(px_pair(px_max0(num_or0(attr(e, "width"@))), px_max0(num_or0(attr(e, "height"@)))))
        } else {
            None
        }),
        ("resource-target"@, Some(quote4(target))),
        ("resource-provenance"@, Some(quote4("svg#"@ + target))),
        ("transform"@, quote_opt(attr(e, "transform"@))),
        ("viewbox"@, quote_opt(attr(e, "viewBox"@))),
        ("preserve-aspect-ratio"@, quote_opt(attr(e, "preserveAspectRatio"@))),
        ("fill"@, attr(e, "fill"@)),
        ("stroke"@, attr(e, "stroke"@)),
        ("opacity"@, attr(e, "opacity"@)),
        ("fill-opacity"@, attr(e, "fill-opacity"@)),
        ("stroke-opacity"@, attr(e, "stroke-opacity"@)),
    ]
}

/// A block turned into a reference to `target`.
#[verifier::opaque]
pub open spec fn reference_block(b: BlockV, e: ElementView, id: Seq<char>, target: Seq<char>) -> BlockV {
    BlockV {
        header: "reference "@ + id + " = \"#"@ + target + "\" {"@,
        lines: ensure_all(kept_lines(b.lines), use_props(e, target), 12),
        ..b
    }
}

pub open spec fn missing_href(id: Seq<char>) -> DiagV {
    DiagV { severity: "warning"@, code: "S310"@, message: "<use> has no href target"@, element: Some(id) }
}

pub open spec fn external_href(id: Seq<char>, href: Seq<char>) -> DiagV {
    DiagV {
        severity: "warning"@,
        code: "S311"@,
        message: "external <use> target `"@ + href + "` is preserved but not resolved"@,
        element: Some(id),
    }
}

/// One distinct instance: its block becomes a reference, or a diagnostic
/// says why it cannot.
pub open spec fn apply_step(els: Seq<ElementView>, us: Seq<UseV>, id: Seq<char>, bs: Seq<BlockV>) -> (Seq<BlockV>, Seq<DiagV>) {
    match (last_use(us, id, us.len() as int), first_block(bs, id, 0)) {
        (Some(u), Some(j)) => if u.href.len() == 0 {
            (bs, seq![missing_href(id)])
        } else if u.href[0] != '#' {
            (bs, seq![external_href(id, u.href)])
        } else if 0 <= u.index < els.len() && 0 <= j < bs.len() {
            (bs.update(j, reference_block(bs[j], els[u.index], id, safe_ident(strip_front(u.href, '#')))), Seq::empty())
        } else {
            (bs, Seq::empty())
        },
        _ => (bs, Seq::empty()),
    }
}

/// The blocks after the first `k` distinct instances, and the diagnostics
/// about instances without a local target.
pub open spec fn apply_uses(els: Seq<ElementView>, us: Seq<UseV>, ids: Seq<Seq<char>>, k: int, bs: Seq<BlockV>) -> (Seq<BlockV>, Seq<DiagV>)
    decreases k,
{
    if k <= 0 || k > ids.len() {
        (bs, Seq::empty())
    } else {
        let (b1, d1) = apply_uses(els, us, ids, k - 1, bs);
        let (b2, d2) = apply_step(els, us, ids[k - 1], b1);
        (b2, d1 + d2)
    }
}

/// The source with each local `<use>` block turned into a reference, and
/// the diagnostics about instances without a local target.
pub open spec fn use_refs(svg: Seq<char>, source: Seq<char>) -> (Seq<char>, Seq<DiagV>) {
    match xml_elements(svg) {
        Err(_) => (source, Seq::empty()),
        Ok(els) => {
            let us = uses_from(els, els.len() as int);
            if us.len() == 0 {
                (source, Seq::empty())
            } else {
                let ls = lines(source);
                let ids = first_ids(us, us.len() as int);
                let (bs, ds) = apply_uses(els, us, ids, ids.len() as int, blocks_from(ls, 0));
                (render_from(ls, bs, 0), ds)
            }
        },
    }
}


// ---------------------------------------------------------------------------
// Executable

pub struct UseE {
    pub id: Vec<char>,
    pub index: usize,
    pub href: Vec<char>,
}

pub open spec fn use_view(u: UseE) -> UseV {
    UseV { id: u.id@, index: u.index as int, href: u.href@ }
}

pub open spec fn uses_view(us: Seq<UseE>) -> Seq<UseV> {
    us.map_values(|u: UseE| use_view(u))
}

proof fn lemma_uses_len(els: Seq<ElementView>, k: int)
    requires
        0 <= k <= els.len(),
    ensures
        uses_from(els, k).len() <= k,
        forall|j: int| 0 <= j < uses_from(els, k).len() ==> 0 <= #[trigger] uses_from(els, k)[j].index < k,
    decreases k,
{
    if k > 0 {
        lemma_uses_len(els, k - 1);
    }
}

fn uses_exec(els: &Vec<XmlElement>) -> (r: Vec<UseE>)
    ensures
        uses_view(r@) == uses_from(elements_view(els@), els@.len() as int),
{
    let ghost ev = elements_view(els@);
    let mut out: Vec<UseE> = Vec::new();
    let mut k: usize = 0;
    while k < els.len()
        invariant
            k <= els@.len(),
            ev == elements_view(els@),
            uses_view(out@) == uses_from(ev, k as int),
        decreases els@.len() - k,
    {
        proof {
            lemma_uses_len(ev, k as int);
        }
        let e = &els[k];
        assert(ev[k as int] == element_view(*e));
        if crate::svg_v4::is_text(&chars_of(e.name.as_str()), "use") {
            let raw = match get_attr(e, "id") {
                Some(v) => chars_of(v.as_str()),
                None => {
                    let mut r = chars_of("use_");
                    crate::length::push_decimal_wide(&mut r, (out.len() + 1) as u128);
                    r
                },
            };
            let href = match get_attr(e, "href") {
                Some(h) => trim_chars(&chars_of(h.as_str())),
                None => Vec::new(),
            };
            proof {
                reveal_strlit("use_");
            }
            let u = UseE { id: safe_ident_exec(&raw), index: k, href };
            let ghost before = uses_view(out@);
            let ghost uv = use_view(u);
            out.push(u);
            assert(uses_view(out@) =~= before.push(uv));
            assert(uses_view(out@) == uses_from(ev, k + 1));
        }
        k += 1;
    }
    out
}

fn first_ids_exec(us: &Vec<UseE>) -> (r: Vec<Vec<char>>)
    ensures
        line_views(r@) == first_ids(uses_view(us@), us@.len() as int),
{
    let ghost uv = uses_view(us@);
    let mut out: Vec<Vec<char>> = Vec::new();
    let mut k: usize = 0;
    while k < us.len()
        invariant
            k <= us@.len(),
            uv == uses_view(us@),
            line_views(out@) == first_ids(uv, k as int),
        decreases us@.len() - k,
    {
        assert(uv[k as int] == use_view(us@[k as int]));
        if !crate::svg_v4::seq_contains_exec(&out, &us[k].id) {
            let ghost before = line_views(out@);
            out.push(copy_chars(&us[k].id));
            assert(line_views(out@) =~= before.push(uv[k as int].id));
        }
        k += 1;
    }
    out
}

fn last_use_exec(us: &Vec<UseE>, id: &Vec<char>) -> (r: Option<usize>)
    ensures
        match last_use(uses_view(us@), id@, us@.len() as int) {
            Some(u) => r is Some && r->0 < us@.len() && use_view(us@[r->0 as int]) == u,
            None => r is None,
        },
{
    let ghost uv = uses_view(us@);
    let mut k = us.len();
    while k > 0
        invariant
            k <= us@.len(),
            uv == uses_view(us@),
            last_use(uv, id@, k as int) == last_use(uv, id@, us@.len() as int),
        decreases k,
    {
        assert(uv[k - 1] == use_view(us@[k - 1]));
        if crate::parser::chars_eq(&us[k - 1].id, id) {
            return Some(k - 1);
        }
        k -= 1;
    }
    None
}

fn first_block_exec(bs: &Vec<Block>, id: &Vec<char>) -> (r: Option<usize>)
    ensures
        match first_block(blocks_view(bs@), id@, 0) {
            Some(j) => r is Some && r->0 as int == j && j < bs@.len(),
            None => r is None,
        },
{
    let ghost bv = blocks_view(bs@);
    let mut j: usize = 0;
    while j < bs.len()
        invariant
            j <= bs@.len(),
            bv == blocks_view(bs@),
            first_block(bv, id@, j as int) == first_block(bv, id@, 0),
        decreases bs@.len() - j,
    {
        assert(bv[j as int] == block_view(bs@[j as int]));
        if crate::parser::chars_eq(&bs[j].id, id) {
            return Some(j);
        }
        j += 1;
    }
    None
}

fn kept_lines_exec(ls: &Vec<Vec<char>>) -> (r: Vec<Vec<char>>)
    ensures
        line_views(r@) == kept_lines(line_views(ls@)),
{
    let ghost lv = line_views(ls@);
    let mut out: Vec<Vec<char>> = Vec::new();
    let mut k: usize = 0;
    while k < ls.len()
        invariant
            k <= ls@.len(),
            lv == line_views(ls@),
            line_views(out@) == kept_lines(lv.subrange(0, k as int)),
        decreases ls@.len() - k,
    {
        assert(lv.subrange(0, k + 1).drop_last() =~= lv.subrange(0, k as int));
        assert(lv[k as int] == ls@[k as int]@);
        let lead = crate::srctext::lead_len_exec(&ls[k]);
        let t = sub_chars(&ls[k], lead, ls[k].len());
        let payload = starts_with_exec(&t, "use-data:") || starts_with_exec(&t, "use-fill:") || starts_with_exec(&t, "use-stroke:");
        let ghost before = line_views(out@);
        if !payload {
            out.push(copy_chars(&ls[k]));
            assert(line_views(out@) =~= before + seq![lv[k as int]]);
        } else {
            assert(before =~= before + Seq::<Seq<char>>::empty());
        }
        assert(line_views(out@) == kept_lines(lv.subrange(0, k + 1)));
        k += 1;
    }
    assert(lv.subrange(0, ls@.len() as int) =~= lv);
    out
}

fn prop_index_exec(ls: &Vec<Vec<char>>, prefix: &Vec<char>) -> (r: usize)
    ensures
        r == prop_index(line_views(ls@), prefix@, 0),
        r <= ls@.len(),
{
    let ghost lv = line_views(ls@);
    let mut j: usize = 0;
    while j < ls.len()
        invariant
            j <= ls@.len(),
            lv == line_views(ls@),
            prop_index(lv, prefix@, j as int) == prop_index(lv, prefix@, 0),
        decreases ls@.len() - j,
    {
        assert(lv[j as int] == ls@[j as int]@);
        let lead = crate::srctext::lead_len_exec(&ls[j]);
        let t = sub_chars(&ls[j], lead, ls[j].len());
        if crate::srctext::occurs_at_exec(&t, prefix, 0) {
            assert(starts_with(trim_start(lv[j as int]), prefix@));
            return j;
        }
        j += 1;
    }
    j
}

fn ensure_prop_exec(ls: &mut Vec<Vec<char>>, key: &Vec<char>, value: &Vec<char>)
    ensures
        line_views(final(ls)@) == ensure_prop(line_views(old(ls)@), key@, value@),
{
    let mut prefix = copy_chars(key);
    prefix.push(':');
    proof {
        reveal_strlit(":");
    }
    assert(prefix@ =~= key@ + ":"@);
    let j = prop_index_exec(ls, &prefix);
    let mut line = chars_of("    ");
    append_chars(&mut line, key);
    append_str(&mut line, ": ");
    append_chars(&mut line, value);
    line.push(';');
    proof {
        reveal_strlit("    ");
        reveal_strlit(": ");
        reveal_strlit(";");
    }
    assert(line@ =~= use_prop(key@, value@));
    let ghost before = line_views(ls@);
    if j < ls.len() {
        ls.set(j, line);
        assert(line_views(ls@) =~= before.update(j as int, use_prop(key@, value@)));
    } else {
        ls.push(line);
        assert(line_views(ls@) =~= before.push(use_prop(key@, value@)));
    }
}

fn num_or0_exec(v: Option<String>) -> (r: Px)
    ensures
        r == num_or0(crate::xml::opt_str_view(v)),
        px_wf(r),
{
    match v {
        Some(x) => match num4_exec(&chars_of(x.as_str())) {
            Some(p) => p,
            None => Px::Fin { neg: false, mag: 0 },
        },
        None => Px::Fin { neg: false, mag: 0 },
    }
}

fn px_pair_exec(x: Px, y: Px) -> (r: Vec<char>)
    requires
        px_wf(x),
        px_wf(y),
    ensures
        r@ == px_pair(x, y),
{
    let mut out: Vec<char> = Vec::new();
    push_display_px(&mut out, x);
    append_str(&mut out, "px ");
    push_display_px(&mut out, y);
    append_str(&mut out, "px");
    proof {
        reveal_strlit("px ");
        reveal_strlit("px");
    }
    assert(out@ =~= px_pair(x, y));
    out
}

fn quote_opt_exec(v: Option<String>) -> (r: Option<Vec<char>>)
    ensures
        crate::svg_native::opt_chars(r) == quote_opt(crate::xml::opt_str_view(v)),
{
    match v {
        Some(x) => Some(quote4_exec(&chars_of(x.as_str()))),
        None => None,
    }
}

fn raw_opt(v: Option<String>) -> (r: Option<Vec<char>>)
    ensures
        crate::svg_native::opt_chars(r) == crate::xml::opt_str_view(v),
{
    match v {
        Some(x) => Some(chars_of(x.as_str())),
        None => None,
    }
}

pub open spec fn props_view(ps: Seq<(Vec<char>, Option<Vec<char>>)>) -> Seq<(Seq<char>, Option<Seq<char>>)> {
    ps.map_values(|p: (Vec<char>, Option<Vec<char>>)| (p.0@, crate::svg_native::opt_chars(p.1)))
}

fn use_props_exec(e: &XmlElement, target: &Vec<char>) -> (r: Vec<(Vec<char>, Option<Vec<char>>)>)
    ensures
        props_view(r@) == use_props(element_view(*e), target@),
{
    let position = px_pair_exec(num_or0_exec(get_attr(e, "x")), num_or0_exec(get_attr(e, "y")));
    let size = if crate::xml::has_attr(e, "width") || crate::xml::has_attr(e, "height") {
        Some(px_pair_exec(crate::length::max0_px(num_or0_exec(get_attr(e, "width"))), crate::length::max0_px(num_or0_exec(get_attr(e, "height")))))
    } else {
        None
    };
    let mut prov = chars_of("svg#");
    append_chars(&mut prov, target);
    proof {
        reveal_strlit("svg#");
    }
    assert(prov@ =~= "svg#"@ + target@);
    let mut out: Vec<(Vec<char>, Option<Vec<char>>)> = Vec::new();
    out.push((chars_of("position"), Some(position)));
    out.push((chars_of("size"), size));
    out.push((chars_of("resource-target"), Some(quote4_exec(target))));
    out.push((chars_of("resource-provenance"), Some(quote4_exec(&prov))));
    out.push((chars_of("transform"), quote_opt_exec(get_attr(e, "transform"))));
    out.push((chars_of("viewbox"), quote_opt_exec(get_attr(e, "viewBox"))));
    out.push((chars_of("preserve-aspect-ratio"), quote_opt_exec(get_attr(e, "preserveAspectRatio"))));
    out.push((chars_of("fill"), raw_opt(get_attr(e, "fill"))));
    out.push((chars_of("stroke"), raw_opt(get_attr(e, "stroke"))));
    out.push((chars_of("opacity"), raw_opt(get_attr(e, "opacity"))));
    out.push((chars_of("fill-opacity"), raw_opt(get_attr(e, "fill-opacity"))));
    out.push((chars_of("stroke-opacity"), raw_opt(get_attr(e, "stroke-opacity"))));
    assert(props_view(out@) =~= use_props(element_view(*e), target@));
    out
}

fn ensure_all_exec(ls: &mut Vec<Vec<char>>, ps: &Vec<(Vec<char>, Option<Vec<char>>)>)
    ensures
        line_views(final(ls)@) == ensure_all(line_views(old(ls)@), props_view(ps@), ps@.len() as int),
{
    let ghost l0 = line_views(ls@);
    let ghost pv = props_view(ps@);
    let mut k: usize = 0;
    while k < ps.len()
        invariant
            k <= ps@.len(),
            pv == props_view(ps@),
            line_views(ls@) == ensure_all(l0, pv, k as int),
        decreases ps@.len() - k,
    {
        assert(pv[k as int] == (ps@[k as int].0@, crate::svg_native::opt_chars(ps@[k as int].1)));
        match &ps[k].1 {
            Some(v) => ensure_prop_exec(ls, &ps[k].0, v),
            None => {},
        }
        k += 1;
    }
}

fn reference_block_exec(b: &Block, e: &XmlElement, id: &Vec<char>, target: &Vec<char>) -> (r: Block)
    ensures
        block_view(r) == reference_block(block_view(*b), element_view(*e), id@, target@),
{
    let mut header = chars_of("reference ");
    append_chars(&mut header, id);
    append_str(&mut header, " = \"#");
    append_chars(&mut header, target);
    append_str(&mut header, "\" {");
    proof {
        reveal_strlit("reference ");
        reveal_strlit(" = \"#");
        reveal_strlit("\" {");
    }
    let mut ls = kept_lines_exec(&b.lines);
    let ps = use_props_exec(e, target);
    ensure_all_exec(&mut ls, &ps);
    assert(props_view(ps@).len() == 12);
    let r = Block { id: copy_chars(&b.id), header, lines: ls, start: b.start, end: b.end };
    reveal(reference_block);
    assert(block_view(r) =~= reference_block(block_view(*b), element_view(*e), id@, target@));
    r
}


fn missing_href_exec(id: &Vec<char>) -> (d: ImportDiagnostic)
    ensures
        diag_view(d) == missing_href(id@),
{
    ImportDiagnostic {
        severity: crate::text::chars_to_string_lit("warning"),
        code: crate::text::chars_to_string_lit("S310"),
        message: crate::text::chars_to_string_lit("<use> has no href target"),
        element: Some(string_of(id)),
    }
}

fn external_href_exec(id: &Vec<char>, href: &Vec<char>) -> (d: ImportDiagnostic)
    ensures
        diag_view(d) == external_href(id@, href@),
{
    let mut m = chars_of("external <use> target `");
    append_chars(&mut m, href);
    append_str(&mut m, "` is preserved but not resolved");
    proof {
        reveal_strlit("external <use> target `");
        reveal_strlit("` is preserved but not resolved");
    }
    ImportDiagnostic {
        severity: crate::text::chars_to_string_lit("warning"),
        code: crate::text::chars_to_string_lit("S311"),
        message: string_of(&m),
        element: Some(string_of(id)),
    }
}

fn apply_step_exec(els: &Vec<XmlElement>, us: &Vec<UseE>, id: &Vec<char>, bs: &mut Vec<Block>,
    diags: &mut Vec<ImportDiagnostic>)
    requires
        forall|j: int| 0 <= j < us@.len() ==> #[trigger] us@[j].index < els@.len(),
    ensures
        blocks_view(final(bs)@) == apply_step(elements_view(els@), uses_view(us@), id@, blocks_view(old(bs)@)).0,
        diags_of(final(diags)@) == diags_of(old(diags)@) + apply_step(elements_view(els@), uses_view(us@), id@,
            blocks_view(old(bs)@)).1,
{
    let ghost ev = elements_view(els@);
    let ghost uv = uses_view(us@);
    let ghost before = diags_of(diags@);
    let ghost bb = blocks_view(bs@);
    let lu = last_use_exec(us, id);
    let fb = first_block_exec(bs, id);
    match (lu, fb) {
        (Some(u), Some(j)) => {
            let uu = &us[u];
            if uu.href.len() == 0 {
                diags.push(missing_href_exec(id));
                assert(diags_of(diags@) =~= before + seq![missing_href(id@)]);
            } else if uu.href[0] != '#' {
                diags.push(external_href_exec(id, &uu.href));
                assert(diags_of(diags@) =~= before + seq![external_href(id@, uu.href@)]);
            } else {
                let raw = strip_front_exec(&uu.href, '#');
                let target = safe_ident_exec(&raw);
                assert(uv[u as int] == use_view(*uu));
                assert(ev[uu.index as int] == element_view(els@[uu.index as int]));
                assert(bb[j as int] == block_view(bs@[j as int]));
                assert(bb.len() == bs@.len());
                let nb = reference_block_exec(&bs[j], &els[uu.index], id, &target);
                bs.set(j, nb);
                assert(blocks_view(bs@) =~= bb.update(j as int, block_view(nb)));
                assert(diags_of(diags@) =~= before + Seq::<DiagV>::empty());
                assert(last_use(uv, id@, uv.len() as int) == Some(use_view(*uu)));
                assert(first_block(bb, id@, 0) == Some(j as int));
                assert(block_view(nb) == reference_block(bb[j as int], ev[uu.index as int], id@, safe_ident(strip_front(uu.href@, '#'))));
                assert(blocks_view(bs@) == apply_step(ev, uv, id@, bb).0);
            }
        },
        _ => {
            assert(diags_of(diags@) =~= before + Seq::<DiagV>::empty());
        },
    }
}

fn apply_uses_exec(els: &Vec<XmlElement>, us: &Vec<UseE>, ids: &Vec<Vec<char>>, bs: &mut Vec<Block>,
    diags: &mut Vec<ImportDiagnostic>)
    requires
        forall|j: int| 0 <= j < us@.len() ==> #[trigger] us@[j].index < els@.len(),
    ensures
        ({
            let (b1, d1) = apply_uses(elements_view(els@), uses_view(us@), line_views(ids@), ids@.len() as int,
                blocks_view(old(bs)@));
            blocks_view(final(bs)@) == b1 && diags_of(final(diags)@) == diags_of(old(diags)@) + d1
        }),
{
    let ghost ev = elements_view(els@);
    let ghost uv = uses_view(us@);
    let ghost iv = line_views(ids@);
    let ghost b0 = blocks_view(bs@);
    let ghost d0 = diags_of(diags@);
    let mut k: usize = 0;
    assert(d0 + Seq::<DiagV>::empty() =~= d0);
    while k < ids.len()
        invariant
            k <= ids@.len(),
            ev == elements_view(els@),
            uv == uses_view(us@),
            iv == line_views(ids@),
            forall|j: int| 0 <= j < us@.len() ==> #[trigger] us@[j].index < els@.len(),
            blocks_view(bs@) == apply_uses(ev, uv, iv, k as int, b0).0,
            diags_of(diags@) == d0 + apply_uses(ev, uv, iv, k as int, b0).1,
        decreases ids@.len() - k,
    {
        let ghost prev = apply_uses(ev, uv, iv, k as int, b0);
        assert(iv[k as int] == ids@[k as int]@);
        apply_step_exec(els, us, &ids[k], bs, diags);
        proof {
            let step = apply_step(ev, uv, iv[k as int], prev.0);
            assert(apply_uses(ev, uv, iv, k + 1, b0) == (step.0, prev.1 + step.1));
            assert(d0 + (prev.1 + step.1) =~= (d0 + prev.1) + step.1);
        }
        k += 1;
    }
}

fn strip_front_exec(s: &Vec<char>, c: char) -> (r: Vec<char>)
    ensures
        r@ == strip_front(s@, c),
{
    let n = s.len();
    let mut a: usize = 0;
    assert(s@.subrange(0, n as int) =~= s@);
    while a < n && s[a] == c
        invariant
            a <= n,
            n == s@.len(),
            strip_front(s@.subrange(a as int, n as int), c) == strip_front(s@, c),
        decreases n - a,
    {
        assert(s@.subrange(a as int, n as int).drop_first() =~= s@.subrange(a + 1, n as int));
        a += 1;
    }
    sub_chars(s, a, n)
}

/// Turns the imported block of each local `<use>` instance into a
/// reference to its target; instances without a local target are
/// diagnosed.
pub fn promote_use_references(svg: &str, source: &Vec<char>, diags: &mut Vec<ImportDiagnostic>) -> (r: Vec<char>)
    ensures
        r@ == use_refs(svg@, source@).0,
        diags_of(final(diags)@) == diags_of(old(diags)@) + use_refs(svg@, source@).1,
{
    let ghost d0 = diags_of(diags@);
    assert(d0 + Seq::<DiagV>::empty() =~= d0);
    let els = match crate::xml::parse_xml(svg) {
        Ok(els) => els,
        Err(_) => {
            return copy_chars(source);
        },
    };
    let ghost ev = elements_view(els@);
    let us = uses_exec(&els);
    if us.len() == 0 {
        return copy_chars(source);
    }
    proof {
        lemma_uses_len(ev, ev.len() as int);
        assert forall|j: int| 0 <= j < us@.len() implies #[trigger] us@[j].index < els@.len() by {
            let uv = uses_view(us@);
            assert(uv[j] == use_view(us@[j]));
            assert(uses_from(ev, ev.len() as int)[j].index < ev.len());
        }
    }
    let ls = split_lines(source);
    let ids = first_ids_exec(&us);
    let mut bs = parse_blocks(&ls);
    apply_uses_exec(&els, &us, &ids, &mut bs, diags);
    render_blocks(&ls, &bs)
}

} // verus!
