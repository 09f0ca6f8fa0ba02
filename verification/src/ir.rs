//! The JSON intermediate representation of a parsed document.
use vstd::prelude::*;
use crate::ast::{DeclView, Declaration, Document, Property, PropertyView, declarations_view, properties_view};
use crate::diagnostic::{Diagnostic, DiagnosticView, diagnostics_view, severity_text};
use crate::parser::opt_view;
use crate::text::{append_chars, append_str, chars_of, string_of};

verus! {

/// JSON string escaping of one character.
pub open spec fn escape_char(c: char) -> Seq<char> {
    if c == '\\' {
        seq!['\\', '\\']
    } else if c == '"' {
        seq!['\\', '"']
    } else if c == '\n' {
        seq!['\\', 'n']
    } else if c == '\r' {
        seq!['\\', 'r']
    } else if c == '\t' {
        seq!['\\', 't']
    } else {
        seq![c]
    }
}

pub open spec fn escape(s: Seq<char>) -> Seq<char>
    decreases s.len(),
{
    if s.len() == 0 {
        Seq::empty()
    } else {
        escape(s.drop_last()) + escape_char(s.last())
    }
}

pub open spec fn indent(level: int) -> Seq<char>
    decreases level,
{
    if level <= 0 {
        Seq::empty()
    } else {
        indent(level - 1) + "  "@
    }
}

/// Decimal digits of a natural number.
pub open spec fn decimal(n: nat) -> Seq<char>
    decreases n,
{
    if n < 10 {
        seq![(('0' as nat) + n) as char]
    } else {
        decimal(n / 10).push((('0' as nat) + n % 10) as char)
    }
}

pub open spec fn field(level: int, key: Seq<char>, value: Seq<char>, comma: bool) -> Seq<char> {
    indent(level) + "\""@ + escape(key) + "\": \""@ + escape(value) + "\""@
        + (if comma { ","@ } else { Seq::empty() }) + "\n"@
}

pub open spec fn property_lines(level: int, props: Seq<PropertyView>, k: int) -> Seq<char>
    decreases k,
{
    if k <= 0 || k > props.len() {
        Seq::empty()
    } else {
        let p = props[k - 1];
        property_lines(level, props, k - 1) + indent(level + 1) + "\""@ + escape(p.name) + "\": \""@
            + escape(p.value) + "\""@ + (if k == props.len() { Seq::empty() } else { ","@ }) + "\n"@
    }
}

pub open spec fn properties_json(level: int, props: Seq<PropertyView>) -> Seq<char> {
    indent(level) + "\"properties\": {\n"@ + property_lines(level, props, props.len() as int) + indent(level) + "}"@
}

/// Index of the last `#`, if any.
pub open spec fn last_hash(s: Seq<char>, n: int) -> Option<int>
    decreases n,
{
    if n <= 0 || n > s.len() {
        None
    } else if s[n - 1] == '#' {
        Some(n - 1)
    } else {
        last_hash(s, n - 1)
    }
}

/// A reference target split at its last `#` into file and id.
pub open spec fn split_reference(target: Seq<char>) -> (Seq<char>, Seq<char>) {
    match last_hash(target, target.len() as int) {
        Some(p) => (target.subrange(0, p), target.subrange(p + 1, target.len() as int)),
        None => (target, Seq::empty()),
    }
}

pub open spec fn decl_body(d: DeclView, l: int) -> Seq<char> {
    match d {
        DeclView::Unit { name, scale, base } =>
            field(l, "type"@, "unit"@, true) + field(l, "name"@, name, true)
                + indent(l) + "\"scale\": "@ + scale + ",\n"@ + field(l, "base"@, base, false),
        DeclView::Node { kind, id, properties } =>
            field(l, "type"@, "node"@, true) + field(l, "kind"@, kind, true) + field(l, "id"@, id, true)
                + properties_json(l, properties),
        DeclView::Relation { from, to, properties } =>
            field(l, "type"@, "relation"@, true) + field(l, "from"@, from, true) + field(l, "to"@, to, true)
                + properties_json(l, properties),
        DeclView::Reference { id, target, properties } =>
            field(l, "type"@, "reference"@, true) + field(l, "id"@, id, true) + field(l, "target"@, target, true)
                + field(l, "source_file"@, split_reference(target).0, true)
                + field(l, "target_id"@, split_reference(target).1, true) + properties_json(l, properties),
        DeclView::Animation { id, properties } =>
            field(l, "type"@, "animation"@, true) + field(l, "id"@, id, true) + properties_json(l, properties),
    }
}

pub open spec fn decl_json(d: DeclView, level: int) -> Seq<char> {
    indent(level) + "{\n"@ + decl_body(d, level + 1) + "\n"@ + indent(level) + "}"@
}

pub open spec fn decl_lines(ds: Seq<DeclView>, k: int) -> Seq<char>
    decreases k,
{
    if k <= 0 || k > ds.len() {
        Seq::empty()
    } else {
        decl_lines(ds, k - 1) + decl_json(ds[k - 1], 2) + (if k == ds.len() { Seq::empty() } else { ","@ }) + "\n"@
    }
}

pub open spec fn diag_json(d: DiagnosticView) -> Seq<char> {
    "    {\n"@ + field(3, "severity"@, severity_text(d.severity), true) + field(3, "code"@, d.code, true)
        + field(3, "message"@, d.message, true) + "      \"line\": "@ + decimal(d.line as nat) + ",\n"@
        + "      \"column\": "@ + decimal(d.column as nat) + "\n"@ + "    }"@
}

pub open spec fn diag_lines(ds: Seq<DiagnosticView>, k: int) -> Seq<char>
    decreases k,
{
    if k <= 0 || k > ds.len() {
        Seq::empty()
    } else {
        diag_lines(ds, k - 1) + diag_json(ds[k - 1]) + (if k == ds.len() { Seq::empty() } else { ","@ }) + "\n"@
    }
}

/// The whole IR document.
pub open spec fn emit_json_spec(
    version: Seq<char>,
    file_id: Option<Seq<char>>,
    decls: Seq<DeclView>,
    diags: Seq<DiagnosticView>,
    source_name: Seq<char>,
) -> Seq<char> {
    "{\n"@ + field(1, "format"@, "SRNG-IR"@, true) + field(1, "version"@, version, true)
        + field(1, "source"@, source_name, true)
        + (match file_id {
            Some(id) => field(1, "file_id"@, id, true),
            None => "  \"file_id\": null,\n"@,
        })
        + "  \"declarations\": [\n"@ + decl_lines(decls, decls.len() as int) + "  ],\n"@
        + "  \"diagnostics\": [\n"@ + diag_lines(diags, diags.len() as int) + "  ]\n}"@
}

// ---------------------------------------------------------------------------

fn escape_into(out: &mut Vec<char>, s: &Vec<char>)
    ensures
        final(out)@ == old(out)@ + escape(s@),
{
    let mut k: usize = 0;
    while k < s.len()
        invariant
            k <= s@.len(),
            out@ == old(out)@ + escape(s@.subrange(0, k as int)),
        decreases s@.len() - k,
    {
        let c = s[k];
        let ghost before = out@;
        assert(s@.subrange(0, k + 1).drop_last() =~= s@.subrange(0, k as int));
        if c == '\\' {
            out.push('\\');
            out.push('\\');
        } else if c == '"' {
            out.push('\\');
            out.push('"');
        } else if c == '\n' {
            out.push('\\');
            out.push('n');
        } else if c == '\r' {
            out.push('\\');
            out.push('r');
        } else if c == '\t' {
            out.push('\\');
            out.push('t');
        } else {
            out.push(c);
        }
        assert(out@ =~= before + escape_char(c));
        k += 1;
    }
    assert(s@.subrange(0, s@.len() as int) =~= s@);
}

fn push_indent(out: &mut Vec<char>, level: usize)
    ensures
        final(out)@ == old(out)@ + indent(level as int),
{
    let mut k: usize = 0;
    while k < level
        invariant
            k <= level,
            out@ == old(out)@ + indent(k as int),
        decreases level - k,
    {
        append_str(out, "  ");
        k += 1;
        assert(out@ =~= old(out)@ + indent(k as int));
    }
}

pub fn push_decimal(out: &mut Vec<char>, n: usize)
    ensures
        final(out)@ == old(out)@ + decimal(n as nat),
    decreases n,
{
    if n < 10 {
        let c = ((n as u8) + ('0' as u8)) as char;
        out.push(c);
        assert(c == (('0' as nat) + n) as char);
    } else {
        push_decimal(out, n / 10);
        let c = (((n % 10) as u8) + ('0' as u8)) as char;
        out.push(c);
        assert(c == (('0' as nat) + n % 10) as char);
    }
}

fn push_field(out: &mut Vec<char>, level: usize, key: &str, value: &Vec<char>, comma: bool)
    ensures
        final(out)@ == old(out)@ + field(level as int, key@, value@, comma),
{
    push_indent(out, level);
    append_str(out, "\"");
    escape_into(out, &chars_of(key));
    append_str(out, "\": \"");
    escape_into(out, value);
    append_str(out, "\"");
    if comma {
        append_str(out, ",");
    }
    append_str(out, "\n");
    proof {
        let e: Seq<char> = Seq::empty();
        assert(final(out)@ =~= old(out)@ + field(level as int, key@, value@, comma));
    }
}

fn emit_properties(out: &mut Vec<char>, level: usize, properties: &Vec<Property>)
    requires
        level < usize::MAX,
    ensures
        final(out)@ == old(out)@ + properties_json(level as int, properties_view(properties@)),
{
    let ghost ps = properties_view(properties@);
    push_indent(out, level);
    append_str(out, "\"properties\": {\n");
    let ghost head = out@;
    let mut k: usize = 0;
    while k < properties.len()
        invariant
            k <= properties@.len(),
            level < usize::MAX,
            ps == properties_view(properties@),
            out@ == head + property_lines(level as int, ps, k as int),
        decreases properties@.len() - k,
    {
        let p = &properties[k];
        let ghost before = out@;
        push_indent(out, level + 1);
        append_str(out, "\"");
        escape_into(out, &chars_of(p.name.as_str()));
        append_str(out, "\": \"");
        escape_into(out, &chars_of(p.value.as_str()));
        append_str(out, "\"");
        if k + 1 != properties.len() {
            append_str(out, ",");
        }
        append_str(out, "\n");
        proof {
            assert(ps[k as int] == p@);
            assert(out@ =~= head + property_lines(level as int, ps, k + 1));
        }
        k += 1;
    }
    push_indent(out, level);
    append_str(out, "}");
    assert(out@ =~= old(out)@ + properties_json(level as int, ps));
}

proof fn lemma_last_hash(s: Seq<char>, n: int)
    requires
        0 <= n <= s.len(),
    ensures
        last_hash(s, n) matches Some(p) ==> 0 <= p < n,
    decreases n,
{
    if n > 0 && s[n - 1] != '#' {
        lemma_last_hash(s, n - 1);
    }
}

fn find_last_hash(s: &Vec<char>) -> (r: Option<usize>)
    ensures
        r is Some <==> last_hash(s@, s@.len() as int) is Some,
        r is Some ==> last_hash(s@, s@.len() as int) == Some(r->0 as int) && r->0 < s@.len(),
{
    proof { lemma_last_hash(s@, s@.len() as int); }
    let mut n = s.len();
    while n > 0 && s[n - 1] != '#'
        invariant
            n <= s@.len(),
            last_hash(s@, n as int) == last_hash(s@, s@.len() as int),
        decreases n,
    {
        n -= 1;
    }
    if n == 0 { None } else { Some(n - 1) }
}

fn unit_body(name: &String, scale: &String, base: &String, l: usize) -> (out: Vec<char>)
    ensures
        out@ == field(l as int, "type"@, "unit"@, true) + field(l as int, "name"@, name@, true)
            + indent(l as int) + "\"scale\": "@ + scale@ + ",\n"@ + field(l as int, "base"@, base@, false),
{
    let mut out: Vec<char> = Vec::new();
    push_field(&mut out, l, "type", &chars_of("unit"), true);
    push_field(&mut out, l, "name", &chars_of(name.as_str()), true);
    push_indent(&mut out, l);
    append_str(&mut out, "\"scale\": ");
    append_chars(&mut out, &chars_of(scale.as_str()));
    append_str(&mut out, ",\n");
    push_field(&mut out, l, "base", &chars_of(base.as_str()), false);
    assert(out@ =~= field(l as int, "type"@, "unit"@, true) + field(l as int, "name"@, name@, true)
        + indent(l as int) + "\"scale\": "@ + scale@ + ",\n"@ + field(l as int, "base"@, base@, false));
    out
}

fn three_fields(l: usize, k1: &str, v1: &str, k2: &str, v2: &String, k3: &str, v3: &String, props: &Vec<Property>) -> (out: Vec<char>)
    requires
        l < usize::MAX,
    ensures
        out@ == field(l as int, k1@, v1@, true) + field(l as int, k2@, v2@, true) + field(l as int, k3@, v3@, true)
            + properties_json(l as int, properties_view(props@)),
{
    let mut out: Vec<char> = Vec::new();
    push_field(&mut out, l, k1, &chars_of(v1), true);
    push_field(&mut out, l, k2, &chars_of(v2.as_str()), true);
    push_field(&mut out, l, k3, &chars_of(v3.as_str()), true);
    emit_properties(&mut out, l, props);
    assert(out@ =~= field(l as int, k1@, v1@, true) + field(l as int, k2@, v2@, true) + field(l as int, k3@, v3@, true)
        + properties_json(l as int, properties_view(props@)));
    out
}

fn reference_body(id: &String, target: &String, props: &Vec<Property>, l: usize) -> (out: Vec<char>)
    requires
        l < usize::MAX,
    ensures
        out@ == field(l as int, "type"@, "reference"@, true) + field(l as int, "id"@, id@, true) + field(l as int, "target"@, target@, true)
            + field(l as int, "source_file"@, split_reference(target@).0, true)
            + field(l as int, "target_id"@, split_reference(target@).1, true) + properties_json(l as int, properties_view(props@)),
{
    let t = chars_of(target.as_str());
    let tn = t.len();
    let mut out: Vec<char> = Vec::new();
    push_field(&mut out, l, "type", &chars_of("reference"), true);
    push_field(&mut out, l, "id", &chars_of(id.as_str()), true);
    push_field(&mut out, l, "target", &t, true);
    let (source_file, target_id) = match find_last_hash(&t) {
        Some(p) => (crate::text::sub_chars(&t, 0, p), crate::text::sub_chars(&t, p + 1, tn)),
        None => (crate::text::sub_chars(&t, 0, t.len()), Vec::new()),
    };
    proof {
        assert(t@.subrange(0, t@.len() as int) =~= t@);
        assert(source_file@ == split_reference(t@).0);
        assert(target_id@ =~= split_reference(t@).1);
    }
    push_field(&mut out, l, "source_file", &source_file, true);
    push_field(&mut out, l, "target_id", &target_id, true);
    emit_properties(&mut out, l, props);
    assert(out@ =~= field(l as int, "type"@, "reference"@, true) + field(l as int, "id"@, id@, true) + field(l as int, "target"@, target@, true)
        + field(l as int, "source_file"@, split_reference(target@).0, true)
        + field(l as int, "target_id"@, split_reference(target@).1, true) + properties_json(l as int, properties_view(props@)));
    out
}

fn animation_body(id: &String, props: &Vec<Property>, l: usize) -> (out: Vec<char>)
    requires
        l < usize::MAX,
    ensures
        out@ == field(l as int, "type"@, "animation"@, true) + field(l as int, "id"@, id@, true)
            + properties_json(l as int, properties_view(props@)),
{
    let mut out: Vec<char> = Vec::new();
    push_field(&mut out, l, "type", &chars_of("animation"), true);
    push_field(&mut out, l, "id", &chars_of(id.as_str()), true);
    emit_properties(&mut out, l, props);
    assert(out@ =~= field(l as int, "type"@, "animation"@, true) + field(l as int, "id"@, id@, true)
        + properties_json(l as int, properties_view(props@)));
    out
}

fn decl_body_exec(decl: &Declaration, l: usize) -> (out: Vec<char>)
    requires
        l < usize::MAX,
    ensures
        out@ == decl_body(decl@, l as int),
{
    match decl {
        Declaration::Unit(unit) => unit_body(&unit.name, &unit.scale, &unit.base, l),
        Declaration::Node(node) => three_fields(l, "type", "node", "kind", &node.kind, "id", &node.id, &node.properties),
        Declaration::Relation(relation) => three_fields(l, "type", "relation", "from", &relation.from, "to", &relation.to, &relation.properties),
        Declaration::Reference(reference) => reference_body(&reference.id, &reference.target, &reference.properties, l),
        Declaration::Animation(animation) => animation_body(&animation.id, &animation.properties, l),
    }
}

fn emit_decl(decl: &Declaration, level: usize) -> (out: Vec<char>)
    requires
        level < usize::MAX - 2,
    ensures
        out@ == decl_json(decl@, level as int),
{
    let mut out: Vec<char> = Vec::new();
    push_indent(&mut out, level);
    append_str(&mut out, "{\n");
    let body = decl_body_exec(decl, level + 1);
    append_chars(&mut out, &body);
    append_str(&mut out, "\n");
    push_indent(&mut out, level);
    append_str(&mut out, "}");
    assert(out@ =~= decl_json(decl@, level as int));
    out
}

fn emit_diag(d: &Diagnostic) -> (out: Vec<char>)
    ensures
        out@ == diag_json(d@),
{
    let mut out: Vec<char> = Vec::new();
    append_str(&mut out, "    {\n");
    push_field(&mut out, 3, "severity", &chars_of(d.severity.as_str()), true);
    push_field(&mut out, 3, "code", &chars_of(d.code), true);
    push_field(&mut out, 3, "message", &chars_of(d.message.as_str()), true);
    append_str(&mut out, "      \"line\": ");
    push_decimal(&mut out, d.line);
    append_str(&mut out, ",\n");
    append_str(&mut out, "      \"column\": ");
    push_decimal(&mut out, d.column);
    append_str(&mut out, "\n");
    append_str(&mut out, "    }");
    assert(out@ =~= diag_json(d@));
    out
}

#[verifier::spinoff_prover]
#[verifier::rlimit(40)]
fn emit_diagnostics(out: &mut Vec<char>, diags: &Vec<Diagnostic>)
    ensures
        final(out)@ == old(out)@ + diag_lines(diagnostics_view(diags@), diags@.len() as int),
{
    let ghost gs = diagnostics_view(diags@);
    let ghost head2 = out@;
    let mut j: usize = 0;
    while j < diags.len()
        invariant
            j <= diags@.len(),
            gs == diagnostics_view(diags@),
            head2 == old(out)@,
            out@ == head2 + diag_lines(gs, j as int),
        decreases diags@.len() - j,
    {
        let d = &diags[j];
        let text = emit_diag(d);
        append_chars(out, &text);
        proof {
            assert(gs[j as int] == d@);
        }
        if j + 1 != diags.len() {
            append_str(out, ",");
        }
        append_str(out, "\n");
        proof {
            assert(out@ =~= head2 + diag_lines(gs, j + 1));
        }
        j += 1;
    }
}

/// Serialises a document as SRNG-IR JSON.
pub fn emit_json(document: &Document, source_name: &str) -> (json: String)
    ensures
        json@ == emit_json_spec(
            document.version@,
            opt_view(document.file_id),
            declarations_view(document.declarations@),
            diagnostics_view(document.diagnostics@),
            source_name@,
        ),
{
    let ghost ds = declarations_view(document.declarations@);
    let ghost gs = diagnostics_view(document.diagnostics@);
    let mut out: Vec<char> = Vec::new();
    append_str(&mut out, "{\n");
    push_field(&mut out, 1, "format", &chars_of("SRNG-IR"), true);
    push_field(&mut out, 1, "version", &chars_of(document.version.as_str()), true);
    push_field(&mut out, 1, "source", &chars_of(source_name), true);
    match &document.file_id {
        Some(id) => push_field(&mut out, 1, "file_id", &chars_of(id.as_str()), true),
        None => append_str(&mut out, "  \"file_id\": null,\n"),
    }
    append_str(&mut out, "  \"declarations\": [\n");
    let ghost head = out@;
    let decls = &document.declarations;
    let mut k: usize = 0;
    while k < decls.len()
        invariant
            k <= decls@.len(),
            decls == &document.declarations,
            ds == declarations_view(decls@),
            out@ == head + decl_lines(ds, k as int),
        decreases decls@.len() - k,
    {
        let text = emit_decl(&decls[k], 2);
        append_chars(&mut out, &text);
        if k + 1 != decls.len() {
            append_str(&mut out, ",");
        }
        append_str(&mut out, "\n");
        proof {
            assert(ds[k as int] == decls@[k as int]@);
            assert(out@ =~= head + decl_lines(ds, k + 1));
        }
        k += 1;
    }
    append_str(&mut out, "  ],\n");
    append_str(&mut out, "  \"diagnostics\": [\n");
    emit_diagnostics(&mut out, &document.diagnostics);
    append_str(&mut out, "  ]\n}");
    proof {
        assert(out@ =~= emit_json_spec(document.version@, opt_view(document.file_id), ds, gs, source_name@));
    }
    string_of(&out)
}

// ---------------------------------------------------------------------------
// Laws

proof fn lemma_last_hash_full(s: Seq<char>, n: int)
    requires
        0 <= n <= s.len(),
    ensures
        match last_hash(s, n) {
            Some(p) => 0 <= p < n && s[p] == '#' && forall|k: int| p < k < n ==> s[k] != '#',
            None => forall|k: int| 0 <= k < n ==> s[k] != '#',
        },
    decreases n,
{
    if n > 0 && s[n - 1] != '#' {
        lemma_last_hash_full(s, n - 1);
    }
}

/// A reference target splits at its last `#`: the file part, `#` and the
/// id part give the target back, and the id holds no `#`; a target without
/// `#` is all file, with an empty id.
pub proof fn law_reference_split(target: Seq<char>)
    ensures
        target.contains('#') ==> split_reference(target).0 + "#"@ + split_reference(target).1 == target
            && !split_reference(target).1.contains('#'),
        !target.contains('#') ==> split_reference(target).0 == target && split_reference(target).1.len() == 0,
{
    lemma_last_hash_full(target, target.len() as int);
    reveal_strlit("#");
    match last_hash(target, target.len() as int) {
        Some(p) => {
            let (f, id) = split_reference(target);
            assert(f + "#"@ + id =~= target);
            assert forall|k: int| 0 <= k < id.len() implies id[k] != '#' by {
                assert(id[k] == target[p + 1 + k]);
            }
        },
        None => {
            if target.contains('#') {
                let k = choose|k: int| 0 <= k < target.len() && target[k] == '#';
                assert(target[k] != '#');
            }
        },
    }
}

/// The JSON of a reference declaration names the file and the id its
/// target splits into: for a target with `#`, the file, `#` and the id give
/// the target back and the id holds no `#`.
pub proof fn law_reference_json(id: Seq<char>, target: Seq<char>, properties: Seq<PropertyView>, l: int)
    ensures
        ({
            let f = split_reference(target).0;
            let t = split_reference(target).1;
            &&& decl_body(DeclView::Reference { id, target, properties }, l) == field(l, "type"@, "reference"@, true) + field(l, "id"@, id, true)
                + field(l, "target"@, target, true) + field(l, "source_file"@, f, true) + field(l, "target_id"@, t, true)
                + properties_json(l, properties)
            &&& target.contains('#') ==> f + "#"@ + t == target && !t.contains('#')
            &&& !target.contains('#') ==> f == target && t.len() == 0
        }),
{
    law_reference_split(target);
    let f = split_reference(target).0;
    let t = split_reference(target).1;
    assert(decl_body(DeclView::Reference { id, target, properties }, l) == field(l, "type"@, "reference"@, true) + field(l, "id"@, id, true)
        + field(l, "target"@, target, true) + field(l, "source_file"@, f, true) + field(l, "target_id"@, t, true)
        + properties_json(l, properties));
}

/// Reads JSON string escapes: a backslash and the character after it stand
/// for one character (`\n` a line feed, `\r` a carriage return, `\t` a tab,
/// anything else itself).
pub open spec fn json_unescape(e: Seq<char>) -> Seq<char>
    decreases e.len(),
{
    if e.len() == 0 {
        Seq::empty()
    } else if e[0] == '\\' && e.len() >= 2 {
        let c = e[1];
        seq![if c == 'n' { '\n' } else if c == 'r' { '\r' } else if c == 't' { '\t' } else { c }] + json_unescape(e.subrange(2, e.len() as int))
    } else {
        seq![e[0]] + json_unescape(e.subrange(1, e.len() as int))
    }
}

/// Text that can stand between the quotes of a JSON string: every
/// backslash starts a two-character escape, and no bare quote, line feed or
/// carriage return occurs.
pub open spec fn json_safe(e: Seq<char>) -> bool
    decreases e.len(),
{
    if e.len() == 0 {
        true
    } else if e[0] == '\\' {
        e.len() >= 2 && json_safe(e.subrange(2, e.len() as int))
    } else {
        e[0] != '"' && e[0] != '\n' && e[0] != '\r' && json_safe(e.subrange(1, e.len() as int))
    }
}

proof fn lemma_escape_concat(a: Seq<char>, b: Seq<char>)
    ensures
        escape(a + b) == escape(a) + escape(b),
    decreases b.len(),
{
    if b.len() == 0 {
        assert(a + b =~= a);
        assert(escape(a) + escape(b) =~= escape(a));
    } else {
        assert((a + b).drop_last() =~= a + b.drop_last());
        assert((a + b).last() == b.last());
        lemma_escape_concat(a, b.drop_last());
        assert(escape(a) + escape(b.drop_last()) + escape_char(b.last()) =~= escape(a) + (escape(b.drop_last()) + escape_char(b.last())));
    }
}

proof fn lemma_escape_front(c: char, s: Seq<char>)
    ensures
        escape(seq![c] + s) == escape_char(c) + escape(s),
{
    lemma_escape_concat(seq![c], s);
    assert(seq![c].drop_last() =~= Seq::<char>::empty());
    assert(escape(seq![c]) == escape(Seq::<char>::empty()) + escape_char(c));
    assert(escape(seq![c]) =~= escape_char(c));
}

proof fn lemma_unescape_unit(c: char, x: Seq<char>)
    ensures
        json_unescape(escape_char(c) + x) == seq![c] + json_unescape(x),
        json_safe(escape_char(c) + x) == json_safe(x),
{
    let e = escape_char(c) + x;
    if escape_char(c).len() == 2 {
        assert(e.subrange(2, e.len() as int) =~= x);
    } else {
        assert(e.subrange(1, e.len() as int) =~= x);
    }
}

/// JSON escaping is undone by reading the escapes back, and what it writes
/// can stand between the quotes of a JSON string.
pub proof fn law_json_escape(s: Seq<char>)
    ensures
        json_unescape(escape(s)) == s,
        json_safe(escape(s)),
    decreases s.len(),
{
    if s.len() > 0 {
        let rest = s.drop_first();
        assert(s =~= seq![s[0]] + rest);
        lemma_escape_front(s[0], rest);
        lemma_unescape_unit(s[0], escape(rest));
        law_json_escape(rest);
    }
}

} // verus!
