//! The runtime's decisions on an SRNG-IR document that need no geometry:
//! how a reference is followed, what a target resolves to, which children a
//! resource contributes and in what order, which relations are active, and
//! which declaration types it ignores. Reading IR files and computing
//! geometry are done by the caller, who hands in what they gave.
use vstd::prelude::*;
use crate::parser::str_eq;
use crate::props::{copy_chars, pm_get, pm_insert, pm_lookup, pm_set, pm_view};
use crate::scene::RuntimeDiagnostic;
use crate::svg_import::copy_str;
use crate::text::{append_str, chars_of, chars_to_string_lit, string_of};
use crate::xml::opt_str_view;

verus! {

// ---------------------------------------------------------------------------
// Declarations

/// What the runtime reads of one IR declaration: its `type`, `id`, `from`
/// and `to` fields; for a relation, whether its kind is `contains`; for a
/// node or reference, whether it could be built at all (`valid`), whether
/// its geometry is usable (`active`), and whether it is marked
/// `resource-only: true`.
#[derive(Debug, Clone)]
pub struct DeclRecord {
    pub decl_type: Option<String>,
    pub id: Option<String>,
    pub from: Option<String>,
    pub to: Option<String>,
    pub contains: bool,
    pub valid: bool,
    pub active: bool,
    pub resource_only: bool,
}

/// The index of the first declaration whose `id` is `id`, or the number of
/// declarations.
pub open spec fn find_decl(ds: Seq<DeclRecord>, id: Seq<char>, k: int) -> int
    decreases ds.len() - k,
{
    if k < 0 || k >= ds.len() {
        ds.len() as int
    } else if opt_str_view(ds[k].id) == Some(id) {
        k
    } else {
        find_decl(ds, id, k + 1)
    }
}

fn find_decl_exec(ds: &Vec<DeclRecord>, id: &str) -> (r: usize)
    ensures
        r == find_decl(ds@, id@, 0),
{
    let mut k: usize = 0;
    while k < ds.len()
        invariant
            k <= ds@.len(),
            find_decl(ds@, id@, 0) == find_decl(ds@, id@, k as int),
        decreases ds@.len() - k,
    {
        match &ds[k].id {
            Some(v) => {
                if str_eq(v.as_str(), id) {
                    return k;
                }
            },
            None => {},
        }
        k += 1;
    }
    k
}

fn is_type(d: &DeclRecord, t: &str) -> (b: bool)
    ensures
        b == (opt_str_view(d.decl_type) == Some(t@)),
{
    match &d.decl_type {
        Some(v) => str_eq(v.as_str(), t),
        None => false,
    }
}

/// `a + v + b` as a `String`.
fn text3(a: &str, v: &str, b: &str) -> (r: String)
    ensures
        r@ == a@ + v@ + b@,
{
    let mut m = chars_of(a);
    append_str(&mut m, v);
    append_str(&mut m, b);
    string_of(&m)
}

/// The text `{:?}` gives for an optional string.
pub uninterp spec fn debug_text(v: Option<Seq<char>>) -> Seq<char>;

/// Formats an optional string with `{:?}`; for `None` that is `None`.
#[verifier::external_body]
fn debug_opt(v: &Option<String>) -> (r: String)
    ensures
        r@ == debug_text(opt_str_view(*v)),
        v is None ==> r@ == "None"@,
{
    format!("{:?}", v.as_deref())
}

// ---------------------------------------------------------------------------
// Following a reference

/// How a reference is followed: in the current document, or in the IR file
/// named by its source path; or why it is not.
pub enum ReferenceStep {
    Local,
    External,
    Failed { code: String, message: String },
}

pub enum RefStepV {
    Local,
    External,
    Failed(Seq<char>, Seq<char>),
}

pub open spec fn ref_step_view(r: ReferenceStep) -> RefStepV {
    match r {
        ReferenceStep::Local => RefStepV::Local,
        ReferenceStep::External => RefStepV::External,
        ReferenceStep::Failed { code, message } => RefStepV::Failed(code@, message@),
    }
}

pub open spec fn contains_text(s: Seq<char>, p: Seq<char>) -> bool {
    crate::srctext::contains(s, p)
}

/// A reference with no target id is R230, one at the depth limit R232, one
/// to a network address R233; an empty source or `.` is local.
pub open spec fn reference_step_spec(ref_id: Seq<char>, target_id: Seq<char>, source_file: Seq<char>, depth: nat, max_depth: nat) -> RefStepV {
    if target_id.len() == 0 {
        RefStepV::Failed("R230"@, "reference `"@ + ref_id + "` has no target id"@)
    } else if depth >= max_depth {
        RefStepV::Failed("R232"@, "reference depth exceeded for `"@ + ref_id + "`"@)
    } else if contains_text(source_file, "://"@) {
        RefStepV::Failed("R233"@, "network references are not supported by the local runtime"@)
    } else if source_file.len() == 0 || source_file == "."@ {
        RefStepV::Local
    } else {
        RefStepV::External
    }
}

/// Decides how to follow reference `ref_id` to `target_id` in
/// `source_file` at the given depth.
pub fn reference_step(ref_id: &str, target_id: &str, source_file: &str, depth: usize, max_depth: usize) -> (r: ReferenceStep)
    ensures
        ref_step_view(r) == reference_step_spec(ref_id@, target_id@, source_file@, depth as nat, max_depth as nat),
{
    let t = chars_of(target_id);
    if t.len() == 0 {
        return ReferenceStep::Failed { code: chars_to_string_lit("R230"), message: text3("reference `", ref_id, "` has no target id") };
    }
    if depth >= max_depth {
        return ReferenceStep::Failed { code: chars_to_string_lit("R232"), message: text3("reference depth exceeded for `", ref_id, "`") };
    }
    let sf = chars_of(source_file);
    if crate::srctext::contains_exec(&sf, "://") {
        return ReferenceStep::Failed {
            code: chars_to_string_lit("R233"),
            message: chars_to_string_lit("network references are not supported by the local runtime"),
        };
    }
    if sf.len() == 0 || str_eq(source_file, ".") {
        ReferenceStep::Local
    } else {
        ReferenceStep::External
    }
}

// ---------------------------------------------------------------------------
// Resolving a target

/// What a target resolves to: the node or reference declaration at an
/// index, or why it does not resolve.
pub enum ResolveStep {
    Node(usize),
    Reference(usize),
    Failed { code: String, message: String },
}

pub enum ResolveV {
    Node(int),
    Reference(int),
    Failed(Seq<char>, Seq<char>),
}

pub open spec fn resolve_view(r: ResolveStep) -> ResolveV {
    match r {
        ResolveStep::Node(k) => ResolveV::Node(k as int),
        ResolveStep::Reference(k) => ResolveV::Reference(k as int),
        ResolveStep::Failed { code, message } => ResolveV::Failed(code@, message@),
    }
}

pub open spec fn key_text(k: (Seq<char>, Seq<char>)) -> Seq<char> {
    k.0 + "#"@ + k.1
}

/// The keys `path#id`, joined by ` -> `.
pub open spec fn chain_text(ks: Seq<(Seq<char>, Seq<char>)>) -> Seq<char>
    decreases ks.len(),
{
    if ks.len() == 0 {
        Seq::empty()
    } else if ks.len() == 1 {
        key_text(ks[0])
    } else {
        chain_text(ks.drop_last()) + " -> "@ + key_text(ks.last())
    }
}

pub open spec fn keys_view(st: Seq<(String, String)>) -> Seq<(Seq<char>, Seq<char>)> {
    st.map_values(|k: (String, String)| (k.0@, k.1@))
}

/// What target `target_id` of document `source` (known by `path`) resolves
/// to at `depth`, with the keys being resolved already on `stack`: past the
/// depth limit R232; a key already on the stack R234, naming the chain; an
/// id no declaration has R231; a node that cannot be built, or whose
/// geometry is unusable and that is not resource-only, R235; a reference
/// that cannot be built R235; any other type R235.
pub open spec fn resolve_spec(ds: Seq<DeclRecord>, source: Seq<char>, target_id: Seq<char>, path: Seq<char>, depth: nat, max_depth: nat, stack: Seq<(Seq<char>, Seq<char>)>) -> ResolveV {
    let key = (path, target_id);
    if depth > max_depth {
        ResolveV::Failed("R232"@, "reference depth exceeded while resolving `"@ + target_id + "`"@)
    } else if stack.contains(key) {
        ResolveV::Failed("R234"@, "cyclic reference: "@ + chain_text(stack.push(key)))
    } else {
        let k = find_decl(ds, target_id, 0);
        if k >= ds.len() {
            ResolveV::Failed("R231"@, "target `"@ + target_id + "` does not exist in `"@ + source + "`"@)
        } else {
            let d = ds[k];
            if opt_str_view(d.decl_type) == Some("node"@) {
                if !d.valid {
                    ResolveV::Failed("R235"@, "invalid target `"@ + target_id + "`"@)
                } else if !d.active && !d.resource_only {
                    ResolveV::Failed("R235"@, "target `"@ + target_id + "` has invalid geometry"@)
                } else {
                    ResolveV::Node(k)
                }
            } else if opt_str_view(d.decl_type) == Some("reference"@) {
                if !d.valid {
                    ResolveV::Failed("R235"@, "invalid reference `"@ + target_id + "`"@)
                } else {
                    ResolveV::Reference(k)
                }
            } else {
                ResolveV::Failed("R235"@, "target `"@ + target_id + "` in `"@ + source + "` is not a node or reference (found "@
                    + debug_text(opt_str_view(d.decl_type)) + ")"@)
            }
        }
    }
}

fn on_stack(stack: &Vec<(String, String)>, path: &str, id: &str) -> (b: bool)
    ensures
        b == keys_view(stack@).contains((path@, id@)),
{
    let ghost kv = keys_view(stack@);
    let mut k: usize = 0;
    while k < stack.len()
        invariant
            k <= stack@.len(),
            kv == keys_view(stack@),
            forall|j: int| 0 <= j < k ==> kv[j] != (path@, id@),
        decreases stack@.len() - k,
    {
        if str_eq(stack[k].0.as_str(), path) && str_eq(stack[k].1.as_str(), id) {
            assert(kv[k as int] == (path@, id@));
            return true;
        }
        k += 1;
    }
    false
}

fn chain_exec(stack: &Vec<(String, String)>, path: &str, id: &str) -> (r: Vec<char>)
    ensures
        r@ == chain_text(keys_view(stack@).push((path@, id@))),
{
    let ghost all = keys_view(stack@).push((path@, id@));
    let mut out: Vec<char> = Vec::new();
    let mut k: usize = 0;
    let n = stack.len();
    assert(all.subrange(0, 0) =~= Seq::<(Seq<char>, Seq<char>)>::empty());
    while k < n
        invariant
            k <= n,
            n == stack@.len(),
            all == keys_view(stack@).push((path@, id@)),
            out@ == chain_text(all.subrange(0, k as int)),
        decreases n - k,
    {
        let ghost before = out@;
        assert(all.subrange(0, k + 1).drop_last() =~= all.subrange(0, k as int));
        if k > 0 {
            append_str(&mut out, " -> ");
        }
        append_str(&mut out, stack[k].0.as_str());
        append_str(&mut out, "#");
        append_str(&mut out, stack[k].1.as_str());
        if k == 0 {
            assert(out@ =~= key_text(all[0]));
        } else {
            assert(out@ =~= before + " -> "@ + key_text(all[k as int]));
        }
        k += 1;
    }
    let ghost before = out@;
    assert(all.subrange(0, n + 1).drop_last() =~= all.subrange(0, n as int));
    if n > 0 {
        append_str(&mut out, " -> ");
    }
    append_str(&mut out, path);
    append_str(&mut out, "#");
    append_str(&mut out, id);
    if n == 0 {
        assert(out@ =~= key_text(all[0]));
    } else {
        assert(out@ =~= before + " -> "@ + key_text(all[n as int]));
    }
    assert(all.subrange(0, n + 1) =~= all);
    out
}

fn failed(code: &str, message: String) -> (r: ResolveStep)
    ensures
        resolve_view(r) == ResolveV::Failed(code@, message@),
{
    ResolveStep::Failed { code: chars_to_string_lit(code), message }
}

/// Decides what target `target_id` of document `source`, known by `path`,
/// resolves to at `depth`; `stack` holds the `(path, id)` keys being
/// resolved.
pub fn resolve_target(decls: &Vec<DeclRecord>, source: &str, target_id: &str, path: &str, depth: usize, max_depth: usize, stack: &Vec<(String, String)>) -> (r: ResolveStep)
    ensures
        resolve_view(r) == resolve_spec(decls@, source@, target_id@, path@, depth as nat, max_depth as nat, keys_view(stack@)),
        depth > max_depth ==> (r matches ResolveStep::Failed { code, .. } && code@ == "R232"@),
        depth <= max_depth && keys_view(stack@).contains((path@, target_id@)) ==> (r matches ResolveStep::Failed { code, .. } && code@ == "R234"@),
        depth <= max_depth && !keys_view(stack@).contains((path@, target_id@)) && find_decl(decls@, target_id@, 0) >= decls@.len()
            ==> (r matches ResolveStep::Failed { code, .. } && code@ == "R231"@),
{
    if depth > max_depth {
        return failed("R232", text3("reference depth exceeded while resolving `", target_id, "`"));
    }
    if on_stack(stack, path, target_id) {
        let mut m = chars_of("cyclic reference: ");
        let c = chain_exec(stack, path, target_id);
        crate::text::append_chars(&mut m, &c);
        return failed("R234", string_of(&m));
    }
    let k = find_decl_exec(decls, target_id);
    if k >= decls.len() {
        let mut m = chars_of("target `");
        append_str(&mut m, target_id);
        append_str(&mut m, "` does not exist in `");
        append_str(&mut m, source);
        append_str(&mut m, "`");
        return failed("R231", string_of(&m));
    }
    let d = &decls[k];
    if is_type(d, "node") {
        if !d.valid {
            failed("R235", text3("invalid target `", target_id, "`"))
        } else if !d.active && !d.resource_only {
            failed("R235", text3("target `", target_id, "` has invalid geometry"))
        } else {
            ResolveStep::Node(k)
        }
    } else if is_type(d, "reference") {
        if !d.valid {
            failed("R235", text3("invalid reference `", target_id, "`"))
        } else {
            ResolveStep::Reference(k)
        }
    } else {
        let mut m = chars_of("target `");
        append_str(&mut m, target_id);
        append_str(&mut m, "` in `");
        append_str(&mut m, source);
        append_str(&mut m, "` is not a node or reference (found ");
        let t = debug_opt(&d.decl_type);
        append_str(&mut m, t.as_str());
        append_str(&mut m, ")");
        failed("R235", string_of(&m))
    }
}

// ---------------------------------------------------------------------------
// Resource children

pub open spec fn or_empty(o: Option<String>) -> Seq<char> {
    match o {
        Some(v) => v@,
        None => Seq::empty(),
    }
}

/// The targets of the `contains` relations from `parent`, from declaration
/// `k` on, in declaration order (a missing `from` or `to` reads as empty).
pub open spec fn children_of(ds: Seq<DeclRecord>, parent: Seq<char>, k: int) -> Seq<Seq<char>>
    decreases ds.len() - k,
{
    if k < 0 || k >= ds.len() {
        Seq::empty()
    } else {
        let d = ds[k];
        (if opt_str_view(d.decl_type) == Some("relation"@) && d.contains && or_empty(d.from) == parent {
            seq![or_empty(d.to)]
        } else {
            Seq::empty()
        }) + children_of(ds, parent, k + 1)
    }
}

/// One resource child: its id in the scene (`root::child`), its own id, the
/// id of the resource node it sits under, the index of its declaration, and
/// whether it is a reference the caller resolves (a node otherwise).
#[derive(Debug, Clone)]
pub struct ChildRecord {
    pub id: String,
    pub source_id: String,
    pub parent_source_id: String,
    pub decl: usize,
    pub reference: bool,
}

pub open spec fn child_view(c: ChildRecord) -> (Seq<char>, Seq<char>, Seq<char>, int, bool) {
    (c.id@, c.source_id@, c.parent_source_id@, c.decl as int, c.reference)
}

pub open spec fn child_views(cs: Seq<ChildRecord>) -> Seq<(Seq<char>, Seq<char>, Seq<char>, int, bool)> {
    cs.map_values(|c: ChildRecord| child_view(c))
}

pub open spec fn child_v(root: Seq<char>, c: Seq<char>, parent: Seq<char>, k: int, reference: bool) -> (Seq<char>, Seq<char>, Seq<char>, int, bool) {
    (root + "::"@ + c, c, parent, k, reference)
}

/// The resource children under the children `kids[i..]` of `parent`, depth
/// first in declaration order: a node that is active or resource-only is
/// listed, then its own children; a reference is listed for the caller to
/// resolve; other types are skipped. A child no declaration has stops the
/// walk with R231, a node or reference that cannot be built with R235. The
/// flag says whether the walk ended within `fuel` levels.
pub open spec fn collect_from(ds: Seq<DeclRecord>, kids: Seq<Seq<char>>, i: int, parent: Seq<char>, root: Seq<char>, fuel: nat) -> (
    Seq<(Seq<char>, Seq<char>, Seq<char>, int, bool)>,
    Option<(Seq<char>, Seq<char>)>,
    bool,
)
    decreases fuel, kids.len() - i,
{
    if i < 0 || i >= kids.len() {
        (Seq::empty(), None, true)
    } else {
        let c = kids[i];
        let k = find_decl(ds, c, 0);
        if k >= ds.len() {
            (Seq::empty(), Some(("R231"@, "resource child `"@ + c + "` is missing"@)), true)
        } else if opt_str_view(ds[k].decl_type) == Some("node"@) {
            if !ds[k].valid {
                (Seq::empty(), Some(("R235"@, "invalid resource node `"@ + c + "`"@)), true)
            } else {
                let own = if ds[k].active || ds[k].resource_only { seq![child_v(root, c, parent, k, false)] } else { Seq::empty() };
                if fuel == 0 {
                    (own, None, false)
                } else {
                    let sub = collect_from(ds, children_of(ds, c, 0), 0, c, root, (fuel - 1) as nat);
                    if sub.1 is Some || !sub.2 {
                        (own + sub.0, sub.1, sub.2)
                    } else {
                        let rest = collect_from(ds, kids, i + 1, parent, root, fuel);
                        (own + sub.0 + rest.0, rest.1, rest.2)
                    }
                }
            }
        } else if opt_str_view(ds[k].decl_type) == Some("reference"@) {
            if !ds[k].valid {
                (Seq::empty(), Some(("R235"@, "invalid nested reference `"@ + c + "`"@)), true)
            } else {
                let rest = collect_from(ds, kids, i + 1, parent, root, fuel);
                (seq![child_v(root, c, parent, k, true)] + rest.0, rest.1, rest.2)
            }
        } else {
            collect_from(ds, kids, i + 1, parent, root, fuel)
        }
    }
}

/// The resource children of `parent` under resource `root`, walked with as
/// many levels as there are declarations (enough unless `contains`
/// relations form a cycle).
pub open spec fn collect_spec(ds: Seq<DeclRecord>, parent: Seq<char>, root: Seq<char>) -> (
    Seq<(Seq<char>, Seq<char>, Seq<char>, int, bool)>,
    Option<(Seq<char>, Seq<char>)>,
    bool,
) {
    collect_from(ds, children_of(ds, parent, 0), 0, parent, root, ds.len())
}

pub open spec fn err_view(e: Option<(String, String)>) -> Option<(Seq<char>, Seq<char>)> {
    match e {
        Some((a, b)) => Some((a@, b@)),
        None => None,
    }
}

pub open spec fn string_views(v: Seq<String>) -> Seq<Seq<char>> {
    v.map_values(|s: String| s@)
}

fn children_of_exec(ds: &Vec<DeclRecord>, parent: &str) -> (r: Vec<String>)
    ensures
        string_views(r@) == children_of(ds@, parent@, 0),
{
    let mut out: Vec<String> = Vec::new();
    let mut k: usize = 0;
    while k < ds.len()
        invariant
            k <= ds@.len(),
            string_views(out@) + children_of(ds@, parent@, k as int) == children_of(ds@, parent@, 0),
        decreases ds@.len() - k,
    {
        let d = &ds[k];
        let from_ok = match &d.from {
            Some(f) => str_eq(f.as_str(), parent),
            None => chars_of(parent).len() == 0,
        };
        proof {
            if parent@.len() == 0 {
                assert(parent@ =~= Seq::<char>::empty());
            }
        }
        assert(from_ok == (or_empty(ds@[k as int].from) == parent@));
        let ghost before = string_views(out@);
        let ghost rest = children_of(ds@, parent@, k + 1);
        if is_type(d, "relation") && d.contains && from_ok {
            let to = match &d.to {
                Some(t) => copy_str(t),
                None => chars_to_string_lit(""),
            };
            proof {
                reveal_strlit("");
            }
            assert(to@ == or_empty(ds@[k as int].to));
            out.push(to);
            assert(string_views(out@) =~= before.push(or_empty(ds@[k as int].to)));
            assert(string_views(out@) + rest =~= before + (seq![or_empty(ds@[k as int].to)] + rest));
        } else {
            assert(before + rest =~= before + (Seq::<Seq<char>>::empty() + rest));
        }
        k += 1;
    }
    assert(string_views(out@) + children_of(ds@, parent@, k as int) =~= string_views(out@));
    out
}

fn child_record(root: &str, c: &String, parent: &str, k: usize, reference: bool) -> (r: ChildRecord)
    ensures
        child_view(r) == child_v(root@, c@, parent@, k as int, reference),
{
    let mut m = chars_of(root);
    append_str(&mut m, "::");
    append_str(&mut m, c.as_str());
    ChildRecord { id: string_of(&m), source_id: copy_str(c), parent_source_id: chars_to_string_lit(parent), decl: k, reference }
}

fn err_pair(code: &str, message: String) -> (r: Option<(String, String)>)
    ensures
        err_view(r) == Some((code@, message@)),
{
    Some((chars_to_string_lit(code), message))
}

#[verifier::rlimit(40)]
fn collect_exec(ds: &Vec<DeclRecord>, kids: &Vec<String>, parent: &str, root: &str, fuel: usize, out: &mut Vec<ChildRecord>) -> (r: (
    Option<(String, String)>,
    bool,
))
    ensures
        child_views(final(out)@) == child_views(old(out)@) + collect_from(ds@, string_views(kids@), 0, parent@, root@, fuel as nat).0,
        err_view(r.0) == collect_from(ds@, string_views(kids@), 0, parent@, root@, fuel as nat).1,
        r.1 == collect_from(ds@, string_views(kids@), 0, parent@, root@, fuel as nat).2,
    decreases fuel,
{
    let ghost kv = string_views(kids@);
    let ghost full = collect_from(ds@, kv, 0, parent@, root@, fuel as nat);
    let ghost base = child_views(out@);
    let ghost mut acc: Seq<(Seq<char>, Seq<char>, Seq<char>, int, bool)> = Seq::empty();
    let mut i: usize = 0;
    while i < kids.len()
        invariant
            i <= kids@.len(),
            kv == string_views(kids@),
            base == child_views(old(out)@),
            full == collect_from(ds@, kv, 0, parent@, root@, fuel as nat),
            child_views(out@) == base + acc,
            full.0 == acc + collect_from(ds@, kv, i as int, parent@, root@, fuel as nat).0,
            full.1 == collect_from(ds@, kv, i as int, parent@, root@, fuel as nat).1,
            full.2 == collect_from(ds@, kv, i as int, parent@, root@, fuel as nat).2,
        decreases kids@.len() - i,
    {
        let c = &kids[i];
        assert(kv[i as int] == c@);
        let ghost cur = collect_from(ds@, kv, i as int, parent@, root@, fuel as nat);
        let ghost rest = collect_from(ds@, kv, i + 1, parent@, root@, fuel as nat);
        let k = find_decl_exec(ds, c.as_str());
        if k >= ds.len() {
            let m = text3("resource child `", c.as_str(), "` is missing");
            assert(cur.0 =~= Seq::<(Seq<char>, Seq<char>, Seq<char>, int, bool)>::empty());
            assert(child_views(out@) =~= base + full.0);
            return (err_pair("R231", m), true);
        }
        let d = &ds[k];
        if is_type(d, "node") {
            if !d.valid {
                let m = text3("invalid resource node `", c.as_str(), "`");
                assert(cur.0 =~= Seq::<(Seq<char>, Seq<char>, Seq<char>, int, bool)>::empty());
                assert(child_views(out@) =~= base + full.0);
                return (err_pair("R235", m), true);
            }
            let ghost own = if d.active || d.resource_only { seq![child_v(root@, c@, parent@, k as int, false)] } else { Seq::empty() };
            if d.active || d.resource_only {
                let ghost b0 = child_views(out@);
                out.push(child_record(root, c, parent, k, false));
                assert(child_views(out@) =~= b0 + own);
            }
            proof {
                assert(child_views(out@) =~= base + (acc + own));
            }
            if fuel == 0 {
                assert(child_views(out@) =~= base + full.0);
                return (None, false);
            }
            let grand = children_of_exec(ds, c.as_str());
            let ghost b1 = child_views(out@);
            let (e, done) = collect_exec(ds, &grand, c.as_str(), root, fuel - 1, out);
            let ghost sub = collect_from(ds@, children_of(ds@, c@, 0), 0, c@, root@, (fuel - 1) as nat);
            if e.is_some() || !done {
                assert(child_views(out@) =~= base + full.0);
                return (e, done);
            }
            proof {
                acc = acc + own + sub.0;
                assert(child_views(out@) =~= base + acc);
                assert(full.0 =~= acc + rest.0);
            }
        } else if is_type(d, "reference") {
            if !d.valid {
                let m = text3("invalid nested reference `", c.as_str(), "`");
                assert(cur.0 =~= Seq::<(Seq<char>, Seq<char>, Seq<char>, int, bool)>::empty());
                assert(child_views(out@) =~= base + full.0);
                return (err_pair("R235", m), true);
            }
            let ghost b0 = child_views(out@);
            out.push(child_record(root, c, parent, k, true));
            proof {
                let one = seq![child_v(root@, c@, parent@, k as int, true)];
                assert(child_views(out@) =~= b0 + one);
                acc = acc + one;
                assert(full.0 =~= acc + rest.0);
            }
        }
        i += 1;
    }
    assert(acc + collect_from(ds@, kv, i as int, parent@, root@, fuel as nat).0 =~= acc);
    (None, true)
}

/// The resource children of `parent` under resource `root`, in the order
/// the runtime lists them, and the error that stopped the walk, if one did.
/// References among them are for the caller to resolve, in order: the
/// first of those that fails comes before the returned error.
pub fn collect_children(decls: &Vec<DeclRecord>, parent: &str, root: &str) -> (r: (Vec<ChildRecord>, Option<(String, String)>))
    requires
        collect_spec(decls@, parent@, root@).2,
    ensures
        child_views(r.0@) == collect_spec(decls@, parent@, root@).0,
        err_view(r.1) == collect_spec(decls@, parent@, root@).1,
        forall|k: int| 0 <= k < r.0@.len() ==> (#[trigger] r.0@[k]).id@ == root@ + "::"@ + r.0@[k].source_id@,
{
    let kids = children_of_exec(decls, parent);
    let mut out: Vec<ChildRecord> = Vec::new();
    let ghost empty = child_views(out@);
    assert(empty =~= Seq::<(Seq<char>, Seq<char>, Seq<char>, int, bool)>::empty());
    let (e, _done) = collect_exec(decls, &kids, parent, root, decls.len(), &mut out);
    proof {
        assert(child_views(out@) =~= empty + collect_spec(decls@, parent@, root@).0);
        lemma_collect_ids(decls@, children_of(decls@, parent@, 0), 0, parent@, root@, decls@.len());
        assert forall|k: int| 0 <= k < out@.len() implies (#[trigger] out@[k]).id@ == root@ + "::"@ + out@[k].source_id@ by {
            assert(child_views(out@)[k] == child_view(out@[k]));
        }
    }
    (out, e)
}

proof fn lemma_collect_ids(ds: Seq<DeclRecord>, kids: Seq<Seq<char>>, i: int, parent: Seq<char>, root: Seq<char>, fuel: nat)
    ensures
        forall|k: int| 0 <= k < collect_from(ds, kids, i, parent, root, fuel).0.len() ==>
            (#[trigger] collect_from(ds, kids, i, parent, root, fuel).0[k]).0 == root + "::"@ + collect_from(ds, kids, i, parent, root, fuel).0[k].1,
    decreases fuel, kids.len() - i,
{
    if 0 <= i < kids.len() {
        let c = kids[i];
        let k = find_decl(ds, c, 0);
        if k < ds.len() {
            lemma_collect_ids(ds, kids, i + 1, parent, root, fuel);
            if fuel > 0 {
                lemma_collect_ids(ds, children_of(ds, c, 0), 0, c, root, (fuel - 1) as nat);
            }
            let r = collect_from(ds, kids, i, parent, root, fuel);
            let rest = collect_from(ds, kids, i + 1, parent, root, fuel);
            assert forall|j: int| 0 <= j < r.0.len() implies (#[trigger] r.0[j]).0 == root + "::"@ + r.0[j].1 by {
                if opt_str_view(ds[k].decl_type) == Some("node"@) && ds[k].valid && fuel > 0 {
                    let own = if ds[k].active || ds[k].resource_only { seq![child_v(root, c, parent, k, false)] } else { Seq::empty() };
                    let sub = collect_from(ds, children_of(ds, c, 0), 0, c, root, (fuel - 1) as nat);
                    if j >= own.len() + sub.0.len() {
                        assert(r.0[j] == rest.0[j - own.len() - sub.0.len()]);
                    } else if j >= own.len() {
                        assert(r.0[j] == sub.0[j - own.len()]);
                    }
                } else if opt_str_view(ds[k].decl_type) == Some("reference"@) && ds[k].valid {
                    if j > 0 {
                        assert(r.0[j] == rest.0[j - 1]);
                    }
                }
            }
        }
    }
}

// ---------------------------------------------------------------------------
// The document

/// A document must declare the format `SRNG-IR`.
pub fn check_format(format: &str) -> (r: Result<(), String>)
    ensures
        format@ == "SRNG-IR"@ ==> r is Ok,
        format@ != "SRNG-IR"@ ==> (r matches Err(m) && m@ == "expected format `SRNG-IR`, found `"@ + format@ + "`"@),
{
    if str_eq(format, "SRNG-IR") {
        Ok(())
    } else {
        Err(text3("expected format `SRNG-IR`, found `", format, "`"))
    }
}

pub open spec fn rdiag_view(d: RuntimeDiagnostic) -> (Seq<char>, Seq<char>, Seq<char>, Seq<char>, Option<Seq<char>>, int, int) {
    (d.severity@, d.code@, d.message@, d.source@, opt_str_view(d.declaration), d.line as int, d.column as int)
}

pub open spec fn rdiags_view(ds: Seq<RuntimeDiagnostic>) -> Seq<(Seq<char>, Seq<char>, Seq<char>, Seq<char>, Option<Seq<char>>, int, int)> {
    ds.map_values(|d: RuntimeDiagnostic| rdiag_view(d))
}

/// What the runtime does with a declaration of a given type.
#[derive(Debug, Clone, Copy, PartialEq, Eq, Structural)]
pub enum DeclKind {
    Unit,
    Node,
    Relation,
    Reference,
    Animation,
    Untyped,
    Unknown,
}

pub open spec fn kind_spec(ty: Seq<char>) -> DeclKind {
    if ty == "unit"@ {
        DeclKind::Unit
    } else if ty == "node"@ {
        DeclKind::Node
    } else if ty == "relation"@ {
        DeclKind::Relation
    } else if ty == "reference"@ {
        DeclKind::Reference
    } else if ty == "animation"@ {
        DeclKind::Animation
    } else if ty.len() == 0 {
        DeclKind::Untyped
    } else {
        DeclKind::Unknown
    }
}

/// Sorts a declaration by its `type` (a missing one reads as empty); an
/// unknown non-empty type is ignored with an R101 warning.
pub fn declaration_kind(ty: &Option<String>, source: &str) -> (r: (DeclKind, Option<RuntimeDiagnostic>))
    ensures
        r.0 == kind_spec(or_empty(*ty)),
        r.0 == DeclKind::Unknown ==> (r.1 matches Some(d) && rdiag_view(d) == ("warning"@, "R101"@,
            "ignored unknown declaration type `"@ + or_empty(*ty) + "`"@, source@, None::<Seq<char>>, 0int, 0int)),
        r.0 != DeclKind::Unknown ==> r.1 is None,
{
    let t = match ty {
        Some(v) => copy_str(v),
        None => chars_to_string_lit(""),
    };
    proof {
        reveal_strlit("");
    }
    assert(t@ == or_empty(*ty));
    let s = t.as_str();
    if str_eq(s, "unit") {
        (DeclKind::Unit, None)
    } else if str_eq(s, "node") {
        (DeclKind::Node, None)
    } else if str_eq(s, "relation") {
        (DeclKind::Relation, None)
    } else if str_eq(s, "reference") {
        (DeclKind::Reference, None)
    } else if str_eq(s, "animation") {
        (DeclKind::Animation, None)
    } else if chars_of(s).len() == 0 {
        (DeclKind::Untyped, None)
    } else {
        let d = RuntimeDiagnostic {
            severity: chars_to_string_lit("warning"),
            code: chars_to_string_lit("R101"),
            message: text3("ignored unknown declaration type `", s, "`"),
            source: chars_to_string_lit(source),
            declaration: None,
            line: 0,
            column: 0,
        };
        (DeclKind::Unknown, Some(d))
    }
}

// ---------------------------------------------------------------------------
// Relations

pub open spec fn str_in(v: Seq<String>, s: Seq<char>) -> bool {
    exists|k: int| 0 <= k < v.len() && (#[trigger] v[k])@ == s
}

/// A `contains` relation from a resource-only node belongs to the resource,
/// not to the scene.
pub open spec fn resource_relation(rel: (String, String, Option<String>), resource_nodes: Seq<String>) -> bool {
    opt_str_view(rel.2) == Some("contains"@) && str_in(resource_nodes, rel.0@)
}

/// A relation is active when it is no resource relation and both its ends
/// are active.
pub open spec fn relation_active(rel: (String, String, Option<String>), active: Seq<String>, resource_nodes: Seq<String>) -> bool {
    !resource_relation(rel, resource_nodes) && str_in(active, rel.0@) && str_in(active, rel.1@)
}

pub open spec fn r210(rel: (String, String, Option<String>), source: Seq<char>) -> (Seq<char>, Seq<char>, Seq<char>, Seq<char>, Option<Seq<char>>, int, int) {
    ("error"@, "R210"@, "relation `"@ + rel.0@ + " -> "@ + rel.1@ + "` has an inactive or missing endpoint"@, source,
        Some(rel.0@ + " -> "@ + rel.1@), 0, 0)
}

/// The R210 errors of the relations from `k` on that are inactive and no
/// resource relations, in order.
pub open spec fn r210_from(rels: Seq<(String, String, Option<String>)>, k: int, active: Seq<String>, resource_nodes: Seq<String>, source: Seq<char>) -> Seq<(Seq<char>, Seq<char>, Seq<char>, Seq<char>, Option<Seq<char>>, int, int)>
    decreases rels.len() - k,
{
    if k < 0 || k >= rels.len() {
        Seq::empty()
    } else {
        (if !relation_active(rels[k], active, resource_nodes) && !resource_relation(rels[k], resource_nodes) {
            seq![r210(rels[k], source)]
        } else {
            Seq::empty()
        }) + r210_from(rels, k + 1, active, resource_nodes, source)
    }
}

fn str_in_exec(v: &Vec<String>, s: &str) -> (b: bool)
    ensures
        b == str_in(v@, s@),
{
    let mut k: usize = 0;
    while k < v.len()
        invariant
            k <= v@.len(),
            forall|j: int| 0 <= j < k ==> (#[trigger] v@[j])@ != s@,
        decreases v@.len() - k,
    {
        if str_eq(v[k].as_str(), s) {
            return true;
        }
        k += 1;
    }
    false
}

/// Which relations are active (`from`, `to` and `kind` of each), given the
/// ids of the active nodes and references and of the nodes marked
/// resource-only; every inactive relation that is no resource relation
/// gets an R210 error.
pub fn relation_activity(rels: &Vec<(String, String, Option<String>)>, active: &Vec<String>, resource_nodes: &Vec<String>, source: &str) -> (r: (Vec<bool>, Vec<RuntimeDiagnostic>))
    ensures
        r.0@.len() == rels@.len(),
        forall|k: int| 0 <= k < rels@.len() ==> r.0@[k] == relation_active(#[trigger] rels@[k], active@, resource_nodes@),
        rdiags_view(r.1@) == r210_from(rels@, 0, active@, resource_nodes@, source@),
{
    let mut flags: Vec<bool> = Vec::new();
    let mut diags: Vec<RuntimeDiagnostic> = Vec::new();
    let mut k: usize = 0;
    while k < rels.len()
        invariant
            k <= rels@.len(),
            flags@.len() == k,
            forall|j: int| 0 <= j < k ==> flags@[j] == relation_active(#[trigger] rels@[j], active@, resource_nodes@),
            rdiags_view(diags@) + r210_from(rels@, k as int, active@, resource_nodes@, source@) == r210_from(rels@, 0, active@, resource_nodes@, source@),
        decreases rels@.len() - k,
    {
        let rel = &rels[k];
        let is_contains = match &rel.2 {
            Some(v) => str_eq(v.as_str(), "contains"),
            None => false,
        };
        let res = is_contains && str_in_exec(resource_nodes, rel.0.as_str());
        let on = !res && str_in_exec(active, rel.0.as_str()) && str_in_exec(active, rel.1.as_str());
        assert(res == resource_relation(rels@[k as int], resource_nodes@));
        assert(on == relation_active(rels@[k as int], active@, resource_nodes@));
        flags.push(on);
        let ghost before = rdiags_view(diags@);
        let ghost rest = r210_from(rels@, k + 1, active@, resource_nodes@, source@);
        if !on && !res {
            let mut pair = chars_of(rel.0.as_str());
            append_str(&mut pair, " -> ");
            append_str(&mut pair, rel.1.as_str());
            let mut m = chars_of("relation `");
            crate::text::append_chars(&mut m, &pair);
            append_str(&mut m, "` has an inactive or missing endpoint");
            let d = RuntimeDiagnostic {
                severity: chars_to_string_lit("error"),
                code: chars_to_string_lit("R210"),
                message: string_of(&m),
                source: chars_to_string_lit(source),
                declaration: Some(string_of(&pair)),
                line: 0,
                column: 0,
            };
            diags.push(d);
            assert(rdiag_view(d) == r210(rels@[k as int], source@));
            assert(rdiags_view(diags@) =~= before.push(r210(rels@[k as int], source@)));
            assert(rdiags_view(diags@) + rest =~= before + (seq![r210(rels@[k as int], source@)] + rest));
        } else {
            assert(before + rest =~= before + (Seq::<(Seq<char>, Seq<char>, Seq<char>, Seq<char>, Option<Seq<char>>, int, int)>::empty() + rest));
        }
        k += 1;
    }
    assert(rdiags_view(diags@) + r210_from(rels@, k as int, active@, resource_nodes@, source@) =~= rdiags_view(diags@));
    (flags, diags)
}

// ---------------------------------------------------------------------------
// Instance style

/// A value without one pair of surrounding double quotes, if it has them.
pub open spec fn strip_quotes(v: Seq<char>) -> Seq<char> {
    if v.len() >= 2 && v[0] == '"' && v.last() == '"' {
        v.subrange(1, v.len() - 1)
    } else {
        v
    }
}

/// Whether a property value says `true`, quoted or not.
pub open spec fn says_true(v: Option<Seq<char>>) -> bool {
    match v {
        Some(x) => strip_quotes(x) == "true"@,
        None => false,
    }
}

/// A paint that the resource inherits from its instance: the instance's
/// value, or `fallback` when the instance sets none.
pub open spec fn inherit_paint(p: Seq<(Seq<char>, Seq<char>)>, inst: Seq<(Seq<char>, Seq<char>)>, key: Seq<char>, fallback: Seq<char>) -> Seq<(Seq<char>, Seq<char>)> {
    if says_true(pm_get(p, "resource-inherit-"@ + key)) {
        match pm_get(inst, key) {
            Some(v) => pm_insert(p, key, v),
            None => pm_insert(p, key, fallback),
        }
    } else {
        p
    }
}

pub open spec fn take_from(p: Seq<(Seq<char>, Seq<char>)>, inst: Seq<(Seq<char>, Seq<char>)>, key: Seq<char>) -> Seq<(Seq<char>, Seq<char>)> {
    match pm_get(inst, key) {
        Some(v) => pm_insert(p, key, v),
        None => p,
    }
}

/// The properties of a resource node drawn through an instance: `fill`
/// (default `#000000`) and `stroke` (default `none`) where the node
/// inherits them, then the instance's `opacity`, `fill-opacity` and
/// `stroke-opacity`.
pub open spec fn instance_style(p: Seq<(Seq<char>, Seq<char>)>, inst: Seq<(Seq<char>, Seq<char>)>) -> Seq<(Seq<char>, Seq<char>)> {
    let p1 = inherit_paint(p, inst, "fill"@, "#000000"@);
    let p2 = inherit_paint(p1, inst, "stroke"@, "none"@);
    take_from(take_from(take_from(p2, inst, "opacity"@), inst, "fill-opacity"@), inst, "stroke-opacity"@)
}

fn says_true_exec(v: &Option<Vec<char>>) -> (b: bool)
    ensures
        b == says_true(match v {
            Some(x) => Some(x@),
            None => None,
        }),
{
    match v {
        Some(x) => {
            let n = x.len();
            let inner = if n >= 2 && x[0] == '"' && x[n - 1] == '"' {
                crate::text::sub_chars(x, 1, n - 1)
            } else {
                copy_chars(x)
            };
            crate::parser::chars_eq(&inner, &chars_of("true"))
        },
        None => false,
    }
}

fn inherit_paint_exec(p: &mut Vec<(Vec<char>, Vec<char>)>, inst: &Vec<(Vec<char>, Vec<char>)>, key: &str, fallback: &str)
    ensures
        pm_view(final(p)@) == inherit_paint(pm_view(old(p)@), pm_view(inst@), key@, fallback@),
{
    let mut flag = chars_of("resource-inherit-");
    append_str(&mut flag, key);
    let current = pm_lookup(p, &flag);
    let ghost cv = match &current {
        Some(x) => Some(x@),
        None => None::<Seq<char>>,
    };
    assert(cv == pm_get(pm_view(p@), "resource-inherit-"@ + key@));
    if says_true_exec(&current) {
        match pm_lookup(inst, &chars_of(key)) {
            Some(v) => pm_set(p, chars_of(key), v),
            None => pm_set(p, chars_of(key), chars_of(fallback)),
        }
    }
}

fn take_from_exec(p: &mut Vec<(Vec<char>, Vec<char>)>, inst: &Vec<(Vec<char>, Vec<char>)>, key: &str)
    ensures
        pm_view(final(p)@) == take_from(pm_view(old(p)@), pm_view(inst@), key@),
{
    match pm_lookup(inst, &chars_of(key)) {
        Some(v) => pm_set(p, chars_of(key), v),
        None => {},
    }
}

/// Gives a resource node's properties the style of the instance drawing
/// it.
pub fn apply_instance_style(properties: &mut Vec<(Vec<char>, Vec<char>)>, instance: &Vec<(Vec<char>, Vec<char>)>)
    ensures
        pm_view(final(properties)@) == instance_style(pm_view(old(properties)@), pm_view(instance@)),
{
    inherit_paint_exec(properties, instance, "fill", "#000000");
    inherit_paint_exec(properties, instance, "stroke", "none");
    take_from_exec(properties, instance, "opacity");
    take_from_exec(properties, instance, "fill-opacity");
    take_from_exec(properties, instance, "stroke-opacity");
}

} // verus!
