//! Property maps of generated SRNG declarations, kept sorted by key the way
//! a `BTreeMap<String, String>` iterates, and identifier helpers.
use vstd::prelude::*;
use crate::text::sub_chars;

verus! {

pub open spec fn pm_view(m: Seq<(Vec<char>, Vec<char>)>) -> Seq<(Seq<char>, Seq<char>)> {
    m.map_values(|p: (Vec<char>, Vec<char>)| (p.0@, p.1@))
}

/// Lexicographic order of character sequences (the order of UTF-8 bytes).
pub open spec fn seq_lt(a: Seq<char>, b: Seq<char>) -> bool
    decreases a.len(),
{
    if a.len() == 0 {
        b.len() > 0
    } else if b.len() == 0 {
        false
    } else if a[0] != b[0] {
        a[0] < b[0]
    } else {
        seq_lt(a.drop_first(), b.drop_first())
    }
}

/// Inserts or replaces `k` in a key-sorted map.
pub open spec fn pm_insert(m: Seq<(Seq<char>, Seq<char>)>, k: Seq<char>, v: Seq<char>) -> Seq<(Seq<char>, Seq<char>)>
    decreases m.len(),
{
    if m.len() == 0 {
        seq![(k, v)]
    } else if m[0].0 == k {
        seq![(k, v)] + m.drop_first()
    } else if seq_lt(k, m[0].0) {
        seq![(k, v)] + m
    } else {
        seq![m[0]] + pm_insert(m.drop_first(), k, v)
    }
}

pub open spec fn pm_get(m: Seq<(Seq<char>, Seq<char>)>, k: Seq<char>) -> Option<Seq<char>>
    decreases m.len(),
{
    if m.len() == 0 {
        None
    } else if m[0].0 == k {
        Some(m[0].1)
    } else {
        pm_get(m.drop_first(), k)
    }
}

/// Inserts every entry of `b`, in order, into `a`.
pub open spec fn pm_extend(a: Seq<(Seq<char>, Seq<char>)>, b: Seq<(Seq<char>, Seq<char>)>) -> Seq<(Seq<char>, Seq<char>)>
    decreases b.len(),
{
    if b.len() == 0 {
        a
    } else {
        pm_insert(pm_extend(a, b.drop_last()), b.last().0, b.last().1)
    }
}

pub fn copy_chars(v: &Vec<char>) -> (r: Vec<char>)
    ensures
        r@ == v@,
{
    let r = sub_chars(v, 0, v.len());
    assert(r@ =~= v@);
    r
}

pub fn chars_lt(a: &Vec<char>, b: &Vec<char>) -> (r: bool)
    ensures
        r == seq_lt(a@, b@),
{
    let mut i: usize = 0;
    assert(a@.subrange(0, a@.len() as int) =~= a@);
    assert(b@.subrange(0, b@.len() as int) =~= b@);
    while i < a.len() && i < b.len() && a[i] == b[i]
        invariant
            i <= a@.len(),
            i <= b@.len(),
            seq_lt(a@.subrange(i as int, a@.len() as int), b@.subrange(i as int, b@.len() as int)) == seq_lt(a@, b@),
        decreases a@.len() - i,
    {
        assert(a@.subrange(i as int, a@.len() as int).drop_first() =~= a@.subrange(i + 1, a@.len() as int));
        assert(b@.subrange(i as int, b@.len() as int).drop_first() =~= b@.subrange(i + 1, b@.len() as int));
        i += 1;
    }
    proof {
        assert(a@.subrange(0, a@.len() as int) =~= a@);
        assert(b@.subrange(0, b@.len() as int) =~= b@);
    }
    if i == a.len() {
        i < b.len()
    } else if i == b.len() {
        false
    } else {
        a[i] < b[i]
    }
}

/// Inserts or replaces `k` in a key-sorted map.
pub fn pm_set(m: &mut Vec<(Vec<char>, Vec<char>)>, k: Vec<char>, v: Vec<char>)
    ensures
        pm_view(final(m)@) == pm_insert(pm_view(old(m)@), k@, v@),
{
    let ghost mv = pm_view(m@);
    let ghost target = pm_insert(mv, k@, v@);
    let n = m.len();
    let mut out: Vec<(Vec<char>, Vec<char>)> = Vec::new();
    let mut i: usize = 0;
    assert(mv.subrange(0, n as int) =~= mv);
    while i < n && !crate::parser::chars_eq(&m[i].0, &k) && !chars_lt(&k, &m[i].0)
        invariant
            i <= n,
            n == m@.len(),
            mv == pm_view(m@),
            target == pm_insert(mv, k@, v@),
            pm_view(out@) + pm_insert(mv.subrange(i as int, n as int), k@, v@) == target,
        decreases n - i,
    {
        let key = copy_chars(&m[i].0);
        let val = copy_chars(&m[i].1);
        let ghost before = out@;
        out.push((key, val));
        proof {
            let rest = mv.subrange(i as int, n as int);
            assert(rest.drop_first() =~= mv.subrange(i + 1, n as int));
            assert(pm_view(out@) =~= pm_view(before).push(rest[0]));
            assert(pm_view(out@) + pm_insert(mv.subrange(i + 1, n as int), k@, v@) =~= pm_view(before) + pm_insert(rest, k@, v@));
        }
        i += 1;
    }
    let ghost rest = mv.subrange(i as int, n as int);
    let mut j = i;
    let ghost mid = pm_view(out@);
    let same = i < n && crate::parser::chars_eq(&m[i].0, &k);
    let ghost kv = k@;
    let ghost vv = v@;
    out.push((k, v));
    if same {
        j = i + 1;
        assert(pm_insert(rest, kv, vv) == seq![(kv, vv)] + mv.subrange(j as int, n as int)) by {
            assert(rest.drop_first() =~= mv.subrange(j as int, n as int));
        }
    } else {
        assert(pm_insert(rest, kv, vv) == seq![(kv, vv)] + mv.subrange(j as int, n as int)) by {
            assert(rest =~= mv.subrange(j as int, n as int));
        }
    }
    assert(pm_view(out@) =~= mid.push((kv, vv)));
    while j < n
        invariant
            j <= n,
            n == m@.len(),
            mv == pm_view(m@),
            pm_view(out@) + mv.subrange(j as int, n as int) == target,
        decreases n - j,
    {
        let key = copy_chars(&m[j].0);
        let val = copy_chars(&m[j].1);
        let ghost before = out@;
        out.push((key, val));
        proof {
            assert(pm_view(out@) =~= pm_view(before).push(mv[j as int]));
            assert(pm_view(out@) + mv.subrange(j + 1, n as int) =~= pm_view(before) + mv.subrange(j as int, n as int));
        }
        j += 1;
    }
    assert(pm_view(out@) =~= target);
    *m = out;
}

pub fn pm_lookup(m: &Vec<(Vec<char>, Vec<char>)>, k: &Vec<char>) -> (r: Option<Vec<char>>)
    ensures
        match pm_get(pm_view(m@), k@) {
            Some(v) => r is Some && r->0@ == v,
            None => r is None,
        },
{
    let ghost mv = pm_view(m@);
    let n = m.len();
    let mut i: usize = 0;
    assert(mv.subrange(0, n as int) =~= mv);
    while i < n
        invariant
            i <= n,
            n == m@.len(),
            mv == pm_view(m@),
            pm_get(mv.subrange(i as int, n as int), k@) == pm_get(mv, k@),
        decreases n - i,
    {
        assert(mv.subrange(i as int, n as int).drop_first() =~= mv.subrange(i + 1, n as int));
        if crate::parser::chars_eq(&m[i].0, k) {
            return Some(copy_chars(&m[i].1));
        }
        i += 1;
    }
    None
}

pub fn pm_extend_exec(a: &mut Vec<(Vec<char>, Vec<char>)>, b: &Vec<(Vec<char>, Vec<char>)>)
    ensures
        pm_view(final(a)@) == pm_extend(pm_view(old(a)@), pm_view(b@)),
{
    let ghost a0 = pm_view(a@);
    let ghost bv = pm_view(b@);
    let mut i: usize = 0;
    while i < b.len()
        invariant
            i <= b@.len(),
            bv == pm_view(b@),
            pm_view(a@) == pm_extend(a0, bv.subrange(0, i as int)),
        decreases b@.len() - i,
    {
        assert(bv.subrange(0, i + 1).drop_last() =~= bv.subrange(0, i as int));
        pm_set(a, copy_chars(&b[i].0), copy_chars(&b[i].1));
        i += 1;
    }
    assert(bv.subrange(0, b@.len() as int) =~= bv);
}

// ---------------------------------------------------------------------------
// Identifier counts

pub open spec fn ids_view(ids: Seq<(Vec<char>, usize)>) -> Seq<(Seq<char>, usize)> {
    ids.map_values(|p: (Vec<char>, usize)| (p.0@, p.1))
}

pub open spec fn ids_get(ids: Seq<(Seq<char>, usize)>, k: Seq<char>) -> usize
    decreases ids.len(),
{
    if ids.len() == 0 {
        0
    } else if ids[0].0 == k {
        ids[0].1
    } else {
        ids_get(ids.drop_first(), k)
    }
}

pub open spec fn ids_put(ids: Seq<(Seq<char>, usize)>, k: Seq<char>, n: usize) -> Seq<(Seq<char>, usize)>
    decreases ids.len(),
{
    if ids.len() == 0 {
        seq![(k, n)]
    } else if ids[0].0 == k {
        seq![(k, n)] + ids.drop_first()
    } else {
        seq![ids[0]] + ids_put(ids.drop_first(), k, n)
    }
}

pub fn ids_lookup(ids: &Vec<(Vec<char>, usize)>, k: &Vec<char>) -> (r: usize)
    ensures
        r == ids_get(ids_view(ids@), k@),
{
    let ghost v = ids_view(ids@);
    let n = ids.len();
    let mut i: usize = 0;
    assert(v.subrange(0, n as int) =~= v);
    while i < n
        invariant
            i <= n,
            n == ids@.len(),
            v == ids_view(ids@),
            ids_get(v.subrange(i as int, n as int), k@) == ids_get(v, k@),
        decreases n - i,
    {
        assert(v.subrange(i as int, n as int).drop_first() =~= v.subrange(i + 1, n as int));
        if crate::parser::chars_eq(&ids[i].0, k) {
            return ids[i].1;
        }
        i += 1;
    }
    0
}

pub fn ids_store(ids: &mut Vec<(Vec<char>, usize)>, k: &Vec<char>, count: usize)
    ensures
        ids_view(final(ids)@) == ids_put(ids_view(old(ids)@), k@, count),
{
    let ghost v = ids_view(ids@);
    let n = ids.len();
    let mut i: usize = 0;
    assert(v.subrange(0, n as int) =~= v);
    while i < n
        invariant
            i <= n,
            n == ids@.len(),
            v == ids_view(ids@),
            v == ids_view(old(ids)@),
            ids_put(v, k@, count) == v.subrange(0, i as int) + ids_put(v.subrange(i as int, n as int), k@, count),
        decreases n - i,
    {
        assert(v.subrange(i as int, n as int).drop_first() =~= v.subrange(i + 1, n as int));
        if crate::parser::chars_eq(&ids[i].0, k) {
            let ghost before = ids@;
            let key = copy_chars(k);
            ids.set(i, (key, count));
            assert(ids_put(v.subrange(i as int, n as int), k@, count) == seq![(k@, count)] + v.subrange(i + 1, n as int));
            assert(ids_view(ids@) =~= v.subrange(0, i as int) + (seq![(k@, count)] + v.subrange(i + 1, n as int)));
            return;
        }
        assert(v.subrange(0, i + 1) =~= v.subrange(0, i as int).push(v[i as int]));
        assert(v.subrange(0, i as int) + (seq![v[i as int]] + ids_put(v.subrange(i + 1, n as int), k@, count))
            =~= v.subrange(0, i + 1) + ids_put(v.subrange(i + 1, n as int), k@, count));
        i += 1;
    }
    let key = copy_chars(k);
    ids.push((key, count));
    assert(ids_view(ids@) =~= v.subrange(0, n as int) + seq![(k@, count)]);
}

// ---------------------------------------------------------------------------
// Laws of property maps

/// After setting `k` to `v`, `k` reads `v` and every other key reads as
/// before.
pub proof fn law_insert_then_get(m: Seq<(Seq<char>, Seq<char>)>, k: Seq<char>, v: Seq<char>, q: Seq<char>)
    ensures
        pm_get(pm_insert(m, k, v), q) == if q == k { Some(v) } else { pm_get(m, q) },
    decreases m.len(),
{
    if m.len() == 0 {
        assert(seq![(k, v)].drop_first() =~= Seq::<(Seq<char>, Seq<char>)>::empty());
        assert(pm_get(seq![(k, v)], q) == if k == q { Some(v) } else { pm_get(Seq::<(Seq<char>, Seq<char>)>::empty(), q) });
    } else if m[0].0 != k && !seq_lt(k, m[0].0) {
        law_insert_then_get(m.drop_first(), k, v, q);
        let r = seq![m[0]] + pm_insert(m.drop_first(), k, v);
        assert(pm_insert(m, k, v) == r);
        assert(r[0] == m[0]);
        assert(r.drop_first() =~= pm_insert(m.drop_first(), k, v));
        assert(pm_get(r, q) == if m[0].0 == q { Some(m[0].1) } else { pm_get(pm_insert(m.drop_first(), k, v), q) });
        assert(pm_get(m, q) == if m[0].0 == q { Some(m[0].1) } else { pm_get(m.drop_first(), q) });
    } else if m[0].0 == k {
        let r = seq![(k, v)] + m.drop_first();
        assert(pm_insert(m, k, v) == r);
        assert(r[0] == (k, v));
        assert(r.drop_first() =~= m.drop_first());
        assert(pm_get(r, q) == if k == q { Some(v) } else { pm_get(m.drop_first(), q) });
        assert(pm_get(m, q) == if m[0].0 == q { Some(m[0].1) } else { pm_get(m.drop_first(), q) });
    } else {
        let r = seq![(k, v)] + m;
        assert(pm_insert(m, k, v) == r);
        assert(r[0] == (k, v));
        assert(r.drop_first() =~= m);
        assert(pm_get(r, q) == if k == q { Some(v) } else { pm_get(m, q) });
    }
}

/// The value `b` gives `q` last, if it gives one.
pub open spec fn last_value(b: Seq<(Seq<char>, Seq<char>)>, q: Seq<char>) -> Option<Seq<char>>
    decreases b.len(),
{
    if b.len() == 0 {
        None
    } else if b.last().0 == q {
        Some(b.last().1)
    } else {
        last_value(b.drop_last(), q)
    }
}

/// Merging `b` over `a`: a key reads the last value `b` gives it, and
/// otherwise the value in `a` (a child's own style over what it inherits).
pub proof fn law_extend_overrides(a: Seq<(Seq<char>, Seq<char>)>, b: Seq<(Seq<char>, Seq<char>)>, q: Seq<char>)
    ensures
        pm_get(pm_extend(a, b), q) == match last_value(b, q) {
            Some(v) => Some(v),
            None => pm_get(a, q),
        },
    decreases b.len(),
{
    if b.len() > 0 {
        law_extend_overrides(a, b.drop_last(), q);
        law_insert_then_get(pm_extend(a, b.drop_last()), b.last().0, b.last().1, q);
    }
}

} // verus!
