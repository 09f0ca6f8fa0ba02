//! Line-level helpers for passes that rewrite generated SRNG text: leading
//! white space, prefixes, substrings, replacement, and the value of a
//! `key: value;` property line.
use vstd::prelude::*;
use crate::formatter::{is_ws, trim, trim_chars, ws, ws_start};
use crate::resources::{unquote_spec, unescape};
use crate::text::{append_chars, append_str, chars_of, string_of, sub_chars};

verus! {

/// `str::trim_start`.
pub open spec fn trim_start(s: Seq<char>) -> Seq<char> {
    s.subrange(lead_len(s), s.len() as int)
}

/// The length of the leading white space.
pub open spec fn lead_len(s: Seq<char>) -> int {
    if 0 <= ws_start(s, 0) <= s.len() { ws_start(s, 0) } else { 0 }
}

pub open spec fn starts_with(s: Seq<char>, p: Seq<char>) -> bool {
    s.len() >= p.len() && s.subrange(0, p.len() as int) == p
}

pub open spec fn ends_with(s: Seq<char>, p: Seq<char>) -> bool {
    s.len() >= p.len() && s.subrange(s.len() - p.len(), s.len() as int) == p
}

pub open spec fn occurs_at(s: Seq<char>, p: Seq<char>, i: int) -> bool {
    0 <= i && i + p.len() <= s.len() && s.subrange(i, i + p.len()) == p
}

pub open spec fn contains(s: Seq<char>, p: Seq<char>) -> bool {
    exists|i: int| #[trigger] occurs_at(s, p, i)
}

pub fn lead_len_exec(s: &Vec<char>) -> (k: usize)
    ensures
        k == lead_len(s@),
        k <= s@.len(),
{
    let n = s.len();
    let mut k: usize = 0;
    while k < n && ws(s[k])
        invariant
            k <= n,
            n == s@.len(),
            ws_start(s@, k as int) == ws_start(s@, 0),
        decreases n - k,
    {
        k += 1;
    }
    k
}

pub fn starts_with_exec(s: &Vec<char>, p: &str) -> (b: bool)
    ensures
        b == starts_with(s@, p@),
{
    let q = chars_of(p);
    if s.len() < q.len() {
        return false;
    }
    crate::parser::chars_eq(&sub_chars(s, 0, q.len()), &q)
}

pub fn ends_with_exec(s: &Vec<char>, p: &str) -> (b: bool)
    ensures
        b == ends_with(s@, p@),
{
    let q = chars_of(p);
    let n = s.len();
    if n < q.len() {
        return false;
    }
    crate::parser::chars_eq(&sub_chars(s, n - q.len(), n), &q)
}

pub fn occurs_at_exec(s: &Vec<char>, p: &Vec<char>, i: usize) -> (b: bool)
    ensures
        b == occurs_at(s@, p@, i as int),
{
    let n = s.len();
    let m = p.len();
    if i > n || n - i < m {
        return false;
    }
    let mut k: usize = 0;
    while k < m
        invariant
            k <= m,
            m == p@.len(),
            n == s@.len(),
            i + m <= n,
            forall|j: int| 0 <= j < k ==> s@[i + j] == p@[j],
        decreases m - k,
    {
        if s[i + k] != p[k] {
            assert(s@.subrange(i as int, i + m)[k as int] != p@[k as int]);
            return false;
        }
        k += 1;
    }
    assert(s@.subrange(i as int, i + m) =~= p@);
    true
}

pub fn contains_exec(s: &Vec<char>, p: &str) -> (b: bool)
    ensures
        b == contains(s@, p@),
{
    let q = chars_of(p);
    let n = s.len();
    let mut i: usize = 0;
    while i < n
        invariant
            i <= n,
            n == s@.len(),
            q@ == p@,
            forall|j: int| 0 <= j < i ==> !#[trigger] occurs_at(s@, p@, j),
        decreases n - i,
    {
        if occurs_at_exec(s, &q, i) {
            return true;
        }
        i += 1;
    }
    if occurs_at_exec(s, &q, n) {
        return true;
    }
    assert forall|j: int| !#[trigger] occurs_at(s@, p@, j) by {
        if j > n as int {
            assert(j + p@.len() > s@.len());
        }
    }
    false
}

/// The value of the property line `prefix value;`, unquoted.
pub open spec fn property_value(line: Seq<char>, prefix: Seq<char>) -> Option<Seq<char>> {
    if starts_with(line, prefix) {
        let rest = trim(line.subrange(prefix.len() as int, line.len() as int));
        if rest.len() > 0 && rest.last() == ';' {
            Some(unquote_spec(trim(rest.drop_last())))
        } else {
            None
        }
    } else {
        None
    }
}

pub fn property_value_exec(line: &Vec<char>, prefix: &str) -> (r: Option<Vec<char>>)
    ensures
        match property_value(line@, prefix@) {
            Some(v) => r is Some && r->0@ == v,
            None => r is None,
        },
{
    if !starts_with_exec(line, prefix) {
        return None;
    }
    let m = chars_of(prefix).len();
    let rest = trim_chars(&sub_chars(line, m, line.len()));
    let k = rest.len();
    if k == 0 || rest[k - 1] != ';' {
        return None;
    }
    let head = sub_chars(&rest, 0, k - 1);
    assert(head@ =~= rest@.drop_last());
    let body = trim_chars(&head);
    let v = crate::resources::unquote(string_of(&body).as_str());
    Some(chars_of(v.as_str()))
}

/// The id in `url(#id)` (after trimming).
pub open spec fn url_fragment(v: Seq<char>) -> Option<Seq<char>> {
    let t = trim(v);
    if t.len() >= 6 && t.subrange(0, 5) == "url(#"@ && t.last() == ')' {
        Some(t.subrange(5, t.len() - 1))
    } else {
        None
    }
}

pub fn url_fragment_exec(v: &Vec<char>) -> (r: Option<Vec<char>>)
    ensures
        match url_fragment(v@) {
            Some(x) => r is Some && r->0@ == x,
            None => r is None,
        },
{
    let t = trim_chars(v);
    let n = t.len();
    proof {
        reveal_strlit("url(#");
    }
    if n >= 6 && starts_with_exec(&t, "url(#") && t[n - 1] == ')' {
        Some(sub_chars(&t, 5, n - 1))
    } else {
        None
    }
}

/// Every non-overlapping occurrence of `from` (non-empty), scanning left to
/// right, replaced by `to`.
pub open spec fn replace_from(s: Seq<char>, from: Seq<char>, to: Seq<char>, i: int) -> Seq<char>
    decreases s.len() - i,
{
    if i < 0 || i >= s.len() || from.len() == 0 {
        if 0 <= i <= s.len() { s.subrange(i, s.len() as int) } else { Seq::empty() }
    } else if occurs_at(s, from, i) {
        to + replace_from(s, from, to, i + from.len())
    } else {
        seq![s[i]] + replace_from(s, from, to, i + 1)
    }
}

pub open spec fn replace_all(s: Seq<char>, from: Seq<char>, to: Seq<char>) -> Seq<char> {
    replace_from(s, from, to, 0)
}

/// `str::replace` for a non-empty pattern.
pub fn replace_all_exec(s: &Vec<char>, from: &str, to: &str) -> (r: Vec<char>)
    requires
        from@.len() > 0,
    ensures
        r@ == replace_all(s@, from@, to@),
{
    let f = chars_of(from);
    let t = chars_of(to);
    let n = s.len();
    let m = f.len();
    let mut out: Vec<char> = Vec::new();
    let mut i: usize = 0;
    while i < n
        invariant
            i <= n,
            n == s@.len(),
            m == f@.len(),
            m > 0,
            f@ == from@,
            t@ == to@,
            out@ + replace_from(s@, from@, to@, i as int) == replace_all(s@, from@, to@),
        decreases n - i,
    {
        let ghost before = out@;
        if occurs_at_exec(s, &f, i) {
            append_chars(&mut out, &t);
            assert(out@ + replace_from(s@, from@, to@, i + m) =~= before + replace_from(s@, from@, to@, i as int));
            i += m;
        } else {
            out.push(s[i]);
            assert(out@ + replace_from(s@, from@, to@, i + 1) =~= before + replace_from(s@, from@, to@, i as int));
            i += 1;
        }
    }
    assert(replace_from(s@, from@, to@, i as int) =~= Seq::<char>::empty());
    assert(out@ =~= replace_all(s@, from@, to@));
    out
}

} // verus!
