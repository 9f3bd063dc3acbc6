//! Subscripts: indexed reads and writes in expressions.
use vstd::prelude::*;

use crate::mir::{Symbol, Ty};
use crate::search::{
    char_at_or_after, contains, contains_text, find_char_from, lemma_char_at_or_after,
    starts_with, starts_with_text, strip_prefix, without_char, without_prefix, drop_char,
};
use crate::split::{last_char_before, trim, trim_text};
use crate::text::{chars_of, digit, ident_char, is_ascii_letter, ascii_letter, is_digit, is_ident_char, same, slice_text};

verus! {

broadcast use crate::text::group_text;

/// Where the path that ends before `to` starts: a path holds letters, digits,
/// underscores and dots.
pub open spec fn path_start(s: Seq<char>, to: int) -> int
    decreases to,
{
    if 0 < to <= s.len() && (is_ident_char(s[to - 1]) || s[to - 1] == '.') {
        path_start(s, to - 1)
    } else {
        to
    }
}

fn find_path_start(v: &Vec<char>, to: usize) -> (k: usize)
    requires
        to <= v@.len(),
    ensures
        k == path_start(v@, to as int),
        k <= to,
{
    let mut k: usize = to;
    while k > 0 && (ident_char(v[k - 1]) || v[k - 1] == '.')
        invariant
            k <= to <= v@.len(),
            path_start(v@, to as int) == path_start(v@, k as int),
        decreases k,
    {
        k = k - 1;
    }
    k
}

/// The part of a path after its last dot.
pub open spec fn path_root(p: Seq<char>) -> Seq<char> {
    match last_char_before(p, '.', p.len() as int) {
        Some(i) => p.subrange(i + 1, p.len() as int),
        None => p,
    }
}

fn root_of(p: &str) -> (r: String)
    ensures
        r@ == path_root(p@),
{
    let v = chars_of(p);
    let mut i: usize = v.len();
    while i > 0
        invariant
            i <= v@.len(),
            v@ == p@,
            last_char_before(p@, '.', p@.len() as int) == last_char_before(p@, '.', i as int),
        decreases i,
    {
        if v[i - 1] == '.' {
            return slice_text(&v, i, v.len());
        }
        i = i - 1;
    }
    proof {
        assert(p@.subrange(0, p@.len() as int) =~= p@);
    }
    slice_text(&v, 0, v.len())
}

/// The indexed reads of an expression from `i` on: the index and the root of
/// each, where neither is empty.
pub open spec fn reads_from(s: Seq<char>, i: int) -> Seq<(Seq<char>, Seq<char>)>
    decreases s.len() - i,
    via reads_from_decreases
{
    if i < 0 || i >= s.len() {
        Seq::empty()
    } else if s[i] != '[' {
        reads_from(s, i + 1)
    } else {
        match char_at_or_after(s, ']', i + 1) {
            Some(close) => {
                let idx = trim_text(s.subrange(i + 1, close));
                let root = path_root(s.subrange(path_start(s, i), i));
                if idx.len() > 0 && root.len() > 0 {
                    seq![(idx, root)] + reads_from(s, close + 1)
                } else {
                    reads_from(s, close + 1)
                }
            },
            None => reads_from(s, i + 1),
        }
    }
}

#[via_fn]
proof fn reads_from_decreases(s: Seq<char>, i: int) {
    if 0 <= i < s.len() {
        lemma_char_at_or_after(s, ']', i + 1);
    }
}

/// The indexed reads of an expression.
pub open spec fn indexed_reads(s: Seq<char>) -> Seq<(Seq<char>, Seq<char>)> {
    reads_from(s, 0)
}

/// Indexes with their roots.
pub open spec fn read_views(v: Seq<(String, String)>) -> Seq<(Seq<char>, Seq<char>)> {
    Seq::new(v.len(), |i: int| (v[i].0@, v[i].1@))
}

/// The indexed reads of an expression.
pub fn scan_indexed_in_expr(expr: &str) -> (r: Vec<(String, String)>)
    ensures
        read_views(r@) == indexed_reads(expr@),
{
    let v = chars_of(expr);
    let mut out: Vec<(String, String)> = Vec::new();
    let mut i: usize = 0;
    proof {
        assert(read_views(out@) + reads_from(expr@, 0) =~= reads_from(expr@, 0));
    }
    while i < v.len()
        invariant
            v@ == expr@,
            i <= v.len(),
            read_views(out@) + reads_from(expr@, i as int) == indexed_reads(expr@),
        decreases v.len() - i,
    {
        if v[i] != '[' {
            i = i + 1;
        } else {
            match find_char_from(&v, ']', i + 1) {
                Some(close) => {
                    let idx = trim(&slice_text(&v, i + 1, close));
                    let k = find_path_start(&v, i);
                    let root = root_of(&slice_text(&v, k, i));
                    if !idx.as_str().is_empty() && !root.as_str().is_empty() {
                        let ghost before = read_views(out@);
                        let ghost x = (idx@, root@);
                        out.push((idx, root));
                        proof {
                            assert(read_views(out@) =~= before.push(x));
                            assert(before + (seq![x] + reads_from(expr@, close + 1))
                                =~= before.push(x) + reads_from(expr@, close + 1));
                        }
                    }
                    i = close + 1;
                },
                None => {
                    i = i + 1;
                },
            }
        }
    }
    proof {
        assert(read_views(out@) + reads_from(expr@, i as int) =~= read_views(out@));
    }
    out
}

/// The path of a subscript as Lean has it: a leading `state.` becomes `s.`.
pub open spec fn state_path(path: Seq<char>) -> Seq<char> {
    match without_prefix(path, "state."@) {
        Some(rest) => "s."@ + rest,
        None => path,
    }
}

/// What has been written with the text from `i` on behind it, where every
/// subscript becomes an application: `p[i]` becomes `(p i)`, and
/// `state.p[i]` becomes `(s.p i)`.
pub open spec fn applied_from(out: Seq<char>, s: Seq<char>, i: int) -> Seq<char>
    decreases s.len() - i,
    via applied_from_decreases
{
    if i < 0 || i >= s.len() {
        out
    } else if s[i] != '[' {
        applied_from(out.push(s[i]), s, i + 1)
    } else {
        match char_at_or_after(s, ']', i + 1) {
            Some(close) => {
                let k = path_start(out, out.len() as int);
                let path = out.subrange(k, out.len() as int);
                let idx = trim_text(s.subrange(i + 1, close));
                applied_from(
                    out.subrange(0, k) + "("@ + state_path(path) + " "@ + idx + ")"@,
                    s,
                    close + 1,
                )
            },
            None => applied_from(out.push('['), s, i + 1),
        }
    }
}

#[via_fn]
proof fn applied_from_decreases(out: Seq<char>, s: Seq<char>, i: int) {
    if 0 <= i < s.len() {
        lemma_char_at_or_after(s, ']', i + 1);
    }
}

/// An expression with every subscript as an application.
pub open spec fn applied_text(s: Seq<char>) -> Seq<char> {
    applied_from(Seq::empty(), s, 0)
}

/// Rewrites every subscript as an application.
pub fn rewrite_subscripts_lean(s: &str) -> (r: String)
    ensures
        r@ == applied_text(s@),
{
    let v = chars_of(s);
    let mut out = String::new();
    let mut i: usize = 0;
    while i < v.len()
        invariant
            v@ == s@,
            i <= v.len(),
            applied_from(out@, s@, i as int) == applied_text(s@),
        decreases v.len() - i,
    {
        if v[i] != '[' {
            out.push(v[i]);
            i = i + 1;
        } else {
            match find_char_from(&v, ']', i + 1) {
                Some(close) => {
                    let w = chars_of(&out);
                    let k = find_path_start(&w, w.len());
                    let idx = trim(&slice_text(&v, i + 1, close));
                    let path = slice_text(&w, k, w.len());
                    let mut next = slice_text(&w, 0, k);
                    next.push_str("(");
                    match strip_prefix(&path, "state.") {
                        Some(rest) => {
                            next.push_str("s.");
                            next.push_str(&rest);
                        },
                        None => {
                            next.push_str(&path);
                        },
                    }
                    next.push_str(" ");
                    next.push_str(&idx);
                    next.push_str(")");
                    out = next;
                    i = close + 1;
                },
                None => {
                    out.push('[');
                    i = i + 1;
                },
            }
        }
    }
    out
}

/// The root, the index and the inner field of an indexed target; the inner
/// field is empty where the target is the whole entry.
pub open spec fn indexed_target(lhs: Seq<char>) -> Option<(Seq<char>, Seq<char>, Seq<char>)> {
    match char_at_or_after(lhs, '[', 0) {
        Some(open) => {
            let rest = lhs.subrange(open + 1, lhs.len() as int);
            match char_at_or_after(rest, ']', 0) {
                Some(close) => {
                    let after = rest.subrange(close + 1, rest.len() as int);
                    Some(
                        (
                            lhs.subrange(0, open),
                            rest.subrange(0, close),
                            if after.len() > 0 && after[0] == '.' {
                                after.drop_first()
                            } else {
                                after
                            },
                        ),
                    )
                },
                None => None,
            }
        },
        None => None,
    }
}

/// The view of an indexed target.
pub open spec fn opt_target(o: Option<(String, String, String)>) -> Option<
    (Seq<char>, Seq<char>, Seq<char>),
> {
    match o {
        Some(t) => Some((t.0@, t.1@, t.2@)),
        None => None,
    }
}

/// Reads an indexed target.
pub fn parse_indexed_lhs(lhs: &str) -> (r: Option<(String, String, String)>)
    ensures
        opt_target(r) == indexed_target(lhs@),
{
    let v = chars_of(lhs);
    match find_char_from(&v, '[', 0) {
        Some(open) => {
            let rest = chars_of(&slice_text(&v, open + 1, v.len()));
            match find_char_from(&rest, ']', 0) {
                Some(close) => {
                    let start: usize = if close + 1 < rest.len() && rest[close + 1] == '.' {
                        close + 2
                    } else {
                        close + 1
                    };
                    let inner = slice_text(&rest, start, rest.len());
                    proof {
                        let after = rest@.subrange(close + 1, rest.len() as int);
                        if start == close + 2 {
                            assert(after.drop_first() =~= inner@);
                        }
                    }
                    Some((slice_text(&v, 0, open), slice_text(&rest, 0, close), inner))
                },
                None => None,
            }
        },
        None => None,
    }
}

/// Digits, underscores and minus signs only, and at least one.
pub open spec fn is_number_text(s: Seq<char>) -> bool {
    s.len() > 0 && forall|i: int|
        0 <= i < s.len() ==> is_digit(#[trigger] s[i]) || s[i] == '_' || s[i] == '-'
}

fn number_text(s: &str) -> (r: bool)
    ensures
        r == is_number_text(s@),
{
    let v = chars_of(s);
    if v.len() == 0 {
        return false;
    }
    for i in 0..v.len()
        invariant
            v@ == s@,
            forall|k: int| 0 <= k < i ==> is_digit(#[trigger] s@[k]) || s@[k] == '_' || s@[k] == '-',
    {
        if !digit(v[i]) && v[i] != '_' && v[i] != '-' {
            proof {
                assert(!(is_digit(s@[i as int]) || s@[i as int] == '_' || s@[i as int] == '-'));
            }
            return false;
        }
    }
    true
}

/// ASCII letters, digits and underscores only.
pub open spec fn is_bare(s: Seq<char>) -> bool {
    forall|i: int| 0 <= i < s.len() ==> is_ident_char(#[trigger] s[i])
}

fn bare(s: &str) -> (r: bool)
    ensures
        r == is_bare(s@),
{
    let v = chars_of(s);
    for i in 0..v.len()
        invariant
            v@ == s@,
            forall|k: int| 0 <= k < i ==> is_ident_char(#[trigger] s@[k]),
    {
        if !ident_char(v[i]) {
            proof {
                assert(!is_ident_char(s@[i as int]));
            }
            return false;
        }
    }
    true
}

/// Whether one of the first `n` parameters has the name.
pub open spec fn names_param(params: Seq<(Symbol, Ty)>, name: Seq<char>, n: nat) -> bool
    decreases n,
{
    if n == 0 {
        false
    } else {
        names_param(params, name, (n - 1) as nat) || params[n - 1].0@ == name
    }
}

fn has_param(params: &Vec<(Symbol, Ty)>, name: &str) -> (r: bool)
    ensures
        r == names_param(params@, name@, params@.len()),
{
    let mut found: bool = false;
    for i in 0..params.len()
        invariant
            found == names_param(params@, name@, i as nat),
    {
        if same(&params[i].0, name) {
            found = true;
        }
    }
    found
}

/// Whether an expression is rendered for Lean already.
pub open spec fn is_rendered(t: Seq<char>) -> bool {
    starts_with_text(t, "s."@) || starts_with_text(t, "s'."@) || starts_with_text(t, "("@)
        || contains_text(t, "match "@) || contains_text(t, "=> "@) || contains_text(t, " with "@)
        || contains_text(t, ".{"@)
}

fn rendered(t: &str) -> (r: bool)
    ensures
        r == is_rendered(t@),
{
    starts_with(t, "s.") || starts_with(t, "s'.") || starts_with(t, "(") || contains(t, "match ")
        || contains(t, "=> ") || contains(t, " with ") || contains(t, ".{")
}

/// The value of an effect in Lean: numbers lose their underscores, parameters
/// stay, field names take the prefix of the state.
#[verifier::opaque]
pub open spec fn effect_text(value: Seq<char>, params: Seq<(Symbol, Ty)>) -> Seq<char> {
    let t = trim_text(value);
    if is_number_text(t) {
        without_char(t, '_')
    } else if is_bare(t) && names_param(params, t, params.len()) {
        t
    } else if is_rendered(t) {
        applied_text(t)
    } else if t.len() == 0 || is_ascii_letter(t[0]) || t[0] == '_' {
        applied_text("s."@ + t)
    } else {
        applied_text(t)
    }
}

/// Renders the value of an effect.
pub fn effect_value_to_lean(value: &str, params: &Vec<(Symbol, Ty)>) -> (r: String)
    ensures
        r@ == effect_text(value@, params@),
{
    proof {
        reveal(effect_text);
    }
    let t = trim(value);
    if number_text(&t) {
        return drop_char(&t, '_');
    }
    if bare(&t) && has_param(params, &t) {
        return t;
    }
    if rendered(&t) {
        return rewrite_subscripts_lean(&t);
    }
    let v = chars_of(&t);
    if v.len() == 0 || ascii_letter(v[0]) || v[0] == '_' {
        let mut p = "s.".to_owned();
        p.push_str(&t);
        rewrite_subscripts_lean(&p)
    } else {
        rewrite_subscripts_lean(&t)
    }
}

} // verus!
