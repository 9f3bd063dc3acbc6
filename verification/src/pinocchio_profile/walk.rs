//! Walking the expressions of Rust source text.
//!
//! A part of a text has fewer characters in its tokens than the text. Every walk
//! goes by that, and so comes to an end.
use vstd::prelude::*;

use crate::pinocchio_profile::syntax::{
    block_part, call_parts, element_parts, field_parts, if_parts, inner_expr, jump_value,
    match_parts, method_parts, pair_views, range_ends, statement_views, statements, struct_parts,
    syn_block, syn_call, syn_elements, syn_field, syn_if, syn_inner, syn_jump, syn_match,
    syn_method, syn_range, syn_statements, syn_struct, syn_tokens, syn_two, syn_while, token_text,
    two_parts, while_parts, Statement, StatementV,
};
use crate::search::{drop_char, opt_text, without_char};
use crate::text::{chars_of, texts, texts_add};

verus! {

broadcast use {crate::text::group_text, crate::text::texts_index, crate::text::texts_len};

/// The tokens of a text, without the spaces between them; the text without
/// spaces where it is not made of tokens.
pub open spec fn tokens(t: Seq<char>) -> Seq<char> {
    match syn_tokens(t) {
        Some(printed) => without_char(printed, ' '),
        None => without_char(t, ' '),
    }
}

/// The tokens of a text, without the spaces between them.
pub fn normalize_expr_tokens(t: &str) -> (r: String)
    ensures
        r@ == tokens(t@),
{
    match token_text(t) {
        Some(printed) => drop_char(&printed, ' '),
        None => drop_char(t, ' '),
    }
}

/// The number of characters in the tokens of a text. White space and comments
/// do not count, so that a part has fewer than the whole, however either is
/// laid out.
pub open spec fn size(t: Seq<char>) -> nat {
    tokens(t).len()
}

/// Whether `a` has fewer characters in its tokens than `b`.
pub fn shorter(a: &str, b: &str) -> (r: bool)
    ensures
        r == (size(a@) < size(b@)),
{
    let x = normalize_expr_tokens(a);
    let y = normalize_expr_tokens(b);
    chars_of(&x).len() < chars_of(&y).len()
}

/// The statements of a block.
pub open spec fn stmts_of(block: Seq<char>) -> Seq<StatementV> {
    match syn_statements(block) {
        Some(ss) => ss,
        None => Seq::empty(),
    }
}

/// The statements of a block.
pub fn stmts(block: &str) -> (r: Vec<Statement>)
    ensures
        statement_views(r@) == stmts_of(block@),
{
    match statements(block) {
        Some(ss) => ss,
        None => {
            let none: Vec<Statement> = Vec::new();
            proof {
                assert(statement_views(none@) =~= Seq::empty());
            }
            none
        },
    }
}

/// The expressions of the first `n` statements.
pub open spec fn exprs_upto(ss: Seq<StatementV>, n: nat) -> Seq<Seq<char>>
    decreases n,
{
    if n == 0 {
        Seq::empty()
    } else {
        match ss[n - 1].expr {
            Some(e) => exprs_upto(ss, (n - 1) as nat).push(e),
            None => exprs_upto(ss, (n - 1) as nat),
        }
    }
}

/// The expressions of the statements of a block.
pub open spec fn block_exprs(block: Seq<char>) -> Seq<Seq<char>> {
    exprs_upto(stmts_of(block), stmts_of(block).len())
}

/// The expressions of the statements of a block.
pub fn exprs_of_block(block: &str) -> (r: Vec<String>)
    ensures
        texts(r@) == block_exprs(block@),
{
    let ss = stmts(block);
    let ghost all = statement_views(ss@);
    let mut out: Vec<String> = Vec::new();
    for i in 0..ss.len()
        invariant
            all == statement_views(ss@),
            texts(out@) == exprs_upto(all, i as nat),
    {
        proof {
            assert(all[i as int].expr == opt_text(ss@[i as int].expr));
        }
        match &ss[i].expr {
            Some(e) => {
                out.push(e.clone());
            },
            None => {},
        }
    }
    out
}

pub open spec fn opt_list(o: Option<Seq<char>>) -> Seq<Seq<char>> {
    match o {
        Some(t) => seq![t],
        None => Seq::empty(),
    }
}

pub open spec fn seconds(v: Seq<(Seq<char>, Seq<char>)>) -> Seq<Seq<char>> {
    v.map_values(|p: (Seq<char>, Seq<char>)| p.1)
}

/// The expressions that stand directly in another, in the order of the text.
/// Where a block stands in it, these are the expressions of its statements.
pub open spec fn children(t: Seq<char>) -> Seq<Seq<char>> {
    match (syn_call(t), syn_method(t), syn_inner(t), syn_field(t), syn_two(t)) {
        (Some((f, args)), _, _, _, _) => seq![f] + args,
        (_, Some(m), _, _, _) => seq![m.receiver] + m.args,
        (_, _, Some((_, e)), _, _) => seq![e],
        (_, _, _, Some((base, _)), _) => seq![base],
        (_, _, _, _, Some((a, b))) => seq![a, b],
        _ => list_children(t),
    }
}

/// The expressions that stand in an array, a tuple, a range, a struct literal,
/// a `break`, `return` or `yield`.
pub open spec fn list_children(t: Seq<char>) -> Seq<Seq<char>> {
    match (syn_elements(t), syn_range(t), syn_struct(t), syn_jump(t)) {
        (Some((_, es)), _, _, _) => es,
        (_, Some((a, b)), _, _) => opt_list(a) + opt_list(b),
        (_, _, Some((fields, rest)), _) => seconds(fields) + opt_list(rest),
        (_, _, _, Some(value)) => opt_list(value),
        _ => block_children(t),
    }
}

/// The expressions that stand in an expression with a block or arms.
pub open spec fn block_children(t: Seq<char>) -> Seq<Seq<char>> {
    match (syn_block(t), syn_if(t), syn_match(t), syn_while(t)) {
        (Some((_, b)), _, _, _) => block_exprs(b),
        (_, Some(i), _, _) => seq![i.cond] + block_exprs(i.then_block) + opt_list(i.otherwise),
        (_, _, Some((e, arms)), _) => seq![e] + seconds(arms),
        (_, _, _, Some((cond, body))) => seq![cond] + block_exprs(body),
        _ => Seq::empty(),
    }
}

fn add_all(out: &mut Vec<String>, more: Vec<String>)
    ensures
        texts(final(out)@) == texts(old(out)@) + texts(more@),
{
    let mut more = more;
    let ghost a = out@;
    let ghost b = more@;
    out.append(&mut more);
    proof {
        texts_add(a, b);
    }
}

fn add_opt(out: &mut Vec<String>, more: Option<String>)
    ensures
        texts(final(out)@) == texts(old(out)@) + opt_list(opt_text(more)),
{
    match more {
        Some(t) => {
            let ghost before = texts(out@);
            let ghost tv = t@;
            out.push(t);
            proof {
                assert(texts(out@) =~= before + seq![tv]);
            }
        },
        None => {
            proof {
                assert(texts(out@) =~= texts(out@) + Seq::<Seq<char>>::empty());
            }
        },
    }
}

fn add_seconds(out: &mut Vec<String>, pairs: &Vec<(String, String)>)
    ensures
        texts(final(out)@) == texts(old(out)@) + seconds(pair_views(pairs@)),
{
    let ghost all = seconds(pair_views(pairs@));
    let ghost start = texts(out@);
    proof {
        assert(start + all.take(0) =~= start);
    }
    for i in 0..pairs.len()
        invariant
            all == seconds(pair_views(pairs@)),
            texts(out@) == start + all.take(i as int),
    {
        out.push(pairs[i].1.clone());
        proof {
            assert(start + all.take(i + 1) =~= (start + all.take(i as int)).push(
                pairs@[i as int].1@,
            ));
        }
    }
    proof {
        assert(all.take(all.len() as int) =~= all);
    }
}

fn one(e: String) -> (r: Vec<String>)
    ensures
        texts(r@) == seq![e@],
{
    let mut out: Vec<String> = Vec::new();
    let ghost t = e@;
    out.push(e);
    proof {
        assert(texts(out@) =~= seq![t]);
    }
    out
}

fn block_parts(expr: &str) -> (r: Vec<String>)
    ensures
        texts(r@) == block_children(expr@),
{
    match block_part(expr) {
        Some((_, block)) => {
            return exprs_of_block(&block);
        },
        None => {},
    }
    match if_parts(expr) {
        Some(i) => {
            let mut out = one(i.cond);
            add_all(&mut out, exprs_of_block(&i.then_block));
            add_opt(&mut out, i.otherwise);
            return out;
        },
        None => {},
    }
    match match_parts(expr) {
        Some((e, arms)) => {
            let mut out = one(e);
            add_seconds(&mut out, &arms);
            return out;
        },
        None => {},
    }
    match while_parts(expr) {
        Some((cond, body)) => {
            let mut out = one(cond);
            add_all(&mut out, exprs_of_block(&body));
            return out;
        },
        None => {},
    }
    Vec::new()
}

fn list_parts(expr: &str) -> (r: Vec<String>)
    ensures
        texts(r@) == list_children(expr@),
{
    match element_parts(expr) {
        Some((_, es)) => {
            return es;
        },
        None => {},
    }
    let mut out: Vec<String> = Vec::new();
    proof {
        assert forall|s: Seq<Seq<char>>| #[trigger] (Seq::<Seq<char>>::empty() + s) == s by {
            assert(Seq::<Seq<char>>::empty() + s =~= s);
        }
    }
    match range_ends(expr) {
        Some((a, b)) => {
            add_opt(&mut out, a);
            add_opt(&mut out, b);
            return out;
        },
        None => {},
    }
    match struct_parts(expr) {
        Some((fields, rest)) => {
            add_seconds(&mut out, &fields);
            add_opt(&mut out, rest);
            return out;
        },
        None => {},
    }
    match jump_value(expr) {
        Some(value) => {
            add_opt(&mut out, value);
            return out;
        },
        None => {},
    }
    block_parts(expr)
}

/// The expressions that stand directly in another.
pub fn child_exprs(expr: &str) -> (r: Vec<String>)
    ensures
        texts(r@) == children(expr@),
{
    match call_parts(expr) {
        Some((f, args)) => {
            let mut out = one(f);
            add_all(&mut out, args);
            return out;
        },
        None => {},
    }
    match method_parts(expr) {
        Some(m) => {
            let mut out = one(m.receiver);
            add_all(&mut out, m.args);
            return out;
        },
        None => {},
    }
    match inner_expr(expr) {
        Some((_, e)) => {
            return one(e);
        },
        None => {},
    }
    match field_parts(expr) {
        Some((base, _)) => {
            return one(base);
        },
        None => {},
    }
    match two_parts(expr) {
        Some((a, b)) => {
            let ghost av = a@;
            let ghost bv = b@;
            let mut out = one(a);
            out.push(b);
            proof {
                assert(texts(out@) =~= seq![av, bv]);
            }
            return out;
        },
        None => {},
    }
    list_parts(expr)
}

/// An expression and all expressions in it: each before those in it, and in the
/// order of the text.
pub open spec fn walked(t: Seq<char>) -> Seq<Seq<char>>
    decreases size(t), 1nat, 0nat,
{
    seq![t] + walked_upto(children(t), size(t), children(t).len())
}

/// The first `n` expressions with all expressions in them, as far as their
/// sizes are below `bound`.
pub open spec fn walked_upto(es: Seq<Seq<char>>, bound: nat, n: nat) -> Seq<Seq<char>>
    decreases bound, 0nat, n,
{
    if n == 0 {
        Seq::empty()
    } else {
        walked_upto(es, bound, (n - 1) as nat) + (if size(es[n - 1]) < bound {
            walked(es[n - 1])
        } else {
            Seq::empty()
        })
    }
}

/// Adds an expression and all expressions in it.
pub fn walk_expr(expr: &str, out: &mut Vec<String>)
    ensures
        texts(final(out)@) == texts(old(out)@) + walked(expr@),
    decreases size(expr@),
{
    let ghost start = texts(out@);
    let ghost bound = size(expr@);
    let cs = child_exprs(expr);
    let ghost all = texts(cs@);
    out.push(expr.to_owned());
    proof {
        assert(texts(out@) =~= (start + seq![expr@]) + Seq::<Seq<char>>::empty());
    }
    for i in 0..cs.len()
        invariant
            all == texts(cs@),
            bound == size(expr@),
            texts(out@) == (start + seq![expr@]) + walked_upto(all, bound, i as nat),
    {
        let ghost before = walked_upto(all, bound, i as nat);
        if shorter(&cs[i], expr) {
            walk_expr(&cs[i], out);
            proof {
                assert((start + seq![expr@]) + (before + walked(all[i as int])) =~= ((start + seq![
                    expr@,
                ]) + before) + walked(all[i as int]));
            }
        } else {
            proof {
                assert(before + Seq::<Seq<char>>::empty() =~= before);
            }
        }
    }
    proof {
        let rest = walked_upto(all, bound, all.len());
        assert((start + seq![expr@]) + rest =~= start + (seq![expr@] + rest));
    }
}

/// The first `n` expressions with all expressions in them.
pub open spec fn walked_all(es: Seq<Seq<char>>, n: nat) -> Seq<Seq<char>>
    decreases n,
{
    if n == 0 {
        Seq::empty()
    } else {
        walked_all(es, (n - 1) as nat) + walked(es[n - 1])
    }
}

/// All expressions in a block.
pub open spec fn walked_block(block: Seq<char>) -> Seq<Seq<char>> {
    walked_all(block_exprs(block), block_exprs(block).len())
}

/// All expressions in a block.
pub fn walk_block(block: &str) -> (r: Vec<String>)
    ensures
        texts(r@) == walked_block(block@),
{
    let es = exprs_of_block(block);
    let ghost all = texts(es@);
    let mut out: Vec<String> = Vec::new();
    for i in 0..es.len()
        invariant
            all == texts(es@),
            texts(out@) == walked_all(all, i as nat),
    {
        walk_expr(&es[i], &mut out);
    }
    out
}

/// All expressions in an expression.
pub fn walk(expr: &str) -> (r: Vec<String>)
    ensures
        texts(r@) == walked(expr@),
{
    let mut out: Vec<String> = Vec::new();
    walk_expr(expr, &mut out);
    proof {
        assert(Seq::<Seq<char>>::empty() + walked(expr@) =~= walked(expr@));
    }
    out
}

} // verus!
