//! Environments: properties hold when something outside changes the state.
use vstd::prelude::*;

use crate::lean::base::{render_ty, safe_name, safe_text, ty_text, RULE};
use crate::lean::scope::{Scope, ScopeV};
use crate::mir::{EnvironmentMir, Predicate, PropertyMir, Symbol, Ty};
use crate::number::{decimal, push_decimal};
use crate::pattern::{replace_word, word_replaced};
use crate::search::{contains, contains_text, replace, replaced};
use crate::text::{join, join_text, texts};

verus! {

broadcast use {crate::text::group_text, crate::text::texts_index, crate::text::texts_len};

/// Binders for the new values of the first `n` fields.
pub open spec fn new_binders(ms: Seq<(Symbol, Ty)>, n: nat) -> Seq<char>
    decreases n,
{
    if n == 0 {
        Seq::empty()
    } else {
        new_binders(ms, (n - 1) as nat) + (" (new_"@ + ms[n - 1].0@ + " : "@ + ty_text(ms[n - 1].1) + ")"@)
    }
}

fn emit_new_binders(out: &mut String, ms: &Vec<(Symbol, Ty)>)
    ensures
        final(out)@ == old(out)@ + new_binders(ms@, ms@.len()),
{
    for i in 0..ms.len()
        invariant
            out@ == old(out)@ + new_binders(ms@, i as nat),
    {
        let ty = render_ty(&ms[i].1);
        out.push_str(" (new_");
        out.push_str(&ms[i].0);
        out.push_str(" : ");
        out.push_str(&ty);
        out.push_str(")");
    }
}

/// A constraint over the new values of the first `n` fields. A field stands for
/// its new value behind a prefix and without one.
pub open spec fn over_new(expr: Seq<char>, ms: Seq<(Symbol, Ty)>, n: nat) -> Seq<char>
    decreases n,
{
    if n == 0 {
        expr
    } else {
        let before = over_new(expr, ms, (n - 1) as nat);
        let field = ms[n - 1].0@;
        let new = "new_"@ + field;
        let prefixless = replaced(replaced(before, "s."@ + field, new), "state."@ + field, new);
        word_replaced(prefixless, field, new)
    }
}

fn rewrite_constraint(expr: &str, ms: &Vec<(Symbol, Ty)>) -> (r: String)
    ensures
        r@ == over_new(expr@, ms@, ms@.len()),
{
    proof {
        reveal_strlit("s.");
        reveal_strlit("state.");
    }
    let mut out = expr.to_owned();
    for i in 0..ms.len()
        invariant
            "s."@.len() == 2,
            "state."@.len() == 6,
            out@ == over_new(expr@, ms@, i as nat),
    {
        let field = &ms[i].0;
        let mut new = "new_".to_owned();
        new.push_str(field);
        let mut short = "s.".to_owned();
        short.push_str(field);
        let mut long = "state.".to_owned();
        long.push_str(field);
        out = replace(&out, &short, &new);
        out = replace(&out, &long, &new);
        out = replace_word(&out, field, &new);
    }
    out
}

/// Hypotheses for the first `n` constraints.
pub open spec fn constraint_hyps(
    cs: Seq<Predicate>,
    ms: Seq<(Symbol, Ty)>,
    n: nat,
) -> Seq<char>
    decreases n,
{
    if n == 0 {
        Seq::empty()
    } else {
        constraint_hyps(cs, ms, (n - 1) as nat) + ("\n    (h_c"@ + decimal((n - 1) as nat) + " : "@ + over_new(cs[n - 1].0.lean@, ms, ms.len()) + ")"@)
    }
}

fn emit_constraint_hyps(
    out: &mut String,
    cs: &Vec<Predicate>,
    ms: &Vec<(Symbol, Ty)>,
)
    ensures
        final(out)@ == old(out)@ + constraint_hyps(cs@, ms@, cs@.len()),
{
    for i in 0..cs.len()
        invariant
            out@ == old(out)@ + constraint_hyps(cs@, ms@, i as nat),
    {
        let expr = rewrite_constraint(&cs[i].0.lean, ms);
        out.push_str("\n    (h_c");
        push_decimal(out, i as u128);
        out.push_str(" : ");
        out.push_str(&expr);
        out.push_str(")");
    }
}

/// The updates to the new values of the first `n` fields.
pub open spec fn new_writes(ms: Seq<(Symbol, Ty)>, n: nat) -> Seq<Seq<char>>
    decreases n,
{
    if n == 0 {
        Seq::empty()
    } else {
        new_writes(ms, (n - 1) as nat).push(safe_text(ms[n - 1].0@) + " := new_"@ + ms[n - 1].0@)
    }
}

fn new_write_list(ms: &Vec<(Symbol, Ty)>) -> (r: Vec<String>)
    ensures
        texts(r@) == new_writes(ms@, ms@.len()),
{
    let mut out: Vec<String> = Vec::new();
    for i in 0..ms.len()
        invariant
            texts(out@) == new_writes(ms@, i as nat),
    {
        let mut p = safe_name(&ms[i].0);
        p.push_str(" := new_");
        p.push_str(&ms[i].0);
        out.push(p);
    }
    out
}

/// Whether an expression speaks of one of the first `n` fields.
pub open spec fn speaks_of(expr: Seq<char>, ms: Seq<(Symbol, Ty)>, n: nat) -> bool
    decreases n,
{
    if n == 0 {
        false
    } else {
        speaks_of(expr, ms, (n - 1) as nat) || contains_text(
            expr,
            "s."@ + safe_text(ms[n - 1].0@),
        ) || contains_text(expr, "state."@ + ms[n - 1].0@)
    }
}

fn mentions_mutated(expr: &str, ms: &Vec<(Symbol, Ty)>) -> (r: bool)
    ensures
        r == speaks_of(expr@, ms@, ms@.len()),
{
    let mut found: bool = false;
    for i in 0..ms.len()
        invariant
            found == speaks_of(expr@, ms@, i as nat),
    {
        let name = safe_name(&ms[i].0);
        let mut short = "s.".to_owned();
        short.push_str(&name);
        let mut long = "state.".to_owned();
        long.push_str(&ms[i].0);
        if contains(expr, &short) || contains(expr, &long) {
            found = true;
        }
    }
    found
}

/// The theorem that a property holds in an environment; nothing for a property
/// without a predicate.
#[verifier::opaque]
pub open spec fn under_text(env: EnvironmentMir, p: PropertyMir) -> Seq<char> {
    match p.expression {
        Some(e) => {
            let ms = env.mutates@;
            "theorem "@ + p.name@ + "_under_"@ + env.name@ + " (s : State)"@ + new_binders(ms, ms.len()) + constraint_hyps(env.constraints@, ms, env.constraints@.len()) + "\n"@
                + ("    (h_inv : "@ + p.name@ + " s) :\n"@ + "    "@ + p.name@ + " { s with "@ + join_text(new_writes(ms, ms.len()), ", "@) + " } := "@)
                + (if speaks_of(e.lean@, ms, ms.len()) {
                "sorry\n\n"@
            } else {
                "by\n  unfold "@ + p.name@ + " at h_inv ⊢; dsimp; exact h_inv\n\n"@
            })
        },
        None => Seq::empty(),
    }
}

fn emit_under(out: &mut String, env: &EnvironmentMir, p: &PropertyMir)
    ensures
        final(out)@ == old(out)@ + under_text(*env, *p),
{
    proof {
        reveal(under_text);
    }
    match &p.expression {
        Some(e) => {
            out.push_str("theorem ");
            out.push_str(&p.name);
            out.push_str("_under_");
            out.push_str(&env.name);
            out.push_str(" (s : State)");
            emit_new_binders(out, &env.mutates);
            emit_constraint_hyps(out, &env.constraints, &env.mutates);
            let writes = new_write_list(&env.mutates);
            let joined = join(&writes, ", ");
            out.push_str("\n");
            out.push_str("    (h_inv : ");
            out.push_str(&p.name);
            out.push_str(" s) :\n");
            out.push_str("    ");
            out.push_str(&p.name);
            out.push_str(" { s with ");
            out.push_str(&joined);
            out.push_str(" } := ");
            if mentions_mutated(&e.lean, &env.mutates) {
                out.push_str("sorry\n\n");
            } else {
                out.push_str("by\n  unfold ");
                out.push_str(&p.name);
                out.push_str(" at h_inv ⊢; dsimp; exact h_inv\n\n");
            }
        },
        None => {},
    }
}

pub open spec fn unders_upto(env: EnvironmentMir, ps: Seq<PropertyMir>, n: nat) -> Seq<
    char,
>
    decreases n,
{
    if n == 0 {
        Seq::empty()
    } else {
        unders_upto(env, ps, (n - 1) as nat) + under_text(env, ps[n - 1])
    }
}

pub open spec fn envs_upto(sc: ScopeV, n: nat) -> Seq<char>
    decreases n,
{
    if n == 0 {
        Seq::empty()
    } else {
        envs_upto(sc, (n - 1) as nat) + unders_upto(
            sc.environments[n - 1],
            sc.properties,
            sc.properties.len(),
        )
    }
}

/// One theorem for each property in each environment.
pub open spec fn envs_text(sc: ScopeV) -> Seq<char> {
    envs_upto(sc, sc.environments.len())
}

/// Renders the theorems without their heading.
pub fn emit_envs(out: &mut String, sc: &Scope)
    ensures
        final(out)@ == old(out)@ + envs_text(sc@),
{
    for i in 0..sc.environments.len()
        invariant
            out@ == old(out)@ + envs_upto(sc@, i as nat),
    {
        let ghost base = out@;
        for j in 0..sc.properties.len()
            invariant
                i < sc.environments@.len(),
                out@ == base + unders_upto(
                    sc.environments@[i as int],
                    sc@.properties,
                    j as nat,
                ),
        {
            emit_under(out, &sc.environments[i], sc.properties[j]);
        }
    }
}

/// The heading of the environments.
pub open spec fn environments_heading() -> Seq<char> {
    RULE@ + "-- Environment — properties hold under external state changes\n"@ + RULE@ + "\n"@
}

/// The section of the environments.
pub open spec fn environments_text(sc: ScopeV) -> Seq<char> {
    if sc.environments.len() == 0 {
        Seq::empty()
    } else {
        environments_heading() + envs_text(sc)
    }
}

/// Writes the heading of the environments.
pub fn emit_environments_heading(out: &mut String)
    ensures
        final(out)@ == old(out)@ + environments_heading(),
{
    out.push_str(RULE);
    out.push_str("-- Environment — properties hold under external state changes\n");
    out.push_str(RULE);
    out.push_str("\n");
}

/// Renders the section of the environments.
pub fn emit_environments(out: &mut String, sc: &Scope)
    ensures
        final(out)@ == old(out)@ + environments_text(sc@),
{
    if sc.environments.len() == 0 {
        return ;
    }
    emit_environments_heading(out);
    emit_envs(out, sc);
}

} // verus!
