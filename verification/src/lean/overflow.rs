//! Overflow: numeric fields stay within the bounds of their types.
use vstd::prelude::*;

use crate::lean::aborts::{projection, projection_text};
use crate::lean::base::{
    args_text, conjunction, conjunction_text, param_args_str, param_sig_str, path_field,
    path_field_name, safe_name, safe_text, sig_text, transition_name, transition_text, RULE,
};
use crate::lean::guards::{build_guard_cond_parts, guard_parts};
use crate::lean::scope::{find_field_ref, has_field, refs, Scope, ScopeV, VariantV};
use crate::mir::{FieldDecl, HandlerMir, PropertyMir, Stmt, Ty};
use crate::text::{has_name, join, join_text, names, same, texts};

verus! {

broadcast use {crate::text::group_text, crate::text::texts_index, crate::text::texts_len};

/// Whether one of the first `n` statements is an addition with a check.
/// Wrapping and saturating additions owe no bound.
pub open spec fn adds(stmts: Seq<Stmt>, n: nat) -> bool
    decreases n,
{
    if n == 0 {
        false
    } else {
        adds(stmts, (n - 1) as nat) || stmts[n - 1] is CheckedAdd
    }
}

fn has_add(h: &HandlerMir) -> (r: bool)
    ensures
        r == adds(h.body.stmts@, h.body.stmts@.len()),
{
    let mut found: bool = false;
    for i in 0..h.body.stmts.len()
        invariant
            found == adds(h.body.stmts@, i as nat),
    {
        match &h.body.stmts[i] {
            Stmt::CheckedAdd { .. } => {
                found = true;
            },
            _ => {},
        }
    }
    found
}

pub open spec fn is_numeric(t: Ty) -> bool {
    t is U8 || t is U16 || t is U32 || t is U64 || t is U128 || t is I64 || t is I128
}

fn numeric(t: &Ty) -> (r: bool)
    ensures
        r == is_numeric(*t),
{
    match t {
        Ty::U8 => true,
        Ty::U16 => true,
        Ty::U32 => true,
        Ty::U64 => true,
        Ty::U128 => true,
        Ty::I64 => true,
        Ty::I128 => true,
        _ => false,
    }
}

/// The fields of `acc`, and the numeric ones of the first `n` in `fs` whose
/// names are new.
pub open spec fn merged_numeric(acc: Seq<FieldDecl>, fs: Seq<FieldDecl>, n: nat) -> Seq<FieldDecl>
    decreases n,
{
    if n == 0 {
        acc
    } else {
        let before = merged_numeric(acc, fs, (n - 1) as nat);
        if is_numeric(fs[n - 1].ty) && !has_field(before, fs[n - 1].name@) {
            before.push(fs[n - 1])
        } else {
            before
        }
    }
}

/// The numeric fields of the first `n` variants, each name once.
pub open spec fn numeric_upto(vs: Seq<VariantV>, n: nat) -> Seq<FieldDecl>
    decreases n,
{
    if n == 0 {
        Seq::empty()
    } else {
        merged_numeric(
            numeric_upto(vs, (n - 1) as nat),
            vs[n - 1].fields,
            vs[n - 1].fields.len(),
        )
    }
}

/// The numeric fields of the state.
pub open spec fn numeric_fields(vs: Seq<VariantV>) -> Seq<FieldDecl> {
    numeric_upto(vs, vs.len())
}

proof fn refs_push<T>(s: Seq<&T>, x: &T)
    ensures
        refs(s.push(x)) == refs(s).push(*x),
{
    assert(refs(s.push(x)) =~= refs(s).push(*x));
}

fn numeric_state_fields<'a>(sc: &Scope<'a>) -> (r: Vec<&'a FieldDecl>)
    ensures
        refs(r@) == numeric_fields(sc@.variants),
{
    let mut out: Vec<&'a FieldDecl> = Vec::new();
    proof {
        assert(refs(out@) =~= Seq::<FieldDecl>::empty());
    }
    for i in 0..sc.variants.len()
        invariant
            refs(out@) == numeric_upto(sc@.variants, i as nat),
    {
        let fields: &'a Vec<FieldDecl> = sc.variants[i].fields;
        let ghost acc = refs(out@);
        for j in 0..fields.len()
            invariant
                refs(out@) == merged_numeric(acc, fields@, j as nat),
        {
            if numeric(&fields[j].ty) && find_field_ref(&out, &fields[j].name).is_none() {
                proof {
                    refs_push(out@, &fields@[j as int]);
                }
                out.push(&fields[j]);
            }
        }
        proof {
            assert(sc@.variants[i as int].fields == fields@);
        }
    }
    out
}

/// The suffix of the names that speak of a type's bounds.
pub open spec fn width_text(t: Ty) -> Seq<char> {
    match t {
        Ty::U8 => "u8"@,
        Ty::U16 => "u16"@,
        Ty::U32 => "u32"@,
        Ty::U64 => "u64"@,
        Ty::U128 => "u128"@,
        Ty::I64 => "i64"@,
        Ty::I128 => "i128"@,
        _ => "u64"@,
    }
}

fn width(t: &Ty) -> (r: &'static str)
    ensures
        r@ == width_text(*t),
{
    match t {
        Ty::U8 => "u8",
        Ty::U16 => "u16",
        Ty::U32 => "u32",
        Ty::U64 => "u64",
        Ty::U128 => "u128",
        Ty::I64 => "i64",
        Ty::I128 => "i128",
        _ => "u64",
    }
}

/// The greatest value of a type, by name.
pub open spec fn max_name(t: Ty) -> Seq<char> {
    match t {
        Ty::U8 => "Valid.U8_MAX"@,
        Ty::U16 => "Valid.U16_MAX"@,
        Ty::U32 => "Valid.U32_MAX"@,
        Ty::U64 => "Valid.U64_MAX"@,
        Ty::U128 => "Valid.U128_MAX"@,
        Ty::I64 => "Valid.I64_MAX"@,
        Ty::I128 => "Valid.I128_MAX"@,
        _ => "Valid.U64_MAX"@,
    }
}

fn valid_max_for(t: &Ty) -> (r: &'static str)
    ensures
        r@ == max_name(*t),
{
    match t {
        Ty::U8 => "Valid.U8_MAX",
        Ty::U16 => "Valid.U16_MAX",
        Ty::U32 => "Valid.U32_MAX",
        Ty::U64 => "Valid.U64_MAX",
        Ty::U128 => "Valid.U128_MAX",
        Ty::I64 => "Valid.I64_MAX",
        Ty::I128 => "Valid.I128_MAX",
        _ => "Valid.U64_MAX",
    }
}

/// That the first `n` fields of a state are within their bounds.
pub open spec fn valid_parts(fs: Seq<FieldDecl>, state: Seq<char>, n: nat) -> Seq<Seq<char>>
    decreases n,
{
    if n == 0 {
        Seq::empty()
    } else {
        valid_parts(fs, state, (n - 1) as nat).push("valid_"@ + width_text(fs[n - 1].ty) + " "@ + state + "."@ + safe_text(fs[n - 1].name@))
    }
}

fn valid_list(fs: &Vec<&FieldDecl>, state: &str) -> (r: Vec<String>)
    ensures
        texts(r@) == valid_parts(refs(fs@), state@, fs@.len()),
{
    let mut out: Vec<String> = Vec::new();
    for i in 0..fs.len()
        invariant
            texts(out@) == valid_parts(refs(fs@), state@, i as nat),
    {
        let name = safe_name(&fs[i].name);
        let mut p = "valid_".to_owned();
        p.push_str(width(&fs[i].ty));
        p.push_str(" ");
        p.push_str(state);
        p.push_str(".");
        p.push_str(&name);
        out.push(p);
    }
    out
}

/// Whether one of the first `n` statements adds to the field with a check.
pub open spec fn adds_to(stmts: Seq<Stmt>, field: Seq<char>, n: nat) -> bool
    decreases n,
{
    if n == 0 {
        false
    } else {
        adds_to(stmts, field, (n - 1) as nat) || match stmts[n - 1] {
            Stmt::CheckedAdd { path, .. } => path_field(path) == field,
            _ => false,
        }
    }
}

fn is_add_field(h: &HandlerMir, field: &str) -> (r: bool)
    ensures
        r == adds_to(h.body.stmts@, field@, h.body.stmts@.len()),
{
    let mut found: bool = false;
    for i in 0..h.body.stmts.len()
        invariant
            found == adds_to(h.body.stmts@, field@, i as nat),
    {
        match &h.body.stmts[i] {
            Stmt::CheckedAdd { path, .. } => {
                let name = path_field_name(path);
                if same(&name, field) {
                    found = true;
                }
            },
            _ => {},
        }
    }
    found
}

/// The parts of the proof term for the first `n` fields: a goal for a field
/// that grows, the hypothesis for any other.
pub open spec fn refine_parts(h: HandlerMir, fs: Seq<FieldDecl>, n: nat) -> Seq<Seq<char>>
    decreases n,
{
    if n == 0 {
        Seq::empty()
    } else {
        refine_parts(h, fs, (n - 1) as nat).push(
            if adds_to(h.body.stmts@, fs[n - 1].name@, h.body.stmts@.len()) {
                "?_"@
            } else {
                projection_text("h_valid"@, (n - 1) as nat, fs.len())
            },
        )
    }
}

/// The goals for the fields among the first `n` that grow.
pub open spec fn goal_lines(h: HandlerMir, fs: Seq<FieldDecl>, n: nat) -> Seq<char>
    decreases n,
{
    if n == 0 {
        Seq::empty()
    } else {
        let t = fs[n - 1].ty;
        goal_lines(h, fs, (n - 1) as nat) + (if adds_to(
            h.body.stmts@,
            fs[n - 1].name@,
            h.body.stmts@.len(),
        ) {
            "    simp only [valid_"@ + width_text(t) + ", Valid.valid_"@ + width_text(t) + ", "@ + max_name(t) + "]; omega\n"@
        } else {
            Seq::empty()
        })
    }
}

/// Whether one of the first `n` fields grows.
pub open spec fn some_grows(h: HandlerMir, fs: Seq<FieldDecl>, n: nat) -> bool
    decreases n,
{
    if n == 0 {
        false
    } else {
        some_grows(h, fs, (n - 1) as nat) || adds_to(
            h.body.stmts@,
            fs[n - 1].name@,
            h.body.stmts@.len(),
        )
    }
}

/// The body of the proof: one goal needs no tuple.
#[verifier::opaque]
pub open spec fn bounds_body(h: HandlerMir, fs: Seq<FieldDecl>, indent: Seq<char>) -> Seq<char> {
    (if fs.len() > 1 {
        indent + "refine ⟨"@ + join_text(refine_parts(h, fs, fs.len()), ", "@) + "⟩\n"@
    } else if !some_grows(h, fs, fs.len()) {
        indent + "exact h_valid\n"@
    } else {
        Seq::empty()
    }) + goal_lines(h, fs, fs.len())
}

fn emit_bounds_body(out: &mut String, h: &HandlerMir, fs: &Vec<&FieldDecl>, indent: &str)
    ensures
        final(out)@ == old(out)@ + bounds_body(*h, refs(fs@), indent@),
{
    proof {
        reveal(bounds_body);
    }
    let mut parts: Vec<String> = Vec::new();
    let mut goals = String::new();
    let mut grows: bool = false;
    for i in 0..fs.len()
        invariant
            texts(parts@) == refine_parts(*h, refs(fs@), i as nat),
            goals@ == goal_lines(*h, refs(fs@), i as nat),
            grows == some_grows(*h, refs(fs@), i as nat),
    {
        if is_add_field(h, &fs[i].name) {
            parts.push("?_".to_owned());
            let w = width(&fs[i].ty);
            goals.push_str("    simp only [valid_");
            goals.push_str(w);
            goals.push_str(", Valid.valid_");
            goals.push_str(w);
            goals.push_str(", ");
            goals.push_str(valid_max_for(&fs[i].ty));
            goals.push_str("]; omega\n");
            grows = true;
        } else {
            parts.push(projection("h_valid", i as u128, fs.len() as u128));
        }
    }
    if fs.len() > 1 {
        let joined = join(&parts, ", ");
        out.push_str(indent);
        out.push_str("refine ⟨");
        out.push_str(&joined);
        out.push_str("⟩\n");
    } else if !grows {
        out.push_str(indent);
        out.push_str("exact h_valid\n");
    }
    out.push_str(&goals);
}

/// The proof that the bounds are kept, on the flat state.
#[verifier::opaque]
pub open spec fn bounds_proof(sc: ScopeV, h: HandlerMir, fs: Seq<FieldDecl>) -> Seq<char> {
    let trans = transition_text(h.name@);
    if guard_parts(sc, h).len() > 0 {
        " := by\n  unfold "@ + trans + " at h; split at h\n"@ + "  · next hg =>\n    cases h\n"@ + bounds_body(h, fs, "    "@) + "  · contradiction\n\n"@
    } else {
        " := by\n  unfold "@ + trans + " at h; cases h\n"@ + bounds_body(h, fs, "  "@) + "\n"@
    }
}

fn emit_bounds_proof(out: &mut String, sc: &Scope, h: &HandlerMir, fs: &Vec<&FieldDecl>)
    ensures
        final(out)@ == old(out)@ + bounds_proof(sc@, *h, refs(fs@)),
{
    proof {
        reveal(bounds_proof);
    }
    let trans = transition_name(&h.name);
    let conds = build_guard_cond_parts(sc, h);
    if conds.len() > 0 {
        out.push_str(" := by\n  unfold ");
        out.push_str(&trans);
        out.push_str(" at h; split at h\n");
        out.push_str("  · next hg =>\n    cases h\n");
        emit_bounds_body(out, h, fs, "    ");
        out.push_str("  · contradiction\n\n");
    } else {
        out.push_str(" := by\n  unfold ");
        out.push_str(&trans);
        out.push_str(" at h; cases h\n");
        emit_bounds_body(out, h, fs, "  ");
        out.push_str("\n");
    }
}

/// Hypotheses for the properties among the first `n` that the handler preserves
/// and that have a predicate.
pub open spec fn inv_hyps(ps: Seq<PropertyMir>, h: HandlerMir, n: nat) -> Seq<char>
    decreases n,
{
    if n == 0 {
        Seq::empty()
    } else {
        let p = ps[n - 1];
        inv_hyps(ps, h, (n - 1) as nat) + (if p.expression is Some && names(
            p.preserved_by@,
            h.name@,
        ) {
            "    (h_inv_"@ + safe_text(p.name@) + " : "@ + p.name@ + " s)\n"@
        } else {
            Seq::empty()
        })
    }
}

fn emit_inv_hyps(out: &mut String, sc: &Scope, h: &HandlerMir)
    ensures
        final(out)@ == old(out)@ + inv_hyps(sc@.properties, *h, sc@.properties.len()),
{
    for i in 0..sc.properties.len()
        invariant
            out@ == old(out)@ + inv_hyps(sc@.properties, *h, i as nat),
    {
        let p = sc.properties[i];
        if p.expression.is_some() && has_name(&p.preserved_by, &h.name) {
            let name = safe_name(&p.name);
            out.push_str("    (h_inv_");
            out.push_str(&name);
            out.push_str(" : ");
            out.push_str(&p.name);
            out.push_str(" s)\n");
        }
    }
}

/// The theorem that a handler keeps the bounds.
#[verifier::opaque]
pub open spec fn bounds_text(sc: ScopeV, h: HandlerMir, fs: Seq<FieldDecl>, adt: bool) -> Seq<
    char,
> {
    "theorem "@ + safe_text(h.name@) + "_overflow_safe (s s' : State) (signer : Pubkey)"@ + sig_text(h.params@) + "\n"@
        + ("    (h_valid : "@ + conjunction_text(valid_parts(fs, "s"@, fs.len())) + ")\n"@) + inv_hyps(
        sc.properties,
        h,
        sc.properties.len(),
    ) + ("    (h : "@ + transition_text(h.name@) + " s signer"@ + args_text(h.params@) + " = some s') :\n"@)
        + ("    "@ + conjunction_text(valid_parts(fs, "s'"@, fs.len()))) + (if adt {
        " := by sorry\n\n"@
    } else {
        bounds_proof(sc, h, fs)
    })
}

fn emit_bounds(out: &mut String, sc: &Scope, h: &HandlerMir, fs: &Vec<&FieldDecl>, adt: bool)
    ensures
        final(out)@ == old(out)@ + bounds_text(sc@, *h, refs(fs@), adt),
{
    proof {
        reveal(bounds_text);
    }
    let name = safe_name(&h.name);
    let sig = param_sig_str(&h.params);
    let args = param_args_str(&h.params);
    let trans = transition_name(&h.name);
    let pre = valid_list(fs, "s");
    let pre = conjunction(&pre);
    let post = valid_list(fs, "s'");
    let post = conjunction(&post);
    out.push_str("theorem ");
    out.push_str(&name);
    out.push_str("_overflow_safe (s s' : State) (signer : Pubkey)");
    out.push_str(&sig);
    out.push_str("\n");
    out.push_str("    (h_valid : ");
    out.push_str(&pre);
    out.push_str(")\n");
    emit_inv_hyps(out, sc, h);
    out.push_str("    (h : ");
    out.push_str(&trans);
    out.push_str(" s signer");
    out.push_str(&args);
    out.push_str(" = some s') :\n");
    out.push_str("    ");
    out.push_str(&post);
    if adt {
        out.push_str(" := by sorry\n\n");
    } else {
        emit_bounds_proof(out, sc, h, fs);
    }
}

/// Whether one of the first `n` handlers adds.
pub open spec fn some_adds(hs: Seq<HandlerMir>, n: nat) -> bool
    decreases n,
{
    if n == 0 {
        false
    } else {
        some_adds(hs, (n - 1) as nat) || adds(
            hs[n - 1].body.stmts@,
            hs[n - 1].body.stmts@.len(),
        )
    }
}

pub open spec fn bounds_upto(sc: ScopeV, fs: Seq<FieldDecl>, adt: bool, n: nat) -> Seq<char>
    decreases n,
{
    if n == 0 {
        Seq::empty()
    } else {
        let h = sc.handlers[n - 1];
        let before = bounds_upto(sc, fs, adt, (n - 1) as nat);
        if adds(h.body.stmts@, h.body.stmts@.len()) {
            before + bounds_text(sc, h, fs, adt)
        } else {
            before
        }
    }
}

/// One theorem for each handler that adds, where the state has numeric fields.
pub open spec fn overflow_text(sc: ScopeV, adt: bool) -> Seq<char> {
    let fs = numeric_fields(sc.variants);
    if !some_adds(sc.handlers, sc.handlers.len()) || fs.len() == 0 {
        Seq::empty()
    } else {
        RULE@
            + "-- Overflow safety obligations (auto-generated for operations with add effects)\n"@
            + RULE@ + "\n"@ + bounds_upto(sc, fs, adt, sc.handlers.len())
    }
}

/// Renders the theorems about overflow.
pub fn emit_overflow(out: &mut String, sc: &Scope, adt: bool)
    ensures
        final(out)@ == old(out)@ + overflow_text(sc@, adt),
{
    let mut found: bool = false;
    for i in 0..sc.handlers.len()
        invariant
            found == some_adds(sc@.handlers, i as nat),
    {
        if has_add(sc.handlers[i]) {
            found = true;
        }
    }
    let fs = numeric_state_fields(sc);
    if !found || fs.len() == 0 {
        return ;
    }
    out.push_str(RULE);
    out.push_str("-- Overflow safety obligations (auto-generated for operations with add effects)\n");
    out.push_str(RULE);
    out.push_str("\n");
    let ghost base = out@;
    let ghost flat = numeric_fields(sc@.variants);
    for i in 0..sc.handlers.len()
        invariant
            refs(fs@) == flat,
            out@ == base + bounds_upto(sc@, flat, adt, i as nat),
    {
        if has_add(sc.handlers[i]) {
            emit_bounds(out, sc, sc.handlers[i], &fs, adt);
        }
    }
}

} // verus!
