//! Properties and their preservation, invariants, frames and postconditions.
use vstd::prelude::*;

use crate::lean::base::{
    args_text, param_args_str, param_sig_str, path_field, path_field_name, safe_name, safe_text,
    sig_text, transition_name, transition_text, RULE,
};
use crate::lean::guards::{build_guard_cond_parts, get_update, guard_parts, update_of};
use crate::lean::scope::{
    field_names, flat_fields, flat_state_fields, refs, Scope, ScopeV,
};
use crate::mir::{HandlerMir, InvariantMir, Path, PropertyMir, Stmt};
use crate::number::{decimal, decimal_string};
use crate::outside::{is_alnum, is_alphanumeric};
use crate::pattern::{contains_string, has_text, prefix_state_fields, prefixed};
use crate::search::{
    char_at_or_after, contains, contains_text, find_char_from, matches_at, stands_at,
    starts_with, starts_with_text, strip_prefix, without_prefix,
};
use crate::split::{trim, trim_start, trim_start_text, trim_text};
use crate::text::{chars_of, has_name, join, join_text, names, same, slice_text, texts};

verus! {

broadcast use {crate::text::group_text, crate::text::texts_index, crate::text::texts_len};

// ---------------------------------------------------------------------------
// Reading expressions
// ---------------------------------------------------------------------------

pub open spec fn is_word_char(c: char) -> bool {
    is_alnum(c) || c == '_'
}

/// The end of the word that starts at `from`.
pub open spec fn word_end(s: Seq<char>, from: int) -> int
    decreases s.len() - from,
{
    if 0 <= from < s.len() && is_word_char(s[from]) {
        word_end(s, from + 1)
    } else {
        from
    }
}

fn find_word_end(v: &Vec<char>, from: usize) -> (r: usize)
    requires
        from <= v@.len(),
    ensures
        r == word_end(v@, from as int),
        from <= r <= v@.len(),
{
    let mut i: usize = from;
    while i < v.len() && (is_alphanumeric(v[i]) || v[i] == '_')
        invariant
            from <= i <= v.len(),
            word_end(v@, from as int) == word_end(v@, i as int),
        decreases v.len() - i,
    {
        i = i + 1;
    }
    i
}

/// The fields that follow `s.` in the first `n` positions, each once, in the
/// order in which they come up.
pub open spec fn fields_read_upto(s: Seq<char>, n: nat) -> Seq<Seq<char>>
    decreases n,
{
    if n == 0 {
        Seq::empty()
    } else {
        let before = fields_read_upto(s, (n - 1) as nat);
        let start = (n + 1) as int;
        if matches_at(s, "s."@, n - 1) && word_end(s, start) > start {
            let field = s.subrange(start, word_end(s, start));
            if has_text(before, field) {
                before
            } else {
                before.push(field)
            }
        } else {
            before
        }
    }
}

/// The fields of the state that an expression reads.
pub open spec fn fields_read(s: Seq<char>) -> Seq<Seq<char>> {
    fields_read_upto(s, s.len())
}

/// The fields of the state that an expression reads.
pub fn fields_referenced_in_expr(expr: &str) -> (r: Vec<String>)
    ensures
        texts(r@) == fields_read(expr@),
{
    let v = chars_of(expr);
    let needle = chars_of("s.");
    proof {
        reveal_strlit("s.");
    }
    let mut out: Vec<String> = Vec::new();
    for i in 0..v.len()
        invariant
            v@ == expr@,
            needle@ == "s."@,
            "s."@.len() == 2,
            texts(out@) == fields_read_upto(expr@, i as nat),
    {
        if stands_at(&v, &needle, i) {
            let end = find_word_end(&v, i + 2);
            if end > i + 2 {
                let field = slice_text(&v, i + 2, end);
                if !contains_string(&out, &field) {
                    out.push(field);
                }
            }
        }
    }
    out
}

/// What follows a universal quantifier.
pub open spec fn after_forall(t: Seq<char>) -> Option<Seq<char>> {
    match without_prefix(t, "∀"@) {
        Some(rest) => Some(rest),
        None => without_prefix(t, "forall"@),
    }
}

/// Whether a binder is the state alone with its type: `s : T`.
pub open spec fn binds_state(binder: Seq<char>) -> bool {
    let b = trim_start_text(binder);
    b.len() > 0 && b[0] == 's' && starts_with_text(trim_start_text(b.drop_first()), ":"@)
}

/// An expression without a leading quantifier over the state, `∀ s : T,` or
/// `forall s : T,`: the definition that it stands in binds the state already.
/// Any other quantifier stays.
#[verifier::opaque]
pub open spec fn unquantified(expr: Seq<char>) -> Seq<char> {
    let t = trim_text(expr);
    match after_forall(t) {
        Some(rest) => if binds_state(rest) {
            match char_at_or_after(rest, ',', 0) {
                Some(i) => trim_text(rest.subrange(i + 1, rest.len() as int)),
                None => t,
            }
        } else {
            t
        },
        None => t,
    }
}

fn state_binder(binder: &str) -> (r: bool)
    ensures
        r == binds_state(binder@),
{
    let b = trim_start(binder);
    let v = chars_of(&b);
    if v.len() == 0 || v[0] != 's' {
        return false;
    }
    let behind = slice_text(&v, 1, v.len());
    proof {
        assert(b@.subrange(1, b@.len() as int) =~= b@.drop_first());
    }
    starts_with(&trim_start(&behind), ":")
}

pub fn strip_state_forall(expr: &str) -> (r: String)
    ensures
        r@ == unquantified(expr@),
{
    proof {
        reveal(unquantified);
    }
    let t = trim(expr);
    let rest: Option<String> = match strip_prefix(&t, "∀") {
        Some(rest) => Some(rest),
        None => strip_prefix(&t, "forall"),
    };
    match rest {
        Some(rest) => {
            if state_binder(&rest) {
                let v = chars_of(&rest);
                match find_char_from(&v, ',', 0) {
                    Some(i) => {
                        return trim(&slice_text(&v, i + 1, v.len()));
                    },
                    None => {},
                }
            }
        },
        None => {},
    }
    t
}

// ---------------------------------------------------------------------------
// Preservation
// ---------------------------------------------------------------------------

/// Whether one of the first `n` statements writes one of the fields.
pub open spec fn writes_one_of(stmts: Seq<Stmt>, fields: Seq<Seq<char>>) -> bool {
    exists|i: int|
        0 <= i < stmts.len() && (match update_of(#[trigger] stmts[i]) {
            Some((path, kind, value)) => has_text(fields, path_field(path)),
            None => false,
        })
}

fn writes_any(stmts: &Vec<Stmt>, fields: &Vec<String>) -> (r: bool)
    ensures
        r == writes_one_of(stmts@, texts(fields@)),
{
    for i in 0..stmts.len()
        invariant
            forall|k: int|
                0 <= k < i ==> !(match update_of(#[trigger] stmts@[k]) {
                    Some((path, kind, value)) => has_text(texts(fields@), path_field(path)),
                    None => false,
                }),
    {
        match get_update(&stmts[i]) {
            Some((path, kind, value)) => {
                let field = path_field_name(path);
                if contains_string(fields, &field) {
                    return true;
                }
            },
            None => {},
        }
    }
    false
}

/// The fields that a property reads.
pub open spec fn property_fields(p: PropertyMir) -> Seq<Seq<char>> {
    match p.expression {
        Some(e) => fields_read(e.lean@),
        None => Seq::empty(),
    }
}

fn property_field_names(p: &PropertyMir) -> (r: Vec<String>)
    ensures
        texts(r@) == property_fields(*p),
{
    match &p.expression {
        Some(e) => fields_referenced_in_expr(&e.lean),
        None => Vec::new(),
    }
}

/// Whether a property quantifies.
pub open spec fn is_quantified(p: PropertyMir) -> bool {
    match p.expression {
        Some(e) => contains_text(e.lean@, "∀"@) || contains_text(e.lean@, "∃"@),
        None => false,
    }
}

fn quantified(p: &PropertyMir) -> (r: bool)
    ensures
        r == is_quantified(*p),
{
    match &p.expression {
        Some(e) => contains(&e.lean, "∀") || contains(&e.lean, "∃"),
        None => false,
    }
}

/// The proof that a handler preserves a property.
#[verifier::opaque]
pub open spec fn preservation_proof(sc: ScopeV, h: HandlerMir, p: PropertyMir) -> Seq<char> {
    let trans = transition_text(h.name@);
    let prop = safe_text(p.name@);
    let fields = property_fields(p);
    let touches = writes_one_of(h.body.stmts@, fields) || (h.transition is Some && has_text(
        fields,
        "status"@,
    ));
    if is_quantified(p) {
        " := by\n  unfold "@ + trans + " at h\n  sorry -- quantified property: fill with intro + cases or Leanstral\n\n"@
    } else if guard_parts(sc, h).len() > 0 {
        if touches {
            " := by\n  unfold "@ + trans + " at h; split at h\n  · next hg => cases h; unfold "@ + prop + " at h_inv ⊢; dsimp; omega\n  · contradiction\n\n"@
        } else {
            " := by\n  unfold "@ + trans + " at h; split at h\n  · cases h; exact h_inv\n  · contradiction\n\n"@
        }
    } else if touches {
        " := by\n  unfold "@ + trans + " at h; cases h; unfold "@ + prop + " at h_inv ⊢; dsimp; omega\n\n"@
    } else {
        " := by\n  unfold "@ + trans + " at h; cases h; exact h_inv\n\n"@
    }
}

fn emit_preservation_proof(out: &mut String, sc: &Scope, h: &HandlerMir, p: &PropertyMir)
    ensures
        final(out)@ == old(out)@ + preservation_proof(sc@, *h, *p),
{
    proof {
        reveal(preservation_proof);
    }
    let trans = transition_name(&h.name);
    let prop = safe_name(&p.name);
    if quantified(p) {
        out.push_str(" := by\n  unfold ");
        out.push_str(&trans);
        out.push_str(" at h\n  sorry -- quantified property: fill with intro + cases or Leanstral\n\n");
        return ;
    }
    let fields = property_field_names(p);
    let touches: bool = writes_any(&h.body.stmts, &fields) || (h.transition.is_some()
        && contains_string(&fields, "status"));
    let conds = build_guard_cond_parts(sc, h);
    if conds.len() > 0 {
        if touches {
            out.push_str(" := by\n  unfold ");
            out.push_str(&trans);
            out.push_str(" at h; split at h\n  · next hg => cases h; unfold ");
            out.push_str(&prop);
            out.push_str(" at h_inv ⊢; dsimp; omega\n  · contradiction\n\n");
        } else {
            out.push_str(" := by\n  unfold ");
            out.push_str(&trans);
            out.push_str(" at h; split at h\n  · cases h; exact h_inv\n  · contradiction\n\n");
        }
    } else if touches {
        out.push_str(" := by\n  unfold ");
        out.push_str(&trans);
        out.push_str(" at h; cases h; unfold ");
        out.push_str(&prop);
        out.push_str(" at h_inv ⊢; dsimp; omega\n\n");
    } else {
        out.push_str(" := by\n  unfold ");
        out.push_str(&trans);
        out.push_str(" at h; cases h; exact h_inv\n\n");
    }
}

/// The name of the lemma that a handler preserves a property.
pub open spec fn preserved_name(p: PropertyMir, h: HandlerMir) -> Seq<char> {
    safe_text(p.name@ + "_preserved_by_"@ + h.name@)
}

fn preserved_lemma(p: &PropertyMir, h: &HandlerMir) -> (r: String)
    ensures
        r@ == preserved_name(*p, *h),
{
    let mut name = p.name.clone();
    name.push_str("_preserved_by_");
    name.push_str(&h.name);
    safe_name(&name)
}

/// The lemma that a handler preserves a property.
#[verifier::opaque]
pub open spec fn preservation_text(sc: ScopeV, h: HandlerMir, p: PropertyMir) -> Seq<char> {
    "theorem "@ + preserved_name(p, h) + " (s s' : State) (signer : Pubkey)"@ + sig_text(h.params@) + "\n"@
        + ("    (h_inv : "@ + safe_text(p.name@) + " s) (h : "@ + transition_text(h.name@) + " s signer"@ + args_text(h.params@) + " = some s') :\n"@)
        + ("    "@ + safe_text(p.name@) + " s'"@ + preservation_proof(sc, h, p))
}

fn emit_preservation(out: &mut String, sc: &Scope, h: &HandlerMir, p: &PropertyMir)
    ensures
        final(out)@ == old(out)@ + preservation_text(sc@, *h, *p),
{
    proof {
        reveal(preservation_text);
    }
    let lemma_name = preserved_lemma(p, h);
    let sig = param_sig_str(&h.params);
    let args = param_args_str(&h.params);
    let trans = transition_name(&h.name);
    let prop = safe_name(&p.name);
    out.push_str("theorem ");
    out.push_str(&lemma_name);
    out.push_str(" (s s' : State) (signer : Pubkey)");
    out.push_str(&sig);
    out.push_str("\n");
    out.push_str("    (h_inv : ");
    out.push_str(&prop);
    out.push_str(" s) (h : ");
    out.push_str(&trans);
    out.push_str(" s signer");
    out.push_str(&args);
    out.push_str(" = some s') :\n");
    out.push_str("    ");
    out.push_str(&prop);
    out.push_str(" s'");
    emit_preservation_proof(out, sc, h, p);
}

/// The lemmas for the first `n` handlers, of those that preserve the property.
pub open spec fn preservations_upto(sc: ScopeV, p: PropertyMir, n: nat) -> Seq<char>
    decreases n,
{
    if n == 0 {
        Seq::empty()
    } else {
        let before = preservations_upto(sc, p, (n - 1) as nat);
        if names(p.preserved_by@, sc.handlers[n - 1].name@) {
            before + preservation_text(sc, sc.handlers[n - 1], p)
        } else {
            before
        }
    }
}

/// Whether one of the first `n` handlers preserves the property.
pub open spec fn is_covered(hs: Seq<HandlerMir>, p: PropertyMir, n: nat) -> bool
    decreases n,
{
    if n == 0 {
        false
    } else {
        is_covered(hs, p, (n - 1) as nat) || names(p.preserved_by@, hs[n - 1].name@)
    }
}

/// The case of the master theorem for a handler: its lemma, where there is
/// one, or else a proof in place.
#[verifier::opaque]
pub open spec fn master_case(sc: ScopeV, h: HandlerMir, p: PropertyMir) -> Seq<char> {
    let head = "  | "@ + safe_text(h.name@) + args_text(h.params@) + " =>"@;
    let trans = transition_text(h.name@);
    let prop = safe_text(p.name@);
    if names(p.preserved_by@, h.name@) {
        head + (" exact "@ + preserved_name(p, h) + " s s' signer"@ + args_text(h.params@) + " h_inv h\n"@)
    } else if !writes_one_of(h.body.stmts@, property_fields(p)) {
        head + ("\n    simp [applyOp, "@ + trans + "] at h\n    obtain ⟨_, h_eq⟩ := h\n    subst h_eq; exact h_inv\n"@)
    } else if guard_parts(sc, h).len() > 0 {
        head + ("\n    simp [applyOp] at h\n    unfold "@ + trans + " at h; split at h\n    · next hg => cases h; unfold "@ + prop + " at h_inv ⊢; dsimp; omega\n    · contradiction\n"@)
    } else {
        head + ("\n    simp [applyOp] at h\n    unfold "@ + trans + " at h; cases h; unfold "@ + prop + " at h_inv ⊢; dsimp; omega\n"@)
    }
}

fn emit_master_case(out: &mut String, sc: &Scope, h: &HandlerMir, p: &PropertyMir)
    ensures
        final(out)@ == old(out)@ + master_case(sc@, *h, *p),
{
    proof {
        reveal(master_case);
    }
    let ctor = safe_name(&h.name);
    let args = param_args_str(&h.params);
    let trans = transition_name(&h.name);
    let prop = safe_name(&p.name);
    out.push_str("  | ");
    out.push_str(&ctor);
    out.push_str(&args);
    out.push_str(" =>");
    if has_name(&p.preserved_by, &h.name) {
        let lemma_name = preserved_lemma(p, h);
        out.push_str(" exact ");
        out.push_str(&lemma_name);
        out.push_str(" s s' signer");
        out.push_str(&args);
        out.push_str(" h_inv h\n");
    } else {
        let fields = property_field_names(p);
        if !writes_any(&h.body.stmts, &fields) {
            out.push_str("\n    simp [applyOp, ");
            out.push_str(&trans);
            out.push_str("] at h\n    obtain ⟨_, h_eq⟩ := h\n    subst h_eq; exact h_inv\n");
        } else {
            let conds = build_guard_cond_parts(sc, h);
            if conds.len() > 0 {
                out.push_str("\n    simp [applyOp] at h\n    unfold ");
                out.push_str(&trans);
                out.push_str(" at h; split at h\n    · next hg => cases h; unfold ");
                out.push_str(&prop);
                out.push_str(" at h_inv ⊢; dsimp; omega\n    · contradiction\n");
            } else {
                out.push_str("\n    simp [applyOp] at h\n    unfold ");
                out.push_str(&trans);
                out.push_str(" at h; cases h; unfold ");
                out.push_str(&prop);
                out.push_str(" at h_inv ⊢; dsimp; omega\n");
            }
        }
    }
}

pub open spec fn master_cases(sc: ScopeV, p: PropertyMir, n: nat) -> Seq<char>
    decreases n,
{
    if n == 0 {
        Seq::empty()
    } else {
        master_cases(sc, p, (n - 1) as nat) + master_case(sc, sc.handlers[n - 1], p)
    }
}

/// The theorem that every operation preserves a property.
#[verifier::opaque]
pub open spec fn master_text(sc: ScopeV, p: PropertyMir) -> Seq<char> {
    let prop = safe_text(p.name@);
    "/-- "@ + p.name@ + " is preserved by every operation. Auto-proven by case split. -/\n"@
        + ("theorem "@ + prop + "_inductive (s s' : State) (signer : Pubkey) (op : Operation)\n"@)
        + ("    (h_inv : "@ + prop + " s) (h : applyOp s signer op = some s') : "@ + prop + " s'"@)
        + (" := by\n  cases op with\n"@ + master_cases(sc, p, sc.handlers.len()) + "\n"@)
}

fn emit_master(out: &mut String, sc: &Scope, p: &PropertyMir)
    ensures
        final(out)@ == old(out)@ + master_text(sc@, *p),
{
    proof {
        reveal(master_text);
    }
    let prop = safe_name(&p.name);
    out.push_str("/-- ");
    out.push_str(&p.name);
    out.push_str(" is preserved by every operation. Auto-proven by case split. -/\n");
    out.push_str("theorem ");
    out.push_str(&prop);
    out.push_str("_inductive (s s' : State) (signer : Pubkey) (op : Operation)\n");
    out.push_str("    (h_inv : ");
    out.push_str(&prop);
    out.push_str(" s) (h : applyOp s signer op = some s') : ");
    out.push_str(&prop);
    out.push_str(" s'");
    out.push_str(" := by\n  cases op with\n");
    let ghost base = out@;
    for i in 0..sc.handlers.len()
        invariant
            out@ == base + master_cases(sc@, *p, i as nat),
    {
        emit_master_case(out, sc, sc.handlers[i], p);
    }
    out.push_str("\n");
}

/// A property: its definition, the lemmas for the handlers that preserve it,
/// and the theorem for all operations; a comment where it has no predicate.
#[verifier::opaque]
pub open spec fn property_text(sc: ScopeV, p: PropertyMir) -> Seq<char> {
    match p.expression {
        Some(e) => "def "@ + safe_text(p.name@) + " (s : State) : Prop := "@ + unquantified(e.lean@) + "\n\n"@
            + preservations_upto(sc, p, sc.handlers.len()) + (if is_covered(
            sc.handlers,
            p,
            sc.handlers.len(),
        ) {
            master_text(sc, p)
        } else {
            Seq::empty()
        }),
        None => "-- PROPERTY OBLIGATION (declared, no predicate body): "@ + p.name@ + "\n\n"@,
    }
}

fn emit_property(out: &mut String, sc: &Scope, p: &PropertyMir)
    ensures
        final(out)@ == old(out)@ + property_text(sc@, *p),
{
    proof {
        reveal(property_text);
    }
    match &p.expression {
        Some(e) => {
            let body = strip_state_forall(&e.lean);
            let prop = safe_name(&p.name);
            out.push_str("def ");
            out.push_str(&prop);
            out.push_str(" (s : State) : Prop := ");
            out.push_str(&body);
            out.push_str("\n\n");
            let ghost base = out@;
            let mut covered: bool = false;
            for i in 0..sc.handlers.len()
                invariant
                    covered == is_covered(sc@.handlers, *p, i as nat),
                    out@ == base + preservations_upto(sc@, *p, i as nat),
            {
                if has_name(&p.preserved_by, &sc.handlers[i].name) {
                    emit_preservation(out, sc, sc.handlers[i], p);
                    covered = true;
                }
            }
            if covered {
                emit_master(out, sc, p);
            }
        },
        None => {
            out.push_str("-- PROPERTY OBLIGATION (declared, no predicate body): ");
            out.push_str(&p.name);
            out.push_str("\n\n");
        },
    }
}

pub open spec fn properties_upto(sc: ScopeV, n: nat) -> Seq<char>
    decreases n,
{
    if n == 0 {
        Seq::empty()
    } else {
        properties_upto(sc, (n - 1) as nat) + property_text(sc, sc.properties[n - 1])
    }
}

/// The properties, in order.
pub open spec fn properties_text(sc: ScopeV) -> Seq<char> {
    properties_upto(sc, sc.properties.len())
}

pub fn emit_properties(out: &mut String, sc: &Scope)
    ensures
        final(out)@ == old(out)@ + properties_text(sc@),
{
    for i in 0..sc.properties.len()
        invariant
            out@ == old(out)@ + properties_upto(sc@, i as nat),
    {
        emit_property(out, sc, sc.properties[i]);
    }
}

// ---------------------------------------------------------------------------
// Invariants
// ---------------------------------------------------------------------------

/// What is said of an invariant without a predicate.
pub const BARE_NOTE: &'static str = "-- The spec declared this name but didn't supply a predicate body\n-- (`invariant <name> : <expr>`). The codegen has no goal to lower —\n-- pre-v2.14 emitted `theorem <name> : True := trivial`, which\n-- was tautological. To verify this invariant, give it a body in\n-- the spec.\n\n";

/// An invariant: a theorem over the state, or a comment where it has no
/// predicate.
#[verifier::opaque]
pub open spec fn invariant_text(inv: InvariantMir, fields: Seq<Seq<char>>) -> Seq<char> {
    match inv.body {
        Some(pred) => "/-- Invariant: "@ + inv.name@ + (if inv.doc@.len() == 0 {
            Seq::empty()
        } else {
            " — "@ + inv.doc@
        }) + (" -/\n"@ + "theorem "@ + inv.name@ + " (s : State) : "@ + prefixed(pred.0.lean@, fields) + " := by sorry\n\n"@),
        None => "-- INVARIANT OBLIGATION (declared, no predicate body): "@ + inv.name@ + "\n"@ + (
        if inv.doc@.len() == 0 {
            Seq::empty()
        } else {
            "--   description: "@ + inv.doc@ + "\n"@
        }) + BARE_NOTE@,
    }
}

fn emit_invariant(out: &mut String, inv: &InvariantMir, fields: &Vec<String>)
    ensures
        final(out)@ == old(out)@ + invariant_text(*inv, texts(fields@)),
{
    proof {
        reveal(invariant_text);
    }
    match &inv.body {
        Some(pred) => {
            let claim = prefix_state_fields(&pred.0.lean, fields);
            out.push_str("/-- Invariant: ");
            out.push_str(&inv.name);
            if !inv.doc.as_str().is_empty() {
                out.push_str(" — ");
                out.push_str(&inv.doc);
            }
            out.push_str(" -/\n");
            out.push_str("theorem ");
            out.push_str(&inv.name);
            out.push_str(" (s : State) : ");
            out.push_str(&claim);
            out.push_str(" := by sorry\n\n");
        },
        None => {
            out.push_str("-- INVARIANT OBLIGATION (declared, no predicate body): ");
            out.push_str(&inv.name);
            out.push_str("\n");
            if !inv.doc.as_str().is_empty() {
                out.push_str("--   description: ");
                out.push_str(&inv.doc);
                out.push_str("\n");
            }
            out.push_str(BARE_NOTE);
        },
    }
}

pub open spec fn invariants_upto(
    invs: Seq<InvariantMir>,
    fields: Seq<Seq<char>>,
    n: nat,
) -> Seq<char>
    decreases n,
{
    if n == 0 {
        Seq::empty()
    } else {
        invariants_upto(invs, fields, (n - 1) as nat) + invariant_text(invs[n - 1], fields)
    }
}

/// The names of the fields of the flat state.
pub open spec fn flat_names(sc: ScopeV) -> Seq<Seq<char>> {
    field_names(flat_fields(sc.variants), flat_fields(sc.variants).len())
}

pub fn flat_field_names(sc: &Scope) -> (r: Vec<String>)
    ensures
        texts(r@) == flat_names(sc@),
{
    let fields = flat_state_fields(&sc.variants);
    let ghost fs = flat_fields(sc@.variants);
    let mut out: Vec<String> = Vec::new();
    for i in 0..fields.len()
        invariant
            refs(fields@) == fs,
            texts(out@) == field_names(fs, i as nat),
    {
        out.push(fields[i].name.clone());
    }
    out
}

/// The invariants, in order.
pub open spec fn invariants_text(invs: Seq<InvariantMir>, sc: ScopeV) -> Seq<char> {
    invariants_upto(invs, flat_names(sc), invs.len())
}

pub fn emit_invariants(out: &mut String, invs: &Vec<InvariantMir>, sc: &Scope)
    ensures
        final(out)@ == old(out)@ + invariants_text(invs@, sc@),
{
    let fields = flat_field_names(sc);
    for i in 0..invs.len()
        invariant
            texts(fields@) == flat_names(sc@),
            out@ == old(out)@ + invariants_upto(invs@, flat_names(sc@), i as nat),
    {
        emit_invariant(out, &invs[i], &fields);
    }
}

// ---------------------------------------------------------------------------
// Frames
// ---------------------------------------------------------------------------

/// Whether one of the first `n` handlers declares a frame.
pub open spec fn some_frame(hs: Seq<HandlerMir>, n: nat) -> bool
    decreases n,
{
    if n == 0 {
        false
    } else {
        some_frame(hs, (n - 1) as nat) || hs[n - 1].modifies is Some
    }
}

fn any_frame(sc: &Scope) -> (r: bool)
    ensures
        r == some_frame(sc@.handlers, sc@.handlers.len()),
{
    let mut found: bool = false;
    for i in 0..sc.handlers.len()
        invariant
            found == some_frame(sc@.handlers, i as nat),
    {
        if sc.handlers[i].modifies.is_some() {
            found = true;
        }
    }
    found
}

/// The last segment of a path, or nothing.
pub open spec fn frame_field(p: Path) -> Seq<char> {
    if p@.len() > 0 {
        p@.last()
    } else {
        Seq::empty()
    }
}

/// Whether one of the paths ends in the field.
pub open spec fn frame_names(ps: Seq<Path>, field: Seq<char>) -> bool {
    exists|i: int| 0 <= i < ps.len() && frame_field(#[trigger] ps[i]) == field
}

fn frame_has(ps: &Vec<Path>, field: &str) -> (r: bool)
    ensures
        r == frame_names(ps@, field@),
{
    for i in 0..ps.len()
        invariant
            forall|k: int| 0 <= k < i ==> frame_field(#[trigger] ps@[k]) != field@,
    {
        let n: usize = ps[i].segments.len();
        let hit: bool = if n > 0 {
            same(&ps[i].segments[n - 1], field)
        } else {
            field.is_empty()
        };
        proof {
            if n == 0 {
                assert(field@.len() == 0 ==> field@ =~= Seq::<char>::empty());
            }
            assert(hit == (frame_field(ps@[i as int]) == field@));
        }
        if hit {
            return true;
        }
    }
    false
}

/// The equations for the fields among the first `n` that stay as they are.
pub open spec fn unchanged_parts(
    fields: Seq<Seq<char>>,
    modified: Seq<Path>,
    status_moves: bool,
    n: nat,
) -> Seq<Seq<char>>
    decreases n,
{
    if n == 0 {
        Seq::empty()
    } else {
        let f = fields[n - 1];
        let before = unchanged_parts(fields, modified, status_moves, (n - 1) as nat);
        if frame_names(modified, f) || (f == "status"@ && status_moves) {
            before
        } else {
            before.push("s'."@ + safe_text(f) + " = s."@ + safe_text(f))
        }
    }
}

/// The first lines of a theorem about a successful step.
pub open spec fn step_head(name: Seq<char>, h: HandlerMir) -> Seq<char> {
    "theorem "@ + safe_text(name) + " (s s' : State) (signer : Pubkey)"@ + sig_text(h.params@) + "\n"@ + "    (h : "@ + transition_text(h.name@) + " s signer"@ + args_text(h.params@) + " = some s') :\n"@
}

fn emit_step_head(out: &mut String, name: &str, h: &HandlerMir)
    ensures
        final(out)@ == old(out)@ + step_head(name@, *h),
{
    let theorem = safe_name(name);
    let sig = param_sig_str(&h.params);
    let trans = transition_name(&h.name);
    let args = param_args_str(&h.params);
    out.push_str("theorem ");
    out.push_str(&theorem);
    out.push_str(" (s s' : State) (signer : Pubkey)");
    out.push_str(&sig);
    out.push_str("\n");
    out.push_str("    (h : ");
    out.push_str(&trans);
    out.push_str(" s signer");
    out.push_str(&args);
    out.push_str(" = some s') :\n");
}

/// The frame of a handler: every field that it does not declare as modified
/// keeps its value.
#[verifier::opaque]
pub open spec fn frame_text(h: HandlerMir, fields: Seq<Seq<char>>) -> Seq<char> {
    match h.modifies {
        Some(m) => {
            let parts = unchanged_parts(fields, m@, h.transition is Some, fields.len());
            if parts.len() == 0 {
                Seq::empty()
            } else {
                step_head(h.name@ + "_frame"@, h) + ("    "@ + join_text(parts, " ∧ "@) + " := sorry\n\n"@)
            }
        },
        None => Seq::empty(),
    }
}

fn emit_frame(out: &mut String, h: &HandlerMir, fields: &Vec<String>)
    ensures
        final(out)@ == old(out)@ + frame_text(*h, texts(fields@)),
{
    proof {
        reveal(frame_text);
    }
    match &h.modifies {
        Some(m) => {
            let moves: bool = h.transition.is_some();
            let mut parts: Vec<String> = Vec::new();
            for i in 0..fields.len()
                invariant
                    moves == h.transition is Some,
                    texts(parts@) == unchanged_parts(texts(fields@), m@, moves, i as nat),
            {
                let f = &fields[i];
                if !(frame_has(m, f) || (same(f, "status") && moves)) {
                    let sf = safe_name(f);
                    let mut p = "s'.".to_owned();
                    p.push_str(&sf);
                    p.push_str(" = s.");
                    p.push_str(&sf);
                    parts.push(p);
                }
            }
            if parts.len() > 0 {
                let mut name = h.name.clone();
                name.push_str("_frame");
                emit_step_head(out, &name, h);
                let joined = join(&parts, " ∧ ");
                out.push_str("    ");
                out.push_str(&joined);
                out.push_str(" := sorry\n\n");
            }
        },
        None => {},
    }
}

pub open spec fn frames_upto(hs: Seq<HandlerMir>, fields: Seq<Seq<char>>, n: nat) -> Seq<char>
    decreases n,
{
    if n == 0 {
        Seq::empty()
    } else {
        frames_upto(hs, fields, (n - 1) as nat) + frame_text(hs[n - 1], fields)
    }
}

/// The heading of the frames.
pub open spec fn frames_heading() -> Seq<char> {
    RULE@ + "-- Frame conditions (modifies)\n"@ + RULE@ + "\n"@
}

/// The frames of the handlers on the flat state.
pub open spec fn frames_text(sc: ScopeV) -> Seq<char> {
    if some_frame(sc.handlers, sc.handlers.len()) {
        frames_heading() + frames_upto(sc.handlers, flat_names(sc), sc.handlers.len())
    } else {
        Seq::empty()
    }
}

pub fn emit_frame_conditions(out: &mut String, sc: &Scope)
    ensures
        final(out)@ == old(out)@ + frames_text(sc@),
{
    if !any_frame(sc) {
        return ;
    }
    out.push_str(RULE);
    out.push_str("-- Frame conditions (modifies)\n");
    out.push_str(RULE);
    out.push_str("\n");
    let ghost base = out@;
    let fields = flat_field_names(sc);
    for i in 0..sc.handlers.len()
        invariant
            texts(fields@) == flat_names(sc@),
            out@ == base + frames_upto(sc@.handlers, flat_names(sc@), i as nat),
    {
        emit_frame(out, sc.handlers[i], &fields);
    }
}

/// What stands in place of the frame on the inductive state.
pub const ADT_FRAME_NOTE: &'static str = "    -- todo!(): inductive-State frame condition. Statement needs\n    -- per-pre-variant case analysis to express which payload\n    -- fields are preserved. Stated as `True` until that lands;\n    -- the honest placeholder proof is `trivial`, not `sorry`.\n    True := trivial\n\n";

pub open spec fn adt_frames_upto(hs: Seq<HandlerMir>, n: nat) -> Seq<char>
    decreases n,
{
    if n == 0 {
        Seq::empty()
    } else {
        let h = hs[n - 1];
        let before = adt_frames_upto(hs, (n - 1) as nat);
        if h.modifies is Some {
            before + step_head(h.name@ + "_frame"@, h) + ADT_FRAME_NOTE@
        } else {
            before
        }
    }
}

/// The frames of the handlers on the inductive state.
pub open spec fn adt_frames_text(sc: ScopeV) -> Seq<char> {
    if some_frame(sc.handlers, sc.handlers.len()) {
        frames_heading() + adt_frames_upto(sc.handlers, sc.handlers.len())
    } else {
        Seq::empty()
    }
}

pub fn emit_frame_conditions_adt(out: &mut String, sc: &Scope)
    ensures
        final(out)@ == old(out)@ + adt_frames_text(sc@),
{
    if !any_frame(sc) {
        return ;
    }
    out.push_str(RULE);
    out.push_str("-- Frame conditions (modifies)\n");
    out.push_str(RULE);
    out.push_str("\n");
    let ghost base = out@;
    for i in 0..sc.handlers.len()
        invariant
            out@ == base + adt_frames_upto(sc@.handlers, i as nat),
    {
        let h = sc.handlers[i];
        if h.modifies.is_some() {
            let mut name = h.name.clone();
            name.push_str("_frame");
            emit_step_head(out, &name, h);
            out.push_str(ADT_FRAME_NOTE);
        }
    }
}

// ---------------------------------------------------------------------------
// Postconditions
// ---------------------------------------------------------------------------

pub open spec fn handler_posts_upto(h: HandlerMir, n: nat) -> Seq<char>
    decreases n,
{
    if n == 0 {
        Seq::empty()
    } else {
        handler_posts_upto(h, (n - 1) as nat) + step_head(
            h.name@ + "_ensures_"@ + decimal((n - 1) as nat),
            h,
        ) + ("    "@ + h.post@[n - 1].0.lean@ + " := sorry\n\n"@)
    }
}

fn emit_handler_posts(out: &mut String, h: &HandlerMir)
    ensures
        final(out)@ == old(out)@ + handler_posts_upto(*h, h.post@.len()),
{
    for i in 0..h.post.len()
        invariant
            out@ == old(out)@ + handler_posts_upto(*h, i as nat),
    {
        let d = decimal_string(i as u128);
        let mut name = h.name.clone();
        name.push_str("_ensures_");
        name.push_str(&d);
        emit_step_head(out, &name, h);
        out.push_str("    ");
        out.push_str(&h.post[i].0.lean);
        out.push_str(" := sorry\n\n");
    }
}

pub open spec fn posts_of_upto(hs: Seq<HandlerMir>, n: nat) -> Seq<char>
    decreases n,
{
    if n == 0 {
        Seq::empty()
    } else {
        posts_of_upto(hs, (n - 1) as nat) + handler_posts_upto(hs[n - 1], hs[n - 1].post@.len())
    }
}

/// Whether one of the first `n` handlers has a postcondition.
pub open spec fn some_post(hs: Seq<HandlerMir>, n: nat) -> bool
    decreases n,
{
    if n == 0 {
        false
    } else {
        some_post(hs, (n - 1) as nat) || hs[n - 1].post@.len() > 0
    }
}

/// One theorem for each postcondition of each handler.
pub open spec fn ensures_text(sc: ScopeV) -> Seq<char> {
    if some_post(sc.handlers, sc.handlers.len()) {
        RULE@ + "-- Post-conditions (ensures)\n"@ + RULE@ + "\n"@ + posts_of_upto(
            sc.handlers,
            sc.handlers.len(),
        )
    } else {
        Seq::empty()
    }
}

pub fn emit_ensures(out: &mut String, sc: &Scope)
    ensures
        final(out)@ == old(out)@ + ensures_text(sc@),
{
    let mut found: bool = false;
    for i in 0..sc.handlers.len()
        invariant
            found == some_post(sc@.handlers, i as nat),
    {
        if sc.handlers[i].post.len() > 0 {
            found = true;
        }
    }
    if !found {
        return ;
    }
    out.push_str(RULE);
    out.push_str("-- Post-conditions (ensures)\n");
    out.push_str(RULE);
    out.push_str("\n");
    let ghost base = out@;
    for i in 0..sc.handlers.len()
        invariant
            out@ == base + posts_of_upto(sc@.handlers, i as nat),
    {
        emit_handler_posts(out, sc.handlers[i]);
    }
}

} // verus!
