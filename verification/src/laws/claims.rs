//! What the rendered theorems about reachability, bounds and calls state.
use vstd::prelude::*;

use crate::laws::lists::{
    bounds_upto_stands, covers_upto_stands, dispatch_lines_stands, envs_upto_stands,
    field_lines_stands, lives_upto_stands, new_binders_stands, reachables_upto_stands,
    steps_upto_stands, traces_upto_stands, unders_upto_stands,
};
use crate::laws::stands::{
    part_stands, stands, stands_in, stands_left, stands_right, stands_through, still_there,
};
use crate::laws::theorems::applied;
use crate::lean::base::{args_text, conjunction_text, safe_text, sig_text, transition_text, ty_text};
use crate::lean::covers::{
    covers_heading, covers_text, covers_upto, op_params, reachable_text, reachables_upto,
    step_args, step_exists, step_text, steps_upto, trace_proof, trace_text, traces_upto,
};
use crate::lean::cpi::{
    call_theorem, open_theorem, pinned_theorem, transfer_doc, transfer_theorem, CallSite,
    TRANSFER_CLAIM, TRANSFER_SHAPE,
};
use crate::lean::environment::{
    constraint_hyps, environments_text, envs_upto, new_binders, new_writes, speaks_of, under_text,
    unders_upto,
};
use crate::lean::liveness::{
    live_text, liveness_heading, liveness_path, liveness_proof, liveness_text, lives_text,
    lives_upto, step_bound, APPLY_OPS,
};
use crate::lean::overflow::{
    adds, bounds_proof, bounds_text, bounds_upto, numeric_fields, overflow_text, some_adds,
    valid_parts, width_text,
};
use crate::lean::scope::{flat_fields, ScopeV};
use crate::lean::structure::{dispatch_lines, operations_text, state_text};
use crate::mir::{lean_of, AccountRef, Expr, FieldDecl, HandlerMir, Stmt, Ty};
use crate::number::decimal;
use crate::pattern::has_text;
use crate::search::contains_text;
use crate::text::{join_text, texts};

verus! {

broadcast use {crate::text::group_text, crate::text::texts_index, crate::text::texts_len};

// ---------------------------------------------------------------------------
// Operations
// ---------------------------------------------------------------------------

/// Applying an operation is applying the transition of its handler to the same
/// parameters.
pub proof fn operations_apply_transitions(sc: ScopeV, j: int)
    requires
        0 <= j < sc.handlers.len(),
    ensures
        ({
            let h = sc.handlers[j];
            contains_text(
                operations_text(sc),
                "  | ."@ + safe_text(h.name@) + args_text(h.params@) + " => "@ + applied(h) + "\n"@,
            )
        }),
        contains_text(
            operations_text(sc),
            "def applyOp (s : State) (signer : Pubkey) : Operation → Option State\n"@,
        ),
{
    let h = sc.handlers[j];
    let n = sc.handlers.len();
    let line = "  | ."@ + safe_text(h.name@) + args_text(h.params@) + " => "@ + applied(h) + "\n"@;
    dispatch_lines_stands(sc.handlers, n, j);
    let all = dispatch_lines(sc.handlers, n);
    assert(crate::lean::structure::dispatch_text(h) == line);
    let a = "inductive Operation where\n"@ + crate::lean::structure::ctor_lines(sc.handlers, n)
        + "  deriving Repr, DecidableEq, BEq\n\n"@;
    let def = "def applyOp (s : State) (signer : Pubkey) : Operation → Option State\n"@;
    stands_in(a + def, all, "\n"@, line);
    stands(a, def, all + "\n"@);
}

/// The state has every field of the spec once, under its name and with its type,
/// and the lifecycle where it has states to tell apart.
pub proof fn states_have_their_fields(sc: ScopeV, k: int)
    requires
        sc.variants.len() > 0,
        0 <= k < flat_fields(sc.variants).len(),
    ensures
        ({
            let f = flat_fields(sc.variants)[k];
            contains_text(
                state_text(sc),
                "  "@ + safe_text(f.name@) + " : "@ + ty_text(f.ty) + "\n"@,
            )
        }),
        sc.lifecycle.len() >= 2 ==> contains_text(state_text(sc), "  status : Status\n"@),
{
    let fs = flat_fields(sc.variants);
    let f = fs[k];
    let line = "  "@ + safe_text(f.name@) + " : "@ + ty_text(f.ty) + "\n"@;
    field_lines_stands(fs, fs.len(), k);
    let all = crate::lean::structure::field_lines(fs, fs.len());
    let end = "  deriving Repr, DecidableEq, BEq, Inhabited\n\n"@;
    if sc.lifecycle.len() >= 2 {
        let status = "  status : Status\n"@;
        stands_in("structure State where\n"@, all, status + end, line);
        stands("structure State where\n"@ + all, status, end);
    } else {
        stands_in("structure State where\n"@, all, end, line);
    }
}

// ---------------------------------------------------------------------------
// Covers
// ---------------------------------------------------------------------------

proof fn lemma_in_covers(sc: ScopeV, adt: bool, i: int, t: Seq<char>)
    requires
        0 <= i < sc.covers.len(),
        contains_text(
            traces_upto(sc, sc.covers[i], adt, sc.covers[i].traces@.len()) + reachables_upto(
                sc,
                sc.covers[i],
                sc.covers[i].reachable@.len(),
            ),
            t,
        ),
    ensures
        contains_text(covers_text(sc, adt), t),
{
    let n = sc.covers.len();
    covers_upto_stands(sc, adt, n, i);
    let own = traces_upto(sc, sc.covers[i], adt, sc.covers[i].traces@.len()) + reachables_upto(
        sc,
        sc.covers[i],
        sc.covers[i].reachable@.len(),
    );
    stands_through(covers_upto(sc, adt, n), own, t);
    stands_right(covers_heading(), covers_upto(sc, adt, n), t);
}

/// The call of step `j` of a trace: the transition of its operation, on the
/// state that the step starts from.
pub open spec fn step_applied(sc: ScopeV, trace: Seq<Seq<char>>, j: nat) -> Seq<char> {
    let n = op_params(sc, trace[j as int]).len();
    transition_text(trace[j as int]) + " s"@ + decimal(j) + " signer"@ + (if n == 0 {
        Seq::empty()
    } else {
        " "@ + join_text(step_args(j, n), " "@)
    })
}

/// Every step of a trace but the last leads to the state that the next starts
/// from, and the last does not abort.
pub proof fn traces_run_to_their_end(sc: ScopeV, adt: bool, i: int, k: int, j: int)
    requires
        0 <= i < sc.covers.len(),
        0 <= k < sc.covers[i].traces@.len(),
        0 <= j < sc.covers[i].traces@[k]@.len(),
    ensures
        ({
            let trace = texts(sc.covers[i].traces@[k]@);
            let call = step_applied(sc, trace, j as nat);
            &&& j + 1 < trace.len() ==> contains_text(
                covers_text(sc, adt),
                "∃ (s"@ + decimal((j + 1) as nat) + " : State), "@ + call + " = some s"@ + decimal(
                    (j + 1) as nat,
                ) + " ∧\n"@,
            )
            &&& j + 1 == trace.len() ==> contains_text(covers_text(sc, adt), call + " ≠ none"@)
        }),
{
    let c = sc.covers[i];
    let trace = texts(c.traces@[k]@);
    assert(trace.len() == c.traces@[k]@.len());
    let call = step_applied(sc, trace, j as nat);
    let claim = if j + 1 < trace.len() {
        "∃ (s"@ + decimal((j + 1) as nat) + " : State), "@ + call + " = some s"@ + decimal(
            (j + 1) as nat,
        ) + " ∧\n"@
    } else {
        call + " ≠ none"@
    };
    let own = step_text(sc, trace, adt, j as nat);
    assert(contains_text(own, claim)) by {
        reveal(step_text);
        if j + 1 < trace.len() {
            stands(step_exists(sc, trace, j as nat), claim, Seq::empty());
        } else {
            let end = match trace_proof(sc, trace, adt) {
                Some(script) => script + "\n"@,
                None => " := sorry\n\n"@,
            };
            stands(step_exists(sc, trace, j as nat), claim, end);
        }
    }
    let steps = steps_upto(sc, trace, adt, trace.len());
    steps_upto_stands(sc, trace, adt, trace.len(), j);
    stands_through(steps, own, claim);
    let whole = trace_text(sc, c, adt, k as nat);
    assert(contains_text(whole, claim)) by {
        reveal(trace_text);
        let suffix = if c.traces@.len() > 1 {
            "_"@ + decimal(k as nat)
        } else {
            Seq::<char>::empty()
        };
        let a = "/-- "@ + c.name@ + " — trace ["@ + join_text(trace, ", "@) + "] is reachable. -/\n"@
            + ("theorem cover_"@ + c.name@) + suffix + " : ∃ (s0 : State) (signer : Pubkey),\n"@;
        stands_in(a, steps, Seq::empty(), claim);
    }
    let traces = traces_upto(sc, c, adt, c.traces@.len());
    traces_upto_stands(sc, c, adt, c.traces@.len(), k);
    stands_through(traces, whole, claim);
    stands_left(traces, reachables_upto(sc, c, c.reachable@.len()), claim);
    lemma_in_covers(sc, adt, i, claim);
}

/// What is reachable is claimed to be so: a state in which the transition does
/// not abort, under the condition that the cover names.
pub proof fn reachable_operations_do_not_abort(sc: ScopeV, adt: bool, i: int, k: int)
    requires
        0 <= i < sc.covers.len(),
        0 <= k < sc.covers[i].reachable@.len(),
    ensures
        ({
            let r = sc.covers[i].reachable@[k];
            &&& contains_text(
                covers_text(sc, adt),
                transition_text(r.0@) + " s signer"@ + args_text(op_params(sc, r.0@))
                    + " ≠ none := sorry\n\n"@,
            )
            &&& r.1 is Some ==> contains_text(
                covers_text(sc, adt),
                "    "@ + (r.1->0).0.lean@ + " ∧ "@,
            )
        }),
{
    let c = sc.covers[i];
    let r = c.reachable@[k];
    let params = op_params(sc, r.0@);
    let claim = transition_text(r.0@) + " s signer"@ + args_text(params) + " ≠ none := sorry\n\n"@;
    let own = reachable_text(sc, c.name@, r);
    let n = c.reachable@.len();
    let all = reachables_upto(sc, c, n);
    reachables_upto_stands(sc, c, n, k);
    let doc = match r.1 {
        Some(p) => " when "@ + p.0.lean@ + ". -/\n"@,
        None => ". -/\n"@,
    };
    let a = "/-- "@ + c.name@ + " — "@ + r.0@ + " is reachable"@ + doc + ("theorem cover_"@
        + c.name@ + "_"@ + safe_text(r.0@) + " : ∃ (s : State) (signer : Pubkey),\n"@);
    let binders = if params.len() == 0 {
        Seq::<char>::empty()
    } else {
        "∃ "@ + join_text(
            crate::lean::structure::binder_parts(params, params.len()),
            " "@,
        ) + ", "@
    };
    let traces = traces_upto(sc, c, adt, c.traces@.len());
    if let Some(p) = r.1 {
        let cond = "    "@ + p.0.lean@ + " ∧ "@;
        assert(contains_text(own, claim) && contains_text(own, cond)) by {
            reveal(reachable_text);
            stands(a + cond + binders, claim, Seq::empty());
            stands(a, cond, binders + claim);
        }
        stands_through(all, own, cond);
        stands_right(traces, all, cond);
        lemma_in_covers(sc, adt, i, cond);
    } else {
        assert(contains_text(own, claim)) by {
            reveal(reachable_text);
            stands(a + "    "@ + binders, claim, Seq::empty());
        }
    }
    stands_through(all, own, claim);
    stands_right(traces, all, claim);
    lemma_in_covers(sc, adt, i, claim);
}

// ---------------------------------------------------------------------------
// Liveness
// ---------------------------------------------------------------------------

/// A liveness property is claimed of every state that it leads from: within its
/// bound, operations lead to the state that it leads to.
pub proof fn liveness_leads_on(sc: ScopeV, adt: bool, i: int)
    requires
        0 <= i < sc.liveness.len(),
    ensures
        ({
            let l = sc.liveness[i];
            let bound = decimal(
                match l.within_steps {
                    Some(n) => n as nat,
                    None => 10,
                },
            );
            let text = liveness_text(sc, adt);
            &&& contains_text(text, "    (h : s.status = ."@ + l.from_state@ + ") :\n"@)
            &&& contains_text(
                text,
                "    ∃ ops, ops.length ≤ "@ + bound
                    + " ∧ ∀ s', applyOps s signer ops = some s' → s'.status = ."@
                    + l.leads_to_state@,
            ) || contains_text(
                text,
                "    ∃ ops s', ops.length ≤ "@ + bound
                    + " ∧ applyOps s signer ops = some s' ∧ s'.status = ."@ + l.leads_to_state@,
            )
        }),
{
    let l = sc.liveness[i];
    let bound = decimal(step_bound(l));
    let to = l.leads_to_state@;
    let own = live_text(sc.handlers, l, adt);
    let start = "    (h : s.status = ."@ + l.from_state@ + ") :\n"@;
    let all = "    ∃ ops, ops.length ≤ "@ + bound
        + " ∧ ∀ s', applyOps s signer ops = some s' → s'.status = ."@ + to;
    let some = "    ∃ ops s', ops.length ≤ "@ + bound
        + " ∧ applyOps s signer ops = some s' ∧ s'.status = ."@ + to;
    let path = liveness_path(l.from_state@, to, texts(l.via_ops@), sc.handlers);
    let claim = if adt || path is Some {
        all
    } else {
        some
    };
    let a = "/-- "@ + l.name@ + " — from "@ + l.from_state@ + " leads to "@ + to + " within "@
        + bound + " steps via ["@ + join_text(texts(l.via_ops@), ", "@) + "]. -/\n"@ + ("theorem liveness_"@
        + l.name@ + " (s : State) (signer : Pubkey)\n"@);
    let end = if adt {
        " := by sorry\n\n"@
    } else {
        match path {
            Some(ops) => liveness_proof(sc.handlers, ops) + "\n"@,
            None => " := by sorry\n\n"@,
        }
    };
    assert(contains_text(own, start) && contains_text(own, claim)) by {
        reveal(live_text);
        assert(own == a + start + claim + end);
        stands(a, start, claim + end);
        stands(a + start, claim, end);
    }
    let n = sc.liveness.len();
    lives_upto_stands(sc, adt, n, i);
    stands_through(lives_upto(sc, adt, n), own, start);
    stands_through(lives_upto(sc, adt, n), own, claim);
    let head = liveness_heading() + (if sc.handlers.len() > 0 {
        APPLY_OPS@
    } else {
        Seq::empty()
    });
    stands_right(head, lives_text(sc, adt), start);
    stands_right(head, lives_text(sc, adt), claim);
}

// ---------------------------------------------------------------------------
// Environments
// ---------------------------------------------------------------------------

proof fn lemma_new_writes(ms: Seq<(crate::mir::Symbol, Ty)>, n: nat, k: int)
    requires
        0 <= k < n,
    ensures
        has_text(new_writes(ms, n), safe_text(ms[k].0@) + " := new_"@ + ms[k].0@),
    decreases n,
{
    let before = new_writes(ms, (n - 1) as nat);
    let t = safe_text(ms[k].0@) + " := new_"@ + ms[k].0@;
    if k < n - 1 {
        lemma_new_writes(ms, (n - 1) as nat, k);
        still_there(before, new_writes(ms, n).last(), t);
    } else {
        still_there(before, t, t);
    }
}

/// A property is claimed to hold on when an environment changes its fields: from
/// the property of the state to the property of the state with the new values.
pub proof fn environments_keep_properties(sc: ScopeV, i: int, j: int, k: int)
    requires
        0 <= i < sc.environments.len(),
        0 <= j < sc.properties.len(),
        sc.properties[j].expression is Some,
        0 <= k < sc.environments[i].mutates@.len(),
    ensures
        ({
            let env = sc.environments[i];
            let p = sc.properties[j];
            let f = env.mutates@[k];
            let text = environments_text(sc);
            &&& contains_text(text, "    (h_inv : "@ + p.name@ + " s) :\n"@ + "    "@ + p.name@ + " { s with "@)
            &&& contains_text(text, safe_text(f.0@) + " := new_"@ + f.0@)
            &&& contains_text(text, " (new_"@ + f.0@ + " : "@ + ty_text(f.1) + ")"@)
        }),
{
    let env = sc.environments[i];
    let p = sc.properties[j];
    let ms = env.mutates@;
    let f = ms[k];
    let e = p.expression->0;
    let own = under_text(env, p);
    let claim = "    (h_inv : "@ + p.name@ + " s) :\n"@ + "    "@ + p.name@ + " { s with "@;
    let write = safe_text(f.0@) + " := new_"@ + f.0@;
    let binder = " (new_"@ + f.0@ + " : "@ + ty_text(f.1) + ")"@;
    let writes = new_writes(ms, ms.len());
    let joined = join_text(writes, ", "@);
    let binders = new_binders(ms, ms.len());
    lemma_new_writes(ms, ms.len(), k);
    let at = choose|at: int| 0 <= at < writes.len() && #[trigger] writes[at] == write;
    part_stands(writes, ", "@, at);
    new_binders_stands(ms, ms.len(), k);
    let hyps = constraint_hyps(env.constraints@, ms, env.constraints@.len()) + "\n"@;
    let a = "theorem "@ + p.name@ + "_under_"@ + env.name@ + " (s : State)"@;
    let end = " } := "@ + (if speaks_of(e.lean@, ms, ms.len()) {
        "sorry\n\n"@
    } else {
        "by\n  unfold "@ + p.name@ + " at h_inv ⊢; dsimp; exact h_inv\n\n"@
    });
    assert(contains_text(own, claim) && contains_text(own, write) && contains_text(own, binder))
        by {
        reveal(under_text);
        assert(own == a + binders + hyps + claim + joined + end);
        stands(a + binders + hyps, claim, joined + end);
        stands_in(a + binders + hyps + claim, joined, end, write);
        stands_in(a, binders, hyps + claim + joined + end, binder);
    }
    let n = sc.properties.len();
    let m = sc.environments.len();
    unders_upto_stands(env, sc.properties, n, j);
    envs_upto_stands(sc, m, i);
    let inner = unders_upto(env, sc.properties, n);
    let all = envs_upto(sc, m);
    stands_through(inner, own, claim);
    stands_through(inner, own, write);
    stands_through(inner, own, binder);
    stands_through(all, inner, claim);
    stands_through(all, inner, write);
    stands_through(all, inner, binder);
    let head = crate::lean::environment::environments_heading();
    stands_right(head, all, claim);
    stands_right(head, all, write);
    stands_right(head, all, binder);
}

// ---------------------------------------------------------------------------
// Bounds
// ---------------------------------------------------------------------------

proof fn lemma_valid_parts(fs: Seq<FieldDecl>, state: Seq<char>, n: nat)
    requires
        n <= fs.len(),
    ensures
        valid_parts(fs, state, n).len() == n,
        forall|k: int|
            0 <= k < n ==> #[trigger] valid_parts(fs, state, n)[k] == "valid_"@ + width_text(
                fs[k].ty,
            ) + " "@ + state + "."@ + safe_text(fs[k].name@),
    decreases n,
{
    if n > 0 {
        lemma_valid_parts(fs, state, (n - 1) as nat);
    }
}

proof fn lemma_some_adds(hs: Seq<HandlerMir>, n: nat, j: int)
    requires
        0 <= j < n <= hs.len(),
        adds(hs[j].body.stmts@, hs[j].body.stmts@.len()),
    ensures
        some_adds(hs, n),
    decreases n,
{
    if j < n - 1 {
        lemma_some_adds(hs, (n - 1) as nat, j);
    }
}

proof fn lemma_adds(stmts: Seq<Stmt>, n: nat, k: int)
    requires
        0 <= k < n <= stmts.len(),
        stmts[k] is CheckedAdd,
    ensures
        adds(stmts, n),
    decreases n,
{
    if k < n - 1 {
        lemma_adds(stmts, (n - 1) as nat, k);
    }
}

/// Of every handler with a checked addition stands a theorem: where every
/// number of the state before is within the bounds of its type, so is every
/// number of the state that the transition leads to.
pub proof fn checked_additions_stay_in_bounds(sc: ScopeV, adt: bool, j: int, k: int)
    requires
        0 <= j < sc.handlers.len(),
        0 <= k < sc.handlers[j].body.stmts@.len(),
        sc.handlers[j].body.stmts@[k] is CheckedAdd,
        numeric_fields(sc.variants).len() > 0,
    ensures
        ({
            let h = sc.handlers[j];
            let fs = numeric_fields(sc.variants);
            let text = overflow_text(sc, adt);
            &&& contains_text(
                text,
                "    (h_valid : "@ + conjunction_text(valid_parts(fs, "s"@, fs.len())) + ")\n"@,
            )
            &&& contains_text(
                text,
                "    (h : "@ + applied(h) + " = some s') :\n"@ + "    "@ + conjunction_text(
                    valid_parts(fs, "s'"@, fs.len()),
                ) + " := by"@,
            )
            &&& forall|i: int|
                0 <= i < fs.len() ==> #[trigger] valid_parts(fs, "s"@, fs.len())[i] == "valid_"@
                    + width_text(fs[i].ty) + " s."@ + safe_text(fs[i].name@)
            &&& forall|i: int|
                0 <= i < fs.len() ==> #[trigger] valid_parts(fs, "s'"@, fs.len())[i] == "valid_"@
                    + width_text(fs[i].ty) + " s'."@ + safe_text(fs[i].name@)
        }),
{
    let h = sc.handlers[j];
    let fs = numeric_fields(sc.variants);
    let n = sc.handlers.len();
    lemma_adds(h.body.stmts@, h.body.stmts@.len(), k);
    lemma_some_adds(sc.handlers, n, j);
    let own = bounds_text(sc, h, fs, adt);
    let before = "    (h_valid : "@ + conjunction_text(valid_parts(fs, "s"@, fs.len())) + ")\n"@;
    let after = "    (h : "@ + applied(h) + " = some s') :\n"@ + "    "@ + conjunction_text(
        valid_parts(fs, "s'"@, fs.len()),
    ) + " := by"@;
    assert(contains_text(own, before) && contains_text(own, after)) by {
        reveal(bounds_text);
        let a = "theorem "@ + safe_text(h.name@)
            + "_overflow_safe (s s' : State) (signer : Pubkey)"@ + sig_text(h.params@) + "\n"@;
        let hyps = crate::lean::overflow::inv_hyps(sc.properties, h, sc.properties.len());
        let script = if adt {
            " := by sorry\n\n"@
        } else {
            bounds_proof(sc, h, fs)
        };
        lemma_bounds_by(sc, h, fs);
        let rest = script.subrange(6, script.len() as int);
        assert(own == a + before + hyps + after + rest);
        stands(a, before, hyps + after + rest);
        stands(a + before + hyps, after, rest);
    }
    bounds_upto_stands(sc, fs, adt, n, j);
    let all = bounds_upto(sc, fs, adt, n);
    stands_through(all, own, before);
    stands_through(all, own, after);
    let rule = crate::lean::base::RULE@;
    let head = rule
        + "-- Overflow safety obligations (auto-generated for operations with add effects)\n"@
        + rule + "\n"@;
    stands_right(head, all, before);
    stands_right(head, all, after);
    lemma_dotted();
    assert forall|i: int| 0 <= i < fs.len() implies #[trigger] valid_parts(fs, "s"@, fs.len())[i]
        == "valid_"@ + width_text(fs[i].ty) + " s."@ + safe_text(fs[i].name@) by {
        lemma_valid_parts(fs, "s"@, fs.len());
    }
    assert forall|i: int| 0 <= i < fs.len() implies #[trigger] valid_parts(fs, "s'"@, fs.len())[i]
        == "valid_"@ + width_text(fs[i].ty) + " s'."@ + safe_text(fs[i].name@) by {
        lemma_valid_parts(fs, "s'"@, fs.len());
    }
}

proof fn lemma_dotted()
    ensures
        " s."@ == " "@ + "s"@ + "."@,
        " s'."@ == " "@ + "s'"@ + "."@,
{
    reveal_strlit(" s.");
    reveal_strlit(" s'.");
    reveal_strlit(" ");
    reveal_strlit("s");
    reveal_strlit("s'");
    reveal_strlit(".");
    assert(" s."@ =~= " "@ + "s"@ + "."@);
    assert(" s'."@ =~= " "@ + "s'"@ + "."@);
}

proof fn lemma_bounds_by(sc: ScopeV, h: HandlerMir, fs: Seq<FieldDecl>)
    ensures
        bounds_proof(sc, h, fs) == " := by"@ + bounds_proof(sc, h, fs).subrange(
            6,
            bounds_proof(sc, h, fs).len() as int,
        ),
        " := by sorry\n\n"@ == " := by"@ + " := by sorry\n\n"@.subrange(
            6,
            " := by sorry\n\n"@.len() as int,
        ),
{
    reveal(bounds_proof);
    reveal_strlit(" := by");
    reveal_strlit(" := by\n  unfold ");
    reveal_strlit(" := by sorry\n\n");
    let t = bounds_proof(sc, h, fs);
    let lead = " := by\n  unfold "@;
    assert(t.subrange(0, 6) =~= " := by"@);
    assert(t =~= t.subrange(0, 6) + t.subrange(6, t.len() as int));
    let s = " := by sorry\n\n"@;
    assert(s =~= " := by"@ + s.subrange(6, s.len() as int));
}

// ---------------------------------------------------------------------------
// Calls
// ---------------------------------------------------------------------------

/// The instruction of a transfer moves tokens from the first account to the
/// second under the third, which signs; and the theorem says so of it.
pub proof fn transfers_have_their_shape(handler: Seq<char>, suffix: Seq<char>)
    ensures
        ({
            let t = transfer_theorem(handler, suffix);
            let build = safe_text("build_"@ + handler + "_transfer"@ + suffix);
            &&& contains_text(
                t,
                "def "@ + build + " (from_pk to_pk authority_pk : Pubkey) : CpiInstruction :=\n"@,
            )
            &&& contains_text(t, "    let cpi := "@ + build + " from_pk to_pk authority_pk\n"@)
            &&& contains_text(t, TRANSFER_SHAPE@)
            &&& contains_text(t, TRANSFER_CLAIM@)
        }),
{
    reveal(transfer_theorem);
    let build = safe_text("build_"@ + handler + "_transfer"@ + suffix);
    let theorem = safe_text(handler + "_transfer"@ + suffix + "_correct"@);
    let a = "def "@ + build + " (from_pk to_pk authority_pk : Pubkey) : CpiInstruction :=\n"@;
    let b = "theorem "@ + theorem + " (from_pk to_pk authority_pk : Pubkey) :\n"@;
    let c = "    let cpi := "@ + build + " from_pk to_pk authority_pk\n"@;
    let d = "  unfold "@ + build + " targetsProgram accountAt hasDiscriminator\n"@
        + "  exact ⟨rfl, rfl, rfl, rfl, rfl⟩\n\n"@;
    stands(Seq::empty(), a, TRANSFER_SHAPE@ + b + c + TRANSFER_CLAIM@ + d);
    stands(a, TRANSFER_SHAPE@, b + c + TRANSFER_CLAIM@ + d);
    stands(a + TRANSFER_SHAPE@ + b, c, TRANSFER_CLAIM@ + d);
    stands(a + TRANSFER_SHAPE@ + b + c, TRANSFER_CLAIM@, d);
}

/// The comment of a transfer names the account that it is from, then the one
/// that it is to.
pub proof fn transfer_comments_name_both_ends(
    handler: Seq<char>,
    from: AccountRef,
    to: AccountRef,
    amount: Expr,
    authority: Option<AccountRef>,
)
    ensures
        ({
            let label = |a: AccountRef|
                match a {
                    AccountRef::ByBinding(n) => n@,
                    AccountRef::SelfState => "self"@,
                };
            contains_text(
                transfer_doc(handler, from, to, amount, authority),
                handler + " transfer envelope: "@ + label(from) + " → "@ + label(to),
            )
        }),
        lean_of(amount).len() > 0 ==> contains_text(
            transfer_doc(handler, from, to, amount, authority),
            " amount "@ + lean_of(amount),
        ),
{
    reveal(transfer_doc);
    let label = |a: AccountRef|
        match a {
            AccountRef::ByBinding(n) => n@,
            AccountRef::SelfState => "self"@,
        };
    let t = handler + " transfer envelope: "@ + label(from) + " → "@ + label(to);
    let amt = if lean_of(amount).len() == 0 {
        Seq::<char>::empty()
    } else {
        " amount "@ + lean_of(amount)
    };
    let auth = match authority {
        Some(a) => " authority "@ + label(a),
        None => Seq::<char>::empty(),
    };
    let end = ".\n"@ + "    Verifies CPI shape (program ID, account list, discriminator).\n"@
        + "    Amount serialization and SPL Token execution are SDK/runtime\n"@
        + "    trust per VERIFICATION_SCOPE.md. -/\n"@;
    let whole = transfer_doc(handler, from, to, amount, authority);
    assert(whole == "/-- "@ + t + amt + auth + end);
    stands("/-- "@, t, amt + auth + end);
    stands("/-- "@ + t, amt, auth + end);
}

/// The postcondition of a pinned callee is proved by the axiom of the same
/// number of that method; that of any other callee is left open.
pub proof fn calls_rest_on_the_axiom_of_their_method(
    c: CallSite,
    i: nat,
    claim: Seq<char>,
    state: Seq<Seq<char>>,
    fields: Seq<Seq<char>>,
)
    ensures
        contains_text(
            pinned_theorem(c, i, claim, state, fields),
            " : "@ + claim + " :=\n"@ + "  "@ + safe_text(c.target@) + "."@ + safe_text(c.method@)
                + ".ensures_axiom_"@ + decimal(i),
        ),
        contains_text(open_theorem(c, i, claim), " : "@ + claim + " := by sorry\n\n"@),
{
    reveal(pinned_theorem);
    reveal(open_theorem);
    let args = crate::lean::cpi::apply_args(c, state, fields);
    let t = " : "@ + claim + " :=\n"@ + "  "@ + safe_text(c.target@) + "."@ + safe_text(c.method@)
        + ".ensures_axiom_"@ + decimal(i);
    let both = if fields.len() > 0 {
        " (pre post : State)"@
    } else {
        Seq::<char>::empty()
    };
    let a = "/-- "@ + c.target@ + "."@ + c.method@ + ".ensures @ `"@ + c.handler.name@
        + "` call #"@ + decimal(c.index as nat) + " ("@ + crate::lean::cpi::stance_text(
        c.import.verified_pkg_root is Some,
    ) + "). -/\n"@ + ("theorem "@ + call_theorem(c, i) + " (s : State)"@) + both + sig_text(
        c.handler.params@,
    );
    let end = (if args.len() == 0 {
        Seq::<char>::empty()
    } else {
        " "@ + join_text(args, " "@)
    }) + "\n\n"@;
    assert(pinned_theorem(c, i, claim, state, fields) == a + t + end);
    stands(a, t, end);
    let b = "/-- "@ + c.target@ + "."@ + c.method@ + ".ensures @ `"@ + c.handler.name@
        + "` call #"@ + decimal(c.index as nat)
        + " (stance 1: axiomatized via sorry; v3.0 will close via imported callee proofs). -/\n"@
        + ("theorem "@ + call_theorem(c, i) + " (s : State)"@ + sig_text(c.handler.params@));
    let u = " : "@ + claim + " := by sorry\n\n"@;
    assert(open_theorem(c, i, claim) == b + u + Seq::<char>::empty());
    stands(b, u, Seq::empty());
}

} // verus!
