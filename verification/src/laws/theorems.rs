//! What the rendered theorems about handlers and properties state.
use vstd::prelude::*;

use crate::laws::lists::{
    abort_clauses_upto_stands, aborts_upto_stands, frames_upto_stands, handler_posts_upto_stands,
    invariants_upto_stands, master_cases_stands, posts_of_upto_stands, preservations_upto_stands,
    properties_upto_stands, requires_upto_stands,
};
use crate::laws::stands::{
    part_stands, stands, stands_in, stands_left, stands_right, stands_through,
};
use crate::lean::aborts::{
    abort_clauses_upto, abort_head, abort_name, abort_preds, aborts_iff_text, aborts_text,
    aborts_upto, can_abort, handler_aborts_text, rejection_preds, rejects_text, require_end,
    require_text, requires_upto, some_abort, with_negations,
};
use crate::lean::base::{args_text, mentions_pubkey, safe_text, sig_text, transition_text};
use crate::lean::guards::guard_parts;
use crate::lean::properties::{
    ensures_text, frame_names, frame_text, frames_text, handler_posts_upto, invariant_text,
    invariants_text, is_covered, master_case, master_text, posts_of_upto, preservation_proof,
    preservation_text, preservations_upto, properties_text, property_text, some_frame, some_post,
    step_head, unchanged_parts, unquantified,
};
use crate::lean::scope::ScopeV;
use crate::mir::{HandlerMir, InvariantMir, PropertyMir};
use crate::number::decimal;
use crate::search::{contains_text, starts_with_text};
use crate::split::trim_text;
use crate::text::{join_text, names};

verus! {

broadcast use crate::text::group_text;

/// A transition applied to the state, the signer and the parameters.
pub open spec fn applied(h: HandlerMir) -> Seq<char> {
    transition_text(h.name@) + " s signer"@ + args_text(h.params@)
}

// ---------------------------------------------------------------------------
// Properties
// ---------------------------------------------------------------------------

proof fn lemma_proof_by(sc: ScopeV, h: HandlerMir, p: PropertyMir)
    ensures
        preservation_proof(sc, h, p) == " := by\n"@ + preservation_proof(sc, h, p).subrange(
            7,
            preservation_proof(sc, h, p).len() as int,
        ),
{
    reveal(preservation_proof);
    reveal_strlit(" := by\n");
    reveal_strlit(" := by\n  unfold ");
    let t = preservation_proof(sc, h, p);
    assert(t.subrange(0, 7) =~= " := by\n"@);
    assert(t =~= t.subrange(0, 7) + t.subrange(7, t.len() as int));
}

/// Of every property and every handler that preserves it stands a theorem that
/// assumes the property of the state before, and that the transition leads to
/// the state after, and concludes the property of the state after.
pub proof fn preservation_speaks_of_both_states(sc: ScopeV, i: int, j: int)
    requires
        0 <= i < sc.properties.len(),
        0 <= j < sc.handlers.len(),
        sc.properties[i].expression is Some,
        names(sc.properties[i].preserved_by@, sc.handlers[j].name@),
    ensures
        ({
            let h = sc.handlers[j];
            let p = safe_text(sc.properties[i].name@);
            contains_text(
                properties_text(sc),
                "    (h_inv : "@ + p + " s) (h : "@ + applied(h) + " = some s') :\n"@ + "    "@ + p
                    + " s'"@ + " := by\n"@,
            )
        }),
{
    let h = sc.handlers[j];
    let prop = sc.properties[i];
    let p = safe_text(prop.name@);
    let claim = "    (h_inv : "@ + p + " s) (h : "@ + applied(h) + " = some s') :\n"@ + "    "@ + p
        + " s'"@ + " := by\n"@;
    let own = preservation_text(sc, h, prop);
    let script = preservation_proof(sc, h, prop);
    assert(contains_text(own, claim)) by {
        reveal(preservation_text);
        lemma_proof_by(sc, h, prop);
        let rest = script.subrange(7, script.len() as int);
        let a = "theorem "@ + crate::lean::properties::preserved_name(prop, h)
            + " (s s' : State) (signer : Pubkey)"@ + sig_text(h.params@) + "\n"@;
        stands(a, claim, rest);
        assert(own == a + claim + rest);
    }
    let all = preservations_upto(sc, prop, sc.handlers.len());
    preservations_upto_stands(sc, prop, sc.handlers.len(), j);
    stands_through(all, own, claim);
    lemma_property_holds(sc, prop, claim);
    properties_upto_stands(sc, sc.properties.len(), i);
    stands_through(properties_text(sc), property_text(sc, prop), claim);
}

proof fn lemma_property_holds(sc: ScopeV, p: PropertyMir, t: Seq<char>)
    requires
        p.expression is Some,
        contains_text(preservations_upto(sc, p, sc.handlers.len()), t),
    ensures
        contains_text(property_text(sc, p), t),
{
    reveal(property_text);
    let all = preservations_upto(sc, p, sc.handlers.len());
    let e = p.expression->0;
    let a = "def "@ + safe_text(p.name@) + " (s : State) : Prop := "@ + unquantified(e.lean@)
        + "\n\n"@;
    if is_covered(sc.handlers, p, sc.handlers.len()) {
        stands_in(a, all, master_text(sc, p), t);
    } else {
        stands_in(a, all, Seq::empty(), t);
    }
}

proof fn lemma_covered(hs: Seq<HandlerMir>, p: PropertyMir, n: nat, j: int)
    requires
        0 <= j < n <= hs.len(),
        names(p.preserved_by@, hs[j].name@),
    ensures
        is_covered(hs, p, n),
    decreases n,
{
    if j < n - 1 {
        lemma_covered(hs, p, (n - 1) as nat, j);
    }
}

/// A property that some handler preserves is stated of every operation: from
/// the state before to the state that `applyOp` leads to, with a case for each
/// handler.
pub proof fn properties_are_inductive(sc: ScopeV, i: int, j: int)
    requires
        0 <= i < sc.properties.len(),
        0 <= j < sc.handlers.len(),
        sc.properties[i].expression is Some,
        names(sc.properties[i].preserved_by@, sc.handlers[j].name@),
    ensures
        ({
            let p = safe_text(sc.properties[i].name@);
            contains_text(
                properties_text(sc),
                "    (h_inv : "@ + p + " s) (h : applyOp s signer op = some s') : "@ + p + " s'"@,
            )
        }),
        forall|k: int|
            0 <= k < sc.handlers.len() ==> contains_text(
                properties_text(sc),
                "  | "@ + safe_text((#[trigger] sc.handlers[k]).name@) + args_text(
                    sc.handlers[k].params@,
                ) + " =>"@,
            ),
        contains_text(
            properties_text(sc),
            " exact "@ + safe_text(
                sc.properties[i].name@ + "_preserved_by_"@ + sc.handlers[j].name@,
            ) + " s s' signer"@ + args_text(sc.handlers[j].params@) + " h_inv h\n"@,
        ),
{
    let prop = sc.properties[i];
    let p = safe_text(prop.name@);
    let claim = "    (h_inv : "@ + p + " s) (h : applyOp s signer op = some s') : "@ + p + " s'"@;
    let master = master_text(sc, prop);
    let n = sc.handlers.len();
    lemma_covered(sc.handlers, prop, n, j);
    properties_upto_stands(sc, sc.properties.len(), i);
    let cases = crate::lean::properties::master_cases(sc, prop, n);
    let a = "/-- "@ + prop.name@
        + " is preserved by every operation. Auto-proven by case split. -/\n"@ + ("theorem "@ + p
        + "_inductive (s s' : State) (signer : Pubkey) (op : Operation)\n"@);
    assert(contains_text(properties_text(sc), master)) by {
        reveal(property_text);
        let e = prop.expression->0;
        stands(
            "def "@ + p + " (s : State) : Prop := "@ + unquantified(e.lean@) + "\n\n"@
                + preservations_upto(sc, prop, n),
            master,
            Seq::empty(),
        );
        stands_through(properties_text(sc), property_text(sc, prop), master);
    }
    assert(contains_text(master, claim)) by {
        reveal(master_text);
        stands(a, claim, " := by\n  cases op with\n"@ + cases + "\n"@);
    }
    assert(contains_text(master, cases)) by {
        reveal(master_text);
        stands(a + claim + " := by\n  cases op with\n"@, cases, "\n"@);
    }
    stands_through(properties_text(sc), master, claim);
    stands_through(properties_text(sc), master, cases);
    assert forall|k: int| 0 <= k < sc.handlers.len() implies contains_text(
        properties_text(sc),
        "  | "@ + safe_text((#[trigger] sc.handlers[k]).name@) + args_text(sc.handlers[k].params@)
            + " =>"@,
    ) by {
        let h = sc.handlers[k];
        let own = master_case(sc, h, prop);
        let head = "  | "@ + safe_text(h.name@) + args_text(h.params@) + " =>"@;
        master_cases_stands(sc, prop, n, k);
        assert(contains_text(own, head)) by {
            reveal(master_case);
            let rest = own.subrange(head.len() as int, own.len() as int);
            assert(own =~= head + rest);
            stands(Seq::empty(), head, rest);
        }
        stands_through(cases, own, head);
        stands_through(properties_text(sc), cases, head);
    }
    let h = sc.handlers[j];
    let own = master_case(sc, h, prop);
    let line = " exact "@ + safe_text(prop.name@ + "_preserved_by_"@ + h.name@) + " s s' signer"@
        + args_text(h.params@) + " h_inv h\n"@;
    master_cases_stands(sc, prop, n, j);
    assert(contains_text(own, line)) by {
        reveal(master_case);
        stands(
            "  | "@ + safe_text(h.name@) + args_text(h.params@) + " =>"@,
            line,
            Seq::empty(),
        );
    }
    stands_through(cases, own, line);
    stands_through(properties_text(sc), cases, line);
}

/// A property is defined by its body, which is the expression of the spec where
/// that has no quantifier in front.
pub proof fn properties_are_defined(sc: ScopeV, i: int)
    requires
        0 <= i < sc.properties.len(),
        sc.properties[i].expression is Some,
    ensures
        contains_text(
            properties_text(sc),
            "def "@ + safe_text(sc.properties[i].name@) + " (s : State) : Prop := "@
                + unquantified(sc.properties[i].expression->0.lean@) + "\n\n"@,
        ),
        ({
            let t = trim_text(sc.properties[i].expression->0.lean@);
            !starts_with_text(t, "∀"@) && !starts_with_text(t, "forall"@) ==> unquantified(
                sc.properties[i].expression->0.lean@,
            ) == t
        }),
{
    let prop = sc.properties[i];
    let e = prop.expression->0;
    let n = sc.handlers.len();
    let line = "def "@ + safe_text(prop.name@) + " (s : State) : Prop := "@ + unquantified(e.lean@)
        + "\n\n"@;
    properties_upto_stands(sc, sc.properties.len(), i);
    assert(contains_text(property_text(sc, prop), line)) by {
        reveal(property_text);
        let rest = preservations_upto(sc, prop, n) + (if is_covered(sc.handlers, prop, n) {
            master_text(sc, prop)
        } else {
            Seq::empty()
        });
        stands(Seq::empty(), line, rest);
    }
    stands_through(properties_text(sc), property_text(sc, prop), line);
    reveal(unquantified);
}

/// An invariant with a body is stated of every state.
pub proof fn invariants_are_stated(invs: Seq<InvariantMir>, sc: ScopeV, i: int)
    requires
        0 <= i < invs.len(),
        invs[i].body is Some,
    ensures
        contains_text(
            invariants_text(invs, sc),
            "theorem "@ + invs[i].name@ + " (s : State) : "@ + crate::pattern::prefixed(
                (invs[i].body->0).0.lean@,
                crate::lean::properties::flat_names(sc),
            ) + " := by sorry\n\n"@,
        ),
{
    let inv = invs[i];
    let fields = crate::lean::properties::flat_names(sc);
    let claim = "theorem "@ + inv.name@ + " (s : State) : "@ + crate::pattern::prefixed(
        (inv.body->0).0.lean@,
        fields,
    ) + " := by sorry\n\n"@;
    let own = invariant_text(inv, fields);
    invariants_upto_stands(invs, fields, invs.len(), i);
    assert(contains_text(own, claim)) by {
        reveal(invariant_text);
        let doc = if inv.doc@.len() == 0 {
            Seq::<char>::empty()
        } else {
            " — "@ + inv.doc@
        };
        stands("/-- Invariant: "@ + inv.name@ + doc + " -/\n"@, claim, Seq::empty());
    }
    stands_through(invariants_text(invs, sc), own, claim);
}

// ---------------------------------------------------------------------------
// Aborts
// ---------------------------------------------------------------------------

proof fn lemma_some_abort(hs: Seq<HandlerMir>, n: nat, j: int)
    requires
        0 <= j < n <= hs.len(),
        can_abort(hs[j]),
    ensures
        some_abort(hs, n),
    decreases n,
{
    if j < n - 1 {
        lemma_some_abort(hs, (n - 1) as nat, j);
    }
}

proof fn lemma_in_aborts(sc: ScopeV, flat: bool, j: int, t: Seq<char>)
    requires
        0 <= j < sc.handlers.len(),
        can_abort(sc.handlers[j]),
        contains_text(
            handler_aborts_text(
                sc,
                sc.handlers[j],
                flat,
                if flat {
                    "sorry"@
                } else {
                    "by sorry"@
                },
            ),
            t,
        ),
    ensures
        contains_text(aborts_text(sc, flat), t),
{
    let form = if flat {
        "sorry"@
    } else {
        "by sorry"@
    };
    let n = sc.handlers.len();
    lemma_some_abort(sc.handlers, n, j);
    aborts_upto_stands(sc, flat, form, n, j);
    let all = aborts_upto(sc, flat, form, n);
    stands_through(all, handler_aborts_text(sc, sc.handlers[j], flat, form), t);
    let rule = crate::lean::base::RULE@;
    stands_in(
        rule + "-- Abort conditions — operations must reject under specified conditions\n"@ + rule
            + "\n"@,
        all,
        Seq::empty(),
        t,
    );
}

/// Where an abort condition holds, the transition returns `none`.
pub proof fn abort_conditions_reject(sc: ScopeV, flat: bool, j: int, k: int)
    requires
        0 <= j < sc.handlers.len(),
        0 <= k < sc.handlers[j].aborts_if@.len(),
        !sc.handlers[j].aborts_total,
    ensures
        ({
            let h = sc.handlers[j];
            contains_text(
                aborts_text(sc, flat),
                "    (h : "@ + h.aborts_if@[k].pred.0.lean@ + ") : "@ + applied(h) + " = none"@,
            )
        }),
{
    let h = sc.handlers[j];
    let c = h.aborts_if@[k];
    let form = if flat {
        "sorry"@
    } else {
        "by sorry"@
    };
    let claim = "    (h : "@ + c.pred.0.lean@ + ") : "@ + applied(h) + " = none"@;
    let n = h.aborts_if@.len();
    let all = abort_clauses_upto(h, form, n);
    abort_clauses_upto_stands(h, form, n, k);
    reveal(crate::lean::aborts::abort_clause_text);
    let head = abort_head(
        abort_name(h, c.err@, crate::lean::aborts::abort_errors(h.aborts_if@, c.err@, k as nat)),
        h,
    );
    let own = head + ("    (h : "@ + c.pred.0.lean@ + ") : "@ + rejects_text(h) + " := "@ + form
        + "\n\n"@);
    stands(head, claim, " := "@ + form + "\n\n"@);
    assert(own == head + claim + (" := "@ + form + "\n\n"@));
    stands_through(all, own, claim);
    reveal(handler_aborts_text);
    stands_left(
        all,
        requires_upto(h, guard_parts(sc, h), flat, form, h.requires_or_abort@.len()),
        claim,
    );
    lemma_in_aborts(sc, flat, j, claim);
}

/// Where a precondition that names an error does not hold, the transition
/// returns `none`.
pub proof fn failed_preconditions_reject(sc: ScopeV, flat: bool, j: int, k: int)
    requires
        0 <= j < sc.handlers.len(),
        0 <= k < sc.handlers[j].requires_or_abort@.len(),
        !sc.handlers[j].aborts_total,
        !mentions_pubkey(
            sc.handlers[j].requires_or_abort@[k].pred.0.lean@,
            sc.handlers[j].accounts@,
        ),
    ensures
        ({
            let h = sc.handlers[j];
            contains_text(
                aborts_text(sc, flat),
                "    (h : ¬("@ + h.requires_or_abort@[k].pred.0.lean@ + ")) : "@ + applied(h)
                    + " = none"@,
            )
        }),
{
    let h = sc.handlers[j];
    let c = h.requires_or_abort@[k];
    let form = if flat {
        "sorry"@
    } else {
        "by sorry"@
    };
    let claim = "    (h : ¬("@ + c.pred.0.lean@ + ")) : "@ + applied(h) + " = none"@;
    let parts = guard_parts(sc, h);
    let n = h.requires_or_abort@.len();
    let all = requires_upto(h, parts, flat, form, n);
    let own = require_text(h, parts, flat, form, k as nat);
    requires_upto_stands(h, parts, flat, form, n, k);
    assert(contains_text(own, claim)) by {
        reveal(require_text);
        let at = crate::lean::aborts::abort_errors(h.aborts_if@, c.err@, h.aborts_if@.len())
            + crate::lean::aborts::stated_errors(
            h.requires_or_abort@,
            h.accounts@,
            c.err@,
            k as nat,
        );
        stands(
            abort_head(abort_name(h, c.err@, at), h),
            claim,
            require_end(h, parts, flat, form, c.pred.0.lean@),
        );
    }
    stands_through(all, own, claim);
    reveal(handler_aborts_text);
    stands_right(abort_clauses_upto(h, form, h.aborts_if@.len()), all, claim);
    lemma_in_aborts(sc, flat, j, claim);
}

proof fn lemma_preds(h: HandlerMir, n: nat, m: nat)
    requires
        n <= h.aborts_if@.len(),
        m <= h.requires_or_abort@.len(),
    ensures
        abort_preds(h.aborts_if@, n).len() == n,
        forall|k: int|
            0 <= k < n ==> #[trigger] abort_preds(h.aborts_if@, n)[k]
                == h.aborts_if@[k].pred.0.lean@,
        with_negations(abort_preds(h.aborts_if@, n), h.requires_or_abort@, m).len() == n + m,
        forall|k: int|
            0 <= k < n ==> #[trigger] with_negations(
                abort_preds(h.aborts_if@, n),
                h.requires_or_abort@,
                m,
            )[k] == h.aborts_if@[k].pred.0.lean@,
        forall|k: int|
            n <= k < n + m ==> #[trigger] with_negations(
                abort_preds(h.aborts_if@, n),
                h.requires_or_abort@,
                m,
            )[k] == "¬("@ + h.requires_or_abort@[k - n].pred.0.lean@ + ")"@,
    decreases n + m,
{
    if m > 0 {
        lemma_preds(h, n, (m - 1) as nat);
    } else if n > 0 {
        lemma_preds(h, (n - 1) as nat, 0);
    }
}

/// A handler whose aborts are total returns `none` exactly where one of its
/// abort conditions holds or one of its preconditions does not.
pub proof fn total_aborts_are_exact(sc: ScopeV, flat: bool, j: int)
    requires
        0 <= j < sc.handlers.len(),
        can_abort(sc.handlers[j]),
        sc.handlers[j].aborts_total,
    ensures
        ({
            let h = sc.handlers[j];
            let ps = rejection_preds(h);
            &&& contains_text(
                aborts_text(sc, flat),
                "    "@ + applied(h) + " = none"@ + " ↔\n"@ + "    ("@ + join_text(ps, " ∨ "@)
                    + ") := "@,
            )
            &&& ps.len() == h.aborts_if@.len() + h.requires_or_abort@.len()
            &&& forall|k: int|
                0 <= k < h.aborts_if@.len() ==> #[trigger] ps[k] == h.aborts_if@[k].pred.0.lean@
            &&& forall|k: int|
                h.aborts_if@.len() <= k < ps.len() ==> #[trigger] ps[k] == "¬("@
                    + h.requires_or_abort@[k - h.aborts_if@.len()].pred.0.lean@ + ")"@
        }),
{
    let h = sc.handlers[j];
    let form = if flat {
        "sorry"@
    } else {
        "by sorry"@
    };
    lemma_preds(h, h.aborts_if@.len(), h.requires_or_abort@.len());
    let claim = "    "@ + applied(h) + " = none"@ + " ↔\n"@ + "    ("@ + join_text(
        rejection_preds(h),
        " ∨ "@,
    ) + ") := "@;
    reveal(handler_aborts_text);
    assert(contains_text(aborts_iff_text(h, form), claim)) by {
        reveal(aborts_iff_text);
        stands(
            "theorem "@ + safe_text(h.name@ + "_aborts_iff"@) + " (s : State) (signer : Pubkey)"@
                + sig_text(h.params@) + " :\n"@,
            claim,
            form + "\n\n"@,
        );
    }
    lemma_in_aborts(sc, flat, j, claim);
}

// ---------------------------------------------------------------------------
// Postconditions and frames
// ---------------------------------------------------------------------------

proof fn lemma_some_post(hs: Seq<HandlerMir>, n: nat, j: int)
    requires
        0 <= j < n <= hs.len(),
        hs[j].post@.len() > 0,
    ensures
        some_post(hs, n),
    decreases n,
{
    if j < n - 1 {
        lemma_some_post(hs, (n - 1) as nat, j);
    }
}

/// Every postcondition is claimed of the state that the transition leads to.
pub proof fn postconditions_are_claimed(sc: ScopeV, j: int, k: int)
    requires
        0 <= j < sc.handlers.len(),
        0 <= k < sc.handlers[j].post@.len(),
    ensures
        ({
            let h = sc.handlers[j];
            contains_text(
                ensures_text(sc),
                "    (h : "@ + applied(h) + " = some s') :\n"@ + "    "@ + h.post@[k].0.lean@
                    + " := sorry\n\n"@,
            )
        }),
{
    let h = sc.handlers[j];
    let n = sc.handlers.len();
    let claim = "    (h : "@ + applied(h) + " = some s') :\n"@ + "    "@ + h.post@[k].0.lean@
        + " := sorry\n\n"@;
    let own = handler_posts_upto(h, h.post@.len());
    handler_posts_upto_stands(h, h.post@.len(), k);
    let name = h.name@ + "_ensures_"@ + decimal(k as nat);
    let a = "theorem "@ + safe_text(name) + " (s s' : State) (signer : Pubkey)"@ + sig_text(
        h.params@,
    ) + "\n"@;
    stands(a, claim, Seq::empty());
    let item = step_head(name, h) + ("    "@ + h.post@[k].0.lean@ + " := sorry\n\n"@);
    assert(item == a + claim + Seq::<char>::empty());
    stands_through(own, item, claim);
    posts_of_upto_stands(sc.handlers, n, j);
    let all = posts_of_upto(sc.handlers, n);
    stands_through(all, own, claim);
    lemma_some_post(sc.handlers, n, j);
    let rule = crate::lean::base::RULE@;
    stands_in(rule + "-- Post-conditions (ensures)\n"@ + rule + "\n"@, all, Seq::empty(), claim);
}

proof fn lemma_unchanged(
    fields: Seq<Seq<char>>,
    m: Seq<crate::mir::Path>,
    moves: bool,
    n: nat,
    k: int,
)
    requires
        0 <= k < n <= fields.len(),
    ensures
        !frame_names(m, fields[k]) && !(fields[k] == "status"@ && moves)
            ==> crate::pattern::has_text(
            unchanged_parts(fields, m, moves, n),
            "s'."@ + safe_text(fields[k]) + " = s."@ + safe_text(fields[k]),
        ),
    decreases n,
{
    let before = unchanged_parts(fields, m, moves, (n - 1) as nat);
    let all = unchanged_parts(fields, m, moves, n);
    let t = "s'."@ + safe_text(fields[k]) + " = s."@ + safe_text(fields[k]);
    if k < n - 1 {
        lemma_unchanged(fields, m, moves, (n - 1) as nat, k);
        if all.len() > before.len() {
            crate::laws::stands::still_there(before, all.last(), t);
            assert(all =~= before.push(all.last()));
        }
    } else if all.len() > before.len() {
        crate::laws::stands::still_there(before, t, t);
    }
}

/// Every claim of a frame is that a field which the handler does not name keeps
/// its value.
pub proof fn frames_claim_no_changed_field(
    fields: Seq<Seq<char>>,
    m: Seq<crate::mir::Path>,
    moves: bool,
    n: nat,
    i: int,
)
    requires
        n <= fields.len(),
        0 <= i < unchanged_parts(fields, m, moves, n).len(),
    ensures
        exists|k: int|
            0 <= k < n && unchanged_parts(fields, m, moves, n)[i] == "s'."@ + safe_text(
                #[trigger] fields[k],
            ) + " = s."@ + safe_text(fields[k]) && !frame_names(m, fields[k]) && !(fields[k]
                == "status"@ && moves),
    decreases n,
{
    let before = unchanged_parts(fields, m, moves, (n - 1) as nat);
    let all = unchanged_parts(fields, m, moves, n);
    if i < before.len() {
        assert(all[i] == before[i]);
        frames_claim_no_changed_field(fields, m, moves, (n - 1) as nat, i);
    } else {
        assert(all[i] == "s'."@ + safe_text(fields[n - 1]) + " = s."@ + safe_text(fields[n - 1]));
    }
}

proof fn lemma_some_frame(hs: Seq<HandlerMir>, n: nat, j: int)
    requires
        0 <= j < n <= hs.len(),
        hs[j].modifies is Some,
    ensures
        some_frame(hs, n),
    decreases n,
{
    if j < n - 1 {
        lemma_some_frame(hs, (n - 1) as nat, j);
    }
}

/// A field that a handler does not list among those it modifies keeps its value
/// from the state before to the state after.
pub proof fn frames_keep_other_fields(sc: ScopeV, j: int, k: int)
    requires
        0 <= j < sc.handlers.len(),
        sc.handlers[j].modifies is Some,
        0 <= k < crate::lean::properties::flat_names(sc).len(),
        !frame_names(
            sc.handlers[j].modifies->0@,
            crate::lean::properties::flat_names(sc)[k],
        ),
        !(crate::lean::properties::flat_names(sc)[k] == "status"@
            && sc.handlers[j].transition is Some),
    ensures
        ({
            let f = safe_text(crate::lean::properties::flat_names(sc)[k]);
            contains_text(frames_text(sc), "s'."@ + f + " = s."@ + f)
        }),
        contains_text(
            frames_text(sc),
            "    (h : "@ + applied(sc.handlers[j]) + " = some s') :\n"@,
        ),
{
    let h = sc.handlers[j];
    let fields = crate::lean::properties::flat_names(sc);
    let m = h.modifies->0@;
    let n = sc.handlers.len();
    let parts = unchanged_parts(fields, m, h.transition is Some, fields.len());
    let t = "s'."@ + safe_text(fields[k]) + " = s."@ + safe_text(fields[k]);
    lemma_unchanged(fields, m, h.transition is Some, fields.len(), k);
    let i = choose|i: int| 0 <= i < parts.len() && #[trigger] parts[i] == t;
    part_stands(parts, " ∧ "@, i);
    let own = frame_text(h, fields);
    let hyp = "    (h : "@ + applied(h) + " = some s') :\n"@;
    let a = "theorem "@ + safe_text(h.name@ + "_frame"@) + " (s s' : State) (signer : Pubkey)"@
        + sig_text(h.params@) + "\n"@;
    assert(contains_text(own, t) && contains_text(own, hyp)) by {
        reveal(frame_text);
        let j0 = join_text(parts, " ∧ "@);
        stands_in(a + hyp + "    "@, j0, " := sorry\n\n"@, t);
        stands(a, hyp, "    "@ + j0 + " := sorry\n\n"@);
    }
    frames_upto_stands(sc.handlers, fields, n, j);
    let all = crate::lean::properties::frames_upto(sc.handlers, fields, n);
    stands_through(all, own, t);
    stands_through(all, own, hyp);
    lemma_some_frame(sc.handlers, n, j);
    let head = crate::lean::properties::frames_heading();
    stands_right(head, all, t);
    stands_right(head, all, hyp);
}

} // verus!
