//! Each item of a rendered list stands in the list.
use vstd::prelude::*;

use crate::laws::stands::{stands, stands_left};
use crate::lean::aborts::{
    abort_clause_text, abort_clauses_upto, aborts_upto, handler_aborts_text, require_text,
    requires_upto,
};
use crate::lean::base::{
    args_text, dsl_default_text, dsl_ty_text, param_sig_text, safe_text, ty_text,
};
use crate::lean::covers::{
    covers_upto, reachable_text, reachables_upto, step_text, steps_upto, trace_text, traces_upto,
};
use crate::lean::cpi::{
    call_count, call_text, calls_upto, cpi_upto, first_fields, post_text, posts_upto, substituted,
    transfer_count, transfer_text, transfers_upto, CallSite,
};
use crate::lean::environment::{
    constraint_hyps, envs_upto, new_binders, over_new, under_text, unders_upto,
};
use crate::lean::indexed::{
    const_lines, indexed_cases, indexed_ctors, indexed_field_lines, indexed_sig, indexed_sig_upto,
    indexed_transition_text, indexed_transitions_upto, indexed_ty_text, param_ty, plain_tags,
    record_defaults, record_lines, record_text, records_upto, Bounds,
};
use crate::lean::liveness::{live_text, lives_upto};
use crate::lean::multi::{
    account_envs_text, account_envs_upto, account_properties_text, claims_text, claims_upto,
    invariant_comment, invariant_comments, machine_text, machines_upto, multi_live_text,
    multi_lives_upto, multi_properties_upto,
};
use crate::lean::overflow::{adds, bounds_text, bounds_upto};
use crate::lean::properties::{
    adt_frames_upto, frame_text, frames_upto, handler_posts_upto, invariant_text, invariants_upto,
    master_case, master_cases, posts_of_upto, preservation_text, preservations_upto,
    properties_upto, property_text, step_head, ADT_FRAME_NOTE,
};
use crate::lean::scope::{flat_fields, ScopeV, VariantV};
use crate::lean::structure::{
    accessor_case, accessor_lines, accessor_text, accessors_upto, constant_lines, ctor_lines,
    ctor_text, dispatch_lines, dispatch_text, field_lines, helper_lines, helper_sig, marker_lines,
    ref_impl_lines, ref_impl_text, status_lines, tag_lines, variant_ctor, variant_lines,
    wild_pattern,
};
use crate::lean::transition::{
    adt_transition_text, adt_transitions_upto, flat_transition_text, flat_transitions_upto,
};
use crate::mir::{
    CoverMir, EnvironmentMir, FieldDecl, HandlerMir, InvariantMir, Mir, Predicate, PropertyMir,
    RefImpl, Symbol, Ty, UninterpretedHelper,
};
use crate::number::decimal;
use crate::parsed::ParsedRecordType;
use crate::pattern::abstract_fields;
use crate::search::contains_text;
use crate::text::{names, texts};
use crate::verify::{AxiomDependency, CounterexampleVar};
use crate::verify::axioms::queries_upto;
use crate::verify::human::{assignments_upto, axiom_lines, dependency_lines, detail_upto, padded};

verus! {

broadcast use crate::text::group_text;

/// Each item of the list stands in it.
pub proof fn flat_transitions_upto_stands(sc: ScopeV, n: nat, k: int)
    requires
        0 <= k < n,
    ensures
        contains_text(flat_transitions_upto(sc, n), flat_transition_text(sc, sc.handlers[k])),
    decreases n,
{
    let before = flat_transitions_upto(sc, (n - 1) as nat);
    let item = flat_transition_text(sc, sc.handlers[k]);
    if k < n - 1 {
        flat_transitions_upto_stands(sc, (n - 1) as nat, k);
        stands_left(before, flat_transition_text(sc, sc.handlers[n - 1]), item);
    } else {
        stands(before, item, Seq::empty());
    }
}

/// Each item of the list stands in it.
pub proof fn adt_transitions_upto_stands(sc: ScopeV, n: nat, k: int)
    requires
        0 <= k < n,
    ensures
        contains_text(adt_transitions_upto(sc, n), adt_transition_text( sc.variants, sc.handlers[k], )),
    decreases n,
{
    let before = adt_transitions_upto(sc, (n - 1) as nat);
    let item = adt_transition_text( sc.variants, sc.handlers[k], );
    if k < n - 1 {
        adt_transitions_upto_stands(sc, (n - 1) as nat, k);
        stands_left(before, adt_transition_text( sc.variants, sc.handlers[n - 1], ), item);
    } else {
        stands(before, item, Seq::empty());
    }
}

/// Each item of the list stands in it.
pub proof fn preservations_upto_stands(sc: ScopeV, p: PropertyMir, n: nat, k: int)
    requires
        0 <= k < n,
        names(p.preserved_by@, sc.handlers[k].name@),
    ensures
        contains_text(preservations_upto(sc, p, n), preservation_text(sc, sc.handlers[k], p)),
    decreases n,
{
    let before = preservations_upto(sc, p, (n - 1) as nat);
    let item = preservation_text(sc, sc.handlers[k], p);
    if k < n - 1 {
        preservations_upto_stands(sc, p, (n - 1) as nat, k);
        if names(p.preserved_by@, sc.handlers[n - 1].name@) {
            stands_left(before, preservation_text(sc, sc.handlers[n - 1], p), item);
        }
    } else {
        stands(before, item, Seq::empty());
    }
}

/// Each item of the list stands in it.
pub proof fn master_cases_stands(sc: ScopeV, p: PropertyMir, n: nat, k: int)
    requires
        0 <= k < n,
    ensures
        contains_text(master_cases(sc, p, n), master_case(sc, sc.handlers[k], p)),
    decreases n,
{
    let before = master_cases(sc, p, (n - 1) as nat);
    let item = master_case(sc, sc.handlers[k], p);
    if k < n - 1 {
        master_cases_stands(sc, p, (n - 1) as nat, k);
        stands_left(before, master_case(sc, sc.handlers[n - 1], p), item);
    } else {
        stands(before, item, Seq::empty());
    }
}

/// Each item of the list stands in it.
pub proof fn properties_upto_stands(sc: ScopeV, n: nat, k: int)
    requires
        0 <= k < n,
    ensures
        contains_text(properties_upto(sc, n), property_text(sc, sc.properties[k])),
    decreases n,
{
    let before = properties_upto(sc, (n - 1) as nat);
    let item = property_text(sc, sc.properties[k]);
    if k < n - 1 {
        properties_upto_stands(sc, (n - 1) as nat, k);
        stands_left(before, property_text(sc, sc.properties[n - 1]), item);
    } else {
        stands(before, item, Seq::empty());
    }
}

/// Each item of the list stands in it.
pub proof fn invariants_upto_stands(invs: Seq<InvariantMir>, fields: Seq<Seq<char>>, n: nat, k: int)
    requires
        0 <= k < n,
    ensures
        contains_text(invariants_upto(invs, fields, n), invariant_text(invs[k], fields)),
    decreases n,
{
    let before = invariants_upto(invs, fields, (n - 1) as nat);
    let item = invariant_text(invs[k], fields);
    if k < n - 1 {
        invariants_upto_stands(invs, fields, (n - 1) as nat, k);
        stands_left(before, invariant_text(invs[n - 1], fields), item);
    } else {
        stands(before, item, Seq::empty());
    }
}

/// Each item of the list stands in it.
pub proof fn frames_upto_stands(hs: Seq<HandlerMir>, fields: Seq<Seq<char>>, n: nat, k: int)
    requires
        0 <= k < n,
    ensures
        contains_text(frames_upto(hs, fields, n), frame_text(hs[k], fields)),
    decreases n,
{
    let before = frames_upto(hs, fields, (n - 1) as nat);
    let item = frame_text(hs[k], fields);
    if k < n - 1 {
        frames_upto_stands(hs, fields, (n - 1) as nat, k);
        stands_left(before, frame_text(hs[n - 1], fields), item);
    } else {
        stands(before, item, Seq::empty());
    }
}

/// Each item of the list stands in it.
pub proof fn adt_frames_upto_stands(hs: Seq<HandlerMir>, n: nat, k: int)
    requires
        0 <= k < n,
        hs[k].modifies is Some,
    ensures
        contains_text(adt_frames_upto(hs, n), step_head(hs[k].name@ + "_frame"@, hs[k]) + ADT_FRAME_NOTE@),
    decreases n,
{
    let before = adt_frames_upto(hs, (n - 1) as nat);
    let item = step_head(hs[k].name@ + "_frame"@, hs[k]) + ADT_FRAME_NOTE@;
    if k < n - 1 {
        adt_frames_upto_stands(hs, (n - 1) as nat, k);
        if hs[n - 1].modifies is Some {
            stands_left(before, step_head(hs[n - 1].name@ + "_frame"@, hs[n - 1]) + ADT_FRAME_NOTE@, item);
        }
    } else {
        stands(before, item, Seq::empty());
    }
}

/// Each item of the list stands in it.
pub proof fn handler_posts_upto_stands(h: HandlerMir, n: nat, k: int)
    requires
        0 <= k < n,
    ensures
        contains_text(handler_posts_upto(h, n), step_head( h.name@ + "_ensures_"@ + decimal(k as nat), h, ) + ("    "@ + h.post@[k].0.lean@ + " := sorry\n\n"@)),
    decreases n,
{
    let before = handler_posts_upto(h, (n - 1) as nat);
    let item = step_head( h.name@ + "_ensures_"@ + decimal(k as nat), h, ) + ("    "@ + h.post@[k].0.lean@ + " := sorry\n\n"@);
    if k < n - 1 {
        handler_posts_upto_stands(h, (n - 1) as nat, k);
        stands_left(before, step_head( h.name@ + "_ensures_"@ + decimal((n - 1) as nat), h, ) + ("    "@ + h.post@[n - 1].0.lean@ + " := sorry\n\n"@), item);
    } else {
        stands(before, item, Seq::empty());
    }
}

/// Each item of the list stands in it.
pub proof fn posts_of_upto_stands(hs: Seq<HandlerMir>, n: nat, k: int)
    requires
        0 <= k < n,
    ensures
        contains_text(posts_of_upto(hs, n), handler_posts_upto(hs[k], hs[k].post@.len())),
    decreases n,
{
    let before = posts_of_upto(hs, (n - 1) as nat);
    let item = handler_posts_upto(hs[k], hs[k].post@.len());
    if k < n - 1 {
        posts_of_upto_stands(hs, (n - 1) as nat, k);
        stands_left(before, handler_posts_upto(hs[n - 1], hs[n - 1].post@.len()), item);
    } else {
        stands(before, item, Seq::empty());
    }
}

/// Each item of the list stands in it.
pub proof fn abort_clauses_upto_stands(h: HandlerMir, sorry_form: Seq<char>, n: nat, k: int)
    requires
        0 <= k < n,
    ensures
        contains_text(abort_clauses_upto(h, sorry_form, n), abort_clause_text(h, sorry_form, k as nat)),
    decreases n,
{
    let before = abort_clauses_upto(h, sorry_form, (n - 1) as nat);
    let item = abort_clause_text(h, sorry_form, k as nat);
    if k < n - 1 {
        abort_clauses_upto_stands(h, sorry_form, (n - 1) as nat, k);
        stands_left(before, abort_clause_text(h, sorry_form, (n - 1) as nat), item);
    } else {
        stands(before, item, Seq::empty());
    }
}

/// Each item of the list stands in it.
pub proof fn requires_upto_stands(h: HandlerMir, parts: Seq<Seq<char>>, flat: bool, sorry_form: Seq<char>, n: nat, k: int)
    requires
        0 <= k < n,
    ensures
        contains_text(requires_upto(h, parts, flat, sorry_form, n), require_text( h, parts, flat, sorry_form, k as nat, )),
    decreases n,
{
    let before = requires_upto(h, parts, flat, sorry_form, (n - 1) as nat);
    let item = require_text( h, parts, flat, sorry_form, k as nat, );
    if k < n - 1 {
        requires_upto_stands(h, parts, flat, sorry_form, (n - 1) as nat, k);
        stands_left(before, require_text( h, parts, flat, sorry_form, (n - 1) as nat, ), item);
    } else {
        stands(before, item, Seq::empty());
    }
}

/// Each item of the list stands in it.
pub proof fn aborts_upto_stands(sc: ScopeV, flat: bool, sorry_form: Seq<char>, n: nat, k: int)
    requires
        0 <= k < n,
    ensures
        contains_text(aborts_upto(sc, flat, sorry_form, n), handler_aborts_text( sc, sc.handlers[k], flat, sorry_form, )),
    decreases n,
{
    let before = aborts_upto(sc, flat, sorry_form, (n - 1) as nat);
    let item = handler_aborts_text( sc, sc.handlers[k], flat, sorry_form, );
    if k < n - 1 {
        aborts_upto_stands(sc, flat, sorry_form, (n - 1) as nat, k);
        stands_left(before, handler_aborts_text( sc, sc.handlers[n - 1], flat, sorry_form, ), item);
    } else {
        stands(before, item, Seq::empty());
    }
}

/// Each item of the list stands in it.
pub proof fn steps_upto_stands(sc: ScopeV, trace: Seq<Seq<char>>, adt: bool, n: nat, k: int)
    requires
        0 <= k < n,
    ensures
        contains_text(steps_upto(sc, trace, adt, n), step_text(sc, trace, adt, k as nat)),
    decreases n,
{
    let before = steps_upto(sc, trace, adt, (n - 1) as nat);
    let item = step_text(sc, trace, adt, k as nat);
    if k < n - 1 {
        steps_upto_stands(sc, trace, adt, (n - 1) as nat, k);
        stands_left(before, step_text(sc, trace, adt, (n - 1) as nat), item);
    } else {
        stands(before, item, Seq::empty());
    }
}

/// Each item of the list stands in it.
pub proof fn traces_upto_stands(sc: ScopeV, c: CoverMir, adt: bool, n: nat, k: int)
    requires
        0 <= k < n,
    ensures
        contains_text(traces_upto(sc, c, adt, n), trace_text(sc, c, adt, k as nat)),
    decreases n,
{
    let before = traces_upto(sc, c, adt, (n - 1) as nat);
    let item = trace_text(sc, c, adt, k as nat);
    if k < n - 1 {
        traces_upto_stands(sc, c, adt, (n - 1) as nat, k);
        stands_left(before, trace_text(sc, c, adt, (n - 1) as nat), item);
    } else {
        stands(before, item, Seq::empty());
    }
}

/// Each item of the list stands in it.
pub proof fn reachables_upto_stands(sc: ScopeV, c: CoverMir, n: nat, k: int)
    requires
        0 <= k < n,
    ensures
        contains_text(reachables_upto(sc, c, n), reachable_text(sc, c.name@, c.reachable@[k])),
    decreases n,
{
    let before = reachables_upto(sc, c, (n - 1) as nat);
    let item = reachable_text(sc, c.name@, c.reachable@[k]);
    if k < n - 1 {
        reachables_upto_stands(sc, c, (n - 1) as nat, k);
        stands_left(before, reachable_text(sc, c.name@, c.reachable@[n - 1]), item);
    } else {
        stands(before, item, Seq::empty());
    }
}

/// Each item of the list stands in it.
pub proof fn covers_upto_stands(sc: ScopeV, adt: bool, n: nat, k: int)
    requires
        0 <= k < n,
    ensures
        contains_text(covers_upto(sc, adt, n), traces_upto(sc, sc.covers[k], adt, sc.covers[k].traces@.len()) + reachables_upto(sc, sc.covers[k], sc.covers[k].reachable@.len())),
    decreases n,
{
    let before = covers_upto(sc, adt, (n - 1) as nat);
    let item = traces_upto(sc, sc.covers[k], adt, sc.covers[k].traces@.len()) + reachables_upto(sc, sc.covers[k], sc.covers[k].reachable@.len());
    if k < n - 1 {
        covers_upto_stands(sc, adt, (n - 1) as nat, k);
        stands_left(before, traces_upto(sc, sc.covers[n - 1], adt, sc.covers[n - 1].traces@.len()) + reachables_upto(sc, sc.covers[n - 1], sc.covers[n - 1].reachable@.len()), item);
    } else {
        stands(before, item, Seq::empty());
    }
}

/// Each item of the list stands in it.
pub proof fn lives_upto_stands(sc: ScopeV, adt: bool, n: nat, k: int)
    requires
        0 <= k < n,
    ensures
        contains_text(lives_upto(sc, adt, n), live_text(sc.handlers, sc.liveness[k], adt)),
    decreases n,
{
    let before = lives_upto(sc, adt, (n - 1) as nat);
    let item = live_text(sc.handlers, sc.liveness[k], adt);
    if k < n - 1 {
        lives_upto_stands(sc, adt, (n - 1) as nat, k);
        stands_left(before, live_text(sc.handlers, sc.liveness[n - 1], adt), item);
    } else {
        stands(before, item, Seq::empty());
    }
}

/// Each item of the list stands in it.
pub proof fn new_binders_stands(ms: Seq<(Symbol, Ty)>, n: nat, k: int)
    requires
        0 <= k < n,
    ensures
        contains_text(new_binders(ms, n), (" (new_"@ + ms[k].0@ + " : "@ + ty_text(ms[k].1) + ")"@)),
    decreases n,
{
    let before = new_binders(ms, (n - 1) as nat);
    let item = (" (new_"@ + ms[k].0@ + " : "@ + ty_text(ms[k].1) + ")"@);
    if k < n - 1 {
        new_binders_stands(ms, (n - 1) as nat, k);
        stands_left(before, (" (new_"@ + ms[n - 1].0@ + " : "@ + ty_text(ms[n - 1].1) + ")"@), item);
    } else {
        stands(before, item, Seq::empty());
    }
}

/// Each item of the list stands in it.
pub proof fn constraint_hyps_stands(cs: Seq<Predicate>, ms: Seq<(Symbol, Ty)>, n: nat, k: int)
    requires
        0 <= k < n,
    ensures
        contains_text(constraint_hyps(cs, ms, n), ("\n    (h_c"@ + decimal(k as nat) + " : "@ + over_new(cs[k].0.lean@, ms, ms.len()) + ")"@)),
    decreases n,
{
    let before = constraint_hyps(cs, ms, (n - 1) as nat);
    let item = ("\n    (h_c"@ + decimal(k as nat) + " : "@ + over_new(cs[k].0.lean@, ms, ms.len()) + ")"@);
    if k < n - 1 {
        constraint_hyps_stands(cs, ms, (n - 1) as nat, k);
        stands_left(before, ("\n    (h_c"@ + decimal((n - 1) as nat) + " : "@ + over_new(cs[n - 1].0.lean@, ms, ms.len()) + ")"@), item);
    } else {
        stands(before, item, Seq::empty());
    }
}

/// Each item of the list stands in it.
pub proof fn unders_upto_stands(env: EnvironmentMir, ps: Seq<PropertyMir>, n: nat, k: int)
    requires
        0 <= k < n,
    ensures
        contains_text(unders_upto(env, ps, n), under_text(env, ps[k])),
    decreases n,
{
    let before = unders_upto(env, ps, (n - 1) as nat);
    let item = under_text(env, ps[k]);
    if k < n - 1 {
        unders_upto_stands(env, ps, (n - 1) as nat, k);
        stands_left(before, under_text(env, ps[n - 1]), item);
    } else {
        stands(before, item, Seq::empty());
    }
}

/// Each item of the list stands in it.
pub proof fn envs_upto_stands(sc: ScopeV, n: nat, k: int)
    requires
        0 <= k < n,
    ensures
        contains_text(envs_upto(sc, n), unders_upto( sc.environments[k], sc.properties, sc.properties.len(), )),
    decreases n,
{
    let before = envs_upto(sc, (n - 1) as nat);
    let item = unders_upto( sc.environments[k], sc.properties, sc.properties.len(), );
    if k < n - 1 {
        envs_upto_stands(sc, (n - 1) as nat, k);
        stands_left(before, unders_upto( sc.environments[n - 1], sc.properties, sc.properties.len(), ), item);
    } else {
        stands(before, item, Seq::empty());
    }
}

/// Each item of the list stands in it.
pub proof fn bounds_upto_stands(sc: ScopeV, fs: Seq<FieldDecl>, adt: bool, n: nat, k: int)
    requires
        0 <= k < n,
        adds(sc.handlers[k].body.stmts@, sc.handlers[k].body.stmts@.len()),
    ensures
        contains_text(bounds_upto(sc, fs, adt, n), bounds_text(sc, sc.handlers[k], fs, adt)),
    decreases n,
{
    let before = bounds_upto(sc, fs, adt, (n - 1) as nat);
    let item = bounds_text(sc, sc.handlers[k], fs, adt);
    if k < n - 1 {
        bounds_upto_stands(sc, fs, adt, (n - 1) as nat, k);
        if adds(sc.handlers[n - 1].body.stmts@, sc.handlers[n - 1].body.stmts@.len()) {
            stands_left(before, bounds_text(sc, sc.handlers[n - 1], fs, adt), item);
        }
    } else {
        stands(before, item, Seq::empty());
    }
}

/// Each item of the list stands in it.
pub proof fn transfers_upto_stands(h: HandlerMir, n: nat, k: int)
    requires
        0 <= k < n,
    ensures
        contains_text(transfers_upto(h, n), transfer_text( h.name@, h.body.stmts@[k], transfer_count(h.body.stmts@, k as nat), transfer_count(h.body.stmts@, h.body.stmts@.len()), )),
    decreases n,
{
    let before = transfers_upto(h, (n - 1) as nat);
    let item = transfer_text( h.name@, h.body.stmts@[k], transfer_count(h.body.stmts@, k as nat), transfer_count(h.body.stmts@, h.body.stmts@.len()), );
    if k < n - 1 {
        transfers_upto_stands(h, (n - 1) as nat, k);
        stands_left(before, transfer_text( h.name@, h.body.stmts@[n - 1], transfer_count(h.body.stmts@, (n - 1) as nat), transfer_count(h.body.stmts@, h.body.stmts@.len()), ), item);
    } else {
        stands(before, item, Seq::empty());
    }
}

/// Each item of the list stands in it.
pub proof fn posts_upto_stands(c: CallSite, state: Seq<Seq<char>>, n: nat, k: int)
    requires
        0 <= k < n,
    ensures
        contains_text(posts_upto(c, state, n), post_text( c, k as nat, state, abstract_fields(c.callee.ensures@[k].0.lean@), substituted(c, c.callee.ensures@[k].0.lean@), )),
    decreases n,
{
    let before = posts_upto(c, state, (n - 1) as nat);
    let item = post_text( c, k as nat, state, abstract_fields(c.callee.ensures@[k].0.lean@), substituted(c, c.callee.ensures@[k].0.lean@), );
    if k < n - 1 {
        posts_upto_stands(c, state, (n - 1) as nat, k);
        stands_left(before, post_text( c, (n - 1) as nat, state, abstract_fields(c.callee.ensures@[n - 1].0.lean@), substituted(c, c.callee.ensures@[n - 1].0.lean@), ), item);
    } else {
        stands(before, item, Seq::empty());
    }
}

/// Each item of the list stands in it.
pub proof fn calls_upto_stands(sc: ScopeV, h: HandlerMir, state: Seq<Seq<char>>, n: nat, k: int)
    requires
        0 <= k < n,
    ensures
        contains_text(calls_upto(sc, h, state, n), call_text( sc, h, h.body.stmts@[k], call_count(h.body.stmts@, k as nat) as usize, state, )),
    decreases n,
{
    let before = calls_upto(sc, h, state, (n - 1) as nat);
    let item = call_text( sc, h, h.body.stmts@[k], call_count(h.body.stmts@, k as nat) as usize, state, );
    if k < n - 1 {
        calls_upto_stands(sc, h, state, (n - 1) as nat, k);
        stands_left(before, call_text( sc, h, h.body.stmts@[n - 1], call_count(h.body.stmts@, (n - 1) as nat) as usize, state, ), item);
    } else {
        stands(before, item, Seq::empty());
    }
}

/// Each item of the list stands in it.
pub proof fn cpi_upto_stands(sc: ScopeV, n: nat, k: int)
    requires
        0 <= k < n,
    ensures
        contains_text(cpi_upto(sc, n), transfers_upto(sc.handlers[k], sc.handlers[k].body.stmts@.len()) + calls_upto( sc, sc.handlers[k], first_fields(sc.variants), sc.handlers[k].body.stmts@.len(), )),
    decreases n,
{
    let before = cpi_upto(sc, (n - 1) as nat);
    let item = transfers_upto(sc.handlers[k], sc.handlers[k].body.stmts@.len()) + calls_upto( sc, sc.handlers[k], first_fields(sc.variants), sc.handlers[k].body.stmts@.len(), );
    if k < n - 1 {
        cpi_upto_stands(sc, (n - 1) as nat, k);
        stands_left(before, transfers_upto(sc.handlers[n - 1], sc.handlers[n - 1].body.stmts@.len()) + calls_upto( sc, sc.handlers[n - 1], first_fields(sc.variants), sc.handlers[n - 1].body.stmts@.len(), ), item);
    } else {
        stands(before, item, Seq::empty());
    }
}

/// Each item of the list stands in it.
pub proof fn constant_lines_stands(cs: Seq<(Symbol, String)>, n: nat, k: int)
    requires
        0 <= k < n,
    ensures
        contains_text(constant_lines(cs, n), ("abbrev "@ + safe_text(cs[k].0@) + " : Nat := "@ + cs[k].1@ + "\n"@)),
    decreases n,
{
    let before = constant_lines(cs, (n - 1) as nat);
    let item = ("abbrev "@ + safe_text(cs[k].0@) + " : Nat := "@ + cs[k].1@ + "\n"@);
    if k < n - 1 {
        constant_lines_stands(cs, (n - 1) as nat, k);
        stands_left(before, ("abbrev "@ + safe_text(cs[n - 1].0@) + " : Nat := "@ + cs[n - 1].1@ + "\n"@), item);
    } else {
        stands(before, item, Seq::empty());
    }
}

/// Each item of the list stands in it.
pub proof fn helper_lines_stands(hs: Seq<UninterpretedHelper>, n: nat, k: int)
    requires
        0 <= k < n,
    ensures
        contains_text(helper_lines(hs, n), ("opaque "@ + safe_text(hs[k].name@) + " : "@ + helper_sig(hs[k]) + "\n"@)),
    decreases n,
{
    let before = helper_lines(hs, (n - 1) as nat);
    let item = ("opaque "@ + safe_text(hs[k].name@) + " : "@ + helper_sig(hs[k]) + "\n"@);
    if k < n - 1 {
        helper_lines_stands(hs, (n - 1) as nat, k);
        stands_left(before, ("opaque "@ + safe_text(hs[n - 1].name@) + " : "@ + helper_sig(hs[n - 1]) + "\n"@), item);
    } else {
        stands(before, item, Seq::empty());
    }
}

/// Each item of the list stands in it.
pub proof fn ref_impl_lines_stands(rs: Seq<RefImpl>, n: nat, k: int)
    requires
        0 <= k < n,
    ensures
        contains_text(ref_impl_lines(rs, n), ref_impl_text(rs[k])),
    decreases n,
{
    let before = ref_impl_lines(rs, (n - 1) as nat);
    let item = ref_impl_text(rs[k]);
    if k < n - 1 {
        ref_impl_lines_stands(rs, (n - 1) as nat, k);
        stands_left(before, ref_impl_text(rs[n - 1]), item);
    } else {
        stands(before, item, Seq::empty());
    }
}

/// Each item of the list stands in it.
pub proof fn marker_lines_stands(states: Seq<Seq<char>>, n: nat, k: int)
    requires
        0 <= k < n,
    ensures
        contains_text(marker_lines(states, n), ("  | "@ + safe_text(states[k]) + "\n"@)),
    decreases n,
{
    let before = marker_lines(states, (n - 1) as nat);
    let item = ("  | "@ + safe_text(states[k]) + "\n"@);
    if k < n - 1 {
        marker_lines_stands(states, (n - 1) as nat, k);
        stands_left(before, ("  | "@ + safe_text(states[n - 1]) + "\n"@), item);
    } else {
        stands(before, item, Seq::empty());
    }
}

/// Each item of the list stands in it.
pub proof fn field_lines_stands(fs: Seq<FieldDecl>, n: nat, k: int)
    requires
        0 <= k < n,
    ensures
        contains_text(field_lines(fs, n), ("  "@ + safe_text(fs[k].name@) + " : "@ + ty_text(fs[k].ty) + "\n"@)),
    decreases n,
{
    let before = field_lines(fs, (n - 1) as nat);
    let item = ("  "@ + safe_text(fs[k].name@) + " : "@ + ty_text(fs[k].ty) + "\n"@);
    if k < n - 1 {
        field_lines_stands(fs, (n - 1) as nat, k);
        stands_left(before, ("  "@ + safe_text(fs[n - 1].name@) + " : "@ + ty_text(fs[n - 1].ty) + "\n"@), item);
    } else {
        stands(before, item, Seq::empty());
    }
}

/// Each item of the list stands in it.
pub proof fn ctor_lines_stands(hs: Seq<HandlerMir>, n: nat, k: int)
    requires
        0 <= k < n,
    ensures
        contains_text(ctor_lines(hs, n), ctor_text(hs[k])),
    decreases n,
{
    let before = ctor_lines(hs, (n - 1) as nat);
    let item = ctor_text(hs[k]);
    if k < n - 1 {
        ctor_lines_stands(hs, (n - 1) as nat, k);
        stands_left(before, ctor_text(hs[n - 1]), item);
    } else {
        stands(before, item, Seq::empty());
    }
}

/// Each item of the list stands in it.
pub proof fn dispatch_lines_stands(hs: Seq<HandlerMir>, n: nat, k: int)
    requires
        0 <= k < n,
    ensures
        contains_text(dispatch_lines(hs, n), dispatch_text(hs[k])),
    decreases n,
{
    let before = dispatch_lines(hs, (n - 1) as nat);
    let item = dispatch_text(hs[k]);
    if k < n - 1 {
        dispatch_lines_stands(hs, (n - 1) as nat, k);
        stands_left(before, dispatch_text(hs[n - 1]), item);
    } else {
        stands(before, item, Seq::empty());
    }
}

/// Each item of the list stands in it.
pub proof fn tag_lines_stands(vs: Seq<VariantV>, n: nat, k: int)
    requires
        0 <= k < n,
    ensures
        contains_text(tag_lines(vs, n), ("  | "@ + vs[k].tag + "\n"@)),
    decreases n,
{
    let before = tag_lines(vs, (n - 1) as nat);
    let item = ("  | "@ + vs[k].tag + "\n"@);
    if k < n - 1 {
        tag_lines_stands(vs, (n - 1) as nat, k);
        stands_left(before, ("  | "@ + vs[n - 1].tag + "\n"@), item);
    } else {
        stands(before, item, Seq::empty());
    }
}

/// Each item of the list stands in it.
pub proof fn variant_lines_stands(vs: Seq<VariantV>, n: nat, k: int)
    requires
        0 <= k < n,
    ensures
        contains_text(variant_lines(vs, n), variant_ctor(vs[k])),
    decreases n,
{
    let before = variant_lines(vs, (n - 1) as nat);
    let item = variant_ctor(vs[k]);
    if k < n - 1 {
        variant_lines_stands(vs, (n - 1) as nat, k);
        stands_left(before, variant_ctor(vs[n - 1]), item);
    } else {
        stands(before, item, Seq::empty());
    }
}

/// Each item of the list stands in it.
pub proof fn status_lines_stands(vs: Seq<VariantV>, n: nat, k: int)
    requires
        0 <= k < n,
    ensures
        contains_text(status_lines(vs, n), ("  | "@ + wild_pattern(vs[k]) + " => ."@ + vs[k].tag + "\n"@)),
    decreases n,
{
    let before = status_lines(vs, (n - 1) as nat);
    let item = ("  | "@ + wild_pattern(vs[k]) + " => ."@ + vs[k].tag + "\n"@);
    if k < n - 1 {
        status_lines_stands(vs, (n - 1) as nat, k);
        stands_left(before, ("  | "@ + wild_pattern(vs[n - 1]) + " => ."@ + vs[n - 1].tag + "\n"@), item);
    } else {
        stands(before, item, Seq::empty());
    }
}

/// Each item of the list stands in it.
pub proof fn accessor_lines_stands(vs: Seq<VariantV>, f: FieldDecl, n: nat, k: int)
    requires
        0 <= k < n,
    ensures
        contains_text(accessor_lines(vs, f, n), accessor_case(vs[k], f)),
    decreases n,
{
    let before = accessor_lines(vs, f, (n - 1) as nat);
    let item = accessor_case(vs[k], f);
    if k < n - 1 {
        accessor_lines_stands(vs, f, (n - 1) as nat, k);
        stands_left(before, accessor_case(vs[n - 1], f), item);
    } else {
        stands(before, item, Seq::empty());
    }
}

/// Each item of the list stands in it.
pub proof fn accessors_upto_stands(vs: Seq<VariantV>, fs: Seq<FieldDecl>, n: nat, k: int)
    requires
        0 <= k < n,
    ensures
        contains_text(accessors_upto(vs, fs, n), accessor_text(vs, fs[k])),
    decreases n,
{
    let before = accessors_upto(vs, fs, (n - 1) as nat);
    let item = accessor_text(vs, fs[k]);
    if k < n - 1 {
        accessors_upto_stands(vs, fs, (n - 1) as nat, k);
        stands_left(before, accessor_text(vs, fs[n - 1]), item);
    } else {
        stands(before, item, Seq::empty());
    }
}

/// Each item of the list stands in it.
pub proof fn indexed_sig_upto_stands(params: Seq<(Symbol, Ty)>, bounds: Bounds, n: nat, k: int)
    requires
        0 <= k < n,
    ensures
        contains_text(indexed_sig_upto(params, bounds, n), (" ("@ + params[k].0@ + " : "@ + param_ty(params[k], bounds) + ")"@)),
    decreases n,
{
    let before = indexed_sig_upto(params, bounds, (n - 1) as nat);
    let item = (" ("@ + params[k].0@ + " : "@ + param_ty(params[k], bounds) + ")"@);
    if k < n - 1 {
        indexed_sig_upto_stands(params, bounds, (n - 1) as nat, k);
        stands_left(before, (" ("@ + params[n - 1].0@ + " : "@ + param_ty(params[n - 1], bounds) + ")"@), item);
    } else {
        stands(before, item, Seq::empty());
    }
}

/// Each item of the list stands in it.
pub proof fn indexed_transitions_upto_stands(sc: ScopeV, roots: Bounds, n: nat, k: int)
    requires
        0 <= k < n,
    ensures
        contains_text(indexed_transitions_upto(sc, roots, n), indexed_transition_text( flat_fields(sc.variants), sc.handlers[k], roots, sc.has_marker(), )),
    decreases n,
{
    let before = indexed_transitions_upto(sc, roots, (n - 1) as nat);
    let item = indexed_transition_text( flat_fields(sc.variants), sc.handlers[k], roots, sc.has_marker(), );
    if k < n - 1 {
        indexed_transitions_upto_stands(sc, roots, (n - 1) as nat, k);
        stands_left(before, indexed_transition_text( flat_fields(sc.variants), sc.handlers[n - 1], roots, sc.has_marker(), ), item);
    } else {
        stands(before, item, Seq::empty());
    }
}

/// Each item of the list stands in it.
pub proof fn indexed_ctors_stands(hs: Seq<HandlerMir>, roots: Bounds, n: nat, k: int)
    requires
        0 <= k < n,
    ensures
        contains_text(indexed_ctors(hs, roots, n), ("  | "@ + safe_text(hs[k].name@) + indexed_sig(hs[k], roots) + "\n"@)),
    decreases n,
{
    let before = indexed_ctors(hs, roots, (n - 1) as nat);
    let item = ("  | "@ + safe_text(hs[k].name@) + indexed_sig(hs[k], roots) + "\n"@);
    if k < n - 1 {
        indexed_ctors_stands(hs, roots, (n - 1) as nat, k);
        stands_left(before, ("  | "@ + safe_text(hs[n - 1].name@) + indexed_sig(hs[n - 1], roots) + "\n"@), item);
    } else {
        stands(before, item, Seq::empty());
    }
}

/// Each item of the list stands in it.
pub proof fn indexed_cases_stands(hs: Seq<HandlerMir>, n: nat, k: int)
    requires
        0 <= k < n,
    ensures
        contains_text(indexed_cases(hs, n), ("  | ."@ + safe_text(hs[k].name@) + args_text(hs[k].params@) + " => "@ + safe_text(hs[k].name@) + "Transition s signer"@ + args_text(hs[k].params@) + "\n"@)),
    decreases n,
{
    let before = indexed_cases(hs, (n - 1) as nat);
    let item = ("  | ."@ + safe_text(hs[k].name@) + args_text(hs[k].params@) + " => "@ + safe_text(hs[k].name@) + "Transition s signer"@ + args_text(hs[k].params@) + "\n"@);
    if k < n - 1 {
        indexed_cases_stands(hs, (n - 1) as nat, k);
        stands_left(before, ("  | ."@ + safe_text(hs[n - 1].name@) + args_text(hs[n - 1].params@) + " => "@ + safe_text(hs[n - 1].name@) + "Transition s signer"@ + args_text(hs[n - 1].params@) + "\n"@), item);
    } else {
        stands(before, item, Seq::empty());
    }
}

/// Each item of the list stands in it.
pub proof fn record_lines_stands(fs: Seq<(String, String)>, n: nat, k: int)
    requires
        0 <= k < n,
    ensures
        contains_text(record_lines(fs, n), ("  "@ + safe_text(fs[k].0@) + " : "@ + dsl_ty_text(fs[k].1@) + "\n"@)),
    decreases n,
{
    let before = record_lines(fs, (n - 1) as nat);
    let item = ("  "@ + safe_text(fs[k].0@) + " : "@ + dsl_ty_text(fs[k].1@) + "\n"@);
    if k < n - 1 {
        record_lines_stands(fs, (n - 1) as nat, k);
        stands_left(before, ("  "@ + safe_text(fs[n - 1].0@) + " : "@ + dsl_ty_text(fs[n - 1].1@) + "\n"@), item);
    } else {
        stands(before, item, Seq::empty());
    }
}

/// Each item of the list stands in it.
pub proof fn record_defaults_stands(fs: Seq<(String, String)>, n: nat, k: int)
    requires
        0 <= k < n,
    ensures
        contains_text(record_defaults(fs, n), ("  "@ + safe_text(fs[k].0@) + " := "@ + dsl_default_text(fs[k].1@) + ",\n"@)),
    decreases n,
{
    let before = record_defaults(fs, (n - 1) as nat);
    let item = ("  "@ + safe_text(fs[k].0@) + " := "@ + dsl_default_text(fs[k].1@) + ",\n"@);
    if k < n - 1 {
        record_defaults_stands(fs, (n - 1) as nat, k);
        stands_left(before, ("  "@ + safe_text(fs[n - 1].0@) + " := "@ + dsl_default_text(fs[n - 1].1@) + ",\n"@), item);
    } else {
        stands(before, item, Seq::empty());
    }
}

/// Each item of the list stands in it.
pub proof fn records_upto_stands(rs: Seq<ParsedRecordType>, n: nat, k: int)
    requires
        0 <= k < n,
    ensures
        contains_text(records_upto(rs, n), record_text(rs[k])),
    decreases n,
{
    let before = records_upto(rs, (n - 1) as nat);
    let item = record_text(rs[k]);
    if k < n - 1 {
        records_upto_stands(rs, (n - 1) as nat, k);
        stands_left(before, record_text(rs[n - 1]), item);
    } else {
        stands(before, item, Seq::empty());
    }
}

/// Each item of the list stands in it.
pub proof fn const_lines_stands(cs: Seq<(Symbol, String)>, n: nat, k: int)
    requires
        0 <= k < n,
    ensures
        contains_text(const_lines(cs, n), ("abbrev "@ + safe_text(cs[k].0@) + " : Nat := "@ + cs[k].1@ + "\n"@)),
    decreases n,
{
    let before = const_lines(cs, (n - 1) as nat);
    let item = ("abbrev "@ + safe_text(cs[k].0@) + " : Nat := "@ + cs[k].1@ + "\n"@);
    if k < n - 1 {
        const_lines_stands(cs, (n - 1) as nat, k);
        stands_left(before, ("abbrev "@ + safe_text(cs[n - 1].0@) + " : Nat := "@ + cs[n - 1].1@ + "\n"@), item);
    } else {
        stands(before, item, Seq::empty());
    }
}

/// Each item of the list stands in it.
pub proof fn plain_tags_stands(states: Seq<Seq<char>>, n: nat, k: int)
    requires
        0 <= k < n,
    ensures
        contains_text(plain_tags(states, n), ("  | "@ + states[k] + "\n"@)),
    decreases n,
{
    let before = plain_tags(states, (n - 1) as nat);
    let item = ("  | "@ + states[k] + "\n"@);
    if k < n - 1 {
        plain_tags_stands(states, (n - 1) as nat, k);
        stands_left(before, ("  | "@ + states[n - 1] + "\n"@), item);
    } else {
        stands(before, item, Seq::empty());
    }
}

/// Each item of the list stands in it.
pub proof fn indexed_field_lines_stands(fs: Seq<FieldDecl>, n: nat, k: int)
    requires
        0 <= k < n,
    ensures
        contains_text(indexed_field_lines(fs, n), ("  "@ + safe_text(fs[k].name@) + " : "@ + indexed_ty_text(fs[k].ty) + "\n"@)),
    decreases n,
{
    let before = indexed_field_lines(fs, (n - 1) as nat);
    let item = ("  "@ + safe_text(fs[k].name@) + " : "@ + indexed_ty_text(fs[k].ty) + "\n"@);
    if k < n - 1 {
        indexed_field_lines_stands(fs, (n - 1) as nat, k);
        stands_left(before, ("  "@ + safe_text(fs[n - 1].name@) + " : "@ + indexed_ty_text(fs[n - 1].ty) + "\n"@), item);
    } else {
        stands(before, item, Seq::empty());
    }
}

/// Each item of the list stands in it.
pub proof fn machines_upto_stands(mir: Mir, n: nat, k: int)
    requires
        0 <= k < n,
    ensures
        contains_text(machines_upto(mir, n), machine_text(mir, k)),
    decreases n,
{
    let before = machines_upto(mir, (n - 1) as nat);
    let item = machine_text(mir, k);
    if k < n - 1 {
        machines_upto_stands(mir, (n - 1) as nat, k);
        stands_left(before, machine_text(mir, n - 1), item);
    } else {
        stands(before, item, Seq::empty());
    }
}

/// Each item of the list stands in it.
pub proof fn claims_upto_stands(mir: Mir, n: nat, k: int)
    requires
        0 <= k < n,
    ensures
        contains_text(claims_upto(mir, n), claims_text(mir, k)),
    decreases n,
{
    let before = claims_upto(mir, (n - 1) as nat);
    let item = claims_text(mir, k);
    if k < n - 1 {
        claims_upto_stands(mir, (n - 1) as nat, k);
        stands_left(before, claims_text(mir, n - 1), item);
    } else {
        stands(before, item, Seq::empty());
    }
}

/// Each item of the list stands in it.
pub proof fn invariant_comments_stands(invs: Seq<InvariantMir>, n: nat, k: int)
    requires
        0 <= k < n,
    ensures
        contains_text(invariant_comments(invs, n), invariant_comment(invs[k])),
    decreases n,
{
    let before = invariant_comments(invs, (n - 1) as nat);
    let item = invariant_comment(invs[k]);
    if k < n - 1 {
        invariant_comments_stands(invs, (n - 1) as nat, k);
        stands_left(before, invariant_comment(invs[n - 1]), item);
    } else {
        stands(before, item, Seq::empty());
    }
}

/// Each item of the list stands in it.
pub proof fn multi_properties_upto_stands(mir: Mir, names: Seq<(Seq<char>, bool)>, n: nat, k: int)
    requires
        0 <= k < n,
    ensures
        contains_text(multi_properties_upto(mir, names, n), account_properties_text( mir, names[k].0, )),
    decreases n,
{
    let before = multi_properties_upto(mir, names, (n - 1) as nat);
    let item = account_properties_text( mir, names[k].0, );
    if k < n - 1 {
        multi_properties_upto_stands(mir, names, (n - 1) as nat, k);
        stands_left(before, account_properties_text( mir, names[n - 1].0, ), item);
    } else {
        stands(before, item, Seq::empty());
    }
}

/// Each item of the list stands in it.
pub proof fn multi_lives_upto_stands(mir: Mir, n: nat, k: int)
    requires
        0 <= k < n,
    ensures
        contains_text(multi_lives_upto(mir, n), multi_live_text(mir, k as nat)),
    decreases n,
{
    let before = multi_lives_upto(mir, (n - 1) as nat);
    let item = multi_live_text(mir, k as nat);
    if k < n - 1 {
        multi_lives_upto_stands(mir, (n - 1) as nat, k);
        stands_left(before, multi_live_text(mir, (n - 1) as nat), item);
    } else {
        stands(before, item, Seq::empty());
    }
}

/// Each item of the list stands in it.
pub proof fn account_envs_upto_stands(mir: Mir, n: nat, k: int)
    requires
        0 <= k < n,
    ensures
        contains_text(account_envs_upto(mir, n), account_envs_text(mir, k)),
    decreases n,
{
    let before = account_envs_upto(mir, (n - 1) as nat);
    let item = account_envs_text(mir, k);
    if k < n - 1 {
        account_envs_upto_stands(mir, (n - 1) as nat, k);
        stands_left(before, account_envs_text(mir, n - 1), item);
    } else {
        stands(before, item, Seq::empty());
    }
}

/// Each item of the list stands in it.
pub proof fn param_sig_text_stands(params: Seq<(Symbol, Ty)>, n: nat, k: int)
    requires
        0 <= k < n,
    ensures
        contains_text(param_sig_text(params, n), (" ("@ + params[k].0@ + " : "@ + ty_text(params[k].1) + ")"@)),
    decreases n,
{
    let before = param_sig_text(params, (n - 1) as nat);
    let item = (" ("@ + params[k].0@ + " : "@ + ty_text(params[k].1) + ")"@);
    if k < n - 1 {
        param_sig_text_stands(params, (n - 1) as nat, k);
        stands_left(before, (" ("@ + params[n - 1].0@ + " : "@ + ty_text(params[n - 1].1) + ")"@), item);
    } else {
        stands(before, item, Seq::empty());
    }
}

/// Each item of the list stands in it.
pub proof fn assignments_upto_stands(xs: Seq<CounterexampleVar>, width: int, n: nat, k: int)
    requires
        0 <= k < n,
    ensures
        contains_text(assignments_upto(xs, width, n), ("             "@ + padded(xs[k].name@, width) + " = "@ + xs[k].value@ + "\n"@)),
    decreases n,
{
    let before = assignments_upto(xs, width, (n - 1) as nat);
    let item = ("             "@ + padded(xs[k].name@, width) + " = "@ + xs[k].value@ + "\n"@);
    if k < n - 1 {
        assignments_upto_stands(xs, width, (n - 1) as nat, k);
        stands_left(before, ("             "@ + padded(xs[n - 1].name@, width) + " = "@ + xs[n - 1].value@ + "\n"@), item);
    } else {
        stands(before, item, Seq::empty());
    }
}

/// Each item of the list stands in it.
pub proof fn axiom_lines_stands(xs: Seq<Seq<char>>, n: nat, k: int)
    requires
        0 <= k < n,
    ensures
        contains_text(axiom_lines(xs, n), ("             - "@ + xs[k] + "\n"@)),
    decreases n,
{
    let before = axiom_lines(xs, (n - 1) as nat);
    let item = ("             - "@ + xs[k] + "\n"@);
    if k < n - 1 {
        axiom_lines_stands(xs, (n - 1) as nat, k);
        stands_left(before, ("             - "@ + xs[n - 1] + "\n"@), item);
    } else {
        stands(before, item, Seq::empty());
    }
}

/// Each item of the list stands in it.
pub proof fn dependency_lines_stands(ds: Seq<AxiomDependency>, n: nat, k: int)
    requires
        0 <= k < n,
    ensures
        contains_text(dependency_lines(ds, n), ("           "@ + ds[k].theorem@ + "\n"@) + axiom_lines(texts(ds[k].axioms@), ds[k].axioms@.len())),
    decreases n,
{
    let before = dependency_lines(ds, (n - 1) as nat);
    let item = ("           "@ + ds[k].theorem@ + "\n"@) + axiom_lines(texts(ds[k].axioms@), ds[k].axioms@.len());
    if k < n - 1 {
        dependency_lines_stands(ds, (n - 1) as nat, k);
        stands_left(before, ("           "@ + ds[n - 1].theorem@ + "\n"@) + axiom_lines(texts(ds[n - 1].axioms@), ds[n - 1].axioms@.len()), item);
    } else {
        stands(before, item, Seq::empty());
    }
}

/// Each item of the list stands in it.
pub proof fn detail_upto_stands(ls: Seq<Seq<char>>, n: nat, k: int)
    requires
        0 <= k < n,
    ensures
        contains_text(detail_upto(ls, n), ("         "@ + ls[k] + "\n"@)),
    decreases n,
{
    let before = detail_upto(ls, (n - 1) as nat);
    let item = ("         "@ + ls[k] + "\n"@);
    if k < n - 1 {
        detail_upto_stands(ls, (n - 1) as nat, k);
        stands_left(before, ("         "@ + ls[n - 1] + "\n"@), item);
    } else {
        stands(before, item, Seq::empty());
    }
}

/// Each item of the list stands in it.
pub proof fn queries_upto_stands(theorems: Seq<Seq<char>>, n: nat, k: int)
    requires
        0 <= k < n,
    ensures
        contains_text(queries_upto(theorems, n), ("#print axioms "@ + theorems[k] + "\n"@)),
    decreases n,
{
    let before = queries_upto(theorems, (n - 1) as nat);
    let item = ("#print axioms "@ + theorems[k] + "\n"@);
    if k < n - 1 {
        queries_upto_stands(theorems, (n - 1) as nat, k);
        stands_left(before, ("#print axioms "@ + theorems[n - 1] + "\n"@), item);
    } else {
        stands(before, item, Seq::empty());
    }
}

} // verus!
