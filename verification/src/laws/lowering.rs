//! What lowering makes of each declaration of a spec, field by field.
use vstd::prelude::*;

use crate::lower::{
    body_of, checked_requires, clauses, effect_stmt, lowered, lowered_abort, lowered_account,
    lowered_account_state, lowered_cover, lowered_environment, lowered_handler, lowered_invariant,
    lowered_live, lowered_property, lowered_reach, preds, require_stmts, silent_requires,
    stmt_view, stmts_view, StmtV,
};
use crate::mir::{
    ty_view, AccountKind, AccountOrField, AccountRef, HandlerMir, ImportOrigin, Mir, Stmt, Ty,
};
use crate::names::lookup;
use crate::parsed::{ParsedHandler, ParsedRequires, ParsedSpec};
use crate::split::{split_text, trim_text};

verus! {

/// Whether a reference names the account.
pub open spec fn names_account(r: AccountRef, name: Seq<char>) -> bool {
    match r {
        AccountRef::ByBinding(n) => n@ == name,
        AccountRef::SelfState => false,
    }
}

/// Where the effects of a handler start in its lowered body: behind the checked
/// preconditions and the aborts.
pub open spec fn effects_start(h: ParsedHandler, out: HandlerMir) -> int {
    (out.requires_or_abort@.len() + h.aborts_if@.len()) as int
}

/// Where the transfers of a handler start in its lowered body.
pub open spec fn transfers_start(h: ParsedHandler, out: HandlerMir) -> int {
    effects_start(h, out) + h.effects@.len()
}

/// Where the calls of a handler start in its lowered body.
pub open spec fn calls_start(h: ParsedHandler, out: HandlerMir) -> int {
    transfers_start(h, out) + h.transfers@.len()
}

proof fn lemma_require_count(rs: Seq<ParsedRequires>, n: nat)
    ensures
        require_stmts(rs, n).len() == checked_requires(rs, n).len(),
    decreases n,
{
    if n > 0 {
        lemma_require_count(rs, (n - 1) as nat);
    }
}

proof fn lemma_body(spec: ParsedSpec, mir: Mir, i: int)
    requires
        lowered(spec, mir),
        0 <= i < spec.handlers@.len(),
    ensures
        lowered_handler(spec.handlers@[i], mir.handlers@[i]),
        mir.handlers@.len() == spec.handlers@.len(),
        mir.handlers@[i].body.stmts@.len() == body_of(spec.handlers@[i]).len(),
        forall|k: int|
            0 <= k < mir.handlers@[i].body.stmts@.len() ==> stmt_view(
                #[trigger] mir.handlers@[i].body.stmts@[k],
            ) == body_of(spec.handlers@[i])[k],
        mir.handlers@[i].requires_or_abort@.len() == require_stmts(
            spec.handlers@[i].requires@,
            spec.handlers@[i].requires@.len(),
        ).len(),
{
    let h = spec.handlers@[i];
    let out = mir.handlers@[i];
    assert(lowered_handler(h, out));
    lemma_require_count(h.requires@, h.requires@.len());
    assert(clauses(out.requires_or_abort@).len() == out.requires_or_abort@.len());
    assert(stmts_view(out.body.stmts@).len() == out.body.stmts@.len());
    assert forall|k: int| 0 <= k < out.body.stmts@.len() implies stmt_view(
        #[trigger] out.body.stmts@[k],
    ) == body_of(h)[k] by {
        assert(stmts_view(out.body.stmts@)[k] == stmt_view(out.body.stmts@[k]));
    }
}

/// Every transfer of a handler becomes, in the same order, a token transfer from
/// the account that it is from to the one that it is to, of the same amount and
/// under the same authority.
pub proof fn transfers_keep_their_direction(spec: ParsedSpec, mir: Mir, i: int, k: int)
    requires
        lowered(spec, mir),
        0 <= i < spec.handlers@.len(),
        0 <= k < spec.handlers@[i].transfers@.len(),
    ensures
        ({
            let h = spec.handlers@[i];
            let out = mir.handlers@[i];
            let t = h.transfers@[k];
            let at = transfers_start(h, out) + k;
            &&& 0 <= at < out.body.stmts@.len()
            &&& match out.body.stmts@[at] {
                Stmt::TokenTransfer { from, to, amount, authority } => {
                    &&& names_account(from, t.from@)
                    &&& names_account(to, t.to@)
                    &&& match t.amount {
                        Some(a) => amount.rust@ == a@,
                        None => amount.rust@.len() == 0 && amount.lean@.len() == 0,
                    }
                    &&& match t.authority {
                        Some(a) => authority is Some && names_account(authority->0, a@),
                        None => authority is None,
                    }
                },
                _ => false,
            }
        }),
{
    lemma_body(spec, mir, i);
    let h = spec.handlers@[i];
    let out = mir.handlers@[i];
    let at = transfers_start(h, out) + k;
    assert(stmt_view(out.body.stmts@[at]) == body_of(h)[at]);
}

/// Every effect becomes, in the same order, the statement of its kind on the
/// field that it names, with its value.
pub proof fn effects_keep_their_kind(spec: ParsedSpec, mir: Mir, i: int, k: int)
    requires
        lowered(spec, mir),
        0 <= i < spec.handlers@.len(),
        0 <= k < spec.handlers@[i].effects@.len(),
    ensures
        ({
            let h = spec.handlers@[i];
            let out = mir.handlers@[i];
            let (field, kind, value) = h.effects@[k];
            let p = split_text(field@, '.');
            let at = effects_start(h, out) + k;
            let s = out.body.stmts@[at];
            &&& 0 <= at < out.body.stmts@.len()
            &&& kind@ == "set"@ ==> s is Assign && s->Assign_path@ == p && s->Assign_rhs.rust@
                == value@
            &&& kind@ == "add"@ ==> s is CheckedAdd && s->CheckedAdd_path@ == p
                && s->CheckedAdd_delta.rust@ == value@
            &&& kind@ == "sub"@ ==> s is CheckedSub && s->CheckedSub_path@ == p
                && s->CheckedSub_delta.rust@ == value@
            &&& kind@ == "add_wrap"@ ==> s is WrapAdd && s->WrapAdd_path@ == p
                && s->WrapAdd_delta.rust@ == value@
            &&& kind@ == "sub_wrap"@ ==> s is WrapSub && s->WrapSub_path@ == p
                && s->WrapSub_delta.rust@ == value@
            &&& kind@ == "add_sat"@ ==> s is SatAdd && s->SatAdd_path@ == p
                && s->SatAdd_delta.rust@ == value@
            &&& kind@ == "sub_sat"@ ==> s is SatSub && s->SatSub_path@ == p
                && s->SatSub_delta.rust@ == value@
        }),
{
    lemma_body(spec, mir, i);
    let h = spec.handlers@[i];
    let out = mir.handlers@[i];
    let at = effects_start(h, out) + k;
    assert(stmt_view(out.body.stmts@[at]) == body_of(h)[at]);
    assert(body_of(h)[at] == effect_stmt(h.effects@, h.effect_on_error@, k));
    lemma_kinds();
}

proof fn lemma_kinds()
    ensures
        "set"@ != "add"@ && "set"@ != "sub"@ && "set"@ != "add_wrap"@ && "set"@ != "sub_wrap"@
            && "set"@ != "add_sat"@ && "set"@ != "sub_sat"@,
        "add"@ != "sub"@ && "add"@ != "add_wrap"@ && "add"@ != "sub_wrap"@ && "add"@ != "add_sat"@
            && "add"@ != "sub_sat"@,
        "sub"@ != "add_wrap"@ && "sub"@ != "sub_wrap"@ && "sub"@ != "add_sat"@ && "sub"@
            != "sub_sat"@,
        "add_wrap"@ != "sub_wrap"@ && "add_wrap"@ != "add_sat"@ && "add_wrap"@ != "sub_sat"@,
        "sub_wrap"@ != "add_sat"@ && "sub_wrap"@ != "sub_sat"@,
        "add_sat"@ != "sub_sat"@,
{
    reveal_strlit("set");
    reveal_strlit("add");
    reveal_strlit("sub");
    reveal_strlit("add_wrap");
    reveal_strlit("sub_wrap");
    reveal_strlit("add_sat");
    reveal_strlit("sub_sat");
    assert("set"@.len() == 3 && "add"@.len() == 3 && "sub"@.len() == 3);
    assert("add_wrap"@.len() == 8 && "sub_wrap"@.len() == 8);
    assert("add_sat"@.len() == 7 && "sub_sat"@.len() == 7);
    assert("set"@[0] == 's' && "set"@[1] == 'e');
    assert("add"@[0] == 'a' && "sub"@[0] == 's' && "sub"@[1] == 'u');
    assert("add_wrap"@[0] == 'a' && "add_wrap"@[4] == 'w');
    assert("sub_wrap"@[0] == 's' && "sub_wrap"@[4] == 'w');
    assert("add_sat"@[0] == 'a' && "add_sat"@[4] == 's');
    assert("sub_sat"@[0] == 's' && "sub_sat"@[4] == 's');
}

/// A checked update fails with the error that its effect names, else with
/// `Overflow` where it adds and with `Underflow` where it subtracts.
pub proof fn checked_effects_name_their_error(spec: ParsedSpec, mir: Mir, i: int, k: int)
    requires
        lowered(spec, mir),
        0 <= i < spec.handlers@.len(),
        0 <= k < spec.handlers@[i].effects@.len(),
    ensures
        ({
            let h = spec.handlers@[i];
            let named = k < h.effect_on_error@.len() && h.effect_on_error@[k] is Some;
            match mir.handlers@[i].body.stmts@[effects_start(h, mir.handlers@[i]) + k] {
                Stmt::CheckedAdd { err, .. } => err@ == if named {
                    h.effect_on_error@[k]->0@
                } else {
                    "Overflow"@
                },
                Stmt::CheckedSub { err, .. } => err@ == if named {
                    h.effect_on_error@[k]->0@
                } else {
                    "Underflow"@
                },
                _ => true,
            }
        }),
{
    lemma_body(spec, mir, i);
    let h = spec.handlers@[i];
    let out = mir.handlers@[i];
    let at = effects_start(h, out) + k;
    assert(stmt_view(out.body.stmts@[at]) == body_of(h)[at]);
    assert(body_of(h)[at] == effect_stmt(h.effects@, h.effect_on_error@, k));
}

/// Every call becomes, in the same order, a call of the same method of the same
/// interface, with the same arguments under the same names and the same
/// binders.
pub proof fn calls_keep_their_target(spec: ParsedSpec, mir: Mir, i: int, k: int)
    requires
        lowered(spec, mir),
        0 <= i < spec.handlers@.len(),
        0 <= k < spec.handlers@[i].calls@.len(),
    ensures
        ({
            let h = spec.handlers@[i];
            let out = mir.handlers@[i];
            let c = h.calls@[k];
            let at = calls_start(h, out) + k;
            &&& 0 <= at < out.body.stmts@.len()
            &&& match out.body.stmts@[at] {
                Stmt::Cpi { target, method, args, state_binders, result_binding } => {
                    &&& target.0@ == c.target_interface@
                    &&& method.0@ == c.target_handler@
                    &&& args@.len() == c.args@.len()
                    &&& forall|j: int|
                        0 <= j < args@.len() ==> (#[trigger] args@[j]).name@ == c.args@[j].name@
                            && args@[j].value.lean@ == c.args@[j].lean_expr@
                            && args@[j].value.rust@ == c.args@[j].rust_expr@
                    &&& state_binders@.len() == c.state_binders@.len()
                    &&& forall|j: int|
                        0 <= j < state_binders@.len() ==> (
                        #[trigger] state_binders@[j]).callee_field@
                            == c.state_binders@[j].callee_field@
                            && state_binders@[j].caller_projection@ == seq![
                            c.state_binders@[j].caller_field@,
                        ]
                    &&& match c.result_binding {
                        Some(r) => result_binding is Some && result_binding->0@ == r@,
                        None => result_binding is None,
                    }
                },
                _ => false,
            }
        }),
{
    lemma_body(spec, mir, i);
    let h = spec.handlers@[i];
    let out = mir.handlers@[i];
    let c = h.calls@[k];
    let at = calls_start(h, out) + k;
    assert(stmt_view(out.body.stmts@[at]) == body_of(h)[at]);
    assert(body_of(h)[at] == crate::lower::call_stmt(c));
    if let Stmt::Cpi { target, method, args, state_binders, result_binding } = out.body.stmts@[at] {
        let a = crate::lower::args_view(args@);
        let pa = crate::lower::parsed_args(c.args@);
        assert(a == pa);
        assert(a.len() == args@.len() && pa.len() == c.args@.len());
        assert forall|j: int| 0 <= j < args@.len() implies (#[trigger] args@[j]).name@
            == c.args@[j].name@ && args@[j].value.lean@ == c.args@[j].lean_expr@
            && args@[j].value.rust@ == c.args@[j].rust_expr@ by {
            assert(a[j] == pa[j]);
        }
        let b = crate::lower::binders_view(state_binders@);
        let pb = crate::lower::parsed_binders(c.state_binders@);
        assert(b == pb);
        assert(b.len() == state_binders@.len() && pb.len() == c.state_binders@.len());
        assert forall|j: int| 0 <= j < state_binders@.len() implies (
        #[trigger] state_binders@[j]).callee_field@ == c.state_binders@[j].callee_field@
            && state_binders@[j].caller_projection@ == seq![c.state_binders@[j].caller_field@] by {
            assert(b[j] == pb[j]);
        }
    }
}

proof fn lemma_requires(rs: Seq<ParsedRequires>, n: nat, j: int)
    requires
        0 <= j < n <= rs.len(),
    ensures
        rs[j].error_name is Some ==> exists|k: int|
            0 <= k < require_stmts(rs, n).len() && #[trigger] require_stmts(rs, n)[k]
                == (StmtV::RequireOrAbort {
                pred: crate::mir::requires_expr(rs[j]),
                err: rs[j].error_name->0@,
            }),
        rs[j].error_name is None ==> exists|k: int|
            0 <= k < silent_requires(rs, n).len() && #[trigger] silent_requires(rs, n)[k]
                == crate::mir::requires_expr(rs[j]),
    decreases n,
{
    let a = require_stmts(rs, (n - 1) as nat);
    let b = require_stmts(rs, n);
    let c = silent_requires(rs, (n - 1) as nat);
    let d = silent_requires(rs, n);
    if j < n - 1 {
        lemma_requires(rs, (n - 1) as nat, j);
        if rs[j].error_name is Some {
            let k = choose|k: int|
                0 <= k < a.len() && #[trigger] a[k] == (StmtV::RequireOrAbort {
                    pred: crate::mir::requires_expr(rs[j]),
                    err: rs[j].error_name->0@,
                });
            assert(b[k] == a[k]);
        } else {
            let k = choose|k: int|
                0 <= k < c.len() && #[trigger] c[k] == crate::mir::requires_expr(rs[j]);
            assert(d[k] == c[k]);
        }
    } else if rs[j].error_name is Some {
        assert(b[b.len() - 1] == (StmtV::RequireOrAbort {
            pred: crate::mir::requires_expr(rs[j]),
            err: rs[j].error_name->0@,
        }));
    } else {
        assert(d[d.len() - 1] == crate::mir::requires_expr(rs[j]));
    }
}

/// A precondition that names an error is checked by a statement of the body with
/// that error; one that names none is assumed.
pub proof fn preconditions_are_checked(spec: ParsedSpec, mir: Mir, i: int, j: int)
    requires
        lowered(spec, mir),
        0 <= i < spec.handlers@.len(),
        0 <= j < spec.handlers@[i].requires@.len(),
    ensures
        ({
            let r = spec.handlers@[i].requires@[j];
            let out = mir.handlers@[i];
            &&& match r.error_name {
                Some(err) => exists|k: int|
                    0 <= k < out.body.stmts@.len() && (match #[trigger] out.body.stmts@[k] {
                        Stmt::RequireOrAbort { pred, err: e } => pred.0.lean@ == r.lean_expr@
                            && pred.0.rust@ == r.rust_expr@ && e@ == err@,
                        _ => false,
                    }),
                None => exists|k: int|
                    0 <= k < out.pre@.len() && (#[trigger] out.pre@[k]).0.lean@ == r.lean_expr@
                        && out.pre@[k].0.rust@ == r.rust_expr@,
            }
            &&& out.requires_in_order@.len() == spec.handlers@[i].requires@.len()
            &&& out.requires_in_order@[j].0.lean@ == r.lean_expr@
        }),
{
    lemma_body(spec, mir, i);
    let h = spec.handlers@[i];
    let out = mir.handlers@[i];
    let rs = h.requires@;
    let r = rs[j];
    lemma_requires(rs, rs.len(), j);
    assert(preds(out.requires_in_order@)[j] == crate::lower::requires_exprs(rs)[j]);
    assert(preds(out.requires_in_order@).len() == crate::lower::requires_exprs(rs).len());
    if r.error_name is Some {
        let ss = require_stmts(rs, rs.len());
        let k = choose|k: int|
            0 <= k < ss.len() && #[trigger] ss[k] == (StmtV::RequireOrAbort {
                pred: crate::mir::requires_expr(r),
                err: r.error_name->0@,
            });
        assert(body_of(h)[k] == ss[k]);
        assert(stmt_view(out.body.stmts@[k]) == ss[k]);
    } else {
        let ss = silent_requires(rs, rs.len());
        let k = choose|k: int|
            0 <= k < ss.len() && #[trigger] ss[k] == crate::mir::requires_expr(r);
        assert(preds(out.pre@)[k] == ss[k]);
        assert(out.pre@[k].0@ == ss[k]);
    }
}

/// A handler keeps its lifecycle step, its authority, its parameters in order
/// with their types, and its clauses.
pub proof fn handlers_keep_their_meaning(spec: ParsedSpec, mir: Mir, i: int)
    requires
        lowered(spec, mir),
        0 <= i < spec.handlers@.len(),
    ensures
        ({
            let h = spec.handlers@[i];
            let out = mir.handlers@[i];
            &&& out.name@ == h.name@
            &&& match out.transition {
                Some((from, to)) => h.pre_status is Some && h.post_status is Some && from@
                    == h.pre_status->0@ && to@ == h.post_status->0@,
                None => h.pre_status is None || h.post_status is None,
            }
            &&& match h.who {
                Some(w) => match out.auth {
                    Some(AccountOrField::Account(a)) => names_account(a, w@),
                    _ => false,
                },
                None => out.auth is None,
            }
            &&& out.params@.len() == h.takes_params@.len()
            &&& forall|j: int|
                0 <= j < out.params@.len() ==> (#[trigger] out.params@[j]).0@
                    == h.takes_params@[j].0@ && says_type(h.takes_params@[j].1@, out.params@[j].1)
            &&& out.aborts_if@.len() == h.aborts_if@.len()
            &&& forall|j: int|
                0 <= j < out.aborts_if@.len() ==> (#[trigger] out.aborts_if@[j]).err@
                    == h.aborts_if@[j].error_name@ && out.aborts_if@[j].pred.0.lean@
                    == h.aborts_if@[j].lean_expr@
            &&& out.post@.len() == h.ensures@.len()
            &&& forall|j: int|
                0 <= j < out.post@.len() ==> (#[trigger] out.post@[j]).0.lean@
                    == h.ensures@[j].lean_expr@
            &&& match h.modifies {
                Some(fs) => out.modifies is Some && out.modifies->0@.len() == fs@.len()
                    && forall|j: int|
                    0 <= j < fs@.len() ==> (#[trigger] out.modifies->0@[j])@ == seq![fs@[j]@],
                None => out.modifies is None,
            }
            &&& out.on_account == h.on_account
            &&& out.permissionless == h.permissionless
            &&& out.aborts_total == h.aborts_total
            &&& out.emits@ == h.emits@
        }),
{
    lemma_body(spec, mir, i);
    let h = spec.handlers@[i];
    let out = mir.handlers@[i];
    assert forall|j: int| 0 <= j < out.params@.len() implies (#[trigger] out.params@[j]).0@
        == h.takes_params@[j].0@ && says_type(h.takes_params@[j].1@, out.params@[j].1) by {
        assert(h.takes_params@[j] == h.takes_params@[j]);
        types_are_read(h.takes_params@[j].1@, out.params@[j].1);
    }
    assert forall|j: int| 0 <= j < out.aborts_if@.len() implies (#[trigger] out.aborts_if@[j]).err@
        == h.aborts_if@[j].error_name@ && out.aborts_if@[j].pred.0.lean@
        == h.aborts_if@[j].lean_expr@ by {
        assert(lowered_abort(h.aborts_if@[j], out.aborts_if@[j]));
    }
    assert forall|j: int| 0 <= j < out.post@.len() implies (#[trigger] out.post@[j]).0.lean@
        == h.ensures@[j].lean_expr@ by {
        assert(out.post@[j].0@ == crate::mir::ensures_expr(h.ensures@[j]));
    }
    if let Some(fs) = h.modifies {
        assert forall|j: int| 0 <= j < fs@.len() implies (#[trigger] out.modifies->0@[j])@
            == seq![fs@[j]@] by {
            assert(fs@[j] == fs@[j]);
        }
    }
}

/// Whether a type is the one that a text names: the scalars by their names, what
/// is neither a scalar nor a map by its own.
pub open spec fn says_type(text: Seq<char>, t: Ty) -> bool {
    let s = trim_text(text);
    match t {
        Ty::U8 => s == "U8"@,
        Ty::U16 => s == "U16"@,
        Ty::U32 => s == "U32"@,
        Ty::U64 => s == "U64"@,
        Ty::U128 => s == "U128"@,
        Ty::I64 => s == "I64"@,
        Ty::I128 => s == "I128"@,
        Ty::Bool => s == "Bool"@,
        Ty::Pubkey => s == "Pubkey"@,
        Ty::Custom(n) => s == n@,
        Ty::MapOf { .. } => crate::search::starts_with_text(s, "Map["@),
    }
}

/// A type that is read is the one that the text names.
pub proof fn types_are_read(text: Seq<char>, t: Ty)
    requires
        ty_view(t) == crate::mir::type_of(text),
    ensures
        says_type(text, t),
{
}

/// Every declaration keeps what it says: the states that a liveness property
/// leads from and to and the steps that it may take, the traces of a cover, the
/// fields that an environment changes, the body of a property and the handlers
/// that preserve it.
pub proof fn claims_keep_their_meaning(spec: ParsedSpec, mir: Mir)
    requires
        lowered(spec, mir),
    ensures
        mir.name@ == spec.program_name@,
        mir.liveness_props@.len() == spec.liveness_props@.len(),
        forall|i: int|
            0 <= i < mir.liveness_props@.len() ==> {
                let out = #[trigger] mir.liveness_props@[i];
                let src = spec.liveness_props@[i];
                out.name@ == src.name@ && out.from_state@ == src.from_state@ && out.leads_to_state@
                    == src.leads_to_state@ && out.via_ops@ == src.via_ops@ && out.within_steps
                    == src.within_steps
            },
        mir.covers@.len() == spec.covers@.len(),
        forall|i: int|
            0 <= i < mir.covers@.len() ==> (#[trigger] mir.covers@[i]).name@
                == spec.covers@[i].name@ && mir.covers@[i].traces@.len()
                == spec.covers@[i].traces@.len() && mir.covers@[i].reachable@.len()
                == spec.covers@[i].reachable@.len(),
        mir.environments@.len() == spec.environments@.len(),
        forall|i: int|
            0 <= i < mir.environments@.len() ==> (#[trigger] mir.environments@[i]).name@
                == spec.environments@[i].name@ && mir.environments@[i].mutates@.len()
                == spec.environments@[i].mutates@.len() && mir.environments@[i].constraints@.len()
                == spec.environments@[i].constraints@.len(),
        mir.properties@.len() == spec.properties@.len(),
        forall|i: int|
            0 <= i < mir.properties@.len() ==> {
                let out = #[trigger] mir.properties@[i];
                let src = spec.properties@[i];
                out.name@ == src.name@ && out.preserved_by@ == src.preserved_by@ && (
                match src.expression {
                    Some(e) => out.expression is Some && out.expression->0.lean@ == e@,
                    None => out.expression is None,
                })
            },
        mir.invariants@.len() == spec.invariants@.len(),
        forall|i: int|
            0 <= i < mir.invariants@.len() ==> {
                let out = #[trigger] mir.invariants@[i];
                let src = spec.invariants@[i];
                out.name@ == src.name@ && out.doc@ == src.doc@ && (match src.lean_expr {
                    Some(e) => out.body is Some && (out.body->0).0.lean@ == e@,
                    None => out.body is None,
                })
            },
        mir.constants@ == spec.constants@,
        mir.errors.variants@ == spec.error_codes@,
        mir.is_assembly == spec.assembly_target,
{
    assert forall|i: int| 0 <= i < mir.liveness_props@.len() implies {
        let out = #[trigger] mir.liveness_props@[i];
        let src = spec.liveness_props@[i];
        out.name@ == src.name@ && out.from_state@ == src.from_state@ && out.leads_to_state@
            == src.leads_to_state@ && out.via_ops@ == src.via_ops@ && out.within_steps
            == src.within_steps
    } by {
        assert(lowered_live(spec.liveness_props@[i], mir.liveness_props@[i]));
    }
    assert forall|i: int| 0 <= i < mir.covers@.len() implies (#[trigger] mir.covers@[i]).name@
        == spec.covers@[i].name@ && mir.covers@[i].traces@.len() == spec.covers@[i].traces@.len()
        && mir.covers@[i].reachable@.len() == spec.covers@[i].reachable@.len() by {
        assert(lowered_cover(spec.covers@[i], mir.covers@[i]));
    }
    assert forall|i: int| 0 <= i < mir.environments@.len() implies (
    #[trigger] mir.environments@[i]).name@ == spec.environments@[i].name@
        && mir.environments@[i].mutates@.len() == spec.environments@[i].mutates@.len()
        && mir.environments@[i].constraints@.len() == spec.environments@[i].constraints@.len() by {
        assert(lowered_environment(spec.environments@[i], mir.environments@[i]));
    }
    assert forall|i: int| 0 <= i < mir.properties@.len() implies {
        let out = #[trigger] mir.properties@[i];
        let src = spec.properties@[i];
        out.name@ == src.name@ && out.preserved_by@ == src.preserved_by@ && (
        match src.expression {
            Some(e) => out.expression is Some && out.expression->0.lean@ == e@,
            None => out.expression is None,
        })
    } by {
        assert(lowered_property(spec.properties@[i], mir.properties@[i]));
    }
    assert forall|i: int| 0 <= i < mir.invariants@.len() implies {
        let out = #[trigger] mir.invariants@[i];
        let src = spec.invariants@[i];
        out.name@ == src.name@ && out.doc@ == src.doc@ && (match src.lean_expr {
            Some(e) => out.body is Some && (out.body->0).0.lean@ == e@,
            None => out.body is None,
        })
    } by {
        assert(lowered_invariant(spec.invariants@[i], mir.invariants@[i]));
    }
}

/// A cover keeps its traces and what is reachable when; an environment keeps
/// the fields that it changes, with their types, and its constraints.
pub proof fn traces_and_changes_are_kept(spec: ParsedSpec, mir: Mir, i: int, k: int)
    requires
        lowered(spec, mir),
    ensures
        0 <= i < spec.covers@.len() && 0 <= k < spec.covers@[i].traces@.len()
            ==> mir.covers@[i].traces@[k]@ == spec.covers@[i].traces@[k]@,
        0 <= i < spec.covers@.len() && 0 <= k < spec.covers@[i].reachable@.len() ==> {
            let out = mir.covers@[i].reachable@[k];
            let src = spec.covers@[i].reachable@[k];
            out.0@ == src.0@ && (match src.1 {
                Some(w) => out.1 is Some && (out.1->0).0.lean@ == w@,
                None => out.1 is None,
            })
        },
        0 <= i < spec.environments@.len() && 0 <= k < spec.environments@[i].mutates@.len()
            ==> mir.environments@[i].mutates@[k].0@ == spec.environments@[i].mutates@[k].0@
            && says_type(
            spec.environments@[i].mutates@[k].1@,
            mir.environments@[i].mutates@[k].1,
        ),
        0 <= i < spec.environments@.len() && 0 <= k < spec.environments@[i].constraints@.len()
            ==> mir.environments@[i].constraints@[k].0.lean@
            == spec.environments@[i].constraints@[k]@,
{
    if 0 <= i < spec.covers@.len() {
        assert(lowered_cover(spec.covers@[i], mir.covers@[i]));
        if 0 <= k < spec.covers@[i].traces@.len() {
            assert(mir.covers@[i].traces@[k]@ == spec.covers@[i].traces@[k]@);
        }
        if 0 <= k < spec.covers@[i].reachable@.len() {
            assert(lowered_reach(spec.covers@[i].reachable@[k], mir.covers@[i].reachable@[k]));
        }
    }
    if 0 <= i < spec.environments@.len() {
        assert(lowered_environment(spec.environments@[i], mir.environments@[i]));
        let src = spec.environments@[i];
        let out = mir.environments@[i];
        if 0 <= k < src.mutates@.len() {
            assert(out.mutates@[k].0 == src.mutates@[k].0);
            types_are_read(src.mutates@[k].1@, out.mutates@[k].1);
        }
        if 0 <= k < src.constraints@.len() {
            assert(out.constraints@[k].0@.lean == src.constraints@[k]@);
        }
    }
}

/// An account of a handler keeps its flags and its authority, and its kind is
/// the first of these that holds: a token account, a mint, a program, a signer,
/// derived, of a declared type.
pub proof fn accounts_keep_their_flags(spec: ParsedSpec, mir: Mir, i: int, k: int)
    requires
        lowered(spec, mir),
        0 <= i < spec.handlers@.len(),
        0 <= k < spec.handlers@[i].accounts@.len(),
    ensures
        mir.handlers@[i].accounts@.len() == spec.handlers@[i].accounts@.len(),
        ({
            let a = spec.handlers@[i].accounts@[k];
            let out = mir.handlers@[i].accounts@[k];
            let ty = crate::search::opt_text(a.account_type);
            let spl = ty == Some("token"@) || ty == Some("mint"@);
            &&& out.name@ == a.name@
            &&& out.writable == a.is_writable
            &&& out.is_signer == a.is_signer
            &&& out.is_program == a.is_program
            &&& match a.authority {
                Some(n) => out.authority is Some && names_account(out.authority->0, n@),
                None => out.authority is None,
            }
            &&& (out.kind == AccountKind::Token <==> ty == Some("token"@))
            &&& (out.kind == AccountKind::Mint <==> ty == Some("mint"@))
            &&& (out.kind == AccountKind::Program <==> !spl && a.is_program)
            &&& (out.kind == AccountKind::Signer <==> !spl && !a.is_program && a.is_signer)
            &&& (out.kind == AccountKind::Pda <==> !spl && !a.is_program && !a.is_signer
                && a.pda_seeds is Some)
            &&& (out.kind == AccountKind::TypedAccount <==> !spl && !a.is_program && !a.is_signer
                && a.pda_seeds is None && ty is Some)
        }),
{
    lemma_body(spec, mir, i);
    let h = spec.handlers@[i];
    let out = mir.handlers@[i];
    assert(lowered_account(h.accounts@[k], out.accounts@[k]));
    reveal_strlit("token");
    reveal_strlit("mint");
    assert("token"@.len() == 5 && "mint"@.len() == 4);
}

/// The state keeps the variants of the first account type, with the fields of
/// each in order; a record is one variant with no name. Every account type keeps
/// its name, fields and lifecycle.
pub proof fn states_keep_their_fields(spec: ParsedSpec, mir: Mir, i: int)
    requires
        lowered(spec, mir),
        0 <= i < spec.account_types@.len(),
    ensures
        ({
            let at = spec.account_types@[i];
            let out = mir.account_states@[i];
            &&& mir.account_states@.len() == spec.account_types@.len()
            &&& out.name@ == at.name@
            &&& out.lifecycle_states@ == at.lifecycle@
            &&& out.fields@.len() == at.fields@.len()
            &&& forall|k: int|
                0 <= k < out.fields@.len() ==> (#[trigger] out.fields@[k]).name@
                    == at.fields@[k].0@ && says_type(at.fields@[k].1@, out.fields@[k].ty)
            &&& out.variants@.len() == at.variants@.len()
            &&& forall|k: int|
                0 <= k < out.variants@.len() ==> (#[trigger] out.variants@[k]).tag@
                    == at.variants@[k].name@
        }),
        ({
            let at = spec.account_types@[0];
            &&& mir.state.lifecycle_states@ == at.lifecycle@
            &&& at.variants@.len() == 0 ==> mir.state.variants@.len() == 1
                && mir.state.variants@[0].tag@.len() == 0 && mir.state.variants@[0].fields@.len()
                == at.fields@.len()
            &&& at.variants@.len() > 0 ==> mir.state.variants@.len() == at.variants@.len()
            &&& forall|k: int|
                0 <= k < at.variants@.len() ==> (#[trigger] mir.state.variants@[k]).tag@
                    == at.variants@[k].name@ && mir.state.variants@[k].fields@.len()
                    == at.variants@[k].fields@.len()
        }),
{
    let at = spec.account_types@[i];
    let out = mir.account_states@[i];
    assert(lowered_account_state(at, out));
    assert forall|k: int| 0 <= k < out.fields@.len() implies (#[trigger] out.fields@[k]).name@
        == at.fields@[k].0@ && says_type(at.fields@[k].1@, out.fields@[k].ty) by {
        assert(at.fields@[k] == at.fields@[k]);
        types_are_read(at.fields@[k].1@, out.fields@[k].ty);
    }
    assert forall|k: int| 0 <= k < out.variants@.len() implies (#[trigger] out.variants@[k]).tag@
        == at.variants@[k].name@ by {
        assert(at.variants@[k] == at.variants@[k]);
    }
    let first = spec.account_types@[0];
    assert forall|k: int| 0 <= k < first.variants@.len() implies (
    #[trigger] mir.state.variants@[k]).tag@ == first.variants@[k].name@
        && mir.state.variants@[k].fields@.len() == first.variants@[k].fields@.len() by {
        assert(first.variants@[k] == first.variants@[k]);
    }
}

/// The fields of the state are those of the first account type, in order and
/// with their types.
pub proof fn state_fields_keep_their_types(spec: ParsedSpec, mir: Mir, v: int, k: int)
    requires
        lowered(spec, mir),
        spec.account_types@.len() > 0,
    ensures
        ({
            let at = spec.account_types@[0];
            &&& at.variants@.len() == 0 && 0 <= k < at.fields@.len()
                ==> mir.state.variants@[0].fields@[k].name@ == at.fields@[k].0@ && says_type(
                at.fields@[k].1@,
                mir.state.variants@[0].fields@[k].ty,
            )
            &&& 0 <= v < at.variants@.len() && 0 <= k < at.variants@[v].fields@.len()
                ==> mir.state.variants@[v].fields@[k].name@ == at.variants@[v].fields@[k].0@
                && says_type(at.variants@[v].fields@[k].1@, mir.state.variants@[v].fields@[k].ty)
        }),
{
    let at = spec.account_types@[0];
    if at.variants@.len() == 0 && 0 <= k < at.fields@.len() {
        let out = mir.state.variants@[0];
        assert(out.fields@[k].name == at.fields@[k].0);
        types_are_read(at.fields@[k].1@, out.fields@[k].ty);
    }
    if 0 <= v < at.variants@.len() && 0 <= k < at.variants@[v].fields@.len() {
        let out = mir.state.variants@[v];
        assert(out.tag == at.variants@[v].name);
        assert(out.fields@[k].name == at.variants@[v].fields@[k].0);
        types_are_read(at.variants@[v].fields@[k].1@, out.fields@[k].ty);
    }
}

/// An import under an alias comes from the bundled key or the file that the
/// namespace names; an interface that no namespace holds is inline and carries
/// no pin.
pub proof fn imports_keep_their_origin(spec: ParsedSpec, mir: Mir, alias: Seq<char>)
    requires
        lowered(spec, mir),
    ensures
        match lookup(spec.imported_namespaces@, alias) {
            Some(ns) => {
                let imp = lookup(mir.imports@, alias);
                &&& imp is Some
                &&& (imp->0).alias@ == alias
                &&& match (imp->0).origin {
                    ImportOrigin::Builtin(k) => ns.builtin && k@ == ns.dep_key@,
                    ImportOrigin::File(k) => !ns.builtin && k@ == ns.dep_key@,
                    ImportOrigin::Inline => false,
                }
            },
            None => match lookup(mir.imports@, alias) {
                Some(imp) => imp.alias@ == alias && imp.origin is Inline && imp.upstream is None
                    && imp.verified_pkg_root is None,
                None => true,
            },
        },
{
    let found = lookup(mir.imports@, alias);
    assert(crate::lower::import_under(spec, spec.interfaces@.len(), alias, found));
    lemma_last_interface(spec.interfaces@, alias, spec.interfaces@.len());
}

proof fn lemma_last_interface(
    ifaces: Seq<crate::parsed::ParsedInterface>,
    name: Seq<char>,
    n: nat,
)
    requires
        n <= ifaces.len(),
    ensures
        match crate::lower::last_interface(ifaces, name, n) {
            Some(i) => 0 <= i < n && ifaces[i].name@ == name,
            None => true,
        },
    decreases n,
{
    if n > 0 {
        lemma_last_interface(ifaces, name, (n - 1) as nat);
    }
}

} // verus!
