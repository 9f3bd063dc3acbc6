//! What a rendered transition does: the state that it returns, and the guard
//! that it returns it under.
use vstd::prelude::*;

use crate::laws::stands::{neighbours_stand, part_stands, stands, stands_through, still_there};
use crate::lean::base::{
    auth_text, conjunct_parts, conjunct_text, conjunction_text, is_pubkey_ref, mentions_pubkey,
    path_field, safe_text,
};
use crate::lean::guards::{
    auth_conds, field_max, guard_parts, update_of, with_add_conds, with_require_conds,
    with_status_cond, with_status_write, with_sub_conds, write_parts,
};
use crate::lean::scope::{flat_fields, has_field, ScopeV};
use crate::lean::transition::flat_transition_text;
use crate::mir::{lean_of, AccountBindingShape, FieldDecl, HandlerMir, Stmt};
use crate::pattern::has_text;
use crate::search::{contains_text, starts_with_text};
use crate::split::trim_text;
use crate::text::join_text;

verus! {

broadcast use crate::text::group_text;

/// Whether a definition returns the state with updates among which `update`
/// stands: `some { s with … }`.
pub open spec fn returns_with(def: Seq<char>, update: Seq<char>) -> bool {
    exists|a: Seq<char>, u: Seq<char>, z: Seq<char>|
        def == #[trigger] (a + "some { s with "@ + u + " }"@ + z) && contains_text(u, update)
}

/// Whether a definition returns a state only where a condition holds among whose
/// conjuncts `cond` stands: `if … then some … else none`.
pub open spec fn returns_if(def: Seq<char>, cond: Seq<char>) -> bool {
    exists|a: Seq<char>, c: Seq<char>, z: Seq<char>|
        def == #[trigger] (a + "  if "@ + c + " then\n"@ + "    "@ + z + "\n"@ + "  else none\n\n"@)
            && contains_text(c, cond) && starts_with_text(z, "some "@)
}

proof fn lemma_write_parts(stmts: Seq<Stmt>, n: nat, k: int)
    requires
        0 <= k < n <= stmts.len(),
    ensures
        match stmts[k] {
            Stmt::Assign { path, rhs } => !is_pubkey_ref(rhs.rust@) ==> has_text(
                write_parts(stmts, n),
                safe_text(path_field(path)) + " := "@ + lean_of(rhs),
            ),
            Stmt::CheckedAdd { path, delta, .. } => has_text(
                write_parts(stmts, n),
                safe_text(path_field(path)) + " := s."@ + safe_text(path_field(path)) + " + "@
                    + lean_of(delta),
            ),
            Stmt::WrapAdd { path, delta } => has_text(
                write_parts(stmts, n),
                safe_text(path_field(path)) + " := s."@ + safe_text(path_field(path)) + " + "@
                    + lean_of(delta),
            ),
            Stmt::SatAdd { path, delta } => has_text(
                write_parts(stmts, n),
                safe_text(path_field(path)) + " := s."@ + safe_text(path_field(path)) + " + "@
                    + lean_of(delta),
            ),
            Stmt::CheckedSub { path, delta, .. } => has_text(
                write_parts(stmts, n),
                safe_text(path_field(path)) + " := s."@ + safe_text(path_field(path)) + " - "@
                    + lean_of(delta),
            ),
            Stmt::WrapSub { path, delta } => has_text(
                write_parts(stmts, n),
                safe_text(path_field(path)) + " := s."@ + safe_text(path_field(path)) + " - "@
                    + lean_of(delta),
            ),
            Stmt::SatSub { path, delta } => has_text(
                write_parts(stmts, n),
                safe_text(path_field(path)) + " := s."@ + safe_text(path_field(path)) + " - "@
                    + lean_of(delta),
            ),
            _ => true,
        },
    decreases n,
{
    let before = write_parts(stmts, (n - 1) as nat);
    let all = write_parts(stmts, n);
    if k < n - 1 {
        lemma_write_parts(stmts, (n - 1) as nat, k);
        assert forall|t: Seq<char>| has_text(before, t) implies has_text(all, t) by {
            if all.len() > before.len() {
                still_there(before, all.last(), t);
                assert(all =~= before.push(all.last()));
            }
        }
    } else if all.len() > before.len() {
        still_there(before, all.last(), all.last());
        assert(all =~= before.push(all.last()));
    }
}

proof fn lemma_returns(sc: ScopeV, h: HandlerMir, t: Seq<char>)
    requires
        has_text(
            with_status_write(
                write_parts(h.body.stmts@, h.body.stmts@.len()),
                sc.has_marker(),
                h,
            ),
            t,
        ),
    ensures
        returns_with(flat_transition_text(sc, h), t),
{
    reveal(flat_transition_text);
    let writes = with_status_write(
        write_parts(h.body.stmts@, h.body.stmts@.len()),
        sc.has_marker(),
        h,
    );
    let i = choose|i: int| 0 <= i < writes.len() && #[trigger] writes[i] == t;
    let u = join_text(writes, ", "@);
    part_stands(writes, ", "@, i);
    let conds = guard_parts(sc, h);
    let def = flat_transition_text(sc, h);
    let head = crate::lean::transition::transition_head(h) + crate::lean::transition::alias_text(
        flat_fields(sc.variants),
        h,
    );
    if conds.len() > 0 {
        let a = head + ("  if "@ + conjunction_text(conds) + " then\n"@ + "    "@);
        let z = "\n"@ + "  else none\n\n"@;
        assert(def == a + "some { s with "@ + u + " }"@ + z);
    } else {
        let a = head + "  "@;
        assert(def == a + "some { s with "@ + u + " }"@ + "\n\n"@);
    }
}

/// A transition sets the field of an assignment to its value.
pub proof fn transition_assigns(sc: ScopeV, h: HandlerMir, k: int)
    requires
        0 <= k < h.body.stmts@.len(),
        h.body.stmts@[k] is Assign,
        !is_pubkey_ref(h.body.stmts@[k]->Assign_rhs.rust@),
    ensures
        returns_with(
            flat_transition_text(sc, h),
            safe_text(path_field(h.body.stmts@[k]->Assign_path)) + " := "@ + lean_of(
                h.body.stmts@[k]->Assign_rhs,
            ),
        ),
{
    let n = h.body.stmts@.len();
    let t = safe_text(path_field(h.body.stmts@[k]->Assign_path)) + " := "@ + lean_of(
        h.body.stmts@[k]->Assign_rhs,
    );
    lemma_write_parts(h.body.stmts@, n, k);
    lemma_with_status(sc, h, t);
    lemma_returns(sc, h, t);
}

proof fn lemma_with_status(sc: ScopeV, h: HandlerMir, t: Seq<char>)
    requires
        has_text(write_parts(h.body.stmts@, h.body.stmts@.len()), t),
    ensures
        has_text(
            with_status_write(
                write_parts(h.body.stmts@, h.body.stmts@.len()),
                sc.has_marker(),
                h,
            ),
            t,
        ),
{
    if let Some(tr) = h.transition {
        still_there(
            write_parts(h.body.stmts@, h.body.stmts@.len()),
            "status := ."@ + safe_text(tr.1@),
            t,
        );
    }
}

/// What a statement adds to a field, whatever it does on overflow.
pub open spec fn added(s: Stmt) -> Option<(Seq<char>, Seq<char>)> {
    match s {
        Stmt::CheckedAdd { path, delta, .. } => Some((path_field(path), lean_of(delta))),
        Stmt::WrapAdd { path, delta } => Some((path_field(path), lean_of(delta))),
        Stmt::SatAdd { path, delta } => Some((path_field(path), lean_of(delta))),
        _ => None,
    }
}

/// What a statement subtracts from a field, whatever it does on underflow.
pub open spec fn subtracted(s: Stmt) -> Option<(Seq<char>, Seq<char>)> {
    match s {
        Stmt::CheckedSub { path, delta, .. } => Some((path_field(path), lean_of(delta))),
        Stmt::WrapSub { path, delta } => Some((path_field(path), lean_of(delta))),
        Stmt::SatSub { path, delta } => Some((path_field(path), lean_of(delta))),
        _ => None,
    }
}

/// A transition adds to a field what its statement adds: `f := s.f + delta`.
pub proof fn transition_adds(sc: ScopeV, h: HandlerMir, k: int)
    requires
        0 <= k < h.body.stmts@.len(),
        added(h.body.stmts@[k]) is Some,
    ensures
        ({
            let (f, delta) = added(h.body.stmts@[k])->0;
            returns_with(
                flat_transition_text(sc, h),
                safe_text(f) + " := s."@ + safe_text(f) + " + "@ + delta,
            )
        }),
{
    let (f, delta) = added(h.body.stmts@[k])->0;
    let t = safe_text(f) + " := s."@ + safe_text(f) + " + "@ + delta;
    lemma_write_parts(h.body.stmts@, h.body.stmts@.len(), k);
    lemma_with_status(sc, h, t);
    lemma_returns(sc, h, t);
}

/// A transition subtracts from a field what its statement subtracts:
/// `f := s.f - delta`.
pub proof fn transition_subtracts(sc: ScopeV, h: HandlerMir, k: int)
    requires
        0 <= k < h.body.stmts@.len(),
        subtracted(h.body.stmts@[k]) is Some,
    ensures
        ({
            let (f, delta) = subtracted(h.body.stmts@[k])->0;
            returns_with(
                flat_transition_text(sc, h),
                safe_text(f) + " := s."@ + safe_text(f) + " - "@ + delta,
            )
        }),
{
    let (f, delta) = subtracted(h.body.stmts@[k])->0;
    let t = safe_text(f) + " := s."@ + safe_text(f) + " - "@ + delta;
    lemma_write_parts(h.body.stmts@, h.body.stmts@.len(), k);
    lemma_with_status(sc, h, t);
    lemma_returns(sc, h, t);
}

/// Adding and subtracting the same from the same field read differently.
pub proof fn sums_are_no_differences(f: Seq<char>, delta: Seq<char>)
    ensures
        safe_text(f) + " := s."@ + safe_text(f) + " + "@ + delta != safe_text(f) + " := s."@
            + safe_text(f) + " - "@ + delta,
{
    reveal_strlit(" + ");
    reveal_strlit(" - ");
    let a = safe_text(f) + " := s."@ + safe_text(f);
    assert((a + " + "@ + delta)[a.len() as int + 1] == '+');
    assert((a + " - "@ + delta)[a.len() as int + 1] == '-');
}

proof fn lemma_sub_conds(acc: Seq<Seq<char>>, fs: Seq<FieldDecl>, stmts: Seq<Stmt>, n: nat)
    requires
        n <= stmts.len(),
    ensures
        forall|t: Seq<char>| has_text(acc, t) ==> has_text(with_sub_conds(acc, fs, stmts, n), t),
        forall|k: int|
            0 <= k < n && subtracted(#[trigger] stmts[k]) is Some && field_max(
                fs,
                (subtracted(stmts[k])->0).0,
            ) is Some ==> has_text(
                with_sub_conds(acc, fs, stmts, n),
                (subtracted(stmts[k])->0).1 + " ≤ s."@ + safe_text((subtracted(stmts[k])->0).0),
            ),
    decreases n,
{
    if n > 0 {
        let before = with_sub_conds(acc, fs, stmts, (n - 1) as nat);
        let all = with_sub_conds(acc, fs, stmts, n);
        lemma_sub_conds(acc, fs, stmts, (n - 1) as nat);
        if all.len() > before.len() {
            assert(all =~= before.push(all.last()));
            assert forall|t: Seq<char>| has_text(before, t) implies has_text(all, t) by {
                still_there(before, all.last(), t);
            }
            still_there(before, all.last(), all.last());
        }
        assert(subtracted(stmts[n - 1]) is Some ==> update_of(stmts[n - 1]) is Some);
    }
}

proof fn lemma_require_conds(
    acc: Seq<Seq<char>>,
    accounts: Seq<AccountBindingShape>,
    stmts: Seq<Stmt>,
    n: nat,
)
    requires
        n <= stmts.len(),
    ensures
        forall|t: Seq<char>|
            has_text(acc, t) ==> has_text(with_require_conds(acc, accounts, stmts, n), t),
        forall|k: int|
            0 <= k < n ==> (match #[trigger] stmts[k] {
                Stmt::RequireOrAbort { pred, .. } => mentions_pubkey(pred.0.lean@, accounts)
                    || has_text(with_require_conds(acc, accounts, stmts, n), pred.0.lean@),
                _ => true,
            }),
    decreases n,
{
    if n > 0 {
        let before = with_require_conds(acc, accounts, stmts, (n - 1) as nat);
        let all = with_require_conds(acc, accounts, stmts, n);
        lemma_require_conds(acc, accounts, stmts, (n - 1) as nat);
        if all.len() > before.len() {
            assert(all =~= before.push(all.last()));
            assert forall|t: Seq<char>| has_text(before, t) implies has_text(all, t) by {
                still_there(before, all.last(), t);
            }
            still_there(before, all.last(), all.last());
        }
    }
}

/// Whether one of the conditions bounds the sum of a field and `delta`: by the
/// maximum, or in a form of its own.
pub open spec fn bounds_sum(
    conds: Seq<Seq<char>>,
    f: Seq<char>,
    delta: Seq<char>,
    max: Seq<char>,
) -> bool {
    ||| has_text(conds, "s."@ + safe_text(f) + " + "@ + delta + " ≤ "@ + max)
    ||| exists|i: int|
        0 <= i < conds.len() && (contains_text(
            #[trigger] conds[i],
            "s."@ + safe_text(f) + " + "@ + delta,
        ) || contains_text(conds[i], delta + " + s."@ + safe_text(f)))
}

proof fn lemma_add_conds(acc: Seq<Seq<char>>, fs: Seq<FieldDecl>, stmts: Seq<Stmt>, n: nat)
    requires
        n <= stmts.len(),
    ensures
        forall|t: Seq<char>| has_text(acc, t) ==> has_text(with_add_conds(acc, fs, stmts, n), t),
        forall|k: int|
            0 <= k < n && added(#[trigger] stmts[k]) is Some && field_max(
                fs,
                (added(stmts[k])->0).0,
            ) is Some ==> bounds_sum(
                with_add_conds(acc, fs, stmts, n),
                (added(stmts[k])->0).0,
                (added(stmts[k])->0).1,
                field_max(fs, (added(stmts[k])->0).0)->0,
            ),
    decreases n,
{
    if n > 0 {
        let before = with_add_conds(acc, fs, stmts, (n - 1) as nat);
        let all = with_add_conds(acc, fs, stmts, n);
        lemma_add_conds(acc, fs, stmts, (n - 1) as nat);
        if all.len() > before.len() {
            assert(all =~= before.push(all.last()));
            assert forall|t: Seq<char>| has_text(before, t) implies has_text(all, t) by {
                still_there(before, all.last(), t);
            }
            still_there(before, all.last(), all.last());
        }
        assert forall|k: int|
            0 <= k < n && added(#[trigger] stmts[k]) is Some && field_max(
                fs,
                (added(stmts[k])->0).0,
            ) is Some implies bounds_sum(
            all,
            (added(stmts[k])->0).0,
            (added(stmts[k])->0).1,
            field_max(fs, (added(stmts[k])->0).0)->0,
        ) by {
            let (f, delta) = added(stmts[k])->0;
            let sum = "s."@ + safe_text(f) + " + "@ + delta;
            let mirrored = delta + " + s."@ + safe_text(f);
            if k < n - 1 {
                let max = field_max(fs, f)->0;
                assert(bounds_sum(before, f, delta, max));
                if !has_text(before, sum + " ≤ "@ + max) {
                    let i = choose|i: int|
                        0 <= i < before.len() && (contains_text(#[trigger] before[i], sum)
                            || contains_text(before[i], mirrored));
                    assert(all[i] == before[i]);
                }
            } else if all == before {
                if crate::lean::guards::some_contains(before, sum) {
                    let i = choose|i: int|
                        0 <= i < before.len() && contains_text(#[trigger] before[i], sum);
                    assert(contains_text(all[i], sum));
                } else {
                    let i = choose|i: int|
                        0 <= i < before.len() && contains_text(#[trigger] before[i], mirrored);
                    assert(contains_text(all[i], mirrored));
                }
            }
        }
    }
}

proof fn lemma_guards(sc: ScopeV, h: HandlerMir)
    ensures
        forall|t: Seq<char>|
            has_text(
                with_status_cond(auth_conds(flat_fields(sc.variants), h), sc.has_marker(), h),
                t,
            ) ==> has_text(guard_parts(sc, h), t),
        forall|k: int|
            0 <= k < h.body.stmts@.len() && subtracted(#[trigger] h.body.stmts@[k]) is Some
                && field_max(
                flat_fields(sc.variants),
                (subtracted(h.body.stmts@[k])->0).0,
            ) is Some ==> has_text(
                guard_parts(sc, h),
                (subtracted(h.body.stmts@[k])->0).1 + " ≤ s."@ + safe_text(
                    (subtracted(h.body.stmts@[k])->0).0,
                ),
            ),
        forall|k: int|
            0 <= k < h.body.stmts@.len() ==> (match #[trigger] h.body.stmts@[k] {
                Stmt::RequireOrAbort { pred, .. } => mentions_pubkey(pred.0.lean@, h.accounts@)
                    || has_text(guard_parts(sc, h), pred.0.lean@),
                _ => true,
            }),
        forall|k: int|
            0 <= k < h.body.stmts@.len() && added(#[trigger] h.body.stmts@[k]) is Some
                && field_max(flat_fields(sc.variants), (added(h.body.stmts@[k])->0).0) is Some
                ==> bounds_sum(
                guard_parts(sc, h),
                (added(h.body.stmts@[k])->0).0,
                (added(h.body.stmts@[k])->0).1,
                field_max(flat_fields(sc.variants), (added(h.body.stmts@[k])->0).0)->0,
            ),
{
    let fs = flat_fields(sc.variants);
    let stmts = h.body.stmts@;
    let a = with_status_cond(auth_conds(fs, h), sc.has_marker(), h);
    let b = with_sub_conds(a, fs, stmts, stmts.len());
    let c = with_require_conds(b, h.accounts@, stmts, stmts.len());
    lemma_sub_conds(a, fs, stmts, stmts.len());
    lemma_require_conds(b, h.accounts@, stmts, stmts.len());
    lemma_add_conds(c, fs, stmts, stmts.len());
}

proof fn lemma_conjuncts(parts: Seq<Seq<char>>, n: nat)
    requires
        n <= parts.len(),
    ensures
        conjunct_parts(parts, n).len() == n,
        forall|i: int| 0 <= i < n ==> #[trigger] conjunct_parts(parts, n)[i] == conjunct_text(parts[i]),
    decreases n,
{
    if n > 0 {
        lemma_conjuncts(parts, (n - 1) as nat);
    }
}

/// A conjunct says what the condition says: it reads like it, but for white
/// space around it and parentheses.
pub proof fn conjuncts_keep_conditions(cond: Seq<char>)
    ensures
        conjunct_text(cond) == trim_text(cond) || conjunct_text(cond) == "("@ + trim_text(cond)
            + ")"@,
        contains_text(conjunct_text(cond), trim_text(cond)),
{
    reveal(conjunct_text);
    let t = trim_text(cond);
    stands("("@, t, ")"@);
    stands(Seq::empty(), t, Seq::empty());
    assert(Seq::<char>::empty() + t + Seq::<char>::empty() =~= t);
}

/// Every condition of a list stands in its conjunction, and each is joined to
/// the next by `∧`.
pub proof fn conjunctions_join(conds: Seq<Seq<char>>, i: int)
    requires
        0 <= i < conds.len(),
    ensures
        contains_text(conjunction_text(conds), trim_text(conds[i])),
        i + 1 < conds.len() ==> contains_text(
            conjunction_text(conds),
            conjunct_text(conds[i]) + " ∧ "@ + conjunct_text(conds[i + 1]),
        ),
{
    let parts = conjunct_parts(conds, conds.len());
    lemma_conjuncts(conds, conds.len());
    part_stands(parts, " ∧ "@, i);
    conjuncts_keep_conditions(conds[i]);
    stands_through(conjunction_text(conds), conjunct_text(conds[i]), trim_text(conds[i]));
    if i + 1 < conds.len() {
        neighbours_stand(parts, " ∧ "@, i);
    }
}

proof fn lemma_condition(sc: ScopeV, h: HandlerMir, c: Seq<char>)
    requires
        has_text(guard_parts(sc, h), c),
    ensures
        returns_if(flat_transition_text(sc, h), trim_text(c)),
{
    reveal(flat_transition_text);
    let conds = guard_parts(sc, h);
    let i = choose|i: int| 0 <= i < conds.len() && #[trigger] conds[i] == c;
    conjunctions_join(conds, i);
    let writes = with_status_write(
        write_parts(h.body.stmts@, h.body.stmts@.len()),
        sc.has_marker(),
        h,
    );
    let def = flat_transition_text(sc, h);
    let a = crate::lean::transition::transition_head(h) + crate::lean::transition::alias_text(
        flat_fields(sc.variants),
        h,
    );
    let cond = conjunction_text(conds);
    let z = crate::lean::guards::some_state_text(writes);
    reveal_strlit("some ");
    reveal_strlit("some s");
    reveal_strlit("some { s with ");
    assert(z.subrange(0, 5) =~= "some "@);
    assert(def == a + "  if "@ + cond + " then\n"@ + "    "@ + z + "\n"@ + "  else none\n\n"@);
}

/// Where the lifecycle has states to tell apart, a transition starts in the
/// state that its handler leaves and ends in the one that it enters.
pub proof fn transition_moves(sc: ScopeV, h: HandlerMir)
    requires
        sc.lifecycle.len() >= 2,
        h.transition is Some,
    ensures
        returns_if(
            flat_transition_text(sc, h),
            trim_text("s.status = ."@ + safe_text((h.transition->0).0@)),
        ),
        returns_with(flat_transition_text(sc, h), "status := ."@ + safe_text((h.transition->0).1@)),
{
    let w = write_parts(h.body.stmts@, h.body.stmts@.len());
    let t = "status := ."@ + safe_text((h.transition->0).1@);
    still_there(w, t, t);
    lemma_returns(sc, h, t);
    let c = "s.status = ."@ + safe_text((h.transition->0).0@);
    still_there(auth_conds(flat_fields(sc.variants), h), c, c);
    lemma_guards(sc, h);
    lemma_condition(sc, h, c);
}

/// Where the authority is a field of the state, only that signer passes; else
/// the authority is the signer by another name.
pub proof fn transition_checks_the_signer(sc: ScopeV, h: HandlerMir)
    requires
        auth_text(h) is Some,
    ensures
        has_field(flat_fields(sc.variants), auth_text(h)->0) ==> returns_if(
            flat_transition_text(sc, h),
            trim_text("signer = s."@ + safe_text(auth_text(h)->0)),
        ),
        !has_field(flat_fields(sc.variants), auth_text(h)->0) ==> contains_text(
            flat_transition_text(sc, h),
            "  let "@ + safe_text(auth_text(h)->0) + " := signer\n"@,
        ),
{
    let fs = flat_fields(sc.variants);
    let who = auth_text(h)->0;
    if has_field(fs, who) {
        let c = "signer = s."@ + safe_text(who);
        let parts = auth_conds(fs, h);
        assert(parts[0] == c);
        assert(has_text(parts, c));
        if let Some(t) = h.transition {
            still_there(parts, "s.status = ."@ + safe_text(t.0@), c);
        }
        lemma_guards(sc, h);
        lemma_condition(sc, h, c);
    } else {
        reveal(flat_transition_text);
        let t = "  let "@ + safe_text(who) + " := signer\n"@;
        let head = crate::lean::transition::transition_head(h);
        let writes = with_status_write(
            write_parts(h.body.stmts@, h.body.stmts@.len()),
            sc.has_marker(),
            h,
        );
        let conds = guard_parts(sc, h);
        stands(
            head,
            t,
            crate::lean::transition::guarded_text(
                conjunction_text(conds),
                conds.len() > 0,
                crate::lean::guards::some_state_text(writes),
            ),
        );
    }
}

/// A transition returns a state only where every precondition with an error
/// holds, but for those that speak of the public key of an account.
pub proof fn transition_requires(sc: ScopeV, h: HandlerMir, k: int)
    requires
        0 <= k < h.body.stmts@.len(),
        h.body.stmts@[k] is RequireOrAbort,
        !mentions_pubkey(h.body.stmts@[k]->RequireOrAbort_pred.0.lean@, h.accounts@),
    ensures
        returns_if(
            flat_transition_text(sc, h),
            trim_text(h.body.stmts@[k]->RequireOrAbort_pred.0.lean@),
        ),
{
    lemma_guards(sc, h);
    lemma_condition(sc, h, h.body.stmts@[k]->RequireOrAbort_pred.0.lean@);
}

/// A transition does not take an unsigned field below zero: what is subtracted
/// is at most the field.
pub proof fn transition_does_not_underflow(sc: ScopeV, h: HandlerMir, k: int)
    requires
        0 <= k < h.body.stmts@.len(),
        subtracted(h.body.stmts@[k]) is Some,
        field_max(flat_fields(sc.variants), (subtracted(h.body.stmts@[k])->0).0) is Some,
    ensures
        ({
            let (f, delta) = subtracted(h.body.stmts@[k])->0;
            returns_if(flat_transition_text(sc, h), trim_text(delta + " ≤ s."@ + safe_text(f)))
        }),
{
    let (f, delta) = subtracted(h.body.stmts@[k])->0;
    lemma_guards(sc, h);
    lemma_condition(sc, h, delta + " ≤ s."@ + safe_text(f));
}

/// A transition does not take an unsigned field above its maximum: a condition
/// bounds the sum.
pub proof fn transition_does_not_overflow(sc: ScopeV, h: HandlerMir, k: int)
    requires
        0 <= k < h.body.stmts@.len(),
        added(h.body.stmts@[k]) is Some,
        field_max(flat_fields(sc.variants), (added(h.body.stmts@[k])->0).0) is Some,
    ensures
        ({
            let (f, delta) = added(h.body.stmts@[k])->0;
            let max = field_max(flat_fields(sc.variants), f)->0;
            let bound = "s."@ + safe_text(f) + " + "@ + delta + " ≤ "@ + max;
            ||| returns_if(flat_transition_text(sc, h), trim_text(bound))
            ||| exists|i: int|
                0 <= i < guard_parts(sc, h).len() && (contains_text(
                    #[trigger] guard_parts(sc, h)[i],
                    "s."@ + safe_text(f) + " + "@ + delta,
                ) || contains_text(guard_parts(sc, h)[i], delta + " + s."@ + safe_text(f)))
        }),
{
    let (f, delta) = added(h.body.stmts@[k])->0;
    let max = field_max(flat_fields(sc.variants), f)->0;
    let bound = "s."@ + safe_text(f) + " + "@ + delta + " ≤ "@ + max;
    lemma_guards(sc, h);
    if has_text(guard_parts(sc, h), bound) {
        lemma_condition(sc, h, bound);
    }
}

} // verus!
