//! What a rendered transition does on a state of several variants.
use vstd::prelude::*;

use crate::laws::lists::adt_transitions_upto_stands;
use crate::laws::stands::{part_stands, stands, stands_in, stands_through, still_there};
use crate::laws::transitions::{added, conjunctions_join, subtracted};
use crate::lean::base::{
    auth_text, conjunction_text, is_pubkey_ref, max_text, mentions_pubkey, safe_text,
};
use crate::lean::guards::{stripped_path, update_of, Update};
use crate::lean::scope::{field_ty, has_field, variant_at, ScopeV, VariantV};
use crate::lean::transition::{
    adt_alias, adt_auth_conds, adt_body, adt_case, adt_conds, adt_transition_text,
    adt_transitions_text, binding_pattern, last_update, post_args, post_ctor, post_value,
    transition_head, unconstrained, unconstrained_note, with_bound_conds, with_pre_conds,
};
use crate::mir::{lean_of, AccountBindingShape, HandlerMir, Predicate, Stmt};
use crate::pattern::has_text;
use crate::search::{contains_text, ends_with_text, starts_with_text};
use crate::split::trim_text;
use crate::text::join_text;

verus! {

broadcast use crate::text::group_text;

/// The variants that a handler leads from and to, where the state has both.
pub open spec fn step_variants(vs: Seq<VariantV>, h: HandlerMir) -> Option<(VariantV, VariantV)> {
    match h.transition {
        Some((from, to)) => match (variant_at(vs, from@, 0), variant_at(vs, to@, 0)) {
            (Some(i), Some(j)) => Some((vs[i], vs[j])),
            _ => None,
        },
        None => None,
    }
}

proof fn lemma_found(vs: Seq<VariantV>, tag: Seq<char>, from: int)
    requires
        0 <= from,
    ensures
        match variant_at(vs, tag, from) {
            Some(i) => from <= i < vs.len() && vs[i].tag == tag,
            None => forall|i: int| from <= i < vs.len() ==> (#[trigger] vs[i]).tag != tag,
        },
    decreases vs.len() - from,
{
    if from < vs.len() && vs[from].tag != tag {
        lemma_found(vs, tag, from + 1);
    }
}

proof fn lemma_shape(vs: Seq<VariantV>, h: HandlerMir)
    requires
        step_variants(vs, h) is Some,
    ensures
        ({
            let (pre, post) = step_variants(vs, h)->0;
            adt_transition_text(vs, h) == transition_head(h) + unconstrained_note(
                post.tag,
                unconstrained(pre, post, vs, h, post.fields.len()),
            ) + "  match s with\n"@ + adt_case(
                binding_pattern(pre),
                adt_alias(pre, h),
                adt_conds(pre, vs, h),
                post_ctor(post.tag, post_args(pre, post, vs, h, post.fields.len())),
            ) + "  | _ => none\n\n"@
        }),
{
    reveal(adt_transition_text);
    reveal(adt_body);
}

/// A transition takes the variant that its handler leads from, with its fields
/// by name, to the one that it leads to, and rejects every other.
pub proof fn variants_lead_on(vs: Seq<VariantV>, h: HandlerMir)
    requires
        step_variants(vs, h) is Some,
    ensures
        ({
            let (pre, post) = step_variants(vs, h)->0;
            let text = adt_transition_text(vs, h);
            &&& pre.tag == (h.transition->0).0@
            &&& post.tag == (h.transition->0).1@
            &&& contains_text(text, "  match s with\n"@ + "  | "@ + "."@ + pre.tag)
            &&& contains_text(text, "some ("@ + "."@ + post.tag)
            &&& ends_with_text(text, "  | _ => none\n\n"@)
        }),
{
    let (pre, post) = step_variants(vs, h)->0;
    lemma_found(vs, (h.transition->0).0@, 0);
    lemma_found(vs, (h.transition->0).1@, 0);
    lemma_shape(vs, h);
    let note = transition_head(h) + unconstrained_note(
        post.tag,
        unconstrained(pre, post, vs, h, post.fields.len()),
    );
    let pat = binding_pattern(pre);
    let ctor = post_ctor(post.tag, post_args(pre, post, vs, h, post.fields.len()));
    let case = adt_case(pat, adt_alias(pre, h), adt_conds(pre, vs, h), ctor);
    lemma_case(pat, adt_alias(pre, h), adt_conds(pre, vs, h), ctor);
    lemma_tagged(pre, post.tag, post_args(pre, post, vs, h, post.fields.len()));
    let start = "  | "@ + "."@ + pre.tag;
    let made = "some ("@ + "."@ + post.tag;
    stands_through(case, "some ("@ + ctor, made);
    lemma_in_match(note, case, start, made);
}

proof fn lemma_in_match(note: Seq<char>, case: Seq<char>, start: Seq<char>, made: Seq<char>)
    requires
        starts_with_text(case, start),
        contains_text(case, made),
    ensures
        contains_text(
            note + "  match s with\n"@ + case + "  | _ => none\n\n"@,
            "  match s with\n"@ + start,
        ),
        contains_text(note + "  match s with\n"@ + case + "  | _ => none\n\n"@, made),
        ends_with_text(
            note + "  match s with\n"@ + case + "  | _ => none\n\n"@,
            "  | _ => none\n\n"@,
        ),
{
    let last = "  | _ => none\n\n"@;
    let text = note + "  match s with\n"@ + case + last;
    let rest = case.subrange(start.len() as int, case.len() as int);
    assert(case =~= start + rest);
    stands(note, "  match s with\n"@ + start, rest + last);
    stands_in(note + "  match s with\n"@, case, last, made);
    assert(text.subrange(text.len() - last.len(), text.len() as int) =~= last);
}

proof fn lemma_tagged(pre: VariantV, tag: Seq<char>, args: Seq<Seq<char>>)
    ensures
        starts_with_text("  | "@ + binding_pattern(pre), "  | "@ + "."@ + pre.tag),
        contains_text("some ("@ + post_ctor(tag, args), "some ("@ + "."@ + tag),
{
    let start = "  | "@ + "."@ + pre.tag;
    let t = "  | "@ + binding_pattern(pre);
    assert(t.subrange(0, start.len() as int) =~= start);
    let made = "some ("@ + "."@ + tag;
    let tail = if args.len() == 0 {
        Seq::<char>::empty()
    } else {
        " "@ + join_text(args, " "@)
    };
    stands(Seq::empty(), made, tail);
}

proof fn lemma_case(pat: Seq<char>, alias: Seq<char>, conds: Seq<Seq<char>>, ctor: Seq<char>)
    ensures
        starts_with_text(adt_case(pat, alias, conds, ctor), "  | "@ + pat),
        forall|t: Seq<char>|
            starts_with_text("  | "@ + pat, t) ==> starts_with_text(
                adt_case(pat, alias, conds, ctor),
                t,
            ),
        contains_text(adt_case(pat, alias, conds, ctor), "some ("@ + ctor),
{
    reveal(adt_case);
    lemma_some_open();
    let case = adt_case(pat, alias, conds, ctor);
    let start = "  | "@ + pat;
    assert(case.subrange(0, start.len() as int) =~= start);
    assert forall|t: Seq<char>| starts_with_text(start, t) implies starts_with_text(case, t) by {
        assert(case.subrange(0, t.len() as int) =~= start.subrange(0, t.len() as int));
    }
    if conds.len() == 0 {
        if alias.len() == 0 {
            stands(start + " => "@, "some ("@ + ctor, ")\n"@);
        } else {
            stands(start + " =>\n"@ + alias + "    "@, "some ("@ + ctor, ")\n"@);
        }
    } else {
        stands(
            start + " =>\n"@ + alias + "    if "@ + conjunction_text(conds) + " then "@,
            "some ("@ + ctor,
            ") else none\n"@,
        );
    }
}

proof fn lemma_some_open()
    ensures
        " => some ("@ == " => "@ + "some ("@,
        "    some ("@ == "    "@ + "some ("@,
        " then some ("@ == " then "@ + "some ("@,
{
    reveal_strlit(" => some (");
    reveal_strlit(" => ");
    reveal_strlit("some (");
    reveal_strlit("    some (");
    reveal_strlit("    ");
    reveal_strlit(" then some (");
    reveal_strlit(" then ");
    assert(" => some ("@ =~= " => "@ + "some ("@);
    assert("    some ("@ =~= "    "@ + "some ("@);
    assert(" then some ("@ =~= " then "@ + "some ("@);
}

/// Whether a statement writes the field, with a value that the rendered state
/// can hold.
pub open spec fn writes_field(s: Stmt, vs: Seq<VariantV>, name: Seq<char>) -> bool {
    match update_of(s) {
        Some((path, kind, value)) => stripped_path(path, vs) == name && !(kind == Update::Put
            && is_pubkey_ref(value.rust@)),
        None => false,
    }
}

proof fn lemma_last_update(stmts: Seq<Stmt>, vs: Seq<VariantV>, name: Seq<char>, n: nat, m: int)
    requires
        0 <= m < n <= stmts.len(),
        writes_field(stmts[m], vs, name),
        forall|k: int| m < k < n ==> !writes_field(#[trigger] stmts[k], vs, name),
    ensures
        match update_of(stmts[m]) {
            Some((path, kind, value)) => last_update(stmts, vs, name, n) == Some(
                (kind, lean_of(value)),
            ),
            None => false,
        },
    decreases n,
{
    if m < n - 1 {
        assert(!writes_field(stmts[n - 1], vs, name));
        lemma_last_update(stmts, vs, name, (n - 1) as nat, m);
    }
}

proof fn lemma_post_args(pre: VariantV, post: VariantV, vs: Seq<VariantV>, h: HandlerMir, n: nat)
    requires
        n <= post.fields.len(),
    ensures
        post_args(pre, post, vs, h, n).len() == n,
        forall|k: int|
            0 <= k < n && post_value(pre, vs, h, #[trigger] post.fields[k]) is Some ==> post_args(
                pre,
                post,
                vs,
                h,
                n,
            )[k] == post_value(pre, vs, h, post.fields[k])->0,
    decreases n,
{
    if n > 0 {
        lemma_post_args(pre, post, vs, h, (n - 1) as nat);
    }
}

proof fn lemma_arg_stands(vs: Seq<VariantV>, h: HandlerMir, k: int)
    requires
        step_variants(vs, h) is Some,
        0 <= k < (step_variants(vs, h)->0).1.fields.len(),
    ensures
        ({
            let (pre, post) = step_variants(vs, h)->0;
            contains_text(
                adt_transition_text(vs, h),
                post_args(pre, post, vs, h, post.fields.len())[k],
            )
        }),
{
    let (pre, post) = step_variants(vs, h)->0;
    let args = post_args(pre, post, vs, h, post.fields.len());
    lemma_post_args(pre, post, vs, h, post.fields.len());
    part_stands(args, " "@, k);
    let t = args[k];
    lemma_shape(vs, h);
    reveal(adt_case);
    let joined = join_text(args, " "@);
    let ctor = post_ctor(post.tag, args);
    stands_in("."@ + post.tag + " "@, joined, Seq::empty(), t);
    assert(ctor == "."@ + post.tag + " "@ + joined + Seq::<char>::empty());
    let case = adt_case(binding_pattern(pre), adt_alias(pre, h), adt_conds(pre, vs, h), ctor);
    let pat = binding_pattern(pre);
    let alias = adt_alias(pre, h);
    let conds = adt_conds(pre, vs, h);
    if conds.len() == 0 {
        if alias.len() == 0 {
            stands_in("  | "@ + pat + " => some ("@, ctor, ")\n"@, t);
        } else {
            stands_in("  | "@ + pat + " =>\n"@ + alias + "    some ("@, ctor, ")\n"@, t);
        }
    } else {
        stands_in(
            "  | "@ + pat + " =>\n"@ + alias + "    if "@ + conjunction_text(conds)
                + " then some ("@,
            ctor,
            ") else none\n"@,
            t,
        );
    }
    assert(contains_text(case, t));
    stands_in(
        transition_head(h) + unconstrained_note(
            post.tag,
            unconstrained(pre, post, vs, h, post.fields.len()),
        ) + "  match s with\n"@,
        case,
        "  | _ => none\n\n"@,
        t,
    );
}

/// The last statement that writes a field of the new variant gives its value: the
/// sum, the difference or the value itself.
pub proof fn variants_take_the_last_write(vs: Seq<VariantV>, h: HandlerMir, k: int, m: int)
    requires
        step_variants(vs, h) is Some,
        0 <= k < (step_variants(vs, h)->0).1.fields.len(),
        0 <= m < h.body.stmts@.len(),
        writes_field(h.body.stmts@[m], vs, (step_variants(vs, h)->0).1.fields[k].name@),
        forall|j: int|
            m < j < h.body.stmts@.len() ==> !writes_field(
                #[trigger] h.body.stmts@[j],
                vs,
                (step_variants(vs, h)->0).1.fields[k].name@,
            ),
    ensures
        ({
            let f = safe_text((step_variants(vs, h)->0).1.fields[k].name@);
            let text = adt_transition_text(vs, h);
            let s = h.body.stmts@[m];
            &&& added(s) is Some ==> contains_text(
                text,
                "("@ + f + " + "@ + (added(s)->0).1 + ")"@,
            )
            &&& subtracted(s) is Some ==> contains_text(
                text,
                "("@ + f + " - "@ + (subtracted(s)->0).1 + ")"@,
            )
            &&& s is Assign ==> contains_text(text, lean_of(s->Assign_rhs))
        }),
{
    let (pre, post) = step_variants(vs, h)->0;
    let f = post.fields[k];
    lemma_last_update(h.body.stmts@, vs, f.name@, h.body.stmts@.len(), m);
    lemma_post_args(pre, post, vs, h, post.fields.len());
    lemma_arg_stands(vs, h, k);
    assert(post_value(pre, vs, h, post.fields[k]) is Some);
}

proof fn lemma_pre_conds(
    acc: Seq<Seq<char>>,
    ps: Seq<Predicate>,
    accounts: Seq<AccountBindingShape>,
    n: nat,
)
    requires
        n <= ps.len(),
    ensures
        forall|t: Seq<char>|
            has_text(acc, t) ==> has_text(with_pre_conds(acc, ps, accounts, n), t),
        forall|k: int|
            0 <= k < n && !mentions_pubkey((#[trigger] ps[k]).0.lean@, accounts) ==> has_text(
                with_pre_conds(acc, ps, accounts, n),
                ps[k].0.lean@,
            ),
    decreases n,
{
    if n > 0 {
        let before = with_pre_conds(acc, ps, accounts, (n - 1) as nat);
        let all = with_pre_conds(acc, ps, accounts, n);
        lemma_pre_conds(acc, ps, accounts, (n - 1) as nat);
        if all.len() > before.len() {
            assert(all =~= before.push(all.last()));
            assert forall|t: Seq<char>| has_text(before, t) implies has_text(all, t) by {
                still_there(before, all.last(), t);
            }
            still_there(before, all.last(), all.last());
        }
    }
}

/// The bound that a checked update of a field of the old variant is under: a sum
/// stays below the maximum, a difference above zero.
pub open spec fn checked_bound(s: Stmt, pre: VariantV, vs: Seq<VariantV>) -> Option<Seq<char>> {
    match s {
        Stmt::CheckedAdd { path, delta, .. } => {
            let name = stripped_path(path, vs);
            match field_ty(pre.fields, name) {
                Some(ty) => match max_text(ty) {
                    Some(max) => Some(
                        safe_text(name) + " + "@ + lean_of(delta) + " ≤ "@ + max,
                    ),
                    None => None,
                },
                None => None,
            }
        },
        Stmt::CheckedSub { path, delta, .. } => {
            let name = stripped_path(path, vs);
            match field_ty(pre.fields, name) {
                Some(ty) => if max_text(ty) is Some {
                    Some(lean_of(delta) + " ≤ "@ + safe_text(name))
                } else {
                    None
                },
                None => None,
            }
        },
        _ => None,
    }
}

proof fn lemma_bound_conds(
    acc: Seq<Seq<char>>,
    pre: VariantV,
    vs: Seq<VariantV>,
    stmts: Seq<Stmt>,
    n: nat,
)
    requires
        n <= stmts.len(),
    ensures
        forall|t: Seq<char>|
            has_text(acc, t) ==> has_text(with_bound_conds(acc, pre, vs, stmts, n), t),
        forall|k: int|
            0 <= k < n && checked_bound(#[trigger] stmts[k], pre, vs) is Some ==> has_text(
                with_bound_conds(acc, pre, vs, stmts, n),
                checked_bound(stmts[k], pre, vs)->0,
            ),
    decreases n,
{
    if n > 0 {
        let before = with_bound_conds(acc, pre, vs, stmts, (n - 1) as nat);
        let all = with_bound_conds(acc, pre, vs, stmts, n);
        lemma_bound_conds(acc, pre, vs, stmts, (n - 1) as nat);
        if all.len() > before.len() {
            assert(all =~= before.push(all.last()));
            assert forall|t: Seq<char>| has_text(before, t) implies has_text(all, t) by {
                still_there(before, all.last(), t);
            }
            still_there(before, all.last(), all.last());
        }
    }
}

proof fn lemma_guarded(vs: Seq<VariantV>, h: HandlerMir, c: Seq<char>)
    requires
        step_variants(vs, h) is Some,
        has_text(adt_conds((step_variants(vs, h)->0).0, vs, h), c),
    ensures
        variant_guarded(vs, h, c),
{
    let (pre, post) = step_variants(vs, h)->0;
    let conds = adt_conds(pre, vs, h);
    let i = choose|i: int| 0 <= i < conds.len() && #[trigger] conds[i] == c;
    conjunctions_join(conds, i);
    lemma_shape(vs, h);
    reveal(adt_case);
    let args = post_args(pre, post, vs, h, post.fields.len());
    let ctor = post_ctor(post.tag, args);
    let a = transition_head(h) + unconstrained_note(
        post.tag,
        unconstrained(pre, post, vs, h, post.fields.len()),
    ) + "  match s with\n"@ + ("  | "@ + binding_pattern(pre) + " =>\n"@ + adt_alias(pre, h));
    let k = conjunction_text(conds);
    assert(adt_transition_text(vs, h) == a + "    if "@ + k + " then some ("@ + ctor
        + ") else none\n"@ + "  | _ => none\n\n"@);
}

/// Whether a transition makes its new variant only where a condition holds among
/// whose conjuncts `cond` stands.
pub open spec fn variant_guarded(vs: Seq<VariantV>, h: HandlerMir, cond: Seq<char>) -> bool {
    exists|a: Seq<char>, c: Seq<char>, z: Seq<char>|
        adt_transition_text(vs, h) == #[trigger] (a + "    if "@ + c + " then some ("@ + z
            + ") else none\n"@ + "  | _ => none\n\n"@) && contains_text(c, trim_text(cond))
}

/// A transition between variants is made only by the signer that the old
/// variant names, where every precondition holds, and within the bounds of
/// checked updates.
pub proof fn variants_are_guarded(vs: Seq<VariantV>, h: HandlerMir)
    requires
        step_variants(vs, h) is Some,
    ensures
        ({
            let (pre, post) = step_variants(vs, h)->0;
            &&& forall|k: int|
                0 <= k < h.requires_in_order@.len() && !mentions_pubkey(
                    (#[trigger] h.requires_in_order@[k]).0.lean@,
                    h.accounts@,
                ) ==> variant_guarded(vs, h, h.requires_in_order@[k].0.lean@)
            &&& forall|k: int|
                0 <= k < h.body.stmts@.len() && checked_bound(
                    #[trigger] h.body.stmts@[k],
                    pre,
                    vs,
                ) is Some ==> variant_guarded(vs, h, checked_bound(h.body.stmts@[k], pre, vs)->0)
            &&& auth_text(h) is Some && has_field(pre.fields, auth_text(h)->0) ==> variant_guarded(
                vs,
                h,
                "signer = "@ + safe_text(auth_text(h)->0),
            )
        }),
{
    let (pre, post) = step_variants(vs, h)->0;
    let a = adt_auth_conds(pre, h);
    let n = h.requires_in_order@.len();
    let b = with_pre_conds(a, h.requires_in_order@, h.accounts@, n);
    let stmts = h.body.stmts@;
    lemma_pre_conds(a, h.requires_in_order@, h.accounts@, n);
    lemma_bound_conds(b, pre, vs, stmts, stmts.len());
    assert forall|k: int|
        0 <= k < h.requires_in_order@.len() && !mentions_pubkey(
            (#[trigger] h.requires_in_order@[k]).0.lean@,
            h.accounts@,
        ) implies variant_guarded(vs, h, h.requires_in_order@[k].0.lean@) by {
        lemma_guarded(vs, h, h.requires_in_order@[k].0.lean@);
    }
    assert forall|k: int|
        0 <= k < h.body.stmts@.len() && checked_bound(#[trigger] h.body.stmts@[k], pre, vs) is Some
        implies variant_guarded(vs, h, checked_bound(h.body.stmts@[k], pre, vs)->0) by {
        lemma_guarded(vs, h, checked_bound(h.body.stmts@[k], pre, vs)->0);
    }
    if auth_text(h) is Some && has_field(pre.fields, auth_text(h)->0) {
        let c = "signer = "@ + safe_text(auth_text(h)->0);
        assert(a[0] == c);
        assert(has_text(a, c));
        lemma_guarded(vs, h, c);
    }
}

/// Every handler has its transition in the file's section.
pub proof fn every_handler_moves_variants(sc: ScopeV, j: int)
    requires
        0 <= j < sc.handlers.len(),
    ensures
        contains_text(
            adt_transitions_text(sc),
            adt_transition_text(sc.variants, sc.handlers[j]),
        ),
{
    adt_transitions_upto_stands(sc, sc.handlers.len(), j);
}

} // verus!
