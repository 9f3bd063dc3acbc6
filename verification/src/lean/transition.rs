//! The transition functions.
use vstd::prelude::*;

use crate::lean::base::{
    auth_text, conjunction, conjunction_text, default_text, handler_auth_name,
    is_account_pubkey_ref, is_pubkey_ref, max_text, mentions_handler_account_pubkey,
    mentions_pubkey, param_sig_str, safe_name, safe_text, sig_text, transition_name,
    transition_text, ty_default_literal, ty_max_const,
};
use crate::lean::guards::{
    build_guard_cond_parts, flat_writes, get_update, guard_parts, some_state, some_state_text,
    strip_variant_prefix, stripped_path, update_of, with_status_write, write_parts, Update,
};
use crate::lean::scope::{
    field_ty, find_field, find_field_ref, find_variant, flat_fields, flat_state_fields, has_field,
    variant_at, variant_views, Scope, ScopeV, VariantRef, VariantV,
};
use crate::mir::{
    lean_of, same_ty, ty_view, AccountBindingShape, FieldDecl, HandlerMir, Predicate, Stmt, Ty,
};
use crate::text::{join, join_text, same, texts};

verus! {

broadcast use {crate::text::group_text, crate::text::texts_index, crate::text::texts_len};

/// The first line of a transition function.
pub open spec fn transition_head(h: HandlerMir) -> Seq<char> {
    "def "@ + transition_text(h.name@) + " (s : State) (signer : Pubkey)"@ + sig_text(h.params@) + " : Option State :=\n"@
}

pub fn emit_transition_head(out: &mut String, h: &HandlerMir)
    ensures
        final(out)@ == old(out)@ + transition_head(*h),
{
    let trans = transition_name(&h.name);
    let sig = param_sig_str(&h.params);
    out.push_str("def ");
    out.push_str(&trans);
    out.push_str(" (s : State) (signer : Pubkey)");
    out.push_str(&sig);
    out.push_str(" : Option State :=\n");
}

/// The name of the signer, where no field of the state has it.
pub open spec fn alias_text(fs: Seq<FieldDecl>, h: HandlerMir) -> Seq<char> {
    match auth_text(h) {
        Some(who) => if has_field(fs, who) {
            Seq::empty()
        } else {
            "  let "@ + safe_text(who) + " := signer\n"@
        },
        None => Seq::empty(),
    }
}

/// A transition that runs where the conditions hold.
pub open spec fn guarded_text(cond: Seq<char>, guarded: bool, body: Seq<char>) -> Seq<char> {
    if guarded {
        "  if "@ + cond + " then\n"@ + "    "@ + body + "\n"@ + "  else none\n\n"@
    } else {
        "  "@ + body + "\n\n"@
    }
}

/// The transition function of a handler on the flat state.
#[verifier::opaque]
pub open spec fn flat_transition_text(sc: ScopeV, h: HandlerMir) -> Seq<char> {
    let conds = guard_parts(sc, h);
    let writes = with_status_write(
        write_parts(h.body.stmts@, h.body.stmts@.len()),
        sc.has_marker(),
        h,
    );
    transition_head(h) + alias_text(flat_fields(sc.variants), h) + guarded_text(
        conjunction_text(conds),
        conds.len() > 0,
        some_state_text(writes),
    )
}

fn emit_handler_transition(out: &mut String, sc: &Scope, h: &HandlerMir)
    ensures
        final(out)@ == old(out)@ + flat_transition_text(sc@, *h),
{
    proof {
        reveal(flat_transition_text);
    }
    emit_transition_head(out, h);
    let conds = build_guard_cond_parts(sc, h);
    match handler_auth_name(h) {
        Some(who) => {
            let fields = flat_state_fields(&sc.variants);
            if find_field_ref(&fields, who).is_none() {
                let name = safe_name(who);
                out.push_str("  let ");
                out.push_str(&name);
                out.push_str(" := signer\n");
            }
        },
        None => {},
    }
    let writes = flat_writes(sc, h);
    let body = some_state(&writes);
    if conds.len() == 0 {
        out.push_str("  ");
        out.push_str(&body);
        out.push_str("\n\n");
    } else {
        let cond = conjunction(&conds);
        out.push_str("  if ");
        out.push_str(&cond);
        out.push_str(" then\n");
        out.push_str("    ");
        out.push_str(&body);
        out.push_str("\n");
        out.push_str("  else none\n\n");
    }
}

pub open spec fn flat_transitions_upto(sc: ScopeV, n: nat) -> Seq<char>
    decreases n,
{
    if n == 0 {
        Seq::empty()
    } else {
        flat_transitions_upto(sc, (n - 1) as nat) + flat_transition_text(sc, sc.handlers[n - 1])
    }
}

/// One transition function for each handler, on the flat state.
pub open spec fn flat_transitions_text(sc: ScopeV) -> Seq<char> {
    flat_transitions_upto(sc, sc.handlers.len())
}

pub fn emit_transitions(out: &mut String, sc: &Scope)
    ensures
        final(out)@ == old(out)@ + flat_transitions_text(sc@),
{
    for i in 0..sc.handlers.len()
        invariant
            out@ == old(out)@ + flat_transitions_upto(sc@, i as nat),
    {
        emit_handler_transition(out, sc, sc.handlers[i]);
    }
}

// ---------------------------------------------------------------------------
// The inductive state
// ---------------------------------------------------------------------------

/// The names of the first `n` fields.
pub open spec fn safe_fields(fs: Seq<FieldDecl>, n: nat) -> Seq<Seq<char>>
    decreases n,
{
    if n == 0 {
        Seq::empty()
    } else {
        safe_fields(fs, (n - 1) as nat).push(safe_text(fs[n - 1].name@))
    }
}

/// The pattern that binds every field of a variant to its name.
pub open spec fn binding_pattern(v: VariantV) -> Seq<char> {
    "."@ + v.tag + (if v.fields.len() == 0 {
        Seq::empty()
    } else {
        " "@ + join_text(safe_fields(v.fields, v.fields.len()), " "@)
    })
}

fn bind_variant(v: &VariantRef) -> (r: String)
    ensures
        r@ == binding_pattern(v@),
{
    let mut out = ".".to_owned();
    out.push_str(v.tag);
    if v.fields.len() > 0 {
        let mut parts: Vec<String> = Vec::new();
        for i in 0..v.fields.len()
            invariant
                texts(parts@) == safe_fields(v.fields@, i as nat),
        {
            parts.push(safe_name(&v.fields[i].name));
        }
        let joined = join(&parts, " ");
        out.push_str(" ");
        out.push_str(&joined);
    }
    out
}

/// The signer is the account that the pre-variant names.
pub open spec fn adt_auth_conds(pre: VariantV, h: HandlerMir) -> Seq<Seq<char>> {
    match auth_text(h) {
        Some(who) => if has_field(pre.fields, who) {
            seq!["signer = "@ + safe_text(who)]
        } else {
            Seq::empty()
        },
        None => Seq::empty(),
    }
}

/// The name of the signer, where the pre-variant has no such field.
pub open spec fn adt_alias(pre: VariantV, h: HandlerMir) -> Seq<char> {
    match auth_text(h) {
        Some(who) => if has_field(pre.fields, who) {
            Seq::empty()
        } else {
            "    let "@ + safe_text(who) + " := signer"@ + "\n"@
        },
        None => Seq::empty(),
    }
}

/// With the first `n` preconditions that do not speak of a public key.
pub open spec fn with_pre_conds(
    acc: Seq<Seq<char>>,
    ps: Seq<Predicate>,
    accounts: Seq<AccountBindingShape>,
    n: nat,
) -> Seq<Seq<char>>
    decreases n,
{
    if n == 0 {
        acc
    } else {
        let before = with_pre_conds(acc, ps, accounts, (n - 1) as nat);
        if mentions_pubkey(ps[n - 1].0.lean@, accounts) {
            before
        } else {
            before.push(ps[n - 1].0.lean@)
        }
    }
}

/// With the bounds of the checked updates among the first `n` statements: an
/// addition to an unsigned field of the pre-variant stays below its maximum, a
/// subtraction from a field that is not signed stays above zero.
pub open spec fn with_bound_conds(
    acc: Seq<Seq<char>>,
    pre: VariantV,
    vs: Seq<VariantV>,
    stmts: Seq<Stmt>,
    n: nat,
) -> Seq<Seq<char>>
    decreases n,
{
    if n == 0 {
        acc
    } else {
        let before = with_bound_conds(acc, pre, vs, stmts, (n - 1) as nat);
        match stmts[n - 1] {
            Stmt::CheckedAdd { path, delta, .. } => {
                let name = stripped_path(path, vs);
                match field_ty(pre.fields, name) {
                    Some(ty) => match max_text(ty) {
                        Some(max) => before.push(safe_text(name) + " + "@ + lean_of(delta) + " ≤ "@ + max),
                        None => before,
                    },
                    None => before,
                }
            },
            Stmt::CheckedSub { path, delta, .. } => {
                let name = stripped_path(path, vs);
                match field_ty(pre.fields, name) {
                    Some(ty) => if ty is I64 || ty is I128 {
                        before
                    } else {
                        before.push(lean_of(delta) + " ≤ "@ + safe_text(name))
                    },
                    None => before,
                }
            },
            _ => before,
        }
    }
}

/// The conditions of a transition from the variant `pre`: the signer, the
/// preconditions in the order of the spec, and the bounds.
pub open spec fn adt_conds(pre: VariantV, vs: Seq<VariantV>, h: HandlerMir) -> Seq<Seq<char>> {
    let a = adt_auth_conds(pre, h);
    let b = with_pre_conds(a, h.requires_in_order@, h.accounts@, h.requires_in_order@.len());
    with_bound_conds(b, pre, vs, h.body.stmts@, h.body.stmts@.len())
}

fn build_adt_conds(pre: &VariantRef, vs: &Vec<VariantRef>, h: &HandlerMir) -> (r: Vec<String>)
    ensures
        texts(r@) == adt_conds(pre@, variant_views(vs@), *h),
{
    let mut conds: Vec<String> = Vec::new();
    match handler_auth_name(h) {
        Some(who) => {
            if find_field(pre.fields, who).is_some() {
                let name = safe_name(who);
                let mut c = "signer = ".to_owned();
                c.push_str(&name);
                conds.push(c);
            }
        },
        None => {},
    }
    let ghost a = adt_auth_conds(pre@, *h);
    for i in 0..h.requires_in_order.len()
        invariant
            texts(conds@) == with_pre_conds(a, h.requires_in_order@, h.accounts@, i as nat),
    {
        if !mentions_handler_account_pubkey(&h.requires_in_order[i].0.lean, &h.accounts) {
            conds.push(h.requires_in_order[i].0.lean.clone());
        }
    }
    let ghost b = with_pre_conds(
        a,
        h.requires_in_order@,
        h.accounts@,
        h.requires_in_order@.len(),
    );
    for i in 0..h.body.stmts.len()
        invariant
            texts(conds@) == with_bound_conds(
                b,
                pre@,
                variant_views(vs@),
                h.body.stmts@,
                i as nat,
            ),
    {
        match &h.body.stmts[i] {
            Stmt::CheckedAdd { path, delta, .. } => {
                let name = strip_variant_prefix(path, vs);
                match find_field(pre.fields, &name) {
                    Some(k) => {
                        match ty_max_const(&pre.fields[k].ty) {
                            Some(max) => {
                                let mut c = safe_name(&name);
                                c.push_str(" + ");
                                c.push_str(delta.lean_form());
                                c.push_str(" ≤ ");
                                c.push_str(max);
                                conds.push(c);
                            },
                            None => {},
                        }
                    },
                    None => {},
                }
            },
            Stmt::CheckedSub { path, delta, .. } => {
                let name = strip_variant_prefix(path, vs);
                match find_field(pre.fields, &name) {
                    Some(k) => {
                        match &pre.fields[k].ty {
                            Ty::I64 => {},
                            Ty::I128 => {},
                            _ => {
                                let sf = safe_name(&name);
                                let mut c = delta.lean_form().clone();
                                c.push_str(" ≤ ");
                                c.push_str(&sf);
                                conds.push(c);
                            },
                        }
                    },
                    None => {},
                }
            },
            _ => {},
        }
    }
    conds
}

/// The last update of a field among the first `n` statements, by its name
/// without a variant's tag. An assignment of a public key counts for none.
pub open spec fn last_update(
    stmts: Seq<Stmt>,
    vs: Seq<VariantV>,
    name: Seq<char>,
    n: nat,
) -> Option<(Update, Seq<char>)>
    decreases n,
{
    if n == 0 {
        None
    } else {
        match update_of(stmts[n - 1]) {
            Some((path, kind, value)) => if stripped_path(path, vs) == name && !(kind
                == Update::Put && is_pubkey_ref(value.rust@)) {
                Some((kind, lean_of(value)))
            } else {
                last_update(stmts, vs, name, (n - 1) as nat)
            },
            None => last_update(stmts, vs, name, (n - 1) as nat),
        }
    }
}

fn find_last_update<'a>(stmts: &'a Vec<Stmt>, vs: &Vec<VariantRef>, name: &str) -> (r: Option<
    (Update, &'a String),
>)
    ensures
        match r {
            Some(u) => last_update(stmts@, variant_views(vs@), name@, stmts@.len()) == Some(
                (u.0, u.1@),
            ),
            None => last_update(stmts@, variant_views(vs@), name@, stmts@.len()) is None,
        },
{
    let mut i: usize = stmts.len();
    while i > 0
        invariant
            i <= stmts@.len(),
            last_update(stmts@, variant_views(vs@), name@, stmts@.len()) == last_update(
                stmts@,
                variant_views(vs@),
                name@,
                i as nat,
            ),
        decreases i,
    {
        i = i - 1;
        match get_update(&stmts[i]) {
            Some((path, kind, value)) => {
                let stripped = strip_variant_prefix(path, vs);
                if same(&stripped, name) {
                    let skipped: bool = match kind {
                        Update::Put => is_account_pubkey_ref(&value.rust),
                        _ => false,
                    };
                    if !skipped {
                        return Some((kind, value.lean_form()));
                    }
                }
            },
            None => {},
        }
    }
    None
}

/// Whether a variant has a field of this name and type.
pub open spec fn carries(v: VariantV, f: FieldDecl) -> bool {
    exists|i: int|
        0 <= i < v.fields.len() && (#[trigger] v.fields[i]).name@ == f.name@ && ty_view(
            v.fields[i].ty,
        ) == ty_view(f.ty)
}

fn variant_carries(v: &VariantRef, f: &FieldDecl) -> (r: bool)
    ensures
        r == carries(v@, *f),
{
    for i in 0..v.fields.len()
        invariant
            forall|k: int|
                0 <= k < i ==> (#[trigger] v.fields@[k]).name@ != f.name@ || ty_view(
                    v.fields@[k].ty,
                ) != ty_view(f.ty),
    {
        if same(&v.fields[i].name, &f.name) && same_ty(&v.fields[i].ty, &f.ty) {
            proof {
                assert(v@.fields[i as int].name@ == f.name@);
            }
            return true;
        }
    }
    false
}

/// The value of a field of the post-variant: by the last update, by the
/// signer, by the pre-variant. `None` where the spec does not say.
pub open spec fn post_value(
    pre: VariantV,
    vs: Seq<VariantV>,
    h: HandlerMir,
    f: FieldDecl,
) -> Option<Seq<char>> {
    match last_update(h.body.stmts@, vs, f.name@, h.body.stmts@.len()) {
        Some((Update::Add, value)) => Some("("@ + safe_text(f.name@) + " + "@ + value + ")"@),
        Some((Update::Sub, value)) => Some("("@ + safe_text(f.name@) + " - "@ + value + ")"@),
        Some((Update::Put, value)) => Some(value),
        None => if auth_text(h) == Some(f.name@) && f.ty is Pubkey {
            Some(safe_text(f.name@))
        } else if carries(pre, f) {
            Some(safe_text(f.name@))
        } else {
            None
        },
    }
}

fn find_post_value(pre: &VariantRef, vs: &Vec<VariantRef>, h: &HandlerMir, f: &FieldDecl) -> (r:
    Option<String>)
    ensures
        match r {
            Some(v) => post_value(pre@, variant_views(vs@), *h, *f) == Some(v@),
            None => post_value(pre@, variant_views(vs@), *h, *f) is None,
        },
{
    match find_last_update(&h.body.stmts, vs, &f.name) {
        Some((kind, value)) => {
            match kind {
                Update::Add => {
                    let name = safe_name(&f.name);
                    let mut out = "(".to_owned();
                    out.push_str(&name);
                    out.push_str(" + ");
                    out.push_str(value);
                    out.push_str(")");
                    Some(out)
                },
                Update::Sub => {
                    let name = safe_name(&f.name);
                    let mut out = "(".to_owned();
                    out.push_str(&name);
                    out.push_str(" - ");
                    out.push_str(value);
                    out.push_str(")");
                    Some(out)
                },
                Update::Put => Some(value.clone()),
            }
        },
        None => {
            let is_key: bool = match &f.ty {
                Ty::Pubkey => true,
                _ => false,
            };
            let signs: bool = match handler_auth_name(h) {
                Some(who) => same(who, &f.name),
                None => false,
            };
            if signs && is_key {
                Some(safe_name(&f.name))
            } else if variant_carries(pre, f) {
                Some(safe_name(&f.name))
            } else {
                None
            }
        },
    }
}

/// The values of the first `n` fields of the post-variant; the default of its
/// type for a field of which the spec does not say.
pub open spec fn post_args(
    pre: VariantV,
    post: VariantV,
    vs: Seq<VariantV>,
    h: HandlerMir,
    n: nat,
) -> Seq<Seq<char>>
    decreases n,
{
    if n == 0 {
        Seq::empty()
    } else {
        let f = post.fields[n - 1];
        post_args(pre, post, vs, h, (n - 1) as nat).push(
            match post_value(pre, vs, h, f) {
                Some(v) => v,
                None => default_text(f.ty),
            },
        )
    }
}

/// The fields among the first `n` of the post-variant of which the spec does
/// not say.
pub open spec fn unconstrained(
    pre: VariantV,
    post: VariantV,
    vs: Seq<VariantV>,
    h: HandlerMir,
    n: nat,
) -> Seq<Seq<char>>
    decreases n,
{
    if n == 0 {
        Seq::empty()
    } else {
        let f = post.fields[n - 1];
        let before = unconstrained(pre, post, vs, h, (n - 1) as nat);
        if post_value(pre, vs, h, f) is None {
            before.push(f.name@)
        } else {
            before
        }
    }
}

/// A warning for the fields of which the spec does not say.
pub open spec fn unconstrained_note(tag: Seq<char>, fields: Seq<Seq<char>>) -> Seq<char> {
    if fields.len() == 0 {
        Seq::empty()
    } else {
        "  -- todo!(): post-variant `"@ + tag + "` has unconstrained field(s) not derivable from spec: "@ + join_text(fields, ", "@) + "\n"@ + "  -- Using type defaults; add effects or handler params to constrain these.\n"@
    }
}

/// The case of a transition for the variant `pre`.
#[verifier::opaque]
pub open spec fn adt_case(
    pat: Seq<char>,
    alias: Seq<char>,
    conds: Seq<Seq<char>>,
    ctor: Seq<char>,
) -> Seq<char> {
    if conds.len() == 0 {
        if alias.len() == 0 {
            "  | "@ + pat + " => some ("@ + ctor + ")\n"@
        } else {
            "  | "@ + pat + " =>\n"@ + alias + "    some ("@ + ctor + ")\n"@
        }
    } else {
        "  | "@ + pat + " =>\n"@ + alias + "    if "@ + conjunction_text(conds) + " then some ("@ + ctor + ") else none\n"@
    }
}

fn emit_adt_case(out: &mut String, pat: &str, alias: &str, conds: &Vec<String>, ctor: &str)
    ensures
        final(out)@ == old(out)@ + adt_case(pat@, alias@, texts(conds@), ctor@),
{
    proof {
        reveal(adt_case);
    }
    if conds.len() == 0 {
        if alias.is_empty() {
            out.push_str("  | ");
            out.push_str(pat);
            out.push_str(" => some (");
            out.push_str(ctor);
            out.push_str(")\n");
        } else {
            out.push_str("  | ");
            out.push_str(pat);
            out.push_str(" =>\n");
            out.push_str(alias);
            out.push_str("    some (");
            out.push_str(ctor);
            out.push_str(")\n");
        }
    } else {
        let cond = conjunction(conds);
        out.push_str("  | ");
        out.push_str(pat);
        out.push_str(" =>\n");
        out.push_str(alias);
        out.push_str("    if ");
        out.push_str(&cond);
        out.push_str(" then some (");
        out.push_str(ctor);
        out.push_str(") else none\n");
    }
}

/// The constructor of the post-variant.
pub open spec fn post_ctor(tag: Seq<char>, args: Seq<Seq<char>>) -> Seq<char> {
    "."@ + tag + (if args.len() == 0 {
        Seq::empty()
    } else {
        " "@ + join_text(args, " "@)
    })
}

/// The body of a transition from the variant `pre` to the variant `post`.
#[verifier::opaque]
pub open spec fn adt_body(
    pre: VariantV,
    post: VariantV,
    vs: Seq<VariantV>,
    h: HandlerMir,
) -> Seq<char> {
    unconstrained_note(post.tag, unconstrained(pre, post, vs, h, post.fields.len()))
        + "  match s with\n"@ + adt_case(
        binding_pattern(pre),
        adt_alias(pre, h),
        adt_conds(pre, vs, h),
        post_ctor(post.tag, post_args(pre, post, vs, h, post.fields.len())),
    ) + "  | _ => none\n\n"@
}

fn emit_adt_body(
    out: &mut String,
    pre: &VariantRef,
    post: &VariantRef,
    vs: &Vec<VariantRef>,
    h: &HandlerMir,
)
    ensures
        final(out)@ == old(out)@ + adt_body(pre@, post@, variant_views(vs@), *h),
{
    proof {
        reveal(adt_body);
    }
    let mut args: Vec<String> = Vec::new();
    let mut open_fields: Vec<String> = Vec::new();
    for i in 0..post.fields.len()
        invariant
            texts(args@) == post_args(pre@, post@, variant_views(vs@), *h, i as nat),
            texts(open_fields@) == unconstrained(pre@, post@, variant_views(vs@), *h, i as nat),
    {
        let f = &post.fields[i];
        match find_post_value(pre, vs, h, f) {
            Some(v) => {
                args.push(v);
            },
            None => {
                open_fields.push(f.name.clone());
                args.push(ty_default_literal(&f.ty).to_owned());
            },
        }
    }
    if open_fields.len() > 0 {
        let joined = join(&open_fields, ", ");
        out.push_str("  -- todo!(): post-variant `");
        out.push_str(post.tag);
        out.push_str("` has unconstrained field(s) not derivable from spec: ");
        out.push_str(&joined);
        out.push_str("\n");
        out.push_str("  -- Using type defaults; add effects or handler params to constrain these.\n");
    }
    out.push_str("  match s with\n");
    let mut alias = String::new();
    match handler_auth_name(h) {
        Some(who) => {
            if find_field(pre.fields, who).is_none() {
                let name = safe_name(who);
                alias.push_str("    let ");
                alias.push_str(&name);
                alias.push_str(" := signer");
                alias.push_str("\n");
            }
        },
        None => {},
    }
    let conds = build_adt_conds(pre, vs, h);
    let pat = bind_variant(pre);
    let mut ctor = ".".to_owned();
    ctor.push_str(post.tag);
    if args.len() > 0 {
        let joined = join(&args, " ");
        ctor.push_str(" ");
        ctor.push_str(&joined);
    }
    emit_adt_case(out, &pat, &alias, &conds, &ctor);
    out.push_str("  | _ => none\n\n");
}

/// The transition function of a handler on the inductive state. A handler
/// without a declared transition, or with one that names no variant, rejects.
#[verifier::opaque]
pub open spec fn adt_transition_text(vs: Seq<VariantV>, h: HandlerMir) -> Seq<char> {
    transition_head(h) + (match h.transition {
        None => "  -- todo!(): handler has no declared pre-variant; emitting structural rejection.\n"@
            + "  none\n\n"@,
        Some((pre, post)) => match variant_at(vs, pre@, 0) {
            None => "  -- todo!(): unknown pre-variant `"@ + pre@ + "` in spec\n  none\n\n"@,
            Some(i) => match variant_at(vs, post@, 0) {
                None => "  -- todo!(): unknown post-variant `"@ + post@ + "` in spec\n  none\n\n"@,
                Some(j) => adt_body(vs[i], vs[j], vs, h),
            },
        },
    })
}

fn emit_handler_transition_adt(out: &mut String, sc: &Scope, h: &HandlerMir)
    ensures
        final(out)@ == old(out)@ + adt_transition_text(sc@.variants, *h),
{
    proof {
        reveal(adt_transition_text);
    }
    emit_transition_head(out, h);
    match &h.transition {
        None => {
            out.push_str(
                "  -- todo!(): handler has no declared pre-variant; emitting structural rejection.\n",
            );
            out.push_str("  none\n\n");
        },
        Some((pre, post)) => {
            match find_variant(&sc.variants, pre) {
                None => {
                    out.push_str("  -- todo!(): unknown pre-variant `");
                    out.push_str(pre);
                    out.push_str("` in spec\n  none\n\n");
                },
                Some(i) => {
                    match find_variant(&sc.variants, post) {
                        None => {
                            out.push_str("  -- todo!(): unknown post-variant `");
                            out.push_str(post);
                            out.push_str("` in spec\n  none\n\n");
                        },
                        Some(j) => {
                            emit_adt_body(out, &sc.variants[i], &sc.variants[j], &sc.variants, h);
                        },
                    }
                },
            }
        },
    }
}

pub open spec fn adt_transitions_upto(sc: ScopeV, n: nat) -> Seq<char>
    decreases n,
{
    if n == 0 {
        Seq::empty()
    } else {
        adt_transitions_upto(sc, (n - 1) as nat) + adt_transition_text(
            sc.variants,
            sc.handlers[n - 1],
        )
    }
}

/// One transition function for each handler, on the inductive state.
pub open spec fn adt_transitions_text(sc: ScopeV) -> Seq<char> {
    adt_transitions_upto(sc, sc.handlers.len())
}

pub fn emit_transitions_adt(out: &mut String, sc: &Scope)
    ensures
        final(out)@ == old(out)@ + adt_transitions_text(sc@),
{
    for i in 0..sc.handlers.len()
        invariant
            out@ == old(out)@ + adt_transitions_upto(sc@, i as nat),
    {
        emit_handler_transition_adt(out, sc, sc.handlers[i]);
    }
}

} // verus!
