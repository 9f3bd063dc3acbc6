//! What a handler checks and what it writes.
use vstd::prelude::*;

use crate::lean::base::{
    auth_text, dotted_path, dotted_text, handler_auth_name, is_account_pubkey_ref, is_pubkey_ref,
    max_text, mentions_handler_account_pubkey, mentions_pubkey, path_field, path_field_name,
    safe_name, safe_text, ty_max_const,
};
use crate::lean::scope::{
    field_ty, find_field_ref, find_variant, flat_fields, flat_state_fields, has_field, refs,
    variant_at, variant_views, Scope, ScopeV, VariantRef, VariantV,
};
use crate::mir::{lean_of, AccountBindingShape, Expr, FieldDecl, HandlerMir, Path, Stmt};
use crate::search::{contains, contains_text};
use crate::text::{join, join_text, texts};

verus! {

broadcast use {crate::text::group_text, crate::text::texts_index, crate::text::texts_len};

// ---------------------------------------------------------------------------
// Statements
// ---------------------------------------------------------------------------

/// The kinds of update.
#[derive(Debug, Clone, Copy, PartialEq, Eq, Structural)]
pub enum Update {
    Put,
    Add,
    Sub,
}

/// The path, the kind and the value of an update.
pub open spec fn update_of(s: Stmt) -> Option<(Path, Update, Expr)> {
    match s {
        Stmt::Assign { path, rhs } => Some((path, Update::Put, rhs)),
        Stmt::CheckedAdd { path, delta, .. } => Some((path, Update::Add, delta)),
        Stmt::WrapAdd { path, delta } => Some((path, Update::Add, delta)),
        Stmt::SatAdd { path, delta } => Some((path, Update::Add, delta)),
        Stmt::CheckedSub { path, delta, .. } => Some((path, Update::Sub, delta)),
        Stmt::WrapSub { path, delta } => Some((path, Update::Sub, delta)),
        Stmt::SatSub { path, delta } => Some((path, Update::Sub, delta)),
        _ => None,
    }
}

/// The path, the kind and the value of an update.
pub fn get_update<'a>(s: &'a Stmt) -> (r: Option<(&'a Path, Update, &'a Expr)>)
    ensures
        match r {
            Some(u) => update_of(*s) == Some((*u.0, u.1, *u.2)),
            None => update_of(*s) is None,
        },
{
    match s {
        Stmt::Assign { path, rhs } => Some((path, Update::Put, rhs)),
        Stmt::CheckedAdd { path, delta, .. } => Some((path, Update::Add, delta)),
        Stmt::WrapAdd { path, delta } => Some((path, Update::Add, delta)),
        Stmt::SatAdd { path, delta } => Some((path, Update::Add, delta)),
        Stmt::CheckedSub { path, delta, .. } => Some((path, Update::Sub, delta)),
        Stmt::WrapSub { path, delta } => Some((path, Update::Sub, delta)),
        Stmt::SatSub { path, delta } => Some((path, Update::Sub, delta)),
        _ => None,
    }
}

// ---------------------------------------------------------------------------
// Guards
// ---------------------------------------------------------------------------

/// The signer is the account that a field of the state names.
pub open spec fn auth_conds(fs: Seq<FieldDecl>, h: HandlerMir) -> Seq<Seq<char>> {
    match auth_text(h) {
        Some(who) => if has_field(fs, who) {
            seq!["signer = s."@ + safe_text(who)]
        } else {
            Seq::empty()
        },
        None => Seq::empty(),
    }
}

/// With the lifecycle gate, where the state carries a marker.
pub open spec fn with_status_cond(
    acc: Seq<Seq<char>>,
    marker: bool,
    h: HandlerMir,
) -> Seq<Seq<char>> {
    match h.transition {
        Some(t) => if marker {
            acc.push("s.status = ."@ + safe_text(t.0@))
        } else {
            acc
        },
        None => acc,
    }
}

/// Whether the field is an unsigned number.
pub open spec fn field_max(fs: Seq<FieldDecl>, name: Seq<char>) -> Option<Seq<char>> {
    match field_ty(fs, name) {
        Some(ty) => max_text(ty),
        None => None,
    }
}

/// The greatest value of an unsigned field.
pub fn find_field_max(fs: &Vec<&FieldDecl>, name: &str) -> (r: Option<&'static str>)
    ensures
        match r {
            Some(m) => field_max(refs(fs@), name@) == Some(m@),
            None => field_max(refs(fs@), name@) is None,
        },
{
    match find_field_ref(fs, name) {
        Some(i) => ty_max_const(&fs[i].ty),
        None => None,
    }
}

/// With a guard against underflow for each subtraction from an unsigned field
/// among the first `n` statements.
pub open spec fn with_sub_conds(
    acc: Seq<Seq<char>>,
    fs: Seq<FieldDecl>,
    stmts: Seq<Stmt>,
    n: nat,
) -> Seq<Seq<char>>
    decreases n,
{
    if n == 0 {
        acc
    } else {
        let before = with_sub_conds(acc, fs, stmts, (n - 1) as nat);
        match update_of(stmts[n - 1]) {
            Some((path, Update::Sub, delta)) => if field_max(fs, path_field(path)) is Some {
                before.push(lean_of(delta) + " ≤ s."@ + safe_text(path_field(path)))
            } else {
                before
            },
            _ => before,
        }
    }
}

/// With each precondition that names an error, but for those that speak of the
/// public key of an account.
pub open spec fn with_require_conds(
    acc: Seq<Seq<char>>,
    accounts: Seq<AccountBindingShape>,
    stmts: Seq<Stmt>,
    n: nat,
) -> Seq<Seq<char>>
    decreases n,
{
    if n == 0 {
        acc
    } else {
        let before = with_require_conds(acc, accounts, stmts, (n - 1) as nat);
        match stmts[n - 1] {
            Stmt::RequireOrAbort { pred, .. } => if mentions_pubkey(pred.0.lean@, accounts) {
                before
            } else {
                before.push(pred.0.lean@)
            },
            _ => before,
        }
    }
}

/// Whether one of the conditions holds the text.
pub open spec fn some_contains(parts: Seq<Seq<char>>, needle: Seq<char>) -> bool {
    exists|i: int| 0 <= i < parts.len() && contains_text(#[trigger] parts[i], needle)
}

/// With a guard against overflow for each addition to an unsigned field among
/// the first `n` statements, unless a condition speaks of that sum already.
pub open spec fn with_add_conds(
    acc: Seq<Seq<char>>,
    fs: Seq<FieldDecl>,
    stmts: Seq<Stmt>,
    n: nat,
) -> Seq<Seq<char>>
    decreases n,
{
    if n == 0 {
        acc
    } else {
        let before = with_add_conds(acc, fs, stmts, (n - 1) as nat);
        match update_of(stmts[n - 1]) {
            Some((path, Update::Add, delta)) => match field_max(fs, path_field(path)) {
                Some(max) => {
                    let sf = safe_text(path_field(path));
                    let sum = "s."@ + sf + " + "@ + lean_of(delta);
                    let mirrored = lean_of(delta) + " + s."@ + sf;
                    if some_contains(before, sum) || some_contains(before, mirrored) {
                        before
                    } else {
                        before.push(sum + " ≤ "@ + max)
                    }
                },
                None => before,
            },
            _ => before,
        }
    }
}

/// The conditions under which a handler runs, on the flat state: the signer,
/// the lifecycle gate, the underflow guards, the preconditions and the
/// overflow guards, in this order.
pub open spec fn guard_parts(sc: ScopeV, h: HandlerMir) -> Seq<Seq<char>> {
    let fs = flat_fields(sc.variants);
    let stmts = h.body.stmts@;
    let a = with_status_cond(auth_conds(fs, h), sc.has_marker(), h);
    let b = with_sub_conds(a, fs, stmts, stmts.len());
    let c = with_require_conds(b, h.accounts@, stmts, stmts.len());
    with_add_conds(c, fs, stmts, stmts.len())
}

fn any_contains(parts: &Vec<String>, needle: &str) -> (r: bool)
    ensures
        r == some_contains(texts(parts@), needle@),
{
    for i in 0..parts.len()
        invariant
            forall|k: int|
                0 <= k < i ==> !contains_text(#[trigger] texts(parts@)[k], needle@),
    {
        if contains(&parts[i], needle) {
            proof {
                assert(contains_text(texts(parts@)[i as int], needle@));
            }
            return true;
        }
    }
    false
}

/// The conditions under which a handler runs, on the flat state.
pub fn build_guard_cond_parts(sc: &Scope, h: &HandlerMir) -> (r: Vec<String>)
    ensures
        texts(r@) == guard_parts(sc@, *h),
{
    let mut conds: Vec<String> = Vec::new();
    let fields = flat_state_fields(&sc.variants);
    let ghost fs = flat_fields(sc@.variants);
    let ghost stmts = h.body.stmts@;
    match handler_auth_name(h) {
        Some(who) => {
            if find_field_ref(&fields, who).is_some() {
                let name = safe_name(who);
                let mut c = "signer = s.".to_owned();
                c.push_str(&name);
                conds.push(c);
            }
        },
        None => {},
    }
    match &h.transition {
        Some(t) => {
            if sc.lifecycle.len() >= 2 {
                let name = safe_name(&t.0);
                let mut c = "s.status = .".to_owned();
                c.push_str(&name);
                conds.push(c);
            }
        },
        None => {},
    }
    let ghost a = with_status_cond(auth_conds(fs, *h), sc@.has_marker(), *h);
    for i in 0..h.body.stmts.len()
        invariant
            refs(fields@) == fs,
            stmts == h.body.stmts@,
            texts(conds@) == with_sub_conds(a, fs, stmts, i as nat),
    {
        match get_update(&h.body.stmts[i]) {
            Some((path, Update::Sub, delta)) => {
                let field = path_field_name(path);
                if find_field_max(&fields, &field).is_some() {
                    let name = safe_name(&field);
                    let mut c = delta.lean_form().clone();
                    c.push_str(" ≤ s.");
                    c.push_str(&name);
                    conds.push(c);
                }
            },
            _ => {},
        }
    }
    let ghost b = with_sub_conds(a, fs, stmts, stmts.len());
    for i in 0..h.body.stmts.len()
        invariant
            stmts == h.body.stmts@,
            texts(conds@) == with_require_conds(b, h.accounts@, stmts, i as nat),
    {
        match &h.body.stmts[i] {
            Stmt::RequireOrAbort { pred, .. } => {
                if !mentions_handler_account_pubkey(&pred.0.lean, &h.accounts) {
                    conds.push(pred.0.lean.clone());
                }
            },
            _ => {},
        }
    }
    let ghost c0 = with_require_conds(b, h.accounts@, stmts, stmts.len());
    for i in 0..h.body.stmts.len()
        invariant
            refs(fields@) == fs,
            stmts == h.body.stmts@,
            texts(conds@) == with_add_conds(c0, fs, stmts, i as nat),
    {
        match get_update(&h.body.stmts[i]) {
            Some((path, Update::Add, delta)) => {
                let field = path_field_name(path);
                match find_field_max(&fields, &field) {
                    Some(max) => {
                        let sf = safe_name(&field);
                        let mut sum = "s.".to_owned();
                        sum.push_str(&sf);
                        sum.push_str(" + ");
                        sum.push_str(delta.lean_form());
                        let mut mirrored = delta.lean_form().clone();
                        mirrored.push_str(" + s.");
                        mirrored.push_str(&sf);
                        if !any_contains(&conds, &sum) && !any_contains(&conds, &mirrored) {
                            sum.push_str(" ≤ ");
                            sum.push_str(max);
                            conds.push(sum);
                        }
                    },
                    None => {},
                }
            },
            _ => {},
        }
    }
    conds
}

// ---------------------------------------------------------------------------
// Writes
// ---------------------------------------------------------------------------

/// The record updates of the first `n` statements. An assignment of an
/// account's public key has no meaning in Lean and is left out.
pub open spec fn write_parts(stmts: Seq<Stmt>, n: nat) -> Seq<Seq<char>>
    decreases n,
{
    if n == 0 {
        Seq::empty()
    } else {
        let before = write_parts(stmts, (n - 1) as nat);
        match update_of(stmts[n - 1]) {
            Some((path, Update::Put, rhs)) => if is_pubkey_ref(rhs.rust@) {
                before
            } else {
                before.push(safe_text(path_field(path)) + " := "@ + lean_of(rhs))
            },
            Some((path, Update::Add, delta)) => {
                let f = safe_text(path_field(path));
                before.push(f + " := s."@ + f + " + "@ + lean_of(delta))
            },
            Some((path, Update::Sub, delta)) => {
                let f = safe_text(path_field(path));
                before.push(f + " := s."@ + f + " - "@ + lean_of(delta))
            },
            None => before,
        }
    }
}

/// With the change of the lifecycle marker.
pub open spec fn with_status_write(
    acc: Seq<Seq<char>>,
    marker: bool,
    h: HandlerMir,
) -> Seq<Seq<char>> {
    match h.transition {
        Some(t) => if marker {
            acc.push("status := ."@ + safe_text(t.1@))
        } else {
            acc
        },
        None => acc,
    }
}

/// The result of a transition: the state with the given updates.
pub open spec fn some_state_text(parts: Seq<Seq<char>>) -> Seq<char> {
    if parts.len() == 0 {
        "some s"@
    } else {
        "some { s with "@ + join_text(parts, ", "@) + " }"@
    }
}

pub fn some_state(parts: &Vec<String>) -> (r: String)
    ensures
        r@ == some_state_text(texts(parts@)),
{
    if parts.len() == 0 {
        "some s".to_owned()
    } else {
        let joined = join(parts, ", ");
        let mut out = "some { s with ".to_owned();
        out.push_str(&joined);
        out.push_str(" }");
        out
    }
}

/// The record updates of a handler, on the flat state.
pub fn flat_writes(sc: &Scope, h: &HandlerMir) -> (r: Vec<String>)
    ensures
        texts(r@) == with_status_write(
            write_parts(h.body.stmts@, h.body.stmts@.len()),
            sc@.has_marker(),
            *h,
        ),
{
    let mut parts: Vec<String> = Vec::new();
    for i in 0..h.body.stmts.len()
        invariant
            texts(parts@) == write_parts(h.body.stmts@, i as nat),
    {
        match get_update(&h.body.stmts[i]) {
            Some((path, Update::Put, rhs)) => {
                if !is_account_pubkey_ref(&rhs.rust) {
                    let field = path_field_name(path);
                    let mut p = safe_name(&field);
                    p.push_str(" := ");
                    p.push_str(rhs.lean_form());
                    parts.push(p);
                }
            },
            Some((path, Update::Add, delta)) => {
                let field = path_field_name(path);
                let f = safe_name(&field);
                let mut p = f.clone();
                p.push_str(" := s.");
                p.push_str(&f);
                p.push_str(" + ");
                p.push_str(delta.lean_form());
                parts.push(p);
            },
            Some((path, Update::Sub, delta)) => {
                let field = path_field_name(path);
                let f = safe_name(&field);
                let mut p = f.clone();
                p.push_str(" := s.");
                p.push_str(&f);
                p.push_str(" - ");
                p.push_str(delta.lean_form());
                parts.push(p);
            },
            None => {},
        }
    }
    match &h.transition {
        Some(t) => {
            if sc.lifecycle.len() >= 2 {
                let name = safe_name(&t.1);
                let mut p = "status := .".to_owned();
                p.push_str(&name);
                parts.push(p);
            }
        },
        None => {},
    }
    parts
}

// ---------------------------------------------------------------------------
// Paths into variants
// ---------------------------------------------------------------------------

/// A path without the tag of a variant at its head.
pub open spec fn stripped_path(p: Path, vs: Seq<VariantV>) -> Seq<char> {
    if p@.len() >= 2 && variant_at(vs, p@[0], 0) is Some {
        join_text(p@.drop_first(), "."@)
    } else {
        dotted_text(p)
    }
}

/// A path without the tag of a variant at its head.
pub fn strip_variant_prefix(p: &Path, vs: &Vec<VariantRef>) -> (r: String)
    ensures
        r@ == stripped_path(*p, variant_views(vs@)),
{
    if p.segments.len() >= 2 {
        if find_variant(vs, &p.segments[0]).is_some() {
            let mut tail: Vec<String> = Vec::new();
            let n: usize = p.segments.len();
            for i in 1..n
                invariant
                    n == p.segments@.len(),
                    n >= 2,
                    texts(tail@) == p@.subrange(1, i as int),
            {
                tail.push(p.segments[i].clone());
                proof {
                    assert(p@.subrange(1, i + 1) =~= p@.subrange(1, i as int).push(p@[i as int]));
                }
            }
            proof {
                assert(p@.subrange(1, n as int) =~= p@.drop_first());
            }
            return join(&tail, ".");
        }
    }
    dotted_path(p)
}

} // verus!
