//! Programs with several account types: one section for each, under names of
//! its own.
use vstd::prelude::*;

use crate::lean::aborts::{aborts_text, emit_aborts_if};
use crate::lean::base::RULE;
use crate::lean::covers::{covers_heading, covers_text, emit_covers};
use crate::lean::cpi::{cpi_text, emit_cpi_theorems};
use crate::lean::environment::{
    emit_environments_heading, emit_envs, environments_heading, envs_text,
};
use crate::lean::liveness::{emit_lives, liveness_heading, lives_text, APPLY_OPS};
use crate::lean::overflow::{emit_overflow, overflow_text};
use crate::lean::properties::{
    emit_ensures, emit_frame_conditions, emit_properties, ensures_text, frames_text,
    properties_text,
};
use crate::lean::scope::{
    declared_variants, refer_variants, refs, variant_views, Scope, ScopeV, VariantRef, VariantV,
};
use crate::lean::structure::{
    close_text, constants_text, emit_constants, emit_lifecycle_marker, emit_namespace_close,
    emit_namespace_open, emit_operation_inductive, emit_ref_impls, emit_state_struct,
    emit_uninterpreted_helpers, helpers_text, marker_text, open_text, operations_text,
    ref_impls_text, state_text, HEADER,
};
use crate::lean::transition::{emit_transitions, flat_transitions_text};
use crate::mir::{
    AccountStateMir, CoverMir, FieldDecl, HandlerMir, InvariantMir, LivenessMir, Mir, PropertyMir,
    Symbol,
};
use crate::names::{with_entry, NameMap};
use crate::pattern::{contains_string, has_text, pattern_replaced, replace_pattern};
use crate::search::{contains, contains_text, starts_with, starts_with_text};
use crate::split::{lines, lines_text};
use crate::text::{join, join_text, same, texts};

verus! {

broadcast use {crate::text::group_text, crate::text::texts_index, crate::text::texts_len};

// ---------------------------------------------------------------------------
// Names
// ---------------------------------------------------------------------------

/// The text with the names of the state machine under the name of an account.
#[verifier::opaque]
pub open spec fn renamed(text: Seq<char>, account: Seq<char>) -> Seq<char> {
    let a = pattern_replaced("\\bapplyOps\\b"@, text, "apply"@ + account + "Ops"@);
    let b = pattern_replaced("\\bapplyOp\\b"@, a, "apply"@ + account + "Op"@);
    let c = pattern_replaced("\\bOperation\\b"@, b, account + "Operation"@);
    let d = pattern_replaced("\\bStatus\\b"@, c, account + "Status"@);
    pattern_replaced("\\bState\\b"@, d, account + "State"@)
}

/// Puts the names of the state machine under the name of an account.
pub fn rename_state_idents(text: &str, account: &str) -> (r: String)
    ensures
        r@ == renamed(text@, account@),
{
    proof {
        reveal(renamed);
    }
    let mut ops = "apply".to_owned();
    ops.push_str(account);
    ops.push_str("Ops");
    let mut op = "apply".to_owned();
    op.push_str(account);
    op.push_str("Op");
    let mut operation = account.to_owned();
    operation.push_str("Operation");
    let mut status = account.to_owned();
    status.push_str("Status");
    let mut state = account.to_owned();
    state.push_str("State");
    let a = replace_pattern("\\bapplyOps\\b", text, &ops);
    let b = replace_pattern("\\bapplyOp\\b", &a, &op);
    let c = replace_pattern("\\bOperation\\b", &b, &operation);
    let d = replace_pattern("\\bStatus\\b", &c, &status);
    replace_pattern("\\bState\\b", &d, &state)
}

// ---------------------------------------------------------------------------
// Scopes
// ---------------------------------------------------------------------------

/// Whether a handler belongs to an account. Handlers that name none belong to
/// the first account.
pub open spec fn owns(mir: Mir, account: Seq<char>, h: HandlerMir) -> bool {
    match h.on_account {
        Some(name) => name@ == account,
        None => mir.account_states@.len() > 0 && mir.account_states@[0].name@ == account,
    }
}

/// The handlers among the first `n` that belong to an account.
pub open spec fn owned_upto(mir: Mir, account: Seq<char>, n: nat) -> Seq<HandlerMir>
    decreases n,
{
    if n == 0 {
        Seq::empty()
    } else {
        let before = owned_upto(mir, account, (n - 1) as nat);
        if owns(mir, account, mir.handlers@[n - 1]) {
            before.push(mir.handlers@[n - 1])
        } else {
            before
        }
    }
}

/// The handlers of an account.
pub open spec fn owned(mir: Mir, account: Seq<char>) -> Seq<HandlerMir> {
    owned_upto(mir, account, mir.handlers@.len())
}

/// The variants of an account: as declared, or one with its fields.
pub open spec fn account_variants(a: AccountStateMir) -> Seq<VariantV> {
    if a.variants@.len() > 0 {
        declared_variants(a.variants@)
    } else {
        seq![VariantV { tag: a.name@, fields: a.fields@ }]
    }
}

/// The part of a program that belongs to one account, with the given claims.
pub open spec fn account_scope(
    mir: Mir,
    a: AccountStateMir,
    properties: Seq<PropertyMir>,
    covers: Seq<CoverMir>,
    liveness: Seq<LivenessMir>,
) -> ScopeV {
    ScopeV {
        variants: account_variants(a),
        lifecycle: texts(a.lifecycle_states@),
        imports: mir.imports@,
        handlers: owned(mir, a.name@),
        properties,
        covers,
        liveness,
        environments: mir.environments@,
        constants: Seq::empty(),
    }
}

proof fn refs_push<T>(s: Seq<&T>, x: &T)
    ensures
        refs(s.push(x)) == refs(s).push(*x),
{
    assert(refs(s.push(x)) =~= refs(s).push(*x));
}

proof fn refs_empty<T>()
    ensures
        refs(Seq::<&T>::empty()) == Seq::<T>::empty(),
{
    assert(refs(Seq::<&T>::empty()) =~= Seq::<T>::empty());
}

fn owned_handlers<'a>(mir: &'a Mir, account: &str) -> (r: Vec<&'a HandlerMir>)
    ensures
        refs(r@) == owned(*mir, account@),
{
    let primary: bool = mir.account_states.len() > 0 && same(
        &mir.account_states[0].name,
        account,
    );
    let mut out: Vec<&'a HandlerMir> = Vec::new();
    proof {
        refs_empty::<HandlerMir>();
    }
    for i in 0..mir.handlers.len()
        invariant
            primary == (mir.account_states@.len() > 0 && mir.account_states@[0].name@ == account@),
            refs(out@) == owned_upto(*mir, account@, i as nat),
    {
        let mine: bool = match &mir.handlers[i].on_account {
            Some(name) => same(name, account),
            None => primary,
        };
        if mine {
            proof {
                refs_push(out@, &mir.handlers@[i as int]);
            }
            out.push(&mir.handlers[i]);
        }
    }
    out
}

/// The part of a program that belongs to one account.
fn scope_to_account<'a>(
    mir: &'a Mir,
    a: &'a AccountStateMir,
    properties: Vec<&'a PropertyMir>,
    covers: Vec<&'a CoverMir>,
    liveness: Vec<&'a LivenessMir>,
) -> (r: Scope<'a>)
    ensures
        r@ == account_scope(*mir, *a, refs(properties@), refs(covers@), refs(liveness@)),
{
    let variants: Vec<VariantRef<'a>> = if a.variants.len() > 0 {
        refer_variants(&a.variants)
    } else {
        let mut one: Vec<VariantRef<'a>> = Vec::new();
        one.push(VariantRef { tag: &a.name, fields: &a.fields });
        proof {
            assert(variant_views(one@) =~= account_variants(*a));
        }
        one
    };
    proof {
        refs_empty::<(Symbol, String)>();
    }
    Scope {
        variants,
        lifecycle: &a.lifecycle_states,
        imports: &mir.imports,
        handlers: owned_handlers(mir, &a.name),
        properties,
        covers,
        liveness,
        environments: &mir.environments,
        constants: Vec::new(),
    }
}

// ---------------------------------------------------------------------------
// Properties by account
// ---------------------------------------------------------------------------

/// Whether an expression reads one of the first `n` fields.
pub open spec fn reads_field(expr: Seq<char>, fs: Seq<FieldDecl>, n: nat) -> bool
    decreases n,
{
    if n == 0 {
        false
    } else {
        reads_field(expr, fs, (n - 1) as nat) || contains_text(expr, "s."@ + fs[n - 1].name@)
    }
}

fn reads_any(expr: &str, fs: &Vec<FieldDecl>) -> (r: bool)
    ensures
        r == reads_field(expr@, fs@, fs@.len()),
{
    let mut found: bool = false;
    for i in 0..fs.len()
        invariant
            found == reads_field(expr@, fs@, i as nat),
    {
        let mut needle = "s.".to_owned();
        needle.push_str(&fs[i].name);
        if contains(expr, &needle) {
            found = true;
        }
    }
    found
}

/// The first account from `from` on of which an expression reads a field.
pub open spec fn reader_at(accounts: Seq<AccountStateMir>, expr: Seq<char>, from: int) -> Option<
    int,
>
    decreases accounts.len() - from,
{
    if from < 0 || from >= accounts.len() {
        None
    } else if reads_field(expr, accounts[from].fields@, accounts[from].fields@.len()) {
        Some(from)
    } else {
        reader_at(accounts, expr, from + 1)
    }
}

/// The account that a property belongs to: the first of which it reads a field,
/// or else the first.
pub open spec fn property_account(mir: Mir, p: PropertyMir) -> Seq<char> {
    match p.expression {
        Some(e) => match reader_at(mir.account_states@, e.lean@, 0) {
            Some(i) => mir.account_states@[i].name@,
            None => mir.account_states@[0].name@,
        },
        None => mir.account_states@[0].name@,
    }
}

fn find_property_account<'a>(mir: &'a Mir, p: &PropertyMir) -> (r: &'a String)
    requires
        mir.account_states@.len() > 0,
    ensures
        r@ == property_account(*mir, *p),
{
    match &p.expression {
        Some(e) => {
            let mut i: usize = 0;
            while i < mir.account_states.len()
                invariant
                    p.expression is Some,
                    p.expression->0 == *e,
                    i <= mir.account_states@.len(),
                    reader_at(mir.account_states@, e.lean@, 0) == reader_at(
                        mir.account_states@,
                        e.lean@,
                        i as int,
                    ),
                decreases mir.account_states@.len() - i,
            {
                if reads_any(&e.lean, &mir.account_states[i].fields) {
                    return &mir.account_states[i].name;
                }
                i = i + 1;
            }
            &mir.account_states[0].name
        },
        None => &mir.account_states[0].name,
    }
}

/// The properties among the first `n` that belong to an account.
pub open spec fn properties_of_upto(mir: Mir, account: Seq<char>, n: nat) -> Seq<PropertyMir>
    decreases n,
{
    if n == 0 {
        Seq::empty()
    } else {
        let before = properties_of_upto(mir, account, (n - 1) as nat);
        if property_account(mir, mir.properties@[n - 1]) == account {
            before.push(mir.properties@[n - 1])
        } else {
            before
        }
    }
}

/// The properties of an account.
pub open spec fn properties_of(mir: Mir, account: Seq<char>) -> Seq<PropertyMir> {
    properties_of_upto(mir, account, mir.properties@.len())
}

fn account_properties<'a>(mir: &'a Mir, account: &str) -> (r: Vec<&'a PropertyMir>)
    requires
        mir.account_states@.len() > 0,
    ensures
        refs(r@) == properties_of(*mir, account@),
{
    let mut out: Vec<&'a PropertyMir> = Vec::new();
    proof {
        refs_empty::<PropertyMir>();
    }
    for i in 0..mir.properties.len()
        invariant
            mir.account_states@.len() > 0,
            refs(out@) == properties_of_upto(*mir, account@, i as nat),
    {
        let owner = find_property_account(mir, &mir.properties[i]);
        if same(owner, account) {
            proof {
                refs_push(out@, &mir.properties@[i as int]);
            }
            out.push(&mir.properties[i]);
        }
    }
    out
}

/// Every property belongs to the account that it is listed under, and to no
/// other.
pub proof fn properties_have_one_account(mir: Mir, account: Seq<char>, n: nat)
    requires
        n <= mir.properties@.len(),
    ensures
        forall|i: int|
            0 <= i < properties_of_upto(mir, account, n).len() ==> property_account(
                mir,
                #[trigger] properties_of_upto(mir, account, n)[i],
            ) == account,
    decreases n,
{
    if n > 0 {
        properties_have_one_account(mir, account, (n - 1) as nat);
        let before = properties_of_upto(mir, account, (n - 1) as nat);
        let now = properties_of_upto(mir, account, n);
        assert forall|i: int| 0 <= i < now.len() implies property_account(mir, #[trigger] now[i])
            == account by {
            if i < before.len() {
                assert(now[i] == before[i]);
            }
        }
    }
}

/// The accounts that the first `n` properties belong to, in the order of their
/// names.
pub open spec fn property_accounts(mir: Mir, n: nat) -> Seq<(Seq<char>, bool)>
    decreases n,
{
    if n == 0 {
        Seq::empty()
    } else {
        with_entry(
            property_accounts(mir, (n - 1) as nat),
            property_account(mir, mir.properties@[n - 1]),
            true,
        )
    }
}

/// The first account from `from` on that has the name.
pub open spec fn account_at(accounts: Seq<AccountStateMir>, name: Seq<char>, from: int) -> Option<
    int,
>
    decreases accounts.len() - from,
{
    if from < 0 || from >= accounts.len() {
        None
    } else if accounts[from].name@ == name {
        Some(from)
    } else {
        account_at(accounts, name, from + 1)
    }
}

fn find_account(accounts: &Vec<AccountStateMir>, name: &str) -> (r: Option<usize>)
    ensures
        match r {
            Some(i) => i < accounts@.len() && account_at(accounts@, name@, 0) == Some(i as int),
            None => account_at(accounts@, name@, 0) is None,
        },
{
    let mut i: usize = 0;
    while i < accounts.len()
        invariant
            i <= accounts@.len(),
            account_at(accounts@, name@, 0) == account_at(accounts@, name@, i as int),
        decreases accounts@.len() - i,
    {
        if same(&accounts[i].name, name) {
            return Some(i);
        }
        i = i + 1;
    }
    None
}

/// The section of the properties of one account.
pub open spec fn account_properties_text(mir: Mir, name: Seq<char>) -> Seq<char> {
    match account_at(mir.account_states@, name, 0) {
        Some(i) => renamed(
            properties_text(
                account_scope(
                    mir,
                    mir.account_states@[i],
                    properties_of(mir, name),
                    Seq::empty(),
                    Seq::empty(),
                ),
            ),
            mir.account_states@[i].name@,
        ),
        None => Seq::empty(),
    }
}

pub open spec fn multi_properties_upto(mir: Mir, names: Seq<(Seq<char>, bool)>, n: nat) -> Seq<char>
    decreases n,
{
    if n == 0 {
        Seq::empty()
    } else {
        multi_properties_upto(mir, names, (n - 1) as nat) + account_properties_text(
            mir,
            names[n - 1].0,
        )
    }
}

/// The properties, by account, in the order of the names of the accounts.
#[verifier::opaque]
pub open spec fn multi_properties_text(mir: Mir) -> Seq<char> {
    let names = property_accounts(mir, mir.properties@.len());
    multi_properties_upto(mir, names, names.len())
}

fn emit_properties_multi(out: &mut String, mir: &Mir)
    requires
        mir.account_states@.len() > 0,
    ensures
        final(out)@ == old(out)@ + multi_properties_text(*mir),
{
    proof {
        reveal(multi_properties_text);
    }
    let mut names: NameMap<bool> = NameMap::new();
    for i in 0..mir.properties.len()
        invariant
            mir.account_states@.len() > 0,
            names@ == property_accounts(*mir, i as nat),
    {
        let owner = find_property_account(mir, &mir.properties[i]);
        names.insert(owner.clone(), true);
    }
    let n: usize = names.len();
    for i in 0..n
        invariant
            mir.account_states@.len() > 0,
            n == names@.len(),
            out@ == old(out)@ + multi_properties_upto(*mir, names@, i as nat),
    {
        let name = names.key(i);
        match find_account(&mir.account_states, name) {
            Some(k) => {
                let a = &mir.account_states[k];
                let props = account_properties(mir, name);
                proof {
                    refs_empty::<CoverMir>();
                    refs_empty::<LivenessMir>();
                }
                let sc = scope_to_account(mir, a, props, Vec::new(), Vec::new());
                let mut block = String::new();
                emit_properties(&mut block, &sc);
                let text = rename_state_idents(&block, &a.name);
                out.push_str(&text);
            },
            None => {},
        }
    }
}

// ---------------------------------------------------------------------------
// Sections by account
// ---------------------------------------------------------------------------

/// The state machine of one account.
pub open spec fn machine_block(sc: ScopeV) -> Seq<char> {
    marker_text(sc) + state_text(sc) + flat_transitions_text(sc) + cpi_text(sc) + operations_text(
        sc,
    )
}

/// The section of the state machine of account `i`; nothing where it has no
/// handlers.
#[verifier::opaque]
pub open spec fn machine_text(mir: Mir, i: int) -> Seq<char> {
    let a = mir.account_states@[i];
    let sc = account_scope(mir, a, Seq::empty(), Seq::empty(), Seq::empty());
    if sc.handlers.len() == 0 {
        Seq::empty()
    } else {
        renamed(machine_block(sc), a.name@)
    }
}

fn emit_machine(out: &mut String, mir: &Mir, i: usize)
    requires
        i < mir.account_states@.len(),
    ensures
        final(out)@ == old(out)@ + machine_text(*mir, i as int),
{
    let a = &mir.account_states[i];
    proof {
        reveal(machine_text);
        refs_empty::<PropertyMir>();
        refs_empty::<CoverMir>();
        refs_empty::<LivenessMir>();
    }
    let sc = scope_to_account(mir, a, Vec::new(), Vec::new(), Vec::new());
    if sc.handlers.len() == 0 {
        return ;
    }
    let mut block = String::new();
    emit_lifecycle_marker(&mut block, &sc);
    emit_state_struct(&mut block, &sc);
    emit_transitions(&mut block, &sc);
    emit_cpi_theorems(&mut block, &sc);
    emit_operation_inductive(&mut block, &sc);
    let text = rename_state_idents(&block, &a.name);
    out.push_str(&text);
}

pub open spec fn machines_upto(mir: Mir, n: nat) -> Seq<char>
    decreases n,
{
    if n == 0 {
        Seq::empty()
    } else {
        machines_upto(mir, (n - 1) as nat) + machine_text(mir, n - 1)
    }
}

/// What is claimed of the handlers of one account.
pub open spec fn claims_block(sc: ScopeV) -> Seq<char> {
    aborts_text(sc, true) + ensures_text(sc) + frames_text(sc) + overflow_text(sc, false)
}

/// The section of the claims of account `i`; nothing where it has no handlers.
#[verifier::opaque]
pub open spec fn claims_text(mir: Mir, i: int) -> Seq<char> {
    let a = mir.account_states@[i];
    let sc = account_scope(mir, a, properties_of(mir, a.name@), Seq::empty(), Seq::empty());
    if sc.handlers.len() == 0 {
        Seq::empty()
    } else {
        renamed(claims_block(sc), a.name@)
    }
}

fn emit_claims(out: &mut String, mir: &Mir, i: usize)
    requires
        i < mir.account_states@.len(),
    ensures
        final(out)@ == old(out)@ + claims_text(*mir, i as int),
{
    let a = &mir.account_states[i];
    let props = account_properties(mir, &a.name);
    proof {
        reveal(claims_text);
        refs_empty::<CoverMir>();
        refs_empty::<LivenessMir>();
    }
    let sc = scope_to_account(mir, a, props, Vec::new(), Vec::new());
    if sc.handlers.len() == 0 {
        return ;
    }
    let mut block = String::new();
    emit_aborts_if(&mut block, &sc, true);
    emit_ensures(&mut block, &sc);
    emit_frame_conditions(&mut block, &sc);
    emit_overflow(&mut block, &sc, false);
    let text = rename_state_idents(&block, &a.name);
    out.push_str(&text);
}

pub open spec fn claims_upto(mir: Mir, n: nat) -> Seq<char>
    decreases n,
{
    if n == 0 {
        Seq::empty()
    } else {
        claims_upto(mir, (n - 1) as nat) + claims_text(mir, n - 1)
    }
}

/// What is said of every invariant of a program with several accounts.
pub const DEFERRED_NOTE: &'static str = "-- v2.14 emits this as a comment; multi-account invariant\n-- bodies (e.g. `forall l : Loan.Active, ...`) need lowering\n-- to typed-state-with-status-filter form. v2.15 picks it up.\n\n";

/// An invariant as a comment.
#[verifier::opaque]
pub open spec fn invariant_comment(inv: InvariantMir) -> Seq<char> {
    "-- INVARIANT OBLIGATION (declared, multi-account translation deferred): "@ + inv.name@ + "\n"@ + (
    match inv.body {
        Some(b) => "--   predicate body: "@ + b.0.lean@ + "\n"@,
        None => Seq::empty(),
    }) + (if inv.doc@.len() == 0 {
        Seq::empty()
    } else {
        "--   description: "@ + inv.doc@ + "\n"@
    }) + DEFERRED_NOTE@
}

pub open spec fn invariant_comments(invs: Seq<InvariantMir>, n: nat) -> Seq<char>
    decreases n,
{
    if n == 0 {
        Seq::empty()
    } else {
        invariant_comments(invs, (n - 1) as nat) + invariant_comment(invs[n - 1])
    }
}

fn emit_invariants_as_comments(out: &mut String, invs: &Vec<InvariantMir>)
    ensures
        final(out)@ == old(out)@ + invariant_comments(invs@, invs@.len()),
{
    for i in 0..invs.len()
        invariant
            out@ == old(out)@ + invariant_comments(invs@, i as nat),
    {
        proof {
            reveal(invariant_comment);
        }
        let inv = &invs[i];
        out.push_str("-- INVARIANT OBLIGATION (declared, multi-account translation deferred): ");
        out.push_str(&inv.name);
        out.push_str("\n");
        match &inv.body {
            Some(b) => {
                out.push_str("--   predicate body: ");
                out.push_str(&b.0.lean);
                out.push_str("\n");
            },
            None => {},
        }
        if !inv.doc.as_str().is_empty() {
            out.push_str("--   description: ");
            out.push_str(&inv.doc);
            out.push_str("\n");
        }
        out.push_str(DEFERRED_NOTE);
    }
}

// ---------------------------------------------------------------------------
// Operations by account
// ---------------------------------------------------------------------------

/// The last handler among the first `n` that has the name.
pub open spec fn last_handler(hs: Seq<HandlerMir>, name: Seq<char>, n: nat) -> Option<int>
    decreases n,
{
    if n == 0 {
        None
    } else if hs[n - 1].name@ == name {
        Some(n - 1)
    } else {
        last_handler(hs, name, (n - 1) as nat)
    }
}

fn find_last_handler(hs: &Vec<HandlerMir>, name: &str) -> (r: Option<usize>)
    ensures
        match r {
            Some(i) => i < hs@.len() && last_handler(hs@, name@, hs@.len()) == Some(i as int),
            None => last_handler(hs@, name@, hs@.len()) is None,
        },
{
    let mut i: usize = hs.len();
    while i > 0
        invariant
            i <= hs@.len(),
            last_handler(hs@, name@, hs@.len()) == last_handler(hs@, name@, i as nat),
        decreases i,
    {
        i = i - 1;
        if same(&hs[i].name, name) {
            return Some(i);
        }
    }
    None
}

/// The account of an operation: the one that its handler names, or else the
/// first; none where it has no handler.
pub open spec fn op_account(mir: Mir, op: Seq<char>) -> Option<Seq<char>> {
    match last_handler(mir.handlers@, op, mir.handlers@.len()) {
        Some(i) => match mir.handlers@[i].on_account {
            Some(a) => Some(a@),
            None => if mir.account_states@.len() > 0 {
                Some(mir.account_states@[0].name@)
            } else {
                None
            },
        },
        None => None,
    }
}

fn find_op_account<'a>(mir: &'a Mir, op: &str) -> (r: Option<&'a String>)
    ensures
        match r {
            Some(a) => op_account(*mir, op@) == Some(a@),
            None => op_account(*mir, op@) is None,
        },
{
    match find_last_handler(&mir.handlers, op) {
        Some(i) => match &mir.handlers[i].on_account {
            Some(a) => Some(a),
            None => if mir.account_states.len() > 0 {
                Some(&mir.account_states[0].name)
            } else {
                None
            },
        },
        None => None,
    }
}

// ---------------------------------------------------------------------------
// Covers
// ---------------------------------------------------------------------------

/// The accounts of the first `n` operations of a trace, each once.
pub open spec fn trace_accounts(mir: Mir, trace: Seq<Seq<char>>, n: nat) -> Seq<Seq<char>>
    decreases n,
{
    if n == 0 {
        Seq::empty()
    } else {
        let before = trace_accounts(mir, trace, (n - 1) as nat);
        match op_account(mir, trace[n - 1]) {
            Some(a) => if has_text(before, a) {
                before
            } else {
                before.push(a)
            },
            None => before,
        }
    }
}

fn count_accounts(mir: &Mir, trace: &Vec<Symbol>) -> (r: usize)
    ensures
        r == trace_accounts(*mir, texts(trace@), trace@.len()).len(),
{
    let mut seen: Vec<String> = Vec::new();
    for i in 0..trace.len()
        invariant
            texts(seen@) == trace_accounts(*mir, texts(trace@), i as nat),
    {
        match find_op_account(mir, &trace[i]) {
            Some(a) => {
                if !contains_string(&seen, a) {
                    seen.push(a.clone());
                }
            },
            None => {},
        }
    }
    seen.len()
}

/// Whether one of the first `n` traces of a cover runs on several accounts.
pub open spec fn spans(mir: Mir, c: CoverMir, n: nat) -> bool
    decreases n,
{
    if n == 0 {
        false
    } else {
        spans(mir, c, (n - 1) as nat) || trace_accounts(
            mir,
            texts(c.traces@[n - 1]@),
            c.traces@[n - 1]@.len(),
        ).len() > 1
    }
}

fn spans_accounts(mir: &Mir, c: &CoverMir) -> (r: bool)
    ensures
        r == spans(*mir, *c, c.traces@.len()),
{
    let mut found: bool = false;
    for i in 0..c.traces.len()
        invariant
            found == spans(*mir, *c, i as nat),
    {
        if count_accounts(mir, &c.traces[i]) > 1 {
            found = true;
        }
    }
    found
}

/// The covers among the first `n` that run on one account.
pub open spec fn kept_covers(mir: Mir, n: nat) -> Seq<CoverMir>
    decreases n,
{
    if n == 0 {
        Seq::empty()
    } else {
        let c = mir.covers@[n - 1];
        let before = kept_covers(mir, (n - 1) as nat);
        if spans(mir, c, c.traces@.len()) {
            before
        } else {
            before.push(c)
        }
    }
}

/// A comment for each cover among the first `n` that runs on several accounts.
pub open spec fn skipped_covers(mir: Mir, n: nat) -> Seq<char>
    decreases n,
{
    if n == 0 {
        Seq::empty()
    } else {
        let c = mir.covers@[n - 1];
        skipped_covers(mir, (n - 1) as nat) + (if spans(mir, c, c.traces@.len()) {
            "-- cover_"@ + c.name@ + ": trace ["@ + if c.traces@.len() > 0 { join_text(texts(c.traces@[0]@), ", "@) } else { Seq::empty() } + "] spans multiple account types, skipped\n\n"@
        } else {
            Seq::empty()
        })
    }
}

/// A line of the heading of the covers, or a blank line before them.
pub open spec fn is_heading(line: Seq<char>) -> bool {
    starts_with_text(line, "-- ==="@) || contains_text(line, "Cover properties"@) || line.len()
        == 0
}

/// The first line from `from` on that does not belong to the heading.
pub open spec fn body_start(ls: Seq<Seq<char>>, from: int) -> int
    decreases ls.len() - from,
{
    if 0 <= from < ls.len() && is_heading(ls[from]) {
        body_start(ls, from + 1)
    } else {
        from
    }
}

/// The covers without their heading, line by line.
pub open spec fn covers_body(text: Seq<char>) -> Seq<char> {
    let ls = lines_text(text);
    join_text(ls.subrange(body_start(ls, 0), ls.len() as int), "\n"@)
}

fn strip_heading(text: &str) -> (r: String)
    ensures
        r@ == covers_body(text@),
{
    let ls = lines(text);
    let ghost all = texts(ls@);
    let mut i: usize = 0;
    while i < ls.len() && (starts_with(&ls[i], "-- ===") || contains(&ls[i], "Cover properties")
        || ls[i].as_str().is_empty())
        invariant
            i <= ls@.len(),
            all == texts(ls@),
            body_start(all, 0) == body_start(all, i as int),
        decreases ls@.len() - i,
    {
        i = i + 1;
    }
    let start: usize = i;
    let mut rest: Vec<String> = Vec::new();
    proof {
        assert(all.subrange(start as int, start as int) =~= Seq::<Seq<char>>::empty());
    }
    while i < ls.len()
        invariant
            start <= i <= ls@.len(),
            all == texts(ls@),
            texts(rest@) == all.subrange(start as int, i as int),
        decreases ls@.len() - i,
    {
        rest.push(ls[i].clone());
        i = i + 1;
        proof {
            assert(all.subrange(start as int, i as int) =~= all.subrange(
                start as int,
                i - 1,
            ).push(all[i - 1]));
        }
    }
    join(&rest, "\n")
}

/// The covers that run on one account, without their heading.
pub open spec fn kept_text(mir: Mir) -> Seq<char> {
    let kept = kept_covers(mir, mir.covers@.len());
    if kept.len() == 0 {
        Seq::empty()
    } else {
        let body = covers_body(
            covers_text(
                account_scope(mir, mir.account_states@[0], Seq::empty(), kept, Seq::empty()),
                false,
            ),
        );
        if body.len() == 0 {
            Seq::empty()
        } else {
            body + "\n"@
        }
    }
}

/// The section of the covers: a comment for each that runs on several accounts,
/// and the theorems of the others on the first account.
#[verifier::opaque]
pub open spec fn multi_covers_text(mir: Mir) -> Seq<char> {
    if mir.covers@.len() == 0 {
        Seq::empty()
    } else {
        covers_heading() + skipped_covers(mir, mir.covers@.len()) + kept_text(mir)
    }
}

fn emit_covers_multi(out: &mut String, mir: &Mir)
    requires
        mir.account_states@.len() > 0,
    ensures
        final(out)@ == old(out)@ + multi_covers_text(*mir),
{
    proof {
        reveal(multi_covers_text);
    }
    if mir.covers.len() == 0 {
        return ;
    }
    out.push_str(RULE);
    out.push_str("-- Cover properties — reachability (existential proofs)\n");
    out.push_str(RULE);
    out.push_str("\n");
    let ghost base = out@;
    let mut kept: Vec<&CoverMir> = Vec::new();
    proof {
        refs_empty::<CoverMir>();
    }
    for i in 0..mir.covers.len()
        invariant
            refs(kept@) == kept_covers(*mir, i as nat),
            out@ == base + skipped_covers(*mir, i as nat),
    {
        let c = &mir.covers[i];
        if spans_accounts(mir, c) {
            out.push_str("-- cover_");
            out.push_str(&c.name);
            out.push_str(": trace [");
            if c.traces.len() > 0 {
                let label = join(&c.traces[0], ", ");
                out.push_str(&label);
            }
            out.push_str("] spans multiple account types, skipped\n\n");
        } else {
            proof {
                refs_push(kept@, &mir.covers@[i as int]);
            }
            kept.push(c);
        }
    }
    if kept.len() > 0 {
        proof {
            refs_empty::<PropertyMir>();
            refs_empty::<LivenessMir>();
        }
        let sc = scope_to_account(mir, &mir.account_states[0], Vec::new(), kept, Vec::new());
        let mut buf = String::new();
        emit_covers(&mut buf, &sc, false);
        let body = strip_heading(&buf);
        if !body.as_str().is_empty() {
            out.push_str(&body);
            out.push_str("\n");
        }
    }
}

// ---------------------------------------------------------------------------
// Liveness
// ---------------------------------------------------------------------------

/// The account of a liveness claim: that of its first operation, or else the
/// first.
pub open spec fn live_account(mir: Mir, l: LivenessMir) -> Seq<char> {
    if l.via_ops@.len() > 0 {
        match last_handler(mir.handlers@, l.via_ops@[0]@, mir.handlers@.len()) {
            Some(i) => match mir.handlers@[i].on_account {
                Some(a) => a@,
                None => mir.account_states@[0].name@,
            },
            None => mir.account_states@[0].name@,
        }
    } else {
        mir.account_states@[0].name@
    }
}

fn find_live_account<'a>(mir: &'a Mir, l: &LivenessMir) -> (r: &'a String)
    requires
        mir.account_states@.len() > 0,
    ensures
        r@ == live_account(*mir, *l),
{
    if l.via_ops.len() > 0 {
        match find_last_handler(&mir.handlers, &l.via_ops[0]) {
            Some(i) => match &mir.handlers[i].on_account {
                Some(a) => {
                    return a;
                },
                None => {},
            },
            None => {},
        }
    }
    &mir.account_states[0].name
}

/// Whether one of the first `n` liveness claims is rendered for the account.
pub open spec fn has_helper(mir: Mir, account: Seq<char>, n: nat) -> bool
    decreases n,
{
    if n == 0 {
        false
    } else {
        has_helper(mir, account, (n - 1) as nat) || (live_account(mir, mir.liveness_props@[n - 1])
            == account && account_at(mir.account_states@, account, 0) is Some)
    }
}

fn helper_emitted(mir: &Mir, account: &str, n: usize) -> (r: bool)
    requires
        mir.account_states@.len() > 0,
        n <= mir.liveness_props@.len(),
    ensures
        r == has_helper(*mir, account@, n as nat),
{
    let known: bool = find_account(&mir.account_states, account).is_some();
    let mut found: bool = false;
    for i in 0..n
        invariant
            mir.account_states@.len() > 0,
            n <= mir.liveness_props@.len(),
            known == account_at(mir.account_states@, account@, 0) is Some,
            found == has_helper(*mir, account@, i as nat),
    {
        let a = find_live_account(mir, &mir.liveness_props[i]);
        if same(a, account) && known {
            found = true;
        }
    }
    found
}

/// The section of liveness claim `i`, with the function that applies a list of
/// operations where the account has none yet.
pub open spec fn multi_live_text(mir: Mir, i: nat) -> Seq<char> {
    let l = mir.liveness_props@[i as int];
    match account_at(mir.account_states@, live_account(mir, l), 0) {
        Some(k) => {
            let a = mir.account_states@[k];
            renamed(
                (if has_helper(mir, live_account(mir, l), i) {
                    Seq::empty()
                } else {
                    APPLY_OPS@
                }) + lives_text(
                    account_scope(mir, a, Seq::empty(), Seq::empty(), seq![l]),
                    false,
                ),
                a.name@,
            )
        },
        None => Seq::empty(),
    }
}

fn emit_multi_live(out: &mut String, mir: &Mir, i: usize)
    requires
        mir.account_states@.len() > 0,
        i < mir.liveness_props@.len(),
    ensures
        final(out)@ == old(out)@ + multi_live_text(*mir, i as nat),
{
    let l = &mir.liveness_props[i];
    let name = find_live_account(mir, l);
    match find_account(&mir.account_states, name) {
        Some(k) => {
            let a = &mir.account_states[k];
            let mut buf = String::new();
            if !helper_emitted(mir, name, i) {
                buf.push_str(APPLY_OPS);
            }
            proof {
                refs_empty::<PropertyMir>();
                refs_empty::<CoverMir>();
            }
            let mut one: Vec<&LivenessMir> = Vec::new();
            one.push(l);
            proof {
                assert(refs(one@) =~= seq![*l]);
            }
            let sc = scope_to_account(mir, a, Vec::new(), Vec::new(), one);
            emit_lives(&mut buf, &sc, false);
            let text = rename_state_idents(&buf, &a.name);
            out.push_str(&text);
        },
        None => {},
    }
}

pub open spec fn multi_lives_upto(mir: Mir, n: nat) -> Seq<char>
    decreases n,
{
    if n == 0 {
        Seq::empty()
    } else {
        multi_lives_upto(mir, (n - 1) as nat) + multi_live_text(mir, (n - 1) as nat)
    }
}

/// The liveness claims, each on its account.
#[verifier::opaque]
pub open spec fn multi_liveness_text(mir: Mir) -> Seq<char> {
    if mir.liveness_props@.len() == 0 {
        Seq::empty()
    } else {
        liveness_heading() + multi_lives_upto(mir, mir.liveness_props@.len())
    }
}

fn emit_liveness_multi(out: &mut String, mir: &Mir)
    requires
        mir.account_states@.len() > 0,
    ensures
        final(out)@ == old(out)@ + multi_liveness_text(*mir),
{
    proof {
        reveal(multi_liveness_text);
    }
    if mir.liveness_props.len() == 0 {
        return ;
    }
    out.push_str(RULE);
    out.push_str("-- Liveness properties — bounded reachability (leads-to)\n");
    out.push_str(RULE);
    out.push_str("\n");
    let ghost base = out@;
    for i in 0..mir.liveness_props.len()
        invariant
            mir.account_states@.len() > 0,
            out@ == base + multi_lives_upto(*mir, i as nat),
    {
        emit_multi_live(out, mir, i);
    }
}

// ---------------------------------------------------------------------------
// Environments
// ---------------------------------------------------------------------------

/// The environments on account `i`; nothing where no property belongs to it.
pub open spec fn account_envs_text(mir: Mir, i: int) -> Seq<char> {
    let a = mir.account_states@[i];
    let ps = properties_of(mir, a.name@);
    if ps.len() == 0 {
        Seq::empty()
    } else {
        renamed(
            envs_text(account_scope(mir, a, ps, Seq::empty(), Seq::empty())),
            a.name@,
        )
    }
}

pub open spec fn account_envs_upto(mir: Mir, n: nat) -> Seq<char>
    decreases n,
{
    if n == 0 {
        Seq::empty()
    } else {
        account_envs_upto(mir, (n - 1) as nat) + account_envs_text(mir, n - 1)
    }
}

/// The environments, by account.
#[verifier::opaque]
pub open spec fn multi_environments_text(mir: Mir) -> Seq<char> {
    if mir.environments@.len() == 0 || mir.properties@.len() == 0 {
        Seq::empty()
    } else {
        environments_heading() + account_envs_upto(mir, mir.account_states@.len())
    }
}

fn emit_environments_multi(out: &mut String, mir: &Mir)
    requires
        mir.account_states@.len() > 0,
    ensures
        final(out)@ == old(out)@ + multi_environments_text(*mir),
{
    proof {
        reveal(multi_environments_text);
    }
    if mir.environments.len() == 0 || mir.properties.len() == 0 {
        return ;
    }
    emit_environments_heading(out);
    let ghost base = out@;
    for i in 0..mir.account_states.len()
        invariant
            mir.account_states@.len() > 0,
            out@ == base + account_envs_upto(*mir, i as nat),
    {
        let a = &mir.account_states[i];
        let props = account_properties(mir, &a.name);
        if props.len() > 0 {
            proof {
                refs_empty::<CoverMir>();
                refs_empty::<LivenessMir>();
            }
            let sc = scope_to_account(mir, a, props, Vec::new(), Vec::new());
            let mut block = String::new();
            emit_envs(&mut block, &sc);
            let text = rename_state_idents(&block, &a.name);
            out.push_str(&text);
        }
    }
}

// ---------------------------------------------------------------------------
// The file
// ---------------------------------------------------------------------------

/// The file of a program with several account types.
#[verifier::opaque]
pub open spec fn multi_file_text(mir: Mir) -> Seq<char> {
    HEADER@ + open_text(mir.name@) + helpers_text(mir.uninterpreted_helpers@) + ref_impls_text(
        mir.ref_impls@,
    ) + constants_text(mir.constants@) + machines_upto(mir, mir.account_states@.len())
        + invariant_comments(mir.invariants@, mir.invariants@.len()) + multi_properties_text(mir)
        + claims_upto(mir, mir.account_states@.len()) + renamed(
        multi_covers_text(mir),
        mir.account_states@[0].name@,
    ) + multi_liveness_text(mir) + multi_environments_text(mir) + close_text(mir.name@)
}

fn emit_machines(out: &mut String, mir: &Mir)
    ensures
        final(out)@ == old(out)@ + machines_upto(*mir, mir.account_states@.len()),
{
    for i in 0..mir.account_states.len()
        invariant
            out@ == old(out)@ + machines_upto(*mir, i as nat),
    {
        emit_machine(out, mir, i);
    }
}

fn emit_all_claims(out: &mut String, mir: &Mir)
    ensures
        final(out)@ == old(out)@ + claims_upto(*mir, mir.account_states@.len()),
{
    for i in 0..mir.account_states.len()
        invariant
            out@ == old(out)@ + claims_upto(*mir, i as nat),
    {
        emit_claims(out, mir, i);
    }
}

/// Renders a program with several account types.
pub fn render_multi_account(mir: &Mir) -> (r: String)
    requires
        mir.account_states@.len() > 0,
    ensures
        r@ == multi_file_text(*mir),
{
    proof {
        reveal(multi_file_text);
    }
    let mut out = HEADER.to_owned();
    emit_namespace_open(&mut out, &mir.name);
    emit_uninterpreted_helpers(&mut out, &mir.uninterpreted_helpers);
    emit_ref_impls(&mut out, &mir.ref_impls);
    emit_constants(&mut out, &mir.constants);
    emit_machines(&mut out, mir);
    emit_invariants_as_comments(&mut out, &mir.invariants);
    emit_properties_multi(&mut out, mir);
    emit_all_claims(&mut out, mir);
    let mut tail = String::new();
    emit_covers_multi(&mut tail, mir);
    let tail = rename_state_idents(&tail, &mir.account_states[0].name);
    out.push_str(&tail);
    emit_liveness_multi(&mut out, mir);
    emit_environments_multi(&mut out, mir);
    emit_namespace_close(&mut out, &mir.name);
    out
}

} // verus!
