//! Theorems about calls of other programs.
use vstd::prelude::*;

use crate::lean::base::{param_sig_str, safe_name, safe_text, sig_text};
use crate::lean::scope::{Scope, ScopeV, VariantV};
use crate::mir::{
    lean_of, AccountRef, CallArg, Expr, FieldDecl, HandlerMir, ImportedSpecMir, InterfaceMethod, Path,
    StateBinder, Stmt, Symbol, Ty,
};
use crate::names::{
    ascending, lookup, lookup_with_entry, with_entry, with_entry_ascends, NameMap,
};
use crate::number::{decimal, decimal_string};
use crate::pattern::{
    abstract_fields, contains_string, has_text, prefix_state_fields, prefixed, replace_word,
    scan_abstract_fields, word_replaced,
};
use crate::split::{trim, trim_text};
use crate::text::{chars_of, is_space, join, join_text, same, space, texts};

verus! {

broadcast use {crate::text::group_text, crate::text::texts_index, crate::text::texts_len};

// ---------------------------------------------------------------------------
// Transfers
// ---------------------------------------------------------------------------

/// How an account reads in a comment.
pub open spec fn account_label(a: AccountRef) -> Seq<char> {
    match a {
        AccountRef::ByBinding(s) => s@,
        AccountRef::SelfState => "self"@,
    }
}

fn account_ref_label(a: &AccountRef) -> (r: String)
    ensures
        r@ == account_label(*a),
{
    match a {
        AccountRef::ByBinding(s) => s.clone(),
        AccountRef::SelfState => "self".to_owned(),
    }
}

/// The number of transfers among the first `n` statements.
pub open spec fn transfer_count(stmts: Seq<Stmt>, n: nat) -> nat
    decreases n,
{
    if n == 0 {
        0
    } else {
        transfer_count(stmts, (n - 1) as nat) + (if stmts[n - 1] is TokenTransfer {
            1nat
        } else {
            0nat
        })
    }
}

fn count_transfers(stmts: &Vec<Stmt>) -> (r: usize)
    ensures
        r == transfer_count(stmts@, stmts@.len()),
{
    let mut c: usize = 0;
    for i in 0..stmts.len()
        invariant
            c <= i,
            c == transfer_count(stmts@, i as nat),
    {
        match &stmts[i] {
            Stmt::TokenTransfer { .. } => {
                c = c + 1;
            },
            _ => {},
        }
    }
    c
}

/// What tells the transfers of a handler apart: nothing where there is one.
pub open spec fn suffix_text(i: nat, total: nat) -> Seq<char> {
    if total > 1 {
        "_"@ + decimal(i)
    } else {
        Seq::empty()
    }
}

/// The comment of a transfer.
#[verifier::opaque]
pub open spec fn transfer_doc(
    handler: Seq<char>,
    from: AccountRef,
    to: AccountRef,
    amount: Expr,
    authority: Option<AccountRef>,
) -> Seq<char> {
    "/-- "@ + handler + " transfer envelope: "@ + account_label(from) + " → "@ + account_label(to) + (
    if lean_of(amount).len() == 0 {
        Seq::empty()
    } else {
        " amount "@ + lean_of(amount)
    }) + (match authority {
        Some(a) => " authority "@ + account_label(a),
        None => Seq::empty(),
    }) + (".\n"@ + "    Verifies CPI shape (program ID, account list, discriminator).\n"@ + "    Amount serialization and SPL Token execution are SDK/runtime\n"@ + "    trust per VERIFICATION_SCOPE.md. -/\n"@)
}

fn emit_transfer_doc(
    out: &mut String,
    handler: &str,
    from: &AccountRef,
    to: &AccountRef,
    amount: &Expr,
    authority: &Option<AccountRef>,
)
    ensures
        final(out)@ == old(out)@ + transfer_doc(handler@, *from, *to, *amount, *authority),
{
    proof {
        reveal(transfer_doc);
    }
    let from_label = account_ref_label(from);
    let to_label = account_ref_label(to);
    out.push_str("/-- ");
    out.push_str(handler);
    out.push_str(" transfer envelope: ");
    out.push_str(&from_label);
    out.push_str(" → ");
    out.push_str(&to_label);
    if !amount.lean_form().as_str().is_empty() {
        out.push_str(" amount ");
        out.push_str(amount.lean_form());
    }
    match authority {
        Some(a) => {
            let label = account_ref_label(a);
            out.push_str(" authority ");
            out.push_str(&label);
        },
        None => {},
    }
    out.push_str(".\n");
    out.push_str("    Verifies CPI shape (program ID, account list, discriminator).\n");
    out.push_str("    Amount serialization and SPL Token execution are SDK/runtime\n");
    out.push_str("    trust per VERIFICATION_SCOPE.md. -/\n");
}

/// The accounts and the data of the transfer instruction.
pub const TRANSFER_SHAPE: &'static str = "  { programId := TOKEN_PROGRAM_ID\n  , accounts :=\n      [ ⟨from_pk, false, true⟩\n      , ⟨to_pk, false, true⟩\n      , ⟨authority_pk, true, false⟩\n      ]\n  , data := DISC_TRANSFER }\n\n";

/// What the theorem says of the transfer instruction.
pub const TRANSFER_CLAIM: &'static str = "    targetsProgram cpi TOKEN_PROGRAM_ID ∧\n    accountAt cpi 0 from_pk false true ∧\n    accountAt cpi 1 to_pk false true ∧\n    accountAt cpi 2 authority_pk true false ∧\n    hasDiscriminator cpi DISC_TRANSFER := by\n";

/// The instruction of a transfer, and the theorem about its shape.
#[verifier::opaque]
pub open spec fn transfer_theorem(handler: Seq<char>, suffix: Seq<char>) -> Seq<char> {
    let build = safe_text("build_"@ + handler + "_transfer"@ + suffix);
    let theorem = safe_text(handler + "_transfer"@ + suffix + "_correct"@);
    "def "@ + build + " (from_pk to_pk authority_pk : Pubkey) : CpiInstruction :=\n"@ + TRANSFER_SHAPE@
        + ("theorem "@ + theorem + " (from_pk to_pk authority_pk : Pubkey) :\n"@ + "    let cpi := "@ + build + " from_pk to_pk authority_pk\n"@ + TRANSFER_CLAIM@)
        + ("  unfold "@ + build + " targetsProgram accountAt hasDiscriminator\n"@ + "  exact ⟨rfl, rfl, rfl, rfl, rfl⟩\n\n"@)
}

fn emit_transfer_theorem(out: &mut String, handler: &str, suffix: &str)
    ensures
        final(out)@ == old(out)@ + transfer_theorem(handler@, suffix@),
{
    proof {
        reveal(transfer_theorem);
    }
    let mut build = "build_".to_owned();
    build.push_str(handler);
    build.push_str("_transfer");
    build.push_str(suffix);
    let build = safe_name(&build);
    let mut theorem = handler.to_owned();
    theorem.push_str("_transfer");
    theorem.push_str(suffix);
    theorem.push_str("_correct");
    let theorem = safe_name(&theorem);
    out.push_str("def ");
    out.push_str(&build);
    out.push_str(" (from_pk to_pk authority_pk : Pubkey) : CpiInstruction :=\n");
    out.push_str(TRANSFER_SHAPE);
    out.push_str("theorem ");
    out.push_str(&theorem);
    out.push_str(" (from_pk to_pk authority_pk : Pubkey) :\n");
    out.push_str("    let cpi := ");
    out.push_str(&build);
    out.push_str(" from_pk to_pk authority_pk\n");
    out.push_str(TRANSFER_CLAIM);
    out.push_str("  unfold ");
    out.push_str(&build);
    out.push_str(" targetsProgram accountAt hasDiscriminator\n");
    out.push_str("  exact ⟨rfl, rfl, rfl, rfl, rfl⟩\n\n");
}

/// The section of one transfer. One without an authority does not have the
/// shape of the instruction, so that no theorem is stated of it.
pub open spec fn transfer_text(handler: Seq<char>, s: Stmt, i: nat, total: nat) -> Seq<char> {
    match s {
        Stmt::TokenTransfer { from, to, amount, authority } => transfer_doc(
            handler,
            from,
            to,
            amount,
            authority,
        ) + (if authority is None {
            "-- "@ + handler + " transfer"@ + suffix_text(i, total) + ": no authority declared; envelope theorem skipped.\n\n"@
        } else {
            transfer_theorem(handler, suffix_text(i, total))
        }),
        _ => Seq::empty(),
    }
}

/// The sections of the transfers among the first `n` statements.
pub open spec fn transfers_upto(h: HandlerMir, n: nat) -> Seq<char>
    decreases n,
{
    if n == 0 {
        Seq::empty()
    } else {
        let stmts = h.body.stmts@;
        transfers_upto(h, (n - 1) as nat) + transfer_text(
            h.name@,
            stmts[n - 1],
            transfer_count(stmts, (n - 1) as nat),
            transfer_count(stmts, stmts.len()),
        )
    }
}

fn emit_transfers(out: &mut String, h: &HandlerMir)
    ensures
        final(out)@ == old(out)@ + transfers_upto(*h, h.body.stmts@.len()),
{
    let total = count_transfers(&h.body.stmts);
    let mut c: usize = 0;
    for i in 0..h.body.stmts.len()
        invariant
            total == transfer_count(h.body.stmts@, h.body.stmts@.len()),
            c <= i,
            c == transfer_count(h.body.stmts@, i as nat),
            out@ == old(out)@ + transfers_upto(*h, i as nat),
    {
        match &h.body.stmts[i] {
            Stmt::TokenTransfer { from, to, amount, authority } => {
                let mut suffix = String::new();
                if total > 1 {
                    let d = decimal_string(c as u128);
                    suffix.push_str("_");
                    suffix.push_str(&d);
                }
                emit_transfer_doc(out, &h.name, from, to, amount, authority);
                if authority.is_none() {
                    out.push_str("-- ");
                    out.push_str(&h.name);
                    out.push_str(" transfer");
                    out.push_str(&suffix);
                    out.push_str(": no authority declared; envelope theorem skipped.\n\n");
                } else {
                    emit_transfer_theorem(out, &h.name, &suffix);
                }
                c = c + 1;
            },
            _ => {},
        }
    }
}

// ---------------------------------------------------------------------------
// Callees
// ---------------------------------------------------------------------------

/// The method of an import.
pub open spec fn method_in(
    imp: ImportedSpecMir,
    target: Seq<char>,
    method: Seq<char>,
) -> Option<InterfaceMethod> {
    match lookup(imp.interfaces@, target) {
        Some(iface) => lookup(iface.methods@, method),
        None => None,
    }
}

/// The first import from `from` on that has the interface and the method.
pub open spec fn callee_at(
    imports: Seq<(Seq<char>, ImportedSpecMir)>,
    target: Seq<char>,
    method: Seq<char>,
    from: int,
) -> Option<(ImportedSpecMir, InterfaceMethod)>
    decreases imports.len() - from,
{
    if from < 0 || from >= imports.len() {
        None
    } else {
        match method_in(imports[from].1, target, method) {
            Some(m) => Some((imports[from].1, m)),
            None => callee_at(imports, target, method, from + 1),
        }
    }
}

fn find_method<'a>(imp: &'a ImportedSpecMir, target: &str, method: &str) -> (r: Option<
    &'a InterfaceMethod,
>)
    ensures
        match r {
            Some(m) => method_in(*imp, target@, method@) == Some(*m),
            None => method_in(*imp, target@, method@) is None,
        },
{
    match imp.interfaces.get(target) {
        Some(iface) => iface.methods.get(method),
        None => None,
    }
}

fn find_callee<'a>(sc: &Scope<'a>, target: &str, method: &str) -> (r: Option<
    (&'a ImportedSpecMir, &'a InterfaceMethod),
>)
    ensures
        match r {
            Some(p) => callee_at(sc@.imports, target@, method@, 0) == Some((*p.0, *p.1)),
            None => callee_at(sc@.imports, target@, method@, 0) is None,
        },
{
    let n: usize = sc.imports.len();
    let mut i: usize = 0;
    while i < n
        invariant
            n == sc.imports@.len(),
            i <= n,
            callee_at(sc@.imports, target@, method@, 0) == callee_at(
                sc@.imports,
                target@,
                method@,
                i as int,
            ),
        decreases n - i,
    {
        let imp: &'a ImportedSpecMir = sc.imports.value(i);
        match find_method(imp, target, method) {
            Some(m) => {
                return Some((imp, m));
            },
            None => {},
        }
        i = i + 1;
    }
    None
}

/// A callee whose postconditions its import warrants: it has some, and the
/// import pins the binary.
pub open spec fn is_pinned(imp: ImportedSpecMir, m: InterfaceMethod) -> bool {
    &&& m.ensures@.len() > 0
    &&& match imp.upstream {
        Some(u) => match u.binary_hash {
            Some(h) => trim_text(h@).len() > 0,
            None => false,
        },
        None => false,
    }
}

pub fn handler_is_pinned_mir(imp: &ImportedSpecMir, m: &InterfaceMethod) -> (r: bool)
    ensures
        r == is_pinned(*imp, *m),
{
    if m.ensures.len() == 0 {
        return false;
    }
    match &imp.upstream {
        Some(u) => match &u.binary_hash {
            Some(h) => !trim(h).as_str().is_empty(),
            None => false,
        },
        None => false,
    }
}

// ---------------------------------------------------------------------------
// Substitution
// ---------------------------------------------------------------------------

/// The field of the caller that a binder names: the last segment of its path.
pub open spec fn caller_field(p: Path) -> Seq<char> {
    if p@.len() > 0 {
        p@.last()
    } else {
        Seq::empty()
    }
}

fn caller_projection_to_field(p: &Path) -> (r: String)
    ensures
        r@ == caller_field(*p),
{
    if p.segments.len() > 0 {
        p.segments[p.segments.len() - 1].clone()
    } else {
        String::new()
    }
}

/// The argument under a name among the first `n`; the last one counts.
pub open spec fn last_arg(args: Seq<CallArg>, name: Seq<char>, n: nat) -> Option<Seq<char>>
    decreases n,
{
    if n == 0 {
        None
    } else if args[n - 1].name@ == name {
        Some(args[n - 1].value.lean@)
    } else {
        last_arg(args, name, (n - 1) as nat)
    }
}

fn find_arg<'a>(args: &'a Vec<CallArg>, name: &str) -> (r: Option<&'a String>)
    ensures
        match r {
            Some(v) => last_arg(args@, name@, args@.len()) == Some(v@),
            None => last_arg(args@, name@, args@.len()) is None,
        },
{
    let mut i: usize = args.len();
    while i > 0
        invariant
            i <= args@.len(),
            last_arg(args@, name@, args@.len()) == last_arg(args@, name@, i as nat),
        decreases i,
    {
        i = i - 1;
        if same(&args[i].name, name) {
            return Some(&args[i].value.lean);
        }
    }
    None
}

/// White space, or an operator.
pub open spec fn is_joiner(c: char) -> bool {
    is_space(c) || c == '+' || c == '-' || c == '*' || c == '/' || c == '<' || c == '>'
}

/// An expression of more than one word.
pub open spec fn is_compound(s: Seq<char>) -> bool {
    exists|i: int| 0 <= i < s.len() && is_joiner(#[trigger] s[i])
}

fn compound(s: &str) -> (r: bool)
    ensures
        r == is_compound(s@),
{
    let v = chars_of(s);
    for i in 0..v.len()
        invariant
            v@ == s@,
            forall|k: int| 0 <= k < i ==> !is_joiner(#[trigger] v@[k]),
    {
        let c = v[i];
        if space(c) || c == '+' || c == '-' || c == '*' || c == '/' || c == '<' || c == '>' {
            proof {
                assert(is_joiner(s@[i as int]));
            }
            return true;
        }
    }
    false
}

/// An expression as an argument: in parentheses where it is compound.
pub open spec fn arg_text(s: Seq<char>) -> Seq<char> {
    if is_compound(s) {
        "("@ + s + ")"@
    } else {
        s
    }
}

fn as_arg(s: String) -> (r: String)
    ensures
        r@ == arg_text(s@),
{
    if compound(&s) {
        let mut out = "(".to_owned();
        out.push_str(&s);
        out.push_str(")");
        out
    } else {
        s
    }
}

/// A postcondition with the callee's state fields replaced by the caller's:
/// `s'.f` reads the state after the call, `s.f` the state before it.
pub open spec fn with_binders(text: Seq<char>, bs: Seq<StateBinder>, n: nat) -> Seq<char>
    decreases n,
{
    if n == 0 {
        text
    } else {
        let before = with_binders(text, bs, (n - 1) as nat);
        let f = bs[n - 1].callee_field@;
        let c = caller_field(bs[n - 1].caller_projection);
        word_replaced(
            word_replaced(before, "s'."@ + f, "post."@ + c),
            "s."@ + f,
            "pre."@ + c,
        )
    }
}

/// A postcondition with the first `n` parameters replaced by the arguments
/// that the caller gives for them.
pub open spec fn with_args(
    text: Seq<char>,
    params: Seq<(Symbol, Ty)>,
    args: Seq<CallArg>,
    n: nat,
) -> Seq<char>
    decreases n,
{
    if n == 0 {
        text
    } else {
        let before = with_args(text, params, args, (n - 1) as nat);
        match last_arg(args, params[n - 1].0@, args.len()) {
            Some(v) => word_replaced(before, params[n - 1].0@, arg_text(v)),
            None => before,
        }
    }
}

/// The name of the returned value in the callee's postconditions.
pub open spec fn result_name(m: InterfaceMethod) -> Seq<char> {
    match m.result_binder {
        Some(n) => n@,
        None => "result"@,
    }
}

/// A postcondition with the returned value under the caller's name for it.
pub open spec fn with_result(
    text: Seq<char>,
    m: InterfaceMethod,
    binding: Option<Symbol>,
) -> Seq<char> {
    match binding {
        Some(b) => word_replaced(text, result_name(m), b@),
        None => text,
    }
}

/// One call of a handler's body.
pub struct CallSite<'a> {
    pub handler: &'a HandlerMir,
    /// The position among the calls of the handler.
    pub index: usize,
    pub target: &'a String,
    pub method: &'a String,
    pub args: &'a Vec<CallArg>,
    pub binders: &'a Vec<StateBinder>,
    pub result: &'a Option<Symbol>,
    pub import: &'a ImportedSpecMir,
    pub callee: &'a InterfaceMethod,
}

/// A postcondition of the callee as it reads at the call.
pub open spec fn substituted(c: CallSite, ensures_lean: Seq<char>) -> Seq<char> {
    let a = with_binders(ensures_lean, c.binders@, c.binders@.len());
    let b = with_args(a, c.callee.params@, c.args@, c.callee.params@.len());
    with_result(b, *c.callee, *c.result)
}

fn substitute_callee_ensures_lean(c: &CallSite, ensures_lean: &str) -> (r: String)
    ensures
        r@ == substituted(*c, ensures_lean@),
{
    let mut text = ensures_lean.to_owned();
    for i in 0..c.binders.len()
        invariant
            text@ == with_binders(ensures_lean@, c.binders@, i as nat),
    {
        let field = &c.binders[i].callee_field;
        let own = caller_projection_to_field(&c.binders[i].caller_projection);
        let mut after = "s'.".to_owned();
        after.push_str(field);
        let mut post = "post.".to_owned();
        post.push_str(&own);
        text = replace_word(&text, &after, &post);
        let mut before = "s.".to_owned();
        before.push_str(field);
        let mut pre = "pre.".to_owned();
        pre.push_str(&own);
        text = replace_word(&text, &before, &pre);
    }
    let ghost a = with_binders(ensures_lean@, c.binders@, c.binders@.len());
    for i in 0..c.callee.params.len()
        invariant
            text@ == with_args(a, c.callee.params@, c.args@, i as nat),
    {
        let name = &c.callee.params[i].0;
        match find_arg(c.args, name) {
            Some(v) => {
                let by = as_arg(v.clone());
                text = replace_word(&text, name, &by);
            },
            None => {},
        }
    }
    match c.result {
        Some(b) => {
            let name: String = match &c.callee.result_binder {
                Some(n) => n.clone(),
                None => "result".to_owned(),
            };
            replace_word(&text, &name, b)
        },
        None => text,
    }
}

/// Whether a binder names the field.
pub open spec fn is_bound(bs: Seq<StateBinder>, field: Seq<char>) -> bool {
    binder_at(bs, field, 0) is Some
}

/// The first binder from `from` on that names the field.
pub open spec fn binder_at(bs: Seq<StateBinder>, field: Seq<char>, from: int) -> Option<int>
    decreases bs.len() - from,
{
    if from < 0 || from >= bs.len() {
        None
    } else if bs[from].callee_field@ == field {
        Some(from)
    } else {
        binder_at(bs, field, from + 1)
    }
}

fn find_binder(bs: &Vec<StateBinder>, field: &str) -> (r: Option<usize>)
    ensures
        match r {
            Some(i) => i < bs@.len() && binder_at(bs@, field@, 0) == Some(i as int),
            None => binder_at(bs@, field@, 0) is None,
        },
{
    let mut i: usize = 0;
    while i < bs.len()
        invariant
            i <= bs@.len(),
            binder_at(bs@, field@, 0) == binder_at(bs@, field@, i as int),
        decreases bs@.len() - i,
    {
        if same(&bs[i].callee_field, field) {
            return Some(i);
        }
        i = i + 1;
    }
    None
}

/// The fields among the first `n` that no binder names.
pub open spec fn missing_fields(fields: Seq<Seq<char>>, bs: Seq<StateBinder>, n: nat) -> Seq<
    Seq<char>,
>
    decreases n,
{
    if n == 0 {
        Seq::empty()
    } else {
        let before = missing_fields(fields, bs, (n - 1) as nat);
        if is_bound(bs, fields[n - 1]) {
            before
        } else {
            before.push(fields[n - 1])
        }
    }
}

fn missing_state_binders(fields: &Vec<String>, bs: &Vec<StateBinder>) -> (r: Vec<String>)
    ensures
        texts(r@) == missing_fields(texts(fields@), bs@, fields@.len()),
{
    let mut out: Vec<String> = Vec::new();
    for i in 0..fields.len()
        invariant
            texts(out@) == missing_fields(texts(fields@), bs@, i as nat),
    {
        if find_binder(bs, &fields[i]).is_none() {
            out.push(fields[i].clone());
        }
    }
    out
}

// ---------------------------------------------------------------------------
// Theorems of calls
// ---------------------------------------------------------------------------

/// The comment in place of a theorem, where the caller binds none or not all of
/// the callee's state fields.
#[verifier::opaque]
pub open spec fn unbound_note(
    c: CallSite,
    i: nat,
    fields: Seq<Seq<char>>,
    missing: Seq<Seq<char>>,
) -> Seq<char> {
    "-- `"@ + c.target@ + "."@ + c.method@ + "` ensures #"@ + decimal(i) + " ("@ + join_text(fields, ", "@) + "): caller supplied "@
        + (if missing.len() == fields.len() {
        "no `state_binders` for these abstract fields; ensures not pulled into caller proof. Bind via `state_binders { "@ + fields[0]
    } else {
        "incomplete `state_binders`; missing "@ + join_text(missing, ", "@) + "; ensures not pulled into caller proof. Bind via `state_binders { "@ + missing[0]
    }) + " = state.<field> }` to consume.\n"@
}

fn emit_unbound_note(
    out: &mut String,
    c: &CallSite,
    i: usize,
    fields: &Vec<String>,
    missing: &Vec<String>,
)
    requires
        fields@.len() > 0,
        missing@.len() > 0,
    ensures
        final(out)@ == old(out)@ + unbound_note(*c, i as nat, texts(fields@), texts(missing@)),
{
    proof {
        reveal(unbound_note);
    }
    let d = decimal_string(i as u128);
    let all = join(fields, ", ");
    out.push_str("-- `");
    out.push_str(c.target);
    out.push_str(".");
    out.push_str(c.method);
    out.push_str("` ensures #");
    out.push_str(&d);
    out.push_str(" (");
    out.push_str(&all);
    out.push_str("): caller supplied ");
    if missing.len() == fields.len() {
        out.push_str("no `state_binders` for these abstract fields; ensures not pulled into caller proof. Bind via `state_binders { ");
        out.push_str(&fields[0]);
    } else {
        let some = join(missing, ", ");
        out.push_str("incomplete `state_binders`; missing ");
        out.push_str(&some);
        out.push_str("; ensures not pulled into caller proof. Bind via `state_binders { ");
        out.push_str(&missing[0]);
    }
    out.push_str(" = state.<field> }` to consume.\n");
}

/// With the arguments of the callee's first `n` parameters: what the caller
/// gives, or else the name of the parameter.
pub open spec fn with_param_args(
    acc: Seq<Seq<char>>,
    c: CallSite,
    state: Seq<Seq<char>>,
    n: nat,
) -> Seq<Seq<char>>
    decreases n,
{
    if n == 0 {
        acc
    } else {
        let name = c.callee.params@[n - 1].0@;
        let raw = match last_arg(c.args@, name, c.args@.len()) {
            Some(v) => v,
            None => name,
        };
        with_param_args(acc, c, state, (n - 1) as nat).push(arg_text(prefixed(raw, state)))
    }
}

/// With one accessor for each of the first `n` state fields.
pub open spec fn with_accessors(
    acc: Seq<Seq<char>>,
    bs: Seq<StateBinder>,
    fields: Seq<Seq<char>>,
    n: nat,
) -> Seq<Seq<char>>
    decreases n,
{
    if n == 0 {
        acc
    } else {
        let own = match binder_at(bs, fields[n - 1], 0) {
            Some(k) => caller_field(bs[k].caller_projection),
            None => fields[n - 1],
        };
        with_accessors(acc, bs, fields, (n - 1) as nat).push("(·."@ + own + ")"@)
    }
}

/// What the postcondition of a pinned callee is applied to: the states before
/// and after where it speaks of the state, the arguments, and an accessor for
/// each field of the state.
pub open spec fn apply_args(c: CallSite, state: Seq<Seq<char>>, fields: Seq<Seq<char>>) -> Seq<
    Seq<char>,
> {
    let a = if fields.len() > 0 {
        seq!["pre"@, "post"@]
    } else {
        Seq::empty()
    };
    let b = with_param_args(a, c, state, c.callee.params@.len());
    with_accessors(b, c.binders@, fields, fields.len())
}

fn build_apply_args(c: &CallSite, state: &Vec<String>, fields: &Vec<String>) -> (r: Vec<String>)
    ensures
        texts(r@) == apply_args(*c, texts(state@), texts(fields@)),
{
    let mut args: Vec<String> = Vec::new();
    if fields.len() > 0 {
        args.push("pre".to_owned());
        args.push("post".to_owned());
    }
    let ghost a = texts(args@);
    proof {
        assert(fields@.len() > 0 ==> a =~= seq!["pre"@, "post"@]);
    }
    for i in 0..c.callee.params.len()
        invariant
            texts(args@) == with_param_args(a, *c, texts(state@), i as nat),
    {
        let name = &c.callee.params[i].0;
        let raw: &String = match find_arg(c.args, name) {
            Some(v) => v,
            None => name,
        };
        args.push(as_arg(prefix_state_fields(raw, state)));
    }
    let ghost b = with_param_args(a, *c, texts(state@), c.callee.params@.len());
    for i in 0..fields.len()
        invariant
            texts(args@) == with_accessors(b, c.binders@, texts(fields@), i as nat),
    {
        let own: String = match find_binder(c.binders, &fields[i]) {
            Some(k) => caller_projection_to_field(&c.binders[k].caller_projection),
            None => fields[i].clone(),
        };
        let mut p = "(·.".to_owned();
        p.push_str(&own);
        p.push_str(")");
        args.push(p);
    }
    args
}

/// How a pinned postcondition is discharged.
pub open spec fn stance_text(verified: bool) -> Seq<char> {
    if verified {
        "stance 2: discharged via imported callee proof"@
    } else {
        "stance 1: discharged via Tier-1 binary-hash axiom; v3.0 will replace the axiom with an imported callee proof"@
    }
}

/// The name of the theorem for postcondition `i` of a call.
pub open spec fn call_theorem(c: CallSite, i: nat) -> Seq<char> {
    safe_text(c.handler.name@ + "_"@ + c.target@ + "_"@ + c.method@ + "_call_"@ + decimal(c.index as nat) + "_post_"@ + decimal(i))
}

fn call_theorem_name(c: &CallSite, i: usize) -> (r: String)
    ensures
        r@ == call_theorem(*c, i as nat),
{
    let call = decimal_string(c.index as u128);
    let post = decimal_string(i as u128);
    let mut name = c.handler.name.clone();
    name.push_str("_");
    name.push_str(c.target);
    name.push_str("_");
    name.push_str(c.method);
    name.push_str("_call_");
    name.push_str(&call);
    name.push_str("_post_");
    name.push_str(&post);
    safe_name(&name)
}

/// The theorem for a postcondition of a pinned callee.
#[verifier::opaque]
pub open spec fn pinned_theorem(
    c: CallSite,
    i: nat,
    claim: Seq<char>,
    state: Seq<Seq<char>>,
    fields: Seq<Seq<char>>,
) -> Seq<char> {
    let args = apply_args(c, state, fields);
    "/-- "@ + c.target@ + "."@ + c.method@ + ".ensures @ `"@ + c.handler.name@ + "` call #"@ + decimal(c.index as nat) + " ("@ + stance_text(c.import.verified_pkg_root is Some) + "). -/\n"@
        + ("theorem "@ + call_theorem(c, i) + " (s : State)"@) + (if fields.len() > 0 {
        " (pre post : State)"@
    } else {
        Seq::empty()
    }) + (sig_text(c.handler.params@) + " : "@ + claim + " :=\n"@)
        + ("  "@ + safe_text(c.target@) + "."@ + safe_text(c.method@) + ".ensures_axiom_"@ + decimal(i)) + (
    if args.len() == 0 {
        Seq::empty()
    } else {
        " "@ + join_text(args, " "@)
    }) + "\n\n"@
}

fn emit_pinned_theorem(
    out: &mut String,
    c: &CallSite,
    i: usize,
    claim: &str,
    state: &Vec<String>,
    fields: &Vec<String>,
)
    ensures
        final(out)@ == old(out)@ + pinned_theorem(
            *c,
            i as nat,
            claim@,
            texts(state@),
            texts(fields@),
        ),
{
    proof {
        reveal(pinned_theorem);
    }
    let args = build_apply_args(c, state, fields);
    let call = decimal_string(c.index as u128);
    let theorem = call_theorem_name(c, i);
    let sig = param_sig_str(&c.handler.params);
    let target = safe_name(c.target);
    let method = safe_name(c.method);
    let post = decimal_string(i as u128);
    out.push_str("/-- ");
    out.push_str(c.target);
    out.push_str(".");
    out.push_str(c.method);
    out.push_str(".ensures @ `");
    out.push_str(&c.handler.name);
    out.push_str("` call #");
    out.push_str(&call);
    out.push_str(" (");
    if c.import.verified_pkg_root.is_some() {
        out.push_str("stance 2: discharged via imported callee proof");
    } else {
        out.push_str(
            "stance 1: discharged via Tier-1 binary-hash axiom; v3.0 will replace the axiom with an imported callee proof",
        );
    }
    out.push_str("). -/\n");
    out.push_str("theorem ");
    out.push_str(&theorem);
    out.push_str(" (s : State)");
    if fields.len() > 0 {
        out.push_str(" (pre post : State)");
    }
    out.push_str(&sig);
    out.push_str(" : ");
    out.push_str(claim);
    out.push_str(" :=\n");
    out.push_str("  ");
    out.push_str(&target);
    out.push_str(".");
    out.push_str(&method);
    out.push_str(".ensures_axiom_");
    out.push_str(&post);
    if args.len() > 0 {
        let joined = join(&args, " ");
        out.push_str(" ");
        out.push_str(&joined);
    }
    out.push_str("\n\n");
}

/// The theorem for a postcondition of a callee that is not pinned.
#[verifier::opaque]
pub open spec fn open_theorem(c: CallSite, i: nat, claim: Seq<char>) -> Seq<char> {
    "/-- "@ + c.target@ + "."@ + c.method@ + ".ensures @ `"@ + c.handler.name@ + "` call #"@ + decimal(c.index as nat) + " (stance 1: axiomatized via sorry; v3.0 will close via imported callee proofs). -/\n"@
        + ("theorem "@ + call_theorem(c, i) + " (s : State)"@ + sig_text(c.handler.params@) + " : "@ + claim + " := by sorry\n\n"@)
}

fn emit_open_theorem(out: &mut String, c: &CallSite, i: usize, claim: &str)
    ensures
        final(out)@ == old(out)@ + open_theorem(*c, i as nat, claim@),
{
    proof {
        reveal(open_theorem);
    }
    let call = decimal_string(c.index as u128);
    let theorem = call_theorem_name(c, i);
    let sig = param_sig_str(&c.handler.params);
    out.push_str("/-- ");
    out.push_str(c.target);
    out.push_str(".");
    out.push_str(c.method);
    out.push_str(".ensures @ `");
    out.push_str(&c.handler.name);
    out.push_str("` call #");
    out.push_str(&call);
    out.push_str(" (stance 1: axiomatized via sorry; v3.0 will close via imported callee proofs). -/\n");
    out.push_str("theorem ");
    out.push_str(&theorem);
    out.push_str(" (s : State)");
    out.push_str(&sig);
    out.push_str(" : ");
    out.push_str(claim);
    out.push_str(" := by sorry\n\n");
}

/// What a call gives for postcondition `i`, when the fields of the state that
/// it speaks of are known: a comment where some of them have no binder, or
/// else a theorem.
#[verifier::opaque]
pub open spec fn post_text(
    c: CallSite,
    i: nat,
    state: Seq<Seq<char>>,
    fields: Seq<Seq<char>>,
    claim: Seq<char>,
) -> Seq<char> {
    let missing = missing_fields(fields, c.binders@, fields.len());
    if missing.len() > 0 {
        unbound_note(c, i, fields, missing)
    } else {
        let own = if fields.len() == 0 {
            prefixed(claim, state)
        } else {
            claim
        };
        if is_pinned(*c.import, *c.callee) {
            pinned_theorem(c, i, own, state, fields)
        } else {
            open_theorem(c, i, own)
        }
    }
}

proof fn missing_fields_are_fields(fields: Seq<Seq<char>>, bs: Seq<StateBinder>, n: nat)
    ensures
        missing_fields(fields, bs, n).len() <= n,
    decreases n,
{
    if n > 0 {
        missing_fields_are_fields(fields, bs, (n - 1) as nat);
    }
}

/// Renders postcondition `i` of a call, from the fields of the state that it
/// speaks of and its text at the call.
pub fn emit_call_post(
    out: &mut String,
    c: &CallSite,
    i: usize,
    state: &Vec<String>,
    fields: &Vec<String>,
    claim: &str,
)
    ensures
        final(out)@ == old(out)@ + post_text(*c, i as nat, texts(state@), texts(fields@), claim@),
{
    proof {
        reveal(post_text);
        missing_fields_are_fields(texts(fields@), c.binders@, fields@.len());
    }
    let missing = missing_state_binders(fields, c.binders);
    if missing.len() > 0 {
        emit_unbound_note(out, c, i, fields, &missing);
        return ;
    }
    let own: String = if fields.len() == 0 {
        prefix_state_fields(claim, state)
    } else {
        claim.to_owned()
    };
    if handler_is_pinned_mir(c.import, c.callee) {
        emit_pinned_theorem(out, c, i, &own, state, fields);
    } else {
        emit_open_theorem(out, c, i, &own);
    }
}

/// What a call gives for the first `n` postconditions of the callee.
pub open spec fn posts_upto(c: CallSite, state: Seq<Seq<char>>, n: nat) -> Seq<char>
    decreases n,
{
    if n == 0 {
        Seq::empty()
    } else {
        let lean = c.callee.ensures@[n - 1].0.lean@;
        posts_upto(c, state, (n - 1) as nat) + post_text(
            c,
            (n - 1) as nat,
            state,
            abstract_fields(lean),
            substituted(c, lean),
        )
    }
}

fn emit_posts(out: &mut String, c: &CallSite, state: &Vec<String>)
    ensures
        final(out)@ == old(out)@ + posts_upto(*c, texts(state@), c.callee.ensures@.len()),
{
    for i in 0..c.callee.ensures.len()
        invariant
            out@ == old(out)@ + posts_upto(*c, texts(state@), i as nat),
    {
        let lean = &c.callee.ensures[i].0.lean;
        let fields = scan_abstract_fields(lean);
        let claim = substitute_callee_ensures_lean(c, lean);
        emit_call_post(out, c, i, state, &fields, &claim);
    }
}

/// The number of calls among the first `n` statements.
pub open spec fn call_count(stmts: Seq<Stmt>, n: nat) -> nat
    decreases n,
{
    if n == 0 {
        0
    } else {
        call_count(stmts, (n - 1) as nat) + (if stmts[n - 1] is Cpi {
            1nat
        } else {
            0nat
        })
    }
}

/// What one statement gives: the theorems of a call whose callee is known.
pub open spec fn call_text(
    sc: ScopeV,
    h: HandlerMir,
    s: Stmt,
    index: usize,
    state: Seq<Seq<char>>,
) -> Seq<char> {
    match s {
        Stmt::Cpi { target, method, args, state_binders, result_binding } => match callee_at(
            sc.imports,
            target.0@,
            method.0@,
            0,
        ) {
            Some((import, callee)) => posts_upto(
                CallSite {
                    handler: &h,
                    index,
                    target: &target.0,
                    method: &method.0,
                    args: &args,
                    binders: &state_binders,
                    result: &result_binding,
                    import: &import,
                    callee: &callee,
                },
                state,
                callee.ensures@.len(),
            ),
            None => Seq::empty(),
        },
        _ => Seq::empty(),
    }
}

/// What the first `n` statements of a handler give.
pub open spec fn calls_upto(sc: ScopeV, h: HandlerMir, state: Seq<Seq<char>>, n: nat) -> Seq<char>
    decreases n,
{
    if n == 0 {
        Seq::empty()
    } else {
        let stmts = h.body.stmts@;
        calls_upto(sc, h, state, (n - 1) as nat) + call_text(
            sc,
            h,
            stmts[n - 1],
            call_count(stmts, (n - 1) as nat) as usize,
            state,
        )
    }
}

fn emit_calls(out: &mut String, sc: &Scope, h: &HandlerMir, state: &Vec<String>)
    ensures
        final(out)@ == old(out)@ + calls_upto(sc@, *h, texts(state@), h.body.stmts@.len()),
{
    let mut index: usize = 0;
    for i in 0..h.body.stmts.len()
        invariant
            index <= i,
            index == call_count(h.body.stmts@, i as nat),
            out@ == old(out)@ + calls_upto(sc@, *h, texts(state@), i as nat),
    {
        match &h.body.stmts[i] {
            Stmt::Cpi { target, method, args, state_binders, result_binding } => {
                match find_callee(sc, &target.0, &method.0) {
                    Some((import, callee)) => {
                        let c = CallSite {
                            handler: h,
                            index,
                            target: &target.0,
                            method: &method.0,
                            args,
                            binders: state_binders,
                            result: result_binding,
                            import,
                            callee,
                        };
                        emit_posts(out, &c, state);
                    },
                    None => {},
                }
                index = index + 1;
            },
            _ => {},
        }
    }
}

/// The fields of the first variant, each name once.
pub open spec fn first_fields(vs: Seq<VariantV>) -> Seq<Seq<char>> {
    if vs.len() == 0 {
        Seq::empty()
    } else {
        distinct_fields(vs[0].fields, vs[0].fields.len())
    }
}

/// The names of the first `n` fields, each once.
pub open spec fn distinct_fields(fs: Seq<FieldDecl>, n: nat) -> Seq<Seq<char>>
    decreases n,
{
    if n == 0 {
        Seq::empty()
    } else {
        let before = distinct_fields(fs, (n - 1) as nat);
        if has_text(before, fs[n - 1].name@) {
            before
        } else {
            before.push(fs[n - 1].name@)
        }
    }
}

fn first_field_names(sc: &Scope) -> (r: Vec<String>)
    ensures
        texts(r@) == first_fields(sc@.variants),
{
    let mut out: Vec<String> = Vec::new();
    if sc.variants.len() == 0 {
        return out;
    }
    let fields = sc.variants[0].fields;
    for i in 0..fields.len()
        invariant
            texts(out@) == distinct_fields(fields@, i as nat),
    {
        if !contains_string(&out, &fields[i].name) {
            out.push(fields[i].name.clone());
        }
    }
    out
}

/// The theorems about the transfers and the calls of the first `n` handlers.
pub open spec fn cpi_upto(sc: ScopeV, n: nat) -> Seq<char>
    decreases n,
{
    if n == 0 {
        Seq::empty()
    } else {
        let h = sc.handlers[n - 1];
        cpi_upto(sc, (n - 1) as nat) + transfers_upto(h, h.body.stmts@.len()) + calls_upto(
            sc,
            h,
            first_fields(sc.variants),
            h.body.stmts@.len(),
        )
    }
}

/// The theorems about the transfers and the calls of each handler.
pub open spec fn cpi_text(sc: ScopeV) -> Seq<char> {
    cpi_upto(sc, sc.handlers.len())
}

/// Whether a statement calls a method of the interface that its import pins:
/// the first import that has the method warrants its postconditions.
pub open spec fn calls_pinned(sc: ScopeV, s: Stmt, interface: Seq<char>) -> bool {
    match s {
        Stmt::Cpi { target, method, .. } => target.0@ == interface && match callee_at(
            sc.imports,
            target.0@,
            method.0@,
            0,
        ) {
            Some((import, callee)) => is_pinned(import, callee),
            None => false,
        },
        _ => false,
    }
}

/// With the pinned interfaces that the first `n` statements call.
pub open spec fn with_pinned(
    acc: Seq<(Seq<char>, bool)>,
    sc: ScopeV,
    stmts: Seq<Stmt>,
    n: nat,
) -> Seq<(Seq<char>, bool)>
    decreases n,
{
    if n == 0 {
        acc
    } else {
        let before = with_pinned(acc, sc, stmts, (n - 1) as nat);
        match stmts[n - 1] {
            Stmt::Cpi { target, .. } => if calls_pinned(sc, stmts[n - 1], target.0@) {
                with_entry(before, target.0@, true)
            } else {
                before
            },
            _ => before,
        }
    }
}

/// The pinned interfaces that the first `n` handlers call.
pub open spec fn pinned_upto(sc: ScopeV, n: nat) -> Seq<(Seq<char>, bool)>
    decreases n,
{
    if n == 0 {
        Seq::empty()
    } else {
        let stmts = sc.handlers[n - 1].body.stmts@;
        with_pinned(pinned_upto(sc, (n - 1) as nat), sc, stmts, stmts.len())
    }
}

/// The pinned interfaces that the handlers call, in the order of their names.
pub open spec fn pinned_targets(sc: ScopeV) -> Seq<(Seq<char>, bool)> {
    pinned_upto(sc, sc.handlers.len())
}

fn add_pinned(acc: &mut NameMap<bool>, sc: &Scope, h: &HandlerMir)
    ensures
        final(acc)@ == with_pinned(old(acc)@, sc@, h.body.stmts@, h.body.stmts@.len()),
{
    for i in 0..h.body.stmts.len()
        invariant
            acc@ == with_pinned(old(acc)@, sc@, h.body.stmts@, i as nat),
    {
        match &h.body.stmts[i] {
            Stmt::Cpi { target, method, .. } => {
                match find_callee(sc, &target.0, &method.0) {
                    Some((import, callee)) => {
                        if handler_is_pinned_mir(import, callee) {
                            acc.insert(target.0.clone(), true);
                        }
                    },
                    None => {},
                }
            },
            _ => {},
        }
    }
}

proof fn lemma_with_pinned(
    acc: Seq<(Seq<char>, bool)>,
    sc: ScopeV,
    stmts: Seq<Stmt>,
    n: nat,
    name: Seq<char>,
)
    requires
        ascending(acc),
        n <= stmts.len(),
    ensures
        ascending(with_pinned(acc, sc, stmts, n)),
        lookup(with_pinned(acc, sc, stmts, n), name) is Some <==> lookup(acc, name) is Some
            || exists|k: int| 0 <= k < n && calls_pinned(sc, #[trigger] stmts[k], name),
    decreases n,
{
    if n > 0 {
        let before = with_pinned(acc, sc, stmts, (n - 1) as nat);
        lemma_with_pinned(acc, sc, stmts, (n - 1) as nat, name);
        if let Stmt::Cpi { target, .. } = stmts[n - 1] {
            with_entry_ascends(before, target.0@, true);
            lookup_with_entry(before, target.0@, true, name);
        }
        if calls_pinned(sc, stmts[n - 1], name) {
            assert(0 <= n - 1 < n);
        }
    }
}

proof fn lemma_pinned_upto(sc: ScopeV, n: nat, name: Seq<char>)
    requires
        n <= sc.handlers.len(),
    ensures
        ascending(pinned_upto(sc, n)),
        lookup(pinned_upto(sc, n), name) is Some <==> exists|i: int, k: int|
            0 <= i < n && 0 <= k < sc.handlers[i].body.stmts@.len() && calls_pinned(
                sc,
                #[trigger] sc.handlers[i].body.stmts@[k],
                name,
            ),
    decreases n,
{
    if n > 0 {
        lemma_pinned_upto(sc, (n - 1) as nat, name);
        let stmts = sc.handlers[n - 1].body.stmts@;
        lemma_with_pinned(pinned_upto(sc, (n - 1) as nat), sc, stmts, stmts.len(), name);
        if lookup(pinned_upto(sc, n), name) is Some && lookup(
            pinned_upto(sc, (n - 1) as nat),
            name,
        ) is None {
            let k = choose|k: int|
                0 <= k < stmts.len() && calls_pinned(sc, #[trigger] stmts[k], name);
            assert(calls_pinned(sc, sc.handlers[n - 1].body.stmts@[k], name));
        }
    }
}

/// An interface is among the pinned ones exactly where some handler calls a
/// method of it that has postconditions and whose import pins the binary.
pub proof fn pinned_targets_are_called(sc: ScopeV, name: Seq<char>)
    ensures
        lookup(pinned_targets(sc), name) is Some <==> exists|i: int, k: int|
            0 <= i < sc.handlers.len() && 0 <= k < sc.handlers[i].body.stmts@.len()
                && calls_pinned(sc, #[trigger] sc.handlers[i].body.stmts@[k], name),
{
    lemma_pinned_upto(sc, sc.handlers.len(), name);
}

/// Renders the theorems about the transfers and the calls of each handler.
/// Returns the pinned interfaces that the calls refer to.
pub fn emit_cpi_theorems(out: &mut String, sc: &Scope) -> (r: NameMap<bool>)
    ensures
        final(out)@ == old(out)@ + cpi_text(sc@),
        r@ == pinned_targets(sc@),
{
    let mut pinned: NameMap<bool> = NameMap::new();
    let state = first_field_names(sc);
    for i in 0..sc.handlers.len()
        invariant
            texts(state@) == first_fields(sc@.variants),
            out@ == old(out)@ + cpi_upto(sc@, i as nat),
            pinned@ == pinned_upto(sc@, i as nat),
    {
        emit_transfers(out, sc.handlers[i]);
        emit_calls(out, sc, sc.handlers[i], &state);
        add_pinned(&mut pinned, sc, sc.handlers[i]);
    }
    pinned
}

} // verus!
