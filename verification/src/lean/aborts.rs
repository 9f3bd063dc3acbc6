//! Theorems about the inputs that a handler rejects.
use vstd::prelude::*;

use crate::lean::base::{
    args_text, mentions_handler_account_pubkey, mentions_pubkey, param_args_str, param_sig_str,
    safe_name, safe_text, sig_text, transition_name, transition_text, RULE,
};
use crate::lean::guards::{build_guard_cond_parts, guard_parts};
use crate::lean::scope::{Scope, ScopeV};
use crate::mir::{AbortClause, AccountBindingShape, HandlerMir, RequireOrAbortClause};
use crate::number::{decimal, push_decimal};
use crate::text::{chars_of, join, join_text, same, texts};

verus! {

broadcast use {crate::text::group_text, crate::text::texts_index, crate::text::texts_len};

// ---------------------------------------------------------------------------
// Conjunctions
// ---------------------------------------------------------------------------

/// The number of conjunctions that stand outside all parentheses, when `depth`
/// are open, in the first `n` characters.
pub open spec fn outer_ands(s: Seq<char>, n: nat) -> nat
    decreases n,
{
    if n == 0 {
        0
    } else {
        outer_ands(s, (n - 1) as nat) + (if s[n - 1] == '∧' && crate::lean::base::paren_depth(
            s,
            n - 1,
        ) == 0 {
            1nat
        } else {
            0nat
        })
    }
}

/// The number of conjuncts of an expression.
pub open spec fn conjunct_count(s: Seq<char>) -> nat {
    outer_ands(s, s.len()) + 1
}

/// Counts the conjuncts of an expression.
pub fn count_top_level_conjuncts(expr: &str) -> (r: u128)
    ensures
        r == conjunct_count(expr@),
        1 <= r <= 0x1_0000_0000_0000_0000,
{
    let v = chars_of(expr);
    let mut depth: i128 = 0;
    let mut count: u128 = 0;
    for i in 0..v.len()
        invariant
            v@ == expr@,
            depth == crate::lean::base::paren_depth(v@, i as int),
            -(i as int) <= depth <= i,
            count == outer_ands(v@, i as nat),
            count <= i,
    {
        if v[i] == '(' {
            depth = depth + 1;
        } else if v[i] == ')' {
            depth = depth - 1;
        } else if v[i] == '∧' && depth == 0 {
            count = count + 1;
        }
    }
    count + 1
}

/// The number of conjuncts of the first `n` conditions.
pub open spec fn atoms(parts: Seq<Seq<char>>, n: nat) -> nat
    decreases n,
{
    if n == 0 {
        0
    } else {
        atoms(parts, (n - 1) as nat) + conjunct_count(parts[n - 1])
    }
}

fn count_atoms(parts: &Vec<String>, n: usize) -> (r: u128)
    requires
        n <= parts@.len(),
    ensures
        r == atoms(texts(parts@), n as nat),
        r <= n * 0x1_0000_0000_0000_0000,
{
    let mut total: u128 = 0;
    for i in 0..n
        invariant
            n <= parts@.len(),
            total == atoms(texts(parts@), i as nat),
            total <= i * 0x1_0000_0000_0000_0000,
    {
        let c = count_top_level_conjuncts(&parts[i]);
        assert(i < 0xffff_ffff_ffff_ffff);
        total = total + c;
    }
    total
}

/// `.2`, `n` times.
pub open spec fn seconds(n: nat) -> Seq<char>
    decreases n,
{
    if n == 0 {
        Seq::empty()
    } else {
        seconds((n - 1) as nat) + ".2"@
    }
}

/// The way to conjunct `i` of `total` in a conjunction that groups to the
/// right: past `i` conjuncts, and to the head of the rest unless it is the
/// last.
pub open spec fn projection_text(name: Seq<char>, i: nat, total: nat) -> Seq<char> {
    name + seconds(i) + (if i + 1 < total {
        ".1"@
    } else {
        Seq::empty()
    })
}

/// The way to conjunct `i` of `total`.
pub fn projection(name: &str, i: u128, total: u128) -> (r: String)
    requires
        i < total,
    ensures
        r@ == projection_text(name@, i as nat, total as nat),
{
    let mut out = name.to_owned();
    let mut k: u128 = 0;
    while k < i
        invariant
            k <= i,
            out@ == name@ + seconds(k as nat),
        decreases i - k,
    {
        out.push_str(".2");
        k = k + 1;
    }
    if i < total - 1 {
        out.push_str(".1");
    }
    out
}

/// The ways to `n` conjuncts from conjunct `start` on.
pub open spec fn projections(start: nat, total: nat, n: nat) -> Seq<Seq<char>>
    decreases n,
{
    if n == 0 {
        Seq::empty()
    } else {
        projections(start, total, (n - 1) as nat).push(
            projection_text("hg"@, (start + n - 1) as nat, total),
        )
    }
}

/// The first position from `from` on that holds the condition.
pub open spec fn part_at(parts: Seq<Seq<char>>, t: Seq<char>, from: int) -> Option<int>
    decreases parts.len() - from,
{
    if from < 0 || from >= parts.len() {
        None
    } else if parts[from] == t {
        Some(from)
    } else {
        part_at(parts, t, from + 1)
    }
}

fn find_part(parts: &Vec<String>, t: &str) -> (r: Option<usize>)
    ensures
        match r {
            Some(i) => i < parts@.len() && part_at(texts(parts@), t@, 0) == Some(i as int),
            None => part_at(texts(parts@), t@, 0) is None,
        },
{
    let mut i: usize = 0;
    while i < parts.len()
        invariant
            i <= parts@.len(),
            part_at(texts(parts@), t@, 0) == part_at(texts(parts@), t@, i as int),
        decreases parts@.len() - i,
    {
        if same(&parts[i], t) {
            return Some(i);
        }
        i = i + 1;
    }
    None
}

/// The proof that a handler rejects where condition `pos` of its guard fails:
/// the hypothesis contradicts the conjuncts of that condition.
#[verifier::opaque]
pub open spec fn abort_proof(trans: Seq<char>, parts: Seq<Seq<char>>, pos: int) -> Seq<char> {
    let total = atoms(parts, parts.len());
    let ways = projections(atoms(parts, pos as nat), total, conjunct_count(parts[pos]));
    if total == 1 {
        " := by\n  unfold "@ + trans + "\n  rw [if_neg h]\n"@
    } else {
        " := by\n  unfold "@ + trans + "\n  rw [if_neg (fun hg => h "@ + (if ways.len() == 1 {
            ways[0]
        } else {
            "⟨"@ + join_text(ways, ", "@) + "⟩"@
        }) + ")]\n"@
    }
}

proof fn atoms_grow(parts: Seq<Seq<char>>, i: nat, n: nat)
    requires
        i <= n <= parts.len(),
    ensures
        atoms(parts, i) + (n - i) <= atoms(parts, n),
    decreases n - i,
{
    if i < n {
        atoms_grow(parts, i + 1, n);
    }
}

fn emit_abort_proof(out: &mut String, trans: &str, parts: &Vec<String>, pos: usize)
    requires
        pos < parts@.len(),
    ensures
        final(out)@ == old(out)@ + abort_proof(trans@, texts(parts@), pos as int),
{
    proof {
        reveal(abort_proof);
        atoms_grow(texts(parts@), (pos + 1) as nat, parts@.len());
    }
    let total = count_atoms(parts, parts.len());
    let start = count_atoms(parts, pos);
    let own = count_top_level_conjuncts(&parts[pos]);
    if total == 1 {
        out.push_str(" := by\n  unfold ");
        out.push_str(trans);
        out.push_str("\n  rw [if_neg h]\n");
        return ;
    }
    let mut ways: Vec<String> = Vec::new();
    let mut k: u128 = 0;
    while k < own
        invariant
            k <= own,
            start + own <= total,
            texts(ways@) == projections(start as nat, total as nat, k as nat),
            ways@.len() == k,
        decreases own - k,
    {
        ways.push(projection("hg", start + k, total));
        k = k + 1;
    }
    out.push_str(" := by\n  unfold ");
    out.push_str(trans);
    out.push_str("\n  rw [if_neg (fun hg => h ");
    if ways.len() == 1 {
        out.push_str(&ways[0]);
    } else {
        let joined = join(&ways, ", ");
        out.push_str("⟨");
        out.push_str(&joined);
        out.push_str("⟩");
    }
    out.push_str(")]\n");
}

// ---------------------------------------------------------------------------
// Names
// ---------------------------------------------------------------------------

/// How often the error occurs among the first `n` abort clauses.
pub open spec fn abort_errors(cs: Seq<AbortClause>, err: Seq<char>, n: nat) -> nat
    decreases n,
{
    if n == 0 {
        0
    } else {
        abort_errors(cs, err, (n - 1) as nat) + (if cs[n - 1].err@ == err {
            1nat
        } else {
            0nat
        })
    }
}

/// How often the error occurs among the first `n` preconditions.
pub open spec fn require_errors(cs: Seq<RequireOrAbortClause>, err: Seq<char>, n: nat) -> nat
    decreases n,
{
    if n == 0 {
        0
    } else {
        require_errors(cs, err, (n - 1) as nat) + (if cs[n - 1].err@ == err {
            1nat
        } else {
            0nat
        })
    }
}

/// How often the error occurs among the first `n` preconditions that a theorem
/// is stated of.
pub open spec fn stated_errors(
    cs: Seq<RequireOrAbortClause>,
    accounts: Seq<AccountBindingShape>,
    err: Seq<char>,
    n: nat,
) -> nat
    decreases n,
{
    if n == 0 {
        0
    } else {
        stated_errors(cs, accounts, err, (n - 1) as nat) + (if cs[n - 1].err@ == err
            && !mentions_pubkey(cs[n - 1].pred.0.lean@, accounts) {
            1nat
        } else {
            0nat
        })
    }
}

/// How often a handler names the error.
pub open spec fn error_total(h: HandlerMir, err: Seq<char>) -> nat {
    abort_errors(h.aborts_if@, err, h.aborts_if@.len()) + require_errors(
        h.requires_or_abort@,
        err,
        h.requires_or_abort@.len(),
    )
}

/// The name of the theorem for the occurrence `i` of an error: with a number
/// where the handler names the error more than once.
pub open spec fn abort_name(h: HandlerMir, err: Seq<char>, i: nat) -> Seq<char> {
    safe_text(
        h.name@ + "_aborts_if_"@ + err + (if error_total(h, err) > 1 {
            "_"@ + decimal(i)
        } else {
            Seq::empty()
        }),
    )
}

fn count_abort_errors(cs: &Vec<AbortClause>, err: &str, n: usize) -> (r: usize)
    requires
        n <= cs@.len(),
    ensures
        r == abort_errors(cs@, err@, n as nat),
        r <= n,
{
    let mut c: usize = 0;
    for i in 0..n
        invariant
            n <= cs@.len(),
            c <= i,
            c == abort_errors(cs@, err@, i as nat),
    {
        if same(&cs[i].err, err) {
            c = c + 1;
        }
    }
    c
}

fn count_require_errors(cs: &Vec<RequireOrAbortClause>, err: &str) -> (r: usize)
    ensures
        r == require_errors(cs@, err@, cs@.len()),
        r <= cs@.len(),
{
    let mut c: usize = 0;
    for i in 0..cs.len()
        invariant
            c <= i,
            c == require_errors(cs@, err@, i as nat),
    {
        if same(&cs[i].err, err) {
            c = c + 1;
        }
    }
    c
}

fn count_stated_errors(
    cs: &Vec<RequireOrAbortClause>,
    accounts: &Vec<AccountBindingShape>,
    err: &str,
    n: usize,
) -> (r: usize)
    requires
        n <= cs@.len(),
    ensures
        r == stated_errors(cs@, accounts@, err@, n as nat),
        r <= n,
{
    let mut c: usize = 0;
    for i in 0..n
        invariant
            n <= cs@.len(),
            c <= i,
            c == stated_errors(cs@, accounts@, err@, i as nat),
    {
        if same(&cs[i].err, err) && !mentions_handler_account_pubkey(
            &cs[i].pred.0.lean,
            accounts,
        ) {
            c = c + 1;
        }
    }
    c
}

fn abort_theorem_name(h: &HandlerMir, err: &str, i: u128) -> (r: String)
    ensures
        r@ == abort_name(*h, err@, i as nat),
{
    let a = count_abort_errors(&h.aborts_if, err, h.aborts_if.len());
    let b = count_require_errors(&h.requires_or_abort, err);
    let mut name = h.name.clone();
    name.push_str("_aborts_if_");
    name.push_str(err);
    if a as u128 + b as u128 > 1 {
        name.push_str("_");
        push_decimal(&mut name, i);
    }
    safe_name(&name)
}

// ---------------------------------------------------------------------------
// Theorems
// ---------------------------------------------------------------------------

/// The first line of a theorem about a rejection.
pub open spec fn abort_head(name: Seq<char>, h: HandlerMir) -> Seq<char> {
    "theorem "@ + name + " (s : State) (signer : Pubkey)"@ + sig_text(h.params@) + "\n"@
}

/// That a handler rejects.
pub open spec fn rejects_text(h: HandlerMir) -> Seq<char> {
    transition_text(h.name@) + " s signer"@ + args_text(h.params@) + " = none"@
}

fn rejection(h: &HandlerMir) -> (r: String)
    ensures
        r@ == rejects_text(*h),
{
    let mut out = transition_name(&h.name);
    let args = param_args_str(&h.params);
    out.push_str(" s signer");
    out.push_str(&args);
    out.push_str(" = none");
    out
}

/// The theorem for abort clause `i`: the handler rejects where the predicate
/// holds.
#[verifier::opaque]
pub open spec fn abort_clause_text(h: HandlerMir, sorry_form: Seq<char>, i: nat) -> Seq<char> {
    let c = h.aborts_if@[i as int];
    abort_head(abort_name(h, c.err@, abort_errors(h.aborts_if@, c.err@, i)), h) + ("    (h : "@ + c.pred.0.lean@ + ") : "@ + rejects_text(h) + " := "@ + sorry_form + "\n\n"@)
}

/// The theorems for the first `n` abort clauses.
pub open spec fn abort_clauses_upto(h: HandlerMir, sorry_form: Seq<char>, n: nat) -> Seq<char>
    decreases n,
{
    if n == 0 {
        Seq::empty()
    } else {
        abort_clauses_upto(h, sorry_form, (n - 1) as nat) + abort_clause_text(
            h,
            sorry_form,
            (n - 1) as nat,
        )
    }
}

fn emit_abort_clause(out: &mut String, h: &HandlerMir, sorry_form: &str, i: usize)
    requires
        i < h.aborts_if@.len(),
    ensures
        final(out)@ == old(out)@ + abort_clause_text(*h, sorry_form@, i as nat),
{
    proof {
        reveal(abort_clause_text);
    }
    let c = &h.aborts_if[i];
    let k = count_abort_errors(&h.aborts_if, &c.err, i);
    let name = abort_theorem_name(h, &c.err, k as u128);
    let sig = param_sig_str(&h.params);
    let rejects = rejection(h);
    out.push_str("theorem ");
    out.push_str(&name);
    out.push_str(" (s : State) (signer : Pubkey)");
    out.push_str(&sig);
    out.push_str("\n");
    out.push_str("    (h : ");
    out.push_str(&c.pred.0.lean);
    out.push_str(") : ");
    out.push_str(&rejects);
    out.push_str(" := ");
    out.push_str(sorry_form);
    out.push_str("\n\n");
}

fn emit_abort_clauses(out: &mut String, h: &HandlerMir, sorry_form: &str)
    ensures
        final(out)@ == old(out)@ + abort_clauses_upto(*h, sorry_form@, h.aborts_if@.len()),
{
    for i in 0..h.aborts_if.len()
        invariant
            out@ == old(out)@ + abort_clauses_upto(*h, sorry_form@, i as nat),
    {
        emit_abort_clause(out, h, sorry_form, i);
    }
}

/// How the theorem for a precondition ends: with a proof where the precondition
/// is one of the conditions of the guard, as a stub where it is not.
#[verifier::opaque]
pub open spec fn require_end(
    h: HandlerMir,
    parts: Seq<Seq<char>>,
    flat: bool,
    sorry_form: Seq<char>,
    pred: Seq<char>,
) -> Seq<char> {
    match part_at(parts, pred, 0) {
        Some(pos) => if flat {
            abort_proof(transition_text(h.name@), parts, pos) + "\n"@
        } else {
            " := by\n  unfold "@ + transition_text(h.name@) + "\n  cases s <;> simp_all\n"@ + "\n"@
        },
        None => " := "@ + sorry_form + "\n\n"@,
    }
}

fn emit_require_end(
    out: &mut String,
    h: &HandlerMir,
    parts: &Vec<String>,
    flat: bool,
    sorry_form: &str,
    pred: &str,
)
    ensures
        final(out)@ == old(out)@ + require_end(*h, texts(parts@), flat, sorry_form@, pred@),
{
    proof {
        reveal(require_end);
    }
    match find_part(parts, pred) {
        Some(pos) => {
            let trans = transition_name(&h.name);
            if flat {
                emit_abort_proof(out, &trans, parts, pos);
                out.push_str("\n");
            } else {
                out.push_str(" := by\n  unfold ");
                out.push_str(&trans);
                out.push_str("\n  cases s <;> simp_all\n");
                out.push_str("\n");
            }
        },
        None => {
            out.push_str(" := ");
            out.push_str(sorry_form);
            out.push_str("\n\n");
        },
    }
}

/// The theorem for precondition `i`: the handler rejects where the precondition
/// fails. Of one that speaks of a public key no theorem is stated.
#[verifier::opaque]
pub open spec fn require_text(
    h: HandlerMir,
    parts: Seq<Seq<char>>,
    flat: bool,
    sorry_form: Seq<char>,
    i: nat,
) -> Seq<char> {
    let cs = h.requires_or_abort@;
    let c = cs[i as int];
    if mentions_pubkey(c.pred.0.lean@, h.accounts@) {
        Seq::empty()
    } else {
        let k = abort_errors(h.aborts_if@, c.err@, h.aborts_if@.len()) + stated_errors(
            cs,
            h.accounts@,
            c.err@,
            i,
        );
        abort_head(abort_name(h, c.err@, k), h) + ("    (h : ¬("@ + c.pred.0.lean@ + ")) : "@ + rejects_text(h))
            + require_end(h, parts, flat, sorry_form, c.pred.0.lean@)
    }
}

fn emit_require(
    out: &mut String,
    h: &HandlerMir,
    parts: &Vec<String>,
    flat: bool,
    sorry_form: &str,
    i: usize,
)
    requires
        i < h.requires_or_abort@.len(),
    ensures
        final(out)@ == old(out)@ + require_text(*h, texts(parts@), flat, sorry_form@, i as nat),
{
    proof {
        reveal(require_text);
    }
    let c = &h.requires_or_abort[i];
    if !mentions_handler_account_pubkey(&c.pred.0.lean, &h.accounts) {
        let a = count_abort_errors(&h.aborts_if, &c.err, h.aborts_if.len());
        let b = count_stated_errors(&h.requires_or_abort, &h.accounts, &c.err, i);
        let name = abort_theorem_name(h, &c.err, a as u128 + b as u128);
        let sig = param_sig_str(&h.params);
        let rejects = rejection(h);
        out.push_str("theorem ");
        out.push_str(&name);
        out.push_str(" (s : State) (signer : Pubkey)");
        out.push_str(&sig);
        out.push_str("\n");
        out.push_str("    (h : ¬(");
        out.push_str(&c.pred.0.lean);
        out.push_str(")) : ");
        out.push_str(&rejects);
        emit_require_end(out, h, parts, flat, sorry_form, &c.pred.0.lean);
    }
}

/// The theorems for the first `n` preconditions that name an error.
pub open spec fn requires_upto(
    h: HandlerMir,
    parts: Seq<Seq<char>>,
    flat: bool,
    sorry_form: Seq<char>,
    n: nat,
) -> Seq<char>
    decreases n,
{
    if n == 0 {
        Seq::empty()
    } else {
        requires_upto(h, parts, flat, sorry_form, (n - 1) as nat) + require_text(
            h,
            parts,
            flat,
            sorry_form,
            (n - 1) as nat,
        )
    }
}

fn emit_requires(out: &mut String, h: &HandlerMir, parts: &Vec<String>, flat: bool, sorry_form: &str)
    ensures
        final(out)@ == old(out)@ + requires_upto(
            *h,
            texts(parts@),
            flat,
            sorry_form@,
            h.requires_or_abort@.len(),
        ),
{
    for i in 0..h.requires_or_abort.len()
        invariant
            out@ == old(out)@ + requires_upto(*h, texts(parts@), flat, sorry_form@, i as nat),
    {
        emit_require(out, h, parts, flat, sorry_form, i);
    }
}

/// All conditions of rejection: the first `n` abort clauses.
pub open spec fn abort_preds(cs: Seq<AbortClause>, n: nat) -> Seq<Seq<char>>
    decreases n,
{
    if n == 0 {
        Seq::empty()
    } else {
        abort_preds(cs, (n - 1) as nat).push(cs[n - 1].pred.0.lean@)
    }
}

/// With the negations of the first `n` preconditions.
pub open spec fn with_negations(
    acc: Seq<Seq<char>>,
    cs: Seq<RequireOrAbortClause>,
    n: nat,
) -> Seq<Seq<char>>
    decreases n,
{
    if n == 0 {
        acc
    } else {
        with_negations(acc, cs, (n - 1) as nat).push("¬("@ + cs[n - 1].pred.0.lean@ + ")"@)
    }
}

/// The conditions of rejection of a handler.
pub open spec fn rejection_preds(h: HandlerMir) -> Seq<Seq<char>> {
    with_negations(
        abort_preds(h.aborts_if@, h.aborts_if@.len()),
        h.requires_or_abort@,
        h.requires_or_abort@.len(),
    )
}

/// The theorem that a handler rejects exactly under its conditions of
/// rejection.
#[verifier::opaque]
pub open spec fn aborts_iff_text(h: HandlerMir, sorry_form: Seq<char>) -> Seq<char> {
    "theorem "@ + safe_text(h.name@ + "_aborts_iff"@) + " (s : State) (signer : Pubkey)"@ + sig_text(h.params@) + " :\n"@
        + ("    "@ + rejects_text(h) + " ↔\n"@ + "    ("@ + join_text(rejection_preds(h), " ∨ "@) + ") := "@ + sorry_form + "\n\n"@)
}

fn emit_aborts_iff(out: &mut String, h: &HandlerMir, sorry_form: &str)
    ensures
        final(out)@ == old(out)@ + aborts_iff_text(*h, sorry_form@),
{
    proof {
        reveal(aborts_iff_text);
    }
    let mut name = h.name.clone();
    name.push_str("_aborts_iff");
    let theorem = safe_name(&name);
    let sig = param_sig_str(&h.params);
    let rejects = rejection(h);
    let mut preds: Vec<String> = Vec::new();
    for i in 0..h.aborts_if.len()
        invariant
            texts(preds@) == abort_preds(h.aborts_if@, i as nat),
    {
        preds.push(h.aborts_if[i].pred.0.lean.clone());
    }
    let ghost acc = abort_preds(h.aborts_if@, h.aborts_if@.len());
    for i in 0..h.requires_or_abort.len()
        invariant
            texts(preds@) == with_negations(acc, h.requires_or_abort@, i as nat),
    {
        let mut p = "¬(".to_owned();
        p.push_str(&h.requires_or_abort[i].pred.0.lean);
        p.push_str(")");
        preds.push(p);
    }
    let joined = join(&preds, " ∨ ");
    out.push_str("theorem ");
    out.push_str(&theorem);
    out.push_str(" (s : State) (signer : Pubkey)");
    out.push_str(&sig);
    out.push_str(" :\n");
    out.push_str("    ");
    out.push_str(&rejects);
    out.push_str(" ↔\n");
    out.push_str("    (");
    out.push_str(&joined);
    out.push_str(") := ");
    out.push_str(sorry_form);
    out.push_str("\n\n");
}

/// Whether a handler has conditions of rejection.
pub open spec fn can_abort(h: HandlerMir) -> bool {
    h.aborts_if@.len() > 0 || h.requires_or_abort@.len() > 0
}

/// The theorems about the rejections of a handler: one for all where the spec
/// says that its conditions are exhaustive, or else one for each.
#[verifier::opaque]
pub open spec fn handler_aborts_text(
    sc: ScopeV,
    h: HandlerMir,
    flat: bool,
    sorry_form: Seq<char>,
) -> Seq<char> {
    if !can_abort(h) {
        Seq::empty()
    } else if h.aborts_total {
        aborts_iff_text(h, sorry_form)
    } else {
        abort_clauses_upto(h, sorry_form, h.aborts_if@.len()) + requires_upto(
            h,
            guard_parts(sc, h),
            flat,
            sorry_form,
            h.requires_or_abort@.len(),
        )
    }
}

fn emit_handler_aborts(out: &mut String, sc: &Scope, h: &HandlerMir, flat: bool, sorry_form: &str)
    ensures
        final(out)@ == old(out)@ + handler_aborts_text(sc@, *h, flat, sorry_form@),
{
    proof {
        reveal(handler_aborts_text);
    }
    if h.aborts_if.len() == 0 && h.requires_or_abort.len() == 0 {
        return ;
    }
    if h.aborts_total {
        emit_aborts_iff(out, h, sorry_form);
        return ;
    }
    emit_abort_clauses(out, h, sorry_form);
    let parts = build_guard_cond_parts(sc, h);
    emit_requires(out, h, &parts, flat, sorry_form);
}

/// Whether one of the first `n` handlers has conditions of rejection.
pub open spec fn some_abort(hs: Seq<HandlerMir>, n: nat) -> bool
    decreases n,
{
    if n == 0 {
        false
    } else {
        some_abort(hs, (n - 1) as nat) || can_abort(hs[n - 1])
    }
}

pub open spec fn aborts_upto(sc: ScopeV, flat: bool, sorry_form: Seq<char>, n: nat) -> Seq<char>
    decreases n,
{
    if n == 0 {
        Seq::empty()
    } else {
        aborts_upto(sc, flat, sorry_form, (n - 1) as nat) + handler_aborts_text(
            sc,
            sc.handlers[n - 1],
            flat,
            sorry_form,
        )
    }
}

/// The theorems about the rejections of the handlers.
pub open spec fn aborts_text(sc: ScopeV, flat: bool) -> Seq<char> {
    if some_abort(sc.handlers, sc.handlers.len()) {
        RULE@ + "-- Abort conditions — operations must reject under specified conditions\n"@ + RULE@
            + "\n"@ + aborts_upto(
            sc,
            flat,
            if flat {
                "sorry"@
            } else {
                "by sorry"@
            },
            sc.handlers.len(),
        )
    } else {
        Seq::empty()
    }
}

/// Renders the theorems about the rejections, on the flat or on the inductive
/// state.
pub fn emit_aborts_if(out: &mut String, sc: &Scope, flat: bool)
    ensures
        final(out)@ == old(out)@ + aborts_text(sc@, flat),
{
    let mut found: bool = false;
    for i in 0..sc.handlers.len()
        invariant
            found == some_abort(sc@.handlers, i as nat),
    {
        if sc.handlers[i].aborts_if.len() > 0 || sc.handlers[i].requires_or_abort.len() > 0 {
            found = true;
        }
    }
    if !found {
        return ;
    }
    out.push_str(RULE);
    out.push_str("-- Abort conditions — operations must reject under specified conditions\n");
    out.push_str(RULE);
    out.push_str("\n");
    let sorry_form: &str = if flat {
        "sorry"
    } else {
        "by sorry"
    };
    let ghost base = out@;
    for i in 0..sc.handlers.len()
        invariant
            out@ == base + aborts_upto(sc@, flat, sorry_form@, i as nat),
    {
        emit_handler_aborts(out, sc, sc.handlers[i], flat, sorry_form);
    }
}

} // verus!
