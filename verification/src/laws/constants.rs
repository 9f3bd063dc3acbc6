//! What the fixed texts of a rendered file say.
use vstd::prelude::*;

use crate::laws::claims::transfers_have_their_shape;
use crate::laws::stands::{stands, stands_through};
use crate::lean::base::{safe_text, transition_text};
use crate::lean::cpi::{transfer_theorem, TRANSFER_CLAIM, TRANSFER_SHAPE};
use crate::lean::liveness::{liveness_heading, liveness_text, lives_text, step_bound, APPLY_OPS};
use crate::lean::scope::ScopeV;
use crate::mir::LivenessMir;
use crate::search::contains_text;

verus! {

broadcast use crate::text::group_text;

#[verifier::rlimit(60)]
proof fn lemma_shape()
    ensures
        TRANSFER_SHAPE@ == "  { programId := TOKEN_PROGRAM_ID\n"@ + ("  , accounts :=\n      [ "@
            + "⟨from_pk, false, true⟩\n      , "@ + "⟨to_pk, false, true⟩\n      , "@
            + "⟨authority_pk, true, false⟩\n      ]\n"@) + "  , data := DISC_TRANSFER }\n\n"@,
{
    reveal_strlit("  { programId := TOKEN_PROGRAM_ID\n  , accounts :=\n      [ ⟨from_pk, false, true⟩\n      , ⟨to_pk, false, true⟩\n      , ⟨authority_pk, true, false⟩\n      ]\n  , data := DISC_TRANSFER }\n\n");
    reveal_strlit("  { programId := TOKEN_PROGRAM_ID\n");
    reveal_strlit("  , accounts :=\n      [ ");
    reveal_strlit("⟨from_pk, false, true⟩\n      , ");
    reveal_strlit("⟨to_pk, false, true⟩\n      , ");
    reveal_strlit("⟨authority_pk, true, false⟩\n      ]\n");
    reveal_strlit("  , data := DISC_TRANSFER }\n\n");
    assert(TRANSFER_SHAPE@ =~= "  { programId := TOKEN_PROGRAM_ID\n"@ + ("  , accounts :=\n      [ "@
        + "⟨from_pk, false, true⟩\n      , "@ + "⟨to_pk, false, true⟩\n      , "@
        + "⟨authority_pk, true, false⟩\n      ]\n"@) + "  , data := DISC_TRANSFER }\n\n"@);
}

#[verifier::rlimit(60)]
proof fn lemma_claim()
    ensures
        TRANSFER_CLAIM@ == "    targetsProgram cpi TOKEN_PROGRAM_ID ∧\n"@
            + "    accountAt cpi 0 from_pk false true ∧\n"@
            + "    accountAt cpi 1 to_pk false true ∧\n"@
            + "    accountAt cpi 2 authority_pk true false ∧\n"@
            + "    hasDiscriminator cpi DISC_TRANSFER := by\n"@,
{
    reveal_strlit("    targetsProgram cpi TOKEN_PROGRAM_ID ∧\n    accountAt cpi 0 from_pk false true ∧\n    accountAt cpi 1 to_pk false true ∧\n    accountAt cpi 2 authority_pk true false ∧\n    hasDiscriminator cpi DISC_TRANSFER := by\n");
    reveal_strlit("    targetsProgram cpi TOKEN_PROGRAM_ID ∧\n");
    reveal_strlit("    accountAt cpi 0 from_pk false true ∧\n");
    reveal_strlit("    accountAt cpi 1 to_pk false true ∧\n");
    reveal_strlit("    accountAt cpi 2 authority_pk true false ∧\n");
    reveal_strlit("    hasDiscriminator cpi DISC_TRANSFER := by\n");
    assert(TRANSFER_CLAIM@ =~= "    targetsProgram cpi TOKEN_PROGRAM_ID ∧\n"@
        + "    accountAt cpi 0 from_pk false true ∧\n"@ + "    accountAt cpi 1 to_pk false true ∧\n"@
        + "    accountAt cpi 2 authority_pk true false ∧\n"@
        + "    hasDiscriminator cpi DISC_TRANSFER := by\n"@);
}

/// The instruction of a transfer lists the account that it is from, the one that
/// it is to and the authority, in this order; the first two are writable, and the
/// authority alone signs. The theorem claims each of them at its place.
pub proof fn transfers_list_their_accounts(handler: Seq<char>, suffix: Seq<char>)
    ensures
        ({
            let t = transfer_theorem(handler, suffix);
            &&& contains_text(t, "  { programId := TOKEN_PROGRAM_ID\n"@)
            &&& contains_text(
                t,
                "  , accounts :=\n      [ "@ + "⟨from_pk, false, true⟩\n      , "@
                    + "⟨to_pk, false, true⟩\n      , "@ + "⟨authority_pk, true, false⟩\n      ]\n"@,
            )
            &&& contains_text(t, "  , data := DISC_TRANSFER }\n\n"@)
            &&& contains_text(t, "    targetsProgram cpi TOKEN_PROGRAM_ID ∧\n"@)
            &&& contains_text(t, "    accountAt cpi 0 from_pk false true ∧\n"@)
            &&& contains_text(t, "    accountAt cpi 1 to_pk false true ∧\n"@)
            &&& contains_text(t, "    accountAt cpi 2 authority_pk true false ∧\n"@)
            &&& contains_text(t, "    hasDiscriminator cpi DISC_TRANSFER := by\n"@)
        }),
{
    let t = transfer_theorem(handler, suffix);
    transfers_have_their_shape(handler, suffix);
    lemma_shape();
    lemma_claim();
    lemma_parts(
        t,
        "  { programId := TOKEN_PROGRAM_ID\n"@,
        "  , accounts :=\n      [ "@ + "⟨from_pk, false, true⟩\n      , "@
            + "⟨to_pk, false, true⟩\n      , "@ + "⟨authority_pk, true, false⟩\n      ]\n"@,
        "  , data := DISC_TRANSFER }\n\n"@,
        Seq::empty(),
        Seq::empty(),
        TRANSFER_SHAPE@,
    );
    lemma_parts(
        t,
        "    targetsProgram cpi TOKEN_PROGRAM_ID ∧\n"@,
        "    accountAt cpi 0 from_pk false true ∧\n"@,
        "    accountAt cpi 1 to_pk false true ∧\n"@,
        "    accountAt cpi 2 authority_pk true false ∧\n"@,
        "    hasDiscriminator cpi DISC_TRANSFER := by\n"@,
        TRANSFER_CLAIM@,
    );
}

proof fn lemma_parts(
    t: Seq<char>,
    a: Seq<char>,
    b: Seq<char>,
    c: Seq<char>,
    d: Seq<char>,
    e: Seq<char>,
    all: Seq<char>,
)
    requires
        contains_text(t, all),
        all == a + b + c + d + e || (d.len() == 0 && e.len() == 0 && all == a + b + c),
    ensures
        contains_text(t, a),
        contains_text(t, b),
        contains_text(t, c),
        contains_text(t, d),
        contains_text(t, e),
{
    assert(all =~= a + b + c + d + e);
    stands(Seq::empty(), a, b + c + d + e);
    stands(a, b, c + d + e);
    stands(a + b, c, d + e);
    stands(a + b + c, d, e);
    stands(a + b + c + d, e, Seq::empty());
    stands_through(t, all, a);
    stands_through(t, all, b);
    stands_through(t, all, c);
    stands_through(t, all, d);
    stands_through(t, all, e);
}

#[verifier::rlimit(60)]
proof fn lemma_apply_ops()
    ensures
        APPLY_OPS@
            == "def applyOps (s : State) (signer : Pubkey) : List Operation → Option State\n"@
            + "  | [] => some s\n"@ + ("  | op :: ops => match applyOp s signer op with\n"@
            + "    | some s' => applyOps s' signer ops\n"@ + "    | none => none\n\n"@),
{
    reveal_strlit("def applyOps (s : State) (signer : Pubkey) : List Operation → Option State\n  | [] => some s\n  | op :: ops => match applyOp s signer op with\n    | some s' => applyOps s' signer ops\n    | none => none\n\n");
    reveal_strlit("def applyOps (s : State) (signer : Pubkey) : List Operation → Option State\n");
    reveal_strlit("  | [] => some s\n");
    reveal_strlit("  | op :: ops => match applyOp s signer op with\n");
    reveal_strlit("    | some s' => applyOps s' signer ops\n");
    reveal_strlit("    | none => none\n\n");
    assert(APPLY_OPS@
        =~= "def applyOps (s : State) (signer : Pubkey) : List Operation → Option State\n"@
        + "  | [] => some s\n"@ + ("  | op :: ops => match applyOp s signer op with\n"@
        + "    | some s' => applyOps s' signer ops\n"@ + "    | none => none\n\n"@));
}

/// A list of operations runs one operation behind the other, from the state that
/// each leads to; no operation leaves the state, and one that aborts ends it all.
pub proof fn operations_run_one_by_one()
    ensures
        contains_text(APPLY_OPS@, "  | [] => some s\n"@),
        contains_text(
            APPLY_OPS@,
            "  | op :: ops => match applyOp s signer op with\n"@
                + "    | some s' => applyOps s' signer ops\n"@ + "    | none => none\n\n"@,
        ),
{
    lemma_apply_ops();
    let a = "def applyOps (s : State) (signer : Pubkey) : List Operation → Option State\n"@;
    let c = "  | op :: ops => match applyOp s signer op with\n"@
        + "    | some s' => applyOps s' signer ops\n"@ + "    | none => none\n\n"@;
    stands(a, "  | [] => some s\n"@, c);
    stands(a + "  | [] => some s\n"@, c, Seq::empty());
}

/// Where there are liveness claims and operations, the file says how operations
/// run; a claim without a bound of its own allows ten steps.
pub proof fn liveness_claims_run_operations(sc: ScopeV, adt: bool, l: LivenessMir)
    ensures
        sc.liveness.len() > 0 && sc.handlers.len() > 0 ==> contains_text(
            liveness_text(sc, adt),
            APPLY_OPS@,
        ),
        sc.liveness.len() > 0 ==> contains_text(liveness_text(sc, adt), lives_text(sc, adt)),
        l.within_steps is Some ==> step_bound(l) == l.within_steps->0,
        l.within_steps is None ==> step_bound(l) == 10,
{
    if sc.liveness.len() > 0 {
        let m = if sc.handlers.len() > 0 {
            APPLY_OPS@
        } else {
            Seq::empty()
        };
        let h = liveness_heading();
        let z = lives_text(sc, adt);
        stands(h, m, z);
        stands(h + m, z, Seq::empty());
        assert(liveness_text(sc, adt) == h + m + z);
    }
}

/// A name stands as it is, or in quotation marks where Lean has a meaning for it;
/// a transition is named after its handler.
pub proof fn names_are_kept(name: Seq<char>)
    ensures
        safe_text(name) == name || safe_text(name) == "«"@ + name + "»"@,
        name == "open"@ || name == "close"@ || name == "initialize"@ || name == "end"@ || name
            == "match"@ || name == "return"@ || name == "if"@ || name == "let"@ || name == "with"@
            || name == "where"@ ==> safe_text(name) == "«"@ + name + "»"@,
        transition_text(name) == name + "Transition"@ || transition_text(name) == "«"@ + (name
            + "Transition"@) + "»"@,
{
    reveal(safe_text);
}

} // verus!
