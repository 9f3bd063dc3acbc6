//! The fixed parts of the output: imports, constants, helpers, the state and
//! the operations.
use vstd::prelude::*;

use crate::lean::base::{
    args_text, default_text, dsl_ty_text, map_dsl_ty, param_args_str, render_ty, safe_name,
    safe_text, transition_name, transition_text, ty_default_literal, ty_text,
};
use crate::lean::scope::{
    find_field, flat_fields, flat_state_fields, has_field, refs, Scope, ScopeV, VariantRef,
    VariantV,
};
use crate::mir::{FieldDecl, HandlerMir, RefImpl, Symbol, Ty, UninterpretedHelper};
use crate::text::{join, join_text, same, texts};

verus! {

broadcast use {crate::text::group_text, crate::text::texts_index, crate::text::texts_len};

// ---------------------------------------------------------------------------
// Frame of the file
// ---------------------------------------------------------------------------

/// The imports of every state machine.
pub const HEADER: &'static str = "import QEDGen.Solana.Account\nimport QEDGen.Solana.Cpi\nimport QEDGen.Solana.State\nimport QEDGen.Solana.Valid\n\n";

pub open spec fn open_text(name: Seq<char>) -> Seq<char> {
    "namespace "@ + name + "\n\n"@ + "open QEDGen.Solana\n\n"@
}

pub fn emit_namespace_open(out: &mut String, name: &str)
    ensures
        final(out)@ == old(out)@ + open_text(name@),
{
    out.push_str("namespace ");
    out.push_str(name);
    out.push_str("\n\n");
    out.push_str("open QEDGen.Solana\n\n");
}

pub open spec fn close_text(name: Seq<char>) -> Seq<char> {
    "end "@ + name + "\n"@
}

pub fn emit_namespace_close(out: &mut String, name: &str)
    ensures
        final(out)@ == old(out)@ + close_text(name@),
{
    out.push_str("end ");
    out.push_str(name);
    out.push_str("\n");
}

/// One line for each of the first `n` constants.
pub open spec fn constant_lines(cs: Seq<(Symbol, String)>, n: nat) -> Seq<char>
    decreases n,
{
    if n == 0 {
        Seq::empty()
    } else {
        constant_lines(cs, (n - 1) as nat) + ("abbrev "@ + safe_text(cs[n - 1].0@) + " : Nat := "@ + cs[n - 1].1@ + "\n"@)
    }
}

/// The constants, and a blank line after them where there are any.
pub open spec fn constants_text(cs: Seq<(Symbol, String)>) -> Seq<char> {
    if cs.len() == 0 {
        Seq::empty()
    } else {
        constant_lines(cs, cs.len()) + "\n"@
    }
}

pub fn emit_constants(out: &mut String, cs: &Vec<(Symbol, String)>)
    ensures
        final(out)@ == old(out)@ + constants_text(cs@),
{
    if cs.len() == 0 {
        return ;
    }
    for i in 0..cs.len()
        invariant
            out@ == old(out)@ + constant_lines(cs@, i as nat),
    {
        let name = safe_name(&cs[i].0);
        out.push_str("abbrev ");
        out.push_str(&name);
        out.push_str(" : Nat := ");
        out.push_str(&cs[i].1);
        out.push_str("\n");
    }
    out.push_str("\n");
}

/// What the section of uninterpreted helpers starts with.
pub const HELPERS_NOTE: &'static str = "-- Uninterpreted helpers: declared opaquely so generated\n-- transitions typecheck even though the DSL doesn't model\n-- their semantics. Treat each as an abstract Bool predicate;\n-- strengthen into a concrete definition in your support\n-- module if you want to discharge it (rather than trust it).\n-- `opaque` keeps the transition functions computable\n-- (axioms would force them noncomputable).\n";

/// The signature of a helper: its argument types and its return type, with
/// arrows between them.
pub open spec fn helper_sig(h: UninterpretedHelper) -> Seq<char> {
    join_text(texts(h.arg_types@).push(h.return_type@), " → "@)
}

pub open spec fn helper_lines(hs: Seq<UninterpretedHelper>, n: nat) -> Seq<char>
    decreases n,
{
    if n == 0 {
        Seq::empty()
    } else {
        helper_lines(hs, (n - 1) as nat) + ("opaque "@ + safe_text(hs[n - 1].name@) + " : "@ + helper_sig(hs[n - 1]) + "\n"@)
    }
}

pub open spec fn helpers_text(hs: Seq<UninterpretedHelper>) -> Seq<char> {
    if hs.len() == 0 {
        Seq::empty()
    } else {
        HELPERS_NOTE@ + helper_lines(hs, hs.len()) + "\n"@
    }
}

pub fn emit_uninterpreted_helpers(out: &mut String, hs: &Vec<UninterpretedHelper>)
    ensures
        final(out)@ == old(out)@ + helpers_text(hs@),
{
    if hs.len() == 0 {
        return ;
    }
    out.push_str(HELPERS_NOTE);
    for i in 0..hs.len()
        invariant
            out@ == old(out)@ + HELPERS_NOTE@ + helper_lines(hs@, i as nat),
    {
        let mut parts = crate::text::copy_strings(&hs[i].arg_types);
        parts.push(hs[i].return_type.clone());
        let sig = join(&parts, " → ");
        let name = safe_name(&hs[i].name);
        out.push_str("opaque ");
        out.push_str(&name);
        out.push_str(" : ");
        out.push_str(&sig);
        out.push_str("\n");
    }
    out.push_str("\n");
}

/// What the section of reference implementations starts with.
pub const REF_IMPLS_NOTE: &'static str = "-- Reference implementations: pure expressions named so\n-- ensures clauses can call them. The user's Rust impl is\n-- verified to satisfy the ensures referencing these, not\n-- forced to implement them verbatim.\n";

/// The first `n` parameters of a reference implementation.
pub open spec fn ref_params(ps: Seq<(Symbol, String)>, n: nat) -> Seq<Seq<char>>
    decreases n,
{
    if n == 0 {
        Seq::empty()
    } else {
        ref_params(ps, (n - 1) as nat).push("("@ + safe_text(ps[n - 1].0@) + " : "@ + dsl_ty_text(ps[n - 1].1@) + ")"@)
    }
}

/// The definition of a reference implementation.
#[verifier::opaque]
pub open spec fn ref_impl_text(r: RefImpl) -> Seq<char> {
    let params = join_text(ref_params(r.params@, r.params@.len()), " "@);
    "def "@ + safe_text(r.name@) + " "@ + (if params.len() == 0 {
        Seq::empty()
    } else {
        params + " "@
    }) + (": "@ + dsl_ty_text(r.return_type@) + " := "@ + r.lean_body@ + "\n"@)
}

fn emit_ref_impl(out: &mut String, r: &RefImpl)
    ensures
        final(out)@ == old(out)@ + ref_impl_text(*r),
{
    proof {
        reveal(ref_impl_text);
    }
    let mut parts: Vec<String> = Vec::new();
    for i in 0..r.params.len()
        invariant
            texts(parts@) == ref_params(r.params@, i as nat),
    {
        let mut p = "(".to_owned();
        let name = safe_name(&r.params[i].0);
        let ty = map_dsl_ty(&r.params[i].1);
        p.push_str(&name);
        p.push_str(" : ");
        p.push_str(&ty);
        p.push_str(")");
        parts.push(p);
    }
    let params = join(&parts, " ");
    let name = safe_name(&r.name);
    let ret = map_dsl_ty(&r.return_type);
    out.push_str("def ");
    out.push_str(&name);
    out.push_str(" ");
    if !params.as_str().is_empty() {
        out.push_str(&params);
        out.push_str(" ");
    }
    out.push_str(": ");
    out.push_str(&ret);
    out.push_str(" := ");
    out.push_str(&r.lean_body);
    out.push_str("\n");
}

pub open spec fn ref_impl_lines(rs: Seq<RefImpl>, n: nat) -> Seq<char>
    decreases n,
{
    if n == 0 {
        Seq::empty()
    } else {
        ref_impl_lines(rs, (n - 1) as nat) + ref_impl_text(rs[n - 1])
    }
}

pub open spec fn ref_impls_text(rs: Seq<RefImpl>) -> Seq<char> {
    if rs.len() == 0 {
        Seq::empty()
    } else {
        REF_IMPLS_NOTE@ + ref_impl_lines(rs, rs.len()) + "\n"@
    }
}

pub fn emit_ref_impls(out: &mut String, rs: &Vec<RefImpl>)
    ensures
        final(out)@ == old(out)@ + ref_impls_text(rs@),
{
    if rs.len() == 0 {
        return ;
    }
    out.push_str(REF_IMPLS_NOTE);
    for i in 0..rs.len()
        invariant
            out@ == old(out)@ + REF_IMPLS_NOTE@ + ref_impl_lines(rs@, i as nat),
    {
        emit_ref_impl(out, &rs[i]);
    }
    out.push_str("\n");
}

// ---------------------------------------------------------------------------
// The flat state
// ---------------------------------------------------------------------------

pub open spec fn marker_lines(states: Seq<Seq<char>>, n: nat) -> Seq<char>
    decreases n,
{
    if n == 0 {
        Seq::empty()
    } else {
        marker_lines(states, (n - 1) as nat) + ("  | "@ + safe_text(states[n - 1]) + "\n"@)
    }
}

/// The lifecycle states as a type, where there are two or more.
pub open spec fn marker_text(sc: ScopeV) -> Seq<char> {
    if !sc.has_marker() {
        Seq::empty()
    } else {
        "inductive Status where\n"@ + marker_lines(sc.lifecycle, sc.lifecycle.len())
            + "  deriving Repr, DecidableEq, BEq, Inhabited\n\n"@
    }
}

pub fn emit_lifecycle_marker(out: &mut String, sc: &Scope)
    ensures
        final(out)@ == old(out)@ + marker_text(sc@),
{
    if sc.lifecycle.len() < 2 {
        return ;
    }
    out.push_str("inductive Status where\n");
    for i in 0..sc.lifecycle.len()
        invariant
            out@ == old(out)@ + "inductive Status where\n"@ + marker_lines(
                sc@.lifecycle,
                i as nat,
            ),
    {
        let s = safe_name(&sc.lifecycle[i]);
        out.push_str("  | ");
        out.push_str(&s);
        out.push_str("\n");
    }
    out.push_str("  deriving Repr, DecidableEq, BEq, Inhabited\n\n");
}

pub open spec fn field_lines(fs: Seq<FieldDecl>, n: nat) -> Seq<char>
    decreases n,
{
    if n == 0 {
        Seq::empty()
    } else {
        field_lines(fs, (n - 1) as nat) + ("  "@ + safe_text(fs[n - 1].name@) + " : "@ + ty_text(fs[n - 1].ty) + "\n"@)
    }
}

/// The state as one structure: the fields of all variants, and the lifecycle
/// marker where there is one.
pub open spec fn state_text(sc: ScopeV) -> Seq<char> {
    if sc.variants.len() == 0 {
        Seq::empty()
    } else {
        let fs = flat_fields(sc.variants);
        "structure State where\n"@ + field_lines(fs, fs.len()) + (if sc.has_marker() {
            "  status : Status\n"@
        } else {
            Seq::empty()
        }) + "  deriving Repr, DecidableEq, BEq, Inhabited\n\n"@
    }
}

pub fn emit_state_struct(out: &mut String, sc: &Scope)
    ensures
        final(out)@ == old(out)@ + state_text(sc@),
{
    if sc.variants.len() == 0 {
        return ;
    }
    let fields = flat_state_fields(&sc.variants);
    let ghost fs = flat_fields(sc@.variants);
    out.push_str("structure State where\n");
    for i in 0..fields.len()
        invariant
            refs(fields@) == fs,
            out@ == old(out)@ + "structure State where\n"@ + field_lines(fs, i as nat),
    {
        let name = safe_name(&fields[i].name);
        let ty = render_ty(&fields[i].ty);
        out.push_str("  ");
        out.push_str(&name);
        out.push_str(" : ");
        out.push_str(&ty);
        out.push_str("\n");
    }
    if sc.lifecycle.len() >= 2 {
        out.push_str("  status : Status\n");
    }
    out.push_str("  deriving Repr, DecidableEq, BEq, Inhabited\n\n");
}

// ---------------------------------------------------------------------------
// Operations
// ---------------------------------------------------------------------------

/// The first `n` parameters as binders.
pub open spec fn binder_parts(params: Seq<(Symbol, Ty)>, n: nat) -> Seq<Seq<char>>
    decreases n,
{
    if n == 0 {
        Seq::empty()
    } else {
        binder_parts(params, (n - 1) as nat).push("("@ + params[n - 1].0@ + " : "@ + ty_text(params[n - 1].1) + ")"@)
    }
}

/// The constructor of a handler's operation.
#[verifier::opaque]
pub open spec fn ctor_text(h: HandlerMir) -> Seq<char> {
    "  | "@ + safe_text(h.name@) + (if h.params@.len() == 0 {
        Seq::empty()
    } else {
        " "@ + join_text(binder_parts(h.params@, h.params@.len()), " "@)
    }) + "\n"@
}

fn emit_ctor(out: &mut String, h: &HandlerMir)
    ensures
        final(out)@ == old(out)@ + ctor_text(*h),
{
    proof {
        reveal(ctor_text);
    }
    let name = safe_name(&h.name);
    out.push_str("  | ");
    out.push_str(&name);
    if h.params.len() > 0 {
        let mut parts: Vec<String> = Vec::new();
        for i in 0..h.params.len()
            invariant
                texts(parts@) == binder_parts(h.params@, i as nat),
        {
            let ty = render_ty(&h.params[i].1);
            let mut p = "(".to_owned();
            p.push_str(&h.params[i].0);
            p.push_str(" : ");
            p.push_str(&ty);
            p.push_str(")");
            parts.push(p);
        }
        let joined = join(&parts, " ");
        out.push_str(" ");
        out.push_str(&joined);
    }
    out.push_str("\n");
}

pub open spec fn ctor_lines(hs: Seq<HandlerMir>, n: nat) -> Seq<char>
    decreases n,
{
    if n == 0 {
        Seq::empty()
    } else {
        ctor_lines(hs, (n - 1) as nat) + ctor_text(hs[n - 1])
    }
}

/// The case of `applyOp` for a handler.
pub open spec fn dispatch_text(h: HandlerMir) -> Seq<char> {
    "  | ."@ + safe_text(h.name@) + args_text(h.params@) + " => "@ + transition_text(h.name@) + " s signer"@ + args_text(h.params@) + "\n"@
}

pub open spec fn dispatch_lines(hs: Seq<HandlerMir>, n: nat) -> Seq<char>
    decreases n,
{
    if n == 0 {
        Seq::empty()
    } else {
        dispatch_lines(hs, (n - 1) as nat) + dispatch_text(hs[n - 1])
    }
}

/// The operations as a type, and the function that applies one.
pub open spec fn operations_text(sc: ScopeV) -> Seq<char> {
    if sc.handlers.len() == 0 {
        Seq::empty()
    } else {
        "inductive Operation where\n"@ + ctor_lines(sc.handlers, sc.handlers.len())
            + "  deriving Repr, DecidableEq, BEq\n\n"@
            + "def applyOp (s : State) (signer : Pubkey) : Operation → Option State\n"@
            + dispatch_lines(sc.handlers, sc.handlers.len()) + "\n"@
    }
}

pub fn emit_operation_inductive(out: &mut String, sc: &Scope)
    ensures
        final(out)@ == old(out)@ + operations_text(sc@),
{
    if sc.handlers.len() == 0 {
        return ;
    }
    let ghost hs = sc@.handlers;
    out.push_str("inductive Operation where\n");
    let ghost base = out@;
    for i in 0..sc.handlers.len()
        invariant
            hs == sc@.handlers,
            out@ == base + ctor_lines(hs, i as nat),
    {
        emit_ctor(out, sc.handlers[i]);
    }
    out.push_str("  deriving Repr, DecidableEq, BEq\n\n");
    out.push_str("def applyOp (s : State) (signer : Pubkey) : Operation → Option State\n");
    let ghost base2 = out@;
    for i in 0..sc.handlers.len()
        invariant
            hs == sc@.handlers,
            out@ == base2 + dispatch_lines(hs, i as nat),
    {
        let h = sc.handlers[i];
        let ctor = safe_name(&h.name);
        let trans = transition_name(&h.name);
        let args = param_args_str(&h.params);
        out.push_str("  | .");
        out.push_str(&ctor);
        out.push_str(&args);
        out.push_str(" => ");
        out.push_str(&trans);
        out.push_str(" s signer");
        out.push_str(&args);
        out.push_str("\n");
    }
    out.push_str("\n");
}

// ---------------------------------------------------------------------------
// The inductive state
// ---------------------------------------------------------------------------

pub open spec fn tag_lines(vs: Seq<VariantV>, n: nat) -> Seq<char>
    decreases n,
{
    if n == 0 {
        Seq::empty()
    } else {
        tag_lines(vs, (n - 1) as nat) + ("  | "@ + vs[n - 1].tag + "\n"@)
    }
}

/// The tags of the variants as a type, where there are two or more.
pub open spec fn adt_status_text(vs: Seq<VariantV>) -> Seq<char> {
    if vs.len() < 2 {
        Seq::empty()
    } else {
        "inductive Status where\n"@ + tag_lines(vs, vs.len())
            + "  deriving Repr, DecidableEq, BEq\n\n"@
    }
}

pub fn emit_status_inductive_adt(out: &mut String, sc: &Scope)
    ensures
        final(out)@ == old(out)@ + adt_status_text(sc@.variants),
{
    if sc.variants.len() < 2 {
        return ;
    }
    out.push_str("inductive Status where\n");
    let ghost base = out@;
    for i in 0..sc.variants.len()
        invariant
            out@ == base + tag_lines(sc@.variants, i as nat),
    {
        out.push_str("  | ");
        out.push_str(sc.variants[i].tag);
        out.push_str("\n");
    }
    out.push_str("  deriving Repr, DecidableEq, BEq\n\n");
}

/// The first `n` fields of a variant as binders.
pub open spec fn field_binders(fs: Seq<FieldDecl>, n: nat) -> Seq<Seq<char>>
    decreases n,
{
    if n == 0 {
        Seq::empty()
    } else {
        field_binders(fs, (n - 1) as nat).push("("@ + safe_text(fs[n - 1].name@) + " : "@ + ty_text(fs[n - 1].ty) + ")"@)
    }
}

/// The same text `n` times.
pub open spec fn repeated(t: Seq<char>, n: nat) -> Seq<Seq<char>>
    decreases n,
{
    if n == 0 {
        Seq::empty()
    } else {
        repeated(t, (n - 1) as nat).push(t)
    }
}

/// `n` times the same text, with spaces between.
pub fn repeat_joined(t: &str, n: usize) -> (r: String)
    ensures
        r@ == join_text(repeated(t@, n as nat), " "@),
{
    let mut parts: Vec<String> = Vec::new();
    for i in 0..n
        invariant
            texts(parts@) == repeated(t@, i as nat),
    {
        parts.push(t.to_owned());
    }
    join(&parts, " ")
}

/// The constructor of a variant.
#[verifier::opaque]
pub open spec fn variant_ctor(v: VariantV) -> Seq<char> {
    "  | "@ + v.tag + (if v.fields.len() == 0 {
        Seq::empty()
    } else {
        " "@ + join_text(field_binders(v.fields, v.fields.len()), " "@)
    }) + "\n"@
}

fn emit_variant_ctor(out: &mut String, v: &VariantRef)
    ensures
        final(out)@ == old(out)@ + variant_ctor(v@),
{
    proof {
        reveal(variant_ctor);
    }
    out.push_str("  | ");
    out.push_str(v.tag);
    if v.fields.len() > 0 {
        let mut parts: Vec<String> = Vec::new();
        for i in 0..v.fields.len()
            invariant
                texts(parts@) == field_binders(v.fields@, i as nat),
        {
            let name = safe_name(&v.fields[i].name);
            let ty = render_ty(&v.fields[i].ty);
            let mut p = "(".to_owned();
            p.push_str(&name);
            p.push_str(" : ");
            p.push_str(&ty);
            p.push_str(")");
            parts.push(p);
        }
        let joined = join(&parts, " ");
        out.push_str(" ");
        out.push_str(&joined);
    }
    out.push_str("\n");
}

pub open spec fn variant_lines(vs: Seq<VariantV>, n: nat) -> Seq<char>
    decreases n,
{
    if n == 0 {
        Seq::empty()
    } else {
        variant_lines(vs, (n - 1) as nat) + variant_ctor(vs[n - 1])
    }
}

/// The default value of the state: the first variant, with defaults for its
/// fields.
pub open spec fn inhabited_text(vs: Seq<VariantV>) -> Seq<char> {
    if vs.len() == 0 {
        Seq::empty()
    } else {
        "instance : Inhabited State := ⟨."@ + vs[0].tag + (if vs[0].fields.len() == 0 {
            Seq::empty()
        } else {
            " "@ + join_text(repeated("default"@, vs[0].fields.len()), " "@)
        }) + "⟩\n\n"@
    }
}

/// The state as an inductive type.
pub open spec fn adt_state_text(vs: Seq<VariantV>) -> Seq<char> {
    "inductive State where\n"@ + variant_lines(vs, vs.len())
        + "  deriving Repr, DecidableEq, BEq\n\n"@ + inhabited_text(vs)
}

pub fn emit_inductive_state_adt(out: &mut String, sc: &Scope)
    ensures
        final(out)@ == old(out)@ + adt_state_text(sc@.variants),
{
    out.push_str("inductive State where\n");
    let ghost base = out@;
    for i in 0..sc.variants.len()
        invariant
            out@ == base + variant_lines(sc@.variants, i as nat),
    {
        emit_variant_ctor(out, &sc.variants[i]);
    }
    out.push_str("  deriving Repr, DecidableEq, BEq\n\n");
    if sc.variants.len() > 0 {
        let first = &sc.variants[0];
        out.push_str("instance : Inhabited State := ⟨.");
        out.push_str(first.tag);
        if first.fields.len() > 0 {
            let defaults = repeat_joined("default", first.fields.len());
            out.push_str(" ");
            out.push_str(&defaults);
        }
        out.push_str("⟩\n\n");
    }
}

/// The pattern of a variant whose fields are not read.
pub open spec fn wild_pattern(v: VariantV) -> Seq<char> {
    "."@ + v.tag + (if v.fields.len() == 0 {
        Seq::empty()
    } else {
        " "@ + join_text(repeated("_"@, v.fields.len()), " "@)
    })
}

fn wild_variant(v: &VariantRef) -> (r: String)
    ensures
        r@ == wild_pattern(v@),
{
    let mut out = ".".to_owned();
    out.push_str(v.tag);
    if v.fields.len() > 0 {
        let wild = repeat_joined("_", v.fields.len());
        out.push_str(" ");
        out.push_str(&wild);
    }
    out
}

pub open spec fn status_lines(vs: Seq<VariantV>, n: nat) -> Seq<char>
    decreases n,
{
    if n == 0 {
        Seq::empty()
    } else {
        status_lines(vs, (n - 1) as nat) + ("  | "@ + wild_pattern(vs[n - 1]) + " => ."@ + vs[n - 1].tag + "\n"@)
    }
}

/// The function from the state to its tag.
pub open spec fn status_accessor_text(vs: Seq<VariantV>) -> Seq<char> {
    "def State.status : State → Status\n"@ + status_lines(vs, vs.len()) + "\n"@
}

pub fn emit_state_status_accessor_adt(out: &mut String, sc: &Scope)
    ensures
        final(out)@ == old(out)@ + status_accessor_text(sc@.variants),
{
    out.push_str("def State.status : State → Status\n");
    let ghost base = out@;
    for i in 0..sc.variants.len()
        invariant
            out@ == base + status_lines(sc@.variants, i as nat),
    {
        let pat = wild_variant(&sc.variants[i]);
        out.push_str("  | ");
        out.push_str(&pat);
        out.push_str(" => .");
        out.push_str(sc.variants[i].tag);
        out.push_str("\n");
    }
    out.push_str("\n");
}

/// The first `n` fields of a pattern that reads only the field `name`.
pub open spec fn pick_parts(fs: Seq<FieldDecl>, name: Seq<char>, n: nat) -> Seq<Seq<char>>
    decreases n,
{
    if n == 0 {
        Seq::empty()
    } else {
        pick_parts(fs, name, (n - 1) as nat).push(
            if fs[n - 1].name@ == name {
                safe_text(name)
            } else {
                "_"@
            },
        )
    }
}

/// The case of a field's accessor for a variant: the field where the variant
/// has it, the default of its type elsewhere.
#[verifier::opaque]
pub open spec fn accessor_case(v: VariantV, f: FieldDecl) -> Seq<char> {
    if has_field(v.fields, f.name@) {
        "  | ."@ + v.tag + " "@ + join_text(pick_parts(v.fields, f.name@, v.fields.len()), " "@) + " => "@ + safe_text(f.name@) + "\n"@
    } else {
        "  | "@ + wild_pattern(v) + " => "@ + default_text(f.ty) + "\n"@
    }
}

fn emit_accessor_case(out: &mut String, v: &VariantRef, f: &FieldDecl)
    ensures
        final(out)@ == old(out)@ + accessor_case(v@, *f),
{
    proof {
        reveal(accessor_case);
    }
    if find_field(v.fields, &f.name).is_some() {
        let mut parts: Vec<String> = Vec::new();
        for i in 0..v.fields.len()
            invariant
                texts(parts@) == pick_parts(v.fields@, f.name@, i as nat),
        {
            if same(&v.fields[i].name, &f.name) {
                parts.push(safe_name(&f.name));
            } else {
                parts.push("_".to_owned());
            }
        }
        let pat = join(&parts, " ");
        let name = safe_name(&f.name);
        out.push_str("  | .");
        out.push_str(v.tag);
        out.push_str(" ");
        out.push_str(&pat);
        out.push_str(" => ");
        out.push_str(&name);
        out.push_str("\n");
    } else {
        let pat = wild_variant(v);
        out.push_str("  | ");
        out.push_str(&pat);
        out.push_str(" => ");
        out.push_str(ty_default_literal(&f.ty));
        out.push_str("\n");
    }
}

pub open spec fn accessor_lines(vs: Seq<VariantV>, f: FieldDecl, n: nat) -> Seq<char>
    decreases n,
{
    if n == 0 {
        Seq::empty()
    } else {
        accessor_lines(vs, f, (n - 1) as nat) + accessor_case(vs[n - 1], f)
    }
}

/// The accessor of a field.
#[verifier::opaque]
pub open spec fn accessor_text(vs: Seq<VariantV>, f: FieldDecl) -> Seq<char> {
    "def State."@ + safe_text(f.name@) + " : State → "@ + ty_text(f.ty) + "\n"@ + accessor_lines(vs, f, vs.len()) + "\n"@
}

fn emit_accessor(out: &mut String, sc: &Scope, f: &FieldDecl)
    ensures
        final(out)@ == old(out)@ + accessor_text(sc@.variants, *f),
{
    proof {
        reveal(accessor_text);
    }
    let name = safe_name(&f.name);
    let ty = render_ty(&f.ty);
    out.push_str("def State.");
    out.push_str(&name);
    out.push_str(" : State → ");
    out.push_str(&ty);
    out.push_str("\n");
    let ghost base = out@;
    for i in 0..sc.variants.len()
        invariant
            out@ == base + accessor_lines(sc@.variants, *f, i as nat),
    {
        emit_accessor_case(out, &sc.variants[i], f);
    }
    out.push_str("\n");
}

pub open spec fn accessors_upto(vs: Seq<VariantV>, fs: Seq<FieldDecl>, n: nat) -> Seq<char>
    decreases n,
{
    if n == 0 {
        Seq::empty()
    } else {
        accessors_upto(vs, fs, (n - 1) as nat) + accessor_text(vs, fs[n - 1])
    }
}

/// An accessor for each field that some variant has.
pub open spec fn accessors_text(vs: Seq<VariantV>) -> Seq<char> {
    accessors_upto(vs, flat_fields(vs), flat_fields(vs).len())
}

pub fn emit_state_field_accessors_adt(out: &mut String, sc: &Scope)
    ensures
        final(out)@ == old(out)@ + accessors_text(sc@.variants),
{
    let fields = flat_state_fields(&sc.variants);
    let ghost fs = flat_fields(sc@.variants);
    for i in 0..fields.len()
        invariant
            refs(fields@) == fs,
            out@ == old(out)@ + accessors_upto(sc@.variants, fs, i as nat),
    {
        emit_accessor(out, sc, fields[i]);
    }
}

} // verus!
