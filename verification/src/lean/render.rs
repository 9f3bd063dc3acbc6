//! The choice of the shape of the output.
use vstd::prelude::*;

use crate::lean::aborts::{aborts_text, emit_aborts_if};
use crate::lean::covers::{covers_text, emit_covers};
use crate::lean::cpi::{cpi_text, emit_cpi_theorems};
use crate::lean::environment::{emit_environments, environments_text};
use crate::lean::indexed::{indexed_file_text, render_indexed_state};
use crate::lean::liveness::{emit_liveness, liveness_text};
use crate::lean::multi::{multi_file_text, render_multi_account};
use crate::lean::overflow::{emit_overflow, overflow_text};
use crate::lean::properties::{
    adt_frames_text, emit_ensures, emit_frame_conditions, emit_frame_conditions_adt,
    emit_invariants, emit_properties, ensures_text, frames_text, invariants_text,
    properties_text,
};
use crate::lean::sbpf::{render_sbpf, sbpf_text};
use crate::lean::scope::{whole_scope, Scope};
use crate::lean::structure::{
    accessors_text, adt_state_text, adt_status_text, close_text, constants_text, emit_constants,
    emit_inductive_state_adt, emit_lifecycle_marker, emit_namespace_close, emit_namespace_open,
    emit_operation_inductive, emit_ref_impls, emit_state_field_accessors_adt,
    emit_state_status_accessor_adt, emit_state_struct, emit_status_inductive_adt,
    emit_uninterpreted_helpers, helpers_text, marker_text, open_text, operations_text,
    ref_impls_text, state_text, status_accessor_text, HEADER,
};
use crate::lean::transition::{
    adt_transitions_text, emit_transitions, emit_transitions_adt, flat_transitions_text,
};
use crate::lower::lowered;
use crate::mir::{FieldDecl, Mir, StateVariant, Ty};
use crate::parsed::ParsedSpec;

verus! {

broadcast use crate::text::group_text;

/// Whether one of the first `n` fields is a bounded map.
pub open spec fn has_map(fs: Seq<FieldDecl>, n: nat) -> bool
    decreases n,
{
    if n == 0 {
        false
    } else {
        has_map(fs, (n - 1) as nat) || fs[n - 1].ty is MapOf
    }
}

/// Whether one of the first `n` variants has a field that is a bounded map.
pub open spec fn some_map(vs: Seq<StateVariant>, n: nat) -> bool
    decreases n,
{
    if n == 0 {
        false
    } else {
        some_map(vs, (n - 1) as nat) || has_map(vs[n - 1].fields@, vs[n - 1].fields@.len())
    }
}

/// The state holds bounded maps.
pub open spec fn is_indexed_shape(mir: Mir) -> bool {
    some_map(mir.state.variants@, mir.state.variants@.len())
}

/// The program has several account types.
pub open spec fn is_multi_shape(mir: Mir) -> bool {
    mir.account_states@.len() > 1
}

/// The program asks for an inductive state and has several variants.
pub open spec fn is_adt_shape(mir: Mir) -> bool {
    mir.adt_state && mir.state.variants@.len() > 1 && !is_indexed_shape(mir)
}

/// Whether the state holds bounded maps.
pub fn is_indexed(mir: &Mir) -> (r: bool)
    ensures
        r == is_indexed_shape(*mir),
{
    let mut found: bool = false;
    for i in 0..mir.state.variants.len()
        invariant
            found == some_map(mir.state.variants@, i as nat),
    {
        let fields = &mir.state.variants[i].fields;
        let mut inner: bool = false;
        for j in 0..fields.len()
            invariant
                inner == has_map(fields@, j as nat),
        {
            match &fields[j].ty {
                Ty::MapOf { .. } => {
                    inner = true;
                },
                _ => {},
            }
        }
        found = found || inner;
    }
    found
}

/// Whether the program has several account types.
pub fn is_multi_account(mir: &Mir) -> (r: bool)
    ensures
        r == is_multi_shape(*mir),
{
    mir.account_states.len() > 1
}

/// Whether the state is rendered as an inductive type.
pub fn is_multi_variant_adt(mir: &Mir) -> (r: bool)
    ensures
        r == is_adt_shape(*mir),
{
    mir.adt_state && mir.state.variants.len() > 1 && !is_indexed(mir)
}

/// What every state machine starts with.
pub open spec fn preamble_text(mir: Mir) -> Seq<char> {
    HEADER@ + open_text(mir.name@) + helpers_text(mir.uninterpreted_helpers@) + ref_impls_text(
        mir.ref_impls@,
    ) + constants_text(mir.constants@)
}

fn emit_preamble(out: &mut String, mir: &Mir)
    ensures
        final(out)@ == old(out)@ + preamble_text(*mir),
{
    out.push_str(HEADER);
    emit_namespace_open(out, &mir.name);
    emit_uninterpreted_helpers(out, &mir.uninterpreted_helpers);
    emit_ref_impls(out, &mir.ref_impls);
    emit_constants(out, &mir.constants);
}

/// The file of a program with one flat state.
#[verifier::opaque]
pub open spec fn single_file_text(mir: Mir) -> Seq<char> {
    let sc = whole_scope(mir);
    preamble_text(mir) + marker_text(sc) + state_text(sc) + flat_transitions_text(sc) + cpi_text(
        sc,
    ) + invariants_text(mir.invariants@, sc) + operations_text(sc) + properties_text(sc)
        + aborts_text(sc, true) + ensures_text(sc) + frames_text(sc) + covers_text(sc, false)
        + liveness_text(sc, false) + environments_text(sc) + overflow_text(sc, false) + close_text(
        mir.name@,
    )
}

fn render_single_account(mir: &Mir) -> (r: String)
    ensures
        r@ == single_file_text(*mir),
{
    proof {
        reveal(single_file_text);
    }
    let sc = Scope::whole(mir);
    let mut out = String::new();
    emit_preamble(&mut out, mir);
    emit_lifecycle_marker(&mut out, &sc);
    emit_state_struct(&mut out, &sc);
    emit_transitions(&mut out, &sc);
    emit_cpi_theorems(&mut out, &sc);
    emit_invariants(&mut out, &mir.invariants, &sc);
    emit_operation_inductive(&mut out, &sc);
    emit_properties(&mut out, &sc);
    emit_aborts_if(&mut out, &sc, true);
    emit_ensures(&mut out, &sc);
    emit_frame_conditions(&mut out, &sc);
    emit_covers(&mut out, &sc, false);
    emit_liveness(&mut out, &sc, false);
    emit_environments(&mut out, &sc);
    emit_overflow(&mut out, &sc, false);
    emit_namespace_close(&mut out, &mir.name);
    out
}

/// The file of a program with an inductive state.
#[verifier::opaque]
pub open spec fn adt_file_text(mir: Mir) -> Seq<char> {
    let sc = whole_scope(mir);
    preamble_text(mir) + adt_status_text(sc.variants) + adt_state_text(sc.variants)
        + status_accessor_text(sc.variants) + accessors_text(sc.variants) + adt_transitions_text(
        sc,
    ) + cpi_text(sc) + invariants_text(mir.invariants@, sc) + operations_text(sc)
        + properties_text(sc) + aborts_text(sc, false) + ensures_text(sc) + adt_frames_text(sc)
        + covers_text(sc, true) + liveness_text(sc, true) + environments_text(sc) + overflow_text(
        sc,
        true,
    ) + close_text(mir.name@)
}

fn render_single_account_adt(mir: &Mir) -> (r: String)
    ensures
        r@ == adt_file_text(*mir),
{
    proof {
        reveal(adt_file_text);
    }
    let sc = Scope::whole(mir);
    let mut out = String::new();
    emit_preamble(&mut out, mir);
    emit_status_inductive_adt(&mut out, &sc);
    emit_inductive_state_adt(&mut out, &sc);
    emit_state_status_accessor_adt(&mut out, &sc);
    emit_state_field_accessors_adt(&mut out, &sc);
    emit_transitions_adt(&mut out, &sc);
    emit_cpi_theorems(&mut out, &sc);
    emit_invariants(&mut out, &mir.invariants, &sc);
    emit_operation_inductive(&mut out, &sc);
    emit_properties(&mut out, &sc);
    emit_aborts_if(&mut out, &sc, false);
    emit_ensures(&mut out, &sc);
    emit_frame_conditions_adt(&mut out, &sc);
    emit_covers(&mut out, &sc, true);
    emit_liveness(&mut out, &sc, true);
    emit_environments(&mut out, &sc);
    emit_overflow(&mut out, &sc, true);
    emit_namespace_close(&mut out, &mir.name);
    out
}

/// The file of a state machine, by its shape.
pub open spec fn file_text(mir: Mir) -> Seq<char> {
    if is_indexed_shape(mir) {
        indexed_file_text(mir)
    } else if is_multi_shape(mir) {
        multi_file_text(mir)
    } else if is_adt_shape(mir) {
        adt_file_text(mir)
    } else {
        single_file_text(mir)
    }
}

/// Renders a state machine as Lean text, by its shape.
pub fn render(mir: &Mir) -> (r: String)
    ensures
        r@ == file_text(*mir),
{
    if is_indexed(mir) {
        return render_indexed_state(mir);
    }
    if is_multi_account(mir) {
        return render_multi_account(mir);
    }
    if is_multi_variant_adt(mir) {
        return render_single_account_adt(mir);
    }
    render_single_account(mir)
}

/// The file of a spec: that of the assembly program, or that of the state
/// machine.
pub open spec fn spec_file_text(mir: Mir, parsed: ParsedSpec) -> Seq<char> {
    if mir.is_assembly {
        sbpf_text(parsed)
    } else {
        file_text(mir)
    }
}

/// Renders the file of a spec.
pub fn render_spec(mir: &Mir, parsed: &ParsedSpec) -> (r: String)
    ensures
        r@ == spec_file_text(*mir, *parsed),
{
    if mir.is_assembly {
        render_sbpf(parsed)
    } else {
        render(mir)
    }
}

/// The state is inductive only where the spec asks for it, whatever its shape
/// and its errors.
pub proof fn state_is_flat_unless_asked(spec: ParsedSpec, mir: Mir)
    requires
        lowered(spec, mir),
        !spec.asks_adt(),
    ensures
        !is_adt_shape(mir),
        file_text(mir) == if is_indexed_shape(mir) {
            indexed_file_text(mir)
        } else if is_multi_shape(mir) {
            multi_file_text(mir)
        } else {
            single_file_text(mir)
        },
{
}

/// Where a spec with one account type, several variants and no bounded map asks
/// for it, the state is inductive.
pub proof fn state_is_inductive_where_asked(spec: ParsedSpec, mir: Mir)
    requires
        lowered(spec, mir),
        spec.asks_adt(),
        spec.account_types@.len() == 1,
        spec.account_types@[0].variants@.len() > 1,
        !is_indexed_shape(mir),
    ensures
        file_text(mir) == adt_file_text(mir),
{
}

} // verus!
