//! What a rendered file holds.
use vstd::prelude::*;

use crate::laws::stands::stands;
use crate::lean::aborts::aborts_text;
use crate::lean::covers::covers_text;
use crate::lean::cpi::cpi_text;
use crate::lean::environment::environments_text;
use crate::lean::indexed::{
    idx_bound, indexed_consts_text, indexed_file_text, indexed_marker_text,
    indexed_operations_text, indexed_state_text, indexed_transitions_upto, map_roots,
    property_defs, records_upto, INDEXED_HEADER,
};
use crate::lean::liveness::liveness_text;
use crate::lean::multi::{
    claims_upto, invariant_comments, machines_upto, multi_covers_text, multi_environments_text,
    multi_file_text, multi_liveness_text, multi_properties_text, renamed,
};
use crate::lean::overflow::overflow_text;
use crate::lean::properties::{
    adt_frames_text, ensures_text, frames_text, invariants_text, properties_text,
};
use crate::lean::render::{adt_file_text, preamble_text, single_file_text};
use crate::lean::scope::whole_scope;
use crate::lean::structure::{
    accessors_text, adt_state_text, adt_status_text, close_text, constants_text, helpers_text,
    marker_text, open_text, operations_text, ref_impls_text, state_text, status_accessor_text,
    HEADER,
};
use crate::lean::transition::{adt_transitions_text, flat_transitions_text};
use crate::mir::Mir;
use crate::search::contains_text;

verus! {

broadcast use crate::text::group_text;

proof fn lemma_5(
    p0: Seq<char>,
    p1: Seq<char>,
    p2: Seq<char>,
    p3: Seq<char>,
    p4: Seq<char>,
)
    ensures
        ({
            let all = p0 + p1 + p2 + p3 + p4;
            &&& contains_text(all, p0)
            &&& contains_text(all, p1)
            &&& contains_text(all, p2)
            &&& contains_text(all, p3)
            &&& contains_text(all, p4)
        }),
{
    stands(Seq::empty(), p0, p1 + p2 + p3 + p4);
    stands(p0, p1, p2 + p3 + p4);
    stands(p0 + p1, p2, p3 + p4);
    stands(p0 + p1 + p2, p3, p4);
    stands(p0 + p1 + p2 + p3, p4, Seq::empty());
}

proof fn lemma_12(
    p0: Seq<char>,
    p1: Seq<char>,
    p2: Seq<char>,
    p3: Seq<char>,
    p4: Seq<char>,
    p5: Seq<char>,
    p6: Seq<char>,
    p7: Seq<char>,
    p8: Seq<char>,
    p9: Seq<char>,
    p10: Seq<char>,
    p11: Seq<char>,
)
    ensures
        ({
            let all = p0 + p1 + p2 + p3 + p4 + p5 + p6 + p7 + p8 + p9 + p10 + p11;
            &&& contains_text(all, p0)
            &&& contains_text(all, p1)
            &&& contains_text(all, p2)
            &&& contains_text(all, p3)
            &&& contains_text(all, p4)
            &&& contains_text(all, p5)
            &&& contains_text(all, p6)
            &&& contains_text(all, p7)
            &&& contains_text(all, p8)
            &&& contains_text(all, p9)
            &&& contains_text(all, p10)
            &&& contains_text(all, p11)
        }),
{
    stands(Seq::empty(), p0, p1 + p2 + p3 + p4 + p5 + p6 + p7 + p8 + p9 + p10 + p11);
    stands(p0, p1, p2 + p3 + p4 + p5 + p6 + p7 + p8 + p9 + p10 + p11);
    stands(p0 + p1, p2, p3 + p4 + p5 + p6 + p7 + p8 + p9 + p10 + p11);
    stands(p0 + p1 + p2, p3, p4 + p5 + p6 + p7 + p8 + p9 + p10 + p11);
    stands(p0 + p1 + p2 + p3, p4, p5 + p6 + p7 + p8 + p9 + p10 + p11);
    stands(p0 + p1 + p2 + p3 + p4, p5, p6 + p7 + p8 + p9 + p10 + p11);
    stands(p0 + p1 + p2 + p3 + p4 + p5, p6, p7 + p8 + p9 + p10 + p11);
    stands(p0 + p1 + p2 + p3 + p4 + p5 + p6, p7, p8 + p9 + p10 + p11);
    stands(p0 + p1 + p2 + p3 + p4 + p5 + p6 + p7, p8, p9 + p10 + p11);
    stands(p0 + p1 + p2 + p3 + p4 + p5 + p6 + p7 + p8, p9, p10 + p11);
    stands(p0 + p1 + p2 + p3 + p4 + p5 + p6 + p7 + p8 + p9, p10, p11);
    stands(p0 + p1 + p2 + p3 + p4 + p5 + p6 + p7 + p8 + p9 + p10, p11, Seq::empty());
}

proof fn lemma_13(
    p0: Seq<char>,
    p1: Seq<char>,
    p2: Seq<char>,
    p3: Seq<char>,
    p4: Seq<char>,
    p5: Seq<char>,
    p6: Seq<char>,
    p7: Seq<char>,
    p8: Seq<char>,
    p9: Seq<char>,
    p10: Seq<char>,
    p11: Seq<char>,
    p12: Seq<char>,
)
    ensures
        ({
            let all = p0 + p1 + p2 + p3 + p4 + p5 + p6 + p7 + p8 + p9 + p10 + p11 + p12;
            &&& contains_text(all, p0)
            &&& contains_text(all, p1)
            &&& contains_text(all, p2)
            &&& contains_text(all, p3)
            &&& contains_text(all, p4)
            &&& contains_text(all, p5)
            &&& contains_text(all, p6)
            &&& contains_text(all, p7)
            &&& contains_text(all, p8)
            &&& contains_text(all, p9)
            &&& contains_text(all, p10)
            &&& contains_text(all, p11)
            &&& contains_text(all, p12)
        }),
{
    stands(Seq::empty(), p0, p1 + p2 + p3 + p4 + p5 + p6 + p7 + p8 + p9 + p10 + p11 + p12);
    stands(p0, p1, p2 + p3 + p4 + p5 + p6 + p7 + p8 + p9 + p10 + p11 + p12);
    stands(p0 + p1, p2, p3 + p4 + p5 + p6 + p7 + p8 + p9 + p10 + p11 + p12);
    stands(p0 + p1 + p2, p3, p4 + p5 + p6 + p7 + p8 + p9 + p10 + p11 + p12);
    stands(p0 + p1 + p2 + p3, p4, p5 + p6 + p7 + p8 + p9 + p10 + p11 + p12);
    stands(p0 + p1 + p2 + p3 + p4, p5, p6 + p7 + p8 + p9 + p10 + p11 + p12);
    stands(p0 + p1 + p2 + p3 + p4 + p5, p6, p7 + p8 + p9 + p10 + p11 + p12);
    stands(p0 + p1 + p2 + p3 + p4 + p5 + p6, p7, p8 + p9 + p10 + p11 + p12);
    stands(p0 + p1 + p2 + p3 + p4 + p5 + p6 + p7, p8, p9 + p10 + p11 + p12);
    stands(p0 + p1 + p2 + p3 + p4 + p5 + p6 + p7 + p8, p9, p10 + p11 + p12);
    stands(p0 + p1 + p2 + p3 + p4 + p5 + p6 + p7 + p8 + p9, p10, p11 + p12);
    stands(p0 + p1 + p2 + p3 + p4 + p5 + p6 + p7 + p8 + p9 + p10, p11, p12);
    stands(p0 + p1 + p2 + p3 + p4 + p5 + p6 + p7 + p8 + p9 + p10 + p11, p12, Seq::empty());
}

proof fn lemma_16(
    p0: Seq<char>,
    p1: Seq<char>,
    p2: Seq<char>,
    p3: Seq<char>,
    p4: Seq<char>,
    p5: Seq<char>,
    p6: Seq<char>,
    p7: Seq<char>,
    p8: Seq<char>,
    p9: Seq<char>,
    p10: Seq<char>,
    p11: Seq<char>,
    p12: Seq<char>,
    p13: Seq<char>,
    p14: Seq<char>,
    p15: Seq<char>,
)
    ensures
        ({
            let all = p0 + p1 + p2 + p3 + p4 + p5 + p6 + p7 + p8 + p9 + p10 + p11 + p12 + p13 + p14 + p15;
            &&& contains_text(all, p0)
            &&& contains_text(all, p1)
            &&& contains_text(all, p2)
            &&& contains_text(all, p3)
            &&& contains_text(all, p4)
            &&& contains_text(all, p5)
            &&& contains_text(all, p6)
            &&& contains_text(all, p7)
            &&& contains_text(all, p8)
            &&& contains_text(all, p9)
            &&& contains_text(all, p10)
            &&& contains_text(all, p11)
            &&& contains_text(all, p12)
            &&& contains_text(all, p13)
            &&& contains_text(all, p14)
            &&& contains_text(all, p15)
        }),
{
    stands(Seq::empty(), p0, p1 + p2 + p3 + p4 + p5 + p6 + p7 + p8 + p9 + p10 + p11 + p12 + p13 + p14 + p15);
    stands(p0, p1, p2 + p3 + p4 + p5 + p6 + p7 + p8 + p9 + p10 + p11 + p12 + p13 + p14 + p15);
    stands(p0 + p1, p2, p3 + p4 + p5 + p6 + p7 + p8 + p9 + p10 + p11 + p12 + p13 + p14 + p15);
    stands(p0 + p1 + p2, p3, p4 + p5 + p6 + p7 + p8 + p9 + p10 + p11 + p12 + p13 + p14 + p15);
    stands(p0 + p1 + p2 + p3, p4, p5 + p6 + p7 + p8 + p9 + p10 + p11 + p12 + p13 + p14 + p15);
    stands(p0 + p1 + p2 + p3 + p4, p5, p6 + p7 + p8 + p9 + p10 + p11 + p12 + p13 + p14 + p15);
    stands(p0 + p1 + p2 + p3 + p4 + p5, p6, p7 + p8 + p9 + p10 + p11 + p12 + p13 + p14 + p15);
    stands(p0 + p1 + p2 + p3 + p4 + p5 + p6, p7, p8 + p9 + p10 + p11 + p12 + p13 + p14 + p15);
    stands(p0 + p1 + p2 + p3 + p4 + p5 + p6 + p7, p8, p9 + p10 + p11 + p12 + p13 + p14 + p15);
    stands(p0 + p1 + p2 + p3 + p4 + p5 + p6 + p7 + p8, p9, p10 + p11 + p12 + p13 + p14 + p15);
    stands(p0 + p1 + p2 + p3 + p4 + p5 + p6 + p7 + p8 + p9, p10, p11 + p12 + p13 + p14 + p15);
    stands(p0 + p1 + p2 + p3 + p4 + p5 + p6 + p7 + p8 + p9 + p10, p11, p12 + p13 + p14 + p15);
    stands(p0 + p1 + p2 + p3 + p4 + p5 + p6 + p7 + p8 + p9 + p10 + p11, p12, p13 + p14 + p15);
    stands(p0 + p1 + p2 + p3 + p4 + p5 + p6 + p7 + p8 + p9 + p10 + p11 + p12, p13, p14 + p15);
    stands(p0 + p1 + p2 + p3 + p4 + p5 + p6 + p7 + p8 + p9 + p10 + p11 + p12 + p13, p14, p15);
    stands(p0 + p1 + p2 + p3 + p4 + p5 + p6 + p7 + p8 + p9 + p10 + p11 + p12 + p13 + p14, p15, Seq::empty());
}

proof fn lemma_18(
    p0: Seq<char>,
    p1: Seq<char>,
    p2: Seq<char>,
    p3: Seq<char>,
    p4: Seq<char>,
    p5: Seq<char>,
    p6: Seq<char>,
    p7: Seq<char>,
    p8: Seq<char>,
    p9: Seq<char>,
    p10: Seq<char>,
    p11: Seq<char>,
    p12: Seq<char>,
    p13: Seq<char>,
    p14: Seq<char>,
    p15: Seq<char>,
    p16: Seq<char>,
    p17: Seq<char>,
)
    ensures
        ({
            let all = p0 + p1 + p2 + p3 + p4 + p5 + p6 + p7 + p8 + p9 + p10 + p11 + p12 + p13 + p14 + p15 + p16 + p17;
            &&& contains_text(all, p0)
            &&& contains_text(all, p1)
            &&& contains_text(all, p2)
            &&& contains_text(all, p3)
            &&& contains_text(all, p4)
            &&& contains_text(all, p5)
            &&& contains_text(all, p6)
            &&& contains_text(all, p7)
            &&& contains_text(all, p8)
            &&& contains_text(all, p9)
            &&& contains_text(all, p10)
            &&& contains_text(all, p11)
            &&& contains_text(all, p12)
            &&& contains_text(all, p13)
            &&& contains_text(all, p14)
            &&& contains_text(all, p15)
            &&& contains_text(all, p16)
            &&& contains_text(all, p17)
        }),
{
    stands(Seq::empty(), p0, p1 + p2 + p3 + p4 + p5 + p6 + p7 + p8 + p9 + p10 + p11 + p12 + p13 + p14 + p15 + p16 + p17);
    stands(p0, p1, p2 + p3 + p4 + p5 + p6 + p7 + p8 + p9 + p10 + p11 + p12 + p13 + p14 + p15 + p16 + p17);
    stands(p0 + p1, p2, p3 + p4 + p5 + p6 + p7 + p8 + p9 + p10 + p11 + p12 + p13 + p14 + p15 + p16 + p17);
    stands(p0 + p1 + p2, p3, p4 + p5 + p6 + p7 + p8 + p9 + p10 + p11 + p12 + p13 + p14 + p15 + p16 + p17);
    stands(p0 + p1 + p2 + p3, p4, p5 + p6 + p7 + p8 + p9 + p10 + p11 + p12 + p13 + p14 + p15 + p16 + p17);
    stands(p0 + p1 + p2 + p3 + p4, p5, p6 + p7 + p8 + p9 + p10 + p11 + p12 + p13 + p14 + p15 + p16 + p17);
    stands(p0 + p1 + p2 + p3 + p4 + p5, p6, p7 + p8 + p9 + p10 + p11 + p12 + p13 + p14 + p15 + p16 + p17);
    stands(p0 + p1 + p2 + p3 + p4 + p5 + p6, p7, p8 + p9 + p10 + p11 + p12 + p13 + p14 + p15 + p16 + p17);
    stands(p0 + p1 + p2 + p3 + p4 + p5 + p6 + p7, p8, p9 + p10 + p11 + p12 + p13 + p14 + p15 + p16 + p17);
    stands(p0 + p1 + p2 + p3 + p4 + p5 + p6 + p7 + p8, p9, p10 + p11 + p12 + p13 + p14 + p15 + p16 + p17);
    stands(p0 + p1 + p2 + p3 + p4 + p5 + p6 + p7 + p8 + p9, p10, p11 + p12 + p13 + p14 + p15 + p16 + p17);
    stands(p0 + p1 + p2 + p3 + p4 + p5 + p6 + p7 + p8 + p9 + p10, p11, p12 + p13 + p14 + p15 + p16 + p17);
    stands(p0 + p1 + p2 + p3 + p4 + p5 + p6 + p7 + p8 + p9 + p10 + p11, p12, p13 + p14 + p15 + p16 + p17);
    stands(p0 + p1 + p2 + p3 + p4 + p5 + p6 + p7 + p8 + p9 + p10 + p11 + p12, p13, p14 + p15 + p16 + p17);
    stands(p0 + p1 + p2 + p3 + p4 + p5 + p6 + p7 + p8 + p9 + p10 + p11 + p12 + p13, p14, p15 + p16 + p17);
    stands(p0 + p1 + p2 + p3 + p4 + p5 + p6 + p7 + p8 + p9 + p10 + p11 + p12 + p13 + p14, p15, p16 + p17);
    stands(p0 + p1 + p2 + p3 + p4 + p5 + p6 + p7 + p8 + p9 + p10 + p11 + p12 + p13 + p14 + p15, p16, p17);
    stands(p0 + p1 + p2 + p3 + p4 + p5 + p6 + p7 + p8 + p9 + p10 + p11 + p12 + p13 + p14 + p15 + p16, p17, Seq::empty());
}

/// A file starts with the header, the opening of the namespace, the helpers and
/// the constants.
pub proof fn every_file_has_a_preamble(mir: Mir)
    ensures
        ({
            let all = preamble_text(mir);
            &&& contains_text(all, HEADER@)
            &&& contains_text(all, open_text(mir.name@))
            &&& contains_text(all, helpers_text(mir.uninterpreted_helpers@))
            &&& contains_text(all, ref_impls_text(mir.ref_impls@))
            &&& contains_text(all, constants_text(mir.constants@))
        }),
{
    lemma_5(
        HEADER@,
        open_text(mir.name@),
        helpers_text(mir.uninterpreted_helpers@),
        ref_impls_text(mir.ref_impls@),
        constants_text(mir.constants@),
    );
}

/// The file of a program with one flat state holds every section.
pub proof fn flat_files_hold_all_sections(mir: Mir)
    ensures
        ({
            let sc = whole_scope(mir);
            let all = single_file_text(mir);
            &&& contains_text(all, preamble_text(mir))
            &&& contains_text(all, marker_text(sc))
            &&& contains_text(all, state_text(sc))
            &&& contains_text(all, flat_transitions_text(sc))
            &&& contains_text(all, cpi_text(sc))
            &&& contains_text(all, invariants_text(mir.invariants@, sc))
            &&& contains_text(all, operations_text(sc))
            &&& contains_text(all, properties_text(sc))
            &&& contains_text(all, aborts_text(sc, true))
            &&& contains_text(all, ensures_text(sc))
            &&& contains_text(all, frames_text(sc))
            &&& contains_text(all, covers_text(sc, false))
            &&& contains_text(all, liveness_text(sc, false))
            &&& contains_text(all, environments_text(sc))
            &&& contains_text(all, overflow_text(sc, false))
            &&& contains_text(all, close_text(mir.name@))
        }),
{
    reveal(single_file_text);
    let sc = whole_scope(mir);
    lemma_16(
        preamble_text(mir),
        marker_text(sc),
        state_text(sc),
        flat_transitions_text(sc),
        cpi_text(sc),
        invariants_text(mir.invariants@, sc),
        operations_text(sc),
        properties_text(sc),
        aborts_text(sc, true),
        ensures_text(sc),
        frames_text(sc),
        covers_text(sc, false),
        liveness_text(sc, false),
        environments_text(sc),
        overflow_text(sc, false),
        close_text(mir.name@),
    );
}

/// The file of a program with an inductive state holds every section.
pub proof fn inductive_files_hold_all_sections(mir: Mir)
    ensures
        ({
            let sc = whole_scope(mir);
            let all = adt_file_text(mir);
            &&& contains_text(all, preamble_text(mir))
            &&& contains_text(all, adt_status_text(sc.variants))
            &&& contains_text(all, adt_state_text(sc.variants))
            &&& contains_text(all, status_accessor_text(sc.variants))
            &&& contains_text(all, accessors_text(sc.variants))
            &&& contains_text(all, adt_transitions_text(sc))
            &&& contains_text(all, cpi_text(sc))
            &&& contains_text(all, invariants_text(mir.invariants@, sc))
            &&& contains_text(all, operations_text(sc))
            &&& contains_text(all, properties_text(sc))
            &&& contains_text(all, aborts_text(sc, false))
            &&& contains_text(all, ensures_text(sc))
            &&& contains_text(all, adt_frames_text(sc))
            &&& contains_text(all, covers_text(sc, true))
            &&& contains_text(all, liveness_text(sc, true))
            &&& contains_text(all, environments_text(sc))
            &&& contains_text(all, overflow_text(sc, true))
            &&& contains_text(all, close_text(mir.name@))
        }),
{
    reveal(adt_file_text);
    let sc = whole_scope(mir);
    lemma_18(
        preamble_text(mir),
        adt_status_text(sc.variants),
        adt_state_text(sc.variants),
        status_accessor_text(sc.variants),
        accessors_text(sc.variants),
        adt_transitions_text(sc),
        cpi_text(sc),
        invariants_text(mir.invariants@, sc),
        operations_text(sc),
        properties_text(sc),
        aborts_text(sc, false),
        ensures_text(sc),
        adt_frames_text(sc),
        covers_text(sc, true),
        liveness_text(sc, true),
        environments_text(sc),
        overflow_text(sc, true),
        close_text(mir.name@),
    );
}

/// The file of a program with several account types holds every section.
pub proof fn multi_files_hold_all_sections(mir: Mir)
    ensures
        ({
            let all = multi_file_text(mir);
            &&& contains_text(all, HEADER@)
            &&& contains_text(all, open_text(mir.name@))
            &&& contains_text(all, helpers_text(mir.uninterpreted_helpers@))
            &&& contains_text(all, ref_impls_text(mir.ref_impls@))
            &&& contains_text(all, constants_text(mir.constants@))
            &&& contains_text(all, machines_upto(mir, mir.account_states@.len()))
            &&& contains_text(all, invariant_comments(mir.invariants@, mir.invariants@.len()))
            &&& contains_text(all, multi_properties_text(mir))
            &&& contains_text(all, claims_upto(mir, mir.account_states@.len()))
            &&& contains_text(all, renamed(multi_covers_text(mir), mir.account_states@[0].name@))
            &&& contains_text(all, multi_liveness_text(mir))
            &&& contains_text(all, multi_environments_text(mir))
            &&& contains_text(all, close_text(mir.name@))
        }),
{
    reveal(multi_file_text);
    lemma_13(
        HEADER@,
        open_text(mir.name@),
        helpers_text(mir.uninterpreted_helpers@),
        ref_impls_text(mir.ref_impls@),
        constants_text(mir.constants@),
        machines_upto(mir, mir.account_states@.len()),
        invariant_comments(mir.invariants@, mir.invariants@.len()),
        multi_properties_text(mir),
        claims_upto(mir, mir.account_states@.len()),
        renamed(multi_covers_text(mir), mir.account_states@[0].name@),
        multi_liveness_text(mir),
        multi_environments_text(mir),
        close_text(mir.name@),
    );
}

/// The file of a program with bounded maps holds every section.
pub proof fn indexed_files_hold_all_sections(mir: Mir)
    ensures
        ({
            let sc = whole_scope(mir);
            let roots = map_roots(sc.variants);
            let all = indexed_file_text(mir);
            &&& contains_text(all, (INDEXED_HEADER@ + "namespace "@ + mir.name@ + "\n\n"@ + "open QEDGen.Solana\n"@ + "open QEDGen.Solana.IndexedState\n\n"@))
            &&& contains_text(all, helpers_text(mir.uninterpreted_helpers@))
            &&& contains_text(all, ref_impls_text(mir.ref_impls@))
            &&& contains_text(all, indexed_consts_text(mir.constants@))
            &&& contains_text(all, ("abbrev AccountIdx : Type := Fin "@ + idx_bound(mir.constants@) + "\n\n"@))
            &&& contains_text(all, records_upto(mir.records@, mir.records@.len()))
            &&& contains_text(all, indexed_marker_text(sc))
            &&& contains_text(all, indexed_state_text(sc))
            &&& contains_text(all, indexed_transitions_upto(sc, roots, sc.handlers.len()))
            &&& contains_text(all, indexed_operations_text(sc.handlers, roots))
            &&& contains_text(all, property_defs(mir.properties@, mir.properties@.len()))
            &&& contains_text(all, ("end "@ + mir.name@ + "\n"@))
        }),
{
    reveal(indexed_file_text);
    let sc = whole_scope(mir);
    let roots = map_roots(sc.variants);
    lemma_12(
        (INDEXED_HEADER@ + "namespace "@ + mir.name@ + "\n\n"@ + "open QEDGen.Solana\n"@ + "open QEDGen.Solana.IndexedState\n\n"@),
        helpers_text(mir.uninterpreted_helpers@),
        ref_impls_text(mir.ref_impls@),
        indexed_consts_text(mir.constants@),
        ("abbrev AccountIdx : Type := Fin "@ + idx_bound(mir.constants@) + "\n\n"@),
        records_upto(mir.records@, mir.records@.len()),
        indexed_marker_text(sc),
        indexed_state_text(sc),
        indexed_transitions_upto(sc, roots, sc.handlers.len()),
        indexed_operations_text(sc.handlers, roots),
        property_defs(mir.properties@, mir.properties@.len()),
        ("end "@ + mir.name@ + "\n"@),
    );
}

} // verus!
