//! Lean code generation: the rendered spec and the files beside it.
use vstd::prelude::*;

use crate::lean::indexed::indexed_file_text;
use crate::lean::multi::multi_file_text;
use crate::lean::render::{
    adt_file_text, file_text, render_spec, single_file_text, spec_file_text,
};
use crate::mir::Mir;
use crate::parsed::ParsedSpec;
use crate::search::ends_with_text;
use crate::sidecars::{plan_sidecars, planned, SidecarPlan};

pub use crate::lean::render::render;

verus! {

/// The file of a state machine ends its namespace.
pub proof fn files_end_their_namespace(mir: Mir)
    ensures
        ends_with_text(file_text(mir), "end "@ + mir.name@ + "\n"@),
{
    let s = file_text(mir);
    let t = "end "@ + mir.name@ + "\n"@;
    reveal(indexed_file_text);
    reveal(multi_file_text);
    reveal(adt_file_text);
    reveal(single_file_text);
    assert(exists|front: Seq<char>| s == #[trigger] (front + t));
    let front = choose|front: Seq<char>| s == #[trigger] (front + t);
    assert(s.subrange(s.len() - t.len(), s.len() as int) =~= t);
}

/// Renders a spec and plans the files beside it: the spec with the imports of
/// its pinned interfaces, the modules of their axioms, and what the lakefile
/// is to list.
pub fn generate(mir: &Mir, parsed: &ParsedSpec) -> (r: SidecarPlan)
    ensures
        planned(spec_file_text(*mir, *parsed), *parsed, r),
{
    let content = render_spec(mir, parsed);
    plan_sidecars(&content, parsed)
}

} // verus!
