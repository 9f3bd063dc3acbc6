//! Property-test code generation: whether there is anything to generate, and
//! for which files.
use vstd::prelude::*;

use crate::mir::Mir;
use crate::parsed::ParsedSpec;

verus! {

/// A harness that is to be generated.
#[derive(Debug)]
pub struct HarnessJob {
    /// The spec that the harness is generated from.
    pub spec_path: String,
    /// The file that it is written to.
    pub output_path: String,
}

/// What is said of a spec without handlers.
pub const NO_OPERATIONS: &'static str = "No operations found in the spec — is this a valid qedspec file?";

/// The job for a spec; an error for a spec without handlers.
pub fn generate(_mir: &Mir, parsed: &ParsedSpec, spec_path: &str, output_path: &str) -> (r: Result<
    HarnessJob,
    String,
>)
    ensures
        match r {
            Ok(job) => parsed.handlers@.len() > 0 && job.spec_path@ == spec_path@
                && job.output_path@ == output_path@,
            Err(e) => parsed.handlers@.len() == 0 && e@ == NO_OPERATIONS@,
        },
{
    if parsed.handlers.len() == 0 {
        return Err(NO_OPERATIONS.to_owned());
    }
    Ok(HarnessJob { spec_path: spec_path.to_owned(), output_path: output_path.to_owned() })
}

} // verus!
