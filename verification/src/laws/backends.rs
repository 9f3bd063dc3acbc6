//! Where the backends of a report and their counterexamples stand.
use vstd::prelude::*;

use crate::laws::stands::{stands, stands_left};
use crate::search::contains_text;
use crate::verify::human::{backend_text, backends_upto, counterexample_text, counterexamples_upto};
use crate::verify::{BackendReport, Counterexample};

verus! {

/// What each backend reports stands in what all report.
pub proof fn backends_stand(bs: Seq<BackendReport>, n: nat, k: int)
    requires
        0 <= k < n <= bs.len(),
    ensures
        contains_text(backends_upto(bs, n), backend_text(bs[k])),
    decreases n,
{
    let before = backends_upto(bs, (n - 1) as nat);
    let own = backend_text(bs[n - 1]);
    assert(backends_upto(bs, n) == before + own);
    if k < n - 1 {
        backends_stand(bs, (n - 1) as nat, k);
        stands_left(before, own, backend_text(bs[k]));
    } else {
        stands(before, own, Seq::empty());
        assert(before + own + Seq::<char>::empty() =~= before + own);
    }
}

/// Each item of the list stands in it.
pub proof fn counterexamples_upto_stands(cs: Seq<Counterexample>, n: nat, k: int)
    requires
        0 <= k < n <= cs.len(),
    ensures
        contains_text(counterexamples_upto(cs, n), counterexample_text(cs[k])),
    decreases n,
{
    let before = counterexamples_upto(cs, (n - 1) as nat);
    let item = counterexample_text(cs[k]);
    if k < n - 1 {
        counterexamples_upto_stands(cs, (n - 1) as nat, k);
        stands_left(before, counterexample_text(cs[n - 1]), item);
    } else {
        stands(before, item, Seq::empty());
        assert(before + item + Seq::<char>::empty() =~= before + item);
    }
}

} // verus!
