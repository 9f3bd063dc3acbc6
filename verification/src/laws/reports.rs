//! What the reports of a verification run say.
use vstd::prelude::*;

use crate::laws::backends::{backends_stand, counterexamples_upto_stands};
use crate::laws::lists::{
    assignments_upto_stands, axiom_lines_stands, dependency_lines_stands, queries_upto_stands,
};
use crate::laws::stands::{
    part_stands, stands, stands_in, stands_left, stands_right, stands_through,
};
use crate::number::decimal;
use crate::search::{contains_text, opt_text, starts_with_text};
use crate::split::{lines_text, split_text, trim_start_text, trim_text};
use crate::text::{join_text, texts};
use crate::verify::axioms::{after_line, closed, query_text, reported_axioms, reported_upto};
use crate::verify::human::{
    axioms_text, backend_text, backends_upto, counterexample_text, padded, report_text, spaces,
    widest,
};
use crate::verify::summary::{
    cargo_failure_text, first_line, is_kind, kani_failure_text, kani_pass_text, lake_failure_text,
    last_lines, occurrences, picked, LineKind,
};
use crate::verify::{
    kani_verdict, lean_verdict, next_after, none_failed, proptest_verdict, reports, selected,
    wanted, AxiomDependency, Backend, BackendReport, BackendStatus, KaniRun, LeanRun, ProptestRun,
    Verdict, VerifyOpts, VerifyReport,
};

verus! {

broadcast use {crate::text::group_text, crate::text::texts_index, crate::text::texts_len};

// ---------------------------------------------------------------------------
// Runs
// ---------------------------------------------------------------------------

/// The place of a backend in a run of all of them.
pub open spec fn rank(b: Backend) -> int {
    match b {
        Backend::Proptest => 0,
        Backend::Kani => 1,
        Backend::Lean => 2,
        Backend::Miri => 3,
    }
}

/// A backend runs if and only if it is wanted, once, and the cheap ones run
/// before the dear ones.
pub proof fn wanted_backends_run_in_order(opts: VerifyOpts)
    ensures
        selected(opts).contains(Backend::Proptest) <==> opts.proptest,
        selected(opts).contains(Backend::Kani) <==> opts.kani,
        selected(opts).contains(Backend::Lean) <==> opts.lean,
        selected(opts).contains(Backend::Miri) <==> opts.miri,
        forall|i: int, j: int|
            0 <= i < j < selected(opts).len() ==> rank(#[trigger] selected(opts)[i]) < rank(
                #[trigger] selected(opts)[j],
            ),
{
    let p = wanted(opts.proptest, Backend::Proptest);
    let k = wanted(opts.kani, Backend::Kani);
    let l = wanted(opts.lean, Backend::Lean);
    let m = wanted(opts.miri, Backend::Miri);
    let s = selected(opts);
    assert(s == p + k + l + m);
    if opts.proptest {
        assert(s[0] == Backend::Proptest);
    }
    if opts.kani {
        assert(s[p.len() as int] == Backend::Kani);
    }
    if opts.lean {
        assert(s[(p + k).len() as int] == Backend::Lean);
    }
    if opts.miri {
        assert(s[(p + k + l).len() as int] == Backend::Miri);
    }
}

/// A run goes on until every wanted backend has reported, and ends before only
/// where the first failure is to end it and there is one.
pub proof fn runs_end_when_they_should(opts: VerifyOpts, done: Seq<BackendReport>)
    ensures
        done.len() >= selected(opts).len() ==> next_after(opts, done) is None,
        !opts.fail_fast && done.len() < selected(opts).len() ==> next_after(opts, done) == Some(
            selected(opts)[done.len() as int],
        ),
        opts.fail_fast && (exists|i: int|
            0 <= i < done.len() && (#[trigger] done[i]).status is Failed) ==> next_after(opts, done)
            is None,
        (forall|i: int| 0 <= i < done.len() ==> !((#[trigger] done[i]).status is Failed))
            && done.len() < selected(opts).len() ==> next_after(opts, done) == Some(
            selected(opts)[done.len() as int],
        ),
{
    if exists|i: int| 0 <= i < done.len() && (#[trigger] done[i]).status is Failed {
        let i = choose|i: int| 0 <= i < done.len() && (#[trigger] done[i]).status is Failed;
        assert(done[i].status == BackendStatus::Failed);
    }
    assert forall|i: int|
        0 <= i < done.len() && !((#[trigger] done[i]).status is Failed) implies done[i].status
        != BackendStatus::Failed by {}
}

/// A backend passes only where its tool ran and found nothing, is skipped only
/// where there is nothing to run on, and fails otherwise.
pub proof fn only_success_passes(p: ProptestRun, k: KaniRun, l: LeanRun)
    ensures
        proptest_verdict(p).0 is Passed <==> p is Passed,
        proptest_verdict(p).0 is Skipped <==> p is NoHarness,
        kani_verdict(k).0 is Passed <==> k is Passed,
        kani_verdict(k).0 is Skipped <==> k is NoHarness,
        lean_verdict(l).0 is Passed <==> l is Passed,
        lean_verdict(l).0 is Skipped <==> l is NoLakefile,
{
}

/// The text of a verdict.
pub open spec fn says(v: Verdict, t: Seq<char>) -> bool {
    match v.1 {
        Some(d) => contains_text(d, t),
        None => false,
    }
}

proof fn lemma_says(a: Seq<char>, t: Seq<char>, z: Seq<char>)
    ensures
        contains_text(a + t + z, t),
        contains_text(a + t + z, a + t),
        contains_text(a + t, t),
        contains_text(a + t, a + t),
        contains_text(t, t),
        contains_text(a + t + z, z),
{
    stands(a, t, z);
    stands(Seq::empty(), a + t, z);
    assert(Seq::<char>::empty() + (a + t) + z =~= a + t + z);
    stands(a, t, Seq::empty());
    assert(a + t + Seq::<char>::empty() =~= a + t);
    stands(Seq::empty(), a + t, Seq::empty());
    assert(Seq::<char>::empty() + (a + t) + Seq::<char>::empty() =~= a + t);
    stands(Seq::empty(), t, Seq::empty());
    assert(Seq::<char>::empty() + t + Seq::<char>::empty() =~= t);
    stands(a + t, z, Seq::empty());
    assert(a + t + z + Seq::<char>::empty() =~= a + t + z);
}

/// What is missing or what went wrong is told with its path or its message.
pub proof fn verdicts_name_what_is_wrong(p: ProptestRun, k: KaniRun, l: LeanRun)
    ensures
        p is NoHarness ==> says(
            proptest_verdict(p),
            "harness not found at "@ + (p->NoHarness_0)@,
        ) && says(proptest_verdict(p), " (run `qedgen codegen --proptest`)"@),
        p is NoCrate ==> says(
            proptest_verdict(p),
            "no Cargo.toml found above "@ + (p->NoCrate_0)@,
        ),
        p is NotStarted ==> says(
            proptest_verdict(p),
            "failed to spawn cargo: "@ + (p->NotStarted_0)@,
        ),
        k is NoHarness ==> says(kani_verdict(k), "harness not found at "@ + (k->NoHarness_0)@)
            && says(kani_verdict(k), " (run `qedgen codegen --kani`)"@),
        k is NotInstalled ==> says(kani_verdict(k), (k->NotInstalled_0)@),
        k is NotPrepared ==> says(
            kani_verdict(k),
            "failed to prepare standalone Kani crate: "@ + (k->NotPrepared_0)@,
        ),
        k is NotStarted ==> says(
            kani_verdict(k),
            "failed to spawn cargo kani: "@ + (k->NotStarted_0)@,
        ),
        l is NoLakefile ==> says(lean_verdict(l), "no lakefile in "@ + (l->NoLakefile_0)@) && says(
            lean_verdict(l),
            " (run `qedgen codegen --lean`)"@,
        ),
        l is NotStarted ==> says(lean_verdict(l), "failed to spawn lake: "@ + (l->NotStarted_0)@),
{
    match p {
        ProptestRun::NoHarness(x) => lemma_says(
            "harness not found at "@,
            x@,
            " (run `qedgen codegen --proptest`)"@,
        ),
        ProptestRun::NoCrate(x) => lemma_says("no Cargo.toml found above "@, x@, Seq::empty()),
        ProptestRun::NotStarted(x) => lemma_says("failed to spawn cargo: "@, x@, Seq::empty()),
        _ => {},
    }
    match k {
        KaniRun::NoHarness(x) => lemma_says(
            "harness not found at "@,
            x@,
            " (run `qedgen codegen --kani`)"@,
        ),
        KaniRun::NotInstalled(x) => lemma_says(Seq::empty(), x@, Seq::empty()),
        KaniRun::NotPrepared(x) => lemma_says(
            "failed to prepare standalone Kani crate: "@,
            x@,
            Seq::empty(),
        ),
        KaniRun::NotStarted(x) => lemma_says("failed to spawn cargo kani: "@, x@, Seq::empty()),
        _ => {},
    }
    match l {
        LeanRun::NoLakefile(x) => lemma_says(
            "no lakefile in "@,
            x@,
            " (run `qedgen codegen --lean`)"@,
        ),
        LeanRun::NotStarted(x) => lemma_says(
            "failed to spawn lake: "@,
            x@,
            " (is lean/lake on PATH?)"@,
        ),
        _ => {},
    }
}

/// A report carries the verdict on the backend that it names.
pub proof fn reports_carry_the_verdict(r: BackendReport, name: Seq<char>, v: Verdict, ms: u128)
    requires
        reports(r, name, v, ms),
    ensures
        r.name@ == name,
        r.status == v.0,
        opt_text(r.detail) == v.1,
        r.duration_ms == ms,
        r.log_path is None,
{
}

// ---------------------------------------------------------------------------
// The lines that a report repeats
// ---------------------------------------------------------------------------

proof fn lemma_picked(
    acc: Seq<Seq<char>>,
    kind: LineKind,
    ls: Seq<Seq<char>>,
    limit: nat,
    n: nat,
)
    requires
        n <= ls.len(),
    ensures
        ({
            let all = picked(acc, kind, ls, limit, n);
            &&& all.len() >= acc.len()
            &&& acc.len() <= limit ==> all.len() <= limit
            &&& all.len() <= acc.len() + n
            &&& forall|i: int| 0 <= i < acc.len() ==> #[trigger] all[i] == acc[i]
            &&& forall|i: int|
                acc.len() <= i < all.len() ==> is_kind(kind, #[trigger] all[i]) && ls.contains(all[i])
        }),
    decreases n,
{
    if n > 0 {
        lemma_picked(acc, kind, ls, limit, (n - 1) as nat);
        let before = picked(acc, kind, ls, limit, (n - 1) as nat);
        let all = picked(acc, kind, ls, limit, n);
        assert forall|i: int| acc.len() <= i < all.len() implies is_kind(kind, #[trigger] all[i])
            && ls.contains(all[i]) by {
            if i < before.len() {
                assert(all[i] == before[i]);
            } else {
                assert(all[i] == ls[n - 1]);
            }
        }
    }
}

proof fn lemma_picked_one(
    acc: Seq<Seq<char>>,
    kind: LineKind,
    ls: Seq<Seq<char>>,
    limit: nat,
    n: nat,
    k: int,
)
    requires
        0 <= k < n <= ls.len(),
        is_kind(kind, ls[k]),
        picked(acc, kind, ls, limit, k as nat).len() < limit,
    ensures
        ({
            let i = picked(acc, kind, ls, limit, k as nat).len();
            let all = picked(acc, kind, ls, limit, n);
            i < all.len() && all[i as int] == ls[k]
        }),
    decreases n,
{
    if k < n - 1 {
        lemma_picked_one(acc, kind, ls, limit, (n - 1) as nat, k);
    }
}

proof fn lemma_quoted(
    acc: Seq<Seq<char>>,
    kind: LineKind,
    ls: Seq<Seq<char>>,
    limit: nat,
    k: int,
)
    requires
        0 <= k < ls.len(),
        is_kind(kind, ls[k]),
        acc.len() + k < limit,
    ensures
        picked(acc, kind, ls, limit, ls.len()).len() > 0,
        contains_text(join_text(picked(acc, kind, ls, limit, ls.len()), "\n"@), ls[k]),
{
    let all = picked(acc, kind, ls, limit, ls.len());
    lemma_picked(acc, kind, ls, limit, k as nat);
    lemma_picked_one(acc, kind, ls, limit, ls.len(), k);
    part_stands(all, "\n"@, picked(acc, kind, ls, limit, k as nat).len() as int);
}

/// Where the output of the tests says FAILED in one of its first ten lines, the
/// report repeats the line.
pub proof fn failed_tests_are_quoted(stdout: Seq<char>, stderr: Seq<char>, k: int)
    requires
        0 <= k < lines_text(stdout).len(),
        k < 10,
        contains_text(lines_text(stdout)[k], "FAILED"@),
    ensures
        contains_text(cargo_failure_text(stdout, stderr), lines_text(stdout)[k]),
{
    lemma_quoted(Seq::empty(), LineKind::TestFailure, lines_text(stdout), 10, k);
}

/// Where no line of the output says so, the report repeats the end of the
/// errors.
pub proof fn errors_are_quoted_where_no_test_fails(stdout: Seq<char>, stderr: Seq<char>)
    requires
        forall|k: int|
            0 <= k < lines_text(stdout).len() ==> !contains_text(
                #[trigger] lines_text(stdout)[k],
                "FAILED"@,
            ),
        lines_text(stderr).len() > 0,
    ensures
        contains_text(cargo_failure_text(stdout, stderr), lines_text(stderr).last()),
        lines_text(stderr).len() <= 20 ==> cargo_failure_text(stdout, stderr) == join_text(
            lines_text(stderr),
            "\n"@,
        ),
{
    let ls = lines_text(stdout);
    let found = picked(Seq::empty(), LineKind::TestFailure, ls, 10, ls.len());
    lemma_picked(Seq::empty(), LineKind::TestFailure, ls, 10, ls.len());
    if found.len() > 0 {
        assert(is_kind(LineKind::TestFailure, found[0]) && ls.contains(found[0]));
        lemma_failed_result(found[0]);
    }
    lemma_last_lines(stderr);
}

proof fn lemma_failed_result(l: Seq<char>)
    ensures
        contains_text(l, "test result: FAILED"@) ==> contains_text(l, "FAILED"@),
{
    if contains_text(l, "test result: FAILED"@) {
        reveal_strlit("test result: FAILED");
        reveal_strlit("test result: ");
        reveal_strlit("FAILED");
        assert("test result: FAILED"@ =~= "test result: "@ + "FAILED"@ + Seq::<char>::empty());
        stands("test result: "@, "FAILED"@, Seq::empty());
        stands_through(l, "test result: FAILED"@, "FAILED"@);
    }
}

proof fn lemma_last_lines(s: Seq<char>)
    requires
        lines_text(s).len() > 0,
    ensures
        contains_text(last_lines(s, 20), lines_text(s).last()),
        lines_text(s).len() <= 20 ==> last_lines(s, 20) == join_text(lines_text(s), "\n"@),
{
    let ls = lines_text(s);
    let from = if ls.len() > 20 {
        ls.len() - 20
    } else {
        0
    };
    let t = ls.subrange(from, ls.len() as int);
    assert(t.last() == ls.last());
    part_stands(t, "\n"@, t.len() - 1);
    if ls.len() <= 20 {
        assert(t =~= ls);
    }
}

/// Where the model checker names a failed check in one of its first twenty
/// lines, the report repeats the line.
pub proof fn failed_checks_are_quoted(stdout: Seq<char>, stderr: Seq<char>, k: int)
    requires
        0 <= k < lines_text(stdout).len(),
        k < 20,
        contains_text(lines_text(stdout)[k], "VERIFICATION:- FAILED"@) || contains_text(
            lines_text(stdout)[k],
            "Failed Checks:"@,
        ) || contains_text(lines_text(stdout)[k], "Failed properties:"@) || contains_text(
            lines_text(stdout)[k],
            "Check "@,
        ),
    ensures
        contains_text(kani_failure_text(stdout, stderr), lines_text(stdout)[k]),
{
    let ls = lines_text(stdout);
    let found = picked(Seq::empty(), LineKind::KaniCheck, ls, 20, ls.len());
    lemma_picked(Seq::empty(), LineKind::KaniCheck, ls, 20, k as nat);
    lemma_picked_one(Seq::empty(), LineKind::KaniCheck, ls, 20, ls.len(), k);
    let i = picked(Seq::empty(), LineKind::KaniCheck, ls, 20, k as nat).len() as int;
    part_stands(found, "\n"@, i);
    if let Some(l) = first_line(LineKind::KaniSummary, ls, 0) {
        assert(found.push(l)[i] == ls[k]);
        part_stands(found.push(l), "\n"@, i);
    }
}

/// Errors of a Lean build are repeated from both of its outputs: of the first
/// ten lines of each, as far as there is room.
pub proof fn build_errors_are_quoted(stdout: Seq<char>, stderr: Seq<char>, k: int)
    ensures
        0 <= k < lines_text(stderr).len() && k < 10 && contains_text(
            lines_text(stderr)[k],
            "error:"@,
        ) ==> contains_text(lake_failure_text(stdout, stderr), lines_text(stderr)[k]),
        0 <= k < lines_text(stderr).len() && k < 10 && contains_text(
            lines_text(stderr)[k],
            "sorry"@,
        ) ==> contains_text(lake_failure_text(stdout, stderr), lines_text(stderr)[k]),
        0 <= k < lines_text(stdout).len() && k + lines_text(stderr).len() < 10 && contains_text(
            lines_text(stdout)[k],
            "error:"@,
        ) ==> contains_text(lake_failure_text(stdout, stderr), lines_text(stdout)[k]),
        0 <= k < lines_text(stdout).len() && k + lines_text(stderr).len() < 10 && contains_text(
            lines_text(stdout)[k],
            "sorry"@,
        ) ==> contains_text(lake_failure_text(stdout, stderr), lines_text(stdout)[k]),
{
    let kind = LineKind::LakeError;
    let errs = lines_text(stderr);
    let outs = lines_text(stdout);
    let first = picked(Seq::empty(), kind, errs, 10, errs.len());
    let all = picked(first, kind, outs, 10, outs.len());
    lemma_picked(Seq::empty(), kind, errs, 10, errs.len());
    lemma_picked(first, kind, outs, 10, outs.len());
    if 0 <= k < errs.len() && k < 10 && is_kind(kind, errs[k]) {
        lemma_picked(Seq::empty(), kind, errs, 10, k as nat);
        lemma_picked_one(Seq::empty(), kind, errs, 10, errs.len(), k);
        let i = picked(Seq::empty(), kind, errs, 10, k as nat).len() as int;
        assert(all[i] == first[i]);
        part_stands(all, "\n"@, i);
    }
    if 0 <= k < outs.len() && k + errs.len() < 10 && is_kind(kind, outs[k]) {
        lemma_quoted(first, kind, outs, 10, k);
    }
}

/// The number of verified harnesses leads the report of a model check that
/// passed, and is zero only where none is said to be verified.
pub proof fn verified_harnesses_are_counted(stdout: Seq<char>)
    ensures
        ({
            let n = occurrences(stdout, "VERIFICATION:- SUCCESSFUL"@, 0);
            &&& starts_with_text(kani_pass_text(stdout), decimal(n))
            &&& n == 0 <==> !contains_text(stdout, "VERIFICATION:- SUCCESSFUL"@)
        }),
{
    let t = "VERIFICATION:- SUCCESSFUL"@;
    reveal_strlit("VERIFICATION:- SUCCESSFUL");
    let n = decimal(occurrences(stdout, t, 0));
    crate::search::lemma_first_at(stdout, t, 0);
    let s = kani_pass_text(stdout);
    assert(s.subrange(0, n.len() as int) =~= n);
}

/// Every further verified harness counts for one more.
pub proof fn every_verified_harness_counts(a: Seq<char>, t: Seq<char>, z: Seq<char>)
    requires
        t.len() > 0,
    ensures
        occurrences(a + t + z, t, a.len() as int) == 1 + occurrences(
            a + t + z,
            t,
            (a + t).len() as int,
        ),
{
    let s = a + t + z;
    assert(s.subrange(a.len() as int, (a + t).len() as int) =~= t);
    crate::search::lemma_first_at(s, t, a.len() as int);
}

// ---------------------------------------------------------------------------
// The report as text
// ---------------------------------------------------------------------------

proof fn lemma_head(head: Seq<char>, a: Seq<char>, b: Seq<char>, c: Seq<char>, t: Seq<char>)
    ensures
        contains_text(head, t) ==> contains_text(head + a + b + c, t),
        contains_text(a, t) ==> contains_text(head + a + b + c, t),
        contains_text(b, t) ==> contains_text(head + a + b + c, t),
        contains_text(c, t) ==> contains_text(head + a + b + c, t),
{
    if contains_text(head, t) {
        stands_left(head, a, t);
        stands_left(head + a, b, t);
        stands_left(head + a + b, c, t);
    }
    if contains_text(a, t) {
        stands_in(head, a, b, t);
        stands_left(head + a + b, c, t);
    }
    if contains_text(b, t) {
        stands_in(head + a, b, c, t);
    }
    if contains_text(c, t) {
        stands_right(head + a + b, c, t);
    }
}

proof fn lemma_in_report(r: VerifyReport, k: int, t: Seq<char>)
    requires
        0 <= k < r.backends@.len(),
        contains_text(backend_text(r.backends@[k]), t),
    ensures
        contains_text(report_text(r), t),
{
    let bs = r.backends@;
    let all = backends_upto(bs, bs.len());
    backends_stand(bs, bs.len(), k);
    stands_through(all, backend_text(bs[k]), t);
    let verdict = if none_failed(bs) {
        "OK\n"@
    } else {
        "FAILED\n"@
    };
    stands_in("qedgen verify — "@ + r.spec@ + "\n"@, all, verdict, t);
}

/// Every backend has a line with how it ended, its name and how long it took.
pub proof fn reports_tell_how_backends_ended(r: VerifyReport, k: int)
    requires
        0 <= k < r.backends@.len(),
    ensures
        ({
            let b = r.backends@[k];
            let rest = "] "@ + padded(b.name@, 10) + " ("@ + decimal(b.duration_ms as nat) + " ms)\n"@;
            &&& b.status is Passed ==> contains_text(report_text(r), "  ["@ + "PASS"@ + rest)
            &&& b.status is Failed ==> contains_text(report_text(r), "  ["@ + "FAIL"@ + rest)
            &&& b.status is Skipped ==> contains_text(report_text(r), "  ["@ + "SKIP"@ + rest)
        }),
{
    let b = r.backends@[k];
    let rest = "] "@ + padded(b.name@, 10) + " ("@ + decimal(b.duration_ms as nat) + " ms)\n"@;
    let word = match b.status {
        BackendStatus::Passed => "PASS"@,
        BackendStatus::Failed => "FAIL"@,
        BackendStatus::Skipped => "SKIP"@,
    };
    lemma_says(Seq::empty(), "  ["@ + word + rest, Seq::empty());
    lemma_head(
        "  ["@ + word + rest,
        crate::verify::human::detail_text(b.detail),
        crate::verify::human::counterexamples_upto(b.counterexamples@, b.counterexamples@.len()),
        axioms_text(b.axioms@),
        "  ["@ + word + rest,
    );
    lemma_in_report(r, k, "  ["@ + word + rest);
}

/// Every value of every counterexample stands in the report, behind the name of
/// its variable.
pub proof fn reports_show_counterexamples(r: VerifyReport, k: int, j: int)
    requires
        0 <= k < r.backends@.len(),
        0 <= j < r.backends@[k].counterexamples@.len(),
    ensures
        ({
            let c = r.backends@[k].counterexamples@[j];
            let w = widest(c.assignments@, c.assignments@.len());
            &&& contains_text(report_text(r), "         counterexample: "@ + c.harness@ + "\n"@)
            &&& forall|i: int|
                0 <= i < c.assignments@.len() ==> contains_text(
                    report_text(r),
                    "             "@ + padded((#[trigger] c.assignments@[i]).name@, w) + " = "@
                        + c.assignments@[i].value@ + "\n"@,
                )
            &&& c.seed is Some ==> contains_text(
                report_text(r),
                "           seed: "@ + (c.seed->0)@ + "\n"@,
            )
            &&& c.source_location is Some ==> contains_text(
                report_text(r),
                "           at "@ + (c.source_location->0)@ + "\n"@,
            )
            &&& c.failure_message is Some ==> contains_text(
                report_text(r),
                "           "@ + (c.failure_message->0)@ + "\n"@,
            )
        }),
{
    let b = r.backends@[k];
    let c = b.counterexamples@[j];
    let xs = c.assignments@;
    let w = widest(xs, xs.len());
    let first = "         counterexample: "@ + c.harness@ + "\n"@;
    lemma_says(Seq::empty(), first, Seq::empty());
    lemma_case_in_report(r, k, j, first);
    assert forall|i: int| 0 <= i < xs.len() implies contains_text(
        report_text(r),
        "             "@ + padded((#[trigger] xs[i]).name@, w) + " = "@ + xs[i].value@ + "\n"@,
    ) by {
        assignments_upto_stands(xs, w, xs.len(), i);
        lemma_case_in_report(
            r,
            k,
            j,
            "             "@ + padded(xs[i].name@, w) + " = "@ + xs[i].value@ + "\n"@,
        );
    }
    if let Some(t) = c.seed {
        let l = "           seed: "@ + t@ + "\n"@;
        lemma_says(Seq::empty(), l, Seq::empty());
        lemma_case_in_report(r, k, j, l);
    }
    if let Some(t) = c.source_location {
        let l = "           at "@ + t@ + "\n"@;
        lemma_says(Seq::empty(), l, Seq::empty());
        lemma_case_in_report(r, k, j, l);
    }
    if let Some(t) = c.failure_message {
        let l = "           "@ + t@ + "\n"@;
        lemma_says(Seq::empty(), l, Seq::empty());
        lemma_case_in_report(r, k, j, l);
    }
}

proof fn lemma_case_in_report(r: VerifyReport, k: int, j: int, t: Seq<char>)
    requires
        0 <= k < r.backends@.len(),
        0 <= j < r.backends@[k].counterexamples@.len(),
        ({
            let c = r.backends@[k].counterexamples@[j];
            let first = "         counterexample: "@ + c.harness@ + "\n"@;
            let xs = crate::verify::human::assignments_upto(
                c.assignments@,
                widest(c.assignments@, c.assignments@.len()),
                c.assignments@.len(),
            );
            ||| contains_text(first, t)
            ||| contains_text(
                crate::verify::human::opt_line("           "@, c.failure_message),
                t,
            )
            ||| contains_text(
                crate::verify::human::opt_line("           at "@, c.source_location),
                t,
            )
            ||| contains_text(xs, t)
            ||| contains_text(crate::verify::human::opt_line("           seed: "@, c.seed), t)
        }),
    ensures
        contains_text(report_text(r), t),
{
    let b = r.backends@[k];
    let cs = b.counterexamples@;
    let c = cs[j];
    let first = "         counterexample: "@ + c.harness@ + "\n"@;
    let message = crate::verify::human::opt_line("           "@, c.failure_message);
    let place = crate::verify::human::opt_line("           at "@, c.source_location);
    let xs = crate::verify::human::assignments_upto(
        c.assignments@,
        widest(c.assignments@, c.assignments@.len()),
        c.assignments@.len(),
    );
    let seed = crate::verify::human::opt_line("           seed: "@, c.seed);
    lemma_head(first, message, place, xs, t);
    if contains_text(seed, t) {
        stands_right(first + message + place + xs, seed, t);
    } else {
        stands_left(first + message + place + xs, seed, t);
    }
    assert(counterexample_text(c) == first + message + place + xs + seed);
    counterexamples_upto_stands(cs, cs.len(), j);
    let all = crate::verify::human::counterexamples_upto(cs, cs.len());
    stands_through(all, counterexample_text(c), t);
    lemma_head(
        "  ["@ + crate::verify::human::marker(b.status) + "] "@ + padded(b.name@, 10) + " ("@
            + decimal(b.duration_ms as nat) + " ms)\n"@,
        crate::verify::human::detail_text(b.detail),
        all,
        axioms_text(b.axioms@),
        t,
    );
    lemma_in_report(r, k, t);
}

/// A name is padded with spaces behind it, to the width of its column.
pub proof fn padding_is_spaces(s: Seq<char>, width: int)
    ensures
        starts_with_text(padded(s, width), s),
        s.len() <= width ==> padded(s, width).len() == width,
        s.len() > width ==> padded(s, width) == s,
        forall|i: int| s.len() <= i < padded(s, width).len() ==> padded(s, width)[i] == ' ',
{
    lemma_spaces(width - s.len());
    assert(padded(s, width).subrange(0, s.len() as int) =~= s);
    if s.len() > width {
        assert(padded(s, width) =~= s);
    }
}

proof fn lemma_spaces(n: int)
    ensures
        n >= 0 ==> spaces(n).len() == n,
        n < 0 ==> spaces(n).len() == 0,
        forall|i: int| 0 <= i < spaces(n).len() ==> spaces(n)[i] == ' ',
    decreases n,
{
    if n > 0 {
        lemma_spaces(n - 1);
    }
}

/// The report of a build that passed lists the axioms of every theorem below its
/// name.
pub proof fn reports_show_the_axioms(ds: Seq<AxiomDependency>, k: int, i: int)
    requires
        0 <= k < ds.len(),
        0 <= i < ds[k].axioms@.len(),
    ensures
        contains_text(axioms_text(ds), "           "@ + ds[k].theorem@ + "\n"@),
        contains_text(axioms_text(ds), "             - "@ + ds[k].axioms@[i]@ + "\n"@),
{
    let n = ds.len();
    let own = texts(ds[k].axioms@);
    let lead = "         trust surface (unverified axioms each theorem depends on):\n"@;
    let first = "           "@ + ds[k].theorem@ + "\n"@;
    let rest = crate::verify::human::axiom_lines(own, ds[k].axioms@.len());
    let line = "             - "@ + ds[k].axioms@[i]@ + "\n"@;
    dependency_lines_stands(ds, n, k);
    axiom_lines_stands(own, own.len(), i);
    lemma_says(Seq::empty(), first, Seq::empty());
    stands_left(first, rest, first);
    stands_right(first, rest, line);
    let all = crate::verify::human::dependency_lines(ds, n);
    stands_through(all, first + rest, first);
    stands_through(all, first + rest, line);
    stands_right(lead, all, first);
    stands_right(lead, all, line);
}

// ---------------------------------------------------------------------------
// Axioms
// ---------------------------------------------------------------------------

/// Lean is asked for the axioms of every theorem.
pub proof fn every_theorem_is_asked_for(
    has_spec: bool,
    has_proofs: bool,
    theorems: Seq<Seq<char>>,
    k: int,
)
    requires
        0 <= k < theorems.len(),
    ensures
        contains_text(
            query_text(has_spec, has_proofs, theorems),
            "#print axioms "@ + theorems[k] + "\n"@,
        ),
{
    queries_upto_stands(theorems, theorems.len(), k);
    let head = (if has_spec {
        "import Spec\n"@
    } else {
        Seq::empty()
    }) + (if has_proofs {
        "import Proofs\n"@
    } else {
        Seq::empty()
    }) + "\n"@;
    stands_right(
        head,
        crate::verify::axioms::queries_upto(theorems, theorems.len()),
        "#print axioms "@ + theorems[k] + "\n"@,
    );
}

proof fn lemma_reported(parts: Seq<Seq<char>>, n: nat, k: int)
    requires
        0 <= k < n <= parts.len(),
        trim_text(parts[k]).len() > 0,
        trim_text(parts[k]) != "propext"@,
        trim_text(parts[k]) != "Classical.choice"@,
        trim_text(parts[k]) != "Quot.sound"@,
        trim_text(parts[k]) != "Lean.ofReduceBool"@,
        trim_text(parts[k]) != "Lean.trustCompiler"@,
    ensures
        reported_upto(parts, n).contains(trim_text(parts[k])),
    decreases n,
{
    let before = reported_upto(parts, (n - 1) as nat);
    let all = reported_upto(parts, n);
    let a = trim_text(parts[k]);
    if k < n - 1 {
        lemma_reported(parts, (n - 1) as nat, k);
        let i = choose|i: int| 0 <= i < before.len() && before[i] == a;
        assert(all[i] == a);
    } else {
        assert(all[all.len() - 1] == a);
    }
}

/// Every axiom of a list is reported but the five that Lean itself brings.
pub proof fn foreign_axioms_are_reported(list: Seq<char>, k: int)
    requires
        0 <= k < split_text(list, ',').len(),
        trim_text(split_text(list, ',')[k]).len() > 0,
        trim_text(split_text(list, ',')[k]) != "propext"@,
        trim_text(split_text(list, ',')[k]) != "Classical.choice"@,
        trim_text(split_text(list, ',')[k]) != "Quot.sound"@,
        trim_text(split_text(list, ',')[k]) != "Lean.ofReduceBool"@,
        trim_text(split_text(list, ',')[k]) != "Lean.trustCompiler"@,
    ensures
        reported_axioms(list).contains(trim_text(split_text(list, ',')[k])),
{
    lemma_reported(split_text(list, ','), split_text(list, ',').len(), k);
}

/// Of the axioms that Lean itself brings none is reported.
pub proof fn own_axioms_are_not_reported(list: Seq<char>)
    ensures
        !reported_axioms(list).contains("propext"@),
        !reported_axioms(list).contains("Classical.choice"@),
        !reported_axioms(list).contains("Quot.sound"@),
        !reported_axioms(list).contains("Lean.ofReduceBool"@),
        !reported_axioms(list).contains("Lean.trustCompiler"@),
{
    crate::verify::axioms::builtins_are_not_reported(list);
}

/// A theorem is known by its name behind the names of the namespaces that are
/// open; a namespace that is opened and closed leaves what was open before.
pub proof fn theorems_are_known_by_their_namespaces(
    ns: Seq<Seq<char>>,
    found: Seq<Seq<char>>,
    line: Seq<char>,
    name: Seq<char>,
    path: Seq<Seq<char>>,
)
    requires
        !starts_with_text(trim_start_text(line), "--"@),
        !starts_with_text(trim_start_text(line), "namespace "@),
        !starts_with_text(trim_start_text(line), "end "@),
    ensures
        after_line((Seq::empty(), found), line, Some(name)) == (
            Seq::<Seq<char>>::empty(),
            found.push(name),
        ),
        ns.len() > 0 ==> after_line((ns, found), line, Some(name)) == (
            ns,
            found.push(join_text(ns.push(name), "."@)),
        ),
        after_line((ns, found), line, None) == (ns, found),
        closed(ns + path, path) == ns,
{
    if ns.len() > 0 {
        assert(ns.push(name).drop_last() =~= ns);
        assert(join_text(ns.push(name), "."@) == join_text(ns, "."@) + "."@ + name);
    }
    let all = ns + path;
    assert(all.subrange(ns.len() as int, all.len() as int) =~= path);
    assert(all.subrange(0, ns.len() as int) =~= ns);
}

} // verus!
