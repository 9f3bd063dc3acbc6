//! Reports as text for people.
use vstd::prelude::*;
use vstd::utf8::encode_utf8;

use crate::number::{decimal, decimal_string};
use crate::search::ends_with_text;
use crate::split::{lines, lines_text};
use crate::text::{chars_of, texts};
use crate::verify::{
    none_failed, AxiomDependency, BackendReport, BackendStatus, Counterexample, CounterexampleVar,
    VerifyReport,
};

verus! {

broadcast use {crate::text::group_text, crate::text::texts_index, crate::text::texts_len};

/// `n` spaces.
pub open spec fn spaces(n: int) -> Seq<char>
    decreases n,
{
    if n <= 0 {
        Seq::empty()
    } else {
        spaces(n - 1).push(' ')
    }
}

/// A text with spaces behind it, up to `width` characters.
pub open spec fn padded(s: Seq<char>, width: int) -> Seq<char> {
    s + spaces(width - s.len())
}

fn pad(s: &str, width: usize) -> (r: String)
    ensures
        r@ == padded(s@, width as int),
{
    let mut out = s.to_owned();
    let len: usize = chars_of(s).len();
    let n: usize = if width > len {
        width - len
    } else {
        0
    };
    for i in 0..n
        invariant
            out@ == s@ + spaces(i as int),
    {
        out.push(' ');
        proof {
            assert((s@ + spaces(i as int)).push(' ') =~= s@ + spaces(i + 1));
        }
    }
    out
}

/// The number of bytes of a text.
pub open spec fn byte_len(s: Seq<char>) -> int {
    encode_utf8(s).len() as usize as int
}

/// The greatest number of bytes that one of the first `n` names has.
pub open spec fn widest(xs: Seq<CounterexampleVar>, n: nat) -> int
    decreases n,
{
    if n == 0 {
        0
    } else {
        let before = widest(xs, (n - 1) as nat);
        let own = byte_len(xs[n - 1].name@);
        if own > before {
            own
        } else {
            before
        }
    }
}

fn name_width(xs: &Vec<CounterexampleVar>) -> (r: usize)
    ensures
        r == widest(xs@, xs@.len()),
{
    let mut w: usize = 0;
    for i in 0..xs.len()
        invariant
            w == widest(xs@, i as nat),
    {
        let own: usize = xs[i].name.as_str().len();
        if own > w {
            w = own;
        }
    }
    w
}

pub open spec fn assignments_upto(xs: Seq<CounterexampleVar>, width: int, n: nat) -> Seq<char>
    decreases n,
{
    if n == 0 {
        Seq::empty()
    } else {
        assignments_upto(xs, width, (n - 1) as nat) + ("             "@ + padded(xs[n - 1].name@, width) + " = "@ + xs[n - 1].value@ + "\n"@)
    }
}

fn emit_assignments(out: &mut String, xs: &Vec<CounterexampleVar>)
    ensures
        final(out)@ == old(out)@ + assignments_upto(xs@, widest(xs@, xs@.len()), xs@.len()),
{
    let w = name_width(xs);
    for i in 0..xs.len()
        invariant
            w == widest(xs@, xs@.len()),
            out@ == old(out)@ + assignments_upto(xs@, w as int, i as nat),
    {
        let name = pad(&xs[i].name, w);
        out.push_str("             ");
        out.push_str(&name);
        out.push_str(" = ");
        out.push_str(&xs[i].value);
        out.push_str("\n");
    }
}

/// A line with what an optional text says, behind `lead`.
pub open spec fn opt_line(lead: Seq<char>, o: Option<String>) -> Seq<char> {
    match o {
        Some(t) => lead + t@ + "\n"@,
        None => Seq::empty(),
    }
}

fn emit_opt_line(out: &mut String, lead: &str, o: &Option<String>)
    ensures
        final(out)@ == old(out)@ + opt_line(lead@, *o),
{
    match o {
        Some(t) => {
            out.push_str(lead);
            out.push_str(t);
            out.push_str("\n");
        },
        None => {},
    }
}

/// How a harness fails: its message, its place, the values, aligned, and the
/// seed.
pub open spec fn counterexample_text(c: Counterexample) -> Seq<char> {
    "         counterexample: "@ + c.harness@ + "\n"@ + opt_line("           "@, c.failure_message)
        + opt_line("           at "@, c.source_location) + assignments_upto(
        c.assignments@,
        widest(c.assignments@, c.assignments@.len()),
        c.assignments@.len(),
    ) + opt_line("           seed: "@, c.seed)
}

pub open spec fn counterexamples_upto(cs: Seq<Counterexample>, n: nat) -> Seq<char>
    decreases n,
{
    if n == 0 {
        Seq::empty()
    } else {
        counterexamples_upto(cs, (n - 1) as nat) + counterexample_text(cs[n - 1])
    }
}

fn format_counterexamples(out: &mut String, cs: &Vec<Counterexample>)
    ensures
        final(out)@ == old(out)@ + counterexamples_upto(cs@, cs@.len()),
{
    for i in 0..cs.len()
        invariant
            out@ == old(out)@ + counterexamples_upto(cs@, i as nat),
    {
        let c = &cs[i];
        out.push_str("         counterexample: ");
        out.push_str(&c.harness);
        out.push_str("\n");
        emit_opt_line(out, "           ", &c.failure_message);
        emit_opt_line(out, "           at ", &c.source_location);
        emit_assignments(out, &c.assignments);
        emit_opt_line(out, "           seed: ", &c.seed);
    }
}

pub open spec fn axiom_lines(xs: Seq<Seq<char>>, n: nat) -> Seq<char>
    decreases n,
{
    if n == 0 {
        Seq::empty()
    } else {
        axiom_lines(xs, (n - 1) as nat) + ("             - "@ + xs[n - 1] + "\n"@)
    }
}

pub open spec fn dependency_lines(ds: Seq<AxiomDependency>, n: nat) -> Seq<char>
    decreases n,
{
    if n == 0 {
        Seq::empty()
    } else {
        dependency_lines(ds, (n - 1) as nat) + ("           "@ + ds[n - 1].theorem@ + "\n"@)
            + axiom_lines(texts(ds[n - 1].axioms@), ds[n - 1].axioms@.len())
    }
}

/// What the theorems rest on; nothing where they rest on no axiom.
pub open spec fn axioms_text(ds: Seq<AxiomDependency>) -> Seq<char> {
    if ds.len() == 0 {
        Seq::empty()
    } else {
        "         trust surface (unverified axioms each theorem depends on):\n"@
            + dependency_lines(ds, ds.len())
    }
}

fn format_axioms(out: &mut String, ds: &Vec<AxiomDependency>)
    ensures
        final(out)@ == old(out)@ + axioms_text(ds@),
{
    if ds.len() == 0 {
        return ;
    }
    out.push_str("         trust surface (unverified axioms each theorem depends on):\n");
    let ghost base = out@;
    for i in 0..ds.len()
        invariant
            out@ == base + dependency_lines(ds@, i as nat),
    {
        let d = &ds[i];
        out.push_str("           ");
        out.push_str(&d.theorem);
        out.push_str("\n");
        let ghost inner = out@;
        for j in 0..d.axioms.len()
            invariant
                out@ == inner + axiom_lines(texts(d.axioms@), j as nat),
        {
            out.push_str("             - ");
            out.push_str(&d.axioms[j]);
            out.push_str("\n");
        }
    }
}

pub open spec fn marker(s: BackendStatus) -> Seq<char> {
    match s {
        BackendStatus::Passed => "PASS"@,
        BackendStatus::Failed => "FAIL"@,
        BackendStatus::Skipped => "SKIP"@,
    }
}

fn marker_str(s: BackendStatus) -> (r: &'static str)
    ensures
        r@ == marker(s),
{
    match s {
        BackendStatus::Passed => "PASS",
        BackendStatus::Failed => "FAIL",
        BackendStatus::Skipped => "SKIP",
    }
}

pub open spec fn detail_upto(ls: Seq<Seq<char>>, n: nat) -> Seq<char>
    decreases n,
{
    if n == 0 {
        Seq::empty()
    } else {
        detail_upto(ls, (n - 1) as nat) + ("         "@ + ls[n - 1] + "\n"@)
    }
}

/// The detail of a report, line by line.
pub open spec fn detail_text(o: Option<String>) -> Seq<char> {
    match o {
        Some(d) => detail_upto(lines_text(d@), lines_text(d@).len()),
        None => Seq::empty(),
    }
}

fn emit_detail(out: &mut String, o: &Option<String>)
    ensures
        final(out)@ == old(out)@ + detail_text(*o),
{
    match o {
        Some(d) => {
            let ls = lines(d);
            for i in 0..ls.len()
                invariant
                    out@ == old(out)@ + detail_upto(texts(ls@), i as nat),
            {
                out.push_str("         ");
                out.push_str(&ls[i]);
                out.push_str("\n");
            }
        },
        None => {},
    }
}

/// What one backend reports.
pub open spec fn backend_text(b: BackendReport) -> Seq<char> {
    "  ["@ + marker(b.status) + "] "@ + padded(b.name@, 10) + " ("@ + decimal(b.duration_ms as nat) + " ms)\n"@
        + detail_text(b.detail) + counterexamples_upto(
        b.counterexamples@,
        b.counterexamples@.len(),
    ) + axioms_text(b.axioms@)
}

fn emit_backend(out: &mut String, b: &BackendReport)
    ensures
        final(out)@ == old(out)@ + backend_text(*b),
{
    let name = pad(b.name, 10);
    let ms = decimal_string(b.duration_ms);
    out.push_str("  [");
    out.push_str(marker_str(b.status));
    out.push_str("] ");
    out.push_str(&name);
    out.push_str(" (");
    out.push_str(&ms);
    out.push_str(" ms)\n");
    emit_detail(out, &b.detail);
    format_counterexamples(out, &b.counterexamples);
    format_axioms(out, &b.axioms);
}

pub open spec fn backends_upto(bs: Seq<BackendReport>, n: nat) -> Seq<char>
    decreases n,
{
    if n == 0 {
        Seq::empty()
    } else {
        backends_upto(bs, (n - 1) as nat) + backend_text(bs[n - 1])
    }
}

/// A report: the spec, what each backend reports, and whether all is well.
pub open spec fn report_text(r: VerifyReport) -> Seq<char> {
    "qedgen verify — "@ + r.spec@ + "\n"@ + backends_upto(r.backends@, r.backends@.len()) + (
    if none_failed(r.backends@) {
        "OK\n"@
    } else {
        "FAILED\n"@
    })
}

/// Renders a report for people.
pub fn format_human(report: &VerifyReport) -> (r: String)
    ensures
        r@ == report_text(*report),
{
    let mut out = "qedgen verify — ".to_owned();
    out.push_str(&report.spec);
    out.push_str("\n");
    let ghost base = out@;
    for i in 0..report.backends.len()
        invariant
            out@ == base + backends_upto(report.backends@, i as nat),
    {
        emit_backend(&mut out, &report.backends[i]);
    }
    if report.ok() {
        out.push_str("OK\n");
    } else {
        out.push_str("FAILED\n");
    }
    out
}

proof fn lemma_bytes(s: Seq<char>)
    ensures
        encode_utf8(s).len() >= s.len(),
    decreases s.len(),
{
    if s.len() > 0 {
        lemma_bytes(s.drop_first());
    }
}

proof fn lemma_widest(xs: Seq<CounterexampleVar>, n: nat, i: int)
    requires
        0 <= i < n <= xs.len(),
    ensures
        byte_len(xs[i].name@) <= widest(xs, n),
    decreases n,
{
    if i < n - 1 {
        lemma_widest(xs, (n - 1) as nat, i);
    }
}

proof fn lemma_spaces(n: int)
    requires
        n >= 0,
    ensures
        spaces(n).len() == n,
    decreases n,
{
    if n > 0 {
        lemma_spaces(n - 1);
    }
}

/// The names of a counterexample's values fill a column: each is padded to the
/// width of the widest.
pub proof fn name_column_is_aligned(xs: Seq<CounterexampleVar>, i: int)
    requires
        0 <= i < xs.len(),
        encode_utf8(xs[i].name@).len() <= usize::MAX,
    ensures
        padded(xs[i].name@, widest(xs, xs.len())).len() == widest(xs, xs.len()),
{
    let name = xs[i].name@;
    lemma_bytes(name);
    lemma_widest(xs, xs.len(), i);
    lemma_spaces(widest(xs, xs.len()) - name.len());
}

/// Nothing, or lines that are all ended.
spec fn is_lines(s: Seq<char>) -> bool {
    s.len() == 0 || s.last() == '\n'
}

proof fn lemma_detail_lines(ls: Seq<Seq<char>>, n: nat)
    ensures
        is_lines(detail_upto(ls, n)),
    decreases n,
{
    reveal_strlit("\n");
}

proof fn lemma_assignment_lines(xs: Seq<CounterexampleVar>, width: int, n: nat)
    ensures
        is_lines(assignments_upto(xs, width, n)),
    decreases n,
{
    reveal_strlit("\n");
}

proof fn lemma_counterexample_lines(cs: Seq<Counterexample>, n: nat)
    ensures
        is_lines(counterexamples_upto(cs, n)),
    decreases n,
{
    reveal_strlit("\n");
    if n > 0 {
        let c = cs[n - 1];
        let xs = c.assignments@;
        lemma_counterexample_lines(cs, (n - 1) as nat);
        lemma_assignment_lines(xs, widest(xs, xs.len()), xs.len());
        assert(is_lines(counterexample_text(c)));
    }
}

proof fn lemma_axiom_lines(xs: Seq<Seq<char>>, n: nat)
    ensures
        is_lines(axiom_lines(xs, n)),
    decreases n,
{
    reveal_strlit("\n");
}

proof fn lemma_dependency_lines(ds: Seq<AxiomDependency>, n: nat)
    ensures
        is_lines(dependency_lines(ds, n)),
    decreases n,
{
    reveal_strlit("\n");
    if n > 0 {
        lemma_dependency_lines(ds, (n - 1) as nat);
        lemma_axiom_lines(texts(ds[n - 1].axioms@), ds[n - 1].axioms@.len());
    }
}

proof fn lemma_lines_added(a: Seq<char>, b: Seq<char>)
    requires
        is_lines(a),
        is_lines(b),
    ensures
        is_lines(a + b),
{
    if b.len() == 0 {
        assert(a + b =~= a);
    }
}

proof fn lemma_axioms_lines(ds: Seq<AxiomDependency>)
    ensures
        is_lines(axioms_text(ds)),
{
    if ds.len() > 0 {
        let lead = "         trust surface (unverified axioms each theorem depends on):\n"@;
        let n = ds.len();
        lemma_dependency_lines(ds, n);
        reveal_strlit("           ");
        assert(dependency_lines(ds, n).len() > 0);
        assert((lead + dependency_lines(ds, n)).last() == dependency_lines(ds, n).last());
    }
}

proof fn lemma_one_backend_lines(b: BackendReport)
    ensures
        is_lines(backend_text(b)),
{
    let head = "  ["@ + marker(b.status) + "] "@ + padded(b.name@, 10) + " ("@ + decimal(
        b.duration_ms as nat,
    ) + " ms)\n"@;
    let detail = detail_text(b.detail);
    let cases = counterexamples_upto(b.counterexamples@, b.counterexamples@.len());
    assert(is_lines(head)) by {
        reveal_strlit(" ms)\n");
    }
    assert(is_lines(detail)) by {
        if let Some(d) = b.detail {
            lemma_detail_lines(lines_text(d@), lines_text(d@).len());
        }
    }
    lemma_counterexample_lines(b.counterexamples@, b.counterexamples@.len());
    lemma_axioms_lines(b.axioms@);
    lemma_lines_added(head, detail);
    lemma_lines_added(head + detail, cases);
    lemma_lines_added(head + detail + cases, axioms_text(b.axioms@));
}

proof fn lemma_backend_lines(bs: Seq<BackendReport>, n: nat)
    ensures
        is_lines(backends_upto(bs, n)),
    decreases n,
{
    if n > 0 {
        lemma_backend_lines(bs, (n - 1) as nat);
        lemma_one_backend_lines(bs[n - 1]);
        lemma_lines_added(backends_upto(bs, (n - 1) as nat), backend_text(bs[n - 1]));
    }
}

proof fn lemma_ends_with_line(head: Seq<char>, verdict: Seq<char>, line: Seq<char>)
    requires
        head.len() > 0,
        head.last() == '\n',
        line == seq!['\n'] + verdict,
    ensures
        ends_with_text(head + verdict, line),
{
    let t = head + verdict;
    assert(t.subrange(t.len() - line.len(), t.len() as int) =~= line);
}

proof fn lemma_verdict_lines()
    ensures
        "\nOK\n"@ == seq!['\n'] + "OK\n"@,
        "\nFAILED\n"@ == seq!['\n'] + "FAILED\n"@,
{
    reveal_strlit("\nOK\n");
    reveal_strlit("OK\n");
    assert("\nOK\n"@ =~= seq!['\n'] + "OK\n"@);
    reveal_strlit("\nFAILED\n");
    reveal_strlit("FAILED\n");
    assert("\nFAILED\n"@ =~= seq!['\n'] + "FAILED\n"@);
}

proof fn lemma_first_line(lead: Seq<char>, spec: Seq<char>, all: Seq<char>)
    requires
        is_lines(all),
    ensures
        (lead + spec + "\n"@ + all).len() > 0,
        (lead + spec + "\n"@ + all).last() == '\n',
{
    reveal_strlit("\n");
    let first = lead + spec + "\n"@;
    assert(first.len() > 0 && first.last() == '\n');
    lemma_lines_added(first, all);
}

/// A report ends with the verdict on a line of its own.
pub proof fn report_ends_with_verdict(r: VerifyReport)
    ensures
        none_failed(r.backends@) ==> ends_with_text(report_text(r), "\nOK\n"@),
        !none_failed(r.backends@) ==> ends_with_text(report_text(r), "\nFAILED\n"@),
{
    let all = backends_upto(r.backends@, r.backends@.len());
    let head = "qedgen verify — "@ + r.spec@ + "\n"@ + all;
    lemma_backend_lines(r.backends@, r.backends@.len());
    lemma_first_line("qedgen verify — "@, r.spec@, all);
    lemma_verdict_lines();
    if none_failed(r.backends@) {
        lemma_ends_with_line(head, "OK\n"@, "\nOK\n"@);
    } else {
        lemma_ends_with_line(head, "FAILED\n"@, "\nFAILED\n"@);
    }
}

} // verus!
