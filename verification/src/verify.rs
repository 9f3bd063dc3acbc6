//! Verification runs: which backend runs next, what each outcome reports, and
//! the report as a whole.
use vstd::prelude::*;

use crate::search::opt_text;
use crate::verify::summary::{
    cargo_failure_text, kani_failure_text, kani_pass_text, lake_failure_text,
    summarize_cargo_failure, summarize_kani_failure, summarize_kani_pass, summarize_lake_failure,
};

pub mod axioms;
pub mod human;
pub mod summary;

pub use crate::verify::human::format_human;

verus! {

broadcast use {crate::text::group_text, crate::text::texts_index, crate::text::texts_len};

/// How a backend ended.
#[derive(Debug, Clone, Copy, PartialEq, Eq, Structural)]
pub enum BackendStatus {
    Passed,
    Failed,
    Skipped,
}

/// A value that a counterexample gives to a variable.
#[derive(Debug, PartialEq, Eq)]
pub struct CounterexampleVar {
    pub name: String,
    pub value: String,
    pub line: Option<u32>,
}

/// How a harness fails.
#[derive(Debug, PartialEq, Eq)]
pub struct Counterexample {
    pub harness: String,
    pub status: String,
    pub assignments: Vec<CounterexampleVar>,
    pub seed: Option<String>,
    pub failure_message: Option<String>,
    pub source_location: Option<String>,
}

/// The unverified axioms that a theorem depends on. Those that every Lean
/// program rests on are not among them.
#[derive(Debug, PartialEq, Eq)]
pub struct AxiomDependency {
    /// The theorem with its namespaces.
    pub theorem: String,
    pub axioms: Vec<String>,
}

/// What one backend reports.
#[derive(Debug, PartialEq, Eq)]
pub struct BackendReport {
    pub name: &'static str,
    pub status: BackendStatus,
    pub duration_ms: u128,
    pub detail: Option<String>,
    pub log_path: Option<String>,
    /// How the harnesses of a failed backend fail, as far as its output shows.
    pub counterexamples: Vec<Counterexample>,
    /// What the theorems of a passed Lean build rest on.
    pub axioms: Vec<AxiomDependency>,
}

/// What all backends report of a spec.
#[derive(Debug, PartialEq, Eq)]
pub struct VerifyReport {
    pub spec: String,
    pub backends: Vec<BackendReport>,
}

/// Which backends run on a spec, and where their inputs are.
#[derive(Debug, PartialEq, Eq)]
pub struct VerifyOpts {
    pub spec: String,
    pub proptest: bool,
    pub proptest_path: String,
    pub kani: bool,
    pub kani_path: String,
    pub lean: bool,
    pub lean_dir: String,
    /// Whether the first failure ends the run.
    pub fail_fast: bool,
    pub miri: bool,
    pub project_root: String,
}

/// No report is a failure.
pub open spec fn none_failed(rs: Seq<BackendReport>) -> bool {
    forall|i: int| 0 <= i < rs.len() ==> (#[trigger] rs[i]).status != BackendStatus::Failed
}

fn all_right(rs: &Vec<BackendReport>) -> (r: bool)
    ensures
        r == none_failed(rs@),
{
    for i in 0..rs.len()
        invariant
            none_failed(rs@.take(i as int)),
    {
        if rs[i].status == BackendStatus::Failed {
            return false;
        }
        proof {
            assert forall|k: int| 0 <= k < i + 1 implies (#[trigger] rs@.take(i + 1)[k]).status
                != BackendStatus::Failed by {
                if k < i {
                    assert(rs@.take(i as int)[k] == rs@[k]);
                }
            }
        }
    }
    proof {
        assert(rs@.take(rs@.len() as int) =~= rs@);
    }
    true
}

impl VerifyReport {
    /// Whether no backend failed.
    pub fn ok(&self) -> (r: bool)
        ensures
            r == none_failed(self.backends@),
    {
        all_right(&self.backends)
    }
}

// ---------------------------------------------------------------------------
// The order of the backends
// ---------------------------------------------------------------------------

/// A backend.
#[derive(Debug, Clone, Copy, PartialEq, Eq, Structural)]
pub enum Backend {
    Proptest,
    Kani,
    Lean,
    Miri,
}

/// The backend alone where it is wanted.
pub open spec fn wanted(flag: bool, b: Backend) -> Seq<Backend> {
    if flag {
        seq![b]
    } else {
        Seq::empty()
    }
}

/// The backends that are wanted, in the order in which they run.
pub open spec fn selected(opts: VerifyOpts) -> Seq<Backend> {
    wanted(opts.proptest, Backend::Proptest) + wanted(opts.kani, Backend::Kani) + wanted(
        opts.lean,
        Backend::Lean,
    ) + wanted(opts.miri, Backend::Miri)
}

/// The backends that are wanted, in the order in which they run.
pub fn select(opts: &VerifyOpts) -> (r: Vec<Backend>)
    ensures
        r@ == selected(*opts),
        r@.len() <= 4,
{
    let mut out: Vec<Backend> = Vec::new();
    if opts.proptest {
        out.push(Backend::Proptest);
    }
    if opts.kani {
        out.push(Backend::Kani);
    }
    if opts.lean {
        out.push(Backend::Lean);
    }
    if opts.miri {
        out.push(Backend::Miri);
    }
    proof {
        assert(out@ =~= selected(*opts));
    }
    out
}

/// The backend that runs after those that have reported: none once all have,
/// or once one failed and the first failure ends the run.
pub open spec fn next_after(opts: VerifyOpts, done: Seq<BackendReport>) -> Option<Backend> {
    if done.len() >= selected(opts).len() || (opts.fail_fast && !none_failed(done)) {
        None
    } else {
        Some(selected(opts)[done.len() as int])
    }
}

/// The backend that runs next.
pub fn next_backend(opts: &VerifyOpts, done: &Vec<BackendReport>) -> (r: Option<Backend>)
    ensures
        r == next_after(*opts, done@),
{
    let all = select(opts);
    if done.len() >= all.len() || (opts.fail_fast && !all_right(done)) {
        return None;
    }
    Some(all[done.len()])
}

/// How many of the first `n` reports count: those of the backends that run.
pub open spec fn counted(opts: VerifyOpts, rs: Seq<BackendReport>, n: nat) -> nat
    decreases n,
{
    if n == 0 {
        0
    } else {
        let before = counted(opts, rs, (n - 1) as nat);
        if before == n - 1 && next_after(opts, rs.take(n - 1)) is Some {
            n
        } else {
            before
        }
    }
}

/// The report of a run, made of what its backends report in their order: each
/// backend that is wanted, up to the first failure where that ends the run.
pub fn run(opts: &VerifyOpts, reports: Vec<BackendReport>) -> (r: VerifyReport)
    ensures
        r.spec@ == opts.spec@,
        r.backends@ == reports@.take(counted(*opts, reports@, reports@.len()) as int),
{
    let all = select(opts);
    let mut backends = reports;
    let ghost rs = reports@;
    let mut n: usize = 0;
    let mut failed: bool = false;
    while n < backends.len() && n < all.len() && !(opts.fail_fast && failed)
        invariant
            all@ == selected(*opts),
            all@.len() <= 4,
            backends@ == rs,
            n <= rs.len(),
            n <= all@.len(),
            counted(*opts, rs, n as nat) == n,
            failed == !none_failed(rs.take(n as int)),
        decreases rs.len() - n,
    {
        if backends[n].status == BackendStatus::Failed {
            failed = true;
            proof {
                assert(rs.take(n + 1)[n as int] == rs[n as int]);
            }
        }
        proof {
            assert forall|k: int| 0 <= k < n implies rs.take(n as int)[k] == #[trigger] rs.take(
                n + 1,
            )[k] by {}
            if !none_failed(rs.take(n as int)) {
                let k = choose|k: int|
                    0 <= k < n && (#[trigger] rs.take(n as int)[k]).status
                        == BackendStatus::Failed;
                assert(rs.take(n + 1)[k].status == BackendStatus::Failed);
            }
        }
        n = n + 1;
    }
    proof {
        lemma_counted(*opts, rs, n as nat, rs.len());
    }
    backends.truncate(n);
    VerifyReport { spec: opts.spec.clone(), backends }
}

/// Once a report does not count, none after it does.
proof fn lemma_counted(opts: VerifyOpts, rs: Seq<BackendReport>, n: nat, m: nat)
    requires
        n <= m <= rs.len(),
        counted(opts, rs, n) == n,
        n < m ==> next_after(opts, rs.take(n as int)) is None,
    ensures
        counted(opts, rs, m) == n,
    decreases m,
{
    if n < m {
        if n < m - 1 {
            lemma_counted(opts, rs, n, (m - 1) as nat);
        }
    }
}

/// Backends that were run one by one, each as the next one, are all in the
/// report.
pub proof fn stepping_reports_everything(opts: VerifyOpts, rs: Seq<BackendReport>)
    requires
        forall|k: int|
            0 <= k < rs.len() ==> next_after(opts, #[trigger] rs.take(k)) is Some,
    ensures
        counted(opts, rs, rs.len()) == rs.len(),
        rs.take(counted(opts, rs, rs.len()) as int) == rs,
{
    lemma_stepping(opts, rs, rs.len());
    assert(rs.take(rs.len() as int) =~= rs);
}

proof fn lemma_stepping(opts: VerifyOpts, rs: Seq<BackendReport>, n: nat)
    requires
        n <= rs.len(),
        forall|k: int|
            0 <= k < rs.len() ==> next_after(opts, #[trigger] rs.take(k)) is Some,
    ensures
        counted(opts, rs, n) == n,
    decreases n,
{
    if n > 0 {
        lemma_stepping(opts, rs, (n - 1) as nat);
        assert(next_after(opts, rs.take(n - 1)) is Some);
    }
}

/// A run that the first failure ends reports at most one failure, and that one
/// last.
pub proof fn fail_fast_stops_at_the_first_failure(opts: VerifyOpts, rs: Seq<BackendReport>, n: nat)
    requires
        opts.fail_fast,
        n <= rs.len(),
    ensures
        counted(opts, rs, n) <= n,
        counted(opts, rs, n) > 0 ==> none_failed(rs.take(counted(opts, rs, n) - 1)),
    decreases n,
{
    if n > 0 {
        fail_fast_stops_at_the_first_failure(opts, rs, (n - 1) as nat);
    }
}

// ---------------------------------------------------------------------------
// What each backend reports
// ---------------------------------------------------------------------------

/// What came of the property tests.
pub enum ProptestRun {
    /// There is no harness at the path.
    NoHarness(String),
    /// No crate holds the harness at the path.
    NoCrate(String),
    /// The tests could not be started.
    NotStarted(String),
    Passed,
    Failed {
        stdout: String,
        stderr: String,
        counterexamples: Vec<Counterexample>,
        /// What runs the failing case again.
        seed: Option<String>,
    },
}

/// What came of the model checker.
pub enum KaniRun {
    /// There is no harness at the path.
    NoHarness(String),
    /// A tool that the harness needs is not installed.
    NotInstalled(String),
    /// The crate for the harness could not be written.
    NotPrepared(String),
    /// The model checker could not be started.
    NotStarted(String),
    Passed(String),
    Failed { stdout: String, stderr: String, counterexamples: Vec<Counterexample> },
}

/// What came of the Lean build.
pub enum LeanRun {
    /// The directory has no lakefile.
    NoLakefile(String),
    /// The build could not be started.
    NotStarted(String),
    Passed(Vec<AxiomDependency>),
    Failed { stdout: String, stderr: String },
}

/// A counterexample with its seed.
pub open spec fn with_seed(c: Counterexample, seed: Option<String>) -> Counterexample {
    Counterexample { seed, ..c }
}

fn copy_opt(o: &Option<String>) -> (r: Option<String>)
    ensures
        r == *o,
{
    match o {
        Some(s) => Some(s.clone()),
        None => None,
    }
}

fn set_seeds(cxs: Vec<Counterexample>, seed: &Option<String>) -> (r: Vec<Counterexample>)
    ensures
        r@ == cxs@.map_values(|c: Counterexample| with_seed(c, *seed)),
{
    let mut out = cxs;
    let ghost all = cxs@;
    let mut i: usize = 0;
    while i < out.len()
        invariant
            i <= all.len(),
            out@.len() == all.len(),
            forall|k: int| 0 <= k < i ==> #[trigger] out@[k] == with_seed(all[k], *seed),
            forall|k: int| i <= k < all.len() ==> #[trigger] out@[k] == all[k],
        decreases all.len() - i,
    {
        out[i].seed = copy_opt(seed);
        i = i + 1;
    }
    proof {
        assert(out@ =~= all.map_values(|c: Counterexample| with_seed(c, *seed)));
    }
    out
}

/// A status and what is said of it.
pub type Verdict = (BackendStatus, Option<Seq<char>>);

/// The report bears the name, the verdict and the time, and no log.
pub open spec fn reports(r: BackendReport, name: Seq<char>, v: Verdict, ms: u128) -> bool {
    r.name@ == name && r.status == v.0 && opt_text(r.detail) == v.1 && r.duration_ms == ms
        && r.log_path is None
}

pub open spec fn proptest_verdict(run: ProptestRun) -> Verdict {
    match run {
        ProptestRun::NoHarness(path) => (
            BackendStatus::Skipped,
            Some("harness not found at "@ + path@ + " (run `qedgen codegen --proptest`)"@),
        ),
        ProptestRun::NoCrate(path) => (
            BackendStatus::Failed,
            Some("no Cargo.toml found above "@ + path@),
        ),
        ProptestRun::NotStarted(e) => (
            BackendStatus::Failed,
            Some("failed to spawn cargo: "@ + e@),
        ),
        ProptestRun::Passed => (BackendStatus::Passed, None),
        ProptestRun::Failed { stdout, stderr, .. } => (
            BackendStatus::Failed,
            Some(cargo_failure_text(stdout@, stderr@)),
        ),
    }
}

/// The report of the property tests.
pub fn proptest_report(run: ProptestRun, duration_ms: u128) -> (r: BackendReport)
    ensures
        reports(r, "proptest"@, proptest_verdict(run), duration_ms),
        r.axioms@.len() == 0,
        match run {
            ProptestRun::Failed { counterexamples, seed, .. } => r.counterexamples@
                == counterexamples@.map_values(|c: Counterexample| with_seed(c, seed)),
            _ => r.counterexamples@.len() == 0,
        },
{
    let mut detail = String::new();
    let mut counterexamples: Vec<Counterexample> = Vec::new();
    let status = match run {
        ProptestRun::NoHarness(path) => {
            detail.push_str("harness not found at ");
            detail.push_str(&path);
            detail.push_str(" (run `qedgen codegen --proptest`)");
            BackendStatus::Skipped
        },
        ProptestRun::NoCrate(path) => {
            detail.push_str("no Cargo.toml found above ");
            detail.push_str(&path);
            BackendStatus::Failed
        },
        ProptestRun::NotStarted(e) => {
            detail.push_str("failed to spawn cargo: ");
            detail.push_str(&e);
            BackendStatus::Failed
        },
        ProptestRun::Passed => {
            return BackendReport {
                name: "proptest",
                status: BackendStatus::Passed,
                duration_ms,
                detail: None,
                log_path: None,
                counterexamples,
                axioms: Vec::new(),
            };
        },
        ProptestRun::Failed { stdout, stderr, counterexamples: found, seed } => {
            detail = summarize_cargo_failure(&stdout, &stderr);
            counterexamples = set_seeds(found, &seed);
            BackendStatus::Failed
        },
    };
    BackendReport {
        name: "proptest",
        status,
        duration_ms,
        detail: Some(detail),
        log_path: None,
        counterexamples,
        axioms: Vec::new(),
    }
}

pub open spec fn kani_verdict(run: KaniRun) -> Verdict {
    match run {
        KaniRun::NoHarness(path) => (
            BackendStatus::Skipped,
            Some("harness not found at "@ + path@ + " (run `qedgen codegen --kani`)"@),
        ),
        KaniRun::NotInstalled(e) => (BackendStatus::Failed, Some(e@)),
        KaniRun::NotPrepared(e) => (
            BackendStatus::Failed,
            Some("failed to prepare standalone Kani crate: "@ + e@),
        ),
        KaniRun::NotStarted(e) => (
            BackendStatus::Failed,
            Some("failed to spawn cargo kani: "@ + e@),
        ),
        KaniRun::Passed(stdout) => (BackendStatus::Passed, Some(kani_pass_text(stdout@))),
        KaniRun::Failed { stdout, stderr, .. } => (
            BackendStatus::Failed,
            Some(kani_failure_text(stdout@, stderr@)),
        ),
    }
}

/// The report of the model checker.
pub fn kani_report(run: KaniRun, duration_ms: u128) -> (r: BackendReport)
    ensures
        reports(r, "kani"@, kani_verdict(run), duration_ms),
        r.axioms@.len() == 0,
        match run {
            KaniRun::Failed { counterexamples, .. } => r.counterexamples@ == counterexamples@,
            _ => r.counterexamples@.len() == 0,
        },
{
    let mut detail = String::new();
    let mut counterexamples: Vec<Counterexample> = Vec::new();
    let status = match run {
        KaniRun::NoHarness(path) => {
            detail.push_str("harness not found at ");
            detail.push_str(&path);
            detail.push_str(" (run `qedgen codegen --kani`)");
            BackendStatus::Skipped
        },
        KaniRun::NotInstalled(e) => {
            detail = e;
            BackendStatus::Failed
        },
        KaniRun::NotPrepared(e) => {
            detail.push_str("failed to prepare standalone Kani crate: ");
            detail.push_str(&e);
            BackendStatus::Failed
        },
        KaniRun::NotStarted(e) => {
            detail.push_str("failed to spawn cargo kani: ");
            detail.push_str(&e);
            BackendStatus::Failed
        },
        KaniRun::Passed(stdout) => {
            detail = summarize_kani_pass(&stdout);
            BackendStatus::Passed
        },
        KaniRun::Failed { stdout, stderr, counterexamples: found } => {
            detail = summarize_kani_failure(&stdout, &stderr);
            counterexamples = found;
            BackendStatus::Failed
        },
    };
    BackendReport {
        name: "kani",
        status,
        duration_ms,
        detail: Some(detail),
        log_path: None,
        counterexamples,
        axioms: Vec::new(),
    }
}

pub open spec fn lean_verdict(run: LeanRun) -> Verdict {
    match run {
        LeanRun::NoLakefile(dir) => (
            BackendStatus::Skipped,
            Some("no lakefile in "@ + dir@ + " (run `qedgen codegen --lean`)"@),
        ),
        LeanRun::NotStarted(e) => (
            BackendStatus::Failed,
            Some("failed to spawn lake: "@ + e@ + " (is lean/lake on PATH?)"@),
        ),
        LeanRun::Passed(_) => (BackendStatus::Passed, None),
        LeanRun::Failed { stdout, stderr } => (
            BackendStatus::Failed,
            Some(lake_failure_text(stdout@, stderr@)),
        ),
    }
}

/// The report of the Lean build.
pub fn lean_report(run: LeanRun, duration_ms: u128) -> (r: BackendReport)
    ensures
        reports(r, "lean"@, lean_verdict(run), duration_ms),
        r.counterexamples@.len() == 0,
        match run {
            LeanRun::Passed(axioms) => r.axioms@ == axioms@,
            _ => r.axioms@.len() == 0,
        },
{
    let mut detail = String::new();
    let status = match run {
        LeanRun::NoLakefile(dir) => {
            detail.push_str("no lakefile in ");
            detail.push_str(&dir);
            detail.push_str(" (run `qedgen codegen --lean`)");
            BackendStatus::Skipped
        },
        LeanRun::NotStarted(e) => {
            detail.push_str("failed to spawn lake: ");
            detail.push_str(&e);
            detail.push_str(" (is lean/lake on PATH?)");
            BackendStatus::Failed
        },
        LeanRun::Passed(axioms) => {
            return BackendReport {
                name: "lean",
                status: BackendStatus::Passed,
                duration_ms,
                detail: None,
                log_path: None,
                counterexamples: Vec::new(),
                axioms,
            };
        },
        LeanRun::Failed { stdout, stderr } => {
            detail = summarize_lake_failure(&stdout, &stderr);
            BackendStatus::Failed
        },
    };
    BackendReport {
        name: "lean",
        status,
        duration_ms,
        detail: Some(detail),
        log_path: None,
        counterexamples: Vec::new(),
        axioms: Vec::new(),
    }
}

/// The manifest of the crate that the model checker runs a harness in.
pub const KANI_MANIFEST: &'static str = "[package]\nname = \"qedgen-kani-harness\"\nversion = \"0.1.0\"\nedition = \"2021\"\n\n[lib]\npath = \"src/lib.rs\"\n";

} // verus!
