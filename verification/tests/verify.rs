use qedgen::verify::axioms::{
    axiom_query, collect_theorems_from_text, dependencies, first_idents, parse_axiom_output,
};
use qedgen::verify::human::format_human;
use qedgen::verify::summary::{
    summarize_cargo_failure, summarize_kani_failure, summarize_kani_pass, summarize_lake_failure,
    tail_lines,
};
use qedgen::verify::{
    kani_report, lean_report, next_backend, proptest_report, run, AxiomDependency, Backend,
    BackendReport, BackendStatus, Counterexample, CounterexampleVar, KaniRun, LeanRun, ProptestRun,
    VerifyOpts, VerifyReport, KANI_MANIFEST,
};

fn cx_kani_overflow() -> Counterexample {
    Counterexample {
        harness: "probe_overflow_transfer".into(),
        status: "failed".into(),
        assignments: vec![
            CounterexampleVar {
                name: "pre".into(),
                value: "18446744073709551615ul".into(),
                line: Some(38),
            },
            CounterexampleVar {
                name: "amount".into(),
                value: "1ul".into(),
                line: Some(39),
            },
            CounterexampleVar {
                name: "post".into(),
                value: "0ul".into(),
                line: Some(40),
            },
        ],
        seed: None,
        failure_message: Some(
            "assertion failed: post == pre.checked_add(amount).unwrap_or(0)".into(),
        ),
        source_location: Some("tests/kani.rs:42:5".into()),
    }
}

fn cx_proptest_lifecycle() -> Counterexample {
    Counterexample {
        harness: "deposit_preserves_lifecycle".into(),
        status: "failed".into(),
        assignments: vec![
            CounterexampleVar {
                name: "deposit_amount".into(),
                value: "0".into(),
                line: None,
            },
            CounterexampleVar {
                name: "receive_amount".into(),
                value: "42".into(),
                line: None,
            },
        ],
        seed: Some("proptest-regressions/lib.txt::cc 0123".into()),
        failure_message: Some("deposit must reject zero amount".into()),
        source_location: None,
    }
}

#[test]
fn renders_kani_counterexample_with_named_assignments() {
    let report = VerifyReport {
        spec: "program.qedspec".to_string(),
        backends: vec![BackendReport {
            name: "kani",
            status: BackendStatus::Failed,
            duration_ms: 1234,
            detail: Some("1 of 2 failed".into()),
            log_path: None,
            counterexamples: vec![cx_kani_overflow()],
            axioms: Vec::new(),
        }],
    };
    let out = format_human(&report);
    assert!(out.contains("counterexample: probe_overflow_transfer"));
    assert!(out.contains("at tests/kani.rs:42:5"));
    assert!(out.contains("pre    = 18446744073709551615ul"));
    assert!(out.contains("amount = 1ul"));
    assert!(out.contains("post   = 0ul"));
    let pre_line = out
        .lines()
        .find(|l| l.starts_with("             pre"))
        .unwrap();
    let post_line = out
        .lines()
        .find(|l| l.starts_with("             post"))
        .unwrap();
    let pre_eq = pre_line.find('=').unwrap();
    let post_eq = post_line.find('=').unwrap();
    assert_eq!(pre_eq, post_eq, "name column should be width-aligned");
}

#[test]
fn renders_proptest_counterexample_with_seed() {
    let report = VerifyReport {
        spec: "program.qedspec".to_string(),
        backends: vec![BackendReport {
            name: "proptest",
            status: BackendStatus::Failed,
            duration_ms: 50,
            detail: None,
            log_path: None,
            counterexamples: vec![cx_proptest_lifecycle()],
            axioms: Vec::new(),
        }],
    };
    let out = format_human(&report);
    assert!(out.contains("counterexample: deposit_preserves_lifecycle"));
    assert!(out.contains("deposit must reject zero amount"));
    assert!(out.contains("deposit_amount = 0"));
    assert!(out.contains("receive_amount = 42"));
    assert!(out.contains("seed: proptest-regressions/lib.txt::cc 0123"));
}

#[test]
fn renders_multiple_backends_with_mixed_status() {
    let report = VerifyReport {
        spec: "program.qedspec".to_string(),
        backends: vec![
            BackendReport {
                name: "proptest",
                status: BackendStatus::Passed,
                duration_ms: 12,
                detail: None,
                log_path: None,
                counterexamples: vec![],
                axioms: Vec::new(),
            },
            BackendReport {
                name: "kani",
                status: BackendStatus::Failed,
                duration_ms: 4567,
                detail: Some("1 of 1 failed".into()),
                log_path: None,
                counterexamples: vec![cx_kani_overflow()],
                axioms: Vec::new(),
            },
            BackendReport {
                name: "lean",
                status: BackendStatus::Skipped,
                duration_ms: 0,
                detail: Some("no lakefile".into()),
                log_path: None,
                counterexamples: vec![],
                axioms: Vec::new(),
            },
        ],
    };
    let out = format_human(&report);
    assert!(out.contains("[PASS] proptest"));
    assert!(out.contains("[FAIL] kani"));
    assert!(out.contains("[SKIP] lean"));
    assert!(out.contains("counterexample: probe_overflow_transfer"));
    let kani_idx = out.find("[FAIL] kani").unwrap();
    let cx_idx = out.find("counterexample:").unwrap();
    assert!(cx_idx > kani_idx);
    assert!(out.ends_with("FAILED\n"));
}

#[test]
fn passing_report_omits_counterexamples_and_ends_ok() {
    let report = VerifyReport {
        spec: "program.qedspec".to_string(),
        backends: vec![BackendReport {
            name: "kani",
            status: BackendStatus::Passed,
            duration_ms: 100,
            detail: None,
            log_path: None,
            counterexamples: vec![],
            axioms: Vec::new(),
        }],
    };
    let out = format_human(&report);
    assert!(!out.contains("counterexample"));
    assert!(out.ends_with("OK\n"));
}

#[test]
fn collects_top_level_theorems_with_namespace_prefix() {
    let src = r#"
namespace PoolDemo

def foo (x : Nat) : Nat := x + 1

theorem deposit_Token_transfer_call_0_post_1 (s : State) : True := trivial
theorem deposit_aborts_if_InvalidAmount : 1 = 1 := rfl

end PoolDemo

theorem at_root : True := trivial
"#;
    let mut out = Vec::new();
    collect_theorems_from_text(src, &mut out);
    assert_eq!(
        out,
        vec![
            "PoolDemo.deposit_Token_transfer_call_0_post_1".to_string(),
            "PoolDemo.deposit_aborts_if_InvalidAmount".to_string(),
            "at_root".to_string(),
        ]
    );
}

#[test]
fn collects_theorems_with_modifiers_and_nested_namespaces() {
    let src = r#"
namespace Outer
namespace Inner

private theorem hidden : True := trivial
protected theorem visible (n : Nat) : n = n := rfl
noncomputable theorem chosen : True := trivial

end Inner
end Outer
"#;
    let mut out = Vec::new();
    collect_theorems_from_text(src, &mut out);
    assert_eq!(
        out,
        vec![
            "Outer.Inner.hidden".to_string(),
            "Outer.Inner.visible".to_string(),
            "Outer.Inner.chosen".to_string(),
        ]
    );
}

#[test]
fn parses_lean_print_axioms_output_and_filters_builtins() {
    let stdout = "\
'PoolDemo.deposit_aborts_if_InvalidAmount' depends on axioms: [propext, Token.transfer.ensures_axiom_1]
'PoolDemo.deposit_frame' depends on axioms: [Classical.choice, Quot.sound, sorryAx]
'PoolDemo.all_proven' does not depend on any axioms
'PoolDemo.only_builtins' depends on axioms: [propext, Classical.choice]
";
    let report = parse_axiom_output(stdout);
    assert_eq!(
        report.len(),
        2,
        "only theorems with non-builtin axioms surface"
    );
    assert_eq!(
        report[0].theorem,
        "PoolDemo.deposit_aborts_if_InvalidAmount"
    );
    assert_eq!(report[0].axioms, vec!["Token.transfer.ensures_axiom_1"]);
    assert_eq!(report[1].theorem, "PoolDemo.deposit_frame");
    assert_eq!(report[1].axioms, vec!["sorryAx"]);
}

#[test]
fn renders_axiom_report_below_lean_backend() {
    let report = VerifyReport {
        spec: "program.qedspec".to_string(),
        backends: vec![BackendReport {
            name: "lean",
            status: BackendStatus::Passed,
            duration_ms: 850,
            detail: None,
            log_path: None,
            counterexamples: vec![],
            axioms: vec![
                AxiomDependency {
                    theorem: "PoolDemo.deposit_Token_transfer_call_0_post_1".into(),
                    axioms: vec!["Token.transfer.ensures_axiom_1".into()],
                },
                AxiomDependency {
                    theorem: "PoolDemo.deposit_frame".into(),
                    axioms: vec!["sorryAx".into()],
                },
            ],
        }],
    };
    let out = format_human(&report);
    assert!(out.contains("trust surface"));
    assert!(out.contains("PoolDemo.deposit_Token_transfer_call_0_post_1"));
    assert!(out.contains("- Token.transfer.ensures_axiom_1"));
    assert!(out.contains("- sorryAx"));
    assert!(out.ends_with("OK\n"));
}

#[test]
fn empty_axiom_report_emits_no_trust_surface_section() {
    let report = VerifyReport {
        spec: "program.qedspec".to_string(),
        backends: vec![BackendReport {
            name: "lean",
            status: BackendStatus::Passed,
            duration_ms: 850,
            detail: None,
            log_path: None,
            counterexamples: vec![],
            axioms: Vec::new(),
        }],
    };
    let out = format_human(&report);
    assert!(!out.contains("trust surface"));
}

fn opts(fail_fast: bool) -> VerifyOpts {
    VerifyOpts {
        spec: "program.qedspec".to_string(),
        proptest: true,
        proptest_path: "tests/proptest.rs".to_string(),
        kani: false,
        kani_path: "tests/kani.rs".to_string(),
        lean: true,
        lean_dir: "lean".to_string(),
        fail_fast,
        miri: true,
        project_root: ".".to_string(),
    }
}

fn report(name: &'static str, status: BackendStatus) -> BackendReport {
    BackendReport {
        name,
        status,
        duration_ms: 1,
        detail: None,
        log_path: None,
        counterexamples: vec![],
        axioms: vec![],
    }
}

#[test]
fn backends_run_in_their_order() {
    let o = opts(false);
    let mut done = vec![];
    assert_eq!(next_backend(&o, &done), Some(Backend::Proptest));
    done.push(report("proptest", BackendStatus::Failed));
    assert_eq!(next_backend(&o, &done), Some(Backend::Lean));
    done.push(report("lean", BackendStatus::Passed));
    assert_eq!(next_backend(&o, &done), Some(Backend::Miri));
    done.push(report("miri", BackendStatus::Skipped));
    assert_eq!(next_backend(&o, &done), None);
    let r = run(&o, done);
    assert_eq!(r.backends.len(), 3);
    assert_eq!(r.spec, "program.qedspec");
    assert!(!r.ok());
}

#[test]
fn the_first_failure_ends_a_fast_run() {
    let o = opts(true);
    let done = vec![report("proptest", BackendStatus::Failed)];
    assert_eq!(next_backend(&o, &done), None);
    let r = run(
        &o,
        vec![
            report("proptest", BackendStatus::Passed),
            report("lean", BackendStatus::Failed),
            report("miri", BackendStatus::Passed),
        ],
    );
    assert_eq!(r.backends.len(), 2);
    assert_eq!(r.backends[1].name, "lean");
}

#[test]
fn skipped_backends_are_no_failures() {
    let r = run(&opts(true), vec![report("proptest", BackendStatus::Skipped)]);
    assert!(r.ok());
    assert_eq!(
        format_human(&r),
        "qedgen verify — program.qedspec\n  [SKIP] proptest   (1 ms)\nOK\n"
    );
}

#[test]
fn property_test_outcomes() {
    let r = proptest_report(ProptestRun::NoHarness("a/b.rs".to_string()), 3);
    assert_eq!((r.name, r.status, r.duration_ms), ("proptest", BackendStatus::Skipped, 3));
    assert_eq!(
        r.detail.as_deref(),
        Some("harness not found at a/b.rs (run `qedgen codegen --proptest`)")
    );
    let r = proptest_report(ProptestRun::NoCrate("a/b.rs".to_string()), 3);
    assert_eq!(r.status, BackendStatus::Failed);
    assert_eq!(r.detail.as_deref(), Some("no Cargo.toml found above a/b.rs"));
    let r = proptest_report(ProptestRun::NotStarted("gone".to_string()), 3);
    assert_eq!(r.detail.as_deref(), Some("failed to spawn cargo: gone"));
    let r = proptest_report(ProptestRun::Passed, 3);
    assert_eq!((r.status, r.detail), (BackendStatus::Passed, None));
    let r = proptest_report(
        ProptestRun::Failed {
            stdout: "ok\ntest a ... FAILED\n".to_string(),
            stderr: "noise".to_string(),
            counterexamples: vec![cx_kani_overflow(), cx_proptest_lifecycle()],
            seed: Some("cc 1".to_string()),
        },
        3,
    );
    assert_eq!(r.detail.as_deref(), Some("test a ... FAILED"));
    assert_eq!(r.counterexamples.len(), 2);
    assert!(r.counterexamples.iter().all(|c| c.seed.as_deref() == Some("cc 1")));
    assert_eq!(r.counterexamples[0].harness, "probe_overflow_transfer");
}

#[test]
fn model_checker_outcomes() {
    let r = kani_report(KaniRun::NoHarness("k.rs".to_string()), 0);
    assert_eq!(r.status, BackendStatus::Skipped);
    assert_eq!(
        r.detail.as_deref(),
        Some("harness not found at k.rs (run `qedgen codegen --kani`)")
    );
    let r = kani_report(KaniRun::NotInstalled("install kani".to_string()), 0);
    assert_eq!(r.detail.as_deref(), Some("install kani"));
    let r = kani_report(KaniRun::NotPrepared("disk".to_string()), 0);
    assert_eq!(r.detail.as_deref(), Some("failed to prepare standalone Kani crate: disk"));
    let r = kani_report(KaniRun::NotStarted("gone".to_string()), 0);
    assert_eq!(r.detail.as_deref(), Some("failed to spawn cargo kani: gone"));
    let r = kani_report(KaniRun::Passed("VERIFICATION:- SUCCESSFUL\n".to_string()), 0);
    assert_eq!(r.status, BackendStatus::Passed);
    assert_eq!(r.detail.as_deref(), Some("1 harness(es) verified"));
    let r = kani_report(
        KaniRun::Failed {
            stdout: String::new(),
            stderr: "error: no such command\n".to_string(),
            counterexamples: vec![cx_kani_overflow()],
        },
        0,
    );
    assert_eq!(r.detail.as_deref(), Some("error: no such command"));
    assert_eq!(r.counterexamples, vec![cx_kani_overflow()]);
}

#[test]
fn lean_outcomes() {
    let r = lean_report(LeanRun::NoLakefile("d".to_string()), 0);
    assert_eq!(r.status, BackendStatus::Skipped);
    assert_eq!(r.detail.as_deref(), Some("no lakefile in d (run `qedgen codegen --lean`)"));
    let r = lean_report(LeanRun::NotStarted("gone".to_string()), 0);
    assert_eq!(
        r.detail.as_deref(),
        Some("failed to spawn lake: gone (is lean/lake on PATH?)")
    );
    let dep = AxiomDependency { theorem: "T".to_string(), axioms: vec!["sorryAx".to_string()] };
    let r = lean_report(LeanRun::Passed(vec![dep]), 0);
    assert_eq!((r.status, r.axioms.len()), (BackendStatus::Passed, 1));
    let r = lean_report(
        LeanRun::Failed {
            stdout: "b: error: y\n".to_string(),
            stderr: "a: error: x\n".to_string(),
        },
        0,
    );
    assert_eq!(r.detail.as_deref(), Some("a: error: x\nb: error: y"));
}

#[test]
fn summaries_fall_back_to_the_last_lines() {
    assert_eq!(summarize_cargo_failure("fine\n", "one\ntwo\n"), "one\ntwo");
    assert_eq!(summarize_lake_failure("fine", "x\ny"), "x\ny");
    assert_eq!(tail_lines("a\nb\nc\n", 2), "b\nc");
    assert_eq!(tail_lines("", 2), "");
    assert_eq!(summarize_kani_failure("", " \n"), "cargo kani failed with no diagnostic output");
    assert_eq!(summarize_kani_failure("out\n", "\n"), "out");
    assert_eq!(
        summarize_kani_failure(
            "Check 1: x\nnoise\nVERIFICATION:- FAILED\nComplete - 0 of 1\n",
            "noise"
        ),
        "Check 1: x\nVERIFICATION:- FAILED\nComplete - 0 of 1"
    );
}

#[test]
fn at_most_ten_failures_are_repeated() {
    let many = "test x ... FAILED\n".repeat(15);
    assert_eq!(summarize_cargo_failure(&many, "").lines().count(), 10);
}

#[test]
fn a_passed_check_counts_its_harnesses() {
    let out = "VERIFICATION:- SUCCESSFUL\nVERIFICATION:- SUCCESSFUL\n  Complete - 2 successfully verified harnesses, 0 failures  \n";
    assert_eq!(
        summarize_kani_pass(out),
        "2 verified — Complete - 2 successfully verified harnesses, 0 failures"
    );
    assert_eq!(summarize_kani_pass("nothing"), "0 harness(es) verified");
}

#[test]
fn axiom_questions_import_what_is_there() {
    let names = vec!["A.b".to_string(), "c".to_string()];
    assert_eq!(
        axiom_query(true, true, &names),
        "import Spec\nimport Proofs\n\n#print axioms A.b\n#print axioms c\n"
    );
    assert_eq!(axiom_query(false, false, &vec![]), "\n");
}

#[test]
fn names_start_a_line_behind_blanks() {
    assert_eq!(first_idents("  Foo.bar -- x"), ["Foo", "bar"]);
    assert_eq!(first_idents("x' y"), ["x'"]);
    assert_eq!(first_idents("Größe rest"), ["Größe"]);
    assert!(first_idents(" . ").is_empty());
}

#[test]
fn theorems_are_named_in_full() {
    let mut out = vec![];
    collect_theorems_from_text(
        "namespace A.B\ntheorem t : True\nend B\ntheorem C.u : True\nend A\ntheorem v.{w} : True\n\
         namespace A.B\nend A.B\ntheorem last : True\n",
        &mut out,
    );
    assert_eq!(out, ["A.B.t", "A.C.u", "v", "last"]);
}

#[test]
fn no_answers_give_no_dependencies() {
    assert!(dependencies(&vec![]).is_empty());
    assert!(parse_axiom_output("").is_empty());
}

#[test]
fn comments_and_unmatched_ends_change_nothing() {
    let mut out = vec!["kept".to_string()];
    collect_theorems_from_text(
        "-- theorem no\nnamespace A\nend B\n  theorem yes : True\nend A\ntheorem last : True\n",
        &mut out,
    );
    assert_eq!(out, ["kept", "A.yes", "last"]);
}

#[test]
fn wide_names_are_padded_by_their_bytes() {
    let mut c = cx_proptest_lifecycle();
    c.assignments = vec![
        CounterexampleVar { name: "é".to_string(), value: "1".to_string(), line: None },
        CounterexampleVar { name: "a".to_string(), value: "2".to_string(), line: None },
    ];
    c.seed = None;
    c.failure_message = None;
    let mut b = report("kani", BackendStatus::Failed);
    b.counterexamples = vec![c];
    let out = format_human(&VerifyReport { spec: "x".to_string(), backends: vec![b] });
    assert!(out.contains("             é  = 1\n             a  = 2\n"));
}

#[test]
fn the_harness_crate_is_a_library() {
    assert!(KANI_MANIFEST.contains("name = \"qedgen-kani-harness\""));
    assert!(KANI_MANIFEST.contains("path = \"src/lib.rs\""));
}
