use qedgen::lean::base::paren_low_prec;
use qedgen::lean::indexed::pick_account_idx_bound_mir;
use qedgen::lean::liveness::find_liveness_path;
use qedgen::lean::properties::strip_state_forall;
use qedgen::lean::sbpf::render_sbpf;
use qedgen::lean::subscript::rewrite_subscripts_lean;
use qedgen::lean_gen_mir::{generate, render};
use qedgen::lower::lower;
use qedgen::mir::{
    AccountTable, ErrorEnum, HandlerMir, Mir, RefImpl, StateAdt, UninterpretedHelper,
};
use qedgen::names::NameMap;
use qedgen::parsed::{
    ParsedAccountType, ParsedCover, ParsedEnvironment, ParsedGuard, ParsedHandler,
    ParsedHandlerAccount, ParsedInstruction, ParsedInvariant, ParsedLayoutField, ParsedLiveness,
    ParsedProperty, ParsedRequires, ParsedSbpfProperty, ParsedSpec, ParsedValuedError,
    ParsedVariant,
};

fn s(t: &str) -> String {
    t.to_string()
}

fn pairs(v: &[(&str, &str)]) -> Vec<(String, String)> {
    v.iter().map(|p| (s(p.0), s(p.1))).collect()
}

fn empty_spec(name: &str) -> ParsedSpec {
    ParsedSpec {
        program_name: s(name),
        handlers: vec![],
        account_types: vec![],
        records: vec![],
        pdas: vec![],
        error_codes: vec![],
        events: vec![],
        imported_namespaces: NameMap::new(),
        interfaces: vec![],
        verified_callees: NameMap::new(),
        invariants: vec![],
        covers: vec![],
        liveness_props: vec![],
        environments: vec![],
        constants: vec![],
        uninterpreted_helpers: vec![],
        ref_impls: vec![],
        properties: vec![],
        instructions: vec![],
        pubkeys: vec![],
        valued_errors: vec![],
        assembly_target: false,
        state_repr: None,
    }
}

fn handler(name: &str, account: Option<&str>, from: &str, to: &str) -> ParsedHandler {
    ParsedHandler {
        name: s(name),
        doc: None,
        on_account: account.map(s),
        who: None,
        permissionless: false,
        pre_status: Some(s(from)),
        post_status: Some(s(to)),
        takes_params: vec![],
        accounts: vec![],
        requires: vec![],
        aborts_if: vec![],
        ensures: vec![],
        effects: vec![],
        effect_on_error: vec![],
        effect_branches: false,
        transfers: vec![],
        calls: vec![],
        modifies: None,
        emits: vec![],
        invariants: vec![],
        establishes: vec![],
        abstract_binders: vec![],
        aborts_total: false,
    }
}

fn requires_else(lean: &str, err: &str) -> ParsedRequires {
    ParsedRequires {
        lean_expr: s(lean),
        rust_expr: s(lean),
        rust_expr_pod: s(lean),
        error_name: Some(s(err)),
    }
}

fn variant(name: &str, fields: &[(&str, &str)]) -> ParsedVariant {
    ParsedVariant { name: s(name), fields: pairs(fields) }
}

fn open_close(name: &str, repr: Option<&str>) -> ParsedSpec {
    let mut spec = empty_spec(name);
    spec.state_repr = repr.map(s);
    spec.account_types = vec![ParsedAccountType {
        name: s("State"),
        fields: vec![],
        variants: vec![
            variant("Uninitialized", &[]),
            variant("Active", &[("balance", "U64")]),
            variant("Closed", &[]),
        ],
        lifecycle: vec![s("Uninitialized"), s("Active"), s("Closed")],
    }];
    spec.error_codes = vec![s("InvalidAmount"), s("WrongState")];
    let mut open = handler("open", None, "Uninitialized", "Active");
    open.who = Some(s("owner"));
    open.takes_params = pairs(&[("amount", "U64")]);
    open.accounts = vec![ParsedHandlerAccount {
        name: s("owner"),
        is_writable: true,
        is_signer: true,
        is_program: false,
        pda_seeds: None,
        authority: None,
        account_type: None,
        imported_namespace: None,
        default_pubkey: None,
    }];
    open.requires = vec![requires_else("amount > 0", "InvalidAmount")];
    spec.handlers = vec![open];
    spec
}

#[test]
fn state_repr_pragma_dispatches_inductive_vs_flat() {
    let flat = open_close("Flat", None);
    let flat_lean = render(&lower(&flat));
    assert!(
        flat_lean.contains("structure State where"),
        "default (no pragma) must lower to the flat struct"
    );
    assert!(
        !flat_lean.contains("inductive State where"),
        "default must NOT take the inductive ADT path"
    );

    let adt = open_close("Adt", Some("adt"));
    let adt_mir = lower(&adt);
    assert!(adt_mir.adt_state, "pragma must lift to Mir::adt_state");
    let adt_lean = render(&adt_mir);
    assert!(
        adt_lean.contains("inductive State where"),
        "pragma state_repr = adt must route to the inductive renderer"
    );
}

fn bare_mir() -> Mir {
    Mir {
        name: "T".to_string(),
        state: StateAdt::default(),
        account_states: vec![],
        accounts: AccountTable::default(),
        errors: ErrorEnum::default(),
        imports: NameMap::new(),
        handlers: vec![],
        invariants: vec![],
        events: vec![],
        constants: vec![],
        uninterpreted_helpers: vec![],
        ref_impls: vec![],
        properties: vec![],
        covers: vec![],
        liveness_props: vec![],
        environments: vec![],
        records: vec![],
        is_assembly: false,
        adt_state: false,
    }
}

#[test]
fn render_emits_uninterpreted_helpers() {
    let mut mir = bare_mir();
    mir.uninterpreted_helpers = vec![UninterpretedHelper {
        name: "is_valid".to_string(),
        arg_types: vec!["Nat".to_string()],
        return_type: "Bool".to_string(),
    }];
    let out = render(&mir);
    assert!(
        out.contains("opaque is_valid : Nat \u{2192} Bool"),
        "expected opaque is_valid : Nat → Bool in:\n{}",
        out
    );
    assert!(out.contains("Uninterpreted helpers"));
}

#[test]
fn render_emits_ref_impls() {
    let mut mir = bare_mir();
    mir.ref_impls = vec![RefImpl {
        name: "scale".to_string(),
        doc: None,
        params: vec![
            ("a".to_string(), "U64".to_string()),
            ("b".to_string(), "U64".to_string()),
        ],
        return_type: "U64".to_string(),
        lean_body: "a * b".to_string(),
        rust_body: "a * b".to_string(),
    }];
    let out = render(&mir);
    assert!(
        out.contains("def scale (a : Nat) (b : Nat) : Nat := a * b"),
        "expected ref_impl scale lowered:\n{}",
        out
    );
}

fn escrow() -> ParsedSpec {
    let mut spec = empty_spec("Escrow");
    spec.account_types = vec![ParsedAccountType {
        name: s("State"),
        fields: vec![],
        variants: vec![
            variant("Uninitialized", &[]),
            variant("Open", &[("initializer", "Pubkey"), ("taker_amount", "U64")]),
            variant("Closed", &[]),
        ],
        lifecycle: vec![s("Uninitialized"), s("Open"), s("Closed")],
    }];
    spec.error_codes = vec![s("InvalidAmount"), s("Unauthorized")];
    let mut init = handler("initialize", None, "Uninitialized", "Open");
    init.takes_params = pairs(&[("deposit_amount", "U64"), ("receive_amount", "U64")]);
    init.requires = vec![requires_else("deposit_amount > 0 ∧ receive_amount > 0", "InvalidAmount")];
    init.effects = vec![(s("taker_amount"), s("set"), s("receive_amount"))];
    init.effect_on_error = vec![None];
    let mut cancel = handler("cancel", None, "Open", "Closed");
    cancel.requires = vec![requires_else("initializer_ta.pubkey = s.initializer", "Unauthorized")];
    cancel.accounts = vec![ParsedHandlerAccount {
        name: s("initializer_ta"),
        is_writable: true,
        is_signer: false,
        is_program: false,
        pda_seeds: None,
        authority: None,
        account_type: Some(s("token")),
        imported_namespace: None,
        default_pubkey: None,
    }];
    spec.handlers = vec![init, cancel];
    spec
}

#[test]
fn render_emits_header_namespace_state() {
    let out = render(&lower(&escrow()));
    assert!(out.contains("import QEDGen.Solana.Account"));
    assert!(out.contains("import QEDGen.Solana.State"));
    assert!(out.contains("namespace Escrow"));
    assert!(out.contains("end Escrow"));
    assert!(out.contains("open QEDGen.Solana"));
}

#[test]
fn render_lifecycle_marker_threshold() {
    let mir = lower(&escrow());
    let out = render(&mir);
    assert!(mir.state.lifecycle_states.len() >= 2);
    assert!(out.contains("inductive Status"));
    assert!(!render(&bare_mir()).contains("inductive Status"));
}

#[test]
fn render_aborts_if_clauses() {
    let out = render(&lower(&escrow()));
    assert!(
        out.contains("theorem initialize_aborts_if_InvalidAmount"),
        "expected initialize_aborts_if_InvalidAmount theorem:\n{}",
        out
    );
    assert!(out.contains("¬(deposit_amount > 0"), "expected negated requires hypothesis");
    assert!(out.contains("Abort conditions"));
}

#[test]
fn render_skips_account_pubkey_aborts() {
    let out = render(&lower(&escrow()));
    assert!(
        !out.contains("(h : ¬(initializer_ta.pubkey"),
        "account-pubkey requires should be filtered from abort theorems:\n{}",
        out
    );
}

#[test]
fn render_emits_constants() {
    let mut spec = escrow();
    spec.constants = pairs(&[("MAX_ACCOUNTS", "1024"), ("POS_SCALE", "1000000")]);
    let out = render(&lower(&spec));
    assert!(out.contains("abbrev MAX_ACCOUNTS : Nat := 1024"), "expected MAX_ACCOUNTS abbrev");
    assert!(out.contains("abbrev POS_SCALE : Nat := 1000000"));
}

fn lending() -> ParsedSpec {
    let mut spec = empty_spec("Lending");
    spec.account_types = vec![
        ParsedAccountType {
            name: s("Pool"),
            fields: pairs(&[
                ("total_deposits", "U64"),
                ("total_borrows", "U64"),
                ("interest_rate", "U64"),
            ]),
            variants: vec![],
            lifecycle: vec![s("Uninitialized"), s("Active")],
        },
        ParsedAccountType {
            name: s("Loan"),
            fields: pairs(&[("amount", "U64"), ("collateral", "U64")]),
            variants: vec![],
            lifecycle: vec![s("Empty"), s("Active"), s("Liquidated")],
        },
    ];
    spec.error_codes = vec![s("InvalidAmount")];
    let init_pool = handler("init_pool", Some("Pool"), "Uninitialized", "Active");
    let mut deposit = handler("deposit", Some("Pool"), "Active", "Active");
    deposit.takes_params = pairs(&[("amount", "U64")]);
    deposit.requires = vec![requires_else("amount > 0", "InvalidAmount")];
    deposit.effects = vec![(s("total_deposits"), s("add"), s("amount"))];
    deposit.effect_on_error = vec![None];
    let mut borrow = handler("borrow", Some("Loan"), "Empty", "Active");
    borrow.takes_params = pairs(&[("borrow_amount", "U64")]);
    borrow.effects = vec![(s("amount"), s("set"), s("borrow_amount"))];
    borrow.effect_on_error = vec![None];
    let mut repay = handler("repay", Some("Loan"), "Active", "Empty");
    repay.effects = vec![(s("amount"), s("set"), s("0"))];
    repay.effect_on_error = vec![None];
    let liquidate = handler("liquidate", Some("Loan"), "Active", "Liquidated");
    spec.handlers = vec![init_pool, deposit, borrow, repay, liquidate];
    spec.properties = vec![ParsedProperty {
        name: s("pool_solvency"),
        expression: Some(s("s.total_deposits ≥ s.total_borrows")),
        rust_expression: None,
        rust_expression_pod: None,
        preserved_by: vec![s("init_pool"), s("deposit")],
    }];
    spec.invariants = vec![ParsedInvariant {
        name: s("collateral_backing"),
        doc: String::new(),
        lean_expr: Some(s("s.collateral ≥ s.amount")),
        rust_expr: None,
    }];
    spec.covers = vec![
        ParsedCover {
            name: s("borrow_repay_cycle"),
            traces: vec![vec![s("init_pool"), s("deposit"), s("borrow"), s("repay")]],
            reachable: vec![],
        },
        ParsedCover {
            name: s("liquidation_path"),
            traces: vec![vec![s("init_pool"), s("deposit"), s("borrow"), s("liquidate")]],
            reachable: vec![],
        },
    ];
    spec.liveness_props = vec![ParsedLiveness {
        name: s("loan_settles"),
        from_state: s("Active"),
        leads_to_state: s("Empty"),
        via_ops: vec![s("repay")],
        within_steps: Some(1),
    }];
    spec.environments = vec![ParsedEnvironment {
        name: s("interest_rate_change"),
        mutates: pairs(&[("interest_rate", "U64")]),
        constraints: vec![s("interest_rate > 0")],
        constraints_rust: vec![s("interest_rate > 0")],
    }];
    spec
}

#[test]
fn render_emits_properties_with_preservation() {
    let out = render(&lower(&lending()));
    assert!(
        out.contains("def pool_solvency (s : PoolState) : Prop :="),
        "expected pool_solvency predicate def on PoolState:\n{}",
        out
    );
    assert!(out.contains("theorem pool_solvency_inductive"));
    assert!(out.contains("(op : PoolOperation)"));
}

#[test]
fn render_emits_invariant_theorems() {
    let out = render(&lower(&lending()));
    assert!(out.contains(
        "-- INVARIANT OBLIGATION (declared, multi-account translation deferred): collateral_backing"
    ));
    assert!(out.contains("--   predicate body:"), "expected predicate body line");
}

#[test]
fn render_emits_cover_theorems() {
    let out = render(&lower(&lending()));
    assert!(out.contains("-- Cover properties"));
    assert!(out.contains(
        "-- cover_borrow_repay_cycle: trace [init_pool, deposit, borrow, repay] spans multiple account types, skipped"
    ));
    assert!(out.contains(
        "-- cover_liquidation_path: trace [init_pool, deposit, borrow, liquidate] spans multiple account types, skipped"
    ));
}

#[test]
fn render_emits_liveness_theorems() {
    let out = render(&lower(&lending()));
    assert!(out.contains("-- Liveness properties"), "expected liveness section header");
    assert!(out.contains("def applyLoanOps (s : LoanState)"));
    assert!(out.contains("theorem liveness_loan_settles (s : LoanState)"), "{}", out);
    assert!(out.contains("ops.length \u{2264} 1"), "expected within-step bound of 1");
    assert!(out.contains("\u{2200} s', applyLoanOps s signer ops = some s'"));
}

#[test]
fn render_emits_environment_theorems() {
    let out = render(&lower(&lending()));
    assert!(out.contains("-- Environment"), "expected environment section header");
    assert!(out.contains("theorem pool_solvency_under_interest_rate_change"));
    assert!(out.contains("new_interest_rate : Nat"));
    assert!(out.contains("(h_inv : pool_solvency s)"));
    assert!(out.contains("{ s with interest_rate := new_interest_rate }"));
}

#[test]
fn render_emits_overflow_theorems() {
    let out = render(&lower(&lending()));
    assert!(out.contains("-- Overflow safety obligations"));
    assert!(out.contains("theorem deposit_overflow_safe"));
    assert!(out.contains("valid_u64"), "expected valid_u64 in pre/post");
    assert!(out.contains("= some s'"), "expected `= some s'` hypothesis on transition");
    assert!(
        out.contains("simp only [valid_u64, Valid.valid_u64, Valid.U64_MAX]; omega"),
        "expected overflow proof to discharge the changed-field obligation:\n{}",
        out
    );
    assert!(out.contains("unfold depositTransition at h; split at h"));
}

#[test]
fn render_pilot_fixtures_no_panic() {
    for spec in [escrow(), lending(), open_close("Adt", Some("adt"))] {
        let out = render(&lower(&spec));
        assert!(out.contains("namespace "), "{}", spec.program_name);
        assert!(out.contains("end "), "{}", spec.program_name);
    }
}

#[test]
fn bounded_maps_render_over_indexed_state() {
    let mut spec = empty_spec("Multisig");
    spec.constants = pairs(&[("MAX_MEMBERS", "10")]);
    spec.account_types = vec![ParsedAccountType {
        name: s("State"),
        fields: pairs(&[("approvals", "Map[MAX_MEMBERS] Bool"), ("count", "U64")]),
        variants: vec![],
        lifecycle: vec![s("Open"), s("Done")],
    }];
    let mut approve = handler("approve", None, "Open", "Open");
    approve.takes_params = pairs(&[("i", "U64")]);
    approve.effects = vec![
        (s("approvals[i]"), s("set"), s("true")),
        (s("count"), s("add"), s("1")),
    ];
    approve.effect_on_error = vec![None, None];
    spec.handlers = vec![approve];
    let out = render(&lower(&spec));
    assert!(out.contains("open QEDGen.Solana.IndexedState"), "{}", out);
    assert!(out.contains("namespace Multisig"));
    assert!(out.contains("abbrev AccountIdx : Type := Fin MAX_MEMBERS"), "{}", out);
    assert!(out.contains("Function.update"), "{}", out);
}

fn dropset() -> ParsedSpec {
    let mut spec = empty_spec("Dropset");
    spec.assembly_target = true;
    spec.instructions = vec![ParsedInstruction {
        name: s("RegisterMarket"),
        constants: pairs(&[("DISC", "7")]),
        errors: vec![ParsedValuedError { name: s("InvalidDiscriminant"), value: Some(1) }],
        input_layout: vec![ParsedLayoutField {
            name: s("n_accounts"),
            field_type: s("U64"),
            offset: 0,
        }],
        insn_layout: vec![ParsedLayoutField {
            name: s("discriminant"),
            field_type: s("U8"),
            offset: 8,
        }],
        entry: Some(24),
        guards: vec![ParsedGuard {
            name: s("rejects_invalid_discriminant"),
            doc: Some(s("Rejects another instruction.")),
            checks: Some(s("discriminant == 7")),
            checks_raw: Some(s("discriminant == DISC")),
            error: s("InvalidDiscriminant"),
            fuel: Some(8),
        }],
        properties: vec![ParsedSbpfProperty { name: s("memory_safety"), doc: None }],
    }];
    spec
}

#[test]
fn assembly_specs_render_their_instructions() {
    let out = render_sbpf(&dropset());
    for marker in [
        "-- Generated by qedgen lean-gen from dropset",
        "import DropsetProg",
        "namespace RegisterMarket",
        "@[simp] theorem ea_",
        "theorem rejects_invalid_discriminant",
        "structure Spec (progAt",
        "theorem memory_safety : True := trivial",
    ] {
        assert!(out.contains(marker), "missing `{}`:\n{}", marker, out);
    }
}

#[test]
fn generation_follows_the_target() {
    let spec = dropset();
    let mir = lower(&spec);
    assert!(mir.is_assembly);
    assert_eq!(generate(&mir, &spec).spec, render_sbpf(&spec));
    let spec = lending();
    let mir = lower(&spec);
    let plan = generate(&mir, &spec);
    assert_eq!(plan.spec, render(&mir));
    assert!(plan.modules.is_empty() && !plan.touches_lakefile);
}

#[test]
fn liveness_paths_are_found_and_are_short() {
    let mut spec = empty_spec("Steps");
    spec.handlers = vec![
        handler("long_a", None, "A", "B"),
        handler("long_b", None, "B", "C"),
        handler("short", None, "A", "C"),
        handler("stay", None, "C", "C"),
    ];
    let mir = lower(&spec);
    let hs: Vec<&HandlerMir> = mir.handlers.iter().collect();
    let ops = |v: &[&str]| v.iter().map(|t| s(t)).collect::<Vec<String>>();
    let all = ops(&["long_a", "long_b", "short", "stay"]);
    assert_eq!(find_liveness_path("A", "C", &all, &hs), Some(ops(&["short"])));
    let long = ops(&["long_b", "long_a"]);
    assert_eq!(find_liveness_path("A", "C", &long, &hs), Some(ops(&["long_a", "long_b"])));
    assert_eq!(find_liveness_path("C", "A", &all, &hs), None);
}

fn vault(kind: &str) -> ParsedSpec {
    let mut spec = empty_spec("Vault");
    spec.account_types = vec![ParsedAccountType {
        name: s("State"),
        fields: pairs(&[("total", "U64"), ("cap", "U64")]),
        variants: vec![],
        lifecycle: vec![s("Idle"), s("Live")],
    }];
    spec.constants = pairs(&[("STEP", "7")]);
    let mut start = handler("start", None, "Idle", "Live");
    start.effects = vec![(s("cap"), s("set"), s("STEP"))];
    start.effect_on_error = vec![None];
    let mut grow = handler("grow", None, "Live", "Live");
    grow.takes_params = pairs(&[("amount", "U64")]);
    grow.effects = vec![(s("total"), s(kind), s("amount"))];
    grow.effect_on_error = vec![None];
    spec.handlers = vec![start, grow];
    spec.covers = vec![
        ParsedCover { name: s("trip"), traces: vec![vec![s("start"), s("grow")]], reachable: vec![] },
        ParsedCover { name: s("lost"), traces: vec![vec![s("vanish")]], reachable: vec![] },
    ];
    spec
}

#[test]
fn covers_are_proved_by_witnesses() {
    let out = render(&lower(&vault("add")));
    let expected = "/-- trip — trace [start, grow] is reachable. -/
theorem cover_trip : ∃ (s0 : State) (signer : Pubkey),
∃ (s1 : State), startTransition s0 signer = some s1 ∧
      ∃ (v1_0 : Nat), growTransition s1 signer v1_0 ≠ none := by
  let pk : Pubkey := ⟨0, 0, 0, 0⟩
  let s0 : State := ⟨0, 0, .Idle⟩
  let s1 : State := ⟨0, 7, .Live⟩
  exact ⟨s0, pk, s1, by decide, 1, by decide⟩

";
    assert!(out.contains(expected), "{}", out);
    assert!(out.contains("vanishTransition s0 signer ≠ none := sorry\n"), "{}", out);
}

#[test]
fn checked_additions_owe_their_bounds() {
    let out = render(&lower(&vault("add")));
    let expected = "theorem grow_overflow_safe (s s' : State) (signer : Pubkey) (amount : Nat)
    (h_valid : valid_u64 s.total ∧ valid_u64 s.cap)
    (h : growTransition s signer amount = some s') :
    valid_u64 s'.total ∧ valid_u64 s'.cap := by
  unfold growTransition at h; split at h
  · next hg =>
    cases h
    refine ⟨?_, h_valid.2⟩
    simp only [valid_u64, Valid.valid_u64, Valid.U64_MAX]; omega
  · contradiction

";
    assert!(out.contains(expected), "{}", out);
    assert!(!out.contains("start_overflow_safe"));
    for kind in ["add_wrap", "add_sat"] {
        assert!(!render(&lower(&vault(kind))).contains("_overflow_safe"), "{}", kind);
    }
}

#[test]
fn subscripts_become_applications() {
    assert_eq!(rewrite_subscripts_lean("state.members[i] = approver"), "(s.members i) = approver");
    assert_eq!(rewrite_subscripts_lean("s.voted[ k ] + m[j]"), "(s.voted k) + (m j)");
    assert_eq!(rewrite_subscripts_lean("mystate.m[i]"), "(mystate.m i)");
    assert_eq!(rewrite_subscripts_lean("a[b"), "a[b");
}

#[test]
fn weak_operators_are_put_in_parentheses() {
    assert_eq!(paren_low_prec("a ∨ b"), "(a ∨ b)");
    assert_eq!(paren_low_prec("a → b"), "(a → b)");
    assert_eq!(paren_low_prec("a ↔ b"), "(a ↔ b)");
    assert_eq!(paren_low_prec("∀ x, p x"), "(∀ x, p x)");
    assert_eq!(paren_low_prec("∃ x, p x"), "(∃ x, p x)");
    assert_eq!(paren_low_prec(" (a → b) "), "(a → b)");
    assert_eq!(paren_low_prec("f (a ∨ b) ∧ c"), "f (a ∨ b) ∧ c");
}

#[test]
fn the_first_maximum_bounds_the_index() {
    let bound = |v: &[(&str, &str)]| pick_account_idx_bound_mir(&pairs(v));
    assert_eq!(bound(&[("MAX_VAULT_TVL", "10"), ("MAX_ACCOUNTS", "4")]), "MAX_VAULT_TVL");
    assert_eq!(bound(&[("MAXIMUM", "1"), ("MAX_A", "2")]), "MAX_A");
    assert_eq!(bound(&[("FEE", "1"), ("MAXIMUM", "2")]), "MAXIMUM");
    assert_eq!(bound(&[("FEE", "1")]), "1024");
}

#[test]
fn only_the_state_binder_is_stripped() {
    assert_eq!(strip_state_forall("∀ s : State, s.a > 0"), "s.a > 0");
    assert_eq!(strip_state_forall("forall s:State, p"), "p");
    assert_eq!(strip_state_forall("∀ s x : Nat, p"), "∀ s x : Nat, p");
    assert_eq!(strip_state_forall("∀ s ∈ xs, p"), "∀ s ∈ xs, p");
    assert_eq!(strip_state_forall("∀ i : Nat, p"), "∀ i : Nat, p");
}

#[test]
fn indexes_that_are_read_in_values_are_bounded() {
    let mut spec = empty_spec("Reader");
    spec.constants = pairs(&[("MAX_N", "4")]);
    spec.account_types = vec![ParsedAccountType {
        name: s("State"),
        fields: pairs(&[("slots", "Map[MAX_N] U64"), ("last", "U64")]),
        variants: vec![],
        lifecycle: vec![],
    }];
    let mut read = handler("read", None, "A", "A");
    read.takes_params = pairs(&[("i", "U8"), ("k", "U8")]);
    read.effects = vec![(s("last"), s("set"), s("slots[i]"))];
    read.effect_on_error = vec![None];
    spec.handlers = vec![read];
    let out = render(&lower(&spec));
    assert!(out.contains("(i : Fin MAX_N) (k : Nat)"), "{}", out);
    assert!(out.contains("last := (s.slots i)"), "{}", out);
}

#[test]
fn bare_fields_in_constraints_are_new_values() {
    let mut spec = vault("add");
    spec.properties = vec![ParsedProperty {
        name: s("small"),
        expression: Some(s("s.total ≤ 9")),
        rust_expression: None,
        rust_expression_pod: None,
        preserved_by: vec![],
    }];
    spec.environments = vec![ParsedEnvironment {
        name: s("weather"),
        mutates: pairs(&[("cap", "U64")]),
        constraints: vec![s("cap > 0 ∧ cap_pct < s.cap")],
        constraints_rust: vec![],
    }];
    let out = render(&lower(&spec));
    assert!(
        out.contains("(h_c0 : new_cap > 0 ∧ cap_pct < new_cap)"),
        "{}",
        out
    );
}

#[test]
fn variant_guards_keep_the_order_of_the_spec() {
    let mut spec = open_close("Order", Some("adt"));
    let mut bare = requires_else("amount < 9", "X");
    bare.error_name = None;
    spec.handlers[0].requires.push(bare);
    spec.handlers[0].requires.push(requires_else("amount < 5", "WrongState"));
    let out = render(&lower(&spec));
    assert!(out.contains("if amount > 0 ∧ amount < 9 ∧ amount < 5 then"), "{}", out);
}

#[test]
fn records_lower_to_one_unnamed_variant() {
    let mut spec = vault("add");
    spec.handlers[0].effects = vec![(s("State.cap"), s("set"), s("STEP"))];
    let mir = lower(&spec);
    assert_eq!(mir.state.variants.len(), 1);
    assert_eq!(mir.state.variants[0].tag, "");
    assert_eq!(mir.state.variants[0].fields.len(), 2);
    assert_eq!(mir.account_states[0].name, "State");
    let out = render(&mir);
    assert!(out.contains("cap := STEP"), "{}", out);
    assert!(out.contains("let s1 : State := ⟨0, 7, .Live⟩"), "{}", out);
}
