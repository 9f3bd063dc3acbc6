use qedgen::lower::lower;
use qedgen::mir::{
    parse_ty, AccountOrField, AccountRef, AccountTable, BranchScrutinee, ErrorEnum, Expr,
    ImportOrigin, Mir, Path, Predicate, StateAdt, Stmt, Ty,
};
use qedgen::names::NameMap;
use qedgen::parsed::{
    ParsedAccountType, ParsedCall, ParsedEnsures, ParsedHandler, ParsedHandlerAccount,
    ParsedInterface, ParsedInterfaceHandler, ParsedNamespace, ParsedPda, ParsedRequires,
    ParsedSpec, ParsedTransfer, ParsedUpstream, ParsedVariant,
};
use qedgen::proptest_gen_mir;

fn s(t: &str) -> String {
    t.to_string()
}

fn pair(a: &str, b: &str) -> (String, String) {
    (s(a), s(b))
}

fn empty_spec(name: &str) -> ParsedSpec {
    ParsedSpec {
        program_name: s(name),
        handlers: vec![],
        account_types: vec![],
        records: vec![],
        pdas: vec![],
        error_codes: vec![],
        events: vec![],
        imported_namespaces: NameMap::new(),
        interfaces: vec![],
        verified_callees: NameMap::new(),
        invariants: vec![],
        covers: vec![],
        liveness_props: vec![],
        environments: vec![],
        constants: vec![],
        uninterpreted_helpers: vec![],
        ref_impls: vec![],
        properties: vec![],
        instructions: vec![],
        pubkeys: vec![],
        valued_errors: vec![],
        assembly_target: false,
        state_repr: None,
    }
}

fn handler(name: &str, from: &str, to: &str) -> ParsedHandler {
    ParsedHandler {
        name: s(name),
        doc: None,
        on_account: None,
        who: None,
        permissionless: false,
        pre_status: Some(s(from)),
        post_status: Some(s(to)),
        takes_params: vec![],
        accounts: vec![],
        requires: vec![],
        aborts_if: vec![],
        ensures: vec![],
        effects: vec![],
        effect_on_error: vec![],
        effect_branches: false,
        transfers: vec![],
        calls: vec![],
        modifies: None,
        emits: vec![],
        invariants: vec![],
        establishes: vec![],
        abstract_binders: vec![],
        aborts_total: false,
    }
}

fn account(name: &str) -> ParsedHandlerAccount {
    ParsedHandlerAccount {
        name: s(name),
        is_writable: false,
        is_signer: false,
        is_program: false,
        pda_seeds: None,
        authority: None,
        account_type: None,
        imported_namespace: None,
        default_pubkey: None,
    }
}

fn requires_else(lean: &str, err: Option<&str>) -> ParsedRequires {
    ParsedRequires {
        lean_expr: s(lean),
        rust_expr: format!("rust {}", lean),
        rust_expr_pod: format!("pod {}", lean),
        error_name: err.map(s),
    }
}

fn transfer(from: &str, to: &str, amount: &str) -> ParsedTransfer {
    ParsedTransfer {
        from: s(from),
        to: s(to),
        amount: Some(s(amount)),
        authority: Some(s("initializer")),
    }
}

fn variant(name: &str, fields: &[(&str, &str)]) -> ParsedVariant {
    ParsedVariant { name: s(name), fields: fields.iter().map(|f| pair(f.0, f.1)).collect() }
}

fn escrow() -> ParsedSpec {
    let mut spec = empty_spec("Escrow");
    spec.account_types = vec![ParsedAccountType {
        name: s("State"),
        fields: vec![],
        variants: vec![
            variant("Uninitialized", &[]),
            variant("Open", &[("initializer", "Pubkey"), ("taker_amount", "U64")]),
            variant("Closed", &[]),
        ],
        lifecycle: vec![s("Uninitialized"), s("Open"), s("Closed")],
    }];
    spec.error_codes = vec![s("InvalidAmount"), s("Unauthorized"), s("AlreadyClosed")];
    spec.pdas = vec![ParsedPda { name: s("escrow"), seeds: vec![s("\"escrow\""), s("initializer")] }];
    let mut init = handler("initialize", "Uninitialized", "Open");
    init.takes_params = vec![pair("deposit_amount", "U64"), pair("receive_amount", "U64")];
    init.requires =
        vec![requires_else("deposit_amount > 0 ∧ receive_amount > 0", Some("InvalidAmount"))];
    init.transfers = vec![transfer("initializer_ta", "escrow_ta", "deposit_amount")];
    init.effects = vec![(s("taker_amount"), s("set"), s("receive_amount"))];
    init.effect_on_error = vec![None];
    init.accounts = vec![account("initializer")];
    let mut exchange = handler("exchange", "Open", "Closed");
    exchange.requires =
        vec![requires_else("initializer_ta.pubkey = s.initializer", Some("Unauthorized"))];
    exchange.transfers = vec![
        transfer("taker_ta", "initializer_ta", "taker_amount"),
        transfer("escrow_ta", "taker_ta", "taker_amount"),
    ];
    let mut cancel = handler("cancel", "Open", "Closed");
    cancel.requires =
        vec![requires_else("initializer_ta.pubkey = s.initializer", Some("Unauthorized"))];
    cancel.transfers = vec![transfer("escrow_ta", "initializer_ta", "taker_amount")];
    spec.handlers = vec![init, exchange, cancel];
    spec
}

fn transfers_in(mir: &Mir, name: &str) -> usize {
    let h = mir.handlers.iter().find(|h| h.name == name).unwrap();
    h.body.stmts.iter().filter(|st| matches!(st, Stmt::TokenTransfer { .. })).count()
}

#[test]
fn mir_types_construct() {
    let mir = Mir {
        name: "Test".to_string(),
        state: StateAdt::default(),
        account_states: vec![],
        accounts: AccountTable::default(),
        errors: ErrorEnum::default(),
        imports: NameMap::new(),
        handlers: vec![],
        invariants: vec![],
        events: vec![],
        constants: vec![],
        uninterpreted_helpers: vec![],
        ref_impls: vec![],
        properties: vec![],
        covers: vec![],
        liveness_props: vec![],
        environments: vec![],
        records: vec![],
        is_assembly: false,
        adt_state: false,
    };
    assert_eq!(mir.name, "Test");
    assert!(mir.handlers.is_empty());
}

#[test]
fn path_helpers() {
    let p = Path::single("state");
    assert_eq!(p.segments, vec!["state"]);

    let p2 = Path::dotted(&["state", "admin"]);
    assert_eq!(p2.segments, vec!["state", "admin"]);
}

#[test]
fn stmt_variants_compose() {
    let _ = Stmt::RequireOrAbort {
        pred: Predicate(Expr::default()),
        err: "Unauthorized".to_string(),
    };
    let _ = Stmt::TokenTransfer {
        from: AccountRef::ByBinding("src".to_string()),
        to: AccountRef::ByBinding("dst".to_string()),
        amount: Expr::default(),
        authority: Some(AccountRef::ByBinding("auth".to_string())),
    };
    let _ = Stmt::Assign { path: Path::single("counter"), rhs: Expr::default() };
    let _ = Stmt::CheckedAdd {
        path: Path::single("balance"),
        delta: Expr::default(),
        err: "Overflow".to_string(),
    };
    let _ = Stmt::Abort("InvalidState".to_string());
    let _ = Stmt::Branch {
        scrutinee: BranchScrutinee::Predicate(Predicate(Expr::default())),
        arms: vec![],
        default: None,
    };
}

#[test]
fn parse_ty_known_forms() {
    assert_eq!(parse_ty("U64"), Ty::U64);
    assert_eq!(parse_ty("Pubkey"), Ty::Pubkey);
    assert_eq!(parse_ty(" Bool "), Ty::Bool);
    assert!(matches!(parse_ty("Snapshot"), Ty::Custom(s) if s == "Snapshot"));
    let m = parse_ty("Map[10] TokenAccount");
    match m {
        Ty::MapOf { capacity, value } => {
            assert_eq!(capacity, "10");
            assert!(matches!(*value, Ty::Custom(s) if s == "TokenAccount"));
        }
        other => panic!("expected a map, got {:?}", other),
    }
    let m = parse_ty("Map[MAX_MEMBERS] Pubkey");
    match m {
        Ty::MapOf { capacity, value } => {
            assert_eq!(capacity, "MAX_MEMBERS");
            assert!(matches!(*value, Ty::Pubkey));
        }
        other => panic!("expected a map, got {:?}", other),
    }
}

#[test]
fn phase_5_scaffold_loads() {
    let parsed = escrow();
    let mir = lower(&parsed);
    assert!(!parsed.handlers.is_empty(), "escrow has handlers");
    assert!(!mir.handlers.is_empty(), "escrow MIR has handlers");
}

#[test]
fn lower_escrow_pilot() {
    let mir = lower(&escrow());
    assert_eq!(mir.handlers.len(), 3, "expected 3 handlers");
    let names: Vec<&str> = mir.handlers.iter().map(|h| h.name.as_str()).collect();
    assert!(names.contains(&"initialize"));
    assert!(names.contains(&"exchange"));
    assert!(names.contains(&"cancel"));
    for h in &mir.handlers {
        assert!(h.transition.is_some(), "handler {} should have a transition", h.name);
    }
    assert_eq!(transfers_in(&mir, "initialize"), 1);
    assert_eq!(transfers_in(&mir, "exchange"), 2);
    assert_eq!(transfers_in(&mir, "cancel"), 1);
    for name in ["initialize", "exchange", "cancel"] {
        let h = mir.handlers.iter().find(|h| h.name == name).unwrap();
        let n = h.body.stmts.iter().filter(|st| matches!(st, Stmt::RequireOrAbort { .. })).count();
        assert!(n >= 1, "{} should have a RequireOrAbort", name);
    }
    assert!(mir.errors.variants.contains(&"InvalidAmount".to_string()));
    assert!(mir.errors.variants.contains(&"Unauthorized".to_string()));
    assert!(mir.errors.variants.contains(&"AlreadyClosed".to_string()));
    assert!(mir.state.variants.len() >= 2);
    assert!(mir.accounts.pdas.has("escrow"));
}

#[test]
fn lower_imports_no_imports_is_empty() {
    let mir = lower(&escrow());
    assert_eq!(mir.imports.len(), 0);
}

fn token_interface() -> ParsedInterface {
    ParsedInterface {
        name: s("Token"),
        program_id: Some(s("TokenkegQfeZyiNwAJbNbGKPFXCWuBvf9Ss623VQ5DA")),
        upstream: Some(ParsedUpstream {
            package: Some(s("spl-token")),
            version: Some(s("4.0.3")),
            binary_hash: Some(s("sha256:00")),
        }),
        state_fields: vec![],
        handlers: vec![ParsedInterfaceHandler {
            name: s("transfer"),
            params: vec![pair("amount", "U64")],
            ensures: vec![ParsedEnsures {
                lean_expr: s("s'.from_balance + amount = s.from_balance"),
                rust_expr: s("true"),
                rust_expr_pod: s("true"),
                rust_expr_binary: s("true"),
            }],
            result_binder: None,
            return_type: None,
        }],
    }
}

#[test]
fn lower_imports_builtin_spl_token() {
    let mut spec = empty_spec("Pool");
    spec.imported_namespaces.insert(
        s("Token"),
        ParsedNamespace { dep_key: s("spl"), builtin: true, account_types: vec![], records: vec![] },
    );
    spec.interfaces = vec![token_interface()];
    let mir = lower(&spec);
    let token = mir.imports.get("Token").expect("the Token namespace");
    assert_eq!(token.alias, "Token");
    match &token.origin {
        ImportOrigin::Builtin(k) => assert_eq!(k, "spl"),
        other => panic!("expected a builtin, got {:?}", other),
    }
    assert!(token.account_types.is_empty());
    assert!(token.interfaces.has("Token"));
    assert!(token.interfaces.get("Token").unwrap().methods.has("transfer"));
    assert!(token.upstream.is_some());
}

#[test]
fn lower_imports_inline_interface() {
    let mut spec = empty_spec("Pool");
    let mut mock = token_interface();
    mock.name = s("MockEncrypt");
    mock.upstream = None;
    spec.interfaces = vec![mock];
    let mir = lower(&spec);
    let mock = mir.imports.get("MockEncrypt").expect("the MockEncrypt namespace");
    assert!(matches!(mock.origin, ImportOrigin::Inline));
    assert!(mock.upstream.is_none(), "inline blocks have no upstream");
    assert!(mock.account_types.is_empty());
    assert_eq!(mock.alias, "MockEncrypt");
    assert!(mock.interfaces.has("MockEncrypt"));
}

#[test]
fn a_file_import_is_no_builtin() {
    let mut spec = empty_spec("Pool");
    spec.imported_namespaces.insert(
        s("Oracle"),
        ParsedNamespace {
            dep_key: s("oracle"),
            builtin: false,
            account_types: vec![],
            records: vec![],
        },
    );
    let mir = lower(&spec);
    let oracle = mir.imports.get("Oracle").unwrap();
    assert!(matches!(&oracle.origin, ImportOrigin::File(k) if k == "oracle"));
}

#[test]
fn every_kind_of_effect_has_its_statement() {
    let mut spec = empty_spec("Kinds");
    let mut h = handler("run", "A", "B");
    for kind in ["set", "add", "sub", "add_wrap", "sub_wrap", "add_sat", "sub_sat"] {
        h.effects.push((s("total"), s(kind), s("n")));
        h.effect_on_error.push(None);
    }
    spec.handlers = vec![h];
    let mir = lower(&spec);
    let body = &mir.handlers[0].body.stmts;
    assert_eq!(body.len(), 7);
    assert!(matches!(body[0], Stmt::Assign { .. }));
    assert!(matches!(body[1], Stmt::CheckedAdd { .. }));
    assert!(matches!(body[2], Stmt::CheckedSub { .. }));
    assert!(matches!(body[3], Stmt::WrapAdd { .. }));
    assert!(matches!(body[4], Stmt::WrapSub { .. }));
    assert!(matches!(body[5], Stmt::SatAdd { .. }));
    assert!(matches!(body[6], Stmt::SatSub { .. }));
}

#[test]
fn requirements_without_an_error_are_preconditions() {
    let mut spec = empty_spec("Split");
    let mut h = handler("run", "A", "B");
    h.requires = vec![
        requires_else("a", None),
        requires_else("b", Some("Bad")),
        requires_else("c", None),
    ];
    spec.handlers = vec![h];
    let mir = lower(&spec);
    let h = &mir.handlers[0];
    let pre: Vec<&str> = h.pre.iter().map(|p| p.0.lean.as_str()).collect();
    assert_eq!(pre, ["a", "c"]);
    assert_eq!(h.requires_or_abort.len(), 1);
    assert_eq!(h.requires_or_abort[0].err, "Bad");
    let all: Vec<&str> = h.requires_in_order.iter().map(|p| p.0.lean.as_str()).collect();
    assert_eq!(all, ["a", "b", "c"]);
}

#[test]
fn an_authority_is_an_account_by_its_name() {
    let mut spec = empty_spec("Auth");
    let mut plain = handler("plain", "A", "B");
    plain.who = Some(s("owner"));
    spec.handlers = vec![plain, handler("open", "A", "B")];
    let mir = lower(&spec);
    assert!(matches!(
        &mir.handlers[0].auth,
        Some(AccountOrField::Account(AccountRef::ByBinding(name))) if name == "owner"
    ));
    assert!(mir.handlers[1].auth.is_none());
}

#[test]
fn calls_become_statements_with_their_arguments() {
    let mut spec = empty_spec("Calls");
    spec.interfaces = vec![token_interface()];
    let mut h = handler("deposit", "A", "B");
    h.calls = vec![ParsedCall {
        target_interface: s("Token"),
        target_handler: s("transfer"),
        args: vec![],
        result_binding: Some(s("r")),
        state_binders: vec![],
    }];
    spec.handlers = vec![h];
    let mir = lower(&spec);
    assert!(mir.handlers[0].body.stmts.iter().any(|st| matches!(
        st,
        Stmt::Cpi { target, method, result_binding: Some(r), .. }
            if target.0 == "Token" && method.0 == "transfer" && r == "r"
    )));
}

#[test]
fn harness_jobs_need_handlers() {
    let spec = escrow();
    let mir = lower(&spec);
    let job = proptest_gen_mir::generate(&mir, &spec, "a.qedspec", "tests/proptest.rs").unwrap();
    assert_eq!(job.spec_path, "a.qedspec");
    assert_eq!(job.output_path, "tests/proptest.rs");
    let none = empty_spec("None");
    let err = proptest_gen_mir::generate(&lower(&none), &none, "a", "b").unwrap_err();
    assert_eq!(err, "No operations found in the spec — is this a valid qedspec file?");
}

#[test]
fn expressions_keep_the_text_of_every_target() {
    let e = Expr::from_requires(&requires_else("x > 0", None));
    assert_eq!(e.lean, "x > 0");
    assert_eq!(e.rust, "rust x > 0");
    assert_eq!(e.rust_pod, "pod x > 0");
    let e = Expr::from_ensures(&ParsedEnsures {
        lean_expr: s("l"),
        rust_expr: s("r"),
        rust_expr_pod: s("p"),
        rust_expr_binary: s("b"),
    });
    assert_eq!((e.lean.as_str(), e.rust_binary.as_str()), ("l", "b"));
    let e = Expr::from_raw("raw");
    assert_eq!((e.lean.as_str(), e.rust.as_str(), e.rust_pod.as_str()), ("", "raw", ""));
    assert!(e.rust_binary.is_empty() && e.source_span.is_none());
    assert_eq!(e.lean_form(), "raw");
    assert_eq!(Expr::from_requires(&requires_else("x > 0", None)).lean_form(), "x > 0");
}
