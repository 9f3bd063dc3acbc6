use qedgen::lakefile::{
    inject_verified_callee_requires, reconcile_lakefile, remove_lakefile_roots,
    update_lakefile_roots,
};
use qedgen::lean::cpi::emit_cpi_theorems;
use qedgen::lean::scope::Scope;
use qedgen::lean_gen_mir::{generate, render};
use qedgen::lower::lower;
use qedgen::names::NameMap;
use qedgen::parsed::{
    ParsedCall, ParsedEnsures, ParsedHandler, ParsedInterface, ParsedInterfaceHandler, ParsedSpec,
    ParsedNamespace, ParsedUpstream,
};
use qedgen::sidecars::{
    collect_pinned_interfaces, inject_interface_imports, pathdiff_relative_from, plan_sidecars,
    proof_pkg_name, render_interface_axiom_module, safe_module_name, PathPart,
};

fn s(t: &str) -> String {
    t.to_string()
}

fn strings(v: &[&str]) -> Vec<String> {
    v.iter().map(|t| t.to_string()).collect()
}

fn post(lean: &str) -> ParsedEnsures {
    ParsedEnsures {
        lean_expr: s(lean),
        rust_expr: s("true"),
        rust_expr_pod: s("true"),
        rust_expr_binary: s("true"),
    }
}

fn token(hash: Option<&str>) -> ParsedInterface {
    ParsedInterface {
        name: s("Token"),
        program_id: Some(s("TokenkegQfeZyiNwAJbNbGKPFXCWuBvf9Ss623VQ5DA")),
        upstream: Some(ParsedUpstream {
            package: Some(s("spl-token")),
            version: Some(s("4.0.3")),
            binary_hash: hash.map(s),
        }),
        state_fields: vec![(s("delta"), s("I64"))],
        handlers: vec![ParsedInterfaceHandler {
            name: s("transfer"),
            params: vec![(s("amount"), s("U64"))],
            ensures: vec![
                post("s'.from_balance + amount = s.from_balance"),
                post("amount > 0"),
                post("s'.delta = s.delta"),
            ],
            result_binder: None,
            return_type: None,
        }],
    }
}

fn pool(hash: Option<&str>) -> ParsedSpec {
    let deposit = ParsedHandler {
        name: s("deposit"),
        doc: None,
        on_account: None,
        who: None,
        permissionless: false,
        pre_status: None,
        post_status: None,
        takes_params: vec![(s("amount"), s("U64"))],
        accounts: vec![],
        requires: vec![],
        aborts_if: vec![],
        ensures: vec![],
        effects: vec![],
        effect_on_error: vec![],
        effect_branches: false,
        transfers: vec![],
        calls: vec![ParsedCall {
            target_interface: s("Token"),
            target_handler: s("transfer"),
            args: vec![],
            result_binding: None,
            state_binders: vec![],
        }],
        modifies: None,
        emits: vec![],
        invariants: vec![],
        establishes: vec![],
        abstract_binders: vec![],
        aborts_total: false,
    };
    ParsedSpec {
        program_name: s("LpPool"),
        handlers: vec![deposit],
        account_types: vec![],
        records: vec![],
        pdas: vec![],
        error_codes: vec![],
        events: vec![],
        imported_namespaces: NameMap::new(),
        interfaces: vec![token(hash)],
        verified_callees: NameMap::new(),
        invariants: vec![],
        covers: vec![],
        liveness_props: vec![],
        environments: vec![],
        constants: vec![],
        uninterpreted_helpers: vec![],
        ref_impls: vec![],
        properties: vec![],
        instructions: vec![],
        pubkeys: vec![],
        valued_errors: vec![],
        assembly_target: false,
        state_repr: None,
    }
}

#[test]
fn axiom_modules_speak_of_the_state_through_accessors() {
    let out = render_interface_axiom_module(&token(Some("sha256:00")));
    for marker in [
        "axiom ensures_axiom_0",
        "{State : Type} [Inhabited State]",
        "(pre post : State)",
        "(from_balance : State \u{2192} Nat)",
    ] {
        assert!(out.contains(marker), "missing `{}`:\n{}", marker, out);
    }
    assert!(out.contains(
        "axiom ensures_axiom_0 {State : Type} [Inhabited State] (pre post : State) (amount : Nat) (from_balance : State → Nat) : (from_balance post) + amount = (from_balance pre)\n"
    ));
    assert!(out.contains("axiom ensures_axiom_1 (amount : Nat) : amount > 0\n"));
    assert!(out.contains("(delta : State → Int) : (delta post) = (delta pre)\n"));
    assert!(out.contains("def binary_hash : String := \"sha256:00\"\n"));
    assert!(out.starts_with("-- v2.26 Track F: bundled-interface axiom module.\n"));
    assert!(out.ends_with("end transfer\n\nend Token\n"));
}

#[test]
fn only_interfaces_with_a_pin_are_pinned() {
    assert!(collect_pinned_interfaces(&pool(Some("sha256:00"))).has("Token"));
    assert_eq!(collect_pinned_interfaces(&pool(None)).len(), 0);
    assert_eq!(collect_pinned_interfaces(&pool(Some("  "))).len(), 0);
}

#[test]
fn pinned_interfaces_get_a_module_and_an_import() {
    let spec = pool(Some("sha256:00"));
    let mir = lower(&spec);
    let plan = generate(&mir, &spec);
    assert_ne!(plan.spec, render(&mir));
    assert!(plan.spec.contains("import QEDGen.Solana.Account\n"));
    assert!(plan.spec.contains("\nimport Token\n"));
    assert!(plan.spec.find("import Token").unwrap() < plan.spec.find("namespace").unwrap());
    assert_eq!(plan.modules.len(), 1);
    assert_eq!(plan.modules[0].0, "Token.lean");
    assert_eq!(plan.modules[0].1, render_interface_axiom_module(&spec.interfaces[0]));
    assert!(plan.touches_lakefile);
    assert_eq!(plan.roots, ["Token"]);
    assert!(plan.packages.is_empty());
}

#[test]
fn verified_callees_are_required_instead() {
    let mut spec = pool(Some("sha256:00"));
    spec.verified_callees.insert(s("Token"), s("deps/token"));
    let plan = plan_sidecars("import QEDGen.Solana.A\n\nbody\n", &spec);
    assert_eq!(plan.spec, "import QEDGen.Solana.A\nimport Token\n\nbody\n");
    assert!(plan.modules.is_empty() && plan.roots.is_empty());
    assert_eq!(plan.stale_roots, ["Token"]);
    assert_eq!(plan.packages, [(s("Token"), s("deps/token"))]);
    let lake = "package demo\n\nlean_lib Spec where\n  roots := #[`Spec, `Token]\n";
    let out = reconcile_lakefile(lake, &plan, &vec![(s("Token"), s("..\\token"))]);
    assert_eq!(
        out,
        "package demo\n\n-- v2.27 Track B: verified-callee proof package (Stance 2).\nrequire tokenProofs from \"../token\"\n\nlean_lib Spec where\n  roots := #[`Spec]\n"
    );
}

#[test]
fn imports_stand_behind_the_imports_that_are_there() {
    let mut pinned = NameMap::new();
    pinned.insert(s("Token"), true);
    pinned.insert(s("Clock-2"), true);
    let once = inject_interface_imports(
        "import A\r\n\r\nimport QEDGen.Solana.B\r\nimport C\r\nx\n",
        &pinned,
    );
    assert_eq!(
        once,
        "import A\r\n\r\nimport QEDGen.Solana.B\r\nimport Clock_2\nimport Token\nimport C\r\nx\n"
    );
    assert_eq!(inject_interface_imports(&once, &pinned), once);
    assert_eq!(
        inject_interface_imports("-- c\nimport A\n", &pinned),
        "import Clock_2\nimport Token\n-- c\nimport A\n"
    );
}

#[test]
fn only_the_same_module_is_imported_already() {
    let mut pinned = NameMap::new();
    pinned.insert(s("Token"), true);
    let text = "import TokenMath\nimport QEDGen.Solana.Account\n\nnamespace P\n";
    let once = inject_interface_imports(text, &pinned);
    assert_eq!(
        once,
        "import TokenMath\nimport QEDGen.Solana.Account\nimport Token\n\nnamespace P\n"
    );
    assert_eq!(inject_interface_imports(&once, &pinned), once);
    let there = "import Token\r\nimport QEDGen.Solana.Account\n";
    assert_eq!(inject_interface_imports(there, &pinned), there);
    let there = "import Token\nimport QEDGen.Solana.Account";
    assert_eq!(inject_interface_imports(there, &pinned), there);
    let once = inject_interface_imports("import QEDGen.Solana.Account", &pinned);
    assert_eq!(once, "import QEDGen.Solana.Account\nimport Token\n");
    assert_eq!(inject_interface_imports(&once, &pinned), once);
}

#[test]
fn lakefile_roots_are_added_once() {
    let lake = "lean_lib X where\n  roots := #[`Spec ,`Proofs]\n";
    let pinned = strings(&["Token", "Proofs"]);
    let once = update_lakefile_roots(lake, &pinned);
    assert_eq!(once, "lean_lib X where\n  roots := #[`Spec, `Proofs, `Token]\n");
    assert_eq!(update_lakefile_roots(&once, &pinned), once);
    assert_eq!(update_lakefile_roots("roots := #[]", &pinned), "roots := #[`Token, `Proofs]");
    assert_eq!(update_lakefile_roots("no list", &pinned), "no list");
    assert_eq!(update_lakefile_roots("roots := #[`A", &pinned), "roots := #[`A");
}

#[test]
fn lakefile_roots_are_removed_once() {
    let lake = "roots := #[`Spec, `Token, ]";
    let gone = strings(&["Token"]);
    let once = remove_lakefile_roots(lake, &gone);
    assert_eq!(once, "roots := #[`Spec, ]");
    assert_eq!(remove_lakefile_roots(&once, &gone), once);
    assert_eq!(remove_lakefile_roots("roots := #[`Spec]", &gone), "roots := #[`Spec]");
    assert_eq!(remove_lakefile_roots("roots := #[`Token]", &gone), "roots := #[]");
}

#[test]
fn packages_are_required_once() {
    let verified = vec![(s("Token"), s("a"))];
    let once = inject_verified_callee_requires("import Lake", &verified);
    assert_eq!(
        once,
        "import Lake\n-- v2.27 Track B: verified-callee proof package (Stance 2).\nrequire tokenProofs from \"a\"\n"
    );
    assert_eq!(inject_verified_callee_requires(&once, &verified), once);
}

#[test]
fn module_and_package_names() {
    assert_eq!(safe_module_name("Spl-Token 2é"), "Spl_Token_2é");
    assert_eq!(proof_pkg_name("Token"), "tokenProofs");
    assert_eq!(proof_pkg_name("Écu"), "écuProofs");
    assert_eq!(proof_pkg_name(""), "stdlibProofs");
}

fn path(absolute: bool, parts: &[&str]) -> Vec<PathPart> {
    let mut out = vec![];
    if absolute {
        out.push(PathPart { text: s("/"), is_root: true });
    }
    for p in parts {
        out.push(PathPart { text: s(p), is_root: false });
    }
    out
}

#[test]
fn paths_go_up_and_down() {
    let rel = |a: Vec<PathPart>, b: Vec<PathPart>| pathdiff_relative_from(&a, &b);
    assert_eq!(rel(path(true, &["a", "b", "c"]), path(true, &["a", "d"])), ["..", "b", "c"]);
    assert_eq!(rel(path(true, &["a"]), path(true, &["a"])), ["."]);
    assert_eq!(rel(path(true, &["a"]), path(true, &["a", "b"])), [".."]);
    assert_eq!(rel(path(true, &["x"]), path(false, &["a", "b"])), ["/", "x"]);
    assert_eq!(rel(path(false, &["x"]), path(true, &["a"])), ["..", "x"]);
}

#[test]
fn calls_of_pinned_interfaces_are_named() {
    let pinned = |hash: Option<&str>, imported: bool| {
        let mut spec = pool(hash);
        if imported {
            spec.imported_namespaces.insert(
                s("Token"),
                ParsedNamespace {
                    dep_key: s("spl"),
                    builtin: true,
                    account_types: vec![],
                    records: vec![],
                },
            );
        }
        let mir = lower(&spec);
        let mut out = String::new();
        let names = emit_cpi_theorems(&mut out, &Scope::whole(&mir));
        assert_eq!(names.has("Token"), out.contains(":=\n  Token.transfer.ensures_axiom_1 amount"));
        (0..names.len()).map(|i| names.key(i).clone()).collect::<Vec<String>>()
    };
    assert_eq!(pinned(Some("sha256:00"), true), ["Token"]);
    assert!(pinned(Some(" "), true).is_empty());
    assert!(pinned(None, true).is_empty());
    assert!(pinned(Some("sha256:00"), false).is_empty());
}
