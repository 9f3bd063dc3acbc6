//! From the parsed spec to the intermediate representation.
use vstd::prelude::*;

use crate::mir::{
    account_name, empty_expr, ensures_expr, parse_ty, raw_expr, requires_expr, ty_view, type_of,
    AbortClause, AccountBindingShape, AccountKind, AccountOrField, AccountRef, AccountStateMir,
    AccountTable, Block, CallArg, CoverMir, EnvironmentMir, ErrorEnum, EventDecl, Expr, ExprV,
    FieldDecl, HandlerMir, ImportOrigin, ImportedSpecMir, InterfaceDecl, InterfaceMethod,
    InterfaceRef, InvariantMir, LivenessMir, MethodRef, Mir, Path, PdaDeclaration, Predicate,
    PropertyMir, RefImpl, RequireOrAbortClause, StateAdt, StateBinder, StateVariant, Stmt, Symbol,
    Ty, UninterpretedHelper,
};
use crate::names::{lookup, lookup_with_entry, NameMap};
use crate::parsed::{
    ParsedAbortsIf, ParsedAccountType, ParsedCall, ParsedCallArg, ParsedCover, ParsedEnsures,
    ParsedEnvironment, ParsedEvent, ParsedHandler, ParsedHandlerAccount, ParsedInterface,
    ParsedInterfaceHandler, ParsedInvariant, ParsedLiveness, ParsedNamespace, ParsedPda,
    ParsedProperty, ParsedRecordType, ParsedRefImpl, ParsedRequires, ParsedSpec, ParsedStateBinder,
    ParsedTransfer, ParsedUpstream, ParsedVariant,
};
use crate::search::opt_text;
use crate::split::split_text;
use crate::text::{copy_pairs, copy_strings, same};

verus! {

broadcast use {crate::text::group_text, crate::text::texts_index, crate::text::texts_len};

// ---------------------------------------------------------------------------
// Copies
// ---------------------------------------------------------------------------

fn copy_opt(o: &Option<String>) -> (r: Option<String>)
    ensures
        r == *o,
{
    match o {
        Some(s) => Some(s.clone()),
        None => None,
    }
}

/// The text of an optional string, or none.
pub open spec fn text_or_empty(o: Option<String>) -> Seq<char> {
    match o {
        Some(s) => s@,
        None => Seq::empty(),
    }
}

fn copy_or_empty(o: &Option<String>) -> (r: String)
    ensures
        r@ == text_or_empty(*o),
{
    match o {
        Some(s) => s.clone(),
        None => String::new(),
    }
}

/// Two declarations of a record that read alike.
pub open spec fn same_record(a: ParsedRecordType, b: ParsedRecordType) -> bool {
    a.name == b.name && a.fields@ == b.fields@
}

/// Two lists of record declarations that read alike.
pub open spec fn same_records(a: Seq<ParsedRecordType>, b: Seq<ParsedRecordType>) -> bool {
    a.len() == b.len() && forall|i: int|
        0 <= i < a.len() ==> same_record(#[trigger] a[i], #[trigger] b[i])
}

fn copy_records(v: &Vec<ParsedRecordType>) -> (r: Vec<ParsedRecordType>)
    ensures
        same_records(v@, r@),
{
    let mut out: Vec<ParsedRecordType> = Vec::new();
    for i in 0..v.len()
        invariant
            out@.len() == i,
            forall|k: int| 0 <= k < i ==> same_record(#[trigger] v@[k], #[trigger] out@[k]),
    {
        out.push(ParsedRecordType { name: v[i].name.clone(), fields: copy_pairs(&v[i].fields) });
    }
    out
}

/// Two variants that read alike.
pub open spec fn same_variant(a: ParsedVariant, b: ParsedVariant) -> bool {
    a.name == b.name && a.fields@ == b.fields@
}

/// Two declarations of an account type that read alike.
pub open spec fn same_account_type(a: ParsedAccountType, b: ParsedAccountType) -> bool {
    &&& a.name == b.name
    &&& a.fields@ == b.fields@
    &&& a.variants@.len() == b.variants@.len()
    &&& forall|i: int|
        0 <= i < a.variants@.len() ==> same_variant(
            #[trigger] a.variants@[i],
            #[trigger] b.variants@[i],
        )
    &&& a.lifecycle@ == b.lifecycle@
}

/// Two lists of account types that read alike.
pub open spec fn same_account_types(a: Seq<ParsedAccountType>, b: Seq<ParsedAccountType>) -> bool {
    a.len() == b.len() && forall|i: int|
        0 <= i < a.len() ==> same_account_type(#[trigger] a[i], #[trigger] b[i])
}

fn copy_account_type(a: &ParsedAccountType) -> (r: ParsedAccountType)
    ensures
        same_account_type(*a, r),
{
    let mut variants: Vec<ParsedVariant> = Vec::new();
    for i in 0..a.variants.len()
        invariant
            variants@.len() == i,
            forall|k: int|
                0 <= k < i ==> same_variant(#[trigger] a.variants@[k], #[trigger] variants@[k]),
    {
        let v = &a.variants[i];
        variants.push(ParsedVariant { name: v.name.clone(), fields: copy_pairs(&v.fields) });
    }
    ParsedAccountType {
        name: a.name.clone(),
        fields: copy_pairs(&a.fields),
        variants,
        lifecycle: copy_strings(&a.lifecycle),
    }
}

fn copy_account_types(v: &Vec<ParsedAccountType>) -> (r: Vec<ParsedAccountType>)
    ensures
        same_account_types(v@, r@),
{
    let mut out: Vec<ParsedAccountType> = Vec::new();
    for i in 0..v.len()
        invariant
            out@.len() == i,
            forall|k: int| 0 <= k < i ==> same_account_type(#[trigger] v@[k], #[trigger] out@[k]),
    {
        out.push(copy_account_type(&v[i]));
    }
    out
}

fn copy_upstream(o: &Option<ParsedUpstream>) -> (r: Option<ParsedUpstream>)
    ensures
        r == *o,
{
    match o {
        Some(u) => Some(
            ParsedUpstream {
                package: copy_opt(&u.package),
                version: copy_opt(&u.version),
                binary_hash: copy_opt(&u.binary_hash),
            },
        ),
        None => None,
    }
}

// ---------------------------------------------------------------------------
// State
// ---------------------------------------------------------------------------

/// A list of fields, each with its name and the type that its text names.
pub open spec fn lowered_fields(src: Seq<(String, String)>, out: Seq<FieldDecl>) -> bool {
    out.len() == src.len() && forall|i: int|
        0 <= i < src.len() ==> (#[trigger] out[i]).name == (#[trigger] src[i]).0 && ty_view(
            out[i].ty,
        ) == type_of(src[i].1@)
}

fn lower_fields(src: &Vec<(String, String)>) -> (r: Vec<FieldDecl>)
    ensures
        lowered_fields(src@, r@),
{
    let mut out: Vec<FieldDecl> = Vec::new();
    for i in 0..src.len()
        invariant
            out@.len() == i,
            forall|k: int|
                0 <= k < i ==> (#[trigger] out@[k]).name == (#[trigger] src@[k]).0 && ty_view(
                    out@[k].ty,
                ) == type_of(src@[k].1@),
    {
        out.push(FieldDecl { name: src[i].0.clone(), ty: parse_ty(src[i].1.as_str()) });
    }
    out
}

/// A list of parameters, each with its name and the type that its text names.
pub open spec fn lowered_params(src: Seq<(String, String)>, out: Seq<(Symbol, Ty)>) -> bool {
    out.len() == src.len() && forall|i: int|
        0 <= i < src.len() ==> (#[trigger] out[i]).0 == (#[trigger] src[i]).0 && ty_view(out[i].1)
            == type_of(src[i].1@)
}

fn lower_params(src: &Vec<(String, String)>) -> (r: Vec<(Symbol, Ty)>)
    ensures
        lowered_params(src@, r@),
{
    let mut out: Vec<(Symbol, Ty)> = Vec::new();
    for i in 0..src.len()
        invariant
            out@.len() == i,
            forall|k: int|
                0 <= k < i ==> (#[trigger] out@[k]).0 == (#[trigger] src@[k]).0 && ty_view(
                    out@[k].1,
                ) == type_of(src@[k].1@),
    {
        out.push((src[i].0.clone(), parse_ty(src[i].1.as_str())));
    }
    out
}

/// The variants of a sum declaration, in order.
pub open spec fn lowered_variants(src: Seq<ParsedVariant>, out: Seq<StateVariant>) -> bool {
    out.len() == src.len() && forall|i: int|
        0 <= i < src.len() ==> (#[trigger] out[i]).tag == (#[trigger] src[i]).name
            && lowered_fields(src[i].fields@, out[i].fields@)
}

fn lower_variants(src: &Vec<ParsedVariant>) -> (r: Vec<StateVariant>)
    ensures
        lowered_variants(src@, r@),
{
    let mut out: Vec<StateVariant> = Vec::new();
    for i in 0..src.len()
        invariant
            out@.len() == i,
            forall|k: int|
                0 <= k < i ==> (#[trigger] out@[k]).tag == (#[trigger] src@[k]).name
                    && lowered_fields(src@[k].fields@, out@[k].fields@),
    {
        out.push(StateVariant { tag: src[i].name.clone(), fields: lower_fields(&src[i].fields) });
    }
    out
}

/// The state of the first account type: its variants, or one unnamed variant
/// with the fields of the record; no variant where there is no account type.
pub open spec fn lowered_state(types: Seq<ParsedAccountType>, state: StateAdt) -> bool {
    if types.len() == 0 {
        state.variants@.len() == 0 && state.lifecycle_states@.len() == 0
    } else {
        let at = types[0];
        &&& state.lifecycle_states@ == at.lifecycle@
        &&& if at.variants@.len() > 0 {
            lowered_variants(at.variants@, state.variants@)
        } else {
            &&& state.variants@.len() == 1
            &&& state.variants@[0].tag@ == Seq::<char>::empty()
            &&& lowered_fields(at.fields@, state.variants@[0].fields@)
        }
    }
}

fn lower_state(types: &Vec<ParsedAccountType>) -> (r: StateAdt)
    ensures
        lowered_state(types@, r),
{
    if types.len() == 0 {
        return StateAdt { variants: Vec::new(), lifecycle_states: Vec::new() };
    }
    let at = &types[0];
    let variants: Vec<StateVariant> = if at.variants.len() > 0 {
        lower_variants(&at.variants)
    } else {
        let mut one: Vec<StateVariant> = Vec::new();
        one.push(StateVariant { tag: String::new(), fields: lower_fields(&at.fields) });
        one
    };
    StateAdt { variants, lifecycle_states: copy_strings(&at.lifecycle) }
}

/// The state of one account type.
pub open spec fn lowered_account_state(at: ParsedAccountType, out: AccountStateMir) -> bool {
    &&& out.name == at.name
    &&& lowered_fields(at.fields@, out.fields@)
    &&& lowered_variants(at.variants@, out.variants@)
    &&& out.lifecycle_states@ == at.lifecycle@
}

/// The states of the account types, in order.
pub open spec fn lowered_account_states(
    types: Seq<ParsedAccountType>,
    out: Seq<AccountStateMir>,
) -> bool {
    out.len() == types.len() && forall|i: int|
        0 <= i < types.len() ==> lowered_account_state(#[trigger] types[i], #[trigger] out[i])
}

fn lower_account_states(types: &Vec<ParsedAccountType>) -> (r: Vec<AccountStateMir>)
    ensures
        lowered_account_states(types@, r@),
{
    let mut out: Vec<AccountStateMir> = Vec::new();
    for i in 0..types.len()
        invariant
            out@.len() == i,
            forall|k: int|
                0 <= k < i ==> lowered_account_state(#[trigger] types@[k], #[trigger] out@[k]),
    {
        let at = &types[i];
        out.push(
            AccountStateMir {
                name: at.name.clone(),
                fields: lower_fields(&at.fields),
                variants: lower_variants(&at.variants),
                lifecycle_states: copy_strings(&at.lifecycle),
            },
        );
    }
    out
}

/// The last of the first `n` PDAs that has the name.
pub open spec fn last_pda(pdas: Seq<ParsedPda>, name: Seq<char>, n: nat) -> Option<int>
    decreases n,
{
    if n == 0 {
        None
    } else if pdas[n - 1].name@ == name {
        Some(n - 1)
    } else {
        last_pda(pdas, name, (n - 1) as nat)
    }
}

/// A PDA with its seeds, each as an expression.
pub open spec fn lowered_pda(p: ParsedPda, d: PdaDeclaration) -> bool {
    &&& d.name == p.name
    &&& d.seeds@.len() == p.seeds@.len()
    &&& forall|i: int|
        0 <= i < p.seeds@.len() ==> (#[trigger] d.seeds@[i])@ == raw_expr((#[trigger] p.seeds@[i])@)
}

/// What the first `n` PDA declarations give under a name: the last one that
/// has it.
pub open spec fn pda_under(
    pdas: Seq<ParsedPda>,
    n: nat,
    name: Seq<char>,
    found: Option<PdaDeclaration>,
) -> bool {
    match last_pda(pdas, name, n) {
        Some(i) => found is Some && lowered_pda(pdas[i], found->0),
        None => found is None,
    }
}

/// The account table: every declared PDA under its name, nothing else.
pub open spec fn lowered_accounts(pdas: Seq<ParsedPda>, table: AccountTable) -> bool {
    &&& table.spec_level_bindings@.len() == 0
    &&& forall|name: Seq<char>|
        pda_under(pdas, pdas.len(), name, #[trigger] lookup(table.pdas@, name))
}

fn lower_pda(p: &ParsedPda) -> (r: PdaDeclaration)
    ensures
        lowered_pda(*p, r),
{
    let mut seeds: Vec<Expr> = Vec::new();
    for k in 0..p.seeds.len()
        invariant
            seeds@.len() == k,
            forall|j: int|
                0 <= j < k ==> (#[trigger] seeds@[j])@ == raw_expr((#[trigger] p.seeds@[j])@),
    {
        seeds.push(Expr::from_raw(p.seeds[k].as_str()));
    }
    PdaDeclaration { name: p.name.clone(), seeds }
}

fn lower_account_table(pdas: &Vec<ParsedPda>) -> (r: AccountTable)
    ensures
        lowered_accounts(pdas@, r),
{
    let mut map: NameMap<PdaDeclaration> = NameMap::new();
    for i in 0..pdas.len()
        invariant
            forall|name: Seq<char>|
                pda_under(pdas@, i as nat, name, #[trigger] lookup(map@, name)),
    {
        let d = lower_pda(&pdas[i]);
        let ghost before = map@;
        map.insert(pdas[i].name.clone(), d);
        proof {
            assert forall|name: Seq<char>|
                pda_under(pdas@, (i + 1) as nat, name, #[trigger] lookup(map@, name)) by {
                lookup_with_entry(before, pdas@[i as int].name@, d, name);
                assert(pda_under(pdas@, i as nat, name, lookup(before, name)));
            }
        }
    }
    AccountTable { pdas: map, spec_level_bindings: NameMap::new() }
}

// ---------------------------------------------------------------------------
// Imports
// ---------------------------------------------------------------------------

/// A list of postconditions, each as a predicate.
pub open spec fn lowered_ensures(src: Seq<ParsedEnsures>, out: Seq<Predicate>) -> bool {
    out.len() == src.len() && forall|i: int|
        0 <= i < src.len() ==> (#[trigger] out[i]).0@ == ensures_expr(#[trigger] src[i])
}

fn lower_ensures(src: &Vec<ParsedEnsures>) -> (r: Vec<Predicate>)
    ensures
        lowered_ensures(src@, r@),
{
    let mut out: Vec<Predicate> = Vec::new();
    for i in 0..src.len()
        invariant
            out@.len() == i,
            forall|k: int|
                0 <= k < i ==> (#[trigger] out@[k]).0@ == ensures_expr(#[trigger] src@[k]),
    {
        out.push(Predicate(Expr::from_ensures(&src[i])));
    }
    out
}

/// A handler of an interface, with the abstract state of the interface.
pub open spec fn lowered_method(
    iface: ParsedInterface,
    h: ParsedInterfaceHandler,
    m: InterfaceMethod,
) -> bool {
    &&& m.name == h.name
    &&& lowered_params(h.params@, m.params@)
    &&& lowered_ensures(h.ensures@, m.ensures@)
    &&& lowered_params(iface.state_fields@, m.state_fields@)
    &&& m.result_binder == h.result_binder
    &&& m.return_type == h.return_type
}

/// The last of the first `n` handlers that has the name.
pub open spec fn last_method(
    hs: Seq<ParsedInterfaceHandler>,
    name: Seq<char>,
    n: nat,
) -> Option<int>
    decreases n,
{
    if n == 0 {
        None
    } else if hs[n - 1].name@ == name {
        Some(n - 1)
    } else {
        last_method(hs, name, (n - 1) as nat)
    }
}

/// What the first `n` handlers of an interface give under a name.
pub open spec fn method_under(
    iface: ParsedInterface,
    n: nat,
    name: Seq<char>,
    found: Option<InterfaceMethod>,
) -> bool {
    match last_method(iface.handlers@, name, n) {
        Some(i) => found is Some && lowered_method(iface, iface.handlers@[i], found->0),
        None => found is None,
    }
}

/// An interface: every handler under its name, the last where a name occurs
/// more than once.
pub open spec fn lifted_interface(iface: ParsedInterface, d: InterfaceDecl) -> bool {
    &&& d.name == iface.name
    &&& d.program_id == iface.program_id
    &&& forall|name: Seq<char>|
        method_under(iface, iface.handlers@.len(), name, #[trigger] lookup(d.methods@, name))
}

fn lift_interface(iface: &ParsedInterface) -> (r: InterfaceDecl)
    ensures
        lifted_interface(*iface, r),
{
    let mut methods: NameMap<InterfaceMethod> = NameMap::new();
    for i in 0..iface.handlers.len()
        invariant
            forall|name: Seq<char>|
                method_under(*iface, i as nat, name, #[trigger] lookup(methods@, name)),
    {
        let h = &iface.handlers[i];
        let m = InterfaceMethod {
            name: h.name.clone(),
            params: lower_params(&h.params),
            ensures: lower_ensures(&h.ensures),
            state_fields: lower_params(&iface.state_fields),
            result_binder: copy_opt(&h.result_binder),
            return_type: copy_opt(&h.return_type),
        };
        let ghost before = methods@;
        methods.insert(h.name.clone(), m);
        proof {
            assert forall|name: Seq<char>|
                method_under(*iface, (i + 1) as nat, name, #[trigger] lookup(methods@, name)) by {
                lookup_with_entry(before, h.name@, m, name);
                assert(method_under(*iface, i as nat, name, lookup(before, name)));
            }
        }
    }
    InterfaceDecl { name: iface.name.clone(), program_id: copy_opt(&iface.program_id), methods }
}

/// The first interface from `from` on that has the name.
pub open spec fn first_interface(
    ifaces: Seq<ParsedInterface>,
    name: Seq<char>,
    from: int,
) -> Option<int>
    decreases ifaces.len() - from,
{
    if from < 0 || from >= ifaces.len() {
        None
    } else if ifaces[from].name@ == name {
        Some(from)
    } else {
        first_interface(ifaces, name, from + 1)
    }
}

fn find_interface(ifaces: &Vec<ParsedInterface>, name: &str) -> (r: Option<usize>)
    ensures
        match r {
            Some(i) => i < ifaces@.len() && first_interface(ifaces@, name@, 0) == Some(i as int),
            None => first_interface(ifaces@, name@, 0) is None,
        },
{
    let mut i: usize = 0;
    while i < ifaces.len()
        invariant
            i <= ifaces@.len(),
            first_interface(ifaces@, name@, 0) == first_interface(ifaces@, name@, i as int),
        decreases ifaces@.len() - i,
    {
        if same(ifaces[i].name.as_str(), name) {
            return Some(i);
        }
        i = i + 1;
    }
    None
}

/// Where an import comes from.
pub open spec fn lowered_origin(ns: ParsedNamespace, origin: ImportOrigin) -> bool {
    match origin {
        ImportOrigin::Builtin(k) => ns.builtin && k == ns.dep_key,
        ImportOrigin::File(k) => !ns.builtin && k == ns.dep_key,
        ImportOrigin::Inline => false,
    }
}

/// A map that holds the interface at `i` under its name, and nothing else.
pub open spec fn only_interface(
    ifaces: Seq<ParsedInterface>,
    i: int,
    es: Seq<(Seq<char>, InterfaceDecl)>,
) -> bool {
    es.len() == 1 && es[0].0 == ifaces[i].name@ && lifted_interface(ifaces[i], es[0].1)
}

/// An `import`: the types of the imported spec, and the first interface that
/// has the alias for its name, with its pin.
pub open spec fn external_import(
    spec: ParsedSpec,
    alias: Seq<char>,
    ns: ParsedNamespace,
    imp: ImportedSpecMir,
) -> bool {
    &&& imp.alias@ == alias
    &&& lowered_origin(ns, imp.origin)
    &&& same_account_types(ns.account_types@, imp.account_types@)
    &&& same_records(ns.records@, imp.records@)
    &&& match first_interface(spec.interfaces@, alias, 0) {
        Some(i) => only_interface(spec.interfaces@, i, imp.interfaces@) && imp.upstream
            == spec.interfaces@[i].upstream,
        None => imp.interfaces@.len() == 0 && imp.upstream is None,
    }
    &&& opt_text(imp.verified_pkg_root) == match lookup(spec.verified_callees@, alias) {
        Some(root) => Some(root@),
        None => None,
    }
}

/// An inline interface: its own alias, with nothing but the interface.
pub open spec fn inline_import(
    ifaces: Seq<ParsedInterface>,
    i: int,
    imp: ImportedSpecMir,
) -> bool {
    &&& imp.alias == ifaces[i].name
    &&& imp.origin is Inline
    &&& imp.account_types@.len() == 0
    &&& imp.records@.len() == 0
    &&& only_interface(ifaces, i, imp.interfaces@)
    &&& imp.upstream is None
    &&& imp.verified_pkg_root is None
}

/// The last of the first `n` interfaces that has the name.
pub open spec fn last_interface(ifaces: Seq<ParsedInterface>, name: Seq<char>, n: nat) -> Option<int>
    decreases n,
{
    if n == 0 {
        None
    } else if ifaces[n - 1].name@ == name {
        Some(n - 1)
    } else {
        last_interface(ifaces, name, (n - 1) as nat)
    }
}

/// What an alias stands for, when `n` interfaces have been seen: an import
/// where the spec imports under it, or else the last inline interface of that
/// name.
pub open spec fn import_under(
    spec: ParsedSpec,
    n: nat,
    alias: Seq<char>,
    found: Option<ImportedSpecMir>,
) -> bool {
    match lookup(spec.imported_namespaces@, alias) {
        Some(ns) => found is Some && external_import(spec, alias, ns, found->0),
        None => match last_interface(spec.interfaces@, alias, n) {
            Some(i) => found is Some && inline_import(spec.interfaces@, i, found->0),
            None => found is None,
        },
    }
}

/// The imports: each alias with what it stands for.
pub open spec fn lowered_imports(
    spec: ParsedSpec,
    imports: Seq<(Seq<char>, ImportedSpecMir)>,
) -> bool {
    forall|alias: Seq<char>|
        import_under(spec, spec.interfaces@.len(), alias, #[trigger] lookup(imports, alias))
}

fn lower_import(parsed: &ParsedSpec, alias: &String, ns: &ParsedNamespace) -> (r: ImportedSpecMir)
    ensures
        external_import(*parsed, alias@, *ns, r),
{
    let mut interfaces: NameMap<InterfaceDecl> = NameMap::new();
    let mut upstream: Option<ParsedUpstream> = None;
    match find_interface(&parsed.interfaces, alias.as_str()) {
        Some(i) => {
            let iface = &parsed.interfaces[i];
            interfaces.insert(iface.name.clone(), lift_interface(iface));
            upstream = copy_upstream(&iface.upstream);
        },
        None => {},
    }
    let origin = if ns.builtin {
        ImportOrigin::Builtin(ns.dep_key.clone())
    } else {
        ImportOrigin::File(ns.dep_key.clone())
    };
    let verified_pkg_root: Option<String> = match parsed.verified_callees.get(alias.as_str()) {
        Some(root) => Some(root.clone()),
        None => None,
    };
    ImportedSpecMir {
        alias: alias.clone(),
        origin,
        account_types: copy_account_types(&ns.account_types),
        records: copy_records(&ns.records),
        interfaces,
        upstream,
        verified_pkg_root,
    }
}

proof fn lookup_take<V>(es: Seq<(Seq<char>, V)>, i: int)
    requires
        0 <= i < es.len(),
    ensures
        es.take(i + 1).drop_last() =~= es.take(i),
        es.take(i + 1).last() == es[i],
{
}

fn lower_imports(parsed: &ParsedSpec) -> (r: NameMap<ImportedSpecMir>)
    ensures
        lowered_imports(*parsed, r@),
{
    let mut imports: NameMap<ImportedSpecMir> = NameMap::new();
    let ghost spaces = parsed.imported_namespaces@;
    let n: usize = parsed.imported_namespaces.len();
    proof {
        assert(spaces.take(0) =~= Seq::<(Seq<char>, ParsedNamespace)>::empty());
    }
    for i in 0..n
        invariant
            spaces == parsed.imported_namespaces@,
            n == spaces.len(),
            forall|alias: Seq<char>|
                match lookup(spaces.take(i as int), alias) {
                    Some(ns) => (#[trigger] lookup(imports@, alias)) is Some && external_import(
                        *parsed,
                        alias,
                        ns,
                        lookup(imports@, alias)->0,
                    ),
                    None => lookup(imports@, alias) is None,
                },
    {
        let alias = parsed.imported_namespaces.key(i);
        let ns = parsed.imported_namespaces.value(i);
        let imp = lower_import(parsed, alias, ns);
        let ghost before = imports@;
        imports.insert(alias.clone(), imp);
        proof {
            lookup_take(spaces, i as int);
            assert forall|a: Seq<char>|
                match lookup(spaces.take(i + 1), a) {
                    Some(x) => (#[trigger] lookup(imports@, a)) is Some && external_import(
                        *parsed,
                        a,
                        x,
                        lookup(imports@, a)->0,
                    ),
                    None => lookup(imports@, a) is None,
                } by {
                lookup_with_entry(before, alias@, imp, a);
                assert(match lookup(spaces.take(i as int), a) {
                    Some(x) => lookup(before, a) is Some && external_import(
                        *parsed,
                        a,
                        x,
                        lookup(before, a)->0,
                    ),
                    None => lookup(before, a) is None,
                });
            }
        }
    }
    proof {
        assert(spaces.take(n as int) =~= spaces);
        assert forall|alias: Seq<char>|
            import_under(*parsed, 0, alias, #[trigger] lookup(imports@, alias)) by {}
    }
    for i in 0..parsed.interfaces.len()
        invariant
            forall|alias: Seq<char>|
                import_under(*parsed, i as nat, alias, #[trigger] lookup(imports@, alias)),
    {
        let iface = &parsed.interfaces[i];
        let ghost before = imports@;
        if !parsed.imported_namespaces.has(iface.name.as_str()) {
            let mut interfaces: NameMap<InterfaceDecl> = NameMap::new();
            interfaces.insert(iface.name.clone(), lift_interface(iface));
            let imp = ImportedSpecMir {
                alias: iface.name.clone(),
                origin: ImportOrigin::Inline,
                account_types: Vec::new(),
                records: Vec::new(),
                interfaces,
                upstream: None,
                verified_pkg_root: None,
            };
            imports.insert(iface.name.clone(), imp);
            proof {
                assert(inline_import(parsed.interfaces@, i as int, imp));
                assert forall|alias: Seq<char>|
                    import_under(*parsed, (i + 1) as nat, alias, #[trigger] lookup(imports@, alias)) by {
                    lookup_with_entry(before, iface.name@, imp, alias);
                    assert(import_under(*parsed, i as nat, alias, lookup(before, alias)));
                }
            }
        } else {
            proof {
                assert forall|alias: Seq<char>|
                    import_under(*parsed, (i + 1) as nat, alias, #[trigger] lookup(imports@, alias)) by {
                    assert(import_under(*parsed, i as nat, alias, lookup(before, alias)));
                }
            }
        }
    }
    imports
}

// ---------------------------------------------------------------------------
// Declarations
// ---------------------------------------------------------------------------

/// An invariant; its body has a Lean form and a Rust form.
pub open spec fn lowered_invariant(src: ParsedInvariant, out: InvariantMir) -> bool {
    &&& out.name == src.name
    &&& out.doc == src.doc
    &&& match src.lean_expr {
        Some(lean) => out.body is Some && (out.body->0).0@ == (ExprV {
            lean: lean@,
            rust: text_or_empty(src.rust_expr),
            rust_pod: Seq::empty(),
            rust_binary: Seq::empty(),
            source_span: None,
        }),
        None => out.body is None,
    }
}

fn lower_invariant(inv: &ParsedInvariant) -> (r: InvariantMir)
    ensures
        lowered_invariant(*inv, r),
{
    let body: Option<Predicate> = match &inv.lean_expr {
        Some(lean) => Some(
            Predicate(
                Expr {
                    lean: lean.clone(),
                    rust: copy_or_empty(&inv.rust_expr),
                    rust_pod: String::new(),
                    rust_binary: String::new(),
                    source_span: None,
                },
            ),
        ),
        None => None,
    };
    InvariantMir { name: inv.name.clone(), doc: inv.doc.clone(), body }
}

pub open spec fn lowered_invariants(src: Seq<ParsedInvariant>, out: Seq<InvariantMir>) -> bool {
    out.len() == src.len() && forall|i: int|
        0 <= i < src.len() ==> lowered_invariant(#[trigger] src[i], #[trigger] out[i])
}

fn lower_invariants(src: &Vec<ParsedInvariant>) -> (r: Vec<InvariantMir>)
    ensures
        lowered_invariants(src@, r@),
{
    let mut out: Vec<InvariantMir> = Vec::new();
    for i in 0..src.len()
        invariant
            out@.len() == i,
            forall|k: int|
                0 <= k < i ==> lowered_invariant(#[trigger] src@[k], #[trigger] out@[k]),
    {
        out.push(lower_invariant(&src[i]));
    }
    out
}

/// An expression of which only the Lean form is known.
pub open spec fn lean_only(lean: Seq<char>) -> ExprV {
    ExprV {
        lean,
        rust: Seq::empty(),
        rust_pod: Seq::empty(),
        rust_binary: Seq::empty(),
        source_span: None,
    }
}

/// A cover: the traces as they are, and each reachable handler with its
/// predicate.
pub open spec fn lowered_cover(src: ParsedCover, out: CoverMir) -> bool {
    &&& out.name == src.name
    &&& out.traces@.len() == src.traces@.len()
    &&& forall|i: int|
        0 <= i < src.traces@.len() ==> (#[trigger] out.traces@[i])@ == (#[trigger] src.traces@[i])@
    &&& out.reachable@.len() == src.reachable@.len()
    &&& forall|i: int|
        0 <= i < src.reachable@.len() ==> lowered_reach(
            #[trigger] src.reachable@[i],
            #[trigger] out.reachable@[i],
        )
}

/// A reachable handler with its predicate.
pub open spec fn lowered_reach(
    src: (String, Option<String>),
    out: (Symbol, Option<Predicate>),
) -> bool {
    &&& out.0 == src.0
    &&& match src.1 {
        Some(w) => out.1 is Some && (out.1->0).0@ == lean_only(w@),
        None => out.1 is None,
    }
}

fn lower_cover(c: &ParsedCover) -> (r: CoverMir)
    ensures
        lowered_cover(*c, r),
{
    let mut traces: Vec<Vec<Symbol>> = Vec::new();
    for i in 0..c.traces.len()
        invariant
            traces@.len() == i,
            forall|k: int|
                0 <= k < i ==> (#[trigger] traces@[k])@ == (#[trigger] c.traces@[k])@,
    {
        traces.push(copy_strings(&c.traces[i]));
    }
    let mut reachable: Vec<(Symbol, Option<Predicate>)> = Vec::new();
    for i in 0..c.reachable.len()
        invariant
            reachable@.len() == i,
            forall|k: int|
                0 <= k < i ==> lowered_reach(#[trigger] c.reachable@[k], #[trigger] reachable@[k]),
    {
        let when: Option<Predicate> = match &c.reachable[i].1 {
            Some(w) => Some(
                Predicate(
                    Expr {
                        lean: w.clone(),
                        rust: String::new(),
                        rust_pod: String::new(),
                        rust_binary: String::new(),
                        source_span: None,
                    },
                ),
            ),
            None => None,
        };
        reachable.push((c.reachable[i].0.clone(), when));
    }
    CoverMir { name: c.name.clone(), traces, reachable }
}

pub open spec fn lowered_covers(src: Seq<ParsedCover>, out: Seq<CoverMir>) -> bool {
    out.len() == src.len() && forall|i: int|
        0 <= i < src.len() ==> lowered_cover(#[trigger] src[i], #[trigger] out[i])
}

fn lower_covers(src: &Vec<ParsedCover>) -> (r: Vec<CoverMir>)
    ensures
        lowered_covers(src@, r@),
{
    let mut out: Vec<CoverMir> = Vec::new();
    for i in 0..src.len()
        invariant
            out@.len() == i,
            forall|k: int| 0 <= k < i ==> lowered_cover(#[trigger] src@[k], #[trigger] out@[k]),
    {
        out.push(lower_cover(&src[i]));
    }
    out
}

pub open spec fn lowered_live(src: ParsedLiveness, out: LivenessMir) -> bool {
    &&& out.name == src.name
    &&& out.from_state == src.from_state
    &&& out.leads_to_state == src.leads_to_state
    &&& out.via_ops@ == src.via_ops@
    &&& out.within_steps == src.within_steps
}

pub open spec fn lowered_liveness(src: Seq<ParsedLiveness>, out: Seq<LivenessMir>) -> bool {
    out.len() == src.len() && forall|i: int|
        0 <= i < src.len() ==> lowered_live(#[trigger] src[i], #[trigger] out[i])
}

fn lower_liveness(src: &Vec<ParsedLiveness>) -> (r: Vec<LivenessMir>)
    ensures
        lowered_liveness(src@, r@),
{
    let mut out: Vec<LivenessMir> = Vec::new();
    for i in 0..src.len()
        invariant
            out@.len() == i,
            forall|k: int| 0 <= k < i ==> lowered_live(#[trigger] src@[k], #[trigger] out@[k]),
    {
        let l = &src[i];
        out.push(
            LivenessMir {
                name: l.name.clone(),
                from_state: l.from_state.clone(),
                leads_to_state: l.leads_to_state.clone(),
                via_ops: copy_strings(&l.via_ops),
                within_steps: l.within_steps,
            },
        );
    }
    out
}

/// An environment: a constraint takes its Rust form from the same position,
/// where there is one.
pub open spec fn lowered_environment(src: ParsedEnvironment, out: EnvironmentMir) -> bool {
    &&& out.name == src.name
    &&& lowered_params(src.mutates@, out.mutates@)
    &&& out.constraints@.len() == src.constraints@.len()
    &&& forall|i: int|
        0 <= i < src.constraints@.len() ==> (#[trigger] out.constraints@[i]).0@ == (ExprV {
            lean: (#[trigger] src.constraints@[i])@,
            rust: if i < src.constraints_rust@.len() {
                src.constraints_rust@[i]@
            } else {
                Seq::empty()
            },
            rust_pod: Seq::empty(),
            rust_binary: Seq::empty(),
            source_span: None,
        })
}

fn lower_environment(env: &ParsedEnvironment) -> (r: EnvironmentMir)
    ensures
        lowered_environment(*env, r),
{
    let mut constraints: Vec<Predicate> = Vec::new();
    for i in 0..env.constraints.len()
        invariant
            constraints@.len() == i,
            forall|k: int|
                0 <= k < i ==> (#[trigger] constraints@[k]).0@ == (ExprV {
                    lean: (#[trigger] env.constraints@[k])@,
                    rust: if k < env.constraints_rust@.len() {
                        env.constraints_rust@[k]@
                    } else {
                        Seq::empty()
                    },
                    rust_pod: Seq::empty(),
                    rust_binary: Seq::empty(),
                    source_span: None,
                }),
    {
        let rust: String = if i < env.constraints_rust.len() {
            env.constraints_rust[i].clone()
        } else {
            String::new()
        };
        constraints.push(
            Predicate(
                Expr {
                    lean: env.constraints[i].clone(),
                    rust,
                    rust_pod: String::new(),
                    rust_binary: String::new(),
                    source_span: None,
                },
            ),
        );
    }
    EnvironmentMir { name: env.name.clone(), mutates: lower_params(&env.mutates), constraints }
}

pub open spec fn lowered_environments(
    src: Seq<ParsedEnvironment>,
    out: Seq<EnvironmentMir>,
) -> bool {
    out.len() == src.len() && forall|i: int|
        0 <= i < src.len() ==> lowered_environment(#[trigger] src[i], #[trigger] out[i])
}

fn lower_environments(src: &Vec<ParsedEnvironment>) -> (r: Vec<EnvironmentMir>)
    ensures
        lowered_environments(src@, r@),
{
    let mut out: Vec<EnvironmentMir> = Vec::new();
    for i in 0..src.len()
        invariant
            out@.len() == i,
            forall|k: int|
                0 <= k < i ==> lowered_environment(#[trigger] src@[k], #[trigger] out@[k]),
    {
        out.push(lower_environment(&src[i]));
    }
    out
}

pub open spec fn lowered_event(src: ParsedEvent, out: EventDecl) -> bool {
    out.name == src.name && lowered_fields(src.fields@, out.fields@)
}

pub open spec fn lowered_events(src: Seq<ParsedEvent>, out: Seq<EventDecl>) -> bool {
    out.len() == src.len() && forall|i: int|
        0 <= i < src.len() ==> lowered_event(#[trigger] src[i], #[trigger] out[i])
}

fn lower_events(src: &Vec<ParsedEvent>) -> (r: Vec<EventDecl>)
    ensures
        lowered_events(src@, r@),
{
    let mut out: Vec<EventDecl> = Vec::new();
    for i in 0..src.len()
        invariant
            out@.len() == i,
            forall|k: int| 0 <= k < i ==> lowered_event(#[trigger] src@[k], #[trigger] out@[k]),
    {
        out.push(EventDecl { name: src[i].name.clone(), fields: lower_fields(&src[i].fields) });
    }
    out
}

pub open spec fn lowered_helper(
    src: (String, Vec<String>, String),
    out: UninterpretedHelper,
) -> bool {
    out.name == src.0 && out.arg_types@ == src.1@ && out.return_type == src.2
}

pub open spec fn lowered_helpers(
    src: Seq<(String, Vec<String>, String)>,
    out: Seq<UninterpretedHelper>,
) -> bool {
    out.len() == src.len() && forall|i: int|
        0 <= i < src.len() ==> lowered_helper(#[trigger] src[i], #[trigger] out[i])
}

fn lower_helpers(src: &Vec<(String, Vec<String>, String)>) -> (r: Vec<UninterpretedHelper>)
    ensures
        lowered_helpers(src@, r@),
{
    let mut out: Vec<UninterpretedHelper> = Vec::new();
    for i in 0..src.len()
        invariant
            out@.len() == i,
            forall|k: int| 0 <= k < i ==> lowered_helper(#[trigger] src@[k], #[trigger] out@[k]),
    {
        out.push(
            UninterpretedHelper {
                name: src[i].0.clone(),
                arg_types: copy_strings(&src[i].1),
                return_type: src[i].2.clone(),
            },
        );
    }
    out
}

pub open spec fn lowered_ref_impl(src: ParsedRefImpl, out: RefImpl) -> bool {
    &&& out.name == src.name
    &&& out.doc == src.doc
    &&& out.params@ == src.params@
    &&& out.return_type == src.return_type
    &&& out.lean_body == src.lean_body
    &&& out.rust_body == src.rust_body
}

pub open spec fn lowered_ref_impls(src: Seq<ParsedRefImpl>, out: Seq<RefImpl>) -> bool {
    out.len() == src.len() && forall|i: int|
        0 <= i < src.len() ==> lowered_ref_impl(#[trigger] src[i], #[trigger] out[i])
}

fn lower_ref_impls(src: &Vec<ParsedRefImpl>) -> (r: Vec<RefImpl>)
    ensures
        lowered_ref_impls(src@, r@),
{
    let mut out: Vec<RefImpl> = Vec::new();
    for i in 0..src.len()
        invariant
            out@.len() == i,
            forall|k: int| 0 <= k < i ==> lowered_ref_impl(#[trigger] src@[k], #[trigger] out@[k]),
    {
        let p = &src[i];
        out.push(
            RefImpl {
                name: p.name.clone(),
                doc: copy_opt(&p.doc),
                params: copy_pairs(&p.params),
                return_type: p.return_type.clone(),
                lean_body: p.lean_body.clone(),
                rust_body: p.rust_body.clone(),
            },
        );
    }
    out
}

pub open spec fn lowered_property(src: ParsedProperty, out: PropertyMir) -> bool {
    &&& out.name == src.name
    &&& match src.expression {
        Some(lean) => out.expression is Some && out.expression->0@ == (ExprV {
            lean: lean@,
            rust: text_or_empty(src.rust_expression),
            rust_pod: text_or_empty(src.rust_expression_pod),
            rust_binary: Seq::empty(),
            source_span: None,
        }),
        None => out.expression is None,
    }
    &&& out.preserved_by@ == src.preserved_by@
}

pub open spec fn lowered_properties(src: Seq<ParsedProperty>, out: Seq<PropertyMir>) -> bool {
    out.len() == src.len() && forall|i: int|
        0 <= i < src.len() ==> lowered_property(#[trigger] src[i], #[trigger] out[i])
}

fn lower_properties(src: &Vec<ParsedProperty>) -> (r: Vec<PropertyMir>)
    ensures
        lowered_properties(src@, r@),
{
    let mut out: Vec<PropertyMir> = Vec::new();
    for i in 0..src.len()
        invariant
            out@.len() == i,
            forall|k: int| 0 <= k < i ==> lowered_property(#[trigger] src@[k], #[trigger] out@[k]),
    {
        let p = &src[i];
        let expression: Option<Expr> = match &p.expression {
            Some(lean) => Some(
                Expr {
                    lean: lean.clone(),
                    rust: copy_or_empty(&p.rust_expression),
                    rust_pod: copy_or_empty(&p.rust_expression_pod),
                    rust_binary: String::new(),
                    source_span: None,
                },
            ),
            None => None,
        };
        out.push(
            PropertyMir {
                name: p.name.clone(),
                expression,
                preserved_by: copy_strings(&p.preserved_by),
            },
        );
    }
    out
}

// ---------------------------------------------------------------------------
// Handlers
// ---------------------------------------------------------------------------

/// The preconditions among the first `n` that name no error.
pub open spec fn silent_requires(rs: Seq<ParsedRequires>, n: nat) -> Seq<ExprV>
    decreases n,
{
    if n == 0 {
        Seq::empty()
    } else {
        let before = silent_requires(rs, (n - 1) as nat);
        if rs[n - 1].error_name is None {
            before.push(requires_expr(rs[n - 1]))
        } else {
            before
        }
    }
}

/// The preconditions among the first `n` that name an error, with the error.
pub open spec fn checked_requires(rs: Seq<ParsedRequires>, n: nat) -> Seq<(ExprV, Seq<char>)>
    decreases n,
{
    if n == 0 {
        Seq::empty()
    } else {
        let before = checked_requires(rs, (n - 1) as nat);
        match rs[n - 1].error_name {
            Some(err) => before.push((requires_expr(rs[n - 1]), err@)),
            None => before,
        }
    }
}

/// Every precondition goes to one of the two lists.
pub proof fn requires_are_split(rs: Seq<ParsedRequires>, n: nat)
    ensures
        silent_requires(rs, n).len() + checked_requires(rs, n).len() == n,
    decreases n,
{
    if n > 0 {
        requires_are_split(rs, (n - 1) as nat);
    }
}

/// The expressions of a list of predicates.
pub open spec fn preds(ps: Seq<Predicate>) -> Seq<ExprV> {
    Seq::new(ps.len(), |i: int| ps[i].0@)
}

/// The expressions and errors of a list of clauses.
pub open spec fn clauses(cs: Seq<RequireOrAbortClause>) -> Seq<(ExprV, Seq<char>)> {
    Seq::new(cs.len(), |i: int| (cs[i].pred.0@, cs[i].err@))
}

/// Splits the preconditions into those without an error and those with one.
fn split_requires(rs: &Vec<ParsedRequires>) -> (r: (
    Vec<Predicate>,
    Vec<RequireOrAbortClause>,
))
    ensures
        preds(r.0@) == silent_requires(rs@, rs@.len()),
        clauses(r.1@) == checked_requires(rs@, rs@.len()),
{
    let mut pre: Vec<Predicate> = Vec::new();
    let mut roa: Vec<RequireOrAbortClause> = Vec::new();
    proof {
        assert(preds(pre@) =~= Seq::<ExprV>::empty());
        assert(clauses(roa@) =~= Seq::<(ExprV, Seq<char>)>::empty());
    }
    for i in 0..rs.len()
        invariant
            preds(pre@) == silent_requires(rs@, i as nat),
            clauses(roa@) == checked_requires(rs@, i as nat),
    {
        let expr = Expr::from_requires(&rs[i]);
        let ghost before_pre = pre@;
        let ghost before_roa = roa@;
        match &rs[i].error_name {
            Some(err) => {
                roa.push(RequireOrAbortClause { pred: Predicate(expr), err: err.clone() });
                proof {
                    assert(clauses(roa@) =~= clauses(before_roa).push((expr@, err@)));
                }
            },
            None => {
                pre.push(Predicate(expr));
                proof {
                    assert(preds(pre@) =~= preds(before_pre).push(expr@));
                }
            },
        }
    }
    (pre, roa)
}

/// All preconditions, in order.
pub open spec fn requires_exprs(rs: Seq<ParsedRequires>) -> Seq<ExprV> {
    Seq::new(rs.len(), |i: int| requires_expr(rs[i]))
}

fn requires_in_order(rs: &Vec<ParsedRequires>) -> (r: Vec<Predicate>)
    ensures
        preds(r@) == requires_exprs(rs@),
{
    let mut out: Vec<Predicate> = Vec::new();
    for i in 0..rs.len()
        invariant
            out@.len() == i,
            forall|k: int| 0 <= k < i ==> (#[trigger] out@[k]).0@ == requires_expr(rs@[k]),
    {
        out.push(Predicate(Expr::from_requires(&rs[i])));
    }
    proof {
        assert(preds(out@) =~= requires_exprs(rs@));
    }
    out
}

/// The kind of an account: a token or mint type first, then the flags, then
/// any other declared type.
pub open spec fn account_kind(a: ParsedHandlerAccount) -> AccountKind {
    let ty = opt_text(a.account_type);
    if ty == Some("token"@) {
        AccountKind::Token
    } else if ty == Some("mint"@) {
        AccountKind::Mint
    } else if a.is_program {
        AccountKind::Program
    } else if a.is_signer {
        AccountKind::Signer
    } else if a.pda_seeds is Some {
        AccountKind::Pda
    } else if ty is Some {
        AccountKind::TypedAccount
    } else {
        AccountKind::Plain
    }
}

/// A reference to an account by name, where there is one.
pub open spec fn refers_to(r: Option<AccountRef>, name: Option<String>) -> bool {
    match name {
        Some(n) => r == Some(AccountRef::ByBinding(n)),
        None => r is None,
    }
}

pub open spec fn lowered_account(a: ParsedHandlerAccount, out: AccountBindingShape) -> bool {
    &&& out.name == a.name
    &&& out.writable == a.is_writable
    &&& out.is_signer == a.is_signer
    &&& !out.init
    &&& out.is_program == a.is_program
    &&& out.kind == account_kind(a)
    &&& refers_to(out.authority, a.authority)
    &&& out.pda_ref is None
    &&& out.imported_namespace == a.imported_namespace
    &&& out.default_pubkey == a.default_pubkey
    &&& out.account_type == a.account_type
}

fn refer(o: &Option<String>) -> (r: Option<AccountRef>)
    ensures
        refers_to(r, *o),
{
    match o {
        Some(n) => Some(AccountRef::ByBinding(n.clone())),
        None => None,
    }
}

fn lower_account_binding(a: &ParsedHandlerAccount) -> (r: AccountBindingShape)
    ensures
        lowered_account(*a, r),
{
    let is_token: bool = match &a.account_type {
        Some(t) => same(t, "token"),
        None => false,
    };
    let is_mint: bool = match &a.account_type {
        Some(t) => same(t, "mint"),
        None => false,
    };
    let kind = if is_token {
        AccountKind::Token
    } else if is_mint {
        AccountKind::Mint
    } else if a.is_program {
        AccountKind::Program
    } else if a.is_signer {
        AccountKind::Signer
    } else if a.pda_seeds.is_some() {
        AccountKind::Pda
    } else if a.account_type.is_some() {
        AccountKind::TypedAccount
    } else {
        AccountKind::Plain
    };
    AccountBindingShape {
        name: a.name.clone(),
        writable: a.is_writable,
        is_signer: a.is_signer,
        init: false,
        is_program: a.is_program,
        kind,
        authority: refer(&a.authority),
        pda_ref: None,
        imported_namespace: copy_opt(&a.imported_namespace),
        default_pubkey: copy_opt(&a.default_pubkey),
        account_type: copy_opt(&a.account_type),
    }
}

pub open spec fn lowered_account_list(
    src: Seq<ParsedHandlerAccount>,
    out: Seq<AccountBindingShape>,
) -> bool {
    out.len() == src.len() && forall|i: int|
        0 <= i < src.len() ==> lowered_account(#[trigger] src[i], #[trigger] out[i])
}

fn lower_account_list(src: &Vec<ParsedHandlerAccount>) -> (r: Vec<AccountBindingShape>)
    ensures
        lowered_account_list(src@, r@),
{
    let mut out: Vec<AccountBindingShape> = Vec::new();
    for i in 0..src.len()
        invariant
            out@.len() == i,
            forall|k: int| 0 <= k < i ==> lowered_account(#[trigger] src@[k], #[trigger] out@[k]),
    {
        out.push(lower_account_binding(&src[i]));
    }
    out
}

// ---------------------------------------------------------------------------
// Bodies
// ---------------------------------------------------------------------------

/// A statement, with its names and expressions as text. `Control` stands for
/// the kinds that lowering does not make.
pub enum StmtV {
    RequireOrAbort { pred: ExprV, err: Seq<char> },
    TokenTransfer {
        from: Option<Seq<char>>,
        to: Option<Seq<char>>,
        amount: ExprV,
        authority: Option<Option<Seq<char>>>,
    },
    Assign { path: Seq<Seq<char>>, rhs: ExprV },
    CheckedAdd { path: Seq<Seq<char>>, delta: ExprV, err: Seq<char> },
    CheckedSub { path: Seq<Seq<char>>, delta: ExprV, err: Seq<char> },
    WrapAdd { path: Seq<Seq<char>>, delta: ExprV },
    WrapSub { path: Seq<Seq<char>>, delta: ExprV },
    SatAdd { path: Seq<Seq<char>>, delta: ExprV },
    SatSub { path: Seq<Seq<char>>, delta: ExprV },
    Abort(Seq<char>),
    Cpi {
        target: Seq<char>,
        method: Seq<char>,
        args: Seq<(Seq<char>, ExprV)>,
        state_binders: Seq<(Seq<char>, Seq<Seq<char>>)>,
        result_binding: Option<Seq<char>>,
    },
    Emit(Seq<char>),
    Control(Stmt),
}

/// The arguments of a call.
pub open spec fn args_view(args: Seq<CallArg>) -> Seq<(Seq<char>, ExprV)> {
    Seq::new(args.len(), |i: int| (args[i].name@, args[i].value@))
}

/// The state binders of a call.
pub open spec fn binders_view(bs: Seq<StateBinder>) -> Seq<(Seq<char>, Seq<Seq<char>>)> {
    Seq::new(bs.len(), |i: int| (bs[i].callee_field@, bs[i].caller_projection@))
}

pub open spec fn stmt_view(s: Stmt) -> StmtV {
    match s {
        Stmt::RequireOrAbort { pred, err } => StmtV::RequireOrAbort { pred: pred.0@, err: err@ },
        Stmt::TokenTransfer { from, to, amount, authority } => StmtV::TokenTransfer {
            from: account_name(from),
            to: account_name(to),
            amount: amount@,
            authority: match authority {
                Some(a) => Some(account_name(a)),
                None => None,
            },
        },
        Stmt::Assign { path, rhs } => StmtV::Assign { path: path@, rhs: rhs@ },
        Stmt::CheckedAdd { path, delta, err } => StmtV::CheckedAdd {
            path: path@,
            delta: delta@,
            err: err@,
        },
        Stmt::CheckedSub { path, delta, err } => StmtV::CheckedSub {
            path: path@,
            delta: delta@,
            err: err@,
        },
        Stmt::WrapAdd { path, delta } => StmtV::WrapAdd { path: path@, delta: delta@ },
        Stmt::WrapSub { path, delta } => StmtV::WrapSub { path: path@, delta: delta@ },
        Stmt::SatAdd { path, delta } => StmtV::SatAdd { path: path@, delta: delta@ },
        Stmt::SatSub { path, delta } => StmtV::SatSub { path: path@, delta: delta@ },
        Stmt::Abort(err) => StmtV::Abort(err@),
        Stmt::Cpi { target, method, args, state_binders, result_binding } => StmtV::Cpi {
            target: target.0@,
            method: method.0@,
            args: args_view(args@),
            state_binders: binders_view(state_binders@),
            result_binding: opt_text(result_binding),
        },
        Stmt::Emit { event } => StmtV::Emit(event@),
        Stmt::VariantPromote { .. } => StmtV::Control(s),
        Stmt::Branch { .. } => StmtV::Control(s),
    }
}

pub open spec fn stmts_view(ss: Seq<Stmt>) -> Seq<StmtV> {
    Seq::new(ss.len(), |i: int| stmt_view(ss[i]))
}

/// One check for each of the first `n` preconditions that names an error.
pub open spec fn require_stmts(rs: Seq<ParsedRequires>, n: nat) -> Seq<StmtV>
    decreases n,
{
    if n == 0 {
        Seq::empty()
    } else {
        let before = require_stmts(rs, (n - 1) as nat);
        match rs[n - 1].error_name {
            Some(err) => before.push(
                StmtV::RequireOrAbort { pred: requires_expr(rs[n - 1]), err: err@ },
            ),
            None => before,
        }
    }
}

/// One abort for each `aborts_if`.
pub open spec fn abort_stmts(abs: Seq<ParsedAbortsIf>) -> Seq<StmtV> {
    Seq::new(abs.len(), |i: int| StmtV::Abort(abs[i].error_name@))
}

/// The error that a checked effect names, or the default.
pub open spec fn effect_error(
    on_error: Seq<Option<String>>,
    i: int,
    default: Seq<char>,
) -> Seq<char> {
    if 0 <= i < on_error.len() && on_error[i] is Some {
        on_error[i]->0@
    } else {
        default
    }
}

/// The statement for the effect at `i`: by the kind of update. An unknown kind
/// becomes an assignment whose text carries a marker.
pub open spec fn effect_stmt(
    effects: Seq<(String, String, String)>,
    on_error: Seq<Option<String>>,
    i: int,
) -> StmtV {
    let path = split_text(effects[i].0@, '.');
    let kind = effects[i].1@;
    let value = effects[i].2@;
    if kind == "set"@ {
        StmtV::Assign { path, rhs: raw_expr(value) }
    } else if kind == "add"@ {
        StmtV::CheckedAdd {
            path,
            delta: raw_expr(value),
            err: effect_error(on_error, i, "Overflow"@),
        }
    } else if kind == "sub"@ {
        StmtV::CheckedSub {
            path,
            delta: raw_expr(value),
            err: effect_error(on_error, i, "Underflow"@),
        }
    } else if kind == "add_wrap"@ {
        StmtV::WrapAdd { path, delta: raw_expr(value) }
    } else if kind == "sub_wrap"@ {
        StmtV::WrapSub { path, delta: raw_expr(value) }
    } else if kind == "add_sat"@ {
        StmtV::SatAdd { path, delta: raw_expr(value) }
    } else if kind == "sub_sat"@ {
        StmtV::SatSub { path, delta: raw_expr(value) }
    } else {
        StmtV::Assign {
            path,
            rhs: raw_expr("/* MIR-TODO: unknown op_kind `"@ + kind + "` */ "@ + value),
        }
    }
}

/// One statement for each effect.
pub open spec fn effect_stmts(
    effects: Seq<(String, String, String)>,
    on_error: Seq<Option<String>>,
) -> Seq<StmtV> {
    Seq::new(effects.len(), |i: int| effect_stmt(effects, on_error, i))
}

/// The statement for a transfer; without an amount its expression is empty.
pub open spec fn transfer_stmt(t: ParsedTransfer) -> StmtV {
    StmtV::TokenTransfer {
        from: Some(t.from@),
        to: Some(t.to@),
        amount: match t.amount {
            Some(a) => raw_expr(a@),
            None => empty_expr(),
        },
        authority: match t.authority {
            Some(a) => Some(Some(a@)),
            None => None,
        },
    }
}

pub open spec fn transfer_stmts(ts: Seq<ParsedTransfer>) -> Seq<StmtV> {
    Seq::new(ts.len(), |i: int| transfer_stmt(ts[i]))
}

/// The arguments of a call, as text.
pub open spec fn parsed_args(args: Seq<ParsedCallArg>) -> Seq<(Seq<char>, ExprV)> {
    Seq::new(
        args.len(),
        |i: int|
            (
                args[i].name@,
                ExprV {
                    lean: args[i].lean_expr@,
                    rust: args[i].rust_expr@,
                    rust_pod: args[i].rust_expr_pod@,
                    rust_binary: Seq::empty(),
                    source_span: None,
                },
            ),
    )
}

/// The state binders of a call, each with a path of one segment.
pub open spec fn parsed_binders(bs: Seq<ParsedStateBinder>) -> Seq<(Seq<char>, Seq<Seq<char>>)> {
    Seq::new(bs.len(), |i: int| (bs[i].callee_field@, seq![bs[i].caller_field@]))
}

pub open spec fn call_stmt(c: ParsedCall) -> StmtV {
    StmtV::Cpi {
        target: c.target_interface@,
        method: c.target_handler@,
        args: parsed_args(c.args@),
        state_binders: parsed_binders(c.state_binders@),
        result_binding: opt_text(c.result_binding),
    }
}

pub open spec fn call_stmts(cs: Seq<ParsedCall>) -> Seq<StmtV> {
    Seq::new(cs.len(), |i: int| call_stmt(cs[i]))
}

pub open spec fn emit_stmts(es: Seq<String>) -> Seq<StmtV> {
    Seq::new(es.len(), |i: int| StmtV::Emit(es[i]@))
}

/// The marker for conditional effects.
pub open spec fn branch_stmts(has_branches: bool) -> Seq<StmtV> {
    if has_branches {
        seq![StmtV::Abort("__MIR_TODO_PHASE_5_BRANCH_LOWERING__"@)]
    } else {
        Seq::empty()
    }
}

/// The body of a handler: checks, aborts, effects, transfers, calls and
/// events, in this order, each in the order of the spec.
pub open spec fn body_of(h: ParsedHandler) -> Seq<StmtV> {
    require_stmts(h.requires@, h.requires@.len()) + abort_stmts(h.aborts_if@) + effect_stmts(
        h.effects@,
        h.effect_on_error@,
    ) + transfer_stmts(h.transfers@) + call_stmts(h.calls@) + emit_stmts(h.emits@) + branch_stmts(
        h.effect_branches,
    )
}

proof fn stmts_view_push(ss: Seq<Stmt>, s: Stmt)
    ensures
        stmts_view(ss.push(s)) == stmts_view(ss).push(stmt_view(s)),
{
    assert(stmts_view(ss.push(s)) =~= stmts_view(ss).push(stmt_view(s)));
}

fn push_requires(stmts: &mut Vec<Stmt>, rs: &Vec<ParsedRequires>)
    ensures
        stmts_view(final(stmts)@) == stmts_view(old(stmts)@) + require_stmts(
            rs@,
            rs@.len(),
        ),
{
    proof {
        assert(stmts_view(stmts@) + Seq::<StmtV>::empty() =~= stmts_view(stmts@));
    }
    for i in 0..rs.len()
        invariant
            stmts_view(stmts@) == stmts_view(old(stmts)@) + require_stmts(rs@, i as nat),
    {
        match &rs[i].error_name {
            Some(err) => {
                let s = Stmt::RequireOrAbort {
                    pred: Predicate(Expr::from_requires(&rs[i])),
                    err: err.clone(),
                };
                proof {
                    stmts_view_push(stmts@, s);
                    assert((stmts_view(old(stmts)@) + require_stmts(rs@, i as nat)).push(
                        stmt_view(s),
                    ) =~= stmts_view(old(stmts)@) + require_stmts(rs@, i as nat).push(
                        stmt_view(s),
                    ));
                }
                stmts.push(s);
            },
            None => {},
        }
    }
}

fn lower_effect(
    effects: &Vec<(String, String, String)>,
    on_error: &Vec<Option<String>>,
    i: usize,
) -> (r: Stmt)
    requires
        i < effects@.len(),
    ensures
        stmt_view(r) == effect_stmt(effects@, on_error@, i as int),
{
    let path = Path::parse(effects[i].0.as_str());
    let kind = effects[i].1.as_str();
    let value = effects[i].2.as_str();
    let named: Option<String> = if i < on_error.len() {
        copy_opt(&on_error[i])
    } else {
        None
    };
    if same(kind, "set") {
        Stmt::Assign { path, rhs: Expr::from_raw(value) }
    } else if same(kind, "add") {
        let err: String = match named {
            Some(e) => e,
            None => "Overflow".to_owned(),
        };
        Stmt::CheckedAdd { path, delta: Expr::from_raw(value), err }
    } else if same(kind, "sub") {
        let err: String = match named {
            Some(e) => e,
            None => "Underflow".to_owned(),
        };
        Stmt::CheckedSub { path, delta: Expr::from_raw(value), err }
    } else if same(kind, "add_wrap") {
        Stmt::WrapAdd { path, delta: Expr::from_raw(value) }
    } else if same(kind, "sub_wrap") {
        Stmt::WrapSub { path, delta: Expr::from_raw(value) }
    } else if same(kind, "add_sat") {
        Stmt::SatAdd { path, delta: Expr::from_raw(value) }
    } else if same(kind, "sub_sat") {
        Stmt::SatSub { path, delta: Expr::from_raw(value) }
    } else {
        let mut marked = "/* MIR-TODO: unknown op_kind `".to_owned();
        marked.push_str(kind);
        marked.push_str("` */ ");
        marked.push_str(value);
        Stmt::Assign { path, rhs: Expr::from_raw(marked.as_str()) }
    }
}

fn lower_transfer(tr: &ParsedTransfer) -> (r: Stmt)
    ensures
        stmt_view(r) == transfer_stmt(*tr),
{
    let amount: Expr = match &tr.amount {
        Some(a) => Expr::from_raw(a.as_str()),
        None => Expr::default(),
    };
    Stmt::TokenTransfer {
        from: AccountRef::ByBinding(tr.from.clone()),
        to: AccountRef::ByBinding(tr.to.clone()),
        amount,
        authority: refer(&tr.authority),
    }
}

fn lower_call(call: &ParsedCall) -> (r: Stmt)
    ensures
        stmt_view(r) == call_stmt(*call),
{
    let mut args: Vec<CallArg> = Vec::new();
    for i in 0..call.args.len()
        invariant
            args@.len() == i,
            forall|k: int|
                0 <= k < i ==> args_view(args@)[k] == #[trigger] parsed_args(call.args@)[k],
    {
        let a = &call.args[i];
        let ghost before = args@;
        args.push(
            CallArg {
                name: a.name.clone(),
                value: Expr {
                    lean: a.lean_expr.clone(),
                    rust: a.rust_expr.clone(),
                    rust_pod: a.rust_expr_pod.clone(),
                    rust_binary: String::new(),
                    source_span: None,
                },
            },
        );
        proof {
            assert forall|k: int| 0 <= k < i + 1 implies args_view(args@)[k]
                == #[trigger] parsed_args(call.args@)[k] by {
                if k < i {
                    assert(args_view(before)[k] == parsed_args(call.args@)[k]);
                }
            }
        }
    }
    let mut state_binders: Vec<StateBinder> = Vec::new();
    for i in 0..call.state_binders.len()
        invariant
            state_binders@.len() == i,
            forall|k: int|
                0 <= k < i ==> binders_view(state_binders@)[k] == #[trigger] parsed_binders(
                    call.state_binders@,
                )[k],
    {
        let b = &call.state_binders[i];
        let ghost before = state_binders@;
        state_binders.push(
            StateBinder {
                callee_field: b.callee_field.clone(),
                caller_projection: Path::single(b.caller_field.as_str()),
            },
        );
        proof {
            assert forall|k: int| 0 <= k < i + 1 implies binders_view(state_binders@)[k]
                == #[trigger] parsed_binders(call.state_binders@)[k] by {
                if k < i {
                    assert(binders_view(before)[k] == parsed_binders(call.state_binders@)[k]);
                }
            }
        }
    }
    proof {
        assert(args_view(args@) =~= parsed_args(call.args@));
        assert(binders_view(state_binders@) =~= parsed_binders(call.state_binders@));
    }
    Stmt::Cpi {
        target: InterfaceRef(call.target_interface.clone()),
        method: MethodRef(call.target_handler.clone()),
        args,
        state_binders,
        result_binding: copy_opt(&call.result_binding),
    }
}

/// Lowers the body of a handler.
fn lower_body(h: &ParsedHandler) -> (r: Block)
    ensures
        stmts_view(r.stmts@) == body_of(*h),
{
    let mut stmts: Vec<Stmt> = Vec::new();
    proof {
        assert(stmts_view(stmts@) =~= Seq::<StmtV>::empty());
    }
    push_requires(&mut stmts, &h.requires);
    proof {
        assert(Seq::<StmtV>::empty() + require_stmts(h.requires@, h.requires@.len())
            =~= require_stmts(h.requires@, h.requires@.len()));
    }
    let ghost base = stmts_view(stmts@);
    for i in 0..h.aborts_if.len()
        invariant
            stmts_view(stmts@) =~= base + abort_stmts(h.aborts_if@).take(i as int),
    {
        let s = Stmt::Abort(h.aborts_if[i].error_name.clone());
        proof {
            stmts_view_push(stmts@, s);
        }
        stmts.push(s);
    }
    proof {
        assert(abort_stmts(h.aborts_if@).take(h.aborts_if@.len() as int) =~= abort_stmts(
            h.aborts_if@,
        ));
    }
    let ghost base = stmts_view(stmts@);
    for i in 0..h.effects.len()
        invariant
            stmts_view(stmts@) =~= base + effect_stmts(h.effects@, h.effect_on_error@).take(
                i as int,
            ),
    {
        let s = lower_effect(&h.effects, &h.effect_on_error, i);
        proof {
            stmts_view_push(stmts@, s);
        }
        stmts.push(s);
    }
    proof {
        assert(effect_stmts(h.effects@, h.effect_on_error@).take(h.effects@.len() as int)
            =~= effect_stmts(h.effects@, h.effect_on_error@));
    }
    let ghost base = stmts_view(stmts@);
    for i in 0..h.transfers.len()
        invariant
            stmts_view(stmts@) =~= base + transfer_stmts(h.transfers@).take(i as int),
    {
        let s = lower_transfer(&h.transfers[i]);
        proof {
            stmts_view_push(stmts@, s);
        }
        stmts.push(s);
    }
    proof {
        assert(transfer_stmts(h.transfers@).take(h.transfers@.len() as int) =~= transfer_stmts(
            h.transfers@,
        ));
    }
    let ghost base = stmts_view(stmts@);
    for i in 0..h.calls.len()
        invariant
            stmts_view(stmts@) =~= base + call_stmts(h.calls@).take(i as int),
    {
        let s = lower_call(&h.calls[i]);
        proof {
            stmts_view_push(stmts@, s);
        }
        stmts.push(s);
    }
    proof {
        assert(call_stmts(h.calls@).take(h.calls@.len() as int) =~= call_stmts(h.calls@));
    }
    let ghost base = stmts_view(stmts@);
    for i in 0..h.emits.len()
        invariant
            stmts_view(stmts@) =~= base + emit_stmts(h.emits@).take(i as int),
    {
        let s = Stmt::Emit { event: h.emits[i].clone() };
        proof {
            stmts_view_push(stmts@, s);
        }
        stmts.push(s);
    }
    proof {
        assert(emit_stmts(h.emits@).take(h.emits@.len() as int) =~= emit_stmts(h.emits@));
    }
    let ghost base = stmts_view(stmts@);
    if h.effect_branches {
        let s = Stmt::Abort("__MIR_TODO_PHASE_5_BRANCH_LOWERING__".to_owned());
        proof {
            stmts_view_push(stmts@, s);
        }
        stmts.push(s);
        proof {
            assert(stmts_view(stmts@) =~= base + branch_stmts(true));
        }
    } else {
        proof {
            assert(stmts_view(stmts@) =~= base + branch_stmts(false));
        }
    }
    Block { stmts }
}

/// The clauses of a list of `aborts_if`.
pub open spec fn lowered_aborts(src: Seq<ParsedAbortsIf>, out: Seq<AbortClause>) -> bool {
    out.len() == src.len() && forall|i: int|
        0 <= i < src.len() ==> lowered_abort(#[trigger] src[i], #[trigger] out[i])
}

pub open spec fn lowered_abort(src: ParsedAbortsIf, out: AbortClause) -> bool {
    &&& out.err == src.error_name
    &&& out.pred.0@ == (ExprV {
        lean: src.lean_expr@,
        rust: src.rust_expr@,
        rust_pod: src.rust_expr_pod@,
        rust_binary: Seq::empty(),
        source_span: None,
    })
}

fn lower_aborts(src: &Vec<ParsedAbortsIf>) -> (r: Vec<AbortClause>)
    ensures
        lowered_aborts(src@, r@),
{
    let mut out: Vec<AbortClause> = Vec::new();
    for i in 0..src.len()
        invariant
            out@.len() == i,
            forall|k: int| 0 <= k < i ==> lowered_abort(#[trigger] src@[k], #[trigger] out@[k]),
    {
        let a = &src[i];
        out.push(
            AbortClause {
                pred: Predicate(
                    Expr {
                        lean: a.lean_expr.clone(),
                        rust: a.rust_expr.clone(),
                        rust_pod: a.rust_expr_pod.clone(),
                        rust_binary: String::new(),
                        source_span: None,
                    },
                ),
                err: a.error_name.clone(),
            },
        );
    }
    out
}

/// The lifecycle transition, where both ends are given.
pub open spec fn lowered_transition(h: ParsedHandler, t: Option<(Symbol, Symbol)>) -> bool {
    match (h.pre_status, h.post_status) {
        (Some(pre), Some(post)) => t == Some((pre, post)),
        _ => t is None,
    }
}

/// The account that must sign, where the handler names one.
pub open spec fn lowered_auth(who: Option<String>, auth: Option<AccountOrField>) -> bool {
    match who {
        Some(w) => auth == Some(AccountOrField::Account(AccountRef::ByBinding(w))),
        None => auth is None,
    }
}

/// The frame: one path of one segment for each field.
pub open spec fn lowered_modifies(m: Option<Vec<String>>, out: Option<Vec<Path>>) -> bool {
    match m {
        Some(fields) => out is Some && out->0@.len() == fields@.len() && forall|i: int|
            0 <= i < fields@.len() ==> (#[trigger] out->0@[i])@ == seq![
                (#[trigger] fields@[i])@,
            ],
        None => out is None,
    }
}

fn lower_modifies(m: &Option<Vec<String>>) -> (r: Option<Vec<Path>>)
    ensures
        lowered_modifies(*m, r),
{
    match m {
        Some(fields) => {
            let mut out: Vec<Path> = Vec::new();
            for i in 0..fields.len()
                invariant
                    out@.len() == i,
                    forall|k: int|
                        0 <= k < i ==> (#[trigger] out@[k])@ == seq![(#[trigger] fields@[k])@],
            {
                out.push(Path::single(fields[i].as_str()));
            }
            Some(out)
        },
        None => None,
    }
}

/// A handler.
pub open spec fn lowered_handler(src: ParsedHandler, out: HandlerMir) -> bool {
    &&& out.name == src.name
    &&& out.doc == src.doc
    &&& out.on_account == src.on_account
    &&& out.discriminant is None
    &&& lowered_params(src.takes_params@, out.params@)
    &&& lowered_account_list(src.accounts@, out.accounts@)
    &&& lowered_auth(src.who, out.auth)
    &&& out.permissionless == src.permissionless
    &&& lowered_transition(src, out.transition)
    &&& preds(out.pre@) == silent_requires(src.requires@, src.requires@.len())
    &&& clauses(out.requires_or_abort@) == checked_requires(src.requires@, src.requires@.len())
    &&& preds(out.requires_in_order@) == requires_exprs(src.requires@)
    &&& lowered_aborts(src.aborts_if@, out.aborts_if@)
    &&& stmts_view(out.body.stmts@) == body_of(src)
    &&& lowered_ensures(src.ensures@, out.post@)
    &&& lowered_modifies(src.modifies, out.modifies)
    &&& out.emits@ == src.emits@
    &&& out.invariants@ == src.invariants@
    &&& out.establishes@ == src.establishes@
    &&& out.abstract_binders@ == src.abstract_binders@
    &&& out.aborts_total == src.aborts_total
}

fn lower_handler(h: &ParsedHandler) -> (r: HandlerMir)
    ensures
        lowered_handler(*h, r),
{
    let transition: Option<(Symbol, Symbol)> = match (&h.pre_status, &h.post_status) {
        (Some(pre), Some(post)) => Some((pre.clone(), post.clone())),
        _ => None,
    };
    let auth: Option<AccountOrField> = match &h.who {
        Some(w) => Some(AccountOrField::Account(AccountRef::ByBinding(w.clone()))),
        None => None,
    };
    let (pre, requires_or_abort) = split_requires(&h.requires);
    HandlerMir {
        name: h.name.clone(),
        doc: copy_opt(&h.doc),
        on_account: copy_opt(&h.on_account),
        discriminant: None,
        params: lower_params(&h.takes_params),
        accounts: lower_account_list(&h.accounts),
        auth,
        permissionless: h.permissionless,
        transition,
        pre,
        requires_or_abort,
        requires_in_order: requires_in_order(&h.requires),
        aborts_if: lower_aborts(&h.aborts_if),
        body: lower_body(h),
        post: lower_ensures(&h.ensures),
        modifies: lower_modifies(&h.modifies),
        emits: copy_strings(&h.emits),
        invariants: copy_strings(&h.invariants),
        establishes: copy_strings(&h.establishes),
        abstract_binders: copy_pairs(&h.abstract_binders),
        aborts_total: h.aborts_total,
    }
}

pub open spec fn lowered_handlers(src: Seq<ParsedHandler>, out: Seq<HandlerMir>) -> bool {
    out.len() == src.len() && forall|i: int|
        0 <= i < src.len() ==> lowered_handler(#[trigger] src[i], #[trigger] out[i])
}

fn lower_handlers(src: &Vec<ParsedHandler>) -> (r: Vec<HandlerMir>)
    ensures
        lowered_handlers(src@, r@),
{
    let mut out: Vec<HandlerMir> = Vec::new();
    for i in 0..src.len()
        invariant
            out@.len() == i,
            forall|k: int| 0 <= k < i ==> lowered_handler(#[trigger] src@[k], #[trigger] out@[k]),
    {
        out.push(lower_handler(&src[i]));
    }
    out
}

/// What lowering makes of a spec.
pub open spec fn lowered(spec: ParsedSpec, mir: Mir) -> bool {
    &&& mir.name == spec.program_name
    &&& lowered_state(spec.account_types@, mir.state)
    &&& lowered_account_states(spec.account_types@, mir.account_states@)
    &&& lowered_accounts(spec.pdas@, mir.accounts)
    &&& mir.errors.variants@ == spec.error_codes@
    &&& lowered_imports(spec, mir.imports@)
    &&& lowered_handlers(spec.handlers@, mir.handlers@)
    &&& lowered_invariants(spec.invariants@, mir.invariants@)
    &&& lowered_events(spec.events@, mir.events@)
    &&& mir.constants@ == spec.constants@
    &&& lowered_helpers(spec.uninterpreted_helpers@, mir.uninterpreted_helpers@)
    &&& lowered_ref_impls(spec.ref_impls@, mir.ref_impls@)
    &&& lowered_properties(spec.properties@, mir.properties@)
    &&& lowered_covers(spec.covers@, mir.covers@)
    &&& lowered_liveness(spec.liveness_props@, mir.liveness_props@)
    &&& lowered_environments(spec.environments@, mir.environments@)
    &&& same_records(spec.records@, mir.records@)
    &&& mir.is_assembly == spec.assembly_target
    &&& mir.adt_state == spec.asks_adt()
}

/// Lowers a parsed spec. Nothing of what the spec means is lost: `transfers`
/// blocks and preconditions with an error become statements.
pub fn lower(parsed: &ParsedSpec) -> (r: Mir)
    ensures
        lowered(*parsed, r),
{
    Mir {
        name: parsed.program_name.clone(),
        state: lower_state(&parsed.account_types),
        account_states: lower_account_states(&parsed.account_types),
        accounts: lower_account_table(&parsed.pdas),
        errors: ErrorEnum { variants: copy_strings(&parsed.error_codes) },
        imports: lower_imports(parsed),
        handlers: lower_handlers(&parsed.handlers),
        invariants: lower_invariants(&parsed.invariants),
        events: lower_events(&parsed.events),
        constants: copy_pairs(&parsed.constants),
        uninterpreted_helpers: lower_helpers(&parsed.uninterpreted_helpers),
        ref_impls: lower_ref_impls(&parsed.ref_impls),
        properties: lower_properties(&parsed.properties),
        covers: lower_covers(&parsed.covers),
        liveness_props: lower_liveness(&parsed.liveness_props),
        environments: lower_environments(&parsed.environments),
        records: copy_records(&parsed.records),
        is_assembly: parsed.is_assembly_target(),
        adt_state: parsed.state_repr_is_adt(),
    }
}

/// Lowering keeps the handlers: as many, with the same names, in the same order.
pub proof fn lowering_keeps_handlers(spec: ParsedSpec, mir: Mir)
    requires
        lowered(spec, mir),
    ensures
        mir.handlers@.len() == spec.handlers@.len(),
        forall|i: int|
            0 <= i < spec.handlers@.len() ==> (#[trigger] mir.handlers@[i]).name
                == spec.handlers@[i].name,
{
    assert forall|i: int| 0 <= i < spec.handlers@.len() implies (#[trigger] mir.handlers@[i]).name
        == spec.handlers@[i].name by {
        assert(lowered_handler(spec.handlers@[i], mir.handlers@[i]));
    }
}

} // verus!
