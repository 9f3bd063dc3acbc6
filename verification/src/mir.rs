//! The intermediate representation between the parsed spec and the code
//! generators: typed at the level of statements, with expressions as text that
//! is already rendered for each target.
use vstd::prelude::*;

use crate::names::NameMap;
use crate::parsed::{
    ParsedAccountType, ParsedEnsures, ParsedRecordType, ParsedRequires, ParsedUpstream,
};
use crate::search::{
    char_at_or_after, find_char_from, lemma_char_at_or_after, stands_at, starts_with_text,
};
use crate::split::{split, split_text, trim, trim_end_text, trim_start_text, trim_text};
use crate::text::{chars_of, same, slice_text, texts};

pub use crate::lower::lower;

verus! {

broadcast use {crate::text::group_text, crate::text::texts_index, crate::text::texts_len};

// ---------------------------------------------------------------------------
// Top level
// ---------------------------------------------------------------------------

/// The representation of one program.
#[derive(Debug)]
pub struct Mir {
    pub name: Symbol,
    /// The variants of the state of the first account type.
    pub state: StateAdt,
    /// The state of every account type, in the order of declaration.
    pub account_states: Vec<AccountStateMir>,
    pub accounts: AccountTable,
    pub errors: ErrorEnum,
    /// Imported specs and inline interfaces, by local alias.
    pub imports: NameMap<ImportedSpecMir>,
    pub handlers: Vec<HandlerMir>,
    pub invariants: Vec<InvariantMir>,
    pub events: Vec<EventDecl>,
    /// Names and values of the `const` declarations.
    pub constants: Vec<(Symbol, String)>,
    pub uninterpreted_helpers: Vec<UninterpretedHelper>,
    pub ref_impls: Vec<RefImpl>,
    pub properties: Vec<PropertyMir>,
    pub covers: Vec<CoverMir>,
    pub liveness_props: Vec<LivenessMir>,
    pub environments: Vec<EnvironmentMir>,
    pub records: Vec<ParsedRecordType>,
    /// Whether the spec targets sBPF assembly.
    pub is_assembly: bool,
    /// Whether the state is rendered as an inductive type.
    pub adt_state: bool,
}

/// A name.
pub type Symbol = String;

pub type VariantTag = Symbol;

pub type ErrorRef = Symbol;

pub type EventRef = Symbol;

// ---------------------------------------------------------------------------
// State
// ---------------------------------------------------------------------------

#[derive(Debug)]
pub struct StateAdt {
    pub variants: Vec<StateVariant>,
    pub lifecycle_states: Vec<Symbol>,
}

impl Default for StateAdt {
    fn default() -> (r: Self)
        ensures
            r.variants@.len() == 0,
            r.lifecycle_states@.len() == 0,
    {
        StateAdt { variants: Vec::new(), lifecycle_states: Vec::new() }
    }
}

#[derive(Debug)]
pub struct StateVariant {
    pub tag: VariantTag,
    pub fields: Vec<FieldDecl>,
}

#[derive(Debug)]
pub struct FieldDecl {
    pub name: Symbol,
    pub ty: Ty,
}

/// The state of one account type of a spec that declares several.
#[derive(Debug)]
pub struct AccountStateMir {
    pub name: Symbol,
    pub fields: Vec<FieldDecl>,
    pub variants: Vec<StateVariant>,
    pub lifecycle_states: Vec<Symbol>,
}

// ---------------------------------------------------------------------------
// Accounts
// ---------------------------------------------------------------------------

#[derive(Debug)]
pub struct AccountTable {
    /// The top-level `pda` declarations.
    pub pdas: NameMap<PdaDeclaration>,
    /// Account shapes that handlers share.
    pub spec_level_bindings: NameMap<AccountBindingShape>,
}

impl Default for AccountTable {
    fn default() -> (r: Self)
        ensures
            r.pdas@.len() == 0,
            r.spec_level_bindings@.len() == 0,
    {
        AccountTable { pdas: NameMap::new(), spec_level_bindings: NameMap::new() }
    }
}

#[derive(Debug)]
pub struct PdaDeclaration {
    pub name: Symbol,
    pub seeds: Vec<Expr>,
}

#[derive(Debug)]
pub struct AccountBindingShape {
    pub name: Symbol,
    pub writable: bool,
    pub is_signer: bool,
    pub init: bool,
    pub is_program: bool,
    pub kind: AccountKind,
    pub authority: Option<AccountRef>,
    /// The top-level `pda` that the account derives from.
    pub pda_ref: Option<Symbol>,
    pub imported_namespace: Option<Symbol>,
    pub default_pubkey: Option<String>,
    pub account_type: Option<Symbol>,
}

#[derive(Debug, Clone, Copy, PartialEq, Eq, Structural)]
pub enum AccountKind {
    Signer,
    Token,
    Mint,
    Program,
    Pda,
    TypedAccount,
    Plain,
}

// ---------------------------------------------------------------------------
// Handlers
// ---------------------------------------------------------------------------

#[derive(Debug)]
pub struct HandlerMir {
    pub name: Symbol,
    pub doc: Option<String>,
    /// The account type that the handler works on, where the spec has several.
    pub on_account: Option<Symbol>,
    pub discriminant: Option<Vec<u8>>,
    pub params: Vec<(Symbol, Ty)>,
    pub accounts: Vec<AccountBindingShape>,
    pub auth: Option<AccountOrField>,
    pub permissionless: bool,
    /// The lifecycle transition, from one variant to another.
    pub transition: Option<(VariantTag, VariantTag)>,
    /// The preconditions that name no error.
    pub pre: Vec<Predicate>,
    /// The preconditions that name an error.
    pub requires_or_abort: Vec<RequireOrAbortClause>,
    /// All preconditions, in the order of the spec.
    pub requires_in_order: Vec<Predicate>,
    pub aborts_if: Vec<AbortClause>,
    pub body: Block,
    pub post: Vec<Predicate>,
    /// The fields that may change; `None` where the spec does not say.
    pub modifies: Option<Vec<Path>>,
    pub emits: Vec<Symbol>,
    pub invariants: Vec<Symbol>,
    pub establishes: Vec<Symbol>,
    pub abstract_binders: Vec<(Symbol, String)>,
    pub aborts_total: bool,
}

#[derive(Debug)]
pub struct RequireOrAbortClause {
    pub pred: Predicate,
    pub err: ErrorRef,
}

/// `aborts_if`: the handler aborts where the predicate holds.
#[derive(Debug)]
pub struct AbortClause {
    pub pred: Predicate,
    pub err: ErrorRef,
}

// ---------------------------------------------------------------------------
// Statements
// ---------------------------------------------------------------------------

#[derive(Debug)]
pub struct Block {
    pub stmts: Vec<Stmt>,
}

impl Default for Block {
    fn default() -> (r: Self)
        ensures
            r.stmts@.len() == 0,
    {
        Block { stmts: Vec::new() }
    }
}

#[derive(Debug)]
pub enum Stmt {
    /// `requires pred else err`.
    RequireOrAbort { pred: Predicate, err: ErrorRef },
    /// A token transfer; without an authority it has no envelope theorem.
    TokenTransfer {
        from: AccountRef,
        to: AccountRef,
        amount: Expr,
        authority: Option<AccountRef>,
    },
    /// Promotion to another variant, with its payload.
    VariantPromote { from_tag: VariantTag, to_tag: VariantTag, payload: Vec<(Symbol, Expr)> },
    Assign { path: Path, rhs: Expr },
    CheckedAdd { path: Path, delta: Expr, err: ErrorRef },
    CheckedSub { path: Path, delta: Expr, err: ErrorRef },
    WrapAdd { path: Path, delta: Expr },
    WrapSub { path: Path, delta: Expr },
    SatAdd { path: Path, delta: Expr },
    SatSub { path: Path, delta: Expr },
    /// Conditional effects.
    Branch { scrutinee: BranchScrutinee, arms: Vec<BranchArm>, default: Option<Block> },
    Abort(ErrorRef),
    /// A call of an interface's handler.
    Cpi {
        target: InterfaceRef,
        method: MethodRef,
        args: Vec<CallArg>,
        state_binders: Vec<StateBinder>,
        result_binding: Option<Symbol>,
    },
    Emit { event: Symbol },
}

#[derive(Debug)]
pub enum BranchScrutinee {
    Predicate(Predicate),
    Match(Expr),
}

#[derive(Debug)]
pub struct BranchArm {
    pub pattern: Option<Expr>,
    pub block: Block,
}

#[derive(Debug)]
pub struct CallArg {
    pub name: Symbol,
    pub value: Expr,
}

// ---------------------------------------------------------------------------
// Expressions
// ---------------------------------------------------------------------------

/// An expression, rendered for each target.
#[derive(Debug)]
pub struct Expr {
    pub lean: String,
    pub rust: String,
    pub rust_pod: String,
    /// The form of a postcondition that tells the states before and after
    /// apart; empty elsewhere.
    pub rust_binary: String,
    pub source_span: Option<SourceSpan>,
}

#[derive(Debug)]
pub struct Predicate(pub Expr);

#[derive(Debug)]
pub struct SourceSpan {
    pub start: usize,
    pub end: usize,
}

/// The text of an expression for each target.
pub struct ExprV {
    pub lean: Seq<char>,
    pub rust: Seq<char>,
    pub rust_pod: Seq<char>,
    pub rust_binary: Seq<char>,
    pub source_span: Option<SourceSpan>,
}

impl View for Expr {
    type V = ExprV;

    open spec fn view(&self) -> ExprV {
        ExprV {
            lean: self.lean@,
            rust: self.rust@,
            rust_pod: self.rust_pod@,
            rust_binary: self.rust_binary@,
            source_span: self.source_span,
        }
    }
}

/// An expression of which only one form is known. It is held as Rust.
pub open spec fn raw_expr(s: Seq<char>) -> ExprV {
    ExprV {
        lean: Seq::empty(),
        rust: s,
        rust_pod: Seq::empty(),
        rust_binary: Seq::empty(),
        source_span: None,
    }
}

/// What an expression reads in Lean: its own form, or the Rust form where that
/// is the one that is known.
pub open spec fn lean_of(e: Expr) -> Seq<char> {
    if e.lean@.len() > 0 {
        e.lean@
    } else {
        e.rust@
    }
}

/// The expression of a precondition.
pub open spec fn requires_expr(r: ParsedRequires) -> ExprV {
    ExprV {
        lean: r.lean_expr@,
        rust: r.rust_expr@,
        rust_pod: r.rust_expr_pod@,
        rust_binary: Seq::empty(),
        source_span: None,
    }
}

/// The expression of a postcondition.
pub open spec fn ensures_expr(e: ParsedEnsures) -> ExprV {
    ExprV {
        lean: e.lean_expr@,
        rust: e.rust_expr@,
        rust_pod: e.rust_expr_pod@,
        rust_binary: e.rust_expr_binary@,
        source_span: None,
    }
}

/// The expression that holds no text.
pub open spec fn empty_expr() -> ExprV {
    raw_expr(Seq::empty())
}

impl Default for Expr {
    fn default() -> (r: Self)
        ensures
            r@ == empty_expr(),
    {
        Expr {
            lean: String::new(),
            rust: String::new(),
            rust_pod: String::new(),
            rust_binary: String::new(),
            source_span: None,
        }
    }
}

impl Expr {
    /// The expression of a precondition: all forms but the binary one.
    pub fn from_requires(req: &ParsedRequires) -> (r: Self)
        ensures
            r@ == requires_expr(*req),
    {
        Expr {
            lean: req.lean_expr.clone(),
            rust: req.rust_expr.clone(),
            rust_pod: req.rust_expr_pod.clone(),
            rust_binary: String::new(),
            source_span: None,
        }
    }

    /// The expression of a postcondition, in all forms.
    pub fn from_ensures(ens: &ParsedEnsures) -> (r: Self)
        ensures
            r@ == ensures_expr(*ens),
    {
        Expr {
            lean: ens.lean_expr.clone(),
            rust: ens.rust_expr.clone(),
            rust_pod: ens.rust_expr_pod.clone(),
            rust_binary: ens.rust_expr_binary.clone(),
            source_span: None,
        }
    }

    /// An expression of which only one form is known, held as Rust. Whoever
    /// needs another form makes it from this one.
    pub fn from_raw(s: &str) -> (r: Self)
        ensures
            r@ == raw_expr(s@),
    {
        Expr {
            lean: String::new(),
            rust: s.to_owned(),
            rust_pod: String::new(),
            rust_binary: String::new(),
            source_span: None,
        }
    }

    /// What the expression reads in Lean.
    pub fn lean_form(&self) -> (r: &String)
        ensures
            r@ == lean_of(*self),
    {
        if self.lean.as_str().is_empty() {
            &self.rust
        } else {
            &self.lean
        }
    }
}

// ---------------------------------------------------------------------------
// Declarations
// ---------------------------------------------------------------------------

#[derive(Debug)]
pub struct InvariantMir {
    pub name: Symbol,
    pub doc: String,
    /// `None` where the spec only describes the invariant.
    pub body: Option<Predicate>,
}

#[derive(Debug)]
pub struct ErrorEnum {
    pub variants: Vec<Symbol>,
}

impl Default for ErrorEnum {
    fn default() -> (r: Self)
        ensures
            r.variants@.len() == 0,
    {
        ErrorEnum { variants: Vec::new() }
    }
}

#[derive(Debug)]
pub struct EventDecl {
    pub name: Symbol,
    pub fields: Vec<FieldDecl>,
}

/// A function of which only the signature is known.
#[derive(Debug)]
pub struct UninterpretedHelper {
    pub name: Symbol,
    pub arg_types: Vec<String>,
    pub return_type: String,
}

#[derive(Debug)]
pub struct PropertyMir {
    pub name: Symbol,
    pub expression: Option<Expr>,
    pub preserved_by: Vec<Symbol>,
}

#[derive(Debug)]
pub struct CoverMir {
    pub name: Symbol,
    /// Sequences of handlers to run from an initial state.
    pub traces: Vec<Vec<Symbol>>,
    /// Handlers that can run, each with a predicate on the state.
    pub reachable: Vec<(Symbol, Option<Predicate>)>,
}

#[derive(Debug)]
pub struct LivenessMir {
    pub name: Symbol,
    pub from_state: Symbol,
    pub leads_to_state: Symbol,
    pub via_ops: Vec<Symbol>,
    pub within_steps: Option<u64>,
}

#[derive(Debug)]
pub struct EnvironmentMir {
    pub name: Symbol,
    pub mutates: Vec<(Symbol, Ty)>,
    pub constraints: Vec<Predicate>,
}

#[derive(Debug)]
pub struct RefImpl {
    pub name: Symbol,
    pub doc: Option<String>,
    pub params: Vec<(Symbol, String)>,
    pub return_type: String,
    pub lean_body: String,
    pub rust_body: String,
}

#[derive(Debug)]
pub struct InterfaceDecl {
    pub name: Symbol,
    pub program_id: Option<Symbol>,
    pub methods: NameMap<InterfaceMethod>,
}

#[derive(Debug)]
pub struct InterfaceMethod {
    pub name: Symbol,
    pub params: Vec<(Symbol, Ty)>,
    pub ensures: Vec<Predicate>,
    /// The abstract state of the interface.
    pub state_fields: Vec<(Symbol, Ty)>,
    /// The name of the returned value in the postconditions.
    pub result_binder: Option<Symbol>,
    pub return_type: Option<Symbol>,
}

/// One imported spec, or one inline interface.
#[derive(Debug)]
pub struct ImportedSpecMir {
    pub alias: Symbol,
    pub origin: ImportOrigin,
    pub account_types: Vec<ParsedAccountType>,
    pub records: Vec<ParsedRecordType>,
    pub interfaces: NameMap<InterfaceDecl>,
    /// The pin of the deployed binary.
    pub upstream: Option<ParsedUpstream>,
    /// The root of the proof package that the import ships.
    pub verified_pkg_root: Option<String>,
}

#[derive(Debug)]
pub enum ImportOrigin {
    /// A bundled interface, by key.
    Builtin(Symbol),
    /// A dependency of the consumer, by key.
    File(Symbol),
    /// An `interface` block of the spec itself.
    Inline,
}

#[derive(Debug)]
pub struct StateBinder {
    /// The field of the callee's abstract state.
    pub callee_field: Symbol,
    /// The field of the caller's state that it stands for.
    pub caller_projection: Path,
}

#[derive(Debug)]
pub struct InterfaceRef(pub Symbol);

#[derive(Debug)]
pub struct MethodRef(pub Symbol);

/// A dotted path.
#[derive(Debug)]
pub struct Path {
    pub segments: Vec<Symbol>,
}

impl View for Path {
    type V = Seq<Seq<char>>;

    open spec fn view(&self) -> Seq<Seq<char>> {
        texts(self.segments@)
    }
}

impl Path {
    /// The path of one segment.
    pub fn single(name: &str) -> (r: Self)
        ensures
            r@ == seq![name@],
    {
        let mut segments: Vec<Symbol> = Vec::new();
        segments.push(name.to_owned());
        Path { segments }
    }

    /// The path of the given segments.
    pub fn dotted(parts: &[&str]) -> (r: Self)
        ensures
            r@.len() == parts@.len(),
            forall|i: int| 0 <= i < parts@.len() ==> #[trigger] r@[i] == parts@[i]@,
    {
        let mut segments: Vec<Symbol> = Vec::new();
        let n: usize = parts.len();
        for i in 0..n
            invariant
                n == parts@.len(),
                segments@.len() == i,
                forall|k: int| 0 <= k < i ==> #[trigger] texts(segments@)[k] == parts@[k]@,
        {
            segments.push(parts[i].to_owned());
        }
        Path { segments }
    }

    /// The path that `s` spells, with a dot between its segments.
    pub fn parse(s: &str) -> (r: Self)
        ensures
            r@ == split_text(s@, '.'),
    {
        Path { segments: split(s, '.') }
    }
}

#[derive(Debug)]
pub enum AccountRef {
    /// An account of the handler, by name.
    ByBinding(Symbol),
    /// The account that holds the state.
    SelfState,
}

/// The name of the account, where it goes by name.
pub open spec fn account_name(a: AccountRef) -> Option<Seq<char>> {
    match a {
        AccountRef::ByBinding(s) => Some(s@),
        AccountRef::SelfState => None,
    }
}

#[derive(Debug)]
pub enum AccountOrField {
    Account(AccountRef),
    AccountField { account: AccountRef, field: Symbol },
}

// ---------------------------------------------------------------------------
// Types
// ---------------------------------------------------------------------------

#[derive(Debug, PartialEq, Eq)]
pub enum Ty {
    U8,
    U16,
    U32,
    U64,
    U128,
    I64,
    I128,
    Bool,
    Pubkey,
    /// A declared or imported type, by name.
    Custom(Symbol),
    /// A bounded map; the capacity is a number or the name of a constant.
    MapOf { capacity: Symbol, value: Box<Ty> },
}

/// A type, with its names as text.
pub enum TyV {
    U8,
    U16,
    U32,
    U64,
    U128,
    I64,
    I128,
    Bool,
    Pubkey,
    Custom(Seq<char>),
    MapOf { capacity: Seq<char>, value: Box<TyV> },
}

/// The type that a value of `Ty` stands for.
pub open spec fn ty_view(t: Ty) -> TyV
    decreases t,
{
    match t {
        Ty::U8 => TyV::U8,
        Ty::U16 => TyV::U16,
        Ty::U32 => TyV::U32,
        Ty::U64 => TyV::U64,
        Ty::U128 => TyV::U128,
        Ty::I64 => TyV::I64,
        Ty::I128 => TyV::I128,
        Ty::Bool => TyV::Bool,
        Ty::Pubkey => TyV::Pubkey,
        Ty::Custom(n) => TyV::Custom(n@),
        Ty::MapOf { capacity, value } => TyV::MapOf {
            capacity: capacity@,
            value: Box::new(ty_view(*value)),
        },
    }
}

proof fn trim_shortens(s: Seq<char>)
    ensures
        trim_text(s).len() <= s.len(),
{
    crate::split::lemma_trim_start_len(s);
    trim_end_shortens(trim_start_text(s));
}

proof fn trim_end_shortens(s: Seq<char>)
    ensures
        trim_end_text(s).len() <= s.len(),
    decreases s.len(),
{
    if s.len() > 0 && crate::text::is_space(s.last()) {
        trim_end_shortens(s.drop_last());
    }
}

/// The type that the text of a declaration names. `Map[cap] T` is a map; what
/// is neither a map nor a scalar is a name.
pub open spec fn type_of(s: Seq<char>) -> TyV
    decreases s.len(),
    via type_of_decreases
{
    let t = trim_text(s);
    if t == "U8"@ {
        TyV::U8
    } else if t == "U16"@ {
        TyV::U16
    } else if t == "U32"@ {
        TyV::U32
    } else if t == "U64"@ {
        TyV::U64
    } else if t == "U128"@ {
        TyV::U128
    } else if t == "I64"@ {
        TyV::I64
    } else if t == "I128"@ {
        TyV::I128
    } else if t == "Bool"@ {
        TyV::Bool
    } else if t == "Pubkey"@ {
        TyV::Pubkey
    } else if starts_with_text(t, "Map["@) {
        let rest = t.subrange("Map["@.len() as int, t.len() as int);
        match char_at_or_after(rest, ']', 0) {
            Some(close) => {
                let cap = trim_text(rest.subrange(0, close));
                let inner = trim_text(rest.subrange(close + 1, rest.len() as int));
                if cap.len() > 0 {
                    TyV::MapOf { capacity: cap, value: Box::new(type_of(inner)) }
                } else {
                    TyV::Custom(t)
                }
            },
            None => TyV::Custom(t),
        }
    } else {
        TyV::Custom(t)
    }
}

#[via_fn]
proof fn type_of_decreases(s: Seq<char>) {
    trim_shortens(s);
    let t = trim_text(s);
    let rest = t.subrange("Map["@.len() as int, t.len() as int);
    lemma_char_at_or_after(rest, ']', 0);
    if let Some(close) = char_at_or_after(rest, ']', 0) {
        trim_shortens(rest.subrange(close + 1, rest.len() as int));
    }
}

/// Reads the type of a declaration.
pub fn parse_ty(s: &str) -> (r: Ty)
    ensures
        ty_view(r) == type_of(s@),
    decreases s@.len(),
{
    proof {
        trim_shortens(s@);
    }
    let t = trim(s);
    if same(&t, "U8") {
        Ty::U8
    } else if same(&t, "U16") {
        Ty::U16
    } else if same(&t, "U32") {
        Ty::U32
    } else if same(&t, "U64") {
        Ty::U64
    } else if same(&t, "U128") {
        Ty::U128
    } else if same(&t, "I64") {
        Ty::I64
    } else if same(&t, "I128") {
        Ty::I128
    } else if same(&t, "Bool") {
        Ty::Bool
    } else if same(&t, "Pubkey") {
        Ty::Pubkey
    } else {
        let v = chars_of(&t);
        let w = chars_of("Map[");
        if stands_at(&v, &w, 0) {
            let rest = chars_of(&slice_text(&v, w.len(), v.len()));
            proof {
                lemma_char_at_or_after(rest@, ']', 0);
            }
            match find_char_from(&rest, ']', 0) {
                Some(close) => {
                    let cap = trim(&slice_text(&rest, 0, close));
                    let tail = slice_text(&rest, close + 1, rest.len());
                    proof {
                        trim_shortens(tail@);
                    }
                    let inner = trim(&tail);
                    if !cap.as_str().is_empty() {
                        return Ty::MapOf { capacity: cap, value: Box::new(parse_ty(&inner)) };
                    }
                },
                None => {},
            }
        }
        Ty::Custom(t)
    }
}

/// Whether the two types are the same.
pub fn same_ty(a: &Ty, b: &Ty) -> (r: bool)
    ensures
        r == (ty_view(*a) == ty_view(*b)),
    decreases *a,
{
    match (a, b) {
        (Ty::U8, Ty::U8) => true,
        (Ty::U16, Ty::U16) => true,
        (Ty::U32, Ty::U32) => true,
        (Ty::U64, Ty::U64) => true,
        (Ty::U128, Ty::U128) => true,
        (Ty::I64, Ty::I64) => true,
        (Ty::I128, Ty::I128) => true,
        (Ty::Bool, Ty::Bool) => true,
        (Ty::Pubkey, Ty::Pubkey) => true,
        (Ty::Custom(m), Ty::Custom(n)) => same(m, n),
        (Ty::MapOf { capacity: c, value: v }, Ty::MapOf { capacity: d, value: w }) => {
            same(c, d) && same_ty(v, w)
        },
        _ => false,
    }
}

} // verus!
