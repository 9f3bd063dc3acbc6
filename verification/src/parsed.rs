//! What the parser makes of a `.qedspec`: declarations whose expressions are
//! already rendered for each target.
use vstd::prelude::*;

use crate::names::NameMap;
use crate::text::same;

verus! {

/// A parsed and checked `.qedspec`.
#[derive(Debug)]
pub struct ParsedSpec {
    pub program_name: String,
    pub handlers: Vec<ParsedHandler>,
    pub account_types: Vec<ParsedAccountType>,
    pub records: Vec<ParsedRecordType>,
    pub pdas: Vec<ParsedPda>,
    pub error_codes: Vec<String>,
    pub events: Vec<ParsedEvent>,
    /// Resolved `import` lines, by local alias.
    pub imported_namespaces: NameMap<ParsedNamespace>,
    /// Call contracts, imported ones under their local alias and inline ones.
    pub interfaces: Vec<ParsedInterface>,
    /// The roots of the proof packages of verified callees, by alias.
    pub verified_callees: NameMap<String>,
    pub invariants: Vec<ParsedInvariant>,
    pub covers: Vec<ParsedCover>,
    pub liveness_props: Vec<ParsedLiveness>,
    pub environments: Vec<ParsedEnvironment>,
    pub constants: Vec<(String, String)>,
    /// Name, argument types and return type of each uninterpreted helper.
    pub uninterpreted_helpers: Vec<(String, Vec<String>, String)>,
    pub ref_impls: Vec<ParsedRefImpl>,
    pub properties: Vec<ParsedProperty>,
    /// Assembly specs: the instructions, the known public keys and the error
    /// codes with their values.
    pub instructions: Vec<ParsedInstruction>,
    pub pubkeys: Vec<ParsedPubkey>,
    pub valued_errors: Vec<ParsedValuedError>,
    /// Whether the spec targets sBPF assembly.
    pub assembly_target: bool,
    /// The value of `pragma state_repr`, where the spec has one.
    pub state_repr: Option<String>,
}

impl ParsedSpec {
    /// Whether the spec asks for the inductive state: `pragma state_repr = adt`.
    pub open spec fn asks_adt(self) -> bool {
        match self.state_repr {
            Some(r) => r@ == "adt"@,
            None => false,
        }
    }

    /// Whether the spec asks for the inductive state.
    pub fn state_repr_is_adt(&self) -> (r: bool)
        ensures
            r == self.asks_adt(),
    {
        match &self.state_repr {
            Some(r) => same(r, "adt"),
            None => false,
        }
    }

    /// Whether the spec targets sBPF assembly.
    pub fn is_assembly_target(&self) -> (r: bool)
        ensures
            r == self.assembly_target,
    {
        self.assembly_target
    }
}

#[derive(Debug)]
pub struct ParsedAccountType {
    pub name: String,
    /// Field names and types of a record declaration.
    pub fields: Vec<(String, String)>,
    /// The variants of a sum declaration.
    pub variants: Vec<ParsedVariant>,
    pub lifecycle: Vec<String>,
}

#[derive(Debug)]
pub struct ParsedVariant {
    pub name: String,
    pub fields: Vec<(String, String)>,
}

#[derive(Debug)]
pub struct ParsedRecordType {
    pub name: String,
    pub fields: Vec<(String, String)>,
}

#[derive(Debug)]
pub struct ParsedPda {
    pub name: String,
    pub seeds: Vec<String>,
}

#[derive(Debug)]
pub struct ParsedEvent {
    pub name: String,
    pub fields: Vec<(String, String)>,
}

#[derive(Debug)]
pub struct ParsedNamespace {
    pub dep_key: String,
    /// Whether the key names one of the bundled interfaces.
    pub builtin: bool,
    pub account_types: Vec<ParsedAccountType>,
    pub records: Vec<ParsedRecordType>,
}

#[derive(Debug)]
pub struct ParsedInterface {
    pub name: String,
    pub program_id: Option<String>,
    pub upstream: Option<ParsedUpstream>,
    pub state_fields: Vec<(String, String)>,
    pub handlers: Vec<ParsedInterfaceHandler>,
}

#[derive(Debug)]
pub struct ParsedUpstream {
    pub package: Option<String>,
    pub version: Option<String>,
    pub binary_hash: Option<String>,
}

#[derive(Debug)]
pub struct ParsedInterfaceHandler {
    pub name: String,
    pub params: Vec<(String, String)>,
    pub ensures: Vec<ParsedEnsures>,
    pub result_binder: Option<String>,
    pub return_type: Option<String>,
}

#[derive(Debug)]
pub struct ParsedInvariant {
    pub name: String,
    pub doc: String,
    pub lean_expr: Option<String>,
    pub rust_expr: Option<String>,
}

#[derive(Debug)]
pub struct ParsedCover {
    pub name: String,
    pub traces: Vec<Vec<String>>,
    pub reachable: Vec<(String, Option<String>)>,
}

#[derive(Debug)]
pub struct ParsedLiveness {
    pub name: String,
    pub from_state: String,
    pub leads_to_state: String,
    pub via_ops: Vec<String>,
    pub within_steps: Option<u64>,
}

#[derive(Debug)]
pub struct ParsedEnvironment {
    pub name: String,
    pub mutates: Vec<(String, String)>,
    pub constraints: Vec<String>,
    pub constraints_rust: Vec<String>,
}

#[derive(Debug)]
pub struct ParsedRefImpl {
    pub name: String,
    pub doc: Option<String>,
    pub params: Vec<(String, String)>,
    pub return_type: String,
    pub lean_body: String,
    pub rust_body: String,
}

#[derive(Debug)]
pub struct ParsedProperty {
    pub name: String,
    pub expression: Option<String>,
    pub rust_expression: Option<String>,
    pub rust_expression_pod: Option<String>,
    pub preserved_by: Vec<String>,
}

#[derive(Debug)]
pub struct ParsedHandler {
    pub name: String,
    pub doc: Option<String>,
    /// The account type that the handler works on, where the spec has several.
    pub on_account: Option<String>,
    pub who: Option<String>,
    pub permissionless: bool,
    pub pre_status: Option<String>,
    pub post_status: Option<String>,
    pub takes_params: Vec<(String, String)>,
    pub accounts: Vec<ParsedHandlerAccount>,
    pub requires: Vec<ParsedRequires>,
    pub aborts_if: Vec<ParsedAbortsIf>,
    pub ensures: Vec<ParsedEnsures>,
    /// Field, kind of update and value of each effect.
    pub effects: Vec<(String, String, String)>,
    /// The error that the effect at the same position names.
    pub effect_on_error: Vec<Option<String>>,
    /// Whether the handler has conditional effects.
    pub effect_branches: bool,
    pub transfers: Vec<ParsedTransfer>,
    pub calls: Vec<ParsedCall>,
    pub modifies: Option<Vec<String>>,
    pub emits: Vec<String>,
    pub invariants: Vec<String>,
    pub establishes: Vec<String>,
    pub abstract_binders: Vec<(String, String)>,
    pub aborts_total: bool,
}

#[derive(Debug)]
pub struct ParsedHandlerAccount {
    pub name: String,
    pub is_writable: bool,
    pub is_signer: bool,
    pub is_program: bool,
    pub pda_seeds: Option<Vec<String>>,
    pub authority: Option<String>,
    pub account_type: Option<String>,
    pub imported_namespace: Option<String>,
    pub default_pubkey: Option<String>,
}

#[derive(Debug)]
pub struct ParsedRequires {
    pub lean_expr: String,
    pub rust_expr: String,
    pub rust_expr_pod: String,
    /// The error of `requires .. else Error`.
    pub error_name: Option<String>,
}

#[derive(Debug)]
pub struct ParsedAbortsIf {
    pub lean_expr: String,
    pub rust_expr: String,
    pub rust_expr_pod: String,
    pub error_name: String,
}

#[derive(Debug)]
pub struct ParsedEnsures {
    pub lean_expr: String,
    pub rust_expr: String,
    pub rust_expr_pod: String,
    pub rust_expr_binary: String,
}

#[derive(Debug)]
pub struct ParsedTransfer {
    pub from: String,
    pub to: String,
    pub amount: Option<String>,
    pub authority: Option<String>,
}

#[derive(Debug)]
pub struct ParsedCall {
    pub target_interface: String,
    pub target_handler: String,
    pub args: Vec<ParsedCallArg>,
    pub result_binding: Option<String>,
    pub state_binders: Vec<ParsedStateBinder>,
}

#[derive(Debug)]
pub struct ParsedCallArg {
    pub name: String,
    pub lean_expr: String,
    pub rust_expr: String,
    pub rust_expr_pod: String,
}

#[derive(Debug)]
pub struct ParsedStateBinder {
    pub callee_field: String,
    pub caller_field: String,
}

/// One instruction of an assembly spec.
#[derive(Debug)]
pub struct ParsedInstruction {
    pub name: String,
    pub constants: Vec<(String, String)>,
    pub errors: Vec<ParsedValuedError>,
    pub input_layout: Vec<ParsedLayoutField>,
    pub insn_layout: Vec<ParsedLayoutField>,
    pub entry: Option<u64>,
    pub guards: Vec<ParsedGuard>,
    pub properties: Vec<ParsedSbpfProperty>,
}

#[derive(Debug)]
pub struct ParsedValuedError {
    pub name: String,
    pub value: Option<u64>,
}

#[derive(Debug)]
pub struct ParsedLayoutField {
    pub name: String,
    pub field_type: String,
    pub offset: i64,
}

#[derive(Debug)]
pub struct ParsedGuard {
    pub name: String,
    pub doc: Option<String>,
    pub checks: Option<String>,
    /// The check as written, with constants by name.
    pub checks_raw: Option<String>,
    pub error: String,
    pub fuel: Option<u64>,
}

#[derive(Debug)]
pub struct ParsedSbpfProperty {
    pub name: String,
    pub doc: Option<String>,
}

#[derive(Debug)]
pub struct ParsedPubkey {
    pub name: String,
    pub chunks: Vec<String>,
}

} // verus!
