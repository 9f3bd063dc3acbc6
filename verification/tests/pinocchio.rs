use qedgen::names::NameMap;
use qedgen::pinocchio_profile::abi::fixed_field_bytes;
use qedgen::pinocchio_profile::blocks::{infer_accounts_from_block, infer_params_from_block};
use qedgen::pinocchio_profile::exprs::{
    derive_call_from_expr, expr_key_receiver, from_le_bytes_instruction_slice,
    normalize_ast_expr_alias, normalize_seed_ast_expr, pat_u8_literal, simple_pat_ident,
};
use qedgen::pinocchio_profile::fallback::{
    infer_source_expr_aliases, normalize_source_expr_alias, process_fn_bodies,
};
use qedgen::pinocchio_profile::infer::{
    classify_entry, context_candidates, infer_from_src_dirs, infer_single_src_dir, is_schema_file,
    Entry,
};
use qedgen::pinocchio_profile::naming::{integer_rust_type, is_ident, normalize_schema_name};
use qedgen::pinocchio_profile::plain::{
    call_arguments, matching_bracket, split_top_level_commas, strip_ref_derive_call,
};
use qedgen::pinocchio_profile::schema::{
    parse_abi_schema, parse_account_role, read_abi_schema, AbiField, AbiRepeat, IndexedName,
};
use qedgen::pinocchio_profile::walk::{normalize_expr_tokens, walk};
use qedgen::pinocchio_profile::{
    PinocchioAccountRole, PinocchioHandlerProfile, PinocchioLayoutField,
    PinocchioLocalKeyDerivation, PinocchioParamField, PinocchioPdaDerivation, PinocchioPdaSeed,
    PinocchioProofProfile, PinocchioRecordLayout, PinocchioRepeatField,
    PinocchioTokenAccountBinding,
};

/// The profile of the sources that a directory walk takes, in the order of
/// their paths, and of the schemas.
fn infer(files: &[(&str, &str)], schemas: &[&str]) -> PinocchioProofProfile {
    let mut taken: Vec<(&str, &str)> = files
        .iter()
        .copied()
        .filter(|f| classify_entry(f.0.rsplit('/').next().unwrap(), false) == Entry::Take)
        .collect();
    taken.sort();
    let sources = taken.iter().map(|f| f.1.to_string()).collect();
    let schemas = schemas.iter().map(|t| t.to_string()).collect();
    infer_single_src_dir(&sources, &schemas).expect("profile")
}

fn map(entries: &[(String, String)]) -> NameMap<String> {
    let mut out = NameMap::new();
    for (k, v) in entries {
        out.insert(k.clone(), v.clone());
    }
    out
}

fn strings(v: &[&str]) -> Vec<String> {
    v.iter().map(|t| t.to_string()).collect()
}

#[test]
fn infers_account_order_params_and_dispatch_tag() {
    let profile = infer(
        &[
            ("lib.rs", r#"
pub fn process_instruction(
    _program_id: &pinocchio::pubkey::Pubkey,
    accounts: &[AccountInfo],
    instruction_data: &[u8],
) -> ProgramResult {
    let (discriminant, data) = instruction_data.split_first().unwrap();
    match *discriminant {
        7 => instructions::transfer::process_transfer(accounts, data),
        _ => Err(ProgramError::InvalidInstructionData),
    }
}
"#),
            ("instructions/transfer.rs", r#"
pub fn process_transfer(accounts: &[AccountInfo], instruction_data: &[u8]) -> ProgramResult {
    let [source, destination, authority, mint, token_program, ..] = accounts else {
        return Err(ProgramError::NotEnoughAccountKeys);
    };
    if !authority.is_signer() {
        return Err(ProgramError::MissingRequiredSignature);
    }
    if !source.is_writable() {
        return Err(ProgramError::InvalidAccountData);
    }
    require_token_account(source, mint.key(), authority.key())?;
    let decimals = read_mint_decimals(mint)?;
    require_key(token_program, &SPL_TOKEN_ID)?;
    let amount = u64::from_le_bytes(
        instruction_data
            .get(0..8)
            .ok_or(ProgramError::InvalidInstructionData)?
            .try_into()
            .map_err(|_| ProgramError::InvalidInstructionData)?,
    );
    let lane = u8::from_le_bytes(
        instruction_data
            .get(8..9)
            .ok_or(ProgramError::InvalidInstructionData)?
            .try_into()
            .map_err(|_| ProgramError::InvalidInstructionData)?,
    );
    Ok(())
}
"#),
        ],
        &[],
    );
    let transfer = profile.handler("transfer").expect("transfer profile");
    assert_eq!(transfer.instruction_tag, Some(7));
    assert_eq!(
        transfer.accounts,
        [
            "source",
            "destination",
            "authority",
            "mint",
            "token_program"
        ]
    );
    assert_eq!(
        transfer.params,
        [
            PinocchioParamField {
                name: "amount".to_string(),
                rust_type: "u64".to_string(),
                start: 0,
                end: 8
            },
            PinocchioParamField {
                name: "lane".to_string(),
                rust_type: "u8".to_string(),
                start: 8,
                end: 9
            }
        ]
    );
    assert_eq!(
        transfer.account_roles.get("authority"),
        Some(&PinocchioAccountRole {
            is_signer: Some(true),
            ..PinocchioAccountRole::default()
        })
    );
    assert_eq!(
        transfer.account_roles.get("source"),
        Some(&PinocchioAccountRole {
            is_writable: Some(true),
            account_type: Some("token".to_string()),
            ..PinocchioAccountRole::default()
        })
    );
    assert_eq!(
        transfer.account_roles.get("mint"),
        Some(&PinocchioAccountRole {
            account_type: Some("mint".to_string()),
            ..PinocchioAccountRole::default()
        })
    );
    assert_eq!(
        transfer.account_roles.get("token_program"),
        Some(&PinocchioAccountRole {
            is_program: Some(true),
            account_type: Some("token".to_string()),
            ..PinocchioAccountRole::default()
        })
    );
    assert_eq!(
        transfer.token_account_bindings.get("source"),
        Some(&PinocchioTokenAccountBinding {
            mint_account: Some("mint".to_string()),
            owner_account: Some("authority".to_string()),
            owner_key_derivation: None,
        })
    );
    assert_eq!(profile.pda_derivations.len(), 0);
}

#[test]
fn skips_generated_kani_impl_file() {
    let profile = infer(
        &[
            ("kani_impl.rs", "pub fn process_fake(accounts: &[AccountInfo], instruction_data: &[u8]) {}\n"),
        ],
        &[],
    );
    assert_eq!(profile.handlers.len(), 0);
    assert_eq!(profile.pda_derivations.len(), 0);
}

#[test]
fn infers_multiline_token_bindings_through_key_aliases() {
    let profile = infer(
        &[
            ("processor.rs", r#"
fn process_rebalance(accounts: &[AccountInfo]) -> ProgramResult {
    let account_info_iter = &mut accounts.iter();
    let mint = next_account_info(account_info_iter)?;
    let source_authority = next_account_info(account_info_iter)?;
    let source_inventory = next_account_info(account_info_iter)?;
    let destination_inventory = next_account_info(account_info_iter)?;
    let source_authority_key = derive_authority(0).0;
    let destination_authority_key = derive_authority(1).0;
    require_key(source_authority, &source_authority_key)?;
    require_token_account(source_inventory, mint.key(), &source_authority_key)?;
    require_token_account(
        destination_inventory,
        mint.key(),
        &destination_authority_key,
    )?;
    Ok(())
}
"#),
        ],
        &[],
    );
    let rebalance = profile.handler("rebalance").expect("rebalance profile");
    assert_eq!(
        rebalance.token_account_bindings.get("source_inventory"),
        Some(&PinocchioTokenAccountBinding {
            mint_account: Some("mint".to_string()),
            owner_account: Some("source_authority".to_string()),
            owner_key_derivation: Some(PinocchioLocalKeyDerivation {
                derivation: "authority".to_string(),
                args: vec!["0".to_string()],
            }),
        })
    );
    assert_eq!(
        rebalance
            .token_account_bindings
            .get("destination_inventory"),
        Some(&PinocchioTokenAccountBinding {
            mint_account: Some("mint".to_string()),
            owner_account: None,
            owner_key_derivation: Some(PinocchioLocalKeyDerivation {
                derivation: "authority".to_string(),
                args: vec!["1".to_string()],
            }),
        })
    );
}

#[test]
fn infers_account_order_from_next_account_info_sequence() {
    let profile = infer(
        &[
            ("processor.rs", r#"
fn process_route(accounts: &[AccountInfo]) -> ProgramResult {
    let account_info_iter = &mut accounts.iter();
    let config = next_account_info(account_info_iter)?;
    let mint = next_account_info(account_info_iter)?;
    let token_program = next_account_info(account_info_iter)?;
    let decimals = read_mint_decimals(mint)?;
    require_key(token_program, &SPL_TOKEN_ID)?;
    Ok(())
}
"#),
        ],
        &[],
    );
    let route = profile.handler("route").expect("route profile");
    assert_eq!(route.accounts, ["config", "mint", "token_program"]);
    assert_eq!(
        route.account_roles.get("mint"),
        Some(&PinocchioAccountRole {
            account_type: Some("mint".to_string()),
            ..PinocchioAccountRole::default()
        })
    );
    assert_eq!(
        route.account_roles.get("token_program"),
        Some(&PinocchioAccountRole {
            is_program: Some(true),
            account_type: Some("token".to_string()),
            ..PinocchioAccountRole::default()
        })
    );
}

#[test]
fn infers_pda_derivations_from_source_and_schema_seed_literals() {
    let profile = infer(
        &[
            ("state.rs", r#"
pub fn derive_config(program_id: &Pubkey) -> (Pubkey, u8) {
    pinocchio::pubkey::find_program_address(&[CONFIG_SEED], program_id)
}

pub fn derive_vault_authority(program_id: &Pubkey, lane_id: u8) -> (Pubkey, u8) {
    pinocchio::pubkey::try_find_program_address(
        &[VAULT_AUTHORITY_SEED, &[lane_id]],
        program_id,
    )
    .unwrap()
}
"#),
        ],
        &[
            r#"
seed CONFIG_SEED config
seed VAULT_AUTHORITY_SEED vault-authority
"#,
        ],
    );
    assert_eq!(
        profile.pda_derivations.get("config"),
        Some(&PinocchioPdaDerivation {
            name: "config".to_string(),
            params: vec!["program_id".to_string()],
            param_types: map(&[("program_id".to_string(), "&Pubkey".to_string(),)]),
            local_key_derivations: NameMap::new(),
            seeds: vec![PinocchioPdaSeed {
                expr: "CONFIG_SEED".to_string(),
                literal: Some("config".to_string()),
            }],
            program_id: "program_id".to_string(),
        })
    );
    assert_eq!(
        profile.pda_derivations.get("vault_authority"),
        Some(&PinocchioPdaDerivation {
            name: "vault_authority".to_string(),
            params: vec!["program_id".to_string(), "lane_id".to_string()],
            param_types: map(&[
                ("program_id".to_string(), "&Pubkey".to_string()),
                ("lane_id".to_string(), "u8".to_string()),
            ]),
            local_key_derivations: NameMap::new(),
            seeds: vec![
                PinocchioPdaSeed {
                    expr: "VAULT_AUTHORITY_SEED".to_string(),
                    literal: Some("vault-authority".to_string()),
                },
                PinocchioPdaSeed {
                    expr: "[lane_id]".to_string(),
                    literal: None,
                },
            ],
            program_id: "program_id".to_string(),
        })
    );
}

#[test]
fn infers_account_key_derivation_from_syn_require_key_direct_call() {
    let profile = infer(
        &[
            ("lib.rs", r#"
pub fn derive_token_vault(authority: &Pubkey, mint: &Pubkey) -> (Pubkey, u8) {
    pinocchio::pubkey::find_program_address(
        &[authority.as_ref(), mint.as_ref()],
        &ASSOCIATED_TOKEN_PROGRAM_ID,
    )
}

fn process_route(accounts: &[AccountInfo]) -> ProgramResult {
    let [authority, mint, vault, ..] = accounts else {
        return Ok(());
    };
    require_key(vault, &derive_token_vault(authority.key(), mint.key()).0)?;
    Ok(())
}
"#),
        ],
        &[],
    );
    let route = profile.handler("route").expect("route profile");
    assert_eq!(route.accounts, ["authority", "mint", "vault"]);
    assert_eq!(
        route.account_key_derivations.get("vault"),
        Some(&PinocchioLocalKeyDerivation {
            derivation: "token_vault".to_string(),
            args: vec!["authority.key()".to_string(), "mint.key()".to_string()],
        })
    );
    assert_eq!(
        profile.pda_derivations.get("token_vault"),
        Some(&PinocchioPdaDerivation {
            name: "token_vault".to_string(),
            params: vec!["authority".to_string(), "mint".to_string()],
            param_types: map(&[
                ("authority".to_string(), "&Pubkey".to_string()),
                ("mint".to_string(), "&Pubkey".to_string()),
            ]),
            local_key_derivations: NameMap::new(),
            seeds: vec![
                PinocchioPdaSeed {
                    expr: "authority.as_ref()".to_string(),
                    literal: None,
                },
                PinocchioPdaSeed {
                    expr: "mint.as_ref()".to_string(),
                    literal: None,
                },
            ],
            program_id: "ASSOCIATED_TOKEN_PROGRAM_ID".to_string(),
        })
    );
}

#[test]
fn context_inference_keeps_source_account_key_derivations() {
    let profile = infer_from_src_dirs(vec![
        infer(&[
            ("lib.rs", r#"
pub fn derive_token_vault(authority: &Pubkey, mint: &Pubkey) -> (Pubkey, u8) {
    pinocchio::pubkey::find_program_address(
        &[authority.as_ref(), mint.as_ref()],
        &ASSOCIATED_TOKEN_PROGRAM_ID,
    )
}

fn process_route(accounts: &[AccountInfo]) -> ProgramResult {
    let [authority, mint, vault, ..] = accounts else {
        return Ok(());
    };
    require_key(vault, &derive_token_vault(authority.key(), mint.key()).0)?;
    Ok(())
}
"#),
        ], &[]),
        infer(&[], &[]),
    ]);
    let route = profile.handler("route").expect("route profile");
    assert!(route.account_key_derivations.has("vault"));
    assert!(profile.pda_derivations.has("token_vault"));
}

#[test]
fn parses_line_oriented_abi_schema_records_and_offsets() {
    let schema = parse_abi_schema(
        r#"
limit MAX_STEPS 3
instruction TRANSFER 7
account TRANSFER AUTHORITY 2
account TRANSFER DESTINATION 1
account TRANSFER SOURCE 0

record STEP
field LANE_ID u8
field AMOUNT u64
end

record TRANSFER_ARGS
field LANE_ID u8
field AMOUNT u64
repeat STEP step MAX_STEPS LANE_ID
end

record VAULT_ACCOUNT
field MAGIC bytes8
field OWNER pubkey
field BALANCE u64
end

record CUSTOM_STATE
field FLAG bool
end

magic VAULT_MAGIC VAULTMAG
instruction_record TRANSFER TRANSFER_ARGS
account_record CUSTOM CUSTOM_STATE
"#,
    );

    assert_eq!(schema.instructions.get("TRANSFER"), Some(&7));
    assert_eq!(
        schema.accounts.get("TRANSFER").unwrap(),
        &[
            IndexedName {
                name: "SOURCE".to_string(),
                index: 0,
                role: PinocchioAccountRole::default()
            },
            IndexedName {
                name: "DESTINATION".to_string(),
                index: 1,
                role: PinocchioAccountRole::default()
            },
            IndexedName {
                name: "AUTHORITY".to_string(),
                index: 2,
                role: PinocchioAccountRole::default()
            }
        ]
    );

    let args = schema.records.get("TRANSFER_ARGS").unwrap();
    assert_eq!(
        args.fields,
        [
            AbiField {
                name: "LANE_ID".to_string(),
                ty: "u8".to_string(),
                offset: 0,
                len: 1
            },
            AbiField {
                name: "AMOUNT".to_string(),
                ty: "u64".to_string(),
                offset: 1,
                len: 8
            }
        ]
    );
    assert_eq!(
        args.repeats,
        [AbiRepeat {
            name: "STEP".to_string(),
            ty: "step".to_string(),
            max_count: "MAX_STEPS".to_string(),
            count_field: "LANE_ID".to_string(),
            offset: 9,
            item_len: 9
        }]
    );
    assert_eq!(args.len, 36);
    assert_eq!(
        schema.account_layouts(),
        map(&[
            ("custom".to_string(), "CUSTOM_STATE".to_string()),
            ("vault".to_string(), "VAULT_ACCOUNT".to_string())
        ])
    );
}

#[test]
fn abi_schema_exposes_repeated_record_fields() {
    let profile = infer(
        &[
            ("lib.rs", ""),
        ],
        &[
            r#"
limit MAX_TRANSFERS 4
instruction MOVE_BATCH 5

record TRANSFER
field FROM_LANE_ID u8
field TO_LANE_ID u8
field AMOUNT u64
end

record MOVE_BATCH_ARGS
field TRANSFER_COUNT u8
repeat TRANSFER transfer MAX_TRANSFERS TRANSFER_COUNT
end

record VAULT_ACCOUNT
field MAGIC bytes8
field OWNER pubkey
field BALANCE u64
end

magic VAULT_MAGIC VAULTMAG
instruction_record MOVE_BATCH MOVE_BATCH_ARGS
"#,
        ],
    );
    let handler = profile.handler("move_batch").expect("move batch profile");

    assert!(handler.params.is_empty());
    assert_eq!(
        handler.repeats,
        [PinocchioRepeatField {
            name: "transfer".to_string(),
            count_field: "transfer_count".to_string(),
            offset: 1,
            item_len: 10,
            item_fields: vec![
                PinocchioParamField {
                    name: "from_lane_id".to_string(),
                    rust_type: "u8".to_string(),
                    start: 0,
                    end: 1
                },
                PinocchioParamField {
                    name: "to_lane_id".to_string(),
                    rust_type: "u8".to_string(),
                    start: 1,
                    end: 2
                },
                PinocchioParamField {
                    name: "amount".to_string(),
                    rust_type: "u64".to_string(),
                    start: 2,
                    end: 10
                }
            ]
        }]
    );
    assert_eq!(
        profile.account_layouts.get("vault"),
        Some(&"vault_account".to_string())
    );
    assert_eq!(
        profile.record_layouts.get("vault_account"),
        Some(&PinocchioRecordLayout {
            name: "vault_account".to_string(),
            len: 48,
            fields: vec![
                PinocchioLayoutField {
                    name: "magic".to_string(),
                    ty: "bytes8".to_string(),
                    offset: 0,
                    len: 8,
                    fixed_bytes: Some(b"VAULTMAG".to_vec()),
                },
                PinocchioLayoutField {
                    name: "owner".to_string(),
                    ty: "pubkey".to_string(),
                    offset: 8,
                    len: 32,
                    fixed_bytes: None,
                },
                PinocchioLayoutField {
                    name: "balance".to_string(),
                    ty: "u64".to_string(),
                    offset: 40,
                    len: 8,
                    fixed_bytes: None,
                }
            ],
            repeats: Vec::new(),
        })
    );
}

#[test]
fn abi_schema_fills_profile_tag_accounts_and_param_widths() {
    let profile = infer(
        &[
            ("lib.rs", ""),
        ],
        &[
            r#"
instruction TRANSFER 7
account TRANSFER AUTHORITY 2 signer
account TRANSFER DESTINATION 1 writable type token
account TRANSFER SOURCE 0 writable type token
account TRANSFER TOKEN_PROGRAM 3 program type token

record TRANSFER_ARGS
field LANE_ID u8
field AMOUNT u64
field MEMO bytes8
end

instruction_record TRANSFER TRANSFER_ARGS
"#,
        ],
    );
    let transfer = profile.handler("transfer").expect("transfer profile");

    assert_eq!(transfer.instruction_tag, Some(7));
    assert_eq!(
        transfer.accounts,
        ["source", "destination", "authority", "token_program"]
    );
    assert_eq!(
        transfer.account_roles.get("source"),
        Some(&PinocchioAccountRole {
            is_writable: Some(true),
            account_type: Some("token".to_string()),
            ..PinocchioAccountRole::default()
        })
    );
    assert_eq!(
        transfer.account_roles.get("authority"),
        Some(&PinocchioAccountRole {
            is_signer: Some(true),
            ..PinocchioAccountRole::default()
        })
    );
    assert_eq!(
        transfer.account_roles.get("token_program"),
        Some(&PinocchioAccountRole {
            is_program: Some(true),
            account_type: Some("token".to_string()),
            ..PinocchioAccountRole::default()
        })
    );
    assert_eq!(
        transfer.params,
        [
            PinocchioParamField {
                name: "lane_id".to_string(),
                rust_type: "u8".to_string(),
                start: 0,
                end: 1
            },
            PinocchioParamField {
                name: "amount".to_string(),
                rust_type: "u64".to_string(),
                start: 1,
                end: 9
            }
        ]
    );
}

#[test]
fn handler_lookup_falls_back_to_numeric_arity_base() {
    let mut handlers = NameMap::new();
    handlers.insert(
        "batch".to_string(),
        PinocchioHandlerProfile {
            name: "batch".to_string(),
            instruction_tag: Some(4),
            accounts: Vec::new(),
            account_roles: NameMap::new(),
            token_account_bindings: NameMap::new(),
            account_key_derivations: NameMap::new(),
            source_expr_aliases: NameMap::new(),
            params: Vec::new(),
            repeats: Vec::new(),
        },
    );
    let profile = PinocchioProofProfile {
        handlers,
        pda_derivations: NameMap::new(),
        record_layouts: NameMap::new(),
        account_layouts: NameMap::new(),
    };
    assert_eq!(
        profile.handler("batch_16").unwrap().instruction_tag,
        Some(4)
    );
}

#[test]
fn context_profile_prefers_spec_schema_over_generated_output() {
    let profile = infer_from_src_dirs(vec![
        infer(&[
            ("lib.rs", r#"
pub fn process_instruction(
    _program_id: &pinocchio::pubkey::Pubkey,
    accounts: &[AccountInfo],
    instruction_data: &[u8],
) -> ProgramResult {
    let (discriminant, data) = instruction_data.split_first().unwrap();
    match *discriminant {
        3 => instructions::transfer::process_transfer(accounts, data),
        _ => Err(ProgramError::InvalidInstructionData),
    }
}
"#),
        ], &[]),
        infer(&[], &[]),
        infer(&[
            ("lib.rs", ""),
        ], &[
            r#"
instruction TRANSFER 1
account TRANSFER SOURCE 0
account TRANSFER DESTINATION 1

record TRANSFER_ARGS
field AMOUNT u64
end

instruction_record TRANSFER TRANSFER_ARGS
"#,
        ]),
    ]);
    let transfer = profile.handler("transfer").expect("transfer profile");

    assert_eq!(transfer.instruction_tag, Some(1));
    assert_eq!(transfer.accounts, ["source", "destination"]);
    assert_eq!(
        transfer.params,
        [PinocchioParamField {
            name: "amount".to_string(),
            rust_type: "u64".to_string(),
            start: 0,
            end: 8
        }]
    );
}

const DIVERSE: &str = r#"
pub type Pubkey = [u8; 32];
pub type ProgramResult = Result<(), ProgramError>;

pub struct ProgramError;

pub struct AccountInfo;

impl AccountInfo {
    pub fn key(&self) -> &Pubkey {
        unimplemented!()
    }

    pub fn is_signer(&self) -> bool {
        unimplemented!()
    }

    pub fn is_writable(&self) -> bool {
        unimplemented!()
    }
}

pub const ASSOCIATED_TOKEN_PROGRAM_ID: Pubkey = [8u8; 32];
pub const TOKEN_PROGRAM_ID: Pubkey = [9u8; 32];
pub const VAULT_AUTHORITY_SEED: &[u8] = b"vault-authority";
pub const SPL_TOKEN_ID: Pubkey = [10u8; 32];

pub fn next_account_info<'a, I>(_iter: &mut I) -> Result<&'a AccountInfo, ProgramError>
where
    I: Iterator<Item = &'a AccountInfo>,
{
    unimplemented!()
}

pub fn require_key(_account: &AccountInfo, _key: &Pubkey) -> ProgramResult {
    Ok(())
}

pub fn require_token_account(
    _account: &AccountInfo,
    _mint: &Pubkey,
    _owner: &Pubkey,
) -> ProgramResult {
    Ok(())
}

pub fn read_mint_decimals(_mint: &AccountInfo) -> Result<u8, ProgramError> {
    Ok(6)
}

pub fn derive_vault_authority(program_id: &Pubkey, lane_id: u8) -> (Pubkey, u8) {
    pinocchio::pubkey::find_program_address(&[VAULT_AUTHORITY_SEED, &[lane_id]], program_id)
}

pub fn derive_token_vault(authority: &Pubkey, mint: &Pubkey) -> (Pubkey, u8) {
    pinocchio::pubkey::find_program_address(
        &[authority.as_ref(), TOKEN_PROGRAM_ID.as_ref(), mint.as_ref()],
        &ASSOCIATED_TOKEN_PROGRAM_ID,
    )
}

pub fn process_instruction(
    program_id: &pinocchio::pubkey::Pubkey,
    accounts: &[AccountInfo],
    instruction_data: &[u8],
) -> ProgramResult {
    let (tag, data) = instruction_data.split_first().unwrap();
    match *tag {
        1 => process_move_tokens(program_id, accounts, data),
        2 => process_move_batch(program_id, accounts, data),
        3 => process_touch_config(program_id, accounts, data),
        4 => process_route_ata(program_id, accounts, data),
        5 => process_partial_fallback(program_id, accounts, data),
        _ => Ok(()),
    }
}

fn process_move_tokens(
    _program_id: &pinocchio::pubkey::Pubkey,
    accounts: &[AccountInfo],
    instruction_data: &[u8],
) -> ProgramResult {
    let [source, destination, authority, mint, token_program, ..] = accounts else {
        return Ok(());
    };
    let _amount = u64::from_le_bytes(instruction_data.get(0..8).unwrap().try_into().unwrap());
    require_token_account(source, mint.key(), authority.key())?;
    require_token_account(destination, mint.key(), authority.key())?;
    require_key(token_program, &SPL_TOKEN_ID)?;
    let _decimals = read_mint_decimals(mint)?;
    Ok(())
}

fn process_move_batch(
    _program_id: &pinocchio::pubkey::Pubkey,
    accounts: &[AccountInfo],
    instruction_data: &[u8],
) -> ProgramResult {
    let [batch_state, ..] = accounts else {
        return Ok(());
    };
    let _transfer_count = instruction_data.get(0).copied().unwrap_or(0);
    if !batch_state.is_writable() {
        return Ok(());
    }
    Ok(())
}

fn process_touch_config(
    _program_id: &pinocchio::pubkey::Pubkey,
    accounts: &[AccountInfo],
    instruction_data: &[u8],
) -> ProgramResult {
    let account_info_iter = &mut accounts.iter();
    let config = next_account_info(account_info_iter)?;
    let _max_fee_bps = u16::from_le_bytes(instruction_data.get(0..2).unwrap().try_into().unwrap());
    if !config.is_writable() {
        return Ok(());
    }
    Ok(())
}

fn process_route_ata(
    program_id: &pinocchio::pubkey::Pubkey,
    accounts: &[AccountInfo],
    instruction_data: &[u8],
) -> ProgramResult {
    let [authority, mint, vault, ..] = accounts else {
        return Ok(());
    };
    let lane_id = u8::from_le_bytes(instruction_data.get(0..1).unwrap().try_into().unwrap());
    let authority_key = derive_vault_authority(program_id, lane_id).0;
    require_key(authority, &authority_key)?;
    require_key(vault, &derive_token_vault(&authority_key, mint.key()).0)?;
    Ok(())
}

fn process_partial_fallback(
    _program_id: &pinocchio::pubkey::Pubkey,
    accounts: &[AccountInfo],
    _instruction_data: &[u8],
) -> ProgramResult {
    let [scratch, ..] = accounts else {
        return Ok(());
    };
    if scratch.is_writable() {
        Ok(())
    } else {
        Ok(())
    }
}

mod pinocchio {
    pub mod pubkey {
        pub type Pubkey = [u8; 32];

        pub fn find_program_address(_seeds: &[&[u8]], _program_id: &Pubkey) -> (Pubkey, u8) {
            unimplemented!()
        }
    }
}
"#;

#[test]
fn reads_a_program_with_many_shapes_of_handlers() {
    let profile = infer(&[("lib.rs", DIVERSE)], &[]);
    for (name, tag) in [
        ("move_tokens", 1),
        ("move_batch", 2),
        ("touch_config", 3),
        ("route_ata", 4),
        ("partial_fallback", 5),
    ] {
        assert_eq!(profile.handler(name).unwrap().instruction_tag, Some(tag), "{}", name);
    }
    let h = profile.handler("move_tokens").unwrap();
    assert_eq!(h.accounts, ["source", "destination", "authority", "mint", "token_program"]);
    assert_eq!(
        h.token_account_bindings.get("destination").unwrap().owner_account.as_deref(),
        Some("authority")
    );
    // The bytes are not read through `ok_or`, `map_err` or `try_into` alone.
    assert!(h.params.is_empty());
    let h = profile.handler("touch_config").unwrap();
    assert_eq!(h.accounts, ["config"]);
    assert_eq!(h.account_roles.get("config").unwrap().is_writable, Some(true));
    let h = profile.handler("route_ata").unwrap();
    assert_eq!(
        h.account_key_derivations.get("authority").unwrap().args,
        ["program_id", "lane_id"]
    );
    assert_eq!(
        h.account_key_derivations.get("vault"),
        Some(&PinocchioLocalKeyDerivation {
            derivation: "token_vault".to_string(),
            args: strings(&["&authority_key", "mint.key()"]),
        })
    );
    let d = profile.pda_derivations.get("token_vault").unwrap();
    let seeds: Vec<&str> = d.seeds.iter().map(|s| s.expr.as_str()).collect();
    assert_eq!(seeds, ["authority.as_ref()", "TOKEN_PROGRAM_ID.as_ref()", "mint.as_ref()"]);
    assert_eq!(d.program_id, "ASSOCIATED_TOKEN_PROGRAM_ID");
}

/// A source that is no Rust: a bracket is missing at its end.
const BROKEN: &str = r#"
pub fn process_instruction(accounts: &[AccountInfo], data: &[u8]) -> ProgramResult {
    match data[0] {
        7 => instructions::transfer::process_transfer(accounts, data),
        300 => instructions::other::process_other(accounts, data),
        _ => Ok(()),
    }
}

pub fn process_transfer(accounts: &[AccountInfo], instruction_data: &[u8]) -> ProgramResult {
    let [source, authority, mint, vault, token_program, ..] = accounts else {
        return Ok(());
    };
    if !authority.is_signer() { return Ok(()); }
    if !source.is_writable() { return Ok(()); }
    let authority_key = derive_authority(0, pair(1, 2)).0;
    require_key(authority, &authority_key)?;
    require_key(vault, &derive_vault(authority.key(), mint.key()).0)?;
    require_key(token_program, &SPL_TOKEN_ID)?;
    require_token_account(source, mint.key(), &authority_key)?;
    require_matching_token_mint(vault, mint.key())?;
    let amount = Amount(*raw);
    let order = Order { lane: lane_id, price: Price(p) };
    let late = u8::from_le_bytes(instruction_data.get(8..9).unwrap());
    let early = u64::from_le_bytes(instruction_data.get(0..8).unwrap());
    Ok(())
}

pub fn derive_vault(authority: &Pubkey, mint: &Pubkey) -> (Pubkey, u8) {
    find_program_address(&[VAULT_SEED, authority.as_ref(), &[1]], &crate::ID)
}

fn broken( {
"#;

#[test]
fn reads_a_source_that_is_no_rust_as_text() {
    let profile = infer(&[("lib.rs", BROKEN)], &["seed VAULT_SEED vault\n"]);
    let h = profile.handler("transfer").expect("transfer");
    assert_eq!(h.instruction_tag, Some(7));
    assert!(profile.handler("other").is_none(), "no tag has more than a byte");
    assert_eq!(h.accounts, ["source", "authority", "mint", "vault", "token_program"]);
    assert_eq!(h.account_roles.get("authority").unwrap().is_signer, Some(true));
    assert_eq!(h.account_roles.get("source").unwrap().is_writable, Some(true));
    assert_eq!(h.account_roles.get("source").unwrap().account_type.as_deref(), Some("token"));
    assert_eq!(h.account_roles.get("token_program").unwrap().is_program, Some(true));
    assert_eq!(
        h.account_key_derivations.get("authority"),
        Some(&PinocchioLocalKeyDerivation {
            derivation: "authority".to_string(),
            args: strings(&["0", "pair(1, 2)"]),
        })
    );
    assert_eq!(
        h.account_key_derivations.get("vault").unwrap().args,
        ["authority.key()", "mint.key()"]
    );
    let source = h.token_account_bindings.get("source").unwrap();
    assert_eq!(source.mint_account.as_deref(), Some("mint"));
    assert_eq!(source.owner_account.as_deref(), Some("authority"));
    assert!(source.owner_key_derivation.is_some());
    let vault = h.token_account_bindings.get("vault").unwrap();
    assert_eq!((vault.mint_account.as_deref(), &vault.owner_account), (Some("mint"), &None));
    assert_eq!(h.source_expr_aliases.get("amount.0").map(|t| t.as_str()), Some("raw"));
    assert_eq!(h.source_expr_aliases.get("order.lane").map(|t| t.as_str()), Some("lane_id"));
    assert_eq!(h.source_expr_aliases.get("order.price.0").map(|t| t.as_str()), Some("p"));
    let params: Vec<(&str, usize, usize)> =
        h.params.iter().map(|p| (p.name.as_str(), p.start, p.end)).collect();
    assert_eq!(params, [("early", 0, 8), ("late", 8, 9)]);
    let d = profile.pda_derivations.get("vault").unwrap();
    assert_eq!(d.params, ["authority", "mint"]);
    assert_eq!(d.seeds[0].literal.as_deref(), Some("vault"));
    assert_eq!(d.seeds[1].expr, "authority.as_ref()");
    assert_eq!(d.program_id, "crate::ID");
}

#[test]
fn modules_are_searched_for_handlers() {
    let profile = infer(
        &[(
            "lib.rs",
            "mod a { mod b { fn process_deep(accounts: &[A]) { let [x, y, ..] = accounts else { return }; } } }",
        )],
        &[],
    );
    assert_eq!(profile.handler("deep").unwrap().accounts, ["x", "y"]);
}

#[test]
fn blocks_arms_and_branches_take_accounts() {
    let block = "{ let a = next_account_info(it)?; \
        if c { let b = next_account_info(it)?; } else { let d = next_account_info(it)?; } \
        match t { 0 => { let e = next_account_info(it)?; } _ => {} } }";
    assert_eq!(infer_accounts_from_block(block), ["a", "b", "d", "e"]);
    assert_eq!(infer_accounts_from_block("not a block"), Vec::<String>::new());
}

#[test]
fn expressions_are_walked_from_the_outside_in() {
    let all = walk("f (a . b (c) , if d { e } else { g } , [h ; 2] , (i as u8 , & j) ? , S { k : l , .. m })");
    let names: Vec<&str> = all.iter().map(|t| t.as_str()).filter(|t| t.len() == 1).collect();
    assert_eq!(names, ["f", "a", "c", "d", "e", "g", "h", "2", "i", "j", "l", "m"]);
    let all = walk("loop { while p { break q ; } return r ; }");
    assert!(all.contains(&"p".to_string()) && all.contains(&"r".to_string()));
    let all = walk("match s { 1 => t , _ => | x | u + v }");
    assert!(all.contains(&"t".to_string()) && all.contains(&"v".to_string()));
    let all = walk("w [x ..= y] = - z . 0");
    for t in ["w", "x", "y", "z"] {
        assert!(all.contains(&t.to_string()), "{}", t);
    }
}

#[test]
fn numbers_are_read_through_conversions() {
    assert_eq!(
        from_le_bytes_instruction_slice(
            "u16 :: from_le_bytes (instruction_data . get (2 .. 4) . ok_or (E) ? . try_into () . map_err (| _ | E) ?)"
        ),
        Some(("u16".to_string(), 2, 4))
    );
    assert_eq!(
        from_le_bytes_instruction_slice("f32 :: from_le_bytes (instruction_data . get (2 .. 4))"),
        None
    );
    assert_eq!(from_le_bytes_instruction_slice("u16 :: from_le_bytes (other . get (2 .. 4))"), None);
}

#[test]
fn tags_are_numbers_of_one_byte() {
    assert_eq!(pat_u8_literal("7"), Some(7));
    assert_eq!(pat_u8_literal("0x10u8"), Some(16));
    assert_eq!(pat_u8_literal("x | 3"), Some(3));
    assert_eq!(pat_u8_literal("256"), None);
    assert_eq!(pat_u8_literal("_"), None);
}

#[test]
fn aliases_drop_what_stands_around_a_value() {
    assert_eq!(normalize_ast_expr_alias("& Wrap (* (x))"), "x");
    assert_eq!(normalize_ast_expr_alias("f (a , b)"), "f(a,b)");
    assert_eq!(normalize_source_expr_alias(" & *Wrap( x ) "), "x");
    assert_eq!(normalize_source_expr_alias("a + b"), "a + b");
    let aliases = infer_source_expr_aliases("let a = B(c); let d = e;");
    assert_eq!(aliases.get("a.0").map(|t| t.as_str()), Some("c"));
    assert_eq!(aliases.len(), 1);
}

#[test]
fn seeds_lose_references_and_the_crate() {
    assert_eq!(normalize_seed_ast_expr("& crate :: SEED"), "SEED");
    assert_eq!(normalize_seed_ast_expr("& [a , b]"), "[a, b]");
    assert_eq!(normalize_seed_ast_expr("& crate :: x . as_ref ()"), "x.as_ref()");
}

#[test]
fn brackets_and_commas_nest() {
    let v: Vec<char> = "a(b(c)d)e)".chars().collect();
    assert_eq!(matching_bracket(&v, 1, '(', ')'), Some(7));
    assert_eq!(matching_bracket(&v, 3, '(', ')'), Some(5));
    assert_eq!(matching_bracket(&"((".chars().collect(), 0, '(', ')'), None);
    assert_eq!(split_top_level_commas("a, f(b, c), [d, e]"), ["a", "f(b, c)", "[d, e]"]);
    assert_eq!(split_top_level_commas(""), [""]);
    assert_eq!(
        call_arguments("f (a, g(b, c)) f[0] f(d", "f"),
        [strings(&["a", "g(b, c)"])]
    );
    assert_eq!(
        strip_ref_derive_call("& derive_x(a, b).0"),
        Some(("x".to_string(), strings(&["a", "b"])))
    );
    assert_eq!(strip_ref_derive_call("& derive_x(a).1"), None);
    let bodies = process_fn_bodies("fn process_a() { x { y } } pub fn process_b(");
    assert_eq!(bodies, [("a".to_string(), " x { y } ".to_string())]);
}

#[test]
fn names_take_one_form() {
    assert_eq!(normalize_schema_name("__Foo--BAR_9__"), "foo_bar_9");
    assert_eq!(normalize_schema_name(&normalize_schema_name("A  B")), "a_b");
    assert_eq!(normalize_schema_name("---"), "");
    assert!(is_ident("_a1") && !is_ident("1a") && !is_ident("") && !is_ident("a-b"));
    assert_eq!(integer_rust_type("U64").as_deref(), Some("u64"));
    assert_eq!(integer_rust_type("usize"), None);
}

#[test]
fn roles_are_read_from_words() {
    let ws = strings(&["Signer,", "mut", "type", "=Vault,", "program"]);
    let r = parse_account_role(&ws, 0);
    assert_eq!(
        r,
        PinocchioAccountRole {
            is_signer: Some(true),
            is_writable: Some(true),
            is_program: Some(true),
            account_type: Some("vault".to_string()),
        }
    );
    let r = parse_account_role(&strings(&["readonly", "type=Mint"]), 0);
    assert_eq!(r.is_writable, Some(false));
    assert_eq!(r.account_type.as_deref(), Some("mint"));
}

#[test]
fn later_roles_override_earlier_ones() {
    let mut a = parse_account_role(&strings(&["signer", "mut", "mint"]), 0);
    a.merge(parse_account_role(&strings(&["readonly", "token"]), 0));
    assert_eq!(a.is_signer, Some(true));
    assert_eq!(a.is_writable, Some(false));
    assert_eq!(a.account_type.as_deref(), Some("token"));
    assert!(PinocchioAccountRole::default().is_empty() && !a.is_empty());
}

#[test]
fn records_that_no_position_can_point_into_are_refused() {
    let huge = usize::MAX.to_string();
    let text = format!("record A\nfield x bytes{}\nfield y u8\nend\n", huge);
    assert!(read_abi_schema(&text).is_none());
    assert!(infer_single_src_dir(&vec![], &vec![text]).is_none());
    let text = format!("record B\nfield c u8\nrepeat R u64 {} c\nend\n", huge);
    assert!(read_abi_schema(&text).is_none());
}

#[test]
fn schema_lines_that_say_nothing_are_skipped() {
    let s = parse_abi_schema(
        "# a comment\ninstruction A 300\ninstruction B 2 # two\nfield x u8\nlimit N x\nrecord R\nfield a unknown\nfield b bool",
    );
    assert_eq!(s.instructions.len(), 1);
    assert_eq!(s.instructions.get("B"), Some(&2));
    let r = s.records.get("R").unwrap();
    assert_eq!((r.fields.len(), r.len), (1, 1));
    let s = parse_abi_schema("account I b 1\naccount I a 1\naccount I c 0\n");
    let names: Vec<&str> = s.accounts.get("I").unwrap().iter().map(|a| a.name.as_str()).collect();
    assert_eq!(names, ["c", "b", "a"]);
}

#[test]
fn a_field_has_fixed_bytes_where_one_magic_fits() {
    let field = AbiField {
        name: "MAGIC".to_string(),
        ty: "bytes4".to_string(),
        offset: 0,
        len: 4,
    };
    let one = map(&[("VAULT_MAGIC".to_string(), "VALT".to_string())]);
    assert_eq!(fixed_field_bytes(&field, &one), Some(b"VALT".to_vec()));
    let two = map(&[
        ("VAULT_MAGIC".to_string(), "VALT".to_string()),
        ("POOL_MAGIC".to_string(), "POOL".to_string()),
    ]);
    assert_eq!(fixed_field_bytes(&field, &two), None);
    let long = map(&[("VAULT_MAGIC".to_string(), "VAULT".to_string())]);
    assert_eq!(fixed_field_bytes(&field, &long), None);
}

#[test]
fn directory_entries_are_sorted_out_by_name() {
    assert_eq!(classify_entry("target", true), Entry::Skip);
    assert_eq!(classify_entry("src", true), Entry::Descend);
    assert_eq!(classify_entry("lib.rs", false), Entry::Take);
    assert_eq!(classify_entry(".rs", false), Entry::Skip);
    assert_eq!(classify_entry("kani_impl.rs", false), Entry::Skip);
    assert_eq!(classify_entry("notes.txt", false), Entry::Skip);
    assert!(is_schema_file("a.schema") && !is_schema_file("schema"));
}

#[test]
fn a_directory_is_looked_at_once() {
    assert_eq!(
        context_candidates("p/src", &strings(&["p/verification/src", "p/src"])),
        [("p/src".to_string(), true), ("p/verification/src".to_string(), true)]
    );
    assert_eq!(context_candidates("o", &vec![]), [("o".to_string(), false)]);
}

#[test]
fn a_number_at_the_end_of_a_name_is_tried_without_it_first() {
    let mut p = PinocchioProofProfile::empty();
    p.read_source("fn process_a() {} fn process_a_1() {} fn process_b_x() {}");
    assert_eq!(p.handler("a_1").unwrap().name, "a");
    assert_eq!(p.handler("b_x").unwrap().name, "b_x");
    assert!(p.handler("b_1").is_none());
}

#[test]
fn layout_does_not_hide_expressions() {
    assert_eq!(walk("a.b.c"), ["a.b.c", "a . b", "a"]);
    assert_eq!(walk("f(-&-&-&x)").last().map(String::as_str), Some("x"));
    assert_eq!(
        walk("if c{/** one */ let y=g(x); y}else{z}"),
        ["if c{/** one */ let y=g(x); y}else{z}", "c", "g (x)", "g", "x", "y", "{ z }", "z"]
    );
    let d = derive_call_from_expr("derive_x(a,b).0").unwrap();
    assert_eq!((d.derivation.as_str(), d.args.len()), ("x", 2));
    assert_eq!(d.args, ["a", "b"]);
    assert_eq!(expr_key_receiver("&(payer.key())").as_deref(), Some("payer"));
    assert_eq!(normalize_ast_expr_alias("Some(&*amount\n  .value)"), "amount.value");
    assert_eq!(normalize_seed_ast_expr("&payer.key().as_ref()"), "payer.key().as_ref()");
    assert_eq!(simple_pat_ident("x:&[u8]").as_deref(), Some("x"));
    assert_eq!(pat_u8_literal("A|7"), Some(7));
    assert_eq!(normalize_expr_tokens("a /* b */ +\n\tc"), "a+c");
}

#[test]
fn layout_does_not_hide_statements() {
    let block = "{if a.b.c{/// the payer\nlet payer=next_account_info(it)?;}else{match k{1=>{let owner=next_account_info(it)?;}_=>{}}}}";
    assert_eq!(infer_accounts_from_block(block), ["payer", "owner"]);
    let params = infer_params_from_block(
        "{{let n=u64::from_le_bytes(instruction_data.get(0..8).ok_or(E)?.try_into().map_err(|_|E)?);}}",
    );
    assert_eq!(params.len(), 1);
    assert_eq!((params[0].name.as_str(), params[0].start, params[0].end), ("n", 0, 8));
}
