//! What the blocks of handlers say, read as Rust.
use vstd::prelude::*;

use crate::names::{entries_map, lookup, opt_map, with_entry, with_entry_after_without, NameMap};
use crate::pattern::{contains_string, has_text};
use crate::pinocchio_profile::exprs::{
    accounts_from_destructure_pat, alias_of, calls, derivation_of, derive_call_from_expr,
    expr_contains_call_name, expr_ident, expr_key_receiver, expr_mentions_token_program,
    expr_ref_ident, from_le_bytes_instruction_slice, ident_of, key_receiver_of,
    mentions_token_program, name_of_pattern, named_call, names_of_slice, normalize_ast_expr_alias,
    read_call, read_number, ref_ident_of, simple_pat_ident,
    wrapped_arg, wrapper_ctor_arg,
};
use crate::pinocchio_profile::naming::{normalize_schema_name, schema_name};
use crate::pinocchio_profile::syntax::{
    block_part, if_parts, match_parts, method_parts, pair_views, statement_views, struct_parts,
    syn_block, syn_if, syn_match, syn_method, syn_struct, Statement, StatementV,
};
use crate::pinocchio_profile::walk::{
    normalize_expr_tokens, shorter, size, stmts, stmts_of, tokens, walk_block, walked_block,
};
use crate::pinocchio_profile::{
    binding_fn, derivation_fn, lookup_or, merge_role, no_role, param_views, role_fn, string_fn,
    with_role, BindingV, DerivationV, Entries, ParamV, PinocchioAccountRole,
    PinocchioLocalKeyDerivation, PinocchioParamField, PinocchioTokenAccountBinding, RoleV,
};
use crate::search::{contains, contains_text, opt_text};
use crate::text::{copy_strings, same, texts};

verus! {

broadcast use {
    crate::names::group_entries,
    crate::text::group_text,
    crate::text::texts_index,
    crate::text::texts_len,
};

// ---------------------------------------------------------------------------
// Accounts
// ---------------------------------------------------------------------------

/// The accounts with the one that a statement takes from the list of accounts.
pub open spec fn with_next_account(s: StatementV, acc: Seq<Seq<char>>) -> Seq<Seq<char>> {
    match (s.pattern, s.expr) {
        (Some(p), Some(e)) => if calls(e, "next_account_info"@) {
            match name_of_pattern(p) {
                Some(name) => acc.push(name),
                None => acc,
            }
        } else {
            acc
        },
        _ => acc,
    }
}

/// The accounts that a statement takes all at once.
pub open spec fn all_accounts(s: StatementV) -> Option<Seq<Seq<char>>> {
    match s.pattern {
        Some(p) => match names_of_slice(p) {
            Some(names) => if names.len() > 0 {
                Some(names)
            } else {
                None
            },
            None => None,
        },
        None => None,
    }
}

/// The accounts that a block takes, in their order, behind `acc`. The first
/// statement that takes them all at once ends the block, and its accounts take
/// the place of all before.
pub open spec fn accounts_in_block(block: Seq<char>, acc: Seq<Seq<char>>) -> Seq<Seq<char>>
    decreases size(block), 1nat, 0int,
{
    accounts_in_stmts(stmts_of(block), size(block), 0, acc)
}

pub open spec fn accounts_in_stmts(
    ss: Seq<StatementV>,
    bound: nat,
    i: int,
    acc: Seq<Seq<char>>,
) -> Seq<Seq<char>>
    decreases bound, 0nat, ss.len() - i,
{
    if i < 0 || i >= ss.len() {
        acc
    } else {
        match all_accounts(ss[i]) {
            Some(names) => names,
            None => {
                let own = with_next_account(ss[i], acc);
                match ss[i].expr {
                    Some(e) => accounts_in_stmts(
                        ss,
                        bound,
                        i + 1,
                        if size(e) < bound {
                            accounts_in_expr(e, own)
                        } else {
                            own
                        },
                    ),
                    None => accounts_in_stmts(ss, bound, i + 1, own),
                }
            },
        }
    }
}

/// The accounts that the blocks and arms of an expression take.
pub open spec fn accounts_in_expr(e: Seq<char>, acc: Seq<Seq<char>>) -> Seq<Seq<char>>
    decreases size(e), 2nat, 0int,
{
    match (syn_block(e), syn_if(e), syn_match(e)) {
        (Some((alone, b)), _, _) => if alone && size(b) <= size(e) {
            accounts_in_block(b, acc)
        } else {
            acc
        },
        (_, Some(x), _) => {
            let inside = if size(x.then_block) <= size(e) {
                accounts_in_block(x.then_block, acc)
            } else {
                acc
            };
            match x.otherwise {
                Some(o) => if size(o) < size(e) {
                    accounts_in_expr(o, inside)
                } else {
                    inside
                },
                None => inside,
            }
        },
        (_, _, Some((_, arms))) => accounts_in_arms(arms, size(e), 0, acc),
        _ => acc,
    }
}

pub open spec fn accounts_in_arms(
    arms: Seq<(Seq<char>, Seq<char>)>,
    bound: nat,
    i: int,
    acc: Seq<Seq<char>>,
) -> Seq<Seq<char>>
    decreases bound, 0nat, arms.len() - i,
{
    if i < 0 || i >= arms.len() {
        acc
    } else {
        accounts_in_arms(
            arms,
            bound,
            i + 1,
            if size(arms[i].1) < bound {
                accounts_in_expr(arms[i].1, acc)
            } else {
                acc
            },
        )
    }
}

fn read_all_accounts(s: &Statement) -> (r: Option<Vec<String>>)
    ensures
        match r {
            Some(v) => all_accounts(
                StatementV { pattern: opt_text(s.pattern), expr: opt_text(s.expr) },
            ) == Some(texts(v@)),
            None => all_accounts(
                StatementV { pattern: opt_text(s.pattern), expr: opt_text(s.expr) },
            ) is None,
        },
{
    match &s.pattern {
        Some(p) => match accounts_from_destructure_pat(p) {
            Some(names) => if names.len() > 0 {
                Some(names)
            } else {
                None
            },
            None => None,
        },
        None => None,
    }
}

fn read_next_account(s: &Statement, accounts: &mut Vec<String>)
    ensures
        texts(final(accounts)@) == with_next_account(
            StatementV { pattern: opt_text(s.pattern), expr: opt_text(s.expr) },
            texts(old(accounts)@),
        ),
{
    match (&s.pattern, &s.expr) {
        (Some(p), Some(e)) => {
            if expr_contains_call_name(e, "next_account_info") {
                match simple_pat_ident(p) {
                    Some(name) => {
                        accounts.push(name);
                    },
                    None => {},
                }
            }
        },
        _ => {},
    }
}

fn collect_accounts_from_stmts(block: &str, accounts: &mut Vec<String>)
    ensures
        texts(final(accounts)@) == accounts_in_block(block@, texts(old(accounts)@)),
    decreases size(block@), 1nat,
{
    let ss = stmts(block);
    let ghost all = statement_views(ss@);
    let ghost start = texts(accounts@);
    let mut i: usize = 0;
    while i < ss.len()
        invariant
            i <= ss@.len(),
            all == statement_views(ss@),
            start == texts(old(accounts)@),
            accounts_in_block(block@, start) == accounts_in_stmts(
                all,
                size(block@),
                i as int,
                texts(accounts@),
            ),
        decreases ss@.len() - i,
    {
        let s = &ss[i];
        proof {
            assert(all[i as int] == StatementV {
                pattern: opt_text(s.pattern),
                expr: opt_text(s.expr),
            });
        }
        match read_all_accounts(s) {
            Some(names) => {
                *accounts = names;
                return ;
            },
            None => {},
        }
        read_next_account(s, accounts);
        match &s.expr {
            Some(e) => {
                if shorter(e, block) {
                    collect_accounts_from_expr(e, accounts);
                }
            },
            None => {},
        }
        i = i + 1;
    }
}

fn collect_accounts_from_expr(e: &str, accounts: &mut Vec<String>)
    ensures
        texts(final(accounts)@) == accounts_in_expr(e@, texts(old(accounts)@)),
    decreases size(e@), 2nat,
{
    match block_part(e) {
        Some((alone, b)) => {
            if alone && !shorter(e, &b) {
                collect_accounts_from_stmts(&b, accounts);
            }
            return ;
        },
        None => {},
    }
    match if_parts(e) {
        Some(x) => {
            if !shorter(e, &x.then_block) {
                collect_accounts_from_stmts(&x.then_block, accounts);
            }
            match &x.otherwise {
                Some(o) => {
                    if shorter(o, e) {
                        collect_accounts_from_expr(o, accounts);
                    }
                },
                None => {},
            }
            return ;
        },
        None => {},
    }
    match match_parts(e) {
        Some((_, arms)) => {
            let ghost all = pair_views(arms@);
            let ghost start = texts(accounts@);
            let mut i: usize = 0;
            while i < arms.len()
                invariant
                    i <= arms@.len(),
                    all == pair_views(arms@),
                    accounts_in_expr(e@, start) == accounts_in_arms(
                        all,
                        size(e@),
                        i as int,
                        texts(accounts@),
                    ),
                decreases arms@.len() - i,
            {
                if shorter(&arms[i].1, e) {
                    collect_accounts_from_expr(&arms[i].1, accounts);
                }
                i = i + 1;
            }
        },
        None => {},
    }
}

/// The accounts that a block takes, in their order.
pub fn infer_accounts_from_block(block: &str) -> (r: Vec<String>)
    ensures
        texts(r@) == accounts_in_block(block@, Seq::empty()),
{
    let mut out: Vec<String> = Vec::new();
    collect_accounts_from_stmts(block, &mut out);
    out
}

// ---------------------------------------------------------------------------
// Roles
// ---------------------------------------------------------------------------

pub open spec fn signer_role() -> RoleV {
    RoleV { is_signer: Some(true), ..no_role() }
}

pub open spec fn writable_role() -> RoleV {
    RoleV { is_writable: Some(true), ..no_role() }
}

pub open spec fn program_role() -> RoleV {
    RoleV { is_program: Some(true), ..no_role() }
}

pub open spec fn typed_role(ty: Seq<char>) -> RoleV {
    RoleV { account_type: Some(ty), ..no_role() }
}

pub open spec fn token_program_role() -> RoleV {
    RoleV { is_program: Some(true), account_type: Some("token"@), ..no_role() }
}

/// The role of an account of which nothing but its type is known.
pub fn role_of_type(ty: &str) -> (r: PinocchioAccountRole)
    ensures
        r@ == typed_role(ty@),
{
    let mut r = PinocchioAccountRole::default();
    r.account_type = Some(ty.to_owned());
    r
}

/// What a method that is called on an account says of it.
pub open spec fn method_role(method: Seq<char>) -> Option<RoleV> {
    if method == "is_signer"@ {
        Some(signer_role())
    } else if method == "is_writable"@ {
        Some(writable_role())
    } else if method == "is_executable"@ || method == "executable"@ {
        Some(program_role())
    } else {
        None
    }
}

fn read_method_role(method: &str) -> (r: Option<PinocchioAccountRole>)
    ensures
        match r {
            Some(role) => method_role(method@) == Some(role@),
            None => method_role(method@) is None,
        },
{
    let mut role = PinocchioAccountRole::default();
    if same(method, "is_signer") {
        role.is_signer = Some(true);
    } else if same(method, "is_writable") {
        role.is_writable = Some(true);
    } else if same(method, "is_executable") || same(method, "executable") {
        role.is_program = Some(true);
    } else {
        return None;
    }
    Some(role)
}

/// The name that the first argument is.
pub open spec fn first_ident(args: Seq<Seq<char>>) -> Option<Seq<char>> {
    if args.len() > 0 {
        ident_of(args[0])
    } else {
        None
    }
}

fn first_arg_ident(args: &Vec<String>) -> (r: Option<String>)
    ensures
        opt_text(r) == first_ident(texts(args@)),
{
    if args.len() > 0 {
        expr_ident(&args[0])
    } else {
        None
    }
}

/// What a call says of the account that it gets first.
pub open spec fn call_role(
    e: Seq<char>,
    f: Seq<char>,
    args: Seq<Seq<char>>,
    accounts: Seq<Seq<char>>,
) -> Option<(Seq<char>, RoleV)> {
    match first_ident(args) {
        Some(account) => if f == "require_key"@ && args.len() >= 2 {
            if has_text(accounts, account) && mentions_token_program(args[1]) {
                Some((account, token_program_role()))
            } else {
                None
            }
        } else if f == "read_mint_decimals"@ || f == "from_mint_account"@ {
            Some((account, typed_role("mint"@)))
        } else if f == "require_token_account"@ || f == "read_token_amount"@ || f
            == "write_token_amount"@ {
            Some((account, typed_role("token"@)))
        } else if f == "from_account_info"@ {
            if contains_text(tokens(e), "Mint"@) {
                Some((account, typed_role("mint"@)))
            } else if contains_text(tokens(e), "TokenAccount"@) {
                Some((account, typed_role("token"@)))
            } else {
                None
            }
        } else {
            None
        },
        None => None,
    }
}

fn read_call_role(e: &str, f: &str, args: &Vec<String>, accounts: &Vec<String>) -> (r: Option<
    (String, PinocchioAccountRole),
>)
    ensures
        match r {
            Some(p) => call_role(e@, f@, texts(args@), texts(accounts@)) == Some((p.0@, p.1@)),
            None => call_role(e@, f@, texts(args@), texts(accounts@)) is None,
        },
{
    match first_arg_ident(args) {
        Some(account) => {
            if same(f, "require_key") && args.len() >= 2 {
                if contains_string(accounts, &account) && expr_mentions_token_program(&args[1]) {
                    let mut role = role_of_type("token");
                    role.is_program = Some(true);
                    Some((account, role))
                } else {
                    None
                }
            } else if same(f, "read_mint_decimals") || same(f, "from_mint_account") {
                Some((account, role_of_type("mint")))
            } else if same(f, "require_token_account") || same(f, "read_token_amount") || same(
                f,
                "write_token_amount",
            ) {
                Some((account, role_of_type("token")))
            } else if same(f, "from_account_info") {
                let t = normalize_expr_tokens(e);
                if contains(&t, "Mint") {
                    Some((account, role_of_type("mint")))
                } else if contains(&t, "TokenAccount") {
                    Some((account, role_of_type("token")))
                } else {
                    None
                }
            } else {
                None
            }
        },
        None => None,
    }
}

/// What an expression says of an account.
pub open spec fn role_in_expr(e: Seq<char>, accounts: Seq<Seq<char>>) -> Option<
    (Seq<char>, RoleV),
> {
    match syn_method(e) {
        Some(m) => {
            let account = schema_name(tokens(m.receiver));
            if has_text(accounts, account) {
                match method_role(m.method) {
                    Some(r) => Some((account, r)),
                    None => None,
                }
            } else {
                None
            }
        },
        None => match named_call(e) {
            Some((f, args)) => call_role(e, f, args, accounts),
            None => None,
        },
    }
}

fn infer_role_from_expr(e: &str, accounts: &Vec<String>) -> (r: Option<
    (String, PinocchioAccountRole),
>)
    ensures
        match r {
            Some(p) => role_in_expr(e@, texts(accounts@)) == Some((p.0@, p.1@)),
            None => role_in_expr(e@, texts(accounts@)) is None,
        },
{
    match method_parts(e) {
        Some(m) => {
            let account = normalize_schema_name(&normalize_expr_tokens(&m.receiver));
            if contains_string(accounts, &account) {
                match read_method_role(&m.method) {
                    Some(role) => Some((account, role)),
                    None => None,
                }
            } else {
                None
            }
        },
        None => match read_call(e) {
            Some((f, args)) => read_call_role(e, &f, &args, accounts),
            None => None,
        },
    }
}

/// What the first `n` expressions say of accounts.
pub open spec fn roles_in(es: Seq<Seq<char>>, accounts: Seq<Seq<char>>, n: nat) -> Entries<RoleV>
    decreases n,
{
    if n == 0 {
        Seq::empty()
    } else {
        let before = roles_in(es, accounts, (n - 1) as nat);
        match role_in_expr(es[n - 1], accounts) {
            Some((k, r)) => with_role(before, k, r),
            None => before,
        }
    }
}

/// What a block says of accounts.
pub open spec fn roles_in_block(block: Seq<char>, accounts: Seq<Seq<char>>) -> Entries<RoleV> {
    roles_in(walked_block(block), accounts, walked_block(block).len())
}

/// What a block says of accounts.
pub fn infer_account_roles_from_block(block: &str, accounts: &Vec<String>) -> (r: NameMap<
    PinocchioAccountRole,
>)
    ensures
        entries_map(r@, role_fn()) == roles_in_block(block@, texts(accounts@)),
{
    let es = walk_block(block);
    let mut roles: NameMap<PinocchioAccountRole> = NameMap::new();
    for i in 0..es.len()
        invariant
            entries_map(roles@, role_fn()) == roles_in(texts(es@), texts(accounts@), i as nat),
    {
        match infer_role_from_expr(&es[i], accounts) {
            Some((account, role)) => {
                merge_role(&mut roles, account, role);
            },
            None => {},
        }
    }
    roles
}

// ---------------------------------------------------------------------------
// Keys
// ---------------------------------------------------------------------------

/// The arguments of a check of an account's key.
pub open spec fn key_check(e: Seq<char>) -> Option<(Seq<char>, Seq<char>)> {
    match named_call(e) {
        Some((f, args)) => if f == "require_key"@ && args.len() == 2 {
            match ident_of(args[0]) {
                Some(account) => Some((account, args[1])),
                None => None,
            }
        } else {
            None
        },
        None => None,
    }
}

fn read_key_check(e: &str) -> (r: Option<(String, String)>)
    ensures
        match r {
            Some(p) => key_check(e@) == Some((p.0@, p.1@)),
            None => key_check(e@) is None,
        },
{
    match read_call(e) {
        Some((f, args)) => {
            if same(&f, "require_key") && args.len() == 2 {
                match expr_ident(&args[0]) {
                    Some(account) => Some((account, args[1].clone())),
                    None => None,
                }
            } else {
                None
            }
        },
        None => None,
    }
}

/// The accounts whose keys the first `n` expressions check, under the names of
/// the keys.
pub open spec fn key_names_in(es: Seq<Seq<char>>, n: nat) -> Entries<Seq<char>>
    decreases n,
{
    if n == 0 {
        Seq::empty()
    } else {
        let before = key_names_in(es, (n - 1) as nat);
        match key_check(es[n - 1]) {
            Some((account, key)) => match ref_ident_of(key) {
                Some(name) => with_entry(before, schema_name(name), schema_name(account)),
                None => before,
            },
            None => before,
        }
    }
}

/// The accounts whose keys a block checks, under the names of the keys.
pub open spec fn key_names_in_block(block: Seq<char>) -> Entries<Seq<char>> {
    key_names_in(walked_block(block), walked_block(block).len())
}

/// The accounts whose keys a block checks, under the names of the keys.
pub fn infer_key_account_aliases_from_block(block: &str) -> (r: NameMap<String>)
    ensures
        entries_map(r@, string_fn()) == key_names_in_block(block@),
{
    let es = walk_block(block);
    let mut out: NameMap<String> = NameMap::new();
    for i in 0..es.len()
        invariant
            entries_map(out@, string_fn()) == key_names_in(texts(es@), i as nat),
    {
        match read_key_check(&es[i]) {
            Some((account, key)) => {
                match expr_ref_ident(&key) {
                    Some(name) => {
                        out.insert(normalize_schema_name(&name), normalize_schema_name(&account));
                    },
                    None => {},
                }
            },
            None => {},
        }
    }
    out
}

/// With the key that a statement derives.
pub open spec fn with_derived_key(s: StatementV, acc: Entries<DerivationV>) -> Entries<DerivationV> {
    match (s.pattern, s.expr) {
        (Some(p), Some(e)) => match (name_of_pattern(p), derivation_of(e)) {
            (Some(name), Some(d)) => with_entry(acc, name, d),
            _ => acc,
        },
        _ => acc,
    }
}

/// The keys that a block and the blocks in it derive, behind `acc`.
pub open spec fn keys_in_block(block: Seq<char>, acc: Entries<DerivationV>) -> Entries<DerivationV>
    decreases size(block), 1nat, 0int,
{
    keys_in_stmts(stmts_of(block), size(block), 0, acc)
}

pub open spec fn keys_in_stmts(
    ss: Seq<StatementV>,
    bound: nat,
    i: int,
    acc: Entries<DerivationV>,
) -> Entries<DerivationV>
    decreases bound, 0nat, ss.len() - i,
{
    if i < 0 || i >= ss.len() {
        acc
    } else {
        let own = with_derived_key(ss[i], acc);
        match ss[i].expr {
            Some(e) => keys_in_stmts(
                ss,
                bound,
                i + 1,
                if size(e) < bound {
                    keys_in_expr(e, own)
                } else {
                    own
                },
            ),
            None => keys_in_stmts(ss, bound, i + 1, own),
        }
    }
}

/// The keys that a block, or the blocks of an `if`, derive.
pub open spec fn keys_in_expr(e: Seq<char>, acc: Entries<DerivationV>) -> Entries<DerivationV>
    decreases size(e), 2nat, 0int,
{
    match (syn_block(e), syn_if(e)) {
        (Some((alone, b)), _) => if alone && size(b) <= size(e) {
            keys_in_block(b, acc)
        } else {
            acc
        },
        (_, Some(x)) => {
            let inside = if size(x.then_block) <= size(e) {
                keys_in_block(x.then_block, acc)
            } else {
                acc
            };
            match x.otherwise {
                Some(o) => match syn_block(o) {
                    Some((true, b)) => if size(b) <= size(e) {
                        keys_in_block(b, inside)
                    } else {
                        inside
                    },
                    _ => inside,
                },
                None => inside,
            }
        },
        _ => acc,
    }
}

fn read_derived_key(s: &Statement, out: &mut NameMap<PinocchioLocalKeyDerivation>)
    ensures
        entries_map(final(out)@, derivation_fn()) == with_derived_key(
            StatementV { pattern: opt_text(s.pattern), expr: opt_text(s.expr) },
            entries_map(old(out)@, derivation_fn()),
        ),
{
    match (&s.pattern, &s.expr) {
        (Some(p), Some(e)) => {
            match (simple_pat_ident(p), derive_call_from_expr(e)) {
                (Some(name), Some(d)) => {
                    out.insert(name, d);
                },
                _ => {},
            }
        },
        _ => {},
    }
}

fn collect_local_key_derivations_from_stmts(
    block: &str,
    out: &mut NameMap<PinocchioLocalKeyDerivation>,
)
    ensures
        entries_map(final(out)@, derivation_fn()) == keys_in_block(
            block@,
            entries_map(old(out)@, derivation_fn()),
        ),
    decreases size(block@), 1nat,
{
    let ss = stmts(block);
    let ghost all = statement_views(ss@);
    let ghost start = entries_map(out@, derivation_fn());
    let mut i: usize = 0;
    while i < ss.len()
        invariant
            i <= ss@.len(),
            all == statement_views(ss@),
            keys_in_block(block@, start) == keys_in_stmts(
                all,
                size(block@),
                i as int,
                entries_map(out@, derivation_fn()),
            ),
        decreases ss@.len() - i,
    {
        let s = &ss[i];
        proof {
            assert(all[i as int] == StatementV {
                pattern: opt_text(s.pattern),
                expr: opt_text(s.expr),
            });
        }
        read_derived_key(s, out);
        match &s.expr {
            Some(e) => {
                if shorter(e, block) {
                    collect_local_key_derivations_from_expr(e, out);
                }
            },
            None => {},
        }
        i = i + 1;
    }
}

fn collect_local_key_derivations_from_expr(
    e: &str,
    out: &mut NameMap<PinocchioLocalKeyDerivation>,
)
    ensures
        entries_map(final(out)@, derivation_fn()) == keys_in_expr(
            e@,
            entries_map(old(out)@, derivation_fn()),
        ),
    decreases size(e@), 2nat,
{
    match block_part(e) {
        Some((alone, b)) => {
            if alone && !shorter(e, &b) {
                collect_local_key_derivations_from_stmts(&b, out);
            }
            return ;
        },
        None => {},
    }
    match if_parts(e) {
        Some(x) => {
            if !shorter(e, &x.then_block) {
                collect_local_key_derivations_from_stmts(&x.then_block, out);
            }
            match &x.otherwise {
                Some(o) => {
                    match block_part(o) {
                        Some((true, b)) => {
                            if !shorter(e, &b) {
                                collect_local_key_derivations_from_stmts(&b, out);
                            }
                        },
                        _ => {},
                    }
                },
                None => {},
            }
        },
        None => {},
    }
}

/// The keys that a block derives.
pub fn infer_local_key_derivations_from_block(block: &str) -> (r: NameMap<
    PinocchioLocalKeyDerivation,
>)
    ensures
        entries_map(r@, derivation_fn()) == keys_in_block(block@, Seq::empty()),
{
    let mut out: NameMap<PinocchioLocalKeyDerivation> = NameMap::new();
    collect_local_key_derivations_from_stmts(block, &mut out);
    out
}

/// A copy of a derivation.
pub fn copy_derivation(d: &PinocchioLocalKeyDerivation) -> (r: PinocchioLocalKeyDerivation)
    ensures
        r@ == d@,
{
    PinocchioLocalKeyDerivation {
        derivation: d.derivation.clone(),
        args: copy_strings(&d.args),
    }
}

/// The derivation under a name.
pub fn find_derivation(ds: &NameMap<PinocchioLocalKeyDerivation>, name: &str) -> (r: Option<
    PinocchioLocalKeyDerivation,
>)
    ensures
        opt_map(r, derivation_fn()) == lookup(entries_map(ds@, derivation_fn()), name@),
{
    match ds.get(name) {
        Some(d) => Some(copy_derivation(d)),
        None => None,
    }
}

/// How the key of the account that an expression checks is derived.
pub open spec fn checked_key(e: Seq<char>, locals: Entries<DerivationV>) -> Option<
    (Seq<char>, DerivationV),
> {
    match key_check(e) {
        Some((account, key)) => match derivation_of(key) {
            Some(d) => Some((account, d)),
            None => match ref_ident_of(key) {
                Some(name) => match lookup(locals, name) {
                    Some(d) => Some((account, d)),
                    None => None,
                },
                None => None,
            },
        },
        None => None,
    }
}

pub open spec fn checked_keys_in(es: Seq<Seq<char>>, locals: Entries<DerivationV>, n: nat) -> Entries<
    DerivationV,
>
    decreases n,
{
    if n == 0 {
        Seq::empty()
    } else {
        let before = checked_keys_in(es, locals, (n - 1) as nat);
        match checked_key(es[n - 1], locals) {
            Some((account, d)) => with_entry(before, account, d),
            None => before,
        }
    }
}

/// How the keys of the accounts that a block checks are derived.
pub open spec fn checked_keys_in_block(block: Seq<char>, locals: Entries<DerivationV>) -> Entries<
    DerivationV,
> {
    checked_keys_in(walked_block(block), locals, walked_block(block).len())
}

/// How the keys of the accounts that a block checks are derived.
pub fn infer_account_key_derivations_from_block(
    block: &str,
    locals: &NameMap<PinocchioLocalKeyDerivation>,
) -> (r: NameMap<PinocchioLocalKeyDerivation>)
    ensures
        entries_map(r@, derivation_fn()) == checked_keys_in_block(
            block@,
            entries_map(locals@, derivation_fn()),
        ),
{
    let ghost ls = entries_map(locals@, derivation_fn());
    let es = walk_block(block);
    let mut out: NameMap<PinocchioLocalKeyDerivation> = NameMap::new();
    for i in 0..es.len()
        invariant
            ls == entries_map(locals@, derivation_fn()),
            entries_map(out@, derivation_fn()) == checked_keys_in(texts(es@), ls, i as nat),
    {
        match read_key_check(&es[i]) {
            Some((account, key)) => {
                match derive_call_from_expr(&key) {
                    Some(d) => {
                        out.insert(account, d);
                    },
                    None => {
                        match expr_ref_ident(&key) {
                            Some(name) => {
                                match find_derivation(locals, &name) {
                                    Some(d) => {
                                        out.insert(account, d);
                                    },
                                    None => {},
                                }
                            },
                            None => {},
                        }
                    },
                }
            },
            None => {},
        }
    }
    out
}

// ---------------------------------------------------------------------------
// Token accounts
// ---------------------------------------------------------------------------

pub open spec fn no_binding() -> BindingV {
    BindingV { mint_account: None, owner_account: None, owner_key: None }
}

/// A name in the form of names in profiles.
pub open spec fn opt_schema_name(o: Option<Seq<char>>) -> Option<Seq<char>> {
    match o {
        Some(n) => Some(schema_name(n)),
        None => None,
    }
}

fn normalize_opt(o: Option<String>) -> (r: Option<String>)
    ensures
        opt_text(r) == opt_schema_name(opt_text(o)),
{
    match o {
        Some(n) => Some(normalize_schema_name(&n)),
        None => None,
    }
}

/// What is under an optional name.
pub open spec fn opt_lookup<V>(es: Entries<V>, k: Option<Seq<char>>) -> Option<V> {
    match k {
        Some(name) => lookup(es, name),
        None => None,
    }
}

/// The mint and the owner that a check of a token account gives.
pub open spec fn checked_binding(
    mint: Seq<char>,
    owner: Seq<char>,
    key_names: Entries<Seq<char>>,
    locals: Entries<DerivationV>,
) -> BindingV {
    BindingV {
        mint_account: opt_schema_name(key_receiver_of(mint)),
        owner_account: match opt_schema_name(key_receiver_of(owner)) {
            Some(name) => Some(name),
            None => opt_lookup(key_names, ref_ident_of(owner)),
        },
        owner_key: opt_lookup(locals, ref_ident_of(owner)),
    }
}

fn read_binding(
    mint: &str,
    owner: &str,
    key_names: &NameMap<String>,
    locals: &NameMap<PinocchioLocalKeyDerivation>,
) -> (r: PinocchioTokenAccountBinding)
    ensures
        r@ == checked_binding(
            mint@,
            owner@,
            entries_map(key_names@, string_fn()),
            entries_map(locals@, derivation_fn()),
        ),
{
    let mint_account = normalize_opt(expr_key_receiver(mint));
    let named = expr_ref_ident(owner);
    let owner_account = match normalize_opt(expr_key_receiver(owner)) {
        Some(name) => Some(name),
        None => match &named {
            Some(name) => match key_names.get(name) {
                Some(account) => Some(account.clone()),
                None => None,
            },
            None => None,
        },
    };
    let owner_key_derivation = match &named {
        Some(name) => find_derivation(locals, name),
        None => None,
    };
    PinocchioTokenAccountBinding { mint_account, owner_account, owner_key_derivation }
}

/// The bindings with what an expression says of a token account.
pub open spec fn with_checked_token(
    e: Seq<char>,
    key_names: Entries<Seq<char>>,
    locals: Entries<DerivationV>,
    acc: Entries<BindingV>,
) -> Entries<BindingV> {
    match named_call(e) {
        Some((f, args)) => if f == "require_token_account"@ && args.len() == 3 {
            match ident_of(args[0]) {
                Some(account) => with_entry(
                    acc,
                    account,
                    checked_binding(args[1], args[2], key_names, locals),
                ),
                None => acc,
            }
        } else if f == "require_matching_token_mint"@ && args.len() == 2 {
            match (ident_of(args[0]), key_receiver_of(args[1])) {
                (Some(account), Some(mint)) => with_mint(acc, account, schema_name(mint)),
                _ => acc,
            }
        } else {
            acc
        },
        None => acc,
    }
}

/// With the mint of a token account.
pub open spec fn with_mint(acc: Entries<BindingV>, account: Seq<char>, mint: Seq<char>) -> Entries<
    BindingV,
> {
    with_entry(
        acc,
        account,
        BindingV { mint_account: Some(mint), ..lookup_or(acc, account, no_binding()) },
    )
}

/// Sets the mint of a token account.
pub fn set_mint(
    bindings: &mut NameMap<PinocchioTokenAccountBinding>,
    account: String,
    mint: String,
)
    ensures
        entries_map(final(bindings)@, binding_fn()) == with_mint(
            entries_map(old(bindings)@, binding_fn()),
            account@,
            mint@,
        ),
{
    let ghost es = bindings@;
    let mut b = match bindings.remove(&account) {
        Some(b) => b,
        None => PinocchioTokenAccountBinding {
            mint_account: None,
            owner_account: None,
            owner_key_derivation: None,
        },
    };
    b.mint_account = Some(mint);
    proof {
        with_entry_after_without(es, account@, b);
    }
    bindings.insert(account, b);
}

fn read_checked_token(
    e: &str,
    key_names: &NameMap<String>,
    locals: &NameMap<PinocchioLocalKeyDerivation>,
    bindings: &mut NameMap<PinocchioTokenAccountBinding>,
)
    ensures
        entries_map(final(bindings)@, binding_fn()) == with_checked_token(
            e@,
            entries_map(key_names@, string_fn()),
            entries_map(locals@, derivation_fn()),
            entries_map(old(bindings)@, binding_fn()),
        ),
{
    match read_call(e) {
        Some((f, args)) => {
            if same(&f, "require_token_account") && args.len() == 3 {
                match expr_ident(&args[0]) {
                    Some(account) => {
                        let b = read_binding(&args[1], &args[2], key_names, locals);
                        bindings.insert(account, b);
                    },
                    None => {},
                }
            } else if same(&f, "require_matching_token_mint") && args.len() == 2 {
                match (expr_ident(&args[0]), expr_key_receiver(&args[1])) {
                    (Some(account), Some(mint)) => {
                        set_mint(bindings, account, normalize_schema_name(&mint));
                    },
                    _ => {},
                }
            }
        },
        None => {},
    }
}

pub open spec fn tokens_in(
    es: Seq<Seq<char>>,
    key_names: Entries<Seq<char>>,
    locals: Entries<DerivationV>,
    n: nat,
) -> Entries<BindingV>
    decreases n,
{
    if n == 0 {
        Seq::empty()
    } else {
        with_checked_token(
            es[n - 1],
            key_names,
            locals,
            tokens_in(es, key_names, locals, (n - 1) as nat),
        )
    }
}

/// What a block says of token accounts.
pub open spec fn tokens_in_block(
    block: Seq<char>,
    key_names: Entries<Seq<char>>,
    locals: Entries<DerivationV>,
) -> Entries<BindingV> {
    tokens_in(walked_block(block), key_names, locals, walked_block(block).len())
}

/// What a block says of token accounts.
pub fn infer_token_account_bindings_from_block(
    block: &str,
    key_names: &NameMap<String>,
    locals: &NameMap<PinocchioLocalKeyDerivation>,
) -> (r: NameMap<PinocchioTokenAccountBinding>)
    ensures
        entries_map(r@, binding_fn()) == tokens_in_block(
            block@,
            entries_map(key_names@, string_fn()),
            entries_map(locals@, derivation_fn()),
        ),
{
    let es = walk_block(block);
    let mut out: NameMap<PinocchioTokenAccountBinding> = NameMap::new();
    for i in 0..es.len()
        invariant
            entries_map(out@, binding_fn()) == tokens_in(
                texts(es@),
                entries_map(key_names@, string_fn()),
                entries_map(locals@, derivation_fn()),
                i as nat,
            ),
    {
        read_checked_token(&es[i], key_names, locals, &mut out);
    }
    out
}

// ---------------------------------------------------------------------------
// Aliases
// ---------------------------------------------------------------------------

/// With the values of the first `n` fields of a struct, and of what they wrap.
pub open spec fn with_fields(
    acc: Entries<Seq<char>>,
    name: Seq<char>,
    fields: Seq<(Seq<char>, Seq<char>)>,
    n: nat,
) -> Entries<Seq<char>>
    decreases n,
{
    if n == 0 {
        acc
    } else {
        with_alias(
            with_fields(acc, name, fields, (n - 1) as nat),
            name + "."@ + schema_name(fields[n - 1].0),
            alias_of(fields[n - 1].1),
        )
    }
}

/// With the value of a field and of what it wraps, unless it is blank.
pub open spec fn with_alias(acc: Entries<Seq<char>>, field: Seq<char>, value: Seq<char>) -> Entries<
    Seq<char>,
> {
    if value.len() > 0 {
        with_entry(with_entry(acc, field, value), field + ".0"@, value)
    } else {
        acc
    }
}

/// Sets the value of a field and of what it wraps, unless it is blank.
pub fn set_alias(aliases: &mut NameMap<String>, field: String, value: String)
    ensures
        entries_map(final(aliases)@, string_fn()) == with_alias(
            entries_map(old(aliases)@, string_fn()),
            field@,
            value@,
        ),
{
    if !value.as_str().is_empty() {
        let mut inner = field.clone();
        inner.push_str(".0");
        aliases.insert(field, value.clone());
        aliases.insert(inner, value);
    }
}

/// With what a statement names.
pub open spec fn with_named_value(s: StatementV, acc: Entries<Seq<char>>) -> Entries<Seq<char>> {
    match (s.pattern, s.expr) {
        (Some(p), Some(e)) => match name_of_pattern(p) {
            Some(name) => {
                let own = match wrapped_arg(e) {
                    Some(value) => with_entry(acc, name + ".0"@, value),
                    None => acc,
                };
                match syn_struct(e) {
                    Some((fields, _)) => with_fields(own, name, fields, fields.len()),
                    None => own,
                }
            },
            None => acc,
        },
        _ => acc,
    }
}

fn read_named_value(s: &Statement, aliases: &mut NameMap<String>)
    ensures
        entries_map(final(aliases)@, string_fn()) == with_named_value(
            StatementV { pattern: opt_text(s.pattern), expr: opt_text(s.expr) },
            entries_map(old(aliases)@, string_fn()),
        ),
{
    match (&s.pattern, &s.expr) {
        (Some(p), Some(e)) => {
            match simple_pat_ident(p) {
                Some(name) => {
                    match wrapper_ctor_arg(e) {
                        Some(value) => {
                            let mut inner = name.clone();
                            inner.push_str(".0");
                            aliases.insert(inner, value);
                        },
                        None => {},
                    }
                    let ghost own = entries_map(aliases@, string_fn());
                    match struct_parts(e) {
                        Some((fields, _)) => {
                            let ghost all = pair_views(fields@);
                            for i in 0..fields.len()
                                invariant
                                    all == pair_views(fields@),
                                    entries_map(aliases@, string_fn()) == with_fields(
                                        own,
                                        name@,
                                        all,
                                        i as nat,
                                    ),
                            {
                                let field_name = normalize_schema_name(&fields[i].0);
                                let mut field = name.clone();
                                field.push_str(".");
                                field.push_str(&field_name);
                                let value = normalize_ast_expr_alias(&fields[i].1);
                                set_alias(aliases, field, value);
                            }
                        },
                        None => {},
                    }
                },
                None => {},
            }
        },
        _ => {},
    }
}

pub open spec fn named_values_upto(ss: Seq<StatementV>, n: nat) -> Entries<Seq<char>>
    decreases n,
{
    if n == 0 {
        Seq::empty()
    } else {
        with_named_value(ss[n - 1], named_values_upto(ss, (n - 1) as nat))
    }
}

/// What the statements of a block name.
pub open spec fn named_values(block: Seq<char>) -> Entries<Seq<char>> {
    named_values_upto(stmts_of(block), stmts_of(block).len())
}

/// What the statements of a block name.
pub fn infer_source_expr_aliases_from_block(block: &str) -> (r: NameMap<String>)
    ensures
        entries_map(r@, string_fn()) == named_values(block@),
{
    let ss = stmts(block);
    let ghost all = statement_views(ss@);
    let mut out: NameMap<String> = NameMap::new();
    for i in 0..ss.len()
        invariant
            all == statement_views(ss@),
            entries_map(out@, string_fn()) == named_values_upto(all, i as nat),
    {
        proof {
            assert(all[i as int] == StatementV {
                pattern: opt_text(ss@[i as int].pattern),
                expr: opt_text(ss@[i as int].expr),
            });
        }
        read_named_value(&ss[i], &mut out);
    }
    out
}

// ---------------------------------------------------------------------------
// Parameters
// ---------------------------------------------------------------------------

/// The parameters with one more: behind those that do not start later.
pub open spec fn param_placed(ps: Seq<ParamV>, p: ParamV) -> Seq<ParamV>
    decreases ps.len(),
{
    if ps.len() == 0 || ps.last().start <= p.start {
        ps.push(p)
    } else {
        param_placed(ps.drop_last(), p).push(ps.last())
    }
}

/// The parameters stand in the order in which they start.
pub open spec fn params_in_order(ps: Seq<ParamV>) -> bool {
    forall|i: int, j: int|
        0 <= i < j < ps.len() ==> (#[trigger] ps[i]).start <= (#[trigger] ps[j]).start
}

/// Parameters that stand in the order in which they start still do so with one
/// more, and none is lost.
pub proof fn placing_params_keeps_order(ps: Seq<ParamV>, p: ParamV)
    requires
        params_in_order(ps),
    ensures
        params_in_order(param_placed(ps, p)),
        param_placed(ps, p).to_multiset() == ps.to_multiset().insert(p),
        forall|i: int|
            0 <= i < param_placed(ps, p).len() ==> (#[trigger] param_placed(ps, p)[i]).start
                <= p.start || (ps.len() > 0 && param_placed(ps, p)[i].start <= ps.last().start),
    decreases ps.len(),
{
    broadcast use vstd::seq_lib::group_to_multiset_ensures;

    let out = param_placed(ps, p);
    if ps.len() == 0 || ps.last().start <= p.start {
        assert forall|i: int, j: int| 0 <= i < j < out.len() implies (#[trigger] out[i]).start <= (
        #[trigger] out[j]).start by {
            if j == ps.len() {
                assert(ps[i].start <= ps[ps.len() - 1].start);
            }
        }
    } else {
        let front = ps.drop_last();
        placing_params_keeps_order(front, p);
        let inner = param_placed(front, p);
        assert(ps =~= front.push(ps.last()));
        assert forall|i: int, j: int| 0 <= i < j < out.len() implies (#[trigger] out[i]).start <= (
        #[trigger] out[j]).start by {
            if j == inner.len() {
                assert(out[i] == inner[i]);
                if front.len() > 0 {
                    assert(ps[front.len() - 1].start <= ps[ps.len() - 1].start);
                }
            } else {
                assert(out[i] == inner[i] && out[j] == inner[j]);
            }
        }
        assert forall|i: int| 0 <= i < out.len() implies (#[trigger] out[i]).start <= p.start || (
        ps.len() > 0 && out[i].start <= ps.last().start) by {
            if i < inner.len() {
                assert(out[i] == inner[i]);
                if front.len() > 0 {
                    assert(ps[front.len() - 1].start <= ps[ps.len() - 1].start);
                }
            }
        }
        assert(out.to_multiset() =~= ps.to_multiset().insert(p));
    }
}

/// Adds a parameter, behind those that do not start later.
pub fn place_param(ps: &mut Vec<PinocchioParamField>, p: PinocchioParamField)
    ensures
        param_views(final(ps)@) == param_placed(param_views(old(ps)@), p@),
{
    let ghost all = param_views(ps@);
    let mut i: usize = ps.len();
    proof {
        assert(all.take(i as int) =~= all);
        assert(param_placed(all, p@) =~= param_placed(all.take(i as int), p@) + all.subrange(
            i as int,
            all.len() as int,
        ));
    }
    while i > 0 && ps[i - 1].start > p.start
        invariant
            i <= ps@.len(),
            all == param_views(ps@),
            param_placed(all, p@) == param_placed(all.take(i as int), p@) + all.subrange(
                i as int,
                all.len() as int,
            ),
        decreases i,
    {
        proof {
            assert(all.take(i as int).drop_last() =~= all.take(i - 1));
            assert(param_placed(all.take(i - 1), p@).push(all[i - 1]) + all.subrange(
                i as int,
                all.len() as int,
            ) =~= param_placed(all.take(i - 1), p@) + all.subrange(i - 1, all.len() as int));
        }
        i = i - 1;
    }
    let ghost pv = p@;
    ps.insert(i, p);
    proof {
        assert(param_views(ps@) =~= param_placed(all, pv));
    }
}

/// With the number that a statement reads from the instruction data.
pub open spec fn with_read_number(s: StatementV, acc: Seq<ParamV>) -> Seq<ParamV> {
    match (s.pattern, s.expr) {
        (Some(p), Some(e)) => match (name_of_pattern(p), read_number(e)) {
            (Some(name), Some((ty, from, to))) => param_placed(
                acc,
                ParamV { name, rust_type: ty, start: from as usize, end: to as usize },
            ),
            _ => acc,
        },
        _ => acc,
    }
}

/// The numbers that a block and the blocks in it read from the instruction
/// data, in the order in which they start, with those of `acc`.
pub open spec fn params_in_block(block: Seq<char>, acc: Seq<ParamV>) -> Seq<ParamV>
    decreases size(block), 1nat, 0int,
{
    params_in_stmts(stmts_of(block), size(block), 0, acc)
}

pub open spec fn params_in_stmts(ss: Seq<StatementV>, bound: nat, i: int, acc: Seq<ParamV>) -> Seq<
    ParamV,
>
    decreases bound, 0nat, ss.len() - i,
{
    if i < 0 || i >= ss.len() {
        acc
    } else {
        let own = with_read_number(ss[i], acc);
        match ss[i].expr {
            Some(e) => params_in_stmts(
                ss,
                bound,
                i + 1,
                if size(e) < bound {
                    params_in_expr(e, own)
                } else {
                    own
                },
            ),
            None => params_in_stmts(ss, bound, i + 1, own),
        }
    }
}

pub open spec fn params_in_expr(e: Seq<char>, acc: Seq<ParamV>) -> Seq<ParamV>
    decreases size(e), 2nat, 0int,
{
    match (syn_block(e), syn_if(e)) {
        (Some((alone, b)), _) => if alone && size(b) <= size(e) {
            params_in_block(b, acc)
        } else {
            acc
        },
        (_, Some(x)) => {
            let inside = if size(x.then_block) <= size(e) {
                params_in_block(x.then_block, acc)
            } else {
                acc
            };
            match x.otherwise {
                Some(o) => match syn_block(o) {
                    Some((true, b)) => if size(b) <= size(e) {
                        params_in_block(b, inside)
                    } else {
                        inside
                    },
                    _ => inside,
                },
                None => inside,
            }
        },
        _ => acc,
    }
}

fn read_param(s: &Statement, params: &mut Vec<PinocchioParamField>)
    ensures
        param_views(final(params)@) == with_read_number(
            StatementV { pattern: opt_text(s.pattern), expr: opt_text(s.expr) },
            param_views(old(params)@),
        ),
{
    match (&s.pattern, &s.expr) {
        (Some(p), Some(e)) => {
            match (simple_pat_ident(p), from_le_bytes_instruction_slice(e)) {
                (Some(name), Some((rust_type, start, end))) => {
                    place_param(params, PinocchioParamField { name, rust_type, start, end });
                },
                _ => {},
            }
        },
        _ => {},
    }
}

fn collect_params_from_stmts(block: &str, params: &mut Vec<PinocchioParamField>)
    ensures
        param_views(final(params)@) == params_in_block(block@, param_views(old(params)@)),
    decreases size(block@), 1nat,
{
    let ss = stmts(block);
    let ghost all = statement_views(ss@);
    let ghost start = param_views(params@);
    let mut i: usize = 0;
    while i < ss.len()
        invariant
            i <= ss@.len(),
            all == statement_views(ss@),
            params_in_block(block@, start) == params_in_stmts(
                all,
                size(block@),
                i as int,
                param_views(params@),
            ),
        decreases ss@.len() - i,
    {
        let s = &ss[i];
        proof {
            assert(all[i as int] == StatementV {
                pattern: opt_text(s.pattern),
                expr: opt_text(s.expr),
            });
        }
        read_param(s, params);
        match &s.expr {
            Some(e) => {
                if shorter(e, block) {
                    collect_params_from_expr(e, params);
                }
            },
            None => {},
        }
        i = i + 1;
    }
}

fn collect_params_from_expr(e: &str, params: &mut Vec<PinocchioParamField>)
    ensures
        param_views(final(params)@) == params_in_expr(e@, param_views(old(params)@)),
    decreases size(e@), 2nat,
{
    match block_part(e) {
        Some((alone, b)) => {
            if alone && !shorter(e, &b) {
                collect_params_from_stmts(&b, params);
            }
            return ;
        },
        None => {},
    }
    match if_parts(e) {
        Some(x) => {
            if !shorter(e, &x.then_block) {
                collect_params_from_stmts(&x.then_block, params);
            }
            match &x.otherwise {
                Some(o) => {
                    match block_part(o) {
                        Some((true, b)) => {
                            if !shorter(e, &b) {
                                collect_params_from_stmts(&b, params);
                            }
                        },
                        _ => {},
                    }
                },
                None => {},
            }
        },
        None => {},
    }
}

/// The numbers that a block reads from the instruction data.
pub fn infer_params_from_block(block: &str) -> (r: Vec<PinocchioParamField>)
    ensures
        param_views(r@) == params_in_block(block@, Seq::empty()),
{
    let mut out: Vec<PinocchioParamField> = Vec::new();
    proof {
        assert(param_views(out@) =~= Seq::empty());
    }
    collect_params_from_stmts(block, &mut out);
    out
}

/// The numbers that a block reads stand in the order in which they start.
pub proof fn block_params_stand_in_order(block: Seq<char>, acc: Seq<ParamV>)
    requires
        params_in_order(acc),
    ensures
        params_in_order(params_in_block(block, acc)),
    decreases size(block), 1nat, 0int,
{
    lemma_stmts_ordered(stmts_of(block), size(block), 0, acc);
}

proof fn lemma_stmts_ordered(ss: Seq<StatementV>, bound: nat, i: int, acc: Seq<ParamV>)
    requires
        params_in_order(acc),
    ensures
        params_in_order(params_in_stmts(ss, bound, i, acc)),
    decreases bound, 0nat, ss.len() - i,
{
    if 0 <= i < ss.len() {
        let own = with_read_number(ss[i], acc);
        if let (Some(p), Some(e)) = (ss[i].pattern, ss[i].expr) {
            if let (Some(name), Some((ty, from, to))) = (name_of_pattern(p), read_number(e)) {
                placing_params_keeps_order(
                    acc,
                    ParamV { name, rust_type: ty, start: from as usize, end: to as usize },
                );
            }
        }
        assert(params_in_order(own));
        match ss[i].expr {
            Some(e) => {
                if size(e) < bound {
                    lemma_expr_ordered(e, own);
                    lemma_stmts_ordered(ss, bound, i + 1, params_in_expr(e, own));
                } else {
                    lemma_stmts_ordered(ss, bound, i + 1, own);
                }
            },
            None => {
                lemma_stmts_ordered(ss, bound, i + 1, own);
            },
        }
    }
}

proof fn lemma_expr_ordered(e: Seq<char>, acc: Seq<ParamV>)
    requires
        params_in_order(acc),
    ensures
        params_in_order(params_in_expr(e, acc)),
    decreases size(e), 2nat, 0int,
{
    match (syn_block(e), syn_if(e)) {
        (Some((alone, b)), _) => {
            if alone && size(b) <= size(e) {
                block_params_stand_in_order(b, acc);
            }
        },
        (_, Some(x)) => {
            if size(x.then_block) <= size(e) {
                block_params_stand_in_order(x.then_block, acc);
            }
            let inside = if size(x.then_block) <= size(e) {
                params_in_block(x.then_block, acc)
            } else {
                acc
            };
            if let Some(o) = x.otherwise {
                if let Some((true, b)) = syn_block(o) {
                    if size(b) <= size(e) {
                        block_params_stand_in_order(b, inside);
                    }
                }
            }
        },
        _ => {},
    }
}

} // verus!
