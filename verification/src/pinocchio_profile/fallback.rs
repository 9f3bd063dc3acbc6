//! What the sources of handlers say, read as plain text. This is for sources
//! that cannot be read as Rust.
use vstd::prelude::*;

use crate::names::{entries_map, lookup, with_entry, NameMap};
use crate::number::{parse_below, parse_u8, parse_usize};
use crate::outside::{match_view, matches_view, Match};
use crate::pattern::{all_matches, group, group_text_of, pattern_matches};
use crate::pinocchio_profile::blocks::{
    find_derivation, opt_lookup, param_placed, params_in_order, place_param, placing_params_keeps_order, set_alias, set_mint, with_alias,
    with_mint,
};
use crate::pinocchio_profile::naming::{is_ident, names_ident, normalize_schema_name, schema_name};
use crate::pinocchio_profile::plain::{
    arg_lists, brackets_balance, call_arguments, calls_from, closing, drop_blank, full, key_call_name, lemma_open_is_no_close,
    matching_bracket, pieces, ref_derivation, ref_name, split_top_level_commas, strip_key_call,
    strip_ref_derive_call, strip_ref_ident,
};
use crate::pinocchio_profile::{
    binding_fn, derivation_fn, empty_handler, handler_fn, lookup_or, no_role, param_views, pda_fn,
    role_fn, seed_views, string_fn, take_handler, BindingV, DerivationV, Entries, HandlerV,
    ParamV, PdaV, PinocchioAccountRole, PinocchioHandlerProfile, PinocchioLocalKeyDerivation,
    PinocchioParamField, PinocchioPdaDerivation, PinocchioPdaSeed, PinocchioTokenAccountBinding,
    RoleV, SeedV,
};
use crate::search::{
    char_at_or_after, contains, contains_text, ends_with, ends_with_text, find_char_from, find_from,
    first_at, lemma_char_at_or_after, lemma_first_at, opt_text,
};
use crate::split::{
    opt_pair, split, split_once, split_once_text, split_text, trim, trim_end_char, trim_end_of,
    trim_start, trim_start_matches, trim_start_of, trim_start_text, trim_text,
};
use crate::text::{chars_of, ident_char, is_ident_char, is_space, slice_text, space, texts};

verus! {

broadcast use {
    crate::names::group_entries,
    crate::text::group_text,
    crate::text::texts_index,
    crate::text::texts_len,
};

/// Matches of a pattern, as text.
pub type Matches = Seq<(Seq<Seq<char>>, Seq<char>)>;

// ---------------------------------------------------------------------------
// Bodies of functions
// ---------------------------------------------------------------------------

/// The functions of handlers.
pub const PROCESS_FN: &'static str = "(?:pub\\s+)?fn\\s+process_([A-Za-z_][A-Za-z0-9_]*)\\s*\\(";

/// The functions that derive addresses.
pub const DERIVE_FN: &'static str = "pub\\s+fn\\s+derive_([A-Za-z_][A-Za-z0-9_]*)\\s*\\(([^)]*)\\)";

/// What stands between the first brace of a text and the one that closes it.
pub open spec fn body_of(rest: Seq<char>) -> Option<Seq<char>> {
    match char_at_or_after(rest, '{', 0) {
        Some(open) => match closing(rest, '{', '}', open, 0) {
            Some(close) => Some(rest.subrange(open + 1, close)),
            None => None,
        },
        None => None,
    }
}

/// What stands between the first brace of a text and the one that closes it.
pub fn read_body(rest: &str) -> (r: Option<String>)
    ensures
        opt_text(r) == body_of(rest@),
{
    let v = chars_of(rest);
    match find_char_from(&v, '{', 0) {
        Some(open) => match matching_bracket(&v, open, '{', '}') {
            Some(close) => {
                proof {
                    brackets_balance(v@, '{', '}', open as int);
                }
                Some(slice_text(&v, open + 1, close))
            },
            None => None,
        },
        None => None,
    }
}

/// The names and the bodies of the functions of the first `n` matches.
pub open spec fn bodies_upto(ms: Matches, n: nat) -> Seq<(Seq<char>, Seq<char>)>
    decreases n,
{
    if n == 0 {
        Seq::empty()
    } else {
        let before = bodies_upto(ms, (n - 1) as nat);
        match body_of(ms[n - 1].1) {
            Some(body) => before.push((group_text_of(ms[n - 1], 1), body)),
            None => before,
        }
    }
}

pub open spec fn body_views(v: Seq<(String, String)>) -> Seq<(Seq<char>, Seq<char>)> {
    Seq::new(v.len(), |i: int| (v[i].0@, v[i].1@))
}

/// The names and the bodies of functions, when their headers are found.
pub fn bodies_from(ms: &Vec<Match>) -> (r: Vec<(String, String)>)
    ensures
        body_views(r@) == bodies_upto(matches_view(ms@), ms@.len()),
{
    let ghost all = matches_view(ms@);
    let mut out: Vec<(String, String)> = Vec::new();
    proof {
        assert(body_views(out@) =~= Seq::empty());
    }
    for i in 0..ms.len()
        invariant
            all == matches_view(ms@),
            body_views(out@) == bodies_upto(all, i as nat),
    {
        match read_body(&ms[i].rest) {
            Some(body) => {
                let p = (group(&ms[i], 1), body);
                proof {
                    assert(body_views(out@.push(p)) =~= body_views(out@).push((p.0@, p.1@)));
                }
                out.push(p);
            },
            None => {},
        }
    }
    out
}

/// The handlers of a source: their names and the bodies of their functions.
pub open spec fn handler_bodies(source: Seq<char>) -> Seq<(Seq<char>, Seq<char>)> {
    let ms = pattern_matches(PROCESS_FN@, source);
    bodies_upto(ms, ms.len())
}

/// The handlers of a source.
pub fn process_fn_bodies(source: &str) -> (r: Vec<(String, String)>)
    ensures
        body_views(r@) == handler_bodies(source@),
{
    let ms = all_matches(PROCESS_FN, source);
    bodies_from(&ms)
}

// ---------------------------------------------------------------------------
// Accounts
// ---------------------------------------------------------------------------

/// Accounts that are taken all at once.
pub const ALL_ACCOUNTS: &'static str = "(?s)let\\s*\\[([^\\]]+),\\s*\\.\\.\\]\\s*=\\s*accounts";

/// An account that is taken from the list of accounts.
pub const NEXT_ACCOUNT: &'static str = "let\\s+([A-Za-z_][A-Za-z0-9_]*)\\s*=\\s*next_account_info\\(";

/// The first groups of the first `n` matches.
pub open spec fn firsts_upto(ms: Matches, n: nat) -> Seq<Seq<char>>
    decreases n,
{
    if n == 0 {
        Seq::empty()
    } else {
        firsts_upto(ms, (n - 1) as nat).push(group_text_of(ms[n - 1], 1))
    }
}

/// The accounts that are taken: all at once, or else one after the other.
pub open spec fn accounts_of(all: Matches, next: Matches) -> Seq<Seq<char>> {
    let at_once = if all.len() > 0 {
        full(split_text(group_text_of(all[0], 1), ','))
    } else {
        Seq::empty()
    };
    if at_once.len() > 0 {
        at_once
    } else {
        firsts_upto(next, next.len())
    }
}

/// The accounts that are taken, when the statements that take them are found.
pub fn accounts_from(all: &Vec<Match>, next: &Vec<Match>) -> (r: Vec<String>)
    ensures
        texts(r@) == accounts_of(matches_view(all@), matches_view(next@)),
{
    if all.len() > 0 {
        proof {
            assert(matches_view(all@)[0] == match_view(all@[0]));
        }
        let names = drop_blank(&split(&group(&all[0], 1), ','));
        if names.len() > 0 {
            return names;
        }
    }
    let ghost ms = matches_view(next@);
    let mut out: Vec<String> = Vec::new();
    for i in 0..next.len()
        invariant
            ms == matches_view(next@),
            texts(out@) == firsts_upto(ms, i as nat),
    {
        out.push(group(&next[i], 1));
    }
    out
}

/// The accounts that a body takes, in their order.
pub open spec fn accounts_in_text(body: Seq<char>) -> Seq<Seq<char>> {
    accounts_of(pattern_matches(ALL_ACCOUNTS@, body), pattern_matches(NEXT_ACCOUNT@, body))
}

/// The accounts that a body takes, in their order.
pub fn infer_accounts(body: &str) -> (r: Vec<String>)
    ensures
        texts(r@) == accounts_in_text(body@),
{
    let all = all_matches(ALL_ACCOUNTS, body);
    let next = all_matches(NEXT_ACCOUNT, body);
    accounts_from(&all, &next)
}

// ---------------------------------------------------------------------------
// Roles
// ---------------------------------------------------------------------------

/// A text without white space.
pub open spec fn compact_upto(s: Seq<char>, n: nat) -> Seq<char>
    decreases n,
{
    if n == 0 {
        Seq::empty()
    } else if is_space(s[n - 1]) {
        compact_upto(s, (n - 1) as nat)
    } else {
        compact_upto(s, (n - 1) as nat).push(s[n - 1])
    }
}

fn compact(s: &str) -> (r: String)
    ensures
        r@ == compact_upto(s@, s@.len()),
{
    let v = chars_of(s);
    let mut out = String::new();
    for i in 0..v.len()
        invariant
            v@ == s@,
            out@ == compact_upto(s@, i as nat),
    {
        if !space(v[i]) {
            out.push(v[i]);
        }
    }
    out
}

/// Whether `a`, `b` and `c` stand one after another in `t`.
pub open spec fn has_call(t: Seq<char>, a: Seq<char>, b: Seq<char>, c: Seq<char>) -> bool {
    contains_text(t, a + b + c)
}

fn finds(t: &str, a: &str, b: &str, c: &str) -> (r: bool)
    ensures
        r == has_call(t@, a@, b@, c@),
{
    let mut needle = a.to_owned();
    needle.push_str(b);
    needle.push_str(c);
    contains(t, &needle)
}

/// Whether a text without white space checks that an account is the token
/// program.
pub open spec fn checks_token_program(t: Seq<char>, id: Seq<char>) -> bool {
    has_call(t, "require_key("@, id, ",&SPL_TOKEN_ID)"@) || has_call(
        t,
        "require_key("@,
        id,
        ",&pinocchio_tkn::TOKEN_PROGRAM_ID)"@,
    ) || has_call(t, ""@, id, ".key()!=&pinocchio_tkn::TOKEN_PROGRAM_ID"@) || has_call(
        t,
        ""@,
        id,
        ".key()!=&SPL_TOKEN_ID"@,
    )
}

/// Whether a text without white space reads an account as a mint.
pub open spec fn reads_mint(t: Seq<char>, id: Seq<char>) -> bool {
    has_call(t, "read_mint_decimals("@, id, ")"@) || has_call(
        t,
        "Mint::from_account_info("@,
        id,
        ")"@,
    )
}

/// Whether a text without white space uses an account as a token account.
pub open spec fn uses_token_account(t: Seq<char>, id: Seq<char>) -> bool {
    has_call(t, "require_token_account("@, id, ","@) || has_call(
        t,
        "read_token_amount("@,
        id,
        ")"@,
    ) || has_call(t, "write_token_amount("@, id, ","@) || has_call(
        t,
        "TokenAccount::from_account_info("@,
        id,
        ")"@,
    )
}

/// What a text without white space says of an account.
pub open spec fn role_in_text(t: Seq<char>, id: Seq<char>) -> RoleV {
    RoleV {
        is_signer: if has_call(t, ""@, id, ".is_signer"@) {
            Some(true)
        } else {
            None
        },
        is_writable: if has_call(t, ""@, id, ".is_writable"@) {
            Some(true)
        } else {
            None
        },
        is_program: if has_call(t, ""@, id, ".is_executable()"@) || has_call(
            t,
            ""@,
            id,
            ".executable"@,
        ) || checks_token_program(t, id) {
            Some(true)
        } else {
            None
        },
        account_type: if uses_token_account(t, id) {
            Some("token"@)
        } else if reads_mint(t, id) {
            Some("mint"@)
        } else if checks_token_program(t, id) {
            Some("token"@)
        } else {
            None
        },
    }
}

fn read_role(t: &str, id: &str) -> (r: PinocchioAccountRole)
    ensures
        r@ == role_in_text(t@, id@),
{
    let mut role = PinocchioAccountRole::default();
    if finds(t, "", id, ".is_signer") {
        role.is_signer = Some(true);
    }
    if finds(t, "", id, ".is_writable") {
        role.is_writable = Some(true);
    }
    if finds(t, "", id, ".is_executable()") || finds(t, "", id, ".executable") {
        role.is_program = Some(true);
    }
    if finds(t, "require_key(", id, ",&SPL_TOKEN_ID)") || finds(
        t,
        "require_key(",
        id,
        ",&pinocchio_tkn::TOKEN_PROGRAM_ID)",
    ) || finds(t, "", id, ".key()!=&pinocchio_tkn::TOKEN_PROGRAM_ID") || finds(
        t,
        "",
        id,
        ".key()!=&SPL_TOKEN_ID",
    ) {
        role.is_program = Some(true);
        role.account_type = Some("token".to_owned());
    }
    if finds(t, "read_mint_decimals(", id, ")") || finds(t, "Mint::from_account_info(", id, ")") {
        role.account_type = Some("mint".to_owned());
    }
    if finds(t, "require_token_account(", id, ",") || finds(t, "read_token_amount(", id, ")")
        || finds(t, "write_token_amount(", id, ",") || finds(
        t,
        "TokenAccount::from_account_info(",
        id,
        ")",
    ) {
        role.account_type = Some("token".to_owned());
    }
    role
}

/// What a text without white space says of the first `n` accounts.
pub open spec fn text_roles_upto(t: Seq<char>, accounts: Seq<Seq<char>>, n: nat) -> Entries<RoleV>
    decreases n,
{
    if n == 0 {
        Seq::empty()
    } else {
        let before = text_roles_upto(t, accounts, (n - 1) as nat);
        let id = schema_name(accounts[n - 1]);
        if role_in_text(t, id) == no_role() {
            before
        } else {
            with_entry(before, id, role_in_text(t, id))
        }
    }
}

/// What a body says of accounts.
pub open spec fn roles_in_text(body: Seq<char>, accounts: Seq<Seq<char>>) -> Entries<RoleV> {
    text_roles_upto(compact_upto(body, body.len()), accounts, accounts.len())
}

/// What a body says of accounts.
pub fn infer_account_roles(body: &str, accounts: &Vec<String>) -> (r: NameMap<
    PinocchioAccountRole,
>)
    ensures
        entries_map(r@, role_fn()) == roles_in_text(body@, texts(accounts@)),
{
    let t = compact(body);
    let mut roles: NameMap<PinocchioAccountRole> = NameMap::new();
    for i in 0..accounts.len()
        invariant
            t@ == compact_upto(body@, body@.len()),
            entries_map(roles@, role_fn()) == text_roles_upto(t@, texts(accounts@), i as nat),
    {
        let id = normalize_schema_name(&accounts[i]);
        let role = read_role(&t, &id);
        if !role.is_empty() {
            roles.insert(id, role);
        }
    }
    roles
}

// ---------------------------------------------------------------------------
// Keys
// ---------------------------------------------------------------------------

/// A check of an account's key against a name.
pub const KEY_CHECK: &'static str = "require_key\\(\\s*([A-Za-z_][A-Za-z0-9_]*)\\s*,\\s*&\\s*([A-Za-z_][A-Za-z0-9_]*)\\s*\\)";

/// A key that is derived.
pub const DERIVED_KEY: &'static str = "(?s)let\\s+([A-Za-z_][A-Za-z0-9_]*)\\s*=\\s*derive_([A-Za-z_][A-Za-z0-9_]*)\\s*\\((.*?)\\)\\s*(?:\\.0)?\\s*;";

pub open spec fn key_names_upto(ms: Matches, n: nat) -> Entries<Seq<char>>
    decreases n,
{
    if n == 0 {
        Seq::empty()
    } else {
        with_entry(
            key_names_upto(ms, (n - 1) as nat),
            schema_name(group_text_of(ms[n - 1], 2)),
            schema_name(group_text_of(ms[n - 1], 1)),
        )
    }
}

/// The accounts whose keys are checked, under the names of the keys, when the
/// checks are found.
pub fn key_names_from(ms: &Vec<Match>) -> (r: NameMap<String>)
    ensures
        entries_map(r@, string_fn()) == key_names_upto(matches_view(ms@), ms@.len()),
{
    let ghost all = matches_view(ms@);
    let mut out: NameMap<String> = NameMap::new();
    for i in 0..ms.len()
        invariant
            all == matches_view(ms@),
            entries_map(out@, string_fn()) == key_names_upto(all, i as nat),
    {
        out.insert(
            normalize_schema_name(&group(&ms[i], 2)),
            normalize_schema_name(&group(&ms[i], 1)),
        );
    }
    out
}

/// The accounts whose keys a body checks, under the names of the keys.
pub open spec fn key_names_in_text(body: Seq<char>) -> Entries<Seq<char>> {
    let ms = pattern_matches(KEY_CHECK@, body);
    key_names_upto(ms, ms.len())
}

/// The accounts whose keys a body checks, under the names of the keys.
pub fn infer_key_account_aliases(body: &str) -> (r: NameMap<String>)
    ensures
        entries_map(r@, string_fn()) == key_names_in_text(body@),
{
    let ms = all_matches(KEY_CHECK, body);
    key_names_from(&ms)
}

pub open spec fn derived_keys_upto(ms: Matches, n: nat) -> Entries<DerivationV>
    decreases n,
{
    if n == 0 {
        Seq::empty()
    } else {
        with_entry(
            derived_keys_upto(ms, (n - 1) as nat),
            schema_name(group_text_of(ms[n - 1], 1)),
            DerivationV {
                derivation: schema_name(group_text_of(ms[n - 1], 2)),
                args: full(pieces(group_text_of(ms[n - 1], 3))),
            },
        )
    }
}

/// The keys that are derived, when the statements that derive them are found.
pub fn derived_keys_from(ms: &Vec<Match>) -> (r: NameMap<PinocchioLocalKeyDerivation>)
    ensures
        entries_map(r@, derivation_fn()) == derived_keys_upto(matches_view(ms@), ms@.len()),
{
    let ghost all = matches_view(ms@);
    let mut out: NameMap<PinocchioLocalKeyDerivation> = NameMap::new();
    for i in 0..ms.len()
        invariant
            all == matches_view(ms@),
            entries_map(out@, derivation_fn()) == derived_keys_upto(all, i as nat),
    {
        let d = PinocchioLocalKeyDerivation {
            derivation: normalize_schema_name(&group(&ms[i], 2)),
            args: drop_blank(&split_top_level_commas(&group(&ms[i], 3))),
        };
        out.insert(normalize_schema_name(&group(&ms[i], 1)), d);
    }
    out
}

/// The keys that a body derives.
pub open spec fn keys_in_text(body: Seq<char>) -> Entries<DerivationV> {
    let ms = pattern_matches(DERIVED_KEY@, body);
    derived_keys_upto(ms, ms.len())
}

/// The keys that a body derives.
pub fn infer_local_key_derivations(body: &str) -> (r: NameMap<PinocchioLocalKeyDerivation>)
    ensures
        entries_map(r@, derivation_fn()) == keys_in_text(body@),
{
    let ms = all_matches(DERIVED_KEY, body);
    derived_keys_from(&ms)
}

/// How the key of the account that a call checks is derived.
pub open spec fn text_checked_key(args: Seq<Seq<char>>, locals: Entries<DerivationV>) -> Option<
    (Seq<char>, DerivationV),
> {
    if args.len() == 2 && names_ident(trim_text(args[0])) {
        let account = schema_name(trim_text(args[0]));
        match ref_derivation(args[1]) {
            Some((name, list)) => Some(
                (account, DerivationV { derivation: schema_name(name), args: list }),
            ),
            None => match opt_lookup(locals, ref_name(args[1])) {
                Some(d) => Some((account, d)),
                None => None,
            },
        }
    } else {
        None
    }
}

fn read_checked_key(args: &Vec<String>, locals: &NameMap<PinocchioLocalKeyDerivation>) -> (r:
    Option<(String, PinocchioLocalKeyDerivation)>)
    ensures
        match r {
            Some(p) => text_checked_key(
                texts(args@),
                entries_map(locals@, derivation_fn()),
            ) == Some((p.0@, p.1@)),
            None => text_checked_key(texts(args@), entries_map(locals@, derivation_fn())) is None,
        },
{
    if args.len() != 2 {
        return None;
    }
    let account = trim(&args[0]);
    if !is_ident(&account) {
        return None;
    }
    let account = normalize_schema_name(&account);
    match strip_ref_derive_call(&args[1]) {
        Some((name, list)) => Some(
            (
                account,
                PinocchioLocalKeyDerivation { derivation: normalize_schema_name(&name), args: list },
            ),
        ),
        None => match strip_ref_ident(&args[1]) {
            Some(name) => match find_derivation(locals, &name) {
                Some(d) => Some((account, d)),
                None => None,
            },
            None => None,
        },
    }
}

pub open spec fn text_checked_keys_upto(
    calls: Seq<Seq<Seq<char>>>,
    locals: Entries<DerivationV>,
    n: nat,
) -> Entries<DerivationV>
    decreases n,
{
    if n == 0 {
        Seq::empty()
    } else {
        let before = text_checked_keys_upto(calls, locals, (n - 1) as nat);
        match text_checked_key(calls[n - 1], locals) {
            Some((account, d)) => with_entry(before, account, d),
            None => before,
        }
    }
}

/// How the keys of the accounts that a body checks are derived.
pub open spec fn checked_keys_in_text(body: Seq<char>, locals: Entries<DerivationV>) -> Entries<
    DerivationV,
> {
    let calls = calls_from(body, "require_key"@, 0);
    text_checked_keys_upto(calls, locals, calls.len())
}

/// How the keys of the accounts that a body checks are derived.
pub fn infer_account_key_derivations(
    body: &str,
    locals: &NameMap<PinocchioLocalKeyDerivation>,
) -> (r: NameMap<PinocchioLocalKeyDerivation>)
    ensures
        entries_map(r@, derivation_fn()) == checked_keys_in_text(
            body@,
            entries_map(locals@, derivation_fn()),
        ),
{
    proof {
        reveal_strlit("require_key");
    }
    let ghost ls = entries_map(locals@, derivation_fn());
    let calls = call_arguments(body, "require_key");
    let ghost all = arg_lists(calls@);
    let mut out: NameMap<PinocchioLocalKeyDerivation> = NameMap::new();
    for i in 0..calls.len()
        invariant
            ls == entries_map(locals@, derivation_fn()),
            all == arg_lists(calls@),
            entries_map(out@, derivation_fn()) == text_checked_keys_upto(all, ls, i as nat),
    {
        match read_checked_key(&calls[i], locals) {
            Some((account, d)) => {
                out.insert(account, d);
            },
            None => {},
        }
    }
    out
}

// ---------------------------------------------------------------------------
// Token accounts
// ---------------------------------------------------------------------------

/// A check of a token account against the keys of two accounts.
pub const TOKEN_OF_KEY: &'static str = "require_token_account\\(\\s*([A-Za-z_][A-Za-z0-9_]*)\\s*,\\s*([A-Za-z_][A-Za-z0-9_]*)\\.key\\(\\)\\s*,\\s*([A-Za-z_][A-Za-z0-9_]*)\\.key\\(\\)\\s*\\)";

/// A check of a token account against the key of an account and a name.
pub const TOKEN_OF_NAME: &'static str = "require_token_account\\(\\s*([A-Za-z_][A-Za-z0-9_]*)\\s*,\\s*([A-Za-z_][A-Za-z0-9_]*)\\.key\\(\\)\\s*,\\s*&\\s*([A-Za-z_][A-Za-z0-9_]*)\\s*\\)";

/// A check of the mint of a token account.
pub const MINT_CHECK: &'static str = "require_matching_token_mint\\(\\s*([A-Za-z_][A-Za-z0-9_]*)\\s*,\\s*([A-Za-z_][A-Za-z0-9_]*)\\.key\\(\\)\\s*\\)";

/// What a call says of a token account.
pub open spec fn text_binding(
    args: Seq<Seq<char>>,
    key_names: Entries<Seq<char>>,
    locals: Entries<DerivationV>,
) -> Option<BindingV> {
    if args.len() == 3 {
        match key_call_name(args[1]) {
            Some(mint) => Some(
                BindingV {
                    mint_account: Some(schema_name(mint)),
                    owner_account: match key_call_name(args[2]) {
                        Some(owner) => Some(owner),
                        None => opt_lookup(key_names, ref_name(args[2])),
                    },
                    owner_key: opt_lookup(locals, ref_name(args[2])),
                },
            ),
            None => None,
        }
    } else {
        None
    }
}

fn find_name(names: &NameMap<String>, k: &Option<String>) -> (r: Option<String>)
    ensures
        opt_text(r) == opt_lookup(entries_map(names@, string_fn()), opt_text(*k)),
{
    match k {
        Some(name) => match names.get(name) {
            Some(t) => Some(t.clone()),
            None => None,
        },
        None => None,
    }
}

fn find_key(
    locals: &NameMap<PinocchioLocalKeyDerivation>,
    k: &Option<String>,
) -> (r: Option<PinocchioLocalKeyDerivation>)
    ensures
        crate::names::opt_map(r, derivation_fn()) == opt_lookup(
            entries_map(locals@, derivation_fn()),
            opt_text(*k),
        ),
{
    match k {
        Some(name) => find_derivation(locals, name),
        None => None,
    }
}

fn read_text_binding(
    args: &Vec<String>,
    key_names: &NameMap<String>,
    locals: &NameMap<PinocchioLocalKeyDerivation>,
) -> (r: Option<PinocchioTokenAccountBinding>)
    ensures
        match r {
            Some(b) => text_binding(
                texts(args@),
                entries_map(key_names@, string_fn()),
                entries_map(locals@, derivation_fn()),
            ) == Some(b@),
            None => text_binding(
                texts(args@),
                entries_map(key_names@, string_fn()),
                entries_map(locals@, derivation_fn()),
            ) is None,
        },
{
    if args.len() != 3 {
        return None;
    }
    match strip_key_call(&args[1]) {
        Some(mint) => {
            let named = strip_ref_ident(&args[2]);
            let owner_account = match strip_key_call(&args[2]) {
                Some(owner) => Some(owner),
                None => find_name(key_names, &named),
            };
            Some(
                PinocchioTokenAccountBinding {
                    mint_account: Some(normalize_schema_name(&mint)),
                    owner_account,
                    owner_key_derivation: find_key(locals, &named),
                },
            )
        },
        None => None,
    }
}

pub open spec fn bound_by_calls(
    calls: Seq<Seq<Seq<char>>>,
    key_names: Entries<Seq<char>>,
    locals: Entries<DerivationV>,
    n: nat,
) -> Entries<BindingV>
    decreases n,
{
    if n == 0 {
        Seq::empty()
    } else {
        let before = bound_by_calls(calls, key_names, locals, (n - 1) as nat);
        match text_binding(calls[n - 1], key_names, locals) {
            Some(b) => with_entry(before, schema_name(calls[n - 1][0]), b),
            None => before,
        }
    }
}

fn bind_by_calls(
    body: &str,
    key_names: &NameMap<String>,
    locals: &NameMap<PinocchioLocalKeyDerivation>,
) -> (r: NameMap<PinocchioTokenAccountBinding>)
    ensures
        ({
            let calls = calls_from(body@, "require_token_account"@, 0);
            entries_map(r@, binding_fn()) == bound_by_calls(
                calls,
                entries_map(key_names@, string_fn()),
                entries_map(locals@, derivation_fn()),
                calls.len(),
            )
        }),
{
    proof {
        reveal_strlit("require_token_account");
    }
    let ghost ks = entries_map(key_names@, string_fn());
    let ghost ls = entries_map(locals@, derivation_fn());
    let calls = call_arguments(body, "require_token_account");
    let ghost all = arg_lists(calls@);
    let mut out: NameMap<PinocchioTokenAccountBinding> = NameMap::new();
    for i in 0..calls.len()
        invariant
            ks == entries_map(key_names@, string_fn()),
            ls == entries_map(locals@, derivation_fn()),
            all == arg_lists(calls@),
            entries_map(out@, binding_fn()) == bound_by_calls(all, ks, ls, i as nat),
    {
        match read_text_binding(&calls[i], key_names, locals) {
            Some(b) => {
                out.insert(normalize_schema_name(&calls[i][0]), b);
            },
            None => {},
        }
    }
    out
}

pub open spec fn bound_to_keys(acc: Entries<BindingV>, ms: Matches, n: nat) -> Entries<BindingV>
    decreases n,
{
    if n == 0 {
        acc
    } else {
        with_entry(
            bound_to_keys(acc, ms, (n - 1) as nat),
            schema_name(group_text_of(ms[n - 1], 1)),
            BindingV {
                mint_account: Some(schema_name(group_text_of(ms[n - 1], 2))),
                owner_account: Some(schema_name(group_text_of(ms[n - 1], 3))),
                owner_key: None,
            },
        )
    }
}

pub open spec fn bound_to_names(
    acc: Entries<BindingV>,
    ms: Matches,
    key_names: Entries<Seq<char>>,
    locals: Entries<DerivationV>,
    n: nat,
) -> Entries<BindingV>
    decreases n,
{
    if n == 0 {
        acc
    } else {
        with_entry(
            bound_to_names(acc, ms, key_names, locals, (n - 1) as nat),
            schema_name(group_text_of(ms[n - 1], 1)),
            BindingV {
                mint_account: Some(schema_name(group_text_of(ms[n - 1], 2))),
                owner_account: lookup(key_names, schema_name(group_text_of(ms[n - 1], 3))),
                owner_key: lookup(locals, schema_name(group_text_of(ms[n - 1], 3))),
            },
        )
    }
}

pub open spec fn bound_to_mints(acc: Entries<BindingV>, ms: Matches, n: nat) -> Entries<BindingV>
    decreases n,
{
    if n == 0 {
        acc
    } else {
        with_mint(
            bound_to_mints(acc, ms, (n - 1) as nat),
            schema_name(group_text_of(ms[n - 1], 1)),
            schema_name(group_text_of(ms[n - 1], 2)),
        )
    }
}

/// Adds the bindings of checks against the keys of two accounts, when the
/// checks are found.
pub fn bind_to_keys(out: &mut NameMap<PinocchioTokenAccountBinding>, ms: &Vec<Match>)
    ensures
        entries_map(final(out)@, binding_fn()) == bound_to_keys(
            entries_map(old(out)@, binding_fn()),
            matches_view(ms@),
            ms@.len(),
        ),
{
    let ghost all = matches_view(ms@);
    let ghost start = entries_map(out@, binding_fn());
    for i in 0..ms.len()
        invariant
            all == matches_view(ms@),
            entries_map(out@, binding_fn()) == bound_to_keys(start, all, i as nat),
    {
        out.insert(
            normalize_schema_name(&group(&ms[i], 1)),
            PinocchioTokenAccountBinding {
                mint_account: Some(normalize_schema_name(&group(&ms[i], 2))),
                owner_account: Some(normalize_schema_name(&group(&ms[i], 3))),
                owner_key_derivation: None,
            },
        );
    }
}

/// Adds the bindings of checks against the key of an account and a name, when
/// the checks are found.
pub fn bind_to_names(
    out: &mut NameMap<PinocchioTokenAccountBinding>,
    ms: &Vec<Match>,
    key_names: &NameMap<String>,
    locals: &NameMap<PinocchioLocalKeyDerivation>,
)
    ensures
        entries_map(final(out)@, binding_fn()) == bound_to_names(
            entries_map(old(out)@, binding_fn()),
            matches_view(ms@),
            entries_map(key_names@, string_fn()),
            entries_map(locals@, derivation_fn()),
            ms@.len(),
        ),
{
    let ghost all = matches_view(ms@);
    let ghost start = entries_map(out@, binding_fn());
    let ghost ks = entries_map(key_names@, string_fn());
    let ghost ls = entries_map(locals@, derivation_fn());
    for i in 0..ms.len()
        invariant
            all == matches_view(ms@),
            ks == entries_map(key_names@, string_fn()),
            ls == entries_map(locals@, derivation_fn()),
            entries_map(out@, binding_fn()) == bound_to_names(start, all, ks, ls, i as nat),
    {
        let name = Some(normalize_schema_name(&group(&ms[i], 3)));
        let b = PinocchioTokenAccountBinding {
            mint_account: Some(normalize_schema_name(&group(&ms[i], 2))),
            owner_account: find_name(key_names, &name),
            owner_key_derivation: find_key(locals, &name),
        };
        out.insert(normalize_schema_name(&group(&ms[i], 1)), b);
    }
}

/// Adds the mints of token accounts, when the checks of the mints are found.
pub fn bind_to_mints(out: &mut NameMap<PinocchioTokenAccountBinding>, ms: &Vec<Match>)
    ensures
        entries_map(final(out)@, binding_fn()) == bound_to_mints(
            entries_map(old(out)@, binding_fn()),
            matches_view(ms@),
            ms@.len(),
        ),
{
    let ghost all = matches_view(ms@);
    let ghost start = entries_map(out@, binding_fn());
    for i in 0..ms.len()
        invariant
            all == matches_view(ms@),
            entries_map(out@, binding_fn()) == bound_to_mints(start, all, i as nat),
    {
        set_mint(
            out,
            normalize_schema_name(&group(&ms[i], 1)),
            normalize_schema_name(&group(&ms[i], 2)),
        );
    }
}

/// What a body says of token accounts: what its calls say, then the checks that
/// patterns find.
pub open spec fn tokens_in_text(
    body: Seq<char>,
    key_names: Entries<Seq<char>>,
    locals: Entries<DerivationV>,
) -> Entries<BindingV> {
    let calls = calls_from(body, "require_token_account"@, 0);
    let of_key = pattern_matches(TOKEN_OF_KEY@, body);
    let of_name = pattern_matches(TOKEN_OF_NAME@, body);
    let mints = pattern_matches(MINT_CHECK@, body);
    bound_to_mints(
        bound_to_names(
            bound_to_keys(
                bound_by_calls(calls, key_names, locals, calls.len()),
                of_key,
                of_key.len(),
            ),
            of_name,
            key_names,
            locals,
            of_name.len(),
        ),
        mints,
        mints.len(),
    )
}

/// What a body says of token accounts.
pub fn infer_token_account_bindings(
    body: &str,
    key_names: &NameMap<String>,
    locals: &NameMap<PinocchioLocalKeyDerivation>,
) -> (r: NameMap<PinocchioTokenAccountBinding>)
    ensures
        entries_map(r@, binding_fn()) == tokens_in_text(
            body@,
            entries_map(key_names@, string_fn()),
            entries_map(locals@, derivation_fn()),
        ),
{
    let mut out = bind_by_calls(body, key_names, locals);
    bind_to_keys(&mut out, &all_matches(TOKEN_OF_KEY, body));
    bind_to_names(&mut out, &all_matches(TOKEN_OF_NAME, body), key_names, locals);
    bind_to_mints(&mut out, &all_matches(MINT_CHECK, body));
    out
}

// ---------------------------------------------------------------------------
// Aliases
// ---------------------------------------------------------------------------

/// A text without references and dereferences before it.
pub open spec fn bare(e: Seq<char>) -> Seq<char> {
    trim_text(
        trim_start_of(trim_text(trim_start_of(trim_text(e), "&"@)), "*"@),
    )
}

fn strip_refs(e: &str) -> (r: String)
    ensures
        r@ == bare(e@),
{
    proof {
        reveal_strlit("&");
        reveal_strlit("*");
    }
    let a = trim(&trim_start_matches(&trim(e), "&"));
    trim(&trim_start_matches(&a, "*"))
}

/// What a text stands for: without references and dereferences, and what stands
/// in the brackets of a call of a plain name.
pub open spec fn text_alias(e: Seq<char>) -> Seq<char>
    decreases e.len(),
{
    let t = bare(e);
    match char_at_or_after(t, '(', 0) {
        Some(open) => if ends_with_text(t, ")"@) && names_ident(t.subrange(0, open)) && 0 <= open
            < t.len() - 1 && t.len() <= e.len() {
            text_alias(t.subrange(open + 1, t.len() - 1))
        } else {
            t
        },
        None => t,
    }
}

/// What a text stands for.
pub fn normalize_source_expr_alias(e: &str) -> (r: String)
    ensures
        r@ == text_alias(e@),
    decreases e@.len(),
{
    proof {
        reveal_strlit(")");
        lemma_bare_len(e@);
    }
    let t = strip_refs(e);
    let v = chars_of(&t);
    match find_char_from(&v, '(', 0) {
        Some(open) => {
            if ends_with(&t, ")") && is_ident(&slice_text(&v, 0, open)) {
                proof {
                    assert(t@.subrange(t@.len() - 1, t@.len() as int)[0] == ')');
                }
                return normalize_source_expr_alias(&slice_text(&v, open + 1, v.len() - 1));
            }
        },
        None => {},
    }
    t
}

/// Taking away at the ends of a text makes it no longer.
proof fn lemma_bare_len(e: Seq<char>)
    ensures
        bare(e).len() <= e.len(),
{
    lemma_trim_len(e);
    let a = trim_start_of(trim_text(e), "&"@);
    lemma_trim_start_of_len(trim_text(e), "&"@);
    lemma_trim_len(a);
    let b = trim_start_of(trim_text(a), "*"@);
    lemma_trim_start_of_len(trim_text(a), "*"@);
    lemma_trim_len(b);
}

proof fn lemma_trim_len(e: Seq<char>)
    ensures
        trim_text(e).len() <= e.len(),
{
    crate::split::lemma_trim_start_len(e);
    lemma_trim_end_len(trim_start_text(e));
}

proof fn lemma_trim_end_len(e: Seq<char>)
    ensures
        crate::split::trim_end_text(e).len() <= e.len(),
    decreases e.len(),
{
    if e.len() > 0 && is_space(e.last()) {
        lemma_trim_end_len(e.drop_last());
    }
}

proof fn lemma_trim_start_of_len(s: Seq<char>, t: Seq<char>)
    ensures
        trim_start_of(s, t).len() <= s.len(),
    decreases s.len(),
{
    if t.len() > 0 && crate::search::matches_at(s, t, 0) {
        lemma_trim_start_of_len(s.subrange(t.len() as int, s.len() as int), t);
    }
}

/// The first position from `i` on that holds no white space.
pub open spec fn after_blanks(s: Seq<char>, i: int) -> int
    decreases s.len() - i,
{
    if 0 <= i < s.len() && is_space(s[i]) {
        after_blanks(s, i + 1)
    } else {
        i
    }
}

fn skip_blanks(v: &Vec<char>, from: usize) -> (r: usize)
    requires
        from <= v.len(),
    ensures
        r == after_blanks(v@, from as int),
        from <= r <= v.len(),
{
    let mut i: usize = from;
    while i < v.len() && space(v[i])
        invariant
            from <= i <= v.len(),
            after_blanks(v@, from as int) == after_blanks(v@, i as int),
        decreases v.len() - i,
    {
        i = i + 1;
    }
    i
}

/// The first position from `i` on that holds no character of a name.
pub open spec fn after_name(s: Seq<char>, i: int) -> int
    decreases s.len() - i,
{
    if 0 <= i < s.len() && is_ident_char(s[i]) {
        after_name(s, i + 1)
    } else {
        i
    }
}

fn skip_name(v: &Vec<char>, from: usize) -> (r: usize)
    requires
        from <= v.len(),
    ensures
        r == after_name(v@, from as int),
        from <= r <= v.len(),
{
    let mut i: usize = from;
    while i < v.len() && ident_char(v[i])
        invariant
            from <= i <= v.len(),
            after_name(v@, from as int) == after_name(v@, i as int),
        decreases v.len() - i,
    {
        i = i + 1;
    }
    i
}

/// What the first binding from `pos` on says: the name and the value, if it
/// binds a name to a call of a plain name that ends the statement; and where to
/// go on. `None` where there is no more binding.
pub open spec fn ctor_step(s: Seq<char>, pos: int) -> Option<
    (Option<(Seq<char>, Seq<char>)>, int),
> {
    match first_at(s, "let "@, pos) {
        Some(at) => {
            let after = at + 4;
            match char_at_or_after(s, '=', after) {
                Some(eq) => {
                    let name = trim_text(s.subrange(after, eq));
                    let rhs = after_blanks(s, eq + 1);
                    let open = after_name(s, rhs);
                    if !names_ident(name) {
                        Some((None, after))
                    } else if open == rhs || open >= s.len() || s[open] != '(' {
                        Some((None, open))
                    } else {
                        match closing(s, '(', ')', open, 0) {
                            Some(close) => {
                                let end = after_blanks(s, close + 1);
                                let value = text_alias(s.subrange(open + 1, close));
                                if end < s.len() && s[end] == ';' && value.len() > 0 {
                                    Some((Some((schema_name(name), value)), close + 1))
                                } else {
                                    Some((None, close + 1))
                                }
                            },
                            None => Some((None, open + 1)),
                        }
                    }
                },
                None => None,
            }
        },
        None => None,
    }
}

fn read_ctor(v: &Vec<char>, pos: usize) -> (r: Option<(Option<(String, String)>, usize)>)
    requires
        pos <= v.len(),
    ensures
        match r {
            Some((found, next)) => ctor_step(v@, pos as int) == Some(
                (opt_pair(found), next as int),
            ) && pos < next <= v.len(),
            None => ctor_step(v@, pos as int) is None,
        },
{
    proof {
        reveal_strlit("let ");
        lemma_first_at(v@, "let "@, pos as int);
    }
    let needle = chars_of("let ");
    match find_from(v, &needle, pos) {
        Some(at) => {
            let after: usize = at + 4;
            match find_char_from(v, '=', after) {
                Some(eq) => {
                    let name = trim(&slice_text(v, after, eq));
                    if !is_ident(&name) {
                        return Some((None, after));
                    }
                    let rhs = skip_blanks(v, eq + 1);
                    let open = skip_name(v, rhs);
                    if open == rhs || open >= v.len() || v[open] != '(' {
                        return Some((None, open));
                    }
                    match matching_bracket(v, open, '(', ')') {
                        Some(close) => {
                            proof {
                                lemma_open_is_no_close(v@, open as int);
                            }
                            let end = skip_blanks(v, close + 1);
                            if end < v.len() && v[end] == ';' {
                                let value = normalize_source_expr_alias(
                                    &slice_text(v, open + 1, close),
                                );
                                if !value.as_str().is_empty() {
                                    return Some(
                                        (Some((normalize_schema_name(&name), value)), close + 1),
                                    );
                                }
                            }
                            Some((None, close + 1))
                        },
                        None => Some((None, open + 1)),
                    }
                },
                None => None,
            }
        },
        None => None,
    }
}

proof fn lemma_blanks(s: Seq<char>, i: int)
    requires
        0 <= i <= s.len(),
    ensures
        i <= after_blanks(s, i) <= s.len(),
        i <= after_name(s, i) <= s.len(),
    decreases s.len() - i,
{
    if i < s.len() {
        lemma_blanks(s, i + 1);
    }
}

proof fn lemma_ctor_step(s: Seq<char>, pos: int)
    requires
        0 <= pos <= s.len(),
    ensures
        match ctor_step(s, pos) {
            Some((_, next)) => pos < next <= s.len(),
            None => true,
        },
{
    reveal_strlit("let ");
    lemma_first_at(s, "let "@, pos);
    if let Some(at) = first_at(s, "let "@, pos) {
        let after = at + 4;
        lemma_char_at_or_after(s, '=', after);
        if let Some(eq) = char_at_or_after(s, '=', after) {
            lemma_blanks(s, eq + 1);
            let rhs = after_blanks(s, eq + 1);
            lemma_blanks(s, rhs);
            let open = after_name(s, rhs);
            if open < s.len() && s[open] == '(' {
                brackets_balance(s, '(', ')', open);
            }
        }
    }
}

/// The values of wrappers with those that the bindings from `pos` on give.
pub open spec fn wrapped_from(s: Seq<char>, pos: int, acc: Entries<Seq<char>>) -> Entries<Seq<char>>
    decreases s.len() - pos,
    via wrapped_decreases
{
    if pos < 0 || pos > s.len() {
        acc
    } else {
        match ctor_step(s, pos) {
            Some((Some((name, value)), next)) => wrapped_from(
                s,
                next,
                with_entry(acc, name + ".0"@, value),
            ),
            Some((None, next)) => wrapped_from(s, next, acc),
            None => acc,
        }
    }
}

#[via_fn]
proof fn wrapped_decreases(s: Seq<char>, pos: int, acc: Entries<Seq<char>>) {
    if !(pos < 0 || pos > s.len()) {
        lemma_ctor_step(s, pos);
    }
}

fn infer_wrapper_ctor_aliases(body: &str) -> (r: NameMap<String>)
    ensures
        entries_map(r@, string_fn()) == wrapped_from(body@, 0, Seq::empty()),
{
    let v = chars_of(body);
    let mut out: NameMap<String> = NameMap::new();
    let mut pos: usize = 0;
    loop
        invariant_except_break
            wrapped_from(v@, pos as int, entries_map(out@, string_fn())) == wrapped_from(
                v@,
                0,
                Seq::empty(),
            ),
        invariant
            v@ == body@,
            pos <= v.len(),
        ensures
            entries_map(out@, string_fn()) == wrapped_from(v@, 0, Seq::empty()),
        decreases v.len() - pos,
    {
        match read_ctor(&v, pos) {
            Some((found, next)) => {
                match found {
                    Some((name, value)) => {
                        let mut key = name;
                        key.push_str(".0");
                        out.insert(key, value);
                    },
                    None => {},
                }
                pos = next;
            },
            None => {
                break ;
            },
        }
    }
    out
}

/// A binding of a name to a call.
pub const WRAPPER: &'static str = "(?s)let\\s+([A-Za-z_][A-Za-z0-9_]*)\\s*=\\s*[A-Za-z_][A-Za-z0-9_]*\\s*\\(\\s*(.*?)\\s*\\)\\s*;";

/// A binding of a name to a struct literal.
pub const STRUCT: &'static str = "(?s)let\\s+([A-Za-z_][A-Za-z0-9_]*)\\s*=\\s*[A-Za-z_][A-Za-z0-9_]*\\s*\\{(.*?)\\}\\s*;";

pub open spec fn wrappers_upto(acc: Entries<Seq<char>>, ms: Matches, n: nat) -> Entries<Seq<char>>
    decreases n,
{
    if n == 0 {
        acc
    } else {
        let before = wrappers_upto(acc, ms, (n - 1) as nat);
        let value = text_alias(group_text_of(ms[n - 1], 2));
        if value.len() > 0 {
            with_entry(before, schema_name(group_text_of(ms[n - 1], 1)) + ".0"@, value)
        } else {
            before
        }
    }
}

/// Adds the values of wrappers, when the bindings are found.
pub fn wrappers_from(out: &mut NameMap<String>, ms: &Vec<Match>)
    ensures
        entries_map(final(out)@, string_fn()) == wrappers_upto(
            entries_map(old(out)@, string_fn()),
            matches_view(ms@),
            ms@.len(),
        ),
{
    let ghost all = matches_view(ms@);
    let ghost start = entries_map(out@, string_fn());
    for i in 0..ms.len()
        invariant
            all == matches_view(ms@),
            entries_map(out@, string_fn()) == wrappers_upto(start, all, i as nat),
    {
        let mut key = normalize_schema_name(&group(&ms[i], 1));
        let value = normalize_source_expr_alias(&group(&ms[i], 2));
        if !value.as_str().is_empty() {
            key.push_str(".0");
            out.insert(key, value);
        }
    }
}

/// A field of a struct literal: its name and its value, or a name for both.
pub open spec fn field_pair(field: Seq<char>) -> (Seq<char>, Seq<char>) {
    match split_once_text(field, ':') {
        Some((name, value)) => (trim_text(name), trim_text(value)),
        None => (field, field),
    }
}

pub open spec fn literal_fields_upto(
    acc: Entries<Seq<char>>,
    name: Seq<char>,
    fields: Seq<Seq<char>>,
    n: nat,
) -> Entries<Seq<char>>
    decreases n,
{
    if n == 0 {
        acc
    } else {
        let before = literal_fields_upto(acc, name, fields, (n - 1) as nat);
        let (field, value) = field_pair(fields[n - 1]);
        with_alias(before, name + "."@ + schema_name(field), text_alias(value))
    }
}

fn read_literal(out: &mut NameMap<String>, name: &str, list: &str)
    ensures
        entries_map(final(out)@, string_fn()) == literal_fields_upto(
            entries_map(old(out)@, string_fn()),
            name@,
            full(pieces(list@)),
            full(pieces(list@)).len(),
        ),
{
    let fields = drop_blank(&split_top_level_commas(list));
    let ghost start = entries_map(out@, string_fn());
    for i in 0..fields.len()
        invariant
            entries_map(out@, string_fn()) == literal_fields_upto(
                start,
                name@,
                texts(fields@),
                i as nat,
            ),
    {
        let (field, value) = match split_once(&fields[i], ':') {
            Some((a, b)) => (trim(&a), trim(&b)),
            None => (fields[i].clone(), fields[i].clone()),
        };
        let field_name = normalize_schema_name(&field);
        let mut key = name.to_owned();
        key.push_str(".");
        key.push_str(&field_name);
        set_alias(out, key, normalize_source_expr_alias(&value));
    }
}

pub open spec fn structs_upto(acc: Entries<Seq<char>>, ms: Matches, n: nat) -> Entries<Seq<char>>
    decreases n,
{
    if n == 0 {
        acc
    } else {
        let fields = full(pieces(group_text_of(ms[n - 1], 2)));
        literal_fields_upto(
            structs_upto(acc, ms, (n - 1) as nat),
            schema_name(group_text_of(ms[n - 1], 1)),
            fields,
            fields.len(),
        )
    }
}

/// Adds the values of the fields of struct literals, when the bindings are
/// found.
pub fn structs_from(out: &mut NameMap<String>, ms: &Vec<Match>)
    ensures
        entries_map(final(out)@, string_fn()) == structs_upto(
            entries_map(old(out)@, string_fn()),
            matches_view(ms@),
            ms@.len(),
        ),
{
    let ghost all = matches_view(ms@);
    let ghost start = entries_map(out@, string_fn());
    for i in 0..ms.len()
        invariant
            all == matches_view(ms@),
            entries_map(out@, string_fn()) == structs_upto(start, all, i as nat),
    {
        let name = normalize_schema_name(&group(&ms[i], 1));
        read_literal(out, &name, &group(&ms[i], 2));
    }
}

/// What the bindings of a body name.
pub open spec fn named_in_text(body: Seq<char>) -> Entries<Seq<char>> {
    let wrappers = pattern_matches(WRAPPER@, body);
    let structs = pattern_matches(STRUCT@, body);
    structs_upto(
        wrappers_upto(wrapped_from(body, 0, Seq::empty()), wrappers, wrappers.len()),
        structs,
        structs.len(),
    )
}

/// What the bindings of a body name.
pub fn infer_source_expr_aliases(body: &str) -> (r: NameMap<String>)
    ensures
        entries_map(r@, string_fn()) == named_in_text(body@),
{
    let mut out = infer_wrapper_ctor_aliases(body);
    wrappers_from(&mut out, &all_matches(WRAPPER, body));
    structs_from(&mut out, &all_matches(STRUCT, body));
    out
}

// ---------------------------------------------------------------------------
// Parameters
// ---------------------------------------------------------------------------

/// A number that is read from the instruction data.
pub const READ_NUMBER: &'static str = "(?s)let\\s+([A-Za-z_][A-Za-z0-9_]*)\\s*=\\s*([ui](?:8|16|32|64|128))::from_le_bytes\\(\\s*instruction_data\\s*\\.get\\((\\d+)\\.\\.(\\d+)\\)";

pub open spec fn numbers_upto(ms: Matches, n: nat) -> Seq<ParamV>
    decreases n,
{
    if n == 0 {
        Seq::empty()
    } else {
        let before = numbers_upto(ms, (n - 1) as nat);
        match (
            parse_below(group_text_of(ms[n - 1], 3), usize::MAX as nat),
            parse_below(group_text_of(ms[n - 1], 4), usize::MAX as nat),
        ) {
            (Some(start), Some(end)) => param_placed(
                before,
                ParamV {
                    name: group_text_of(ms[n - 1], 1),
                    rust_type: group_text_of(ms[n - 1], 2),
                    start: start as usize,
                    end: end as usize,
                },
            ),
            _ => before,
        }
    }
}

/// The numbers that are read from the instruction data, when the statements
/// that read them are found.
pub fn numbers_from(ms: &Vec<Match>) -> (r: Vec<PinocchioParamField>)
    ensures
        param_views(r@) == numbers_upto(matches_view(ms@), ms@.len()),
{
    let ghost all = matches_view(ms@);
    let mut out: Vec<PinocchioParamField> = Vec::new();
    proof {
        assert(param_views(out@) =~= Seq::empty());
    }
    for i in 0..ms.len()
        invariant
            all == matches_view(ms@),
            param_views(out@) == numbers_upto(all, i as nat),
    {
        match (parse_usize(&group(&ms[i], 3)), parse_usize(&group(&ms[i], 4))) {
            (Some(start), Some(end)) => {
                let p = PinocchioParamField {
                    name: group(&ms[i], 1),
                    rust_type: group(&ms[i], 2),
                    start,
                    end,
                };
                place_param(&mut out, p);
            },
            _ => {},
        }
    }
    out
}

/// The numbers that a body reads from the instruction data.
pub open spec fn params_in_text(body: Seq<char>) -> Seq<ParamV> {
    let ms = pattern_matches(READ_NUMBER@, body);
    numbers_upto(ms, ms.len())
}

/// The numbers that a body reads from the instruction data.
pub fn infer_params(body: &str) -> (r: Vec<PinocchioParamField>)
    ensures
        param_views(r@) == params_in_text(body@),
{
    let ms = all_matches(READ_NUMBER, body);
    numbers_from(&ms)
}

/// The numbers that a body reads stand in the order in which they start.
pub proof fn text_params_stand_in_order(ms: Matches, n: nat)
    ensures
        params_in_order(numbers_upto(ms, n)),
    decreases n,
{
    if n > 0 {
        text_params_stand_in_order(ms, (n - 1) as nat);
        if let (Some(start), Some(end)) = (
            parse_below(group_text_of(ms[n - 1], 3), usize::MAX as nat),
            parse_below(group_text_of(ms[n - 1], 4), usize::MAX as nat),
        ) {
            placing_params_keeps_order(
                numbers_upto(ms, (n - 1) as nat),
                ParamV {
                    name: group_text_of(ms[n - 1], 1),
                    rust_type: group_text_of(ms[n - 1], 2),
                    start: start as usize,
                    end: end as usize,
                },
            );
        }
    }
}

// ---------------------------------------------------------------------------
// Dispatch
// ---------------------------------------------------------------------------

/// A tag and the handler that it is dispatched to.
pub const DISPATCH: &'static str = "(?m)(\\d+)\\s*=>\\s*instructions::([A-Za-z_][A-Za-z0-9_]*)::process_([A-Za-z_][A-Za-z0-9_]*)\\(";

/// The handlers with the tag of one.
pub open spec fn with_tag(hs: Entries<HandlerV>, name: Seq<char>, tag: u8) -> Entries<HandlerV> {
    with_entry(
        hs,
        name,
        HandlerV { tag: Some(tag), ..lookup_or(hs, name, empty_handler(name)) },
    )
}

/// Sets the tag of a handler.
pub fn set_tag(handlers: &mut NameMap<PinocchioHandlerProfile>, name: String, tag: u8)
    ensures
        entries_map(final(handlers)@, handler_fn()) == with_tag(
            entries_map(old(handlers)@, handler_fn()),
            name@,
            tag,
        ),
{
    let mut entry = take_handler(handlers, &name);
    entry.instruction_tag = Some(tag);
    handlers.insert(name, entry);
}

pub open spec fn dispatched_upto(hs: Entries<HandlerV>, ms: Matches, n: nat) -> Entries<HandlerV>
    decreases n,
{
    if n == 0 {
        hs
    } else {
        let before = dispatched_upto(hs, ms, (n - 1) as nat);
        match parse_below(group_text_of(ms[n - 1], 1), 255) {
            Some(tag) => with_tag(before, group_text_of(ms[n - 1], 3), tag as u8),
            None => before,
        }
    }
}

/// Sets the tags of handlers, when the arms that dispatch them are found.
pub fn dispatch_from(handlers: &mut NameMap<PinocchioHandlerProfile>, ms: &Vec<Match>)
    ensures
        entries_map(final(handlers)@, handler_fn()) == dispatched_upto(
            entries_map(old(handlers)@, handler_fn()),
            matches_view(ms@),
            ms@.len(),
        ),
{
    let ghost all = matches_view(ms@);
    let ghost start = entries_map(handlers@, handler_fn());
    for i in 0..ms.len()
        invariant
            all == matches_view(ms@),
            entries_map(handlers@, handler_fn()) == dispatched_upto(start, all, i as nat),
    {
        match parse_u8(&group(&ms[i], 1)) {
            Some(tag) => {
                set_tag(handlers, group(&ms[i], 3), tag);
            },
            None => {},
        }
    }
}

/// The handlers with the tags that a source dispatches.
pub open spec fn dispatched_in_text(hs: Entries<HandlerV>, source: Seq<char>) -> Entries<HandlerV> {
    let ms = pattern_matches(DISPATCH@, source);
    dispatched_upto(hs, ms, ms.len())
}

/// Sets the tags that a source dispatches.
pub fn infer_dispatch_tags(source: &str, handlers: &mut NameMap<PinocchioHandlerProfile>)
    ensures
        entries_map(final(handlers)@, handler_fn()) == dispatched_in_text(
            entries_map(old(handlers)@, handler_fn()),
            source@,
        ),
{
    let ms = all_matches(DISPATCH, source);
    dispatch_from(handlers, &ms);
}

// ---------------------------------------------------------------------------
// Addresses
// ---------------------------------------------------------------------------

/// The names and the types among the first `n` parameters of a function.
pub open spec fn fn_params_upto(parts: Seq<Seq<char>>, n: nat) -> Seq<(Seq<char>, Seq<char>)>
    decreases n,
{
    if n == 0 {
        Seq::empty()
    } else {
        let before = fn_params_upto(parts, (n - 1) as nat);
        match split_once_text(parts[n - 1], ':') {
            Some((name, ty)) => if schema_name(trim_text(name)).len() > 0 {
                before.push((schema_name(trim_text(name)), trim_text(ty)))
            } else {
                before
            },
            None => before,
        }
    }
}

/// The names and the types of the parameters of a function.
pub open spec fn fn_params(params: Seq<char>) -> Seq<(Seq<char>, Seq<char>)> {
    fn_params_upto(pieces(params), pieces(params).len())
}

/// The names and the types of the parameters of a function.
pub fn parse_fn_params(params: &str) -> (r: Vec<(String, String)>)
    ensures
        body_views(r@) == fn_params(params@),
{
    let parts = split_top_level_commas(params);
    let mut out: Vec<(String, String)> = Vec::new();
    proof {
        assert(body_views(out@) =~= Seq::empty());
    }
    for i in 0..parts.len()
        invariant
            body_views(out@) == fn_params_upto(texts(parts@), i as nat),
    {
        match split_once(&parts[i], ':') {
            Some((name, ty)) => {
                let name = normalize_schema_name(&trim(&name));
                if !name.as_str().is_empty() {
                    let p = (name, trim(&ty));
                    proof {
                        assert(body_views(out@.push(p)) =~= body_views(out@).push((p.0@, p.1@)));
                    }
                    out.push(p);
                }
            },
            None => {},
        }
    }
    out
}

/// A seed as text.
pub open spec fn plain_seed(e: Seq<char>) -> Seq<char> {
    trim_text(trim_start_of(trim_text(trim_start_of(trim_text(e), "&"@)), "crate::"@))
}

fn normalize_seed_expr(e: &str) -> (r: String)
    ensures
        r@ == plain_seed(e@),
{
    proof {
        reveal_strlit("&");
        reveal_strlit("crate::");
    }
    let a = trim(&trim_start_matches(&trim(e), "&"));
    trim(&trim_start_matches(&a, "crate::"))
}

pub open spec fn plain_seeds_upto(parts: Seq<Seq<char>>, n: nat) -> Seq<Seq<char>>
    decreases n,
{
    if n == 0 {
        Seq::empty()
    } else {
        let before = plain_seeds_upto(parts, (n - 1) as nat);
        if plain_seed(parts[n - 1]).len() > 0 {
            before.push(plain_seed(parts[n - 1]))
        } else {
            before
        }
    }
}

fn read_seeds(list: &str) -> (r: Vec<String>)
    ensures
        texts(r@) == plain_seeds_upto(pieces(list@), pieces(list@).len()),
{
    let parts = split_top_level_commas(list);
    let mut out: Vec<String> = Vec::new();
    for i in 0..parts.len()
        invariant
            texts(out@) == plain_seeds_upto(texts(parts@), i as nat),
    {
        let seed = normalize_seed_expr(&parts[i]);
        if !seed.as_str().is_empty() {
            out.push(seed);
        }
    }
    out
}

/// Where an argument ends: before a closing bracket, a semicolon or a line
/// feed.
pub open spec fn arg_end(s: Seq<char>, i: int) -> int
    decreases s.len() - i,
{
    if 0 <= i < s.len() && s[i] != ')' && s[i] != ';' && s[i] != '\n' {
        arg_end(s, i + 1)
    } else {
        i
    }
}

/// The program behind the list of seeds.
pub open spec fn program_after(rest: Seq<char>) -> Seq<char> {
    let t = trim_start_text(rest);
    trim_text(
        trim_start_of(
            trim_text(trim_end_of(trim_text(t.subrange(0, arg_end(t, 0))), ',')),
            "&"@,
        ),
    )
}

fn read_program(rest: &str) -> (r: String)
    ensures
        r@ == program_after(rest@),
{
    proof {
        reveal_strlit("&");
    }
    let t = trim_start(rest);
    let v = chars_of(&t);
    let mut end: usize = 0;
    while end < v.len() && v[end] != ')' && v[end] != ';' && v[end] != '\n'
        invariant
            end <= v.len(),
            arg_end(v@, 0) == arg_end(v@, end as int),
        decreases v.len() - end,
    {
        end = end + 1;
    }
    let a = trim(&slice_text(&v, 0, end));
    let b = trim(&trim_end_char(&a, ','));
    trim(&trim_start_matches(&b, "&"))
}

/// The seeds and the program of the first call of the function in a body.
pub open spec fn address_after(body: Seq<char>, f: Seq<char>) -> Option<
    (Seq<Seq<char>>, Seq<char>),
> {
    match first_at(body, f, 0) {
        Some(at) => match first_at(body, "&["@, at + f.len()) {
            Some(amp) => {
                let open = amp + 1;
                match closing(body, '[', ']', open, 0) {
                    Some(close) => match char_at_or_after(body, ',', close + 1) {
                        Some(comma) => {
                            let parts = pieces(body.subrange(open + 1, close));
                            let seeds = plain_seeds_upto(parts, parts.len());
                            let program = program_after(
                                body.subrange(comma + 1, body.len() as int),
                            );
                            if seeds.len() > 0 && program.len() > 0 {
                                Some((seeds, program))
                            } else {
                                None
                            }
                        },
                        None => None,
                    },
                    None => None,
                }
            },
            None => None,
        },
        None => None,
    }
}

fn read_address(v: &Vec<char>, f: &str) -> (r: Option<(Vec<String>, String)>)
    ensures
        match r {
            Some((seeds, program)) => address_after(v@, f@) == Some((texts(seeds@), program@)),
            None => address_after(v@, f@) is None,
        },
{
    proof {
        reveal_strlit("&[");
        lemma_first_at(v@, f@, 0);
    }
    let needle = chars_of(f);
    match find_from(v, &needle, 0) {
        Some(at) => {
            let amps = chars_of("&[");
            let ghost from = at + f@.len();
            proof {
                lemma_first_at(v@, "&["@, from);
            }
            match find_from(v, &amps, at + needle.len()) {
                Some(amp) => {
                    let open: usize = amp + 1;
                    proof {
                        assert(v@.subrange(amp as int, amp + 2)[1] == '[');
                    }
                    match matching_bracket(v, open, '[', ']') {
                        Some(close) => {
                            proof {
                                brackets_balance(v@, '[', ']', open as int);
                            }
                            match find_char_from(v, ',', close + 1) {
                                Some(comma) => {
                                    let seeds = read_seeds(&slice_text(v, open + 1, close));
                                    let program = read_program(
                                        &slice_text(v, comma + 1, v.len()),
                                    );
                                    if seeds.len() > 0 && !program.as_str().is_empty() {
                                        Some((seeds, program))
                                    } else {
                                        None
                                    }
                                },
                                None => None,
                            }
                        },
                        None => None,
                    }
                },
                None => None,
            }
        },
        None => None,
    }
}

/// The seeds and the program of the search for an address in a body.
pub open spec fn address_in_text(body: Seq<char>) -> Option<(Seq<Seq<char>>, Seq<char>)> {
    match address_after(body, "find_program_address"@) {
        Some(a) => Some(a),
        None => address_after(body, "try_find_program_address"@),
    }
}

/// The seeds and the program of the search for an address in a body.
pub fn first_find_program_address_call(body: &str) -> (r: Option<(Vec<String>, String)>)
    ensures
        match r {
            Some((seeds, program)) => address_in_text(body@) == Some((texts(seeds@), program@)),
            None => address_in_text(body@) is None,
        },
{
    let v = chars_of(body);
    match read_address(&v, "find_program_address") {
        Some(a) => Some(a),
        None => read_address(&v, "try_find_program_address"),
    }
}

/// Seeds without literals.
pub open spec fn bare_seeds(seeds: Seq<Seq<char>>) -> Seq<SeedV> {
    seeds.map_values(|e: Seq<char>| SeedV { expr: e, literal: None })
}

/// Seeds without literals.
pub fn make_seeds(seeds: &Vec<String>) -> (r: Vec<PinocchioPdaSeed>)
    ensures
        seed_views(r@) == bare_seeds(texts(seeds@)),
{
    let mut out: Vec<PinocchioPdaSeed> = Vec::new();
    for i in 0..seeds.len()
        invariant
            out@.len() == i,
            forall|k: int|
                0 <= k < i ==> (#[trigger] out@[k])@ == (SeedV {
                    expr: seeds@[k]@,
                    literal: None,
                }),
    {
        out.push(PinocchioPdaSeed { expr: seeds[i].clone(), literal: None });
    }
    proof {
        assert(seed_views(out@) =~= bare_seeds(texts(seeds@)));
    }
    out
}

pub open spec fn param_names(ps: Seq<(Seq<char>, Seq<char>)>) -> Seq<Seq<char>> {
    ps.map_values(|p: (Seq<char>, Seq<char>)| p.0)
}

pub open spec fn param_types_upto(ps: Seq<(Seq<char>, Seq<char>)>, n: nat) -> Entries<Seq<char>>
    decreases n,
{
    if n == 0 {
        Seq::empty()
    } else {
        with_entry(param_types_upto(ps, (n - 1) as nat), ps[n - 1].0, ps[n - 1].1)
    }
}

/// A derivation of an address.
pub open spec fn derivation_from(
    name: Seq<char>,
    params: Seq<(Seq<char>, Seq<char>)>,
    keys: Entries<DerivationV>,
    address: (Seq<Seq<char>>, Seq<char>),
) -> PdaV {
    PdaV {
        name,
        params: param_names(params),
        param_types: param_types_upto(params, params.len()),
        keys,
        seeds: bare_seeds(address.0),
        program_id: address.1,
    }
}

/// Makes a derivation of an address.
pub fn make_derivation(
    name: String,
    params: &Vec<(String, String)>,
    local_key_derivations: NameMap<PinocchioLocalKeyDerivation>,
    seeds: &Vec<String>,
    program_id: String,
) -> (r: PinocchioPdaDerivation)
    ensures
        r@ == derivation_from(
            name@,
            body_views(params@),
            entries_map(local_key_derivations@, derivation_fn()),
            (texts(seeds@), program_id@),
        ),
{
    let ghost ps = body_views(params@);
    let mut names: Vec<String> = Vec::new();
    let mut types: NameMap<String> = NameMap::new();
    for i in 0..params.len()
        invariant
            ps == body_views(params@),
            texts(names@) =~= param_names(ps).take(i as int),
            entries_map(types@, string_fn()) == param_types_upto(ps, i as nat),
    {
        names.push(params[i].0.clone());
        types.insert(params[i].0.clone(), params[i].1.clone());
    }
    proof {
        assert(texts(names@) =~= param_names(ps));
    }
    PinocchioPdaDerivation {
        name,
        params: names,
        param_types: types,
        local_key_derivations,
        seeds: make_seeds(seeds),
        program_id,
    }
}

/// The derivations with those of the functions of the first `n` matches.
pub open spec fn derivations_upto(acc: Entries<PdaV>, ms: Matches, n: nat) -> Entries<PdaV>
    decreases n,
{
    if n == 0 {
        acc
    } else {
        let before = derivations_upto(acc, ms, (n - 1) as nat);
        let name = group_text_of(ms[n - 1], 1);
        match body_of(ms[n - 1].1) {
            Some(body) => match address_in_text(body) {
                Some(address) => with_entry(
                    before,
                    name,
                    derivation_from(
                        name,
                        fn_params(group_text_of(ms[n - 1], 2)),
                        keys_in_text(body),
                        address,
                    ),
                ),
                None => before,
            },
            None => before,
        }
    }
}

/// Adds the derivations of functions, when their headers are found.
pub fn derivations_from(derivations: &mut NameMap<PinocchioPdaDerivation>, ms: &Vec<Match>)
    ensures
        entries_map(final(derivations)@, pda_fn()) == derivations_upto(
            entries_map(old(derivations)@, pda_fn()),
            matches_view(ms@),
            ms@.len(),
        ),
{
    let ghost all = matches_view(ms@);
    let ghost start = entries_map(derivations@, pda_fn());
    for i in 0..ms.len()
        invariant
            all == matches_view(ms@),
            entries_map(derivations@, pda_fn()) == derivations_upto(start, all, i as nat),
    {
        match read_body(&ms[i].rest) {
            Some(body) => {
                match first_find_program_address_call(&body) {
                    Some((seeds, program)) => {
                        let name = group(&ms[i], 1);
                        let params = parse_fn_params(&group(&ms[i], 2));
                        let keys = infer_local_key_derivations(&body);
                        let d = make_derivation(name.clone(), &params, keys, &seeds, program);
                        derivations.insert(name, d);
                    },
                    None => {},
                }
            },
            None => {},
        }
    }
}

/// The derivations with those of a source.
pub open spec fn derivations_in_text(acc: Entries<PdaV>, source: Seq<char>) -> Entries<PdaV> {
    let ms = pattern_matches(DERIVE_FN@, source);
    derivations_upto(acc, ms, ms.len())
}

/// Adds the derivations of a source.
pub fn infer_pda_derivations(source: &str, derivations: &mut NameMap<PinocchioPdaDerivation>)
    ensures
        entries_map(final(derivations)@, pda_fn()) == derivations_in_text(
            entries_map(old(derivations)@, pda_fn()),
            source@,
        ),
{
    let ms = all_matches(DERIVE_FN, source);
    derivations_from(derivations, &ms);
}

} // verus!
