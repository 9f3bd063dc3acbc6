//! What a program's sources say of its handlers where they are read as plain
//! text.
use vstd::prelude::*;

use crate::names::{ascending, lookup, lookup_with_entry, with_entry_ascends};
use crate::number::parse_nat;
use crate::pinocchio_profile::abi::{fixed_bytes_of, magic_bytes_upto, repeat_of};
use crate::pinocchio_profile::fallback::{
    bound_to_keys, bound_to_names, compact_upto, derivation_from, dispatched_upto, key_names_upto,
    numbers_upto, role_in_text, roles_in_text, text_binding, text_checked_key, text_roles_upto,
    Matches,
};
use crate::pinocchio_profile::naming::{names_ident, schema_name};
use crate::pinocchio_profile::plain::{full, full_upto, key_call_name, ref_derivation, ref_name};
use crate::pinocchio_profile::schema::{AbiRepeatV, FieldV, RecordV};
use crate::pinocchio_profile::{no_role, BindingV, DerivationV, Entries, HandlerV, ParamV};
use crate::search::{contains_text, starts_with_text};
use crate::split::trim_text;
use crate::text::{ascii_lower, ascii_upper, is_space};

verus! {

broadcast use crate::text::group_text;

// ---------------------------------------------------------------------------
// Roles
// ---------------------------------------------------------------------------

proof fn lemma_nothing_before(id: Seq<char>, z: Seq<char>)
    ensures
        ""@ + id + z == id + z,
{
    reveal_strlit("");
    assert(""@ + id + z =~= id + z);
}

/// An account signs or is writable where the text asks whether it does or is, and
/// nowhere else; it is a program where the text asks whether it runs, or checks
/// its key against that of the token program.
pub proof fn texts_show_roles(t: Seq<char>, id: Seq<char>)
    ensures
        ({
            let r = role_in_text(t, id);
            &&& r.is_signer == Some(true) <==> contains_text(t, id + ".is_signer"@)
            &&& r.is_signer is None <==> !contains_text(t, id + ".is_signer"@)
            &&& r.is_writable == Some(true) <==> contains_text(t, id + ".is_writable"@)
            &&& r.is_writable is None <==> !contains_text(t, id + ".is_writable"@)
            &&& contains_text(t, id + ".is_executable()"@) || contains_text(t, id + ".executable"@)
                || contains_text(t, "require_key("@ + id + ",&SPL_TOKEN_ID)"@) || contains_text(
                t,
                id + ".key()!=&SPL_TOKEN_ID"@,
            ) ==> r.is_program == Some(true)
            &&& r.is_program is Some ==> contains_text(t, id + ".is_executable()"@)
                || contains_text(t, id + ".executable"@) || contains_text(
                t,
                "require_key("@ + id + ",&SPL_TOKEN_ID)"@,
            ) || contains_text(
                t,
                "require_key("@ + id + ",&pinocchio_tkn::TOKEN_PROGRAM_ID)"@,
            ) || contains_text(t, id + ".key()!=&pinocchio_tkn::TOKEN_PROGRAM_ID"@)
                || contains_text(t, id + ".key()!=&SPL_TOKEN_ID"@)
        }),
{
    lemma_nothing_before(id, ".is_signer"@);
    lemma_nothing_before(id, ".is_writable"@);
    lemma_nothing_before(id, ".is_executable()"@);
    lemma_nothing_before(id, ".executable"@);
    lemma_nothing_before(id, ".key()!=&pinocchio_tkn::TOKEN_PROGRAM_ID"@);
    lemma_nothing_before(id, ".key()!=&SPL_TOKEN_ID"@);
}

/// An account that is checked, read or written as a token account is one; one
/// that is only read as a mint is a mint.
pub proof fn texts_show_types(t: Seq<char>, id: Seq<char>)
    ensures
        ({
            let r = role_in_text(t, id);
            let token = contains_text(t, "require_token_account("@ + id + ","@) || contains_text(
                t,
                "read_token_amount("@ + id + ")"@,
            ) || contains_text(t, "write_token_amount("@ + id + ","@) || contains_text(
                t,
                "TokenAccount::from_account_info("@ + id + ")"@,
            );
            let mint = contains_text(t, "read_mint_decimals("@ + id + ")"@) || contains_text(
                t,
                "Mint::from_account_info("@ + id + ")"@,
            );
            &&& token ==> r.account_type == Some("token"@)
            &&& !token && mint ==> r.account_type == Some("mint"@)
        }),
{
}

proof fn lemma_text_roles(t: Seq<char>, accounts: Seq<Seq<char>>, n: nat)
    requires
        n <= accounts.len(),
    ensures
        ascending(text_roles_upto(t, accounts, n)),
        forall|k: int|
            0 <= k < n && role_in_text(t, schema_name(#[trigger] accounts[k])) != no_role()
                ==> lookup(text_roles_upto(t, accounts, n), schema_name(accounts[k])) == Some(
                role_in_text(t, schema_name(accounts[k])),
            ),
    decreases n,
{
    if n > 0 {
        lemma_text_roles(t, accounts, (n - 1) as nat);
        let before = text_roles_upto(t, accounts, (n - 1) as nat);
        let id = schema_name(accounts[n - 1]);
        let r = role_in_text(t, id);
        if r != no_role() {
            with_entry_ascends(before, id, r);
            assert forall|k: int|
                0 <= k < n && role_in_text(t, schema_name(#[trigger] accounts[k])) != no_role()
                implies lookup(text_roles_upto(t, accounts, n), schema_name(accounts[k])) == Some(
                role_in_text(t, schema_name(accounts[k])),
            ) by {
                lookup_with_entry(before, id, r, schema_name(accounts[k]));
            }
        }
    }
}

/// Every account that a body shows something of has its role.
pub proof fn bodies_show_every_account(body: Seq<char>, accounts: Seq<Seq<char>>, k: int)
    requires
        0 <= k < accounts.len(),
    ensures
        ({
            let t = compact_upto(body, body.len());
            let id = schema_name(accounts[k]);
            role_in_text(t, id) != no_role() ==> lookup(roles_in_text(body, accounts), id) == Some(
                role_in_text(t, id),
            )
        }),
{
    lemma_text_roles(compact_upto(body, body.len()), accounts, accounts.len());
    assert(role_in_text(compact_upto(body, body.len()), schema_name(accounts[k])) == role_in_text(
        compact_upto(body, body.len()),
        schema_name(accounts[k]),
    ));
}

/// A text without white space has none, and one that has none stays as it is.
pub proof fn compact_texts_have_no_spaces(s: Seq<char>, n: nat)
    requires
        n <= s.len(),
    ensures
        forall|i: int|
            0 <= i < compact_upto(s, n).len() ==> !is_space(#[trigger] compact_upto(s, n)[i]),
        (forall|i: int| 0 <= i < n ==> !is_space(#[trigger] s[i])) ==> compact_upto(s, n) == s.take(
            n as int,
        ),
    decreases n,
{
    if n > 0 {
        compact_texts_have_no_spaces(s, (n - 1) as nat);
        let before = compact_upto(s, (n - 1) as nat);
        let all = compact_upto(s, n);
        assert forall|i: int| 0 <= i < all.len() implies !is_space(#[trigger] all[i]) by {
            if i < before.len() {
                assert(all[i] == before[i]);
            }
        }
        assert(s.take(n as int) =~= s.take(n - 1).push(s[n - 1]));
    } else {
        assert(s.take(0) =~= Seq::empty());
    }
}

// ---------------------------------------------------------------------------
// Keys and token accounts
// ---------------------------------------------------------------------------

/// The check of a key names the account first and the key second: a derivation,
/// or a name for one.
pub proof fn text_checks_read_account_and_key(
    args: Seq<Seq<char>>,
    locals: Entries<DerivationV>,
)
    requires
        args.len() == 2,
    ensures
        names_ident(trim_text(args[0])) ==> ({
            let account = schema_name(trim_text(args[0]));
            let r = text_checked_key(args, locals);
            &&& match ref_derivation(args[1]) {
                Some((name, list)) => r is Some && (r->0).0 == account && (r->0).1.derivation
                    == schema_name(name) && (r->0).1.args == list,
                None => true,
            }
            &&& ref_derivation(args[1]) is None && ref_name(args[1]) is Some && lookup(
                locals,
                ref_name(args[1])->0,
            ) is Some ==> r == Some((account, lookup(locals, ref_name(args[1])->0)->0))
            &&& ref_derivation(args[1]) is None && ref_name(args[1]) is None ==> r is None
        }),
{
}

/// The check of a token account names the account first, its mint second and its
/// owner third.
pub proof fn text_checks_bind_mint_and_owner(
    args: Seq<Seq<char>>,
    key_names: Entries<Seq<char>>,
    locals: Entries<DerivationV>,
)
    requires
        args.len() == 3,
    ensures
        ({
            let b = text_binding(args, key_names, locals);
            &&& b is Some <==> key_call_name(args[1]) is Some
            &&& b is Some ==> (b->0).mint_account == Some(schema_name(key_call_name(args[1])->0))
            &&& b is Some && key_call_name(args[2]) is Some ==> (b->0).owner_account
                == key_call_name(args[2])
            &&& b is Some && key_call_name(args[2]) is None && ref_name(args[2]) is Some ==> (
            b->0).owner_account == lookup(key_names, ref_name(args[2])->0)
            &&& b is Some && ref_name(args[2]) is Some ==> (b->0).owner_key == lookup(
                locals,
                ref_name(args[2])->0,
            )
        }),
{
}

/// A text `name.key()` is the key of the account with the name, and `&name` a
/// reference to it.
pub proof fn keys_and_references_name_accounts(e: Seq<char>, name: Seq<char>)
    ensures
        names_ident(trim_text(name)) && trim_text(e) == name + ".key()"@ ==> key_call_name(e)
            == Some(trim_text(name)),
        names_ident(trim_text(name)) && trim_text(e) == "&"@ + name ==> ref_name(e) == Some(
            trim_text(name),
        ),
{
    let t = trim_text(e);
    if t == name + ".key()"@ {
        crate::laws::base::affixes_are_put_back(t, ".key()"@);
        assert(t.subrange(0, t.len() - ".key()"@.len()) =~= name);
        assert(t.subrange(t.len() - ".key()"@.len(), t.len() as int) =~= ".key()"@);
    }
    if t == "&"@ + name {
        assert(t.subrange("&"@.len() as int, t.len() as int) =~= name);
        assert(t.subrange(0, "&"@.len() as int) =~= "&"@);
    }
}

/// Of a match the first group is the token account, the second its mint and the
/// third its owner, by name or by key.
pub proof fn matches_bind_mint_and_owner(
    acc: Entries<BindingV>,
    ms: Matches,
    key_names: Entries<Seq<char>>,
    locals: Entries<DerivationV>,
    n: nat,
)
    requires
        ascending(acc),
        0 < n <= ms.len(),
        ms[n - 1].0.len() > 3,
    ensures
        ({
            let g = ms[n - 1].0;
            let by_key = lookup(bound_to_keys(acc, ms, n), schema_name(g[1]));
            let by_name = lookup(
                bound_to_names(acc, ms, key_names, locals, n),
                schema_name(g[1]),
            );
            &&& by_key is Some
            &&& (by_key->0).mint_account == Some(schema_name(g[2]))
            &&& (by_key->0).owner_account == Some(schema_name(g[3]))
            &&& (by_key->0).owner_key is None
            &&& by_name is Some
            &&& (by_name->0).mint_account == Some(schema_name(g[2]))
            &&& (by_name->0).owner_account == lookup(key_names, schema_name(g[3]))
            &&& (by_name->0).owner_key == lookup(locals, schema_name(g[3]))
        }),
{
    let g = ms[n - 1].0;
    lemma_bound_to_keys(acc, ms, (n - 1) as nat);
    lemma_bound_to_names(acc, ms, key_names, locals, (n - 1) as nat);
    let a = bound_to_keys(acc, ms, (n - 1) as nat);
    let b = bound_to_names(acc, ms, key_names, locals, (n - 1) as nat);
    lookup_with_entry(
        a,
        schema_name(g[1]),
        BindingV {
            mint_account: Some(schema_name(g[2])),
            owner_account: Some(schema_name(g[3])),
            owner_key: None,
        },
        g[1],
    );
    lookup_with_entry(
        b,
        schema_name(g[1]),
        BindingV {
            mint_account: Some(schema_name(g[2])),
            owner_account: lookup(key_names, schema_name(g[3])),
            owner_key: lookup(locals, schema_name(g[3])),
        },
        g[1],
    );
}

proof fn lemma_bound_to_keys(acc: Entries<BindingV>, ms: Matches, n: nat)
    requires
        ascending(acc),
        n <= ms.len(),
    ensures
        ascending(bound_to_keys(acc, ms, n)),
    decreases n,
{
    if n > 0 {
        lemma_bound_to_keys(acc, ms, (n - 1) as nat);
        let m = ms[n - 1];
        with_entry_ascends(
            bound_to_keys(acc, ms, (n - 1) as nat),
            schema_name(crate::pattern::group_text_of(m, 1)),
            BindingV {
                mint_account: Some(schema_name(crate::pattern::group_text_of(m, 2))),
                owner_account: Some(schema_name(crate::pattern::group_text_of(m, 3))),
                owner_key: None,
            },
        );
    }
}

proof fn lemma_bound_to_names(
    acc: Entries<BindingV>,
    ms: Matches,
    key_names: Entries<Seq<char>>,
    locals: Entries<DerivationV>,
    n: nat,
)
    requires
        ascending(acc),
        n <= ms.len(),
    ensures
        ascending(bound_to_names(acc, ms, key_names, locals, n)),
    decreases n,
{
    if n > 0 {
        lemma_bound_to_names(acc, ms, key_names, locals, (n - 1) as nat);
        let m = ms[n - 1];
        let owner = schema_name(crate::pattern::group_text_of(m, 3));
        with_entry_ascends(
            bound_to_names(acc, ms, key_names, locals, (n - 1) as nat),
            schema_name(crate::pattern::group_text_of(m, 1)),
            BindingV {
                mint_account: Some(schema_name(crate::pattern::group_text_of(m, 2))),
                owner_account: lookup(key_names, owner),
                owner_key: lookup(locals, owner),
            },
        );
    }
}

/// Of the match of a key check the first group is the account and the second the
/// name of the key, under which the account is found.
pub proof fn key_matches_name_their_account(ms: Matches, n: nat)
    requires
        0 < n <= ms.len(),
        ms[n - 1].0.len() > 2,
    ensures
        lookup(key_names_upto(ms, n), schema_name(ms[n - 1].0[2])) == Some(
            schema_name(ms[n - 1].0[1]),
        ),
{
    lemma_key_names(ms, (n - 1) as nat);
    lookup_with_entry(
        key_names_upto(ms, (n - 1) as nat),
        schema_name(ms[n - 1].0[2]),
        schema_name(ms[n - 1].0[1]),
        ms[n - 1].0[1],
    );
}

proof fn lemma_key_names(ms: Matches, n: nat)
    requires
        n <= ms.len(),
    ensures
        ascending(key_names_upto(ms, n)),
    decreases n,
{
    if n > 0 {
        lemma_key_names(ms, (n - 1) as nat);
        with_entry_ascends(
            key_names_upto(ms, (n - 1) as nat),
            schema_name(crate::pattern::group_text_of(ms[n - 1], 2)),
            schema_name(crate::pattern::group_text_of(ms[n - 1], 1)),
        );
    }
}

// ---------------------------------------------------------------------------
// Parameters, tags and addresses
// ---------------------------------------------------------------------------

proof fn lemma_numbers(ms: Matches, n: nat)
    requires
        n <= ms.len(),
    ensures
        forall|p: ParamV|
            numbers_upto(ms, n).contains(p) ==> exists|k: int|
                0 <= k < n && #[trigger] is_number_of(ms[k], p),
    decreases n,
{
    if n > 0 {
        lemma_numbers(ms, (n - 1) as nat);
        let before = numbers_upto(ms, (n - 1) as nat);
        let all = numbers_upto(ms, n);
        assert forall|p: ParamV| all.contains(p) implies exists|k: int|
            0 <= k < n && #[trigger] is_number_of(ms[k], p) by {
            if before.contains(p) {
                let k = choose|k: int| 0 <= k < n - 1 && #[trigger] is_number_of(ms[k], p);
                assert(is_number_of(ms[k], p));
            } else {
                let m = ms[n - 1];
                let start = crate::number::parse_below(
                    crate::pattern::group_text_of(m, 3),
                    usize::MAX as nat,
                );
                let end = crate::number::parse_below(
                    crate::pattern::group_text_of(m, 4),
                    usize::MAX as nat,
                );
                if start is Some && end is Some {
                    let own = ParamV {
                        name: crate::pattern::group_text_of(m, 1),
                        rust_type: crate::pattern::group_text_of(m, 2),
                        start: start->0 as usize,
                        end: end->0 as usize,
                    };
                    lemma_placed(before, own, p);
                    assert(is_number_of(m, own));
                }
            }
        }
    }
}

proof fn lemma_placed(ps: Seq<ParamV>, own: ParamV, p: ParamV)
    ensures
        crate::pinocchio_profile::blocks::param_placed(ps, own).contains(p) ==> ps.contains(p) || p
            == own,
    decreases ps.len(),
{
    let all = crate::pinocchio_profile::blocks::param_placed(ps, own);
    if all.contains(p) {
        let i = choose|i: int| 0 <= i < all.len() && all[i] == p;
        if ps.len() == 0 || ps.last().start <= own.start {
            if i < ps.len() {
                assert(ps[i] == p);
            }
        } else {
            let front = ps.drop_last();
            let part = crate::pinocchio_profile::blocks::param_placed(front, own);
            lemma_placed(front, own, p);
            if i < part.len() {
                assert(part[i] == p);
                if front.contains(p) {
                    let j = choose|j: int| 0 <= j < front.len() && front[j] == p;
                    assert(ps[j] == p);
                }
            } else {
                assert(ps[ps.len() - 1] == p);
            }
        }
    }
}

/// Whether a match is about a parameter: its groups are the name, the type, the
/// start and the end.
pub open spec fn is_number_of(m: (Seq<Seq<char>>, Seq<char>), p: ParamV) -> bool {
    &&& m.0.len() > 4 ==> p.name == m.0[1] && p.rust_type == m.0[2] && parse_nat(m.0[3]) == Some(
        p.start as nat,
    ) && parse_nat(m.0[4]) == Some(p.end as nat)
}

/// Every parameter is one that a match gives: of the name and the type that it
/// says, from its start to its end.
pub proof fn parameters_are_those_of_matches(ms: Matches, i: int)
    requires
        0 <= i < numbers_upto(ms, ms.len()).len(),
    ensures
        exists|k: int|
            0 <= k < ms.len() && #[trigger] is_number_of(
                ms[k],
                numbers_upto(ms, ms.len())[i],
            ),
{
    lemma_numbers(ms, ms.len());
    assert(numbers_upto(ms, ms.len()).contains(numbers_upto(ms, ms.len())[i]));
}

/// The number in the first group of a dispatch is the tag of the handler in the
/// third.
pub proof fn dispatches_give_tags(hs: Entries<HandlerV>, ms: Matches, n: nat, tag: u8)
    requires
        ascending(hs),
        0 < n <= ms.len(),
        ms[n - 1].0.len() > 3,
        parse_nat(ms[n - 1].0[1]) == Some(tag as nat),
    ensures
        lookup(dispatched_upto(hs, ms, n), ms[n - 1].0[3]) is Some,
        (lookup(dispatched_upto(hs, ms, n), ms[n - 1].0[3])->0).tag == Some(tag),
{
    lemma_dispatched(hs, ms, (n - 1) as nat);
    let before = dispatched_upto(hs, ms, (n - 1) as nat);
    let name = ms[n - 1].0[3];
    lookup_with_entry(
        before,
        name,
        HandlerV {
            tag: Some(tag),
            ..crate::pinocchio_profile::lookup_or(
                before,
                name,
                crate::pinocchio_profile::empty_handler(name),
            )
        },
        name,
    );
}

proof fn lemma_dispatched(hs: Entries<HandlerV>, ms: Matches, n: nat)
    requires
        ascending(hs),
        n <= ms.len(),
    ensures
        ascending(dispatched_upto(hs, ms, n)),
    decreases n,
{
    if n > 0 {
        lemma_dispatched(hs, ms, (n - 1) as nat);
        let before = dispatched_upto(hs, ms, (n - 1) as nat);
        let name = crate::pattern::group_text_of(ms[n - 1], 3);
        if let Some(tag) = crate::number::parse_below(
            crate::pattern::group_text_of(ms[n - 1], 1),
            255,
        ) {
            with_entry_ascends(
                before,
                name,
                HandlerV {
                    tag: Some(tag as u8),
                    ..crate::pinocchio_profile::lookup_or(
                        before,
                        name,
                        crate::pinocchio_profile::empty_handler(name),
                    )
                },
            );
        }
    }
}

/// A derived address has the seeds in their order, the program, and the names of
/// the parameters.
pub proof fn derivations_keep_their_seeds(
    name: Seq<char>,
    params: Seq<(Seq<char>, Seq<char>)>,
    keys: Entries<DerivationV>,
    seeds: Seq<Seq<char>>,
    program: Seq<char>,
    k: int,
)
    ensures
        ({
            let d = derivation_from(name, params, keys, (seeds, program));
            &&& d.name == name
            &&& d.program_id == program
            &&& d.keys == keys
            &&& d.seeds.len() == seeds.len()
            &&& 0 <= k < seeds.len() ==> d.seeds[k].expr == seeds[k] && d.seeds[k].literal is None
            &&& d.params.len() == params.len()
            &&& 0 <= k < params.len() ==> d.params[k] == params[k].0
        }),
{
}

proof fn lemma_full(parts: Seq<Seq<char>>, n: nat, k: int)
    requires
        n <= parts.len(),
    ensures
        forall|i: int| 0 <= i < full_upto(parts, n).len() ==> (#[trigger] full_upto(parts, n)[i]).len() > 0,
        0 <= k < n && trim_text(parts[k]).len() > 0 ==> full_upto(parts, n).contains(
            trim_text(parts[k]),
        ),
    decreases n,
{
    if n > 0 {
        lemma_full(parts, (n - 1) as nat, k);
        let before = full_upto(parts, (n - 1) as nat);
        let all = full_upto(parts, n);
        if 0 <= k < n && trim_text(parts[k]).len() > 0 {
            if k < n - 1 {
                let i = choose|i: int| 0 <= i < before.len() && before[i] == trim_text(parts[k]);
                assert(all[i] == trim_text(parts[k]));
            } else {
                assert(all[all.len() - 1] == trim_text(parts[k]));
            }
        }
    }
}

/// Of the pieces of a list only the blank ones are dropped.
pub proof fn full_pieces_are_kept(parts: Seq<Seq<char>>, k: int)
    ensures
        forall|i: int| 0 <= i < full(parts).len() ==> (#[trigger] full(parts)[i]).len() > 0,
        0 <= k < parts.len() && trim_text(parts[k]).len() > 0 ==> full(parts).contains(
            trim_text(parts[k]),
        ),
{
    lemma_full(parts, parts.len(), k);
}

// ---------------------------------------------------------------------------
// Schemas
// ---------------------------------------------------------------------------

/// A repeated record lies where the schema says, is counted by the field that it
/// says, and has items of the length that it says.
pub proof fn repeats_keep_their_place(r: AbiRepeatV, records: Entries<RecordV>)
    ensures
        match repeat_of(r, records) {
            Some(out) => out.name == schema_name(r.name) && out.count_field == schema_name(
                r.count_field,
            ) && out.offset == r.offset && out.item_len == r.item_len && lookup(
                records,
                ascii_upper(r.ty),
            ) is Some && out.item_fields.len() > 0,
            None => true,
        },
{
}

proof fn lemma_magics(magics: Entries<Seq<char>>, f: FieldV, n: nat)
    requires
        n <= magics.len(),
    ensures
        forall|i: int|
            0 <= i < magic_bytes_upto(magics, f, n).len() ==> (#[trigger] magic_bytes_upto(
                magics,
                f,
                n,
            )[i]).len() == f.len,
    decreases n,
{
    if n > 0 {
        lemma_magics(magics, f, (n - 1) as nat);
        let before = magic_bytes_upto(magics, f, (n - 1) as nat);
        let all = magic_bytes_upto(magics, f, n);
        assert forall|i: int| 0 <= i < all.len() implies (#[trigger] all[i]).len() == f.len by {
            if i < before.len() {
                assert(all[i] == before[i]);
            }
        }
    }
}

/// The bytes that a field always holds are as many as the field has, and only a
/// field of bytes has any.
pub proof fn fixed_bytes_fill_their_field(f: FieldV, magics: Entries<Seq<char>>)
    ensures
        match fixed_bytes_of(f, magics) {
            Some(bytes) => bytes.len() == f.len && starts_with_text(ascii_lower(f.ty), "bytes"@),
            None => true,
        },
{
    lemma_magics(magics, f, magics.len());
}

} // verus!
