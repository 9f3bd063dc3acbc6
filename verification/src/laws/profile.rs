//! What a program's sources say of its handlers.
use vstd::prelude::*;

use crate::names::{ascending, lookup, lookup_overlay, lookup_with_entry, with_entry_ascends};
use crate::pattern::has_text;
use crate::pinocchio_profile::blocks::{
    call_role, checked_binding, checked_key, key_check, key_names_in, role_in_expr, roles_in,
    roles_in_block, with_checked_token, with_next_account, with_read_number,
};
use crate::pinocchio_profile::exprs::{
    address_call, data_range, derivation_of, handler_called, ident_of, key_receiver_of,
    mentions_token_program, name_of_pattern, named_call, peeled, program_of, range_of,
    ref_ident_of, seed_text, slice_names, u8_of_pattern, usize_of,
};
use crate::pinocchio_profile::infer::{tags_of_arms, with_block};
use crate::pinocchio_profile::naming::{integer_type, schema_name};
use crate::pinocchio_profile::syntax::{
    syn_binding, syn_call, syn_elements, syn_inner, syn_method, syn_path, syn_range, Around,
    StatementV,
};
use crate::pinocchio_profile::walk::walked_block;
use crate::pinocchio_profile::{
    lookup_or, merged_handler, merged_role, merged_roles, no_role, with_role, DerivationV, Entries,
    HandlerV, ParamV, RoleV,
};

verus! {

// ---------------------------------------------------------------------------
// Roles
// ---------------------------------------------------------------------------

/// What a call of a method says of the account that it is called on.
pub proof fn methods_show_roles(e: Seq<char>, accounts: Seq<Seq<char>>)
    ensures
        (syn_method(e) is Some) && (has_text(accounts, schema_name(crate::pinocchio_profile::walk::tokens((syn_method(e)->0).receiver)))) ==> ({
            &&& (({
            let m = syn_method(e)->0;
            let account = schema_name(crate::pinocchio_profile::walk::tokens(m.receiver));
            let r = role_in_expr(e, accounts);
            &&& m.method == "is_signer"@ ==> r is Some && (r->0).0 == account
                && (r->0).1.is_signer == Some(true) && (r->0).1.is_writable is None
                && (r->0).1.is_program is None && (r->0).1.account_type is None
            &&& m.method == "is_writable"@ ==> r is Some && (r->0).0 == account
                && (r->0).1.is_writable == Some(true) && (r->0).1.is_signer is None
                && (r->0).1.is_program is None && (r->0).1.account_type is None
            &&& m.method == "is_executable"@ || m.method == "executable"@ ==> r is Some
                && (r->0).0 == account && (r->0).1.is_program == Some(true)
                && (r->0).1.is_signer is None && (r->0).1.is_writable is None
                && (r->0).1.account_type is None
        }))
        }),
{
    lemma_methods();
}

proof fn lemma_methods()
    ensures
        "is_signer"@ != "is_writable"@,
        "is_signer"@ != "is_executable"@,
        "is_signer"@ != "executable"@,
        "is_writable"@ != "is_executable"@,
        "is_writable"@ != "executable"@,
{
    reveal_strlit("is_signer");
    reveal_strlit("is_writable");
    reveal_strlit("is_executable");
    reveal_strlit("executable");
    assert("is_signer"@.len() == 9);
    assert("is_writable"@.len() == 11);
    assert("is_executable"@.len() == 13);
    assert("executable"@.len() == 10);
}

/// What a call of a function says of the account that it gets first: that a key
/// checked against the token program is that program, that a mint is read as a
/// mint, and that a token account is read, written or checked as one.
pub proof fn calls_show_roles(
    e: Seq<char>,
    f: Seq<char>,
    args: Seq<Seq<char>>,
    accounts: Seq<Seq<char>>,
)
    ensures
        (args.len() > 0) && (ident_of(args[0]) is Some) ==> ({
            &&& (({
            let account = ident_of(args[0])->0;
            let r = call_role(e, f, args, accounts);
            &&& f == "require_key"@ && args.len() >= 2 && has_text(accounts, account)
                && mentions_token_program(args[1]) ==> r is Some && (r->0).0 == account
                && (r->0).1.is_program == Some(true) && (r->0).1.account_type == Some("token"@)
                && (r->0).1.is_signer is None && (r->0).1.is_writable is None
            &&& f == "require_key"@ && args.len() >= 2 && !mentions_token_program(args[1]) ==> r
                is None
            &&& f == "read_mint_decimals"@ || f == "from_mint_account"@ ==> r is Some
                && (r->0).0 == account && (r->0).1.account_type == Some("mint"@)
                && (r->0).1.is_program is None
            &&& f == "require_token_account"@ || f == "read_token_amount"@ || f
                == "write_token_amount"@ ==> r is Some && (r->0).0 == account
                && (r->0).1.account_type == Some("token"@) && (r->0).1.is_program is None
        }))
        }),
{
    lemma_calls();
}

proof fn lemma_calls()
    ensures
        "require_key"@ != "read_mint_decimals"@,
        "require_key"@ != "from_mint_account"@,
        "require_key"@ != "require_token_account"@,
        "require_key"@ != "read_token_amount"@,
        "require_key"@ != "write_token_amount"@,
        "require_token_account"@ != "read_mint_decimals"@,
        "require_token_account"@ != "from_mint_account"@,
        "read_token_amount"@ != "read_mint_decimals"@,
        "read_token_amount"@ != "from_mint_account"@,
        "write_token_amount"@ != "read_mint_decimals"@,
        "write_token_amount"@ != "from_mint_account"@,
{
    reveal_strlit("require_key");
    reveal_strlit("read_mint_decimals");
    reveal_strlit("from_mint_account");
    reveal_strlit("require_token_account");
    reveal_strlit("read_token_amount");
    reveal_strlit("write_token_amount");
    assert("require_key"@.len() == 11);
    assert("read_mint_decimals"@.len() == 18);
    assert("from_mint_account"@.len() == 17);
    assert("require_token_account"@.len() == 21);
    assert("read_token_amount"@.len() == 17);
    assert("write_token_amount"@.len() == 18);
    assert("read_mint_decimals"@[0] == 'r');
    assert("from_mint_account"@[0] == 'f');
    assert("read_token_amount"@[0] == 'r');
    assert("write_token_amount"@[0] == 'w');
}

proof fn lemma_role_is_true(e: Seq<char>, accounts: Seq<Seq<char>>)
    ensures
        match role_in_expr(e, accounts) {
            Some((_, r)) => r.is_signer != Some(false) && r.is_writable != Some(false)
                && r.is_program != Some(false),
            None => true,
        },
{
}

proof fn lemma_roles_in(es: Seq<Seq<char>>, accounts: Seq<Seq<char>>, n: nat)
    requires
        n <= es.len(),
    ensures
        ascending(roles_in(es, accounts, n)),
        forall|k: int|
            0 <= k < n && role_in_expr(#[trigger] es[k], accounts) is Some ==> ({
                let (account, r) = role_in_expr(es[k], accounts)->0;
                let all = lookup(roles_in(es, accounts, n), account);
                &&& all is Some
                &&& r.is_signer is Some ==> (all->0).is_signer == Some(true)
                &&& r.is_writable is Some ==> (all->0).is_writable == Some(true)
                &&& r.is_program is Some ==> (all->0).is_program == Some(true)
                &&& r.account_type is Some ==> (all->0).account_type is Some
            }),
    decreases n,
{
    if n > 0 {
        lemma_roles_in(es, accounts, (n - 1) as nat);
        lemma_role_is_true(es[n - 1], accounts);
        let before = roles_in(es, accounts, (n - 1) as nat);
        if let Some((account, r)) = role_in_expr(es[n - 1], accounts) {
            let m = merged_role(lookup_or(before, account, no_role()), r);
            with_entry_ascends(before, account, m);
            assert forall|k: int|
                0 <= k < n && role_in_expr(#[trigger] es[k], accounts) is Some implies ({
                let (other, x) = role_in_expr(es[k], accounts)->0;
                let all = lookup(roles_in(es, accounts, n), other);
                &&& all is Some
                &&& x.is_signer is Some ==> (all->0).is_signer == Some(true)
                &&& x.is_writable is Some ==> (all->0).is_writable == Some(true)
                &&& x.is_program is Some ==> (all->0).is_program == Some(true)
                &&& x.account_type is Some ==> (all->0).account_type is Some
            }) by {
                let (other, x) = role_in_expr(es[k], accounts)->0;
                lookup_with_entry(before, account, m, other);
            }
        }
    }
}

/// Whatever an expression of a block shows of an account, the block shows: a
/// signer, a writable account and a program stay so whatever comes behind.
pub proof fn blocks_keep_what_is_shown(block: Seq<char>, accounts: Seq<Seq<char>>, k: int)
    ensures
        (0 <= k < walked_block(block).len()) && (role_in_expr(walked_block(block)[k], accounts) is Some) ==> ({
            &&& (({
            let (account, r) = role_in_expr(walked_block(block)[k], accounts)->0;
            let all = lookup(roles_in_block(block, accounts), account);
            &&& all is Some
            &&& r.is_signer is Some ==> (all->0).is_signer == Some(true)
            &&& r.is_writable is Some ==> (all->0).is_writable == Some(true)
            &&& r.is_program is Some ==> (all->0).is_program == Some(true)
        }))
        }),
{
    let es = walked_block(block);
    lemma_roles_in(es, accounts, es.len());
    if 0 <= k < es.len() {
        assert(role_in_expr(es[k], accounts) is Some ==> lookup(
            roles_in(es, accounts, es.len()),
            (role_in_expr(es[k], accounts)->0).0,
        ) is Some);
    }
}

/// What two sides say of an account is all that either says, and what the second
/// says where both do.
pub proof fn merged_roles_say_what_both_say(a: RoleV, b: RoleV)
    ensures
        b.is_signer is Some ==> merged_role(a, b).is_signer == b.is_signer,
        b.is_signer is None ==> merged_role(a, b).is_signer == a.is_signer,
        b.is_writable is Some ==> merged_role(a, b).is_writable == b.is_writable,
        b.is_writable is None ==> merged_role(a, b).is_writable == a.is_writable,
        b.is_program is Some ==> merged_role(a, b).is_program == b.is_program,
        b.is_program is None ==> merged_role(a, b).is_program == a.is_program,
        b.account_type is Some ==> merged_role(a, b).account_type == b.account_type,
        b.account_type is None ==> merged_role(a, b).account_type == a.account_type,
{
}

proof fn lemma_front<V>(es: Entries<V>, k: Seq<char>)
    requires
        es.len() > 0,
        ascending(es),
    ensures
        ascending(es.drop_last()),
        k == es.last().0 ==> lookup(es.drop_last(), k) is None && lookup(es, k) == Some(
            es.last().1,
        ),
        k != es.last().0 ==> lookup(es.drop_last(), k) == lookup(es, k),
{
    let front = es.drop_last();
    assert forall|i: int, j: int| 0 <= i < j < front.len() implies crate::names::text_lt(
        (#[trigger] front[i]).0,
        (#[trigger] front[j]).0,
    ) by {
        assert(front[i] == es[i] && front[j] == es[j]);
    }
    if k == es.last().0 {
        assert forall|i: int| 0 <= i < front.len() implies (#[trigger] front[i]).0 != k by {
            assert(front[i] == es[i]);
            assert(crate::names::text_lt(es[i].0, es[es.len() - 1].0));
            crate::names::text_lt_irreflexive(k);
        }
        lemma_absent(front, k);
    }
}

proof fn lemma_absent<V>(es: Entries<V>, k: Seq<char>)
    requires
        forall|i: int| 0 <= i < es.len() ==> (#[trigger] es[i]).0 != k,
    ensures
        lookup(es, k) is None,
    decreases es.len(),
{
    if es.len() > 0 {
        assert(es[es.len() - 1].0 != k);
        let front = es.drop_last();
        assert forall|i: int| 0 <= i < front.len() implies (#[trigger] front[i]).0 != k by {
            assert(front[i] == es[i]);
        }
        lemma_absent(front, k);
    }
}

/// Merging roles account by account keeps what either side says of each account.
pub proof fn merging_roles_goes_by_account(es: Entries<RoleV>, os: Entries<RoleV>, k: Seq<char>)
    requires
        ascending(es),
        ascending(os),
    ensures
        ascending(merged_roles(es, os)),
        lookup(merged_roles(es, os), k) == match lookup(os, k) {
            Some(b) => Some(merged_role(lookup_or(es, k, no_role()), b)),
            None => lookup(es, k),
        },
    decreases os.len(),
{
    if os.len() > 0 {
        let (name, r) = os.last();
        let m = merged_role(lookup_or(es, name, no_role()), r);
        let next = with_role(es, name, r);
        with_entry_ascends(es, name, m);
        lookup_with_entry(es, name, m, k);
        lemma_front(os, k);
        merging_roles_goes_by_account(next, os.drop_last(), k);
    }
}

/// A handler that two sides describe is what both say of it: the second where it
/// says anything, and the first elsewhere.
pub proof fn merged_handlers_say_what_both_say(a: HandlerV, b: HandlerV, k: Seq<char>)
    requires
        ascending(a.bindings),
        ascending(b.bindings),
        ascending(a.keys),
        ascending(b.keys),
    ensures
        ({
            let m = merged_handler(a, b);
            &&& m.name == a.name
            &&& b.tag is Some ==> m.tag == b.tag
            &&& b.tag is None ==> m.tag == a.tag
            &&& b.accounts.len() > 0 ==> m.accounts == b.accounts
            &&& b.accounts.len() == 0 ==> m.accounts == a.accounts
            &&& b.params.len() > 0 ==> m.params == b.params
            &&& b.params.len() == 0 && b.repeats.len() == 0 ==> m.params == a.params && m.repeats
                == a.repeats
            &&& b.repeats.len() > 0 ==> m.repeats == b.repeats && m.params == b.params
            &&& lookup(b.bindings, k) is Some ==> lookup(m.bindings, k) == lookup(b.bindings, k)
            &&& lookup(b.bindings, k) is None ==> lookup(m.bindings, k) == lookup(a.bindings, k)
            &&& lookup(b.keys, k) is Some ==> lookup(m.keys, k) == lookup(b.keys, k)
            &&& lookup(b.keys, k) is None ==> lookup(m.keys, k) == lookup(a.keys, k)
        }),
{
    lookup_overlay(a.bindings, b.bindings, k);
    lookup_overlay(a.keys, b.keys, k);
}

// ---------------------------------------------------------------------------
// Accounts and keys
// ---------------------------------------------------------------------------

proof fn lemma_token_checks()
    ensures
        "require_token_account"@ != "require_matching_token_mint"@,
{
    reveal_strlit("require_token_account");
    reveal_strlit("require_matching_token_mint");
    assert("require_token_account"@.len() == 21);
    assert("require_matching_token_mint"@.len() == 27);
}

/// A check of a token account binds its first argument to the mint in the second
/// and to the owner in the third; a check of a mint binds the mint alone.
pub proof fn token_checks_bind_mint_and_owner(
    e: Seq<char>,
    args: Seq<Seq<char>>,
    key_names: Entries<Seq<char>>,
    locals: Entries<DerivationV>,
    acc: Entries<crate::pinocchio_profile::BindingV>,
    other: Seq<char>,
)
    requires
        ascending(acc),
    ensures
        (args.len() >= 2) && (ident_of(args[0]) is Some) ==> ({
            &&& (({
            let account = ident_of(args[0])->0;
            let out = with_checked_token(e, key_names, locals, acc);
            &&& named_call(e) == Some(("require_token_account"@, args)) && args.len() == 3 ==> {
                let b = lookup(out, account);
                &&& b is Some
                &&& key_receiver_of(args[1]) is Some ==> (b->0).mint_account == Some(
                    schema_name(key_receiver_of(args[1])->0),
                )
                &&& key_receiver_of(args[1]) is None ==> (b->0).mint_account is None
                &&& key_receiver_of(args[2]) is Some ==> (b->0).owner_account == Some(
                    schema_name(key_receiver_of(args[2])->0),
                )
                &&& key_receiver_of(args[2]) is None && ref_ident_of(args[2]) is Some ==> (
                b->0).owner_account == lookup(key_names, ref_ident_of(args[2])->0)
                &&& ref_ident_of(args[2]) is Some ==> (b->0).owner_key == lookup(
                    locals,
                    ref_ident_of(args[2])->0,
                )
            }
            &&& named_call(e) == Some(("require_matching_token_mint"@, args)) && args.len() == 2
                && key_receiver_of(args[1]) is Some ==> {
                let b = lookup(out, account);
                &&& b is Some
                &&& (b->0).mint_account == Some(schema_name(key_receiver_of(args[1])->0))
                &&& lookup(acc, account) is Some ==> (b->0).owner_account == (lookup(
                    acc,
                    account,
                )->0).owner_account && (b->0).owner_key == (lookup(acc, account)->0).owner_key
                &&& lookup(acc, account) is None ==> (b->0).owner_account is None
                    && (b->0).owner_key is None
            }
            &&& other != account && named_call(e) is Some && (named_call(e)->0).1 == args ==> lookup(
                out,
                other,
            ) == lookup(acc, other)
        }))
        }),
{
    lemma_token_checks();
    let account = ident_of(args[0])->0;
    if args.len() == 3 {
        lookup_with_entry(acc, account, checked_binding(args[1], args[2], key_names, locals), other);
    }
    if let Some(mint) = key_receiver_of(args[1]) {
        lookup_with_entry(
            acc,
            account,
            crate::pinocchio_profile::BindingV {
                mint_account: Some(schema_name(mint)),
                ..lookup_or(acc, account, crate::pinocchio_profile::blocks::no_binding())
            },
            other,
        );
    }
}

/// A check of a key compares the account in its first argument with the key in
/// its second: a derivation, or a name for one.
pub proof fn key_checks_read_account_and_key(
    e: Seq<char>,
    args: Seq<Seq<char>>,
    locals: Entries<DerivationV>,
)
    ensures
        (named_call(e) == Some(("require_key"@, args))) && (args.len() == 2) && (ident_of(args[0]) is Some) ==> ({
            &&& (key_check(e) == Some((ident_of(args[0])->0, args[1])))
            &&& (derivation_of(args[1]) is Some ==> checked_key(e, locals) == Some(
            (ident_of(args[0])->0, derivation_of(args[1])->0),
        ))
            &&& (derivation_of(args[1]) is None && ref_ident_of(args[1]) is Some && lookup(
            locals,
            ref_ident_of(args[1])->0,
        ) is Some ==> checked_key(e, locals) == Some(
            (ident_of(args[0])->0, lookup(locals, ref_ident_of(args[1])->0)->0),
        ))
        }),
{
}

/// A checked key names its account: under the name of the key stands the account,
/// not the other way round.
pub proof fn checked_keys_name_their_account(
    es: Seq<Seq<char>>,
    n: nat,
    account: Seq<char>,
    key: Seq<char>,
)
    requires
        0 < n <= es.len(),
    ensures
        (key_check(es[n - 1]) == Some((account, key))) && (ref_ident_of(key) is Some) ==> ({
            &&& (lookup(key_names_in(es, n), schema_name(ref_ident_of(key)->0)) == Some(
            schema_name(account),
        ))
        }),
{
    lemma_key_names(es, (n - 1) as nat);
    lookup_with_entry(
        key_names_in(es, (n - 1) as nat),
        schema_name(ref_ident_of(key)->0),
        schema_name(account),
        account,
    );
}

proof fn lemma_key_names(es: Seq<Seq<char>>, n: nat)
    requires
        n <= es.len(),
    ensures
        ascending(key_names_in(es, n)),
    decreases n,
{
    if n > 0 {
        lemma_key_names(es, (n - 1) as nat);
        if let Some((account, key)) = key_check(es[n - 1]) {
            if let Some(name) = ref_ident_of(key) {
                with_entry_ascends(
                    key_names_in(es, (n - 1) as nat),
                    schema_name(name),
                    schema_name(account),
                );
            }
        }
    }
}

/// An account that is taken next comes behind those before it; the accounts of a
/// slice pattern come in its order, up to the rest of the slice.
pub proof fn accounts_are_taken_in_order(
    s: StatementV,
    acc: Seq<Seq<char>>,
    es: Seq<Seq<char>>,
    name: Seq<char>,
)
    ensures
        s.pattern is Some && s.expr is Some && crate::pinocchio_profile::exprs::calls(
            s.expr->0,
            "next_account_info"@,
        ) && name_of_pattern(s.pattern->0) is Some ==> with_next_account(s, acc) == acc.push(
            name_of_pattern(s.pattern->0)->0,
        ),
        es.len() > 0 && syn_binding(es[0]) == (crate::pinocchio_profile::syntax::BindingV::Name(
            name,
        )) ==> slice_names(es, 0, acc) == slice_names(es, 1, acc.push(schema_name(name))),
        es.len() > 0 && syn_binding(es[0]) is Rest ==> slice_names(es, 0, acc) == Some(acc),
        es.len() == 0 ==> slice_names(es, 0, acc) == Some(acc),
{
}

/// A search for an address takes the seeds of its first argument, in their order,
/// under the program in its second.
pub proof fn addresses_have_their_seeds(e: Seq<char>, args: Seq<Seq<char>>, seeds: Seq<Seq<char>>)
    ensures
        (named_call(e) == Some(("find_program_address"@, args)) || named_call(e) == Some(
            ("try_find_program_address"@, args),
        )) && (args.len() >= 2) && (program_of(args[1]).len() > 0) && (({
            let a = match syn_inner(args[0]) {
                Some((Around::Reference, x)) => x,
                _ => args[0],
            };
            syn_elements(a) == Some((true, seeds))
        })) && (seeds.len() > 0) ==> ({
            &&& (address_call(e) is Some)
            &&& ((address_call(e)->0).0.len() == seeds.len())
            &&& (forall|i: int|
            0 <= i < seeds.len() ==> #[trigger] (address_call(e)->0).0[i] == seed_text(seeds[i]))
            &&& ((address_call(e)->0).1 == program_of(args[1]))
        }),
{
}

// ---------------------------------------------------------------------------
// Instruction data
// ---------------------------------------------------------------------------

/// A range of the instruction data starts where it says and ends where it says.
pub proof fn ranges_are_read(e: Seq<char>, a: Seq<char>, b: Seq<char>)
    ensures
        (syn_range(e) == Some((Some(a), Some(b)))) && (usize_of(a) is Some) && (usize_of(b) is Some) ==> ({
            &&& (range_of(e) == Some((usize_of(a)->0, usize_of(b)->0)))
        }),
{
}

/// A number that is read from the little-endian bytes of a range of the data is a
/// parameter of the type that reads it, from the start to the end of the range.
pub proof fn numbers_are_read_from_their_range(
    s: StatementV,
    segs: Seq<Seq<char>>,
    f: Seq<char>,
    args: Seq<Seq<char>>,
    range: Seq<char>,
)
    ensures
        (s.pattern is Some) && (s.expr is Some) && (name_of_pattern(s.pattern->0) is Some) && (syn_call(peeled(s.expr->0)) == Some((f, args))) && (syn_path(f) == Some(segs)) && (segs.len() >= 2) && (segs.last() == "from_le_bytes"@) && (integer_type(segs[segs.len() - 2]) is Some) && (args.len() > 0) && (data_range(args[0]) == range_of(range)) && (range_of(range) is Some) && ((range_of(range)->0).0 <= usize::MAX) && ((range_of(range)->0).1 <= usize::MAX) ==> ({
            &&& (with_read_number(s, Seq::empty()).len() == 1)
            &&& (({
            let p = with_read_number(s, Seq::empty())[0];
            &&& p.name == name_of_pattern(s.pattern->0)->0
            &&& p.rust_type == segs[segs.len() - 2]
            &&& p.start == (range_of(range)->0).0
            &&& p.end == (range_of(range)->0).1
        }))
        }),
{
    let p = ParamV {
        name: name_of_pattern(s.pattern->0)->0,
        rust_type: segs[segs.len() - 2],
        start: (range_of(range)->0).0 as usize,
        end: (range_of(range)->0).1 as usize,
    };
    if with_read_number(s, Seq::empty()).len() == 1 {
        assert(with_read_number(s, Seq::empty()) =~= seq![with_read_number(s, Seq::empty())[0]]);
    }
    assert(Seq::<ParamV>::empty().push(p) =~= seq![p]);
}

/// The arm of a dispatch gives the handler that it calls the number that it
/// matches.
pub proof fn arms_give_tags(
    hs: Entries<HandlerV>,
    arms: Seq<(Seq<char>, Seq<char>)>,
    n: nat,
    tag: u8,
    name: Seq<char>,
)
    requires
        ascending(hs),
        0 < n <= arms.len(),
    ensures
        (u8_of_pattern(arms[n - 1].0) == Some(tag as nat)) && (handler_called(arms[n - 1].1) == Some(name)) ==> ({
            &&& (lookup(tags_of_arms(hs, arms, n), name) is Some)
            &&& ((lookup(tags_of_arms(hs, arms, n), name)->0).tag == Some(tag))
        }),
{
    lemma_tags(hs, arms, (n - 1) as nat);
    let before = tags_of_arms(hs, arms, (n - 1) as nat);
    lookup_with_entry(
        before,
        name,
        HandlerV {
            tag: Some(tag),
            ..lookup_or(before, name, crate::pinocchio_profile::empty_handler(name))
        },
        name,
    );
}

proof fn lemma_tags(hs: Entries<HandlerV>, arms: Seq<(Seq<char>, Seq<char>)>, n: nat)
    requires
        ascending(hs),
        n <= arms.len(),
    ensures
        ascending(tags_of_arms(hs, arms, n)),
    decreases n,
{
    if n > 0 {
        lemma_tags(hs, arms, (n - 1) as nat);
        let before = tags_of_arms(hs, arms, (n - 1) as nat);
        if let (Some(tag), Some(name)) = (
            u8_of_pattern(arms[n - 1].0),
            handler_called(arms[n - 1].1),
        ) {
            with_entry_ascends(
                before,
                name,
                HandlerV {
                    tag: Some(tag as u8),
                    ..lookup_or(before, name, crate::pinocchio_profile::empty_handler(name))
                },
            );
        }
    }
}

/// Accounts, parameters and the tag that a handler has already stay when its
/// block is read; only what is missing is taken from the block.
pub proof fn blocks_add_what_is_missing(h: HandlerV, block: Seq<char>)
    ensures
        with_block(h, block).name == h.name,
        with_block(h, block).tag == h.tag,
        with_block(h, block).repeats == h.repeats,
        h.accounts.len() > 0 ==> with_block(h, block).accounts == h.accounts,
        h.params.len() > 0 ==> with_block(h, block).params == h.params,
        h.accounts.len() == 0 ==> with_block(h, block).accounts
            == crate::pinocchio_profile::blocks::accounts_in_block(block, Seq::empty()),
        h.params.len() == 0 ==> with_block(h, block).params
            == crate::pinocchio_profile::blocks::params_in_block(block, Seq::empty()),
{
}

} // verus!
