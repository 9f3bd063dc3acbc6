//! Profiles from sources and schemas.
use vstd::prelude::*;

use crate::names::{entries_map, overlay, with_entry, NameMap};
use crate::pinocchio_profile::abi::with_schema;
use crate::pinocchio_profile::blocks::{
    accounts_in_block, checked_keys_in_block, infer_account_key_derivations_from_block,
    infer_account_roles_from_block, infer_accounts_from_block,
    infer_key_account_aliases_from_block, infer_local_key_derivations_from_block,
    infer_params_from_block, infer_source_expr_aliases_from_block,
    infer_token_account_bindings_from_block, key_names_in_block, keys_in_block, named_values,
    params_in_block, roles_in_block, tokens_in_block,
};
use crate::pinocchio_profile::exprs::{
    find_address_call, first_address, first_process_callee, handler_called, name_of_pattern,
    pat_u8_literal, simple_pat_ident, u8_of_pattern,
};
use crate::pinocchio_profile::fallback::{
    accounts_in_text, body_views, checked_keys_in_text, derivation_from, derivations_in_text,
    dispatched_in_text, handler_bodies, infer_account_key_derivations, infer_account_roles,
    infer_accounts, infer_dispatch_tags, infer_key_account_aliases, infer_local_key_derivations,
    infer_params, infer_pda_derivations, infer_source_expr_aliases, infer_token_account_bindings,
    key_names_in_text, keys_in_text, make_derivation, named_in_text, params_in_text,
    process_fn_bodies, roles_in_text, set_tag, tokens_in_text, with_tag,
};
use crate::pinocchio_profile::naming::{normalize_schema_name, schema_name};
use crate::pinocchio_profile::schema::{read_abi_schema, schema_of};
use crate::pinocchio_profile::syntax::{
    file_items, function_parts, function_view, match_parts, module_items, pair_views, param_pair,
    syn_function, syn_items, syn_match, syn_module, FunctionParts, FunctionV,
};
use crate::pinocchio_profile::walk::{normalize_expr_tokens, shorter, size, tokens, walk_block, walked_block};
use crate::pinocchio_profile::{
    empty_handler, empty_profile, handler_fn, lookup_or, merge_roles, merged_profile, merged_roles,
    pda_fn, take_handler, Entries, HandlerV, PdaV, PinocchioHandlerProfile, PinocchioPdaDerivation,
    PinocchioProofProfile, ProfileV,
};
use crate::search::{opt_text, strip_prefix, without_prefix};
use crate::split::{rsplit_once, rsplit_once_text};
use crate::text::{same, texts};

verus! {

broadcast use {
    crate::names::group_entries,
    crate::text::group_text,
    crate::text::texts_index,
    crate::text::texts_len,
};

// ---------------------------------------------------------------------------
// Functions
// ---------------------------------------------------------------------------

/// The functions that an item is or holds: itself, or those of a module, in the
/// order of the text.
pub open spec fn fns_in_item(item: Seq<char>) -> Seq<FunctionV>
    decreases size(item), 1nat, 0nat,
{
    match syn_function(item) {
        Some(f) => seq![f],
        None => match syn_module(item) {
            Some(items) => fns_below(items, size(item), items.len()),
            None => Seq::empty(),
        },
    }
}

/// The functions in the first `n` items, as far as their sizes are below
/// `bound`.
pub open spec fn fns_below(items: Seq<Seq<char>>, bound: nat, n: nat) -> Seq<FunctionV>
    decreases bound, 0nat, n,
{
    if n == 0 {
        Seq::empty()
    } else {
        fns_below(items, bound, (n - 1) as nat) + (if size(items[n - 1]) < bound {
            fns_in_item(items[n - 1])
        } else {
            Seq::empty()
        })
    }
}

/// The functions in the first `n` items of a file.
pub open spec fn fns_upto(items: Seq<Seq<char>>, n: nat) -> Seq<FunctionV>
    decreases n,
{
    if n == 0 {
        Seq::empty()
    } else {
        fns_upto(items, (n - 1) as nat) + fns_in_item(items[n - 1])
    }
}

pub open spec fn fn_view(f: FunctionParts) -> FunctionV {
    function_view(Some(f))->0
}

pub open spec fn fn_views(v: Seq<FunctionParts>) -> Seq<FunctionV> {
    Seq::new(v.len(), |i: int| fn_view(v[i]))
}

fn collect_fns_of_item(item: &str, out: &mut Vec<FunctionParts>)
    ensures
        fn_views(final(out)@) == fn_views(old(out)@) + fns_in_item(item@),
    decreases size(item@),
{
    let ghost start = fn_views(out@);
    match function_parts(item) {
        Some(f) => {
            let ghost fv = fn_view(f);
            out.push(f);
            proof {
                assert(fn_views(out@) =~= start + seq![fv]);
            }
            return ;
        },
        None => {},
    }
    match module_items(item) {
        Some(items) => {
            let ghost all = texts(items@);
            let ghost bound = size(item@);
            proof {
                assert(start + fns_below(all, bound, 0) =~= start);
            }
            for i in 0..items.len()
                invariant
                    all == texts(items@),
                    bound == size(item@),
                    fn_views(out@) == start + fns_below(all, bound, i as nat),
            {
                let ghost before = fns_below(all, bound, i as nat);
                if shorter(&items[i], item) {
                    collect_fns_of_item(&items[i], out);
                    proof {
                        assert((start + before) + fns_in_item(all[i as int]) =~= start + (before
                            + fns_in_item(all[i as int])));
                    }
                } else {
                    proof {
                        assert(before + Seq::<FunctionV>::empty() =~= before);
                    }
                }
            }
        },
        None => {
            proof {
                assert(start + Seq::<FunctionV>::empty() =~= start);
            }
        },
    }
}

fn collect_item_fns(items: &Vec<String>) -> (r: Vec<FunctionParts>)
    ensures
        fn_views(r@) == fns_upto(texts(items@), items@.len()),
{
    let mut out: Vec<FunctionParts> = Vec::new();
    proof {
        assert(fn_views(out@) =~= Seq::empty());
    }
    for i in 0..items.len()
        invariant
            fn_views(out@) == fns_upto(texts(items@), i as nat),
    {
        collect_fns_of_item(&items[i], &mut out);
    }
    out
}

// ---------------------------------------------------------------------------
// Handlers
// ---------------------------------------------------------------------------

/// The handler that a function processes; that of all instructions is none.
pub open spec fn handler_of_fn(name: Seq<char>) -> Option<Seq<char>> {
    match without_prefix(name, "process_"@) {
        Some(handler) => if handler == "instruction"@ {
            None
        } else {
            Some(handler)
        },
        None => None,
    }
}

/// The handler that a function processes.
pub fn process_handler_name(name: &str) -> (r: Option<String>)
    ensures
        opt_text(r) == handler_of_fn(name@),
{
    match strip_prefix(name, "process_") {
        Some(handler) => if same(&handler, "instruction") {
            None
        } else {
            Some(handler)
        },
        None => None,
    }
}

/// A handler with what its block says. Accounts and parameters that are known
/// already stay.
pub open spec fn with_block(h: HandlerV, block: Seq<char>) -> HandlerV {
    let accounts = if h.accounts.len() == 0 {
        accounts_in_block(block, Seq::empty())
    } else {
        h.accounts
    };
    let key_names = key_names_in_block(block);
    let locals = keys_in_block(block, Seq::empty());
    HandlerV {
        accounts,
        roles: merged_roles(h.roles, roles_in_block(block, accounts)),
        bindings: overlay(h.bindings, tokens_in_block(block, key_names, locals)),
        keys: overlay(h.keys, checked_keys_in_block(block, locals)),
        aliases: overlay(h.aliases, named_values(block)),
        params: if h.params.len() == 0 {
            params_in_block(block, Seq::empty())
        } else {
            h.params
        },
        ..h
    }
}

fn read_block(entry: &mut PinocchioHandlerProfile, block: &str)
    ensures
        final(entry)@ == with_block(old(entry)@, block@),
{
    if entry.accounts.len() == 0 {
        entry.accounts = infer_accounts_from_block(block);
    }
    let roles = infer_account_roles_from_block(block, &entry.accounts);
    merge_roles(&mut entry.account_roles, roles);
    let key_names = infer_key_account_aliases_from_block(block);
    let locals = infer_local_key_derivations_from_block(block);
    let bindings = infer_token_account_bindings_from_block(block, &key_names, &locals);
    entry.token_account_bindings.absorb(bindings);
    let keys = infer_account_key_derivations_from_block(block, &locals);
    entry.account_key_derivations.absorb(keys);
    let aliases = infer_source_expr_aliases_from_block(block);
    entry.source_expr_aliases.absorb(aliases);
    if entry.params.len() == 0 {
        entry.params = infer_params_from_block(block);
    }
}

/// A handler with what its body says, read as plain text.
pub open spec fn with_body(h: HandlerV, body: Seq<char>) -> HandlerV {
    let accounts = if h.accounts.len() == 0 {
        accounts_in_text(body)
    } else {
        h.accounts
    };
    let key_names = key_names_in_text(body);
    let locals = keys_in_text(body);
    HandlerV {
        accounts,
        roles: merged_roles(h.roles, roles_in_text(body, accounts)),
        bindings: overlay(h.bindings, tokens_in_text(body, key_names, locals)),
        keys: overlay(h.keys, checked_keys_in_text(body, locals)),
        aliases: overlay(h.aliases, named_in_text(body)),
        params: if h.params.len() == 0 {
            params_in_text(body)
        } else {
            h.params
        },
        ..h
    }
}

fn read_body(entry: &mut PinocchioHandlerProfile, body: &str)
    ensures
        final(entry)@ == with_body(old(entry)@, body@),
{
    if entry.accounts.len() == 0 {
        entry.accounts = infer_accounts(body);
    }
    let roles = infer_account_roles(body, &entry.accounts);
    merge_roles(&mut entry.account_roles, roles);
    let key_names = infer_key_account_aliases(body);
    let locals = infer_local_key_derivations(body);
    let bindings = infer_token_account_bindings(body, &key_names, &locals);
    entry.token_account_bindings.absorb(bindings);
    let keys = infer_account_key_derivations(body, &locals);
    entry.account_key_derivations.absorb(keys);
    let aliases = infer_source_expr_aliases(body);
    entry.source_expr_aliases.absorb(aliases);
    if entry.params.len() == 0 {
        entry.params = infer_params(body);
    }
}

/// The handlers with what the first `n` functions say.
pub open spec fn handlers_of_fns(hs: Entries<HandlerV>, fns: Seq<FunctionV>, n: nat) -> Entries<
    HandlerV,
>
    decreases n,
{
    if n == 0 {
        hs
    } else {
        let before = handlers_of_fns(hs, fns, (n - 1) as nat);
        match handler_of_fn(fns[n - 1].name) {
            Some(name) => with_entry(
                before,
                name,
                with_block(lookup_or(before, name, empty_handler(name)), fns[n - 1].block),
            ),
            None => before,
        }
    }
}

fn read_fns(handlers: &mut NameMap<PinocchioHandlerProfile>, fns: &Vec<FunctionParts>)
    ensures
        entries_map(final(handlers)@, handler_fn()) == handlers_of_fns(
            entries_map(old(handlers)@, handler_fn()),
            fn_views(fns@),
            fns@.len(),
        ),
{
    let ghost all = fn_views(fns@);
    let ghost start = entries_map(handlers@, handler_fn());
    for i in 0..fns.len()
        invariant
            all == fn_views(fns@),
            entries_map(handlers@, handler_fn()) == handlers_of_fns(start, all, i as nat),
    {
        proof {
            assert(all[i as int] == fn_view(fns@[i as int]));
        }
        match process_handler_name(&fns[i].name) {
            Some(name) => {
                let mut entry = take_handler(handlers, &name);
                read_block(&mut entry, &fns[i].block);
                handlers.insert(name, entry);
            },
            None => {},
        }
    }
}

/// The handlers with what the first `n` bodies say.
pub open spec fn handlers_of_bodies(
    hs: Entries<HandlerV>,
    bodies: Seq<(Seq<char>, Seq<char>)>,
    n: nat,
) -> Entries<HandlerV>
    decreases n,
{
    if n == 0 {
        hs
    } else {
        let before = handlers_of_bodies(hs, bodies, (n - 1) as nat);
        let name = bodies[n - 1].0;
        with_entry(
            before,
            name,
            with_body(lookup_or(before, name, empty_handler(name)), bodies[n - 1].1),
        )
    }
}

fn read_bodies(handlers: &mut NameMap<PinocchioHandlerProfile>, source: &str)
    ensures
        entries_map(final(handlers)@, handler_fn()) == handlers_of_bodies(
            entries_map(old(handlers)@, handler_fn()),
            handler_bodies(source@),
            handler_bodies(source@).len(),
        ),
{
    let bodies = process_fn_bodies(source);
    let ghost all = body_views(bodies@);
    let ghost start = entries_map(handlers@, handler_fn());
    for i in 0..bodies.len()
        invariant
            all == body_views(bodies@),
            entries_map(handlers@, handler_fn()) == handlers_of_bodies(start, all, i as nat),
    {
        let name = bodies[i].0.clone();
        let mut entry = take_handler(handlers, &name);
        read_body(&mut entry, &bodies[i].1);
        handlers.insert(name, entry);
    }
}

// ---------------------------------------------------------------------------
// Dispatch
// ---------------------------------------------------------------------------

/// The handlers with the tags of the first `n` arms.
pub open spec fn tags_of_arms(
    hs: Entries<HandlerV>,
    arms: Seq<(Seq<char>, Seq<char>)>,
    n: nat,
) -> Entries<HandlerV>
    decreases n,
{
    if n == 0 {
        hs
    } else {
        let before = tags_of_arms(hs, arms, (n - 1) as nat);
        match (u8_of_pattern(arms[n - 1].0), handler_called(arms[n - 1].1)) {
            (Some(tag), Some(name)) => with_tag(before, name, tag as u8),
            _ => before,
        }
    }
}

fn read_arms(handlers: &mut NameMap<PinocchioHandlerProfile>, arms: &Vec<(String, String)>)
    ensures
        entries_map(final(handlers)@, handler_fn()) == tags_of_arms(
            entries_map(old(handlers)@, handler_fn()),
            pair_views(arms@),
            arms@.len(),
        ),
{
    let ghost all = pair_views(arms@);
    let ghost start = entries_map(handlers@, handler_fn());
    for i in 0..arms.len()
        invariant
            all == pair_views(arms@),
            entries_map(handlers@, handler_fn()) == tags_of_arms(start, all, i as nat),
    {
        match (pat_u8_literal(&arms[i].0), first_process_callee(&arms[i].1)) {
            (Some(tag), Some(name)) => {
                set_tag(handlers, name, tag);
            },
            _ => {},
        }
    }
}

/// The handlers with the tags of the first `n` expressions that are matches.
pub open spec fn tags_of_exprs(hs: Entries<HandlerV>, es: Seq<Seq<char>>, n: nat) -> Entries<HandlerV>
    decreases n,
{
    if n == 0 {
        hs
    } else {
        let before = tags_of_exprs(hs, es, (n - 1) as nat);
        match syn_match(es[n - 1]) {
            Some((_, arms)) => tags_of_arms(before, arms, arms.len()),
            None => before,
        }
    }
}

/// The handlers with the tags that those of the first `n` functions dispatch
/// that process all instructions.
pub open spec fn tags_of_fns(hs: Entries<HandlerV>, fns: Seq<FunctionV>, n: nat) -> Entries<HandlerV>
    decreases n,
{
    if n == 0 {
        hs
    } else {
        let before = tags_of_fns(hs, fns, (n - 1) as nat);
        if fns[n - 1].name == "process_instruction"@ {
            let es = walked_block(fns[n - 1].block);
            tags_of_exprs(before, es, es.len())
        } else {
            before
        }
    }
}

fn read_dispatch(handlers: &mut NameMap<PinocchioHandlerProfile>, block: &str)
    ensures
        entries_map(final(handlers)@, handler_fn()) == tags_of_exprs(
            entries_map(old(handlers)@, handler_fn()),
            walked_block(block@),
            walked_block(block@).len(),
        ),
{
    let es = walk_block(block);
    let ghost start = entries_map(handlers@, handler_fn());
    for i in 0..es.len()
        invariant
            entries_map(handlers@, handler_fn()) == tags_of_exprs(start, texts(es@), i as nat),
    {
        match match_parts(&es[i]) {
            Some((_, arms)) => {
                read_arms(handlers, &arms);
            },
            None => {},
        }
    }
}

fn infer_dispatch_tags_from_fns(
    handlers: &mut NameMap<PinocchioHandlerProfile>,
    fns: &Vec<FunctionParts>,
)
    ensures
        entries_map(final(handlers)@, handler_fn()) == tags_of_fns(
            entries_map(old(handlers)@, handler_fn()),
            fn_views(fns@),
            fns@.len(),
        ),
{
    let ghost all = fn_views(fns@);
    let ghost start = entries_map(handlers@, handler_fn());
    for i in 0..fns.len()
        invariant
            all == fn_views(fns@),
            entries_map(handlers@, handler_fn()) == tags_of_fns(start, all, i as nat),
    {
        proof {
            assert(all[i as int] == fn_view(fns@[i as int]));
        }
        if same(&fns[i].name, "process_instruction") {
            read_dispatch(handlers, &fns[i].block);
        }
    }
}

// ---------------------------------------------------------------------------
// Addresses
// ---------------------------------------------------------------------------

/// The names and the types of the first `n` parameters of a function that bind
/// a name.
pub open spec fn typed_params(ps: Seq<Option<(Seq<char>, Seq<char>)>>, n: nat) -> Seq<
    (Seq<char>, Seq<char>),
>
    decreases n,
{
    if n == 0 {
        Seq::empty()
    } else {
        let before = typed_params(ps, (n - 1) as nat);
        match ps[n - 1] {
            Some((pattern, ty)) => match name_of_pattern(pattern) {
                Some(name) => before.push((name, tokens(ty))),
                None => before,
            },
            None => before,
        }
    }
}

fn read_typed_params(ps: &Vec<Option<(String, String)>>) -> (r: Vec<(String, String)>)
    ensures
        body_views(r@) == typed_params(
            Seq::new(ps@.len(), |i: int| param_pair(ps@[i])),
            ps@.len(),
        ),
{
    let ghost all = Seq::new(ps@.len(), |i: int| param_pair(ps@[i]));
    let mut out: Vec<(String, String)> = Vec::new();
    proof {
        assert(body_views(out@) =~= Seq::empty());
    }
    for i in 0..ps.len()
        invariant
            all == Seq::new(ps@.len(), |i: int| param_pair(ps@[i])),
            body_views(out@) == typed_params(all, i as nat),
    {
        proof {
            assert(all[i as int] == param_pair(ps@[i as int]));
        }
        match &ps[i] {
            Some((pattern, ty)) => {
                match simple_pat_ident(pattern) {
                    Some(name) => {
                        let p = (name, normalize_expr_tokens(ty));
                        proof {
                            assert(body_views(out@.push(p)) =~= body_views(out@).push(
                                (p.0@, p.1@),
                            ));
                        }
                        out.push(p);
                    },
                    None => {},
                }
            },
            None => {},
        }
    }
    out
}

/// The derivations with those of the first `n` functions.
pub open spec fn derivations_of_fns(acc: Entries<PdaV>, fns: Seq<FunctionV>, n: nat) -> Entries<PdaV>
    decreases n,
{
    if n == 0 {
        acc
    } else {
        let before = derivations_of_fns(acc, fns, (n - 1) as nat);
        let f = fns[n - 1];
        match without_prefix(f.name, "derive_"@) {
            Some(rest) => match first_address(walked_block(f.block), 0) {
                Some(address) => with_entry(
                    before,
                    schema_name(rest),
                    derivation_from(
                        schema_name(rest),
                        typed_params(f.params, f.params.len()),
                        keys_in_block(f.block, Seq::empty()),
                        address,
                    ),
                ),
                None => before,
            },
            None => before,
        }
    }
}

fn infer_pda_derivations_from_fns(
    derivations: &mut NameMap<PinocchioPdaDerivation>,
    fns: &Vec<FunctionParts>,
)
    ensures
        entries_map(final(derivations)@, pda_fn()) == derivations_of_fns(
            entries_map(old(derivations)@, pda_fn()),
            fn_views(fns@),
            fns@.len(),
        ),
{
    let ghost all = fn_views(fns@);
    let ghost start = entries_map(derivations@, pda_fn());
    for i in 0..fns.len()
        invariant
            all == fn_views(fns@),
            entries_map(derivations@, pda_fn()) == derivations_of_fns(start, all, i as nat),
    {
        let f = &fns[i];
        proof {
            assert(all[i as int] == fn_view(*f));
        }
        match strip_prefix(&f.name, "derive_") {
            Some(rest) => {
                match find_address_call(&walk_block(&f.block)) {
                    Some((seeds, program)) => {
                        let name = normalize_schema_name(&rest);
                        let params = read_typed_params(&f.params);
                        let keys = infer_local_key_derivations_from_block(&f.block);
                        let d = make_derivation(name.clone(), &params, keys, &seeds, program);
                        derivations.insert(name, d);
                    },
                    None => {},
                }
            },
            None => {},
        }
    }
}

// ---------------------------------------------------------------------------
// Sources
// ---------------------------------------------------------------------------

/// A profile with what a source says: read as Rust where it is Rust, and as
/// plain text otherwise.
pub open spec fn with_source(p: ProfileV, source: Seq<char>) -> ProfileV {
    match syn_items(source) {
        Some(items) => {
            let fns = fns_upto(items, items.len());
            ProfileV {
                handlers: tags_of_fns(
                    handlers_of_fns(p.handlers, fns, fns.len()),
                    fns,
                    fns.len(),
                ),
                pdas: derivations_of_fns(p.pdas, fns, fns.len()),
                ..p
            }
        },
        None => {
            let bodies = handler_bodies(source);
            ProfileV {
                handlers: dispatched_in_text(
                    handlers_of_bodies(p.handlers, bodies, bodies.len()),
                    source,
                ),
                pdas: derivations_in_text(p.pdas, source),
                ..p
            }
        },
    }
}

impl PinocchioProofProfile {
    /// Takes over what a source says.
    pub fn read_source(&mut self, source: &str)
        ensures
            final(self)@ == with_source(old(self)@, source@),
    {
        match file_items(source) {
            Some(items) => {
                let fns = collect_item_fns(&items);
                read_fns(&mut self.handlers, &fns);
                infer_dispatch_tags_from_fns(&mut self.handlers, &fns);
                infer_pda_derivations_from_fns(&mut self.pda_derivations, &fns);
            },
            None => {
                read_bodies(&mut self.handlers, source);
                infer_dispatch_tags(source, &mut self.handlers);
                infer_pda_derivations(source, &mut self.pda_derivations);
            },
        }
    }
}

/// What the first `n` sources say.
pub open spec fn sources_upto(sources: Seq<Seq<char>>, n: nat) -> ProfileV
    decreases n,
{
    if n == 0 {
        empty_profile()
    } else {
        with_source(sources_upto(sources, (n - 1) as nat), sources[n - 1])
    }
}

/// A profile with what the first `n` schemas say; `None` where one of them
/// describes no schema.
pub open spec fn schemas_upto(p: ProfileV, schemas: Seq<Seq<char>>, n: nat) -> Option<ProfileV>
    decreases n,
{
    if n == 0 {
        Some(p)
    } else {
        match (schemas_upto(p, schemas, (n - 1) as nat), schema_of(schemas[n - 1])) {
            (Some(q), Some(s)) => Some(with_schema(q, s)),
            _ => None,
        }
    }
}

/// What the sources and the schemas of a crate say.
pub open spec fn crate_profile(sources: Seq<Seq<char>>, schemas: Seq<Seq<char>>) -> Option<ProfileV> {
    schemas_upto(sources_upto(sources, sources.len()), schemas, schemas.len())
}

/// Infers what the sources and the schemas of a crate say, each in its order.
/// There is no profile where a record of a schema is longer than a position can
/// point.
pub fn infer_single_src_dir(sources: &Vec<String>, schemas: &Vec<String>) -> (r: Option<
    PinocchioProofProfile,
>)
    ensures
        match r {
            Some(p) => crate_profile(texts(sources@), texts(schemas@)) == Some(p@),
            None => crate_profile(texts(sources@), texts(schemas@)) is None,
        },
{
    let mut profile = PinocchioProofProfile::empty();
    for i in 0..sources.len()
        invariant
            profile@ == sources_upto(texts(sources@), i as nat),
    {
        profile.read_source(&sources[i]);
    }
    let ghost start = profile@;
    for i in 0..schemas.len()
        invariant
            start == sources_upto(texts(sources@), sources@.len()),
            schemas_upto(start, texts(schemas@), i as nat) == Some(profile@),
    {
        match read_abi_schema(&schemas[i]) {
            Some(s) => {
                profile.merge_abi_schema(&s);
            },
            None => {
                proof {
                    lemma_no_schema(start, texts(schemas@), (i + 1) as nat, schemas@.len());
                }
                return None;
            },
        }
    }
    Some(profile)
}

proof fn lemma_no_schema(p: ProfileV, schemas: Seq<Seq<char>>, n: nat, m: nat)
    requires
        n <= m <= schemas.len(),
        schemas_upto(p, schemas, n) is None,
    ensures
        schemas_upto(p, schemas, m) is None,
    decreases m,
{
    if n < m {
        lemma_no_schema(p, schemas, n, (m - 1) as nat);
    }
}

/// Sources that say nothing that is understood give a profile all the same.
pub proof fn sources_always_give_a_profile(sources: Seq<Seq<char>>)
    ensures
        crate_profile(sources, Seq::empty()) == Some(sources_upto(sources, sources.len())),
{
}

// ---------------------------------------------------------------------------
// Directories
// ---------------------------------------------------------------------------

/// Directories, each with whether the crates beside it are looked at too.
pub open spec fn dir_views(v: Seq<(String, bool)>) -> Seq<(Seq<char>, bool)> {
    Seq::new(v.len(), |i: int| (v[i].0@, v[i].1))
}

/// The position of a directory from `from` on.
pub open spec fn dir_at(ds: Seq<(Seq<char>, bool)>, path: Seq<char>, from: int) -> Option<int>
    decreases ds.len() - from,
{
    if from < 0 || from >= ds.len() {
        None
    } else if ds[from].0 == path {
        Some(from)
    } else {
        dir_at(ds, path, from + 1)
    }
}

/// The directories with one more. One that is there already stays in its place,
/// and the crates beside it are looked at if either asks for it.
pub open spec fn with_dir(ds: Seq<(Seq<char>, bool)>, d: (Seq<char>, bool)) -> Seq<
    (Seq<char>, bool),
> {
    match dir_at(ds, d.0, 0) {
        Some(i) => ds.update(i, (ds[i].0, ds[i].1 || d.1)),
        None => ds.push(d),
    }
}

/// The first `n` directories, each once.
pub open spec fn distinct_dirs(ds: Seq<(Seq<char>, bool)>, n: nat) -> Seq<(Seq<char>, bool)>
    decreases n,
{
    if n == 0 {
        Seq::empty()
    } else {
        with_dir(distinct_dirs(ds, (n - 1) as nat), ds[n - 1])
    }
}

fn find_dir(ds: &Vec<(String, bool)>, path: &str) -> (r: Option<usize>)
    ensures
        match r {
            Some(i) => i < ds@.len() && dir_at(dir_views(ds@), path@, 0) == Some(i as int),
            None => dir_at(dir_views(ds@), path@, 0) is None,
        },
{
    let ghost all = dir_views(ds@);
    let mut i: usize = 0;
    while i < ds.len()
        invariant
            i <= ds@.len(),
            all == dir_views(ds@),
            dir_at(all, path@, 0) == dir_at(all, path@, i as int),
        decreases ds@.len() - i,
    {
        if same(&ds[i].0, path) {
            return Some(i);
        }
        i = i + 1;
    }
    None
}

/// The directories, each once.
pub fn merge_candidates(dirs: &Vec<(String, bool)>) -> (r: Vec<(String, bool)>)
    ensures
        dir_views(r@) == distinct_dirs(dir_views(dirs@), dirs@.len()),
{
    let ghost all = dir_views(dirs@);
    let mut out: Vec<(String, bool)> = Vec::new();
    proof {
        assert(dir_views(out@) =~= Seq::empty());
    }
    for i in 0..dirs.len()
        invariant
            all == dir_views(dirs@),
            dir_views(out@) == distinct_dirs(all, i as nat),
    {
        let ghost before = dir_views(out@);
        let (path, siblings) = (&dirs[i].0, dirs[i].1);
        match find_dir(&out, path) {
            Some(k) => {
                let both: bool = out[k].1 || siblings;
                out[k].1 = both;
                proof {
                    assert(dir_views(out@) =~= before.update(
                        k as int,
                        (before[k as int].0, before[k as int].1 || siblings),
                    ));
                }
            },
            None => {
                out.push((path.clone(), siblings));
                proof {
                    assert(dir_views(out@) =~= before.push((path@, siblings)));
                }
            },
        }
    }
    out
}

/// Where sources are looked for: in the output, and, with the crates beside
/// them, in the directories near the spec.
pub open spec fn context_dirs(output: Seq<char>, near: Seq<Seq<char>>) -> Seq<(Seq<char>, bool)> {
    seq![(output, false)] + near.map_values(|d: Seq<char>| (d, true))
}

/// Where sources are looked for, each directory once.
pub fn context_candidates(output: &str, near: &Vec<String>) -> (r: Vec<(String, bool)>)
    ensures
        dir_views(r@) == distinct_dirs(
            context_dirs(output@, texts(near@)),
            near@.len() + 1,
        ),
{
    let ghost all = context_dirs(output@, texts(near@));
    let mut dirs: Vec<(String, bool)> = Vec::new();
    dirs.push((output.to_owned(), false));
    for i in 0..near.len()
        invariant
            all == context_dirs(output@, texts(near@)),
            dirs@.len() == i + 1,
            forall|k: int|
                0 <= k < dirs@.len() ==> ((#[trigger] dirs@[k]).0@, dirs@[k].1) == all[k],
    {
        dirs.push((near[i].clone(), true));
    }
    proof {
        assert(dir_views(dirs@) =~= all);
    }
    merge_candidates(&dirs)
}

/// The first `n` profiles merged: what a later one says stands.
pub open spec fn merged_upto(ps: Seq<ProfileV>, n: nat) -> ProfileV
    decreases n,
{
    if n == 0 {
        empty_profile()
    } else {
        merged_profile(merged_upto(ps, (n - 1) as nat), ps[n - 1])
    }
}

/// Merges the profiles of directories: what a later one says stands.
pub fn infer_from_src_dirs(profiles: Vec<PinocchioProofProfile>) -> (r: PinocchioProofProfile)
    ensures
        r@ == merged_upto(
            profiles@.map_values(|p: PinocchioProofProfile| p@),
            profiles@.len(),
        ),
{
    let ghost all = profiles@.map_values(|p: PinocchioProofProfile| p@);
    let ghost given = profiles@;
    let mut rest = profiles;
    let mut merged = PinocchioProofProfile::empty();
    let mut i: usize = 0;
    let n: usize = rest.len();
    while i < n
        invariant
            i <= n,
            n == given.len(),
            all == given.map_values(|p: PinocchioProofProfile| p@),
            rest@ == given.subrange(i as int, n as int),
            merged@ == merged_upto(all, i as nat),
        decreases n - i,
    {
        let p = rest.remove(0);
        proof {
            assert(rest@ =~= given.subrange(i + 1, n as int));
            assert(p == given[i as int]);
        }
        merged.merge_profile(p);
        i = i + 1;
    }
    merged
}

// ---------------------------------------------------------------------------
// Files
// ---------------------------------------------------------------------------

/// What is done with an entry of a directory.
#[derive(Debug, Clone, Copy, PartialEq, Eq, Structural)]
pub enum Entry {
    Skip,
    Descend,
    Take,
}

/// The extension of a file: what follows the last dot, unless the name starts
/// with it.
pub open spec fn extension_of(name: Seq<char>) -> Option<Seq<char>> {
    match rsplit_once_text(name, '.') {
        Some((base, ext)) => if base.len() > 0 {
            Some(ext)
        } else {
            None
        },
        None => None,
    }
}

fn extension(name: &str) -> (r: Option<String>)
    ensures
        opt_text(r) == extension_of(name@),
{
    match rsplit_once(name, '.') {
        Some((base, ext)) => if base.as_str().is_empty() {
            None
        } else {
            Some(ext)
        },
        None => None,
    }
}

/// What is done with an entry of a source directory. Build outputs and what is
/// not part of the program are left out, and so is the generated harness.
pub open spec fn source_entry(name: Seq<char>, is_dir: bool) -> Entry {
    if name == "target"@ || name == ".git"@ || name == "node_modules"@ {
        Entry::Skip
    } else if is_dir {
        Entry::Descend
    } else if extension_of(name) == Some("rs"@) && name != "kani_impl.rs"@ {
        Entry::Take
    } else {
        Entry::Skip
    }
}

/// What is done with an entry of a source directory.
pub fn classify_entry(name: &str, is_dir: bool) -> (r: Entry)
    ensures
        r == source_entry(name@, is_dir),
{
    if same(name, "target") || same(name, ".git") || same(name, "node_modules") {
        return Entry::Skip;
    }
    if is_dir {
        return Entry::Descend;
    }
    match extension(name) {
        Some(ext) => if same(&ext, "rs") && !same(name, "kani_impl.rs") {
            Entry::Take
        } else {
            Entry::Skip
        },
        None => Entry::Skip,
    }
}

/// Whether a file holds a schema.
pub fn is_schema_file(name: &str) -> (r: bool)
    ensures
        r == (extension_of(name@) == Some("schema"@)),
{
    match extension(name) {
        Some(ext) => same(&ext, "schema"),
        None => false,
    }
}

} // verus!
