//! What the sources and the ABI schema of a Pinocchio program tell about it:
//! the tags of its instructions, the order and the roles of the accounts, the
//! numeric fields of the instruction data, and how addresses are derived.
use vstd::prelude::*;

use crate::names::{
    ascending, entries_map, lookup, lookup_with_entry, opt_map, overlay, text_lt,
    text_lt_irreflexive, with_entry, with_entry_after_without, with_entry_ascends, NameMap,
};
use crate::number::{parse_below, parse_usize};
use crate::search::opt_text;
use crate::split::{rsplit_once, rsplit_once_text};
use crate::text::texts;

pub mod abi;
pub mod blocks;
pub mod exprs;
pub mod fallback;
pub mod infer;
pub mod naming;
pub mod plain;
pub mod schema;
pub mod syntax;
pub mod walk;

verus! {

broadcast use {
    crate::names::group_entries,
    crate::text::group_text,
    crate::text::texts_index,
    crate::text::texts_len,
};

// ---------------------------------------------------------------------------
// Types
// ---------------------------------------------------------------------------

/// What is known of a program.
#[derive(Debug, PartialEq, Eq)]
pub struct PinocchioProofProfile {
    pub handlers: NameMap<PinocchioHandlerProfile>,
    pub pda_derivations: NameMap<PinocchioPdaDerivation>,
    pub record_layouts: NameMap<PinocchioRecordLayout>,
    /// The record that an account holds.
    pub account_layouts: NameMap<String>,
}

/// What is known of one instruction.
#[derive(Debug, PartialEq, Eq)]
pub struct PinocchioHandlerProfile {
    pub name: String,
    pub instruction_tag: Option<u8>,
    pub accounts: Vec<String>,
    pub account_roles: NameMap<PinocchioAccountRole>,
    pub token_account_bindings: NameMap<PinocchioTokenAccountBinding>,
    pub account_key_derivations: NameMap<PinocchioLocalKeyDerivation>,
    pub source_expr_aliases: NameMap<String>,
    pub params: Vec<PinocchioParamField>,
    pub repeats: Vec<PinocchioRepeatField>,
}

/// The mint and the owner of a token account.
#[derive(Debug, PartialEq, Eq)]
pub struct PinocchioTokenAccountBinding {
    pub mint_account: Option<String>,
    pub owner_account: Option<String>,
    pub owner_key_derivation: Option<PinocchioLocalKeyDerivation>,
}

/// A call that derives a key.
#[derive(Debug, PartialEq, Eq)]
pub struct PinocchioLocalKeyDerivation {
    pub derivation: String,
    pub args: Vec<String>,
}

/// What is known of an account in an instruction.
#[derive(Debug, PartialEq, Eq)]
pub struct PinocchioAccountRole {
    pub is_signer: Option<bool>,
    pub is_writable: Option<bool>,
    pub is_program: Option<bool>,
    pub account_type: Option<String>,
}

/// A field of the instruction data.
#[derive(Debug, PartialEq, Eq)]
pub struct PinocchioParamField {
    pub name: String,
    pub rust_type: String,
    pub start: usize,
    pub end: usize,
}

/// A repeated field of the instruction data.
#[derive(Debug, PartialEq, Eq)]
pub struct PinocchioRepeatField {
    pub name: String,
    pub count_field: String,
    pub offset: usize,
    pub item_len: usize,
    pub item_fields: Vec<PinocchioParamField>,
}

/// How an address of the program is derived.
#[derive(Debug, PartialEq, Eq)]
pub struct PinocchioPdaDerivation {
    pub name: String,
    pub params: Vec<String>,
    pub param_types: NameMap<String>,
    pub local_key_derivations: NameMap<PinocchioLocalKeyDerivation>,
    pub seeds: Vec<PinocchioPdaSeed>,
    pub program_id: String,
}

/// A seed of an address.
#[derive(Debug, PartialEq, Eq)]
pub struct PinocchioPdaSeed {
    pub expr: String,
    pub literal: Option<String>,
}

/// The layout of a record.
#[derive(Debug, PartialEq, Eq)]
pub struct PinocchioRecordLayout {
    pub name: String,
    pub len: usize,
    pub fields: Vec<PinocchioLayoutField>,
    pub repeats: Vec<PinocchioLayoutRepeat>,
}

/// A field of a record.
#[derive(Debug, PartialEq, Eq)]
pub struct PinocchioLayoutField {
    pub name: String,
    pub ty: String,
    pub offset: usize,
    pub len: usize,
    /// The bytes that the field always holds.
    pub fixed_bytes: Option<Vec<u8>>,
}

/// A repeated field of a record.
#[derive(Debug, PartialEq, Eq)]
pub struct PinocchioLayoutRepeat {
    pub name: String,
    pub ty: String,
    pub count_field: String,
    pub offset: usize,
    pub item_len: usize,
}

// ---------------------------------------------------------------------------
// Views
// ---------------------------------------------------------------------------

/// The entries of a map.
pub type Entries<V> = Seq<(Seq<char>, V)>;

pub struct RoleV {
    pub is_signer: Option<bool>,
    pub is_writable: Option<bool>,
    pub is_program: Option<bool>,
    pub account_type: Option<Seq<char>>,
}

pub struct DerivationV {
    pub derivation: Seq<char>,
    pub args: Seq<Seq<char>>,
}

pub struct BindingV {
    pub mint_account: Option<Seq<char>>,
    pub owner_account: Option<Seq<char>>,
    pub owner_key: Option<DerivationV>,
}

pub struct ParamV {
    pub name: Seq<char>,
    pub rust_type: Seq<char>,
    pub start: usize,
    pub end: usize,
}

pub struct RepeatV {
    pub name: Seq<char>,
    pub count_field: Seq<char>,
    pub offset: usize,
    pub item_len: usize,
    pub item_fields: Seq<ParamV>,
}

pub struct HandlerV {
    pub name: Seq<char>,
    pub tag: Option<u8>,
    pub accounts: Seq<Seq<char>>,
    pub roles: Entries<RoleV>,
    pub bindings: Entries<BindingV>,
    pub keys: Entries<DerivationV>,
    pub aliases: Entries<Seq<char>>,
    pub params: Seq<ParamV>,
    pub repeats: Seq<RepeatV>,
}

pub struct SeedV {
    pub expr: Seq<char>,
    pub literal: Option<Seq<char>>,
}

pub struct PdaV {
    pub name: Seq<char>,
    pub params: Seq<Seq<char>>,
    pub param_types: Entries<Seq<char>>,
    pub keys: Entries<DerivationV>,
    pub seeds: Seq<SeedV>,
    pub program_id: Seq<char>,
}

pub struct LayoutFieldV {
    pub name: Seq<char>,
    pub ty: Seq<char>,
    pub offset: usize,
    pub len: usize,
    pub fixed_bytes: Option<Seq<u8>>,
}

pub struct LayoutRepeatV {
    pub name: Seq<char>,
    pub ty: Seq<char>,
    pub count_field: Seq<char>,
    pub offset: usize,
    pub item_len: usize,
}

pub struct LayoutV {
    pub name: Seq<char>,
    pub len: usize,
    pub fields: Seq<LayoutFieldV>,
    pub repeats: Seq<LayoutRepeatV>,
}

pub struct ProfileV {
    pub handlers: Entries<HandlerV>,
    pub pdas: Entries<PdaV>,
    pub layouts: Entries<LayoutV>,
    pub account_layouts: Entries<Seq<char>>,
}

pub open spec fn string_fn() -> spec_fn(String) -> Seq<char> {
    |s: String| s@
}

pub open spec fn role_fn() -> spec_fn(PinocchioAccountRole) -> RoleV {
    |r: PinocchioAccountRole| r@
}

pub open spec fn derivation_fn() -> spec_fn(PinocchioLocalKeyDerivation) -> DerivationV {
    |d: PinocchioLocalKeyDerivation| d@
}

pub open spec fn binding_fn() -> spec_fn(PinocchioTokenAccountBinding) -> BindingV {
    |b: PinocchioTokenAccountBinding| b@
}

pub open spec fn handler_fn() -> spec_fn(PinocchioHandlerProfile) -> HandlerV {
    |h: PinocchioHandlerProfile| h@
}

pub open spec fn pda_fn() -> spec_fn(PinocchioPdaDerivation) -> PdaV {
    |d: PinocchioPdaDerivation| d@
}

pub open spec fn layout_fn() -> spec_fn(PinocchioRecordLayout) -> LayoutV {
    |l: PinocchioRecordLayout| l@
}

pub open spec fn param_views(v: Seq<PinocchioParamField>) -> Seq<ParamV> {
    Seq::new(v.len(), |i: int| v[i]@)
}

pub open spec fn repeat_views(v: Seq<PinocchioRepeatField>) -> Seq<RepeatV> {
    Seq::new(v.len(), |i: int| v[i]@)
}

pub open spec fn seed_views(v: Seq<PinocchioPdaSeed>) -> Seq<SeedV> {
    Seq::new(v.len(), |i: int| v[i]@)
}

pub open spec fn layout_field_views(v: Seq<PinocchioLayoutField>) -> Seq<LayoutFieldV> {
    Seq::new(v.len(), |i: int| v[i]@)
}

pub open spec fn layout_repeat_views(v: Seq<PinocchioLayoutRepeat>) -> Seq<LayoutRepeatV> {
    Seq::new(v.len(), |i: int| v[i]@)
}

impl View for PinocchioAccountRole {
    type V = RoleV;

    open spec fn view(&self) -> RoleV {
        RoleV {
            is_signer: self.is_signer,
            is_writable: self.is_writable,
            is_program: self.is_program,
            account_type: opt_text(self.account_type),
        }
    }
}

impl View for PinocchioLocalKeyDerivation {
    type V = DerivationV;

    open spec fn view(&self) -> DerivationV {
        DerivationV { derivation: self.derivation@, args: texts(self.args@) }
    }
}

impl View for PinocchioTokenAccountBinding {
    type V = BindingV;

    open spec fn view(&self) -> BindingV {
        BindingV {
            mint_account: opt_text(self.mint_account),
            owner_account: opt_text(self.owner_account),
            owner_key: opt_map(self.owner_key_derivation, derivation_fn()),
        }
    }
}

impl View for PinocchioParamField {
    type V = ParamV;

    open spec fn view(&self) -> ParamV {
        ParamV {
            name: self.name@,
            rust_type: self.rust_type@,
            start: self.start,
            end: self.end,
        }
    }
}

impl View for PinocchioRepeatField {
    type V = RepeatV;

    open spec fn view(&self) -> RepeatV {
        RepeatV {
            name: self.name@,
            count_field: self.count_field@,
            offset: self.offset,
            item_len: self.item_len,
            item_fields: param_views(self.item_fields@),
        }
    }
}

impl View for PinocchioHandlerProfile {
    type V = HandlerV;

    open spec fn view(&self) -> HandlerV {
        HandlerV {
            name: self.name@,
            tag: self.instruction_tag,
            accounts: texts(self.accounts@),
            roles: entries_map(self.account_roles@, role_fn()),
            bindings: entries_map(self.token_account_bindings@, binding_fn()),
            keys: entries_map(self.account_key_derivations@, derivation_fn()),
            aliases: entries_map(self.source_expr_aliases@, string_fn()),
            params: param_views(self.params@),
            repeats: repeat_views(self.repeats@),
        }
    }
}

impl View for PinocchioPdaSeed {
    type V = SeedV;

    open spec fn view(&self) -> SeedV {
        SeedV { expr: self.expr@, literal: opt_text(self.literal) }
    }
}

impl View for PinocchioPdaDerivation {
    type V = PdaV;

    open spec fn view(&self) -> PdaV {
        PdaV {
            name: self.name@,
            params: texts(self.params@),
            param_types: entries_map(self.param_types@, string_fn()),
            keys: entries_map(self.local_key_derivations@, derivation_fn()),
            seeds: seed_views(self.seeds@),
            program_id: self.program_id@,
        }
    }
}

impl View for PinocchioLayoutField {
    type V = LayoutFieldV;

    open spec fn view(&self) -> LayoutFieldV {
        LayoutFieldV {
            name: self.name@,
            ty: self.ty@,
            offset: self.offset,
            len: self.len,
            fixed_bytes: match self.fixed_bytes {
                Some(b) => Some(b@),
                None => None,
            },
        }
    }
}

impl View for PinocchioLayoutRepeat {
    type V = LayoutRepeatV;

    open spec fn view(&self) -> LayoutRepeatV {
        LayoutRepeatV {
            name: self.name@,
            ty: self.ty@,
            count_field: self.count_field@,
            offset: self.offset,
            item_len: self.item_len,
        }
    }
}

impl View for PinocchioRecordLayout {
    type V = LayoutV;

    open spec fn view(&self) -> LayoutV {
        LayoutV {
            name: self.name@,
            len: self.len,
            fields: layout_field_views(self.fields@),
            repeats: layout_repeat_views(self.repeats@),
        }
    }
}

impl View for PinocchioProofProfile {
    type V = ProfileV;

    open spec fn view(&self) -> ProfileV {
        ProfileV {
            handlers: entries_map(self.handlers@, handler_fn()),
            pdas: entries_map(self.pda_derivations@, pda_fn()),
            layouts: entries_map(self.record_layouts@, layout_fn()),
            account_layouts: entries_map(self.account_layouts@, string_fn()),
        }
    }
}

// ---------------------------------------------------------------------------
// Roles
// ---------------------------------------------------------------------------

/// Nothing known of an account.
pub open spec fn no_role() -> RoleV {
    RoleV { is_signer: None, is_writable: None, is_program: None, account_type: None }
}

/// What is known of an account from two sides: `b` where it says anything.
pub open spec fn merged_role(a: RoleV, b: RoleV) -> RoleV {
    RoleV {
        is_signer: if b.is_signer is Some {
            b.is_signer
        } else {
            a.is_signer
        },
        is_writable: if b.is_writable is Some {
            b.is_writable
        } else {
            a.is_writable
        },
        is_program: if b.is_program is Some {
            b.is_program
        } else {
            a.is_program
        },
        account_type: if b.account_type is Some {
            b.account_type
        } else {
            a.account_type
        },
    }
}

/// Merging with nothing changes nothing, merging twice is merging once, and it
/// does not matter which of two merges comes first.
pub proof fn roles_merge_as_overrides(a: RoleV, b: RoleV, c: RoleV)
    ensures
        merged_role(a, no_role()) == a,
        merged_role(no_role(), a) == a,
        merged_role(a, a) == a,
        merged_role(merged_role(a, b), b) == merged_role(a, b),
        merged_role(merged_role(a, b), c) == merged_role(a, merged_role(b, c)),
{
}

impl Default for PinocchioAccountRole {
    fn default() -> (r: Self)
        ensures
            r@ == no_role(),
    {
        PinocchioAccountRole {
            is_signer: None,
            is_writable: None,
            is_program: None,
            account_type: None,
        }
    }
}

impl PinocchioAccountRole {
    /// Whether nothing is known.
    pub fn is_empty(&self) -> (r: bool)
        ensures
            r == (self@ == no_role()),
    {
        self.is_signer.is_none() && self.is_writable.is_none() && self.is_program.is_none()
            && self.account_type.is_none()
    }

    /// Takes over what another role says.
    pub fn merge(&mut self, other: PinocchioAccountRole)
        ensures
            final(self)@ == merged_role(old(self)@, other@),
    {
        if other.is_signer.is_some() {
            self.is_signer = other.is_signer;
        }
        if other.is_writable.is_some() {
            self.is_writable = other.is_writable;
        }
        if other.is_program.is_some() {
            self.is_program = other.is_program;
        }
        if other.account_type.is_some() {
            self.account_type = other.account_type;
        }
    }
}

/// The value under a name, or `otherwise`.
pub open spec fn lookup_or<V>(es: Entries<V>, k: Seq<char>, otherwise: V) -> V {
    match lookup(es, k) {
        Some(v) => v,
        None => otherwise,
    }
}

/// With what `r` says of an account.
pub open spec fn with_role(es: Entries<RoleV>, k: Seq<char>, r: RoleV) -> Entries<RoleV> {
    with_entry(es, k, merged_role(lookup_or(es, k, no_role()), r))
}

/// Takes over what a role says of an account.
pub fn merge_role(
    roles: &mut NameMap<PinocchioAccountRole>,
    account: String,
    role: PinocchioAccountRole,
)
    ensures
        entries_map(final(roles)@, role_fn()) == with_role(
            entries_map(old(roles)@, role_fn()),
            account@,
            role@,
        ),
{
    let ghost es = roles@;
    let mut entry = match roles.remove(&account) {
        Some(r) => r,
        None => PinocchioAccountRole::default(),
    };
    entry.merge(role);
    proof {
        with_entry_after_without(es, account@, entry);
    }
    roles.insert(account, entry);
}

/// The roles of `es` with what `os` says of accounts.
pub open spec fn merged_roles(es: Entries<RoleV>, os: Entries<RoleV>) -> Entries<RoleV>
    decreases os.len(),
{
    if os.len() == 0 {
        es
    } else {
        merged_roles(with_role(es, os.last().0, os.last().1), os.drop_last())
    }
}

/// Takes over what other roles say.
pub fn merge_roles(
    roles: &mut NameMap<PinocchioAccountRole>,
    others: NameMap<PinocchioAccountRole>,
)
    ensures
        entries_map(final(roles)@, role_fn()) == merged_roles(
            entries_map(old(roles)@, role_fn()),
            entries_map(others@, role_fn()),
        ),
{
    let ghost start = entries_map(roles@, role_fn());
    let ghost all = entries_map(others@, role_fn());
    let mut rest = others;
    loop
        invariant
            merged_roles(
                entries_map(roles@, role_fn()),
                entries_map(rest@, role_fn()),
            ) == merged_roles(start, all),
        ensures
            entries_map(roles@, role_fn()) == merged_roles(start, all),
        decreases rest@.len(),
    {
        let ghost before = rest@;
        match rest.pop() {
            Some((k, v)) => {
                proof {
                    assert(entries_map(before, role_fn()).drop_last() =~= entries_map(
                        rest@,
                        role_fn(),
                    ));
                    assert(entries_map(before, role_fn()).last() == (k@, v@));
                }
                merge_role(roles, k, v);
            },
            None => {
                break ;
            },
        }
    }
}

// ---------------------------------------------------------------------------
// Handlers
// ---------------------------------------------------------------------------

/// Nothing known of a handler but its name.
pub open spec fn empty_handler(name: Seq<char>) -> HandlerV {
    HandlerV {
        name,
        tag: None,
        accounts: Seq::empty(),
        roles: Seq::empty(),
        bindings: Seq::empty(),
        keys: Seq::empty(),
        aliases: Seq::empty(),
        params: Seq::empty(),
        repeats: Seq::empty(),
    }
}

pub fn empty_handler_profile(name: String) -> (r: PinocchioHandlerProfile)
    ensures
        r@ == empty_handler(name@),
{
    let r = PinocchioHandlerProfile {
        name,
        instruction_tag: None,
        accounts: Vec::new(),
        account_roles: NameMap::new(),
        token_account_bindings: NameMap::new(),
        account_key_derivations: NameMap::new(),
        source_expr_aliases: NameMap::new(),
        params: Vec::new(),
        repeats: Vec::new(),
    };
    proof {
        assert(param_views(r.params@) =~= Seq::empty());
        assert(repeat_views(r.repeats@) =~= Seq::empty());
    }
    r
}

/// Takes out the handler under a name, or makes an empty one.
pub fn take_handler(handlers: &mut NameMap<PinocchioHandlerProfile>, name: &String) -> (r:
    PinocchioHandlerProfile)
    ensures
        r@ == lookup_or(entries_map(old(handlers)@, handler_fn()), name@, empty_handler(name@)),
        forall|h: PinocchioHandlerProfile|
            #[trigger] with_entry(final(handlers)@, name@, h) == with_entry(
                old(handlers)@,
                name@,
                h,
            ),
{
    let ghost es = handlers@;
    let r = handlers.remove(name);
    proof {
        assert forall|h: PinocchioHandlerProfile| #[trigger]
            with_entry(handlers@, name@, h) == with_entry(es, name@, h) by {
            with_entry_after_without(es, name@, h);
        }
    }
    match r {
        Some(h) => h,
        None => empty_handler_profile(name.clone()),
    }
}

/// What is known of a handler from two sides: `b` where it says anything.
pub open spec fn merged_handler(a: HandlerV, b: HandlerV) -> HandlerV {
    HandlerV {
        name: a.name,
        tag: if b.tag is Some {
            b.tag
        } else {
            a.tag
        },
        accounts: if b.accounts.len() > 0 {
            b.accounts
        } else {
            a.accounts
        },
        roles: merged_roles(a.roles, b.roles),
        bindings: overlay(a.bindings, b.bindings),
        keys: overlay(a.keys, b.keys),
        aliases: overlay(a.aliases, b.aliases),
        params: if b.params.len() > 0 || b.repeats.len() > 0 {
            b.params
        } else {
            a.params
        },
        repeats: if b.repeats.len() > 0 {
            b.repeats
        } else {
            a.repeats
        },
    }
}

fn merge_handler(entry: &mut PinocchioHandlerProfile, other: PinocchioHandlerProfile)
    ensures
        final(entry)@ == merged_handler(old(entry)@, other@),
{
    if other.instruction_tag.is_some() {
        entry.instruction_tag = other.instruction_tag;
    }
    if other.accounts.len() > 0 {
        entry.accounts = other.accounts;
    }
    merge_roles(&mut entry.account_roles, other.account_roles);
    entry.token_account_bindings.absorb(other.token_account_bindings);
    entry.account_key_derivations.absorb(other.account_key_derivations);
    entry.source_expr_aliases.absorb(other.source_expr_aliases);
    if other.params.len() > 0 || other.repeats.len() > 0 {
        entry.params = other.params;
    }
    if other.repeats.len() > 0 {
        entry.repeats = other.repeats;
    }
}

/// The handlers of `es` with what `os` says of handlers.
pub open spec fn merged_handlers(es: Entries<HandlerV>, os: Entries<HandlerV>) -> Entries<HandlerV>
    decreases os.len(),
{
    if os.len() == 0 {
        es
    } else {
        let (k, b) = os.last();
        merged_handlers(
            with_entry(es, k, merged_handler(lookup_or(es, k, empty_handler(k)), b)),
            os.drop_last(),
        )
    }
}

fn merge_handlers(
    handlers: &mut NameMap<PinocchioHandlerProfile>,
    others: NameMap<PinocchioHandlerProfile>,
)
    ensures
        entries_map(final(handlers)@, handler_fn()) == merged_handlers(
            entries_map(old(handlers)@, handler_fn()),
            entries_map(others@, handler_fn()),
        ),
{
    let ghost start = entries_map(handlers@, handler_fn());
    let ghost all = entries_map(others@, handler_fn());
    let mut rest = others;
    loop
        invariant
            merged_handlers(
                entries_map(handlers@, handler_fn()),
                entries_map(rest@, handler_fn()),
            ) == merged_handlers(start, all),
        ensures
            entries_map(handlers@, handler_fn()) == merged_handlers(start, all),
        decreases rest@.len(),
    {
        let ghost before = rest@;
        match rest.pop() {
            Some((k, v)) => {
                proof {
                    assert(entries_map(before, handler_fn()).drop_last() =~= entries_map(
                        rest@,
                        handler_fn(),
                    ));
                    assert(entries_map(before, handler_fn()).last() == (k@, v@));
                }
                let mut entry = take_handler(handlers, &k);
                merge_handler(&mut entry, v);
                handlers.insert(k, entry);
            },
            None => {
                break ;
            },
        }
    }
}

/// Under a name of both, the handlers are merged; under every other name they
/// are as they were.
pub proof fn lookup_merged_handlers(es: Entries<HandlerV>, os: Entries<HandlerV>, k: Seq<char>)
    requires
        ascending(es),
        ascending(os),
    ensures
        ascending(merged_handlers(es, os)),
        lookup(merged_handlers(es, os), k) == match lookup(os, k) {
            Some(b) => Some(merged_handler(lookup_or(es, k, empty_handler(k)), b)),
            None => lookup(es, k),
        },
    decreases os.len(),
{
    if os.len() > 0 {
        let front = os.drop_last();
        let (lk, lb) = os.last();
        let m = merged_handler(lookup_or(es, lk, empty_handler(lk)), lb);
        let next = with_entry(es, lk, m);
        assert(ascending(front));
        with_entry_ascends(es, lk, m);
        lookup_merged_handlers(next, front, k);
        lookup_with_entry(es, lk, m, k);
        if k == lk {
            lemma_not_in_front(os);
        }
    }
}

/// The last name of an ascending list stands in it once.
proof fn lemma_not_in_front<V>(es: Entries<V>)
    requires
        ascending(es),
        es.len() > 0,
    ensures
        lookup(es.drop_last(), es.last().0) is None,
{
    let k = es.last().0;
    assert forall|i: int| 0 <= i < es.len() - 1 implies (#[trigger] es[i]).0 != k by {
        assert(text_lt(es[i].0, es[es.len() - 1].0));
        text_lt_irreflexive(k);
    }
    lemma_absent(es.drop_last(), k);
}

proof fn lemma_absent<V>(es: Entries<V>, k: Seq<char>)
    requires
        forall|i: int| 0 <= i < es.len() ==> (#[trigger] es[i]).0 != k,
    ensures
        lookup(es, k) is None,
    decreases es.len(),
{
    if es.len() > 0 {
        assert(es[es.len() - 1].0 != k);
        lemma_absent(es.drop_last(), k);
    }
}

// ---------------------------------------------------------------------------
// Profiles
// ---------------------------------------------------------------------------

/// Nothing known.
pub open spec fn empty_profile() -> ProfileV {
    ProfileV {
        handlers: Seq::empty(),
        pdas: Seq::empty(),
        layouts: Seq::empty(),
        account_layouts: Seq::empty(),
    }
}

/// What is known from two sides: `b` where it says anything.
pub open spec fn merged_profile(a: ProfileV, b: ProfileV) -> ProfileV {
    ProfileV {
        handlers: merged_handlers(a.handlers, b.handlers),
        pdas: overlay(a.pdas, b.pdas),
        layouts: overlay(a.layouts, b.layouts),
        account_layouts: overlay(a.account_layouts, b.account_layouts),
    }
}

/// The handler for a name: with a number at its end, the handler under the
/// name without it, where there is one; or else the handler under the name.
pub open spec fn handler_for(hs: Entries<HandlerV>, name: Seq<char>) -> Option<HandlerV> {
    match rsplit_once_text(name, '_') {
        Some((base, suffix)) => if parse_below(suffix, usize::MAX as nat) is Some && lookup(
            hs,
            base,
        ) is Some {
            lookup(hs, base)
        } else {
            lookup(hs, name)
        },
        None => lookup(hs, name),
    }
}

impl PinocchioProofProfile {
    /// A profile that knows nothing.
    pub fn empty() -> (r: Self)
        ensures
            r@ == empty_profile(),
    {
        PinocchioProofProfile {
            handlers: NameMap::new(),
            pda_derivations: NameMap::new(),
            record_layouts: NameMap::new(),
            account_layouts: NameMap::new(),
        }
    }

    /// The handler for a name.
    pub fn handler(&self, name: &str) -> (r: Option<&PinocchioHandlerProfile>)
        ensures
            match r {
                Some(h) => handler_for(self@.handlers, name@) == Some(h@),
                None => handler_for(self@.handlers, name@) is None,
            },
    {
        match rsplit_once(name, '_') {
            Some((base, suffix)) => {
                if parse_usize(&suffix).is_some() {
                    match self.handlers.get(&base) {
                        Some(h) => {
                            return Some(h);
                        },
                        None => {},
                    }
                }
            },
            None => {},
        }
        self.handlers.get(name)
    }

    /// Takes over what another profile says.
    pub fn merge_profile(&mut self, other: PinocchioProofProfile)
        ensures
            final(self)@ == merged_profile(old(self)@, other@),
    {
        merge_handlers(&mut self.handlers, other.handlers);
        self.pda_derivations.absorb(other.pda_derivations);
        self.record_layouts.absorb(other.record_layouts);
        self.account_layouts.absorb(other.account_layouts);
    }
}

/// A profile that is merged later wins: under every name, its derivation,
/// layout or account stands where it has one, and its tag where it has one.
pub proof fn later_profile_wins(a: ProfileV, b: ProfileV, k: Seq<char>)
    requires
        ascending(a.handlers),
        ascending(b.handlers),
        ascending(a.pdas),
        ascending(b.pdas),
        ascending(a.layouts),
        ascending(b.layouts),
        ascending(a.account_layouts),
        ascending(b.account_layouts),
    ensures
        lookup(b.pdas, k) is Some ==> lookup(merged_profile(a, b).pdas, k) == lookup(b.pdas, k),
        lookup(b.layouts, k) is Some ==> lookup(merged_profile(a, b).layouts, k) == lookup(
            b.layouts,
            k,
        ),
        lookup(b.account_layouts, k) is Some ==> lookup(merged_profile(a, b).account_layouts, k)
            == lookup(b.account_layouts, k),
        match lookup(b.handlers, k) {
            Some(h) => h.tag is Some ==> (lookup(merged_profile(a, b).handlers, k)->0).tag == h.tag,
            None => lookup(merged_profile(a, b).handlers, k) == lookup(a.handlers, k),
        },
{
    lookup_merged_handlers(a.handlers, b.handlers, k);
    crate::names::lookup_overlay(a.pdas, b.pdas, k);
    crate::names::lookup_overlay(a.layouts, b.layouts, k);
    crate::names::lookup_overlay(a.account_layouts, b.account_layouts, k);
}

} // verus!
