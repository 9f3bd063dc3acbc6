//! What an ABI schema adds to a profile.
use vstd::prelude::*;
use vstd::utf8::encode_utf8;

use crate::names::{
    ascending, entries_map, lookup, text_lt, text_lt_irreflexive, with_entry,
    with_entry_after_without, NameMap,
};
use crate::pinocchio_profile::naming::{
    abi_field_rust_type, normalize_schema_name, param_type, schema_name,
};
use crate::pinocchio_profile::schema::{
    indexed_views, record_fits, record_fn, records_fit, schema_fits, AbiField, AbiRecord,
    AbiRepeatV, FieldV, IndexedName, IndexedV, PinocchioAbiSchema, RecordV, SchemaV,
};
use crate::pinocchio_profile::{
    empty_handler, layout_field_views, layout_repeat_views, lookup_or, merge_role, no_role,
    param_views, pda_fn, repeat_views, seed_views, string_fn, take_handler, with_role, Entries,
    HandlerV, LayoutFieldV, LayoutRepeatV, LayoutV, ParamV, PdaV, PinocchioAccountRole,
    PinocchioHandlerProfile, PinocchioLayoutField, PinocchioLayoutRepeat, PinocchioParamField,
    PinocchioPdaDerivation, PinocchioPdaSeed, PinocchioProofProfile, PinocchioRecordLayout,
    PinocchioRepeatField, ProfileV, RepeatV, RoleV, SeedV,
};
use crate::search::{
    ends_with, ends_with_text, starts_with, starts_with_text, strip_suffix, without_suffix,
};
use crate::text::{ascii_lower, ascii_upper, same, texts, to_ascii_lower, to_ascii_upper};

verus! {

broadcast use {
    crate::names::group_entries,
    crate::text::group_text,
    crate::text::texts_index,
    crate::text::texts_len,
};

// ---------------------------------------------------------------------------
// Seeds
// ---------------------------------------------------------------------------

/// The literals of the first `n` seeds, under the name as it stands, and in
/// upper and lower case with single underscores.
pub open spec fn literals_upto(seeds: Entries<Seq<char>>, n: nat) -> Entries<Seq<char>>
    decreases n,
{
    if n == 0 {
        Seq::empty()
    } else {
        let before = literals_upto(seeds, (n - 1) as nat);
        let (name, literal) = seeds[n - 1];
        with_entry(
            with_entry(
                with_entry(before, name, literal),
                ascii_upper(schema_name(name)),
                literal,
            ),
            schema_name(name),
            literal,
        )
    }
}

impl PinocchioAbiSchema {
    /// The literals of the seeds, under the names that sources use for them.
    pub fn seed_literals(&self) -> (r: NameMap<String>)
        ensures
            entries_map(r@, string_fn()) == literals_upto(self@.seeds, self@.seeds.len()),
    {
        let mut out: NameMap<String> = NameMap::new();
        let n: usize = self.seeds.len();
        for i in 0..n
            invariant
                n == self.seeds@.len(),
                entries_map(out@, string_fn()) == literals_upto(self@.seeds, i as nat),
        {
            let name = self.seeds.key(i);
            let literal = self.seeds.value(i);
            let lower = normalize_schema_name(name);
            out.insert(name.clone(), literal.clone());
            out.insert(to_ascii_upper(&lower), literal.clone());
            out.insert(lower, literal.clone());
        }
        out
    }

    /// The record that each account holds: as the schema says, or else the
    /// record that is named after the account.
    pub fn account_layouts(&self) -> (r: NameMap<String>)
        ensures
            entries_map(r@, string_fn()) == layouts_of(self@),
    {
        let mut out: NameMap<String> = NameMap::new();
        let n: usize = self.account_records.len();
        for i in 0..n
            invariant
                n == self.account_records@.len(),
                entries_map(out@, string_fn()) == declared_upto(self@.account_records, i as nat),
        {
            out.insert(
                normalize_schema_name(self.account_records.key(i)),
                self.account_records.value(i).clone(),
            );
        }
        let m: usize = self.records.len();
        for i in 0..m
            invariant
                n == self.account_records@.len(),
                m == self.records@.len(),
                entries_map(out@, string_fn()) == named_upto(
                    declared_upto(self@.account_records, n as nat),
                    self@.records,
                    i as nat,
                ),
        {
            let name = normalize_schema_name(self.records.key(i));
            match strip_suffix(&name, "_account") {
                Some(account) => {
                    if !out.has(&account) {
                        out.insert(account, self.records.key(i).clone());
                    }
                },
                None => {},
            }
        }
        out
    }
}

/// The records that the schema gives to the first `n` accounts.
pub open spec fn declared_upto(rs: Entries<Seq<char>>, n: nat) -> Entries<Seq<char>>
    decreases n,
{
    if n == 0 {
        Seq::empty()
    } else {
        with_entry(declared_upto(rs, (n - 1) as nat), schema_name(rs[n - 1].0), rs[n - 1].1)
    }
}

/// With those of the first `n` records that are named after an account without
/// one.
pub open spec fn named_upto(acc: Entries<Seq<char>>, rs: Entries<RecordV>, n: nat) -> Entries<
    Seq<char>,
>
    decreases n,
{
    if n == 0 {
        acc
    } else {
        let before = named_upto(acc, rs, (n - 1) as nat);
        match without_suffix(schema_name(rs[n - 1].0), "_account"@) {
            Some(account) => if lookup(before, account) is Some {
                before
            } else {
                with_entry(before, account, rs[n - 1].0)
            },
            None => before,
        }
    }
}

/// The record that each account holds.
pub open spec fn layouts_of(s: SchemaV) -> Entries<Seq<char>> {
    named_upto(
        declared_upto(s.account_records, s.account_records.len()),
        s.records,
        s.records.len(),
    )
}

/// A seed with its literal, where it has none and one is known.
pub open spec fn with_literal(seed: SeedV, lits: Entries<Seq<char>>) -> SeedV {
    if seed.literal is None {
        SeedV { literal: lookup(lits, seed.expr), ..seed }
    } else {
        seed
    }
}

/// A derivation with the literals of its seeds.
pub open spec fn with_literals(d: PdaV, lits: Entries<Seq<char>>) -> PdaV {
    PdaV { seeds: d.seeds.map_values(|s: SeedV| with_literal(s, lits)), ..d }
}

/// All derivations with the literals of their seeds.
pub open spec fn all_with_literals(ds: Entries<PdaV>, lits: Entries<Seq<char>>) -> Entries<PdaV> {
    Seq::new(ds.len(), |i: int| (ds[i].0, with_literals(ds[i].1, lits)))
}

fn set_literals(d: &mut PinocchioPdaDerivation, lits: &NameMap<String>)
    ensures
        final(d)@ == with_literals(old(d)@, entries_map(lits@, string_fn())),
{
    let ghost ls = entries_map(lits@, string_fn());
    let ghost start = seed_views(d.seeds@);
    let mut seeds: Vec<PinocchioPdaSeed> = Vec::new();
    std::mem::swap(&mut seeds, &mut d.seeds);
    let mut i: usize = 0;
    while i < seeds.len()
        invariant
            ls == entries_map(lits@, string_fn()),
            i <= seeds@.len(),
            seeds@.len() == start.len(),
            forall|k: int| 0 <= k < i ==> (#[trigger] seeds@[k])@ == with_literal(start[k], ls),
            forall|k: int| i <= k < seeds@.len() ==> (#[trigger] seeds@[k])@ == start[k],
        decreases seeds@.len() - i,
    {
        if seeds[i].literal.is_none() {
            let literal = match lits.get(&seeds[i].expr) {
                Some(t) => Some(t.clone()),
                None => None,
            };
            seeds[i].literal = literal;
        }
        i = i + 1;
    }
    proof {
        assert(seed_views(seeds@) =~= start.map_values(|s: SeedV| with_literal(s, ls)));
    }
    d.seeds = seeds;
}

/// Setting the entry at a position changes its value alone.
proof fn lemma_with_entry_at<V>(es: Entries<V>, i: int, v: V)
    requires
        ascending(es),
        0 <= i < es.len(),
    ensures
        with_entry(es, es[i].0, v) == es.update(i, (es[i].0, v)),
        lookup(es, es[i].0) == Some(es[i].1),
    decreases es.len(),
{
    let k = es[i].0;
    let front = es.drop_last();
    text_lt_irreflexive(k);
    if i == es.len() - 1 {
        assert(with_entry(es, k, v) =~= es.update(i, (k, v)));
    } else {
        assert(text_lt(es[i].0, es[es.len() - 1].0));
        assert(ascending(front));
        assert(front[i] == es[i]);
        lemma_with_entry_at(front, i, v);
        assert(front.update(i, (k, v)).push(es.last()) =~= es.update(i, (k, v)));
    }
}

fn set_all_literals(ds: &mut NameMap<PinocchioPdaDerivation>, lits: &NameMap<String>)
    ensures
        entries_map(final(ds)@, pda_fn()) == all_with_literals(
            entries_map(old(ds)@, pda_fn()),
            entries_map(lits@, string_fn()),
        ),
{
    let ghost ls = entries_map(lits@, string_fn());
    let ghost start = ds@;
    let n: usize = ds.len();
    let mut i: usize = 0;
    while i < n
        invariant
            ls == entries_map(lits@, string_fn()),
            i <= n,
            n == ds@.len(),
            n == start.len(),
            ascending(ds@),
            forall|k: int|
                0 <= k < i ==> (#[trigger] ds@[k]).0 == start[k].0 && ds@[k].1@ == with_literals(
                    start[k].1@,
                    ls,
                ),
            forall|k: int| i <= k < n ==> #[trigger] ds@[k] == start[k],
        decreases n - i,
    {
        let ghost before = ds@;
        let name = ds.key(i).clone();
        proof {
            lemma_with_entry_at(before, i as int, before[i as int].1);
        }
        match ds.remove(&name) {
            Some(d) => {
                let mut d = d;
                set_literals(&mut d, lits);
                proof {
                    with_entry_after_without(before, name@, d);
                    lemma_with_entry_at(before, i as int, d);
                }
                ds.insert(name, d);
            },
            None => {},
        }
        i = i + 1;
    }
    proof {
        assert(entries_map(ds@, pda_fn()) =~= all_with_literals(
            entries_map(start, pda_fn()),
            ls,
        ));
    }
}

// ---------------------------------------------------------------------------
// Layouts
// ---------------------------------------------------------------------------

/// A magic that is meant for a field: it has the field's name, or ends with it.
pub open spec fn is_magic_for(magic: Seq<char>, field: Seq<char>) -> bool {
    let m = schema_name(magic);
    let f = schema_name(field);
    m == f || ends_with_text(m, "_"@ + f)
}

/// The bytes of those of the first `n` magics that are meant for a field and
/// have its length.
pub open spec fn magic_bytes_upto(magics: Entries<Seq<char>>, f: FieldV, n: nat) -> Seq<Seq<u8>>
    decreases n,
{
    if n == 0 {
        Seq::empty()
    } else {
        let before = magic_bytes_upto(magics, f, (n - 1) as nat);
        let bytes = encode_utf8(magics[n - 1].1);
        if is_magic_for(magics[n - 1].0, f.name) && bytes.len() == f.len {
            before.push(bytes)
        } else {
            before
        }
    }
}

/// The bytes that a field always holds: those of its magic, where it is a field
/// of bytes and there is just one.
pub open spec fn fixed_bytes_of(f: FieldV, magics: Entries<Seq<char>>) -> Option<Seq<u8>> {
    let found = magic_bytes_upto(magics, f, magics.len());
    if starts_with_text(ascii_lower(f.ty), "bytes"@) && found.len() == 1 {
        Some(found[0])
    } else {
        None
    }
}

fn bytes_of(s: &str) -> (r: Vec<u8>)
    ensures
        r@ == encode_utf8(s@),
{
    let b = s.as_bytes();
    let mut out: Vec<u8> = Vec::new();
    for i in 0..b.len()
        invariant
            out@ == b@.take(i as int),
    {
        out.push(b[i]);
        proof {
            assert(b@.take(i + 1) =~= b@.take(i as int).push(b@[i as int]));
        }
    }
    proof {
        assert(b@.take(b@.len() as int) =~= b@);
    }
    out
}

/// The bytes that a field always holds.
pub fn fixed_field_bytes(field: &AbiField, magics: &NameMap<String>) -> (r: Option<Vec<u8>>)
    ensures
        match r {
            Some(b) => fixed_bytes_of(field@, entries_map(magics@, string_fn())) == Some(b@),
            None => fixed_bytes_of(field@, entries_map(magics@, string_fn())) is None,
        },
{
    if !starts_with(&to_ascii_lower(&field.ty), "bytes") {
        return None;
    }
    let ghost ms = entries_map(magics@, string_fn());
    let field_name = normalize_schema_name(&field.name);
    let mut tail = "_".to_owned();
    tail.push_str(&field_name);
    let mut first: Vec<u8> = Vec::new();
    let mut found: usize = 0;
    let n: usize = magics.len();
    for i in 0..n
        invariant
            n == magics@.len(),
            ms == entries_map(magics@, string_fn()),
            field_name@ == schema_name(field.name@),
            tail@ == "_"@ + field_name@,
            found <= i,
            found == magic_bytes_upto(ms, field@, i as nat).len(),
            found > 0 ==> first@ == magic_bytes_upto(ms, field@, i as nat)[0],
    {
        let magic_name = normalize_schema_name(magics.key(i));
        if same(&magic_name, &field_name) || ends_with(&magic_name, &tail) {
            let bytes = bytes_of(magics.value(i));
            if bytes.len() == field.len {
                if found == 0 {
                    first = bytes;
                }
                found = found + 1;
            }
        }
    }
    if found == 1 {
        Some(first)
    } else {
        None
    }
}

pub open spec fn layout_field(f: FieldV, magics: Entries<Seq<char>>) -> LayoutFieldV {
    LayoutFieldV {
        name: schema_name(f.name),
        ty: f.ty,
        offset: f.offset,
        len: f.len,
        fixed_bytes: fixed_bytes_of(f, magics),
    }
}

pub open spec fn layout_repeat(r: AbiRepeatV) -> LayoutRepeatV {
    LayoutRepeatV {
        name: schema_name(r.name),
        ty: schema_name(r.ty),
        count_field: schema_name(r.count_field),
        offset: r.offset,
        item_len: r.item_len,
    }
}

/// The layout of a record.
pub open spec fn layout_of(name: Seq<char>, r: RecordV, magics: Entries<Seq<char>>) -> LayoutV {
    LayoutV {
        name: schema_name(name),
        len: r.len,
        fields: r.fields.map_values(|f: FieldV| layout_field(f, magics)),
        repeats: r.repeats.map_values(|p: AbiRepeatV| layout_repeat(p)),
    }
}

impl AbiRecord {
    /// The layout of the record.
    pub fn to_profile_layout(&self, name: &str, magics: &NameMap<String>) -> (r:
        PinocchioRecordLayout)
        ensures
            r@ == layout_of(name@, self@, entries_map(magics@, string_fn())),
    {
        let ghost ms = entries_map(magics@, string_fn());
        let ghost want = layout_of(name@, self@, ms);
        let mut fields: Vec<PinocchioLayoutField> = Vec::new();
        for i in 0..self.fields.len()
            invariant
                ms == entries_map(magics@, string_fn()),
                want == layout_of(name@, self@, ms),
                fields@.len() == i,
                forall|k: int| 0 <= k < i ==> (#[trigger] fields@[k])@ == want.fields[k],
        {
            let f = &self.fields[i];
            let x = PinocchioLayoutField {
                name: normalize_schema_name(&f.name),
                ty: f.ty.clone(),
                offset: f.offset,
                len: f.len,
                fixed_bytes: fixed_field_bytes(f, magics),
            };
            proof {
                assert(want.fields[i as int] == layout_field(f@, ms));
                assert(x@ == want.fields[i as int]);
            }
            fields.push(x);
        }
        let mut repeats: Vec<PinocchioLayoutRepeat> = Vec::new();
        for i in 0..self.repeats.len()
            invariant
                want == layout_of(name@, self@, ms),
                repeats@.len() == i,
                forall|k: int| 0 <= k < i ==> (#[trigger] repeats@[k])@ == want.repeats[k],
        {
            let p = &self.repeats[i];
            let x = PinocchioLayoutRepeat {
                name: normalize_schema_name(&p.name),
                ty: normalize_schema_name(&p.ty),
                count_field: normalize_schema_name(&p.count_field),
                offset: p.offset,
                item_len: p.item_len,
            };
            proof {
                assert(want.repeats[i as int] == layout_repeat(p@));
                assert(x@ == want.repeats[i as int]);
            }
            repeats.push(x);
        }
        proof {
            assert(layout_field_views(fields@) =~= want.fields);
            assert(layout_repeat_views(repeats@) =~= want.repeats);
        }
        PinocchioRecordLayout {
            name: normalize_schema_name(name),
            len: self.len,
            fields,
            repeats,
        }
    }
}

// ---------------------------------------------------------------------------
// Instructions
// ---------------------------------------------------------------------------

/// A field as a parameter, where its type is one of a parameter.
pub open spec fn param_of(f: FieldV) -> Option<ParamV> {
    match param_type(f.ty) {
        Some(t) => Some(
            ParamV {
                name: schema_name(f.name),
                rust_type: t,
                start: f.offset,
                end: (f.offset + f.len) as usize,
            },
        ),
        None => None,
    }
}

/// A field as a parameter.
pub fn abi_field_to_profile_param(field: &AbiField) -> (r: Option<PinocchioParamField>)
    requires
        field.offset + field.len <= usize::MAX,
    ensures
        match r {
            Some(p) => param_of(field@) == Some(p@),
            None => param_of(field@) is None,
        },
{
    match abi_field_rust_type(&field.ty) {
        Some(t) => Some(
            PinocchioParamField {
                name: normalize_schema_name(&field.name),
                rust_type: t,
                start: field.offset,
                end: field.offset + field.len,
            },
        ),
        None => None,
    }
}

/// Whether a field counts how often another is repeated.
pub open spec fn is_count(rs: Seq<AbiRepeatV>, name: Seq<char>) -> bool {
    exists|i: int| 0 <= i < rs.len() && (#[trigger] rs[i]).count_field == name
}

/// The first `n` fields as parameters: those that have the type of one, and do
/// not count the repeats in `rs`.
pub open spec fn params_upto(fs: Seq<FieldV>, rs: Seq<AbiRepeatV>, n: nat) -> Seq<ParamV>
    decreases n,
{
    if n == 0 {
        Seq::empty()
    } else {
        let before = params_upto(fs, rs, (n - 1) as nat);
        if is_count(rs, fs[n - 1].name) {
            before
        } else {
            match param_of(fs[n - 1]) {
                Some(p) => before.push(p),
                None => before,
            }
        }
    }
}

fn counts(record: &AbiRecord, name: &str) -> (r: bool)
    ensures
        r == is_count(record@.repeats, name@),
{
    for i in 0..record.repeats.len()
        invariant
            forall|k: int| 0 <= k < i ==> (#[trigger] record@.repeats[k]).count_field != name@,
    {
        if same(&record.repeats[i].count_field, name) {
            proof {
                assert(record@.repeats[i as int].count_field == name@);
            }
            return true;
        }
    }
    false
}

fn record_params(record: &AbiRecord, skip_counts: bool) -> (r: Vec<PinocchioParamField>)
    requires
        record_fits(record@),
    ensures
        param_views(r@) == params_upto(
            record@.fields,
            if skip_counts {
                record@.repeats
            } else {
                Seq::empty()
            },
            record@.fields.len(),
        ),
{
    let ghost rs = if skip_counts {
        record@.repeats
    } else {
        Seq::empty()
    };
    let mut out: Vec<PinocchioParamField> = Vec::new();
    proof {
        assert(param_views(out@) =~= Seq::empty());
    }
    for i in 0..record.fields.len()
        invariant
            record_fits(record@),
            rs == if skip_counts {
                record@.repeats
            } else {
                Seq::empty()
            },
            param_views(out@) == params_upto(record@.fields, rs, i as nat),
    {
        let f = &record.fields[i];
        proof {
            assert(record@.fields[i as int] == f@);
            assert(record@.fields[i as int].offset + record@.fields[i as int].len <= record.len);
        }
        if !(skip_counts && counts(record, &f.name)) {
            match abi_field_to_profile_param(f) {
                Some(p) => {
                    proof {
                        assert(param_views(out@.push(p)) =~= param_views(out@).push(p@));
                    }
                    out.push(p);
                },
                None => {},
            }
        }
    }
    out
}

/// A repeated field of the instruction data: its record is known and has
/// parameters.
pub open spec fn repeat_of(r: AbiRepeatV, records: Entries<RecordV>) -> Option<RepeatV> {
    match lookup(records, ascii_upper(r.ty)) {
        Some(item) => {
            let fields = params_upto(item.fields, Seq::empty(), item.fields.len());
            if fields.len() == 0 {
                None
            } else {
                Some(
                    RepeatV {
                        name: schema_name(r.name),
                        count_field: schema_name(r.count_field),
                        offset: r.offset,
                        item_len: r.item_len,
                        item_fields: fields,
                    },
                )
            }
        },
        None => None,
    }
}

pub open spec fn repeats_upto(rs: Seq<AbiRepeatV>, records: Entries<RecordV>, n: nat) -> Seq<RepeatV>
    decreases n,
{
    if n == 0 {
        Seq::empty()
    } else {
        let before = repeats_upto(rs, records, (n - 1) as nat);
        match repeat_of(rs[n - 1], records) {
            Some(r) => before.push(r),
            None => before,
        }
    }
}

proof fn lemma_found_fits(records: Entries<RecordV>, k: Seq<char>)
    requires
        records_fit(records),
    ensures
        match lookup(records, k) {
            Some(r) => record_fits(r),
            None => true,
        },
    decreases records.len(),
{
    if records.len() > 0 {
        assert(record_fits(records[records.len() - 1].1));
        assert(records_fit(records.drop_last()));
        lemma_found_fits(records.drop_last(), k);
    }
}

fn record_repeats(record: &AbiRecord, records: &NameMap<AbiRecord>) -> (r: Vec<
    PinocchioRepeatField,
>)
    requires
        records_fit(entries_map(records@, record_fn())),
    ensures
        repeat_views(r@) == repeats_upto(
            record@.repeats,
            entries_map(records@, record_fn()),
            record@.repeats.len(),
        ),
{
    let ghost rs = entries_map(records@, record_fn());
    let mut out: Vec<PinocchioRepeatField> = Vec::new();
    proof {
        assert(repeat_views(out@) =~= Seq::empty());
    }
    for i in 0..record.repeats.len()
        invariant
            rs == entries_map(records@, record_fn()),
            records_fit(rs),
            repeat_views(out@) == repeats_upto(record@.repeats, rs, i as nat),
    {
        let p = &record.repeats[i];
        proof {
            assert(record@.repeats[i as int] == p@);
            lemma_found_fits(rs, ascii_upper(p.ty@));
        }
        match records.get(&to_ascii_upper(&p.ty)) {
            Some(item) => {
                let item_fields = record_params(item, false);
                if item_fields.len() > 0 {
                    let f = PinocchioRepeatField {
                        name: normalize_schema_name(&p.name),
                        count_field: normalize_schema_name(&p.count_field),
                        offset: p.offset,
                        item_len: p.item_len,
                        item_fields,
                    };
                    proof {
                        assert(repeat_views(out@.push(f)) =~= repeat_views(out@).push(f@));
                    }
                    out.push(f);
                }
            },
            None => {},
        }
    }
    out
}

/// The roles with what the schema says of the first `n` accounts.
pub open spec fn roles_upto(acc: Entries<RoleV>, xs: Seq<IndexedV>, n: nat) -> Entries<RoleV>
    decreases n,
{
    if n == 0 {
        acc
    } else {
        let before = roles_upto(acc, xs, (n - 1) as nat);
        if xs[n - 1].role == no_role() {
            before
        } else {
            with_role(before, schema_name(xs[n - 1].name), xs[n - 1].role)
        }
    }
}

pub open spec fn account_names(xs: Seq<IndexedV>) -> Seq<Seq<char>> {
    xs.map_values(|x: IndexedV| schema_name(x.name))
}

/// A handler with the accounts of an instruction.
pub open spec fn with_accounts(h: HandlerV, accounts: Option<Seq<IndexedV>>) -> HandlerV {
    match accounts {
        Some(xs) => HandlerV {
            accounts: account_names(xs),
            roles: roles_upto(h.roles, xs, xs.len()),
            ..h
        },
        None => h,
    }
}

/// A handler with the record of an instruction.
pub open spec fn with_record(h: HandlerV, s: SchemaV, instruction: Seq<char>) -> HandlerV {
    match lookup(s.instruction_records, instruction) {
        Some(name) => match lookup(s.records, name) {
            Some(r) => HandlerV {
                params: params_upto(r.fields, r.repeats, r.fields.len()),
                repeats: repeats_upto(r.repeats, s.records, r.repeats.len()),
                ..h
            },
            None => h,
        },
        None => h,
    }
}

/// A handler with what the schema says of its instruction.
pub open spec fn with_instruction(h: HandlerV, s: SchemaV, instruction: Seq<char>, tag: u8) -> HandlerV {
    with_record(
        with_accounts(HandlerV { tag: Some(tag), ..h }, lookup(s.accounts, instruction)),
        s,
        instruction,
    )
}

/// The handlers with what the schema says of the first `n` instructions.
pub open spec fn instructions_upto(hs: Entries<HandlerV>, s: SchemaV, n: nat) -> Entries<HandlerV>
    decreases n,
{
    if n == 0 {
        hs
    } else {
        let before = instructions_upto(hs, s, (n - 1) as nat);
        let (instruction, tag) = s.instructions[n - 1];
        let name = schema_name(instruction);
        with_entry(
            before,
            name,
            with_instruction(lookup_or(before, name, empty_handler(name)), s, instruction, tag),
        )
    }
}

fn copy_role(r: &PinocchioAccountRole) -> (c: PinocchioAccountRole)
    ensures
        c@ == r@,
{
    PinocchioAccountRole {
        is_signer: r.is_signer,
        is_writable: r.is_writable,
        is_program: r.is_program,
        account_type: match &r.account_type {
            Some(t) => Some(t.clone()),
            None => None,
        },
    }
}

fn set_accounts(h: &mut PinocchioHandlerProfile, xs: &Vec<IndexedName>)
    ensures
        final(h)@ == with_accounts(
            old(h)@,
            Some(indexed_views(xs@)),
        ),
{
    let ghost views = indexed_views(xs@);
    let ghost start = h@.roles;
    let ghost whole = h@;
    let mut names: Vec<String> = Vec::new();
    for i in 0..xs.len()
        invariant
            views == indexed_views(xs@),
            texts(names@) =~= account_names(views).take(i as int),
    {
        names.push(normalize_schema_name(&xs[i].name));
    }
    for i in 0..xs.len()
        invariant
            views == indexed_views(xs@),
            h@ == (HandlerV { roles: roles_upto(start, views, i as nat), ..whole }),
    {
        if !xs[i].role.is_empty() {
            let name = normalize_schema_name(&xs[i].name);
            let role = copy_role(&xs[i].role);
            merge_role(&mut h.account_roles, name, role);
        }
    }
    proof {
        assert(texts(names@) =~= account_names(views));
    }
    h.accounts = names;
}

/// The layouts with those of the first `n` records.
pub open spec fn layouts_upto(ls: Entries<LayoutV>, s: SchemaV, n: nat) -> Entries<LayoutV>
    decreases n,
{
    if n == 0 {
        ls
    } else {
        with_entry(
            layouts_upto(ls, s, (n - 1) as nat),
            schema_name(s.records[n - 1].0),
            layout_of(s.records[n - 1].0, s.records[n - 1].1, s.magics),
        )
    }
}

/// The records of accounts with the first `n` of those that a schema gives.
pub open spec fn account_layouts_upto(
    acc: Entries<Seq<char>>,
    given: Entries<Seq<char>>,
    n: nat,
) -> Entries<Seq<char>>
    decreases n,
{
    if n == 0 {
        acc
    } else {
        with_entry(
            account_layouts_upto(acc, given, (n - 1) as nat),
            given[n - 1].0,
            schema_name(given[n - 1].1),
        )
    }
}

/// A profile with what a schema says.
pub open spec fn with_schema(p: ProfileV, s: SchemaV) -> ProfileV {
    ProfileV {
        handlers: instructions_upto(p.handlers, s, s.instructions.len()),
        pdas: all_with_literals(p.pdas, literals_upto(s.seeds, s.seeds.len())),
        layouts: layouts_upto(p.layouts, s, s.records.len()),
        account_layouts: account_layouts_upto(
            p.account_layouts,
            layouts_of(s),
            layouts_of(s).len(),
        ),
    }
}

impl PinocchioProofProfile {
    fn merge_instructions(&mut self, schema: &PinocchioAbiSchema)
        requires
            schema_fits(schema@),
        ensures
            final(self)@ == (ProfileV {
                handlers: instructions_upto(
                    old(self)@.handlers,
                    schema@,
                    schema@.instructions.len(),
                ),
                ..old(self)@
            }),
    {
        let ghost whole = self@;
        let n: usize = schema.instructions.len();
        for i in 0..n
            invariant
                n == schema.instructions@.len(),
                schema_fits(schema@),
                self@ == (ProfileV {
                    handlers: instructions_upto(whole.handlers, schema@, i as nat),
                    ..whole
                }),
        {
            let instruction = schema.instructions.key(i);
            let name = normalize_schema_name(instruction);
            let mut entry = take_handler(&mut self.handlers, &name);
            entry.instruction_tag = Some(*schema.instructions.value(i));
            match schema.accounts.get(instruction) {
                Some(xs) => {
                    set_accounts(&mut entry, xs);
                },
                None => {},
            }
            match schema.instruction_records.get(instruction) {
                Some(record_name) => {
                    proof {
                        lemma_found_fits(schema@.records, record_name@);
                    }
                    match schema.records.get(record_name) {
                        Some(record) => {
                            entry.params = record_params(record, true);
                            entry.repeats = record_repeats(record, &schema.records);
                        },
                        None => {},
                    }
                },
                None => {},
            }
            self.handlers.insert(name, entry);
        }
    }

    /// Takes over what a schema says.
    pub fn merge_abi_schema(&mut self, schema: &PinocchioAbiSchema)
        requires
            schema_fits(schema@),
        ensures
            final(self)@ == with_schema(old(self)@, schema@),
    {
        let ghost whole = self@;
        let literals = schema.seed_literals();
        set_all_literals(&mut self.pda_derivations, &literals);
        let n: usize = schema.records.len();
        let ghost pdas = self@.pdas;
        for i in 0..n
            invariant
                n == schema.records@.len(),
                self@ == (ProfileV {
                    pdas,
                    layouts: layouts_upto(whole.layouts, schema@, i as nat),
                    ..whole
                }),
        {
            let name = schema.records.key(i);
            let layout = schema.records.value(i).to_profile_layout(name, &schema.magics);
            self.record_layouts.insert(normalize_schema_name(name), layout);
        }
        let given = schema.account_layouts();
        let m: usize = given.len();
        let ghost layouts = self@.layouts;
        for i in 0..m
            invariant
                m == given@.len(),
                self@ == (ProfileV {
                    pdas,
                    layouts,
                    account_layouts: account_layouts_upto(
                        whole.account_layouts,
                        entries_map(given@, string_fn()),
                        i as nat,
                    ),
                    ..whole
                }),
        {
            self.account_layouts.insert(
                given.key(i).clone(),
                normalize_schema_name(given.value(i)),
            );
        }
        self.merge_instructions(schema);
    }
}

} // verus!
