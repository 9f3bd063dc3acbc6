//! ABI schemas: line-oriented descriptions of instructions, accounts and
//! records.
use vstd::prelude::*;

use crate::names::{entries_map, lookup, with_entry, with_entry_after_without, NameMap};
use crate::number::{parse_below, parse_u8, parse_usize};
use crate::pinocchio_profile::{lookup_or, no_role, string_fn, Entries, PinocchioAccountRole, RoleV};
use crate::search::{starts_with, starts_with_text, strip_prefix, without_prefix};
use crate::split::{
    lines, lines_text, split, split_from, split_text, trim, trim_end_char, trim_end_of,
    trim_start_matches, trim_start_of, trim_text, words, words_text,
};
use crate::text::{ascii_lower, ascii_upper, same, texts, to_ascii_lower, to_ascii_upper};

verus! {

broadcast use {
    crate::names::group_entries,
    crate::text::group_text,
    crate::text::texts_index,
    crate::text::texts_len,
};

// ---------------------------------------------------------------------------
// Types
// ---------------------------------------------------------------------------

/// A schema.
#[derive(Debug, PartialEq, Eq)]
pub struct PinocchioAbiSchema {
    /// The tag of each instruction.
    pub instructions: NameMap<u8>,
    /// The accounts of each instruction, by their positions.
    pub accounts: NameMap<Vec<IndexedName>>,
    pub records: NameMap<AbiRecord>,
    /// The record that the data of an instruction holds.
    pub instruction_records: NameMap<String>,
    /// The record that an account holds.
    pub account_records: NameMap<String>,
    pub seeds: NameMap<String>,
    pub magics: NameMap<String>,
}

/// An account of an instruction.
#[derive(Debug, PartialEq, Eq)]
pub struct IndexedName {
    pub name: String,
    pub index: usize,
    pub role: PinocchioAccountRole,
}

/// A record: its fields, its repeated fields and its length in bytes.
#[derive(Debug, PartialEq, Eq)]
pub struct AbiRecord {
    pub fields: Vec<AbiField>,
    pub repeats: Vec<AbiRepeat>,
    pub len: usize,
}

#[derive(Debug, PartialEq, Eq)]
pub struct AbiField {
    pub name: String,
    pub ty: String,
    pub offset: usize,
    pub len: usize,
}

#[derive(Debug, PartialEq, Eq)]
pub struct AbiRepeat {
    pub name: String,
    pub ty: String,
    pub max_count: String,
    pub count_field: String,
    pub offset: usize,
    pub item_len: usize,
}

pub struct SchemaV {
    pub instructions: Entries<u8>,
    pub accounts: Entries<Seq<IndexedV>>,
    pub records: Entries<RecordV>,
    pub instruction_records: Entries<Seq<char>>,
    pub account_records: Entries<Seq<char>>,
    pub seeds: Entries<Seq<char>>,
    pub magics: Entries<Seq<char>>,
}

pub struct IndexedV {
    pub name: Seq<char>,
    pub index: usize,
    pub role: RoleV,
}

pub struct RecordV {
    pub fields: Seq<FieldV>,
    pub repeats: Seq<AbiRepeatV>,
    pub len: usize,
}

pub struct FieldV {
    pub name: Seq<char>,
    pub ty: Seq<char>,
    pub offset: usize,
    pub len: usize,
}

pub struct AbiRepeatV {
    pub name: Seq<char>,
    pub ty: Seq<char>,
    pub max_count: Seq<char>,
    pub count_field: Seq<char>,
    pub offset: usize,
    pub item_len: usize,
}

pub open spec fn indexed_views(v: Seq<IndexedName>) -> Seq<IndexedV> {
    Seq::new(v.len(), |i: int| v[i]@)
}

pub open spec fn accounts_fn() -> spec_fn(Vec<IndexedName>) -> Seq<IndexedV> {
    |v: Vec<IndexedName>| indexed_views(v@)
}

pub open spec fn record_fn() -> spec_fn(AbiRecord) -> RecordV {
    |r: AbiRecord| r@
}

pub open spec fn field_views(v: Seq<AbiField>) -> Seq<FieldV> {
    Seq::new(v.len(), |i: int| v[i]@)
}

pub open spec fn abi_repeat_views(v: Seq<AbiRepeat>) -> Seq<AbiRepeatV> {
    Seq::new(v.len(), |i: int| v[i]@)
}

impl View for IndexedName {
    type V = IndexedV;

    open spec fn view(&self) -> IndexedV {
        IndexedV { name: self.name@, index: self.index, role: self.role@ }
    }
}

impl View for AbiField {
    type V = FieldV;

    open spec fn view(&self) -> FieldV {
        FieldV { name: self.name@, ty: self.ty@, offset: self.offset, len: self.len }
    }
}

impl View for AbiRepeat {
    type V = AbiRepeatV;

    open spec fn view(&self) -> AbiRepeatV {
        AbiRepeatV {
            name: self.name@,
            ty: self.ty@,
            max_count: self.max_count@,
            count_field: self.count_field@,
            offset: self.offset,
            item_len: self.item_len,
        }
    }
}

impl View for AbiRecord {
    type V = RecordV;

    open spec fn view(&self) -> RecordV {
        RecordV {
            fields: field_views(self.fields@),
            repeats: abi_repeat_views(self.repeats@),
            len: self.len,
        }
    }
}

impl View for PinocchioAbiSchema {
    type V = SchemaV;

    open spec fn view(&self) -> SchemaV {
        SchemaV {
            instructions: self.instructions@,
            accounts: entries_map(self.accounts@, accounts_fn()),
            records: entries_map(self.records@, record_fn()),
            instruction_records: entries_map(self.instruction_records@, string_fn()),
            account_records: entries_map(self.account_records@, string_fn()),
            seeds: entries_map(self.seeds@, string_fn()),
            magics: entries_map(self.magics@, string_fn()),
        }
    }
}

/// The fields of a record end where a position can point.
pub open spec fn record_fits(r: RecordV) -> bool {
    forall|i: int|
        0 <= i < r.fields.len() ==> (#[trigger] r.fields[i]).offset + r.fields[i].len <= r.len
}

pub open spec fn records_fit(rs: Entries<RecordV>) -> bool {
    forall|i: int| 0 <= i < rs.len() ==> record_fits((#[trigger] rs[i]).1)
}

/// The records of a schema fit.
pub open spec fn schema_fits(s: SchemaV) -> bool {
    records_fit(s.records)
}

// ---------------------------------------------------------------------------
// Lines
// ---------------------------------------------------------------------------

/// The role that the words from `i` on give to an account that has `role` so
/// far.
pub open spec fn role_from(ws: Seq<Seq<char>>, i: int, role: RoleV) -> RoleV
    decreases ws.len() - i,
{
    if i < 0 || i >= ws.len() {
        role
    } else {
        let t = ascii_lower(trim_end_of(ws[i], ','));
        if t == "signer"@ {
            role_from(ws, i + 1, RoleV { is_signer: Some(true), ..role })
        } else if t == "writable"@ || t == "mut"@ || t == "mutable"@ {
            role_from(ws, i + 1, RoleV { is_writable: Some(true), ..role })
        } else if t == "readonly"@ || t == "readable"@ {
            role_from(ws, i + 1, RoleV { is_writable: Some(false), ..role })
        } else if t == "program"@ {
            role_from(ws, i + 1, RoleV { is_program: Some(true), ..role })
        } else if t == "token"@ || t == "mint"@ {
            role_from(ws, i + 1, RoleV { account_type: Some(t), ..role })
        } else if t == "type"@ {
            if i + 1 < ws.len() {
                role_from(
                    ws,
                    i + 2,
                    RoleV {
                        account_type: Some(
                            ascii_lower(trim_start_of(trim_end_of(ws[i + 1], ','), "="@)),
                        ),
                        ..role
                    },
                )
            } else {
                role
            }
        } else if starts_with_text(t, "type="@) {
            role_from(
                ws,
                i + 1,
                RoleV { account_type: Some(trim_start_of(t, "type="@)), ..role },
            )
        } else {
            role_from(ws, i + 1, role)
        }
    }
}

/// The role that the words from `from` on give to an account.
pub fn parse_account_role(ws: &Vec<String>, from: usize) -> (r: PinocchioAccountRole)
    ensures
        r@ == role_from(texts(ws@), from as int, no_role()),
{
    proof {
        reveal_strlit("=");
        reveal_strlit("type=");
    }
    let mut role = PinocchioAccountRole::default();
    let mut i: usize = from;
    while i < ws.len()
        invariant
            "="@.len() == 1,
            "type="@.len() == 5,
            role_from(texts(ws@), from as int, no_role()) == role_from(
                texts(ws@),
                i as int,
                role@,
            ),
        decreases ws@.len() - i,
    {
        let t = to_ascii_lower(&trim_end_char(&ws[i], ','));
        if same(&t, "signer") {
            role.is_signer = Some(true);
        } else if same(&t, "writable") || same(&t, "mut") || same(&t, "mutable") {
            role.is_writable = Some(true);
        } else if same(&t, "readonly") || same(&t, "readable") {
            role.is_writable = Some(false);
        } else if same(&t, "program") {
            role.is_program = Some(true);
        } else if same(&t, "token") || same(&t, "mint") {
            role.account_type = Some(t);
        } else if same(&t, "type") {
            if i + 1 < ws.len() {
                let next = trim_end_char(&ws[i + 1], ',');
                role.account_type = Some(to_ascii_lower(&trim_start_matches(&next, "=")));
                i = i + 1;
            }
        } else if starts_with(&t, "type=") {
            role.account_type = Some(trim_start_matches(&t, "type="));
        }
        i = i + 1;
    }
    role
}

/// The number of bytes of a type: a number, a flag, a key, as many bytes as its
/// name says, or a record.
pub open spec fn type_len(ty: Seq<char>, records: Entries<RecordV>) -> Option<usize> {
    let t = ascii_lower(ty);
    if t == "u8"@ || t == "i8"@ || t == "bool"@ {
        Some(1)
    } else if t == "u16"@ || t == "i16"@ {
        Some(2)
    } else if t == "u32"@ || t == "i32"@ {
        Some(4)
    } else if t == "u64"@ || t == "i64"@ {
        Some(8)
    } else if t == "u128"@ || t == "i128"@ {
        Some(16)
    } else if t == "pubkey"@ {
        Some(32)
    } else {
        match without_prefix(t, "bytes"@) {
            Some(n) => match parse_below(n, usize::MAX as nat) {
                Some(k) => Some(k as usize),
                None => None,
            },
            None => match lookup(records, ascii_upper(ty)) {
                Some(r) => Some(r.len),
                None => None,
            },
        }
    }
}

/// The number of bytes of a type.
pub fn abi_type_len(ty: &str, records: &NameMap<AbiRecord>) -> (r: Option<usize>)
    ensures
        r == type_len(ty@, entries_map(records@, record_fn())),
{
    let t = to_ascii_lower(ty);
    if same(&t, "u8") || same(&t, "i8") || same(&t, "bool") {
        Some(1)
    } else if same(&t, "u16") || same(&t, "i16") {
        Some(2)
    } else if same(&t, "u32") || same(&t, "i32") {
        Some(4)
    } else if same(&t, "u64") || same(&t, "i64") {
        Some(8)
    } else if same(&t, "u128") || same(&t, "i128") {
        Some(16)
    } else if same(&t, "pubkey") {
        Some(32)
    } else {
        match strip_prefix(&t, "bytes") {
            Some(n) => parse_usize(&n),
            None => {
                let upper = to_ascii_upper(ty);
                match records.get(&upper) {
                    Some(r) => Some(r.len),
                    None => None,
                }
            },
        }
    }
}

/// The accounts with one more: behind those whose positions are not greater.
pub open spec fn placed(xs: Seq<IndexedV>, x: IndexedV) -> Seq<IndexedV>
    decreases xs.len(),
{
    if xs.len() == 0 || xs.last().index <= x.index {
        xs.push(x)
    } else {
        placed(xs.drop_last(), x).push(xs.last())
    }
}

/// The positions of accounts do not descend.
pub open spec fn in_order(xs: Seq<IndexedV>) -> bool {
    forall|i: int, j: int|
        0 <= i < j < xs.len() ==> (#[trigger] xs[i]).index <= (#[trigger] xs[j]).index
}

/// Accounts that stand in the order of their positions still do so with one
/// more, and none is lost.
pub proof fn placing_keeps_order(xs: Seq<IndexedV>, x: IndexedV)
    requires
        in_order(xs),
    ensures
        in_order(placed(xs, x)),
        placed(xs, x).to_multiset() == xs.to_multiset().insert(x),
        forall|i: int|
            0 <= i < placed(xs, x).len() ==> (#[trigger] placed(xs, x)[i]).index <= x.index || (
            xs.len() > 0 && placed(xs, x)[i].index <= xs.last().index),
    decreases xs.len(),
{
    broadcast use vstd::seq_lib::group_to_multiset_ensures;

    let out = placed(xs, x);
    if xs.len() == 0 || xs.last().index <= x.index {
        assert forall|i: int, j: int| 0 <= i < j < out.len() implies (#[trigger] out[i]).index <= (
        #[trigger] out[j]).index by {
            if j == xs.len() {
                assert(xs[i].index <= xs[xs.len() - 1].index);
            }
        }
    } else {
        let front = xs.drop_last();
        placing_keeps_order(front, x);
        let inner = placed(front, x);
        assert(xs =~= front.push(xs.last()));
        assert forall|i: int, j: int| 0 <= i < j < out.len() implies (#[trigger] out[i]).index <= (
        #[trigger] out[j]).index by {
            if j == inner.len() {
                assert(out[i] == inner[i]);
                if front.len() > 0 {
                    assert(xs[front.len() - 1].index <= xs[xs.len() - 1].index);
                }
            } else {
                assert(out[i] == inner[i] && out[j] == inner[j]);
            }
        }
        assert forall|i: int| 0 <= i < out.len() implies (#[trigger] out[i]).index <= x.index || (
        xs.len() > 0 && out[i].index <= xs.last().index) by {
            if i < inner.len() {
                assert(out[i] == inner[i]);
                if front.len() > 0 {
                    assert(xs[front.len() - 1].index <= xs[xs.len() - 1].index);
                }
            }
        }
        assert(out.to_multiset() =~= xs.to_multiset().insert(x));
    }
}

fn place(xs: &mut Vec<IndexedName>, x: IndexedName)
    ensures
        indexed_views(final(xs)@) == placed(indexed_views(old(xs)@), x@),
{
    let ghost all = indexed_views(xs@);
    let mut i: usize = xs.len();
    proof {
        assert(all.take(i as int) =~= all);
        assert(placed(all, x@) =~= placed(all.take(i as int), x@) + all.subrange(
            i as int,
            all.len() as int,
        ));
    }
    while i > 0 && xs[i - 1].index > x.index
        invariant
            i <= xs@.len(),
            all == indexed_views(xs@),
            placed(all, x@) == placed(all.take(i as int), x@) + all.subrange(
                i as int,
                all.len() as int,
            ),
        decreases i,
    {
        proof {
            assert(all.take(i as int).drop_last() =~= all.take(i - 1));
            assert(placed(all.take(i - 1), x@).push(all[i - 1]) + all.subrange(
                i as int,
                all.len() as int,
            ) =~= placed(all.take(i - 1), x@) + all.subrange(i - 1, all.len() as int));
        }
        i = i - 1;
    }
    let ghost xv = x@;
    xs.insert(i, x);
    proof {
        assert(indexed_views(xs@) =~= placed(all, xv));
    }
}

/// A schema that is being read: what it says so far, the limits, and the record
/// that is open.
pub struct ParseV {
    pub schema: SchemaV,
    pub limits: Entries<usize>,
    pub open: Option<(Seq<char>, RecordV)>,
}

struct Parse {
    schema: PinocchioAbiSchema,
    limits: NameMap<usize>,
    open: Option<(String, AbiRecord)>,
}

spec fn parse_view(p: Parse) -> ParseV {
    ParseV {
        schema: p.schema@,
        limits: p.limits@,
        open: match p.open {
            Some((n, r)) => Some((n@, r@)),
            None => None,
        },
    }
}

pub open spec fn no_fields() -> RecordV {
    RecordV { fields: Seq::empty(), repeats: Seq::empty(), len: 0 }
}

/// With the open record, if there is one, among the records.
pub open spec fn closed_record(p: ParseV) -> ParseV {
    match p.open {
        Some((n, r)) => ParseV {
            schema: SchemaV { records: with_entry(p.schema.records, n, r), ..p.schema },
            open: None,
            ..p
        },
        None => p,
    }
}

/// How often a field is repeated at most: a number, or else a limit.
pub open spec fn count_of(limits: Entries<usize>, t: Seq<char>) -> usize {
    match parse_below(t, usize::MAX as nat) {
        Some(n) => n as usize,
        None => lookup_or(limits, t, 0),
    }
}

/// What a field adds to the open record; `None` where the record becomes longer
/// than a position can point.
pub open spec fn with_field(p: ParseV, name: Seq<char>, ty: Seq<char>) -> Option<ParseV> {
    match p.open {
        Some((n, r)) => match type_len(ty, p.schema.records) {
            Some(len) => if r.len + len <= usize::MAX {
                Some(
                    ParseV {
                        open: Some(
                            (
                                n,
                                RecordV {
                                    fields: r.fields.push(
                                        FieldV { name, ty, offset: r.len, len },
                                    ),
                                    len: (r.len + len) as usize,
                                    ..r
                                },
                            ),
                        ),
                        ..p
                    },
                )
            } else {
                None
            },
            None => Some(p),
        },
        None => Some(p),
    }
}

/// What a repeated field adds to the open record; `None` where the record
/// becomes longer than a position can point.
pub open spec fn with_repeat(
    p: ParseV,
    name: Seq<char>,
    ty: Seq<char>,
    max_count: Seq<char>,
    count_field: Seq<char>,
) -> Option<ParseV> {
    match p.open {
        Some((n, r)) => match type_len(ty, p.schema.records) {
            Some(item_len) => if r.len + item_len * count_of(p.limits, max_count) <= usize::MAX {
                Some(
                    ParseV {
                        open: Some(
                            (
                                n,
                                RecordV {
                                    repeats: r.repeats.push(
                                        AbiRepeatV {
                                            name,
                                            ty,
                                            max_count,
                                            count_field,
                                            offset: r.len,
                                            item_len,
                                        },
                                    ),
                                    len: (r.len + item_len * count_of(p.limits, max_count)) as usize,
                                    ..r
                                },
                            ),
                        ),
                        ..p
                    },
                )
            } else {
                None
            },
            None => Some(p),
        },
        None => Some(p),
    }
}

/// What the words of a line make of a schema.
pub open spec fn after_words(p: ParseV, ws: Seq<Seq<char>>) -> Option<ParseV> {
    let s = p.schema;
    if ws.len() == 0 {
        Some(p)
    } else if ws[0] == "limit"@ && ws.len() >= 3 {
        match parse_below(ws[2], usize::MAX as nat) {
            Some(n) => Some(ParseV { limits: with_entry(p.limits, ws[1], n as usize), ..p }),
            None => Some(p),
        }
    } else if ws[0] == "seed"@ && ws.len() >= 3 {
        Some(ParseV { schema: SchemaV { seeds: with_entry(s.seeds, ws[1], ws[2]), ..s }, ..p })
    } else if ws[0] == "magic"@ && ws.len() >= 3 {
        Some(ParseV { schema: SchemaV { magics: with_entry(s.magics, ws[1], ws[2]), ..s }, ..p })
    } else if ws[0] == "instruction"@ && ws.len() >= 3 {
        match parse_below(ws[2], 255) {
            Some(n) => Some(
                ParseV {
                    schema: SchemaV {
                        instructions: with_entry(s.instructions, ws[1], n as u8),
                        ..s
                    },
                    ..p
                },
            ),
            None => Some(p),
        }
    } else if ws[0] == "account"@ && ws.len() >= 4 {
        match parse_below(ws[3], usize::MAX as nat) {
            Some(n) => Some(
                ParseV {
                    schema: SchemaV {
                        accounts: with_entry(
                            s.accounts,
                            ws[1],
                            placed(
                                lookup_or(s.accounts, ws[1], Seq::empty()),
                                IndexedV {
                                    name: ws[2],
                                    index: n as usize,
                                    role: role_from(ws, 4, no_role()),
                                },
                            ),
                        ),
                        ..s
                    },
                    ..p
                },
            ),
            None => Some(p),
        }
    } else if ws[0] == "record"@ && ws.len() >= 2 {
        Some(ParseV { open: Some((ws[1], no_fields())), ..closed_record(p) })
    } else if ws[0] == "field"@ && ws.len() >= 3 {
        with_field(p, ws[1], ws[2])
    } else if ws[0] == "repeat"@ && ws.len() >= 5 {
        with_repeat(p, ws[1], ws[2], ws[3], ws[4])
    } else if ws[0] == "instruction_record"@ && ws.len() >= 3 {
        Some(
            ParseV {
                schema: SchemaV {
                    instruction_records: with_entry(s.instruction_records, ws[1], ws[2]),
                    ..s
                },
                ..p
            },
        )
    } else if ws[0] == "account_record"@ && ws.len() >= 3 {
        Some(
            ParseV {
                schema: SchemaV {
                    account_records: with_entry(s.account_records, ws[1], ws[2]),
                    ..s
                },
                ..p
            },
        )
    } else if ws[0] == "end"@ {
        Some(closed_record(p))
    } else {
        Some(p)
    }
}

/// The words of a line, up to a comment.
pub open spec fn line_words(line: Seq<char>) -> Seq<Seq<char>> {
    words_text(trim_text(split_text(line, '#')[0]))
}

pub open spec fn no_schema() -> SchemaV {
    SchemaV {
        instructions: Seq::empty(),
        accounts: Seq::empty(),
        records: Seq::empty(),
        instruction_records: Seq::empty(),
        account_records: Seq::empty(),
        seeds: Seq::empty(),
        magics: Seq::empty(),
    }
}

/// A schema when its first `n` lines are read; `None` where a record is longer
/// than a position can point.
pub open spec fn read_upto(ls: Seq<Seq<char>>, n: nat) -> Option<ParseV>
    decreases n,
{
    if n == 0 {
        Some(ParseV { schema: no_schema(), limits: Seq::empty(), open: None })
    } else {
        match read_upto(ls, (n - 1) as nat) {
            Some(p) => after_words(p, line_words(ls[n - 1])),
            None => None,
        }
    }
}

/// The schema that a text describes. There is none where a record is longer
/// than a position can point.
pub open spec fn schema_of(source: Seq<char>) -> Option<SchemaV> {
    match read_upto(lines_text(source), lines_text(source).len()) {
        Some(p) => Some(closed_record(p).schema),
        None => None,
    }
}

/// A value that is set keeps what holds of every value.
proof fn lemma_with_record(rs: Entries<RecordV>, k: Seq<char>, r: RecordV)
    requires
        records_fit(rs),
        record_fits(r),
    ensures
        records_fit(with_entry(rs, k, r)),
    decreases rs.len(),
{
    let out = with_entry(rs, k, r);
    if rs.len() > 0 {
        let front = rs.drop_last();
        assert(records_fit(front));
        assert(record_fits(rs[rs.len() - 1].1));
        lemma_with_record(front, k, r);
        assert forall|i: int| 0 <= i < out.len() implies record_fits((#[trigger] out[i]).1) by {
            let inner = with_entry(front, k, r);
            if crate::names::text_lt(k, rs.last().0) {
                if i < inner.len() {
                    assert(out[i] == inner[i]);
                }
            } else if i < front.len() {
                assert(out[i] == rs[i]);
            } else if rs.last().0 != k && i == front.len() {
                assert(out[i] == rs[rs.len() - 1]);
            }
        }
    }
}

/// The records that are read, and the one that is open, fit.
pub open spec fn parse_fits(p: ParseV) -> bool {
    schema_fits(p.schema) && match p.open {
        Some((_, r)) => record_fits(r),
        None => true,
    }
}

proof fn lemma_closed_fits(p: ParseV)
    requires
        parse_fits(p),
    ensures
        parse_fits(closed_record(p)),
{
    if let Some((n, r)) = p.open {
        lemma_with_record(p.schema.records, n, r);
    }
}

proof fn lemma_words_fit(p: ParseV, ws: Seq<Seq<char>>)
    requires
        parse_fits(p),
    ensures
        match after_words(p, ws) {
            Some(q) => parse_fits(q),
            None => true,
        },
{
    lemma_closed_fits(p);
    if let Some((_, r)) = p.open {
        assert(record_fits(r));
    }
}

proof fn lemma_read_fits(ls: Seq<Seq<char>>, n: nat)
    requires
        n <= ls.len(),
    ensures
        match read_upto(ls, n) {
            Some(p) => parse_fits(p),
            None => true,
        },
    decreases n,
{
    if n > 0 {
        lemma_read_fits(ls, (n - 1) as nat);
        if let Some(p) = read_upto(ls, (n - 1) as nat) {
            lemma_words_fit(p, line_words(ls[n - 1]));
        }
    }
}

/// Every field of a schema that was read ends within its record.
pub proof fn read_schemas_fit(source: Seq<char>)
    ensures
        match schema_of(source) {
            Some(s) => schema_fits(s),
            None => true,
        },
{
    let ls = lines_text(source);
    lemma_read_fits(ls, ls.len());
    if let Some(p) = read_upto(ls, ls.len()) {
        lemma_closed_fits(p);
    }
}

fn close_record(p: &mut Parse)
    ensures
        parse_view(*final(p)) == closed_record(parse_view(*old(p))),
{
    let mut open: Option<(String, AbiRecord)> = None;
    std::mem::swap(&mut open, &mut p.open);
    match open {
        Some((name, record)) => {
            p.schema.records.insert(name, record);
        },
        None => {},
    }
}

fn read_account(p: &mut Parse, ws: &Vec<String>)
    requires
        ws@.len() >= 4,
        ws@[0]@ == "account"@,
    ensures
        after_words(parse_view(*old(p)), texts(ws@)) == Some(parse_view(*final(p))),
{
    proof {
        lemma_first_words();
    }
    match parse_usize(&ws[3]) {
        Some(index) => {
            let ghost es = p.schema.accounts@;
            let mut list = match p.schema.accounts.remove(&ws[1]) {
                Some(list) => list,
                None => Vec::new(),
            };
            proof {
                if lookup(es, ws@[1]@) is None {
                    assert(indexed_views(list@) =~= Seq::empty());
                }
            }
            let role = parse_account_role(ws, 4);
            place(&mut list, IndexedName { name: ws[2].clone(), index, role });
            proof {
                with_entry_after_without(es, ws@[1]@, list);
            }
            p.schema.accounts.insert(ws[1].clone(), list);
        },
        None => {},
    }
}

fn read_field(p: &mut Parse, name: &String, ty: &String) -> (r: bool)
    ensures
        r ==> with_field(parse_view(*old(p)), name@, ty@) == Some(parse_view(*final(p))),
        !r ==> with_field(parse_view(*old(p)), name@, ty@) is None,
{
    let mut open: Option<(String, AbiRecord)> = None;
    std::mem::swap(&mut open, &mut p.open);
    let mut fits: bool = true;
    match open {
        Some((record_name, record)) => {
            let mut record = record;
            match abi_type_len(ty, &p.schema.records) {
                Some(len) => {
                    if len <= usize::MAX - record.len {
                        let f = AbiField {
                            name: name.clone(),
                            ty: ty.clone(),
                            offset: record.len,
                            len,
                        };
                        proof {
                            assert(field_views(record.fields@.push(f)) =~= field_views(
                                record.fields@,
                            ).push(f@));
                        }
                        record.fields.push(f);
                        record.len = record.len + len;
                    } else {
                        fits = false;
                    }
                },
                None => {},
            }
            p.open = Some((record_name, record));
        },
        None => {},
    }
    fits
}

fn read_repeat(p: &mut Parse, ws: &Vec<String>) -> (r: bool)
    requires
        ws@.len() >= 5,
    ensures
        r ==> with_repeat(parse_view(*old(p)), ws@[1]@, ws@[2]@, ws@[3]@, ws@[4]@) == Some(
            parse_view(*final(p)),
        ),
        !r ==> with_repeat(parse_view(*old(p)), ws@[1]@, ws@[2]@, ws@[3]@, ws@[4]@) is None,
{
    let mut open: Option<(String, AbiRecord)> = None;
    std::mem::swap(&mut open, &mut p.open);
    let mut fits: bool = true;
    match open {
        Some((record_name, record)) => {
            let mut record = record;
            match abi_type_len(&ws[2], &p.schema.records) {
                Some(item_len) => {
                    let count: usize = match parse_usize(&ws[3]) {
                        Some(n) => n,
                        None => match p.limits.get(&ws[3]) {
                            Some(n) => *n,
                            None => 0,
                        },
                    };
                    match item_len.checked_mul(count) {
                        Some(total) => {
                            if total <= usize::MAX - record.len {
                                let f = AbiRepeat {
                                    name: ws[1].clone(),
                                    ty: ws[2].clone(),
                                    max_count: ws[3].clone(),
                                    count_field: ws[4].clone(),
                                    offset: record.len,
                                    item_len,
                                };
                                proof {
                                    assert(abi_repeat_views(record.repeats@.push(f))
                                        =~= abi_repeat_views(record.repeats@).push(f@));
                                }
                                record.repeats.push(f);
                                record.len = record.len + total;
                            } else {
                                fits = false;
                            }
                        },
                        None => {
                            fits = false;
                        },
                    }
                },
                None => {},
            }
            p.open = Some((record_name, record));
        },
        None => {},
    }
    fits
}

/// No two of the words that a line can start with are the same.
proof fn lemma_first_words()
    ensures
        "account"@ != "limit"@,
        "account"@ != "seed"@,
        "account"@ != "magic"@,
        "account"@ != "instruction"@,
{
    reveal_strlit("account");
    reveal_strlit("limit");
    reveal_strlit("seed");
    reveal_strlit("magic");
    reveal_strlit("instruction");
    assert("account"@[0] == 'a');
    assert("limit"@[0] == 'l');
    assert("seed"@[0] == 's');
    assert("magic"@[0] == 'm');
    assert("instruction"@[0] == 'i');
}

fn read_words(p: &mut Parse, ws: &Vec<String>) -> (r: bool)
    ensures
        r ==> after_words(parse_view(*old(p)), texts(ws@)) == Some(parse_view(*final(p))),
        !r ==> after_words(parse_view(*old(p)), texts(ws@)) is None,
{
    let n: usize = ws.len();
    if n == 0 {
        return true;
    }
    let w = &ws[0];
    if same(w, "limit") && n >= 3 {
        match parse_usize(&ws[2]) {
            Some(value) => {
                p.limits.insert(ws[1].clone(), value);
            },
            None => {},
        }
    } else if same(w, "seed") && n >= 3 {
        p.schema.seeds.insert(ws[1].clone(), ws[2].clone());
    } else if same(w, "magic") && n >= 3 {
        p.schema.magics.insert(ws[1].clone(), ws[2].clone());
    } else if same(w, "instruction") && n >= 3 {
        match parse_u8(&ws[2]) {
            Some(tag) => {
                p.schema.instructions.insert(ws[1].clone(), tag);
            },
            None => {},
        }
    } else if same(w, "account") && n >= 4 {
        read_account(p, ws);
    } else if same(w, "record") && n >= 2 {
        close_record(p);
        let record = AbiRecord { fields: Vec::new(), repeats: Vec::new(), len: 0 };
        proof {
            assert(field_views(record.fields@) =~= Seq::empty());
            assert(abi_repeat_views(record.repeats@) =~= Seq::empty());
        }
        p.open = Some((ws[1].clone(), record));
    } else if same(w, "field") && n >= 3 {
        return read_field(p, &ws[1], &ws[2]);
    } else if same(w, "repeat") && n >= 5 {
        return read_repeat(p, ws);
    } else if same(w, "instruction_record") && n >= 3 {
        p.schema.instruction_records.insert(ws[1].clone(), ws[2].clone());
    } else if same(w, "account_record") && n >= 3 {
        p.schema.account_records.insert(ws[1].clone(), ws[2].clone());
    } else if same(w, "end") {
        close_record(p);
    }
    true
}

proof fn lemma_split_some(s: Seq<char>, c: char)
    ensures
        split_text(s, c).len() > 0,
{
    crate::search::lemma_char_at_or_after(s, c, 0);
    assert(split_from(s, c, 0).len() > 0);
}

/// Reads a schema; `None` where a record is longer than a position can point.
pub fn read_abi_schema(source: &str) -> (r: Option<PinocchioAbiSchema>)
    ensures
        match r {
            Some(s) => schema_of(source@) == Some(s@) && schema_fits(s@),
            None => schema_of(source@) is None,
        },
{
    let ls = lines(source);
    let mut p = Parse {
        schema: PinocchioAbiSchema {
            instructions: NameMap::new(),
            accounts: NameMap::new(),
            records: NameMap::new(),
            instruction_records: NameMap::new(),
            account_records: NameMap::new(),
            seeds: NameMap::new(),
            magics: NameMap::new(),
        },
        limits: NameMap::new(),
        open: None,
    };
    let ghost all = texts(ls@);
    let mut i: usize = 0;
    while i < ls.len()
        invariant
            i <= ls@.len(),
            all == texts(ls@),
            read_upto(all, i as nat) == Some(parse_view(p)),
            all == lines_text(source@),
        decreases ls@.len() - i,
    {
        proof {
            lemma_split_some(ls@[i as int]@, '#');
        }
        let pieces = split(&ls[i], '#');
        let ws = words(&trim(&pieces[0]));
        if !read_words(&mut p, &ws) {
            proof {
                lemma_stuck(all, (i + 1) as nat, all.len());
            }
            return None;
        }
        i = i + 1;
    }
    close_record(&mut p);
    proof {
        read_schemas_fit(source@);
    }
    Some(p.schema)
}

proof fn lemma_stuck(ls: Seq<Seq<char>>, n: nat, m: nat)
    requires
        n <= m <= ls.len(),
        read_upto(ls, n) is None,
    ensures
        read_upto(ls, m) is None,
    decreases m,
{
    if n < m {
        lemma_stuck(ls, n, (m - 1) as nat);
    }
}

/// Reads a schema whose records are not longer than a position can point.
pub fn parse_abi_schema(source: &str) -> (r: PinocchioAbiSchema)
    requires
        schema_of(source@) is Some,
    ensures
        schema_of(source@) == Some(r@),
        schema_fits(r@),
{
    read_abi_schema(source).unwrap()
}

// ---------------------------------------------------------------------------
// Laws
// ---------------------------------------------------------------------------

/// Each field of a record starts where those before it have ended.
pub open spec fn fields_apart(r: RecordV) -> bool {
    forall|i: int, j: int|
        0 <= i < j < r.fields.len() ==> (#[trigger] r.fields[i]).offset + r.fields[i].len <= (
        #[trigger] r.fields[j]).offset
}

pub open spec fn records_apart(rs: Entries<RecordV>) -> bool {
    forall|i: int| 0 <= i < rs.len() ==> fields_apart((#[trigger] rs[i]).1)
}

proof fn lemma_with_apart(rs: Entries<RecordV>, k: Seq<char>, r: RecordV)
    requires
        records_apart(rs),
        fields_apart(r),
    ensures
        records_apart(with_entry(rs, k, r)),
    decreases rs.len(),
{
    let out = with_entry(rs, k, r);
    if rs.len() > 0 {
        let front = rs.drop_last();
        assert(records_apart(front));
        assert(fields_apart(rs[rs.len() - 1].1));
        lemma_with_apart(front, k, r);
        assert forall|i: int| 0 <= i < out.len() implies fields_apart((#[trigger] out[i]).1) by {
            let inner = with_entry(front, k, r);
            if crate::names::text_lt(k, rs.last().0) {
                if i < inner.len() {
                    assert(out[i] == inner[i]);
                }
            } else if i < front.len() {
                assert(out[i] == rs[i]);
            } else if rs.last().0 != k && i == front.len() {
                assert(out[i] == rs[rs.len() - 1]);
            }
        }
    }
}

/// The records that are read, and the one that is open, have their fields
/// apart.
spec fn parse_apart(p: ParseV) -> bool {
    parse_fits(p) && records_apart(p.schema.records) && match p.open {
        Some((_, r)) => fields_apart(r),
        None => true,
    }
}

proof fn lemma_closed_apart(p: ParseV)
    requires
        parse_apart(p),
    ensures
        parse_apart(closed_record(p)),
{
    lemma_closed_fits(p);
    if let Some((n, r)) = p.open {
        lemma_with_apart(p.schema.records, n, r);
    }
}

proof fn lemma_words_apart(p: ParseV, ws: Seq<Seq<char>>)
    requires
        parse_apart(p),
    ensures
        match after_words(p, ws) {
            Some(q) => parse_apart(q),
            None => true,
        },
{
    lemma_words_fit(p, ws);
    lemma_closed_apart(p);
    if let Some((_, r)) = p.open {
        assert(fields_apart(r));
        assert(record_fits(r));
    }
}

proof fn lemma_read_apart(ls: Seq<Seq<char>>, n: nat)
    requires
        n <= ls.len(),
    ensures
        match read_upto(ls, n) {
            Some(p) => parse_apart(p),
            None => true,
        },
    decreases n,
{
    if n > 0 {
        lemma_read_apart(ls, (n - 1) as nat);
        if let Some(p) = read_upto(ls, (n - 1) as nat) {
            lemma_words_apart(p, line_words(ls[n - 1]));
        }
    }
}

/// No two fields of a record overlap.
pub proof fn fields_do_not_overlap(source: Seq<char>)
    ensures
        match schema_of(source) {
            Some(s) => records_apart(s.records),
            None => true,
        },
{
    let ls = lines_text(source);
    lemma_read_apart(ls, ls.len());
    if let Some(p) = read_upto(ls, ls.len()) {
        lemma_closed_apart(p);
    }
}

/// The accounts of every instruction stand in the order of their positions.
pub open spec fn accounts_in_order(es: Entries<Seq<IndexedV>>) -> bool {
    forall|i: int| 0 <= i < es.len() ==> in_order((#[trigger] es[i]).1)
}

proof fn lemma_with_ordered(es: Entries<Seq<IndexedV>>, k: Seq<char>, xs: Seq<IndexedV>)
    requires
        accounts_in_order(es),
        in_order(xs),
    ensures
        accounts_in_order(with_entry(es, k, xs)),
    decreases es.len(),
{
    let out = with_entry(es, k, xs);
    if es.len() > 0 {
        let front = es.drop_last();
        assert(accounts_in_order(front));
        assert(in_order(es[es.len() - 1].1));
        lemma_with_ordered(front, k, xs);
        assert forall|i: int| 0 <= i < out.len() implies in_order((#[trigger] out[i]).1) by {
            let inner = with_entry(front, k, xs);
            if crate::names::text_lt(k, es.last().0) {
                if i < inner.len() {
                    assert(out[i] == inner[i]);
                }
            } else if i < front.len() {
                assert(out[i] == es[i]);
            } else if es.last().0 != k && i == front.len() {
                assert(out[i] == es[es.len() - 1]);
            }
        }
    }
}

proof fn lemma_found_ordered(es: Entries<Seq<IndexedV>>, k: Seq<char>)
    requires
        accounts_in_order(es),
    ensures
        in_order(lookup_or(es, k, Seq::empty())),
    decreases es.len(),
{
    if es.len() > 0 {
        assert(in_order(es[es.len() - 1].1));
        assert(accounts_in_order(es.drop_last()));
        lemma_found_ordered(es.drop_last(), k);
    }
}

proof fn lemma_read_ordered(ls: Seq<Seq<char>>, n: nat)
    requires
        n <= ls.len(),
    ensures
        match read_upto(ls, n) {
            Some(p) => accounts_in_order(p.schema.accounts),
            None => true,
        },
    decreases n,
{
    if n > 0 {
        lemma_read_ordered(ls, (n - 1) as nat);
        if let Some(p) = read_upto(ls, (n - 1) as nat) {
            let ws = line_words(ls[n - 1]);
            if ws.len() >= 4 {
                if let Some(index) = parse_below(ws[3], usize::MAX as nat) {
                    let list = lookup_or(p.schema.accounts, ws[1], Seq::empty());
                    let x = IndexedV {
                        name: ws[2],
                        index: index as usize,
                        role: role_from(ws, 4, no_role()),
                    };
                    lemma_found_ordered(p.schema.accounts, ws[1]);
                    placing_keeps_order(list, x);
                    lemma_with_ordered(p.schema.accounts, ws[1], placed(list, x));
                }
            }
        }
    }
}

/// The accounts of every instruction of a schema stand in the order of their
/// positions.
pub proof fn schema_accounts_stand_in_order(source: Seq<char>)
    ensures
        match schema_of(source) {
            Some(s) => accounts_in_order(s.accounts),
            None => true,
        },
{
    lemma_read_ordered(lines_text(source), lines_text(source).len());
}

} // verus!
