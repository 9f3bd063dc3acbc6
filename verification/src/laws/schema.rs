//! What a schema says of bytes: how long each type is, where each field lies,
//! and which bytes a parameter takes.
use vstd::prelude::*;

use crate::names::{ascending, lookup, lookup_with_entry, text_lt, with_entry};
use crate::number::{digits_value, parse_nat, unsigned_digits};
use crate::pinocchio_profile::abi::{is_count, layout_of, param_of, params_upto, with_instruction};
use crate::pinocchio_profile::naming::{names_integer, param_type, schema_name};
use crate::pinocchio_profile::schema::{
    after_words, closed_record, count_of, line_words, read_upto, role_from, schema_of, type_len,
    with_field, with_repeat, AbiRepeatV, FieldV, ParseV, RecordV, SchemaV,
};
use crate::pinocchio_profile::{Entries, HandlerV, RoleV};
use crate::split::{lines_text, trim_end_of};
use crate::text::ascii_lower;

verus! {

/// The number of bytes of the Rust type of a name: an eighth of the bits that an
/// integer names, one for a flag, and 32 for a public key.
pub open spec fn rust_bytes(t: Seq<char>) -> Option<nat> {
    if t == "bool"@ {
        Some(1)
    } else if t == "pubkey"@ {
        Some(32)
    } else if t.len() > 0 && (t[0] == 'u' || t[0] == 'i') {
        match parse_nat(t.drop_first()) {
            Some(bits) => if bits == 8 || bits == 16 || bits == 32 || bits == 64 || bits == 128 {
                Some(bits / 8)
            } else {
                None
            },
            None => None,
        }
    } else {
        None
    }
}

proof fn lemma_bits(t: Seq<char>, lead: char, digits: Seq<char>)
    requires
        t == seq![lead] + digits,
        lead == 'u' || lead == 'i',
        digits == seq!['8'] || digits == seq!['1', '6'] || digits == seq!['3', '2'] || digits
            == seq!['6', '4'] || digits == seq!['1', '2', '8'],
    ensures
        digits == seq!['8'] ==> rust_bytes(t) == Some(1nat),
        digits == seq!['1', '6'] ==> rust_bytes(t) == Some(2nat),
        digits == seq!['3', '2'] ==> rust_bytes(t) == Some(4nat),
        digits == seq!['6', '4'] ==> rust_bytes(t) == Some(8nat),
        digits == seq!['1', '2', '8'] ==> rust_bytes(t) == Some(16nat),
{
    reveal_strlit("bool");
    reveal_strlit("pubkey");
    reveal_with_fuel(digits_value, 5);
    assert(t.drop_first() =~= digits);
    assert(unsigned_digits(digits) == digits);
    assert(t[0] == lead);
    assert("bool"@[0] == 'b' && "pubkey"@[0] == 'p');
    if digits == seq!['8'] {
        assert(digits.drop_last() =~= Seq::empty());
        assert(digits_value(digits) == 8);
    } else if digits == seq!['1', '6'] {
        assert(digits.drop_last() =~= seq!['1']);
        assert(seq!['1'].drop_last() =~= Seq::empty());
        assert(digits_value(digits) == 16);
    } else if digits == seq!['3', '2'] {
        assert(digits.drop_last() =~= seq!['3']);
        assert(seq!['3'].drop_last() =~= Seq::empty());
        assert(digits_value(digits) == 32);
    } else if digits == seq!['6', '4'] {
        assert(digits.drop_last() =~= seq!['6']);
        assert(seq!['6'].drop_last() =~= Seq::empty());
        assert(digits_value(digits) == 64);
    } else {
        assert(digits.drop_last() =~= seq!['1', '2']);
        assert(seq!['1', '2'].drop_last() =~= seq!['1']);
        assert(seq!['1'].drop_last() =~= Seq::empty());
        assert(digits_value(digits) == 128);
    }
}

proof fn lemma_names()
    ensures
        "u8"@ == seq!['u'] + seq!['8'],
        "i8"@ == seq!['i'] + seq!['8'],
        "u16"@ == seq!['u'] + seq!['1', '6'],
        "i16"@ == seq!['i'] + seq!['1', '6'],
        "u32"@ == seq!['u'] + seq!['3', '2'],
        "i32"@ == seq!['i'] + seq!['3', '2'],
        "u64"@ == seq!['u'] + seq!['6', '4'],
        "i64"@ == seq!['i'] + seq!['6', '4'],
        "u128"@ == seq!['u'] + seq!['1', '2', '8'],
        "i128"@ == seq!['i'] + seq!['1', '2', '8'],
{
    reveal_strlit("u8");
    reveal_strlit("i8");
    reveal_strlit("u16");
    reveal_strlit("i16");
    reveal_strlit("u32");
    reveal_strlit("i32");
    reveal_strlit("u64");
    reveal_strlit("i64");
    reveal_strlit("u128");
    reveal_strlit("i128");
    assert("u8"@ =~= seq!['u'] + seq!['8']);
    assert("i8"@ =~= seq!['i'] + seq!['8']);
    assert("u16"@ =~= seq!['u'] + seq!['1', '6']);
    assert("i16"@ =~= seq!['i'] + seq!['1', '6']);
    assert("u32"@ =~= seq!['u'] + seq!['3', '2']);
    assert("i32"@ =~= seq!['i'] + seq!['3', '2']);
    assert("u64"@ =~= seq!['u'] + seq!['6', '4']);
    assert("i64"@ =~= seq!['i'] + seq!['6', '4']);
    assert("u128"@ =~= seq!['u'] + seq!['1', '2', '8']);
    assert("i128"@ =~= seq!['i'] + seq!['1', '2', '8']);
}

/// The length of a scalar type of a schema is the number of bytes of the Rust
/// type of that name: an integer's bits over eight, one byte for a flag, 32 for
/// a public key. `bytesN` is as long as it says.
pub proof fn types_are_as_long_as_in_rust(ty: Seq<char>, records: Entries<RecordV>)
    ensures
        ({
            let t = ascii_lower(ty);
            let len = type_len(ty, records);
            &&& names_integer(t) || t == "bool"@ || t == "pubkey"@ ==> len is Some && rust_bytes(t)
                == Some(len->0 as nat)
            &&& (t == "u8"@ || t == "i8"@ || t == "bool"@) ==> len == Some(1usize)
            &&& (t == "u16"@ || t == "i16"@) ==> len == Some(2usize)
            &&& (t == "u32"@ || t == "i32"@) ==> len == Some(4usize)
            &&& (t == "u64"@ || t == "i64"@) ==> len == Some(8usize)
            &&& (t == "u128"@ || t == "i128"@) ==> len == Some(16usize)
            &&& t == "pubkey"@ ==> len == Some(32usize)
        }),
{
    lemma_names();
    reveal_strlit("bool");
    reveal_strlit("pubkey");
    let t = ascii_lower(ty);
    lemma_bits("u8"@, 'u', seq!['8']);
    lemma_bits("i8"@, 'i', seq!['8']);
    lemma_bits("u16"@, 'u', seq!['1', '6']);
    lemma_bits("i16"@, 'i', seq!['1', '6']);
    lemma_bits("u32"@, 'u', seq!['3', '2']);
    lemma_bits("i32"@, 'i', seq!['3', '2']);
    lemma_bits("u64"@, 'u', seq!['6', '4']);
    lemma_bits("i64"@, 'i', seq!['6', '4']);
    lemma_bits("u128"@, 'u', seq!['1', '2', '8']);
    lemma_bits("i128"@, 'i', seq!['1', '2', '8']);
    lemma_distinct();
}

proof fn lemma_distinct()
    ensures
        "bool"@.len() == 4,
        "pubkey"@.len() == 6,
        "bool"@[0] == 'b',
        "u8"@.len() == 2 && "u8"@[0] == 'u' && "u8"@[1] == '8',
        "i8"@.len() == 2 && "i8"@[0] == 'i' && "i8"@[1] == '8',
        "u16"@.len() == 3 && "u16"@[0] == 'u' && "u16"@[1] == '1',
        "i16"@.len() == 3 && "i16"@[0] == 'i' && "i16"@[1] == '1',
        "u32"@.len() == 3 && "u32"@[0] == 'u' && "u32"@[1] == '3',
        "i32"@.len() == 3 && "i32"@[0] == 'i' && "i32"@[1] == '3',
        "u64"@.len() == 3 && "u64"@[0] == 'u' && "u64"@[1] == '6',
        "i64"@.len() == 3 && "i64"@[0] == 'i' && "i64"@[1] == '6',
        "u128"@.len() == 4 && "u128"@[0] == 'u' && "u128"@[1] == '1',
        "i128"@.len() == 4 && "i128"@[0] == 'i' && "i128"@[1] == '1',
{
    reveal_strlit("bool");
    reveal_strlit("pubkey");
    lemma_names();
}

/// Whether a field is as long as its type, where that is a scalar.
pub open spec fn field_is_sized(f: FieldV) -> bool {
    match rust_bytes(ascii_lower(f.ty)) {
        Some(n) => names_integer(ascii_lower(f.ty)) || ascii_lower(f.ty) == "bool"@ || ascii_lower(
            f.ty,
        ) == "pubkey"@ ==> f.len == n,
        None => true,
    }
}

/// Whether the fields of a record are as long as their types, and, where nothing
/// repeats in it, lie one behind another from its start to its end.
pub open spec fn is_packed(r: RecordV) -> bool {
    &&& forall|i: int| 0 <= i < r.fields.len() ==> field_is_sized(#[trigger] r.fields[i])
    &&& r.repeats.len() == 0 ==> {
        &&& r.fields.len() == 0 ==> r.len == 0
        &&& r.fields.len() > 0 ==> r.fields[0].offset == 0 && r.len == r.fields.last().offset
            + r.fields.last().len
        &&& forall|i: int|
            0 < i < r.fields.len() ==> (#[trigger] r.fields[i]).offset == r.fields[i - 1].offset
                + r.fields[i - 1].len
    }
}

spec fn all_packed(rs: Entries<RecordV>) -> bool {
    forall|i: int| 0 <= i < rs.len() ==> is_packed((#[trigger] rs[i]).1)
}

spec fn parse_packed(p: ParseV) -> bool {
    all_packed(p.schema.records) && match p.open {
        Some((_, r)) => is_packed(r),
        None => true,
    }
}

proof fn lemma_with_packed(rs: Entries<RecordV>, k: Seq<char>, r: RecordV)
    requires
        all_packed(rs),
        is_packed(r),
    ensures
        all_packed(with_entry(rs, k, r)),
    decreases rs.len(),
{
    let out = with_entry(rs, k, r);
    if rs.len() > 0 {
        let front = rs.drop_last();
        assert(all_packed(front));
        assert(is_packed(rs[rs.len() - 1].1));
        lemma_with_packed(front, k, r);
        assert forall|i: int| 0 <= i < out.len() implies is_packed((#[trigger] out[i]).1) by {
            let inner = with_entry(front, k, r);
            if text_lt(k, rs.last().0) {
                if i < inner.len() {
                    assert(out[i] == inner[i]);
                }
            } else if i < front.len() {
                assert(out[i] == rs[i]);
            } else if rs.last().0 != k && i == front.len() {
                assert(out[i] == rs[rs.len() - 1]);
            }
        }
    }
}

proof fn lemma_closed_packed(p: ParseV)
    requires
        parse_packed(p),
    ensures
        parse_packed(closed_record(p)),
{
    if let Some((n, r)) = p.open {
        lemma_with_packed(p.schema.records, n, r);
    }
}

proof fn lemma_field_packed(p: ParseV, name: Seq<char>, ty: Seq<char>)
    requires
        parse_packed(p),
    ensures
        match with_field(p, name, ty) {
            Some(q) => parse_packed(q),
            None => true,
        },
{
    types_are_as_long_as_in_rust(ty, p.schema.records);
    if let Some((n, r)) = p.open {
        if let Some(len) = type_len(ty, p.schema.records) {
            if r.len + len <= usize::MAX {
                let f = FieldV { name, ty, offset: r.len, len };
                let q = RecordV { fields: r.fields.push(f), len: (r.len + len) as usize, ..r };
                assert forall|i: int| 0 <= i < q.fields.len() implies field_is_sized(
                    #[trigger] q.fields[i],
                ) by {
                    if i < r.fields.len() {
                        assert(q.fields[i] == r.fields[i]);
                    }
                }
                assert forall|i: int|
                    0 < i < q.fields.len() && r.repeats.len() == 0 implies (
                #[trigger] q.fields[i]).offset == q.fields[i - 1].offset + q.fields[i - 1].len by {
                    if i < r.fields.len() {
                        assert(q.fields[i] == r.fields[i]);
                        assert(q.fields[i - 1] == r.fields[i - 1]);
                    }
                }
                assert(is_packed(q));
            }
        }
    }
}

proof fn lemma_words_packed(p: ParseV, ws: Seq<Seq<char>>)
    requires
        parse_packed(p),
    ensures
        match after_words(p, ws) {
            Some(q) => parse_packed(q),
            None => true,
        },
{
    lemma_closed_packed(p);
    if ws.len() >= 3 {
        lemma_field_packed(p, ws[1], ws[2]);
    }
    if ws.len() >= 5 {
        if let Some((n, r)) = p.open {
            assert(is_packed(r));
        }
    }
}

proof fn lemma_read_packed(ls: Seq<Seq<char>>, n: nat)
    requires
        n <= ls.len(),
    ensures
        match read_upto(ls, n) {
            Some(p) => parse_packed(p),
            None => true,
        },
    decreases n,
{
    if n > 0 {
        lemma_read_packed(ls, (n - 1) as nat);
        if let Some(p) = read_upto(ls, (n - 1) as nat) {
            lemma_words_packed(p, line_words(ls[n - 1]));
        }
    }
}

/// In every record that is read, a field of a scalar type is as long as the Rust
/// type; and where nothing repeats, the fields fill the record without gaps.
pub proof fn records_are_packed(source: Seq<char>, k: int)
    requires
        schema_of(source) is Some,
        0 <= k < (schema_of(source)->0).records.len(),
    ensures
        is_packed((schema_of(source)->0).records[k].1),
{
    let ls = lines_text(source);
    lemma_read_packed(ls, ls.len());
    if let Some(p) = read_upto(ls, ls.len()) {
        lemma_closed_packed(p);
    }
}

proof fn lemma_params(fs: Seq<FieldV>, rs: Seq<AbiRepeatV>, n: nat, i: int)
    requires
        n <= fs.len(),
        0 <= i < params_upto(fs, rs, n).len(),
    ensures
        exists|k: int|
            0 <= k < n && param_of(#[trigger] fs[k]) == Some(params_upto(fs, rs, n)[i]) && !is_count(
                rs,
                fs[k].name,
            ),
    decreases n,
{
    let before = params_upto(fs, rs, (n - 1) as nat);
    let all = params_upto(fs, rs, n);
    if i < before.len() {
        assert(all[i] == before[i]);
        lemma_params(fs, rs, (n - 1) as nat, i);
    } else {
        assert(param_of(fs[n - 1]) == Some(all[i]));
    }
}

/// A parameter takes the bytes of its field: it starts where the field lies and
/// is as long as its Rust type.
pub proof fn params_are_as_long_as_their_type(r: RecordV, i: int)
    requires
        is_packed(r),
        crate::pinocchio_profile::schema::record_fits(r),
        0 <= i < params_upto(r.fields, r.repeats, r.fields.len()).len(),
    ensures
        ({
            let p = params_upto(r.fields, r.repeats, r.fields.len())[i];
            &&& rust_bytes(p.rust_type) == Some((p.end - p.start) as nat)
            &&& p.start <= p.end <= r.len
            &&& exists|k: int|
                0 <= k < r.fields.len() && (#[trigger] r.fields[k]).offset == p.start
                    && ascii_lower(r.fields[k].ty) == p.rust_type && schema_name(r.fields[k].name)
                    == p.name
        }),
{
    let n = r.fields.len();
    let p = params_upto(r.fields, r.repeats, n)[i];
    lemma_params(r.fields, r.repeats, n, i);
    let k = choose|k: int|
        0 <= k < n && param_of(#[trigger] r.fields[k]) == Some(p) && !is_count(
            r.repeats,
            r.fields[k].name,
        );
    let f = r.fields[k];
    assert(field_is_sized(f));
    assert(f.offset + f.len <= r.len);
    lemma_scalar_sizes(ascii_lower(f.ty));
    assert(r.fields[k].offset == p.start);
}

proof fn lemma_scalar_sizes(t: Seq<char>)
    ensures
        names_integer(t) || t == "bool"@ || t == "pubkey"@ ==> rust_bytes(t) is Some,
{
    lemma_names();
    lemma_bits("u8"@, 'u', seq!['8']);
    lemma_bits("i8"@, 'i', seq!['8']);
    lemma_bits("u16"@, 'u', seq!['1', '6']);
    lemma_bits("i16"@, 'i', seq!['1', '6']);
    lemma_bits("u32"@, 'u', seq!['3', '2']);
    lemma_bits("i32"@, 'i', seq!['3', '2']);
    lemma_bits("u64"@, 'u', seq!['6', '4']);
    lemma_bits("i64"@, 'i', seq!['6', '4']);
    lemma_bits("u128"@, 'u', seq!['1', '2', '8']);
    lemma_bits("i128"@, 'i', seq!['1', '2', '8']);
}

/// A handler that a schema describes has the tag of its instruction, its
/// accounts in the order of the schema, and the parameters of its record.
pub proof fn instructions_describe_handlers(
    h: HandlerV,
    s: SchemaV,
    instruction: Seq<char>,
    tag: u8,
)
    ensures
        ({
            let out = with_instruction(h, s, instruction, tag);
            &&& out.tag == Some(tag)
            &&& out.name == h.name
            &&& match lookup(s.accounts, instruction) {
                Some(xs) => out.accounts.len() == xs.len() && forall|i: int|
                    0 <= i < xs.len() ==> out.accounts[i] == schema_name((#[trigger] xs[i]).name),
                None => out.accounts == h.accounts,
            }
            &&& match lookup(s.instruction_records, instruction) {
                Some(name) => match lookup(s.records, name) {
                    Some(r) => forall|i: int|
                        0 <= i < r.fields.len() && param_type((#[trigger] r.fields[i]).ty) is Some
                            && !is_count(r.repeats, r.fields[i].name) ==> exists|j: int|
                            0 <= j < out.params.len() && (#[trigger] out.params[j]).start
                                == r.fields[i].offset && out.params[j].name == schema_name(
                                r.fields[i].name,
                            ),
                    None => out.params == h.params,
                },
                None => out.params == h.params,
            }
        }),
{
    let out = with_instruction(h, s, instruction, tag);
    if let Some(name) = lookup(s.instruction_records, instruction) {
        if let Some(r) = lookup(s.records, name) {
            assert forall|i: int|
                0 <= i < r.fields.len() && param_type((#[trigger] r.fields[i]).ty) is Some
                    && !is_count(r.repeats, r.fields[i].name) implies exists|j: int|
                0 <= j < out.params.len() && (#[trigger] out.params[j]).start == r.fields[i].offset
                    && out.params[j].name == schema_name(r.fields[i].name) by {
                lemma_param_there(r.fields, r.repeats, r.fields.len(), i);
                let ps = params_upto(r.fields, r.repeats, r.fields.len());
                assert(out.params == ps);
                let j = choose|j: int|
                    0 <= j < ps.len() && (#[trigger] ps[j]).start == r.fields[i].offset
                        && ps[j].name == schema_name(r.fields[i].name);
                assert(out.params[j].start == r.fields[i].offset);
            }
        }
    }
}

proof fn lemma_param_there(fs: Seq<FieldV>, rs: Seq<AbiRepeatV>, n: nat, i: int)
    requires
        0 <= i < n <= fs.len(),
        param_type(fs[i].ty) is Some,
        !is_count(rs, fs[i].name),
    ensures
        exists|j: int|
            0 <= j < params_upto(fs, rs, n).len() && (#[trigger] params_upto(fs, rs, n)[j]).start
                == fs[i].offset && params_upto(fs, rs, n)[j].name == schema_name(fs[i].name),
    decreases n,
{
    let before = params_upto(fs, rs, (n - 1) as nat);
    let all = params_upto(fs, rs, n);
    if i < n - 1 {
        lemma_param_there(fs, rs, (n - 1) as nat, i);
        let j = choose|j: int|
            0 <= j < before.len() && (#[trigger] before[j]).start == fs[i].offset && before[j].name
                == schema_name(fs[i].name);
        assert(all[j] == before[j]);
    } else {
        assert(all[all.len() - 1].start == fs[i].offset);
    }
}

/// A layout names the fields and the repeats of its record in order, each where
/// it lies in the record and as long.
pub proof fn layouts_keep_offsets(
    name: Seq<char>,
    r: RecordV,
    magics: Entries<Seq<char>>,
    i: int,
)
    ensures
        ({
            let out = layout_of(name, r, magics);
            &&& out.name == schema_name(name)
            &&& out.len == r.len
            &&& out.fields.len() == r.fields.len()
            &&& out.repeats.len() == r.repeats.len()
            &&& 0 <= i < r.fields.len() ==> out.fields[i].offset == r.fields[i].offset
                && out.fields[i].len == r.fields[i].len && out.fields[i].ty == r.fields[i].ty
                && out.fields[i].name == schema_name(r.fields[i].name)
            &&& 0 <= i < r.repeats.len() ==> out.repeats[i].offset == r.repeats[i].offset
                && out.repeats[i].item_len == r.repeats[i].item_len && out.repeats[i].name
                == schema_name(r.repeats[i].name) && out.repeats[i].count_field == schema_name(
                r.repeats[i].count_field,
            )
        }),
{
}

/// What each line of a schema declares: a limit, a seed, a magic, the tag of an
/// instruction, the record of an instruction or of an account.
pub proof fn lines_declare(p: ParseV, ws: Seq<Seq<char>>)
    requires
        ws.len() >= 3,
        ascending(p.limits),
        ascending(p.schema.seeds),
        ascending(p.schema.magics),
        ascending(p.schema.instructions),
        ascending(p.schema.instruction_records),
        ascending(p.schema.account_records),
    ensures
        ({
            let out = after_words(p, ws);
            let number = parse_nat(ws[2]);
            &&& ws[0] == "seed"@ ==> out is Some && lookup((out->0).schema.seeds, ws[1]) == Some(
                ws[2],
            )
            &&& ws[0] == "magic"@ ==> out is Some && lookup((out->0).schema.magics, ws[1]) == Some(
                ws[2],
            )
            &&& ws[0] == "instruction_record"@ ==> out is Some && lookup(
                (out->0).schema.instruction_records,
                ws[1],
            ) == Some(ws[2])
            &&& ws[0] == "account_record"@ ==> out is Some && lookup(
                (out->0).schema.account_records,
                ws[1],
            ) == Some(ws[2])
            &&& ws[0] == "instruction"@ && number is Some && number->0 <= 255 ==> out is Some
                && lookup((out->0).schema.instructions, ws[1]) == Some(number->0 as u8)
            &&& ws[0] == "limit"@ && number is Some && number->0 <= usize::MAX ==> out is Some
                && lookup((out->0).limits, ws[1]) == Some(number->0 as usize)
            &&& ws[0] == "record"@ ==> out is Some && match (out->0).open {
                Some((n, r)) => n == ws[1] && r.fields.len() == 0 && r.repeats.len() == 0 && r.len
                    == 0,
                None => false,
            }
            &&& ws[0] == "field"@ ==> out == with_field(p, ws[1], ws[2])
        }),
{
    reveal_strlit("limit");
    reveal_strlit("seed");
    reveal_strlit("magic");
    reveal_strlit("instruction");
    reveal_strlit("account");
    reveal_strlit("record");
    reveal_strlit("field");
    reveal_strlit("repeat");
    reveal_strlit("instruction_record");
    reveal_strlit("account_record");
    reveal_strlit("end");
    assert("limit"@.len() == 5 && "limit"@[0] == 'l');
    assert("seed"@.len() == 4 && "magic"@.len() == 5 && "magic"@[0] == 'm');
    assert("instruction"@.len() == 11 && "account"@.len() == 7 && "record"@.len() == 6);
    assert("record"@[2] == 'c' && "repeat"@.len() == 6 && "repeat"@[2] == 'p');
    assert("field"@.len() == 5 && "field"@[0] == 'f' && "end"@.len() == 3);
    assert("instruction_record"@.len() == 18 && "account_record"@.len() == 14);
    lookup_with_entry(p.schema.seeds, ws[1], ws[2], ws[1]);
    lookup_with_entry(p.schema.magics, ws[1], ws[2], ws[1]);
    lookup_with_entry(p.schema.instruction_records, ws[1], ws[2], ws[1]);
    lookup_with_entry(p.schema.account_records, ws[1], ws[2], ws[1]);
    if let Some(n) = parse_nat(ws[2]) {
        lookup_with_entry(p.schema.instructions, ws[1], n as u8, ws[1]);
        lookup_with_entry(p.limits, ws[1], n as usize, ws[1]);
    }
}

/// A field lies behind what the open record holds, and makes it longer by its
/// own length; a repeat by as many items as its limit says.
pub proof fn fields_lie_behind_each_other(
    p: ParseV,
    name: Seq<char>,
    ty: Seq<char>,
    max: Seq<char>,
    count: Seq<char>,
)
    requires
        p.open is Some,
        type_len(ty, p.schema.records) is Some,
    ensures
        ({
            let (n, r) = p.open->0;
            let len = type_len(ty, p.schema.records)->0;
            &&& match with_field(p, name, ty) {
                Some(q) => {
                    let (m, t) = q.open->0;
                    &&& q.open is Some && m == n
                    &&& t.len == r.len + len
                    &&& t.fields.len() == r.fields.len() + 1
                    &&& t.fields.last().name == name && t.fields.last().ty == ty
                    &&& t.fields.last().offset == r.len && t.fields.last().len == len
                },
                None => r.len + len > usize::MAX,
            }
            &&& match with_repeat(p, name, ty, max, count) {
                Some(q) => {
                    let (m, t) = q.open->0;
                    &&& q.open is Some && m == n
                    &&& t.repeats.len() == r.repeats.len() + 1
                    &&& t.repeats.last().name == name && t.repeats.last().ty == ty
                    &&& t.repeats.last().count_field == count && t.repeats.last().max_count == max
                    &&& t.repeats.last().offset == r.len && t.repeats.last().item_len == len
                    &&& t.len == r.len + len * count_of(p.limits, max)
                },
                None => r.len + len * count_of(p.limits, max) > usize::MAX,
            }
        }),
{
}

/// What each word behind an account says of its role, where the words before it
/// gave `role`.
pub proof fn role_words(ws: Seq<Seq<char>>, i: int, role: RoleV)
    requires
        0 <= i < ws.len(),
    ensures
        ({
            let t = ascii_lower(trim_end_of(ws[i], ','));
            let rest = |r: RoleV| role_from(ws, i + 1, r);
            &&& t == "signer"@ ==> role_from(ws, i, role) == rest(
                RoleV { is_signer: Some(true), ..role },
            )
            &&& t == "writable"@ || t == "mut"@ || t == "mutable"@ ==> role_from(ws, i, role)
                == rest(RoleV { is_writable: Some(true), ..role })
            &&& t == "readonly"@ || t == "readable"@ ==> role_from(ws, i, role) == rest(
                RoleV { is_writable: Some(false), ..role },
            )
            &&& t == "program"@ ==> role_from(ws, i, role) == rest(
                RoleV { is_program: Some(true), ..role },
            )
            &&& t == "token"@ || t == "mint"@ ==> role_from(ws, i, role) == rest(
                RoleV { account_type: Some(t), ..role },
            )
        }),
{
    reveal_strlit("signer");
    reveal_strlit("writable");
    reveal_strlit("mut");
    reveal_strlit("mutable");
    reveal_strlit("readonly");
    reveal_strlit("readable");
    reveal_strlit("program");
    reveal_strlit("token");
    reveal_strlit("mint");
    assert("signer"@.len() == 6 && "signer"@[0] == 's');
    assert("writable"@.len() == 8 && "writable"@[0] == 'w');
    assert("mut"@.len() == 3 && "mutable"@.len() == 7 && "mutable"@[0] == 'm');
    assert("readonly"@.len() == 8 && "readonly"@[0] == 'r');
    assert("readable"@.len() == 8 && "readable"@[0] == 'r');
    assert("program"@.len() == 7 && "program"@[0] == 'p');
    assert("token"@.len() == 5 && "mint"@.len() == 4);
}

} // verus!
