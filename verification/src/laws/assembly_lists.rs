//! Each item of a list of an assembly program's file stands in the list.
use vstd::prelude::*;

use crate::laws::stands::{stands, stands_left};
use crate::lean::sbpf::{
    abbrev_lines, chunk_lines, const_comments, doc_text, ea_lines, ea_text, error_lines,
    error_name, guard_theorem, guard_theorems, indented, instruction_text, instructions_upto,
    offset_lines, pubkey_lines, sbpf_property_lines, spec_field, spec_fields, OffsetV,
};
use crate::number::{decimal, int_decimal};
use crate::parsed::{ParsedInstruction, ParsedPubkey, ParsedSbpfProperty, ParsedValuedError};
use crate::search::{contains_text, without_char};
use crate::text::ascii_upper;

verus! {

broadcast use crate::text::group_text;

/// Each item of the list stands in it.
pub proof fn indented_stands(parts: Seq<Seq<char>>, n: nat, k: int)
    requires
        0 <= k < n,
    ensures
        contains_text(indented(parts, n), ("    "@ + parts[k] + "\n"@)),
    decreases n,
{
    let before = indented(parts, (n - 1) as nat);
    let item = ("    "@ + parts[k] + "\n"@);
    if k < n - 1 {
        indented_stands(parts, (n - 1) as nat, k);
        stands_left(before, ("    "@ + parts[n - 1] + "\n"@), item);
    } else {
        stands(before, item, Seq::empty());
    }
}

/// Each item of the list stands in it.
pub proof fn abbrev_lines_stands(cs: Seq<(String, String)>, n: nat, k: int)
    requires
        0 <= k < n,
    ensures
        contains_text(abbrev_lines(cs, n), ("abbrev "@ + cs[k].0@ + " : Nat := "@ + without_char(cs[k].1@, '_') + "\n"@)),
    decreases n,
{
    let before = abbrev_lines(cs, (n - 1) as nat);
    let item = ("abbrev "@ + cs[k].0@ + " : Nat := "@ + without_char(cs[k].1@, '_') + "\n"@);
    if k < n - 1 {
        abbrev_lines_stands(cs, (n - 1) as nat, k);
        stands_left(before, ("abbrev "@ + cs[n - 1].0@ + " : Nat := "@ + without_char(cs[n - 1].1@, '_') + "\n"@), item);
    } else {
        stands(before, item, Seq::empty());
    }
}

/// Each item of the list stands in it.
pub proof fn error_lines_stands(es: Seq<ParsedValuedError>, n: nat, k: int)
    requires
        0 <= k < n,
    ensures
        contains_text(error_lines(es, n), (match es[k].value { Some(v) => "abbrev "@ + error_name(es[k].name@) + " : Nat := "@ + decimal(v as nat) + "\n"@, None => Seq::empty(), })),
    decreases n,
{
    let before = error_lines(es, (n - 1) as nat);
    let item = (match es[k].value { Some(v) => "abbrev "@ + error_name(es[k].name@) + " : Nat := "@ + decimal(v as nat) + "\n"@, None => Seq::empty(), });
    if k < n - 1 {
        error_lines_stands(es, (n - 1) as nat, k);
        stands_left(before, (match es[n - 1].value { Some(v) => "abbrev "@ + error_name(es[n - 1].name@) + " : Nat := "@ + decimal(v as nat) + "\n"@, None => Seq::empty(), }), item);
    } else {
        stands(before, item, Seq::empty());
    }
}

/// Each item of the list stands in it.
pub proof fn offset_lines_stands(os: Seq<OffsetV>, n: nat, k: int)
    requires
        0 <= k < n,
    ensures
        contains_text(offset_lines(os, n), ("abbrev "@ + ascii_upper(os[k].name) + " : Int := "@ + int_decimal(os[k].offset) + "\n"@)),
    decreases n,
{
    let before = offset_lines(os, (n - 1) as nat);
    let item = ("abbrev "@ + ascii_upper(os[k].name) + " : Int := "@ + int_decimal(os[k].offset) + "\n"@);
    if k < n - 1 {
        offset_lines_stands(os, (n - 1) as nat, k);
        stands_left(before, ("abbrev "@ + ascii_upper(os[n - 1].name) + " : Int := "@ + int_decimal(os[n - 1].offset) + "\n"@), item);
    } else {
        stands(before, item, Seq::empty());
    }
}

/// Each item of the list stands in it.
pub proof fn ea_lines_stands(os: Seq<OffsetV>, n: nat, k: int)
    requires
        0 <= k < n,
    ensures
        contains_text(ea_lines(os, n), ea_text(os[k])),
    decreases n,
{
    let before = ea_lines(os, (n - 1) as nat);
    let item = ea_text(os[k]);
    if k < n - 1 {
        ea_lines_stands(os, (n - 1) as nat, k);
        stands_left(before, ea_text(os[n - 1]), item);
    } else {
        stands(before, item, Seq::empty());
    }
}

/// Each item of the list stands in it.
pub proof fn guard_theorems_stands(prog: Seq<char>, instr: ParsedInstruction, n: nat, k: int)
    requires
        0 <= k < n,
    ensures
        contains_text(guard_theorems(prog, instr, n), guard_theorem(prog, instr, k as nat)),
    decreases n,
{
    let before = guard_theorems(prog, instr, (n - 1) as nat);
    let item = guard_theorem(prog, instr, k as nat);
    if k < n - 1 {
        guard_theorems_stands(prog, instr, (n - 1) as nat, k);
        stands_left(before, guard_theorem(prog, instr, (n - 1) as nat), item);
    } else {
        stands(before, item, Seq::empty());
    }
}

/// Each item of the list stands in it.
pub proof fn spec_fields_stands(instr: ParsedInstruction, n: nat, k: int)
    requires
        0 <= k < n,
    ensures
        contains_text(spec_fields(instr, n), spec_field(instr, k as nat)),
    decreases n,
{
    let before = spec_fields(instr, (n - 1) as nat);
    let item = spec_field(instr, k as nat);
    if k < n - 1 {
        spec_fields_stands(instr, (n - 1) as nat, k);
        stands_left(before, spec_field(instr, (n - 1) as nat), item);
    } else {
        stands(before, item, Seq::empty());
    }
}

/// Each item of the list stands in it.
pub proof fn sbpf_property_lines_stands(ps: Seq<ParsedSbpfProperty>, n: nat, k: int)
    requires
        0 <= k < n,
    ensures
        contains_text(sbpf_property_lines(ps, n), doc_text(ps[k].doc) + ("theorem "@ + ps[k].name@ + " : True := trivial\n\n"@)),
    decreases n,
{
    let before = sbpf_property_lines(ps, (n - 1) as nat);
    let item = doc_text(ps[k].doc) + ("theorem "@ + ps[k].name@ + " : True := trivial\n\n"@);
    if k < n - 1 {
        sbpf_property_lines_stands(ps, (n - 1) as nat, k);
        stands_left(before, doc_text(ps[n - 1].doc) + ("theorem "@ + ps[n - 1].name@ + " : True := trivial\n\n"@), item);
    } else {
        stands(before, item, Seq::empty());
    }
}

/// Each item of the list stands in it.
pub proof fn instructions_upto_stands(prog: Seq<char>, instrs: Seq<ParsedInstruction>, global_errors: Seq<ParsedValuedError>, n: nat, k: int)
    requires
        0 <= k < n,
    ensures
        contains_text(instructions_upto(prog, instrs, global_errors, n), instruction_text( prog, instrs[k], global_errors, )),
    decreases n,
{
    let before = instructions_upto(prog, instrs, global_errors, (n - 1) as nat);
    let item = instruction_text( prog, instrs[k], global_errors, );
    if k < n - 1 {
        instructions_upto_stands(prog, instrs, global_errors, (n - 1) as nat, k);
        stands_left(before, instruction_text( prog, instrs[n - 1], global_errors, ), item);
    } else {
        stands(before, item, Seq::empty());
    }
}

/// Each item of the list stands in it.
pub proof fn const_comments_stands(cs: Seq<(String, String)>, n: nat, k: int)
    requires
        0 <= k < n,
    ensures
        contains_text(const_comments(cs, n), ("--   "@ + cs[k].0@ + " = "@ + without_char(cs[k].1@, '_') + "\n"@)),
    decreases n,
{
    let before = const_comments(cs, (n - 1) as nat);
    let item = ("--   "@ + cs[k].0@ + " = "@ + without_char(cs[k].1@, '_') + "\n"@);
    if k < n - 1 {
        const_comments_stands(cs, (n - 1) as nat, k);
        stands_left(before, ("--   "@ + cs[n - 1].0@ + " = "@ + without_char(cs[n - 1].1@, '_') + "\n"@), item);
    } else {
        stands(before, item, Seq::empty());
    }
}

/// Each item of the list stands in it.
pub proof fn chunk_lines_stands(pk: ParsedPubkey, n: nat, k: int)
    requires
        0 <= k < n,
    ensures
        contains_text(chunk_lines(pk, n), ("--   PUBKEY_"@ + ascii_upper(pk.name@) + "_CHUNK_"@ + decimal(k as nat) + " = "@ + without_char(pk.chunks@[k]@, '_') + "\n"@)),
    decreases n,
{
    let before = chunk_lines(pk, (n - 1) as nat);
    let item = ("--   PUBKEY_"@ + ascii_upper(pk.name@) + "_CHUNK_"@ + decimal(k as nat) + " = "@ + without_char(pk.chunks@[k]@, '_') + "\n"@);
    if k < n - 1 {
        chunk_lines_stands(pk, (n - 1) as nat, k);
        stands_left(before, ("--   PUBKEY_"@ + ascii_upper(pk.name@) + "_CHUNK_"@ + decimal((n - 1) as nat) + " = "@ + without_char(pk.chunks@[n - 1]@, '_') + "\n"@), item);
    } else {
        stands(before, item, Seq::empty());
    }
}

/// Each item of the list stands in it.
pub proof fn pubkey_lines_stands(pks: Seq<ParsedPubkey>, n: nat, k: int)
    requires
        0 <= k < n,
    ensures
        contains_text(pubkey_lines(pks, n), chunk_lines(pks[k], pks[k].chunks@.len())),
    decreases n,
{
    let before = pubkey_lines(pks, (n - 1) as nat);
    let item = chunk_lines(pks[k], pks[k].chunks@.len());
    if k < n - 1 {
        pubkey_lines_stands(pks, (n - 1) as nat, k);
        stands_left(before, chunk_lines(pks[n - 1], pks[n - 1].chunks@.len()), item);
    } else {
        stands(before, item, Seq::empty());
    }
}

} // verus!
