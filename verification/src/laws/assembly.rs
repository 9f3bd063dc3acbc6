//! What is claimed of an assembly program.
use vstd::prelude::*;

use crate::laws::assembly_lists::{
    abbrev_lines_stands, ea_lines_stands, error_lines_stands, guard_theorems_stands,
    indented_stands, instructions_upto_stands, offset_lines_stands, spec_fields_stands,
};
use crate::laws::stands::{stands, stands_in, stands_left, stands_right, stands_through};
use crate::lean::sbpf::{
    abbrev_lines, addr_text, camel_upto, ea_lines, ea_text, error_lines, error_name,
    error_name_upto, errors_text, fuel_text, guard_checks, guard_hyps, guard_theorem,
    guard_theorems, guards_text, indented, init_text, instr_consts_text, instruction_text,
    instructions_upto, offset_at, offset_lines, offsets, offsets_text, passed, read_text, rhs_text,
    sbpf_text, spec_binders, spec_field, spec_fields, var_name, OffsetV,
};
use crate::number::{decimal, int_decimal};
use crate::outside::is_upper;
use crate::parsed::{ParsedGuard, ParsedInstruction, ParsedSpec, ParsedValuedError};
use crate::pattern::has_text;
use crate::search::{contains_text, without_char};
use crate::split::{split_text, words_text};
use crate::text::{ascii_upper, join_text, upper_char};

verus! {

broadcast use crate::text::group_text;

// ---------------------------------------------------------------------------
// Addresses
// ---------------------------------------------------------------------------

/// A field is read at its distance from the address of the area that it lies in:
/// the instruction data or the input.
pub proof fn fields_are_read_where_they_lie(o: OffsetV)
    ensures
        ({
            let base = if o.is_insn {
                "insnAddr"@
            } else {
                "inputAddr"@
            };
            &&& o.offset == 0 ==> addr_text(o) == base
            &&& o.offset > 0 ==> addr_text(o) == "("@ + base + " + "@ + decimal(o.offset as nat)
                + ")"@
            &&& o.offset < 0 ==> addr_text(o) == "("@ + base + " - "@ + decimal((-o.offset) as nat)
                + ")"@
        }),
        o.ty == "U8"@ ==> read_text(o.ty) == "readU8"@,
        o.ty != "U8"@ ==> read_text(o.ty) == "readU64"@,
{
}

/// The fields of the input come first, then those of the instruction data, each
/// with its offset.
pub proof fn layouts_are_kept(instr: ParsedInstruction, k: int)
    ensures
        offsets(instr).len() == instr.input_layout@.len() + instr.insn_layout@.len(),
        0 <= k < instr.input_layout@.len() ==> ({
            let o = offsets(instr)[k];
            let f = instr.input_layout@[k];
            !o.is_insn && o.name == f.name@ && o.ty == f.field_type@ && o.offset == f.offset
        }),
        0 <= k < instr.insn_layout@.len() ==> ({
            let o = offsets(instr)[instr.input_layout@.len() + k];
            let f = instr.insn_layout@[k];
            o.is_insn && o.name == f.name@ && o.ty == f.field_type@ && o.offset == f.offset
        }),
{
}

/// Every field has a constant with its offset, and a lemma that the constant leads
/// to its address.
pub proof fn offsets_are_declared(os: Seq<OffsetV>, k: int)
    requires
        0 <= k < os.len(),
    ensures
        contains_text(
            offsets_text(os),
            "abbrev "@ + ascii_upper(os[k].name) + " : Int := "@ + int_decimal(os[k].offset)
                + "\n"@,
        ),
        os[k].offset > 0 ==> contains_text(
            offsets_text(os),
            " (b : Nat) : effectiveAddr b "@ + ascii_upper(os[k].name) + " = "@ + "b"@ + " + "@
                + decimal(os[k].offset as nat) + " := by\n  unfold effectiveAddr "@,
        ),
        os[k].offset < 0 ==> contains_text(
            offsets_text(os),
            " (b : Nat) : effectiveAddr b "@ + ascii_upper(os[k].name) + " = "@ + "b"@ + " - "@
                + decimal((-os[k].offset) as nat) + " := by\n  unfold effectiveAddr "@,
        ),
        os[k].offset == 0 ==> contains_text(
            offsets_text(os),
            " (b : Nat) : effectiveAddr b "@ + ascii_upper(os[k].name) + " = "@ + "b"@
                + " := by\n  unfold effectiveAddr "@,
        ),
{
    reveal(offsets_text);
    let n = os.len();
    offset_lines_stands(os, n, k);
    ea_lines_stands(os, n, k);
    let line = "abbrev "@ + ascii_upper(os[k].name) + " : Int := "@ + int_decimal(os[k].offset)
        + "\n"@;
    let x = offset_lines(os, n);
    let y = ea_lines(os, n);
    let a = "-- Offset constants\n"@;
    let m = "\n"@ + "-- Effective address lemmas\n"@;
    assert(offsets_text(os) == a + x + (m + y));
    assert(offsets_text(os) == (a + x + m) + y);
    stands_in(a, x, m + y, line);
    lemma_ea(os[k]);
    let t = " (b : Nat) : effectiveAddr b "@ + ascii_upper(os[k].name) + " = "@
        + crate::lean::sbpf::shifted("b"@, os[k].offset) + " := by\n  unfold effectiveAddr "@;
    stands_through(y, ea_text(os[k]), t);
    stands_right(a + x + m, y, t);
}

proof fn lemma_ea(o: OffsetV)
    ensures
        contains_text(
            ea_text(o),
            " (b : Nat) : effectiveAddr b "@ + ascii_upper(o.name) + " = "@
                + crate::lean::sbpf::shifted("b"@, o.offset) + " := by\n  unfold effectiveAddr "@,
        ),
{
    let name = ascii_upper(o.name);
    let s = crate::lean::sbpf::shifted("b"@, o.offset);
    let t = " (b : Nat) : effectiveAddr b "@ + name + " = "@ + s
        + " := by\n  unfold effectiveAddr "@;
    stands("@[simp] theorem ea_"@ + name, t, name + "; omega\n\n"@);
    assert(ea_text(o) == "@[simp] theorem ea_"@ + name + t + (name + "; omega\n\n"@));
}

// ---------------------------------------------------------------------------
// Guards
// ---------------------------------------------------------------------------

/// Whether a guard checks a field of the layouts against a value: field,
/// operator, value.
pub open spec fn checks_field(
    g: ParsedGuard,
    os: Seq<OffsetV>,
    field: Seq<char>,
    op: Seq<char>,
    rhs: Seq<char>,
    i: int,
) -> bool {
    &&& match g.checks_raw {
        Some(c) => words_text(c@) == seq![field, op, rhs],
        None => g.checks is Some && words_text((g.checks->0)@) == seq![field, op, rhs],
    }
    &&& 0 <= i < os.len()
    &&& os[i].name == field
    &&& forall|j: int| 0 <= j < i ==> (#[trigger] os[j]).name != field
}

proof fn lemma_offset_at(os: Seq<OffsetV>, field: Seq<char>, i: int, from: int)
    requires
        0 <= from <= i < os.len(),
        os[i].name == field,
        forall|j: int| 0 <= j < i ==> (#[trigger] os[j]).name != field,
    ensures
        offset_at(os, field, from) == Some(i),
    decreases i - from,
{
    if from < i {
        lemma_offset_at(os, field, i, from + 1);
    }
}

proof fn lemma_ops()
    ensures
        "=="@ != ">="@,
{
    reveal_strlit("==");
    reveal_strlit(">=");
    assert("=="@[0] == '=' && ">="@[0] == '>');
}

proof fn lemma_hyps(
    g: ParsedGuard,
    os: Seq<OffsetV>,
    field: Seq<char>,
    op: Seq<char>,
    rhs: Seq<char>,
    i: int,
)
    requires
        checks_field(g, os, field, op, rhs, i),
    ensures
        ({
            let v = var_name(field);
            let r = rhs_text(os, rhs);
            let read = read_text(os[i].ty) + " mem "@ + addr_text(os[i]) + " = "@;
            let h = guard_hyps(g, os);
            &&& op == "=="@ || op == ">="@ ==> has_text(
                h.bindings,
                "(h_"@ + v + "_val : "@ + read + v + ")"@,
            )
            &&& op == "=="@ ==> {
                &&& has_text(h.bindings, "(h_"@ + v + "_ne : "@ + v + " ≠ "@ + r + ")"@)
                &&& h.after is Some
                &&& has_text(h.after->0, "(h_"@ + v + " : "@ + read + r + ")"@)
            }
            &&& op == ">="@ ==> {
                &&& has_text(h.bindings, "(h_"@ + v + "_lt : "@ + v + " < "@ + r + ")"@)
                &&& h.after is Some
                &&& has_text(h.after->0, "(h_"@ + v + "_val : "@ + read + v + ")"@)
                &&& has_text(h.after->0, "(h_"@ + v + "_ge : ¬("@ + v + " < "@ + r + "))"@)
            }
        }),
{
    reveal(guard_hyps);
    lemma_ops();
    lemma_offset_at(os, field, i, 0);
    let h = guard_hyps(g, os);
    let v = var_name(field);
    let r = rhs_text(os, rhs);
    let read = read_text(os[i].ty) + " mem "@ + addr_text(os[i]) + " = "@;
    let c = guard_checks(g)->0;
    assert(words_text(c) == seq![field, op, rhs]);
    if op == "=="@ {
        assert(h.bindings[1] == "(h_"@ + v + "_val : "@ + read + v + ")"@);
        assert(h.bindings[h.bindings.len() - 1] == "(h_"@ + v + "_ne : "@ + v + " ≠ "@ + r + ")"@);
        assert((h.after->0)[0] == "(h_"@ + v + " : "@ + read + r + ")"@);
    } else if op == ">="@ {
        assert(h.bindings[1] == "(h_"@ + v + "_val : "@ + read + v + ")"@);
        assert(h.bindings[h.bindings.len() - 1] == "(h_"@ + v + "_lt : "@ + v + " < "@ + r + ")"@);
        let a = h.after->0;
        assert(a[1] == "(h_"@ + v + "_val : "@ + read + v + ")"@);
        assert(a[a.len() - 1] == "(h_"@ + v + "_ge : ¬("@ + v + " < "@ + r + "))"@);
    }
}

proof fn lemma_passed(gs: Seq<ParsedGuard>, os: Seq<OffsetV>, n: nat, j: int, t: Seq<char>)
    requires
        0 <= j < n <= gs.len(),
        guard_hyps(gs[j], os).after is Some,
        has_text(guard_hyps(gs[j], os).after->0, t),
    ensures
        has_text(passed(gs, os, n), t),
    decreases n,
{
    let before = passed(gs, os, (n - 1) as nat);
    let all = passed(gs, os, n);
    if j < n - 1 {
        lemma_passed(gs, os, (n - 1) as nat, j, t);
        let i = choose|i: int| 0 <= i < before.len() && #[trigger] before[i] == t;
        assert(all[i] == t);
    } else {
        let a = guard_hyps(gs[j], os).after->0;
        let i = choose|i: int| 0 <= i < a.len() && #[trigger] a[i] == t;
        assert(all[before.len() + i] == t);
    }
}

proof fn lemma_in_theorem(prog: Seq<char>, instr: ParsedInstruction, i: nat, t: Seq<char>)
    requires
        i < instr.guards@.len(),
        has_text(passed(instr.guards@, offsets(instr), i), t) || has_text(
            guard_hyps(instr.guards@[i as int], offsets(instr)).bindings,
            t,
        ),
    ensures
        contains_text(guard_theorem(prog, instr, i), "    "@ + t + "\n"@),
{
    reveal(guard_theorem);
    let os = offsets(instr);
    let g = instr.guards@[i as int];
    let before = passed(instr.guards@, os, i);
    let hyps = guard_hyps(g, os).bindings;
    let line = "    "@ + t + "\n"@;
    let head = crate::lean::sbpf::doc_text(g.doc) + ("theorem "@ + g.name@ + "\n"@) + (
    if instr.insn_layout@.len() > 0 {
        "    (inputAddr insnAddr : Nat) (mem : Mem)\n"@
    } else {
        "    (inputAddr : Nat) (mem : Mem)\n"@
    });
    let end = "    :\n    (executeFn "@ + prog + ".progAt ("@ + init_text(instr) + ") "@ + fuel_text(g)
        + ").exitCode\n      = some "@ + error_name(g.error@) + " := sorry\n\n"@;
    let x = indented(before, before.len());
    let y = indented(hyps, hyps.len());
    lemma_four(head, x, y, end, guard_theorem(prog, instr, i), line, before, hyps, t);
}

proof fn lemma_four(
    head: Seq<char>,
    x: Seq<char>,
    y: Seq<char>,
    end: Seq<char>,
    all: Seq<char>,
    line: Seq<char>,
    before: Seq<Seq<char>>,
    hyps: Seq<Seq<char>>,
    t: Seq<char>,
)
    requires
        all == head + x + y + end,
        x == indented(before, before.len()),
        y == indented(hyps, hyps.len()),
        has_text(before, t) || has_text(hyps, t),
        line == "    "@ + t + "\n"@,
    ensures
        contains_text(all, line),
{
    if has_text(before, t) {
        let k = choose|k: int| 0 <= k < before.len() && #[trigger] before[k] == t;
        indented_stands(before, before.len(), k);
        stands_in(head, x, y, line);
        stands_left(head + x + y, end, line);
    } else {
        let k = choose|k: int| 0 <= k < hyps.len() && #[trigger] hyps[k] == t;
        indented_stands(hyps, hyps.len(), k);
        stands_in(head + x, y, end, line);
    }
}

/// Where a guard wants a field to equal a value, its theorem supposes that what
/// is read of the field differs from the value; where it wants the field to be at
/// least the value, that it is less.
pub proof fn guards_fail_where_their_check_does(
    prog: Seq<char>,
    instr: ParsedInstruction,
    i: nat,
    field: Seq<char>,
    op: Seq<char>,
    rhs: Seq<char>,
    k: int,
)
    requires
        i < instr.guards@.len(),
        checks_field(instr.guards@[i as int], offsets(instr), field, op, rhs, k),
    ensures
        ({
            let o = offsets(instr)[k];
            let v = var_name(field);
            let r = rhs_text(offsets(instr), rhs);
            let thm = guard_theorem(prog, instr, i);
            &&& op == "=="@ || op == ">="@ ==> contains_text(
                thm,
                "    "@ + ("(h_"@ + v + "_val : "@ + read_text(o.ty) + " mem "@ + addr_text(o)
                    + " = "@ + v + ")"@) + "\n"@,
            )
            &&& op == "=="@ ==> contains_text(
                thm,
                "    "@ + ("(h_"@ + v + "_ne : "@ + v + " ≠ "@ + r + ")"@) + "\n"@,
            )
            &&& op == ">="@ ==> contains_text(
                thm,
                "    "@ + ("(h_"@ + v + "_lt : "@ + v + " < "@ + r + ")"@) + "\n"@,
            )
        }),
{
    let os = offsets(instr);
    let g = instr.guards@[i as int];
    lemma_hyps(g, os, field, op, rhs, k);
    let v = var_name(field);
    let r = rhs_text(os, rhs);
    let read = read_text(os[k].ty) + " mem "@ + addr_text(os[k]) + " = "@;
    if op == "=="@ || op == ">="@ {
        lemma_in_theorem(prog, instr, i, "(h_"@ + v + "_val : "@ + read + v + ")"@);
    }
    if op == "=="@ {
        lemma_in_theorem(prog, instr, i, "(h_"@ + v + "_ne : "@ + v + " ≠ "@ + r + ")"@);
    }
    if op == ">="@ {
        lemma_in_theorem(prog, instr, i, "(h_"@ + v + "_lt : "@ + v + " < "@ + r + ")"@);
    }
}

/// The theorem of a guard supposes that every guard before it let pass: that what
/// it checks for equality is equal, and that what it wants to be at least a value
/// is not less.
pub proof fn guards_before_have_passed(
    prog: Seq<char>,
    instr: ParsedInstruction,
    i: nat,
    j: nat,
    field: Seq<char>,
    op: Seq<char>,
    rhs: Seq<char>,
    k: int,
)
    requires
        j < i < instr.guards@.len(),
        checks_field(instr.guards@[j as int], offsets(instr), field, op, rhs, k),
    ensures
        ({
            let o = offsets(instr)[k];
            let v = var_name(field);
            let r = rhs_text(offsets(instr), rhs);
            let thm = guard_theorem(prog, instr, i);
            &&& op == "=="@ ==> contains_text(
                thm,
                "    "@ + ("(h_"@ + v + " : "@ + read_text(o.ty) + " mem "@ + addr_text(o) + " = "@
                    + r + ")"@) + "\n"@,
            )
            &&& op == ">="@ ==> contains_text(
                thm,
                "    "@ + ("(h_"@ + v + "_ge : ¬("@ + v + " < "@ + r + "))"@) + "\n"@,
            )
        }),
{
    let os = offsets(instr);
    let gs = instr.guards@;
    lemma_hyps(gs[j as int], os, field, op, rhs, k);
    let v = var_name(field);
    let r = rhs_text(os, rhs);
    let read = read_text(os[k].ty) + " mem "@ + addr_text(os[k]) + " = "@;
    if op == "=="@ {
        let t = "(h_"@ + v + " : "@ + read + r + ")"@;
        lemma_passed(gs, os, i, j as int, t);
        lemma_in_theorem(prog, instr, i, t);
    }
    if op == ">="@ {
        let t = "(h_"@ + v + "_ge : ¬("@ + v + " < "@ + r + "))"@;
        lemma_passed(gs, os, i, j as int, t);
        lemma_in_theorem(prog, instr, i, t);
    }
}

/// Every guard has a theorem that the program then exits with the error of the
/// guard, and a field of the structure that says the same.
pub proof fn guards_exit_with_their_error(prog: Seq<char>, instr: ParsedInstruction, i: nat)
    requires
        i < instr.guards@.len(),
    ensures
        ({
            let g = instr.guards@[i as int];
            let all = guards_text(prog, instr);
            &&& contains_text(all, "theorem "@ + g.name@ + "\n"@)
            &&& contains_text(
                all,
                "    :\n    (executeFn "@ + prog + ".progAt ("@ + init_text(instr) + ") "@
                    + fuel_text(g) + ").exitCode\n      = some "@ + error_name(g.error@)
                    + " := sorry\n\n"@,
            )
            &&& contains_text(
                all,
                ",\n    (executeFn progAt ("@ + init_text(instr) + ") "@ + fuel_text(g)
                    + ").exitCode = some "@ + error_name(g.error@) + "\n"@,
            )
            &&& contains_text(all, guard_theorem(prog, instr, i))
            &&& contains_text(all, spec_field(instr, i))
        }),
{
    reveal(guards_text);
    let n = instr.guards@.len();
    let x = guard_theorems(prog, instr, n);
    let y = spec_fields(instr, n);
    guard_theorems_stands(prog, instr, n, i as int);
    spec_fields_stands(instr, n, i as int);
    let all = guards_text(prog, instr);
    lemma_guards(x, y, all, guard_theorem(prog, instr, i), spec_field(instr, i), prog, instr);
    lemma_theorem_parts(prog, instr, i);
    lemma_field_parts(instr, i);
    let g = instr.guards@[i as int];
    stands_through(all, guard_theorem(prog, instr, i), "theorem "@ + g.name@ + "\n"@);
    stands_through(
        all,
        guard_theorem(prog, instr, i),
        "    :\n    (executeFn "@ + prog + ".progAt ("@ + init_text(instr) + ") "@ + fuel_text(g)
            + ").exitCode\n      = some "@ + error_name(g.error@) + " := sorry\n\n"@,
    );
    stands_through(
        all,
        spec_field(instr, i),
        ",\n    (executeFn progAt ("@ + init_text(instr) + ") "@ + fuel_text(g)
            + ").exitCode = some "@ + error_name(g.error@) + "\n"@,
    );
}

proof fn lemma_guards(
    x: Seq<char>,
    y: Seq<char>,
    all: Seq<char>,
    s: Seq<char>,
    t: Seq<char>,
    prog: Seq<char>,
    instr: ParsedInstruction,
)
    requires
        instr.guards@.len() > 0,
        x == guard_theorems(prog, instr, instr.guards@.len()),
        y == spec_fields(instr, instr.guards@.len()),
        all == guards_text(prog, instr),
        contains_text(x, s),
        contains_text(y, t),
    ensures
        contains_text(all, s),
        contains_text(all, t),
{
    reveal(guards_text);
    let a = "-- Guard theorem stubs\n"@
        + "-- Hypotheses derived from checks + layout. Fill proofs with wp_exec.\n\n"@;
    let m = "-- Completeness structure: fill all fields to prove every guard is covered\n"@
        + "structure Spec (progAt : Nat → Option Insn) where\n"@;
    assert(all == a + x + (m + y + "\n"@));
    assert(all == (a + x + m) + y + "\n"@);
    stands_in(a, x, m + y + "\n"@, s);
    stands_in(a + x + m, y, "\n"@, t);
}

proof fn lemma_theorem_parts(prog: Seq<char>, instr: ParsedInstruction, i: nat)
    requires
        i < instr.guards@.len(),
    ensures
        ({
            let g = instr.guards@[i as int];
            let thm = guard_theorem(prog, instr, i);
            &&& contains_text(thm, "theorem "@ + g.name@ + "\n"@)
            &&& contains_text(
                thm,
                "    :\n    (executeFn "@ + prog + ".progAt ("@ + init_text(instr) + ") "@
                    + fuel_text(g) + ").exitCode\n      = some "@ + error_name(g.error@)
                    + " := sorry\n\n"@,
            )
        }),
{
    reveal(guard_theorem);
    let os = offsets(instr);
    let g = instr.guards@[i as int];
    let before = passed(instr.guards@, os, i);
    let hyps = guard_hyps(g, os).bindings;
    let doc = crate::lean::sbpf::doc_text(g.doc);
    let name = "theorem "@ + g.name@ + "\n"@;
    let end = "    :\n    (executeFn "@ + prog + ".progAt ("@ + init_text(instr) + ") "@ + fuel_text(g)
        + ").exitCode\n      = some "@ + error_name(g.error@) + " := sorry\n\n"@;
    let args = if instr.insn_layout@.len() > 0 {
        "    (inputAddr insnAddr : Nat) (mem : Mem)\n"@
    } else {
        "    (inputAddr : Nat) (mem : Mem)\n"@
    };
    let x = indented(before, before.len());
    let y = indented(hyps, hyps.len());
    lemma_six(doc, name, args, x, y, end);
}

proof fn lemma_six(
    a: Seq<char>,
    b: Seq<char>,
    c: Seq<char>,
    d: Seq<char>,
    e: Seq<char>,
    f: Seq<char>,
)
    ensures
        contains_text(a + b + c + d + e + f, b),
        contains_text(a + b + c + d + e + f, f),
{
    stands(a, b, c + d + e + f);
    stands(a + b + c + d + e, f, Seq::empty());
}

proof fn lemma_field_parts(instr: ParsedInstruction, i: nat)
    requires
        i < instr.guards@.len(),
    ensures
        ({
            let g = instr.guards@[i as int];
            contains_text(
                spec_field(instr, i),
                ",\n    (executeFn progAt ("@ + init_text(instr) + ") "@ + fuel_text(g)
                    + ").exitCode = some "@ + error_name(g.error@) + "\n"@,
            )
        }),
{
    reveal(spec_field);
    let g = instr.guards@[i as int];
    let t = ",\n    (executeFn progAt ("@ + init_text(instr) + ") "@ + fuel_text(g)
        + ").exitCode = some "@ + error_name(g.error@) + "\n"@;
    stands(
        "  "@ + g.name@ + " :\n    ∀ "@ + join_text(spec_binders(instr, i), " "@),
        t,
        Seq::empty(),
    );
}

/// A guard runs for as many steps as it says, and starts at the entry of its
/// instruction.
pub proof fn guards_start_at_the_entry(g: ParsedGuard, instr: ParsedInstruction)
    ensures
        g.fuel is Some ==> fuel_text(g) == decimal(g.fuel->0 as nat),
        instr.insn_layout@.len() == 0 ==> init_text(instr) == "initState inputAddr mem"@,
        instr.insn_layout@.len() > 0 && instr.entry is Some ==> init_text(instr)
            == "initState2 inputAddr insnAddr mem "@ + decimal(instr.entry->0 as nat),
{
}

// ---------------------------------------------------------------------------
// Names and constants
// ---------------------------------------------------------------------------

/// Names that no underscore parts stay; of two words the second is capitalised
/// and put behind the first.
pub proof fn variables_are_camel_case(a: Seq<char>, b: Seq<char>)
    requires
        !a.contains('_'),
        !b.contains('_'),
        b.len() > 0,
    ensures
        var_name(a) == a,
        var_name(a + seq!['_'] + b) == a + seq![upper_char(b[0])] + b.drop_first(),
{
    let s = a + seq!['_'] + b;
    crate::search::lemma_char_at_or_after(a, '_', 0);
    if let Some(i) = crate::search::char_at_or_after(a, '_', 0) {
        assert(a.contains(a[i]));
    }
    crate::search::lemma_char_at_or_after(s, '_', 0);
    assert(s[a.len() as int] == '_');
    assert forall|i: int| 0 <= i < a.len() implies s[i] != '_' by {
        assert(a.contains(a[i]));
    }
    let i = crate::search::char_at_or_after(s, '_', 0)->0;
    assert(i == a.len());
    crate::search::lemma_char_at_or_after(s, '_', i + 1);
    if let Some(j) = crate::search::char_at_or_after(s, '_', i + 1) {
        assert(b[j - a.len() - 1] == s[j]);
        assert(b.contains(b[j - a.len() - 1]));
    }
    assert(s.subrange(0, i) =~= a);
    assert(s.subrange(i + 1, s.len() as int) =~= b);
    reveal_with_fuel(crate::split::split_from, 3);
    assert(split_text(s, '_') =~= seq![a, b]);
    reveal_with_fuel(camel_upto, 3);
}

/// The constant of an error is its name in upper case behind `E_`, with an
/// underscore before every word but the first.
pub proof fn errors_are_upper_case(s: Seq<char>, c: char)
    ensures
        error_name(Seq::<char>::empty()) == "E_"@,
        error_name(seq![c]) == "E_"@.push(upper_char(c)),
        s.len() > 0 && is_upper(c) && !is_upper(s.last()) ==> error_name(s.push(c)) == error_name(
            s,
        ).push('_').push(upper_char(c)),
        s.len() > 0 && (!is_upper(c) || is_upper(s.last())) ==> error_name(s.push(c)) == error_name(
            s,
        ).push(upper_char(c)),
{
    reveal_with_fuel(error_name_upto, 2);
    lemma_same_errors(s, s.push(c), s.len());
}

proof fn lemma_same_errors(s: Seq<char>, t: Seq<char>, n: nat)
    requires
        n <= s.len() <= t.len(),
        s =~= t.subrange(0, s.len() as int),
    ensures
        error_name_upto(s, n) == error_name_upto(t, n),
    decreases n,
{
    if n > 0 {
        lemma_same_errors(s, t, (n - 1) as nat);
        assert(s[n - 1] == t[n - 1]);
        if n >= 2 {
            assert(s[n - 2] == t[n - 2]);
        }
    }
}

/// Errors and constants of an instruction have their values; where the
/// instruction has no errors of its own, those of the program stand for them.
pub proof fn instructions_declare_their_constants(
    prog: Seq<char>,
    instr: ParsedInstruction,
    global_errors: Seq<ParsedValuedError>,
    k: int,
)
    ensures
        ({
            let all = instruction_text(prog, instr, global_errors);
            &&& 0 <= k < instr.constants@.len() ==> contains_text(
                all,
                "abbrev "@ + instr.constants@[k].0@ + " : Nat := "@ + without_char(
                    instr.constants@[k].1@,
                    '_',
                ) + "\n"@,
            )
            &&& 0 <= k < instr.errors@.len() && instr.errors@[k].value is Some ==> contains_text(
                all,
                "abbrev "@ + error_name(instr.errors@[k].name@) + " : Nat := "@ + decimal(
                    instr.errors@[k].value->0 as nat,
                ) + "\n"@,
            )
            &&& instr.errors@.len() == 0 && 0 <= k < global_errors.len()
                && global_errors[k].value is Some ==> contains_text(
                all,
                "abbrev "@ + error_name(global_errors[k].name@) + " : Nat := "@ + decimal(
                    global_errors[k].value->0 as nat,
                ) + "\n"@,
            )
            &&& contains_text(all, offsets_text(offsets(instr)))
            &&& contains_text(all, guards_text(prog, instr))
        }),
{
    let es = if instr.errors@.len() > 0 {
        instr.errors@
    } else {
        global_errors
    };
    let all = instruction_text(prog, instr, global_errors);
    let cs = instr.constants@;
    lemma_sections(prog, instr, global_errors);
    if 0 <= k < cs.len() {
        abbrev_lines_stands(cs, cs.len(), k);
        let t = "abbrev "@ + cs[k].0@ + " : Nat := "@ + without_char(cs[k].1@, '_') + "\n"@;
        stands_in("-- Instruction-level constants\n"@, abbrev_lines(cs, cs.len()), "\n"@, t);
        stands_through(all, instr_consts_text(cs), t);
    }
    if 0 <= k < es.len() && es[k].value is Some {
        error_lines_stands(es, es.len(), k);
        let t = "abbrev "@ + error_name(es[k].name@) + " : Nat := "@ + decimal(
            es[k].value->0 as nat,
        ) + "\n"@;
        stands_in("-- Error constants\n"@, error_lines(es, es.len()), "\n"@, t);
        stands_through(all, errors_text(es), t);
    }
}

proof fn lemma_sections(
    prog: Seq<char>,
    instr: ParsedInstruction,
    global_errors: Seq<ParsedValuedError>,
)
    ensures
        ({
            let es = if instr.errors@.len() > 0 {
                instr.errors@
            } else {
                global_errors
            };
            let all = instruction_text(prog, instr, global_errors);
            &&& contains_text(all, instr_consts_text(instr.constants@))
            &&& contains_text(all, errors_text(es))
            &&& contains_text(all, offsets_text(offsets(instr)))
            &&& contains_text(all, guards_text(prog, instr))
        }),
{
    reveal(instruction_text);
    let es = if instr.errors@.len() > 0 {
        instr.errors@
    } else {
        global_errors
    };
    lemma_seven(
        "namespace "@ + instr.name@ + "\n\n"@,
        instr_consts_text(instr.constants@),
        errors_text(es),
        offsets_text(offsets(instr)),
        guards_text(prog, instr),
        crate::lean::sbpf::sbpf_properties_text(instr.properties@),
        "end "@ + instr.name@ + "\n\n"@,
    );
}

proof fn lemma_seven(
    a: Seq<char>,
    b: Seq<char>,
    c: Seq<char>,
    d: Seq<char>,
    e: Seq<char>,
    f: Seq<char>,
    g: Seq<char>,
)
    ensures
        contains_text(a + b + c + d + e + f + g, b),
        contains_text(a + b + c + d + e + f + g, c),
        contains_text(a + b + c + d + e + f + g, d),
        contains_text(a + b + c + d + e + f + g, e),
{
    stands(a, b, c + d + e + f + g);
    stands(a + b, c, d + e + f + g);
    stands(a + b + c, d, e + f + g);
    stands(a + b + c + d, e, f + g);
}

/// The file of an assembly program holds the section of every instruction, about
/// the module that is named after the program.
pub proof fn every_instruction_has_a_section(spec: ParsedSpec, k: int)
    requires
        0 <= k < spec.instructions@.len(),
    ensures
        contains_text(
            sbpf_text(spec),
            instruction_text(
                spec.program_name@ + "Prog"@,
                spec.instructions@[k],
                spec.valued_errors@,
            ),
        ),
        contains_text(
            sbpf_text(spec),
            "import "@ + (spec.program_name@ + "Prog"@) + "\n\n"@ + "open QEDGen.Solana.SBPF\n"@,
        ),
{
    reveal(sbpf_text);
    let prog = spec.program_name@ + "Prog"@;
    let n = spec.instructions@.len();
    instructions_upto_stands(prog, spec.instructions@, spec.valued_errors@, n, k);
    let a = "-- Generated by qedgen lean-gen from "@ + crate::outside::lower_text(spec.program_name@)
        + crate::lean::sbpf::SBPF_NOTE@;
    let imports = "import "@ + prog + "\n\n"@ + "open QEDGen.Solana.SBPF\n"@;
    let rest = crate::lean::sbpf::globals_text(spec.constants@)
        + crate::lean::sbpf::pubkeys_text(spec.pubkeys@);
    let all = instructions_upto(prog, spec.instructions@, spec.valued_errors@, n);
    lemma_file(
        a,
        imports,
        "open QEDGen.Solana.SBPF.Memory\n\n"@,
        rest,
        all,
        instruction_text(prog, spec.instructions@[k], spec.valued_errors@),
    );
    assert(sbpf_text(spec) == a + ("import QEDGen\n"@ + imports
        + "open QEDGen.Solana.SBPF.Memory\n\n"@) + rest + all);
}

proof fn lemma_file(
    a: Seq<char>,
    imports: Seq<char>,
    m: Seq<char>,
    rest: Seq<char>,
    all: Seq<char>,
    t: Seq<char>,
)
    requires
        contains_text(all, t),
    ensures
        contains_text(a + ("import QEDGen\n"@ + imports + m) + rest + all, t),
        contains_text(a + ("import QEDGen\n"@ + imports + m) + rest + all, imports),
{
    stands_right(a + ("import QEDGen\n"@ + imports + m) + rest, all, t);
    stands(a + "import QEDGen\n"@, imports, m + rest + all);
}

} // verus!
