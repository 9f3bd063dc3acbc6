//! Assembly specs: offsets, guards and properties of each instruction.
use vstd::prelude::*;

use crate::number::{
    decimal, decimal_string, int_decimal, int_string, magnitude, magnitude_of, push_decimal,
};
use crate::outside::{is_upper, is_uppercase, lower_text, to_lowercase};
use crate::parsed::{
    ParsedGuard, ParsedInstruction, ParsedLayoutField, ParsedPubkey, ParsedSbpfProperty,
    ParsedSpec, ParsedValuedError,
};
use crate::search::{drop_char, starts_with, starts_with_text, strip_prefix, without_char, without_prefix};
use crate::split::{split, split_text, trim, trim_text, words, words_text};
use crate::text::{
    ascii_upper, chars_of, copy_strings, join, join_text, same, slice_text, texts,
    to_ascii_upper, to_upper_char, upper_char,
};

verus! {

broadcast use {crate::text::group_text, crate::text::texts_index, crate::text::texts_len};

// ---------------------------------------------------------------------------
// Names
// ---------------------------------------------------------------------------

/// The first `n` characters of an error's name in capitals, with an underscore
/// before each word.
pub open spec fn error_name_upto(s: Seq<char>, n: nat) -> Seq<char>
    decreases n,
{
    if n == 0 {
        "E_"@
    } else {
        let before = error_name_upto(s, (n - 1) as nat);
        let c = s[n - 1];
        let parted = if n >= 2 && is_upper(c) && !is_upper(s[n - 2]) {
            before.push('_')
        } else {
            before
        };
        parted.push(upper_char(c))
    }
}

/// The Lean constant of an error: `InvalidAmount` is `E_INVALID_AMOUNT`.
pub open spec fn error_name(s: Seq<char>) -> Seq<char> {
    error_name_upto(s, s.len())
}

pub fn error_to_lean_name(name: &str) -> (r: String)
    ensures
        r@ == error_name(name@),
{
    let v = chars_of(name);
    let mut out = "E_".to_owned();
    for i in 0..v.len()
        invariant
            v@ == name@,
            out@ == error_name_upto(name@, i as nat),
    {
        if i > 0 && is_uppercase(v[i]) && !is_uppercase(v[i - 1]) {
            out.push('_');
        }
        out.push(to_upper_char(v[i]));
    }
    out
}

/// A word with its first letter in upper case.
pub open spec fn capitalized(s: Seq<char>) -> Seq<char> {
    if s.len() == 0 {
        s
    } else {
        seq![upper_char(s[0])] + s.drop_first()
    }
}

/// The first word, and the next `n - 1` capitalised behind it.
pub open spec fn camel_upto(parts: Seq<Seq<char>>, n: nat) -> Seq<char>
    decreases n,
{
    if n == 0 {
        Seq::empty()
    } else if n == 1 {
        parts[0]
    } else {
        camel_upto(parts, (n - 1) as nat) + capitalized(parts[n - 1])
    }
}

/// The variable of a field: `snake_case` as `camelCase`.
pub open spec fn var_name(s: Seq<char>) -> Seq<char> {
    let parts = split_text(s, '_');
    if parts.len() <= 1 {
        s
    } else {
        camel_upto(parts, parts.len())
    }
}

pub fn field_name_to_var(name: &str) -> (r: String)
    ensures
        r@ == var_name(name@),
{
    let parts = split(name, '_');
    if parts.len() <= 1 {
        return name.to_owned();
    }
    let mut out = parts[0].clone();
    let n: usize = parts.len();
    for i in 1..n
        invariant
            n == parts@.len(),
            n > 1,
            out@ == camel_upto(texts(parts@), i as nat),
    {
        let v = chars_of(&parts[i]);
        if v.len() > 0 {
            let ghost base = out@;
            out.push(to_upper_char(v[0]));
            let rest = slice_text(&v, 1, v.len());
            out.push_str(&rest);
            proof {
                assert(v@.subrange(1, v.len() as int) =~= v@.drop_first());
                assert(out@ =~= base + capitalized(v@));
            }
        } else {
            proof {
                assert(out@ =~= out@ + capitalized(v@));
            }
        }
    }
    out
}

/// A hypothesis whose name is marked as unused.
pub open spec fn unused_text(b: Seq<char>) -> Seq<char> {
    match without_prefix(b, "(h_"@) {
        Some(rest) => "(_h_"@ + rest,
        None => b,
    }
}

pub fn prefix_unused_binder(b: &str) -> (r: String)
    ensures
        r@ == unused_text(b@),
{
    match strip_prefix(b, "(h_") {
        Some(rest) => {
            let mut out = "(_h_".to_owned();
            out.push_str(&rest);
            out
        },
        None => b.to_owned(),
    }
}

// ---------------------------------------------------------------------------
// Layouts
// ---------------------------------------------------------------------------

/// A field of a layout, and whether it belongs to the instruction data.
pub struct Offset<'a> {
    pub field: &'a ParsedLayoutField,
    pub is_insn: bool,
}

/// A field of a layout, and whether it belongs to the instruction data.
pub struct OffsetV {
    pub name: Seq<char>,
    pub ty: Seq<char>,
    pub offset: int,
    pub is_insn: bool,
}

pub open spec fn field_view(f: ParsedLayoutField, is_insn: bool) -> OffsetV {
    OffsetV { name: f.name@, ty: f.field_type@, offset: f.offset as int, is_insn }
}

pub open spec fn offset_view(o: Offset) -> OffsetV {
    field_view(*o.field, o.is_insn)
}

pub open spec fn offset_views(os: Seq<Offset>) -> Seq<OffsetV> {
    Seq::new(os.len(), |i: int| offset_view(os[i]))
}

/// The fields of the input, then those of the instruction data.
pub open spec fn offsets(instr: ParsedInstruction) -> Seq<OffsetV> {
    Seq::new(instr.input_layout@.len(), |i: int| field_view(instr.input_layout@[i], false))
        + Seq::new(instr.insn_layout@.len(), |i: int| field_view(instr.insn_layout@[i], true))
}

fn all_offsets<'a>(instr: &'a ParsedInstruction) -> (r: Vec<Offset<'a>>)
    ensures
        offset_views(r@) == offsets(*instr),
{
    let mut out: Vec<Offset<'a>> = Vec::new();
    for i in 0..instr.input_layout.len()
        invariant
            out@.len() == i,
            forall|k: int|
                0 <= k < i ==> offset_view(#[trigger] out@[k]) == field_view(
                    instr.input_layout@[k],
                    false,
                ),
    {
        out.push(Offset { field: &instr.input_layout[i], is_insn: false });
    }
    let n: usize = out.len();
    for i in 0..instr.insn_layout.len()
        invariant
            n == instr.input_layout@.len(),
            out@.len() == n + i,
            forall|k: int|
                0 <= k < n ==> offset_view(#[trigger] out@[k]) == field_view(
                    instr.input_layout@[k],
                    false,
                ),
            forall|k: int|
                n <= k < n + i ==> offset_view(#[trigger] out@[k]) == field_view(
                    instr.insn_layout@[k - n],
                    true,
                ),
    {
        out.push(Offset { field: &instr.insn_layout[i], is_insn: true });
    }
    proof {
        assert(offset_views(out@) =~= offsets(*instr));
    }
    out
}

/// The first field from `from` on that has the name.
pub open spec fn offset_at(os: Seq<OffsetV>, name: Seq<char>, from: int) -> Option<int>
    decreases os.len() - from,
{
    if from < 0 || from >= os.len() {
        None
    } else if os[from].name == name {
        Some(from)
    } else {
        offset_at(os, name, from + 1)
    }
}

fn find_offset(os: &Vec<Offset>, name: &str) -> (r: Option<usize>)
    ensures
        match r {
            Some(i) => i < os@.len() && offset_at(offset_views(os@), name@, 0) == Some(i as int),
            None => offset_at(offset_views(os@), name@, 0) is None,
        },
{
    let mut i: usize = 0;
    while i < os.len()
        invariant
            i <= os@.len(),
            offset_at(offset_views(os@), name@, 0) == offset_at(
                offset_views(os@),
                name@,
                i as int,
            ),
        decreases os@.len() - i,
    {
        if same(&os[i].field.name, name) {
            return Some(i);
        }
        i = i + 1;
    }
    None
}

/// A base with an offset.
pub open spec fn shifted(base: Seq<char>, offset: int) -> Seq<char> {
    if offset == 0 {
        base
    } else if offset > 0 {
        base + " + "@ + decimal(magnitude(offset))
    } else {
        base + " - "@ + decimal(magnitude(offset))
    }
}

fn shift(base: &str, offset: i64) -> (r: String)
    ensures
        r@ == shifted(base@, offset as int),
{
    let mut out = base.to_owned();
    if offset > 0 {
        out.push_str(" + ");
        push_decimal(&mut out, magnitude_of(offset));
    } else if offset < 0 {
        out.push_str(" - ");
        push_decimal(&mut out, magnitude_of(offset));
    }
    out
}

/// The register that a field is read from.
pub open spec fn base_text(is_insn: bool) -> Seq<char> {
    if is_insn {
        "insnAddr"@
    } else {
        "inputAddr"@
    }
}

/// The address of a field.
pub open spec fn addr_text(o: OffsetV) -> Seq<char> {
    if o.offset == 0 {
        base_text(o.is_insn)
    } else {
        "("@ + shifted(base_text(o.is_insn), o.offset) + ")"@
    }
}

fn addr_string(o: &Offset) -> (r: String)
    ensures
        r@ == addr_text(offset_view(*o)),
{
    let base: &str = if o.is_insn {
        "insnAddr"
    } else {
        "inputAddr"
    };
    if o.field.offset == 0 {
        base.to_owned()
    } else {
        let inner = shift(base, o.field.offset);
        let mut out = "(".to_owned();
        out.push_str(&inner);
        out.push_str(")");
        out
    }
}

/// The function that reads a field: bytes apart, everything is read by words.
pub open spec fn read_text(ty: Seq<char>) -> Seq<char> {
    if ty == "U8"@ {
        "readU8"@
    } else {
        "readU64"@
    }
}

fn read_fn(ty: &str) -> (r: &'static str)
    ensures
        r@ == read_text(ty@),
{
    if same(ty, "U8") {
        "readU8"
    } else {
        "readU64"
    }
}

// ---------------------------------------------------------------------------
// Guards
// ---------------------------------------------------------------------------

/// The hypotheses of a guard's theorem, and what holds where the guard lets
/// pass.
pub struct Hypotheses {
    pub bindings: Vec<String>,
    pub after: Option<Vec<String>>,
}

/// The hypotheses of a guard's theorem, and what holds where the guard lets
/// pass.
pub struct HypothesesV {
    pub bindings: Seq<Seq<char>>,
    pub after: Option<Seq<Seq<char>>>,
}

pub open spec fn hyps_view(h: Hypotheses) -> HypothesesV {
    HypothesesV {
        bindings: texts(h.bindings@),
        after: match h.after {
            Some(a) => Some(texts(a@)),
            None => None,
        },
    }
}

/// The check of a guard: as written where that is known.
pub open spec fn guard_checks(g: ParsedGuard) -> Option<Seq<char>> {
    match g.checks_raw {
        Some(c) => Some(c@),
        None => match g.checks {
            Some(c) => Some(c@),
            None => None,
        },
    }
}

/// A variable for a field, and the hypothesis that it holds the field's value.
pub open spec fn read_bindings(name: Seq<char>, o: OffsetV) -> Seq<Seq<char>> {
    let v = var_name(name);
    seq![
        "("@ + v + " : Nat)"@,
        "(h_"@ + v + "_val : "@ + read_text(o.ty) + " mem "@ + addr_text(o) + " = "@ + v + ")"@,
    ]
}

fn push_read_bindings(out: &mut Vec<String>, name: &str, o: &Offset)
    ensures
        texts(final(out)@) == texts(old(out)@) + read_bindings(name@, offset_view(*o)),
{
    let v = field_name_to_var(name);
    let addr = addr_string(o);
    let mut a = "(".to_owned();
    a.push_str(&v);
    a.push_str(" : Nat)");
    let mut b = "(h_".to_owned();
    b.push_str(&v);
    b.push_str("_val : ");
    b.push_str(read_fn(&o.field.field_type));
    b.push_str(" mem ");
    b.push_str(&addr);
    b.push_str(" = ");
    b.push_str(&v);
    b.push_str(")");
    let ghost before = texts(out@);
    let ghost a0 = a@;
    let ghost b0 = b@;
    out.push(a);
    out.push(b);
    proof {
        assert(texts(out@) =~= before + seq![a0, b0]);
    }
}

/// A guard of which the hypotheses are left to the reader.
pub open spec fn open_hyps(checks: Seq<char>) -> HypothesesV {
    HypothesesV { bindings: seq!["-- TODO: derive hypotheses for checks: "@ + checks], after: None }
}

/// What the right-hand side of a check stands for: the variable of a field, or
/// a constant by name.
pub open spec fn rhs_text(os: Seq<OffsetV>, rhs: Seq<char>) -> Seq<char> {
    match offset_at(os, rhs, 0) {
        Some(i) => var_name(rhs),
        None => rhs,
    }
}

/// The bindings for the right-hand side of a check.
pub open spec fn rhs_bindings(os: Seq<OffsetV>, rhs: Seq<char>) -> Seq<Seq<char>> {
    match offset_at(os, rhs, 0) {
        Some(i) => read_bindings(rhs, os[i]),
        None => Seq::empty(),
    }
}

/// The hypotheses of a check `field == value`.
pub open spec fn equal_hyps(
    os: Seq<OffsetV>,
    field: Seq<char>,
    o: OffsetV,
    rhs: Seq<char>,
) -> HypothesesV {
    let v = var_name(field);
    let r = rhs_text(os, rhs);
    HypothesesV {
        bindings: (read_bindings(field, o) + rhs_bindings(os, rhs)).push(
            "(h_"@ + v + "_ne : "@ + v + " ≠ "@ + r + ")"@,
        ),
        after: Some(seq!["(h_"@ + v + " : "@ + read_text(o.ty) + " mem "@ + addr_text(o) + " = "@ + r + ")"@]),
    }
}

/// The hypotheses of a check `field >= value`.
pub open spec fn at_least_hyps(
    os: Seq<OffsetV>,
    field: Seq<char>,
    o: OffsetV,
    rhs: Seq<char>,
) -> HypothesesV {
    let v = var_name(field);
    let r = rhs_text(os, rhs);
    let reads = read_bindings(field, o) + rhs_bindings(os, rhs);
    HypothesesV {
        bindings: reads.push("(h_"@ + v + "_lt : "@ + v + " < "@ + r + ")"@),
        after: Some(reads.push("(h_"@ + v + "_ge : ¬("@ + v + " < "@ + r + "))"@)),
    }
}

/// The hypotheses of a guard, from its check and the layouts. A check is a
/// field, an operator and a value; any other is left to the reader.
#[verifier::opaque]
pub open spec fn guard_hyps(g: ParsedGuard, os: Seq<OffsetV>) -> HypothesesV {
    match guard_checks(g) {
        None => HypothesesV {
            bindings: seq!["-- TODO: add guard-specific hypotheses"@],
            after: None,
        },
        Some(checks) => {
            let parts = words_text(checks);
            if parts.len() == 3 {
                match offset_at(os, parts[0], 0) {
                    Some(i) => if parts[1] == "=="@ {
                        equal_hyps(os, parts[0], os[i], parts[2])
                    } else if parts[1] == ">="@ {
                        at_least_hyps(os, parts[0], os[i], parts[2])
                    } else {
                        open_hyps(checks)
                    },
                    None => open_hyps(checks),
                }
            } else {
                open_hyps(checks)
            }
        },
    }
}

fn open_hypotheses(checks: &str) -> (r: Hypotheses)
    ensures
        hyps_view(r) == open_hyps(checks@),
{
    let mut t = "-- TODO: derive hypotheses for checks: ".to_owned();
    t.push_str(checks);
    let mut bindings: Vec<String> = Vec::new();
    bindings.push(t);
    Hypotheses { bindings, after: None }
}

fn compare_hypotheses(os: &Vec<Offset>, field: &str, i: usize, rhs: &str, equal: bool) -> (r:
    Hypotheses)
    requires
        i < os@.len(),
    ensures
        hyps_view(r) == if equal {
            equal_hyps(offset_views(os@), field@, offset_view(os@[i as int]), rhs@)
        } else {
            at_least_hyps(offset_views(os@), field@, offset_view(os@[i as int]), rhs@)
        },
{
    let v = field_name_to_var(field);
    let mut reads: Vec<String> = Vec::new();
    push_read_bindings(&mut reads, field, &os[i]);
    let ghost o = offset_view(os@[i as int]);
    proof {
        assert(Seq::<Seq<char>>::empty() + read_bindings(field@, o) =~= read_bindings(field@, o));
    }
    let r: String = match find_offset(os, rhs) {
        Some(k) => {
            push_read_bindings(&mut reads, rhs, &os[k]);
            field_name_to_var(rhs)
        },
        None => {
            proof {
                assert(read_bindings(field@, o) + Seq::<Seq<char>>::empty() =~= read_bindings(
                    field@,
                    o,
                ));
            }
            rhs.to_owned()
        },
    };
    let mut bindings = copy_strings(&reads);
    if equal {
        let mut b = "(h_".to_owned();
        b.push_str(&v);
        b.push_str("_ne : ");
        b.push_str(&v);
        b.push_str(" ≠ ");
        b.push_str(&r);
        b.push_str(")");
        bindings.push(b);
        let addr = addr_string(&os[i]);
        let mut a = "(h_".to_owned();
        a.push_str(&v);
        a.push_str(" : ");
        a.push_str(read_fn(&os[i].field.field_type));
        a.push_str(" mem ");
        a.push_str(&addr);
        a.push_str(" = ");
        a.push_str(&r);
        a.push_str(")");
        let mut after: Vec<String> = Vec::new();
        after.push(a);
        Hypotheses { bindings, after: Some(after) }
    } else {
        let mut b = "(h_".to_owned();
        b.push_str(&v);
        b.push_str("_lt : ");
        b.push_str(&v);
        b.push_str(" < ");
        b.push_str(&r);
        b.push_str(")");
        bindings.push(b);
        let mut a = "(h_".to_owned();
        a.push_str(&v);
        a.push_str("_ge : ¬(");
        a.push_str(&v);
        a.push_str(" < ");
        a.push_str(&r);
        a.push_str("))");
        let mut after = reads;
        after.push(a);
        Hypotheses { bindings, after: Some(after) }
    }
}

/// Derives the hypotheses of a guard from its check and the layouts.
pub fn derive_guard_hypotheses(g: &ParsedGuard, os: &Vec<Offset>) -> (r: Hypotheses)
    ensures
        hyps_view(r) == guard_hyps(*g, offset_views(os@)),
{
    proof {
        reveal(guard_hyps);
    }
    let checks: &String = match &g.checks_raw {
        Some(c) => c,
        None => match &g.checks {
            Some(c) => c,
            None => {
                let mut bindings: Vec<String> = Vec::new();
                bindings.push("-- TODO: add guard-specific hypotheses".to_owned());
                return Hypotheses { bindings, after: None };
            },
        },
    };
    let parts = words(checks);
    if parts.len() == 3 {
        match find_offset(os, &parts[0]) {
            Some(i) => {
                if same(&parts[1], "==") {
                    return compare_hypotheses(os, &parts[0], i, &parts[2], true);
                }
                if same(&parts[1], ">=") {
                    return compare_hypotheses(os, &parts[0], i, &parts[2], false);
                }
            },
            None => {},
        }
    }
    open_hypotheses(checks)
}

/// What holds where the first `n` guards let pass.
pub open spec fn passed(gs: Seq<ParsedGuard>, os: Seq<OffsetV>, n: nat) -> Seq<Seq<char>>
    decreases n,
{
    if n == 0 {
        Seq::empty()
    } else {
        let before = passed(gs, os, (n - 1) as nat);
        match guard_hyps(gs[n - 1], os).after {
            Some(a) => before + a,
            None => before,
        }
    }
}

/// Lines of four spaces and a text each.
pub open spec fn indented(parts: Seq<Seq<char>>, n: nat) -> Seq<char>
    decreases n,
{
    if n == 0 {
        Seq::empty()
    } else {
        indented(parts, (n - 1) as nat) + ("    "@ + parts[n - 1] + "\n"@)
    }
}

fn emit_indented(out: &mut String, parts: &Vec<String>)
    ensures
        final(out)@ == old(out)@ + indented(texts(parts@), parts@.len()),
{
    for i in 0..parts.len()
        invariant
            out@ == old(out)@ + indented(texts(parts@), i as nat),
    {
        out.push_str("    ");
        out.push_str(&parts[i]);
        out.push_str("\n");
    }
}

/// The number of steps that a guard may take.
pub open spec fn fuel_text(g: ParsedGuard) -> Seq<char> {
    match g.fuel {
        Some(f) => decimal(f as nat),
        None => "FUEL"@,
    }
}

fn fuel_string(g: &ParsedGuard) -> (r: String)
    ensures
        r@ == fuel_text(*g),
{
    match g.fuel {
        Some(f) => decimal_string(f as u128),
        None => "FUEL".to_owned(),
    }
}

/// A comment, where there is one.
pub open spec fn doc_text(doc: Option<String>) -> Seq<char> {
    match doc {
        Some(d) => "/-- "@ + trim_text(d@) + " -/\n"@,
        None => Seq::empty(),
    }
}

fn emit_doc(out: &mut String, doc: &Option<String>)
    ensures
        final(out)@ == old(out)@ + doc_text(*doc),
{
    match doc {
        Some(d) => {
            let t = trim(d);
            out.push_str("/-- ");
            out.push_str(&t);
            out.push_str(" -/\n");
        },
        None => {},
    }
}

/// The state that execution starts in.
pub open spec fn init_text(instr: ParsedInstruction) -> Seq<char> {
    if instr.insn_layout@.len() > 0 {
        "initState2 inputAddr insnAddr mem "@ + decimal(
            match instr.entry {
                Some(e) => e as nat,
                None => 0,
            },
        )
    } else {
        "initState inputAddr mem"@
    }
}

fn init_string(instr: &ParsedInstruction) -> (r: String)
    ensures
        r@ == init_text(*instr),
{
    if instr.insn_layout.len() > 0 {
        let entry: u64 = match instr.entry {
            Some(e) => e,
            None => 0,
        };
        let mut out = "initState2 inputAddr insnAddr mem ".to_owned();
        push_decimal(&mut out, entry as u128);
        out
    } else {
        "initState inputAddr mem".to_owned()
    }
}

/// The theorem that guard `i` rejects with its error.
#[verifier::opaque]
pub open spec fn guard_theorem(prog: Seq<char>, instr: ParsedInstruction, i: nat) -> Seq<char> {
    let os = offsets(instr);
    let g = instr.guards@[i as int];
    let before = passed(instr.guards@, os, i);
    let hyps = guard_hyps(g, os).bindings;
    doc_text(g.doc) + ("theorem "@ + g.name@ + "\n"@) + (if instr.insn_layout@.len() > 0 {
        "    (inputAddr insnAddr : Nat) (mem : Mem)\n"@
    } else {
        "    (inputAddr : Nat) (mem : Mem)\n"@
    }) + indented(before, before.len()) + indented(hyps, hyps.len())
        + ("    :\n    (executeFn "@ + prog + ".progAt ("@ + init_text(instr) + ") "@ + fuel_text(g) + ").exitCode\n      = some "@ + error_name(g.error@) + " := sorry\n\n"@)
}

fn emit_guard_theorem(
    out: &mut String,
    prog: &str,
    instr: &ParsedInstruction,
    i: usize,
    before: &Vec<String>,
    hyps: &Hypotheses,
)
    requires
        i < instr.guards@.len(),
        texts(before@) == passed(instr.guards@, offsets(*instr), i as nat),
        hyps_view(*hyps) == guard_hyps(instr.guards@[i as int], offsets(*instr)),
    ensures
        final(out)@ == old(out)@ + guard_theorem(prog@, *instr, i as nat),
{
    proof {
        reveal(guard_theorem);
    }
    let g = &instr.guards[i];
    emit_doc(out, &g.doc);
    out.push_str("theorem ");
    out.push_str(&g.name);
    out.push_str("\n");
    if instr.insn_layout.len() > 0 {
        out.push_str("    (inputAddr insnAddr : Nat) (mem : Mem)\n");
    } else {
        out.push_str("    (inputAddr : Nat) (mem : Mem)\n");
    }
    emit_indented(out, before);
    emit_indented(out, &hyps.bindings);
    let init = init_string(instr);
    let fuel = fuel_string(g);
    let err = error_to_lean_name(&g.error);
    out.push_str("    :\n    (executeFn ");
    out.push_str(prog);
    out.push_str(".progAt (");
    out.push_str(&init);
    out.push_str(") ");
    out.push_str(&fuel);
    out.push_str(").exitCode\n      = some ");
    out.push_str(&err);
    out.push_str(" := sorry\n\n");
}

pub open spec fn guard_theorems(prog: Seq<char>, instr: ParsedInstruction, n: nat) -> Seq<char>
    decreases n,
{
    if n == 0 {
        Seq::empty()
    } else {
        guard_theorems(prog, instr, (n - 1) as nat) + guard_theorem(prog, instr, (n - 1) as nat)
    }
}

fn append_after(acc: &mut Vec<String>, hyps: &Hypotheses)
    ensures
        texts(final(acc)@) == match hyps_view(*hyps).after {
            Some(a) => texts(old(acc)@) + a,
            None => texts(old(acc)@),
        },
{
    match &hyps.after {
        Some(after) => {
            proof {
                assert(texts(acc@) + texts(after@).take(0) =~= texts(acc@));
            }
            for k in 0..after.len()
                invariant
                    texts(acc@) == texts(old(acc)@) + texts(after@).take(k as int),
            {
                acc.push(after[k].clone());
                proof {
                    assert(texts(old(acc)@) + texts(after@).take(k + 1) =~= (texts(old(acc)@)
                        + texts(after@).take(k as int)).push(after@[k as int]@));
                }
            }
            proof {
                assert(texts(after@).take(after@.len() as int) =~= texts(after@));
            }
        },
        None => {},
    }
}

fn emit_guard_theorems(out: &mut String, prog: &str, instr: &ParsedInstruction, os: &Vec<Offset>)
    requires
        offset_views(os@) == offsets(*instr),
    ensures
        final(out)@ == old(out)@ + guard_theorems(prog@, *instr, instr.guards@.len()),
{
    let mut acc: Vec<String> = Vec::new();
    for i in 0..instr.guards.len()
        invariant
            offset_views(os@) == offsets(*instr),
            texts(acc@) == passed(instr.guards@, offsets(*instr), i as nat),
            out@ == old(out)@ + guard_theorems(prog@, *instr, i as nat),
    {
        let hyps = derive_guard_hypotheses(&instr.guards[i], os);
        emit_guard_theorem(out, prog, instr, i, &acc, &hyps);
        append_after(&mut acc, &hyps);
    }
}

/// With the first `n` hypotheses, marked as unused.
pub open spec fn with_unused(acc: Seq<Seq<char>>, hs: Seq<Seq<char>>, n: nat) -> Seq<Seq<char>>
    decreases n,
{
    if n == 0 {
        acc
    } else {
        with_unused(acc, hs, (n - 1) as nat).push(unused_text(hs[n - 1]))
    }
}

/// With those of the first `n` hypotheses that are no comments, marked as
/// unused.
pub open spec fn with_stated(acc: Seq<Seq<char>>, hs: Seq<Seq<char>>, n: nat) -> Seq<Seq<char>>
    decreases n,
{
    if n == 0 {
        acc
    } else {
        let before = with_stated(acc, hs, (n - 1) as nat);
        if starts_with_text(hs[n - 1], "--"@) {
            before
        } else {
            before.push(unused_text(hs[n - 1]))
        }
    }
}

/// The binders of guard `i` in the completeness structure.
pub open spec fn spec_binders(instr: ParsedInstruction, i: nat) -> Seq<Seq<char>> {
    let os = offsets(instr);
    let before = passed(instr.guards@, os, i);
    let hyps = guard_hyps(instr.guards@[i as int], os).bindings;
    let a = if instr.insn_layout@.len() > 0 {
        seq!["(inputAddr insnAddr : Nat)"@, "(mem : Mem)"@]
    } else {
        seq!["(inputAddr : Nat)"@, "(mem : Mem)"@]
    };
    with_stated(with_unused(a, before, before.len()), hyps, hyps.len())
}

fn build_spec_binders(
    instr: &ParsedInstruction,
    i: usize,
    before: &Vec<String>,
    hyps: &Hypotheses,
) -> (r: Vec<String>)
    requires
        i < instr.guards@.len(),
        texts(before@) == passed(instr.guards@, offsets(*instr), i as nat),
        hyps_view(*hyps) == guard_hyps(instr.guards@[i as int], offsets(*instr)),
    ensures
        texts(r@) == spec_binders(*instr, i as nat),
{
    let mut out: Vec<String> = Vec::new();
    if instr.insn_layout.len() > 0 {
        out.push("(inputAddr insnAddr : Nat)".to_owned());
    } else {
        out.push("(inputAddr : Nat)".to_owned());
    }
    out.push("(mem : Mem)".to_owned());
    let ghost a = texts(out@);
    proof {
        assert(a =~= if instr.insn_layout@.len() > 0 {
            seq!["(inputAddr insnAddr : Nat)"@, "(mem : Mem)"@]
        } else {
            seq!["(inputAddr : Nat)"@, "(mem : Mem)"@]
        });
    }
    for k in 0..before.len()
        invariant
            texts(out@) == with_unused(a, texts(before@), k as nat),
    {
        out.push(prefix_unused_binder(&before[k]));
    }
    let ghost b = texts(out@);
    for k in 0..hyps.bindings.len()
        invariant
            texts(out@) == with_stated(b, texts(hyps.bindings@), k as nat),
    {
        if !starts_with(&hyps.bindings[k], "--") {
            out.push(prefix_unused_binder(&hyps.bindings[k]));
        }
    }
    out
}

/// The field of guard `i` in the completeness structure.
#[verifier::opaque]
pub open spec fn spec_field(instr: ParsedInstruction, i: nat) -> Seq<char> {
    let g = instr.guards@[i as int];
    "  "@ + g.name@ + " :\n    ∀ "@ + join_text(spec_binders(instr, i), " "@) + ",\n    (executeFn progAt ("@ + init_text(instr) + ") "@ + fuel_text(g) + ").exitCode = some "@ + error_name(g.error@) + "\n"@
}

fn emit_spec_field(
    out: &mut String,
    instr: &ParsedInstruction,
    i: usize,
    before: &Vec<String>,
    hyps: &Hypotheses,
)
    requires
        i < instr.guards@.len(),
        texts(before@) == passed(instr.guards@, offsets(*instr), i as nat),
        hyps_view(*hyps) == guard_hyps(instr.guards@[i as int], offsets(*instr)),
    ensures
        final(out)@ == old(out)@ + spec_field(*instr, i as nat),
{
    proof {
        reveal(spec_field);
    }
    let g = &instr.guards[i];
    let binders = build_spec_binders(instr, i, before, hyps);
    let joined = join(&binders, " ");
    let init = init_string(instr);
    let fuel = fuel_string(g);
    let err = error_to_lean_name(&g.error);
    out.push_str("  ");
    out.push_str(&g.name);
    out.push_str(" :\n    ∀ ");
    out.push_str(&joined);
    out.push_str(",\n    (executeFn progAt (");
    out.push_str(&init);
    out.push_str(") ");
    out.push_str(&fuel);
    out.push_str(").exitCode = some ");
    out.push_str(&err);
    out.push_str("\n");
}

pub open spec fn spec_fields(instr: ParsedInstruction, n: nat) -> Seq<char>
    decreases n,
{
    if n == 0 {
        Seq::empty()
    } else {
        spec_fields(instr, (n - 1) as nat) + spec_field(instr, (n - 1) as nat)
    }
}

fn emit_spec_fields(out: &mut String, instr: &ParsedInstruction, os: &Vec<Offset>)
    requires
        offset_views(os@) == offsets(*instr),
    ensures
        final(out)@ == old(out)@ + spec_fields(*instr, instr.guards@.len()),
{
    let mut acc: Vec<String> = Vec::new();
    for i in 0..instr.guards.len()
        invariant
            offset_views(os@) == offsets(*instr),
            texts(acc@) == passed(instr.guards@, offsets(*instr), i as nat),
            out@ == old(out)@ + spec_fields(*instr, i as nat),
    {
        let hyps = derive_guard_hypotheses(&instr.guards[i], os);
        emit_spec_field(out, instr, i, &acc, &hyps);
        append_after(&mut acc, &hyps);
    }
}

/// The guards of an instruction: their theorems, and a structure with one field
/// for each.
#[verifier::opaque]
pub open spec fn guards_text(prog: Seq<char>, instr: ParsedInstruction) -> Seq<char> {
    if instr.guards@.len() == 0 {
        Seq::empty()
    } else {
        "-- Guard theorem stubs\n"@ + "-- Hypotheses derived from checks + layout. Fill proofs with wp_exec.\n\n"@ + guard_theorems(prog, instr, instr.guards@.len())
            + ("-- Completeness structure: fill all fields to prove every guard is covered\n"@ + "structure Spec (progAt : Nat → Option Insn) where\n"@ + spec_fields(instr, instr.guards@.len()) + "\n"@)
    }
}

fn emit_guards(out: &mut String, prog: &str, instr: &ParsedInstruction, os: &Vec<Offset>)
    requires
        offset_views(os@) == offsets(*instr),
    ensures
        final(out)@ == old(out)@ + guards_text(prog@, *instr),
{
    proof {
        reveal(guards_text);
    }
    if instr.guards.len() == 0 {
        return ;
    }
    out.push_str("-- Guard theorem stubs\n");
    out.push_str("-- Hypotheses derived from checks + layout. Fill proofs with wp_exec.\n\n");
    emit_guard_theorems(out, prog, instr, os);
    out.push_str("-- Completeness structure: fill all fields to prove every guard is covered\n");
    out.push_str("structure Spec (progAt : Nat → Option Insn) where\n");
    emit_spec_fields(out, instr, os);
    out.push_str("\n");
}

// ---------------------------------------------------------------------------
// Constants
// ---------------------------------------------------------------------------

pub open spec fn abbrev_lines(cs: Seq<(String, String)>, n: nat) -> Seq<char>
    decreases n,
{
    if n == 0 {
        Seq::empty()
    } else {
        abbrev_lines(cs, (n - 1) as nat) + ("abbrev "@ + cs[n - 1].0@ + " : Nat := "@ + without_char(cs[n - 1].1@, '_') + "\n"@)
    }
}

/// The constants of an instruction.
pub open spec fn instr_consts_text(cs: Seq<(String, String)>) -> Seq<char> {
    if cs.len() == 0 {
        Seq::empty()
    } else {
        "-- Instruction-level constants\n"@ + abbrev_lines(cs, cs.len()) + "\n"@
    }
}

fn emit_instr_consts(out: &mut String, cs: &Vec<(String, String)>)
    ensures
        final(out)@ == old(out)@ + instr_consts_text(cs@),
{
    if cs.len() == 0 {
        return ;
    }
    out.push_str("-- Instruction-level constants\n");
    let ghost base = out@;
    for i in 0..cs.len()
        invariant
            out@ == base + abbrev_lines(cs@, i as nat),
    {
        let val = drop_char(&cs[i].1, '_');
        out.push_str("abbrev ");
        out.push_str(&cs[i].0);
        out.push_str(" : Nat := ");
        out.push_str(&val);
        out.push_str("\n");
    }
    out.push_str("\n");
}

/// The first `n` errors that have a value.
pub open spec fn error_lines(es: Seq<ParsedValuedError>, n: nat) -> Seq<char>
    decreases n,
{
    if n == 0 {
        Seq::empty()
    } else {
        let e = es[n - 1];
        error_lines(es, (n - 1) as nat) + (match e.value {
            Some(v) => "abbrev "@ + error_name(e.name@) + " : Nat := "@ + decimal(v as nat) + "\n"@,
            None => Seq::empty(),
        })
    }
}

/// The errors: those of the instruction, or else those of the program.
pub open spec fn errors_text(es: Seq<ParsedValuedError>) -> Seq<char> {
    if es.len() == 0 {
        Seq::empty()
    } else {
        "-- Error constants\n"@ + error_lines(es, es.len()) + "\n"@
    }
}

fn emit_errors(out: &mut String, es: &Vec<ParsedValuedError>)
    ensures
        final(out)@ == old(out)@ + errors_text(es@),
{
    if es.len() == 0 {
        return ;
    }
    out.push_str("-- Error constants\n");
    let ghost base = out@;
    for i in 0..es.len()
        invariant
            out@ == base + error_lines(es@, i as nat),
    {
        match es[i].value {
            Some(v) => {
                let name = error_to_lean_name(&es[i].name);
                let d = decimal_string(v as u128);
                out.push_str("abbrev ");
                out.push_str(&name);
                out.push_str(" : Nat := ");
                out.push_str(&d);
                out.push_str("\n");
            },
            None => {},
        }
    }
    out.push_str("\n");
}

pub open spec fn offset_lines(os: Seq<OffsetV>, n: nat) -> Seq<char>
    decreases n,
{
    if n == 0 {
        Seq::empty()
    } else {
        offset_lines(os, (n - 1) as nat) + ("abbrev "@ + ascii_upper(os[n - 1].name) + " : Int := "@ + int_decimal(os[n - 1].offset) + "\n"@)
    }
}

/// The lemma about the address of a field.
pub open spec fn ea_text(o: OffsetV) -> Seq<char> {
    let name = ascii_upper(o.name);
    "@[simp] theorem ea_"@ + name + " (b : Nat) : effectiveAddr b "@ + name + " = "@ + shifted("b"@, o.offset) + " := by\n  unfold effectiveAddr "@ + name + "; omega\n\n"@
}

pub open spec fn ea_lines(os: Seq<OffsetV>, n: nat) -> Seq<char>
    decreases n,
{
    if n == 0 {
        Seq::empty()
    } else {
        ea_lines(os, (n - 1) as nat) + ea_text(os[n - 1])
    }
}

/// The offsets of an instruction, and the lemmas about their addresses.
#[verifier::opaque]
pub open spec fn offsets_text(os: Seq<OffsetV>) -> Seq<char> {
    if os.len() == 0 {
        Seq::empty()
    } else {
        "-- Offset constants\n"@ + offset_lines(os, os.len()) + "\n"@ + "-- Effective address lemmas\n"@ + ea_lines(os, os.len())
    }
}

fn emit_offsets(out: &mut String, os: &Vec<Offset>)
    ensures
        final(out)@ == old(out)@ + offsets_text(offset_views(os@)),
{
    proof {
        reveal(offsets_text);
    }
    if os.len() == 0 {
        return ;
    }
    out.push_str("-- Offset constants\n");
    let ghost base = out@;
    for i in 0..os.len()
        invariant
            out@ == base + offset_lines(offset_views(os@), i as nat),
    {
        let name = to_ascii_upper(&os[i].field.name);
        let d = int_string(os[i].field.offset);
        out.push_str("abbrev ");
        out.push_str(&name);
        out.push_str(" : Int := ");
        out.push_str(&d);
        out.push_str("\n");
    }
    out.push_str("\n");
    out.push_str("-- Effective address lemmas\n");
    let ghost base2 = out@;
    for i in 0..os.len()
        invariant
            out@ == base2 + ea_lines(offset_views(os@), i as nat),
    {
        let name = to_ascii_upper(&os[i].field.name);
        let rhs = shift("b", os[i].field.offset);
        out.push_str("@[simp] theorem ea_");
        out.push_str(&name);
        out.push_str(" (b : Nat) : effectiveAddr b ");
        out.push_str(&name);
        out.push_str(" = ");
        out.push_str(&rhs);
        out.push_str(" := by\n  unfold effectiveAddr ");
        out.push_str(&name);
        out.push_str("; omega\n\n");
    }
}

// ---------------------------------------------------------------------------
// The file
// ---------------------------------------------------------------------------

pub open spec fn sbpf_property_lines(ps: Seq<ParsedSbpfProperty>, n: nat) -> Seq<char>
    decreases n,
{
    if n == 0 {
        Seq::empty()
    } else {
        sbpf_property_lines(ps, (n - 1) as nat) + doc_text(ps[n - 1].doc) + ("theorem "@ + ps[n - 1].name@ + " : True := trivial\n\n"@)
    }
}

/// The properties of an instruction, as stubs.
pub open spec fn sbpf_properties_text(ps: Seq<ParsedSbpfProperty>) -> Seq<char> {
    if ps.len() == 0 {
        Seq::empty()
    } else {
        "-- Property theorem stubs\n\n"@ + sbpf_property_lines(ps, ps.len())
    }
}

fn emit_sbpf_properties(out: &mut String, ps: &Vec<ParsedSbpfProperty>)
    ensures
        final(out)@ == old(out)@ + sbpf_properties_text(ps@),
{
    if ps.len() == 0 {
        return ;
    }
    out.push_str("-- Property theorem stubs\n\n");
    let ghost base = out@;
    for i in 0..ps.len()
        invariant
            out@ == base + sbpf_property_lines(ps@, i as nat),
    {
        emit_doc(out, &ps[i].doc);
        out.push_str("theorem ");
        out.push_str(&ps[i].name);
        out.push_str(" : True := trivial\n\n");
    }
}

/// The section of one instruction.
#[verifier::opaque]
pub open spec fn instruction_text(
    prog: Seq<char>,
    instr: ParsedInstruction,
    global_errors: Seq<ParsedValuedError>,
) -> Seq<char> {
    "namespace "@ + instr.name@ + "\n\n"@ + instr_consts_text(instr.constants@) + errors_text(
        if instr.errors@.len() > 0 {
            instr.errors@
        } else {
            global_errors
        },
    ) + offsets_text(offsets(instr)) + guards_text(prog, instr) + sbpf_properties_text(
        instr.properties@,
    ) + ("end "@ + instr.name@ + "\n\n"@)
}

fn emit_instruction(
    out: &mut String,
    prog: &str,
    instr: &ParsedInstruction,
    global_errors: &Vec<ParsedValuedError>,
)
    ensures
        final(out)@ == old(out)@ + instruction_text(prog@, *instr, global_errors@),
{
    proof {
        reveal(instruction_text);
    }
    out.push_str("namespace ");
    out.push_str(&instr.name);
    out.push_str("\n\n");
    emit_instr_consts(out, &instr.constants);
    if instr.errors.len() > 0 {
        emit_errors(out, &instr.errors);
    } else {
        emit_errors(out, global_errors);
    }
    let os = all_offsets(instr);
    emit_offsets(out, &os);
    emit_guards(out, prog, instr, &os);
    emit_sbpf_properties(out, &instr.properties);
    out.push_str("end ");
    out.push_str(&instr.name);
    out.push_str("\n\n");
}

pub open spec fn instructions_upto(
    prog: Seq<char>,
    instrs: Seq<ParsedInstruction>,
    global_errors: Seq<ParsedValuedError>,
    n: nat,
) -> Seq<char>
    decreases n,
{
    if n == 0 {
        Seq::empty()
    } else {
        instructions_upto(prog, instrs, global_errors, (n - 1) as nat) + instruction_text(
            prog,
            instrs[n - 1],
            global_errors,
        )
    }
}

pub open spec fn const_comments(cs: Seq<(String, String)>, n: nat) -> Seq<char>
    decreases n,
{
    if n == 0 {
        Seq::empty()
    } else {
        const_comments(cs, (n - 1) as nat) + ("--   "@ + cs[n - 1].0@ + " = "@ + without_char(cs[n - 1].1@, '_') + "\n"@)
    }
}

/// The constants of the program, in comments.
pub open spec fn globals_text(cs: Seq<(String, String)>) -> Seq<char> {
    if cs.len() == 0 {
        Seq::empty()
    } else {
        "-- Global constants (from prog module, not re-declared):\n"@ + const_comments(
            cs,
            cs.len(),
        ) + "\n"@
    }
}

fn emit_globals(out: &mut String, cs: &Vec<(String, String)>)
    ensures
        final(out)@ == old(out)@ + globals_text(cs@),
{
    if cs.len() == 0 {
        return ;
    }
    out.push_str("-- Global constants (from prog module, not re-declared):\n");
    let ghost base = out@;
    for i in 0..cs.len()
        invariant
            out@ == base + const_comments(cs@, i as nat),
    {
        let val = drop_char(&cs[i].1, '_');
        out.push_str("--   ");
        out.push_str(&cs[i].0);
        out.push_str(" = ");
        out.push_str(&val);
        out.push_str("\n");
    }
    out.push_str("\n");
}

pub open spec fn chunk_lines(pk: ParsedPubkey, n: nat) -> Seq<char>
    decreases n,
{
    if n == 0 {
        Seq::empty()
    } else {
        chunk_lines(pk, (n - 1) as nat) + ("--   PUBKEY_"@ + ascii_upper(pk.name@) + "_CHUNK_"@ + decimal((n - 1) as nat) + " = "@ + without_char(pk.chunks@[n - 1]@, '_') + "\n"@)
    }
}

fn emit_chunks(out: &mut String, pk: &ParsedPubkey)
    ensures
        final(out)@ == old(out)@ + chunk_lines(*pk, pk.chunks@.len()),
{
    let name = to_ascii_upper(&pk.name);
    for i in 0..pk.chunks.len()
        invariant
            name@ == ascii_upper(pk.name@),
            out@ == old(out)@ + chunk_lines(*pk, i as nat),
    {
        let clean = drop_char(&pk.chunks[i], '_');
        let d = decimal_string(i as u128);
        out.push_str("--   PUBKEY_");
        out.push_str(&name);
        out.push_str("_CHUNK_");
        out.push_str(&d);
        out.push_str(" = ");
        out.push_str(&clean);
        out.push_str("\n");
    }
}

pub open spec fn pubkey_lines(pks: Seq<ParsedPubkey>, n: nat) -> Seq<char>
    decreases n,
{
    if n == 0 {
        Seq::empty()
    } else {
        pubkey_lines(pks, (n - 1) as nat) + chunk_lines(pks[n - 1], pks[n - 1].chunks@.len())
    }
}

/// The known public keys, in comments.
pub open spec fn pubkeys_text(pks: Seq<ParsedPubkey>) -> Seq<char> {
    if pks.len() == 0 {
        Seq::empty()
    } else {
        "-- Known pubkey constants (from prog module, not re-declared):\n"@ + pubkey_lines(
            pks,
            pks.len(),
        ) + "\n"@
    }
}

fn emit_pubkeys(out: &mut String, pks: &Vec<ParsedPubkey>)
    ensures
        final(out)@ == old(out)@ + pubkeys_text(pks@),
{
    if pks.len() == 0 {
        return ;
    }
    out.push_str("-- Known pubkey constants (from prog module, not re-declared):\n");
    let ghost base = out@;
    for i in 0..pks.len()
        invariant
            out@ == base + pubkey_lines(pks@, i as nat),
    {
        emit_chunks(out, &pks[i]);
    }
    out.push_str("\n");
}

/// What the file says of where it comes from, behind the name of the program.
pub const SBPF_NOTE: &'static str = ".qedspec\n-- Source of truth: the .qedspec file. Regenerate with:\n--   qedgen lean-gen --spec <spec>.qedspec --output <this-file>\n\n";

/// The file of an assembly program. The module of the program has the name of
/// the spec and `Prog`.
#[verifier::opaque]
pub open spec fn sbpf_text(spec: ParsedSpec) -> Seq<char> {
    let prog = spec.program_name@ + "Prog"@;
    "-- Generated by qedgen lean-gen from "@ + lower_text(spec.program_name@) + SBPF_NOTE@
        + ("import QEDGen\n"@ + "import "@ + prog + "\n\n"@ + "open QEDGen.Solana.SBPF\n"@ + "open QEDGen.Solana.SBPF.Memory\n\n"@)
        + globals_text(spec.constants@) + pubkeys_text(spec.pubkeys@) + instructions_upto(
        prog,
        spec.instructions@,
        spec.valued_errors@,
        spec.instructions@.len(),
    )
}

/// Renders an assembly program.
pub fn render_sbpf(spec: &ParsedSpec) -> (r: String)
    ensures
        r@ == sbpf_text(*spec),
{
    proof {
        reveal(sbpf_text);
    }
    let mut prog = spec.program_name.clone();
    prog.push_str("Prog");
    let lower = to_lowercase(&spec.program_name);
    let mut out = "-- Generated by qedgen lean-gen from ".to_owned();
    out.push_str(&lower);
    out.push_str(SBPF_NOTE);
    out.push_str("import QEDGen\n");
    out.push_str("import ");
    out.push_str(&prog);
    out.push_str("\n\n");
    out.push_str("open QEDGen.Solana.SBPF\n");
    out.push_str("open QEDGen.Solana.SBPF.Memory\n\n");
    emit_globals(&mut out, &spec.constants);
    emit_pubkeys(&mut out, &spec.pubkeys);
    let ghost base = out@;
    for i in 0..spec.instructions.len()
        invariant
            prog@ == spec.program_name@ + "Prog"@,
            out@ == base + instructions_upto(
                prog@,
                spec.instructions@,
                spec.valued_errors@,
                i as nat,
            ),
    {
        emit_instruction(&mut out, &prog, &spec.instructions[i], &spec.valued_errors);
    }
    out
}

} // verus!
