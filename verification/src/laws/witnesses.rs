//! What the witnesses of reachable states hold.
use vstd::prelude::*;

use crate::laws::base::decimals_read_back;
use crate::laws::indexed::{difference_of, sum_of};
use crate::laws::stands::{neighbours_stand, part_stands, stands, stands_in, stands_left};
use crate::lean::base::is_pubkey_ref;
use crate::lean::covers::{
    after_handler, after_stmt, after_stmts, chosen_upto, chosen_value, chosen_values, constant_at,
    difference_text, first_witness, flat_witness_text, pair_at, resolved, sum_text, trace_lets,
    values_upto, witness_after, witness_text, zero_fields, WitnessV,
};
use crate::lean::guards::stripped_path;
use crate::lean::scope::{flat_fields, handler_at, ScopeV, VariantV};
use crate::mir::{FieldDecl, HandlerMir, Stmt, Symbol, Ty};
use crate::number::{decimal, parse_nat};
use crate::search::contains_text;
use crate::split::trim_text;
use crate::text::join_text;

verus! {

broadcast use crate::text::group_text;

// ---------------------------------------------------------------------------
// Values
// ---------------------------------------------------------------------------

/// The text of a sum reads as the sum of what the two texts read as, and that of
/// a difference as the difference; neither leaves the range of unsigned 128-bit
/// numbers.
pub proof fn witness_values_are_computed(a: Seq<char>, b: Seq<char>, x: nat, y: nat)
    requires
        parse_nat(a) == Some(x),
        parse_nat(b) == Some(y),
        x <= u128::MAX,
        y <= u128::MAX,
    ensures
        x + y <= u128::MAX ==> parse_nat(sum_text(a, b)) == Some(x + y),
        x + y > u128::MAX ==> parse_nat(sum_text(a, b)) == Some(u128::MAX as nat),
        x >= y ==> parse_nat(difference_text(a, b)) == Some((x - y) as nat),
        x < y ==> parse_nat(difference_text(a, b)) == Some(0nat),
{
    decimals_read_back(x + y);
    decimals_read_back(u128::MAX as nat);
    decimals_read_back(0);
    if x >= y {
        decimals_read_back((x - y) as nat);
    }
}

proof fn lemma_pair_at(ps: Seq<(Seq<char>, Seq<char>)>, name: Seq<char>, from: int)
    requires
        0 <= from,
    ensures
        match pair_at(ps, name, from) {
            Some(i) => from <= i < ps.len() && ps[i].0 == name && forall|j: int|
                from <= j < i ==> (#[trigger] ps[j]).0 != name,
            None => forall|j: int| from <= j < ps.len() ==> (#[trigger] ps[j]).0 != name,
        },
    decreases ps.len() - from,
{
    if from < ps.len() && ps[from].0 != name {
        lemma_pair_at(ps, name, from + 1);
    }
}

/// A name stands for the value of the parameter of that name; a number for
/// itself, a constant for its value, and a field for the value that it has, each
/// where no name before it in this list is the same.
pub proof fn names_stand_for_their_values(
    fields: Seq<(Seq<char>, Seq<char>)>,
    value: Seq<char>,
    params: Seq<(Seq<char>, Seq<char>)>,
    constants: Seq<(Symbol, String)>,
    k: int,
)
    ensures
        ({
            let v = trim_text(value);
            let r = resolved(fields, value, params, constants);
            let no_param = forall|j: int| 0 <= j < params.len() ==> (#[trigger] params[j]).0 != v;
            let no_number = parse_nat(v) is None || parse_nat(v)->0 > u128::MAX;
            let no_constant = forall|j: int|
                0 <= j < constants.len() ==> (#[trigger] constants[j]).0@ != v;
            &&& 0 <= k < params.len() && params[k].0 == v && (forall|j: int|
                0 <= j < k ==> (#[trigger] params[j]).0 != v) ==> r == params[k].1
            &&& no_param && !no_number ==> r == v
            &&& no_param && no_number && 0 <= k < constants.len() && constants[k].0@ == v && (
            forall|j: int| 0 <= j < k ==> (#[trigger] constants[j]).0@ != v) ==> r
                == constants[k].1@
            &&& no_param && no_number && no_constant && 0 <= k < fields.len() && fields[k].0 == v
                && (forall|j: int| 0 <= j < k ==> (#[trigger] fields[j]).0 != v) ==> r
                == fields[k].1
        }),
{
    reveal(resolved);
    let v = trim_text(value);
    lemma_pair_at(params, v, 0);
    lemma_pair_at(fields, v, 0);
    lemma_constant_at(constants, v, 0);
}

proof fn lemma_constant_at(cs: Seq<(Symbol, String)>, name: Seq<char>, from: int)
    requires
        0 <= from,
    ensures
        match constant_at(cs, name, from) {
            Some(i) => from <= i < cs.len() && cs[i].0@ == name && forall|j: int|
                from <= j < i ==> (#[trigger] cs[j]).0@ != name,
            None => forall|j: int| from <= j < cs.len() ==> (#[trigger] cs[j]).0@ != name,
        },
    decreases cs.len() - from,
{
    if from < cs.len() && cs[from].0@ != name {
        lemma_constant_at(cs, name, from + 1);
    }
}

/// Whether a field is the first of its name.
pub open spec fn is_field(
    fields: Seq<(Seq<char>, Seq<char>)>,
    name: Seq<char>,
    k: int,
) -> bool {
    0 <= k < fields.len() && fields[k].0 == name && forall|j: int|
        0 <= j < k ==> (#[trigger] fields[j]).0 != name
}

proof fn lemma_is_field(fields: Seq<(Seq<char>, Seq<char>)>, name: Seq<char>, k: int)
    ensures
        is_field(fields, name, k) ==> pair_at(fields, name, 0) == Some(k),
        match pair_at(fields, name, 0) {
            Some(i) => 0 <= i < fields.len(),
            None => true,
        },
{
    lemma_pair_at(fields, name, 0);
    if is_field(fields, name, k) {
        if let Some(i) = pair_at(fields, name, 0) {
            if i < k {
                assert(fields[i].0 != name);
            }
        }
    }
}

/// A statement changes the value of the field that it names as it says: an
/// addition to the sum, a subtraction to the difference, an assignment to the
/// value. No other field changes, and no field changes its name.
pub proof fn statements_change_their_field(
    fields: Seq<(Seq<char>, Seq<char>)>,
    s: Stmt,
    vs: Seq<VariantV>,
    params: Seq<(Seq<char>, Seq<char>)>,
    constants: Seq<(Symbol, String)>,
    k: int,
)
    ensures
        ({
            let out = after_stmt(fields, s, vs, params, constants);
            &&& out.len() == fields.len()
            &&& forall|j: int| 0 <= j < fields.len() ==> (#[trigger] out[j]).0 == fields[j].0
            &&& match sum_of(s) {
                Some((path, delta)) => is_field(fields, stripped_path(path, vs), k) ==> {
                    let v = resolved(fields, delta.rust@, params, constants);
                    &&& parse_nat(fields[k].1) is Some && parse_nat(v) is Some && parse_nat(
                        fields[k].1,
                    )->0 + parse_nat(v)->0 <= u128::MAX ==> parse_nat(out[k].1) == Some(
                        (parse_nat(fields[k].1)->0 + parse_nat(v)->0) as nat,
                    )
                    &&& forall|j: int| 0 <= j < fields.len() && j != k ==> #[trigger] out[j]
                        == fields[j]
                },
                None => true,
            }
            &&& match difference_of(s) {
                Some((path, delta)) => is_field(fields, stripped_path(path, vs), k) ==> {
                    let v = resolved(fields, delta.rust@, params, constants);
                    &&& parse_nat(fields[k].1) is Some && parse_nat(v) is Some && parse_nat(v)->0
                        <= parse_nat(fields[k].1)->0 <= u128::MAX ==> parse_nat(out[k].1) == Some(
                        (parse_nat(fields[k].1)->0 - parse_nat(v)->0) as nat,
                    )
                    &&& forall|j: int| 0 <= j < fields.len() && j != k ==> #[trigger] out[j]
                        == fields[j]
                },
                None => true,
            }
            &&& match s {
                Stmt::Assign { path, rhs } => is_field(fields, stripped_path(path, vs), k)
                    && !is_pubkey_ref(rhs.rust@) ==> {
                    &&& out[k].1 == resolved(fields, rhs.rust@, params, constants)
                    &&& forall|j: int| 0 <= j < fields.len() && j != k ==> #[trigger] out[j]
                        == fields[j]
                },
                _ => sum_of(s) is None && difference_of(s) is None ==> out == fields,
            }
        }),
{
    reveal(after_stmt);
    match sum_of(s) {
        Some((path, delta)) => {
            lemma_is_field(fields, stripped_path(path, vs), k);
            let v = resolved(fields, delta.rust@, params, constants);
            if is_field(fields, stripped_path(path, vs), k) && parse_nat(fields[k].1) is Some
                && parse_nat(v) is Some && parse_nat(fields[k].1)->0 + parse_nat(v)->0
                <= u128::MAX {
                witness_values_are_computed(
                    fields[k].1,
                    v,
                    parse_nat(fields[k].1)->0,
                    parse_nat(v)->0,
                );
            }
        },
        None => {},
    }
    match difference_of(s) {
        Some((path, delta)) => {
            lemma_is_field(fields, stripped_path(path, vs), k);
            let v = resolved(fields, delta.rust@, params, constants);
            if is_field(fields, stripped_path(path, vs), k) && parse_nat(fields[k].1) is Some
                && parse_nat(v) is Some && parse_nat(v)->0 <= parse_nat(fields[k].1)->0
                <= u128::MAX {
                witness_values_are_computed(
                    fields[k].1,
                    v,
                    parse_nat(fields[k].1)->0,
                    parse_nat(v)->0,
                );
            }
        },
        None => {},
    }
    match s {
        Stmt::Assign { path, rhs } => lemma_is_field(fields, stripped_path(path, vs), k),
        _ => {},
    }
}

// ---------------------------------------------------------------------------
// States
// ---------------------------------------------------------------------------

proof fn lemma_zero_fields(fs: Seq<FieldDecl>, n: nat)
    requires
        n <= fs.len(),
    ensures
        zero_fields(fs, n).len() == n,
        forall|i: int|
            0 <= i < n ==> {
                let f = #[trigger] zero_fields(fs, n)[i];
                &&& f.0 == fs[i].name@
                &&& fs[i].ty is Pubkey ==> f.1 == "pk"@
                &&& fs[i].ty is Bool ==> f.1 == "false"@
                &&& !(fs[i].ty is Pubkey) && !(fs[i].ty is Bool) ==> f.1 == "0"@
            },
    decreases n,
{
    if n > 0 {
        lemma_zero_fields(fs, (n - 1) as nat);
    }
}

/// A witness starts with every field at zero, in the first lifecycle state.
pub proof fn witnesses_start_at_zero(sc: ScopeV, k: int)
    ensures
        ({
            let w = first_witness(sc);
            let fs = flat_fields(sc.variants);
            &&& w.fields.len() == fs.len()
            &&& 0 <= k < fs.len() ==> w.fields[k].0 == fs[k].name@
            &&& 0 <= k < fs.len() && fs[k].ty is Pubkey ==> w.fields[k].1 == "pk"@
            &&& 0 <= k < fs.len() && fs[k].ty is Bool ==> w.fields[k].1 == "false"@
            &&& 0 <= k < fs.len() && !(fs[k].ty is Pubkey) && !(fs[k].ty is Bool)
                ==> w.fields[k].1 == "0"@
            &&& sc.lifecycle.len() > 0 ==> w.status == Some(sc.lifecycle[0])
            &&& sc.lifecycle.len() == 0 ==> w.status is None
        }),
{
    let fs = flat_fields(sc.variants);
    lemma_zero_fields(fs, fs.len());
    if 0 <= k < fs.len() {
        let f = zero_fields(fs, fs.len())[k];
        assert(f.0 == fs[k].name@);
    }
}

/// A handler runs its statements one behind the other and moves the witness on to
/// the state behind its transition.
pub proof fn handlers_move_witnesses(
    w: WitnessV,
    h: HandlerMir,
    vs: Seq<VariantV>,
    params: Seq<(Seq<char>, Seq<char>)>,
    constants: Seq<(Symbol, String)>,
    n: nat,
)
    ensures
        h.transition is Some ==> after_handler(w, h, vs, params, constants).status == Some(
            (h.transition->0).1@,
        ),
        h.transition is None ==> after_handler(w, h, vs, params, constants).status == w.status,
        h.body.stmts@.len() == 0 ==> after_handler(w, h, vs, params, constants).fields == w.fields,
        0 < n == h.body.stmts@.len() ==> after_handler(w, h, vs, params, constants).fields
            == after_stmt(
            after_stmts(w.fields, h.body.stmts@, vs, params, constants, (n - 1) as nat),
            h.body.stmts@[n - 1],
            vs,
            params,
            constants,
        ),
{
}

/// The witness behind a step is that before it, moved by the handler of the step
/// with the values that are chosen for its parameters.
pub proof fn traces_move_witnesses(sc: ScopeV, trace: Seq<Seq<char>>, n: nat)
    requires
        n < trace.len(),
    ensures
        witness_after(sc, trace, 0) == first_witness(sc),
        match handler_at(sc.handlers, trace[n as int], 0) {
            Some(i) => witness_after(sc, trace, n + 1) == after_handler(
                witness_after(sc, trace, n),
                sc.handlers[i],
                sc.variants,
                chosen_values(sc.handlers[i]),
                sc.constants,
            ),
            None => witness_after(sc, trace, n + 1) == witness_after(sc, trace, n),
        },
{
}

proof fn lemma_chosen(conds: Seq<char>, params: Seq<(Symbol, Ty)>, n: nat)
    requires
        n <= params.len(),
    ensures
        chosen_upto(conds, params, n).len() == n,
        forall|i: int|
            0 <= i < n ==> #[trigger] chosen_upto(conds, params, n)[i] == (
                params[i].0@,
                chosen_value(conds, params[i].0@, params[i].1),
            ),
    decreases n,
{
    if n > 0 {
        lemma_chosen(conds, params, (n - 1) as nat);
    }
}

/// A parameter gets a value of its type: a key, `false`, or a number, which is one
/// unless the parameter must stay below a field of the state.
pub proof fn parameters_get_values_of_their_type(h: HandlerMir, k: int)
    requires
        0 <= k < h.params@.len(),
    ensures
        ({
            let v = chosen_values(h)[k];
            let conds = crate::lean::covers::all_requires(h);
            let name = h.params@[k].0@;
            let number = !(h.params@[k].1 is Pubkey) && !(h.params@[k].1 is Bool);
            &&& chosen_values(h).len() == h.params@.len()
            &&& v.0 == name
            &&& h.params@[k].1 is Pubkey ==> v.1 == "pk"@
            &&& h.params@[k].1 is Bool ==> v.1 == "false"@
            &&& number && !contains_text(conds, name + " < s."@) ==> v.1 == "1"@
            &&& number && contains_text(conds, name + " > 0"@) ==> v.1 == "1"@
            &&& number && contains_text(conds, name + " < s."@) && !contains_text(
                conds,
                name + " > 0"@,
            ) && !contains_text(conds, name + " ≥"@) && !contains_text(conds, "≤ "@ + name)
                ==> v.1 == "0"@
        }),
{
    let conds = crate::lean::covers::all_requires(h);
    lemma_chosen(conds, h.params@, h.params@.len());
    let v = chosen_values(h)[k];
    assert(v == (h.params@[k].0@, chosen_value(conds, h.params@[k].0@, h.params@[k].1)));
}

proof fn lemma_values(fields: Seq<(Seq<char>, Seq<char>)>, n: nat)
    requires
        n <= fields.len(),
    ensures
        values_upto(fields, n).len() == n,
        forall|i: int| 0 <= i < n ==> #[trigger] values_upto(fields, n)[i] == fields[i].1,
    decreases n,
{
    if n > 0 {
        lemma_values(fields, (n - 1) as nat);
    }
}

/// A witness is written as the values of its fields in their order, with the
/// lifecycle state behind them.
pub proof fn witnesses_are_written_in_order(w: WitnessV, k: int)
    requires
        0 <= k < w.fields.len(),
    ensures
        contains_text(flat_witness_text(w), w.fields[k].1),
        k + 1 < w.fields.len() ==> contains_text(
            flat_witness_text(w),
            w.fields[k].1 + ", "@ + w.fields[k + 1].1,
        ),
        k + 1 == w.fields.len() && w.status is Some ==> contains_text(
            flat_witness_text(w),
            w.fields[k].1 + ", "@ + ("."@ + w.status->0),
        ),
{
    let n = w.fields.len();
    let values = values_upto(w.fields, n);
    lemma_values(w.fields, n);
    let parts = match w.status {
        Some(s) => values.push("."@ + s),
        None => values,
    };
    let j = join_text(parts, ", "@);
    assert(parts[k] == w.fields[k].1);
    part_stands(parts, ", "@, k);
    stands_in("⟨"@, j, "⟩"@, parts[k]);
    if k + 1 < parts.len() {
        if k + 1 < n {
            assert(parts[k + 1] == w.fields[k + 1].1);
        }
        neighbours_stand(parts, ", "@, k);
        stands_in("⟨"@, j, "⟩"@, parts[k] + ", "@ + parts[k + 1]);
    }
}

/// The proof of a trace gives the state before every step: the witness at that
/// step.
pub proof fn traces_give_their_states(
    sc: ScopeV,
    trace: Seq<Seq<char>>,
    adt: bool,
    n: nat,
    k: nat,
)
    requires
        k < n <= trace.len(),
        trace_lets(sc, trace, adt, n) is Some,
    ensures
        witness_text(witness_after(sc, trace, k), sc.variants, adt) is Some,
        contains_text(
            trace_lets(sc, trace, adt, n)->0,
            "  let s"@ + decimal(k) + " : State := "@ + witness_text(
                witness_after(sc, trace, k),
                sc.variants,
                adt,
            )->0 + "\n"@,
        ),
    decreases n,
{
    let before = trace_lets(sc, trace, adt, (n - 1) as nat)->0;
    let w = witness_text(witness_after(sc, trace, (n - 1) as nat), sc.variants, adt)->0;
    let own = "  let s"@ + decimal((n - 1) as nat) + " : State := "@ + w + "\n"@;
    assert(trace_lets(sc, trace, adt, n)->0 == before + own);
    if k < n - 1 {
        traces_give_their_states(sc, trace, adt, (n - 1) as nat, k);
        stands_left(
            before,
            own,
            "  let s"@ + decimal(k) + " : State := "@ + witness_text(
                witness_after(sc, trace, k),
                sc.variants,
                adt,
            )->0 + "\n"@,
        );
    } else {
        stands(before, own, Seq::empty());
    }
}

} // verus!
