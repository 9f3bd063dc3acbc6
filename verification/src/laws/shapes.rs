//! Which parts of a program a rendered file is about.
use vstd::prelude::*;

use crate::laws::files::multi_files_hold_all_sections;
use crate::laws::lists::{claims_upto_stands, machines_upto_stands};
use crate::laws::stands::{stands, stands_through};
use crate::lean::aborts::aborts_text;
use crate::lean::cpi::{callee_at, cpi_text, is_pinned, last_arg};
use crate::lean::indexed::indexed_file_text;
use crate::lean::liveness::{is_guarded, op_text, op_texts, zero_args};
use crate::lean::multi::{
    account_scope, claims_block, claims_text, claims_upto, machine_block, machine_text,
    machines_upto, multi_file_text, owned, owned_upto, owns, properties_of, property_account,
    reader_at, reads_field, renamed,
};
use crate::lean::overflow::{adds_to, is_numeric, merged_numeric, numeric_upto, overflow_text};
use crate::lean::properties::{ensures_text, frames_text};
use crate::lean::render::{
    adt_file_text, file_text, has_map, single_file_text, some_map, spec_file_text,
};
use crate::lean::sbpf::sbpf_text;
use crate::lean::scope::{
    flat_fields, flat_fields_of, handler_at, has_field, merged_fields, ScopeV, VariantV,
};
use crate::lean::structure::{marker_text, operations_text, state_text};
use crate::lean::subscript::{applied_from, applied_text, effect_text};
use crate::lean::transition::flat_transitions_text;
use crate::mir::{
    CallArg, FieldDecl, HandlerMir, ImportedSpecMir, InterfaceMethod, Mir, PropertyMir,
    StateVariant, Stmt, Symbol, Ty,
};
use crate::names::lookup;
use crate::parsed::ParsedSpec;
use crate::search::contains_text;
use crate::split::trim_text;
use crate::text::is_digit;

verus! {

broadcast use crate::text::group_text;

// ---------------------------------------------------------------------------
// Shapes
// ---------------------------------------------------------------------------

proof fn lemma_has_map(fs: Seq<FieldDecl>, n: nat)
    requires
        n <= fs.len(),
    ensures
        has_map(fs, n) <==> exists|j: int| 0 <= j < n && (#[trigger] fs[j]).ty is MapOf,
    decreases n,
{
    if n > 0 {
        lemma_has_map(fs, (n - 1) as nat);
    }
}

/// A field of a variant.
pub open spec fn field_of(vs: Seq<StateVariant>, i: int, j: int) -> FieldDecl {
    vs[i].fields@[j]
}

proof fn lemma_some_map(vs: Seq<StateVariant>, n: nat)
    requires
        n <= vs.len(),
    ensures
        some_map(vs, n) <==> exists|i: int, j: int|
            0 <= i < n && 0 <= j < vs[i].fields@.len() && (#[trigger] field_of(vs, i, j)).ty
                is MapOf,
    decreases n,
{
    if n > 0 {
        lemma_some_map(vs, (n - 1) as nat);
        let fs = vs[n - 1].fields@;
        lemma_has_map(fs, fs.len());
        if has_map(fs, fs.len()) {
            let j = choose|j: int| 0 <= j < fs.len() && (#[trigger] fs[j]).ty is MapOf;
            assert(field_of(vs, n - 1, j).ty is MapOf);
        }
        assert forall|i: int, j: int|
            0 <= i < n && 0 <= j < vs[i].fields@.len() && (#[trigger] field_of(vs, i, j)).ty
                is MapOf implies some_map(vs, n) by {
            if i == n - 1 {
                assert(fs[j].ty is MapOf);
            }
        }
    }
}

/// A program whose state holds a bounded map is rendered with its maps; any other
/// with several account types account by account; any other with several variants
/// that asks for it with an inductive state; and every other with a flat one. An
/// assembly program is rendered as such, whatever its shape.
pub proof fn files_follow_the_shape(mir: Mir, parsed: ParsedSpec)
    ensures
        ({
            let vs = mir.state.variants@;
            let maps = exists|i: int, j: int|
                0 <= i < vs.len() && 0 <= j < vs[i].fields@.len() && (#[trigger] field_of(
                    vs,
                    i,
                    j,
                )).ty is MapOf;
            &&& mir.is_assembly ==> spec_file_text(mir, parsed) == sbpf_text(parsed)
            &&& !mir.is_assembly ==> spec_file_text(mir, parsed) == file_text(mir)
            &&& maps ==> file_text(mir) == indexed_file_text(mir)
            &&& !maps && mir.account_states@.len() > 1 ==> file_text(mir) == multi_file_text(mir)
            &&& !maps && mir.account_states@.len() <= 1 && mir.adt_state && vs.len() > 1
                ==> file_text(mir) == adt_file_text(mir)
            &&& !maps && mir.account_states@.len() <= 1 && (!mir.adt_state || vs.len() <= 1)
                ==> file_text(mir) == single_file_text(mir)
        }),
{
    lemma_some_map(mir.state.variants@, mir.state.variants@.len());
}

// ---------------------------------------------------------------------------
// Accounts
// ---------------------------------------------------------------------------

proof fn lemma_owned(mir: Mir, account: Seq<char>, n: nat)
    requires
        n <= mir.handlers@.len(),
    ensures
        forall|k: int|
            0 <= k < n && owns(mir, account, #[trigger] mir.handlers@[k]) ==> owned_upto(
                mir,
                account,
                n,
            ).contains(mir.handlers@[k]),
        forall|i: int|
            0 <= i < owned_upto(mir, account, n).len() ==> owns(
                mir,
                account,
                #[trigger] owned_upto(mir, account, n)[i],
            ),
    decreases n,
{
    if n > 0 {
        lemma_owned(mir, account, (n - 1) as nat);
        let before = owned_upto(mir, account, (n - 1) as nat);
        let all = owned_upto(mir, account, n);
        assert forall|k: int| 0 <= k < n && owns(mir, account, #[trigger] mir.handlers@[k])
            implies all.contains(mir.handlers@[k]) by {
            if k < n - 1 {
                let i = choose|i: int| 0 <= i < before.len() && before[i] == mir.handlers@[k];
                assert(all[i] == mir.handlers@[k]);
            } else {
                assert(all[all.len() - 1] == mir.handlers@[k]);
            }
        }
        assert forall|i: int| 0 <= i < all.len() implies owns(mir, account, #[trigger] all[i]) by {
            if i < before.len() {
                assert(all[i] == before[i]);
            }
        }
    }
}

/// The machine of an account has the handlers that name the account, and that of
/// the first account those that name none; it has no others.
pub proof fn accounts_own_their_handlers(mir: Mir, account: Seq<char>, k: int, i: int)
    requires
        mir.account_states@.len() > 0,
    ensures
        0 <= k < mir.handlers@.len() && mir.handlers@[k].on_account is Some && (
        mir.handlers@[k].on_account->0)@ == account ==> owned(mir, account).contains(
            mir.handlers@[k],
        ),
        0 <= k < mir.handlers@.len() && mir.handlers@[k].on_account is None ==> owned(
            mir,
            mir.account_states@[0].name@,
        ).contains(mir.handlers@[k]),
        0 <= i < owned(mir, account).len() && owned(mir, account)[i].on_account is Some ==> (
        owned(mir, account)[i].on_account->0)@ == account,
{
    lemma_owned(mir, account, mir.handlers@.len());
    lemma_owned(mir, mir.account_states@[0].name@, mir.handlers@.len());
    if 0 <= k < mir.handlers@.len() {
        let h = mir.handlers@[k];
        assert(owns(mir, account, h) ==> owned(mir, account).contains(h));
        assert(owns(mir, mir.account_states@[0].name@, h) ==> owned(
            mir,
            mir.account_states@[0].name@,
        ).contains(h));
    }
    if 0 <= i < owned(mir, account).len() {
        assert(owns(mir, account, owned(mir, account)[i]));
    }
}

/// A property belongs to the first account of which it reads a field.
pub proof fn properties_go_where_they_read(mir: Mir, p: PropertyMir, k: int, j: int)
    requires
        0 <= k < mir.account_states@.len(),
        p.expression is Some,
        0 <= j < mir.account_states@[k].fields@.len(),
        contains_text(
            (p.expression->0).lean@,
            "s."@ + mir.account_states@[k].fields@[j].name@,
        ),
        forall|i: int, l: int|
            0 <= i < k && 0 <= l < mir.account_states@[i].fields@.len() ==> !contains_text(
                (p.expression->0).lean@,
                "s."@ + (#[trigger] mir.account_states@[i].fields@[l]).name@,
            ),
    ensures
        property_account(mir, p) == mir.account_states@[k].name@,
{
    lemma_reader(mir, (p.expression->0).lean@, k, j, 0);
}

proof fn lemma_reads(expr: Seq<char>, fs: Seq<FieldDecl>, n: nat)
    requires
        n <= fs.len(),
    ensures
        reads_field(expr, fs, n) <==> exists|l: int|
            0 <= l < n && contains_text(expr, "s."@ + (#[trigger] fs[l]).name@),
    decreases n,
{
    if n > 0 {
        lemma_reads(expr, fs, (n - 1) as nat);
    }
}

proof fn lemma_reader(mir: Mir, expr: Seq<char>, k: int, j: int, from: int)
    requires
        0 <= from <= k < mir.account_states@.len(),
        0 <= j < mir.account_states@[k].fields@.len(),
        contains_text(expr, "s."@ + mir.account_states@[k].fields@[j].name@),
        forall|i: int, l: int|
            0 <= i < k && 0 <= l < mir.account_states@[i].fields@.len() ==> !contains_text(
                expr,
                "s."@ + (#[trigger] mir.account_states@[i].fields@[l]).name@,
            ),
    ensures
        reader_at(mir.account_states@, expr, from) == Some(k),
    decreases k - from,
{
    let fs = mir.account_states@[from].fields@;
    lemma_reads(expr, fs, fs.len());
    if from < k {
        assert forall|l: int| 0 <= l < fs.len() implies !contains_text(
            expr,
            "s."@ + (#[trigger] fs[l]).name@,
        ) by {
            assert(fs[l] == mir.account_states@[from].fields@[l]);
        }
        lemma_reader(mir, expr, k, j, from + 1);
    } else {
        assert(contains_text(expr, "s."@ + fs[j].name@));
    }
}

/// The machine of an account has its state, its transitions and its operations,
/// and its claims speak of aborts, postconditions, frames and overflow.
pub proof fn accounts_have_all_sections(sc: ScopeV)
    ensures
        contains_text(machine_block(sc), marker_text(sc)),
        contains_text(machine_block(sc), state_text(sc)),
        contains_text(machine_block(sc), flat_transitions_text(sc)),
        contains_text(machine_block(sc), cpi_text(sc)),
        contains_text(machine_block(sc), operations_text(sc)),
        contains_text(claims_block(sc), aborts_text(sc, true)),
        contains_text(claims_block(sc), ensures_text(sc)),
        contains_text(claims_block(sc), frames_text(sc)),
        contains_text(claims_block(sc), overflow_text(sc, false)),
{
    lemma_five(
        marker_text(sc),
        state_text(sc),
        flat_transitions_text(sc),
        cpi_text(sc),
        operations_text(sc),
    );
    lemma_five(
        Seq::empty(),
        aborts_text(sc, true),
        ensures_text(sc),
        frames_text(sc),
        overflow_text(sc, false),
    );
    assert(Seq::<char>::empty() + aborts_text(sc, true) =~= aborts_text(sc, true));
}

/// Every account type has its machine and its claims in the file, under its name.
pub proof fn every_account_has_its_machine(mir: Mir, k: int)
    requires
        0 <= k < mir.account_states@.len(),
    ensures
        contains_text(multi_file_text(mir), machine_text(mir, k)),
        contains_text(multi_file_text(mir), claims_text(mir, k)),
        ({
            let a = mir.account_states@[k];
            let sc = account_scope(
                mir,
                a,
                properties_of(mir, a.name@),
                Seq::empty(),
                Seq::empty(),
            );
            let own = account_scope(mir, a, Seq::empty(), Seq::empty(), Seq::empty());
            &&& sc.handlers == owned(mir, a.name@)
            &&& own.handlers.len() > 0 ==> machine_text(mir, k) == renamed(
                machine_block(own),
                a.name@,
            )
            &&& sc.handlers.len() > 0 ==> claims_text(mir, k) == renamed(
                claims_block(sc),
                a.name@,
            )
        }),
{
    let n = mir.account_states@.len();
    multi_files_hold_all_sections(mir);
    machines_upto_stands(mir, n, k);
    claims_upto_stands(mir, n, k);
    stands_through(multi_file_text(mir), machines_upto(mir, n), machine_text(mir, k));
    stands_through(multi_file_text(mir), claims_upto(mir, n), claims_text(mir, k));
    reveal(claims_text);
    reveal(machine_text);
}

proof fn lemma_five(a: Seq<char>, b: Seq<char>, c: Seq<char>, d: Seq<char>, e: Seq<char>)
    ensures
        contains_text(a + b + c + d + e, a),
        contains_text(a + b + c + d + e, b),
        contains_text(a + b + c + d + e, c),
        contains_text(a + b + c + d + e, d),
        contains_text(a + b + c + d + e, e),
{
    stands(Seq::empty(), a, b + c + d + e);
    stands(a, b, c + d + e);
    stands(a + b, c, d + e);
    stands(a + b + c, d, e);
    stands(a + b + c + d, e, Seq::empty());
}

// ---------------------------------------------------------------------------
// Fields
// ---------------------------------------------------------------------------

/// Whether a name is that of one of the fields.
pub open spec fn is_named(fs: Seq<FieldDecl>, name: Seq<char>) -> bool {
    exists|i: int| 0 <= i < fs.len() && (#[trigger] fs[i]).name@ == name
}

proof fn lemma_has_field(fs: Seq<FieldDecl>, name: Seq<char>)
    ensures
        has_field(fs, name) <==> is_named(fs, name),
{
    crate::lean::scope::lemma_field_at(fs, name, 0);
}

proof fn lemma_named_push(fs: Seq<FieldDecl>, f: FieldDecl, name: Seq<char>)
    ensures
        is_named(fs, name) ==> is_named(fs.push(f), name),
        is_named(fs.push(f), f.name@),
{
    let all = fs.push(f);
    assert(all[fs.len() as int] == f);
    if is_named(fs, name) {
        let i = choose|i: int| 0 <= i < fs.len() && (#[trigger] fs[i]).name@ == name;
        assert(all[i].name@ == name);
    }
}

proof fn lemma_merged(acc: Seq<FieldDecl>, fs: Seq<FieldDecl>, n: nat, name: Seq<char>)
    requires
        n <= fs.len(),
    ensures
        is_named(acc, name) ==> is_named(merged_fields(acc, fs, n), name),
        forall|j: int|
            0 <= j < n ==> is_named(merged_fields(acc, fs, n), (#[trigger] fs[j]).name@),
    decreases n,
{
    if n > 0 {
        lemma_merged(acc, fs, (n - 1) as nat, name);
        let before = merged_fields(acc, fs, (n - 1) as nat);
        lemma_has_field(before, fs[n - 1].name@);
        lemma_named_push(before, fs[n - 1], name);
        assert forall|j: int| 0 <= j < n implies is_named(
            merged_fields(acc, fs, n),
            (#[trigger] fs[j]).name@,
        ) by {
            lemma_named_push(before, fs[n - 1], fs[j].name@);
        }
    }
}

proof fn lemma_flat(vs: Seq<VariantV>, n: nat, i: int, j: int)
    requires
        0 <= i < n <= vs.len(),
        0 <= j < vs[i].fields.len(),
    ensures
        is_named(flat_fields_of(vs, n), vs[i].fields[j].name@),
    decreases n,
{
    let name = vs[i].fields[j].name@;
    lemma_merged(
        flat_fields_of(vs, (n - 1) as nat),
        vs[n - 1].fields,
        vs[n - 1].fields.len(),
        name,
    );
    if i < n - 1 {
        lemma_flat(vs, (n - 1) as nat, i, j);
    } else {
        assert(vs[n - 1].fields[j].name@ == name);
    }
}

/// The flat state has every field of every variant.
pub proof fn flat_states_have_every_field(vs: Seq<VariantV>, i: int, j: int)
    requires
        0 <= i < vs.len(),
        0 <= j < vs[i].fields.len(),
    ensures
        is_named(flat_fields(vs), vs[i].fields[j].name@),
{
    lemma_flat(vs, vs.len(), i, j);
}

proof fn lemma_merged_numeric(acc: Seq<FieldDecl>, fs: Seq<FieldDecl>, n: nat, name: Seq<char>)
    requires
        n <= fs.len(),
        forall|i: int| 0 <= i < acc.len() ==> is_numeric((#[trigger] acc[i]).ty),
    ensures
        is_named(acc, name) ==> is_named(merged_numeric(acc, fs, n), name),
        forall|j: int|
            0 <= j < n && is_numeric((#[trigger] fs[j]).ty) ==> is_named(
                merged_numeric(acc, fs, n),
                fs[j].name@,
            ),
        forall|i: int|
            0 <= i < merged_numeric(acc, fs, n).len() ==> is_numeric(
                (#[trigger] merged_numeric(acc, fs, n)[i]).ty,
            ),
    decreases n,
{
    if n > 0 {
        lemma_merged_numeric(acc, fs, (n - 1) as nat, name);
        let before = merged_numeric(acc, fs, (n - 1) as nat);
        let all = merged_numeric(acc, fs, n);
        lemma_has_field(before, fs[n - 1].name@);
        lemma_named_push(before, fs[n - 1], name);
        assert forall|j: int| 0 <= j < n && is_numeric((#[trigger] fs[j]).ty) implies is_named(
            all,
            fs[j].name@,
        ) by {
            lemma_named_push(before, fs[n - 1], fs[j].name@);
        }
        assert forall|i: int| 0 <= i < all.len() implies is_numeric((#[trigger] all[i]).ty) by {
            if i < before.len() {
                assert(all[i] == before[i]);
            }
        }
    }
}

/// Bounds are claimed of every field that is a number, and of no other.
pub proof fn bounds_are_of_numbers(vs: Seq<VariantV>, n: nat, i: int, j: int)
    requires
        n <= vs.len(),
    ensures
        0 <= i < n && 0 <= j < vs[i].fields.len() && is_numeric(vs[i].fields[j].ty) ==> is_named(
            numeric_upto(vs, n),
            vs[i].fields[j].name@,
        ),
        forall|k: int|
            0 <= k < numeric_upto(vs, n).len() ==> is_numeric((#[trigger] numeric_upto(vs, n)[k]).ty),
    decreases n,
{
    if n > 0 {
        bounds_are_of_numbers(vs, (n - 1) as nat, i, j);
        let name = if 0 <= i < n && 0 <= j < vs[i].fields.len() {
            vs[i].fields[j].name@
        } else {
            Seq::empty()
        };
        let fs = vs[n - 1].fields;
        lemma_merged_numeric(numeric_upto(vs, (n - 1) as nat), fs, fs.len(), name);
        if i == n - 1 && 0 <= j < fs.len() {
            assert(is_numeric(fs[j].ty) ==> is_named(numeric_upto(vs, n), fs[j].name@));
        }
    }
}

/// A field grows where a checked addition adds to it, and nowhere else.
pub proof fn checked_additions_grow_fields(stmts: Seq<Stmt>, field: Seq<char>, n: nat)
    requires
        n <= stmts.len(),
    ensures
        adds_to(stmts, field, n) <==> exists|k: int|
            0 <= k < n && (match #[trigger] stmts[k] {
                Stmt::CheckedAdd { path, .. } => crate::lean::base::path_field(path) == field,
                _ => false,
            }),
    decreases n,
{
    if n > 0 {
        checked_additions_grow_fields(stmts, field, (n - 1) as nat);
    }
}

// ---------------------------------------------------------------------------
// Calls and operations
// ---------------------------------------------------------------------------

/// The callee of a call is the method that an import has under the names of the
/// interface and of the method; the first import that has it counts.
pub proof fn calls_find_their_method(
    imports: Seq<(Seq<char>, ImportedSpecMir)>,
    target: Seq<char>,
    method: Seq<char>,
    k: int,
)
    requires
        0 <= k < imports.len(),
        lookup(imports[k].1.interfaces@, target) is Some,
        lookup((lookup(imports[k].1.interfaces@, target)->0).methods@, method) is Some,
        forall|i: int|
            0 <= i < k ==> lookup((#[trigger] imports[i]).1.interfaces@, target) is None,
    ensures
        callee_at(imports, target, method, 0) == Some(
            (
                imports[k].1,
                lookup((lookup(imports[k].1.interfaces@, target)->0).methods@, method)->0,
            ),
        ),
{
    lemma_callee(imports, target, method, k, 0);
}

proof fn lemma_callee(
    imports: Seq<(Seq<char>, ImportedSpecMir)>,
    target: Seq<char>,
    method: Seq<char>,
    k: int,
    from: int,
)
    requires
        0 <= from <= k < imports.len(),
        lookup(imports[k].1.interfaces@, target) is Some,
        lookup((lookup(imports[k].1.interfaces@, target)->0).methods@, method) is Some,
        forall|i: int|
            0 <= i < k ==> lookup((#[trigger] imports[i]).1.interfaces@, target) is None,
    ensures
        callee_at(imports, target, method, from) == Some(
            (
                imports[k].1,
                lookup((lookup(imports[k].1.interfaces@, target)->0).methods@, method)->0,
            ),
        ),
    decreases k - from,
{
    if from < k {
        assert(lookup(imports[from].1.interfaces@, target) is None);
        lemma_callee(imports, target, method, k, from + 1);
    }
}

/// The postconditions of a callee hold by its import only where it has some and
/// the import pins the binary by a hash that is not blank.
pub proof fn callees_are_pinned_by_a_hash(imp: ImportedSpecMir, m: InterfaceMethod)
    ensures
        m.ensures@.len() == 0 ==> !is_pinned(imp, m),
        imp.upstream is None ==> !is_pinned(imp, m),
        imp.upstream is Some && (imp.upstream->0).binary_hash is None ==> !is_pinned(imp, m),
        imp.upstream is Some && (imp.upstream->0).binary_hash is Some && trim_text(
            ((imp.upstream->0).binary_hash->0)@,
        ).len() == 0 ==> !is_pinned(imp, m),
        m.ensures@.len() > 0 && imp.upstream is Some && (imp.upstream->0).binary_hash is Some
            && trim_text(((imp.upstream->0).binary_hash->0)@).len() > 0 ==> is_pinned(imp, m),
{
}

/// A parameter gets the argument that is given under its name, the last one where
/// there are several, and none where there is none.
pub proof fn arguments_go_by_name(args: Seq<CallArg>, name: Seq<char>, n: nat, k: int)
    requires
        n <= args.len(),
    ensures
        0 <= k < n && args[k].name@ == name && (forall|i: int|
            k < i < n ==> (#[trigger] args[i]).name@ != name) ==> last_arg(args, name, n) == Some(
            args[k].value.lean@,
        ),
        (forall|i: int| 0 <= i < n ==> (#[trigger] args[i]).name@ != name) ==> last_arg(
            args,
            name,
            n,
        ) is None,
    decreases n,
{
    if n > 0 {
        arguments_go_by_name(args, name, (n - 1) as nat, k);
    }
}

/// An operation of a path gets a value of its type for every parameter.
pub proof fn operations_get_values_of_their_type(params: Seq<(Symbol, Ty)>, n: nat)
    requires
        n <= params.len(),
    ensures
        zero_args(params, n).len() == n,
        forall|i: int|
            0 <= i < n ==> {
                let a = #[trigger] zero_args(params, n)[i];
                &&& params[i].1 is Pubkey ==> a == "pk"@
                &&& params[i].1 is Bool ==> a == "false"@
                &&& !(params[i].1 is Pubkey) && !(params[i].1 is Bool) ==> a == "0"@
            },
    decreases n,
{
    if n > 0 {
        operations_get_values_of_their_type(params, (n - 1) as nat);
    }
}

/// The operations of a path to a state come in the order of the path, each as its
/// handler with a value for every parameter.
pub proof fn paths_are_lists_of_operations(
    hs: Seq<HandlerMir>,
    ops: Seq<Seq<char>>,
    n: nat,
    k: int,
)
    requires
        0 <= k < n <= ops.len(),
    ensures
        op_texts(hs, ops, n).len() == n,
        op_texts(hs, ops, n)[k] == op_text(hs, ops[k]),
        handler_at(hs, ops[k], 0) is None ==> op_text(hs, ops[k]) == "."@
            + crate::lean::base::safe_text(ops[k]),
    decreases n,
{
    if n > 1 {
        paths_are_lists_of_operations(
            hs,
            ops,
            (n - 1) as nat,
            if k < n - 1 {
                k
            } else {
                0
            },
        );
    } else {
        assert(op_texts(hs, ops, 0).len() == 0);
    }
    if handler_at(hs, ops[k], 0) is None {
        assert("."@ + crate::lean::base::safe_text(ops[k]) + Seq::<char>::empty() =~= "."@
            + crate::lean::base::safe_text(ops[k]));
    }
}

/// A transition is guarded where its handler names a signer, moves the lifecycle
/// or has a precondition.
pub proof fn guards_come_from_handlers(hs: Seq<HandlerMir>, op: Seq<char>)
    ensures
        match handler_at(hs, op, 0) {
            Some(i) => {
                &&& crate::lean::base::auth_text(hs[i]) is Some ==> is_guarded(hs, op)
                &&& hs[i].transition is Some ==> is_guarded(hs, op)
                &&& hs[i].pre@.len() > 0 ==> is_guarded(hs, op)
                &&& hs[i].requires_or_abort@.len() > 0 ==> is_guarded(hs, op)
                &&& is_guarded(hs, op) ==> crate::lean::base::auth_text(hs[i]) is Some
                    || hs[i].transition is Some || hs[i].pre@.len() > 0
                    || hs[i].requires_or_abort@.len() > 0
            },
            None => !is_guarded(hs, op),
        },
{
}

// ---------------------------------------------------------------------------
// Expressions
// ---------------------------------------------------------------------------

proof fn lemma_applied(out: Seq<char>, s: Seq<char>, i: int)
    requires
        0 <= i <= s.len(),
        forall|k: int| i <= k < s.len() ==> s[k] != '[',
    ensures
        applied_from(out, s, i) == out + s.subrange(i, s.len() as int),
    decreases s.len() - i,
{
    if i < s.len() {
        lemma_applied(out.push(s[i]), s, i + 1);
        assert(out.push(s[i]) + s.subrange(i + 1, s.len() as int) =~= out + s.subrange(
            i,
            s.len() as int,
        ));
    } else {
        assert(out + s.subrange(i, s.len() as int) =~= out);
    }
}

/// An expression without subscripts stays as it is.
pub proof fn plain_expressions_stay(s: Seq<char>)
    requires
        !s.contains('['),
    ensures
        applied_text(s) == s,
{
    assert forall|k: int| 0 <= k < s.len() implies s[k] != '[' by {
        assert(s.contains(s[k]));
    }
    lemma_applied(Seq::empty(), s, 0);
    assert(Seq::<char>::empty() + s.subrange(0, s.len() as int) =~= s);
}

/// The value of an effect: a number loses its underscores and nothing else; the
/// name of a parameter stays; any other name is a field of the state.
pub proof fn effects_read_the_state(value: Seq<char>, params: Seq<(Symbol, Ty)>)
    ensures
        ({
            let t = trim_text(value);
            let number = t.len() > 0 && forall|i: int|
                0 <= i < t.len() ==> is_digit(#[trigger] t[i]);
            &&& number ==> effect_text(value, params) == crate::search::without_char(t, '_')
            &&& !crate::lean::subscript::is_number_text(t) && crate::lean::subscript::is_bare(t)
                && crate::lean::subscript::names_param(params, t, params.len()) ==> effect_text(
                value,
                params,
            ) == t
            &&& t.len() > 0 && 'a' <= t[0] <= 'z' && !t.contains('[')
                && !crate::lean::subscript::names_param(params, t, params.len())
                && !crate::lean::subscript::is_rendered(t) ==> effect_text(value, params) == "s."@
                + t
        }),
{
    reveal(effect_text);
    let t = trim_text(value);
    if t.len() > 0 && 'a' <= t[0] <= 'z' && !t.contains('[') {
        reveal_strlit("s.");
        let u = "s."@ + t;
        assert(!u.contains('[')) by {
            if u.contains('[') {
                let i = choose|i: int| 0 <= i < u.len() && u[i] == '[';
                if i >= 2 {
                    assert(t[i - 2] == '[');
                }
            }
        }
        plain_expressions_stay(u);
        assert(!is_digit(t[0]) && t[0] != '_' && t[0] != '-');
        assert(!crate::lean::subscript::is_number_text(t));
    }
}

} // verus!
