//! Covers: theorems that a sequence of operations can run, with a witness
//! where one can be computed.
use vstd::prelude::*;

use crate::lean::base::{
    args_text, is_account_pubkey_ref, is_pubkey_ref, param_args_str, render_ty, safe_name,
    safe_text, transition_name, transition_text, ty_text, RULE,
};
use crate::lean::guards::{get_update, strip_variant_prefix, stripped_path, update_of, Update};
use crate::lean::scope::{
    find_handler, find_variant, flat_fields, flat_state_fields, handler_at, refs, variant_at,
    variant_views, Scope, ScopeV, VariantRef, VariantV,
};
use crate::lean::structure::binder_parts;
use crate::mir::{CoverMir, FieldDecl, HandlerMir, Predicate, RequireOrAbortClause, Stmt, Symbol, Ty};
use crate::number::{decimal, decimal_string, parse_below, parse_u128, push_decimal};
use crate::search::{contains, contains_text, opt_text};
use crate::split::{trim, trim_text};
use crate::text::{join, join_text, same, texts};

verus! {

broadcast use {crate::text::group_text, crate::text::texts_index, crate::text::texts_len};

// ---------------------------------------------------------------------------
// Witnesses
// ---------------------------------------------------------------------------

/// Names with their values.
pub open spec fn pair_views(v: Seq<(String, String)>) -> Seq<(Seq<char>, Seq<char>)> {
    Seq::new(v.len(), |i: int| (v[i].0@, v[i].1@))
}

proof fn pair_views_push(v: Seq<(String, String)>, p: (String, String))
    ensures
        pair_views(v.push(p)) == pair_views(v).push((p.0@, p.1@)),
{
    assert(pair_views(v.push(p)) =~= pair_views(v).push((p.0@, p.1@)));
}

/// The first pair from `from` on that has the name.
pub open spec fn pair_at(
    ps: Seq<(Seq<char>, Seq<char>)>,
    name: Seq<char>,
    from: int,
) -> Option<int>
    decreases ps.len() - from,
{
    if from < 0 || from >= ps.len() {
        None
    } else if ps[from].0 == name {
        Some(from)
    } else {
        pair_at(ps, name, from + 1)
    }
}

fn find_pair(ps: &Vec<(String, String)>, name: &str) -> (r: Option<usize>)
    ensures
        match r {
            Some(i) => i < ps@.len() && pair_at(pair_views(ps@), name@, 0) == Some(i as int),
            None => pair_at(pair_views(ps@), name@, 0) is None,
        },
{
    let mut i: usize = 0;
    while i < ps.len()
        invariant
            i <= ps@.len(),
            pair_at(pair_views(ps@), name@, 0) == pair_at(pair_views(ps@), name@, i as int),
        decreases ps@.len() - i,
    {
        if same(&ps[i].0, name) {
            return Some(i);
        }
        i = i + 1;
    }
    None
}

/// A concrete state: a value for each field, and the lifecycle state.
pub struct WitnessState {
    pub fields: Vec<(String, String)>,
    pub status: Option<String>,
}

/// A concrete state.
pub struct WitnessV {
    pub fields: Seq<(Seq<char>, Seq<char>)>,
    pub status: Option<Seq<char>>,
}

impl View for WitnessState {
    type V = WitnessV;

    open spec fn view(&self) -> WitnessV {
        WitnessV { fields: pair_views(self.fields@), status: opt_text(self.status) }
    }
}

/// The value of a type that a witness starts with.
pub open spec fn zero_text(t: Ty) -> Seq<char> {
    match t {
        Ty::Pubkey => "pk"@,
        Ty::Bool => "false"@,
        _ => "0"@,
    }
}

pub fn zero_literal(t: &Ty) -> (r: &'static str)
    ensures
        r@ == zero_text(*t),
{
    match t {
        Ty::Pubkey => "pk",
        Ty::Bool => "false",
        _ => "0",
    }
}

/// The first `n` fields with the values that a witness starts with.
pub open spec fn zero_fields(fs: Seq<FieldDecl>, n: nat) -> Seq<(Seq<char>, Seq<char>)>
    decreases n,
{
    if n == 0 {
        Seq::empty()
    } else {
        zero_fields(fs, (n - 1) as nat).push((fs[n - 1].name@, zero_text(fs[n - 1].ty)))
    }
}

/// The state that a witness starts with: zeros, in the first lifecycle state.
pub open spec fn first_witness(sc: ScopeV) -> WitnessV {
    WitnessV {
        fields: zero_fields(flat_fields(sc.variants), flat_fields(sc.variants).len()),
        status: if sc.lifecycle.len() > 0 {
            Some(sc.lifecycle[0])
        } else {
            None
        },
    }
}

/// The value that a name stands for: a parameter, a number, a constant, a
/// field, in this order, and `1` for anything else.
#[verifier::opaque]
pub open spec fn resolved(
    fields: Seq<(Seq<char>, Seq<char>)>,
    value: Seq<char>,
    params: Seq<(Seq<char>, Seq<char>)>,
    constants: Seq<(Symbol, String)>,
) -> Seq<char> {
    let v = trim_text(value);
    match pair_at(params, v, 0) {
        Some(i) => params[i].1,
        None => if parse_below(v, u128::MAX as nat) is Some {
            v
        } else {
            match constant_at(constants, v, 0) {
                Some(i) => constants[i].1@,
                None => match pair_at(fields, v, 0) {
                    Some(i) => fields[i].1,
                    None => "1"@,
                },
            }
        },
    }
}

/// The first constant from `from` on that has the name.
pub open spec fn constant_at(cs: Seq<(Symbol, String)>, name: Seq<char>, from: int) -> Option<int>
    decreases cs.len() - from,
{
    if from < 0 || from >= cs.len() {
        None
    } else if cs[from].0@ == name {
        Some(from)
    } else {
        constant_at(cs, name, from + 1)
    }
}

fn find_constant(cs: &Vec<&(Symbol, String)>, name: &str) -> (r: Option<usize>)
    ensures
        match r {
            Some(i) => i < cs@.len() && constant_at(refs(cs@), name@, 0) == Some(i as int),
            None => constant_at(refs(cs@), name@, 0) is None,
        },
{
    let mut i: usize = 0;
    while i < cs.len()
        invariant
            i <= cs@.len(),
            constant_at(refs(cs@), name@, 0) == constant_at(refs(cs@), name@, i as int),
        decreases cs@.len() - i,
    {
        if same(&cs[i].0, name) {
            return Some(i);
        }
        i = i + 1;
    }
    None
}

/// The number that a text spells, or zero.
pub open spec fn number_or_zero(s: Seq<char>) -> nat {
    match parse_below(s, u128::MAX as nat) {
        Some(n) => n,
        None => 0,
    }
}

fn read_or_zero(s: &str) -> (r: u128)
    ensures
        r == number_or_zero(s@),
{
    match parse_u128(s) {
        Some(n) => n,
        None => 0,
    }
}

/// The sum, but at most the greatest 128-bit number.
pub open spec fn sum_text(a: Seq<char>, b: Seq<char>) -> Seq<char> {
    let sum = number_or_zero(a) + number_or_zero(b);
    decimal(
        if sum <= u128::MAX {
            sum
        } else {
            u128::MAX as nat
        },
    )
}

/// The difference, but at least zero.
pub open spec fn difference_text(a: Seq<char>, b: Seq<char>) -> Seq<char> {
    if number_or_zero(a) >= number_or_zero(b) {
        decimal((number_or_zero(a) - number_or_zero(b)) as nat)
    } else {
        decimal(0)
    }
}

fn sum_string(a: &str, b: &str) -> (r: String)
    ensures
        r@ == sum_text(a@, b@),
{
    let x = read_or_zero(a);
    let y = read_or_zero(b);
    if x <= u128::MAX - y {
        decimal_string(x + y)
    } else {
        decimal_string(u128::MAX)
    }
}

fn difference_string(a: &str, b: &str) -> (r: String)
    ensures
        r@ == difference_text(a@, b@),
{
    let x = read_or_zero(a);
    let y = read_or_zero(b);
    if x >= y {
        decimal_string(x - y)
    } else {
        decimal_string(0)
    }
}

/// The fields after one statement. A statement that writes no field of the
/// witness leaves it as it is.
#[verifier::opaque]
pub open spec fn after_stmt(
    fields: Seq<(Seq<char>, Seq<char>)>,
    s: Stmt,
    vs: Seq<VariantV>,
    params: Seq<(Seq<char>, Seq<char>)>,
    constants: Seq<(Symbol, String)>,
) -> Seq<(Seq<char>, Seq<char>)> {
    match update_of(s) {
        Some((path, kind, value)) => {
            if kind == Update::Put && is_pubkey_ref(value.rust@) {
                fields
            } else {
                match pair_at(fields, stripped_path(path, vs), 0) {
                    Some(i) => {
                        let v = resolved(fields, value.rust@, params, constants);
                        fields.update(
                            i,
                            (
                                fields[i].0,
                                match kind {
                                    Update::Put => v,
                                    Update::Add => sum_text(fields[i].1, v),
                                    Update::Sub => difference_text(fields[i].1, v),
                                },
                            ),
                        )
                    },
                    None => fields,
                }
            }
        },
        None => fields,
    }
}

/// The fields after the first `n` statements.
pub open spec fn after_stmts(
    fields: Seq<(Seq<char>, Seq<char>)>,
    stmts: Seq<Stmt>,
    vs: Seq<VariantV>,
    params: Seq<(Seq<char>, Seq<char>)>,
    constants: Seq<(Symbol, String)>,
    n: nat,
) -> Seq<(Seq<char>, Seq<char>)>
    decreases n,
{
    if n == 0 {
        fields
    } else {
        after_stmt(
            after_stmts(fields, stmts, vs, params, constants, (n - 1) as nat),
            stmts[n - 1],
            vs,
            params,
            constants,
        )
    }
}

/// The witness after a handler has run.
pub open spec fn after_handler(
    w: WitnessV,
    h: HandlerMir,
    vs: Seq<VariantV>,
    params: Seq<(Seq<char>, Seq<char>)>,
    constants: Seq<(Symbol, String)>,
) -> WitnessV {
    WitnessV {
        fields: after_stmts(
            w.fields,
            h.body.stmts@,
            vs,
            params,
            constants,
            h.body.stmts@.len(),
        ),
        status: match h.transition {
            Some(t) => Some(t.1@),
            None => w.status,
        },
    }
}

impl WitnessState {
    /// The state that a witness starts with.
    pub fn new(sc: &Scope) -> (r: Self)
        ensures
            r@ == first_witness(sc@),
    {
        let fs = flat_state_fields(&sc.variants);
        let ghost flat = flat_fields(sc@.variants);
        let mut fields: Vec<(String, String)> = Vec::new();
        proof {
            assert(pair_views(fields@) =~= Seq::<(Seq<char>, Seq<char>)>::empty());
        }
        for i in 0..fs.len()
            invariant
                refs(fs@) == flat,
                pair_views(fields@) == zero_fields(flat, i as nat),
        {
            let p = (fs[i].name.clone(), zero_literal(&fs[i].ty).to_owned());
            proof {
                pair_views_push(fields@, p);
            }
            fields.push(p);
        }
        let status: Option<String> = if sc.lifecycle.len() > 0 {
            Some(sc.lifecycle[0].clone())
        } else {
            None
        };
        WitnessState { fields, status }
    }

    /// The value that a name stands for.
    fn resolve_value(
        &self,
        value: &str,
        params: &Vec<(String, String)>,
        constants: &Vec<&(Symbol, String)>,
    ) -> (r: String)
        ensures
            r@ == resolved(self@.fields, value@, pair_views(params@), refs(constants@)),
    {
        proof {
            reveal(resolved);
        }
        let v = trim(value);
        match find_pair(params, &v) {
            Some(i) => {
                return params[i].1.clone();
            },
            None => {},
        }
        if parse_u128(&v).is_some() {
            return v;
        }
        match find_constant(constants, &v) {
            Some(i) => {
                return constants[i].1.clone();
            },
            None => {},
        }
        match find_pair(&self.fields, &v) {
            Some(i) => self.fields[i].1.clone(),
            None => "1".to_owned(),
        }
    }

    fn apply_stmt(
        &mut self,
        s: &Stmt,
        vs: &Vec<VariantRef>,
        params: &Vec<(String, String)>,
        constants: &Vec<&(Symbol, String)>,
    )
        ensures
            final(self)@.fields == after_stmt(
                old(self)@.fields,
                *s,
                variant_views(vs@),
                pair_views(params@),
                refs(constants@),
            ),
            final(self)@.status == old(self)@.status,
    {
        proof {
            reveal(after_stmt);
        }
        match get_update(s) {
            Some((path, kind, value)) => {
                let skipped: bool = match kind {
                    Update::Put => is_account_pubkey_ref(&value.rust),
                    _ => false,
                };
                if !skipped {
                    let key = strip_variant_prefix(path, vs);
                    match find_pair(&self.fields, &key) {
                        Some(i) => {
                            let v = self.resolve_value(&value.rust, params, constants);
                            let next: String = match kind {
                                Update::Put => v,
                                Update::Add => sum_string(&self.fields[i].1, &v),
                                Update::Sub => difference_string(&self.fields[i].1, &v),
                            };
                            let name = self.fields[i].0.clone();
                            let ghost before = self.fields@;
                            self.fields[i] = (name, next);
                            proof {
                                assert(pair_views(self.fields@) =~= pair_views(before).update(
                                    i as int,
                                    (name@, next@),
                                ));
                            }
                        },
                        None => {},
                    }
                }
            },
            None => {},
        }
    }

    /// Runs a handler on the witness.
    pub fn apply(
        &mut self,
        h: &HandlerMir,
        vs: &Vec<VariantRef>,
        params: &Vec<(String, String)>,
        constants: &Vec<&(Symbol, String)>,
    )
        ensures
            final(self)@ == after_handler(
                old(self)@,
                *h,
                variant_views(vs@),
                pair_views(params@),
                refs(constants@),
            ),
    {
        for i in 0..h.body.stmts.len()
            invariant
                self@.status == old(self)@.status,
                self@.fields == after_stmts(
                    old(self)@.fields,
                    h.body.stmts@,
                    variant_views(vs@),
                    pair_views(params@),
                    refs(constants@),
                    i as nat,
                ),
        {
            self.apply_stmt(&h.body.stmts[i], vs, params, constants);
        }
        match &h.transition {
            Some(t) => {
                self.status = Some(t.1.clone());
            },
            None => {},
        }
    }

    /// The witness as a value of the flat state.
    pub fn to_lean(&self) -> (r: String)
        ensures
            r@ == flat_witness_text(self@),
    {
        let mut parts: Vec<String> = Vec::new();
        for i in 0..self.fields.len()
            invariant
                texts(parts@) == values_upto(self@.fields, i as nat),
        {
            parts.push(self.fields[i].1.clone());
        }
        match &self.status {
            Some(s) => {
                let mut p = ".".to_owned();
                p.push_str(s);
                parts.push(p);
            },
            None => {},
        }
        let joined = join(&parts, ", ");
        let mut out = "⟨".to_owned();
        out.push_str(&joined);
        out.push_str("⟩");
        out
    }
}

/// The values of the first `n` fields.
pub open spec fn values_upto(fields: Seq<(Seq<char>, Seq<char>)>, n: nat) -> Seq<Seq<char>>
    decreases n,
{
    if n == 0 {
        Seq::empty()
    } else {
        values_upto(fields, (n - 1) as nat).push(fields[n - 1].1)
    }
}

/// A witness as a value of the flat state: its values in order, and the
/// lifecycle state.
pub open spec fn flat_witness_text(w: WitnessV) -> Seq<char> {
    let values = values_upto(w.fields, w.fields.len());
    let parts = match w.status {
        Some(s) => values.push("."@ + s),
        None => values,
    };
    "⟨"@ + join_text(parts, ", "@) + "⟩"@
}

/// The values of the first `n` fields of a variant.
pub open spec fn variant_values(
    fs: Seq<FieldDecl>,
    fields: Seq<(Seq<char>, Seq<char>)>,
    n: nat,
) -> Seq<Seq<char>>
    decreases n,
{
    if n == 0 {
        Seq::empty()
    } else {
        variant_values(fs, fields, (n - 1) as nat).push(
            match pair_at(fields, fs[n - 1].name@, 0) {
                Some(i) => fields[i].1,
                None => "0"@,
            },
        )
    }
}

/// A witness as a value of the inductive state: the variant that its lifecycle
/// state names.
pub open spec fn adt_witness_text(w: WitnessV, vs: Seq<VariantV>) -> Option<Seq<char>> {
    match w.status {
        Some(s) => match variant_at(vs, s, 0) {
            Some(i) => Some(
                "(."@ + vs[i].tag + (if vs[i].fields.len() == 0 {
                    Seq::empty()
                } else {
                    " "@ + join_text(
                        variant_values(vs[i].fields, w.fields, vs[i].fields.len()),
                        " "@,
                    )
                }) + " : State)"@,
            ),
            None => None,
        },
        None => None,
    }
}

fn witness_state_to_adt(w: &WitnessState, vs: &Vec<VariantRef>) -> (r: Option<String>)
    ensures
        opt_text(r) == adt_witness_text(w@, variant_views(vs@)),
{
    match &w.status {
        Some(s) => {
            match find_variant(vs, s) {
                Some(k) => {
                    let v = &vs[k];
                    let mut out = "(.".to_owned();
                    out.push_str(v.tag);
                    if v.fields.len() > 0 {
                        let mut parts: Vec<String> = Vec::new();
                        for i in 0..v.fields.len()
                            invariant
                                texts(parts@) == variant_values(v.fields@, w@.fields, i as nat),
                        {
                            match find_pair(&w.fields, &v.fields[i].name) {
                                Some(j) => {
                                    parts.push(w.fields[j].1.clone());
                                },
                                None => {
                                    parts.push("0".to_owned());
                                },
                            }
                        }
                        let joined = join(&parts, " ");
                        out.push_str(" ");
                        out.push_str(&joined);
                    }
                    out.push_str(" : State)");
                    Some(out)
                },
                None => None,
            }
        },
        None => None,
    }
}

/// A witness as a value of the state.
pub open spec fn witness_text(w: WitnessV, vs: Seq<VariantV>, adt: bool) -> Option<Seq<char>> {
    if adt {
        adt_witness_text(w, vs)
    } else {
        Some(flat_witness_text(w))
    }
}

fn render_witness(w: &WitnessState, vs: &Vec<VariantRef>, adt: bool) -> (r: Option<String>)
    ensures
        opt_text(r) == witness_text(w@, variant_views(vs@), adt),
{
    if adt {
        witness_state_to_adt(w, vs)
    } else {
        Some(w.to_lean())
    }
}

// ---------------------------------------------------------------------------
// Parameters
// ---------------------------------------------------------------------------

/// The first `n` preconditions without an error.
pub open spec fn pre_texts(ps: Seq<Predicate>, n: nat) -> Seq<Seq<char>>
    decreases n,
{
    if n == 0 {
        Seq::empty()
    } else {
        pre_texts(ps, (n - 1) as nat).push(ps[n - 1].0.lean@)
    }
}

/// With the first `n` preconditions that name an error.
pub open spec fn with_clause_texts(
    acc: Seq<Seq<char>>,
    cs: Seq<RequireOrAbortClause>,
    n: nat,
) -> Seq<Seq<char>>
    decreases n,
{
    if n == 0 {
        acc
    } else {
        with_clause_texts(acc, cs, (n - 1) as nat).push(cs[n - 1].pred.0.lean@)
    }
}

/// All preconditions of a handler in one text.
pub open spec fn all_requires(h: HandlerMir) -> Seq<char> {
    join_text(
        with_clause_texts(
            pre_texts(h.pre@, h.pre@.len()),
            h.requires_or_abort@,
            h.requires_or_abort@.len(),
        ),
        " "@,
    )
}

/// Whether a parameter is bounded by a field of the state and from nowhere
/// else.
pub open spec fn is_index_like(conds: Seq<char>, name: Seq<char>) -> bool {
    &&& contains_text(conds, name + " < s."@)
    &&& !contains_text(conds, name + " > 0"@)
    &&& !contains_text(conds, name + " ≥"@)
    &&& !contains_text(conds, "≤ "@ + name)
}

/// The value for a parameter of a witness.
pub open spec fn chosen_value(conds: Seq<char>, name: Seq<char>, t: Ty) -> Seq<char> {
    match t {
        Ty::Pubkey => "pk"@,
        Ty::Bool => "false"@,
        _ => if is_index_like(conds, name) {
            "0"@
        } else {
            "1"@
        },
    }
}

/// The values for the first `n` parameters.
pub open spec fn chosen_upto(conds: Seq<char>, params: Seq<(Symbol, Ty)>, n: nat) -> Seq<
    (Seq<char>, Seq<char>),
>
    decreases n,
{
    if n == 0 {
        Seq::empty()
    } else {
        chosen_upto(conds, params, (n - 1) as nat).push(
            (params[n - 1].0@, chosen_value(conds, params[n - 1].0@, params[n - 1].1)),
        )
    }
}

/// The values for the parameters of a handler.
pub open spec fn chosen_values(h: HandlerMir) -> Seq<(Seq<char>, Seq<char>)> {
    chosen_upto(all_requires(h), h.params@, h.params@.len())
}

fn index_like(conds: &str, name: &str) -> (r: bool)
    ensures
        r == is_index_like(conds@, name@),
{
    let mut below = name.to_owned();
    below.push_str(" < s.");
    let mut positive = name.to_owned();
    positive.push_str(" > 0");
    let mut at_least = name.to_owned();
    at_least.push_str(" ≥");
    let mut at_most = "≤ ".to_owned();
    at_most.push_str(name);
    contains(conds, &below) && !contains(conds, &positive) && !contains(conds, &at_least)
        && !contains(conds, &at_most)
}

/// Chooses the values for the parameters of a handler.
pub fn choose_param_values(h: &HandlerMir) -> (r: Vec<(String, String)>)
    ensures
        pair_views(r@) == chosen_values(*h),
{
    let mut preds: Vec<String> = Vec::new();
    for i in 0..h.pre.len()
        invariant
            texts(preds@) == pre_texts(h.pre@, i as nat),
    {
        preds.push(h.pre[i].0.lean.clone());
    }
    let ghost acc = pre_texts(h.pre@, h.pre@.len());
    for i in 0..h.requires_or_abort.len()
        invariant
            texts(preds@) == with_clause_texts(acc, h.requires_or_abort@, i as nat),
    {
        preds.push(h.requires_or_abort[i].pred.0.lean.clone());
    }
    let conds = join(&preds, " ");
    let mut out: Vec<(String, String)> = Vec::new();
    proof {
        assert(pair_views(out@) =~= Seq::<(Seq<char>, Seq<char>)>::empty());
    }
    for i in 0..h.params.len()
        invariant
            conds@ == all_requires(*h),
            pair_views(out@) == chosen_upto(conds@, h.params@, i as nat),
    {
        let name = &h.params[i].0;
        let value: &str = match &h.params[i].1 {
            Ty::Pubkey => "pk",
            Ty::Bool => "false",
            _ => if index_like(&conds, name) {
                "0"
            } else {
                "1"
            },
        };
        let p = (name.clone(), value.to_owned());
        proof {
            pair_views_push(out@, p);
        }
        out.push(p);
    }
    out
}

// ---------------------------------------------------------------------------
// Traces
// ---------------------------------------------------------------------------

/// The witness after the first `n` operations of a trace.
pub open spec fn witness_after(sc: ScopeV, trace: Seq<Seq<char>>, n: nat) -> WitnessV
    decreases n,
{
    if n == 0 {
        first_witness(sc)
    } else {
        let before = witness_after(sc, trace, (n - 1) as nat);
        match handler_at(sc.handlers, trace[n - 1], 0) {
            Some(i) => after_handler(
                before,
                sc.handlers[i],
                sc.variants,
                chosen_values(sc.handlers[i]),
                sc.constants,
            ),
            None => before,
        }
    }
}

/// The states before the first `n` operations of a trace, one line for each;
/// `None` where an operation has no handler or a state has no value.
pub open spec fn trace_lets(sc: ScopeV, trace: Seq<Seq<char>>, adt: bool, n: nat) -> Option<
    Seq<char>,
>
    decreases n,
{
    if n == 0 {
        Some(Seq::empty())
    } else {
        let k = (n - 1) as nat;
        match (
            trace_lets(sc, trace, adt, k),
            handler_at(sc.handlers, trace[k as int], 0),
            witness_text(witness_after(sc, trace, k), sc.variants, adt),
        ) {
            (Some(before), Some(_), Some(w)) => Some(before + ("  let s"@ + decimal(k) + " : State := "@ + w + "\n"@)),
            _ => None,
        }
    }
}

proof fn trace_lets_fails(sc: ScopeV, trace: Seq<Seq<char>>, adt: bool, m: nat, n: nat)
    requires
        m <= n,
        trace_lets(sc, trace, adt, m) is None,
    ensures
        trace_lets(sc, trace, adt, n) is None,
    decreases n - m,
{
    if m < n {
        assert(trace_lets(sc, trace, adt, m + 1) is None);
        trace_lets_fails(sc, trace, adt, m + 1, n);
    }
}

/// With the values of the first `n` pairs.
pub open spec fn with_values(
    acc: Seq<Seq<char>>,
    ps: Seq<(Seq<char>, Seq<char>)>,
    n: nat,
) -> Seq<Seq<char>>
    decreases n,
{
    if n == 0 {
        acc
    } else {
        with_values(acc, ps, (n - 1) as nat).push(ps[n - 1].1)
    }
}

/// The parts of the witness term for the first `n` operations: the first state
/// and the signer, and for each operation its arguments, the next state unless
/// it is the last, and a proof.
pub open spec fn exact_parts(sc: ScopeV, trace: Seq<Seq<char>>, n: nat) -> Seq<Seq<char>>
    decreases n,
{
    if n == 0 {
        seq!["s0"@, "pk"@]
    } else {
        let before = exact_parts(sc, trace, (n - 1) as nat);
        let values = match handler_at(sc.handlers, trace[n - 1], 0) {
            Some(i) => with_values(
                before,
                chosen_values(sc.handlers[i]),
                chosen_values(sc.handlers[i]).len(),
            ),
            None => before,
        };
        let stated = if n < trace.len() {
            values.push("s"@ + decimal(n))
        } else {
            values
        };
        stated.push("by decide"@)
    }
}

/// The proof of a trace: its states, and a term that a decision procedure
/// checks; `None` where the trace is empty or cannot be evaluated.
pub open spec fn trace_proof(sc: ScopeV, trace: Seq<Seq<char>>, adt: bool) -> Option<Seq<char>> {
    if trace.len() == 0 {
        None
    } else {
        match trace_lets(sc, trace, adt, trace.len()) {
            Some(lets) => Some(
                " := by\n"@ + "  let pk : Pubkey := ⟨0, 0, 0, 0⟩\n"@ + lets + "  exact ⟨"@ + join_text(exact_parts(sc, trace, trace.len()), ", "@) + "⟩\n"@,
            ),
            None => None,
        }
    }
}

/// Builds the proof of a trace.
pub fn cover_trace_proof(sc: &Scope, trace: &Vec<Symbol>, adt: bool) -> (r: Option<String>)
    ensures
        opt_text(r) == trace_proof(sc@, texts(trace@), adt),
{
    if trace.len() == 0 {
        return None;
    }
    let ghost ops = texts(trace@);
    let mut w = WitnessState::new(sc);
    let mut lets = String::new();
    let mut parts: Vec<String> = Vec::new();
    parts.push("s0".to_owned());
    parts.push("pk".to_owned());
    proof {
        assert(texts(parts@) =~= seq!["s0"@, "pk"@]);
    }
    for k in 0..trace.len()
        invariant
            ops == texts(trace@),
            w@ == witness_after(sc@, ops, k as nat),
            trace_lets(sc@, ops, adt, k as nat) == Some(lets@),
            texts(parts@) == exact_parts(sc@, ops, k as nat),
    {
        let found = find_handler(&sc.handlers, &trace[k]);
        let shown = render_witness(&w, &sc.variants, adt);
        match (found, shown) {
            (Some(i), Some(state)) => {
                let d = decimal_string(k as u128);
                lets.push_str("  let s");
                lets.push_str(&d);
                lets.push_str(" : State := ");
                lets.push_str(&state);
                lets.push_str("\n");
                let h = sc.handlers[i];
                let params = choose_param_values(h);
                let ghost acc = texts(parts@);
                for j in 0..params.len()
                    invariant
                        texts(parts@) == with_values(acc, pair_views(params@), j as nat),
                {
                    parts.push(params[j].1.clone());
                }
                if k + 1 < trace.len() {
                    let mut next = "s".to_owned();
                    push_decimal(&mut next, (k + 1) as u128);
                    parts.push(next);
                }
                parts.push("by decide".to_owned());
                w.apply(h, &sc.variants, &params, &sc.constants);
            },
            _ => {
                proof {
                    assert(trace_lets(sc@, ops, adt, (k + 1) as nat) is None);
                    trace_lets_fails(sc@, ops, adt, (k + 1) as nat, ops.len());
                }
                return None;
            },
        }
    }
    let joined = join(&parts, ", ");
    let mut out = " := by\n".to_owned();
    out.push_str("  let pk : Pubkey := ⟨0, 0, 0, 0⟩\n");
    out.push_str(&lets);
    out.push_str("  exact ⟨");
    out.push_str(&joined);
    out.push_str("⟩\n");
    Some(out)
}

// ---------------------------------------------------------------------------
// Theorems
// ---------------------------------------------------------------------------

/// The parameters of the handler of an operation.
pub open spec fn op_params(sc: ScopeV, op: Seq<char>) -> Seq<(Symbol, Ty)> {
    match handler_at(sc.handlers, op, 0) {
        Some(i) => sc.handlers[i].params@,
        None => Seq::empty(),
    }
}

/// The name of argument `k` of step `j`.
pub open spec fn step_var(j: nat, k: nat) -> Seq<char> {
    "v"@ + decimal(j) + "_"@ + decimal(k)
}

fn step_variable(j: usize, k: usize) -> (r: String)
    ensures
        r@ == step_var(j as nat, k as nat),
{
    let mut out = "v".to_owned();
    push_decimal(&mut out, j as u128);
    out.push_str("_");
    push_decimal(&mut out, k as u128);
    out
}

/// Binders for the first `n` arguments of step `j`.
pub open spec fn step_binders(params: Seq<(Symbol, Ty)>, j: nat, n: nat) -> Seq<Seq<char>>
    decreases n,
{
    if n == 0 {
        Seq::empty()
    } else {
        step_binders(params, j, (n - 1) as nat).push("("@ + step_var(j, (n - 1) as nat) + " : "@ + ty_text(params[n - 1].1) + ")"@)
    }
}

/// The first `n` arguments of step `j`.
pub open spec fn step_args(j: nat, n: nat) -> Seq<Seq<char>>
    decreases n,
{
    if n == 0 {
        Seq::empty()
    } else {
        step_args(j, (n - 1) as nat).push(step_var(j, (n - 1) as nat))
    }
}

/// Spaces before step `j`.
pub open spec fn step_indent(j: nat) -> Seq<char>
    decreases j,
{
    if j == 0 {
        "    "@
    } else {
        step_indent((j - 1) as nat) + "  "@
    }
}

/// The call of step `j`.
pub open spec fn step_call(sc: ScopeV, trace: Seq<Seq<char>>, j: nat) -> Seq<char> {
    let op = trace[j as int];
    let n = op_params(sc, op).len();
    transition_text(op) + " s"@ + decimal(j) + " signer"@ + (if n == 0 {
        Seq::empty()
    } else {
        " "@ + join_text(step_args(j, n), " "@)
    })
}

/// The existential quantifier over the arguments of step `j`.
pub open spec fn step_exists(sc: ScopeV, trace: Seq<Seq<char>>, j: nat) -> Seq<char> {
    let params = op_params(sc, trace[j as int]);
    if params.len() == 0 {
        Seq::empty()
    } else {
        step_indent(j) + "∃ "@ + join_text(step_binders(params, j, params.len()), " "@) + ", "@
    }
}

/// Step `j` of a trace: there are arguments and a next state, and the last step
/// does not reject.
#[verifier::opaque]
pub open spec fn step_text(sc: ScopeV, trace: Seq<Seq<char>>, adt: bool, j: nat) -> Seq<char> {
    step_exists(sc, trace, j) + (if j + 1 < trace.len() {
        "∃ (s"@ + decimal(j + 1) + " : State), "@ + step_call(sc, trace, j) + " = some s"@ + decimal(j + 1) + " ∧\n"@
    } else {
        step_call(sc, trace, j) + " ≠ none"@ + (match trace_proof(sc, trace, adt) {
            Some(script) => script + "\n"@,
            None => " := sorry\n\n"@,
        })
    })
}

fn emit_step(out: &mut String, sc: &Scope, trace: &Vec<Symbol>, adt: bool, j: usize, indent: &str)
    requires
        j < trace.len(),
        indent@ == step_indent(j as nat),
    ensures
        final(out)@ == old(out)@ + step_text(sc@, texts(trace@), adt, j as nat),
{
    proof {
        reveal(step_text);
    }
    let ghost params = op_params(sc@, texts(trace@)[j as int]);
    let mut binders: Vec<String> = Vec::new();
    let mut args: Vec<String> = Vec::new();
    match find_handler(&sc.handlers, &trace[j]) {
        Some(i) => {
            let h = sc.handlers[i];
            for k in 0..h.params.len()
                invariant
                    params == h.params@,
                    binders@.len() == k,
                    args@.len() == k,
                    texts(binders@) == step_binders(params, j as nat, k as nat),
                    texts(args@) == step_args(j as nat, k as nat),
            {
                let v = step_variable(j, k);
                let ty = render_ty(&h.params[k].1);
                let mut b = "(".to_owned();
                b.push_str(&v);
                b.push_str(" : ");
                b.push_str(&ty);
                b.push_str(")");
                binders.push(b);
                args.push(v);
            }
        },
        None => {},
    }
    let trans = transition_name(&trace[j]);
    let d = decimal_string(j as u128);
    if binders.len() > 0 {
        let joined = join(&binders, " ");
        out.push_str(indent);
        out.push_str("∃ ");
        out.push_str(&joined);
        out.push_str(", ");
    }
    let mut call = trans;
    call.push_str(" s");
    call.push_str(&d);
    call.push_str(" signer");
    if args.len() > 0 {
        let joined = join(&args, " ");
        call.push_str(" ");
        call.push_str(&joined);
    }
    proof {
        assert(call@ == step_call(sc@, texts(trace@), j as nat));
    }
    if j + 1 < trace.len() {
        let next = decimal_string((j + 1) as u128);
        out.push_str("∃ (s");
        out.push_str(&next);
        out.push_str(" : State), ");
        out.push_str(&call);
        out.push_str(" = some s");
        out.push_str(&next);
        out.push_str(" ∧\n");
    } else {
        out.push_str(&call);
        out.push_str(" ≠ none");
        match cover_trace_proof(sc, trace, adt) {
            Some(script) => {
                out.push_str(&script);
                out.push_str("\n");
            },
            None => {
                out.push_str(" := sorry\n\n");
            },
        }
    }
}

pub open spec fn steps_upto(sc: ScopeV, trace: Seq<Seq<char>>, adt: bool, n: nat) -> Seq<char>
    decreases n,
{
    if n == 0 {
        Seq::empty()
    } else {
        steps_upto(sc, trace, adt, (n - 1) as nat) + step_text(sc, trace, adt, (n - 1) as nat)
    }
}

/// The theorem for trace `i` of a cover.
#[verifier::opaque]
pub open spec fn trace_text(sc: ScopeV, c: CoverMir, adt: bool, i: nat) -> Seq<char> {
    let trace = texts(c.traces@[i as int]@);
    "/-- "@ + c.name@ + " — trace ["@ + join_text(trace, ", "@) + "] is reachable. -/\n"@
        + ("theorem cover_"@ + c.name@) + (if c.traces@.len() > 1 {
        "_"@ + decimal(i)
    } else {
        Seq::empty()
    }) + " : ∃ (s0 : State) (signer : Pubkey),\n"@ + steps_upto(sc, trace, adt, trace.len())
}

fn emit_trace(out: &mut String, sc: &Scope, c: &CoverMir, adt: bool, i: usize)
    requires
        i < c.traces@.len(),
    ensures
        final(out)@ == old(out)@ + trace_text(sc@, *c, adt, i as nat),
{
    proof {
        reveal(trace_text);
    }
    let trace = &c.traces[i];
    let joined = join(trace, ", ");
    out.push_str("/-- ");
    out.push_str(&c.name);
    out.push_str(" — trace [");
    out.push_str(&joined);
    out.push_str("] is reachable. -/\n");
    out.push_str("theorem cover_");
    out.push_str(&c.name);
    if c.traces.len() > 1 {
        out.push_str("_");
        push_decimal(out, i as u128);
    }
    out.push_str(" : ∃ (s0 : State) (signer : Pubkey),\n");
    let ghost base = out@;
    let mut indent = "    ".to_owned();
    for j in 0..trace.len()
        invariant
            indent@ == step_indent(j as nat),
            out@ == base + steps_upto(sc@, texts(trace@), adt, j as nat),
    {
        emit_step(out, sc, trace, adt, j, &indent);
        indent.push_str("  ");
    }
}

pub open spec fn traces_upto(sc: ScopeV, c: CoverMir, adt: bool, n: nat) -> Seq<char>
    decreases n,
{
    if n == 0 {
        Seq::empty()
    } else {
        traces_upto(sc, c, adt, (n - 1) as nat) + trace_text(sc, c, adt, (n - 1) as nat)
    }
}

/// The theorem that an operation can run, in a state that the predicate
/// describes where there is one.
#[verifier::opaque]
pub open spec fn reachable_text(
    sc: ScopeV,
    cover: Seq<char>,
    r: (Symbol, Option<Predicate>),
) -> Seq<char> {
    let params = op_params(sc, r.0@);
    "/-- "@ + cover + " — "@ + r.0@ + " is reachable"@ + (match r.1 {
        Some(p) => " when "@ + p.0.lean@ + ". -/\n"@,
        None => ". -/\n"@,
    }) + ("theorem cover_"@ + cover + "_"@ + safe_text(r.0@) + " : ∃ (s : State) (signer : Pubkey),\n"@ + "    "@)
        + (match r.1 {
        Some(p) => p.0.lean@ + " ∧ "@,
        None => Seq::empty(),
    }) + (if params.len() == 0 {
        Seq::empty()
    } else {
        "∃ "@ + join_text(binder_parts(params, params.len()), " "@) + ", "@
    }) + (transition_text(r.0@) + " s signer"@ + args_text(params) + " ≠ none := sorry\n\n"@)
}

fn emit_reachable(out: &mut String, sc: &Scope, cover: &str, r: &(Symbol, Option<Predicate>))
    ensures
        final(out)@ == old(out)@ + reachable_text(sc@, cover@, *r),
{
    proof {
        reveal(reachable_text);
    }
    let ghost params = op_params(sc@, r.0@);
    let mut binders: Vec<String> = Vec::new();
    let mut args = String::new();
    match find_handler(&sc.handlers, &r.0) {
        Some(i) => {
            let h = sc.handlers[i];
            args = param_args_str(&h.params);
            for k in 0..h.params.len()
                invariant
                    params == h.params@,
                    binders@.len() == k,
                    texts(binders@) == binder_parts(params, k as nat),
            {
                let ty = render_ty(&h.params[k].1);
                let mut b = "(".to_owned();
                b.push_str(&h.params[k].0);
                b.push_str(" : ");
                b.push_str(&ty);
                b.push_str(")");
                binders.push(b);
            }
        },
        None => {},
    }
    let op = safe_name(&r.0);
    let trans = transition_name(&r.0);
    out.push_str("/-- ");
    out.push_str(cover);
    out.push_str(" — ");
    out.push_str(&r.0);
    out.push_str(" is reachable");
    match &r.1 {
        Some(p) => {
            out.push_str(" when ");
            out.push_str(&p.0.lean);
            out.push_str(". -/\n");
        },
        None => {
            out.push_str(". -/\n");
        },
    }
    out.push_str("theorem cover_");
    out.push_str(cover);
    out.push_str("_");
    out.push_str(&op);
    out.push_str(" : ∃ (s : State) (signer : Pubkey),\n");
    out.push_str("    ");
    match &r.1 {
        Some(p) => {
            out.push_str(&p.0.lean);
            out.push_str(" ∧ ");
        },
        None => {},
    }
    if binders.len() > 0 {
        let joined = join(&binders, " ");
        out.push_str("∃ ");
        out.push_str(&joined);
        out.push_str(", ");
    }
    out.push_str(&trans);
    out.push_str(" s signer");
    out.push_str(&args);
    out.push_str(" ≠ none := sorry\n\n");
}

pub open spec fn reachables_upto(sc: ScopeV, c: CoverMir, n: nat) -> Seq<char>
    decreases n,
{
    if n == 0 {
        Seq::empty()
    } else {
        reachables_upto(sc, c, (n - 1) as nat) + reachable_text(sc, c.name@, c.reachable@[n - 1])
    }
}

pub open spec fn covers_upto(sc: ScopeV, adt: bool, n: nat) -> Seq<char>
    decreases n,
{
    if n == 0 {
        Seq::empty()
    } else {
        let c = sc.covers[n - 1];
        covers_upto(sc, adt, (n - 1) as nat) + traces_upto(sc, c, adt, c.traces@.len())
            + reachables_upto(sc, c, c.reachable@.len())
    }
}

/// The heading of the covers.
pub open spec fn covers_heading() -> Seq<char> {
    RULE@ + "-- Cover properties — reachability (existential proofs)\n"@ + RULE@ + "\n"@
}

/// The covers, on the flat or on the inductive state.
pub open spec fn covers_text(sc: ScopeV, adt: bool) -> Seq<char> {
    if sc.covers.len() == 0 {
        Seq::empty()
    } else {
        covers_heading() + covers_upto(sc, adt, sc.covers.len())
    }
}

fn emit_cover(out: &mut String, sc: &Scope, c: &CoverMir, adt: bool)
    ensures
        final(out)@ == old(out)@ + traces_upto(sc@, *c, adt, c.traces@.len()) + reachables_upto(
            sc@,
            *c,
            c.reachable@.len(),
        ),
{
    for i in 0..c.traces.len()
        invariant
            out@ == old(out)@ + traces_upto(sc@, *c, adt, i as nat),
    {
        emit_trace(out, sc, c, adt, i);
    }
    let ghost base = out@;
    for i in 0..c.reachable.len()
        invariant
            out@ == base + reachables_upto(sc@, *c, i as nat),
    {
        emit_reachable(out, sc, &c.name, &c.reachable[i]);
    }
}

/// Renders the covers.
pub fn emit_covers(out: &mut String, sc: &Scope, adt: bool)
    ensures
        final(out)@ == old(out)@ + covers_text(sc@, adt),
{
    if sc.covers.len() == 0 {
        return ;
    }
    out.push_str(RULE);
    out.push_str("-- Cover properties — reachability (existential proofs)\n");
    out.push_str(RULE);
    out.push_str("\n");
    let ghost base = out@;
    for i in 0..sc.covers.len()
        invariant
            out@ == base + covers_upto(sc@, adt, i as nat),
    {
        emit_cover(out, sc, sc.covers[i], adt);
    }
}

} // verus!
