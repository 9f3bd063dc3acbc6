//! States with bounded maps: indexed reads and writes over `Fin`.
use vstd::prelude::*;

use crate::lean::base::{
    args_text, default_value_for, dotted_path, dotted_text, dsl_default_text, dsl_ty_text,
    handler_auth_name, is_account_pubkey_ref, is_pubkey_ref, map_dsl_ty,
    mentions_handler_account_pubkey, mentions_pubkey, param_args_str, render_ty, safe_name,
    safe_text, transition_name, transition_text, ty_text,
};
use crate::lean::guards::{get_update, some_state, some_state_text, update_of, with_status_cond,
    with_status_write, auth_conds, Update};
use crate::lean::scope::{
    find_field_ref, flat_fields, flat_state_fields, refs, variant_views, whole_scope, Scope, ScopeV,
    VariantRef, VariantV,
};
use crate::lean::structure::{
    emit_ref_impls, emit_uninterpreted_helpers, helpers_text, ref_impls_text,
};
use crate::lean::subscript::{
    applied_text, effect_text, effect_value_to_lean, indexed_reads, indexed_target,
    parse_indexed_lhs, read_views, rewrite_subscripts_lean, scan_indexed_in_expr,
};
use crate::lean::transition::{alias_text, guarded_text};
use crate::mir::{
    lean_of, Expr, FieldDecl, HandlerMir, Mir, Path, PropertyMir, Stmt, Symbol, Ty,
};
use crate::names::{before, lookup, text_lt, with_entry, NameMap};
use crate::parsed::ParsedRecordType;
use crate::search::{starts_with, starts_with_text};
use crate::text::{join, join_text, same, texts};

verus! {

broadcast use {crate::text::group_text, crate::text::texts_index, crate::text::texts_len};

// ---------------------------------------------------------------------------
// Types
// ---------------------------------------------------------------------------

/// The name of a type as declared.
pub open spec fn declared_ty(t: Ty) -> Seq<char> {
    match t {
        Ty::U8 => "U8"@,
        Ty::U16 => "U16"@,
        Ty::U32 => "U32"@,
        Ty::U64 => "U64"@,
        Ty::U128 => "U128"@,
        Ty::I64 => "I64"@,
        Ty::I128 => "I128"@,
        Ty::Bool => "Bool"@,
        Ty::Pubkey => "Pubkey"@,
        Ty::Custom(n) => n@,
        Ty::MapOf { .. } => Seq::empty(),
    }
}

/// A type of an indexed state: a map is an application, and its values keep
/// their declared type.
pub open spec fn indexed_ty_text(t: Ty) -> Seq<char>
    decreases t,
{
    match t {
        Ty::MapOf { capacity, value } => "Map "@ + capacity@ + " "@ + (if *value is MapOf {
            indexed_ty_text(*value)
        } else {
            declared_ty(*value)
        }),
        _ => ty_text(t),
    }
}

fn render_declared_ty(t: &Ty) -> (r: String)
    ensures
        r@ == declared_ty(*t),
{
    match t {
        Ty::U8 => "U8".to_owned(),
        Ty::U16 => "U16".to_owned(),
        Ty::U32 => "U32".to_owned(),
        Ty::U64 => "U64".to_owned(),
        Ty::U128 => "U128".to_owned(),
        Ty::I64 => "I64".to_owned(),
        Ty::I128 => "I128".to_owned(),
        Ty::Bool => "Bool".to_owned(),
        Ty::Pubkey => "Pubkey".to_owned(),
        Ty::Custom(n) => n.clone(),
        Ty::MapOf { .. } => String::new(),
    }
}

pub fn render_ty_indexed(t: &Ty) -> (r: String)
    ensures
        r@ == indexed_ty_text(*t),
    decreases *t,
{
    match t {
        Ty::MapOf { capacity, value } => {
            let nested: bool = match &**value {
                Ty::MapOf { .. } => true,
                _ => false,
            };
            let inner: String = if nested {
                render_ty_indexed(value)
            } else {
                render_declared_ty(value)
            };
            let mut out = "Map ".to_owned();
            out.push_str(capacity);
            out.push_str(" ");
            out.push_str(&inner);
            out
        },
        _ => render_ty(t),
    }
}

/// The first constant from `from` on whose name starts with `MAX_`.
pub open spec fn max_const_at(cs: Seq<(Symbol, String)>, from: int) -> Option<int>
    decreases cs.len() - from,
{
    if from < 0 || from >= cs.len() {
        None
    } else if starts_with_text(cs[from].0@, "MAX_"@) {
        Some(from)
    } else {
        max_const_at(cs, from + 1)
    }
}

/// The first constant from `from` on whose name starts with `MAX`.
pub open spec fn any_max_at(cs: Seq<(Symbol, String)>, from: int) -> Option<int>
    decreases cs.len() - from,
{
    if from < 0 || from >= cs.len() {
        None
    } else if starts_with_text(cs[from].0@, "MAX"@) {
        Some(from)
    } else {
        any_max_at(cs, from + 1)
    }
}

/// The bound of the account index: the first constant `MAX_*` that is declared,
/// else the first `MAX*`, else a number.
pub open spec fn idx_bound(cs: Seq<(Symbol, String)>) -> Seq<char> {
    match max_const_at(cs, 0) {
        Some(i) => cs[i].0@,
        None => match any_max_at(cs, 0) {
            Some(i) => cs[i].0@,
            None => "1024"@,
        },
    }
}

pub fn pick_account_idx_bound_mir(cs: &Vec<(Symbol, String)>) -> (r: String)
    ensures
        r@ == idx_bound(cs@),
{
    let mut i: usize = 0;
    while i < cs.len()
        invariant
            i <= cs@.len(),
            max_const_at(cs@, 0) == max_const_at(cs@, i as int),
        decreases cs@.len() - i,
    {
        if starts_with(&cs[i].0, "MAX_") {
            return cs[i].0.clone();
        }
        i = i + 1;
    }
    let mut i: usize = 0;
    while i < cs.len()
        invariant
            i <= cs@.len(),
            max_const_at(cs@, 0) is None,
            any_max_at(cs@, 0) == any_max_at(cs@, i as int),
        decreases cs@.len() - i,
    {
        if starts_with(&cs[i].0, "MAX") {
            return cs[i].0.clone();
        }
        i = i + 1;
    }
    "1024".to_owned()
}

// ---------------------------------------------------------------------------
// Maps
// ---------------------------------------------------------------------------

/// Names with a bound each, in the order of the names.
pub type Bounds = Seq<(Seq<char>, String)>;

/// With the maps among the first `n` fields, each with its capacity.
pub open spec fn with_maps(acc: Bounds, fs: Seq<FieldDecl>, n: nat) -> Bounds
    decreases n,
{
    if n == 0 {
        acc
    } else {
        let rest = with_maps(acc, fs, (n - 1) as nat);
        match fs[n - 1].ty {
            Ty::MapOf { capacity, .. } => with_entry(rest, fs[n - 1].name@, capacity),
            _ => rest,
        }
    }
}

/// The maps among the fields of the first `n` variants.
pub open spec fn maps_upto(vs: Seq<VariantV>, n: nat) -> Bounds
    decreases n,
{
    if n == 0 {
        Seq::empty()
    } else {
        with_maps(maps_upto(vs, (n - 1) as nat), vs[n - 1].fields, vs[n - 1].fields.len())
    }
}

/// The maps of the state, each with its capacity.
pub open spec fn map_roots(vs: Seq<VariantV>) -> Bounds {
    maps_upto(vs, vs.len())
}

fn collect_map_roots(vs: &Vec<VariantRef>) -> (r: NameMap<String>)
    ensures
        r@ == map_roots(variant_views(vs@)),
{
    let mut out: NameMap<String> = NameMap::new();
    for i in 0..vs.len()
        invariant
            out@ == maps_upto(variant_views(vs@), i as nat),
    {
        let fields = vs[i].fields;
        let ghost acc = out@;
        for j in 0..fields.len()
            invariant
                out@ == with_maps(acc, fields@, j as nat),
        {
            match &fields[j].ty {
                Ty::MapOf { capacity, .. } => {
                    out.insert(fields[j].name.clone(), capacity.clone());
                },
                _ => {},
            }
        }
        proof {
            assert(variant_views(vs@)[i as int].fields == fields@);
        }
    }
    out
}

// ---------------------------------------------------------------------------
// Index parameters
// ---------------------------------------------------------------------------

/// Whether one of the first `n` parameters is an unsigned number of that name.
pub open spec fn is_scalar_param(params: Seq<(Symbol, Ty)>, name: Seq<char>, n: nat) -> bool
    decreases n,
{
    if n == 0 {
        false
    } else {
        is_scalar_param(params, name, (n - 1) as nat) || (params[n - 1].0@ == name && (
        params[n - 1].1 is U8 || params[n - 1].1 is U16 || params[n - 1].1 is U32
            || params[n - 1].1 is U64 || params[n - 1].1 is U128))
    }
}

fn scalar_param(params: &Vec<(Symbol, Ty)>, name: &str) -> (r: bool)
    ensures
        r == is_scalar_param(params@, name@, params@.len()),
{
    let mut found: bool = false;
    for i in 0..params.len()
        invariant
            found == is_scalar_param(params@, name@, i as nat),
    {
        let unsigned: bool = match &params[i].1 {
            Ty::U8 => true,
            Ty::U16 => true,
            Ty::U32 => true,
            Ty::U64 => true,
            Ty::U128 => true,
            _ => false,
        };
        if unsigned && same(&params[i].0, name) {
            found = true;
        }
    }
    found
}

/// With the bound of a parameter that indexes a map, unless it has one.
pub open spec fn with_index(
    acc: Bounds,
    h: HandlerMir,
    roots: Bounds,
    idx: Seq<char>,
    root: Seq<char>,
) -> Bounds {
    if is_scalar_param(h.params@, idx, h.params@.len()) && lookup(acc, idx) is None {
        match lookup(roots, root) {
            Some(bound) => with_entry(acc, idx, bound),
            None => acc,
        }
    } else {
        acc
    }
}

fn record_index(
    acc: &mut NameMap<String>,
    h: &HandlerMir,
    roots: &NameMap<String>,
    idx: &str,
    root: &str,
)
    ensures
        final(acc)@ == with_index(old(acc)@, *h, roots@, idx@, root@),
{
    if scalar_param(&h.params, idx) && !acc.has(idx) {
        match roots.get(root) {
            Some(bound) => {
                acc.insert(idx.to_owned(), bound.clone());
            },
            None => {},
        }
    }
}

/// With the first `n` of a list of indexed reads.
pub open spec fn with_reads(
    acc: Bounds,
    h: HandlerMir,
    roots: Bounds,
    reads: Seq<(Seq<char>, Seq<char>)>,
    n: nat,
) -> Bounds
    decreases n,
{
    if n == 0 {
        acc
    } else {
        with_index(
            with_reads(acc, h, roots, reads, (n - 1) as nat),
            h,
            roots,
            reads[n - 1].0,
            reads[n - 1].1,
        )
    }
}

/// With the indexed reads of an expression.
pub open spec fn with_expr(acc: Bounds, h: HandlerMir, roots: Bounds, expr: Seq<char>) -> Bounds {
    with_reads(acc, h, roots, indexed_reads(expr), indexed_reads(expr).len())
}

fn record_expr(acc: &mut NameMap<String>, h: &HandlerMir, roots: &NameMap<String>, expr: &str)
    ensures
        final(acc)@ == with_expr(old(acc)@, *h, roots@, expr@),
{
    let reads = scan_indexed_in_expr(expr);
    for i in 0..reads.len()
        invariant
            acc@ == with_reads(old(acc)@, *h, roots@, read_views(reads@), i as nat),
    {
        record_index(acc, h, roots, &reads[i].0, &reads[i].1);
    }
}

/// The first segment of a path, or nothing.
pub open spec fn path_head(p: Path) -> Seq<char> {
    if p@.len() > 0 {
        p@[0]
    } else {
        Seq::empty()
    }
}

/// With the indexes of the targets of the first `n` statements.
pub open spec fn with_targets(
    acc: Bounds,
    h: HandlerMir,
    roots: Bounds,
    n: nat,
) -> Bounds
    decreases n,
{
    if n == 0 {
        acc
    } else {
        let rest = with_targets(acc, h, roots, (n - 1) as nat);
        match update_of(h.body.stmts@[n - 1]) {
            Some((path, kind, value)) => match indexed_target(path_head(path)) {
                Some((root, idx, inner)) => with_index(rest, h, roots, idx, root),
                None => rest,
            },
            None => rest,
        }
    }
}

/// With the indexes in the first `n` preconditions without an error.
pub open spec fn with_pres(acc: Bounds, h: HandlerMir, roots: Bounds, n: nat) -> Bounds
    decreases n,
{
    if n == 0 {
        acc
    } else {
        with_expr(
            with_pres(acc, h, roots, (n - 1) as nat),
            h,
            roots,
            h.pre@[n - 1].0.lean@,
        )
    }
}

/// With the indexes in the preconditions with an error among the first `n`
/// statements.
pub open spec fn with_checks(acc: Bounds, h: HandlerMir, roots: Bounds, n: nat) -> Bounds
    decreases n,
{
    if n == 0 {
        acc
    } else {
        let rest = with_checks(acc, h, roots, (n - 1) as nat);
        match h.body.stmts@[n - 1] {
            Stmt::RequireOrAbort { pred, .. } => with_expr(rest, h, roots, pred.0.lean@),
            _ => rest,
        }
    }
}

/// With the indexes in the values that the first `n` statements write.
pub open spec fn with_values(acc: Bounds, h: HandlerMir, roots: Bounds, n: nat) -> Bounds
    decreases n,
{
    if n == 0 {
        acc
    } else {
        let rest = with_values(acc, h, roots, (n - 1) as nat);
        match update_of(h.body.stmts@[n - 1]) {
            Some((path, kind, value)) => with_expr(rest, h, roots, lean_of(value)),
            None => rest,
        }
    }
}

/// The parameters of a handler that index a map where it writes or reads one,
/// each with the capacity of the first map that it indexes.
pub open spec fn promotions(h: HandlerMir, roots: Bounds) -> Bounds {
    let a = with_targets(Seq::empty(), h, roots, h.body.stmts@.len());
    let b = with_pres(a, h, roots, h.pre@.len());
    let c = with_checks(b, h, roots, h.body.stmts@.len());
    with_values(c, h, roots, h.body.stmts@.len())
}

fn infer_idx_promotions(h: &HandlerMir, roots: &NameMap<String>) -> (r: NameMap<String>)
    ensures
        r@ == promotions(*h, roots@),
{
    let mut acc: NameMap<String> = NameMap::new();
    for i in 0..h.body.stmts.len()
        invariant
            acc@ == with_targets(Seq::empty(), *h, roots@, i as nat),
    {
        match get_update(&h.body.stmts[i]) {
            Some((path, kind, value)) => {
                let head: String = if path.segments.len() > 0 {
                    path.segments[0].clone()
                } else {
                    String::new()
                };
                match parse_indexed_lhs(&head) {
                    Some((root, idx, inner)) => {
                        record_index(&mut acc, h, roots, &idx, &root);
                    },
                    None => {},
                }
            },
            None => {},
        }
    }
    let ghost a = acc@;
    for i in 0..h.pre.len()
        invariant
            acc@ == with_pres(a, *h, roots@, i as nat),
    {
        record_expr(&mut acc, h, roots, &h.pre[i].0.lean);
    }
    let ghost b = acc@;
    for i in 0..h.body.stmts.len()
        invariant
            acc@ == with_checks(b, *h, roots@, i as nat),
    {
        match &h.body.stmts[i] {
            Stmt::RequireOrAbort { pred, .. } => {
                record_expr(&mut acc, h, roots, &pred.0.lean);
            },
            _ => {},
        }
    }
    let ghost c = acc@;
    for i in 0..h.body.stmts.len()
        invariant
            acc@ == with_values(c, *h, roots@, i as nat),
    {
        match get_update(&h.body.stmts[i]) {
            Some((path, kind, value)) => {
                record_expr(&mut acc, h, roots, value.lean_form());
            },
            None => {},
        }
    }
    acc
}

/// The type of a parameter: `Fin` of the bound where it indexes a map.
pub open spec fn param_ty(p: (Symbol, Ty), bounds: Bounds) -> Seq<char> {
    match lookup(bounds, p.0@) {
        Some(b) => "Fin "@ + b@,
        None => ty_text(p.1),
    }
}

/// The first `n` parameters as binders, each after a space.
pub open spec fn indexed_sig_upto(params: Seq<(Symbol, Ty)>, bounds: Bounds, n: nat) -> Seq<char>
    decreases n,
{
    if n == 0 {
        Seq::empty()
    } else {
        indexed_sig_upto(params, bounds, (n - 1) as nat) + (" ("@ + params[n - 1].0@ + " : "@ + param_ty(params[n - 1], bounds) + ")"@)
    }
}

/// The parameters of a handler as binders.
pub open spec fn indexed_sig(h: HandlerMir, roots: Bounds) -> Seq<char> {
    indexed_sig_upto(h.params@, promotions(h, roots), h.params@.len())
}

fn indexed_param_sig(h: &HandlerMir, roots: &NameMap<String>) -> (r: String)
    ensures
        r@ == indexed_sig(*h, roots@),
{
    let bounds = infer_idx_promotions(h, roots);
    let mut out = String::new();
    for i in 0..h.params.len()
        invariant
            bounds@ == promotions(*h, roots@),
            out@ == indexed_sig_upto(h.params@, bounds@, i as nat),
    {
        out.push_str(" (");
        out.push_str(&h.params[i].0);
        out.push_str(" : ");
        match bounds.get(&h.params[i].0) {
            Some(b) => {
                out.push_str("Fin ");
                out.push_str(b);
            },
            None => {
                let ty = render_ty(&h.params[i].1);
                out.push_str(&ty);
            },
        }
        out.push_str(")");
    }
    out
}

// ---------------------------------------------------------------------------
// Writes
// ---------------------------------------------------------------------------

/// One write into an entry: the inner field, the kind and the value.
pub struct Write {
    pub field: String,
    pub kind: Update,
    pub value: String,
}

/// The writes into one entry of a map.
pub struct Group {
    pub root: String,
    pub idx: String,
    pub writes: Vec<Write>,
}

/// One write into an entry.
pub struct WriteV {
    pub field: Seq<char>,
    pub kind: Update,
    pub value: Seq<char>,
}

/// The writes into one entry of a map.
pub struct GroupV {
    pub root: Seq<char>,
    pub idx: Seq<char>,
    pub writes: Seq<WriteV>,
}

pub open spec fn write_view(w: Write) -> WriteV {
    WriteV { field: w.field@, kind: w.kind, value: w.value@ }
}

pub open spec fn writes_view(ws: Seq<Write>) -> Seq<WriteV> {
    Seq::new(ws.len(), |i: int| write_view(ws[i]))
}

pub open spec fn group_view(g: Group) -> GroupV {
    GroupV { root: g.root@, idx: g.idx@, writes: writes_view(g.writes@) }
}

pub open spec fn groups_view(gs: Seq<Group>) -> Seq<GroupV> {
    Seq::new(gs.len(), |i: int| group_view(gs[i]))
}

/// The order of entries: by the map, then by the index.
pub open spec fn entry_lt(
    root: Seq<char>,
    idx: Seq<char>,
    root2: Seq<char>,
    idx2: Seq<char>,
) -> bool {
    text_lt(root, root2) || (root == root2 && text_lt(idx, idx2))
}

/// The groups with one more write: in the group of its entry, or in a new one
/// before the groups of greater entries.
pub open spec fn with_write(
    gs: Seq<GroupV>,
    root: Seq<char>,
    idx: Seq<char>,
    w: WriteV,
) -> Seq<GroupV>
    decreases gs.len(),
{
    if gs.len() == 0 {
        seq![GroupV { root, idx, writes: seq![w] }]
    } else {
        let last = gs.last();
        if entry_lt(root, idx, last.root, last.idx) {
            with_write(gs.drop_last(), root, idx, w).push(last)
        } else if last.root == root && last.idx == idx {
            gs.drop_last().push(GroupV { root, idx, writes: last.writes.push(w) })
        } else {
            gs.push(GroupV { root, idx, writes: seq![w] })
        }
    }
}

fn entry_before(root: &str, idx: &str, g: &Group) -> (r: bool)
    ensures
        r == entry_lt(root@, idx@, g.root@, g.idx@),
{
    before(root, &g.root) || (same(root, &g.root) && before(idx, &g.idx))
}

fn add_write(gs: &mut Vec<Group>, root: String, idx: String, w: Write)
    ensures
        groups_view(final(gs)@) == with_write(
            groups_view(old(gs)@),
            root@,
            idx@,
            write_view(w),
        ),
{
    let ghost all = groups_view(gs@);
    let ghost x = write_view(w);
    let mut i: usize = gs.len();
    proof {
        assert(all.take(i as int) =~= all);
        assert(with_write(all, root@, idx@, x) =~= with_write(all.take(i as int), root@, idx@, x)
            + all.subrange(i as int, all.len() as int));
    }
    while i > 0 && entry_before(&root, &idx, &gs[i - 1])
        invariant
            i <= gs@.len(),
            *gs == *old(gs),
            all == groups_view(gs@),
            with_write(all, root@, idx@, x) == with_write(all.take(i as int), root@, idx@, x)
                + all.subrange(i as int, all.len() as int),
        decreases i,
    {
        proof {
            assert(all.take(i as int).drop_last() =~= all.take(i - 1));
            assert(with_write(all.take(i - 1), root@, idx@, x).push(all[i - 1]) + all.subrange(
                i as int,
                all.len() as int,
            ) =~= with_write(all.take(i - 1), root@, idx@, x) + all.subrange(
                i - 1,
                all.len() as int,
            ));
        }
        i = i - 1;
    }
    proof {
        if i > 0 {
            assert(all.take(i as int).drop_last() =~= all.take(i - 1));
        }
    }
    if i > 0 && same(&root, &gs[i - 1].root) && same(&idx, &gs[i - 1].idx) {
        let mut g = gs.remove(i - 1);
        let ghost ws = writes_view(g.writes@);
        g.writes.push(w);
        proof {
            assert(writes_view(g.writes@) =~= ws.push(x));
        }
        gs.insert(i - 1, g);
        proof {
            assert(groups_view(gs@) =~= with_write(all, root@, idx@, x));
        }
    } else {
        let mut writes: Vec<Write> = Vec::new();
        writes.push(w);
        let g = Group { root, idx, writes };
        proof {
            assert(writes_view(writes@) =~= seq![x]);
        }
        gs.insert(i, g);
        proof {
            assert(groups_view(gs@) =~= with_write(all, root@, idx@, x));
        }
    }
}

/// The target of an update that writes into a map of the state.
pub open spec fn map_target(path: Path, roots: Bounds) -> Option<
    (Seq<char>, Seq<char>, Seq<char>),
> {
    match indexed_target(dotted_text(path)) {
        Some(t) => if lookup(roots, t.0) is Some {
            Some(t)
        } else {
            None
        },
        None => None,
    }
}

/// An assignment of a public key has no meaning in Lean.
pub open spec fn is_dropped(kind: Update, value: Expr) -> bool {
    kind == Update::Put && is_pubkey_ref(lean_of(value))
}

/// The writes into maps among the first `n` statements, by entry.
pub open spec fn map_writes(h: HandlerMir, roots: Bounds, n: nat) -> Seq<GroupV>
    decreases n,
{
    if n == 0 {
        Seq::empty()
    } else {
        let rest = map_writes(h, roots, (n - 1) as nat);
        match update_of(h.body.stmts@[n - 1]) {
            Some((path, kind, value)) => match map_target(path, roots) {
                Some((root, idx, inner)) => if is_dropped(kind, value) {
                    rest
                } else {
                    with_write(
                        rest,
                        root,
                        idx,
                        WriteV { field: inner, kind, value: lean_of(value) },
                    )
                },
                None => rest,
            },
            None => rest,
        }
    }
}

/// The record update of a plain field.
pub open spec fn scalar_write(h: HandlerMir, path: Path, kind: Update, value: Expr) -> Seq<char> {
    let f = safe_text(dotted_text(path));
    let v = effect_text(lean_of(value), h.params@);
    match kind {
        Update::Add => f + " := s."@ + f + " + "@ + v,
        Update::Sub => f + " := s."@ + f + " - "@ + v,
        Update::Put => f + " := "@ + v,
    }
}

/// The record updates of plain fields among the first `n` statements.
pub open spec fn scalar_writes(h: HandlerMir, roots: Bounds, n: nat) -> Seq<Seq<char>>
    decreases n,
{
    if n == 0 {
        Seq::empty()
    } else {
        let rest = scalar_writes(h, roots, (n - 1) as nat);
        match update_of(h.body.stmts@[n - 1]) {
            Some((path, kind, value)) => if is_dropped(kind, value) || map_target(
                path,
                roots,
            ) is Some {
                rest
            } else {
                rest.push(scalar_write(h, path, kind, value))
            },
            None => rest,
        }
    }
}

fn scalar_write_string(h: &HandlerMir, lhs: &str, kind: Update, value: &Expr) -> (r: String)
    ensures
        forall|path: Path|
            dotted_text(path) == lhs@ ==> r@ == #[trigger] scalar_write(*h, path, kind, *value),
{
    let f = safe_name(lhs);
    let v = effect_value_to_lean(value.lean_form(), &h.params);
    let mut out = f.clone();
    match kind {
        Update::Add => {
            out.push_str(" := s.");
            out.push_str(&f);
            out.push_str(" + ");
            out.push_str(&v);
        },
        Update::Sub => {
            out.push_str(" := s.");
            out.push_str(&f);
            out.push_str(" - ");
            out.push_str(&v);
        },
        Update::Put => {
            out.push_str(" := ");
            out.push_str(&v);
        },
    }
    out
}

/// Sorts the writes of a handler into those of plain fields and those into
/// maps.
fn collect_writes(h: &HandlerMir, roots: &NameMap<String>) -> (r: (Vec<String>, Vec<Group>))
    ensures
        texts(r.0@) == scalar_writes(*h, roots@, h.body.stmts@.len()),
        groups_view(r.1@) == map_writes(*h, roots@, h.body.stmts@.len()),
{
    let mut scalars: Vec<String> = Vec::new();
    let mut groups: Vec<Group> = Vec::new();
    proof {
        assert(groups_view(groups@) =~= Seq::<GroupV>::empty());
    }
    for i in 0..h.body.stmts.len()
        invariant
            texts(scalars@) == scalar_writes(*h, roots@, i as nat),
            groups_view(groups@) == map_writes(*h, roots@, i as nat),
    {
        match get_update(&h.body.stmts[i]) {
            Some((path, kind, value)) => {
                let dropped: bool = match kind {
                    Update::Put => is_account_pubkey_ref(value.lean_form()),
                    _ => false,
                };
                if !dropped {
                    let lhs = dotted_path(path);
                    let target = parse_indexed_lhs(&lhs);
                    let mut plain: bool = true;
                    match target {
                        Some((root, idx, inner)) => {
                            if roots.has(&root) {
                                plain = false;
                                add_write(
                                    &mut groups,
                                    root,
                                    idx,
                                    Write { field: inner, kind, value: value.lean_form().clone() },
                                );
                            }
                        },
                        None => {},
                    }
                    if plain {
                        scalars.push(scalar_write_string(h, &lhs, kind, value));
                    }
                }
            },
            None => {},
        }
    }
    (scalars, groups)
}

/// The update of an inner field of an entry.
pub open spec fn inner_update(h: HandlerMir, g: GroupV, w: WriteV) -> Seq<char> {
    let v = effect_text(w.value, h.params@);
    w.field + " := "@ + (match w.kind {
        Update::Add => "(s."@ + g.root + " "@ + g.idx + ")."@ + w.field + " + "@ + v,
        Update::Sub => "(s."@ + g.root + " "@ + g.idx + ")."@ + w.field + " - "@ + v,
        Update::Put => v,
    })
}

/// The updates of the first `n` inner fields of an entry.
pub open spec fn inner_updates(h: HandlerMir, g: GroupV, n: nat) -> Seq<Seq<char>>
    decreases n,
{
    if n == 0 {
        Seq::empty()
    } else {
        inner_updates(h, g, (n - 1) as nat).push(inner_update(h, g, g.writes[n - 1]))
    }
}

/// The record update for an entry: the whole entry, or some of its fields.
#[verifier::opaque]
pub open spec fn group_text(h: HandlerMir, g: GroupV) -> Seq<char> {
    safe_text(g.root) + " := Function.update s."@ + g.root + " "@ + g.idx + " "@ + (if g.writes.len()
        == 1 && g.writes[0].field.len() == 0 {
        "("@ + applied_text(g.writes[0].value) + ")"@
    } else {
        "{ (s."@ + g.root + " "@ + g.idx + ") with "@ + join_text(inner_updates(h, g, g.writes.len()), ", "@) + " }"@
    })
}

fn render_group(h: &HandlerMir, g: &Group) -> (r: String)
    ensures
        r@ == group_text(*h, group_view(*g)),
{
    proof {
        reveal(group_text);
    }
    let mut out = safe_name(&g.root);
    out.push_str(" := Function.update s.");
    out.push_str(&g.root);
    out.push_str(" ");
    out.push_str(&g.idx);
    out.push_str(" ");
    if g.writes.len() == 1 && g.writes[0].field.as_str().is_empty() {
        let v = rewrite_subscripts_lean(&g.writes[0].value);
        out.push_str("(");
        out.push_str(&v);
        out.push_str(")");
    } else {
        let mut parts: Vec<String> = Vec::new();
        for i in 0..g.writes.len()
            invariant
                texts(parts@) == inner_updates(*h, group_view(*g), i as nat),
        {
            let w = &g.writes[i];
            let v = effect_value_to_lean(&w.value, &h.params);
            let mut p = w.field.clone();
            p.push_str(" := ");
            match w.kind {
                Update::Add => {
                    p.push_str("(s.");
                    p.push_str(&g.root);
                    p.push_str(" ");
                    p.push_str(&g.idx);
                    p.push_str(").");
                    p.push_str(&w.field);
                    p.push_str(" + ");
                    p.push_str(&v);
                },
                Update::Sub => {
                    p.push_str("(s.");
                    p.push_str(&g.root);
                    p.push_str(" ");
                    p.push_str(&g.idx);
                    p.push_str(").");
                    p.push_str(&w.field);
                    p.push_str(" - ");
                    p.push_str(&v);
                },
                Update::Put => {
                    p.push_str(&v);
                },
            }
            parts.push(p);
        }
        let joined = join(&parts, ", ");
        out.push_str("{ (s.");
        out.push_str(&g.root);
        out.push_str(" ");
        out.push_str(&g.idx);
        out.push_str(") with ");
        out.push_str(&joined);
        out.push_str(" }");
    }
    out
}

/// With the record updates of the first `n` groups.
pub open spec fn with_groups(
    acc: Seq<Seq<char>>,
    h: HandlerMir,
    gs: Seq<GroupV>,
    n: nat,
) -> Seq<Seq<char>>
    decreases n,
{
    if n == 0 {
        acc
    } else {
        with_groups(acc, h, gs, (n - 1) as nat).push(group_text(h, gs[n - 1]))
    }
}

/// All record updates of a handler: plain fields, maps, the lifecycle marker.
pub open spec fn indexed_writes(h: HandlerMir, roots: Bounds, marker: bool) -> Seq<Seq<char>> {
    let gs = map_writes(h, roots, h.body.stmts@.len());
    with_status_write(
        with_groups(scalar_writes(h, roots, h.body.stmts@.len()), h, gs, gs.len()),
        marker,
        h,
    )
}

fn build_writes(h: &HandlerMir, roots: &NameMap<String>, marker: bool) -> (r: Vec<String>)
    ensures
        texts(r@) == indexed_writes(*h, roots@, marker),
{
    let (scalars, groups) = collect_writes(h, roots);
    let mut parts: Vec<String> = scalars;
    let ghost acc = texts(parts@);
    for i in 0..groups.len()
        invariant
            texts(parts@) == with_groups(acc, *h, groups_view(groups@), i as nat),
    {
        parts.push(render_group(h, &groups[i]));
    }
    match &h.transition {
        Some(t) => {
            if marker {
                let name = safe_name(&t.1);
                let mut p = "status := .".to_owned();
                p.push_str(&name);
                parts.push(p);
            }
        },
        None => {},
    }
    parts
}

// ---------------------------------------------------------------------------
// Transitions
// ---------------------------------------------------------------------------

/// With the first `n` preconditions, in parentheses and with subscripts as
/// applications, but for those that speak of a public key.
pub open spec fn with_indexed_conds(
    acc: Seq<Seq<char>>,
    h: HandlerMir,
    n: nat,
) -> Seq<Seq<char>>
    decreases n,
{
    if n == 0 {
        acc
    } else {
        let rest = with_indexed_conds(acc, h, (n - 1) as nat);
        let lean = h.requires_in_order@[n - 1].0.lean@;
        if mentions_pubkey(lean, h.accounts@) {
            rest
        } else {
            rest.push("("@ + applied_text(lean) + ")"@)
        }
    }
}

/// The conditions under which a handler runs.
pub open spec fn indexed_conds(fs: Seq<FieldDecl>, h: HandlerMir, marker: bool) -> Seq<Seq<char>> {
    with_indexed_conds(
        with_status_cond(auth_conds(fs, h), marker, h),
        h,
        h.requires_in_order@.len(),
    )
}

fn build_conds(fields: &Vec<&FieldDecl>, h: &HandlerMir, marker: bool) -> (r: Vec<String>)
    ensures
        texts(r@) == indexed_conds(refs(fields@), *h, marker),
{
    let mut conds: Vec<String> = Vec::new();
    match handler_auth_name(h) {
        Some(who) => {
            if find_field_ref(fields, who).is_some() {
                let name = safe_name(who);
                let mut c = "signer = s.".to_owned();
                c.push_str(&name);
                conds.push(c);
            }
        },
        None => {},
    }
    match &h.transition {
        Some(t) => {
            if marker {
                let name = safe_name(&t.0);
                let mut c = "s.status = .".to_owned();
                c.push_str(&name);
                conds.push(c);
            }
        },
        None => {},
    }
    let ghost acc = with_status_cond(auth_conds(refs(fields@), *h), marker, *h);
    for i in 0..h.requires_in_order.len()
        invariant
            texts(conds@) == with_indexed_conds(acc, *h, i as nat),
    {
        let lean = &h.requires_in_order[i].0.lean;
        if !mentions_handler_account_pubkey(lean, &h.accounts) {
            let applied = rewrite_subscripts_lean(lean);
            let mut c = "(".to_owned();
            c.push_str(&applied);
            c.push_str(")");
            conds.push(c);
        }
    }
    conds
}

/// The transition function of a handler on an indexed state.
#[verifier::opaque]
pub open spec fn indexed_transition_text(
    fs: Seq<FieldDecl>,
    h: HandlerMir,
    roots: Bounds,
    marker: bool,
) -> Seq<char> {
    let conds = indexed_conds(fs, h, marker);
    "def "@ + transition_text(h.name@) + " (s : State) (signer : Pubkey)"@ + indexed_sig(h, roots) + " : Option State :=\n"@
        + alias_text(fs, h) + guarded_text(
        join_text(conds, " ∧ "@),
        conds.len() > 0,
        some_state_text(indexed_writes(h, roots, marker)),
    )
}

fn emit_indexed_transition(
    out: &mut String,
    fields: &Vec<&FieldDecl>,
    h: &HandlerMir,
    roots: &NameMap<String>,
    marker: bool,
)
    ensures
        final(out)@ == old(out)@ + indexed_transition_text(refs(fields@), *h, roots@, marker),
{
    proof {
        reveal(indexed_transition_text);
    }
    let trans = transition_name(&h.name);
    let sig = indexed_param_sig(h, roots);
    out.push_str("def ");
    out.push_str(&trans);
    out.push_str(" (s : State) (signer : Pubkey)");
    out.push_str(&sig);
    out.push_str(" : Option State :=\n");
    match handler_auth_name(h) {
        Some(who) => {
            if find_field_ref(fields, who).is_none() {
                let name = safe_name(who);
                out.push_str("  let ");
                out.push_str(&name);
                out.push_str(" := signer\n");
            }
        },
        None => {},
    }
    let conds = build_conds(fields, h, marker);
    let writes = build_writes(h, roots, marker);
    let body = some_state(&writes);
    if conds.len() == 0 {
        out.push_str("  ");
        out.push_str(&body);
        out.push_str("\n\n");
    } else {
        let cond = join(&conds, " ∧ ");
        out.push_str("  if ");
        out.push_str(&cond);
        out.push_str(" then\n");
        out.push_str("    ");
        out.push_str(&body);
        out.push_str("\n");
        out.push_str("  else none\n\n");
    }
}

pub open spec fn indexed_transitions_upto(sc: ScopeV, roots: Bounds, n: nat) -> Seq<char>
    decreases n,
{
    if n == 0 {
        Seq::empty()
    } else {
        indexed_transitions_upto(sc, roots, (n - 1) as nat) + indexed_transition_text(
            flat_fields(sc.variants),
            sc.handlers[n - 1],
            roots,
            sc.has_marker(),
        )
    }
}

fn emit_indexed_transitions(out: &mut String, sc: &Scope, roots: &NameMap<String>)
    ensures
        final(out)@ == old(out)@ + indexed_transitions_upto(sc@, roots@, sc@.handlers.len()),
{
    let fields = flat_state_fields(&sc.variants);
    let marker: bool = sc.lifecycle.len() >= 2;
    for i in 0..sc.handlers.len()
        invariant
            refs(fields@) == flat_fields(sc@.variants),
            marker == sc@.has_marker(),
            out@ == old(out)@ + indexed_transitions_upto(sc@, roots@, i as nat),
    {
        emit_indexed_transition(out, &fields, sc.handlers[i], roots, marker);
    }
}

pub open spec fn indexed_ctors(hs: Seq<HandlerMir>, roots: Bounds, n: nat) -> Seq<char>
    decreases n,
{
    if n == 0 {
        Seq::empty()
    } else {
        indexed_ctors(hs, roots, (n - 1) as nat) + ("  | "@ + safe_text(hs[n - 1].name@) + indexed_sig(hs[n - 1], roots) + "\n"@)
    }
}

pub open spec fn indexed_cases(hs: Seq<HandlerMir>, n: nat) -> Seq<char>
    decreases n,
{
    if n == 0 {
        Seq::empty()
    } else {
        let h = hs[n - 1];
        indexed_cases(hs, (n - 1) as nat) + ("  | ."@ + safe_text(h.name@) + args_text(h.params@) + " => "@ + safe_text(h.name@) + "Transition s signer"@ + args_text(h.params@) + "\n"@)
    }
}

/// The operations as a type, and the function that applies one.
pub open spec fn indexed_operations_text(hs: Seq<HandlerMir>, roots: Bounds) -> Seq<char> {
    if hs.len() == 0 {
        Seq::empty()
    } else {
        "inductive Operation where\n"@ + indexed_ctors(hs, roots, hs.len()) + "\n"@
            + "def applyOp (s : State) (signer : Pubkey) : Operation → Option State\n"@
            + indexed_cases(hs, hs.len()) + "\n"@
    }
}

fn emit_indexed_operations(out: &mut String, sc: &Scope, roots: &NameMap<String>)
    ensures
        final(out)@ == old(out)@ + indexed_operations_text(sc@.handlers, roots@),
{
    if sc.handlers.len() == 0 {
        return ;
    }
    out.push_str("inductive Operation where\n");
    let ghost base = out@;
    for i in 0..sc.handlers.len()
        invariant
            out@ == base + indexed_ctors(sc@.handlers, roots@, i as nat),
    {
        let name = safe_name(&sc.handlers[i].name);
        let sig = indexed_param_sig(sc.handlers[i], roots);
        out.push_str("  | ");
        out.push_str(&name);
        out.push_str(&sig);
        out.push_str("\n");
    }
    out.push_str("\n");
    out.push_str("def applyOp (s : State) (signer : Pubkey) : Operation → Option State\n");
    let ghost base2 = out@;
    for i in 0..sc.handlers.len()
        invariant
            out@ == base2 + indexed_cases(sc@.handlers, i as nat),
    {
        let name = safe_name(&sc.handlers[i].name);
        let args = param_args_str(&sc.handlers[i].params);
        out.push_str("  | .");
        out.push_str(&name);
        out.push_str(&args);
        out.push_str(" => ");
        out.push_str(&name);
        out.push_str("Transition s signer");
        out.push_str(&args);
        out.push_str("\n");
    }
    out.push_str("\n");
}

// ---------------------------------------------------------------------------
// The file
// ---------------------------------------------------------------------------

pub open spec fn record_lines(fs: Seq<(String, String)>, n: nat) -> Seq<char>
    decreases n,
{
    if n == 0 {
        Seq::empty()
    } else {
        record_lines(fs, (n - 1) as nat) + ("  "@ + safe_text(fs[n - 1].0@) + " : "@ + dsl_ty_text(fs[n - 1].1@) + "\n"@)
    }
}

pub open spec fn record_defaults(fs: Seq<(String, String)>, n: nat) -> Seq<char>
    decreases n,
{
    if n == 0 {
        Seq::empty()
    } else {
        record_defaults(fs, (n - 1) as nat) + ("  "@ + safe_text(fs[n - 1].0@) + " := "@ + dsl_default_text(fs[n - 1].1@) + ",\n"@)
    }
}

/// A record type with its default value. The record of the state itself is left
/// out: the state has a declaration of its own.
#[verifier::opaque]
pub open spec fn record_text(r: ParsedRecordType) -> Seq<char> {
    if r.name@ == "State"@ {
        Seq::empty()
    } else {
        "structure "@ + r.name@ + " where\n"@ + record_lines(r.fields@, r.fields@.len()) + "  deriving Repr, DecidableEq, BEq\n\n"@
            + ("instance : Inhabited "@ + r.name@ + " := ⟨{\n"@ + record_defaults(r.fields@, r.fields@.len()) + "}⟩\n\n"@)
    }
}

fn emit_record(out: &mut String, r: &ParsedRecordType)
    ensures
        final(out)@ == old(out)@ + record_text(*r),
{
    proof {
        reveal(record_text);
    }
    if same(&r.name, "State") {
        return ;
    }
    out.push_str("structure ");
    out.push_str(&r.name);
    out.push_str(" where\n");
    let ghost base = out@;
    for i in 0..r.fields.len()
        invariant
            out@ == base + record_lines(r.fields@, i as nat),
    {
        let name = safe_name(&r.fields[i].0);
        let ty = map_dsl_ty(&r.fields[i].1);
        out.push_str("  ");
        out.push_str(&name);
        out.push_str(" : ");
        out.push_str(&ty);
        out.push_str("\n");
    }
    out.push_str("  deriving Repr, DecidableEq, BEq\n\n");
    out.push_str("instance : Inhabited ");
    out.push_str(&r.name);
    out.push_str(" := ⟨{\n");
    let ghost base2 = out@;
    for i in 0..r.fields.len()
        invariant
            out@ == base2 + record_defaults(r.fields@, i as nat),
    {
        let name = safe_name(&r.fields[i].0);
        out.push_str("  ");
        out.push_str(&name);
        out.push_str(" := ");
        out.push_str(default_value_for(&r.fields[i].1));
        out.push_str(",\n");
    }
    out.push_str("}⟩\n\n");
}

pub open spec fn records_upto(rs: Seq<ParsedRecordType>, n: nat) -> Seq<char>
    decreases n,
{
    if n == 0 {
        Seq::empty()
    } else {
        records_upto(rs, (n - 1) as nat) + record_text(rs[n - 1])
    }
}

fn emit_records(out: &mut String, rs: &Vec<ParsedRecordType>)
    ensures
        final(out)@ == old(out)@ + records_upto(rs@, rs@.len()),
{
    for i in 0..rs.len()
        invariant
            out@ == old(out)@ + records_upto(rs@, i as nat),
    {
        emit_record(out, &rs[i]);
    }
}

pub open spec fn const_lines(cs: Seq<(Symbol, String)>, n: nat) -> Seq<char>
    decreases n,
{
    if n == 0 {
        Seq::empty()
    } else {
        const_lines(cs, (n - 1) as nat) + ("abbrev "@ + safe_text(cs[n - 1].0@) + " : Nat := "@ + cs[n - 1].1@ + "\n"@)
    }
}

pub open spec fn plain_tags(states: Seq<Seq<char>>, n: nat) -> Seq<char>
    decreases n,
{
    if n == 0 {
        Seq::empty()
    } else {
        plain_tags(states, (n - 1) as nat) + ("  | "@ + states[n - 1] + "\n"@)
    }
}

/// The lifecycle states as a type, where there are two or more.
pub open spec fn indexed_marker_text(sc: ScopeV) -> Seq<char> {
    if sc.has_marker() {
        "inductive Status where\n"@ + plain_tags(sc.lifecycle, sc.lifecycle.len())
            + "  deriving Repr, DecidableEq, BEq\n\n"@
    } else {
        Seq::empty()
    }
}

fn emit_indexed_marker(out: &mut String, sc: &Scope)
    ensures
        final(out)@ == old(out)@ + indexed_marker_text(sc@),
{
    if sc.lifecycle.len() >= 2 {
        out.push_str("inductive Status where\n");
        let ghost base = out@;
        for i in 0..sc.lifecycle.len()
            invariant
                out@ == base + plain_tags(sc@.lifecycle, i as nat),
        {
            out.push_str("  | ");
            out.push_str(&sc.lifecycle[i]);
            out.push_str("\n");
        }
        out.push_str("  deriving Repr, DecidableEq, BEq\n\n");
    }
}

/// The first variant from `from` on that has fields.
pub open spec fn filled_at(vs: Seq<VariantV>, from: int) -> Option<int>
    decreases vs.len() - from,
{
    if from < 0 || from >= vs.len() {
        None
    } else if vs[from].fields.len() > 0 {
        Some(from)
    } else {
        filled_at(vs, from + 1)
    }
}

/// The fields of the state: those of the first variant that has any.
pub open spec fn active_fields(vs: Seq<VariantV>) -> Seq<FieldDecl> {
    match filled_at(vs, 0) {
        Some(i) => vs[i].fields,
        None => Seq::empty(),
    }
}

pub open spec fn indexed_field_lines(fs: Seq<FieldDecl>, n: nat) -> Seq<char>
    decreases n,
{
    if n == 0 {
        Seq::empty()
    } else {
        indexed_field_lines(fs, (n - 1) as nat) + ("  "@ + safe_text(fs[n - 1].name@) + " : "@ + indexed_ty_text(fs[n - 1].ty) + "\n"@)
    }
}

/// The state as a structure.
pub open spec fn indexed_state_text(sc: ScopeV) -> Seq<char> {
    let fs = active_fields(sc.variants);
    "structure State where\n"@ + indexed_field_lines(fs, fs.len()) + (if sc.has_marker() {
        "  status : Status\n"@
    } else {
        Seq::empty()
    }) + "\n"@
}

fn emit_indexed_state(out: &mut String, sc: &Scope)
    ensures
        final(out)@ == old(out)@ + indexed_state_text(sc@),
{
    out.push_str("structure State where\n");
    let ghost base = out@;
    let ghost vs = sc@.variants;
    let mut i: usize = 0;
    while i < sc.variants.len() && sc.variants[i].fields.len() == 0
        invariant
            i <= sc.variants@.len(),
            vs == sc@.variants,
            filled_at(vs, 0) == filled_at(vs, i as int),
        decreases sc.variants@.len() - i,
    {
        i = i + 1;
    }
    if i < sc.variants.len() {
        let fields = sc.variants[i].fields;
        for j in 0..fields.len()
            invariant
                out@ == base + indexed_field_lines(fields@, j as nat),
        {
            let name = safe_name(&fields[j].name);
            let ty = render_ty_indexed(&fields[j].ty);
            out.push_str("  ");
            out.push_str(&name);
            out.push_str(" : ");
            out.push_str(&ty);
            out.push_str("\n");
        }
        proof {
            assert(active_fields(vs) == fields@);
        }
    }
    if sc.lifecycle.len() >= 2 {
        out.push_str("  status : Status\n");
    }
    out.push_str("\n");
}

/// The definitions of the first `n` properties that have a predicate.
pub open spec fn property_defs(ps: Seq<PropertyMir>, n: nat) -> Seq<char>
    decreases n,
{
    if n == 0 {
        Seq::empty()
    } else {
        let p = ps[n - 1];
        property_defs(ps, (n - 1) as nat) + (match p.expression {
            Some(e) => "/-- Property: "@ + p.name@ + ". -/\ndef "@ + safe_text(p.name@) + " (s : State) : Prop :=\n  "@ + applied_text(e.lean@) + "\n\n"@,
            None => Seq::empty(),
        })
    }
}

fn emit_property_defs(out: &mut String, ps: &Vec<PropertyMir>)
    ensures
        final(out)@ == old(out)@ + property_defs(ps@, ps@.len()),
{
    for i in 0..ps.len()
        invariant
            out@ == old(out)@ + property_defs(ps@, i as nat),
    {
        match &ps[i].expression {
            Some(e) => {
                let body = rewrite_subscripts_lean(&e.lean);
                let name = safe_name(&ps[i].name);
                out.push_str("/-- Property: ");
                out.push_str(&ps[i].name);
                out.push_str(". -/\ndef ");
                out.push_str(&name);
                out.push_str(" (s : State) : Prop :=\n  ");
                out.push_str(&body);
                out.push_str("\n\n");
            },
            None => {},
        }
    }
}

/// The imports of an indexed state.
pub const INDEXED_HEADER: &'static str = "import Mathlib.Algebra.BigOperators.Fin\nimport QEDGen.Solana.Account\nimport QEDGenMathlib.IndexedState\n\n";

/// The constants, and a blank line after them where there are any.
pub open spec fn indexed_consts_text(cs: Seq<(Symbol, String)>) -> Seq<char> {
    const_lines(cs, cs.len()) + (if cs.len() == 0 {
        Seq::empty()
    } else {
        "\n"@
    })
}

fn emit_indexed_consts(out: &mut String, cs: &Vec<(Symbol, String)>)
    ensures
        final(out)@ == old(out)@ + indexed_consts_text(cs@),
{
    for i in 0..cs.len()
        invariant
            out@ == old(out)@ + const_lines(cs@, i as nat),
    {
        let name = safe_name(&cs[i].0);
        out.push_str("abbrev ");
        out.push_str(&name);
        out.push_str(" : Nat := ");
        out.push_str(&cs[i].1);
        out.push_str("\n");
    }
    if cs.len() > 0 {
        out.push_str("\n");
    }
}

/// The file of a program whose state holds bounded maps: the state, the
/// transitions, the operations and the properties, without proofs.
#[verifier::opaque]
pub open spec fn indexed_file_text(mir: Mir) -> Seq<char> {
    let sc = whole_scope(mir);
    let roots = map_roots(sc.variants);
    INDEXED_HEADER@ + "namespace "@ + mir.name@ + "\n\n"@ + "open QEDGen.Solana\n"@ + "open QEDGen.Solana.IndexedState\n\n"@
        + helpers_text(mir.uninterpreted_helpers@) + ref_impls_text(mir.ref_impls@)
        + indexed_consts_text(mir.constants@) + ("abbrev AccountIdx : Type := Fin "@ + idx_bound(mir.constants@) + "\n\n"@)
        + records_upto(mir.records@, mir.records@.len()) + indexed_marker_text(sc)
        + indexed_state_text(sc) + indexed_transitions_upto(sc, roots, sc.handlers.len())
        + indexed_operations_text(sc.handlers, roots) + property_defs(
        mir.properties@,
        mir.properties@.len(),
    ) + ("end "@ + mir.name@ + "\n"@)
}

/// Renders a program whose state holds bounded maps.
pub fn render_indexed_state(mir: &Mir) -> (r: String)
    ensures
        r@ == indexed_file_text(*mir),
{
    proof {
        reveal(indexed_file_text);
    }
    let sc = Scope::whole(mir);
    let mut out = INDEXED_HEADER.to_owned();
    out.push_str("namespace ");
    out.push_str(&mir.name);
    out.push_str("\n\n");
    out.push_str("open QEDGen.Solana\n");
    out.push_str("open QEDGen.Solana.IndexedState\n\n");
    emit_uninterpreted_helpers(&mut out, &mir.uninterpreted_helpers);
    emit_ref_impls(&mut out, &mir.ref_impls);
    emit_indexed_consts(&mut out, &mir.constants);
    let bound = pick_account_idx_bound_mir(&mir.constants);
    out.push_str("abbrev AccountIdx : Type := Fin ");
    out.push_str(&bound);
    out.push_str("\n\n");
    emit_records(&mut out, &mir.records);
    emit_indexed_marker(&mut out, &sc);
    emit_indexed_state(&mut out, &sc);
    let roots = collect_map_roots(&sc.variants);
    emit_indexed_transitions(&mut out, &sc, &roots);
    emit_indexed_operations(&mut out, &sc, &roots);
    emit_property_defs(&mut out, &mir.properties);
    out.push_str("end ");
    out.push_str(&mir.name);
    out.push_str("\n");
    out
}

} // verus!
