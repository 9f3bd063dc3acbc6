//! What the transitions of a program with bounded maps do.
use vstd::prelude::*;

use crate::laws::lists::{
    const_lines_stands, indexed_cases_stands, indexed_ctors_stands, indexed_field_lines_stands,
    indexed_sig_upto_stands, record_defaults_stands, record_lines_stands,
};
use crate::laws::stands::{part_stands, stands, stands_in, stands_left, still_there};
use crate::laws::transitions::{returns_if, returns_with};
use crate::lean::base::{
    args_text, auth_text, dotted_text, dsl_default_text, dsl_ty_text, mentions_pubkey, safe_text,
    transition_text, ty_text,
};
use crate::lean::guards::{auth_conds, update_of, with_status_cond, Update};
use crate::lean::indexed::{
    active_fields, group_text, idx_bound, indexed_cases, indexed_conds, indexed_consts_text,
    indexed_ctors, indexed_field_lines, indexed_operations_text, indexed_sig, indexed_state_text,
    indexed_transition_text, indexed_ty_text, indexed_writes, inner_updates, is_dropped,
    map_target, map_writes, promotions, record_defaults, record_lines, record_text, scalar_writes,
    with_groups, with_indexed_conds, with_write, Bounds, GroupV, WriteV,
};
use crate::lean::scope::{has_field, ScopeV};
use crate::lean::subscript::{applied_text, effect_text, indexed_target};
use crate::lean::transition::alias_text;
use crate::mir::{lean_of, Expr, FieldDecl, HandlerMir, Path, Stmt, Symbol, Ty};
use crate::names::lookup;
use crate::parsed::ParsedRecordType;
use crate::pattern::has_text;
use crate::search::{contains_text, starts_with_text};
use crate::text::join_text;

verus! {

broadcast use crate::text::group_text;

/// What a statement adds to which path.
pub open spec fn sum_of(s: Stmt) -> Option<(Path, Expr)> {
    match s {
        Stmt::CheckedAdd { path, delta, .. } => Some((path, delta)),
        Stmt::WrapAdd { path, delta } => Some((path, delta)),
        Stmt::SatAdd { path, delta } => Some((path, delta)),
        _ => None,
    }
}

/// What a statement subtracts from which path.
pub open spec fn difference_of(s: Stmt) -> Option<(Path, Expr)> {
    match s {
        Stmt::CheckedSub { path, delta, .. } => Some((path, delta)),
        Stmt::WrapSub { path, delta } => Some((path, delta)),
        Stmt::SatSub { path, delta } => Some((path, delta)),
        _ => None,
    }
}

// ---------------------------------------------------------------------------
// Updates
// ---------------------------------------------------------------------------

proof fn lemma_scalar_writes(h: HandlerMir, roots: Bounds, n: nat, k: int)
    requires
        0 <= k < n <= h.body.stmts@.len(),
    ensures
        match sum_of(h.body.stmts@[k]) {
            Some((path, delta)) => map_target(path, roots) is None ==> has_text(
                scalar_writes(h, roots, n),
                safe_text(dotted_text(path)) + " := s."@ + safe_text(dotted_text(path)) + " + "@
                    + effect_text(lean_of(delta), h.params@),
            ),
            None => true,
        },
        match difference_of(h.body.stmts@[k]) {
            Some((path, delta)) => map_target(path, roots) is None ==> has_text(
                scalar_writes(h, roots, n),
                safe_text(dotted_text(path)) + " := s."@ + safe_text(dotted_text(path)) + " - "@
                    + effect_text(lean_of(delta), h.params@),
            ),
            None => true,
        },
        match h.body.stmts@[k] {
            Stmt::Assign { path, rhs } => map_target(path, roots) is None
                && !crate::lean::base::is_pubkey_ref(lean_of(rhs)) ==> has_text(
                scalar_writes(h, roots, n),
                safe_text(dotted_text(path)) + " := "@ + effect_text(lean_of(rhs), h.params@),
            ),
            _ => true,
        },
    decreases n,
{
    let before = scalar_writes(h, roots, (n - 1) as nat);
    let all = scalar_writes(h, roots, n);
    if all.len() > before.len() {
        assert(all =~= before.push(all.last()));
        still_there(before, all.last(), all.last());
    }
    if k < n - 1 {
        lemma_scalar_writes(h, roots, (n - 1) as nat, k);
        assert forall|t: Seq<char>| has_text(before, t) implies has_text(all, t) by {
            if all.len() > before.len() {
                still_there(before, all.last(), t);
            }
        }
    }
}

/// A write of an entry stands in one of the groups.
pub open spec fn is_written(gs: Seq<GroupV>, root: Seq<char>, idx: Seq<char>, w: WriteV) -> bool {
    exists|i: int, j: int|
        0 <= i < gs.len() && gs[i].root == root && gs[i].idx == idx && 0 <= j < gs[i].writes.len()
            && #[trigger] gs[i].writes[j] == w
}

proof fn lemma_is_written(gs: Seq<GroupV>, i: int, j: int)
    requires
        0 <= i < gs.len(),
        0 <= j < gs[i].writes.len(),
    ensures
        is_written(gs, gs[i].root, gs[i].idx, gs[i].writes[j]),
{
}

proof fn lemma_with_write(gs: Seq<GroupV>, root: Seq<char>, idx: Seq<char>, w: WriteV)
    ensures
        is_written(with_write(gs, root, idx, w), root, idx, w),
        forall|r: Seq<char>, i: Seq<char>, x: WriteV|
            is_written(gs, r, i, x) ==> is_written(with_write(gs, root, idx, w), r, i, x),
    decreases gs.len(),
{
    let all = with_write(gs, root, idx, w);
    if gs.len() == 0 {
        lemma_is_written(all, 0, 0);
    } else {
        let last = gs.last();
        let front = gs.drop_last();
        if crate::lean::indexed::entry_lt(root, idx, last.root, last.idx) {
            let part = with_write(front, root, idx, w);
            lemma_with_write(front, root, idx, w);
            assert forall|r: Seq<char>, i: Seq<char>, x: WriteV|
                is_written(part, r, i, x) implies is_written(all, r, i, x) by {
                let (a, b) = choose|a: int, b: int|
                    0 <= a < part.len() && part[a].root == r && part[a].idx == i && 0 <= b
                        < part[a].writes.len() && #[trigger] part[a].writes[b] == x;
                assert(all[a] == part[a]);
                lemma_is_written(all, a, b);
            }
            assert forall|r: Seq<char>, i: Seq<char>, x: WriteV|
                is_written(gs, r, i, x) implies is_written(all, r, i, x) by {
                let (a, b) = choose|a: int, b: int|
                    0 <= a < gs.len() && gs[a].root == r && gs[a].idx == i && 0 <= b
                        < gs[a].writes.len() && #[trigger] gs[a].writes[b] == x;
                if a < front.len() {
                    assert(front[a] == gs[a]);
                    lemma_is_written(front, a, b);
                } else {
                    assert(all.last() == last);
                    lemma_is_written(all, all.len() - 1, b);
                }
            }
        } else if last.root == root && last.idx == idx {
            let ws = last.writes;
            assert(all[all.len() - 1].writes[ws.len() as int] == w);
            lemma_is_written(all, all.len() - 1, ws.len() as int);
            assert forall|r: Seq<char>, i: Seq<char>, x: WriteV|
                is_written(gs, r, i, x) implies is_written(all, r, i, x) by {
                let (a, b) = choose|a: int, b: int|
                    0 <= a < gs.len() && gs[a].root == r && gs[a].idx == i && 0 <= b
                        < gs[a].writes.len() && #[trigger] gs[a].writes[b] == x;
                assert(all[a].root == r && all[a].idx == i && all[a].writes[b] == x);
                lemma_is_written(all, a, b);
            }
        } else {
            assert(all[all.len() - 1].writes[0] == w);
            lemma_is_written(all, all.len() - 1, 0);
            assert forall|r: Seq<char>, i: Seq<char>, x: WriteV|
                is_written(gs, r, i, x) implies is_written(all, r, i, x) by {
                let (a, b) = choose|a: int, b: int|
                    0 <= a < gs.len() && gs[a].root == r && gs[a].idx == i && 0 <= b
                        < gs[a].writes.len() && #[trigger] gs[a].writes[b] == x;
                assert(all[a] == gs[a]);
                lemma_is_written(all, a, b);
            }
        }
    }
}

proof fn lemma_map_writes(h: HandlerMir, roots: Bounds, n: nat, k: int)
    requires
        0 <= k < n <= h.body.stmts@.len(),
        update_of(h.body.stmts@[k]) is Some,
        ({
            let u = update_of(h.body.stmts@[k])->0;
            map_target(u.0, roots) is Some && !is_dropped(u.1, u.2)
        }),
    ensures
        ({
            let u = update_of(h.body.stmts@[k])->0;
            let t = map_target(u.0, roots)->0;
            is_written(
                map_writes(h, roots, n),
                t.0,
                t.1,
                (WriteV { field: t.2, kind: u.1, value: lean_of(u.2) }),
            )
        }),
    decreases n,
{
    let before = map_writes(h, roots, (n - 1) as nat);
    if k < n - 1 {
        lemma_map_writes(h, roots, (n - 1) as nat, k);
    }
    if let Some((path, kind, value)) = update_of(h.body.stmts@[n - 1]) {
        if let Some((root, idx, inner)) = map_target(path, roots) {
            lemma_with_write(
                before,
                root,
                idx,
                WriteV { field: inner, kind, value: lean_of(value) },
            );
        }
    }
}

proof fn lemma_groups(acc: Seq<Seq<char>>, h: HandlerMir, gs: Seq<GroupV>, n: nat)
    requires
        n <= gs.len(),
    ensures
        forall|t: Seq<char>| has_text(acc, t) ==> has_text(with_groups(acc, h, gs, n), t),
        forall|i: int|
            0 <= i < n ==> has_text(with_groups(acc, h, gs, n), group_text(h, #[trigger] gs[i])),
    decreases n,
{
    if n > 0 {
        lemma_groups(acc, h, gs, (n - 1) as nat);
        let before = with_groups(acc, h, gs, (n - 1) as nat);
        let own = group_text(h, gs[n - 1]);
        assert forall|t: Seq<char>| has_text(before, t) implies has_text(before.push(own), t) by {
            still_there(before, own, t);
        }
        still_there(before, own, own);
    }
}

proof fn lemma_returned(fs: Seq<FieldDecl>, h: HandlerMir, roots: Bounds, marker: bool, t: Seq<char>)
    requires
        has_text(indexed_writes(h, roots, marker), t),
    ensures
        returns_with(indexed_transition_text(fs, h, roots, marker), t),
{
    reveal(indexed_transition_text);
    let writes = indexed_writes(h, roots, marker);
    let i = choose|i: int| 0 <= i < writes.len() && #[trigger] writes[i] == t;
    let u = join_text(writes, ", "@);
    part_stands(writes, ", "@, i);
    let conds = indexed_conds(fs, h, marker);
    let def = indexed_transition_text(fs, h, roots, marker);
    let head = "def "@ + transition_text(h.name@) + " (s : State) (signer : Pubkey)"@ + indexed_sig(
        h,
        roots,
    ) + " : Option State :=\n"@ + alias_text(fs, h);
    if conds.len() > 0 {
        let a = head + ("  if "@ + join_text(conds, " ∧ "@) + " then\n"@ + "    "@);
        let z = "\n"@ + "  else none\n\n"@;
        assert(def == a + "some { s with "@ + u + " }"@ + z);
    } else {
        let a = head + "  "@;
        assert(def == a + "some { s with "@ + u + " }"@ + "\n\n"@);
    }
}

proof fn lemma_kept(h: HandlerMir, roots: Bounds, marker: bool)
    ensures
        forall|t: Seq<char>|
            has_text(scalar_writes(h, roots, h.body.stmts@.len()), t) ==> has_text(
                indexed_writes(h, roots, marker),
                t,
            ),
        forall|i: int|
            0 <= i < map_writes(h, roots, h.body.stmts@.len()).len() ==> has_text(
                indexed_writes(h, roots, marker),
                group_text(h, #[trigger] map_writes(h, roots, h.body.stmts@.len())[i]),
            ),
        h.transition is Some && marker ==> has_text(
            indexed_writes(h, roots, marker),
            "status := ."@ + safe_text((h.transition->0).1@),
        ),
{
    let gs = map_writes(h, roots, h.body.stmts@.len());
    let acc = scalar_writes(h, roots, h.body.stmts@.len());
    lemma_groups(acc, h, gs, gs.len());
    let all = with_groups(acc, h, gs, gs.len());
    if let Some(t) = h.transition {
        if marker {
            let own = "status := ."@ + safe_text(t.1@);
            assert forall|x: Seq<char>| has_text(all, x) implies has_text(all.push(own), x) by {
                still_there(all, own, x);
            }
            still_there(all, own, own);
        }
    }
}

/// A transition updates a plain field by what the statement does to it, and moves
/// the program on to the state behind it.
pub proof fn plain_fields_are_updated(
    fs: Seq<FieldDecl>,
    h: HandlerMir,
    roots: Bounds,
    marker: bool,
    k: int,
)
    requires
        0 <= k < h.body.stmts@.len(),
    ensures
        ({
            let def = indexed_transition_text(fs, h, roots, marker);
            &&& match sum_of(h.body.stmts@[k]) {
                Some((path, delta)) => map_target(path, roots) is None ==> returns_with(
                    def,
                    safe_text(dotted_text(path)) + " := s."@ + safe_text(dotted_text(path)) + " + "@
                        + effect_text(lean_of(delta), h.params@),
                ),
                None => true,
            }
            &&& match difference_of(h.body.stmts@[k]) {
                Some((path, delta)) => map_target(path, roots) is None ==> returns_with(
                    def,
                    safe_text(dotted_text(path)) + " := s."@ + safe_text(dotted_text(path)) + " - "@
                        + effect_text(lean_of(delta), h.params@),
                ),
                None => true,
            }
            &&& match h.body.stmts@[k] {
                Stmt::Assign { path, rhs } => map_target(path, roots) is None
                    && !crate::lean::base::is_pubkey_ref(lean_of(rhs)) ==> returns_with(
                    def,
                    safe_text(dotted_text(path)) + " := "@ + effect_text(lean_of(rhs), h.params@),
                ),
                _ => true,
            }
            &&& h.transition is Some && marker ==> returns_with(
                def,
                "status := ."@ + safe_text((h.transition->0).1@),
            )
        }),
{
    lemma_scalar_writes(h, roots, h.body.stmts@.len(), k);
    lemma_kept(h, roots, marker);
    let v = |e: Expr| effect_text(lean_of(e), h.params@);
    if let Some((path, delta)) = sum_of(h.body.stmts@[k]) {
        if map_target(path, roots) is None {
            let f = safe_text(dotted_text(path));
            lemma_returned(fs, h, roots, marker, f + " := s."@ + f + " + "@ + v(delta));
        }
    }
    if let Some((path, delta)) = difference_of(h.body.stmts@[k]) {
        if map_target(path, roots) is None {
            let f = safe_text(dotted_text(path));
            lemma_returned(fs, h, roots, marker, f + " := s."@ + f + " - "@ + v(delta));
        }
    }
    if let Stmt::Assign { path, rhs } = h.body.stmts@[k] {
        if map_target(path, roots) is None && !crate::lean::base::is_pubkey_ref(lean_of(rhs)) {
            let f = safe_text(dotted_text(path));
            lemma_returned(fs, h, roots, marker, f + " := "@ + v(rhs));
        }
    }
    if h.transition is Some && marker {
        lemma_returned(
            fs,
            h,
            roots,
            marker,
            "status := ."@ + safe_text((h.transition->0).1@),
        );
    }
}

/// Whether a definition returns the state with one entry of a map changed, by
/// updates among which `update` stands.
pub open spec fn changes_entry(
    def: Seq<char>,
    root: Seq<char>,
    idx: Seq<char>,
    update: Seq<char>,
) -> bool {
    exists|us: Seq<char>|
        contains_text(us, update) && #[trigger] returns_with(
            def,
            safe_text(root) + " := Function.update s."@ + root + " "@ + idx + " "@ + "{ (s."@ + root
                + " "@ + idx + ") with "@ + us + " }"@,
        )
}

proof fn lemma_inner(h: HandlerMir, g: GroupV, n: nat, j: int)
    requires
        0 <= j < n <= g.writes.len(),
    ensures
        inner_updates(h, g, n).len() == n,
        ({
            let w = g.writes[j];
            let v = effect_text(w.value, h.params@);
            let old_one = "(s."@ + g.root + " "@ + g.idx + ")."@ + w.field;
            &&& w.kind == Update::Add ==> inner_updates(h, g, n)[j] == w.field + " := "@ + old_one
                + " + "@ + v
            &&& w.kind == Update::Sub ==> inner_updates(h, g, n)[j] == w.field + " := "@ + old_one
                + " - "@ + v
            &&& w.kind == Update::Put ==> inner_updates(h, g, n)[j] == w.field + " := "@ + v
        }),
    decreases n,
{
    if n > 1 {
        if j < n - 1 {
            lemma_inner(h, g, (n - 1) as nat, j);
        } else {
            lemma_inner(h, g, (n - 1) as nat, 0);
        }
    } else {
        assert(inner_updates(h, g, 0).len() == 0);
    }
}

proof fn lemma_entry(
    fs: Seq<FieldDecl>,
    h: HandlerMir,
    roots: Bounds,
    marker: bool,
    i: int,
    j: int,
)
    requires
        ({
            let gs = map_writes(h, roots, h.body.stmts@.len());
            0 <= i < gs.len() && 0 <= j < gs[i].writes.len() && gs[i].writes[j].field.len() > 0
        }),
    ensures
        ({
            let g = map_writes(h, roots, h.body.stmts@.len())[i];
            changes_entry(
                indexed_transition_text(fs, h, roots, marker),
                g.root,
                g.idx,
                inner_updates(h, g, g.writes.len())[j],
            )
        }),
{
    reveal(group_text);
    let g = map_writes(h, roots, h.body.stmts@.len())[i];
    let us = inner_updates(h, g, g.writes.len());
    lemma_inner(h, g, g.writes.len(), j);
    part_stands(us, ", "@, j);
    lemma_kept(h, roots, marker);
    lemma_returned(fs, h, roots, marker, group_text(h, g));
    assert(group_text(h, g) == safe_text(g.root) + " := Function.update s."@ + g.root + " "@ + g.idx
        + " "@ + "{ (s."@ + g.root + " "@ + g.idx + ") with "@ + join_text(us, ", "@) + " }"@);
}

/// A transition changes the entry of a map that a statement names, by what the
/// statement does to the field in it.
pub proof fn entries_are_updated(
    fs: Seq<FieldDecl>,
    h: HandlerMir,
    roots: Bounds,
    marker: bool,
    k: int,
    path: Path,
    value: Expr,
)
    requires
        0 <= k < h.body.stmts@.len(),
        map_target(path, roots) is Some,
        (map_target(path, roots)->0).2.len() > 0,
    ensures
        ({
            let def = indexed_transition_text(fs, h, roots, marker);
            let (root, idx, field) = map_target(path, roots)->0;
            let old_one = "(s."@ + root + " "@ + idx + ")."@ + field;
            let v = effect_text(lean_of(value), h.params@);
            &&& sum_of(h.body.stmts@[k]) == Some((path, value)) ==> changes_entry(
                def,
                root,
                idx,
                field + " := "@ + old_one + " + "@ + v,
            )
            &&& difference_of(h.body.stmts@[k]) == Some((path, value)) ==> changes_entry(
                def,
                root,
                idx,
                field + " := "@ + old_one + " - "@ + v,
            )
            &&& h.body.stmts@[k] == (Stmt::Assign { path, rhs: value })
                && !crate::lean::base::is_pubkey_ref(lean_of(value)) ==> changes_entry(
                def,
                root,
                idx,
                field + " := "@ + v,
            )
        }),
{
    let s = h.body.stmts@[k];
    if sum_of(s) == Some((path, value)) || difference_of(s) == Some((path, value)) || (s == (
    Stmt::Assign { path, rhs: value }) && !crate::lean::base::is_pubkey_ref(lean_of(value))) {
        let n = h.body.stmts@.len();
        lemma_map_writes(h, roots, n, k);
        let (p, kind, v) = update_of(s)->0;
        let (root, idx, field) = map_target(path, roots)->0;
        let gs = map_writes(h, roots, n);
        let w = WriteV { field, kind, value: lean_of(v) };
        assert(is_written(gs, root, idx, w));
        let (i, j) = choose|i: int, j: int|
            0 <= i < gs.len() && gs[i].root == root && gs[i].idx == idx && 0 <= j
                < gs[i].writes.len() && #[trigger] gs[i].writes[j] == w;
        lemma_entry(fs, h, roots, marker, i, j);
        lemma_inner(h, gs[i], gs[i].writes.len(), j);
    }
}

/// An entry that is written as a whole becomes the value.
pub proof fn whole_entries_are_replaced(h: HandlerMir, g: GroupV)
    requires
        g.writes.len() == 1,
        g.writes[0].field.len() == 0,
    ensures
        group_text(h, g) == safe_text(g.root) + " := Function.update s."@ + g.root + " "@ + g.idx
            + " "@ + "("@ + applied_text(g.writes[0].value) + ")"@,
{
    reveal(group_text);
}

/// A target `root[idx].field` is read as its three parts.
pub proof fn targets_are_read(root: Seq<char>, idx: Seq<char>, field: Seq<char>)
    requires
        !root.contains('['),
        !idx.contains(']'),
    ensures
        indexed_target(root + seq!['['] + idx + seq![']', '.'] + field) == Some((root, idx, field)),
        indexed_target(root) is None,
{
    let s = root + seq!['['] + idx + seq![']', '.'] + field;
    let rest = idx + seq![']', '.'] + field;
    crate::search::lemma_char_at_or_after(s, '[', 0);
    crate::search::lemma_char_at_or_after(root, '[', 0);
    assert(s[root.len() as int] == '[');
    assert forall|i: int| 0 <= i < root.len() implies s[i] != '[' by {
        assert(root.contains(root[i]));
    }
    let open = crate::search::char_at_or_after(s, '[', 0)->0;
    assert(open == root.len());
    assert(s.subrange(open + 1, s.len() as int) =~= rest);
    assert(s.subrange(0, open) =~= root);
    crate::search::lemma_char_at_or_after(rest, ']', 0);
    assert(rest[idx.len() as int] == ']');
    assert forall|i: int| 0 <= i < idx.len() implies rest[i] != ']' by {
        assert(idx.contains(idx[i]));
    }
    let close = crate::search::char_at_or_after(rest, ']', 0)->0;
    assert(close == idx.len());
    assert(rest.subrange(0, close) =~= idx);
    let after = rest.subrange(close + 1, rest.len() as int);
    assert(after =~= seq!['.'] + field);
    assert(after.drop_first() =~= field);
    if let Some(i) = crate::search::char_at_or_after(root, '[', 0) {
        assert(root.contains(root[i]));
    }
}

// ---------------------------------------------------------------------------
// Guards
// ---------------------------------------------------------------------------

proof fn lemma_indexed_conds(acc: Seq<Seq<char>>, h: HandlerMir, n: nat)
    requires
        n <= h.requires_in_order@.len(),
    ensures
        forall|t: Seq<char>| has_text(acc, t) ==> has_text(with_indexed_conds(acc, h, n), t),
        forall|k: int|
            0 <= k < n && !mentions_pubkey(
                (#[trigger] h.requires_in_order@[k]).0.lean@,
                h.accounts@,
            ) ==> has_text(
                with_indexed_conds(acc, h, n),
                "("@ + applied_text(h.requires_in_order@[k].0.lean@) + ")"@,
            ),
    decreases n,
{
    if n > 0 {
        lemma_indexed_conds(acc, h, (n - 1) as nat);
        let before = with_indexed_conds(acc, h, (n - 1) as nat);
        let all = with_indexed_conds(acc, h, n);
        if all.len() > before.len() {
            assert(all =~= before.push(all.last()));
            assert forall|t: Seq<char>| has_text(before, t) implies has_text(all, t) by {
                still_there(before, all.last(), t);
            }
            still_there(before, all.last(), all.last());
        }
    }
}

proof fn lemma_guarded(fs: Seq<FieldDecl>, h: HandlerMir, roots: Bounds, marker: bool, t: Seq<char>)
    requires
        has_text(indexed_conds(fs, h, marker), t),
    ensures
        returns_if(indexed_transition_text(fs, h, roots, marker), t),
{
    reveal(indexed_transition_text);
    let conds = indexed_conds(fs, h, marker);
    let i = choose|i: int| 0 <= i < conds.len() && #[trigger] conds[i] == t;
    let c = join_text(conds, " ∧ "@);
    part_stands(conds, " ∧ "@, i);
    let def = indexed_transition_text(fs, h, roots, marker);
    let a = "def "@ + transition_text(h.name@) + " (s : State) (signer : Pubkey)"@ + indexed_sig(
        h,
        roots,
    ) + " : Option State :=\n"@ + alias_text(fs, h);
    let writes = indexed_writes(h, roots, marker);
    let z = crate::lean::guards::some_state_text(writes);
    assert(def == a + "  if "@ + c + " then\n"@ + "    "@ + z + "\n"@ + "  else none\n\n"@);
    lemma_some(writes);
}

proof fn lemma_some(writes: Seq<Seq<char>>)
    ensures
        starts_with_text(crate::lean::guards::some_state_text(writes), "some "@),
{
    reveal_strlit("some ");
    reveal_strlit("some s");
    reveal_strlit("some { s with ");
    let z = crate::lean::guards::some_state_text(writes);
    if writes.len() == 0 {
        assert(z.subrange(0, 5) =~= "some "@);
    } else {
        assert(z[0] == 's' && z[1] == 'o' && z[2] == 'm' && z[3] == 'e' && z[4] == ' ');
        assert(z.subrange(0, 5) =~= "some "@);
    }
}

/// A transition runs only for the signer that the state names, in the state that
/// it starts from, and where every requirement holds that speaks of no key.
pub proof fn entries_are_guarded(
    fs: Seq<FieldDecl>,
    h: HandlerMir,
    roots: Bounds,
    marker: bool,
    k: int,
)
    ensures
        ({
            let def = indexed_transition_text(fs, h, roots, marker);
            &&& auth_text(h) is Some && has_field(fs, auth_text(h)->0) ==> returns_if(
                def,
                "signer = s."@ + safe_text(auth_text(h)->0),
            )
            &&& h.transition is Some && marker ==> returns_if(
                def,
                "s.status = ."@ + safe_text((h.transition->0).0@),
            )
            &&& 0 <= k < h.requires_in_order@.len() && !mentions_pubkey(
                h.requires_in_order@[k].0.lean@,
                h.accounts@,
            ) ==> returns_if(
                def,
                "("@ + applied_text(h.requires_in_order@[k].0.lean@) + ")"@,
            )
        }),
{
    let first = auth_conds(fs, h);
    let acc = with_status_cond(first, marker, h);
    lemma_indexed_conds(acc, h, h.requires_in_order@.len());
    if auth_text(h) is Some && has_field(fs, auth_text(h)->0) {
        let t = "signer = s."@ + safe_text(auth_text(h)->0);
        assert(first[0] == t);
        assert(has_text(first, t));
        if h.transition is Some && marker {
            still_there(first, "s.status = ."@ + safe_text((h.transition->0).0@), t);
        }
        assert(has_text(acc, t));
        lemma_guarded(fs, h, roots, marker, t);
    }
    if h.transition is Some && marker {
        let t = "s.status = ."@ + safe_text((h.transition->0).0@);
        still_there(first, t, t);
        lemma_guarded(fs, h, roots, marker, t);
    }
    if 0 <= k < h.requires_in_order@.len() && !mentions_pubkey(
        h.requires_in_order@[k].0.lean@,
        h.accounts@,
    ) {
        lemma_guarded(
            fs,
            h,
            roots,
            marker,
            "("@ + applied_text(h.requires_in_order@[k].0.lean@) + ")"@,
        );
    }
}

// ---------------------------------------------------------------------------
// Declarations
// ---------------------------------------------------------------------------

/// A parameter that indexes a map is bounded by the capacity of the map; every
/// other keeps its type.
pub proof fn indexes_are_bounded(h: HandlerMir, roots: Bounds, k: int)
    requires
        0 <= k < h.params@.len(),
    ensures
        match lookup(promotions(h, roots), h.params@[k].0@) {
            Some(b) => contains_text(
                indexed_sig(h, roots),
                " ("@ + h.params@[k].0@ + " : "@ + ("Fin "@ + b@) + ")"@,
            ),
            None => contains_text(
                indexed_sig(h, roots),
                " ("@ + h.params@[k].0@ + " : "@ + ty_text(h.params@[k].1) + ")"@,
            ),
        },
{
    indexed_sig_upto_stands(h.params@, promotions(h, roots), h.params@.len(), k);
}

/// A map reads as its capacity and the declared type of its values.
pub proof fn maps_are_bounded(t: Ty, capacity: String)
    ensures
        t == Ty::U64 ==> indexed_ty_text(Ty::MapOf { capacity, value: Box::new(t) }) == "Map "@
            + capacity@ + " "@ + "U64"@,
        t == Ty::Bool ==> indexed_ty_text(Ty::MapOf { capacity, value: Box::new(t) }) == "Map "@
            + capacity@ + " "@ + "Bool"@,
        t == Ty::Pubkey ==> indexed_ty_text(Ty::MapOf { capacity, value: Box::new(t) }) == "Map "@
            + capacity@ + " "@ + "Pubkey"@,
        t is Custom ==> indexed_ty_text(Ty::MapOf { capacity, value: Box::new(t) }) == "Map "@
            + capacity@ + " "@ + (t->Custom_0)@,
        t is MapOf ==> indexed_ty_text(Ty::MapOf { capacity, value: Box::new(t) }) == "Map "@
            + capacity@ + " "@ + indexed_ty_text(t),
        !(t is MapOf) ==> indexed_ty_text(t) == ty_text(t),
{
}

/// The account index is bounded by the first constant whose name starts with
/// `MAX_`, where there is one.
pub proof fn indexes_are_bounded_by_the_maximum(cs: Seq<(Symbol, String)>, k: int)
    requires
        0 <= k < cs.len(),
        starts_with_text(cs[k].0@, "MAX_"@),
        forall|i: int| 0 <= i < k ==> !starts_with_text((#[trigger] cs[i]).0@, "MAX_"@),
    ensures
        idx_bound(cs) == cs[k].0@,
{
    lemma_max(cs, k, 0);
}

proof fn lemma_max(cs: Seq<(Symbol, String)>, k: int, from: int)
    requires
        0 <= from <= k < cs.len(),
        starts_with_text(cs[k].0@, "MAX_"@),
        forall|i: int| 0 <= i < k ==> !starts_with_text((#[trigger] cs[i]).0@, "MAX_"@),
    ensures
        crate::lean::indexed::max_const_at(cs, from) == Some(k),
    decreases k - from,
{
    if from < k {
        lemma_max(cs, k, from + 1);
    }
}

/// Every operation takes the parameters of its handler and applies its
/// transition to them.
pub proof fn indexed_operations_apply_transitions(hs: Seq<HandlerMir>, roots: Bounds, k: int)
    requires
        0 <= k < hs.len(),
    ensures
        contains_text(
            indexed_operations_text(hs, roots),
            "  | "@ + safe_text(hs[k].name@) + indexed_sig(hs[k], roots) + "\n"@,
        ),
        contains_text(
            indexed_operations_text(hs, roots),
            "  | ."@ + safe_text(hs[k].name@) + args_text(hs[k].params@) + " => "@ + safe_text(
                hs[k].name@,
            ) + "Transition s signer"@ + args_text(hs[k].params@) + "\n"@,
        ),
{
    let n = hs.len();
    indexed_ctors_stands(hs, roots, n, k);
    indexed_cases_stands(hs, n, k);
    let a = "inductive Operation where\n"@;
    let m = "\n"@ + "def applyOp (s : State) (signer : Pubkey) : Operation → Option State\n"@;
    let ctors = indexed_ctors(hs, roots, n);
    let cases = indexed_cases(hs, n);
    let all = indexed_operations_text(hs, roots);
    assert(all == a + ctors + (m + cases + "\n"@));
    assert(all == (a + ctors + m) + cases + "\n"@);
    stands_in(
        a,
        ctors,
        m + cases + "\n"@,
        "  | "@ + safe_text(hs[k].name@) + indexed_sig(hs[k], roots) + "\n"@,
    );
    stands_in(
        a + ctors + m,
        cases,
        "\n"@,
        "  | ."@ + safe_text(hs[k].name@) + args_text(hs[k].params@) + " => "@ + safe_text(
            hs[k].name@,
        ) + "Transition s signer"@ + args_text(hs[k].params@) + "\n"@,
    );
}

/// Every field of the state is declared with its type, and the marker behind
/// them where there is one.
pub proof fn indexed_states_have_their_fields(sc: ScopeV, k: int)
    ensures
        0 <= k < active_fields(sc.variants).len() ==> contains_text(
            indexed_state_text(sc),
            "  "@ + safe_text(active_fields(sc.variants)[k].name@) + " : "@ + indexed_ty_text(
                active_fields(sc.variants)[k].ty,
            ) + "\n"@,
        ),
        sc.has_marker() ==> contains_text(indexed_state_text(sc), "  status : Status\n"@),
{
    let fs = active_fields(sc.variants);
    let lines = indexed_field_lines(fs, fs.len());
    let a = "structure State where\n"@;
    let m = if sc.has_marker() {
        "  status : Status\n"@
    } else {
        Seq::empty()
    };
    if 0 <= k < fs.len() {
        indexed_field_lines_stands(fs, fs.len(), k);
        let t = "  "@ + safe_text(fs[k].name@) + " : "@ + indexed_ty_text(fs[k].ty) + "\n"@;
        stands_in(a, lines, m, t);
        stands_left(a + lines + m, "\n"@, t);
    }
    if sc.has_marker() {
        stands(a + lines, m, "\n"@);
    }
}

/// Every field of a record is declared with its type, and is in the default
/// value with the default of the type.
pub proof fn records_have_their_fields(r: ParsedRecordType, k: int)
    requires
        r.name@ != "State"@,
        0 <= k < r.fields@.len(),
    ensures
        contains_text(record_text(r), "structure "@ + r.name@ + " where\n"@),
        contains_text(
            record_text(r),
            "  "@ + safe_text(r.fields@[k].0@) + " : "@ + dsl_ty_text(r.fields@[k].1@) + "\n"@,
        ),
        contains_text(
            record_text(r),
            "  "@ + safe_text(r.fields@[k].0@) + " := "@ + dsl_default_text(r.fields@[k].1@)
                + ",\n"@,
        ),
{
    reveal(record_text);
    let fs = r.fields@;
    let n = fs.len();
    record_lines_stands(fs, n, k);
    record_defaults_stands(fs, n, k);
    let a = "structure "@ + r.name@ + " where\n"@;
    let x = record_lines(fs, n);
    let m = "  deriving Repr, DecidableEq, BEq\n\n"@ + ("instance : Inhabited "@ + r.name@
        + " := ⟨{\n"@);
    let y = record_defaults(fs, n);
    let z = "}⟩\n\n"@;
    assert(record_text(r) == a + x + (m + y + z));
    assert(record_text(r) == (a + x + m) + y + z);
    stands(Seq::empty(), a, x + (m + y + z));
    assert(Seq::<char>::empty() + a + (x + (m + y + z)) =~= a + x + (m + y + z));
    stands_in(
        a,
        x,
        m + y + z,
        "  "@ + safe_text(fs[k].0@) + " : "@ + dsl_ty_text(fs[k].1@) + "\n"@,
    );
    stands_in(
        a + x + m,
        y,
        z,
        "  "@ + safe_text(fs[k].0@) + " := "@ + dsl_default_text(fs[k].1@) + ",\n"@,
    );
}

/// Every constant is declared with its value.
pub proof fn indexed_constants_have_their_values(cs: Seq<(Symbol, String)>, k: int)
    requires
        0 <= k < cs.len(),
    ensures
        contains_text(
            indexed_consts_text(cs),
            "abbrev "@ + safe_text(cs[k].0@) + " : Nat := "@ + cs[k].1@ + "\n"@,
        ),
{
    const_lines_stands(cs, cs.len(), k);
    stands_left(
        crate::lean::indexed::const_lines(cs, cs.len()),
        "\n"@,
        "abbrev "@ + safe_text(cs[k].0@) + " : Nat := "@ + cs[k].1@ + "\n"@,
    );
}

} // verus!
