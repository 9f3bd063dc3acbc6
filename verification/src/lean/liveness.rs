//! Liveness: theorems that a lifecycle state is reached within some steps.
use vstd::prelude::*;

use crate::lean::base::{
    auth_text, handler_auth_name, safe_name, safe_text, transition_name, transition_text, RULE,
};
use crate::lean::covers::{zero_literal, zero_text};
use crate::lean::scope::{find_handler, handler_at, refs, Scope, ScopeV};
use crate::mir::{HandlerMir, LivenessMir, Symbol, Ty};
use crate::number::{decimal, decimal_string};
use crate::text::{copy_strings, join, join_text, same, texts};

verus! {

broadcast use {crate::text::group_text, crate::text::texts_index, crate::text::texts_len};

// ---------------------------------------------------------------------------
// Paths through the lifecycle
// ---------------------------------------------------------------------------

/// Where an operation leads from a lifecycle state.
pub open spec fn leads(hs: Seq<HandlerMir>, op: Seq<char>, state: Seq<char>) -> Option<Seq<char>> {
    match handler_at(hs, op, 0) {
        Some(i) => match hs[i].transition {
            Some(t) => if t.0@ == state {
                Some(t.1@)
            } else {
                None
            },
            None => None,
        },
        None => None,
    }
}

fn find_lead<'a>(hs: &Vec<&'a HandlerMir>, op: &str, state: &str) -> (r: Option<&'a String>)
    ensures
        match r {
            Some(s) => leads(refs(hs@), op@, state@) == Some(s@),
            None => leads(refs(hs@), op@, state@) is None,
        },
{
    match find_handler(hs, op) {
        Some(i) => {
            let h: &'a HandlerMir = hs[i];
            match &h.transition {
                Some(t) => if same(&t.0, state) {
                    Some(&t.1)
                } else {
                    None
                },
                None => None,
            }
        },
        None => None,
    }
}

/// A lifecycle state, and the operations that lead to it.
pub type Walk = (Seq<char>, Seq<Seq<char>>);

/// The walks that one of the first `j` operations makes of a walk. A state
/// without a name leads nowhere.
pub open spec fn extensions(w: Walk, ops_in: Seq<Seq<char>>, hs: Seq<HandlerMir>, j: nat) -> Seq<Walk>
    decreases j,
{
    if j == 0 {
        Seq::empty()
    } else {
        let before = extensions(w, ops_in, hs, (j - 1) as nat);
        match leads(hs, ops_in[j - 1], w.0) {
            Some(post) => if post.len() > 0 {
                before.push((post, w.1.push(ops_in[j - 1])))
            } else {
                before
            },
            None => before,
        }
    }
}

/// The walks that one more operation makes of the first `i` walks.
pub open spec fn extended(ws: Seq<Walk>, ops_in: Seq<Seq<char>>, hs: Seq<HandlerMir>, i: nat) -> Seq<
    Walk,
>
    decreases i,
{
    if i == 0 {
        Seq::empty()
    } else {
        extended(ws, ops_in, hs, (i - 1) as nat) + extensions(ws[i - 1], ops_in, hs, ops_in.len())
    }
}

/// The walks of `k` operations from a state, in the order of the operations.
pub open spec fn walks(
    from: Seq<char>,
    ops_in: Seq<Seq<char>>,
    hs: Seq<HandlerMir>,
    k: nat,
) -> Seq<Walk>
    decreases k,
{
    if k == 0 {
        seq![(from, Seq::<Seq<char>>::empty())]
    } else {
        let before = walks(from, ops_in, hs, (k - 1) as nat);
        extended(before, ops_in, hs, before.len())
    }
}

/// The operations of the first walk from `i` on that ends in `to`.
pub open spec fn first_to(ws: Seq<Walk>, to: Seq<char>, i: int) -> Option<Seq<Seq<char>>>
    decreases ws.len() - i,
{
    if i < 0 || i >= ws.len() {
        None
    } else if ws[i].0 == to {
        Some(ws[i].1)
    } else {
        first_to(ws, to, i + 1)
    }
}

/// The first of the shortest walks to `to` that have at least `k` operations,
/// and at most as many as there are operations to choose from.
pub open spec fn shortest(
    from: Seq<char>,
    to: Seq<char>,
    ops_in: Seq<Seq<char>>,
    hs: Seq<HandlerMir>,
    k: nat,
) -> Option<Seq<Seq<char>>>
    decreases ops_in.len() + 1 - k,
{
    if k > ops_in.len() {
        None
    } else {
        match first_to(walks(from, ops_in, hs, k), to, 0) {
            Some(p) => Some(p),
            None => shortest(from, to, ops_in, hs, k + 1),
        }
    }
}

/// The first operation from `j` on that leads from one state to another.
pub open spec fn one_step(
    from: Seq<char>,
    to: Seq<char>,
    ops_in: Seq<Seq<char>>,
    hs: Seq<HandlerMir>,
    j: int,
) -> Option<Seq<char>>
    decreases ops_in.len() - j,
{
    if j < 0 || j >= ops_in.len() {
        None
    } else if leads(hs, ops_in[j], from) == Some(to) {
        Some(ops_in[j])
    } else {
        one_step(from, to, ops_in, hs, j + 1)
    }
}

/// The operations that lead from one lifecycle state to another: one where one
/// is enough, or else the first of the shortest walks.
pub open spec fn liveness_path(
    from: Seq<char>,
    to: Seq<char>,
    ops_in: Seq<Seq<char>>,
    hs: Seq<HandlerMir>,
) -> Option<Seq<Seq<char>>> {
    match one_step(from, to, ops_in, hs, 0) {
        Some(op) => Some(seq![op]),
        None => shortest(from, to, ops_in, hs, 1),
    }
}

/// Where a sequence of operations leads from a lifecycle state.
pub open spec fn walk_end(from: Seq<char>, ops: Seq<Seq<char>>, hs: Seq<HandlerMir>) -> Option<
    Seq<char>,
>
    decreases ops.len(),
{
    if ops.len() == 0 {
        Some(from)
    } else {
        match walk_end(from, ops.drop_last(), hs) {
            Some(s) => leads(hs, ops.last(), s),
            None => None,
        }
    }
}

/// All operations are among those to choose from.
pub open spec fn all_from(ops: Seq<Seq<char>>, ops_in: Seq<Seq<char>>) -> bool {
    forall|i: int| 0 <= i < ops.len() ==> ops_in.contains(#[trigger] ops[i])
}

/// A walk of `k` operations to choose from, which lead to its state.
pub open spec fn is_walk(
    w: Walk,
    from: Seq<char>,
    ops_in: Seq<Seq<char>>,
    hs: Seq<HandlerMir>,
    k: nat,
) -> bool {
    w.1.len() == k && all_from(w.1, ops_in) && walk_end(from, w.1, hs) == Some(w.0)
}

proof fn extensions_are_walks(
    w: Walk,
    from: Seq<char>,
    ops_in: Seq<Seq<char>>,
    hs: Seq<HandlerMir>,
    k: nat,
    j: nat,
)
    requires
        is_walk(w, from, ops_in, hs, k),
        j <= ops_in.len(),
    ensures
        forall|m: int|
            0 <= m < extensions(w, ops_in, hs, j).len() ==> is_walk(
                #[trigger] extensions(w, ops_in, hs, j)[m],
                from,
                ops_in,
                hs,
                k + 1,
            ),
    decreases j,
{
    if j > 0 {
        extensions_are_walks(w, from, ops_in, hs, k, (j - 1) as nat);
        let op = ops_in[j - 1];
        let ops = w.1.push(op);
        assert(ops.drop_last() =~= w.1);
        assert(ops_in.contains(op));
        assert forall|i: int| 0 <= i < ops.len() implies ops_in.contains(#[trigger] ops[i]) by {
            if i < w.1.len() {
                assert(ops_in.contains(w.1[i]));
            }
        }
        let before = extensions(w, ops_in, hs, (j - 1) as nat);
        let now = extensions(w, ops_in, hs, j);
        assert forall|m: int| 0 <= m < now.len() implies is_walk(
            #[trigger] now[m],
            from,
            ops_in,
            hs,
            k + 1,
        ) by {
            if m < before.len() {
                assert(now[m] == before[m]);
            } else {
                assert(now[m].1 == ops);
                assert(ops.last() == op);
            }
        }
    }
}

proof fn extended_are_walks(
    ws: Seq<Walk>,
    from: Seq<char>,
    ops_in: Seq<Seq<char>>,
    hs: Seq<HandlerMir>,
    k: nat,
    i: nat,
)
    requires
        i <= ws.len(),
        forall|m: int| 0 <= m < ws.len() ==> is_walk(#[trigger] ws[m], from, ops_in, hs, k),
    ensures
        forall|m: int|
            0 <= m < extended(ws, ops_in, hs, i).len() ==> is_walk(
                #[trigger] extended(ws, ops_in, hs, i)[m],
                from,
                ops_in,
                hs,
                k + 1,
            ),
    decreases i,
{
    if i > 0 {
        extended_are_walks(ws, from, ops_in, hs, k, (i - 1) as nat);
        assert(is_walk(ws[i - 1], from, ops_in, hs, k));
        extensions_are_walks(ws[i - 1], from, ops_in, hs, k, ops_in.len());
        let a = extended(ws, ops_in, hs, (i - 1) as nat);
        let b = extensions(ws[i - 1], ops_in, hs, ops_in.len());
        assert forall|m: int| 0 <= m < (a + b).len() implies is_walk(
            #[trigger] (a + b)[m],
            from,
            ops_in,
            hs,
            k + 1,
        ) by {
            if m < a.len() {
                assert((a + b)[m] == a[m]);
            } else {
                assert((a + b)[m] == b[m - a.len()]);
            }
        }
    }
}

proof fn walks_are_walks(from: Seq<char>, ops_in: Seq<Seq<char>>, hs: Seq<HandlerMir>, k: nat)
    ensures
        forall|m: int|
            0 <= m < walks(from, ops_in, hs, k).len() ==> is_walk(
                #[trigger] walks(from, ops_in, hs, k)[m],
                from,
                ops_in,
                hs,
                k,
            ),
    decreases k,
{
    if k > 0 {
        walks_are_walks(from, ops_in, hs, (k - 1) as nat);
        let before = walks(from, ops_in, hs, (k - 1) as nat);
        extended_are_walks(before, from, ops_in, hs, (k - 1) as nat, before.len());
    }
}

proof fn first_to_is_there(ws: Seq<Walk>, to: Seq<char>, i: int)
    requires
        0 <= i,
    ensures
        match first_to(ws, to, i) {
            Some(p) => exists|m: int| i <= m < ws.len() && #[trigger] ws[m] == (to, p),
            None => forall|m: int| i <= m < ws.len() ==> (#[trigger] ws[m]).0 != to,
        },
    decreases ws.len() - i,
{
    if i < ws.len() {
        if ws[i].0 == to {
            assert(ws[i] == (to, ws[i].1));
        } else {
            first_to_is_there(ws, to, i + 1);
        }
    }
}

proof fn shortest_is_a_walk(
    from: Seq<char>,
    to: Seq<char>,
    ops_in: Seq<Seq<char>>,
    hs: Seq<HandlerMir>,
    k: nat,
)
    ensures
        match shortest(from, to, ops_in, hs, k) {
            Some(p) => k <= p.len() <= ops_in.len() && all_from(p, ops_in) && walk_end(from, p, hs)
                == Some(to),
            None => true,
        },
    decreases ops_in.len() + 1 - k,
{
    if k <= ops_in.len() {
        walks_are_walks(from, ops_in, hs, k);
        let ws = walks(from, ops_in, hs, k);
        first_to_is_there(ws, to, 0);
        match first_to(ws, to, 0) {
            Some(p) => {
                let m = choose|m: int| 0 <= m < ws.len() && #[trigger] ws[m] == (to, p);
                assert(is_walk(ws[m], from, ops_in, hs, k));
            },
            None => {
                shortest_is_a_walk(from, to, ops_in, hs, k + 1);
            },
        }
    }
}

/// A path that is found consists of operations to choose from, at least one and
/// at most as many as there are, and leads from the one state to the other.
pub proof fn liveness_path_leads(
    from: Seq<char>,
    to: Seq<char>,
    ops_in: Seq<Seq<char>>,
    hs: Seq<HandlerMir>,
)
    ensures
        match liveness_path(from, to, ops_in, hs) {
            Some(p) => 1 <= p.len() <= ops_in.len() && all_from(p, ops_in) && walk_end(from, p, hs)
                == Some(to),
            None => true,
        },
{
    one_step_leads(from, to, ops_in, hs, 0);
    match one_step(from, to, ops_in, hs, 0) {
        Some(op) => {
            let p = seq![op];
            assert(p.drop_last() =~= Seq::<Seq<char>>::empty());
            assert(walk_end(from, p.drop_last(), hs) == Some(from));
        },
        None => {
            shortest_is_a_walk(from, to, ops_in, hs, 1);
        },
    }
}

proof fn one_step_leads(
    from: Seq<char>,
    to: Seq<char>,
    ops_in: Seq<Seq<char>>,
    hs: Seq<HandlerMir>,
    j: int,
)
    requires
        0 <= j,
    ensures
        match one_step(from, to, ops_in, hs, j) {
            Some(op) => ops_in.len() > 0 && ops_in.contains(op) && leads(hs, op, from) == Some(to),
            None => forall|i: int|
                j <= i < ops_in.len() ==> leads(hs, #[trigger] ops_in[i], from) != Some(to),
        },
    decreases ops_in.len() - j,
{
    if j < ops_in.len() {
        if leads(hs, ops_in[j], from) == Some(to) {
            assert(ops_in.contains(ops_in[j]));
        } else {
            one_step_leads(from, to, ops_in, hs, j + 1);
        }
    }
}

/// Every state on the way has a name.
pub open spec fn named_states(from: Seq<char>, ops: Seq<Seq<char>>, hs: Seq<HandlerMir>) -> bool
    decreases ops.len(),
{
    ops.len() == 0 || (named_states(from, ops.drop_last(), hs) && match walk_end(from, ops, hs) {
        Some(s) => s.len() > 0,
        None => false,
    })
}

proof fn extensions_reach(w: Walk, ops_in: Seq<Seq<char>>, hs: Seq<HandlerMir>, j: nat, i: int)
    requires
        0 <= i < j <= ops_in.len(),
        match leads(hs, ops_in[i], w.0) {
            Some(s) => s.len() > 0,
            None => false,
        },
    ensures
        extensions(w, ops_in, hs, j).contains((leads(hs, ops_in[i], w.0)->0, w.1.push(ops_in[i]))),
    decreases j,
{
    let x = (leads(hs, ops_in[i], w.0)->0, w.1.push(ops_in[i]));
    let all = extensions(w, ops_in, hs, j);
    if i == j - 1 {
        assert(all.last() == x);
        assert(all[all.len() - 1] == x);
    } else {
        extensions_reach(w, ops_in, hs, (j - 1) as nat, i);
        let before = extensions(w, ops_in, hs, (j - 1) as nat);
        let m = choose|m: int| 0 <= m < before.len() && before[m] == x;
        assert(all[m] == x);
    }
}

proof fn extended_reach(
    ws: Seq<Walk>,
    ops_in: Seq<Seq<char>>,
    hs: Seq<HandlerMir>,
    i: nat,
    m: int,
    x: Walk,
)
    requires
        0 <= m < i <= ws.len(),
        extensions(ws[m], ops_in, hs, ops_in.len()).contains(x),
    ensures
        extended(ws, ops_in, hs, i).contains(x),
    decreases i,
{
    let a = extended(ws, ops_in, hs, (i - 1) as nat);
    let b = extensions(ws[i - 1], ops_in, hs, ops_in.len());
    if m == i - 1 {
        let p = choose|p: int| 0 <= p < b.len() && b[p] == x;
        assert((a + b)[a.len() + p] == x);
    } else {
        extended_reach(ws, ops_in, hs, (i - 1) as nat, m, x);
        let p = choose|p: int| 0 <= p < a.len() && a[p] == x;
        assert((a + b)[p] == x);
    }
}

proof fn walks_reach(from: Seq<char>, ops: Seq<Seq<char>>, ops_in: Seq<Seq<char>>, hs: Seq<HandlerMir>)
    requires
        all_from(ops, ops_in),
        named_states(from, ops, hs),
    ensures
        walk_end(from, ops, hs) is Some,
        walks(from, ops_in, hs, ops.len()).contains((walk_end(from, ops, hs)->0, ops)),
    decreases ops.len(),
{
    let x = (walk_end(from, ops, hs)->0, ops);
    if ops.len() == 0 {
        assert(ops =~= Seq::<Seq<char>>::empty());
        assert(walks(from, ops_in, hs, 0)[0] == x);
    } else {
        let init = ops.drop_last();
        assert forall|i: int| 0 <= i < init.len() implies ops_in.contains(#[trigger] init[i]) by {
            assert(init[i] == ops[i]);
        }
        walks_reach(from, init, ops_in, hs);
        let before = walks(from, ops_in, hs, init.len());
        let w = (walk_end(from, init, hs)->0, init);
        let m = choose|m: int| 0 <= m < before.len() && before[m] == w;
        assert(ops_in.contains(ops[ops.len() - 1]));
        let i = choose|i: int| 0 <= i < ops_in.len() && ops_in[i] == ops.last();
        extensions_reach(w, ops_in, hs, ops_in.len(), i);
        assert(init.push(ops.last()) =~= ops);
        extended_reach(before, ops_in, hs, before.len(), m, x);
    }
}

proof fn shortest_is_complete(
    from: Seq<char>,
    to: Seq<char>,
    ops_in: Seq<Seq<char>>,
    hs: Seq<HandlerMir>,
    k: nat,
    ops: Seq<Seq<char>>,
)
    requires
        all_from(ops, ops_in),
        named_states(from, ops, hs),
        walk_end(from, ops, hs) == Some(to),
        k <= ops.len() <= ops_in.len(),
    ensures
        match shortest(from, to, ops_in, hs, k) {
            Some(p) => p.len() <= ops.len(),
            None => false,
        },
    decreases ops_in.len() + 1 - k,
{
    let ws = walks(from, ops_in, hs, k);
    first_to_is_there(ws, to, 0);
    if k == ops.len() {
        walks_reach(from, ops, ops_in, hs);
        let m = choose|m: int| 0 <= m < ws.len() && ws[m] == (to, ops);
        assert(ws[m].0 == to);
    }
    match first_to(ws, to, 0) {
        Some(p) => {
            walks_are_walks(from, ops_in, hs, k);
            let m = choose|m: int| 0 <= m < ws.len() && #[trigger] ws[m] == (to, p);
            assert(is_walk(ws[m], from, ops_in, hs, k));
        },
        None => {
            shortest_is_complete(from, to, ops_in, hs, k + 1, ops);
        },
    }
}

/// Where some sequence of the operations leads from the one state to the other,
/// through named states and with at most as many operations as there are, a
/// path is found, and it is no longer than that sequence.
pub proof fn liveness_path_is_shortest(
    from: Seq<char>,
    to: Seq<char>,
    ops_in: Seq<Seq<char>>,
    hs: Seq<HandlerMir>,
    ops: Seq<Seq<char>>,
)
    requires
        all_from(ops, ops_in),
        named_states(from, ops, hs),
        walk_end(from, ops, hs) == Some(to),
        1 <= ops.len() <= ops_in.len(),
    ensures
        match liveness_path(from, to, ops_in, hs) {
            Some(p) => p.len() <= ops.len(),
            None => false,
        },
{
    if one_step(from, to, ops_in, hs, 0) is None {
        shortest_is_complete(from, to, ops_in, hs, 1, ops);
    }
}

/// A walk that the search holds.
pub struct PathItem {
    pub state: String,
    pub ops: Vec<String>,
}

/// The walks that the search holds.
pub open spec fn items_view(v: Seq<PathItem>) -> Seq<Walk> {
    Seq::new(v.len(), |i: int| (v[i].state@, texts(v[i].ops@)))
}

proof fn items_view_push(v: Seq<PathItem>, x: PathItem)
    ensures
        items_view(v.push(x)) == items_view(v).push((x.state@, texts(x.ops@))),
{
    assert(items_view(v.push(x)) =~= items_view(v).push((x.state@, texts(x.ops@))));
}

proof fn first_to_append(a: Seq<Walk>, b: Seq<Walk>, to: Seq<char>, i: int)
    requires
        0 <= i <= a.len(),
        first_to(a, to, i) is None,
    ensures
        first_to(a + b, to, i) == first_to(b, to, 0),
    decreases a.len() - i,
{
    if i < a.len() {
        assert((a + b)[i] == a[i]);
        first_to_append(a, b, to, i + 1);
    } else {
        first_to_shift(a, b, to, 0);
    }
}

proof fn first_to_shift(a: Seq<Walk>, b: Seq<Walk>, to: Seq<char>, j: int)
    requires
        0 <= j <= b.len(),
    ensures
        first_to(a + b, to, a.len() + j) == first_to(b, to, j),
    decreases b.len() - j,
{
    if j < b.len() {
        assert((a + b)[a.len() + j] == b[j]);
        first_to_shift(a, b, to, j + 1);
    }
}

proof fn first_to_keeps(a: Seq<Walk>, b: Seq<Walk>, to: Seq<char>, i: int)
    requires
        0 <= i <= a.len(),
        first_to(a, to, i) is Some,
    ensures
        first_to(a + b, to, i) == first_to(a, to, i),
    decreases a.len() - i,
{
    assert((a + b)[i] == a[i]);
    if a[i].0 != to {
        first_to_keeps(a, b, to, i + 1);
    }
}

/// What the first walks and operations give stands at the start of what all
/// give.
proof fn extensions_grow(w: Walk, ops_in: Seq<Seq<char>>, hs: Seq<HandlerMir>, j: nat, n: nat)
    requires
        j <= n <= ops_in.len(),
    ensures
        exists|rest: Seq<Walk>|
            extensions(w, ops_in, hs, n) == #[trigger] (extensions(w, ops_in, hs, j) + rest),
    decreases n - j,
{
    let a = extensions(w, ops_in, hs, j);
    if j == n {
        assert(a + Seq::<Walk>::empty() =~= a);
    } else {
        extensions_grow(w, ops_in, hs, j, (n - 1) as nat);
        let b = extensions(w, ops_in, hs, (n - 1) as nat);
        let rest = choose|rest: Seq<Walk>| b == #[trigger] (a + rest);
        let c = extensions(w, ops_in, hs, n);
        if c != b {
            let rest2 = rest.push(c.last());
            assert(c =~= a + rest2);
        }
    }
}

proof fn extended_grow(ws: Seq<Walk>, ops_in: Seq<Seq<char>>, hs: Seq<HandlerMir>, i: nat, n: nat)
    requires
        i <= n <= ws.len(),
    ensures
        exists|rest: Seq<Walk>|
            extended(ws, ops_in, hs, n) == #[trigger] (extended(ws, ops_in, hs, i) + rest),
    decreases n - i,
{
    let a = extended(ws, ops_in, hs, i);
    if i == n {
        assert(a + Seq::<Walk>::empty() =~= a);
    } else {
        extended_grow(ws, ops_in, hs, i, (n - 1) as nat);
        let b = extended(ws, ops_in, hs, (n - 1) as nat);
        let rest = choose|rest: Seq<Walk>| b == #[trigger] (a + rest);
        let more = extensions(ws[n - 1], ops_in, hs, ops_in.len());
        assert(extended(ws, ops_in, hs, n) =~= a + (rest + more));
    }
}

/// What is found among the walks so far is what is found among all.
proof fn hit_is_first(
    ws: Seq<Walk>,
    ops_in: Seq<Seq<char>>,
    hs: Seq<HandlerMir>,
    to: Seq<char>,
    i: nat,
    j: nat,
)
    requires
        i < ws.len(),
        j <= ops_in.len(),
        first_to(extended(ws, ops_in, hs, i) + extensions(ws[i as int], ops_in, hs, j), to, 0) is Some,
    ensures
        first_to(extended(ws, ops_in, hs, ws.len()), to, 0) == first_to(
            extended(ws, ops_in, hs, i) + extensions(ws[i as int], ops_in, hs, j),
            to,
            0,
        ),
{
    let a = extended(ws, ops_in, hs, i);
    let b = extensions(ws[i as int], ops_in, hs, j);
    extensions_grow(ws[i as int], ops_in, hs, j, ops_in.len());
    let rest = choose|rest: Seq<Walk>|
        extensions(ws[i as int], ops_in, hs, ops_in.len()) == #[trigger] (b + rest);
    extended_grow(ws, ops_in, hs, i + 1, ws.len());
    let rest2 = choose|rest2: Seq<Walk>|
        extended(ws, ops_in, hs, ws.len()) == #[trigger] (extended(ws, ops_in, hs, i + 1) + rest2);
    assert(extended(ws, ops_in, hs, ws.len()) =~= (a + b) + (rest + rest2));
    first_to_keeps(a + b, rest + rest2, to, 0);
}

/// Extends every walk by one operation; returns the operations of the first
/// walk that ends in `to`.
fn extend_walks(
    ws: &Vec<PathItem>,
    to: &str,
    ops_in: &Vec<Symbol>,
    hs: &Vec<&HandlerMir>,
) -> (r: Result<Vec<String>, Vec<PathItem>>)
    ensures
        match r {
            Ok(ops) => first_to(
                extended(items_view(ws@), texts(ops_in@), refs(hs@), ws@.len()),
                to@,
                0,
            ) == Some(texts(ops@)),
            Err(next) => items_view(next@) == extended(
                items_view(ws@),
                texts(ops_in@),
                refs(hs@),
                ws@.len(),
            ) && first_to(items_view(next@), to@, 0) is None,
        },
{
    let mut next: Vec<PathItem> = Vec::new();
    let ghost all = items_view(ws@);
    proof {
        assert(items_view(next@) =~= Seq::<Walk>::empty());
    }
    for i in 0..ws.len()
        invariant
            all == items_view(ws@),
            items_view(next@) == extended(all, texts(ops_in@), refs(hs@), i as nat),
            first_to(items_view(next@), to@, 0) is None,
    {
        let ghost base = items_view(next@);
        proof {
            assert(base + Seq::<Walk>::empty() =~= base);
        }
        for j in 0..ops_in.len()
            invariant
                all == items_view(ws@),
                i < ws@.len(),
                base == extended(all, texts(ops_in@), refs(hs@), i as nat),
                items_view(next@) == base + extensions(
                    all[i as int],
                    texts(ops_in@),
                    refs(hs@),
                    j as nat,
                ),
                first_to(items_view(next@), to@, 0) is None,
        {
            match find_lead(hs, &ops_in[j], &ws[i].state) {
                Some(post) => {
                    if !post.as_str().is_empty() {
                        let mut ops = copy_strings(&ws[i].ops);
                        ops.push(ops_in[j].clone());
                        let ghost w = (post@, texts(ops@));
                        let ghost before = items_view(next@);
                        proof {
                            let one = seq![w];
                            first_to_append(before, one, to@, 0);
                            assert(before + one =~= before.push(w));
                            assert(first_to(one, to@, 1) is None);
                            assert(before.push(w) =~= base + extensions(
                                all[i as int],
                                texts(ops_in@),
                                refs(hs@),
                                (j + 1) as nat,
                            ));
                        }
                        if same(post, to) {
                            proof {
                                hit_is_first(
                                    all,
                                    texts(ops_in@),
                                    refs(hs@),
                                    to@,
                                    i as nat,
                                    (j + 1) as nat,
                                );
                            }
                            return Ok(ops);
                        }
                        let item = PathItem { state: post.clone(), ops };
                        proof {
                            items_view_push(next@, item);
                        }
                        next.push(item);
                    }
                },
                None => {},
            }
        }
    }
    Err(next)
}

/// Finds the operations that lead from one lifecycle state to another.
pub fn find_liveness_path(from: &str, to: &str, ops_in: &Vec<Symbol>, hs: &Vec<&HandlerMir>) -> (r:
    Option<Vec<String>>)
    ensures
        match r {
            Some(ops) => liveness_path(from@, to@, texts(ops_in@), refs(hs@)) == Some(texts(ops@)),
            None => liveness_path(from@, to@, texts(ops_in@), refs(hs@)) is None,
        },
{
    let mut j: usize = 0;
    while j < ops_in.len()
        invariant
            j <= ops_in@.len(),
            one_step(from@, to@, texts(ops_in@), refs(hs@), 0) == one_step(
                from@,
                to@,
                texts(ops_in@),
                refs(hs@),
                j as int,
            ),
        decreases ops_in@.len() - j,
    {
        match find_lead(hs, &ops_in[j], from) {
            Some(post) => {
                if same(post, to) {
                    let mut ops: Vec<String> = Vec::new();
                    ops.push(ops_in[j].clone());
                    proof {
                        assert(texts(ops@) =~= seq![ops_in@[j as int]@]);
                    }
                    return Some(ops);
                }
            },
            None => {},
        }
        j = j + 1;
    }
    let mut level: Vec<PathItem> = Vec::new();
    level.push(PathItem { state: from.to_owned(), ops: Vec::new() });
    proof {
        assert(items_view(level@) =~= walks(from@, texts(ops_in@), refs(hs@), 0));
    }
    let mut k: usize = 0;
    while k < ops_in.len()
        invariant
            k <= ops_in.len(),
            items_view(level@) == walks(from@, texts(ops_in@), refs(hs@), k as nat),
            one_step(from@, to@, texts(ops_in@), refs(hs@), 0) is None,
            shortest(from@, to@, texts(ops_in@), refs(hs@), 1) == shortest(
                from@,
                to@,
                texts(ops_in@),
                refs(hs@),
                (k + 1) as nat,
            ),
        decreases ops_in.len() - k,
    {
        match extend_walks(&level, to, ops_in, hs) {
            Ok(ops) => {
                return Some(ops);
            },
            Err(next) => {
                level = next;
            },
        }
        k = k + 1;
    }
    None
}

// ---------------------------------------------------------------------------
// Proofs
// ---------------------------------------------------------------------------

/// The first `n` arguments of an operation.
pub open spec fn zero_args(params: Seq<(Symbol, Ty)>, n: nat) -> Seq<Seq<char>>
    decreases n,
{
    if n == 0 {
        Seq::empty()
    } else {
        zero_args(params, (n - 1) as nat).push(zero_text(params[n - 1].1))
    }
}

/// The parameters of the handler that has the name.
pub open spec fn params_of(hs: Seq<HandlerMir>, op: Seq<char>) -> Seq<(Symbol, Ty)> {
    match handler_at(hs, op, 0) {
        Some(i) => hs[i].params@,
        None => Seq::empty(),
    }
}

/// An operation with arguments.
pub open spec fn op_text(hs: Seq<HandlerMir>, op: Seq<char>) -> Seq<char> {
    let params = params_of(hs, op);
    "."@ + safe_text(op) + (if params.len() == 0 {
        Seq::empty()
    } else {
        " "@ + join_text(zero_args(params, params.len()), " "@)
    })
}

/// Whether one of the first `n` parameters is a public key.
pub open spec fn takes_key(params: Seq<(Symbol, Ty)>, n: nat) -> bool
    decreases n,
{
    if n == 0 {
        false
    } else {
        takes_key(params, (n - 1) as nat) || params[n - 1].1 is Pubkey
    }
}

/// Whether one of the first `n` operations takes a public key.
pub open spec fn path_takes_key(hs: Seq<HandlerMir>, ops: Seq<Seq<char>>, n: nat) -> bool
    decreases n,
{
    if n == 0 {
        false
    } else {
        path_takes_key(hs, ops, (n - 1) as nat) || takes_key(
            params_of(hs, ops[n - 1]),
            params_of(hs, ops[n - 1]).len(),
        )
    }
}

/// The first `n` operations with arguments.
pub open spec fn op_texts(hs: Seq<HandlerMir>, ops: Seq<Seq<char>>, n: nat) -> Seq<Seq<char>>
    decreases n,
{
    if n == 0 {
        Seq::empty()
    } else {
        op_texts(hs, ops, (n - 1) as nat).push(op_text(hs, ops[n - 1]))
    }
}

/// Whether the transition of an operation is guarded.
pub open spec fn is_guarded(hs: Seq<HandlerMir>, op: Seq<char>) -> bool {
    match handler_at(hs, op, 0) {
        Some(i) => auth_text(hs[i]) is Some || hs[i].requires_or_abort@.len() > 0
            || hs[i].transition is Some || hs[i].pre@.len() > 0,
        None => false,
    }
}

fn guarded(hs: &Vec<&HandlerMir>, op: &str) -> (r: bool)
    ensures
        r == is_guarded(refs(hs@), op@),
{
    match find_handler(hs, op) {
        Some(i) => {
            let h = hs[i];
            handler_auth_name(h).is_some() || h.requires_or_abort.len() > 0
                || h.transition.is_some() || h.pre.len() > 0
        },
        None => false,
    }
}

fn op_string(hs: &Vec<&HandlerMir>, op: &str) -> (r: (String, bool))
    ensures
        r.0@ == op_text(refs(hs@), op@),
        r.1 == takes_key(params_of(refs(hs@), op@), params_of(refs(hs@), op@).len()),
{
    let name = safe_name(op);
    let mut out = ".".to_owned();
    out.push_str(&name);
    match find_handler(hs, op) {
        Some(i) => {
            let h = hs[i];
            let mut args: Vec<String> = Vec::new();
            let mut key: bool = false;
            for k in 0..h.params.len()
                invariant
                    args@.len() == k,
                    texts(args@) == zero_args(h.params@, k as nat),
                    key == takes_key(h.params@, k as nat),
            {
                args.push(zero_literal(&h.params[k].1).to_owned());
                match &h.params[k].1 {
                    Ty::Pubkey => {
                        key = true;
                    },
                    _ => {},
                }
            }
            if args.len() > 0 {
                let joined = join(&args, " ");
                out.push_str(" ");
                out.push_str(&joined);
            }
            (out, key)
        },
        None => (out, false),
    }
}

/// The proof for a path of one operation.
#[verifier::opaque]
pub open spec fn one_step_proof(hs: Seq<HandlerMir>, op: Seq<char>) -> Seq<char> {
    let trans = transition_text(op);
    if is_guarded(hs, op) {
        "  simp only [applyOps, applyOp, "@ + trans + "] at h_apply\n"@ + "  split at h_apply\n"@ + "  · next heq =>\n"@ + "    split at heq\n"@ + "    · next hg => simp at heq h_apply; subst heq; subst h_apply; rfl\n"@ + "    · simp at heq\n"@ + "  · simp at h_apply\n"@
    } else {
        "  simp only [applyOps, applyOp, "@ + trans + ", h, ↓reduceIte] at h_apply\n"@ + "  cases h_apply; rfl\n"@
    }
}

fn emit_one_step_proof(out: &mut String, hs: &Vec<&HandlerMir>, op: &str)
    ensures
        final(out)@ == old(out)@ + one_step_proof(refs(hs@), op@),
{
    proof {
        reveal(one_step_proof);
    }
    let trans = transition_name(op);
    if guarded(hs, op) {
        out.push_str("  simp only [applyOps, applyOp, ");
        out.push_str(&trans);
        out.push_str("] at h_apply\n");
        out.push_str("  split at h_apply\n");
        out.push_str("  · next heq =>\n");
        out.push_str("    split at heq\n");
        out.push_str("    · next hg => simp at heq h_apply; subst heq; subst h_apply; rfl\n");
        out.push_str("    · simp at heq\n");
        out.push_str("  · simp at h_apply\n");
    } else {
        out.push_str("  simp only [applyOps, applyOp, ");
        out.push_str(&trans);
        out.push_str(", h, ↓reduceIte] at h_apply\n");
        out.push_str("  cases h_apply; rfl\n");
    }
}

/// The proof for the steps of a path from `i` on, one inside the other.
#[verifier::opaque]
pub open spec fn nested_proof(
    hs: Seq<HandlerMir>,
    ops: Seq<Seq<char>>,
    i: nat,
    indent: Seq<char>,
) -> Seq<char>
    decreases ops.len() - i,
{
    if i >= ops.len() {
        Seq::empty()
    } else {
        let inner = indent + "  "@;
        let inner2 = inner + "  "@;
        let head = indent + "simp only ["@ + transition_text(ops[i as int]) + "] at h_apply\n"@ + indent + "split at h_apply\n"@;
        if i + 1 == ops.len() {
            if is_guarded(hs, ops[i as int]) {
                head + indent + "· next heq =>\n"@ + inner + "split at heq\n"@ + inner + "· next hg => simp at heq h_apply; subst heq; subst h_apply; rfl\n"@ + inner + "· simp at heq\n"@
            } else {
                head + indent + "· cases h_apply; rfl\n"@
            }
        } else if is_guarded(hs, ops[i as int]) {
            head + indent + "· next heq =>\n"@ + inner + "split at heq\n"@ + inner + "· next hg =>\n"@ + inner2 + "simp at heq\n"@ + inner2 + "subst heq\n"@ + nested_proof(hs, ops, i + 1, inner2) + inner + "· simp at heq\n"@
        } else {
            head + indent + "·\n"@ + nested_proof(hs, ops, i + 1, inner)
        }
    }
}

fn emit_nested_proof(
    out: &mut String,
    hs: &Vec<&HandlerMir>,
    ops: &Vec<String>,
    i: usize,
    indent: &str,
)
    ensures
        final(out)@ == old(out)@ + nested_proof(refs(hs@), texts(ops@), i as nat, indent@),
    decreases ops@.len() - i,
{
    proof {
        reveal(nested_proof);
    }
    if i >= ops.len() {
        return ;
    }
    let mut inner = indent.to_owned();
    inner.push_str("  ");
    let mut inner2 = inner.clone();
    inner2.push_str("  ");
    let trans = transition_name(&ops[i]);
    let split = guarded(hs, &ops[i]);
    out.push_str(indent);
    out.push_str("simp only [");
    out.push_str(&trans);
    out.push_str("] at h_apply\n");
    out.push_str(indent);
    out.push_str("split at h_apply\n");
    if i + 1 == ops.len() {
        if split {
            out.push_str(indent);
            out.push_str("· next heq =>\n");
            out.push_str(&inner);
            out.push_str("split at heq\n");
            out.push_str(&inner);
            out.push_str("· next hg => simp at heq h_apply; subst heq; subst h_apply; rfl\n");
            out.push_str(&inner);
            out.push_str("· simp at heq\n");
        } else {
            out.push_str(indent);
            out.push_str("· cases h_apply; rfl\n");
        }
    } else if split {
        out.push_str(indent);
        out.push_str("· next heq =>\n");
        out.push_str(&inner);
        out.push_str("split at heq\n");
        out.push_str(&inner);
        out.push_str("· next hg =>\n");
        out.push_str(&inner2);
        out.push_str("simp at heq\n");
        out.push_str(&inner2);
        out.push_str("subst heq\n");
        emit_nested_proof(out, hs, ops, i + 1, &inner2);
        out.push_str(&inner);
        out.push_str("· simp at heq\n");
    } else {
        out.push_str(indent);
        out.push_str("·\n");
        emit_nested_proof(out, hs, ops, i + 1, &inner);
    }
}

/// The proof of a liveness theorem along a path.
#[verifier::opaque]
pub open spec fn liveness_proof(hs: Seq<HandlerMir>, ops: Seq<Seq<char>>) -> Seq<char> {
    " := by\n"@ + (if path_takes_key(hs, ops, ops.len()) {
        "  let pk : Pubkey := ⟨0, 0, 0, 0⟩\n"@
    } else {
        Seq::empty()
    }) + ("  refine ⟨["@ + join_text(op_texts(hs, ops, ops.len()), ", "@) + "], by decide, fun s' h_apply => ?_⟩\n"@)
        + (if ops.len() == 1 {
        one_step_proof(hs, ops[0])
    } else {
        "  simp only [applyOps, applyOp] at h_apply\n"@ + nested_proof(hs, ops, 0, "  "@)
    })
}

fn emit_liveness_proof(out: &mut String, hs: &Vec<&HandlerMir>, ops: &Vec<String>)
    ensures
        final(out)@ == old(out)@ + liveness_proof(refs(hs@), texts(ops@)),
{
    proof {
        reveal(liveness_proof);
    }
    let mut list: Vec<String> = Vec::new();
    let mut key: bool = false;
    for i in 0..ops.len()
        invariant
            texts(list@) == op_texts(refs(hs@), texts(ops@), i as nat),
            key == path_takes_key(refs(hs@), texts(ops@), i as nat),
    {
        let (text, takes) = op_string(hs, &ops[i]);
        list.push(text);
        key = key || takes;
    }
    out.push_str(" := by\n");
    if key {
        out.push_str("  let pk : Pubkey := ⟨0, 0, 0, 0⟩\n");
    }
    let joined = join(&list, ", ");
    out.push_str("  refine ⟨[");
    out.push_str(&joined);
    out.push_str("], by decide, fun s' h_apply => ?_⟩\n");
    if ops.len() == 1 {
        emit_one_step_proof(out, hs, &ops[0]);
    } else {
        out.push_str("  simp only [applyOps, applyOp] at h_apply\n");
        emit_nested_proof(out, hs, ops, 0, "  ");
    }
}

// ---------------------------------------------------------------------------
// Theorems
// ---------------------------------------------------------------------------

/// The function that applies a list of operations.
pub const APPLY_OPS: &'static str = "def applyOps (s : State) (signer : Pubkey) : List Operation → Option State\n  | [] => some s\n  | op :: ops => match applyOp s signer op with\n    | some s' => applyOps s' signer ops\n    | none => none\n\n";

/// The bound on the number of steps.
pub open spec fn step_bound(l: LivenessMir) -> nat {
    match l.within_steps {
        Some(n) => n as nat,
        None => 10,
    }
}

/// A liveness theorem: along a path of the flat state where there is one, as a
/// stub elsewhere.
#[verifier::opaque]
pub open spec fn live_text(hs: Seq<HandlerMir>, l: LivenessMir, adt: bool) -> Seq<char> {
    let bound = decimal(step_bound(l));
    let to = l.leads_to_state@;
    "/-- "@ + l.name@ + " — from "@ + l.from_state@ + " leads to "@ + to + " within "@ + bound + " steps via ["@ + join_text(texts(l.via_ops@), ", "@) + "]. -/\n"@
        + ("theorem liveness_"@ + l.name@ + " (s : State) (signer : Pubkey)\n"@ + "    (h : s.status = ."@ + l.from_state@ + ") :\n"@)
        + (if adt {
        "    ∃ ops, ops.length ≤ "@ + bound + " ∧ ∀ s', applyOps s signer ops = some s' → s'.status = ."@ + to + " := by sorry\n\n"@
    } else {
        match liveness_path(l.from_state@, to, texts(l.via_ops@), hs) {
            Some(ops) => "    ∃ ops, ops.length ≤ "@ + bound + " ∧ ∀ s', applyOps s signer ops = some s' → s'.status = ."@ + to + liveness_proof(hs, ops) + "\n"@,
            None => "    ∃ ops s', ops.length ≤ "@ + bound + " ∧ applyOps s signer ops = some s' ∧ s'.status = ."@ + to + " := by sorry\n\n"@,
        }
    })
}

fn emit_live(out: &mut String, hs: &Vec<&HandlerMir>, l: &LivenessMir, adt: bool)
    ensures
        final(out)@ == old(out)@ + live_text(refs(hs@), *l, adt),
{
    proof {
        reveal(live_text);
    }
    let bound: String = match l.within_steps {
        Some(n) => decimal_string(n as u128),
        None => decimal_string(10),
    };
    let to = &l.leads_to_state;
    let ops_in = join(&l.via_ops, ", ");
    out.push_str("/-- ");
    out.push_str(&l.name);
    out.push_str(" — from ");
    out.push_str(&l.from_state);
    out.push_str(" leads to ");
    out.push_str(to);
    out.push_str(" within ");
    out.push_str(&bound);
    out.push_str(" steps via [");
    out.push_str(&ops_in);
    out.push_str("]. -/\n");
    out.push_str("theorem liveness_");
    out.push_str(&l.name);
    out.push_str(" (s : State) (signer : Pubkey)\n");
    out.push_str("    (h : s.status = .");
    out.push_str(&l.from_state);
    out.push_str(") :\n");
    if adt {
        out.push_str("    ∃ ops, ops.length ≤ ");
        out.push_str(&bound);
        out.push_str(" ∧ ∀ s', applyOps s signer ops = some s' → s'.status = .");
        out.push_str(to);
        out.push_str(" := by sorry\n\n");
    } else {
        match find_liveness_path(&l.from_state, to, &l.via_ops, hs) {
            Some(ops) => {
                out.push_str("    ∃ ops, ops.length ≤ ");
                out.push_str(&bound);
                out.push_str(" ∧ ∀ s', applyOps s signer ops = some s' → s'.status = .");
                out.push_str(to);
                emit_liveness_proof(out, hs, &ops);
                out.push_str("\n");
            },
            None => {
                out.push_str("    ∃ ops s', ops.length ≤ ");
                out.push_str(&bound);
                out.push_str(" ∧ applyOps s signer ops = some s' ∧ s'.status = .");
                out.push_str(to);
                out.push_str(" := by sorry\n\n");
            },
        }
    }
}

pub open spec fn lives_upto(sc: ScopeV, adt: bool, n: nat) -> Seq<char>
    decreases n,
{
    if n == 0 {
        Seq::empty()
    } else {
        lives_upto(sc, adt, (n - 1) as nat) + live_text(sc.handlers, sc.liveness[n - 1], adt)
    }
}

/// The liveness theorems without their heading.
pub open spec fn lives_text(sc: ScopeV, adt: bool) -> Seq<char> {
    lives_upto(sc, adt, sc.liveness.len())
}

/// Renders the liveness theorems without their heading.
pub fn emit_lives(out: &mut String, sc: &Scope, adt: bool)
    ensures
        final(out)@ == old(out)@ + lives_text(sc@, adt),
{
    for i in 0..sc.liveness.len()
        invariant
            out@ == old(out)@ + lives_upto(sc@, adt, i as nat),
    {
        emit_live(out, &sc.handlers, sc.liveness[i], adt);
    }
}

/// The heading of the liveness theorems.
pub open spec fn liveness_heading() -> Seq<char> {
    RULE@ + "-- Liveness properties — bounded reachability (leads-to)\n"@ + RULE@ + "\n"@
}

/// The liveness theorems, on the flat or on the inductive state.
pub open spec fn liveness_text(sc: ScopeV, adt: bool) -> Seq<char> {
    if sc.liveness.len() == 0 {
        Seq::empty()
    } else {
        liveness_heading() + (if sc.handlers.len() > 0 {
            APPLY_OPS@
        } else {
            Seq::empty()
        }) + lives_text(sc, adt)
    }
}

/// Renders the liveness theorems.
pub fn emit_liveness(out: &mut String, sc: &Scope, adt: bool)
    ensures
        final(out)@ == old(out)@ + liveness_text(sc@, adt),
{
    if sc.liveness.len() == 0 {
        return ;
    }
    out.push_str(RULE);
    out.push_str("-- Liveness properties — bounded reachability (leads-to)\n");
    out.push_str(RULE);
    out.push_str("\n");
    if sc.handlers.len() > 0 {
        out.push_str(APPLY_OPS);
    }
    emit_lives(out, sc, adt);
}

} // verus!
