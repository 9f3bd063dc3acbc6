//! Maps from names to values, kept in the order of the names.
use vstd::prelude::*;

use crate::text::{chars_of, same};

verus! {

/// The order of text: by the first character that differs, and a proper prefix
/// before what it starts.
pub open spec fn text_lt(a: Seq<char>, b: Seq<char>) -> bool
    decreases a.len(),
{
    if b.len() == 0 {
        false
    } else if a.len() == 0 {
        true
    } else if a[0] != b[0] {
        a[0] < b[0]
    } else {
        text_lt(a.drop_first(), b.drop_first())
    }
}

/// No text stands before itself.
pub proof fn text_lt_irreflexive(a: Seq<char>)
    ensures
        !text_lt(a, a),
    decreases a.len(),
{
    if a.len() > 0 {
        text_lt_irreflexive(a.drop_first());
    }
}

/// What stands before `b` stands before everything that `b` stands before.
pub proof fn text_lt_transitive(a: Seq<char>, b: Seq<char>, c: Seq<char>)
    requires
        text_lt(a, b),
        text_lt(b, c),
    ensures
        text_lt(a, c),
    decreases a.len(),
{
    if a.len() > 0 && a[0] == b[0] && b[0] == c[0] {
        text_lt_transitive(a.drop_first(), b.drop_first(), c.drop_first());
    }
}

/// Of two different texts one stands before the other.
pub proof fn text_lt_total(a: Seq<char>, b: Seq<char>)
    ensures
        text_lt(a, b) || a == b || text_lt(b, a),
    decreases a.len(),
{
    if a.len() == 0 || b.len() == 0 {
        if a.len() == 0 && b.len() == 0 {
            assert(a =~= b);
        }
    } else if a[0] == b[0] {
        text_lt_total(a.drop_first(), b.drop_first());
        if a.drop_first() == b.drop_first() {
            assert(a =~= seq![a[0]] + a.drop_first());
            assert(b =~= seq![b[0]] + b.drop_first());
        }
    }
}

/// Whether `a` stands before `b`.
pub fn before(a: &str, b: &str) -> (r: bool)
    ensures
        r == text_lt(a@, b@),
{
    let v = chars_of(a);
    let w = chars_of(b);
    let mut i: usize = 0;
    proof {
        assert(v@.subrange(0, v.len() as int) =~= v@);
        assert(w@.subrange(0, w.len() as int) =~= w@);
    }
    while i < v.len() && i < w.len() && v[i] == w[i]
        invariant
            i <= v.len(),
            i <= w.len(),
            v@ == a@,
            w@ == b@,
            text_lt(a@, b@) == text_lt(
                v@.subrange(i as int, v.len() as int),
                w@.subrange(i as int, w.len() as int),
            ),
        decreases v.len() - i,
    {
        proof {
            assert(v@.subrange(i as int, v.len() as int).drop_first() =~= v@.subrange(
                i + 1,
                v.len() as int,
            ));
            assert(w@.subrange(i as int, w.len() as int).drop_first() =~= w@.subrange(
                i + 1,
                w.len() as int,
            ));
        }
        i = i + 1;
    }
    if i >= w.len() {
        false
    } else if i >= v.len() {
        true
    } else {
        v[i] < w[i]
    }
}

/// The value that a list of entries holds under `k`.
pub open spec fn lookup<V>(es: Seq<(Seq<char>, V)>, k: Seq<char>) -> Option<V>
    decreases es.len(),
{
    if es.len() == 0 {
        None
    } else if es.last().0 == k {
        Some(es.last().1)
    } else {
        lookup(es.drop_last(), k)
    }
}

/// The entries with `v` under `k`: in the place of the entry that `k` has, or
/// else before the entries with greater names.
pub open spec fn with_entry<V>(es: Seq<(Seq<char>, V)>, k: Seq<char>, v: V) -> Seq<(Seq<char>, V)>
    decreases es.len(),
{
    if es.len() == 0 {
        seq![(k, v)]
    } else if text_lt(k, es.last().0) {
        with_entry(es.drop_last(), k, v).push(es.last())
    } else if es.last().0 == k {
        es.drop_last().push((k, v))
    } else {
        es.push((k, v))
    }
}

/// The names of the entries ascend, so that none occurs twice.
pub open spec fn ascending<V>(es: Seq<(Seq<char>, V)>) -> bool {
    forall|i: int, j: int| 0 <= i < j < es.len() ==> text_lt((#[trigger] es[i]).0, (#[trigger] es[j]).0)
}

/// Setting an entry keeps the names in order.
pub proof fn with_entry_ascends<V>(es: Seq<(Seq<char>, V)>, k: Seq<char>, v: V)
    requires
        ascending(es),
    ensures
        ascending(with_entry(es, k, v)),
        forall|i: int|
            0 <= i < with_entry(es, k, v).len() ==> (#[trigger] with_entry(es, k, v)[i]).0 == k
                || exists|j: int| 0 <= j < es.len() && es[j].0 == with_entry(es, k, v)[i].0,
    decreases es.len(),
{
    let out = with_entry(es, k, v);
    if es.len() > 0 {
        let last = es.last();
        let front = es.drop_last();
        assert(ascending(front));
        text_lt_total(k, last.0);
        if text_lt(k, last.0) {
            with_entry_ascends(front, k, v);
            let inner = with_entry(front, k, v);
            assert forall|i: int, j: int| 0 <= i < j < out.len() implies text_lt(
                (#[trigger] out[i]).0,
                (#[trigger] out[j]).0,
            ) by {
                if j == inner.len() {
                    assert(out[i] == inner[i]);
                    if inner[i].0 != k {
                        let m = choose|m: int| 0 <= m < front.len() && front[m].0 == inner[i].0;
                        assert(es[m].0 == inner[i].0);
                        assert(text_lt(es[m].0, es[es.len() - 1].0));
                    }
                } else {
                    assert(out[i] == inner[i] && out[j] == inner[j]);
                }
            }
            assert forall|i: int| 0 <= i < out.len() implies (#[trigger] out[i]).0 == k || exists|
                j: int,
            |
                0 <= j < es.len() && es[j].0 == out[i].0 by {
                if i < inner.len() {
                    assert(out[i] == inner[i]);
                    if inner[i].0 != k {
                        let m = choose|m: int| 0 <= m < front.len() && front[m].0 == inner[i].0;
                        assert(es[m].0 == out[i].0);
                    }
                } else {
                    assert(es[es.len() - 1].0 == out[i].0);
                }
            }
        } else {
            assert forall|i: int, j: int| 0 <= i < j < out.len() implies text_lt(
                (#[trigger] out[i]).0,
                (#[trigger] out[j]).0,
            ) by {
                if last.0 == k {
                    assert(out[i].0 == es[i].0 && out[j].0 == es[j].0);
                } else if j == es.len() {
                    assert(out[i] == es[i]);
                    if i < es.len() - 1 {
                        text_lt_transitive(es[i].0, last.0, k);
                    }
                } else {
                    assert(out[i] == es[i] && out[j] == es[j]);
                }
            }
            assert forall|i: int| 0 <= i < out.len() implies (#[trigger] out[i]).0 == k || exists|
                j: int,
            |
                0 <= j < es.len() && es[j].0 == out[i].0 by {
                if i < es.len() {
                    assert(es[i].0 == out[i].0);
                }
            }
        }
    }
}

/// What was set under a name is read back under it, and every other name reads
/// as before.
pub proof fn lookup_with_entry<V>(es: Seq<(Seq<char>, V)>, k: Seq<char>, v: V, other: Seq<char>)
    requires
        ascending(es),
    ensures
        lookup(with_entry(es, k, v), k) == Some(v),
        other != k ==> lookup(with_entry(es, k, v), other) == lookup(es, other),
    decreases es.len(),
{
    let out = with_entry(es, k, v);
    if es.len() == 0 {
        assert(out.drop_last() =~= es);
    } else {
        let front = es.drop_last();
        assert(ascending(front));
        text_lt_irreflexive(k);
        if text_lt(k, es.last().0) {
            lookup_with_entry(front, k, v, other);
            assert(out.drop_last() =~= with_entry(front, k, v));
        } else if es.last().0 == k {
            assert(out.drop_last() =~= front);
        } else {
            assert(out.drop_last() =~= es);
        }
    }
}

/// The entries without the one under `k`.
pub open spec fn without_entry<V>(es: Seq<(Seq<char>, V)>, k: Seq<char>) -> Seq<(Seq<char>, V)>
    decreases es.len(),
{
    if es.len() == 0 {
        es
    } else if es.last().0 == k {
        es.drop_last()
    } else {
        without_entry(es.drop_last(), k).push(es.last())
    }
}

/// Taking an entry out keeps the names in order.
pub proof fn without_entry_ascends<V>(es: Seq<(Seq<char>, V)>, k: Seq<char>)
    requires
        ascending(es),
    ensures
        ascending(without_entry(es, k)),
        forall|i: int|
            0 <= i < without_entry(es, k).len() ==> exists|j: int|
                0 <= j < es.len() && es[j] == #[trigger] without_entry(es, k)[i],
    decreases es.len(),
{
    let out = without_entry(es, k);
    if es.len() > 0 {
        let front = es.drop_last();
        assert(ascending(front));
        without_entry_ascends(front, k);
        if es.last().0 == k {
            assert forall|i: int| 0 <= i < out.len() implies exists|j: int|
                0 <= j < es.len() && es[j] == #[trigger] out[i] by {
                assert(es[i] == out[i]);
            }
        } else {
            let inner = without_entry(front, k);
            assert forall|i: int| 0 <= i < out.len() implies exists|j: int|
                0 <= j < es.len() && es[j] == #[trigger] out[i] by {
                if i < inner.len() {
                    assert(out[i] == inner[i]);
                    let m = choose|m: int| 0 <= m < front.len() && front[m] == inner[i];
                    assert(es[m] == out[i]);
                } else {
                    assert(es[es.len() - 1] == out[i]);
                }
            }
            assert forall|i: int, j: int| 0 <= i < j < out.len() implies text_lt(
                (#[trigger] out[i]).0,
                (#[trigger] out[j]).0,
            ) by {
                assert(out[i] == inner[i]);
                if j < inner.len() {
                    assert(out[j] == inner[j]);
                } else {
                    let m = choose|m: int| 0 <= m < front.len() && front[m] == inner[i];
                    assert(es[m] == out[i]);
                    assert(text_lt(es[m].0, es[es.len() - 1].0));
                }
            }
        }
    }
}

/// An entry that is taken out and set again is set in its place.
pub proof fn with_entry_after_without<V>(es: Seq<(Seq<char>, V)>, k: Seq<char>, v: V)
    requires
        ascending(es),
    ensures
        with_entry(without_entry(es, k), k, v) == with_entry(es, k, v),
    decreases es.len(),
{
    if es.len() > 0 {
        let front = es.drop_last();
        assert(ascending(front));
        with_entry_after_without(front, k, v);
        text_lt_irreflexive(k);
        let w = without_entry(es, k);
        if es.last().0 == k {
            assert(w == front);
            if front.len() > 0 {
                assert(text_lt(es[front.len() - 1].0, es[es.len() - 1].0));
                if text_lt(k, front.last().0) {
                    text_lt_transitive(k, front.last().0, k);
                }
            } else {
                assert(with_entry(front, k, v) =~= front.push((k, v)));
            }
        } else {
            assert(w == without_entry(front, k).push(es.last()));
            assert(w.drop_last() =~= without_entry(front, k));
            if !text_lt(k, es.last().0) {
                text_lt_total(k, es.last().0);
                lemma_without_absent(front, k, es.last().0);
            }
        }
    }
}

/// A name after all names of a list is not in it.
proof fn lemma_without_absent<V>(es: Seq<(Seq<char>, V)>, k: Seq<char>, last: Seq<char>)
    requires
        forall|i: int| 0 <= i < es.len() ==> text_lt((#[trigger] es[i]).0, last),
        text_lt(last, k),
    ensures
        without_entry(es, k) == es,
    decreases es.len(),
{
    if es.len() > 0 {
        assert(text_lt(es[es.len() - 1].0, last));
        text_lt_transitive(es.last().0, last, k);
        text_lt_irreflexive(k);
        let front = es.drop_last();
        assert forall|i: int| 0 <= i < front.len() implies text_lt((#[trigger] front[i]).0, last) by {
            assert(text_lt(es[i].0, last));
        }
        lemma_without_absent(front, k, last);
        assert(front.push(es.last()) =~= es);
    }
}

/// The entries of `es`, under and behind those of `os`.
pub open spec fn overlay<V>(es: Seq<(Seq<char>, V)>, os: Seq<(Seq<char>, V)>) -> Seq<
    (Seq<char>, V),
>
    decreases os.len(),
{
    if os.len() == 0 {
        es
    } else {
        overlay(with_entry(es, os.last().0, os.last().1), os.drop_last())
    }
}

/// Under a name of both, the entry of `os` is read; under every other name the
/// entry of `es`.
pub proof fn lookup_overlay<V>(es: Seq<(Seq<char>, V)>, os: Seq<(Seq<char>, V)>, k: Seq<char>)
    requires
        ascending(es),
        ascending(os),
    ensures
        ascending(overlay(es, os)),
        lookup(overlay(es, os), k) == match lookup(os, k) {
            Some(v) => Some(v),
            None => lookup(es, k),
        },
    decreases os.len(),
{
    if os.len() > 0 {
        let front = os.drop_last();
        let (lk, lv) = os.last();
        let next = with_entry(es, lk, lv);
        assert(ascending(front));
        with_entry_ascends(es, lk, lv);
        lookup_overlay(next, front, k);
        lookup_with_entry(es, lk, lv, k);
        if k == lk {
            lemma_lookup_absent(front, k);
        }
    }
}

/// A name after all names of a list has no entry in it.
proof fn lemma_lookup_absent<V>(es: Seq<(Seq<char>, V)>, k: Seq<char>)
    requires
        forall|i: int| 0 <= i < es.len() ==> text_lt((#[trigger] es[i]).0, k),
    ensures
        lookup(es, k) is None,
    decreases es.len(),
{
    if es.len() > 0 {
        assert(text_lt(es[es.len() - 1].0, k));
        text_lt_irreflexive(k);
        let front = es.drop_last();
        assert forall|i: int| 0 <= i < front.len() implies text_lt((#[trigger] front[i]).0, k) by {
            assert(text_lt(es[i].0, k));
        }
        lemma_lookup_absent(front, k);
    }
}

/// The entries with each value as `f` gives it.
pub open spec fn entries_map<V, W>(es: Seq<(Seq<char>, V)>, f: spec_fn(V) -> W) -> Seq<
    (Seq<char>, W),
> {
    Seq::new(es.len(), |i: int| (es[i].0, f(es[i].1)))
}

/// The value of an optional value as `f` gives it.
pub open spec fn opt_map<V, W>(o: Option<V>, f: spec_fn(V) -> W) -> Option<W> {
    match o {
        Some(v) => Some(f(v)),
        None => None,
    }
}

pub broadcast proof fn entries_map_empty<V, W>(f: spec_fn(V) -> W)
    ensures
        #[trigger] entries_map(Seq::<(Seq<char>, V)>::empty(), f) == Seq::<(Seq<char>, W)>::empty(),
{
    assert(entries_map(Seq::<(Seq<char>, V)>::empty(), f) =~= Seq::<(Seq<char>, W)>::empty());
}

pub broadcast proof fn entries_map_lookup<V, W>(
    es: Seq<(Seq<char>, V)>,
    f: spec_fn(V) -> W,
    k: Seq<char>,
)
    ensures
        #[trigger] lookup(entries_map(es, f), k) == opt_map(lookup(es, k), f),
    decreases es.len(),
{
    if es.len() > 0 {
        entries_map_lookup(es.drop_last(), f, k);
        assert(entries_map(es, f).drop_last() =~= entries_map(es.drop_last(), f));
    }
}

pub broadcast proof fn entries_map_with_entry<V, W>(
    es: Seq<(Seq<char>, V)>,
    f: spec_fn(V) -> W,
    k: Seq<char>,
    v: V,
)
    ensures
        #[trigger] entries_map(with_entry(es, k, v), f) == with_entry(entries_map(es, f), k, f(v)),
    decreases es.len(),
{
    let m = entries_map(es, f);
    let left = entries_map(with_entry(es, k, v), f);
    if es.len() == 0 {
        assert(left =~= with_entry(m, k, f(v)));
    } else {
        entries_map_with_entry(es.drop_last(), f, k, v);
        assert(m.drop_last() =~= entries_map(es.drop_last(), f));
        assert(left =~= with_entry(m, k, f(v)));
    }
}

pub broadcast proof fn entries_map_overlay<V, W>(
    es: Seq<(Seq<char>, V)>,
    os: Seq<(Seq<char>, V)>,
    f: spec_fn(V) -> W,
)
    ensures
        #[trigger] entries_map(overlay(es, os), f) == overlay(
            entries_map(es, f),
            entries_map(os, f),
        ),
    decreases os.len(),
{
    if os.len() > 0 {
        let (k, v) = os.last();
        entries_map_overlay(with_entry(es, k, v), os.drop_last(), f);
        entries_map_with_entry(es, f, k, v);
        assert(entries_map(os, f).drop_last() =~= entries_map(os.drop_last(), f));
    }
}

pub broadcast group group_entries {
    entries_map_empty,
    entries_map_lookup,
    entries_map_with_entry,
    entries_map_overlay,
}

/// A map from names to values. Its entries stand in the order of the names.
#[derive(Debug, PartialEq, Eq)]
pub struct NameMap<V> {
    entries: Vec<(String, V)>,
}

/// The entries of a list of pairs, with each name as text.
pub closed spec fn entries_of<V>(v: Seq<(String, V)>) -> Seq<(Seq<char>, V)> {
    Seq::new(v.len(), |i: int| (v[i].0@, v[i].1))
}

impl<V> View for NameMap<V> {
    type V = Seq<(Seq<char>, V)>;

    closed spec fn view(&self) -> Seq<(Seq<char>, V)> {
        entries_of(self.entries@)
    }
}

impl<V> NameMap<V> {
    #[verifier::type_invariant]
    spec fn inv(self) -> bool {
        ascending(self@)
    }

    /// The empty map.
    pub fn new() -> (r: Self)
        ensures
            r@ == Seq::<(Seq<char>, V)>::empty(),
            ascending(r@),
    {
        let r = NameMap { entries: Vec::new() };
        proof {
            assert(r@ =~= Seq::<(Seq<char>, V)>::empty());
        }
        r
    }

    /// The number of entries, whose names ascend.
    pub fn len(&self) -> (r: usize)
        ensures
            r == self@.len(),
            ascending(self@),
    {
        proof {
            use_type_invariant(self);
        }
        self.entries.len()
    }

    /// The name of the entry at position `i`.
    pub fn key(&self, i: usize) -> (r: &String)
        requires
            i < self@.len(),
        ensures
            r@ == self@[i as int].0,
    {
        &self.entries[i].0
    }

    /// The value of the entry at position `i`.
    pub fn value(&self, i: usize) -> (r: &V)
        requires
            i < self@.len(),
        ensures
            *r == self@[i as int].1,
    {
        &self.entries[i].1
    }

    /// The value under `k`.
    pub fn get(&self, k: &str) -> (r: Option<&V>)
        ensures
            match r {
                Some(v) => lookup(self@, k@) == Some(*v),
                None => lookup(self@, k@) is None,
            },
    {
        let mut i: usize = self.entries.len();
        proof {
            assert(self@.take(self@.len() as int) =~= self@);
        }
        while i > 0
            invariant
                i <= self.entries.len(),
                lookup(self@, k@) == lookup(self@.take(i as int), k@),
            decreases i,
        {
            proof {
                assert(self@.take(i as int).drop_last() =~= self@.take(i - 1));
            }
            i = i - 1;
            if same(self.entries[i].0.as_str(), k) {
                return Some(&self.entries[i].1);
            }
        }
        None
    }

    /// Whether there is a value under `k`.
    pub fn has(&self, k: &str) -> (r: bool)
        ensures
            r == lookup(self@, k@) is Some,
    {
        match self.get(k) {
            Some(_) => true,
            None => false,
        }
    }

    /// Sets the value under `k`.
    pub fn insert(&mut self, k: String, v: V)
        ensures
            final(self)@ == with_entry(old(self)@, k@, v),
            ascending(old(self)@),
            ascending(final(self)@),
    {
        proof {
            use_type_invariant(&*self);
            with_entry_ascends(self@, k@, v);
        }
        let ghost es = self@;
        let mut v0: Vec<(String, V)> = Vec::new();
        std::mem::swap(&mut v0, &mut self.entries);
        let ghost key = k@;
        let mut i: usize = v0.len();
        proof {
            assert(es.take(es.len() as int) =~= es);
            assert(with_entry(es, key, v) =~= with_entry(es.take(i as int), key, v) + es.subrange(
                i as int,
                es.len() as int,
            ));
        }
        while i > 0 && before(k.as_str(), v0[i - 1].0.as_str())
            invariant
                i <= v0.len(),
                es == entries_of(v0@),
                key == k@,
                with_entry(es, key, v) == with_entry(es.take(i as int), key, v) + es.subrange(
                    i as int,
                    es.len() as int,
                ),
            decreases i,
        {
            proof {
                assert(es.take(i as int).drop_last() =~= es.take(i - 1));
                assert(es[i - 1].0 == v0@[i - 1].0@);
                assert(with_entry(es.take(i - 1), key, v).push(es[i - 1]) + es.subrange(
                    i as int,
                    es.len() as int,
                ) =~= with_entry(es.take(i - 1), key, v) + es.subrange(i - 1, es.len() as int));
            }
            i = i - 1;
        }
        proof {
            if i > 0 {
                assert(es.take(i as int).drop_last() =~= es.take(i - 1));
                assert(es[i - 1].0 == v0@[i - 1].0@);
            }
        }
        if i > 0 && same(k.as_str(), v0[i - 1].0.as_str()) {
            let ghost w = v0@;
            let _ = v0.remove(i - 1);
            v0.insert(i - 1, (k, v));
            proof {
                assert(entries_of(v0@) =~= with_entry(es, key, v));
            }
        } else {
            v0.insert(i, (k, v));
            proof {
                assert(entries_of(v0@) =~= with_entry(es, key, v));
            }
        }
        self.entries = v0;
    }

    /// Takes out the value under `k`.
    pub fn remove(&mut self, k: &str) -> (r: Option<V>)
        ensures
            final(self)@ == without_entry(old(self)@, k@),
            r == lookup(old(self)@, k@),
            ascending(old(self)@),
            ascending(final(self)@),
    {
        proof {
            use_type_invariant(&*self);
            without_entry_ascends(self@, k@);
        }
        let ghost es = self@;
        let mut v0: Vec<(String, V)> = Vec::new();
        std::mem::swap(&mut v0, &mut self.entries);
        let mut i: usize = v0.len();
        proof {
            assert(es.take(es.len() as int) =~= es);
            assert(without_entry(es, k@) =~= without_entry(es.take(i as int), k@) + es.subrange(
                i as int,
                es.len() as int,
            ));
        }
        while i > 0 && !same(v0[i - 1].0.as_str(), k)
            invariant
                i <= v0.len(),
                es == entries_of(v0@),
                lookup(es, k@) == lookup(es.take(i as int), k@),
                without_entry(es, k@) == without_entry(es.take(i as int), k@) + es.subrange(
                    i as int,
                    es.len() as int,
                ),
            decreases i,
        {
            proof {
                assert(es.take(i as int).drop_last() =~= es.take(i - 1));
                assert(es[i - 1].0 == v0@[i - 1].0@);
                assert(without_entry(es.take(i - 1), k@).push(es[i - 1]) + es.subrange(
                    i as int,
                    es.len() as int,
                ) =~= without_entry(es.take(i - 1), k@) + es.subrange(i - 1, es.len() as int));
            }
            i = i - 1;
        }
        if i > 0 {
            proof {
                assert(es.take(i as int).drop_last() =~= es.take(i - 1));
                assert(es[i - 1].0 == v0@[i - 1].0@);
            }
            let e = v0.remove(i - 1);
            proof {
                assert(entries_of(v0@) =~= without_entry(es, k@));
            }
            self.entries = v0;
            Some(e.1)
        } else {
            proof {
                assert(entries_of(v0@) =~= without_entry(es, k@));
            }
            self.entries = v0;
            None
        }
    }

    /// Takes out the last entry.
    pub fn pop(&mut self) -> (r: Option<(String, V)>)
        ensures
            match r {
                Some(e) => old(self)@.len() > 0 && old(self)@.last() == (e.0@, e.1) && final(self)@
                    == old(self)@.drop_last(),
                None => old(self)@.len() == 0 && final(self)@ == old(self)@,
            },
    {
        proof {
            use_type_invariant(&*self);
        }
        let ghost es = self@;
        let mut v0: Vec<(String, V)> = Vec::new();
        std::mem::swap(&mut v0, &mut self.entries);
        let r = v0.pop();
        proof {
            if es.len() > 0 {
                assert(entries_of(v0@) =~= es.drop_last());
            } else {
                assert(entries_of(v0@) =~= es);
            }
        }
        self.entries = v0;
        r
    }

    /// Sets the entries of another map.
    pub fn absorb(&mut self, other: NameMap<V>)
        ensures
            final(self)@ == overlay(old(self)@, other@),
    {
        let ghost start = self@;
        let mut rest = other;
        loop
            invariant
                overlay(self@, rest@) == overlay(start, other@),
            ensures
                self@ == overlay(start, other@),
            decreases rest@.len(),
        {
            match rest.pop() {
                Some((k, v)) => {
                    self.insert(k, v);
                },
                None => {
                    break ;
                },
            }
        }
    }
}

} // verus!
