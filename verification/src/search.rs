//! Searching, stripping and replacing in text.
use vstd::prelude::*;

use crate::text::{chars_of, slice_text};

verus! {

/// `t` stands in `s` at position `i`.
pub open spec fn matches_at(s: Seq<char>, t: Seq<char>, i: int) -> bool {
    0 <= i && i + t.len() <= s.len() && s.subrange(i, i + t.len()) == t
}

/// `t` stands somewhere in `s`.
pub open spec fn contains_text(s: Seq<char>, t: Seq<char>) -> bool {
    exists|i: int| matches_at(s, t, i)
}

/// The first position from `from` on at which `t` stands in `s`.
pub open spec fn first_at(s: Seq<char>, t: Seq<char>, from: int) -> Option<int>
    decreases s.len() - from + 1,
{
    if from < 0 || from + t.len() > s.len() {
        None
    } else if matches_at(s, t, from) {
        Some(from)
    } else {
        first_at(s, t, from + 1)
    }
}

/// The first position from `from` on that holds `c`.
pub open spec fn char_at_or_after(s: Seq<char>, c: char, from: int) -> Option<int>
    decreases s.len() - from,
{
    if from < 0 || from >= s.len() {
        None
    } else if s[from] == c {
        Some(from)
    } else {
        char_at_or_after(s, c, from + 1)
    }
}

pub proof fn lemma_first_at(s: Seq<char>, t: Seq<char>, from: int)
    requires
        from >= 0,
    ensures
        match first_at(s, t, from) {
            Some(i) => from <= i && matches_at(s, t, i) && (forall|k: int|
                from <= k < i ==> !#[trigger] matches_at(s, t, k)),
            None => forall|k: int| from <= k ==> !#[trigger] matches_at(s, t, k),
        },
    decreases s.len() - from + 1,
{
    if from + t.len() > s.len() {
    } else if matches_at(s, t, from) {
    } else {
        lemma_first_at(s, t, from + 1);
    }
}

pub proof fn lemma_char_at_or_after(s: Seq<char>, c: char, from: int)
    requires
        from >= 0,
    ensures
        match char_at_or_after(s, c, from) {
            Some(i) => from <= i < s.len() && s[i] == c && (forall|k: int|
                from <= k < i ==> #[trigger] s[k] != c),
            None => forall|k: int| from <= k < s.len() ==> #[trigger] s[k] != c,
        },
    decreases s.len() - from,
{
    if from < s.len() && s[from] != c {
        lemma_char_at_or_after(s, c, from + 1);
    }
}

pub open spec fn starts_with_text(s: Seq<char>, t: Seq<char>) -> bool {
    matches_at(s, t, 0)
}

pub open spec fn ends_with_text(s: Seq<char>, t: Seq<char>) -> bool {
    matches_at(s, t, s.len() - t.len())
}

/// `s` without the prefix `t`, where it has that prefix.
pub open spec fn without_prefix(s: Seq<char>, t: Seq<char>) -> Option<Seq<char>> {
    if starts_with_text(s, t) {
        Some(s.subrange(t.len() as int, s.len() as int))
    } else {
        None
    }
}

/// `s` without the suffix `t`, where it has that suffix.
pub open spec fn without_suffix(s: Seq<char>, t: Seq<char>) -> Option<Seq<char>> {
    if ends_with_text(s, t) {
        Some(s.subrange(0, s.len() - t.len()))
    } else {
        None
    }
}

/// The view of an optional string.
pub open spec fn opt_text(o: Option<String>) -> Option<Seq<char>> {
    match o {
        Some(s) => Some(s@),
        None => None,
    }
}

/// Whether `t` stands in `v` at position `i`.
pub fn stands_at(v: &Vec<char>, t: &Vec<char>, i: usize) -> (r: bool)
    ensures
        r == matches_at(v@, t@, i as int),
{
    if i > v.len() || t.len() > v.len() - i {
        return false;
    }
    let mut k: usize = 0;
    while k < t.len()
        invariant
            k <= t.len(),
            i + t.len() <= v.len(),
            forall|j: int| 0 <= j < k ==> v@[i + j] == #[trigger] t@[j],
        decreases t.len() - k,
    {
        if v[i + k] != t[k] {
            proof {
                assert(v@.subrange(i as int, i + t.len())[k as int] == v@[i + k]);
            }
            return false;
        }
        k = k + 1;
    }
    proof {
        assert(v@.subrange(i as int, i + t.len()) =~= t@);
    }
    true
}

/// The first position from `from` on at which `t` stands in `v`.
pub fn find_from(v: &Vec<char>, t: &Vec<char>, from: usize) -> (r: Option<usize>)
    ensures
        match r {
            Some(i) => first_at(v@, t@, from as int) == Some(i as int) && i + t.len() <= v.len(),
            None => first_at(v@, t@, from as int) is None,
        },
{
    let mut i: usize = from;
    while i <= v.len() && t.len() <= v.len() - i
        invariant
            from <= i,
            first_at(v@, t@, from as int) == first_at(v@, t@, i as int),
        decreases v.len() + 1 - i,
    {
        if stands_at(v, t, i) {
            return Some(i);
        }
        if i == v.len() {
            proof {
                assert(v@.subrange(i as int, i + t.len()) =~= t@);
            }
            return None;
        }
        i = i + 1;
    }
    None
}

/// The first position from `from` on that holds `c`.
pub fn find_char_from(v: &Vec<char>, c: char, from: usize) -> (r: Option<usize>)
    ensures
        match r {
            Some(i) => char_at_or_after(v@, c, from as int) == Some(i as int) && from <= i
                < v.len() && v@[i as int] == c,
            None => char_at_or_after(v@, c, from as int) is None,
        },
{
    let mut i: usize = from;
    while i < v.len()
        invariant
            from <= i,
            char_at_or_after(v@, c, from as int) == char_at_or_after(v@, c, i as int),
        decreases v.len() - i,
    {
        if v[i] == c {
            return Some(i);
        }
        i = i + 1;
    }
    None
}

/// Whether `t` stands somewhere in `s`.
pub fn contains(s: &str, t: &str) -> (r: bool)
    ensures
        r == contains_text(s@, t@),
{
    let v = chars_of(s);
    let w = chars_of(t);
    proof {
        lemma_first_at(s@, t@, 0);
    }
    match find_from(&v, &w, 0) {
        Some(_) => true,
        None => false,
    }
}

pub fn starts_with(s: &str, t: &str) -> (r: bool)
    ensures
        r == starts_with_text(s@, t@),
{
    let v = chars_of(s);
    let w = chars_of(t);
    stands_at(&v, &w, 0)
}

pub fn ends_with(s: &str, t: &str) -> (r: bool)
    ensures
        r == ends_with_text(s@, t@),
{
    let v = chars_of(s);
    let w = chars_of(t);
    if w.len() > v.len() {
        return false;
    }
    stands_at(&v, &w, v.len() - w.len())
}

pub fn strip_prefix(s: &str, t: &str) -> (r: Option<String>)
    ensures
        opt_text(r) == without_prefix(s@, t@),
{
    let v = chars_of(s);
    let w = chars_of(t);
    if stands_at(&v, &w, 0) {
        Some(slice_text(&v, w.len(), v.len()))
    } else {
        None
    }
}

pub fn strip_suffix(s: &str, t: &str) -> (r: Option<String>)
    ensures
        opt_text(r) == without_suffix(s@, t@),
{
    let v = chars_of(s);
    let w = chars_of(t);
    if w.len() <= v.len() && stands_at(&v, &w, v.len() - w.len()) {
        Some(slice_text(&v, 0, v.len() - w.len()))
    } else {
        None
    }
}

/// `s` from position `pos` on, with every occurrence of `t` that does not
/// overlap an earlier one replaced by `u`.
pub open spec fn replaced_from(s: Seq<char>, t: Seq<char>, u: Seq<char>, pos: int) -> Seq<char>
    decreases s.len() - pos,
{
    if t.len() == 0 || pos < 0 || pos > s.len() {
        Seq::empty()
    } else {
        match first_at(s, t, pos) {
            Some(i) => if pos <= i && i + t.len() <= s.len() {
                s.subrange(pos, i) + u + replaced_from(s, t, u, i + t.len())
            } else {
                Seq::empty()
            },
            None => s.subrange(pos, s.len() as int),
        }
    }
}

/// `s` with every occurrence of `t` replaced by `u`, leftmost first.
pub open spec fn replaced(s: Seq<char>, t: Seq<char>, u: Seq<char>) -> Seq<char> {
    replaced_from(s, t, u, 0)
}

/// Replaces every occurrence of `t` in `s` by `u`, leftmost first.
pub fn replace(s: &str, t: &str, u: &str) -> (r: String)
    requires
        t@.len() > 0,
    ensures
        r@ == replaced(s@, t@, u@),
{
    broadcast use crate::text::group_text;

    let v = chars_of(s);
    let w = chars_of(t);
    let mut out = String::new();
    let mut pos: usize = 0;
    loop
        invariant_except_break
            pos <= v.len(),
            out@ + replaced_from(s@, t@, u@, pos as int) == replaced(s@, t@, u@),
        invariant
            v@ == s@,
            w@ == t@,
            t@.len() > 0,
        ensures
            out@ == replaced(s@, t@, u@),
        decreases v.len() - pos,
    {
        proof {
            lemma_first_at(s@, t@, pos as int);
        }
        match find_from(&v, &w, pos) {
            Some(i) => {
                let head = slice_text(&v, pos, i);
                out.push_str(&head);
                out.push_str(u);
                pos = i + w.len();
            },
            None => {
                let tail = slice_text(&v, pos, v.len());
                out.push_str(&tail);
                break ;
            },
        }
    }
    out
}

/// `s` without the occurrences of `c`.
pub open spec fn without_char(s: Seq<char>, c: char) -> Seq<char>
    decreases s.len(),
{
    if s.len() == 0 {
        Seq::empty()
    } else if s.last() == c {
        without_char(s.drop_last(), c)
    } else {
        without_char(s.drop_last(), c).push(s.last())
    }
}

/// Drops every occurrence of `c`.
pub fn drop_char(s: &str, c: char) -> (r: String)
    ensures
        r@ == without_char(s@, c),
{
    let v = chars_of(s);
    let mut out = String::new();
    for i in 0..v.len()
        invariant
            v@ == s@,
            out@ == without_char(s@.take(i as int), c),
    {
        proof {
            assert(s@.take(i + 1).drop_last() =~= s@.take(i as int));
        }
        if v[i] != c {
            out.push(v[i]);
        }
    }
    proof {
        assert(s@.take(s@.len() as int) =~= s@);
    }
    out
}

} // verus!
