//! Patterns that several renderers use.
use vstd::prelude::*;

use crate::outside::{
    escape, find_matches, match_view, matches_view, regex_escaped, regex_matches, regex_replaced,
    replace_matches, Match,
};
use crate::text::{chars_of, has_name, slice_text, texts};

verus! {

broadcast use {crate::text::group_text, crate::text::texts_index, crate::text::texts_len};

/// The pattern that matches `word` as a whole word.
pub open spec fn word_pattern(word: Seq<char>) -> Seq<char> {
    "\\b"@ + regex_escaped(word) + "\\b"@
}

/// The text with every match of the pattern replaced; as it is where the
/// pattern is refused.
pub open spec fn pattern_replaced(pattern: Seq<char>, text: Seq<char>, by: Seq<char>) -> Seq<char> {
    match regex_replaced(pattern, text, by) {
        Some(t) => t,
        None => text,
    }
}

/// The text with `word` replaced wherever it stands as a whole word.
pub open spec fn word_replaced(text: Seq<char>, word: Seq<char>, by: Seq<char>) -> Seq<char> {
    pattern_replaced(word_pattern(word), text, by)
}

/// Replaces every match of `pattern` in `text`.
pub fn replace_pattern(pattern: &str, text: &str, by: &str) -> (r: String)
    ensures
        r@ == pattern_replaced(pattern@, text@, by@),
{
    match replace_matches(pattern, text, by) {
        Some(t) => t,
        None => text.to_owned(),
    }
}

/// Replaces `word` in `text` wherever it stands as a whole word.
pub fn replace_word(text: &str, word: &str, by: &str) -> (r: String)
    ensures
        r@ == word_replaced(text@, word@, by@),
{
    let pattern = whole_word(word);
    replace_pattern(&pattern, text, by)
}

/// The pattern of a word as a whole.
fn whole_word(word: &str) -> (r: String)
    ensures
        r@ == word_pattern(word@),
{
    let escaped = escape(word);
    let mut pattern = "\\b".to_owned();
    pattern.push_str(&escaped);
    pattern.push_str("\\b");
    pattern
}

/// The matches of a pattern; none where the pattern is refused.
pub open spec fn pattern_matches(pattern: Seq<char>, text: Seq<char>) -> Seq<
    (Seq<Seq<char>>, Seq<char>),
> {
    match regex_matches(pattern, text) {
        Some(ms) => ms,
        None => Seq::empty(),
    }
}

/// The matches of `pattern` in `text`.
pub fn all_matches(pattern: &str, text: &str) -> (r: Vec<Match>)
    ensures
        matches_view(r@) == pattern_matches(pattern@, text@),
{
    match find_matches(pattern, text) {
        Some(ms) => ms,
        None => {
            let none: Vec<Match> = Vec::new();
            proof {
                assert(matches_view(none@) =~= Seq::<(Seq<Seq<char>>, Seq<char>)>::empty());
            }
            none
        },
    }
}

/// The text of a group; empty where there is no such group.
pub open spec fn group_text_of(m: (Seq<Seq<char>>, Seq<char>), k: int) -> Seq<char> {
    if 0 <= k < m.0.len() {
        m.0[k]
    } else {
        Seq::empty()
    }
}

/// The text of a group.
pub fn group(m: &Match, k: usize) -> (r: String)
    ensures
        r@ == group_text_of(match_view(*m), k as int),
{
    if k < m.groups.len() {
        m.groups[k].clone()
    } else {
        String::new()
    }
}

/// Where the match starts: what precedes the match and what follows it.
pub open spec fn match_start(text: Seq<char>, m: (Seq<Seq<char>>, Seq<char>)) -> int {
    text.len() - m.1.len() - group_text_of(m, 0).len()
}

/// The text up to the end of the first `n` matches, with `prefix` before each
/// match that does not stand directly behind a dot; and where that end is.
pub open spec fn prefixed_matches_upto(
    text: Seq<char>,
    ms: Seq<(Seq<Seq<char>>, Seq<char>)>,
    prefix: Seq<char>,
    n: nat,
) -> (Seq<char>, int)
    decreases n,
{
    if n == 0 {
        (Seq::empty(), 0)
    } else {
        let (out, pos) = prefixed_matches_upto(text, ms, prefix, (n - 1) as nat);
        let start = match_start(text, ms[n - 1]);
        let end = text.len() - ms[n - 1].1.len();
        if pos <= start <= end <= text.len() {
            (
                out + text.subrange(pos, start) + (if start > 0 && text[start - 1] == '.' {
                    Seq::empty()
                } else {
                    prefix
                }) + text.subrange(start, end),
                end,
            )
        } else {
            (out, pos)
        }
    }
}

/// The text with `prefix` before each match that does not stand directly behind
/// a dot.
pub open spec fn prefixed_matches(
    text: Seq<char>,
    ms: Seq<(Seq<Seq<char>>, Seq<char>)>,
    prefix: Seq<char>,
) -> Seq<char> {
    let (out, pos) = prefixed_matches_upto(text, ms, prefix, ms.len());
    out + text.subrange(pos, text.len() as int)
}

/// Puts a prefix before each match that does not stand directly behind a dot,
/// when the matches in the text are known.
pub fn prefix_matches(text: &str, ms: &Vec<Match>, prefix: &str) -> (r: String)
    ensures
        r@ == prefixed_matches(text@, matches_view(ms@), prefix@),
{
    let v = chars_of(text);
    let ghost all = matches_view(ms@);
    let mut out = String::new();
    let mut pos: usize = 0;
    for i in 0..ms.len()
        invariant
            v@ == text@,
            all == matches_view(ms@),
            pos <= v.len(),
            (out@, pos as int) == prefixed_matches_upto(text@, all, prefix@, i as nat),
    {
        let rest: usize = chars_of(&ms[i].rest).len();
        let len: usize = chars_of(&group(&ms[i], 0)).len();
        if rest <= v.len() && len <= v.len() - rest && pos <= v.len() - rest - len {
            let end: usize = v.len() - rest;
            let start: usize = end - len;
            let before = slice_text(&v, pos, start);
            out.push_str(&before);
            if !(start > 0 && v[start - 1] == '.') {
                out.push_str(prefix);
            }
            let word = slice_text(&v, start, end);
            out.push_str(&word);
            pos = end;
        }
    }
    let tail = slice_text(&v, pos, v.len());
    out.push_str(&tail);
    out
}

/// The text with each of the first `n` fields prefixed by `s.`, one after the
/// other.
pub open spec fn prefixed_upto(expr: Seq<char>, fields: Seq<Seq<char>>, n: nat) -> Seq<char>
    decreases n,
{
    if n == 0 {
        expr
    } else {
        let before = prefixed_upto(expr, fields, (n - 1) as nat);
        prefixed_matches(before, pattern_matches(word_pattern(fields[n - 1]), before), "s."@)
    }
}

/// The text with every field that stands in it as a whole word prefixed by
/// `s.`, unless it stands behind a dot already.
pub open spec fn prefixed(expr: Seq<char>, fields: Seq<Seq<char>>) -> Seq<char> {
    prefixed_upto(expr, fields, fields.len())
}

/// Prefixes every field that stands in `expr` as a whole word by `s.`. One that
/// has a prefix already keeps it.
pub fn prefix_state_fields(expr: &str, fields: &Vec<String>) -> (r: String)
    ensures
        r@ == prefixed(expr@, texts(fields@)),
{
    let mut out = expr.to_owned();
    for i in 0..fields.len()
        invariant
            out@ == prefixed_upto(expr@, texts(fields@), i as nat),
    {
        let pattern = whole_word(&fields[i]);
        let ms = all_matches(&pattern, &out);
        out = prefix_matches(&out, &ms, "s.");
    }
    out
}

/// Whether one of the texts is `t`.
pub open spec fn has_text(v: Seq<Seq<char>>, t: Seq<char>) -> bool {
    exists|i: int| 0 <= i < v.len() && #[trigger] v[i] == t
}

/// Whether one of the strings reads `t`.
pub fn contains_string(v: &Vec<String>, t: &str) -> (r: bool)
    ensures
        r == has_text(texts(v@), t@),
{
    let r = has_name(v, t);
    proof {
        if r {
            let i = choose|i: int| 0 <= i < v@.len() && (#[trigger] v@[i])@ == t@;
            assert(texts(v@)[i] == t@);
        } else {
            assert forall|i: int| 0 <= i < texts(v@).len() implies #[trigger] texts(v@)[i]
                != t@ by {
                assert(v@[i]@ != t@);
            }
        }
    }
    r
}

/// The first groups of the first `n` matches, each once, in the order in which
/// they come up.
pub open spec fn distinct_groups(ms: Seq<(Seq<Seq<char>>, Seq<char>)>, n: nat) -> Seq<Seq<char>>
    decreases n,
{
    if n == 0 {
        Seq::empty()
    } else {
        let before = distinct_groups(ms, (n - 1) as nat);
        let g = group_text_of(ms[n - 1], 1);
        if has_text(before, g) {
            before
        } else {
            before.push(g)
        }
    }
}

/// The first groups of the matches, each once.
pub fn distinct_first_groups(ms: &Vec<Match>) -> (r: Vec<String>)
    ensures
        texts(r@) == distinct_groups(matches_view(ms@), ms@.len()),
{
    let mut out: Vec<String> = Vec::new();
    for i in 0..ms.len()
        invariant
            texts(out@) == distinct_groups(matches_view(ms@), i as nat),
    {
        let g = group(&ms[i], 1);
        if !contains_string(&out, &g) {
            out.push(g);
        }
    }
    out
}

/// Each first group comes up once, and every one comes up.
pub proof fn first_groups_come_up_once(ms: Seq<(Seq<Seq<char>>, Seq<char>)>, n: nat)
    ensures
        forall|i: int, j: int|
            0 <= i < j < distinct_groups(ms, n).len() ==> #[trigger] distinct_groups(ms, n)[i]
                != #[trigger] distinct_groups(ms, n)[j],
        forall|k: int|
            0 <= k < n ==> has_text(distinct_groups(ms, n), #[trigger] group_text_of(ms[k], 1)),
    decreases n,
{
    if n > 0 {
        first_groups_come_up_once(ms, (n - 1) as nat);
        let before = distinct_groups(ms, (n - 1) as nat);
        let all = distinct_groups(ms, n);
        let g = group_text_of(ms[n - 1], 1);
        assert forall|i: int, j: int| 0 <= i < j < all.len() implies #[trigger] all[i]
            != #[trigger] all[j] by {
            if j == before.len() {
                assert(before[i] != g);
            }
        }
        assert forall|k: int| 0 <= k < n implies has_text(
            all,
            #[trigger] group_text_of(ms[k], 1),
        ) by {
            if k < n - 1 {
                let t = group_text_of(ms[k], 1);
                assert(has_text(before, t));
                let i = choose|i: int| 0 <= i < before.len() && #[trigger] before[i] == t;
                assert(all[i] == t);
            } else if !has_text(before, g) {
                assert(all[before.len() as int] == g);
            }
        }
    }
}

/// A field of the state, before or after a step.
pub const STATE_FIELD: &'static str = "\\bs'?\\.([A-Za-z_][A-Za-z0-9_]*)";

/// The fields of the state that a postcondition speaks of, each once, in the
/// order in which they come up.
pub open spec fn abstract_fields(expr: Seq<char>) -> Seq<Seq<char>> {
    let ms = pattern_matches(STATE_FIELD@, expr);
    distinct_groups(ms, ms.len())
}

/// The fields of the state that a postcondition speaks of.
pub fn scan_abstract_fields(expr: &str) -> (r: Vec<String>)
    ensures
        texts(r@) == abstract_fields(expr@),
{
    let ms = all_matches(STATE_FIELD, expr);
    distinct_first_groups(&ms)
}

} // verus!
