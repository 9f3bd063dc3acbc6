//! How texts are cut up and put together.
use vstd::prelude::*;

use crate::search::{
    char_at_or_after, contains_text, first_at, lemma_char_at_or_after, lemma_first_at, matches_at,
    replaced, replaced_from, starts_with_text, without_char,
};
use crate::split::{
    last_char_before, lemma_trim_start_len, lemma_word_len, lines_from, lines_text,
    rsplit_once_text, split_once_text, trim_end_of, trim_start_of, trim_start_text, word_len,
    words_text,
};
use crate::text::is_space;

verus! {

/// A text that is split at a character is its halves with the character between
/// them: the first that there is, or the last. It is not split where it does not
/// hold the character.
pub proof fn halves_make_up_the_text(s: Seq<char>, c: char)
    ensures
        match split_once_text(s, c) {
            Some((a, b)) => s == a + seq![c] + b && !a.contains(c),
            None => !s.contains(c),
        },
        match rsplit_once_text(s, c) {
            Some((a, b)) => s == a + seq![c] + b && !b.contains(c),
            None => !s.contains(c),
        },
{
    lemma_char_at_or_after(s, c, 0);
    lemma_last(s, c, s.len() as int);
    if let Some(i) = char_at_or_after(s, c, 0) {
        let a = s.subrange(0, i);
        let b = s.subrange(i + 1, s.len() as int);
        assert(s =~= a + seq![c] + b);
        if a.contains(c) {
            let k = choose|k: int| 0 <= k < a.len() && a[k] == c;
            assert(s[k] == c);
        }
    }
    if let Some(i) = last_char_before(s, c, s.len() as int) {
        let a = s.subrange(0, i);
        let b = s.subrange(i + 1, s.len() as int);
        assert(s =~= a + seq![c] + b);
        if b.contains(c) {
            let k = choose|k: int| 0 <= k < b.len() && b[k] == c;
            assert(s[i + 1 + k] == c);
        }
    }
}

proof fn lemma_last(s: Seq<char>, c: char, to: int)
    requires
        0 <= to <= s.len(),
    ensures
        match last_char_before(s, c, to) {
            Some(i) => 0 <= i < to && s[i] == c && forall|k: int| i < k < to ==> s[k] != c,
            None => forall|k: int| 0 <= k < to ==> s[k] != c,
        },
    decreases to,
{
    if to > 0 && s[to - 1] != c {
        lemma_last(s, c, to - 1);
    }
}

proof fn lemma_lines(s: Seq<char>, pos: int)
    requires
        0 <= pos,
    ensures
        forall|k: int|
            0 <= k < lines_from(s, pos).len() ==> !(#[trigger] lines_from(s, pos)[k]).contains('\n'),
    decreases s.len() - pos,
{
    if pos < s.len() {
        lemma_char_at_or_after(s, '\n', pos);
        let all = lines_from(s, pos);
        match char_at_or_after(s, '\n', pos) {
            Some(i) => {
                lemma_lines(s, i + 1);
                let rest = lines_from(s, i + 1);
                let own = crate::split::without_cr(s.subrange(pos, i));
                assert forall|k: int| 0 <= k < all.len() implies !(#[trigger] all[k]).contains(
                    '\n',
                ) by {
                    if k == 0 {
                        if own.contains('\n') {
                            let j = choose|j: int| 0 <= j < own.len() && own[j] == '\n';
                            assert(s[pos + j] == '\n');
                        }
                    } else {
                        assert(all[k] == rest[k - 1]);
                    }
                }
            },
            None => {
                let own = s.subrange(pos, s.len() as int);
                assert(all =~= seq![own]);
                if own.contains('\n') {
                    let j = choose|j: int| 0 <= j < own.len() && own[j] == '\n';
                    assert(s[pos + j] == '\n');
                }
            },
        }
    }
}

/// No line holds a line feed.
pub proof fn lines_hold_no_line_feed(s: Seq<char>, k: int)
    requires
        0 <= k < lines_text(s).len(),
    ensures
        !lines_text(s)[k].contains('\n'),
{
    lemma_lines(s, 0);
}

proof fn lemma_word(s: Seq<char>)
    ensures
        word_len(s) <= s.len(),
        forall|i: int| 0 <= i < word_len(s) ==> !is_space(#[trigger] s[i]),
        word_len(s) < s.len() ==> is_space(s[word_len(s) as int]),
    decreases s.len(),
{
    if s.len() > 0 && !is_space(s[0]) {
        let rest = s.drop_first();
        lemma_word(rest);
        assert forall|i: int| 0 <= i < word_len(s) implies !is_space(#[trigger] s[i]) by {
            if i > 0 {
                assert(rest[i - 1] == s[i]);
            }
        }
        if word_len(s) < s.len() {
            assert(rest[word_len(rest) as int] == s[word_len(s) as int]);
        }
    }
}

/// A word is never empty and holds no white space.
pub proof fn words_hold_no_spaces(s: Seq<char>)
    ensures
        forall|k: int|
            0 <= k < words_text(s).len() ==> (#[trigger] words_text(s)[k]).len() > 0 && forall|
                i: int|
                0 <= i < words_text(s)[k].len() ==> !is_space(#[trigger] words_text(s)[k][i]),
    decreases s.len(),
{
    let t = trim_start_text(s);
    lemma_trim_start_len(s);
    lemma_word_len(t);
    lemma_word(t);
    if t.len() > 0 {
        let n = word_len(t) as int;
        let rest = t.subrange(n, t.len() as int);
        words_hold_no_spaces(rest);
        let all = words_text(s);
        assert(all == seq![t.subrange(0, n)] + words_text(rest));
        assert forall|k: int| 0 <= k < all.len() implies (#[trigger] all[k]).len() > 0 && forall|
            i: int|
            0 <= i < all[k].len() ==> !is_space(#[trigger] all[k][i]) by {
            if k == 0 {
                assert(all[0] == t.subrange(0, n));
            } else {
                assert(all[k] == words_text(rest)[k - 1]);
            }
        }
    }
}

/// Words that a space parts are read one by one.
pub proof fn words_are_parted_by_spaces(a: Seq<char>, b: Seq<char>)
    requires
        a.len() > 0,
        forall|i: int| 0 <= i < a.len() ==> !is_space(#[trigger] a[i]),
    ensures
        words_text(a + seq![' '] + b) == seq![a] + words_text(seq![' '] + b),
        words_text(seq![' '] + b) == words_text(b),
{
    let s = a + seq![' '] + b;
    assert(s[0] == a[0]);
    assert(trim_start_text(s) == s);
    lemma_word(s);
    assert forall|i: int| 0 <= i < a.len() implies !is_space(#[trigger] s[i]) by {
        assert(s[i] == a[i]);
    }
    assert(s[a.len() as int] == ' ');
    let n = word_len(s) as int;
    assert(n == a.len()) by {
        if n < a.len() {
            assert(is_space(s[n]));
        }
        if n > a.len() {
            assert(!is_space(s[a.len() as int]));
        }
    }
    assert(s.subrange(0, n) =~= a);
    assert(s.subrange(n, s.len() as int) =~= seq![' '] + b);
    let t = seq![' '] + b;
    assert(t.drop_first() =~= b);
    assert(trim_start_text(t) == trim_start_text(b));
}

/// A text in which there is nothing to replace stays; in any other what stands
/// before the first occurrence stays, and the new text comes behind it.
pub proof fn replacing_keeps_the_rest(s: Seq<char>, t: Seq<char>, u: Seq<char>)
    requires
        t.len() > 0,
    ensures
        !contains_text(s, t) ==> replaced(s, t, u) == s,
        first_at(s, t, 0) is Some ==> starts_with_text(
            replaced(s, t, u),
            s.subrange(0, first_at(s, t, 0)->0) + u,
        ),
        t == u ==> replaced(s, t, u) == s,
{
    lemma_first_at(s, t, 0);
    match first_at(s, t, 0) {
        Some(i) => {
            let a = s.subrange(0, i) + u;
            let r = replaced(s, t, u);
            assert(matches_at(s, t, i));
            assert(r == a + replaced_from(s, t, u, i + t.len()));
            assert(r.subrange(0, a.len() as int) =~= a);
        },
        None => {
            assert(s.subrange(0, s.len() as int) =~= s);
        },
    }
    if t == u {
        lemma_same(s, t, 0);
        assert(s.subrange(0, s.len() as int) =~= s);
    }
}

proof fn lemma_same(s: Seq<char>, t: Seq<char>, pos: int)
    requires
        t.len() > 0,
        0 <= pos <= s.len(),
    ensures
        replaced_from(s, t, t, pos) == s.subrange(pos, s.len() as int),
    decreases s.len() - pos,
{
    lemma_first_at(s, t, pos);
    if let Some(i) = first_at(s, t, pos) {
        lemma_same(s, t, i + t.len());
        assert(s.subrange(pos, i) + t + s.subrange(i + t.len(), s.len() as int) =~= s.subrange(
            pos,
            s.len() as int,
        ));
    }
}

/// A text without a character does not hold it, and is the text where that did
/// not hold it either.
pub proof fn dropped_characters_are_gone(s: Seq<char>, c: char)
    ensures
        !without_char(s, c).contains(c),
        !s.contains(c) ==> without_char(s, c) == s,
        forall|d: char| d != c && s.contains(d) ==> without_char(s, c).contains(d),
    decreases s.len(),
{
    if s.len() > 0 {
        let front = s.drop_last();
        dropped_characters_are_gone(front, c);
        let w = without_char(front, c);
        let r = without_char(s, c);
        assert(s =~= front.push(s.last()));
        assert(s.contains(s.last())) by {
            assert(s[s.len() - 1] == s.last());
        }
        if front.contains(c) {
            let i = choose|i: int| 0 <= i < front.len() && front[i] == c;
            assert(s[i] == c);
        }
        if r.contains(c) {
            let i = choose|i: int| 0 <= i < r.len() && r[i] == c;
            if i < w.len() {
                assert(w[i] == c);
            }
        }
        assert forall|d: char| d != c && s.contains(d) implies r.contains(d) by {
            let i = choose|i: int| 0 <= i < s.len() && s[i] == d;
            if i < front.len() {
                assert(front[i] == d);
                assert(front.contains(d));
                assert(w.contains(d));
                let j = choose|j: int| 0 <= j < w.len() && w[j] == d;
                assert(r[j] == d);
            } else {
                assert(r[r.len() - 1] == d);
            }
        }
    }
}

proof fn lemma_trim_start_of(s: Seq<char>, t: Seq<char>)
    ensures
        t.len() > 0 ==> !starts_with_text(trim_start_of(s, t), t),
        trim_start_of(s, t).len() <= s.len(),
        trim_start_of(s, t) == s.subrange(s.len() - trim_start_of(s, t).len(), s.len() as int),
    decreases s.len(),
{
    if t.len() > 0 && matches_at(s, t, 0) {
        let rest = s.subrange(t.len() as int, s.len() as int);
        lemma_trim_start_of(rest, t);
        let r = trim_start_of(s, t);
        assert(r == trim_start_of(rest, t));
        assert(rest.subrange(rest.len() - r.len(), rest.len() as int) =~= s.subrange(
            s.len() - r.len(),
            s.len() as int,
        ));
    } else {
        assert(s.subrange(0, s.len() as int) =~= s);
    }
}

proof fn lemma_trim_end_of(s: Seq<char>, c: char)
    ensures
        trim_end_of(s, c).len() > 0 ==> trim_end_of(s, c).last() != c,
        trim_end_of(s, c).len() <= s.len(),
        trim_end_of(s, c) == s.subrange(0, trim_end_of(s, c).len() as int),
    decreases s.len(),
{
    if s.len() > 0 && s.last() == c {
        let front = s.drop_last();
        lemma_trim_end_of(front, c);
        let r = trim_end_of(s, c);
        assert(front.subrange(0, r.len() as int) =~= s.subrange(0, r.len() as int));
    } else {
        assert(s.subrange(0, s.len() as int) =~= s);
    }
}

/// What is trimmed off the ends of a text is gone, and what is left was there.
pub proof fn trimmed_ends_are_gone(s: Seq<char>, t: Seq<char>, c: char)
    ensures
        t.len() > 0 ==> !starts_with_text(trim_start_of(s, t), t),
        trim_start_of(s, t).len() <= s.len(),
        trim_start_of(s, t) == s.subrange(s.len() - trim_start_of(s, t).len(), s.len() as int),
        trim_end_of(s, c).len() > 0 ==> trim_end_of(s, c).last() != c,
        trim_end_of(s, c).len() <= s.len(),
        trim_end_of(s, c) == s.subrange(0, trim_end_of(s, c).len() as int),
{
    lemma_trim_start_of(s, t);
    lemma_trim_end_of(s, c);
}

} // verus!
