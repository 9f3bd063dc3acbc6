//! Trimming and splitting text.
use vstd::prelude::*;

use crate::search::{
    char_at_or_after, find_char_from, lemma_char_at_or_after, matches_at, stands_at,
};
use crate::text::{chars_of, is_space, slice_text, space, texts};

verus! {

broadcast use crate::text::group_text;

/// `s` from the first character on that is no white space.
pub open spec fn trim_start_text(s: Seq<char>) -> Seq<char>
    decreases s.len(),
{
    if s.len() > 0 && is_space(s[0]) {
        trim_start_text(s.drop_first())
    } else {
        s
    }
}

/// `s` up to the last character that is no white space.
pub open spec fn trim_end_text(s: Seq<char>) -> Seq<char>
    decreases s.len(),
{
    if s.len() > 0 && is_space(s.last()) {
        trim_end_text(s.drop_last())
    } else {
        s
    }
}

/// `s` without white space at either end.
pub open spec fn trim_text(s: Seq<char>) -> Seq<char> {
    trim_end_text(trim_start_text(s))
}

fn lead(v: &Vec<char>, from: usize) -> (i: usize)
    requires
        from <= v.len(),
    ensures
        from <= i <= v.len(),
        trim_start_text(v@.subrange(from as int, v.len() as int)) == v@.subrange(
            i as int,
            v.len() as int,
        ),
        i < v.len() ==> !is_space(v@[i as int]),
{
    let mut i: usize = from;
    while i < v.len() && space(v[i])
        invariant
            from <= i <= v.len(),
            trim_start_text(v@.subrange(from as int, v.len() as int)) == trim_start_text(
                v@.subrange(i as int, v.len() as int),
            ),
        decreases v.len() - i,
    {
        proof {
            assert(v@.subrange(i as int, v.len() as int).drop_first() =~= v@.subrange(
                i + 1,
                v.len() as int,
            ));
        }
        i = i + 1;
    }
    i
}

fn tail(v: &Vec<char>, from: usize) -> (j: usize)
    requires
        from <= v.len(),
    ensures
        from <= j <= v.len(),
        trim_end_text(v@.subrange(from as int, v.len() as int)) == v@.subrange(
            from as int,
            j as int,
        ),
{
    let mut j: usize = v.len();
    while j > from && space(v[j - 1])
        invariant
            from <= j <= v.len(),
            trim_end_text(v@.subrange(from as int, v.len() as int)) == trim_end_text(
                v@.subrange(from as int, j as int),
            ),
        decreases j,
    {
        proof {
            assert(v@.subrange(from as int, j as int).drop_last() =~= v@.subrange(
                from as int,
                j - 1,
            ));
        }
        j = j - 1;
    }
    j
}

pub fn trim_start(s: &str) -> (r: String)
    ensures
        r@ == trim_start_text(s@),
{
    let v = chars_of(s);
    let i = lead(&v, 0);
    proof {
        assert(v@.subrange(0, v.len() as int) =~= v@);
    }
    slice_text(&v, i, v.len())
}

pub fn trim(s: &str) -> (r: String)
    ensures
        r@ == trim_text(s@),
{
    let v = chars_of(s);
    let i = lead(&v, 0);
    let j = tail(&v, i);
    proof {
        assert(v@.subrange(0, v.len() as int) =~= v@);
    }
    slice_text(&v, i, j)
}

/// `s` without the occurrences of `t` at its start.
pub open spec fn trim_start_of(s: Seq<char>, t: Seq<char>) -> Seq<char>
    decreases s.len(),
{
    if t.len() > 0 && matches_at(s, t, 0) {
        trim_start_of(s.subrange(t.len() as int, s.len() as int), t)
    } else {
        s
    }
}

/// `s` without the occurrences of the character `c` at its end.
pub open spec fn trim_end_of(s: Seq<char>, c: char) -> Seq<char>
    decreases s.len(),
{
    if s.len() > 0 && s.last() == c {
        trim_end_of(s.drop_last(), c)
    } else {
        s
    }
}

/// Drops the occurrences of `t` at the start of `s`.
pub fn trim_start_matches(s: &str, t: &str) -> (r: String)
    requires
        t@.len() > 0,
    ensures
        r@ == trim_start_of(s@, t@),
{
    let v = chars_of(s);
    let w = chars_of(t);
    let mut i: usize = 0;
    proof {
        assert(v@.subrange(0, v.len() as int) =~= v@);
    }
    while stands_at(&v, &w, i)
        invariant
            i <= v.len(),
            v@ == s@,
            w@ == t@,
            t@.len() > 0,
            trim_start_of(s@, t@) == trim_start_of(s@.subrange(i as int, s@.len() as int), t@),
        decreases v.len() - i,
    {
        proof {
            let rest = s@.subrange(i as int, s@.len() as int);
            assert(rest.subrange(0, t@.len() as int) =~= s@.subrange(i as int, i + t@.len()));
            assert(rest.subrange(t@.len() as int, rest.len() as int) =~= s@.subrange(
                i + t@.len(),
                s@.len() as int,
            ));
        }
        i = i + w.len();
    }
    proof {
        let rest = s@.subrange(i as int, s@.len() as int);
        if matches_at(rest, t@, 0) {
            assert(rest.subrange(0, t@.len() as int) =~= s@.subrange(i as int, i + t@.len()));
        }
    }
    slice_text(&v, i, v.len())
}

/// Drops the occurrences of `c` at the end of `s`.
pub fn trim_end_char(s: &str, c: char) -> (r: String)
    ensures
        r@ == trim_end_of(s@, c),
{
    let v = chars_of(s);
    let mut j: usize = v.len();
    proof {
        assert(v@.subrange(0, v.len() as int) =~= v@);
    }
    while j > 0 && v[j - 1] == c
        invariant
            j <= v.len(),
            v@ == s@,
            trim_end_of(s@, c) == trim_end_of(s@.subrange(0, j as int), c),
        decreases j,
    {
        proof {
            assert(s@.subrange(0, j as int).drop_last() =~= s@.subrange(0, j - 1));
        }
        j = j - 1;
    }
    slice_text(&v, 0, j)
}

/// The pieces of `s` from `pos` on, between the occurrences of `c`.
pub open spec fn split_from(s: Seq<char>, c: char, pos: int) -> Seq<Seq<char>>
    decreases s.len() - pos,
{
    if pos < 0 || pos > s.len() {
        Seq::empty()
    } else {
        match char_at_or_after(s, c, pos) {
            Some(i) => if pos <= i < s.len() {
                seq![s.subrange(pos, i)] + split_from(s, c, i + 1)
            } else {
                Seq::empty()
            },
            None => seq![s.subrange(pos, s.len() as int)],
        }
    }
}

/// The pieces of `s` between the occurrences of `c`.
pub open spec fn split_text(s: Seq<char>, c: char) -> Seq<Seq<char>> {
    split_from(s, c, 0)
}

/// The pieces of `s` between the occurrences of `c`.
pub fn split(s: &str, c: char) -> (r: Vec<String>)
    ensures
        texts(r@) == split_text(s@, c),
{
    let v = chars_of(s);
    let mut out: Vec<String> = Vec::new();
    let mut pos: usize = 0;
    proof {
        assert(Seq::<Seq<char>>::empty() + split_from(s@, c, 0) =~= split_from(s@, c, 0));
    }
    loop
        invariant_except_break
            pos <= v.len(),
            texts(out@) + split_from(s@, c, pos as int) == split_text(s@, c),
        invariant
            v@ == s@,
        ensures
            texts(out@) == split_text(s@, c),
        decreases v.len() - pos,
    {
        proof {
            lemma_char_at_or_after(s@, c, pos as int);
        }
        match find_char_from(&v, c, pos) {
            Some(i) => {
                let ghost before = texts(out@);
                out.push(slice_text(&v, pos, i));
                proof {
                    let piece = s@.subrange(pos as int, i as int);
                    assert(texts(out@) == before.push(piece));
                    assert(split_from(s@, c, pos as int) == seq![piece] + split_from(s@, c, i + 1));
                    assert(before + (seq![piece] + split_from(s@, c, i + 1)) =~= before.push(piece)
                        + split_from(s@, c, i + 1));
                }
                pos = i + 1;
            },
            None => {
                let ghost before = texts(out@);
                out.push(slice_text(&v, pos, v.len()));
                proof {
                    let piece = s@.subrange(pos as int, s@.len() as int);
                    assert(split_from(s@, c, pos as int) == seq![piece]);
                    assert(before + seq![piece] =~= before.push(piece));
                }
                break ;
            },
        }
    }
    out
}

/// A line without its carriage return.
pub open spec fn without_cr(s: Seq<char>) -> Seq<char> {
    if s.len() > 0 && s.last() == '\r' {
        s.drop_last()
    } else {
        s
    }
}

/// The lines of `s` from `pos` on.
pub open spec fn lines_from(s: Seq<char>, pos: int) -> Seq<Seq<char>>
    decreases s.len() - pos,
{
    if pos < 0 || pos >= s.len() {
        Seq::empty()
    } else {
        match char_at_or_after(s, '\n', pos) {
            Some(i) => if pos <= i < s.len() {
                seq![without_cr(s.subrange(pos, i))] + lines_from(s, i + 1)
            } else {
                Seq::empty()
            },
            None => seq![s.subrange(pos, s.len() as int)],
        }
    }
}

/// The lines of `s`: each ends at a line feed, alone or after a carriage
/// return, and what follows the last line feed is a line unless it is empty.
pub open spec fn lines_text(s: Seq<char>) -> Seq<Seq<char>> {
    lines_from(s, 0)
}

proof fn lemma_lines_behind(a: Seq<char>, b: Seq<char>, k: int)
    requires
        0 <= k,
    ensures
        lines_from(a + b, a.len() + k) == lines_from(b, k),
    decreases b.len() - k,
{
    let s = a + b;
    let pos = a.len() + k;
    if k < b.len() {
        lemma_char_at_or_after(s, '\n', pos);
        lemma_char_at_or_after(b, '\n', k);
        match char_at_or_after(b, '\n', k) {
            Some(i) => {
                assert(s[a.len() + i] == '\n');
                let j = char_at_or_after(s, '\n', pos)->0;
                if j < a.len() + i {
                    assert(b[j - a.len()] == s[j]);
                }
                assert(j == a.len() + i);
                lemma_lines_behind(a, b, i + 1);
                assert(s.subrange(pos, j) =~= b.subrange(k, i));
            },
            None => {
                if let Some(j) = char_at_or_after(s, '\n', pos) {
                    assert(b[j - a.len()] == s[j]);
                }
                assert(s.subrange(pos, s.len() as int) =~= b.subrange(k, b.len() as int));
            },
        }
    }
}

proof fn lemma_lines_of_two_from(a: Seq<char>, b: Seq<char>, pos: int)
    requires
        0 <= pos <= a.len(),
        a.len() > 0 ==> a.last() == '\n',
    ensures
        lines_from(a + b, pos) == lines_from(a, pos) + lines_text(b),
    decreases a.len() - pos,
{
    let s = a + b;
    if pos == a.len() {
        lemma_lines_behind(a, b, 0);
        assert(lines_from(a, pos) + lines_text(b) =~= lines_text(b));
    } else {
        lemma_char_at_or_after(s, '\n', pos);
        lemma_char_at_or_after(a, '\n', pos);
        assert(a[a.len() - 1] == '\n');
        let i = char_at_or_after(a, '\n', pos)->0;
        assert(s[i] == '\n');
        let j = char_at_or_after(s, '\n', pos)->0;
        if j < i {
            assert(a[j] == s[j]);
        }
        assert(i == j);
        lemma_lines_of_two_from(a, b, i + 1);
        let line = without_cr(a.subrange(pos, i));
        assert(s.subrange(pos, i) =~= a.subrange(pos, i));
        assert(seq![line] + (lines_from(a, i + 1) + lines_text(b)) =~= seq![line] + lines_from(
            a,
            i + 1,
        ) + lines_text(b));
    }
}

/// A line feed behind a text adds no line but an empty one, and changes the
/// lines at most by a carriage return.
pub proof fn lemma_ending_keeps_lines(s: Seq<char>, pos: int)
    requires
        0 <= pos <= s.len(),
    ensures
        lines_from(s, pos).len() <= lines_from(s + "\n"@, pos).len(),
        forall|i: int|
            0 <= i < lines_from(s, pos).len() ==> #[trigger] lines_from(s + "\n"@, pos)[i]
                == without_cr(lines_from(s, pos)[i]) || lines_from(s + "\n"@, pos)[i] == lines_from(
                s,
                pos,
            )[i],
    decreases s.len() - pos,
{
    reveal_strlit("\n");
    let e = s + "\n"@;
    if pos < s.len() {
        lemma_char_at_or_after(s, '\n', pos);
        lemma_char_at_or_after(e, '\n', pos);
        assert(e[s.len() as int] == '\n');
        let j = char_at_or_after(e, '\n', pos)->0;
        match char_at_or_after(s, '\n', pos) {
            Some(i) => {
                assert(e[i] == '\n');
                if j < i {
                    assert(s[j] == e[j]);
                }
                assert(i == j);
                lemma_ending_keeps_lines(s, i + 1);
                assert(e.subrange(pos, i) =~= s.subrange(pos, i));
                let a = lines_from(s, pos);
                let b = lines_from(e, pos);
                assert forall|k: int| 0 <= k < a.len() implies #[trigger] b[k] == without_cr(a[k])
                    || b[k] == a[k] by {
                    if k > 0 {
                        assert(a[k] == lines_from(s, i + 1)[k - 1]);
                        assert(b[k] == lines_from(e, i + 1)[k - 1]);
                    }
                }
            },
            None => {
                if j < s.len() {
                    assert(s[j] == e[j]);
                }
                assert(e.subrange(pos, j) =~= s.subrange(pos, s.len() as int));
            },
        }
    }
}

/// The lines of two texts, where the first ends with a line feed, are the lines
/// of the one and then those of the other.
pub proof fn lemma_lines_of_two(a: Seq<char>, b: Seq<char>)
    requires
        a.len() > 0 ==> a.last() == '\n',
    ensures
        lines_text(a + b) == lines_text(a) + lines_text(b),
{
    lemma_lines_of_two_from(a, b, 0);
}

/// A text without a line feed, and with one behind it, is one line.
pub proof fn lemma_one_line(t: Seq<char>)
    requires
        !t.contains('\n'),
        t.len() > 0 ==> t.last() != '\r',
    ensures
        lines_text(t + "\n"@) == seq![t],
{
    reveal_strlit("\n");
    let s = t + "\n"@;
    lemma_char_at_or_after(s, '\n', 0);
    assert(s[t.len() as int] == '\n');
    let i = char_at_or_after(s, '\n', 0)->0;
    if i < t.len() {
        assert(t[i] == '\n');
    }
    assert(s.subrange(0, i) =~= t);
    assert(lines_from(s, i + 1) =~= Seq::empty());
    assert(lines_text(s) =~= seq![t]);
}

/// The lines of `s`.
pub fn lines(s: &str) -> (r: Vec<String>)
    ensures
        texts(r@) == lines_text(s@),
{
    let v = chars_of(s);
    let mut out: Vec<String> = Vec::new();
    let mut pos: usize = 0;
    proof {
        assert(Seq::<Seq<char>>::empty() + lines_from(s@, 0) =~= lines_from(s@, 0));
    }
    while pos < v.len()
        invariant
            v@ == s@,
            pos <= v.len(),
            texts(out@) + lines_from(s@, pos as int) == lines_text(s@),
        decreases v.len() - pos,
    {
        proof {
            lemma_char_at_or_after(s@, '\n', pos as int);
        }
        let ghost before = texts(out@);
        match find_char_from(&v, '\n', pos) {
            Some(i) => {
                let end: usize = if i > pos && v[i - 1] == '\r' {
                    i - 1
                } else {
                    i
                };
                out.push(slice_text(&v, pos, end));
                proof {
                    let piece = without_cr(s@.subrange(pos as int, i as int));
                    assert(piece =~= s@.subrange(pos as int, end as int));
                    assert(lines_from(s@, pos as int) == seq![piece] + lines_from(s@, i + 1));
                    assert(before + (seq![piece] + lines_from(s@, i + 1)) =~= before.push(piece)
                        + lines_from(s@, i + 1));
                }
                pos = i + 1;
            },
            None => {
                out.push(slice_text(&v, pos, v.len()));
                proof {
                    let piece = s@.subrange(pos as int, s@.len() as int);
                    assert(before + seq![piece] =~= before.push(piece) + lines_from(
                        s@,
                        s@.len() as int,
                    ));
                }
                pos = v.len();
            },
        }
    }
    proof {
        assert(texts(out@) + lines_from(s@, pos as int) =~= texts(out@));
    }
    out
}

/// The number of characters at the start of `s` that are no white space.
pub open spec fn word_len(s: Seq<char>) -> nat
    decreases s.len(),
{
    if s.len() > 0 && !is_space(s[0]) {
        1 + word_len(s.drop_first())
    } else {
        0
    }
}

pub proof fn lemma_word_len(s: Seq<char>)
    ensures
        word_len(s) <= s.len(),
        s.len() > 0 && !is_space(s[0]) ==> word_len(s) > 0,
    decreases s.len(),
{
    if s.len() > 0 && !is_space(s[0]) {
        lemma_word_len(s.drop_first());
    }
}

pub proof fn lemma_trim_start_len(s: Seq<char>)
    ensures
        trim_start_text(s).len() <= s.len(),
        trim_start_text(s).len() > 0 ==> !is_space(trim_start_text(s)[0]),
    decreases s.len(),
{
    if s.len() > 0 && is_space(s[0]) {
        lemma_trim_start_len(s.drop_first());
    }
}

/// The words of `s`, separated by white space.
pub open spec fn words_text(s: Seq<char>) -> Seq<Seq<char>>
    decreases s.len(),
    via words_decreases
{
    let t = trim_start_text(s);
    if t.len() == 0 {
        Seq::empty()
    } else {
        let n = word_len(t) as int;
        seq![t.subrange(0, n)] + words_text(t.subrange(n, t.len() as int))
    }
}

#[via_fn]
proof fn words_decreases(s: Seq<char>) {
    lemma_trim_start_len(s);
    lemma_word_len(trim_start_text(s));
}

/// The words of `s`, separated by white space.
pub fn words(s: &str) -> (r: Vec<String>)
    ensures
        texts(r@) == words_text(s@),
{
    let v = chars_of(s);
    let mut out: Vec<String> = Vec::new();
    let mut pos: usize = 0;
    proof {
        assert(v@.subrange(0, v.len() as int) =~= v@);
        assert(Seq::<Seq<char>>::empty() + words_text(s@) =~= words_text(s@));
    }
    loop
        invariant_except_break
            pos <= v.len(),
            texts(out@) + words_text(s@.subrange(pos as int, s@.len() as int)) == words_text(s@),
        invariant
            v@ == s@,
        ensures
            texts(out@) == words_text(s@),
        decreases v.len() - pos,
    {
        let ghost before = texts(out@);
        let i = lead(&v, pos);
        let ghost t = s@.subrange(i as int, s@.len() as int);
        if i == v.len() {
            proof {
                assert(before + Seq::<Seq<char>>::empty() =~= before);
            }
            break ;
        }
        let mut j: usize = i;
        proof {
            assert(t.subrange(0, t.len() as int) =~= t);
            assert(t =~= s@.subrange(j as int, s@.len() as int));
        }
        while j < v.len() && !space(v[j])
            invariant
                i <= j <= v.len(),
                v@ == s@,
                t == s@.subrange(i as int, s@.len() as int),
                word_len(t) == (j - i) + word_len(s@.subrange(j as int, s@.len() as int)),
            decreases v.len() - j,
        {
            proof {
                assert(s@.subrange(j as int, s@.len() as int).drop_first() =~= s@.subrange(
                    j + 1,
                    s@.len() as int,
                ));
            }
            j = j + 1;
        }
        out.push(slice_text(&v, i, j));
        proof {
            lemma_word_len(t);
            let piece = s@.subrange(i as int, j as int);
            let rest = s@.subrange(j as int, s@.len() as int);
            assert(word_len(t) == j - i);
            assert(t.subrange(0, j - i) =~= piece);
            assert(t.subrange(j - i, t.len() as int) =~= rest);
            assert(trim_start_text(s@.subrange(pos as int, s@.len() as int)) == t);
            assert(words_text(s@.subrange(pos as int, s@.len() as int)) == seq![piece] + words_text(
                rest,
            ));
            assert(before + (seq![piece] + words_text(rest)) =~= before.push(piece) + words_text(
                rest,
            ));
        }
        pos = j;
    }
    out
}

/// The text before and after the first occurrence of `c`.
pub open spec fn split_once_text(s: Seq<char>, c: char) -> Option<(Seq<char>, Seq<char>)> {
    match char_at_or_after(s, c, 0) {
        Some(i) => Some((s.subrange(0, i), s.subrange(i + 1, s.len() as int))),
        None => None,
    }
}

/// The view of an optional pair of strings.
pub open spec fn opt_pair(o: Option<(String, String)>) -> Option<(Seq<char>, Seq<char>)> {
    match o {
        Some(p) => Some((p.0@, p.1@)),
        None => None,
    }
}

/// Splits `s` at the first occurrence of `c`.
pub fn split_once(s: &str, c: char) -> (r: Option<(String, String)>)
    ensures
        opt_pair(r) == split_once_text(s@, c),
{
    let v = chars_of(s);
    match find_char_from(&v, c, 0) {
        Some(i) => Some((slice_text(&v, 0, i), slice_text(&v, i + 1, v.len()))),
        None => None,
    }
}

/// The last position before `to` that holds `c`.
pub open spec fn last_char_before(s: Seq<char>, c: char, to: int) -> Option<int>
    decreases to,
{
    if to <= 0 || to > s.len() {
        None
    } else if s[to - 1] == c {
        Some(to - 1)
    } else {
        last_char_before(s, c, to - 1)
    }
}

/// The text before and after the last occurrence of `c`.
pub open spec fn rsplit_once_text(s: Seq<char>, c: char) -> Option<(Seq<char>, Seq<char>)> {
    match last_char_before(s, c, s.len() as int) {
        Some(i) => Some((s.subrange(0, i), s.subrange(i + 1, s.len() as int))),
        None => None,
    }
}

/// Splits `s` at the last occurrence of `c`.
pub fn rsplit_once(s: &str, c: char) -> (r: Option<(String, String)>)
    ensures
        opt_pair(r) == rsplit_once_text(s@, c),
{
    let v = chars_of(s);
    let mut i: usize = v.len();
    while i > 0
        invariant
            i <= v.len(),
            v@ == s@,
            last_char_before(s@, c, s@.len() as int) == last_char_before(s@, c, i as int),
        decreases i,
    {
        if v[i - 1] == c {
            return Some((slice_text(&v, 0, i - 1), slice_text(&v, i, v.len())));
        }
        i = i - 1;
    }
    None
}

} // verus!
