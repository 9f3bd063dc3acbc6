//! Brackets, commas and calls in plain text.
use vstd::prelude::*;

use crate::pinocchio_profile::naming::{is_ident, names_ident};
use crate::search::{
    char_at_or_after, find_char_from, find_from, first_at, lemma_first_at, opt_text, strip_prefix,
    strip_suffix, without_prefix, without_suffix,
};
use crate::split::{trim, trim_text};
use crate::text::{chars_of, same, slice_text, texts};

verus! {

broadcast use {crate::text::group_text, crate::text::texts_index, crate::text::texts_len};

// ---------------------------------------------------------------------------
// Brackets
// ---------------------------------------------------------------------------

/// Where the bracket closes that is open `depth` times before position `i`.
pub open spec fn closing(s: Seq<char>, left: char, right: char, i: int, depth: nat) -> Option<int>
    decreases s.len() - i,
{
    if i < 0 || i >= s.len() {
        None
    } else if s[i] == left {
        closing(s, left, right, i + 1, depth + 1)
    } else if s[i] == right {
        if depth == 0 {
            None
        } else if depth == 1 {
            Some(i)
        } else {
            closing(s, left, right, i + 1, (depth - 1) as nat)
        }
    } else {
        closing(s, left, right, i + 1, depth)
    }
}

/// Where the bracket at position `open` closes.
pub fn matching_bracket(v: &Vec<char>, open: usize, left: char, right: char) -> (r: Option<usize>)
    ensures
        match r {
            Some(i) => closing(v@, left, right, open as int, 0) == Some(i as int) && open <= i
                < v@.len(),
            None => closing(v@, left, right, open as int, 0) is None,
        },
{
    let mut depth: usize = 0;
    let mut i: usize = open;
    while i < v.len()
        invariant
            open <= i,
            depth <= i - open,
            i <= v@.len() || i == open,
            closing(v@, left, right, open as int, 0) == closing(
                v@,
                left,
                right,
                i as int,
                depth as nat,
            ),
        decreases v@.len() - i,
    {
        if v[i] == left {
            depth = depth + 1;
        } else if v[i] == right {
            if depth == 0 {
                return None;
            }
            if depth == 1 {
                return Some(i);
            }
            depth = depth - 1;
        }
        i = i + 1;
    }
    None
}

/// How often a character stands in the text from `from` to `to`.
pub open spec fn count_in(s: Seq<char>, c: char, from: int, to: int) -> int
    decreases to - from,
{
    if from >= to {
        0
    } else {
        count_in(s, c, from, to - 1) + (if s[to - 1] == c {
            1int
        } else {
            0
        })
    }
}

proof fn lemma_closing(
    s: Seq<char>,
    left: char,
    right: char,
    open: int,
    i: int,
    depth: nat,
)
    requires
        left != right,
        0 <= open <= i,
        depth == count_in(s, left, open, i) - count_in(s, right, open, i),
        forall|k: int|
            open < k <= i ==> #[trigger] count_in(s, left, open, k) > count_in(s, right, open, k),
    ensures
        match closing(s, left, right, i, depth) {
            Some(j) => i <= j < s.len() && s[j] == right && count_in(s, left, open, j + 1)
                == count_in(s, right, open, j + 1) && (forall|k: int|
                open < k <= j ==> #[trigger] count_in(s, left, open, k) > count_in(
                    s,
                    right,
                    open,
                    k,
                ) || s[open] != left),
            None => true,
        },
    decreases s.len() - i,
{
    if i < s.len() {
        assert(count_in(s, left, open, i + 1) == count_in(s, left, open, i) + (if s[i] == left {
            1int
        } else {
            0
        }));
        assert(count_in(s, right, open, i + 1) == count_in(s, right, open, i) + (if s[i] == right {
            1int
        } else {
            0
        }));
        if s[i] == left {
            lemma_closing(s, left, right, open, i + 1, depth + 1);
        } else if s[i] == right {
            if depth > 1 {
                lemma_closing(s, left, right, open, i + 1, (depth - 1) as nat);
            }
        } else if depth > 0 {
            lemma_closing(s, left, right, open, i + 1, depth);
        } else {
            lemma_closing_idle(s, left, right, open, i, depth);
        }
    }
}

/// Before the first bracket there is nothing to close.
proof fn lemma_closing_idle(
    s: Seq<char>,
    left: char,
    right: char,
    open: int,
    i: int,
    depth: nat,
)
    requires
        left != right,
        0 <= open <= i < s.len(),
        depth == 0,
        s[i] != left,
        s[i] != right,
        depth == count_in(s, left, open, i) - count_in(s, right, open, i),
        forall|k: int|
            open < k <= i ==> #[trigger] count_in(s, left, open, k) > count_in(s, right, open, k),
    ensures
        s[open] != left,
        match closing(s, left, right, i, depth) {
            Some(j) => i <= j < s.len() && s[j] == right && count_in(s, left, open, j + 1)
                == count_in(s, right, open, j + 1),
            None => true,
        },
{
    if open < i {
        assert(count_in(s, left, open, i) > count_in(s, right, open, i));
    }
    assert(open == i);
    lemma_closing_any(s, left, right, open, i + 1, 0);
}

proof fn lemma_closing_any(
    s: Seq<char>,
    left: char,
    right: char,
    open: int,
    i: int,
    depth: nat,
)
    requires
        left != right,
        0 <= open <= i,
        i <= s.len(),
        depth == count_in(s, left, open, i) - count_in(s, right, open, i),
    ensures
        match closing(s, left, right, i, depth) {
            Some(j) => i <= j < s.len() && s[j] == right && count_in(s, left, open, j + 1)
                == count_in(s, right, open, j + 1),
            None => true,
        },
    decreases s.len() - i,
{
    if i < s.len() {
        if s[i] == left {
            lemma_closing_any(s, left, right, open, i + 1, depth + 1);
        } else if s[i] == right {
            if depth > 1 {
                lemma_closing_any(s, left, right, open, i + 1, (depth - 1) as nat);
            }
        } else {
            lemma_closing_any(s, left, right, open, i + 1, depth);
        }
    }
}

/// A bracket closes at the first position up to which as many brackets close as
/// open.
pub proof fn brackets_balance(s: Seq<char>, left: char, right: char, open: int)
    requires
        left != right,
        0 <= open < s.len(),
        s[open] == left,
    ensures
        match closing(s, left, right, open, 0) {
            Some(j) => open < j < s.len() && s[j] == right && count_in(s, left, open, j + 1)
                == count_in(s, right, open, j + 1) && (forall|k: int|
                open < k <= j ==> #[trigger] count_in(s, left, open, k) > count_in(
                    s,
                    right,
                    open,
                    k,
                )),
            None => true,
        },
{
    lemma_closing(s, left, right, open, open, 0);
}

// ---------------------------------------------------------------------------
// Commas
// ---------------------------------------------------------------------------

/// The pieces of `s` from `start` on, between the commas from position `i` on
/// that stand in no bracket.
pub open spec fn pieces_from(s: Seq<char>, i: int, start: int, parens: nat, brackets: nat) -> Seq<
    Seq<char>,
>
    decreases s.len() - i,
{
    if i < 0 || i >= s.len() {
        seq![trim_text(s.subrange(start, s.len() as int))]
    } else if s[i] == '(' {
        pieces_from(s, i + 1, start, parens + 1, brackets)
    } else if s[i] == ')' {
        pieces_from(
            s,
            i + 1,
            start,
            if parens > 0 {
                (parens - 1) as nat
            } else {
                0
            },
            brackets,
        )
    } else if s[i] == '[' {
        pieces_from(s, i + 1, start, parens, brackets + 1)
    } else if s[i] == ']' {
        pieces_from(
            s,
            i + 1,
            start,
            parens,
            if brackets > 0 {
                (brackets - 1) as nat
            } else {
                0
            },
        )
    } else if s[i] == ',' && parens == 0 && brackets == 0 {
        seq![trim_text(s.subrange(start, i))] + pieces_from(s, i + 1, i + 1, 0, 0)
    } else {
        pieces_from(s, i + 1, start, parens, brackets)
    }
}

/// The pieces of a text between the commas that stand in no bracket.
pub open spec fn pieces(s: Seq<char>) -> Seq<Seq<char>> {
    pieces_from(s, 0, 0, 0, 0)
}

/// The pieces of a text between the commas that stand in no bracket.
pub fn split_top_level_commas(source: &str) -> (r: Vec<String>)
    ensures
        texts(r@) == pieces(source@),
{
    let v = chars_of(source);
    let mut out: Vec<String> = Vec::new();
    let mut start: usize = 0;
    let mut parens: usize = 0;
    let mut brackets: usize = 0;
    let mut i: usize = 0;
    proof {
        assert(Seq::<Seq<char>>::empty() + pieces(v@) =~= pieces(v@));
    }
    while i < v.len()
        invariant
            v@ == source@,
            start <= i <= v.len(),
            parens <= i,
            brackets <= i,
            texts(out@) + pieces_from(
                v@,
                i as int,
                start as int,
                parens as nat,
                brackets as nat,
            ) == pieces(v@),
        decreases v.len() - i,
    {
        let c = v[i];
        if c == '(' {
            parens = parens + 1;
        } else if c == ')' {
            if parens > 0 {
                parens = parens - 1;
            }
        } else if c == '[' {
            brackets = brackets + 1;
        } else if c == ']' {
            if brackets > 0 {
                brackets = brackets - 1;
            }
        } else if c == ',' && parens == 0 && brackets == 0 {
            let ghost before = texts(out@);
            let piece = trim(&slice_text(&v, start, i));
            let ghost pv = piece@;
            out.push(piece);
            proof {
                let rest = pieces_from(v@, i + 1, i + 1, 0, 0);
                assert(before + (seq![pv] + rest) =~= before.push(pv) + rest);
            }
            start = i + 1;
        }
        i = i + 1;
    }
    let ghost before = texts(out@);
    let piece = trim(&slice_text(&v, start, v.len()));
    let ghost pv = piece@;
    out.push(piece);
    proof {
        assert(before + seq![pv] =~= before.push(pv));
    }
    out
}

/// The first `n` pieces that are not blank.
pub open spec fn full_upto(parts: Seq<Seq<char>>, n: nat) -> Seq<Seq<char>>
    decreases n,
{
    if n == 0 {
        Seq::empty()
    } else {
        let before = full_upto(parts, (n - 1) as nat);
        let t = trim_text(parts[n - 1]);
        if t.len() > 0 {
            before.push(t)
        } else {
            before
        }
    }
}

/// The pieces that are not blank, without white space at their ends.
pub open spec fn full(parts: Seq<Seq<char>>) -> Seq<Seq<char>> {
    full_upto(parts, parts.len())
}

/// The pieces that are not blank, without white space at their ends.
pub fn drop_blank(parts: &Vec<String>) -> (r: Vec<String>)
    ensures
        texts(r@) == full(texts(parts@)),
{
    let mut out: Vec<String> = Vec::new();
    for i in 0..parts.len()
        invariant
            texts(out@) == full_upto(texts(parts@), i as nat),
    {
        let t = trim(&parts[i]);
        if !t.as_str().is_empty() {
            out.push(t);
        }
    }
    out
}

// ---------------------------------------------------------------------------
// Calls
// ---------------------------------------------------------------------------

/// White space in ASCII.
pub open spec fn is_ascii_space(c: char) -> bool {
    c == ' ' || c == '\t' || c == '\n' || c == '\u{c}' || c == '\r'
}

/// The first position from `i` on that holds no white space.
pub open spec fn after_space(s: Seq<char>, i: int) -> int
    decreases s.len() - i,
{
    if 0 <= i < s.len() && is_ascii_space(s[i]) {
        after_space(s, i + 1)
    } else {
        i
    }
}

fn skip_space(v: &Vec<char>, from: usize) -> (r: usize)
    requires
        from <= v.len(),
    ensures
        r == after_space(v@, from as int),
        from <= r <= v.len(),
{
    let mut i: usize = from;
    while i < v.len() && (v[i] == ' ' || v[i] == '\t' || v[i] == '\n' || v[i] == '\u{c}' || v[i]
        == '\r')
        invariant
            from <= i <= v.len(),
            after_space(v@, from as int) == after_space(v@, i as int),
        decreases v.len() - i,
    {
        i = i + 1;
    }
    i
}

proof fn lemma_after_space(s: Seq<char>, i: int)
    requires
        0 <= i <= s.len(),
    ensures
        i <= after_space(s, i) <= s.len(),
    decreases s.len() - i,
{
    if i < s.len() && is_ascii_space(s[i]) {
        lemma_after_space(s, i + 1);
    }
}

/// The arguments of a call from position `i` on, behind `acc`, and where the
/// call ends, when the brackets are open `depth` times and the current argument
/// starts at `start`.
pub open spec fn args_from(
    s: Seq<char>,
    i: int,
    start: int,
    depth: nat,
    acc: Seq<Seq<char>>,
) -> Option<(Seq<Seq<char>>, int)>
    decreases s.len() - i,
{
    if i < 0 || i >= s.len() {
        None
    } else if s[i] == '(' {
        args_from(s, i + 1, start, depth + 1, acc)
    } else if s[i] == ')' {
        if depth <= 1 {
            let arg = trim_text(s.subrange(start, i));
            Some(
                (
                    if arg.len() > 0 {
                        acc.push(arg)
                    } else {
                        acc
                    },
                    i + 1,
                ),
            )
        } else {
            args_from(s, i + 1, start, (depth - 1) as nat, acc)
        }
    } else if s[i] == ',' && depth == 1 {
        args_from(s, i + 1, i + 1, depth, acc.push(trim_text(s.subrange(start, i))))
    } else {
        args_from(s, i + 1, start, depth, acc)
    }
}

fn read_args(v: &Vec<char>, open: usize) -> (r: Option<(Vec<String>, usize)>)
    requires
        open < v.len(),
        v@[open as int] == '(',
    ensures
        match r {
            Some((args, end)) => args_from(v@, open as int, open + 1, 0, Seq::empty()) == Some(
                (texts(args@), end as int),
            ) && open < end <= v.len(),
            None => args_from(v@, open as int, open + 1, 0, Seq::empty()) is None,
        },
{
    let mut args: Vec<String> = Vec::new();
    let mut start: usize = open + 1;
    let mut depth: usize = 1;
    let mut i: usize = open + 1;
    while i < v.len()
        invariant
            open < start <= i <= v.len(),
            1 <= depth <= i,
            args_from(v@, open as int, open + 1, 0, Seq::empty()) == args_from(
                v@,
                i as int,
                start as int,
                depth as nat,
                texts(args@),
            ),
        decreases v.len() - i,
    {
        let c = v[i];
        if c == '(' {
            depth = depth + 1;
        } else if c == ')' {
            if depth <= 1 {
                let arg = trim(&slice_text(v, start, i));
                if !arg.as_str().is_empty() {
                    args.push(arg);
                }
                return Some((args, i + 1));
            }
            depth = depth - 1;
        } else if c == ',' && depth == 1 {
            args.push(trim(&slice_text(v, start, i)));
            start = i + 1;
        }
        i = i + 1;
    }
    None
}

/// The arguments of every call of a function from `pos` on. What is inside a
/// call is not looked at again, and a call without an end is the last.
pub open spec fn calls_from(s: Seq<char>, f: Seq<char>, pos: int) -> Seq<Seq<Seq<char>>>
    decreases s.len() - pos,
    via calls_from_decreases
{
    if f.len() == 0 || pos < 0 || pos > s.len() {
        Seq::empty()
    } else {
        match first_at(s, f, pos) {
            Some(at) => {
                let open = after_space(s, at + f.len());
                if open >= s.len() || s[open] != '(' {
                    calls_from(s, f, open)
                } else {
                    match args_from(s, open, open + 1, 0, Seq::empty()) {
                        Some((args, end)) => seq![args] + calls_from(s, f, end),
                        None => Seq::empty(),
                    }
                }
            },
            None => Seq::empty(),
        }
    }
}

#[via_fn]
proof fn calls_from_decreases(s: Seq<char>, f: Seq<char>, pos: int) {
    if !(f.len() == 0 || pos < 0 || pos > s.len()) {
        lemma_first_at(s, f, pos);
        if let Some(at) = first_at(s, f, pos) {
            lemma_after_space(s, at + f.len());
            let open = after_space(s, at + f.len());
            lemma_args_end(s, open, open + 1, 0, Seq::empty());
        }
    }
}

proof fn lemma_args_end(s: Seq<char>, i: int, start: int, depth: nat, acc: Seq<Seq<char>>)
    ensures
        match args_from(s, i, start, depth, acc) {
            Some((_, end)) => i < end <= s.len(),
            None => true,
        },
    decreases s.len() - i,
{
    if 0 <= i < s.len() {
        if s[i] == '(' {
            lemma_args_end(s, i + 1, start, depth + 1, acc);
        } else if s[i] == ')' {
            if depth > 1 {
                lemma_args_end(s, i + 1, start, (depth - 1) as nat, acc);
            }
        } else if s[i] == ',' && depth == 1 {
            lemma_args_end(s, i + 1, i + 1, depth, acc.push(trim_text(s.subrange(start, i))));
        } else {
            lemma_args_end(s, i + 1, start, depth, acc);
        }
    }
}

/// Lists of arguments, as text.
pub open spec fn arg_lists(v: Seq<Vec<String>>) -> Seq<Seq<Seq<char>>> {
    Seq::new(v.len(), |i: int| texts(v[i]@))
}

/// The arguments of every call of a function.
pub fn call_arguments(body: &str, fn_name: &str) -> (r: Vec<Vec<String>>)
    requires
        fn_name@.len() > 0,
    ensures
        arg_lists(r@) == calls_from(body@, fn_name@, 0),
{
    let v = chars_of(body);
    let f = chars_of(fn_name);
    let mut out: Vec<Vec<String>> = Vec::new();
    let mut pos: usize = 0;
    proof {
        assert(arg_lists(out@) + calls_from(v@, f@, 0) =~= calls_from(v@, f@, 0));
    }
    loop
        invariant_except_break
            pos <= v.len(),
            arg_lists(out@) + calls_from(v@, f@, pos as int) == calls_from(v@, f@, 0),
        invariant
            v@ == body@,
            f@ == fn_name@,
            f@.len() > 0,
        ensures
            arg_lists(out@) == calls_from(v@, f@, 0),
        decreases v.len() - pos,
    {
        proof {
            lemma_first_at(v@, f@, pos as int);
        }
        match find_from(&v, &f, pos) {
            Some(at) => {
                let open = skip_space(&v, at + f.len());
                if open >= v.len() || v[open] != '(' {
                    pos = open;
                } else {
                    let ghost before = arg_lists(out@);
                    match read_args(&v, open) {
                        Some((args, end)) => {
                            let ghost av = texts(args@);
                            out.push(args);
                            proof {
                                assert(arg_lists(out@) =~= before.push(av));
                                let rest = calls_from(v@, f@, end as int);
                                assert(before + (seq![av] + rest) =~= before.push(av) + rest);
                            }
                            pos = end;
                        },
                        None => {
                            proof {
                                assert(before + Seq::<Seq<Seq<char>>>::empty() =~= before);
                            }
                            break ;
                        },
                    }
                }
            },
            None => {
                proof {
                    assert(arg_lists(out@) + Seq::<Seq<Seq<char>>>::empty() =~= arg_lists(out@));
                }
                break ;
            },
        }
    }
    out
}

/// The account whose key a text asks for.
pub open spec fn key_call_name(e: Seq<char>) -> Option<Seq<char>> {
    match without_suffix(trim_text(e), ".key()"@) {
        Some(name) => if names_ident(trim_text(name)) {
            Some(trim_text(name))
        } else {
            None
        },
        None => None,
    }
}

/// The account whose key a text asks for.
pub fn strip_key_call(e: &str) -> (r: Option<String>)
    ensures
        opt_text(r) == key_call_name(e@),
{
    match strip_suffix(&trim(e), ".key()") {
        Some(name) => {
            let name = trim(&name);
            if is_ident(&name) {
                Some(name)
            } else {
                None
            }
        },
        None => None,
    }
}

/// The name that a text refers to.
pub open spec fn ref_name(e: Seq<char>) -> Option<Seq<char>> {
    match without_prefix(trim_text(e), "&"@) {
        Some(name) => if names_ident(trim_text(name)) {
            Some(trim_text(name))
        } else {
            None
        },
        None => None,
    }
}

/// The name that a text refers to.
pub fn strip_ref_ident(e: &str) -> (r: Option<String>)
    ensures
        opt_text(r) == ref_name(e@),
{
    match strip_prefix(&trim(e), "&") {
        Some(name) => {
            let name = trim(&name);
            if is_ident(&name) {
                Some(name)
            } else {
                None
            }
        },
        None => None,
    }
}

/// The derivation that a text calls behind a reference: its name and its
/// arguments. Nothing but `.0` may follow the call.
pub open spec fn ref_derivation(e: Seq<char>) -> Option<(Seq<char>, Seq<Seq<char>>)> {
    match without_prefix(trim_text(e), "&"@) {
        Some(inner) => {
            let t = trim_text(inner);
            match without_prefix(t, "derive_"@) {
                Some(_) => match char_at_or_after(t, '(', 7) {
                    Some(open) => {
                        let name = t.subrange(7, open);
                        match closing(t, '(', ')', open, 0) {
                            Some(close) => {
                                let tail = trim_text(t.subrange(close + 1, t.len() as int));
                                if names_ident(name) && (tail.len() == 0 || tail == ".0"@) {
                                    Some((name, full(pieces(t.subrange(open + 1, close)))))
                                } else {
                                    None
                                }
                            },
                            None => None,
                        }
                    },
                    None => None,
                },
                None => None,
            }
        },
        None => None,
    }
}

/// The derivation that a text calls behind a reference.
pub fn strip_ref_derive_call(e: &str) -> (r: Option<(String, Vec<String>)>)
    ensures
        match r {
            Some((name, args)) => ref_derivation(e@) == Some((name@, texts(args@))),
            None => ref_derivation(e@) is None,
        },
{
    proof {
        reveal_strlit("derive_");
    }
    match strip_prefix(&trim(e), "&") {
        Some(inner) => {
            let t = trim(&inner);
            match strip_prefix(&t, "derive_") {
                Some(_) => {
                    let v = chars_of(&t);
                    match find_char_from(&v, '(', 7) {
                        Some(open) => {
                            let name = slice_text(&v, 7, open);
                            match matching_bracket(&v, open, '(', ')') {
                                Some(close) => {
                                    let tail = trim(&slice_text(&v, close + 1, v.len()));
                                    proof {
                                        if close == open {
                                            lemma_open_is_no_close(v@, open as int);
                                        }
                                    }
                                    if is_ident(&name) && (tail.as_str().is_empty() || same(
                                        &tail,
                                        ".0",
                                    )) {
                                        let parts = split_top_level_commas(
                                            &slice_text(&v, open + 1, close),
                                        );
                                        Some((name, drop_blank(&parts)))
                                    } else {
                                        None
                                    }
                                },
                                None => None,
                            }
                        },
                        None => None,
                    }
                },
                None => None,
            }
        },
        None => None,
    }
}

/// A bracket does not close where it opens.
pub proof fn lemma_open_is_no_close(s: Seq<char>, open: int)
    requires
        0 <= open < s.len(),
        s[open] == '(',
    ensures
        closing(s, '(', ')', open, 0) != Some(open),
{
    brackets_balance(s, '(', ')', open);
}

} // verus!
