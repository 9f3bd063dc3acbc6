//! The lines of a tool's output that a report repeats.
use vstd::prelude::*;

use crate::number::{decimal, decimal_string};
use crate::search::{contains, contains_text, find_from, first_at, lemma_first_at};
use crate::split::{lines, lines_text, trim, trim_text};
use crate::text::{chars_of, join, join_text, texts};

verus! {

broadcast use {crate::text::group_text, crate::text::texts_index, crate::text::texts_len};

/// What a line of output is looked at for.
#[derive(Clone, Copy)]
pub enum LineKind {
    /// A test that failed.
    TestFailure,
    /// A check of the model checker.
    KaniCheck,
    /// The closing line of a successful model check.
    KaniTotal,
    /// The closing line of a failed model check.
    KaniSummary,
    /// An error of a Lean build.
    LakeError,
}

/// Whether a line is of a kind.
pub open spec fn is_kind(kind: LineKind, l: Seq<char>) -> bool {
    match kind {
        LineKind::TestFailure => contains_text(l, "FAILED"@) || contains_text(
            l,
            "test result: FAILED"@,
        ),
        LineKind::KaniCheck => contains_text(l, "VERIFICATION:- FAILED"@) || contains_text(
            l,
            "Failed Checks:"@,
        ) || contains_text(l, "Failed properties:"@) || contains_text(l, "Check "@),
        LineKind::KaniTotal => contains_text(l, "Complete - "@) || contains_text(l, "harnesses"@),
        LineKind::KaniSummary => contains_text(l, "Complete - "@) || contains_text(l, "Summary:"@),
        LineKind::LakeError => contains_text(l, "error:"@) || contains_text(l, "sorry"@),
    }
}

fn line_is(kind: LineKind, l: &str) -> (r: bool)
    ensures
        r == is_kind(kind, l@),
{
    match kind {
        LineKind::TestFailure => contains(l, "FAILED") || contains(l, "test result: FAILED"),
        LineKind::KaniCheck => contains(l, "VERIFICATION:- FAILED") || contains(l, "Failed Checks:")
            || contains(l, "Failed properties:") || contains(l, "Check "),
        LineKind::KaniTotal => contains(l, "Complete - ") || contains(l, "harnesses"),
        LineKind::KaniSummary => contains(l, "Complete - ") || contains(l, "Summary:"),
        LineKind::LakeError => contains(l, "error:") || contains(l, "sorry"),
    }
}

/// The lines of a kind among the first `n`, behind `acc`, up to `limit` in all.
pub open spec fn picked(
    acc: Seq<Seq<char>>,
    kind: LineKind,
    ls: Seq<Seq<char>>,
    limit: nat,
    n: nat,
) -> Seq<Seq<char>>
    decreases n,
{
    if n == 0 {
        acc
    } else {
        let before = picked(acc, kind, ls, limit, (n - 1) as nat);
        if before.len() < limit && is_kind(kind, ls[n - 1]) {
            before.push(ls[n - 1])
        } else {
            before
        }
    }
}

fn pick(out: &mut Vec<String>, kind: LineKind, ls: &Vec<String>, limit: usize)
    ensures
        texts(final(out)@) == picked(
            texts(old(out)@),
            kind,
            texts(ls@),
            limit as nat,
            ls@.len(),
        ),
{
    for i in 0..ls.len()
        invariant
            texts(out@) == picked(texts(old(out)@), kind, texts(ls@), limit as nat, i as nat),
    {
        if out.len() < limit && line_is(kind, &ls[i]) {
            out.push(ls[i].clone());
        }
    }
}

/// The first line of a kind from line `from` on.
pub open spec fn first_line(kind: LineKind, ls: Seq<Seq<char>>, from: int) -> Option<Seq<char>>
    decreases ls.len() - from,
{
    if from < 0 || from >= ls.len() {
        None
    } else if is_kind(kind, ls[from]) {
        Some(ls[from])
    } else {
        first_line(kind, ls, from + 1)
    }
}

fn find_line(kind: LineKind, ls: &Vec<String>) -> (r: Option<usize>)
    ensures
        match r {
            Some(i) => i < ls@.len() && first_line(kind, texts(ls@), 0) == Some(ls@[i as int]@),
            None => first_line(kind, texts(ls@), 0) is None,
        },
{
    let mut i: usize = 0;
    while i < ls.len()
        invariant
            i <= ls@.len(),
            first_line(kind, texts(ls@), 0) == first_line(kind, texts(ls@), i as int),
        decreases ls@.len() - i,
    {
        if line_is(kind, &ls[i]) {
            return Some(i);
        }
        i = i + 1;
    }
    None
}

/// The last `n` lines.
pub open spec fn last_lines(s: Seq<char>, n: int) -> Seq<char> {
    let ls = lines_text(s);
    let from = if ls.len() > n {
        ls.len() - n
    } else {
        0
    };
    join_text(ls.subrange(from, ls.len() as int), "\n"@)
}

/// The last `n` lines.
pub fn tail_lines(s: &str, n: usize) -> (r: String)
    ensures
        r@ == last_lines(s@, n as int),
{
    let ls = lines(s);
    let from: usize = if ls.len() > n {
        ls.len() - n
    } else {
        0
    };
    let mut out: Vec<String> = Vec::new();
    proof {
        assert(texts(ls@).subrange(from as int, from as int) =~= Seq::<Seq<char>>::empty());
    }
    for i in from..ls.len()
        invariant
            from <= i <= ls.len(),
            texts(out@) == texts(ls@).subrange(from as int, i as int),
    {
        out.push(ls[i].clone());
        proof {
            assert(texts(ls@).subrange(from as int, i + 1) =~= texts(ls@).subrange(
                from as int,
                i as int,
            ).push(ls@[i as int]@));
        }
    }
    join(&out, "\n")
}

/// The tests that failed, or else the last lines of the errors.
pub open spec fn cargo_failure_text(stdout: Seq<char>, stderr: Seq<char>) -> Seq<char> {
    let ls = lines_text(stdout);
    let found = picked(Seq::empty(), LineKind::TestFailure, ls, 10, ls.len());
    if found.len() > 0 {
        join_text(found, "\n"@)
    } else {
        last_lines(stderr, 20)
    }
}

/// What is said of property tests that failed.
pub fn summarize_cargo_failure(stdout: &str, stderr: &str) -> (r: String)
    ensures
        r@ == cargo_failure_text(stdout@, stderr@),
{
    let ls = lines(stdout);
    let mut found: Vec<String> = Vec::new();
    pick(&mut found, LineKind::TestFailure, &ls, 10);
    if found.len() > 0 {
        return join(&found, "\n");
    }
    tail_lines(stderr, 20)
}

/// How often `t` stands in `s` from `pos` on, without overlaps.
pub open spec fn occurrences(s: Seq<char>, t: Seq<char>, pos: int) -> nat
    decreases s.len() - pos,
{
    if t.len() == 0 || pos < 0 {
        0
    } else {
        match first_at(s, t, pos) {
            Some(i) => if pos <= i && i + t.len() <= s.len() {
                1 + occurrences(s, t, i + t.len())
            } else {
                0
            },
            None => 0,
        }
    }
}

fn count(s: &str, t: &str) -> (r: usize)
    requires
        t@.len() > 0,
    ensures
        r == occurrences(s@, t@, 0),
{
    let v = chars_of(s);
    let w = chars_of(t);
    let mut n: usize = 0;
    let mut pos: usize = 0;
    loop
        invariant_except_break
            occurrences(s@, t@, 0) == n + occurrences(s@, t@, pos as int),
        invariant
            v@ == s@,
            w@ == t@,
            t@.len() > 0,
            n <= pos <= v.len(),
        ensures
            occurrences(s@, t@, 0) == n,
        decreases v.len() - pos,
    {
        proof {
            lemma_first_at(s@, t@, pos as int);
        }
        match find_from(&v, &w, pos) {
            Some(i) => {
                pos = i + w.len();
                n = n + 1;
            },
            None => {
                break ;
            },
        }
    }
    n
}

/// How many harnesses were verified, and the closing line where there is one.
pub open spec fn kani_pass_text(stdout: Seq<char>) -> Seq<char> {
    let n = decimal(occurrences(stdout, "VERIFICATION:- SUCCESSFUL"@, 0));
    match first_line(LineKind::KaniTotal, lines_text(stdout), 0) {
        Some(l) => if l.len() > 0 {
            n + " verified — "@ + trim_text(l)
        } else {
            n + " harness(es) verified"@
        },
        None => n + " harness(es) verified"@,
    }
}

/// What is said of a model check that passed.
pub fn summarize_kani_pass(stdout: &str) -> (r: String)
    ensures
        r@ == kani_pass_text(stdout@),
{
    proof {
        reveal_strlit("VERIFICATION:- SUCCESSFUL");
    }
    let n: usize = count(stdout, "VERIFICATION:- SUCCESSFUL");
    let mut out = decimal_string(n as u128);
    let ls = lines(stdout);
    match find_line(LineKind::KaniTotal, &ls) {
        Some(i) => {
            if !ls[i].as_str().is_empty() {
                let l = trim(&ls[i]);
                out.push_str(" verified — ");
                out.push_str(&l);
                return out;
            }
        },
        None => {},
    }
    out.push_str(" harness(es) verified");
    out
}

/// What is said of a model check that failed without a word.
pub const KANI_SILENT: &'static str = "cargo kani failed with no diagnostic output";

/// The checks that failed and the closing line; or else the last lines of the
/// errors, or of the output.
pub open spec fn kani_failure_text(stdout: Seq<char>, stderr: Seq<char>) -> Seq<char> {
    let ls = lines_text(stdout);
    let found = picked(Seq::empty(), LineKind::KaniCheck, ls, 20, ls.len());
    if found.len() == 0 {
        if trim_text(last_lines(stderr, 20)).len() > 0 {
            last_lines(stderr, 20)
        } else if trim_text(last_lines(stdout, 20)).len() > 0 {
            last_lines(stdout, 20)
        } else {
            KANI_SILENT@
        }
    } else {
        match first_line(LineKind::KaniSummary, ls, 0) {
            Some(l) => join_text(found.push(l), "\n"@),
            None => join_text(found, "\n"@),
        }
    }
}

/// What is said of a model check that failed.
pub fn summarize_kani_failure(stdout: &str, stderr: &str) -> (r: String)
    ensures
        r@ == kani_failure_text(stdout@, stderr@),
{
    let ls = lines(stdout);
    let mut found: Vec<String> = Vec::new();
    pick(&mut found, LineKind::KaniCheck, &ls, 20);
    if found.len() == 0 {
        let tail_err = tail_lines(stderr, 20);
        if !trim(&tail_err).as_str().is_empty() {
            return tail_err;
        }
        let tail_out = tail_lines(stdout, 20);
        if !trim(&tail_out).as_str().is_empty() {
            return tail_out;
        }
        return KANI_SILENT.to_owned();
    }
    match find_line(LineKind::KaniSummary, &ls) {
        Some(i) => {
            found.push(ls[i].clone());
        },
        None => {},
    }
    join(&found, "\n")
}

/// The errors of a build, or else the last lines of what it wrote as errors.
pub open spec fn lake_failure_text(stdout: Seq<char>, stderr: Seq<char>) -> Seq<char> {
    let errs = lines_text(stderr);
    let outs = lines_text(stdout);
    let found = picked(
        picked(Seq::empty(), LineKind::LakeError, errs, 10, errs.len()),
        LineKind::LakeError,
        outs,
        10,
        outs.len(),
    );
    if found.len() > 0 {
        join_text(found, "\n"@)
    } else {
        last_lines(stderr, 20)
    }
}

/// What is said of a Lean build that failed.
pub fn summarize_lake_failure(stdout: &str, stderr: &str) -> (r: String)
    ensures
        r@ == lake_failure_text(stdout@, stderr@),
{
    let errs = lines(stderr);
    let outs = lines(stdout);
    let mut found: Vec<String> = Vec::new();
    pick(&mut found, LineKind::LakeError, &errs, 10);
    pick(&mut found, LineKind::LakeError, &outs, 10);
    if found.len() > 0 {
        return join(&found, "\n");
    }
    tail_lines(stderr, 20)
}

} // verus!
