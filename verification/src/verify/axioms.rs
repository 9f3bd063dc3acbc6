//! What the theorems of a Lean package rest on: the theorems that are asked
//! about, the question, and the answer.
use vstd::prelude::*;

use crate::outside::{is_alnum, is_alphanumeric, matches_view, Match};
use crate::pattern::{all_matches, group, group_text_of, pattern_matches};
use crate::search::{opt_text, starts_with, starts_with_text, strip_prefix, without_prefix};
use crate::split::{lines, lines_text, split, split_text, trim, trim_start, trim_start_text, trim_text};
use crate::text::{chars_of, join, join_text, same, slice_text, texts};
use crate::verify::AxiomDependency;

verus! {

broadcast use {crate::text::group_text, crate::text::texts_index, crate::text::texts_len};

/// A theorem at the start of a line, behind its modifiers.
pub const THEOREM: &'static str = "^(?:(?:private|protected|noncomputable)\\s+)*theorem\\s+([A-Za-z_][A-Za-z0-9_']*(?:\\.[A-Za-z_][A-Za-z0-9_']*)*)";

/// A theorem and the axioms that it depends on.
pub const DEPENDS: &'static str = "'([^']+)' depends on axioms:\\s*\\[([^\\]]*)\\]";

/// Whether a character may stand in the name of a namespace.
pub open spec fn is_name_char(c: char) -> bool {
    is_alnum(c) || c == '_' || c == '\''
}

/// The number of characters from `from` on that may stand in a name.
pub open spec fn name_len(s: Seq<char>, from: int) -> nat
    decreases s.len() - from,
{
    if 0 <= from < s.len() && is_name_char(s[from]) {
        1 + name_len(s, from + 1)
    } else {
        0
    }
}

/// The names from `from` on that dots part.
pub open spec fn path_from(s: Seq<char>, from: int) -> Seq<Seq<char>>
    decreases s.len() - from,
    via path_from_decreases
{
    let end = from + name_len(s, from);
    if end == from {
        Seq::empty()
    } else if end < s.len() && s[end] == '.' {
        seq![s.subrange(from, end)] + path_from(s, end + 1)
    } else {
        seq![s.subrange(from, end)]
    }
}

proof fn lemma_name_len(s: Seq<char>, from: int)
    ensures
        name_len(s, from) > 0 ==> 0 <= from && from + name_len(s, from) <= s.len(),
    decreases s.len() - from,
{
    if 0 <= from < s.len() && is_name_char(s[from]) {
        lemma_name_len(s, from + 1);
    }
}

#[via_fn]
proof fn path_from_decreases(s: Seq<char>, from: int) {
    lemma_name_len(s, from);
}

/// The namespace that a text starts with, behind white space: its names, from
/// the outermost on.
pub open spec fn leading_path(s: Seq<char>) -> Seq<Seq<char>> {
    path_from(trim_start_text(s), 0)
}

/// Where the name that goes on at `from` ends.
fn name_end(v: &Vec<char>, from: usize) -> (r: usize)
    requires
        from <= v@.len(),
    ensures
        r == from + name_len(v@, from as int),
        from <= r <= v@.len(),
{
    let mut n: usize = from;
    while n < v.len() && (is_alphanumeric(v[n]) || v[n] == '_' || v[n] == '\'')
        invariant
            from <= n <= v.len(),
            from + name_len(v@, from as int) == n + name_len(v@, n as int),
        decreases v.len() - n,
    {
        n = n + 1;
    }
    n
}

/// The namespace that a text starts with, behind white space.
pub fn first_idents(s: &str) -> (r: Vec<String>)
    ensures
        texts(r@) == leading_path(s@),
{
    let t = trim_start(s);
    let v = chars_of(&t);
    let mut out: Vec<String> = Vec::new();
    let mut from: usize = 0;
    proof {
        assert(texts(out@) + path_from(v@, 0) =~= path_from(v@, 0));
    }
    loop
        invariant
            v@ == trim_start_text(s@),
            from <= v@.len(),
            texts(out@) + path_from(v@, from as int) == leading_path(s@),
        decreases v@.len() - from,
    {
        let ghost before = texts(out@);
        let end = name_end(&v, from);
        if end == from {
            proof {
                assert(before + Seq::empty() =~= before);
            }
            return out;
        }
        let ghost name = v@.subrange(from as int, end as int);
        out.push(slice_text(&v, from, end));
        if end < v.len() && v[end] == '.' {
            from = end + 1;
            proof {
                let rest = path_from(v@, from as int);
                assert(before + (seq![name] + rest) =~= before.push(name) + rest);
            }
        } else {
            proof {
                assert(before + seq![name] =~= before.push(name));
            }
            return out;
        }
    }
}

/// The namespaces that are open and the theorems found so far.
pub type Scan = (Seq<Seq<char>>, Seq<Seq<char>>);

/// The theorem that a line declares.
pub open spec fn theorem_of(line: Seq<char>) -> Option<Seq<char>> {
    let ms = pattern_matches(THEOREM@, line);
    if ms.len() == 0 {
        None
    } else {
        Some(group_text_of(ms[0], 1))
    }
}

/// The namespaces that stay open where `path` is closed: those before it, if it
/// is what was opened last.
pub open spec fn closed(ns: Seq<Seq<char>>, path: Seq<Seq<char>>) -> Seq<Seq<char>> {
    let keep = ns.len() - path.len();
    if keep >= 0 && ns.subrange(keep, ns.len() as int) == path {
        ns.subrange(0, keep)
    } else {
        ns
    }
}

/// What a line makes of a scan, when the theorem that it declares is known.
/// Comments say nothing; a namespace opens and closes; a theorem is found under
/// the namespaces that are open.
pub open spec fn after_line(st: Scan, raw: Seq<char>, theorem: Option<Seq<char>>) -> Scan {
    let line = trim_start_text(raw);
    if starts_with_text(line, "--"@) {
        st
    } else {
        match without_prefix(line, "namespace "@) {
            Some(rest) => (st.0 + leading_path(rest), st.1),
            None => match without_prefix(line, "end "@) {
                Some(rest) => (closed(st.0, leading_path(rest)), st.1),
                None => match theorem {
                    Some(name) => (
                        st.0,
                        st.1.push(
                            if st.0.len() == 0 {
                                name
                            } else {
                                join_text(st.0, "."@) + "."@ + name
                            },
                        ),
                    ),
                    None => st,
                },
            },
        }
    }
}

fn open_path(ns: &mut Vec<String>, path: &Vec<String>)
    ensures
        texts(final(ns)@) == texts(old(ns)@) + texts(path@),
{
    for i in 0..path.len()
        invariant
            texts(ns@) == texts(old(ns)@) + texts(path@).take(i as int),
    {
        ns.push(path[i].clone());
        proof {
            assert(texts(path@).take(i + 1) =~= texts(path@).take(i as int).push(path@[i as int]@));
            assert(texts(ns@) =~= texts(old(ns)@) + texts(path@).take(i + 1));
        }
    }
    proof {
        assert(texts(path@).take(path@.len() as int) =~= texts(path@));
    }
}

fn close_path(ns: &mut Vec<String>, path: &Vec<String>)
    ensures
        texts(final(ns)@) == closed(texts(old(ns)@), texts(path@)),
{
    let ghost open = texts(ns@);
    if path.len() > ns.len() {
        return ;
    }
    let total: usize = ns.len();
    let keep: usize = total - path.len();
    for i in 0..path.len()
        invariant
            texts(ns@) == open,
            keep + path@.len() == total,
            total == ns@.len(),
            forall|k: int| 0 <= k < i ==> open[keep + k] == (#[trigger] texts(path@)[k]),
    {
        if !same(&ns[keep + i], &path[i]) {
            proof {
                assert(open.subrange(keep as int, open.len() as int)[i as int] != texts(
                    path@,
                )[i as int]);
            }
            return ;
        }
    }
    proof {
        assert(open.subrange(keep as int, open.len() as int) =~= texts(path@));
    }
    ns.truncate(keep);
    proof {
        assert(texts(ns@) =~= open.subrange(0, keep as int));
    }
}

/// Scans a line, when the theorem that it declares is known.
pub fn scan_line(
    ns: &mut Vec<String>,
    out: &mut Vec<String>,
    raw: &str,
    theorem: Option<String>,
)
    ensures
        (texts(final(ns)@), texts(final(out)@)) == after_line(
            (texts(old(ns)@), texts(old(out)@)),
            raw@,
            opt_text(theorem),
        ),
{
    let line = trim_start(raw);
    if starts_with(&line, "--") {
        return ;
    }
    match strip_prefix(&line, "namespace ") {
        Some(rest) => {
            let path = first_idents(&rest);
            open_path(ns, &path);
            return ;
        },
        None => {},
    }
    match strip_prefix(&line, "end ") {
        Some(rest) => {
            let path = first_idents(&rest);
            close_path(ns, &path);
            return ;
        },
        None => {},
    }
    match theorem {
        Some(name) => {
            if ns.len() == 0 {
                out.push(name);
            } else {
                let mut full = join(ns, ".");
                full.push_str(".");
                full.push_str(&name);
                out.push(full);
            }
        },
        None => {},
    }
}

/// A scan of the first `n` lines.
pub open spec fn scanned(out: Seq<Seq<char>>, ls: Seq<Seq<char>>, n: nat) -> Scan
    decreases n,
{
    if n == 0 {
        (Seq::empty(), out)
    } else {
        after_line(
            scanned(out, ls, (n - 1) as nat),
            ls[n - 1],
            theorem_of(trim_start_text(ls[n - 1])),
        )
    }
}

/// Adds the theorems that a text declares, each under its namespaces.
pub fn collect_theorems_from_text(text: &str, out: &mut Vec<String>)
    ensures
        texts(final(out)@) == scanned(
            texts(old(out)@),
            lines_text(text@),
            lines_text(text@).len(),
        ).1,
{
    let ls = lines(text);
    let mut ns: Vec<String> = Vec::new();
    for i in 0..ls.len()
        invariant
            (texts(ns@), texts(out@)) == scanned(texts(old(out)@), texts(ls@), i as nat),
    {
        let line = trim_start(&ls[i]);
        let ms = all_matches(THEOREM, &line);
        let theorem = if ms.len() > 0 {
            Some(group(&ms[0], 1))
        } else {
            None
        };
        scan_line(&mut ns, out, &ls[i], theorem);
    }
}

pub open spec fn queries_upto(theorems: Seq<Seq<char>>, n: nat) -> Seq<char>
    decreases n,
{
    if n == 0 {
        Seq::empty()
    } else {
        queries_upto(theorems, (n - 1) as nat) + ("#print axioms "@ + theorems[n - 1] + "\n"@)
    }
}

/// The Lean file that asks for the axioms of theorems.
pub open spec fn query_text(has_spec: bool, has_proofs: bool, theorems: Seq<Seq<char>>) -> Seq<char> {
    (if has_spec {
        "import Spec\n"@
    } else {
        Seq::empty()
    }) + (if has_proofs {
        "import Proofs\n"@
    } else {
        Seq::empty()
    }) + "\n"@ + queries_upto(theorems, theorems.len())
}

/// Renders the Lean file that asks for the axioms of theorems.
pub fn axiom_query(has_spec: bool, has_proofs: bool, theorems: &Vec<String>) -> (r: String)
    ensures
        r@ == query_text(has_spec, has_proofs, texts(theorems@)),
{
    let mut out = String::new();
    if has_spec {
        out.push_str("import Spec\n");
    }
    if has_proofs {
        out.push_str("import Proofs\n");
    }
    out.push_str("\n");
    let ghost base = out@;
    for i in 0..theorems.len()
        invariant
            out@ == base + queries_upto(texts(theorems@), i as nat),
    {
        out.push_str("#print axioms ");
        out.push_str(&theorems[i]);
        out.push_str("\n");
    }
    out
}

/// Whether every Lean program rests on the axiom.
pub open spec fn is_builtin(a: Seq<char>) -> bool {
    a == "propext"@ || a == "Classical.choice"@ || a == "Quot.sound"@ || a == "Lean.ofReduceBool"@
        || a == "Lean.trustCompiler"@
}

fn builtin(a: &str) -> (r: bool)
    ensures
        r == is_builtin(a@),
{
    same(a, "propext") || same(a, "Classical.choice") || same(a, "Quot.sound") || same(
        a,
        "Lean.ofReduceBool",
    ) || same(a, "Lean.trustCompiler")
}

/// The axioms among the first `n` pieces of a list that are to be reported.
pub open spec fn reported_upto(parts: Seq<Seq<char>>, n: nat) -> Seq<Seq<char>>
    decreases n,
{
    if n == 0 {
        Seq::empty()
    } else {
        let before = reported_upto(parts, (n - 1) as nat);
        let a = trim_text(parts[n - 1]);
        if a.len() > 0 && !is_builtin(a) {
            before.push(a)
        } else {
            before
        }
    }
}

/// The axioms of a list that are to be reported.
pub open spec fn reported_axioms(list: Seq<char>) -> Seq<Seq<char>> {
    let parts = split_text(list, ',');
    reported_upto(parts, parts.len())
}

fn read_axioms(list: &str) -> (r: Vec<String>)
    ensures
        texts(r@) == reported_axioms(list@),
{
    let parts = split(list, ',');
    let mut out: Vec<String> = Vec::new();
    for i in 0..parts.len()
        invariant
            texts(out@) == reported_upto(texts(parts@), i as nat),
    {
        let a = trim(&parts[i]);
        if !a.as_str().is_empty() && !builtin(&a) {
            out.push(a);
        }
    }
    out
}

/// A theorem and its axioms, as text.
pub open spec fn dependency_view(d: AxiomDependency) -> (Seq<char>, Seq<Seq<char>>) {
    (d.theorem@, texts(d.axioms@))
}

pub open spec fn dependency_views(ds: Seq<AxiomDependency>) -> Seq<(Seq<char>, Seq<Seq<char>>)> {
    ds.map_values(|d: AxiomDependency| dependency_view(d))
}

/// The theorems among the first `n` answers that depend on axioms to report.
pub open spec fn dependencies_upto(ms: Seq<(Seq<Seq<char>>, Seq<char>)>, n: nat) -> Seq<
    (Seq<char>, Seq<Seq<char>>),
>
    decreases n,
{
    if n == 0 {
        Seq::empty()
    } else {
        let before = dependencies_upto(ms, (n - 1) as nat);
        let axioms = reported_axioms(group_text_of(ms[n - 1], 2));
        if axioms.len() > 0 {
            before.push((group_text_of(ms[n - 1], 1), axioms))
        } else {
            before
        }
    }
}

/// The theorems that depend on axioms to report, when the answers are known:
/// each a theorem and a list of axioms.
pub fn dependencies(ms: &Vec<Match>) -> (r: Vec<AxiomDependency>)
    ensures
        dependency_views(r@) == dependencies_upto(matches_view(ms@), ms@.len()),
{
    let mut out: Vec<AxiomDependency> = Vec::new();
    proof {
        assert(dependency_views(out@) =~= Seq::<(Seq<char>, Seq<Seq<char>>)>::empty());
    }
    for i in 0..ms.len()
        invariant
            dependency_views(out@) == dependencies_upto(matches_view(ms@), i as nat),
    {
        let axioms = read_axioms(&group(&ms[i], 2));
        if axioms.len() > 0 {
            let d = AxiomDependency { theorem: group(&ms[i], 1), axioms };
            proof {
                assert(dependency_views(out@.push(d)) =~= dependency_views(out@).push(
                    dependency_view(d),
                ));
            }
            out.push(d);
        }
    }
    out
}

/// Reads the answer of Lean: the theorems that depend on axioms to report.
pub fn parse_axiom_output(stdout: &str) -> (r: Vec<AxiomDependency>)
    ensures
        dependency_views(r@) == dependencies_upto(
            pattern_matches(DEPENDS@, stdout@),
            pattern_matches(DEPENDS@, stdout@).len(),
        ),
{
    let ms = all_matches(DEPENDS, stdout);
    dependencies(&ms)
}

/// No axiom that every Lean program rests on is reported, and no blank one.
pub proof fn builtins_are_not_reported(list: Seq<char>)
    ensures
        forall|i: int|
            0 <= i < reported_axioms(list).len() ==> !is_builtin(
                #[trigger] reported_axioms(list)[i],
            ) && reported_axioms(list)[i].len() > 0,
{
    lemma_reported(split_text(list, ','), split_text(list, ',').len());
}

proof fn lemma_reported(parts: Seq<Seq<char>>, n: nat)
    requires
        n <= parts.len(),
    ensures
        forall|i: int|
            0 <= i < reported_upto(parts, n).len() ==> !is_builtin(
                #[trigger] reported_upto(parts, n)[i],
            ) && reported_upto(parts, n)[i].len() > 0,
    decreases n,
{
    if n > 0 {
        lemma_reported(parts, (n - 1) as nat);
        let before = reported_upto(parts, (n - 1) as nat);
        let all = reported_upto(parts, n);
        assert forall|i: int| 0 <= i < all.len() implies !is_builtin(#[trigger] all[i])
            && all[i].len() > 0 by {
            if i < before.len() {
                assert(all[i] == before[i]);
            }
        }
    }
}

} // verus!
