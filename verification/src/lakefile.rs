//! The lakefile beside a rendered spec: the roots that it lists and the
//! packages that it requires.
use vstd::prelude::*;

use crate::search::{
    char_at_or_after, contains, contains_text, ends_with, ends_with_text, find_char_from,
    find_from, first_at, lemma_char_at_or_after, lemma_first_at, matches_at, replace, replaced,
};
use crate::sidecars::{
    module_text, modules_are_plain, package_text, proof_pkg_name, safe_module_name, SidecarPlan,
};
use crate::split::{
    split, split_from, split_text, trim, trim_end_text, trim_start_text, trim_text,
};
use crate::text::{chars_of, is_space, join, join_text, join_text_push, same, slice_text, texts};

verus! {

broadcast use {crate::text::group_text, crate::text::texts_index, crate::text::texts_len};

// ---------------------------------------------------------------------------
// Roots
// ---------------------------------------------------------------------------

/// What the list of roots starts with.
pub const ROOTS: &'static str = "roots := #[";

/// Where the entries of the list of roots start and end.
pub open spec fn roots_span(s: Seq<char>) -> Option<(int, int)> {
    match first_at(s, ROOTS@, 0) {
        Some(start) => match char_at_or_after(s, ']', start + ROOTS@.len()) {
            Some(end) => Some((start + ROOTS@.len(), end)),
            None => None,
        },
        None => None,
    }
}

fn find_roots(v: &Vec<char>) -> (r: Option<(usize, usize)>)
    ensures
        match r {
            Some(p) => roots_span(v@) == Some((p.0 as int, p.1 as int)) && p.0 <= p.1 < v@.len(),
            None => roots_span(v@) is None,
        },
{
    let needle = chars_of(ROOTS);
    match find_from(v, &needle, 0) {
        Some(start) => {
            proof {
                assert(start + needle.len() <= v.len());
            }
            let from: usize = start + needle.len();
            match find_char_from(v, ']', from) {
                Some(end) => Some((from, end)),
                None => None,
            }
        },
        None => None,
    }
}

/// The first `n` pieces, without white space at their ends.
pub open spec fn trimmed_upto(parts: Seq<Seq<char>>, n: nat) -> Seq<Seq<char>>
    decreases n,
{
    if n == 0 {
        Seq::empty()
    } else {
        trimmed_upto(parts, (n - 1) as nat).push(trim_text(parts[n - 1]))
    }
}

/// The entries of a list: none where it is blank.
pub open spec fn root_entries(inner: Seq<char>) -> Seq<Seq<char>> {
    let t = trim_text(inner);
    if t.len() == 0 {
        Seq::empty()
    } else {
        trimmed_upto(split_text(t, ','), split_text(t, ',').len())
    }
}

fn read_entries(inner: &str) -> (r: Vec<String>)
    ensures
        texts(r@) == root_entries(inner@),
{
    let t = trim(inner);
    if t.as_str().is_empty() {
        return Vec::new();
    }
    let parts = split(&t, ',');
    let mut out: Vec<String> = Vec::new();
    for i in 0..parts.len()
        invariant
            texts(out@) == trimmed_upto(texts(parts@), i as nat),
    {
        out.push(trim(&parts[i]));
    }
    out
}

/// The text with other entries in the list of roots.
pub open spec fn with_roots(s: Seq<char>, span: (int, int), entries: Seq<Seq<char>>) -> Seq<char> {
    s.subrange(0, span.0) + join_text(entries, ", "@) + s.subrange(span.1, s.len() as int)
}

fn write_roots(v: &Vec<char>, from: usize, to: usize, entries: &Vec<String>) -> (r: String)
    requires
        from <= to <= v@.len(),
    ensures
        r@ == with_roots(v@, (from as int, to as int), texts(entries@)),
{
    let mut out = slice_text(v, 0, from);
    let joined = join(entries, ", ");
    out.push_str(&joined);
    let rest = slice_text(v, to, v.len());
    out.push_str(&rest);
    out
}

/// Whether one of the first `n` modules, behind a backtick, is the entry.
pub open spec fn names_root(modules: Seq<Seq<char>>, entry: Seq<char>, n: nat) -> bool
    decreases n,
{
    if n == 0 {
        false
    } else {
        names_root(modules, entry, (n - 1) as nat) || entry == "`"@ + modules[n - 1]
    }
}

fn root_named(modules: &Vec<String>, entry: &str) -> (r: bool)
    ensures
        r == names_root(texts(modules@), entry@, modules@.len()),
{
    let mut found: bool = false;
    for i in 0..modules.len()
        invariant
            found == names_root(texts(modules@), entry@, i as nat),
    {
        let mut root = "`".to_owned();
        root.push_str(&modules[i]);
        if same(entry, &root) {
            found = true;
        }
    }
    found
}

/// The entries among the first `n` that name none of the modules.
pub open spec fn retained(entries: Seq<Seq<char>>, modules: Seq<Seq<char>>, n: nat) -> Seq<Seq<char>>
    decreases n,
{
    if n == 0 {
        Seq::empty()
    } else {
        let before = retained(entries, modules, (n - 1) as nat);
        if names_root(modules, entries[n - 1], modules.len()) {
            before
        } else {
            before.push(entries[n - 1])
        }
    }
}

/// The lakefile without the modules among its roots; as it is where none of
/// them is a root.
pub open spec fn without_modules(s: Seq<char>, modules: Seq<Seq<char>>) -> Seq<char> {
    match roots_span(s) {
        Some(span) => {
            let entries = root_entries(s.subrange(span.0, span.1));
            let kept = retained(entries, modules, entries.len());
            if kept.len() == entries.len() {
                s
            } else {
                with_roots(s, span, kept)
            }
        },
        None => s,
    }
}

/// Takes modules out of the roots of a lakefile.
pub fn remove_lakefile_roots(original: &str, modules: &Vec<String>) -> (r: String)
    ensures
        r@ == without_modules(original@, texts(modules@)),
{
    let v = chars_of(original);
    match find_roots(&v) {
        Some((from, to)) => {
            let entries = read_entries(&slice_text(&v, from, to));
            let mut kept: Vec<String> = Vec::new();
            for i in 0..entries.len()
                invariant
                    texts(kept@) == retained(texts(entries@), texts(modules@), i as nat),
            {
                if !root_named(modules, &entries[i]) {
                    kept.push(entries[i].clone());
                }
            }
            if kept.len() == entries.len() {
                return original.to_owned();
            }
            write_roots(&v, from, to, &kept)
        },
        None => original.to_owned(),
    }
}

/// Whether one of the entries is `t`, white space aside.
pub open spec fn has_root(entries: Seq<Seq<char>>, t: Seq<char>, n: nat) -> bool
    decreases n,
{
    if n == 0 {
        false
    } else {
        has_root(entries, t, (n - 1) as nat) || trim_text(entries[n - 1]) == t
    }
}

fn root_listed(entries: &Vec<String>, t: &str) -> (r: bool)
    ensures
        r == has_root(texts(entries@), t@, entries@.len()),
{
    let mut found: bool = false;
    for i in 0..entries.len()
        invariant
            found == has_root(texts(entries@), t@, i as nat),
    {
        let e = trim(&entries[i]);
        if same(&e, t) {
            found = true;
        }
    }
    found
}

/// With those of the first `n` roots that are not listed yet.
pub open spec fn with_new_roots(entries: Seq<Seq<char>>, roots: Seq<Seq<char>>, n: nat) -> Seq<
    Seq<char>,
>
    decreases n,
{
    if n == 0 {
        entries
    } else {
        let before = with_new_roots(entries, roots, (n - 1) as nat);
        if has_root(before, roots[n - 1], before.len()) {
            before
        } else {
            before.push(roots[n - 1])
        }
    }
}

/// The roots for the modules of interfaces.
pub open spec fn module_roots(pinned: Seq<Seq<char>>) -> Seq<Seq<char>> {
    pinned.map_values(|name: Seq<char>| "`"@ + module_text(name))
}

/// The lakefile with more roots; as it is where it lists them all, or where it
/// has no list of roots.
pub open spec fn with_listed(s: Seq<char>, roots: Seq<Seq<char>>) -> Seq<char> {
    match roots_span(s) {
        Some(span) => {
            let entries = root_entries(s.subrange(span.0, span.1));
            let all = with_new_roots(entries, roots, roots.len());
            if all.len() == entries.len() {
                s
            } else {
                with_roots(s, span, all)
            }
        },
        None => s,
    }
}

/// Adds the modules of interfaces to the roots of a lakefile.
pub fn update_lakefile_roots(original: &str, pinned: &Vec<String>) -> (r: String)
    ensures
        r@ == with_listed(original@, module_roots(texts(pinned@))),
{
    let v = chars_of(original);
    match find_roots(&v) {
        Some((from, to)) => {
            let mut entries = read_entries(&slice_text(&v, from, to));
            let before: usize = entries.len();
            let ghost first = texts(entries@);
            let ghost roots = module_roots(texts(pinned@));
            for i in 0..pinned.len()
                invariant
                    roots == module_roots(texts(pinned@)),
                    texts(entries@) == with_new_roots(first, roots, i as nat),
            {
                let m = safe_module_name(&pinned[i]);
                let mut root = "`".to_owned();
                root.push_str(&m);
                if !root_listed(&entries, &root) {
                    entries.push(root);
                }
            }
            if entries.len() == before {
                return original.to_owned();
            }
            write_roots(&v, from, to, &entries)
        },
        None => original.to_owned(),
    }
}

// ---------------------------------------------------------------------------
// Packages
// ---------------------------------------------------------------------------

/// What a directive for a proof package starts with.
pub const REQUIRE_NOTE: &'static str = "-- v2.27 Track B: verified-callee proof package (Stance 2).\nrequire ";

/// The directive that requires a package. Its path has forward slashes.
pub open spec fn directive(pkg: Seq<char>, path: Seq<char>) -> Seq<char> {
    REQUIRE_NOTE@ + pkg + " from \""@ + replaced(path, "\\"@, "/"@) + "\"\n"@
}

/// What shows that a package is required.
pub open spec fn required(pkg: Seq<char>) -> Seq<char> {
    "require "@ + pkg + " from"@
}

/// The directives for those of the first `n` packages that the lakefile does
/// not require yet, each given with its path.
pub open spec fn new_requires(s: Seq<char>, pkgs: Seq<(Seq<char>, Seq<char>)>, n: nat) -> Seq<char>
    decreases n,
{
    if n == 0 {
        Seq::empty()
    } else {
        new_requires(s, pkgs, (n - 1) as nat) + (if contains_text(s, required(pkgs[n - 1].0)) {
            Seq::empty()
        } else {
            directive(pkgs[n - 1].0, pkgs[n - 1].1)
        })
    }
}

/// Where directives are put in: behind the line that names the package.
pub open spec fn package_line_end(s: Seq<char>) -> Option<int> {
    match first_at(s, "package "@, 0) {
        Some(start) => Some(
            match char_at_or_after(s, '\n', start) {
                Some(i) => i + 1,
                None => s.len() as int,
            },
        ),
        None => None,
    }
}

/// The lakefile with the directives for packages: behind the line that names
/// the package, or else at its end.
pub open spec fn with_packages(s: Seq<char>, pkgs: Seq<(Seq<char>, Seq<char>)>) -> Seq<char> {
    let added = new_requires(s, pkgs, pkgs.len());
    if added.len() == 0 {
        s
    } else {
        match package_line_end(s) {
            Some(end) => s.subrange(0, end) + ("\n"@ + added) + s.subrange(end, s.len() as int),
            None => s + (if ends_with_text(s, "\n"@) {
                Seq::empty()
            } else {
                "\n"@
            }) + added,
        }
    }
}

/// The proof packages of interfaces, each with its path.
pub open spec fn packages_of(verified: Seq<(String, String)>) -> Seq<(Seq<char>, Seq<char>)> {
    verified.map_values(|e: (String, String)| (package_text(e.0@), e.1@))
}

/// Adds the directives for the proof packages of verified interfaces, each
/// given with the path of its package.
pub fn inject_verified_callee_requires(original: &str, verified: &Vec<(String, String)>) -> (r:
    String)
    ensures
        r@ == with_packages(original@, packages_of(verified@)),
{
    proof {
        reveal_strlit("\\");
    }
    let ghost pkgs = packages_of(verified@);
    let mut added = String::new();
    for i in 0..verified.len()
        invariant
            "\\"@.len() == 1,
            pkgs == packages_of(verified@),
            added@ == new_requires(original@, pkgs, i as nat),
    {
        let pkg = proof_pkg_name(&verified[i].0);
        let mut needle = "require ".to_owned();
        needle.push_str(&pkg);
        needle.push_str(" from");
        if !contains(original, &needle) {
            let path = replace(&verified[i].1, "\\", "/");
            added.push_str(REQUIRE_NOTE);
            added.push_str(&pkg);
            added.push_str(" from \"");
            added.push_str(&path);
            added.push_str("\"\n");
        }
    }
    if added.as_str().is_empty() {
        return original.to_owned();
    }
    let v = chars_of(original);
    let needle = chars_of("package ");
    match find_from(&v, &needle, 0) {
        Some(start) => {
            let end: usize = match find_char_from(&v, '\n', start) {
                Some(i) => i + 1,
                None => v.len(),
            };
            let mut out = slice_text(&v, 0, end);
            out.push_str("\n");
            out.push_str(&added);
            let rest = slice_text(&v, end, v.len());
            out.push_str(&rest);
            out
        },
        None => {
            let mut out = original.to_owned();
            if !ends_with(original, "\n") {
                out.push_str("\n");
            }
            out.push_str(&added);
            out
        },
    }
}

// ---------------------------------------------------------------------------
// The whole file
// ---------------------------------------------------------------------------

/// The lakefile after the plan: without the stale roots, with the new ones, and
/// with the packages, each given with its path.
pub open spec fn reconciled(s: Seq<char>, plan: SidecarPlan, packages: Seq<(String, String)>) -> Seq<
    char,
> {
    with_packages(
        with_listed(without_modules(s, texts(plan.stale_roots@)), module_roots(texts(plan.roots@))),
        packages_of(packages),
    )
}

/// Brings a lakefile in line with the plan.
pub fn reconcile_lakefile(original: &str, plan: &SidecarPlan, packages: &Vec<(String, String)>) -> (r:
    String)
    ensures
        r@ == reconciled(original@, *plan, packages@),
{
    let a = remove_lakefile_roots(original, &plan.stale_roots);
    let b = update_lakefile_roots(&a, &plan.roots);
    inject_verified_callee_requires(&b, packages)
}

// ---------------------------------------------------------------------------
// Laws
// ---------------------------------------------------------------------------

/// What stands in `b` stands in `a + b + c`.
proof fn lemma_contains_middle(a: Seq<char>, b: Seq<char>, c: Seq<char>, t: Seq<char>)
    requires
        contains_text(b, t),
    ensures
        contains_text(a + b + c, t),
{
    let i = choose|i: int| matches_at(b, t, i);
    assert((a + b + c).subrange(a.len() + i, a.len() + i + t.len()) =~= b.subrange(i, i + t.len()));
    assert(matches_at(a + b + c, t, a.len() + i));
}

/// What stands in a text without a line feed still stands there when something
/// is put in at the start of a line or at the end.
proof fn lemma_contains_across(s: Seq<char>, at: int, added: Seq<char>, t: Seq<char>)
    requires
        contains_text(s, t),
        0 <= at <= s.len(),
        at == 0 || at == s.len() || s[at - 1] == '\n',
        !t.contains('\n'),
    ensures
        contains_text(s.subrange(0, at) + added + s.subrange(at, s.len() as int), t),
{
    let i = choose|i: int| matches_at(s, t, i);
    let r = s.subrange(0, at) + added + s.subrange(at, s.len() as int);
    if i + t.len() <= at {
        assert(r.subrange(i, i + t.len()) =~= s.subrange(i, i + t.len()));
        assert(matches_at(r, t, i));
    } else if i >= at {
        let k = i + added.len();
        assert(r.subrange(k, k + t.len()) =~= s.subrange(i, i + t.len()));
        assert(matches_at(r, t, k));
    } else {
        assert(s.subrange(i, i + t.len())[at - 1 - i] == s[at - 1]);
        assert(t[at - 1 - i] == '\n');
    }
}

proof fn lemma_required(s: Seq<char>, pkgs: Seq<(Seq<char>, Seq<char>)>, n: nat, k: int)
    requires
        0 <= k < n <= pkgs.len(),
        !contains_text(s, required(pkgs[k].0)),
    ensures
        contains_text(new_requires(s, pkgs, n), required(pkgs[k].0)),
    decreases n,
{
    let t = required(pkgs[k].0);
    let before = new_requires(s, pkgs, (n - 1) as nat);
    let own = if contains_text(s, required(pkgs[n - 1].0)) {
        Seq::empty()
    } else {
        directive(pkgs[n - 1].0, pkgs[n - 1].1)
    };
    if k < n - 1 {
        lemma_required(s, pkgs, (n - 1) as nat, k);
        lemma_contains_middle(Seq::empty(), before, own, t);
    } else {
        reveal_strlit("require ");
        reveal_strlit(" from");
        reveal_strlit(" from \"");
        reveal_strlit(
            "-- v2.27 Track B: verified-callee proof package (Stance 2).\nrequire ",
        );
        let from = REQUIRE_NOTE@.len() - 8;
        assert(own.subrange(from, from + t.len()) =~= t);
        assert(matches_at(own, t, from));
        lemma_contains_middle(before, own, Seq::empty(), t);
    }
    assert(new_requires(s, pkgs, n) == before + own);
}

proof fn lemma_no_requires(s: Seq<char>, pkgs: Seq<(Seq<char>, Seq<char>)>, n: nat)
    requires
        n <= pkgs.len(),
        forall|k: int|
            0 <= k < pkgs.len() ==> contains_text(s, required((#[trigger] pkgs[k]).0)),
    ensures
        new_requires(s, pkgs, n).len() == 0,
    decreases n,
{
    if n > 0 {
        lemma_no_requires(s, pkgs, (n - 1) as nat);
        assert(contains_text(s, required(pkgs[n - 1].0)));
    }
}

/// Requiring packages a second time changes nothing.
pub proof fn requiring_is_idempotent(s: Seq<char>, pkgs: Seq<(Seq<char>, Seq<char>)>)
    requires
        forall|k: int| 0 <= k < pkgs.len() ==> !(#[trigger] pkgs[k]).0.contains('\n'),
    ensures
        with_packages(with_packages(s, pkgs), pkgs) == with_packages(s, pkgs),
{
    let out = with_packages(s, pkgs);
    let added = new_requires(s, pkgs, pkgs.len());
    if added.len() > 0 {
        lemma_first_at(s, "package "@, 0);
        assert forall|k: int| 0 <= k < pkgs.len() implies contains_text(
            out,
            required((#[trigger] pkgs[k]).0),
        ) by {
            let t = required(pkgs[k].0);
            assert(!t.contains('\n')) by {
                reveal_strlit("require ");
                reveal_strlit(" from");
                assert(!pkgs[k].0.contains('\n'));
                if t.contains('\n') {
                    let i = choose|i: int| 0 <= i < t.len() && t[i] == '\n';
                    if 8 <= i < 8 + pkgs[k].0.len() {
                        assert(pkgs[k].0[i - 8] == '\n');
                    }
                }
            }
            match package_line_end(s) {
                Some(end) => {
                    lemma_char_at_or_after(s, '\n', first_at(s, "package "@, 0)->0);
                    if contains_text(s, t) {
                        lemma_contains_across(s, end, "\n"@ + added, t);
                    } else {
                        lemma_required(s, pkgs, pkgs.len(), k);
                        lemma_contains_middle(
                            s.subrange(0, end) + "\n"@,
                            added,
                            s.subrange(end, s.len() as int),
                            t,
                        );
                    }
                },
                None => {
                    let gap = if ends_with_text(s, "\n"@) {
                        Seq::empty()
                    } else {
                        "\n"@
                    };
                    if contains_text(s, t) {
                        lemma_contains_middle(Seq::empty(), s, gap + added, t);
                    } else {
                        lemma_required(s, pkgs, pkgs.len(), k);
                        lemma_contains_middle(s + gap, added, Seq::empty(), t);
                    }
                },
            }
        }
        lemma_no_requires(out, pkgs, pkgs.len());
    }
}

/// Neither starts nor ends with white space.
pub open spec fn is_trimmed(e: Seq<char>) -> bool {
    e.len() > 0 ==> !is_space(e[0]) && !is_space(e.last())
}

/// An entry that a list can hold: trimmed, without a comma or a bracket.
pub open spec fn is_entry(e: Seq<char>) -> bool {
    is_trimmed(e) && !e.contains(',') && !e.contains(']')
}

pub open spec fn all_entries(es: Seq<Seq<char>>) -> bool {
    forall|i: int| 0 <= i < es.len() ==> is_entry(#[trigger] es[i])
}

proof fn lemma_trim_start(s: Seq<char>)
    ensures
        trim_start_text(s).len() <= s.len(),
        trim_start_text(s) == s.subrange(s.len() - trim_start_text(s).len(), s.len() as int),
        trim_start_text(s).len() > 0 ==> !is_space(trim_start_text(s)[0]),
    decreases s.len(),
{
    if s.len() > 0 && is_space(s[0]) {
        lemma_trim_start(s.drop_first());
        let t = trim_start_text(s.drop_first());
        assert(s.subrange(s.len() - t.len(), s.len() as int) =~= s.drop_first().subrange(
            s.len() - 1 - t.len(),
            s.len() - 1,
        ));
    } else {
        assert(s =~= s.subrange(0, s.len() as int));
    }
}

proof fn lemma_trim_end(s: Seq<char>)
    ensures
        trim_end_text(s).len() <= s.len(),
        trim_end_text(s) == s.subrange(0, trim_end_text(s).len() as int),
        trim_end_text(s).len() > 0 ==> !is_space(trim_end_text(s).last()),
    decreases s.len(),
{
    if s.len() > 0 && is_space(s.last()) {
        lemma_trim_end(s.drop_last());
        let t = trim_end_text(s.drop_last());
        assert(s.subrange(0, t.len() as int) =~= s.drop_last().subrange(0, t.len() as int));
    } else {
        assert(s =~= s.subrange(0, s.len() as int));
    }
}

/// A trimmed text is a part of the text, and trimmed.
proof fn lemma_trim(s: Seq<char>)
    ensures
        is_trimmed(trim_text(s)),
        forall|c: char| trim_text(s).contains(c) ==> s.contains(c),
{
    let a = trim_start_text(s);
    let b = trim_text(s);
    lemma_trim_start(s);
    lemma_trim_end(a);
    if b.len() > 0 {
        assert(b[0] == a[0]);
    }
    assert forall|c: char| b.contains(c) implies s.contains(c) by {
        let i = choose|i: int| 0 <= i < b.len() && b[i] == c;
        assert(s[s.len() - a.len() + i] == a[i]);
        assert(a[i] == b[i]);
    }
}

proof fn lemma_trim_fixed(s: Seq<char>)
    requires
        is_trimmed(s),
    ensures
        trim_text(s) == s,
{
    assert(trim_start_text(s) == s);
}

/// A space before a trimmed text is trimmed away.
proof fn lemma_trim_space(s: Seq<char>)
    requires
        is_trimmed(s),
    ensures
        trim_text(seq![' '] + s) == s,
{
    let t = seq![' '] + s;
    assert(t.drop_first() =~= s);
    assert(t[0] == ' ');
    assert(is_space(' '));
    assert(trim_start_text(t) == trim_start_text(s));
    lemma_trim_fixed(s);
}

/// The parts of a text with a separator between them, from the front.
proof fn lemma_join_front(parts: Seq<Seq<char>>, sep: Seq<char>)
    requires
        parts.len() >= 2,
    ensures
        join_text(parts, sep) == parts[0] + sep + join_text(parts.drop_first(), sep),
    decreases parts.len(),
{
    let front = parts.drop_last();
    if parts.len() == 2 {
        let rest = parts.drop_first();
        assert(front.len() == 1 && front[0] == parts[0]);
        assert(rest.len() == 1 && rest[0] == parts[1]);
        assert(join_text(rest, sep) == parts[1]);
        assert(join_text(front, sep) == parts[0]);
        assert(join_text(parts, sep) == join_text(front, sep) + sep + parts.last());
    } else {
        let rest = parts.drop_first();
        lemma_join_front(front, sep);
        assert(rest.drop_last() =~= front.drop_first());
        assert(rest.last() == parts.last());
        assert(join_text(rest, sep) == join_text(rest.drop_last(), sep) + sep + rest.last());
    }
}

/// Splitting undoes joining.
proof fn lemma_split_join(s: Seq<char>, c: char, pos: int, parts: Seq<Seq<char>>)
    requires
        0 <= pos <= s.len(),
        parts.len() > 0,
        s.subrange(pos, s.len() as int) == join_text(parts, seq![c]),
        forall|i: int| 0 <= i < parts.len() ==> !(#[trigger] parts[i]).contains(c),
    ensures
        split_from(s, c, pos) == parts,
    decreases parts.len(),
{
    let rest = s.subrange(pos, s.len() as int);
    lemma_char_at_or_after(s, c, pos);
    assert(!parts[0].contains(c));
    if parts.len() == 1 {
        if let Some(i) = char_at_or_after(s, c, pos) {
            assert(rest[i - pos] == c);
            assert(parts[0].contains(c));
        }
        assert(split_from(s, c, pos) =~= parts);
    } else {
        lemma_join_front(parts, seq![c]);
        let p = parts[0];
        let after = join_text(parts.drop_first(), seq![c]);
        assert(rest == p + seq![c] + after);
        assert(rest[p.len() as int] == c);
        assert(s[pos + p.len()] == c);
        let i = char_at_or_after(s, c, pos)->0;
        if i < pos + p.len() {
            assert(rest[i - pos] == p[i - pos]);
            assert(p.contains(c));
        }
        assert(i == pos + p.len());
        assert(s.subrange(pos, i) =~= p) by {
            assert(rest.subrange(0, p.len() as int) =~= p);
            assert(s.subrange(pos, i) =~= rest.subrange(0, p.len() as int));
        }
        assert(s.subrange(i + 1, s.len() as int) =~= after) by {
            assert(rest.subrange((p.len() + 1) as int, rest.len() as int) =~= after);
            assert(s.subrange(i + 1, s.len() as int) =~= rest.subrange(
                (p.len() + 1) as int,
                rest.len() as int,
            ));
        }
        assert forall|k: int| 0 <= k < parts.drop_first().len() implies !(
        #[trigger] parts.drop_first()[k]).contains(c) by {
            assert(!parts[k + 1].contains(c));
        }
        lemma_split_join(s, c, i + 1, parts.drop_first());
        assert(seq![p] + parts.drop_first() =~= parts);
    }
}

/// The entries as they stand between commas: a space before each but the first.
spec fn spaced(es: Seq<Seq<char>>) -> Seq<Seq<char>> {
    Seq::new(
        es.len(),
        |i: int|
            if i == 0 {
                es[i]
            } else {
                seq![' '] + es[i]
            },
    )
}

proof fn lemma_spaced(es: Seq<Seq<char>>)
    ensures
        join_text(es, ", "@) == join_text(spaced(es), seq![',']),
    decreases es.len(),
{
    if es.len() > 1 {
        let front = es.drop_last();
        lemma_spaced(front);
        assert(spaced(es).drop_last() =~= spaced(front));
        assert(spaced(es).last() == seq![' '] + es.last());
        reveal_strlit(", ");
        assert(", "@ =~= seq![','] + seq![' ']);
    } else if es.len() == 1 {
        assert(spaced(es)[0] == es[0]);
    }
}

proof fn lemma_join_last(es: Seq<Seq<char>>, sep: Seq<char>)
    requires
        es.len() > 0,
        es.last().len() > 0,
    ensures
        join_text(es, sep).len() > 0,
        join_text(es, sep).last() == es.last().last(),
{
}

proof fn lemma_join_first(es: Seq<Seq<char>>, sep: Seq<char>)
    requires
        es.len() > 0,
        es[0].len() + sep.len() > 0,
        es[0].len() > 0 || es.len() > 1,
    ensures
        join_text(es, sep).len() > 0,
        join_text(es, sep)[0] == (es[0] + sep)[0],
{
    if es.len() > 1 {
        lemma_join_front(es, sep);
    }
}

proof fn lemma_trimmed_upto(parts: Seq<Seq<char>>, es: Seq<Seq<char>>, n: nat)
    requires
        n <= parts.len(),
        parts.len() == es.len(),
        forall|i: int| 0 <= i < parts.len() ==> trim_text(#[trigger] parts[i]) == es[i],
    ensures
        trimmed_upto(parts, n) == es.take(n as int),
    decreases n,
{
    if n > 0 {
        lemma_trimmed_upto(parts, es, (n - 1) as nat);
        assert(es.take(n as int) =~= es.take(n - 1).push(es[n - 1]));
        assert(trim_text(parts[n - 1]) == es[n - 1]);
    } else {
        assert(es.take(0) =~= Seq::empty());
    }
}

/// Reading a list gives back the entries that were written; a single blank
/// entry is read as none.
pub proof fn entries_read_back(es: Seq<Seq<char>>)
    requires
        all_entries(es),
    ensures
        root_entries(join_text(es, ", "@)) == if es.len() == 1 && es[0].len() == 0 {
            Seq::empty()
        } else {
            es
        },
{
    let j = join_text(es, ", "@);
    if es.len() == 0 {
        assert(trim_text(j) == j);
        assert(es =~= Seq::empty());
    } else if es.len() == 1 {
        assert(is_entry(es[0]));
        lemma_trim_fixed(es[0]);
        if es[0].len() > 0 {
            assert(j.subrange(0, j.len() as int) =~= j);
            lemma_split_join(j, ',', 0, es);
            lemma_trimmed_upto(es, es, 1);
            assert(es.take(1) =~= es);
        }
    } else {
        reveal_strlit(", ");
        assert(is_entry(es[0]) && is_entry(es.last()));
        lemma_join_first(es, ", "@);
        assert(!is_space(','));
        assert(!is_space(j[0]));
        assert(trim_start_text(j) == j);
        lemma_spaced(es);
        let ps = spaced(es);
        if es.last().len() > 0 {
            lemma_join_last(es, ", "@);
            assert(trim_text(j) == j);
            assert(j.subrange(0, j.len() as int) =~= j);
            assert forall|i: int| 0 <= i < ps.len() implies !(#[trigger] ps[i]).contains(',') by {
                lemma_no_comma(es, i);
            }
            lemma_split_join(j, ',', 0, ps);
            assert forall|i: int| 0 <= i < ps.len() implies trim_text(#[trigger] ps[i])
                == es[i] by {
                lemma_entry_trims(es, i);
            }
            lemma_trimmed_upto(ps, es, es.len());
            assert(es.take(es.len() as int) =~= es);
        } else {
            let front = ps.drop_last();
            let qs = front.push(Seq::empty());
            let t = join_text(qs, seq![',']);
            join_text_push(front, seq![','], Seq::empty());
            assert(ps.last() =~= seq![' ']);
            assert(j == join_text(front, seq![',']) + seq![','] + seq![' ']);
            assert(t == join_text(front, seq![',']) + seq![',']);
            assert(j.last() == ' ');
            assert(is_space(' '));
            assert(j.drop_last() =~= t);
            assert(t.last() == ',');
            assert(trim_end_text(t) == t);
            assert(trim_end_text(j) == trim_end_text(j.drop_last()));
            assert(trim_text(j) == t);
            assert(t.subrange(0, t.len() as int) =~= t);
            assert forall|i: int| 0 <= i < qs.len() implies !(#[trigger] qs[i]).contains(',') by {
                if i < qs.len() - 1 {
                    assert(qs[i] == ps[i]);
                    lemma_no_comma(es, i);
                }
            }
            lemma_split_join(t, ',', 0, qs);
            assert forall|i: int| 0 <= i < qs.len() implies trim_text(#[trigger] qs[i])
                == es[i] by {
                if i < qs.len() - 1 {
                    assert(qs[i] == ps[i]);
                    lemma_entry_trims(es, i);
                } else {
                    assert(es[i] =~= Seq::empty());
                    lemma_trim_fixed(Seq::empty());
                }
            }
            lemma_trimmed_upto(qs, es, es.len());
            assert(es.take(es.len() as int) =~= es);
        }
    }
}

proof fn lemma_no_comma(es: Seq<Seq<char>>, i: int)
    requires
        all_entries(es),
        0 <= i < es.len(),
    ensures
        !spaced(es)[i].contains(','),
{
    assert(is_entry(es[i]));
    let p = spaced(es)[i];
    if i > 0 && p.contains(',') {
        let k = choose|k: int| 0 <= k < p.len() && p[k] == ',';
        assert(es[i][k - 1] == ',');
    }
}

proof fn lemma_entry_trims(es: Seq<Seq<char>>, i: int)
    requires
        all_entries(es),
        0 <= i < es.len(),
    ensures
        trim_text(spaced(es)[i]) == es[i],
{
    assert(is_entry(es[i]));
    if i == 0 {
        lemma_trim_fixed(es[0]);
    } else {
        lemma_trim_space(es[i]);
    }
}

/// The pieces of a text hold no separator, and nothing that the text does not
/// hold.
proof fn lemma_split_pieces(s: Seq<char>, c: char, pos: int)
    requires
        0 <= pos <= s.len(),
    ensures
        split_from(s, c, pos).len() > 0,
        forall|i: int|
            0 <= i < split_from(s, c, pos).len() ==> !(#[trigger] split_from(s, c, pos)[i]).contains(
                c,
            ) && (forall|d: char| split_from(s, c, pos)[i].contains(d) ==> s.contains(d)),
    decreases s.len() - pos,
{
    lemma_char_at_or_after(s, c, pos);
    let all = split_from(s, c, pos);
    let end = match char_at_or_after(s, c, pos) {
        Some(i) => i,
        None => s.len() as int,
    };
    let p = s.subrange(pos, end);
    assert(!p.contains(c)) by {
        if p.contains(c) {
            let k = choose|k: int| 0 <= k < p.len() && p[k] == c;
            assert(s[pos + k] == c);
        }
    }
    assert forall|d: char| p.contains(d) implies s.contains(d) by {
        let k = choose|k: int| 0 <= k < p.len() && p[k] == d;
        assert(s[pos + k] == d);
    }
    if let Some(i) = char_at_or_after(s, c, pos) {
        lemma_split_pieces(s, c, i + 1);
        let rest = split_from(s, c, i + 1);
        assert(all == seq![p] + rest);
        assert forall|k: int| 0 <= k < all.len() implies !(#[trigger] all[k]).contains(c) && (
        forall|d: char| all[k].contains(d) ==> s.contains(d)) by {
            if k > 0 {
                assert(all[k] == rest[k - 1]);
            }
        }
    }
}

proof fn lemma_trimmed_index(parts: Seq<Seq<char>>, n: nat)
    requires
        n <= parts.len(),
    ensures
        trimmed_upto(parts, n).len() == n,
        forall|i: int| 0 <= i < n ==> #[trigger] trimmed_upto(parts, n)[i] == trim_text(parts[i]),
    decreases n,
{
    if n > 0 {
        lemma_trimmed_index(parts, (n - 1) as nat);
    }
}

/// What is read from a list are entries.
proof fn lemma_read_entries(inner: Seq<char>)
    requires
        !inner.contains(']'),
    ensures
        all_entries(root_entries(inner)),
{
    let t = trim_text(inner);
    let parts = split_text(t, ',');
    lemma_trim(inner);
    if t.len() > 0 {
        lemma_split_pieces(t, ',', 0);
        lemma_trimmed_index(parts, parts.len());
        assert forall|i: int| 0 <= i < root_entries(inner).len() implies is_entry(
            #[trigger] root_entries(inner)[i],
        ) by {
            lemma_trim(parts[i]);
            assert(!parts[i].contains(','));
            if parts[i].contains(']') {
                assert(t.contains(']'));
            }
        }
    }
}

proof fn lemma_join_has(es: Seq<Seq<char>>, sep: Seq<char>, c: char)
    requires
        forall|i: int| 0 <= i < es.len() ==> !(#[trigger] es[i]).contains(c),
        !sep.contains(c),
    ensures
        !join_text(es, sep).contains(c),
    decreases es.len(),
{
    let j = join_text(es, sep);
    if es.len() == 1 {
        assert(!es[0].contains(c));
    } else if es.len() > 1 {
        let front = es.drop_last();
        assert forall|i: int| 0 <= i < front.len() implies !(#[trigger] front[i]).contains(c) by {
            assert(!es[i].contains(c));
        }
        lemma_join_has(front, sep, c);
        let a = join_text(front, sep);
        assert(!es[es.len() - 1].contains(c));
        if j.contains(c) {
            let k = choose|k: int| 0 <= k < j.len() && j[k] == c;
            if k < a.len() {
                assert(a[k] == c);
            } else if k < a.len() + sep.len() {
                assert(sep[k - a.len()] == c);
            } else {
                assert(es.last()[k - a.len() - sep.len()] == c);
            }
        }
    }
}

proof fn lemma_span(s: Seq<char>)
    ensures
        match roots_span(s) {
            Some(p) => ROOTS@.len() <= p.0 <= p.1 < s.len() && matches_at(
                s,
                ROOTS@,
                p.0 - ROOTS@.len(),
            ) && s[p.1] == ']' && !s.subrange(p.0, p.1).contains(']'),
            None => true,
        },
{
    lemma_first_at(s, ROOTS@, 0);
    if let Some(start) = first_at(s, ROOTS@, 0) {
        let from = start + ROOTS@.len();
        lemma_char_at_or_after(s, ']', from);
        if let Some(end) = char_at_or_after(s, ']', from) {
            let inner = s.subrange(from, end);
            if inner.contains(']') {
                let k = choose|k: int| 0 <= k < inner.len() && inner[k] == ']';
                assert(s[from + k] == ']');
            }
        }
    }
}

/// The list of a text in which other entries were written.
proof fn lemma_written_span(s: Seq<char>, es: Seq<Seq<char>>)
    requires
        roots_span(s) is Some,
        all_entries(es),
    ensures
        ({
            let span = roots_span(s)->0;
            let j = join_text(es, ", "@);
            let out = with_roots(s, span, es);
            &&& roots_span(out) == Some((span.0, span.0 + j.len()))
            &&& out.subrange(span.0, span.0 + j.len()) == j
            &&& out.subrange(0, span.0) == s.subrange(0, span.0)
            &&& out.subrange(span.0 + j.len(), out.len() as int) == s.subrange(
                span.1,
                s.len() as int,
            )
        }),
{
    let span = roots_span(s)->0;
    let j = join_text(es, ", "@);
    let out = with_roots(s, span, es);
    let start = span.0 - ROOTS@.len();
    lemma_span(s);
    lemma_first_at(s, ROOTS@, 0);
    lemma_first_at(out, ROOTS@, 0);
    assert(out.subrange(start, span.0) =~= s.subrange(start, span.0));
    assert(matches_at(out, ROOTS@, start));
    let found = first_at(out, ROOTS@, 0)->0;
    if found < start {
        assert(out.subrange(found, found + ROOTS@.len()) =~= s.subrange(
            found,
            found + ROOTS@.len(),
        ));
        assert(matches_at(s, ROOTS@, found));
    }
    assert(found == start);
    assert(!j.contains(']')) by {
        reveal_strlit(", ");
        assert forall|i: int| 0 <= i < es.len() implies !(#[trigger] es[i]).contains(']') by {
            assert(is_entry(es[i]));
        }
        lemma_join_has(es, ", "@, ']');
    }
    lemma_char_at_or_after(out, ']', span.0);
    assert(out[span.0 + j.len()] == s[span.1]);
    let end = char_at_or_after(out, ']', span.0)->0;
    if end < span.0 + j.len() {
        assert(out[end] == j[end - span.0]);
    }
    assert(out.subrange(span.0, span.0 + j.len()) =~= j);
    assert(out.subrange(0, span.0) =~= s.subrange(0, span.0));
    assert(out.subrange(span.0 + j.len(), out.len() as int) =~= s.subrange(
        span.1,
        s.len() as int,
    ));
}

proof fn lemma_retained(es: Seq<Seq<char>>, modules: Seq<Seq<char>>, n: nat)
    requires
        n <= es.len(),
    ensures
        retained(es, modules, n).len() <= n,
        all_entries(es) ==> all_entries(retained(es, modules, n)),
        forall|i: int|
            0 <= i < retained(es, modules, n).len() ==> !names_root(
                modules,
                #[trigger] retained(es, modules, n)[i],
                modules.len(),
            ),
    decreases n,
{
    if n > 0 {
        lemma_retained(es, modules, (n - 1) as nat);
        if all_entries(es) {
            assert(is_entry(es[n - 1]));
        }
    }
}

proof fn lemma_all_retained(es: Seq<Seq<char>>, modules: Seq<Seq<char>>, n: nat)
    requires
        n <= es.len(),
        forall|i: int|
            0 <= i < es.len() ==> !names_root(modules, #[trigger] es[i], modules.len()),
    ensures
        retained(es, modules, n).len() == n,
    decreases n,
{
    if n > 0 {
        lemma_all_retained(es, modules, (n - 1) as nat);
        assert(!names_root(modules, es[n - 1], modules.len()));
    }
}

/// Taking modules out of the roots a second time changes nothing.
pub proof fn removing_is_idempotent(s: Seq<char>, modules: Seq<Seq<char>>)
    ensures
        without_modules(without_modules(s, modules), modules) == without_modules(s, modules),
{
    if let Some(span) = roots_span(s) {
        let es = root_entries(s.subrange(span.0, span.1));
        let kept = retained(es, modules, es.len());
        if kept.len() != es.len() {
            lemma_span(s);
            lemma_read_entries(s.subrange(span.0, span.1));
            lemma_retained(es, modules, es.len());
            lemma_written_span(s, kept);
            entries_read_back(kept);
            let again = root_entries(join_text(kept, ", "@));
            lemma_all_retained(again, modules, again.len());
        }
    }
}

proof fn lemma_has_root(es: Seq<Seq<char>>, t: Seq<char>, n: nat, k: int)
    requires
        0 <= k < n <= es.len(),
        trim_text(es[k]) == t,
    ensures
        has_root(es, t, n),
    decreases n,
{
    if k < n - 1 {
        lemma_has_root(es, t, (n - 1) as nat, k);
    }
}

proof fn lemma_new_roots(es: Seq<Seq<char>>, roots: Seq<Seq<char>>, n: nat)
    requires
        n <= roots.len(),
    ensures
        es.len() <= with_new_roots(es, roots, n).len(),
        with_new_roots(es, roots, n).take(es.len() as int) == es,
        all_entries(es) && all_entries(roots) ==> all_entries(with_new_roots(es, roots, n)),
        all_entries(roots) ==> forall|k: int|
            0 <= k < n ==> has_root(
                with_new_roots(es, roots, n),
                #[trigger] roots[k],
                with_new_roots(es, roots, n).len(),
            ),
    decreases n,
{
    if n == 0 {
        assert(es.take(es.len() as int) =~= es);
    } else {
        let before = with_new_roots(es, roots, (n - 1) as nat);
        let out = with_new_roots(es, roots, n);
        lemma_new_roots(es, roots, (n - 1) as nat);
        assert(out.take(es.len() as int) =~= before.take(es.len() as int));
        if all_entries(roots) {
            assert(is_entry(roots[n - 1]));
            lemma_trim_fixed(roots[n - 1]);
            assert forall|k: int| 0 <= k < n implies has_root(
                out,
                #[trigger] roots[k],
                out.len(),
            ) by {
                if k < n - 1 {
                    if out != before {
                        lemma_has_root_more(before, roots[k], before.len(), roots[n - 1]);
                    }
                } else if out != before {
                    lemma_has_root(out, roots[k], out.len(), out.len() - 1);
                }
            }
        }
    }
}

proof fn lemma_has_root_more(es: Seq<Seq<char>>, t: Seq<char>, n: nat, e: Seq<char>)
    requires
        n <= es.len(),
        has_root(es, t, n),
    ensures
        has_root(es.push(e), t, es.len() + 1),
    decreases n,
{
    if trim_text(es[n - 1]) == t {
        lemma_has_root(es.push(e), t, es.len() + 1, n - 1);
    } else {
        lemma_has_root_more(es, t, (n - 1) as nat, e);
    }
}

proof fn lemma_nothing_new(es: Seq<Seq<char>>, roots: Seq<Seq<char>>, n: nat)
    requires
        n <= roots.len(),
        forall|k: int| 0 <= k < roots.len() ==> has_root(es, #[trigger] roots[k], es.len()),
    ensures
        with_new_roots(es, roots, n) == es,
    decreases n,
{
    if n > 0 {
        lemma_nothing_new(es, roots, (n - 1) as nat);
        assert(has_root(es, roots[n - 1], es.len()));
    }
}

/// The entries of the list of roots; none where there is no list.
pub open spec fn listed(s: Seq<char>) -> Seq<Seq<char>> {
    match roots_span(s) {
        Some(span) => root_entries(s.subrange(span.0, span.1)),
        None => Seq::empty(),
    }
}

/// What is retained is what was listed and is not named; where nothing was
/// dropped, nothing was named.
proof fn lemma_retained_members(es: Seq<Seq<char>>, modules: Seq<Seq<char>>, n: nat, e: Seq<char>)
    requires
        n <= es.len(),
    ensures
        retained(es, modules, n).contains(e) <==> es.take(n as int).contains(e) && !names_root(
            modules,
            e,
            modules.len(),
        ),
        retained(es, modules, n).len() <= n,
        retained(es, modules, n).len() == n ==> retained(es, modules, n) == es.take(n as int),
    decreases n,
{
    let kept = retained(es, modules, n);
    if n > 0 {
        let before = retained(es, modules, (n - 1) as nat);
        let front = es.take(n - 1);
        lemma_retained_members(es, modules, (n - 1) as nat, e);
        assert(es.take(n as int) =~= front.push(es[n - 1]));
        assert(front.push(es[n - 1]).contains(e) <==> front.contains(e) || es[n - 1] == e) by {
            let all = front.push(es[n - 1]);
            if front.contains(e) {
                let k = choose|k: int| 0 <= k < front.len() && front[k] == e;
                assert(all[k] == e);
            }
            assert(all[n - 1] == es[n - 1]);
        }
        assert(before.push(es[n - 1]).contains(e) <==> before.contains(e) || es[n - 1] == e) by {
            let all = before.push(es[n - 1]);
            if before.contains(e) {
                let k = choose|k: int| 0 <= k < before.len() && before[k] == e;
                assert(all[k] == e);
            }
            assert(all[before.len() as int] == es[n - 1]);
        }
    } else {
        assert(es.take(0) =~= Seq::empty());
    }
}

/// Taking modules out of the roots takes out every root that they name, and no
/// other.
pub proof fn removing_takes_the_named_alone(
    s: Seq<char>,
    modules: Seq<Seq<char>>,
    root: Seq<char>,
)
    requires
        root.len() > 0,
    ensures
        listed(without_modules(s, modules)).contains(root) <==> listed(s).contains(root)
            && !names_root(modules, root, modules.len()),
{
    if let Some(span) = roots_span(s) {
        let es = listed(s);
        let kept = retained(es, modules, es.len());
        lemma_span(s);
        lemma_read_entries(s.subrange(span.0, span.1));
        lemma_retained(es, modules, es.len());
        lemma_retained_members(es, modules, es.len(), root);
        assert(es.take(es.len() as int) =~= es);
        if kept.len() != es.len() {
            lemma_written_span(s, kept);
            entries_read_back(kept);
        }
    }
}

/// What the list reads once roots are added: the entries that it had, and the
/// roots that were missing.
proof fn lemma_listed(s: Seq<char>, roots: Seq<Seq<char>>)
    requires
        roots_span(s) is Some,
        all_entries(roots),
        forall|k: int| 0 <= k < roots.len() ==> (#[trigger] roots[k]).len() > 0,
    ensures
        listed(with_listed(s, roots)) == with_new_roots(listed(s), roots, roots.len()),
        listed(s).len() <= listed(with_listed(s, roots)).len(),
        listed(with_listed(s, roots)).take(listed(s).len() as int) == listed(s),
        forall|k: int|
            0 <= k < roots.len() ==> has_root(
                listed(with_listed(s, roots)),
                #[trigger] roots[k],
                listed(with_listed(s, roots)).len(),
            ),
{
    let span = roots_span(s)->0;
    let es = listed(s);
    let all = with_new_roots(es, roots, roots.len());
    lemma_span(s);
    lemma_read_entries(s.subrange(span.0, span.1));
    lemma_new_roots(es, roots, roots.len());
    if all.len() == es.len() {
        assert(all.take(es.len() as int) =~= all);
    } else {
        lemma_written_span(s, all);
        entries_read_back(all);
        lemma_last_is_root(es, roots, roots.len());
    }
}

proof fn lemma_last_is_root(es: Seq<Seq<char>>, roots: Seq<Seq<char>>, n: nat)
    requires
        n <= roots.len(),
        forall|k: int| 0 <= k < roots.len() ==> (#[trigger] roots[k]).len() > 0,
        with_new_roots(es, roots, n).len() > es.len(),
    ensures
        with_new_roots(es, roots, n).last().len() > 0,
    decreases n,
{
    if n > 0 {
        assert(roots[n - 1].len() > 0);
        let before = with_new_roots(es, roots, (n - 1) as nat);
        lemma_new_roots(es, roots, (n - 1) as nat);
        if before.len() > es.len() {
            lemma_last_is_root(es, roots, (n - 1) as nat);
        }
    }
}

/// Among trimmed entries, a root is listed where an entry reads like it.
proof fn lemma_has_root_is_member(es: Seq<Seq<char>>, t: Seq<char>, n: nat)
    requires
        n <= es.len(),
        all_entries(es),
    ensures
        has_root(es, t, n) <==> es.take(n as int).contains(t),
    decreases n,
{
    if n > 0 {
        lemma_has_root_is_member(es, t, (n - 1) as nat);
        assert(is_entry(es[n - 1]));
        lemma_trim_fixed(es[n - 1]);
        let front = es.take(n - 1);
        let all = es.take(n as int);
        if front.contains(t) {
            let k = choose|k: int| 0 <= k < front.len() && front[k] == t;
            assert(all[k] == t);
        }
        if es[n - 1] == t {
            assert(all[n - 1] == t);
        }
        if all.contains(t) {
            let k = choose|k: int| 0 <= k < all.len() && all[k] == t;
            if k < n - 1 {
                assert(front[k] == t);
            }
        }
    }
}

proof fn lemma_added(es: Seq<Seq<char>>, roots: Seq<Seq<char>>, n: nat)
    requires
        n <= roots.len(),
        all_entries(es),
        all_entries(roots),
    ensures
        forall|j: int|
            es.len() <= j < with_new_roots(es, roots, n).len() ==> roots.contains(
                #[trigger] with_new_roots(es, roots, n)[j],
            ) && !with_new_roots(es, roots, n).take(j).contains(with_new_roots(es, roots, n)[j]),
    decreases n,
{
    if n > 0 {
        let before = with_new_roots(es, roots, (n - 1) as nat);
        let out = with_new_roots(es, roots, n);
        lemma_added(es, roots, (n - 1) as nat);
        lemma_new_roots(es, roots, (n - 1) as nat);
        lemma_has_root_is_member(before, roots[n - 1], before.len());
        assert(before.take(before.len() as int) =~= before);
        assert forall|j: int| es.len() <= j < out.len() implies roots.contains(#[trigger] out[j])
            && !out.take(j).contains(out[j]) by {
            if j < before.len() {
                assert(out[j] == before[j]);
                assert(out.take(j) =~= before.take(j));
            } else {
                assert(out[j] == roots[n - 1]);
                assert(out.take(j) =~= before);
            }
        }
    }
}

proof fn lemma_module_roots(names: Seq<Seq<char>>)
    ensures
        all_entries(module_roots(names)),
        forall|k: int|
            0 <= k < module_roots(names).len() ==> (#[trigger] module_roots(names)[k]).len() > 0,
{
    let roots = module_roots(names);
    reveal_strlit("`");
    assert forall|k: int| 0 <= k < roots.len() implies is_entry(#[trigger] roots[k]) && roots[k].len()
        > 0 by {
        let m = module_text(names[k]);
        let e = roots[k];
        assert(e == "`"@ + m);
        modules_are_plain(names[k]);
        assert(e[0] == '`');
        if m.len() > 0 {
            assert(e.last() == m[m.len() - 1]);
        }
        if e.contains(',') {
            let i = choose|i: int| 0 <= i < e.len() && e[i] == ',';
            assert(e[i] == m[i - 1]);
        }
        if e.contains(']') {
            let i = choose|i: int| 0 <= i < e.len() && e[i] == ']';
            assert(e[i] == m[i - 1]);
        }
    }
}

/// Of a lakefile with a list of roots, the update keeps every entry in its
/// place, lists behind them every module that is missing, once each, and leaves
/// the text outside the list alone. Where nothing is missing, or there is no
/// list, the lakefile stays as it is.
pub proof fn update_lists_every_module(s: Seq<char>, names: Seq<Seq<char>>)
    ensures
        ({
            let roots = module_roots(names);
            let out = with_listed(s, roots);
            let old_len = listed(s).len() as int;
            &&& roots_span(s) is None ==> out == s
            &&& (forall|k: int| 0 <= k < roots.len() ==> listed(s).contains(#[trigger] roots[k]))
                ==> out == s
            &&& roots_span(s) is Some ==> {
                let before = roots_span(s)->0;
                let after = roots_span(out)->0;
                &&& roots_span(out) is Some
                &&& out.subrange(0, after.0) == s.subrange(0, before.0)
                &&& out.subrange(after.1, out.len() as int) == s.subrange(before.1, s.len() as int)
                &&& old_len <= listed(out).len()
                &&& listed(out).take(old_len) == listed(s)
                &&& forall|k: int|
                    0 <= k < roots.len() ==> listed(out).contains(#[trigger] roots[k])
                &&& forall|j: int|
                    old_len <= j < listed(out).len() ==> roots.contains(#[trigger] listed(out)[j])
                        && !listed(out).take(j).contains(listed(out)[j])
            }
        }),
{
    let roots = module_roots(names);
    let out = with_listed(s, roots);
    lemma_module_roots(names);
    if let Some(span) = roots_span(s) {
        let es = listed(s);
        let all = with_new_roots(es, roots, roots.len());
        lemma_listed(s, roots);
        lemma_span(s);
        lemma_read_entries(s.subrange(span.0, span.1));
        lemma_new_roots(es, roots, roots.len());
        lemma_added(es, roots, roots.len());
        if all.len() != es.len() {
            lemma_written_span(s, all);
        }
        assert(all.take(all.len() as int) =~= all);
        assert(es.take(es.len() as int) =~= es);
        assert forall|k: int| 0 <= k < roots.len() implies listed(out).contains(
            #[trigger] roots[k],
        ) by {
            lemma_has_root_is_member(all, roots[k], all.len());
        }
        if forall|k: int| 0 <= k < roots.len() ==> es.contains(#[trigger] roots[k]) {
            assert forall|k: int| 0 <= k < roots.len() implies has_root(
                es,
                #[trigger] roots[k],
                es.len(),
            ) by {
                lemma_has_root_is_member(es, roots[k], es.len());
            }
            lemma_nothing_new(es, roots, roots.len());
        }
    }
}

/// Adding the modules of interfaces a second time changes nothing.
pub proof fn adding_roots_is_idempotent(s: Seq<char>, names: Seq<Seq<char>>)
    ensures
        with_listed(with_listed(s, module_roots(names)), module_roots(names)) == with_listed(
            s,
            module_roots(names),
        ),
{
    let roots = module_roots(names);
    lemma_module_roots(names);
    if roots_span(s) is Some {
        lemma_listed(s, roots);
        let out = with_listed(s, roots);
        lemma_nothing_new(listed(out), roots, roots.len());
    }
}

} // verus!
