//! The files beside the rendered spec: one module of axioms for each pinned
//! interface, the imports of those modules, and what the lakefile is to list.
use vstd::prelude::*;

use crate::lean::base::{
    is_signed_name, is_unsigned_name, names_signed, names_unsigned, safe_name, safe_text,
};
use crate::names::{lookup, with_entry, NameMap};
use crate::number::{decimal, decimal_string};
use crate::outside::{
    char_lower, expand_matches, is_alnum, is_alphanumeric, lower_char_text, regex_expanded,
};
use crate::parsed::{
    ParsedCall, ParsedHandler, ParsedInterface, ParsedInterfaceHandler, ParsedSpec,
};
use crate::pattern::{abstract_fields, contains_string, has_text, scan_abstract_fields};
use crate::search::{
    char_at_or_after, find_char_from, lemma_char_at_or_after, matches_at, stands_at,
};
use crate::split::{
    lemma_ending_keeps_lines, lemma_lines_of_two, lemma_one_line, lines, lines_text, trim, trim_text,
    without_cr,
};
use crate::text::{chars_of, is_space, lower_char, same, slice_text, space, texts};

verus! {

broadcast use {crate::text::group_text, crate::text::texts_index, crate::text::texts_len};

// ---------------------------------------------------------------------------
// Names
// ---------------------------------------------------------------------------

/// The character as it may stand in the name of a module: a letter, a number or
/// an underscore, and never white space.
pub open spec fn module_char(c: char) -> char {
    if (is_alnum(c) && !is_space(c)) || c == '_' {
        c
    } else {
        '_'
    }
}

/// The module of an interface: what cannot stand in a name is an underscore.
pub open spec fn module_text(name: Seq<char>) -> Seq<char> {
    name.map_values(|c: char| module_char(c))
}

/// The module of an interface.
pub fn safe_module_name(name: &str) -> (r: String)
    ensures
        r@ == module_text(name@),
{
    let v = chars_of(name);
    let mut out = String::new();
    for i in 0..v.len()
        invariant
            v@ == name@,
            out@ == module_text(name@).take(i as int),
    {
        if (is_alphanumeric(v[i]) && !space(v[i])) || v[i] == '_' {
            out.push(v[i]);
        } else {
            out.push('_');
        }
        proof {
            assert(module_text(name@).take(i + 1) =~= module_text(name@).take(i as int).push(
                module_char(name@[i as int]),
            ));
        }
    }
    proof {
        assert(module_text(name@).take(name@.len() as int) =~= module_text(name@));
    }
    out
}

/// The proof package of an interface: its module with the first letter in lower
/// case, and `Proofs`.
pub open spec fn package_text(name: Seq<char>) -> Seq<char> {
    let m = module_text(name);
    if m.len() == 0 {
        "stdlibProofs"@
    } else {
        char_lower(m[0]) + m.subrange(1, m.len() as int) + "Proofs"@
    }
}

/// The proof package of an interface.
pub fn proof_pkg_name(name: &str) -> (r: String)
    ensures
        r@ == package_text(name@),
{
    let m = safe_module_name(name);
    let v = chars_of(&m);
    if v.len() == 0 {
        return "stdlibProofs".to_owned();
    }
    let mut out = lower_char_text(v[0]);
    let rest = slice_text(&v, 1, v.len());
    out.push_str(&rest);
    out.push_str("Proofs");
    out
}

// ---------------------------------------------------------------------------
// Pinned interfaces
// ---------------------------------------------------------------------------

/// A handler whose postconditions its interface warrants: it has some, and the
/// interface pins the binary.
pub open spec fn is_pinned_handler(iface: ParsedInterface, h: ParsedInterfaceHandler) -> bool {
    &&& h.ensures@.len() > 0
    &&& match iface.upstream {
        Some(u) => match u.binary_hash {
            Some(hash) => trim_text(hash@).len() > 0,
            None => false,
        },
        None => false,
    }
}

pub fn handler_is_pinned(iface: &ParsedInterface, h: &ParsedInterfaceHandler) -> (r: bool)
    ensures
        r == is_pinned_handler(*iface, *h),
{
    if h.ensures.len() == 0 {
        return false;
    }
    match &iface.upstream {
        Some(u) => match &u.binary_hash {
            Some(hash) => !trim(hash).as_str().is_empty(),
            None => false,
        },
        None => false,
    }
}

/// The first interface from `from` on that has the name.
pub open spec fn interface_at(is: Seq<ParsedInterface>, name: Seq<char>, from: int) -> Option<int>
    decreases is.len() - from,
{
    if from < 0 || from >= is.len() {
        None
    } else if is[from].name@ == name {
        Some(from)
    } else {
        interface_at(is, name, from + 1)
    }
}

fn find_interface(is: &Vec<ParsedInterface>, name: &str) -> (r: Option<usize>)
    ensures
        match r {
            Some(i) => i < is@.len() && interface_at(is@, name@, 0) == Some(i as int),
            None => interface_at(is@, name@, 0) is None,
        },
{
    let mut i: usize = 0;
    while i < is.len()
        invariant
            i <= is@.len(),
            interface_at(is@, name@, 0) == interface_at(is@, name@, i as int),
        decreases is@.len() - i,
    {
        if same(&is[i].name, name) {
            return Some(i);
        }
        i = i + 1;
    }
    None
}

/// The first handler from `from` on that has the name.
pub open spec fn method_at(
    hs: Seq<ParsedInterfaceHandler>,
    name: Seq<char>,
    from: int,
) -> Option<int>
    decreases hs.len() - from,
{
    if from < 0 || from >= hs.len() {
        None
    } else if hs[from].name@ == name {
        Some(from)
    } else {
        method_at(hs, name, from + 1)
    }
}

fn find_method(hs: &Vec<ParsedInterfaceHandler>, name: &str) -> (r: Option<usize>)
    ensures
        match r {
            Some(i) => i < hs@.len() && method_at(hs@, name@, 0) == Some(i as int),
            None => method_at(hs@, name@, 0) is None,
        },
{
    let mut i: usize = 0;
    while i < hs.len()
        invariant
            i <= hs@.len(),
            method_at(hs@, name@, 0) == method_at(hs@, name@, i as int),
        decreases hs@.len() - i,
    {
        if same(&hs[i].name, name) {
            return Some(i);
        }
        i = i + 1;
    }
    None
}

/// Names, in their order.
pub type Names = Seq<(Seq<char>, bool)>;

/// The interface of a call, where the callee is pinned.
pub open spec fn pinned_target(is: Seq<ParsedInterface>, c: ParsedCall) -> Option<int> {
    match interface_at(is, c.target_interface@, 0) {
        Some(i) => match method_at(is[i].handlers@, c.target_handler@, 0) {
            Some(k) => if is_pinned_handler(is[i], is[i].handlers@[k]) {
                Some(i)
            } else {
                None
            },
            None => None,
        },
        None => None,
    }
}

/// With the pinned interfaces of the first `n` calls.
pub open spec fn with_calls(acc: Names, is: Seq<ParsedInterface>, cs: Seq<ParsedCall>, n: nat) -> Names
    decreases n,
{
    if n == 0 {
        acc
    } else {
        let before = with_calls(acc, is, cs, (n - 1) as nat);
        match pinned_target(is, cs[n - 1]) {
            Some(i) => with_entry(before, is[i].name@, true),
            None => before,
        }
    }
}

/// The pinned interfaces that the first `n` handlers call.
pub open spec fn pinned_upto(is: Seq<ParsedInterface>, hs: Seq<ParsedHandler>, n: nat) -> Names
    decreases n,
{
    if n == 0 {
        Seq::empty()
    } else {
        with_calls(
            pinned_upto(is, hs, (n - 1) as nat),
            is,
            hs[n - 1].calls@,
            hs[n - 1].calls@.len(),
        )
    }
}

/// The pinned interfaces that a program calls, in the order of their names.
pub open spec fn pinned_interfaces(spec: ParsedSpec) -> Names {
    pinned_upto(spec.interfaces@, spec.handlers@, spec.handlers@.len())
}

/// Collects the pinned interfaces that a program calls.
pub fn collect_pinned_interfaces(spec: &ParsedSpec) -> (r: NameMap<bool>)
    ensures
        r@ == pinned_interfaces(*spec),
{
    let mut out: NameMap<bool> = NameMap::new();
    for i in 0..spec.handlers.len()
        invariant
            out@ == pinned_upto(spec.interfaces@, spec.handlers@, i as nat),
    {
        let calls = &spec.handlers[i].calls;
        let ghost acc = out@;
        for j in 0..calls.len()
            invariant
                out@ == with_calls(acc, spec.interfaces@, calls@, j as nat),
        {
            match find_interface(&spec.interfaces, &calls[j].target_interface) {
                Some(k) => {
                    let iface = &spec.interfaces[k];
                    match find_method(&iface.handlers, &calls[j].target_handler) {
                        Some(m) => {
                            if handler_is_pinned(iface, &iface.handlers[m]) {
                                out.insert(iface.name.clone(), true);
                            }
                        },
                        None => {},
                    }
                },
                None => {},
            }
        }
    }
    out
}

// ---------------------------------------------------------------------------
// Imports
// ---------------------------------------------------------------------------

/// Where the line that starts at `from` ends: behind its line feed, or at the
/// end of the text.
pub open spec fn line_end(s: Seq<char>, from: int) -> int {
    match char_at_or_after(s, '\n', from) {
        Some(i) => i + 1,
        None => s.len() as int,
    }
}

/// Whether the text from `from` to `to` is a line break and nothing else.
pub open spec fn is_blank_line(s: Seq<char>, from: int, to: int) -> bool {
    (to == from + 1 && s[from] == '\n') || (to == from + 2 && s[from] == '\r' && s[from + 1] == '\n')
}

/// What an import of the library of Solana starts with.
pub const SOLANA_IMPORT: &'static str = "import QEDGen.Solana.";

/// Where the last import from the library of Solana ends among the imports that
/// go on at `from`; `found` if there is none. Blank lines do not end the
/// imports.
pub open spec fn imports_end_from(s: Seq<char>, from: int, found: int) -> int
    decreases s.len() - from,
{
    let to = line_end(s, from);
    if !(0 <= from < to <= s.len()) {
        found
    } else if matches_at(s, "import "@, from) {
        imports_end_from(
            s,
            to,
            if matches_at(s, SOLANA_IMPORT@, from) {
                to
            } else {
                found
            },
        )
    } else if is_blank_line(s, from, to) {
        imports_end_from(s, to, found)
    } else {
        found
    }
}

/// Where the imports from the library of Solana end that a text starts with: at
/// its start where it has none.
pub open spec fn imports_end(s: Seq<char>) -> int {
    imports_end_from(s, 0, 0)
}

/// The imports end behind a line break, or at an end of the text.
pub proof fn lemma_imports_end(s: Seq<char>, from: int, found: int)
    requires
        0 <= from <= s.len(),
        0 <= found <= s.len(),
        found == 0 || found == s.len() || s[found - 1] == '\n',
    ensures
        ({
            let at = imports_end_from(s, from, found);
            0 <= at <= s.len() && (at == 0 || at == s.len() || s[at - 1] == '\n')
        }),
    decreases s.len() - from,
{
    let to = line_end(s, from);
    lemma_char_at_or_after(s, '\n', from);
    if from < s.len() && to > from {
        if matches_at(s, "import "@, from) {
            if matches_at(s, SOLANA_IMPORT@, from) {
                lemma_imports_end(s, to, to);
            } else {
                lemma_imports_end(s, to, found);
            }
        } else if is_blank_line(s, from, to) {
            lemma_imports_end(s, to, found);
        }
    }
}

fn find_imports_end(v: &Vec<char>) -> (r: usize)
    ensures
        r == imports_end(v@),
        r <= v@.len(),
{
    let needle = chars_of("import ");
    let solana = chars_of(SOLANA_IMPORT);
    let mut found: usize = 0;
    let mut from: usize = 0;
    while from < v.len()
        invariant_except_break
            imports_end(v@) == imports_end_from(v@, from as int, found as int),
        invariant
            needle@ == "import "@,
            solana@ == SOLANA_IMPORT@,
            from <= v.len(),
            found <= v.len(),
        ensures
            imports_end(v@) == found,
        decreases v.len() - from,
    {
        let to: usize = match find_char_from(v, '\n', from) {
            Some(i) => i + 1,
            None => v.len(),
        };
        if stands_at(v, &needle, from) {
            if stands_at(v, &solana, from) {
                found = to;
            }
            from = to;
        } else if (to - from == 1 && v[from] == '\n') || (to - from == 2 && v[from] == '\r' && v[from
            + 1] == '\n') {
            from = to;
        } else {
            break;
        }
    }
    found
}

/// Whether a line of the text is the import of the module.
pub open spec fn is_imported(content: Seq<char>, module: Seq<char>) -> bool {
    has_text(lines_text(content), "import "@ + module)
}

/// The imports of the first `n` modules that the text does not import yet.
pub open spec fn new_imports(content: Seq<char>, modules: Seq<Seq<char>>, n: nat) -> Seq<char>
    decreases n,
{
    if n == 0 {
        Seq::empty()
    } else {
        new_imports(content, modules, (n - 1) as nat) + (if is_imported(content, modules[n - 1]) {
            Seq::empty()
        } else {
            "import "@ + modules[n - 1] + "\n"@
        })
    }
}

/// The text with the imports of modules, behind the imports from the library of
/// Solana that it starts with. A module that it imports already is left out.
/// Where the line before them is not ended, they start a new one.
pub open spec fn with_imports(content: Seq<char>, modules: Seq<Seq<char>>) -> Seq<char> {
    let imports = new_imports(content, modules, modules.len());
    if imports.len() == 0 {
        content
    } else {
        let at = imports_end(content);
        ended(content.subrange(0, at)) + imports + content.subrange(at, content.len() as int)
    }
}

/// The text with its last line ended.
pub open spec fn ended(s: Seq<char>) -> Seq<char> {
    if s.len() == 0 || s.last() == '\n' {
        s
    } else {
        s + "\n"@
    }
}

/// The modules of interfaces.
pub open spec fn modules_of(pinned: Names) -> Seq<Seq<char>> {
    pinned.map_values(|e: (Seq<char>, bool)| module_text(e.0))
}

/// Adds the imports of the modules of the pinned interfaces.
pub fn inject_interface_imports(content: &str, pinned: &NameMap<bool>) -> (r: String)
    ensures
        r@ == with_imports(content@, modules_of(pinned@)),
{
    let n: usize = pinned.len();
    let ghost modules = modules_of(pinned@);
    let there = lines(content);
    let mut imports = String::new();
    for i in 0..n
        invariant
            n == pinned@.len(),
            texts(there@) == lines_text(content@),
            modules == modules_of(pinned@),
            imports@ == new_imports(content@, modules, i as nat),
    {
        let m = safe_module_name(pinned.key(i));
        let mut needle = "import ".to_owned();
        needle.push_str(&m);
        if !contains_string(&there, &needle) {
            imports.push_str("import ");
            imports.push_str(&m);
            imports.push_str("\n");
        }
    }
    if imports.as_str().is_empty() {
        return content.to_owned();
    }
    let v = chars_of(content);
    let at = find_imports_end(&v);
    let mut out = slice_text(&v, 0, at);
    if at > 0 && v[at - 1] != '\n' {
        out.push_str("\n");
    }
    out.push_str(&imports);
    let rest = slice_text(&v, at, v.len());
    out.push_str(&rest);
    out
}

/// The module of an interface holds no line break, comma, bracket or white
/// space.
pub proof fn modules_are_plain(name: Seq<char>)
    ensures
        forall|i: int|
            0 <= i < module_text(name).len() ==> {
                let c = #[trigger] module_text(name)[i];
                c != ',' && c != ']' && !is_space(c)
            },
{
    let m = module_text(name);
    assert forall|i: int| 0 <= i < m.len() implies {
        let c = #[trigger] m[i];
        c != ',' && c != ']' && !is_space(c)
    } by {
        assert(m[i] == module_char(name[i]));
    }
}

/// The package of an interface holds no line break, where the name of its
/// module starts in ASCII.
pub proof fn packages_are_plain(name: Seq<char>)
    requires
        module_text(name).len() > 0 ==> module_text(name)[0] <= '\u{7f}',
    ensures
        !package_text(name).contains('\n'),
{
    let m = module_text(name);
    let p = package_text(name);
    modules_are_plain(name);
    reveal_strlit("stdlibProofs");
    reveal_strlit("Proofs");
    if p.contains('\n') {
        let i = choose|i: int| 0 <= i < p.len() && p[i] == '\n';
        if m.len() > 0 {
            let rest = m.subrange(1, m.len() as int);
            if i == 0 {
                assert(p[0] == lower_char(m[0]));
            } else if i < m.len() {
                assert(p[i] == m[i]);
            } else {
                assert(p[i] == "Proofs"@[i - m.len()]);
            }
        }
    }
}

proof fn lemma_import_line(name: Seq<char>)
    ensures
        lines_text("import "@ + module_text(name) + "\n"@) == seq!["import "@ + module_text(name)],
{
    let m = module_text(name);
    let t = "import "@ + m;
    modules_are_plain(name);
    reveal_strlit("import ");
    assert(!t.contains('\n')) by {
        if t.contains('\n') {
            let i = choose|i: int| 0 <= i < t.len() && t[i] == '\n';
            if i >= 7 {
                assert(m[i - 7] == '\n');
            }
        }
    }
    if m.len() > 0 {
        assert(t.last() == m[m.len() - 1]);
    }
    lemma_one_line(t);
}

proof fn lemma_new_imports(content: Seq<char>, pinned: Names, n: nat, k: int)
    requires
        0 <= n <= pinned.len(),
        0 <= k < n ==> !is_imported(content, modules_of(pinned)[k]),
    ensures
        ({
            let imports = new_imports(content, modules_of(pinned), n);
            &&& imports.len() > 0 ==> imports.last() == '\n'
            &&& 0 <= k < n ==> is_imported(imports, modules_of(pinned)[k])
        }),
    decreases n,
{
    if n > 0 {
        let modules = modules_of(pinned);
        let before = new_imports(content, modules, (n - 1) as nat);
        let imports = new_imports(content, modules, n);
        lemma_new_imports(content, pinned, (n - 1) as nat, k);
        if !is_imported(content, modules[n - 1]) {
            let own = "import "@ + modules[n - 1] + "\n"@;
            reveal_strlit("\n");
            assert(imports == before + own);
            assert(imports.last() == '\n');
            lemma_lines_of_two(before, own);
            lemma_import_line(pinned[n - 1].0);
            if k == n - 1 {
                assert(lines_text(imports)[lines_text(before).len() as int] == "import "@
                    + modules[k]);
            } else if 0 <= k < n {
                let t = "import "@ + modules[k];
                let i = choose|i: int|
                    0 <= i < lines_text(before).len() && #[trigger] lines_text(before)[i] == t;
                assert(lines_text(imports)[i] == t);
            }
        } else {
            assert(imports =~= before);
        }
    }
}

proof fn lemma_ended_lines(s: Seq<char>, t: Seq<char>)
    requires
        has_text(lines_text(s), t),
        t.len() > 0,
        t.last() != '\r',
    ensures
        has_text(lines_text(s + "\n"@), t),
{
    lemma_ending_keeps_lines(s, 0);
    let i = choose|i: int| 0 <= i < lines_text(s).len() && #[trigger] lines_text(s)[i] == t;
    assert(without_cr(t) == t);
    assert(lines_text(s + "\n"@)[i] == t);
}

/// Once the imports are added, every module of a pinned interface is imported.
pub proof fn every_module_is_imported(content: Seq<char>, pinned: Names, k: int)
    requires
        0 <= k < pinned.len(),
    ensures
        is_imported(with_imports(content, modules_of(pinned)), modules_of(pinned)[k]),
{
    let modules = modules_of(pinned);
    let imports = new_imports(content, modules, modules.len());
    let out = with_imports(content, modules);
    let at = imports_end(content);
    let front = content.subrange(0, at);
    let rest = content.subrange(at, content.len() as int);
    let t = "import "@ + modules[k];
    lemma_imports_end(content, 0, 0);
    if is_imported(content, modules[k]) {
        lemma_new_imports(content, pinned, pinned.len(), -1);
    } else {
        lemma_new_imports(content, pinned, pinned.len(), k);
    }
    if imports.len() > 0 {
        let head = ended(front);
        reveal_strlit("\n");
        assert(out =~= head + (imports + rest));
        lemma_lines_of_two(imports, rest);
        lemma_lines_of_two(head, imports + rest);
        let a = lines_text(head);
        let b = lines_text(imports);
        let c = lines_text(rest);
        assert(lines_text(out) == a + (b + c));
        if is_imported(content, modules[k]) {
            let i = choose|i: int|
                0 <= i < lines_text(content).len() && #[trigger] lines_text(content)[i] == t;
            if head == front {
                assert(content =~= front + rest);
                lemma_lines_of_two(front, rest);
                if i < a.len() {
                    assert(lines_text(out)[i] == t);
                } else {
                    assert(lines_text(out)[i + b.len()] == t);
                }
            } else {
                assert(content =~= front);
                modules_are_plain(pinned[k].0);
                reveal_strlit("import ");
                if modules[k].len() > 0 {
                    assert(t.last() == modules[k][modules[k].len() - 1]);
                }
                lemma_ended_lines(front, t);
                let j = choose|j: int| 0 <= j < a.len() && #[trigger] a[j] == t;
                assert(lines_text(out)[j] == t);
            }
        } else {
            let i = choose|i: int| 0 <= i < b.len() && #[trigger] b[i] == t;
            assert(lines_text(out)[a.len() + i] == t);
        }
    } else if !is_imported(content, modules[k]) {
        assert(lines_text(imports) =~= Seq::empty());
    }
}

proof fn lemma_no_imports(content: Seq<char>, modules: Seq<Seq<char>>, n: nat)
    requires
        n <= modules.len(),
        forall|k: int| 0 <= k < modules.len() ==> is_imported(content, #[trigger] modules[k]),
    ensures
        new_imports(content, modules, n).len() == 0,
    decreases n,
{
    if n > 0 {
        lemma_no_imports(content, modules, (n - 1) as nat);
        assert(is_imported(content, modules[n - 1]));
    }
}

/// Adding the imports of the pinned interfaces a second time changes nothing.
pub proof fn adding_imports_is_idempotent(content: Seq<char>, pinned: Names)
    ensures
        with_imports(with_imports(content, modules_of(pinned)), modules_of(pinned))
            == with_imports(content, modules_of(pinned)),
{
    let modules = modules_of(pinned);
    let out = with_imports(content, modules);
    assert forall|k: int| 0 <= k < modules.len() implies is_imported(out, #[trigger] modules[k]) by {
        every_module_is_imported(content, pinned, k);
    }
    lemma_no_imports(out, modules, modules.len());
}

// ---------------------------------------------------------------------------
// Modules of axioms
// ---------------------------------------------------------------------------

/// What a module of axioms starts with.
pub const MODULE_NOTE: &'static str = "-- v2.26 Track F: bundled-interface axiom module.\n-- Stance 1 — the upstream binary_hash pin is the contract\n-- boundary. Each `axiom ensures_axiom_<idx>` corresponds to one\n-- `ensures` clause on the interface handler; the caller's\n-- Lean proof discharges its CPI post-condition by applying\n-- the relevant axiom, instead of carrying a `sorry`.\n--\n-- Axioms have two shapes:\n--   * v2.26 callee-frame — parameters and predicates only\n--     reference the callee's own ABI, never the caller's\n--     State type. Reusable across every caller.\n--   * v2.27 Track A caller-State-aware — the ensures\n--     references abstract State fields (applied-accessor\n--     form, e.g. `from_balance pre`). The axiom is\n--     polymorphic in `State` and takes pre+post snapshots\n--     plus one `State → T` accessor per abstract\n--     field, where `T` comes from the interface's\n--     `state { name : Type, ... }` declaration (v2.27\n--     Phase 0): `Nat` for the `U*` family, `Int` for\n--     `I*`, `Bool` for `Bool`, `Pubkey` for `Pubkey`.\n--     Fields not declared in the state block default to\n--     `Nat` (back-compat). Callers apply the axiom with\n--     `(·.<caller_field>)` per slot via their per-call\n--     `state_binders { ... }` block.\n\nimport QEDGen.Solana.Account\nimport QEDGen.Solana.Cpi\nimport QEDGen.Solana.Valid\n\n";

/// A declared type in Lean, as it stands.
pub open spec fn mapped_type(t: Seq<char>) -> Seq<char> {
    if names_unsigned(t) {
        "Nat"@
    } else if names_signed(t) {
        "Int"@
    } else {
        t
    }
}

fn map_type(t: &str) -> (r: String)
    ensures
        r@ == mapped_type(t@),
{
    if is_unsigned_name(t) {
        "Nat".to_owned()
    } else if is_signed_name(t) {
        "Int".to_owned()
    } else {
        t.to_owned()
    }
}

/// The first `n` parameters as binders, each after a space.
pub open spec fn declared_sig(ps: Seq<(String, String)>, n: nat) -> Seq<char>
    decreases n,
{
    if n == 0 {
        Seq::empty()
    } else {
        declared_sig(ps, (n - 1) as nat) + (" ("@ + ps[n - 1].0@ + " : "@ + mapped_type(ps[n - 1].1@) + ")"@)
    }
}

fn declared_sig_str(ps: &Vec<(String, String)>) -> (r: String)
    ensures
        r@ == declared_sig(ps@, ps@.len()),
{
    let mut out = String::new();
    for i in 0..ps.len()
        invariant
            out@ == declared_sig(ps@, i as nat),
    {
        let ty = map_type(&ps[i].1);
        out.push_str(" (");
        out.push_str(&ps[i].0);
        out.push_str(" : ");
        out.push_str(&ty);
        out.push_str(")");
    }
    out
}

/// The first declared field from `from` on that has the name.
pub open spec fn declared_at(fs: Seq<(String, String)>, name: Seq<char>, from: int) -> Option<int>
    decreases fs.len() - from,
{
    if from < 0 || from >= fs.len() {
        None
    } else if fs[from].0@ == name {
        Some(from)
    } else {
        declared_at(fs, name, from + 1)
    }
}

fn find_declared(fs: &Vec<(String, String)>, name: &str) -> (r: Option<usize>)
    ensures
        match r {
            Some(i) => i < fs@.len() && declared_at(fs@, name@, 0) == Some(i as int),
            None => declared_at(fs@, name@, 0) is None,
        },
{
    let mut i: usize = 0;
    while i < fs.len()
        invariant
            i <= fs@.len(),
            declared_at(fs@, name@, 0) == declared_at(fs@, name@, i as int),
        decreases fs@.len() - i,
    {
        if same(&fs[i].0, name) {
            return Some(i);
        }
        i = i + 1;
    }
    None
}

/// Accessors for the first `n` fields: of the declared type, or of `Nat`.
pub open spec fn accessor_sig(
    declared: Seq<(String, String)>,
    fields: Seq<Seq<char>>,
    n: nat,
) -> Seq<char>
    decreases n,
{
    if n == 0 {
        Seq::empty()
    } else {
        accessor_sig(declared, fields, (n - 1) as nat) + (" ("@ + fields[n - 1] + " : State → "@) + (
        match declared_at(declared, fields[n - 1], 0) {
            Some(i) => mapped_type(declared[i].1@),
            None => "Nat"@,
        }) + ")"@
    }
}

fn emit_accessor_sig(out: &mut String, declared: &Vec<(String, String)>, fields: &Vec<String>)
    ensures
        final(out)@ == old(out)@ + accessor_sig(declared@, texts(fields@), fields@.len()),
{
    for i in 0..fields.len()
        invariant
            out@ == old(out)@ + accessor_sig(declared@, texts(fields@), i as nat),
    {
        out.push_str(" (");
        out.push_str(&fields[i]);
        out.push_str(" : State → ");
        match find_declared(declared, &fields[i]) {
            Some(k) => {
                let ty = map_type(&declared[k].1);
                out.push_str(&ty);
            },
            None => {
                out.push_str("Nat");
            },
        }
        out.push_str(")");
    }
}

/// The text with every match of the pattern replaced by the template; as it is
/// where the pattern is refused.
pub open spec fn expanded(pattern: Seq<char>, text: Seq<char>, template: Seq<char>) -> Seq<char> {
    match regex_expanded(pattern, text, template) {
        Some(t) => t,
        None => text,
    }
}

/// A postcondition over accessors: `s'.f` is `(f post)`, `s.f` is `(f pre)`.
pub open spec fn over_accessors(expr: Seq<char>) -> Seq<char> {
    expanded(
        "\\bs\\.([A-Za-z_][A-Za-z0-9_]*)"@,
        expanded("\\bs'\\.([A-Za-z_][A-Za-z0-9_]*)"@, expr, "($1 post)"@),
        "($1 pre)"@,
    )
}

fn expand(pattern: &str, text: &str, template: &str) -> (r: String)
    ensures
        r@ == expanded(pattern@, text@, template@),
{
    match expand_matches(pattern, text, template) {
        Some(t) => t,
        None => text.to_owned(),
    }
}

fn rewrite_axiom_body_to_accessors(expr: &str) -> (r: String)
    ensures
        r@ == over_accessors(expr@),
{
    let after = expand("\\bs'\\.([A-Za-z_][A-Za-z0-9_]*)", expr, "($1 post)");
    expand("\\bs\\.([A-Za-z_][A-Za-z0-9_]*)", &after, "($1 pre)")
}

/// The axiom for postcondition `i` of a handler, when the fields of the state
/// that it speaks of and its body over accessors are known. One that speaks of
/// no field is over the parameters alone.
#[verifier::opaque]
pub open spec fn axiom_text(
    iface: ParsedInterface,
    h: ParsedInterfaceHandler,
    i: nat,
    fields: Seq<Seq<char>>,
    body: Seq<char>,
) -> Seq<char> {
    let sig = declared_sig(h.params@, h.params@.len());
    "/-- `"@ + iface.name@ + "."@ + h.name@ + "` post-condition #"@ + decimal(i) + " (axiomatized; discharged by binary_hash pin). -/\n"@
        + ("axiom ensures_axiom_"@ + decimal(i)) + (if fields.len() == 0 {
        sig + " : "@ + h.ensures@[i as int].lean_expr@
    } else {
        " {State : Type} [Inhabited State]"@ + " (pre post : State)"@ + sig + accessor_sig(iface.state_fields@, fields, fields.len()) + " : "@ + body
    }) + "\n\n"@
}

/// Renders the axiom for postcondition `i` of a handler.
pub fn emit_axiom(
    out: &mut String,
    iface: &ParsedInterface,
    h: &ParsedInterfaceHandler,
    i: usize,
    fields: &Vec<String>,
    body: &str,
)
    requires
        i < h.ensures@.len(),
    ensures
        final(out)@ == old(out)@ + axiom_text(*iface, *h, i as nat, texts(fields@), body@),
{
    proof {
        reveal(axiom_text);
    }
    let sig = declared_sig_str(&h.params);
    let d = decimal_string(i as u128);
    out.push_str("/-- `");
    out.push_str(&iface.name);
    out.push_str(".");
    out.push_str(&h.name);
    out.push_str("` post-condition #");
    out.push_str(&d);
    out.push_str(" (axiomatized; discharged by binary_hash pin). -/\n");
    out.push_str("axiom ensures_axiom_");
    out.push_str(&d);
    if fields.len() == 0 {
        out.push_str(&sig);
        out.push_str(" : ");
        out.push_str(&h.ensures[i].lean_expr);
    } else {
        out.push_str(" {State : Type} [Inhabited State]");
        out.push_str(" (pre post : State)");
        out.push_str(&sig);
        emit_accessor_sig(out, &iface.state_fields, fields);
        out.push_str(" : ");
        out.push_str(body);
    }
    out.push_str("\n\n");
}

pub open spec fn axioms_upto(iface: ParsedInterface, h: ParsedInterfaceHandler, n: nat) -> Seq<char>
    decreases n,
{
    if n == 0 {
        Seq::empty()
    } else {
        let expr = h.ensures@[n - 1].lean_expr@;
        axioms_upto(iface, h, (n - 1) as nat) + axiom_text(
            iface,
            h,
            (n - 1) as nat,
            abstract_fields(expr),
            over_accessors(expr),
        )
    }
}

/// The axioms of a handler; nothing where it has no postconditions.
pub open spec fn handler_axioms(iface: ParsedInterface, h: ParsedInterfaceHandler) -> Seq<char> {
    if h.ensures@.len() == 0 {
        Seq::empty()
    } else {
        "namespace "@ + safe_text(h.name@) + "\n\n"@ + axioms_upto(iface, h, h.ensures@.len()) + "end "@ + safe_text(h.name@) + "\n\n"@
    }
}

fn emit_handler_axioms(out: &mut String, iface: &ParsedInterface, h: &ParsedInterfaceHandler)
    ensures
        final(out)@ == old(out)@ + handler_axioms(*iface, *h),
{
    if h.ensures.len() == 0 {
        return ;
    }
    let name = safe_name(&h.name);
    out.push_str("namespace ");
    out.push_str(&name);
    out.push_str("\n\n");
    let ghost base = out@;
    for i in 0..h.ensures.len()
        invariant
            out@ == base + axioms_upto(*iface, *h, i as nat),
    {
        let expr = &h.ensures[i].lean_expr;
        let fields = scan_abstract_fields(expr);
        let body = rewrite_axiom_body_to_accessors(expr);
        emit_axiom(out, iface, h, i, &fields, &body);
    }
    out.push_str("end ");
    out.push_str(&name);
    out.push_str("\n\n");
}

pub open spec fn interface_axioms(iface: ParsedInterface, n: nat) -> Seq<char>
    decreases n,
{
    if n == 0 {
        Seq::empty()
    } else {
        interface_axioms(iface, (n - 1) as nat) + handler_axioms(iface, iface.handlers@[n - 1])
    }
}

/// The pin of an interface, or nothing.
pub open spec fn hash_text(iface: ParsedInterface) -> Seq<char> {
    match iface.upstream {
        Some(u) => match u.binary_hash {
            Some(h) => h@,
            None => Seq::empty(),
        },
        None => Seq::empty(),
    }
}

/// The program of an interface.
pub open spec fn program_text(iface: ParsedInterface) -> Seq<char> {
    match iface.program_id {
        Some(p) => p@,
        None => "<unknown>"@,
    }
}

/// The module of axioms of an interface.
#[verifier::opaque]
pub open spec fn axiom_module_text(iface: ParsedInterface) -> Seq<char> {
    MODULE_NOTE@ + "namespace "@ + safe_text(iface.name@) + "\n\n"@ + "open QEDGen.Solana\n\n"@
        + ("/-- Content pin against the deployed program at\n    `"@ + program_text(iface) + "`. Callers commit to this hash; if the deployed\n    binary changes, the lock must be regenerated. -/\n"@)
        + ("def binary_hash : String := \""@ + hash_text(iface) + "\"\n\n"@ + interface_axioms(iface, iface.handlers@.len()) + "end "@ + safe_text(iface.name@) + "\n"@)
}

/// Renders the module of axioms of an interface.
pub fn render_interface_axiom_module(iface: &ParsedInterface) -> (r: String)
    ensures
        r@ == axiom_module_text(*iface),
{
    proof {
        reveal(axiom_module_text);
    }
    let name = safe_name(&iface.name);
    let mut out = MODULE_NOTE.to_owned();
    out.push_str("namespace ");
    out.push_str(&name);
    out.push_str("\n\n");
    out.push_str("open QEDGen.Solana\n\n");
    out.push_str("/-- Content pin against the deployed program at\n    `");
    match &iface.program_id {
        Some(p) => {
            out.push_str(p);
        },
        None => {
            out.push_str("<unknown>");
        },
    }
    out.push_str("`. Callers commit to this hash; if the deployed\n    binary changes, the lock must be regenerated. -/\n");
    out.push_str("def binary_hash : String := \"");
    match &iface.upstream {
        Some(u) => {
            match &u.binary_hash {
                Some(h) => {
                    out.push_str(h);
                },
                None => {},
            }
        },
        None => {},
    }
    out.push_str("\"\n\n");
    let ghost base = out@;
    for i in 0..iface.handlers.len()
        invariant
            out@ == base + interface_axioms(*iface, i as nat),
    {
        emit_handler_axioms(&mut out, iface, &iface.handlers[i]);
    }
    out.push_str("end ");
    out.push_str(&name);
    out.push_str("\n");
    out
}

// ---------------------------------------------------------------------------
// Paths
// ---------------------------------------------------------------------------

/// One component of a path.
pub struct PathPart {
    pub text: String,
    /// Whether the component is the root of the file system or a prefix.
    pub is_root: bool,
}

/// Components as text, each with whether it is a root.
pub open spec fn part_views(v: Seq<PathPart>) -> Seq<(Seq<char>, bool)> {
    Seq::new(v.len(), |i: int| (v[i].text@, v[i].is_root))
}

/// The number of components from `from` on that two paths share.
pub open spec fn shared(a: Seq<(Seq<char>, bool)>, b: Seq<(Seq<char>, bool)>, from: nat) -> nat
    decreases a.len() - from,
{
    if from < a.len() && from < b.len() && a[from as int] == b[from as int] {
        shared(a, b, from + 1)
    } else {
        from
    }
}

/// One step up for each of the first `n` components from `k` on that is no
/// root.
pub open spec fn steps_up(b: Seq<(Seq<char>, bool)>, k: nat, n: nat) -> Seq<Seq<char>>
    decreases n,
{
    if n <= k {
        Seq::empty()
    } else if b[n - 1].1 {
        steps_up(b, k, (n - 1) as nat)
    } else {
        steps_up(b, k, (n - 1) as nat).push(".."@)
    }
}

/// With the components of a path from `k` to `n`.
pub open spec fn with_tail(
    acc: Seq<Seq<char>>,
    a: Seq<(Seq<char>, bool)>,
    k: nat,
    n: nat,
) -> Seq<Seq<char>>
    decreases n,
{
    if n <= k {
        acc
    } else {
        with_tail(acc, a, k, (n - 1) as nat).push(a[n - 1].0)
    }
}

/// The way from `base` to `target`: up to what they share and down again; `.`
/// where they are the same, and `target` as it stands where it has a root that
/// they do not share.
pub open spec fn relative_parts(
    target: Seq<(Seq<char>, bool)>,
    base: Seq<(Seq<char>, bool)>,
) -> Seq<Seq<char>> {
    let k = shared(target, base, 0);
    let ups = if k < target.len() && target[k as int].1 {
        Seq::empty()
    } else {
        steps_up(base, k, base.len())
    };
    let parts = with_tail(ups, target, k, target.len());
    if parts.len() == 0 {
        seq!["."@]
    } else {
        parts
    }
}

/// The way from `base` to `target`, component by component.
pub fn pathdiff_relative_from(target: &Vec<PathPart>, base: &Vec<PathPart>) -> (r: Vec<String>)
    ensures
        texts(r@) == relative_parts(part_views(target@), part_views(base@)),
{
    let ghost a = part_views(target@);
    let ghost b = part_views(base@);
    let mut k: usize = 0;
    while k < target.len() && k < base.len() && target[k].is_root == base[k].is_root && same(
        &target[k].text,
        &base[k].text,
    )
        invariant
            a == part_views(target@),
            b == part_views(base@),
            k <= target@.len(),
            k <= base@.len(),
            shared(a, b, 0) == shared(a, b, k as nat),
        decreases target@.len() - k,
    {
        k = k + 1;
    }
    let mut out: Vec<String> = Vec::new();
    let absolute: bool = k < target.len() && target[k].is_root;
    let mut i: usize = if absolute {
        base.len()
    } else {
        k
    };
    while i < base.len()
        invariant
            b == part_views(base@),
            k <= i <= base@.len(),
            absolute ==> i == base@.len() && texts(out@) == Seq::<Seq<char>>::empty(),
            !absolute ==> texts(out@) == steps_up(b, k as nat, i as nat),
        decreases base@.len() - i,
    {
        if !base[i].is_root {
            out.push("..".to_owned());
        }
        i = i + 1;
    }
    let ghost ups = texts(out@);
    let mut i: usize = k;
    while i < target.len()
        invariant
            a == part_views(target@),
            k <= i <= target@.len(),
            texts(out@) == with_tail(ups, a, k as nat, i as nat),
        decreases target@.len() - i,
    {
        out.push(target[i].text.clone());
        i = i + 1;
    }
    if out.len() == 0 {
        out.push(".".to_owned());
        proof {
            assert(texts(out@) =~= seq!["."@]);
        }
    }
    out
}

// ---------------------------------------------------------------------------
// All files
// ---------------------------------------------------------------------------

/// What is written beside and into the rendered spec.
pub struct SidecarPlan {
    /// The spec with its imports.
    pub spec: String,
    /// The name and the text of each module of axioms.
    pub modules: Vec<(String, String)>,
    /// Whether the lakefile is looked at.
    pub touches_lakefile: bool,
    /// The modules that are no roots of the lakefile any more.
    pub stale_roots: Vec<String>,
    /// The interfaces whose modules are roots of the lakefile.
    pub roots: Vec<String>,
    /// The interfaces with a proof package, and the root of the package.
    pub packages: Vec<(String, String)>,
}

/// The interfaces among the first `n` that have no proof package.
pub open spec fn local_interfaces(pinned: Names, verified: Seq<(Seq<char>, String)>, n: nat) -> Seq<
    Seq<char>,
>
    decreases n,
{
    if n == 0 {
        Seq::empty()
    } else {
        let before = local_interfaces(pinned, verified, (n - 1) as nat);
        if lookup(verified, pinned[n - 1].0) is Some {
            before
        } else {
            before.push(pinned[n - 1].0)
        }
    }
}

/// The interfaces among the first `n` that have a proof package, with its root.
pub open spec fn package_pairs(pinned: Names, verified: Seq<(Seq<char>, String)>, n: nat) -> Seq<
    (Seq<char>, Seq<char>),
>
    decreases n,
{
    if n == 0 {
        Seq::empty()
    } else {
        let before = package_pairs(pinned, verified, (n - 1) as nat);
        match lookup(verified, pinned[n - 1].0) {
            Some(root) => before.push((pinned[n - 1].0, root@)),
            None => before,
        }
    }
}

/// The modules of the first `n` interfaces, each with its text.
pub open spec fn module_pairs(is: Seq<ParsedInterface>, names: Seq<Seq<char>>, n: nat) -> Seq<
    (Seq<char>, Seq<char>),
>
    decreases n,
{
    if n == 0 {
        Seq::empty()
    } else {
        let before = module_pairs(is, names, (n - 1) as nat);
        match interface_at(is, names[n - 1], 0) {
            Some(i) => before.push((module_text(names[n - 1]) + ".lean"@, axiom_module_text(is[i]))),
            None => before,
        }
    }
}

/// The modules of the first `n` names.
pub open spec fn module_names(verified: Seq<(Seq<char>, String)>, n: nat) -> Seq<Seq<char>>
    decreases n,
{
    if n == 0 {
        Seq::empty()
    } else {
        module_names(verified, (n - 1) as nat).push(module_text(verified[n - 1].0))
    }
}

/// Pairs of strings as text.
pub open spec fn string_pairs(v: Seq<(String, String)>) -> Seq<(Seq<char>, Seq<char>)> {
    Seq::new(v.len(), |i: int| (v[i].0@, v[i].1@))
}

proof fn string_pairs_push(v: Seq<(String, String)>, p: (String, String))
    ensures
        string_pairs(v.push(p)) == string_pairs(v).push((p.0@, p.1@)),
{
    assert(string_pairs(v.push(p)) =~= string_pairs(v).push((p.0@, p.1@)));
}

/// Everything that is written for a spec.
pub open spec fn planned(content: Seq<char>, spec: ParsedSpec, plan: SidecarPlan) -> bool {
    let pinned = pinned_interfaces(spec);
    let verified = spec.verified_callees@;
    let local = local_interfaces(pinned, verified, pinned.len());
    &&& plan.spec@ == with_imports(content, modules_of(pinned))
    &&& string_pairs(plan.modules@) == module_pairs(spec.interfaces@, local, local.len())
    &&& plan.touches_lakefile == (pinned.len() > 0)
    &&& texts(plan.stale_roots@) == module_names(verified, verified.len())
    &&& texts(plan.roots@) == local
    &&& string_pairs(plan.packages@) == package_pairs(pinned, verified, pinned.len())
}

/// Plans what is written for a spec: the rendered text with its imports, a
/// module of axioms for each pinned interface without a proof package, and the
/// entries of the lakefile.
pub fn plan_sidecars(content: &str, spec: &ParsedSpec) -> (r: SidecarPlan)
    ensures
        planned(content@, *spec, r),
{
    let pinned = collect_pinned_interfaces(spec);
    let text = inject_interface_imports(content, &pinned);
    let n: usize = pinned.len();
    let mut local: Vec<String> = Vec::new();
    let mut packages: Vec<(String, String)> = Vec::new();
    proof {
        assert(string_pairs(packages@) =~= Seq::<(Seq<char>, Seq<char>)>::empty());
    }
    for i in 0..n
        invariant
            n == pinned@.len(),
            texts(local@) == local_interfaces(pinned@, spec.verified_callees@, i as nat),
            string_pairs(packages@) == package_pairs(pinned@, spec.verified_callees@, i as nat),
    {
        let name = pinned.key(i);
        match spec.verified_callees.get(name) {
            Some(root) => {
                let p = (name.clone(), root.clone());
                proof {
                    string_pairs_push(packages@, p);
                }
                packages.push(p);
            },
            None => {
                local.push(name.clone());
            },
        }
    }
    let mut modules: Vec<(String, String)> = Vec::new();
    proof {
        assert(string_pairs(modules@) =~= Seq::<(Seq<char>, Seq<char>)>::empty());
    }
    for i in 0..local.len()
        invariant
            string_pairs(modules@) == module_pairs(spec.interfaces@, texts(local@), i as nat),
    {
        match find_interface(&spec.interfaces, &local[i]) {
            Some(k) => {
                let mut file = safe_module_name(&local[i]);
                file.push_str(".lean");
                let p = (file, render_interface_axiom_module(&spec.interfaces[k]));
                proof {
                    string_pairs_push(modules@, p);
                }
                modules.push(p);
            },
            None => {},
        }
    }
    let m: usize = spec.verified_callees.len();
    let mut stale: Vec<String> = Vec::new();
    for i in 0..m
        invariant
            m == spec.verified_callees@.len(),
            texts(stale@) == module_names(spec.verified_callees@, i as nat),
    {
        stale.push(safe_module_name(spec.verified_callees.key(i)));
    }
    SidecarPlan {
        spec: text,
        modules,
        touches_lakefile: n > 0,
        stale_roots: stale,
        roots: local,
        packages,
    }
}

/// Every pinned interface is served: by a module of axioms beside the spec, or
/// by its proof package.
pub proof fn pinned_interfaces_are_served(
    pinned: Names,
    verified: Seq<(Seq<char>, String)>,
    n: nat,
)
    ensures
        local_interfaces(pinned, verified, n).len() + package_pairs(pinned, verified, n).len()
            == n,
    decreases n,
{
    if n > 0 {
        pinned_interfaces_are_served(pinned, verified, (n - 1) as nat);
    }
}

} // verus!
