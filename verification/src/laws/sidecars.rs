//! What is written beside a rendered file.
use vstd::prelude::*;

use crate::lakefile::{directive, new_requires, required, with_packages};
use crate::laws::stands::{stands, stands_in, stands_left, stands_right, stands_through};
use crate::lean::base::safe_text;
use crate::names::{ascending, lookup, lookup_with_entry, with_entry_ascends};
use crate::number::decimal;
use crate::outside::is_alnum;
use crate::parsed::{ParsedCall, ParsedHandler, ParsedInterface, ParsedInterfaceHandler, ParsedSpec};
use crate::pattern::abstract_fields;
use crate::search::{contains_text, ends_with_text};
use crate::sidecars::{
    accessor_sig, axiom_module_text, axiom_text, axioms_upto, declared_at, declared_sig, ended,
    handler_axioms, hash_text, imports_end, interface_at, interface_axioms, is_pinned_handler,
    local_interfaces, mapped_type, method_at, module_pairs, module_text, new_imports,
    over_accessors, package_pairs, package_text, pinned_interfaces, pinned_target, pinned_upto,
    program_text, relative_parts, shared, steps_up, with_calls, with_imports, with_tail, Names,
};
use crate::split::trim_text;


verus! {

broadcast use crate::text::group_text;

// ---------------------------------------------------------------------------
// Names
// ---------------------------------------------------------------------------

/// The module of an interface has its name, but for what no name can hold, which
/// is an underscore; its package is the module, in small, with `Proofs` behind it.
pub proof fn modules_have_their_name(name: Seq<char>)
    ensures
        module_text(name).len() == name.len(),
        forall|i: int|
            0 <= i < name.len() && (('a' <= name[i] && name[i] <= 'z') || name[i] == '_')
                && is_alnum(name[i]) && !crate::text::is_space(name[i]) ==> #[trigger] module_text(
                name,
            )[i] == name[i],
        forall|i: int|
            0 <= i < name.len() && !is_alnum(name[i]) ==> #[trigger] module_text(name)[i] == '_',
        ends_with_text(package_text(name), "Proofs"@),
{
    let p = package_text(name);
    let m = module_text(name);
    if m.len() == 0 {
        reveal_strlit("stdlibProofs");
        reveal_strlit("Proofs");
        assert(p.subrange(p.len() - 6, p.len() as int) =~= "Proofs"@);
    } else {
        let t = "Proofs"@;
        assert(p.subrange(p.len() - t.len(), p.len() as int) =~= t);
    }
}

// ---------------------------------------------------------------------------
// Pinned interfaces
// ---------------------------------------------------------------------------

/// A handler of an interface is pinned where it promises something and the
/// program behind the interface has a hash that is not blank.
pub proof fn pins_need_a_hash(iface: ParsedInterface, h: ParsedInterfaceHandler)
    ensures
        is_pinned_handler(iface, h) ==> h.ensures@.len() > 0 && iface.upstream is Some && (
        iface.upstream->0).binary_hash is Some,
        h.ensures@.len() > 0 && iface.upstream is Some && (iface.upstream->0).binary_hash is Some
            && trim_text(((iface.upstream->0).binary_hash->0)@).len() > 0 ==> is_pinned_handler(
            iface,
            h,
        ),
        is_pinned_handler(iface, h) ==> trim_text(hash_text(iface)).len() > 0,
{
}

proof fn lemma_interface_at(is: Seq<ParsedInterface>, name: Seq<char>, from: int)
    requires
        0 <= from,
    ensures
        match interface_at(is, name, from) {
            Some(i) => from <= i < is.len() && is[i].name@ == name,
            None => forall|i: int| from <= i < is.len() ==> (#[trigger] is[i]).name@ != name,
        },
    decreases is.len() - from,
{
    if from < is.len() && is[from].name@ != name {
        lemma_interface_at(is, name, from + 1);
    }
}

proof fn lemma_with_calls(
    acc: Names,
    is: Seq<ParsedInterface>,
    cs: Seq<ParsedCall>,
    n: nat,
    name: Seq<char>,
)
    requires
        ascending(acc),
        n <= cs.len(),
    ensures
        ascending(with_calls(acc, is, cs, n)),
        lookup(with_calls(acc, is, cs, n), name) is Some <==> lookup(acc, name) is Some || exists|
            j: int|
            0 <= j < n && #[trigger] calls_pinned(is, cs[j], name),
    decreases n,
{
    if n > 0 {
        lemma_with_calls(acc, is, cs, (n - 1) as nat, name);
        let before = with_calls(acc, is, cs, (n - 1) as nat);
        if let Some(i) = pinned_target(is, cs[n - 1]) {
            with_entry_ascends(before, is[i].name@, true);
            lookup_with_entry(before, is[i].name@, true, name);
            lemma_interface_at(is, cs[n - 1].target_interface@, 0);
        }
        assert(calls_pinned(is, cs[n - 1], name) ==> exists|j: int|
            0 <= j < n && #[trigger] calls_pinned(is, cs[j], name));
    }
}

/// Whether a call goes to a pinned handler of the interface with a name.
pub open spec fn calls_pinned(is: Seq<ParsedInterface>, c: ParsedCall, name: Seq<char>) -> bool {
    c.target_interface@ == name && match interface_at(is, name, 0) {
        Some(i) => match method_at(is[i].handlers@, c.target_handler@, 0) {
            Some(k) => is_pinned_handler(is[i], is[i].handlers@[k]),
            None => false,
        },
        None => false,
    }
}

proof fn lemma_pinned_upto(
    is: Seq<ParsedInterface>,
    hs: Seq<ParsedHandler>,
    n: nat,
    name: Seq<char>,
)
    requires
        n <= hs.len(),
    ensures
        ascending(pinned_upto(is, hs, n)),
        lookup(pinned_upto(is, hs, n), name) is Some <==> exists|i: int, j: int|
            0 <= i < n && 0 <= j < hs[i].calls@.len() && #[trigger] calls_pinned(
                is,
                hs[i].calls@[j],
                name,
            ),
    decreases n,
{
    if n > 0 {
        lemma_pinned_upto(is, hs, (n - 1) as nat, name);
        let before = pinned_upto(is, hs, (n - 1) as nat);
        let cs = hs[n - 1].calls@;
        lemma_with_calls(before, is, cs, cs.len(), name);
        if exists|j: int| 0 <= j < cs.len() && #[trigger] calls_pinned(is, cs[j], name) {
            let j = choose|j: int| 0 <= j < cs.len() && #[trigger] calls_pinned(is, cs[j], name);
            assert(calls_pinned(is, hs[n - 1].calls@[j], name));
        }
    }
}

/// The pinned interfaces of a program are those that one of its handlers calls by
/// a pinned handler, and no others.
pub proof fn called_pins_are_collected(spec: ParsedSpec, name: Seq<char>)
    ensures
        lookup(pinned_interfaces(spec), name) is Some <==> exists|i: int, j: int|
            0 <= i < spec.handlers@.len() && 0 <= j < spec.handlers@[i].calls@.len()
                && #[trigger] calls_pinned(
                spec.interfaces@,
                spec.handlers@[i].calls@[j],
                name,
            ),
{
    lemma_pinned_upto(spec.interfaces@, spec.handlers@, spec.handlers@.len(), name);
}

/// An interface with a verified proof package gets the package, and every other a
/// module of axioms of its own.
pub proof fn packages_replace_axioms(
    pinned: Names,
    verified: Seq<(Seq<char>, String)>,
    n: nat,
    k: int,
)
    requires
        0 <= k < n <= pinned.len(),
    ensures
        match lookup(verified, pinned[k].0) {
            Some(root) => package_pairs(pinned, verified, n).contains((pinned[k].0, root@)),
            None => local_interfaces(pinned, verified, n).contains(pinned[k].0),
        },
    decreases n,
{
    let locals = local_interfaces(pinned, verified, (n - 1) as nat);
    let packs = package_pairs(pinned, verified, (n - 1) as nat);
    let all_locals = local_interfaces(pinned, verified, n);
    let all_packs = package_pairs(pinned, verified, n);
    if k < n - 1 {
        packages_replace_axioms(pinned, verified, (n - 1) as nat, k);
        match lookup(verified, pinned[k].0) {
            Some(root) => {
                let i = choose|i: int| 0 <= i < packs.len() && packs[i] == (pinned[k].0, root@);
                assert(all_packs[i] == packs[i]);
            },
            None => {
                let i = choose|i: int| 0 <= i < locals.len() && locals[i] == pinned[k].0;
                assert(all_locals[i] == locals[i]);
            },
        }
    } else {
        match lookup(verified, pinned[k].0) {
            Some(root) => assert(all_packs[all_packs.len() - 1] == (pinned[k].0, root@)),
            None => assert(all_locals[all_locals.len() - 1] == pinned[k].0),
        }
    }
}

/// The module of axioms of an interface is a file named after it.
pub proof fn modules_are_written(is: Seq<ParsedInterface>, names: Seq<Seq<char>>, n: nat, k: int)
    requires
        0 <= k < n <= names.len(),
        interface_at(is, names[k], 0) is Some,
    ensures
        module_pairs(is, names, n).contains(
            (
                module_text(names[k]) + ".lean"@,
                axiom_module_text(is[interface_at(is, names[k], 0)->0]),
            ),
        ),
    decreases n,
{
    let before = module_pairs(is, names, (n - 1) as nat);
    let all = module_pairs(is, names, n);
    let own = (
        module_text(names[k]) + ".lean"@,
        axiom_module_text(is[interface_at(is, names[k], 0)->0]),
    );
    if k < n - 1 {
        modules_are_written(is, names, (n - 1) as nat, k);
        let i = choose|i: int| 0 <= i < before.len() && before[i] == own;
        assert(all[i] == own);
    } else {
        assert(all[all.len() - 1] == own);
    }
}

// ---------------------------------------------------------------------------
// Axioms
// ---------------------------------------------------------------------------

/// The axiom of a postcondition binds the parameters of its handler and claims the
/// postcondition: as it is where it speaks of no field, and else over any state
/// before and after, with one accessor for each field.
pub proof fn axioms_claim_the_postcondition(
    iface: ParsedInterface,
    h: ParsedInterfaceHandler,
    i: nat,
    fields: Seq<Seq<char>>,
    body: Seq<char>,
)
    requires
        i < h.ensures@.len(),
    ensures
        fields.len() == 0 ==> contains_text(
            axiom_text(iface, h, i, fields, body),
            "axiom ensures_axiom_"@ + decimal(i) + declared_sig(h.params@, h.params@.len()) + " : "@
                + h.ensures@[i as int].lean_expr@ + "\n\n"@,
        ),
        fields.len() > 0 ==> contains_text(
            axiom_text(iface, h, i, fields, body),
            "axiom ensures_axiom_"@ + decimal(i) + " {State : Type} [Inhabited State]"@
                + " (pre post : State)"@ + declared_sig(h.params@, h.params@.len()) + accessor_sig(
                iface.state_fields@,
                fields,
                fields.len(),
            ) + " : "@ + body + "\n\n"@,
        ),
{
    reveal(axiom_text);
    let sig = declared_sig(h.params@, h.params@.len());
    let head = "/-- `"@ + iface.name@ + "."@ + h.name@ + "` post-condition #"@ + decimal(i)
        + " (axiomatized; discharged by binary_hash pin). -/\n"@;
    if fields.len() == 0 {
        let t = "axiom ensures_axiom_"@ + decimal(i) + sig + " : "@ + h.ensures@[i as int].lean_expr@
            + "\n\n"@;
        stands(head, t, Seq::empty());
        assert(axiom_text(iface, h, i, fields, body) == head + t);
    } else {
        let t = "axiom ensures_axiom_"@ + decimal(i) + " {State : Type} [Inhabited State]"@
            + " (pre post : State)"@ + sig + accessor_sig(
            iface.state_fields@,
            fields,
            fields.len(),
        ) + " : "@ + body + "\n\n"@;
        stands(head, t, Seq::empty());
        assert(axiom_text(iface, h, i, fields, body) == head + t);
    }
}

proof fn lemma_axioms(iface: ParsedInterface, h: ParsedInterfaceHandler, n: nat, k: nat)
    requires
        k < n <= h.ensures@.len(),
    ensures
        contains_text(
            axioms_upto(iface, h, n),
            axiom_text(
                iface,
                h,
                k,
                abstract_fields(h.ensures@[k as int].lean_expr@),
                over_accessors(h.ensures@[k as int].lean_expr@),
            ),
        ),
    decreases n,
{
    let before = axioms_upto(iface, h, (n - 1) as nat);
    let e = h.ensures@[k as int].lean_expr@;
    let t = axiom_text(iface, h, k, abstract_fields(e), over_accessors(e));
    let last = h.ensures@[n - 1].lean_expr@;
    let own = axiom_text(
        iface,
        h,
        (n - 1) as nat,
        abstract_fields(last),
        over_accessors(last),
    );
    assert(axioms_upto(iface, h, n) == before + own);
    if k < n - 1 {
        lemma_axioms(iface, h, (n - 1) as nat, k);
        stands_left(before, own, t);
    } else {
        stands(before, own, Seq::empty());
    }
}

proof fn lemma_handlers(iface: ParsedInterface, n: nat, k: int)
    requires
        0 <= k < n <= iface.handlers@.len(),
    ensures
        contains_text(interface_axioms(iface, n), handler_axioms(iface, iface.handlers@[k])),
    decreases n,
{
    let before = interface_axioms(iface, (n - 1) as nat);
    let own = handler_axioms(iface, iface.handlers@[n - 1]);
    assert(interface_axioms(iface, n) == before + own);
    if k < n - 1 {
        lemma_handlers(iface, (n - 1) as nat, k);
        stands_left(before, own, handler_axioms(iface, iface.handlers@[k]));
    } else {
        stands(before, own, Seq::empty());
    }
}

/// Every postcondition of every handler has its axiom in the module, under the
/// namespace of the handler, and the module gives the hash of the program.
pub proof fn modules_state_every_postcondition(iface: ParsedInterface, i: int, k: nat)
    requires
        0 <= i < iface.handlers@.len(),
        k < iface.handlers@[i].ensures@.len(),
    ensures
        ({
            let h = iface.handlers@[i];
            let e = h.ensures@[k as int].lean_expr@;
            let all = axiom_module_text(iface);
            &&& contains_text(
                all,
                axiom_text(iface, h, k, abstract_fields(e), over_accessors(e)),
            )
            &&& contains_text(all, "namespace "@ + safe_text(h.name@) + "\n\n"@)
            &&& contains_text(all, "def binary_hash : String := \""@ + hash_text(iface) + "\"\n\n"@)
            &&& contains_text(all, "namespace "@ + safe_text(iface.name@) + "\n\n"@)
        }),
{
    let h = iface.handlers@[i];
    let e = h.ensures@[k as int].lean_expr@;
    let n = iface.handlers@.len();
    let x = interface_axioms(iface, n);
    let t = axiom_text(iface, h, k, abstract_fields(e), over_accessors(e));
    lemma_handlers(iface, n, i);
    lemma_axioms(iface, h, h.ensures@.len(), k);
    let own = axioms_upto(iface, h, h.ensures@.len());
    let open = "namespace "@ + safe_text(h.name@) + "\n\n"@;
    let close = "end "@ + safe_text(h.name@) + "\n\n"@;
    assert(handler_axioms(iface, h) == open + own + close);
    stands_in(open, own, close, t);
    stands(Seq::empty(), open, own + close);
    stands_through(x, handler_axioms(iface, h), t);
    stands_through(x, handler_axioms(iface, h), open);
    lemma_module(iface, x, t);
    lemma_module(iface, x, open);
}

proof fn lemma_module(iface: ParsedInterface, x: Seq<char>, t: Seq<char>)
    requires
        x == interface_axioms(iface, iface.handlers@.len()),
        contains_text(x, t),
    ensures
        contains_text(axiom_module_text(iface), t),
        contains_text(
            axiom_module_text(iface),
            "def binary_hash : String := \""@ + hash_text(iface) + "\"\n\n"@,
        ),
        contains_text(axiom_module_text(iface), "namespace "@ + safe_text(iface.name@) + "\n\n"@),
{
    reveal(axiom_module_text);
    let open = "namespace "@ + safe_text(iface.name@) + "\n\n"@;
    let m = "open QEDGen.Solana\n\n"@ + ("/-- Content pin against the deployed program at\n    `"@
        + program_text(iface)
        + "`. Callers commit to this hash; if the deployed\n    binary changes, the lock must be regenerated. -/\n"@);
    let pin = "def binary_hash : String := \""@ + hash_text(iface) + "\"\n\n"@;
    let z = "end "@ + safe_text(iface.name@) + "\n"@;
    lemma_five(crate::sidecars::MODULE_NOTE@, open, m, pin, x, z, t);
}

proof fn lemma_five(
    a: Seq<char>,
    b: Seq<char>,
    c: Seq<char>,
    d: Seq<char>,
    x: Seq<char>,
    z: Seq<char>,
    t: Seq<char>,
)
    requires
        contains_text(x, t),
    ensures
        contains_text(a + b + c + (d + x + z), b),
        contains_text(a + b + c + (d + x + z), d),
        contains_text(a + b + c + (d + x + z), t),
{
    stands(a, b, c + (d + x + z));
    stands(a + b + c, d, x + z);
    stands_in(a + b + c + d, x, z, t);
}

/// Every parameter is bound with its Lean type, and every field has an accessor
/// from the state to its type.
pub proof fn axioms_bind_parameters_and_fields(
    ps: Seq<(String, String)>,
    fields: Seq<Seq<char>>,
    k: int,
)
    ensures
        0 <= k < ps.len() ==> contains_text(
            declared_sig(ps, ps.len()),
            " ("@ + ps[k].0@ + " : "@ + mapped_type(ps[k].1@) + ")"@,
        ),
        0 <= k < fields.len() ==> contains_text(
            accessor_sig(ps, fields, fields.len()),
            " ("@ + fields[k] + " : State → "@ + (match declared_at(ps, fields[k], 0) {
                Some(i) => mapped_type(ps[i].1@),
                None => "Nat"@,
            }) + ")"@,
        ),
{
    if 0 <= k < ps.len() {
        lemma_declared(ps, ps.len(), k);
    }
    if 0 <= k < fields.len() {
        lemma_accessors(ps, fields, fields.len(), k);
    }
}

proof fn lemma_declared(ps: Seq<(String, String)>, n: nat, k: int)
    requires
        0 <= k < n <= ps.len(),
    ensures
        contains_text(
            declared_sig(ps, n),
            " ("@ + ps[k].0@ + " : "@ + mapped_type(ps[k].1@) + ")"@,
        ),
    decreases n,
{
    let before = declared_sig(ps, (n - 1) as nat);
    let own = " ("@ + ps[n - 1].0@ + " : "@ + mapped_type(ps[n - 1].1@) + ")"@;
    assert(declared_sig(ps, n) == before + own);
    if k < n - 1 {
        lemma_declared(ps, (n - 1) as nat, k);
        stands_left(
            before,
            own,
            " ("@ + ps[k].0@ + " : "@ + mapped_type(ps[k].1@) + ")"@,
        );
    } else {
        stands(before, own, Seq::empty());
    }
}

proof fn lemma_accessors(ps: Seq<(String, String)>, fields: Seq<Seq<char>>, n: nat, k: int)
    requires
        0 <= k < n <= fields.len(),
    ensures
        contains_text(
            accessor_sig(ps, fields, n),
            " ("@ + fields[k] + " : State → "@ + (match declared_at(ps, fields[k], 0) {
                Some(i) => mapped_type(ps[i].1@),
                None => "Nat"@,
            }) + ")"@,
        ),
    decreases n,
{
    let before = accessor_sig(ps, fields, (n - 1) as nat);
    let own = " ("@ + fields[n - 1] + " : State → "@ + (match declared_at(
        ps,
        fields[n - 1],
        0,
    ) {
        Some(i) => mapped_type(ps[i].1@),
        None => "Nat"@,
    }) + ")"@;
    assert(accessor_sig(ps, fields, n) == before + own);
    if k < n - 1 {
        lemma_accessors(ps, fields, (n - 1) as nat, k);
        stands_left(
            before,
            own,
            " ("@ + fields[k] + " : State → "@ + (match declared_at(ps, fields[k], 0) {
                Some(i) => mapped_type(ps[i].1@),
                None => "Nat"@,
            }) + ")"@,
        );
    } else {
        stands(before, own, Seq::empty());
    }
}

// ---------------------------------------------------------------------------
// Files
// ---------------------------------------------------------------------------

/// Where imports are added, they stand between two halves of the text, which is
/// kept: no character of it is lost, and nothing but a line break is added to it.
pub proof fn adding_imports_keeps_the_text(content: Seq<char>, modules: Seq<Seq<char>>)
    ensures
        ({
            let imports = new_imports(content, modules, modules.len());
            let out = with_imports(content, modules);
            ||| out == content
            ||| exists|a: Seq<char>, b: Seq<char>|
                content == #[trigger] (a + b) && (out == a + imports + b || out == a + "\n"@
                    + imports + b)
        }),
{
    let imports = new_imports(content, modules, modules.len());
    let at = imports_end(content);
    if imports.len() > 0 {
        crate::sidecars::lemma_imports_end(content, 0, 0);
        let a = content.subrange(0, at);
        let b = content.subrange(at, content.len() as int);
        assert(content =~= a + b);
        assert(with_imports(content, modules) == ended(a) + imports + b);
    }
}

/// Every package that is not required yet is required under its name, from its
/// path with forward slashes.
pub proof fn packages_are_required(s: Seq<char>, pkgs: Seq<(Seq<char>, Seq<char>)>, k: int)
    requires
        0 <= k < pkgs.len(),
        !contains_text(s, "require "@ + pkgs[k].0 + " from"@),
    ensures
        contains_text(
            with_packages(s, pkgs),
            pkgs[k].0 + " from \""@ + crate::search::replaced(pkgs[k].1, "\\"@, "/"@) + "\"\n"@,
        ),
{
    let n = pkgs.len();
    let added = new_requires(s, pkgs, n);
    lemma_requires(s, pkgs, n, k);
    let d = directive(pkgs[k].0, pkgs[k].1);
    let t = pkgs[k].0 + " from \""@ + crate::search::replaced(pkgs[k].1, "\\"@, "/"@) + "\"\n"@;
    stands(crate::lakefile::REQUIRE_NOTE@, t, Seq::empty());
    assert(d == crate::lakefile::REQUIRE_NOTE@ + t);
    stands_through(added, d, t);
    reveal_strlit("\"\n");
    lemma_not_empty(added, t);
    match crate::lakefile::package_line_end(s) {
        Some(end) => {
            stands_right("\n"@, added, t);
            stands_in(s.subrange(0, end), "\n"@ + added, s.subrange(end, s.len() as int), t);
        },
        None => {
            let m = if ends_with_text(s, "\n"@) {
                Seq::empty()
            } else {
                "\n"@
            };
            stands_right(s + m, added, t);
        },
    }
}

proof fn lemma_not_empty(s: Seq<char>, t: Seq<char>)
    requires
        contains_text(s, t),
        t.len() > 0,
    ensures
        s.len() > 0,
{
}

proof fn lemma_requires(s: Seq<char>, pkgs: Seq<(Seq<char>, Seq<char>)>, n: nat, k: int)
    requires
        0 <= k < n <= pkgs.len(),
        !contains_text(s, required(pkgs[k].0)),
    ensures
        contains_text(new_requires(s, pkgs, n), directive(pkgs[k].0, pkgs[k].1)),
    decreases n,
{
    let before = new_requires(s, pkgs, (n - 1) as nat);
    let own = if contains_text(s, required(pkgs[n - 1].0)) {
        Seq::empty()
    } else {
        directive(pkgs[n - 1].0, pkgs[n - 1].1)
    };
    assert(new_requires(s, pkgs, n) == before + own);
    if k < n - 1 {
        lemma_requires(s, pkgs, (n - 1) as nat, k);
        stands_left(before, own, directive(pkgs[k].0, pkgs[k].1));
    } else {
        stands(before, own, Seq::empty());
    }
}

// ---------------------------------------------------------------------------
// Paths
// ---------------------------------------------------------------------------

/// Where the first `n` of some steps lead from a place: `..` leads up, `.` stays,
/// and any other name leads down.
pub open spec fn walked(from: Seq<Seq<char>>, steps: Seq<Seq<char>>, n: nat) -> Seq<Seq<char>>
    decreases n,
{
    if n == 0 {
        from
    } else {
        let at = walked(from, steps, (n - 1) as nat);
        if steps[n - 1] == ".."@ {
            if at.len() == 0 {
                at
            } else {
                at.drop_last()
            }
        } else if steps[n - 1] == "."@ {
            at
        } else {
            at.push(steps[n - 1])
        }
    }
}

/// The names of a path.
pub open spec fn names_of(p: Seq<(Seq<char>, bool)>) -> Seq<Seq<char>> {
    Seq::new(p.len(), |i: int| p[i].0)
}

/// A path of plain names: without a root, and without steps up or on the spot.
pub open spec fn is_plain(p: Seq<(Seq<char>, bool)>) -> bool {
    forall|i: int|
        0 <= i < p.len() ==> !(#[trigger] p[i]).1 && p[i].0 != ".."@ && p[i].0 != "."@
}

proof fn lemma_dots()
    ensures
        "."@ != ".."@,
{
    reveal_strlit(".");
    reveal_strlit("..");
    assert("."@.len() == 1 && ".."@.len() == 2);
}

proof fn lemma_shared(a: Seq<(Seq<char>, bool)>, b: Seq<(Seq<char>, bool)>, from: nat)
    requires
        from <= a.len(),
        from <= b.len(),
    ensures
        ({
            let k = shared(a, b, from);
            &&& from <= k <= a.len()
            &&& k <= b.len()
            &&& forall|i: int| from <= i < k ==> #[trigger] a[i] == b[i]
        }),
    decreases a.len() - from,
{
    if from < a.len() && from < b.len() && a[from as int] == b[from as int] {
        lemma_shared(a, b, from + 1);
    }
}

proof fn lemma_ups(b: Seq<(Seq<char>, bool)>, k: nat, n: nat)
    requires
        is_plain(b),
        k <= n <= b.len(),
    ensures
        steps_up(b, k, n).len() == n - k,
        forall|i: int| 0 <= i < n - k ==> #[trigger] steps_up(b, k, n)[i] == ".."@,
    decreases n,
{
    if n > k {
        lemma_ups(b, k, (n - 1) as nat);
    }
}

proof fn lemma_tail(acc: Seq<Seq<char>>, a: Seq<(Seq<char>, bool)>, k: nat, n: nat)
    requires
        k <= n <= a.len(),
    ensures
        with_tail(acc, a, k, n).len() == acc.len() + n - k,
        forall|i: int| 0 <= i < acc.len() ==> #[trigger] with_tail(acc, a, k, n)[i] == acc[i],
        forall|i: int|
            acc.len() <= i < acc.len() + n - k ==> #[trigger] with_tail(acc, a, k, n)[i] == a[i
                - acc.len() + k].0,
    decreases n,
{
    if n > k {
        lemma_tail(acc, a, k, (n - 1) as nat);
    }
}

proof fn lemma_walk_up(from: Seq<Seq<char>>, steps: Seq<Seq<char>>, n: nat)
    requires
        n <= steps.len(),
        n <= from.len(),
        forall|i: int| 0 <= i < n ==> #[trigger] steps[i] == ".."@,
    ensures
        walked(from, steps, n) == from.take(from.len() - n),
    decreases n,
{
    if n > 0 {
        lemma_walk_up(from, steps, (n - 1) as nat);
        assert(from.take(from.len() - (n - 1)).drop_last() =~= from.take(from.len() - n));
    } else {
        assert(from.take(from.len() as int) =~= from);
    }
}

proof fn lemma_walk_down(
    from: Seq<Seq<char>>,
    steps: Seq<Seq<char>>,
    u: nat,
    n: nat,
    to: Seq<Seq<char>>,
    k: nat,
)
    requires
        u <= n <= steps.len(),
        k + (n - u) <= to.len(),
        walked(from, steps, u) == to.take(k as int),
        forall|i: int|
            u <= i < n ==> #[trigger] steps[i] == to[i - u + k] && steps[i] != ".."@ && steps[i]
                != "."@,
    ensures
        walked(from, steps, n) == to.take(k + (n - u)),
    decreases n,
{
    if n > u {
        lemma_walk_down(from, steps, u, (n - 1) as nat, to, k);
        assert(steps[n - 1] == to[n - 1 - u + k]);
        assert(to.take(k + (n - 1 - u)).push(steps[n - 1]) =~= to.take(k + (n - u)));
    }
}

/// The way from one path to another leads there.
pub proof fn relative_paths_lead_there(
    target: Seq<(Seq<char>, bool)>,
    base: Seq<(Seq<char>, bool)>,
)
    requires
        is_plain(target),
        is_plain(base),
    ensures
        walked(
            names_of(base),
            relative_parts(target, base),
            relative_parts(target, base).len(),
        ) == names_of(target),
{
    let k = shared(target, base, 0);
    lemma_shared(target, base, 0);
    let ups = steps_up(base, k, base.len());
    lemma_ups(base, k, base.len());
    let parts = with_tail(ups, target, k, target.len());
    lemma_tail(ups, target, k, target.len());
    let from = names_of(base);
    let to = names_of(target);
    lemma_dots();
    assert(relative_parts(target, base) == if parts.len() == 0 {
        seq!["."@]
    } else {
        parts
    });
    if parts.len() == 0 {
        reveal_with_fuel(walked, 2);
        assert(from =~= to);
    } else {
        let u = ups.len();
        assert forall|i: int| 0 <= i < u implies #[trigger] parts[i] == ".."@ by {
            assert(parts[i] == ups[i]);
        }
        lemma_walk_up(from, parts, u);
        assert(from.take(from.len() - u) =~= to.take(k as int));
        assert forall|i: int| u <= i < parts.len() implies #[trigger] parts[i] == to[i - u + k]
            && parts[i] != ".."@ && parts[i] != "."@ by {
            assert(parts[i] == target[i - u + k].0);
        }
        lemma_walk_down(from, parts, u, parts.len(), to, k);
        assert(to.take(k + (parts.len() - u)) =~= to);
    }
}

} // verus!
