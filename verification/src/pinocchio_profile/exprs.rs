//! What single patterns and expressions say.
use vstd::prelude::*;

use crate::number::{parse_below, parse_u8, parse_usize};
use crate::pinocchio_profile::naming::{
    integer_rust_type, integer_type, normalize_schema_name, schema_name,
};
use crate::pinocchio_profile::syntax::{
    alternatives, binding, call_parts, element_parts, field_parts, inner_expr, int_digits,
    method_parts, path_segments, pattern_int, range_ends, syn_alternatives, syn_binding, syn_call,
    syn_elements, syn_field, syn_inner, syn_int, syn_method, syn_path, syn_pattern_int, syn_range,
    Around, Binding, BindingV,
};
use crate::pinocchio_profile::walk::{normalize_expr_tokens, shorter, size, tokens, walk, walked};
use crate::pinocchio_profile::{DerivationV, PinocchioLocalKeyDerivation};
use crate::search::{contains, contains_text, opt_text, strip_prefix, without_prefix};
use crate::split::{trim, trim_start_matches, trim_start_of, trim_text};
use crate::text::{join, join_text, same, texts};

verus! {

broadcast use {crate::text::group_text, crate::text::texts_index, crate::text::texts_len};

// ---------------------------------------------------------------------------
// Patterns
// ---------------------------------------------------------------------------

/// The name that a pattern binds, with or without a type.
pub open spec fn name_of_pattern(p: Seq<char>) -> Option<Seq<char>>
    decreases size(p),
{
    match syn_binding(p) {
        BindingV::Name(n) => Some(schema_name(n)),
        BindingV::Typed(q) => if size(q) < size(p) {
            name_of_pattern(q)
        } else {
            None
        },
        _ => None,
    }
}

/// The name that a pattern binds.
pub fn simple_pat_ident(p: &str) -> (r: Option<String>)
    ensures
        opt_text(r) == name_of_pattern(p@),
    decreases size(p@),
{
    match binding(p) {
        Binding::Name(n) => Some(normalize_schema_name(&n)),
        Binding::Typed(q) => if shorter(&q, p) {
            simple_pat_ident(&q)
        } else {
            None
        },
        _ => None,
    }
}

/// The names among the elements of a slice pattern from `i` on, up to the rest
/// of the slice, behind `acc`. There are none where an element is anything
/// else.
pub open spec fn slice_names(es: Seq<Seq<char>>, i: int, acc: Seq<Seq<char>>) -> Option<
    Seq<Seq<char>>,
>
    decreases es.len() - i,
{
    if i < 0 || i >= es.len() {
        Some(acc)
    } else {
        match syn_binding(es[i]) {
            BindingV::Name(n) => slice_names(es, i + 1, acc.push(schema_name(n))),
            BindingV::Rest => Some(acc),
            _ => None,
        }
    }
}

/// The names that a slice pattern binds.
pub open spec fn names_of_slice(p: Seq<char>) -> Option<Seq<Seq<char>>> {
    match syn_binding(p) {
        BindingV::Slice(es) => slice_names(es, 0, Seq::empty()),
        _ => None,
    }
}

/// The names that a slice pattern binds.
pub fn accounts_from_destructure_pat(p: &str) -> (r: Option<Vec<String>>)
    ensures
        match r {
            Some(v) => names_of_slice(p@) == Some(texts(v@)),
            None => names_of_slice(p@) is None,
        },
{
    match binding(p) {
        Binding::Slice(es) => {
            let mut out: Vec<String> = Vec::new();
            let mut i: usize = 0;
            while i < es.len()
                invariant
                    i <= es@.len(),
                    names_of_slice(p@) == slice_names(texts(es@), i as int, texts(out@)),
                decreases es@.len() - i,
            {
                match binding(&es[i]) {
                    Binding::Name(n) => {
                        out.push(normalize_schema_name(&n));
                    },
                    Binding::Rest => {
                        return Some(out);
                    },
                    _ => {
                        return None;
                    },
                }
                i = i + 1;
            }
            Some(out)
        },
        _ => None,
    }
}

/// The number of a pattern that is one, or of the first alternative that is.
pub open spec fn u8_of_pattern(p: Seq<char>) -> Option<nat>
    decreases size(p), 1nat, 0int,
{
    match syn_pattern_int(p) {
        Some(digits) => parse_below(digits, 255),
        None => match syn_alternatives(p) {
            Some(cases) => first_u8(cases, size(p), 0),
            None => None,
        },
    }
}

pub open spec fn first_u8(cases: Seq<Seq<char>>, bound: nat, i: int) -> Option<nat>
    decreases bound, 0nat, cases.len() - i,
{
    if i < 0 || i >= cases.len() {
        None
    } else {
        let own = if size(cases[i]) < bound {
            u8_of_pattern(cases[i])
        } else {
            None
        };
        if own is Some {
            own
        } else {
            first_u8(cases, bound, i + 1)
        }
    }
}

/// The number of a pattern.
pub fn pat_u8_literal(p: &str) -> (r: Option<u8>)
    ensures
        match r {
            Some(n) => u8_of_pattern(p@) == Some(n as nat),
            None => u8_of_pattern(p@) is None,
        },
    decreases size(p@),
{
    match pattern_int(p) {
        Some(digits) => parse_u8(&digits),
        None => match alternatives(p) {
            Some(cases) => {
                let ghost all = texts(cases@);
                let mut i: usize = 0;
                while i < cases.len()
                    invariant
                        i <= cases@.len(),
                        all == texts(cases@),
                        first_u8(all, size(p@), 0) == first_u8(all, size(p@), i as int),
                        u8_of_pattern(p@) == first_u8(all, size(p@), 0),
                    decreases cases@.len() - i,
                {
                    if shorter(&cases[i], p) {
                        let own = pat_u8_literal(&cases[i]);
                        if own.is_some() {
                            return own;
                        }
                    }
                    i = i + 1;
                }
                None
            },
            None => None,
        },
    }
}

// ---------------------------------------------------------------------------
// Names and calls
// ---------------------------------------------------------------------------

/// The name of what is called: the last name of a path, or a method.
pub open spec fn callee_name(f: Seq<char>) -> Option<Seq<char>> {
    match syn_path(f) {
        Some(segs) => if segs.len() > 0 {
            Some(segs.last())
        } else {
            None
        },
        None => match syn_method(f) {
            Some(m) => Some(m.method),
            None => None,
        },
    }
}

/// The name of what is called.
pub fn call_name(f: &str) -> (r: Option<String>)
    ensures
        opt_text(r) == callee_name(f@),
{
    match path_segments(f) {
        Some(segs) => if segs.len() > 0 {
            Some(segs[segs.len() - 1].clone())
        } else {
            None
        },
        None => match method_parts(f) {
            Some(m) => Some(m.method),
            None => None,
        },
    }
}

/// A call of a function that has a name: the name and the arguments.
pub open spec fn named_call(e: Seq<char>) -> Option<(Seq<char>, Seq<Seq<char>>)> {
    match syn_call(e) {
        Some((f, args)) => match callee_name(f) {
            Some(name) => Some((name, args)),
            None => None,
        },
        None => None,
    }
}

/// A call of a function that has a name.
pub fn read_call(e: &str) -> (r: Option<(String, Vec<String>)>)
    ensures
        match r {
            Some(c) => named_call(e@) == Some((c.0@, texts(c.1@))),
            None => named_call(e@) is None,
        },
{
    match call_parts(e) {
        Some((f, args)) => match call_name(&f) {
            Some(name) => Some((name, args)),
            None => None,
        },
        None => None,
    }
}

/// Whether one of the first `n` expressions is a call of the function.
pub open spec fn calls_upto(es: Seq<Seq<char>>, name: Seq<char>, n: nat) -> bool
    decreases n,
{
    if n == 0 {
        false
    } else {
        calls_upto(es, name, (n - 1) as nat) || match named_call(es[n - 1]) {
            Some((f, _)) => f == name,
            None => false,
        }
    }
}

/// Whether a call of the function stands anywhere in an expression.
pub open spec fn calls(e: Seq<char>, name: Seq<char>) -> bool {
    calls_upto(walked(e), name, walked(e).len())
}

/// Whether a call of the function stands anywhere in an expression.
pub fn expr_contains_call_name(e: &str, name: &str) -> (r: bool)
    ensures
        r == calls(e@, name@),
{
    let es = walk(e);
    let mut found: bool = false;
    for i in 0..es.len()
        invariant
            found == calls_upto(texts(es@), name@, i as nat),
    {
        match read_call(&es[i]) {
            Some((f, _)) => {
                if same(&f, name) {
                    found = true;
                }
            },
            None => {},
        }
    }
    found
}

/// The name that an expression is, behind references and parentheses.
pub open spec fn ident_of(e: Seq<char>) -> Option<Seq<char>>
    decreases size(e),
{
    match syn_path(e) {
        Some(segs) => if segs.len() == 1 {
            Some(schema_name(segs[0]))
        } else {
            None
        },
        None => match syn_inner(e) {
            Some((around, x)) => if (around == Around::Reference || around == Around::Paren)
                && size(x) < size(e) {
                ident_of(x)
            } else {
                None
            },
            None => None,
        },
    }
}

/// The name that an expression is.
pub fn expr_ident(e: &str) -> (r: Option<String>)
    ensures
        opt_text(r) == ident_of(e@),
    decreases size(e@),
{
    match path_segments(e) {
        Some(segs) => if segs.len() == 1 {
            Some(normalize_schema_name(&segs[0]))
        } else {
            None
        },
        None => match inner_expr(e) {
            Some((around, x)) => if (around == Around::Reference || around == Around::Paren)
                && shorter(&x, e) {
                expr_ident(&x)
            } else {
                None
            },
            None => None,
        },
    }
}

/// The name that an expression refers to.
pub open spec fn ref_ident_of(e: Seq<char>) -> Option<Seq<char>>
    decreases size(e),
{
    match syn_inner(e) {
        Some((around, x)) => if around == Around::Reference {
            ident_of(x)
        } else if around == Around::Paren && size(x) < size(e) {
            ref_ident_of(x)
        } else {
            None
        },
        None => None,
    }
}

/// The name that an expression refers to.
pub fn expr_ref_ident(e: &str) -> (r: Option<String>)
    ensures
        opt_text(r) == ref_ident_of(e@),
    decreases size(e@),
{
    match inner_expr(e) {
        Some((around, x)) => if around == Around::Reference {
            expr_ident(&x)
        } else if around == Around::Paren && shorter(&x, e) {
            expr_ref_ident(&x)
        } else {
            None
        },
        None => None,
    }
}

/// The account whose key an expression is.
pub open spec fn key_receiver_of(e: Seq<char>) -> Option<Seq<char>>
    decreases size(e),
{
    match syn_method(e) {
        Some(m) => if m.method == "key"@ && m.args.len() == 0 {
            ident_of(m.receiver)
        } else {
            None
        },
        None => match syn_inner(e) {
            Some((around, x)) => if (around == Around::Reference || around == Around::Paren)
                && size(x) < size(e) {
                key_receiver_of(x)
            } else {
                None
            },
            None => None,
        },
    }
}

/// The account whose key an expression is.
pub fn expr_key_receiver(e: &str) -> (r: Option<String>)
    ensures
        opt_text(r) == key_receiver_of(e@),
    decreases size(e@),
{
    match method_parts(e) {
        Some(m) => if same(&m.method, "key") && m.args.len() == 0 {
            expr_ident(&m.receiver)
        } else {
            None
        },
        None => match inner_expr(e) {
            Some((around, x)) => if (around == Around::Reference || around == Around::Paren)
                && shorter(&x, e) {
                expr_key_receiver(&x)
            } else {
                None
            },
            None => None,
        },
    }
}

/// Whether an expression speaks of the token program.
pub open spec fn mentions_token_program(e: Seq<char>) -> bool {
    let t = tokens(e);
    contains_text(t, "SPL_TOKEN_ID"@) || contains_text(t, "TOKEN_PROGRAM_ID"@) || contains_text(
        t,
        "pinocchio_tkn"@,
    )
}

/// Whether an expression speaks of the token program.
pub fn expr_mentions_token_program(e: &str) -> (r: bool)
    ensures
        r == mentions_token_program(e@),
{
    let t = normalize_expr_tokens(e);
    contains(&t, "SPL_TOKEN_ID") || contains(&t, "TOKEN_PROGRAM_ID") || contains(
        &t,
        "pinocchio_tkn",
    )
}

// ---------------------------------------------------------------------------
// Derivations
// ---------------------------------------------------------------------------

pub open spec fn all_tokens(es: Seq<Seq<char>>) -> Seq<Seq<char>> {
    es.map_values(|e: Seq<char>| tokens(e))
}

/// The expressions without spaces.
pub fn tokens_of(es: &Vec<String>) -> (r: Vec<String>)
    ensures
        texts(r@) == all_tokens(texts(es@)),
{
    let mut out: Vec<String> = Vec::new();
    for i in 0..es.len()
        invariant
            texts(out@) =~= all_tokens(texts(es@)).take(i as int),
    {
        out.push(normalize_expr_tokens(&es[i]));
    }
    proof {
        assert(texts(out@) =~= all_tokens(texts(es@)));
    }
    out
}

/// The derivation that an expression calls, behind references, parentheses,
/// `?` and `.0`.
pub open spec fn derivation_of(e: Seq<char>) -> Option<DerivationV>
    decreases size(e),
{
    match syn_inner(e) {
        Some((around, x)) => if (around == Around::Reference || around == Around::Paren || around
            == Around::Try) && size(x) < size(e) {
            derivation_of(x)
        } else {
            None
        },
        None => match syn_field(e) {
            Some((base, member)) => if member == "0"@ && size(base) < size(e) {
                derivation_of(base)
            } else {
                None
            },
            None => match named_call(e) {
                Some((f, args)) => match without_prefix(f, "derive_"@) {
                    Some(name) => Some(
                        DerivationV { derivation: schema_name(name), args: all_tokens(args) },
                    ),
                    None => None,
                },
                None => None,
            },
        },
    }
}

/// The derivation that an expression calls.
pub fn derive_call_from_expr(e: &str) -> (r: Option<PinocchioLocalKeyDerivation>)
    ensures
        match r {
            Some(d) => derivation_of(e@) == Some(d@),
            None => derivation_of(e@) is None,
        },
    decreases size(e@),
{
    match inner_expr(e) {
        Some((around, x)) => if (around == Around::Reference || around == Around::Paren || around
            == Around::Try) && shorter(&x, e) {
            derive_call_from_expr(&x)
        } else {
            None
        },
        None => match field_parts(e) {
            Some((base, member)) => if same(&member, "0") && shorter(&base, e) {
                derive_call_from_expr(&base)
            } else {
                None
            },
            None => match read_call(e) {
                Some((f, args)) => match strip_prefix(&f, "derive_") {
                    Some(name) => Some(
                        PinocchioLocalKeyDerivation {
                            derivation: normalize_schema_name(&name),
                            args: tokens_of(&args),
                        },
                    ),
                    None => None,
                },
                None => None,
            },
        },
    }
}

// ---------------------------------------------------------------------------
// Aliases
// ---------------------------------------------------------------------------

/// What an expression stands for: without references, operators and
/// parentheses, and the argument of a call that has one.
pub open spec fn alias_of(e: Seq<char>) -> Seq<char>
    decreases size(e),
{
    match syn_inner(e) {
        Some((around, x)) => if (around == Around::Reference || around == Around::Unary || around
            == Around::Paren) && size(x) < size(e) {
            alias_of(x)
        } else {
            tokens(e)
        },
        None => match syn_call(e) {
            Some((_, args)) => if args.len() == 1 && size(args[0]) < size(e) {
                alias_of(args[0])
            } else {
                tokens(e)
            },
            None => tokens(e),
        },
    }
}

/// What an expression stands for.
pub fn normalize_ast_expr_alias(e: &str) -> (r: String)
    ensures
        r@ == alias_of(e@),
    decreases size(e@),
{
    match inner_expr(e) {
        Some((around, x)) => if (around == Around::Reference || around == Around::Unary || around
            == Around::Paren) && shorter(&x, e) {
            normalize_ast_expr_alias(&x)
        } else {
            normalize_expr_tokens(e)
        },
        None => match call_parts(e) {
            Some((_, args)) => if args.len() == 1 && shorter(&args[0], e) {
                normalize_ast_expr_alias(&args[0])
            } else {
                normalize_expr_tokens(e)
            },
            None => normalize_expr_tokens(e),
        },
    }
}

/// What a wrapper is made of: the argument of a call of a plain name with one
/// argument.
pub open spec fn wrapped_arg(e: Seq<char>) -> Option<Seq<char>> {
    match syn_call(e) {
        Some((f, args)) => match syn_path(f) {
            Some(segs) => if segs.len() == 1 && args.len() == 1 {
                Some(alias_of(args[0]))
            } else {
                None
            },
            None => None,
        },
        None => None,
    }
}

/// What a wrapper is made of.
pub fn wrapper_ctor_arg(e: &str) -> (r: Option<String>)
    ensures
        opt_text(r) == wrapped_arg(e@),
{
    match call_parts(e) {
        Some((f, args)) => match path_segments(&f) {
            Some(segs) => if segs.len() == 1 && args.len() == 1 {
                Some(normalize_ast_expr_alias(&args[0]))
            } else {
                None
            },
            None => None,
        },
        None => None,
    }
}

// ---------------------------------------------------------------------------
// Instruction data
// ---------------------------------------------------------------------------

/// An expression without `?`, parentheses and references around it.
pub open spec fn peeled(e: Seq<char>) -> Seq<char>
    decreases size(e),
{
    match syn_inner(e) {
        Some((around, x)) => if (around == Around::Reference || around == Around::Paren || around
            == Around::Try) && size(x) < size(e) {
            peeled(x)
        } else {
            e
        },
        None => e,
    }
}

/// An expression without `?`, parentheses and references around it.
pub fn peel_expr(e: &str) -> (r: String)
    ensures
        r@ == peeled(e@),
    decreases size(e@),
{
    match inner_expr(e) {
        Some((around, x)) => if (around == Around::Reference || around == Around::Paren || around
            == Around::Try) && shorter(&x, e) {
            peel_expr(&x)
        } else {
            e.to_owned()
        },
        None => e.to_owned(),
    }
}

/// The number that an expression is.
pub open spec fn usize_of(e: Seq<char>) -> Option<nat> {
    match syn_int(e) {
        Some(digits) => parse_below(digits, usize::MAX as nat),
        None => None,
    }
}

/// The number that an expression is.
pub fn usize_lit(e: &str) -> (r: Option<usize>)
    ensures
        match r {
            Some(n) => usize_of(e@) == Some(n as nat),
            None => usize_of(e@) is None,
        },
{
    match int_digits(e) {
        Some(digits) => parse_usize(&digits),
        None => None,
    }
}

/// The ends of a range of numbers.
pub open spec fn range_of(e: Seq<char>) -> Option<(nat, nat)> {
    match syn_range(e) {
        Some((Some(a), Some(b))) => match (usize_of(a), usize_of(b)) {
            (Some(from), Some(to)) => Some((from, to)),
            _ => None,
        },
        _ => None,
    }
}

/// The ends of a range of numbers.
pub fn literal_range(e: &str) -> (r: Option<(usize, usize)>)
    ensures
        match r {
            Some((from, to)) => range_of(e@) == Some((from as nat, to as nat)),
            None => range_of(e@) is None,
        },
{
    match range_ends(e) {
        Some((Some(a), Some(b))) => match (usize_lit(&a), usize_lit(&b)) {
            (Some(from), Some(to)) => Some((from, to)),
            _ => None,
        },
        _ => None,
    }
}

/// Which bytes of the instruction data an expression takes.
pub open spec fn data_range(e: Seq<char>) -> Option<(nat, nat)>
    decreases size(e), 1nat, 0int,
{
    let p = peeled(e);
    match syn_method(p) {
        Some(m) => if m.method == "get"@ && tokens(m.receiver) == "instruction_data"@ {
            if m.args.len() > 0 {
                range_of(m.args[0])
            } else {
                None
            }
        } else if (m.method == "ok_or"@ || m.method == "map_err"@ || m.method == "try_into"@)
            && size(m.receiver) < size(e) {
            data_range(m.receiver)
        } else {
            None
        },
        None => match syn_call(p) {
            Some((_, args)) => first_range(args, size(e), 0),
            None => None,
        },
    }
}

pub open spec fn first_range(es: Seq<Seq<char>>, bound: nat, i: int) -> Option<(nat, nat)>
    decreases bound, 0nat, es.len() - i,
{
    if i < 0 || i >= es.len() {
        None
    } else {
        let own = if size(es[i]) < bound {
            data_range(es[i])
        } else {
            None
        };
        if own is Some {
            own
        } else {
            first_range(es, bound, i + 1)
        }
    }
}

/// Which bytes of the instruction data an expression takes.
pub fn instruction_data_range(e: &str) -> (r: Option<(usize, usize)>)
    ensures
        match r {
            Some((from, to)) => data_range(e@) == Some((from as nat, to as nat)),
            None => data_range(e@) is None,
        },
    decreases size(e@),
{
    let p = peel_expr(e);
    match method_parts(&p) {
        Some(m) => {
            if same(&m.method, "get") && same(
                &normalize_expr_tokens(&m.receiver),
                "instruction_data",
            ) {
                if m.args.len() > 0 {
                    literal_range(&m.args[0])
                } else {
                    None
                }
            } else if (same(&m.method, "ok_or") || same(&m.method, "map_err") || same(
                &m.method,
                "try_into",
            )) && shorter(&m.receiver, e) {
                instruction_data_range(&m.receiver)
            } else {
                None
            }
        },
        None => match call_parts(&p) {
            Some((_, args)) => {
                let ghost all = texts(args@);
                let mut i: usize = 0;
                while i < args.len()
                    invariant
                        i <= args@.len(),
                        all == texts(args@),
                        data_range(e@) == first_range(all, size(e@), i as int),
                    decreases args@.len() - i,
                {
                    if shorter(&args[i], e) {
                        let own = instruction_data_range(&args[i]);
                        if own.is_some() {
                            return own;
                        }
                    }
                    i = i + 1;
                }
                None
            },
            None => None,
        },
    }
}

/// The number that an expression reads from the instruction data: its type and
/// the bytes that it takes.
pub open spec fn read_number(e: Seq<char>) -> Option<(Seq<char>, nat, nat)> {
    match syn_call(peeled(e)) {
        Some((f, args)) => match syn_path(f) {
            Some(segs) => if segs.len() >= 2 && segs.last() == "from_le_bytes"@ && integer_type(
                segs[segs.len() - 2],
            ) is Some && args.len() > 0 {
                match data_range(args[0]) {
                    Some((from, to)) => Some((segs[segs.len() - 2], from, to)),
                    None => None,
                }
            } else {
                None
            },
            None => None,
        },
        None => None,
    }
}

/// The number that an expression reads from the instruction data.
pub fn from_le_bytes_instruction_slice(e: &str) -> (r: Option<(String, usize, usize)>)
    ensures
        match r {
            Some((ty, from, to)) => read_number(e@) == Some((ty@, from as nat, to as nat)),
            None => read_number(e@) is None,
        },
{
    match call_parts(&peel_expr(e)) {
        Some((f, args)) => match path_segments(&f) {
            Some(segs) => {
                let n: usize = segs.len();
                if n >= 2 && same(&segs[n - 1], "from_le_bytes") && integer_rust_type(
                    &segs[n - 2],
                ).is_some() && args.len() > 0 {
                    match instruction_data_range(&args[0]) {
                        Some((from, to)) => Some((segs[n - 2].clone(), from, to)),
                        None => None,
                    }
                } else {
                    None
                }
            },
            None => None,
        },
        None => None,
    }
}

// ---------------------------------------------------------------------------
// Dispatch and addresses
// ---------------------------------------------------------------------------

/// The handler that the first call of one among the expressions from `i` on
/// names.
pub open spec fn first_handler(es: Seq<Seq<char>>, i: int) -> Option<Seq<char>>
    decreases es.len() - i,
{
    if i < 0 || i >= es.len() {
        None
    } else {
        match named_call(es[i]) {
            Some((f, _)) => match without_prefix(f, "process_"@) {
                Some(name) => Some(schema_name(name)),
                None => first_handler(es, i + 1),
            },
            None => first_handler(es, i + 1),
        }
    }
}

/// The handler that an expression calls first.
pub open spec fn handler_called(e: Seq<char>) -> Option<Seq<char>> {
    first_handler(walked(e), 0)
}

/// The handler that an expression calls first.
pub fn first_process_callee(e: &str) -> (r: Option<String>)
    ensures
        opt_text(r) == handler_called(e@),
{
    let es = walk(e);
    let mut i: usize = 0;
    while i < es.len()
        invariant
            i <= es@.len(),
            first_handler(texts(es@), 0) == first_handler(texts(es@), i as int),
            texts(es@) == walked(e@),
        decreases es@.len() - i,
    {
        match read_call(&es[i]) {
            Some((f, _)) => {
                match strip_prefix(&f, "process_") {
                    Some(name) => {
                        return Some(normalize_schema_name(&name));
                    },
                    None => {},
                }
            },
            None => {},
        }
        i = i + 1;
    }
    None
}

/// A seed as text.
pub open spec fn seed_text(e: Seq<char>) -> Seq<char>
    decreases size(e),
{
    match (syn_inner(e), syn_path(e), syn_elements(e), syn_method(e)) {
        (Some((around, x)), _, _, _) => if around == Around::Reference && size(x) < size(e) {
            seed_text(x)
        } else {
            trim_start_of(tokens(e), "crate::"@)
        },
        (_, Some(segs), _, _) => trim_start_of(join_text(segs, "::"@), "crate::"@),
        (_, _, Some((true, es)), _) => "["@ + join_text(all_tokens(es), ", "@) + "]"@,
        (_, _, _, Some(m)) => if m.method == "as_ref"@ && size(m.receiver) < size(e) {
            seed_text(m.receiver) + ".as_ref()"@
        } else {
            trim_start_of(tokens(e), "crate::"@)
        },
        _ => trim_start_of(tokens(e), "crate::"@),
    }
}

/// A seed as text.
pub fn normalize_seed_ast_expr(e: &str) -> (r: String)
    ensures
        r@ == seed_text(e@),
    decreases size(e@),
{
    proof {
        reveal_strlit("crate::");
    }
    match inner_expr(e) {
        Some((around, x)) => {
            if around == Around::Reference && shorter(&x, e) {
                return normalize_seed_ast_expr(&x);
            }
            return trim_start_matches(&normalize_expr_tokens(e), "crate::");
        },
        None => {},
    }
    match path_segments(e) {
        Some(segs) => {
            return trim_start_matches(&join(&segs, "::"), "crate::");
        },
        None => {},
    }
    match element_parts(e) {
        Some((is_array, es)) => {
            if is_array {
                let inner = join(&tokens_of(&es), ", ");
                let mut out = "[".to_owned();
                out.push_str(&inner);
                out.push_str("]");
                return out;
            }
        },
        None => {},
    }
    match method_parts(e) {
        Some(m) => {
            if same(&m.method, "as_ref") && shorter(&m.receiver, e) {
                let mut out = normalize_seed_ast_expr(&m.receiver);
                out.push_str(".as_ref()");
                return out;
            }
        },
        None => {},
    }
    trim_start_matches(&normalize_expr_tokens(e), "crate::")
}

pub open spec fn seed_texts(es: Seq<Seq<char>>) -> Seq<Seq<char>> {
    es.map_values(|e: Seq<char>| seed_text(e))
}

/// The seeds of an array of seeds, or of a reference to one.
pub open spec fn seeds_of(e: Seq<char>) -> Option<Seq<Seq<char>>> {
    let a = match syn_inner(e) {
        Some((Around::Reference, x)) => x,
        _ => e,
    };
    match syn_elements(a) {
        Some((true, es)) => Some(seed_texts(es)),
        _ => None,
    }
}

/// The seeds of an array of seeds.
pub fn seed_exprs_from_arg(e: &str) -> (r: Option<Vec<String>>)
    ensures
        match r {
            Some(v) => seeds_of(e@) == Some(texts(v@)),
            None => seeds_of(e@) is None,
        },
{
    let a = match inner_expr(e) {
        Some((Around::Reference, x)) => x,
        _ => e.to_owned(),
    };
    match element_parts(&a) {
        Some((true, es)) => {
            let mut out: Vec<String> = Vec::new();
            for i in 0..es.len()
                invariant
                    texts(out@) =~= seed_texts(texts(es@)).take(i as int),
            {
                out.push(normalize_seed_ast_expr(&es[i]));
            }
            proof {
                assert(texts(out@) =~= seed_texts(texts(es@)));
            }
            Some(out)
        },
        _ => None,
    }
}

/// The program that an address belongs to.
pub open spec fn program_of(e: Seq<char>) -> Seq<char> {
    trim_start_of(trim_text(trim_start_of(tokens(e), "&"@)), "crate::"@)
}

/// The program that an address belongs to.
pub fn normalize_program_id_arg(e: &str) -> (r: String)
    ensures
        r@ == program_of(e@),
{
    proof {
        reveal_strlit("&");
        reveal_strlit("crate::");
    }
    let t = trim_start_matches(&normalize_expr_tokens(e), "&");
    trim_start_matches(&trim(&t), "crate::")
}

/// The seeds and the program of a search for an address.
pub open spec fn address_call(e: Seq<char>) -> Option<(Seq<Seq<char>>, Seq<char>)> {
    match named_call(e) {
        Some((f, args)) => if (f == "find_program_address"@ || f == "try_find_program_address"@)
            && args.len() >= 2 {
            match seeds_of(args[0]) {
                Some(seeds) => if seeds.len() > 0 && program_of(args[1]).len() > 0 {
                    Some((seeds, program_of(args[1])))
                } else {
                    None
                },
                None => None,
            }
        } else {
            None
        },
        None => None,
    }
}

/// The seeds and the program of a search for an address.
pub fn read_address_call(e: &str) -> (r: Option<(Vec<String>, String)>)
    ensures
        match r {
            Some(a) => address_call(e@) == Some((texts(a.0@), a.1@)),
            None => address_call(e@) is None,
        },
{
    match read_call(e) {
        Some((f, args)) => {
            if (same(&f, "find_program_address") || same(&f, "try_find_program_address"))
                && args.len() >= 2 {
                match seed_exprs_from_arg(&args[0]) {
                    Some(seeds) => {
                        let program = normalize_program_id_arg(&args[1]);
                        if seeds.len() > 0 && !program.as_str().is_empty() {
                            Some((seeds, program))
                        } else {
                            None
                        }
                    },
                    None => None,
                }
            } else {
                None
            }
        },
        None => None,
    }
}

/// The first search for an address among the expressions from `i` on.
pub open spec fn first_address(es: Seq<Seq<char>>, i: int) -> Option<(Seq<Seq<char>>, Seq<char>)>
    decreases es.len() - i,
{
    if i < 0 || i >= es.len() {
        None
    } else if address_call(es[i]) is Some {
        address_call(es[i])
    } else {
        first_address(es, i + 1)
    }
}

/// The first search for an address among expressions.
pub fn find_address_call(es: &Vec<String>) -> (r: Option<(Vec<String>, String)>)
    ensures
        match r {
            Some(a) => first_address(texts(es@), 0) == Some((texts(a.0@), a.1@)),
            None => first_address(texts(es@), 0) is None,
        },
{
    let mut i: usize = 0;
    while i < es.len()
        invariant
            i <= es@.len(),
            first_address(texts(es@), 0) == first_address(texts(es@), i as int),
        decreases es@.len() - i,
    {
        let own = read_address_call(&es[i]);
        if own.is_some() {
            return own;
        }
        i = i + 1;
    }
    None
}

} // verus!
