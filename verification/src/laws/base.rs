//! What the texts and numbers that everything is made of say.
use vstd::prelude::*;

use crate::laws::lists::param_sig_text_stands;
use crate::laws::stands::{neighbours_stand, part_stands, stands_right};
use crate::lean::base::{
    args_text, default_text, dsl_default_text, dsl_ty_text, max_text, param_names, path_field,
    sig_text, ty_text,
};
use crate::lean::overflow::{is_numeric, max_name, width_text};
use crate::mir::{lean_of, Expr, Path, Symbol, Ty};
use crate::number::{decimal, digit_char, digits_value, int_decimal, parse_nat, unsigned_digits};
use crate::search::{contains_text, without_prefix, without_suffix};
use crate::split::{split_from, split_text, trim_end_text, trim_start_text, trim_text};
use crate::text::{is_digit, is_space, join_text};

verus! {

broadcast use crate::text::group_text;

// ---------------------------------------------------------------------------
// Numbers
// ---------------------------------------------------------------------------

proof fn lemma_value_of_none(s: Seq<char>)
    ensures
        digits_value(s.take(0)) == 0,
{
    assert(s.take(0) =~= Seq::empty());
}

proof fn lemma_one_more(s: Seq<char>, i: int, v: nat)
    requires
        0 <= i < s.len(),
        digits_value(s.take(i)) == v,
        is_digit(s[i]),
    ensures
        digits_value(s.take(i + 1)) == v * 10 + ((s[i] as nat) - 48),
{
    assert(s.take(i + 1).drop_last() =~= s.take(i));
    assert(s.take(i + 1).last() == s[i]);
}

proof fn lemma_max_8()
    ensures
        parse_nat("255"@) == Some(0xff as nat),
{
    reveal_strlit("255");
    let s = "255"@;
    lemma_value_of_none(s);
    lemma_one_more(s, 0, 0);
    lemma_one_more(s, 1, 2);
    lemma_one_more(s, 2, 25);
    assert(s.take(3) =~= s);
    assert(unsigned_digits(s) == s);
    assert forall|i: int| 0 <= i < s.len() implies is_digit(#[trigger] s[i]) by {
    }
}

proof fn lemma_max_16()
    ensures
        parse_nat("65535"@) == Some(0xffff as nat),
{
    reveal_strlit("65535");
    let s = "65535"@;
    lemma_value_of_none(s);
    lemma_one_more(s, 0, 0);
    lemma_one_more(s, 1, 6);
    lemma_one_more(s, 2, 65);
    lemma_one_more(s, 3, 655);
    lemma_one_more(s, 4, 6553);
    assert(s.take(5) =~= s);
    assert(unsigned_digits(s) == s);
    assert forall|i: int| 0 <= i < s.len() implies is_digit(#[trigger] s[i]) by {
    }
}

proof fn lemma_max_32()
    ensures
        parse_nat("4294967295"@) == Some(0xffffffff as nat),
{
    reveal_strlit("4294967295");
    let s = "4294967295"@;
    lemma_value_of_none(s);
    lemma_one_more(s, 0, 0);
    lemma_one_more(s, 1, 4);
    lemma_one_more(s, 2, 42);
    lemma_one_more(s, 3, 429);
    lemma_one_more(s, 4, 4294);
    lemma_one_more(s, 5, 42949);
    lemma_one_more(s, 6, 429496);
    lemma_one_more(s, 7, 4294967);
    lemma_one_more(s, 8, 42949672);
    lemma_one_more(s, 9, 429496729);
    assert(s.take(10) =~= s);
    assert(unsigned_digits(s) == s);
    assert forall|i: int| 0 <= i < s.len() implies is_digit(#[trigger] s[i]) by {
    }
}

proof fn lemma_max_64()
    ensures
        parse_nat("18446744073709551615"@) == Some(0xffffffffffffffff as nat),
{
    reveal_strlit("18446744073709551615");
    let s = "18446744073709551615"@;
    lemma_value_of_none(s);
    lemma_one_more(s, 0, 0);
    lemma_one_more(s, 1, 1);
    lemma_one_more(s, 2, 18);
    lemma_one_more(s, 3, 184);
    lemma_one_more(s, 4, 1844);
    lemma_one_more(s, 5, 18446);
    lemma_one_more(s, 6, 184467);
    lemma_one_more(s, 7, 1844674);
    lemma_one_more(s, 8, 18446744);
    lemma_one_more(s, 9, 184467440);
    lemma_one_more(s, 10, 1844674407);
    lemma_one_more(s, 11, 18446744073);
    lemma_one_more(s, 12, 184467440737);
    lemma_one_more(s, 13, 1844674407370);
    lemma_one_more(s, 14, 18446744073709);
    lemma_one_more(s, 15, 184467440737095);
    lemma_one_more(s, 16, 1844674407370955);
    lemma_one_more(s, 17, 18446744073709551);
    lemma_one_more(s, 18, 184467440737095516);
    lemma_one_more(s, 19, 1844674407370955161);
    assert(s.take(20) =~= s);
    assert(unsigned_digits(s) == s);
    assert forall|i: int| 0 <= i < s.len() implies is_digit(#[trigger] s[i]) by {
    }
}

proof fn lemma_max_128()
    ensures
        parse_nat("340282366920938463463374607431768211455"@) == Some(0xffffffffffffffffffffffffffffffff as nat),
{
    reveal_strlit("340282366920938463463374607431768211455");
    let s = "340282366920938463463374607431768211455"@;
    lemma_value_of_none(s);
    lemma_one_more(s, 0, 0);
    lemma_one_more(s, 1, 3);
    lemma_one_more(s, 2, 34);
    lemma_one_more(s, 3, 340);
    lemma_one_more(s, 4, 3402);
    lemma_one_more(s, 5, 34028);
    lemma_one_more(s, 6, 340282);
    lemma_one_more(s, 7, 3402823);
    lemma_one_more(s, 8, 34028236);
    lemma_one_more(s, 9, 340282366);
    lemma_one_more(s, 10, 3402823669);
    lemma_one_more(s, 11, 34028236692);
    lemma_one_more(s, 12, 340282366920);
    lemma_one_more(s, 13, 3402823669209);
    lemma_one_more(s, 14, 34028236692093);
    lemma_one_more(s, 15, 340282366920938);
    lemma_one_more(s, 16, 3402823669209384);
    lemma_one_more(s, 17, 34028236692093846);
    lemma_one_more(s, 18, 340282366920938463);
    lemma_one_more(s, 19, 3402823669209384634);
    lemma_one_more(s, 20, 34028236692093846346);
    lemma_one_more(s, 21, 340282366920938463463);
    lemma_one_more(s, 22, 3402823669209384634633);
    lemma_one_more(s, 23, 34028236692093846346337);
    lemma_one_more(s, 24, 340282366920938463463374);
    lemma_one_more(s, 25, 3402823669209384634633746);
    lemma_one_more(s, 26, 34028236692093846346337460);
    lemma_one_more(s, 27, 340282366920938463463374607);
    lemma_one_more(s, 28, 3402823669209384634633746074);
    lemma_one_more(s, 29, 34028236692093846346337460743);
    lemma_one_more(s, 30, 340282366920938463463374607431);
    lemma_one_more(s, 31, 3402823669209384634633746074317);
    lemma_one_more(s, 32, 34028236692093846346337460743176);
    lemma_one_more(s, 33, 340282366920938463463374607431768);
    lemma_one_more(s, 34, 3402823669209384634633746074317682);
    lemma_one_more(s, 35, 34028236692093846346337460743176821);
    lemma_one_more(s, 36, 340282366920938463463374607431768211);
    lemma_one_more(s, 37, 3402823669209384634633746074317682114);
    lemma_one_more(s, 38, 34028236692093846346337460743176821145);
    assert(s.take(39) =~= s);
    assert(unsigned_digits(s) == s);
    assert forall|i: int| 0 <= i < s.len() implies is_digit(#[trigger] s[i]) by {
    }
}

/// The maximum of an unsigned type is the greatest number of its bits; no other
/// type has one.
pub proof fn maxima_are_all_ones(t: Ty)
    ensures
        t is U8 ==> max_text(t) is Some && parse_nat(max_text(t)->0) == Some(0xff as nat),
        t is U16 ==> max_text(t) is Some && parse_nat(max_text(t)->0) == Some(0xffff as nat),
        t is U32 ==> max_text(t) is Some && parse_nat(max_text(t)->0) == Some(0xffff_ffff as nat),
        t is U64 ==> max_text(t) is Some && parse_nat(max_text(t)->0) == Some(
            0xffff_ffff_ffff_ffff as nat,
        ),
        t is U128 ==> max_text(t) is Some && parse_nat(max_text(t)->0) == Some(
            0xffff_ffff_ffff_ffff_ffff_ffff_ffff_ffff as nat,
        ),
        max_text(t) is Some <==> t is U8 || t is U16 || t is U32 || t is U64 || t is U128,
{
    lemma_max_8();
    lemma_max_16();
    lemma_max_32();
    lemma_max_64();
    lemma_max_128();
}

/// A number in decimal reads as the number, and is made of digits.
pub proof fn decimals_read_back(n: nat)
    ensures
        digits_value(decimal(n)) == n,
        decimal(n).len() > 0,
        forall|i: int| 0 <= i < decimal(n).len() ==> is_digit(#[trigger] decimal(n)[i]),
        parse_nat(decimal(n)) == Some(n),
    decreases n,
{
    reveal_with_fuel(digits_value, 2);
    let s = decimal(n);
    if n < 10 {
        assert(s.drop_last() =~= Seq::empty());
        assert(s.last() == digit_char(n));
    } else {
        decimals_read_back(n / 10);
        assert(s.drop_last() =~= decimal(n / 10));
        assert(s.last() == digit_char(n % 10));
    }
    assert(is_digit(s[0]));
    assert(unsigned_digits(s) == s);
}

/// A negative number has a minus sign before its magnitude.
pub proof fn signs_are_kept(i: int)
    ensures
        i >= 0 ==> parse_nat(int_decimal(i)) == Some(i as nat),
        i < 0 ==> int_decimal(i) == seq!['-'] + decimal((-i) as nat) && parse_nat(
            int_decimal(i).drop_first(),
        ) == Some((-i) as nat),
{
    reveal_strlit("-");
    if i >= 0 {
        decimals_read_back(i as nat);
    } else {
        decimals_read_back((-i) as nat);
        assert("-"@ =~= seq!['-']);
        assert((seq!['-'] + decimal((-i) as nat)).drop_first() =~= decimal((-i) as nat));
    }
}

// ---------------------------------------------------------------------------
// Texts
// ---------------------------------------------------------------------------

proof fn lemma_trim_start(s: Seq<char>)
    ensures
        ({
            let t = trim_start_text(s);
            let n = s.len() - t.len();
            &&& 0 <= n
            &&& t == s.subrange(n, s.len() as int)
            &&& forall|i: int| 0 <= i < n ==> is_space(#[trigger] s[i])
            &&& t.len() > 0 ==> !is_space(t[0])
        }),
    decreases s.len(),
{
    if s.len() > 0 && is_space(s[0]) {
        let r = s.drop_first();
        lemma_trim_start(r);
        let t = trim_start_text(r);
        let n = r.len() - t.len();
        assert(t =~= s.subrange(n + 1, s.len() as int));
        assert forall|i: int| 0 <= i < n + 1 implies is_space(#[trigger] s[i]) by {
            if i > 0 {
                assert(r[i - 1] == s[i]);
            }
        }
    } else {
        assert(s.subrange(0, s.len() as int) =~= s);
    }
}

proof fn lemma_trim_end(s: Seq<char>)
    ensures
        ({
            let t = trim_end_text(s);
            &&& t.len() <= s.len()
            &&& t == s.subrange(0, t.len() as int)
            &&& forall|i: int| t.len() <= i < s.len() ==> is_space(#[trigger] s[i])
            &&& t.len() > 0 ==> !is_space(t.last())
        }),
    decreases s.len(),
{
    if s.len() > 0 && is_space(s.last()) {
        let r = s.drop_last();
        lemma_trim_end(r);
        let t = trim_end_text(r);
        assert(t =~= s.subrange(0, t.len() as int));
        assert forall|i: int| t.len() <= i < s.len() implies is_space(#[trigger] s[i]) by {
            if i < r.len() {
                assert(r[i] == s[i]);
            }
        }
    } else {
        assert(s.subrange(0, s.len() as int) =~= s);
    }
}

/// Trimming takes white space from both ends, all of it and nothing else.
pub proof fn trimming_takes_spaces_alone(s: Seq<char>)
    ensures
        ({
            let t = trim_text(s);
            &&& t.len() > 0 ==> !is_space(t[0]) && !is_space(t.last())
            &&& exists|a: int, b: int|
                0 <= a <= b <= s.len() && t == #[trigger] s.subrange(a, b) && (forall|i: int|
                    (0 <= i < a || b <= i < s.len()) ==> is_space(#[trigger] s[i]))
        }),
{
    let u = trim_start_text(s);
    let t = trim_end_text(u);
    lemma_trim_start(s);
    lemma_trim_end(u);
    let a = s.len() - u.len();
    let b = a + t.len();
    assert(t =~= s.subrange(a, b));
    assert forall|i: int| (0 <= i < a || b <= i < s.len()) implies is_space(#[trigger] s[i]) by {
        if i >= b {
            assert(u[i - a] == s[i]);
        }
    }
    if t.len() > 0 {
        assert(t[0] == u[0]);
    }
    assert(trim_text(s) == t);
}

proof fn lemma_split(s: Seq<char>, c: char, pos: int)
    requires
        0 <= pos <= s.len(),
    ensures
        split_from(s, c, pos).len() > 0,
        join_text(split_from(s, c, pos), seq![c]) == s.subrange(pos, s.len() as int),
        forall|i: int|
            0 <= i < split_from(s, c, pos).len() ==> !(#[trigger] split_from(s, c, pos)[i]).contains(
                c,
            ),
    decreases s.len() - pos,
{
    crate::search::lemma_char_at_or_after(s, c, pos);
    let all = split_from(s, c, pos);
    match crate::search::char_at_or_after(s, c, pos) {
        Some(i) => {
            lemma_split(s, c, i + 1);
            let rest = split_from(s, c, i + 1);
            let first = s.subrange(pos, i);
            assert(all == seq![first] + rest);
            lemma_join_first(first, rest, seq![c]);
            assert(first + seq![c] + s.subrange(i + 1, s.len() as int) =~= s.subrange(
                pos,
                s.len() as int,
            ));
            assert forall|k: int| 0 <= k < all.len() implies !(#[trigger] all[k]).contains(c) by {
                if k == 0 {
                    if first.contains(c) {
                        let j = choose|j: int| 0 <= j < first.len() && first[j] == c;
                        assert(s[pos + j] == c);
                    }
                } else {
                    assert(all[k] == rest[k - 1]);
                }
            }
        },
        None => {
            let last = s.subrange(pos, s.len() as int);
            assert(all =~= seq![last]);
            if last.contains(c) {
                let j = choose|j: int| 0 <= j < last.len() && last[j] == c;
                assert(s[pos + j] == c);
            }
        },
    }
}

proof fn lemma_join_first(first: Seq<char>, rest: Seq<Seq<char>>, sep: Seq<char>)
    requires
        rest.len() > 0,
    ensures
        join_text(seq![first] + rest, sep) == first + sep + join_text(rest, sep),
    decreases rest.len(),
{
    let all = seq![first] + rest;
    assert(all.drop_last() =~= seq![first] + rest.drop_last());
    assert(all.last() == rest.last());
    if rest.len() == 1 {
        assert(rest.drop_last() =~= Seq::empty());
        assert(all.drop_last() =~= seq![first]);
        assert(join_text(rest, sep) == rest[0]);
        assert(join_text(seq![first], sep) == first);
    } else {
        lemma_join_first(first, rest.drop_last(), sep);
        assert(join_text(rest, sep) == join_text(rest.drop_last(), sep) + sep + rest.last());
        assert(join_text(all, sep) == join_text(all.drop_last(), sep) + sep + rest.last());
    }
}

/// Splitting at a character and joining by it gives the text back, and no piece
/// holds the character.
pub proof fn splitting_is_undone_by_joining(s: Seq<char>, c: char)
    ensures
        join_text(split_text(s, c), seq![c]) == s,
        split_text(s, c).len() > 0,
        forall|i: int|
            0 <= i < split_text(s, c).len() ==> !(#[trigger] split_text(s, c)[i]).contains(c),
{
    lemma_split(s, c, 0);
    assert(s.subrange(0, s.len() as int) =~= s);
}

/// What a text has beside a prefix or a suffix.
pub proof fn affixes_are_put_back(s: Seq<char>, t: Seq<char>)
    ensures
        match without_prefix(s, t) {
            Some(rest) => s == t + rest,
            None => forall|rest: Seq<char>| s != #[trigger] (t + rest),
        },
        match without_suffix(s, t) {
            Some(rest) => s == rest + t,
            None => forall|rest: Seq<char>| s != #[trigger] (rest + t),
        },
{
    if let Some(rest) = without_prefix(s, t) {
        assert(s =~= t + rest);
    } else {
        assert forall|rest: Seq<char>| s != #[trigger] (t + rest) by {
            if s == t + rest {
                assert(s.subrange(0, t.len() as int) =~= t);
            }
        }
    }
    if let Some(rest) = without_suffix(s, t) {
        assert(s =~= rest + t);
    } else {
        assert forall|rest: Seq<char>| s != #[trigger] (rest + t) by {
            if s == rest + t {
                assert(s.subrange(s.len() - t.len(), s.len() as int) =~= t);
            }
        }
    }
}

// ---------------------------------------------------------------------------
// Types and parameters
// ---------------------------------------------------------------------------

/// Unsigned numbers are naturals in Lean and signed ones integers; flags, keys
/// and declared types go by their names.
pub proof fn types_have_their_lean_name(t: Ty)
    ensures
        t is U8 || t is U16 || t is U32 || t is U64 || t is U128 ==> ty_text(t) == "Nat"@,
        t is I64 || t is I128 ==> ty_text(t) == "Int"@,
        t is Bool ==> ty_text(t) == "Bool"@,
        t is Pubkey ==> ty_text(t) == "Pubkey"@,
        t is Custom ==> ty_text(t) == (t->Custom_0)@,
        is_numeric(t) ==> default_text(t) == "0"@,
        t is Bool ==> default_text(t) == "false"@,
        t is Pubkey || t is Custom ==> default_text(t) == "default"@,
{
}

/// The same holds of the types of a declaration, as it is written.
pub proof fn declared_types_have_their_lean_name(s: Seq<char>)
    ensures
        ({
            let t = trim_text(s);
            &&& t == "U8"@ || t == "U16"@ || t == "U32"@ || t == "U64"@ || t == "U128"@
                ==> dsl_ty_text(s) == "Nat"@ && dsl_default_text(s) == "0"@
            &&& t == "I8"@ || t == "I16"@ || t == "I32"@ || t == "I64"@ || t == "I128"@
                ==> dsl_ty_text(s) == "Int"@ && dsl_default_text(s) == "0"@
            &&& t == "Bool"@ ==> dsl_ty_text(s) == t && dsl_default_text(s) == "false"@
            &&& t == "Pubkey"@ ==> dsl_ty_text(s) == t && dsl_default_text(s) == "default"@
        }),
{
    reveal_strlit("U8");
    reveal_strlit("U16");
    reveal_strlit("U32");
    reveal_strlit("U64");
    reveal_strlit("U128");
    reveal_strlit("I8");
    reveal_strlit("I16");
    reveal_strlit("I32");
    reveal_strlit("I64");
    reveal_strlit("I128");
    reveal_strlit("Bool");
    reveal_strlit("Pubkey");
    assert("U8"@[0] == 'U' && "U16"@[0] == 'U' && "U32"@[0] == 'U' && "U64"@[0] == 'U'
        && "U128"@[0] == 'U');
    assert("I8"@[0] == 'I' && "I16"@[0] == 'I' && "I32"@[0] == 'I' && "I64"@[0] == 'I'
        && "I128"@[0] == 'I');
    assert("Bool"@[0] == 'B' && "Pubkey"@[0] == 'P');
}

/// The bound of a number is named after its type: `valid_u64` and
/// `Valid.U64_MAX`.
pub proof fn bounds_are_named_after_types(t: Ty)
    requires
        is_numeric(t),
    ensures
        t is U8 ==> width_text(t) == "u8"@ && max_name(t) == "Valid.U8_MAX"@,
        t is U16 ==> width_text(t) == "u16"@ && max_name(t) == "Valid.U16_MAX"@,
        t is U32 ==> width_text(t) == "u32"@ && max_name(t) == "Valid.U32_MAX"@,
        t is U64 ==> width_text(t) == "u64"@ && max_name(t) == "Valid.U64_MAX"@,
        t is U128 ==> width_text(t) == "u128"@ && max_name(t) == "Valid.U128_MAX"@,
        t is I64 ==> width_text(t) == "i64"@ && max_name(t) == "Valid.I64_MAX"@,
        t is I128 ==> width_text(t) == "i128"@ && max_name(t) == "Valid.I128_MAX"@,
{
}

proof fn lemma_param_names(params: Seq<(Symbol, Ty)>, n: nat)
    requires
        n <= params.len(),
    ensures
        param_names(params, n).len() == n,
        forall|i: int| 0 <= i < n ==> #[trigger] param_names(params, n)[i] == params[i].0@,
    decreases n,
{
    if n > 0 {
        lemma_param_names(params, (n - 1) as nat);
    }
}

/// Every parameter is bound under its name with its type, and passed under the
/// same name, in the same order.
pub proof fn parameters_are_bound_and_passed(params: Seq<(Symbol, Ty)>, k: int)
    requires
        0 <= k < params.len(),
    ensures
        contains_text(
            sig_text(params),
            " ("@ + params[k].0@ + " : "@ + ty_text(params[k].1) + ")"@,
        ),
        contains_text(args_text(params), params[k].0@),
        k + 1 < params.len() ==> contains_text(
            args_text(params),
            params[k].0@ + " "@ + params[k + 1].0@,
        ),
{
    let n = params.len();
    param_sig_text_stands(params, n, k);
    lemma_param_names(params, n);
    let names = param_names(params, n);
    part_stands(names, " "@, k);
    stands_right(" "@, join_text(names, " "@), params[k].0@);
    if k + 1 < n {
        neighbours_stand(names, " "@, k);
        stands_right(" "@, join_text(names, " "@), params[k].0@ + " "@ + params[k + 1].0@);
    }
}

/// An expression reads in Lean as its Lean form, and as its Rust form only where
/// it has none.
pub proof fn expressions_read_in_lean(e: Expr)
    ensures
        e.lean@.len() > 0 ==> lean_of(e) == e.lean@,
        e.lean@.len() == 0 ==> lean_of(e) == e.rust@,
{
}

/// The field of a path is its last segment.
pub proof fn paths_end_in_their_field(p: Path)
    requires
        p@.len() > 0,
    ensures
        path_field(p) == p@[p@.len() - 1],
{
}

} // verus!
