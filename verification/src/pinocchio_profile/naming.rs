//! Names in sources and schemas.
use vstd::prelude::*;

use crate::search::opt_text;
use crate::split::{trim_end_char, trim_end_of};
use crate::text::{
    ascii_letter, ascii_lower, chars_of, digit, ident_char, is_ascii_letter, is_digit,
    is_ident_char, lower_char, same, to_ascii_lower, to_lower_char,
};

verus! {

broadcast use crate::text::group_text;

/// The first `n` characters of a name in lower case, with one underscore for
/// every run of other characters, but none at the start.
pub open spec fn joined_upto(name: Seq<char>, n: nat) -> Seq<char>
    decreases n,
{
    if n == 0 {
        Seq::empty()
    } else {
        let before = joined_upto(name, (n - 1) as nat);
        let c = name[n - 1];
        if is_ascii_letter(c) || is_digit(c) {
            before.push(lower_char(c))
        } else if before.len() > 0 && before.last() != '_' {
            before.push('_')
        } else {
            before
        }
    }
}

/// A name in lower case: letters and digits, with one underscore for every run
/// of other characters between them.
pub open spec fn schema_name(name: Seq<char>) -> Seq<char> {
    trim_end_of(joined_upto(name, name.len()), '_')
}

/// Brings a name into lower case with single underscores.
pub fn normalize_schema_name(name: &str) -> (r: String)
    ensures
        r@ == schema_name(name@),
{
    let v = chars_of(name);
    let mut out = String::new();
    let mut after_underscore: bool = false;
    let mut blank: bool = true;
    for i in 0..v.len()
        invariant
            v@ == name@,
            out@ == joined_upto(name@, i as nat),
            blank == (out@.len() == 0),
            !blank ==> after_underscore == (out@.last() == '_'),
    {
        let c = v[i];
        if ascii_letter(c) || digit(c) {
            out.push(to_lower_char(c));
            blank = false;
            after_underscore = false;
        } else if !blank && !after_underscore {
            out.push('_');
            after_underscore = true;
        }
    }
    trim_end_char(&out, '_')
}

/// A letter in lower case or a digit.
pub open spec fn is_name_letter(c: char) -> bool {
    ('a' <= c && c <= 'z') || is_digit(c)
}

/// Made of letters in lower case and digits, with single underscores between
/// them.
pub open spec fn is_schema_name(s: Seq<char>) -> bool {
    &&& forall|i: int| 0 <= i < s.len() ==> is_name_letter(#[trigger] s[i]) || s[i] == '_'
    &&& forall|i: int| 0 < i < s.len() ==> #[trigger] s[i] != '_' || s[i - 1] != '_'
    &&& s.len() > 0 ==> s[0] != '_' && s.last() != '_'
}

proof fn lemma_joined(name: Seq<char>, n: nat)
    requires
        n <= name.len(),
    ensures
        forall|i: int|
            0 <= i < joined_upto(name, n).len() ==> is_name_letter(
                #[trigger] joined_upto(name, n)[i],
            ) || joined_upto(name, n)[i] == '_',
        forall|i: int|
            0 < i < joined_upto(name, n).len() ==> #[trigger] joined_upto(name, n)[i] != '_'
                || joined_upto(name, n)[i - 1] != '_',
        joined_upto(name, n).len() > 0 ==> joined_upto(name, n)[0] != '_',
    decreases n,
{
    if n > 0 {
        lemma_joined(name, (n - 1) as nat);
        let before = joined_upto(name, (n - 1) as nat);
        let out = joined_upto(name, n);
        let c = name[n - 1];
        if is_ascii_letter(c) || is_digit(c) {
            assert(is_name_letter(lower_char(c)));
        }
        assert forall|i: int| 0 <= i < out.len() implies is_name_letter(#[trigger] out[i]) || out[i]
            == '_' by {
            if i < before.len() {
                assert(out[i] == before[i]);
            }
        }
        assert forall|i: int| 0 < i < out.len() implies #[trigger] out[i] != '_' || out[i - 1]
            != '_' by {
            if i < before.len() {
                assert(out[i] == before[i]);
                assert(out[i - 1] == before[i - 1]);
            } else {
                assert(out[i - 1] == before.last());
            }
        }
    }
}

proof fn lemma_trimmed_name(s: Seq<char>)
    requires
        forall|i: int| 0 <= i < s.len() ==> is_name_letter(#[trigger] s[i]) || s[i] == '_',
        forall|i: int| 0 < i < s.len() ==> #[trigger] s[i] != '_' || s[i - 1] != '_',
        s.len() > 0 ==> s[0] != '_',
    ensures
        is_schema_name(trim_end_of(s, '_')),
    decreases s.len(),
{
    if s.len() > 0 && s.last() == '_' {
        let front = s.drop_last();
        assert forall|i: int| 0 <= i < front.len() implies is_name_letter(#[trigger] front[i])
            || front[i] == '_' by {
            assert(front[i] == s[i]);
        }
        assert forall|i: int| 0 < i < front.len() implies #[trigger] front[i] != '_' || front[i - 1]
            != '_' by {
            assert(front[i] == s[i]);
        }
        lemma_trimmed_name(front);
    }
}

/// A name is made of letters in lower case and digits, with single underscores
/// between them.
pub proof fn schema_names_are_clean(name: Seq<char>)
    ensures
        is_schema_name(schema_name(name)),
{
    lemma_joined(name, name.len());
    lemma_trimmed_name(joined_upto(name, name.len()));
}

proof fn lemma_kept(s: Seq<char>, n: nat)
    requires
        is_schema_name(s),
        n <= s.len(),
    ensures
        joined_upto(s, n) == s.take(n as int),
    decreases n,
{
    if n > 0 {
        lemma_kept(s, (n - 1) as nat);
        let c = s[n - 1];
        assert(is_name_letter(c) || c == '_');
        if c == '_' {
            assert(n > 1 && s[n - 2] != '_');
            assert(s.take(n - 1).last() == s[n - 2]);
        } else {
            assert(lower_char(c) == c);
        }
        assert(s.take(n as int) =~= s.take(n - 1).push(c));
    } else {
        assert(s.take(0) =~= Seq::empty());
    }
}

/// A name that is in this form already stays as it is.
pub proof fn schema_name_is_idempotent(name: Seq<char>)
    ensures
        schema_name(schema_name(name)) == schema_name(name),
{
    let s = schema_name(name);
    schema_names_are_clean(name);
    lemma_kept(s, s.len());
    assert(s.take(s.len() as int) =~= s);
}

/// An identifier of ASCII letters, digits and underscores.
pub open spec fn names_ident(s: Seq<char>) -> bool {
    s.len() > 0 && !is_digit(s[0]) && forall|i: int|
        0 <= i < s.len() ==> is_ident_char(#[trigger] s[i])
}

/// Whether a text is an identifier.
pub fn is_ident(s: &str) -> (r: bool)
    ensures
        r == names_ident(s@),
{
    let v = chars_of(s);
    if v.len() == 0 || digit(v[0]) {
        return false;
    }
    for i in 0..v.len()
        invariant
            v@ == s@,
            forall|k: int| 0 <= k < i ==> is_ident_char(#[trigger] s@[k]),
    {
        if !ident_char(v[i]) {
            return false;
        }
    }
    true
}

/// Whether a name in lower case is that of an integer type.
pub open spec fn names_integer(t: Seq<char>) -> bool {
    t == "u8"@ || t == "i8"@ || t == "u16"@ || t == "i16"@ || t == "u32"@ || t == "i32"@ || t
        == "u64"@ || t == "i64"@ || t == "u128"@ || t == "i128"@
}

/// The integer type that a name stands for, whatever its case.
pub open spec fn integer_type(ty: Seq<char>) -> Option<Seq<char>> {
    let t = ascii_lower(ty);
    if names_integer(t) {
        Some(t)
    } else {
        None
    }
}

/// The integer type that a name stands for.
pub fn integer_rust_type(ty: &str) -> (r: Option<String>)
    ensures
        opt_text(r) == integer_type(ty@),
{
    let t = to_ascii_lower(ty);
    if same(&t, "u8") || same(&t, "i8") || same(&t, "u16") || same(&t, "i16") || same(&t, "u32")
        || same(&t, "i32") || same(&t, "u64") || same(&t, "i64") || same(&t, "u128") || same(
        &t,
        "i128",
    ) {
        Some(t)
    } else {
        None
    }
}

/// The type of a parameter: an integer type or a public key.
pub open spec fn param_type(ty: Seq<char>) -> Option<Seq<char>> {
    match integer_type(ty) {
        Some(t) => Some(t),
        None => if ascii_lower(ty) == "pubkey"@ {
            Some("pubkey"@)
        } else {
            None
        },
    }
}

/// The type of a parameter.
pub fn abi_field_rust_type(ty: &str) -> (r: Option<String>)
    ensures
        opt_text(r) == param_type(ty@),
{
    match integer_rust_type(ty) {
        Some(t) => Some(t),
        None => {
            let t = to_ascii_lower(ty);
            if same(&t, "pubkey") {
                Some(t)
            } else {
                None
            }
        },
    }
}

} // verus!
