//! How names are ordered and brought into one form.
use vstd::prelude::*;

use crate::laws::texts::halves_make_up_the_text;
use crate::names::text_lt;
use crate::pinocchio_profile::infer::{context_dirs, handler_of_fn, source_entry};
use crate::pinocchio_profile::naming::{joined_upto, param_type, schema_name};
use crate::split::rsplit_once_text;
use crate::text::{ascii_lower, is_ascii_letter, is_digit, lower_char, upper_char};

verus! {

proof fn lemma_behind(s: Seq<char>, a: Seq<char>, b: Seq<char>)
    ensures
        text_lt(s + a, s + b) == text_lt(a, b),
    decreases s.len(),
{
    if s.len() > 0 {
        let r = s.drop_first();
        lemma_behind(r, a, b);
        assert((s + a).drop_first() =~= r + a);
        assert((s + b).drop_first() =~= r + b);
        assert((s + a)[0] == s[0] && (s + b)[0] == s[0]);
    } else {
        assert(s + a =~= a);
        assert(s + b =~= b);
    }
}

/// Texts are ordered by the first character in which they differ, and a text comes
/// before what it starts.
pub proof fn texts_are_ordered(s: Seq<char>, a: char, x: Seq<char>, b: char, y: Seq<char>)
    ensures
        a < b ==> text_lt(s + (seq![a] + x), s + (seq![b] + y)),
        b < a ==> !text_lt(s + (seq![a] + x), s + (seq![b] + y)),
        text_lt(s, s + (seq![b] + y)),
        !text_lt(s + (seq![a] + x), s),
{
    let e = Seq::<char>::empty();
    lemma_behind(s, seq![a] + x, seq![b] + y);
    lemma_behind(s, e, seq![b] + y);
    lemma_behind(s, seq![a] + x, e);
    assert(s + e =~= s);
    assert((seq![a] + x)[0] == a && (seq![b] + y)[0] == b);
}

/// A capital and its small letter.
pub proof fn letters_change_their_case(c: char)
    ensures
        'a' <= c <= 'z' ==> lower_char(c) == c && upper_char(c) as int == c as int - 32,
        'A' <= c <= 'Z' ==> lower_char(c) as int == c as int + 32 && upper_char(c) == c,
        '0' <= c <= '9' || c == '_' ==> lower_char(c) == c && upper_char(c) == c,
{
}

/// Whether a text is made of ASCII letters and digits alone.
pub open spec fn is_one_word(s: Seq<char>) -> bool {
    s.len() > 0 && forall|i: int|
        0 <= i < s.len() ==> is_ascii_letter(#[trigger] s[i]) || is_digit(s[i])
}

/// A text in small letters.
pub open spec fn lowered_word(s: Seq<char>) -> Seq<char> {
    Seq::new(s.len(), |i: int| lower_char(s[i]))
}

proof fn lemma_joined_word(s: Seq<char>, from: nat, n: nat)
    requires
        from <= n <= s.len(),
        forall|i: int| from <= i < n ==> is_ascii_letter(#[trigger] s[i]) || is_digit(s[i]),
    ensures
        joined_upto(s, n) == joined_upto(s, from) + lowered_word(
            s.subrange(from as int, n as int),
        ),
    decreases n,
{
    if n > from {
        lemma_joined_word(s, from, (n - 1) as nat);
        assert(lowered_word(s.subrange(from as int, n as int)) =~= lowered_word(
            s.subrange(from as int, n - 1),
        ).push(lower_char(s[n - 1])));
        assert(joined_upto(s, from) + lowered_word(s.subrange(from as int, n - 1)).push(
            lower_char(s[n - 1]),
        ) =~= (joined_upto(s, from) + lowered_word(s.subrange(from as int, n - 1))).push(
            lower_char(s[n - 1]),
        ));
    } else {
        assert(joined_upto(s, from) + lowered_word(s.subrange(from as int, n as int))
            =~= joined_upto(s, from));
    }
}

/// A name of one word is the word in small letters; one of two words is both with
/// an underscore between them, whatever parts them.
pub proof fn names_are_words_in_small_letters(a: Seq<char>, c: char, b: Seq<char>)
    requires
        is_one_word(a),
        is_one_word(b),
        !is_ascii_letter(c),
        !is_digit(c),
    ensures
        schema_name(a) == lowered_word(a),
        schema_name(a + seq![c] + b) == lowered_word(a) + seq!['_'] + lowered_word(b),
{
    lemma_joined_word(a, 0, a.len());
    assert(a.subrange(0, a.len() as int) =~= a);
    assert(Seq::<char>::empty() + lowered_word(a) =~= lowered_word(a));
    assert(lowered_word(a).last() == lower_char(a.last()));
    let s = a + seq![c] + b;
    let m = a.len();
    assert forall|i: int| 0 <= i < m implies is_ascii_letter(#[trigger] s[i]) || is_digit(s[i]) by {
        assert(s[i] == a[i]);
    }
    lemma_joined_word(s, 0, m);
    assert(s.subrange(0, m as int) =~= a);
    assert(s[m as int] == c);
    assert(joined_upto(s, m) == lowered_word(a));
    assert(joined_upto(s, m).last() != '_');
    assert(joined_upto(s, m + 1) == lowered_word(a).push('_'));
    assert forall|i: int| m + 1 <= i < s.len() implies is_ascii_letter(#[trigger] s[i]) || is_digit(
        s[i],
    ) by {
        assert(s[i] == b[i - m - 1]);
    }
    lemma_joined_word(s, m + 1, s.len());
    assert(s.subrange(m as int + 1, s.len() as int) =~= b);
    let out = lowered_word(a).push('_') + lowered_word(b);
    assert(out =~= lowered_word(a) + seq!['_'] + lowered_word(b));
    assert(out.last() == lower_char(b.last()));
}

/// A parameter is an integer of one of the ten widths and signs, or a public key,
/// whatever the case of its type.
pub proof fn parameter_types_are_kept(ty: Seq<char>)
    ensures
        ({
            let t = ascii_lower(ty);
            &&& t == "u8"@ || t == "u16"@ || t == "u32"@ || t == "u64"@ || t == "u128"@ || t
                == "i8"@ || t == "i16"@ || t == "i32"@ || t == "i64"@ || t == "i128"@ || t
                == "pubkey"@ ==> param_type(ty) == Some(t)
            &&& param_type(ty) is Some ==> param_type(ty) == Some(t)
        }),
{
}

/// A function is the handler that stands behind `process_` in its name; the
/// function that dispatches is none.
pub proof fn handlers_are_named_by_functions(name: Seq<char>)
    ensures
        name != "instruction"@ ==> handler_of_fn("process_"@ + name) == Some(name),
        handler_of_fn("process_"@ + "instruction"@) is None,
{
    let s = "process_"@ + name;
    assert(s.subrange(0, "process_"@.len() as int) =~= "process_"@);
    assert(s.subrange("process_"@.len() as int, s.len() as int) =~= name);
    let t = "process_"@ + "instruction"@;
    assert(t.subrange(0, "process_"@.len() as int) =~= "process_"@);
    assert(t.subrange("process_"@.len() as int, t.len() as int) =~= "instruction"@);
}

/// Of the files of a program those in Rust are read, but for a generated harness;
/// its directories are searched, but for those of build outputs and of tools.
pub proof fn sources_are_taken(name: Seq<char>, is_dir: bool)
    ensures
        name == "target"@ || name == ".git"@ || name == "node_modules"@ ==> source_entry(
            name,
            is_dir,
        ) is Skip,
        is_dir && name != "target"@ && name != ".git"@ && name != "node_modules"@ ==> source_entry(
            name,
            is_dir,
        ) is Descend,
        !is_dir ==> !(source_entry(name, is_dir) is Descend),
        source_entry(name, is_dir) is Take ==> name != "kani_impl.rs"@ && exists|base: Seq<char>|
            base.len() > 0 && name == #[trigger] (base + seq!['.'] + "rs"@),
{
    halves_make_up_the_text(name, '.');
    if source_entry(name, is_dir) is Take {
        let (base, ext) = rsplit_once_text(name, '.')->0;
        assert(name == base + seq!['.'] + "rs"@);
    }
}

/// A file whose name ends in `.rs`, behind at least one character, is read, unless
/// it is the generated harness.
pub proof fn rust_files_are_taken(base: Seq<char>)
    requires
        base.len() > 0,
        base + seq!['.'] + "rs"@ != "kani_impl.rs"@,
    ensures
        source_entry(base + seq!['.'] + "rs"@, false) is Take,
{
    let s = base + seq!['.'] + "rs"@;
    reveal_strlit("rs");
    reveal_strlit("target");
    reveal_strlit(".git");
    reveal_strlit("node_modules");
    assert(s[s.len() - 2] == 'r');
    assert("target"@[4] == 'e' && ".git"@[2] == 'i' && "node_modules"@[10] == 'e');
    halves_make_up_the_text(s, '.');
    assert(s[base.len() as int] == '.');
    assert(s.contains('.'));
    let (a, e) = rsplit_once_text(s, '.')->0;
    assert(s[a.len() as int] == '.') by {
        assert((a + seq!['.'] + e)[a.len() as int] == '.');
    }
    assert(a.len() == base.len()) by {
        if a.len() > base.len() {
            assert(s[a.len() as int] == "rs"@[a.len() - base.len() - 1]);
        }
        if a.len() < base.len() {
            assert(e[base.len() - a.len() - 1] == s[base.len() as int]);
            assert(e.contains('.'));
        }
    }
    assert(a =~= base) by {
        assert(s.subrange(0, a.len() as int) =~= a);
        assert(s.subrange(0, base.len() as int) =~= base);
    }
    assert(e =~= "rs"@) by {
        assert(s.subrange(a.len() as int + 1, s.len() as int) =~= e);
        assert(s.subrange(base.len() as int + 1, s.len() as int) =~= "rs"@);
    }
}

/// Sources are looked for in the output first, and then near the spec, where the
/// crates beside a directory are looked at too.
pub proof fn sources_are_sought_in_order(output: Seq<char>, near: Seq<Seq<char>>, k: int)
    ensures
        context_dirs(output, near).len() == near.len() + 1,
        context_dirs(output, near)[0] == (output, false),
        0 <= k < near.len() ==> context_dirs(output, near)[k + 1] == (near[k], true),
{
}

} // verus!
