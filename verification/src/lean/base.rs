//! Names, types and expressions as they read in Lean.
use vstd::prelude::*;

use crate::mir::{AccountBindingShape, AccountOrField, AccountRef, HandlerMir, Path, Symbol, Ty};
use crate::outside::{is_alnum, is_alphanumeric};
use crate::search::{contains, contains_text, matches_at, stands_at, strip_suffix, without_suffix};
use crate::split::{trim, trim_text};
use crate::text::{chars_of, join, join_text, same, texts};

verus! {

broadcast use {crate::text::group_text, crate::text::texts_index, crate::text::texts_len};

/// A line of a section heading.
pub const RULE: &'static str = "-- ============================================================================\n";

// ---------------------------------------------------------------------------
// Names
// ---------------------------------------------------------------------------

/// The words that Lean reserves and that a spec is likely to use as a name.
pub open spec fn is_reserved(name: Seq<char>) -> bool {
    ||| name == "open"@
    ||| name == "close"@
    ||| name == "initialize"@
    ||| name == "import"@
    ||| name == "namespace"@
    ||| name == "end"@
    ||| name == "where"@
    ||| name == "with"@
    ||| name == "do"@
    ||| name == "let"@
    ||| name == "if"@
    ||| name == "then"@
    ||| name == "else"@
    ||| name == "match"@
    ||| name == "return"@
    ||| name == "in"@
    ||| name == "for"@
}

fn reserved(name: &str) -> (r: bool)
    ensures
        r == is_reserved(name@),
{
    same(name, "open") || same(name, "close") || same(name, "initialize") || same(name, "import")
        || same(name, "namespace") || same(name, "end") || same(name, "where") || same(
        name,
        "with",
    ) || same(name, "do") || same(name, "let") || same(name, "if") || same(name, "then") || same(
        name,
        "else",
    ) || same(name, "match") || same(name, "return") || same(name, "in") || same(name, "for")
}

/// A name as Lean takes it: a reserved word stands in quotation marks.
#[verifier::opaque]
pub open spec fn safe_text(name: Seq<char>) -> Seq<char> {
    if is_reserved(name) {
        "«"@ + name + "»"@
    } else {
        name
    }
}

/// Quotes a name that Lean reserves.
pub fn safe_name(name: &str) -> (r: String)
    ensures
        r@ == safe_text(name@),
{
    proof {
        reveal(safe_text);
    }
    if reserved(name) {
        let mut out = "«".to_owned();
        out.push_str(name);
        out.push_str("»");
        out
    } else {
        name.to_owned()
    }
}

/// A quoted name is no reserved word, and quoting it again leaves it as it is.
pub proof fn safe_text_is_safe(name: Seq<char>)
    ensures
        !is_reserved(safe_text(name)),
        safe_text(safe_text(name)) == safe_text(name),
{
    reveal(safe_text);
    reveal_strlit("«");
    reveal_strlit("open");
    reveal_strlit("close");
    reveal_strlit("initialize");
    reveal_strlit("import");
    reveal_strlit("namespace");
    reveal_strlit("end");
    reveal_strlit("where");
    reveal_strlit("with");
    reveal_strlit("do");
    reveal_strlit("let");
    reveal_strlit("if");
    reveal_strlit("then");
    reveal_strlit("else");
    reveal_strlit("match");
    reveal_strlit("return");
    reveal_strlit("in");
    reveal_strlit("for");
    if is_reserved(name) {
        let quoted = "«"@ + name + "»"@;
        assert(quoted[0] == '«');
    }
}

/// The name of a handler's transition function.
pub open spec fn transition_text(handler: Seq<char>) -> Seq<char> {
    safe_text(handler + "Transition"@)
}

pub fn transition_name(handler: &str) -> (r: String)
    ensures
        r@ == transition_text(handler@),
{
    let mut name = handler.to_owned();
    name.push_str("Transition");
    safe_name(&name)
}

/// The account that must sign, where the handler names one.
pub open spec fn auth_text(h: HandlerMir) -> Option<Seq<char>> {
    match h.auth {
        Some(AccountOrField::Account(AccountRef::ByBinding(name))) => Some(name@),
        _ => None,
    }
}

pub fn handler_auth_name<'a>(h: &'a HandlerMir) -> (r: Option<&'a String>)
    ensures
        match r {
            Some(n) => auth_text(*h) == Some(n@),
            None => auth_text(*h) is None,
        },
{
    match &h.auth {
        Some(AccountOrField::Account(AccountRef::ByBinding(name))) => Some(name),
        _ => None,
    }
}

/// The last segment of a path; `?` for the empty path.
pub open spec fn path_field(p: Path) -> Seq<char> {
    if p@.len() > 0 {
        p@.last()
    } else {
        "?"@
    }
}

pub fn path_field_name(path: &Path) -> (r: String)
    ensures
        r@ == path_field(*path),
{
    if path.segments.len() > 0 {
        path.segments[path.segments.len() - 1].clone()
    } else {
        "?".to_owned()
    }
}

/// The segments of a path with dots between them.
pub open spec fn dotted_text(p: Path) -> Seq<char> {
    join_text(p@, "."@)
}

pub fn dotted_path(p: &Path) -> (r: String)
    ensures
        r@ == dotted_text(*p),
{
    join(&p.segments, ".")
}

// ---------------------------------------------------------------------------
// Types
// ---------------------------------------------------------------------------

/// A type in Lean. Proofs run over `Nat` and `Int`, so the widths are gone.
pub open spec fn ty_text(t: Ty) -> Seq<char>
    decreases t,
{
    match t {
        Ty::U8 => "Nat"@,
        Ty::U16 => "Nat"@,
        Ty::U32 => "Nat"@,
        Ty::U64 => "Nat"@,
        Ty::U128 => "Nat"@,
        Ty::I64 => "Int"@,
        Ty::I128 => "Int"@,
        Ty::Bool => "Bool"@,
        Ty::Pubkey => "Pubkey"@,
        Ty::Custom(name) => name@,
        Ty::MapOf { capacity: _, value } => "Map /* "@ + ty_text(*value) + " */"@,
    }
}

pub fn render_ty(ty: &Ty) -> (r: String)
    ensures
        r@ == ty_text(*ty),
    decreases *ty,
{
    match ty {
        Ty::U8 => "Nat".to_owned(),
        Ty::U16 => "Nat".to_owned(),
        Ty::U32 => "Nat".to_owned(),
        Ty::U64 => "Nat".to_owned(),
        Ty::U128 => "Nat".to_owned(),
        Ty::I64 => "Int".to_owned(),
        Ty::I128 => "Int".to_owned(),
        Ty::Bool => "Bool".to_owned(),
        Ty::Pubkey => "Pubkey".to_owned(),
        Ty::Custom(name) => name.clone(),
        Ty::MapOf { capacity: _, value } => {
            let inner = render_ty(value);
            let mut out = "Map /* ".to_owned();
            out.push_str(&inner);
            out.push_str(" */");
            out
        },
    }
}

/// The literal that stands for a value of a type where a variant has none.
pub open spec fn default_text(t: Ty) -> Seq<char> {
    match t {
        Ty::U8 => "0"@,
        Ty::U16 => "0"@,
        Ty::U32 => "0"@,
        Ty::U64 => "0"@,
        Ty::U128 => "0"@,
        Ty::I64 => "0"@,
        Ty::I128 => "0"@,
        Ty::Bool => "false"@,
        _ => "default"@,
    }
}

pub fn ty_default_literal(ty: &Ty) -> (r: &'static str)
    ensures
        r@ == default_text(*ty),
{
    match ty {
        Ty::U8 => "0",
        Ty::U16 => "0",
        Ty::U32 => "0",
        Ty::U64 => "0",
        Ty::U128 => "0",
        Ty::I64 => "0",
        Ty::I128 => "0",
        Ty::Bool => "false",
        _ => "default",
    }
}

/// The greatest value of an unsigned type.
pub open spec fn max_text(t: Ty) -> Option<Seq<char>> {
    match t {
        Ty::U8 => Some("255"@),
        Ty::U16 => Some("65535"@),
        Ty::U32 => Some("4294967295"@),
        Ty::U64 => Some("18446744073709551615"@),
        Ty::U128 => Some("340282366920938463463374607431768211455"@),
        _ => None,
    }
}

pub fn ty_max_const(ty: &Ty) -> (r: Option<&'static str>)
    ensures
        match r {
            Some(m) => max_text(*ty) == Some(m@),
            None => max_text(*ty) is None,
        },
{
    match ty {
        Ty::U8 => Some("255"),
        Ty::U16 => Some("65535"),
        Ty::U32 => Some("4294967295"),
        Ty::U64 => Some("18446744073709551615"),
        Ty::U128 => Some("340282366920938463463374607431768211455"),
        _ => None,
    }
}

/// Whether a declared type is an unsigned number.
pub open spec fn names_unsigned(t: Seq<char>) -> bool {
    t == "U8"@ || t == "U16"@ || t == "U32"@ || t == "U64"@ || t == "U128"@
}

/// Whether a declared type is a signed number.
pub open spec fn names_signed(t: Seq<char>) -> bool {
    t == "I8"@ || t == "I16"@ || t == "I32"@ || t == "I64"@ || t == "I128"@
}

pub fn is_unsigned_name(t: &str) -> (r: bool)
    ensures
        r == names_unsigned(t@),
{
    same(t, "U8") || same(t, "U16") || same(t, "U32") || same(t, "U64") || same(t, "U128")
}

pub fn is_signed_name(t: &str) -> (r: bool)
    ensures
        r == names_signed(t@),
{
    same(t, "I8") || same(t, "I16") || same(t, "I32") || same(t, "I64") || same(t, "I128")
}

/// A declared type in Lean: numbers lose their width, other names stay.
pub open spec fn dsl_ty_text(s: Seq<char>) -> Seq<char> {
    let t = trim_text(s);
    if names_unsigned(t) {
        "Nat"@
    } else if names_signed(t) {
        "Int"@
    } else {
        t
    }
}

pub fn map_dsl_ty(s: &str) -> (r: String)
    ensures
        r@ == dsl_ty_text(s@),
{
    let t = trim(s);
    if is_unsigned_name(&t) {
        "Nat".to_owned()
    } else if is_signed_name(&t) {
        "Int".to_owned()
    } else {
        t
    }
}

/// The default of a declared type.
pub open spec fn dsl_default_text(s: Seq<char>) -> Seq<char> {
    let t = trim_text(s);
    if names_unsigned(t) || names_signed(t) {
        "0"@
    } else if t == "Bool"@ {
        "false"@
    } else {
        "default"@
    }
}

pub fn default_value_for(s: &str) -> (r: &'static str)
    ensures
        r@ == dsl_default_text(s@),
{
    let t = trim(s);
    if is_unsigned_name(&t) || is_signed_name(&t) {
        "0"
    } else if same(&t, "Bool") {
        "false"
    } else {
        "default"
    }
}

// ---------------------------------------------------------------------------
// Parameters
// ---------------------------------------------------------------------------

/// The first `n` parameters as binders, each after a space.
pub open spec fn param_sig_text(params: Seq<(Symbol, Ty)>, n: nat) -> Seq<char>
    decreases n,
{
    if n == 0 {
        Seq::empty()
    } else {
        param_sig_text(params, (n - 1) as nat) + (" ("@ + params[n - 1].0@ + " : "@ + ty_text(params[n - 1].1) + ")"@)
    }
}

/// The parameters as binders.
pub open spec fn sig_text(params: Seq<(Symbol, Ty)>) -> Seq<char> {
    param_sig_text(params, params.len())
}

pub fn param_sig_str(params: &Vec<(Symbol, Ty)>) -> (r: String)
    ensures
        r@ == sig_text(params@),
{
    let mut out = String::new();
    for i in 0..params.len()
        invariant
            out@ == param_sig_text(params@, i as nat),
    {
        let ty = render_ty(&params[i].1);
        out.push_str(" (");
        out.push_str(&params[i].0);
        out.push_str(" : ");
        out.push_str(&ty);
        out.push_str(")");
    }
    out
}

/// The names of the first `n` parameters.
pub open spec fn param_names(params: Seq<(Symbol, Ty)>, n: nat) -> Seq<Seq<char>>
    decreases n,
{
    if n == 0 {
        Seq::empty()
    } else {
        param_names(params, (n - 1) as nat).push(params[n - 1].0@)
    }
}

/// The names of the parameters as arguments, each after a space.
pub open spec fn args_text(params: Seq<(Symbol, Ty)>) -> Seq<char> {
    if params.len() == 0 {
        Seq::empty()
    } else {
        " "@ + join_text(param_names(params, params.len()), " "@)
    }
}

pub fn param_args_str(params: &Vec<(Symbol, Ty)>) -> (r: String)
    ensures
        r@ == args_text(params@),
{
    if params.len() == 0 {
        return String::new();
    }
    let mut names: Vec<String> = Vec::new();
    for i in 0..params.len()
        invariant
            texts(names@) == param_names(params@, i as nat),
    {
        names.push(params[i].0.clone());
    }
    let joined = join(&names, " ");
    let mut out = " ".to_owned();
    out.push_str(&joined);
    out
}

// ---------------------------------------------------------------------------
// Expressions
// ---------------------------------------------------------------------------

/// Letters, numbers and underscores only.
pub open spec fn is_word(s: Seq<char>) -> bool {
    forall|i: int| 0 <= i < s.len() ==> is_alnum(#[trigger] s[i]) || s[i] == '_'
}

pub fn word(s: &str) -> (r: bool)
    ensures
        r == is_word(s@),
{
    let v = chars_of(s);
    for i in 0..v.len()
        invariant
            v@ == s@,
            forall|k: int| 0 <= k < i ==> is_alnum(#[trigger] s@[k]) || s@[k] == '_',
    {
        if !is_alphanumeric(v[i]) && v[i] != '_' {
            proof {
                assert(!(is_alnum(s@[i as int]) || s@[i as int] == '_'));
            }
            return false;
        }
    }
    true
}

/// Whether the text is the public key of an account: a name and `.pubkey`.
pub open spec fn is_pubkey_ref(rust: Seq<char>) -> bool {
    match without_suffix(trim_text(rust), ".pubkey"@) {
        Some(head) => head.len() > 0 && is_word(head),
        None => false,
    }
}

pub fn is_account_pubkey_ref(rust: &str) -> (r: bool)
    ensures
        r == is_pubkey_ref(rust@),
{
    let t = trim(rust);
    match strip_suffix(&t, ".pubkey") {
        Some(head) => !head.as_str().is_empty() && word(&head),
        None => false,
    }
}

/// Whether the text speaks of the public key of one of the accounts.
pub open spec fn mentions_pubkey(expr: Seq<char>, accounts: Seq<AccountBindingShape>) -> bool {
    exists|i: int|
        0 <= i < accounts.len() && (contains_text(
            expr,
            (#[trigger] accounts[i]).name@ + ".pubkey"@,
        ) || contains_text(expr, accounts[i].name@ + ".key()"@))
}

pub fn mentions_handler_account_pubkey(expr: &str, accounts: &Vec<AccountBindingShape>) -> (r: bool)
    ensures
        r == mentions_pubkey(expr@, accounts@),
{
    for i in 0..accounts.len()
        invariant
            forall|k: int|
                0 <= k < i ==> !contains_text(expr@, (#[trigger] accounts@[k]).name@ + ".pubkey"@)
                    && !contains_text(expr@, accounts@[k].name@ + ".key()"@),
    {
        let mut needle = accounts[i].name.clone();
        needle.push_str(".pubkey");
        if contains(expr, &needle) {
            return true;
        }
        let mut needle = accounts[i].name.clone();
        needle.push_str(".key()");
        if contains(expr, &needle) {
            return true;
        }
    }
    false
}

/// How many more parentheses open than close in the first `n` characters.
pub open spec fn paren_depth(s: Seq<char>, n: int) -> int
    decreases n,
{
    if n <= 0 || n > s.len() {
        0
    } else if s[n - 1] == '(' {
        paren_depth(s, n - 1) + 1
    } else if s[n - 1] == ')' {
        paren_depth(s, n - 1) - 1
    } else {
        paren_depth(s, n - 1)
    }
}

/// Whether some character other than a parenthesis stands outside all
/// parentheses.
pub open spec fn has_outer_char(s: Seq<char>) -> bool {
    exists|i: int|
        0 <= i < s.len() && #[trigger] s[i] != '(' && s[i] != ')' && paren_depth(s, i) == 0
}

/// Whether an operator that binds weaker than `∧` stands at a position: a
/// disjunction, an implication, an equivalence, or a quantifier, which reaches
/// as far to the right as it can.
pub open spec fn weak_at(s: Seq<char>, i: int) -> bool {
    ||| s[i] == '∨'
    ||| s[i] == '→'
    ||| s[i] == '↔'
    ||| s[i] == '∀'
    ||| s[i] == '∃'
    ||| matches_at(s, " or "@, i)
    ||| matches_at(s, " || "@, i)
    ||| matches_at(s, " -> "@, i)
    ||| matches_at(s, " <-> "@, i)
}

/// Whether an operator that binds weaker than `∧` stands outside all
/// parentheses.
pub open spec fn has_outer_weak(s: Seq<char>) -> bool {
    exists|i: int|
        0 <= i < s.len() && #[trigger] s[i] != '(' && s[i] != ')' && paren_depth(s, i) == 0
            && weak_at(s, i)
}

/// The expression as a conjunct: in parentheses where an operator in it would
/// take in what stands beside it, unless it stands in parentheses already.
#[verifier::opaque]
pub open spec fn conjunct_text(expr: Seq<char>) -> Seq<char> {
    let t = trim_text(expr);
    if t.len() > 0 && t[0] == '(' && t.last() == ')' && !has_outer_char(t) {
        t
    } else if has_outer_weak(t) {
        "("@ + t + ")"@
    } else {
        t
    }
}

fn outer_char(v: &Vec<char>) -> (r: bool)
    ensures
        r == has_outer_char(v@),
{
    let mut depth: i128 = 0;
    for i in 0..v.len()
        invariant
            depth == paren_depth(v@, i as int),
            -(i as int) <= depth <= i,
            forall|k: int|
                0 <= k < i ==> #[trigger] v@[k] == '(' || v@[k] == ')' || paren_depth(v@, k) != 0,
    {
        if v[i] == '(' {
            depth = depth + 1;
        } else if v[i] == ')' {
            depth = depth - 1;
        } else if depth == 0 {
            return true;
        }
    }
    false
}

fn outer_weak(v: &Vec<char>) -> (r: bool)
    ensures
        r == has_outer_weak(v@),
{
    let a = chars_of(" or ");
    let b = chars_of(" || ");
    let c = chars_of(" -> ");
    let d = chars_of(" <-> ");
    let mut depth: i128 = 0;
    for i in 0..v.len()
        invariant
            a@ == " or "@,
            b@ == " || "@,
            c@ == " -> "@,
            d@ == " <-> "@,
            depth == paren_depth(v@, i as int),
            -(i as int) <= depth <= i,
            forall|k: int|
                0 <= k < i ==> #[trigger] v@[k] == '(' || v@[k] == ')' || paren_depth(v@, k) != 0
                    || !weak_at(v@, k),
    {
        if v[i] == '(' {
            depth = depth + 1;
        } else if v[i] == ')' {
            depth = depth - 1;
        } else if depth == 0 {
            if v[i] == '∨' || v[i] == '→' || v[i] == '↔' || v[i] == '∀' || v[i] == '∃'
                || stands_at(v, &a, i) || stands_at(v, &b, i) || stands_at(v, &c, i) || stands_at(
                v,
                &d,
                i,
            ) {
                return true;
            }
        }
    }
    false
}

pub fn paren_low_prec(expr: &str) -> (r: String)
    ensures
        r@ == conjunct_text(expr@),
{
    proof {
        reveal(conjunct_text);
    }
    let t = trim(expr);
    let v = chars_of(&t);
    if v.len() > 0 && v[0] == '(' && v[v.len() - 1] == ')' && !outer_char(&v) {
        return t;
    }
    if outer_weak(&v) {
        let mut out = "(".to_owned();
        out.push_str(&t);
        out.push_str(")");
        out
    } else {
        t
    }
}

/// The first `n` conjuncts.
pub open spec fn conjunct_parts(parts: Seq<Seq<char>>, n: nat) -> Seq<Seq<char>>
    decreases n,
{
    if n == 0 {
        Seq::empty()
    } else {
        conjunct_parts(parts, (n - 1) as nat).push(conjunct_text(parts[n - 1]))
    }
}

/// The conditions as one conjunction.
pub open spec fn conjunction_text(parts: Seq<Seq<char>>) -> Seq<char> {
    join_text(conjunct_parts(parts, parts.len()), " ∧ "@)
}

pub fn conjunction(parts: &Vec<String>) -> (r: String)
    ensures
        r@ == conjunction_text(texts(parts@)),
{
    let mut out: Vec<String> = Vec::new();
    for i in 0..parts.len()
        invariant
            texts(out@) == conjunct_parts(texts(parts@), i as nat),
    {
        out.push(paren_low_prec(&parts[i]));
    }
    join(&out, " ∧ ")
}

} // verus!
