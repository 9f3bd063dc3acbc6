//! The parts of Rust source text, as the `syn` crate finds them. A part of a
//! text is a text again: its tokens, as the `quote` crate prints them.
//!
//! Each function here reads its argument with `syn` and gives the parts of one
//! kind of construct; for any other construct, and for text that `syn` refuses,
//! the answer is that there are none. What it gives depends on the text alone.
use vstd::prelude::*;

use quote::ToTokens;
use syn::Expr;

use crate::search::opt_text;
use crate::text::texts;

verus! {

// ---------------------------------------------------------------------------
// Views
// ---------------------------------------------------------------------------

pub open spec fn opt_texts(o: Option<Vec<String>>) -> Option<Seq<Seq<char>>> {
    match o {
        Some(v) => Some(texts(v@)),
        None => None,
    }
}

pub open spec fn pair_views(v: Seq<(String, String)>) -> Seq<(Seq<char>, Seq<char>)> {
    Seq::new(v.len(), |i: int| (v[i].0@, v[i].1@))
}

/// A function: its name, its block, and the pattern and the type of each
/// parameter; nothing for a receiver.
pub struct FunctionParts {
    pub name: String,
    pub block: String,
    pub params: Vec<Option<(String, String)>>,
}

pub struct FunctionV {
    pub name: Seq<char>,
    pub block: Seq<char>,
    pub params: Seq<Option<(Seq<char>, Seq<char>)>>,
}

pub open spec fn param_pair(o: Option<(String, String)>) -> Option<(Seq<char>, Seq<char>)> {
    match o {
        Some((p, t)) => Some((p@, t@)),
        None => None,
    }
}

pub open spec fn function_view(o: Option<FunctionParts>) -> Option<FunctionV> {
    match o {
        Some(f) => Some(
            FunctionV {
                name: f.name@,
                block: f.block@,
                params: Seq::new(f.params@.len(), |i: int| param_pair(f.params@[i])),
            },
        ),
        None => None,
    }
}

/// A statement: the pattern of a binding, and the expression of a binding or of
/// an expression statement.
pub struct Statement {
    pub pattern: Option<String>,
    pub expr: Option<String>,
}

pub struct StatementV {
    pub pattern: Option<Seq<char>>,
    pub expr: Option<Seq<char>>,
}

pub open spec fn statement_views(v: Seq<Statement>) -> Seq<StatementV> {
    Seq::new(
        v.len(),
        |i: int| StatementV { pattern: opt_text(v[i].pattern), expr: opt_text(v[i].expr) },
    )
}

pub open spec fn statements_view(o: Option<Vec<Statement>>) -> Option<Seq<StatementV>> {
    match o {
        Some(v) => Some(statement_views(v@)),
        None => None,
    }
}

/// The pattern of a binding: a name, a pattern with a type, a slice, the rest
/// of a slice, or another.
pub enum Binding {
    Name(String),
    Typed(String),
    Slice(Vec<String>),
    Rest,
    Other,
}

pub enum BindingV {
    Name(Seq<char>),
    Typed(Seq<char>),
    Slice(Seq<Seq<char>>),
    Rest,
    Other,
}

pub open spec fn binding_view(b: Binding) -> BindingV {
    match b {
        Binding::Name(n) => BindingV::Name(n@),
        Binding::Typed(p) => BindingV::Typed(p@),
        Binding::Slice(es) => BindingV::Slice(texts(es@)),
        Binding::Rest => BindingV::Rest,
        Binding::Other => BindingV::Other,
    }
}

pub open spec fn call_view(o: Option<(String, Vec<String>)>) -> Option<(Seq<char>, Seq<Seq<char>>)> {
    match o {
        Some((f, args)) => Some((f@, texts(args@))),
        None => None,
    }
}

/// A method call: the receiver, the method and the arguments.
pub struct MethodParts {
    pub receiver: String,
    pub method: String,
    pub args: Vec<String>,
}

pub struct MethodV {
    pub receiver: Seq<char>,
    pub method: Seq<char>,
    pub args: Seq<Seq<char>>,
}

pub open spec fn method_view(o: Option<MethodParts>) -> Option<MethodV> {
    match o {
        Some(m) => Some(
            MethodV { receiver: m.receiver@, method: m.method@, args: texts(m.args@) },
        ),
        None => None,
    }
}

/// What stands around the one expression inside another.
#[derive(Clone, Copy, PartialEq, Eq, Structural)]
pub enum Around {
    Reference,
    Paren,
    Try,
    Unary,
    Other,
}

pub open spec fn inner_view(o: Option<(Around, String)>) -> Option<(Around, Seq<char>)> {
    match o {
        Some((a, e)) => Some((a, e@)),
        None => None,
    }
}

pub open spec fn two_view(o: Option<(String, String)>) -> Option<(Seq<char>, Seq<char>)> {
    match o {
        Some((a, b)) => Some((a@, b@)),
        None => None,
    }
}

pub open spec fn maybe_view(o: Option<Option<String>>) -> Option<Option<Seq<char>>> {
    match o {
        Some(e) => Some(opt_text(e)),
        None => None,
    }
}

pub open spec fn ends_view(o: Option<(Option<String>, Option<String>)>) -> Option<
    (Option<Seq<char>>, Option<Seq<char>>),
> {
    match o {
        Some((a, b)) => Some((opt_text(a), opt_text(b))),
        None => None,
    }
}

pub open spec fn flagged_view(o: Option<(bool, String)>) -> Option<(bool, Seq<char>)> {
    match o {
        Some((b, t)) => Some((b, t@)),
        None => None,
    }
}

pub open spec fn flagged_list_view(o: Option<(bool, Vec<String>)>) -> Option<(bool, Seq<Seq<char>>)> {
    match o {
        Some((b, v)) => Some((b, texts(v@))),
        None => None,
    }
}

/// An `if`: the condition, the block and what stands behind `else`.
pub struct IfParts {
    pub cond: String,
    pub then_block: String,
    pub otherwise: Option<String>,
}

pub struct IfV {
    pub cond: Seq<char>,
    pub then_block: Seq<char>,
    pub otherwise: Option<Seq<char>>,
}

pub open spec fn if_view(o: Option<IfParts>) -> Option<IfV> {
    match o {
        Some(i) => Some(
            IfV { cond: i.cond@, then_block: i.then_block@, otherwise: opt_text(i.otherwise) },
        ),
        None => None,
    }
}

pub open spec fn match_view(o: Option<(String, Vec<(String, String)>)>) -> Option<
    (Seq<char>, Seq<(Seq<char>, Seq<char>)>),
> {
    match o {
        Some((e, arms)) => Some((e@, pair_views(arms@))),
        None => None,
    }
}

pub open spec fn struct_view(o: Option<(Vec<(String, String)>, Option<String>)>) -> Option<
    (Seq<(Seq<char>, Seq<char>)>, Option<Seq<char>>),
> {
    match o {
        Some((fields, rest)) => Some((pair_views(fields@), opt_text(rest))),
        None => None,
    }
}

// ---------------------------------------------------------------------------
// Tokens
// ---------------------------------------------------------------------------

/// The tokens that `syn::parse_str` finds in a text, as the `quote` crate prints
/// them.
pub uninterp spec fn syn_tokens(text: Seq<char>) -> Option<Seq<char>>;

/// `syn::parse_str` on any text: its tokens, printed. White space and comments
/// between them are gone. `None` where the text is not made of tokens.
#[verifier::external_body]
pub(crate) fn token_text(text: &str) -> (r: Option<String>)
    ensures
        opt_text(r) == syn_tokens(text@),
{
    let tokens = syn::parse_str(text).ok()?;
    Some(Expr::Verbatim(tokens).to_token_stream().to_string())
}

// ---------------------------------------------------------------------------
// Items
// ---------------------------------------------------------------------------

/// The items that `syn::parse_file` finds in a file.
pub uninterp spec fn syn_items(source: Seq<char>) -> Option<Seq<Seq<char>>>;

/// `syn::parse_file`: the items of a file; `None` where the text is no Rust.
#[verifier::external_body]
pub(crate) fn file_items(source: &str) -> (r: Option<Vec<String>>)
    ensures
        opt_texts(r) == syn_items(source@),
{
    let file = syn::parse_file(source).ok()?;
    Some(file.items.iter().map(|i| i.to_token_stream().to_string()).collect())
}

/// The items that `syn::parse_str` finds in a module.
pub uninterp spec fn syn_module(item: Seq<char>) -> Option<Seq<Seq<char>>>;

/// `syn::parse_str` on a module: its items, where it has a body.
#[verifier::external_body]
pub(crate) fn module_items(item: &str) -> (r: Option<Vec<String>>)
    ensures
        opt_texts(r) == syn_module(item@),
{
    match syn::parse_str(item).ok()? {
        syn::Item::Mod(m) => {
            Some(m.content?.1.iter().map(|i| i.to_token_stream().to_string()).collect())
        }
        _ => None,
    }
}

/// The parts that `syn::parse_str` finds in a function.
pub uninterp spec fn syn_function(item: Seq<char>) -> Option<FunctionV>;

/// `syn::parse_str` on a function: its name, its block and its parameters.
#[verifier::external_body]
pub(crate) fn function_parts(item: &str) -> (r: Option<FunctionParts>)
    ensures
        function_view(r) == syn_function(item@),
{
    let syn::Item::Fn(f) = syn::parse_str(item).ok()? else { return None };
    let params = f.sig.inputs.iter().map(|arg| match arg {
        syn::FnArg::Typed(t) => {
            Some((t.pat.to_token_stream().to_string(), t.ty.to_token_stream().to_string()))
        }
        syn::FnArg::Receiver(_) => None,
    });
    Some(FunctionParts {
        name: f.sig.ident.to_string(),
        block: f.block.to_token_stream().to_string(),
        params: params.collect(),
    })
}

/// The statements that `syn::parse_str` finds in a block.
pub uninterp spec fn syn_statements(block: Seq<char>) -> Option<Seq<StatementV>>;

/// `syn::parse_str` on a block: its statements. A binding gives its pattern and
/// the expression that it is bound to, an expression statement its expression,
/// any other statement nothing.
#[verifier::external_body]
pub(crate) fn statements(block: &str) -> (r: Option<Vec<Statement>>)
    ensures
        statements_view(r) == syn_statements(block@),
{
    let block: syn::Block = syn::parse_str(block).ok()?;
    let parts = block.stmts.iter().map(|stmt| match stmt {
        syn::Stmt::Local(l) => Statement {
            pattern: Some(l.pat.to_token_stream().to_string()),
            expr: l.init.as_ref().map(|i| i.expr.to_token_stream().to_string()),
        },
        syn::Stmt::Expr(e, _) => {
            Statement { pattern: None, expr: Some(e.to_token_stream().to_string()) }
        }
        _ => Statement { pattern: None, expr: None },
    });
    Some(parts.collect())
}

// ---------------------------------------------------------------------------
// Patterns
// ---------------------------------------------------------------------------

/// What `syn::parse_str` finds a pattern of a binding to be.
pub uninterp spec fn syn_binding(pattern: Seq<char>) -> BindingV;

/// `syn::parse_str` on a binding with the pattern: what the pattern is.
#[verifier::external_body]
pub(crate) fn binding(pattern: &str) -> (r: Binding)
    ensures
        binding_view(r) == syn_binding(pattern@),
{
    let Ok(syn::Stmt::Local(local)) = syn::parse_str(&format!("let {};", pattern)) else {
        return Binding::Other;
    };
    match local.pat {
        syn::Pat::Ident(i) => Binding::Name(i.ident.to_string()),
        syn::Pat::Type(t) => Binding::Typed(t.pat.to_token_stream().to_string()),
        syn::Pat::Slice(s) => {
            Binding::Slice(s.elems.iter().map(|e| e.to_token_stream().to_string()).collect())
        }
        syn::Pat::Rest(_) => Binding::Rest,
        _ => Binding::Other,
    }
}

/// The digits that `syn` finds in a pattern that is an integer.
pub uninterp spec fn syn_pattern_int(pattern: Seq<char>) -> Option<Seq<char>>;

/// `syn::Pat::parse_multi_with_leading_vert` and `syn::LitInt::base10_digits`:
/// the digits of a pattern that is an integer, in decimal.
#[verifier::external_body]
pub(crate) fn pattern_int(pattern: &str) -> (r: Option<String>)
    ensures
        opt_text(r) == syn_pattern_int(pattern@),
{
    let parse = syn::Pat::parse_multi_with_leading_vert;
    match syn::parse::Parser::parse_str(parse, pattern).ok()? {
        syn::Pat::Lit(syn::ExprLit { lit: syn::Lit::Int(n), .. }) => {
            Some(n.base10_digits().to_string())
        }
        _ => None,
    }
}

/// The cases that `syn` finds in a pattern of alternatives.
pub uninterp spec fn syn_alternatives(pattern: Seq<char>) -> Option<Seq<Seq<char>>>;

/// `syn::Pat::parse_multi_with_leading_vert`: the cases of a pattern of
/// alternatives.
#[verifier::external_body]
pub(crate) fn alternatives(pattern: &str) -> (r: Option<Vec<String>>)
    ensures
        opt_texts(r) == syn_alternatives(pattern@),
{
    let parse = syn::Pat::parse_multi_with_leading_vert;
    match syn::parse::Parser::parse_str(parse, pattern).ok()? {
        syn::Pat::Or(or) => {
            Some(or.cases.iter().map(|c| c.to_token_stream().to_string()).collect())
        }
        _ => None,
    }
}

// ---------------------------------------------------------------------------
// Expressions
// ---------------------------------------------------------------------------

/// The parts that `syn::parse_str` finds in a call.
pub uninterp spec fn syn_call(expr: Seq<char>) -> Option<(Seq<char>, Seq<Seq<char>>)>;

/// `syn::parse_str` on a call: what is called, and the arguments.
#[verifier::external_body]
pub(crate) fn call_parts(expr: &str) -> (r: Option<(String, Vec<String>)>)
    ensures
        call_view(r) == syn_call(expr@),
{
    let Expr::Call(c) = syn::parse_str(expr).ok()? else { return None };
    Some((
        c.func.to_token_stream().to_string(),
        c.args.iter().map(|a| a.to_token_stream().to_string()).collect(),
    ))
}

/// The parts that `syn::parse_str` finds in a method call.
pub uninterp spec fn syn_method(expr: Seq<char>) -> Option<MethodV>;

/// `syn::parse_str` on a method call: the receiver, the method and the
/// arguments.
#[verifier::external_body]
pub(crate) fn method_parts(expr: &str) -> (r: Option<MethodParts>)
    ensures
        method_view(r) == syn_method(expr@),
{
    let Expr::MethodCall(c) = syn::parse_str(expr).ok()? else { return None };
    Some(MethodParts {
        receiver: c.receiver.to_token_stream().to_string(),
        method: c.method.to_string(),
        args: c.args.iter().map(|a| a.to_token_stream().to_string()).collect(),
    })
}

/// The names that `syn::parse_str` finds in a path.
pub uninterp spec fn syn_path(expr: Seq<char>) -> Option<Seq<Seq<char>>>;

/// `syn::parse_str` on a path: the names of its segments.
#[verifier::external_body]
pub(crate) fn path_segments(expr: &str) -> (r: Option<Vec<String>>)
    ensures
        opt_texts(r) == syn_path(expr@),
{
    let Expr::Path(p) = syn::parse_str(expr).ok()? else { return None };
    Some(p.path.segments.iter().map(|s| s.ident.to_string()).collect())
}

/// The one expression that `syn::parse_str` finds in another, and what stands
/// around it.
pub uninterp spec fn syn_inner(expr: Seq<char>) -> Option<(Around, Seq<char>)>;

/// `syn::parse_str` on an expression around one other: a reference, parentheses,
/// `?`, an operator before it, `.await`, a cast, a closure, a group or a `let`.
#[verifier::external_body]
pub(crate) fn inner_expr(expr: &str) -> (r: Option<(Around, String)>)
    ensures
        inner_view(r) == syn_inner(expr@),
{
    let (around, inner) = match syn::parse_str(expr).ok()? {
        Expr::Reference(e) => (Around::Reference, e.expr),
        Expr::Paren(e) => (Around::Paren, e.expr),
        Expr::Try(e) => (Around::Try, e.expr),
        Expr::Unary(e) => (Around::Unary, e.expr),
        Expr::Await(e) => (Around::Other, e.base),
        Expr::Cast(e) => (Around::Other, e.expr),
        Expr::Closure(e) => (Around::Other, e.body),
        Expr::Group(e) => (Around::Other, e.expr),
        Expr::Let(e) => (Around::Other, e.expr),
        _ => return None,
    };
    Some((around, inner.to_token_stream().to_string()))
}

/// The parts that `syn::parse_str` finds in a field access.
pub uninterp spec fn syn_field(expr: Seq<char>) -> Option<(Seq<char>, Seq<char>)>;

/// `syn::parse_str` on a field access: the base and the field.
#[verifier::external_body]
pub(crate) fn field_parts(expr: &str) -> (r: Option<(String, String)>)
    ensures
        two_view(r) == syn_field(expr@),
{
    let Expr::Field(f) = syn::parse_str(expr).ok()? else { return None };
    Some((f.base.to_token_stream().to_string(), f.member.to_token_stream().to_string()))
}

/// The value that `syn::parse_str` finds in a `break`, `return` or `yield`.
pub uninterp spec fn syn_jump(expr: Seq<char>) -> Option<Option<Seq<char>>>;

/// `syn::parse_str` on a `break`, `return` or `yield`: its value, if it has one.
#[verifier::external_body]
pub(crate) fn jump_value(expr: &str) -> (r: Option<Option<String>>)
    ensures
        maybe_view(r) == syn_jump(expr@),
{
    let value = match syn::parse_str(expr).ok()? {
        Expr::Break(e) => e.expr,
        Expr::Return(e) => e.expr,
        Expr::Yield(e) => e.expr,
        _ => return None,
    };
    Some(value.map(|e| e.to_token_stream().to_string()))
}

/// The two parts that `syn::parse_str` finds in an expression with two.
pub uninterp spec fn syn_two(expr: Seq<char>) -> Option<(Seq<char>, Seq<char>)>;

/// `syn::parse_str` on an assignment, an operation with two operands, an index
/// or a repeated array: its two expressions.
#[verifier::external_body]
pub(crate) fn two_parts(expr: &str) -> (r: Option<(String, String)>)
    ensures
        two_view(r) == syn_two(expr@),
{
    let (a, b) = match syn::parse_str(expr).ok()? {
        Expr::Assign(e) => (e.left, e.right),
        Expr::Binary(e) => (e.left, e.right),
        Expr::Index(e) => (e.expr, e.index),
        Expr::Repeat(e) => (e.expr, e.len),
        _ => return None,
    };
    Some((a.to_token_stream().to_string(), b.to_token_stream().to_string()))
}

/// The ends that `syn::parse_str` finds in a range.
pub uninterp spec fn syn_range(expr: Seq<char>) -> Option<(Option<Seq<char>>, Option<Seq<char>>)>;

/// `syn::parse_str` on a range: its start and its end, where it has them.
#[verifier::external_body]
pub(crate) fn range_ends(expr: &str) -> (r: Option<(Option<String>, Option<String>)>)
    ensures
        ends_view(r) == syn_range(expr@),
{
    let Expr::Range(e) = syn::parse_str(expr).ok()? else { return None };
    Some((
        e.start.map(|x| x.to_token_stream().to_string()),
        e.end.map(|x| x.to_token_stream().to_string()),
    ))
}

/// The elements that `syn::parse_str` finds in an array or a tuple.
pub uninterp spec fn syn_elements(expr: Seq<char>) -> Option<(bool, Seq<Seq<char>>)>;

/// `syn::parse_str` on an array or a tuple: whether it is an array, and its
/// elements.
#[verifier::external_body]
pub(crate) fn element_parts(expr: &str) -> (r: Option<(bool, Vec<String>)>)
    ensures
        flagged_list_view(r) == syn_elements(expr@),
{
    let (is_array, elems) = match syn::parse_str(expr).ok()? {
        Expr::Array(e) => (true, e.elems),
        Expr::Tuple(e) => (false, e.elems),
        _ => return None,
    };
    Some((is_array, elems.iter().map(|e| e.to_token_stream().to_string()).collect()))
}

/// The block that `syn::parse_str` finds in an expression.
pub uninterp spec fn syn_block(expr: Seq<char>) -> Option<(bool, Seq<char>)>;

/// `syn::parse_str` on a block, a `loop`, a `for`, or a block behind `async`,
/// `try` or `unsafe`: whether it is a block alone, and the block.
#[verifier::external_body]
pub(crate) fn block_part(expr: &str) -> (r: Option<(bool, String)>)
    ensures
        flagged_view(r) == syn_block(expr@),
{
    let (alone, block) = match syn::parse_str(expr).ok()? {
        Expr::Block(e) => (true, e.block),
        Expr::Async(e) => (false, e.block),
        Expr::ForLoop(e) => (false, e.body),
        Expr::Loop(e) => (false, e.body),
        Expr::TryBlock(e) => (false, e.block),
        Expr::Unsafe(e) => (false, e.block),
        _ => return None,
    };
    Some((alone, block.to_token_stream().to_string()))
}

/// The parts that `syn::parse_str` finds in a `while`.
pub uninterp spec fn syn_while(expr: Seq<char>) -> Option<(Seq<char>, Seq<char>)>;

/// `syn::parse_str` on a `while`: the condition and the block.
#[verifier::external_body]
pub(crate) fn while_parts(expr: &str) -> (r: Option<(String, String)>)
    ensures
        two_view(r) == syn_while(expr@),
{
    let Expr::While(e) = syn::parse_str(expr).ok()? else { return None };
    Some((e.cond.to_token_stream().to_string(), e.body.to_token_stream().to_string()))
}

/// The parts that `syn::parse_str` finds in an `if`.
pub uninterp spec fn syn_if(expr: Seq<char>) -> Option<IfV>;

/// `syn::parse_str` on an `if`: the condition, the block, and what stands
/// behind `else`.
#[verifier::external_body]
pub(crate) fn if_parts(expr: &str) -> (r: Option<IfParts>)
    ensures
        if_view(r) == syn_if(expr@),
{
    let Expr::If(e) = syn::parse_str(expr).ok()? else { return None };
    Some(IfParts {
        cond: e.cond.to_token_stream().to_string(),
        then_block: e.then_branch.to_token_stream().to_string(),
        otherwise: e.else_branch.map(|x| x.1.to_token_stream().to_string()),
    })
}

/// The parts that `syn::parse_str` finds in a `match`.
pub uninterp spec fn syn_match(expr: Seq<char>) -> Option<
    (Seq<char>, Seq<(Seq<char>, Seq<char>)>),
>;

/// `syn::parse_str` on a `match`: what is matched, and the pattern and the body
/// of each arm.
#[verifier::external_body]
pub(crate) fn match_parts(expr: &str) -> (r: Option<(String, Vec<(String, String)>)>)
    ensures
        match_view(r) == syn_match(expr@),
{
    let Expr::Match(e) = syn::parse_str(expr).ok()? else { return None };
    let arms = e.arms.iter().map(|a| {
        (a.pat.to_token_stream().to_string(), a.body.to_token_stream().to_string())
    });
    Some((e.expr.to_token_stream().to_string(), arms.collect()))
}

/// The parts that `syn::parse_str` finds in a struct literal.
pub uninterp spec fn syn_struct(expr: Seq<char>) -> Option<
    (Seq<(Seq<char>, Seq<char>)>, Option<Seq<char>>),
>;

/// `syn::parse_str` on a struct literal: the name and the value of each field,
/// and the base behind `..`.
#[verifier::external_body]
pub(crate) fn struct_parts(expr: &str) -> (r: Option<(Vec<(String, String)>, Option<String>)>)
    ensures
        struct_view(r) == syn_struct(expr@),
{
    let Expr::Struct(e) = syn::parse_str(expr).ok()? else { return None };
    let fields = e.fields.iter().map(|f| {
        (f.member.to_token_stream().to_string(), f.expr.to_token_stream().to_string())
    });
    Some((fields.collect(), e.rest.map(|x| x.to_token_stream().to_string())))
}

/// The digits that `syn` finds in an integer.
pub uninterp spec fn syn_int(expr: Seq<char>) -> Option<Seq<char>>;

/// `syn::parse_str` and `syn::LitInt::base10_digits`: the digits of an integer,
/// in decimal.
#[verifier::external_body]
pub(crate) fn int_digits(expr: &str) -> (r: Option<String>)
    ensures
        opt_text(r) == syn_int(expr@),
{
    match syn::parse_str(expr).ok()? {
        Expr::Lit(syn::ExprLit { lit: syn::Lit::Int(n), .. }) => {
            Some(n.base10_digits().to_string())
        }
        _ => None,
    }
}

} // verus!
