//! Recursive-descent parser from CDL tokens to the syntax tree.
//!
//! The grammar of expressions:
//! E --> T {( "+" | "-" ) T}, T --> F {( "*" | "/" ) F},
//! F --> number | string | identifier | vpath | function | "(" E ")" | "-" T.
use vstd::prelude::*;
use crate::cdl_core::lex::{LexItem, Tok, toks, token_debug, debug_token};
use crate::cdl_core::ast::{
    ArenaV, ExprV, FieldV, EntityV, Expr, AstStringNode, AstIdentifierNode, AstNumberNode,
    AstFunctionNode, AstOperatorNode, AstUnaryOperatorNode, AstVPathNode, AstRootNode,
    AstEntityNode, AstFieldNode, ParseResult,
};
use crate::text::string_push_str;

verus! {

/// Outcome of a parsing step: a value with the index after it and the grown
/// arenas; an error message; or a panic of the parser.
pub enum PStep<T> {
    Done(T, nat, ArenaV),
    Fail(Seq<char>),
    Panic,
}

pub open spec fn msg_top(t: Tok) -> Seq<char> {
    "Error when parsing top level, found "@ + token_debug(t)
}

pub open spec fn msg_main_type(t: Tok) -> Seq<char> {
    "Trying to parse Entity, didnt find main type. Found "@ + token_debug(t) + " instead"@
}

pub open spec fn msg_body() -> Seq<char> {
    "Trying to parse entity body, and not field or entity found"@
}

pub open spec fn msg_field_id(t: Tok) -> Seq<char> {
    "Didnt find field identifier, instead got "@ + token_debug(t)
}

pub open spec fn msg_factor(t: Tok) -> Seq<char> {
    "Found unexpected token when trying to parse factor: "@ + token_debug(t)
}

pub open spec fn msg_vpath(t: Tok) -> Seq<char> {
    "Found unexpected token when trying to parse vpath: "@ + token_debug(t)
}

pub open spec fn msg_function(t: Tok) -> Seq<char> {
    "Found unexpected token when trying to parse function: "@ + token_debug(t)
}

/// Expressions `E`: a term followed by `+ T` and `- T` parts.
pub open spec fn p_expr(t: Seq<Tok>, i: nat, a: ArenaV) -> PStep<usize>
    decreases t.len() - i, 4int,
{
    match p_term(t, i, a) {
        PStep::Done(cur, j, a1) => if i < j <= t.len() {
            p_expr_tail(t, j, cur, a1)
        } else {
            PStep::Panic
        },
        PStep::Fail(m) => PStep::Fail(m),
        PStep::Panic => PStep::Panic,
    }
}

/// The `+ T` and `- T` parts after the expression `cur`.
pub open spec fn p_expr_tail(t: Seq<Tok>, j: nat, cur: usize, a: ArenaV) -> PStep<usize>
    decreases t.len() - j, 0int,
{
    if j >= t.len() {
        PStep::Panic
    } else if t[j as int] is Plus || t[j as int] is Minus {
        let op = if t[j as int] is Plus { '+' } else { '-' };
        match p_term(t, j + 1, a) {
            PStep::Done(r, k, a1) => if j + 1 < k <= t.len() {
                p_expr_tail(t, k, a1.exprs.len() as usize, a1.push_expr(ExprV::Operator(op, cur, r)))
            } else {
                PStep::Panic
            },
            PStep::Fail(m) => PStep::Fail(m),
            PStep::Panic => PStep::Panic,
        }
    } else {
        PStep::Done(cur, j, a)
    }
}

/// Terms `T`: a factor followed by `* F` and `/ F` parts.
pub open spec fn p_term(t: Seq<Tok>, i: nat, a: ArenaV) -> PStep<usize>
    decreases t.len() - i, 3int,
{
    match p_factor(t, i, a) {
        PStep::Done(cur, j, a1) => if i < j <= t.len() {
            p_term_tail(t, j, cur, a1)
        } else {
            PStep::Panic
        },
        PStep::Fail(m) => PStep::Fail(m),
        PStep::Panic => PStep::Panic,
    }
}

/// The `* F` and `/ F` parts after the term `cur`.
pub open spec fn p_term_tail(t: Seq<Tok>, j: nat, cur: usize, a: ArenaV) -> PStep<usize>
    decreases t.len() - j, 0int,
{
    if j >= t.len() {
        PStep::Panic
    } else if t[j as int] is Mul || t[j as int] is Div {
        let op = if t[j as int] is Mul { '*' } else { '/' };
        match p_factor(t, j + 1, a) {
            PStep::Done(r, k, a1) => if j + 1 < k <= t.len() {
                p_term_tail(t, k, a1.exprs.len() as usize, a1.push_expr(ExprV::Operator(op, cur, r)))
            } else {
                PStep::Panic
            },
            PStep::Fail(m) => PStep::Fail(m),
            PStep::Panic => PStep::Panic,
        }
    } else {
        PStep::Done(cur, j, a)
    }
}

/// Factors `F`.
pub open spec fn p_factor(t: Seq<Tok>, i: nat, a: ArenaV) -> PStep<usize>
    decreases t.len() - i, 2int,
{
    let n = a.exprs.len() as usize;
    if i >= t.len() {
        PStep::Panic
    } else {
        match t[i as int] {
            Tok::Number(x) => PStep::Done(n, i + 1, a.push_expr(ExprV::Number(x))),
            Tok::Str(x) => PStep::Done(n, i + 1, a.push_expr(ExprV::Str(x))),
            Tok::Identifier(x) => if i + 1 >= t.len() {
                PStep::Panic
            } else if t[i + 1 as int] is Colon {
                p_vpath(t, i, a)
            } else if t[i + 1 as int] is OpenPar {
                p_function(t, i, a)
            } else {
                PStep::Done(n, i + 1, a.push_expr(ExprV::Identifier(x)))
            },
            Tok::OpenPar => match p_expr(t, i + 1, a) {
                PStep::Done(e, k, a1) => if k < t.len() && t[k as int] is ClosePar {
                    PStep::Done(e, k + 1, a1)
                } else {
                    PStep::Panic
                },
                PStep::Fail(m) => PStep::Fail(m),
                PStep::Panic => PStep::Panic,
            },
            Tok::Minus => match p_term(t, i + 1, a) {
                PStep::Done(e, k, a1) => PStep::Done(
                    a1.exprs.len() as usize,
                    k,
                    a1.push_expr(ExprV::UnaryOperator('-', e)),
                ),
                PStep::Fail(m) => PStep::Fail(m),
                PStep::Panic => PStep::Panic,
            },
            _ => PStep::Fail(msg_factor(t[i as int])),
        }
    }
}

/// The text of an identifier token.
pub open spec fn ident_text(t: Tok) -> Seq<char> {
    match t {
        Tok::Identifier(s) => s,
        _ => Seq::empty(),
    }
}

/// A value path `table:field`.
pub open spec fn p_vpath(t: Seq<Tok>, i: nat, a: ArenaV) -> PStep<usize>
    decreases t.len() - i, 0int,
{
    if i >= t.len() {
        PStep::Panic
    } else if !(t[i as int] is Identifier) {
        PStep::Fail(msg_vpath(t[i as int]))
    } else if !(i + 1 < t.len() && t[i + 1 as int] is Colon) || i + 2 >= t.len() {
        PStep::Panic
    } else if !(t[i + 2 as int] is Identifier) {
        PStep::Fail(msg_vpath(t[i + 2 as int]))
    } else {
        PStep::Done(
            a.exprs.len() as usize,
            i + 3,
            a.push_expr(ExprV::VPath(Some(ident_text(t[i as int])), None, Some(ident_text(t[i + 2 as int])), None)),
        )
    }
}

/// A function call `name(args)`.
pub open spec fn p_function(t: Seq<Tok>, i: nat, a: ArenaV) -> PStep<usize>
    decreases t.len() - i, 1int,
{
    if i >= t.len() {
        PStep::Panic
    } else if !(t[i as int] is Identifier) {
        PStep::Fail(msg_function(t[i as int]))
    } else if !(i + 1 < t.len() && t[i + 1 as int] is OpenPar) {
        PStep::Panic
    } else {
        match p_arg_list(t, i + 2, Seq::empty(), a) {
            PStep::Done(args, k, a1) => if k < t.len() && t[k as int] is ClosePar {
                PStep::Done(
                    a1.exprs.len() as usize,
                    k + 1,
                    a1.push_expr(ExprV::Function(ident_text(t[i as int]), args)),
                )
            } else {
                PStep::Panic
            },
            PStep::Fail(m) => PStep::Fail(m),
            PStep::Panic => PStep::Panic,
        }
    }
}

/// The arguments of a call up to (not past) the closing parenthesis;
/// commas are skipped.
pub open spec fn p_arg_list(t: Seq<Tok>, i: nat, args: Seq<usize>, a: ArenaV) -> PStep<Seq<usize>>
    decreases t.len() - i, 5int,
{
    if i >= t.len() {
        PStep::Panic
    } else if t[i as int] is Comma {
        p_arg_list(t, i + 1, args, a)
    } else if t[i as int] is ClosePar {
        PStep::Done(args, i, a)
    } else {
        match p_expr(t, i, a) {
            PStep::Done(e, k, a1) => if i < k <= t.len() {
                p_arg_list(t, k, args.push(e), a1)
            } else {
                PStep::Panic
            },
            PStep::Fail(m) => PStep::Fail(m),
            PStep::Panic => PStep::Panic,
        }
    }
}

/// A field `name : expression` and its end of line.
pub open spec fn p_field(t: Seq<Tok>, j: nat, a: ArenaV) -> PStep<usize> {
    if j >= t.len() {
        PStep::Panic
    } else if !(t[j as int] is Identifier) {
        PStep::Fail(msg_field_id(t[j as int]))
    } else if !(j + 1 < t.len() && t[j + 1 as int] is Colon) {
        PStep::Panic
    } else {
        match p_expr(t, j + 2, a) {
            PStep::Done(e, k, a1) => if k < t.len() && t[k as int] is EOL {
                PStep::Done(
                    a1.fields.len() as usize,
                    k + 1,
                    a1.push_field(FieldV { identifier: ident_text(t[j as int]), value: e }),
                )
            } else {
                PStep::Panic
            },
            PStep::Fail(m) => PStep::Fail(m),
            PStep::Panic => PStep::Panic,
        }
    }
}

/// An entity: main type, optional sub type, id and reference, then `{`, end
/// of line, and the body.
pub open spec fn p_entity(t: Seq<Tok>, i: nat, a: ArenaV) -> PStep<usize>
    decreases t.len() - i, 0int,
{
    if i >= t.len() {
        PStep::Panic
    } else if !(t[i as int] is Identifier) {
        PStep::Fail(msg_main_type(t[i as int]))
    } else {
        let i1 = i + 1;
        if i1 >= t.len() {
            PStep::Panic
        } else {
            let sub = if t[i1 as int] is Identifier { Some(ident_text(t[i1 as int])) } else { None };
            let i2 = if t[i1 as int] is Identifier { i1 + 1 } else { i1 };
            if i2 >= t.len() {
                PStep::Panic
            } else {
                let id = if t[i2 as int] is Identifier { Some(ident_text(t[i2 as int])) } else { None };
                let i3 = if t[i2 as int] is Identifier { i2 + 1 } else { i2 };
                if i3 >= t.len() {
                    PStep::Panic
                } else {
                    let rf = match t[i3 as int] {
                        Tok::Reference(s) => Some(s),
                        _ => None,
                    };
                    let i4 = if t[i3 as int] is Reference { i3 + 1 } else { i3 };
                    if !(i4 + 1 < t.len() && t[i4 as int] is OpenBracket && t[i4 + 1 as int] is EOL) {
                        PStep::Panic
                    } else {
                        p_entity_body(
                            t,
                            i4 + 2,
                            EntityV {
                                main_type: ident_text(t[i as int]),
                                sub_type: sub,
                                reference: rf,
                                identifier: id,
                                fields: Seq::empty(),
                                children: Seq::empty(),
                            },
                            a,
                        )
                    }
                }
            }
        }
    }
}

/// The body of entity `node` from token `j`: fields, nested entities and
/// blank lines up to `}` and an end of line; the entity is stored last.
pub open spec fn p_entity_body(t: Seq<Tok>, j: nat, node: EntityV, a: ArenaV) -> PStep<usize>
    decreases t.len() - j, 1int,
{
    if j >= t.len() {
        PStep::Panic
    } else if t[j as int] is CloseBracket {
        if j + 1 < t.len() && t[j + 1 as int] is EOL {
            PStep::Done(a.entities.len() as usize, j + 2, a.push_entity(node))
        } else {
            PStep::Panic
        }
    } else if t[j as int] is EOL {
        p_entity_body(t, j + 1, node, a)
    } else if j + 1 >= t.len() {
        PStep::Panic
    } else if t[j as int] is Identifier && t[j + 1 as int] is Colon {
        match p_field(t, j, a) {
            PStep::Done(f, k, a1) => if j < k <= t.len() {
                p_entity_body(t, k, EntityV { fields: node.fields.push(f), ..node }, a1)
            } else {
                PStep::Panic
            },
            PStep::Fail(m) => PStep::Fail(m),
            PStep::Panic => PStep::Panic,
        }
    } else if t[j as int] is Identifier {
        match p_entity(t, j, a) {
            PStep::Done(e, k, a1) => if j < k <= t.len() {
                p_entity_body(t, k, EntityV { children: node.children.push(e), ..node }, a1)
            } else {
                PStep::Panic
            },
            PStep::Fail(m) => PStep::Fail(m),
            PStep::Panic => PStep::Panic,
        }
    } else {
        PStep::Fail(msg_body())
    }
}

/// The script from token `i`: top-level entities, with blank lines skipped.
pub open spec fn p_top(t: Seq<Tok>, i: nat, roots: Seq<usize>, a: ArenaV) -> PStep<Seq<usize>>
    decreases t.len() - i,
{
    if i >= t.len() {
        PStep::Done(roots, i, a)
    } else if t[i as int] is EOL {
        p_top(t, i + 1, roots, a)
    } else if t[i as int] is Identifier {
        match p_entity(t, i, a) {
            PStep::Done(e, k, a1) => if i < k <= t.len() {
                p_top(t, k, roots.push(e), a1)
            } else {
                PStep::Panic
            },
            PStep::Fail(m) => PStep::Fail(m),
            PStep::Panic => PStep::Panic,
        }
    } else {
        PStep::Fail(msg_top(t[i as int]))
    }
}

/// The operator character of a `+` or `-` token.
pub open spec fn add_op(o: Tok) -> char {
    if o is Plus {
        '+'
    } else {
        '-'
    }
}

/// A number followed by a token other than `*` and `/` is a whole term.
proof fn lemma_number_term(t: Seq<Tok>, i: nat, a: ArenaV, x: Seq<char>)
    requires
        i + 1 < t.len(),
        t[i as int] == Tok::Number(x),
        !(t[i + 1 as int] is Mul || t[i + 1 as int] is Div),
    ensures
        p_term(t, i, a) == PStep::Done(a.exprs.len() as usize, i + 1, a.push_expr(ExprV::Number(x))),
{
    let a1 = a.push_expr(ExprV::Number(x));
    assert(p_factor(t, i, a) == PStep::Done(a.exprs.len() as usize, i + 1, a1));
    assert(p_term_tail(t, i + 1, a.exprs.len() as usize, a1) == PStep::Done(a.exprs.len() as usize, i + 1, a1));
}

/// `+` and `-` group to the left: `x o1 y o2 z` parses as `(x o1 y) o2 z`,
/// for any numbers `x`, `y`, `z` and operators `o1`, `o2` among `+` and `-`:
/// the node for `o1` joins `x` and `y`, and the node for `o2`, the result,
/// joins that node and `z`.
pub proof fn lemma_add_sub_left_assoc(
    t: Seq<Tok>,
    i: nat,
    a: ArenaV,
    x: Seq<char>,
    y: Seq<char>,
    z: Seq<char>,
    o1: Tok,
    o2: Tok,
)
    requires
        i + 5 < t.len(),
        a.exprs.len() + 5 <= usize::MAX,
        o1 is Plus || o1 is Minus,
        o2 is Plus || o2 is Minus,
        t[i as int] == Tok::Number(x),
        t[i + 1 as int] == o1,
        t[i + 2 as int] == Tok::Number(y),
        t[i + 3 as int] == o2,
        t[i + 4 as int] == Tok::Number(z),
        t[i + 5 as int] is EOL,
    ensures
        ({
            let n = a.exprs.len();
            let e = a.exprs + seq![
                ExprV::Number(x),
                ExprV::Number(y),
                ExprV::Operator(add_op(o1), n as usize, (n + 1) as usize),
                ExprV::Number(z),
                ExprV::Operator(add_op(o2), (n + 2) as usize, (n + 3) as usize),
            ];
            p_expr(t, i, a) == PStep::Done((n + 4) as usize, i + 5, ArenaV { exprs: e, ..a })
        }),
{
    let n = a.exprs.len();
    let a1 = a.push_expr(ExprV::Number(x));
    lemma_number_term(t, i, a, x);
    let a2 = a1.push_expr(ExprV::Number(y));
    lemma_number_term(t, i + 2, a1, y);
    let a3 = a2.push_expr(ExprV::Operator(add_op(o1), n as usize, (n + 1) as usize));
    let a4 = a3.push_expr(ExprV::Number(z));
    lemma_number_term(t, i + 4, a3, z);
    let a5 = a4.push_expr(ExprV::Operator(add_op(o2), (n + 2) as usize, (n + 3) as usize));
    assert(p_expr_tail(t, i + 5, (n + 4) as usize, a5) == PStep::Done((n + 4) as usize, i + 5, a5));
    assert(p_expr_tail(t, i + 3, (n + 2) as usize, a3) == PStep::Done((n + 4) as usize, i + 5, a5));
    assert(p_expr_tail(t, i + 1, n as usize, a1) == PStep::Done((n + 4) as usize, i + 5, a5));
    let e = a.exprs + seq![
        ExprV::Number(x),
        ExprV::Number(y),
        ExprV::Operator(add_op(o1), n as usize, (n + 1) as usize),
        ExprV::Number(z),
        ExprV::Operator(add_op(o2), (n + 2) as usize, (n + 3) as usize),
    ];
    assert(a5.exprs =~= e);
    assert(a5 == ArenaV { exprs: e, ..a });
}

/// The operator character of a `*` or `/` token.
pub open spec fn mul_op(o: Tok) -> char {
    if o is Mul {
        '*'
    } else {
        '/'
    }
}

/// `*` and `/` group to the left: `x o1 y o2 z` parses as `(x o1 y) o2 z`,
/// for any numbers `x`, `y`, `z` and operators `o1`, `o2` among `*` and `/`.
pub proof fn lemma_mul_div_left_assoc(
    t: Seq<Tok>,
    i: nat,
    a: ArenaV,
    x: Seq<char>,
    y: Seq<char>,
    z: Seq<char>,
    o1: Tok,
    o2: Tok,
)
    requires
        i + 5 < t.len(),
        a.exprs.len() + 5 <= usize::MAX,
        o1 is Mul || o1 is Div,
        o2 is Mul || o2 is Div,
        t[i as int] == Tok::Number(x),
        t[i + 1 as int] == o1,
        t[i + 2 as int] == Tok::Number(y),
        t[i + 3 as int] == o2,
        t[i + 4 as int] == Tok::Number(z),
        t[i + 5 as int] is EOL,
    ensures
        ({
            let n = a.exprs.len();
            let e = a.exprs + seq![
                ExprV::Number(x),
                ExprV::Number(y),
                ExprV::Operator(mul_op(o1), n as usize, (n + 1) as usize),
                ExprV::Number(z),
                ExprV::Operator(mul_op(o2), (n + 2) as usize, (n + 3) as usize),
            ];
            p_expr(t, i, a) == PStep::Done((n + 4) as usize, i + 5, ArenaV { exprs: e, ..a })
        }),
{
    let n = a.exprs.len();
    let a1 = a.push_expr(ExprV::Number(x));
    let a2 = a1.push_expr(ExprV::Number(y));
    let a3 = a2.push_expr(ExprV::Operator(mul_op(o1), n as usize, (n + 1) as usize));
    let a4 = a3.push_expr(ExprV::Number(z));
    let a5 = a4.push_expr(ExprV::Operator(mul_op(o2), (n + 2) as usize, (n + 3) as usize));
    assert(p_factor(t, i, a) == PStep::Done(n as usize, i + 1, a1));
    assert(p_factor(t, i + 2, a1) == PStep::Done((n + 1) as usize, i + 3, a2));
    assert(p_factor(t, i + 4, a3) == PStep::Done((n + 3) as usize, i + 5, a4));
    assert(p_term_tail(t, i + 5, (n + 4) as usize, a5) == PStep::Done((n + 4) as usize, i + 5, a5));
    assert(p_term_tail(t, i + 3, (n + 2) as usize, a3) == PStep::Done((n + 4) as usize, i + 5, a5));
    assert(p_term_tail(t, i + 1, n as usize, a1) == PStep::Done((n + 4) as usize, i + 5, a5));
    assert(p_term(t, i, a) == PStep::Done((n + 4) as usize, i + 5, a5));
    assert(p_expr_tail(t, i + 5, (n + 4) as usize, a5) == PStep::Done((n + 4) as usize, i + 5, a5));
    let e = a.exprs + seq![
        ExprV::Number(x),
        ExprV::Number(y),
        ExprV::Operator(mul_op(o1), n as usize, (n + 1) as usize),
        ExprV::Number(z),
        ExprV::Operator(mul_op(o2), (n + 2) as usize, (n + 3) as usize),
    ];
    assert(a5.exprs =~= e);
}

/// `*` and `/` bind tighter than `+` and `-`: `x o1 y o2 z`, with `o1` among
/// `+` and `-` and `o2` among `*` and `/`, parses as `x o1 (y o2 z)`.
pub proof fn lemma_mul_binds_tighter(
    t: Seq<Tok>,
    i: nat,
    a: ArenaV,
    x: Seq<char>,
    y: Seq<char>,
    z: Seq<char>,
    o1: Tok,
    o2: Tok,
)
    requires
        i + 5 < t.len(),
        a.exprs.len() + 5 <= usize::MAX,
        o1 is Plus || o1 is Minus,
        o2 is Mul || o2 is Div,
        t[i as int] == Tok::Number(x),
        t[i + 1 as int] == o1,
        t[i + 2 as int] == Tok::Number(y),
        t[i + 3 as int] == o2,
        t[i + 4 as int] == Tok::Number(z),
        t[i + 5 as int] is EOL,
    ensures
        ({
            let n = a.exprs.len();
            let e = a.exprs + seq![
                ExprV::Number(x),
                ExprV::Number(y),
                ExprV::Number(z),
                ExprV::Operator(mul_op(o2), (n + 1) as usize, (n + 2) as usize),
                ExprV::Operator(add_op(o1), n as usize, (n + 3) as usize),
            ];
            p_expr(t, i, a) == PStep::Done((n + 4) as usize, i + 5, ArenaV { exprs: e, ..a })
        }),
{
    let n = a.exprs.len();
    let a1 = a.push_expr(ExprV::Number(x));
    lemma_number_term(t, i, a, x);
    let a2 = a1.push_expr(ExprV::Number(y));
    let a3 = a2.push_expr(ExprV::Number(z));
    let a4 = a3.push_expr(ExprV::Operator(mul_op(o2), (n + 1) as usize, (n + 2) as usize));
    let a5 = a4.push_expr(ExprV::Operator(add_op(o1), n as usize, (n + 3) as usize));
    assert(p_factor(t, i + 2, a1) == PStep::Done((n + 1) as usize, i + 3, a2));
    assert(p_factor(t, i + 4, a2) == PStep::Done((n + 2) as usize, i + 5, a3));
    assert(p_term_tail(t, i + 5, (n + 3) as usize, a4) == PStep::Done((n + 3) as usize, i + 5, a4));
    assert(p_term_tail(t, i + 3, (n + 1) as usize, a2) == PStep::Done((n + 3) as usize, i + 5, a4));
    assert(p_term(t, i + 2, a1) == PStep::Done((n + 3) as usize, i + 5, a4));
    assert(p_expr_tail(t, i + 5, (n + 4) as usize, a5) == PStep::Done((n + 4) as usize, i + 5, a5));
    assert(p_expr_tail(t, i + 1, n as usize, a1) == PStep::Done((n + 4) as usize, i + 5, a5));
    let e = a.exprs + seq![
        ExprV::Number(x),
        ExprV::Number(y),
        ExprV::Number(z),
        ExprV::Operator(mul_op(o2), (n + 1) as usize, (n + 2) as usize),
        ExprV::Operator(add_op(o1), n as usize, (n + 3) as usize),
    ];
    assert(a5.exprs =~= e);
}

pub open spec fn empty_arena() -> ArenaV {
    ArenaV { entities: Seq::empty(), fields: Seq::empty(), exprs: Seq::empty() }
}

/// What parsing the tokens `t` gives.
pub open spec fn parse_tokens(t: Seq<Tok>) -> PStep<Seq<usize>> {
    p_top(t, 0, Seq::empty(), empty_arena())
}

/// A code for each kind of token.
pub open spec fn tok_code(t: Tok) -> u8 {
    match t {
        Tok::Identifier(_) => 0,
        Tok::Reference(_) => 1,
        Tok::Str(_) => 2,
        Tok::Number(_) => 3,
        Tok::EOL => 4,
        Tok::OpenBracket => 5,
        Tok::CloseBracket => 6,
        Tok::Colon => 7,
        Tok::Comma => 8,
        Tok::OpenPar => 9,
        Tok::ClosePar => 10,
        Tok::Plus => 11,
        Tok::Minus => 12,
        Tok::Mul => 13,
        Tok::Div => 14,
    }
}

/// The text a token carries.
pub open spec fn tok_text(t: Tok) -> Option<Seq<char>> {
    match t {
        Tok::Identifier(s) => Some(s),
        Tok::Reference(s) => Some(s),
        Tok::Str(s) => Some(s),
        Tok::Number(s) => Some(s),
        _ => None,
    }
}

/// `res`, the index `idx` and the arenas `a` after a call agree with the
/// outcome `s` of the step.
/// `res` is what the parsing step `s` gives: `None` where it panics.
pub open spec fn step_opt(s: PStep<usize>, res: Option<Result<usize, String>>, idx: usize, a: ArenaV) -> bool {
    match s {
        PStep::Done(v, j, a2) => res matches Some(Ok(x)) && x == v && idx == j && a == a2,
        PStep::Fail(m) => res matches Some(Err(e)) && e@ == m,
        PStep::Panic => res is None,
    }
}

/// `res` is what the parsing step `s` gives: `None` where it panics.
pub open spec fn steps_opt(s: PStep<Seq<usize>>, res: Option<Result<Vec<usize>, String>>, idx: usize, a: ArenaV) -> bool {
    match s {
        PStep::Done(v, j, a2) => res matches Some(Ok(x)) && x@ == v && idx == j && a == a2,
        PStep::Fail(m) => res matches Some(Err(e)) && e@ == m,
        PStep::Panic => res is None,
    }
}

fn message(prefix: &str, tok: &LexItem) -> (m: String)
    ensures
        m@ == prefix@ + token_debug(tok@),
{
    let mut m = String::new();
    string_push_str(&mut m, prefix);
    let d = debug_token(tok);
    string_push_str(&mut m, d.as_str());
    m
}

fn owned(s: &str) -> (r: String)
    ensures
        r@ == s@,
{
    let mut r = String::new();
    string_push_str(&mut r, s);
    r
}

/// Parses a token stream.
#[derive(Debug)]
pub struct Parser {
    pub tokens: Vec<LexItem>,
    pub index: usize,
}

impl Parser {
    pub fn new(tokens: Vec<LexItem>) -> (p: Parser)
        ensures
            p.tokens@ == tokens@,
            p.index == 0,
    {
        Parser { tokens, index: 0 }
    }

    pub open spec fn t(&self) -> Seq<Tok> {
        toks(self.tokens@)
    }

    /// The kind of token `i` and the text it carries.
    fn code(&self, i: usize) -> (res: (u8, Option<String>))
        requires
            i < self.tokens@.len(),
        ensures
            res.0 == tok_code(self.t()[i as int]),
            tok_text(self.t()[i as int]) == (match res.1 {
                Some(s) => Some(s@),
                None => None,
            }),
    {
        match &self.tokens[i] {
            LexItem::Identifier(s) => (0, Some(s.clone())),
            LexItem::Reference(s) => (1, Some(s.clone())),
            LexItem::String(s) => (2, Some(s.clone())),
            LexItem::Number { real_text } => (3, Some(real_text.clone())),
            LexItem::EOL => (4, None),
            LexItem::OpenBracket => (5, None),
            LexItem::CloseBracket => (6, None),
            LexItem::Colon => (7, None),
            LexItem::Comma => (8, None),
            LexItem::OpenPar => (9, None),
            LexItem::ClosePar => (10, None),
            LexItem::Plus => (11, None),
            LexItem::Minus => (12, None),
            LexItem::Mul => (13, None),
            LexItem::Div => (14, None),
        }
    }

    /// Whether token `i` is there and of kind `c` (see `tok_code`).
    fn is_code(&self, i: usize, c: u8) -> (r: bool)
        ensures
            r == (i < self.tokens@.len() && tok_code(self.t()[i as int]) == c),
    {
        if i < self.tokens.len() {
            let (k, _text) = self.code(i);
            k == c
        } else {
            false
        }
    }

    fn parse_expr(&mut self, pr: &mut ParseResult) -> (res: Option<Result<usize, String>>)
        requires
            old(pr).arena().wf(),
        ensures
            final(self).tokens@ == old(self).tokens@,
            final(pr).root == old(pr).root,
            step_opt(p_expr(old(self).t(), old(self).index as nat, old(pr).arena()), res, final(self).index, final(pr).arena()),
            res matches Some(Ok(_)) ==> old(self).index < final(self).index <= old(self).tokens@.len(),
            res matches Some(Ok(_)) ==> final(pr).arena().wf() && final(pr).arena().extends(old(pr).arena()),
            res matches Some(Ok(v)) ==> v < final(pr).expressions@.len(),
        decreases old(self).tokens@.len() - old(self).index, 4int,
    {
        let ghost a0 = pr.arena();
        let _len = self.tokens.len();
        let cur = match self.parse_term(pr) {
            Some(Ok(v)) => v,
            Some(Err(m)) => {
                return Some(Err(m));
            },
            None => {
                return None;
            },
        };
        let ghost a1 = pr.arena();
        let res = self.parse_expr_tail(pr, cur);
        proof {
            if res matches Some(Ok(_)) {
                pr.arena().lemma_extends_trans(a1, a0);
            }
        }
        res
    }

    fn parse_expr_tail(&mut self, pr: &mut ParseResult, cur: usize) -> (res: Option<Result<usize, String>>)
        requires
            old(pr).arena().wf(),
            cur < old(pr).expressions@.len(),
        ensures
            final(self).tokens@ == old(self).tokens@,
            final(pr).root == old(pr).root,
            step_opt(p_expr_tail(old(self).t(), old(self).index as nat, cur, old(pr).arena()), res, final(self).index, final(pr).arena()),
            res matches Some(Ok(_)) ==> old(self).index <= final(self).index <= old(self).tokens@.len(),
            res matches Some(Ok(_)) ==> final(pr).arena().wf() && final(pr).arena().extends(old(pr).arena()),
            res matches Some(Ok(v)) ==> v < final(pr).expressions@.len(),
        decreases old(self).tokens@.len() - old(self).index, 0int,
    {
        let ghost a0 = pr.arena();
        let _len = self.tokens.len();
        if !(self.index < self.tokens.len()) {
            return None;
        }
        let (k, _text) = self.code(self.index);
        if k == 11 || k == 12 {
            let op = if k == 11 { '+' } else { '-' };
            self.index = self.index + 1;
            let r = match self.parse_term(pr) {
            Some(Ok(v)) => v,
            Some(Err(m)) => {
                return Some(Err(m));
            },
            None => {
                return None;
            },
        };
            let ghost a1 = pr.arena();
            let n = pr.add_expr(Expr::Operator(Box::new(AstOperatorNode { operator: op, left_side: cur, right_side: r })));
            proof {
                a1.lemma_push_expr(ExprV::Operator(op, cur, r));
                pr.arena().lemma_extends_trans(a1, a0);
            }
            let res = self.parse_expr_tail(pr, n);
            proof {
                if res matches Some(Ok(_)) {
                    pr.arena().lemma_extends_trans(a1.push_expr(ExprV::Operator(op, cur, r)), a0);
                }
            }
            res
        } else {
            proof {
                a0.lemma_extends_refl();
            }
            Some(Ok(cur))
        }
    }

    fn parse_term(&mut self, pr: &mut ParseResult) -> (res: Option<Result<usize, String>>)
        requires
            old(pr).arena().wf(),
        ensures
            final(self).tokens@ == old(self).tokens@,
            final(pr).root == old(pr).root,
            step_opt(p_term(old(self).t(), old(self).index as nat, old(pr).arena()), res, final(self).index, final(pr).arena()),
            res matches Some(Ok(_)) ==> old(self).index < final(self).index <= old(self).tokens@.len(),
            res matches Some(Ok(_)) ==> final(pr).arena().wf() && final(pr).arena().extends(old(pr).arena()),
            res matches Some(Ok(v)) ==> v < final(pr).expressions@.len(),
        decreases old(self).tokens@.len() - old(self).index, 3int,
    {
        let ghost a0 = pr.arena();
        let _len = self.tokens.len();
        let cur = match self.parse_factor(pr) {
            Some(Ok(v)) => v,
            Some(Err(m)) => {
                return Some(Err(m));
            },
            None => {
                return None;
            },
        };
        let ghost a1 = pr.arena();
        let res = self.parse_term_tail(pr, cur);
        proof {
            if res matches Some(Ok(_)) {
                pr.arena().lemma_extends_trans(a1, a0);
            }
        }
        res
    }

    fn parse_term_tail(&mut self, pr: &mut ParseResult, cur: usize) -> (res: Option<Result<usize, String>>)
        requires
            old(pr).arena().wf(),
            cur < old(pr).expressions@.len(),
        ensures
            final(self).tokens@ == old(self).tokens@,
            final(pr).root == old(pr).root,
            step_opt(p_term_tail(old(self).t(), old(self).index as nat, cur, old(pr).arena()), res, final(self).index, final(pr).arena()),
            res matches Some(Ok(_)) ==> old(self).index <= final(self).index <= old(self).tokens@.len(),
            res matches Some(Ok(_)) ==> final(pr).arena().wf() && final(pr).arena().extends(old(pr).arena()),
            res matches Some(Ok(v)) ==> v < final(pr).expressions@.len(),
        decreases old(self).tokens@.len() - old(self).index, 0int,
    {
        let ghost a0 = pr.arena();
        let _len = self.tokens.len();
        if !(self.index < self.tokens.len()) {
            return None;
        }
        let (k, _text) = self.code(self.index);
        if k == 13 || k == 14 {
            let op = if k == 13 { '*' } else { '/' };
            self.index = self.index + 1;
            let r = match self.parse_factor(pr) {
            Some(Ok(v)) => v,
            Some(Err(m)) => {
                return Some(Err(m));
            },
            None => {
                return None;
            },
        };
            let ghost a1 = pr.arena();
            let n = pr.add_expr(Expr::Operator(Box::new(AstOperatorNode { operator: op, left_side: cur, right_side: r })));
            proof {
                a1.lemma_push_expr(ExprV::Operator(op, cur, r));
                pr.arena().lemma_extends_trans(a1, a0);
            }
            let res = self.parse_term_tail(pr, n);
            proof {
                if res matches Some(Ok(_)) {
                    pr.arena().lemma_extends_trans(a1.push_expr(ExprV::Operator(op, cur, r)), a0);
                }
            }
            res
        } else {
            proof {
                a0.lemma_extends_refl();
            }
            Some(Ok(cur))
        }
    }

    fn parse_factor(&mut self, pr: &mut ParseResult) -> (res: Option<Result<usize, String>>)
        requires
            old(pr).arena().wf(),
        ensures
            final(self).tokens@ == old(self).tokens@,
            final(pr).root == old(pr).root,
            step_opt(p_factor(old(self).t(), old(self).index as nat, old(pr).arena()), res, final(self).index, final(pr).arena()),
            res matches Some(Ok(_)) ==> old(self).index < final(self).index <= old(self).tokens@.len(),
            res matches Some(Ok(_)) ==> final(pr).arena().wf() && final(pr).arena().extends(old(pr).arena()),
            res matches Some(Ok(v)) ==> v < final(pr).expressions@.len(),
        decreases old(self).tokens@.len() - old(self).index, 2int,
    {
        let ghost a0 = pr.arena();
        let _len = self.tokens.len();
        let i = self.index;
        if !(i < self.tokens.len()) {
            return None;
        }
        let (k, text) = self.code(i);
        if k == 3 {
            self.index = i + 1;
            let n = pr.add_expr(Expr::Number(Box::new(AstNumberNode { text_rep: text.unwrap() })));
            proof {
                a0.lemma_push_expr(pr.expressions@[n as int]@);
            }
            Some(Ok(n))
        } else if k == 2 {
            self.index = i + 1;
            let n = pr.add_expr(Expr::String(Box::new(AstStringNode { value: text.unwrap() })));
            proof {
                a0.lemma_push_expr(pr.expressions@[n as int]@);
            }
            Some(Ok(n))
        } else if k == 0 {
            if !(i + 1 < self.tokens.len()) {
                return None;
            }
            let (k2, _t2) = self.code(i + 1);
            if k2 == 7 {
                self.parse_vpath(pr)
            } else if k2 == 9 {
                self.parse_function(pr)
            } else {
                self.index = i + 1;
                let n = pr.add_expr(Expr::Identifier(Box::new(AstIdentifierNode { value: text.unwrap() })));
                proof {
                    a0.lemma_push_expr(pr.expressions@[n as int]@);
                }
                Some(Ok(n))
            }
        } else if k == 9 {
            self.index = i + 1;
            let e = match self.parse_expr(pr) {
            Some(Ok(v)) => v,
            Some(Err(m)) => {
                return Some(Err(m));
            },
            None => {
                return None;
            },
        };
            if !self.is_code(self.index, 10) {
                return None;
            }
            self.index = self.index + 1;
            Some(Ok(e))
        } else if k == 12 {
            self.index = i + 1;
            let e = match self.parse_term(pr) {
            Some(Ok(v)) => v,
            Some(Err(m)) => {
                return Some(Err(m));
            },
            None => {
                return None;
            },
        };
            let ghost a1 = pr.arena();
            let n = pr.add_expr(Expr::UnaryOperator(Box::new(AstUnaryOperatorNode { operator: '-', expr: e })));
            proof {
                a1.lemma_push_expr(ExprV::UnaryOperator('-', e));
                pr.arena().lemma_extends_trans(a1, a0);
            }
            Some(Ok(n))
        } else {
            Some(Err(message("Found unexpected token when trying to parse factor: ", &self.tokens[i])))
        }
    }

    fn parse_vpath(&mut self, pr: &mut ParseResult) -> (res: Option<Result<usize, String>>)
        requires
            old(pr).arena().wf(),
            old(self).index + 1 < old(self).tokens@.len(),
            old(self).t()[old(self).index + 1] is Colon,
        ensures
            final(self).tokens@ == old(self).tokens@,
            final(pr).root == old(pr).root,
            step_opt(p_vpath(old(self).t(), old(self).index as nat, old(pr).arena()), res, final(self).index, final(pr).arena()),
            res matches Some(Ok(_)) ==> old(self).index < final(self).index <= old(self).tokens@.len(),
            res matches Some(Ok(_)) ==> final(pr).arena().wf() && final(pr).arena().extends(old(pr).arena()),
            res matches Some(Ok(v)) ==> v < final(pr).expressions@.len(),
    {
        let ghost a0 = pr.arena();
        let _len = self.tokens.len();
        let i = self.index;
        if !(i < self.tokens.len()) {
            return None;
        }
        let (k, source) = self.code(i);
        if k != 0 {
            return Some(Err(message("Found unexpected token when trying to parse vpath: ", &self.tokens[i])));
        }
        if self.tokens.len() - i <= 2 {
            return None;
        }
        let (k2, question) = self.code(i + 2);
        if k2 != 0 {
            return Some(Err(message("Found unexpected token when trying to parse vpath: ", &self.tokens[i + 2])));
        }
        self.index = i + 3;
        let n = pr.add_expr(Expr::VPath(Box::new(AstVPathNode {
            table: source,
            sub_table: None,
            field: question,
            sub_field: None,
        })));
        proof {
            a0.lemma_push_expr(pr.expressions@[n as int]@);
        }
        Some(Ok(n))
    }

    fn parse_function(&mut self, pr: &mut ParseResult) -> (res: Option<Result<usize, String>>)
        requires
            old(pr).arena().wf(),
            old(self).index + 1 < old(self).tokens@.len(),
            old(self).t()[old(self).index + 1] is OpenPar,
        ensures
            final(self).tokens@ == old(self).tokens@,
            final(pr).root == old(pr).root,
            step_opt(p_function(old(self).t(), old(self).index as nat, old(pr).arena()), res, final(self).index, final(pr).arena()),
            res matches Some(Ok(_)) ==> old(self).index < final(self).index <= old(self).tokens@.len(),
            res matches Some(Ok(_)) ==> final(pr).arena().wf() && final(pr).arena().extends(old(pr).arena()),
            res matches Some(Ok(v)) ==> v < final(pr).expressions@.len(),
        decreases old(self).tokens@.len() - old(self).index, 1int,
    {
        let ghost a0 = pr.arena();
        let _len = self.tokens.len();
        let i = self.index;
        if !(i < self.tokens.len()) {
            return None;
        }
        let (k, name) = self.code(i);
        if k != 0 {
            return Some(Err(message("Found unexpected token when trying to parse function: ", &self.tokens[i])));
        }
        self.index = i + 2;
        let args = match self.parse_arg_list(pr, Vec::new()) {
            Some(Ok(v)) => v,
            Some(Err(m)) => {
                return Some(Err(m));
            },
            None => {
                return None;
            },
        };
        let ghost a1 = pr.arena();
        if !self.is_code(self.index, 10) {
            return None;
        }
        self.index = self.index + 1;
        let n = pr.add_expr(Expr::Function(Box::new(AstFunctionNode { identifier: name.unwrap(), argument_list: args })));
        proof {
            a1.lemma_push_expr(pr.expressions@[n as int]@);
            pr.arena().lemma_extends_trans(a1, a0);
        }
        Some(Ok(n))
    }

    fn parse_arg_list(&mut self, pr: &mut ParseResult, args: Vec<usize>) -> (res: Option<Result<Vec<usize>, String>>)
        requires
            old(pr).arena().wf(),
            forall|j: int| 0 <= j < args@.len() ==> #[trigger] args@[j] < old(pr).expressions@.len(),
        ensures
            final(self).tokens@ == old(self).tokens@,
            final(pr).root == old(pr).root,
            steps_opt(p_arg_list(old(self).t(), old(self).index as nat, args@, old(pr).arena()), res, final(self).index, final(pr).arena()),
            res matches Some(Ok(_)) ==> old(self).index <= final(self).index <= old(self).tokens@.len(),
            res matches Some(Ok(_)) ==> final(pr).arena().wf() && final(pr).arena().extends(old(pr).arena()),
            res matches Some(Ok(v)) ==> forall|j: int| 0 <= j < v@.len() ==> #[trigger] v@[j] < final(pr).expressions@.len(),
        decreases old(self).tokens@.len() - old(self).index, 5int,
    {
        let ghost a0 = pr.arena();
        let _len = self.tokens.len();
        let i = self.index;
        if !(i < self.tokens.len()) {
            return None;
        }
        let (k, _text) = self.code(i);
        if k == 8 {
            self.index = i + 1;
            self.parse_arg_list(pr, args)
        } else if k == 10 {
            proof {
                a0.lemma_extends_refl();
            }
            Some(Ok(args))
        } else {
            let e = match self.parse_expr(pr) {
            Some(Ok(v)) => v,
            Some(Err(m)) => {
                return Some(Err(m));
            },
            None => {
                return None;
            },
        };
            let ghost a1 = pr.arena();
            let mut args = args;
            args.push(e);
            let res = self.parse_arg_list(pr, args);
            proof {
                if res matches Some(Ok(_)) {
                    pr.arena().lemma_extends_trans(a1, a0);
                }
            }
            res
        }
    }

    fn parse_field(&mut self, pr: &mut ParseResult) -> (res: Option<Result<usize, String>>)
        requires
            old(pr).arena().wf(),
            old(self).index + 1 < old(self).tokens@.len(),
            old(self).t()[old(self).index + 1] is Colon,
        ensures
            final(self).tokens@ == old(self).tokens@,
            final(pr).root == old(pr).root,
            step_opt(p_field(old(self).t(), old(self).index as nat, old(pr).arena()), res, final(self).index, final(pr).arena()),
            res matches Some(Ok(_)) ==> old(self).index < final(self).index <= old(self).tokens@.len(),
            res matches Some(Ok(_)) ==> final(pr).arena().wf() && final(pr).arena().extends(old(pr).arena()),
            res matches Some(Ok(v)) ==> v < final(pr).fields@.len(),
    {
        let ghost a0 = pr.arena();
        let _len = self.tokens.len();
        let i = self.index;
        if !(i < self.tokens.len()) {
            return None;
        }
        let (k, name) = self.code(i);
        if k != 0 {
            return Some(Err(message("Didnt find field identifier, instead got ", &self.tokens[i])));
        }
        self.index = i + 2;
        let e = match self.parse_expr(pr) {
            Some(Ok(v)) => v,
            Some(Err(m)) => {
                return Some(Err(m));
            },
            None => {
                return None;
            },
        };
        let ghost a1 = pr.arena();
        if !self.is_code(self.index, 4) {
            return None;
        }
        let n = pr.add_field(AstFieldNode { identifier: name.unwrap(), value: e });
        proof {
            a1.lemma_push_field(pr.fields@[n as int]@);
            pr.arena().lemma_extends_trans(a1, a0);
        }
        self.index = self.index + 1;
        Some(Ok(n))
    }

    fn parse_entity(&mut self, pr: &mut ParseResult) -> (res: Option<Result<usize, String>>)
        requires
            old(pr).arena().wf(),
        ensures
            final(self).tokens@ == old(self).tokens@,
            final(pr).root == old(pr).root,
            step_opt(p_entity(old(self).t(), old(self).index as nat, old(pr).arena()), res, final(self).index, final(pr).arena()),
            res matches Some(Ok(_)) ==> old(self).index < final(self).index <= old(self).tokens@.len(),
            res matches Some(Ok(_)) ==> final(pr).arena().wf() && final(pr).arena().extends(old(pr).arena()),
            res matches Some(Ok(v)) ==> v < final(pr).entities@.len(),
        decreases old(self).tokens@.len() - old(self).index, 0int,
    {
        let _len = self.tokens.len();
        let i = self.index;
        if !(i < self.tokens.len()) {
            return None;
        }
        let (k, main_type) = self.code(i);
        if k != 0 {
            let mut m = message("Trying to parse Entity, didnt find main type. Found ", &self.tokens[i]);
            string_push_str(&mut m, " instead");
            return Some(Err(m));
        }
        let mut node = AstEntityNode::new();
        node.main_type = main_type.unwrap();
        let mut j = i + 1;
        if !(j < self.tokens.len()) {
            return None;
        }
        let (k1, sub) = self.code(j);
        if k1 == 0 {
            node.sub_type = sub;
            j = j + 1;
        }
        if !(j < self.tokens.len()) {
            return None;
        }
        let (k2, id) = self.code(j);
        if k2 == 0 {
            node.identifier = id;
            j = j + 1;
        }
        if !(j < self.tokens.len()) {
            return None;
        }
        let (k3, rf) = self.code(j);
        if k3 == 1 {
            node.reference = rf;
            j = j + 1;
        }
        if !self.is_code(j, 5) {
            return None;
        }
        if !self.is_code(j + 1, 4) {
            return None;
        }
        self.index = j + 2;
        self.parse_entity_body(pr, node)
    }

    fn parse_entity_body(&mut self, pr: &mut ParseResult, node: AstEntityNode) -> (res: Option<Result<usize, String>>)
        requires
            old(pr).arena().wf(),
            forall|j: int| 0 <= j < node.fields@.len() ==> #[trigger] node.fields@[j] < old(pr).fields@.len(),
            forall|j: int| 0 <= j < node.children@.len() ==> #[trigger] node.children@[j] < old(pr).entities@.len(),
        ensures
            final(self).tokens@ == old(self).tokens@,
            final(pr).root == old(pr).root,
            step_opt(p_entity_body(old(self).t(), old(self).index as nat, node@, old(pr).arena()), res, final(self).index, final(pr).arena()),
            res matches Some(Ok(_)) ==> old(self).index < final(self).index <= old(self).tokens@.len(),
            res matches Some(Ok(_)) ==> final(pr).arena().wf() && final(pr).arena().extends(old(pr).arena()),
            res matches Some(Ok(v)) ==> v < final(pr).entities@.len(),
        decreases old(self).tokens@.len() - old(self).index, 1int,
    {
        let ghost a0 = pr.arena();
        let _len = self.tokens.len();
        let j = self.index;
        if !(j < self.tokens.len()) {
            return None;
        }
        let (k, _text) = self.code(j);
        if k == 6 {
            if !self.is_code(j + 1, 4) {
                return None;
            }
            self.index = j + 2;
            let ghost nv = node@;
            let n = pr.add_entity(node);
            proof {
                a0.lemma_push_entity(nv);
            }
            Some(Ok(n))
        } else if k == 4 {
            self.index = j + 1;
            self.parse_entity_body(pr, node)
        } else {
            if !(j + 1 < self.tokens.len()) {
                return None;
            }
            let (k1, _t1) = self.code(j + 1);
            if k == 0 && k1 == 7 {
                let f = match self.parse_field(pr) {
            Some(Ok(v)) => v,
            Some(Err(m)) => {
                return Some(Err(m));
            },
            None => {
                return None;
            },
        };
                let ghost a1 = pr.arena();
                let mut node = node;
                node.fields.push(f);
                let res = self.parse_entity_body(pr, node);
                proof {
                    if res matches Some(Ok(_)) {
                        pr.arena().lemma_extends_trans(a1, a0);
                    }
                }
                res
            } else if k == 0 {
                let e = match self.parse_entity(pr) {
            Some(Ok(v)) => v,
            Some(Err(m)) => {
                return Some(Err(m));
            },
            None => {
                return None;
            },
        };
                let ghost a1 = pr.arena();
                let mut node = node;
                node.children.push(e);
                let res = self.parse_entity_body(pr, node);
                proof {
                    if res matches Some(Ok(_)) {
                        pr.arena().lemma_extends_trans(a1, a0);
                    }
                }
                res
            } else {
                Some(Err(owned("Trying to parse entity body, and not field or entity found")))
            }
        }
    }

    fn parse_top(&mut self, pr: &mut ParseResult, roots: Vec<usize>) -> (res: Option<Result<Vec<usize>, String>>)
        requires
            old(pr).arena().wf(),
            forall|j: int| 0 <= j < roots@.len() ==> #[trigger] roots@[j] < old(pr).entities@.len(),
        ensures
            final(self).tokens@ == old(self).tokens@,
            final(pr).root == old(pr).root,
            steps_opt(p_top(old(self).t(), old(self).index as nat, roots@, old(pr).arena()), res, final(self).index, final(pr).arena()),
            res matches Some(Ok(_)) ==> final(pr).arena().wf(),
            res matches Some(Ok(v)) ==> forall|j: int| 0 <= j < v@.len() ==> #[trigger] v@[j] < final(pr).entities@.len(),
        decreases old(self).tokens@.len() - old(self).index,
    {
        let i = self.index;
        if i >= self.tokens.len() {
            return Some(Ok(roots));
        }
        if !(i < self.tokens.len()) {
            return None;
        }
        let (k, _text) = self.code(i);
        if k == 4 {
            self.index = i + 1;
            self.parse_top(pr, roots)
        } else if k == 0 {
            let e = match self.parse_entity(pr) {
            Some(Ok(v)) => v,
            Some(Err(m)) => {
                return Some(Err(m));
            },
            None => {
                return None;
            },
        };
            let mut roots = roots;
            roots.push(e);
            self.parse_top(pr, roots)
        } else {
            Some(Err(message("Error when parsing top level, found ", &self.tokens[i])))
        }
    }

    /// Parses the tokens from the current one on into a syntax tree.
    pub fn parse(&mut self) -> (res: Result<ParseResult, String>)
        requires
            !(p_top(old(self).t(), old(self).index as nat, Seq::empty(), empty_arena()) is Panic),
        ensures
            match p_top(old(self).t(), old(self).index as nat, Seq::empty(), empty_arena()) {
                PStep::Done(roots, _, a) => res matches Ok(pr) && pr.root.children@ == roots
                    && pr.arena() == a && pr.wf() && pr.sound(),
                PStep::Fail(m) => res matches Err(e) && e@ == m,
                PStep::Panic => false,
            },
    {
        match self.try_parse() {
            Some(r) => r,
            None => Err(String::new()),
        }
    }

    /// `parse` on the token streams on which it runs through; `None` on those
    /// where it would read past the last token.
    pub fn try_parse(&mut self) -> (res: Option<Result<ParseResult, String>>)
        ensures
            match p_top(old(self).t(), old(self).index as nat, Seq::empty(), empty_arena()) {
                PStep::Done(roots, _, a) => res matches Some(Ok(pr)) && pr.root.children@ == roots
                    && pr.arena() == a && pr.wf() && pr.sound(),
                PStep::Fail(m) => res matches Some(Err(e)) && e@ == m,
                PStep::Panic => res is None,
            },
    {
        let mut pr = ParseResult {
            root: AstRootNode { children: Vec::new() },
            entities: Vec::new(),
            fields: Vec::new(),
            expressions: Vec::new(),
        };
        proof {
            assert(pr.arena().entities =~= Seq::<EntityV>::empty());
            assert(pr.arena().fields =~= Seq::<FieldV>::empty());
            assert(pr.arena().exprs =~= Seq::<ExprV>::empty());
        }
        let roots = match self.parse_top(&mut pr, Vec::new()) {
            Some(Ok(v)) => v,
            Some(Err(m)) => {
                return Some(Err(m));
            },
            None => {
                return None;
            },
        };
        pr.root = AstRootNode { children: roots };
        proof {
            pr.arena().lemma_wf_sound();
        }
        Some(Ok(pr))
    }
}

} // verus!
