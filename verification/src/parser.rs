//! The parser: single-pass, index-based recursive descent over the
//! token sequence, with precedence encoded by call nesting and
//! per-declaration recovery that skips to the next statement boundary
//! so one call can report many syntax errors. Its behaviour is defined
//! by the `spec_*` functions here, and `parse` is proved to produce
//! exactly that.

use vstd::prelude::*;

use crate::error::Error;
use crate::error::ErrorMsgView;
use crate::error::ErrorState;
use crate::error::ErrorStateView;
use crate::error::ErrorView;
use crate::expr::BinOp;
use crate::expr::Decl;
use crate::expr::DeclView;
use crate::expr::Expr;
use crate::expr::ExprData;
use crate::expr::ExprDataView;
use crate::expr::ExprView;
use crate::expr::Program;
use crate::expr::Stmt;
use crate::expr::StmtView;
use crate::expr::UnaryOp;
use crate::exec::program_view;
use crate::token::token_data_eq;
use crate::token::tokens_wf;
use crate::scanner::tokens_view;
use crate::token::Token;
use crate::token::TokenData;
use crate::token::TokenDataView;
use crate::token::TokenView;

verus! {

/// How many tokens lie at or after an index: the measure every
/// parsing rule descends on.
pub open spec fn remaining(toks: Seq<TokenView>, i: int) -> nat {
    if i <= toks.len() {
        (toks.len() - i) as nat
    } else {
        0
    }
}

/// A parse diagnostic at a line.
pub open spec fn parse_err(msg: Seq<char>, line: u32) -> ErrorView {
    ErrorView { err: ErrorMsgView::Parse(msg), line }
}

/// The diagnostic text when a particular token had to stand somewhere.
pub open spec fn msg_expected(what: Seq<char>) -> Seq<char> {
    "expected "@ + what
}

/// What one parsing rule yields: its result or the diagnostic it
/// stopped on, and the index the cursor stands at afterwards.
pub struct PRes<T> {
    pub result: Result<T, ErrorView>,
    pub next: int,
}

/// The token at an index, the end of input standing in for anything
/// outside the sequence.
pub open spec fn peek_data(toks: Seq<TokenView>, i: int) -> TokenDataView {
    if 0 <= i < toks.len() {
        toks[i].data
    } else {
        TokenDataView::Eof
    }
}

/// The line of the token at an index.
pub open spec fn peek_line(toks: Seq<TokenView>, i: int) -> u32 {
    if 0 <= i < toks.len() {
        toks[i].line
    } else {
        0
    }
}

/// The cursor after a rule that began at `i` reported `next`: always
/// strictly forward and never outside the sequence. The parsing rules
/// only ever move the cursor that way, so this is the identity on every
/// value they produce; it keeps the definitions below visibly
/// well-founded.
pub open spec fn adv(toks: Seq<TokenView>, i: int, next: int) -> int {
    if i < next <= toks.len() {
        next
    } else if i + 1 <= toks.len() {
        i + 1
    } else {
        toks.len() as int
    }
}

/// Parsing a primary expression at `i`: an identifier, string, number,
/// `true`, `false` or `nil` literal, or a parenthesized expression,
/// whose closing parenthesis must follow; anything else is a
/// diagnostic naming what stood there.
pub open spec fn spec_primary(toks: Seq<TokenView>, i: int) -> PRes<ExprView>
    decreases remaining(toks, i), 0int,
{
    let line = peek_line(toks, i);
    match peek_data(toks, i) {
        TokenDataView::Identifier(s) => PRes {
            result: Ok(ExprView { data: ExprDataView::Identifier(s), line }),
            next: i + 1,
        },
        TokenDataView::StringToken(s) => PRes {
            result: Ok(ExprView { data: ExprDataView::StringLiteral(s), line }),
            next: i + 1,
        },
        TokenDataView::Number(n) => PRes {
            result: Ok(ExprView { data: ExprDataView::NumberLiteral(n), line }),
            next: i + 1,
        },
        TokenDataView::True => PRes {
            result: Ok(ExprView { data: ExprDataView::True, line }),
            next: i + 1,
        },
        TokenDataView::False => PRes {
            result: Ok(ExprView { data: ExprDataView::False, line }),
            next: i + 1,
        },
        TokenDataView::Nil => PRes {
            result: Ok(ExprView { data: ExprDataView::Nil, line }),
            next: i + 1,
        },
        TokenDataView::LeftParen => {
            let inner = spec_equality(toks, i + 1);
            match inner.result {
                Err(e) => PRes { result: Err(e), next: inner.next },
                Ok(expr) => {
                    let j = adv(toks, i, inner.next);
                    if peek_data(toks, j) == TokenDataView::RightParen {
                        PRes { result: Ok(expr), next: j + 1 }
                    } else {
                        PRes {
                            result: Err(parse_err(msg_expected("closing parens"@), peek_line(toks, j))),
                            next: j,
                        }
                    }
                },
            }
        },
        TokenDataView::Eof => PRes {
            result: Err(parse_err("unexpected end of file"@, line)),
            next: i,
        },
        _ => PRes { result: Err(parse_err("unexpected token"@, line)), next: i },
    }
}

/// Parsing a unary expression: `-` and `!` apply right-recursively to
/// another unary expression; anything else is a primary expression.
/// A unary node carries its operator token's line.
pub open spec fn spec_unary(toks: Seq<TokenView>, i: int) -> PRes<ExprView>
    decreases remaining(toks, i), 1int,
{
    let line = peek_line(toks, i);
    match peek_data(toks, i) {
        TokenDataView::Minus => {
            let inner = spec_unary(toks, i + 1);
            match inner.result {
                Err(e) => PRes { result: Err(e), next: inner.next },
                Ok(e) => PRes {
                    result: Ok(
                        ExprView {
                            data: ExprDataView::Unary(UnaryOp::Negative, Box::new(e)),
                            line,
                        },
                    ),
                    next: inner.next,
                },
            }
        },
        TokenDataView::Bang => {
            let inner = spec_unary(toks, i + 1);
            match inner.result {
                Err(e) => PRes { result: Err(e), next: inner.next },
                Ok(e) => PRes {
                    result: Ok(
                        ExprView { data: ExprDataView::Unary(UnaryOp::Inverse, Box::new(e)), line },
                    ),
                    next: inner.next,
                },
            }
        },
        _ => spec_primary(toks, i),
    }
}

/// The binary node for an operator and its two parsed operands; it
/// carries its left operand's line, the line of its leftmost token.
pub open spec fn binary_view(op: BinOp, l: ExprView, r: ExprView) -> ExprView {
    ExprView { data: ExprDataView::Binary(op, Box::new(l), Box::new(r)), line: l.line }
}

/// The factor operator a token stands for, if any.
pub open spec fn factor_op(t: TokenDataView) -> Option<BinOp> {
    match t {
        TokenDataView::Slash => Some(BinOp::Div),
        TokenDataView::Star => Some(BinOp::Mult),
        _ => None,
    }
}

/// The term operator a token stands for, if any.
pub open spec fn term_op(t: TokenDataView) -> Option<BinOp> {
    match t {
        TokenDataView::Plus => Some(BinOp::Add),
        TokenDataView::Minus => Some(BinOp::Sub),
        _ => None,
    }
}

/// The comparison operator a token stands for, if any.
pub open spec fn comparison_op(t: TokenDataView) -> Option<BinOp> {
    match t {
        TokenDataView::Greater => Some(BinOp::Gt),
        TokenDataView::GreaterEqual => Some(BinOp::GtEq),
        TokenDataView::Less => Some(BinOp::Lt),
        TokenDataView::LessEqual => Some(BinOp::LtEq),
        _ => None,
    }
}

/// The equality operator a token stands for, if any.
pub open spec fn equality_op(t: TokenDataView) -> Option<BinOp> {
    match t {
        TokenDataView::BangEqual => Some(BinOp::Neq),
        TokenDataView::EqualEqual => Some(BinOp::Eq),
        _ => None,
    }
}

/// Folding further `/` and `*` operands onto an accumulated left
/// operand: each iteration re-binds the accumulated expression as the
/// new left side, which makes the level left-associative.
pub open spec fn spec_factor_rest(toks: Seq<TokenView>, left: ExprView, i: int) -> PRes<ExprView>
    decreases remaining(toks, i), 2int,
{
    match factor_op(peek_data(toks, i)) {
        Some(op) => {
            let right = spec_unary(toks, i + 1);
            match right.result {
                Err(e) => PRes { result: Err(e), next: right.next },
                Ok(r) => spec_factor_rest(toks, binary_view(op, left, r), adv(toks, i, right.next)),
            }
        },
        None => PRes { result: Ok(left), next: i },
    }
}

/// Parsing a factor: a unary expression, then any number of `/` or `*`
/// operands, folded left-associatively.
pub open spec fn spec_factor(toks: Seq<TokenView>, i: int) -> PRes<ExprView>
    decreases remaining(toks, i), 3int,
{
    let first = spec_unary(toks, i);
    match first.result {
        Err(e) => PRes { result: Err(e), next: first.next },
        Ok(l) => spec_factor_rest(toks, l, adv(toks, i, first.next)),
    }
}

/// Folding further `+` and `-` operands onto an accumulated left
/// operand, left-associatively.
pub open spec fn spec_term_rest(toks: Seq<TokenView>, left: ExprView, i: int) -> PRes<ExprView>
    decreases remaining(toks, i), 4int,
{
    match term_op(peek_data(toks, i)) {
        Some(op) => {
            let right = spec_factor(toks, i + 1);
            match right.result {
                Err(e) => PRes { result: Err(e), next: right.next },
                Ok(r) => spec_term_rest(toks, binary_view(op, left, r), adv(toks, i, right.next)),
            }
        },
        None => PRes { result: Ok(left), next: i },
    }
}

/// Parsing a term: a factor, then any number of `+` or `-` operands,
/// folded left-associatively.
pub open spec fn spec_term(toks: Seq<TokenView>, i: int) -> PRes<ExprView>
    decreases remaining(toks, i), 5int,
{
    let first = spec_factor(toks, i);
    match first.result {
        Err(e) => PRes { result: Err(e), next: first.next },
        Ok(l) => spec_term_rest(toks, l, adv(toks, i, first.next)),
    }
}

/// Folding further ordering operands onto an accumulated left operand,
/// left-associatively.
pub open spec fn spec_comparison_rest(toks: Seq<TokenView>, left: ExprView, i: int) -> PRes<
    ExprView,
>
    decreases remaining(toks, i), 6int,
{
    match comparison_op(peek_data(toks, i)) {
        Some(op) => {
            let right = spec_term(toks, i + 1);
            match right.result {
                Err(e) => PRes { result: Err(e), next: right.next },
                Ok(r) => spec_comparison_rest(
                    toks,
                    binary_view(op, left, r),
                    adv(toks, i, right.next),
                ),
            }
        },
        None => PRes { result: Ok(left), next: i },
    }
}

/// Parsing a comparison: a term, then any number of `>` `>=` `<` `<=`
/// operands, folded left-associatively.
pub open spec fn spec_comparison(toks: Seq<TokenView>, i: int) -> PRes<ExprView>
    decreases remaining(toks, i), 7int,
{
    let first = spec_term(toks, i);
    match first.result {
        Err(e) => PRes { result: Err(e), next: first.next },
        Ok(l) => spec_comparison_rest(toks, l, adv(toks, i, first.next)),
    }
}

/// Folding further `!=` and `==` operands onto an accumulated left
/// operand, left-associatively.
pub open spec fn spec_equality_rest(toks: Seq<TokenView>, left: ExprView, i: int) -> PRes<ExprView>
    decreases remaining(toks, i), 8int,
{
    match equality_op(peek_data(toks, i)) {
        Some(op) => {
            let right = spec_comparison(toks, i + 1);
            match right.result {
                Err(e) => PRes { result: Err(e), next: right.next },
                Ok(r) => spec_equality_rest(
                    toks,
                    binary_view(op, left, r),
                    adv(toks, i, right.next),
                ),
            }
        },
        None => PRes { result: Ok(left), next: i },
    }
}

/// Parsing an equality: a comparison, then any number of `!=` or `==`
/// operands, folded left-associatively. This is the whole expression
/// grammar's entry: precedence is encoded by the call nesting below it.
pub open spec fn spec_equality(toks: Seq<TokenView>, i: int) -> PRes<ExprView>
    decreases remaining(toks, i), 9int,
{
    let first = spec_comparison(toks, i);
    match first.result {
        Err(e) => PRes { result: Err(e), next: first.next },
        Ok(l) => spec_equality_rest(toks, l, adv(toks, i, first.next)),
    }
}

/// Parsing a statement: `print` followed by an expression, or a bare
/// expression; either ends at a semicolon.
pub open spec fn spec_statement(toks: Seq<TokenView>, i: int) -> PRes<StmtView>
    decreases remaining(toks, i), 10int,
{
    if peek_data(toks, i) == TokenDataView::Print {
        let inner = spec_equality(toks, i + 1);
        match inner.result {
            Err(e) => PRes { result: Err(e), next: inner.next },
            Ok(e) => {
                let j = adv(toks, i, inner.next);
                if peek_data(toks, j) == TokenDataView::Semicolon {
                    PRes { result: Ok(StmtView::Print(e)), next: j + 1 }
                } else {
                    PRes {
                        result: Err(parse_err(msg_expected("semicolon"@), peek_line(toks, j))),
                        next: j,
                    }
                }
            },
        }
    } else {
        let inner = spec_equality(toks, i);
        match inner.result {
            Err(e) => PRes { result: Err(e), next: inner.next },
            Ok(e) => {
                let j = adv(toks, i, inner.next);
                if peek_data(toks, j) == TokenDataView::Semicolon {
                    PRes { result: Ok(StmtView::Expr(e)), next: j + 1 }
                } else {
                    PRes {
                        result: Err(parse_err(msg_expected("semicolon"@), peek_line(toks, j))),
                        next: j,
                    }
                }
            },
        }
    }
}

/// Parsing the name position of a variable declaration: only an
/// identifier may stand there — variable names are not expressions, so
/// this rule exists apart from the primary rule.
pub open spec fn spec_identifier(toks: Seq<TokenView>, i: int) -> PRes<ExprView> {
    let line = peek_line(toks, i);
    match peek_data(toks, i) {
        TokenDataView::Identifier(s) => PRes {
            result: Ok(ExprView { data: ExprDataView::Identifier(s), line }),
            next: i + 1,
        },
        _ => PRes { result: Err(parse_err(msg_expected("identifier"@), line)), next: i },
    }
}

/// Parsing a declaration: `var IDENTIFIER = expression ;`, or a
/// statement.
pub open spec fn spec_declaration(toks: Seq<TokenView>, i: int) -> PRes<DeclView>
    decreases remaining(toks, i), 11int,
{
    if peek_data(toks, i) == TokenDataView::Var {
        let id = spec_identifier(toks, i + 1);
        match id.result {
            Err(e) => PRes { result: Err(e), next: id.next },
            Ok(name) => {
                let j = adv(toks, i, id.next);
                if peek_data(toks, j) == TokenDataView::Equal {
                    let init = spec_equality(toks, j + 1);
                    match init.result {
                        Err(e) => PRes { result: Err(e), next: init.next },
                        Ok(e) => {
                            let k = adv(toks, j, init.next);
                            if peek_data(toks, k) == TokenDataView::Semicolon {
                                PRes { result: Ok(DeclView::VarDecl(name, e)), next: k + 1 }
                            } else {
                                PRes {
                                    result: Err(
                                        parse_err(msg_expected("semicolon"@), peek_line(toks, k)),
                                    ),
                                    next: k,
                                }
                            }
                        },
                    }
                } else {
                    PRes {
                        result: Err(parse_err(msg_expected("equals sign"@), peek_line(toks, j))),
                        next: j,
                    }
                }
            },
        }
    } else {
        let s = spec_statement(toks, i);
        match s.result {
            Err(e) => PRes { result: Err(e), next: s.next },
            Ok(stmt) => PRes { result: Ok(DeclView::Stmt(stmt)), next: s.next },
        }
    }
}

/// Where recovery from a failed declaration resumes: tokens are
/// discarded up to a semicolon, which is consumed, or the end of input,
/// which is not.
pub open spec fn spec_sync(toks: Seq<TokenView>, i: int) -> int
    decreases remaining(toks, i),
{
    if !(0 <= i < toks.len()) {
        i
    } else if toks[i].data == TokenDataView::Semicolon {
        i + 1
    } else if toks[i].data == TokenDataView::Eof {
        i
    } else {
        spec_sync(toks, i + 1)
    }
}

/// What parsing a whole token sequence produces: the declarations and
/// the diagnostics, in source order.
pub struct ParseOut {
    pub decls: Seq<DeclView>,
    pub errors: Seq<ErrorView>,
}

/// Parsing declarations from `i` until the cursor stands at the final
/// `Eof`: a failed declaration is recorded and recovery skips to the
/// next statement boundary, so one pass reports every independent
/// syntax error.
pub open spec fn spec_parse_loop(toks: Seq<TokenView>, i: int) -> ParseOut
    decreases remaining(toks, i), 12int,
{
    if i >= toks.len() - 1 {
        ParseOut { decls: seq![], errors: seq![] }
    } else {
        let d = spec_declaration(toks, i);
        match d.result {
            Ok(decl) => {
                let rest = spec_parse_loop(toks, adv(toks, i, d.next));
                ParseOut { decls: seq![decl] + rest.decls, errors: rest.errors }
            },
            Err(e) => {
                let j = adv(toks, i, spec_sync(toks, if d.next >= i {
                    d.next
                } else {
                    i
                }));
                let rest = spec_parse_loop(toks, j);
                ParseOut { decls: rest.decls, errors: seq![e] + rest.errors }
            },
        }
    }
}

/// Parsing a whole token sequence, from its start.
pub open spec fn spec_parse(toks: Seq<TokenView>) -> ParseOut {
    spec_parse_loop(toks, 0)
}


/// Bounds of the primary rule: the cursor never moves backwards or past
/// the final `Eof`, and success always consumes at least one token.
proof fn lemma_primary_bounds(toks: Seq<TokenView>, i: int)
    requires
        tokens_wf(toks),
        0 <= i < toks.len(),
    ensures
        ({
            let p = spec_primary(toks, i);
            &&& i <= p.next < toks.len()
            &&& (p.result is Ok ==> p.next > i)
        }),
    decreases remaining(toks, i), 0int,
{
    let p = spec_primary(toks, i);
    match peek_data(toks, i) {
        TokenDataView::LeftParen => {
            assert(toks[i].data != TokenDataView::Eof);
            assert(i < toks.len() - 1);
            lemma_equality_bounds(toks, i + 1);
            let inner = spec_equality(toks, i + 1);
            if inner.result is Ok {
                let j = adv(toks, i, inner.next);
                assert(j == inner.next);
                if peek_data(toks, j) == TokenDataView::RightParen {
                    assert(toks[j].data != TokenDataView::Eof);
                    assert(j < toks.len() - 1);
                }
            }
        },
        _ => {
            if peek_data(toks, i) != TokenDataView::Eof {
                assert(toks[i].data != TokenDataView::Eof);
                assert(i < toks.len() - 1);
            }
        },
    }
}

/// Bounds of the unary rule.
proof fn lemma_unary_bounds(toks: Seq<TokenView>, i: int)
    requires
        tokens_wf(toks),
        0 <= i < toks.len(),
    ensures
        ({
            let p = spec_unary(toks, i);
            &&& i <= p.next < toks.len()
            &&& (p.result is Ok ==> p.next > i)
        }),
    decreases remaining(toks, i), 1int,
{
    match peek_data(toks, i) {
        TokenDataView::Minus | TokenDataView::Bang => {
            assert(toks[i].data != TokenDataView::Eof);
            assert(i < toks.len() - 1);
            lemma_unary_bounds(toks, i + 1);
        },
        _ => {
            lemma_primary_bounds(toks, i);
        },
    }
}

/// Bounds of the factor-continuation rule.
proof fn lemma_factor_rest_bounds(toks: Seq<TokenView>, left: ExprView, i: int)
    requires
        tokens_wf(toks),
        0 <= i < toks.len(),
    ensures
        ({
            let p = spec_factor_rest(toks, left, i);
            i <= p.next < toks.len()
        }),
    decreases remaining(toks, i), 2int,
{
    match factor_op(peek_data(toks, i)) {
        Some(op) => {
            assert(toks[i].data != TokenDataView::Eof);
            assert(i < toks.len() - 1);
            lemma_unary_bounds(toks, i + 1);
            let right = spec_unary(toks, i + 1);
            if right.result is Ok {
                lemma_factor_rest_bounds(
                    toks,
                    binary_view(op, left, right.result->Ok_0),
                    adv(toks, i, right.next),
                );
            }
        },
        None => {},
    }
}

/// Bounds of the factor rule.
proof fn lemma_factor_bounds(toks: Seq<TokenView>, i: int)
    requires
        tokens_wf(toks),
        0 <= i < toks.len(),
    ensures
        ({
            let p = spec_factor(toks, i);
            &&& i <= p.next < toks.len()
            &&& (p.result is Ok ==> p.next > i)
        }),
    decreases remaining(toks, i), 3int,
{
    lemma_unary_bounds(toks, i);
    let first = spec_unary(toks, i);
    if first.result is Ok {
        lemma_factor_rest_bounds(toks, first.result->Ok_0, adv(toks, i, first.next));
    }
}

/// Bounds of the term-continuation rule.
proof fn lemma_term_rest_bounds(toks: Seq<TokenView>, left: ExprView, i: int)
    requires
        tokens_wf(toks),
        0 <= i < toks.len(),
    ensures
        ({
            let p = spec_term_rest(toks, left, i);
            i <= p.next < toks.len()
        }),
    decreases remaining(toks, i), 4int,
{
    match term_op(peek_data(toks, i)) {
        Some(op) => {
            assert(toks[i].data != TokenDataView::Eof);
            assert(i < toks.len() - 1);
            lemma_factor_bounds(toks, i + 1);
            let right = spec_factor(toks, i + 1);
            if right.result is Ok {
                lemma_term_rest_bounds(
                    toks,
                    binary_view(op, left, right.result->Ok_0),
                    adv(toks, i, right.next),
                );
            }
        },
        None => {},
    }
}

/// Bounds of the term rule.
proof fn lemma_term_bounds(toks: Seq<TokenView>, i: int)
    requires
        tokens_wf(toks),
        0 <= i < toks.len(),
    ensures
        ({
            let p = spec_term(toks, i);
            &&& i <= p.next < toks.len()
            &&& (p.result is Ok ==> p.next > i)
        }),
    decreases remaining(toks, i), 5int,
{
    lemma_factor_bounds(toks, i);
    let first = spec_factor(toks, i);
    if first.result is Ok {
        lemma_term_rest_bounds(toks, first.result->Ok_0, adv(toks, i, first.next));
    }
}

/// Bounds of the comparison-continuation rule.
proof fn lemma_comparison_rest_bounds(toks: Seq<TokenView>, left: ExprView, i: int)
    requires
        tokens_wf(toks),
        0 <= i < toks.len(),
    ensures
        ({
            let p = spec_comparison_rest(toks, left, i);
            i <= p.next < toks.len()
        }),
    decreases remaining(toks, i), 6int,
{
    match comparison_op(peek_data(toks, i)) {
        Some(op) => {
            assert(toks[i].data != TokenDataView::Eof);
            assert(i < toks.len() - 1);
            lemma_term_bounds(toks, i + 1);
            let right = spec_term(toks, i + 1);
            if right.result is Ok {
                lemma_comparison_rest_bounds(
                    toks,
                    binary_view(op, left, right.result->Ok_0),
                    adv(toks, i, right.next),
                );
            }
        },
        None => {},
    }
}

/// Bounds of the comparison rule.
proof fn lemma_comparison_bounds(toks: Seq<TokenView>, i: int)
    requires
        tokens_wf(toks),
        0 <= i < toks.len(),
    ensures
        ({
            let p = spec_comparison(toks, i);
            &&& i <= p.next < toks.len()
            &&& (p.result is Ok ==> p.next > i)
        }),
    decreases remaining(toks, i), 7int,
{
    lemma_term_bounds(toks, i);
    let first = spec_term(toks, i);
    if first.result is Ok {
        lemma_comparison_rest_bounds(toks, first.result->Ok_0, adv(toks, i, first.next));
    }
}

/// Bounds of the equality-continuation rule.
proof fn lemma_equality_rest_bounds(toks: Seq<TokenView>, left: ExprView, i: int)
    requires
        tokens_wf(toks),
        0 <= i < toks.len(),
    ensures
        ({
            let p = spec_equality_rest(toks, left, i);
            i <= p.next < toks.len()
        }),
    decreases remaining(toks, i), 8int,
{
    match equality_op(peek_data(toks, i)) {
        Some(op) => {
            assert(toks[i].data != TokenDataView::Eof);
            assert(i < toks.len() - 1);
            lemma_comparison_bounds(toks, i + 1);
            let right = spec_comparison(toks, i + 1);
            if right.result is Ok {
                lemma_equality_rest_bounds(
                    toks,
                    binary_view(op, left, right.result->Ok_0),
                    adv(toks, i, right.next),
                );
            }
        },
        None => {},
    }
}

/// Bounds of the equality rule, the expression grammar's entry.
proof fn lemma_equality_bounds(toks: Seq<TokenView>, i: int)
    requires
        tokens_wf(toks),
        0 <= i < toks.len(),
    ensures
        ({
            let p = spec_equality(toks, i);
            &&& i <= p.next < toks.len()
            &&& (p.result is Ok ==> p.next > i)
        }),
    decreases remaining(toks, i), 9int,
{
    lemma_comparison_bounds(toks, i);
    let first = spec_comparison(toks, i);
    if first.result is Ok {
        lemma_equality_rest_bounds(toks, first.result->Ok_0, adv(toks, i, first.next));
    }
}

/// Bounds of the statement rule.
proof fn lemma_statement_bounds(toks: Seq<TokenView>, i: int)
    requires
        tokens_wf(toks),
        0 <= i < toks.len(),
    ensures
        ({
            let p = spec_statement(toks, i);
            &&& i <= p.next < toks.len()
            &&& (p.result is Ok ==> p.next > i)
        }),
    decreases remaining(toks, i), 10int,
{
    if peek_data(toks, i) == TokenDataView::Print {
        assert(toks[i].data != TokenDataView::Eof);
        assert(i < toks.len() - 1);
        lemma_equality_bounds(toks, i + 1);
        let inner = spec_equality(toks, i + 1);
        if inner.result is Ok {
            let j = adv(toks, i, inner.next);
            if peek_data(toks, j) == TokenDataView::Semicolon {
                assert(toks[j].data != TokenDataView::Eof);
                assert(j < toks.len() - 1);
            }
        }
    } else {
        lemma_equality_bounds(toks, i);
        let inner = spec_equality(toks, i);
        if inner.result is Ok {
            let j = adv(toks, i, inner.next);
            if peek_data(toks, j) == TokenDataView::Semicolon {
                assert(toks[j].data != TokenDataView::Eof);
                assert(j < toks.len() - 1);
            }
        }
    }
}

/// Bounds of the declaration rule.
proof fn lemma_declaration_bounds(toks: Seq<TokenView>, i: int)
    requires
        tokens_wf(toks),
        0 <= i < toks.len(),
    ensures
        ({
            let p = spec_declaration(toks, i);
            &&& i <= p.next < toks.len()
            &&& (p.result is Ok ==> p.next > i)
        }),
    decreases remaining(toks, i), 11int,
{
    if peek_data(toks, i) == TokenDataView::Var {
        assert(toks[i].data != TokenDataView::Eof);
        assert(i < toks.len() - 1);
        let id = spec_identifier(toks, i + 1);
        if id.result is Ok {
            assert(toks[i + 1].data != TokenDataView::Eof);
            assert(i + 1 < toks.len() - 1);
            let j = adv(toks, i, id.next);
            if peek_data(toks, j) == TokenDataView::Equal {
                assert(toks[j].data != TokenDataView::Eof);
                assert(j < toks.len() - 1);
                lemma_equality_bounds(toks, j + 1);
                let init = spec_equality(toks, j + 1);
                if init.result is Ok {
                    let k = adv(toks, j, init.next);
                    if peek_data(toks, k) == TokenDataView::Semicolon {
                        assert(toks[k].data != TokenDataView::Eof);
                        assert(k < toks.len() - 1);
                    }
                }
            }
        }
    } else {
        lemma_statement_bounds(toks, i);
    }
}

/// Bounds of recovery: it never moves backwards or past the final
/// `Eof`.
proof fn lemma_sync_bounds(toks: Seq<TokenView>, i: int)
    requires
        tokens_wf(toks),
        0 <= i < toks.len(),
    ensures
        i <= spec_sync(toks, i) < toks.len(),
    decreases remaining(toks, i),
{
    if toks[i].data == TokenDataView::Semicolon {
        assert(toks[i].data != TokenDataView::Eof);
        assert(i < toks.len() - 1);
    } else if toks[i].data == TokenDataView::Eof {
    } else {
        assert(i < toks.len() - 1);
        lemma_sync_bounds(toks, i + 1);
    }
}


/// The parser state: the tokens, consumed by index, and the cursor,
/// which only ever moves forward.
struct Parser {
    tokens: Vec<Token>,
    idx: usize,
}

impl Parser {
    /// The model of the parser's tokens.
    spec fn toks(&self) -> Seq<TokenView> {
        tokens_view(self.tokens@)
    }

    /// The parser's invariant: a well-formed token sequence, the cursor
    /// inside it.
    spec fn wf(&self) -> bool {
        &&& tokens_wf(self.toks())
        &&& self.idx < self.tokens@.len()
    }

    fn new(tokens: Vec<Token>) -> (r: Self)
        ensures
            r.tokens@ == tokens@,
            r.idx == 0,
    {
        Self { tokens, idx: 0 }
    }

    /// Whether the cursor stands at the final `Eof`.
    fn is_at_end(&self) -> (r: bool)
        requires
            self.tokens@.len() >= 1,
        ensures
            r == (self.idx as int >= self.toks().len() - 1),
    {
        self.idx >= self.tokens.len() - 1
    }

    /// Moves the cursor one token forward.
    fn next(&mut self)
        requires
            old(self).idx + 1 < old(self).tokens@.len(),
        ensures
            final(self).tokens@ == old(self).tokens@,
            final(self).idx == old(self).idx + 1,
    {
        let n = self.tokens.len();
        self.idx = self.idx + 1;
    }

    /// The token at the cursor.
    fn peek(&self) -> (r: &Token)
        requires
            self.idx < self.tokens@.len(),
        ensures
            r@ == self.toks()[self.idx as int],
            r@.data == peek_data(self.toks(), self.idx as int),
            r@.line == peek_line(self.toks(), self.idx as int),
    {
        &self.tokens[self.idx]
    }

    /// Consumes the token at the cursor when it is the expected one,
    /// and reports a diagnostic naming `err` otherwise.
    fn expect(&mut self, expected: TokenData, err: &str) -> (r: Result<(), Error>)
        requires
            old(self).wf(),
            expected@ != TokenDataView::Eof,
        ensures
            final(self).tokens@ == old(self).tokens@,
            final(self).wf(),
            ({
                let t = old(self).toks();
                let i = old(self).idx as int;
                if peek_data(t, i) == expected@ {
                    final(self).idx == old(self).idx + 1 && r is Ok
                } else {
                    &&& final(self).idx == old(self).idx
                    &&& r matches Err(e) && e@ == parse_err(
                        msg_expected(err@),
                        peek_line(t, i),
                    )
                }
            }),
    {
        let matched = token_data_eq(&expected, &self.tokens[self.idx].data);
        if matched {
            proof {
                assert(self.toks()[self.idx as int].data == expected@);
                assert(self.idx as int != self.toks().len() - 1);
            }
            self.next();
            Ok(())
        } else {
            let line = self.tokens[self.idx].line;
            let msg = String::from_str("expected ").concat(err);
            Err(Error::parse_error(msg, line))
        }
    }

    /// Parses a primary expression, exactly [`spec_primary`].
    fn primary(&mut self) -> (r: Result<Expr, Error>)
        requires
            old(self).wf(),
        ensures
            final(self).tokens@ == old(self).tokens@,
            final(self).wf(),
            ({
                let s = spec_primary(old(self).toks(), old(self).idx as int);
                &&& final(self).idx as int == s.next
                &&& match r {
                    Ok(e) => s.result == Ok::<ExprView, ErrorView>(e@),
                    Err(er) => s.result == Err::<ExprView, ErrorView>(er@),
                }
            }),
        decreases self.tokens@.len() - self.idx, 0int,
    {
        let ghost t = self.toks();
        let ghost i0 = self.idx as int;
        proof {
            lemma_primary_bounds(t, i0);
        }
        let line = self.tokens[self.idx].line;
        let data_is_lparen = match &self.tokens[self.idx].data {
            TokenData::LeftParen => true,
            _ => false,
        };
        if data_is_lparen {
            proof {
                assert(t[i0].data != TokenDataView::Eof);
                assert(i0 < t.len() - 1);
                lemma_equality_bounds(t, i0 + 1);
            }
            self.next();
            let expr = self.equality()?;
            self.expect(TokenData::RightParen, "closing parens")?;
            return Ok(expr);
        }
        let ret = match &self.tokens[self.idx].data {
            TokenData::Identifier(s) => Some(Expr::new(ExprData::Identifier(s.clone()), line)),
            TokenData::StringToken(s) => Some(Expr::new(ExprData::StringLiteral(s.clone()), line)),
            TokenData::Number(n) => Some(Expr::new(ExprData::NumberLiteral(*n), line)),
            TokenData::True => Some(Expr::new(ExprData::True, line)),
            TokenData::False => Some(Expr::new(ExprData::False, line)),
            TokenData::Nil => Some(Expr::new(ExprData::Nil, line)),
            _ => None,
        };
        match ret {
            Some(e) => {
                proof {
                    assert(t[i0].data != TokenDataView::Eof);
                    assert(i0 < t.len() - 1);
                }
                self.next();
                Ok(e)
            },
            None => {
                let is_eof = match &self.tokens[self.idx].data {
                    TokenData::Eof => true,
                    _ => false,
                };
                if is_eof {
                    Err(Error::parse_error(String::from_str("unexpected end of file"), line))
                } else {
                    Err(Error::parse_error(String::from_str("unexpected token"), line))
                }
            },
        }
    }

    /// Parses a unary expression, exactly [`spec_unary`].
    fn unary(&mut self) -> (r: Result<Expr, Error>)
        requires
            old(self).wf(),
        ensures
            final(self).tokens@ == old(self).tokens@,
            final(self).wf(),
            ({
                let s = spec_unary(old(self).toks(), old(self).idx as int);
                &&& final(self).idx as int == s.next
                &&& match r {
                    Ok(e) => s.result == Ok::<ExprView, ErrorView>(e@),
                    Err(er) => s.result == Err::<ExprView, ErrorView>(er@),
                }
            }),
        decreases self.tokens@.len() - self.idx, 1int,
    {
        let ghost t = self.toks();
        let ghost i0 = self.idx as int;
        proof {
            lemma_unary_bounds(t, i0);
        }
        let line = self.tokens[self.idx].line;
        let op = match &self.tokens[self.idx].data {
            TokenData::Minus => Some(UnaryOp::Negative),
            TokenData::Bang => Some(UnaryOp::Inverse),
            _ => None,
        };
        match op {
            Some(op) => {
                proof {
                    assert(t[i0].data != TokenDataView::Eof);
                    assert(i0 < t.len() - 1);
                    lemma_unary_bounds(t, i0 + 1);
                }
                self.next();
                let e = self.unary()?;
                Ok(Expr::new(ExprData::Unary(op, Box::new(e)), line))
            },
            None => self.primary(),
        }
    }

    /// Parses a factor, exactly [`spec_factor`]: left-associative `/`
    /// and `*` over unary expressions.
    fn factor(&mut self) -> (r: Result<Expr, Error>)
        requires
            old(self).wf(),
        ensures
            final(self).tokens@ == old(self).tokens@,
            final(self).wf(),
            ({
                let s = spec_factor(old(self).toks(), old(self).idx as int);
                &&& final(self).idx as int == s.next
                &&& match r {
                    Ok(e) => s.result == Ok::<ExprView, ErrorView>(e@),
                    Err(er) => s.result == Err::<ExprView, ErrorView>(er@),
                }
            }),
        decreases self.tokens@.len() - self.idx, 2int,
    {
        let ghost t = self.toks();
        let ghost i0 = self.idx as int;
        proof {
            lemma_unary_bounds(t, i0);
        }
        let mut expr = self.unary()?;
        proof {
            lemma_factor_rest_bounds(t, expr@, self.idx as int);
        }
        loop
            invariant
                self.wf(),
                self.tokens@ == old(self).tokens@,
                t == self.toks(),
                i0 == old(self).idx as int,
                i0 < self.idx as int,
                spec_factor(t, i0) == spec_factor_rest(t, expr@, self.idx as int),
            ensures
                self.wf(),
                self.tokens@ == old(self).tokens@,
                spec_factor(t, i0) == (PRes {
                    result: Ok::<ExprView, ErrorView>(expr@),
                    next: self.idx as int,
                }),
            decreases self.tokens@.len() - self.idx,
        {
            let ghost j = self.idx as int;
            let op = match &self.tokens[self.idx].data {
                TokenData::Slash => Some(BinOp::Div),
                TokenData::Star => Some(BinOp::Mult),
                _ => None,
            };
            match op {
                Some(op) => {
                    proof {
                        assert(t[j].data != TokenDataView::Eof);
                        assert(j < t.len() - 1);
                        lemma_unary_bounds(t, j + 1);
                    }
                    self.next();
                    let right = self.unary()?;
                    let line = expr.line;
                    expr = Expr::new(
                        ExprData::Binary(op, Box::new(expr), Box::new(right)),
                        line,
                    );
                    proof {
                        lemma_factor_rest_bounds(t, expr@, self.idx as int);
                    }
                },
                None => {
                    break ;
                },
            }
        }
        Ok(expr)
    }

    /// Parses a term, exactly [`spec_term`]: left-associative `+` and
    /// `-` over factors.
    fn term(&mut self) -> (r: Result<Expr, Error>)
        requires
            old(self).wf(),
        ensures
            final(self).tokens@ == old(self).tokens@,
            final(self).wf(),
            ({
                let s = spec_term(old(self).toks(), old(self).idx as int);
                &&& final(self).idx as int == s.next
                &&& match r {
                    Ok(e) => s.result == Ok::<ExprView, ErrorView>(e@),
                    Err(er) => s.result == Err::<ExprView, ErrorView>(er@),
                }
            }),
        decreases self.tokens@.len() - self.idx, 3int,
    {
        let ghost t = self.toks();
        let ghost i0 = self.idx as int;
        proof {
            lemma_factor_bounds(t, i0);
        }
        let mut expr = self.factor()?;
        proof {
            lemma_term_rest_bounds(t, expr@, self.idx as int);
        }
        loop
            invariant
                self.wf(),
                self.tokens@ == old(self).tokens@,
                t == self.toks(),
                i0 == old(self).idx as int,
                i0 < self.idx as int,
                spec_term(t, i0) == spec_term_rest(t, expr@, self.idx as int),
            ensures
                self.wf(),
                self.tokens@ == old(self).tokens@,
                spec_term(t, i0) == (PRes {
                    result: Ok::<ExprView, ErrorView>(expr@),
                    next: self.idx as int,
                }),
            decreases self.tokens@.len() - self.idx,
        {
            let ghost j = self.idx as int;
            let op = match &self.tokens[self.idx].data {
                TokenData::Plus => Some(BinOp::Add),
                TokenData::Minus => Some(BinOp::Sub),
                _ => None,
            };
            match op {
                Some(op) => {
                    proof {
                        assert(t[j].data != TokenDataView::Eof);
                        assert(j < t.len() - 1);
                        lemma_factor_bounds(t, j + 1);
                    }
                    self.next();
                    let right = self.factor()?;
                    let line = expr.line;
                    expr = Expr::new(
                        ExprData::Binary(op, Box::new(expr), Box::new(right)),
                        line,
                    );
                    proof {
                        lemma_term_rest_bounds(t, expr@, self.idx as int);
                    }
                },
                None => {
                    break ;
                },
            }
        }
        Ok(expr)
    }

    /// Parses a comparison, exactly [`spec_comparison`]:
    /// left-associative orderings over terms.
    fn comparison(&mut self) -> (r: Result<Expr, Error>)
        requires
            old(self).wf(),
        ensures
            final(self).tokens@ == old(self).tokens@,
            final(self).wf(),
            ({
                let s = spec_comparison(old(self).toks(), old(self).idx as int);
                &&& final(self).idx as int == s.next
                &&& match r {
                    Ok(e) => s.result == Ok::<ExprView, ErrorView>(e@),
                    Err(er) => s.result == Err::<ExprView, ErrorView>(er@),
                }
            }),
        decreases self.tokens@.len() - self.idx, 4int,
    {
        let ghost t = self.toks();
        let ghost i0 = self.idx as int;
        proof {
            lemma_term_bounds(t, i0);
        }
        let mut expr = self.term()?;
        proof {
            lemma_comparison_rest_bounds(t, expr@, self.idx as int);
        }
        loop
            invariant
                self.wf(),
                self.tokens@ == old(self).tokens@,
                t == self.toks(),
                i0 == old(self).idx as int,
                i0 < self.idx as int,
                spec_comparison(t, i0) == spec_comparison_rest(t, expr@, self.idx as int),
            ensures
                self.wf(),
                self.tokens@ == old(self).tokens@,
                spec_comparison(t, i0) == (PRes {
                    result: Ok::<ExprView, ErrorView>(expr@),
                    next: self.idx as int,
                }),
            decreases self.tokens@.len() - self.idx,
        {
            let ghost j = self.idx as int;
            let op = match &self.tokens[self.idx].data {
                TokenData::Greater => Some(BinOp::Gt),
                TokenData::GreaterEqual => Some(BinOp::GtEq),
                TokenData::Less => Some(BinOp::Lt),
                TokenData::LessEqual => Some(BinOp::LtEq),
                _ => None,
            };
            match op {
                Some(op) => {
                    proof {
                        assert(t[j].data != TokenDataView::Eof);
                        assert(j < t.len() - 1);
                        lemma_term_bounds(t, j + 1);
                    }
                    self.next();
                    let right = self.term()?;
                    let line = expr.line;
                    expr = Expr::new(
                        ExprData::Binary(op, Box::new(expr), Box::new(right)),
                        line,
                    );
                    proof {
                        lemma_comparison_rest_bounds(t, expr@, self.idx as int);
                    }
                },
                None => {
                    break ;
                },
            }
        }
        Ok(expr)
    }

    /// Parses an equality, exactly [`spec_equality`]: the whole
    /// expression grammar's entry.
    fn equality(&mut self) -> (r: Result<Expr, Error>)
        requires
            old(self).wf(),
        ensures
            final(self).tokens@ == old(self).tokens@,
            final(self).wf(),
            ({
                let s = spec_equality(old(self).toks(), old(self).idx as int);
                &&& final(self).idx as int == s.next
                &&& match r {
                    Ok(e) => s.result == Ok::<ExprView, ErrorView>(e@),
                    Err(er) => s.result == Err::<ExprView, ErrorView>(er@),
                }
            }),
        decreases self.tokens@.len() - self.idx, 5int,
    {
        let ghost t = self.toks();
        let ghost i0 = self.idx as int;
        proof {
            lemma_comparison_bounds(t, i0);
        }
        let mut expr = self.comparison()?;
        proof {
            lemma_equality_rest_bounds(t, expr@, self.idx as int);
        }
        loop
            invariant
                self.wf(),
                self.tokens@ == old(self).tokens@,
                t == self.toks(),
                i0 == old(self).idx as int,
                i0 < self.idx as int,
                spec_equality(t, i0) == spec_equality_rest(t, expr@, self.idx as int),
            ensures
                self.wf(),
                self.tokens@ == old(self).tokens@,
                spec_equality(t, i0) == (PRes {
                    result: Ok::<ExprView, ErrorView>(expr@),
                    next: self.idx as int,
                }),
            decreases self.tokens@.len() - self.idx,
        {
            let ghost j = self.idx as int;
            let op = match &self.tokens[self.idx].data {
                TokenData::BangEqual => Some(BinOp::Neq),
                TokenData::EqualEqual => Some(BinOp::Eq),
                _ => None,
            };
            match op {
                Some(op) => {
                    proof {
                        assert(t[j].data != TokenDataView::Eof);
                        assert(j < t.len() - 1);
                        lemma_comparison_bounds(t, j + 1);
                    }
                    self.next();
                    let right = self.comparison()?;
                    let line = expr.line;
                    expr = Expr::new(
                        ExprData::Binary(op, Box::new(expr), Box::new(right)),
                        line,
                    );
                    proof {
                        lemma_equality_rest_bounds(t, expr@, self.idx as int);
                    }
                },
                None => {
                    break ;
                },
            }
        }
        Ok(expr)
    }

    /// Parses one expression: the grammar makes every expression an
    /// equality.
    fn parse_expression(&mut self) -> (r: Result<Expr, Error>)
        requires
            old(self).wf(),
        ensures
            final(self).tokens@ == old(self).tokens@,
            final(self).wf(),
            ({
                let s = spec_equality(old(self).toks(), old(self).idx as int);
                &&& final(self).idx as int == s.next
                &&& match r {
                    Ok(e) => s.result == Ok::<ExprView, ErrorView>(e@),
                    Err(er) => s.result == Err::<ExprView, ErrorView>(er@),
                }
            }),
    {
        self.equality()
    }

    /// Parses the name position of a variable declaration, exactly
    /// [`spec_identifier`].
    fn identifier(&mut self) -> (r: Result<Expr, Error>)
        requires
            old(self).wf(),
        ensures
            final(self).tokens@ == old(self).tokens@,
            final(self).wf(),
            ({
                let s = spec_identifier(old(self).toks(), old(self).idx as int);
                &&& final(self).idx as int == s.next
                &&& match r {
                    Ok(e) => s.result == Ok::<ExprView, ErrorView>(e@),
                    Err(er) => s.result == Err::<ExprView, ErrorView>(er@),
                }
            }),
    {
        let ghost t = self.toks();
        let ghost i0 = self.idx as int;
        let line = self.tokens[self.idx].line;
        let name = match &self.tokens[self.idx].data {
            TokenData::Identifier(s) => Some(s.clone()),
            _ => None,
        };
        match name {
            Some(s) => {
                proof {
                    assert(t[i0].data != TokenDataView::Eof);
                    assert(i0 < t.len() - 1);
                }
                self.next();
                Ok(Expr::new(ExprData::Identifier(s), line))
            },
            None => Err(
                Error::parse_error(String::from_str("expected ").concat("identifier"), line),
            ),
        }
    }

    /// Parses a statement, exactly [`spec_statement`].
    fn statement(&mut self) -> (r: Result<Stmt, Error>)
        requires
            old(self).wf(),
        ensures
            final(self).tokens@ == old(self).tokens@,
            final(self).wf(),
            ({
                let s = spec_statement(old(self).toks(), old(self).idx as int);
                &&& final(self).idx as int == s.next
                &&& match r {
                    Ok(st) => s.result == Ok::<StmtView, ErrorView>(st@),
                    Err(er) => s.result == Err::<StmtView, ErrorView>(er@),
                }
            }),
    {
        let ghost t = self.toks();
        let ghost i0 = self.idx as int;
        let is_print = match &self.tokens[self.idx].data {
            TokenData::Print => true,
            _ => false,
        };
        let stmt = if is_print {
            proof {
                assert(t[i0].data != TokenDataView::Eof);
                assert(i0 < t.len() - 1);
                lemma_equality_bounds(t, i0 + 1);
            }
            self.next();
            let inner = self.parse_expression()?;
            Stmt::Print(inner)
        } else {
            proof {
                lemma_equality_bounds(t, i0);
            }
            let inner = self.parse_expression()?;
            Stmt::Expr(inner)
        };
        self.expect(TokenData::Semicolon, "semicolon")?;
        Ok(stmt)
    }

    /// Parses a declaration, exactly [`spec_declaration`].
    fn declaration(&mut self) -> (r: Result<Decl, Error>)
        requires
            old(self).wf(),
        ensures
            final(self).tokens@ == old(self).tokens@,
            final(self).wf(),
            ({
                let s = spec_declaration(old(self).toks(), old(self).idx as int);
                &&& final(self).idx as int == s.next
                &&& match r {
                    Ok(d) => s.result == Ok::<DeclView, ErrorView>(d@),
                    Err(er) => s.result == Err::<DeclView, ErrorView>(er@),
                }
            }),
    {
        let ghost t = self.toks();
        let ghost i0 = self.idx as int;
        let is_var = match &self.tokens[self.idx].data {
            TokenData::Var => true,
            _ => false,
        };
        if is_var {
            proof {
                assert(t[i0].data != TokenDataView::Eof);
                assert(i0 < t.len() - 1);
            }
            self.next();
            let name = self.identifier()?;
            let ghost j = self.idx as int;
            self.expect(TokenData::Equal, "equals sign")?;
            proof {
                lemma_equality_bounds(t, j + 1);
            }
            let init = self.parse_expression()?;
            self.expect(TokenData::Semicolon, "semicolon")?;
            Ok(Decl::VarDecl(name, init))
        } else {
            proof {
                lemma_statement_bounds(t, i0);
            }
            let stmt = self.statement()?;
            Ok(Decl::Stmt(stmt))
        }
    }

    /// Parses a whole program, exactly [`spec_parse_loop`] from the
    /// cursor: declarations until the final `Eof`, recovering from each
    /// failed declaration at the next statement boundary so every
    /// independent syntax error is reported. Succeeds exactly when no
    /// error was recorded.
    #[verifier::rlimit(100)]
    #[verifier::spinoff_prover]
    fn parse(&mut self) -> (r: Result<Program, ErrorState>)
        requires
            old(self).wf(),
        ensures
            final(self).tokens@ == old(self).tokens@,
            ({
                let out = spec_parse_loop(old(self).toks(), old(self).idx as int);
                match r {
                    Ok(program) => out.errors.len() == 0 && program_view(program@) == out.decls,
                    Err(st) => out.errors.len() > 0 && st@ == ErrorStateView::ParseErrs(out.errors),
                }
            }),
    {
        let ghost t = self.toks();
        let ghost i0 = self.idx as int;
        let ghost full = spec_parse_loop(t, i0);
        let mut program: Program = vec![];
        let mut err_state = ErrorState::new_parser_state();
        let ghost mut errs_v: Seq<ErrorView> = Seq::empty();
        proof {
            assert(program_view(program@) =~= Seq::<DeclView>::empty());
            assert(Seq::<DeclView>::empty() + full.decls =~= full.decls);
            assert(Seq::<ErrorView>::empty() + full.errors =~= full.errors);
        }
        while !self.is_at_end()
            invariant
                self.wf(),
                self.tokens@ == old(self).tokens@,
                t == self.toks(),
                i0 == old(self).idx as int,
                full == spec_parse_loop(t, i0),
                err_state@ == ErrorStateView::ParseErrs(errs_v),
                full.decls == program_view(program@) + spec_parse_loop(t, self.idx as int).decls,
                full.errors == errs_v + spec_parse_loop(t, self.idx as int).errors,
            decreases self.tokens@.len() - self.idx,
        {
            let ghost j0 = self.idx as int;
            proof {
                lemma_declaration_bounds(t, j0);
            }
            match self.declaration() {
                Ok(decl) => {
                    let ghost dv = decl@;
                    program.push(decl);
                    proof {
                        let d = spec_declaration(t, j0);
                        assert(adv(t, j0, d.next) == d.next);
                        let rest = spec_parse_loop(t, self.idx as int);
                        assert(spec_parse_loop(t, j0).decls == seq![dv] + rest.decls);
                        assert(spec_parse_loop(t, j0).errors == rest.errors);
                        assert(program@ =~= program@.drop_last().push(decl));
                        assert(program_view(program@) =~= program_view(program@.drop_last()).push(
                            dv,
                        ));
                        assert(program_view(program@.drop_last()) + (seq![dv] + rest.decls)
                            =~= program_view(program@) + rest.decls);
                    }
                },
                Err(e) => {
                    let ghost ev = e@;
                    err_state.add(e);
                    proof {
                        errs_v = errs_v.push(ev);
                        assert(errs_v.drop_last() =~= errs_v.subrange(0, errs_v.len() - 1));
                    }
                    let ghost epos = self.idx as int;
                    loop
                        invariant_except_break
                            self.wf(),
                            self.tokens@ == old(self).tokens@,
                            t == self.toks(),
                            epos <= self.idx as int,
                            spec_sync(t, epos) == spec_sync(t, self.idx as int),
                        ensures
                            self.wf(),
                            self.tokens@ == old(self).tokens@,
                            t == self.toks(),
                            self.idx as int == spec_sync(t, epos),
                        decreases self.tokens@.len() - self.idx,
                    {
                        let ghost k = self.idx as int;
                        let kind = match &self.tokens[self.idx].data {
                            TokenData::Semicolon => 0u8,
                            TokenData::Eof => 1u8,
                            _ => 2u8,
                        };
                        if kind == 0 {
                            proof {
                                assert(t[k].data != TokenDataView::Eof);
                                assert(k < t.len() - 1);
                            }
                            self.next();
                            break ;
                        } else if kind == 1 {
                            break ;
                        } else {
                            proof {
                                assert(t[k].data != TokenDataView::Eof);
                                assert(k < t.len() - 1);
                            }
                            self.next();
                        }
                    }
                    proof {
                        let d = spec_declaration(t, j0);
                        assert(d.next == epos);
                        assert(d.next >= j0);
                        lemma_sync_bounds(t, epos);
                        if t[epos].data == TokenDataView::Semicolon {
                            assert(spec_sync(t, epos) == epos + 1);
                        } else if t[epos].data == TokenDataView::Eof {
                            assert(epos == t.len() - 1);
                            assert(epos > j0);
                        } else {
                            assert(epos < t.len() - 1);
                            lemma_sync_bounds(t, epos + 1);
                            assert(spec_sync(t, epos) == spec_sync(t, epos + 1));
                        }
                        assert(spec_sync(t, epos) > j0);
                        assert(adv(t, j0, spec_sync(t, epos)) == spec_sync(t, epos));
                        let rest = spec_parse_loop(t, self.idx as int);
                        assert(spec_parse_loop(t, j0).decls == rest.decls);
                        assert(spec_parse_loop(t, j0).errors == seq![ev] + rest.errors);
                        assert(errs_v.drop_last() + (seq![ev] + rest.errors) =~= errs_v
                            + rest.errors);
                    }
                },
            }
        }
        proof {
            assert(self.idx as int == t.len() - 1);
            assert(spec_parse_loop(t, self.idx as int).decls =~= Seq::<DeclView>::empty());
            assert(spec_parse_loop(t, self.idx as int).errors =~= Seq::<ErrorView>::empty());
            assert(program_view(program@) + Seq::<DeclView>::empty() =~= program_view(program@));
            assert(errs_v + Seq::<ErrorView>::empty() =~= errs_v);
        }
        if err_state.is_ok() {
            Ok(program)
        } else {
            Err(err_state)
        }
    }
}

/// Parses a token sequence — one the scanner produced, ending in its
/// only `Eof` — into a program, exactly [`spec_parse`]: `Ok` with the
/// declarations when no syntax error was found, else `Err` with every
/// diagnostic, in source order.
pub fn parse(tokens: Vec<Token>) -> (r: Result<Program, ErrorState>)
    requires
        tokens_wf(tokens_view(tokens@)),
    ensures
        ({
            let out = spec_parse(tokens_view(tokens@));
            match r {
                Ok(program) => out.errors.len() == 0 && program_view(program@) == out.decls,
                Err(st) => out.errors.len() > 0 && st@ == ErrorStateView::ParseErrs(out.errors),
            }
        }),
{
    let mut p = Parser::new(tokens);
    p.parse()
}

} // verus!
