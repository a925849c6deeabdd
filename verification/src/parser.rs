//! Recursive-descent parser with precedence climbing. The parser reads the
//! lexer's token stream on demand through two tokens of lookahead and builds
//! the tree bottom-up; structural errors are collected in a list instead of
//! stopping the parse, and a statement that cannot be completed is dropped,
//! with recovery at the next statement boundary.
//!
//! The specification side is a family of functions (`sp_statement`,
//! `sp_expression`, ...) over the token-stream view: each gives the node the
//! parse yields (or `None` on failure), the index of the last token consumed,
//! and the error messages emitted. The executable parser is proved to return
//! exactly what these functions describe.

use vstd::prelude::*;

use crate::ast::{
    exprs_view, render_stmt, spec_stmt_token_literal, stmts_view, Block, BlockView, ExprView,
    Expression, Program, Statement, StmtView,
};
use crate::lexer::{
    is_digit_char, is_letter_char, lemma_let_source_tokens, lemma_return_source_tokens,
    lemma_token_at_bounds, lemma_tokens_from_wf, token_at, tokens_from, wf_tokens, Lexer,
};
use crate::tokens::{
    spec_lookup_ident, spec_token_name, spec_token_string, spec_token_type, spec_type_name, Token,
    TokenType, TokenView,
};

verus! {

/// The precedence levels of the climb, lowest binding strength first.
#[derive(Debug, Clone, Copy, PartialEq, Eq, Structural)]
pub enum Precedence {
    LOWEST,
    EQUALS,
    LESSGREATER,
    SUM,
    PRODUCT,
    PREFIX,
    CALL,
}

impl Precedence {
    /// The level's place in the total order of precedences.
    pub open spec fn spec_rank(self) -> int {
        match self {
            Precedence::LOWEST => 0,
            Precedence::EQUALS => 1,
            Precedence::LESSGREATER => 2,
            Precedence::SUM => 3,
            Precedence::PRODUCT => 4,
            Precedence::PREFIX => 5,
            Precedence::CALL => 6,
        }
    }

    pub fn rank(&self) -> (r: u8)
        ensures
            r as int == self.spec_rank(),
    {
        match self {
            Precedence::LOWEST => 0,
            Precedence::EQUALS => 1,
            Precedence::LESSGREATER => 2,
            Precedence::SUM => 3,
            Precedence::PRODUCT => 4,
            Precedence::PREFIX => 5,
            Precedence::CALL => 6,
        }
    }
}

/// The precedence a token has when it appears in infix position. Tokens that
/// cannot continue an expression sit at the lowest level, so they end the
/// climb; the opening parenthesis binds tightest, turning the expression so
/// far into the target of a call.
pub open spec fn spec_infix_precedence(t: TokenView) -> int {
    match t {
        TokenView::Eq => 1,
        TokenView::NotEq => 1,
        TokenView::Lt => 2,
        TokenView::Gt => 2,
        TokenView::Plus => 3,
        TokenView::Minus => 3,
        TokenView::Asterisk => 4,
        TokenView::Slash => 4,
        TokenView::LParen => 6,
        _ => 0,
    }
}

/// The token at stream position `i`; past the end it is the end-of-input
/// marker, which a well-formed stream holds in its last position anyway.
pub open spec fn tk(toks: Seq<TokenView>, i: int) -> TokenView {
    if 0 <= i < toks.len() {
        toks[i]
    } else {
        TokenView::Eof
    }
}

/// Clamp an index into `[lo, toks.len() - 1]`. The specification functions
/// below apply this to positions handed back by their recursive calls, which
/// keeps their recursion well-founded by construction; the positions actually
/// handed back always lie in that range (the `lemma_sp_...` bounds lemmas
/// below), so the clamp
/// never changes a reachable value.
pub open spec fn clamp_idx(toks: Seq<TokenView>, i: int, lo: int) -> int {
    if i < lo {
        lo
    } else if i > toks.len() - 1 {
        toks.len() - 1
    } else {
        i
    }
}

/// The message recorded when the token after the current one is not of the
/// kind the grammar demands.
pub open spec fn spec_peek_error(expected: TokenType, got: TokenView) -> Seq<char> {
    "expected next token to be "@ + spec_type_name(expected) + ", got "@ + spec_token_name(got)
        + " instead"@
}

/// The message recorded when no prefix rule exists for the current token.
pub open spec fn spec_no_prefix_error(got: TokenView) -> Seq<char> {
    "no prefix parse function for "@ + spec_token_name(got) + " found"@
}

/// The next statement boundary at or after `i`: the next semicolon, closing
/// brace or end of input, where error recovery resumes.
#[verifier::opaque]
pub open spec fn sp_boundary(toks: Seq<TokenView>, i: int) -> int
    decreases toks.len() - i,
{
    if !(0 <= i < toks.len()) {
        i
    } else if tk(toks, i) is SemiColon || tk(toks, i) is RBrace || tk(toks, i) is Eof {
        i
    } else {
        sp_boundary(toks, i + 1)
    }
}

/// Parse an expression. `i` is the position of its first token; `minp` the
/// precedence the surrounding context binds with. First a prefix rule for the
/// token at `i` builds a left-hand expression, then `sp_infix_climb` extends
/// it while the token after it binds more tightly than `minp`.
#[verifier::opaque]
pub open spec fn sp_expression(toks: Seq<TokenView>, i: int, minp: int) -> (Option<ExprView>, int, Seq<Seq<char>>)
    decreases toks.len() - i, 2int,
{
    if !(0 <= i < toks.len() && 0 <= minp) {
        (None, i, seq![])
    } else {
        match tk(toks, i) {
            TokenView::Ident(name) => sp_infix_climb(toks, i, ExprView::Identifier(name), minp),
            TokenView::Int(text) => sp_infix_climb(toks, i, ExprView::IntegerLiteral(text), minp),
            TokenView::True => sp_infix_climb(toks, i, ExprView::BooleanLiteral(true), minp),
            TokenView::False => sp_infix_climb(toks, i, ExprView::BooleanLiteral(false), minp),
            TokenView::Bang => sp_prefix_operator(toks, i, minp),
            TokenView::Minus => sp_prefix_operator(toks, i, minp),
            TokenView::LParen => {
                let (inner, j, errs) = sp_expression(toks, i + 1, 0);
                match inner {
                    Some(e) => {
                        let jc = clamp_idx(toks, j, i + 1);
                        if tk(toks, jc + 1) is RParen {
                            let (r, j2, errs2) = sp_infix_climb(toks, jc + 1, e, minp);
                            (r, j2, errs + errs2)
                        } else {
                            (None, jc, errs + seq![
                                spec_peek_error(TokenType::RParen, tk(toks, jc + 1)),
                            ])
                        }
                    },
                    None => (None, j, errs),
                }
            },
            TokenView::If => {
                let (ife, j, errs) = sp_if(toks, i);
                match ife {
                    Some(e) => {
                        let (r, j2, errs2) = sp_infix_climb(toks, clamp_idx(toks, j, i), e, minp);
                        (r, j2, errs + errs2)
                    },
                    None => (None, j, errs),
                }
            },
            TokenView::Function => {
                let (fe, j, errs) = sp_function(toks, i);
                match fe {
                    Some(e) => {
                        let (r, j2, errs2) = sp_infix_climb(toks, clamp_idx(toks, j, i), e, minp);
                        (r, j2, errs + errs2)
                    },
                    None => (None, j, errs),
                }
            },
            _ => (None, i, seq![spec_no_prefix_error(tk(toks, i))]),
        }
    }
}

/// The prefix rules for `!` and `-`: consume the operator, parse the operand
/// at the prefix level, then climb.
#[verifier::opaque]
pub open spec fn sp_prefix_operator(toks: Seq<TokenView>, i: int, minp: int) -> (Option<ExprView>, int, Seq<Seq<char>>)
    decreases toks.len() - i, 1int,
{
    if !(0 <= i < toks.len() && 0 <= minp) {
        (None, i, seq![])
    } else {
        let (operand, j, errs) = sp_expression(toks, i + 1, 5);
        match operand {
            Some(e) => {
                let pe = ExprView::PrefixExpression { operator: tk(toks, i), operand: Box::new(e) };
                let (r, j2, errs2) = sp_infix_climb(toks, clamp_idx(toks, j, i + 1), pe, minp);
                (r, j2, errs + errs2)
            },
            None => (None, j, errs),
        }
    }
}

/// The climb: while the token after position `i` binds more tightly than
/// `minp`, consume it as an infix operator (or as a call's argument list when
/// it is `(`) and fold the expression built so far into the new node. Chains
/// of operators at one level nest to the left, because each right-hand side
/// is parsed at the operator's own precedence.
#[verifier::opaque]
pub open spec fn sp_infix_climb(toks: Seq<TokenView>, i: int, left: ExprView, minp: int) -> (Option<ExprView>, int, Seq<Seq<char>>)
    decreases toks.len() - i, 0int,
{
    if !(0 <= i < toks.len() && 0 <= minp) {
        (Some(left), i, seq![])
    } else {
        let pt = tk(toks, i + 1);
        if spec_infix_precedence(pt) > minp {
            if pt is LParen {
                let (args, j, errs) = sp_call_args(toks, i + 1);
                match args {
                    Some(a) => {
                        let call = ExprView::CallExpression {
                            function: Box::new(left),
                            arguments: a,
                        };
                        let (r, j2, errs2) = sp_infix_climb(
                            toks,
                            clamp_idx(toks, j, i + 1),
                            call,
                            minp,
                        );
                        (r, j2, errs + errs2)
                    },
                    None => (None, j, errs),
                }
            } else {
                let (rhs, j, errs) = sp_expression(toks, i + 2, spec_infix_precedence(pt));
                match rhs {
                    Some(rv) => {
                        let node = ExprView::InfixExpression {
                            operator: pt,
                            left: Box::new(left),
                            right: Box::new(rv),
                        };
                        let (r, j2, errs2) = sp_infix_climb(
                            toks,
                            clamp_idx(toks, j, i + 2),
                            node,
                            minp,
                        );
                        (r, j2, errs + errs2)
                    },
                    None => (None, j, errs),
                }
            }
        } else {
            (Some(left), i, seq![])
        }
    }
}

/// A call's argument list. `i` is the opening parenthesis; each argument is
/// parsed at the lowest level; on success the position is the closing
/// parenthesis.
#[verifier::opaque]
pub open spec fn sp_call_args(toks: Seq<TokenView>, i: int) -> (Option<Seq<ExprView>>, int, Seq<Seq<char>>)
    decreases toks.len() - i, 1int,
{
    if !(0 <= i < toks.len()) {
        (None, i, seq![])
    } else if tk(toks, i + 1) is RParen {
        (Some(seq![]), i + 1, seq![])
    } else {
        let (first, j, errs) = sp_expression(toks, i + 1, 0);
        match first {
            Some(a) => {
                let (rest, j2, errs2) = sp_call_args_rest(
                    toks,
                    clamp_idx(toks, j, i + 1),
                    seq![a],
                );
                (rest, j2, errs + errs2)
            },
            None => (None, j, errs),
        }
    }
}

/// The remaining arguments after one has been parsed: as long as a comma
/// follows, consume it and parse the next argument; then demand the closing
/// parenthesis.
#[verifier::opaque]
pub open spec fn sp_call_args_rest(toks: Seq<TokenView>, i: int, acc: Seq<ExprView>) -> (Option<
    Seq<ExprView>,
>, int, Seq<Seq<char>>)
    decreases toks.len() - i, 0int,
{
    if !(0 <= i < toks.len()) {
        (None, i, seq![])
    } else if tk(toks, i + 1) is Comma {
        let (next, j, errs) = sp_expression(toks, i + 2, 0);
        match next {
            Some(a) => {
                let (rest, j2, errs2) = sp_call_args_rest(
                    toks,
                    clamp_idx(toks, j, i + 2),
                    acc.push(a),
                );
                (rest, j2, errs + errs2)
            },
            None => (None, j, errs),
        }
    } else if tk(toks, i + 1) is RParen {
        (Some(acc), i + 1, seq![])
    } else {
        (None, i, seq![spec_peek_error(TokenType::RParen, tk(toks, i + 1))])
    }
}

/// An `if` expression: `if` `(` condition `)` block, with an optional
/// `else` block. `i` is the `if` keyword.
#[verifier::opaque]
pub open spec fn sp_if(toks: Seq<TokenView>, i: int) -> (Option<ExprView>, int, Seq<Seq<char>>)
    decreases toks.len() - i, 0int,
{
    if !(0 <= i < toks.len()) {
        (None, i, seq![])
    } else if !(tk(toks, i + 1) is LParen) {
        (None, i, seq![spec_peek_error(TokenType::LParen, tk(toks, i + 1))])
    } else {
        let (cond, j, errs) = sp_expression(toks, i + 2, 0);
        match cond {
            None => (None, j, errs),
            Some(c) => {
                let jc = clamp_idx(toks, j, i + 2);
                if !(tk(toks, jc + 1) is RParen) {
                    (None, jc, errs + seq![spec_peek_error(TokenType::RParen, tk(toks, jc + 1))])
                } else if !(tk(toks, jc + 2) is LBrace) {
                    (
                        None,
                        jc + 1,
                        errs + seq![spec_peek_error(TokenType::LBrace, tk(toks, jc + 2))],
                    )
                } else {
                    let (cons, k, errs2) = sp_block(toks, jc + 2);
                    let kc = clamp_idx(toks, k, jc + 2);
                    if tk(toks, kc + 1) is Else {
                        if tk(toks, kc + 2) is LBrace {
                            let (alt, m, errs3) = sp_block(toks, kc + 2);
                            (
                                Some(ExprView::IfExpression {
                                    condition: Box::new(c),
                                    consequence: cons,
                                    alternative: Some(alt),
                                }),
                                m,
                                errs + errs2 + errs3,
                            )
                        } else {
                            (
                                None,
                                kc + 1,
                                errs + errs2 + seq![
                                    spec_peek_error(TokenType::LBrace, tk(toks, kc + 2)),
                                ],
                            )
                        }
                    } else {
                        (
                            Some(ExprView::IfExpression {
                                condition: Box::new(c),
                                consequence: cons,
                                alternative: None,
                            }),
                            kc,
                            errs + errs2,
                        )
                    }
                }
            },
        }
    }
}

/// A function literal: `fn` `(` comma-separated identifier list `)` block.
/// `i` is the `fn` keyword.
#[verifier::opaque]
pub open spec fn sp_function(toks: Seq<TokenView>, i: int) -> (Option<ExprView>, int, Seq<Seq<char>>)
    decreases toks.len() - i, 0int,
{
    if !(0 <= i < toks.len()) {
        (None, i, seq![])
    } else if !(tk(toks, i + 1) is LParen) {
        (None, i, seq![spec_peek_error(TokenType::LParen, tk(toks, i + 1))])
    } else {
        let (params, j, errs) = sp_params(toks, i + 1);
        match params {
            None => (None, j, errs),
            Some(ps) => {
                let jc = clamp_idx(toks, j, i + 1);
                if !(tk(toks, jc + 1) is LBrace) {
                    (None, jc, errs + seq![spec_peek_error(TokenType::LBrace, tk(toks, jc + 1))])
                } else {
                    let (body, k, errs2) = sp_block(toks, jc + 1);
                    (
                        Some(ExprView::FunctionLiteral { parameters: ps, body }),
                        k,
                        errs + errs2,
                    )
                }
            },
        }
    }
}

/// A function literal's parameter list. `i` is the opening parenthesis; on
/// success the position is the closing parenthesis.
#[verifier::opaque]
pub open spec fn sp_params(toks: Seq<TokenView>, i: int) -> (Option<Seq<Seq<char>>>, int, Seq<Seq<char>>)
    decreases toks.len() - i, 0int,
{
    if !(0 <= i < toks.len()) {
        (None, i, seq![])
    } else if tk(toks, i + 1) is RParen {
        (Some(seq![]), i + 1, seq![])
    } else {
        match tk(toks, i + 1) {
            TokenView::Ident(name) => sp_params_rest(toks, i + 1, seq![name]),
            _ => (None, i, seq![spec_peek_error(TokenType::Ident, tk(toks, i + 1))]),
        }
    }
}

/// The remaining parameters after one identifier: as long as a comma follows,
/// consume it and demand the next identifier; then demand the closing
/// parenthesis.
#[verifier::opaque]
pub open spec fn sp_params_rest(toks: Seq<TokenView>, i: int, acc: Seq<Seq<char>>) -> (Option<
    Seq<Seq<char>>,
>, int, Seq<Seq<char>>)
    decreases toks.len() - i, 0int,
{
    if !(0 <= i < toks.len()) {
        (None, i, seq![])
    } else if tk(toks, i + 1) is Comma {
        match tk(toks, i + 2) {
            TokenView::Ident(name) => sp_params_rest(toks, i + 2, acc.push(name)),
            _ => (None, i + 1, seq![spec_peek_error(TokenType::Ident, tk(toks, i + 2))]),
        }
    } else if tk(toks, i + 1) is RParen {
        (Some(acc), i + 1, seq![])
    } else {
        (None, i, seq![spec_peek_error(TokenType::RParen, tk(toks, i + 1))])
    }
}

/// A block: the statements between `{` and the matching `}` (or the end of
/// the input). `i` is the opening brace; the resulting position is the
/// closing brace or the end marker.
#[verifier::opaque]
pub open spec fn sp_block(toks: Seq<TokenView>, i: int) -> (BlockView, int, Seq<Seq<char>>)
    decreases toks.len() - i, 0int,
{
    if !(0 <= i < toks.len()) {
        (BlockView { statements: seq![] }, clamp_idx(toks, i, 0), seq![])
    } else {
        let (ss, j, errs) = sp_stmts(toks, i + 1, true);
        (BlockView { statements: ss }, j, errs)
    }
}

/// A `let` statement: `let` IDENT `=` expression, with an optional trailing
/// semicolon. A failed expectation records its error and abandons the
/// statement. `i` is the `let` keyword.
#[verifier::opaque]
pub open spec fn sp_let(toks: Seq<TokenView>, i: int) -> (Option<StmtView>, int, Seq<Seq<char>>)
    decreases toks.len() - i, 3int,
{
    if !(0 <= i < toks.len()) {
        (None, i, seq![])
    } else {
        match tk(toks, i + 1) {
            TokenView::Ident(name) => {
                if tk(toks, i + 2) is Assign {
                    let (value, j, errs) = sp_expression(toks, i + 3, 0);
                    match value {
                        Some(v) => {
                            let end = if tk(toks, j + 1) is SemiColon {
                                j + 1
                            } else {
                                j
                            };
                            (Some(StmtView::Let { name, value: v }), end, errs)
                        },
                        None => (None, j, errs),
                    }
                } else {
                    (None, i + 1, seq![spec_peek_error(TokenType::Assign, tk(toks, i + 2))])
                }
            },
            _ => (None, i, seq![spec_peek_error(TokenType::Ident, tk(toks, i + 1))]),
        }
    }
}

/// A `return` statement: `return` expression, with an optional trailing
/// semicolon. `i` is the `return` keyword.
#[verifier::opaque]
pub open spec fn sp_return(toks: Seq<TokenView>, i: int) -> (Option<StmtView>, int, Seq<Seq<char>>)
    decreases toks.len() - i, 3int,
{
    if !(0 <= i < toks.len()) {
        (None, i, seq![])
    } else {
        let (value, j, errs) = sp_expression(toks, i + 1, 0);
        match value {
            Some(v) => {
                let end = if tk(toks, j + 1) is SemiColon {
                    j + 1
                } else {
                    j
                };
                (Some(StmtView::Return { value: v }), end, errs)
            },
            None => (None, j, errs),
        }
    }
}

/// An expression statement: an expression at the lowest level, with an
/// optional trailing semicolon.
#[verifier::opaque]
pub open spec fn sp_expr_stmt(toks: Seq<TokenView>, i: int) -> (Option<StmtView>, int, Seq<Seq<char>>)
    decreases toks.len() - i, 3int,
{
    if !(0 <= i < toks.len()) {
        (None, i, seq![])
    } else {
        let (value, j, errs) = sp_expression(toks, i, 0);
        match value {
            Some(v) => {
                let end = if tk(toks, j + 1) is SemiColon {
                    j + 1
                } else {
                    j
                };
                (Some(StmtView::Expression { value: v }), end, errs)
            },
            None => (None, j, errs),
        }
    }
}

/// One statement, dispatched on its first token.
#[verifier::opaque]
pub open spec fn sp_statement(toks: Seq<TokenView>, i: int) -> (Option<StmtView>, int, Seq<Seq<char>>)
    decreases toks.len() - i, 4int,
{
    match tk(toks, i) {
        TokenView::Let => sp_let(toks, i),
        TokenView::Return => sp_return(toks, i),
        _ => sp_expr_stmt(toks, i),
    }
}

/// The statement loop shared by the program and by blocks: parse statements
/// until the end of the input — or, inside a block, the closing brace —
/// keeping those that parse and recovering past the next statement boundary
/// from those that do not. Yields the statements, the position the loop
/// stopped at, and the errors.
#[verifier::opaque]
pub open spec fn sp_stmts(toks: Seq<TokenView>, i: int, in_block: bool) -> (Seq<StmtView>, int, Seq<Seq<char>>)
    decreases toks.len() - i, 5int,
{
    if !(0 <= i < toks.len()) {
        (seq![], clamp_idx(toks, i, 0), seq![])
    } else if tk(toks, i) is Eof || (in_block && tk(toks, i) is RBrace) {
        (seq![], i, seq![])
    } else {
        let (st, j, errs) = sp_statement(toks, i);
        match st {
            Some(s) => {
                let jc = clamp_idx(toks, j, i);
                let (ss, k, errs2) = sp_stmts(toks, jc + 1, in_block);
                (seq![s] + ss, k, errs + errs2)
            },
            None => {
                let b = clamp_idx(toks, sp_boundary(toks, clamp_idx(toks, j, i)), i);
                let nraw = if in_block {
                    if tk(toks, b) is SemiColon {
                        b + 1
                    } else {
                        b
                    }
                } else {
                    if tk(toks, b) is Eof {
                        b
                    } else {
                        b + 1
                    }
                };
                let n = if nraw < i + 1 {
                    i + 1
                } else {
                    nraw
                };
                let (ss, k, errs2) = sp_stmts(toks, n, in_block);
                (ss, k, errs + errs2)
            },
        }
    }
}

/// The whole parse: the program's statements and the collected errors.
pub open spec fn sp_program(toks: Seq<TokenView>) -> (Seq<StmtView>, Seq<Seq<char>>) {
    let (ss, j, errs) = sp_stmts(toks, 0, false);
    (ss, errs)
}

/// A statement boundary lies between the position searched from and the end
/// of a well-formed stream, and holds a boundary token.
pub proof fn lemma_sp_boundary(toks: Seq<TokenView>, i: int)
    requires
        wf_tokens(toks),
        0 <= i < toks.len(),
    ensures
        i <= sp_boundary(toks, i) < toks.len(),
        ({
            let b = sp_boundary(toks, i);
            tk(toks, b) is SemiColon || tk(toks, b) is RBrace || tk(toks, b) is Eof
        }),
    decreases toks.len() - i,
{
    reveal_with_fuel(sp_boundary, 1);
    if !(tk(toks, i) is SemiColon || tk(toks, i) is RBrace || tk(toks, i) is Eof) {
        lemma_sp_boundary(toks, i + 1);
    }
}

/// Bounds for the whole parsing family over a well-formed stream: each
/// function's resulting position lies between the position it started from
/// and the stream's last index, so the index clamps in the definitions above
/// never change a value that actually occurs.
pub proof fn lemma_sp_expression(toks: Seq<TokenView>, i: int, minp: int)
    requires
        wf_tokens(toks),
        0 <= i < toks.len(),
        0 <= minp,
    ensures
        i <= sp_expression(toks, i, minp).1 < toks.len(),
    decreases toks.len() - i, 2int,
{
    reveal_with_fuel(sp_expression, 1);
    reveal_with_fuel(sp_infix_climb, 1);
    reveal_with_fuel(sp_prefix_operator, 1);
    reveal_with_fuel(sp_if, 1);
    reveal_with_fuel(sp_function, 1);
    match tk(toks, i) {
        TokenView::Ident(name) => lemma_sp_infix_climb(toks, i, ExprView::Identifier(name), minp),
        TokenView::Int(text) => lemma_sp_infix_climb(toks, i, ExprView::IntegerLiteral(text), minp),
        TokenView::True => lemma_sp_infix_climb(toks, i, ExprView::BooleanLiteral(true), minp),
        TokenView::False => lemma_sp_infix_climb(toks, i, ExprView::BooleanLiteral(false), minp),
        TokenView::Bang => lemma_sp_prefix_operator(toks, i, minp),
        TokenView::Minus => lemma_sp_prefix_operator(toks, i, minp),
        TokenView::LParen => {
            lemma_sp_expression(toks, i + 1, 0);
            let (inner, j, errs) = sp_expression(toks, i + 1, 0);
            if inner is Some {
                assert(clamp_idx(toks, j, i + 1) == j);
                if tk(toks, j + 1) is RParen {
                    lemma_sp_infix_climb(toks, j + 1, inner->0, minp);
                }
            }
        },
        TokenView::If => {
            lemma_sp_if(toks, i);
            let (ife, j, errs) = sp_if(toks, i);
            if ife is Some {
                assert(clamp_idx(toks, j, i) == j);
                lemma_sp_infix_climb(toks, j, ife->0, minp);
            }
        },
        TokenView::Function => {
            lemma_sp_function(toks, i);
            let (fe, j, errs) = sp_function(toks, i);
            if fe is Some {
                assert(clamp_idx(toks, j, i) == j);
                lemma_sp_infix_climb(toks, j, fe->0, minp);
            }
        },
        _ => {},
    }
}

pub proof fn lemma_sp_prefix_operator(toks: Seq<TokenView>, i: int, minp: int)
    requires
        wf_tokens(toks),
        0 <= i,
        i + 1 < toks.len(),
        0 <= minp,
    ensures
        i <= sp_prefix_operator(toks, i, minp).1 < toks.len(),
    decreases toks.len() - i, 1int,
{
    reveal_with_fuel(sp_prefix_operator, 1);
    reveal_with_fuel(sp_expression, 1);
    reveal_with_fuel(sp_infix_climb, 1);
    lemma_sp_expression(toks, i + 1, 5);
    let (operand, j, errs) = sp_expression(toks, i + 1, 5);
    if operand is Some {
        assert(clamp_idx(toks, j, i + 1) == j);
        let pe = ExprView::PrefixExpression { operator: tk(toks, i), operand: Box::new(operand->0) };
        lemma_sp_infix_climb(toks, j, pe, minp);
    }
}

pub proof fn lemma_sp_infix_climb(toks: Seq<TokenView>, i: int, left: ExprView, minp: int)
    requires
        wf_tokens(toks),
        0 <= i < toks.len(),
        0 <= minp,
    ensures
        i <= sp_infix_climb(toks, i, left, minp).1 < toks.len(),
    decreases toks.len() - i, 0int,
{
    reveal_with_fuel(sp_infix_climb, 1);
    reveal_with_fuel(sp_call_args, 1);
    reveal_with_fuel(sp_expression, 1);
    let pt = tk(toks, i + 1);
    if spec_infix_precedence(pt) > minp {
        if pt is LParen {
            lemma_sp_call_args(toks, i + 1);
            let (args, j, errs) = sp_call_args(toks, i + 1);
            if args is Some {
                assert(clamp_idx(toks, j, i + 1) == j);
                let call = ExprView::CallExpression { function: Box::new(left), arguments: args->0 };
                lemma_sp_infix_climb(toks, j, call, minp);
            }
        } else {
            lemma_sp_expression(toks, i + 2, spec_infix_precedence(pt));
            let (rhs, j, errs) = sp_expression(toks, i + 2, spec_infix_precedence(pt));
            if rhs is Some {
                assert(clamp_idx(toks, j, i + 2) == j);
                let node = ExprView::InfixExpression {
                    operator: pt,
                    left: Box::new(left),
                    right: Box::new(rhs->0),
                };
                lemma_sp_infix_climb(toks, j, node, minp);
            }
        }
    }
}

pub proof fn lemma_sp_call_args(toks: Seq<TokenView>, i: int)
    requires
        wf_tokens(toks),
        0 <= i < toks.len(),
        tk(toks, i) is LParen,
    ensures
        i <= sp_call_args(toks, i).1 < toks.len(),
    decreases toks.len() - i, 1int,
{
    reveal_with_fuel(sp_call_args, 1);
    reveal_with_fuel(sp_expression, 1);
    reveal_with_fuel(sp_call_args_rest, 1);
    if !(tk(toks, i + 1) is RParen) {
        lemma_sp_expression(toks, i + 1, 0);
        let (first, j, errs) = sp_expression(toks, i + 1, 0);
        if first is Some {
            assert(clamp_idx(toks, j, i + 1) == j);
            lemma_sp_call_args_rest(toks, j, seq![first->0]);
        }
    }
}

pub proof fn lemma_sp_call_args_rest(toks: Seq<TokenView>, i: int, acc: Seq<ExprView>)
    requires
        wf_tokens(toks),
        0 <= i < toks.len(),
    ensures
        i <= sp_call_args_rest(toks, i, acc).1 < toks.len(),
    decreases toks.len() - i, 0int,
{
    reveal_with_fuel(sp_call_args_rest, 1);
    reveal_with_fuel(sp_expression, 1);
    if tk(toks, i + 1) is Comma {
        lemma_sp_expression(toks, i + 2, 0);
        let (next, j, errs) = sp_expression(toks, i + 2, 0);
        if next is Some {
            assert(clamp_idx(toks, j, i + 2) == j);
            lemma_sp_call_args_rest(toks, j, acc.push(next->0));
        }
    }
}

pub proof fn lemma_sp_if(toks: Seq<TokenView>, i: int)
    requires
        wf_tokens(toks),
        0 <= i < toks.len(),
    ensures
        i <= sp_if(toks, i).1 < toks.len(),
    decreases toks.len() - i, 0int,
{
    reveal_with_fuel(sp_if, 1);
    reveal_with_fuel(sp_expression, 1);
    reveal_with_fuel(sp_block, 1);
    if tk(toks, i + 1) is LParen {
        lemma_sp_expression(toks, i + 2, 0);
        let (cond, j, errs) = sp_expression(toks, i + 2, 0);
        if cond is Some {
            assert(clamp_idx(toks, j, i + 2) == j);
            if tk(toks, j + 1) is RParen && tk(toks, j + 2) is LBrace {
                lemma_sp_block(toks, j + 2);
                let (cons, k, errs2) = sp_block(toks, j + 2);
                assert(clamp_idx(toks, k, j + 2) == k);
                if tk(toks, k + 1) is Else && tk(toks, k + 2) is LBrace {
                    lemma_sp_block(toks, k + 2);
                }
            }
        }
    }
}

pub proof fn lemma_sp_function(toks: Seq<TokenView>, i: int)
    requires
        wf_tokens(toks),
        0 <= i < toks.len(),
    ensures
        i <= sp_function(toks, i).1 < toks.len(),
    decreases toks.len() - i, 0int,
{
    reveal_with_fuel(sp_function, 1);
    reveal_with_fuel(sp_params, 1);
    reveal_with_fuel(sp_block, 1);
    if tk(toks, i + 1) is LParen {
        lemma_sp_params(toks, i + 1);
        let (params, j, errs) = sp_params(toks, i + 1);
        if params is Some {
            assert(clamp_idx(toks, j, i + 1) == j);
            if tk(toks, j + 1) is LBrace {
                lemma_sp_block(toks, j + 1);
            }
        }
    }
}

pub proof fn lemma_sp_params(toks: Seq<TokenView>, i: int)
    requires
        wf_tokens(toks),
        0 <= i < toks.len(),
        tk(toks, i) is LParen,
    ensures
        i <= sp_params(toks, i).1 < toks.len(),
    decreases toks.len() - i, 0int,
{
    reveal_with_fuel(sp_params, 1);
    reveal_with_fuel(sp_params_rest, 1);
    if !(tk(toks, i + 1) is RParen) {
        match tk(toks, i + 1) {
            TokenView::Ident(name) => lemma_sp_params_rest(toks, i + 1, seq![name]),
            _ => {},
        }
    }
}

pub proof fn lemma_sp_params_rest(toks: Seq<TokenView>, i: int, acc: Seq<Seq<char>>)
    requires
        wf_tokens(toks),
        0 <= i < toks.len(),
    ensures
        i <= sp_params_rest(toks, i, acc).1 < toks.len(),
    decreases toks.len() - i, 0int,
{
    reveal_with_fuel(sp_params_rest, 1);
    if tk(toks, i + 1) is Comma {
        match tk(toks, i + 2) {
            TokenView::Ident(name) => lemma_sp_params_rest(toks, i + 2, acc.push(name)),
            _ => {},
        }
    }
}

pub proof fn lemma_sp_block(toks: Seq<TokenView>, i: int)
    requires
        wf_tokens(toks),
        0 <= i,
        i + 1 < toks.len(),
    ensures
        i < sp_block(toks, i).1 < toks.len(),
    decreases toks.len() - i, 0int,
{
    reveal_with_fuel(sp_block, 1);
    reveal_with_fuel(sp_stmts, 1);
    lemma_sp_stmts(toks, i + 1, true);
}

pub proof fn lemma_sp_let(toks: Seq<TokenView>, i: int)
    requires
        wf_tokens(toks),
        0 <= i < toks.len(),
    ensures
        i <= sp_let(toks, i).1 < toks.len(),
    decreases toks.len() - i, 3int,
{
    reveal_with_fuel(sp_let, 1);
    reveal_with_fuel(sp_expression, 1);
    match tk(toks, i + 1) {
        TokenView::Ident(name) => {
            if tk(toks, i + 2) is Assign {
                lemma_sp_expression(toks, i + 3, 0);
            }
        },
        _ => {},
    }
}

pub proof fn lemma_sp_return(toks: Seq<TokenView>, i: int)
    requires
        wf_tokens(toks),
        0 <= i,
        i + 1 < toks.len(),
    ensures
        i <= sp_return(toks, i).1 < toks.len(),
    decreases toks.len() - i, 3int,
{
    reveal_with_fuel(sp_return, 1);
    reveal_with_fuel(sp_expression, 1);
    lemma_sp_expression(toks, i + 1, 0);
}

pub proof fn lemma_sp_expr_stmt(toks: Seq<TokenView>, i: int)
    requires
        wf_tokens(toks),
        0 <= i < toks.len(),
    ensures
        i <= sp_expr_stmt(toks, i).1 < toks.len(),
    decreases toks.len() - i, 3int,
{
    reveal_with_fuel(sp_expr_stmt, 1);
    reveal_with_fuel(sp_expression, 1);
    lemma_sp_expression(toks, i, 0);
}

pub proof fn lemma_sp_statement(toks: Seq<TokenView>, i: int)
    requires
        wf_tokens(toks),
        0 <= i < toks.len(),
        !(tk(toks, i) is Eof),
    ensures
        i <= sp_statement(toks, i).1 < toks.len(),
    decreases toks.len() - i, 4int,
{
    reveal_with_fuel(sp_statement, 1);
    reveal_with_fuel(sp_let, 1);
    reveal_with_fuel(sp_return, 1);
    reveal_with_fuel(sp_expr_stmt, 1);
    match tk(toks, i) {
        TokenView::Let => lemma_sp_let(toks, i),
        TokenView::Return => lemma_sp_return(toks, i),
        _ => lemma_sp_expr_stmt(toks, i),
    }
}

pub proof fn lemma_sp_stmts(toks: Seq<TokenView>, i: int, in_block: bool)
    requires
        wf_tokens(toks),
        0 <= i <= toks.len(),
    ensures
        0 <= sp_stmts(toks, i, in_block).1 < toks.len(),
        i < toks.len() ==> i <= sp_stmts(toks, i, in_block).1,
    decreases toks.len() - i, 5int,
{
    reveal_with_fuel(sp_stmts, 1);
    reveal_with_fuel(sp_statement, 1);
    reveal_with_fuel(sp_boundary, 1);
    if i == toks.len() {
        assert(sp_stmts(toks, i, in_block).1 == clamp_idx(toks, i, 0));
    } else if tk(toks, i) is Eof || (in_block && tk(toks, i) is RBrace) {
    } else {
        lemma_sp_statement(toks, i);
        let (st, j, errs) = sp_statement(toks, i);
        if st is Some {
            assert(clamp_idx(toks, j, i) == j);
            lemma_sp_stmts(toks, j + 1, in_block);
        } else {
            assert(clamp_idx(toks, j, i) == j);
            lemma_sp_boundary(toks, j);
            let b = sp_boundary(toks, j);
            assert(clamp_idx(toks, b, i) == b);
            let nraw = if in_block {
                if tk(toks, b) is SemiColon {
                    b + 1
                } else {
                    b
                }
            } else {
                if tk(toks, b) is Eof {
                    b
                } else {
                    b + 1
                }
            };
            let n = if nraw < i + 1 {
                i + 1
            } else {
                nraw
            };
            lemma_sp_stmts(toks, n, in_block);
        }
    }
}

/// One unfolding step of `sp_statement`, as an equation over the otherwise
/// opaque definitions: callers get the dispatch on the current token without
/// carrying the whole family's bodies into their own proofs.
pub proof fn lemma_sp_statement_unfold(toks: Seq<TokenView>, i: int)
    ensures
        sp_statement(toks, i) == (match tk(toks, i) {
            TokenView::Let => sp_let(toks, i),
            TokenView::Return => sp_return(toks, i),
            _ => sp_expr_stmt(toks, i),
        }),
{
    reveal_with_fuel(sp_statement, 1);
    reveal_with_fuel(sp_let, 1);
    reveal_with_fuel(sp_return, 1);
    reveal_with_fuel(sp_expr_stmt, 1);
}

/// One unfolding step of `sp_let`.
pub proof fn lemma_sp_let_unfold(toks: Seq<TokenView>, i: int)
    requires
        0 <= i < toks.len(),
    ensures
        sp_let(toks, i) == (match tk(toks, i + 1) {
            TokenView::Ident(name) => {
                if tk(toks, i + 2) is Assign {
                    let (value, j, errs) = sp_expression(toks, i + 3, 0);
                    match value {
                        Some(v) => {
                            let end = if tk(toks, j + 1) is SemiColon {
                                j + 1
                            } else {
                                j
                            };
                            (Some(StmtView::Let { name, value: v }), end, errs)
                        },
                        None => (None, j, errs),
                    }
                } else {
                    (
                        None,
                        i + 1,
                        seq![spec_peek_error(TokenType::Assign, tk(toks, i + 2))],
                    )
                }
            },
            _ => (None, i, seq![spec_peek_error(TokenType::Ident, tk(toks, i + 1))]),
        }),
{
    reveal_with_fuel(sp_let, 1);
    reveal_with_fuel(sp_expression, 1);
}

/// One unfolding step of `sp_return`.
pub proof fn lemma_sp_return_unfold(toks: Seq<TokenView>, i: int)
    requires
        0 <= i < toks.len(),
    ensures
        ({
            let (value, j, errs) = sp_expression(toks, i + 1, 0);
            sp_return(toks, i) == (match value {
                Some(v) => {
                    let end = if tk(toks, j + 1) is SemiColon {
                        j + 1
                    } else {
                        j
                    };
                    (Some(StmtView::Return { value: v }), end, errs)
                },
                None => (None, j, errs),
            })
        }),
{
    reveal_with_fuel(sp_return, 1);
    reveal_with_fuel(sp_expression, 1);
}

/// One unfolding step of `sp_expr_stmt`.
pub proof fn lemma_sp_expr_stmt_unfold(toks: Seq<TokenView>, i: int)
    requires
        0 <= i < toks.len(),
    ensures
        ({
            let (value, j, errs) = sp_expression(toks, i, 0);
            sp_expr_stmt(toks, i) == (match value {
                Some(v) => {
                    let end = if tk(toks, j + 1) is SemiColon {
                        j + 1
                    } else {
                        j
                    };
                    (Some(StmtView::Expression { value: v }), end, errs)
                },
                None => (None, j, errs),
            })
        }),
{
    reveal_with_fuel(sp_expr_stmt, 1);
    reveal_with_fuel(sp_expression, 1);
}

/// One unfolding step of `sp_stmts`. Past the stream's end — where the
/// statement loop can stand only after a statement that consumed the end
/// marker, inside an unterminated block — the loop yields nothing and rests
/// on the stream's last position.
pub proof fn lemma_sp_stmts_unfold(toks: Seq<TokenView>, i: int, in_block: bool)
    requires
        0 <= i <= toks.len(),
    ensures
        sp_stmts(toks, i, in_block) == (if i == toks.len() {
            (seq![], clamp_idx(toks, i, 0), seq![])
        } else if tk(toks, i) is Eof || (in_block && tk(toks, i) is RBrace) {
            (seq![], i, seq![])
        } else {
            let (st, j, errs) = sp_statement(toks, i);
            match st {
                Some(stmt) => {
                    let jc = clamp_idx(toks, j, i);
                    let (ss, k, errs2) = sp_stmts(toks, jc + 1, in_block);
                    (seq![stmt] + ss, k, errs + errs2)
                },
                None => {
                    let b = clamp_idx(toks, sp_boundary(toks, clamp_idx(toks, j, i)), i);
                    let nraw = if in_block {
                        if tk(toks, b) is SemiColon {
                            b + 1
                        } else {
                            b
                        }
                    } else {
                        if tk(toks, b) is Eof {
                            b
                        } else {
                            b + 1
                        }
                    };
                    let n = if nraw < i + 1 {
                        i + 1
                    } else {
                        nraw
                    };
                    let (ss, k, errs2) = sp_stmts(toks, n, in_block);
                    (ss, k, errs + errs2)
                },
            }
        }),
{
    reveal_with_fuel(sp_stmts, 1);
    reveal_with_fuel(sp_statement, 1);
    reveal_with_fuel(sp_boundary, 1);
}

/// The expression view a single identifier or integer-literal token parses
/// to.
pub open spec fn atom_view(v: TokenView) -> ExprView {
    match v {
        TokenView::Ident(s) => ExprView::Identifier(s),
        TokenView::Int(s) => ExprView::IntegerLiteral(s),
        _ => ExprView::BooleanLiteral(false),
    }
}

/// An identifier or integer literal standing alone — with nothing after it
/// that binds more tightly than the surrounding context — parses to its leaf
/// node, consuming just itself and raising no error.
pub proof fn lemma_sp_expression_atom(toks: Seq<TokenView>, i: int, minp: int)
    requires
        0 <= i < toks.len(),
        0 <= minp,
        tk(toks, i) is Ident || tk(toks, i) is Int,
        spec_infix_precedence(tk(toks, i + 1)) <= minp,
    ensures
        sp_expression(toks, i, minp) == (Some(atom_view(tk(toks, i))), i, Seq::<Seq<char>>::empty()),
{
    reveal_with_fuel(sp_expression, 1);
    reveal_with_fuel(sp_infix_climb, 1);
    reveal_with_fuel(sp_prefix_operator, 1);
    reveal_with_fuel(sp_if, 1);
    reveal_with_fuel(sp_function, 1);
    reveal_with_fuel(sp_call_args, 1);
    let left = atom_view(tk(toks, i));
    assert(sp_expression(toks, i, minp) == sp_infix_climb(toks, i, left, minp));
    assert(sp_infix_climb(toks, i, left, minp) == (Some(left), i, Seq::<Seq<char>>::empty()));
}

/// For every well-formed `let <ident> = <value>;` token stream whose value is
/// a single identifier or integer literal, the parse yields exactly one `Let`
/// statement, bound to exactly that identifier and that value, with an empty
/// error list — and the statement's rendering reproduces the statement as
/// `let <ident> = <value>;`.
pub proof fn lemma_let_statement_parses(x: Seq<char>, v: TokenView)
    requires
        v is Ident || v is Int,
    ensures
        ({
            let toks = seq![
                TokenView::Let,
                TokenView::Ident(x),
                TokenView::Assign,
                v,
                TokenView::SemiColon,
                TokenView::Eof,
            ];
            &&& sp_program(toks).0 == seq![StmtView::Let { name: x, value: atom_view(v) }]
            &&& sp_program(toks).1 == Seq::<Seq<char>>::empty()
            &&& render_stmt(sp_program(toks).0[0]) == "let "@ + x + " = "@ + spec_token_string(v)
                + ";"@
        }),
{
    let toks = seq![
        TokenView::Let,
        TokenView::Ident(x),
        TokenView::Assign,
        v,
        TokenView::SemiColon,
        TokenView::Eof,
    ];
    lemma_sp_stmts_unfold(toks, 0, false);
    lemma_sp_statement_unfold(toks, 0);
    lemma_sp_let_unfold(toks, 0);
    lemma_sp_expression_atom(toks, 3, 0);
    assert(sp_let(toks, 0) == (
        Some(StmtView::Let { name: x, value: atom_view(v) }),
        4int,
        Seq::<Seq<char>>::empty(),
    ));
    assert(clamp_idx(toks, 4, 0) == 4);
    lemma_sp_stmts_unfold(toks, 5, false);
    assert(sp_stmts(toks, 0, false).0 =~= seq![StmtView::Let { name: x, value: atom_view(v) }]);
    assert(sp_stmts(toks, 0, false).1 == 5);
    assert(sp_stmts(toks, 0, false).2 =~= Seq::<Seq<char>>::empty());
}

/// For every well-formed `return <value>;` token stream whose value is a
/// single identifier or integer literal, the parse yields exactly one
/// `Return` statement holding that value, with an empty error list — and the
/// statement begins from the `return` keyword, which is its token literal.
pub proof fn lemma_return_statement_parses(v: TokenView)
    requires
        v is Ident || v is Int,
    ensures
        ({
            let toks = seq![TokenView::Return, v, TokenView::SemiColon, TokenView::Eof];
            &&& sp_program(toks).0 == seq![StmtView::Return { value: atom_view(v) }]
            &&& sp_program(toks).1 == Seq::<Seq<char>>::empty()
            &&& spec_stmt_token_literal(sp_program(toks).0[0]) == "return"@
        }),
{
    let toks = seq![TokenView::Return, v, TokenView::SemiColon, TokenView::Eof];
    lemma_sp_stmts_unfold(toks, 0, false);
    lemma_sp_statement_unfold(toks, 0);
    lemma_sp_return_unfold(toks, 0);
    lemma_sp_expression_atom(toks, 1, 0);
    assert(sp_return(toks, 0) == (
        Some(StmtView::Return { value: atom_view(v) }),
        2int,
        Seq::<Seq<char>>::empty(),
    ));
    assert(clamp_idx(toks, 2, 0) == 2);
    lemma_sp_stmts_unfold(toks, 3, false);
    assert(sp_stmts(toks, 0, false).0 =~= seq![StmtView::Return { value: atom_view(v) }]);
    assert(sp_stmts(toks, 0, false).2 =~= Seq::<Seq<char>>::empty());
}

/// End to end for one `let` statement: for every source text
/// `let <ident> = <int>;` — an identifier run that the keyword table does not
/// claim, then a decimal digit run — lexing and parsing yield exactly one
/// `Let` statement binding that identifier to that literal, with an empty
/// error list, and the statement renders back to exactly the source text.
pub proof fn lemma_let_source_parses(x: Seq<char>, n: Seq<char>)
    requires
        x.len() > 0,
        forall|k: int| 0 <= k < x.len() ==> is_letter_char(x[k]),
        spec_lookup_ident(x) == TokenView::Ident(x),
        n.len() > 0,
        forall|k: int| 0 <= k < n.len() ==> is_digit_char(n[k]),
    ensures
        ({
            let toks = tokens_from("let "@ + x + " = "@ + n + ";"@, 0);
            &&& sp_program(toks).0 == seq![
                StmtView::Let { name: x, value: ExprView::IntegerLiteral(n) },
            ]
            &&& sp_program(toks).1 == Seq::<Seq<char>>::empty()
            &&& render_stmt(sp_program(toks).0[0]) == "let "@ + x + " = "@ + n + ";"@
        }),
{
    lemma_let_source_tokens(x, n);
    lemma_let_statement_parses(x, TokenView::Int(n));
}

/// End to end for one `return` statement: for every source text
/// `return <int>;`, lexing and parsing yield exactly one `Return` statement
/// holding that literal, with an empty error list, and the statement's token
/// literal is the `return` keyword.
pub proof fn lemma_return_source_parses(n: Seq<char>)
    requires
        n.len() > 0,
        forall|k: int| 0 <= k < n.len() ==> is_digit_char(n[k]),
    ensures
        ({
            let toks = tokens_from("return "@ + n + ";"@, 0);
            &&& sp_program(toks).0 == seq![StmtView::Return { value: ExprView::IntegerLiteral(n) }]
            &&& sp_program(toks).1 == Seq::<Seq<char>>::empty()
            &&& spec_stmt_token_literal(sp_program(toks).0[0]) == "return"@
        }),
{
    lemma_return_source_tokens(n);
    lemma_return_statement_parses(TokenView::Int(n));
}

/// The prefix rule for an identifier token: the identifier expression made of
/// its text.
pub fn parse_identifier(cur_token: &Token) -> (e: Expression)
    requires
        cur_token@ is Ident,
    ensures
        e@ == ExprView::Identifier(cur_token@->Ident_0),
{
    match cur_token {
        Token::Ident(name) => Expression::Identifier(name.clone()),
        _ => unreached(),
    }
}

/// Parser state: the lexer it draws from, the two lookahead tokens, and the
/// errors collected so far. The ghost stream holds the view of every token
/// the lexer will ever produce, ending in the end-of-input marker; the ghost
/// cursor is the position of `cur_token` in it.
pub struct Parser {
    lexer: Lexer,
    cur_token: Token,
    peek_token: Token,
    errors: Vec<String>,
    toks: Ghost<Seq<TokenView>>,
    idx: Ghost<int>,
}

impl Parser {
    /// The token stream this parser consumes.
    pub closed spec fn stream(&self) -> Seq<TokenView> {
        self.toks@
    }

    /// The position of the current token in the stream.
    pub closed spec fn cursor(&self) -> int {
        self.idx@
    }

    /// The error messages collected so far.
    pub closed spec fn errs(&self) -> Seq<Seq<char>> {
        self.errors.deep_view()
    }

    /// The parser invariant: the ghost stream is well-formed, the cursor is
    /// in range, the two lookahead tokens are the stream's tokens at the
    /// cursor and after it, and — until the end marker has been pulled — the
    /// lexer stands exactly at the remainder of the stream.
    pub closed spec fn wf(&self) -> bool {
        &&& wf_tokens(self.toks@)
        &&& 0 <= self.idx@ <= self.toks@.len() - 1
        &&& self.cur_token@ == tk(self.toks@, self.idx@)
        &&& self.peek_token@ == tk(self.toks@, self.idx@ + 1)
        &&& self.lexer.wf()
        &&& !(self.peek_token@ is Eof) ==> tokens_from(
            self.lexer.input@,
            self.lexer.position as int,
        ) == self.toks@.skip(self.idx@ + 2)
    }

    /// Build a parser over the given lexer and pull the two lookahead tokens.
    pub fn new(l: Lexer) -> (p: Parser)
        requires
            l.wf(),
        ensures
            p.wf(),
            p.stream() == tokens_from(l.input@, l.position as int),
            p.cursor() == 0,
            p.errs() == Seq::<Seq<char>>::empty(),
    {
        let ghost toks = tokens_from(l.input@, l.position as int);
        proof {
            lemma_tokens_from_wf(l.input@, l.position as int);
            lemma_token_at_bounds(l.input@, l.position as int);
        }
        let ghost input = l.input@;
        let ghost pos0 = l.position as int;
        let mut lexer = l;
        let cur_token = lexer.next_token();
        let ghost pos1 = lexer.position as int;
        let peek_token = if cur_token.token_type() == TokenType::Eof {
            Token::Eof
        } else {
            proof {
                lemma_token_at_bounds(input, pos0);
                assert(toks == seq![cur_token@] + tokens_from(input, pos1));
            }
            lexer.next_token()
        };
        proof {
            if cur_token@ is Eof {
                assert(toks == seq![cur_token@]);
            } else {
                lemma_token_at_bounds(input, pos0);
                let rest = tokens_from(input, pos1);
                assert(toks == seq![cur_token@] + rest);
                assert(toks[0] == cur_token@);
                assert(rest == seq![peek_token@] + tokens_from(input, lexer.position as int)
                    || (peek_token@ is Eof && rest == seq![peek_token@]));
                assert(toks[1] == rest[0]);
                if !(peek_token@ is Eof) {
                    assert(toks.skip(2) =~= tokens_from(lexer.input@, lexer.position as int));
                }
            }
        }
        let p = Parser {
            lexer,
            cur_token,
            peek_token,
            errors: Vec::new(),
            toks: Ghost(toks),
            idx: Ghost(0),
        };
        proof {
            assert(p.errors.deep_view() =~= Seq::<Seq<char>>::empty());
        }
        p
    }

    /// Shift the lookahead window: the peek token becomes current and a fresh
    /// token is pulled from the lexer. Once the end marker is the peek token
    /// nothing more is pulled: the scanner would only repeat the marker
    /// (`lemma_eof_idempotent`), and the cursor stays on the stream's last
    /// position.
    fn next_token(&mut self)
        requires
            old(self).wf(),
        ensures
            final(self).wf(),
            final(self).toks == old(self).toks,
            final(self).errors == old(self).errors,
            final(self).idx@ == (if old(self).idx@ + 1 <= old(self).toks@.len() - 1 {
                old(self).idx@ + 1
            } else {
                old(self).toks@.len() - 1
            }),
    {
        let ghost toks = self.toks@;
        let ghost i0 = self.idx@;
        let ghost input = self.lexer.input@;
        let ghost pos0 = self.lexer.position as int;
        let peek_is_eof = self.peek_token.token_type() == TokenType::Eof;
        let fresh = if peek_is_eof {
            Token::Eof
        } else {
            proof {
                lemma_token_at_bounds(self.lexer.input@, self.lexer.position as int);
            }
            self.lexer.next_token()
        };
        core::mem::swap(&mut self.cur_token, &mut self.peek_token);
        self.peek_token = fresh;
        let ghost new_idx = if self.idx@ + 1 <= self.toks@.len() - 1 {
            self.idx@ + 1
        } else {
            self.toks@.len() - 1
        };
        self.idx = Ghost(new_idx);
        proof {
            if !peek_is_eof {
                let np = self.lexer.position as int;
                // The old peek token is not the end marker, so it sits before
                // the stream's last position and the lexer stood at the rest
                // of the stream.
                assert(tk(toks, i0 + 1) == toks[i0 + 1]);
                assert(i0 + 1 < toks.len() - 1);
                assert(new_idx == i0 + 1);
                let rest = tokens_from(input, pos0);
                assert(rest == toks.skip(i0 + 2));
                assert(rest == seq![fresh@] + tokens_from(input, np) || (fresh@ is Eof && rest
                    == seq![fresh@]));
                assert(toks.skip(i0 + 2)[0] == toks[i0 + 2]);
                assert(self.peek_token@ == tk(toks, new_idx + 1));
                if !(self.peek_token@ is Eof) {
                    let tail = tokens_from(input, np);
                    assert(rest.len() == 1 + tail.len());
                    assert forall|k: int| 0 <= k < tail.len() implies toks.skip(i0 + 3)[k]
                        == tail[k] by {
                        assert(tail[k] == rest[k + 1]);
                        assert(rest[k + 1] == toks.skip(i0 + 2)[k + 1]);
                        assert(toks.skip(i0 + 2)[k + 1] == toks[i0 + 3 + k]);
                    }
                    assert(toks.skip(i0 + 3) =~= tail);
                }
            }
        }
    }

    /// Whether the current token has the given kind.
    fn cur_token_is(&self, t: TokenType) -> (r: bool)
        requires
            self.wf(),
        ensures
            r == (spec_token_type(tk(self.toks@, self.idx@)) == t),
    {
        self.cur_token.token_type() == t
    }

    /// Whether the peek token has the given kind.
    fn peek_token_is(&self, t: TokenType) -> (r: bool)
        requires
            self.wf(),
        ensures
            r == (spec_token_type(tk(self.toks@, self.idx@ + 1)) == t),
    {
        self.peek_token.token_type() == t
    }

    /// The infix precedence of a token.
    fn token_precedence(t: &Token) -> (r: u8)
        ensures
            r as int == spec_infix_precedence(t@),
    {
        match t {
            Token::Eq => 1,
            Token::NotEq => 1,
            Token::Lt => 2,
            Token::Gt => 2,
            Token::Plus => 3,
            Token::Minus => 3,
            Token::Asterisk => 4,
            Token::Slash => 4,
            Token::LParen => 6,
            _ => 0,
        }
    }

    /// The infix precedence of the peek token.
    fn peek_precedence(&self) -> (r: u8)
        requires
            self.wf(),
        ensures
            r as int == spec_infix_precedence(tk(self.toks@, self.idx@ + 1)),
    {
        Self::token_precedence(&self.peek_token)
    }

    /// The infix precedence of the current token.
    fn cur_precedence(&self) -> (r: u8)
        requires
            self.wf(),
        ensures
            r as int == spec_infix_precedence(tk(self.toks@, self.idx@)),
    {
        Self::token_precedence(&self.cur_token)
    }

    /// Record that the peek token does not have the kind the grammar demands.
    fn peek_error(&mut self, t: TokenType)
        requires
            old(self).wf(),
        ensures
            final(self).wf(),
            final(self).toks == old(self).toks,
            final(self).idx == old(self).idx,
            final(self).errors.deep_view() == old(self).errors.deep_view() + seq![
                spec_peek_error(t, tk(old(self).toks@, old(self).idx@ + 1)),
            ],
    {
        let mut msg = String::from_str("expected next token to be ");
        let expected = t.name();
        msg.append(expected.as_str());
        msg.append(", got ");
        let got = Token::name(&self.peek_token);
        msg.append(got.as_str());
        msg.append(" instead");
        self.errors.push(msg);
        proof {
            assert(self.errors.deep_view() =~= old(self).errors.deep_view() + seq![
                spec_peek_error(t, tk(old(self).toks@, old(self).idx@ + 1)),
            ]);
        }
    }

    /// Record that no prefix rule exists for the current token.
    fn no_prefix_error(&mut self)
        requires
            old(self).wf(),
        ensures
            final(self).wf(),
            final(self).toks == old(self).toks,
            final(self).idx == old(self).idx,
            final(self).errors.deep_view() == old(self).errors.deep_view() + seq![
                spec_no_prefix_error(tk(old(self).toks@, old(self).idx@)),
            ],
    {
        let mut msg = String::from_str("no prefix parse function for ");
        let got = Token::name(&self.cur_token);
        msg.append(got.as_str());
        msg.append(" found");
        self.errors.push(msg);
        proof {
            assert(self.errors.deep_view() =~= old(self).errors.deep_view() + seq![
                spec_no_prefix_error(tk(old(self).toks@, old(self).idx@)),
            ]);
        }
    }

    /// If the peek token has the demanded kind, advance onto it; otherwise
    /// record the mismatch and stay put.
    fn expect_peek(&mut self, t: TokenType) -> (r: bool)
        requires
            old(self).wf(),
        ensures
            final(self).wf(),
            final(self).toks == old(self).toks,
            r == (spec_token_type(tk(old(self).toks@, old(self).idx@ + 1)) == t),
            r ==> final(self).idx@ == (if old(self).idx@ + 1 <= old(self).toks@.len() - 1 {
                old(self).idx@ + 1
            } else {
                old(self).toks@.len() - 1
            }) && final(self).errors == old(self).errors,
            !r ==> final(self).idx == old(self).idx && final(self).errors.deep_view() == old(
                self,
            ).errors.deep_view() + seq![spec_peek_error(t, tk(old(self).toks@, old(self).idx@ + 1))],
    {
        if self.peek_token_is(t) {
            self.next_token();
            true
        } else {
            self.peek_error(t);
            false
        }
    }

    /// Advance to the next statement boundary: the next semicolon, closing
    /// brace or end of input, from which the statement loop resumes after a
    /// failed statement.
    fn recover_to_boundary(&mut self)
        requires
            old(self).wf(),
        ensures
            final(self).wf(),
            final(self).toks == old(self).toks,
            final(self).errors == old(self).errors,
            final(self).idx@ == sp_boundary(old(self).toks@, old(self).idx@),
    {
        reveal_with_fuel(sp_boundary, 1);
        while !(self.cur_token_is(TokenType::SemiColon) || self.cur_token_is(TokenType::RBrace)
            || self.cur_token_is(TokenType::Eof))
            invariant
                self.wf(),
                self.toks == old(self).toks,
                self.errors == old(self).errors,
                sp_boundary(self.toks@, self.idx@) == sp_boundary(old(self).toks@, old(self).idx@),
            decreases self.toks@.len() - self.idx@,
        {
            reveal_with_fuel(sp_boundary, 1);
            self.next_token();
        }
    }

    /// Run the whole parse: every statement until the end of the input, with
    /// the collected error messages.
    pub fn parse_program(self) -> (r: (Program, Vec<String>))
        requires
            self.wf(),
        ensures
            ({
                let (ss, k, es) = sp_stmts(self.stream(), self.cursor(), false);
                &&& r.0@ == ss
                &&& r.1.deep_view() == self.errs() + es
            }),
    {
        let ghost toks = self.toks@;
        let ghost i0 = self.idx@;
        let mut this = self;
        let mut statements: Vec<Statement> = Vec::new();
        proof {
            assert(stmts_view(statements@) =~= Seq::<StmtView>::empty());
        }
        this.parse_statements(&mut statements, false);
        proof {
            let (ss, k, es) = sp_stmts(toks, i0, false);
            assert(stmts_view(statements@) =~= Seq::<StmtView>::empty() + ss);
        }
        (Program { statements }, this.errors)
    }

    /// The statement loop shared by the program and by blocks: parse
    /// statements until the end of the input — or, inside a block, the
    /// closing brace — appending those that parse to `out` and recovering
    /// past the next statement boundary from those that do not.
    #[verifier::rlimit(100)]
    fn parse_statements(&mut self, out: &mut Vec<Statement>, in_block: bool)
        requires
            old(self).wf(),
        ensures
            final(self).wf(),
            final(self).toks == old(self).toks,
            ({
                let (ss, k, es) = sp_stmts(old(self).toks@, old(self).idx@, in_block);
                &&& final(self).idx@ == k
                &&& stmts_view(final(out)@) == stmts_view(old(out)@) + ss
                &&& final(self).errors.deep_view() == old(self).errors.deep_view() + es
            }),
        decreases old(self).toks@.len() - old(self).idx@, 6int,
    {
        proof {
            lemma_sp_stmts_unfold(self.toks@, self.idx@, in_block);
        }
        let ghost toks = self.toks@;
        let ghost i0 = self.idx@;
        let tt = self.cur_token.token_type();
        if tt == TokenType::Eof || (in_block && tt == TokenType::RBrace) {
            proof {
                assert(stmts_view(out@) =~= stmts_view(out@) + Seq::<StmtView>::empty());
                assert(self.errors.deep_view() =~= self.errors.deep_view() + Seq::<
                    Seq<char>,
                >::empty());
            }
            return ;
        }
        let st = self.parse_statement();
        proof {
            lemma_sp_statement(toks, i0);
        }
        match st {
            Some(s) => {
                let ghost j = self.idx@;
                proof {
                    assert(clamp_idx(toks, j, i0) == j);
                }
                out.push(s);
                proof {
                    assert(out@.drop_last() =~= old(out)@);
                    assert(stmts_view(out@) == stmts_view(old(out)@).push(s@));
                }
                self.next_token();
                let ghost njdx = self.idx@;
                self.parse_statements(out, in_block);
                proof {
                    if j + 1 != njdx {
                        // The statement consumed the end marker (an
                        // unterminated block): the position past it and the
                        // stream's last position both yield the empty tail.
                        lemma_sp_stmts_unfold(toks, j + 1, in_block);
                        lemma_sp_stmts_unfold(toks, njdx, in_block);
                        assert(sp_stmts(toks, j + 1, in_block) == sp_stmts(toks, njdx, in_block));
                    }
                    let (ss, k, es2) = sp_stmts(toks, j + 1, in_block);
                    assert(stmts_view(final(out)@) =~= stmts_view(old(out)@) + (seq![s@] + ss));
                    let (ss0, k0, es0) = sp_stmts(toks, i0, in_block);
                    assert(final(self).errors.deep_view() =~= old(self).errors.deep_view() + es0);
                }
            },
            None => {
                let ghost j = self.idx@;
                proof {
                    assert(clamp_idx(toks, j, i0) == j);
                    lemma_sp_boundary(toks, j);
                }
                self.recover_to_boundary();
                let ghost b = self.idx@;
                proof {
                    assert(clamp_idx(toks, b, i0) == b);
                }
                if in_block {
                    if self.cur_token_is(TokenType::SemiColon) {
                        self.next_token();
                    }
                } else {
                    if !self.cur_token_is(TokenType::Eof) {
                        self.next_token();
                    }
                }
                proof {
                    assert(self.idx@ >= i0 + 1);
                }
                self.parse_statements(out, in_block);
                proof {
                    let (ss0, k0, es0) = sp_stmts(toks, i0, in_block);
                    assert(final(self).errors.deep_view() =~= old(self).errors.deep_view() + es0);
                }
            },
        }
    }

    /// One statement, dispatched on the current token.
    #[verifier::rlimit(100)]
    fn parse_statement(&mut self) -> (r: Option<Statement>)
        requires
            old(self).wf(),
        ensures
            final(self).wf(),
            final(self).toks == old(self).toks,
            ({
                let (sv, j, es) = sp_statement(old(self).toks@, old(self).idx@);
                &&& final(self).idx@ == j
                &&& (match r {
                    Some(st) => sv == Some(st@),
                    None => sv is None,
                })
                &&& final(self).errors.deep_view() == old(self).errors.deep_view() + es
            }),
        decreases old(self).toks@.len() - old(self).idx@, 5int,
    {
        proof {
            lemma_sp_statement_unfold(self.toks@, self.idx@);
        }
        let tt = self.cur_token.token_type();
        if tt == TokenType::Let {
            self.parse_let_statement()
        } else if tt == TokenType::Return {
            self.parse_return_statement()
        } else {
            self.parse_expression_statement()
        }
    }

    /// A `let` statement: the identifier is demanded after the keyword, `=`
    /// after the identifier, then the bound value as an expression, then an
    /// optional semicolon. A failed expectation records its error and drops
    /// the statement.
    #[verifier::rlimit(60)]
    fn parse_let_statement(&mut self) -> (r: Option<Statement>)
        requires
            old(self).wf(),
        ensures
            final(self).wf(),
            final(self).toks == old(self).toks,
            ({
                let (sv, j, es) = sp_let(old(self).toks@, old(self).idx@);
                &&& final(self).idx@ == j
                &&& (match r {
                    Some(st) => sv == Some(st@),
                    None => sv is None,
                })
                &&& final(self).errors.deep_view() == old(self).errors.deep_view() + es
            }),
        decreases old(self).toks@.len() - old(self).idx@, 4int,
    {
        proof {
            lemma_sp_let_unfold(self.toks@, self.idx@);
        }
        let ghost toks = self.toks@;
        let ghost i0 = self.idx@;
        if !self.expect_peek(TokenType::Ident) {
            return None;
        }
        let identifier = self.cur_token.duplicate();
        if !self.expect_peek(TokenType::Assign) {
            return None;
        }
        self.next_token();
        let value = match self.parse_expression(Precedence::LOWEST) {
            Some(v) => v,
            None => {
                return None;
            },
        };
        proof {
            lemma_sp_expression(toks, i0 + 3, 0);
        }
        if self.peek_token_is(TokenType::SemiColon) {
            self.next_token();
        }
        Some(Statement::Let { identifier, value })
    }

    /// A `return` statement: the keyword, the returned value as an
    /// expression, then an optional semicolon.
    #[verifier::rlimit(100)]
    fn parse_return_statement(&mut self) -> (r: Option<Statement>)
        requires
            old(self).wf(),
            tk(old(self).toks@, old(self).idx@) is Return,
        ensures
            final(self).wf(),
            final(self).toks == old(self).toks,
            ({
                let (sv, j, es) = sp_return(old(self).toks@, old(self).idx@);
                &&& final(self).idx@ == j
                &&& (match r {
                    Some(st) => sv == Some(st@),
                    None => sv is None,
                })
                &&& final(self).errors.deep_view() == old(self).errors.deep_view() + es
            }),
        decreases old(self).toks@.len() - old(self).idx@, 4int,
    {
        proof {
            lemma_sp_return_unfold(self.toks@, self.idx@);
        }
        let ghost toks = self.toks@;
        let ghost i0 = self.idx@;
        self.next_token();
        let value = match self.parse_expression(Precedence::LOWEST) {
            Some(v) => v,
            None => {
                return None;
            },
        };
        proof {
            lemma_sp_expression(toks, i0 + 1, 0);
        }
        if self.peek_token_is(TokenType::SemiColon) {
            self.next_token();
        }
        Some(Statement::Return { value })
    }

    /// An expression statement: an expression at the lowest level, then an
    /// optional semicolon.
    #[verifier::rlimit(100)]
    fn parse_expression_statement(&mut self) -> (r: Option<Statement>)
        requires
            old(self).wf(),
        ensures
            final(self).wf(),
            final(self).toks == old(self).toks,
            ({
                let (sv, j, es) = sp_expr_stmt(old(self).toks@, old(self).idx@);
                &&& final(self).idx@ == j
                &&& (match r {
                    Some(st) => sv == Some(st@),
                    None => sv is None,
                })
                &&& final(self).errors.deep_view() == old(self).errors.deep_view() + es
            }),
        decreases old(self).toks@.len() - old(self).idx@, 4int,
    {
        proof {
            lemma_sp_expr_stmt_unfold(self.toks@, self.idx@);
        }
        let ghost toks = self.toks@;
        let ghost i0 = self.idx@;
        let value = match self.parse_expression(Precedence::LOWEST) {
            Some(v) => v,
            None => {
                return None;
            },
        };
        proof {
            lemma_sp_expression(toks, i0, 0);
        }
        if self.peek_token_is(TokenType::SemiColon) {
            self.next_token();
        }
        Some(Statement::Expression { expression: value })
    }

    /// Parse one expression starting at the current token, binding at least
    /// as tightly as the given precedence level.
    pub fn parse_expression(&mut self, precedence: Precedence) -> (r: Option<Expression>)
        requires
            old(self).wf(),
        ensures
            final(self).wf(),
            final(self).stream() == old(self).stream(),
            ({
                let (ev, j, es) = sp_expression(
                    old(self).stream(),
                    old(self).cursor(),
                    precedence.spec_rank(),
                );
                &&& final(self).cursor() == j
                &&& (match r {
                    Some(e) => ev == Some(e@),
                    None => ev is None,
                })
                &&& final(self).errs() == old(self).errs() + es
            }),
        decreases old(self).stream().len() - old(self).cursor(), 3int,
    {
        let rank = precedence.rank();
        self.parse_expression_rank(rank)
    }

    /// The expression parser proper, over the numeric rank of the minimum
    /// precedence: dispatch the current token to its prefix rule, then let
    /// the climb extend the result.
    #[verifier::rlimit(60)]
    fn parse_expression_rank(&mut self, min_rank: u8) -> (r: Option<Expression>)
        requires
            old(self).wf(),
        ensures
            final(self).wf(),
            final(self).toks == old(self).toks,
            ({
                let (ev, j, es) = sp_expression(old(self).toks@, old(self).idx@, min_rank as int);
                &&& final(self).idx@ == j
                &&& (match r {
                    Some(e) => ev == Some(e@),
                    None => ev is None,
                })
                &&& final(self).errors.deep_view() == old(self).errors.deep_view() + es
            }),
        decreases old(self).toks@.len() - old(self).idx@, 2int,
    {
        reveal_with_fuel(sp_expression, 1);
        reveal_with_fuel(sp_infix_climb, 1);
        reveal_with_fuel(sp_prefix_operator, 1);
        reveal_with_fuel(sp_if, 1);
        reveal_with_fuel(sp_function, 1);
        let ghost toks = self.toks@;
        let ghost i0 = self.idx@;
        let tt = self.cur_token.token_type();
        if tt == TokenType::Ident {
            let left = parse_identifier(&self.cur_token);
            self.parse_infix_climb(left, min_rank)
        } else if tt == TokenType::Int {
            let text = match &self.cur_token {
                Token::Int(s) => s.clone(),
                _ => unreached(),
            };
            self.parse_infix_climb(Expression::IntegerLiteral(text), min_rank)
        } else if tt == TokenType::True {
            self.parse_infix_climb(Expression::BooleanLiteral(true), min_rank)
        } else if tt == TokenType::False {
            self.parse_infix_climb(Expression::BooleanLiteral(false), min_rank)
        } else if tt == TokenType::Bang || tt == TokenType::Minus {
            self.parse_prefix_expression(min_rank)
        } else if tt == TokenType::LParen {
            self.next_token();
            let inner = match self.parse_expression(Precedence::LOWEST) {
                Some(e) => e,
                None => {
                    return None;
                },
            };
            proof {
                lemma_sp_expression(toks, i0 + 1, 0);
            }
            if !self.expect_peek(TokenType::RParen) {
                return None;
            }
            self.parse_infix_climb(inner, min_rank)
        } else if tt == TokenType::If {
            let e = match self.parse_if_expression() {
                Some(e) => e,
                None => {
                    return None;
                },
            };
            proof {
                lemma_sp_if(toks, i0);
            }
            self.parse_infix_climb(e, min_rank)
        } else if tt == TokenType::Function {
            let e = match self.parse_function_literal() {
                Some(e) => e,
                None => {
                    return None;
                },
            };
            proof {
                lemma_sp_function(toks, i0);
            }
            self.parse_infix_climb(e, min_rank)
        } else {
            self.no_prefix_error();
            None
        }
    }

    /// The prefix rules for `!` and `-`: keep the operator token, parse the
    /// operand at the prefix level, then climb.
    fn parse_prefix_expression(&mut self, min_rank: u8) -> (r: Option<Expression>)
        requires
            old(self).wf(),
            !(tk(old(self).toks@, old(self).idx@) is Eof),
        ensures
            final(self).wf(),
            final(self).toks == old(self).toks,
            ({
                let (ev, j, es) = sp_prefix_operator(
                    old(self).toks@,
                    old(self).idx@,
                    min_rank as int,
                );
                &&& final(self).idx@ == j
                &&& (match r {
                    Some(e) => ev == Some(e@),
                    None => ev is None,
                })
                &&& final(self).errors.deep_view() == old(self).errors.deep_view() + es
            }),
        decreases old(self).toks@.len() - old(self).idx@, 1int,
    {
        reveal_with_fuel(sp_prefix_operator, 1);
        reveal_with_fuel(sp_expression, 1);
        reveal_with_fuel(sp_infix_climb, 1);
        let ghost toks = self.toks@;
        let ghost i0 = self.idx@;
        let operator = self.cur_token.duplicate();
        self.next_token();
        let operand = match self.parse_expression(Precedence::PREFIX) {
            Some(e) => e,
            None => {
                return None;
            },
        };
        proof {
            lemma_sp_expression(toks, i0 + 1, 5);
        }
        let node = Expression::PrefixExpression { operator, operand: Box::new(operand) };
        self.parse_infix_climb(node, min_rank)
    }

    /// The climb: while the peek token binds more tightly than `min_rank`,
    /// fold the expression built so far into a call (when the peek token is
    /// `(`) or into an infix node, and carry on with the new left-hand side.
    #[verifier::rlimit(60)]
    fn parse_infix_climb(&mut self, left: Expression, min_rank: u8) -> (r: Option<Expression>)
        requires
            old(self).wf(),
        ensures
            final(self).wf(),
            final(self).toks == old(self).toks,
            ({
                let (ev, j, es) = sp_infix_climb(
                    old(self).toks@,
                    old(self).idx@,
                    left@,
                    min_rank as int,
                );
                &&& final(self).idx@ == j
                &&& (match r {
                    Some(e) => ev == Some(e@),
                    None => ev is None,
                })
                &&& final(self).errors.deep_view() == old(self).errors.deep_view() + es
            }),
        decreases old(self).toks@.len() - old(self).idx@, 0int,
    {
        reveal_with_fuel(sp_infix_climb, 1);
        reveal_with_fuel(sp_call_args, 1);
        reveal_with_fuel(sp_expression, 1);
        let ghost toks = self.toks@;
        let ghost i0 = self.idx@;
        let pr = self.peek_precedence();
        if pr > min_rank {
            if self.peek_token_is(TokenType::LParen) {
                self.next_token();
                let args = match self.parse_call_arguments() {
                    Some(a) => a,
                    None => {
                        return None;
                    },
                };
                proof {
                    lemma_sp_call_args(toks, i0 + 1);
                }
                let node = Expression::CallExpression {
                    function: Box::new(left),
                    arguments: args,
                };
                self.parse_infix_climb(node, min_rank)
            } else {
                self.next_token();
                let operator = self.cur_token.duplicate();
                let op_rank = self.cur_precedence();
                self.next_token();
                let rhs = match self.parse_expression_rank(op_rank) {
                    Some(e) => e,
                    None => {
                        return None;
                    },
                };
                proof {
                    lemma_sp_expression(toks, i0 + 2, op_rank as int);
                }
                let node = Expression::InfixExpression {
                    operator,
                    left: Box::new(left),
                    right: Box::new(rhs),
                };
                self.parse_infix_climb(node, min_rank)
            }
        } else {
            proof {
                assert(self.errors.deep_view() =~= self.errors.deep_view() + Seq::<
                    Seq<char>,
                >::empty());
            }
            Some(left)
        }
    }

    /// A call's argument list, the current token being the opening
    /// parenthesis; on success the current token ends on the closing one.
    #[verifier::rlimit(60)]
    fn parse_call_arguments(&mut self) -> (r: Option<Vec<Expression>>)
        requires
            old(self).wf(),
            tk(old(self).toks@, old(self).idx@) is LParen,
        ensures
            final(self).wf(),
            final(self).toks == old(self).toks,
            ({
                let (av, j, es) = sp_call_args(old(self).toks@, old(self).idx@);
                &&& final(self).idx@ == j
                &&& (match r {
                    Some(v) => av == Some(exprs_view(v@)),
                    None => av is None,
                })
                &&& final(self).errors.deep_view() == old(self).errors.deep_view() + es
            }),
        decreases old(self).toks@.len() - old(self).idx@, 1int,
    {
        reveal_with_fuel(sp_call_args, 1);
        reveal_with_fuel(sp_expression, 1);
        reveal_with_fuel(sp_call_args_rest, 1);
        let ghost toks = self.toks@;
        let ghost i0 = self.idx@;
        if self.peek_token_is(TokenType::RParen) {
            self.next_token();
            let args: Vec<Expression> = Vec::new();
            proof {
                assert(exprs_view(args@) =~= Seq::<ExprView>::empty());
                assert(self.errors.deep_view() =~= self.errors.deep_view() + Seq::<
                    Seq<char>,
                >::empty());
            }
            return Some(args);
        }
        self.next_token();
        let first = match self.parse_expression(Precedence::LOWEST) {
            Some(e) => e,
            None => {
                return None;
            },
        };
        proof {
            lemma_sp_expression(toks, i0 + 1, 0);
        }
        let mut args: Vec<Expression> = Vec::new();
        args.push(first);
        proof {
            assert(args@.drop_last() =~= Seq::<Expression>::empty());
            assert(exprs_view(Seq::<Expression>::empty()) =~= Seq::<ExprView>::empty());
            assert(args@.last() == first);
            assert(exprs_view(args@) =~= seq![first@]);
        }
        if self.parse_call_arguments_rest(&mut args) {
            Some(args)
        } else {
            None
        }
    }

    /// The remaining arguments after one has been parsed: as long as a comma
    /// follows, consume it and parse the next argument; then demand the
    /// closing parenthesis.
    #[verifier::rlimit(60)]
    fn parse_call_arguments_rest(&mut self, args: &mut Vec<Expression>) -> (r: bool)
        requires
            old(self).wf(),
        ensures
            final(self).wf(),
            final(self).toks == old(self).toks,
            ({
                let (av, j, es) = sp_call_args_rest(
                    old(self).toks@,
                    old(self).idx@,
                    exprs_view(old(args)@),
                );
                &&& final(self).idx@ == j
                &&& (if r {
                    av == Some(exprs_view(final(args)@))
                } else {
                    av is None
                })
                &&& final(self).errors.deep_view() == old(self).errors.deep_view() + es
            }),
        decreases old(self).toks@.len() - old(self).idx@, 0int,
    {
        reveal_with_fuel(sp_call_args_rest, 1);
        reveal_with_fuel(sp_expression, 1);
        let ghost toks = self.toks@;
        let ghost i0 = self.idx@;
        if self.peek_token_is(TokenType::Comma) {
            self.next_token();
            self.next_token();
            let next = match self.parse_expression(Precedence::LOWEST) {
                Some(e) => e,
                None => {
                    return false;
                },
            };
            proof {
                lemma_sp_expression(toks, i0 + 2, 0);
            }
            args.push(next);
            proof {
                assert(args@.drop_last() =~= old(args)@);
                assert(exprs_view(args@) == exprs_view(old(args)@).push(next@));
            }
            self.parse_call_arguments_rest(args)
        } else if self.expect_peek(TokenType::RParen) {
            proof {
                assert(self.errors.deep_view() =~= self.errors.deep_view() + Seq::<
                    Seq<char>,
                >::empty());
            }
            true
        } else {
            false
        }
    }

    /// An `if` expression: the parenthesised condition, the consequence
    /// block, and an optional `else` block.
    #[verifier::rlimit(100)]
    fn parse_if_expression(&mut self) -> (r: Option<Expression>)
        requires
            old(self).wf(),
            !(tk(old(self).toks@, old(self).idx@) is Eof),
        ensures
            final(self).wf(),
            final(self).toks == old(self).toks,
            ({
                let (ev, j, es) = sp_if(old(self).toks@, old(self).idx@);
                &&& final(self).idx@ == j
                &&& (match r {
                    Some(e) => ev == Some(e@),
                    None => ev is None,
                })
                &&& final(self).errors.deep_view() == old(self).errors.deep_view() + es
            }),
        decreases old(self).toks@.len() - old(self).idx@, 0int,
    {
        reveal_with_fuel(sp_if, 1);
        reveal_with_fuel(sp_expression, 1);
        reveal_with_fuel(sp_block, 1);
        let ghost toks = self.toks@;
        let ghost i0 = self.idx@;
        if !self.expect_peek(TokenType::LParen) {
            return None;
        }
        self.next_token();
        let condition = match self.parse_expression(Precedence::LOWEST) {
            Some(c) => c,
            None => {
                return None;
            },
        };
        proof {
            lemma_sp_expression(toks, i0 + 2, 0);
        }
        if !self.expect_peek(TokenType::RParen) {
            return None;
        }
        if !self.expect_peek(TokenType::LBrace) {
            return None;
        }
        let ghost lb = self.idx@;
        let consequence = self.parse_block_statement();
        proof {
            lemma_sp_block(toks, lb);
        }
        if self.peek_token_is(TokenType::Else) {
            self.next_token();
            if !self.expect_peek(TokenType::LBrace) {
                return None;
            }
            let alternative = self.parse_block_statement();
            Some(Expression::IfExpression {
                condition: Box::new(condition),
                consequence,
                alternative: Some(alternative),
            })
        } else {
            Some(Expression::IfExpression {
                condition: Box::new(condition),
                consequence,
                alternative: None,
            })
        }
    }

    /// A function literal: the parenthesised parameter list, then the body
    /// block.
    #[verifier::rlimit(60)]
    fn parse_function_literal(&mut self) -> (r: Option<Expression>)
        requires
            old(self).wf(),
            !(tk(old(self).toks@, old(self).idx@) is Eof),
        ensures
            final(self).wf(),
            final(self).toks == old(self).toks,
            ({
                let (ev, j, es) = sp_function(old(self).toks@, old(self).idx@);
                &&& final(self).idx@ == j
                &&& (match r {
                    Some(e) => ev == Some(e@),
                    None => ev is None,
                })
                &&& final(self).errors.deep_view() == old(self).errors.deep_view() + es
            }),
        decreases old(self).toks@.len() - old(self).idx@, 0int,
    {
        reveal_with_fuel(sp_function, 1);
        reveal_with_fuel(sp_params, 1);
        reveal_with_fuel(sp_block, 1);
        let ghost toks = self.toks@;
        let ghost i0 = self.idx@;
        if !self.expect_peek(TokenType::LParen) {
            return None;
        }
        let parameters = match self.parse_function_parameters() {
            Some(p) => p,
            None => {
                return None;
            },
        };
        proof {
            lemma_sp_params(toks, i0 + 1);
        }
        if !self.expect_peek(TokenType::LBrace) {
            return None;
        }
        let ghost lb = self.idx@;
        let body = self.parse_block_statement();
        Some(Expression::FunctionLiteral { parameters, body })
    }

    /// A function literal's parameter list, the current token being the
    /// opening parenthesis; on success the current token ends on the closing
    /// one.
    #[verifier::rlimit(60)]
    fn parse_function_parameters(&mut self) -> (r: Option<Vec<String>>)
        requires
            old(self).wf(),
            tk(old(self).toks@, old(self).idx@) is LParen,
        ensures
            final(self).wf(),
            final(self).toks == old(self).toks,
            ({
                let (pv, j, es) = sp_params(old(self).toks@, old(self).idx@);
                &&& final(self).idx@ == j
                &&& (match r {
                    Some(v) => pv == Some(v.deep_view()),
                    None => pv is None,
                })
                &&& final(self).errors.deep_view() == old(self).errors.deep_view() + es
            }),
        decreases old(self).toks@.len() - old(self).idx@, 1int,
    {
        reveal_with_fuel(sp_params, 1);
        reveal_with_fuel(sp_params_rest, 1);
        let ghost toks = self.toks@;
        let ghost i0 = self.idx@;
        if self.peek_token_is(TokenType::RParen) {
            self.next_token();
            let params: Vec<String> = Vec::new();
            proof {
                assert(params.deep_view() =~= Seq::<Seq<char>>::empty());
                assert(self.errors.deep_view() =~= self.errors.deep_view() + Seq::<
                    Seq<char>,
                >::empty());
            }
            return Some(params);
        }
        if !self.expect_peek(TokenType::Ident) {
            return None;
        }
        let name = match &self.cur_token {
            Token::Ident(s) => s.clone(),
            _ => unreached(),
        };
        let mut params: Vec<String> = Vec::new();
        params.push(name);
        proof {
            assert(params.deep_view() =~= seq![tk(toks, i0 + 1)->Ident_0]);
            assert(sp_params(toks, i0) == sp_params_rest(toks, i0 + 1, seq![
                tk(toks, i0 + 1)->Ident_0,
            ]));
        }
        if self.parse_function_parameters_rest(&mut params) {
            Some(params)
        } else {
            None
        }
    }

    /// The remaining parameters after one identifier: as long as a comma
    /// follows, consume it and demand the next identifier; then demand the
    /// closing parenthesis.
    #[verifier::rlimit(60)]
    fn parse_function_parameters_rest(&mut self, params: &mut Vec<String>) -> (r: bool)
        requires
            old(self).wf(),
        ensures
            final(self).wf(),
            final(self).toks == old(self).toks,
            ({
                let (pv, j, es) = sp_params_rest(
                    old(self).toks@,
                    old(self).idx@,
                    old(params).deep_view(),
                );
                &&& final(self).idx@ == j
                &&& (if r {
                    pv == Some(final(params).deep_view())
                } else {
                    pv is None
                })
                &&& final(self).errors.deep_view() == old(self).errors.deep_view() + es
            }),
        decreases old(self).toks@.len() - old(self).idx@, 0int,
    {
        reveal_with_fuel(sp_params_rest, 1);
        let ghost toks = self.toks@;
        let ghost i0 = self.idx@;
        if self.peek_token_is(TokenType::Comma) {
            self.next_token();
            if !self.expect_peek(TokenType::Ident) {
                return false;
            }
            let name = match &self.cur_token {
                Token::Ident(s) => s.clone(),
                _ => unreached(),
            };
            params.push(name);
            proof {
                assert(params.deep_view() =~= old(params).deep_view().push(
                    tk(toks, i0 + 2)->Ident_0,
                ));
            }
            self.parse_function_parameters_rest(params)
        } else if self.expect_peek(TokenType::RParen) {
            proof {
                assert(self.errors.deep_view() =~= self.errors.deep_view() + Seq::<
                    Seq<char>,
                >::empty());
            }
            true
        } else {
            false
        }
    }

    /// A block: the statements between the current opening brace and the
    /// matching closing brace, or the end of the input if none follows.
    fn parse_block_statement(&mut self) -> (b: Block)
        requires
            old(self).wf(),
            !(tk(old(self).toks@, old(self).idx@) is Eof),
        ensures
            final(self).wf(),
            final(self).toks == old(self).toks,
            ({
                let (bv, j, es) = sp_block(old(self).toks@, old(self).idx@);
                &&& final(self).idx@ == j
                &&& b@ == bv
                &&& final(self).errors.deep_view() == old(self).errors.deep_view() + es
            }),
        decreases old(self).toks@.len() - old(self).idx@, 0int,
    {
        reveal_with_fuel(sp_block, 1);
        reveal_with_fuel(sp_stmts, 1);
        let ghost toks = self.toks@;
        let ghost i0 = self.idx@;
        self.next_token();
        let mut statements: Vec<Statement> = Vec::new();
        proof {
            assert(stmts_view(statements@) =~= Seq::<StmtView>::empty());
        }
        self.parse_statements(&mut statements, true);
        proof {
            let (ss, k, es) = sp_stmts(toks, i0 + 1, true);
            assert(stmts_view(statements@) =~= Seq::<StmtView>::empty() + ss);
        }
        Block { statements }
    }
}

} // verus!
