//! The abstract syntax tree: statement and expression node variants plus the
//! `Program` root, their mathematical views, and the canonical textual
//! rendering of every node.

use vstd::prelude::*;

use crate::tokens::{spec_token_string, Token, TokenView};

verus! {

/// An expression node. Sub-expressions are owned by their parent: the tree is
/// strict, with no sharing and no cycles. Operator tokens are kept in the
/// nodes so that the rendering can reproduce their lexemes.
#[derive(Debug, PartialEq)]
pub enum Expression {
    Identifier(String),
    IntegerLiteral(String),
    BooleanLiteral(bool),
    PrefixExpression { operator: Token, operand: Box<Expression> },
    InfixExpression { operator: Token, left: Box<Expression>, right: Box<Expression> },
    IfExpression { condition: Box<Expression>, consequence: Block, alternative: Option<Block> },
    FunctionLiteral { parameters: Vec<String>, body: Block },
    CallExpression { function: Box<Expression>, arguments: Vec<Expression> },
}

/// A brace-delimited statement sequence: the body of an `if` arm or of a
/// function literal.
#[derive(Debug, PartialEq)]
pub struct Block {
    pub statements: Vec<Statement>,
}

/// A statement node. A `let` statement keeps the identifier token it binds,
/// so that the binding's lexeme can be reported and rendered.
#[derive(Debug, PartialEq)]
pub enum Statement {
    Let { identifier: Token, value: Expression },
    Return { value: Expression },
    Expression { expression: Expression },
}

/// The root of the tree: the program's statements, in source order. An empty
/// program is valid.
#[derive(Debug, PartialEq)]
pub struct Program {
    pub statements: Vec<Statement>,
}

/// Mathematical view of an expression, with literal text as character
/// sequences.
pub enum ExprView {
    Identifier(Seq<char>),
    IntegerLiteral(Seq<char>),
    BooleanLiteral(bool),
    PrefixExpression { operator: TokenView, operand: Box<ExprView> },
    InfixExpression { operator: TokenView, left: Box<ExprView>, right: Box<ExprView> },
    IfExpression { condition: Box<ExprView>, consequence: BlockView, alternative: Option<BlockView> },
    FunctionLiteral { parameters: Seq<Seq<char>>, body: BlockView },
    CallExpression { function: Box<ExprView>, arguments: Seq<ExprView> },
}

/// Mathematical view of a block.
pub struct BlockView {
    pub statements: Seq<StmtView>,
}

/// Mathematical view of a statement. A `let` statement's view carries the
/// bound name as the identifier token's literal text.
pub enum StmtView {
    Let { name: Seq<char>, value: ExprView },
    Return { value: ExprView },
    Expression { value: ExprView },
}

pub open spec fn expr_view(e: Expression) -> ExprView
    decreases e,
{
    match e {
        Expression::Identifier(s) => ExprView::Identifier(s@),
        Expression::IntegerLiteral(s) => ExprView::IntegerLiteral(s@),
        Expression::BooleanLiteral(b) => ExprView::BooleanLiteral(b),
        Expression::PrefixExpression { operator, operand } => ExprView::PrefixExpression {
            operator: operator@,
            operand: Box::new(expr_view(*operand)),
        },
        Expression::InfixExpression { operator, left, right } => ExprView::InfixExpression {
            operator: operator@,
            left: Box::new(expr_view(*left)),
            right: Box::new(expr_view(*right)),
        },
        Expression::IfExpression { condition, consequence, alternative } => ExprView::IfExpression {
            condition: Box::new(expr_view(*condition)),
            consequence: block_view(consequence),
            alternative: match alternative {
                Some(a) => Some(block_view(a)),
                None => None,
            },
        },
        Expression::FunctionLiteral { parameters, body } => ExprView::FunctionLiteral {
            parameters: parameters.deep_view(),
            body: block_view(body),
        },
        Expression::CallExpression { function, arguments } => ExprView::CallExpression {
            function: Box::new(expr_view(*function)),
            arguments: exprs_view(arguments@),
        },
    }
}

pub open spec fn exprs_view(es: Seq<Expression>) -> Seq<ExprView>
    decreases es,
{
    if es.len() == 0 {
        Seq::empty()
    } else {
        exprs_view(es.drop_last()).push(expr_view(es.last()))
    }
}

pub open spec fn stmt_view(s: Statement) -> StmtView
    decreases s,
{
    match s {
        Statement::Let { identifier, value } => StmtView::Let {
            name: spec_token_string(identifier@),
            value: expr_view(value),
        },
        Statement::Return { value } => StmtView::Return { value: expr_view(value) },
        Statement::Expression { expression } => StmtView::Expression {
            value: expr_view(expression),
        },
    }
}

pub open spec fn stmts_view(ss: Seq<Statement>) -> Seq<StmtView>
    decreases ss,
{
    if ss.len() == 0 {
        Seq::empty()
    } else {
        stmts_view(ss.drop_last()).push(stmt_view(ss.last()))
    }
}

pub open spec fn block_view(b: Block) -> BlockView
    decreases b,
{
    BlockView { statements: stmts_view(b.statements@) }
}

impl View for Expression {
    type V = ExprView;

    open spec fn view(&self) -> ExprView {
        expr_view(*self)
    }
}

impl View for Statement {
    type V = StmtView;

    open spec fn view(&self) -> StmtView {
        stmt_view(*self)
    }
}

impl View for Block {
    type V = BlockView;

    open spec fn view(&self) -> BlockView {
        block_view(*self)
    }
}

impl View for Program {
    type V = Seq<StmtView>;

    open spec fn view(&self) -> Seq<StmtView> {
        stmts_view(self.statements@)
    }
}

/// A statement sequence's view is its statements' views, element by element.
pub proof fn lemma_stmts_view_index(ss: Seq<Statement>)
    ensures
        stmts_view(ss).len() == ss.len(),
        forall|i: int| 0 <= i < ss.len() ==> stmts_view(ss)[i] == stmt_view(ss[i]),
    decreases ss,
{
    if ss.len() > 0 {
        lemma_stmts_view_index(ss.drop_last());
    }
}

/// An expression sequence's view is its expressions' views, element by
/// element.
pub proof fn lemma_exprs_view_index(es: Seq<Expression>)
    ensures
        exprs_view(es).len() == es.len(),
        forall|i: int| 0 <= i < es.len() ==> exprs_view(es)[i] == expr_view(es[i]),
    decreases es,
{
    if es.len() > 0 {
        lemma_exprs_view_index(es.drop_last());
    }
}

/// The literal text of the token an expression begins from: its own lexeme
/// for the leaf nodes, the operator's lexeme for a prefix node, the keyword
/// for `if` and `fn`, and — for infix and call nodes, whose first token sits
/// inside the left-hand side — the leftmost leaf's lexeme.
pub open spec fn expr_token_literal(e: ExprView) -> Seq<char>
    decreases e,
{
    match e {
        ExprView::Identifier(s) => s,
        ExprView::IntegerLiteral(s) => s,
        ExprView::BooleanLiteral(b) => if b {
            "true"@
        } else {
            "false"@
        },
        ExprView::PrefixExpression { operator, .. } => spec_token_string(operator),
        ExprView::InfixExpression { left, .. } => expr_token_literal(*left),
        ExprView::IfExpression { .. } => "if"@,
        ExprView::FunctionLiteral { .. } => "fn"@,
        ExprView::CallExpression { function, .. } => expr_token_literal(*function),
    }
}

/// The literal text of the token a statement begins from.
pub open spec fn spec_stmt_token_literal(s: StmtView) -> Seq<char> {
    match s {
        StmtView::Let { .. } => "let"@,
        StmtView::Return { .. } => "return"@,
        StmtView::Expression { value } => expr_token_literal(value),
    }
}

/// The literal text of the token a program begins from: that of its first
/// statement, or the empty string for an empty program.
pub open spec fn spec_program_token_literal(ss: Seq<StmtView>) -> Seq<char> {
    if ss.len() > 0 {
        spec_stmt_token_literal(ss[0])
    } else {
        Seq::empty()
    }
}

/// The canonical surface form of an expression. Operator nodes are fully
/// parenthesised, so that the rendering makes the tree's grouping visible.
pub open spec fn render_expr(e: ExprView) -> Seq<char>
    decreases e,
{
    match e {
        ExprView::Identifier(s) => s,
        ExprView::IntegerLiteral(s) => s,
        ExprView::BooleanLiteral(b) => if b {
            "true"@
        } else {
            "false"@
        },
        ExprView::PrefixExpression { operator, operand } => "("@ + spec_token_string(operator)
            + render_expr(*operand) + ")"@,
        ExprView::InfixExpression { operator, left, right } => "("@ + render_expr(*left) + " "@
            + spec_token_string(operator) + " "@ + render_expr(*right) + ")"@,
        ExprView::IfExpression { condition, consequence, alternative } => {
            let head = "if"@ + render_expr(*condition) + " "@ + render_block(consequence);
            match alternative {
                Some(a) => head + "else "@ + render_block(a),
                None => head,
            }
        },
        ExprView::FunctionLiteral { parameters, body } => "fn("@ + render_params(parameters)
            + ") "@ + render_block(body),
        ExprView::CallExpression { function, arguments } => render_expr(*function) + "("@
            + render_args(arguments) + ")"@,
    }
}

/// A comma-separated parameter list.
pub open spec fn render_params(params: Seq<Seq<char>>) -> Seq<char>
    decreases params,
{
    if params.len() == 0 {
        Seq::empty()
    } else if params.len() == 1 {
        params[0]
    } else {
        render_params(params.drop_last()) + ", "@ + params.last()
    }
}

/// A comma-separated argument list.
pub open spec fn render_args(args: Seq<ExprView>) -> Seq<char>
    decreases args,
{
    if args.len() == 0 {
        Seq::empty()
    } else if args.len() == 1 {
        render_expr(args[0])
    } else {
        render_args(args.drop_last()) + ", "@ + render_expr(args.last())
    }
}

/// The canonical surface form of a statement.
pub open spec fn render_stmt(s: StmtView) -> Seq<char>
    decreases s,
{
    match s {
        StmtView::Let { name, value } => "let "@ + name + " = "@ + render_expr(value) + ";"@,
        StmtView::Return { value } => "return "@ + render_expr(value) + ";"@,
        StmtView::Expression { value } => render_expr(value),
    }
}

/// A block's surface form: its statements' forms, one after the other.
pub open spec fn render_stmts(ss: Seq<StmtView>) -> Seq<char>
    decreases ss,
{
    if ss.len() == 0 {
        Seq::empty()
    } else {
        render_stmts(ss.drop_last()) + render_stmt(ss.last())
    }
}

pub open spec fn render_block(b: BlockView) -> Seq<char>
    decreases b,
{
    render_stmts(b.statements)
}

/// A program's surface form: its statements' forms joined by newlines.
pub open spec fn render_program(ss: Seq<StmtView>) -> Seq<char>
    decreases ss,
{
    if ss.len() == 0 {
        Seq::empty()
    } else if ss.len() == 1 {
        render_stmt(ss[0])
    } else {
        render_program(ss.drop_last()) + "\n"@ + render_stmt(ss.last())
    }
}

/// What every node of the tree offers: the literal text of the token it
/// begins from, and its canonical surface form.
pub trait Node {
    spec fn spec_token_literal(&self) -> Seq<char>;

    spec fn spec_string(&self) -> Seq<char>;

    fn token_literal(&self) -> (r: String)
        ensures
            r@ == self.spec_token_literal(),
    ;

    fn string(&self) -> (r: String)
        ensures
            r@ == self.spec_string(),
    ;
}

impl Node for Expression {
    open spec fn spec_token_literal(&self) -> Seq<char> {
        expr_token_literal(self@)
    }

    open spec fn spec_string(&self) -> Seq<char> {
        render_expr(self@)
    }

    fn token_literal(&self) -> (r: String)
        decreases *self,
    {
        match self {
            Expression::Identifier(s) => s.clone(),
            Expression::IntegerLiteral(s) => s.clone(),
            Expression::BooleanLiteral(b) => if *b {
                String::from_str("true")
            } else {
                String::from_str("false")
            },
            Expression::PrefixExpression { operator, .. } => operator.string(),
            Expression::InfixExpression { left, .. } => left.token_literal(),
            Expression::IfExpression { .. } => String::from_str("if"),
            Expression::FunctionLiteral { .. } => String::from_str("fn"),
            Expression::CallExpression { function, .. } => function.token_literal(),
        }
    }

    fn string(&self) -> (r: String)
        decreases *self,
    {
        match self {
            Expression::Identifier(s) => s.clone(),
            Expression::IntegerLiteral(s) => s.clone(),
            Expression::BooleanLiteral(b) => if *b {
                String::from_str("true")
            } else {
                String::from_str("false")
            },
            Expression::PrefixExpression { operator, operand } => {
                let mut out = String::from_str("(");
                let op = operator.string();
                out.append(op.as_str());
                let rhs = operand.string();
                out.append(rhs.as_str());
                out.append(")");
                out
            },
            Expression::InfixExpression { operator, left, right } => {
                let mut out = String::from_str("(");
                let lhs = left.string();
                out.append(lhs.as_str());
                out.append(" ");
                let op = operator.string();
                out.append(op.as_str());
                out.append(" ");
                let rhs = right.string();
                out.append(rhs.as_str());
                out.append(")");
                out
            },
            Expression::IfExpression { condition, consequence, alternative } => {
                let mut out = String::from_str("if");
                let cond = condition.string();
                out.append(cond.as_str());
                out.append(" ");
                let cons = consequence.string();
                out.append(cons.as_str());
                match alternative {
                    Some(a) => {
                        out.append("else ");
                        let alt = a.string();
                        out.append(alt.as_str());
                    },
                    None => {},
                }
                out
            },
            Expression::FunctionLiteral { parameters, body } => {
                let mut params = String::new();
                let mut i: usize = 0;
                while i < parameters.len()
                    invariant
                        i <= parameters@.len(),
                        params@ == render_params(parameters.deep_view().take(i as int)),
                    decreases parameters@.len() - i,
                {
                    if i > 0 {
                        params.append(", ");
                    }
                    params.append(parameters[i].as_str());
                    proof {
                        let dv = parameters.deep_view();
                        assert(dv.take(i + 1).drop_last() =~= dv.take(i as int));
                        assert(dv.take(i + 1).last() == dv[i as int]);
                    }
                    i = i + 1;
                }
                proof {
                    assert(parameters.deep_view().take(parameters@.len() as int)
                        =~= parameters.deep_view());
                }
                let mut out = String::from_str("fn(");
                out.append(params.as_str());
                out.append(") ");
                let b = body.string();
                out.append(b.as_str());
                out
            },
            Expression::CallExpression { function, arguments } => {
                let mut out = function.string();
                out.append("(");
                let mut i: usize = 0;
                while i < arguments.len()
                    invariant
                        (*self) is CallExpression,
                        *arguments == self->CallExpression_arguments,
                        i <= arguments@.len(),
                        out@ == render_expr(expr_view(**function)) + "("@ + render_args(
                            exprs_view(arguments@).take(i as int),
                        ),
                    decreases arguments@.len() - i,
                {
                    if i > 0 {
                        out.append(", ");
                    }
                    proof {
                        assert(arguments@ == self->CallExpression_arguments@);
                        assert(decreases_to!(*self => self->CallExpression_arguments));
                        assert(decreases_to!(self->CallExpression_arguments
                            => self->CallExpression_arguments@));
                        assert(decreases_to!(self->CallExpression_arguments@
                            => self->CallExpression_arguments@[i as int]));
                    }
                    let a = arguments[i].string();
                    out.append(a.as_str());
                    proof {
                        lemma_exprs_view_index(arguments@);
                        let av = exprs_view(arguments@);
                        assert(av.take(i + 1).drop_last() =~= av.take(i as int));
                        assert(av.take(i + 1).last() == av[i as int]);
                    }
                    i = i + 1;
                }
                proof {
                    lemma_exprs_view_index(arguments@);
                    assert(exprs_view(arguments@).take(arguments@.len() as int) =~= exprs_view(
                        arguments@,
                    ));
                }
                out.append(")");
                out
            },
        }
    }
}

impl Node for Block {
    open spec fn spec_token_literal(&self) -> Seq<char> {
        spec_program_token_literal(self@.statements)
    }

    open spec fn spec_string(&self) -> Seq<char> {
        render_block(self@)
    }

    fn token_literal(&self) -> (r: String) {
        proof {
            lemma_stmts_view_index(self.statements@);
        }
        if self.statements.len() > 0 {
            self.statements[0].token_literal()
        } else {
            String::new()
        }
    }

    fn string(&self) -> (r: String)
        decreases *self,
    {
        let mut out = String::new();
        let mut i: usize = 0;
        while i < self.statements.len()
            invariant
                i <= self.statements@.len(),
                out@ == render_stmts(stmts_view(self.statements@).take(i as int)),
            decreases self.statements@.len() - i,
        {
            proof {
                assert(decreases_to!(*self => self.statements));
                assert(decreases_to!(self.statements => self.statements@));
                assert(decreases_to!(self.statements@ => self.statements@[i as int]));
            }
            let s = self.statements[i].string();
            out.append(s.as_str());
            proof {
                lemma_stmts_view_index(self.statements@);
                let sv = stmts_view(self.statements@);
                assert(sv.take(i + 1).drop_last() =~= sv.take(i as int));
                assert(sv.take(i + 1).last() == sv[i as int]);
            }
            i = i + 1;
        }
        proof {
            lemma_stmts_view_index(self.statements@);
            assert(stmts_view(self.statements@).take(self.statements@.len() as int) =~= stmts_view(
                self.statements@,
            ));
        }
        out
    }
}

impl Node for Statement {
    open spec fn spec_token_literal(&self) -> Seq<char> {
        spec_stmt_token_literal(self@)
    }

    open spec fn spec_string(&self) -> Seq<char> {
        render_stmt(self@)
    }

    fn token_literal(&self) -> (r: String) {
        match self {
            Statement::Let { .. } => String::from_str("let"),
            Statement::Return { .. } => String::from_str("return"),
            Statement::Expression { expression } => expression.token_literal(),
        }
    }

    fn string(&self) -> (r: String)
        decreases *self,
    {
        match self {
            Statement::Let { identifier, value } => {
                let mut out = String::from_str("let ");
                let name = identifier.string();
                out.append(name.as_str());
                out.append(" = ");
                let v = value.string();
                out.append(v.as_str());
                out.append(";");
                out
            },
            Statement::Return { value } => {
                let mut out = String::from_str("return ");
                let v = value.string();
                out.append(v.as_str());
                out.append(";");
                out
            },
            Statement::Expression { expression } => expression.string(),
        }
    }
}

impl Node for Program {
    open spec fn spec_token_literal(&self) -> Seq<char> {
        spec_program_token_literal(self@)
    }

    open spec fn spec_string(&self) -> Seq<char> {
        render_program(self@)
    }

    fn token_literal(&self) -> (r: String) {
        proof {
            lemma_stmts_view_index(self.statements@);
        }
        if self.statements.len() > 0 {
            self.statements[0].token_literal()
        } else {
            String::new()
        }
    }

    fn string(&self) -> (r: String) {
        let mut out = String::new();
        let mut i: usize = 0;
        while i < self.statements.len()
            invariant
                i <= self.statements@.len(),
                out@ == render_program(stmts_view(self.statements@).take(i as int)),
            decreases self.statements@.len() - i,
        {
            if i > 0 {
                out.append("\n");
            }
            let s = self.statements[i].string();
            out.append(s.as_str());
            proof {
                lemma_stmts_view_index(self.statements@);
                let sv = stmts_view(self.statements@);
                assert(sv.take(i + 1).drop_last() =~= sv.take(i as int));
                assert(sv.take(i + 1).last() == sv[i as int]);
            }
            i = i + 1;
        }
        proof {
            lemma_stmts_view_index(self.statements@);
            assert(stmts_view(self.statements@).take(self.statements@.len() as int) =~= stmts_view(
                self.statements@,
            ));
        }
        out
    }
}

impl Statement {
    /// The literal text of the name a `let` statement binds; only a `let`
    /// statement has one.
    pub fn name_token_literal(&self) -> (r: String)
        requires
            self@ is Let,
        ensures
            self@ matches StmtView::Let { name, value: _ } && r@ == name,
    {
        match self {
            Statement::Let { identifier, .. } => identifier.string(),
            _ => unreached(),
        }
    }
}

} // verus!
