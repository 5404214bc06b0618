//! The syntax tree that the parser builds, and how a statement is written
//! out as text.

use crate::token::{Token, TokenView};
use vstd::prelude::*;

verus! {

#[derive(Debug)]
pub enum Statement {
    Let(LetStatement),
    Return(Expression),
    Expression(Expression),
}

#[derive(Debug)]
#[allow(inconsistent_fields)]
pub enum Expression {
    Identifier(Token),
    Boolean { token: Token, value: bool },
    IntegerLiteral { token: Token, value: i64 },
    PrefixExpression { operator: String, right: Box<Expression> },
    InfixExpression { operator: String, left: Box<Expression>, right: Box<Expression> },
    IfExpression {
        token: Token,
        condition: Box<Expression>,
        consequence: BlockStatement,
        alternative: Option<BlockStatement>,
    },
    Function { token: Token, parameters: Vec<Expression>, body: BlockStatement },
}

#[derive(Debug)]
pub struct BlockStatement {
    pub statements: Vec<Statement>,
}

#[derive(Debug)]
pub struct Program {
    pub statements: Vec<Statement>,
}

#[derive(Debug)]
pub struct LetStatement {
    pub identifier_name: String,
    pub value: Expression,
}

/// A statement as a mathematical value.
pub enum StatementView {
    Let { identifier_name: Seq<char>, value: ExpressionView },
    Return(ExpressionView),
    Expression(ExpressionView),
}

/// An expression as a mathematical value. A block is the sequence of its
/// statements.
#[allow(inconsistent_fields)]
pub enum ExpressionView {
    Identifier(TokenView),
    Boolean { token: TokenView, value: bool },
    IntegerLiteral { token: TokenView, value: i64 },
    PrefixExpression { operator: Seq<char>, right: Box<ExpressionView> },
    InfixExpression { operator: Seq<char>, left: Box<ExpressionView>, right: Box<ExpressionView> },
    IfExpression {
        token: TokenView,
        condition: Box<ExpressionView>,
        consequence: Seq<StatementView>,
        alternative: Option<Seq<StatementView>>,
    },
    Function { token: TokenView, parameters: Seq<ExpressionView>, body: Seq<StatementView> },
}

impl Expression {
    /// The value of an expression, part by part.
    pub open spec fn model(self) -> ExpressionView
        decreases self,
    {
        match self {
            Expression::Identifier(token) => ExpressionView::Identifier(token@),
            Expression::Boolean { token, value } => ExpressionView::Boolean { token: token@, value },
            Expression::IntegerLiteral { token, value } => ExpressionView::IntegerLiteral {
                token: token@,
                value,
            },
            Expression::PrefixExpression { operator, right } => ExpressionView::PrefixExpression {
                operator: operator@,
                right: Box::new(right.model()),
            },
            Expression::InfixExpression { operator, left, right } => {
                ExpressionView::InfixExpression {
                    operator: operator@,
                    left: Box::new(left.model()),
                    right: Box::new(right.model()),
                }
            },
            Expression::IfExpression { token, condition, consequence, alternative } => {
                ExpressionView::IfExpression {
                    token: token@,
                    condition: Box::new(condition.model()),
                    consequence: consequence.model(),
                    alternative: match alternative {
                        Some(block) => Some(block.model()),
                        None => None,
                    },
                }
            },
            Expression::Function { token, parameters, body } => ExpressionView::Function {
                token: token@,
                parameters: Seq::new(
                    parameters.len() as nat,
                    |i: int|
                        if 0 <= i < parameters.len() {
                            parameters[i].model()
                        } else {
                            arbitrary()
                        },
                ),
                body: body.model(),
            },
        }
    }
}

impl Statement {
    /// The value of a statement, part by part.
    pub open spec fn model(self) -> StatementView
        decreases self,
    {
        match self {
            Statement::Let(statement) => StatementView::Let {
                identifier_name: statement.identifier_name@,
                value: statement.value.model(),
            },
            Statement::Return(expression) => StatementView::Return(expression.model()),
            Statement::Expression(expression) => StatementView::Expression(expression.model()),
        }
    }
}

impl BlockStatement {
    /// The values of the statements of a block, in order.
    pub open spec fn model(self) -> Seq<StatementView>
        decreases self,
    {
        Seq::new(
            self.statements.len() as nat,
            |i: int|
                if 0 <= i < self.statements.len() {
                    self.statements[i].model()
                } else {
                    arbitrary()
                },
        )
    }
}

impl View for Expression {
    type V = ExpressionView;

    open spec fn view(&self) -> ExpressionView {
        self.model()
    }
}

impl View for Statement {
    type V = StatementView;

    open spec fn view(&self) -> StatementView {
        self.model()
    }
}

impl View for LetStatement {
    type V = StatementView;

    open spec fn view(&self) -> StatementView {
        StatementView::Let { identifier_name: self.identifier_name@, value: self.value@ }
    }
}

impl View for BlockStatement {
    type V = Seq<StatementView>;

    open spec fn view(&self) -> Seq<StatementView> {
        self.model()
    }
}

impl View for Program {
    type V = Seq<StatementView>;

    open spec fn view(&self) -> Seq<StatementView> {
        statement_views(self.statements@)
    }
}

/// The values of a sequence of statements.
pub open spec fn statement_views(statements: Seq<Statement>) -> Seq<StatementView> {
    statements.map_values(|statement: Statement| statement@)
}

/// The values of a sequence of expressions.
pub open spec fn expression_views(expressions: Seq<Expression>) -> Seq<ExpressionView> {
    expressions.map_values(|expression: Expression| expression@)
}

/// The value of an expression that may be missing.
pub open spec fn optional_expression(expression: Option<Expression>) -> Option<ExpressionView> {
    match expression {
        Some(expression) => Some(expression@),
        None => None,
    }
}

/// The value of a statement that may be missing.
pub open spec fn optional_statement(statement: Option<Statement>) -> Option<StatementView> {
    match statement {
        Some(statement) => Some(statement@),
        None => None,
    }
}

/// The value of a block is that of its statements.
pub proof fn lemma_block_view(block: BlockStatement)
    ensures
        block@ == statement_views(block.statements@),
{
    assert(block.model() =~= statement_views(block.statements@));
}

/// The parameters of a function literal are the values of its parameter
/// expressions.
pub proof fn lemma_function_view(token: Token, parameters: Vec<Expression>, body: BlockStatement)
    ensures
        (Expression::Function { token, parameters, body })@ == (ExpressionView::Function {
            token: token@,
            parameters: expression_views(parameters@),
            body: statement_views(body.statements@),
        }),
{
    lemma_block_view(body);
    let function = Expression::Function { token, parameters, body };
    assert(function.model()->Function_parameters =~= expression_views(parameters@));
}

/// How an expression is written out for a reader: the rendering that the
/// standard library derives for debugging.
pub uninterp spec fn expression_debug(expression: ExpressionView) -> Seq<char>;

/// `format!` with `{:?}` on an expression. Trusted: the text depends on the
/// value of the expression alone; it is named and not defined here.
#[verifier::external_body]
fn debug_expression(expression: &Expression) -> (text: String)
    ensures
        text@ == expression_debug(expression@),
{
    format!("{:?}", expression)
}

impl StatementView {
    /// A statement written out as text.
    pub open spec fn text(self) -> Seq<char> {
        match self {
            StatementView::Let { identifier_name, value } => "let "@ + identifier_name + " = "@
                + expression_debug(value) + ";"@,
            StatementView::Return(expression) => "return "@ + expression_debug(expression) + ";"@,
            StatementView::Expression(expression) => expression_debug(expression),
        }
    }
}

impl Statement {
    /// The statement written out as text: a `let` and a `return` in the
    /// shape of the source, with the expression in its debugging form; an
    /// expression statement as that form alone.
    pub fn to_string(&self) -> (text: String)
        ensures
            text@ == self@.text(),
    {
        match self {
            Statement::Let(let_statement) => let_statement.to_string(),
            Statement::Return(expression) => {
                let text = "return ".to_owned();
                let text = text.concat(debug_expression(expression).as_str());
                text.concat(";")
            },
            Statement::Expression(expression) => debug_expression(expression),
        }
    }
}

impl LetStatement {
    /// The statement written out as text.
    pub fn to_string(&self) -> (text: String)
        ensures
            text@ == self@.text(),
    {
        let text = "let ".to_owned();
        let text = text.concat(self.identifier_name.as_str());
        let text = text.concat(" = ");
        let text = text.concat(debug_expression(&self.value).as_str());
        text.concat(";")
    }
}

} // verus!
