//! What the parser computes, stated on sequences of tokens.
//!
//! A parser is modelled by the tokens it has not consumed yet, without the
//! end-of-input token that closes them, and by the diagnostics it has logged.
//! Each function here takes such a state and gives what is parsed from it
//! together with the state that is left. The functions that call each other
//! in turn check, with `no_longer`, that a sub-parse left no more tokens than
//! it was given: this is what shows that they are well defined, and
//! `lemma_statement_progress` and its companions show that the check never
//! fails.

use crate::ast::{ExpressionView, StatementView};
use crate::integer::{integer_of, IntegerError};
use crate::parser::Precedence;
use crate::token::{token_debug, token_value, TokenView};
use vstd::prelude::*;

verus! {

/// A parser as a mathematical value.
pub struct ParserView {
    /// The tokens from the current one on, up to the end of the input.
    pub tokens: Seq<TokenView>,
    /// The diagnostics logged so far, oldest first.
    pub errors: Seq<Seq<char>>,
}

impl ParserView {
    /// The token under the cursor; end-of-input when none is left.
    pub open spec fn current(self) -> TokenView {
        if self.tokens.len() > 0 {
            self.tokens[0]
        } else {
            TokenView::Eof
        }
    }

    /// The token after the current one; end-of-input when there is none.
    pub open spec fn peek(self) -> TokenView {
        if self.tokens.len() > 1 {
            self.tokens[1]
        } else {
            TokenView::Eof
        }
    }

    /// The parser after the cursor has moved on by one token. At the end of
    /// the input it stays where it is.
    pub open spec fn advance(self) -> ParserView {
        if self.tokens.len() > 0 {
            ParserView { tokens: self.tokens.drop_first(), errors: self.errors }
        } else {
            self
        }
    }

    /// The parser after the cursor has moved on `n` times.
    pub open spec fn advance_n(self, n: nat) -> ParserView
        decreases n,
    {
        if n == 0 {
            self
        } else {
            self.advance_n((n - 1) as nat).advance()
        }
    }

    /// The parser after one more diagnostic has been logged.
    pub open spec fn log(self, message: Seq<char>) -> ParserView {
        ParserView { tokens: self.tokens, errors: self.errors.push(message) }
    }

    /// The binding precedence of the current token, the lowest if it has none.
    pub open spec fn current_precedence(self) -> Precedence {
        match self.current().precedence() {
            Some(precedence) => precedence,
            None => Precedence::Lowest,
        }
    }

    /// The binding precedence of the next token, the lowest if it has none.
    pub open spec fn peek_precedence(self) -> Precedence {
        match self.peek().precedence() {
            Some(precedence) => precedence,
            None => Precedence::Lowest,
        }
    }
}

/// Whether `after` holds no more tokens than `before`.
pub open spec fn no_longer(after: ParserView, before: ParserView) -> bool {
    after.tokens.len() <= before.tokens.len()
}

/// The diagnostic for a token of the wrong category.
pub open spec fn expected_message(expected: Seq<char>, found: TokenView) -> Seq<char> {
    "Parsing error, expected: \""@ + expected + "\", found: "@ + token_debug(found)
}

/// The diagnostic for a token that cannot start an expression.
pub open spec fn no_prefix_message(found: TokenView) -> Seq<char> {
    "Parsing error, no prefix parsing function defined for "@ + token_debug(found)
}

/// The diagnostic for an integer literal that stands for no 64-bit integer.
pub open spec fn integer_message(literal: Seq<char>, error: IntegerError) -> Seq<char> {
    "Parsing error, could not parse: "@ + literal + "; "@ + error.text()
}

/// The diagnostic for a parameter list that is not closed.
pub open spec fn parameters_message(found: TokenView) -> Seq<char> {
    "Expected right parenthesis, got: "@ + token_debug(found)
}

/// The ways in which an expression can start.
#[derive(Clone, Copy, Debug, PartialEq, Eq, Structural)]
pub enum PrefixParseFunction {
    Identifier,
    Boolean,
    IntegerLiteral,
    PrefixOperator,
    Grouped,
    If,
    FunctionLiteral,
}

/// The ways in which an expression can go on after its first operand.
#[derive(Clone, Copy, Debug, PartialEq, Eq, Structural)]
pub enum InfixParseFunction {
    InfixOperator,
}

/// The table of prefix rules, by token discriminant.
pub open spec fn prefix_rule(kind: i8) -> Option<PrefixParseFunction> {
    if kind == token_value::IDENTIFIER {
        Some(PrefixParseFunction::Identifier)
    } else if kind == token_value::BOOL {
        Some(PrefixParseFunction::Boolean)
    } else if kind == token_value::INT {
        Some(PrefixParseFunction::IntegerLiteral)
    } else if kind == token_value::PLUS || kind == token_value::MINUS || kind == token_value::BANG
        || kind == token_value::LESS_THAN {
        Some(PrefixParseFunction::PrefixOperator)
    } else if kind == token_value::LEFT_PARENTHESIS {
        Some(PrefixParseFunction::Grouped)
    } else if kind == token_value::IF {
        Some(PrefixParseFunction::If)
    } else if kind == token_value::FUNCTION {
        Some(PrefixParseFunction::FunctionLiteral)
    } else {
        None
    }
}

/// The table of infix rules, by token discriminant.
pub open spec fn infix_rule(kind: i8) -> Option<InfixParseFunction> {
    if kind == token_value::PLUS || kind == token_value::MINUS || kind == token_value::SLASH
        || kind == token_value::ASTERISK || kind == token_value::EQUAL || kind
        == token_value::NOT_EQUAL || kind == token_value::LESS_THAN || kind
        == token_value::GREATER_THAN {
        Some(InfixParseFunction::InfixOperator)
    } else {
        None
    }
}

/// An identifier: the current token itself.
pub open spec fn identifier_expression(state: ParserView) -> (Option<ExpressionView>, ParserView) {
    (Some(ExpressionView::Identifier(state.current())), state)
}

/// A boolean literal.
pub open spec fn boolean_expression(state: ParserView) -> (Option<ExpressionView>, ParserView) {
    match state.current() {
        TokenView::False => (
            Some(ExpressionView::Boolean { token: TokenView::False, value: false }),
            state,
        ),
        TokenView::True => (
            Some(ExpressionView::Boolean { token: TokenView::True, value: true }),
            state,
        ),
        _ => (None, state),
    }
}

/// An integer literal. A text that stands for no 64-bit integer gives a
/// diagnostic and no expression.
pub open spec fn integer_literal_expression(state: ParserView) -> (
    Option<ExpressionView>,
    ParserView,
) {
    match state.current() {
        TokenView::Int { literal } => match integer_of(literal) {
            Ok(value) => (
                Some(ExpressionView::IntegerLiteral { token: state.current(), value }),
                state,
            ),
            Err(error) => (None, state.log(integer_message(literal, error))),
        },
        _ => (None, state),
    }
}

/// The parameters that follow the first one: each comma brings one more.
pub open spec fn more_parameters(state: ParserView, parameters: Seq<ExpressionView>) -> (
    Seq<ExpressionView>,
    ParserView,
)
    decreases state.tokens.len(),
{
    if state.peek() is Comma {
        let at_parameter = state.advance().advance();
        more_parameters(
            at_parameter,
            parameters.push(ExpressionView::Identifier(at_parameter.current())),
        )
    } else {
        (parameters, state)
    }
}

/// The parameter list of a function literal, from its opening parenthesis
/// to the closing one. Each parameter is the token found in its place. A
/// list that is not closed gives a diagnostic; the token found in place of
/// the parenthesis is passed over all the same.
pub open spec fn function_parameters(state: ParserView) -> (Seq<ExpressionView>, ParserView) {
    if state.peek() is RightParenthesis {
        (Seq::empty(), state.advance())
    } else {
        let at_first = state.advance();
        let (parameters, at_last) = more_parameters(
            at_first,
            seq![ExpressionView::Identifier(at_first.current())],
        );
        if at_last.peek() is RightParenthesis {
            (parameters, at_last.advance())
        } else {
            (parameters, at_last.log(parameters_message(at_last.peek())).advance())
        }
    }
}

/// Reading parameters leaves no more tokens than there were.
pub proof fn lemma_more_parameters_progress(state: ParserView, parameters: Seq<ExpressionView>)
    ensures
        no_longer(more_parameters(state, parameters).1, state),
    decreases state.tokens.len(),
{
    if state.peek() is Comma {
        let at_parameter = state.advance().advance();
        lemma_more_parameters_progress(
            at_parameter,
            parameters.push(ExpressionView::Identifier(at_parameter.current())),
        );
    }
}

/// Reading a parameter list leaves no more tokens than there were.
pub proof fn lemma_function_parameters_progress(state: ParserView)
    ensures
        no_longer(function_parameters(state).1, state),
{
    let at_first = state.advance();
    lemma_more_parameters_progress(at_first, seq![ExpressionView::Identifier(at_first.current())]);
}

/// One statement: a `let`, a `return`, or an expression.
pub open spec fn statement(state: ParserView) -> (Option<StatementView>, ParserView)
    decreases state.tokens.len(), 7int,
{
    match state.current() {
        TokenView::Let => let_statement(state),
        TokenView::Return => return_statement(state),
        _ => expression_statement(state),
    }
}

/// `let`, an identifier, `=` and an expression. A missing identifier or a
/// missing `=` gives a diagnostic and no statement.
pub open spec fn let_statement(state: ParserView) -> (Option<StatementView>, ParserView)
    decreases state.tokens.len(), 6int,
{
    match state.peek() {
        TokenView::Identifier { literal } => {
            let at_name = state.advance();
            if at_name.peek() is Assign {
                let (value, after) = terminated_expression(at_name.advance().advance());
                match value {
                    Some(value) => (
                        Some(StatementView::Let { identifier_name: literal, value }),
                        after,
                    ),
                    None => (None, after),
                }
            } else {
                (None, at_name.log(expected_message("Assign"@, at_name.peek())))
            }
        },
        _ => (None, state.log(expected_message("Identifier"@, state.peek()))),
    }
}

/// `return` and an expression.
pub open spec fn return_statement(state: ParserView) -> (Option<StatementView>, ParserView)
    decreases state.tokens.len(), 6int,
{
    let (value, after) = terminated_expression(state.advance());
    match value {
        Some(value) => (Some(StatementView::Return(value)), after),
        None => (None, after),
    }
}

/// An expression that stands as a statement, with the semicolon that may
/// follow it.
pub open spec fn expression_statement(state: ParserView) -> (Option<StatementView>, ParserView)
    decreases state.tokens.len(), 6int,
{
    let (value, after) = expression(state, Precedence::Lowest);
    match value {
        Some(value) => (
            Some(StatementView::Expression(value)),
            if after.peek() is Semicolon {
                after.advance()
            } else {
                after
            },
        ),
        None => (None, after),
    }
}

/// The expression of a `let` or a `return`, with the semicolon that may
/// follow it.
pub open spec fn terminated_expression(state: ParserView) -> (Option<ExpressionView>, ParserView)
    decreases state.tokens.len(), 5int,
{
    let (value, after) = expression(state, Precedence::Lowest);
    match value {
        Some(value) => (
            Some(value),
            if after.peek() is Semicolon {
                after.advance()
            } else {
                after
            },
        ),
        None => (None, after),
    }
}

/// An expression whose operators all bind tighter than `precedence`: what
/// the rule for the current token gives, and then every such operator that
/// follows with its right operand. A token that has no prefix rule gives a
/// diagnostic and no expression.
pub open spec fn expression(state: ParserView, precedence: Precedence) -> (
    Option<ExpressionView>,
    ParserView,
)
    decreases state.tokens.len(), 4int,
{
    match prefix_rule(state.current().value()) {
        Some(rule) => {
            let (left, after) = prefix(state, rule);
            if no_longer(after, state) {
                climb(after, left, precedence)
            } else {
                (left, after)
            }
        },
        None => (None, state.log(no_prefix_message(state.current()))),
    }
}

/// What a prefix rule gives at the current token.
pub open spec fn prefix(state: ParserView, rule: PrefixParseFunction) -> (
    Option<ExpressionView>,
    ParserView,
)
    decreases state.tokens.len(), 3int,
{
    match rule {
        PrefixParseFunction::Identifier => identifier_expression(state),
        PrefixParseFunction::Boolean => boolean_expression(state),
        PrefixParseFunction::IntegerLiteral => integer_literal_expression(state),
        PrefixParseFunction::PrefixOperator => prefix_expression(state),
        PrefixParseFunction::Grouped => grouped_expression(state),
        PrefixParseFunction::If => if_expression(state),
        PrefixParseFunction::FunctionLiteral => function_literal(state),
    }
}

/// The operators after a left operand. While the next token is no
/// semicolon and binds tighter than `precedence`, it becomes the current
/// token and its rule joins the left operand with what follows. A left
/// operand that is missing is noticed only after that step.
pub open spec fn climb(state: ParserView, left: Option<ExpressionView>, precedence: Precedence) -> (
    Option<ExpressionView>,
    ParserView,
)
    decreases state.tokens.len(), 2int,
{
    if !(state.peek() is Semicolon) && precedence.rank() < state.peek_precedence().rank() {
        match infix_rule(state.peek().value()) {
            Some(_) => {
                let at_operator = state.advance();
                match left {
                    Some(left) => {
                        let (joined, after) = infix_expression(at_operator, left);
                        if no_longer(after, at_operator) {
                            climb(after, joined, precedence)
                        } else {
                            (joined, after)
                        }
                    },
                    None => (None, at_operator),
                }
            },
            None => (left, state),
        }
    } else {
        (left, state)
    }
}

/// A binary operator, which is the current token, with `left` and the
/// operand to its right, which is parsed at the operator's own precedence.
pub open spec fn infix_expression(state: ParserView, left: ExpressionView) -> (
    Option<ExpressionView>,
    ParserView,
)
    decreases state.tokens.len(), 2int,
{
    match state.current().literal() {
        Some(operator) => {
            let (right, after) = expression(state.advance(), state.current_precedence());
            match right {
                Some(right) => (
                    Some(
                        ExpressionView::InfixExpression {
                            operator,
                            left: Box::new(left),
                            right: Box::new(right),
                        },
                    ),
                    after,
                ),
                None => (None, after),
            }
        },
        None => (None, state),
    }
}

/// A unary operator, which is the current token, with its operand.
pub open spec fn prefix_expression(state: ParserView) -> (Option<ExpressionView>, ParserView)
    decreases state.tokens.len(), 2int,
{
    match state.current().literal() {
        Some(operator) => {
            let (right, after) = expression(state.advance(), Precedence::Prefix);
            match right {
                Some(right) => (
                    Some(ExpressionView::PrefixExpression { operator, right: Box::new(right) }),
                    after,
                ),
                None => (None, after),
            }
        },
        None => (None, state),
    }
}

/// An expression in parentheses. Without the closing parenthesis there is
/// no expression, and no diagnostic either.
pub open spec fn grouped_expression(state: ParserView) -> (Option<ExpressionView>, ParserView)
    decreases state.tokens.len(), 2int,
{
    if state.current() is LeftParenthesis {
        let (inner, after) = expression(state.advance(), Precedence::Lowest);
        if after.peek() is RightParenthesis {
            (inner, after.advance())
        } else {
            (None, after)
        }
    } else {
        (None, state)
    }
}

/// `if`, a condition in parentheses, a block, and perhaps `else` and a
/// second block. Where a token of this shape is missing there is no
/// expression, and no diagnostic either.
pub open spec fn if_expression(state: ParserView) -> (Option<ExpressionView>, ParserView)
    decreases state.tokens.len(), 2int,
{
    if state.current() is If && state.peek() is LeftParenthesis {
        let (condition, after_condition) = expression(
            state.advance().advance(),
            Precedence::Lowest,
        );
        match condition {
            Some(condition) => {
                if !(after_condition.peek() is RightParenthesis) {
                    (None, after_condition)
                } else if !(after_condition.advance().peek() is LeftBracket) {
                    (None, after_condition.advance())
                } else if !no_longer(after_condition, state) {
                    (None, after_condition)
                } else {
                    let (consequence, after_consequence) = block(
                        after_condition.advance().advance(),
                    );
                    if !(after_consequence.peek() is Else) {
                        (
                            Some(
                                ExpressionView::IfExpression {
                                    token: state.current(),
                                    condition: Box::new(condition),
                                    consequence,
                                    alternative: None,
                                },
                            ),
                            after_consequence,
                        )
                    } else if !(after_consequence.advance().peek() is LeftBracket) {
                        (None, after_consequence.advance())
                    } else if !no_longer(after_consequence, state) {
                        (None, after_consequence)
                    } else {
                        let (alternative, after) = block(after_consequence.advance().advance());
                        (
                            Some(
                                ExpressionView::IfExpression {
                                    token: state.current(),
                                    condition: Box::new(condition),
                                    consequence,
                                    alternative: Some(alternative),
                                },
                            ),
                            after,
                        )
                    }
                }
            },
            None => (None, after_condition),
        }
    } else {
        (None, state)
    }
}

/// `fn`, a parameter list and a block. Where the opening parenthesis or
/// the opening bracket is missing there is no expression, and no diagnostic
/// either.
pub open spec fn function_literal(state: ParserView) -> (Option<ExpressionView>, ParserView)
    decreases state.tokens.len(), 2int,
{
    if state.current() is Function && state.peek() is LeftParenthesis {
        let (parameters, after_parameters) = function_parameters(state.advance());
        if after_parameters.peek() is LeftBracket {
            proof {
                lemma_function_parameters_progress(state.advance());
            }
            let (body, after) = block(after_parameters.advance());
            (
                Some(ExpressionView::Function { token: state.current(), parameters, body }),
                after,
            )
        } else {
            (None, after_parameters)
        }
    } else {
        (None, state)
    }
}

/// A block, whose opening bracket is the current token: the statements up
/// to the closing bracket or the end of the input.
pub open spec fn block(state: ParserView) -> (Seq<StatementView>, ParserView)
    decreases state.tokens.len(), 9int,
{
    block_statements(state.advance(), Seq::empty())
}

/// The statements of a block from the current token on, after those in
/// `statements`. After each statement the cursor moves on by one token; a
/// statement that fails is left out.
pub open spec fn block_statements(state: ParserView, statements: Seq<StatementView>) -> (
    Seq<StatementView>,
    ParserView,
)
    decreases state.tokens.len(), 8int,
{
    if state.current() is RightBracket || state.current() is Eof {
        (statements, state)
    } else {
        let (parsed, after) = statement(state);
        let statements = match parsed {
            Some(parsed) => statements.push(parsed),
            None => statements,
        };
        if no_longer(after, state) {
            block_statements(after.advance(), statements)
        } else {
            (statements, after)
        }
    }
}

/// A statement leaves no more tokens than there were.
pub proof fn lemma_statement_progress(state: ParserView)
    ensures
        no_longer(statement(state).1, state),
    decreases state.tokens.len(), 7int,
{
    match state.current() {
        TokenView::Let => lemma_let_statement_progress(state),
        TokenView::Return => lemma_return_statement_progress(state),
        _ => lemma_expression_statement_progress(state),
    }
}

/// A `let` statement leaves no more tokens than there were.
pub proof fn lemma_let_statement_progress(state: ParserView)
    ensures
        no_longer(let_statement(state).1, state),
    decreases state.tokens.len(), 6int,
{
    if state.peek() is Identifier && state.advance().peek() is Assign {
        lemma_terminated_expression_progress(state.advance().advance().advance());
    }
}

/// A `return` statement leaves no more tokens than there were.
pub proof fn lemma_return_statement_progress(state: ParserView)
    ensures
        no_longer(return_statement(state).1, state),
    decreases state.tokens.len(), 6int,
{
    lemma_terminated_expression_progress(state.advance());
}

/// An expression statement leaves no more tokens than there were.
pub proof fn lemma_expression_statement_progress(state: ParserView)
    ensures
        no_longer(expression_statement(state).1, state),
    decreases state.tokens.len(), 6int,
{
    lemma_expression_progress(state, Precedence::Lowest);
}

/// The expression of a `let` or a `return` leaves no more tokens than there
/// were.
pub proof fn lemma_terminated_expression_progress(state: ParserView)
    ensures
        no_longer(terminated_expression(state).1, state),
    decreases state.tokens.len(), 5int,
{
    lemma_expression_progress(state, Precedence::Lowest);
}

/// An expression leaves no more tokens than there were.
pub proof fn lemma_expression_progress(state: ParserView, precedence: Precedence)
    ensures
        no_longer(expression(state, precedence).1, state),
    decreases state.tokens.len(), 4int,
{
    match prefix_rule(state.current().value()) {
        Some(rule) => {
            lemma_prefix_progress(state, rule);
            let (left, after) = prefix(state, rule);
            lemma_climb_progress(after, left, precedence);
        },
        None => {},
    }
}

/// A prefix rule leaves no more tokens than there were.
pub proof fn lemma_prefix_progress(state: ParserView, rule: PrefixParseFunction)
    ensures
        no_longer(prefix(state, rule).1, state),
    decreases state.tokens.len(), 3int,
{
    match rule {
        PrefixParseFunction::Identifier => {},
        PrefixParseFunction::Boolean => {},
        PrefixParseFunction::IntegerLiteral => {},
        PrefixParseFunction::PrefixOperator => lemma_prefix_expression_progress(state),
        PrefixParseFunction::Grouped => lemma_grouped_expression_progress(state),
        PrefixParseFunction::If => lemma_if_expression_progress(state),
        PrefixParseFunction::FunctionLiteral => lemma_function_literal_progress(state),
    }
}

/// The operators after a left operand leave no more tokens than there were.
pub proof fn lemma_climb_progress(
    state: ParserView,
    left: Option<ExpressionView>,
    precedence: Precedence,
)
    ensures
        no_longer(climb(state, left, precedence).1, state),
    decreases state.tokens.len(), 2int,
{
    if !(state.peek() is Semicolon) && precedence.rank() < state.peek_precedence().rank() {
        if infix_rule(state.peek().value()) is Some {
            let at_operator = state.advance();
            if let Some(left) = left {
                lemma_infix_expression_progress(at_operator, left);
                let (joined, after) = infix_expression(at_operator, left);
                lemma_climb_progress(after, joined, precedence);
            }
        }
    }
}

/// A binary operator with its right operand leaves no more tokens than
/// there were.
pub proof fn lemma_infix_expression_progress(state: ParserView, left: ExpressionView)
    ensures
        no_longer(infix_expression(state, left).1, state),
    decreases state.tokens.len(), 2int,
{
    if state.current().literal() is Some {
        lemma_expression_progress(state.advance(), state.current_precedence());
    }
}

/// A unary operator with its operand leaves no more tokens than there were.
pub proof fn lemma_prefix_expression_progress(state: ParserView)
    ensures
        no_longer(prefix_expression(state).1, state),
    decreases state.tokens.len(), 2int,
{
    if state.current().literal() is Some {
        lemma_expression_progress(state.advance(), Precedence::Prefix);
    }
}

/// An expression in parentheses leaves no more tokens than there were.
pub proof fn lemma_grouped_expression_progress(state: ParserView)
    ensures
        no_longer(grouped_expression(state).1, state),
    decreases state.tokens.len(), 2int,
{
    if state.current() is LeftParenthesis {
        lemma_expression_progress(state.advance(), Precedence::Lowest);
    }
}

/// An `if` expression leaves no more tokens than there were.
pub proof fn lemma_if_expression_progress(state: ParserView)
    ensures
        no_longer(if_expression(state).1, state),
    decreases state.tokens.len(), 2int,
{
    if state.current() is If && state.peek() is LeftParenthesis {
        lemma_expression_progress(state.advance().advance(), Precedence::Lowest);
        let (condition, after_condition) = expression(
            state.advance().advance(),
            Precedence::Lowest,
        );
        if condition is Some && after_condition.peek() is RightParenthesis
            && after_condition.advance().peek() is LeftBracket {
            lemma_block_progress(after_condition.advance().advance());
            let (consequence, after_consequence) = block(after_condition.advance().advance());
            if after_consequence.peek() is Else && after_consequence.advance().peek()
                is LeftBracket {
                lemma_block_progress(after_consequence.advance().advance());
            }
        }
    }
}

/// A function literal leaves no more tokens than there were.
pub proof fn lemma_function_literal_progress(state: ParserView)
    ensures
        no_longer(function_literal(state).1, state),
    decreases state.tokens.len(), 2int,
{
    if state.current() is Function && state.peek() is LeftParenthesis {
        lemma_function_parameters_progress(state.advance());
        let (parameters, after_parameters) = function_parameters(state.advance());
        if after_parameters.peek() is LeftBracket {
            lemma_block_progress(after_parameters.advance());
        }
    }
}

/// A block leaves no more tokens than there were.
pub proof fn lemma_block_progress(state: ParserView)
    ensures
        no_longer(block(state).1, state),
    decreases state.tokens.len(), 9int,
{
    lemma_block_statements_progress(state.advance(), Seq::empty());
}

/// The statements of a block leave no more tokens than there were.
pub proof fn lemma_block_statements_progress(state: ParserView, statements: Seq<StatementView>)
    ensures
        no_longer(block_statements(state, statements).1, state),
    decreases state.tokens.len(), 8int,
{
    if !(state.current() is RightBracket || state.current() is Eof) {
        lemma_statement_progress(state);
        let (parsed, after) = statement(state);
        let statements = match parsed {
            Some(parsed) => statements.push(parsed),
            None => statements,
        };
        lemma_block_statements_progress(after.advance(), statements);
    }
}

/// The statements of a program from the current token on, after those in
/// `statements`. After each statement the cursor moves on by one token; a
/// statement that fails is left out.
pub open spec fn program_statements(state: ParserView, statements: Seq<StatementView>) -> (
    Seq<StatementView>,
    ParserView,
)
    decreases state.tokens.len(),
{
    if state.current() is Eof {
        (statements, state)
    } else {
        proof {
            lemma_statement_progress(state);
        }
        let (parsed, after) = statement(state);
        let statements = match parsed {
            Some(parsed) => statements.push(parsed),
            None => statements,
        };
        program_statements(after.advance(), statements)
    }
}

/// A whole program: the statements up to the end of the input.
pub open spec fn program(state: ParserView) -> (Seq<StatementView>, ParserView) {
    program_statements(state, Seq::empty())
}

} // verus!
