//! What holds of every parse: the parser only moves forward through its
//! tokens, only adds to its log, and builds trees whose literals agree with
//! their values.

use crate::ast::{ExpressionView, StatementView};
use crate::grammar::{
    block, block_statements, climb, expression, expression_statement, function_literal,
    function_parameters, grouped_expression, if_expression, infix_expression, infix_rule,
    let_statement, more_parameters, prefix, prefix_expression, prefix_rule, program,
    program_statements, return_statement, statement, terminated_expression, ParserView,
    PrefixParseFunction,
};
use crate::integer::integer_of;
use crate::parser::Precedence;
use crate::token::TokenView;
use vstd::prelude::*;

verus! {

impl ExpressionView {
    /// Whether every literal in the expression agrees with its token: a
    /// boolean node holds the value that its token spells, and an integer
    /// node the integer that its text stands for.
    pub open spec fn well_formed(self) -> bool
        decreases self,
    {
        match self {
            ExpressionView::Identifier(_) => true,
            ExpressionView::Boolean { token, value } => (token is True && value) || (token is False
                && !value),
            ExpressionView::IntegerLiteral { token, value } => token is Int && integer_of(
                token->Int_literal,
            ) == Ok::<i64, crate::integer::IntegerError>(value),
            ExpressionView::PrefixExpression { operator, right } => right.well_formed(),
            ExpressionView::InfixExpression { operator, left, right } => left.well_formed()
                && right.well_formed(),
            ExpressionView::IfExpression { token, condition, consequence, alternative } => {
                &&& condition.well_formed()
                &&& forall|i: int|
                    0 <= i < consequence.len() ==> (#[trigger] consequence[i]).well_formed()
                &&& match alternative {
                    Some(alternative) => forall|i: int|
                        0 <= i < alternative.len() ==> (#[trigger] alternative[i]).well_formed(),
                    None => true,
                }
            },
            ExpressionView::Function { token, parameters, body } => {
                &&& forall|i: int|
                    0 <= i < parameters.len() ==> (#[trigger] parameters[i]).well_formed()
                &&& forall|i: int| 0 <= i < body.len() ==> (#[trigger] body[i]).well_formed()
            },
        }
    }
}

impl StatementView {
    /// Whether the expression of the statement is well formed.
    pub open spec fn well_formed(self) -> bool
        decreases self,
    {
        match self {
            StatementView::Let { identifier_name, value } => value.well_formed(),
            StatementView::Return(value) => value.well_formed(),
            StatementView::Expression(value) => value.well_formed(),
        }
    }
}

/// Whether an expression, if there is one, is well formed.
pub open spec fn well_formed_expression(expression: Option<ExpressionView>) -> bool {
    expression is Some ==> expression->0.well_formed()
}

/// Whether a statement, if there is one, is well formed.
pub open spec fn well_formed_statement(statement: Option<StatementView>) -> bool {
    statement is Some ==> statement->0.well_formed()
}

/// Whether every statement of a sequence is well formed.
pub open spec fn well_formed_statements(statements: Seq<StatementView>) -> bool {
    forall|i: int| 0 <= i < statements.len() ==> (#[trigger] statements[i]).well_formed()
}

/// Whether every expression of a sequence is well formed.
pub open spec fn well_formed_expressions(expressions: Seq<ExpressionView>) -> bool {
    forall|i: int| 0 <= i < expressions.len() ==> (#[trigger] expressions[i]).well_formed()
}

/// Whether `after` is a state that parsing can reach from `before`: its
/// tokens are the last ones of `before`, and its log starts with the log of
/// `before`.
pub open spec fn follows(after: ParserView, before: ParserView) -> bool {
    &&& after.tokens.len() <= before.tokens.len()
    &&& after.tokens == before.tokens.skip(before.tokens.len() - after.tokens.len())
    &&& before.errors.len() <= after.errors.len()
    &&& before.errors == after.errors.take(before.errors.len() as int)
}

/// A state follows itself.
pub proof fn lemma_follows_itself(state: ParserView)
    ensures
        follows(state, state),
{
    assert(state.tokens =~= state.tokens.skip(0));
    assert(state.errors =~= state.errors.take(state.errors.len() as int));
}

/// Moving the cursor on gives a state that follows.
pub proof fn lemma_advance_follows(state: ParserView)
    ensures
        follows(state.advance(), state),
{
    lemma_follows_itself(state);
    if state.tokens.len() > 0 {
        assert(state.tokens.drop_first() =~= state.tokens.skip(1));
    }
}

/// Logging a diagnostic gives a state that follows.
pub proof fn lemma_log_follows(state: ParserView, message: Seq<char>)
    ensures
        follows(state.log(message), state),
{
    lemma_follows_itself(state);
    assert(state.errors =~= state.errors.push(message).take(state.errors.len() as int));
}

/// What follows a state that follows another follows that one too.
pub proof fn lemma_follows_is_transitive(last: ParserView, middle: ParserView, first: ParserView)
    requires
        follows(last, middle),
        follows(middle, first),
    ensures
        follows(last, first),
{
    assert(last.tokens =~= first.tokens.skip(first.tokens.len() - last.tokens.len()));
    assert(first.errors =~= last.errors.take(first.errors.len() as int));
}

/// Reading parameters moves forward, and the parameters are well formed.
pub proof fn lemma_more_parameters_sound(state: ParserView, parameters: Seq<ExpressionView>)
    requires
        well_formed_expressions(parameters),
    ensures
        follows(more_parameters(state, parameters).1, state),
        well_formed_expressions(more_parameters(state, parameters).0),
    decreases state.tokens.len(),
{
    if state.peek() is Comma {
        let at_parameter = state.advance().advance();
        lemma_advance_follows(state);
        lemma_advance_follows(state.advance());
        lemma_follows_is_transitive(at_parameter, state.advance(), state);
        let more = parameters.push(ExpressionView::Identifier(at_parameter.current()));
        lemma_more_parameters_sound(at_parameter, more);
        lemma_follows_is_transitive(more_parameters(at_parameter, more).1, at_parameter, state);
    } else {
        lemma_follows_itself(state);
    }
}

/// Reading a parameter list moves forward, and the parameters are well
/// formed.
pub proof fn lemma_function_parameters_sound(state: ParserView)
    ensures
        follows(function_parameters(state).1, state),
        well_formed_expressions(function_parameters(state).0),
{
    lemma_advance_follows(state);
    if !(state.peek() is RightParenthesis) {
        let at_first = state.advance();
        let first = seq![ExpressionView::Identifier(at_first.current())];
        lemma_more_parameters_sound(at_first, first);
        let (parameters, at_last) = more_parameters(at_first, first);
        lemma_follows_is_transitive(at_last, at_first, state);
        if at_last.peek() is RightParenthesis {
            lemma_advance_follows(at_last);
            lemma_follows_is_transitive(at_last.advance(), at_last, state);
        } else {
            let logged = at_last.log(crate::grammar::parameters_message(at_last.peek()));
            lemma_log_follows(at_last, crate::grammar::parameters_message(at_last.peek()));
            lemma_advance_follows(logged);
            lemma_follows_is_transitive(logged, at_last, state);
            lemma_follows_is_transitive(logged.advance(), logged, state);
        }
    }
}

/// A statement moves forward and is well formed.
pub proof fn lemma_statement_sound(state: ParserView)
    ensures
        follows(statement(state).1, state),
        well_formed_statement(statement(state).0),
    decreases state.tokens.len(), 7int,
{
    match state.current() {
        TokenView::Let => lemma_let_statement_sound(state),
        TokenView::Return => lemma_return_statement_sound(state),
        _ => lemma_expression_statement_sound(state),
    }
}

/// A `let` statement moves forward and is well formed.
pub proof fn lemma_let_statement_sound(state: ParserView)
    ensures
        follows(let_statement(state).1, state),
        well_formed_statement(let_statement(state).0),
    decreases state.tokens.len(), 6int,
{
    let at_name = state.advance();
    lemma_advance_follows(state);
    if state.peek() is Identifier {
        if at_name.peek() is Assign {
            let at_value = at_name.advance().advance();
            lemma_advance_follows(at_name);
            lemma_advance_follows(at_name.advance());
            lemma_follows_is_transitive(at_name.advance(), at_name, state);
            lemma_follows_is_transitive(at_value, at_name.advance(), state);
            lemma_terminated_expression_sound(at_value);
            lemma_follows_is_transitive(terminated_expression(at_value).1, at_value, state);
        } else {
            let message = crate::grammar::expected_message("Assign"@, at_name.peek());
            lemma_log_follows(at_name, message);
            lemma_follows_is_transitive(at_name.log(message), at_name, state);
        }
    } else {
        lemma_log_follows(state, crate::grammar::expected_message("Identifier"@, state.peek()));
    }
}

/// A `return` statement moves forward and is well formed.
pub proof fn lemma_return_statement_sound(state: ParserView)
    ensures
        follows(return_statement(state).1, state),
        well_formed_statement(return_statement(state).0),
    decreases state.tokens.len(), 6int,
{
    lemma_advance_follows(state);
    lemma_terminated_expression_sound(state.advance());
    lemma_follows_is_transitive(terminated_expression(state.advance()).1, state.advance(), state);
}

/// An expression statement moves forward and is well formed.
pub proof fn lemma_expression_statement_sound(state: ParserView)
    ensures
        follows(expression_statement(state).1, state),
        well_formed_statement(expression_statement(state).0),
    decreases state.tokens.len(), 6int,
{
    lemma_expression_sound(state, Precedence::Lowest);
    let after = expression(state, Precedence::Lowest).1;
    lemma_advance_follows(after);
    lemma_follows_is_transitive(after.advance(), after, state);
}

/// The expression of a `let` or a `return` moves forward and is well
/// formed.
pub proof fn lemma_terminated_expression_sound(state: ParserView)
    ensures
        follows(terminated_expression(state).1, state),
        well_formed_expression(terminated_expression(state).0),
    decreases state.tokens.len(), 5int,
{
    lemma_expression_sound(state, Precedence::Lowest);
    let after = expression(state, Precedence::Lowest).1;
    lemma_advance_follows(after);
    lemma_follows_is_transitive(after.advance(), after, state);
}

/// An expression moves forward and is well formed.
pub proof fn lemma_expression_sound(state: ParserView, precedence: Precedence)
    ensures
        follows(expression(state, precedence).1, state),
        well_formed_expression(expression(state, precedence).0),
    decreases state.tokens.len(), 4int,
{
    match prefix_rule(state.current().value()) {
        Some(rule) => {
            lemma_prefix_sound(state, rule);
            let (left, after) = prefix(state, rule);
            lemma_climb_sound(after, left, precedence);
            lemma_follows_is_transitive(climb(after, left, precedence).1, after, state);
        },
        None => {
            lemma_log_follows(state, crate::grammar::no_prefix_message(state.current()));
        },
    }
}

/// A prefix rule moves forward and gives a well-formed expression.
pub proof fn lemma_prefix_sound(state: ParserView, rule: PrefixParseFunction)
    ensures
        follows(prefix(state, rule).1, state),
        well_formed_expression(prefix(state, rule).0),
    decreases state.tokens.len(), 3int,
{
    match rule {
        PrefixParseFunction::Identifier => lemma_follows_itself(state),
        PrefixParseFunction::Boolean => lemma_follows_itself(state),
        PrefixParseFunction::IntegerLiteral => {
            lemma_follows_itself(state);
            if let TokenView::Int { literal } = state.current() {
                if let Err(error) = integer_of(literal) {
                    lemma_log_follows(state, crate::grammar::integer_message(literal, error));
                }
            }
        },
        PrefixParseFunction::PrefixOperator => lemma_prefix_expression_sound(state),
        PrefixParseFunction::Grouped => lemma_grouped_expression_sound(state),
        PrefixParseFunction::If => lemma_if_expression_sound(state),
        PrefixParseFunction::FunctionLiteral => lemma_function_literal_sound(state),
    }
}

/// The operators after a well-formed left operand move forward and give a
/// well-formed expression.
pub proof fn lemma_climb_sound(
    state: ParserView,
    left: Option<ExpressionView>,
    precedence: Precedence,
)
    requires
        well_formed_expression(left),
    ensures
        follows(climb(state, left, precedence).1, state),
        well_formed_expression(climb(state, left, precedence).0),
    decreases state.tokens.len(), 2int,
{
    lemma_follows_itself(state);
    if !(state.peek() is Semicolon) && precedence.rank() < state.peek_precedence().rank() {
        if infix_rule(state.peek().value()) is Some {
            let at_operator = state.advance();
            lemma_advance_follows(state);
            if let Some(left) = left {
                lemma_infix_expression_sound(at_operator, left);
                let (joined, after) = infix_expression(at_operator, left);
                lemma_follows_is_transitive(after, at_operator, state);
                lemma_climb_sound(after, joined, precedence);
                lemma_follows_is_transitive(climb(after, joined, precedence).1, after, state);
            }
        }
    }
}

/// A binary operator with a well-formed left operand moves forward and
/// gives a well-formed expression.
pub proof fn lemma_infix_expression_sound(state: ParserView, left: ExpressionView)
    requires
        left.well_formed(),
    ensures
        follows(infix_expression(state, left).1, state),
        well_formed_expression(infix_expression(state, left).0),
    decreases state.tokens.len(), 2int,
{
    lemma_follows_itself(state);
    if state.current().literal() is Some {
        lemma_advance_follows(state);
        lemma_expression_sound(state.advance(), state.current_precedence());
        lemma_follows_is_transitive(
            expression(state.advance(), state.current_precedence()).1,
            state.advance(),
            state,
        );
    }
}

/// A unary operator with its operand moves forward and is well formed.
pub proof fn lemma_prefix_expression_sound(state: ParserView)
    ensures
        follows(prefix_expression(state).1, state),
        well_formed_expression(prefix_expression(state).0),
    decreases state.tokens.len(), 2int,
{
    lemma_follows_itself(state);
    if state.current().literal() is Some {
        lemma_advance_follows(state);
        lemma_expression_sound(state.advance(), Precedence::Prefix);
        lemma_follows_is_transitive(
            expression(state.advance(), Precedence::Prefix).1,
            state.advance(),
            state,
        );
    }
}

/// An expression in parentheses moves forward and is well formed.
pub proof fn lemma_grouped_expression_sound(state: ParserView)
    ensures
        follows(grouped_expression(state).1, state),
        well_formed_expression(grouped_expression(state).0),
    decreases state.tokens.len(), 2int,
{
    lemma_follows_itself(state);
    if state.current() is LeftParenthesis {
        lemma_advance_follows(state);
        lemma_expression_sound(state.advance(), Precedence::Lowest);
        let after = expression(state.advance(), Precedence::Lowest).1;
        lemma_follows_is_transitive(after, state.advance(), state);
        lemma_advance_follows(after);
        lemma_follows_is_transitive(after.advance(), after, state);
    }
}

/// An `if` expression moves forward and is well formed.
pub proof fn lemma_if_expression_sound(state: ParserView)
    ensures
        follows(if_expression(state).1, state),
        well_formed_expression(if_expression(state).0),
    decreases state.tokens.len(), 2int,
{
    lemma_follows_itself(state);
    if state.current() is If && state.peek() is LeftParenthesis {
        let at_condition = state.advance().advance();
        lemma_advance_follows(state);
        lemma_advance_follows(state.advance());
        lemma_follows_is_transitive(at_condition, state.advance(), state);
        lemma_expression_sound(at_condition, Precedence::Lowest);
        let (condition, after_condition) = expression(at_condition, Precedence::Lowest);
        lemma_follows_is_transitive(after_condition, at_condition, state);
        lemma_advance_follows(after_condition);
        lemma_follows_is_transitive(after_condition.advance(), after_condition, state);
        if condition is Some && after_condition.peek() is RightParenthesis
            && after_condition.advance().peek() is LeftBracket {
            let at_consequence = after_condition.advance().advance();
            lemma_advance_follows(after_condition.advance());
            lemma_follows_is_transitive(at_consequence, after_condition.advance(), state);
            lemma_block_sound(at_consequence);
            let (consequence, after_consequence) = block(at_consequence);
            lemma_follows_is_transitive(after_consequence, at_consequence, state);
            lemma_advance_follows(after_consequence);
            lemma_follows_is_transitive(after_consequence.advance(), after_consequence, state);
            if after_consequence.peek() is Else && after_consequence.advance().peek()
                is LeftBracket {
                let at_alternative = after_consequence.advance().advance();
                lemma_advance_follows(after_consequence.advance());
                lemma_follows_is_transitive(at_alternative, after_consequence.advance(), state);
                lemma_block_sound(at_alternative);
                lemma_follows_is_transitive(block(at_alternative).1, at_alternative, state);
            }
        }
    }
}

/// A function literal moves forward and is well formed.
pub proof fn lemma_function_literal_sound(state: ParserView)
    ensures
        follows(function_literal(state).1, state),
        well_formed_expression(function_literal(state).0),
    decreases state.tokens.len(), 2int,
{
    lemma_follows_itself(state);
    if state.current() is Function && state.peek() is LeftParenthesis {
        lemma_advance_follows(state);
        lemma_function_parameters_sound(state.advance());
        let (parameters, after_parameters) = function_parameters(state.advance());
        lemma_follows_is_transitive(after_parameters, state.advance(), state);
        if after_parameters.peek() is LeftBracket {
            lemma_advance_follows(after_parameters);
            lemma_follows_is_transitive(after_parameters.advance(), after_parameters, state);
            lemma_block_sound(after_parameters.advance());
            lemma_follows_is_transitive(
                block(after_parameters.advance()).1,
                after_parameters.advance(),
                state,
            );
        }
    }
}

/// A block moves forward, and its statements are well formed.
pub proof fn lemma_block_sound(state: ParserView)
    ensures
        follows(block(state).1, state),
        well_formed_statements(block(state).0),
    decreases state.tokens.len(), 9int,
{
    lemma_advance_follows(state);
    lemma_block_statements_sound(state.advance(), Seq::empty());
    lemma_follows_is_transitive(
        block_statements(state.advance(), Seq::empty()).1,
        state.advance(),
        state,
    );
}

/// The statements of a block move forward and are well formed.
pub proof fn lemma_block_statements_sound(state: ParserView, statements: Seq<StatementView>)
    requires
        well_formed_statements(statements),
    ensures
        follows(block_statements(state, statements).1, state),
        well_formed_statements(block_statements(state, statements).0),
    decreases state.tokens.len(), 8int,
{
    lemma_follows_itself(state);
    if !(state.current() is RightBracket || state.current() is Eof) {
        lemma_statement_sound(state);
        let (parsed, after) = statement(state);
        let more = match parsed {
            Some(parsed) => statements.push(parsed),
            None => statements,
        };
        lemma_advance_follows(after);
        lemma_follows_is_transitive(after.advance(), after, state);
        lemma_block_statements_sound(after.advance(), more);
        lemma_follows_is_transitive(
            block_statements(after.advance(), more).1,
            after.advance(),
            state,
        );
    }
}

/// The statements of a program move forward and are well formed, and at the
/// end the cursor stands on the end of the input.
pub proof fn lemma_program_statements_sound(state: ParserView, statements: Seq<StatementView>)
    requires
        well_formed_statements(statements),
    ensures
        follows(program_statements(state, statements).1, state),
        well_formed_statements(program_statements(state, statements).0),
        program_statements(state, statements).1.current() is Eof,
        statements.len() <= program_statements(state, statements).0.len(),
        statements == program_statements(state, statements).0.take(statements.len() as int),
    decreases state.tokens.len(),
{
    lemma_follows_itself(state);
    if !(state.current() is Eof) {
        lemma_statement_sound(state);
        let (parsed, after) = statement(state);
        let more = match parsed {
            Some(parsed) => statements.push(parsed),
            None => statements,
        };
        lemma_advance_follows(after);
        lemma_follows_is_transitive(after.advance(), after, state);
        lemma_program_statements_sound(after.advance(), more);
        lemma_follows_is_transitive(
            program_statements(after.advance(), more).1,
            after.advance(),
            state,
        );
        assert(statements =~= program_statements(state, statements).0.take(
            statements.len() as int,
        ));
    } else {
        assert(statements =~= statements.take(statements.len() as int));
    }
}

/// Parsing a program never turns back and never breaks a tree: it ends on
/// the end of the input, it keeps every diagnostic that was logged before it,
/// and in every statement of the program each literal agrees with its value.
pub proof fn lemma_program_sound(state: ParserView)
    ensures
        follows(program(state).1, state),
        program(state).1.current() is Eof,
        well_formed_statements(program(state).0),
{
    lemma_program_statements_sound(state, Seq::empty());
}

} // verus!
