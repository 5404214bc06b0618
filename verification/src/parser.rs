//! The parser: it draws tokens from a lexer, keeps the current token and the
//! one after it, and builds the syntax tree by precedence climbing. What it
//! computes is stated in `grammar`.

use crate::ast::{
    expression_views, lemma_block_view, lemma_function_view, optional_expression,
    optional_statement, statement_views, BlockStatement, Expression, LetStatement, Program,
    Statement,
};
use crate::grammar::{
    block, block_statements, boolean_expression, climb, expected_message, expression,
    expression_statement, function_literal, function_parameters, grouped_expression,
    if_expression, infix_expression, infix_rule, integer_literal_expression, let_statement,
    more_parameters, no_longer, prefix, prefix_expression, prefix_rule, program,
    program_statements, return_statement, statement, terminated_expression, InfixParseFunction,
    ParserView, PrefixParseFunction,
};
use crate::integer::parse_integer;
use crate::laws::{follows, lemma_program_sound, well_formed_statements};
use crate::lexer::{lemma_step_takes_first_pending, Lexer};
use crate::token::{debug_token, token_name, token_value, Token, TokenView};
use vstd::prelude::*;

verus! {

pub struct Parser {
    lexer: Lexer,
    current_token: Token,
    peek_token: Token,
    pub errors: Vec<String>,
}

/// Binding strengths, from the loosest to the tightest.
#[derive(Clone, Copy, Debug, PartialEq, Eq, Structural)]
pub enum Precedence {
    Lowest,
    Equals,
    LessGreater,
    Sum,
    Product,
    Prefix,
    Call,
}

impl Precedence {
    /// The rank of a level: a higher rank binds tighter.
    pub open spec fn rank(self) -> u8 {
        match self {
            Precedence::Lowest => 0,
            Precedence::Equals => 1,
            Precedence::LessGreater => 2,
            Precedence::Sum => 3,
            Precedence::Product => 4,
            Precedence::Prefix => 5,
            Precedence::Call => 6,
        }
    }

    pub fn value(&self) -> (r: u8)
        ensures
            r == self.rank(),
    {
        match self {
            Precedence::Lowest => 0,
            Precedence::Equals => 1,
            Precedence::LessGreater => 2,
            Precedence::Sum => 3,
            Precedence::Product => 4,
            Precedence::Prefix => 5,
            Precedence::Call => 6,
        }
    }
}

/// The texts of a sequence of strings.
pub open spec fn texts(strings: Seq<String>) -> Seq<Seq<char>> {
    strings.map_values(|string: String| string@)
}

impl View for Parser {
    type V = ParserView;

    closed spec fn view(&self) -> ParserView {
        ParserView { tokens: self.tokens(), errors: texts(self.errors@) }
    }
}

/// A parser on the tokens of `lexer`, with both lookahead slots filled and
/// nothing logged. A lexer that has finished reads as an empty input.
pub fn new(lexer: Lexer) -> (parser: Parser)
    ensures
        parser@ == (ParserView { tokens: lexer@.pending(), errors: Seq::empty() }),
{
    let mut parser = Parser {
        lexer,
        current_token: Token::Illegal,
        peek_token: Token::Illegal,
        errors: Vec::new(),
    };
    let ghost start = parser@;
    parser.next_token_n_times(2);
    proof {
        assert(start.advance_n(2) == start.advance_n(1).advance());
        assert(start.advance_n(1) == start.advance_n(0).advance());
        assert(parser@.tokens =~= lexer@.pending());
        assert(parser@.errors =~= Seq::<Seq<char>>::empty());
    }
    parser
}

/// The rule by which a token of discriminant `kind` starts an expression.
fn prefix_parse_function(kind: i8) -> (rule: Option<PrefixParseFunction>)
    ensures
        rule == prefix_rule(kind),
{
    if kind == token_value::IDENTIFIER {
        Some(PrefixParseFunction::Identifier)
    } else if kind == token_value::BOOL {
        Some(PrefixParseFunction::Boolean)
    } else if kind == token_value::INT {
        Some(PrefixParseFunction::IntegerLiteral)
    } else if kind == token_value::PLUS || kind == token_value::MINUS || kind == token_value::BANG
        || kind == token_value::LESS_THAN {
        Some(PrefixParseFunction::PrefixOperator)
    } else if kind == token_value::LEFT_PARENTHESIS {
        Some(PrefixParseFunction::Grouped)
    } else if kind == token_value::IF {
        Some(PrefixParseFunction::If)
    } else if kind == token_value::FUNCTION {
        Some(PrefixParseFunction::FunctionLiteral)
    } else {
        None
    }
}

/// The rule by which a token of discriminant `kind` continues an expression.
fn infix_parse_function(kind: i8) -> (rule: Option<InfixParseFunction>)
    ensures
        rule == infix_rule(kind),
{
    if kind == token_value::PLUS || kind == token_value::MINUS || kind == token_value::SLASH
        || kind == token_value::ASTERISK || kind == token_value::EQUAL || kind
        == token_value::NOT_EQUAL || kind == token_value::LESS_THAN || kind
        == token_value::GREATER_THAN {
        Some(InfixParseFunction::InfixOperator)
    } else {
        None
    }
}

impl Parser {
    /// The tokens from the current one on, without the end-of-input token
    /// that closes them.
    closed spec fn tokens(&self) -> Seq<TokenView> {
        if self.peek_token@ is Eof {
            if self.current_token@ is Eof {
                Seq::empty()
            } else {
                seq![self.current_token@]
            }
        } else {
            seq![self.current_token@, self.peek_token@] + self.lexer@.pending()
        }
    }

    /// The two lookahead slots hold the first two tokens of the model.
    proof fn lemma_cursor(&self)
        ensures
            self@.current() == self.current_token@,
            self@.peek() == self.peek_token@,
    {
    }

    /// The diagnostics logged so far, oldest first.
    pub fn error_log(&self) -> (log: &Vec<String>)
        ensures
            texts(log@) == self@.errors,
    {
        &self.errors
    }

    /// Moves the cursor on by one token. At the end of the input it stays.
    pub fn next_token(&mut self)
        ensures
            final(self)@ == old(self)@.advance(),
    {
        let ghost lexer = self.lexer@;
        self.current_token = self.peek_token.clone();
        self.peek_token = match self.current_token {
            Token::Eof => Token::Eof,
            _ => match self.lexer.next_token() {
                Ok(token) => token,
                Err(_) => Token::Eof,
            },
        };
        proof {
            if !lexer.finished {
                lemma_step_takes_first_pending(lexer);
            }
            assert(self@.tokens =~= old(self)@.advance().tokens);
        }
    }

    /// Moves the cursor on `n` times.
    pub fn next_token_n_times(&mut self, n: u32)
        ensures
            final(self)@ == old(self)@.advance_n(n as nat),
    {
        let mut i: u32 = 0;
        while i < n
            invariant
                i <= n,
                self@ == old(self)@.advance_n(i as nat),
            decreases n - i,
        {
            self.next_token();
            i += 1;
        }
    }

    /// Parses the whole input: statement after statement up to the end. A
    /// statement that fails is left out of the program, and what was wrong
    /// with it is found in `errors`.
    pub fn parse(&mut self) -> (r: Result<Program, String>)
        ensures
            r is Ok,
            r->Ok_0@ == program(old(self)@).0,
            final(self)@ == program(old(self)@).1,
            final(self)@.current() is Eof,
            follows(final(self)@, old(self)@),
            well_formed_statements(r->Ok_0@),
    {
        let mut statements: Vec<Statement> = Vec::new();
        assert(statement_views(statements@) =~= Seq::<crate::ast::StatementView>::empty());

        while !self.current_is_eof()
            invariant
                program_statements(self@, statement_views(statements@)) == program(old(self)@),
            decreases self@.tokens.len(),
        {
            let ghost before = self@;
            let ghost parsed = statements@;
            if let Some(statement) = self.parse_statement() {
                statements.push(statement);
                assert(statement_views(statements@) =~= statement_views(parsed).push(statement@));
            }
            self.next_token();
        }

        proof {
            lemma_program_sound(old(self)@);
        }
        return Ok(Program { statements });
    }

    fn current_is_eof(&self) -> (r: bool)
        ensures
            r == self@.current() is Eof,
    {
        proof {
            self.lemma_cursor();
        }
        matches!(self.current_token, Token::Eof)
    }

    fn parse_statement(&mut self) -> (r: Option<Statement>)
        ensures
            optional_statement(r) == statement(old(self)@).0,
            final(self)@ == statement(old(self)@).1,
            no_longer(final(self)@, old(self)@),
        decreases old(self)@.tokens.len(), 7int,
    {
        proof {
            self.lemma_cursor();
        }
        return match self.current_token {
            Token::Let => self.parse_let_statement(),
            Token::Return => self.parse_return_statement(),
            _ => self.parse_expression_statement(),
        };
    }

    fn parse_let_statement(&mut self) -> (r: Option<Statement>)
        ensures
            optional_statement(r) == let_statement(old(self)@).0,
            final(self)@ == let_statement(old(self)@).1,
            no_longer(final(self)@, old(self)@),
        decreases old(self)@.tokens.len(), 6int,
    {
        proof {
            self.lemma_cursor();
        }
        if let Token::Identifier { literal } = self.peek_token.clone() {
            self.next_token();
            proof {
                self.lemma_cursor();
            }

            if !matches!(self.peek_token, Token::Assign) {
                self.add_err(token_name::ASSIGN, self.peek_token.clone());
                return None;
            }
            self.next_token_n_times(2);
            proof {
                let at_name = old(self)@.advance();
                assert(at_name.advance_n(2) == at_name.advance_n(1).advance());
                assert(at_name.advance_n(1) == at_name.advance_n(0).advance());
            }

            let expression = self.parse_expression()?;

            return Some(Statement::Let(LetStatement { identifier_name: literal, value: expression }));
        }
        self.add_err(token_name::IDENTIFIER, self.peek_token.clone());
        return None;
    }

    fn parse_return_statement(&mut self) -> (r: Option<Statement>)
        ensures
            optional_statement(r) == return_statement(old(self)@).0,
            final(self)@ == return_statement(old(self)@).1,
            no_longer(final(self)@, old(self)@),
        decreases old(self)@.tokens.len(), 6int,
    {
        self.next_token();
        let expression = self.parse_expression()?;
        return Some(Statement::Return(expression));
    }

    /// The expression of a `let` or a `return`, from its first token to the
    /// semicolon that may follow it.
    fn parse_expression(&mut self) -> (r: Option<Expression>)
        ensures
            optional_expression(r) == terminated_expression(old(self)@).0,
            final(self)@ == terminated_expression(old(self)@).1,
            no_longer(final(self)@, old(self)@),
        decreases old(self)@.tokens.len(), 5int,
    {
        let expression = self.parse_expression_precedence(Precedence::Lowest)?;
        proof {
            self.lemma_cursor();
        }
        if matches!(self.peek_token, Token::Semicolon) {
            self.next_token();
        }
        return Some(expression);
    }

    fn parse_expression_statement(&mut self) -> (r: Option<Statement>)
        ensures
            optional_statement(r) == expression_statement(old(self)@).0,
            final(self)@ == expression_statement(old(self)@).1,
            no_longer(final(self)@, old(self)@),
        decreases old(self)@.tokens.len(), 6int,
    {
        let expression = self.parse_expression_precedence(Precedence::Lowest)?;
        proof {
            self.lemma_cursor();
        }
        if matches!(self.peek_token, Token::Semicolon) {
            self.next_token();
        }
        return Some(Statement::Expression(expression));
    }

    fn parse_expression_precedence(&mut self, precedence: Precedence) -> (r: Option<Expression>)
        ensures
            optional_expression(r) == expression(old(self)@, precedence).0,
            final(self)@ == expression(old(self)@, precedence).1,
            no_longer(final(self)@, old(self)@),
        decreases old(self)@.tokens.len(), 4int,
    {
        proof {
            self.lemma_cursor();
        }
        let prefix_parse_function = prefix_parse_function(self.current_token.value());
        let rule = match prefix_parse_function {
            Some(rule) => rule,
            None => {
                let message = "Parsing error, no prefix parsing function defined for ".to_owned();
                let message = message.concat(debug_token(&self.current_token).as_str());
                self.log(message);
                return None;
            },
        };

        let mut left_expression = self.parse_prefix(rule);
        loop
            invariant
                no_longer(self@, old(self)@),
                climb(self@, optional_expression(left_expression), precedence) == expression(
                    old(self)@,
                    precedence,
                ),
            decreases self@.tokens.len(),
        {
            proof {
                self.lemma_cursor();
            }
            let peek_precedence = self.get_peek_token_precedence();
            if matches!(self.peek_token, Token::Semicolon) || precedence.value()
                >= peek_precedence.value() {
                return left_expression;
            }
            let infix = infix_parse_function(self.peek_token.value());
            if infix.is_none() {
                return left_expression;
            }
            self.next_token();
            left_expression = self.parse_infix_expression(left_expression?);
        }
    }

    /// Applies a prefix rule at the current token.
    fn parse_prefix(&mut self, rule: PrefixParseFunction) -> (r: Option<Expression>)
        requires
            prefix_rule(old(self)@.current().value()) == Some(rule),
        ensures
            optional_expression(r) == prefix(old(self)@, rule).0,
            final(self)@ == prefix(old(self)@, rule).1,
            no_longer(final(self)@, old(self)@),
        decreases old(self)@.tokens.len(), 3int,
    {
        proof {
            self.lemma_cursor();
        }
        match rule {
            PrefixParseFunction::Identifier => Some(
                Expression::Identifier(self.current_token.clone()),
            ),
            PrefixParseFunction::Boolean => self.parse_boolean_expression(),
            PrefixParseFunction::IntegerLiteral => self.parse_integer_literal_expression(),
            PrefixParseFunction::PrefixOperator => self.parse_prefix_expression(),
            PrefixParseFunction::Grouped => self.parse_grouped_expression(),
            PrefixParseFunction::If => self.parse_if_expression(),
            PrefixParseFunction::FunctionLiteral => self.parse_function_literal(),
        }
    }

    fn parse_integer_literal_expression(&mut self) -> (r: Option<Expression>)
        ensures
            optional_expression(r) == integer_literal_expression(old(self)@).0,
            final(self)@ == integer_literal_expression(old(self)@).1,
            no_longer(final(self)@, old(self)@),
    {
        proof {
            self.lemma_cursor();
        }
        if let Token::Int { literal } = self.current_token.clone() {
            return match parse_integer(literal.as_str()) {
                Ok(value) => Some(
                    Expression::IntegerLiteral { token: self.current_token.clone(), value },
                ),
                Err(error) => {
                    let message = "Parsing error, could not parse: ".to_owned();
                    let message = message.concat(literal.as_str());
                    let message = message.concat("; ");
                    let message = message.concat(error.message());
                    self.log(message);
                    None
                },
            };
        }
        return None;
    }

    fn parse_boolean_expression(&mut self) -> (r: Option<Expression>)
        ensures
            optional_expression(r) == boolean_expression(old(self)@).0,
            final(self)@ == boolean_expression(old(self)@).1,
            no_longer(final(self)@, old(self)@),
    {
        proof {
            self.lemma_cursor();
        }
        let value = match self.current_token {
            Token::False => Some(false),
            Token::True => Some(true),
            _ => None,
        }?;
        Some(Expression::Boolean { token: self.current_token.clone(), value })
    }

    fn parse_prefix_expression(&mut self) -> (r: Option<Expression>)
        ensures
            optional_expression(r) == prefix_expression(old(self)@).0,
            final(self)@ == prefix_expression(old(self)@).1,
            no_longer(final(self)@, old(self)@),
        decreases old(self)@.tokens.len(), 2int,
    {
        proof {
            self.lemma_cursor();
        }
        let operator = self.current_token.literal()?;

        self.next_token();

        let right = self.parse_expression_precedence(Precedence::Prefix)?;

        return Some(Expression::PrefixExpression { operator, right: Box::new(right) });
    }

    fn parse_grouped_expression(&mut self) -> (r: Option<Expression>)
        requires
            old(self)@.current() is LeftParenthesis,
        ensures
            optional_expression(r) == grouped_expression(old(self)@).0,
            final(self)@ == grouped_expression(old(self)@).1,
            no_longer(final(self)@, old(self)@),
        decreases old(self)@.tokens.len(), 2int,
    {
        self.next_token();
        let expression = self.parse_expression_precedence(Precedence::Lowest);
        proof {
            self.lemma_cursor();
        }

        match matches!(self.peek_token, Token::RightParenthesis) {
            true => {
                self.next_token();
                return expression;
            },
            false => None,
        }
    }

    fn parse_infix_expression(&mut self, left: Expression) -> (r: Option<Expression>)
        ensures
            optional_expression(r) == infix_expression(old(self)@, left@).0,
            final(self)@ == infix_expression(old(self)@, left@).1,
            no_longer(final(self)@, old(self)@),
        decreases old(self)@.tokens.len(), 2int,
    {
        proof {
            self.lemma_cursor();
        }
        let operator = self.current_token.literal()?;
        let precedence = self.get_current_token_precedence();
        self.next_token();
        let right = self.parse_expression_precedence(precedence)?;

        return Some(
            Expression::InfixExpression { operator, left: Box::new(left), right: Box::new(right) },
        );
    }

    fn parse_if_expression(&mut self) -> (r: Option<Expression>)
        requires
            old(self)@.current() is If,
        ensures
            optional_expression(r) == if_expression(old(self)@).0,
            final(self)@ == if_expression(old(self)@).1,
            no_longer(final(self)@, old(self)@),
        decreases old(self)@.tokens.len(), 2int,
    {
        proof {
            self.lemma_cursor();
        }
        let current_token = self.current_token.clone();

        if !matches!(self.peek_token, Token::LeftParenthesis) {
            return None;
        }
        self.next_token_n_times(2);
        proof {
            assert(old(self)@.advance_n(2) == old(self)@.advance_n(1).advance());
            assert(old(self)@.advance_n(1) == old(self)@.advance_n(0).advance());
        }

        let condition = self.parse_expression_precedence(Precedence::Lowest)?;
        proof {
            self.lemma_cursor();
        }

        if !matches!(self.peek_token, Token::RightParenthesis) {
            return None;
        }
        self.next_token();
        proof {
            self.lemma_cursor();
        }

        if !matches!(self.peek_token, Token::LeftBracket) {
            return None;
        }
        self.next_token();

        let consequence = self.parse_block_statement();
        proof {
            self.lemma_cursor();
        }

        if !matches!(self.peek_token, Token::Else) {
            return Some(
                Expression::IfExpression {
                    token: current_token,
                    condition: Box::new(condition),
                    consequence,
                    alternative: None,
                },
            );
        }
        self.next_token();
        proof {
            self.lemma_cursor();
        }

        if !matches!(self.peek_token, Token::LeftBracket) {
            return None;
        }
        self.next_token();

        let alternative = self.parse_block_statement();

        return Some(
            Expression::IfExpression {
                token: current_token,
                condition: Box::new(condition),
                consequence,
                alternative: Some(alternative),
            },
        );
    }

    fn parse_function_literal(&mut self) -> (r: Option<Expression>)
        requires
            old(self)@.current() is Function,
        ensures
            optional_expression(r) == function_literal(old(self)@).0,
            final(self)@ == function_literal(old(self)@).1,
            no_longer(final(self)@, old(self)@),
        decreases old(self)@.tokens.len(), 2int,
    {
        proof {
            self.lemma_cursor();
        }
        let fn_token = self.current_token.clone();

        if !matches!(self.peek_token, Token::LeftParenthesis) {
            return None;
        }
        self.next_token();

        let parameters = self.parse_function_parameters();
        proof {
            self.lemma_cursor();
        }

        if !matches!(self.peek_token, Token::LeftBracket) {
            return None;
        }
        self.next_token();

        let body = self.parse_block_statement();
        proof {
            lemma_function_view(fn_token, parameters, body);
            lemma_block_view(body);
        }

        return Some(Expression::Function { token: fn_token, parameters, body });
    }

    fn parse_function_parameters(&mut self) -> (parameters: Vec<Expression>)
        ensures
            expression_views(parameters@) == function_parameters(old(self)@).0,
            final(self)@ == function_parameters(old(self)@).1,
            no_longer(final(self)@, old(self)@),
    {
        let mut parameters: Vec<Expression> = Vec::new();
        proof {
            self.lemma_cursor();
            assert(expression_views(parameters@) =~= Seq::<crate::ast::ExpressionView>::empty());
        }

        if matches!(self.peek_token, Token::RightParenthesis) {
            self.next_token();
            return parameters;
        }
        self.next_token();
        self.add_parameter(&mut parameters);
        let ghost at_first = self@;
        assert(expression_views(parameters@) =~= seq![
            crate::ast::ExpressionView::Identifier(at_first.current()),
        ]);

        while self.peek_is_comma()
            invariant
                at_first == old(self)@.advance(),
                !(old(self)@.peek() is RightParenthesis),
                no_longer(self@, at_first),
                more_parameters(self@, expression_views(parameters@)) == more_parameters(
                    at_first,
                    seq![crate::ast::ExpressionView::Identifier(at_first.current())],
                ),
            decreases self@.tokens.len(),
        {
            let ghost at_comma = self@;
            self.next_token_n_times(2);
            proof {
                assert(at_comma.advance_n(2) == at_comma.advance_n(1).advance());
                assert(at_comma.advance_n(1) == at_comma.advance_n(0).advance());
            }
            self.add_parameter(&mut parameters);
        }
        proof {
            self.lemma_cursor();
        }

        if !matches!(self.peek_token, Token::RightParenthesis) {
            let message = "Expected right parenthesis, got: ".to_owned();
            let message = message.concat(debug_token(&self.peek_token).as_str());
            self.log(message);
        }
        self.next_token();

        return parameters;
    }

    fn add_parameter(&mut self, parameters: &mut Vec<Expression>)
        ensures
            *final(self) == *old(self),
            final(parameters)@ == old(parameters)@.push(
                Expression::Identifier(old(self).current_token),
            ),
            expression_views(final(parameters)@) == expression_views(old(parameters)@).push(
                crate::ast::ExpressionView::Identifier(old(self)@.current()),
            ),
    {
        proof {
            self.lemma_cursor();
        }
        let parameter = Expression::Identifier(self.current_token.clone());
        parameters.push(parameter);
        assert(expression_views(parameters@) =~= expression_views(old(parameters)@).push(
            crate::ast::ExpressionView::Identifier(old(self)@.current()),
        ));
    }

    fn parse_block_statement(&mut self) -> (r: BlockStatement)
        ensures
            r@ == block(old(self)@).0,
            final(self)@ == block(old(self)@).1,
            no_longer(final(self)@, old(self)@),
        decreases old(self)@.tokens.len(), 9int,
    {
        let mut statements: Vec<Statement> = Vec::new();
        self.next_token();
        assert(statement_views(statements@) =~= Seq::<crate::ast::StatementView>::empty());

        while !self.current_ends_block()
            invariant
                no_longer(self@, old(self)@),
                block_statements(self@, statement_views(statements@)) == block(old(self)@),
            decreases self@.tokens.len(),
        {
            let ghost parsed = statements@;
            if let Some(statement) = self.parse_statement() {
                statements.push(statement);
                assert(statement_views(statements@) =~= statement_views(parsed).push(statement@));
            }
            self.next_token();
        }

        let block = BlockStatement { statements };
        proof {
            lemma_block_view(block);
        }
        return block;
    }

    fn peek_is_comma(&self) -> (r: bool)
        ensures
            r == self@.peek() is Comma,
    {
        proof {
            self.lemma_cursor();
        }
        matches!(self.peek_token, Token::Comma)
    }

    fn current_ends_block(&self) -> (r: bool)
        ensures
            r == (self@.current() is RightBracket || self@.current() is Eof),
    {
        proof {
            self.lemma_cursor();
        }
        matches!(self.current_token, Token::RightBracket) || matches!(
            self.current_token,
            Token::Eof
        )
    }

    fn get_peek_token_precedence(&mut self) -> (r: Precedence)
        ensures
            *final(self) == *old(self),
            r == old(self)@.peek_precedence(),
    {
        proof {
            self.lemma_cursor();
        }
        match self.peek_token.precedence() {
            Some(precedence) => precedence,
            None => Precedence::Lowest,
        }
    }

    fn get_current_token_precedence(&mut self) -> (r: Precedence)
        ensures
            *final(self) == *old(self),
            r == old(self)@.current_precedence(),
    {
        proof {
            self.lemma_cursor();
        }
        match self.current_token.precedence() {
            Some(precedence) => precedence,
            None => Precedence::Lowest,
        }
    }

    fn add_err(&mut self, expected: &str, value: Token)
        ensures
            final(self)@ == old(self)@.log(expected_message(expected@, value@)),
    {
        let message = "Parsing error, expected: \"".to_owned();
        let message = message.concat(expected);
        let message = message.concat("\", found: ");
        let message = message.concat(debug_token(&value).as_str());
        self.log(message)
    }

    /// Appends a diagnostic to the log.
    fn log(&mut self, message: String)
        ensures
            final(self)@ == old(self)@.log(message@),
    {
        self.errors.push(message);
        assert(texts(self.errors@) =~= texts(old(self).errors@).push(message@));
    }
}

} // verus!
