//! The lexer: it reads a source text from left to right and hands out one
//! token per call.

use crate::text::{alphanumeric, chars_of, numeric, same_text};
use crate::token::{Token, TokenView};
use vstd::prelude::*;

verus! {

/// The blanks between tokens: space, tab, line feed and carriage return.
pub open spec fn is_whitespace(c: char) -> bool {
    c == ' ' || c == '\t' || c == '\n' || c == '\r'
}

/// How many blanks stand in `source` from index `i` on without a break.
pub open spec fn blank_length(source: Seq<char>, i: nat) -> nat
    decreases source.len() - i,
{
    if i < source.len() && is_whitespace(source[i as int]) {
        1 + blank_length(source, i + 1)
    } else {
        0
    }
}

/// How many alphanumeric characters stand in `source` from index `i` on
/// without a break.
pub open spec fn word_length(source: Seq<char>, i: nat) -> nat
    decreases source.len() - i,
{
    if i < source.len() && alphanumeric(source[i as int]) {
        1 + word_length(source, i + 1)
    } else {
        0
    }
}

/// The token that a reserved word stands for.
pub open spec fn keyword(word: Seq<char>) -> Option<TokenView> {
    if word == "if"@ {
        Some(TokenView::If)
    } else if word == "else"@ {
        Some(TokenView::Else)
    } else if word == "fn"@ {
        Some(TokenView::Function)
    } else if word == "let"@ {
        Some(TokenView::Let)
    } else if word == "return"@ {
        Some(TokenView::Return)
    } else if word == "true"@ {
        Some(TokenView::True)
    } else if word == "false"@ {
        Some(TokenView::False)
    } else {
        None
    }
}

/// The token of an alphanumeric word: a reserved word has its own token;
/// any other word is an integer if it starts with a numeric character,
/// whatever follows, and an identifier if not.
pub open spec fn classify(word: Seq<char>) -> TokenView {
    match keyword(word) {
        Some(token) => token,
        None => if word.len() > 0 && numeric(word[0]) {
            TokenView::Int { literal: word }
        } else {
            TokenView::Identifier { literal: word }
        },
    }
}

/// Whether `source` holds the character `c` at index `i`.
pub open spec fn has_char_at(source: Seq<char>, i: nat, c: char) -> bool {
    i < source.len() && source[i as int] == c
}

/// The token that starts at index `i` of `source`, and the index after its
/// last character. `i` is an index of `source` and holds no blank.
pub open spec fn scan(source: Seq<char>, i: nat) -> (TokenView, nat) {
    let c = source[i as int];
    if c == '(' {
        (TokenView::LeftParenthesis, i + 1)
    } else if c == ')' {
        (TokenView::RightParenthesis, i + 1)
    } else if c == '+' {
        (TokenView::Plus, i + 1)
    } else if c == '-' {
        (TokenView::Minus, i + 1)
    } else if c == ',' {
        (TokenView::Comma, i + 1)
    } else if c == ';' {
        (TokenView::Semicolon, i + 1)
    } else if c == '{' {
        (TokenView::LeftBracket, i + 1)
    } else if c == '}' {
        (TokenView::RightBracket, i + 1)
    } else if c == '/' {
        (TokenView::Slash, i + 1)
    } else if c == '*' {
        (TokenView::Asterisk, i + 1)
    } else if c == '<' {
        (TokenView::LessThan, i + 1)
    } else if c == '>' {
        (TokenView::GreaterThan, i + 1)
    } else if c == '=' {
        if has_char_at(source, i + 1, '=') {
            (TokenView::Equal, i + 2)
        } else {
            (TokenView::Assign, i + 1)
        }
    } else if c == '!' {
        if has_char_at(source, i + 1, '=') {
            (TokenView::NotEqual, i + 2)
        } else {
            (TokenView::Bang, i + 1)
        }
    } else if alphanumeric(c) {
        let end = i + word_length(source, i);
        (classify(source.subrange(i as int, end as int)), end)
    } else {
        (TokenView::Illegal, i + 1)
    }
}

/// The tokens of `source` from index `i` on, without the end-of-input
/// token that closes them.
pub open spec fn tokens_from(source: Seq<char>, i: nat) -> Seq<TokenView>
    decreases source.len() - i,
{
    if i >= source.len() {
        Seq::empty()
    } else if is_whitespace(source[i as int]) {
        tokens_from(source, i + 1)
    } else {
        proof {
            lemma_scan_advances(source, i);
        }
        seq![scan(source, i).0] + tokens_from(source, scan(source, i).1)
    }
}

/// A token is at least one character long and ends within the text.
pub proof fn lemma_scan_advances(source: Seq<char>, i: nat)
    requires
        i < source.len(),
    ensures
        i < scan(source, i).1 <= source.len(),
{
    lemma_word_length_bound(source, i);
}

/// A word ends within the text.
pub proof fn lemma_word_length_bound(source: Seq<char>, i: nat)
    requires
        i <= source.len(),
    ensures
        i + word_length(source, i) <= source.len(),
    decreases source.len() - i,
{
    if i < source.len() && alphanumeric(source[i as int]) {
        lemma_word_length_bound(source, i + 1);
    }
}

/// The tokens of a whole source text, without the end-of-input token.
pub open spec fn tokens_of(source: Seq<char>) -> Seq<TokenView> {
    tokens_from(source, 0)
}

/// A lexer as a mathematical value.
pub struct LexerView {
    /// The text being read.
    pub source: Seq<char>,
    /// The index of the next character to look at.
    pub index: nat,
    /// Whether the end-of-input token has been handed out.
    pub finished: bool,
}

impl LexerView {
    /// A lexer that has read nothing of `source` yet.
    pub open spec fn start(source: Seq<char>) -> LexerView {
        LexerView { source, index: 0, finished: false }
    }

    /// What one call hands out, and the lexer after it, for a lexer that
    /// has not finished: the blanks are passed over; at the end of the text
    /// the token is end-of-input and the lexer has finished; anywhere else
    /// it is the token that starts there.
    pub open spec fn step(self) -> (TokenView, LexerView) {
        let at = self.index + blank_length(self.source, self.index);
        if at >= self.source.len() {
            (TokenView::Eof, LexerView { source: self.source, index: at, finished: true })
        } else {
            (
                scan(self.source, at).0,
                LexerView { source: self.source, index: scan(self.source, at).1, finished: false },
            )
        }
    }

    /// The tokens still to come before end-of-input.
    pub open spec fn pending(self) -> Seq<TokenView> {
        if self.finished {
            Seq::empty()
        } else {
            tokens_from(self.source, self.index)
        }
    }

    /// Every token that the calls still hand out before they fail: the
    /// pending ones and then end-of-input, once.
    pub open spec fn drained(self) -> Seq<TokenView> {
        if self.finished {
            Seq::empty()
        } else {
            self.pending().push(TokenView::Eof)
        }
    }
}

pub struct Lexer {
    source_code: Vec<char>,
    current_index: usize,
    finished: bool,
}

impl Lexer {
    #[verifier::type_invariant]
    spec fn within_source(self) -> bool {
        self.current_index <= self.source_code.len()
    }
}

impl View for Lexer {
    type V = LexerView;

    closed spec fn view(&self) -> LexerView {
        LexerView {
            source: self.source_code@,
            index: self.current_index as nat,
            finished: self.finished,
        }
    }
}

/// The message of the one error that the lexer knows.
pub open spec fn already_tokenized() -> Seq<char> {
    "source code already tokenized"@
}

impl Lexer {
    /// Hands out the next token. After end-of-input has been handed out
    /// once, every further call fails and leaves the lexer as it is.
    pub fn next_token(&mut self) -> (r: Result<Token, &'static str>)
        ensures
            final(self)@.source == old(self)@.source,
            old(self)@.index <= final(self)@.index <= final(self)@.source.len(),
            old(self)@.finished ==> r is Err && r->Err_0@ == already_tokenized() && final(self)@
                == old(self)@,
            !old(self)@.finished ==> r is Ok && r->Ok_0@ == old(self)@.step().0 && final(self)@
                == old(self)@.step().1,
    {
        proof {
            use_type_invariant(&*self);
        }
        if self.finished {
            return Err("source code already tokenized");
        }
        self.skip_whitespace();

        let len = self.source_code.len();

        if self.current_index >= len {
            self.finished = true;
            return Ok(Token::Eof);
        }
        let character = self.current_char();

        let token = match character {
            '(' => Token::LeftParenthesis,
            ')' => Token::RightParenthesis,
            '+' => Token::Plus,
            '-' => Token::Minus,
            ',' => Token::Comma,
            ';' => Token::Semicolon,
            '{' => Token::LeftBracket,
            '}' => Token::RightBracket,
            '/' => Token::Slash,
            '*' => Token::Asterisk,
            '<' => Token::LessThan,
            '>' => Token::GreaterThan,
            '=' => {
                if self.next_char_is('=') {
                    self.current_index += 1;
                    Token::Equal
                } else {
                    Token::Assign
                }
            },
            '!' => {
                if self.next_char_is('=') {
                    self.current_index += 1;
                    Token::NotEqual
                } else {
                    Token::Bang
                }
            },
            c => {
                if c.is_alphanumeric() {
                    self.read_alphanumeric()
                } else {
                    Token::Illegal
                }
            },
        };

        self.current_index += 1;
        Ok(token)
    }

    fn skip_whitespace(&mut self)
        requires
            old(self).current_index <= old(self).source_code.len(),
        ensures
            final(self).source_code == old(self).source_code,
            final(self).finished == old(self).finished,
            final(self).current_index == old(self).current_index + blank_length(
                old(self).source_code@,
                old(self).current_index as nat,
            ),
            final(self).current_index <= final(self).source_code.len(),
    {
        let len = self.source_code.len();
        while self.current_index < len && is_blank(self.current_char())
            invariant
                self.source_code == old(self).source_code,
                self.finished == old(self).finished,
                len == self.source_code.len(),
                old(self).current_index <= self.current_index <= len,
                (self.current_index - old(self).current_index) + blank_length(
                    self.source_code@,
                    self.current_index as nat,
                ) == blank_length(old(self).source_code@, old(self).current_index as nat),
            decreases len - self.current_index,
        {
            self.current_index += 1
        }
    }

    fn get_char(&self, index: usize) -> (c: char)
        requires
            index < self.source_code.len(),
        ensures
            c == self.source_code@[index as int],
    {
        self.source_code[index]
    }

    fn current_char(&self) -> (c: char)
        requires
            self.current_index < self.source_code.len(),
        ensures
            c == self.source_code@[self.current_index as int],
    {
        self.get_char(self.current_index)
    }

    /// The character after the current one, if the text goes on.
    fn next_char(&self) -> (c: Option<char>)
        requires
            self.current_index < self.source_code.len(),
        ensures
            c == if self.current_index + 1 < self.source_code.len() {
                Some(self.source_code@[self.current_index + 1])
            } else {
                None
            },
    {
        if self.current_index + 1 < self.source_code.len() {
            Some(self.get_char(self.current_index + 1))
        } else {
            None
        }
    }

    fn next_char_is(&self, expected: char) -> (r: bool)
        requires
            self.current_index < self.source_code.len(),
        ensures
            r == has_char_at(self.source_code@, (self.current_index + 1) as nat, expected),
    {
        match self.next_char() {
            Some(c) => c == expected,
            None => false,
        }
    }

    fn next_char_is_alphanumeric(&self) -> (r: bool)
        requires
            self.current_index < self.source_code.len(),
        ensures
            r == (self.current_index + 1 < self.source_code.len() && alphanumeric(
                self.source_code@[self.current_index + 1],
            )),
    {
        match self.next_char() {
            Some(c) => c.is_alphanumeric(),
            None => false,
        }
    }

    /// Reads the word that starts at the current character and stops on its
    /// last character.
    fn read_alphanumeric(&mut self) -> (token: Token)
        requires
            old(self).current_index < old(self).source_code.len(),
            alphanumeric(old(self).source_code@[old(self).current_index as int]),
        ensures
            final(self).source_code == old(self).source_code,
            final(self).finished == old(self).finished,
            final(self).current_index < final(self).source_code.len(),
            final(self).current_index + 1 == old(self).current_index + word_length(
                old(self).source_code@,
                old(self).current_index as nat,
            ),
            token@ == classify(
                old(self).source_code@.subrange(
                    old(self).current_index as int,
                    final(self).current_index + 1,
                ),
            ),
    {
        let ghost start = self.current_index as nat;
        let ghost source = self.source_code@;
        let mut literal = String::new();
        literal.push(self.current_char());
        assert(literal@ =~= source.subrange(start as int, start as int + 1));
        while self.next_char_is_alphanumeric()
            invariant
                self.source_code == old(self).source_code,
                self.finished == old(self).finished,
                source == self.source_code@,
                start == old(self).current_index,
                start <= self.current_index < self.source_code.len(),
                alphanumeric(source[self.current_index as int]),
                literal@ == source.subrange(start as int, self.current_index + 1),
                (self.current_index - start) + word_length(source, self.current_index as nat)
                    == word_length(source, start),
            decreases self.source_code.len() - self.current_index,
        {
            self.current_index += 1;
            literal.push(self.current_char());
            assert(literal@ =~= source.subrange(start as int, self.current_index + 1));
        }
        assert(word_length(source, (self.current_index + 1) as nat) == 0);
        classify_word(literal)
    }
}

fn is_blank(c: char) -> (r: bool)
    ensures
        r == is_whitespace(c),
{
    c == ' ' || c == '\t' || c == '\n' || c == '\r'
}

fn classify_word(literal: String) -> (token: Token)
    ensures
        token@ == classify(literal@),
{
    let word = literal.as_str();
    if same_text(word, "if") {
        Token::If
    } else if same_text(word, "else") {
        Token::Else
    } else if same_text(word, "fn") {
        Token::Function
    } else if same_text(word, "let") {
        Token::Let
    } else if same_text(word, "return") {
        Token::Return
    } else if same_text(word, "true") {
        Token::True
    } else if same_text(word, "false") {
        Token::False
    } else if is_numeric_literal(&literal) {
        Token::Int { literal }
    } else {
        Token::Identifier { literal }
    }
}

fn is_numeric_literal(literal: &String) -> (r: bool)
    ensures
        r == (literal@.len() > 0 && numeric(literal@[0])),
{
    let word = literal.as_str();
    match word.is_empty() {
        true => false,
        false => word.get_char(0).is_numeric(),
    }
}

pub fn new(source_code: String) -> (lexer: Lexer)
    ensures
        lexer@ == LexerView::start(source_code@),
{
    Lexer { source_code: chars_of(source_code.as_str()), current_index: 0, finished: false }
}

/// A token read from the text is never the end-of-input token.
pub proof fn lemma_scan_is_not_eof(source: Seq<char>, i: nat)
    ensures
        !(scan(source, i).0 is Eof),
{
}

/// The end-of-input token comes once, after all the others: none of the
/// tokens before it is an end-of-input token.
pub proof fn lemma_pending_has_no_eof(source: Seq<char>, i: nat, k: int)
    requires
        0 <= k < tokens_from(source, i).len(),
    ensures
        !(tokens_from(source, i)[k] is Eof),
    decreases source.len() - i,
{
    if i >= source.len() {
    } else if is_whitespace(source[i as int]) {
        lemma_pending_has_no_eof(source, i + 1, k);
    } else {
        lemma_scan_advances(source, i);
        lemma_scan_is_not_eof(source, i);
        if k > 0 {
            lemma_pending_has_no_eof(source, scan(source, i).1, k - 1);
        }
    }
}

/// Blanks in front of a token do not change the tokens that follow.
pub proof fn lemma_blanks_are_skipped(source: Seq<char>, i: nat)
    ensures
        tokens_from(source, i) == tokens_from(source, i + blank_length(source, i)),
    decreases source.len() - i,
{
    if i < source.len() && is_whitespace(source[i as int]) {
        lemma_blanks_are_skipped(source, i + 1);
    }
}

/// One call hands out the first pending token and leaves the rest pending;
/// when nothing is pending it hands out end-of-input and the lexer has
/// finished.
pub proof fn lemma_step_takes_first_pending(lexer: LexerView)
    requires
        !lexer.finished,
    ensures
        lexer.step().0 is Eof <==> lexer.pending().len() == 0,
        lexer.step().0 is Eof <==> lexer.step().1.finished,
        lexer.step().0 is Eof ==> lexer.step().1.pending().len() == 0,
        !(lexer.step().0 is Eof) ==> lexer.pending() == seq![lexer.step().0] + lexer.step().1.pending(),
{
    let at = lexer.index + blank_length(lexer.source, lexer.index);
    lemma_blanks_are_skipped(lexer.source, lexer.index);
    lemma_scan_is_not_eof(lexer.source, at);
    if at < lexer.source.len() {
        lemma_blank_ends_on_token(lexer.source, lexer.index);
    }
}

/// The character after a run of blanks, if there is one, is no blank.
pub proof fn lemma_blank_ends_on_token(source: Seq<char>, i: nat)
    requires
        i + blank_length(source, i) < source.len(),
    ensures
        !is_whitespace(source[(i + blank_length(source, i)) as int]),
    decreases source.len() - i,
{
    if i < source.len() && is_whitespace(source[i as int]) {
        lemma_blank_ends_on_token(source, i + 1);
    }
}

/// A stretch of alphanumeric characters that reaches the end of the text is
/// one word.
pub proof fn lemma_word_fills_text(source: Seq<char>, i: nat)
    requires
        i <= source.len(),
        forall|k: int| i <= k < source.len() ==> alphanumeric(source[k]),
    ensures
        i + word_length(source, i) == source.len(),
    decreases source.len() - i,
{
    if i < source.len() {
        lemma_word_fills_text(source, i + 1);
    }
}

/// No reserved word starts with a numeric character.
pub proof fn lemma_keywords_start_with_letters(word: Seq<char>)
    requires
        word.len() > 0,
        numeric(word[0]),
    ensures
        keyword(word) is None,
{
    reveal_strlit("if");
    reveal_strlit("else");
    reveal_strlit("fn");
    reveal_strlit("let");
    reveal_strlit("return");
    reveal_strlit("true");
    reveal_strlit("false");
}

/// A text made of alphanumeric characters alone is lexed as one token, the
/// one of the whole text as a word.
pub proof fn lemma_word_is_one_token(word: Seq<char>)
    requires
        word.len() > 0,
        forall|k: int| 0 <= k < word.len() ==> alphanumeric(word[k]),
    ensures
        tokens_of(word) == seq![classify(word)],
        LexerView::start(word).drained() == seq![classify(word), TokenView::Eof],
{
    lemma_word_fills_text(word, 0);
    assert(alphanumeric(word[0]));
    assert(word.subrange(0, word.len() as int) =~= word);
    assert(tokens_from(word, word.len()) == Seq::<TokenView>::empty());
    assert(tokens_from(word, 0) =~= seq![classify(word)]);
    assert(seq![classify(word)].push(TokenView::Eof) =~= seq![classify(word), TokenView::Eof]);
}

/// Identifiers come back as written: a text made of alphanumeric characters
/// that starts with a letter and is no reserved word is lexed as a single
/// identifier that carries the text.
pub proof fn lemma_identifier_round_trip(word: Seq<char>)
    requires
        word.len() > 0,
        forall|k: int| 0 <= k < word.len() ==> alphanumeric(word[k]),
        !numeric(word[0]),
        keyword(word) is None,
    ensures
        tokens_of(word) == seq![TokenView::Identifier { literal: word }],
        LexerView::start(word).drained() == seq![
            TokenView::Identifier { literal: word },
            TokenView::Eof,
        ],
{
    lemma_word_is_one_token(word);
}

/// Integers come back as written: a text made of alphanumeric characters
/// that starts with a numeric one is lexed as a single integer token that
/// carries the text.
pub proof fn lemma_integer_round_trip(word: Seq<char>)
    requires
        word.len() > 0,
        forall|k: int| 0 <= k < word.len() ==> alphanumeric(word[k]),
        numeric(word[0]),
    ensures
        tokens_of(word) == seq![TokenView::Int { literal: word }],
        LexerView::start(word).drained() == seq![TokenView::Int { literal: word }, TokenView::Eof],
{
    lemma_keywords_start_with_letters(word);
    lemma_word_is_one_token(word);
}

/// Lexing depends on the text alone: two lexers made from the same text
/// hand out the same tokens, call by call and in all.
pub proof fn lemma_same_text_same_tokens(first: LexerView, second: LexerView, source: Seq<char>)
    requires
        first == LexerView::start(source),
        second == LexerView::start(source),
    ensures
        first.step() == second.step(),
        first.drained() == second.drained(),
        first.drained() == tokens_of(source).push(TokenView::Eof),
{
}

} // verus!
