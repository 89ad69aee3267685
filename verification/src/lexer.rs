//! The lexer: a pull-based producer of tokens over a source text.
//!
//! The whole tokenizer is mirrored by specification functions over a
//! [`LexModel`]; every executable method is proved to agree with its mirror,
//! so `spec_read` is the authoritative statement of what `next_token`-style
//! pulling returns in every state.

use vstd::prelude::*;
use vstd::string::StringExecFns;

use crate::error::{Error, ErrorModel};
use crate::helper::{is_digit, is_identifier, is_whitespace, spec_is_digit, spec_is_identifier,
    spec_is_whitespace};
use crate::text::{chars_of, push_char, string_from_range};
use crate::token::{lemma_view_tokens_index, lemma_view_tokens_len, lemma_view_tokens_push, spec_token_debug, view_tokens};
use crate::token::{Span, Token, TokenModel, TokenType};

verus! {

/// The mathematical state of the lexer: the source characters and the
/// cursor. The current character is derived: `lex_ch` below.
pub struct LexModel {
    pub input: Seq<char>,
    pub position: nat,
    pub column: nat,
    pub line: nat,
}

/// The character under the cursor; a NUL stands for end of input.
pub open spec fn lex_ch(m: LexModel) -> char {
    if m.position < m.input.len() {
        m.input[m.position as int]
    } else {
        '\0'
    }
}

/// The character one past the cursor.
pub open spec fn lex_peek(m: LexModel) -> char {
    if m.position + 1 < m.input.len() {
        m.input[m.position as int + 1]
    } else {
        '\0'
    }
}

/// The counters never run ahead of the input, and the input leaves room for
/// the cursor to step once past its end.
pub open spec fn bounds_ok(m: LexModel) -> bool {
    &&& m.input.len() < usize::MAX
    &&& m.position <= m.input.len()
    &&& m.column <= m.position
    &&& m.line <= m.position
}

/// One step of the cursor. At the end of the input the state is left as it
/// is; otherwise the column advances, resetting at a newline (the line/column
/// bookkeeping ignores a newline that is the final character, since nothing
/// can follow it on the next line).
pub open spec fn spec_next(m: LexModel) -> LexModel {
    if m.position >= m.input.len() {
        m
    } else if m.position + 1 >= m.input.len() {
        LexModel { position: m.position + 1, column: (m.column + 1) as nat, ..m }
    } else if m.input[m.position as int] == '\n' {
        LexModel { position: m.position + 1, column: 0, line: (m.line + 1) as nat, ..m }
    } else {
        LexModel { position: m.position + 1, column: (m.column + 1) as nat, ..m }
    }
}

/// The cursor after skipping every leading whitespace character.
pub open spec fn spec_skip_ws(m: LexModel) -> LexModel
    decreases m.input.len() - m.position,
{
    if m.position < m.input.len() && spec_is_whitespace(m.input[m.position as int]) {
        spec_skip_ws(spec_next(m))
    } else {
        m
    }
}

/// The cursor after `n` steps.
pub open spec fn advance_n(m: LexModel, n: nat) -> LexModel
    decreases n,
{
    if n == 0 {
        m
    } else {
        advance_n(spec_next(m), (n - 1) as nat)
    }
}

/// Length of the maximal identifier run starting at `i`.
pub open spec fn ident_len(input: Seq<char>, i: nat) -> nat
    decreases input.len() - i,
{
    if i < input.len() && spec_is_identifier(input[i as int]) {
        1 + ident_len(input, i + 1)
    } else {
        0
    }
}

/// Length of the maximal digit run starting at `i`.
pub open spec fn digit_len(input: Seq<char>, i: nat) -> nat
    decreases input.len() - i,
{
    if i < input.len() && spec_is_digit(input[i as int]) {
        1 + digit_len(input, i + 1)
    } else {
        0
    }
}

/// The token kind of an identifier run: one of the keywords, or a plain
/// identifier.
pub open spec fn keyword_type(lit: Seq<char>) -> TokenType {
    if lit == seq!['l', 'e', 't'] {
        TokenType::Let
    } else if lit == seq!['f', 'n'] {
        TokenType::Function
    } else if lit == seq!['t', 'r', 'u', 'e'] {
        TokenType::True
    } else if lit == seq!['f', 'a', 'l', 's', 'e'] {
        TokenType::False
    } else if lit == seq!['i', 'f'] {
        TokenType::If
    } else if lit == seq!['e', 'l', 's', 'e'] {
        TokenType::Else
    } else if lit == seq!['r', 'e', 't', 'u', 'r', 'n'] {
        TokenType::Return
    } else {
        TokenType::Identifier
    }
}

/// The kind of a one-character punctuation or operator token, if any.
pub open spec fn single_token_type(c: char) -> Option<TokenType> {
    if c == '+' {
        Some(TokenType::Plus)
    } else if c == '-' {
        Some(TokenType::Minus)
    } else if c == '*' {
        Some(TokenType::Asterisk)
    } else if c == '/' {
        Some(TokenType::Slash)
    } else if c == ';' {
        Some(TokenType::Semicolon)
    } else if c == '(' {
        Some(TokenType::LeftParen)
    } else if c == ')' {
        Some(TokenType::RightParen)
    } else if c == ',' {
        Some(TokenType::Comma)
    } else if c == '{' {
        Some(TokenType::LeftBrace)
    } else if c == '}' {
        Some(TokenType::RightBrace)
    } else if c == '[' {
        Some(TokenType::LeftBracket)
    } else if c == ']' {
        Some(TokenType::RightBracket)
    } else if c == ':' {
        Some(TokenType::Colon)
    } else {
        None
    }
}

/// The two-character operator kind formed by `c` followed by `=`.
pub open spec fn double_token_type(c: char) -> Option<TokenType> {
    if c == '=' {
        Some(TokenType::Equal)
    } else if c == '!' {
        Some(TokenType::NotEqual)
    } else if c == '<' {
        Some(TokenType::LessThanEqual)
    } else if c == '>' {
        Some(TokenType::GreaterThanEqual)
    } else {
        None
    }
}

/// Message carried by the failure for a character no production recognizes.
pub open spec fn unsupported_msg(c: char) -> Seq<char> {
    "unsupported token "@.push(c)
}

/// A one-character token taken at `m`.
pub open spec fn spec_single(m: LexModel, tt: TokenType) -> (TokenModel, LexModel) {
    (
        TokenModel {
            token_type: tt,
            literal: m.input.subrange(m.position as int, m.position as int + 1),
            span: Span {
                start: m.column as usize,
                end: (m.column + 1) as usize,
                line_start: m.line as usize,
                line_end: m.line as usize,
            },
        },
        spec_next(m),
    )
}

/// A two-character token taken at `m`.
pub open spec fn spec_double(m: LexModel, tt: TokenType) -> (TokenModel, LexModel) {
    (
        TokenModel {
            token_type: tt,
            literal: m.input.subrange(m.position as int, m.position as int + 2),
            span: Span {
                start: m.column as usize,
                end: (m.column + 2) as usize,
                line_start: m.line as usize,
                line_end: m.line as usize,
            },
        },
        spec_next(spec_next(m)),
    )
}

/// An operator that may pair with a following `=`: the two-character kind
/// when the next character is `=`, else the one-character kind `tt`.
pub open spec fn spec_operator(m: LexModel, tt: TokenType) -> (Result<TokenModel, ErrorModel>,
    LexModel) {
    if lex_peek(m) == '=' {
        match double_token_type(lex_ch(m)) {
            Some(dt) => {
                let (t, m2) = spec_double(m, dt);
                (Ok(t), m2)
            },
            None => (Err(ErrorModel::TodoError(unsupported_msg(lex_ch(m)))), m),
        }
    } else {
        let (t, m2) = spec_single(m, tt);
        (Ok(t), m2)
    }
}

/// The identifier-or-keyword token whose run starts at `m`.
pub open spec fn spec_read_identifier(m: LexModel) -> (TokenModel, LexModel) {
    let l = ident_len(m.input, m.position);
    let lit = m.input.subrange(m.position as int, m.position as int + l);
    (
        TokenModel {
            token_type: keyword_type(lit),
            literal: lit,
            span: Span {
                start: m.column as usize,
                end: (m.column + l) as usize,
                line_start: m.line as usize,
                line_end: m.line as usize,
            },
        },
        advance_n(m, l),
    )
}

/// The integer token whose digit run starts at `m`.
pub open spec fn spec_read_digit(m: LexModel) -> (TokenModel, LexModel) {
    let l = digit_len(m.input, m.position);
    (
        TokenModel {
            token_type: TokenType::Integer,
            literal: m.input.subrange(m.position as int, m.position as int + l),
            span: Span {
                start: m.column as usize,
                end: (m.column + l) as usize,
                line_start: m.line as usize,
                line_end: m.line as usize,
            },
        },
        advance_n(m, l),
    )
}

/// The scan of a string literal's body, starting just after the opening
/// quote, decoding the four recognized escapes. Stops at a closing quote or
/// at the end of the input; an unrecognized escape is a failure carrying the
/// offending character.
pub open spec fn spec_string_body(m: LexModel, acc: Seq<char>) -> (Result<Seq<char>, ErrorModel>,
    LexModel)
    decreases m.input.len() - m.position,
{
    let c = lex_ch(m);
    if c == '"' || c == '\0' {
        (Ok(acc), m)
    } else if c == '\\' {
        let m1 = spec_next(m);
        let e = lex_ch(m1);
        if e == 'n' {
            spec_string_body(spec_next(m1), acc.push('\n'))
        } else if e == 't' {
            spec_string_body(spec_next(m1), acc.push('\t'))
        } else if e == '"' {
            spec_string_body(spec_next(m1), acc.push('"'))
        } else if e == '\\' {
            spec_string_body(spec_next(m1), acc.push('\\'))
        } else {
            (Err(ErrorModel::InvalidCharError(e)), m1)
        }
    } else {
        spec_string_body(spec_next(m), acc.push(c))
    }
}

/// A whole string token taken at `m` (the opening quote). The span covers
/// both quotes; the literal is the decoded body. An unterminated literal is
/// closed by the end of the input.
pub open spec fn spec_read_string(m: LexModel) -> (Result<TokenModel, ErrorModel>, LexModel) {
    let start_col = m.column;
    let body = spec_string_body(spec_next(m), Seq::empty());
    match body.0 {
        Ok(lit) => {
            let m2 = body.1;
            let m3 = spec_next(m2);
            (
                Ok(
                    TokenModel {
                        token_type: TokenType::String,
                        literal: lit,
                        span: Span {
                            start: start_col as usize,
                            end: (m2.column + 1) as usize,
                            line_start: m3.line as usize,
                            line_end: m3.line as usize,
                        },
                    },
                ),
                m3,
            )
        },
        Err(e) => (Err(e), body.1),
    }
}

/// The end-of-file token: an empty literal at the cursor. Pulling again in
/// the same state keeps returning it.
pub open spec fn spec_eof(m: LexModel) -> TokenModel {
    TokenModel {
        token_type: TokenType::EndOfFile,
        literal: Seq::empty(),
        span: Span {
            start: m.column as usize,
            end: m.column as usize,
            line_start: m.line as usize,
            line_end: m.line as usize,
        },
    }
}

/// One pull of the lexer: skip whitespace, then read the token the current
/// character starts. This is the authoritative description of `next_token`.
pub open spec fn spec_read(m0: LexModel) -> (Result<TokenModel, ErrorModel>, LexModel) {
    let m = spec_skip_ws(m0);
    let c = lex_ch(m);
    if c == '=' {
        spec_operator(m, TokenType::Assign)
    } else if c == '!' {
        spec_operator(m, TokenType::Bang)
    } else if c == '<' {
        spec_operator(m, TokenType::LessThan)
    } else if c == '>' {
        spec_operator(m, TokenType::GreaterThan)
    } else if single_token_type(c) is Some {
        let (t, m2) = spec_single(m, single_token_type(c)->Some_0);
        (Ok(t), m2)
    } else if c == '"' {
        spec_read_string(m)
    } else if c == '\0' {
        (Ok(spec_eof(m)), m)
    } else if spec_is_identifier(c) {
        let (t, m2) = spec_read_identifier(m);
        (Ok(t), m2)
    } else if spec_is_digit(c) {
        let (t, m2) = spec_read_digit(m);
        (Ok(t), m2)
    } else {
        (Err(ErrorModel::TodoError(unsupported_msg(c))), m)
    }
}

/// The view of a pulled token or failure.
pub open spec fn res_view(r: Result<Token, Error>) -> Result<TokenModel, ErrorModel> {
    match r {
        Ok(t) => Ok(t@),
        Err(e) => Err(e@),
    }
}

/// A producer of tokens. Pulling is always allowed while the producer's
/// invariant holds; after the end-of-file token it keeps returning
/// end-of-file.
pub trait Lexer {
    spec fn inv(&self) -> bool;

    fn token(&mut self) -> (r: Result<Token, Error>)
        requires
            old(self).inv(),
        ensures
            final(self).inv(),
    ;
}

/// The lexer over a fixed source text.
pub struct MonkeyLexer {
    input: Vec<char>,
    column: usize,
    position: usize,
    line: usize,
}

impl View for MonkeyLexer {
    type V = LexModel;

    closed spec fn view(&self) -> LexModel {
        LexModel {
            input: self.input@,
            position: self.position as nat,
            column: self.column as nat,
            line: self.line as nat,
        }
    }
}

impl MonkeyLexer {
    /// The cursor counters stay within the input.
    pub open spec fn wf(&self) -> bool {
        bounds_ok(self@)
    }

    pub fn new(input: &str) -> (r: Self)
        requires
            input@.len() < usize::MAX,
        ensures
            r.wf(),
            r@ == (LexModel { input: input@, position: 0, column: 0, line: 0 }),
    {
        let chars = chars_of(input);
        MonkeyLexer { input: chars, column: 0, position: 0, line: 0 }
    }

    /// The character under the cursor, with NUL for end of input.
    fn current_char(&self) -> (c: char)
        requires
            self.wf(),
        ensures
            c == lex_ch(self@),
    {
        if self.position < self.input.len() {
            self.input[self.position]
        } else {
            '\0'
        }
    }

    fn peek(&self) -> (c: char)
        requires
            self.wf(),
        ensures
            c == lex_peek(self@),
    {
        if self.position < self.input.len() && self.position + 1 < self.input.len() {
            self.input[self.position + 1]
        } else {
            '\0'
        }
    }

    /// Move the processing position to the next character.
    fn next(&mut self)
        requires
            old(self).wf(),
        ensures
            final(self).wf(),
            final(self)@ == spec_next(old(self)@),
    {
        if self.position >= self.input.len() {
        } else if self.position + 1 >= self.input.len() {
            self.column = self.column + 1;
            self.position = self.position + 1;
        } else if self.input[self.position] == '\n' {
            self.line = self.line + 1;
            self.column = 0;
            self.position = self.position + 1;
        } else {
            self.column = self.column + 1;
            self.position = self.position + 1;
        }
    }

    fn handle_whitespace(&mut self)
        requires
            old(self).wf(),
        ensures
            final(self).wf(),
            final(self)@ == spec_skip_ws(old(self)@),
    {
        while is_whitespace(self.current_char())
            invariant
                self.wf(),
                spec_skip_ws(self@) == spec_skip_ws(old(self)@),
            decreases self@.input.len() - self@.position,
        {
            self.next();
        }
    }

    /// Builds the token of the given kind whose text is the `length`
    /// characters ending `offset` characters behind the cursor.
    fn tokenize(&self, length: usize, offset: usize, token_type: TokenType) -> (r: Result<
        Token,
        Error,
    >)
        requires
            self.wf(),
            offset <= self.position,
            offset <= self.column,
            self.position - offset + length <= self@.input.len(),
        ensures
            r is Ok,
            r->Ok_0@ == (TokenModel {
                token_type,
                literal: self@.input.subrange(
                    self.position - offset,
                    self.position - offset + length,
                ),
                span: Span {
                    start: (self.column - offset) as usize,
                    end: (self.column - offset + length) as usize,
                    line_start: self.line,
                    line_end: self.line,
                },
            }),
    {
        let from = self.position - offset;
        let literal = string_from_range(&self.input, from, from + length);
        let column = self.column - offset;
        Ok(
            Token {
                token_type,
                literal,
                span: Span {
                    start: column,
                    end: column + length,
                    line_start: self.line,
                    line_end: self.line,
                },
            },
        )
    }

    fn handle_single_token(&mut self, token_type: TokenType) -> (r: Result<Token, Error>)
        requires
            old(self).wf(),
            lex_ch(old(self)@) != '\0',
        ensures
            final(self).wf(),
            r is Ok,
            (r->Ok_0@, final(self)@) == spec_single(old(self)@, token_type),
    {
        let token = self.tokenize(1, 0, token_type);
        self.next();
        token
    }

    fn handle_double_token(&mut self, token_type: TokenType) -> (r: Result<Token, Error>)
        requires
            old(self).wf(),
            lex_ch(old(self)@) != '\0',
            lex_peek(old(self)@) != '\0',
        ensures
            final(self).wf(),
            r is Ok,
            (r->Ok_0@, final(self)@) == spec_double(old(self)@, token_type),
    {
        let token = self.tokenize(2, 0, token_type);
        self.next();
        self.next();
        token
    }

    fn read_operator_double(&mut self, token_type: TokenType) -> (r: Result<Token, Error>)
        requires
            old(self).wf(),
            lex_ch(old(self)@) != '\0',
        ensures
            final(self).wf(),
            (res_view(r), final(self)@) == spec_operator(old(self)@, token_type),
    {
        if self.peek() == '=' {
            let c = self.current_char();
            if c == '=' {
                self.handle_double_token(TokenType::Equal)
            } else if c == '!' {
                self.handle_double_token(TokenType::NotEqual)
            } else if c == '<' {
                self.handle_double_token(TokenType::LessThanEqual)
            } else if c == '>' {
                self.handle_double_token(TokenType::GreaterThanEqual)
            } else {
                let mut msg = String::new();
                msg.append("unsupported token ");
                push_char(&mut msg, c);
                proof {
                    assert(msg@ =~= unsupported_msg(c));
                }
                Err(Error::TodoError(msg))
            }
        } else {
            self.handle_single_token(token_type)
        }
    }

    fn read_identifier(&mut self) -> (r: Result<Token, Error>)
        requires
            old(self).wf(),
            spec_is_identifier(lex_ch(old(self)@)),
        ensures
            final(self).wf(),
            r is Ok,
            (r->Ok_0@, final(self)@) == spec_read_identifier(old(self)@),
    {
        let position = self.position;
        while is_identifier(self.current_char())
            invariant
                self.wf(),
                old(self)@.position <= self@.position <= self@.input.len(),
                self@.input == old(self)@.input,
                self@ == advance_n(old(self)@, (self@.position - old(self)@.position) as nat),
                self@.column == old(self)@.column + self@.position - old(self)@.position,
                self@.line == old(self)@.line,
                ident_len(old(self)@.input, old(self)@.position) == self@.position - old(
                    self,
                )@.position + ident_len(self@.input, self@.position),
            decreases self@.input.len() - self@.position,
        {
            proof {
                lemma_advance_snoc(old(self)@, (self@.position - old(self)@.position) as nat);
            }
            self.next();
        }
        let end_position = self.position;
        let length = end_position - position;
        let token_type = self.keyword_kind(position, length);
        self.tokenize(length, length, token_type)
    }

    /// The keyword kind of the identifier run `input[position..position+length]`.
    fn keyword_kind(&self, position: usize, length: usize) -> (tt: TokenType)
        requires
            position + length <= self@.input.len(),
        ensures
            tt == keyword_type(self@.input.subrange(position as int, position + length)),
    {
        let n = self.input.len();
        let ghost lit = self@.input.subrange(position as int, position + length);
        if length == 3 && self.input[position] == 'l' && self.input[position + 1] == 'e'
            && self.input[position + 2] == 't' {
            proof {
                assert(lit =~= seq!['l', 'e', 't']);
            }
            TokenType::Let
        } else if length == 2 && self.input[position] == 'f' && self.input[position + 1] == 'n' {
            proof {
                assert(lit =~= seq!['f', 'n']);
            }
            TokenType::Function
        } else if length == 4 && self.input[position] == 't' && self.input[position + 1] == 'r'
            && self.input[position + 2] == 'u' && self.input[position + 3] == 'e' {
            proof {
                assert(lit =~= seq!['t', 'r', 'u', 'e']);
            }
            TokenType::True
        } else if length == 5 && self.input[position] == 'f' && self.input[position + 1] == 'a'
            && self.input[position + 2] == 'l' && self.input[position + 3] == 's'
            && self.input[position + 4] == 'e' {
            proof {
                assert(lit =~= seq!['f', 'a', 'l', 's', 'e']);
            }
            TokenType::False
        } else if length == 2 && self.input[position] == 'i' && self.input[position + 1] == 'f' {
            proof {
                assert(lit =~= seq!['i', 'f']);
            }
            TokenType::If
        } else if length == 4 && self.input[position] == 'e' && self.input[position + 1] == 'l'
            && self.input[position + 2] == 's' && self.input[position + 3] == 'e' {
            proof {
                assert(lit =~= seq!['e', 'l', 's', 'e']);
            }
            TokenType::Else
        } else if length == 6 && self.input[position] == 'r' && self.input[position + 1] == 'e'
            && self.input[position + 2] == 't' && self.input[position + 3] == 'u'
            && self.input[position + 4] == 'r' && self.input[position + 5] == 'n' {
            proof {
                assert(lit =~= seq!['r', 'e', 't', 'u', 'r', 'n']);
            }
            TokenType::Return
        } else {
            proof {
                assert(lit.len() == length);
                assert(forall|i: int|
                    0 <= i < lit.len() ==> lit[i] == self@.input[position + i]);
                assert(keyword_type(lit) == TokenType::Identifier);
            }
            TokenType::Identifier
        }
    }

    fn read_digit(&mut self) -> (r: Result<Token, Error>)
        requires
            old(self).wf(),
            spec_is_digit(lex_ch(old(self)@)),
        ensures
            final(self).wf(),
            r is Ok,
            (r->Ok_0@, final(self)@) == spec_read_digit(old(self)@),
    {
        let position = self.position;
        while is_digit(self.current_char())
            invariant
                self.wf(),
                old(self)@.position <= self@.position <= self@.input.len(),
                self@.input == old(self)@.input,
                self@ == advance_n(old(self)@, (self@.position - old(self)@.position) as nat),
                self@.column == old(self)@.column + self@.position - old(self)@.position,
                self@.line == old(self)@.line,
                digit_len(old(self)@.input, old(self)@.position) == self@.position - old(
                    self,
                )@.position + digit_len(self@.input, self@.position),
            decreases self@.input.len() - self@.position,
        {
            proof {
                lemma_advance_snoc(old(self)@, (self@.position - old(self)@.position) as nat);
            }
            self.next();
        }
        let end_position = self.position;
        let length = end_position - position;
        self.tokenize(length, length, TokenType::Integer)
    }

    fn handle_string_token(&mut self) -> (r: Result<Token, Error>)
        requires
            old(self).wf(),
            lex_ch(old(self)@) == '"',
        ensures
            final(self).wf(),
            (res_view(r), final(self)@) == spec_read_string(old(self)@),
    {
        let start = self.column;
        self.next();
        let ghost m1 = self@;

        let mut literal = String::new();

        loop
            invariant
                self.wf(),
                m1 == spec_next(old(self)@),
                self@.input == m1.input,
                spec_string_body(self@, literal@) == spec_string_body(m1, Seq::<char>::empty()),
            ensures
                self.wf(),
                self@.input == m1.input,
                lex_ch(self@) == '"' || lex_ch(self@) == '\0',
                spec_string_body(m1, Seq::<char>::empty()) == (Ok::<Seq<char>, ErrorModel>(
                    literal@,
                ), self@),
            decreases self@.input.len() - self@.position,
        {
            let ghost mtop = self@;
            let c = self.current_char();
            if c == '"' || c == '\0' {
                break ;
            }
            if c == '\\' {
                self.next();
                let e = self.current_char();
                if e == 'n' {
                    push_char(&mut literal, '\n');
                } else if e == 't' {
                    push_char(&mut literal, '\t');
                } else if e == '"' {
                    push_char(&mut literal, '"');
                } else if e == '\\' {
                    push_char(&mut literal, '\\');
                } else {
                    proof {
                        assert(spec_string_body(mtop, literal@) == (
                            Err::<Seq<char>, ErrorModel>(ErrorModel::InvalidCharError(e)),
                            self@,
                        ));
                    }
                    return Err(Error::InvalidCharError(e));
                }
            } else {
                push_char(&mut literal, c);
            }
            self.next();
        }

        let end = self.column;
        self.next();

        Ok(
            Token {
                token_type: TokenType::String,
                literal,
                span: Span { start, end: end + 1, line_start: self.line, line_end: self.line },
            },
        )
    }

    fn read(&mut self) -> (r: Result<Token, Error>)
        requires
            old(self).wf(),
        ensures
            final(self).wf(),
            (res_view(r), final(self)@) == spec_read(old(self)@),
    {
        self.handle_whitespace();
        let c = self.current_char();
        if c == '=' {
            self.read_operator_double(TokenType::Assign)
        } else if c == '!' {
            self.read_operator_double(TokenType::Bang)
        } else if c == '<' {
            self.read_operator_double(TokenType::LessThan)
        } else if c == '>' {
            self.read_operator_double(TokenType::GreaterThan)
        } else if c == '+' {
            self.handle_single_token(TokenType::Plus)
        } else if c == '-' {
            self.handle_single_token(TokenType::Minus)
        } else if c == '*' {
            self.handle_single_token(TokenType::Asterisk)
        } else if c == '/' {
            self.handle_single_token(TokenType::Slash)
        } else if c == ';' {
            self.handle_single_token(TokenType::Semicolon)
        } else if c == '(' {
            self.handle_single_token(TokenType::LeftParen)
        } else if c == ')' {
            self.handle_single_token(TokenType::RightParen)
        } else if c == ',' {
            self.handle_single_token(TokenType::Comma)
        } else if c == '{' {
            self.handle_single_token(TokenType::LeftBrace)
        } else if c == '}' {
            self.handle_single_token(TokenType::RightBrace)
        } else if c == '[' {
            self.handle_single_token(TokenType::LeftBracket)
        } else if c == ']' {
            self.handle_single_token(TokenType::RightBracket)
        } else if c == ':' {
            self.handle_single_token(TokenType::Colon)
        } else if c == '"' {
            self.handle_string_token()
        } else if c == '\0' {
            proof {
                assert(self@.input.subrange(self@.position as int, self@.position as int)
                    =~= Seq::<char>::empty());
            }
            self.tokenize(0, 0, TokenType::EndOfFile)
        } else if is_identifier(c) {
            self.read_identifier()
        } else if is_digit(c) {
            self.read_digit()
        } else {
            let mut msg = String::new();
            msg.append("unsupported token ");
            push_char(&mut msg, c);
            proof {
                assert(msg@ =~= unsupported_msg(c));
            }
            Err(Error::TodoError(msg))
        }
    }
}

impl Lexer for MonkeyLexer {
    open spec fn inv(&self) -> bool {
        self.wf()
    }

    fn token(&mut self) -> (r: Result<Token, Error>)
        ensures
            (res_view(r), final(self)@) == spec_read(old(self)@),
    {
        self.read()
    }
}

/// `advance_n` one step further: stepping after `n` advances is advancing
/// `n + 1` times.
proof fn lemma_advance_snoc(m: LexModel, n: nat)
    ensures
        spec_next(advance_n(m, n)) == advance_n(m, n + 1),
    decreases n,
{
    reveal_with_fuel(advance_n, 2);
    if n > 0 {
        lemma_advance_snoc(spec_next(m), (n - 1) as nat);
    }
}


/// Stepping the cursor keeps the bounds and moves forward by at most one.
pub proof fn lemma_next_bounds(m: LexModel)
    requires
        bounds_ok(m),
    ensures
        bounds_ok(spec_next(m)),
        spec_next(m).input == m.input,
        m.position <= spec_next(m).position <= m.position + 1,
        m.position < m.input.len() ==> spec_next(m).position == m.position + 1,
{
}

/// Skipping whitespace keeps the bounds, never moves backwards, and stops
/// on a non-whitespace character.
pub proof fn lemma_skip_ws_bounds(m: LexModel)
    requires
        bounds_ok(m),
    ensures
        bounds_ok(spec_skip_ws(m)),
        spec_skip_ws(m).input == m.input,
        m.position <= spec_skip_ws(m).position,
        !spec_is_whitespace(lex_ch(spec_skip_ws(m))),
        forall|k: int|
            m.position <= k < spec_skip_ws(m).position ==> spec_is_whitespace(
                #[trigger] m.input[k],
            ),
    decreases m.input.len() - m.position,
{
    if m.position < m.input.len() && spec_is_whitespace(m.input[m.position as int]) {
        lemma_next_bounds(m);
        lemma_skip_ws_bounds(spec_next(m));
    }
}

/// Advancing `n` steps within the input lands exactly `n` further on.
pub proof fn lemma_advance_bounds(m: LexModel, n: nat)
    requires
        bounds_ok(m),
        m.position + n <= m.input.len(),
    ensures
        bounds_ok(advance_n(m, n)),
        advance_n(m, n).input == m.input,
        advance_n(m, n).position == m.position + n,
    decreases n,
{
    if n > 0 {
        lemma_next_bounds(m);
        lemma_advance_bounds(spec_next(m), (n - 1) as nat);
    }
}

/// An identifier run fits in the input.
pub proof fn lemma_ident_len_bound(input: Seq<char>, i: nat)
    ensures
        i + ident_len(input, i) <= input.len() || ident_len(input, i) == 0,
        i <= input.len() ==> i + ident_len(input, i) <= input.len(),
    decreases input.len() - i,
{
    if i < input.len() && spec_is_identifier(input[i as int]) {
        lemma_ident_len_bound(input, i + 1);
    }
}

/// A digit run fits in the input.
pub proof fn lemma_digit_len_bound(input: Seq<char>, i: nat)
    ensures
        i <= input.len() ==> i + digit_len(input, i) <= input.len(),
    decreases input.len() - i,
{
    if i < input.len() && spec_is_digit(input[i as int]) {
        lemma_digit_len_bound(input, i + 1);
    }
}

/// Scanning a string body keeps the bounds and never moves backwards.
pub proof fn lemma_string_body_bounds(m: LexModel, acc: Seq<char>)
    requires
        bounds_ok(m),
    ensures
        bounds_ok(spec_string_body(m, acc).1),
        spec_string_body(m, acc).1.input == m.input,
        m.position <= spec_string_body(m, acc).1.position,
    decreases m.input.len() - m.position,
{
    let c = lex_ch(m);
    if c == '"' || c == '\0' {
    } else if c == '\\' {
        lemma_next_bounds(m);
        let m1 = spec_next(m);
        let e = lex_ch(m1);
        if e == 'n' || e == 't' || e == '"' || e == '\\' {
            lemma_next_bounds(m1);
            let dec = if e == 'n' {
                '\n'
            } else if e == 't' {
                '\t'
            } else if e == '"' {
                '"'
            } else {
                '\\'
            };
            lemma_string_body_bounds(spec_next(m1), acc.push(dec));
        }
    } else {
        lemma_next_bounds(m);
        lemma_string_body_bounds(spec_next(m), acc.push(c));
    }
}

/// One pull of the lexer: the bounds are kept, the cursor never moves
/// backwards, a token other than end-of-file consumes at least one
/// character, the end-of-file token leaves the lexer at the end (so a
/// further pull returns end-of-file again, without moving), and a lexer at
/// the end stays exactly where it is.
pub proof fn lemma_read_progress(m: LexModel)
    requires
        bounds_ok(m),
    ensures
        bounds_ok(spec_read(m).1),
        spec_read(m).1.input == m.input,
        m.position <= spec_read(m).1.position,
        spec_read(m).0 matches Ok(t) && t.token_type != TokenType::EndOfFile ==> m.position
            < spec_read(m).1.position,
        spec_read(m).0 matches Ok(t) && t.token_type == TokenType::EndOfFile ==> lex_ch(
            spec_read(m).1,
        ) == '\0',
        lex_ch(m) == '\0' ==> spec_read(m) == (
            Ok::<TokenModel, crate::error::ErrorModel>(spec_eof(m)),
            m,
        ),
{
    lemma_skip_ws_bounds(m);
    let ms = spec_skip_ws(m);
    let c = lex_ch(ms);
    if lex_ch(m) == '\0' {
        assert(spec_skip_ws(m) == m);
    }
    if c == '=' || c == '!' || c == '<' || c == '>' {
        if lex_peek(ms) == '=' {
            lemma_next_bounds(ms);
            lemma_next_bounds(spec_next(ms));
        } else {
            lemma_next_bounds(ms);
        }
    } else if single_token_type(c) is Some {
        lemma_next_bounds(ms);
    } else if c == '"' {
        lemma_next_bounds(ms);
        let m1 = spec_next(ms);
        lemma_string_body_bounds(m1, Seq::empty());
        let body = spec_string_body(m1, Seq::empty());
        match body.0 {
            Ok(lit) => {
                lemma_next_bounds(body.1);
            },
            Err(e) => {},
        }
    } else if c == '\0' {
    } else if spec_is_identifier(c) {
        lemma_ident_len_bound(ms.input, ms.position);
        lemma_advance_bounds(ms, ident_len(ms.input, ms.position));
    } else if spec_is_digit(c) {
        lemma_digit_len_bound(ms.input, ms.position);
        lemma_advance_bounds(ms, digit_len(ms.input, ms.position));
    } else {
    }
}


/// A character repeated `n` times.
pub open spec fn repeat_char(c: char, n: nat) -> Seq<char>
    decreases n,
{
    if n == 0 {
        Seq::empty()
    } else {
        repeat_char(c, (n - 1) as nat).push(c)
    }
}

/// Appends a character `n` times.
fn append_repeat(out: &mut String, c: char, n: usize)
    ensures
        final(out)@ == old(out)@ + repeat_char(c, n as nat),
{
    let mut i: usize = 0;
    proof {
        assert(out@ + repeat_char(c, 0) =~= out@);
    }
    while i < n
        invariant
            i <= n,
            out@ == old(out)@ + repeat_char(c, i as nat),
        decreases n - i,
    {
        push_char(out, c);
        i = i + 1;
    }
}

/// The source line a token stands on, as the snapshot prints it: from just
/// before the previous line break through this line's break (clamped to the
/// text).
pub open spec fn spec_line_slice(program: Seq<char>, lines: Seq<usize>, wl: int) -> Seq<char> {
    let start = if wl != 0 {
        if 0 <= wl - 1 < lines.len() {
            lines[wl - 1] as int
        } else {
            program.len() as int
        }
    } else {
        0
    };
    let stop = if 0 <= wl < lines.len() {
        lines[wl] as int + 1
    } else {
        program.len() as int
    };
    if 0 <= start <= stop <= program.len() {
        program.subrange(start, stop)
    } else {
        Seq::empty()
    }
}

/// One token's caret line in the snapshot: blanks to its start column,
/// carets across its span, and its debug rendering.
pub open spec fn spec_caret_line(t: TokenModel) -> Seq<char> {
    let width = if t.span.end >= t.span.start {
        (t.span.end - t.span.start) as nat
    } else {
        0
    };
    repeat_char(' ', t.span.start as nat) + repeat_char('^', width) + " "@ + spec_token_debug(t)
        + "\n"@
}

/// The snapshot of a run of tokens, continuing from the line last printed.
pub open spec fn spec_snapshot(
    program: Seq<char>,
    lines: Seq<usize>,
    tokens: Seq<TokenModel>,
    working_line: int,
) -> Seq<char>
    decreases tokens.len(),
{
    if tokens.len() == 0 {
        Seq::empty()
    } else {
        let t = tokens[0];
        let header = if t.span.line_start != working_line {
            spec_line_slice(program, lines, t.span.line_start as int)
        } else {
            Seq::empty()
        };
        let wl = if t.span.line_start != working_line {
            t.span.line_start as int
        } else {
            working_line
        };
        header + spec_caret_line(t) + spec_snapshot(program, lines, tokens.drop_first(), wl)
    }
}

/// Renders each token under a copy of its source line, with carets marking
/// its span. Tokens must each sit on a single line, as every token this
/// lexer produces does.
#[verifier::rlimit(100)]
#[verifier::spinoff_prover]
pub fn token_snapshot(program: &Vec<char>, lines: &Vec<usize>, tokens: &Vec<Token>) -> (r: String)
    requires
        forall|i: int|
            0 <= i < tokens@.len() ==> (#[trigger] tokens@[i])@.span.line_start
                == tokens@[i]@.span.line_end,
        forall|i: int| 0 <= i < lines@.len() ==> (#[trigger] lines@[i]) < program@.len(),
    ensures
        r@ == spec_snapshot(program@, lines@, view_tokens(tokens@), usize::MAX as int),
{
    let total = program.len();
    let mut output = String::new();
    let mut working_line: usize = usize::MAX;
    let mut i: usize = 0;
    proof {
        lemma_view_tokens_len(tokens@);
        assert(view_tokens(tokens@).skip(0) =~= view_tokens(tokens@));
    }
    while i < tokens.len()
        invariant
            i <= tokens@.len(),
            total == program@.len(),
            forall|k: int| 0 <= k < lines@.len() ==> (#[trigger] lines@[k]) < program@.len(),
            view_tokens(tokens@).len() == tokens@.len(),
            spec_snapshot(program@, lines@, view_tokens(tokens@), usize::MAX as int) == output@
                + spec_snapshot(
                program@,
                lines@,
                view_tokens(tokens@).skip(i as int),
                working_line as int,
            ),
        decreases tokens@.len() - i,
    {
        proof {
            lemma_view_tokens_index(tokens@, i as int);
            assert(view_tokens(tokens@).skip(i as int)[0] == view_tokens(tokens@)[i as int]);
            assert(view_tokens(tokens@).skip(i as int).drop_first() =~= view_tokens(
                tokens@,
            ).skip(i + 1 as int));
        }
        let token = &tokens[i];
        if token.span.line_start != working_line {
            working_line = token.span.line_start;
            let start = if working_line != 0 {
                if working_line - 1 < lines.len() {
                    lines[working_line - 1]
                } else {
                    program.len()
                }
            } else {
                0
            };
            let stop = if working_line < lines.len() {
                let brk = lines[working_line];
                proof {
                    assert(brk < program@.len());
                    assert(program@.len() <= usize::MAX);
                }
                brk + 1
            } else {
                program.len()
            };
            if start <= stop && stop <= program.len() {
                let piece = string_from_range(program, start, stop);
                output.append(piece.as_str());
            } else {
                proof {
                    assert(spec_line_slice(program@, lines@, working_line as int) =~= Seq::<
                        char,
                    >::empty());
                }
            }
        }
        append_repeat(&mut output, ' ', token.span.start);
        let width = if token.span.end >= token.span.start {
            token.span.end - token.span.start
        } else {
            0
        };
        append_repeat(&mut output, '^', width);
        output.append(" ");
        let dbg = token.render();
        output.append(dbg.as_str());
        output.append("\n");
        i = i + 1;
    }
    proof {
        assert(view_tokens(tokens@).skip(tokens@.len() as int) =~= Seq::<TokenModel>::empty());
        assert(output@ + Seq::<char>::empty() =~= output@);
    }
    output
}

/// The positions of the line breaks of a text.
pub open spec fn spec_newlines(s: Seq<char>, i: int) -> Seq<usize>
    decreases s.len() - i,
{
    if i < 0 || i >= s.len() {
        Seq::empty()
    } else if s[i] == '\n' {
        seq![i as usize] + spec_newlines(s, i + 1)
    } else {
        spec_newlines(s, i + 1)
    }
}

/// The whole run of tokens of a text, ending with the end-of-file token, or
/// the first lex-time failure.
pub open spec fn lex_all(m: LexModel) -> Result<Seq<TokenModel>, ErrorModel>
    decreases m.input.len() - m.position
        when bounds_ok(m)
        via lex_all_decreases
{
    let step = spec_read(m);
    match step.0 {
        Err(e) => Err(e),
        Ok(t) => {
            if t.token_type == TokenType::EndOfFile {
                Ok(seq![t])
            } else {
                match lex_all(step.1) {
                    Ok(rest) => Ok(seq![t] + rest),
                    Err(e) => Err(e),
                }
            }
        },
    }
}

#[via_fn]
proof fn lex_all_decreases(m: LexModel) {
    lemma_read_progress(m);
}

/// Every token the lexer produces sits on a single line.
pub proof fn lemma_read_single_line(m: LexModel)
    ensures
        spec_read(m).0 matches Ok(t) ==> t.span.line_start == t.span.line_end,
{
}

/// Lexes a whole text and renders the snapshot of its tokens.
pub fn eval_lexer(contents: &String) -> (r: Result<String, Error>)
    requires
        contents@.len() < usize::MAX,
    ensures
        r matches Ok(s) ==> (lex_all(
            LexModel { input: contents@, position: 0, column: 0, line: 0 },
        ) matches Ok(ts) && s@ == spec_snapshot(
            contents@,
            spec_newlines(contents@, 0),
            ts,
            usize::MAX as int,
        )),
        r matches Err(e) ==> lex_all(
            LexModel { input: contents@, position: 0, column: 0, line: 0 },
        ) == Err::<Seq<TokenModel>, ErrorModel>(e@),
{
    let chars = chars_of(contents.as_str());
    let mut lines: Vec<usize> = Vec::new();
    let mut j: usize = 0;
    proof {
        assert(spec_newlines(contents@, contents@.len() as int) =~= Seq::<usize>::empty());
    }
    while j < chars.len()
        invariant
            j <= chars@.len(),
            chars@ == contents@,
            forall|k: int| 0 <= k < lines@.len() ==> (#[trigger] lines@[k]) < chars@.len(),
            spec_newlines(contents@, 0) == lines@ + spec_newlines(contents@, j as int),
        decreases chars@.len() - j,
    {
        let ghost l0 = lines@;
        if chars[j] == '\n' {
            lines.push(j);
            proof {
                assert(l0 + (seq![j as usize] + spec_newlines(contents@, j + 1 as int)) =~= (l0
                    + seq![j as usize]) + spec_newlines(contents@, j + 1 as int));
                assert(lines@ =~= l0 + seq![j as usize]);
            }
        }
        j = j + 1;
    }
    proof {
        assert(spec_newlines(contents@, 0) =~= lines@);
    }

    let mut lexer = MonkeyLexer::new(contents.as_str());
    let ghost m0 = lexer@;

    let mut tokens: Vec<Token> = Vec::new();
    let mut stop_loop = false;
    proof {
        lemma_view_tokens_len(tokens@);
    }
    while !stop_loop
        invariant
            lexer.wf(),
            m0 == (LexModel { input: contents@, position: 0, column: 0, line: 0 }),
            contents@.len() < usize::MAX,
            !stop_loop ==> lex_all(m0) == lex_all_prepend(view_tokens(tokens@), lex_all(lexer@)),
            stop_loop ==> lex_all(m0) == Ok::<Seq<TokenModel>, ErrorModel>(view_tokens(tokens@)),
            forall|i: int|
                0 <= i < tokens@.len() ==> (#[trigger] tokens@[i])@.span.line_start
                    == tokens@[i]@.span.line_end,
        decreases lexer@.input.len() - lexer@.position + (if stop_loop { 0int } else { 1int }),
    {
        proof {
            lemma_read_progress(lexer@);
            lemma_read_single_line(lexer@);
        }
        let ghost mcur = lexer@;
        let result = next_token_pull(&mut lexer);
        match result {
            Ok(token) => {
                stop_loop = token_is_eof(&token);
                let ghost ts0 = tokens@;
                tokens.push(token);
                proof {
                    lemma_view_tokens_push(ts0, token);
                    lemma_view_tokens_len(tokens@);
                    if stop_loop {
                        assert(lex_all(mcur) == Ok::<Seq<TokenModel>, ErrorModel>(
                            seq![token@],
                        ));
                        assert(view_tokens(ts0) + seq![token@] =~= view_tokens(tokens@));
                    } else {
                        assert(lex_all(mcur) == lex_all_prepend(seq![token@], lex_all(lexer@)));
                        proof_prepend_assoc(view_tokens(ts0), token@, lex_all(lexer@));
                    }
                }
            },
            Err(message) => {
                proof {
                    assert(bounds_ok(mcur));
                    assert(lex_all(mcur) == Err::<Seq<TokenModel>, ErrorModel>(message@));
                    assert(lex_all(m0) == Err::<Seq<TokenModel>, ErrorModel>(message@));
                }
                return Err(message);
            },
        }
    }

    let snapshot = token_snapshot(&chars, &lines, &tokens);

    Ok(snapshot)
}

/// Prefixing already-taken tokens onto the rest of a lexing outcome.
pub open spec fn lex_all_prepend(
    acc: Seq<TokenModel>,
    rest: Result<Seq<TokenModel>, ErrorModel>,
) -> Result<Seq<TokenModel>, ErrorModel> {
    match rest {
        Ok(ts) => Ok(acc + ts),
        Err(e) => Err(e),
    }
}

/// Prefixing one token at a time agrees with prefixing runs.
proof fn proof_prepend_assoc(
    acc: Seq<TokenModel>,
    t: TokenModel,
    rest: Result<Seq<TokenModel>, ErrorModel>,
)
    ensures
        lex_all_prepend(acc, lex_all_prepend(seq![t], rest)) == lex_all_prepend(
            acc.push(t),
            rest,
        ),
{
    match rest {
        Ok(ts) => {
            assert(acc + (seq![t] + ts) =~= acc.push(t) + ts);
        },
        Err(e) => {},
    }
}

/// Pulls one token, for the driver loop.
fn next_token_pull(lexer: &mut MonkeyLexer) -> (r: Result<Token, Error>)
    requires
        old(lexer).wf(),
    ensures
        final(lexer).wf(),
        (res_view(r), final(lexer)@) == spec_read(old(lexer)@),
{
    lexer.read()
}

/// Whether a token is the end-of-file sentinel.
fn token_is_eof(t: &Token) -> (r: bool)
    ensures
        r == (t@.token_type == TokenType::EndOfFile),
{
    match t.token_type {
        TokenType::EndOfFile => true,
        _ => false,
    }
}

} // verus!
