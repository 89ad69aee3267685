//! Tokens: the smallest lexical units, each with a kind, its literal text and
//! a source span.

use vstd::prelude::*;
use vstd::string::StringExecFns;

use crate::text::{append_escaped, chars_of, dec_digits, escape_seq, u64_to_string};

verus! {

/// The kind of a lexical unit. `EndOfFile` is a sentinel, not an error.
#[derive(Debug, Copy, Clone, PartialEq, Eq, Structural)]
pub enum TokenType {
    Illegal,
    EndOfFile,
    Comment,
    String,
    Identifier,
    Integer,
    Assign,
    Plus,
    Minus,
    Bang,
    Asterisk,
    Slash,
    LessThan,
    GreaterThan,
    Equal,
    NotEqual,
    LessThanEqual,
    GreaterThanEqual,
    Comma,
    Colon,
    Semicolon,
    LeftParen,
    RightParen,
    LeftBrace,
    RightBrace,
    LeftBracket,
    RightBracket,
    Function,
    Let,
    True,
    False,
    If,
    Else,
    Return,
}

/// A half-open column range on a single source line: the token occupies
/// columns `start..end` of line `line_start`. Multi-line tokens are not
/// produced by the lexer, so `line_start == line_end` always holds of its
/// output.
#[derive(Debug, Copy, Clone, PartialEq, Eq, Structural)]
pub struct Span {
    pub start: usize,
    pub end: usize,
    pub line_start: usize,
    pub line_end: usize,
}

/// One lexical unit. For string tokens the literal holds the decoded text,
/// with escape sequences already resolved; for every other kind it is the
/// exact source text.
#[derive(Debug, PartialEq)]
pub struct Token {
    pub token_type: TokenType,
    pub literal: String,
    pub span: Span,
}

/// The mathematical image of a [`Token`]: the literal as a character
/// sequence.
pub struct TokenModel {
    pub token_type: TokenType,
    pub literal: Seq<char>,
    pub span: Span,
}

impl View for Token {
    type V = TokenModel;

    open spec fn view(&self) -> TokenModel {
        TokenModel { token_type: self.token_type, literal: self.literal@, span: self.span }
    }
}


impl Clone for Token {
    fn clone(&self) -> (r: Self)
        ensures
            r == *self,
    {
        Token { token_type: self.token_type, literal: self.literal.clone(), span: self.span }
    }
}

/// The printed name of a token kind.
pub open spec fn spec_kind_name(t: TokenType) -> Seq<char> {
    match t {
        TokenType::Illegal => "Illegal"@,
        TokenType::EndOfFile => "EndOfFile"@,
        TokenType::Comment => "Comment"@,
        TokenType::String => "String"@,
        TokenType::Identifier => "Identifier"@,
        TokenType::Integer => "Integer"@,
        TokenType::Assign => "Assign"@,
        TokenType::Plus => "Plus"@,
        TokenType::Minus => "Minus"@,
        TokenType::Bang => "Bang"@,
        TokenType::Asterisk => "Asterisk"@,
        TokenType::Slash => "Slash"@,
        TokenType::LessThan => "LessThan"@,
        TokenType::GreaterThan => "GreaterThan"@,
        TokenType::Equal => "Equal"@,
        TokenType::NotEqual => "NotEqual"@,
        TokenType::LessThanEqual => "LessThanEqual"@,
        TokenType::GreaterThanEqual => "GreaterThanEqual"@,
        TokenType::Comma => "Comma"@,
        TokenType::Colon => "Colon"@,
        TokenType::Semicolon => "Semicolon"@,
        TokenType::LeftParen => "LeftParen"@,
        TokenType::RightParen => "RightParen"@,
        TokenType::LeftBrace => "LeftBrace"@,
        TokenType::RightBrace => "RightBrace"@,
        TokenType::LeftBracket => "LeftBracket"@,
        TokenType::RightBracket => "RightBracket"@,
        TokenType::Function => "Function"@,
        TokenType::Let => "Let"@,
        TokenType::True => "True"@,
        TokenType::False => "False"@,
        TokenType::If => "If"@,
        TokenType::Else => "Else"@,
        TokenType::Return => "Return"@,
    }
}

/// The printed name of a token kind.
pub fn kind_name(t: TokenType) -> (r: String)
    ensures
        r@ == spec_kind_name(t),
{
    match t {
        TokenType::Illegal => String::from_str("Illegal"),
        TokenType::EndOfFile => String::from_str("EndOfFile"),
        TokenType::Comment => String::from_str("Comment"),
        TokenType::String => String::from_str("String"),
        TokenType::Identifier => String::from_str("Identifier"),
        TokenType::Integer => String::from_str("Integer"),
        TokenType::Assign => String::from_str("Assign"),
        TokenType::Plus => String::from_str("Plus"),
        TokenType::Minus => String::from_str("Minus"),
        TokenType::Bang => String::from_str("Bang"),
        TokenType::Asterisk => String::from_str("Asterisk"),
        TokenType::Slash => String::from_str("Slash"),
        TokenType::LessThan => String::from_str("LessThan"),
        TokenType::GreaterThan => String::from_str("GreaterThan"),
        TokenType::Equal => String::from_str("Equal"),
        TokenType::NotEqual => String::from_str("NotEqual"),
        TokenType::LessThanEqual => String::from_str("LessThanEqual"),
        TokenType::GreaterThanEqual => String::from_str("GreaterThanEqual"),
        TokenType::Comma => String::from_str("Comma"),
        TokenType::Colon => String::from_str("Colon"),
        TokenType::Semicolon => String::from_str("Semicolon"),
        TokenType::LeftParen => String::from_str("LeftParen"),
        TokenType::RightParen => String::from_str("RightParen"),
        TokenType::LeftBrace => String::from_str("LeftBrace"),
        TokenType::RightBrace => String::from_str("RightBrace"),
        TokenType::LeftBracket => String::from_str("LeftBracket"),
        TokenType::RightBracket => String::from_str("RightBracket"),
        TokenType::Function => String::from_str("Function"),
        TokenType::Let => String::from_str("Let"),
        TokenType::True => String::from_str("True"),
        TokenType::False => String::from_str("False"),
        TokenType::If => String::from_str("If"),
        TokenType::Else => String::from_str("Else"),
        TokenType::Return => String::from_str("Return"),
    }
}

/// The debug rendering of a token: its kind, its literal with escapes
/// re-introduced, and its span.
pub open spec fn spec_token_debug(t: TokenModel) -> Seq<char> {
    "Token("@ + spec_kind_name(t.token_type) + ", \""@ + escape_seq(t.literal) + "\" [L"@
        + dec_digits(t.span.line_start as nat) + "-"@ + dec_digits(t.span.start as nat) + ":"@
        + dec_digits(t.span.end as nat) + "])"@
}

impl Token {
    /// The debug rendering of this token.
    pub fn render(&self) -> (r: String)
        ensures
            r@ == spec_token_debug(self@),
    {
        let mut out = String::from_str("Token(");
        let name = kind_name(self.token_type);
        out.append(name.as_str());
        out.append(", \"");
        let lit = chars_of(self.literal.as_str());
        append_escaped(&mut out, &lit);
        out.append("\" [L");
        let n1 = u64_to_string(self.span.line_start as u64);
        out.append(n1.as_str());
        out.append("-");
        let n2 = u64_to_string(self.span.start as u64);
        out.append(n2.as_str());
        out.append(":");
        let n3 = u64_to_string(self.span.end as u64);
        out.append(n3.as_str());
        out.append("])");
        out
    }
}

/// The views of a run of tokens.
pub open spec fn view_tokens(v: Seq<Token>) -> Seq<TokenModel>
    decreases v,
{
    if v.len() == 0 {
        Seq::empty()
    } else {
        view_tokens(v.drop_last()).push(v.last()@)
    }
}

/// `view_tokens` keeps the length.
pub proof fn lemma_view_tokens_len(v: Seq<Token>)
    ensures
        view_tokens(v).len() == v.len(),
    decreases v.len(),
{
    if v.len() > 0 {
        lemma_view_tokens_len(v.drop_last());
    }
}

/// `view_tokens` read off at one index.
pub proof fn lemma_view_tokens_index(v: Seq<Token>, i: int)
    requires
        0 <= i < v.len(),
    ensures
        view_tokens(v).len() == v.len(),
        view_tokens(v)[i] == v[i]@,
    decreases v.len(),
{
    lemma_view_tokens_len(v);
    if i < v.len() - 1 {
        lemma_view_tokens_index(v.drop_last(), i);
    }
}

/// `view_tokens` over one appended token.
pub proof fn lemma_view_tokens_push(s: Seq<Token>, x: Token)
    ensures
        view_tokens(s.push(x)) == view_tokens(s).push(x@),
{
    assert(s.push(x).drop_last() =~= s);
    assert(s.push(x).last() == x);
}

} // verus!
