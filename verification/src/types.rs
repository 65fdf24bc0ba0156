use vstd::prelude::*;

verus! {

/// The lexical category of a token: the closed set a downstream parser
/// switches over.
#[derive(Debug, Clone, Copy, PartialEq, Eq, Structural)]
pub enum TokenType {
    OpenParen,
    CloseParen,
    OpenBracket,
    CloseBracket,
    OpenBrace,
    CloseBrace,
    Pound,
    Comma,
    Colon,
    SemiColon,
    MemberAccess,
    Int,
    Word,
    Float,
    String,
    Comment,
    Operator,
    ComparisonOperator,
    Assignment,
    ConstAssignment,
}

/// The source location of a token: 1-based line, 1-based column of the
/// token's first character on that line, and the token's length in
/// characters. For string literals the length counts the decoded characters
/// plus the two quote delimiters, so it can differ from the raw source span
/// when escape sequences are present.
#[derive(Debug, Clone, Copy, PartialEq, Eq, Structural)]
pub struct Span {
    pub line: usize,
    pub col: usize,
    pub length: usize,
}

/// A classified, located unit of lexical input. `val` holds the token's
/// text as characters: the decoded value for string literals, the raw
/// source run for numbers and words, and a symbolic name for the synthetic
/// range operator.
#[derive(Debug, Clone)]
pub struct Token {
    pub typ: TokenType,
    pub val: Vec<char>,
    pub span: Span,
}

/// The mathematical model of a token: its category, its text as a character
/// sequence, and its location as unbounded integers.
pub ghost struct TokenView {
    pub typ: TokenType,
    pub text: Seq<char>,
    pub line: int,
    pub col: int,
    pub length: int,
}

impl View for Token {
    type V = TokenView;

    open spec fn view(&self) -> TokenView {
        TokenView {
            typ: self.typ,
            text: self.val@,
            line: self.span.line as int,
            col: self.span.col as int,
            length: self.span.length as int,
        }
    }
}

/// A fatal lexical error. Scanning aborts at the first one; the payload is
/// the location at which the offending construct starts.
#[derive(Debug, Clone, Copy, PartialEq, Eq, Structural)]
pub enum LexError {
    UnterminatedString(Span),
    UnterminatedComment(Span),
    InvalidDot(Span),
    UnexpectedCharacter(char, Span),
}

} // verus!
