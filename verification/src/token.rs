//! Source positions and lexer tokens.

use vstd::prelude::*;

use crate::text::{decimal, push_decimal};

verus! {

/// File name of a location whose origin is unknown.
pub const UNKNOWN_FILE: &'static str = "<unknown>";

/// A line and column in a named source.
pub struct SourceLoc {
    pub file: String,
    pub line: usize,
    pub col: usize,
}

impl SourceLoc {
    /// The location reads `file:line:col`.
    pub open spec fn text(self) -> Seq<char> {
        self.file@ + ":"@ + decimal(self.line as nat) + ":"@ + decimal(self.col as nat)
    }

    /// A location from its parts.
    pub fn new(file: String, line: usize, col: usize) -> (r: SourceLoc)
        ensures
            r == (SourceLoc { file, line, col }),
    {
        SourceLoc { file, line, col }
    }

    /// A location from line and column, the file unknown.
    pub fn from_line_col(line: usize, col: usize) -> (r: SourceLoc)
        ensures
            r.file@ == UNKNOWN_FILE@,
            r.line == line,
            r.col == col,
    {
        SourceLoc { file: UNKNOWN_FILE.to_string(), line, col }
    }

    /// The beginning of a file of unknown name.
    pub fn start() -> (r: SourceLoc)
        ensures
            r.file@ == UNKNOWN_FILE@,
            r.line == 1,
            r.col == 1,
    {
        SourceLoc { file: UNKNOWN_FILE.to_string(), line: 1, col: 1 }
    }

    /// The position as `file:line:col`.
    pub fn position(&self) -> (r: String)
        ensures
            r@ == self.text(),
    {
        let mut out = self.file.clone();
        out.append(":");
        push_decimal(&mut out, self.line as u64);
        out.append(":");
        push_decimal(&mut out, self.col as u64);
        out
    }

    /// Whether the file is the unknown one.
    pub fn is_unknown(&self) -> (r: bool)
        ensures
            r == (self.file@ == UNKNOWN_FILE@),
    {
        self.file == UNKNOWN_FILE.to_string()
    }

    /// The same position in another file.
    pub fn with_file(self, file: String) -> (r: SourceLoc)
        ensures
            r == (SourceLoc { file, line: self.line, col: self.col }),
    {
        SourceLoc { file, line: self.line, col: self.col }
    }
}

/// A token as the lexer yields it: names borrow from the source buffer. A float
/// is held by its IEEE-754 bits.
pub enum Token<'a> {
    LeftParen,
    RightParen,
    LeftBracket,
    RightBracket,
    LeftBrace,
    RightBrace,
    Quote,
    Quasiquote,
    Unquote,
    UnquoteSplicing,
    Splice,
    /// `@` for list sugar.
    ListSugar,
    /// `|` delimiter for set literals.
    Pipe,
    /// `@|` for mutable set literals.
    AtPipe,
    /// `b[` for bytes literals.
    BytesBracket,
    /// `@b[` for mutable bytes literals.
    AtBytesBracket,
    Nil,
    Symbol(&'a str),
    Keyword(&'a str),
    Integer(i64),
    Float(u64),
    Str(String),
    Bool(bool),
    Comment(String),
}

/// The same token set with owned names.
pub enum OwnedToken {
    LeftParen,
    RightParen,
    LeftBracket,
    RightBracket,
    LeftBrace,
    RightBrace,
    Quote,
    Quasiquote,
    Unquote,
    UnquoteSplicing,
    Splice,
    ListSugar,
    Pipe,
    AtPipe,
    BytesBracket,
    AtBytesBracket,
    Nil,
    Symbol(String),
    Keyword(String),
    Integer(i64),
    Float(u64),
    Str(String),
    Bool(bool),
    Comment(String),
}

impl OwnedToken {
    /// The owned token is the borrowed one, its name copied.
    pub open spec fn owns(self, token: Token) -> bool {
        match token {
            Token::LeftParen => self == OwnedToken::LeftParen,
            Token::RightParen => self == OwnedToken::RightParen,
            Token::LeftBracket => self == OwnedToken::LeftBracket,
            Token::RightBracket => self == OwnedToken::RightBracket,
            Token::LeftBrace => self == OwnedToken::LeftBrace,
            Token::RightBrace => self == OwnedToken::RightBrace,
            Token::Quote => self == OwnedToken::Quote,
            Token::Quasiquote => self == OwnedToken::Quasiquote,
            Token::Unquote => self == OwnedToken::Unquote,
            Token::UnquoteSplicing => self == OwnedToken::UnquoteSplicing,
            Token::Splice => self == OwnedToken::Splice,
            Token::ListSugar => self == OwnedToken::ListSugar,
            Token::Pipe => self == OwnedToken::Pipe,
            Token::AtPipe => self == OwnedToken::AtPipe,
            Token::BytesBracket => self == OwnedToken::BytesBracket,
            Token::AtBytesBracket => self == OwnedToken::AtBytesBracket,
            Token::Nil => self == OwnedToken::Nil,
            Token::Symbol(s) => self is Symbol && self->Symbol_0@ == s@,
            Token::Keyword(s) => self is Keyword && self->Keyword_0@ == s@,
            Token::Integer(n) => self == OwnedToken::Integer(n),
            Token::Float(f) => self == OwnedToken::Float(f),
            Token::Str(s) => self == OwnedToken::Str(s),
            Token::Bool(b) => self == OwnedToken::Bool(b),
            Token::Comment(s) => self == OwnedToken::Comment(s),
        }
    }

    /// Take ownership of a token.
    pub fn from_token(token: Token) -> (r: OwnedToken)
        ensures
            r.owns(token),
    {
        match token {
            Token::LeftParen => OwnedToken::LeftParen,
            Token::RightParen => OwnedToken::RightParen,
            Token::LeftBracket => OwnedToken::LeftBracket,
            Token::RightBracket => OwnedToken::RightBracket,
            Token::LeftBrace => OwnedToken::LeftBrace,
            Token::RightBrace => OwnedToken::RightBrace,
            Token::Quote => OwnedToken::Quote,
            Token::Quasiquote => OwnedToken::Quasiquote,
            Token::Unquote => OwnedToken::Unquote,
            Token::UnquoteSplicing => OwnedToken::UnquoteSplicing,
            Token::Splice => OwnedToken::Splice,
            Token::ListSugar => OwnedToken::ListSugar,
            Token::Pipe => OwnedToken::Pipe,
            Token::AtPipe => OwnedToken::AtPipe,
            Token::BytesBracket => OwnedToken::BytesBracket,
            Token::AtBytesBracket => OwnedToken::AtBytesBracket,
            Token::Nil => OwnedToken::Nil,
            Token::Symbol(s) => OwnedToken::Symbol(s.to_string()),
            Token::Keyword(s) => OwnedToken::Keyword(s.to_string()),
            Token::Integer(n) => OwnedToken::Integer(n),
            Token::Float(f) => OwnedToken::Float(f),
            Token::Str(s) => OwnedToken::Str(s),
            Token::Bool(b) => OwnedToken::Bool(b),
            Token::Comment(s) => OwnedToken::Comment(s),
        }
    }
}

/// A token with its place in the source.
pub struct TokenWithLoc<'a> {
    pub token: Token<'a>,
    pub loc: SourceLoc,
    /// Source byte length of the token.
    pub len: usize,
    /// Byte offset in source where this token starts.
    pub byte_offset: usize,
}

impl<'a> TokenWithLoc<'a> {
    /// Bundle a token with its source span.
    pub fn new(token: Token<'a>, loc: SourceLoc, len: usize, byte_offset: usize) -> (r: TokenWithLoc<'a>)
        ensures
            r == (TokenWithLoc { token, loc, len, byte_offset }),
    {
        TokenWithLoc { token, loc, len, byte_offset }
    }
}

} // verus!
