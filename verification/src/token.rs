//! Tokens: the lexemes the scanner produces and the parser consumes.
//!
//! A `Token` pairs a `TokenType` with the source text it was read from and the
//! line it started on.  `TokenType::to_string` gives a human-readable name for
//! each kind, used in error messages.

use vstd::prelude::*;

verus! {

#[derive(Clone, Copy, PartialEq, Eq, Structural, Debug)]
pub enum TokenType {
    // Single-character tokens.
    LeftParen,
    RightParen,
    LeftBrace,
    RightBrace,
    LeftBox,
    RightBox,
    Comma,
    Dot,
    Minus,
    Plus,
    Percent,
    SemiColon,
    Slash,
    Star,
    // One or two character tokens.
    Bang,
    BangEqual,
    Equal,
    EqualEqual,
    Greater,
    GreaterEqual,
    Less,
    LessEqual,
    // Literals.
    Identifier,
    String,
    Number,
    // Keywords.
    And,
    Break,
    Class,
    Else,
    False,
    Fun,
    For,
    If,
    Nil,
    Or,
    Return,
    Super,
    This,
    True,
    Var,
    While,
    // End of file.
    Eof,
}

/// The readable name of each token type, as `TokenType::to_string` returns it.
pub open spec fn token_type_name(t: TokenType) -> Seq<char> {
    match t {
        TokenType::LeftParen => "Left Parenthesis"@,
        TokenType::RightParen => "Right Parenthesis"@,
        TokenType::LeftBrace => "Left Brace"@,
        TokenType::LeftBox => "Left Box"@,
        TokenType::RightBox => "Right Box"@,
        TokenType::RightBrace => "Right Brace"@,
        TokenType::Comma => "Comma"@,
        TokenType::Dot => "Dot"@,
        TokenType::Minus => "Minus"@,
        TokenType::Plus => "Plus"@,
        TokenType::Percent => "Percent"@,
        TokenType::SemiColon => "Semicolon"@,
        TokenType::Slash => "Slash"@,
        TokenType::Star => "Star"@,
        TokenType::Bang => "Not"@,
        TokenType::BangEqual => "Not Equal"@,
        TokenType::Equal => "Assignment"@,
        TokenType::EqualEqual => "Equals"@,
        TokenType::Greater => "Greater"@,
        TokenType::GreaterEqual => "Greater Equal"@,
        TokenType::Less => "Less"@,
        TokenType::LessEqual => "Less Equal"@,
        TokenType::Identifier => "Identifier"@,
        TokenType::String => "String"@,
        TokenType::Number => "Number"@,
        TokenType::And => "And"@,
        TokenType::Break => "Break"@,
        TokenType::Class => "Class"@,
        TokenType::Else => "Else"@,
        TokenType::False => "False"@,
        TokenType::Fun => "Fun"@,
        TokenType::For => "For"@,
        TokenType::If => "If"@,
        TokenType::Nil => "Nil"@,
        TokenType::Or => "Or"@,
        TokenType::Return => "Return"@,
        TokenType::Super => "Super"@,
        TokenType::This => "This"@,
        TokenType::True => "True"@,
        TokenType::Var => "Var"@,
        TokenType::While => "While"@,
        TokenType::Eof => "Eof"@,
    }
}

impl TokenType {
    /// The readable name of this token type.
    pub fn to_string(&self) -> (r: &'static str)
        ensures
            r@ == token_type_name(*self),
    {
        match self {
            TokenType::LeftParen => "Left Parenthesis",
            TokenType::RightParen => "Right Parenthesis",
            TokenType::LeftBrace => "Left Brace",
            TokenType::LeftBox => "Left Box",
            TokenType::RightBox => "Right Box",
            TokenType::RightBrace => "Right Brace",
            TokenType::Comma => "Comma",
            TokenType::Dot => "Dot",
            TokenType::Minus => "Minus",
            TokenType::Plus => "Plus",
            TokenType::Percent => "Percent",
            TokenType::SemiColon => "Semicolon",
            TokenType::Slash => "Slash",
            TokenType::Star => "Star",
            TokenType::Bang => "Not",
            TokenType::BangEqual => "Not Equal",
            TokenType::Equal => "Assignment",
            TokenType::EqualEqual => "Equals",
            TokenType::Greater => "Greater",
            TokenType::GreaterEqual => "Greater Equal",
            TokenType::Less => "Less",
            TokenType::LessEqual => "Less Equal",
            TokenType::Identifier => "Identifier",
            TokenType::String => "String",
            TokenType::Number => "Number",
            TokenType::And => "And",
            TokenType::Break => "Break",
            TokenType::Class => "Class",
            TokenType::Else => "Else",
            TokenType::False => "False",
            TokenType::Fun => "Fun",
            TokenType::For => "For",
            TokenType::If => "If",
            TokenType::Nil => "Nil",
            TokenType::Or => "Or",
            TokenType::Return => "Return",
            TokenType::Super => "Super",
            TokenType::This => "This",
            TokenType::True => "True",
            TokenType::Var => "Var",
            TokenType::While => "While",
            TokenType::Eof => "Eof",
        }
    }
}

/// The mathematical value of a token: its type, the characters of its lexeme,
/// and the line it started on.
pub struct TokenV {
    pub ty: TokenType,
    pub lexeme: Seq<char>,
    pub line: nat,
}

#[derive(Debug)]
pub struct Token {
    pub token_type: TokenType,
    pub lexeme: String,
    pub line: usize,
}

impl View for Token {
    type V = TokenV;

    open spec fn view(&self) -> TokenV {
        TokenV { ty: self.token_type, lexeme: self.lexeme@, line: self.line as nat }
    }
}

/// The mathematical values of a token sequence, element by element.
pub open spec fn tokens_view(s: Seq<Token>) -> Seq<TokenV> {
    Seq::new(s.len(), |i: int| s[i]@)
}

pub fn clone_tokens(v: &Vec<Token>) -> (r: Vec<Token>)
    ensures
        r@.len() == v@.len(),
        tokens_view(r@) == tokens_view(v@),
{
    let mut r: Vec<Token> = Vec::new();
    let mut i: usize = 0;
    while i < v.len()
        invariant
            i <= v@.len(),
            r@.len() == i,
            forall|j: int| 0 <= j < i ==> #[trigger] r@[j]@ == v@[j]@,
        decreases v@.len() - i,
    {
        let c = v[i].clone();
        r.push(c);
        i += 1;
    }
    proof {
        assert(tokens_view(r@) =~= tokens_view(v@));
    }
    r
}

impl Clone for Token {
    fn clone(&self) -> (r: Self)
        ensures
            r@ == self@,
    {
        Token { token_type: self.token_type, lexeme: self.lexeme.clone(), line: self.line }
    }
}

impl Token {
    pub fn new(token_type: TokenType, lexeme: &str, line: usize) -> (r: Self)
        ensures
            r@ == (TokenV { ty: token_type, lexeme: lexeme@, line: line as nat }),
    {
        Token { token_type, lexeme: lexeme.to_owned(), line }
    }

    /// Whether two tokens agree in type, lexeme and line.
    pub fn same(&self, other: &Token) -> (r: bool)
        ensures
            r == (self@ == other@),
    {
        let tyeq = self.token_type == other.token_type;
        tyeq && self.lexeme == other.lexeme && self.line == other.line
    }
}

} // verus!
