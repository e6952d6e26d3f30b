//! Lexical scanning.
//!
//! The scanner walks the source text character by character and produces the
//! token stream the parser consumes: punctuation and operators (one or two
//! characters), number, string and identifier literals, and keywords.  Line
//! comments run to the end of the line; block comments nest.  An
//! unrecognised character, an unterminated string or an unterminated block
//! comment is a lexical error carrying the line it was found on.
//!
//! The scanner promises the stream shape the parser's invariant needs: on
//! success the tokens end with exactly one end-of-file marker.

use vstd::prelude::*;
use crate::errors::ScanError;
use crate::numbers::is_digit;
use crate::parser::tokens_ok;
use crate::text::chars_to_string;
use crate::text::str_to_chars;
use crate::token::Token;
use crate::token::TokenType;

verus! {

/// Whether `c` is an ASCII letter.
pub open spec fn spec_is_alpha(c: char) -> bool {
    (('a' as u32) <= (c as u32) <= ('z' as u32)) || (('A' as u32) <= (c as u32) <= ('Z' as u32))
}

fn is_alpha(c: char) -> (r: bool)
    ensures
        r == spec_is_alpha(c),
{
    let u = c as u32;
    (('a' as u32) <= u && u <= ('z' as u32)) || (('A' as u32) <= u && u <= ('Z' as u32))
}

/// The token type an identifier lexeme denotes: a keyword's type for a
/// keyword, else a plain identifier.
pub open spec fn keyword_of(s: Seq<char>) -> TokenType {
    if s == "and"@ {
        TokenType::And
    } else if s == "break"@ {
        TokenType::Break
    } else if s == "class"@ {
        TokenType::Class
    } else if s == "else"@ {
        TokenType::Else
    } else if s == "false"@ {
        TokenType::False
    } else if s == "for"@ {
        TokenType::For
    } else if s == "fun"@ {
        TokenType::Fun
    } else if s == "if"@ {
        TokenType::If
    } else if s == "nil"@ {
        TokenType::Nil
    } else if s == "or"@ {
        TokenType::Or
    } else if s == "return"@ {
        TokenType::Return
    } else if s == "super"@ {
        TokenType::Super
    } else if s == "this"@ {
        TokenType::This
    } else if s == "true"@ {
        TokenType::True
    } else if s == "var"@ {
        TokenType::Var
    } else if s == "while"@ {
        TokenType::While
    } else {
        TokenType::Identifier
    }
}

/// Looks an identifier lexeme up in the keyword table.
fn keyword_type(s: &str) -> (r: TokenType)
    ensures
        r == keyword_of(s@),
        !(r is Eof),
{
    if crate::text::str_eq(s, "and") {
        TokenType::And
    } else if crate::text::str_eq(s, "break") {
        TokenType::Break
    } else if crate::text::str_eq(s, "class") {
        TokenType::Class
    } else if crate::text::str_eq(s, "else") {
        TokenType::Else
    } else if crate::text::str_eq(s, "false") {
        TokenType::False
    } else if crate::text::str_eq(s, "for") {
        TokenType::For
    } else if crate::text::str_eq(s, "fun") {
        TokenType::Fun
    } else if crate::text::str_eq(s, "if") {
        TokenType::If
    } else if crate::text::str_eq(s, "nil") {
        TokenType::Nil
    } else if crate::text::str_eq(s, "or") {
        TokenType::Or
    } else if crate::text::str_eq(s, "return") {
        TokenType::Return
    } else if crate::text::str_eq(s, "super") {
        TokenType::Super
    } else if crate::text::str_eq(s, "this") {
        TokenType::This
    } else if crate::text::str_eq(s, "true") {
        TokenType::True
    } else if crate::text::str_eq(s, "var") {
        TokenType::Var
    } else if crate::text::str_eq(s, "while") {
        TokenType::While
    } else {
        TokenType::Identifier
    }
}

pub struct Scanner {
    pub src: Vec<char>,
    pub tokens: Vec<Token>,
    pub start: usize,
    pub current: usize,
    pub line: usize,
}

/// The scanner's invariant: the cursor within bounds, no end-of-file marker
/// among the tokens gathered so far, and the line count positive.
pub open spec fn scanner_wf(s: Scanner) -> bool {
    &&& s.current <= s.src@.len()
    &&& s.start <= s.current
    &&& forall|i: int| 0 <= i < s.tokens@.len() ==> !((#[trigger] s.tokens@[i])@.ty is Eof)
    &&& s.line >= 1
}

/// What every scanning step preserves: the source, the invariant, gathered
/// tokens kept, forward-only movement.
pub open spec fn scan_step(pre: Scanner, post: Scanner) -> bool {
    &&& scanner_wf(post)
    &&& post.src@ == pre.src@
    &&& post.current >= pre.current
    &&& post.tokens@.len() >= pre.tokens@.len()
    &&& forall|i: int| 0 <= i < pre.tokens@.len()
        ==> (#[trigger] post.tokens@[i])@ == pre.tokens@[i]@
}

impl Scanner {
    pub fn new(src: &str) -> (r: Self)
        ensures
            scanner_wf(r),
            r.src@ == src@,
            r.tokens@.len() == 0,
            r.current == 0,
    {
        Scanner { src: str_to_chars(src), tokens: Vec::new(), start: 0, current: 0, line: 1 }
    }

    /// Scans the whole source into tokens; on success the stream ends with
    /// exactly one end-of-file marker, as the parser requires.
    pub fn scan_tokens(&mut self) -> (r: Result<Vec<Token>, ScanError>)
        requires
            scanner_wf(*old(self)),
        ensures
            scan_step(*old(self), *final(self)),
            r matches Ok(ts) ==> tokens_ok(ts@),
    {
        while !self.is_at_end()
            invariant
                scan_step(*old(self), *self),
            decreases self.src@.len() - self.current,
        {
            self.start = self.current;
            match self.scan_token() {
                Ok(()) => {},
                Err(e) => {
                    return Err(e);
                },
            }
        }
        let eof_token = Token::new(TokenType::Eof, "", self.line);
        self.tokens.push(eof_token);
        let out = crate::token::clone_tokens(&self.tokens);
        proof {
            let ts = out@;
            let vs = self.tokens@;
            assert(crate::token::tokens_view(ts) == crate::token::tokens_view(vs));
            assert(ts.len() == vs.len());
            assert forall|i: int| 0 <= i < ts.len() implies (#[trigger] ts[i])@ == vs[i]@ by {
                assert(crate::token::tokens_view(ts)[i] == ts[i]@);
                assert(crate::token::tokens_view(vs)[i] == vs[i]@);
            }
            assert(ts.last()@ == vs.last()@);
            assert(vs.last()@.ty is Eof);
            assert forall|i: int| 0 <= i < ts.len() - 1
                implies !((#[trigger] ts[i])@.ty is Eof) by {
                assert(ts[i]@ == vs[i]@);
                assert(!(vs[i]@.ty is Eof));
            }
            assert(tokens_ok(ts));
        }
        let ghost snap = self.tokens@;
        let _ = self.tokens.pop();
        proof {
            assert(self.tokens@ =~= snap.drop_last());
            assert forall|i: int| 0 <= i < old(self).tokens@.len()
                implies (#[trigger] self.tokens@[i])@ == old(self).tokens@[i]@ by {
                assert(self.tokens@[i] == snap[i]);
            }
        }
        Ok(out)
    }

    fn is_at_end(&self) -> (r: bool)
        ensures
            r == (self.current >= self.src@.len()),
    {
        self.current >= self.src.len()
    }

    /// Scans one token (or skips whitespace or a comment) starting at the
    /// cursor, always consuming at least one character.
    fn scan_token(&mut self) -> (r: Result<(), ScanError>)
        requires
            scanner_wf(*old(self)),
            old(self).current < old(self).src@.len(),
        ensures
            scan_step(*old(self), *final(self)),
            final(self).current > old(self).current,
        decreases old(self).src@.len() - old(self).current, 1int,
    {
        let c = self.advance();
        match c {
            '(' => {
                self.add_token(TokenType::LeftParen);
                Ok(())
            },
            ')' => {
                self.add_token(TokenType::RightParen);
                Ok(())
            },
            '{' => {
                self.add_token(TokenType::LeftBrace);
                Ok(())
            },
            '}' => {
                self.add_token(TokenType::RightBrace);
                Ok(())
            },
            '[' => {
                self.add_token(TokenType::LeftBox);
                Ok(())
            },
            ']' => {
                self.add_token(TokenType::RightBox);
                Ok(())
            },
            ',' => {
                self.add_token(TokenType::Comma);
                Ok(())
            },
            '.' => {
                self.add_token(TokenType::Dot);
                Ok(())
            },
            '-' => {
                self.add_token(TokenType::Minus);
                Ok(())
            },
            '+' => {
                self.add_token(TokenType::Plus);
                Ok(())
            },
            '%' => {
                self.add_token(TokenType::Percent);
                Ok(())
            },
            ';' => {
                self.add_token(TokenType::SemiColon);
                Ok(())
            },
            '*' => {
                self.add_token(TokenType::Star);
                Ok(())
            },
            '!' => {
                if self.expect('=') {
                    self.add_token(TokenType::BangEqual);
                } else {
                    self.add_token(TokenType::Bang);
                }
                Ok(())
            },
            '=' => {
                if self.expect('=') {
                    self.add_token(TokenType::EqualEqual);
                } else {
                    self.add_token(TokenType::Equal);
                }
                Ok(())
            },
            '<' => {
                if self.expect('=') {
                    self.add_token(TokenType::LessEqual);
                } else {
                    self.add_token(TokenType::Less);
                }
                Ok(())
            },
            '>' => {
                if self.expect('=') {
                    self.add_token(TokenType::GreaterEqual);
                } else {
                    self.add_token(TokenType::Greater);
                }
                Ok(())
            },
            '/' => {
                if self.expect('/') {
                    self.single_line_comment();
                    Ok(())
                } else if self.expect('*') {
                    self.multi_line_comment()
                } else {
                    self.add_token(TokenType::Slash);
                    Ok(())
                }
            },
            '"' => self.string(),
            ' ' => Ok(()),
            '\r' => Ok(()),
            '\t' => Ok(()),
            '\n' => {
                self.bump_line();
                Ok(())
            },
            _ => {
                if is_digit(c) {
                    self.number();
                    Ok(())
                } else if is_alpha(c) || c == '_' {
                    self.identifier();
                    Ok(())
                } else {
                    Err(ScanError::UnexpectedChar { c, line: self.line })
                }
            },
        }
    }

    /// Consumes and yields the character at the cursor.
    fn advance(&mut self) -> (r: char)
        requires
            scanner_wf(*old(self)),
            old(self).current < old(self).src@.len(),
        ensures
            scan_step(*old(self), *final(self)),
            final(self).current == old(self).current + 1,
            final(self).tokens@ == old(self).tokens@,
            final(self).start == old(self).start,
            final(self).line == old(self).line,
            r == old(self).src@[old(self).current as int],
    {
        let c = self.src[self.current];
        let n = self.src.len();
        proof {
            assert(self.current < n);
        }
        self.current = self.current + 1;
        c
    }

    /// Consumes the next character exactly when it is the expected one.
    fn expect(&mut self, expected: char) -> (r: bool)
        requires
            scanner_wf(*old(self)),
        ensures
            scan_step(*old(self), *final(self)),
            final(self).tokens@ == old(self).tokens@,
            final(self).start == old(self).start,
            final(self).line == old(self).line,
            r ==> final(self).current == old(self).current + 1,
            !r ==> final(self).current == old(self).current,
    {
        if self.is_at_end() {
            return false;
        }
        if self.src[self.current] != expected {
            return false;
        }
        let n = self.src.len();
        proof {
            assert(self.current < n);
        }
        self.current = self.current + 1;
        true
    }

    /// The character `n` places past the cursor, or the nul character past
    /// the end.
    fn peek(&self, n: usize) -> (r: char)
        requires
            scanner_wf(*self),
        ensures
            self.current + n < self.src@.len() ==> r == self.src@[self.current + n],
            self.current + n >= self.src@.len() ==> r == '\u{0}',
    {
        if self.current < self.src.len() && n < self.src.len() - self.current {
            self.src[self.current + n]
        } else {
            '\u{0}'
        }
    }

    /// Appends a token for the text from `start` to the cursor.
    fn add_token(&mut self, token_type: TokenType)
        requires
            scanner_wf(*old(self)),
            !(token_type is Eof),
        ensures
            scan_step(*old(self), *final(self)),
            final(self).current == old(self).current,
            final(self).start == old(self).start,
            final(self).line == old(self).line,
            final(self).tokens@.len() == old(self).tokens@.len() + 1,
    {
        let mut text: Vec<char> = Vec::new();
        let mut i: usize = self.start;
        while i < self.current
            invariant
                self.start <= i <= self.current,
                self.current <= self.src@.len(),
                text@.len() == i - self.start,
            decreases self.current - i,
        {
            text.push(self.src[i]);
            i = i + 1;
        }
        let lexeme = chars_to_string(&text);
        let token = Token::new(token_type, lexeme.as_str(), self.line);
        self.tokens.push(token);
        proof {
            assert forall|k: int| 0 <= k < old(self).tokens@.len()
                implies (#[trigger] self.tokens@[k])@ == old(self).tokens@[k]@ by {
                assert(self.tokens@[k] == old(self).tokens@[k]);
            }
        }
    }

    /// Appends a token with the given text.
    fn add_token_s(&mut self, token_type: TokenType, text: &str)
        requires
            scanner_wf(*old(self)),
            !(token_type is Eof),
        ensures
            scan_step(*old(self), *final(self)),
            final(self).current == old(self).current,
            final(self).start == old(self).start,
            final(self).line == old(self).line,
    {
        let token = Token::new(token_type, text, self.line);
        self.tokens.push(token);
        proof {
            assert forall|k: int| 0 <= k < old(self).tokens@.len()
                implies (#[trigger] self.tokens@[k])@ == old(self).tokens@[k]@ by {
                assert(self.tokens@[k] == old(self).tokens@[k]);
            }
        }
    }

    /// Steps the line counter, saturating rather than wrapping.
    fn bump_line(&mut self)
        requires
            scanner_wf(*old(self)),
        ensures
            scan_step(*old(self), *final(self)),
            final(self).current == old(self).current,
            final(self).start == old(self).start,
            final(self).tokens@ == old(self).tokens@,
            final(self).line >= old(self).line,
    {
        if self.line < usize::MAX {
            self.line = self.line + 1;
        }
    }

    /// Scans the rest of a number: digits, then an optional fraction part —
    /// kept as text; whether the lexeme denotes a value the number type can
    /// hold is decided when the literal is read.
    fn number(&mut self)
        requires
            scanner_wf(*old(self)),
        ensures
            scan_step(*old(self), *final(self)),
            final(self).current >= old(self).current,
    {
        while is_digit(self.peek(0)) && self.current < self.src.len()
            invariant
                scanner_wf(*self),
                self.src@ == old(self).src@,
                self.tokens@ == old(self).tokens@,
                self.start == old(self).start,
                self.line == old(self).line,
                self.current >= old(self).current,
            decreases self.src@.len() - self.current,
        {
            let _ = self.advance();
        }
        if self.peek(0) == '.' && is_digit(self.peek(1)) {
            let _ = self.advance();
            while is_digit(self.peek(0)) && self.current < self.src.len()
                invariant
                    scanner_wf(*self),
                    self.src@ == old(self).src@,
                    self.tokens@ == old(self).tokens@,
                    self.start == old(self).start,
                    self.line == old(self).line,
                    self.current >= old(self).current,
                decreases self.src@.len() - self.current,
            {
                let _ = self.advance();
            }
        }
        self.add_token(TokenType::Number);
    }

    /// Scans the rest of a string literal, through the closing quote; the
    /// token's text is the contents without the quotes.
    fn string(&mut self) -> (r: Result<(), ScanError>)
        requires
            scanner_wf(*old(self)),
            old(self).start < old(self).current,
        ensures
            scan_step(*old(self), *final(self)),
            final(self).current >= old(self).current,
    {
        while self.peek(0) != '"' && !(self.current >= self.src.len())
            invariant
                scanner_wf(*self),
                self.src@ == old(self).src@,
                self.tokens@ == old(self).tokens@,
                self.start == old(self).start,
                self.start < self.current || self.current == old(self).current,
                self.current >= old(self).current,
            decreases self.src@.len() - self.current,
        {
            if self.peek(0) == '\n' {
                self.bump_line();
            }
            let _ = self.advance();
        }
        if self.is_at_end() {
            return Err(ScanError::UnterminatedString { line: self.line });
        }
        let _ = self.advance();
        proof {
            assert(self.current >= 1);
        }
        let mut text: Vec<char> = Vec::new();
        let mut i: usize = self.start + 1;
        while i < self.current - 1 && i < self.src.len()
            invariant
                self.current >= 1,
                self.current <= self.src@.len(),
                self.start + 1 <= i,
            decreases self.src@.len() - i,
        {
            text.push(self.src[i]);
            i = i + 1;
        }
        let contents = chars_to_string(&text);
        self.add_token_s(TokenType::String, contents.as_str());
        Ok(())
    }

    /// Scans the rest of an identifier or keyword.
    fn identifier(&mut self)
        requires
            scanner_wf(*old(self)),
        ensures
            scan_step(*old(self), *final(self)),
            final(self).current >= old(self).current,
    {
        loop
            invariant
                scanner_wf(*self),
                self.src@ == old(self).src@,
                self.tokens@ == old(self).tokens@,
                self.start == old(self).start,
                self.line == old(self).line,
                self.current >= old(self).current,
            decreases self.src@.len() - self.current,
        {
            let c = self.peek(0);
            if (is_alpha(c) || is_digit(c) || c == '_') && self.current < self.src.len() {
                let _ = self.advance();
            } else {
                break;
            }
        }
        let mut text: Vec<char> = Vec::new();
        let mut i: usize = self.start;
        while i < self.current
            invariant
                self.start <= i <= self.current,
                self.current <= self.src@.len(),
            decreases self.current - i,
        {
            text.push(self.src[i]);
            i = i + 1;
        }
        let lexeme = chars_to_string(&text);
        let token_type = keyword_type(lexeme.as_str());
        self.add_token(token_type);
    }

    /// Skips to the end of the line.
    fn single_line_comment(&mut self)
        requires
            scanner_wf(*old(self)),
        ensures
            scan_step(*old(self), *final(self)),
            final(self).tokens@ == old(self).tokens@,
            final(self).line == old(self).line,
    {
        while self.peek(0) != '\n' && !(self.current >= self.src.len())
            invariant
                scanner_wf(*self),
                self.src@ == old(self).src@,
                self.tokens@ == old(self).tokens@,
                self.start == old(self).start,
                self.line == old(self).line,
                self.current >= old(self).current,
            decreases self.src@.len() - self.current,
        {
            let _ = self.advance();
        }
    }

    /// Skips a block comment, honouring nesting; an unterminated comment is
    /// a lexical error.
    fn multi_line_comment(&mut self) -> (r: Result<(), ScanError>)
        requires
            scanner_wf(*old(self)),
        ensures
            scan_step(*old(self), *final(self)),
            final(self).tokens@ == old(self).tokens@,
            final(self).start == old(self).start,
            final(self).line >= old(self).line,
        decreases old(self).src@.len() - old(self).current, 0int,
    {
        loop
            invariant
                scanner_wf(*self),
                self.src@ == old(self).src@,
                self.tokens@ == old(self).tokens@,
                self.start == old(self).start,
                self.current >= old(self).current,
                self.line >= old(self).line,
            decreases self.src@.len() - self.current,
        {
            if self.is_at_end() {
                return Err(ScanError::UnterminatedComment { line: self.line });
            }
            let c = self.advance();
            if c == '/' {
                if self.expect('*') {
                    match self.multi_line_comment() {
                        Ok(()) => {},
                        Err(e) => {
                            return Err(e);
                        },
                    }
                }
            } else if c == '*' {
                if self.expect('/') {
                    return Ok(());
                }
            } else if c == '\n' {
                self.bump_line();
            }
        }
    }
}

} // verus!
