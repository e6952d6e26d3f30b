//! Recursive-descent parsing.
//!
//! The parser turns the scanner's token stream into statement trees,
//! following the grammar one precedence level per function.  On a syntax
//! error it synchronises to the next statement boundary and keeps going, so
//! one parse can report several errors; statements execute only if none
//! occurred.  Every variable, assignment and indexed-access node is stamped
//! with a distinct resolution index, drawn from a counter that only grows —
//! the key under which the resolver later records the reference's hop
//! depth.
//!
//! Every statement the parser yields is well formed at any arena length:
//! literal nodes hold only plain values (never closures) and unary nodes
//! carry only the operators the evaluator defines.

use vstd::prelude::*;
use crate::errors::ParseError;
use crate::expr::Expr;
use crate::expr::ExprV;
use crate::expr::Literal;
use crate::expr::expr_wf;
use crate::expr::exprs_wf;
use crate::expr::exprs_view;
use crate::expr::lemma_exprs_view_len;
use crate::expr::lemma_exprs_wf_pointwise;
use crate::stmt::Stmt;
use crate::stmt::StmtV;
use crate::stmt::stmt_wf;
use crate::stmt::stmts_wf;
use crate::stmt::stmts_view;
use crate::stmt::lemma_stmts_view_len;
use crate::stmt::lemma_stmts_wf_pointwise;
use crate::token::Token;
use crate::token::TokenType;

verus! {

/// A well-formed token stream: nonempty, ending with the one end-of-file
/// token.
pub open spec fn tokens_ok(ts: Seq<Token>) -> bool {
    &&& ts.len() >= 1
    &&& ts.last()@.ty is Eof
    &&& forall|i: int| 0 <= i < ts.len() - 1 ==> !((#[trigger] ts[i])@.ty is Eof)
}

pub struct Parser {
    pub tokens: Vec<Token>,
    pub current: usize,
    pub index: usize,
}

/// The parser's own invariant: a well-formed stream and a cursor on it.
pub open spec fn parser_wf(p: Parser) -> bool {
    &&& tokens_ok(p.tokens@)
    &&& p.current < p.tokens@.len()
}

/// What every parsing step preserves: the stream itself, the invariant, and
/// the forward-only movement of the cursor and the index counter.
pub open spec fn parser_step(pre: Parser, post: Parser) -> bool {
    &&& parser_wf(post)
    &&& post.tokens@ == pre.tokens@
    &&& post.current >= pre.current
    &&& post.index >= pre.index
}

impl Parser {
    pub fn new(tokens: Vec<Token>) -> (r: Self)
        requires
            tokens_ok(tokens@),
        ensures
            parser_wf(r),
            r.tokens@ == tokens@,
            r.current == 0,
            r.index == 0,
    {
        Parser { tokens, current: 0, index: 0 }
    }

    /// Parses the whole token stream into statements, collecting every
    /// syntax error found.  All yielded statements are well formed at any
    /// arena length.
    pub fn parse(&mut self) -> (r: Result<Vec<Stmt>, Vec<ParseError>>)
        requires
            parser_wf(*old(self)),
        ensures
            parser_step(*old(self), *final(self)),
            r matches Ok(statements) ==> forall|i: int, n: int|
                0 <= i < statements@.len() ==> #[trigger] stmt_wf(statements@[i]@, n),
    {
        let mut statements: Vec<Stmt> = Vec::new();
        let mut errors: Vec<ParseError> = Vec::new();
        while !self.is_at_end()
            invariant
                parser_step(*old(self), *self),
                forall|i: int, n: int| 0 <= i < statements@.len()
                    ==> #[trigger] stmt_wf(statements@[i]@, n),
            decreases self.tokens@.len() - self.current,
        {
            match self.declaration() {
                Ok(statement) => {
                    statements.push(statement);
                },
                Err(error) => {
                    errors.push(error);
                    self.synchronise();
                    if self.is_at_end() {
                        break;
                    }
                },
            }
        }
        if errors.len() == 0 {
            Ok(statements)
        } else {
            Err(errors)
        }
    }

    /// Draws the next fresh resolution index.
    fn fresh_index(&mut self) -> (r: usize)
        ensures
            final(self).tokens@ == old(self).tokens@,
            final(self).current == old(self).current,
            final(self).index >= old(self).index,
    {
        let index = self.index;
        if self.index < usize::MAX {
            self.index = self.index + 1;
        }
        index
    }

    fn declaration(&mut self) -> (r: Result<Stmt, ParseError>)
        requires
            parser_wf(*old(self)),
        ensures
            parser_step(*old(self), *final(self)),
            r matches Ok(s) ==> forall|n: int| stmt_wf(s@, n),
            r is Ok ==> final(self).current > old(self).current,
        decreases old(self).tokens@.len() - old(self).current, 14int,
    {
        if self.match_one(TokenType::Var) {
            self.var_declaration()
        } else if self.match_one(TokenType::Fun) {
            self.function()
        } else {
            self.statement()
        }
    }

    /// Parses a function declaration: name, parameter list, brace-enclosed
    /// body.
    fn function(&mut self) -> (r: Result<Stmt, ParseError>)
        requires
            parser_wf(*old(self)),
        ensures
            parser_step(*old(self), *final(self)),
            r matches Ok(s) ==> forall|n: int| stmt_wf(s@, n),
        decreases old(self).tokens@.len() - old(self).current, 13int,
    {
        let name = match self.consume(TokenType::Identifier) {
            Ok(t) => t,
            Err(e) => {
                return Err(e);
            },
        };
        match self.consume(TokenType::LeftParen) {
            Ok(_) => {},
            Err(e) => {
                return Err(e);
            },
        }
        let mut params: Vec<Token> = Vec::new();
        if !self.check(TokenType::RightParen) {
            loop
                invariant
                    parser_step(*old(self), *self),
                decreases self.tokens@.len() - self.current,
            {
                if params.len() >= 255 {
                    return Err(ParseError::TooManyArguments { line: self.peek().line });
                }
                match self.consume(TokenType::Identifier) {
                    Ok(p) => {
                        params.push(p);
                    },
                    Err(e) => {
                        return Err(e);
                    },
                }
                if !self.match_one(TokenType::Comma) {
                    break;
                }
            }
        }
        match self.consume(TokenType::RightParen) {
            Ok(_) => {},
            Err(e) => {
                return Err(e);
            },
        }
        match self.consume(TokenType::LeftBrace) {
            Ok(_) => {},
            Err(e) => {
                return Err(e);
            },
        }
        let body = match self.block_statements() {
            Ok(b) => b,
            Err(e) => {
                return Err(e);
            },
        };
        let ghost bvs = stmts_view(body@);
        proof {
            lemma_stmts_view_len(body@);
            assert forall|i: int, n: int| 0 <= i < bvs.len()
                implies #[trigger] stmt_wf(bvs[i], n) by {
                assert(bvs[i] == body@[i]@);
                assert(stmt_wf(body@[i]@, n));
            }
        }
        let r = Stmt::Function { name, params, body };
        proof {
            assert forall|n: int| stmt_wf(r@, n) by {
                assert forall|i: int| 0 <= i < bvs.len()
                    implies stmt_wf(#[trigger] bvs[i], n) by {
                    assert(stmt_wf(bvs[i], n));
                }
                lemma_stmts_wf_pointwise(bvs, n);
                assert(stmts_wf(bvs, n));
            }
        }
        Ok(r)
    }

    fn var_declaration(&mut self) -> (r: Result<Stmt, ParseError>)
        requires
            parser_wf(*old(self)),
        ensures
            parser_step(*old(self), *final(self)),
            r matches Ok(s) ==> forall|n: int| stmt_wf(s@, n),
        decreases old(self).tokens@.len() - old(self).current, 13int,
    {
        let name = match self.consume(TokenType::Identifier) {
            Ok(t) => t,
            Err(e) => {
                return Err(e);
            },
        };
        let initializer = if self.match_one(TokenType::Equal) {
            match self.expression() {
                Ok(e) => Some(e),
                Err(e) => {
                    return Err(e);
                },
            }
        } else {
            None
        };
        if self.check(TokenType::SemiColon) {
            let _ = self.advance();
        }
        let ghost iv = match initializer {
            Some(ref e) => Some(e@),
            None => None,
        };
        let r = Stmt::Var { name, initializer };
        proof {
            assert forall|n: int| stmt_wf(r@, n) by {
                match iv {
                    Some(e) => {
                        assert(expr_wf(e, n));
                    },
                    None => {},
                }
            }
        }
        Ok(r)
    }

    fn statement(&mut self) -> (r: Result<Stmt, ParseError>)
        requires
            parser_wf(*old(self)),
        ensures
            parser_step(*old(self), *final(self)),
            r matches Ok(s) ==> forall|n: int| stmt_wf(s@, n),
            r is Ok ==> final(self).current > old(self).current,
        decreases old(self).tokens@.len() - old(self).current, 13int,
    {
        if self.match_one(TokenType::For) {
            return self.for_statement();
        }
        if self.match_one(TokenType::If) {
            return self.if_statement();
        }
        if self.match_one(TokenType::Return) {
            return self.return_statement();
        }
        if self.match_one(TokenType::While) {
            return self.while_statement();
        }
        if self.match_one(TokenType::LeftBrace) {
            let statements = match self.block_statements() {
                Ok(b) => b,
                Err(e) => {
                    return Err(e);
                },
            };
            let ghost bvs = stmts_view(statements@);
            proof {
                lemma_stmts_view_len(statements@);
                assert forall|i: int, n: int| 0 <= i < bvs.len()
                    implies #[trigger] stmt_wf(bvs[i], n) by {
                    assert(bvs[i] == statements@[i]@);
                    assert(stmt_wf(statements@[i]@, n));
                }
            }
            let r = Stmt::Block { statements };
            proof {
                assert forall|n: int| stmt_wf(r@, n) by {
                    assert forall|i: int| 0 <= i < bvs.len()
                        implies stmt_wf(#[trigger] bvs[i], n) by {
                        assert(stmt_wf(bvs[i], n));
                    }
                    lemma_stmts_wf_pointwise(bvs, n);
                    assert(stmts_wf(bvs, n));
                }
            }
            return Ok(r);
        }
        self.expr_statement()
    }

    /// Parses `for` as sugar: initializer, condition and increment wrap the
    /// body in blocks around a `while` loop.
    fn for_statement(&mut self) -> (r: Result<Stmt, ParseError>)
        requires
            parser_wf(*old(self)),
        ensures
            parser_step(*old(self), *final(self)),
            r matches Ok(s) ==> forall|n: int| stmt_wf(s@, n),
        decreases old(self).tokens@.len() - old(self).current, 12int,
    {
        match self.consume(TokenType::LeftParen) {
            Ok(_) => {},
            Err(e) => {
                return Err(e);
            },
        }
        let initializer: Option<Stmt> = if self.match_one(TokenType::SemiColon) {
            None
        } else if self.match_one(TokenType::Var) {
            match self.var_declaration() {
                Ok(s) => Some(s),
                Err(e) => {
                    return Err(e);
                },
            }
        } else {
            match self.expr_statement() {
                Ok(s) => Some(s),
                Err(e) => {
                    return Err(e);
                },
            }
        };
        let condition: Expr;
        if !self.check(TokenType::SemiColon) {
            condition = match self.expression() {
                Ok(e) => e,
                Err(e) => {
                    return Err(e);
                },
            };
        } else {
            condition = Expr::Literal { literal: Literal::Boolean(true) };
            proof {
                assert(crate::expr::lit_view(Literal::Boolean(true))
                    == crate::expr::LitV::Boolean(true));
                assert(condition@ == (ExprV::Literal {
                    literal: crate::expr::LitV::Boolean(true),
                }));
                assert forall|n: int| expr_wf(condition@, n) by {
                    assert(crate::expr::lit_wf(crate::expr::LitV::Boolean(true), n));
                }
            }
        }
        match self.consume(TokenType::SemiColon) {
            Ok(_) => {},
            Err(e) => {
                return Err(e);
            },
        }
        let change: Option<Expr> = if !self.check(TokenType::RightParen) {
            match self.expression() {
                Ok(e) => Some(e),
                Err(e) => {
                    return Err(e);
                },
            }
        } else {
            None
        };
        match self.consume(TokenType::RightParen) {
            Ok(_) => {},
            Err(e) => {
                return Err(e);
            },
        }
        let mut body = match self.statement() {
            Ok(s) => s,
            Err(e) => {
                return Err(e);
            },
        };
        if let Some(change) = change {
            let ghost bv = body@;
            let ghost chv = change@;
            let mut statements: Vec<Stmt> = Vec::new();
            statements.push(body);
            statements.push(Stmt::Expression { expr: change });
            let ghost svs = stmts_view(statements@);
            proof {
                lemma_stmts_view_len(statements@);
                assert(svs[0] == statements@[0]@);
                assert(statements@[0]@ == bv);
                assert(svs[1] == statements@[1]@);
                assert(statements@[1]@ == (StmtV::Expression { expr: chv }));
            }
            body = Stmt::Block { statements };
            proof {
                assert forall|n: int| stmt_wf(body@, n) by {
                    assert forall|i: int| 0 <= i < svs.len()
                        implies stmt_wf(#[trigger] svs[i], n) by {
                        assert(stmt_wf(bv, n));
                        assert(expr_wf(chv, n));
                        if i == 0 {
                            assert(svs[i] == bv);
                        } else {
                            assert(svs[i] == (StmtV::Expression { expr: chv }));
                        }
                    }
                    lemma_stmts_wf_pointwise(svs, n);
                    assert(stmts_wf(svs, n));
                }
            }
        }
        let ghost cv = condition@;
        let ghost bv2 = body@;
        body = Stmt::While { condition, body: Box::new(body) };
        proof {
            assert forall|n: int| stmt_wf(body@, n) by {
                assert(expr_wf(cv, n));
                assert(stmt_wf(bv2, n));
            }
        }
        if let Some(initializer) = initializer {
            let ghost iv = initializer@;
            let ghost wv = body@;
            let mut statements: Vec<Stmt> = Vec::new();
            statements.push(initializer);
            statements.push(body);
            let ghost svs = stmts_view(statements@);
            proof {
                lemma_stmts_view_len(statements@);
                assert(svs[0] == statements@[0]@);
                assert(statements@[0]@ == iv);
                assert(svs[1] == statements@[1]@);
                assert(statements@[1]@ == wv);
            }
            body = Stmt::Block { statements };
            proof {
                assert forall|n: int| stmt_wf(body@, n) by {
                    assert forall|i: int| 0 <= i < svs.len()
                        implies stmt_wf(#[trigger] svs[i], n) by {
                        assert(stmt_wf(iv, n));
                        assert(stmt_wf(wv, n));
                        if i == 0 {
                            assert(svs[i] == iv);
                        } else {
                            assert(svs[i] == wv);
                        }
                    }
                    lemma_stmts_wf_pointwise(svs, n);
                    assert(stmts_wf(svs, n));
                }
            }
        }
        Ok(body)
    }

    fn if_statement(&mut self) -> (r: Result<Stmt, ParseError>)
        requires
            parser_wf(*old(self)),
        ensures
            parser_step(*old(self), *final(self)),
            r matches Ok(s) ==> forall|n: int| stmt_wf(s@, n),
        decreases old(self).tokens@.len() - old(self).current, 12int,
    {
        match self.consume(TokenType::LeftParen) {
            Ok(_) => {},
            Err(e) => {
                return Err(e);
            },
        }
        let condition = match self.expression() {
            Ok(e) => e,
            Err(e) => {
                return Err(e);
            },
        };
        match self.consume(TokenType::RightParen) {
            Ok(_) => {},
            Err(e) => {
                return Err(e);
            },
        }
        let then_branch = match self.statement() {
            Ok(s) => s,
            Err(e) => {
                return Err(e);
            },
        };
        let else_branch = if self.match_one(TokenType::Else) {
            match self.statement() {
                Ok(s) => Some(Box::new(s)),
                Err(e) => {
                    return Err(e);
                },
            }
        } else {
            None
        };
        let ghost cv = condition@;
        let ghost tv = then_branch@;
        let ghost evv = match else_branch {
            Some(ref b) => Some((**b)@),
            None => None,
        };
        let r = Stmt::If { condition, then_branch: Box::new(then_branch), else_branch };
        proof {
            assert forall|n: int| stmt_wf(r@, n) by {
                assert(expr_wf(cv, n));
                assert(stmt_wf(tv, n));
                match evv {
                    Some(b) => {
                        assert(stmt_wf(b, n));
                    },
                    None => {},
                }
            }
        }
        Ok(r)
    }

    fn while_statement(&mut self) -> (r: Result<Stmt, ParseError>)
        requires
            parser_wf(*old(self)),
        ensures
            parser_step(*old(self), *final(self)),
            r matches Ok(s) ==> forall|n: int| stmt_wf(s@, n),
        decreases old(self).tokens@.len() - old(self).current, 12int,
    {
        match self.consume(TokenType::LeftParen) {
            Ok(_) => {},
            Err(e) => {
                return Err(e);
            },
        }
        let condition = match self.expression() {
            Ok(e) => e,
            Err(e) => {
                return Err(e);
            },
        };
        match self.consume(TokenType::RightParen) {
            Ok(_) => {},
            Err(e) => {
                return Err(e);
            },
        }
        let body = match self.statement() {
            Ok(s) => s,
            Err(e) => {
                return Err(e);
            },
        };
        let ghost cv = condition@;
        let ghost bv = body@;
        let r = Stmt::While { condition, body: Box::new(body) };
        proof {
            assert forall|n: int| stmt_wf(r@, n) by {
                assert(expr_wf(cv, n));
                assert(stmt_wf(bv, n));
            }
        }
        Ok(r)
    }

    fn return_statement(&mut self) -> (r: Result<Stmt, ParseError>)
        requires
            parser_wf(*old(self)),
        ensures
            parser_step(*old(self), *final(self)),
            r matches Ok(s) ==> forall|n: int| stmt_wf(s@, n),
        decreases old(self).tokens@.len() - old(self).current, 12int,
    {
        let value = if self.check(TokenType::SemiColon) {
            None
        } else {
            match self.expression() {
                Ok(e) => Some(e),
                Err(e) => {
                    return Err(e);
                },
            }
        };
        if self.check(TokenType::SemiColon) {
            let _ = self.advance();
        }
        let ghost vv = match value {
            Some(ref e) => Some(e@),
            None => None,
        };
        let r = Stmt::Return { value };
        proof {
            assert forall|n: int| stmt_wf(r@, n) by {
                match vv {
                    Some(e) => {
                        assert(expr_wf(e, n));
                    },
                    None => {},
                }
            }
        }
        Ok(r)
    }

    /// Parses declarations up to the closing brace of a block and consumes
    /// it.
    fn block_statements(&mut self) -> (r: Result<Vec<Stmt>, ParseError>)
        requires
            parser_wf(*old(self)),
        ensures
            parser_step(*old(self), *final(self)),
            r matches Ok(b) ==> forall|i: int, n: int|
                0 <= i < b@.len() ==> #[trigger] stmt_wf(b@[i]@, n),
        decreases old(self).tokens@.len() - old(self).current, 15int,
    {
        let mut statements: Vec<Stmt> = Vec::new();
        while !self.check(TokenType::RightBrace) && !self.is_at_end()
            invariant
                parser_step(*old(self), *self),
                forall|i: int, n: int| 0 <= i < statements@.len()
                    ==> #[trigger] stmt_wf(statements@[i]@, n),
            decreases self.tokens@.len() - self.current,
        {
            match self.declaration() {
                Ok(s) => {
                    statements.push(s);
                },
                Err(e) => {
                    return Err(e);
                },
            }
        }
        match self.consume(TokenType::RightBrace) {
            Ok(_) => {},
            Err(e) => {
                return Err(e);
            },
        }
        Ok(statements)
    }

    fn expr_statement(&mut self) -> (r: Result<Stmt, ParseError>)
        requires
            parser_wf(*old(self)),
        ensures
            parser_step(*old(self), *final(self)),
            r matches Ok(s) ==> forall|n: int| stmt_wf(s@, n),
            r is Ok ==> final(self).current > old(self).current,
        decreases old(self).tokens@.len() - old(self).current, 12int,
    {
        let expr = match self.expression() {
            Ok(e) => e,
            Err(e) => {
                return Err(e);
            },
        };
        if self.check(TokenType::SemiColon) {
            let _ = self.advance();
        }
        let ghost ev = expr@;
        let r = Stmt::Expression { expr };
        proof {
            assert forall|n: int| stmt_wf(r@, n) by {
                assert(expr_wf(ev, n));
            }
        }
        Ok(r)
    }

    fn expression(&mut self) -> (r: Result<Expr, ParseError>)
        requires
            parser_wf(*old(self)),
        ensures
            parser_step(*old(self), *final(self)),
            r matches Ok(e) ==> forall|n: int| expr_wf(e@, n),
            r is Ok ==> final(self).current > old(self).current,
        decreases old(self).tokens@.len() - old(self).current, 11int,
    {
        self.assigment()
    }

    fn assigment(&mut self) -> (r: Result<Expr, ParseError>)
        requires
            parser_wf(*old(self)),
        ensures
            parser_step(*old(self), *final(self)),
            r matches Ok(e) ==> forall|n: int| expr_wf(e@, n),
            r is Ok ==> final(self).current > old(self).current,
        decreases old(self).tokens@.len() - old(self).current, 10int,
    {
        let expr = match self.or() {
            Ok(e) => e,
            Err(e) => {
                return Err(e);
            },
        };
        if self.match_one(TokenType::Equal) {
            let value = match self.assigment() {
                Ok(v) => v,
                Err(e) => {
                    return Err(e);
                },
            };
            let ghost ev = expr@;
            let ghost vv = value@;
            match expr {
                Expr::Variable { index, name } => {
                    let r = Expr::create_assigment(name, value, None, index);
                    proof {
                        assert forall|n: int| expr_wf(r@, n) by {
                            assert(expr_wf(vv, n));
                        }
                    }
                    return Ok(r);
                },
                Expr::Access { name, position, index } => {
                    let ghost pv = position@;
                    let r = Expr::create_assigment(name, value, Some(position), index);
                    proof {
                        assert forall|n: int| expr_wf(r@, n) by {
                            assert(expr_wf(vv, n));
                            assert(expr_wf(ev, n));
                            assert(ev matches ExprV::Access { position: pb, .. }
                                && *pb == pv);
                            assert(expr_wf(pv, n));
                        }
                    }
                    return Ok(r);
                },
                _ => {
                    return Err(ParseError::InvalidAssignmentTarget { line: self.peek().line });
                },
            }
        }
        Ok(expr)
    }

    fn or(&mut self) -> (r: Result<Expr, ParseError>)
        requires
            parser_wf(*old(self)),
        ensures
            parser_step(*old(self), *final(self)),
            r matches Ok(e) ==> forall|n: int| expr_wf(e@, n),
            r is Ok ==> final(self).current > old(self).current,
        decreases old(self).tokens@.len() - old(self).current, 9int,
    {
        let mut expr = match self.and() {
            Ok(e) => e,
            Err(e) => {
                return Err(e);
            },
        };
        if self.match_one(TokenType::Or) {
            let operator = self.previous();
            let right = match self.and() {
                Ok(e) => e,
                Err(e) => {
                    return Err(e);
                },
            };
            let ghost lv = expr@;
            let ghost rv = right@;
            expr = Expr::new_logical(expr, operator, right);
            proof {
                assert forall|n: int| expr_wf(expr@, n) by {
                    assert(expr_wf(lv, n));
                    assert(expr_wf(rv, n));
                }
            }
        }
        Ok(expr)
    }

    fn and(&mut self) -> (r: Result<Expr, ParseError>)
        requires
            parser_wf(*old(self)),
        ensures
            parser_step(*old(self), *final(self)),
            r matches Ok(e) ==> forall|n: int| expr_wf(e@, n),
            r is Ok ==> final(self).current > old(self).current,
        decreases old(self).tokens@.len() - old(self).current, 8int,
    {
        let mut expr = match self.equality() {
            Ok(e) => e,
            Err(e) => {
                return Err(e);
            },
        };
        if self.match_one(TokenType::And) {
            let operator = self.previous();
            let right = match self.equality() {
                Ok(e) => e,
                Err(e) => {
                    return Err(e);
                },
            };
            let ghost lv = expr@;
            let ghost rv = right@;
            expr = Expr::new_logical(expr, operator, right);
            proof {
                assert forall|n: int| expr_wf(expr@, n) by {
                    assert(expr_wf(lv, n));
                    assert(expr_wf(rv, n));
                }
            }
        }
        Ok(expr)
    }

    fn equality(&mut self) -> (r: Result<Expr, ParseError>)
        requires
            parser_wf(*old(self)),
        ensures
            parser_step(*old(self), *final(self)),
            r matches Ok(e) ==> forall|n: int| expr_wf(e@, n),
            r is Ok ==> final(self).current > old(self).current,
        decreases old(self).tokens@.len() - old(self).current, 7int,
    {
        let mut expr = match self.comparison() {
            Ok(e) => e,
            Err(e) => {
                return Err(e);
            },
        };
        while self.check(TokenType::BangEqual) || self.check(TokenType::EqualEqual)
            invariant
                parser_step(*old(self), *self),
                forall|n: int| expr_wf(expr@, n),
                self.current > old(self).current,
            decreases self.tokens@.len() - self.current,
        {
            let _ = self.advance();
            let operator = self.previous();
            let right = match self.comparison() {
                Ok(e) => e,
                Err(e) => {
                    return Err(e);
                },
            };
            let ghost lv = expr@;
            let ghost rv = right@;
            expr = Expr::new_binary(expr, operator, right);
            proof {
                assert forall|n: int| expr_wf(expr@, n) by {
                    assert(expr_wf(lv, n));
                    assert(expr_wf(rv, n));
                }
            }
        }
        Ok(expr)
    }

    fn comparison(&mut self) -> (r: Result<Expr, ParseError>)
        requires
            parser_wf(*old(self)),
        ensures
            parser_step(*old(self), *final(self)),
            r matches Ok(e) ==> forall|n: int| expr_wf(e@, n),
            r is Ok ==> final(self).current > old(self).current,
        decreases old(self).tokens@.len() - old(self).current, 6int,
    {
        let mut expr = match self.term() {
            Ok(e) => e,
            Err(e) => {
                return Err(e);
            },
        };
        while self.check(TokenType::Greater) || self.check(TokenType::GreaterEqual)
            || self.check(TokenType::Less) || self.check(TokenType::LessEqual)
            invariant
                parser_step(*old(self), *self),
                forall|n: int| expr_wf(expr@, n),
                self.current > old(self).current,
            decreases self.tokens@.len() - self.current,
        {
            let _ = self.advance();
            let operator = self.previous();
            let right = match self.term() {
                Ok(e) => e,
                Err(e) => {
                    return Err(e);
                },
            };
            let ghost lv = expr@;
            let ghost rv = right@;
            expr = Expr::new_binary(expr, operator, right);
            proof {
                assert forall|n: int| expr_wf(expr@, n) by {
                    assert(expr_wf(lv, n));
                    assert(expr_wf(rv, n));
                }
            }
        }
        Ok(expr)
    }

    fn term(&mut self) -> (r: Result<Expr, ParseError>)
        requires
            parser_wf(*old(self)),
        ensures
            parser_step(*old(self), *final(self)),
            r matches Ok(e) ==> forall|n: int| expr_wf(e@, n),
            r is Ok ==> final(self).current > old(self).current,
        decreases old(self).tokens@.len() - old(self).current, 5int,
    {
        let mut expr = match self.factor() {
            Ok(e) => e,
            Err(e) => {
                return Err(e);
            },
        };
        while self.check(TokenType::Minus) || self.check(TokenType::Plus)
            invariant
                parser_step(*old(self), *self),
                forall|n: int| expr_wf(expr@, n),
                self.current > old(self).current,
            decreases self.tokens@.len() - self.current,
        {
            let _ = self.advance();
            let operator = self.previous();
            let right = match self.factor() {
                Ok(e) => e,
                Err(e) => {
                    return Err(e);
                },
            };
            let ghost lv = expr@;
            let ghost rv = right@;
            expr = Expr::new_binary(expr, operator, right);
            proof {
                assert forall|n: int| expr_wf(expr@, n) by {
                    assert(expr_wf(lv, n));
                    assert(expr_wf(rv, n));
                }
            }
        }
        Ok(expr)
    }

    fn factor(&mut self) -> (r: Result<Expr, ParseError>)
        requires
            parser_wf(*old(self)),
        ensures
            parser_step(*old(self), *final(self)),
            r matches Ok(e) ==> forall|n: int| expr_wf(e@, n),
            r is Ok ==> final(self).current > old(self).current,
        decreases old(self).tokens@.len() - old(self).current, 4int,
    {
        let mut expr = match self.unary() {
            Ok(e) => e,
            Err(e) => {
                return Err(e);
            },
        };
        while self.check(TokenType::Slash) || self.check(TokenType::Star)
            || self.check(TokenType::Percent)
            invariant
                parser_step(*old(self), *self),
                forall|n: int| expr_wf(expr@, n),
                self.current > old(self).current,
            decreases self.tokens@.len() - self.current,
        {
            let _ = self.advance();
            let operator = self.previous();
            let right = match self.factor() {
                Ok(e) => e,
                Err(e) => {
                    return Err(e);
                },
            };
            let ghost lv = expr@;
            let ghost rv = right@;
            expr = Expr::new_binary(expr, operator, right);
            proof {
                assert forall|n: int| expr_wf(expr@, n) by {
                    assert(expr_wf(lv, n));
                    assert(expr_wf(rv, n));
                }
            }
        }
        Ok(expr)
    }

    fn unary(&mut self) -> (r: Result<Expr, ParseError>)
        requires
            parser_wf(*old(self)),
        ensures
            parser_step(*old(self), *final(self)),
            r matches Ok(e) ==> forall|n: int| expr_wf(e@, n),
            r is Ok ==> final(self).current > old(self).current,
        decreases old(self).tokens@.len() - old(self).current, 3int,
    {
        if self.check(TokenType::Bang) || self.check(TokenType::Minus) {
            let _ = self.advance();
            let operator = self.previous();
            let right = match self.unary() {
                Ok(e) => e,
                Err(e) => {
                    return Err(e);
                },
            };
            let ghost rv = right@;
            let r = Expr::create_unary(operator, right);
            proof {
                assert forall|n: int| expr_wf(r@, n) by {
                    assert(expr_wf(rv, n));
                }
            }
            return Ok(r);
        }
        self.call()
    }

    fn call(&mut self) -> (r: Result<Expr, ParseError>)
        requires
            parser_wf(*old(self)),
        ensures
            parser_step(*old(self), *final(self)),
            r matches Ok(e) ==> forall|n: int| expr_wf(e@, n),
            r is Ok ==> final(self).current > old(self).current,
        decreases old(self).tokens@.len() - old(self).current, 2int,
    {
        let mut expr = match self.primary() {
            Ok(e) => e,
            Err(e) => {
                return Err(e);
            },
        };
        while self.check(TokenType::LeftParen)
            invariant
                parser_step(*old(self), *self),
                forall|n: int| expr_wf(expr@, n),
                self.current > old(self).current,
            decreases self.tokens@.len() - self.current,
        {
            let _ = self.advance();
            expr = match self.finish_call(expr) {
                Ok(e) => e,
                Err(e) => {
                    return Err(e);
                },
            };
        }
        Ok(expr)
    }

    /// Parses the argument list of a call whose opening parenthesis was just
    /// consumed.
    fn finish_call(&mut self, callee: Expr) -> (r: Result<Expr, ParseError>)
        requires
            parser_wf(*old(self)),
            forall|n: int| expr_wf(callee@, n),
        ensures
            parser_step(*old(self), *final(self)),
            r matches Ok(e) ==> forall|n: int| expr_wf(e@, n),
        decreases old(self).tokens@.len() - old(self).current, 12int,
    {
        let ghost cv0 = callee@;
        let mut arguments: Vec<Expr> = Vec::new();
        if !self.check(TokenType::RightParen) {
            loop
                invariant
                    parser_step(*old(self), *self),
                    forall|i: int, n: int| 0 <= i < arguments@.len()
                        ==> #[trigger] expr_wf(arguments@[i]@, n),
                decreases self.tokens@.len() - self.current,
            {
                if arguments.len() >= 255 {
                    return Err(ParseError::TooManyArguments { line: self.peek().line });
                }
                match self.expression() {
                    Ok(e) => {
                        arguments.push(e);
                    },
                    Err(e) => {
                        return Err(e);
                    },
                }
                if !self.match_one(TokenType::Comma) {
                    break;
                }
            }
        }
        let paren = match self.consume(TokenType::RightParen) {
            Ok(t) => t,
            Err(e) => {
                return Err(e);
            },
        };
        let ghost avs = exprs_view(arguments@);
        proof {
            lemma_exprs_view_len(arguments@);
            assert forall|i: int, n: int| 0 <= i < avs.len()
                implies #[trigger] expr_wf(avs[i], n) by {
                assert(avs[i] == arguments@[i]@);
                assert(expr_wf(arguments@[i]@, n));
            }
        }
        let r = Expr::create_call(callee, paren, arguments);
        proof {
            assert forall|n: int| expr_wf(r@, n) by {
                assert forall|i: int| 0 <= i < avs.len() implies expr_wf(#[trigger] avs[i], n) by {
                    assert(expr_wf(avs[i], n));
                }
                lemma_exprs_wf_pointwise(avs, n);
                assert(exprs_wf(avs, n));
                assert(expr_wf(cv0, n));
            }
        }
        Ok(r)
    }

    fn primary(&mut self) -> (r: Result<Expr, ParseError>)
        requires
            parser_wf(*old(self)),
        ensures
            parser_step(*old(self), *final(self)),
            r matches Ok(e) ==> forall|n: int| expr_wf(e@, n),
            r is Ok ==> final(self).current > old(self).current,
        decreases old(self).tokens@.len() - old(self).current, 0int,
    {
        let token = self.peek().clone();
        match token.token_type {
            TokenType::LeftParen => {
                let _ = self.advance();
                let expr = match self.expression() {
                    Ok(e) => e,
                    Err(e) => {
                        return Err(e);
                    },
                };
                match self.consume(TokenType::RightParen) {
                    Ok(_) => {},
                    Err(e) => {
                        return Err(e);
                    },
                }
                let ghost iv = expr@;
                let r = Expr::new_grouping(expr);
                proof {
                    assert forall|n: int| expr_wf(r@, n) by {
                        assert(expr_wf(iv, n));
                    }
                }
                Ok(r)
            },
            TokenType::LeftBox => {
                let _ = self.advance();
                let mut elements: Vec<Expr> = Vec::new();
                if !self.check(TokenType::RightBox) {
                    loop
                        invariant
                            parser_step(*old(self), *self),
                            self.current > old(self).current,
                            forall|i: int, n: int| 0 <= i < elements@.len()
                                ==> #[trigger] expr_wf(elements@[i]@, n),
                        decreases self.tokens@.len() - self.current,
                    {
                        match self.expression() {
                            Ok(e) => {
                                elements.push(e);
                            },
                            Err(e) => {
                                return Err(e);
                            },
                        }
                        if !self.match_one(TokenType::Comma) {
                            break;
                        }
                    }
                }
                match self.consume(TokenType::RightBox) {
                    Ok(_) => {},
                    Err(e) => {
                        return Err(e);
                    },
                }
                let ghost evs = exprs_view(elements@);
                proof {
                    lemma_exprs_view_len(elements@);
                    assert forall|i: int, n: int| 0 <= i < evs.len()
                        implies #[trigger] expr_wf(evs[i], n) by {
                        assert(evs[i] == elements@[i]@);
                        assert(expr_wf(elements@[i]@, n));
                    }
                }
                let r = Expr::array(elements);
                proof {
                    assert forall|n: int| expr_wf(r@, n) by {
                        assert forall|i: int| 0 <= i < evs.len()
                            implies expr_wf(#[trigger] evs[i], n) by {
                            assert(expr_wf(evs[i], n));
                        }
                        lemma_exprs_wf_pointwise(evs, n);
                        assert(exprs_wf(evs, n));
                    }
                }
                Ok(r)
            },
            TokenType::False | TokenType::True | TokenType::Nil | TokenType::Number
                | TokenType::String => {
                let _ = self.advance();
                let ghost tv = token@;
                match Literal::from_token(token) {
                    Ok(l) => {
                        let ghost lv = l@;
                        let r = Expr::new_literal(l);
                        proof {
                            assert forall|n: int| expr_wf(r@, n) by {
                                crate::expr::lemma_lit_of_token_wf(tv, n);
                                assert(crate::expr::lit_wf(lv, n));
                            }
                        }
                        Ok(r)
                    },
                    Err(e) => Err(e),
                }
            },
            TokenType::Identifier => {
                let _ = self.advance();
                if self.match_one(TokenType::LeftBox) {
                    let position = match self.expression() {
                        Ok(e) => e,
                        Err(e) => {
                            return Err(e);
                        },
                    };
                    match self.consume(TokenType::RightBox) {
                        Ok(_) => {},
                        Err(e) => {
                            return Err(e);
                        },
                    }
                    let idx = self.fresh_index();
                    let ghost pv = position@;
                    let r = Expr::access(token, position, idx);
                    proof {
                        assert forall|n: int| expr_wf(r@, n) by {
                            assert(expr_wf(pv, n));
                        }
                    }
                    Ok(r)
                } else {
                    let name = self.previous();
                    let idx = self.fresh_index();
                    Ok(Expr::create_variable(name, idx))
                }
            },
            _ => Err(ParseError::ExpectedExpression { line: token.line }),
        }
    }

    /// Consumes the next token if it has the given type.
    fn match_one(&mut self, typ: TokenType) -> (r: bool)
        requires
            parser_wf(*old(self)),
        ensures
            parser_step(*old(self), *final(self)),
            final(self).tokens@ == old(self).tokens@,
            final(self).index == old(self).index,
            r ==> final(self).current == old(self).current + 1,
            !r ==> final(self).current == old(self).current,
    {
        if self.check(typ) {
            let _ = self.advance();
            true
        } else {
            false
        }
    }

    /// Skips forward to the next statement boundary after a syntax error.
    fn synchronise(&mut self)
        requires
            parser_wf(*old(self)),
        ensures
            parser_step(*old(self), *final(self)),
            final(self).current > old(self).current
                || final(self).tokens@[final(self).current as int]@.ty is Eof,
    {
        let _ = self.advance();
        while !self.is_at_end()
            invariant
                parser_step(*old(self), *self),
                self.current > old(self).current
                    || self.tokens@[self.current as int]@.ty is Eof,
            decreases self.tokens@.len() - self.current,
        {
            if self.previous_is(TokenType::SemiColon) {
                return;
            }
            let t = self.peek().token_type;
            match t {
                TokenType::Class | TokenType::Fun | TokenType::Var | TokenType::For
                    | TokenType::If | TokenType::While | TokenType::Return => {
                    return;
                },
                _ => {},
            }
            let _ = self.advance();
        }
    }

    /// Whether the previous token has the given type.
    fn previous_is(&self, typ: TokenType) -> (r: bool)
        requires
            parser_wf(*self),
        ensures
            r == (self.current > 0 && self.tokens@[self.current as int - 1]@.ty == typ),
    {
        if self.current == 0 {
            return false;
        }
        self.tokens[self.current - 1].token_type == typ
    }

    /// Consumes the next token, which must have the given type; otherwise a
    /// syntax error naming what was expected.
    fn consume(&mut self, token_type: TokenType) -> (r: Result<Token, ParseError>)
        requires
            parser_wf(*old(self)),
            !(token_type is Eof),
        ensures
            parser_step(*old(self), *final(self)),
            final(self).index == old(self).index,
            r is Ok ==> final(self).current == old(self).current + 1,
            r is Err ==> final(self).current == old(self).current,
        decreases old(self).tokens@.len() - old(self).current,
    {
        if self.peek().token_type == token_type {
            let _ = self.advance();
            let token = self.previous();
            Ok(token)
        } else {
            Err(ParseError::Expected { expected: token_type, line: self.peek().line })
        }
    }

    /// Moves past the next token, stopping at the end of the stream, and
    /// yields the token just passed.
    fn advance(&mut self) -> (r: Token)
        requires
            parser_wf(*old(self)),
        ensures
            parser_step(*old(self), *final(self)),
            final(self).index == old(self).index,
            !(old(self).tokens@[old(self).current as int]@.ty is Eof)
                ==> final(self).current == old(self).current + 1,
            old(self).tokens@[old(self).current as int]@.ty is Eof
                ==> final(self).current == old(self).current,
    {
        if !self.is_at_end() {
            let n = self.tokens.len();
            proof {
                assert(self.current < n);
            }
            self.current = self.current + 1;
        }
        self.previous()
    }

    /// Whether the next token has the given type; the end of the stream
    /// matches nothing.
    fn check(&self, typ: TokenType) -> (r: bool)
        requires
            parser_wf(*self),
        ensures
            r == (self.tokens@[self.current as int]@.ty == typ && !(typ is Eof)),
    {
        if self.is_at_end() {
            proof {
                assert(self.tokens@[self.current as int]@.ty is Eof);
            }
            return false;
        }
        self.peek().token_type == typ
    }

    /// Whether the cursor sits on the end-of-file token.
    fn is_at_end(&self) -> (r: bool)
        requires
            parser_wf(*self),
        ensures
            r == (self.tokens@[self.current as int]@.ty is Eof),
    {
        self.peek().token_type == TokenType::Eof
    }

    /// The next token, not yet consumed.
    fn peek(&self) -> (r: &Token)
        requires
            parser_wf(*self),
        ensures
            r == self.tokens@[self.current as int],
    {
        &self.tokens[self.current]
    }

    /// The most recently consumed token; the first token when nothing has
    /// been consumed yet.
    fn previous(&self) -> (r: Token)
        requires
            parser_wf(*self),
        ensures
            self.current > 0 ==> r@ == self.tokens@[self.current as int - 1]@,
            self.current == 0 ==> r@ == self.tokens@[0]@,
    {
        if self.current == 0 {
            self.tokens[0].clone()
        } else {
            self.tokens[self.current - 1].clone()
        }
    }
}

} // verus!
