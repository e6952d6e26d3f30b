//! Statements: the executable units of a program.
//!
//! A statement produces an effect when executed; an expression produces a
//! value when evaluated.  Blocks introduce a new scope, `var` declares a
//! binding in the current scope, and a function statement builds a closure
//! capturing the scope it was declared in.

use vstd::prelude::*;
use crate::expr::Expr;
use crate::expr::ExprV;
use crate::expr::expr_view;
use crate::expr::exprs_view;
use crate::expr::clone_expr;
use crate::expr::expr_str;
use crate::numbers::nat_digits;
use crate::numbers::u64_digits;
use crate::text::chars_to_string;
use crate::text::push_char;
use crate::token::token_type_name;
use crate::expr::expr_wf;
use crate::expr::lemma_expr_wf_mono;
use crate::token::Token;
use crate::token::TokenV;
use crate::token::tokens_view;
use crate::token::clone_tokens;

verus! {

#[derive(Debug)]
pub enum Stmt {
    Expression { expr: Expr },
    If { condition: Expr, then_branch: Box<Stmt>, else_branch: Option<Box<Stmt>> },
    Return { value: Option<Expr> },
    Var { name: Token, initializer: Option<Expr> },
    While { condition: Expr, body: Box<Stmt> },
    Block { statements: Vec<Stmt> },
    Function { name: Token, params: Vec<Token>, body: Vec<Stmt> },
}

/// The mathematical value of a statement.
pub enum StmtV {
    Expression { expr: ExprV },
    If { condition: ExprV, then_branch: Box<StmtV>, else_branch: Option<Box<StmtV>> },
    Return { value: Option<ExprV> },
    Var { name: TokenV, initializer: Option<ExprV> },
    While { condition: ExprV, body: Box<StmtV> },
    Block { statements: Seq<StmtV> },
    Function { name: TokenV, params: Seq<TokenV>, body: Seq<StmtV> },
}

pub open spec fn stmt_view(s: Stmt) -> StmtV
    decreases s,
{
    match s {
        Stmt::Expression { expr } => StmtV::Expression { expr: expr_view(expr) },
        Stmt::If { condition, then_branch, else_branch } => StmtV::If {
            condition: expr_view(condition),
            then_branch: Box::new(stmt_view(*then_branch)),
            else_branch: match else_branch {
                Some(b) => Some(Box::new(stmt_view(*b))),
                None => None,
            },
        },
        Stmt::Return { value } => StmtV::Return {
            value: match value {
                Some(e) => Some(expr_view(e)),
                None => None,
            },
        },
        Stmt::Var { name, initializer } => StmtV::Var {
            name: name@,
            initializer: match initializer {
                Some(e) => Some(expr_view(e)),
                None => None,
            },
        },
        Stmt::While { condition, body } => StmtV::While {
            condition: expr_view(condition),
            body: Box::new(stmt_view(*body)),
        },
        Stmt::Block { statements } => StmtV::Block { statements: stmts_view(statements@) },
        Stmt::Function { name, params, body } => StmtV::Function {
            name: name@,
            params: tokens_view(params@),
            body: stmts_view(body@),
        },
    }
}

pub open spec fn stmts_view(s: Seq<Stmt>) -> Seq<StmtV>
    decreases s,
{
    if s.len() == 0 {
        Seq::empty()
    } else {
        stmts_view(s.drop_last()).push(stmt_view(s.last()))
    }
}

/// `stmts_view` maps the sequence element by element.
pub proof fn lemma_stmts_view_len(s: Seq<Stmt>)
    ensures
        stmts_view(s).len() == s.len(),
        forall|i: int| 0 <= i < s.len() ==> stmts_view(s)[i] == stmt_view(#[trigger] s[i]),
    decreases s,
{
    if s.len() > 0 {
        lemma_stmts_view_len(s.drop_last());
        assert forall|i: int| 0 <= i < s.len() implies stmts_view(s)[i] == stmt_view(#[trigger] s[i]) by {
            if i < s.len() - 1 {
                assert(s.drop_last()[i] == s[i]);
            }
        }
    }
}

/// A statement is well formed at arena length `n` when every expression in
/// it is.
pub open spec fn stmt_wf(s: StmtV, n: int) -> bool
    decreases s,
{
    match s {
        StmtV::Expression { expr } => expr_wf(expr, n),
        StmtV::If { condition, then_branch, else_branch } => expr_wf(condition, n) && stmt_wf(
            *then_branch,
            n,
        ) && match else_branch {
            Some(b) => stmt_wf(*b, n),
            None => true,
        },
        StmtV::Return { value } => match value {
            Some(e) => expr_wf(e, n),
            None => true,
        },
        StmtV::Var { initializer, .. } => match initializer {
            Some(e) => expr_wf(e, n),
            None => true,
        },
        StmtV::While { condition, body } => expr_wf(condition, n) && stmt_wf(*body, n),
        StmtV::Block { statements } => stmts_wf(statements, n),
        StmtV::Function { body, .. } => stmts_wf(body, n),
    }
}

/// Every statement of the sequence is well formed at `n`.
pub open spec fn stmts_wf(s: Seq<StmtV>, n: int) -> bool
    decreases s,
{
    if s.len() == 0 {
        true
    } else {
        stmt_wf(s.last(), n) && stmts_wf(s.drop_last(), n)
    }
}

/// `stmts_wf` holds exactly when each statement is well formed.
pub proof fn lemma_stmts_wf_pointwise(s: Seq<StmtV>, n: int)
    ensures
        stmts_wf(s, n) <==> (forall|i: int| 0 <= i < s.len() ==> stmt_wf(#[trigger] s[i], n)),
    decreases s,
{
    if s.len() > 0 {
        lemma_stmts_wf_pointwise(s.drop_last(), n);
        if stmts_wf(s, n) {
            assert forall|i: int| 0 <= i < s.len() implies stmt_wf(#[trigger] s[i], n) by {
                if i < s.len() - 1 {
                    assert(s.drop_last()[i] == s[i]);
                }
            }
        }
        if forall|i: int| 0 <= i < s.len() ==> stmt_wf(#[trigger] s[i], n) {
            assert forall|i: int| 0 <= i < s.drop_last().len()
                implies stmt_wf(#[trigger] s.drop_last()[i], n) by {
                assert(s.drop_last()[i] == s[i]);
            }
            assert(stmt_wf(s.last(), n));
        }
    }
}

/// `stmts_wf` is preserved as the arena grows.
pub proof fn lemma_stmts_wf_mono(s: Seq<StmtV>, n: int, m: int)
    requires
        stmts_wf(s, n),
        n <= m,
    ensures
        stmts_wf(s, m),
    decreases s,
{
    if s.len() > 0 {
        lemma_stmt_wf_mono(s.last(), n, m);
        lemma_stmts_wf_mono(s.drop_last(), n, m);
    }
}

/// The statements of a well-formed block are well formed.
pub proof fn lemma_block_stmts_wf(statements: Seq<StmtV>, n: int)
    requires
        stmt_wf(StmtV::Block { statements }, n),
    ensures
        forall|i: int| 0 <= i < statements.len() ==> stmt_wf(#[trigger] statements[i], n),
{
    lemma_stmts_wf_pointwise(statements, n);
}

/// The body of a well-formed function statement is well formed.
pub proof fn lemma_function_body_wf(name: TokenV, params: Seq<TokenV>, body: Seq<StmtV>, n: int)
    requires
        stmt_wf(StmtV::Function { name, params, body }, n),
    ensures
        forall|i: int| 0 <= i < body.len() ==> stmt_wf(#[trigger] body[i], n),
{
    lemma_stmts_wf_pointwise(body, n);
}

/// Well-formedness of a statement is preserved as the arena grows.
pub proof fn lemma_stmt_wf_mono(s: StmtV, n: int, m: int)
    requires
        stmt_wf(s, n),
        n <= m,
    ensures
        stmt_wf(s, m),
    decreases s,
{
    match s {
        StmtV::Expression { expr } => lemma_expr_wf_mono(expr, n, m),
        StmtV::If { condition, then_branch, else_branch } => {
            lemma_expr_wf_mono(condition, n, m);
            lemma_stmt_wf_mono(*then_branch, n, m);
            match else_branch {
                Some(b) => lemma_stmt_wf_mono(*b, n, m),
                None => {},
            }
        },
        StmtV::Return { value } => match value {
            Some(e) => lemma_expr_wf_mono(e, n, m),
            None => {},
        },
        StmtV::Var { initializer, .. } => match initializer {
            Some(e) => lemma_expr_wf_mono(e, n, m),
            None => {},
        },
        StmtV::While { condition, body } => {
            lemma_expr_wf_mono(condition, n, m);
            lemma_stmt_wf_mono(*body, n, m);
        },
        StmtV::Block { statements } => {
            lemma_stmts_wf_mono(statements, n, m);
        },
        StmtV::Function { body, .. } => {
            lemma_stmts_wf_mono(body, n, m);
        },
    }
}

/// The display text of a statement, for diagnostics.
pub open spec fn stmt_str(s: StmtV) -> Seq<char>
    decreases s, 0int,
{
    match s {
        StmtV::Expression { expr } => expr_str(expr),
        StmtV::Var { name, .. } => "Variable: "@ + name.lexeme + " ("@ + token_type_name(name.ty)
            + seq![')'],
        StmtV::While { condition, body } => "while ("@ + expr_str(condition) + ") "@ + stmt_str(
            *body,
        ),
        StmtV::Block { statements } => stmts_join(statements, 0),
        StmtV::If { condition, then_branch, else_branch } => "if "@ + expr_str(condition)
            + " then "@ + stmt_str(*then_branch) + "\n else "@ + match else_branch {
            Some(b) => stmt_str(*b),
            None => Seq::empty(),
        },
        StmtV::Function { name, params, .. } => "<function> "@ + name.lexeme + seq!['(']
            + nat_digits(params.len()) + seq![')'],
        StmtV::Return { value } => "returning "@ + match value {
            Some(e) => expr_str(e),
            None => Seq::empty(),
        },
    }
}

/// The statements of `s` from `i` on, stringified and joined by line breaks.
pub open spec fn stmts_join(s: Seq<StmtV>, i: int) -> Seq<char>
    decreases s, s.len() - i,
{
    if i < 0 || i >= s.len() {
        Seq::empty()
    } else if i == s.len() - 1 {
        stmt_str(s[i])
    } else {
        stmt_str(s[i]) + seq!['\n'] + stmts_join(s, i + 1)
    }
}

impl Stmt {
    /// The display text of this statement.
    pub fn to_string(&self) -> (r: String)
        ensures
            r@ == stmt_str(self@),
        decreases *self, 1int,
    {
        match self {
            Stmt::Expression { expr } => expr.to_string(),
            Stmt::Var { name, .. } => {
                let head: &str = "Variable: ";
                let mut out = head.to_owned();
                out.append(name.lexeme.as_str());
                let open: &str = " (";
                out.append(open);
                out.append(name.token_type.to_string());
                push_char(&mut out, ')');
                proof {
                    assert(out@ =~= stmt_str(self@));
                }
                out
            },
            Stmt::While { condition, body } => {
                let head: &str = "while (";
                let mut out = head.to_owned();
                let c = condition.to_string();
                out.append(c.as_str());
                let mid: &str = ") ";
                out.append(mid);
                let b = body.to_string();
                out.append(b.as_str());
                proof {
                    assert(out@ =~= stmt_str(self@));
                }
                out
            },
            Stmt::Block { statements } => join_stmts(statements),
            Stmt::If { condition, then_branch, else_branch } => {
                let head: &str = "if ";
                let mut out = head.to_owned();
                let c = condition.to_string();
                out.append(c.as_str());
                let mid: &str = " then ";
                out.append(mid);
                let t = then_branch.to_string();
                out.append(t.as_str());
                let tail: &str = "\n else ";
                out.append(tail);
                match else_branch {
                    Some(b) => {
                        let e = b.to_string();
                        out.append(e.as_str());
                    },
                    None => {},
                }
                proof {
                    assert(out@ =~= stmt_str(self@));
                }
                out
            },
            Stmt::Function { name, params, .. } => {
                let head: &str = "<function> ";
                let mut out = head.to_owned();
                out.append(name.lexeme.as_str());
                push_char(&mut out, '(');
                let digits = u64_digits(params.len() as u64);
                let count = chars_to_string(&digits);
                out.append(count.as_str());
                push_char(&mut out, ')');
                proof {
                    assert(out@ =~= stmt_str(self@));
                }
                out
            },
            Stmt::Return { value } => {
                let head: &str = "returning ";
                let mut out = head.to_owned();
                match value {
                    Some(e) => {
                        let v = e.to_string();
                        out.append(v.as_str());
                    },
                    None => {},
                }
                proof {
                    assert(out@ =~= stmt_str(self@));
                }
                out
            },
        }
    }
}

/// The statements of `v` stringified and joined by line breaks.
pub fn join_stmts(v: &Vec<Stmt>) -> (r: String)
    ensures
        r@ == stmts_join(stmts_view(v@), 0),
    decreases *v, 0int,
{
    proof {
        lemma_stmts_view_len(v@);
    }
    let n = v.len();
    if n == 0 {
        return String::new();
    }
    let mut i: usize = n - 1;
    let mut acc = v[i].to_string();
    proof {
        assert(acc@ == stmts_join(stmts_view(v@), i as int));
    }
    while i > 0
        invariant
            0 <= i < v@.len(),
            n == v@.len(),
            stmts_view(v@).len() == v@.len(),
            forall|j: int| 0 <= j < v@.len() ==> stmts_view(v@)[j] == (#[trigger] v@[j])@,
            acc@ == stmts_join(stmts_view(v@), i as int),
        decreases i,
    {
        i = i - 1;
        let mut piece = v[i].to_string();
        push_char(&mut piece, '\n');
        let next = piece.concat(acc.as_str());
        acc = next;
        proof {
            assert(acc@ =~= stmts_join(stmts_view(v@), i as int));
        }
    }
    acc
}

impl View for Stmt {
    type V = StmtV;

    open spec fn view(&self) -> StmtV {
        stmt_view(*self)
    }
}

pub fn clone_stmt(s: &Stmt) -> (r: Stmt)
    ensures
        r@ == s@,
    decreases *s,
{
    match s {
        Stmt::Expression { expr } => Stmt::Expression { expr: clone_expr(expr) },
        Stmt::If { condition, then_branch, else_branch } => Stmt::If {
            condition: clone_expr(condition),
            then_branch: Box::new(clone_stmt(then_branch)),
            else_branch: match else_branch {
                Some(b) => Some(Box::new(clone_stmt(b))),
                None => None,
            },
        },
        Stmt::Return { value } => Stmt::Return {
            value: match value {
                Some(e) => Some(clone_expr(e)),
                None => None,
            },
        },
        Stmt::Var { name, initializer } => Stmt::Var {
            name: name.clone(),
            initializer: match initializer {
                Some(e) => Some(clone_expr(e)),
                None => None,
            },
        },
        Stmt::While { condition, body } => Stmt::While {
            condition: clone_expr(condition),
            body: Box::new(clone_stmt(body)),
        },
        Stmt::Block { statements } => Stmt::Block { statements: clone_stmts(statements) },
        Stmt::Function { name, params, body } => Stmt::Function {
            name: name.clone(),
            params: clone_tokens(params),
            body: clone_stmts(body),
        },
    }
}

pub fn clone_stmts(v: &Vec<Stmt>) -> (r: Vec<Stmt>)
    ensures
        r@.len() == v@.len(),
        stmts_view(r@) == stmts_view(v@),
    decreases *v,
{
    let mut r: Vec<Stmt> = Vec::new();
    let mut i: usize = 0;
    proof {
        lemma_stmts_view_len(v@);
    }
    while i < v.len()
        invariant
            i <= v@.len(),
            r@.len() == i,
            forall|j: int| 0 <= j < i ==> #[trigger] r@[j]@ == v@[j]@,
        decreases v@.len() - i,
    {
        let c = clone_stmt(&v[i]);
        r.push(c);
        i += 1;
    }
    proof {
        lemma_stmts_view_len(r@);
        lemma_stmts_view_len(v@);
        assert forall|k: int| 0 <= k < stmts_view(r@).len()
            implies stmts_view(r@)[k] == stmts_view(v@)[k] by {
            assert(r@[k]@ == v@[k]@);
        }
        assert(stmts_view(r@) =~= stmts_view(v@));
    }
    r
}

impl Clone for Stmt {
    fn clone(&self) -> (r: Self)
        ensures
            r@ == self@,
    {
        clone_stmt(self)
    }
}

} // verus!
