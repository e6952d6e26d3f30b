//! Expressions and runtime values.
//!
//! `Literal` is the language's tagged runtime value: numbers, text,
//! booleans, nil, arrays and callables.  Numbers are machine integers;
//! arithmetic whose exact result does not fit reports an overflow error
//! rather than wrapping.  `Expr` is the expression tree the parser builds;
//! each variable or assignment node carries a distinct resolution index,
//! stamped at parse time, which keys the resolver's depth map.

use vstd::prelude::*;
use vstd::string::StrSliceExecFns;
use vstd::string::StringExecFns;
use crate::callable::Callables;
use crate::callable::call_eq;
use crate::callable::call_str;
use crate::errors::LoxType;
use crate::errors::ParseError;
use crate::errors::RuntimeError;
use crate::errors::RunErrV;
use crate::numbers::int_str;
use crate::numbers::int_to_string;
use crate::numbers::is_int_lexeme;
use crate::numbers::int_of_lexeme;
use crate::numbers::parse_int;
use crate::numbers::trunc_div;
use crate::numbers::trunc_rem;
use crate::text::char_to_string;
use crate::text::push_char;
use crate::text::str_to_chars;
use crate::callable::CallV;
use crate::callable::call_view;
use crate::callable::call_wf;
use crate::callable::clone_callables;
use crate::native::NativeKind;
use crate::token::Token;
use crate::token::TokenV;
use crate::token::TokenType;

verus! {

#[derive(Debug)]
pub enum Literal {
    Number(i64),
    Str(String),
    Boolean(bool),
    Nil,
    Array(Vec<Literal>),
    Callable(Callables),
}

/// The mathematical value of a runtime value.
pub enum LitV {
    Number(int),
    Str(Seq<char>),
    Boolean(bool),
    Nil,
    Array(Seq<LitV>),
    Callable(CallV),
}

pub open spec fn lit_view(l: Literal) -> LitV
    decreases l,
{
    match l {
        Literal::Number(n) => LitV::Number(n as int),
        Literal::Str(s) => LitV::Str(s@),
        Literal::Boolean(b) => LitV::Boolean(b),
        Literal::Nil => LitV::Nil,
        Literal::Array(v) => LitV::Array(lits_view(v@)),
        Literal::Callable(c) => LitV::Callable(call_view(c)),
    }
}

pub open spec fn lits_view(s: Seq<Literal>) -> Seq<LitV>
    decreases s,
{
    if s.len() == 0 {
        Seq::empty()
    } else {
        lits_view(s.drop_last()).push(lit_view(s.last()))
    }
}

/// `lits_view` maps the sequence element by element.
pub proof fn lemma_lits_view_len(s: Seq<Literal>)
    ensures
        lits_view(s).len() == s.len(),
        forall|i: int| 0 <= i < s.len() ==> lits_view(s)[i] == lit_view(#[trigger] s[i]),
    decreases s,
{
    if s.len() > 0 {
        lemma_lits_view_len(s.drop_last());
        assert forall|i: int| 0 <= i < s.len() implies lits_view(s)[i] == lit_view(#[trigger] s[i]) by {
            if i < s.len() - 1 {
                assert(s.drop_last()[i] == s[i]);
            }
        }
    }
}

impl View for Literal {
    type V = LitV;

    open spec fn view(&self) -> LitV {
        lit_view(*self)
    }
}

pub fn clone_literal(l: &Literal) -> (r: Literal)
    ensures
        r@ == l@,
    decreases *l,
{
    match l {
        Literal::Number(n) => Literal::Number(*n),
        Literal::Str(s) => Literal::Str(s.clone()),
        Literal::Boolean(b) => Literal::Boolean(*b),
        Literal::Nil => Literal::Nil,
        Literal::Array(v) => Literal::Array(clone_literals(v)),
        Literal::Callable(c) => Literal::Callable(clone_callables(c)),
    }
}

pub fn clone_literals(v: &Vec<Literal>) -> (r: Vec<Literal>)
    ensures
        r@.len() == v@.len(),
        lits_view(r@) == lits_view(v@),
    decreases *v,
{
    let mut r: Vec<Literal> = Vec::new();
    let mut i: usize = 0;
    while i < v.len()
        invariant
            i <= v@.len(),
            r@.len() == i,
            forall|j: int| 0 <= j < i ==> #[trigger] r@[j]@ == v@[j]@,
        decreases v@.len() - i,
    {
        let c = clone_literal(&v[i]);
        r.push(c);
        i += 1;
    }
    proof {
        lemma_lits_view_len(r@);
        lemma_lits_view_len(v@);
        assert forall|k: int| 0 <= k < lits_view(r@).len()
            implies lits_view(r@)[k] == lits_view(v@)[k] by {
            assert(r@[k]@ == v@[k]@);
        }
        assert(lits_view(r@) =~= lits_view(v@));
    }
    r
}

impl Clone for Literal {
    fn clone(&self) -> (r: Self)
        ensures
            r@ == self@,
    {
        clone_literal(self)
    }
}

#[derive(Debug)]
pub enum Expr {
    Array { elements: Vec<Expr> },
    Access { name: Token, position: Box<Expr>, index: usize },
    Binary { left: Box<Expr>, operator: Token, right: Box<Expr> },
    Grouping { expr: Box<Expr> },
    Call { callee: Box<Expr>, paren: Token, args: Vec<Expr> },
    Literal { literal: Literal },
    Logical { left: Box<Expr>, operator: Token, right: Box<Expr> },
    Unary { operator: Token, right: Box<Expr> },
    Variable { index: usize, name: Token },
    Assignment { name: Token, value: Box<Expr>, position: Option<Box<Expr>>, index: usize },
}

/// The mathematical value of an expression tree.
pub enum ExprV {
    Array { elements: Seq<ExprV> },
    Access { name: TokenV, position: Box<ExprV>, index: nat },
    Binary { left: Box<ExprV>, operator: TokenV, right: Box<ExprV> },
    Grouping { expr: Box<ExprV> },
    Call { callee: Box<ExprV>, paren: TokenV, args: Seq<ExprV> },
    Literal { literal: LitV },
    Logical { left: Box<ExprV>, operator: TokenV, right: Box<ExprV> },
    Unary { operator: TokenV, right: Box<ExprV> },
    Variable { index: nat, name: TokenV },
    Assignment { name: TokenV, value: Box<ExprV>, position: Option<Box<ExprV>>, index: nat },
}

pub open spec fn expr_view(e: Expr) -> ExprV
    decreases e,
{
    match e {
        Expr::Array { elements } => ExprV::Array { elements: exprs_view(elements@) },
        Expr::Access { name, position, index } => ExprV::Access {
            name: name@,
            position: Box::new(expr_view(*position)),
            index: index as nat,
        },
        Expr::Binary { left, operator, right } => ExprV::Binary {
            left: Box::new(expr_view(*left)),
            operator: operator@,
            right: Box::new(expr_view(*right)),
        },
        Expr::Grouping { expr } => ExprV::Grouping { expr: Box::new(expr_view(*expr)) },
        Expr::Call { callee, paren, args } => ExprV::Call {
            callee: Box::new(expr_view(*callee)),
            paren: paren@,
            args: exprs_view(args@),
        },
        Expr::Literal { literal } => ExprV::Literal { literal: lit_view(literal) },
        Expr::Logical { left, operator, right } => ExprV::Logical {
            left: Box::new(expr_view(*left)),
            operator: operator@,
            right: Box::new(expr_view(*right)),
        },
        Expr::Unary { operator, right } => ExprV::Unary {
            operator: operator@,
            right: Box::new(expr_view(*right)),
        },
        Expr::Variable { index, name } => ExprV::Variable { index: index as nat, name: name@ },
        Expr::Assignment { name, value, position, index } => ExprV::Assignment {
            name: name@,
            value: Box::new(expr_view(*value)),
            position: match position {
                Some(p) => Some(Box::new(expr_view(*p))),
                None => None,
            },
            index: index as nat,
        },
    }
}

pub open spec fn exprs_view(s: Seq<Expr>) -> Seq<ExprV>
    decreases s,
{
    if s.len() == 0 {
        Seq::empty()
    } else {
        exprs_view(s.drop_last()).push(expr_view(s.last()))
    }
}

/// `exprs_view` maps the sequence element by element.
pub proof fn lemma_exprs_view_len(s: Seq<Expr>)
    ensures
        exprs_view(s).len() == s.len(),
        forall|i: int| 0 <= i < s.len() ==> exprs_view(s)[i] == expr_view(#[trigger] s[i]),
    decreases s,
{
    if s.len() > 0 {
        lemma_exprs_view_len(s.drop_last());
        assert forall|i: int| 0 <= i < s.len() implies exprs_view(s)[i] == expr_view(#[trigger] s[i]) by {
            if i < s.len() - 1 {
                assert(s.drop_last()[i] == s[i]);
            }
        }
    }
}

impl View for Expr {
    type V = ExprV;

    open spec fn view(&self) -> ExprV {
        expr_view(*self)
    }
}

pub fn clone_expr(e: &Expr) -> (r: Expr)
    ensures
        r@ == e@,
    decreases *e,
{
    match e {
        Expr::Array { elements } => Expr::Array { elements: clone_exprs(elements) },
        Expr::Access { name, position, index } => Expr::Access {
            name: name.clone(),
            position: Box::new(clone_expr(position)),
            index: *index,
        },
        Expr::Binary { left, operator, right } => Expr::Binary {
            left: Box::new(clone_expr(left)),
            operator: operator.clone(),
            right: Box::new(clone_expr(right)),
        },
        Expr::Grouping { expr } => Expr::Grouping { expr: Box::new(clone_expr(expr)) },
        Expr::Call { callee, paren, args } => Expr::Call {
            callee: Box::new(clone_expr(callee)),
            paren: paren.clone(),
            args: clone_exprs(args),
        },
        Expr::Literal { literal } => Expr::Literal { literal: clone_literal(literal) },
        Expr::Logical { left, operator, right } => Expr::Logical {
            left: Box::new(clone_expr(left)),
            operator: operator.clone(),
            right: Box::new(clone_expr(right)),
        },
        Expr::Unary { operator, right } => Expr::Unary {
            operator: operator.clone(),
            right: Box::new(clone_expr(right)),
        },
        Expr::Variable { index, name } => Expr::Variable { index: *index, name: name.clone() },
        Expr::Assignment { name, value, position, index } => Expr::Assignment {
            name: name.clone(),
            value: Box::new(clone_expr(value)),
            position: match position {
                Some(p) => Some(Box::new(clone_expr(p))),
                None => None,
            },
            index: *index,
        },
    }
}

pub fn clone_exprs(v: &Vec<Expr>) -> (r: Vec<Expr>)
    ensures
        r@.len() == v@.len(),
        exprs_view(r@) == exprs_view(v@),
    decreases *v,
{
    let mut r: Vec<Expr> = Vec::new();
    let mut i: usize = 0;
    while i < v.len()
        invariant
            i <= v@.len(),
            r@.len() == i,
            forall|j: int| 0 <= j < i ==> #[trigger] r@[j]@ == v@[j]@,
        decreases v@.len() - i,
    {
        let c = clone_expr(&v[i]);
        r.push(c);
        i += 1;
    }
    proof {
        lemma_exprs_view_len(r@);
        lemma_exprs_view_len(v@);
        assert forall|k: int| 0 <= k < exprs_view(r@).len()
            implies exprs_view(r@)[k] == exprs_view(v@)[k] by {
            assert(r@[k]@ == v@[k]@);
        }
        assert(exprs_view(r@) =~= exprs_view(v@));
    }
    r
}

impl Clone for Expr {
    fn clone(&self) -> (r: Self)
        ensures
            r@ == self@,
    {
        clone_expr(self)
    }
}

/// The display text of an expression, for diagnostics: binary operators
/// prefix, logical operands backquoted, calls by the name of their closing
/// parenthesis token.
pub open spec fn expr_str(e: ExprV) -> Seq<char>
    decreases e, 0int,
{
    match e {
        ExprV::Access { name, position, .. } => name.lexeme + seq!['['] + expr_str(*position)
            + seq![']'],
        ExprV::Array { elements } => seq!['['] + exprs_join(elements, 0) + seq![']'],
        ExprV::Binary { left, operator, right } => operator.lexeme + seq![' '] + expr_str(*left)
            + seq![' '] + expr_str(*right),
        ExprV::Grouping { expr } => seq!['('] + expr_str(*expr) + seq![')'],
        ExprV::Literal { literal } => lit_str(literal),
        ExprV::Unary { operator, right } => operator.lexeme + expr_str(*right),
        ExprV::Variable { name, .. } => name.lexeme,
        ExprV::Assignment { name, value, .. } => name.lexeme + " = "@ + expr_str(*value),
        ExprV::Logical { left, operator, right } => seq!['`'] + expr_str(*left) + seq!['`', ' ']
            + operator.lexeme + seq![' ', '`'] + expr_str(*right) + seq!['`'],
        ExprV::Call { paren, .. } => "function "@ + paren.lexeme + "()"@,
    }
}

/// The expressions of `s` from `i` on, stringified and joined by ", ".
pub open spec fn exprs_join(s: Seq<ExprV>, i: int) -> Seq<char>
    decreases s, s.len() - i,
{
    if i < 0 || i >= s.len() {
        Seq::empty()
    } else if i == s.len() - 1 {
        expr_str(s[i])
    } else {
        expr_str(s[i]) + ", "@ + exprs_join(s, i + 1)
    }
}

/// The dynamic type of a value.
pub open spec fn lit_type(l: LitV) -> LoxType {
    match l {
        LitV::Number(_) => LoxType::Number,
        LitV::Str(_) => LoxType::Text,
        LitV::Boolean(_) => LoxType::Boolean,
        LitV::Nil => LoxType::NilType,
        LitV::Array(_) => LoxType::Array,
        LitV::Callable(c) => match c {
            CallV::LoxFunction { .. } => LoxType::Function,
            CallV::NativeFunction { .. } => LoxType::Native,
        },
    }
}

/// The name of a dynamic type, as shown in error messages.
pub open spec fn type_text(t: LoxType) -> Seq<char> {
    match t {
        LoxType::Number => "Number"@,
        LoxType::Text => "String"@,
        LoxType::Boolean => "Boolean"@,
        LoxType::NilType => "nil"@,
        LoxType::Array => "array"@,
        LoxType::Function => "<function>"@,
        LoxType::Native => "<native function>"@,
    }
}

/// The truthiness rule: a number is falsy exactly when it is zero, text
/// exactly when it is empty, an array exactly when it is empty, a boolean is
/// its own value, nil is always falsy, and a callable is always truthy.
pub open spec fn lit_truthy(l: LitV) -> bool {
    match l {
        LitV::Number(n) => n != 0,
        LitV::Str(s) => s.len() != 0,
        LitV::Boolean(b) => b,
        LitV::Nil => false,
        LitV::Array(a) => a.len() != 0,
        LitV::Callable(_) => true,
    }
}

/// Structural equality of values.  Numbers, text, booleans, nil and arrays
/// compare by contents; callables compare by name and arity alone; values of
/// different dynamic types are simply unequal, never an error.
pub open spec fn lit_eq(a: LitV, b: LitV) -> bool
    decreases a,
{
    match (a, b) {
        (LitV::Number(x), LitV::Number(y)) => x == y,
        (LitV::Str(x), LitV::Str(y)) => x == y,
        (LitV::Boolean(x), LitV::Boolean(y)) => x == y,
        (LitV::Nil, LitV::Nil) => true,
        (LitV::Array(x), LitV::Array(y)) => seq_lit_eq(x, y),
        (LitV::Callable(x), LitV::Callable(y)) => call_eq(x, y),
        _ => false,
    }
}

pub open spec fn seq_lit_eq(x: Seq<LitV>, y: Seq<LitV>) -> bool
    decreases x,
{
    if x.len() != y.len() {
        false
    } else if x.len() == 0 {
        true
    } else {
        lit_eq(x.last(), y.last()) && seq_lit_eq(x.drop_last(), y.drop_last())
    }
}

/// Sequence equality of values holds exactly when they match element by element.
pub proof fn lemma_seq_lit_eq_pointwise(x: Seq<LitV>, y: Seq<LitV>)
    ensures
        seq_lit_eq(x, y) <==> (x.len() == y.len()
            && forall|i: int| 0 <= i < x.len() ==> lit_eq(#[trigger] x[i], y[i])),
    decreases x,
{
    if x.len() == y.len() && x.len() > 0 {
        lemma_seq_lit_eq_pointwise(x.drop_last(), y.drop_last());
        if seq_lit_eq(x, y) {
            assert forall|i: int| 0 <= i < x.len() implies lit_eq(#[trigger] x[i], y[i]) by {
                if i < x.len() - 1 {
                    assert(x.drop_last()[i] == x[i]);
                    assert(y.drop_last()[i] == y[i]);
                }
            }
        }
        if x.len() == y.len()
            && forall|i: int| 0 <= i < x.len() ==> lit_eq(#[trigger] x[i], y[i]) {
            assert forall|i: int| 0 <= i < x.drop_last().len()
                implies lit_eq(#[trigger] x.drop_last()[i], y.drop_last()[i]) by {
                assert(x.drop_last()[i] == x[i]);
                assert(y.drop_last()[i] == y[i]);
            }
            assert(lit_eq(x.last(), y.last()));
        }
    }
}

/// The display text of a value: numbers in decimal, text as itself, `true`,
/// `false` or `nil` for booleans and nil, arrays bracketed with elements
/// joined by a comma and a space, callables by their signature text.
pub open spec fn lit_str(l: LitV) -> Seq<char>
    decreases l, 0int,
{
    match l {
        LitV::Number(n) => int_str(n),
        LitV::Str(s) => s,
        LitV::Boolean(b) => if b {
            "true"@
        } else {
            "false"@
        },
        LitV::Nil => "nil"@,
        LitV::Array(a) => seq!['['] + lits_join(a, 0) + seq![']'],
        LitV::Callable(c) => call_str(c),
    }
}

/// The elements of `s` from `i` on, stringified and joined by ", ".
pub open spec fn lits_join(s: Seq<LitV>, i: int) -> Seq<char>
    decreases s, s.len() - i,
{
    if i < 0 || i >= s.len() {
        Seq::empty()
    } else if i == s.len() - 1 {
        lit_str(s[i])
    } else {
        lit_str(s[i]) + ", "@ + lits_join(s, i + 1)
    }
}

impl Literal {
    /// The name of this value's dynamic type.
    pub fn to_type(&self) -> (r: &'static str)
        ensures
            r@ == type_text(lit_type(self@)),
    {
        match self {
            Literal::Number(_) => "Number",
            Literal::Str(_) => "String",
            Literal::Boolean(_) => "Boolean",
            Literal::Nil => "nil",
            Literal::Array(_) => "array",
            Literal::Callable(Callables::LoxFunction { .. }) => "<function>",
            Literal::Callable(Callables::NativeFunction { .. }) => "<native function>",
        }
    }

    /// Whether this value counts as true in a condition.
    pub fn is_truthy(&self) -> (r: bool)
        ensures
            r == lit_truthy(self@),
    {
        match self {
            Literal::Number(x) => *x != 0,
            Literal::Str(s) => s.as_str().unicode_len() != 0,
            Literal::Boolean(b) => *b,
            Literal::Array(a) => a.len() != 0,
            Literal::Nil => false,
            Literal::Callable(_) => true,
        }
    }

    /// The negation of this value's truthiness, as a boolean value.
    pub fn is_falsy(&self) -> (r: Literal)
        ensures
            r@ == LitV::Boolean(!lit_truthy(self@)),
    {
        Literal::Boolean(!self.is_truthy())
    }

    /// The display text of this value.
    pub fn to_string(&self) -> (r: String)
        ensures
            r@ == lit_str(self@),
        decreases *self, 1int,
    {
        match self {
            Literal::Number(n) => int_to_string(*n),
            Literal::Str(s) => s.clone(),
            Literal::Boolean(b) => {
                if *b {
                    let r: &str = "true";
                    r.to_owned()
                } else {
                    let r: &str = "false";
                    r.to_owned()
                }
            },
            Literal::Nil => {
                let r: &str = "nil";
                r.to_owned()
            },
            Literal::Array(a) => {
                let inner = join_literals(a);
                let mut r = char_to_string('[');
                r.append(inner.as_str());
                let close = char_to_string(']');
                let out = r.concat(close.as_str());
                proof {
                    assert(out@ =~= lit_str(self@));
                }
                out
            },
            Literal::Callable(c) => c.to_string(),
        }
    }

    /// The value a scanned token denotes: its number for a number token, its
    /// lexeme for a string or identifier, the fixed value for `true`,
    /// `false` and `nil`.  A number lexeme that does not denote an integer
    /// in range is a syntax error.
    pub fn from_token(token: Token) -> (r: Result<Literal, ParseError>)
        requires
            valued_token(token@.ty),
        ensures
            match r {
                Ok(l) => lit_of_token(token@) == Some(l@),
                Err(e) => lit_of_token(token@) is None
                    && e == (ParseError::BadNumberLiteral { line: token.line }),
            },
    {
        match token.token_type {
            TokenType::Number => {
                let chars = str_to_chars(token.lexeme.as_str());
                match parse_int(&chars) {
                    Some(v) => Ok(Literal::Number(v)),
                    None => Err(ParseError::BadNumberLiteral { line: token.line }),
                }
            },
            TokenType::String => Ok(Literal::Str(token.lexeme)),
            TokenType::Identifier => Ok(Literal::Str(token.lexeme)),
            TokenType::True => Ok(Literal::Boolean(true)),
            TokenType::False => Ok(Literal::Boolean(false)),
            _ => Ok(Literal::Nil),
        }
    }
}

/// The token types that denote a literal value.
pub open spec fn valued_token(t: TokenType) -> bool {
    t is Number || t is String || t is Identifier || t is True || t is False || t is Nil
}

/// The value a token denotes, or nothing for an out-of-range number lexeme.
pub open spec fn lit_of_token(t: TokenV) -> Option<LitV>
    recommends
        valued_token(t.ty),
{
    match t.ty {
        TokenType::Number => if is_int_lexeme(t.lexeme)
            && i64::MIN <= int_of_lexeme(t.lexeme) <= i64::MAX {
            Some(LitV::Number(int_of_lexeme(t.lexeme)))
        } else {
            None
        },
        TokenType::String => Some(LitV::Str(t.lexeme)),
        TokenType::Identifier => Some(LitV::Str(t.lexeme)),
        TokenType::True => Some(LitV::Boolean(true)),
        TokenType::False => Some(LitV::Boolean(false)),
        _ => Some(LitV::Nil),
    }
}

/// The elements of `v` stringified and joined by ", ".
pub fn join_literals(v: &Vec<Literal>) -> (r: String)
    ensures
        r@ == lits_join(lits_view(v@), 0),
    decreases *v, 0int,
{
    proof {
        lemma_lits_view_len(v@);
    }
    let n = v.len();
    if n == 0 {
        return String::new();
    }
    let mut i: usize = n - 1;
    let mut acc = v[i].to_string();
    proof {
        assert(acc@ == lits_join(lits_view(v@), i as int));
    }
    while i > 0
        invariant
            0 <= i < v@.len(),
            n == v@.len(),
            lits_view(v@).len() == v@.len(),
            forall|j: int| 0 <= j < v@.len() ==> lits_view(v@)[j] == lit_view(#[trigger] v@[j]),
            acc@ == lits_join(lits_view(v@), i as int),
        decreases i,
    {
        i = i - 1;
        let mut piece = v[i].to_string();
        let sep: &str = ", ";
        piece.append(sep);
        let next = piece.concat(acc.as_str());
        acc = next;
        proof {
            assert(acc@ =~= lits_join(lits_view(v@), i as int));
        }
    }
    acc
}

/// The expressions of `v` stringified and joined by ", ".
pub fn join_exprs(v: &Vec<Expr>) -> (r: String)
    ensures
        r@ == exprs_join(exprs_view(v@), 0),
    decreases *v, 0int,
{
    proof {
        lemma_exprs_view_len(v@);
    }
    let n = v.len();
    if n == 0 {
        return String::new();
    }
    let mut i: usize = n - 1;
    let mut acc = v[i].to_string();
    proof {
        assert(acc@ == exprs_join(exprs_view(v@), i as int));
    }
    while i > 0
        invariant
            0 <= i < v@.len(),
            n == v@.len(),
            exprs_view(v@).len() == v@.len(),
            forall|j: int| 0 <= j < v@.len() ==> exprs_view(v@)[j] == (#[trigger] v@[j])@,
            acc@ == exprs_join(exprs_view(v@), i as int),
        decreases i,
    {
        i = i - 1;
        let mut piece = v[i].to_string();
        let sep: &str = ", ";
        piece.append(sep);
        let next = piece.concat(acc.as_str());
        acc = next;
        proof {
            assert(acc@ =~= exprs_join(exprs_view(v@), i as int));
        }
    }
    acc
}

/// Whether two values are equal under the language's equality.
pub fn lit_equal(a: &Literal, b: &Literal) -> (r: bool)
    ensures
        r == lit_eq(a@, b@),
    decreases *a,
{
    match (a, b) {
        (Literal::Number(x), Literal::Number(y)) => *x == *y,
        (Literal::Str(x), Literal::Str(y)) => *x == *y,
        (Literal::Boolean(x), Literal::Boolean(y)) => *x == *y,
        (Literal::Nil, Literal::Nil) => true,
        (Literal::Array(x), Literal::Array(y)) => lits_equal(x, y),
        (Literal::Callable(x), Literal::Callable(y)) => x.same(y),
        _ => {
            proof {
                assert(!lit_eq(a@, b@));
            }
            false
        },
    }
}

/// Whether two arrays are equal element by element.
pub fn lits_equal(x: &Vec<Literal>, y: &Vec<Literal>) -> (r: bool)
    ensures
        r == seq_lit_eq(lits_view(x@), lits_view(y@)),
    decreases *x,
{
    proof {
        lemma_lits_view_len(x@);
        lemma_lits_view_len(y@);
        lemma_seq_lit_eq_pointwise(lits_view(x@), lits_view(y@));
    }
    if x.len() != y.len() {
        return false;
    }
    let mut i: usize = 0;
    while i < x.len()
        invariant
            i <= x@.len(),
            x@.len() == y@.len(),
            lits_view(x@).len() == x@.len(),
            lits_view(y@).len() == y@.len(),
            forall|j: int| 0 <= j < x@.len() ==> lits_view(x@)[j] == lit_view(#[trigger] x@[j]),
            forall|j: int| 0 <= j < y@.len() ==> lits_view(y@)[j] == lit_view(#[trigger] y@[j]),
            seq_lit_eq(lits_view(x@), lits_view(y@)) <==> (forall|j: int|
                0 <= j < x@.len() ==> lit_eq(lits_view(x@)[j], #[trigger] lits_view(y@)[j])),
            forall|j: int| 0 <= j < i ==> lit_eq(lits_view(x@)[j], #[trigger] lits_view(y@)[j]),
        decreases x@.len() - i,
    {
        if !lit_equal(&x[i], &y[i]) {
            return false;
        }
        i += 1;
    }
    true
}

/// A value is well formed at arena length `n` when every closure it holds
/// (directly or inside arrays) captures a frame index below `n`, declares an
/// arity matching its parameter list, has a well-formed body, and every
/// native declares its fixed arity.
pub open spec fn lit_wf(l: LitV, n: int) -> bool
    decreases l,
{
    match l {
        LitV::Array(a) => lits_wf(a, n),
        LitV::Callable(c) => call_wf(c, n),
        _ => true,
    }
}

/// Every value of the sequence is well formed at `n`.
pub open spec fn lits_wf(s: Seq<LitV>, n: int) -> bool
    decreases s,
{
    if s.len() == 0 {
        true
    } else {
        lit_wf(s.last(), n) && lits_wf(s.drop_last(), n)
    }
}

/// `lits_wf` holds exactly when each value is well formed.
pub proof fn lemma_lits_wf_pointwise(s: Seq<LitV>, n: int)
    ensures
        lits_wf(s, n) <==> (forall|i: int| 0 <= i < s.len() ==> lit_wf(#[trigger] s[i], n)),
    decreases s,
{
    if s.len() > 0 {
        lemma_lits_wf_pointwise(s.drop_last(), n);
        if lits_wf(s, n) {
            assert forall|i: int| 0 <= i < s.len() implies lit_wf(#[trigger] s[i], n) by {
                if i < s.len() - 1 {
                    assert(s.drop_last()[i] == s[i]);
                }
            }
        }
        if forall|i: int| 0 <= i < s.len() ==> lit_wf(#[trigger] s[i], n) {
            assert forall|i: int| 0 <= i < s.drop_last().len()
                implies lit_wf(#[trigger] s.drop_last()[i], n) by {
                assert(s.drop_last()[i] == s[i]);
            }
            assert(lit_wf(s.last(), n));
        }
    }
}

/// An expression is well formed at arena length `n` when every literal in it
/// is, and every unary operator is one the evaluator defines.
pub open spec fn expr_wf(e: ExprV, n: int) -> bool
    decreases e,
{
    match e {
        ExprV::Array { elements } => exprs_wf(elements, n),
        ExprV::Access { position, .. } => expr_wf(*position, n),
        ExprV::Binary { left, right, .. } => expr_wf(*left, n) && expr_wf(*right, n),
        ExprV::Grouping { expr } => expr_wf(*expr, n),
        ExprV::Call { callee, args, .. } => expr_wf(*callee, n) && exprs_wf(args, n),
        ExprV::Literal { literal } => lit_wf(literal, n),
        ExprV::Logical { left, right, .. } => expr_wf(*left, n) && expr_wf(*right, n),
        ExprV::Unary { operator, right } => (operator.ty is Minus || operator.ty is Bang)
            && expr_wf(*right, n),
        ExprV::Variable { .. } => true,
        ExprV::Assignment { value, position, .. } => expr_wf(*value, n) && match position {
            Some(p) => expr_wf(*p, n),
            None => true,
        },
    }
}

/// Every expression of the sequence is well formed at `n`.
pub open spec fn exprs_wf(s: Seq<ExprV>, n: int) -> bool
    decreases s,
{
    if s.len() == 0 {
        true
    } else {
        expr_wf(s.last(), n) && exprs_wf(s.drop_last(), n)
    }
}

/// `exprs_wf` holds exactly when each expression is well formed.
pub proof fn lemma_exprs_wf_pointwise(s: Seq<ExprV>, n: int)
    ensures
        exprs_wf(s, n) <==> (forall|i: int| 0 <= i < s.len() ==> expr_wf(#[trigger] s[i], n)),
    decreases s,
{
    if s.len() > 0 {
        lemma_exprs_wf_pointwise(s.drop_last(), n);
        if exprs_wf(s, n) {
            assert forall|i: int| 0 <= i < s.len() implies expr_wf(#[trigger] s[i], n) by {
                if i < s.len() - 1 {
                    assert(s.drop_last()[i] == s[i]);
                }
            }
        }
        if forall|i: int| 0 <= i < s.len() ==> expr_wf(#[trigger] s[i], n) {
            assert forall|i: int| 0 <= i < s.drop_last().len()
                implies expr_wf(#[trigger] s.drop_last()[i], n) by {
                assert(s.drop_last()[i] == s[i]);
            }
            assert(expr_wf(s.last(), n));
        }
    }
}

/// `lits_wf` is preserved as the arena grows.
pub proof fn lemma_lits_wf_mono(s: Seq<LitV>, n: int, m: int)
    requires
        lits_wf(s, n),
        n <= m,
    ensures
        lits_wf(s, m),
    decreases s,
{
    if s.len() > 0 {
        lemma_lit_wf_mono(s.last(), n, m);
        lemma_lits_wf_mono(s.drop_last(), n, m);
    }
}

/// The value a token denotes is always plain: never an array or a closure.
pub proof fn lemma_lit_of_token_wf(t: TokenV, n: int)
    ensures
        lit_of_token(t) matches Some(l) ==> lit_wf(l, n),
{
}

/// The elements of a well-formed array expression are well formed.
pub proof fn lemma_array_elements_wf(elements: Seq<ExprV>, n: int)
    requires
        expr_wf(ExprV::Array { elements }, n),
    ensures
        forall|i: int| 0 <= i < elements.len() ==> expr_wf(#[trigger] elements[i], n),
{
    lemma_exprs_wf_pointwise(elements, n);
}

/// The parts of a well-formed call expression are well formed.
pub proof fn lemma_call_parts_wf(callee: Box<ExprV>, paren: TokenV, args: Seq<ExprV>, n: int)
    requires
        expr_wf(ExprV::Call { callee, paren, args }, n),
    ensures
        expr_wf(*callee, n),
        forall|i: int| 0 <= i < args.len() ==> expr_wf(#[trigger] args[i], n),
{
    lemma_exprs_wf_pointwise(args, n);
}

/// `exprs_wf` is preserved as the arena grows.
pub proof fn lemma_exprs_wf_mono(s: Seq<ExprV>, n: int, m: int)
    requires
        exprs_wf(s, n),
        n <= m,
    ensures
        exprs_wf(s, m),
    decreases s,
{
    if s.len() > 0 {
        lemma_expr_wf_mono(s.last(), n, m);
        lemma_exprs_wf_mono(s.drop_last(), n, m);
    }
}

/// Well-formedness is preserved as the arena grows.
pub proof fn lemma_lit_wf_mono(l: LitV, n: int, m: int)
    requires
        lit_wf(l, n),
        n <= m,
    ensures
        lit_wf(l, m),
    decreases l,
{
    match l {
        LitV::Array(a) => {
            lemma_lits_wf_mono(a, n, m);
        },
        LitV::Callable(c) => {
            crate::callable::lemma_call_wf_mono(c, n, m);
        },
        _ => {},
    }
}

/// Well-formedness of an expression is preserved as the arena grows.
pub proof fn lemma_expr_wf_mono(e: ExprV, n: int, m: int)
    requires
        expr_wf(e, n),
        n <= m,
    ensures
        expr_wf(e, m),
    decreases e,
{
    match e {
        ExprV::Array { elements } => {
            lemma_exprs_wf_mono(elements, n, m);
        },
        ExprV::Access { position, .. } => lemma_expr_wf_mono(*position, n, m),
        ExprV::Binary { left, right, .. } => {
            lemma_expr_wf_mono(*left, n, m);
            lemma_expr_wf_mono(*right, n, m);
        },
        ExprV::Grouping { expr } => lemma_expr_wf_mono(*expr, n, m),
        ExprV::Call { callee, args, .. } => {
            lemma_expr_wf_mono(*callee, n, m);
            lemma_exprs_wf_mono(args, n, m);
        },
        ExprV::Literal { literal } => lemma_lit_wf_mono(literal, n, m),
        ExprV::Logical { left, right, .. } => {
            lemma_expr_wf_mono(*left, n, m);
            lemma_expr_wf_mono(*right, n, m);
        },
        ExprV::Unary { right, .. } => lemma_expr_wf_mono(*right, n, m),
        ExprV::Variable { .. } => {},
        ExprV::Assignment { value, position, .. } => {
            lemma_expr_wf_mono(*value, n, m);
            match position {
                Some(p) => lemma_expr_wf_mono(*p, n, m),
                None => {},
            }
        },
    }
}

/// A result of evaluation, by mathematical value.
pub open spec fn lit_res_view(r: Result<Literal, RuntimeError>) -> Result<LitV, RunErrV> {
    match r {
        Ok(v) => Ok(v@),
        Err(e) => Err(e@),
    }
}

/// A number if `v` fits the number type, else an overflow error.
pub open spec fn num_or_overflow(v: int, op: TokenType) -> Result<LitV, RunErrV> {
    if i64::MIN <= v <= i64::MAX {
        Ok(LitV::Number(v))
    } else {
        Err(RunErrV::Overflow { op })
    }
}

/// What a unary operator yields on a value: `-` negates a number and rejects
/// everything else; `!` is the negation of the operand's truthiness.
pub open spec fn unary_result(op: TokenType, v: LitV) -> Result<LitV, RunErrV>
    recommends
        op is Minus || op is Bang,
{
    match op {
        TokenType::Minus => match v {
            LitV::Number(n) => num_or_overflow(-n, op),
            _ => Err(RunErrV::NegationType { operand: lit_type(v) }),
        },
        TokenType::Bang => Ok(LitV::Boolean(!lit_truthy(v))),
        _ => Err(RunErrV::Internal),
    }
}

/// What a binary operator yields on two values.  Arithmetic and comparison
/// need two numbers; `+` also concatenates text with text, and — as surface
/// sugar, not a general coercion — text with a number on either side,
/// stringifying the number; `==` and `!=` never fail, whatever the operand
/// types; every other pairing is a type-mismatch error naming the operator
/// and both operand types.
pub open spec fn binary_result(op: TokenType, a: LitV, b: LitV) -> Result<LitV, RunErrV> {
    match (a, op, b) {
        (LitV::Number(x), TokenType::Plus, LitV::Number(y)) => num_or_overflow(x + y, op),
        (LitV::Number(x), TokenType::Minus, LitV::Number(y)) => num_or_overflow(x - y, op),
        (LitV::Number(x), TokenType::Star, LitV::Number(y)) => num_or_overflow(x * y, op),
        (LitV::Number(x), TokenType::Slash, LitV::Number(y)) => if y == 0 {
            Err(RunErrV::DivisionByZero { op })
        } else {
            num_or_overflow(trunc_div(x, y), op)
        },
        (LitV::Number(x), TokenType::Percent, LitV::Number(y)) => if y == 0 {
            Err(RunErrV::DivisionByZero { op })
        } else {
            num_or_overflow(trunc_rem(x, y), op)
        },
        (LitV::Str(s1), TokenType::Plus, LitV::Str(s2)) => Ok(LitV::Str(s1 + s2)),
        (LitV::Number(x), TokenType::Greater, LitV::Number(y)) => Ok(LitV::Boolean(x > y)),
        (LitV::Number(x), TokenType::GreaterEqual, LitV::Number(y)) => Ok(LitV::Boolean(x >= y)),
        (LitV::Number(x), TokenType::Less, LitV::Number(y)) => Ok(LitV::Boolean(x < y)),
        (LitV::Number(x), TokenType::LessEqual, LitV::Number(y)) => Ok(LitV::Boolean(x <= y)),
        (x, TokenType::EqualEqual, y) => Ok(LitV::Boolean(lit_eq(x, y))),
        (x, TokenType::BangEqual, y) => Ok(LitV::Boolean(!lit_eq(x, y))),
        (LitV::Str(s), TokenType::Plus, LitV::Number(y)) => Ok(LitV::Str(s + int_str(y))),
        (LitV::Number(x), TokenType::Plus, LitV::Str(s)) => Ok(LitV::Str(int_str(x) + s)),
        _ => Err(RunErrV::BinaryType { op, left: lit_type(a), right: lit_type(b) }),
    }
}

/// Equality never errors across mismatched types: `==` and `!=` yield a
/// boolean for every pair of values.
pub proof fn lemma_equality_total(a: LitV, b: LitV)
    ensures
        binary_result(TokenType::EqualEqual, a, b) == Ok::<LitV, RunErrV>(
            LitV::Boolean(lit_eq(a, b)),
        ),
        binary_result(TokenType::BangEqual, a, b) == Ok::<LitV, RunErrV>(
            LitV::Boolean(!lit_eq(a, b)),
        ),
{
}

/// Applies a unary operator to an evaluated operand.
pub fn apply_unary(op: TokenType, v: &Literal) -> (r: Result<Literal, RuntimeError>)
    requires
        op is Minus || op is Bang,
    ensures
        lit_res_view(r) == unary_result(op, v@),
{
    match op {
        TokenType::Minus => match v {
            Literal::Number(n) => {
                if *n == i64::MIN {
                    Err(RuntimeError::Overflow { op })
                } else {
                    Ok(Literal::Number(-(*n)))
                }
            },
            _ => Err(RuntimeError::NegationType { operand: lit_type_of(v) }),
        },
        _ => Ok(v.is_falsy()),
    }
}

/// The dynamic type of a value, as a tag.
pub fn lit_type_of(v: &Literal) -> (r: LoxType)
    ensures
        r == lit_type(v@),
{
    match v {
        Literal::Number(_) => LoxType::Number,
        Literal::Str(_) => LoxType::Text,
        Literal::Boolean(_) => LoxType::Boolean,
        Literal::Nil => LoxType::NilType,
        Literal::Array(_) => LoxType::Array,
        Literal::Callable(Callables::LoxFunction { .. }) => LoxType::Function,
        Literal::Callable(Callables::NativeFunction { .. }) => LoxType::Native,
    }
}

/// Applies a binary operator to two evaluated operands.
pub fn apply_binary(op: TokenType, a: &Literal, b: &Literal) -> (r: Result<Literal, RuntimeError>)
    ensures
        lit_res_view(r) == binary_result(op, a@, b@),
{
    match (a, op, b) {
        (Literal::Number(x), TokenType::Plus, Literal::Number(y)) => {
            match x.checked_add(*y) {
                Some(v) => Ok(Literal::Number(v)),
                None => Err(RuntimeError::Overflow { op }),
            }
        },
        (Literal::Number(x), TokenType::Minus, Literal::Number(y)) => {
            match x.checked_sub(*y) {
                Some(v) => Ok(Literal::Number(v)),
                None => Err(RuntimeError::Overflow { op }),
            }
        },
        (Literal::Number(x), TokenType::Star, Literal::Number(y)) => {
            match x.checked_mul(*y) {
                Some(v) => Ok(Literal::Number(v)),
                None => Err(RuntimeError::Overflow { op }),
            }
        },
        (Literal::Number(x), TokenType::Slash, Literal::Number(y)) => {
            if *y == 0 {
                Err(RuntimeError::DivisionByZero { op })
            } else {
                match x.checked_div(*y) {
                    Some(q) => Ok(Literal::Number(q)),
                    None => Err(RuntimeError::Overflow { op }),
                }
            }
        },
        (Literal::Number(x), TokenType::Percent, Literal::Number(y)) => {
            if *y == 0 {
                Err(RuntimeError::DivisionByZero { op })
            } else {
                match x.checked_rem(*y) {
                    Some(m) => Ok(Literal::Number(m)),
                    None => Ok(Literal::Number(0)),
                }
            }
        },
        (Literal::Str(s1), TokenType::Plus, Literal::Str(s2)) => {
            let joined = s1.clone().concat(s2.as_str());
            Ok(Literal::Str(joined))
        },
        (Literal::Number(x), TokenType::Greater, Literal::Number(y)) =>
            Ok(Literal::Boolean(*x > *y)),
        (Literal::Number(x), TokenType::GreaterEqual, Literal::Number(y)) =>
            Ok(Literal::Boolean(*x >= *y)),
        (Literal::Number(x), TokenType::Less, Literal::Number(y)) =>
            Ok(Literal::Boolean(*x < *y)),
        (Literal::Number(x), TokenType::LessEqual, Literal::Number(y)) =>
            Ok(Literal::Boolean(*x <= *y)),
        (x, TokenType::EqualEqual, y) => Ok(Literal::Boolean(lit_equal(x, y))),
        (x, TokenType::BangEqual, y) => Ok(Literal::Boolean(!lit_equal(x, y))),
        (Literal::Str(s), TokenType::Plus, Literal::Number(y)) => {
            let text = int_to_string(*y);
            let joined = s.clone().concat(text.as_str());
            Ok(Literal::Str(joined))
        },
        (Literal::Number(x), TokenType::Plus, Literal::Str(s)) => {
            let joined = int_to_string(*x).concat(s.as_str());
            Ok(Literal::Str(joined))
        },
        _ => Err(RuntimeError::BinaryType {
            op,
            left: lit_type_of(a),
            right: lit_type_of(b),
        }),
    }
}

/// What an indexed read yields: the index must be a nonnegative number
/// within the contents; arrays yield the element, text yields a one-character
/// string; any other base type cannot be indexed.
pub open spec fn index_read_result(target: LitV, pos: LitV) -> Result<LitV, RunErrV> {
    match pos {
        LitV::Number(p) => if p < 0 {
            Err(RunErrV::IndexNegative)
        } else {
            match target {
                LitV::Array(arr) => if p < arr.len() {
                    Ok(arr[p])
                } else {
                    Err(RunErrV::ReadOutOfBounds { position: p, len: arr.len() })
                },
                LitV::Str(s) => if p < s.len() {
                    Ok(LitV::Str(seq![s[p]]))
                } else {
                    Err(RunErrV::ReadOutOfBounds { position: p, len: s.len() })
                },
                _ => Err(RunErrV::CannotIndex { target: lit_type(target) }),
            }
        },
        _ => Err(RunErrV::IndexNotNumber { found: lit_type(pos) }),
    }
}

/// Reads `target[pos]` from an evaluated container and index.
pub fn index_read(target: &Literal, pos: &Literal) -> (r: Result<Literal, RuntimeError>)
    ensures
        lit_res_view(r) == index_read_result(target@, pos@),
{
    match pos {
        Literal::Number(pr) => {
            let p: i64 = *pr;
            if p < 0 {
                return Err(RuntimeError::IndexNegative);
            }
            match target {
                Literal::Array(arr) => {
                    proof {
                        lemma_lits_view_len(arr@);
                    }
                    if (p as u64) < (arr.len() as u64) {
                        Ok(clone_literal(&arr[p as usize]))
                    } else {
                        Err(RuntimeError::ReadOutOfBounds { position: p, len: arr.len() })
                    }
                },
                Literal::Str(s) => {
                    let n = s.as_str().unicode_len();
                    if (p as u64) < (n as u64) {
                        let c = s.as_str().get_char(p as usize);
                        Ok(Literal::Str(char_to_string(c)))
                    } else {
                        Err(RuntimeError::ReadOutOfBounds { position: p, len: n })
                    }
                },
                _ => Err(RuntimeError::CannotIndex { target: lit_type_of(target) }),
            }
        },
        _ => Err(RuntimeError::IndexNotNumber { found: lit_type_of(pos) }),
    }
}

/// What an indexed write yields: the new contents of the target.  Writing
/// one slot past the end appends; writing further out fails.  Writing into
/// text appends the stringified value at the end, or replaces exactly one
/// character in place; a longer mid-text write fails.
pub open spec fn index_assign_result(target: LitV, pos: LitV, value: LitV) -> Result<
    LitV,
    RunErrV,
> {
    match pos {
        LitV::Number(p) => if p < 0 {
            Err(RunErrV::IndexNegative)
        } else {
            match target {
                LitV::Array(arr) => if p > arr.len() {
                    Err(RunErrV::AssignOutOfBounds { position: p, len: arr.len() })
                } else if p == arr.len() {
                    Ok(LitV::Array(arr.push(value)))
                } else {
                    Ok(LitV::Array(arr.update(p, value)))
                },
                LitV::Str(s) => {
                    let vs = lit_str(value);
                    if p > s.len() {
                        Err(RunErrV::AssignOutOfBounds { position: p, len: s.len() })
                    } else if p == s.len() {
                        Ok(LitV::Str(s + vs))
                    } else if vs.len() > 1 {
                        Err(RunErrV::StringAssignTooLong)
                    } else {
                        Ok(LitV::Str(s.take(p) + vs + s.skip(p + 1)))
                    }
                },
                _ => Err(RunErrV::CannotIndex { target: lit_type(target) }),
            }
        },
        _ => Err(RunErrV::IndexNotNumber { found: lit_type(pos) }),
    }
}

/// Writing one slot past the end of an array appends: for every array and
/// every value, an indexed write at exactly the array's length succeeds and
/// yields the array with the value appended; a write any further out fails
/// with an out-of-bounds error.
pub proof fn lemma_array_append_law(arr: Seq<LitV>, p: int, v: LitV)
    requires
        p >= arr.len(),
    ensures
        p == arr.len() ==> index_assign_result(LitV::Array(arr), LitV::Number(p), v)
            == Ok::<LitV, RunErrV>(LitV::Array(arr.push(v))),
        p > arr.len() ==> index_assign_result(LitV::Array(arr), LitV::Number(p), v)
            == Err::<LitV, RunErrV>(RunErrV::AssignOutOfBounds { position: p, len: arr.len() }),
{
}

/// A write within bounds replaces exactly the addressed element and no
/// other.
pub proof fn lemma_array_update_law(arr: Seq<LitV>, p: int, v: LitV)
    requires
        0 <= p < arr.len(),
    ensures
        index_assign_result(LitV::Array(arr), LitV::Number(p), v) == Ok::<LitV, RunErrV>(
            LitV::Array(arr.update(p, v)),
        ),
        arr.update(p, v)[p] == v,
        forall|i: int| 0 <= i < arr.len() && i != p ==> arr.update(p, v)[i] == arr[i],
{
}

/// Reading a text's character within bounds yields the one-character string
/// of exactly that character; reading outside the contents fails with an
/// out-of-bounds error, for every text and every index.
pub proof fn lemma_string_read_law(s: Seq<char>, p: int)
    requires
        p >= 0,
    ensures
        p < s.len() ==> index_read_result(LitV::Str(s), LitV::Number(p)) == Ok::<LitV, RunErrV>(
            LitV::Str(seq![s[p]]),
        ),
        p >= s.len() ==> index_read_result(LitV::Str(s), LitV::Number(p)) == Err::<
            LitV,
            RunErrV,
        >(RunErrV::ReadOutOfBounds { position: p, len: s.len() }),
{
}

/// Replacing one character in the middle of a text changes exactly that
/// character: the result keeps the length and every other position.
pub proof fn lemma_string_replace_law(s: Seq<char>, p: int, c: char)
    requires
        0 <= p < s.len(),
    ensures
        index_assign_result(LitV::Str(s), LitV::Number(p), LitV::Str(seq![c]))
            == Ok::<LitV, RunErrV>(LitV::Str(s.take(p) + seq![c] + s.skip(p + 1))),
        (s.take(p) + seq![c] + s.skip(p + 1)).len() == s.len(),
        (s.take(p) + seq![c] + s.skip(p + 1))[p] == c,
        forall|i: int| 0 <= i < s.len() && i != p
            ==> (s.take(p) + seq![c] + s.skip(p + 1))[i] == s[i],
{
    assert(lit_str(LitV::Str(seq![c])) == seq![c]);
    assert(seq![c].len() == 1);
}

/// Writes `value` into `target[pos]` and yields the updated contents.
pub fn index_assign(target: Literal, pos: &Literal, value: Literal) -> (r: Result<
    Literal,
    RuntimeError,
>)
    ensures
        lit_res_view(r) == index_assign_result(target@, pos@, value@),
{
    let ghost told = target@;
    let ghost vold = value@;
    match pos {
        Literal::Number(pr) => {
            let p: i64 = *pr;
            if p < 0 {
                return Err(RuntimeError::IndexNegative);
            }
            match target {
                Literal::Array(mut arr) => {
                    let ghost pre = lits_view(arr@);
                    proof {
                        lemma_lits_view_len(arr@);
                    }
                    if (p as u64) > (arr.len() as u64) {
                        let n = arr.len();
                        Err(RuntimeError::AssignOutOfBounds { position: p, len: n })
                    } else if (p as u64) == (arr.len() as u64) {
                        arr.push(value);
                        proof {
                            lemma_lits_view_len(arr@);
                            assert forall|k: int| 0 <= k < arr@.len()
                                implies lits_view(arr@)[k] == pre.push(vold)[k] by {
                                assert(lits_view(arr@)[k] == lit_view(arr@[k]));
                            }
                            assert(lits_view(arr@) =~= pre.push(vold));
                        }
                        Ok(Literal::Array(arr))
                    } else {
                        arr[p as usize] = value;
                        proof {
                            lemma_lits_view_len(arr@);
                            assert forall|k: int| 0 <= k < arr@.len()
                                implies lits_view(arr@)[k] == pre.update(p as int, vold)[k] by {
                                assert(lits_view(arr@)[k] == lit_view(arr@[k]));
                            }
                            assert(lits_view(arr@) =~= pre.update(p as int, vold));
                        }
                        Ok(Literal::Array(arr))
                    }
                },
                Literal::Str(s) => {
                    let n = s.as_str().unicode_len();
                    let vs = value.to_string();
                    if (p as u64) > (n as u64) {
                        Err(RuntimeError::AssignOutOfBounds { position: p, len: n })
                    } else if (p as u64) == (n as u64) {
                        let joined = s.concat(vs.as_str());
                        Ok(Literal::Str(joined))
                    } else {
                        let vn = vs.as_str().unicode_len();
                        if vn > 1 {
                            Err(RuntimeError::StringAssignTooLong)
                        } else {
                            let head = s.as_str().substring_char(0, p as usize).to_owned();
                            let tail = s.as_str().substring_char(p as usize + 1, n);
                            let mid = head.concat(vs.as_str());
                            let out = mid.concat(tail);
                            proof {
                                assert(out@ =~= told->Str_0.take(p as int) + lit_str(vold)
                                    + told->Str_0.skip(p as int + 1));
                            }
                            Ok(Literal::Str(out))
                        }
                    }
                },
                other => Err(RuntimeError::CannotIndex { target: lit_type_of(&other) }),
            }
        },
        _ => Err(RuntimeError::IndexNotNumber { found: lit_type_of(pos) }),
    }
}

impl Expr {
    /// The display text of this expression.
    pub fn to_string(&self) -> (r: String)
        ensures
            r@ == expr_str(self@),
        decreases *self, 1int,
    {
        match self {
            Expr::Access { name, position, .. } => {
                let mut out = name.lexeme.clone();
                push_char(&mut out, '[');
                let inner = position.to_string();
                out.append(inner.as_str());
                push_char(&mut out, ']');
                proof {
                    assert(out@ =~= expr_str(self@));
                }
                out
            },
            Expr::Array { elements } => {
                let inner = join_exprs(elements);
                let mut out = char_to_string('[');
                out.append(inner.as_str());
                push_char(&mut out, ']');
                proof {
                    assert(out@ =~= expr_str(self@));
                }
                out
            },
            Expr::Binary { left, operator, right } => {
                let mut out = operator.lexeme.clone();
                push_char(&mut out, ' ');
                let l = left.to_string();
                out.append(l.as_str());
                push_char(&mut out, ' ');
                let rr = right.to_string();
                out.append(rr.as_str());
                proof {
                    assert(out@ =~= expr_str(self@));
                }
                out
            },
            Expr::Grouping { expr } => {
                let mut out = char_to_string('(');
                let inner = expr.to_string();
                out.append(inner.as_str());
                push_char(&mut out, ')');
                proof {
                    assert(out@ =~= expr_str(self@));
                }
                out
            },
            Expr::Literal { literal } => literal.to_string(),
            Expr::Unary { operator, right } => {
                let mut out = operator.lexeme.clone();
                let inner = right.to_string();
                out.append(inner.as_str());
                out
            },
            Expr::Variable { name, .. } => name.lexeme.clone(),
            Expr::Assignment { name, value, .. } => {
                let mut out = name.lexeme.clone();
                let eq: &str = " = ";
                out.append(eq);
                let inner = value.to_string();
                out.append(inner.as_str());
                proof {
                    assert(out@ =~= expr_str(self@));
                }
                out
            },
            Expr::Logical { left, operator, right } => {
                let mut out = char_to_string('`');
                let l = left.to_string();
                out.append(l.as_str());
                push_char(&mut out, '`');
                push_char(&mut out, ' ');
                out.append(operator.lexeme.as_str());
                push_char(&mut out, ' ');
                push_char(&mut out, '`');
                let rr = right.to_string();
                out.append(rr.as_str());
                push_char(&mut out, '`');
                proof {
                    assert(out@ =~= expr_str(self@));
                }
                out
            },
            Expr::Call { paren, .. } => {
                let head: &str = "function ";
                let mut out = head.to_owned();
                out.append(paren.lexeme.as_str());
                let close: &str = "()";
                out.append(close);
                proof {
                    assert(out@ =~= expr_str(self@));
                }
                out
            },
        }
    }

    pub fn array(elements: Vec<Expr>) -> (r: Self)
        ensures
            r@ == (ExprV::Array { elements: exprs_view(elements@) }),
    {
        Expr::Array { elements }
    }

    pub fn access(name: Token, position: Expr, index: usize) -> (r: Self)
        ensures
            r@ == (ExprV::Access {
                name: name@,
                position: Box::new(position@),
                index: index as nat,
            }),
    {
        Expr::Access { name, position: Box::new(position), index }
    }

    pub fn new_binary(left: Expr, operator: Token, right: Expr) -> (r: Self)
        ensures
            r@ == (ExprV::Binary {
                left: Box::new(left@),
                operator: operator@,
                right: Box::new(right@),
            }),
    {
        Expr::Binary { left: Box::new(left), operator, right: Box::new(right) }
    }

    pub fn new_grouping(expr: Expr) -> (r: Self)
        ensures
            r@ == (ExprV::Grouping { expr: Box::new(expr@) }),
    {
        Expr::Grouping { expr: Box::new(expr) }
    }

    pub fn new_literal(literal: Literal) -> (r: Self)
        ensures
            r@ == (ExprV::Literal { literal: literal@ }),
    {
        Expr::Literal { literal }
    }

    pub fn new_logical(left: Expr, operator: Token, right: Expr) -> (r: Self)
        ensures
            r@ == (ExprV::Logical {
                left: Box::new(left@),
                operator: operator@,
                right: Box::new(right@),
            }),
    {
        Expr::Logical { left: Box::new(left), operator, right: Box::new(right) }
    }

    pub fn create_unary(operator: Token, right: Expr) -> (r: Self)
        ensures
            r@ == (ExprV::Unary { operator: operator@, right: Box::new(right@) }),
    {
        Expr::Unary { operator, right: Box::new(right) }
    }

    pub fn create_variable(name: Token, index: usize) -> (r: Self)
        ensures
            r@ == (ExprV::Variable { index: index as nat, name: name@ }),
    {
        Expr::Variable { index, name }
    }

    pub fn create_assigment(
        name: Token,
        value: Expr,
        position: Option<Box<Expr>>,
        index: usize,
    ) -> (r: Self)
        ensures
            r@ == (ExprV::Assignment {
                name: name@,
                value: Box::new(value@),
                position: match position {
                    Some(p) => Some(Box::new(p@)),
                    None => None,
                },
                index: index as nat,
            }),
    {
        Expr::Assignment { name, value: Box::new(value), position, index }
    }

    pub fn create_call(callee: Expr, paren: Token, args: Vec<Expr>) -> (r: Self)
        ensures
            r@ == (ExprV::Call {
                callee: Box::new(callee@),
                paren: paren@,
                args: exprs_view(args@),
            }),
    {
        Expr::Call { callee: Box::new(callee), paren, args }
    }
}

} // verus!
