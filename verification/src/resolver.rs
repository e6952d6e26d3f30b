//! Static scope resolution.
//!
//! The resolver walks the statement list once, before any evaluation,
//! keeping a stack of lexical scopes.  Each scope records which names are
//! declared and whether each is fully defined yet; declaring a variable and
//! defining it are separate steps so that an initializer that reads the
//! variable being declared (`var a = a;`) is caught here, as a resolution
//! error, and never reaches evaluation — at any scope depth, the top level
//! included, where the name being initialized is tracked even though no
//! scope has been pushed.  For every variable or assignment
//! reference found in some scope, the resolver records the hop distance from
//! the innermost scope to the scope that declares the name, keyed by the
//! reference's unique index.  A reference found in no scope gets no entry
//! and is resolved at run time against the root frame alone.  `return`
//! outside any function body is also a resolution error.
//!
//! The whole pass is specified by the spec functions below, which compute
//! the same state transformation mathematically; resolution is therefore a
//! function of the program text alone, which is what makes recorded depths
//! deterministic.

use vstd::prelude::*;
use crate::errors::ResolveError;
use crate::errors::ResolveErrV;
use crate::expr::Expr;
use crate::expr::ExprV;
use crate::expr::exprs_view;
use crate::expr::lemma_exprs_view_len;
use crate::stmt::Stmt;
use crate::stmt::StmtV;
use crate::stmt::stmts_view;
use crate::stmt::lemma_stmts_view_len;
use crate::token::Token;
use crate::token::TokenV;
use crate::token::tokens_view;

verus! {

/// The mathematical state of the resolver: the depth map built so far, the
/// scope stack (each scope an append-only list of name/defined pairs, newest
/// binding last), whether the walk is inside a function body, and the name
/// of the variable whose initializer is being resolved, if any — kept even
/// at the top level, where no scope has been pushed, so that a declaration
/// reading itself is caught at any depth.
pub struct RState {
    pub locals: Seq<Option<int>>,
    pub scopes: Seq<Seq<(Seq<char>, bool)>>,
    pub in_function: bool,
    pub initializing: Option<Seq<char>>,
}

/// The newest flag recorded for `name` in one scope, if any.
pub open spec fn scope_find(scope: Seq<(Seq<char>, bool)>, name: Seq<char>) -> Option<bool>
    decreases scope.len(),
{
    if scope.len() == 0 {
        None
    } else if scope.last().0 == name {
        Some(scope.last().1)
    } else {
        scope_find(scope.drop_last(), name)
    }
}

/// How many scopes out from the innermost the name is found, if anywhere.
pub open spec fn find_depth(scopes: Seq<Seq<(Seq<char>, bool)>>, name: Seq<char>) -> Option<int>
    decreases scopes.len(),
{
    if scopes.len() == 0 {
        None
    } else if scope_find(scopes.last(), name) is Some {
        Some(0)
    } else {
        match find_depth(scopes.drop_last(), name) {
            Some(d) => Some(d + 1),
            None => None,
        }
    }
}

/// The state with `name` marked in the innermost scope; no scope, no change.
pub open spec fn mark(st: RState, name: Seq<char>, defined: bool) -> RState {
    if st.scopes.len() == 0 {
        st
    } else {
        RState {
            scopes: st.scopes.update(
                st.scopes.len() - 1,
                st.scopes.last().push((name, defined)),
            ),
            ..st
        }
    }
}

/// The state with the innermost scope closed; no scope, no change.
pub open spec fn pop_scope(st: RState) -> RState {
    if st.scopes.len() == 0 {
        st
    } else {
        RState { scopes: st.scopes.drop_last(), ..st }
    }
}

/// The depth map extended so that `index` maps to `d`, growing as needed.
pub open spec fn record(locals: Seq<Option<int>>, index: int, d: int) -> Seq<Option<int>> {
    let padded = if index < locals.len() {
        locals
    } else {
        locals + Seq::new((index + 1 - locals.len()) as nat, |j: int| None::<int>)
    };
    padded.update(index, Some(d))
}

/// The state after resolving one reference: if the name is declared in some
/// scope, its hop depth is recorded under the reference's index.
pub open spec fn resolve_local_s(st: RState, name: Seq<char>, index: int) -> RState {
    match find_depth(st.scopes, name) {
        Some(d) => RState { locals: record(st.locals, index, d), ..st },
        None => st,
    }
}

/// The state after resolving an expression, or the resolution error found.
pub open spec fn resolve_expr_s(st: RState, e: ExprV) -> Result<RState, ResolveErrV>
    decreases e,
{
    match e {
        ExprV::Access { position, index, .. } => resolve_expr_s(st, *position),
        ExprV::Binary { left, right, .. } => match resolve_expr_s(st, *left) {
            Ok(st1) => resolve_expr_s(st1, *right),
            Err(er) => Err(er),
        },
        ExprV::Grouping { expr } => resolve_expr_s(st, *expr),
        ExprV::Call { callee, args, .. } => match resolve_expr_s(st, *callee) {
            Ok(st1) => resolve_exprs_s(st1, args),
            Err(er) => Err(er),
        },
        ExprV::Literal { .. } => Ok(st),
        ExprV::Logical { left, right, .. } => match resolve_expr_s(st, *left) {
            Ok(st1) => resolve_expr_s(st1, *right),
            Err(er) => Err(er),
        },
        ExprV::Unary { right, .. } => resolve_expr_s(st, *right),
        ExprV::Variable { index, name } => {
            if st.initializing == Some(name.lexeme) || (st.scopes.len() > 0 && scope_find(
                st.scopes.last(),
                name.lexeme,
            ) == Some(false)) {
                Err(ResolveErrV::SelfReferencingInitializer { name: name.lexeme })
            } else {
                Ok(resolve_local_s(st, name.lexeme, index as int))
            }
        },
        ExprV::Assignment { name, value, position, index } => match resolve_expr_s(st, *value) {
            Ok(st1) => {
                let st2 = resolve_local_s(st1, name.lexeme, index as int);
                match position {
                    Some(p) => resolve_expr_s(st2, *p),
                    None => Ok(st2),
                }
            },
            Err(er) => Err(er),
        },
        ExprV::Array { elements } => resolve_exprs_s(st, elements),
    }
}

/// The state after resolving a list of expressions left to right.
pub open spec fn resolve_exprs_s(st: RState, es: Seq<ExprV>) -> Result<RState, ResolveErrV>
    decreases es,
{
    if es.len() == 0 {
        Ok(st)
    } else {
        match resolve_expr_s(st, es.first()) {
            Ok(st1) => resolve_exprs_s(st1, es.drop_first()),
            Err(er) => Err(er),
        }
    }
}

/// The state after resolving one statement, or the resolution error found.
pub open spec fn resolve_stmt_s(st: RState, s: StmtV) -> Result<RState, ResolveErrV>
    decreases s,
{
    match s {
        StmtV::Expression { expr } => resolve_expr_s(st, expr),
        StmtV::If { condition, then_branch, else_branch } => match resolve_expr_s(st, condition) {
            Ok(st1) => match resolve_stmt_s(st1, *then_branch) {
                Ok(st2) => match else_branch {
                    Some(b) => resolve_stmt_s(st2, *b),
                    None => Ok(st2),
                },
                Err(er) => Err(er),
            },
            Err(er) => Err(er),
        },
        StmtV::Return { value } => {
            if !st.in_function {
                Err(ResolveErrV::ReturnOutsideFunction)
            } else {
                match value {
                    Some(e) => resolve_expr_s(st, e),
                    None => Ok(st),
                }
            }
        },
        StmtV::Var { name, initializer } => {
            let st1 = mark(st, name.lexeme, false);
            match initializer {
                Some(e) => {
                    let st2 = RState { initializing: Some(name.lexeme), ..st1 };
                    match resolve_expr_s(st2, e) {
                        Ok(st3) => Ok(
                            mark(
                                RState { initializing: st.initializing, ..st3 },
                                name.lexeme,
                                true,
                            ),
                        ),
                        Err(er) => Err(er),
                    }
                },
                None => Ok(mark(st1, name.lexeme, true)),
            }
        },
        StmtV::While { condition, body } => match resolve_expr_s(st, condition) {
            Ok(st1) => resolve_stmt_s(st1, *body),
            Err(er) => Err(er),
        },
        StmtV::Block { statements } => {
            let st1 = RState { scopes: st.scopes.push(Seq::empty()), ..st };
            match resolve_stmts_s(st1, statements) {
                Ok(st2) => Ok(pop_scope(st2)),
                Err(er) => Err(er),
            }
        },
        StmtV::Function { name, params, body } => {
            let st1 = RState { in_function: true, ..st };
            let st2 = mark(mark(st1, name.lexeme, false), name.lexeme, true);
            let st3 = RState { scopes: st2.scopes.push(Seq::empty()), ..st2 };
            let st4 = mark_params(st3, params);
            match resolve_stmts_s(st4, body) {
                Ok(st5) => Ok(RState { in_function: st.in_function, ..pop_scope(st5) }),
                Err(er) => Err(er),
            }
        },
    }
}

/// The state with every parameter declared and defined in the innermost
/// scope, in order.
pub open spec fn mark_params(st: RState, params: Seq<TokenV>) -> RState
    decreases params.len(),
{
    if params.len() == 0 {
        st
    } else {
        mark_params(
            mark(mark(st, params.first().lexeme, false), params.first().lexeme, true),
            params.drop_first(),
        )
    }
}

/// The state after resolving a list of statements in order.
pub open spec fn resolve_stmts_s(st: RState, ss: Seq<StmtV>) -> Result<RState, ResolveErrV>
    decreases ss,
{
    if ss.len() == 0 {
        Ok(st)
    } else {
        match resolve_stmt_s(st, ss.first()) {
            Ok(st1) => resolve_stmts_s(st1, ss.drop_first()),
            Err(er) => Err(er),
        }
    }
}

/// The fresh resolver state.
pub open spec fn initial_rstate() -> RState {
    RState {
        locals: Seq::empty(),
        scopes: Seq::empty(),
        in_function: false,
        initializing: None,
    }
}

/// The depth map of a whole program, or its resolution error.
pub open spec fn resolve_program_s(ss: Seq<StmtV>) -> Result<Seq<Option<int>>, ResolveErrV> {
    match resolve_stmts_s(initial_rstate(), ss) {
        Ok(st) => Ok(st.locals),
        Err(er) => Err(er),
    }
}

pub enum FunctionType {
    Function,
}

pub struct Resolver {
    pub locals: Vec<Option<usize>>,
    pub scopes: Vec<Vec<(String, bool)>>,
    pub function_type: Option<FunctionType>,
    pub initializing: Option<String>,
}

/// The mathematical value of one scope.
pub open spec fn scope_view(s: Seq<(String, bool)>) -> Seq<(Seq<char>, bool)> {
    Seq::new(s.len(), |i: int| (s[i].0@, s[i].1))
}

/// The mathematical value of the scope stack.
pub open spec fn scopes_view(s: Seq<Vec<(String, bool)>>) -> Seq<Seq<(Seq<char>, bool)>> {
    Seq::new(s.len(), |i: int| scope_view(s[i]@))
}

impl View for Resolver {
    type V = RState;

    open spec fn view(&self) -> RState {
        RState {
            locals: crate::environment::locals_view(self.locals@),
            scopes: scopes_view(self.scopes@),
            in_function: self.function_type is Some,
            initializing: match self.initializing {
                Some(ref s) => Some(s@),
                None => None,
            },
        }
    }
}

impl Resolver {
    pub fn new() -> (r: Self)
        ensures
            r@ == initial_rstate(),
    {
        let r = Resolver {
            locals: Vec::new(),
            scopes: Vec::new(),
            function_type: None,
            initializing: None,
        };
        proof {
            assert(r@.locals =~= initial_rstate().locals);
            assert(r@.scopes =~= initial_rstate().scopes);
        }
        r
    }

    /// Resolves a whole statement list and yields the finished depth map.
    pub fn resolve(&mut self, statements: &Vec<Stmt>) -> (r: Result<
        Vec<Option<usize>>,
        ResolveError,
    >)
        ensures
            match r {
                Ok(locals) => resolve_stmts_s(old(self)@, stmts_view(statements@))
                    == Ok::<RState, ResolveErrV>(final(self)@)
                    && crate::environment::locals_view(locals@) == final(self)@.locals,
                Err(e) => resolve_stmts_s(old(self)@, stmts_view(statements@))
                    == Err::<RState, ResolveErrV>(e@),
            },
    {
        let ghost whole = stmts_view(statements@);
        proof {
            lemma_stmts_view_len(statements@);
            assert(whole.skip(0) =~= whole);
        }
        let mut i: usize = 0;
        while i < statements.len()
            invariant
                i <= statements@.len(),
                whole == stmts_view(statements@),
                whole.len() == statements@.len(),
                forall|j: int| 0 <= j < statements@.len()
                    ==> whole[j] == (#[trigger] statements@[j])@,
                resolve_stmts_s(old(self)@, whole) == resolve_stmts_s(self@, whole.skip(i as int)),
            decreases statements@.len() - i,
        {
            let res = self.resolve_statement(&statements[i]);
            proof {
                let rest = whole.skip(i as int);
                assert(rest.first() == whole[i as int]);
                assert(rest.drop_first() =~= whole.skip(i as int + 1));
            }
            match res {
                Ok(()) => {},
                Err(e) => {
                    return Err(e);
                },
            }
            i += 1;
        }
        proof {
            assert(whole.skip(statements@.len() as int) =~= Seq::<StmtV>::empty());
        }
        let out = copy_locals(&self.locals);
        Ok(out)
    }

    fn resolve_statement(&mut self, statement: &Stmt) -> (r: Result<(), ResolveError>)
        ensures
            match r {
                Ok(()) => resolve_stmt_s(old(self)@, statement@) == Ok::<RState, ResolveErrV>(
                    final(self)@,
                ),
                Err(e) => resolve_stmt_s(old(self)@, statement@) == Err::<RState, ResolveErrV>(e@),
            },
        decreases *statement,
    {
        match statement {
            Stmt::Expression { expr } => {
                match self.resolve_expr(expr) {
                    Ok(()) => Ok(()),
                    Err(e) => Err(e),
                }
            },
            Stmt::If { condition, then_branch, else_branch } => {
                match self.resolve_expr(condition) {
                    Ok(()) => {},
                    Err(e) => {
                        return Err(e);
                    },
                }
                match self.resolve_statement(then_branch) {
                    Ok(()) => {},
                    Err(e) => {
                        return Err(e);
                    },
                }
                match else_branch {
                    Some(b) => self.resolve_statement(b),
                    None => Ok(()),
                }
            },
            Stmt::Return { value } => {
                match self.function_type {
                    None => Err(ResolveError::ReturnOutsideFunction),
                    Some(_) => match value {
                        Some(e) => self.resolve_expr(e),
                        None => Ok(()),
                    },
                }
            },
            Stmt::Var { name, initializer } => {
                self.declare(name);
                match initializer {
                    Some(e) => {
                        let saved = match &self.initializing {
                            Some(s) => Some(s.clone()),
                            None => None,
                        };
                        let ghost saved_view = self@.initializing;
                        self.initializing = Some(name.lexeme.clone());
                        match self.resolve_expr(e) {
                            Ok(()) => {},
                            Err(er) => {
                                return Err(er);
                            },
                        }
                        self.initializing = saved;
                        proof {
                            assert(self@.initializing == saved_view);
                        }
                    },
                    None => {},
                }
                self.define(name);
                Ok(())
            },
            Stmt::While { condition, body } => {
                match self.resolve_expr(condition) {
                    Ok(()) => {},
                    Err(e) => {
                        return Err(e);
                    },
                }
                self.resolve_statement(body)
            },
            Stmt::Block { statements } => {
                self.begin_scope();
                match self.resolve_block(statements) {
                    Ok(()) => {},
                    Err(e) => {
                        return Err(e);
                    },
                }
                self.end_scope();
                Ok(())
            },
            Stmt::Function { name, params, body } => {
                let ghost st0 = self@;
                let parent_function = match self.function_type {
                    Some(FunctionType::Function) => Some(FunctionType::Function),
                    None => None,
                };
                self.function_type = Some(FunctionType::Function);
                self.declare(name);
                self.define(name);
                self.begin_scope();
                let ghost st_loop = self@;
                let mut i: usize = 0;
                let ghost pviews = tokens_view(params@);
                proof {
                    assert(pviews.len() == params@.len());
                    assert(pviews.skip(0) =~= pviews);
                }
                while i < params.len()
                    invariant
                        i <= params@.len(),
                        pviews == tokens_view(params@),
                        pviews.len() == params@.len(),
                        mark_params(st_loop, pviews) == mark_params(
                            self@,
                            pviews.skip(i as int),
                        ),
                    decreases params@.len() - i,
                {
                    let ghost rest = pviews.skip(i as int);
                    self.declare(&params[i]);
                    self.define(&params[i]);
                    proof {
                        assert(rest.first() == pviews[i as int]);
                        assert(pviews[i as int] == params@[i as int]@);
                        assert(rest.drop_first() =~= pviews.skip(i as int + 1));
                    }
                    i += 1;
                }
                proof {
                    assert(pviews.skip(params@.len() as int) =~= Seq::<TokenV>::empty());
                    assert(mark_params(st_loop, pviews) == self@);
                }
                match self.resolve_block(body) {
                    Ok(()) => {},
                    Err(e) => {
                        return Err(e);
                    },
                }
                self.end_scope();
                self.function_type = parent_function;
                proof {
                    let sv = statement@;
                    assert(self@.in_function == st0.in_function);
                }
                Ok(())
            },
        }
    }

    /// Resolves a statement list in order, as one pass over a block or a
    /// function body.
    fn resolve_block(&mut self, statements: &Vec<Stmt>) -> (r: Result<(), ResolveError>)
        ensures
            match r {
                Ok(()) => resolve_stmts_s(old(self)@, stmts_view(statements@))
                    == Ok::<RState, ResolveErrV>(final(self)@),
                Err(e) => resolve_stmts_s(old(self)@, stmts_view(statements@))
                    == Err::<RState, ResolveErrV>(e@),
            },
        decreases *statements,
    {
        let ghost whole = stmts_view(statements@);
        proof {
            lemma_stmts_view_len(statements@);
            assert(whole.skip(0) =~= whole);
        }
        let mut i: usize = 0;
        while i < statements.len()
            invariant
                i <= statements@.len(),
                whole == stmts_view(statements@),
                whole.len() == statements@.len(),
                forall|j: int| 0 <= j < statements@.len()
                    ==> whole[j] == (#[trigger] statements@[j])@,
                resolve_stmts_s(old(self)@, whole) == resolve_stmts_s(self@, whole.skip(i as int)),
            decreases statements@.len() - i,
        {
            let res = self.resolve_statement(&statements[i]);
            proof {
                let rest = whole.skip(i as int);
                assert(rest.first() == whole[i as int]);
                assert(rest.drop_first() =~= whole.skip(i as int + 1));
            }
            match res {
                Ok(()) => {},
                Err(e) => {
                    return Err(e);
                },
            }
            i += 1;
        }
        proof {
            assert(whole.skip(statements@.len() as int) =~= Seq::<StmtV>::empty());
        }
        Ok(())
    }

    fn resolve_expr(&mut self, expr: &Expr) -> (r: Result<(), ResolveError>)
        ensures
            match r {
                Ok(()) => resolve_expr_s(old(self)@, expr@) == Ok::<RState, ResolveErrV>(
                    final(self)@,
                ),
                Err(e) => resolve_expr_s(old(self)@, expr@) == Err::<RState, ResolveErrV>(e@),
            },
        decreases *expr,
    {
        match expr {
            Expr::Access { position, .. } => self.resolve_expr(position),
            Expr::Binary { left, right, .. } => {
                match self.resolve_expr(left) {
                    Ok(()) => {},
                    Err(e) => {
                        return Err(e);
                    },
                }
                self.resolve_expr(right)
            },
            Expr::Grouping { expr: inner } => self.resolve_expr(inner),
            Expr::Call { callee, args, .. } => {
                match self.resolve_expr(callee) {
                    Ok(()) => {},
                    Err(e) => {
                        return Err(e);
                    },
                }
                self.resolve_exprs(args)
            },
            Expr::Literal { .. } => Ok(()),
            Expr::Logical { left, right, .. } => {
                match self.resolve_expr(left) {
                    Ok(()) => {},
                    Err(e) => {
                        return Err(e);
                    },
                }
                self.resolve_expr(right)
            },
            Expr::Unary { right, .. } => self.resolve_expr(right),
            Expr::Variable { name, index } => {
                let self_reference = match &self.initializing {
                    Some(current) => *current == name.lexeme,
                    None => false,
                };
                if self_reference {
                    return Err(
                        ResolveError::SelfReferencingInitializer { name: name.lexeme.clone() },
                    );
                }
                if self.scopes.len() > 0 {
                    let last = self.scopes.len() - 1;
                    let flag = scope_lookup(&self.scopes[last], &name.lexeme);
                    proof {
                        assert(self@.scopes.last() == scope_view(self.scopes@.last()@));
                    }
                    if let Some(false) = flag {
                        return Err(
                            ResolveError::SelfReferencingInitializer {
                                name: name.lexeme.clone(),
                            },
                        );
                    }
                }
                self.resolve_local(name, *index);
                Ok(())
            },
            Expr::Assignment { name, value, position, index } => {
                match self.resolve_expr(value) {
                    Ok(()) => {},
                    Err(e) => {
                        return Err(e);
                    },
                }
                self.resolve_local(name, *index);
                match position {
                    Some(p) => self.resolve_expr(p),
                    None => Ok(()),
                }
            },
            Expr::Array { elements } => {
                self.resolve_exprs(elements)
            },
        }
    }

    /// Resolves a list of expressions left to right.
    fn resolve_exprs(&mut self, exprs: &Vec<Expr>) -> (r: Result<(), ResolveError>)
        ensures
            match r {
                Ok(()) => resolve_exprs_s(old(self)@, exprs_view(exprs@))
                    == Ok::<RState, ResolveErrV>(final(self)@),
                Err(e) => resolve_exprs_s(old(self)@, exprs_view(exprs@))
                    == Err::<RState, ResolveErrV>(e@),
            },
        decreases *exprs,
    {
        let ghost whole = exprs_view(exprs@);
        proof {
            lemma_exprs_view_len(exprs@);
            assert(whole.skip(0) =~= whole);
        }
        let mut i: usize = 0;
        while i < exprs.len()
            invariant
                i <= exprs@.len(),
                whole == exprs_view(exprs@),
                whole.len() == exprs@.len(),
                forall|j: int| 0 <= j < exprs@.len() ==> whole[j] == (#[trigger] exprs@[j])@,
                resolve_exprs_s(old(self)@, whole) == resolve_exprs_s(
                    self@,
                    whole.skip(i as int),
                ),
            decreases exprs@.len() - i,
        {
            let res = self.resolve_expr(&exprs[i]);
            proof {
                let rest = whole.skip(i as int);
                assert(rest.first() == whole[i as int]);
                assert(rest.drop_first() =~= whole.skip(i as int + 1));
            }
            match res {
                Ok(()) => {},
                Err(e) => {
                    return Err(e);
                },
            }
            i += 1;
        }
        proof {
            assert(whole.skip(exprs@.len() as int) =~= Seq::<ExprV>::empty());
        }
        Ok(())
    }

    /// Records the hop depth of a reference found in the scope stack.
    fn resolve_local(&mut self, name: &Token, index: usize)
        ensures
            final(self)@ == resolve_local_s(old(self)@, name@.lexeme, index as int),
    {
        let ghost st0 = self@;
        let len = self.scopes.len();
        proof {
            assert(st0.scopes.take(len as int) =~= st0.scopes);
        }
        let mut i: usize = len;
        while i > 0
            invariant
                i <= len,
                len == self.scopes@.len(),
                self@ == st0,
                st0 == old(self)@,
                find_depth(st0.scopes, name@.lexeme) == match find_depth(
                    st0.scopes.take(i as int),
                    name@.lexeme,
                ) {
                    Some(d) => Some(d + (len - i)),
                    None => None::<int>,
                },
            decreases i,
        {
            i = i - 1;
            let ghost stack_pre = st0.scopes.take(i + 1);
            proof {
                assert(stack_pre.last() == st0.scopes[i as int]);
                assert(stack_pre.drop_last() =~= st0.scopes.take(i as int));
                assert(st0.scopes[i as int] == scope_view(self.scopes@[i as int]@));
            }
            let found = scope_lookup(&self.scopes[i], &name.lexeme);
            if let Some(_) = found {
                let d = len - 1 - i;
                self.record_depth(index, d);
                proof {
                    assert(find_depth(st0.scopes, name@.lexeme) == Some(d as int));
                    assert(self@ == (RState {
                        locals: record(st0.locals, index as int, d as int),
                        ..st0
                    }));
                    assert(resolve_local_s(st0, name@.lexeme, index as int) == (RState {
                        locals: record(st0.locals, index as int, d as int),
                        ..st0
                    }));
                    assert(st0 == old(self)@);
                    assert(self@ == resolve_local_s(old(self)@, name@.lexeme, index as int));
                }
                return;
            }
        }
        proof {
            assert(st0.scopes.take(0) =~= Seq::<Seq<(Seq<char>, bool)>>::empty());
            assert(find_depth(st0.scopes, name@.lexeme) is None);
            assert(self@.scopes =~= st0.scopes);
        }
    }

    /// Stores `Some(d)` at `index` in the depth map, growing it as needed.
    fn record_depth(&mut self, index: usize, d: usize)
        ensures
            final(self)@ == (RState {
                locals: record(old(self)@.locals, index as int, d as int),
                ..old(self)@
            }),
    {
        let ghost st0 = self@;
        while self.locals.len() <= index
            invariant
                self.scopes@ == old(self).scopes@,
                self.function_type is Some == (old(self).function_type is Some),
                self.initializing == old(self).initializing,
                self.locals@.len() >= old(self).locals@.len(),
                old(self).locals@.len() <= index ==> self.locals@.len() <= index + 1,
                old(self).locals@.len() > index ==> self.locals@.len()
                    == old(self).locals@.len(),
                forall|j: int| 0 <= j < old(self).locals@.len()
                    ==> self.locals@[j] == old(self).locals@[j],
                forall|j: int| old(self).locals@.len() <= j < self.locals@.len()
                    ==> self.locals@[j] is None,
            decreases index + 1 - self.locals.len(),
        {
            self.locals.push(None);
        }
        self.locals[index] = Some(d);
        proof {
            assert(self@.scopes =~= st0.scopes);
            assert(self@.locals =~= record(st0.locals, index as int, d as int));
        }
    }

    fn begin_scope(&mut self)
        ensures
            final(self)@ == (RState {
                scopes: old(self)@.scopes.push(Seq::empty()),
                ..old(self)@
            }),
    {
        self.scopes.push(Vec::new());
        proof {
            assert(scope_view(self.scopes@.last()@) =~= Seq::<(Seq<char>, bool)>::empty());
            assert(self@.scopes =~= old(self)@.scopes.push(Seq::empty()));
        }
    }

    fn end_scope(&mut self)
        ensures
            final(self)@ == pop_scope(old(self)@),
    {
        if self.scopes.len() > 0 {
            let popped = self.scopes.pop();
            proof {
                let svnew = self.scopes@;
                let svold = old(self).scopes@;
                assert(svnew == svold.subrange(0, svold.len() - 1));
                assert(scopes_view(svnew).len() == scopes_view(svold).drop_last().len());
                assert forall|i: int| 0 <= i < scopes_view(svnew).len()
                    implies scopes_view(svnew)[i] == scopes_view(svold).drop_last()[i] by {
                    assert(svnew[i] == svold[i]);
                    assert(scopes_view(svnew)[i] == scope_view(svnew[i]@));
                    assert(scopes_view(svold).drop_last()[i] == scopes_view(svold)[i]);
                    assert(scopes_view(svold)[i] == scope_view(svold[i]@));
                }
                assert(scopes_view(svnew) =~= scopes_view(svold).drop_last());
            }
        }
    }

    fn declare(&mut self, name: &Token)
        ensures
            final(self)@ == mark(old(self)@, name@.lexeme, false),
    {
        self.mark_name(name, false);
    }

    fn define(&mut self, name: &Token)
        ensures
            final(self)@ == mark(old(self)@, name@.lexeme, true),
    {
        self.mark_name(name, true);
    }

    fn mark_name(&mut self, name: &Token, defined: bool)
        ensures
            final(self)@ == mark(old(self)@, name@.lexeme, defined),
    {
        let n = self.scopes.len();
        if n == 0 {
            return;
        }
        let ghost st0 = self@;
        let last = &mut self.scopes[n - 1];
        last.push((name.lexeme.clone(), defined));
        proof {
            assert(scope_view(self.scopes@[n - 1]@) =~= st0.scopes[n as int - 1].push(
                (name@.lexeme, defined),
            ));
            assert(self@.scopes =~= mark(st0, name@.lexeme, defined).scopes);
        }
    }
}

/// The newest flag for `name` in one scope's list, if any.
fn scope_lookup(scope: &Vec<(String, bool)>, name: &String) -> (r: Option<bool>)
    ensures
        r == scope_find(scope_view(scope@), name@),
{
    proof {
        assert(scope_view(scope@).take(scope@.len() as int) =~= scope_view(scope@));
    }
    let mut i: usize = scope.len();
    while i > 0
        invariant
            i <= scope@.len(),
            scope_find(scope_view(scope@), name@) == scope_find(
                scope_view(scope@).take(i as int),
                name@,
            ),
        decreases i,
    {
        i = i - 1;
        let ghost pre = scope_view(scope@).take(i + 1);
        proof {
            assert(pre.last() == scope_view(scope@)[i as int]);
            assert(pre.drop_last() =~= scope_view(scope@).take(i as int));
        }
        if scope[i].0 == *name {
            return Some(scope[i].1);
        }
    }
    proof {
        assert(scope_view(scope@).take(0) =~= Seq::<(Seq<char>, bool)>::empty());
    }
    None
}

/// A copy of the depth map.
fn copy_locals(v: &Vec<Option<usize>>) -> (r: Vec<Option<usize>>)
    ensures
        r@ == v@,
{
    let mut r: Vec<Option<usize>> = Vec::new();
    let mut i: usize = 0;
    while i < v.len()
        invariant
            i <= v@.len(),
            r@ == v@.subrange(0, i as int),
        decreases v@.len() - i,
    {
        let e = match v[i] {
            Some(d) => Some(d),
            None => None,
        };
        r.push(e);
        i += 1;
        proof {
            assert(r@ =~= v@.subrange(0, i as int));
        }
    }
    proof {
        assert(r@ =~= v@);
    }
    r
}

} // verus!
