//! The tree-walking evaluator.
//!
//! The interpreter owns the frame arena, the index of the frame that is
//! current while code runs, and the output log that `print` appends to.
//! Statements execute against the current frame; a block opens a child
//! frame and restores the old one on every exit path; a function statement
//! builds a closure capturing the current frame's index; calling a user
//! function opens a frame whose parent is the closure's captured frame —
//! not the caller's — which is the lexical-scoping contract that makes
//! closures and recursion work.
//!
//! Control flow out of `return` is a tagged [`Flow`] result checked by every
//! block and loop, so a pending return value short-circuits the remaining
//! statements and stops exactly at the function-call boundary.
//!
//! Evaluation takes a budget: each loop iteration and each user-function
//! call consumes one unit, and running out reports
//! [`RuntimeError::BudgetExhausted`].
//!
//! The language's runtime semantics is written down once, as the big-step
//! specification functions [`eval_expr_s`], [`exec_stmt_s`], [`exec_stmts_s`],
//! [`call_function_s`] and [`call_native_s`]: fuel-indexed functions from a
//! state and a piece of program to the state and result evaluation leaves.
//! Where evaluation would consult the embedding host (the `clock`, `clear`
//! and `input` natives) the semantics yields [`Outcome::Host`] and makes no
//! claim; everywhere else — `print` and `parse` included — the outcome is
//! definite, and each evaluator function ensures that its result and final
//! state equal what the semantics computes.  On top of that, every entry
//! point states the frame discipline: the arena only grows, existing frames
//! keep their enclosing links, the depth map is untouched, the current
//! frame is restored, and the output log only gains lines.

use vstd::prelude::*;
use crate::callable::Callables;
use crate::callable::CallV;
use crate::environment::Environment;
use crate::environment::EnvV;
use crate::environment::env_wf;
use crate::environment::depth_of;
use crate::errors::LoxError;
use crate::errors::RunErrV;
use crate::errors::RuntimeError;
use crate::expr::Expr;
use crate::expr::ExprV;
use crate::expr::Literal;
use crate::expr::LitV;
use crate::expr::expr_wf;
use crate::expr::lit_wf;
use crate::expr::lit_truthy;
use crate::expr::lemma_lit_wf_mono;
use crate::expr::lemma_expr_wf_mono;
use crate::expr::exprs_view;
use crate::expr::lemma_exprs_view_len;
use crate::expr::lits_view;
use crate::expr::lemma_lits_view_len;
use crate::expr::apply_unary;
use crate::expr::apply_binary;
use crate::expr::index_read;
use crate::expr::index_assign;
use crate::expr::unary_result;
use crate::expr::binary_result;
use crate::expr::index_read_result;
use crate::expr::index_assign_result;
use crate::expr::clone_literal;
use crate::native::Host;
use crate::native::NativeKind;
use crate::native::native_arity;
use crate::native::parse_result;
use crate::native::parse_native;
use crate::stmt::Stmt;
use crate::stmt::StmtV;
use crate::stmt::stmt_wf;
use crate::stmt::lemma_stmt_wf_mono;
use crate::stmt::stmts_view;
use crate::stmt::lemma_stmts_view_len;
use crate::stmt::clone_stmts;
use crate::token::tokens_view;
use crate::token::clone_tokens;

verus! {

/// How a statement finished: fell through normally, or carries a pending
/// return value that must stop execution at the enclosing call boundary.
#[derive(Debug)]
pub enum Flow {
    Normal,
    Return(Literal),
}

/// The mathematical value of a flow signal.
pub enum FlowV {
    Normal,
    Return(LitV),
}

impl View for Flow {
    type V = FlowV;

    open spec fn view(&self) -> FlowV {
        match self {
            Flow::Normal => FlowV::Normal,
            Flow::Return(v) => FlowV::Return(v@),
        }
    }
}

/// The mathematical values of the output log, line by line.
pub open spec fn output_view(s: Seq<String>) -> Seq<Seq<char>> {
    Seq::new(s.len(), |i: int| s[i]@)
}

pub struct Interpreter {
    pub environment: Environment,
    pub cur: usize,
    pub output: Vec<String>,
}

/// The mathematical value of the interpreter: the environment, the index of
/// the current frame, and the lines printed so far.
pub struct InterpV {
    pub env: EnvV,
    pub cur: int,
    pub output: Seq<Seq<char>>,
}

impl View for Interpreter {
    type V = InterpV;

    open spec fn view(&self) -> InterpV {
        InterpV {
            env: self.environment@,
            cur: self.cur as int,
            output: output_view(self.output@),
        }
    }
}

/// A well-formed interpreter: well-formed environment, live current frame.
pub open spec fn interp_wf(s: InterpV) -> bool {
    &&& env_wf(s.env)
    &&& 0 <= s.cur < s.env.frames.len()
}

/// The evaluator's frame discipline, relating any state to a later one: the
/// arena only grows, frames already present keep their enclosing links, the
/// depth map is untouched, and the output log only gains lines.
pub open spec fn evolution(pre: InterpV, post: InterpV) -> bool {
    &&& post.env.frames.len() >= pre.env.frames.len()
    &&& forall|i: int| 0 <= i < pre.env.frames.len()
        ==> (#[trigger] post.env.frames[i]).enclosing == pre.env.frames[i].enclosing
    &&& post.env.locals == pre.env.locals
    &&& pre.output.is_prefix_of(post.output)
}

/// What every evaluation step guarantees: well-formedness, the frame
/// discipline, and the current frame restored.
pub open spec fn eval_post(pre: InterpV, post: InterpV) -> bool {
    &&& interp_wf(post)
    &&& evolution(pre, post)
    &&& post.cur == pre.cur
}

/// A prefix of a prefix is a prefix.
pub proof fn lemma_prefix_trans(a: Seq<Seq<char>>, b: Seq<Seq<char>>, c: Seq<Seq<char>>)
    requires
        a.is_prefix_of(b),
        b.is_prefix_of(c),
    ensures
        a.is_prefix_of(c),
{
    assert forall|i: int| 0 <= i < a.len() implies a[i] == c.subrange(0, a.len() as int)[i] by {
        assert(a[i] == b.subrange(0, a.len() as int)[i]);
        assert(b[i] == c.subrange(0, b.len() as int)[i]);
    }
    assert(a =~= c.subrange(0, a.len() as int));
}

/// The frame discipline composes.
pub proof fn lemma_evolution_trans(a: InterpV, b: InterpV, c: InterpV)
    requires
        evolution(a, b),
        evolution(b, c),
    ensures
        evolution(a, c),
{
    lemma_prefix_trans(a.output, b.output, c.output);
}

/// The frame discipline is reflexive.
pub proof fn lemma_evolution_refl(a: InterpV)
    ensures
        evolution(a, a),
{
    assert(a.output =~= a.output.subrange(0, a.output.len() as int));
}

/// A unary operator's successful result is always a plain value.
proof fn lemma_unary_result_wf(op: crate::token::TokenType, v: LitV, n: int)
    ensures
        unary_result(op, v) matches Ok(r) ==> lit_wf(r, n),
{
}

/// A binary operator's successful result is always a plain value.
proof fn lemma_binary_result_wf(op: crate::token::TokenType, a: LitV, b: LitV, n: int)
    ensures
        binary_result(op, a, b) matches Ok(r) ==> lit_wf(r, n),
{
}

/// An element read out of a well-formed container is well formed.
proof fn lemma_index_read_wf(t: LitV, p: LitV, n: int)
    requires
        lit_wf(t, n),
    ensures
        index_read_result(t, p) matches Ok(r) ==> lit_wf(r, n),
{
    match t {
        LitV::Array(arr) => {
            crate::expr::lemma_lits_wf_pointwise(arr, n);
        },
        _ => {},
    }
}

/// An indexed write into a well-formed container of a well-formed value
/// yields a well-formed container.
proof fn lemma_index_assign_wf(t: LitV, p: LitV, v: LitV, n: int)
    requires
        lit_wf(t, n),
        lit_wf(v, n),
    ensures
        index_assign_result(t, p, v) matches Ok(r) ==> lit_wf(r, n),
{
    if index_assign_result(t, p, v) matches Ok(r) {
        match (t, p) {
            (LitV::Array(arr), LitV::Number(q)) => {
                crate::expr::lemma_lits_wf_pointwise(arr, n);
                if 0 <= q && q == arr.len() {
                    assert forall|i: int| 0 <= i < arr.push(v).len()
                        implies lit_wf(#[trigger] arr.push(v)[i], n) by {
                        if i < arr.len() {
                            assert(arr.push(v)[i] == arr[i]);
                        } else {
                            assert(arr.push(v)[i] == v);
                        }
                    }
                    crate::expr::lemma_lits_wf_pointwise(arr.push(v), n);
                } else if 0 <= q < arr.len() {
                    assert forall|i: int| 0 <= i < arr.update(q, v).len()
                        implies lit_wf(#[trigger] arr.update(q, v)[i], n) by {
                        if i != q {
                            assert(arr.update(q, v)[i] == arr[i]);
                        } else {
                            assert(arr.update(q, v)[i] == v);
                        }
                    }
                    crate::expr::lemma_lits_wf_pointwise(arr.update(q, v), n);
                }
            },
            _ => {},
        }
    }
}

/// The `parse` native's successful result is always a plain value.
proof fn lemma_parse_result_wf(v: LitV, t: LitV, n: int)
    ensures
        parse_result(v, t) matches Ok(r) ==> lit_wf(r, n),
{
}


/// What the big-step evaluation semantics yields: a definite next state and
/// result, or the point where the embedding host was consulted (clock,
/// clear, input), beyond which the semantics makes no claim.
#[verifier::reject_recursive_types(T)]
pub enum Outcome<T> {
    Done(InterpV, Result<T, RunErrV>),
    Host,
}

/// A flow result by mathematical value.
pub open spec fn flow_res_view(r: Result<Flow, RuntimeError>) -> Result<FlowV, RunErrV> {
    match r {
        Ok(f) => Ok(f@),
        Err(e) => Err(e@),
    }
}

/// The big-step evaluation of one expression: the state and value (or
/// error) it yields, mirroring evaluation order exactly — subexpressions
/// left to right, the budget consumed one unit per user-function call.
pub open spec fn eval_expr_s(st: InterpV, e: ExprV, fuel: nat) -> Outcome<LitV>
    decreases fuel, e, 1int,
{
    match e {
        ExprV::Literal { literal } => Outcome::Done(st, Ok(literal)),
        ExprV::Grouping { expr } => eval_expr_s(st, *expr, fuel),
        ExprV::Variable { index, name } => Outcome::Done(
            st,
            crate::environment::env_get(st.env, st.cur, name.lexeme, index as int),
        ),
        ExprV::Unary { operator, right } => match eval_expr_s(st, *right, fuel) {
            Outcome::Done(st1, Ok(v)) => Outcome::Done(st1, unary_result(operator.ty, v)),
            other => other,
        },
        ExprV::Binary { left, operator, right } => match eval_expr_s(st, *left, fuel) {
            Outcome::Done(st1, Ok(a)) => match eval_expr_s(st1, *right, fuel) {
                Outcome::Done(st2, Ok(b)) => Outcome::Done(
                    st2,
                    binary_result(operator.ty, a, b),
                ),
                other => other,
            },
            other => other,
        },
        ExprV::Logical { left, operator, right } => match eval_expr_s(st, *left, fuel) {
            Outcome::Done(st1, Ok(a)) => {
                let take_left = if operator.ty is Or {
                    lit_truthy(a)
                } else {
                    !lit_truthy(a)
                };
                if take_left {
                    Outcome::Done(st1, Ok(a))
                } else {
                    eval_expr_s(st1, *right, fuel)
                }
            },
            other => other,
        },
        ExprV::Array { elements } => match eval_exprs_s(st, elements, fuel) {
            Outcome::Done(st1, Ok(vs)) => Outcome::Done(st1, Ok(LitV::Array(vs))),
            Outcome::Done(st1, Err(er)) => Outcome::Done(st1, Err(er)),
            Outcome::Host => Outcome::Host,
        },
        ExprV::Access { name, position, index } => match eval_expr_s(st, *position, fuel) {
            Outcome::Done(st1, Ok(p)) => match crate::environment::env_get(
                st1.env,
                st1.cur,
                name.lexeme,
                index as int,
            ) {
                Ok(target) => Outcome::Done(st1, index_read_result(target, p)),
                Err(er) => Outcome::Done(st1, Err(er)),
            },
            other => other,
        },
        ExprV::Assignment { name, value, position, index } => match eval_expr_s(
            st,
            *value,
            fuel,
        ) {
            Outcome::Done(st1, Ok(v)) => match position {
                Some(p) => match eval_expr_s(st1, *p, fuel) {
                    Outcome::Done(st2, Ok(pv)) => match crate::environment::env_get(
                        st2.env,
                        st2.cur,
                        name.lexeme,
                        index as int,
                    ) {
                        Ok(target) => match index_assign_result(target, pv, v) {
                            Ok(updated) => match crate::environment::env_assign(
                                st2.env,
                                st2.cur,
                                name.lexeme,
                                updated,
                                index as int,
                            ) {
                                Ok(env2) => Outcome::Done(
                                    InterpV { env: env2, ..st2 },
                                    Ok(updated),
                                ),
                                Err(er) => Outcome::Done(st2, Err(er)),
                            },
                            Err(er) => Outcome::Done(st2, Err(er)),
                        },
                        Err(er) => Outcome::Done(st2, Err(er)),
                    },
                    other => other,
                },
                None => match crate::environment::env_assign(
                    st1.env,
                    st1.cur,
                    name.lexeme,
                    v,
                    index as int,
                ) {
                    Ok(env2) => Outcome::Done(InterpV { env: env2, ..st1 }, Ok(v)),
                    Err(er) => Outcome::Done(st1, Err(er)),
                },
            },
            other => other,
        },
        ExprV::Call { callee, paren, args } => match eval_expr_s(st, *callee, fuel) {
            Outcome::Done(st1, Ok(c)) => match eval_exprs_s(st1, args, fuel) {
                Outcome::Done(st2, Ok(vs)) => match c {
                    LitV::Callable(
                        CallV::LoxFunction { name, params, arity, body, environment },
                    ) => if fuel == 0 {
                        Outcome::Done(st2, Err(RunErrV::BudgetExhausted))
                    } else {
                        call_function_s(
                            st2,
                            name,
                            params,
                            arity,
                            body,
                            environment as int,
                            vs,
                            (fuel - 1) as nat,
                        )
                    },
                    LitV::Callable(CallV::NativeFunction { name, arity, fun }) =>
                        call_native_s(st2, name, arity, fun, vs),
                    other_value => Outcome::Done(
                        st2,
                        Err(RunErrV::NotCallable { target: crate::expr::lit_type(other_value) }),
                    ),
                },
                Outcome::Done(st2, Err(er)) => Outcome::Done(st2, Err(er)),
                Outcome::Host => Outcome::Host,
            },
            other => other,
        },
    }
}

/// The big-step evaluation of a list of expressions, left to right.
pub open spec fn eval_exprs_s(st: InterpV, es: Seq<ExprV>, fuel: nat) -> Outcome<Seq<LitV>>
    decreases fuel, es, 2int,
{
    if es.len() == 0 {
        Outcome::Done(st, Ok(Seq::empty()))
    } else {
        match eval_expr_s(st, es.first(), fuel) {
            Outcome::Done(st1, Ok(v)) => match eval_exprs_s(st1, es.drop_first(), fuel) {
                Outcome::Done(st2, Ok(vs)) => Outcome::Done(st2, Ok(seq![v] + vs)),
                other => other,
            },
            Outcome::Done(st1, Err(er)) => Outcome::Done(st1, Err(er)),
            Outcome::Host => Outcome::Host,
        }
    }
}

/// The big-step execution of one statement: the state it leaves and how it
/// finished.
pub open spec fn exec_stmt_s(st: InterpV, s: StmtV, fuel: nat) -> Outcome<FlowV>
    decreases fuel, s, 1int,
{
    match s {
        StmtV::Expression { expr } => match eval_expr_s(st, expr, fuel) {
            Outcome::Done(st1, Ok(_)) => Outcome::Done(st1, Ok(FlowV::Normal)),
            Outcome::Done(st1, Err(er)) => Outcome::Done(st1, Err(er)),
            Outcome::Host => Outcome::Host,
        },
        StmtV::If { condition, then_branch, else_branch } => match eval_expr_s(
            st,
            condition,
            fuel,
        ) {
            Outcome::Done(st1, Ok(c)) => if lit_truthy(c) {
                exec_stmt_s(st1, *then_branch, fuel)
            } else {
                match else_branch {
                    Some(b) => exec_stmt_s(st1, *b, fuel),
                    None => Outcome::Done(st1, Ok(FlowV::Normal)),
                }
            },
            Outcome::Done(st1, Err(er)) => Outcome::Done(st1, Err(er)),
            Outcome::Host => Outcome::Host,
        },
        StmtV::Var { name, initializer } => match initializer {
            Some(e) => match eval_expr_s(st, e, fuel) {
                Outcome::Done(st1, Ok(v)) => Outcome::Done(
                    InterpV {
                        env: crate::environment::env_bind(st1.env, st1.cur, name.lexeme, v),
                        ..st1
                    },
                    Ok(FlowV::Normal),
                ),
                Outcome::Done(st1, Err(er)) => Outcome::Done(st1, Err(er)),
                Outcome::Host => Outcome::Host,
            },
            None => Outcome::Done(
                InterpV {
                    env: crate::environment::env_bind(st.env, st.cur, name.lexeme, LitV::Nil),
                    ..st
                },
                Ok(FlowV::Normal),
            ),
        },
        StmtV::While { condition, body } => match eval_expr_s(st, condition, fuel) {
            Outcome::Done(st1, Ok(c)) => if !lit_truthy(c) {
                Outcome::Done(st1, Ok(FlowV::Normal))
            } else if fuel == 0 {
                Outcome::Done(st1, Err(RunErrV::BudgetExhausted))
            } else {
                match exec_stmt_s(st1, *body, fuel) {
                    Outcome::Done(st2, Ok(FlowV::Normal)) => exec_stmt_s(
                        st2,
                        s,
                        (fuel - 1) as nat,
                    ),
                    other => other,
                }
            },
            Outcome::Done(st1, Err(er)) => Outcome::Done(st1, Err(er)),
            Outcome::Host => Outcome::Host,
        },
        StmtV::Block { statements } => {
            let opened = InterpV {
                env: crate::environment::EnvV {
                    frames: st.env.frames.push(
                        crate::environment::FrameV {
                            values: Seq::empty(),
                            enclosing: Some(st.cur),
                        },
                    ),
                    locals: st.env.locals,
                },
                cur: st.env.frames.len() as int,
                ..st
            };
            match exec_stmts_s(opened, statements, fuel) {
                Outcome::Done(st2, res) => Outcome::Done(InterpV { cur: st.cur, ..st2 }, res),
                Outcome::Host => Outcome::Host,
            }
        },
        StmtV::Function { name, params, body } => Outcome::Done(
            InterpV {
                env: crate::environment::env_bind(
                    st.env,
                    st.cur,
                    name.lexeme,
                    LitV::Callable(
                        CallV::LoxFunction {
                            name,
                            params,
                            arity: params.len(),
                            body,
                            environment: st.cur as nat,
                        },
                    ),
                ),
                ..st
            },
            Ok(FlowV::Normal),
        ),
        StmtV::Return { value } => match value {
            Some(e) => match eval_expr_s(st, e, fuel) {
                Outcome::Done(st1, Ok(v)) => Outcome::Done(st1, Ok(FlowV::Return(v))),
                Outcome::Done(st1, Err(er)) => Outcome::Done(st1, Err(er)),
                Outcome::Host => Outcome::Host,
            },
            None => Outcome::Done(st, Ok(FlowV::Return(LitV::Nil))),
        },
    }
}

/// The big-step execution of a statement list: statements run in order; a
/// pending return value or an error stops the list there.
pub open spec fn exec_stmts_s(st: InterpV, ss: Seq<StmtV>, fuel: nat) -> Outcome<FlowV>
    decreases fuel, ss, 0int,
{
    if ss.len() == 0 {
        Outcome::Done(st, Ok(FlowV::Normal))
    } else {
        match exec_stmt_s(st, ss.first(), fuel) {
            Outcome::Done(st1, Ok(FlowV::Normal)) => exec_stmts_s(st1, ss.drop_first(), fuel),
            other => other,
        }
    }
}

/// The environment with each parameter bound to its argument in `frame`,
/// first to last.
pub open spec fn bind_args_s(
    env: crate::environment::EnvV,
    frame: int,
    params: Seq<crate::token::TokenV>,
    args: Seq<LitV>,
) -> crate::environment::EnvV
    decreases params.len(),
{
    if params.len() == 0 || args.len() == 0 {
        env
    } else {
        bind_args_s(
            crate::environment::env_bind(env, frame, params.first().lexeme, args.first()),
            frame,
            params.drop_first(),
            args.drop_first(),
        )
    }
}

/// The big-step semantics of a user-function call: the argument count must
/// match the declared arity; a fresh frame enclosed by the closure's
/// captured frame is opened and the parameters bound in it; the body runs
/// there; the caller's frame is restored on every path; a pending return
/// value is the call's result, falling off the end yields nil.
pub open spec fn call_function_s(
    st: InterpV,
    name: crate::token::TokenV,
    params: Seq<crate::token::TokenV>,
    arity: nat,
    body: Seq<StmtV>,
    environment: int,
    args: Seq<LitV>,
    fuel: nat,
) -> Outcome<LitV>
    decreases fuel, body, 1int,
{
    if args.len() != arity {
        Outcome::Done(
            st,
            Err(
                RunErrV::ArityMismatch {
                    name: name.lexeme,
                    native: false,
                    expected: arity,
                    actual: args.len(),
                },
            ),
        )
    } else {
        let frame = st.env.frames.len() as int;
        let env1 = crate::environment::EnvV {
            frames: st.env.frames.push(
                crate::environment::FrameV {
                    values: Seq::empty(),
                    enclosing: Some(environment),
                },
            ),
            locals: st.env.locals,
        };
        let entered = InterpV { env: bind_args_s(env1, frame, params, args), cur: frame, ..st };
        match exec_stmts_s(entered, body, fuel) {
            Outcome::Done(st2, res) => {
                let restored = InterpV { cur: st.cur, ..st2 };
                match res {
                    Ok(FlowV::Return(v)) => Outcome::Done(restored, Ok(v)),
                    Ok(FlowV::Normal) => Outcome::Done(restored, Ok(LitV::Nil)),
                    Err(er) => Outcome::Done(restored, Err(er)),
                }
            },
            Outcome::Host => Outcome::Host,
        }
    }
}

/// The big-step semantics of a native call: the argument count must match
/// the declared arity; `parse` converts, `print` appends the stringified
/// argument to the output log, and the remaining natives consult the host.
pub open spec fn call_native_s(
    st: InterpV,
    name: Seq<char>,
    arity: nat,
    fun: NativeKind,
    args: Seq<LitV>,
) -> Outcome<LitV> {
    if args.len() != arity {
        Outcome::Done(
            st,
            Err(
                RunErrV::ArityMismatch {
                    name,
                    native: true,
                    expected: arity,
                    actual: args.len(),
                },
            ),
        )
    } else {
        match fun {
            NativeKind::Clock => Outcome::Host,
            NativeKind::Clear => Outcome::Host,
            NativeKind::Input => Outcome::Host,
            NativeKind::Parse => Outcome::Done(st, parse_result(args[0], args[1])),
            NativeKind::Print => Outcome::Done(
                InterpV { output: st.output.push(crate::expr::lit_str(args[0])), ..st },
                Ok(LitV::Nil),
            ),
        }
    }
}

/// A collected-values result by mathematical value.
pub open spec fn vals_res_view(r: Result<Vec<Literal>, RuntimeError>) -> Result<
    Seq<LitV>,
    RunErrV,
> {
    match r {
        Ok(vs) => Ok(lits_view(vs@)),
        Err(e) => Err(e@),
    }
}

/// The outcome of a list evaluation with `vs` already collected in front.
pub open spec fn prepend_vals(vs: Seq<LitV>, o: Outcome<Seq<LitV>>) -> Outcome<Seq<LitV>> {
    match o {
        Outcome::Done(st, Ok(rest)) => Outcome::Done(st, Ok(vs + rest)),
        Outcome::Done(st, Err(er)) => Outcome::Done(st, Err(er)),
        Outcome::Host => Outcome::Host,
    }
}

/// Prepending nothing changes nothing.
proof fn lemma_prepend_nil(o: Outcome<Seq<LitV>>)
    ensures
        prepend_vals(Seq::empty(), o) == o,
{
    match o {
        Outcome::Done(st, res) => match res {
            Ok(rest) => {
                assert(Seq::<LitV>::empty() + rest =~= rest);
            },
            Err(_) => {},
        },
        Outcome::Host => {},
    }
}

/// Prepending composes.
proof fn lemma_prepend_snoc(vs: Seq<LitV>, v: LitV, o: Outcome<Seq<LitV>>)
    ensures
        prepend_vals(vs, prepend_vals(seq![v], o)) == prepend_vals(vs.push(v), o),
{
    match o {
        Outcome::Done(st, res) => match res {
            Ok(rest) => {
                assert(vs + (seq![v] + rest) =~= vs.push(v) + rest);
            },
            Err(_) => {},
        },
        Outcome::Host => {},
    }
}

/// The view of a list grows element by element.
proof fn lemma_lits_view_push(s: Seq<Literal>, v: Literal)
    ensures
        lits_view(s.push(v)) == lits_view(s).push(crate::expr::lit_view(v)),
{
    assert(s.push(v).drop_last() =~= s);
    assert(s.push(v).last() == v);
}

impl Interpreter {
    /// A fresh interpreter: the root scope holding the natives, the root
    /// frame current, no output yet.
    pub fn new() -> (r: Self)
        ensures
            interp_wf(r@),
            r@.cur == 0,
            r@.env.frames.len() == 1,
            r@.env.locals.len() == 0,
            r@.output.len() == 0,
    {
        let r = Interpreter {
            environment: Environment::new(Vec::new()),
            cur: 0,
            output: Vec::new(),
        };
        proof {
            assert(r@.env.locals =~= Seq::<Option<int>>::empty());
            assert(r@.output =~= Seq::<Seq<char>>::empty());
        }
        r
    }

    /// An interpreter over an existing environment: its root frame current,
    /// no output yet.
    pub fn new_with_env(environment: Environment) -> (r: Self)
        requires
            env_wf(environment@),
        ensures
            r@.env == environment@,
            r@.cur == 0,
            r@.output.len() == 0,
            interp_wf(r@),
    {
        let r = Interpreter { environment, cur: 0, output: Vec::new() };
        proof {
            assert(r@.output =~= Seq::<Seq<char>>::empty());
        }
        r
    }

    /// Merges a resolver's depth map into the environment: every recorded
    /// depth replaces what was there; unrecorded indices keep their old
    /// entry.
    pub fn resolve(&mut self, locals: &Vec<Option<usize>>)
        ensures
            final(self)@.env.frames == old(self)@.env.frames,
            final(self)@.cur == old(self)@.cur,
            final(self)@.output == old(self)@.output,
            forall|j: int| 0 <= j < locals@.len() && locals@[j] is Some
                ==> depth_of(final(self)@.env, j) == Some(locals@[j]->0 as int),
            forall|j: int| !(0 <= j < locals@.len() && locals@[j] is Some)
                ==> depth_of(final(self)@.env, j) == depth_of(old(self)@.env, j),
            interp_wf(old(self)@) ==> interp_wf(final(self)@),
    {
        let ghost pre = self@;
        let mut i: usize = 0;
        while i < locals.len()
            invariant
                i <= locals@.len(),
                self@.env.frames == pre.env.frames,
                self@.cur == pre.cur,
                self@.output == pre.output,
                forall|j: int| 0 <= j < i && locals@[j] is Some
                    ==> depth_of(self@.env, j) == Some(locals@[j]->0 as int),
                forall|j: int| !(0 <= j < i && locals@[j] is Some)
                    ==> depth_of(self@.env, j) == depth_of(pre.env, j),
                pre == old(self)@,
            decreases locals@.len() - i,
        {
            match locals[i] {
                Some(d) => {
                    self.environment.resolve(i, d);
                },
                None => {},
            }
            i += 1;
        }
    }

    /// Executes a statement list in order against the current frame.  A
    /// pending return value short-circuits the remaining statements.  The
    /// result and the final state are exactly what [`exec_stmts_s`]
    /// computes, whenever that semantics does not consult the host.
    pub fn interpret<H: Host>(
        &mut self,
        statements: &Vec<Stmt>,
        host: &mut H,
        fuel: u64,
    ) -> (r: Result<Flow, RuntimeError>)
        requires
            interp_wf(old(self)@),
            forall|i: int| 0 <= i < statements@.len()
                ==> stmt_wf((#[trigger] statements@[i])@, old(self)@.env.frames.len() as int),
        ensures
            eval_post(old(self)@, final(self)@),
            r matches Ok(Flow::Return(v))
                ==> lit_wf(v@, final(self)@.env.frames.len() as int),
            statements@.len() == 0 ==> r == Ok::<Flow, RuntimeError>(Flow::Normal)
                && final(self)@ == old(self)@,
            exec_stmts_s(old(self)@, stmts_view(statements@), fuel as nat) matches Outcome::Done(
                st,
                res,
            ) ==> final(self)@ == st && flow_res_view(r) == res,
        decreases fuel, *statements, 0int,
    {
        let ghost pre = self@;
        let ghost whole = stmts_view(statements@);
        proof {
            lemma_evolution_refl(pre);
            lemma_stmts_view_len(statements@);
            assert(whole.skip(0) =~= whole);
        }
        if statements.len() == 0 {
            return Ok(Flow::Normal);
        }
        let mut i: usize = 0;
        while i < statements.len()
            invariant
                i <= statements@.len(),
                pre == old(self)@,
                interp_wf(pre),
                whole == stmts_view(statements@),
                whole.len() == statements@.len(),
                forall|k: int| 0 <= k < statements@.len()
                    ==> whole[k] == (#[trigger] statements@[k])@,
                forall|k: int| 0 <= k < statements@.len()
                    ==> stmt_wf((#[trigger] statements@[k])@, pre.env.frames.len() as int),
                interp_wf(self@),
                evolution(pre, self@),
                self@.cur == pre.cur,
                exec_stmts_s(pre, whole, fuel as nat) == Outcome::<FlowV>::Host
                    || exec_stmts_s(pre, whole, fuel as nat) == exec_stmts_s(
                    self@,
                    whole.skip(i as int),
                    fuel as nat,
                ),
            decreases statements@.len() - i,
        {
            let ghost mid = self@;
            proof {
                lemma_stmt_wf_mono(
                    statements@[i as int]@,
                    pre.env.frames.len() as int,
                    mid.env.frames.len() as int,
                );
            }
            let flow = self.execute(&statements[i], host, fuel);
            proof {
                lemma_evolution_trans(pre, mid, self@);
                let rest = whole.skip(i as int);
                assert(rest.first() == whole[i as int]);
                assert(whole[i as int] == statements@[i as int]@);
                assert(rest.drop_first() =~= whole.skip(i as int + 1));
            }
            match flow {
                Ok(Flow::Normal) => {},
                Ok(Flow::Return(v)) => {
                    return Ok(Flow::Return(v));
                },
                Err(e) => {
                    return Err(e);
                },
            }
            i += 1;
        }
        proof {
            assert(whole.skip(statements@.len() as int) =~= Seq::<StmtV>::empty());
        }
        Ok(Flow::Normal)
    }

    /// Executes one statement against the current frame.
    fn execute<H: Host>(&mut self, statement: &Stmt, host: &mut H, fuel: u64) -> (r: Result<
        Flow,
        RuntimeError,
    >)
        requires
            interp_wf(old(self)@),
            stmt_wf(statement@, old(self)@.env.frames.len() as int),
        ensures
            eval_post(old(self)@, final(self)@),
            r matches Ok(Flow::Return(v))
                ==> lit_wf(v@, final(self)@.env.frames.len() as int),
            statement@ matches StmtV::Function { name, params, body } ==> (r matches Ok(
                Flow::Normal,
            )) && final(self)@ == (InterpV {
                env: crate::environment::env_bind(
                    old(self)@.env,
                    old(self)@.cur,
                    name.lexeme,
                    LitV::Callable(
                        CallV::LoxFunction {
                            name,
                            params,
                            arity: params.len(),
                            body,
                            environment: old(self)@.cur as nat,
                        },
                    ),
                ),
                ..old(self)@
            }),
            statement@ matches StmtV::Var { name, initializer: None } ==> (r matches Ok(
                Flow::Normal,
            )) && final(self)@ == (InterpV {
                env: crate::environment::env_bind(
                    old(self)@.env,
                    old(self)@.cur,
                    name.lexeme,
                    LitV::Nil,
                ),
                ..old(self)@
            }),
            statement@ matches StmtV::Return { value: None } ==> r == Ok::<
                Flow,
                RuntimeError,
            >(Flow::Return(Literal::Nil)) && final(self)@ == old(self)@,
            exec_stmt_s(old(self)@, statement@, fuel as nat) matches Outcome::Done(st, res)
                ==> final(self)@ == st && flow_res_view(r) == res,
        decreases fuel, *statement, 1int,
    {
        let ghost pre = self@;
        proof {
            lemma_evolution_refl(pre);
        }
        match statement {
            Stmt::Expression { expr } => {
                match expr.evaluate(self, host, fuel) {
                    Ok(_) => Ok(Flow::Normal),
                    Err(e) => Err(e),
                }
            },
            Stmt::If { condition, then_branch, else_branch } => {
                let cond = match condition.evaluate(self, host, fuel) {
                    Ok(v) => v,
                    Err(e) => {
                        return Err(e);
                    },
                };
                let ghost mid = self@;
                if cond.is_truthy() {
                    proof {
                        lemma_stmt_wf_mono(
                            then_branch@,
                            pre.env.frames.len() as int,
                            mid.env.frames.len() as int,
                        );
                    }
                    let flow = self.execute(then_branch, host, fuel);
                    proof {
                        lemma_evolution_trans(pre, mid, self@);
                    }
                    flow
                } else {
                    match else_branch {
                        Some(b) => {
                            proof {
                                lemma_stmt_wf_mono(
                                    b@,
                                    pre.env.frames.len() as int,
                                    mid.env.frames.len() as int,
                                );
                            }
                            let flow = self.execute(b, host, fuel);
                            proof {
                                lemma_evolution_trans(pre, mid, self@);
                            }
                            flow
                        },
                        None => Ok(Flow::Normal),
                    }
                }
            },
            Stmt::Var { name, initializer } => {
                match initializer {
                    Some(e) => {
                        let value = match e.evaluate(self, host, fuel) {
                            Ok(v) => v,
                            Err(er) => {
                                return Err(er);
                            },
                        };
                        let ghost mid = self@;
                        let frame = self.cur;
                        self.environment.define(frame, name.lexeme.clone(), value);
                        proof {
                            assert(self@ == (InterpV {
                                env: crate::environment::env_bind(
                                    mid.env,
                                    mid.cur,
                                    name@.lexeme,
                                    value@,
                                ),
                                ..mid
                            }));
                        }
                        Ok(Flow::Normal)
                    },
                    None => {
                        let ghost mid = self@;
                        let frame = self.cur;
                        self.environment.define(frame, name.lexeme.clone(), Literal::Nil);
                        proof {
                            assert(self@ == (InterpV {
                                env: crate::environment::env_bind(
                                    mid.env,
                                    mid.cur,
                                    name@.lexeme,
                                    LitV::Nil,
                                ),
                                ..mid
                            }));
                        }
                        Ok(Flow::Normal)
                    },
                }
            },
            Stmt::While { condition, body } => {
                let cond = match condition.evaluate(self, host, fuel) {
                    Ok(v) => v,
                    Err(e) => {
                        return Err(e);
                    },
                };
                if !cond.is_truthy() {
                    return Ok(Flow::Normal);
                }
                if fuel == 0 {
                    return Err(RuntimeError::BudgetExhausted);
                }
                let ghost mid = self@;
                proof {
                    lemma_stmt_wf_mono(
                        body@,
                        pre.env.frames.len() as int,
                        mid.env.frames.len() as int,
                    );
                }
                let flow = self.execute(body, host, fuel);
                proof {
                    lemma_evolution_trans(pre, mid, self@);
                }
                match flow {
                    Ok(Flow::Normal) => {},
                    Ok(Flow::Return(v)) => {
                        return Ok(Flow::Return(v));
                    },
                    Err(e) => {
                        return Err(e);
                    },
                }
                let ghost mid2 = self@;
                proof {
                    lemma_stmt_wf_mono(
                        statement@,
                        pre.env.frames.len() as int,
                        mid2.env.frames.len() as int,
                    );
                }
                let flow2 = self.execute(statement, host, fuel - 1);
                proof {
                    lemma_evolution_trans(pre, mid2, self@);
                }
                flow2
            },
            Stmt::Block { statements } => {
                let saved = self.cur;
                let frame = self.environment.enclose(saved);
                self.cur = frame;
                let ghost opened = self@;
                proof {
                    assert(evolution(pre, opened));
                    assert(statement@ == (StmtV::Block { statements: stmts_view(statements@) }));
                    crate::stmt::lemma_block_stmts_wf(
                        stmts_view(statements@),
                        pre.env.frames.len() as int,
                    );
                    lemma_stmts_view_len(statements@);
                    assert forall|k: int| 0 <= k < statements@.len()
                        implies stmt_wf(
                        (#[trigger] statements@[k])@,
                        opened.env.frames.len() as int,
                    ) by {
                        assert(stmts_view(statements@)[k] == statements@[k]@);
                        assert(stmt_wf(stmts_view(statements@)[k], pre.env.frames.len() as int));
                        lemma_stmt_wf_mono(
                            statements@[k]@,
                            pre.env.frames.len() as int,
                            opened.env.frames.len() as int,
                        );
                    }
                }
                proof {
                    assert(opened == (InterpV {
                        env: crate::environment::EnvV {
                            frames: pre.env.frames.push(
                                crate::environment::FrameV {
                                    values: Seq::empty(),
                                    enclosing: Some(pre.cur),
                                },
                            ),
                            locals: pre.env.locals,
                        },
                        cur: pre.env.frames.len() as int,
                        ..pre
                    }));
                }
                let flow = self.interpret(statements, host, fuel);
                self.cur = saved;
                proof {
                    lemma_evolution_trans(pre, opened, self@);
                    match exec_stmts_s(opened, stmts_view(statements@), fuel as nat) {
                        Outcome::Done(st2, res) => {
                            assert(self@ == (InterpV { cur: pre.cur, ..st2 }));
                        },
                        Outcome::Host => {},
                    }
                }
                flow
            },
            Stmt::Function { name, params, body } => {
                let arity = params.len();
                let value = Literal::Callable(Callables::LoxFunction {
                    name: name.clone(),
                    params: clone_tokens(params),
                    arity,
                    body: clone_stmts(body),
                    environment: self.cur,
                });
                proof {
                    lemma_stmts_view_len(body@);
                    assert(statement@ == (StmtV::Function {
                        name: name@,
                        params: tokens_view(params@),
                        body: stmts_view(body@),
                    }));
                    assert(crate::stmt::stmts_wf(
                        stmts_view(body@),
                        pre.env.frames.len() as int,
                    ));
                    assert(lit_wf(value@, self@.env.frames.len() as int));
                }
                let frame = self.cur;
                self.environment.define(frame, name.lexeme.clone(), value);
                Ok(Flow::Normal)
            },
            Stmt::Return { value } => {
                match value {
                    Some(e) => {
                        let v = match e.evaluate(self, host, fuel) {
                            Ok(v) => v,
                            Err(er) => {
                                return Err(er);
                            },
                        };
                        Ok(Flow::Return(v))
                    },
                    None => Ok(Flow::Return(Literal::Nil)),
                }
            },
        }
    }
}

impl Expr {
    /// Evaluates this expression against the interpreter's current frame.
    /// The result and the final state are exactly what [`eval_expr_s`]
    /// computes, whenever that semantics does not consult the host.
    pub fn evaluate<H: Host>(&self, it: &mut Interpreter, host: &mut H, fuel: u64) -> (r: Result<
        Literal,
        RuntimeError,
    >)
        requires
            interp_wf(old(it)@),
            expr_wf(self@, old(it)@.env.frames.len() as int),
        ensures
            eval_post(old(it)@, final(it)@),
            r matches Ok(v) ==> lit_wf(v@, final(it)@.env.frames.len() as int),
            self@ matches ExprV::Literal { literal } ==> final(it)@ == old(it)@
                && (r matches Ok(v) && v@ == literal),
            self@ matches ExprV::Variable { index, name } ==> final(it)@ == old(it)@
                && crate::expr::lit_res_view(r) == crate::environment::env_get(
                old(it)@.env,
                old(it)@.cur,
                name.lexeme,
                index as int,
            ),
            eval_expr_s(old(it)@, self@, fuel as nat) matches Outcome::Done(st, res)
                ==> final(it)@ == st && crate::expr::lit_res_view(r) == res,
        decreases fuel, *self, 1int,
    {
        let ghost pre = it@;
        proof {
            lemma_evolution_refl(pre);
        }
        match self {
            Expr::Literal { literal } => Ok(clone_literal(literal)),
            Expr::Grouping { expr } => expr.evaluate(it, host, fuel),
            Expr::Unary { .. } => self.evaluate_unary(it, host, fuel),
            Expr::Binary { .. } => self.evaluate_binary(it, host, fuel),
            Expr::Variable { name, index } => {
                let from = it.cur;
                it.environment.get(from, &name.lexeme, *index)
            },
            Expr::Assignment { .. } => self.evaluate_assignment(it, host, fuel),
            Expr::Array { .. } => self.evaluate_array(it, host, fuel),
            Expr::Access { .. } => self.evaluate_access(it, host, fuel),
            Expr::Logical { .. } => self.evaluate_logical(it, host, fuel),
            Expr::Call { .. } => self.evaluate_call(it, host, fuel),
        }
    }

    fn evaluate_unary<H: Host>(&self, it: &mut Interpreter, host: &mut H, fuel: u64) -> (r:
        Result<Literal, RuntimeError>)
        requires
            interp_wf(old(it)@),
            expr_wf(self@, old(it)@.env.frames.len() as int),
            self@ matches ExprV::Unary { .. },
        ensures
            eval_post(old(it)@, final(it)@),
            r matches Ok(v) ==> lit_wf(v@, final(it)@.env.frames.len() as int),
            eval_expr_s(old(it)@, self@, fuel as nat) matches Outcome::Done(st, res)
                ==> final(it)@ == st && crate::expr::lit_res_view(r) == res,
        decreases fuel, *self, 0int,
    {
        match self {
            Expr::Unary { operator, right } => {
                let v = match right.evaluate(it, host, fuel) {
                    Ok(v) => v,
                    Err(e) => {
                        return Err(e);
                    },
                };
                let r = apply_unary(operator.token_type, &v);
                proof {
                    lemma_unary_result_wf(
                        operator.token_type,
                        v@,
                        it@.env.frames.len() as int,
                    );
                }
                r
            },
            _ => Err(RuntimeError::Internal),
        }
    }

    fn evaluate_binary<H: Host>(&self, it: &mut Interpreter, host: &mut H, fuel: u64) -> (r:
        Result<Literal, RuntimeError>)
        requires
            interp_wf(old(it)@),
            expr_wf(self@, old(it)@.env.frames.len() as int),
            self@ matches ExprV::Binary { .. },
        ensures
            eval_post(old(it)@, final(it)@),
            r matches Ok(v) ==> lit_wf(v@, final(it)@.env.frames.len() as int),
            eval_expr_s(old(it)@, self@, fuel as nat) matches Outcome::Done(st, res)
                ==> final(it)@ == st && crate::expr::lit_res_view(r) == res,
        decreases fuel, *self, 0int,
    {
        let ghost pre = it@;
        match self {
            Expr::Binary { left, operator, right } => {
                let a = match left.evaluate(it, host, fuel) {
                    Ok(v) => v,
                    Err(e) => {
                        return Err(e);
                    },
                };
                let ghost mid = it@;
                proof {
                    lemma_expr_wf_mono(
                        right@,
                        pre.env.frames.len() as int,
                        mid.env.frames.len() as int,
                    );
                }
                let b = match right.evaluate(it, host, fuel) {
                    Ok(v) => v,
                    Err(e) => {
                        proof {
                            lemma_evolution_trans(pre, mid, it@);
                        }
                        return Err(e);
                    },
                };
                proof {
                    lemma_evolution_trans(pre, mid, it@);
                }
                let r = apply_binary(operator.token_type, &a, &b);
                proof {
                    lemma_binary_result_wf(
                        operator.token_type,
                        a@,
                        b@,
                        it@.env.frames.len() as int,
                    );
                }
                r
            },
            _ => Err(RuntimeError::Internal),
        }
    }

    fn evaluate_logical<H: Host>(&self, it: &mut Interpreter, host: &mut H, fuel: u64) -> (r:
        Result<Literal, RuntimeError>)
        requires
            interp_wf(old(it)@),
            expr_wf(self@, old(it)@.env.frames.len() as int),
            self@ matches ExprV::Logical { .. },
        ensures
            eval_post(old(it)@, final(it)@),
            r matches Ok(v) ==> lit_wf(v@, final(it)@.env.frames.len() as int),
            eval_expr_s(old(it)@, self@, fuel as nat) matches Outcome::Done(st, res)
                ==> final(it)@ == st && crate::expr::lit_res_view(r) == res,
        decreases fuel, *self, 0int,
    {
        let ghost pre = it@;
        match self {
            Expr::Logical { left, operator, right } => {
                let a = match left.evaluate(it, host, fuel) {
                    Ok(v) => v,
                    Err(e) => {
                        return Err(e);
                    },
                };
                let take_left = if operator.token_type == crate::token::TokenType::Or {
                    a.is_truthy()
                } else {
                    !a.is_truthy()
                };
                if take_left {
                    return Ok(a);
                }
                let ghost mid = it@;
                proof {
                    lemma_expr_wf_mono(
                        right@,
                        pre.env.frames.len() as int,
                        mid.env.frames.len() as int,
                    );
                }
                let b = right.evaluate(it, host, fuel);
                proof {
                    lemma_evolution_trans(pre, mid, it@);
                }
                b
            },
            _ => Err(RuntimeError::Internal),
        }
    }

    fn evaluate_array<H: Host>(&self, it: &mut Interpreter, host: &mut H, fuel: u64) -> (r:
        Result<Literal, RuntimeError>)
        requires
            interp_wf(old(it)@),
            expr_wf(self@, old(it)@.env.frames.len() as int),
            self@ matches ExprV::Array { .. },
        ensures
            eval_post(old(it)@, final(it)@),
            r matches Ok(v) ==> lit_wf(v@, final(it)@.env.frames.len() as int),
            eval_expr_s(old(it)@, self@, fuel as nat) matches Outcome::Done(st, res)
                ==> final(it)@ == st && crate::expr::lit_res_view(r) == res,
        decreases fuel, *self, 0int,
    {
        let ghost pre = it@;
        proof {
            lemma_evolution_refl(pre);
        }
        match self {
            Expr::Array { elements } => {
                proof {
                    lemma_exprs_view_len(elements@);
                    assert(self@ == (ExprV::Array { elements: exprs_view(elements@) }));
                    crate::expr::lemma_array_elements_wf(
                        exprs_view(elements@),
                        pre.env.frames.len() as int,
                    );
                    assert forall|k: int| 0 <= k < elements@.len()
                        implies expr_wf(
                        (#[trigger] elements@[k])@,
                        pre.env.frames.len() as int,
                    ) by {
                        assert(exprs_view(elements@)[k] == elements@[k]@);
                        assert(expr_wf(exprs_view(elements@)[k], pre.env.frames.len() as int));
                    }
                }
                let collected = match evaluate_list(elements, it, host, fuel) {
                    Ok(vs) => vs,
                    Err(e) => {
                        return Err(e);
                    },
                };
                proof {
                    lemma_lits_view_len(collected@);
                    crate::expr::lemma_lits_wf_pointwise(
                        lits_view(collected@),
                        it@.env.frames.len() as int,
                    );
                    assert forall|k: int| 0 <= k < lits_view(collected@).len()
                        implies lit_wf(
                        #[trigger] lits_view(collected@)[k],
                        it@.env.frames.len() as int,
                    ) by {
                        assert(lits_view(collected@)[k] == collected@[k]@);
                    }
                }
                Ok(Literal::Array(collected))
            },
            _ => Err(RuntimeError::Internal),
        }
    }

    fn evaluate_access<H: Host>(&self, it: &mut Interpreter, host: &mut H, fuel: u64) -> (r:
        Result<Literal, RuntimeError>)
        requires
            interp_wf(old(it)@),
            expr_wf(self@, old(it)@.env.frames.len() as int),
            self@ matches ExprV::Access { .. },
        ensures
            eval_post(old(it)@, final(it)@),
            r matches Ok(v) ==> lit_wf(v@, final(it)@.env.frames.len() as int),
            eval_expr_s(old(it)@, self@, fuel as nat) matches Outcome::Done(st, res)
                ==> final(it)@ == st && crate::expr::lit_res_view(r) == res,
        decreases fuel, *self, 0int,
    {
        match self {
            Expr::Access { name, position, index } => {
                let pos = match position.evaluate(it, host, fuel) {
                    Ok(v) => v,
                    Err(e) => {
                        return Err(e);
                    },
                };
                let from = it.cur;
                let target = match it.environment.get(from, &name.lexeme, *index) {
                    Ok(v) => v,
                    Err(e) => {
                        return Err(e);
                    },
                };
                let r = index_read(&target, &pos);
                proof {
                    lemma_index_read_wf(target@, pos@, it@.env.frames.len() as int);
                }
                r
            },
            _ => Err(RuntimeError::Internal),
        }
    }

    fn evaluate_assignment<H: Host>(&self, it: &mut Interpreter, host: &mut H, fuel: u64) -> (r:
        Result<Literal, RuntimeError>)
        requires
            interp_wf(old(it)@),
            expr_wf(self@, old(it)@.env.frames.len() as int),
            self@ matches ExprV::Assignment { .. },
        ensures
            eval_post(old(it)@, final(it)@),
            r matches Ok(v) ==> lit_wf(v@, final(it)@.env.frames.len() as int),
            eval_expr_s(old(it)@, self@, fuel as nat) matches Outcome::Done(st, res)
                ==> final(it)@ == st && crate::expr::lit_res_view(r) == res,
        decreases fuel, *self, 0int,
    {
        let ghost pre = it@;
        match self {
            Expr::Assignment { name, value, position, index } => {
                let v = match value.evaluate(it, host, fuel) {
                    Ok(v) => v,
                    Err(e) => {
                        return Err(e);
                    },
                };
                match position {
                    Some(p) => {
                        let ghost mid = it@;
                        proof {
                            lemma_expr_wf_mono(
                                p@,
                                pre.env.frames.len() as int,
                                mid.env.frames.len() as int,
                            );
                        }
                        let pos = match p.evaluate(it, host, fuel) {
                            Ok(v) => v,
                            Err(e) => {
                                proof {
                                    lemma_evolution_trans(pre, mid, it@);
                                }
                                return Err(e);
                            },
                        };
                        proof {
                            lemma_evolution_trans(pre, mid, it@);
                            lemma_lit_wf_mono(
                                v@,
                                mid.env.frames.len() as int,
                                it@.env.frames.len() as int,
                            );
                        }
                        let from = it.cur;
                        let target = match it.environment.get(from, &name.lexeme, *index) {
                            Ok(t) => t,
                            Err(e) => {
                                return Err(e);
                            },
                        };
                        proof {
                            lemma_index_assign_wf(
                                target@,
                                pos@,
                                v@,
                                it@.env.frames.len() as int,
                            );
                        }
                        let updated = match index_assign(target, &pos, v) {
                            Ok(u) => u,
                            Err(e) => {
                                return Err(e);
                            },
                        };
                        let result = clone_literal(&updated);
                        match it.environment.assign(from, &name.lexeme, updated, *index) {
                            Ok(()) => Ok(result),
                            Err(e) => Err(e),
                        }
                    },
                    None => {
                        let from = it.cur;
                        let result = clone_literal(&v);
                        match it.environment.assign(from, &name.lexeme, v, *index) {
                            Ok(()) => Ok(result),
                            Err(e) => Err(e),
                        }
                    },
                }
            },
            _ => Err(RuntimeError::Internal),
        }
    }

    fn evaluate_call<H: Host>(&self, it: &mut Interpreter, host: &mut H, fuel: u64) -> (r:
        Result<Literal, RuntimeError>)
        requires
            interp_wf(old(it)@),
            expr_wf(self@, old(it)@.env.frames.len() as int),
            self@ matches ExprV::Call { .. },
        ensures
            eval_post(old(it)@, final(it)@),
            r matches Ok(v) ==> lit_wf(v@, final(it)@.env.frames.len() as int),
            eval_expr_s(old(it)@, self@, fuel as nat) matches Outcome::Done(st, res)
                ==> final(it)@ == st && crate::expr::lit_res_view(r) == res,
        decreases fuel, *self, 0int,
    {
        let ghost pre = it@;
        proof {
            lemma_evolution_refl(pre);
        }
        match self {
            Expr::Call { callee, paren, args } => {
                let callable = match callee.evaluate(it, host, fuel) {
                    Ok(v) => v,
                    Err(e) => {
                        return Err(e);
                    },
                };
                let ghost after_callee = it@;
                proof {
                    lemma_exprs_view_len(args@);
                    assert(self@ == (ExprV::Call {
                        callee: Box::new(callee@),
                        paren: paren@,
                        args: exprs_view(args@),
                    }));
                    crate::expr::lemma_call_parts_wf(
                        Box::new(callee@),
                        paren@,
                        exprs_view(args@),
                        pre.env.frames.len() as int,
                    );
                    assert forall|k: int| 0 <= k < args@.len()
                        implies expr_wf(
                        (#[trigger] args@[k])@,
                        after_callee.env.frames.len() as int,
                    ) by {
                        assert(exprs_view(args@)[k] == args@[k]@);
                        assert(expr_wf(exprs_view(args@)[k], pre.env.frames.len() as int));
                        lemma_expr_wf_mono(
                            args@[k]@,
                            pre.env.frames.len() as int,
                            after_callee.env.frames.len() as int,
                        );
                    }
                }
                let arguments = match evaluate_list(args, it, host, fuel) {
                    Ok(vs) => vs,
                    Err(e) => {
                        proof {
                            lemma_evolution_trans(pre, after_callee, it@);
                        }
                        return Err(e);
                    },
                };
                let ghost before_call = it@;
                proof {
                    lemma_evolution_trans(pre, after_callee, before_call);
                    lemma_lit_wf_mono(
                        callable@,
                        after_callee.env.frames.len() as int,
                        before_call.env.frames.len() as int,
                    );
                }
                let ghost cv = callable@;
                match callable {
                    Literal::Callable(Callables::LoxFunction {
                        name,
                        params,
                        arity,
                        body,
                        environment,
                    }) => {
                        proof {
                            assert(cv == LitV::Callable(CallV::LoxFunction {
                                name: name@,
                                params: tokens_view(params@),
                                arity: arity as nat,
                                body: stmts_view(body@),
                                environment: environment as nat,
                            }));
                            crate::callable::lemma_lox_function_wf(
                                name@,
                                tokens_view(params@),
                                arity as nat,
                                stmts_view(body@),
                                environment as nat,
                                before_call.env.frames.len() as int,
                            );
                            lemma_stmts_view_len(body@);
                            assert forall|k: int| 0 <= k < body@.len()
                                implies stmt_wf(
                                (#[trigger] body@[k])@,
                                before_call.env.frames.len() as int,
                            ) by {
                                assert(stmts_view(body@)[k] == body@[k]@);
                                assert(stmt_wf(
                                    stmts_view(body@)[k],
                                    before_call.env.frames.len() as int,
                                ));
                            }
                        }
                        if fuel == 0 {
                            return Err(RuntimeError::BudgetExhausted);
                        }
                        let flow = call_function(
                            it,
                            host,
                            &name,
                            &params,
                            arity,
                            &body,
                            environment,
                            arguments,
                            fuel - 1,
                        );
                        proof {
                            lemma_evolution_trans(pre, before_call, it@);
                        }
                        flow
                    },
                    Literal::Callable(Callables::NativeFunction { name, arity, fun }) => {
                        proof {
                            assert(cv == LitV::Callable(CallV::NativeFunction {
                                name: name@,
                                arity: arity as nat,
                                fun,
                            }));
                            assert(arity as nat == native_arity(fun));
                        }
                        let r = call_native(it, host, &name, arity, fun, arguments);
                        proof {
                            lemma_evolution_trans(pre, before_call, it@);
                        }
                        r
                    },
                    other => Err(RuntimeError::NotCallable { target: crate::expr::lit_type_of(
                        &other,
                    ) }),
                }
            },
            _ => Err(RuntimeError::Internal),
        }
    }
}

/// Runs a piece of source text through the whole pipeline — scanner,
/// parser, resolver, evaluator — against an existing interpreter, so
/// top-level declarations persist between runs.  A lexical, syntax or
/// resolution error is reported before any evaluation begins and leaves the
/// interpreter exactly as it was: in particular a program whose resolution
/// fails — such as a variable read in its own initializer — never reaches
/// evaluation.
pub fn run<H: Host>(
    src: &str,
    interpreter: &mut Interpreter,
    host: &mut H,
    budget: u64,
) -> (r: Result<(), LoxError>)
    requires
        interp_wf(old(interpreter)@),
    ensures
        interp_wf(final(interpreter)@),
        final(interpreter)@.cur == old(interpreter)@.cur,
        final(interpreter)@.env.frames.len() >= old(interpreter)@.env.frames.len(),
        old(interpreter)@.output.is_prefix_of(final(interpreter)@.output),
        r matches Err(LoxError::Scan(_)) ==> final(interpreter)@ == old(interpreter)@,
        r matches Err(LoxError::Parse(_)) ==> final(interpreter)@ == old(interpreter)@,
        r matches Err(LoxError::Resolve(_)) ==> final(interpreter)@ == old(interpreter)@,
{
    proof {
        lemma_evolution_refl(old(interpreter)@);
    }
    let mut scanner = crate::scanner::Scanner::new(src);
    let tokens = match scanner.scan_tokens() {
        Ok(t) => t,
        Err(e) => {
            return Err(LoxError::Scan(e));
        },
    };
    let mut parser = crate::parser::Parser::new(tokens);
    let statements = match parser.parse() {
        Ok(s) => s,
        Err(errors) => {
            return Err(LoxError::Parse(errors));
        },
    };
    let mut resolver = crate::resolver::Resolver::new();
    let locals = match resolver.resolve(&statements) {
        Ok(l) => l,
        Err(e) => {
            return Err(LoxError::Resolve(e));
        },
    };
    interpreter.resolve(&locals);
    proof {
        assert forall|i: int| 0 <= i < statements@.len()
            implies stmt_wf(
            (#[trigger] statements@[i])@,
            interpreter@.env.frames.len() as int,
        ) by {
            assert(stmt_wf(statements@[i]@, interpreter@.env.frames.len() as int));
        }
    }
    match interpreter.interpret(&statements, host, budget) {
        Ok(_) => Ok(()),
        Err(e) => Err(LoxError::Runtime(e)),
    }
}

/// Evaluates a list of expressions left to right, collecting the values.
fn evaluate_list<H: Host>(
    exprs: &Vec<Expr>,
    it: &mut Interpreter,
    host: &mut H,
    fuel: u64,
) -> (r: Result<Vec<Literal>, RuntimeError>)
    requires
        interp_wf(old(it)@),
        forall|k: int| 0 <= k < exprs@.len()
            ==> expr_wf((#[trigger] exprs@[k])@, old(it)@.env.frames.len() as int),
    ensures
        eval_post(old(it)@, final(it)@),
        r matches Ok(vs) ==> vs@.len() == exprs@.len() && forall|k: int|
            0 <= k < vs@.len() ==> lit_wf(
                (#[trigger] vs@[k])@,
                final(it)@.env.frames.len() as int,
            ),
        eval_exprs_s(old(it)@, exprs_view(exprs@), fuel as nat) matches Outcome::Done(st, res)
            ==> final(it)@ == st && vals_res_view(r) == res,
    decreases fuel, *exprs, 1int,
{
    let ghost pre = it@;
    let ghost whole = exprs_view(exprs@);
    proof {
        lemma_evolution_refl(pre);
        lemma_exprs_view_len(exprs@);
        assert(whole.skip(0) =~= whole);
        lemma_prepend_nil(eval_exprs_s(pre, whole, fuel as nat));
        assert(lits_view(Seq::<Literal>::empty()) =~= Seq::<LitV>::empty());
    }
    let mut collected: Vec<Literal> = Vec::new();
    let mut i: usize = 0;
    while i < exprs.len()
        invariant
            i <= exprs@.len(),
            collected@.len() == i,
            pre == old(it)@,
            interp_wf(pre),
            whole == exprs_view(exprs@),
            whole.len() == exprs@.len(),
            forall|k: int| 0 <= k < exprs@.len() ==> whole[k] == (#[trigger] exprs@[k])@,
            forall|k: int| 0 <= k < exprs@.len()
                ==> expr_wf((#[trigger] exprs@[k])@, pre.env.frames.len() as int),
            interp_wf(it@),
            evolution(pre, it@),
            it@.cur == pre.cur,
            forall|k: int| 0 <= k < collected@.len()
                ==> lit_wf((#[trigger] collected@[k])@, it@.env.frames.len() as int),
            eval_exprs_s(pre, whole, fuel as nat) == Outcome::<Seq<LitV>>::Host
                || eval_exprs_s(pre, whole, fuel as nat) == prepend_vals(
                lits_view(collected@),
                eval_exprs_s(it@, whole.skip(i as int), fuel as nat),
            ),
        decreases exprs@.len() - i,
    {
        let ghost mid = it@;
        proof {
            lemma_expr_wf_mono(
                exprs@[i as int]@,
                pre.env.frames.len() as int,
                mid.env.frames.len() as int,
            );
        }
        let v = match exprs[i].evaluate(it, host, fuel) {
            Ok(v) => v,
            Err(e) => {
                proof {
                    lemma_evolution_trans(pre, mid, it@);
                    let rest = whole.skip(i as int);
                    assert(rest.first() == whole[i as int]);
                    assert(whole[i as int] == exprs@[i as int]@);
                }
                return Err(e);
            },
        };
        proof {
            lemma_evolution_trans(pre, mid, it@);
            assert forall|k: int| 0 <= k < collected@.len()
                implies lit_wf((#[trigger] collected@[k])@, it@.env.frames.len() as int) by {
                lemma_lit_wf_mono(
                    collected@[k]@,
                    mid.env.frames.len() as int,
                    it@.env.frames.len() as int,
                );
            }
            let rest = whole.skip(i as int);
            assert(rest.first() == whole[i as int]);
            assert(whole[i as int] == exprs@[i as int]@);
            assert(rest.drop_first() =~= whole.skip(i as int + 1));
            match eval_expr_s(mid, whole[i as int], fuel as nat) {
                Outcome::Done(st1, res1) => {
                    assert(st1 == it@);
                    assert(res1 == Ok::<LitV, RunErrV>(v@));
                    assert(eval_exprs_s(mid, rest, fuel as nat) == prepend_vals(
                        seq![v@],
                        eval_exprs_s(it@, whole.skip(i as int + 1), fuel as nat),
                    ));
                    lemma_prepend_snoc(
                        lits_view(collected@),
                        v@,
                        eval_exprs_s(it@, whole.skip(i as int + 1), fuel as nat),
                    );
                    lemma_lits_view_push(collected@, v);
                },
                Outcome::Host => {},
            }
        }
        collected.push(v);
        i += 1;
    }
    proof {
        assert(whole.skip(exprs@.len() as int) =~= Seq::<ExprV>::empty());
        match eval_exprs_s(pre, whole, fuel as nat) {
            Outcome::Done(st, res) => {
                assert(eval_exprs_s(it@, whole.skip(exprs@.len() as int), fuel as nat)
                    == Outcome::Done(it@, Ok::<Seq<LitV>, RunErrV>(Seq::empty())));
                assert(lits_view(collected@) + Seq::<LitV>::empty() =~= lits_view(collected@));
            },
            Outcome::Host => {},
        }
    }
    Ok(collected)
}

/// Calls a user function: checks the argument count against the declared
/// arity, opens a frame whose parent is the closure's captured frame, binds
/// the parameters, executes the body, and restores the caller's frame on
/// every exit path.  A pending return value is the call's result; falling
/// off the end yields nil.
fn call_function<H: Host>(
    it: &mut Interpreter,
    host: &mut H,
    name: &crate::token::Token,
    params: &Vec<crate::token::Token>,
    arity: usize,
    body: &Vec<Stmt>,
    environment: usize,
    arguments: Vec<Literal>,
    fuel: u64,
) -> (r: Result<Literal, RuntimeError>)
    requires
        interp_wf(old(it)@),
        environment < old(it)@.env.frames.len(),
        arity == params@.len(),
        forall|i: int| 0 <= i < body@.len()
            ==> stmt_wf((#[trigger] body@[i])@, old(it)@.env.frames.len() as int),
        forall|i: int| 0 <= i < arguments@.len()
            ==> lit_wf((#[trigger] arguments@[i])@, old(it)@.env.frames.len() as int),
    ensures
        eval_post(old(it)@, final(it)@),
        r matches Ok(v) ==> lit_wf(v@, final(it)@.env.frames.len() as int),
        arguments@.len() != arity ==> final(it)@ == old(it)@ && (r matches Err(e) && e@
            == (RunErrV::ArityMismatch {
            name: name@.lexeme,
            native: false,
            expected: arity as nat,
            actual: arguments@.len(),
        })),
        call_function_s(
            old(it)@,
            name@,
            tokens_view(params@),
            arity as nat,
            stmts_view(body@),
            environment as int,
            lits_view(arguments@),
            fuel as nat,
        ) matches Outcome::Done(st, res) ==> final(it)@ == st && crate::expr::lit_res_view(r)
            == res,
    decreases fuel, *body, 1int,
{
    let ghost pre = it@;
    let ghost pviews = tokens_view(params@);
    let ghost avs = lits_view(arguments@);
    proof {
        lemma_evolution_refl(pre);
        assert(tokens_view(params@).len() == params@.len());
        lemma_lits_view_len(arguments@);
    }
    if arguments.len() != arity {
        return Err(RuntimeError::ArityMismatch {
            name: name.lexeme.clone(),
            native: false,
            expected: arity,
            actual: arguments.len(),
        });
    }
    let frame = it.environment.enclose(environment);
    let ghost opened = it@;
    proof {
        assert(evolution(pre, opened));
        assert(opened.env == (crate::environment::EnvV {
            frames: pre.env.frames.push(
                crate::environment::FrameV {
                    values: Seq::empty(),
                    enclosing: Some(environment as int),
                },
            ),
            locals: pre.env.locals,
        }));
        assert(pviews.skip(0) =~= pviews);
        assert(avs.skip(0) =~= avs);
    }
    let mut i: usize = 0;
    while i < arguments.len()
        invariant
            i <= arguments@.len(),
            arguments@.len() == params@.len(),
            pre == old(it)@,
            interp_wf(pre),
            pviews == tokens_view(params@),
            avs == lits_view(arguments@),
            pviews.len() == params@.len(),
            avs.len() == arguments@.len(),
            forall|k: int| 0 <= k < params@.len() ==> pviews[k] == (#[trigger] params@[k])@,
            forall|k: int| 0 <= k < arguments@.len()
                ==> avs[k] == (#[trigger] arguments@[k])@,
            forall|k: int| 0 <= k < arguments@.len()
                ==> lit_wf((#[trigger] arguments@[k])@, pre.env.frames.len() as int),
            frame < it@.env.frames.len(),
            frame == pre.env.frames.len(),
            interp_wf(it@),
            evolution(pre, it@),
            it@.env.frames.len() == pre.env.frames.len() + 1,
            it@.cur == pre.cur,
            it@.output == pre.output,
            bind_args_s(opened.env, frame as int, pviews, avs) == bind_args_s(
                it@.env,
                frame as int,
                pviews.skip(i as int),
                avs.skip(i as int),
            ),
            opened == (InterpV { env: opened.env, ..pre }),
        decreases arguments@.len() - i,
    {
        let v = clone_literal(&arguments[i]);
        proof {
            lemma_lit_wf_mono(v@, pre.env.frames.len() as int, it@.env.frames.len() as int);
            let prest = pviews.skip(i as int);
            let arest = avs.skip(i as int);
            assert(prest.first() == pviews[i as int]);
            assert(arest.first() == avs[i as int]);
            assert(prest.drop_first() =~= pviews.skip(i as int + 1));
            assert(arest.drop_first() =~= avs.skip(i as int + 1));
        }
        it.environment.define(frame, params[i].lexeme.clone(), v);
        i += 1;
    }
    proof {
        assert(pviews.skip(params@.len() as int) =~= Seq::<crate::token::TokenV>::empty());
        assert(avs.skip(arguments@.len() as int) =~= Seq::<LitV>::empty());
    }
    let saved = it.cur;
    it.cur = frame;
    let ghost entered = it@;
    proof {
        assert(evolution(pre, entered));
        assert(entered == (InterpV {
            env: bind_args_s(opened.env, frame as int, pviews, avs),
            cur: frame as int,
            ..pre
        }));
        assert forall|k: int| 0 <= k < body@.len()
            implies stmt_wf((#[trigger] body@[k])@, entered.env.frames.len() as int) by {
            lemma_stmt_wf_mono(
                body@[k]@,
                pre.env.frames.len() as int,
                entered.env.frames.len() as int,
            );
        }
    }
    let flow = it.interpret(body, host, fuel);
    it.cur = saved;
    proof {
        lemma_evolution_trans(pre, entered, it@);
        match exec_stmts_s(entered, stmts_view(body@), fuel as nat) {
            Outcome::Done(st2, res) => {
                assert(it@ == (InterpV { cur: pre.cur, ..st2 }));
            },
            Outcome::Host => {},
        }
    }
    match flow {
        Ok(Flow::Return(v)) => Ok(v),
        Ok(Flow::Normal) => Ok(Literal::Nil),
        Err(e) => Err(e),
    }
}

/// Calls a native: checks the argument count against the declared arity,
/// then performs the conversion, the print, or the host operation.  Whatever
/// the host returns, the evaluator's frame discipline holds; a host failure
/// surfaces as a native error carrying the host's message.
fn call_native<H: Host>(
    it: &mut Interpreter,
    host: &mut H,
    name: &String,
    arity: usize,
    fun: NativeKind,
    arguments: Vec<Literal>,
) -> (r: Result<Literal, RuntimeError>)
    requires
        interp_wf(old(it)@),
        arity == native_arity(fun),
        forall|i: int| 0 <= i < arguments@.len()
            ==> lit_wf((#[trigger] arguments@[i])@, old(it)@.env.frames.len() as int),
    ensures
        eval_post(old(it)@, final(it)@),
        r matches Ok(v) ==> lit_wf(v@, final(it)@.env.frames.len() as int),
        arguments@.len() != arity ==> final(it)@ == old(it)@ && (r matches Err(e) && e@
            == (RunErrV::ArityMismatch {
            name: name@,
            native: true,
            expected: arity as nat,
            actual: arguments@.len(),
        })),
        call_native_s(old(it)@, name@, arity as nat, fun, lits_view(arguments@))
            matches Outcome::Done(st, res) ==> final(it)@ == st
            && crate::expr::lit_res_view(r) == res,
        fun is Print && arguments@.len() == 1 ==> r == Ok::<Literal, RuntimeError>(Literal::Nil)
            && final(it)@ == (InterpV {
            output: old(it)@.output.push(crate::expr::lit_str(arguments@[0]@)),
            ..old(it)@
        }),
{
    let ghost pre = it@;
    proof {
        lemma_evolution_refl(pre);
        lemma_lits_view_len(arguments@);
    }
    if arguments.len() != arity {
        return Err(RuntimeError::ArityMismatch {
            name: name.clone(),
            native: true,
            expected: arity,
            actual: arguments.len(),
        });
    }
    match fun {
        NativeKind::Clock => match host.clock() {
            Ok(t) => Ok(Literal::Number(t)),
            Err(m) => Err(RuntimeError::NativeError { message: m }),
        },
        NativeKind::Clear => match host.clear() {
            Ok(()) => Ok(Literal::Nil),
            Err(m) => Err(RuntimeError::NativeError { message: m }),
        },
        NativeKind::Input => {
            let prompt = arguments[0].to_string();
            match host.input(prompt.as_str()) {
                Ok(line) => Ok(Literal::Str(line)),
                Err(m) => Err(RuntimeError::NativeError { message: m }),
            }
        },
        NativeKind::Parse => {
            let r = parse_native(&arguments[0], &arguments[1]);
            proof {
                lemma_parse_result_wf(
                    arguments@[0]@,
                    arguments@[1]@,
                    it@.env.frames.len() as int,
                );
            }
            r
        },
        NativeKind::Print => {
            let line = arguments[0].to_string();
            let ghost lv = line@;
            it.output.push(line);
            proof {
                assert(pre.output =~= it@.output.subrange(0, pre.output.len() as int));
                assert(pre.output.is_prefix_of(it@.output));
                assert(it@.env == pre.env);
                assert(it@.output =~= pre.output.push(lv));
            }
            Ok(Literal::Nil)
        },
    }
}

} // verus!
