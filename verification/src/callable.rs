//! Callable values: user functions and natives.
//!
//! A user function keeps its name, parameter list, declared arity, body and
//! the index of the frame it was defined in — the captured environment that
//! makes closures work.  A native carries its name, arity and which host
//! operation it dispatches to.  Callables compare by name and arity alone;
//! captured state takes no part in equality.

use vstd::prelude::*;
use vstd::string::StringExecFns;
use crate::native::NativeKind;
use crate::native::native_arity;
use crate::stmt::Stmt;
use crate::stmt::StmtV;
use crate::stmt::stmts_view;
use crate::stmt::clone_stmts;
use crate::stmt::stmt_wf;
use crate::stmt::stmts_wf;
use crate::token::Token;
use crate::token::TokenV;
use crate::token::tokens_view;
use crate::token::clone_tokens;

verus! {

#[derive(Debug)]
pub enum Callables {
    LoxFunction {
        name: Token,
        params: Vec<Token>,
        arity: usize,
        body: Vec<Stmt>,
        environment: usize,
    },
    NativeFunction { name: String, arity: usize, fun: NativeKind },
}

/// The mathematical value of a callable.
pub enum CallV {
    LoxFunction {
        name: TokenV,
        params: Seq<TokenV>,
        arity: nat,
        body: Seq<StmtV>,
        environment: nat,
    },
    NativeFunction { name: Seq<char>, arity: nat, fun: NativeKind },
}

pub open spec fn call_view(c: Callables) -> CallV
    decreases c,
{
    match c {
        Callables::LoxFunction { name, params, arity, body, environment } => CallV::LoxFunction {
            name: name@,
            params: tokens_view(params@),
            arity: arity as nat,
            body: stmts_view(body@),
            environment: environment as nat,
        },
        Callables::NativeFunction { name, arity, fun } => CallV::NativeFunction {
            name: name@,
            arity: arity as nat,
            fun,
        },
    }
}

impl View for Callables {
    type V = CallV;

    open spec fn view(&self) -> CallV {
        call_view(*self)
    }
}

/// Whether two callables are equal: same kind, same name, same arity.
/// Captured environments and bodies are deliberately ignored.
pub open spec fn call_eq(a: CallV, b: CallV) -> bool {
    match (a, b) {
        (
            CallV::LoxFunction { name: an, arity: aa, .. },
            CallV::LoxFunction { name: bn, arity: ba, .. },
        ) => an == bn && aa == ba,
        (
            CallV::NativeFunction { name: an, arity: aa, .. },
            CallV::NativeFunction { name: bn, arity: ba, .. },
        ) => an == bn && aa == ba,
        _ => false,
    }
}

/// A callable is well formed at arena length `n` when a user function
/// captures a live frame, declares as many parameters as its arity, and has
/// a well-formed body, and a native declares its fixed arity.
pub open spec fn call_wf(c: CallV, n: int) -> bool
    decreases c,
{
    match c {
        CallV::LoxFunction { params, arity, body, environment, .. } => {
            &&& 0 <= environment < n
            &&& arity == params.len()
            &&& stmts_wf(body, n)
        },
        CallV::NativeFunction { arity, fun, .. } => arity == native_arity(fun),
    }
}

/// What a well-formed user function guarantees: a live captured frame, an
/// arity matching its parameters, and a well-formed body.
pub proof fn lemma_lox_function_wf(
    name: TokenV,
    params: Seq<TokenV>,
    arity: nat,
    body: Seq<StmtV>,
    environment: nat,
    n: int,
)
    requires
        call_wf(CallV::LoxFunction { name, params, arity, body, environment }, n),
    ensures
        0 <= environment < n,
        arity == params.len(),
        forall|i: int| 0 <= i < body.len() ==> stmt_wf(#[trigger] body[i], n),
{
    crate::stmt::lemma_stmts_wf_pointwise(body, n);
}

/// Well-formedness of a callable is preserved as the arena grows.
pub proof fn lemma_call_wf_mono(c: CallV, n: int, m: int)
    requires
        call_wf(c, n),
        n <= m,
    ensures
        call_wf(c, m),
    decreases c,
{
    match c {
        CallV::LoxFunction { body, .. } => {
            crate::stmt::lemma_stmts_wf_mono(body, n, m);
        },
        CallV::NativeFunction { .. } => {},
    }
}

/// The display text of a callable.
pub open spec fn call_str(c: CallV) -> Seq<char> {
    match c {
        CallV::LoxFunction { name, .. } => "<function> "@ + name.lexeme,
        CallV::NativeFunction { name, .. } => "<native function> "@ + name,
    }
}

impl Callables {
    /// The display text of this callable.
    pub fn to_string(&self) -> (r: String)
        ensures
            r@ == call_str(self@),
    {
        match self {
            Callables::LoxFunction { name, .. } => {
                let mut r = String::new();
                let head: &str = "<function> ";
                r.append(head);
                r.append(name.lexeme.as_str());
                r
            },
            Callables::NativeFunction { name, .. } => {
                let mut r = String::new();
                let head: &str = "<native function> ";
                r.append(head);
                r.append(name.as_str());
                r
            },
        }
    }

    /// Whether this callable equals another by name and arity.
    pub fn same(&self, other: &Callables) -> (r: bool)
        ensures
            r == call_eq(self@, other@),
    {
        match (self, other) {
            (
                Callables::LoxFunction { name: an, arity: aa, .. },
                Callables::LoxFunction { name: bn, arity: ba, .. },
            ) => {
                let nameq = an.same(bn);
                let r = nameq && *aa == *ba;
                proof {
                    assert(call_eq(self@, other@) == (an@ == bn@ && *aa as nat == *ba as nat));
                }
                r
            },
            (
                Callables::NativeFunction { name: an, arity: aa, .. },
                Callables::NativeFunction { name: bn, arity: ba, .. },
            ) => {
                let nameq = *an == *bn;
                let r = nameq && *aa == *ba;
                proof {
                    assert(call_eq(self@, other@) == (an@ == bn@ && *aa as nat == *ba as nat));
                }
                r
            },
            _ => {
                proof {
                    assert(!call_eq(self@, other@));
                }
                false
            },
        }
    }
}

pub fn clone_callables(c: &Callables) -> (r: Callables)
    ensures
        r@ == c@,
    decreases *c,
{
    match c {
        Callables::LoxFunction { name, params, arity, body, environment } =>
            Callables::LoxFunction {
                name: name.clone(),
                params: clone_tokens(params),
                arity: *arity,
                body: clone_stmts(body),
                environment: *environment,
            },
        Callables::NativeFunction { name, arity, fun } => Callables::NativeFunction {
            name: name.clone(),
            arity: *arity,
            fun: *fun,
        },
    }
}

impl Clone for Callables {
    fn clone(&self) -> (r: Self)
        ensures
            r@ == self@,
    {
        clone_callables(self)
    }
}

} // verus!
