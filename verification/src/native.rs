//! Native functions: the host-provided bindings that seed the root scope.
//!
//! The interpreter itself never performs I/O.  `print` appends to the
//! interpreter's output log, `parse` is a pure conversion implemented here,
//! and the remaining natives (`clock`, `clear`, `input`) reach the outside
//! world through the [`Host`] trait, which the embedding program implements.

use vstd::prelude::*;
use crate::callable::Callables;
use crate::callable::CallV;
use crate::environment::entries_view;
use crate::environment::lemma_entries_view_len;
use crate::errors::LoxType;
use crate::errors::RuntimeError;
use crate::errors::RunErrV;
use crate::expr::Literal;
use crate::expr::LitV;
use crate::expr::lit_res_view;
use crate::numbers::int_str;
use crate::numbers::int_to_string;
use crate::numbers::is_int_lexeme;
use crate::numbers::int_of_lexeme;
use crate::numbers::parse_int;
use crate::text::str_to_chars;
use crate::text::str_eq;
use vstd::string::StrSliceExecFns;

verus! {

/// Which native a `NativeFunction` callable dispatches to.
#[derive(Clone, Copy, PartialEq, Eq, Structural, Debug)]
pub enum NativeKind {
    Clock,
    Clear,
    Input,
    Parse,
    Print,
}

/// The argument count each native declares.
pub open spec fn native_arity(k: NativeKind) -> nat {
    match k {
        NativeKind::Clock => 0,
        NativeKind::Clear => 0,
        NativeKind::Input => 1,
        NativeKind::Parse => 2,
        NativeKind::Print => 1,
    }
}

/// What the interpreter asks of its embedding program.  Nothing is promised
/// of the results: the evaluator states what holds whatever comes back.
pub trait Host {
    /// Seconds of current time, as a number.
    fn clock(&mut self) -> Result<i64, String>;

    /// Clears the display.
    fn clear(&mut self) -> Result<(), String>;

    /// Shows the prompt and reads a line of input.
    fn input(&mut self, prompt: &str) -> Result<String, String>;
}

/// The binding a native carries in the root scope.
pub open spec fn native_binding(k: NativeKind, name: Seq<char>) -> (Seq<char>, LitV) {
    (
        name,
        LitV::Callable(
            CallV::NativeFunction { name, arity: native_arity(k), fun: k },
        ),
    )
}

/// The contents of the root scope before any user code runs: one binding for
/// each native, under its name.
pub open spec fn globals_view() -> Seq<(Seq<char>, LitV)> {
    seq![
        native_binding(NativeKind::Clock, "clock"@),
        native_binding(NativeKind::Clear, "clear"@),
        native_binding(NativeKind::Input, "input"@),
        native_binding(NativeKind::Parse, "parse"@),
        native_binding(NativeKind::Print, "print"@),
    ]
}

/// Builds the root scope's native bindings.
pub fn globals() -> (r: Vec<(String, Literal)>)
    ensures
        entries_view(r@) == globals_view(),
{
    let mut r: Vec<(String, Literal)> = Vec::new();
    let clock_name: &str = "clock";
    r.push((
        clock_name.to_owned(),
        Literal::Callable(Callables::NativeFunction {
            name: clock_name.to_owned(),
            arity: 0,
            fun: NativeKind::Clock,
        }),
    ));
    let clear_name: &str = "clear";
    r.push((
        clear_name.to_owned(),
        Literal::Callable(Callables::NativeFunction {
            name: clear_name.to_owned(),
            arity: 0,
            fun: NativeKind::Clear,
        }),
    ));
    let input_name: &str = "input";
    r.push((
        input_name.to_owned(),
        Literal::Callable(Callables::NativeFunction {
            name: input_name.to_owned(),
            arity: 1,
            fun: NativeKind::Input,
        }),
    ));
    let parse_name: &str = "parse";
    r.push((
        parse_name.to_owned(),
        Literal::Callable(Callables::NativeFunction {
            name: parse_name.to_owned(),
            arity: 2,
            fun: NativeKind::Parse,
        }),
    ));
    let print_name: &str = "print";
    r.push((
        print_name.to_owned(),
        Literal::Callable(Callables::NativeFunction {
            name: print_name.to_owned(),
            arity: 1,
            fun: NativeKind::Print,
        }),
    ));
    proof {
        lemma_entries_view_len(r@);
        assert(entries_view(r@) =~= globals_view());
    }
    r
}

/// Lowercasing of a single character, ASCII letters only.
pub open spec fn lower_char(c: char) -> char {
    if ('A' as u32) <= (c as u32) <= ('Z' as u32) {
        ((c as u8) + 32) as char
    } else {
        c
    }
}

/// ASCII lowercasing of a character sequence.
pub open spec fn lower(s: Seq<char>) -> Seq<char> {
    Seq::new(s.len(), |i: int| lower_char(s[i]))
}

/// Whether `s`, lowercased, reads exactly `t`.
fn eq_lower(s: &String, t: &str) -> (r: bool)
    ensures
        r == (lower(s@) == t@),
{
    let n = s.as_str().unicode_len();
    let m = t.unicode_len();
    if n != m {
        proof {
            assert(lower(s@).len() == s@.len());
        }
        return false;
    }
    let mut i: usize = 0;
    while i < n
        invariant
            i <= n,
            n == s@.len(),
            n == t@.len(),
            forall|j: int| 0 <= j < i ==> lower_char(s@[j]) == t@[j],
        decreases n - i,
    {
        let c = s.as_str().get_char(i);
        let cl: char = if ('A' as u32) <= (c as u32) && (c as u32) <= ('Z' as u32) {
            ((c as u8) + 32) as char
        } else {
            c
        };
        if cl != t.get_char(i) {
            proof {
                assert(lower(s@)[i as int] != t@[i as int]);
            }
            return false;
        }
        i += 1;
    }
    proof {
        assert(lower(s@) =~= t@);
    }
    true
}

/// What the `parse` native converts: the value, and the name of the target
/// type (compared without regard to letter case).  A pairing the table does
/// not define is an error; so is an unknown type name or text that does not
/// denote a value of the target type.
pub open spec fn parse_result(v: LitV, t: LitV) -> Result<LitV, RunErrV> {
    match (v, t) {
        (LitV::Number(n), LitV::Str(ts)) => {
            if lower(ts) == "number"@ {
                Ok(LitV::Number(n))
            } else if lower(ts) == "string"@ {
                Ok(LitV::Str(int_str(n)))
            } else if lower(ts) == "boolean"@ {
                Ok(LitV::Boolean(n != 0))
            } else if lower(ts) == "nil"@ {
                Err(RunErrV::ParseUndefined { from: LoxType::Number, to: LoxType::Text })
            } else {
                Err(RunErrV::ParseTypeUnknown)
            }
        },
        (LitV::Str(x), LitV::Str(ts)) => {
            if lower(ts) == "number"@ {
                if is_int_lexeme(x) && i64::MIN <= int_of_lexeme(x) <= i64::MAX {
                    Ok(LitV::Number(int_of_lexeme(x)))
                } else {
                    Err(RunErrV::ParseValueFormat { to: LoxType::Number })
                }
            } else if lower(ts) == "string"@ {
                Ok(LitV::Str(x))
            } else if lower(ts) == "boolean"@ {
                if x == "true"@ {
                    Ok(LitV::Boolean(true))
                } else if x == "false"@ {
                    Ok(LitV::Boolean(false))
                } else {
                    Err(RunErrV::ParseValueFormat { to: LoxType::Boolean })
                }
            } else if lower(ts) == "nil"@ {
                Err(RunErrV::ParseUndefined { from: LoxType::Text, to: LoxType::Text })
            } else {
                Err(RunErrV::ParseTypeUnknown)
            }
        },
        (LitV::Boolean(b), LitV::Str(ts)) => {
            if lower(ts) == "number"@ {
                Err(RunErrV::ParseUndefined { from: LoxType::Boolean, to: LoxType::Text })
            } else if lower(ts) == "string"@ {
                Ok(LitV::Str(if b { "true"@ } else { "false"@ }))
            } else if lower(ts) == "boolean"@ {
                Ok(LitV::Boolean(b))
            } else if lower(ts) == "nil"@ {
                Err(RunErrV::ParseUndefined { from: LoxType::Boolean, to: LoxType::Text })
            } else {
                Err(RunErrV::ParseTypeUnknown)
            }
        },
        (LitV::Nil, LitV::Str(ts)) => {
            if lower(ts) == "number"@ {
                Err(RunErrV::ParseUndefined { from: LoxType::NilType, to: LoxType::Text })
            } else if lower(ts) == "string"@ {
                Ok(LitV::Str("nil"@))
            } else if lower(ts) == "boolean"@ {
                Err(RunErrV::ParseUndefined { from: LoxType::NilType, to: LoxType::Text })
            } else if lower(ts) == "nil"@ {
                Ok(LitV::Nil)
            } else {
                Err(RunErrV::ParseTypeUnknown)
            }
        },
        _ => Err(RunErrV::ParseUsage),
    }
}

/// The `parse` native: converts a value to the named target type.
pub fn parse_native(v: &Literal, t: &Literal) -> (r: Result<Literal, RuntimeError>)
    ensures
        lit_res_view(r) == parse_result(v@, t@),
{
    let number_name: &str = "number";
    let string_name: &str = "string";
    let boolean_name: &str = "boolean";
    let nil_name: &str = "nil";
    let true_name: &str = "true";
    let false_name: &str = "false";
    match (v, t) {
        (Literal::Number(n), Literal::Str(ts)) => {
            if eq_lower(ts, number_name) {
                Ok(Literal::Number(*n))
            } else if eq_lower(ts, string_name) {
                Ok(Literal::Str(int_to_string(*n)))
            } else if eq_lower(ts, boolean_name) {
                Ok(Literal::Boolean(*n != 0))
            } else if eq_lower(ts, nil_name) {
                Err(RuntimeError::ParseUndefined { from: LoxType::Number, to: LoxType::Text })
            } else {
                Err(RuntimeError::ParseTypeUnknown)
            }
        },
        (Literal::Str(x), Literal::Str(ts)) => {
            if eq_lower(ts, number_name) {
                let chars = str_to_chars(x.as_str());
                match parse_int(&chars) {
                    Some(value) => Ok(Literal::Number(value)),
                    None => Err(RuntimeError::ParseValueFormat { to: LoxType::Number }),
                }
            } else if eq_lower(ts, string_name) {
                Ok(Literal::Str(x.clone()))
            } else if eq_lower(ts, boolean_name) {
                if str_eq(x.as_str(), true_name) {
                    Ok(Literal::Boolean(true))
                } else if str_eq(x.as_str(), false_name) {
                    Ok(Literal::Boolean(false))
                } else {
                    Err(RuntimeError::ParseValueFormat { to: LoxType::Boolean })
                }
            } else if eq_lower(ts, nil_name) {
                Err(RuntimeError::ParseUndefined { from: LoxType::Text, to: LoxType::Text })
            } else {
                Err(RuntimeError::ParseTypeUnknown)
            }
        },
        (Literal::Boolean(b), Literal::Str(ts)) => {
            if eq_lower(ts, number_name) {
                Err(RuntimeError::ParseUndefined { from: LoxType::Boolean, to: LoxType::Text })
            } else if eq_lower(ts, string_name) {
                if *b {
                    Ok(Literal::Str(true_name.to_owned()))
                } else {
                    Ok(Literal::Str(false_name.to_owned()))
                }
            } else if eq_lower(ts, boolean_name) {
                Ok(Literal::Boolean(*b))
            } else if eq_lower(ts, nil_name) {
                Err(RuntimeError::ParseUndefined { from: LoxType::Boolean, to: LoxType::Text })
            } else {
                Err(RuntimeError::ParseTypeUnknown)
            }
        },
        (Literal::Nil, Literal::Str(ts)) => {
            if eq_lower(ts, number_name) {
                Err(RuntimeError::ParseUndefined { from: LoxType::NilType, to: LoxType::Text })
            } else if eq_lower(ts, string_name) {
                Ok(Literal::Str(nil_name.to_owned()))
            } else if eq_lower(ts, boolean_name) {
                Err(RuntimeError::ParseUndefined { from: LoxType::NilType, to: LoxType::Text })
            } else if eq_lower(ts, nil_name) {
                Ok(Literal::Nil)
            } else {
                Err(RuntimeError::ParseTypeUnknown)
            }
        },
        _ => Err(RuntimeError::ParseUsage),
    }
}

} // verus!
