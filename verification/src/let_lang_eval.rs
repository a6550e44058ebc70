//! The evaluator: the value of an expression in an environment.

use vstd::prelude::*;
use crate::int_bool::IntBool;
use crate::let_lang_env::{extend, lookup, Bindings, LetLangEnv};
use crate::let_lang_exp::{ExpModel, LetLangExp};

verus! {

/// The integer that a value counts as in a subtraction: a boolean counts
/// as zero.
pub open spec fn int_of(v: IntBool) -> int {
    match v {
        IntBool::Integer(i) => i as int,
        IntBool::Boolean(_) => 0,
    }
}

/// Whether an outcome counts as true in a condition: only the boolean
/// `true` does; an integer, `false` and a failure do not.
pub open spec fn holds(v: Option<IntBool>) -> bool {
    v == Some(IntBool::Boolean(true))
}

/// Whether a number is a 32-bit integer with a sign.
pub open spec fn fits(n: int) -> bool {
    i32::MIN <= n <= i32::MAX
}

/// The value of an expression under the given bindings, or `None` where it
/// has none: a name without a binding, a zero test of a boolean, or a part
/// without a value that the expression needs. A difference is the exact
/// one wherever that fits, which `within_range` says.
pub open spec fn value(e: ExpModel, env: Bindings) -> Option<IntBool>
    decreases e,
{
    match e {
        ExpModel::ConstExp(n) => Some(IntBool::Integer(n)),
        ExpModel::Boolean(b) => Some(IntBool::Boolean(b)),
        ExpModel::DiffExp(e1, e2) => match (value(*e1, env), value(*e2, env)) {
            (Some(a), Some(b)) => Some(IntBool::Integer((int_of(a) - int_of(b)) as i32)),
            _ => None,
        },
        ExpModel::IsZeroExp(e1) => match value(*e1, env) {
            Some(IntBool::Integer(i)) => Some(IntBool::Boolean(i == 0)),
            _ => None,
        },
        ExpModel::IfExp(e1, e2, e3) => if holds(value(*e1, env)) {
            value(*e2, env)
        } else {
            value(*e3, env)
        },
        ExpModel::VarExp(v) => lookup(env, v),
        ExpModel::LetExp(v, e1, e2) => match value(*e1, env) {
            Some(a) => value(*e2, extend(env, v, a)),
            None => None,
        },
    }
}

/// Whether every difference that the evaluation of `e` computes is a 32-bit
/// integer. Both operands of a subtraction are evaluated, of a conditional
/// only the branch that is chosen, of a `let` the body only where the bound
/// expression has a value.
pub open spec fn within_range(e: ExpModel, env: Bindings) -> bool
    decreases e,
{
    match e {
        ExpModel::ConstExp(_) => true,
        ExpModel::Boolean(_) => true,
        ExpModel::DiffExp(e1, e2) => {
            &&& within_range(*e1, env)
            &&& within_range(*e2, env)
            &&& match (value(*e1, env), value(*e2, env)) {
                (Some(a), Some(b)) => fits(int_of(a) - int_of(b)),
                _ => true,
            }
        },
        ExpModel::IsZeroExp(e1) => within_range(*e1, env),
        ExpModel::IfExp(e1, e2, e3) => {
            &&& within_range(*e1, env)
            &&& if holds(value(*e1, env)) {
                within_range(*e2, env)
            } else {
                within_range(*e3, env)
            }
        },
        ExpModel::VarExp(_) => true,
        ExpModel::LetExp(v, e1, e2) => {
            &&& within_range(*e1, env)
            &&& match value(*e1, env) {
                Some(a) => within_range(*e2, extend(env, v, a)),
                None => true,
            }
        },
    }
}

/// Evaluates an expression whose differences all fit.
pub fn value_of(ast: &LetLangExp, env: &LetLangEnv) -> (r: Option<IntBool>)
    requires
        within_range(ast@, env@),
    ensures
        r == value(ast@, env@),
    decreases ast@, 1int,
{
    match ast {
        LetLangExp::ConstExp(n) => Some(IntBool::Integer(*n)),
        LetLangExp::Boolean(b) => Some(IntBool::Boolean(*b)),
        LetLangExp::DiffExp(e1, e2) => value_of_diff_exp(e1, e2, env),
        LetLangExp::IsZeroExp(e) => value_of_iszero(e, env),
        LetLangExp::IfExp(e1, e2, e3) => value_of_if(e1, e2, e3, env),
        LetLangExp::VarExp(s) => env.apply_env(s),
        LetLangExp::LetExp(s, e1, e2) => value_of_let(s, e1, e2, env),
    }
}

/// The value of `let s = e1 in e2`: that of `e2` where `s` stands for the
/// value of `e1`.
pub fn value_of_let(s: &String, e1: &LetLangExp, e2: &LetLangExp, env: &LetLangEnv) -> (r: Option<
    IntBool,
>)
    requires
        within_range(ExpModel::LetExp(s@, Box::new(e1@), Box::new(e2@)), env@),
    ensures
        r == value(ExpModel::LetExp(s@, Box::new(e1@), Box::new(e2@)), env@),
    decreases ExpModel::LetExp(s@, Box::new(e1@), Box::new(e2@)), 0int,
{
    let new_val = value_of(e1, env);
    if new_val.is_none() {
        return None;
    }
    let new_env = env.extend_env(s, new_val.unwrap());
    value_of(e2, &new_env)
}

/// The value of `if e1 then e2 else e3`: that of `e2` where `e1` is the
/// boolean `true`, else that of `e3`.
pub fn value_of_if(e1: &LetLangExp, e2: &LetLangExp, e3: &LetLangExp, env: &LetLangEnv) -> (r:
    Option<IntBool>)
    requires
        within_range(ExpModel::IfExp(Box::new(e1@), Box::new(e2@), Box::new(e3@)), env@),
    ensures
        r == value(ExpModel::IfExp(Box::new(e1@), Box::new(e2@), Box::new(e3@)), env@),
    decreases ExpModel::IfExp(Box::new(e1@), Box::new(e2@), Box::new(e3@)), 0int,
{
    let test = match value_of(e1, env) {
        Some(x) => match x {
            IntBool::Integer(_i) => false,
            IntBool::Boolean(b) => b,
        },
        None => false,
    };
    if test {
        value_of(e2, env)
    } else {
        value_of(e3, env)
    }
}

/// The value of `iszero(e)`: whether the integer that `e` gives is zero.
pub fn value_of_iszero(e: &LetLangExp, env: &LetLangEnv) -> (r: Option<IntBool>)
    requires
        within_range(ExpModel::IsZeroExp(Box::new(e@)), env@),
    ensures
        r == value(ExpModel::IsZeroExp(Box::new(e@)), env@),
    decreases ExpModel::IsZeroExp(Box::new(e@)), 0int,
{
    let opt_val = value_of(e, env);
    match opt_val {
        Some(x) => match x {
            IntBool::Integer(i) => Some(IntBool::Boolean(i == 0)),
            IntBool::Boolean(_b) => None,
        },
        None => None,
    }
}

/// The value of `-(arg1, arg2)`: the difference of the two values.
pub fn value_of_diff_exp(arg1: &LetLangExp, arg2: &LetLangExp, env: &LetLangEnv) -> (r: Option<
    IntBool,
>)
    requires
        within_range(ExpModel::DiffExp(Box::new(arg1@), Box::new(arg2@)), env@),
    ensures
        r == value(ExpModel::DiffExp(Box::new(arg1@), Box::new(arg2@)), env@),
    decreases ExpModel::DiffExp(Box::new(arg1@), Box::new(arg2@)), 0int,
{
    let val1 = value_of(arg1, env);
    let val2 = value_of(arg2, env);
    if val1.is_none() || val2.is_none() {
        None
    } else {
        let v1 = val1.unwrap();
        let v2 = val2.unwrap();
        Some(IntBool::Integer(value_of_diff_exp_work(&v1, &v2)))
    }
}

/// The difference of two values, a boolean counting as zero.
pub fn value_of_diff_exp_work(a1: &IntBool, a2: &IntBool) -> (r: i32)
    requires
        fits(int_of(*a1) - int_of(*a2)),
    ensures
        r == int_of(*a1) - int_of(*a2),
{
    let a1_int_val: i32 = match *a1 {
        IntBool::Integer(i) => i,
        _ => 0,
    };
    let a2_int_val: i32 = match *a2 {
        IntBool::Integer(i) => i,
        _ => 0,
    };
    a1_int_val - a2_int_val
}

/// A difference that is no 32-bit integer.
#[derive(Debug, Clone, Copy, PartialEq, Eq, Structural)]
pub struct Overflow;

/// Evaluates any expression, and watches the arithmetic on the way: gives
/// `Err` exactly where a difference does not fit, and else what `value_of`
/// gives.
pub fn value_of_checked(ast: &LetLangExp, env: &LetLangEnv) -> (r: Result<Option<IntBool>, Overflow>)
    ensures
        r is Ok <==> within_range(ast@, env@),
        r is Ok ==> r->Ok_0 == value(ast@, env@),
    decreases ast@,
{
    match ast {
        LetLangExp::ConstExp(n) => Ok(Some(IntBool::Integer(*n))),
        LetLangExp::Boolean(b) => Ok(Some(IntBool::Boolean(*b))),
        LetLangExp::DiffExp(e1, e2) => {
            let val1 = value_of_checked(e1, env)?;
            let val2 = value_of_checked(e2, env)?;
            match (val1, val2) {
                (Some(v1), Some(v2)) => {
                    let a: i64 = match v1 {
                        IntBool::Integer(i) => i as i64,
                        _ => 0,
                    };
                    let b: i64 = match v2 {
                        IntBool::Integer(i) => i as i64,
                        _ => 0,
                    };
                    let d: i64 = a - b;
                    if d < -2147483648 || d > 2147483647 {
                        Err(Overflow)
                    } else {
                        Ok(Some(IntBool::Integer(d as i32)))
                    }
                },
                _ => Ok(None),
            }
        },
        LetLangExp::IsZeroExp(e) => {
            match value_of_checked(e, env)? {
                Some(IntBool::Integer(i)) => Ok(Some(IntBool::Boolean(i == 0))),
                _ => Ok(None),
            }
        },
        LetLangExp::IfExp(e1, e2, e3) => {
            match value_of_checked(e1, env)? {
                Some(IntBool::Boolean(true)) => value_of_checked(e2, env),
                _ => value_of_checked(e3, env),
            }
        },
        LetLangExp::VarExp(s) => Ok(env.apply_env(s)),
        LetLangExp::LetExp(s, e1, e2) => {
            match value_of_checked(e1, env)? {
                Some(v) => {
                    let new_env = env.extend_env(s, v);
                    value_of_checked(e2, &new_env)
                },
                None => Ok(None),
            }
        },
    }
}

} // verus!
