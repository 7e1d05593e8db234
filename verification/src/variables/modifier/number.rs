//! Modifiers on numbers. The arithmetic itself is done by a [`Numerics`] implementation.
use vstd::prelude::*;
use crate::numbers::{Numerics, SIGN_BIT, is_zero, numbers_equal, zero, negate, equal};
use crate::variables::Value;
use crate::variables::modifier::{
    indices_fit,
    ModifierError, ModifierErrorType, ModifierErrorNote, amount_error, variable_type_error,
    parameter_type_error, runtime_error,
};
use crate::variables::token::text;

verus! {

/// `add`: the sum of two numbers.
pub struct AddModifier;

/// `sub`: the difference of two numbers.
pub struct SubtractModifier;

/// `mul`: the product of two numbers.
pub struct MultiplyModifier;

/// `div`: the quotient of two numbers; dividing by zero is an error.
pub struct DivisionModifier;

/// `neg`: the negative of a number.
pub struct NegativeModifier;

/// `parsenum`: the number a string spells.
pub struct ParseNumberModifier;

/// The outcome of `add`, `sub`, `mul` and `div`: a number when both are numbers (for `div`, when
/// the divisor is not zero), the matching error otherwise.
pub open spec fn arithmetic_outcome(division: bool, v: Value, ps: Seq<Value>, r: Result<Value, ModifierError>) -> bool {
    if ps.len() != 1 {
        amount_error(r, 1)
    } else {
        match (v, ps[0]) {
            (Value::Number(_), Value::Number(b)) => if division && is_zero(b) {
                runtime_error(r)
            } else {
                r matches Ok(Value::Number(_))
            },
            (Value::Number(_), _) => parameter_type_error(r, 0),
            _ => variable_type_error(r),
        }
    }
}

pub open spec fn negative_outcome(v: Value, ps: Seq<Value>, r: Result<Value, ModifierError>) -> bool {
    if ps.len() != 0 {
        amount_error(r, 0)
    } else {
        match v {
            Value::Number(n) => r == Ok::<Value, ModifierError>(Value::Number(n ^ SIGN_BIT)),
            _ => variable_type_error(r),
        }
    }
}

/// A string gives a number, or an error when it does not spell one.
pub open spec fn parse_outcome(v: Value, ps: Seq<Value>, r: Result<Value, ModifierError>) -> bool {
    if ps.len() != 0 {
        amount_error(r, 0)
    } else {
        match v {
            Value::String(_) => r matches Ok(Value::Number(_)) || variable_type_error(r),
            _ => variable_type_error(r),
        }
    }
}

/// `x` is what the numerics give for the arithmetic operation `op` (0 `sum`, 1 `difference`,
/// 2 `product`, 3 `quotient`) on `a` and `b`.
pub open spec fn computed<N: Numerics>(numerics: &N, op: int, a: u64, b: u64, x: u64) -> bool {
    if op == 0 {
        call_ensures(N::sum, (numerics, a, b), x)
    } else if op == 1 {
        call_ensures(N::difference, (numerics, a, b), x)
    } else if op == 2 {
        call_ensures(N::product, (numerics, a, b), x)
    } else {
        call_ensures(N::quotient, (numerics, a, b), x)
    }
}

/// The number an arithmetic modifier gives for two numbers (a divisor that is not zero for
/// `div`) is what the numerics compute for those very numbers.
pub open spec fn arithmetic_given<N: Numerics>(numerics: &N, op: int, v: Value, ps: Seq<Value>, r: Result<Value, ModifierError>) -> bool {
    ps.len() == 1 ==> match (v, ps[0]) {
        (Value::Number(a), Value::Number(b)) => !(op == 3 && is_zero(b)) ==> (r matches Ok(Value::Number(x)) && computed(
            numerics,
            op,
            a,
            b,
            x,
        )),
        _ => true,
    }
}

/// The numerics parse a text with the characters `s` to `o`.
pub open spec fn parsed_as<N: Numerics>(numerics: &N, s: Seq<char>, o: Option<u64>) -> bool {
    exists|t: &str| t@ == s && #[trigger] call_ensures(N::parse, (numerics, t), o)
}

/// `parsenum` on a string gives the number the numerics parse it to, and fails exactly when they
/// parse it to nothing.
pub open spec fn parse_given<N: Numerics>(numerics: &N, v: Value, ps: Seq<Value>, r: Result<Value, ModifierError>) -> bool {
    ps.len() == 0 ==> match v {
        Value::String(s) => match r {
            Ok(Value::Number(x)) => parsed_as(numerics, s@, Some(x)),
            Ok(_) => false,
            Err(_) => parsed_as(numerics, s@, None),
        },
        _ => true,
    }
}

/// `eq` compares values of the same type; numbers compare as IEEE-754 numbers.
pub open spec fn eq_outcome(v: Value, ps: Seq<Value>, r: Result<Value, ModifierError>) -> bool {
    if ps.len() != 1 {
        amount_error(r, 1)
    } else {
        match (v, ps[0]) {
            (Value::String(a), Value::String(b)) => r == Ok::<Value, ModifierError>(Value::Boolean(a@ == b@)),
            (Value::Number(a), Value::Number(b)) => r == Ok::<Value, ModifierError>(Value::Boolean(numbers_equal(a, b))),
            (Value::Boolean(a), Value::Boolean(b)) => r == Ok::<Value, ModifierError>(Value::Boolean(a == b)),
            _ => parameter_type_error(r, 0),
        }
    }
}

/// Shared by the four arithmetic modifiers.
fn arithmetic<N: Numerics>(op: u8, variable: Value, parameters: Vec<Value>, numerics: &N) -> (r: Result<Value, ModifierError>)
    requires
        op < 4,
    ensures
        arithmetic_outcome(op == 3, variable, parameters@, r),
        arithmetic_given(numerics, op as int, variable, parameters@, r),
        r matches Err(e) ==> indices_fit(e, parameters@.len()),
        r matches Err(e) ==> e.notes@.len() <= 1 && forall|k: int| #![trigger e.notes@[k]] 0 <= k < e.notes@.len() ==> (e.notes@[k] matches ModifierErrorNote::Parameter(i, _) && i == 0),
        r matches Err(e) ==> (e.error matches ModifierErrorType::ParameterType(i, _) ==> i == 0),
        r matches Err(e) ==> (op != 3 ==> e.notes@.len() == 0),
{
    if parameters.len() != 1 {
        return Err(ModifierError::simple(ModifierErrorType::ParameterAmount(1)));
    }
    match (variable, &parameters[0]) {
        (Value::Number(a), Value::Number(b)) => {
            if op == 0 {
                Ok(Value::Number(numerics.sum(a, *b)))
            } else if op == 1 {
                Ok(Value::Number(numerics.difference(a, *b)))
            } else if op == 2 {
                Ok(Value::Number(numerics.product(a, *b)))
            } else if zero(*b) {
                let mut notes = Vec::new();
                notes.push(ModifierErrorNote::Parameter(0, text("evaluates to zero")));
                Err(ModifierError::noted(ModifierErrorType::Runtime(text("cannot divide by 0")), notes))
            } else {
                Ok(Value::Number(numerics.quotient(a, *b)))
            }
        },
        (Value::Number(_), _) => Err(ModifierError::simple(ModifierErrorType::ParameterType(0, Value::Number(0)))),
        _ => Err(ModifierError::simple(ModifierErrorType::VariableType(Value::Number(0)))),
    }
}

impl AddModifier {
    pub fn evaluate<N: Numerics>(&self, variable: Value, parameters: Vec<Value>, numerics: &N) -> (r: Result<Value, ModifierError>)
        ensures
            arithmetic_outcome(false, variable, parameters@, r),
            arithmetic_given(numerics, 0, variable, parameters@, r),
            r matches Err(e) ==> indices_fit(e, parameters@.len()),
            r matches Err(e) ==> e.notes@.len() == 0 && (e.error matches ModifierErrorType::ParameterType(i, _) ==> i == 0),
    {
        arithmetic(0, variable, parameters, numerics)
    }
}

impl SubtractModifier {
    pub fn evaluate<N: Numerics>(&self, variable: Value, parameters: Vec<Value>, numerics: &N) -> (r: Result<Value, ModifierError>)
        ensures
            arithmetic_outcome(false, variable, parameters@, r),
            arithmetic_given(numerics, 1, variable, parameters@, r),
            r matches Err(e) ==> indices_fit(e, parameters@.len()),
            r matches Err(e) ==> e.notes@.len() == 0 && (e.error matches ModifierErrorType::ParameterType(i, _) ==> i == 0),
    {
        arithmetic(1, variable, parameters, numerics)
    }
}

impl MultiplyModifier {
    pub fn evaluate<N: Numerics>(&self, variable: Value, parameters: Vec<Value>, numerics: &N) -> (r: Result<Value, ModifierError>)
        ensures
            arithmetic_outcome(false, variable, parameters@, r),
            arithmetic_given(numerics, 2, variable, parameters@, r),
            r matches Err(e) ==> indices_fit(e, parameters@.len()),
            r matches Err(e) ==> e.notes@.len() == 0 && (e.error matches ModifierErrorType::ParameterType(i, _) ==> i == 0),
    {
        arithmetic(2, variable, parameters, numerics)
    }
}

impl DivisionModifier {
    pub fn evaluate<N: Numerics>(&self, variable: Value, parameters: Vec<Value>, numerics: &N) -> (r: Result<Value, ModifierError>)
        ensures
            arithmetic_outcome(true, variable, parameters@, r),
            arithmetic_given(numerics, 3, variable, parameters@, r),
            r matches Err(e) ==> indices_fit(e, parameters@.len()),
            r matches Err(e) ==> e.notes@.len() <= 1 && forall|k: int| #![trigger e.notes@[k]] 0 <= k < e.notes@.len() ==> (e.notes@[k] matches ModifierErrorNote::Parameter(i, _) && i == 0),
            r matches Err(e) ==> (e.error matches ModifierErrorType::ParameterType(i, _) ==> i == 0),
    {
        arithmetic(3, variable, parameters, numerics)
    }
}

impl NegativeModifier {
    pub fn evaluate(&self, variable: Value, parameters: Vec<Value>) -> (r: Result<Value, ModifierError>)
        ensures
            negative_outcome(variable, parameters@, r),
            r matches Err(e) ==> indices_fit(e, parameters@.len()),
            r matches Err(e) ==> e.notes@.len() == 0,
    {
        if parameters.len() != 0 {
            return Err(ModifierError::simple(ModifierErrorType::ParameterAmount(0)));
        }
        if let Value::Number(value) = variable {
            Ok(Value::Number(negate(value)))
        } else {
            Err(ModifierError::simple(ModifierErrorType::VariableType(Value::Number(0))))
        }
    }
}

impl ParseNumberModifier {
    pub fn evaluate<N: Numerics>(&self, variable: Value, parameters: Vec<Value>, numerics: &N) -> (r: Result<Value, ModifierError>)
        ensures
            parse_outcome(variable, parameters@, r),
            parse_given(numerics, variable, parameters@, r),
            r matches Err(e) ==> indices_fit(e, parameters@.len()),
            r matches Err(e) ==> forall|k: int| #![trigger e.notes@[k]] 0 <= k < e.notes@.len() ==> e.notes@[k] is Variable,
    {
        if parameters.len() != 0 {
            return Err(ModifierError::simple(ModifierErrorType::ParameterAmount(0)));
        }
        if let Value::String(value) = variable {
            match numerics.parse(value.as_str()) {
                Some(val) => Ok(Value::Number(val)),
                None => {
                    assert(parsed_as(numerics, value@, None));
                    let mut notes = Vec::new();
                    notes.push(ModifierErrorNote::Variable(text("string can not be parsed as a number")));
                    Err(ModifierError::noted(ModifierErrorType::VariableType(Value::String(text(""))), notes))
                },
            }
        } else {
            Err(ModifierError::simple(ModifierErrorType::VariableType(Value::String(text("")))))
        }
    }
}

/// `eq`: whether the variable equals the parameter.
pub struct EqModifier;

impl EqModifier {
    pub fn evaluate(&self, variable: Value, parameters: Vec<Value>) -> (r: Result<Value, ModifierError>)
        ensures
            eq_outcome(variable, parameters@, r),
            r matches Err(e) ==> indices_fit(e, parameters@.len()),
            r matches Err(e) ==> forall|k: int| #![trigger e.notes@[k]] 0 <= k < e.notes@.len() ==> e.notes@[k] is Variable,
            r matches Err(e) ==> (e.error matches ModifierErrorType::ParameterType(i, _) ==> i == 0),
    {
        if parameters.len() != 1 {
            return Err(ModifierError::simple(ModifierErrorType::ParameterAmount(1)));
        }
        let parameter = &parameters[0];
        let same = match (&variable, parameter) {
            (Value::String(s1), Value::String(s2)) => Some(*s1 == *s2),
            (Value::Number(n1), Value::Number(n2)) => Some(equal(*n1, *n2)),
            (Value::Boolean(b1), Value::Boolean(b2)) => Some(*b1 == *b2),
            _ => None,
        };
        match same {
            Some(b) => Ok(Value::Boolean(b)),
            None => {
                let mut notes = Vec::new();
                notes.push(ModifierErrorNote::Variable(text("should be of the same type as the variable")));
                Err(ModifierError::noted(ModifierErrorType::ParameterType(0, variable), notes))
            },
        }
    }
}

} // verus!
