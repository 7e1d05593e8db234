//! Modifiers on booleans.
use vstd::prelude::*;
use crate::variables::Value;
use crate::variables::modifier::{
    indices_fit,
    ModifierError, ModifierErrorType, amount_error, variable_type_error, parameter_type_error,
};

verus! {

/// `not`: inverts a boolean.
pub struct NotModifier;

/// `or`: a boolean or with the parameter.
pub struct OrModifier;

/// `and`: a boolean and with the parameter.
pub struct AndModifier;

/// `if`: chooses the first parameter when the variable is true, the second otherwise.
pub struct IfModifier;

pub open spec fn not_outcome(v: Value, ps: Seq<Value>, r: Result<Value, ModifierError>) -> bool {
    if ps.len() != 0 {
        amount_error(r, 0)
    } else {
        match v {
            Value::Boolean(b) => r == Ok::<Value, ModifierError>(Value::Boolean(!b)),
            _ => variable_type_error(r),
        }
    }
}

/// The outcome of `and` (`conjunction`) or `or`.
pub open spec fn logic_outcome(conjunction: bool, v: Value, ps: Seq<Value>, r: Result<Value, ModifierError>) -> bool {
    if ps.len() != 1 {
        amount_error(r, 1)
    } else {
        match (v, ps[0]) {
            (Value::Boolean(a), Value::Boolean(b)) => r == Ok::<Value, ModifierError>(
                Value::Boolean(if conjunction { a && b } else { a || b }),
            ),
            (Value::Boolean(_), _) => parameter_type_error(r, 0),
            _ => variable_type_error(r),
        }
    }
}

pub open spec fn if_outcome(v: Value, ps: Seq<Value>, r: Result<Value, ModifierError>) -> bool {
    if ps.len() != 2 {
        amount_error(r, 2)
    } else {
        match v {
            Value::Boolean(c) => r == Ok::<Value, ModifierError>(if c { ps[0] } else { ps[1] }),
            _ => variable_type_error(r),
        }
    }
}

impl NotModifier {
    pub fn evaluate(&self, variable: Value, parameters: Vec<Value>) -> (r: Result<Value, ModifierError>)
        ensures
            not_outcome(variable, parameters@, r),
            r matches Err(e) ==> indices_fit(e, parameters@.len()),
    {
        if parameters.len() != 0 {
            return Err(ModifierError::simple(ModifierErrorType::ParameterAmount(0)));
        }
        if let Value::Boolean(value) = variable {
            Ok(Value::Boolean(!value))
        } else {
            Err(ModifierError::simple(ModifierErrorType::VariableType(Value::Boolean(false))))
        }
    }
}

impl OrModifier {
    pub fn evaluate(&self, variable: Value, parameters: Vec<Value>) -> (r: Result<Value, ModifierError>)
        ensures
            logic_outcome(false, variable, parameters@, r),
            r matches Err(e) ==> indices_fit(e, parameters@.len()),
    {
        if parameters.len() != 1 {
            return Err(ModifierError::simple(ModifierErrorType::ParameterAmount(1)));
        }
        match (variable, &parameters[0]) {
            (Value::Boolean(a), Value::Boolean(b)) => Ok(Value::Boolean(a || *b)),
            (Value::Boolean(_), _) => Err(
                ModifierError::simple(ModifierErrorType::ParameterType(0, Value::Boolean(false))),
            ),
            _ => Err(ModifierError::simple(ModifierErrorType::VariableType(Value::Boolean(false)))),
        }
    }
}

impl AndModifier {
    pub fn evaluate(&self, variable: Value, parameters: Vec<Value>) -> (r: Result<Value, ModifierError>)
        ensures
            logic_outcome(true, variable, parameters@, r),
            r matches Err(e) ==> indices_fit(e, parameters@.len()),
    {
        if parameters.len() != 1 {
            return Err(ModifierError::simple(ModifierErrorType::ParameterAmount(1)));
        }
        match (variable, &parameters[0]) {
            (Value::Boolean(a), Value::Boolean(b)) => Ok(Value::Boolean(a && *b)),
            (Value::Boolean(_), _) => Err(
                ModifierError::simple(ModifierErrorType::ParameterType(0, Value::Boolean(false))),
            ),
            _ => Err(ModifierError::simple(ModifierErrorType::VariableType(Value::Boolean(false)))),
        }
    }
}

impl IfModifier {
    pub fn evaluate(&self, variable: Value, parameters: Vec<Value>) -> (r: Result<Value, ModifierError>)
        ensures
            if_outcome(variable, parameters@, r),
            r matches Err(e) ==> indices_fit(e, parameters@.len()),
    {
        let mut parameters = parameters;
        if parameters.len() != 2 {
            return Err(ModifierError::simple(ModifierErrorType::ParameterAmount(2)));
        }
        if let Value::Boolean(condition) = variable {
            if condition {
                Ok(parameters.remove(0))
            } else {
                Ok(parameters.remove(1))
            }
        } else {
            Err(ModifierError::simple(ModifierErrorType::VariableType(Value::Boolean(false))))
        }
    }
}

} // verus!
