//! Modifiers, which transform the value of an expression, e.g. `name:case-upper`.
pub mod boolean;
pub mod number;
pub mod string;
pub mod color;

use std::ops::Range;
use vstd::prelude::*;
use crate::numbers::Numerics;
use crate::variables::{Value, VariableError};
use crate::variables::context::{Expression, ExpressionModifier};
use crate::variables::token::text;
use crate::text::{decimal, decimal_text, chars_of, chars_equal, string_from, copy_string as copy_text};
use crate::variables::kind_name_of;
use crate::variables::modifier::boolean::{
    NotModifier, OrModifier, AndModifier, IfModifier, not_outcome, logic_outcome, if_outcome,
};
use crate::variables::modifier::number::{
    AddModifier, SubtractModifier, MultiplyModifier, DivisionModifier, NegativeModifier,
    ParseNumberModifier, EqModifier, arithmetic_outcome, negative_outcome, parse_outcome, eq_outcome,
    arithmetic_given, parse_given,
};
use crate::variables::modifier::string::{
    UpperCaseModifier, LowerCaseModifier, CamelCaseModifier, SnakeCaseModifier, PascalCaseModifier,
    KebabCaseModifier, ContainsModifier, ShellexpandModifier, CaseStyle, letter_case_outcome,
    case_outcome, contains_outcome, tilde_outcome,
};
use crate::variables::modifier::color::{FormatColorModifier, format_color_outcome, color_given};

verus! {

/// The kind of failure of a modifier.
pub enum ModifierErrorType {
    /// The number of parameters is wrong; the expected number.
    ParameterAmount(usize),
    /// A parameter has the wrong type; its index, and a value of the expected type.
    ParameterType(usize, Value),
    /// The variable has the wrong type; a value of the expected type.
    VariableType(Value),
    /// The modifier failed while computing; what happened.
    Runtime(String),
}

/// A detail added to a modifier error.
pub enum ModifierErrorNote {
    /// About the variable itself.
    Variable(String),
    /// About the parameter at an index.
    Parameter(usize, String),
}

/// A modifier error, which can be turned into a variable error.
pub struct ModifierError {
    pub error: ModifierErrorType,
    pub notes: Vec<ModifierErrorNote>,
}

impl ModifierError {
    /// A modifier error without notes.
    pub fn simple(error: ModifierErrorType) -> (r: Self)
        ensures
            r.error == error,
            r.notes@.len() == 0,
    {
        ModifierError { error, notes: Vec::new() }
    }

    /// A modifier error with notes.
    pub fn noted(error: ModifierErrorType, notes: Vec<ModifierErrorNote>) -> (r: Self)
        ensures
            r.error == error,
            r.notes == notes,
    {
        ModifierError { error, notes }
    }
}

/// The parameter indices an error refers to exist among `n` parameters.
pub open spec fn indices_fit(e: ModifierError, n: nat) -> bool {
    &&& (e.error matches ModifierErrorType::ParameterType(i, _) ==> i < n)
    &&& forall|k: int|
        #![trigger e.notes@[k]]
        0 <= k < e.notes@.len() ==> (e.notes@[k] matches ModifierErrorNote::Parameter(i, _) ==> i < n)
}

pub open spec fn amount_error(r: Result<Value, ModifierError>, n: usize) -> bool {
    r matches Err(e) && e.error == ModifierErrorType::ParameterAmount(n)
}

pub open spec fn variable_type_error(r: Result<Value, ModifierError>) -> bool {
    r matches Err(e) && e.error is VariableType
}

pub open spec fn parameter_type_error(r: Result<Value, ModifierError>, i: usize) -> bool {
    r matches Err(e) && (e.error matches ModifierErrorType::ParameterType(j, _) && j == i)
}

pub open spec fn runtime_error(r: Result<Value, ModifierError>) -> bool {
    r matches Err(e) && e.error is Runtime
}

/// Every modifier there is.
pub enum ModifierKind {
    UpperCase,
    LowerCase,
    CamelCase,
    SnakeCase,
    PascalCase,
    KebabCase,
    Contains,
    Shellexpand,
    Not,
    And,
    Or,
    If,
    Add,
    Subtract,
    Multiply,
    Division,
    Negative,
    ParseNumber,
    Eq,
    FormatColor,
}

/// The modifier a name stands for.
pub open spec fn modifier_kind(name: Seq<char>) -> Option<ModifierKind> {
    if name == "case-upper"@ {
        Some(ModifierKind::UpperCase)
    } else if name == "case-lower"@ {
        Some(ModifierKind::LowerCase)
    } else if name == "case-camel"@ {
        Some(ModifierKind::CamelCase)
    } else if name == "case-snake"@ {
        Some(ModifierKind::SnakeCase)
    } else if name == "case-pascal"@ {
        Some(ModifierKind::PascalCase)
    } else if name == "case-kebab"@ {
        Some(ModifierKind::KebabCase)
    } else if name == "contains"@ {
        Some(ModifierKind::Contains)
    } else if name == "tilde"@ {
        Some(ModifierKind::Shellexpand)
    } else if name == "not"@ {
        Some(ModifierKind::Not)
    } else if name == "and"@ {
        Some(ModifierKind::And)
    } else if name == "or"@ {
        Some(ModifierKind::Or)
    } else if name == "if"@ {
        Some(ModifierKind::If)
    } else if name == "add"@ {
        Some(ModifierKind::Add)
    } else if name == "sub"@ {
        Some(ModifierKind::Subtract)
    } else if name == "mul"@ {
        Some(ModifierKind::Multiply)
    } else if name == "div"@ {
        Some(ModifierKind::Division)
    } else if name == "neg"@ {
        Some(ModifierKind::Negative)
    } else if name == "parsenum"@ {
        Some(ModifierKind::ParseNumber)
    } else if name == "eq"@ {
        Some(ModifierKind::Eq)
    } else if name == "format-color"@ {
        Some(ModifierKind::FormatColor)
    } else {
        None
    }
}

/// Whether the names are equal.
pub(crate) fn name_is(name: &Vec<char>, lit: &str) -> (r: bool)
    ensures
        r == (name@ == lit@),
{
    let y = chars_of(lit);
    chars_equal(name, &y)
}

/// Looks up the modifier with the given name.
pub fn get_modifier(name: &str) -> (r: Option<ModifierKind>)
    ensures
        r == modifier_kind(name@),
{
    let n = chars_of(name);
    if name_is(&n, "case-upper") {
        Some(ModifierKind::UpperCase)
    } else if name_is(&n, "case-lower") {
        Some(ModifierKind::LowerCase)
    } else if name_is(&n, "case-camel") {
        Some(ModifierKind::CamelCase)
    } else if name_is(&n, "case-snake") {
        Some(ModifierKind::SnakeCase)
    } else if name_is(&n, "case-pascal") {
        Some(ModifierKind::PascalCase)
    } else if name_is(&n, "case-kebab") {
        Some(ModifierKind::KebabCase)
    } else if name_is(&n, "contains") {
        Some(ModifierKind::Contains)
    } else if name_is(&n, "tilde") {
        Some(ModifierKind::Shellexpand)
    } else if name_is(&n, "not") {
        Some(ModifierKind::Not)
    } else if name_is(&n, "and") {
        Some(ModifierKind::And)
    } else if name_is(&n, "or") {
        Some(ModifierKind::Or)
    } else if name_is(&n, "if") {
        Some(ModifierKind::If)
    } else if name_is(&n, "add") {
        Some(ModifierKind::Add)
    } else if name_is(&n, "sub") {
        Some(ModifierKind::Subtract)
    } else if name_is(&n, "mul") {
        Some(ModifierKind::Multiply)
    } else if name_is(&n, "div") {
        Some(ModifierKind::Division)
    } else if name_is(&n, "neg") {
        Some(ModifierKind::Negative)
    } else if name_is(&n, "parsenum") {
        Some(ModifierKind::ParseNumber)
    } else if name_is(&n, "eq") {
        Some(ModifierKind::Eq)
    } else if name_is(&n, "format-color") {
        Some(ModifierKind::FormatColor)
    } else {
        None
    }
}


/// What a modifier gives for a variable and parameters.
pub open spec fn modifier_outcome(kind: ModifierKind, v: Value, ps: Seq<Value>, r: Result<Value, ModifierError>) -> bool {
    match kind {
        ModifierKind::UpperCase => letter_case_outcome(true, v, ps, r),
        ModifierKind::LowerCase => letter_case_outcome(false, v, ps, r),
        ModifierKind::CamelCase => case_outcome(CaseStyle::Camel, v, ps, r),
        ModifierKind::SnakeCase => case_outcome(CaseStyle::Snake, v, ps, r),
        ModifierKind::PascalCase => case_outcome(CaseStyle::Pascal, v, ps, r),
        ModifierKind::KebabCase => case_outcome(CaseStyle::Kebab, v, ps, r),
        ModifierKind::Contains => contains_outcome(v, ps, r),
        ModifierKind::Shellexpand => tilde_outcome(v, ps, r),
        ModifierKind::Not => not_outcome(v, ps, r),
        ModifierKind::And => logic_outcome(true, v, ps, r),
        ModifierKind::Or => logic_outcome(false, v, ps, r),
        ModifierKind::If => if_outcome(v, ps, r),
        ModifierKind::Add => arithmetic_outcome(false, v, ps, r),
        ModifierKind::Subtract => arithmetic_outcome(false, v, ps, r),
        ModifierKind::Multiply => arithmetic_outcome(false, v, ps, r),
        ModifierKind::Division => arithmetic_outcome(true, v, ps, r),
        ModifierKind::Negative => negative_outcome(v, ps, r),
        ModifierKind::ParseNumber => parse_outcome(v, ps, r),
        ModifierKind::Eq => eq_outcome(v, ps, r),
        ModifierKind::FormatColor => format_color_outcome(v, ps, r),
    }
}

/// What a modifier that computes with the numerics gives: `add`, `sub`, `mul` and `div` the
/// numerics' sum, difference, product and quotient of the operands, `parse-number` the number
/// that the numerics parse the string to (and an error exactly when they parse none), and
/// `format-color` the fractions that the numerics write for the components. The other
/// modifiers do not use the numerics.
pub open spec fn numerics_give<N: Numerics>(kind: ModifierKind, numerics: &N, v: Value, ps: Seq<Value>, r: Result<Value, ModifierError>) -> bool {
    match kind {
        ModifierKind::Add => arithmetic_given(numerics, 0, v, ps, r),
        ModifierKind::Subtract => arithmetic_given(numerics, 1, v, ps, r),
        ModifierKind::Multiply => arithmetic_given(numerics, 2, v, ps, r),
        ModifierKind::Division => arithmetic_given(numerics, 3, v, ps, r),
        ModifierKind::ParseNumber => parse_given(numerics, v, ps, r),
        ModifierKind::FormatColor => color_given(numerics, v, ps, r),
        _ => true,
    }
}

/// A variable modifier.
pub trait Modifier {
    /// Applies the modifier to a variable with parameters; `numerics` does the arithmetic.
    fn evaluate<N: Numerics>(&self, variable: Value, parameters: Vec<Value>, numerics: &N) -> (r: Result<Value, ModifierError>);
}

impl Modifier for ModifierKind {
    fn evaluate<N: Numerics>(&self, variable: Value, parameters: Vec<Value>, numerics: &N) -> (r: Result<Value, ModifierError>)
        ensures
            modifier_outcome(*self, variable, parameters@, r),
            numerics_give(*self, numerics, variable, parameters@, r),
            r matches Err(e) ==> indices_fit(e, parameters@.len()),
    {
        match self {
            ModifierKind::UpperCase => UpperCaseModifier.evaluate(variable, parameters),
            ModifierKind::LowerCase => LowerCaseModifier.evaluate(variable, parameters),
            ModifierKind::CamelCase => CamelCaseModifier.evaluate(variable, parameters),
            ModifierKind::SnakeCase => SnakeCaseModifier.evaluate(variable, parameters),
            ModifierKind::PascalCase => PascalCaseModifier.evaluate(variable, parameters),
            ModifierKind::KebabCase => KebabCaseModifier.evaluate(variable, parameters),
            ModifierKind::Contains => ContainsModifier.evaluate(variable, parameters),
            ModifierKind::Shellexpand => ShellexpandModifier.evaluate(variable, parameters),
            ModifierKind::Not => NotModifier.evaluate(variable, parameters),
            ModifierKind::And => AndModifier.evaluate(variable, parameters),
            ModifierKind::Or => OrModifier.evaluate(variable, parameters),
            ModifierKind::If => IfModifier.evaluate(variable, parameters),
            ModifierKind::Add => AddModifier.evaluate(variable, parameters, numerics),
            ModifierKind::Subtract => SubtractModifier.evaluate(variable, parameters, numerics),
            ModifierKind::Multiply => MultiplyModifier.evaluate(variable, parameters, numerics),
            ModifierKind::Division => DivisionModifier.evaluate(variable, parameters, numerics),
            ModifierKind::Negative => NegativeModifier.evaluate(variable, parameters),
            ModifierKind::ParseNumber => ParseNumberModifier.evaluate(variable, parameters, numerics),
            ModifierKind::Eq => EqModifier.evaluate(variable, parameters),
            ModifierKind::FormatColor => FormatColorModifier.evaluate(variable, parameters, numerics),
        }
    }
}

/// Whether a modifier gives a value for a value and parameters.
pub open spec fn modifier_accepts(kind: ModifierKind, v: Value, ps: Seq<Value>) -> bool {
    exists|x: Value| #[trigger] modifier_outcome(kind, v, ps, Ok::<Value, ModifierError>(x))
}

/// Whether a modifier other than `parse-number`, whose success the numerics decide, succeeds on a
/// value and parameters is settled by them: two outcomes of it are both values or both errors.
pub proof fn lemma_outcome_settled(kind: ModifierKind, v: Value, ps: Seq<Value>, a: Result<Value, ModifierError>, b: Result<Value, ModifierError>)
    requires
        kind != ModifierKind::ParseNumber,
        modifier_outcome(kind, v, ps, a),
        modifier_outcome(kind, v, ps, b),
    ensures
        a is Ok == b is Ok,
{
}

/// Applies the modifier with the given name, or gives `None` when there is no such modifier.
pub fn evaluate_modifier<N: Numerics>(modifier: &str, variable: Value, parameters: Vec<Value>, numerics: &N) -> (r: Option<Result<Value, ModifierError>>)
    ensures
        match modifier_kind(modifier@) {
            None => r is None,
            Some(kind) => r matches Some(res) && modifier_outcome(kind, variable, parameters@, res)
                && numerics_give(kind, numerics, variable, parameters@, res)
                && (res matches Err(e) ==> indices_fit(e, parameters@.len())),
        },
{
    match get_modifier(modifier) {
        Some(kind) => Some(kind.evaluate(variable, parameters, numerics)),
        None => None,
    }
}

pub open spec fn error_title(e: ModifierErrorType) -> Seq<char> {
    match e {
        ModifierErrorType::ParameterAmount(_) => "invalid amount of modifier parameters"@,
        ModifierErrorType::ParameterType(_, _) => "invalid parameter type for modifier"@,
        ModifierErrorType::VariableType(_) => "variable has invalid type for modifier"@,
        ModifierErrorType::Runtime(_) => "modifier runtime error"@,
    }
}

pub open spec fn error_summary(e: ModifierErrorType) -> Seq<char> {
    match e {
        ModifierErrorType::ParameterAmount(_) => "invalid amount of parameters provided to the modifier"@,
        ModifierErrorType::ParameterType(_, _) => "the shown parameter provided is of the wrong type"@,
        ModifierErrorType::VariableType(_) => "the base for the modifier is of the wrong type"@,
        ModifierErrorType::Runtime(s) => s@,
    }
}

/// Where the primary label of the error points, and what it says.
pub open spec fn primary_label(e: ModifierErrorType, expr: Expression, m: ExpressionModifier) -> (Range<usize>, Seq<char>) {
    match e {
        ModifierErrorType::ParameterAmount(u) => (m.name_range, "modifier expects "@ + decimal(u as nat)
            + " parameters, found "@ + decimal(m.parameters@.len())),
        ModifierErrorType::ParameterType(i, t) => (m.parameters@[i as int].content_range,
            "modifier expected parameter as type "@ + kind_name_of(t.view())),
        ModifierErrorType::VariableType(t) => (expr.content_range, "modifier expected base as type "@
            + kind_name_of(t.view())),
        ModifierErrorType::Runtime(s) => (m.name_range, s@),
    }
}

/// The position before the start of a range; a range that starts at the beginning of the text
/// has none, and gives the beginning itself.
pub open spec fn before_start(r: Range<usize>) -> usize {
    if r.start >= 1 {
        (r.start - 1) as usize
    } else {
        0
    }
}

/// Where a note points, and what it says.
pub open spec fn note_label(n: ModifierErrorNote, expr: Expression, m: ExpressionModifier) -> (Range<usize>, Seq<char>) {
    match n {
        ModifierErrorNote::Variable(s) => (expr.content_range.start..before_start(m.name_range), s@),
        ModifierErrorNote::Parameter(i, s) => (m.parameters@[i as int].content_range, s@),
    }
}

/// The general error that a modifier error becomes.
pub open spec fn general_error(e: ModifierError, expr: Expression, m: ExpressionModifier, g: VariableError) -> bool {
    &&& g.title@ == error_title(e.error)
    &&& (g.primary.0, g.primary.1@) == primary_label(e.error, expr, m)
    &&& g.secondary@.len() == e.notes@.len()
    &&& forall|k: int| 0 <= k < e.notes@.len() ==> ((#[trigger] g.secondary@[k]).0, g.secondary@[k].1@) == note_label(e.notes@[k], expr, m)
    &&& g.summary@ == error_summary(e.error)
}

/// Joins literal text and owned text.
fn concat(a: &str, b: &String) -> (r: String)
    ensures
        r@ == a@ + b@,
{
    let mut x = chars_of(a);
    let y = chars_of(b.as_str());
    let mut i: usize = 0;
    let ghost a0 = x@;
    while i < y.len()
        invariant
            i <= y@.len(),
            x@ == a0 + y@.subrange(0, i as int),
        decreases y@.len() - i,
    {
        x.push(y[i]);
        i = i + 1;
        assert(x@ =~= a0 + y@.subrange(0, i as int));
    }
    assert(y@.subrange(0, y@.len() as int) =~= y@);
    string_from(&x)
}

impl ModifierError {
    /// Turns the modifier error into a general variable error about the expression and modifier.
    pub fn to_general(&self, expr: &Expression, modifier: &ExpressionModifier) -> (g: VariableError)
        requires
            indices_fit(*self, modifier.parameters@.len()),
        ensures
            general_error(*self, *expr, *modifier, g),
    {
        proof {
            reveal_strlit("invalid amount of modifier parameters");
            reveal_strlit("invalid parameter type for modifier");
            reveal_strlit("variable has invalid type for modifier");
            reveal_strlit("modifier runtime error");
            reveal_strlit("invalid amount of parameters provided to the modifier");
            reveal_strlit("the shown parameter provided is of the wrong type");
            reveal_strlit("the base for the modifier is of the wrong type");
        }
        let title = match &self.error {
            ModifierErrorType::ParameterAmount(_) => text("invalid amount of modifier parameters"),
            ModifierErrorType::ParameterType(_, _) => text("invalid parameter type for modifier"),
            ModifierErrorType::VariableType(_) => text("variable has invalid type for modifier"),
            ModifierErrorType::Runtime(_) => text("modifier runtime error"),
        };
        let primary = match &self.error {
            ModifierErrorType::ParameterAmount(u) => {
                let a = concat("modifier expects ", &decimal_text(*u));
                let b = concat(" parameters, found ", &decimal_text(modifier.parameters.len()));
                let mut m = chars_of(a.as_str());
                let bc = chars_of(b.as_str());
                let ghost m0 = m@;
                let mut i: usize = 0;
                while i < bc.len()
                    invariant
                        i <= bc@.len(),
                        m@ == m0 + bc@.subrange(0, i as int),
                    decreases bc@.len() - i,
                {
                    m.push(bc[i]);
                    i = i + 1;
                    assert(m@ =~= m0 + bc@.subrange(0, i as int));
                }
                assert(bc@.subrange(0, bc@.len() as int) =~= bc@);
                proof {
                    reveal_strlit("modifier expects ");
                    reveal_strlit(" parameters, found ");
                    assert(m@ =~= "modifier expects "@ + decimal(*u as nat) + " parameters, found "@ + decimal(modifier.parameters@.len()));
                }
                (modifier.name_range.start..modifier.name_range.end, string_from(&m))
            },
            ModifierErrorType::ParameterType(index, t) => {
                let parameter = &modifier.parameters[*index];
                (parameter.content_range.start..parameter.content_range.end, concat("modifier expected parameter as type ", &text(t.kind_name())))
            },
            ModifierErrorType::VariableType(t) => {
                (expr.content_range.start..expr.content_range.end, concat("modifier expected base as type ", &text(t.kind_name())))
            },
            ModifierErrorType::Runtime(s) => (modifier.name_range.start..modifier.name_range.end, copy_text(s)),
        };
        let mut secondary: Vec<(Range<usize>, String)> = Vec::new();
        let mut k: usize = 0;
        while k < self.notes.len()
            invariant
                k <= self.notes@.len(),
                secondary@.len() == k,
                indices_fit(*self, modifier.parameters@.len()),
                forall|j: int| 0 <= j < k ==> ((#[trigger] secondary@[j]).0, secondary@[j].1@) == note_label(self.notes@[j], *expr, *modifier),
            decreases self.notes@.len() - k,
        {
            let label = match &self.notes[k] {
                ModifierErrorNote::Variable(s) => {
                    let end = if modifier.name_range.start >= 1 { modifier.name_range.start - 1 } else { 0 };
                    (expr.content_range.start..end, copy_text(s))
                },
                ModifierErrorNote::Parameter(i, s) => {
                    assert(self.notes@[k as int] matches ModifierErrorNote::Parameter(j, _) && j < modifier.parameters@.len());
                    (modifier.parameters[*i].content_range.start..modifier.parameters[*i].content_range.end, copy_text(s))
                },
            };
            secondary.push(label);
            k = k + 1;
        }
        let summary = match &self.error {
            ModifierErrorType::ParameterAmount(_) => text("invalid amount of parameters provided to the modifier"),
            ModifierErrorType::ParameterType(_, _) => text("the shown parameter provided is of the wrong type"),
            ModifierErrorType::VariableType(_) => text("the base for the modifier is of the wrong type"),
            ModifierErrorType::Runtime(s) => copy_text(s),
        };
        VariableError { title, primary, secondary, summary }
    }
}

} // verus!
