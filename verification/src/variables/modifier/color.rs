//! `format-color`: formats an RGB(A) color the way date formatters format dates.
use vstd::prelude::*;
use crate::numbers::Numerics;
use crate::text::{chars_of, string_from, decimal, decimal_text};
use crate::variables::Value;
use crate::variables::modifier::{
    ModifierError, ModifierErrorType, ModifierErrorNote, amount_error, variable_type_error,
    parameter_type_error, indices_fit,
};
use crate::variables::token::text;

verus! {

/// `format-color`: the variable is a color `(#)RRGGBB(AA)`, the parameter a format in which
/// `%` followed by `X` (hex), `D` (decimal) or `F` (fraction of 255) and by a component
/// `r`, `g`, `b` or `a` is replaced by that component.
pub struct FormatColorModifier;

pub open spec fn is_hex(c: char) -> bool {
    ('0' <= c && c <= '9') || ('a' <= c && c <= 'f') || ('A' <= c && c <= 'F')
}

pub open spec fn hex_value(c: char) -> int {
    if '0' <= c && c <= '9' {
        c as int - '0' as int
    } else if 'a' <= c && c <= 'f' {
        c as int - 'a' as int + 10
    } else {
        c as int - 'A' as int + 10
    }
}

/// The byte that the two hex digits at `i` spell.
pub open spec fn hex_byte(t: Seq<char>, i: int) -> u8 {
    (hex_value(t[i]) * 16 + hex_value(t[i + 1])) as u8
}

/// The text without its leading `#`, if it has one.
pub open spec fn color_digits(s: Seq<char>) -> Seq<char> {
    if s.len() > 0 && s[0] == '#' {
        s.drop_first()
    } else {
        s
    }
}

pub open spec fn all_hex(t: Seq<char>) -> bool {
    forall|i: int| 0 <= i < t.len() ==> is_hex(#[trigger] t[i])
}

/// The color a text spells, `(#)RRGGBB(AA)`, with alpha 255 when it is left out.
pub open spec fn color_of(s: Seq<char>) -> Option<(u8, u8, u8, u8)> {
    let t = color_digits(s);
    if (t.len() == 6 || t.len() == 8) && all_hex(t) {
        Some((hex_byte(t, 0), hex_byte(t, 2), hex_byte(t, 4), if t.len() == 8 {
            hex_byte(t, 6)
        } else {
            255u8
        }))
    } else {
        None
    }
}

pub open spec fn is_style(c: char) -> bool {
    c == 'X' || c == 'F' || c == 'D'
}

/// The index of a component letter among `r`, `g`, `b`, `a`; 4 for any other character.
pub open spec fn component_index(c: char) -> int {
    if c == 'r' {
        0
    } else if c == 'g' {
        1
    } else if c == 'b' {
        2
    } else if c == 'a' {
        3
    } else {
        4
    }
}

pub open spec fn component(color: (u8, u8, u8, u8), k: int) -> u8 {
    if k == 0 {
        color.0
    } else if k == 1 {
        color.1
    } else if k == 2 {
        color.2
    } else {
        color.3
    }
}

/// A lower-case hex digit.
pub open spec fn hex_digit(d: int) -> char {
    if d < 10 {
        (('0' as int) + d) as char
    } else {
        (('a' as int) + d - 10) as char
    }
}

/// A component written in a style; `fraction` is what `F` writes for it.
pub open spec fn styled_component(style: char, value: u8, fraction: Seq<char>) -> Seq<char> {
    if style == 'X' {
        seq![hex_digit((value / 16) as int), hex_digit((value % 16) as int)]
    } else if style == 'D' {
        decimal(value as nat)
    } else {
        fraction
    }
}

/// Whether a reference `%` style component starts at the beginning of `f`.
pub open spec fn reference_at(f: Seq<char>) -> bool {
    f.len() >= 3 && f[0] == '%' && is_style(f[1]) && component_index(f[2]) < 4
}

/// The format with each reference replaced, from left to right; `fractions[k]` is what `F`
/// writes for component `k`.
pub open spec fn color_format(f: Seq<char>, color: (u8, u8, u8, u8), fractions: Seq<Seq<char>>) -> Seq<char>
    decreases f.len(),
{
    if f.len() == 0 {
        Seq::empty()
    } else if reference_at(f) {
        let k = component_index(f[2]);
        styled_component(f[1], component(color, k), fractions[k]) + color_format(f.skip(3), color, fractions)
    } else {
        seq![f[0]] + color_format(f.drop_first(), color, fractions)
    }
}

/// `fs` are the texts the numerics write for the four components of a color, in order.
pub open spec fn fractions_given<N: Numerics>(numerics: &N, color: (u8, u8, u8, u8), fs: Seq<String>) -> bool {
    &&& fs.len() == 4
    &&& forall|k: int| 0 <= k < 4 ==> #[trigger] call_ensures(N::fraction, (numerics, component(color, k)), fs[k])
}

/// `format-color` writes each `F` reference with the text the numerics give for that very
/// component.
pub open spec fn color_given<N: Numerics>(numerics: &N, v: Value, ps: Seq<Value>, r: Result<Value, ModifierError>) -> bool {
    ps.len() == 1 ==> match (v, ps[0]) {
        (Value::String(s), Value::String(f)) => match color_of(s@) {
            Some(color) => r matches Ok(Value::String(t)) && exists|fs: Seq<String>|
                #[trigger] fractions_given(numerics, color, fs) && t@ == color_format(
                    f@,
                    color,
                    Seq::new(4, |k: int| fs[k]@),
                ),
            None => true,
        },
        _ => true,
    }
}

pub open spec fn format_color_outcome(v: Value, ps: Seq<Value>, r: Result<Value, ModifierError>) -> bool {
    match v {
        Value::String(s) => match color_of(s@) {
            None => variable_type_error(r),
            Some(color) => if ps.len() != 1 {
                amount_error(r, 1)
            } else {
                match ps[0] {
                    Value::String(f) => r matches Ok(Value::String(t)) && exists|fr: Seq<Seq<char>>|
                        fr.len() == 4 && #[trigger] color_format(f@, color, fr) == t@,
                    _ => parameter_type_error(r, 0),
                }
            },
        },
        _ => variable_type_error(r),
    }
}

fn hex_char_value(c: char) -> (r: u8)
    requires
        is_hex(c),
    ensures
        r == hex_value(c),
{
    if '0' <= c && c <= '9' {
        (c as u32 - '0' as u32) as u8
    } else if 'a' <= c && c <= 'f' {
        (c as u32 - 'a' as u32 + 10) as u8
    } else {
        (c as u32 - 'A' as u32 + 10) as u8
    }
}

/// Reads the color a text spells.
pub fn read_color(s: &Vec<char>) -> (r: Option<(u8, u8, u8, u8)>)
    ensures
        r == color_of(s@),
{
    let start: usize = if s.len() > 0 && s[0] == '#' { 1 } else { 0 };
    let ghost t = color_digits(s@);
    let n = s.len() - start;
    assert(t =~= s@.subrange(start as int, s@.len() as int));
    if n != 6 && n != 8 {
        return None;
    }
    let mut i = start;
    while i < s.len()
        invariant
            start <= i <= s@.len(),
            t == s@.subrange(start as int, s@.len() as int),
            t == color_digits(s@),
            t.len() == 6 || t.len() == 8,
            forall|j: int| 0 <= j < i - start ==> is_hex(#[trigger] t[j]),
        decreases s@.len() - i,
    {
        let c = s[i];
        if !(('0' <= c && c <= '9') || ('a' <= c && c <= 'f') || ('A' <= c && c <= 'F')) {
            assert(t[i - start] == c);
            assert(!is_hex(t[i - start]));
            return None;
        }
        i = i + 1;
    }
    proof {
        assert(t.len() == n);
        assert(forall|j: int| 0 <= j < t.len() ==> t[j] == s@[start + j]);
    }
    let v0 = hex_char_value(s[start]) * 16 + hex_char_value(s[start + 1]);
    let v1 = hex_char_value(s[start + 2]) * 16 + hex_char_value(s[start + 3]);
    let v2 = hex_char_value(s[start + 4]) * 16 + hex_char_value(s[start + 5]);
    let v3 = if n == 8 {
        hex_char_value(s[start + 6]) * 16 + hex_char_value(s[start + 7])
    } else {
        255u8
    };
    Some((v0, v1, v2, v3))
}

fn hex_digit_char(d: u8) -> (c: char)
    requires
        d < 16,
    ensures
        c == hex_digit(d as int),
{
    if d < 10 {
        (48u8 + d) as char
    } else {
        (87u8 + d) as char
    }
}

/// Replaces each reference of a format by the component it names.
pub fn render_color_format(f: &Vec<char>, color: (u8, u8, u8, u8), fractions: &Vec<Vec<char>>) -> (r: Vec<char>)
    requires
        fractions@.len() == 4,
    ensures
        r@ == color_format(f@, color, Seq::new(4, |k: int| fractions@[k]@)),
{
    let ghost fr = Seq::new(4, |k: int| fractions@[k]@);
    let mut out: Vec<char> = Vec::new();
    let mut i: usize = 0;
    assert(f@.skip(0) =~= f@);
    assert(out@ + color_format(f@, color, fr) =~= color_format(f@, color, fr));
    while i < f.len()
        invariant
            i <= f@.len(),
            fractions@.len() == 4,
            fr == Seq::new(4, |k: int| fractions@[k]@),
            out@ + color_format(f@.skip(i as int), color, fr) == color_format(f@, color, fr),
        decreases f@.len() - i,
    {
        let ghost rest = f@.skip(i as int);
        let is_ref = f.len() - i > 2 && f[i] == '%' && (f[i + 1] == 'X' || f[i + 1] == 'F' || f[i + 1] == 'D')
            && (f[i + 2] == 'r' || f[i + 2] == 'g' || f[i + 2] == 'b' || f[i + 2] == 'a');
        if is_ref {
            let style = f[i + 1];
            let k: usize = if f[i + 2] == 'r' { 0 } else if f[i + 2] == 'g' { 1 } else if f[i + 2] == 'b' { 2 } else { 3 };
            let value = if k == 0 { color.0 } else if k == 1 { color.1 } else if k == 2 { color.2 } else { color.3 };
            let ghost before = out@;
            if style == 'X' {
                out.push(hex_digit_char(value / 16));
                out.push(hex_digit_char(value % 16));
            } else if style == 'D' {
                let d = chars_of(decimal_text(value as usize).as_str());
                let mut j: usize = 0;
                assert(out@ =~= before + d@.subrange(0, 0));
                while j < d.len()
                    invariant
                        j <= d@.len(),
                        out@ == before + d@.subrange(0, j as int),
                    decreases d@.len() - j,
                {
                    out.push(d[j]);
                    j = j + 1;
                    assert(out@ =~= before + d@.subrange(0, j as int));
                }
                assert(d@.subrange(0, d@.len() as int) =~= d@);
            } else {
                let d = &fractions[k];
                let mut j: usize = 0;
                assert(out@ =~= before + d@.subrange(0, 0));
                while j < d.len()
                    invariant
                        j <= d@.len(),
                        out@ == before + d@.subrange(0, j as int),
                    decreases d@.len() - j,
                {
                    out.push(d[j]);
                    j = j + 1;
                    assert(out@ =~= before + d@.subrange(0, j as int));
                }
                assert(d@.subrange(0, d@.len() as int) =~= d@);
            }
            proof {
                assert(rest[0] == f@[i as int] && rest[1] == style && rest[2] == f@[i + 2]);
                assert(reference_at(rest));
                assert(component_index(rest[2]) == k);
                assert(rest.skip(3) =~= f@.skip(i + 3));
                assert(out@ =~= before + styled_component(style, component(color, k as int), fr[k as int]));
                assert(out@ + color_format(f@.skip(i + 3), color, fr) =~= before + color_format(rest, color, fr));
            }
            i = i + 3;
        } else {
            let ghost before = out@;
            out.push(f[i]);
            proof {
                assert(!reference_at(rest));
                assert(rest.drop_first() =~= f@.skip(i + 1));
                assert(out@ + color_format(f@.skip(i + 1), color, fr) =~= before + color_format(rest, color, fr));
            }
            i = i + 1;
        }
    }
    assert(f@.skip(f@.len() as int) =~= Seq::<char>::empty());
    assert(out@ + Seq::<char>::empty() =~= out@);
    out
}

impl FormatColorModifier {
    pub fn evaluate<N: Numerics>(&self, variable: Value, parameters: Vec<Value>, numerics: &N) -> (r: Result<Value, ModifierError>)
        ensures
            format_color_outcome(variable, parameters@, r),
            color_given(numerics, variable, parameters@, r),
            r matches Err(e) ==> indices_fit(e, parameters@.len()),
    {
        let color = match &variable {
            Value::String(s) => {
                match read_color(&chars_of(s.as_str())) {
                    Some(c) => c,
                    None => {
                        let mut notes = Vec::new();
                        notes.push(ModifierErrorNote::Variable(text("string must be a color of format (#)RRGGBB(AA)")));
                        return Err(ModifierError::noted(ModifierErrorType::VariableType(Value::String(text(""))), notes));
                    },
                }
            },
            _ => {
                return Err(ModifierError::simple(ModifierErrorType::VariableType(Value::String(text("")))));
            },
        };
        if parameters.len() != 1 {
            return Err(ModifierError::simple(ModifierErrorType::ParameterAmount(1)));
        }
        match &parameters[0] {
            Value::String(format) => {
                let f0 = numerics.fraction(color.0);
                let f1 = numerics.fraction(color.1);
                let f2 = numerics.fraction(color.2);
                let f3 = numerics.fraction(color.3);
                let mut fractions: Vec<Vec<char>> = Vec::new();
                fractions.push(chars_of(f0.as_str()));
                fractions.push(chars_of(f1.as_str()));
                fractions.push(chars_of(f2.as_str()));
                fractions.push(chars_of(f3.as_str()));
                let out = render_color_format(&chars_of(format.as_str()), color, &fractions);
                let t = string_from(&out);
                proof {
                    let fr = Seq::new(4, |k: int| fractions@[k]@);
                    assert(fr.len() == 4 && color_format(format@, color, fr) == t@);
                    let fs = seq![f0, f1, f2, f3];
                    assert(fractions_given(numerics, color, fs));
                    assert(Seq::new(4, |k: int| fs[k]@) =~= fr);
                }
                Ok(Value::String(t))
            },
            _ => Err(ModifierError::simple(ModifierErrorType::ParameterType(0, Value::String(text(""))))),
        }
    }
}

} // verus!
