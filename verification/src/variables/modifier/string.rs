//! Modifiers on strings: case conversions, `contains` and `tilde`.
use vstd::prelude::*;
use crate::text::{
    upper_case, lower_case, char_upper_case, is_uppercase, to_upper, to_lower, char_to_upper,
    char_is_upper, chars_of, string_from,
};
use crate::variables::Value;
use crate::variables::modifier::{
    ModifierError, ModifierErrorType, ModifierErrorNote, amount_error, variable_type_error,
    parameter_type_error, indices_fit, name_is,
};
use crate::variables::token::text;

verus! {

/// `case-upper`: the string in upper case.
pub struct UpperCaseModifier;

/// `case-lower`: the string in lower case.
pub struct LowerCaseModifier;

/// `case-camel`: the string in camelCase, read in the origin case that the parameter names.
pub struct CamelCaseModifier;

/// `case-snake`: the string in snake_case, read in the origin case that the parameter names.
pub struct SnakeCaseModifier;

/// `case-pascal`: the string in PascalCase, read in the origin case that the parameter names.
pub struct PascalCaseModifier;

/// `case-kebab`: the string in kebab-case, read in the origin case that the parameter names.
pub struct KebabCaseModifier;

/// `contains`: whether the string contains the parameter.
pub struct ContainsModifier;

/// `tilde`: the string with a leading `~` expanded to the home directory.
pub struct ShellexpandModifier;

/// The case a string is converted to.
#[derive(Clone, Copy, PartialEq, Eq)]
pub enum CaseStyle {
    Camel,
    Snake,
    Pascal,
    Kebab,
}

/// The views of a sequence of character vectors.
pub open spec fn views(v: Seq<Vec<char>>) -> Seq<Seq<char>> {
    Seq::new(v.len(), |i: int| v[i]@)
}

/// `s` split at each `sep`, as `str::split` does: always at least one piece.
pub open spec fn split_on(s: Seq<char>, sep: char) -> Seq<Seq<char>>
    decreases s.len(),
{
    if s.len() == 0 {
        seq![Seq::<char>::empty()]
    } else {
        let p = split_on(s.drop_last(), sep);
        if s.last() == sep {
            p.push(Seq::<char>::empty())
        } else {
            p.update(p.len() - 1, p.last().push(s.last()))
        }
    }
}

/// `t` cut before each upper-case character but the first.
pub open spec fn case_pieces(t: Seq<char>) -> Seq<Seq<char>>
    decreases t.len(),
{
    if t.len() <= 1 {
        seq![t]
    } else {
        let p = case_pieces(t.drop_last());
        if is_uppercase(t.last()) {
            p.push(seq![t.last()])
        } else {
            p.update(p.len() - 1, p.last().push(t.last()))
        }
    }
}

/// The text with its first character in upper case.
pub open spec fn capitalized(seg: Seq<char>) -> Seq<char> {
    if seg.len() == 0 {
        seg
    } else {
        char_upper_case(seg[0]) + seg.drop_first()
    }
}

/// The lower-cased segments of a string written in the origin case; `None` for an unknown origin.
pub open spec fn case_segments(s: Seq<char>, origin: Seq<char>) -> Option<Seq<Seq<char>>> {
    if origin == "case-kebab"@ {
        Some(split_on(lower_case(s), '-'))
    } else if origin == "case-snake"@ {
        Some(split_on(lower_case(s), '_'))
    } else if origin == "case-camel"@ || origin == "case-pascal"@ {
        if s.len() == 0 {
            Some(seq![Seq::<char>::empty()])
        } else {
            Some(case_pieces(capitalized(s)).map_values(|p: Seq<char>| lower_case(p)))
        }
    } else {
        None
    }
}

/// The segments joined with a separator.
pub open spec fn joined(segs: Seq<Seq<char>>, sep: char) -> Seq<char>
    decreases segs.len(),
{
    if segs.len() == 0 {
        Seq::empty()
    } else if segs.len() == 1 {
        segs[0]
    } else {
        joined(segs.drop_last(), sep).push(sep) + segs.last()
    }
}

/// The segments, each capitalized, one after the other.
pub open spec fn capitalized_concat(segs: Seq<Seq<char>>) -> Seq<char>
    decreases segs.len(),
{
    if segs.len() == 0 {
        Seq::empty()
    } else {
        capitalized_concat(segs.drop_last()) + capitalized(segs.last())
    }
}

/// The segments written in a case.
pub open spec fn styled(style: CaseStyle, segs: Seq<Seq<char>>) -> Seq<char> {
    match style {
        CaseStyle::Camel => if segs.len() == 0 {
            Seq::empty()
        } else {
            segs[0] + capitalized_concat(segs.drop_first())
        },
        CaseStyle::Snake => joined(segs, '_'),
        CaseStyle::Pascal => capitalized_concat(segs),
        CaseStyle::Kebab => joined(segs, '-'),
    }
}

/// The note for an unknown origin case.
pub open spec fn origin_message(origin: Seq<char>) -> Seq<char> {
    "case '"@ + origin + "' is not a valid origin case"@
}

/// The error for an unknown origin case: a parameter type error with a note on the parameter.
pub open spec fn origin_error_for(e: ModifierError, origin: Seq<char>) -> bool {
    &&& e.error matches ModifierErrorType::ParameterType(0, Value::String(x)) && x@.len() == 0
    &&& e.notes@.len() == 1
    &&& e.notes@[0] matches ModifierErrorNote::Parameter(0, m) && m@ == origin_message(origin)
}

/// The outcome of a case conversion.
pub open spec fn case_outcome(style: CaseStyle, v: Value, ps: Seq<Value>, r: Result<Value, ModifierError>) -> bool {
    if ps.len() != 1 {
        amount_error(r, 1)
    } else {
        match (v, ps[0]) {
            (Value::String(s), Value::String(c)) => match case_segments(s@, c@) {
                Some(segs) => r matches Ok(Value::String(t)) && t@ == styled(style, segs),
                None => r matches Err(e) && origin_error_for(e, c@),
            },
            (Value::String(_), _) => parameter_type_error(r, 0),
            _ => variable_type_error(r),
        }
    }
}

/// The outcome of `case-upper` (`upper`) or `case-lower`.
pub open spec fn letter_case_outcome(upper: bool, v: Value, ps: Seq<Value>, r: Result<Value, ModifierError>) -> bool {
    if ps.len() != 0 {
        amount_error(r, 0)
    } else {
        match v {
            Value::String(s) => r matches Ok(Value::String(t)) && t@ == (if upper {
                upper_case(s@)
            } else {
                lower_case(s@)
            }),
            _ => variable_type_error(r),
        }
    }
}

/// Whether `part` occurs in `s`.
pub open spec fn contains_text(s: Seq<char>, part: Seq<char>) -> bool {
    exists|i: int| 0 <= i && i + part.len() <= s.len() && #[trigger] s.subrange(i, i + part.len()) == part
}

pub open spec fn contains_outcome(v: Value, ps: Seq<Value>, r: Result<Value, ModifierError>) -> bool {
    if ps.len() != 1 {
        amount_error(r, 1)
    } else {
        match (v, ps[0]) {
            (Value::String(s), Value::String(c)) => r == Ok::<Value, ModifierError>(Value::Boolean(contains_text(s@, c@))),
            (Value::String(_), _) => parameter_type_error(r, 0),
            _ => variable_type_error(r),
        }
    }
}

/// What is known of a tilde expansion of `s` whatever the home directory is: a text that does
/// not start with `~` followed by the end or a separator is kept; otherwise the `~` is replaced
/// by the home directory, or the text is kept when there is none.
pub open spec fn tilde_expansion(s: Seq<char>, r: Seq<char>) -> bool {
    &&& (s.len() == 0 || s[0] != '~') ==> r == s
    &&& (s.len() >= 2 && s[0] == '~' && s[1] != '/' && s[1] != '\\') ==> r == s
    &&& r == s || exists|home: Seq<char>| r == home + s.drop_first()
}

pub open spec fn tilde_outcome(v: Value, ps: Seq<Value>, r: Result<Value, ModifierError>) -> bool {
    if ps.len() != 0 {
        amount_error(r, 0)
    } else {
        match v {
            Value::String(s) => r matches Ok(Value::String(t)) && tilde_expansion(s@, t@),
            _ => variable_type_error(r),
        }
    }
}

/// `shellexpand::tilde`.
#[verifier::external_body]
pub(crate) fn expand_tilde(s: &str) -> (r: String)
    ensures
        tilde_expansion(s@, r@),
{
    shellexpand::tilde(s).to_string()
}

proof fn lemma_split_nonempty(s: Seq<char>, sep: char)
    ensures
        split_on(s, sep).len() >= 1,
    decreases s.len(),
{
    if s.len() > 0 {
        lemma_split_nonempty(s.drop_last(), sep);
    }
}

proof fn lemma_pieces_nonempty(t: Seq<char>)
    ensures
        case_pieces(t).len() >= 1,
    decreases t.len(),
{
    if t.len() > 1 {
        lemma_pieces_nonempty(t.drop_last());
    }
}

/// Appends the characters of `x`.
fn append_chars(r: &mut Vec<char>, x: &Vec<char>)
    ensures
        final(r)@ == old(r)@ + x@,
{
    let mut i: usize = 0;
    while i < x.len()
        invariant
            i <= x@.len(),
            r@ == old(r)@ + x@.subrange(0, i as int),
        decreases x@.len() - i,
    {
        r.push(x[i]);
        i = i + 1;
        assert(r@ =~= old(r)@ + x@.subrange(0, i as int));
    }
    assert(x@.subrange(0, x@.len() as int) =~= x@);
}

/// Splits at each `sep`.
pub fn split_chars(s: &Vec<char>, sep: char) -> (r: Vec<Vec<char>>)
    ensures
        views(r@) == split_on(s@, sep),
{
    let mut done: Vec<Vec<char>> = Vec::new();
    let mut cur: Vec<char> = Vec::new();
    let mut i: usize = 0;
    assert(views(done@).push(cur@) =~= split_on(s@.subrange(0, 0), sep));
    while i < s.len()
        invariant
            i <= s@.len(),
            views(done@).push(cur@) == split_on(s@.subrange(0, i as int), sep),
        decreases s@.len() - i,
    {
        let c = s[i];
        let ghost prev = views(done@).push(cur@);
        proof {
            assert(s@.subrange(0, i + 1).drop_last() =~= s@.subrange(0, i as int));
        }
        if c == sep {
            done.push(cur);
            cur = Vec::new();
            assert(views(done@).push(cur@) =~= prev.push(Seq::<char>::empty()));
        } else {
            cur.push(c);
            assert(views(done@).push(cur@) =~= prev.update(prev.len() - 1, prev.last().push(c)));
        }
        i = i + 1;
    }
    let ghost fin = views(done@).push(cur@);
    done.push(cur);
    assert(s@.subrange(0, s@.len() as int) =~= s@);
    assert(views(done@) =~= fin);
    done
}

/// Cuts before each upper-case character but the first.
fn cut_pieces(t: &Vec<char>) -> (r: Vec<Vec<char>>)
    ensures
        views(r@) == case_pieces(t@),
{
    let mut done: Vec<Vec<char>> = Vec::new();
    let mut cur: Vec<char> = Vec::new();
    if t.len() == 0 {
        assert(cur@ =~= t@);
        done.push(cur);
        assert(views(done@) =~= seq![t@]);
        return done;
    }
    cur.push(t[0]);
    let mut i: usize = 1;
    assert(cur@ =~= t@.subrange(0, 1));
    assert(views(done@).push(cur@) =~= case_pieces(t@.subrange(0, 1)));
    while i < t.len()
        invariant
            1 <= i <= t@.len(),
            views(done@).push(cur@) == case_pieces(t@.subrange(0, i as int)),
        decreases t@.len() - i,
    {
        let c = t[i];
        let ghost prev = views(done@).push(cur@);
        proof {
            assert(t@.subrange(0, i + 1).drop_last() =~= t@.subrange(0, i as int));
        }
        if char_is_upper(c) {
            done.push(cur);
            cur = Vec::new();
            cur.push(c);
            assert(views(done@).push(cur@) =~= prev.push(seq![c]));
        } else {
            cur.push(c);
            assert(views(done@).push(cur@) =~= prev.update(prev.len() - 1, prev.last().push(c)));
        }
        i = i + 1;
    }
    let ghost fin = views(done@).push(cur@);
    done.push(cur);
    assert(t@.subrange(0, t@.len() as int) =~= t@);
    assert(views(done@) =~= fin);
    done
}

/// The characters of a text in lower case.
fn lower_chars(s: &Vec<char>) -> (r: Vec<char>)
    ensures
        r@ == lower_case(s@),
{
    let t = string_from(s);
    let l = to_lower(t.as_str());
    chars_of(l.as_str())
}

/// Each piece in lower case.
fn lower_all(v: &Vec<Vec<char>>) -> (r: Vec<Vec<char>>)
    ensures
        views(r@) == views(v@).map_values(|p: Seq<char>| lower_case(p)),
{
    let mut r: Vec<Vec<char>> = Vec::new();
    let mut i: usize = 0;
    while i < v.len()
        invariant
            i <= v@.len(),
            r@.len() == i,
            forall|j: int| 0 <= j < i ==> #[trigger] r@[j]@ == lower_case(v@[j]@),
        decreases v@.len() - i,
    {
        r.push(lower_chars(&v[i]));
        i = i + 1;
    }
    assert(views(r@) =~= views(v@).map_values(|p: Seq<char>| lower_case(p)));
    r
}

/// The text with its first character in upper case.
fn capitalize(seg: &Vec<char>) -> (r: Vec<char>)
    ensures
        r@ == capitalized(seg@),
{
    if seg.len() == 0 {
        return Vec::new();
    }
    let head = char_to_upper(seg[0]);
    let mut r = chars_of(head.as_str());
    let mut i: usize = 1;
    while i < seg.len()
        invariant
            1 <= i <= seg@.len(),
            r@ == char_upper_case(seg@[0]) + seg@.subrange(1, i as int),
        decreases seg@.len() - i,
    {
        r.push(seg[i]);
        i = i + 1;
        assert(r@ =~= char_upper_case(seg@[0]) + seg@.subrange(1, i as int));
    }
    assert(seg@.subrange(1, seg@.len() as int) =~= seg@.drop_first());
    r
}

/// The segments joined with a separator.
fn join_chars(segs: &Vec<Vec<char>>, sep: char) -> (r: Vec<char>)
    ensures
        r@ == joined(views(segs@), sep),
{
    let mut r: Vec<char> = Vec::new();
    let mut i: usize = 0;
    while i < segs.len()
        invariant
            i <= segs@.len(),
            r@ == joined(views(segs@).subrange(0, i as int), sep),
        decreases segs@.len() - i,
    {
        let ghost before = r@;
        if i > 0 {
            r.push(sep);
        }
        append_chars(&mut r, &segs[i]);
        proof {
            let s = views(segs@);
            assert(s.subrange(0, i + 1).drop_last() =~= s.subrange(0, i as int));
            if i == 0 {
                assert(s.subrange(0, 1) =~= seq![segs@[0]@]);
            }
        }
        i = i + 1;
    }
    assert(views(segs@).subrange(0, segs@.len() as int) =~= views(segs@));
    r
}

/// The segments from `from` on, each capitalized, appended to `r`.
fn append_capitalized(r: &mut Vec<char>, segs: &Vec<Vec<char>>, from: usize)
    requires
        from <= segs@.len(),
    ensures
        final(r)@ == old(r)@ + capitalized_concat(views(segs@).subrange(from as int, segs@.len() as int)),
{
    let mut i: usize = from;
    assert(capitalized_concat(views(segs@).subrange(from as int, from as int)) =~= Seq::<char>::empty());
    assert(r@ =~= old(r)@ + Seq::<char>::empty());
    while i < segs.len()
        invariant
            from <= i <= segs@.len(),
            r@ == old(r)@ + capitalized_concat(views(segs@).subrange(from as int, i as int)),
        decreases segs@.len() - i,
    {
        let c = capitalize(&segs[i]);
        append_chars(r, &c);
        proof {
            let s = views(segs@);
            assert(s.subrange(from as int, i + 1).drop_last() =~= s.subrange(from as int, i as int));
            assert(r@ =~= old(r)@ + capitalized_concat(s.subrange(from as int, i + 1)));
        }
        i = i + 1;
    }
}

/// The segments of a string in an origin case, or `None` for an unknown origin.
fn into_case_segments(s: &Vec<char>, origin: &Vec<char>) -> (r: Option<Vec<Vec<char>>>)
    ensures
        match r {
            Some(v) => case_segments(s@, origin@) == Some(views(v@)),
            None => case_segments(s@, origin@) is None,
        },
{
    if name_is(origin, "case-kebab") {
        Some(split_chars(&lower_chars(s), '-'))
    } else if name_is(origin, "case-snake") {
        Some(split_chars(&lower_chars(s), '_'))
    } else if name_is(origin, "case-camel") || name_is(origin, "case-pascal") {
        if s.len() == 0 {
            let mut v: Vec<Vec<char>> = Vec::new();
            v.push(Vec::new());
            assert(views(v@) =~= seq![Seq::<char>::empty()]);
            return Some(v);
        }
        let mut t: Vec<char> = Vec::new();
        let mut rest: Vec<char> = Vec::new();
        let mut i: usize = 1;
        while i < s.len()
            invariant
                1 <= i <= s@.len(),
                rest@ == s@.subrange(1, i as int),
            decreases s@.len() - i,
        {
            rest.push(s[i]);
            i = i + 1;
            assert(rest@ =~= s@.subrange(1, i as int));
        }
        let mut first: Vec<char> = Vec::new();
        first.push(s[0]);
        let head = capitalize(&first);
        append_chars(&mut t, &head);
        append_chars(&mut t, &rest);
        proof {
            assert(s@.subrange(1, s@.len() as int) =~= s@.drop_first());
            assert(seq![s@[0]].drop_first() =~= Seq::<char>::empty());
            assert(t@ =~= capitalized(s@));
        }
        Some(lower_all(&cut_pieces(&t)))
    } else {
        None
    }
}

/// The error for an origin case that is not one.
fn origin_error(origin: &String) -> (e: ModifierError)
    ensures
        origin_error_for(e, origin@),
{
    let mut m = chars_of("case '");
    append_chars(&mut m, &chars_of(origin.as_str()));
    append_chars(&mut m, &chars_of("' is not a valid origin case"));
    let mut notes = Vec::new();
    notes.push(ModifierErrorNote::Parameter(0, string_from(&m)));
    proof {
        reveal_strlit("");
        reveal_strlit("case '");
        reveal_strlit("' is not a valid origin case");
    }
    ModifierError::noted(ModifierErrorType::ParameterType(0, Value::String(text(""))), notes)
}

/// A case conversion, shared by the four case modifiers.
pub fn convert_case(style: CaseStyle, variable: Value, parameters: Vec<Value>) -> (r: Result<Value, ModifierError>)
    ensures
        case_outcome(style, variable, parameters@, r),
        r matches Err(e) ==> indices_fit(e, parameters@.len()),
{
    if parameters.len() != 1 {
        return Err(ModifierError::simple(ModifierErrorType::ParameterAmount(1)));
    }
    match (variable, &parameters[0]) {
        (Value::String(s), Value::String(c)) => {
            let sc = chars_of(s.as_str());
            let cc = chars_of(c.as_str());
            match into_case_segments(&sc, &cc) {
                None => Err(origin_error(c)),
                Some(segs) => {
                    let out = match style {
                        CaseStyle::Snake => join_chars(&segs, '_'),
                        CaseStyle::Kebab => join_chars(&segs, '-'),
                        CaseStyle::Pascal => {
                            let mut r: Vec<char> = Vec::new();
                            append_capitalized(&mut r, &segs, 0);
                            assert(views(segs@).subrange(0, segs@.len() as int) =~= views(segs@));
                            r
                        },
                        CaseStyle::Camel => {
                            if segs.len() == 0 {
                                Vec::new()
                            } else {
                                let mut r: Vec<char> = Vec::new();
                                append_chars(&mut r, &segs[0]);
                                append_capitalized(&mut r, &segs, 1);
                                assert(views(segs@).subrange(1, segs@.len() as int) =~= views(segs@).drop_first());
                                r
                            }
                        },
                    };
                    Ok(Value::String(string_from(&out)))
                },
            }
        },
        (Value::String(_), _) => Err(ModifierError::simple(ModifierErrorType::ParameterType(0, Value::String(text(""))))),
        _ => Err(ModifierError::simple(ModifierErrorType::VariableType(Value::String(text(""))))),
    }
}

impl UpperCaseModifier {
    pub fn evaluate(&self, variable: Value, parameters: Vec<Value>) -> (r: Result<Value, ModifierError>)
        ensures
            letter_case_outcome(true, variable, parameters@, r),
            r matches Err(e) ==> indices_fit(e, parameters@.len()),
            r matches Err(e) ==> e.notes@.len() == 0,
    {
        if parameters.len() != 0 {
            return Err(ModifierError::simple(ModifierErrorType::ParameterAmount(0)));
        }
        match variable {
            Value::String(s) => Ok(Value::String(to_upper(s.as_str()))),
            _ => Err(ModifierError::simple(ModifierErrorType::VariableType(Value::String(text(""))))),
        }
    }
}

impl LowerCaseModifier {
    pub fn evaluate(&self, variable: Value, parameters: Vec<Value>) -> (r: Result<Value, ModifierError>)
        ensures
            letter_case_outcome(false, variable, parameters@, r),
            r matches Err(e) ==> indices_fit(e, parameters@.len()),
            r matches Err(e) ==> e.notes@.len() == 0,
    {
        if parameters.len() != 0 {
            return Err(ModifierError::simple(ModifierErrorType::ParameterAmount(0)));
        }
        match variable {
            Value::String(s) => Ok(Value::String(to_lower(s.as_str()))),
            _ => Err(ModifierError::simple(ModifierErrorType::VariableType(Value::String(text(""))))),
        }
    }
}

impl CamelCaseModifier {
    pub fn evaluate(&self, variable: Value, parameters: Vec<Value>) -> (r: Result<Value, ModifierError>)
        ensures
            case_outcome(CaseStyle::Camel, variable, parameters@, r),
            r matches Err(e) ==> indices_fit(e, parameters@.len()),
    {
        convert_case(CaseStyle::Camel, variable, parameters)
    }
}

impl SnakeCaseModifier {
    pub fn evaluate(&self, variable: Value, parameters: Vec<Value>) -> (r: Result<Value, ModifierError>)
        ensures
            case_outcome(CaseStyle::Snake, variable, parameters@, r),
            r matches Err(e) ==> indices_fit(e, parameters@.len()),
    {
        convert_case(CaseStyle::Snake, variable, parameters)
    }
}

impl PascalCaseModifier {
    pub fn evaluate(&self, variable: Value, parameters: Vec<Value>) -> (r: Result<Value, ModifierError>)
        ensures
            case_outcome(CaseStyle::Pascal, variable, parameters@, r),
            r matches Err(e) ==> indices_fit(e, parameters@.len()),
    {
        convert_case(CaseStyle::Pascal, variable, parameters)
    }
}

impl KebabCaseModifier {
    pub fn evaluate(&self, variable: Value, parameters: Vec<Value>) -> (r: Result<Value, ModifierError>)
        ensures
            case_outcome(CaseStyle::Kebab, variable, parameters@, r),
            r matches Err(e) ==> indices_fit(e, parameters@.len()),
    {
        convert_case(CaseStyle::Kebab, variable, parameters)
    }
}

/// Whether `part` occurs in `s`.
pub fn find_text(s: &Vec<char>, part: &Vec<char>) -> (r: bool)
    ensures
        r == contains_text(s@, part@),
{
    if part.len() > s.len() {
        return false;
    }
    let mut i: usize = 0;
    while i <= s.len() - part.len()
        invariant
            part@.len() <= s@.len(),
            i <= s@.len() - part@.len() + 1,
            forall|j: int| 0 <= j < i ==> #[trigger] s@.subrange(j, j + part@.len()) != part@,
        decreases s@.len() - i,
    {
        let mut k: usize = 0;
        let mut same = true;
        let limit = s.len();
        while k < part.len()
            invariant
                limit == s@.len(),
                i + part@.len() <= s@.len(),
                k <= part@.len(),
                same == (forall|m: int| 0 <= m < k ==> s@[i + m] == part@[m]),
            decreases part@.len() - k,
        {
            if s[i + k] != part[k] {
                same = false;
            }
            k = k + 1;
        }
        if same {
            assert(s@.subrange(i as int, i + part@.len()) =~= part@);
            return true;
        }
        proof {
            if s@.subrange(i as int, i + part@.len()) == part@ {
                assert forall|m: int| 0 <= m < part@.len() implies s@[i + m] == part@[m] by {
                    assert(s@.subrange(i as int, i + part@.len())[m] == s@[i + m]);
                }
            }
        }
        i = i + 1;
    }
    false
}

impl ContainsModifier {
    pub fn evaluate(&self, variable: Value, parameters: Vec<Value>) -> (r: Result<Value, ModifierError>)
        ensures
            contains_outcome(variable, parameters@, r),
            r matches Err(e) ==> indices_fit(e, parameters@.len()),
            r matches Err(e) ==> e.notes@.len() == 0,
    {
        if parameters.len() != 1 {
            return Err(ModifierError::simple(ModifierErrorType::ParameterAmount(1)));
        }
        match (variable, &parameters[0]) {
            (Value::String(s), Value::String(c)) => {
                let sc = chars_of(s.as_str());
                let cc = chars_of(c.as_str());
                Ok(Value::Boolean(find_text(&sc, &cc)))
            },
            (Value::String(_), _) => Err(ModifierError::simple(ModifierErrorType::ParameterType(0, Value::String(text(""))))),
            _ => Err(ModifierError::simple(ModifierErrorType::VariableType(Value::String(text(""))))),
        }
    }
}

impl ShellexpandModifier {
    pub fn evaluate(&self, variable: Value, parameters: Vec<Value>) -> (r: Result<Value, ModifierError>)
        ensures
            tilde_outcome(variable, parameters@, r),
            r matches Err(e) ==> indices_fit(e, parameters@.len()),
            r matches Err(e) ==> e.notes@.len() == 0,
    {
        if parameters.len() != 0 {
            return Err(ModifierError::simple(ModifierErrorType::ParameterAmount(0)));
        }
        match variable {
            Value::String(s) => Ok(Value::String(expand_tilde(s.as_str()))),
            _ => Err(ModifierError::simple(ModifierErrorType::VariableType(Value::String(text(""))))),
        }
    }
}

} // verus!
