//! Reads single tokens of the template language: keywords, literals and variable references.
//!
//! Positions are indices into the characters of the input.
use std::ops::Range;
use vstd::prelude::*;
use crate::numbers::Numerics;
use crate::text::{CharClass, span, lemma_span, scan, char_at_is, chars_of, string_of, string_from};
use crate::variables::VariableError;
use crate::variables::context::expressible;
use crate::variables::modifier::number::parsed_as;

verus! {

/// A token and the characters it was read from.
pub struct Token {
    pub range: Range<usize>,
    pub token: TokenType,
}

/// A variable reference with its modifiers, a keyword, or a literal.
pub enum TokenType {
    /// `pusta.hostname`, `theme.background:color-format(another.variable)`
    Variable {
        name: String,
        name_range: Range<usize>,
        modifiers: Vec<(String, Vec<Token>, Range<usize>)>,
    },
    /// `!if`, `!else`, `!list`, `!end`
    Keyword { word: String },
    /// `"some string"`, `-12`, `2304.1`, `true`, `false`
    Literal { value: TokenLiteral },
}

/// A literal: a string, a number (as binary64 bits) or a boolean.
pub enum TokenLiteral {
    String(String),
    Number(u64),
    Boolean(bool),
}

// ---------------------------------------------------------------------------------------------
// The grammar, rule by rule. Each rule reads at a position and gives the positions it matched.
// ---------------------------------------------------------------------------------------------

pub open spec fn ws(s: Seq<char>, i: int) -> int {
    span(s, i, CharClass::Space)
}

/// `\s*!([A-Za-z]+)\s*`: the word and the end of the match.
pub open spec fn keyword_rule(s: Seq<char>, p: int) -> Option<(int, int, int)> {
    let a = ws(s, p);
    if a < s.len() && s[a] == '!' {
        let b = span(s, a + 1, CharClass::Alpha);
        if b > a + 1 {
            Some((a + 1, b, ws(s, b)))
        } else {
            None
        }
    } else {
        None
    }
}

/// `\s*([A-Za-z]+)\s*`: the word and the end of the match.
pub open spec fn word_rule(s: Seq<char>, p: int) -> Option<(int, int, int)> {
    let a = ws(s, p);
    let b = span(s, a, CharClass::Alpha);
    if b > a {
        Some((a, b, ws(s, b)))
    } else {
        None
    }
}

/// `\s*(-?[0-9]+(?:\.[0-9]+)?)\s*`: the number text and the end of the match.
pub open spec fn number_rule(s: Seq<char>, p: int) -> Option<(int, int, int)> {
    let a = ws(s, p);
    let m = if a < s.len() && s[a] == '-' {
        a + 1
    } else {
        a
    };
    let d = span(s, m, CharClass::Digit);
    if d > m {
        let f = if d < s.len() && s[d] == '.' && span(s, d + 1, CharClass::Digit) > d + 1 {
            span(s, d + 1, CharClass::Digit)
        } else {
            d
        };
        Some((a, f, ws(s, f)))
    } else {
        None
    }
}

/// The closing quote of a string literal: the first quote at or after `q` that does not follow a
/// backslash, where no line break lies between the opening quote and the character before it.
pub open spec fn closing_quote(s: Seq<char>, q: int) -> Option<int>
    decreases s.len() - q,
{
    if q < 1 || q >= s.len() {
        None
    } else if s[q] == '"' && s[q - 1] != '\\' {
        Some(q)
    } else if s[q - 1] == '\n' {
        None
    } else {
        closing_quote(s, q + 1)
    }
}

/// `\s*"(.*?[^\\])"\s*`: the raw content and the end of the match.
pub open spec fn string_rule(s: Seq<char>, p: int) -> Option<(int, int, int)> {
    let a = ws(s, p);
    if a < s.len() && s[a] == '"' {
        match closing_quote(s, a + 2) {
            Some(q) => Some((a + 1, q, ws(s, q + 1))),
            None => None,
        }
    } else {
        None
    }
}

/// The end of the `(?:\.[A-Za-z-]+)*` part of a variable name that starts at `i`.
pub open spec fn segments_end(s: Seq<char>, i: int) -> int
    decreases s.len() - i,
{
    if 0 <= i < s.len() && s[i] == '.' && span(s, i + 1, CharClass::NameTail) > i + 1 {
        proof {
            lemma_span(s, i + 1, CharClass::NameTail);
        }
        segments_end(s, span(s, i + 1, CharClass::NameTail))
    } else {
        i
    }
}

/// `\s*([A-Za-z-_]+(?:\.[A-Za-z-]+)*)`: the variable name.
pub open spec fn name_rule(s: Seq<char>, p: int) -> Option<(int, int)> {
    let a = ws(s, p);
    let h = span(s, a, CharClass::NameHead);
    if h > a {
        Some((a, segments_end(s, h)))
    } else {
        None
    }
}

/// `\s*:([A-Za-z-]+)`: the modifier name.
pub open spec fn modifier_name_rule(s: Seq<char>, p: int) -> Option<(int, int)> {
    let a = ws(s, p);
    if a < s.len() && s[a] == ':' {
        let b = span(s, a + 1, CharClass::NameTail);
        if b > a + 1 {
            Some((a + 1, b))
        } else {
            None
        }
    } else {
        None
    }
}

/// `\(\s*`: the end of the match.
pub open spec fn open_rule(s: Seq<char>, p: int) -> Option<int> {
    if 0 <= p < s.len() && s[p] == '(' {
        Some(ws(s, p + 1))
    } else {
        None
    }
}

/// `\s*\)`: the end of the match.
pub open spec fn close_rule(s: Seq<char>, p: int) -> Option<int> {
    let a = ws(s, p);
    if a < s.len() && s[a] == ')' {
        Some(a + 1)
    } else {
        None
    }
}

/// `\s*,\s*`: the end of the match.
pub open spec fn comma_rule(s: Seq<char>, p: int) -> Option<int> {
    let a = ws(s, p);
    if a < s.len() && s[a] == ',' {
        Some(ws(s, a + 1))
    } else {
        None
    }
}

/// ASCII lower case of a character.
pub open spec fn ascii_lower(c: char) -> char {
    if 'A' <= c && c <= 'Z' {
        ((c as u32) + 32) as char
    } else {
        c
    }
}

/// `str::eq_ignore_ascii_case`.
pub open spec fn eq_ignore_ascii_case(x: Seq<char>, y: Seq<char>) -> bool {
    x.len() == y.len() && forall|i: int| 0 <= i < x.len() ==> ascii_lower(x[i]) == ascii_lower(y[i])
}

/// The boolean a word stands for: `true`/`yes` or `false`/`no`, in any case.
pub open spec fn boolean_word(w: Seq<char>) -> Option<bool> {
    if eq_ignore_ascii_case(w, "true"@) || eq_ignore_ascii_case(w, "yes"@) {
        Some(true)
    } else if eq_ignore_ascii_case(w, "false"@) || eq_ignore_ascii_case(w, "no"@) {
        Some(false)
    } else {
        None
    }
}

/// Replaces every two-character sequence `c1 c2` by `r`, from left to right.
pub open spec fn replaced(s: Seq<char>, c1: char, c2: char, r: char) -> Seq<char>
    decreases s.len(),
{
    if s.len() < 2 {
        s
    } else if s[0] == c1 && s[1] == c2 {
        seq![r] + replaced(s.subrange(2, s.len() as int), c1, c2, r)
    } else {
        seq![s[0]] + replaced(s.subrange(1, s.len() as int), c1, c2, r)
    }
}

/// The content of a string literal: `\n` stands for a line break, `\"` for a quote.
pub open spec fn unescaped(raw: Seq<char>) -> Seq<char> {
    replaced(replaced(raw, '\\', 'n', '\n'), '\\', '"', '"')
}

/// Which rule reads the token at `p`, in the order the rules are tried.
pub enum TokenRule {
    Keyword,
    Boolean,
    Number,
    String,
    Variable,
    Nothing,
}

pub open spec fn rule_at(s: Seq<char>, p: int) -> TokenRule {
    if keyword_rule(s, p) is Some {
        TokenRule::Keyword
    } else if word_rule(s, p) matches Some((a, b, _)) && boolean_word(s.subrange(a, b)) is Some {
        TokenRule::Boolean
    } else if number_rule(s, p) is Some {
        TokenRule::Number
    } else if string_rule(s, p) is Some {
        TokenRule::String
    } else if name_rule(s, p) is Some {
        TokenRule::Variable
    } else {
        TokenRule::Nothing
    }
}

/// What a successful read gives for every rule but the variable one.
pub open spec fn simple_token(s: Seq<char>, p: int, t: Token) -> bool {
    match rule_at(s, p) {
        TokenRule::Keyword => {
            let (a, b, e) = keyword_rule(s, p).unwrap();
            &&& t.range.start == p
            &&& t.range.end == e
            &&& t.token matches TokenType::Keyword { word } && word@ == s.subrange(a, b)
        },
        TokenRule::Boolean => {
            let (a, b, e) = word_rule(s, p).unwrap();
            &&& t.range.start == p
            &&& t.range.end == e
            &&& t.token matches TokenType::Literal { value } && value == TokenLiteral::Boolean(
                boolean_word(s.subrange(a, b)).unwrap(),
            )
        },
        TokenRule::Number => {
            let (a, b, e) = number_rule(s, p).unwrap();
            &&& t.range.start == p
            &&& t.range.end == e
            &&& t.token matches TokenType::Literal { value } && value is Number
        },
        TokenRule::String => {
            let (a, b, e) = string_rule(s, p).unwrap();
            &&& t.range.start == p
            &&& t.range.end == e
            &&& t.token matches TokenType::Literal { value } && (value matches TokenLiteral::String(
                text,
            ) && text@ == unescaped(s.subrange(a, b)))
        },
        _ => false,
    }
}

/// What a successful read of a variable reference gives: the name, and modifiers that follow it
/// one after another, each with arguments that lie between its name and the end of the token.
pub open spec fn variable_token(s: Seq<char>, p: int, t: Token) -> bool {
    let (a, n) = name_rule(s, p).unwrap();
    &&& t.range.start == p
    &&& n <= t.range.end <= s.len()
    &&& t.token matches TokenType::Variable { name, name_range, modifiers } && {
        &&& name@ == s.subrange(a, n)
        &&& name_range.start == a && name_range.end == n
        &&& forall|i: int|
            #![trigger modifiers@[i]]
            0 <= i < modifiers@.len() ==> {
                let (m, args, r) = modifiers@[i];
                &&& n < r.start < r.end <= t.range.end
                &&& m@ == s.subrange(r.start as int, r.end as int)
                &&& (i == 0 ==> modifier_name_rule(s, n) == Some((r.start as int, r.end as int)))
                &&& forall|j: int|
                    #![trigger args@[j]]
                    0 <= j < args@.len() ==> r.end < args@[j].range.start < args@[j].range.end
                        <= t.range.end
            }
        &&& forall|i: int, k: int|
            #![trigger modifiers@[i], modifiers@[k]]
            0 <= i < k < modifiers@.len() ==> modifiers@[i].2.end < modifiers@[k].2.start
    }
}

// ---------------------------------------------------------------------------------------------
// The rules as executable functions.
// ---------------------------------------------------------------------------------------------

pub fn read_keyword(s: &Vec<char>, p: usize) -> (r: Option<(usize, usize, usize)>)
    requires
        p <= s@.len(),
    ensures
        r matches Some((a, b, e)) ==> keyword_rule(s@, p as int) == Some((a as int, b as int, e as int))
            && p < a < b <= e <= s@.len(),
        r is None ==> keyword_rule(s@, p as int) is None,
{
    let _len = s.len();
    let a = scan(s, p, CharClass::Space);
    if char_at_is(s, a, '!') {
        let b = scan(s, a + 1, CharClass::Alpha);
        if b > a + 1 {
            let e = scan(s, b, CharClass::Space);
            return Some((a + 1, b, e));
        }
    }
    None
}

pub fn read_word(s: &Vec<char>, p: usize) -> (r: Option<(usize, usize, usize)>)
    requires
        p <= s@.len(),
    ensures
        r matches Some((a, b, e)) ==> word_rule(s@, p as int) == Some((a as int, b as int, e as int))
            && p <= a < b <= e <= s@.len(),
        r is None ==> word_rule(s@, p as int) is None,
{
    let _len = s.len();
    let a = scan(s, p, CharClass::Space);
    let b = scan(s, a, CharClass::Alpha);
    if b > a {
        let e = scan(s, b, CharClass::Space);
        Some((a, b, e))
    } else {
        None
    }
}

pub fn read_number(s: &Vec<char>, p: usize) -> (r: Option<(usize, usize, usize)>)
    requires
        p <= s@.len(),
    ensures
        r matches Some((a, b, e)) ==> number_rule(s@, p as int) == Some((a as int, b as int, e as int))
            && p <= a < b <= e <= s@.len(),
        r is None ==> number_rule(s@, p as int) is None,
{
    let _len = s.len();
    let a = scan(s, p, CharClass::Space);
    let m = if char_at_is(s, a, '-') {
        a + 1
    } else {
        a
    };
    let d = scan(s, m, CharClass::Digit);
    if d > m {
        let f = if char_at_is(s, d, '.') {
            let g = scan(s, d + 1, CharClass::Digit);
            if g > d + 1 {
                g
            } else {
                d
            }
        } else {
            d
        };
        let e = scan(s, f, CharClass::Space);
        Some((a, f, e))
    } else {
        None
    }
}

pub fn find_closing_quote(s: &Vec<char>, q: usize) -> (r: Option<usize>)
    requires
        1 <= q,
    ensures
        r matches Some(x) ==> closing_quote(s@, q as int) == Some(x as int) && q <= x < s@.len(),
        r is None ==> closing_quote(s@, q as int) is None,
{
    let mut i = q;
    while i < s.len()
        invariant
            1 <= q <= i,
            closing_quote(s@, i as int) == closing_quote(s@, q as int),
        decreases s@.len() - i,
    {
        if s[i] == '"' && s[i - 1] != '\\' {
            return Some(i);
        } else if s[i - 1] == '\n' {
            return None;
        }
        i = i + 1;
    }
    None
}

pub fn read_string(s: &Vec<char>, p: usize) -> (r: Option<(usize, usize, usize)>)
    requires
        p <= s@.len(),
    ensures
        r matches Some((a, b, e)) ==> string_rule(s@, p as int) == Some((a as int, b as int, e as int))
            && p < a < b < e <= s@.len(),
        r is None ==> string_rule(s@, p as int) is None,
{
    let _len = s.len();
    let a = scan(s, p, CharClass::Space);
    if char_at_is(s, a, '"') {
        let close = if a + 1 < s.len() {
            find_closing_quote(s, a + 2)
        } else {
            None
        };
        match close {
            Some(q) => {
                let e = scan(s, q + 1, CharClass::Space);
                Some((a + 1, q, e))
            },
            None => None,
        }
    } else {
        None
    }
}

pub fn read_name(s: &Vec<char>, p: usize) -> (r: Option<(usize, usize)>)
    requires
        p <= s@.len(),
    ensures
        r matches Some((a, n)) ==> name_rule(s@, p as int) == Some((a as int, n as int)) && p <= a < n
            <= s@.len(),
        r is None ==> name_rule(s@, p as int) is None,
{
    let _len = s.len();
    let a = scan(s, p, CharClass::Space);
    let h = scan(s, a, CharClass::NameHead);
    if h > a {
        let mut i = h;
        while char_at_is(s, i, '.') && scan(s, i + 1, CharClass::NameTail) > i + 1
            invariant
                _len == s@.len(),
                h <= i <= s@.len(),
                segments_end(s@, i as int) == segments_end(s@, h as int),
            decreases s@.len() - i,
        {
            i = scan(s, i + 1, CharClass::NameTail);
        }
        Some((a, i))
    } else {
        None
    }
}

pub fn read_modifier_name(s: &Vec<char>, p: usize) -> (r: Option<(usize, usize)>)
    requires
        p <= s@.len(),
    ensures
        r matches Some((a, b)) ==> modifier_name_rule(s@, p as int) == Some((a as int, b as int)) && p
            < a < b <= s@.len(),
        r is None ==> modifier_name_rule(s@, p as int) is None,
{
    let _len = s.len();
    let a = scan(s, p, CharClass::Space);
    if char_at_is(s, a, ':') {
        let b = scan(s, a + 1, CharClass::NameTail);
        if b > a + 1 {
            return Some((a + 1, b));
        }
    }
    None
}

pub fn read_open(s: &Vec<char>, p: usize) -> (r: Option<usize>)
    requires
        p <= s@.len(),
    ensures
        r matches Some(e) ==> open_rule(s@, p as int) == Some(e as int) && p < e <= s@.len(),
        r is None ==> open_rule(s@, p as int) is None,
{
    let _len = s.len();
    if char_at_is(s, p, '(') {
        Some(scan(s, p + 1, CharClass::Space))
    } else {
        None
    }
}

pub fn read_close(s: &Vec<char>, p: usize) -> (r: Option<usize>)
    requires
        p <= s@.len(),
    ensures
        r matches Some(e) ==> close_rule(s@, p as int) == Some(e as int) && p < e <= s@.len(),
        r is None ==> close_rule(s@, p as int) is None,
{
    let _len = s.len();
    let a = scan(s, p, CharClass::Space);
    if char_at_is(s, a, ')') {
        Some(a + 1)
    } else {
        None
    }
}

pub fn read_comma(s: &Vec<char>, p: usize) -> (r: Option<usize>)
    requires
        p <= s@.len(),
    ensures
        r matches Some(e) ==> comma_rule(s@, p as int) == Some(e as int) && p < e <= s@.len(),
        r is None ==> comma_rule(s@, p as int) is None,
{
    let _len = s.len();
    let a = scan(s, p, CharClass::Space);
    if char_at_is(s, a, ',') {
        Some(scan(s, a + 1, CharClass::Space))
    } else {
        None
    }
}

pub fn lower_char(c: char) -> (r: char)
    ensures
        r == ascii_lower(c),
{
    if 'A' <= c && c <= 'Z' {
        let u = (c as u32) + 32;
        assert(u <= 0x7f);
        // a value below 0x80 is a character
        char_from_ascii(u)
    } else {
        c
    }
}

/// The character with an ASCII code (`char::from_u32`).
pub fn char_from_ascii(u: u32) -> (r: char)
    requires
        u <= 0x7f,
    ensures
        r == u as char,
{
    let b = u as u8;
    let r = b as char;
    r
}

/// Whether `s[a..b]` equals `word` when ASCII case is ignored.
pub fn word_is(s: &Vec<char>, a: usize, b: usize, word: &str) -> (r: bool)
    requires
        a <= b <= s@.len(),
    ensures
        r == eq_ignore_ascii_case(s@.subrange(a as int, b as int), word@),
{
    let w = chars_of(word);
    if b - a != w.len() {
        return false;
    }
    let mut i: usize = 0;
    while i < w.len()
        invariant
            a <= b <= s@.len(),
            b - a == w@.len(),
            w@ == word@,
            i <= w@.len(),
            forall|j: int| 0 <= j < i ==> ascii_lower(s@[a + j]) == ascii_lower(w@[j]),
        decreases w@.len() - i,
    {
        if lower_char(s[a + i]) != lower_char(w[i]) {
            assert(ascii_lower(s@.subrange(a as int, b as int)[i as int]) != ascii_lower(word@[i as int]));
            return false;
        }
        i = i + 1;
    }
    true
}

pub fn read_boolean_word(s: &Vec<char>, a: usize, b: usize) -> (r: Option<bool>)
    requires
        a <= b <= s@.len(),
    ensures
        r == boolean_word(s@.subrange(a as int, b as int)),
{
    if word_is(s, a, b, "true") || word_is(s, a, b, "yes") {
        Some(true)
    } else if word_is(s, a, b, "false") || word_is(s, a, b, "no") {
        Some(false)
    } else {
        None
    }
}

/// Replaces every `c1 c2` in `s` by `r`, from left to right (`str::replace`).
pub fn replace_pair(s: &Vec<char>, c1: char, c2: char, r: char) -> (out: Vec<char>)
    ensures
        out@ == replaced(s@, c1, c2, r),
{
    let mut out: Vec<char> = Vec::new();
    let mut i: usize = 0;
    assert(s@.subrange(0, s@.len() as int) =~= s@);
    assert(out@ + s@ =~= s@);
    while i < s.len()
        invariant
            i <= s@.len(),
            out@ + replaced(s@.subrange(i as int, s@.len() as int), c1, c2, r) == replaced(s@, c1, c2, r),
        decreases s@.len() - i,
    {
        let ghost rest = s@.subrange(i as int, s@.len() as int);
        if i + 1 < s.len() && s[i] == c1 && s[i + 1] == c2 {
            assert(rest.subrange(2, rest.len() as int) =~= s@.subrange(i + 2, s@.len() as int));
            out.push(r);
            i = i + 2;
        } else {
            if i + 1 < s.len() {
                assert(rest.subrange(1, rest.len() as int) =~= s@.subrange(i + 1, s@.len() as int));
            } else {
                assert(rest =~= seq![s@[i as int]]);
                assert(s@.subrange(i + 1, s@.len() as int) =~= Seq::<char>::empty());
            }
            out.push(s[i]);
            i = i + 1;
        }
        assert(out@ + replaced(s@.subrange(i as int, s@.len() as int), c1, c2, r) =~= replaced(s@, c1, c2, r));
    }
    assert(s@.subrange(i as int, s@.len() as int) =~= Seq::<char>::empty());
    assert(out@ + Seq::<char>::empty() =~= out@);
    out
}

/// Reads the content of a string literal out of `s[a..b]`.
pub fn unescape(s: &Vec<char>, a: usize, b: usize) -> (r: String)
    requires
        a <= b <= s@.len(),
    ensures
        r@ == unescaped(s@.subrange(a as int, b as int)),
{
    let raw = slice_chars(s, a, b);
    let once = replace_pair(&raw, '\\', 'n', '\n');
    let twice = replace_pair(&once, '\\', '"', '"');
    string_from(&twice)
}

/// The characters `s[a..b]`.
pub fn slice_chars(s: &Vec<char>, a: usize, b: usize) -> (r: Vec<char>)
    requires
        a <= b <= s@.len(),
    ensures
        r@ == s@.subrange(a as int, b as int),
{
    let mut r: Vec<char> = Vec::new();
    let mut i = a;
    while i < b
        invariant
            a <= i <= b <= s@.len(),
            r@ == s@.subrange(a as int, i as int),
        decreases b - i,
    {
        r.push(s[i]);
        i = i + 1;
        assert(r@ =~= s@.subrange(a as int, i as int));
    }
    r
}

/// A string with the given text.
pub fn text(t: &str) -> (r: String)
    ensures
        r@ == t@,
{
    t.to_owned()
}

/// Shifts a range forward by a given position.
pub fn shift_range(range: Range<usize>, position: usize) -> (r: Range<usize>)
    requires
        range.start + position <= usize::MAX,
        range.end + position <= usize::MAX,
    ensures
        r.start == range.start + position,
        r.end == range.end + position,
{
    let mut range = range;
    range.start = range.start + position;
    range.end = range.end + position;
    range
}

/// Where the token at `p` ends when the reader can read it whole: a keyword, literal, or
/// variable reference whose modifiers `modifiers_end` reads. Number literals, whose reading the
/// numerics decide, count only with `numbers`, and keywords, which no expression can hold, only
/// with `keywords`, at every depth.
pub open spec fn token_end(s: Seq<char>, p: int, numbers: bool, keywords: bool) -> Option<int>
    decreases s.len() - p, 0int,
{
    if !(0 <= p <= s.len()) {
        None
    } else {
        match rule_at(s, p) {
            TokenRule::Keyword => if keywords {
                Some(keyword_rule(s, p).unwrap().2)
            } else {
                None
            },
            TokenRule::Boolean => Some(word_rule(s, p).unwrap().2),
            TokenRule::Number => if numbers {
                Some(number_rule(s, p).unwrap().2)
            } else {
                None
            },
            TokenRule::String => Some(string_rule(s, p).unwrap().2),
            TokenRule::Variable => {
                let n = name_rule(s, p).unwrap().1;
                if p < n <= s.len() {
                    modifiers_end(s, n, numbers, keywords)
                } else {
                    None
                }
            },
            TokenRule::Nothing => None,
        }
    }
}

/// Where the modifiers from `p` on end, when each is `:name`, followed by nothing or by brackets
/// whose parameters `parameters_end` reads.
pub open spec fn modifiers_end(s: Seq<char>, p: int, numbers: bool, keywords: bool) -> Option<int>
    decreases s.len() - p, 0int,
{
    if !(0 <= p <= s.len()) {
        None
    } else {
        match modifier_name_rule(s, p) {
            None => Some(p),
            Some((_, mb)) => {
                let after = match open_rule(s, mb) {
                    Some(o) => if p < o <= s.len() {
                        parameters_end(s, o, true, numbers, keywords)
                    } else {
                        None
                    },
                    None => Some(mb),
                };
                match after {
                    Some(e) => if p < e <= s.len() {
                        modifiers_end(s, e, numbers, keywords)
                    } else {
                        None
                    },
                    None => None,
                }
            },
        }
    }
}

/// Where the parameters of a modifier from `p` on end with the closing bracket, when they are
/// tokens `token_end` reads, separated by commas (`first`: none was read yet).
pub open spec fn parameters_end(s: Seq<char>, p: int, first: bool, numbers: bool, keywords: bool) -> Option<int>
    decreases s.len() - p, 1int,
{
    if !(0 <= p <= s.len()) {
        None
    } else {
        match close_rule(s, p) {
            Some(e) => Some(e),
            None => {
                let q = if first {
                    Some(p)
                } else {
                    comma_rule(s, p)
                };
                match q {
                    Some(q) => if p <= q <= s.len() {
                        match token_end(s, q, numbers, keywords) {
                            Some(c) => if p < c <= s.len() {
                                parameters_end(s, c, false, numbers, keywords)
                            } else {
                                None
                            },
                            None => None,
                        }
                    } else {
                        None
                    },
                    None => None,
                }
            },
        }
    }
}

/// Where a modifier as read ends: after its name when no bracket follows (then it has no
/// parameters), else after the bracket that closes after its last parameter.
pub open spec fn modifier_end(s: Seq<char>, m: (String, Vec<Token>, Range<usize>)) -> Option<int> {
    match open_rule(s, m.2.end as int) {
        None => if m.1@.len() == 0 {
            Some(m.2.end as int)
        } else {
            None
        },
        Some(o) => close_rule(s, if m.1@.len() == 0 {
            o
        } else {
            m.1@.last().range.end as int
        }),
    }
}

/// Where the modifier at `i` of a variable reference starts: after the name for the first,
/// after the modifier before it for the others.
pub open spec fn modifier_start(s: Seq<char>, modifiers: Seq<(String, Vec<Token>, Range<usize>)>, name_end: int, i: int) -> int {
    if i == 0 {
        name_end
    } else {
        modifier_end(s, modifiers[i - 1]).unwrap()
    }
}

/// The parameters of a modifier stand where the reader reads them: the first right inside the
/// opening bracket, each next one after a comma, no closing bracket before the last one.
pub open spec fn parameters_placed(s: Seq<char>, m: (String, Vec<Token>, Range<usize>)) -> bool {
    let args = m.1@;
    &&& args.len() > 0 ==> (open_rule(s, m.2.end as int) matches Some(o) && args[0].range.start == o && close_rule(s, o) is None)
    &&& forall|j: int|
        #![trigger args[j]]
        0 <= j < args.len() - 1 ==> close_rule(s, args[j].range.end as int) is None && comma_rule(
            s,
            args[j].range.end as int,
        ) == Some(args[j + 1].range.start as int)
}

/// A token as the reader gives it at `p`, whole: for a variable reference, its modifiers stand one
/// after another from the end of its name, each named where its name rule finds it, with its
/// parameters placed as the reader reads them and each read whole in turn, and the token ends
/// where the last modifier ends, with no modifier after it.
pub open spec fn read_whole(s: Seq<char>, p: int, t: Token) -> bool
    decreases t,
{
    &&& lexed(s, p, t)
    &&& match t.token {
        TokenType::Variable { modifiers, name_range, .. } => {
            &&& forall|i: int|
                #![trigger modifiers@[i]]
                0 <= i < modifiers@.len() ==> {
                    &&& modifier_name_rule(s, modifier_start(s, modifiers@, name_range.end as int, i)) == Some(
                        (modifiers@[i].2.start as int, modifiers@[i].2.end as int),
                    )
                    &&& modifier_end(s, modifiers@[i]) is Some
                    &&& parameters_placed(s, modifiers@[i])
                }
            &&& forall|i: int, j: int|
                #![trigger modifiers@[i].1@[j]]
                0 <= i < modifiers@.len() && 0 <= j < modifiers@[i].1@.len() ==> read_whole(
                    s,
                    modifiers@[i].1@[j].range.start as int,
                    modifiers@[i].1@[j],
                )
            &&& t.range.end == modifier_start(s, modifiers@, name_range.end as int, modifiers@.len() as int)
            &&& modifier_name_rule(s, t.range.end as int) is None
        },
        _ => true,
    }
}

/// A token read at `p` as `lex` reads it.
pub open spec fn lexed(s: Seq<char>, p: int, t: Token) -> bool {
    &&& p < t.range.end <= s.len()
    &&& match rule_at(s, p) {
        TokenRule::Variable => variable_token(s, p, t),
        _ => simple_token(s, p, t),
    }
}

/// Reads the token at a given position of the input.
pub fn read_token_at<N: Numerics>(input: &str, position: usize, numerics: &N) -> (r: Result<
    Token,
    VariableError,
>)
    requires
        position <= input@.len(),
    ensures
        r matches Ok(t) ==> match rule_at(input@, position as int) {
            TokenRule::Variable => variable_token(input@, position as int, t),
            _ => simple_token(input@, position as int, t),
        },
        rule_at(input@, position as int) is Nothing ==> r is Err,
        r is Err ==> rule_at(input@, position as int) is Nothing || rule_at(input@, position as int) is Number
            || rule_at(input@, position as int) is Variable,
        rule_at(input@, position as int) is Variable && modifier_name_rule(input@, name_rule(input@, position as int).unwrap().1) is None
            ==> (r matches Ok(t) && (t.range.end == name_rule(input@, position as int).unwrap().1
            && (t.token matches TokenType::Variable { modifiers, .. } && modifiers@.len() == 0))),
        r matches Ok(t) ==> read_whole(input@, position as int, t),
        token_end(input@, position as int, false, false) matches Some(e) ==> (r matches Ok(t) && t.range.end == e && expressible(t)),
        token_end(input@, position as int, false, true) matches Some(e) ==> (r matches Ok(t) && t.range.end == e),
        token_end(input@, position as int, true, true) matches Some(e) ==> match r {
            Ok(t) => t.range.end == e,
            Err(x) => x.title@ == "invalid number literal"@,
        },
        rule_at(input@, position as int) is Number ==> number_read(numerics, input@, position as int, r),
{
    let chars = chars_of(input);
    lex(&chars, position, numerics)
}

/// What is read at `p`, where a number literal stands: the number that the numerics parse its
/// text to, or an error exactly when they parse none.
pub open spec fn number_read<N: Numerics>(numerics: &N, s: Seq<char>, p: int, r: Result<Token, VariableError>) -> bool {
    let (a, b, e) = number_rule(s, p).unwrap();
    match r {
        Ok(t) => t.token matches TokenType::Literal { value: TokenLiteral::Number(n) } && parsed_as(
            numerics,
            s.subrange(a, b),
            Some(n),
        ),
        Err(_) => parsed_as(numerics, s.subrange(a, b), None),
    }
}

/// Reads a keyword, a literal or gives `None` where the token at `position` is a variable or
/// nothing at all.
fn lex_plain<N: Numerics>(s: &Vec<char>, position: usize, numerics: &N) -> (r: Option<Result<Token, VariableError>>)
    requires
        position <= s@.len(),
    ensures
        r is None <==> (rule_at(s@, position as int) is Variable || rule_at(s@, position as int) is Nothing),
        r matches Some(Ok(t)) ==> position < t.range.end <= s@.len() && simple_token(s@, position as int, t)
            && read_whole(s@, position as int, t),
        r matches Some(Err(x)) ==> rule_at(s@, position as int) is Number && x.title@ == "invalid number literal"@,
        rule_at(s@, position as int) is Number ==> (r matches Some(res) && number_read(numerics, s@, position as int, res)),
        token_end(s@, position as int, false, false) matches Some(e) ==> (r is Some ==> (r matches Some(Ok(t))
            && t.range.end == e && expressible(t))),
        token_end(s@, position as int, false, true) matches Some(e) ==> (r is Some ==> (r matches Some(Ok(t))
            && t.range.end == e)),
        token_end(s@, position as int, true, true) matches Some(e) ==> (r matches Some(Ok(t)) ==> t.range.end == e),
{
    proof {
        lemma_span(s@, position as int, CharClass::Space);
    }
    // Keyword
    if let Some((a, b, e)) = read_keyword(s, position) {
        return Some(Ok(Token {
            range: position..e,
            token: TokenType::Keyword { word: string_of(s, a, b) },
        }));
    }
    // Literals

    if let Some((a, b, e)) = read_word(s, position) {
        proof {
            lemma_span(s@, a as int, CharClass::Alpha);
        }
        if let Some(v) = read_boolean_word(s, a, b) {
            return Some(Ok(Token {
                range: position..e,
                token: TokenType::Literal { value: TokenLiteral::Boolean(v) },
            }));
        }
    }
    if let Some((a, b, e)) = read_number(s, position) {
        let number_text = string_of(s, a, b);
        match numerics.parse(number_text.as_str()) {
            Some(n) => {
                assert(parsed_as(numerics, s@.subrange(a as int, b as int), Some(n)));
                return Some(Ok(Token {
                    range: position..e,
                    token: TokenType::Literal { value: TokenLiteral::Number(n) },
                }));
            },
            None => {
                assert(parsed_as(numerics, s@.subrange(a as int, b as int), None));
                let mut summary = text("´");
                summary.append(number_text.as_str());
                summary.append("´ is not a valid number");
                return Some(Err(VariableError {
                    title: text("invalid number literal"),
                    primary: (a..b, text("is not a valid number")),
                    secondary: Vec::new(),
                    summary,
                }));
            },
        }
    }
    if let Some((a, b, e)) = read_string(s, position) {
        return Some(Ok(Token {
            range: position..e,
            token: TokenType::Literal { value: TokenLiteral::String(unescape(s, a, b)) },
        }));
    }
    None
}

/// Reads the token at position `position` of the characters `s`.
#[verifier::spinoff_prover]
#[verifier::rlimit(60)]
pub fn lex<N: Numerics>(s: &Vec<char>, position: usize, numerics: &N) -> (r: Result<Token, VariableError>)
    requires
        position <= s@.len(),
    ensures
        r matches Ok(t) ==> position < t.range.end <= s@.len() && match rule_at(s@, position as int) {
            TokenRule::Variable => variable_token(s@, position as int, t),
            _ => simple_token(s@, position as int, t),
        },
        rule_at(s@, position as int) is Nothing ==> r is Err,
        r is Err ==> rule_at(s@, position as int) is Nothing || rule_at(s@, position as int) is Number
            || rule_at(s@, position as int) is Variable,
        rule_at(s@, position as int) is Variable && modifier_name_rule(s@, name_rule(s@, position as int).unwrap().1) is None
            ==> (r matches Ok(t) && (t.range.end == name_rule(s@, position as int).unwrap().1
            && (t.token matches TokenType::Variable { modifiers, .. } && modifiers@.len() == 0))),
        r matches Ok(t) ==> read_whole(s@, position as int, t),
        token_end(s@, position as int, false, false) matches Some(e) ==> (r matches Ok(t) && t.range.end == e && expressible(t)),
        token_end(s@, position as int, false, true) matches Some(e) ==> (r matches Ok(t) && t.range.end == e),
        token_end(s@, position as int, true, true) matches Some(e) ==> match r {
            Ok(t) => t.range.end == e,
            Err(x) => x.title@ == "invalid number literal"@,
        },
        rule_at(s@, position as int) is Number ==> number_read(numerics, s@, position as int, r),
    decreases s@.len() - position,
{
    if let Some(r) = lex_plain(s, position, numerics) {
        return r;
    }
    // Variables

    if let Some((a, n)) = read_name(s, position) {
        let mut modifiers: Vec<(String, Vec<Token>, Range<usize>)> = Vec::new();
        let mut pos = n;
        let ghost me_s = modifiers_end(s@, n as int, false, false);
        let ghost me_l = modifiers_end(s@, n as int, true, true);
        let ghost me_k = modifiers_end(s@, n as int, false, true);
        loop
            invariant
                me_s == modifiers_end(s@, n as int, false, false),
                me_l == modifiers_end(s@, n as int, true, true),
                me_k == modifiers_end(s@, n as int, false, true),
                me_s is Some ==> modifiers_end(s@, pos as int, false, false) == me_s,
                me_l is Some ==> modifiers_end(s@, pos as int, true, true) == me_l,
                me_k is Some ==> modifiers_end(s@, pos as int, false, true) == me_k,
                pos == modifier_start(s@, modifiers@, n as int, modifiers@.len() as int),
                me_s is Some ==> forall|i: int, j: int|
                    #![trigger modifiers@[i].1@[j]]
                    0 <= i < modifiers@.len() && 0 <= j < modifiers@[i].1@.len() ==> expressible(modifiers@[i].1@[j]),
                forall|i: int|
                    #![trigger modifiers@[i]]
                    0 <= i < modifiers@.len() ==> {
                        &&& modifier_name_rule(s@, modifier_start(s@, modifiers@, n as int, i)) == Some(
                            (modifiers@[i].2.start as int, modifiers@[i].2.end as int),
                        )
                        &&& modifier_end(s@, modifiers@[i]) is Some
                        &&& parameters_placed(s@, modifiers@[i])
                    },
                forall|i: int, j: int|
                    #![trigger modifiers@[i].1@[j]]
                    0 <= i < modifiers@.len() && 0 <= j < modifiers@[i].1@.len() ==> read_whole(
                        s@,
                        modifiers@[i].1@[j].range.start as int,
                        modifiers@[i].1@[j],
                    ),
                rule_at(s@, position as int) is Variable,
                position <= a < n <= pos <= s@.len(),
                name_rule(s@, position as int) == Some((a as int, n as int)),
                modifiers@.len() == 0 ==> pos == n,
                modifier_name_rule(s@, n as int) is None ==> modifiers@.len() == 0,
                forall|i: int|
                    #![trigger modifiers@[i]]
                    0 <= i < modifiers@.len() ==> {
                        let (m, args, r) = modifiers@[i];
                        &&& n < r.start < r.end <= pos
                        &&& m@ == s@.subrange(r.start as int, r.end as int)
                        &&& (i == 0 ==> modifier_name_rule(s@, n as int) == Some((r.start as int, r.end as int)))
                        &&& forall|j: int|
                            #![trigger args@[j]]
                            0 <= j < args@.len() ==> r.end < args@[j].range.start
                                < args@[j].range.end <= pos
                    },
                forall|i: int, k: int|
                    #![trigger modifiers@[i], modifiers@[k]]
                    0 <= i < k < modifiers@.len() ==> modifiers@[i].2.end < modifiers@[k].2.start,
                modifiers@.len() > 0 ==> modifiers@.last().2.end <= pos,
            ensures
                me_s matches Some(e) ==> pos == e,
                me_l matches Some(e) ==> pos == e,
                me_k matches Some(e) ==> pos == e,
                me_s is Some ==> forall|i: int, j: int|
                    #![trigger modifiers@[i].1@[j]]
                    0 <= i < modifiers@.len() && 0 <= j < modifiers@[i].1@.len() ==> expressible(modifiers@[i].1@[j]),
                modifier_name_rule(s@, pos as int) is None,
                pos == modifier_start(s@, modifiers@, n as int, modifiers@.len() as int),
                forall|i: int|
                    #![trigger modifiers@[i]]
                    0 <= i < modifiers@.len() ==> {
                        &&& modifier_name_rule(s@, modifier_start(s@, modifiers@, n as int, i)) == Some(
                            (modifiers@[i].2.start as int, modifiers@[i].2.end as int),
                        )
                        &&& modifier_end(s@, modifiers@[i]) is Some
                        &&& parameters_placed(s@, modifiers@[i])
                    },
                forall|i: int, j: int|
                    #![trigger modifiers@[i].1@[j]]
                    0 <= i < modifiers@.len() && 0 <= j < modifiers@[i].1@.len() ==> read_whole(
                        s@,
                        modifiers@[i].1@[j].range.start as int,
                        modifiers@[i].1@[j],
                    ),
                position <= a < n <= pos <= s@.len(),
                name_rule(s@, position as int) == Some((a as int, n as int)),
                modifiers@.len() == 0 ==> pos == n,
                modifier_name_rule(s@, n as int) is None ==> modifiers@.len() == 0,
                forall|i: int|
                    #![trigger modifiers@[i]]
                    0 <= i < modifiers@.len() ==> {
                        let (m, args, r) = modifiers@[i];
                        &&& n < r.start < r.end <= pos
                        &&& m@ == s@.subrange(r.start as int, r.end as int)
                        &&& (i == 0 ==> modifier_name_rule(s@, n as int) == Some((r.start as int, r.end as int)))
                        &&& forall|j: int|
                            #![trigger args@[j]]
                            0 <= j < args@.len() ==> r.end < args@[j].range.start
                                < args@[j].range.end <= pos
                    },
                forall|i: int, k: int|
                    #![trigger modifiers@[i], modifiers@[k]]
                    0 <= i < k < modifiers@.len() ==> modifiers@[i].2.end < modifiers@[k].2.start,
                modifiers@.len() > 0 ==> modifiers@.last().2.end <= pos,
            decreases s@.len() - pos,
        {
            let ghost start_pos = pos;
            let (ma, mb) = match read_modifier_name(s, pos) {
                Some(x) => x,
                None => {
                    break;
                },
            };
            let name_range = ma..mb;
            proof {
                assert(modifier_name_rule(s@, n as int) is Some);
            }
            pos = mb;
            let mut arguments: Vec<Token> = Vec::new();
            if let Some(open_end) = read_open(s, pos) {
                let mut token_pos = open_end;
                let mut first = true;
                let ghost pe_s = parameters_end(s@, open_end as int, true, false, false);
                let ghost pe_l = parameters_end(s@, open_end as int, true, true, true);
                let ghost pe_k = parameters_end(s@, open_end as int, true, false, true);
                loop
                    invariant_except_break
                        pos == mb,
                        pe_s is Some ==> parameters_end(s@, token_pos as int, first, false, false) == pe_s,
                        pe_l is Some ==> parameters_end(s@, token_pos as int, first, true, true) == pe_l,
                        pe_k is Some ==> parameters_end(s@, token_pos as int, first, false, true) == pe_k,
                    invariant
                        pe_s == parameters_end(s@, open_end as int, true, false, false),
                        pe_l == parameters_end(s@, open_end as int, true, true, true),
                        pe_k == parameters_end(s@, open_end as int, true, false, true),
                        me_s is Some ==> pe_s is Some,
                        me_l is Some ==> pe_l is Some,
                        me_k is Some ==> pe_k is Some,
                        pe_s is Some ==> forall|j: int| #![trigger arguments@[j]] 0 <= j < arguments@.len() ==> expressible(arguments@[j]),
                        first <==> arguments@.len() == 0,
                        first ==> token_pos == open_end,
                        !first ==> token_pos == arguments@.last().range.end,
                        open_rule(s@, mb as int) == Some(open_end as int),
                        arguments@.len() > 0 ==> arguments@[0].range.start == open_end && close_rule(s@, open_end as int) is None,
                        forall|j: int|
                            #![trigger arguments@[j]]
                            0 <= j < arguments@.len() - 1 ==> close_rule(s@, arguments@[j].range.end as int) is None && comma_rule(
                                s@,
                                arguments@[j].range.end as int,
                            ) == Some(arguments@[j + 1].range.start as int),
                        forall|j: int|
                            #![trigger arguments@[j]]
                            0 <= j < arguments@.len() ==> read_whole(s@, arguments@[j].range.start as int, arguments@[j]),
                        me_s == modifiers_end(s@, n as int, false, false),
                        me_l == modifiers_end(s@, n as int, true, true),
                        me_k == modifiers_end(s@, n as int, false, true),
                        rule_at(s@, position as int) is Variable,
                        modifier_name_rule(s@, n as int) is Some,
                        name_rule(s@, position as int) == Some((a as int, n as int)),
                        position < mb < token_pos <= s@.len(),
                        forall|j: int|
                            #![trigger arguments@[j]]
                            0 <= j < arguments@.len() ==> mb < arguments@[j].range.start
                                < arguments@[j].range.end <= token_pos,
                    ensures
                        mb < pos <= s@.len(),
                        forall|j: int|
                            #![trigger arguments@[j]]
                            0 <= j < arguments@.len() ==> mb < arguments@[j].range.start
                                < arguments@[j].range.end <= pos,
                        pos == close_rule(s@, token_pos as int).unwrap() && close_rule(s@, token_pos as int) is Some,
                        pe_s matches Some(e) ==> pos == e,
                        pe_l matches Some(e) ==> pos == e,
                        pe_k matches Some(e) ==> pos == e,
                    decreases s@.len() - token_pos,
                {
                    if let Some(close_end) = read_close(s, token_pos) {
                        pos = close_end;
                        break ;
                    } else if first {
                        let token = lex(s, token_pos, numerics)?;
                        first = false;
                        token_pos = token.range.end;
                        arguments.push(token);
                    } else if let Some(comma_end) = read_comma(s, token_pos) {
                        let ghost before = arguments@;
                        let token = lex(s, comma_end, numerics)?;
                        token_pos = token.range.end;
                        arguments.push(token);
                        proof {
                            assert(arguments@[before.len() - 1] == before.last());
                        }
                    } else {
                        return Err(VariableError {
                            title: text("expected parameter or nothing"),
                            primary: (token_pos..token_pos, text("expected another parameter separated by comma or ending brace of modifier")),
                            secondary: Vec::new(),
                            summary: text("did not encounter ',', or ')', to end or continue parameter list"),
                        });
                    }
                }
            }
            let modifier_name = string_of(s, ma, mb);
            let ghost before = modifiers@;
            modifiers.push((modifier_name, arguments, name_range));
            proof {
                assert forall|i: int| 0 <= i <= before.len() implies modifier_start(s@, modifiers@, n as int, i)
                    == modifier_start(s@, before, n as int, i) by {
                    if i > 0 {
                        assert(modifiers@[i - 1] == before[i - 1]);
                    }
                }
            }
        }
        return Ok(Token {
            range: position..pos,
            token: TokenType::Variable { name: string_of(s, a, n), modifiers, name_range: a..n },
        });
    }
    Err(VariableError {
        title: text("expected valid token"),
        primary: (position..position, text("no valid token found here")),
        secondary: Vec::new(),
        summary: text("did not encounter a valid token, expected either a literal, keyword or variable"),
    })
}

} // verus!
