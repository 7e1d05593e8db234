//! What the program shows and asks: the output settings, and the decisions taken on answers.
use vstd::prelude::*;
use crate::module::Module;
use crate::text::{push_text, lower_case, to_lower, chars_of, is_space, span, CharClass, scan, lemma_span, char_in_class, string_of};
use crate::variables::token::text;

verus! {

/// How messages are shown.
pub struct Output {
    pub verbose: bool,
    pub indent: bool,
}

impl Output {
    /// The indentation before a message.
    pub fn get_indent(&self) -> (r: &'static str)
        ensures
            r@ == (if self.indent { "   "@ } else { ""@ }),
    {
        proof {
            reveal_strlit("   ");
            reveal_strlit("");
        }
        if self.indent {
            "   "
        } else {
            ""
        }
    }

    pub fn set_indent(&mut self, indent: bool)
        ensures
            final(self).indent == indent,
            final(self).verbose == old(self).verbose,
    {
        self.indent = indent;
    }

    pub fn set_verbose(&mut self, verbose: bool)
        ensures
            final(self).verbose == verbose,
            final(self).indent == old(self).indent,
    {
        self.verbose = verbose;
    }
}

/// Where the white space at the end of a text starts.
pub open spec fn trailing_space_start(s: Seq<char>) -> int
    decreases s.len(),
{
    if s.len() > 0 && is_space(s.last()) {
        trailing_space_start(s.drop_last())
    } else {
        s.len() as int
    }
}

/// The text `str::trim` leaves of a line: without the white space (Unicode `White_Space`) at its
/// start and at its end.
pub open spec fn trimmed(s: Seq<char>) -> Seq<char> {
    let a = span(s, 0, CharClass::Space);
    if a >= s.len() {
        Seq::empty()
    } else {
        s.subrange(a, trailing_space_start(s))
    }
}

/// The value of a text of decimal digits.
pub open spec fn digits_value(d: Seq<char>) -> int
    decreases d.len(),
{
    if d.len() == 0 {
        0
    } else {
        digits_value(d.drop_last()) * 10 + (d.last() as int - '0' as int)
    }
}

/// The number `usize::from_str` reads from a text: decimal digits, after an optional `+`, whose
/// value fits in `usize`; `None` for anything else.
pub open spec fn parsed_count(s: Seq<char>) -> Option<usize> {
    let d = unsigned(s);
    if d.len() > 0 && (forall|i: int| 0 <= i < d.len() ==> '0' <= #[trigger] unsigned(s)[i] <= '9') && digits_value(d)
        <= usize::MAX {
        Some(digits_value(d) as usize)
    } else {
        None
    }
}

/// A text without the `+` it may start with.
pub open spec fn unsigned(s: Seq<char>) -> Seq<char> {
    if s.len() > 0 && s[0] == '+' {
        s.drop_first()
    } else {
        s
    }
}

/// The text of `s` without the white space at its start and at its end, as `str::trim` gives it.
pub(crate) fn trim_text(s: &str) -> (r: String)
    ensures
        r@ == trimmed(s@),
{
    let cs = chars_of(s);
    let a = scan(&cs, 0, CharClass::Space);
    proof {
        lemma_span(cs@, 0, CharClass::Space);
    }
    if a >= cs.len() {
        let e = String::new();
        return e;
    }
    let mut b = cs.len();
    assert(cs@.subrange(0, b as int) =~= cs@);
    while b > a + 1 && char_in_class(CharClass::Space, cs[b - 1])
        invariant
            a < b <= cs@.len(),
            a < cs@.len(),
            cs@ == s@,
            !is_space(cs@[a as int]),
            trailing_space_start(cs@) == trailing_space_start(cs@.subrange(0, b as int)),
        decreases b,
    {
        assert(cs@.subrange(0, b as int).drop_last() =~= cs@.subrange(0, b - 1));
        b = b - 1;
    }
    proof {
        if b == a + 1 {
            assert(cs@.subrange(0, b as int).last() == cs@[a as int]);
        }
    }
    string_of(&cs, a, b)
}

/// The number a text is, as `usize::from_str` reads it: decimal digits after an optional `+`,
/// whose value fits in `usize`.
pub(crate) fn parse_count(s: &str) -> (r: Option<usize>)
    ensures
        r == parsed_count(s@),
{
    let cs = chars_of(s);
    let start: usize = if cs.len() > 0 && cs[0] == '+' { 1 } else { 0 };
    let ghost d = unsigned(s@);
    assert(d =~= cs@.subrange(start as int, cs@.len() as int));
    if start >= cs.len() {
        return None;
    }
    let mut value: usize = 0;
    let mut i = start;
    while i < cs.len()
        invariant
            start <= i <= cs@.len(),
            cs@ == s@,
            d == cs@.subrange(start as int, cs@.len() as int),
            d == unsigned(s@),
            forall|k: int| start <= k < i ==> '0' <= #[trigger] cs@[k] <= '9',
            value == digits_value(cs@.subrange(start as int, i as int)),
        decreases cs@.len() - i,
    {
        let c = cs[i];
        if !('0' <= c && c <= '9') {
            proof {
                assert(d[i - start] == c);
                assert(!('0' <= d[i - start] <= '9'));
                assert(unsigned(s@)[i - start] == c);
            }
            return None;
        }
        let digit = (c as u32 - '0' as u32) as usize;
        assert(cs@.subrange(start as int, i + 1).drop_last() =~= cs@.subrange(start as int, i as int));
        if value > (usize::MAX - digit) / 10 {
            proof {
                assert(digits_value(cs@.subrange(start as int, i + 1)) == value * 10 + digit);
                if forall|x: int| 0 <= x < d.len() ==> '0' <= #[trigger] unsigned(s@)[x] <= '9' {
                    lemma_digits_grow(d, i + 1 - start);
                    assert(d.subrange(0, i + 1 - start) =~= cs@.subrange(start as int, i + 1));
                }
                assert(value * 10 + digit > usize::MAX) by (nonlinear_arith)
                    requires
                        value > (usize::MAX - digit) / 10,
                        digit <= 9,
                ;
            }
            return None;
        }
        assert(value * 10 + digit <= usize::MAX) by (nonlinear_arith)
            requires
                value <= (usize::MAX - digit) / 10,
                digit <= 9,
        ;
        value = value * 10 + digit;
        i = i + 1;
    }
    assert(cs@.subrange(start as int, i as int) =~= d);
    assert forall|x: int| 0 <= x < d.len() implies '0' <= #[trigger] unsigned(s@)[x] <= '9' by {
        assert(d[x] == cs@[start + x]);
    }
    Some(value)
}

/// A text of digits is worth at least what any prefix of it is.
proof fn lemma_digits_grow(d: Seq<char>, k: int)
    requires
        0 <= k <= d.len(),
        forall|i: int| 0 <= i < d.len() ==> '0' <= #[trigger] d[i] <= '9',
    ensures
        digits_value(d.subrange(0, k)) <= digits_value(d),
    decreases d.len(),
{
    if k < d.len() {
        assert(d.drop_last() =~= d.subrange(0, d.len() - 1));
        lemma_digits_grow(d.drop_last(), k);
        assert(d.drop_last().subrange(0, k) =~= d.subrange(0, k));
        lemma_digits_nonneg(d.drop_last());
    } else {
        assert(d.subrange(0, k) =~= d);
    }
}

/// Digits are worth nothing negative.
proof fn lemma_digits_nonneg(d: Seq<char>)
    requires
        forall|i: int| 0 <= i < d.len() ==> '0' <= #[trigger] d[i] <= '9',
    ensures
        digits_value(d) >= 0,
    decreases d.len(),
{
    if d.len() > 0 {
        lemma_digits_nonneg(d.drop_last());
    }
}

/// What an answer to a choice among `count` options picks: the default for an empty answer
/// when there is one, else the option whose number (counted from 1) the trimmed answer is;
/// `None` when the answer is no such number and the question is asked again.
pub open spec fn picked(line: Seq<char>, count: usize, default: Option<usize>) -> Option<usize> {
    if default is Some && line.len() == 0 {
        default
    } else {
        match parsed_count(trimmed(line)) {
            Some(i) => if 1 <= i <= count {
                Some((i - 1) as usize)
            } else {
                None
            },
            None => None,
        }
    }
}

/// Reads an answer to a choice among `count` options.
pub fn read_choice(line: &str, count: usize, default: Option<usize>) -> (r: Option<usize>)
    ensures
        r == picked(line@, count, default),
{
    if default.is_some() && line.is_empty() {
        return default;
    }
    let t = trim_text(line);
    match parse_count(t.as_str()) {
        Some(i) => if 1 <= i && i <= count {
            Some(i - 1)
        } else {
            None
        },
        None => None,
    }
}

/// Asks the user to pick one of some options.
pub trait Chooser {
    /// The index of the option the user picked.
    fn pick(&self, question: &str, options: &Vec<String>) -> usize;
}

/// The line an option of a module choice shows: its full qualifier and its name.
pub open spec fn module_option(m: Module) -> Seq<char> {
    m.qualifier.unique_view() + " ("@ + m.name@ + ")"@
}

/// The lines a choice among modules shows, one per module in order.
pub fn module_options(modules: &Vec<&Module>) -> (options: Vec<String>)
    ensures
        options@.len() == modules@.len(),
        forall|k: int| 0 <= k < modules@.len() ==> (#[trigger] options@[k])@ == module_option(*modules@[k]),
{
    let mut options: Vec<String> = Vec::new();
    let mut i: usize = 0;
    while i < modules.len()
        invariant
            i <= modules@.len(),
            options@.len() == i,
            forall|k: int| 0 <= k < i ==> (#[trigger] options@[k])@ == module_option(*modules@[k]),
        decreases modules@.len() - i,
    {
        let m = modules[i];
        let mut line = m.qualifier.unique();
        push_text(&mut line, " (");
        push_text(&mut line, m.name.as_str());
        push_text(&mut line, ")");
        proof {
            reveal_strlit(" (");
            reveal_strlit(")");
        }
        options.push(line);
        i = i + 1;
    }
    options
}

/// What a pick among `count` options chooses: the option picked when there is one with that
/// index, else none.
pub fn choice_of(picked: usize, count: usize) -> (r: Option<usize>)
    ensures
        r == (if picked < count { Some(picked) } else { None::<usize> }),
{
    if picked < count {
        Some(picked)
    } else {
        None
    }
}

/// Which of some modules is meant: none when there are none, the one when there is one, and
/// otherwise the one the user picks among the lines of `module_options`.
pub fn prompt_choice_module<C: Chooser>(modules: &Vec<&Module>, prompt: &str, chooser: &C) -> (r: Option<usize>)
    ensures
        modules@.len() == 0 ==> r is None,
        modules@.len() == 1 ==> r == Some(0usize),
        r matches Some(i) ==> i < modules@.len(),
        modules@.len() >= 2 ==> exists|options: Vec<String>, p: usize|
            #[trigger] call_ensures(C::pick, (chooser, prompt, &options), p) && options@.len() == modules@.len()
                && (forall|k: int| 0 <= k < modules@.len() ==> (#[trigger] options@[k])@ == module_option(*modules@[k]))
                && r == (if p < modules@.len() { Some(p) } else { None::<usize> }),
{
    if modules.len() == 0 {
        return None;
    }
    if modules.len() == 1 {
        return Some(0);
    }
    let options = module_options(modules);
    let picked = chooser.pick(prompt, &options);
    let r = choice_of(picked, modules.len());
    assert(call_ensures(C::pick, (chooser, prompt, &options), picked));
    r
}

/// What an answer to a yes-or-no question says, read from its trimmed lowercase text: the
/// default when it is empty, else yes exactly when it starts with `y`.
pub open spec fn yes_to(t: Seq<char>, default: bool) -> bool {
    if t.len() == 0 {
        default
    } else {
        t[0] == 'y'
    }
}

/// Reads the answer to a yes-or-no question; anything but yes counts as no.
pub fn yes_answer(line: &str, default: bool) -> (r: bool)
    ensures
        r == yes_to(lower_case(trimmed(line@)), default),
{
    let t = trim_text(line);
    let lowered = to_lower(t.as_str());
    let cs = chars_of(lowered.as_str());
    if cs.len() == 0 {
        default
    } else {
        cs[0] == 'y'
    }
}

} // verus!
