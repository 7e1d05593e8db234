//! Splits a template into the literal text and the statements embedded in it.
//!
//! A statement is written between `%%` markers, e.g. `%% theme.color %%` or `%% !if dark %%`.
//! Positions are indices into the characters of the input.
use std::ops::Range;
use vstd::prelude::*;
use crate::numbers::Numerics;
use crate::text::{CharClass, span, scan, char_at_is, chars_of, chars_equal};
use crate::variables::VariableError;
use crate::variables::token::{Token, TokenType, TokenLiteral, TokenRule, lex, text, rule_at, keyword_rule, variable_token, simple_token};
use crate::variables::reading::{keyword_at, keyword_statement, statement_by_first_token, next_control, lemma_next_control, lemma_next_control_start, lemma_statement_by_first_token, closed_by_end, unclosed_if, if_read, lemma_if_read, plain_context, plain_statement,
    lemma_plain_context, lemma_plain_statement, lemma_plain_block, statement_reads_as, context_reads_as};

verus! {

/// A file or part of a file with dynamic content.
pub struct Context {
    pub source: Range<usize>,
    pub statements: Vec<Statement>,
}

/// A single instance of dynamic content and where it stands.
pub struct Statement {
    pub location: Range<usize>,
    pub content: StatementType,
}

/// The kinds of dynamic content.
pub enum StatementType {
    /// An expression, such as a variable reference.
    Expression { content: Expression },
    /// An if-else statement, decided by an expression.
    Conditional { condition: Expression, context_true: Context, context_false: Option<Context> },
    /// A list statement, which repeats its context for each item of an expression.
    List { expression: Expression, context: Context },
}

/// An expression, which is evaluated to a value.
pub struct Expression {
    pub range: Range<usize>,
    pub content: ExpressionContent,
    pub content_range: Range<usize>,
    pub modifiers: Vec<ExpressionModifier>,
}

/// The base of an expression: a literal or a variable.
pub enum ExpressionContent {
    LiteralString(String),
    /// A number as binary64 bits.
    LiteralNumber(u64),
    LiteralBool(bool),
    Variable(String),
}

/// A modifier at the end of an expression, with its parameters.
pub struct ExpressionModifier {
    pub name: String,
    pub name_range: Range<usize>,
    pub parameters: Vec<Expression>,
}

/// The outcome of reading a statement: a statement, or a control flow keyword that closes the
/// context being read.
pub enum NextStatement {
    Full(Statement),
    ControlFlow(String),
}

// ---------------------------------------------------------------------------------------------
// Statement markers
// ---------------------------------------------------------------------------------------------

/// Whether a statement marker `%%` starts at `i`.
pub open spec fn marker_at(s: Seq<char>, i: int) -> bool {
    0 <= i && i + 1 < s.len() && s[i] == '%' && s[i + 1] == '%'
}

/// The first statement marker at or after `i`.
pub open spec fn next_marker(s: Seq<char>, i: int) -> Option<int>
    decreases s.len() - i,
{
    if i < 0 || i + 1 >= s.len() {
        None
    } else if marker_at(s, i) {
        Some(i)
    } else {
        next_marker(s, i + 1)
    }
}

pub proof fn lemma_next_marker(s: Seq<char>, i: int)
    requires
        0 <= i,
    ensures
        next_marker(s, i) matches Some(k) ==> i <= k && marker_at(s, k) && forall|j: int|
            i <= j < k ==> !marker_at(s, j),
        next_marker(s, i) is None ==> forall|j: int| i <= j ==> !marker_at(s, j),
    decreases s.len() - i,
{
    if i + 1 < s.len() && !marker_at(s, i) {
        lemma_next_marker(s, i + 1);
    }
}

/// `%%\s*`, searched from `i`: the range of the statement opening.
pub open spec fn statement_start(s: Seq<char>, i: int) -> Option<(int, int)> {
    match next_marker(s, i) {
        Some(k) => Some((k, span(s, k + 2, CharClass::Space))),
        None => None,
    }
}

/// A statement closes at `i`: after spaces stands `%%`.
pub open spec fn closes_at(s: Seq<char>, i: int) -> bool {
    marker_at(s, span(s, i, CharClass::Space))
}

/// `\s*%%` at `i`, followed by the line break when the statement fills its whole line (it opens at
/// the start of the text or of a line): the end of the statement closing.
pub open spec fn statement_end(s: Seq<char>, i: int, open_start: int) -> Option<int> {
    let a = span(s, i, CharClass::Space);
    if marker_at(s, a) {
        let e = a + 2;
        if (open_start == 0 || s[open_start - 1] == '\n') && e < s.len() && s[e] == '\n' {
            Some(e + 1)
        } else {
            Some(e)
        }
    } else {
        None
    }
}

// ---------------------------------------------------------------------------------------------
// What the reader produces
// ---------------------------------------------------------------------------------------------

/// The ranges of a context are ordered and lie within `bound`, and so do those of its nested
/// contexts: each statement starts with a marker, and the text between statements holds none.
pub open spec fn context_wf(s: Seq<char>, c: Context) -> bool
    decreases c,
{
    &&& c.source.start <= c.source.end <= s.len()
    &&& forall|i: int|
        #![trigger c.statements@[i]]
        0 <= i < c.statements@.len() ==> {
            &&& c.source.start <= c.statements@[i].location.start < c.statements@[i].location.end
                <= c.source.end
            &&& marker_at(s, c.statements@[i].location.start as int)
            &&& statement_wf(s, c.statements@[i])
        }
    &&& forall|i: int|
        #![trigger c.statements@[i]]
        0 < i < c.statements@.len() ==> c.statements@[i - 1].location.end
            <= c.statements@[i].location.start
    &&& forall|i: int, j: int|
        #![trigger c.statements@[i], marker_at(s, j)]
        0 <= i < c.statements@.len() && (if i == 0 {
            c.source.start as int
        } else {
            c.statements@[i - 1].location.end as int
        }) <= j < c.statements@[i].location.start ==> !marker_at(s, j)
    &&& forall|j: int|
        #![trigger marker_at(s, j)]
        last_end(c) <= j < c.source.end ==> !marker_at(s, j)
}

/// Where the last statement of a context ends, or where the context starts if it has none.
pub open spec fn last_end(c: Context) -> int {
    if c.statements@.len() == 0 {
        c.source.start as int
    } else {
        c.statements@.last().location.end as int
    }
}

/// The nested contexts of a statement are well formed and lie inside it.
pub open spec fn statement_wf(s: Seq<char>, st: Statement) -> bool
    decreases st,
{
    match st.content {
        StatementType::Expression { .. } => true,
        StatementType::Conditional { context_true, context_false, .. } => {
            &&& context_wf(s, context_true)
            &&& st.location.start < context_true.source.start
            &&& context_true.source.end <= st.location.end
            &&& match context_false {
                Some(f) => context_wf(s, f) && st.location.start < f.source.start
                    && f.source.end <= st.location.end,
                None => true,
            }
        },
        StatementType::List { context, .. } => {
            &&& context_wf(s, context)
            &&& st.location.start < context.source.start
            &&& context.source.end <= st.location.end
        },
    }
}

// ---------------------------------------------------------------------------------------------
// Reading
// ---------------------------------------------------------------------------------------------

/// Finds the start of the next statement at or after `start`, if there is one.
pub fn read_statement_start(s: &Vec<char>, start: usize) -> (r: Option<Range<usize>>)
    requires
        start <= s@.len(),
    ensures
        r matches Some(x) ==> statement_start(s@, start as int) == Some((x.start as int, x.end as int))
            && start <= x.start && x.start + 2 <= x.end <= s@.len(),
        r is None ==> statement_start(s@, start as int) is None,
{
    proof {
        lemma_next_marker(s@, start as int);
    }
    let mut i = start;
    while i < s.len() && i + 1 < s.len()
        invariant
            start <= i <= s@.len(),
            next_marker(s@, i as int) == next_marker(s@, start as int),
        decreases s@.len() - i,
    {
        if s[i] == '%' && s[i + 1] == '%' {
            let e = scan(s, i + 2, CharClass::Space);
            return Some(i..e);
        }
        i = i + 1;
    }
    None
}

/// Reads the end of a statement at `start`; it is an error when the statement does not end there.
pub fn read_statement_end(s: &Vec<char>, start: usize, open_range: &Range<usize>, summary: &str) -> (r:
    Result<Range<usize>, VariableError>)
    requires
        open_range.start <= start <= s@.len(),
    ensures
        r matches Ok(x) ==> statement_end(s@, start as int, open_range.start as int) == Some(
            x.end as int,
        ) && x.start == start && start < x.end <= s@.len(),
        r is Err ==> statement_end(s@, start as int, open_range.start as int) is None,
{
    let a = scan(s, start, CharClass::Space);
    if a < s.len() && a + 1 < s.len() && s[a] == '%' && s[a + 1] == '%' {
        let mut end = a + 2;
        if (open_range.start == 0 || s[open_range.start - 1] == '\n') && char_at_is(s, end, '\n') {
            end = end + 1;
        }
        Ok(start..end)
    } else {
        let mut secondary = Vec::new();
        secondary.push((open_range.start..open_range.end, text("statement started here")));
        Err(VariableError {
            title: text("expected end of statement"),
            primary: (start..start, text("expected end of statement, found other unknown token instead")),
            secondary,
            summary: text(summary),
        })
    }
}


// ---------------------------------------------------------------------------------------------
// From tokens to expressions
// ---------------------------------------------------------------------------------------------

/// Whether a token can stand in an expression: keywords cannot, neither as the token itself nor as
/// a parameter of one of its modifiers.
pub open spec fn expressible(t: Token) -> bool
    decreases t,
{
    match t.token {
        TokenType::Keyword { .. } => false,
        TokenType::Literal { .. } => true,
        TokenType::Variable { modifiers, .. } => forall|i: int, j: int|
            #![trigger modifiers@[i].1@[j]]
            0 <= i < modifiers@.len() && 0 <= j < modifiers@[i].1@.len() ==> expressible(
                modifiers@[i].1@[j],
            ),
    }
}

/// The expression a literal token stands for.
pub open spec fn literal_content(v: TokenLiteral, c: ExpressionContent) -> bool {
    match v {
        TokenLiteral::String(x) => c matches ExpressionContent::LiteralString(y) && y@ == x@,
        TokenLiteral::Number(x) => c == ExpressionContent::LiteralNumber(x),
        TokenLiteral::Boolean(x) => c == ExpressionContent::LiteralBool(x),
    }
}

/// The expression mirrors the token: same ranges, same base, same modifiers in the same order.
pub open spec fn expresses(e: Expression, t: Token) -> bool
    decreases t,
{
    &&& e.range == t.range
    &&& match t.token {
        TokenType::Literal { value } => {
            &&& literal_content(value, e.content)
            &&& e.content_range == t.range
            &&& e.modifiers@.len() == 0
        },
        TokenType::Variable { name, name_range, modifiers } => {
            &&& e.content matches ExpressionContent::Variable(n) && n@ == name@
            &&& e.content_range == name_range
            &&& e.modifiers@.len() == modifiers@.len()
            &&& forall|i: int|
                #![trigger e.modifiers@[i]]
                0 <= i < modifiers@.len() ==> e.modifiers@[i].name@ == modifiers@[i].0@
                    && e.modifiers@[i].name_range == modifiers@[i].2
                    && e.modifiers@[i].parameters@.len() == modifiers@[i].1@.len()
            &&& forall|i: int, j: int|
                #![trigger e.modifiers@[i].parameters@[j]]
                0 <= i < modifiers@.len() && 0 <= j < modifiers@[i].1@.len() ==> expresses(
                    e.modifiers@[i].parameters@[j],
                    modifiers@[i].1@[j],
                )
        },
        TokenType::Keyword { .. } => false,
    }
}

/// Converts a literal token to an expression.
pub fn to_literal_expression(range: Range<usize>, value: &TokenLiteral) -> (e: Expression)
    ensures
        e.range == range,
        e.content_range == range,
        literal_content(*value, e.content),
        e.modifiers@.len() == 0,
{
    Expression {
        range: range.start..range.end,
        content: match value {
            TokenLiteral::String(s) => ExpressionContent::LiteralString(s.clone()),
            TokenLiteral::Number(n) => ExpressionContent::LiteralNumber(*n),
            TokenLiteral::Boolean(b) => ExpressionContent::LiteralBool(*b),
        },
        content_range: range.start..range.end,
        modifiers: Vec::new(),
    }
}

/// Converts a token to an expression; keywords cannot be parameters of modifiers.
pub fn to_expression(token: &Token) -> (r: Result<Expression, VariableError>)
    ensures
        r matches Ok(e) ==> expresses(e, *token),
        r is Ok <==> expressible(*token),
    decreases token,
{
    match &token.token {
        TokenType::Literal { value } => Ok(to_literal_expression(token.range.start..token.range.end, value)),
        TokenType::Variable { name, name_range, modifiers } => {
            proof {
                assert(decreases_to!(*token => token.token));
            }
            to_variable_expression(token, token.range.start..token.range.end, name, modifiers, name_range.start..name_range.end)
        },
        TokenType::Keyword { .. } => {
            Err(VariableError {
                title: text("expected variable reference or literal"),
                primary: (token.range.start..token.range.end, text("found keyword, expected variable reference or literal")),
                secondary: Vec::new(),
                summary: text("variable modifiers cannot take keywords as parameters"),
            })
        },
    }
}

/// Converts a variable token to an expression.
pub fn to_variable_expression(
    token: &Token,
    range: Range<usize>,
    name: &String,
    modifiers: &Vec<(String, Vec<Token>, Range<usize>)>,
    name_range: Range<usize>,
) -> (r: Result<Expression, VariableError>)
    requires
        token.token == (TokenType::Variable { name: *name, name_range, modifiers: *modifiers }),
        token.range == range,
    ensures
        r matches Ok(e) ==> expresses(e, *token),
        r is Ok <==> expressible(*token),
    decreases token, 0int,
{
    let mut converted: Vec<ExpressionModifier> = Vec::new();
    let mut i: usize = 0;
    while i < modifiers.len()
        invariant
            token.token == (TokenType::Variable { name: *name, name_range, modifiers: *modifiers }),
            i <= modifiers@.len(),
            converted@.len() == i,
            forall|k: int|
                #![trigger converted@[k]]
                0 <= k < i ==> converted@[k].name@ == modifiers@[k].0@ && converted@[k].name_range
                    == modifiers@[k].2 && converted@[k].parameters@.len() == modifiers@[k].1@.len(),
            forall|k: int, j: int|
                #![trigger modifiers@[k].1@[j]]
                0 <= k < i && 0 <= j < modifiers@[k].1@.len() ==> expressible(modifiers@[k].1@[j]),
            forall|k: int, j: int|
                #![trigger converted@[k].parameters@[j]]
                0 <= k < i && 0 <= j < modifiers@[k].1@.len() ==> expresses(converted@[k].parameters@[j], modifiers@[k].1@[j]),
        decreases modifiers@.len() - i,
    {
        let arguments = &modifiers[i].1;
        let mut parameters: Vec<Expression> = Vec::new();
        let mut j: usize = 0;
        while j < arguments.len()
            invariant
                token.token == (TokenType::Variable { name: *name, name_range, modifiers: *modifiers }),
                i < modifiers@.len(),
                *arguments == modifiers@[i as int].1,
                j <= arguments@.len(),
                parameters@.len() == j,
                forall|k: int| #![trigger arguments@[k]] 0 <= k < j ==> expressible(arguments@[k]),
                forall|k: int| #![trigger parameters@[k]] 0 <= k < j ==> expresses(parameters@[k], arguments@[k]),
            decreases arguments@.len() - j,
        {
            proof {
                assert(decreases_to!(*token => token.token));
                assert(decreases_to!(token.token => token.token->Variable_modifiers));
                let mv = *modifiers;
                assert(decreases_to!(mv => mv@));
                assert(decreases_to!(mv@ => mv@[i as int]));
                assert(decreases_to!(mv@[i as int] => mv@[i as int].1));
                let av = mv@[i as int].1;
                assert(decreases_to!(av => av@));
                assert(decreases_to!(av@ => av@[j as int]));
            }
            match to_expression(&arguments[j]) {
                Ok(e) => {
                    parameters.push(e);
                },
                Err(err) => {
                    return Err(err);
                },
            }
            j = j + 1;
        }
        let ghost before = converted@;
        let ghost params = parameters@;
        converted.push(ExpressionModifier {
            name: modifiers[i].0.clone(),
            name_range: modifiers[i].2.start..modifiers[i].2.end,
            parameters,
        });
        proof {
            assert forall|k: int, jj: int|
                0 <= k < i + 1 && 0 <= jj < modifiers@[k].1@.len() implies expresses(
                #[trigger] converted@[k].parameters@[jj],
                modifiers@[k].1@[jj],
            ) by {
                if k < i {
                    assert(converted@[k] == before[k]);
                } else {
                    assert(converted@[k].parameters@ == params);
                }
            }
        }
        i = i + 1;
    }
    Ok(Expression {
        range,
        content: ExpressionContent::Variable(name.clone()),
        content_range: name_range,
        modifiers: converted,
    })
}


// ---------------------------------------------------------------------------------------------
// Reading contexts and statements
// ---------------------------------------------------------------------------------------------

/// Whether `w` is the text `lit`.
pub fn word_equals(w: &String, lit: &str) -> (r: bool)
    ensures
        r == (w@ == lit@),
{
    let x = chars_of(w.as_str());
    let y = chars_of(lit);
    chars_equal(&x, &y)
}

/// A control flow keyword, which closes a context.
pub open spec fn is_control_flow(w: Seq<char>) -> bool {
    w == "else"@ || w == "end"@
}

/// What reading a context from `start` gives: a well formed context from `start` up to the end of
/// the input, or up to a closing control flow statement whose keyword and range come with it.
pub open spec fn context_read(s: Seq<char>, start: int, c: Context, control: Option<(String, Range<usize>)>) -> bool {
    &&& context_wf(s, c)
    &&& c.source.start == start
    &&& match control {
        None => c.source.end == s.len(),
        Some((keyword, range)) => {
            &&& c.source.end == range.start
            &&& marker_at(s, range.start as int)
            &&& range.start < range.end <= s.len()
            &&& is_control_flow(keyword@)
            &&& control_statement(s, range.start as int) == Some((keyword@, range.end as int))
        },
    }
    &&& context_as_read(s, c)
}

/// The control flow statement that opens at `k`, such as `%% !end %%`: its keyword and where the
/// statement ends.
pub open spec fn control_statement(s: Seq<char>, k: int) -> Option<(Seq<char>, int)> {
    match statement_start(s, k) {
        Some((m, e)) => if m == k && rule_at(s, e) is Keyword && is_control_flow(keyword_at(s, e)) {
            match statement_end(s, keyword_rule(s, e).unwrap().2, k) {
                Some(x) => Some((keyword_at(s, e), x)),
                None => None,
            }
        } else {
            None
        },
        None => None,
    }
}

/// Each statement of a context is what reading the text at its place gives.
pub open spec fn context_as_read(s: Seq<char>, c: Context) -> bool
    decreases c,
{
    forall|i: int|
        #![trigger c.statements@[i]]
        0 <= i < c.statements@.len() ==> statement_as_read(s, c.statements@[i])
}

/// What reading the statement that opens at its location gives. After the opening `%%` and its
/// spaces stands its first token: a variable reference makes an expression statement, which ends
/// where the statement closes after it. `!if` is followed by its condition, the statement closes,
/// the true context is read up to an `!else` or `!end` statement, an `!else` statement is followed
/// by the false context, read up to an `!end` statement, where the if statement ends. `!list` is
/// followed by a variable reference, and its context is read up to an `!end` statement.
pub open spec fn statement_as_read(s: Seq<char>, st: Statement) -> bool
    decreases st,
{
    let o = st.location.start as int;
    let e = span(s, o + 2, CharClass::Space);
    match st.content {
        StatementType::Expression { content } => {
            &&& rule_at(s, e) is Variable
            &&& exists|t: Token| #[trigger] token_read(s, e, t) && expresses(content, t)
                && statement_end(s, t.range.end as int, o) == Some(st.location.end as int)
        },
        StatementType::Conditional { condition, context_true, context_false } => {
            &&& rule_at(s, e) is Keyword && keyword_at(s, e) == "if"@
            &&& exists|t: Token| #[trigger] token_read(s, keyword_rule(s, e).unwrap().2, t) && expresses(condition, t)
            &&& statement_end(s, condition.range.end as int, o) == Some(context_true.source.start as int)
            &&& context_as_read(s, context_true)
            &&& match context_false {
                None => control_statement(s, context_true.source.end as int) == Some(("end"@, st.location.end as int)),
                Some(f) => {
                    &&& control_statement(s, context_true.source.end as int) == Some(("else"@, f.source.start as int))
                    &&& context_as_read(s, f)
                    &&& control_statement(s, f.source.end as int) == Some(("end"@, st.location.end as int))
                },
            }
        },
        StatementType::List { expression, context } => {
            &&& rule_at(s, e) is Keyword && keyword_at(s, e) == "list"@
            &&& rule_at(s, keyword_rule(s, e).unwrap().2) is Variable
            &&& exists|t: Token| #[trigger] token_read(s, keyword_rule(s, e).unwrap().2, t) && expresses(expression, t)
            &&& statement_end(s, expression.range.end as int, o) == Some(context.source.start as int)
            &&& context_as_read(s, context)
            &&& control_statement(s, context.source.end as int) == Some(("end"@, st.location.end as int))
        },
    }
}

/// Reads the context from a position up to the end of the input, or up to the first control flow
/// statement that is not part of a nested statement. That keyword is returned with its range.
#[verifier::spinoff_prover]
#[verifier::rlimit(40)]
pub fn read_next_context<N: Numerics>(s: &Vec<char>, start: usize, numerics: &N) -> (r: Result<
    (Context, Option<(String, Range<usize>)>),
    VariableError,
>)
    requires
        start <= s@.len(),
    ensures
        r matches Ok((c, control)) ==> context_read(s@, start as int, c, control),
        (forall|j: int| start <= j ==> !marker_at(s@, j)) ==> (r matches Ok((c, control)) && c.statements@.len() == 0
            && control is None && c.source.start == start && c.source.end == s@.len()),
        next_control(s@, start as int) matches Some(w) ==> (r matches Ok((c, control)) && (c.statements@.len() == 0
            && (control matches Some((k, _)) && k@ == w))),
        plain_context(s@, start as int) matches Some((ctl, a)) ==> (r matches Ok((c, control)) && context_reads_as(control, ctl, a)),
    decreases s@.len() - start, 3int,
{
    let mut read_start = start;
    let mut statements: Vec<Statement> = Vec::new();
    let mut control_flow: Option<(String, Range<usize>)> = None;
    let mut end = s.len();
    loop
        invariant_except_break
            control_flow is None,
            end == s@.len(),
        invariant
            start <= read_start <= s@.len(),
            (forall|j: int| start <= j ==> !marker_at(s@, j)) ==> statements@.len() == 0,
            statements@.len() == 0 ==> read_start == start,
            statements@.len() > 0 ==> read_start == statements@.last().location.end,
            next_control(s@, start as int) is Some ==> statements@.len() == 0,
            plain_context(s@, start as int) is Some ==> plain_context(s@, read_start as int) == plain_context(s@, start as int),
            forall|i: int|
                #![trigger statements@[i]]
                0 <= i < statements@.len() ==> {
                    &&& start <= statements@[i].location.start < statements@[i].location.end <= read_start
                    &&& marker_at(s@, statements@[i].location.start as int)
                    &&& statement_wf(s@, statements@[i])
                },
            forall|i: int|
                #![trigger statements@[i]]
                0 < i < statements@.len() ==> statements@[i - 1].location.end
                    <= statements@[i].location.start,
            forall|i: int, j: int|
                #![trigger statements@[i], marker_at(s@, j)]
                0 <= i < statements@.len() && (if i == 0 {
                    start as int
                } else {
                    statements@[i - 1].location.end as int
                }) <= j < statements@[i].location.start ==> !marker_at(s@, j),
            forall|i: int| #![trigger statements@[i]] 0 <= i < statements@.len() ==> statement_as_read(s@, statements@[i]),
        ensures
            forall|i: int| #![trigger statements@[i]] 0 <= i < statements@.len() ==> statement_as_read(s@, statements@[i]),
            start <= read_start <= end <= s@.len(),
            forall|i: int|
                #![trigger statements@[i]]
                0 <= i < statements@.len() ==> {
                    &&& start <= statements@[i].location.start < statements@[i].location.end <= read_start
                    &&& marker_at(s@, statements@[i].location.start as int)
                    &&& statement_wf(s@, statements@[i])
                },
            forall|i: int|
                #![trigger statements@[i]]
                0 < i < statements@.len() ==> statements@[i - 1].location.end
                    <= statements@[i].location.start,
            forall|i: int, j: int|
                #![trigger statements@[i], marker_at(s@, j)]
                0 <= i < statements@.len() && (if i == 0 {
                    start as int
                } else {
                    statements@[i - 1].location.end as int
                }) <= j < statements@[i].location.start ==> !marker_at(s@, j),
            statements@.len() == 0 ==> read_start == start,
            statements@.len() > 0 ==> read_start == statements@.last().location.end,
            (forall|j: int| start <= j ==> !marker_at(s@, j)) ==> statements@.len() == 0 && control_flow is None,
            next_control(s@, start as int) matches Some(w) ==> (statements@.len() == 0 && (control_flow matches Some((k, _)) && k@ == w)),
            plain_context(s@, start as int) matches Some((ctl, a)) ==> context_reads_as(control_flow, ctl, a),
            forall|j: int| #![trigger marker_at(s@, j)] read_start <= j < end ==> !marker_at(s@, j),
            match control_flow {
                None => end == s@.len(),
                Some((keyword, range)) => {
                    &&& end == range.start
                    &&& marker_at(s@, range.start as int)
                    &&& range.start < range.end <= s@.len()
                    &&& is_control_flow(keyword@)
                    &&& control_statement(s@, range.start as int) == Some((keyword@, range.end as int))
                },
            },
        decreases s@.len() - read_start,
    {
        let open = match read_statement_start(s, read_start) {
            Some(o) => o,
            None => {
                proof {
                    lemma_next_marker(s@, read_start as int);
                    lemma_next_control_start(s@, start as int);
                    if plain_context(s@, start as int) is Some {
                        lemma_plain_context(s@, read_start as int);
                    }
                }
                break;
            },
        };
        proof {
            lemma_next_marker(s@, read_start as int);
        }
        let res = read_next_statement(s, open.start..open.end, numerics);
        proof {
            if next_control(s@, start as int) is Some {
                lemma_next_control(s@, start as int, open.end as int, res);
            }
            if plain_context(s@, start as int) is Some {
                lemma_plain_context(s@, read_start as int);
                assert(plain_statement(s@, open.start as int, open.end as int) is Some);
            }
        }
        let (next_end, next) = res?;
        match next {
            NextStatement::Full(statement) => {
                statements.push(statement);
                read_start = next_end;
            },
            NextStatement::ControlFlow(keyword) => {
                end = open.start;
                control_flow = Some((keyword, open.start..next_end));
                break;
            },
        }
    }
    Ok((Context { source: start..end, statements }, control_flow))
}

/// Reads the statement whose opening is `open_range`. Gives the end of the statement and the
/// statement, or the control flow keyword it consists of.
pub fn read_next_statement<N: Numerics>(s: &Vec<char>, open_range: Range<usize>, numerics: &N) -> (r: Result<
    (usize, NextStatement),
    VariableError,
>)
    requires
        marker_at(s@, open_range.start as int),
        open_range.start + 2 <= open_range.end <= s@.len(),
    ensures
        statement_by_first_token(s@, open_range.end as int, r),
        plain_statement(s@, open_range.start as int, open_range.end as int) matches Some((ctl, e)) ==> statement_reads_as(r, ctl, e),
        rule_at(s@, open_range.end as int) is Keyword && keyword_at(s@, open_range.end as int) == "if"@ ==> (r matches Ok((
            end,
            next,
        )) ==> (next matches NextStatement::Full(st) && if_read(
            s@,
            open_range.start as int,
            keyword_rule(s@, open_range.end as int).unwrap().2,
            end as int,
            st,
        ))),
        r matches Ok((end, next)) ==> open_range.end < end <= s@.len() && match next {
            NextStatement::Full(st) => {
                &&& st.location.start == open_range.start
                &&& st.location.end == end
                &&& statement_wf(s@, st)
            },
            NextStatement::ControlFlow(keyword) => is_control_flow(keyword@),
        },
        open_range.end == span(s@, open_range.start + 2, CharClass::Space) ==> (r matches Ok((end, next)) ==> match next {
            NextStatement::Full(st) => statement_as_read(s@, st),
            NextStatement::ControlFlow(keyword) => control_statement(s@, open_range.start as int) == Some((keyword@, end as int)),
        }),
    decreases s@.len() - open_range.start, 2int,
{
    proof {
        if plain_statement(s@, open_range.start as int, open_range.end as int) is Some {
            lemma_plain_statement(s@, open_range.start as int, open_range.end as int);
        }
    }
    let first = match lex(s, open_range.end, numerics) {
        Ok(t) => t,
        Err(e) => {
            proof {
                lemma_statement_by_first_token(s@, open_range.end as int, Err(e));
            }
            return Err(e);
        },
    };
    let r = match &first.token {
        TokenType::Variable { name, modifiers, name_range } => {
            proof {
                assert(rule_at(s@, open_range.end as int) is Variable);
            }
            match read_statement_end(s, first.range.end, &open_range, "a variable reference must only contain a single token") {
                Err(e) => Err(e),
                Ok(end) => match to_variable_expression(&first, first.range.start..first.range.end, name, modifiers, name_range.start..name_range.end) {
                    Err(e) => Err(e),
                    Ok(content) => {
                        proof {
                            assert(token_read(s@, open_range.end as int, first));
                        }
                        Ok((end.end, NextStatement::Full(Statement {
                            location: open_range.start..end.end,
                            content: StatementType::Expression { content },
                        })))
                    },
                },
            }
        },
        TokenType::Keyword { word } => {
            proof {
                assert(rule_at(s@, open_range.end as int) is Keyword);
                assert(word@ == keyword_at(s@, open_range.end as int));
                assert(opens_keyword(s@, open_range.end as int, first.range.end as int, word@));
            }
            read_keyword_statement(s, &open_range, &first, word, numerics)
        },
        TokenType::Literal { .. } => {
            proof {
                assert(!(rule_at(s@, open_range.end as int) is Keyword || rule_at(s@, open_range.end as int) is Variable));
            }
            Err(VariableError {
                title: text("expected keyword or variable reference"),
                primary: (first.range.start..first.range.end, text("literal as the first token of an expression is not expected")),
                secondary: Vec::new(),
                summary: text("just literals are not allowed, use a variable instead"),
            })
        },
    };
    proof {
        lemma_statement_by_first_token(s@, open_range.end as int, r);
    }
    r
}

/// Reads the statement that opens with the keyword token `first`, whose word is `word`.
pub fn read_keyword_statement<N: Numerics>(
    s: &Vec<char>,
    open_range: &Range<usize>,
    first: &Token,
    word: &String,
    numerics: &N,
) -> (r: Result<(usize, NextStatement), VariableError>)
    requires
        marker_at(s@, open_range.start as int),
        open_range.start + 2 <= open_range.end <= s@.len(),
        first.range.start == open_range.end,
        open_range.end < first.range.end <= s@.len(),
        first.token == (TokenType::Keyword { word: *word }),
    ensures
        keyword_statement(word@, r),
        is_control_flow(word@) ==> (r is Ok <==> closes_at(s@, first.range.end as int)),
        opens_keyword(s@, open_range.end as int, first.range.end as int, word@) ==> (plain_statement(
            s@,
            open_range.start as int,
            open_range.end as int,
        ) matches Some((ctl, e)) ==> statement_reads_as(r, ctl, e)),
        word@ == "if"@ ==> (r matches Ok((end, next)) ==> (next matches NextStatement::Full(st) && if_read(
            s@,
            open_range.start as int,
            first.range.end as int,
            end as int,
            st,
        ))),
        r matches Ok((end, next)) ==> open_range.end < end <= s@.len() && match next {
            NextStatement::Full(st) => {
                &&& st.location.start == open_range.start
                &&& st.location.end == end
                &&& statement_wf(s@, st)
            },
            NextStatement::ControlFlow(keyword) => is_control_flow(keyword@),
        },
        opens_keyword(s@, open_range.end as int, first.range.end as int, word@) && open_range.end == span(
            s@,
            open_range.start + 2,
            CharClass::Space,
        ) ==> (r matches Ok((end, next)) ==> match next {
            NextStatement::Full(st) => statement_as_read(s@, st),
            NextStatement::ControlFlow(keyword) => control_statement(s@, open_range.start as int) == Some((keyword@, end as int)),
        }),
    decreases s@.len() - open_range.start, 1int,
{
    proof {
        if opens_keyword(s@, open_range.end as int, first.range.end as int, word@) && plain_statement(
            s@,
            open_range.start as int,
            open_range.end as int,
        ) is Some {
            lemma_plain_statement(s@, open_range.start as int, open_range.end as int);
        }
        assert("list"@ != "if"@) by {
            reveal_strlit("if");
            reveal_strlit("list");
            assert("list"@.len() != "if"@.len());
        }
        assert("else"@ != "if"@ && "else"@ != "list"@) by {
            reveal_strlit("if");
            reveal_strlit("list");
            reveal_strlit("else");
            assert("else"@.len() != "if"@.len());
            assert("else"@[0] != "list"@[0]);
        }
        assert("end"@ != "if"@ && "end"@ != "list"@) by {
            reveal_strlit("if");
            reveal_strlit("list");
            reveal_strlit("end");
            assert("end"@.len() != "if"@.len());
            assert("end"@.len() != "list"@.len());
        }
    }
    if word_equals(word, "if") {
        let (end, statement) = read_if_statement(s, open_range, first, numerics)?;
        Ok((end, NextStatement::Full(statement)))
    } else if word_equals(word, "list") {
        let (end, statement) = read_list_statement(s, open_range, first, numerics)?;
        Ok((end, NextStatement::Full(statement)))
    } else if word_equals(word, "else") || word_equals(word, "end") {
        let end = read_statement_end(s, first.range.end, open_range, "control flow statements do only contain one token")?;
        Ok((end.end, NextStatement::ControlFlow(word.clone())))
    } else {
        Err(VariableError {
            title: text("keyword not recognized"),
            primary: (first.range.start..first.range.end, text("this keyword invalid and not recognized")),
            secondary: Vec::new(),
            summary: text("valid keywords are e.g. `!if`, `!list`, etc."),
        })
    }
}

/// At `e` stands the keyword `w`, and the token after it starts at `p`.
pub open spec fn opens_keyword(s: Seq<char>, e: int, p: int, w: Seq<char>) -> bool {
    &&& rule_at(s, e) is Keyword
    &&& keyword_at(s, e) == w
    &&& p == keyword_rule(s, e).unwrap().2
}

/// A token read at `p`, as the reader of tokens gives it.
pub open spec fn token_read(s: Seq<char>, p: int, t: Token) -> bool {
    &&& p < t.range.end <= s.len()
    &&& match rule_at(s, p) {
        TokenRule::Variable => variable_token(s, p, t),
        _ => simple_token(s, p, t),
    }
}

/// Reads an if statement with its contexts; `first` is its keyword token.
#[verifier::spinoff_prover]
#[verifier::rlimit(80)]
pub fn read_if_statement<N: Numerics>(s: &Vec<char>, open_range: &Range<usize>, first: &Token, numerics: &N) -> (r: Result<
    (usize, Statement),
    VariableError,
>)
    requires
        marker_at(s@, open_range.start as int),
        open_range.start + 2 <= open_range.end <= s@.len(),
        first.range.start == open_range.end,
        open_range.end < first.range.end <= s@.len(),
    ensures
        r matches Ok((end, st)) ==> {
            &&& open_range.end < end <= s@.len()
            &&& st.location.start == open_range.start
            &&& st.location.end == end
            &&& st.content is Conditional
            &&& statement_wf(s@, st)
            &&& if_read(s@, open_range.start as int, first.range.end as int, end as int, st)
        },
        rule_at(s@, first.range.end as int) is Keyword || rule_at(s@, first.range.end as int) is Nothing ==> r is Err,
        closed_by_end(s@, first.range.end as int, open_range.start as int, false) ==> r is Ok,
        unclosed_if(s@, first.range.end as int, open_range.start as int) ==> (r matches Err(e)
            && e.title@ == "expected control flow statement"@ && e.primary.0.start == s@.len()
            && e.primary.0.end == s@.len()),
        opens_keyword(s@, open_range.end as int, first.range.end as int, "if"@) ==> (plain_statement(
            s@,
            open_range.start as int,
            open_range.end as int,
        ) matches Some((None, e)) ==> (r matches Ok((end, _)) && end == e)),
        opens_keyword(s@, open_range.end as int, first.range.end as int, "if"@) && open_range.end == span(
            s@,
            open_range.start + 2,
            CharClass::Space,
        ) ==> (r matches Ok((_, st)) ==> statement_as_read(s@, st)),
    decreases s@.len() - open_range.start, 0int,
{
    proof {
        if opens_keyword(s@, open_range.end as int, first.range.end as int, "if"@) {
            if let Some((None, e)) = plain_statement(s@, open_range.start as int, open_range.end as int) {
                lemma_plain_block(s@, open_range.start as int, open_range.end as int, "if"@, e);
            }
        }
    }
    let condition_token = lex(s, first.range.end, numerics)?;
    let condition = match &condition_token.token {
        TokenType::Variable { name, modifiers, name_range } => {
            to_variable_expression(&condition_token, condition_token.range.start..condition_token.range.end, name, modifiers, name_range.start..name_range.end)?
        },
        TokenType::Literal { value } => to_literal_expression(condition_token.range.start..condition_token.range.end, value),
        _ => {
            let mut secondary = Vec::new();
            secondary.push((first.range.start..first.range.end, text("if statement begun here")));
            return Err(VariableError {
                title: text("expected variable reference or literal"),
                primary: (condition_token.range.start..condition_token.range.end, text("expected variable or literal here")),
                secondary,
                summary: text("a variable or literal is required after an `!if` statement"),
            });
        },
    };
    let end_index = read_statement_end(s, condition_token.range.end, open_range, "an if statement only expects one condition token and nothing more")?;
    let (context_true, next) = read_next_context(s, end_index.end, numerics)?;
    let ghost mut k2g: String = arbitrary();
    let ghost mut rg2g: Range<usize> = arbitrary();
    let ghost next_g = next;
    let (context_false, end) = match next {
        Some((keyword, end)) => {
            proof {
                assert("end"@ != "else"@) by {
                    reveal_strlit("end");
                    reveal_strlit("else");
                    assert("end"@.len() != "else"@.len());
                }
            }
            if word_equals(&keyword, "else") {
                let (context_false, next) = read_next_context(s, end.end, numerics)?;
                match next {
                    Some((keyword2, end2)) => {
                        if word_equals(&keyword2, "end") {
                            proof {
                                k2g = keyword2;
                                rg2g = end2;
                            }
                            (Some(context_false), end2.end)
                        } else {
                            let mut secondary = Vec::new();
                            secondary.push((open_range.start..end_index.end, text("if statement opened context here")));
                            secondary.push((end.start..end.end, text("else statement opened context here")));
                            let mut summary = text("expected `!end` instead of `!");
                            summary.append(keyword2.as_str());
                            summary.append("` to finish else context");
                            return Err(VariableError {
                                title: text("expected valid control flow statement"),
                                primary: (end2.start..end2.end, text("expected `!end` here, found other keyword instead")),
                                secondary,
                                summary,
                            });
                        }
                    },
                    None => {
                        let mut secondary = Vec::new();
                        secondary.push((open_range.start..end_index.end, text("if statement opened context here")));
                        secondary.push((end.start..end.end, text("else statement opened context here")));
                        return Err(VariableError {
                            title: text("expected control flow statement"),
                            primary: (context_false.source.end..context_false.source.end, text("expected `!end` here, found end of file")),
                            secondary,
                            summary: text("expected `!end` to finish else context"),
                        });
                    },
                }
            } else if word_equals(&keyword, "end") {
                (None, end.end)
            } else {
                let mut secondary = Vec::new();
                secondary.push((open_range.start..end_index.end, text("if statement opened context here")));
                return Err(VariableError {
                    title: text("unexpected control flow statement"),
                    primary: (end.start..end.end, text("expected a fitting control flow statement here")),
                    secondary,
                    summary: text("expected either `!{KEYWORD_CONDITIONAL_ELSE}` or `!{KEYWORD_END}` after an if statement"),
                });
            }
        },
        None => {
            let mut secondary = Vec::new();
            secondary.push((open_range.start..end_index.end, text("if statement opened context here")));
            return Err(VariableError {
                title: text("expected control flow statement"),
                primary: (context_true.source.end..context_true.source.end, text("expected `!else` or `!end` here, found end of file")),
                secondary,
                summary: text("expected `!else` or `!end` to finish if context"),
            });
        },
    };
    let st = Statement {
        location: open_range.start..end,
        content: StatementType::Conditional { condition, context_true, context_false },
    };
    proof {
        let (k, rg) = next_g.unwrap();
        lemma_if_read(s@, open_range.start as int, first.range.end as int, end as int, st, condition_token, k, rg, k2g, rg2g);
        assert(token_read(s@, first.range.end as int, condition_token));
    }
    Ok((end, st))
}

/// Reads a list statement with its context; `first` is its keyword token.
#[verifier::spinoff_prover]
#[verifier::rlimit(80)]
pub fn read_list_statement<N: Numerics>(s: &Vec<char>, open_range: &Range<usize>, first: &Token, numerics: &N) -> (r: Result<
    (usize, Statement),
    VariableError,
>)
    requires
        marker_at(s@, open_range.start as int),
        open_range.start + 2 <= open_range.end <= s@.len(),
        first.range.start == open_range.end,
        open_range.end < first.range.end <= s@.len(),
    ensures
        r matches Ok((end, st)) ==> {
            &&& open_range.end < end <= s@.len()
            &&& st.location.start == open_range.start
            &&& st.location.end == end
            &&& st.content is List
            &&& statement_wf(s@, st)
        },
        !(rule_at(s@, first.range.end as int) is Variable) ==> r is Err,
        closed_by_end(s@, first.range.end as int, open_range.start as int, true) ==> r is Ok,
        opens_keyword(s@, open_range.end as int, first.range.end as int, "list"@) ==> (plain_statement(
            s@,
            open_range.start as int,
            open_range.end as int,
        ) matches Some((None, e)) ==> (r matches Ok((end, _)) && end == e)),
        opens_keyword(s@, open_range.end as int, first.range.end as int, "list"@) && open_range.end == span(
            s@,
            open_range.start + 2,
            CharClass::Space,
        ) ==> (r matches Ok((_, st)) ==> statement_as_read(s@, st)),
    decreases s@.len() - open_range.start, 0int,
{
    proof {
        if opens_keyword(s@, open_range.end as int, first.range.end as int, "list"@) {
            if let Some((None, e)) = plain_statement(s@, open_range.start as int, open_range.end as int) {
                lemma_plain_block(s@, open_range.start as int, open_range.end as int, "list"@, e);
            }
        }
    }
    let expression_token = lex(s, first.range.end, numerics)?;
    let expression = match &expression_token.token {
        TokenType::Variable { name, modifiers, name_range } => {
            to_variable_expression(&expression_token, expression_token.range.start..expression_token.range.end, name, modifiers, name_range.start..name_range.end)?
        },
        _ => {
            let mut secondary = Vec::new();
            secondary.push((first.range.start..first.range.end, text("list statement begun here")));
            return Err(VariableError {
                title: text("expected variable reference"),
                primary: (expression_token.range.start..expression_token.range.end, text("expected variable reference here")),
                secondary,
                summary: text("a variable reference is required after a `!list` statement"),
            });
        },
    };
    let end = read_statement_end(s, expression_token.range.end, open_range, "a list statement only takes one argument")?;
    let (context, next) = read_next_context(s, end.end, numerics)?;
    let end = match next {
        Some((keyword, close)) => {
            if !word_equals(&keyword, "end") {
                let mut secondary = Vec::new();
                secondary.push((open_range.start..close.end, text("list statement opened context here")));
                let mut summary = text("expected `!end` instead of `!");
                summary.append(keyword.as_str());
                summary.append("` to finish list context");
                return Err(VariableError {
                    title: text("expected valid control flow statement"),
                    primary: (close.start..close.end, text("expected `!end` here, found other keyword instead")),
                    secondary,
                    summary,
                });
            }
            close
        },
        None => {
            let mut secondary = Vec::new();
            secondary.push((open_range.start..end.end, text("list statement opened context here")));
            return Err(VariableError {
                title: text("expected control flow statement"),
                primary: (context.source.end..context.source.end, text("expected `!end` here, found end of file")),
                secondary,
                summary: text("expected `!end` to finish list context"),
            });
        },
    };
    let st = Statement {
        location: open_range.start..end.end,
        content: StatementType::List { expression, context },
    };
    proof {
        assert(token_read(s@, first.range.end as int, expression_token));
    }
    Ok((end.end, st))
}

/// Reads the whole input as a context; a control flow keyword outside any statement is an error.
pub fn read_context<N: Numerics>(input: &str, numerics: &N) -> (r: Result<Context, VariableError>)
    ensures
        r matches Ok(c) ==> context_wf(input@, c) && context_as_read(input@, c) && c.source.start == 0
            && c.source.end == input@.len(),
        (forall|j: int| 0 <= j ==> !marker_at(input@, j)) ==> (r matches Ok(c) && c.statements@.len() == 0),
        plain_context(input@, 0) matches Some((None, _)) ==> r is Ok,
{
    let s = chars_of(input);
    let (context, control) = read_next_context(&s, 0, numerics)?;
    if let Some((keyword, range)) = control {
        let mut message = text("did not expect keyword `!");
        message.append(keyword.as_str());
        message.append("` here");
        return Err(VariableError {
            title: text("unexpected control flow keyword"),
            primary: (range, message),
            secondary: Vec::new(),
            summary: text("this keyword is out of place, there are no open contexts"),
        });
    }
    Ok(context)
}

} // verus!


