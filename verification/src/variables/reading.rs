//! What reading a statement gives, decided by the first token after its opening.
use std::ops::Range;
use vstd::prelude::*;
use crate::variables::VariableError;
use crate::variables::token::{Token, rule_at, keyword_rule, name_rule, modifier_name_rule, token_end};
use crate::variables::context::{Expression, ExpressionContent, NextStatement, Statement, StatementType, token_read, expresses, context_read, is_control_flow, closes_at, statement_start, statement_end, marker_at};

verus! {

/// The variable an expression names is the one whose name the input holds at `p`.
pub open spec fn names_variable_at(s: Seq<char>, p: int, e: Expression) -> bool {
    &&& e.range.start == p
    &&& e.content matches ExpressionContent::Variable(n) && n@ == s.subrange(
        name_rule(s, p).unwrap().0,
        name_rule(s, p).unwrap().1,
    )
}

/// The word of the keyword that the input holds at `p`.
pub open spec fn keyword_at(s: Seq<char>, p: int) -> Seq<char> {
    s.subrange(keyword_rule(s, p).unwrap().0, keyword_rule(s, p).unwrap().1)
}

/// What a statement that opens with the keyword `w` reads as: `if` and `list` open statements of
/// their kind, the control flow keywords stand for themselves, and any other keyword is an error.
pub open spec fn keyword_statement(w: Seq<char>, r: Result<(usize, NextStatement), VariableError>) -> bool {
    &&& w == "if"@ ==> (r matches Ok((_, next)) ==> next matches NextStatement::Full(st) && st.content is Conditional)
    &&& w == "list"@ ==> (r matches Ok((_, next)) ==> next matches NextStatement::Full(st) && st.content is List)
    &&& is_control_flow(w) ==> (r matches Ok((_, next)) ==> next matches NextStatement::ControlFlow(k) && k@ == w)
    &&& !(w == "if"@ || w == "list"@ || is_control_flow(w)) ==> r is Err
}

/// The next statement from `i` is a whole control flow statement, such as `%% !end %%`: its
/// keyword.
pub open spec fn next_control(s: Seq<char>, i: int) -> Option<Seq<char>> {
    match statement_start(s, i) {
        Some((_, e)) => match keyword_rule(s, e) {
            Some((a, b, f)) => if is_control_flow(s.subrange(a, b)) && closes_at(s, f) {
                Some(s.subrange(a, b))
            } else {
                None
            },
            None => None,
        },
        None => None,
    }
}

/// After the keyword of a statement that opens at `open_start`, at `p`, stands a token that
/// `token_end` reads without number literals or keywords (`variable`: a variable reference), the
/// statement closes, and its context holds no statement before a closing `!end`.
pub open spec fn closed_by_end(s: Seq<char>, p: int, open_start: int, variable: bool) -> bool {
    match token_end(s, p, false, false) {
        Some(c) => {
            &&& !variable || rule_at(s, p) is Variable
            &&& closes_at(s, c)
            &&& next_control(s, statement_end(s, c, open_start).unwrap()) == Some("end"@)
        },
        None => false,
    }
}

/// An if statement whose condition at `p` is read by `token_end` without number literals or
/// keywords and closes, after which no statement follows: nothing closes its context.
pub open spec fn unclosed_if(s: Seq<char>, p: int, open_start: int) -> bool {
    match token_end(s, p, false, false) {
        Some(c) => closes_at(s, c) && forall|j: int| statement_end(s, c, open_start).unwrap() <= j ==> !marker_at(s, j),
        None => false,
    }
}

/// What reading an if statement gives that opens at `open_start` and has its condition at `p`:
/// the condition expresses the token there; the true context is read from where the opening
/// statement ends up to an `!else` or `!end` statement; an `!else` statement is followed by the
/// false context, read up to an `!end` statement; the statement ends where that `!end` statement
/// ends.
pub open spec fn if_read(s: Seq<char>, open_start: int, p: int, end: int, st: Statement) -> bool {
    st.content matches StatementType::Conditional { condition, context_true, context_false } && {
        &&& exists|t: Token| #[trigger] token_read(s, p, t) && expresses(condition, t)
        &&& statement_end(s, condition.range.end as int, open_start) == Some(context_true.source.start as int)
        &&& exists|k: String, rg: Range<usize>|
            #[trigger] context_read(s, context_true.source.start as int, context_true, Some((k, rg))) && match context_false {
                None => k@ == "end"@ && end == rg.end,
                Some(f) => k@ == "else"@ && f.source.start == rg.end && exists|k2: String, rg2: Range<usize>|
                    #[trigger] context_read(s, rg.end as int, f, Some((k2, rg2))) && k2@ == "end"@ && end == rg2.end,
            }
    }
}

/// A read of an if statement that meets each part of `if_read` meets it.
pub proof fn lemma_if_read(
    s: Seq<char>,
    open_start: int,
    p: int,
    end: int,
    st: Statement,
    t: Token,
    k: String,
    rg: Range<usize>,
    k2: String,
    rg2: Range<usize>,
)
    requires
        st.content matches StatementType::Conditional { condition, context_true, context_false } && {
            &&& token_read(s, p, t) && expresses(condition, t)
            &&& statement_end(s, condition.range.end as int, open_start) == Some(context_true.source.start as int)
            &&& context_read(s, context_true.source.start as int, context_true, Some((k, rg)))
            &&& match context_false {
                None => k@ == "end"@ && end == rg.end,
                Some(f) => k@ == "else"@ && f.source.start == rg.end && context_read(s, rg.end as int, f, Some((k2, rg2)))
                    && k2@ == "end"@ && end == rg2.end,
            }
        },
    ensures
        if_read(s, open_start, p, end, st),
{
}

/// What reading the statements from `i` on gives for sure, when every statement there closes,
/// reads where it reads a token one that `token_end` reads without number literals or keywords
/// (a boolean or string literal, or a variable reference whose modifiers' parameters are such
/// tokens in turn), and closes the contexts of `!if` and `!list` statements with `!end`: the end
/// of the text, or the keyword of the control flow statement that stops the reading and where
/// that statement ends. `None` when the text is not of that plain kind.
pub open spec fn plain_context(s: Seq<char>, i: int) -> Option<(Option<Seq<char>>, int)>
    decreases s.len() - i, 1int,
{
    if !(0 <= i <= s.len()) {
        None
    } else {
        match statement_start(s, i) {
            None => Some((None, s.len() as int)),
            Some((k, e)) => if i <= k && k + 2 <= e <= s.len() {
                match plain_statement(s, k, e) {
                    Some((None, end)) => if k < end <= s.len() {
                        plain_context(s, end)
                    } else {
                        None
                    },
                    other => other,
                }
            } else {
                None
            },
        }
    }
}

/// What reading the statement whose opening marker is at `k` and whose content starts at `e`
/// gives for sure, in the plain kind of `plain_context`: a whole statement and where it ends, or
/// a control flow keyword and where its statement ends.
pub open spec fn plain_statement(s: Seq<char>, k: int, e: int) -> Option<(Option<Seq<char>>, int)>
    decreases s.len() - k, 0int,
{
    if !(0 <= k <= e <= s.len()) {
        None
    } else if rule_at(s, e) is Variable {
        match token_end(s, e, false, false) {
            Some(m) => if closes_at(s, m) {
                Some((None, statement_end(s, m, k).unwrap()))
            } else {
                None
            },
            None => None,
        }
    } else if rule_at(s, e) is Keyword {
        let w = keyword_at(s, e);
        let f = keyword_rule(s, e).unwrap().2;
        if is_control_flow(w) {
            if closes_at(s, f) {
                Some((Some(w), statement_end(s, f, k).unwrap()))
            } else {
                None
            }
        } else if w == "if"@ || w == "list"@ {
            match token_end(s, f, false, false) {
                Some(c) => if (w == "list"@ ==> rule_at(s, f) is Variable) && closes_at(s, c) {
                    let open_end = statement_end(s, c, k).unwrap();
                    if k < open_end <= s.len() {
                        match plain_context(s, open_end) {
                            Some((Some(w1), a1)) => if w1 == "end"@ {
                                Some((None, a1))
                            } else if w1 == "else"@ && w == "if"@ && k < a1 <= s.len() {
                                match plain_context(s, a1) {
                                    Some((Some(w2), a2)) => if w2 == "end"@ {
                                        Some((None, a2))
                                    } else {
                                        None
                                    },
                                    _ => None,
                                }
                            } else {
                                None
                            },
                            _ => None,
                        }
                    } else {
                        None
                    }
                } else {
                    None
                },
                None => None,
            }
        } else {
            None
        }
    } else {
        None
    }
}

/// One step of `plain_context`.
pub proof fn lemma_plain_context(s: Seq<char>, i: int)
    ensures
        plain_context(s, i) == (if !(0 <= i <= s.len()) {
            None
        } else {
            match statement_start(s, i) {
                None => Some((None, s.len() as int)),
                Some((k, e)) => if i <= k && k + 2 <= e <= s.len() {
                    match plain_statement(s, k, e) {
                        Some((None, end)) => if k < end <= s.len() {
                            plain_context(s, end)
                        } else {
                            None
                        },
                        other => other,
                    }
                } else {
                    None
                },
            }
        }),
{
}

/// One step of `plain_statement`.
pub proof fn lemma_plain_statement(s: Seq<char>, k: int, e: int)
    ensures
        plain_statement(s, k, e) == (if !(0 <= k <= e <= s.len()) {
            None
        } else if rule_at(s, e) is Variable {
            match token_end(s, e, false, false) {
                Some(m) => if closes_at(s, m) {
                    Some((None, statement_end(s, m, k).unwrap()))
                } else {
                    None
                },
                None => None,
            }
        } else if rule_at(s, e) is Keyword {
            let w = keyword_at(s, e);
            let f = keyword_rule(s, e).unwrap().2;
            if is_control_flow(w) {
                if closes_at(s, f) {
                    Some((Some(w), statement_end(s, f, k).unwrap()))
                } else {
                    None
                }
            } else if w == "if"@ || w == "list"@ {
                match token_end(s, f, false, false) {
                    Some(c) => if (w == "list"@ ==> rule_at(s, f) is Variable) && closes_at(s, c) {
                        let open_end = statement_end(s, c, k).unwrap();
                        if k < open_end <= s.len() {
                            match plain_context(s, open_end) {
                                Some((Some(w1), a1)) => if w1 == "end"@ {
                                    Some((None, a1))
                                } else if w1 == "else"@ && w == "if"@ && k < a1 <= s.len() {
                                    match plain_context(s, a1) {
                                        Some((Some(w2), a2)) => if w2 == "end"@ {
                                            Some((None, a2))
                                        } else {
                                            None
                                        },
                                        _ => None,
                                    }
                                } else {
                                    None
                                },
                                _ => None,
                            }
                        } else {
                            None
                        }
                    } else {
                        None
                    },
                    None => None,
                }
            } else {
                None
            }
        } else {
            None
        }),
{
}

/// What `plain_statement` says of an `!if` or `!list` statement: its token is read whole and
/// closes, its context is read up to `!end`, or for `!if` up to `!else` and then up to `!end`.
pub proof fn lemma_plain_block(s: Seq<char>, k: int, e: int, w: Seq<char>, end: int)
    requires
        rule_at(s, e) is Keyword,
        keyword_at(s, e) == w,
        w == "if"@ || w == "list"@,
        plain_statement(s, k, e) == Some((None::<Seq<char>>, end)),
    ensures
        ({
            let f = keyword_rule(s, e).unwrap().2;
            let c = token_end(s, f, false, false).unwrap();
            let open_end = statement_end(s, c, k).unwrap();
            let (w1, a1) = plain_context(s, open_end).unwrap();
            &&& token_end(s, f, false, false) is Some
            &&& w == "list"@ ==> rule_at(s, f) is Variable
            &&& closes_at(s, c)
            &&& k < open_end <= s.len()
            &&& plain_context(s, open_end) is Some
            &&& w1 == Some("end"@) && end == a1 || w1 == Some("else"@) && w == "if"@ && k < a1 <= s.len() && plain_context(
                s,
                a1,
            ) == Some((Some("end"@), end))
            &&& w == "list"@ ==> w1 == Some("end"@) && end == a1
        }),
{
    assert("list"@ != "if"@) by {
        reveal_strlit("if");
        reveal_strlit("list");
        assert("list"@.len() != "if"@.len());
    }
    lemma_plain_statement(s, k, e);
    assert(!is_control_flow(w)) by {
        reveal_strlit("if");
        reveal_strlit("list");
        reveal_strlit("else");
        reveal_strlit("end");
        assert("if"@.len() != "else"@.len() && "if"@.len() != "end"@.len());
        assert("list"@[0] != "else"@[0] && "list"@.len() != "end"@.len());
    }
}

/// A statement read as `plain_statement` says: a whole statement or the control flow keyword,
/// ending at `end`.
pub open spec fn statement_reads_as(r: Result<(usize, NextStatement), VariableError>, ctl: Option<Seq<char>>, end: int) -> bool {
    r matches Ok((e, next)) && e == end && match ctl {
        None => next is Full,
        Some(w) => next matches NextStatement::ControlFlow(k) && k@ == w,
    }
}

/// A context read as `plain_context` says: up to the end of the text, or up to the control flow
/// statement with the keyword, which ends at `end`.
pub open spec fn context_reads_as(control: Option<(String, Range<usize>)>, ctl: Option<Seq<char>>, end: int) -> bool {
    match ctl {
        None => control is None,
        Some(w) => control matches Some((k, rg)) && k@ == w && rg.end == end,
    }
}

/// How the first token of a statement at `p` decides what is read: a variable reference gives an
/// expression statement that names it, a keyword goes by `keyword_statement`, and a literal or
/// nothing readable is an error. A control flow keyword, and a variable reference without
/// modifiers, are read exactly when the statement closes right after them.
pub open spec fn statement_by_first_token(s: Seq<char>, p: int, r: Result<(usize, NextStatement), VariableError>) -> bool {
    &&& !(rule_at(s, p) is Keyword || rule_at(s, p) is Variable) ==> r is Err
    &&& rule_at(s, p) is Variable ==> (r matches Ok((_, next)) ==> next matches NextStatement::Full(st)
        && st.content matches StatementType::Expression { content } && names_variable_at(s, p, content))
    &&& rule_at(s, p) is Keyword ==> keyword_statement(keyword_at(s, p), r)
    &&& rule_at(s, p) is Keyword && is_control_flow(keyword_at(s, p)) ==> (r is Ok <==> closes_at(s, keyword_rule(s, p).unwrap().2))
    &&& rule_at(s, p) is Variable && modifier_name_rule(s, name_rule(s, p).unwrap().1) is None ==> (r is Ok <==> closes_at(
        s,
        name_rule(s, p).unwrap().1,
    ))
}

/// A read that meets each case meets `statement_by_first_token`.
pub proof fn lemma_statement_by_first_token(s: Seq<char>, p: int, r: Result<(usize, NextStatement), VariableError>)
    requires
        !(rule_at(s, p) is Keyword || rule_at(s, p) is Variable) ==> r is Err,
        rule_at(s, p) is Variable ==> (r matches Ok((_, next)) ==> next matches NextStatement::Full(st)
            && st.content matches StatementType::Expression { content } && names_variable_at(s, p, content)),
        rule_at(s, p) is Keyword ==> keyword_statement(keyword_at(s, p), r),
        rule_at(s, p) is Keyword && is_control_flow(keyword_at(s, p)) ==> (r is Ok <==> closes_at(s, keyword_rule(s, p).unwrap().2)),
        rule_at(s, p) is Variable && modifier_name_rule(s, name_rule(s, p).unwrap().1) is None ==> (r is Ok <==> closes_at(
            s,
            name_rule(s, p).unwrap().1,
        )),
    ensures
        statement_by_first_token(s, p, r),
{
}

/// What a read that meets `statement_by_first_token` gives, case by case.
pub proof fn lemma_first_token_cases(s: Seq<char>, p: int, r: Result<(usize, NextStatement), VariableError>)
    requires
        statement_by_first_token(s, p, r),
    ensures
        !(rule_at(s, p) is Keyword || rule_at(s, p) is Variable) ==> r is Err,
        rule_at(s, p) is Variable ==> (r matches Ok((_, next)) ==> next matches NextStatement::Full(st)
            && st.content matches StatementType::Expression { content } && names_variable_at(s, p, content)),
        rule_at(s, p) is Keyword ==> keyword_statement(keyword_at(s, p), r),
        rule_at(s, p) is Keyword && is_control_flow(keyword_at(s, p)) ==> (r is Ok <==> closes_at(s, keyword_rule(s, p).unwrap().2)),
        rule_at(s, p) is Variable && modifier_name_rule(s, name_rule(s, p).unwrap().1) is None ==> (r is Ok <==> closes_at(
            s,
            name_rule(s, p).unwrap().1,
        )),
{
}

/// A whole control flow statement next from `i` is a next statement from `i`.
pub proof fn lemma_next_control_start(s: Seq<char>, i: int)
    ensures
        next_control(s, i) is Some ==> statement_start(s, i) is Some,
{
}

/// When the next statement from `i` is a whole control flow statement, reading the statement
/// there gives its keyword.
pub proof fn lemma_next_control(s: Seq<char>, i: int, e: int, r: Result<(usize, NextStatement), VariableError>)
    requires
        next_control(s, i) is Some,
        statement_start(s, i) matches Some((_, f)) && f == e,
        statement_by_first_token(s, e, r),
    ensures
        r matches Ok((_, next)) && (next matches NextStatement::ControlFlow(k) && k@ == next_control(s, i).unwrap()),
{
    assert(rule_at(s, e) is Keyword);
}

} // verus!
