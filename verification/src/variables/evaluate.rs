//! Evaluates a read template against the variables, giving the text with each statement
//! replaced by what it evaluates to.
use std::ops::Range;
use vstd::prelude::*;
use crate::numbers::Numerics;
use crate::text::{chars_of, string_of, copy_string, push_text};
use crate::variables::{
    Value, ValueView, Variable, VarView, VariableError, find_view, kind_name_of, gview, lview,
    lemma_group_view, lemma_list_view, key_index, lemma_key_index, group_index,
};
use crate::variables::context::{Context, Statement, StatementType, Expression, ExpressionContent, context_wf, statement_wf, context_as_read};
use crate::variables::modifier::{Modifier, ModifierKind, modifier_kind, modifier_outcome, numerics_give, modifier_accepts, lemma_outcome_settled, get_modifier, ModifierError};
use crate::variables::token::text;

verus! {

/// Records the variables that an evaluation reads, in the order it reads them.
pub struct VariableEvalCounter {
    variables: Vec<String>,
}

/// The texts of a sequence of strings.
pub open spec fn texts(v: Seq<String>) -> Seq<Seq<char>> {
    Seq::new(v.len(), |i: int| v[i]@)
}

/// `b` starts with `a`.
pub open spec fn extends(a: Seq<Seq<char>>, b: Seq<Seq<char>>) -> bool {
    a.len() <= b.len() && forall|i: int| 0 <= i < a.len() ==> #[trigger] b[i] == a[i]
}

proof fn lemma_extends_trans(a: Seq<Seq<char>>, b: Seq<Seq<char>>, c: Seq<Seq<char>>)
    requires
        extends(a, b),
        extends(b, c),
    ensures
        extends(a, c),
{
    assert forall|i: int| 0 <= i < a.len() implies #[trigger] c[i] == a[i] by {
        assert(c[i] == b[i]);
    }
}

/// Appending a string appends its text.
pub proof fn lemma_texts_push(v: Seq<String>, x: String)
    ensures
        texts(v.push(x)) == texts(v).push(x@),
{
    assert(texts(v.push(x)) =~= texts(v).push(x@));
}

/// A local name, such as the `_` of a list statement.
pub open spec fn is_local(name: Seq<char>) -> bool {
    name.len() > 0 && name[0] == '_'
}

/// The names that are not local, in order.
pub open spec fn public_names(s: Seq<Seq<char>>) -> Seq<Seq<char>>
    decreases s.len(),
{
    if s.len() == 0 {
        s
    } else if is_local(s.last()) {
        public_names(s.drop_last())
    } else {
        public_names(s.drop_last()).push(s.last())
    }
}

/// The sequence with each element kept at its first occurrence only.
pub open spec fn first_occurrences(s: Seq<Seq<char>>) -> Seq<Seq<char>>
    decreases s.len(),
{
    if s.len() == 0 {
        s
    } else {
        let p = first_occurrences(s.drop_last());
        if p.contains(s.last()) {
            p
        } else {
            p.push(s.last())
        }
    }
}

impl VariableEvalCounter {
    /// The names recorded so far.
    pub closed spec fn view(&self) -> Seq<Seq<char>> {
        texts(self.variables@)
    }

    /// A counter that has recorded nothing.
    pub fn new() -> (c: Self)
        ensures
            c@ == Seq::<Seq<char>>::empty(),
    {
        let c = VariableEvalCounter { variables: Vec::new() };
        assert(c@ =~= Seq::<Seq<char>>::empty());
        c
    }

    /// Marks a variable as used.
    pub fn used(&mut self, used: &str)
        ensures
            final(self)@ == old(self)@.push(used@),
    {
        self.variables.push(text(used));
        assert(self@ =~= old(self)@.push(used@));
    }

    /// The variables used, without local ones, each once in the order it was first used.
    pub fn usages(self) -> (r: Vec<String>)
        ensures
            texts(r@) == first_occurrences(public_names(self@)),
    {
        let ghost s = self@;
        let mut r: Vec<String> = Vec::new();
        let mut i: usize = 0;
        assert(s.take(0) =~= Seq::<Seq<char>>::empty());
        assert(texts(r@) =~= first_occurrences(public_names(s.take(0))));
        while i < self.variables.len()
            invariant
                i <= self.variables@.len(),
                s == texts(self.variables@),
                texts(r@) == first_occurrences(public_names(s.take(i as int))),
            decreases self.variables@.len() - i,
        {
            let name = &self.variables[i];
            let c = chars_of(name.as_str());
            let ghost before = texts(r@);
            proof {
                assert(s.take(i + 1).drop_last() =~= s.take(i as int));
                assert(s.take(i + 1).last() == name@);
            }
            let local = c.len() > 0 && c[0] == '_';
            assert(local == is_local(name@));
            if !local {
                assert(public_names(s.take(i + 1)) == public_names(s.take(i as int)).push(name@));
                assert(public_names(s.take(i as int)).push(name@).drop_last() =~= public_names(s.take(i as int)));
                let repeat = crate::jobs::holds_text(&r, name);
                if !repeat {
                    r.push(copy_string(name));
                    assert(texts(r@) =~= before.push(name@));
                }
            } else {
                assert(public_names(s.take(i + 1)) == public_names(s.take(i as int)));
            }
            i = i + 1;
        }
        assert(s.take(self.variables@.len() as int) =~= s);
        r
    }
}

// ---------------------------------------------------------------------------------------------
// What an evaluation gives
// ---------------------------------------------------------------------------------------------

/// The ranges of a context lie in order within its source, and its source within a text of
/// length `n`; the same holds of its nested contexts.
pub open spec fn layout(n: nat, c: Context) -> bool
    decreases c,
{
    &&& c.source.start <= c.source.end <= n
    &&& forall|i: int|
        #![trigger c.statements@[i]]
        0 <= i < c.statements@.len() ==> {
            &&& c.source.start <= c.statements@[i].location.start <= c.statements@[i].location.end
                <= c.source.end
            &&& statement_layout(n, c.statements@[i])
        }
    &&& forall|i: int|
        #![trigger c.statements@[i]]
        0 < i < c.statements@.len() ==> c.statements@[i - 1].location.end
            <= c.statements@[i].location.start
}

/// The nested contexts of a statement are laid out.
pub open spec fn statement_layout(n: nat, st: Statement) -> bool
    decreases st,
{
    match st.content {
        StatementType::Expression { .. } => true,
        StatementType::Conditional { context_true, context_false, .. } => layout(n, context_true) && match context_false {
            Some(f) => layout(n, f),
            None => true,
        },
        StatementType::List { context, .. } => layout(n, context),
    }
}

/// Every context that the template reader gives is laid out, so it can be evaluated.
pub proof fn lemma_read_context_laid_out(s: Seq<char>, c: Context)
    requires
        context_wf(s, c),
    ensures
        layout(s.len(), c),
    decreases c,
{
    lemma_wf_ranges(s, c);
    assert forall|i: int| 0 <= i < c.statements@.len() implies statement_layout(s.len(), #[trigger] c.statements@[i]) by {
        let sv = c.statements;
        assert(decreases_to!(c => c.statements));
        assert(decreases_to!(sv => sv@));
        assert(decreases_to!(sv@ => sv@[i]));
        lemma_read_statement_laid_out(s, c.statements@[i]);
    }
}

/// The ranges that a well formed context keeps.
proof fn lemma_wf_ranges(s: Seq<char>, c: Context)
    requires
        context_wf(s, c),
    ensures
        c.source.start <= c.source.end <= s.len(),
        forall|i: int|
            #![trigger c.statements@[i]]
            0 <= i < c.statements@.len() ==> c.source.start <= c.statements@[i].location.start
                <= c.statements@[i].location.end <= c.source.end && statement_wf(s, c.statements@[i]),
        forall|i: int|
            #![trigger c.statements@[i]]
            0 < i < c.statements@.len() ==> c.statements@[i - 1].location.end
                <= c.statements@[i].location.start,
{
}

proof fn lemma_read_statement_laid_out(s: Seq<char>, st: Statement)
    requires
        statement_wf(s, st),
    ensures
        statement_layout(s.len(), st),
    decreases st,
{
    assert(decreases_to!(st => st.content));
    match st.content {
        StatementType::Expression { .. } => {},
        StatementType::Conditional { context_true, context_false, .. } => {
            lemma_read_context_laid_out(s, context_true);
            if let Some(f) = context_false {
                lemma_read_context_laid_out(s, f);
            }
        },
        StatementType::List { context, .. } => {
            lemma_read_context_laid_out(s, context);
        },
    }
}

/// Where the text before statement `k` of a context starts.
pub open spec fn gap_start(c: Context, k: int) -> int {
    if k == 0 {
        c.source.start as int
    } else {
        c.statements@[k - 1].location.end as int
    }
}

/// The text of a context up to statement `k`, with each statement before it replaced by its
/// output in `outs`.
pub open spec fn stitched_prefix(input: Seq<char>, c: Context, outs: Seq<Seq<char>>, k: int) -> Seq<char>
    decreases k,
{
    if k <= 0 {
        Seq::empty()
    } else {
        stitched_prefix(input, c, outs, k - 1) + input.subrange(gap_start(c, k - 1), c.statements@[k - 1].location.start as int)
            + outs[k - 1]
    }
}

/// The text of a context with each statement replaced by its output in `outs`.
pub open spec fn stitched(input: Seq<char>, c: Context, outs: Seq<Seq<char>>) -> Seq<char> {
    let n = c.statements@.len() as int;
    stitched_prefix(input, c, outs, n) + input.subrange(gap_start(c, n), c.source.end as int)
}

/// The value of an expression's base, if it has one.
pub open spec fn base_value(c: ExpressionContent, vars: VarView) -> Option<ValueView> {
    match c {
        ExpressionContent::LiteralString(s) => Some(ValueView::String(s@)),
        ExpressionContent::LiteralNumber(n) => Some(ValueView::Number(n)),
        ExpressionContent::LiteralBool(b) => Some(ValueView::Boolean(b)),
        ExpressionContent::Variable(name) => match find_view(vars, name@) {
            Some(VarView::Value(v)) => Some(v),
            _ => None,
        },
    }
}

/// How an expression fails when its base has no value.
pub open spec fn base_error(e: Expression, vars: VarView, g: VariableError) -> bool {
    match e.content {
        ExpressionContent::Variable(name) => match find_view(vars, name@) {
            None => g.title@ == "variable not found"@ && g.primary.0 == e.content_range
                && g.primary.1@ == "variable `"@ + name@ + "` not found"@,
            Some(VarView::Value(_)) => true,
            Some(_) => g.title@ == "unexpected variable type"@ && g.primary.0 == e.content_range
                && g.primary.1@ == "expected `"@ + name@ + "` to be of type value, but found an object or list"@,
        },
        _ => true,
    }
}

/// What evaluating an expression gives: the base's value when there are no modifiers, an error
/// when the base has none, and otherwise the value that the modifiers give one after another.
pub open spec fn expression_outcome<N: Numerics>(e: Expression, vars: VarView, numerics: &N, r: Result<Value, VariableError>) -> bool {
    &&& base_value(e.content, vars) is None ==> (r matches Err(g) && base_error(e, vars, g))
    &&& e.modifiers@.len() == 0 ==> match base_value(e.content, vars) {
        Some(b) => r matches Ok(v) && v.view() == b,
        None => true,
    }
    &&& r is Ok ==> forall|k: int| 0 <= k < e.modifiers@.len() ==> modifier_kind(#[trigger] e.modifiers@[k].name@) is Some
    &&& r matches Ok(v) ==> value_after(e, vars, numerics, e.modifiers@.len(), v)
}

/// `v` is the value of an expression after its first `k` modifiers: the base's value for none;
/// else what modifier `k` gives, with the numerics doing what it computes with them, for the
/// value after the ones before it and for values of its parameters.
pub open spec fn value_after<N: Numerics>(e: Expression, vars: VarView, numerics: &N, k: nat, v: Value) -> bool
    decreases e, k,
{
    if k == 0 {
        base_value(e.content, vars) == Some(v.view())
    } else if k > e.modifiers@.len() {
        false
    } else {
        let m = e.modifiers@[k - 1];
        &&& modifier_kind(m.name@) is Some
        &&& exists|prev: Value, ps: Seq<Value>|
            #[trigger] modifier_outcome(modifier_kind(m.name@).unwrap(), prev, ps, Ok::<Value, ModifierError>(v))
                && numerics_give(modifier_kind(m.name@).unwrap(), numerics, prev, ps, Ok::<Value, ModifierError>(v))
                && value_after(e, vars, numerics, (k - 1) as nat, prev) && ps.len() == m.parameters@.len()
                && forall|j: int|
                #![trigger ps[j]]
                0 <= j < ps.len() ==> value_after(m.parameters@[j], vars, numerics, m.parameters@[j].modifiers@.len(), ps[j])
    }
}

/// An expression whose evaluation cannot fail: its base has a value, and each of its modifiers
/// exists, is not `parse-number` (whose success the numerics decide), has parameters whose
/// evaluation cannot fail either, and gives a value for every value the expression may have
/// before it and every values its parameters may have.
pub open spec fn evaluates_ok<N: Numerics>(e: Expression, vars: VarView, numerics: &N) -> bool
    decreases e,
{
    &&& base_value(e.content, vars) is Some
    &&& forall|k: int|
        #![trigger e.modifiers@[k]]
        0 <= k < e.modifiers@.len() ==> {
            &&& modifier_kind(e.modifiers@[k].name@) matches Some(kind) && kind != ModifierKind::ParseNumber
            &&& forall|j: int|
                #![trigger e.modifiers@[k].parameters@[j]]
                0 <= j < e.modifiers@[k].parameters@.len() ==> evaluates_ok(e.modifiers@[k].parameters@[j], vars, numerics)
            &&& forall|prev: Value, ps: Seq<Value>|
                #![trigger modifier_accepts(modifier_kind(e.modifiers@[k].name@).unwrap(), prev, ps)]
                value_after(e, vars, numerics, k as nat, prev) && ps.len() == e.modifiers@[k].parameters@.len() && (forall|j: int|
                    #![trigger ps[j]]
                    0 <= j < ps.len() ==> value_after(
                        e.modifiers@[k].parameters@[j],
                        vars,
                        numerics,
                        e.modifiers@[k].parameters@[j].modifiers@.len(),
                        ps[j],
                    )) ==> modifier_accepts(modifier_kind(e.modifiers@[k].name@).unwrap(), prev, ps)
        }
}

/// The text a value is written as: a string as itself, a boolean as `true` or `false`, and a
/// number as the text that the numerics display for that very number.
pub open spec fn written_as<N: Numerics>(numerics: &N, v: ValueView, t: Seq<char>) -> bool {
    match v {
        ValueView::String(s) => t == s,
        ValueView::Boolean(b) => t == (if b { "true"@ } else { "false"@ }),
        ValueView::Number(n) => exists|d: String| d@ == t && #[trigger] call_ensures(N::display, (numerics, n), d),
    }
}

/// A statement that writes a number without modifiers is written as the text that the
/// numerics display for that very number, and a string or boolean is written as itself.
pub proof fn lemma_value_written<N: Numerics>(input: Seq<char>, st: Statement, vars: VarView, numerics: &N, t: Seq<char>)
    requires
        st.content matches StatementType::Expression { content } && content.modifiers@.len() == 0,
        statement_output(input, st, vars, numerics, t),
    ensures
        st.content matches StatementType::Expression { content } && match base_value(content.content, vars) {
            Some(ValueView::Number(n)) => exists|d: String| d@ == t && #[trigger] call_ensures(N::display, (numerics, n), d),
            Some(ValueView::String(x)) => t == x,
            Some(ValueView::Boolean(b)) => t == (if b { "true"@ } else { "false"@ }),
            None => false,
        },
{
    if let StatementType::Expression { content } = st.content {
        let v = choose|v: Value| #[trigger] expression_outcome(content, vars, numerics, Ok::<Value, VariableError>(v)) && written_as(numerics, v.view(), t);
        assert(base_value(content.content, vars) == Some(v.view()));
    }
}

/// The items a list statement repeats its context for.
pub open spec fn list_items(e: Expression, vars: VarView, r: Result<Vec<Variable>, VariableError>) -> bool {
    match e.content {
        ExpressionContent::Variable(name) => if e.modifiers@.len() == 0 {
            match find_view(vars, name@) {
                Some(VarView::List(l)) => r matches Ok(items) && lview(items@) == l,
                Some(VarView::Group(g)) => r matches Ok(items) && items@.len() == g.len() && forall|i: int|
                    0 <= i < g.len() ==> (#[trigger] items@[i]).view() == VarView::Group(
                        seq![("key"@, VarView::Value(ValueView::String(g[i].0))), ("value"@, g[i].1)],
                    ),
                _ => r matches Err(x) && x.title@ == "unexpected variable type for list"@,
            }
        } else {
            r matches Err(x) && x.title@ == "invalid type for list"@
        },
        _ => r matches Err(x) && x.title@ == "invalid type for list"@,
    }
}

/// `vars` with its entry `key` set to `item`, when it is a group.
pub open spec fn with_entry(vars: VarView, key: Seq<char>, item: VarView) -> VarView {
    match vars {
        VarView::Group(g) => VarView::Group(match key_index(g, key) {
            Some(i) => g.update(i, (key, item)),
            None => g.push((key, item)),
        }),
        _ => vars,
    }
}

/// The texts of `outs` one after another.
pub open spec fn joined(outs: Seq<Seq<char>>) -> Seq<char>
    decreases outs.len(),
{
    if outs.len() == 0 {
        Seq::empty()
    } else {
        joined(outs.drop_last()) + outs.last()
    }
}

/// The variables a list statement evaluates its context with for one item: the item is `_`.
pub open spec fn item_variables(vars: VarView, item: VarView) -> VarView {
    with_entry(vars, "_"@, item)
}

/// What a context evaluates to: its text with each statement replaced by an output of it.
pub open spec fn context_output<N: Numerics>(input: Seq<char>, c: Context, vars: VarView, numerics: &N, t: Seq<char>) -> bool
    decreases c,
{
    exists|outs: Seq<Seq<char>>|
        outs.len() == c.statements@.len() && t == #[trigger] stitched(input, c, outs) && forall|i: int|
            #![trigger c.statements@[i]]
            0 <= i < outs.len() ==> statement_output(input, c.statements@[i], vars, numerics, outs[i])
}

/// `out` is what the template `s` reads as and evaluates to against `vars`.
pub open spec fn template_output<N: Numerics>(s: Seq<char>, vars: VarView, numerics: &N, out: Seq<char>) -> bool {
    exists|c: Context|
        context_wf(s, c) && c.source.start == 0 && c.source.end == s.len() && #[trigger] context_output(s, c, vars, numerics, out)
}

/// What a statement evaluates to: an expression gives the text of a value that it evaluates to;
/// a condition is a boolean and the output is that of the context it picks; a list statement
/// gives the outputs of its context for each item in turn.
pub open spec fn statement_output<N: Numerics>(input: Seq<char>, st: Statement, vars: VarView, numerics: &N, t: Seq<char>) -> bool
    decreases st,
{
    match st.content {
        StatementType::Expression { content } => exists|v: Value|
            #[trigger] expression_outcome(content, vars, numerics, Ok::<Value, VariableError>(v)) && written_as(numerics, v.view(), t),
        StatementType::Conditional { condition, context_true, context_false } => exists|b: bool|
            #[trigger] expression_outcome(condition, vars, numerics, Ok::<Value, VariableError>(Value::Boolean(b)))
                && if b {
                context_output(input, context_true, vars, numerics, t)
            } else {
                match context_false {
                    Some(f) => context_output(input, f, vars, numerics, t),
                    None => t.len() == 0,
                }
            },
        StatementType::List { expression, context } => exists|items: Vec<Variable>|
            #[trigger] list_items(expression, vars, Ok::<Vec<Variable>, VariableError>(items))
                && exists|outs: Seq<Seq<char>>|
                outs.len() == items@.len() && t == #[trigger] joined(outs) && forall|k: int|
                    #![trigger outs[k]]
                    0 <= k < outs.len() ==> context_output(input, context, item_variables(vars, items@[k].view()), numerics, outs[k]),
    }
}

/// A statement whose evaluation cannot fail: an expression without modifiers whose base has a
/// value; a condition without modifiers whose base is a boolean, picking a context without
/// statements; a list of a list or group variable, repeating a context without statements.
pub open spec fn evaluates_plainly(st: Statement, vars: VarView) -> bool {
    match st.content {
        StatementType::Expression { content } => content.modifiers@.len() == 0 && base_value(content.content, vars) is Some,
        StatementType::Conditional { condition, context_true, context_false } => {
            &&& condition.modifiers@.len() == 0
            &&& base_value(condition.content, vars) matches Some(ValueView::Boolean(b)) && if b {
                context_true.statements@.len() == 0
            } else {
                context_false matches Some(f) ==> f.statements@.len() == 0
            }
        },
        StatementType::List { expression, context } => {
            &&& expression.modifiers@.len() == 0
            &&& expression.content matches ExpressionContent::Variable(name) && (find_view(vars, name@) matches Some(x) && (
                x is List || x is Group))
            &&& context.statements@.len() == 0
        },
    }
}

/// Every statement of a context evaluates without fail against `vars`.
pub open spec fn context_evaluates_ok<N: Numerics>(c: Context, vars: VarView, numerics: &N) -> bool
    decreases c,
{
    forall|i: int| #![trigger c.statements@[i]] 0 <= i < c.statements@.len() ==> statement_evaluates_ok(c.statements@[i], vars, numerics)
}

/// A statement whose evaluation cannot fail: an expression that `evaluates_ok`; a condition that
/// does and can only be a boolean, with contexts that evaluate without fail; a list of a list or
/// group variable, whose context evaluates without fail for each of its items.
pub open spec fn statement_evaluates_ok<N: Numerics>(st: Statement, vars: VarView, numerics: &N) -> bool
    decreases st,
{
    match st.content {
        StatementType::Expression { content } => evaluates_ok(content, vars, numerics),
        StatementType::Conditional { condition, context_true, context_false } => {
            &&& evaluates_ok(condition, vars, numerics)
            &&& forall|v: Value| #[trigger] value_after(condition, vars, numerics, condition.modifiers@.len(), v) ==> v is Boolean
            &&& context_evaluates_ok(context_true, vars, numerics)
            &&& context_false matches Some(f) ==> context_evaluates_ok(f, vars, numerics)
        },
        StatementType::List { expression, context } => {
            &&& expression.modifiers@.len() == 0
            &&& expression.content matches ExpressionContent::Variable(name) && (find_view(vars, name@) matches Some(x) && (
                x is List || x is Group))
            &&& forall|items: Vec<Variable>, k: int|
                #![trigger list_items(expression, vars, Ok::<Vec<Variable>, VariableError>(items)), items@[k]]
                list_items(expression, vars, Ok::<Vec<Variable>, VariableError>(items)) && 0 <= k < items@.len()
                    ==> context_evaluates_ok(context, item_variables(vars, items@[k].view()), numerics)
        },
    }
}

/// Every reading of the template `s`, as the reader gives it, evaluates without fail against
/// `vars`.
pub open spec fn template_evaluates_ok<N: Numerics>(s: Seq<char>, vars: VarView, numerics: &N) -> bool {
    forall|c: Context|
        #![trigger context_as_read(s, c)]
        context_wf(s, c) && context_as_read(s, c) && c.source.start == 0 && c.source.end == s.len()
            ==> context_evaluates_ok(c, vars, numerics)
}

/// Every statement of every well formed reading of the template `s` evaluates plainly against
/// `vars`.
pub open spec fn template_evaluates_plainly(s: Seq<char>, vars: VarView) -> bool {
    forall|c: Context, i: int|
        #![trigger context_wf(s, c), c.statements@[i]]
        context_wf(s, c) && c.source.start == 0 && c.source.end == s.len() && 0 <= i < c.statements@.len()
            ==> evaluates_plainly(c.statements@[i], vars)
}

/// Where the entry of a group is found does not change when the entry is replaced by one with
/// the same name.
proof fn lemma_key_index_update(g: Seq<(Seq<char>, VarView)>, key: Seq<char>, i: int, x: (Seq<char>, VarView))
    requires
        0 <= i < g.len(),
        x.0 == g[i].0,
    ensures
        key_index(g.update(i, x), key) == key_index(g, key),
    decreases g.len(),
{
    let h = g.update(i, x);
    if i == g.len() - 1 {
        assert(h.drop_last() =~= g.drop_last());
    } else {
        assert(h.drop_last() =~= g.drop_last().update(i, x));
        lemma_key_index_update(g.drop_last(), key, i, x);
    }
}

/// Setting an entry twice leaves what the second setting gives.
proof fn lemma_with_entry_twice(vars: VarView, key: Seq<char>, a: VarView, b: VarView)
    ensures
        with_entry(with_entry(vars, key, a), key, b) == with_entry(vars, key, b),
{
    match vars {
        VarView::Group(g) => match key_index(g, key) {
            Some(i) => {
                lemma_key_index(g, key);
                lemma_key_index_update(g, key, i, (key, a));
                assert(g.update(i, (key, a)).update(i, (key, b)) =~= g.update(i, (key, b)));
            },
            None => {
                let h = g.push((key, a));
                assert(h.drop_last() =~= g);
                assert(key_index(h, key) == Some(g.len() as int));
                assert(h.update(g.len() as int, (key, b)) =~= g.push((key, b)));
            },
        },
        _ => {},
    }
}

// ---------------------------------------------------------------------------------------------
// Evaluation
// ---------------------------------------------------------------------------------------------

fn simple_error(title: &str, range: Range<usize>, message: String, summary: &str) -> (g: VariableError)
    ensures
        g.title@ == title@,
        g.primary.0 == range,
        g.primary.1@ == message@,
        g.secondary@.len() == 0,
        g.summary@ == summary@,
{
    VariableError { title: text(title), primary: (range, message), secondary: Vec::new(), summary: text(summary) }
}

fn joined3(a: &str, b: &String, c: &str) -> (r: String)
    ensures
        r@ == a@ + b@ + c@,
{
    let mut r = text(a);
    push_text(&mut r, b.as_str());
    push_text(&mut r, c);
    r
}

/// Evaluates an expression to a value.
pub fn evaluate_expression<N: Numerics>(
    expr: &Expression,
    variables: &Variable,
    counter: &mut VariableEvalCounter,
    numerics: &N,
) -> (r: Result<Value, VariableError>)
    ensures
        expression_outcome(*expr, variables.view(), numerics, r),
        evaluates_ok(*expr, variables.view(), numerics) ==> r is Ok,
        extends(old(counter)@, final(counter)@),
        expr.content matches ExpressionContent::Variable(name) ==> final(counter)@[old(counter)@.len() as int] == name@,
    decreases expr,
{
    let ghost ok = evaluates_ok(*expr, variables.view(), numerics);
    proof {
        reveal_strlit("variable not found");
        reveal_strlit("variable `");
        reveal_strlit("` not found");
        reveal_strlit("unexpected variable type");
        reveal_strlit("expected `");
        reveal_strlit("` to be of type value, but found an object or list");
    }
    let ghost c0 = counter@;
    let mut state = match &expr.content {
        ExpressionContent::LiteralString(s) => Value::String(copy_string(s)),
        ExpressionContent::LiteralNumber(n) => Value::Number(*n),
        ExpressionContent::LiteralBool(b) => Value::Boolean(*b),
        ExpressionContent::Variable(name) => {
            counter.used(name.as_str());
            match variables.find(name.as_str()) {
                Some(Variable::Value(v)) => v.copy(),
                Some(_) => {
                    return Err(simple_error(
                        "unexpected variable type",
                        expr.content_range.start..expr.content_range.end,
                        joined3("expected `", name, "` to be of type value, but found an object or list"),
                        "expressions expect value variables, lists can only be processed by list statements",
                    ));
                },
                None => {
                    return Err(simple_error(
                        "variable not found",
                        expr.content_range.start..expr.content_range.end,
                        joined3("variable `", name, "` not found"),
                        "could not find the referenced variable, is it defined in the right context?",
                    ));
                },
            }
        },
    };
    let ghost c1 = counter@;
    let mut k: usize = 0;
    while k < expr.modifiers.len()
        invariant
            k <= expr.modifiers@.len(),
            extends(c0, c1),
            extends(c1, counter@),
            c0 == old(counter)@,
            expr.content matches ExpressionContent::Variable(name) ==> (c1.len() > c0.len() && c1[c0.len() as int] == name@),
            base_value(expr.content, variables.view()) is Some,
            k == 0 ==> Some(state.view()) == base_value(expr.content, variables.view()),
            forall|j: int| 0 <= j < k ==> modifier_kind(#[trigger] expr.modifiers@[j].name@) is Some,
            value_after(*expr, variables.view(), numerics, k as nat, state),
            ok == evaluates_ok(*expr, variables.view(), numerics),
        decreases expr.modifiers@.len() - k,
    {
        let m = &expr.modifiers[k];
        let mut parameters: Vec<Value> = Vec::new();
        let mut j: usize = 0;
        while j < m.parameters.len()
            invariant
                k < expr.modifiers@.len(),
                *m == expr.modifiers@[k as int],
                base_value(expr.content, variables.view()) is Some,
                extends(c0, c1),
                c0 == old(counter)@,
                expr.content matches ExpressionContent::Variable(name) ==> (c1.len() > c0.len() && c1[c0.len() as int] == name@),
                j <= m.parameters@.len(),
                parameters@.len() == j,
                forall|jj: int|
                    #![trigger parameters@[jj]]
                    0 <= jj < j ==> value_after(m.parameters@[jj], variables.view(), numerics, m.parameters@[jj].modifiers@.len(), parameters@[jj]),
                extends(c1, counter@),
                ok == evaluates_ok(*expr, variables.view(), numerics),
            decreases m.parameters@.len() - j,
        {
            proof {
                let mv = expr.modifiers;
                assert(decreases_to!(*expr => expr.modifiers));
                assert(decreases_to!(mv => mv@));
                assert(decreases_to!(mv@ => mv@[k as int]));
                let pv = mv@[k as int].parameters;
                assert(decreases_to!(mv@[k as int] => pv));
                assert(decreases_to!(pv => pv@));
                assert(decreases_to!(pv@ => pv@[j as int]));
            }
            let ghost before = counter@;
            let v = evaluate_expression(&m.parameters[j], variables, counter, numerics);
            proof {
                lemma_extends_trans(c1, before, counter@);
                lemma_extends_trans(c0, c1, counter@);
                if ok {
                    assert(expr.modifiers@[k as int] == *m);
                    assert(evaluates_ok(m.parameters@[j as int], variables.view(), numerics));
                }
            }
            let v = v?;
            parameters.push(v);
            j = j + 1;
        }
        proof {
            lemma_extends_trans(c0, c1, counter@);
        }
        match get_modifier(m.name.as_str()) {
            Some(kind) => {
                let ghost prev = state;
                let ghost ps = parameters@;
                match kind.evaluate(state, parameters, numerics) {
                    Ok(v) => {
                        proof {
                            assert(modifier_outcome(modifier_kind(m.name@).unwrap(), prev, ps, Ok::<Value, ModifierError>(v)));
                            assert(value_after(*expr, variables.view(), numerics, (k + 1) as nat, v));
                        }
                        state = v;
                    },
                    Err(e) => {
                        proof {
                            if ok {
                                assert(expr.modifiers@[k as int] == *m);
                                assert(parameters@.len() == m.parameters@.len());
                                assert(modifier_accepts(kind, prev, ps));
                                let x = choose|x: Value| #[trigger] modifier_outcome(kind, prev, ps, Ok::<Value, ModifierError>(x));
                                lemma_outcome_settled(kind, prev, ps, Err::<Value, ModifierError>(e), Ok::<Value, ModifierError>(x));
                            }
                        }
                        return Err(e.to_general(expr, m));
                    },
                }
            },
            None => {
                proof {
                    if ok {
                        assert(expr.modifiers@[k as int] == *m);
                    }
                }
                return Err(simple_error(
                    "no such modifier",
                    m.name_range.start..m.name_range.end,
                    joined3("there exists no modifier under the name `", &m.name, "`"),
                    "there does not exist a modifier with the given name, it it spelled correctly?",
                ));
            },
        }
        k = k + 1;
    }
    Ok(state)
}

/// Evaluates the expression of a list statement to the items it repeats for: the entries of a
/// list variable, or one `key`/`value` group per entry of a group variable.
pub fn evaluate_expression_for_list(
    expr: &Expression,
    variables: &Variable,
    counter: &mut VariableEvalCounter,
) -> (r: Result<Vec<Variable>, VariableError>)
    ensures
        list_items(*expr, variables.view(), r),
        extends(old(counter)@, final(counter)@),
{
    proof {
        reveal_strlit("unexpected variable type for list");
        reveal_strlit("invalid type for list");
        reveal_strlit("key");
        reveal_strlit("value");
    }
    if let ExpressionContent::Variable(name) = &expr.content {
        if expr.modifiers.len() == 0 {
            counter.used(name.as_str());
            match variables.find(name.as_str()) {
                Some(found) => {
                    let c = found.copy();
                    match c {
                        Variable::List(l) => {
                            proof {
                                lemma_list_view(l);
                            }
                            return Ok(l);
                        },
                        Variable::Group(g) => {
                            proof {
                                lemma_group_view(g);
                            }
                            let ghost gv = gview(g@);
                            let mut items: Vec<Variable> = Vec::new();
                            let mut i: usize = 0;
                            while i < g.len()
                                invariant
                                    i <= g@.len(),
                                    gv == gview(g@),
                                    items@.len() == i,
                                    forall|j: int| 0 <= j < i ==> (#[trigger] items@[j]).view() == VarView::Group(
                                        seq![("key"@, VarView::Value(ValueView::String(gv[j].0))), ("value"@, gv[j].1)],
                                    ),
                                decreases g@.len() - i,
                            {
                                let mut entries: Vec<(String, Variable)> = Vec::new();
                                entries.push((text("key"), Variable::Value(Value::String(copy_string(&g[i].0)))));
                                entries.push((text("value"), g[i].1.copy()));
                                proof {
                                    lemma_group_view(entries);
                                    assert(gview(entries@) =~= seq![
                                        ("key"@, VarView::Value(ValueView::String(gv[i as int].0))),
                                        ("value"@, gv[i as int].1),
                                    ]);
                                }
                                items.push(Variable::Group(entries));
                                i = i + 1;
                            }
                            return Ok(items);
                        },
                        _ => {},
                    }
                },
                None => {},
            }
            return Err(simple_error(
                "unexpected variable type for list",
                expr.range.start..expr.range.end,
                text("lists only accept the list variable type"),
                "variables used in list statements must also be of type list",
            ));
        }
    }
    Err(simple_error(
        "invalid type for list",
        expr.range.start..expr.range.end,
        text("lists currently do only support variables of type lists with no modifiers"),
        "remove any modifiers and make sure the expression base is a variable",
    ))
}

/// Writes a value as text.
pub fn display_value<N: Numerics>(v: &Value, numerics: &N) -> (r: String)
    ensures
        written_as(numerics, v.view(), r@),
{
    proof {
        reveal_strlit("true");
        reveal_strlit("false");
    }
    match v {
        Value::String(s) => copy_string(s),
        Value::Number(n) => numerics.display(*n),
        Value::Boolean(b) => if *b {
            text("true")
        } else {
            text("false")
        },
    }
}

/// Sets the entry `key` of a group; other variables stay as they are.
pub fn set_entry(vars: &mut Variable, key: &str, item: Variable)
    ensures
        final(vars).view() == with_entry(old(vars).view(), key@, item.view()),
{
    match vars {
        Variable::Group(g) => {
            proof {
                lemma_group_view(*g);
            }
            let ghost before = gview(g@);
            let k = text(key);
            match group_index(g, &k) {
                Some(i) => {
                    g.set(i, (k, item));
                    assert(gview(g@) =~= before.update(i as int, (key@, item.view())));
                },
                None => {
                    g.push((k, item));
                    assert(gview(g@) =~= before.push((key@, item.view())));
                },
            }
            proof {
                lemma_group_view(*g);
            }
        },
        _ => {},
    }
}

/// Evaluates a single statement to its text.
#[verifier::spinoff_prover]
#[verifier::rlimit(80)]
pub fn evaluate_statement<N: Numerics>(
    input: &Vec<char>,
    statement: &Statement,
    variables: &Variable,
    counter: &mut VariableEvalCounter,
    numerics: &N,
) -> (r: Result<String, VariableError>)
    requires
        statement_layout(input@.len(), *statement),
    ensures
        r matches Ok(t) ==> statement_output(input@, *statement, variables.view(), numerics, t@),
        evaluates_plainly(*statement, variables.view()) ==> r is Ok,
        statement_evaluates_ok(*statement, variables.view(), numerics) ==> r is Ok,
        extends(old(counter)@, final(counter)@),
    decreases statement,
{
    proof {
        reveal_strlit("");
        reveal_strlit("expected boolean condition");
    }
    match &statement.content {
        StatementType::Expression { content } => {
            let v = evaluate_expression(content, variables, counter, numerics)?;
            let t = display_value(&v, numerics);
            assert(expression_outcome(*content, variables.view(), numerics, Ok::<Value, VariableError>(v)));
            Ok(t)
        },
        StatementType::Conditional { condition, context_true, context_false } => {
            let value = evaluate_expression(condition, variables, counter, numerics)?;
            proof {
                if statement_evaluates_ok(*statement, variables.view(), numerics) {
                    assert(value_after(*condition, variables.view(), numerics, condition.modifiers@.len(), value));
                }
            }
            let b = match value {
                Value::Boolean(b) => b,
                v => {
                    let mut message = text("expected condition of type boolean, found `");
                    push_text(&mut message, v.kind_name());
                    push_text(&mut message, "`");
                    return Err(simple_error(
                        "expected boolean condition",
                        condition.range.start..condition.range.end,
                        message,
                        "the condition of an if statement has to be of type boolean",
                    ));
                },
            };
            assert(expression_outcome(*condition, variables.view(), numerics, Ok::<Value, VariableError>(Value::Boolean(b))));
            let ghost c0 = counter@;
            proof {
                assert(decreases_to!(*statement => statement.content));
            }
            let r = if b {
                evaluate_context(input, context_true, variables, counter, numerics)
            } else {
                match context_false {
                    Some(f) => evaluate_context(input, f, variables, counter, numerics),
                    None => Ok(text("")),
                }
            };
            proof {
                assert(expression_outcome(*condition, variables.view(), numerics, Ok::<Value, VariableError>(Value::Boolean(b))));
            }
            r
        },
        StatementType::List { expression, context } => {
            let ghost ok = statement_evaluates_ok(*statement, variables.view(), numerics);
            let items = evaluate_expression_for_list(expression, variables, counter)?;
            assert(list_items(*expression, variables.view(), Ok::<Vec<Variable>, VariableError>(items)));
            let mut custom = variables.copy();
            let mut out = text("");
            let mut i: usize = 0;
            let ghost c1 = counter@;
            let ghost mut outs: Seq<Seq<char>> = Seq::empty();
            proof {
                if ok {
                    assert forall|k: int| 0 <= k < items@.len() implies context_evaluates_ok(
                        *context,
                        item_variables(variables.view(), #[trigger] items@[k].view()),
                        numerics,
                    ) by {
                        assert(list_items(*expression, variables.view(), Ok::<Vec<Variable>, VariableError>(items)));
                        assert(items@[k] == items@[k]);
                    }
                }
            }
            while i < items.len()
                invariant
                    statement_layout(input@.len(), *statement),
                    *statement == (Statement { location: statement.location, content: StatementType::List { expression: *expression, context: *context } }),
                    i <= items@.len(),
                    outs.len() == i,
                    out@ == joined(outs),
                    forall|k: int|
                        #![trigger outs[k]]
                        0 <= k < i ==> context_output(input@, *context, item_variables(variables.view(), items@[k].view()), numerics, outs[k]),
                    custom.view() == if i == 0 {
                        variables.view()
                    } else {
                        item_variables(variables.view(), items@[i - 1].view())
                    },
                    extends(old(counter)@, c1),
                    extends(c1, counter@),
                    ok ==> forall|k: int| 0 <= k < items@.len() ==> context_evaluates_ok(*context, item_variables(variables.view(), #[trigger] items@[k].view()), numerics),
                    ok == statement_evaluates_ok(*statement, variables.view(), numerics),
                decreases items@.len() - i,
            {
                let item = items[i].copy();
                let ghost before_item = custom.view();
                set_entry(&mut custom, "_", item);
                proof {
                    reveal_strlit("_");
                    assert(decreases_to!(*statement => statement.content));
                    if i > 0 {
                        lemma_with_entry_twice(variables.view(), "_"@, items@[i - 1].view(), items@[i as int].view());
                    }
                    assert(custom.view() == item_variables(variables.view(), items@[i as int].view()));
                }
                let ghost before = counter@;
                proof {
                    if ok {
                        assert(context_evaluates_ok(*context, item_variables(variables.view(), items@[i as int].view()), numerics));
                    }
                }
                let t = evaluate_context(input, context, &custom, counter, numerics);
                proof {
                    lemma_extends_trans(c1, before, counter@);
                    lemma_extends_trans(old(counter)@, c1, counter@);
                }
                let t = t?;
                let ghost out0 = out@;
                push_text(&mut out, t.as_str());
                proof {
                    let outs2 = outs.push(t@);
                    assert(outs2.drop_last() =~= outs);
                    assert(out@ == joined(outs2));
                    assert forall|k: int|
                        #![trigger outs2[k]]
                        0 <= k < i + 1 implies context_output(input@, *context, item_variables(variables.view(), items@[k].view()), numerics, outs2[k]) by {
                        if k < i {
                            assert(outs2[k] == outs[k]);
                        }
                    }
                    outs = outs2;
                }
                i = i + 1;
            }
            proof {
                lemma_extends_trans(old(counter)@, c1, counter@);
            }
            Ok(out)
        },
    }
}

/// Evaluates a context given as characters.
#[verifier::rlimit(30)]
fn evaluate_context<N: Numerics>(
    input: &Vec<char>,
    context: &Context,
    variables: &Variable,
    counter: &mut VariableEvalCounter,
    numerics: &N,
) -> (r: Result<String, VariableError>)
    requires
        layout(input@.len(), *context),
    ensures
        r matches Ok(out) ==> context_output(input@, *context, variables.view(), numerics, out@),
        (forall|i: int| 0 <= i < context.statements@.len() ==> evaluates_plainly(#[trigger] context.statements@[i], variables.view()))
            ==> r is Ok,
        context_evaluates_ok(*context, variables.view(), numerics) ==> r is Ok,
        context.statements@.len() == 0 ==> (r matches Ok(out) && out@ == input@.subrange(
            context.source.start as int,
            context.source.end as int,
        )),
        extends(old(counter)@, final(counter)@),
    decreases context,
{
    let mut result = String::new();
    let mut index = context.source.start;
    let mut k: usize = 0;
    let ghost mut outs: Seq<Seq<char>> = Seq::empty();
    let ghost c0 = counter@;
    while k < context.statements.len()
        invariant
            layout(input@.len(), *context),
            k <= context.statements@.len(),
            outs.len() == k,
            index == gap_start(*context, k as int),
            result@ == stitched_prefix(input@, *context, outs, k as int),
            forall|i: int| 0 <= i < k ==> statement_output(input@, context.statements@[i], variables.view(), numerics, #[trigger] outs[i]),
            c0 == old(counter)@,
            extends(c0, counter@),
        decreases context.statements@.len() - k,
    {
        let st = &context.statements[k];
        proof {
            let sv = context.statements;
            assert(decreases_to!(*context => context.statements));
            assert(decreases_to!(sv => sv@));
            assert(decreases_to!(sv@ => sv@[k as int]));
            assert(statement_layout(input@.len(), context.statements@[k as int]));
            assert(gap_start(*context, k as int) <= st.location.start) by {
                if k > 0 {
                    assert(context.statements@[k - 1].location.end <= context.statements@[k as int].location.start);
                }
            }
        }
        let ghost before = counter@;
        let t = evaluate_statement(input, st, variables, counter, numerics);
        proof {
            lemma_extends_trans(c0, before, counter@);
        }
        let t = t?;
        let gap = string_of(input, index, st.location.start);
        let ghost r0 = result@;
        push_text(&mut result, gap.as_str());
        push_text(&mut result, t.as_str());
        proof {
            let outs2 = outs.push(t@);
            lemma_prefix_outs(input@, *context, outs, outs2, k as int);
            assert(outs2[k as int] == t@);
            assert(result@ == stitched_prefix(input@, *context, outs2, k + 1));
            assert forall|i: int| 0 <= i < k + 1 implies statement_output(input@, context.statements@[i], variables.view(), numerics, #[trigger] outs2[i]) by {
                if i < k {
                    assert(outs2[i] == outs[i]);
                }
            }
            outs = outs2;
        }
        index = st.location.end;
        k = k + 1;
    }
    proof {
        if k > 0 {
            assert(context.statements@[k - 1].location.end <= context.source.end);
        }
    }
    let tail = string_of(input, index, context.source.end);
    push_text(&mut result, tail.as_str());
    assert(result@ == stitched(input@, *context, outs));
    proof {
        if context.statements@.len() == 0 {
            assert(result@ =~= input@.subrange(context.source.start as int, context.source.end as int));
        }
    }
    Ok(result)
}

/// The prefix up to `k` only reads the outputs before `k`.
proof fn lemma_prefix_outs(input: Seq<char>, c: Context, a: Seq<Seq<char>>, b: Seq<Seq<char>>, k: int)
    requires
        0 <= k <= a.len() <= b.len(),
        forall|i: int| 0 <= i < a.len() ==> a[i] == b[i],
    ensures
        stitched_prefix(input, c, a, k) == stitched_prefix(input, c, b, k),
    decreases k,
{
    if k > 0 {
        lemma_prefix_outs(input, c, a, b, k - 1);
    }
}

/// Evaluates a context of a template against the variables: the text of the context, with each
/// statement replaced by what it evaluates to.
pub fn evaluate<N: Numerics>(
    input: &str,
    context: &Context,
    variables: &Variable,
    counter: &mut VariableEvalCounter,
    numerics: &N,
) -> (r: Result<String, VariableError>)
    requires
        layout(input@.len(), *context),
    ensures
        r matches Ok(out) ==> context_output(input@, *context, variables.view(), numerics, out@),
        (forall|i: int| 0 <= i < context.statements@.len() ==> evaluates_plainly(#[trigger] context.statements@[i], variables.view()))
            ==> r is Ok,
        context_evaluates_ok(*context, variables.view(), numerics) ==> r is Ok,
        context.statements@.len() == 0 ==> (r matches Ok(out) && out@ == input@.subrange(
            context.source.start as int,
            context.source.end as int,
        )),
        extends(old(counter)@, final(counter)@),
{
    let chars = chars_of(input);
    evaluate_context(&chars, context, variables, counter, numerics)
}

} // verus!
