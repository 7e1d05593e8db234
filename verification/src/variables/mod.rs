//! The variable tree that templates are evaluated against, and the template engine itself.
pub mod token;
pub mod context;
pub mod reading;
pub mod evaluate;
pub mod modifier;

use std::ops::Range;
use vstd::prelude::*;
use crate::text::{copy_string, chars_of, string_of};

verus! {

/// Separates the levels of a variable name, e.g. `theme.color`.
pub const LEVEL_SEPARATOR: char = '.';

/// A value a variable or an expression can hold.
pub enum Value {
    String(String),
    /// A number, carried as the bit pattern of an IEEE-754 binary64 value.
    Number(u64),
    Boolean(bool),
}

/// A variable: a group of named variables, a list of variables, or a value.
pub enum Variable {
    /// Named children; the names are pairwise distinct.
    Group(Vec<(String, Variable)>),
    List(Vec<Variable>),
    Value(Value),
}

/// The mathematical content of a value.
pub enum ValueView {
    String(Seq<char>),
    Number(u64),
    Boolean(bool),
}

/// The mathematical content of a variable.
pub enum VarView {
    Group(Seq<(Seq<char>, VarView)>),
    List(Seq<VarView>),
    Value(ValueView),
}

/// An error found in a template, with the place in the source text it refers to.
pub struct VariableError {
    pub title: String,
    pub primary: (Range<usize>, String),
    pub secondary: Vec<(Range<usize>, String)>,
    pub summary: String,
}

impl Value {
    pub open spec fn view(&self) -> ValueView {
        match self {
            Value::String(s) => ValueView::String(s@),
            Value::Number(n) => ValueView::Number(*n),
            Value::Boolean(b) => ValueView::Boolean(*b),
        }
    }

    /// Copies the value.
    pub fn copy(&self) -> (r: Value)
        ensures
            r.view() == self.view(),
    {
        match self {
            Value::String(s) => Value::String(copy_string(s)),
            Value::Number(n) => Value::Number(*n),
            Value::Boolean(b) => Value::Boolean(*b),
        }
    }

    /// The name of the value's type, as shown in messages.
    pub fn kind_name(&self) -> (r: &'static str)
        ensures
            r@ == kind_name_of(self.view()),
    {
        proof {
            reveal_strlit("string");
            reveal_strlit("number");
            reveal_strlit("boolean");
        }
        match self {
            Value::String(_) => "string",
            Value::Number(_) => "number",
            Value::Boolean(_) => "boolean",
        }
    }
}

pub open spec fn kind_name_of(v: ValueView) -> Seq<char> {
    match v {
        ValueView::String(_) => "string"@,
        ValueView::Number(_) => "number"@,
        ValueView::Boolean(_) => "boolean"@,
    }
}

impl Variable {
    pub open spec fn view(&self) -> VarView
        decreases self,
    {
        match self {
            Variable::Group(g) => VarView::Group(
                Seq::new(
                    g@.len(),
                    |i: int|
                        (
                            g@[i].0@,
                            if 0 <= i < g@.len() {
                                g@[i].1.view()
                            } else {
                                VarView::List(Seq::empty())
                            },
                        ),
                ),
            ),
            Variable::List(l) => VarView::List(
                Seq::new(
                    l@.len(),
                    |i: int|
                        if 0 <= i < l@.len() {
                            l@[i].view()
                        } else {
                            VarView::List(Seq::empty())
                        },
                ),
            ),
            Variable::Value(v) => VarView::Value(v.view()),
        }
    }

    /// Finds a variable inside this under a given name, whose levels are separated by dots.
    pub fn find(&self, variable: &str) -> (r: Option<&Variable>)
        ensures
            r matches Some(x) ==> find_view(self.view(), variable@) == Some(x.view()),
            r is None ==> find_view(self.view(), variable@) is None,
        decreases variable@.len(),
    {
        match self {
            Variable::Group(map) => {
                proof {
                    lemma_group_view(*map);
                }
                let chars = chars_of(variable);
                proof {
                    lemma_first_index(variable@, LEVEL_SEPARATOR);
                }
                let mut index: usize = 0;
                while index < chars.len() && chars[index] != LEVEL_SEPARATOR
                    invariant
                        index <= chars@.len(),
                        chars@ == variable@,
                        forall|j: int| 0 <= j < index ==> chars@[j] != LEVEL_SEPARATOR,
                    decreases chars@.len() - index,
                {
                    index = index + 1;
                }
                if index < chars.len() {
                    proof {
                        let f = first_index(variable@, LEVEL_SEPARATOR);
                        if f != Some(index as int) {
                            if let Some(m) = f {
                                assert(m < index || m > index);
                            }
                        }
                    }
                    let head = string_of(&chars, 0, index);
                    let tail = string_of(&chars, index + 1, chars.len());
                    match group_index(map, &head) {
                        Some(i) => map[i].1.find(tail.as_str()),
                        None => None,
                    }
                } else {
                    let whole = string_of(&chars, 0, chars.len());
                    assert(whole@ =~= variable@);
                    match group_index(map, &whole) {
                        Some(i) => Some(&map[i].1),
                        None => None,
                    }
                }
            },
            _ => None,
        }
    }

    /// Merges another variable into this one: groups are merged child by child, lists are
    /// appended to, and in every other case this variable is overwritten.
    pub fn merge(&mut self, other: &Variable)
        ensures
            final(self).view() == merged(old(self).view(), other.view()),
        decreases other,
    {
        match (self, other) {
            (Variable::Group(mine), Variable::Group(not)) => {
                proof {
                    lemma_group_view(*not);
                    lemma_group_view(*mine);
                }
                let ghost ga = gview(mine@);
                let ghost gb = gview(not@);
                let mut j: usize = 0;
                while j < not.len()
                    invariant
                        *other == Variable::Group(*not),
                        j <= not@.len(),
                        gb == gview(not@),
                        gview(mine@) == merged_groups(ga, gb.take(j as int)),
                    decreases not@.len() - j,
                {
                    let ghost acc = gview(mine@);
                    assert(gb.take(j as int + 1).drop_last() =~= gb.take(j as int));
                    proof {
                        assert(decreases_to!(*other => (*other)->Group_0));
                        let nv = *not;
                        assert(decreases_to!(nv => nv@));
                        assert(decreases_to!(nv@ => nv@[j as int]));
                        assert(decreases_to!(nv@[j as int] => nv@[j as int].1));
                    }
                    match group_index(mine, &not[j as usize].0) {
                        Some(i) => {
                            let mut entry = mine.remove(i);
                            entry.1.merge(&not[j].1);
                            mine.insert(i, entry);
                            assert(gview(mine@) =~= acc.update(
                                i as int,
                                (gb[j as int].0, merged(acc[i as int].1, gb[j as int].1)),
                            ));
                        },
                        None => {
                            let c = not[j].1.copy();
                            mine.push((copy_string(&not[j].0), c));
                            assert(gview(mine@) =~= acc.push(gb[j as int]));
                        },
                    }
                    j = j + 1;
                }
                assert(gb.take(not@.len() as int) =~= gb);
                proof {
                    lemma_group_view(*mine);
                }
            },
            (Variable::List(mine), Variable::List(not)) => {
                proof {
                    lemma_list_view(*not);
                    lemma_list_view(*mine);
                }
                let ghost la = lview(mine@);
                let mut j: usize = 0;
                while j < not.len()
                    invariant
                        j <= not@.len(),
                        lview(mine@) == la + lview(not@).take(j as int),
                    decreases not@.len() - j,
                {
                    let ghost before = mine@;
                    let c = not[j].copy();
                    mine.push(c);
                    assert(mine@ == before.push(c));
                    assert(lview(mine@) =~= lview(before).push(lview(not@)[j as int]));
                    assert(lview(not@).take(j as int + 1) =~= lview(not@).take(j as int).push(
                        lview(not@)[j as int],
                    ));
                    j = j + 1;
                }
                assert(lview(not@).take(not@.len() as int) =~= lview(not@));
                proof {
                    lemma_list_view(*mine);
                }
            },
            (mine, other) => {
                *mine = other.copy();
            },
        }
    }

    /// The empty group, the base every variable tree is merged into.
    pub fn base() -> (r: Variable)
        ensures
            r.view() == VarView::Group(Seq::empty()),
    {
        let r = Variable::Group(Vec::new());
        assert(r.view()->Group_0 =~= Seq::<(Seq<char>, VarView)>::empty());
        r
    }

    /// Copies the variable with all its children.
    pub fn copy(&self) -> (r: Variable)
        ensures
            r.view() == self.view(),
        decreases self,
    {
        match self {
            Variable::Group(g) => {
                let mut out: Vec<(String, Variable)> = Vec::new();
                let mut i: usize = 0;
                while i < g.len()
                    invariant
                        *self == Variable::Group(*g),
                        i <= g@.len(),
                        out@.len() == i,
                        forall|j: int| 0 <= j < i ==> out@[j].0@ == g@[j].0@,
                        forall|j: int| 0 <= j < i ==> out@[j].1.view() == g@[j].1.view(),
                    decreases g@.len() - i,
                {
                    proof {
                        let gv = *g;
                        assert(decreases_to!(gv => gv@));
                        assert(decreases_to!(gv@ => gv@[i as int]));
                        assert(decreases_to!(gv@[i as int] => gv@[i as int].1));
                        assert(decreases_to!(*self => (*self)->Group_0));
                    }
                    let c = g[i].1.copy();
                    out.push((copy_string(&g[i].0), c));
                    i = i + 1;
                }
                let r = Variable::Group(out);
                assert forall|j: int| 0 <= j < g@.len() implies #[trigger] r.view()->Group_0[j]
                    == self.view()->Group_0[j] by {
                    assert(out@[j].0@ == g@[j].0@ && out@[j].1.view() == g@[j].1.view());
                }
                assert(r.view()->Group_0 =~= self.view()->Group_0);
                r
            },
            Variable::List(l) => {
                let mut out: Vec<Variable> = Vec::new();
                let mut i: usize = 0;
                while i < l.len()
                    invariant
                        *self == Variable::List(*l),
                        i <= l@.len(),
                        out@.len() == i,
                        forall|j: int| 0 <= j < i ==> #[trigger] out@[j].view() == l@[j].view(),
                    decreases l@.len() - i,
                {
                    proof {
                        let lv = *l;
                        assert(decreases_to!(lv => lv@));
                        assert(decreases_to!(lv@ => lv@[i as int]));
                        assert(decreases_to!(*self => (*self)->List_0));
                    }
                    let c = l[i].copy();
                    out.push(c);
                    i = i + 1;
                }
                let r = Variable::List(out);
                assert forall|j: int| 0 <= j < l@.len() implies #[trigger] r.view()->List_0[j]
                    == self.view()->List_0[j] by {
                    assert(out@[j].view() == l@[j].view());
                }
                assert(r.view()->List_0 =~= self.view()->List_0);
                r
            },
            Variable::Value(v) => Variable::Value(v.copy()),
        }
    }
}

/// The view of the entries of a group.
pub open spec fn gview(g: Seq<(String, Variable)>) -> Seq<(Seq<char>, VarView)> {
    Seq::new(g.len(), |i: int| (g[i].0@, g[i].1.view()))
}

/// The view of the items of a list.
pub open spec fn lview(l: Seq<Variable>) -> Seq<VarView> {
    Seq::new(l.len(), |i: int| l[i].view())
}

pub proof fn lemma_group_view(g: Vec<(String, Variable)>)
    ensures
        Variable::Group(g).view() == VarView::Group(gview(g@)),
{
    assert(Variable::Group(g).view()->Group_0 =~= gview(g@));
}

pub proof fn lemma_list_view(l: Vec<Variable>)
    ensures
        Variable::List(l).view() == VarView::List(lview(l@)),
{
    assert(Variable::List(l).view()->List_0 =~= lview(l@));
}

/// Finds the position of the entry named `key`.
pub fn group_index(g: &Vec<(String, Variable)>, key: &String) -> (r: Option<usize>)
    ensures
        r matches Some(i) ==> key_index(gview(g@), key@) == Some(i as int) && i < g@.len() && g@[i as int].0@
            == key@,
        r is None ==> key_index(gview(g@), key@) is None,
{
    proof {
        lemma_key_index(gview(g@), key@);
    }
    let mut i: usize = 0;
    while i < g.len()
        invariant
            i <= g@.len(),
            forall|j: int| 0 <= j < i ==> gview(g@)[j].0 != key@,
        decreases g@.len() - i,
    {
        if g[i].0 == *key {
            proof {
                lemma_key_index(gview(g@), key@);
                assert(gview(g@)[i as int].0 == key@);
                if key_index(gview(g@), key@) != Some(i as int) {
                    let k = key_index(gview(g@), key@);
                    if let Some(m) = k {
                        assert(m < i || m > i);
                    }
                }
            }
            return Some(i);
        }
        i = i + 1;
    }
    None
}

/// The index of the first entry of `g` named `key`.
pub open spec fn key_index(g: Seq<(Seq<char>, VarView)>, key: Seq<char>) -> Option<int>
    decreases g.len(),
{
    if g.len() == 0 {
        None
    } else {
        match key_index(g.drop_last(), key) {
            Some(i) => Some(i),
            None => if g.last().0 == key {
                Some(g.len() - 1)
            } else {
                None
            },
        }
    }
}

/// The child of a group named `key`.
pub open spec fn lookup(g: Seq<(Seq<char>, VarView)>, key: Seq<char>) -> Option<VarView> {
    match key_index(g, key) {
        Some(i) => Some(g[i].1),
        None => None,
    }
}

pub proof fn lemma_key_index(g: Seq<(Seq<char>, VarView)>, key: Seq<char>)
    ensures
        key_index(g, key) matches Some(i) ==> 0 <= i < g.len() && g[i].0 == key && forall|j: int|
            0 <= j < i ==> g[j].0 != key,
        key_index(g, key) is None ==> forall|j: int| 0 <= j < g.len() ==> g[j].0 != key,
    decreases g.len(),
{
    if g.len() > 0 {
        let d = g.drop_last();
        lemma_key_index(d, key);
        assert forall|j: int| 0 <= j < d.len() implies d[j] == g[j] by {}
    }
}

/// The first position of `c` in `s`.
pub open spec fn first_index(s: Seq<char>, c: char) -> Option<int>
    decreases s.len(),
{
    if s.len() == 0 {
        None
    } else if s[0] == c {
        Some(0)
    } else {
        match first_index(s.drop_first(), c) {
            Some(i) => Some(i + 1),
            None => None,
        }
    }
}

pub proof fn lemma_first_index(s: Seq<char>, c: char)
    ensures
        first_index(s, c) matches Some(i) ==> 0 <= i < s.len() && s[i] == c && forall|j: int|
            0 <= j < i ==> s[j] != c,
        first_index(s, c) is None ==> forall|j: int| 0 <= j < s.len() ==> s[j] != c,
    decreases s.len(),
{
    if s.len() > 0 {
        lemma_first_index(s.drop_first(), c);
        if first_index(s.drop_first(), c) is None && s[0] != c {
            assert forall|j: int| 0 <= j < s.len() implies s[j] != c by {
                if j > 0 {
                    assert(s[j] == s.drop_first()[j - 1]);
                }
            }
        }
        if let Some(i) = first_index(s.drop_first(), c) {
            if s[0] != c {
                assert forall|j: int| 0 <= j < i + 1 implies s[j] != c by {
                    if j > 0 {
                        assert(s[j] == s.drop_first()[j - 1]);
                    }
                }
            }
        }
    }
}

/// What a dotted name refers to inside a variable: each level names a child of a group.
pub open spec fn find_view(v: VarView, name: Seq<char>) -> Option<VarView>
    decreases name.len(),
{
    match v {
        VarView::Group(g) => match first_index(name, LEVEL_SEPARATOR) {
            Some(i) => {
                if 0 <= i < name.len() {
                    match lookup(g, name.subrange(0, i)) {
                        Some(child) => find_view(child, name.subrange(i + 1, name.len() as int)),
                        None => None,
                    }
                } else {
                    None
                }
            },
            None => lookup(g, name),
        },
        _ => None,
    }
}

/// Whether the names in every group of the tree are pairwise distinct.
pub open spec fn well_formed(v: VarView) -> bool
    decreases v,
{
    match v {
        VarView::Group(g) => (forall|i: int, j: int|
            0 <= i < j < g.len() ==> #[trigger] g[i].0 != #[trigger] g[j].0) && (forall|i: int|
            0 <= i < g.len() ==> well_formed(#[trigger] g[i].1)),
        VarView::List(l) => forall|i: int| 0 <= i < l.len() ==> well_formed(#[trigger] l[i]),
        VarView::Value(_) => true,
    }
}

/// The result of merging `b` into `a`: groups are merged by name, lists are concatenated,
/// anything else is overwritten by `b`.
pub open spec fn merged(a: VarView, b: VarView) -> VarView
    decreases b,
{
    match (a, b) {
        (VarView::Group(ga), VarView::Group(gb)) => VarView::Group(merged_groups(ga, gb)),
        (VarView::List(la), VarView::List(lb)) => VarView::List(la + lb),
        _ => b,
    }
}

/// Merges the entries of `gb`, one after another, into `ga`.
pub open spec fn merged_groups(ga: Seq<(Seq<char>, VarView)>, gb: Seq<(Seq<char>, VarView)>) -> Seq<
    (Seq<char>, VarView),
>
    decreases gb,
{
    if gb.len() == 0 {
        ga
    } else {
        let acc = merged_groups(ga, gb.drop_last());
        let (k, v) = gb.last();
        match key_index(acc, k) {
            Some(i) => acc.update(i, (k, merged(acc[i].1, v))),
            None => acc.push((k, v)),
        }
    }
}

/// Whether two variable trees are equal: groups hold the same names with equal children, in
/// any order; lists hold equal items in the same order; numbers compare as IEEE-754 numbers.
pub open spec fn same_var(a: VarView, b: VarView) -> bool
    decreases a,
{
    match (a, b) {
        (VarView::Group(ga), VarView::Group(gb)) => ga.len() == gb.len() && forall|i: int|
            #![trigger ga[i]]
            0 <= i < ga.len() ==> match lookup(gb, ga[i].0) {
                Some(y) => same_var(ga[i].1, y),
                None => false,
            },
        (VarView::List(la), VarView::List(lb)) => la.len() == lb.len() && forall|i: int|
            #![trigger la[i]]
            0 <= i < la.len() ==> same_var(la[i], lb[i]),
        (VarView::Value(x), VarView::Value(y)) => same_value(x, y),
        _ => false,
    }
}

pub open spec fn same_value(x: ValueView, y: ValueView) -> bool {
    match (x, y) {
        (ValueView::String(a), ValueView::String(b)) => a == b,
        (ValueView::Number(a), ValueView::Number(b)) => crate::numbers::numbers_equal(a, b),
        (ValueView::Boolean(a), ValueView::Boolean(b)) => a == b,
        _ => false,
    }
}

impl Value {
    /// Whether two values are equal.
    pub fn equals(&self, other: &Value) -> (r: bool)
        ensures
            r == same_value(self.view(), other.view()),
    {
        match (self, other) {
            (Value::String(a), Value::String(b)) => crate::text::same_text(a, b),
            (Value::Number(a), Value::Number(b)) => crate::numbers::equal(*a, *b),
            (Value::Boolean(a), Value::Boolean(b)) => *a == *b,
            _ => false,
        }
    }
}

impl Variable {
    /// Whether two variable trees are equal.
    pub fn equals(&self, other: &Variable) -> (r: bool)
        ensures
            r == same_var(self.view(), other.view()),
        decreases self,
    {
        match (self, other) {
            (Variable::Group(ga), Variable::Group(gb)) => {
                proof {
                    lemma_group_view(*ga);
                    lemma_group_view(*gb);
                }
                if ga.len() != gb.len() {
                    return false;
                }
                let ghost va = gview(ga@);
                let ghost vb = gview(gb@);
                let mut i: usize = 0;
                while i < ga.len()
                    invariant
                        *self == Variable::Group(*ga),
                        *other == Variable::Group(*gb),
                        self.view() == VarView::Group(va),
                        other.view() == VarView::Group(vb),
                        va.len() == vb.len(),
                        va == gview(ga@),
                        vb == gview(gb@),
                        i <= ga@.len(),
                        forall|j: int| #![trigger va[j]] 0 <= j < i ==> match lookup(vb, va[j].0) {
                            Some(y) => same_var(va[j].1, y),
                            None => false,
                        },
                    decreases ga@.len() - i,
                {
                    proof {
                        let gv = *ga;
                        assert(decreases_to!(*self => (*self)->Group_0));
                        assert(decreases_to!(gv => gv@));
                        assert(decreases_to!(gv@ => gv@[i as int]));
                        assert(decreases_to!(gv@[i as int] => gv@[i as int].1));
                    }
                    match group_index(gb, &ga[i].0) {
                        Some(k) => {
                            if !ga[i].1.equals(&gb[k].1) {
                                assert(!(match lookup(vb, va[i as int].0) {
                                    Some(y) => same_var(va[i as int].1, y),
                                    None => false,
                                }));
                                return false;
                            }
                        },
                        None => {
                            assert(lookup(vb, va[i as int].0) is None);
                            return false;
                        },
                    }
                    i = i + 1;
                }
                true
            },
            (Variable::List(la), Variable::List(lb)) => {
                proof {
                    lemma_list_view(*la);
                    lemma_list_view(*lb);
                }
                if la.len() != lb.len() {
                    return false;
                }
                let ghost va = lview(la@);
                let ghost vb = lview(lb@);
                let mut i: usize = 0;
                while i < la.len()
                    invariant
                        *self == Variable::List(*la),
                        *other == Variable::List(*lb),
                        self.view() == VarView::List(va),
                        other.view() == VarView::List(vb),
                        va.len() == vb.len(),
                        va == lview(la@),
                        vb == lview(lb@),
                        la@.len() == lb@.len(),
                        i <= la@.len(),
                        forall|j: int| #![trigger va[j]] 0 <= j < i ==> same_var(va[j], vb[j]),
                    decreases la@.len() - i,
                {
                    proof {
                        let lv = *la;
                        assert(decreases_to!(*self => (*self)->List_0));
                        assert(decreases_to!(lv => lv@));
                        assert(decreases_to!(lv@ => lv@[i as int]));
                    }
                    if !la[i].equals(&lb[i]) {
                        assert(!same_var(va[i as int], vb[i as int]));
                        return false;
                    }
                    i = i + 1;
                }
                true
            },
            (Variable::Value(x), Variable::Value(y)) => x.equals(y),
            _ => false,
        }
    }
}

/// The view of an optional tree, an empty group when there is none.
pub open spec fn or_empty(v: Option<Variable>) -> VarView {
    match v {
        Some(x) => x.view(),
        None => VarView::Group(Seq::empty()),
    }
}

/// The variables a module builds with: its own, then those of its repository, those injected by
/// installed modules, the system's and the magic ones merged over each other in that order, so
/// that each level overrides the ones before it.
pub open spec fn layered(module: VarView, repository: VarView, injected: VarView, system: VarView, magic: VarView) -> VarView {
    merged(merged(merged(merged(merged(VarView::Group(Seq::empty()), module), repository), injected), system), magic)
}

/// Merges the variable levels a module builds with.
pub fn merge_variables(module: &Option<Variable>, repository: &Option<Variable>, injected: &Variable, system: &Variable, magic: &Variable) -> (r: Variable)
    ensures
        r.view() == layered(or_empty(*module), or_empty(*repository), injected.view(), system.view(), magic.view()),
{
    let mut r = Variable::base();
    match module {
        Some(m) => r.merge(m),
        None => r.merge(&Variable::base()),
    }
    match repository {
        Some(x) => r.merge(x),
        None => r.merge(&Variable::base()),
    }
    r.merge(injected);
    r.merge(system);
    r.merge(magic);
    r
}

/// The names of a group's entries.
pub open spec fn group_keys(g: Seq<(Seq<char>, VarView)>) -> Seq<Seq<char>> {
    Seq::new(g.len(), |i: int| g[i].0)
}

/// Whether no name occurs twice in a group.
pub open spec fn distinct_keys(g: Seq<(Seq<char>, VarView)>) -> bool {
    forall|i: int, j: int| 0 <= i < j < g.len() ==> (#[trigger] g[i]).0 != (#[trigger] g[j]).0
}

proof fn lemma_key_index_same_keys(g1: Seq<(Seq<char>, VarView)>, g2: Seq<(Seq<char>, VarView)>, k: Seq<char>)
    requires
        group_keys(g1) == group_keys(g2),
    ensures
        key_index(g1, k) == key_index(g2, k),
    decreases g1.len(),
{
    assert(g1.len() == group_keys(g1).len());
    assert(g2.len() == group_keys(g2).len());
    if g1.len() > 0 {
        assert(group_keys(g1.drop_last()) =~= group_keys(g2.drop_last())) by {
            assert forall|i: int| 0 <= i < g1.len() - 1 implies g1.drop_last()[i].0 == g2.drop_last()[i].0 by {
                assert(group_keys(g1)[i] == group_keys(g2)[i]);
            }
        }
        lemma_key_index_same_keys(g1.drop_last(), g2.drop_last(), k);
        assert(group_keys(g1)[g1.len() - 1] == group_keys(g2)[g2.len() - 1]);
    }
}

proof fn lemma_key_index_push(g: Seq<(Seq<char>, VarView)>, e: (Seq<char>, VarView), k: Seq<char>)
    ensures
        key_index(g.push(e), k) == match key_index(g, k) {
            Some(i) => Some(i),
            None => if e.0 == k { Some(g.len() as int) } else { None },
        },
{
    assert(g.push(e).drop_last() =~= g);
}

/// Merging a group into another, name by name: a name only the first group has keeps its entry,
/// a name only the second has takes its entry, and a name both have gets the second entry merged
/// into the first.
pub proof fn law_merge_lookup(ga: Seq<(Seq<char>, VarView)>, gb: Seq<(Seq<char>, VarView)>, k: Seq<char>)
    requires
        distinct_keys(gb),
    ensures
        lookup(merged_groups(ga, gb), k) == match key_index(gb, k) {
            None => lookup(ga, k),
            Some(j) => Some(
                match lookup(ga, k) {
                    Some(a) => merged(a, gb[j].1),
                    None => gb[j].1,
                },
            ),
        },
    decreases gb.len(),
{
    if gb.len() > 0 {
        let d = gb.drop_last();
        let (kl, vl) = gb.last();
        assert(distinct_keys(d)) by {
            assert forall|i: int, j: int| 0 <= i < j < d.len() implies (#[trigger] d[i]).0 != (#[trigger] d[j]).0 by {
                assert(d[i] == gb[i] && d[j] == gb[j]);
            }
        }
        law_merge_lookup(ga, d, k);
        let acc = merged_groups(ga, d);
        lemma_key_index(acc, kl);
        lemma_key_index(acc, k);
        lemma_key_index(d, k);
        if k == kl {
            assert(key_index(d, k) is None) by {
                if let Some(j) = key_index(d, k) {
                    assert(d[j] == gb[j]);
                    assert(gb[j].0 != gb[gb.len() - 1].0);
                }
            }
        }
        match key_index(acc, kl) {
            Some(i) => {
                let upd = acc.update(i, (kl, merged(acc[i].1, vl)));
                assert(group_keys(upd) =~= group_keys(acc));
                lemma_key_index_same_keys(upd, acc, k);
            },
            None => {
                lemma_key_index_push(acc, (kl, vl), k);
            },
        }
    }
}

} // verus!
