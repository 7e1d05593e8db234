//! Dependency resolution: which modules a change brings along, and in which order they go.
use vstd::prelude::*;
use crate::module::{Module, InstalledModule};
use crate::module::install::order::{finish_order, graph_of, closed_graph, acyclic, listed, depth_first_order};
use crate::module::qualifier::ModuleQualifier;
use crate::output::{Chooser, prompt_choice_module};
use crate::registry::index::{Index, Indexable, same_module, select};
use crate::text::push_text;
use crate::variables::evaluate::texts;
use crate::variables::token::text;

verus! {

/// Why a module is part of a change: the modules that need it, and those it needs.
pub struct ModuleMotivation {
    pub because: Vec<ModuleQualifier>,
    pub depends: Vec<ModuleQualifier>,
}

/// Whether a qualifier names the same module as one of a list.
pub open spec fn among(list: Seq<ModuleQualifier>, q: ModuleQualifier) -> bool {
    exists|i: int| 0 <= i < list.len() && same_module(#[trigger] list[i], q)
}

/// Whether a qualifier names the same module as one of a list.
pub fn is_among(list: &Vec<ModuleQualifier>, q: &ModuleQualifier) -> (r: bool)
    ensures
        r == among(list@, *q),
{
    let mut i: usize = 0;
    while i < list.len()
        invariant
            i <= list@.len(),
            forall|j: int| 0 <= j < i ==> !same_module(#[trigger] list@[j], *q),
        decreases list@.len() - i,
    {
        if list[i].same(q) {
            return true;
        }
        i = i + 1;
    }
    false
}

/// Whether a module is no longer wanted once the `failed` modules failed: it depends on one of
/// them, or every module that brought it in failed.
pub open spec fn unwanted(m: ModuleMotivation, failed: Seq<ModuleQualifier>) -> bool {
    (exists|i: int| 0 <= i < m.depends@.len() && among(failed, #[trigger] m.depends@[i]))
        || (m.because@.len() > 0 && forall|i: int| 0 <= i < m.because@.len() ==> among(failed, #[trigger] m.because@[i]))
}

impl ModuleMotivation {
    /// A motivation with no reasons.
    pub fn empty() -> (r: Self)
        ensures
            r.because@.len() == 0,
            r.depends@.len() == 0,
    {
        ModuleMotivation { because: Vec::new(), depends: Vec::new() }
    }

    /// Whether the module is no longer wanted once the `failed` modules failed: it depends on
    /// one of them, or it was only brought in by them.
    pub fn no_longer_satisfied(&self, failed: &Vec<ModuleQualifier>) -> (r: bool)
        ensures
            r == unwanted(*self, failed@),
    {
        let mut i: usize = 0;
        while i < self.depends.len()
            invariant
                i <= self.depends@.len(),
                forall|j: int| 0 <= j < i ==> !among(failed@, #[trigger] self.depends@[j]),
            decreases self.depends@.len() - i,
        {
            if is_among(failed, &self.depends[i]) {
                return true;
            }
            i = i + 1;
        }
        if self.because.len() == 0 {
            return false;
        }
        let mut k: usize = 0;
        while k < self.because.len()
            invariant
                k <= self.because@.len(),
                forall|j: int| 0 <= j < self.depends@.len() ==> !among(failed@, #[trigger] self.depends@[j]),
                forall|j: int| 0 <= j < k ==> among(failed@, #[trigger] self.because@[j]),
            decreases self.because@.len() - k,
        {
            if !is_among(failed, &self.because[k]) {
                return false;
            }
            k = k + 1;
        }
        true
    }
}

/// What happens to a module.
#[derive(Clone, Copy, PartialEq, Eq)]
pub enum ResolvingAction {
    Install,
    Reinstall,
    Update,
    Remove,
    /// The module is already installed and only stands in the tree.
    Placeholder,
}

/// Resolves the dependencies of the modules of a change.
pub struct Resolver {
    /// The modules that are installed or updated, each with the modules it depends on.
    pub dependency: Vec<(ModuleQualifier, Vec<ModuleQualifier>)>,
    /// The modules that are removed.
    pub removals: Vec<ModuleQualifier>,
    /// What happens to each module.
    pub action: Vec<(ModuleQualifier, ResolvingAction)>,
}

/// The position of the first entry of the tree for a module.
pub open spec fn tree_position(deps: Seq<(ModuleQualifier, Vec<ModuleQualifier>)>, q: ModuleQualifier) -> Option<int>
    decreases deps.len(),
{
    if deps.len() == 0 {
        None
    } else {
        match tree_position(deps.drop_last(), q) {
            Some(i) => Some(i),
            None => if same_module(deps.last().0, q) {
                Some(deps.len() - 1)
            } else {
                None
            },
        }
    }
}

pub proof fn lemma_tree_position(deps: Seq<(ModuleQualifier, Vec<ModuleQualifier>)>, q: ModuleQualifier)
    ensures
        tree_position(deps, q) matches Some(i) ==> 0 <= i < deps.len() && same_module(deps[i].0, q)
            && forall|j: int| 0 <= j < i ==> !same_module(#[trigger] deps[j].0, q),
        tree_position(deps, q) is None ==> forall|j: int| 0 <= j < deps.len() ==> !same_module(#[trigger] deps[j].0, q),
    decreases deps.len(),
{
    if deps.len() > 0 {
        let d = deps.drop_last();
        lemma_tree_position(d, q);
        assert forall|j: int| 0 <= j < d.len() implies d[j] == deps[j] by {}
    }
}

/// Every module that the tree depends on has an entry, and no module has two.
pub open spec fn complete_tree(deps: Seq<(ModuleQualifier, Vec<ModuleQualifier>)>) -> bool {
    &&& forall|i: int, j: int| 0 <= i < j < deps.len() ==> !same_module(#[trigger] deps[i].0, #[trigger] deps[j].0)
    &&& forall|i: int, j: int|
        0 <= i < deps.len() && 0 <= j < deps[i].1@.len() ==> #[trigger] tree_position(deps, deps[i].1@[j]) is Some
}

/// The tree as a graph on the positions of its entries.
pub open spec fn tree_graph(deps: Seq<(ModuleQualifier, Vec<ModuleQualifier>)>) -> Seq<Seq<usize>> {
    Seq::new(deps.len(), |i: int| Seq::new(deps[i].1@.len(), |j: int| tree_position(deps, deps[i].1@[j])->0 as usize))
}

/// What the actions say of a module, if anything.
pub open spec fn action_of(actions: Seq<(ModuleQualifier, ResolvingAction)>, q: ModuleQualifier) -> Option<ResolvingAction>
    decreases actions.len(),
{
    if actions.len() == 0 {
        None
    } else {
        match action_of(actions.drop_last(), q) {
            Some(a) => Some(a),
            None => if same_module(actions.last().0, q) {
                Some(actions.last().1)
            } else {
                None
            },
        }
    }
}

/// Whether the actions say `a` of a module.
pub open spec fn has_action(actions: Seq<(ModuleQualifier, ResolvingAction)>, q: ModuleQualifier, a: ResolvingAction) -> bool {
    action_of(actions, q) == Some(a)
}

/// Whether a module is pulled into the tree as a dependency: installed from what is offered,
/// or standing in it because it is installed already.
pub open spec fn pulled_in(actions: Seq<(ModuleQualifier, ResolvingAction)>, q: ModuleQualifier) -> bool {
    action_of(actions, q) == Some(ResolvingAction::Install) || action_of(actions, q) == Some(ResolvingAction::Placeholder)
}

/// Whether what the actions say of a module is what they said before, or that it is pulled in.
pub open spec fn kept_or_pulled_in(before: Seq<(ModuleQualifier, ResolvingAction)>, after: Seq<(ModuleQualifier, ResolvingAction)>, q: ModuleQualifier) -> bool {
    action_of(after, q) == action_of(before, q) || pulled_in(after, q)
}

/// Whether a module only stands in the tree because it is installed already.
pub open spec fn placeholder(actions: Seq<(ModuleQualifier, ResolvingAction)>, q: ModuleQualifier) -> bool {
    action_of(actions, q) == Some(ResolvingAction::Placeholder)
}

/// Whether a module of the order is the module of entry `i` of the tree.
pub open spec fn names_entry(deps: Seq<(ModuleQualifier, Vec<ModuleQualifier>)>, q: ModuleQualifier, i: int) -> bool {
    0 <= i < deps.len() && same_module(q, deps[i].0)
}

/// Whether a module of the order has an entry in the tree that does not only stand in it.
pub open spec fn kept(deps: Seq<(ModuleQualifier, Vec<ModuleQualifier>)>, actions: Seq<(ModuleQualifier, ResolvingAction)>, q: ModuleQualifier) -> bool {
    match tree_position(deps, q) {
        Some(i) => !placeholder(actions, deps[i].0),
        None => false,
    }
}

/// Whether the module of entry `i` of the tree occurs in the order.
pub open spec fn appears(deps: Seq<(ModuleQualifier, Vec<ModuleQualifier>)>, r: Seq<ModuleQualifier>, i: int) -> bool {
    exists|k: int| 0 <= k < r.len() && names_entry(deps, #[trigger] r[k], i)
}

/// The order the modules of a tree change in: each module of the tree that is not only a
/// placeholder comes exactly once, and before every module it depends on.
pub open spec fn change_order(deps: Seq<(ModuleQualifier, Vec<ModuleQualifier>)>, actions: Seq<(ModuleQualifier, ResolvingAction)>, r: Seq<ModuleQualifier>) -> bool {
    &&& forall|k: int| 0 <= k < r.len() ==> kept(deps, actions, #[trigger] r[k])
    &&& forall|a: int, b: int| 0 <= a < b < r.len() ==> !same_module(#[trigger] r[a], #[trigger] r[b])
    &&& forall|i: int| 0 <= i < deps.len() && !placeholder(actions, deps[i].0) ==> #[trigger] appears(deps, r, i)
    &&& forall|a: int, b: int, i: int, j: int|
        #![trigger names_entry(deps, r[a], i), same_module(r[b], deps[i].1@[j])]
        0 <= a < r.len() && 0 <= b < r.len() && names_entry(deps, r[a], i) && 0 <= j < deps[i].1@.len()
            && same_module(r[b], deps[i].1@[j]) ==> a < b
}

/// The modules of the tree's entries at the positions of `order`, in that order, leaving out
/// those that only stand in the tree.
pub open spec fn modules_at(deps: Seq<(ModuleQualifier, Vec<ModuleQualifier>)>, actions: Seq<(ModuleQualifier, ResolvingAction)>, order: Seq<usize>) -> Seq<ModuleQualifier>
    decreases order.len(),
{
    if order.len() == 0 {
        Seq::empty()
    } else {
        let rest = modules_at(deps, actions, order.drop_last());
        let q = deps[order.last() as int].0;
        if placeholder(actions, q) {
            rest
        } else {
            rest.push(q)
        }
    }
}

/// The order the modules of a tree change in: the depth-first order of the tree's graph, from
/// each module that nothing depends on in the order of the entries, without the modules that
/// only stand in the tree.
pub open spec fn tree_order(deps: Seq<(ModuleQualifier, Vec<ModuleQualifier>)>, actions: Seq<(ModuleQualifier, ResolvingAction)>) -> Seq<ModuleQualifier> {
    modules_at(deps, actions, depth_first_order(tree_graph(deps)))
}

/// No two entries of a complete tree are for the same module.
proof fn lemma_entry_unique(deps: Seq<(ModuleQualifier, Vec<ModuleQualifier>)>, x: int, y: int)
    requires
        complete_tree(deps),
        0 <= x < deps.len(),
        0 <= y < deps.len(),
        same_module(deps[x].0, deps[y].0),
    ensures
        x == y,
{
    if x < y {
        assert(!same_module(deps[x].0, deps[y].0));
    } else if y < x {
        assert(!same_module(deps[y].0, deps[x].0));
    }
}

/// The positions kept from a topological order of the tree's graph give the change order.
#[verifier::spinoff_prover]
#[verifier::rlimit(40)]
proof fn lemma_change_order(
    deps: Seq<(ModuleQualifier, Vec<ModuleQualifier>)>,
    acts: Seq<(ModuleQualifier, ResolvingAction)>,
    g: Seq<Seq<usize>>,
    order: Seq<usize>,
    src: Seq<int>,
    rs: Seq<ModuleQualifier>,
)
    requires
        complete_tree(deps),
        g == tree_graph(deps),
        forall|m: int| 0 <= m < order.len() ==> #[trigger] order[m] < g.len(),
        forall|a: int, b: int| 0 <= a < b < order.len() ==> #[trigger] order[a] != #[trigger] order[b],
        forall|v: int| 0 <= v < g.len() ==> #[trigger] listed(order, v),
        forall|a: int, b: int, j: int|
            #![trigger order[b], g[order[a] as int][j]]
            0 <= a < order.len() && 0 <= b < order.len() && 0 <= j < g[order[a] as int].len()
                && order[b] == g[order[a] as int][j] ==> a < b,
        src.len() == rs.len(),
        forall|m: int| 0 <= m < src.len() ==> 0 <= #[trigger] src[m] < order.len(),
        forall|a: int, b: int| 0 <= a < b < src.len() ==> #[trigger] src[a] < #[trigger] src[b],
        forall|m: int| 0 <= m < src.len() ==> same_module(#[trigger] rs[m], deps[order[src[m]] as int].0)
            && !placeholder(acts, deps[order[src[m]] as int].0),
        forall|m: int| 0 <= m < order.len() && !placeholder(acts, deps[order[m] as int].0) ==> exists|t: int|
            0 <= t < src.len() && #[trigger] src[t] == m,
    ensures
        change_order(deps, acts, rs),
{
    lemma_order_entries(deps, acts, g, order, src, rs);
    lemma_order_distinct(deps, acts, g, order, src, rs);
    lemma_order_complete(deps, acts, g, order, src, rs);
    lemma_order_topological(deps, acts, g, order, src, rs);
}

proof fn lemma_order_entries(
    deps: Seq<(ModuleQualifier, Vec<ModuleQualifier>)>,
    acts: Seq<(ModuleQualifier, ResolvingAction)>,
    g: Seq<Seq<usize>>,
    order: Seq<usize>,
    src: Seq<int>,
    rs: Seq<ModuleQualifier>,
)
    requires
        complete_tree(deps),
        g == tree_graph(deps),
        forall|m: int| 0 <= m < order.len() ==> #[trigger] order[m] < g.len(),
        src.len() == rs.len(),
        forall|m: int| 0 <= m < src.len() ==> 0 <= #[trigger] src[m] < order.len(),
        forall|m: int| 0 <= m < src.len() ==> same_module(#[trigger] rs[m], deps[order[src[m]] as int].0)
            && !placeholder(acts, deps[order[src[m]] as int].0),
    ensures
        forall|k: int| 0 <= k < rs.len() ==> kept(deps, acts, #[trigger] rs[k]),
{
    assert forall|m: int| 0 <= m < rs.len() implies kept(deps, acts, #[trigger] rs[m]) by {
        let x = order[src[m]] as int;
        assert(order[src[m]] < g.len());
        lemma_tree_position(deps, rs[m]);
        assert(same_module(deps[x].0, rs[m]));
        let p = tree_position(deps, rs[m])->0;
        if p != x {
            if p < x {
                assert(same_module(deps[p].0, deps[x].0));
                lemma_entry_unique(deps, p, x);
            } else {
                assert(!same_module(deps[x].0, rs[m]));
            }
        }
    }
}

proof fn lemma_order_distinct(
    deps: Seq<(ModuleQualifier, Vec<ModuleQualifier>)>,
    acts: Seq<(ModuleQualifier, ResolvingAction)>,
    g: Seq<Seq<usize>>,
    order: Seq<usize>,
    src: Seq<int>,
    rs: Seq<ModuleQualifier>,
)
    requires
        complete_tree(deps),
        g == tree_graph(deps),
        forall|m: int| 0 <= m < order.len() ==> #[trigger] order[m] < g.len(),
        forall|a: int, b: int| 0 <= a < b < order.len() ==> #[trigger] order[a] != #[trigger] order[b],
        src.len() == rs.len(),
        forall|m: int| 0 <= m < src.len() ==> 0 <= #[trigger] src[m] < order.len(),
        forall|a: int, b: int| 0 <= a < b < src.len() ==> #[trigger] src[a] < #[trigger] src[b],
        forall|m: int| 0 <= m < src.len() ==> same_module(#[trigger] rs[m], deps[order[src[m]] as int].0),
    ensures
        forall|a: int, b: int| 0 <= a < b < rs.len() ==> !same_module(#[trigger] rs[a], #[trigger] rs[b]),
{
    assert forall|a: int, b: int| 0 <= a < b < rs.len() implies !same_module(#[trigger] rs[a], #[trigger] rs[b]) by {
        let x = order[src[a]] as int;
        let y = order[src[b]] as int;
        assert(src[a] < src[b]);
        assert(order[src[a]] < g.len() && order[src[b]] < g.len());
        assert(x != y);
        if same_module(rs[a], rs[b]) {
            lemma_entry_unique(deps, x, y);
        }
    }
}

proof fn lemma_order_complete(
    deps: Seq<(ModuleQualifier, Vec<ModuleQualifier>)>,
    acts: Seq<(ModuleQualifier, ResolvingAction)>,
    g: Seq<Seq<usize>>,
    order: Seq<usize>,
    src: Seq<int>,
    rs: Seq<ModuleQualifier>,
)
    requires
        g == tree_graph(deps),
        forall|v: int| 0 <= v < g.len() ==> #[trigger] listed(order, v),
        src.len() == rs.len(),
        forall|m: int| 0 <= m < src.len() ==> 0 <= #[trigger] src[m] < order.len(),
        forall|m: int| 0 <= m < src.len() ==> same_module(#[trigger] rs[m], deps[order[src[m]] as int].0),
        forall|m: int| 0 <= m < order.len() && !placeholder(acts, deps[order[m] as int].0) ==> exists|t: int|
            0 <= t < src.len() && #[trigger] src[t] == m,
    ensures
        forall|i: int| 0 <= i < deps.len() && !placeholder(acts, deps[i].0) ==> #[trigger] appears(deps, rs, i),
{
    assert forall|i: int| 0 <= i < deps.len() && !placeholder(acts, deps[i].0) implies #[trigger] appears(deps, rs, i) by {
        assert(listed(order, i));
        let m = choose|m: int| 0 <= m < order.len() && order[m] == i;
        let t = choose|t: int| 0 <= t < src.len() && #[trigger] src[t] == m;
        assert(names_entry(deps, rs[t], i));
    }
}

proof fn lemma_order_topological(
    deps: Seq<(ModuleQualifier, Vec<ModuleQualifier>)>,
    acts: Seq<(ModuleQualifier, ResolvingAction)>,
    g: Seq<Seq<usize>>,
    order: Seq<usize>,
    src: Seq<int>,
    rs: Seq<ModuleQualifier>,
)
    requires
        complete_tree(deps),
        g == tree_graph(deps),
        forall|m: int| 0 <= m < order.len() ==> #[trigger] order[m] < g.len(),
        forall|a: int, b: int, j: int|
            #![trigger order[b], g[order[a] as int][j]]
            0 <= a < order.len() && 0 <= b < order.len() && 0 <= j < g[order[a] as int].len()
                && order[b] == g[order[a] as int][j] ==> a < b,
        src.len() == rs.len(),
        forall|m: int| 0 <= m < src.len() ==> 0 <= #[trigger] src[m] < order.len(),
        forall|a: int, b: int| 0 <= a < b < src.len() ==> #[trigger] src[a] < #[trigger] src[b],
        forall|m: int| 0 <= m < src.len() ==> same_module(#[trigger] rs[m], deps[order[src[m]] as int].0),
    ensures
        forall|a: int, b: int, i: int, j: int|
            #![trigger names_entry(deps, rs[a], i), same_module(rs[b], deps[i].1@[j])]
            0 <= a < rs.len() && 0 <= b < rs.len() && names_entry(deps, rs[a], i) && 0 <= j < deps[i].1@.len()
                && same_module(rs[b], deps[i].1@[j]) ==> a < b,
{
    assert forall|a: int, b: int, i: int, j: int|
        #![trigger names_entry(deps, rs[a], i), same_module(rs[b], deps[i].1@[j])]
        0 <= a < rs.len() && 0 <= b < rs.len() && names_entry(deps, rs[a], i) && 0 <= j < deps[i].1@.len()
            && same_module(rs[b], deps[i].1@[j]) implies a < b by {
        let x = order[src[a]] as int;
        let y = order[src[b]] as int;
        assert(order[src[a]] < g.len() && order[src[b]] < g.len());
        lemma_entry_unique(deps, x, i);
        let q = deps[i].1@[j];
        assert(tree_position(deps, q) is Some);
        lemma_tree_position(deps, q);
        let p = tree_position(deps, q)->0;
        lemma_entry_unique(deps, p, y);
        assert(g[i][j] == p as usize);
        assert(order[src[b]] == g[order[src[a]] as int][j]);
        assert(src[a] < src[b]);
        if a >= b {
            if a > b {
                assert(src[b] < src[a]);
            }
        }
    }
}

/// Finds the entry of the tree for a module.
fn find_entry(deps: &Vec<(ModuleQualifier, Vec<ModuleQualifier>)>, q: &ModuleQualifier) -> (r: Option<usize>)
    ensures
        match r {
            Some(i) => tree_position(deps@, *q) == Some(i as int) && i < deps@.len(),
            None => tree_position(deps@, *q) is None,
        },
{
    let mut i: usize = 0;
    while i < deps.len()
        invariant
            i <= deps@.len(),
            forall|j: int| 0 <= j < i ==> !same_module(#[trigger] deps@[j].0, *q),
        decreases deps@.len() - i,
    {
        if deps[i].0.same(q) {
            proof {
                lemma_tree_position(deps@, *q);
                if let Some(f) = tree_position(deps@, *q) {
                    if f > i {
                        assert(!same_module(deps@[i as int].0, *q));
                    }
                    if f < i {
                        assert(!same_module(deps@[f].0, *q));
                    }
                }
            }
            return Some(i);
        }
        i = i + 1;
    }
    proof {
        lemma_tree_position(deps@, *q);
        if let Some(f) = tree_position(deps@, *q) {
            assert(!same_module(deps@[f].0, *q));
        }
    }
    None
}

/// What the actions say of a module.
fn find_action(actions: &Vec<(ModuleQualifier, ResolvingAction)>, q: &ModuleQualifier) -> (r: Option<ResolvingAction>)
    ensures
        r == action_of(actions@, *q),
{
    let mut i: usize = 0;
    let mut found: Option<ResolvingAction> = None;
    while i < actions.len()
        invariant
            i <= actions@.len(),
            found == action_of(actions@.subrange(0, i as int), *q),
        decreases actions@.len() - i,
    {
        proof {
            assert(actions@.subrange(0, i + 1).drop_last() =~= actions@.subrange(0, i as int));
        }
        if found.is_none() && actions[i].0.same(q) {
            found = Some(actions[i].1);
        }
        i = i + 1;
    }
    assert(actions@.subrange(0, actions@.len() as int) =~= actions@);
    found
}

impl Resolver {
    /// A resolver with nothing to do.
    pub fn new() -> (r: Self)
        ensures
            r.dependency@.len() == 0,
            r.removals@.len() == 0,
            r.action@.len() == 0,
    {
        Resolver { dependency: Vec::new(), removals: Vec::new(), action: Vec::new() }
    }

    /// The tree as a graph on the positions of its entries.
    fn graph(&self) -> (adj: Vec<Vec<usize>>)
        requires
            complete_tree(self.dependency@),
        ensures
            graph_of(adj@) == tree_graph(self.dependency@),
            closed_graph(graph_of(adj@)),
    {
        let ghost deps = self.dependency@;
        let mut adj: Vec<Vec<usize>> = Vec::new();
        let mut i: usize = 0;
        while i < self.dependency.len()
            invariant
                deps == self.dependency@,
                complete_tree(deps),
                i <= deps.len(),
                adj@.len() == i,
                forall|k: int| 0 <= k < i ==> #[trigger] adj@[k]@ == tree_graph(deps)[k],
            decreases deps.len() - i,
        {
            let list = &self.dependency[i].1;
            let mut row: Vec<usize> = Vec::new();
            let mut j: usize = 0;
            while j < list.len()
                invariant
                    deps == self.dependency@,
                    complete_tree(deps),
                    i < deps.len(),
                    *list == deps[i as int].1,
                    j <= list@.len(),
                    row@.len() == j,
                    forall|k: int| 0 <= k < j ==> #[trigger] row@[k] == tree_position(deps, list@[k])->0 as usize,
                decreases list@.len() - j,
            {
                assert(tree_position(deps, deps[i as int].1@[j as int]) is Some);
                match find_entry(&self.dependency, &list[j]) {
                    Some(p) => row.push(p),
                    None => row.push(0),
                }
                j = j + 1;
            }
            assert(row@ =~= tree_graph(deps)[i as int]);
            adj.push(row);
            i = i + 1;
        }
        proof {
            assert(graph_of(adj@) =~= tree_graph(deps));
            assert forall|u: int, j: int| 0 <= u < graph_of(adj@).len() && 0 <= j < graph_of(adj@)[u].len()
                implies #[trigger] graph_of(adj@)[u][j] < graph_of(adj@).len() by {
                let q = deps[u].1@[j];
                assert(tree_position(deps, q) is Some);
                lemma_tree_position(deps, q);
            }
        }
        adj
    }

    /// The order in which the modules of the tree change: depth first from each module that
    /// nothing depends on, each module before the modules it depends on; modules that only stand
    /// in the tree are left out.
    pub fn get_order(&self) -> (r: Vec<ModuleQualifier>)
        requires
            complete_tree(self.dependency@),
            acyclic(tree_graph(self.dependency@)),
        ensures
            change_order(self.dependency@, self.action@, r@),
            same_qualifiers(r@, tree_order(self.dependency@, self.action@)),
    {
        let ghost deps = self.dependency@;
        let adj = self.graph();
        let order = finish_order(&adj);
        assert(order@ == depth_first_order(tree_graph(deps)));
        let mut r: Vec<ModuleQualifier> = Vec::new();
        let ghost mut src: Seq<int> = Seq::empty();
        let mut k: usize = 0;
        while k < order.len()
            invariant
                deps == self.dependency@,
                complete_tree(deps),
                graph_of(adj@) == tree_graph(deps),
                adj@.len() == deps.len(),
                k <= order@.len(),
                same_qualifiers(r@, modules_at(deps, self.action@, order@.subrange(0, k as int))),
                forall|m: int| 0 <= m < order@.len() ==> #[trigger] order@[m] < adj@.len(),
                forall|a: int, b: int| 0 <= a < b < order@.len() ==> #[trigger] order@[a] != #[trigger] order@[b],
                forall|v: int| 0 <= v < adj@.len() ==> #[trigger] listed(order@, v),
                forall|a: int, b: int, j: int|
                    #![trigger order@[b], adj@[order@[a] as int]@[j]]
                    0 <= a < order@.len() && 0 <= b < order@.len() && 0 <= j < adj@[order@[a] as int]@.len()
                        && order@[b] == adj@[order@[a] as int]@[j] ==> a < b,
                src.len() == r@.len(),
                forall|m: int| 0 <= m < src.len() ==> 0 <= #[trigger] src[m] < k,
                forall|a: int, b: int| 0 <= a < b < src.len() ==> #[trigger] src[a] < #[trigger] src[b],
                forall|m: int| 0 <= m < src.len() ==> same_module(#[trigger] r@[m], deps[order@[src[m]] as int].0)
                    && !placeholder(self.action@, deps[order@[src[m]] as int].0),
                forall|m: int| 0 <= m < k && !placeholder(self.action@, deps[order@[m] as int].0) ==> exists|t: int|
                    0 <= t < src.len() && #[trigger] src[t] == m,
            decreases order@.len() - k,
        {
            let v = order[k];
            let q = &self.dependency[v].0;
            let keep = match find_action(&self.action, q) {
                Some(ResolvingAction::Placeholder) => false,
                _ => true,
            };
            let ghost before = src;
            proof {
                assert(order@.subrange(0, k + 1).drop_last() =~= order@.subrange(0, k as int));
            }
            if keep {
                r.push(q.copy());
                proof {
                    src = src.push(k as int);
                    assert(src[src.len() - 1] == k);
                }
            }
            proof {
                assert forall|m: int| 0 <= m < k + 1 && !placeholder(self.action@, deps[order@[m] as int].0) implies exists|t: int|
                    0 <= t < src.len() && #[trigger] src[t] == m by {
                    if m < k {
                        let t = choose|t: int| 0 <= t < before.len() && #[trigger] before[t] == m;
                        assert(src[t] == m);
                    } else {
                        assert(src[src.len() - 1] == k);
                    }
                }
            }
            k = k + 1;
        }
        proof {
            lemma_change_order(deps, self.action@, graph_of(adj@), order@, src, r@);
            assert(order@.subrange(0, k as int) =~= order@);
        }
        r
    }
}

/// Resolving a module without dependencies only sets its entry in the tree, with no
/// dependencies, and its action.
pub open spec fn set_alone(before: Resolver, after: Resolver, q: ModuleQualifier, action: ResolvingAction) -> bool {
    &&& after.removals == before.removals
    &&& exists|c1: ModuleQualifier, c2: ModuleQualifier, d: Vec<ModuleQualifier>|
        #![trigger set_in_tree(before.dependency@, c1, d), set_in_tree(before.action@, c2, action)]
        same_module(c1, q) && same_module(c2, q) && d@.len() == 0 && set_in_tree(before.dependency@, c1, d)
            == after.dependency@ && after.action@ == set_in_tree(before.action@, c2, action)
}

/// Whether a list of entries has one for the module of `q`.
pub open spec fn in_tree<V>(tree: Seq<(ModuleQualifier, V)>, q: ModuleQualifier) -> bool {
    exists|i: int| 0 <= i < tree.len() && same_module(#[trigger] tree[i].0, q)
}

/// An entry for a module is an entry for every qualifier of the same module.
proof fn lemma_in_tree_same<V>(tree: Seq<(ModuleQualifier, V)>, a: ModuleQualifier, b: ModuleQualifier)
    requires
        in_tree(tree, a),
        same_module(a, b),
    ensures
        in_tree(tree, b),
{
    let j = choose|j: int| 0 <= j < tree.len() && same_module(#[trigger] tree[j].0, a);
    assert(same_module(tree[j].0, b));
}

/// Each entry after setting one is the entry set or the entry that stood at its place before,
/// and entries stay where they were.
pub proof fn lemma_set_in_tree_entries<V>(tree: Seq<(ModuleQualifier, V)>, c: ModuleQualifier, v: V)
    ensures
        tree.len() <= set_in_tree(tree, c, v).len(),
        forall|k: int|
            0 <= k < set_in_tree(tree, c, v).len() ==> #[trigger] set_in_tree(tree, c, v)[k] == (c, v) || (k < tree.len()
                && set_in_tree(tree, c, v)[k] == tree[k]),
        forall|k: int| 0 <= k < tree.len() ==> same_module(#[trigger] set_in_tree(tree, c, v)[k].0, tree[k].0),
{
    lemma_first_entry(tree, c);
}

/// No two entries are for the same module.
pub open spec fn unique_entries<V>(tree: Seq<(ModuleQualifier, V)>) -> bool {
    forall|i: int, j: int| 0 <= i < j < tree.len() ==> !same_module(#[trigger] tree[i].0, #[trigger] tree[j].0)
}

/// Setting an entry keeps the entries for different modules.
pub proof fn lemma_set_in_tree_unique<V>(tree: Seq<(ModuleQualifier, V)>, c: ModuleQualifier, v: V)
    requires
        unique_entries(tree),
    ensures
        unique_entries(set_in_tree(tree, c, v)),
{
    lemma_first_entry(tree, c);
    let t = set_in_tree(tree, c, v);
    assert forall|i: int, j: int| 0 <= i < j < t.len() implies !same_module(#[trigger] t[i].0, #[trigger] t[j].0) by {
        match first_entry(tree, c) {
            Some(x) => {
                if i == x {
                    assert(same_module(tree[x].0, c));
                    assert(t[j] == tree[j]);
                } else if j == x {
                    assert(same_module(tree[x].0, c));
                    assert(t[i] == tree[i]);
                } else {
                    assert(t[i] == tree[i] && t[j] == tree[j]);
                }
            },
            None => {
                if j == tree.len() {
                    assert(t[i] == tree[i]);
                } else {
                    assert(t[i] == tree[i] && t[j] == tree[j]);
                }
            },
        }
    }
}

/// A tree without an entry for `r` has none after an entry for another module is set.
pub proof fn lemma_tree_position_set(deps: Seq<(ModuleQualifier, Vec<ModuleQualifier>)>, c: ModuleQualifier, d: Vec<ModuleQualifier>, r: ModuleQualifier)
    requires
        tree_position(deps, r) is None,
        !same_module(c, r),
    ensures
        tree_position(set_in_tree(deps, c, d), r) is None,
{
    let t = set_in_tree(deps, c, d);
    lemma_tree_position(deps, r);
    lemma_set_in_tree_entries(deps, c, d);
    lemma_tree_position(t, r);
    if let Some(i) = tree_position(t, r) {
        if t[i] == (c, d) {
            assert(same_module(c, r));
        } else {
            assert(same_module(deps[i].0, r));
        }
    }
}

/// A tree has no entry for `r` when none of its entries is for that module.
pub proof fn lemma_tree_position_none(deps: Seq<(ModuleQualifier, Vec<ModuleQualifier>)>, r: ModuleQualifier)
    requires
        forall|k: int| 0 <= k < deps.len() ==> !same_module(#[trigger] deps[k].0, r),
    ensures
        tree_position(deps, r) is None,
{
    lemma_tree_position(deps, r);
}

/// Setting an entry keeps an entry for every module that had one.
proof fn lemma_set_in_tree_keeps<V>(tree: Seq<(ModuleQualifier, V)>, c: ModuleQualifier, v: V, q: ModuleQualifier)
    requires
        in_tree(tree, q),
    ensures
        in_tree(set_in_tree(tree, c, v), q),
{
    let j = choose|j: int| 0 <= j < tree.len() && same_module(#[trigger] tree[j].0, q);
    lemma_first_entry(tree, c);
    let t2 = set_in_tree(tree, c, v);
    match first_entry(tree, c) {
        Some(i) => {
            if i == j {
                assert(same_module(t2[i].0, q));
            } else {
                assert(t2[j] == tree[j]);
            }
        },
        None => {
            assert(t2[j] == tree[j]);
        },
    }
}

/// The tree with entry `q` set to `v`: the first entry for its module replaced, or a new entry
/// at the end.
pub open spec fn set_in_tree<V>(tree: Seq<(ModuleQualifier, V)>, q: ModuleQualifier, v: V) -> Seq<(ModuleQualifier, V)>
    decreases tree.len(),
{
    match first_entry(tree, q) {
        Some(i) => tree.update(i, (q, v)),
        None => tree.push((q, v)),
    }
}

/// The position of the first entry for a module, in a list of any entries.
pub open spec fn first_entry<V>(tree: Seq<(ModuleQualifier, V)>, q: ModuleQualifier) -> Option<int>
    decreases tree.len(),
{
    if tree.len() == 0 {
        None
    } else {
        match first_entry(tree.drop_last(), q) {
            Some(i) => Some(i),
            None => if same_module(tree.last().0, q) {
                Some(tree.len() - 1)
            } else {
                None
            },
        }
    }
}

pub proof fn lemma_first_entry<V>(tree: Seq<(ModuleQualifier, V)>, q: ModuleQualifier)
    ensures
        first_entry(tree, q) matches Some(i) ==> 0 <= i < tree.len() && same_module(tree[i].0, q)
            && forall|j: int| 0 <= j < i ==> !same_module(#[trigger] tree[j].0, q),
        first_entry(tree, q) is None ==> forall|j: int| 0 <= j < tree.len() ==> !same_module(#[trigger] tree[j].0, q),
    decreases tree.len(),
{
    if tree.len() > 0 {
        let d = tree.drop_last();
        lemma_first_entry(d, q);
        assert forall|j: int| 0 <= j < d.len() implies d[j] == tree[j] by {}
    }
}

/// Finds the first entry for a module.
fn entry_position<V>(tree: &Vec<(ModuleQualifier, V)>, q: &ModuleQualifier) -> (r: Option<usize>)
    ensures
        match r {
            Some(i) => first_entry(tree@, *q) == Some(i as int) && i < tree@.len(),
            None => first_entry(tree@, *q) is None,
        },
{
    let mut i: usize = 0;
    while i < tree.len()
        invariant
            i <= tree@.len(),
            forall|j: int| 0 <= j < i ==> !same_module(#[trigger] tree@[j].0, *q),
        decreases tree@.len() - i,
    {
        if tree[i].0.same(q) {
            proof {
                lemma_first_entry(tree@, *q);
                if let Some(f) = first_entry(tree@, *q) {
                    if f > i {
                        assert(!same_module(tree@[i as int].0, *q));
                    }
                    if f < i {
                        assert(!same_module(tree@[f].0, *q));
                    }
                }
            }
            return Some(i);
        }
        i = i + 1;
    }
    proof {
        lemma_first_entry(tree@, *q);
        if let Some(f) = first_entry(tree@, *q) {
            assert(!same_module(tree@[f].0, *q));
        }
    }
    None
}

/// Sets the entry for a module: replaces the first one for it, or adds one at the end.
fn set_entry<V>(tree: &mut Vec<(ModuleQualifier, V)>, q: ModuleQualifier, v: V)
    ensures
        final(tree)@ == set_in_tree(old(tree)@, q, v),
{
    match entry_position(tree, &q) {
        Some(i) => {
            tree.set(i, (q, v));
        },
        None => {
            tree.push((q, v));
        },
    }
}

/// Every item of a selection satisfies what it was selected by.
pub proof fn lemma_select<T>(s: Seq<T>, p: spec_fn(T) -> bool)
    ensures
        forall|k: int| 0 <= k < select(s, p).len() ==> p(#[trigger] select(s, p)[k]),
    decreases s.len(),
{
    if s.len() > 0 {
        lemma_select(s.drop_last(), p);
        let prev = select(s.drop_last(), p);
        if p(s.last()) {
            assert forall|k: int| 0 <= k < select(s, p).len() implies p(#[trigger] select(s, p)[k]) by {
                if k < prev.len() {
                    assert(select(s, p)[k] == prev[k]);
                }
            }
        }
    }
}

/// The entry `(q, deps)` resolves each dependency name to a module that provides it.
pub open spec fn resolves(deps: Seq<ModuleQualifier>, names: Seq<Seq<char>>) -> bool {
    deps.len() == names.len() && forall|j: int| 0 <= j < names.len() ==> #[trigger] deps[j].provides(names[j])
}

/// The installed module built first among some.
fn earliest(list: &Vec<&InstalledModule>) -> (r: usize)
    requires
        list@.len() > 0,
    ensures
        r < list@.len(),
        forall|k: int| 0 <= k < list@.len() ==> list@[r as int].built.time <= #[trigger] list@[k].built.time,
        forall|k: int| 0 <= k < r ==> list@[r as int].built.time < #[trigger] list@[k].built.time,
{
    let mut best: usize = 0;
    let mut i: usize = 1;
    while i < list.len()
        invariant
            1 <= i <= list@.len(),
            best < i,
            forall|k: int| 0 <= k < i ==> list@[best as int].built.time <= #[trigger] list@[k].built.time,
            forall|k: int| 0 <= k < best ==> list@[best as int].built.time < #[trigger] list@[k].built.time,
        decreases list@.len() - i,
    {
        if list[i].built.time < list[best].built.time {
            best = i;
        }
        i = i + 1;
    }
    best
}

/// Two qualifiers with the same fields, as a copy gives.
pub open spec fn same_qualifier(a: ModuleQualifier, b: ModuleQualifier) -> bool {
    &&& a.repository@ == b.repository@
    &&& a.dir@ == b.dir@
    &&& crate::module::qualifier::opt_view(a.alias) == crate::module::qualifier::opt_view(b.alias)
    &&& crate::module::qualifier::opt_view(a.provide) == crate::module::qualifier::opt_view(b.provide)
}

impl Resolver {
    /// Puts a module into the tree with its action and the modules it depends on.
    pub fn insert_change(&mut self, action: ResolvingAction, qualifier: ModuleQualifier, dependencies: Vec<ModuleQualifier>)
        ensures
            final(self).dependency@ == set_in_tree(old(self).dependency@, qualifier, dependencies),
            exists|c: ModuleQualifier| same_qualifier(c, qualifier) && final(self).action@ == set_in_tree(old(self).action@, c, action),
            final(self).removals == old(self).removals,
    {
        let q = qualifier.copy();
        set_entry(&mut self.dependency, qualifier, dependencies);
        set_entry(&mut self.action, q, action);
        assert(same_qualifier(q, qualifier));
    }

    /// Marks a module for removal; an error when an installed module depends on it specifically.
    pub fn remove(&mut self, module: &ModuleQualifier, local: &Index<InstalledModule>) -> (r: Result<(), String>)
        ensures
            r is Ok <==> removable(local.modules@, *module),
            r is Ok ==> exists|c1: ModuleQualifier, c2: ModuleQualifier| same_qualifier(c1, *module) && same_qualifier(c2, *module)
                && final(self).removals@ == old(self).removals@.push(c1)
                && final(self).action@ == set_in_tree(old(self).action@, c2, ResolvingAction::Remove)
                && final(self).dependency == old(self).dependency,
            r is Err ==> final(self).removals == old(self).removals && final(self).action == old(self).action
                && final(self).dependency == old(self).dependency,
    {
        let dependents = local.specific_dependents(module);
        if dependents.len() > 0 {
            return Err(text("failed to resolve dependencies"));
        }
        let c1 = module.copy();
        let c2 = module.copy();
        assert(same_qualifier(c1, *module) && same_qualifier(c2, *module));
        self.removals.push(c1);
        set_entry(&mut self.action, c2, ResolvingAction::Remove);
        Ok(())
    }
}

/// A module can be removed: no other installed module depends on it specifically.
pub open spec fn removable(local: Seq<InstalledModule>, q: ModuleQualifier) -> bool {
    select(local, |m: InstalledModule| !same_module(m.qualified(), q) && crate::registry::index::must_depend(local, m, q)).len() == 0
}

/// The actions say something of a module exactly when one of their entries is for it.
proof fn lemma_action_of_some(actions: Seq<(ModuleQualifier, ResolvingAction)>, q: ModuleQualifier)
    ensures
        action_of(actions, q) is Some <==> exists|j: int| 0 <= j < actions.len() && same_module(#[trigger] actions[j].0, q),
    decreases actions.len(),
{
    if actions.len() > 0 {
        let d = actions.drop_last();
        lemma_action_of_some(d, q);
        if action_of(d, q) is Some {
            let j = choose|j: int| 0 <= j < d.len() && same_module(#[trigger] d[j].0, q);
            assert(actions[j] == d[j]);
        } else if action_of(actions, q) is None {
            assert forall|j: int| 0 <= j < actions.len() implies !same_module(#[trigger] actions[j].0, q) by {
                if j < d.len() {
                    assert(actions[j] == d[j]);
                }
            }
        }
    }
}

/// What the actions say of a module is the action of its first entry.
proof fn lemma_action_first(actions: Seq<(ModuleQualifier, ResolvingAction)>, q: ModuleQualifier)
    ensures
        action_of(actions, q) == (match first_entry(actions, q) {
            Some(i) => Some(actions[i].1),
            None => None,
        }),
    decreases actions.len(),
{
    if actions.len() > 0 {
        let d = actions.drop_last();
        lemma_action_first(d, q);
        if let Some(i) = first_entry(d, q) {
            lemma_first_entry(d, q);
            assert(actions[i] == d[i]);
        }
    }
}

/// Setting the action of a module makes it what the actions say of every qualifier of that module.
pub proof fn lemma_action_set_exact(actions: Seq<(ModuleQualifier, ResolvingAction)>, c: ModuleQualifier, a: ResolvingAction, q: ModuleQualifier)
    requires
        same_module(c, q),
    ensures
        action_of(set_in_tree(actions, c, a), q) == Some(a),
{
    lemma_set_in_tree(actions, c, a, q);
    lemma_action_first(set_in_tree(actions, c, a), q);
}

/// Setting the action of a module leaves what the actions say of every other module.
pub proof fn lemma_action_set_other(actions: Seq<(ModuleQualifier, ResolvingAction)>, c: ModuleQualifier, a: ResolvingAction, q: ModuleQualifier)
    requires
        !same_module(c, q),
    ensures
        action_of(set_in_tree(actions, c, a), q) == action_of(actions, q),
{
    let t = set_in_tree(actions, c, a);
    lemma_action_first(actions, q);
    lemma_action_first(t, q);
    lemma_first_entry(actions, q);
    lemma_first_entry(t, q);
    lemma_first_entry(actions, c);
    lemma_set_in_tree_entries(actions, c, a);
    match first_entry(actions, c) {
        Some(i) => {
            assert(t.len() == actions.len());
            assert(!same_module(t[i].0, q));
            assert(!same_module(actions[i].0, q));
            match first_entry(actions, q) {
                Some(j) => {
                    assert(t[j] == actions[j]);
                    if let Some(f) = first_entry(t, q) {
                        assert(t[f] == actions[f]);
                    }
                },
                None => {
                    if let Some(f) = first_entry(t, q) {
                        assert(t[f] == actions[f]);
                    }
                },
            }
        },
        None => {
            assert(!same_module(t[actions.len() as int].0, q));
            match first_entry(actions, q) {
                Some(j) => {
                    assert(t[j] == actions[j]);
                    if let Some(f) = first_entry(t, q) {
                        assert(t[f] == actions[f]);
                    }
                },
                None => {
                    if let Some(f) = first_entry(t, q) {
                        assert(t[f] == actions[f]);
                    }
                },
            }
        },
    }
}

/// Pulling a module in keeps every module kept or pulled in, and pulls in the module set.
proof fn lemma_pull_in(act0: Seq<(ModuleQualifier, ResolvingAction)>, before: Seq<(ModuleQualifier, ResolvingAction)>, c: ModuleQualifier, a: ResolvingAction, q: ModuleQualifier)
    requires
        a == ResolvingAction::Install || a == ResolvingAction::Placeholder,
    ensures
        kept_or_pulled_in(act0, before, q) ==> kept_or_pulled_in(act0, set_in_tree(before, c, a), q),
        pulled_in(before, q) ==> pulled_in(set_in_tree(before, c, a), q),
        same_module(c, q) ==> pulled_in(set_in_tree(before, c, a), q),
{
    if same_module(c, q) {
        lemma_action_set_exact(before, c, a, q);
    } else {
        lemma_action_set_other(before, c, a, q);
    }
}

/// An entry in the tree after setting one is an entry that stood there before, or the one set.
proof fn lemma_in_tree_set<V>(tree: Seq<(ModuleQualifier, V)>, c: ModuleQualifier, v: V, q: ModuleQualifier)
    requires
        in_tree(set_in_tree(tree, c, v), q),
    ensures
        in_tree(tree, q) || same_module(c, q),
{
    let t = set_in_tree(tree, c, v);
    lemma_set_in_tree_entries(tree, c, v);
    let j = choose|j: int| 0 <= j < t.len() && same_module(#[trigger] t[j].0, q);
    if t[j] != (c, v) {
        assert(same_module(tree[j].0, q));
    }
}

/// Setting an action keeps what the actions say of every module, and says something of the
/// module it is set for.
pub proof fn lemma_action_set_in_tree(actions: Seq<(ModuleQualifier, ResolvingAction)>, c: ModuleQualifier, a: ResolvingAction, q: ModuleQualifier)
    requires
        action_of(actions, q) is Some || same_module(c, q),
    ensures
        action_of(set_in_tree(actions, c, a), q) is Some,
{
    let t = set_in_tree(actions, c, a);
    lemma_action_of_some(actions, q);
    lemma_action_of_some(t, q);
    lemma_first_entry(actions, c);
    match first_entry(actions, c) {
        Some(i) => {
            if same_module(c, q) {
                assert(same_module(t[i].0, q));
            } else {
                let j = choose|j: int| 0 <= j < actions.len() && same_module(#[trigger] actions[j].0, q);
                if j == i {
                    assert(same_module(t[i].0, q));
                } else {
                    assert(t[j] == actions[j]);
                }
            }
        },
        None => {
            if same_module(c, q) {
                assert(same_module(t[actions.len() as int].0, q));
            } else {
                let j = choose|j: int| 0 <= j < actions.len() && same_module(#[trigger] actions[j].0, q);
                assert(t[j] == actions[j]);
            }
        },
    }
}

proof fn lemma_first_entry_same<V>(tree: Seq<(ModuleQualifier, V)>, a: ModuleQualifier, b: ModuleQualifier)
    requires
        same_module(a, b),
    ensures
        first_entry(tree, a) == first_entry(tree, b),
    decreases tree.len(),
{
    if tree.len() > 0 {
        lemma_first_entry_same(tree.drop_last(), a, b);
    }
}

/// After an entry is set, the first entry for its module holds what was set.
proof fn lemma_set_in_tree<V>(tree: Seq<(ModuleQualifier, V)>, c: ModuleQualifier, v: V, q: ModuleQualifier)
    requires
        same_module(c, q),
    ensures
        first_entry(set_in_tree(tree, c, v), q) matches Some(i) && set_in_tree(tree, c, v)[i] == (c, v),
{
    lemma_first_entry(tree, c);
    let t2 = set_in_tree(tree, c, v);
    lemma_first_entry(t2, c);
    lemma_first_entry_same(t2, c, q);
    match first_entry(tree, c) {
        Some(i) => {
            assert(t2[i].0 == c);
            if let Some(f) = first_entry(t2, c) {
                if f < i {
                    assert(t2[f] == tree[f]);
                }
                if f > i {
                    assert(!same_module(t2[i].0, c));
                }
            }
        },
        None => {
            assert(t2[tree.len() as int].0 == c);
            if let Some(f) = first_entry(t2, c) {
                if f < tree.len() {
                    assert(t2[f] == tree[f]);
                }
            }
        },
    }
}

/// Every one of the dependencies is provided by an installed module, so resolving them needs no
/// choice.
pub open spec fn installed_provide(names: Seq<String>, local: Seq<InstalledModule>) -> bool {
    forall|k: int|
        #![trigger names[k]]
        0 <= k < names.len() ==> exists|i: int|
            0 <= i < local.len() && #[trigger] local[i].qualified().provides(names[k]@)
}

/// Selecting from a sequence that holds an element meeting the predicate gives something.
proof fn lemma_select_nonempty<T>(s: Seq<T>, p: spec_fn(T) -> bool, i: int)
    requires
        0 <= i < s.len(),
        p(s[i]),
    ensures
        select(s, p).len() > 0,
    decreases s.len(),
{
    if i < s.len() - 1 && !p(s.last()) {
        assert(s.drop_last()[i] == s[i]);
        lemma_select_nonempty(s.drop_last(), p, i);
    }
}

impl Resolver {
    /// Resolves a module and its dependencies into the tree, choosing among several modules
    /// that provide a dependency, at most `fuel` levels deep.
    fn resolve_within<C: Chooser>(
        &mut self,
        module: &Module,
        action: ResolvingAction,
        local: &Index<InstalledModule>,
        available: &Index<Module>,
        chooser: &C,
        fuel: usize,
    ) -> (r: Result<(), String>)
        ensures
            r is Ok ==> (first_entry(final(self).dependency@, module.qualifier) matches Some(i)
                && resolves(final(self).dependency@[i].1@, texts(module.dependencies@))),
            installed_provide(module.dependencies@, local.modules@) ==> r is Ok,
            r is Ok ==> final(self).removals == old(self).removals && forall|q: ModuleQualifier|
                in_tree(old(self).dependency@, q) ==> #[trigger] in_tree(final(self).dependency@, q),
            module.dependencies@.len() == 0 ==> set_alone(*old(self), *final(self), module.qualifier, action),
            r is Ok ==> has_action(final(self).action@, module.qualifier, action),
            r is Ok ==> forall|q: ModuleQualifier|
                same_module(q, module.qualifier) || #[trigger] kept_or_pulled_in(old(self).action@, final(self).action@, q),
            r is Ok ==> forall|q: ModuleQualifier| #[trigger] in_tree(final(self).dependency@, q) ==> in_tree(old(self).dependency@, q)
                || same_module(q, module.qualifier) || pulled_in(final(self).action@, q),
            r is Ok ==> (first_entry(final(self).dependency@, module.qualifier) matches Some(i) && forall|k: int|
                0 <= k < final(self).dependency@[i].1@.len() ==> in_tree(old(self).dependency@, #[trigger] final(self).dependency@[i].1@[k])
                    || same_module(final(self).dependency@[i].1@[k], module.qualifier)
                    || pulled_in(final(self).action@, final(self).dependency@[i].1@[k])),
        decreases fuel,
    {
        let ghost dep0 = self.dependency@;
        let ghost act0 = self.action@;
        let ghost removals0 = self.removals;
        let names = &module.dependencies;
        let mut dependencies: Vec<ModuleQualifier> = Vec::new();
        let mut j: usize = 0;
        while j < names.len()
            invariant
                j <= names@.len(),
                dependencies@.len() == j,
                forall|k: int| 0 <= k < j ==> #[trigger] dependencies@[k].provides(names@[k]@),
                *names == module.dependencies,
                self.removals == removals0,
                forall|q: ModuleQualifier| in_tree(dep0, q) ==> #[trigger] in_tree(self.dependency@, q),
                names@.len() == 0 ==> self.dependency@ == dep0 && self.action@ == act0,
                forall|q: ModuleQualifier| #[trigger] kept_or_pulled_in(act0, self.action@, q),
                forall|q: ModuleQualifier| #[trigger] in_tree(self.dependency@, q) ==> in_tree(dep0, q) || pulled_in(self.action@, q),
                forall|k: int| 0 <= k < j ==> in_tree(dep0, #[trigger] dependencies@[k]) || pulled_in(self.action@, dependencies@[k]),
            decreases names@.len() - j,
        {
            let dep = names[j].as_str();
            let mut found: Option<usize> = None;
            let mut t: usize = 0;
            while t < self.dependency.len()
                invariant
                    t <= self.dependency@.len(),
                    found matches Some(i) ==> i < self.dependency@.len() && self.dependency@[i as int].0.provides(dep@),
                decreases self.dependency@.len() - t,
            {
                if found.is_none() && self.dependency[t].0.does_provide(dep) {
                    found = Some(t);
                }
                t = t + 1;
            }
            if let Some(i) = found {
                let d = self.dependency[i].0.copy();
                proof {
                    let x = self.dependency@[i as int].0;
                    assert(same_module(self.dependency@[i as int].0, x));
                    assert(in_tree(self.dependency@, x));
                    if in_tree(dep0, x) {
                        lemma_in_tree_same(dep0, x, d);
                    } else {
                        lemma_action_same_module(self.action@, x, d);
                    }
                }
                dependencies.push(d);
            } else {
                let installed = local.providers(dep);
                if installed.len() > 0 {
                    let e = earliest(&installed);
                    proof {
                        lemma_select(local.modules@, |m: InstalledModule| m.qualified().provides(dep@));
                        assert(*installed@[e as int] == select(local.modules@, |m: InstalledModule| m.qualified().provides(dep@))[e as int]);
                    }
                    let q = installed[e].qualifier();
                    let ghost before = self.dependency@;
                    let qc = q.copy();
                    let none: Vec<ModuleQualifier> = Vec::new();
                    let ghost none_g = none;
                    let ghost act_b = self.action@;
                    self.insert_change(ResolvingAction::Placeholder, qc, none);
                    let d = q.copy();
                    proof {
                        assert forall|x: ModuleQualifier| in_tree(dep0, x) implies #[trigger] in_tree(self.dependency@, x) by {
                            assert(in_tree(before, x));
                            lemma_set_in_tree_keeps(before, qc, none_g, x);
                        }
                        let c = choose|c: ModuleQualifier| same_qualifier(c, qc) && self.action@ == set_in_tree(act_b, c, ResolvingAction::Placeholder);
                        assert forall|x: ModuleQualifier| #[trigger] kept_or_pulled_in(act0, self.action@, x) by {
                            lemma_pull_in(act0, act_b, c, ResolvingAction::Placeholder, x);
                        }
                        assert forall|x: ModuleQualifier| #[trigger] in_tree(self.dependency@, x) implies in_tree(dep0, x) || pulled_in(self.action@, x) by {
                            lemma_in_tree_set(before, qc, none_g, x);
                            lemma_pull_in(act0, act_b, c, ResolvingAction::Placeholder, x);
                        }
                        assert forall|k: int| 0 <= k < j implies in_tree(dep0, #[trigger] dependencies@[k]) || pulled_in(self.action@, dependencies@[k]) by {
                            lemma_pull_in(act0, act_b, c, ResolvingAction::Placeholder, dependencies@[k]);
                        }
                        lemma_pull_in(act0, act_b, c, ResolvingAction::Placeholder, d);
                    }
                    dependencies.push(d);
                } else {
                    proof {
                        if installed_provide(module.dependencies@, local.modules@) {
                            let i = choose|i: int|
                                0 <= i < local.modules@.len() && #[trigger] local.modules@[i].qualified().provides(names@[j as int]@);
                            lemma_select_nonempty(local.modules@, |m: InstalledModule| m.qualified().provides(dep@), i);
                        }
                    }
                    let providers = available.providers(dep);
                    let mut message = text("Multiple modules provide dependency '");
                    push_text(&mut message, dep);
                    push_text(&mut message, "' for ");
                    push_text(&mut message, module.qualifier.unique().as_str());
                    push_text(&mut message, ", choose:");
                    match prompt_choice_module(&providers, message.as_str(), chooser) {
                        Some(c) => {
                            if fuel == 0 {
                                return Err(text("dependencies depend on each other"));
                            }
                            proof {
                                lemma_select(available.modules@, |m: Module| m.qualified().provides(dep@));
                                assert(*providers@[c as int] == select(available.modules@, |m: Module| m.qualified().provides(dep@))[c as int]);
                            }
                            let m = providers[c];
                            let ghost act_b = self.action@;
                            let ghost dep_b = self.dependency@;
                            self.resolve_within(m, ResolvingAction::Install, local, available, chooser, fuel - 1)?;
                            let d = m.qualifier.copy();
                            proof {
                                assert forall|x: ModuleQualifier| #[trigger] kept_or_pulled_in(act0, self.action@, x) && (pulled_in(act_b, x) ==> pulled_in(self.action@, x)) by {
                                    if same_module(x, m.qualifier) {
                                        lemma_action_same_module(self.action@, m.qualifier, x);
                                    } else {
                                        assert(kept_or_pulled_in(act_b, self.action@, x));
                                        assert(kept_or_pulled_in(act0, act_b, x));
                                    }
                                }
                                assert forall|x: ModuleQualifier| #[trigger] in_tree(self.dependency@, x) implies in_tree(dep0, x) || pulled_in(self.action@, x) by {
                                    assert(kept_or_pulled_in(act0, self.action@, x));
                                    if same_module(x, m.qualifier) {
                                        lemma_action_same_module(self.action@, m.qualifier, x);
                                    } else if in_tree(dep_b, x) {
                                        assert(in_tree(dep0, x) || pulled_in(act_b, x));
                                    }
                                }
                                assert forall|k: int| 0 <= k < j implies in_tree(dep0, #[trigger] dependencies@[k]) || pulled_in(self.action@, dependencies@[k]) by {
                                    assert(kept_or_pulled_in(act0, self.action@, dependencies@[k]));
                                }
                                lemma_action_same_module(self.action@, m.qualifier, d);
                            }
                            dependencies.push(d);
                        },
                        None => {
                            return Err(text("could not resolve dependencies"));
                        },
                    }
                }
            }
            j = j + 1;
        }
        let key = module.qualifier.copy();
        proof {
            lemma_set_in_tree(self.dependency@, key, dependencies, module.qualifier);
        }
        let ghost before = self.dependency@;
        let ghost before_act = self.action@;
        let ghost deps_g = dependencies;
        self.insert_change(action, key, dependencies);
        proof {
            assert forall|x: ModuleQualifier| in_tree(dep0, x) implies #[trigger] in_tree(self.dependency@, x) by {
                assert(in_tree(before, x));
                lemma_set_in_tree_keeps(before, key, deps_g, x);
            }
            let ca = choose|c: ModuleQualifier| same_qualifier(c, key) && self.action@ == set_in_tree(before_act, c, action);
            lemma_action_set_exact(before_act, ca, action, module.qualifier);
            assert(same_module(ca, module.qualifier));
            assert forall|x: ModuleQualifier| !same_module(x, module.qualifier) implies action_of(self.action@, x) == action_of(before_act, x) by {
                lemma_action_set_other(before_act, ca, action, x);
            }
            assert forall|x: ModuleQualifier| same_module(x, module.qualifier) || #[trigger] kept_or_pulled_in(act0, self.action@, x) by {
                assert(kept_or_pulled_in(act0, before_act, x));
            }
            assert forall|x: ModuleQualifier| #[trigger] in_tree(self.dependency@, x) implies in_tree(dep0, x)
                || same_module(x, module.qualifier) || pulled_in(self.action@, x) by {
                lemma_in_tree_set(before, key, deps_g, x);
            }
            lemma_set_in_tree(before, key, deps_g, module.qualifier);
            assert forall|k: int| 0 <= k < deps_g@.len() implies in_tree(dep0, #[trigger] deps_g@[k])
                || same_module(deps_g@[k], module.qualifier) || pulled_in(self.action@, deps_g@[k]) by {
                assert(in_tree(dep0, deps_g@[k]) || pulled_in(before_act, deps_g@[k]));
            }
            if names@.len() == 0 {
                let c = choose|c: ModuleQualifier| same_qualifier(c, key) && self.action@ == set_in_tree(before_act, c, action);
                assert(same_module(key, module.qualifier));
                assert(same_module(c, module.qualifier));
                assert(set_in_tree(old(self).dependency@, key, deps_g) == self.dependency@);
            }
        }
        Ok(())
    }

    /// Resolves a module and its dependencies into the tree.
    pub fn resolve<C: Chooser>(&mut self, module: &Module, action: ResolvingAction, local: &Index<InstalledModule>, available: &Index<Module>, chooser: &C) -> (r: Result<(), String>)
        ensures
            r is Ok ==> (first_entry(final(self).dependency@, module.qualifier) matches Some(i)
                && resolves(final(self).dependency@[i].1@, texts(module.dependencies@))),
            installed_provide(module.dependencies@, local.modules@) ==> r is Ok,
            r is Ok ==> final(self).removals == old(self).removals && in_tree(final(self).dependency@, module.qualifier)
                && forall|q: ModuleQualifier| in_tree(old(self).dependency@, q) ==> #[trigger] in_tree(final(self).dependency@, q),
            module.dependencies@.len() == 0 ==> r is Ok && set_alone(*old(self), *final(self), module.qualifier, action),
            r is Ok ==> has_action(final(self).action@, module.qualifier, action),
            r is Ok ==> forall|q: ModuleQualifier|
                same_module(q, module.qualifier) || #[trigger] kept_or_pulled_in(old(self).action@, final(self).action@, q),
            r is Ok ==> forall|q: ModuleQualifier| #[trigger] in_tree(final(self).dependency@, q) ==> in_tree(old(self).dependency@, q)
                || same_module(q, module.qualifier) || pulled_in(final(self).action@, q),
            r is Ok ==> (first_entry(final(self).dependency@, module.qualifier) matches Some(i) && forall|k: int|
                0 <= k < final(self).dependency@[i].1@.len() ==> in_tree(old(self).dependency@, #[trigger] final(self).dependency@[i].1@[k])
                    || same_module(final(self).dependency@[i].1@[k], module.qualifier)
                    || pulled_in(final(self).action@, final(self).dependency@[i].1@[k])),
    {
        let fuel = available.modules.len();
        let r = self.resolve_within(module, action, local, available, chooser, fuel);
        proof {
            lemma_first_entry(self.dependency@, module.qualifier);
        }
        r
    }

    /// Resolves an available module for installation.
    pub fn install<C: Chooser>(&mut self, module: &ModuleQualifier, local: &Index<InstalledModule>, available: &Index<Module>, chooser: &C) -> (r: Result<(), String>)
        ensures
            crate::registry::index::first_with(available.modules@, *module) matches Some(i) ==> (
                available.modules@[i].dependencies@.len() == 0 ==> r is Ok && set_alone(
                    *old(self),
                    *final(self),
                    available.modules@[i].qualifier,
                    ResolvingAction::Install,
                )),
            r is Ok ==> has_action(final(self).action@, *module, ResolvingAction::Install),
            crate::registry::index::first_with(available.modules@, *module) is None ==> r is Err,
            crate::registry::index::first_with(available.modules@, *module) matches Some(i) && installed_provide(
                available.modules@[i].dependencies@,
                local.modules@,
            ) ==> r is Ok,            r is Ok ==> final(self).removals == old(self).removals && in_tree(final(self).dependency@, *module)
                && forall|q: ModuleQualifier| in_tree(old(self).dependency@, q) ==> #[trigger] in_tree(final(self).dependency@, q),
    {
        match available.get(module) {
            Some(m) => {
                let r = self.resolve(m, ResolvingAction::Install, local, available, chooser);
                proof {
                    crate::registry::index::lemma_first_with(available.modules@, *module);
                    if r is Ok {
                        lemma_in_tree_same(self.dependency@, m.qualifier, *module);
                        lemma_action_same_module(self.action@, m.qualifier, *module);
                    }
                }
                r
            },
            None => Err(text("module disappeared unexpectedly")),
        }
    }

    /// Resolves an available module for an update.
    pub fn update<C: Chooser>(&mut self, module: &ModuleQualifier, local: &Index<InstalledModule>, available: &Index<Module>, chooser: &C) -> (r: Result<(), String>)
        ensures
            crate::registry::index::first_with(available.modules@, *module) matches Some(i) ==> (
                available.modules@[i].dependencies@.len() == 0 ==> r is Ok && set_alone(
                    *old(self),
                    *final(self),
                    available.modules@[i].qualifier,
                    ResolvingAction::Update,
                )),
            r is Ok ==> has_action(final(self).action@, *module, ResolvingAction::Update),
            crate::registry::index::first_with(available.modules@, *module) is None ==> r is Err,
            crate::registry::index::first_with(available.modules@, *module) matches Some(i) && installed_provide(
                available.modules@[i].dependencies@,
                local.modules@,
            ) ==> r is Ok,            r is Ok ==> final(self).removals == old(self).removals && in_tree(final(self).dependency@, *module)
                && forall|q: ModuleQualifier| in_tree(old(self).dependency@, q) ==> #[trigger] in_tree(final(self).dependency@, q),
    {
        match available.get(module) {
            Some(m) => {
                let r = self.resolve(m, ResolvingAction::Update, local, available, chooser);
                proof {
                    crate::registry::index::lemma_first_with(available.modules@, *module);
                    if r is Ok {
                        lemma_in_tree_same(self.dependency@, m.qualifier, *module);
                        lemma_action_same_module(self.action@, m.qualifier, *module);
                    }
                }
                r
            },
            None => Err(text("module disappeared unexpectedly")),
        }
    }

    /// Resolves an available module for a reinstall.
    pub fn reinstall<C: Chooser>(&mut self, module: &ModuleQualifier, local: &Index<InstalledModule>, available: &Index<Module>, chooser: &C) -> (r: Result<(), String>)
        ensures
            crate::registry::index::first_with(available.modules@, *module) matches Some(i) ==> (
                available.modules@[i].dependencies@.len() == 0 ==> r is Ok && set_alone(
                    *old(self),
                    *final(self),
                    available.modules@[i].qualifier,
                    ResolvingAction::Reinstall,
                )),
            r is Ok ==> has_action(final(self).action@, *module, ResolvingAction::Reinstall),
            crate::registry::index::first_with(available.modules@, *module) is None ==> r is Err,
            crate::registry::index::first_with(available.modules@, *module) matches Some(i) && installed_provide(
                available.modules@[i].dependencies@,
                local.modules@,
            ) ==> r is Ok,            r is Ok ==> final(self).removals == old(self).removals && in_tree(final(self).dependency@, *module)
                && forall|q: ModuleQualifier| in_tree(old(self).dependency@, q) ==> #[trigger] in_tree(final(self).dependency@, q),
    {
        match available.get(module) {
            Some(m) => {
                let r = self.resolve(m, ResolvingAction::Reinstall, local, available, chooser);
                proof {
                    crate::registry::index::lemma_first_with(available.modules@, *module);
                    if r is Ok {
                        lemma_in_tree_same(self.dependency@, m.qualifier, *module);
                        lemma_action_same_module(self.action@, m.qualifier, *module);
                    }
                }
                r
            },
            None => Err(text("module disappeared unexpectedly")),
        }
    }
}

/// Whether a resolver can be collected: no removed module is in the tree and each has an action;
/// the tree is complete and acyclic; and each of its modules has an action.
pub open spec fn collectable(res: Resolver) -> bool {
    &&& forall|k: int|
        #![trigger res.removals@[k]]
        0 <= k < res.removals@.len() ==> tree_position(res.dependency@, res.removals@[k]) is None
            && action_of(res.action@, res.removals@[k]) is Some
    &&& complete_tree(res.dependency@)
    &&& acyclic(tree_graph(res.dependency@))
    &&& forall|i: int|
        #![trigger res.dependency@[i]]
        0 <= i < res.dependency@.len() ==> action_of(res.action@, res.dependency@[i].0) is Some
}

/// What the actions say of a module, they say of every qualifier for the same module.
proof fn lemma_action_same_module(actions: Seq<(ModuleQualifier, ResolvingAction)>, a: ModuleQualifier, b: ModuleQualifier)
    requires
        same_module(a, b),
    ensures
        action_of(actions, a) == action_of(actions, b),
    decreases actions.len(),
{
    if actions.len() > 0 {
        lemma_action_same_module(actions.drop_last(), a, b);
    }
}

/// What collecting a resolver gives: the removals first, then the modules of its complete,
/// acyclic tree in change order, each with why it changes and what happens to it.
pub open spec fn collected(res: Resolver, v: Seq<(ModuleQualifier, ModuleMotivation, ResolvingAction)>) -> bool {
    let n = res.removals@.len();
    &&& complete_tree(res.dependency@)
    &&& acyclic(tree_graph(res.dependency@))
    &&& n <= v.len()
    &&& forall|k: int| 0 <= k < n ==> same_qualifier(#[trigger] v[k].0, res.removals@[k])
        && has_action(res.action@, res.removals@[k], v[k].2)
        && v[k].1.depends@.len() == 0 && v[k].1.because@.len() == 0
    &&& change_order(res.dependency@, res.action@, firsts(v.subrange(n as int, v.len() as int)))
    &&& same_qualifiers(firsts(v.subrange(n as int, v.len() as int)), tree_order(res.dependency@, res.action@))
    &&& forall|k: int| n <= k < v.len() ==> (tree_position(res.dependency@, #[trigger] v[k].0) matches Some(i)
        && same_qualifiers(v[k].1.depends@, res.dependency@[i].1@)
        && same_qualifiers(v[k].1.because@, dependents(res.dependency@, v[k].0))
        && has_action(res.action@, v[k].0, v[k].2))
}

/// How often a module occurs in a list.
pub open spec fn occurrences(list: Seq<ModuleQualifier>, q: ModuleQualifier) -> nat
    decreases list.len(),
{
    if list.len() == 0 {
        0
    } else {
        occurrences(list.drop_last(), q) + if same_module(list.last(), q) { 1nat } else { 0nat }
    }
}

/// The modules of the tree that depend on `q`, once for each time they name it.
pub open spec fn dependents(deps: Seq<(ModuleQualifier, Vec<ModuleQualifier>)>, q: ModuleQualifier) -> Seq<ModuleQualifier>
    decreases deps.len(),
{
    if deps.len() == 0 {
        Seq::empty()
    } else {
        dependents(deps.drop_last(), q) + Seq::new(occurrences(deps.last().1@, q), |i: int| deps.last().0)
    }
}

/// The lists hold the same qualifiers, field by field.
pub open spec fn same_qualifiers(a: Seq<ModuleQualifier>, b: Seq<ModuleQualifier>) -> bool {
    a.len() == b.len() && forall|i: int| 0 <= i < a.len() ==> same_qualifier(#[trigger] a[i], b[i])
}

/// The first items of a list of triples.
pub open spec fn firsts<A, B, C>(v: Seq<(A, B, C)>) -> Seq<A> {
    Seq::new(v.len(), |i: int| v[i].0)
}

/// Copies a list of qualifiers.
fn copy_all(list: &Vec<ModuleQualifier>) -> (r: Vec<ModuleQualifier>)
    ensures
        same_qualifiers(r@, list@),
{
    let mut r: Vec<ModuleQualifier> = Vec::new();
    let mut i: usize = 0;
    while i < list.len()
        invariant
            i <= list@.len(),
            r@.len() == i,
            forall|k: int| 0 <= k < i ==> same_qualifier(#[trigger] r@[k], list@[k]),
        decreases list@.len() - i,
    {
        r.push(list[i].copy());
        i = i + 1;
    }
    r
}

impl Resolver {
    /// Whether every module the tree depends on has an entry, and no module has two.
    pub fn tree_complete(&self) -> (r: bool)
        ensures
            r == complete_tree(self.dependency@),
    {
        let ghost deps = self.dependency@;
        let n = self.dependency.len();
        let mut i: usize = 0;
        while i < n
            invariant
                deps == self.dependency@,
                n == deps.len(),
                i <= n,
                forall|a: int, b: int| 0 <= a < b < n && a < i ==> !same_module(#[trigger] deps[a].0, #[trigger] deps[b].0),
            decreases n - i,
        {
            let mut k: usize = i + 1;
            while k < n
                invariant
                    deps == self.dependency@,
                    n == deps.len(),
                    i < n,
                    i + 1 <= k <= n,
                    forall|a: int, b: int| 0 <= a < b < n && a < i ==> !same_module(#[trigger] deps[a].0, #[trigger] deps[b].0),
                    forall|b: int| i < b < k ==> !same_module(deps[i as int].0, #[trigger] deps[b].0),
                decreases n - k,
            {
                if self.dependency[i].0.same(&self.dependency[k].0) {
                    return false;
                }
                k = k + 1;
            }
            i = i + 1;
        }
        let mut u: usize = 0;
        while u < n
            invariant
                deps == self.dependency@,
                n == deps.len(),
                u <= n,
                forall|a: int, j: int| 0 <= a < u && 0 <= j < deps[a].1@.len() ==> #[trigger] tree_position(deps, deps[a].1@[j]) is Some,
            decreases n - u,
        {
            let list = &self.dependency[u].1;
            let mut j: usize = 0;
            while j < list.len()
                invariant
                    deps == self.dependency@,
                    n == deps.len(),
                    u < n,
                    *list == deps[u as int].1,
                    j <= list@.len(),
                    forall|a: int, t: int| 0 <= a < u && 0 <= t < deps[a].1@.len() ==> #[trigger] tree_position(deps, deps[a].1@[t]) is Some,
                    forall|t: int| 0 <= t < j ==> #[trigger] tree_position(deps, list@[t]) is Some,
                decreases list@.len() - j,
            {
                if find_entry(&self.dependency, &list[j]).is_none() {
                    assert(tree_position(deps, deps[u as int].1@[j as int]) is None);
                    return false;
                }
                j = j + 1;
            }
            u = u + 1;
        }
        true
    }

    /// The modules of the tree that depend on `q`, once for each time they name it.
    fn because(&self, q: &ModuleQualifier) -> (r: Vec<ModuleQualifier>)
        ensures
            same_qualifiers(r@, dependents(self.dependency@, *q)),
    {
        let ghost deps = self.dependency@;
        let mut r: Vec<ModuleQualifier> = Vec::new();
        let mut i: usize = 0;
        while i < self.dependency.len()
            invariant
                deps == self.dependency@,
                i <= deps.len(),
                same_qualifiers(r@, dependents(deps.subrange(0, i as int), *q)),
            decreases deps.len() - i,
        {
            let entry = &self.dependency[i];
            let ghost before = dependents(deps.subrange(0, i as int), *q);
            let ghost r0 = r@;
            let mut j: usize = 0;
            while j < entry.1.len()
                invariant
                    deps == self.dependency@,
                    i < deps.len(),
                    *entry == deps[i as int],
                    j <= entry.1@.len(),
                    r@.len() == r0.len() + occurrences(entry.1@.subrange(0, j as int), *q),
                    forall|k: int| 0 <= k < r0.len() ==> #[trigger] r@[k] == r0[k],
                    forall|k: int| r0.len() <= k < r@.len() ==> same_qualifier(#[trigger] r@[k], entry.0),
                decreases entry.1@.len() - j,
            {
                proof {
                    assert(entry.1@.subrange(0, j + 1).drop_last() =~= entry.1@.subrange(0, j as int));
                }
                if entry.1[j].same(q) {
                    r.push(entry.0.copy());
                }
                j = j + 1;
            }
            proof {
                assert(entry.1@.subrange(0, entry.1@.len() as int) =~= entry.1@);
                let d = deps.subrange(0, i + 1);
                assert(d.drop_last() =~= deps.subrange(0, i as int));
                let after = dependents(d, *q);
                assert(after == before + Seq::new(occurrences(entry.1@, *q), |t: int| entry.0));
                assert forall|k: int| 0 <= k < r@.len() implies same_qualifier(#[trigger] r@[k], after[k]) by {
                    if k < r0.len() {
                        assert(r@[k] == r0[k]);
                        assert(same_qualifier(r0[k], before[k]));
                    }
                }
            }
            i = i + 1;
        }
        assert(deps.subrange(0, deps.len() as int) =~= deps);
        r
    }

    /// Collects the change into one list: the removals first, then the modules of the tree in
    /// their change order, each with why it changes and what happens to it. An error when a
    /// removed module is still in the tree, or the tree is not complete or has a cycle, or a
    /// module has no action.
    pub fn collect(self) -> (r: Result<Vec<(ModuleQualifier, ModuleMotivation, ResolvingAction)>, String>)
        ensures
            (exists|k: int| 0 <= k < self.removals@.len() && #[trigger] tree_position(self.dependency@, self.removals@[k]) is Some) ==> r is Err,
            r is Ok <==> collectable(self),
            r matches Ok(v) ==> collected(self, v@),
    {
        let ghost deps = self.dependency@;
        let mut k: usize = 0;
        while k < self.removals.len()
            invariant
                deps == self.dependency@,
                k <= self.removals@.len(),
                forall|t: int| 0 <= t < k ==> #[trigger] tree_position(deps, self.removals@[t]) is None,
            decreases self.removals@.len() - k,
        {
            if find_entry(&self.dependency, &self.removals[k]).is_some() {
                proof {
                    assert(!collectable(self) && self.removals@[k as int] == self.removals@[k as int]);
                }
                return Err(text("failed to resolve dependencies"));
            }
            k = k + 1;
        }
        if !self.tree_complete() {
            return Err(text("failed to resolve dependencies"));
        }
        let adj = self.graph();
        if !crate::module::install::order::has_no_cycle(&adj) {
            return Err(text("failed to resolve dependencies"));
        }
        let order = self.get_order();
        let mut out: Vec<(ModuleQualifier, ModuleMotivation, ResolvingAction)> = Vec::new();
        let mut i: usize = 0;
        while i < self.removals.len()
            invariant
                deps == self.dependency@,
                i <= self.removals@.len(),
                out@.len() == i,
                forall|t: int| #![trigger out@[t]] 0 <= t < i ==> same_qualifier(out@[t].0, self.removals@[t])
                    && has_action(self.action@, self.removals@[t], out@[t].2)
                    && out@[t].1.depends@.len() == 0 && out@[t].1.because@.len() == 0,
            decreases self.removals@.len() - i,
        {
            let q = &self.removals[i];
            let a = match find_action(&self.action, q) {
                Some(a) => a,
                None => {
                    proof {
                        assert(!collectable(self) && self.removals@[i as int] == self.removals@[i as int]);
                    }
                    return Err(text("failed to resolve dependencies"));
                },
            };
            let ghost before = out@;
            let c = q.copy();
            let m = ModuleMotivation::empty();
            out.push((c, m, a));
            proof {
                assert(has_action(self.action@, self.removals@[i as int], a));
                assert forall|t: int| #![trigger out@[t]] 0 <= t < i + 1 implies same_qualifier(out@[t].0, self.removals@[t])
                    && has_action(self.action@, self.removals@[t], out@[t].2)
                    && out@[t].1.depends@.len() == 0 && out@[t].1.because@.len() == 0 by {
                    if t < i {
                        assert(out@[t] == before[t]);
                    } else {
                        assert(out@[t].2 == a);
                        assert(out@[t].0 == c);
                        assert(out@[t].1 == m);
                    }
                }
            }
            i = i + 1;
        }
        let n = self.removals.len();
        proof {
            assert forall|t: int| 0 <= t < n implies action_of(self.action@, #[trigger] self.removals@[t]) is Some by {
                assert(has_action(self.action@, self.removals@[t], out@[t].2));
            }
        }
        let mut m: usize = 0;
        while m < order.len()
            invariant
                deps == self.dependency@,
                complete_tree(deps),
                change_order(deps, self.action@, order@),
                same_qualifiers(order@, tree_order(deps, self.action@)),
                n == self.removals@.len(),
                m <= order@.len(),
                out@.len() == n + m,
                forall|t: int| 0 <= t < n ==> same_qualifier(#[trigger] out@[t].0, self.removals@[t])
                    && has_action(self.action@, self.removals@[t], out@[t].2)
                    && out@[t].1.depends@.len() == 0 && out@[t].1.because@.len() == 0,
                forall|t: int| 0 <= t < m ==> same_qualifier(#[trigger] out@[n + t].0, order@[t]),
                forall|t: int| n <= t < out@.len() ==> (tree_position(deps, #[trigger] out@[t].0) matches Some(e)
                    && same_qualifiers(out@[t].1.depends@, deps[e].1@)
                    && same_qualifiers(out@[t].1.because@, dependents(deps, out@[t].0))
                    && has_action(self.action@, out@[t].0, out@[t].2)),
                forall|t: int| 0 <= t < m ==> action_of(self.action@, #[trigger] order@[t]) is Some,
                forall|t: int| 0 <= t < n ==> action_of(self.action@, #[trigger] self.removals@[t]) is Some,
                forall|t: int| 0 <= t < n ==> tree_position(deps, #[trigger] self.removals@[t]) is None,
                acyclic(tree_graph(deps)),
            decreases order@.len() - m,
        {
            let q = &order[m];
            proof {
                assert(kept(deps, self.action@, order@[m as int]));
            }
            let e = match find_entry(&self.dependency, q) {
                Some(e) => e,
                None => {
                    return Err(text("failed to resolve dependencies"));
                },
            };
            let a = match find_action(&self.action, q) {
                Some(a) => a,
                None => {
                    proof {
                        lemma_tree_position(deps, *q);
                        lemma_action_same_module(self.action@, deps[e as int].0, *q);
                        assert(!collectable(self) && self.dependency@[e as int] == self.dependency@[e as int]);
                    }
                    return Err(text("failed to resolve dependencies"));
                },
            };
            let depends = copy_all(&self.dependency[e].1);
            let because = self.because(q);
            let c = q.copy();
            proof {
                lemma_tree_position_same_fields(deps, c, *q);
                lemma_dependents_same_fields(deps, c, *q);
                lemma_action_same_fields(self.action@, c, *q);
            }
            out.push((c, ModuleMotivation { because, depends }, a));
            m = m + 1;
        }
        proof {
            assert forall|i: int|
                #![trigger self.dependency@[i]]
                0 <= i < self.dependency@.len() implies action_of(self.action@, self.dependency@[i].0) is Some by {
                if !placeholder(self.action@, deps[i].0) {
                    assert(appears(deps, order@, i));
                    let k = choose|k: int| 0 <= k < order@.len() && names_entry(deps, #[trigger] order@[k], i);
                    lemma_action_same_module(self.action@, order@[k], deps[i].0);
                }
            }
            assert(collectable(self));
            let tail = firsts(out@.subrange(n as int, out@.len() as int));
            assert forall|t: int| 0 <= t < order@.len() implies same_qualifier(#[trigger] tail[t], order@[t]) by {
                assert(tail[t] == out@[n + t].0);
            }
            lemma_change_order_copies(deps, self.action@, order@, tail);
        }
        Ok(out)
    }
}

proof fn lemma_tree_position_same_fields(deps: Seq<(ModuleQualifier, Vec<ModuleQualifier>)>, a: ModuleQualifier, b: ModuleQualifier)
    requires
        same_qualifier(a, b),
    ensures
        tree_position(deps, a) == tree_position(deps, b),
    decreases deps.len(),
{
    if deps.len() > 0 {
        lemma_tree_position_same_fields(deps.drop_last(), a, b);
    }
}

proof fn lemma_occurrences_same_fields(list: Seq<ModuleQualifier>, a: ModuleQualifier, b: ModuleQualifier)
    requires
        same_qualifier(a, b),
    ensures
        occurrences(list, a) == occurrences(list, b),
    decreases list.len(),
{
    if list.len() > 0 {
        lemma_occurrences_same_fields(list.drop_last(), a, b);
    }
}

proof fn lemma_dependents_same_fields(deps: Seq<(ModuleQualifier, Vec<ModuleQualifier>)>, a: ModuleQualifier, b: ModuleQualifier)
    requires
        same_qualifier(a, b),
    ensures
        dependents(deps, a) == dependents(deps, b),
    decreases deps.len(),
{
    if deps.len() > 0 {
        lemma_dependents_same_fields(deps.drop_last(), a, b);
        lemma_occurrences_same_fields(deps.last().1@, a, b);
    }
}

proof fn lemma_action_same_fields(actions: Seq<(ModuleQualifier, ResolvingAction)>, a: ModuleQualifier, b: ModuleQualifier)
    requires
        same_qualifier(a, b),
    ensures
        action_of(actions, a) == action_of(actions, b),
    decreases actions.len(),
{
    if actions.len() > 0 {
        lemma_action_same_fields(actions.drop_last(), a, b);
    }
}

/// Copies of a change order are a change order.
proof fn lemma_change_order_copies(
    deps: Seq<(ModuleQualifier, Vec<ModuleQualifier>)>,
    actions: Seq<(ModuleQualifier, ResolvingAction)>,
    order: Seq<ModuleQualifier>,
    copies: Seq<ModuleQualifier>,
)
    requires
        change_order(deps, actions, order),
        copies.len() == order.len(),
        forall|t: int| 0 <= t < order.len() ==> same_qualifier(#[trigger] copies[t], order[t]),
    ensures
        change_order(deps, actions, copies),
{
    assert forall|k: int| 0 <= k < copies.len() implies kept(deps, actions, #[trigger] copies[k]) by {
        assert(same_qualifier(copies[k], order[k]));
        lemma_tree_position_same_fields(deps, copies[k], order[k]);
        assert(kept(deps, actions, order[k]));
    }
    assert forall|a: int, b: int| 0 <= a < b < copies.len() implies !same_module(#[trigger] copies[a], #[trigger] copies[b]) by {
        assert(same_qualifier(copies[a], order[a]));
        assert(same_qualifier(copies[b], order[b]));
        assert(!same_module(order[a], order[b]));
    }
    assert forall|i: int| 0 <= i < deps.len() && !placeholder(actions, deps[i].0) implies #[trigger] appears(deps, copies, i) by {
        assert(appears(deps, order, i));
        let k = choose|k: int| 0 <= k < order.len() && names_entry(deps, #[trigger] order[k], i);
        assert(same_qualifier(copies[k], order[k]));
        assert(names_entry(deps, copies[k], i));
    }
    assert forall|a: int, b: int, i: int, j: int|
        #![trigger names_entry(deps, copies[a], i), same_module(copies[b], deps[i].1@[j])]
        0 <= a < copies.len() && 0 <= b < copies.len() && names_entry(deps, copies[a], i) && 0 <= j < deps[i].1@.len()
            && same_module(copies[b], deps[i].1@[j]) implies a < b by {
        assert(same_qualifier(copies[a], order[a]));
        assert(same_qualifier(copies[b], order[b]));
        assert(names_entry(deps, order[a], i));
        assert(same_module(order[b], deps[i].1@[j]));
    }
}

} // verus!
