//! Installing, updating and removing modules.
pub mod order;
pub mod depend;
pub mod shell;
pub mod instructions;
pub mod run;
pub mod review;
pub mod prepare;

use vstd::prelude::*;
use crate::module::{Module, InstalledModule};
use crate::module::install::depend::{Resolver, ModuleMotivation, ResolvingAction, collected, collectable, removable, action_of, tree_position, complete_tree, tree_graph, lemma_action_set_in_tree, in_tree, same_qualifier, same_qualifiers, set_alone, set_in_tree, unique_entries, lemma_set_in_tree_entries, lemma_set_in_tree_unique, lemma_tree_position_set, lemma_tree_position_none};
use crate::module::install::order::ranks;
use crate::module::qualifier::ModuleQualifier;
use crate::output::Chooser;
use crate::registry::index::{Index, without_module, same_module, first_with, lemma_first_with};
use crate::registry::cache::Cache;
use crate::module::install::instructions::ModifyType;
use crate::module::install::review::ScheduledChange;

verus! {

/// A change that was asked for.
pub enum Gathered {
    Install(ModuleQualifier),
    Remove(ModuleQualifier),
    Update(ModuleQualifier),
}

/// Whether a gathered change names a module to install or update that the index does not offer.
pub open spec fn missing_from_index(g: Gathered, available: Seq<Module>) -> bool {
    match g {
        Gathered::Install(q) => crate::registry::index::first_with(available, q) is None,
        Gathered::Update(q) => crate::registry::index::first_with(available, q) is None,
        Gathered::Remove(_) => false,
    }
}

/// Whether a gathered change removes a module that another installed module depends on
/// specifically.
pub open spec fn blocked_removal(g: Gathered, local: Seq<InstalledModule>) -> bool {
    match g {
        Gathered::Remove(q) => !removable(local, q),
        _ => false,
    }
}

/// The modules that a list of gathered changes removes, in order.
pub open spec fn removals_of(g: Seq<Gathered>) -> Seq<ModuleQualifier>
    decreases g.len(),
{
    if g.len() == 0 {
        Seq::empty()
    } else {
        match g.last() {
            Gathered::Remove(q) => removals_of(g.drop_last()).push(q),
            _ => removals_of(g.drop_last()),
        }
    }
}

/// Whether a resolver holds what was gathered: the removals in the order they were asked for,
/// and an entry in its tree for each module to install or update.
pub open spec fn resolves_gathered(res: Resolver, g: Seq<Gathered>) -> bool {
    &&& same_qualifiers(res.removals@, removals_of(g))
    &&& forall|k: int| 0 <= k < g.len() ==> match #[trigger] g[k] {
        Gathered::Install(q) => in_tree(res.dependency@, q),
        Gathered::Update(q) => in_tree(res.dependency@, q),
        Gathered::Remove(_) => true,
    }
}

/// The module a gathered change installs or updates.
pub open spec fn installs(g: Gathered) -> Option<ModuleQualifier> {
    match g {
        Gathered::Install(q) => Some(q),
        Gathered::Update(q) => Some(q),
        Gathered::Remove(_) => None,
    }
}

/// No module is both removed and installed or updated.
pub open spec fn kept_apart(g: Seq<Gathered>) -> bool {
    forall|k: int, j: int|
        #![trigger g[k], g[j]]
        0 <= k < g.len() && 0 <= j < g.len() ==> match (g[k], installs(g[j])) {
            (Gathered::Remove(a), Some(b)) => !same_module(a, b),
            _ => true,
        }
}

/// Gathered changes whose resolving needs no choice and cannot fail: every removal is allowed,
/// every module to install or update is offered and depends on nothing, and no module is both
/// removed and installed or updated.
pub open spec fn gathers_plainly(g: Seq<Gathered>, available: Seq<Module>, local: Seq<InstalledModule>) -> bool {
    &&& forall|k: int| 0 <= k < g.len() ==> match #[trigger] g[k] {
        Gathered::Remove(a) => removable(local, a),
        Gathered::Install(q) => first_with(available, q) matches Some(i) && available[i].dependencies@.len() == 0,
        Gathered::Update(q) => first_with(available, q) matches Some(i) && available[i].dependencies@.len() == 0,
    }
    &&& kept_apart(g)
}

/// Every module that a gathered change installs or updates, where it is offered, depends on
/// nothing.
pub open spec fn offered_alone(g: Seq<Gathered>, available: Seq<Module>) -> bool {
    forall|k: int| 0 <= k < g.len() ==> match installs(#[trigger] g[k]) {
        Some(q) => first_with(available, q) matches Some(i) ==> available[i].dependencies@.len() == 0,
        None => true,
    }
}

/// What a resolver holds after the first `i` plainly gathered changes: entries without
/// dependencies, each for a different module to install or update and with an action; removals
/// with an action and without an entry.
pub open spec fn plain_state(res: Resolver, g: Seq<Gathered>, i: int) -> bool {
    let deps = res.dependency@;
    &&& forall|t: int| 0 <= t < deps.len() ==> (#[trigger] deps[t]).1@.len() == 0
    &&& unique_entries(deps)
    &&& forall|t: int| 0 <= t < deps.len() ==> action_of(res.action@, (#[trigger] deps[t]).0) is Some
    &&& forall|t: int|
        0 <= t < res.removals@.len() ==> action_of(res.action@, #[trigger] res.removals@[t]) is Some
            && tree_position(deps, res.removals@[t]) is None
    &&& forall|t: int| 0 <= t < deps.len() ==> installed_before(g, i, (#[trigger] deps[t]).0)
    &&& forall|t: int| 0 <= t < res.removals@.len() ==> removed_before(g, i, #[trigger] res.removals@[t])
}

/// One of the first `i` gathered changes installs or updates the module of `m`.
pub open spec fn installed_before(g: Seq<Gathered>, i: int, m: ModuleQualifier) -> bool {
    exists|k: int| #![trigger g[k]] 0 <= k < i && (installs(g[k]) matches Some(q) && same_module(m, q))
}

/// One of the first `i` gathered changes removes the module of `m`.
pub open spec fn removed_before(g: Seq<Gathered>, i: int, m: ModuleQualifier) -> bool {
    exists|k: int| #![trigger g[k]] 0 <= k < i && (g[k] matches Gathered::Remove(a) && same_module(m, a))
}

/// Resolving a module to install or update that depends on nothing keeps the plain state.
proof fn lemma_plain_install(a: Resolver, b: Resolver, g: Seq<Gathered>, i: int, q: ModuleQualifier, c1: ModuleQualifier, c2: ModuleQualifier, d: Vec<ModuleQualifier>, act: ResolvingAction)
    requires
        0 <= i < g.len(),
        plain_state(a, g, i),
        kept_apart(g),
        installs(g[i]) == Some(q),
        same_module(c1, q),
        same_module(c2, q),
        d@.len() == 0,
        b.dependency@ == set_in_tree(a.dependency@, c1, d),
        b.action@ == set_in_tree(a.action@, c2, act),
        b.removals == a.removals,
    ensures
        plain_state(b, g, i + 1),
{
    let old = a.dependency@;
    let new = b.dependency@;
    assert(b.removals@ == a.removals@);
    lemma_set_in_tree_entries(old, c1, d);
    lemma_set_in_tree_unique(old, c1, d);
    assert forall|t: int| 0 <= t < new.len() implies action_of(b.action@, (#[trigger] new[t]).0) is Some by {
        if new[t] == (c1, d) {
            lemma_action_set_in_tree(a.action@, c2, act, c1);
        } else {
            assert(action_of(a.action@, old[t].0) is Some);
            lemma_action_set_in_tree(a.action@, c2, act, old[t].0);
        }
    }
    assert forall|t: int| 0 <= t < b.removals@.len() implies action_of(b.action@, #[trigger] b.removals@[t]) is Some
        && tree_position(new, b.removals@[t]) is None by {
        let r = b.removals@[t];
        lemma_action_set_in_tree(a.action@, c2, act, r);
        assert(removed_before(g, i, r));
        let k = choose|k: int| #![trigger g[k]] 0 <= k < i && (g[k] matches Gathered::Remove(x) && same_module(r, x));
        assert(match (g[k], installs(g[i])) {
            (Gathered::Remove(x), Some(y)) => !same_module(x, y),
            _ => true,
        });
        lemma_tree_position_set(old, c1, d, r);
    }
    assert forall|t: int| 0 <= t < new.len() implies installed_before(g, i + 1, (#[trigger] new[t]).0) by {
        if new[t] == (c1, d) {
            assert(0 <= i < i + 1 && (installs(g[i]) matches Some(x) && same_module(new[t].0, x)));
        } else {
            assert(installed_before(g, i, old[t].0));
            let k = choose|k: int| #![trigger g[k]] 0 <= k < i && (installs(g[k]) matches Some(x) && same_module(old[t].0, x));
            assert(0 <= k < i + 1 && (installs(g[k]) matches Some(x) && same_module(new[t].0, x)));
        }
    }
    assert forall|t: int| 0 <= t < b.removals@.len() implies removed_before(g, i + 1, #[trigger] b.removals@[t]) by {
        assert(removed_before(g, i, a.removals@[t]));
        let k = choose|k: int| #![trigger g[k]] 0 <= k < i && (g[k] matches Gathered::Remove(x) && same_module(a.removals@[t], x));
        assert(0 <= k < i + 1 && (g[k] matches Gathered::Remove(x) && same_module(b.removals@[t], x)));
    }
}

/// Removing a module keeps the plain state.
proof fn lemma_plain_remove(a: Resolver, b: Resolver, g: Seq<Gathered>, i: int, r: ModuleQualifier, c1: ModuleQualifier, c2: ModuleQualifier)
    requires
        0 <= i < g.len(),
        plain_state(a, g, i),
        kept_apart(g),
        g[i] == Gathered::Remove(r),
        same_qualifier(c1, r),
        same_qualifier(c2, r),
        b.removals@ == a.removals@.push(c1),
        b.action@ == set_in_tree(a.action@, c2, ResolvingAction::Remove),
        b.dependency == a.dependency,
    ensures
        plain_state(b, g, i + 1),
{
    let deps = a.dependency@;
    assert(b.dependency@ == deps);
    assert forall|t: int| 0 <= t < deps.len() implies action_of(b.action@, (#[trigger] deps[t]).0) is Some by {
        lemma_action_set_in_tree(a.action@, c2, ResolvingAction::Remove, deps[t].0);
    }
    assert forall|t: int| 0 <= t < b.removals@.len() implies action_of(b.action@, #[trigger] b.removals@[t]) is Some
        && tree_position(deps, b.removals@[t]) is None by {
        if t < a.removals@.len() {
            assert(b.removals@[t] == a.removals@[t]);
            lemma_action_set_in_tree(a.action@, c2, ResolvingAction::Remove, a.removals@[t]);
        } else {
            assert(b.removals@[t] == c1);
            lemma_action_set_in_tree(a.action@, c2, ResolvingAction::Remove, c1);
            assert forall|x: int| 0 <= x < deps.len() implies !same_module(#[trigger] deps[x].0, c1) by {
                assert(installed_before(g, i, deps[x].0));
                let k = choose|k: int| #![trigger g[k]] 0 <= k < i && (installs(g[k]) matches Some(y) && same_module(deps[x].0, y));
                assert(match (g[i], installs(g[k])) {
                    (Gathered::Remove(p), Some(y)) => !same_module(p, y),
                    _ => true,
                });
            }
            lemma_tree_position_none(deps, c1);
        }
    }
    assert forall|t: int| 0 <= t < deps.len() implies installed_before(g, i + 1, (#[trigger] deps[t]).0) by {
        assert(installed_before(g, i, deps[t].0));
        let k = choose|k: int| #![trigger g[k]] 0 <= k < i && (installs(g[k]) matches Some(x) && same_module(deps[t].0, x));
        assert(0 <= k < i + 1 && (installs(g[k]) matches Some(x) && same_module(deps[t].0, x)));
    }
    assert forall|t: int| 0 <= t < b.removals@.len() implies removed_before(g, i + 1, #[trigger] b.removals@[t]) by {
        if t < a.removals@.len() {
            assert(removed_before(g, i, a.removals@[t]));
            let k = choose|k: int| #![trigger g[k]] 0 <= k < i && (g[k] matches Gathered::Remove(x) && same_module(a.removals@[t], x));
            assert(0 <= k < i + 1 && (g[k] matches Gathered::Remove(x) && same_module(b.removals@[t], x)));
        } else {
            assert(0 <= i < i + 1 && (g[i] matches Gathered::Remove(x) && same_module(b.removals@[t], x)));
        }
    }
}

/// A resolver in the plain state can be collected.
proof fn lemma_plain_collectable(res: Resolver, g: Seq<Gathered>, i: int)
    requires
        plain_state(res, g, i),
    ensures
        collectable(res),
{
    let deps = res.dependency@;
    let rank = Seq::new(deps.len(), |x: int| 0nat);
    assert(ranks(tree_graph(deps), rank));
    assert forall|x: int, j: int| 0 <= x < j < deps.len() implies !same_module(#[trigger] deps[x].0, #[trigger] deps[j].0) by {
    }
    assert forall|x: int, j: int|
        0 <= x < deps.len() && 0 <= j < deps[x].1@.len() implies #[trigger] tree_position(deps, deps[x].1@[j]) is Some by {
        assert(deps[x].1@.len() == 0);
    }
    assert forall|k: int|
        #![trigger res.dependency@[k]]
        0 <= k < res.dependency@.len() implies action_of(res.action@, res.dependency@[k].0) is Some by {
        assert(action_of(res.action@, deps[k].0) is Some);
    }
}

/// Gathers the changes asked for, to resolve them together.
pub struct Gatherer {
    pub gathered: Vec<Gathered>,
}

impl Gatherer {
    /// A gatherer with nothing gathered.
    pub fn new() -> (r: Self)
        ensures
            r.gathered@.len() == 0,
    {
        Gatherer { gathered: Vec::new() }
    }

    /// Asks for a module to be installed.
    pub fn install(&mut self, module: ModuleQualifier)
        ensures
            final(self).gathered@ == old(self).gathered@.push(Gathered::Install(module)),
    {
        self.gathered.push(Gathered::Install(module));
    }

    /// Asks for a module to be updated.
    pub fn update(&mut self, module: ModuleQualifier)
        ensures
            final(self).gathered@ == old(self).gathered@.push(Gathered::Update(module)),
    {
        self.gathered.push(Gathered::Update(module));
    }

    /// Asks for a module to be reinstalled: removed, then installed.
    pub fn reinstall(&mut self, module: ModuleQualifier)
        ensures
            final(self).gathered@.len() == old(self).gathered@.len() + 2,
            final(self).gathered@.subrange(0, old(self).gathered@.len() as int) == old(self).gathered@,
            final(self).gathered@[old(self).gathered@.len() as int] matches Gathered::Remove(a)
                && crate::module::install::depend::same_qualifier(a, module),
            final(self).gathered@[old(self).gathered@.len() + 1int] == Gathered::Install(module),
    {
        let copy = module.copy();
        self.gathered.push(Gathered::Remove(copy));
        self.gathered.push(Gathered::Install(module));
        assert(self.gathered@.subrange(0, old(self).gathered@.len() as int) =~= old(self).gathered@);
    }

    /// Asks for a module to be removed.
    pub fn remove(&mut self, module: ModuleQualifier)
        ensures
            final(self).gathered@ == old(self).gathered@.push(Gathered::Remove(module)),
    {
        self.gathered.push(Gathered::Remove(module));
    }

    /// Resolves what was gathered, in order, and collects the change: the removals first, then
    /// the modules to install or update in their change order.
    pub fn gather<C: Chooser>(self, index: &Index<Module>, local: &Index<InstalledModule>, chooser: &C) -> (r: Result<Vec<(ModuleQualifier, ModuleMotivation, ResolvingAction)>, String>)
        ensures
            (exists|k: int| 0 <= k < self.gathered@.len() && #[trigger] missing_from_index(self.gathered@[k], index.modules@)) ==> r is Err,
            (exists|k: int| 0 <= k < self.gathered@.len() && #[trigger] blocked_removal(self.gathered@[k], local.modules@)) ==> r is Err,
            (forall|k: int| 0 <= k < self.gathered@.len() ==> #[trigger] self.gathered@[k] is Remove) ==> (r is Ok <==> forall|k: int|
                0 <= k < self.gathered@.len() ==> !#[trigger] blocked_removal(self.gathered@[k], local.modules@)),
            r matches Ok(v) ==> exists|res: Resolver| collected(res, v@) && resolves_gathered(res, self.gathered@),
            gathers_plainly(self.gathered@, index.modules@, local.modules@) ==> r is Ok,
            offered_alone(self.gathered@, index.modules@) && kept_apart(self.gathered@) ==> (r is Ok <==> forall|k: int|
                0 <= k < self.gathered@.len() ==> !#[trigger] missing_from_index(self.gathered@[k], index.modules@)
                    && !blocked_removal(self.gathered@[k], local.modules@)),
    {
        proof {
            let g = self.gathered@;
            if offered_alone(g, index.modules@) && kept_apart(g) && forall|k: int|
                0 <= k < g.len() ==> !#[trigger] missing_from_index(g[k], index.modules@) && !blocked_removal(g[k], local.modules@) {
                assert forall|k: int| 0 <= k < g.len() implies match #[trigger] g[k] {
                    Gathered::Remove(a) => removable(local.modules@, a),
                    Gathered::Install(q) => first_with(index.modules@, q) matches Some(i) && index.modules@[i].dependencies@.len() == 0,
                    Gathered::Update(q) => first_with(index.modules@, q) matches Some(i) && index.modules@[i].dependencies@.len() == 0,
                } by {
                    assert(!missing_from_index(g[k], index.modules@) && !blocked_removal(g[k], local.modules@));
                    assert(match installs(g[k]) {
                        Some(q) => first_with(index.modules@, q) matches Some(i) ==> index.modules@[i].dependencies@.len() == 0,
                        None => true,
                    });
                }
                assert(gathers_plainly(g, index.modules@, local.modules@));
            }
        }
        let mut resolver = Resolver::new();
        let gathered = self.gathered;
        let ghost only_removals = forall|k: int| 0 <= k < gathered@.len() ==> #[trigger] gathered@[k] is Remove;
        let ghost plain = gathers_plainly(gathered@, index.modules@, local.modules@);
        let ghost alone = offered_alone(gathered@, index.modules@);
        let mut i: usize = 0;
        while i < gathered.len()
            invariant
                i <= gathered@.len(),
                gathered == self.gathered,
                only_removals == forall|k: int| 0 <= k < gathered@.len() ==> #[trigger] gathered@[k] is Remove,
                forall|j: int| 0 <= j < i ==> !#[trigger] missing_from_index(gathered@[j], index.modules@),
                forall|j: int| 0 <= j < i ==> !#[trigger] blocked_removal(gathered@[j], local.modules@),
                only_removals ==> resolver.dependency@.len() == 0,
                only_removals ==> forall|t: int|
                    0 <= t < resolver.removals@.len() ==> action_of(resolver.action@, #[trigger] resolver.removals@[t]) is Some,
                resolves_gathered(resolver, gathered@.take(i as int)),
                plain == gathers_plainly(gathered@, index.modules@, local.modules@),
                plain ==> plain_state(resolver, gathered@, i as int),
                alone == offered_alone(gathered@, index.modules@),
            decreases gathered@.len() - i,
        {
            let ghost start = resolver;
            proof {
                assert(gathered@.take(i + 1).drop_last() =~= gathered@.take(i as int));
                assert(gathered@.take(i + 1).last() == gathered@[i as int]);
            }
            match &gathered[i] {
                Gathered::Install(q) => {
                    proof {
                        assert(!(gathered@[i as int] is Remove));
                    }
                    let res = resolver.install(q, local, index, chooser);
                    proof {
                        if alone && res is Err {
                            assert(installs(gathered@[i as int]) == Some(*q));
                            assert(match installs(gathered@[i as int]) {
                                Some(x) => first_with(index.modules@, x) matches Some(j) ==> index.modules@[j].dependencies@.len() == 0,
                                None => true,
                            });
                            assert(missing_from_index(gathered@[i as int], index.modules@));
                        }
                        if plain {
                            lemma_first_with(index.modules@, *q);
                            assert(match gathered@[i as int] {
                                Gathered::Remove(a) => removable(local.modules@, a),
                                Gathered::Install(x) => first_with(index.modules@, x) matches Some(j) && index.modules@[j].dependencies@.len() == 0,
                                Gathered::Update(x) => first_with(index.modules@, x) matches Some(j) && index.modules@[j].dependencies@.len() == 0,
                            });
                            let m = index.modules@[first_with(index.modules@, *q).unwrap()];
                            let (c1, c2, d) = choose|c1: ModuleQualifier, c2: ModuleQualifier, d: Vec<ModuleQualifier>|
                                same_module(c1, m.qualifier) && same_module(c2, m.qualifier) && d@.len() == 0
                                    && set_in_tree(start.dependency@, c1, d) == resolver.dependency@
                                    && resolver.action@ == set_in_tree(start.action@, c2, ResolvingAction::Install);
                            lemma_plain_install(start, resolver, gathered@, i as int, *q, c1, c2, d, ResolvingAction::Install);
                        }
                    }
                    res?;
                    proof {
                        lemma_resolved_more(start, resolver, gathered@, i as int);
                    }
                },
                Gathered::Update(q) => {
                    proof {
                        assert(!(gathered@[i as int] is Remove));
                    }
                    let res = resolver.update(q, local, index, chooser);
                    proof {
                        if alone && res is Err {
                            assert(installs(gathered@[i as int]) == Some(*q));
                            assert(match installs(gathered@[i as int]) {
                                Some(x) => first_with(index.modules@, x) matches Some(j) ==> index.modules@[j].dependencies@.len() == 0,
                                None => true,
                            });
                            assert(missing_from_index(gathered@[i as int], index.modules@));
                        }
                        if plain {
                            lemma_first_with(index.modules@, *q);
                            assert(match gathered@[i as int] {
                                Gathered::Remove(a) => removable(local.modules@, a),
                                Gathered::Install(x) => first_with(index.modules@, x) matches Some(j) && index.modules@[j].dependencies@.len() == 0,
                                Gathered::Update(x) => first_with(index.modules@, x) matches Some(j) && index.modules@[j].dependencies@.len() == 0,
                            });
                            let m = index.modules@[first_with(index.modules@, *q).unwrap()];
                            let (c1, c2, d) = choose|c1: ModuleQualifier, c2: ModuleQualifier, d: Vec<ModuleQualifier>|
                                same_module(c1, m.qualifier) && same_module(c2, m.qualifier) && d@.len() == 0
                                    && set_in_tree(start.dependency@, c1, d) == resolver.dependency@
                                    && resolver.action@ == set_in_tree(start.action@, c2, ResolvingAction::Update);
                            lemma_plain_install(start, resolver, gathered@, i as int, *q, c1, c2, d, ResolvingAction::Update);
                        }
                    }
                    res?;
                    proof {
                        lemma_resolved_more(start, resolver, gathered@, i as int);
                    }
                },
                Gathered::Remove(q) => {
                    let ghost before = resolver;
                    let removed = resolver.remove(q, local);
                    proof {
                        if removed is Err {
                            assert(blocked_removal(gathered@[i as int], local.modules@));
                            assert(!missing_from_index(gathered@[i as int], index.modules@));
                        }
                        if plain {
                            assert(match gathered@[i as int] {
                                Gathered::Remove(a) => removable(local.modules@, a),
                                Gathered::Install(x) => first_with(index.modules@, x) matches Some(j) && index.modules@[j].dependencies@.len() == 0,
                                Gathered::Update(x) => first_with(index.modules@, x) matches Some(j) && index.modules@[j].dependencies@.len() == 0,
                            });
                        }
                    }
                    removed?;
                    proof {
                        let (c1, c2) = choose|c1: ModuleQualifier, c2: ModuleQualifier|
                            crate::module::install::depend::same_qualifier(c1, *q) && crate::module::install::depend::same_qualifier(c2, *q)
                                && resolver.removals@ == before.removals@.push(c1)
                                && resolver.action@ == crate::module::install::depend::set_in_tree(before.action@, c2, ResolvingAction::Remove)
                                && resolver.dependency == before.dependency;
                        lemma_removed_more(start, resolver, gathered@, i as int, c1);
                        if plain {
                            lemma_plain_remove(start, resolver, gathered@, i as int, *q, c1, c2);
                        }
                        if only_removals {
                            assert forall|t: int| 0 <= t < resolver.removals@.len() implies action_of(resolver.action@, #[trigger] resolver.removals@[t]) is Some by {
                                if t < before.removals@.len() {
                                    assert(resolver.removals@[t] == before.removals@[t]);
                                    lemma_action_set_in_tree(before.action@, c2, ResolvingAction::Remove, before.removals@[t]);
                                } else {
                                    assert(resolver.removals@[t] == c1);
                                    lemma_action_set_in_tree(before.action@, c2, ResolvingAction::Remove, c1);
                                }
                            }
                        }
                    }
                },
            }
            i = i + 1;
        }
        proof {
            if only_removals {
                let deps = resolver.dependency@;
                assert(ranks(tree_graph(deps), Seq::<nat>::empty()));
                assert(collectable(resolver));
            }
            assert(gathered@.take(gathered@.len() as int) =~= gathered@);
            if plain {
                lemma_plain_collectable(resolver, gathered@, i as int);
            }
        }
        let ghost last = resolver;
        let r = resolver.collect();
        proof {
            if r is Ok {
                let v = r->Ok_0;
                assert(collected(last, v@) && resolves_gathered(last, self.gathered@));
            }
        }
        r
    }
}

/// Resolving the module of the gathered change at `i` keeps what the resolver held of the
/// changes before it, and adds the module.
proof fn lemma_resolved_more(a: Resolver, b: Resolver, g: Seq<Gathered>, i: int)
    requires
        0 <= i < g.len(),
        resolves_gathered(a, g.take(i)),
        b.removals == a.removals,
        forall|q: ModuleQualifier| in_tree(a.dependency@, q) ==> #[trigger] in_tree(b.dependency@, q),
        match g[i] {
            Gathered::Install(q) => in_tree(b.dependency@, q),
            Gathered::Update(q) => in_tree(b.dependency@, q),
            Gathered::Remove(_) => false,
        },
    ensures
        resolves_gathered(b, g.take(i + 1)),
{
    let t = g.take(i);
    let u = g.take(i + 1);
    assert(u.drop_last() =~= t);
    assert forall|k: int| 0 <= k < u.len() implies match #[trigger] u[k] {
        Gathered::Install(q) => in_tree(b.dependency@, q),
        Gathered::Update(q) => in_tree(b.dependency@, q),
        Gathered::Remove(_) => true,
    } by {
        if k < i {
            assert(u[k] == t[k]);
            match t[k] {
                Gathered::Install(q) => {
                    assert(in_tree(a.dependency@, q));
                    assert(in_tree(b.dependency@, q));
                },
                Gathered::Update(q) => {
                    assert(in_tree(a.dependency@, q));
                    assert(in_tree(b.dependency@, q));
                },
                Gathered::Remove(_) => {},
            }
        }
    }
}

/// Removing the module of the gathered change at `i` adds it to the removals and keeps the tree.
proof fn lemma_removed_more(a: Resolver, b: Resolver, g: Seq<Gathered>, i: int, c: ModuleQualifier)
    requires
        0 <= i < g.len(),
        resolves_gathered(a, g.take(i)),
        g[i] matches Gathered::Remove(q) && same_qualifier(c, q),
        b.removals@ == a.removals@.push(c),
        b.dependency == a.dependency,
    ensures
        resolves_gathered(b, g.take(i + 1)),
{
    let t = g.take(i);
    let u = g.take(i + 1);
    assert(u.drop_last() =~= t);
    assert(removals_of(u) == removals_of(t).push(u.last()->Remove_0));
    assert forall|k: int| 0 <= k < u.len() implies match #[trigger] u[k] {
        Gathered::Install(q) => in_tree(b.dependency@, q),
        Gathered::Update(q) => in_tree(b.dependency@, q),
        Gathered::Remove(_) => true,
    } by {
        if k < i {
            assert(u[k] == t[k]);
        }
    }
}

/// Whether saving a change deletes the module's cache directory: the change failed, or it
/// removed the module.
pub open spec fn drops_cache(c: ScheduledChange, result: Option<bool>) -> bool {
    result == Some(false) || (result == Some(true) && c.what is Remove)
}

/// The installed modules after saving the outcome of one change: a module whose change failed
/// or that was removed is no longer installed, and a module that was installed or updated is
/// installed with its new build. A change that was not tried leaves everything as it was.
pub open spec fn saved_step(ms: Seq<InstalledModule>, c: ScheduledChange, result: Option<bool>) -> Seq<InstalledModule> {
    match result {
        None => ms,
        Some(done) => if !done || c.what is Remove {
            without_module(ms, c.module.qualifier)
        } else {
            without_module(ms, c.module.qualifier).push(InstalledModule { module: c.module, built: c.instructions.new->0 })
        },
    }
}

/// The installed modules after saving the outcomes of the first `n` changes, in order.
pub open spec fn saved(ms: Seq<InstalledModule>, cs: Seq<ScheduledChange>, rs: Seq<Option<bool>>, n: nat) -> Seq<InstalledModule>
    decreases n,
{
    if n == 0 {
        ms
    } else {
        saved_step(saved(ms, cs, rs, (n - 1) as nat), cs[n - 1], rs[n - 1])
    }
}

/// The modules whose cache directories are deleted when the outcomes of the first `n` changes are
/// saved, in order.
pub open spec fn dropped(cs: Seq<ScheduledChange>, rs: Seq<Option<bool>>, n: nat) -> Seq<Module>
    decreases n,
{
    if n == 0 {
        Seq::empty()
    } else if drops_cache(cs[n - 1], rs[n - 1]) {
        dropped(cs, rs, (n - 1) as nat).push(cs[n - 1].module)
    } else {
        dropped(cs, rs, (n - 1) as nat)
    }
}

/// Saves the outcomes of the changes to the cache, change by change with the result at the same
/// position, and gives back the modules whose cache directories are to be deleted.
pub fn save(changes: Vec<ScheduledChange>, results: &Vec<Option<bool>>, cache: &mut Cache) -> (r: Vec<Module>)
    requires
        forall|i: int| 0 <= i < changes@.len() && i < results@.len() && results@[i] == Some(true)
            && !(changes@[i].what is Remove) ==> (#[trigger] changes@[i]).instructions.new is Some,
    ensures
        ({
            let n = if changes@.len() < results@.len() { changes@.len() } else { results@.len() };
            &&& final(cache).index.modules@ == saved(old(cache).index.modules@, changes@, results@, n)
            &&& r@ == dropped(changes@, results@, n)
        }),
        final(cache).repositories == old(cache).repositories,
        final(cache).folder == old(cache).folder,
{
    let ghost all = changes@;
    let ghost start = cache.index.modules@;
    let n = if changes.len() < results.len() { changes.len() } else { results.len() };
    let mut changes = changes;
    let mut out: Vec<Module> = Vec::new();
    let mut k: usize = 0;
    while k < n
        invariant
            n <= all.len(),
            n <= results@.len(),
            k <= n,
            changes@ == all.skip(k as int),
            forall|i: int| 0 <= i < all.len() && i < results@.len() && results@[i] == Some(true)
                && !(all[i].what is Remove) ==> (#[trigger] all[i]).instructions.new is Some,
            cache.index.modules@ == saved(start, all, results@, k as nat),
            out@ == dropped(all, results@, k as nat),
            cache.repositories == old(cache).repositories,
            cache.folder == old(cache).folder,
        decreases n - k,
    {
        let c = changes.remove(0);
        assert(c == all[k as int]);
        assert(changes@ =~= all.skip(k + 1));
        match results[k] {
            None => {},
            Some(done) => {
                if !done {
                    cache.remove_module(&c.module.qualifier);
                    out.push(c.module);
                } else {
                    match c.what {
                        ModifyType::Remove => {
                            cache.remove_module(&c.module.qualifier);
                            out.push(c.module);
                        },
                        _ => {
                            match c.instructions.new {
                                Some(built) => {
                                    let installed = InstalledModule { module: c.module, built };
                                    cache.install_module(installed);
                                },
                                None => {},
                            }
                        },
                    }
                }
            },
        }
        k = k + 1;
    }
    out
}

} // verus!
