//! An index of modules, queried by name, by what they provide and by who depends on them.
use vstd::prelude::*;
use crate::module::qualifier::{ModuleQualifier, has_char, contains_char};
use crate::module::repository::Repository;
use crate::text::{same_text, text_is};
use crate::variables::evaluate::texts;

verus! {

/// Something that can be indexed: it has a qualifier and dependencies.
pub trait Indexable {
    /// The names the module depends on.
    spec fn dependency_names(&self) -> Seq<Seq<char>>;

    /// The qualifier of the module.
    spec fn qualified(&self) -> ModuleQualifier;

    /// The dependencies of the module.
    fn dependencies(&self) -> (r: &Vec<String>)
        ensures
            texts(r@) == self.dependency_names(),
    ;

    /// The qualifier of the module.
    fn qualifier(&self) -> (r: &ModuleQualifier)
        ensures
            *r == self.qualified(),
    ;
}

/// The items of `s` for which `p` holds, in order.
pub open spec fn select<T>(s: Seq<T>, p: spec_fn(T) -> bool) -> Seq<T>
    decreases s.len(),
{
    if s.len() == 0 {
        Seq::empty()
    } else if p(s.last()) {
        select(s.drop_last(), p).push(s.last())
    } else {
        select(s.drop_last(), p)
    }
}

/// Whether a module answers a query: by its full qualifier when the query holds `/`, by its
/// name otherwise.
pub open spec fn answers(q: ModuleQualifier, query: Seq<char>) -> bool {
    if has_char(query, '/') {
        q.unique_view() == query
    } else {
        q.name_view() == query
    }
}

/// Whether two qualifiers name the same module.
pub open spec fn same_module(a: ModuleQualifier, b: ModuleQualifier) -> bool {
    a.unique_view() == b.unique_view()
}

/// Whether a module depends on a name that `dependency` provides.
pub open spec fn may_depend<T: Indexable>(m: T, dependency: ModuleQualifier) -> bool {
    exists|k: int| 0 <= k < m.dependency_names().len() && dependency.provides(#[trigger] m.dependency_names()[k])
}

/// Whether some module other than `dependency` provides `name`.
pub open spec fn other_provider<T: Indexable>(ms: Seq<T>, name: Seq<char>, dependency: ModuleQualifier) -> bool {
    exists|j: int| 0 <= j < ms.len() && (#[trigger] ms[j]).qualified().provides(name)
        && !same_module(ms[j].qualified(), dependency)
}

/// Whether a module depends on a name that only `dependency` provides.
pub open spec fn must_depend<T: Indexable>(ms: Seq<T>, m: T, dependency: ModuleQualifier) -> bool {
    exists|k: int| 0 <= k < m.dependency_names().len() && dependency.provides(#[trigger] m.dependency_names()[k])
        && !other_provider(ms, m.dependency_names()[k], dependency)
}

/// The position of the first module with the qualifier.
pub open spec fn first_with<T: Indexable>(ms: Seq<T>, q: ModuleQualifier) -> Option<int>
    decreases ms.len(),
{
    if ms.len() == 0 {
        None
    } else {
        match first_with(ms.drop_last(), q) {
            Some(i) => Some(i),
            None => if same_module(ms.last().qualified(), q) {
                Some(ms.len() - 1)
            } else {
                None
            },
        }
    }
}

/// No two modules share a qualifier.
pub open spec fn distinct_modules<T: Indexable>(ms: Seq<T>) -> bool {
    forall|i: int, j: int|
        0 <= i < j < ms.len() ==> !same_module((#[trigger] ms[i]).qualified(), (#[trigger] ms[j]).qualified())
}

/// The modules without the first one with a qualifier.
pub open spec fn without_module<T: Indexable>(ms: Seq<T>, q: ModuleQualifier) -> Seq<T> {
    match first_with(ms, q) {
        Some(i) => ms.remove(i),
        None => ms,
    }
}

/// The modules after adding one: the module with its qualifier leaves, and the new one comes last.
pub open spec fn added<T: Indexable>(ms: Seq<T>, m: T) -> Seq<T> {
    without_module(ms, m.qualified()).push(m)
}

/// The modules after adding some, in order, each replacing the one with its qualifier.
pub open spec fn added_all<T: Indexable>(ms: Seq<T>, new: Seq<T>) -> Seq<T>
    decreases new.len(),
{
    if new.len() == 0 {
        ms
    } else {
        added(added_all(ms, new.drop_last()), new.last())
    }
}

pub proof fn lemma_first_with<T: Indexable>(ms: Seq<T>, q: ModuleQualifier)
    ensures
        first_with(ms, q) matches Some(i) ==> 0 <= i < ms.len() && same_module(ms[i].qualified(), q)
            && forall|j: int| 0 <= j < i ==> !same_module(#[trigger] ms[j].qualified(), q),
        first_with(ms, q) is None ==> forall|j: int| 0 <= j < ms.len() ==> !same_module(#[trigger] ms[j].qualified(), q),
    decreases ms.len(),
{
    if ms.len() > 0 {
        let d = ms.drop_last();
        lemma_first_with(d, q);
        assert forall|j: int| 0 <= j < d.len() implies d[j] == ms[j] by {}
    }
}

/// The refs in `r` are the items of `s`.
pub open spec fn refers<T>(r: Seq<&T>, s: Seq<T>) -> bool {
    r.len() == s.len() && forall|i: int| 0 <= i < r.len() ==> *r[i] == s[i]
}

/// Indexes modules, so they can be queried in all sorts of ways.
pub struct Index<T: Indexable> {
    pub modules: Vec<T>,
}

impl<T: Indexable> Index<T> {
    /// An empty index.
    pub fn new() -> (r: Self)
        ensures
            r.modules@.len() == 0,
    {
        Index { modules: Vec::new() }
    }

    /// The modules that answer a query, in order.
    pub fn query(&self, query: &str) -> (r: Vec<&T>)
        ensures
            refers(r@, select(self.modules@, |m: T| answers(m.qualified(), query@))),
    {
        let by_unique = contains_char(query, '/');
        let ghost p = |m: T| answers(m.qualified(), query@);
        let mut r: Vec<&T> = Vec::new();
        let mut i: usize = 0;
        while i < self.modules.len()
            invariant
                i <= self.modules@.len(),
                by_unique == has_char(query@, '/'),
                p == (|m: T| answers(m.qualified(), query@)),
                refers(r@, select(self.modules@.subrange(0, i as int), p)),
            decreases self.modules@.len() - i,
        {
            let m = &self.modules[i];
            let q = m.qualifier();
            let hit = if by_unique {
                text_is(&q.unique(), query)
            } else {
                text_is(q.name(), query)
            };
            proof {
                assert(self.modules@.subrange(0, i + 1).drop_last() =~= self.modules@.subrange(0, i as int));
                assert(self.modules@.subrange(0, i + 1).last() == self.modules@[i as int]);
                assert(hit == p(self.modules@[i as int]));
            }
            if hit {
                r.push(m);
            }
            i = i + 1;
        }
        assert(self.modules@.subrange(0, self.modules@.len() as int) =~= self.modules@);
        r
    }

    /// The modules that provide a dependency, in order.
    pub fn providers(&self, dependency: &str) -> (r: Vec<&T>)
        ensures
            refers(r@, select(self.modules@, |m: T| m.qualified().provides(dependency@))),
    {
        let ghost p = |m: T| m.qualified().provides(dependency@);
        let mut r: Vec<&T> = Vec::new();
        let mut i: usize = 0;
        while i < self.modules.len()
            invariant
                i <= self.modules@.len(),
                p == (|m: T| m.qualified().provides(dependency@)),
                refers(r@, select(self.modules@.subrange(0, i as int), p)),
            decreases self.modules@.len() - i,
        {
            let m = &self.modules[i];
            let hit = m.qualifier().does_provide(dependency);
            proof {
                assert(self.modules@.subrange(0, i + 1).drop_last() =~= self.modules@.subrange(0, i as int));
                assert(self.modules@.subrange(0, i + 1).last() == self.modules@[i as int]);
            }
            if hit {
                r.push(m);
            }
            i = i + 1;
        }
        assert(self.modules@.subrange(0, self.modules@.len() as int) =~= self.modules@);
        r
    }

    /// Whether a module depends on a name that `dependency` provides.
    fn depends_on(m: &T, dependency: &ModuleQualifier) -> (r: bool)
        ensures
            r == may_depend(*m, *dependency),
    {
        let deps = m.dependencies();
        let mut k: usize = 0;
        while k < deps.len()
            invariant
                k <= deps@.len(),
                texts(deps@) == m.dependency_names(),
                forall|j: int| 0 <= j < k ==> !dependency.provides(#[trigger] m.dependency_names()[j]),
            decreases deps@.len() - k,
        {
            if dependency.does_provide(deps[k].as_str()) {
                assert(m.dependency_names()[k as int] == deps@[k as int]@);
                return true;
            }
            assert(m.dependency_names()[k as int] == deps@[k as int]@);
            k = k + 1;
        }
        false
    }

    /// The modules other than `dependency` that may depend on it: they depend on something it
    /// provides, which another module may also provide.
    pub fn loose_dependents(&self, dependency: &ModuleQualifier) -> (r: Vec<&T>)
        ensures
            refers(r@, select(self.modules@, |m: T| !same_module(m.qualified(), *dependency) && may_depend(m, *dependency))),
    {
        let ghost p = |m: T| !same_module(m.qualified(), *dependency) && may_depend(m, *dependency);
        let mut r: Vec<&T> = Vec::new();
        let mut i: usize = 0;
        while i < self.modules.len()
            invariant
                i <= self.modules@.len(),
                p == (|m: T| !same_module(m.qualified(), *dependency) && may_depend(m, *dependency)),
                refers(r@, select(self.modules@.subrange(0, i as int), p)),
            decreases self.modules@.len() - i,
        {
            let m = &self.modules[i];
            let hit = !m.qualifier().same(dependency) && Self::depends_on(m, dependency);
            proof {
                assert(self.modules@.subrange(0, i + 1).drop_last() =~= self.modules@.subrange(0, i as int));
                assert(self.modules@.subrange(0, i + 1).last() == self.modules@[i as int]);
            }
            if hit {
                r.push(m);
            }
            i = i + 1;
        }
        assert(self.modules@.subrange(0, self.modules@.len() as int) =~= self.modules@);
        r
    }

    /// Whether a module other than `dependency` provides `name`.
    fn provided_elsewhere(&self, name: &str, dependency: &ModuleQualifier) -> (r: bool)
        ensures
            r == other_provider(self.modules@, name@, *dependency),
    {
        let mut j: usize = 0;
        while j < self.modules.len()
            invariant
                j <= self.modules@.len(),
                forall|k: int| 0 <= k < j ==> !((#[trigger] self.modules@[k]).qualified().provides(name@)
                    && !same_module(self.modules@[k].qualified(), *dependency)),
            decreases self.modules@.len() - j,
        {
            let q = self.modules[j].qualifier();
            if q.does_provide(name) && !q.same(dependency) {
                return true;
            }
            j = j + 1;
        }
        false
    }

    /// Whether a module depends on a name that only `dependency` provides.
    fn needs(&self, m: &T, dependency: &ModuleQualifier) -> (r: bool)
        ensures
            r == must_depend(self.modules@, *m, *dependency),
    {
        let deps = m.dependencies();
        let mut k: usize = 0;
        while k < deps.len()
            invariant
                k <= deps@.len(),
                texts(deps@) == m.dependency_names(),
                forall|j: int| 0 <= j < k ==> !(dependency.provides(#[trigger] m.dependency_names()[j])
                    && !other_provider(self.modules@, m.dependency_names()[j], *dependency)),
            decreases deps@.len() - k,
        {
            assert(m.dependency_names()[k as int] == deps@[k as int]@);
            if dependency.does_provide(deps[k].as_str()) && !self.provided_elsewhere(deps[k].as_str(), dependency) {
                return true;
            }
            k = k + 1;
        }
        false
    }

    /// The modules other than `dependency` that depend on it specifically: they depend on
    /// something that no other module provides.
    pub fn specific_dependents(&self, dependency: &ModuleQualifier) -> (r: Vec<&T>)
        ensures
            refers(r@, select(self.modules@, |m: T| !same_module(m.qualified(), *dependency) && must_depend(self.modules@, m, *dependency))),
    {
        let ghost p = |m: T| !same_module(m.qualified(), *dependency) && must_depend(self.modules@, m, *dependency);
        let mut r: Vec<&T> = Vec::new();
        let mut i: usize = 0;
        while i < self.modules.len()
            invariant
                i <= self.modules@.len(),
                p == (|m: T| !same_module(m.qualified(), *dependency) && must_depend(self.modules@, m, *dependency)),
                refers(r@, select(self.modules@.subrange(0, i as int), p)),
            decreases self.modules@.len() - i,
        {
            let m = &self.modules[i];
            let hit = !m.qualifier().same(dependency) && self.needs(m, dependency);
            proof {
                assert(self.modules@.subrange(0, i + 1).drop_last() =~= self.modules@.subrange(0, i as int));
                assert(self.modules@.subrange(0, i + 1).last() == self.modules@[i as int]);
            }
            if hit {
                r.push(m);
            }
            i = i + 1;
        }
        assert(self.modules@.subrange(0, self.modules@.len() as int) =~= self.modules@);
        r
    }

    /// The position of the module with a qualifier.
    fn position(&self, qualifier: &ModuleQualifier) -> (r: Option<usize>)
        ensures
            match r {
                Some(i) => first_with(self.modules@, *qualifier) == Some(i as int) && i < self.modules@.len(),
                None => first_with(self.modules@, *qualifier) is None,
            },
    {
        let mut i: usize = 0;
        while i < self.modules.len()
            invariant
                i <= self.modules@.len(),
                forall|j: int| 0 <= j < i ==> !same_module(#[trigger] self.modules@[j].qualified(), *qualifier),
            decreases self.modules@.len() - i,
        {
            if self.modules[i].qualifier().same(qualifier) {
                proof {
                    lemma_first_with(self.modules@, *qualifier);
                    if let Some(f) = first_with(self.modules@, *qualifier) {
                        if f > i {
                            assert(!same_module(self.modules@[i as int].qualified(), *qualifier));
                        }
                        if f < i {
                            assert(!same_module(self.modules@[f].qualified(), *qualifier));
                        }
                    }
                }
                return Some(i);
            }
            i = i + 1;
        }
        proof {
            lemma_first_with(self.modules@, *qualifier);
            if let Some(f) = first_with(self.modules@, *qualifier) {
                assert(!same_module(self.modules@[f].qualified(), *qualifier));
            }
        }
        None
    }

    /// The module with the given qualifier.
    pub fn get(&self, qualifier: &ModuleQualifier) -> (r: Option<&T>)
        ensures
            match first_with(self.modules@, *qualifier) {
                Some(i) => r matches Some(m) && *m == self.modules@[i],
                None => r is None,
            },
    {
        match self.position(qualifier) {
            Some(i) => Some(&self.modules[i]),
            None => None,
        }
    }

    /// Removes the module with a qualifier, if there is one, and gives it back.
    pub fn remove(&mut self, qualifier: &ModuleQualifier) -> (r: Option<T>)
        ensures
            final(self).modules@ == without_module(old(self).modules@, *qualifier),
            match first_with(old(self).modules@, *qualifier) {
                Some(i) => r == Some(old(self).modules@[i]),
                None => r is None,
            },
    {
        match self.position(qualifier) {
            Some(i) => Some(self.modules.remove(i)),
            None => None,
        }
    }

    /// Adds a module, replacing the one with its qualifier.
    pub fn add(&mut self, module: T)
        ensures
            final(self).modules@ == added(old(self).modules@, module),
            distinct_modules(old(self).modules@) ==> distinct_modules(final(self).modules@),
            distinct_modules(old(self).modules@) ==> first_with(final(self).modules@, module.qualified())
                == Some(final(self).modules@.len() - 1),
    {
        let q = module.qualifier().copy();
        let ghost before = self.modules@;
        let removed = self.remove(&q);
        proof {
            assert(same_module(q, module.qualified()));
            lemma_first_with_same(before, q, module.qualified());
        }
        self.modules.push(module);
        proof {
            assert(self.modules@ =~= added(before, module));
            if distinct_modules(before) {
                law_get_after_add(before, module);
            }
        }
    }

    /// Adds all modules in order, each replacing the one with its qualifier.
    pub fn add_all(&mut self, modules: Vec<T>)
        ensures
            final(self).modules@ == added_all(old(self).modules@, modules@),
            distinct_modules(old(self).modules@) ==> distinct_modules(final(self).modules@),
    {
        let ghost all = modules@;
        let ghost start = self.modules@;
        let mut modules = modules;
        let mut rest: Vec<T> = Vec::new();
        while modules.len() > 0
            invariant
                modules@.len() + rest@.len() == all.len(),
                forall|k: int| 0 <= k < modules@.len() ==> modules@[k] == all[k],
                forall|k: int| 0 <= k < rest@.len() ==> rest@[k] == all[all.len() - 1 - k],
            decreases modules@.len(),
        {
            let m = modules.pop().unwrap();
            rest.push(m);
        }
        while rest.len() > 0
            invariant
                rest@.len() <= all.len(),
                forall|k: int| 0 <= k < rest@.len() ==> rest@[k] == all[all.len() - 1 - k],
                self.modules@ == added_all(start, all.take(all.len() - rest@.len())),
                distinct_modules(start) ==> distinct_modules(self.modules@),
            decreases rest@.len(),
        {
            let ghost done = all.len() - rest@.len();
            let m = rest.pop().unwrap();
            assert(m == all[done]);
            assert(all.take(done + 1).drop_last() =~= all.take(done));
            self.add(m);
        }
        assert(all.take(all.len() as int) =~= all);
    }

    /// Removes the modules of a repository.
    pub fn remove_repository(&mut self, repo: &Repository)
        ensures
            final(self).modules@ == outside_repository(old(self).modules@, repo.name@),
    {
        let ghost p = |m: T| m.qualified().repository@ != repo.name@;
        let mut kept: Vec<T> = Vec::new();
        let mut all = Vec::new();
        std::mem::swap(&mut all, &mut self.modules);
        let ghost original = all@;
        let total = all.len();
        let mut rev: Vec<T> = Vec::new();
        while all.len() > 0
            invariant
                rev@.len() + all@.len() == original.len(),
                forall|k: int| 0 <= k < all@.len() ==> all@[k] == original[k],
                forall|k: int| 0 <= k < rev@.len() ==> rev@[k] == original[original.len() - 1 - k],
            decreases all@.len(),
        {
            let ghost n = all@.len();
            let m = all.pop().unwrap();
            rev.push(m);
        }
        let mut i: usize = 0;
        assert(select(original.subrange(0, 0), p) =~= Seq::<T>::empty());
        while rev.len() > 0
            invariant
                rev@.len() + i == original.len(),
                total == original.len(),
                forall|k: int| 0 <= k < rev@.len() ==> rev@[k] == original[original.len() - 1 - k],
                p == (|m: T| m.qualified().repository@ != repo.name@),
                kept@ == select(original.subrange(0, i as int), p),
            decreases rev@.len(),
        {
            let m = rev.pop().unwrap();
            proof {
                assert(m == original[i as int]);
                assert(original.subrange(0, i + 1).drop_last() =~= original.subrange(0, i as int));
            }
            if !same_text(m.qualifier().repository(), &repo.name) {
                kept.push(m);
            }
            i = i + 1;
        }
        assert(original.subrange(0, original.len() as int) =~= original);
        self.modules = kept;
    }
}

proof fn lemma_first_with_same<T: Indexable>(ms: Seq<T>, a: ModuleQualifier, b: ModuleQualifier)
    requires
        same_module(a, b),
    ensures
        first_with(ms, a) == first_with(ms, b),
    decreases ms.len(),
{
    if ms.len() > 0 {
        lemma_first_with_same(ms.drop_last(), a, b);
    }
}

proof fn lemma_first_with_last<T: Indexable>(ms: Seq<T>, q: ModuleQualifier)
    requires
        ms.len() > 0,
        same_module(ms.last().qualified(), q),
        forall|j: int| 0 <= j < ms.len() - 1 ==> !same_module(#[trigger] ms[j].qualified(), q),
    ensures
        first_with(ms, q) == Some(ms.len() - 1),
{
    lemma_first_with(ms.drop_last(), q);
    let d = ms.drop_last();
    assert forall|j: int| 0 <= j < d.len() implies !same_module(#[trigger] d[j].qualified(), q) by {
        assert(d[j] == ms[j]);
    }
    if let Some(i) = first_with(d, q) {
        assert(d[i] == ms[i]);
    }
}

/// Adding a module to an index without repeated qualifiers keeps it without repeats, and the
/// module added is the one found under its qualifier.
pub proof fn law_get_after_add<T: Indexable>(ms: Seq<T>, m: T)
    requires
        distinct_modules(ms),
    ensures
        distinct_modules(added(ms, m)),
        first_with(added(ms, m), m.qualified()) == Some(added(ms, m).len() - 1),
        added(ms, m).last() == m,
{
    let after = added(ms, m);
    let kept = after.drop_last();
    lemma_first_with(ms, m.qualified());
    assert(kept =~= without_module(ms, m.qualified()));
    assert forall|j: int| 0 <= j < kept.len() implies !same_module(#[trigger] kept[j].qualified(), m.qualified()) by {
        if let Some(i) = first_with(ms, m.qualified()) {
            if j < i {
                assert(kept[j] == ms[j]);
            } else {
                assert(kept[j] == ms[j + 1]);
            }
        } else {
            assert(kept[j] == ms[j]);
        }
    }
    assert forall|a: int, b: int| 0 <= a < b < after.len() implies !same_module(
        (#[trigger] after[a]).qualified(),
        (#[trigger] after[b]).qualified(),
    ) by {
        if b == after.len() - 1 {
            assert(after[a] == kept[a]);
        } else if let Some(i) = first_with(ms, m.qualified()) {
            let a2 = if a < i { a } else { a + 1 };
            let b2 = if b < i { b } else { b + 1 };
            assert(after[a] == ms[a2]);
            assert(after[b] == ms[b2]);
        } else {
            assert(after[a] == ms[a]);
            assert(after[b] == ms[b]);
        }
    }
    lemma_first_with(after, m.qualified());
    lemma_first_with_last(after, m.qualified());
}

/// Removing the module just added to an index without repeated qualifiers leaves the index as
/// it would be had the module's qualifier been removed before.
pub proof fn law_remove_after_add<T: Indexable>(ms: Seq<T>, m: T)
    requires
        distinct_modules(ms),
    ensures
        without_module(added(ms, m), m.qualified()) == without_module(ms, m.qualified()),
{
    law_get_after_add(ms, m);
    assert(added(ms, m).remove(added(ms, m).len() - 1) =~= without_module(ms, m.qualified()));
}

/// The modules that do not come from the repository with a name, in order.
pub open spec fn outside_repository<T: Indexable>(ms: Seq<T>, name: Seq<char>) -> Seq<T> {
    select(ms, |m: T| m.qualified().repository@ != name)
}

/// Once a repository is removed from an index, none of the modules left comes from it.
pub proof fn law_repository_removed<T: Indexable>(ms: Seq<T>, name: Seq<char>)
    ensures
        forall|k: int| 0 <= k < outside_repository(ms, name).len()
            ==> (#[trigger] outside_repository(ms, name)[k]).qualified().repository@ != name,
    decreases ms.len(),
{
    if ms.len() > 0 {
        law_repository_removed(ms.drop_last(), name);
        let front = outside_repository(ms.drop_last(), name);
        assert forall|k: int| 0 <= k < outside_repository(ms, name).len() implies (#[trigger] outside_repository(
            ms,
            name,
        )[k]).qualified().repository@ != name by {
            if k < front.len() {
                assert(outside_repository(ms, name)[k] == front[k]);
            }
        }
    }
}

} // verus!
