//! The registry of modules: the index of available and installed modules, and the cache.
//!
//! Every change of what is installed goes through the registry. It decides what a command asks
//! for; loading repositories, carrying out changes and showing results is done around it.
pub mod index;
pub mod cache;

use vstd::prelude::*;
use crate::config::Config;
use crate::variables::{Variable, VarView, merged, or_empty};
use crate::module::{Module, InstalledModule};
use crate::module::install::{Gatherer, Gathered};
use crate::module::install::depend::same_qualifier;
use crate::module::qualifier::ModuleQualifier;
use crate::module::repository::Repository;
use crate::output::{Chooser, prompt_choice_module, module_option};
use crate::registry::cache::{Cache, repository_named};
use crate::registry::index::{Index, Indexable, select, answers, first_with, refers, distinct_modules, outside_repository, added_all};
use crate::text::{push_text, copy_string, same_text, text_le, text_at_most, lemma_text_le_total, lemma_text_le_trans};
use crate::variables::evaluate::{texts, lemma_texts_push};
use crate::variables::modifier::string::tilde_expansion;
use crate::variables::token::text;

verus! {

/// The index of the modules the added repositories offer, the cache of what is installed, and
/// the configuration.
pub struct Registry {
    pub index: Index<Module>,
    pub cache: Cache,
    pub config: Config,
}

/// A gatherer that asks for exactly one change.
pub open spec fn gathers_one(g: Gatherer, change: spec_fn(ModuleQualifier) -> Gathered, q: ModuleQualifier) -> bool {
    g.gathered@.len() == 1 && exists|x: ModuleQualifier| same_qualifier(x, q) && g.gathered@[0] == change(x)
}

/// The modules that answer a query, by their full qualifier or their name.
pub open spec fn found<T: Indexable>(ms: Seq<T>, query: Seq<char>) -> Seq<T> {
    select(ms, |m: T| answers(m.qualified(), query))
}

/// Whether a module was picked out of the modules that answered a query: the only one when there
/// is one, and one of them when there are more.
pub open spec fn picked_among<T: Indexable>(candidates: Seq<T>, chosen: Option<ModuleQualifier>) -> bool {
    &&& candidates.len() == 0 ==> chosen is None
    &&& candidates.len() == 1 ==> chosen == Some(candidates[0].qualified())
    &&& candidates.len() > 1 ==> (chosen matches Some(q) ==> exists|k: int|
        0 <= k < candidates.len() && candidates[k].qualified() == q)
}

/// The module the user picked among `shown`: with two or more, the chooser was asked `question`
/// among one line per module, and the module chosen is the one at the index it picked, or none
/// when the index is out of range.
pub open spec fn picked_by<C: Chooser>(shown: Seq<Module>, chooser: &C, question: &str, chosen: Option<ModuleQualifier>) -> bool {
    shown.len() >= 2 ==> exists|options: Vec<String>, p: usize|
        #[trigger] call_ensures(C::pick, (chooser, question, &options), p) && options@.len() == shown.len()
            && (forall|k: int| 0 <= k < shown.len() ==> (#[trigger] options@[k])@ == module_option(shown[k]))
            && chosen == (if p < shown.len() { Some(shown[p as int].qualifier) } else { None::<ModuleQualifier> })
}

/// The installed modules among `ms` as modules.
pub open spec fn as_modules(ms: Seq<InstalledModule>) -> Seq<Module> {
    Seq::new(ms.len(), |k: int| ms[k].module)
}

/// The outcome of installing the chosen module.
pub open spec fn install_outcome(installed: Seq<InstalledModule>, chosen: Option<ModuleQualifier>, r: Result<Gatherer, String>) -> bool {
    match chosen {
        None => r matches Err(e) && e@ == "Couldn't find a module under this name, are relevant sources added?"@,
        Some(q) => if first_with(installed, q) is Some {
            r matches Err(e) && e@ == "Module is already installed, please update or reinstall it"@
        } else {
            r matches Ok(g) && gathers_one(g, |x: ModuleQualifier| Gathered::Install(x), q)
        },
    }
}

/// The outcome of removing the chosen installed module.
pub open spec fn uninstall_outcome(name: Seq<char>, chosen: Option<ModuleQualifier>, r: Result<Gatherer, String>) -> bool {
    match chosen {
        None => r matches Err(e) && e@ == "Couldn't find installed module for '"@ + name + "', is it installed?"@,
        Some(q) => r matches Ok(g) && gathers_one(g, |x: ModuleQualifier| Gathered::Remove(x), q),
    }
}

/// The outcome of updating the chosen installed module.
pub open spec fn update_outcome(available: Seq<Module>, name: Seq<char>, chosen: Option<ModuleQualifier>, r: Result<Gatherer, String>) -> bool {
    match chosen {
        None => r matches Err(e) && e@ == "No module under the name '"@ + name + "' is installed, try installing one first"@,
        Some(q) => if first_with(available, q) is None {
            r matches Err(e) && e@ == "Module is installed but is orphaned, so it cannot be updated"@
        } else {
            r matches Ok(g) && gathers_one(g, |x: ModuleQualifier| Gathered::Update(x), q)
        },
    }
}

/// Whether an installed module is built from the module as it is offered now: the module's
/// directory has the same checksum.
pub open spec fn is_current(installed: InstalledModule, offered: Module) -> bool {
    installed.module.checksum@ == offered.checksum@
}

/// The installed modules that are offered in a newer state than the one they were built from, in
/// the order they are installed.
pub open spec fn outdated(installed: Seq<InstalledModule>, available: Seq<Module>) -> Seq<InstalledModule> {
    select(
        installed,
        |m: InstalledModule|
            match first_with(available, m.qualified()) {
                Some(i) => !is_current(m, available[i]),
                None => false,
            },
    )
}

/// How an installed module stands against the modules offered.
pub enum ModuleStatus {
    UpToDate,
    Outdated,
    /// No added repository offers the module any more.
    Orphaned,
}

/// How an installed module stands against the modules offered.
pub open spec fn status_of(m: InstalledModule, available: Seq<Module>) -> ModuleStatus {
    match first_with(available, m.qualified()) {
        Some(i) => if is_current(m, available[i]) {
            ModuleStatus::UpToDate
        } else {
            ModuleStatus::Outdated
        },
        None => ModuleStatus::Orphaned,
    }
}

/// The lines that show a module found by a query: its qualifier, version and whether it is
/// installed; its name and author; its description.
pub open spec fn query_text(m: Module, installed: bool) -> Seq<char> {
    m.qualifier.unique_view() + "-"@ + m.version@ + " "@ + (if installed { "installed"@ } else { ""@ }) + "\n "@
        + m.name@ + " "@ + (match m.author {
        Some(a) => "by "@ + a@,
        None => ""@,
    }) + "\n "@ + m.description@ + "\n"@
}

/// Whether `order` names each of the first `n` positions exactly once.
pub open spec fn is_permutation(order: Seq<usize>, n: nat) -> bool {
    &&& order.len() == n
    &&& forall|k: int| 0 <= k < order.len() ==> #[trigger] order[k] < n
    &&& forall|a: int, b: int| 0 <= a < b < order.len() ==> #[trigger] order[a] != #[trigger] order[b]
}

/// Whether the texts at the positions `order` names come in order.
pub open spec fn sorted_by(order: Seq<usize>, keys: Seq<Seq<char>>) -> bool {
    forall|a: int, b: int| 0 <= a < b < order.len() ==> text_le(
        keys[#[trigger] order[a] as int],
        keys[#[trigger] order[b] as int],
    )
}

/// The full qualifiers of installed modules.
pub open spec fn installed_uniques(ms: Seq<InstalledModule>) -> Seq<Seq<char>> {
    Seq::new(ms.len(), |i: int| ms[i].qualified().unique_view())
}

/// The positions of some texts, sorted so that the texts come in order; equal texts keep their
/// order.
pub fn sorted_positions(keys: &Vec<String>) -> (r: Vec<usize>)
    ensures
        is_permutation(r@, keys@.len()),
        sorted_by(r@, texts(keys@)),
{
    let ghost ks = texts(keys@);
    let mut order: Vec<usize> = Vec::new();
    let mut i: usize = 0;
    while i < keys.len()
        invariant
            ks == texts(keys@),
            i <= keys@.len(),
            is_permutation(order@, i as nat),
            sorted_by(order@, ks),
        decreases keys@.len() - i,
    {
        let mut p: usize = 0;
        while p < order.len() && text_at_most(&keys[order[p]], &keys[i])
            invariant
                ks == texts(keys@),
                i < keys@.len(),
                is_permutation(order@, i as nat),
                p <= order@.len(),
                forall|q: int| 0 <= q < p ==> text_le(ks[#[trigger] order@[q] as int], ks[i as int]),
            decreases order@.len() - p,
        {
            p = p + 1;
        }
        let ghost before = order@;
        proof {
            assert forall|b: int| p <= b < before.len() implies text_le(ks[i as int], ks[#[trigger] before[b] as int]) by {
                if text_le(ks[before[b] as int], ks[i as int]) {
                    if p < b {
                        lemma_text_le_trans(ks[before[p as int] as int], ks[before[b] as int], ks[i as int]);
                    }
                }
                lemma_text_le_total(ks[i as int], ks[before[b] as int]);
            }
        }
        order.insert(p, i);
        proof {
            let after = order@;
            assert(after == before.insert(p as int, i));
            assert forall|k: int| 0 <= k < after.len() implies #[trigger] after[k] < i + 1 by {
                if k < p {
                    assert(after[k] == before[k]);
                } else if k > p {
                    assert(after[k] == before[k - 1]);
                }
            }
            assert forall|a: int, b: int| 0 <= a < b < after.len() implies #[trigger] after[a] != #[trigger] after[b] by {
                let a0 = if a < p { a } else { a - 1 };
                let b0 = if b < p { b } else { b - 1 };
                if a != p && b != p {
                    assert(after[a] == before[a0] && after[b] == before[b0]);
                } else if a == p {
                    assert(after[b] == before[b0]);
                } else {
                    assert(after[a] == before[a0]);
                }
            }
            assert forall|a: int, b: int| 0 <= a < b < after.len() implies text_le(
                ks[#[trigger] after[a] as int],
                ks[#[trigger] after[b] as int],
            ) by {
                let a0 = if a < p { a } else { a - 1 };
                let b0 = if b < p { b } else { b - 1 };
                if a != p && b != p {
                    assert(after[a] == before[a0] && after[b] == before[b0]);
                } else if a == p {
                    assert(after[b] == before[b0]);
                } else {
                    assert(after[a] == before[a0]);
                }
            }
        }
        i = i + 1;
    }
    order
}

/// A row of the list of installed modules.
pub struct ListRow {
    pub name: String,
    pub unique: String,
    pub version: String,
    pub status: ModuleStatus,
    /// When the module was built, in milliseconds since the Unix epoch.
    pub time: u64,
}

/// Whether a row shows an installed module.
pub open spec fn describes(row: ListRow, m: InstalledModule, available: Seq<Module>) -> bool {
    &&& row.name@ == m.module.name@
    &&& row.unique@ == m.qualified().unique_view()
    &&& row.version@ == m.module.version@
    &&& row.status == status_of(m, available)
    &&& row.time == m.built.time
}

/// The newest state of each installed module: the one offered now, or the installed one when
/// no repository offers it any more.
pub open spec fn newest(installed: Seq<InstalledModule>, available: Seq<Module>) -> Seq<Module> {
    Seq::new(
        installed.len(),
        |i: int|
            match first_with(available, installed[i].qualified()) {
                Some(k) => available[k],
                None => installed[i].module,
            },
    )
}

/// The injections of some modules merged over each other, in order.
pub open spec fn injected(ms: Seq<Module>) -> VarView
    decreases ms.len(),
{
    if ms.len() == 0 {
        VarView::Group(Seq::empty())
    } else {
        merged(injected(ms.drop_last()), or_empty(ms.last().injections))
    }
}

impl InstalledModule {
    /// Whether the module is built from the module as it is offered now.
    pub fn up_to_date(&self, offered: &Module) -> (r: bool)
        ensures
            r == is_current(*self, *offered),
    {
        same_text(&self.module.checksum, &offered.checksum)
    }
}

impl Registry {
    /// A registry with nothing indexed, whose cache lives in the configured directory.
    pub fn new(config: Config) -> (r: Self)
        ensures
            r.index.modules@.len() == 0,
            tilde_expansion(config.cache_dir@, r.cache.folder@),
            r.cache.index.modules@.len() == 0,
            r.cache.repositories@.len() == 0,
            r.config == config,
    {
        let cache = Cache::new(&config);
        Registry { index: Index::new(), cache, config }
    }

    /// Indexes the modules a repository offers, each replacing the one with its qualifier.
    pub fn index_modules(&mut self, modules: Vec<Module>)
        ensures
            final(self).index.modules@ == added_all(old(self).index.modules@, modules@),
            distinct_modules(old(self).index.modules@) ==> distinct_modules(final(self).index.modules@),
            final(self).cache == old(self).cache,
            final(self).config == old(self).config,
    {
        self.index.add_all(modules);
    }

    /// Adds a repository to the sources; an error when one with its name, or one at its
    /// location, is added already. Its modules are indexed once they are loaded.
    pub fn add_repository(&mut self, repository: Repository) -> (r: Result<(), String>)
        ensures
            r is Ok <==> final(self).cache.repositories@ == old(self).cache.repositories@.push(repository),
            r is Err ==> final(self).cache.repositories == old(self).cache.repositories,
            final(self).index == old(self).index,
            final(self).cache.index == old(self).cache.index,
    {
        let r = self.cache.add_repository(repository);
        proof {
            if r is Err {
                assert(self.cache.repositories@.len() == old(self).cache.repositories@.len());
            }
        }
        r
    }

    /// Removes the repository with a name from the sources and unindexes its modules; `None`
    /// when no repository has the name.
    pub fn remove_repository(&mut self, name: &str) -> (r: Option<Repository>)
        ensures
            match repository_named(old(self).cache.repositories@, name@) {
                Some(i) => r == Some(old(self).cache.repositories@[i])
                    && final(self).cache.repositories@ == old(self).cache.repositories@.update(
                    i,
                    old(self).cache.repositories@.last(),
                ).drop_last() && final(self).index.modules@ == outside_repository(
                    old(self).index.modules@,
                    old(self).cache.repositories@[i].name@,
                ),
                None => r is None && final(self).cache.repositories == old(self).cache.repositories
                    && final(self).index == old(self).index,
            },
            final(self).cache.index == old(self).cache.index,
    {
        let removed = self.cache.remove_repository(name);
        match removed {
            Some(repo) => {
                self.index.remove_repository(&repo);
                Some(repo)
            },
            None => None,
        }
    }

    /// What installing the chosen module asks for.
    pub fn install_chosen(&self, chosen: Option<&ModuleQualifier>) -> (r: Result<Gatherer, String>)
        ensures
            install_outcome(self.cache.index.modules@, match chosen { Some(q) => Some(*q), None => None }, r),
    {
        proof {
            reveal_strlit("Couldn't find a module under this name, are relevant sources added?");
            reveal_strlit("Module is already installed, please update or reinstall it");
        }
        match chosen {
            None => Err(text("Couldn't find a module under this name, are relevant sources added?")),
            Some(q) => {
                if self.cache.index.get(q).is_some() {
                    Err(text("Module is already installed, please update or reinstall it"))
                } else {
                    let mut g = Gatherer::new();
                    let x = q.copy();
                    g.install(x);
                    assert(same_qualifier(x, *q) && g.gathered@[0] == Gathered::Install(x));
                    Ok(g)
                }
            },
        }
    }

    /// Installs a module: finds the modules that answer the name, lets the user pick one when
    /// there are more, and asks for it to be installed.
    pub fn install_module<C: Chooser>(&self, name: &str, chooser: &C) -> (r: Result<Gatherer, String>)
        ensures
            exists|chosen: Option<ModuleQualifier>|
                picked_among(found(self.index.modules@, name@), chosen) && picked_by(
                    found(self.index.modules@, name@),
                    chooser,
                    "Which module do you mean?",
                    chosen,
                ) && install_outcome(self.cache.index.modules@, chosen, r),
    {
        let modules = self.index.query(name);
        let ghost candidates = found(self.index.modules@, name@);
        let choice = prompt_choice_module(&modules, "Which module do you mean?", chooser);
        match choice {
            Some(i) => {
                let q = &modules[i].qualifier;
                let r = self.install_chosen(Some(q));
                assert(candidates[i as int].qualified() == *q);
                assert(picked_among(candidates, Some(*q)));
                r
            },
            None => {
                let r = self.install_chosen(None);
                assert(picked_among(candidates, None::<ModuleQualifier>));
                r
            },
        }
    }

    /// What removing the chosen installed module asks for.
    pub fn uninstall_chosen(&self, name: &str, chosen: Option<&ModuleQualifier>) -> (r: Result<Gatherer, String>)
        ensures
            uninstall_outcome(name@, match chosen { Some(q) => Some(*q), None => None }, r),
    {
        proof {
            reveal_strlit("Couldn't find installed module for '");
            reveal_strlit("', is it installed?");
        }
        match chosen {
            None => {
                let mut e = text("Couldn't find installed module for '");
                push_text(&mut e, name);
                push_text(&mut e, "', is it installed?");
                Err(e)
            },
            Some(q) => {
                let mut g = Gatherer::new();
                let x = q.copy();
                g.remove(x);
                assert(same_qualifier(x, *q) && g.gathered@[0] == Gathered::Remove(x));
                Ok(g)
            },
        }
    }

    /// The installed modules that answer a name, as modules.
    fn installed_found(&self, name: &str) -> (r: Vec<&Module>)
        ensures
            r@.len() == found(self.cache.index.modules@, name@).len(),
            forall|k: int| 0 <= k < r@.len() ==> *r@[k] == found(self.cache.index.modules@, name@)[k].module,
    {
        let installed = self.cache.index.query(name);
        let mut r: Vec<&Module> = Vec::new();
        let mut k: usize = 0;
        while k < installed.len()
            invariant
                refers(installed@, found(self.cache.index.modules@, name@)),
                k <= installed@.len(),
                r@.len() == k,
                forall|x: int| 0 <= x < k ==> *r@[x] == (*installed@[x]).module,
            decreases installed@.len() - k,
        {
            r.push(&installed[k].module);
            k = k + 1;
        }
        r
    }

    /// Removes an installed module: finds the installed modules that answer the name, lets the
    /// user pick one when there are more, and asks for it to be removed.
    pub fn uninstall_module<C: Chooser>(&self, name: &str, chooser: &C) -> (r: Result<Gatherer, String>)
        ensures
            exists|chosen: Option<ModuleQualifier>|
                picked_among(found(self.cache.index.modules@, name@), chosen) && picked_by(
                    as_modules(found(self.cache.index.modules@, name@)),
                    chooser,
                    "Which module do you want to remove?",
                    chosen,
                ) && uninstall_outcome(name@, chosen, r),
    {
        let ghost candidates = found(self.cache.index.modules@, name@);
        let modules = self.installed_found(name);
        let choice = prompt_choice_module(&modules, "Which module do you want to remove?", chooser);
        match choice {
            Some(i) => {
                let q = &modules[i].qualifier;
                assert(candidates[i as int].qualified() == *q);
                self.uninstall_chosen(name, Some(q))
            },
            None => self.uninstall_chosen(name, None),
        }
    }

    /// What updating the chosen installed module asks for.
    pub fn update_chosen(&self, name: &str, chosen: Option<&ModuleQualifier>) -> (r: Result<Gatherer, String>)
        ensures
            update_outcome(self.index.modules@, name@, match chosen { Some(q) => Some(*q), None => None }, r),
    {
        proof {
            reveal_strlit("No module under the name '");
            reveal_strlit("' is installed, try installing one first");
            reveal_strlit("Module is installed but is orphaned, so it cannot be updated");
        }
        match chosen {
            None => {
                let mut e = text("No module under the name '");
                push_text(&mut e, name);
                push_text(&mut e, "' is installed, try installing one first");
                Err(e)
            },
            Some(q) => {
                if self.index.get(q).is_none() {
                    Err(text("Module is installed but is orphaned, so it cannot be updated"))
                } else {
                    let mut g = Gatherer::new();
                    let x = q.copy();
                    g.update(x);
                    assert(same_qualifier(x, *q) && g.gathered@[0] == Gathered::Update(x));
                    Ok(g)
                }
            },
        }
    }

    /// Updates an installed module: finds the installed modules that answer the name, lets the
    /// user pick one when there are more, and asks for it to be updated.
    pub fn update_module<C: Chooser>(&self, name: &str, chooser: &C) -> (r: Result<Gatherer, String>)
        ensures
            exists|chosen: Option<ModuleQualifier>|
                picked_among(found(self.cache.index.modules@, name@), chosen) && picked_by(
                    as_modules(found(self.cache.index.modules@, name@)),
                    chooser,
                    "Which module do you want to update?",
                    chosen,
                ) && update_outcome(self.index.modules@, name@, chosen, r),
    {
        let ghost candidates = found(self.cache.index.modules@, name@);
        let modules = self.installed_found(name);
        let choice = prompt_choice_module(&modules, "Which module do you want to update?", chooser);
        match choice {
            Some(i) => {
                let q = &modules[i].qualifier;
                assert(candidates[i as int].qualified() == *q);
                self.update_chosen(name, Some(q))
            },
            None => self.update_chosen(name, None),
        }
    }

    /// How an installed module stands against the modules offered.
    pub fn status(&self, module: &InstalledModule) -> (r: ModuleStatus)
        ensures
            r == status_of(*module, self.index.modules@),
    {
        match self.index.get(&module.module.qualifier) {
            Some(offered) => if module.up_to_date(offered) {
                ModuleStatus::UpToDate
            } else {
                ModuleStatus::Outdated
            },
            None => ModuleStatus::Orphaned,
        }
    }

    /// Updates every installed module that is offered in a newer state: a gatherer that asks for
    /// each of them to be updated, in the order they are installed, or `None` when everything is
    /// up to date.
    pub fn update_everything(&self) -> (r: Option<Gatherer>)
        ensures
            ({
                let stale = outdated(self.cache.index.modules@, self.index.modules@);
                &&& stale.len() == 0 ==> r is None
                &&& stale.len() > 0 ==> (r matches Some(g) && g.gathered@.len() == stale.len() && forall|k: int|
                    0 <= k < stale.len() ==> (#[trigger] g.gathered@[k] matches Gathered::Update(x) && same_qualifier(
                        x,
                        stale[k].qualified(),
                    )))
            }),
    {
        let ghost installed = self.cache.index.modules@;
        let ghost p = |m: InstalledModule|
            match first_with(self.index.modules@, m.qualified()) {
                Some(i) => !is_current(m, self.index.modules@[i]),
                None => false,
            };
        let mut g = Gatherer::new();
        let mut i: usize = 0;
        while i < self.cache.index.modules.len()
            invariant
                installed == self.cache.index.modules@,
                p == (|m: InstalledModule|
                    match first_with(self.index.modules@, m.qualified()) {
                        Some(i) => !is_current(m, self.index.modules@[i]),
                        None => false,
                    }),
                i <= installed.len(),
                g.gathered@.len() == select(installed.subrange(0, i as int), p).len(),
                forall|k: int| 0 <= k < g.gathered@.len() ==> (#[trigger] g.gathered@[k] matches Gathered::Update(x)
                    && same_qualifier(x, select(installed.subrange(0, i as int), p)[k].qualified())),
            decreases installed.len() - i,
        {
            let m = &self.cache.index.modules[i];
            proof {
                assert(installed.subrange(0, i + 1).drop_last() =~= installed.subrange(0, i as int));
                assert(installed.subrange(0, i + 1).last() == installed[i as int]);
            }
            let stale = match self.status(m) {
                ModuleStatus::Outdated => true,
                _ => false,
            };
            assert(stale == p(installed[i as int]));
            if stale {
                let ghost before = g.gathered@;
                g.update(m.module.qualifier.copy());
                proof {
                    let sel = select(installed.subrange(0, i + 1), p);
                    assert forall|k: int| 0 <= k < g.gathered@.len() implies (#[trigger] g.gathered@[k] matches Gathered::Update(x)
                        && same_qualifier(x, sel[k].qualified())) by {
                        if k < before.len() {
                            assert(g.gathered@[k] == before[k]);
                        }
                    }
                }
            }
            i = i + 1;
        }
        assert(installed.subrange(0, installed.len() as int) =~= installed);
        if g.gathered.len() == 0 {
            None
        } else {
            Some(g)
        }
    }

    /// The rows of the list of installed modules, in the order of their full qualifiers.
    pub fn list(&self) -> (r: Vec<ListRow>)
        ensures
            exists|order: Seq<usize>|
                is_permutation(order, self.cache.index.modules@.len()) && sorted_by(
                    order,
                    installed_uniques(self.cache.index.modules@),
                ) && r@.len() == order.len() && forall|k: int|
                    0 <= k < order.len() ==> describes(
                        #[trigger] r@[k],
                        self.cache.index.modules@[order[k] as int],
                        self.index.modules@,
                    ),
    {
        let ms = &self.cache.index.modules;
        let mut keys: Vec<String> = Vec::new();
        let mut i: usize = 0;
        while i < ms.len()
            invariant
                i <= ms@.len(),
                texts(keys@) == installed_uniques(ms@).take(i as int),
            decreases ms@.len() - i,
        {
            let ghost prev = keys@;
            keys.push(ms[i].module.qualifier.unique());
            proof {
                assert(keys@ == prev.push(keys@.last()));
                lemma_texts_push(prev, keys@.last());
            }
            assert(texts(keys@) =~= installed_uniques(ms@).take(i + 1));
            i = i + 1;
        }
        assert(texts(keys@) =~= installed_uniques(ms@));
        let order = sorted_positions(&keys);
        let mut rows: Vec<ListRow> = Vec::new();
        let mut k: usize = 0;
        while k < order.len()
            invariant
                is_permutation(order@, ms@.len()),
                k <= order@.len(),
                rows@.len() == k,
                forall|x: int| 0 <= x < k ==> describes(#[trigger] rows@[x], ms@[order@[x] as int], self.index.modules@),
            decreases order@.len() - k,
        {
            let m = &ms[order[k]];
            let row = ListRow {
                name: copy_string(&m.module.name),
                unique: m.module.qualifier.unique(),
                version: copy_string(&m.module.version),
                status: self.status(m),
                time: m.built.time,
            };
            rows.push(row);
            k = k + 1;
        }
        rows
    }

    /// The variables the installed modules inject, each taken from its newest state, merged in
    /// the order the modules are installed.
    pub fn newest_injected_variables(&self) -> (r: Variable)
        ensures
            r.view() == injected(newest(self.cache.index.modules@, self.index.modules@)),
    {
        let ghost all = newest(self.cache.index.modules@, self.index.modules@);
        let mut r = Variable::base();
        let mut i: usize = 0;
        while i < self.cache.index.modules.len()
            invariant
                all == newest(self.cache.index.modules@, self.index.modules@),
                i <= self.cache.index.modules@.len(),
                r.view() == injected(all.take(i as int)),
            decreases self.cache.index.modules@.len() - i,
        {
            let installed = &self.cache.index.modules[i];
            let m = match self.index.get(&installed.module.qualifier) {
                Some(offered) => offered,
                None => &installed.module,
            };
            assert(all.take(i + 1).drop_last() =~= all.take(i as int));
            assert(*m == all[i as int]);
            match &m.injections {
                Some(v) => r.merge(v),
                None => r.merge(&Variable::base()),
            }
            i = i + 1;
        }
        assert(all.take(self.cache.index.modules@.len() as int) =~= all);
        r
    }

    /// The lines that show what a query finds, module by module.
    pub fn query_module(&self, query: &str) -> (r: Vec<String>)
        ensures
            r@.len() == found(self.index.modules@, query@).len(),
            forall|k: int| 0 <= k < r@.len() ==> (#[trigger] r@[k])@ == query_text(
                found(self.index.modules@, query@)[k],
                first_with(self.cache.index.modules@, found(self.index.modules@, query@)[k].qualifier) is Some,
            ),
    {
        proof {
            reveal_strlit("-");
            reveal_strlit(" ");
            reveal_strlit("installed");
            reveal_strlit("");
            reveal_strlit("\n ");
            reveal_strlit("by ");
            reveal_strlit("\n");
        }
        let modules = self.index.query(query);
        let ghost candidates = found(self.index.modules@, query@);
        let mut r: Vec<String> = Vec::new();
        let mut k: usize = 0;
        while k < modules.len()
            invariant
                refers(modules@, candidates),
                candidates == found(self.index.modules@, query@),
                k <= modules@.len(),
                r@.len() == k,
                forall|x: int| 0 <= x < k ==> (#[trigger] r@[x])@ == query_text(
                    candidates[x],
                    first_with(self.cache.index.modules@, candidates[x].qualifier) is Some,
                ),
            decreases modules@.len() - k,
        {
            let m = modules[k];
            let installed = self.cache.index.get(&m.qualifier).is_some();
            let mut line = m.qualifier.unique();
            push_text(&mut line, "-");
            push_text(&mut line, m.version.as_str());
            push_text(&mut line, " ");
            push_text(&mut line, if installed { "installed" } else { "" });
            push_text(&mut line, "\n ");
            push_text(&mut line, m.name.as_str());
            push_text(&mut line, " ");
            match &m.author {
                Some(a) => {
                    push_text(&mut line, "by ");
                    push_text(&mut line, a.as_str());
                },
                None => push_text(&mut line, ""),
            }
            push_text(&mut line, "\n ");
            push_text(&mut line, m.description.as_str());
            push_text(&mut line, "\n");
            r.push(line);
            k = k + 1;
        }
        r
    }
}

} // verus!
