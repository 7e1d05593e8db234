//! The installation state of the machine: the installed modules and the added repositories.
//!
//! Reading and writing the state to disk is done by the program around this library, after each
//! change made here.
use vstd::prelude::*;
use crate::config::Config;
use crate::module::{InstalledModule};
use crate::module::qualifier::ModuleQualifier;
use crate::module::repository::Repository;
use crate::registry::index::{Index, distinct_modules, added, without_module};
use crate::text::{same_text, text_is, push_text, chars_of};
use crate::variables::modifier::string::{expand_tilde, tilde_expansion, split_on, split_chars};
use crate::variables::token::text;

verus! {

/// The installation state: where it is kept, the installed modules and the added repositories.
pub struct Cache {
    pub folder: String,
    pub index: Index<InstalledModule>,
    pub repositories: Vec<Repository>,
}

/// The position of the first repository with a name.
pub open spec fn repository_named(repos: Seq<Repository>, name: Seq<char>) -> Option<int>
    decreases repos.len(),
{
    if repos.len() == 0 {
        None
    } else {
        match repository_named(repos.drop_last(), name) {
            Some(i) => Some(i),
            None => if repos.last().name@ == name {
                Some(repos.len() - 1)
            } else {
                None
            },
        }
    }
}

/// The position of the first repository at a location.
pub open spec fn repository_at(repos: Seq<Repository>, location: Seq<char>) -> Option<int>
    decreases repos.len(),
{
    if repos.len() == 0 {
        None
    } else {
        match repository_at(repos.drop_last(), location) {
            Some(i) => Some(i),
            None => if repos.last().location@ == location {
                Some(repos.len() - 1)
            } else {
                None
            },
        }
    }
}

/// Finds the first repository with a name.
fn find_named(repos: &Vec<Repository>, name: &str) -> (r: Option<usize>)
    ensures
        match r {
            Some(i) => repository_named(repos@, name@) == Some(i as int) && i < repos@.len(),
            None => repository_named(repos@, name@) is None,
        },
{
    let mut i: usize = 0;
    let mut found: Option<usize> = None;
    while i < repos.len()
        invariant
            i <= repos@.len(),
            match found {
                Some(k) => repository_named(repos@.subrange(0, i as int), name@) == Some(k as int) && k < i,
                None => repository_named(repos@.subrange(0, i as int), name@) is None,
            },
        decreases repos@.len() - i,
    {
        proof {
            assert(repos@.subrange(0, i + 1).drop_last() =~= repos@.subrange(0, i as int));
        }
        if found.is_none() && text_is(&repos[i].name, name) {
            found = Some(i);
        }
        i = i + 1;
    }
    assert(repos@.subrange(0, repos@.len() as int) =~= repos@);
    found
}

/// Finds the first repository at a location.
fn find_at(repos: &Vec<Repository>, location: &String) -> (r: Option<usize>)
    ensures
        match r {
            Some(i) => repository_at(repos@, location@) == Some(i as int) && i < repos@.len(),
            None => repository_at(repos@, location@) is None,
        },
{
    let mut i: usize = 0;
    let mut found: Option<usize> = None;
    while i < repos.len()
        invariant
            i <= repos@.len(),
            match found {
                Some(k) => repository_at(repos@.subrange(0, i as int), location@) == Some(k as int) && k < i,
                None => repository_at(repos@.subrange(0, i as int), location@) is None,
            },
        decreases repos@.len() - i,
    {
        proof {
            assert(repos@.subrange(0, i + 1).drop_last() =~= repos@.subrange(0, i as int));
        }
        if found.is_none() && same_text(&repos[i].location, location) {
            found = Some(i);
        }
        i = i + 1;
    }
    assert(repos@.subrange(0, repos@.len() as int) =~= repos@);
    found
}

impl Cache {
    /// A cache in the configured directory, with nothing loaded.
    pub fn new(config: &Config) -> (r: Self)
        ensures
            tilde_expansion(config.cache_dir@, r.folder@),
            r.index.modules@.len() == 0,
            r.repositories@.len() == 0,
    {
        Cache { folder: expand_tilde(config.cache_dir.as_str()), index: Index::new(), repositories: Vec::new() }
    }

    /// Records a module as installed, replacing the entry it had.
    pub fn install_module(&mut self, module: InstalledModule)
        ensures
            final(self).index.modules@ == added(old(self).index.modules@, module),
            distinct_modules(old(self).index.modules@) ==> distinct_modules(final(self).index.modules@),
            final(self).repositories == old(self).repositories,
            final(self).folder == old(self).folder,
    {
        self.index.add(module);
    }

    /// Records a module as removed.
    pub fn remove_module(&mut self, qualifier: &ModuleQualifier)
        ensures
            final(self).index.modules@ == without_module(old(self).index.modules@, *qualifier),
            final(self).repositories == old(self).repositories,
            final(self).folder == old(self).folder,
    {
        self.index.remove(qualifier);
    }

    /// Adds a repository; an error when one with its name, or one at its location, is added.
    pub fn add_repository(&mut self, repo: Repository) -> (r: Result<(), String>)
        ensures
            match repository_named(old(self).repositories@, repo.name@) {
                Some(_) => r matches Err(e) && e@ == "There is already a repository loaded with the same alias '"@ + repo.name@ + "'"@
                    && final(self).repositories == old(self).repositories,
                None => match repository_at(old(self).repositories@, repo.location@) {
                    Some(i) => r matches Err(e) && e@ == "This repository is already added (under the alias '"@
                        + old(self).repositories@[i].name@ + "')"@ && final(self).repositories == old(self).repositories,
                    None => r is Ok && final(self).repositories@ == old(self).repositories@.push(repo),
                },
            },
            final(self).index == old(self).index,
            final(self).folder == old(self).folder,
    {
        proof {
            reveal_strlit("There is already a repository loaded with the same alias '");
            reveal_strlit("'");
            reveal_strlit("This repository is already added (under the alias '");
            reveal_strlit("')");
        }
        if find_named(&self.repositories, repo.name.as_str()).is_some() {
            let mut e = text("There is already a repository loaded with the same alias '");
            push_text(&mut e, repo.name.as_str());
            push_text(&mut e, "'");
            return Err(e);
        }
        if let Some(i) = find_at(&self.repositories, &repo.location) {
            let mut e = text("This repository is already added (under the alias '");
            push_text(&mut e, self.repositories[i].name.as_str());
            push_text(&mut e, "')");
            return Err(e);
        }
        self.repositories.push(repo);
        Ok(())
    }

    /// Removes the repository with a name and gives it back, moving the last repository into
    /// its place.
    pub fn remove_repository(&mut self, name: &str) -> (r: Option<Repository>)
        ensures
            match repository_named(old(self).repositories@, name@) {
                Some(i) => r == Some(old(self).repositories@[i]) && final(self).repositories@
                    == old(self).repositories@.update(i, old(self).repositories@.last()).drop_last(),
                None => r is None && final(self).repositories == old(self).repositories,
            },
            final(self).index == old(self).index,
            final(self).folder == old(self).folder,
    {
        match find_named(&self.repositories, name) {
            Some(i) => {
                let ghost before = self.repositories@;
                let removed = self.repositories.swap_remove(i);
                assert(self.repositories@ =~= before.update(i as int, before.last()).drop_last());
                Some(removed)
            },
            None => None,
        }
    }

    /// The repository with a name.
    pub fn get_repository(&self, name: &str) -> (r: Option<&Repository>)
        ensures
            match repository_named(self.repositories@, name@) {
                Some(i) => r matches Some(x) && *x == self.repositories@[i],
                None => r is None,
            },
    {
        match find_named(&self.repositories, name) {
            Some(i) => Some(&self.repositories[i]),
            None => None,
        }
    }
}

/// An installed module as an earlier cache recorded it.
pub struct CacheModule {
    /// The full qualifier, `repository/name`.
    pub qualifier: String,
    pub checksum: String,
}

/// A repository as an earlier cache recorded it.
pub struct CacheRepository {
    pub path: String,
    pub alias: String,
}

impl CacheModule {
    /// Whether the record is for `qualifier`: the full qualifier, or the name after its one `/`.
    pub fn qualifies(&self, qualifier: &str) -> (r: bool)
        ensures
            r == (self.qualifier@ == qualifier@ || (split_on(self.qualifier@, '/').len() == 2
                && split_on(self.qualifier@, '/')[1] == qualifier@)),
    {
        if text_is(&self.qualifier, qualifier) {
            return true;
        }
        let parts = split_chars(&chars_of(self.qualifier.as_str()), '/');
        if parts.len() != 2 {
            return false;
        }
        let q = chars_of(qualifier);
        crate::text::chars_equal(&parts[1], &q)
    }
}

/// Removing a repository just added under a new name and location gives it back and leaves the
/// sources as they were.
pub proof fn law_remove_after_add_repository(repos: Seq<Repository>, repo: Repository)
    requires
        repository_named(repos, repo.name@) is None,
        repository_at(repos, repo.location@) is None,
    ensures
        repository_named(repos.push(repo), repo.name@) == Some(repos.len() as int),
        repos.push(repo)[repos.len() as int] == repo,
        repos.push(repo).update(repos.len() as int, repos.push(repo).last()).drop_last() == repos,
{
    assert(repos.push(repo).drop_last() =~= repos);
    assert(repos.push(repo).update(repos.len() as int, repos.push(repo).last()).drop_last() =~= repos);
}

} // verus!
