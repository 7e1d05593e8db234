//! Modules: how they are named, what they hold, and what they change on the system.
pub mod qualifier;
pub mod change;
pub mod repository;
pub mod install;

use vstd::prelude::*;
use crate::jobs::{Job, BuiltJob, jobs_equal, same_jobs};
use crate::module::qualifier::{ModuleQualifier, legal_text};
use crate::registry::index::Indexable;
use crate::variables::Variable;
use crate::variables::evaluate::texts;
use crate::variables::modifier::string::{split_on, split_chars};
use crate::text::{chars_of, string_from};
use crate::variables::token::text;

verus! {

/// The config file of a module, as read.
pub struct ModuleConfig {
    /// Display name.
    pub name: String,
    /// What the module is for.
    pub description: String,
    pub author: Option<String>,
    pub version: String,
    /// Overrides the module name, which is otherwise its directory name.
    pub alias: Option<String>,
    /// Another name the module provides.
    pub provides: Option<String>,
    /// The modules this one depends on, separated by spaces.
    pub depends: Option<String>,
    /// Precedence over other modules, mainly for injections.
    pub precedence: Option<u32>,
    pub jobs: Vec<Job>,
    /// Variables of this module only.
    pub variables: Option<Variable>,
    /// Variables injected into the global tree while the module is installed.
    pub injections: Option<Variable>,
}

/// A module of a repository.
pub struct Module {
    pub path: String,
    pub qualifier: ModuleQualifier,
    pub dependencies: Vec<String>,
    pub checksum: String,
    pub name: String,
    pub description: String,
    pub author: Option<String>,
    pub version: String,
    pub jobs: Vec<Job>,
    pub variables: Option<Variable>,
    pub injections: Option<Variable>,
    pub precedence: Option<u32>,
}

/// The dependencies a config names: its `depends` split at spaces, or none.
pub open spec fn config_dependencies(depends: Option<String>) -> Seq<Seq<char>> {
    match depends {
        Some(d) => split_on(d@, ' '),
        None => Seq::empty(),
    }
}

/// Splits a text at spaces.
pub fn split_spaces(s: &String) -> (r: Vec<String>)
    ensures
        texts(r@) == split_on(s@, ' '),
{
    let parts = split_chars(&chars_of(s.as_str()), ' ');
    let mut r: Vec<String> = Vec::new();
    let mut i: usize = 0;
    while i < parts.len()
        invariant
            i <= parts@.len(),
            r@.len() == i,
            forall|j: int| 0 <= j < i ==> #[trigger] r@[j]@ == parts@[j]@,
        decreases parts@.len() - i,
    {
        r.push(string_from(&parts[i]));
        i = i + 1;
    }
    assert(texts(r@) =~= crate::variables::modifier::string::views(parts@));
    r
}

impl Module {
    /// The module read from its config in `directory` of the repository `repository`, whose
    /// contents have the checksum `checksum`; an error when its name is not legal.
    pub fn from_config(directory: String, repository: String, config: ModuleConfig, checksum: String) -> (r: Result<Module, String>)
        ensures
            match r {
                Ok(m) => {
                    &&& m.path == directory
                    &&& m.qualifier.repository@ == repository@
                    &&& Some(m.qualifier.dir@) == qualifier::file_name_of(directory@)
                    &&& qualifier::opt_view(m.qualifier.alias) == qualifier::opt_view(config.alias)
                    &&& qualifier::opt_view(m.qualifier.provide) == qualifier::opt_view(config.provides)
                    &&& legal_text(m.qualifier.name_view())
                    &&& texts(m.dependencies@) == config_dependencies(config.depends)
                    &&& m.checksum == checksum
                    &&& m.name == config.name
                    &&& m.version == config.version
                    &&& m.jobs == config.jobs
                    &&& m.precedence == config.precedence
                },
                Err(_) => qualifier::file_name_of(directory@) is None || ({
                    let alias = qualifier::opt_view(config.alias);
                    let name = match alias {
                        Some(a) => a,
                        None => qualifier::file_name_of(directory@)->0,
                    };
                    !legal_text(name)
                }),
            },
    {
        let dependencies = match &config.depends {
            Some(d) => split_spaces(d),
            None => {
                let v: Vec<String> = Vec::new();
                assert(texts(v@) =~= Seq::<Seq<char>>::empty());
                v
            },
        };
        let qualifier = match ModuleQualifier::try_new(repository, directory.as_str(), config.alias, config.provides) {
            Some(q) => q,
            None => {
                return Err(text("Module directory has no name"));
            },
        };
        if !qualifier.legal() {
            return Err(text("Module qualifier contains illegal characters"));
        }
        Ok(Module {
            path: directory,
            qualifier,
            checksum,
            dependencies,
            name: config.name,
            description: config.description,
            author: config.author,
            version: config.version,
            precedence: config.precedence,
            jobs: config.jobs,
            variables: config.variables,
            injections: config.injections,
        })
    }

    /// Whether two modules have the same jobs.
    pub fn equals_jobs(&self, other: &Self) -> (r: bool)
        ensures
            r == same_jobs(self.jobs@, other.jobs@),
    {
        jobs_equal(&self.jobs, &other.jobs)
    }
}

impl Indexable for Module {
    open spec fn dependency_names(&self) -> Seq<Seq<char>> {
        texts(self.dependencies@)
    }

    open spec fn qualified(&self) -> ModuleQualifier {
        self.qualifier
    }

    fn dependencies(&self) -> (r: &Vec<String>) {
        &self.dependencies
    }

    fn qualifier(&self) -> (r: &ModuleQualifier) {
        &self.qualifier
    }
}

/// A module as it was built when it was installed.
pub struct BuiltModule {
    pub jobs: Vec<BuiltJob>,
    /// The variables its build read.
    pub used_variables: Variable,
    /// When it was built, in milliseconds since the Unix epoch.
    pub time: u64,
}

/// An installed module: the module, and what it was built into.
pub struct InstalledModule {
    pub module: Module,
    pub built: BuiltModule,
}

impl Indexable for InstalledModule {
    open spec fn dependency_names(&self) -> Seq<Seq<char>> {
        texts(self.module.dependencies@)
    }

    open spec fn qualified(&self) -> ModuleQualifier {
        self.module.qualifier
    }

    fn dependencies(&self) -> (r: &Vec<String>) {
        &self.module.dependencies
    }

    fn qualifier(&self) -> (r: &ModuleQualifier) {
        &self.module.qualifier
    }
}

} // verus!
