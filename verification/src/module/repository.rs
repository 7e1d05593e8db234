//! Repositories of modules.
use vstd::prelude::*;
use crate::module::qualifier::{legal_text, legal_name};
use crate::variables::Variable;
use crate::variables::token::text;

verus! {

/// The config file of a repository, as read.
pub struct RepositoryConfig {
    pub alias: Option<String>,
    pub variables: Option<Variable>,
}

/// A repository of modules: where it is, and the name it is known under.
pub struct Repository {
    pub location: String,
    pub name: String,
}

/// The name a repository gets: the alias it is added under, else the alias of its config, else
/// the name of its directory.
pub open spec fn repository_name(alias: Option<String>, config: Option<String>, dir: Option<String>) -> Option<Seq<char>> {
    match alias {
        Some(a) => Some(a@),
        None => match config {
            Some(c) => Some(c@),
            None => match dir {
                Some(d) => Some(d@),
                None => None,
            },
        },
    }
}

impl Repository {
    /// The repository at `location` (its canonical path, whose last component is `dir`), added
    /// under `alias`; an error when it has no name or an illegal one.
    pub fn from_config(location: String, dir: Option<String>, alias: Option<String>, config: RepositoryConfig) -> (r: Result<Repository, String>)
        ensures
            match repository_name(alias, config.alias, dir) {
                Some(n) => if legal_text(n) {
                    r matches Ok(repo) && repo.location == location && repo.name@ == n
                } else {
                    r matches Err(e) && e@ == "Repository name contains illegal characters"@
                },
                None => r matches Err(e) && e@ == "Could not find name for repository"@,
            },
    {
        proof {
            reveal_strlit("Repository name contains illegal characters");
            reveal_strlit("Could not find name for repository");
        }
        let name = match alias {
            Some(a) => a,
            None => match config.alias {
                Some(c) => c,
                None => match dir {
                    Some(d) => d,
                    None => {
                        return Err(text("Could not find name for repository"));
                    },
                },
            },
        };
        if !legal_name(name.as_str()) {
            return Err(text("Repository name contains illegal characters"));
        }
        Ok(Repository { location, name })
    }
}

} // verus!
