//! How a module is named: by its repository, its directory or alias, and what it provides.
use vstd::prelude::*;
use crate::text::{chars_of, copy_string, push_text, same_text, text_is};
use crate::variables::token::text;

verus! {

/// The last component of a path, as `Path::file_name` gives it: `None` when the path ends in
/// `..` or has no component.
pub uninterp spec fn file_name_of(path: Seq<char>) -> Option<Seq<char>>;

/// `Path::file_name`, as text.
#[verifier::external_body]
fn file_name(path: &str) -> (r: Option<String>)
    ensures
        match r {
            Some(n) => file_name_of(path@) == Some(n@),
            None => file_name_of(path@) is None,
        },
{
    std::path::Path::new(path).file_name().map(|os| os.to_string_lossy().to_string())
}

/// Whether a text holds a character.
pub open spec fn has_char(s: Seq<char>, c: char) -> bool {
    exists|i: int| 0 <= i < s.len() && s[i] == c
}

/// Whether a text holds a character.
pub fn contains_char(s: &str, c: char) -> (r: bool)
    ensures
        r == has_char(s@, c),
{
    let x = chars_of(s);
    let mut i: usize = 0;
    while i < x.len()
        invariant
            i <= x@.len(),
            x@ == s@,
            forall|j: int| 0 <= j < i ==> x@[j] != c,
        decreases x@.len() - i,
    {
        if x[i] == c {
            return true;
        }
        i = i + 1;
    }
    false
}

/// A name that cannot disturb the filesystem when used as a directory name: not empty and
/// without `/`.
pub open spec fn legal_text(name: Seq<char>) -> bool {
    name.len() > 0 && !has_char(name, '/')
}

/// Whether a repository name is legal.
pub fn legal_name(name: &str) -> (r: bool)
    ensures
        r == legal_text(name@),
{
    let empty = chars_of(name).len() == 0;
    !empty && !contains_char(name, '/')
}

/// Identifies a module: its repository, its directory, and the alias and provided name of its
/// config.
pub struct ModuleQualifier {
    pub repository: String,
    /// Name of the directory.
    pub dir: String,
    /// Alias defined in the config.
    pub alias: Option<String>,
    /// What the module provides, defined in the config.
    pub provide: Option<String>,
}

/// The text of an optional string.
pub open spec fn opt_view(o: Option<String>) -> Option<Seq<char>> {
    match o {
        Some(s) => Some(s@),
        None => None,
    }
}

impl ModuleQualifier {
    /// The name of the module: its alias, or else its directory.
    pub open spec fn name_view(&self) -> Seq<char> {
        match self.alias {
            Some(a) => a@,
            None => self.dir@,
        }
    }

    /// The full qualifier, `repository/name`.
    pub open spec fn unique_view(&self) -> Seq<char> {
        self.repository@ + "/"@ + self.name_view()
    }

    /// Whether the module provides the named qualifier: its provided name, its name, or its
    /// full qualifier.
    pub open spec fn provides(&self, q: Seq<char>) -> bool {
        opt_view(self.provide) == Some(q) || self.name_view() == q || self.unique_view() == q
    }

    /// A qualifier for the module in the directory at `path`.
    pub fn new(repository: String, path: &str, alias: Option<String>, provide: Option<String>) -> (r: Self)
        requires
            file_name_of(path@) is Some,
        ensures
            r.repository@ == repository@,
            Some(r.dir@) == file_name_of(path@),
            opt_view(r.alias) == opt_view(alias),
            opt_view(r.provide) == opt_view(provide),
    {
        match file_name(path) {
            Some(dir) => Self { repository, dir, alias, provide },
            None => Self { repository, dir: String::new(), alias, provide },
        }
    }

    /// A qualifier for the module in the directory at `path`, or `None` when the path names no
    /// directory.
    pub fn try_new(repository: String, path: &str, alias: Option<String>, provide: Option<String>) -> (r: Option<Self>)
        ensures
            match r {
                Some(q) => q.repository@ == repository@ && Some(q.dir@) == file_name_of(path@)
                    && opt_view(q.alias) == opt_view(alias) && opt_view(q.provide) == opt_view(provide),
                None => file_name_of(path@) is None,
            },
    {
        match file_name(path) {
            Some(_) => Some(Self::new(repository, path, alias, provide)),
            None => None,
        }
    }

    /// The repository of the module.
    pub fn repository(&self) -> (r: &String)
        ensures
            r@ == self.repository@,
    {
        &self.repository
    }

    /// Whether the module provides the named qualifier.
    pub fn does_provide(&self, qualifier: &str) -> (r: bool)
        ensures
            r == self.provides(qualifier@),
    {
        if let Some(provide) = &self.provide {
            if text_is(provide, qualifier) {
                return true;
            }
        }
        text_is(self.name(), qualifier) || text_is(&self.unique(), qualifier)
    }

    /// The full qualifier of the module, `repository/name`.
    pub fn unique(&self) -> (r: String)
        ensures
            r@ == self.unique_view(),
    {
        let mut r = copy_string(&self.repository);
        push_text(&mut r, "/");
        push_text(&mut r, self.name().as_str());
        proof {
            reveal_strlit("/");
        }
        r
    }

    /// The name of the module: its alias, or else its directory.
    pub fn name(&self) -> (r: &String)
        ensures
            r@ == self.name_view(),
    {
        match &self.alias {
            Some(alias) => alias,
            None => &self.dir,
        }
    }

    /// The alternative name the module provides.
    pub fn provide(&self) -> (r: &Option<String>)
        ensures
            *r == self.provide,
    {
        &self.provide
    }

    /// Whether the module name cannot disturb the filesystem when the module is cached.
    pub fn legal(&self) -> (r: bool)
        ensures
            r == legal_text(self.name_view()),
    {
        legal_name(self.name().as_str())
    }

    /// The qualifier as one to depend on.
    pub fn as_dep(&self) -> (r: DependencyQualifier)
        ensures
            opt_view(r.unique) == Some(self.unique_view()),
            opt_view(r.name) == Some(self.name_view()),
            opt_view(r.provides) == opt_view(self.provide),
    {
        DependencyQualifier {
            unique: Some(self.unique()),
            name: Some(copy_string(self.name())),
            provides: match &self.provide {
                Some(p) => Some(copy_string(p)),
                None => None,
            },
        }
    }

    /// Copies the qualifier.
    pub fn copy(&self) -> (r: Self)
        ensures
            r.repository@ == self.repository@,
            r.dir@ == self.dir@,
            opt_view(r.alias) == opt_view(self.alias),
            opt_view(r.provide) == opt_view(self.provide),
    {
        ModuleQualifier {
            repository: copy_string(&self.repository),
            dir: copy_string(&self.dir),
            alias: copy_option(&self.alias),
            provide: copy_option(&self.provide),
        }
    }

    /// Whether two qualifiers name the same module: their full qualifiers are equal.
    pub fn same(&self, other: &Self) -> (r: bool)
        ensures
            r == (self.unique_view() == other.unique_view()),
    {
        same_text(&self.unique(), &other.unique())
    }
}

/// Copies an optional string.
pub fn copy_option(o: &Option<String>) -> (r: Option<String>)
    ensures
        opt_view(r) == opt_view(*o),
{
    match o {
        Some(s) => Some(copy_string(s)),
        None => None,
    }
}

impl PartialEq for ModuleQualifier {
    fn eq(&self, other: &Self) -> (r: bool) {
        self.same(other)
    }
}

impl vstd::std_specs::cmp::PartialEqSpecImpl for ModuleQualifier {
    open spec fn obeys_eq_spec() -> bool {
        true
    }

    open spec fn eq_spec(&self, other: &Self) -> bool {
        self.unique_view() == other.unique_view()
    }
}

/// A qualifier that a dependency names: any of a full qualifier, a name and a provided name.
pub struct DependencyQualifier {
    pub unique: Option<String>,
    pub name: Option<String>,
    pub provides: Option<String>,
}

impl DependencyQualifier {
    /// Whether the qualifier matches `q` by any of its names.
    pub open spec fn matches_text(&self, q: Seq<char>) -> bool {
        opt_view(self.provides) == Some(q) || opt_view(self.name) == Some(q) || opt_view(self.unique) == Some(q)
    }

    /// Whether `self` satisfies what `other` asks for: one of the names of `other` is one of
    /// `self`.
    pub open spec fn satisfies(&self, other: &Self) -> bool {
        ||| (other.provides matches Some(p) && self.matches_text(p@))
        ||| (other.name matches Some(n) && self.matches_text(n@))
        ||| (other.unique matches Some(u) && self.matches_text(u@))
    }

    /// A qualifier that only names what is provided.
    pub fn provide(target: &str) -> (r: Self)
        ensures
            r.unique is None,
            r.name is None,
            opt_view(r.provides) == Some(target@),
    {
        DependencyQualifier { unique: None, name: None, provides: Some(text(target)) }
    }

    /// Whether the qualifier matches `other` by any of its names.
    pub fn does_provide(&self, other: &str) -> (r: bool)
        ensures
            r == self.matches_text(other@),
    {
        let p = match &self.provides {
            Some(s) => text_is(s, other),
            None => false,
        };
        let n = match &self.name {
            Some(s) => text_is(s, other),
            None => false,
        };
        let u = match &self.unique {
            Some(s) => text_is(s, other),
            None => false,
        };
        p || n || u
    }

    /// Whether `self` satisfies what `other` asks for.
    pub fn satisfies_dependency(&self, other: &Self) -> (r: bool)
        ensures
            r == self.satisfies(other),
    {
        if let Some(provides) = &other.provides {
            if self.does_provide(provides.as_str()) {
                return true;
            }
        }
        if let Some(name) = &other.name {
            if self.does_provide(name.as_str()) {
                return true;
            }
        }
        if let Some(unique) = &other.unique {
            if self.does_provide(unique.as_str()) {
                return true;
            }
        }
        false
    }
}

impl PartialEq for DependencyQualifier {
    fn eq(&self, other: &Self) -> (r: bool) {
        self.satisfies_dependency(other)
    }
}

impl vstd::std_specs::cmp::PartialEqSpecImpl for DependencyQualifier {
    open spec fn obeys_eq_spec() -> bool {
        true
    }

    open spec fn eq_spec(&self, other: &Self) -> bool {
        self.satisfies(other)
    }
}

} // verus!
