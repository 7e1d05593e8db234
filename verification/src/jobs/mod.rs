//! Jobs: what a module installs, and what a job is built into.
//!
//! Building a job reads its resources from the module's directory; that is done by the program
//! around this library, which hands the library the texts it read. The library decides what a
//! job becomes.
pub mod construct;

use chksum::{chksum, SHA1};
use vstd::prelude::*;
use crate::config::ConfigPackage;
use crate::module::change::{Change, same_change};
use crate::numbers::Numerics;
use crate::text::{chars_of, copy_string, push_text, same_text, string_from};
use crate::variables::{Variable, VariableError, find_view, same_var};
use crate::variables::context::{read_context, marker_at};
use crate::variables::reading::plain_context;
use crate::variables::evaluate::{VariableEvalCounter, evaluate, texts, first_occurrences, public_names, lemma_read_context_laid_out, lemma_texts_push, template_output, template_evaluates_plainly, template_evaluates_ok};
use crate::variables::modifier::string::{split_on, split_chars, views};
use crate::variables::token::text;
use crate::module::qualifier::copy_option;

verus! {

/// What a job builds with: the variables, the module directory and the package manager.
pub struct JobEnvironment {
    pub variables: Variable,
    pub path: String,
    pub package_config: ConfigPackage,
}

/// A resource used by a job: its path relative to the module, and the checksum of the installed
/// version.
pub struct ResourceItem {
    pub path: String,
    pub checksum: String,
}

/// The SHA-1 digest of some bytes, in lowercase hexadecimal, as `chksum` computes it.
pub uninterp spec fn sha1_hex(data: Seq<u8>) -> Seq<char>;

/// `chksum::chksum::<SHA1>` on bytes, written with `to_hex_lowercase`. On bytes it cannot fail:
/// `chksum` reads them as they are.
#[verifier::external_body]
pub(crate) fn sha1_hex_of(data: &[u8]) -> (r: Option<String>)
    ensures
        r is Some,
        r matches Some(h) ==> h@ == sha1_hex(data@),
{
    match chksum::<SHA1>(data) {
        Ok(digest) => Some(digest.to_hex_lowercase()),
        Err(_) => None,
    }
}

impl ResourceItem {
    /// The resource item of a file: its path, and the checksum of its contents.
    pub fn create(path: String, contents: &[u8]) -> (r: Option<ResourceItem>)
        ensures
            r matches Some(i) ==> i.path == path && i.checksum@ == sha1_hex(contents@),
            r is Some,
    {
        match sha1_hex_of(contents) {
            Some(checksum) => Some(ResourceItem { path, checksum }),
            None => None,
        }
    }

    /// Whether the file changed since the item was made, given its contents now.
    pub fn changed(&self, contents: &[u8]) -> (r: bool)
        ensures
            r == (sha1_hex(contents@) != self.checksum@),
    {
        let current = sha1_hex_of(contents);
        self.changed_to(current)
    }

    /// Whether the resource changed, given the checksum it has now (`None` when it could not be
    /// computed, which counts as a change).
    pub fn changed_to(&self, current: Option<String>) -> (r: bool)
        ensures
            r == match current {
                Some(c) => c@ != self.checksum@,
                None => true,
            },
    {
        match current {
            Some(c) => !same_text(&c, &self.checksum),
            None => true,
        }
    }
}

/// Why building a job failed.
pub enum JobError {
    /// A template of the job did not evaluate: the error, the template, and where it came from.
    Variable(VariableError, String, String),
    /// A resource could not be read: its path, and what happened.
    Resources(String, String),
    /// Something else: what failed, and why.
    Other(String, String),
}

/// Installs packages with the package manager.
pub struct PackageJob {
    /// The package names, separated by spaces.
    pub names: String,
}

/// Deploys a file.
pub struct FileJob {
    pub file: String,
    pub location: String,
    pub permissions: Option<u32>,
    pub root: Option<bool>,
    pub link: Option<bool>,
}

/// Runs a script from the module.
pub struct ScriptJob {
    pub install: String,
    pub uninstall: Option<String>,
    pub reinstall: Option<bool>,
    pub show_output: Option<bool>,
    pub root: Option<bool>,
    pub running_directory: Option<String>,
}

/// Runs a command.
pub struct CommandJob {
    pub install: String,
    pub uninstall: Option<String>,
    pub reinstall: Option<bool>,
    pub show_output: Option<bool>,
    pub root: Option<bool>,
    pub running_directory: Option<String>,
}

/// The kinds of jobs.
pub enum JobTypes {
    Package(PackageJob),
    File(FileJob),
    Script(ScriptJob),
    Command(CommandJob),
}

/// A job of a module: an optional title, whether it may fail, and what it does.
pub struct Job {
    pub title: Option<String>,
    pub optional: Option<bool>,
    pub job: JobTypes,
}

/// The segments joined with a separator text.
pub open spec fn joined_with(segs: Seq<Seq<char>>, sep: Seq<char>) -> Seq<char>
    decreases segs.len(),
{
    if segs.len() == 0 {
        Seq::empty()
    } else if segs.len() == 1 {
        segs[0]
    } else {
        joined_with(segs.drop_last(), sep) + sep + segs.last()
    }
}

/// Joins texts with a separator.
pub fn join_texts(segs: &Vec<String>, sep: &str) -> (r: String)
    ensures
        r@ == joined_with(texts(segs@), sep@),
{
    let mut r = String::new();
    let mut i: usize = 0;
    while i < segs.len()
        invariant
            i <= segs@.len(),
            r@ == joined_with(texts(segs@).subrange(0, i as int), sep@),
        decreases segs@.len() - i,
    {
        if i > 0 {
            push_text(&mut r, sep);
        }
        push_text(&mut r, segs[i].as_str());
        proof {
            let s = texts(segs@);
            assert(s.subrange(0, i + 1).drop_last() =~= s.subrange(0, i as int));
            if i == 0 {
                assert(s.subrange(0, 1) =~= seq![segs@[0]@]);
            }
        }
        i = i + 1;
    }
    assert(texts(segs@).subrange(0, segs@.len() as int) =~= texts(segs@));
    r
}

/// The texts of `a` that `b` does not hold, in order.
pub open spec fn missing_from(a: Seq<Seq<char>>, b: Seq<Seq<char>>) -> Seq<Seq<char>>
    decreases a.len(),
{
    if a.len() == 0 {
        a
    } else if b.contains(a.last()) {
        missing_from(a.drop_last(), b)
    } else {
        missing_from(a.drop_last(), b).push(a.last())
    }
}

/// Whether `v` holds the text `t`.
pub fn holds_text(v: &Vec<String>, t: &String) -> (r: bool)
    ensures
        r == texts(v@).contains(t@),
{
    let mut i: usize = 0;
    while i < v.len()
        invariant
            i <= v@.len(),
            forall|j: int| 0 <= j < i ==> v@[j]@ != t@,
        decreases v@.len() - i,
    {
        if same_text(&v[i], t) {
            assert(texts(v@)[i as int] == t@);
            return true;
        }
        i = i + 1;
    }
    proof {
        if texts(v@).contains(t@) {
            let j = choose|j: int| 0 <= j < texts(v@).len() && texts(v@)[j] == t@;
            assert(v@[j]@ == t@);
        }
    }
    false
}

/// The texts of `a` that `b` does not hold.
pub fn texts_missing_from(a: &Vec<String>, b: &Vec<String>) -> (r: Vec<String>)
    ensures
        texts(r@) == missing_from(texts(a@), texts(b@)),
{
    let mut r: Vec<String> = Vec::new();
    let mut i: usize = 0;
    while i < a.len()
        invariant
            i <= a@.len(),
            texts(r@) == missing_from(texts(a@).subrange(0, i as int), texts(b@)),
        decreases a@.len() - i,
    {
        let ghost before = texts(r@);
        proof {
            let s = texts(a@);
            assert(s.subrange(0, i + 1).drop_last() =~= s.subrange(0, i as int));
            assert(s.subrange(0, i + 1).last() == a@[i as int]@);
        }
        if !holds_text(b, &a[i]) {
            r.push(copy_string(&a[i]));
            assert(texts(r@) =~= before.push(a@[i as int]@));
        }
        i = i + 1;
    }
    assert(texts(a@).subrange(0, a@.len() as int) =~= texts(a@));
    r
}

impl PackageJob {
    /// The package names.
    pub fn name_vec(&self) -> (r: Vec<String>)
        ensures
            texts(r@) == split_on(self.names@, ' '),
    {
        let parts = split_chars(&chars_of(self.names.as_str()), ' ');
        let mut r: Vec<String> = Vec::new();
        let mut i: usize = 0;
        while i < parts.len()
            invariant
                i <= parts@.len(),
                r@.len() == i,
                forall|j: int| 0 <= j < i ==> #[trigger] r@[j]@ == parts@[j]@,
            decreases parts@.len() - i,
        {
            r.push(string_from(&parts[i]));
            i = i + 1;
        }
        assert(texts(r@) =~= views(parts@));
        r
    }

    /// What an update from `old` does: the packages to remove and the packages to install.
    pub fn difference(&self, old: &PackageJob) -> (r: (Vec<String>, Vec<String>))
        ensures
            texts(r.0@) == missing_from(split_on(old.names@, ' '), split_on(self.names@, ' ')),
            texts(r.1@) == missing_from(split_on(self.names@, ' '), split_on(old.names@, ' ')),
    {
        let before = old.name_vec();
        let after = self.name_vec();
        (texts_missing_from(&before, &after), texts_missing_from(&after, &before))
    }
}

/// The title a job gets when it has none.
pub open spec fn invented_title(j: JobTypes) -> Seq<char> {
    match j {
        JobTypes::Package(p) => "Installing the package(s) '"@ + joined_with(split_on(p.names@, ' '), "', '"@)
            + "' on the system"@,
        JobTypes::File(f) => (if f.link == Some(true) { "Linking"@ } else { "Copying"@ }) + " the file '"@
            + f.file@ + "' to its target location"@,
        JobTypes::Script(s) => "Running the install script "@ + s.install@,
        JobTypes::Command(_) => "Running a custom command"@,
    }
}

/// Whether a job can be updated from its old version without a full reinstall: both are of
/// the same kind, a file job keeps its location, and a script or command job was not marked to
/// reinstall.
pub open spec fn updatable(new: JobTypes, old: JobTypes) -> bool {
    match (new, old) {
        (JobTypes::Package(_), JobTypes::Package(_)) => true,
        (JobTypes::File(a), JobTypes::File(b)) => a.location@ == b.location@,
        (JobTypes::Script(_), JobTypes::Script(b)) => b.reinstall != Some(true),
        (JobTypes::Command(_), JobTypes::Command(b)) => b.reinstall != Some(true),
        _ => false,
    }
}

impl JobTypes {
    /// Invents a title for a job that has none.
    pub fn construct_title(&self) -> (r: String)
        ensures
            r@ == invented_title(*self),
    {
        proof {
            reveal_strlit("Installing the package(s) '");
            reveal_strlit("', '");
            reveal_strlit("' on the system");
            reveal_strlit("Linking");
            reveal_strlit("Copying");
            reveal_strlit(" the file '");
            reveal_strlit("' to its target location");
            reveal_strlit("Running the install script ");
            reveal_strlit("Running a custom command");
        }
        match self {
            JobTypes::Package(p) => {
                let mut r = text("Installing the package(s) '");
                push_text(&mut r, join_texts(&p.name_vec(), "', '").as_str());
                push_text(&mut r, "' on the system");
                r
            },
            JobTypes::File(f) => {
                let link = match f.link {
                    Some(l) => l,
                    None => false,
                };
                let mut r = text(if link { "Linking" } else { "Copying" });
                push_text(&mut r, " the file '");
                push_text(&mut r, f.file.as_str());
                push_text(&mut r, "' to its target location");
                r
            },
            JobTypes::Script(s) => {
                let mut r = text("Running the install script ");
                push_text(&mut r, s.install.as_str());
                r
            },
            JobTypes::Command(_) => text("Running a custom command"),
        }
    }

    /// Whether the job can be updated from `old` without a full reinstall.
    pub fn can_update(&self, old: &JobTypes) -> (r: bool)
        ensures
            r == updatable(*self, *old),
    {
        match (self, old) {
            (JobTypes::Package(_), JobTypes::Package(_)) => true,
            (JobTypes::File(a), JobTypes::File(b)) => same_text(&a.location, &b.location),
            (JobTypes::Script(_), JobTypes::Script(b)) => b.reinstall != Some(true),
            (JobTypes::Command(_), JobTypes::Command(b)) => b.reinstall != Some(true),
            _ => false,
        }
    }
}

impl Job {
    /// The title of the job: its own, or an invented one.
    pub fn title(&self) -> (r: String)
        ensures
            r@ == match self.title {
                Some(t) => t@,
                None => invented_title(self.job),
            },
    {
        match &self.title {
            Some(t) => copy_string(t),
            None => self.job.construct_title(),
        }
    }

    /// Whether the job may fail without cancelling the installation.
    pub fn is_optional(&self) -> (r: bool)
        ensures
            r == (self.optional == Some(true)),
    {
        match self.optional {
            Some(o) => o,
            None => false,
        }
    }
}

/// A built job: the changes it makes, the resources and variables it depends on.
pub struct BuiltJob {
    pub title: String,
    pub optional: bool,
    /// Whether the job runs as root.
    pub root: bool,
    pub changes: Vec<Change>,
    pub resources: Vec<ResourceItem>,
    pub variables: Vec<String>,
}

/// Whether the two trees give the same variable under a name.
pub open spec fn same_found(old: Variable, new: Variable, name: Seq<char>) -> bool {
    match (find_view(old.view(), name), find_view(new.view(), name)) {
        (Some(a), Some(b)) => same_var(a, b),
        (None, None) => true,
        _ => false,
    }
}

impl BuiltJob {
    /// An empty build.
    pub fn new() -> (r: Self)
        ensures
            r.title@ == "unknown job"@,
            !r.optional,
            !r.root,
            r.changes@.len() == 0,
            r.resources@.len() == 0,
            r.variables@.len() == 0,
    {
        BuiltJob {
            title: text("unknown job"),
            optional: false,
            root: false,
            changes: Vec::new(),
            resources: Vec::new(),
            variables: Vec::new(),
        }
    }

    /// Adds a change to the build.
    pub fn change(&mut self, change: Change)
        ensures
            final(self).changes@ == old(self).changes@.push(change),
            final(self).resources == old(self).resources,
            final(self).variables == old(self).variables,
            final(self).title == old(self).title,
            final(self).optional == old(self).optional,
            final(self).root == old(self).root,
    {
        self.changes.push(change);
    }

    /// Marks the variables a counter recorded as used by the job: the names used before, then the
    /// new ones, each once.
    pub fn use_variables(&mut self, counter: VariableEvalCounter)
        ensures
            texts(final(self).variables@) == first_occurrences(texts(old(self).variables@) + first_occurrences(public_names(counter@))),
            final(self).changes == old(self).changes,
            final(self).resources == old(self).resources,
            final(self).title == old(self).title,
            final(self).optional == old(self).optional,
            final(self).root == old(self).root,
    {
        let used = counter.usages();
        let mut all: Vec<String> = Vec::new();
        let mut i: usize = 0;
        while i < self.variables.len()
            invariant
                i <= self.variables@.len(),
                texts(all@) == texts(self.variables@).subrange(0, i as int),
            decreases self.variables@.len() - i,
        {
            let ghost before = all@;
            let c = copy_string(&self.variables[i]);
            all.push(c);
            assert(all@ == before.push(c));
            assert(c@ == texts(self.variables@)[i as int]);
            proof {
                lemma_texts_push(before, c);
            }
            i = i + 1;
            assert(texts(all@) =~= texts(self.variables@).subrange(0, i as int));
        }
        let mut j: usize = 0;
        while j < used.len()
            invariant
                i == self.variables@.len(),
                j <= used@.len(),
                texts(all@) == texts(self.variables@) + texts(used@).subrange(0, j as int),
            decreases used@.len() - j,
        {
            let ghost before = all@;
            let c = copy_string(&used[j]);
            all.push(c);
            assert(all@ == before.push(c));
            assert(c@ == texts(used@)[j as int]);
            proof {
                lemma_texts_push(before, c);
            }
            j = j + 1;
            assert(texts(all@) =~= texts(self.variables@) + texts(used@).subrange(0, j as int));
        }
        assert(texts(self.variables@).subrange(0, i as int) =~= texts(self.variables@));
        assert(texts(used@).subrange(0, j as int) =~= texts(used@));
        self.variables = dedup_texts(&all);
    }

    /// Marks a resource as used by the job.
    pub fn mark_resource(&mut self, item: ResourceItem)
        ensures
            final(self).resources@ == old(self).resources@.push(item),
            final(self).changes == old(self).changes,
            final(self).variables == old(self).variables,
            final(self).title == old(self).title,
            final(self).optional == old(self).optional,
            final(self).root == old(self).root,
    {
        self.resources.push(item);
    }

    /// Whether any variable the job used differs between the two trees.
    pub fn change_variables(&self, old: &Variable, new: &Variable) -> (r: bool)
        ensures
            r == exists|k: int| 0 <= k < self.variables@.len() && !same_found(*old, *new, #[trigger] self.variables@[k]@),
    {
        let mut k: usize = 0;
        while k < self.variables.len()
            invariant
                k <= self.variables@.len(),
                forall|j: int| 0 <= j < k ==> same_found(*old, *new, #[trigger] self.variables@[j]@),
            decreases self.variables@.len() - k,
        {
            let name = self.variables[k].as_str();
            let same = match (old.find(name), new.find(name)) {
                (Some(a), Some(b)) => a.equals(b),
                (None, None) => true,
                _ => false,
            };
            if !same {
                assert(!same_found(*old, *new, self.variables@[k as int]@));
                return true;
            }
            k = k + 1;
        }
        false
    }
}

/// Keeps each text at its first occurrence only.
pub fn dedup_texts(v: &Vec<String>) -> (r: Vec<String>)
    ensures
        texts(r@) == first_occurrences(texts(v@)),
{
    let mut r: Vec<String> = Vec::new();
    let mut i: usize = 0;
    while i < v.len()
        invariant
            i <= v@.len(),
            texts(r@) == first_occurrences(texts(v@).subrange(0, i as int)),
        decreases v@.len() - i,
    {
        let ghost before = texts(r@);
        proof {
            let s = texts(v@);
            assert(s.subrange(0, i + 1).drop_last() =~= s.subrange(0, i as int));
            assert(s.subrange(0, i + 1).last() == v@[i as int]@);
        }
        let repeat = holds_text(&r, &v[i]);
        if !repeat {
            r.push(copy_string(&v[i]));
            assert(texts(r@) =~= before.push(v@[i as int]@));
        }
        i = i + 1;
    }
    assert(texts(v@).subrange(0, v@.len() as int) =~= texts(v@));
    r
}

/// Evaluates the templates in a text against the environment's variables, and marks the
/// variables that were read as used by the job.
pub fn process_variables<N: Numerics>(
    string: &str,
    path: &str,
    env: &JobEnvironment,
    built: &mut BuiltJob,
    numerics: &N,
) -> (r: Result<String, JobError>)
    ensures
        r matches Err(e) ==> (e matches JobError::Variable(_, s, p) && s@ == string@ && p@ == path@),
        r matches Ok(out) ==> template_output(string@, env.variables.view(), numerics, out@),
        (forall|j: int| 0 <= j ==> !marker_at(string@, j)) ==> (r matches Ok(out) && out@ == string@),
        plain_context(string@, 0) matches Some((None, _)) && template_evaluates_plainly(string@, env.variables.view())
            ==> r is Ok,
        plain_context(string@, 0) matches Some((None, _)) && template_evaluates_ok(string@, env.variables.view(), numerics)
            ==> r is Ok,
        final(built).changes == old(built).changes,
        final(built).resources == old(built).resources,
        final(built).title == old(built).title,
        final(built).optional == old(built).optional,
        final(built).root == old(built).root,
{
    match read_context(string, numerics) {
        Err(e) => Err(JobError::Variable(e, text(string), text(path))),
        Ok(context) => {
            proof {
                lemma_read_context_laid_out(string@, context);
            }
            let mut counter = VariableEvalCounter::new();
            assert(string@.subrange(0, string@.len() as int) =~= string@);
            match evaluate(string, &context, &env.variables, &mut counter, numerics) {
                Err(e) => Err(JobError::Variable(e, text(string), text(path))),
                Ok(result) => {
                    built.use_variables(counter);
                    Ok(result)
                },
            }
        },
    }
}

/// The text of an optional string.
pub open spec fn opt_text(o: Option<String>) -> Option<Seq<char>> {
    match o {
        Some(s) => Some(s@),
        None => None,
    }
}

/// Whether two jobs are the same: of the same kind, with equal fields.
pub open spec fn same_job(a: Job, b: Job) -> bool {
    &&& opt_text(a.title) == opt_text(b.title)
    &&& a.optional == b.optional
    &&& match (a.job, b.job) {
        (JobTypes::Package(x), JobTypes::Package(y)) => x.names@ == y.names@,
        (JobTypes::File(x), JobTypes::File(y)) => x.file@ == y.file@ && x.location@ == y.location@
            && x.permissions == y.permissions && x.root == y.root && x.link == y.link,
        (JobTypes::Script(x), JobTypes::Script(y)) => x.install@ == y.install@ && opt_text(x.uninstall) == opt_text(y.uninstall)
            && x.reinstall == y.reinstall && x.show_output == y.show_output && x.root == y.root
            && opt_text(x.running_directory) == opt_text(y.running_directory),
        (JobTypes::Command(x), JobTypes::Command(y)) => x.install@ == y.install@ && opt_text(x.uninstall) == opt_text(y.uninstall)
            && x.reinstall == y.reinstall && x.show_output == y.show_output && x.root == y.root
            && opt_text(x.running_directory) == opt_text(y.running_directory),
        _ => false,
    }
}

/// Whether two optional strings hold the same text.
pub fn same_opt_text(a: &Option<String>, b: &Option<String>) -> (r: bool)
    ensures
        r == (opt_text(*a) == opt_text(*b)),
{
    match (a, b) {
        (Some(x), Some(y)) => same_text(x, y),
        (None, None) => true,
        _ => false,
    }
}

impl Job {
    /// Whether two jobs are the same.
    pub fn same_as(&self, other: &Job) -> (r: bool)
        ensures
            r == same_job(*self, *other),
    {
        if !same_opt_text(&self.title, &other.title) || self.optional != other.optional {
            return false;
        }
        match (&self.job, &other.job) {
            (JobTypes::Package(x), JobTypes::Package(y)) => same_text(&x.names, &y.names),
            (JobTypes::File(x), JobTypes::File(y)) => same_text(&x.file, &y.file) && same_text(&x.location, &y.location)
                && x.permissions == y.permissions && x.root == y.root && x.link == y.link,
            (JobTypes::Script(x), JobTypes::Script(y)) => same_text(&x.install, &y.install)
                && same_opt_text(&x.uninstall, &y.uninstall) && x.reinstall == y.reinstall
                && x.show_output == y.show_output && x.root == y.root
                && same_opt_text(&x.running_directory, &y.running_directory),
            (JobTypes::Command(x), JobTypes::Command(y)) => same_text(&x.install, &y.install)
                && same_opt_text(&x.uninstall, &y.uninstall) && x.reinstall == y.reinstall
                && x.show_output == y.show_output && x.root == y.root
                && same_opt_text(&x.running_directory, &y.running_directory),
            _ => false,
        }
    }
}

/// Whether two job lists are the same, job by job.
pub open spec fn same_jobs(a: Seq<Job>, b: Seq<Job>) -> bool {
    a.len() == b.len() && forall|i: int| 0 <= i < a.len() ==> same_job(#[trigger] a[i], b[i])
}

/// Whether two job lists are the same, job by job.
pub fn jobs_equal(a: &Vec<Job>, b: &Vec<Job>) -> (r: bool)
    ensures
        r == same_jobs(a@, b@),
{
    if a.len() != b.len() {
        return false;
    }
    let mut i: usize = 0;
    while i < a.len()
        invariant
            a@.len() == b@.len(),
            i <= a@.len(),
            forall|j: int| 0 <= j < i ==> same_job(#[trigger] a@[j], b@[j]),
        decreases a@.len() - i,
    {
        if !a[i].same_as(&b[i]) {
            return false;
        }
        i = i + 1;
    }
    true
}

/// Whether a resource changed, given the checksum it has now (`None` when it could not be
/// computed).
pub open spec fn resource_changed(item: ResourceItem, current: Option<String>) -> bool {
    match current {
        Some(c) => c@ != item.checksum@,
        None => true,
    }
}

/// Whether a job stays as it was built when its module is updated: the job is the same, none of
/// the resources its build used changed, and none of the variables it used changed.
pub open spec fn stays_built(new: Job, old: Job, built: BuiltJob, current: Seq<Option<String>>, old_vars: Variable, new_vars: Variable) -> bool {
    &&& same_job(new, old)
    &&& forall|k: int| 0 <= k < built.resources@.len() ==> !resource_changed(#[trigger] built.resources@[k], current[k])
    &&& !exists|k: int| 0 <= k < built.variables@.len() && !same_found(old_vars, new_vars, #[trigger] built.variables@[k]@)
}

/// Whether a job stays as it was built when its module is updated, given the checksums the
/// resources of its old build have now, one for each.
pub fn job_unchanged(new: &Job, old: &Job, built: &BuiltJob, current: &Vec<Option<String>>, old_vars: &Variable, new_vars: &Variable) -> (r: bool)
    requires
        current@.len() == built.resources@.len(),
    ensures
        r == stays_built(*new, *old, *built, current@, *old_vars, *new_vars),
{
    if !new.same_as(old) {
        return false;
    }
    let mut k: usize = 0;
    while k < built.resources.len()
        invariant
            current@.len() == built.resources@.len(),
            k <= current@.len(),
            forall|j: int| 0 <= j < k ==> !resource_changed(#[trigger] built.resources@[j], current@[j]),
        decreases current@.len() - k,
    {
        let c = copy_option(&current[k]);
        if built.resources[k].changed_to(c) {
            return false;
        }
        k = k + 1;
    }
    !built.change_variables(old_vars, new_vars)
}

/// Whether two built jobs are the same: the same title, flags, changes, resources and variables.
pub open spec fn same_built(a: BuiltJob, b: BuiltJob) -> bool {
    &&& a.title@ == b.title@
    &&& a.optional == b.optional
    &&& a.root == b.root
    &&& a.changes@.len() == b.changes@.len()
    &&& forall|k: int| 0 <= k < a.changes@.len() ==> same_change(#[trigger] a.changes@[k], b.changes@[k])
    &&& a.resources@.len() == b.resources@.len()
    &&& forall|k: int| 0 <= k < a.resources@.len() ==> (#[trigger] a.resources@[k]).path@ == b.resources@[k].path@
        && a.resources@[k].checksum@ == b.resources@[k].checksum@
    &&& texts(a.variables@) == texts(b.variables@)
}

impl BuiltJob {
    /// A copy of the built job.
    pub fn copy(&self) -> (r: BuiltJob)
        ensures
            same_built(r, *self),
    {
        let mut changes: Vec<Change> = Vec::new();
        let mut k: usize = 0;
        while k < self.changes.len()
            invariant
                k <= self.changes@.len(),
                changes@.len() == k,
                forall|j: int| 0 <= j < k ==> same_change(#[trigger] changes@[j], self.changes@[j]),
            decreases self.changes@.len() - k,
        {
            changes.push(self.changes[k].copy());
            k = k + 1;
        }
        let mut resources: Vec<ResourceItem> = Vec::new();
        let mut k: usize = 0;
        while k < self.resources.len()
            invariant
                k <= self.resources@.len(),
                resources@.len() == k,
                forall|j: int| 0 <= j < k ==> (#[trigger] resources@[j]).path@ == self.resources@[j].path@
                    && resources@[j].checksum@ == self.resources@[j].checksum@,
            decreases self.resources@.len() - k,
        {
            let item = &self.resources[k];
            resources.push(ResourceItem { path: copy_string(&item.path), checksum: copy_string(&item.checksum) });
            k = k + 1;
        }
        let mut variables: Vec<String> = Vec::new();
        let mut k: usize = 0;
        while k < self.variables.len()
            invariant
                k <= self.variables@.len(),
                texts(variables@) == texts(self.variables@).take(k as int),
            decreases self.variables@.len() - k,
        {
            let ghost before = variables@;
            variables.push(copy_string(&self.variables[k]));
            proof {
                lemma_texts_push(before, variables@.last());
                assert(variables@ == before.push(variables@.last()));
            }
            assert(texts(variables@) =~= texts(self.variables@).take(k + 1));
            k = k + 1;
        }
        assert(texts(self.variables@).take(self.variables@.len() as int) =~= texts(self.variables@));
        BuiltJob {
            title: copy_string(&self.title),
            optional: self.optional,
            root: self.root,
            changes,
            resources,
            variables,
        }
    }
}

} // verus!
