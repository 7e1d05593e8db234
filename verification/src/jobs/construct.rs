//! Building jobs into the changes they make.
//!
//! The files of a module are read by the caller through [`ModuleFiles`]; what is built from them
//! is decided here.
use vstd::prelude::*;
use crate::config::ConfigPackage;
use crate::jobs::{
    BuiltJob, CommandJob, FileJob, Job, JobEnvironment, JobError, JobTypes, PackageJob, ResourceItem, ScriptJob,
    joined_with, process_variables, missing_from, invented_title, updatable,
};
use crate::variables::modifier::string::split_on;
use crate::module::change::{Change, ClearChange, CopyChange, LinkChange, RunChange, ScriptChange, WriteChange};
use crate::module::install::shell::{replace_all, replace_text};
use crate::numbers::Numerics;
use crate::text::{copy_string, chars_of, string_from, push_text};
use crate::variables::evaluate::{texts, template_output};
use crate::variables::modifier::string::{expand_tilde, tilde_expansion};
use crate::variables::token::text;
use crate::variables::context::marker_at;
use crate::variables::VarView;

verus! {

/// A text that holds no template statement.
pub open spec fn plain_text(s: Seq<char>) -> bool {
    forall|j: int| 0 <= j ==> !marker_at(s, j)
}

/// A job whose build reads no file of its module and evaluates no template statement: a package
/// job, or a command job whose commands hold no statement. Its build cannot fail.
pub open spec fn builds_plainly(j: Job) -> bool {
    match j.job {
        JobTypes::Package(_) => true,
        JobTypes::Command(c) => plain_text(c.install@) && match c.uninstall {
            Some(u) => plain_text(u@),
            None => true,
        },
        _ => false,
    }
}

/// The build of a package job: one command that installs the packages, reverted by one that
/// removes them, run in the module's directory, as root when the package manager asks for it.
pub open spec fn package_built(p: PackageJob, path: Seq<char>, package: ConfigPackage, b: BuiltJob) -> bool {
    &&& b.changes@.len() == 1
    &&& b.changes@[0] matches Change::Run(c) && c.apply@ == replace_all(
        package.install@,
        "%PACKAGE%"@,
        joined_with(split_on(p.names@, ' '), " "@),
    ) && c.revert is Some && c.revert->0@ == replace_all(
        package.remove@,
        "%PACKAGE%"@,
        joined_with(split_on(p.names@, ' '), " "@),
    ) && c.dir@ == path && c.interactive && !c.failable
    &&& b.root == package.root
    &&& b.resources@.len() == 0
    &&& b.variables@.len() == 0
}

/// The build of a command job: one command, the template of its install command evaluated with
/// `vars`, reverted by the evaluated uninstall command when there is one, run in its running
/// directory.
pub open spec fn command_built<N: Numerics>(j: CommandJob, path: Seq<char>, vars: VarView, numerics: &N, b: BuiltJob) -> bool {
    &&& b.changes@.len() == 1
    &&& b.changes@[0] matches Change::Run(c) && runs_in(path, j.running_directory, c.dir@) && template_output(
        j.install@,
        vars,
        numerics,
        c.apply@,
    ) && c.revert is Some == j.uninstall is Some && match (j.uninstall, c.revert) {
        (Some(u), Some(v)) => template_output(u@, vars, numerics, v@),
        _ => true,
    } && c.interactive == match j.show_output {
        Some(s) => s,
        None => true,
    } && !c.failable
    &&& b.root == match j.root {
        Some(x) => x,
        None => false,
    }
    &&& b.resources@.len() == 0
}

/// The module's files give `content` for the file at `path`, with the resource item that records
/// it.
pub open spec fn loaded_from<F: ModuleFiles>(files: &F, path: Seq<char>, content: Seq<char>, item: ResourceItem) -> bool {
    exists|p: &str, c: String|
        p@ == path && c@ == content && #[trigger] call_ensures(
            F::load,
            (files, p),
            Ok::<(String, ResourceItem), JobError>((c, item)),
        )
}

/// `out` is what the file of the module at `path`, as its files give it with the resource item
/// `item`, evaluates to against `vars`.
pub open spec fn file_output<F: ModuleFiles, N: Numerics>(files: &F, path: Seq<char>, vars: VarView, numerics: &N, item: ResourceItem, out: Seq<char>) -> bool {
    exists|content: Seq<char>| #[trigger] loaded_from(files, path, content, item) && template_output(content, vars, numerics, out)
}

/// The module's files give `item` as the resource item that records the path.
pub open spec fn marked<F: ModuleFiles>(files: &F, path: Seq<char>, item: ResourceItem) -> bool {
    exists|p: &str| p@ == path && #[trigger] call_ensures(F::mark, (files, p), Ok::<ResourceItem, JobError>(item))
}

/// The module's files say of the path whether it is a directory.
pub open spec fn dir_said<F: ModuleFiles>(files: &F, path: Seq<char>, dir: bool) -> bool {
    exists|p: &str| p@ == path && #[trigger] call_ensures(F::is_dir, (files, p), Ok::<bool, JobError>(dir))
}

/// The build of a script job: one script change, the install script of the module evaluated
/// against `vars`, reverted by the evaluated uninstall script when there is one, run in its
/// running directory; each script is a resource of the job.
pub open spec fn script_built<F: ModuleFiles, N: Numerics>(j: ScriptJob, path: Seq<char>, vars: VarView, files: &F, numerics: &N, b: BuiltJob) -> bool {
    &&& b.changes@.len() == 1
    &&& b.changes@[0] matches Change::Script(c) && runs_in(path, j.running_directory, c.dir@)
        && file_output(files, j.install@, vars, numerics, b.resources@[0], c.apply@) && match (j.uninstall, c.revert) {
        (Some(u), Some(v)) => file_output(files, u@, vars, numerics, b.resources@[1], v@),
        _ => true,
    } && c.revert is Some == j.uninstall is Some && c.interactive == match j.show_output {
        Some(s) => s,
        None => true,
    } && !c.failable
    &&& b.root == match j.root {
        Some(x) => x,
        None => false,
    }
    &&& b.resources@.len() == if j.uninstall is Some { 2int } else { 1int }
}

/// The build of a file job: its target location, with `~` expanded, is cleared, then the file is
/// put there; the file is the resource of the job.
pub open spec fn file_built<F: ModuleFiles, N: Numerics>(j: FileJob, path: Seq<char>, vars: VarView, files: &F, numerics: &N, b: BuiltJob) -> bool {
    &&& b.changes@.len() == 2
    &&& b.resources@.len() == 1
    &&& b.changes@[0] matches Change::Clear(c) && tilde_expansion(j.location@, c.file@) && !c.inherit && deploys(
        j,
        c.file@,
        path,
        vars,
        files,
        numerics,
        b.changes@[1],
        b.resources@[0],
    )
    &&& b.root == match j.root {
        Some(x) => x,
        None => false,
    }
}

/// What building a job of its kind gives, in the module at `path`, with the variables `vars` and
/// the package manager settings `package`: its changes, whether it runs as root, its resources.
pub open spec fn kind_built<N: Numerics, F: ModuleFiles>(j: JobTypes, path: Seq<char>, vars: VarView, numerics: &N, files: &F, package: ConfigPackage, b: BuiltJob) -> bool {
    match j {
        JobTypes::Package(p) => package_built(p, path, package, b),
        JobTypes::Command(c) => command_built(c, path, vars, numerics, b),
        JobTypes::Script(x) => script_built(x, path, vars, files, numerics, b),
        JobTypes::File(f) => file_built(f, path, vars, files, numerics, b),
    }
}

/// The build of a package job on top of the build of `old`: a command that removes the packages
/// no longer named, when there are any, then one that installs the newly named packages,
/// reverted by one that removes all the packages now named.
pub open spec fn package_partial(j: PackageJob, old: PackageJob, path: Seq<char>, package: ConfigPackage, b: BuiltJob) -> bool {
    let gone = missing_from(split_on(old.names@, ' '), split_on(j.names@, ' '));
    let added = missing_from(split_on(j.names@, ' '), split_on(old.names@, ' '));
    let last = b.changes@.last();
    &&& b.changes@.len() == if gone.len() > 0 { 2int } else { 1int }
    &&& gone.len() > 0 ==> (b.changes@[0] matches Change::Run(c) && c.apply@ == replace_all(
        package.remove@,
        "%PACKAGE%"@,
        joined_with(gone, " "@),
    ) && c.revert is None && c.dir@ == path)
    &&& last matches Change::Run(c) && c.apply@ == replace_all(
        package.install@,
        "%PACKAGE%"@,
        joined_with(added, " "@),
    ) && c.revert is Some && c.revert->0@ == replace_all(
        package.remove@,
        "%PACKAGE%"@,
        joined_with(split_on(j.names@, ' '), " "@),
    ) && c.dir@ == path
    &&& b.root == package.root
}

/// The build of a file job on top of an old build at the same location: the location, with `~`
/// expanded, is cleared keeping what the old build put there, then the file is put there again.
pub open spec fn file_partial<F: ModuleFiles, N: Numerics>(j: FileJob, path: Seq<char>, vars: VarView, files: &F, numerics: &N, b: BuiltJob) -> bool {
    &&& b.changes@.len() == 2
    &&& b.changes@[0] matches Change::Clear(c) && tilde_expansion(j.location@, c.file@) && c.inherit && b.resources@.len() == 1
        && deploys(j, c.file@, path, vars, files, numerics, b.changes@[1], b.resources@[0])
}

/// What building a job on top of the build of the job `old` gives: for a package job the changes
/// of the packages named anew, for a file job the file put again, and for the other kinds what
/// building them anew gives.
pub open spec fn partially_built<N: Numerics, F: ModuleFiles>(j: JobTypes, old: JobTypes, path: Seq<char>, vars: VarView, numerics: &N, files: &F, package: ConfigPackage, b: BuiltJob) -> bool {
    match (j, old) {
        (JobTypes::Package(p), JobTypes::Package(o)) => package_partial(p, o, path, package, b),
        (JobTypes::File(f), JobTypes::File(_)) => file_partial(f, path, vars, files, numerics, b),
        (JobTypes::Script(x), JobTypes::Script(_)) => script_built(x, path, vars, files, numerics, b),
        (JobTypes::Command(c), JobTypes::Command(_)) => command_built(c, path, vars, numerics, b),
        _ => false,
    }
}

/// The permissions a written file gets unless the job names others.
pub const DEFAULT_PERMISSIONS: u32 = 0o644;

/// What building a job needs from the files of its module. Paths are relative to the module.
pub trait ModuleFiles {
    /// Whether the path is a directory.
    fn is_dir(&self, path: &str) -> Result<bool, JobError>;

    /// Reads the file at the path, and the resource item that records its checksum.
    fn load(&self, path: &str) -> Result<(String, ResourceItem), JobError>;

    /// Checks that the path exists, and gives the resource item that records its checksum.
    fn mark(&self, path: &str) -> Result<ResourceItem, JobError>;
}

/// The path `rel` pushed onto `base` as `PathBuf::push` does it on Unix: an absolute path
/// replaces the base; another one is joined to it with a `/`, unless the base is empty or
/// already ends with one.
pub open spec fn pushed_path(base: Seq<char>, rel: Seq<char>) -> Seq<char> {
    if rel.len() > 0 && rel[0] == '/' {
        rel
    } else if base.len() > 0 && base.last() != '/' {
        base + "/"@ + rel
    } else {
        base + rel
    }
}

/// The path `rel` pushed onto `base`, as `PathBuf::push` does it on Unix.
pub(crate) fn push_path(base: &str, rel: &str) -> (r: String)
    ensures
        r@ == pushed_path(base@, rel@),
{
    let rc = chars_of(rel);
    if rc.len() > 0 && rc[0] == '/' {
        return string_from(&rc);
    }
    let bc = chars_of(base);
    let mut out = string_from(&bc);
    if bc.len() > 0 && bc[bc.len() - 1] != '/' {
        push_text(&mut out, "/");
    }
    push_text(&mut out, rel);
    proof {
        reveal_strlit("/");
    }
    out
}

impl ConfigPackage {
    /// The command that installs packages: the install command with `%PACKAGE%` replaced by the
    /// package names, separated by spaces.
    pub fn create_install(&self, names: &Vec<String>) -> (r: String)
        ensures
            r@ == replace_all(self.install@, "%PACKAGE%"@, joined_with(texts(names@), " "@)),
    {
        proof {
            reveal_strlit("%PACKAGE%");
        }
        let list = crate::jobs::join_texts(names, " ");
        proof {
            reveal_strlit(" ");
        }
        replace_text(self.install.as_str(), "%PACKAGE%", list.as_str())
    }

    /// The command that removes packages, made in the same way.
    pub fn create_remove(&self, names: &Vec<String>) -> (r: String)
        ensures
            r@ == replace_all(self.remove@, "%PACKAGE%"@, joined_with(texts(names@), " "@)),
    {
        proof {
            reveal_strlit("%PACKAGE%");
        }
        let list = crate::jobs::join_texts(names, " ");
        proof {
            reveal_strlit(" ");
        }
        replace_text(self.remove.as_str(), "%PACKAGE%", list.as_str())
    }
}

/// The directory a command or script runs in: the module directory, with the job's running
/// directory (its `~` expanded) pushed onto it.
pub open spec fn runs_in(module: Seq<char>, running_directory: Option<String>, r: Seq<char>) -> bool {
    match running_directory {
        None => r == module,
        Some(d) => exists|expanded: Seq<char>| tilde_expansion(d@, expanded) && r == pushed_path(module, expanded),
    }
}

/// The directory a command or script runs in.
fn running_directory(env: &JobEnvironment, directory: &Option<String>) -> (r: String)
    ensures
        runs_in(env.path@, *directory, r@),
{
    match directory {
        None => copy_string(&env.path),
        Some(d) => {
            let expanded = expand_tilde(d.as_str());
            push_path(env.path.as_str(), expanded.as_str())
        },
    }
}

/// Whether an optional flag is set.
fn flag(o: Option<bool>, default: bool) -> (r: bool)
    ensures
        r == match o {
            Some(b) => b,
            None => default,
        },
{
    match o {
        Some(b) => b,
        None => default,
    }
}

/// The title of a job: its own, or an invented one.
pub open spec fn job_title(j: Job) -> Seq<char> {
    match j.title {
        Some(t) => t@,
        None => invented_title(j.job),
    }
}

impl PackageJob {
    /// Builds the job: one command that installs the packages, reverted by one that removes them.
    pub fn build(&self, env: &JobEnvironment) -> (r: BuiltJob)
        ensures
            package_built(*self, env.path@, env.package_config, r),
            !r.optional,
    {
        let mut built = BuiltJob::new();
        let names = self.name_vec();
        let install = env.package_config.create_install(&names);
        let remove = env.package_config.create_remove(&names);
        built.change(Change::Run(RunChange::new(install, Some(remove), copy_string(&env.path), true, false)));
        built.root = env.package_config.root;
        built
    }

    /// Builds the job on top of the build of `old`: a command that removes the packages no longer
    /// named, when there are any, then one that installs the newly named packages, reverted by
    /// one that removes all the packages now named.
    pub fn partial(&self, old: &PackageJob, env: &JobEnvironment) -> (r: BuiltJob)
        ensures
            package_partial(*self, *old, env.path@, env.package_config, r),
            !r.optional,
    {
        let mut built = BuiltJob::new();
        let names = self.name_vec();
        let (remove, install) = self.difference(old);
        if remove.len() > 0 {
            let command = env.package_config.create_remove(&remove);
            built.change(Change::Run(RunChange::new(command, None, copy_string(&env.path), true, false)));
        }
        let command = env.package_config.create_install(&install);
        let revert = env.package_config.create_remove(&names);
        built.change(Change::Run(RunChange::new(command, Some(revert), copy_string(&env.path), true, false)));
        built.root = env.package_config.root;
        built
    }
}

impl CommandJob {
    /// Builds the job: one command, with the variables in it evaluated, reverted by the
    /// uninstall command when there is one.
    pub fn build<N: Numerics>(&self, env: &JobEnvironment, numerics: &N) -> (r: Result<BuiltJob, JobError>)
        ensures
            r matches Err(e) ==> e is Variable,
            plain_text(self.install@) && (self.uninstall matches Some(u) ==> plain_text(u@)) ==> r is Ok,
            r matches Ok(b) ==> command_built(*self, env.path@, env.variables.view(), numerics, b) && !b.optional,
    {
        let mut built = BuiltJob::new();
        let dir = running_directory(env, &self.running_directory);
        let install = process_variables(self.install.as_str(), "install-command", env, &mut built, numerics)?;
        let uninstall = match &self.uninstall {
            Some(u) => Some(process_variables(u.as_str(), "uninstall-command", env, &mut built, numerics)?),
            None => None,
        };
        built.change(Change::Run(RunChange::new(install, uninstall, dir, flag(self.show_output, true), false)));
        built.root = flag(self.root, false);
        Ok(built)
    }

    /// Builds the job on top of the build of `old`: anew, unless `old` asked to be reinstalled
    /// from scratch, which gives `None`.
    pub fn partial<N: Numerics>(&self, old: &CommandJob, env: &JobEnvironment, numerics: &N) -> (r: Option<Result<BuiltJob, JobError>>)
        ensures
            r is None <==> old.reinstall == Some(true),
            r matches Some(Ok(b)) ==> command_built(*self, env.path@, env.variables.view(), numerics, b),
            plain_text(self.install@) && (self.uninstall matches Some(u) ==> plain_text(u@)) ==> (r matches Some(x) ==> x is Ok),
    {
        if flag(old.reinstall, false) {
            None
        } else {
            Some(self.build(env, numerics))
        }
    }
}

impl ScriptJob {
    /// Builds the job: the install script of the module, with the variables in it evaluated,
    /// reverted by the uninstall script when there is one. Both scripts are recorded as
    /// resources of the job.
    #[verifier::rlimit(30)]
    pub fn build<N: Numerics, F: ModuleFiles>(&self, env: &JobEnvironment, files: &F, numerics: &N) -> (r: Result<BuiltJob, JobError>)
        ensures
            r matches Ok(b) ==> script_built(*self, env.path@, env.variables.view(), files, numerics, b) && !b.optional,
    {
        let mut built = BuiltJob::new();
        let dir = running_directory(env, &self.running_directory);
        let install_path = self.install.as_str();
        let (content, item) = match files.load(install_path) {
            Ok(x) => x,
            Err(e) => return Err(e),
        };
        proof {
            assert(loaded_from(files, self.install@, content@, item));
        }
        built.mark_resource(item);
        let install = process_variables(content.as_str(), self.install.as_str(), env, &mut built, numerics)?;
        proof {
            assert(file_output(files, self.install@, env.variables.view(), numerics, item, install@));
        }
        let uninstall = match &self.uninstall {
            Some(path) => {
                let uninstall_path = path.as_str();
                let (content, item) = match files.load(uninstall_path) {
                    Ok(x) => x,
                    Err(e) => return Err(e),
                };
                proof {
                    assert(loaded_from(files, path@, content@, item));
                }
                built.mark_resource(item);
                let out = process_variables(content.as_str(), path.as_str(), env, &mut built, numerics)?;
                proof {
                    assert(file_output(files, path@, env.variables.view(), numerics, item, out@));
                }
                Some(out)
            },
            None => None,
        };
        built.change(Change::Script(ScriptChange::new(install, uninstall, dir, flag(self.show_output, true), false)));
        built.root = flag(self.root, false);
        Ok(built)
    }

    /// Builds the job on top of the build of `old`: anew, unless `old` asked to be reinstalled
    /// from scratch, which gives `None`.
    pub fn partial<N: Numerics, F: ModuleFiles>(&self, old: &ScriptJob, env: &JobEnvironment, files: &F, numerics: &N) -> (r: Option<Result<BuiltJob, JobError>>)
        ensures
            r is None <==> old.reinstall == Some(true),
            r matches Some(Ok(b)) ==> script_built(*self, env.path@, env.variables.view(), files, numerics, b),
    {
        if flag(old.reinstall, false) {
            None
        } else {
            Some(self.build(env, files, numerics))
        }
    }
}

/// The change that puts a file job's file at its target: the file of the module written with
/// its variables evaluated, the directory of the module copied, or the file or directory of
/// the module linked; `item` is the resource item that the files give for it.
pub open spec fn deploys<F: ModuleFiles, N: Numerics>(job: FileJob, target: Seq<char>, path: Seq<char>, vars: VarView, files: &F, numerics: &N, c: Change, item: ResourceItem) -> bool {
    match c {
        Change::Write(w) => !(job.link == Some(true)) && dir_said(files, job.file@, false) && w.file@ == target
            && file_output(files, job.file@, vars, numerics, item, w.text@) && w.permissions == match job.permissions {
            Some(p) => p,
            None => DEFAULT_PERMISSIONS,
        },
        Change::Copy(x) => !(job.link == Some(true)) && dir_said(files, job.file@, true) && x.file@ == target
            && x.source@ == pushed_path(path, job.file@) && marked(files, job.file@, item),
        Change::Link(x) => job.link == Some(true) && x.file@ == target && x.source@ == pushed_path(path, job.file@)
            && marked(files, job.file@, item),
        _ => false,
    }
}

impl FileJob {
    /// Adds the change that puts the file at its target.
    #[verifier::rlimit(30)]
    fn deploy<N: Numerics, F: ModuleFiles>(&self, target: &String, env: &JobEnvironment, files: &F, built: &mut BuiltJob, numerics: &N) -> (r: Result<(), JobError>)
        ensures
            r is Ok ==> final(built).changes@.len() == old(built).changes@.len() + 1
                && final(built).changes@.drop_last() == old(built).changes@
                && final(built).resources@.len() == old(built).resources@.len() + 1
                && final(built).resources@.drop_last() == old(built).resources@
                && deploys(*self, target@, env.path@, env.variables.view(), files, numerics, final(built).changes@.last(), final(built).resources@.last()),
            final(built).root == old(built).root,
            final(built).optional == old(built).optional,
            final(built).title == old(built).title,
    {
        let link = flag(self.link, false);
        let file_path = self.file.as_str();
        let is_dir = match files.is_dir(file_path) {
            Ok(d) => d,
            Err(e) => return Err(e),
        };
        proof {
            assert(dir_said(files, self.file@, is_dir));
        }
        if !link && !is_dir {
            let (content, item) = match files.load(file_path) {
                Ok(x) => x,
                Err(e) => return Err(e),
            };
            proof {
                assert(loaded_from(files, self.file@, content@, item));
            }
            built.mark_resource(item);
            let processed = process_variables(content.as_str(), self.file.as_str(), env, built, numerics)?;
            proof {
                assert(file_output(files, self.file@, env.variables.view(), numerics, item, processed@));
            }
            let permissions = match self.permissions {
                Some(p) => p,
                None => DEFAULT_PERMISSIONS,
            };
            built.change(Change::Write(WriteChange::new(processed, permissions, copy_string(target))));
        } else {
            let item = match files.mark(file_path) {
                Ok(x) => x,
                Err(e) => return Err(e),
            };
            proof {
                assert(marked(files, self.file@, item));
            }
            built.mark_resource(item);
            let source = push_path(env.path.as_str(), self.file.as_str());
            if link {
                built.change(Change::Link(LinkChange::new(copy_string(target), source)));
            } else {
                built.change(Change::Copy(CopyChange::new(copy_string(target), source)));
            }
        }
        assert(built.changes@.drop_last() =~= old(built).changes@);
        Ok(())
    }

    /// Builds the job: the target location is cleared, then the file is put there.
    pub fn build<N: Numerics, F: ModuleFiles>(&self, env: &JobEnvironment, files: &F, numerics: &N) -> (r: Result<BuiltJob, JobError>)
        ensures
            r matches Ok(b) ==> file_built(*self, env.path@, env.variables.view(), files, numerics, b) && !b.optional,
    {
        let mut built = BuiltJob::new();
        let target = expand_tilde(self.location.as_str());
        built.change(Change::Clear(ClearChange::new(copy_string(&target), false)));
        self.deploy(&target, env, files, &mut built, numerics)?;
        assert(built.changes@[0] == built.changes@.drop_last()[0]);
        built.root = flag(self.root, false);
        Ok(built)
    }

    /// Builds the job on top of the build of `old`: `None` when the location changed, so that it
    /// is reinstalled from scratch; else the location is cleared keeping what the old build put
    /// there, and the file is put there again.
    pub fn partial<N: Numerics, F: ModuleFiles>(&self, old: &FileJob, env: &JobEnvironment, files: &F, numerics: &N) -> (r: Option<Result<BuiltJob, JobError>>)
        ensures
            r is None <==> self.location@ != old.location@,
            r matches Some(Ok(b)) ==> file_partial(*self, env.path@, env.variables.view(), files, numerics, b),
    {
        if !crate::text::same_text(&self.location, &old.location) {
            return None;
        }
        let mut built = BuiltJob::new();
        let target = expand_tilde(self.location.as_str());
        built.change(Change::Clear(ClearChange::new(copy_string(&target), true)));
        match self.deploy(&target, env, files, &mut built, numerics) {
            Err(e) => Some(Err(e)),
            Ok(()) => {
                assert(built.changes@[0] == built.changes@.drop_last()[0]);
                built.root = flag(self.root, false);
                Some(Ok(built))
            },
        }
    }
}

impl Job {
    /// Builds the job, with its title and whether it may fail.
    pub fn build<N: Numerics, F: ModuleFiles>(&self, env: &JobEnvironment, files: &F, numerics: &N) -> (r: Result<BuiltJob, JobError>)
        ensures
            builds_plainly(*self) ==> r is Ok,
            r matches Ok(b) ==> b.title@ == job_title(*self) && b.optional == match self.optional {
                Some(o) => o,
                None => false,
            } && kind_built(self.job, env.path@, env.variables.view(), numerics, files, env.package_config, b),
    {
        let mut built = match &self.job {
            JobTypes::Package(p) => p.build(env),
            JobTypes::File(f) => f.build(env, files, numerics)?,
            JobTypes::Script(s) => s.build(env, files, numerics)?,
            JobTypes::Command(c) => c.build(env, numerics)?,
        };
        built.optional = flag(self.optional, false);
        built.title = self.title();
        Ok(built)
    }

    /// Builds the job on top of the build of `old`, with its title and whether it may fail:
    /// `None` when the two jobs are of different kinds or the job needs to be reinstalled from
    /// scratch.
    pub fn partial<N: Numerics, F: ModuleFiles>(&self, old: &Job, env: &JobEnvironment, files: &F, numerics: &N) -> (r: Option<Result<BuiltJob, JobError>>)
        ensures
            r is Some <==> updatable(self.job, old.job),
            builds_plainly(*self) ==> (r matches Some(x) ==> x is Ok),
            r matches Some(Ok(b)) ==> b.title@ == job_title(*self) && b.optional == match self.optional {
                Some(o) => o,
                None => false,
            } && partially_built(self.job, old.job, env.path@, env.variables.view(), numerics, files, env.package_config, b),
    {
        let built = match (&self.job, &old.job) {
            (JobTypes::Package(p), JobTypes::Package(o)) => Some(Ok(p.partial(o, env))),
            (JobTypes::File(f), JobTypes::File(o)) => f.partial(o, env, files, numerics),
            (JobTypes::Script(s), JobTypes::Script(o)) => s.partial(o, env, files, numerics),
            (JobTypes::Command(c), JobTypes::Command(o)) => c.partial(o, env, numerics),
            _ => None,
        };
        match built {
            Some(Ok(mut b)) => {
                b.optional = flag(self.optional, false);
                b.title = self.title();
                Some(Ok(b))
            },
            other => other,
        }
    }
}

} // verus!
