use pusta::config::ConfigPackage;
use pusta::jobs::construct::ModuleFiles;
use pusta::jobs::{
    job_unchanged, BuiltJob, CommandJob, FileJob, Job, JobEnvironment, JobError, JobTypes, PackageJob, ResourceItem, ScriptJob,
};
use pusta::module::change::Change;
use pusta::module::install::prepare::{build_install, build_update};
use pusta::module::qualifier::ModuleQualifier;
use pusta::module::{InstalledModule, Module};
use pusta::numbers::Numerics;
use pusta::variables::{merge_variables, Value, Variable};

struct F64;

impl Numerics for F64 {
    fn parse(&self, text: &str) -> Option<u64> {
        text.parse::<f64>().ok().map(|f| f.to_bits())
    }
    fn sum(&self, a: u64, b: u64) -> u64 {
        (f64::from_bits(a) + f64::from_bits(b)).to_bits()
    }
    fn difference(&self, a: u64, b: u64) -> u64 {
        (f64::from_bits(a) - f64::from_bits(b)).to_bits()
    }
    fn product(&self, a: u64, b: u64) -> u64 {
        (f64::from_bits(a) * f64::from_bits(b)).to_bits()
    }
    fn quotient(&self, a: u64, b: u64) -> u64 {
        (f64::from_bits(a) / f64::from_bits(b)).to_bits()
    }
    fn display(&self, n: u64) -> String {
        format!("{}", f64::from_bits(n))
    }
    fn fraction(&self, component: u8) -> String {
        format!("{:.3}", component as f32 / 255f32)
    }
}

/// A module directory held in memory: `dirs` are directories, `files` are files with contents.
struct Files {
    dirs: Vec<&'static str>,
    files: Vec<(&'static str, &'static str)>,
}

impl ModuleFiles for Files {
    fn is_dir(&self, path: &str) -> Result<bool, JobError> {
        Ok(self.dirs.contains(&path))
    }
    fn load(&self, path: &str) -> Result<(String, ResourceItem), JobError> {
        match self.files.iter().find(|(p, _)| *p == path) {
            Some((_, content)) => Ok((content.to_string(), ResourceItem { path: path.to_string(), checksum: format!("sum-{path}") })),
            None => Err(JobError::Resources(path.to_string(), "file does not exist".to_string())),
        }
    }
    fn mark(&self, path: &str) -> Result<ResourceItem, JobError> {
        if self.dirs.contains(&path) || self.files.iter().any(|(p, _)| *p == path) {
            Ok(ResourceItem { path: path.to_string(), checksum: format!("sum-{path}") })
        } else {
            Err(JobError::Resources(path.to_string(), "file does not exist".to_string()))
        }
    }
}

fn package_config() -> ConfigPackage {
    ConfigPackage { root: true, install: "pacman -S %PACKAGE%".to_string(), remove: "pacman -R %PACKAGE%".to_string() }
}

fn variables() -> Variable {
    Variable::Group(vec![("name".to_string(), Variable::Value(Value::String("world".to_string())))])
}

fn env() -> JobEnvironment {
    JobEnvironment { variables: variables(), path: "/mod".to_string(), package_config: package_config() }
}

fn files() -> Files {
    Files { dirs: vec!["themes"], files: vec![("greeting", "hello %% name %%"), ("install.sh", "echo %% name %%"), ("remove.sh", "echo bye")] }
}

fn run_of(c: &Change) -> (String, Option<String>, String) {
    match c {
        Change::Run(r) => (r.apply.clone(), r.revert.clone(), r.dir.clone()),
        _ => panic!("must be a command"),
    }
}

#[test]
fn package_job_builds_install_and_remove() {
    let job = PackageJob { names: "git vim".to_string() };
    let built = job.build(&env());
    assert_eq!(built.changes.len(), 1);
    assert_eq!(run_of(&built.changes[0]), ("pacman -S git vim".to_string(), Some("pacman -R git vim".to_string()), "/mod".to_string()));
    assert!(built.root);
}

#[test]
fn package_job_partial_installs_difference() {
    let job = PackageJob { names: "git vim".to_string() };
    let old = PackageJob { names: "git nano".to_string() };
    let built = job.partial(&old, &env());
    assert_eq!(built.changes.len(), 2);
    assert_eq!(run_of(&built.changes[0]), ("pacman -R nano".to_string(), None, "/mod".to_string()));
    assert_eq!(run_of(&built.changes[1]), ("pacman -S vim".to_string(), Some("pacman -R git vim".to_string()), "/mod".to_string()));

    let same = job.partial(&job, &env());
    assert_eq!(same.changes.len(), 1);
}

#[test]
fn command_job_evaluates_variables() {
    let job = CommandJob {
        install: "echo hello %% name %%".to_string(),
        uninstall: Some("echo bye".to_string()),
        reinstall: None,
        show_output: None,
        root: Some(true),
        running_directory: Some("sub".to_string()),
    };
    let built = job.build(&env(), &F64).ok().unwrap();
    assert_eq!(run_of(&built.changes[0]), ("echo hello world".to_string(), Some("echo bye".to_string()), "/mod/sub".to_string()));
    assert!(built.root);
    assert_eq!(built.variables, vec!["name".to_string()]);

    let reinstalling = CommandJob { reinstall: Some(true), ..job_clone(&job) };
    assert!(job.partial(&reinstalling, &env(), &F64).is_none());
    assert!(reinstalling.partial(&job, &env(), &F64).is_some());
}

fn job_clone(j: &CommandJob) -> CommandJob {
    CommandJob {
        install: j.install.clone(),
        uninstall: j.uninstall.clone(),
        reinstall: j.reinstall,
        show_output: j.show_output,
        root: j.root,
        running_directory: j.running_directory.clone(),
    }
}

#[test]
fn command_job_with_unknown_variable_fails() {
    let job = CommandJob {
        install: "echo %% missing %%".to_string(),
        uninstall: None,
        reinstall: None,
        show_output: None,
        root: None,
        running_directory: None,
    };
    assert!(matches!(job.build(&env(), &F64), Err(JobError::Variable(_, _, _))));
}

#[test]
fn script_job_loads_both_scripts() {
    let job = ScriptJob {
        install: "install.sh".to_string(),
        uninstall: Some("remove.sh".to_string()),
        reinstall: None,
        show_output: Some(false),
        root: None,
        running_directory: None,
    };
    let built = job.build(&env(), &files(), &F64).ok().unwrap();
    match &built.changes[0] {
        Change::Script(s) => {
            assert_eq!(s.apply, "echo world");
            assert_eq!(s.revert, Some("echo bye".to_string()));
            assert_eq!(s.dir, "/mod");
            assert!(!s.interactive);
        }
        _ => panic!("must be a script"),
    }
    assert_eq!(built.resources.len(), 2);

    let missing = ScriptJob { install: "nope.sh".to_string(), uninstall: None, reinstall: None, show_output: None, root: None, running_directory: None };
    assert!(matches!(missing.build(&env(), &files(), &F64), Err(JobError::Resources(_, _))));
}

#[test]
fn file_job_writes_copies_and_links() {
    let write = FileJob { file: "greeting".to_string(), location: "/etc/greeting".to_string(), permissions: None, root: None, link: None };
    let built = write.build(&env(), &files(), &F64).ok().unwrap();
    assert_eq!(built.changes.len(), 2);
    assert!(matches!(&built.changes[0], Change::Clear(c) if c.file == "/etc/greeting" && !c.inherit));
    assert!(matches!(&built.changes[1], Change::Write(w) if w.text == "hello world" && w.permissions == 0o644 && w.file == "/etc/greeting"));

    let copy = FileJob { file: "themes".to_string(), location: "/etc/themes".to_string(), permissions: None, root: None, link: None };
    let built = copy.build(&env(), &files(), &F64).ok().unwrap();
    assert!(matches!(&built.changes[1], Change::Copy(c) if c.file == "/etc/themes" && c.source == "/mod/themes"));

    let link = FileJob { file: "greeting".to_string(), location: "/etc/link".to_string(), permissions: None, root: Some(true), link: Some(true) };
    let built = link.build(&env(), &files(), &F64).ok().unwrap();
    assert!(matches!(&built.changes[1], Change::Link(c) if c.file == "/etc/link" && c.source == "/mod/greeting"));
    assert!(built.root);

    let moved = FileJob { file: "greeting".to_string(), location: "/etc/other".to_string(), permissions: None, root: None, link: None };
    assert!(moved.partial(&write, &env(), &files(), &F64).is_none());
    let again = write.partial(&write, &env(), &files(), &F64).unwrap().ok().unwrap();
    assert!(matches!(&again.changes[0], Change::Clear(c) if c.inherit));
}

fn job(title: Option<&str>, kind: JobTypes) -> Job {
    Job { title: title.map(|t| t.to_string()), optional: Some(true), job: kind }
}

fn command(install: &str) -> JobTypes {
    JobTypes::Command(CommandJob { install: install.to_string(), uninstall: None, reinstall: None, show_output: None, root: None, running_directory: None })
}

#[test]
fn job_build_sets_title_and_optional() {
    let j = job(None, JobTypes::Package(PackageJob { names: "git".to_string() }));
    let built = j.build(&env(), &files(), &F64).ok().unwrap();
    assert_eq!(built.title, "Installing the package(s) 'git' on the system");
    assert!(built.optional);
    let other = job(Some("t"), command("x"));
    assert!(j.partial(&other, &env(), &files(), &F64).is_none());
}

fn module(jobs: Vec<Job>) -> Module {
    Module {
        path: "/mod".to_string(),
        qualifier: ModuleQualifier::new("r".to_string(), "m", None, None),
        dependencies: vec![],
        checksum: "c".to_string(),
        name: "M".to_string(),
        description: "".to_string(),
        author: None,
        version: "1".to_string(),
        jobs,
        variables: None,
        injections: None,
        precedence: None,
    }
}

#[test]
fn module_install_and_update_builds() {
    let first = module(vec![job(Some("a"), command("echo a")), job(Some("b"), command("echo b"))]);
    let install = build_install(&first, variables(), &package_config(), &files(), &F64, 5).ok().unwrap();
    assert_eq!(install.apply, vec![true, true]);
    let built = install.new.unwrap();
    assert_eq!(built.jobs.len(), 2);
    assert_eq!(built.time, 5);

    let installed = InstalledModule { module: first, built };
    let second = module(vec![job(Some("a"), command("echo a")), job(Some("b"), command("echo changed"))]);
    let checksums = vec![vec![], vec![]];
    let update = build_update(installed, &second, variables(), &package_config(), &files(), &F64, 6, &checksums).ok().unwrap();
    // the first job is kept, the second one is rebuilt on top of its old build
    assert_eq!(update.apply, vec![false, true]);
    assert_eq!(update.revert, vec![false, false]);
    let new = update.new.unwrap();
    assert_eq!(run_of(&new.jobs[0].changes[0]).0, "echo a");
    assert_eq!(run_of(&new.jobs[1].changes[0]).0, "echo changed");
}

#[test]
fn module_update_reverts_dropped_and_replaced_jobs() {
    let first = module(vec![
        job(Some("f"), JobTypes::File(FileJob { file: "greeting".to_string(), location: "/etc/a".to_string(), permissions: None, root: None, link: None })),
        job(Some("gone"), command("echo gone")),
    ]);
    let install = build_install(&first, variables(), &package_config(), &files(), &F64, 1).ok().unwrap();
    let installed = InstalledModule { module: first, built: install.new.unwrap() };
    // the file moves, so it is reverted and built anew; the second job is gone
    let second = module(vec![job(
        Some("f"),
        JobTypes::File(FileJob { file: "greeting".to_string(), location: "/etc/b".to_string(), permissions: None, root: None, link: None }),
    )]);
    let checksums = vec![vec![Some("sum-greeting".to_string())], vec![]];
    let update = build_update(installed, &second, variables(), &package_config(), &files(), &F64, 2, &checksums).ok().unwrap();
    assert_eq!(update.apply, vec![true]);
    assert_eq!(update.revert, vec![true, true]);
}

#[test]
fn unchanged_job_needs_same_resources_and_variables() {
    let j = job(Some("f"), JobTypes::File(FileJob { file: "greeting".to_string(), location: "/etc/a".to_string(), permissions: None, root: None, link: None }));
    let mut built = BuiltJob::new();
    built.mark_resource(ResourceItem { path: "greeting".to_string(), checksum: "abc".to_string() });
    built.variables.push("name".to_string());
    let vars = variables();
    assert!(job_unchanged(&j, &j, &built, &vec![Some("abc".to_string())], &vars, &vars));
    assert!(!job_unchanged(&j, &j, &built, &vec![Some("abd".to_string())], &vars, &vars));
    assert!(!job_unchanged(&j, &j, &built, &vec![None], &vars, &vars));
    let other = Variable::Group(vec![("name".to_string(), Variable::Value(Value::String("moon".to_string())))]);
    assert!(!job_unchanged(&j, &j, &built, &vec![Some("abc".to_string())], &vars, &other));
}

#[test]
fn module_reinstall_reverts_everything() {
    let first = module(vec![job(Some("a"), command("echo a"))]);
    let install = build_install(&first, variables(), &package_config(), &files(), &F64, 1).ok().unwrap();
    let installed = InstalledModule { module: first, built: install.new.unwrap() };
    let second = module(vec![job(Some("a"), command("echo a")), job(Some("b"), command("echo b"))]);
    let again = pusta::module::install::prepare::build_reinstall(installed, &second, variables(), &package_config(), &files(), &F64, 2).ok().unwrap();
    assert_eq!(again.apply, vec![true, true]);
    assert_eq!(again.revert, vec![true]);
    assert!(again.old.is_some());
}

#[test]
fn variables_merge_in_layers() {
    let group = |k: &str, v: &str| Variable::Group(vec![(k.to_string(), Variable::Value(Value::String(v.to_string())))]);
    let merged = merge_variables(&Some(group("a", "module")), &None, &group("b", "injected"), &group("a", "system"), &group("c", "magic"));
    let a = merged.find("a").unwrap();
    assert!(a.equals(&Variable::Value(Value::String("system".to_string()))));
    assert!(merged.find("b").is_some());
    assert!(merged.find("c").is_some());
}
