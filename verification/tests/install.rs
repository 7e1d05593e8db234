use pusta::config::Config;
use pusta::jobs::BuiltJob;
use pusta::module::change::{Change, RunChange, WriteChange};
use pusta::module::install::depend::ModuleMotivation;
use pusta::module::install::instructions::{
    removal_instructions, ModifyType, ModuleInstructions,
};
use pusta::module::install::review::{
    content_answer, detail_view, first_answer, scheduled_line, type_line, Answer, ContentAnswer, ScheduledChange,
};
use pusta::module::install::run::{needs_root_worker, JobWalk, ModuleRun, RunAction, RunEvent, RunModule, WalkStep};
use pusta::module::install::{save, Gathered};
use pusta::module::qualifier::ModuleQualifier;
use pusta::module::repository::Repository;
use pusta::module::{BuiltModule, InstalledModule, Module};
use pusta::output::{yes_answer, Chooser};
use pusta::variables::Value;
use pusta::registry::{ModuleStatus, Registry};
use pusta::variables::Variable;

struct First;

impl Chooser for First {
    fn pick(&self, _question: &str, _options: &Vec<String>) -> usize {
        0
    }
}

struct Second;

impl Chooser for Second {
    fn pick(&self, _question: &str, _options: &Vec<String>) -> usize {
        1
    }
}

fn q(repo: &str, name: &str) -> ModuleQualifier {
    ModuleQualifier::new(repo.to_string(), name, None, None)
}

fn module(repo: &str, name: &str, checksum: &str) -> Module {
    Module {
        path: format!("/repos/{repo}/{name}"),
        qualifier: q(repo, name),
        dependencies: vec![],
        checksum: checksum.to_string(),
        name: name.to_uppercase(),
        description: format!("the {name} module"),
        author: None,
        version: "1.0".to_string(),
        jobs: vec![],
        variables: None,
        injections: None,
        precedence: None,
    }
}

fn job(root: bool, changes: usize) -> BuiltJob {
    let mut j = BuiltJob::new();
    j.root = root;
    for i in 0..changes {
        j.change(Change::Write(WriteChange::new(format!("text {i}"), 0o644, format!("/tmp/f{i}"))));
    }
    j
}

fn built(jobs: Vec<BuiltJob>) -> BuiltModule {
    BuiltModule { jobs, used_variables: Variable::base(), time: 7 }
}

fn installed(repo: &str, name: &str, checksum: &str) -> InstalledModule {
    InstalledModule { module: module(repo, name, checksum), built: built(vec![]) }
}

fn install_instructions(b: BuiltModule) -> ModuleInstructions {
    let apply = vec![true; b.jobs.len()];
    ModuleInstructions { new: Some(b), old: None, apply, revert: vec![] }
}

fn motivation(because: Vec<ModuleQualifier>, depends: Vec<ModuleQualifier>) -> ModuleMotivation {
    ModuleMotivation { because, depends }
}

#[test]
fn walk_applies_in_order() {
    let mut walk = JobWalk::applying(vec![(0, 0), (0, 1), (2, 0)]);
    assert!(matches!(walk.start(), WalkStep::Dispatch(0, 0, true)));
    assert!(matches!(walk.record(true), WalkStep::Dispatch(0, 1, true)));
    assert!(matches!(walk.record(true), WalkStep::Dispatch(2, 0, true)));
    assert!(matches!(walk.record(true), WalkStep::Done(true)));
}

#[test]
fn walk_undoes_applied_changes_after_refusal() {
    let mut walk = JobWalk::applying(vec![(0, 0), (0, 1), (1, 0), (1, 1)]);
    assert!(matches!(walk.start(), WalkStep::Dispatch(0, 0, true)));
    assert!(matches!(walk.record(true), WalkStep::Dispatch(0, 1, true)));
    assert!(matches!(walk.record(true), WalkStep::Dispatch(1, 0, true)));
    // the third change is refused: the two before it are reverted, last first
    assert!(matches!(walk.record(false), WalkStep::Dispatch(0, 1, false)));
    assert!(matches!(walk.record(false), WalkStep::Dispatch(0, 0, false)));
    assert!(matches!(walk.record(true), WalkStep::Done(false)));
}

#[test]
fn walk_refused_first_change_fails_at_once() {
    let mut walk = JobWalk::applying(vec![(0, 0), (0, 1)]);
    assert!(matches!(walk.start(), WalkStep::Dispatch(0, 0, true)));
    assert!(matches!(walk.record(false), WalkStep::Done(false)));
}

#[test]
fn walk_reverts_backward_and_reports_grace() {
    let mut walk = JobWalk::reverting(vec![(0, 0), (1, 0), (1, 1)]);
    assert!(matches!(walk.start(), WalkStep::Dispatch(1, 1, false)));
    assert!(matches!(walk.record(true), WalkStep::Dispatch(1, 0, false)));
    assert!(matches!(walk.record(false), WalkStep::Dispatch(0, 0, false)));
    assert!(matches!(walk.record(true), WalkStep::Done(false)));

    let empty = JobWalk::reverting(vec![]);
    assert!(matches!(empty.start(), WalkStep::Done(true)));
}

#[test]
fn run_goes_through_every_module() {
    let modules = vec![
        RunModule { qualifier: q("r", "a"), motivation: motivation(vec![], vec![]), has_old: false, has_new: true },
        RunModule { qualifier: q("r", "b"), motivation: motivation(vec![], vec![]), has_old: true, has_new: true },
    ];
    let (mut run, action) = ModuleRun::start(modules);
    assert!(matches!(action, RunAction::Prepare(0)));
    assert!(matches!(run.advance(RunEvent::Ready), RunAction::ApplyNew(0)));
    assert!(matches!(run.advance(RunEvent::Completed(true)), RunAction::Prepare(1)));
    assert!(matches!(run.advance(RunEvent::Ready), RunAction::RevertOld(1)));
    assert!(matches!(run.advance(RunEvent::Completed(false)), RunAction::ApplyNew(1)));
    assert!(matches!(run.advance(RunEvent::Completed(true)), RunAction::Finish));
    assert_eq!(run.results, vec![Some(true), Some(true)]);
}

#[test]
fn run_failure_reverts_the_modules_that_needed_it() {
    // c depends on a; a fails, so c is skipped, and b (brought in only by a, installed before a) is undone
    let a = q("r", "a");
    let modules = vec![
        RunModule { qualifier: q("r", "b"), motivation: motivation(vec![q("r", "a")], vec![]), has_old: false, has_new: true },
        RunModule { qualifier: a, motivation: motivation(vec![], vec![]), has_old: false, has_new: true },
        RunModule { qualifier: q("r", "c"), motivation: motivation(vec![], vec![q("r", "a")]), has_old: false, has_new: true },
        RunModule { qualifier: q("r", "d"), motivation: motivation(vec![], vec![]), has_old: false, has_new: true },
    ];
    let (mut run, action) = ModuleRun::start(modules);
    assert!(matches!(action, RunAction::Prepare(0)));
    assert!(matches!(run.advance(RunEvent::Ready), RunAction::ApplyNew(0)));
    assert!(matches!(run.advance(RunEvent::Completed(true)), RunAction::Prepare(1)));
    assert!(matches!(run.advance(RunEvent::Ready), RunAction::ApplyNew(1)));
    assert!(matches!(run.advance(RunEvent::Completed(false)), RunAction::RevertInstalled(0)));
    assert!(matches!(run.advance(RunEvent::Completed(true)), RunAction::Prepare(3)));
    assert!(matches!(run.advance(RunEvent::Ready), RunAction::ApplyNew(3)));
    assert!(matches!(run.advance(RunEvent::Completed(true)), RunAction::Finish));
    assert_eq!(run.results, vec![Some(false), Some(false), Some(false), Some(true)]);
    assert_eq!(run.failed.len(), 1);
}

#[test]
fn run_stops_when_cache_is_unavailable() {
    let modules = vec![
        RunModule { qualifier: q("r", "a"), motivation: motivation(vec![], vec![]), has_old: false, has_new: true },
        RunModule { qualifier: q("r", "b"), motivation: motivation(vec![], vec![]), has_old: false, has_new: true },
    ];
    let (mut run, _) = ModuleRun::start(modules);
    assert!(matches!(run.advance(RunEvent::Unavailable), RunAction::Finish));
    assert_eq!(run.results, vec![None, None]);
    assert!(matches!(run.advance(RunEvent::Ready), RunAction::Finish));
}

#[test]
fn run_fatal_error_fails_current_module() {
    let modules = vec![
        RunModule { qualifier: q("r", "a"), motivation: motivation(vec![], vec![]), has_old: true, has_new: true },
        RunModule { qualifier: q("r", "b"), motivation: motivation(vec![], vec![]), has_old: false, has_new: true },
    ];
    let (mut run, _) = ModuleRun::start(modules);
    assert!(matches!(run.advance(RunEvent::Ready), RunAction::RevertOld(0)));
    assert!(matches!(run.advance(RunEvent::Fatal), RunAction::Finish));
    assert_eq!(run.results, vec![Some(false), None]);
}

#[test]
fn instructions_orders_and_root() {
    let ins = install_instructions(built(vec![job(false, 2), job(true, 0), job(false, 1)]));
    assert_eq!(ins.apply, vec![true, true, true]);
    assert_eq!(ins.apply_order(), vec![(0, 0), (0, 1), (2, 0)]);
    assert!(ins.revert_order().is_empty());
    assert!(ins.needs_root());

    let rem = removal_instructions(InstalledModule { module: module("r", "a", "x"), built: built(vec![job(false, 1), job(false, 2)]) });
    assert_eq!(rem.revert_order(), vec![(0, 0), (1, 0), (1, 1)]);
    assert!(!rem.needs_root());
    let changes = vec![
        ScheduledChange { module: module("r", "a", "x"), instructions: rem, motivation: motivation(vec![], vec![]), what: ModifyType::Remove },
        ScheduledChange { module: module("r", "b", "x"), instructions: ins, motivation: motivation(vec![], vec![]), what: ModifyType::Install },
    ];
    assert!(needs_root_worker(&changes));
    assert!(!needs_root_worker(&vec![changes.into_iter().next().unwrap()]));

    let partial = ModuleInstructions {
        new: Some(built(vec![job(true, 1), job(false, 1)])),
        old: None,
        apply: vec![false, true],
        revert: vec![],
    };
    assert_eq!(partial.apply_order(), vec![(1, 0)]);
    assert_eq!(partial.installed_order(), vec![(0, 0), (1, 0)]);
    assert!(!partial.needs_root());
}

fn scheduled(name: &str, what: ModifyType, ins: ModuleInstructions, m: ModuleMotivation) -> ScheduledChange {
    ScheduledChange { module: module("repo", name, "c"), instructions: ins, motivation: m, what }
}

#[test]
fn review_lines() {
    let install = scheduled("a", ModifyType::Install, install_instructions(built(vec![])), motivation(vec![q("repo", "x")], vec![q("repo", "y"), q("repo", "z")]));
    assert_eq!(scheduled_line(&install), "    A (repo/a-1.0)");
    assert_eq!(type_line(&install), "        type: installation, depends on: repo/y, repo/z, because of: repo/x");
    let removal = scheduled("b", ModifyType::Remove, removal_instructions(installed("repo", "b", "c")), motivation(vec![], vec![]));
    assert_eq!(scheduled_line(&removal), "    B (repo/b-removal)");
    assert_eq!(type_line(&removal), "        type: removal");
}

#[test]
fn review_details_number_contents() {
    let mut j = BuiltJob::new();
    j.root = true;
    j.change(Change::Run(RunChange::new("make".to_string(), Some("make clean".to_string()), "/src".to_string(), false, false)));
    j.change(Change::Write(WriteChange::new("hello".to_string(), 0o644, "/tmp/h".to_string())));
    let change = scheduled("a", ModifyType::Install, install_instructions(built(vec![j])), motivation(vec![], vec![]));
    let (lines, files) = detail_view(&vec![change]);
    assert_eq!(lines, vec![
        "These specific changes are going to be applied:".to_string(),
        "Module: repo/a".to_string(),
        "        type: installation".to_string(),
        "    runs a command on the shell in '/src'".to_string(),
        "        action: applying, content: 1 (install), 2 (uninstall)root".to_string(),
        "    writes a file to '/tmp/h'".to_string(),
        "        action: applying, content: 3 (content)root".to_string(),
        "".to_string(),
    ]);
    assert_eq!(files, vec!["make".to_string(), "make clean".to_string(), "hello".to_string()]);
}

#[test]
fn review_answers() {
    assert!(matches!(first_answer(""), Answer::Apply));
    assert!(matches!(first_answer("Yes"), Answer::Apply));
    assert!(matches!(first_answer("  N "), Answer::Cancel));
    assert!(matches!(first_answer("f"), Answer::Details));
    assert!(matches!(first_answer("what"), Answer::Again));

    assert!(matches!(content_answer("y", 3), ContentAnswer::Apply));
    assert!(matches!(content_answer("no", 3), ContentAnswer::Cancel));
    assert!(matches!(content_answer("2", 3), ContentAnswer::Preview(2)));
    assert!(matches!(content_answer("4", 3), ContentAnswer::Again));
    assert!(matches!(content_answer("0", 3), ContentAnswer::Again));
    assert!(matches!(content_answer("x", 3), ContentAnswer::Again));
}

#[test]
fn save_records_outcomes() {
    let mut registry = Registry::new(Config::with_cache_dir("/tmp/pusta-cache".to_string()));
    registry.cache.install_module(installed("r", "old", "1"));
    registry.cache.install_module(installed("r", "gone", "1"));
    let changes = vec![
        ScheduledChange { module: module("r", "new", "2"), instructions: install_instructions(built(vec![])), motivation: motivation(vec![], vec![]), what: ModifyType::Install },
        ScheduledChange { module: module("r", "gone", "1"), instructions: removal_instructions(installed("r", "gone", "1")), motivation: motivation(vec![], vec![]), what: ModifyType::Remove },
        ScheduledChange { module: module("r", "old", "2"), instructions: install_instructions(built(vec![])), motivation: motivation(vec![], vec![]), what: ModifyType::Update },
        ScheduledChange { module: module("r", "skipped", "2"), instructions: install_instructions(built(vec![])), motivation: motivation(vec![], vec![]), what: ModifyType::Install },
    ];
    let dropped = save(changes, &vec![Some(true), Some(true), Some(false), None], &mut registry.cache);
    let names: Vec<String> = registry.cache.index.modules.iter().map(|m| m.module.qualifier.name().clone()).collect();
    assert_eq!(names, vec!["new".to_string()]);
    let dropped: Vec<String> = dropped.iter().map(|m| m.qualifier.name().clone()).collect();
    assert_eq!(dropped, vec!["gone".to_string(), "old".to_string()]);
}

fn registry_with(available: Vec<Module>, installed_modules: Vec<InstalledModule>) -> Registry {
    let mut registry = Registry::new(Config::with_cache_dir("/tmp/pusta-cache".to_string()));
    registry.index_modules(available);
    for m in installed_modules {
        registry.cache.install_module(m);
    }
    registry
}

#[test]
fn registry_install_choices() {
    let registry = registry_with(vec![module("one", "a", "1"), module("two", "a", "1"), module("one", "b", "1")], vec![installed("one", "b", "1")]);
    match registry.install_module("a", &Second) {
        Ok(g) => {
            assert_eq!(g.gathered.len(), 1);
            match &g.gathered[0] {
                Gathered::Install(x) => assert_eq!(x.unique(), "two/a"),
                _ => panic!("must install"),
            }
        }
        Err(_) => panic!("must find the module"),
    }
    assert_eq!(registry.install_module("b", &First).err().unwrap(), "Module is already installed, please update or reinstall it");
    assert_eq!(registry.install_module("zzz", &First).err().unwrap(), "Couldn't find a module under this name, are relevant sources added?");
}

#[test]
fn registry_uninstall_and_update() {
    let registry = registry_with(vec![module("one", "a", "2")], vec![installed("one", "a", "1"), installed("one", "orphan", "1")]);
    assert!(matches!(registry.uninstall_module("a", &First).unwrap().gathered[0], Gathered::Remove(_)));
    assert_eq!(registry.uninstall_module("nope", &First).err().unwrap(), "Couldn't find installed module for 'nope', is it installed?");
    assert!(matches!(registry.update_module("a", &First).unwrap().gathered[0], Gathered::Update(_)));
    assert_eq!(registry.update_module("orphan", &First).err().unwrap(), "Module is installed but is orphaned, so it cannot be updated");
    assert_eq!(registry.update_module("nope", &First).err().unwrap(), "No module under the name 'nope' is installed, try installing one first");
}

#[test]
fn registry_update_everything_and_status() {
    let registry = registry_with(
        vec![module("one", "a", "2"), module("one", "b", "1")],
        vec![installed("one", "a", "1"), installed("one", "b", "1"), installed("one", "c", "1")],
    );
    let g = registry.update_everything().unwrap();
    assert_eq!(g.gathered.len(), 1);
    assert!(matches!(&g.gathered[0], Gathered::Update(x) if x.unique() == "one/a"));
    assert!(matches!(registry.status(&registry.cache.index.modules[0]), ModuleStatus::Outdated));
    assert!(matches!(registry.status(&registry.cache.index.modules[1]), ModuleStatus::UpToDate));
    assert!(matches!(registry.status(&registry.cache.index.modules[2]), ModuleStatus::Orphaned));

    let current = registry_with(vec![module("one", "a", "1")], vec![installed("one", "a", "1")]);
    assert!(current.update_everything().is_none());
}

#[test]
fn registry_list_is_sorted() {
    let registry = registry_with(
        vec![module("r", "b", "1")],
        vec![installed("z", "c", "1"), installed("r", "b", "1"), installed("a", "x", "1"), installed("r", "a", "1")],
    );
    let rows = registry.list();
    let uniques: Vec<String> = rows.iter().map(|r| r.unique.clone()).collect();
    assert_eq!(uniques, vec!["a/x", "r/a", "r/b", "z/c"]);
    assert!(matches!(rows[2].status, ModuleStatus::UpToDate));
    assert!(matches!(rows[0].status, ModuleStatus::Orphaned));
    assert_eq!(rows[1].name, "A");
    assert_eq!(rows[1].time, 7);
}

#[test]
fn registry_query_lines() {
    let mut m = module("one", "a", "1");
    m.author = Some("me".to_string());
    let registry = registry_with(vec![m, module("two", "a", "1")], vec![installed("two", "a", "1")]);
    let lines = registry.query_module("a");
    assert_eq!(lines, vec![
        "one/a-1.0 \n A by me\n the a module\n".to_string(),
        "two/a-1.0 installed\n A \n the a module\n".to_string(),
    ]);
    assert_eq!(registry.query_module("two/a").len(), 1);
}

#[test]
fn registry_repositories() {
    let mut registry = registry_with(vec![module("one", "a", "1"), module("two", "b", "1")], vec![]);
    assert!(registry.add_repository(Repository { location: "/x/one".to_string(), name: "one".to_string() }).is_ok());
    assert!(registry.add_repository(Repository { location: "/x/two".to_string(), name: "two".to_string() }).is_ok());
    assert_eq!(
        registry.add_repository(Repository { location: "/y".to_string(), name: "one".to_string() }).err().unwrap(),
        "There is already a repository loaded with the same alias 'one'"
    );
    assert_eq!(
        registry.add_repository(Repository { location: "/x/two".to_string(), name: "three".to_string() }).err().unwrap(),
        "This repository is already added (under the alias 'two')"
    );
    let removed = registry.remove_repository("one").unwrap();
    assert_eq!(removed.location, "/x/one");
    assert_eq!(registry.index.modules.len(), 1);
    assert_eq!(registry.index.modules[0].qualifier.unique(), "two/b");
    assert!(registry.remove_repository("one").is_none());
}

#[test]
fn yes_no_answers() {
    assert!(yes_answer("", true));
    assert!(!yes_answer("", false));
    assert!(yes_answer("  Yes ", false));
    assert!(!yes_answer("nope", true));
    assert!(!yes_answer("garbage", true));
}

#[test]
fn injected_variables_take_newest_module() {
    let mut offered = module("one", "a", "2");
    offered.injections = Some(Variable::Group(vec![("x".to_string(), Variable::Value(Value::String("new".to_string())))]));
    let mut old = installed("one", "a", "1");
    old.module.injections = Some(Variable::Group(vec![("x".to_string(), Variable::Value(Value::String("old".to_string())))]));
    let mut orphan = installed("two", "b", "1");
    orphan.module.injections = Some(Variable::Group(vec![("y".to_string(), Variable::Value(Value::String("kept".to_string())))]));
    let registry = registry_with(vec![offered], vec![old, orphan]);
    let injected = registry.newest_injected_variables();
    assert!(injected.find("x").unwrap().equals(&Variable::Value(Value::String("new".to_string()))));
    assert!(injected.find("y").unwrap().equals(&Variable::Value(Value::String("kept".to_string()))));
}

#[test]
fn gathered_changes_without_dependencies_resolve() {
    let mut available = pusta::registry::index::Index::new();
    available.add(module("one", "a", "1"));
    available.add(module("one", "b", "1"));
    let mut local = pusta::registry::index::Index::new();
    local.add(installed("one", "c", "1"));
    let mut g = pusta::module::install::Gatherer::new();
    g.install(q("one", "a"));
    g.remove(q("one", "c"));
    g.update(q("one", "b"));
    let v = g.gather(&available, &local, &First).ok().unwrap();
    assert_eq!(v.len(), 3);
    assert_eq!(v[0].0.unique(), "one/c");
    let rest: Vec<String> = v[1..].iter().map(|x| x.0.unique()).collect();
    assert!(rest.contains(&"one/a".to_string()));
    assert!(rest.contains(&"one/b".to_string()));
}
