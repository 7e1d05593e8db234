//! Preparing a change: building the jobs of a module into the instructions that carry it out.
use vstd::prelude::*;
use crate::config::ConfigPackage;
use crate::jobs::{BuiltJob, JobEnvironment, JobError, job_unchanged, stays_built, updatable, same_built};
use crate::jobs::construct::{ModuleFiles, job_title, builds_plainly, kind_built, partially_built};
use crate::variables::VarView;
use crate::module::{BuiltModule, InstalledModule, Module};
use crate::module::install::instructions::{ModuleInstructions, JobUpdate, update_steps, update_apply, update_revert, all_picked};
use crate::numbers::Numerics;
use crate::text::copy_string;
use crate::variables::Variable;

verus! {

/// A copy of the package manager settings.
fn copy_package(c: &ConfigPackage) -> (r: ConfigPackage)
    ensures
        r.root == c.root,
        r.install@ == c.install@,
        r.remove@ == c.remove@,
{
    ConfigPackage { root: c.root, install: copy_string(&c.install), remove: copy_string(&c.remove) }
}

/// Whether a built job carries the title of a job and whether it may fail.
pub open spec fn titled(b: BuiltJob, j: crate::jobs::Job) -> bool {
    b.title@ == job_title(j) && b.optional == match j.optional {
        Some(o) => o,
        None => false,
    }
}

/// Whether a built job is what building a job gives in the module at `path`, with the variables
/// `vars` and the package manager settings `package`: its title, whether it may fail, and what
/// its kind builds.
pub open spec fn built_from<N: Numerics, F: ModuleFiles>(b: BuiltJob, j: crate::jobs::Job, path: Seq<char>, vars: VarView, numerics: &N, files: &F, package: ConfigPackage) -> bool {
    titled(b, j) && kind_built(j.job, path, vars, numerics, files, package, b)
}

/// Every job of a module builds plainly, so building the module cannot fail.
pub open spec fn all_plain(jobs: Seq<crate::jobs::Job>) -> bool {
    forall|k: int| 0 <= k < jobs.len() ==> builds_plainly(#[trigger] jobs[k])
}

/// Builds a module for installation: every job, in order. The first job that fails to build
/// fails the module.
pub fn build_install<N: Numerics, F: ModuleFiles>(
    module: &Module,
    variables: Variable,
    package: &ConfigPackage,
    files: &F,
    numerics: &N,
    time: u64,
) -> (r: Result<ModuleInstructions, JobError>)
    ensures
        all_plain(module.jobs@) ==> r is Ok,
        r matches Ok(i) ==> {
            &&& i.new is Some
            &&& i.new->0.jobs@.len() == module.jobs@.len()
            &&& forall|k: int| 0 <= k < module.jobs@.len() ==> built_from(
                #[trigger] i.new->0.jobs@[k],
                module.jobs@[k],
                module.path@,
                variables.view(),
                numerics,
                files,
                *package,
            )
            &&& i.new->0.used_variables == variables
            &&& i.new->0.time == time
            &&& i.old is None
            &&& i.apply@ == all_picked(module.jobs@.len())
            &&& i.revert@.len() == 0
        },
{
    let env = JobEnvironment { variables, path: copy_string(&module.path), package_config: copy_package(package) };
    let mut jobs: Vec<BuiltJob> = Vec::new();
    let mut k: usize = 0;
    while k < module.jobs.len()
        invariant
            env.variables == variables,
            k <= module.jobs@.len(),
            jobs@.len() == k,
            env.path@ == module.path@,
            env.package_config.root == package.root,
            env.package_config.install@ == package.install@,
            env.package_config.remove@ == package.remove@,
            forall|x: int| 0 <= x < k ==> built_from(#[trigger] jobs@[x], module.jobs@[x], module.path@, variables.view(), numerics, files, *package),
        decreases module.jobs@.len() - k,
    {
        proof {
            if all_plain(module.jobs@) {
                assert(builds_plainly(module.jobs@[k as int]));
            }
        }
        let built = module.jobs[k].build(&env, files, numerics)?;
        jobs.push(built);
        k = k + 1;
    }
    let JobEnvironment { variables, .. } = env;
    let n = jobs.len();
    let apply = crate::module::install::instructions::every_job(n);
    Ok(ModuleInstructions { new: Some(BuiltModule { jobs, used_variables: variables, time }), old: None, apply, revert: Vec::new() })
}

/// Whether each job at a position both versions have stays as it was built.
pub open spec fn unchanged_jobs(installed: InstalledModule, module: Module, variables: Variable, current: Seq<Vec<Option<String>>>, count: nat) -> Seq<bool> {
    Seq::new(
        count,
        |i: int|
            stays_built(
                module.jobs@[i],
                installed.module.jobs@[i],
                installed.built.jobs@[i],
                current[i]@,
                installed.built.used_variables,
                variables,
            ),
    )
}

/// Whether each job at a position both versions have can be built on top of its old build.
pub open spec fn partial_jobs(installed: InstalledModule, module: Module, count: nat) -> Seq<bool> {
    Seq::new(count, |i: int| updatable(module.jobs@[i].job, installed.module.jobs@[i].job))
}

/// The number of old jobs that have a build.
pub open spec fn old_count(installed: InstalledModule) -> nat {
    if installed.module.jobs@.len() < installed.built.jobs@.len() {
        installed.module.jobs@.len()
    } else {
        installed.built.jobs@.len()
    }
}

/// What becomes of the jobs when an installed module is updated to `module`.
pub open spec fn update_plan(installed: InstalledModule, module: Module, variables: Variable, current: Seq<Vec<Option<String>>>) -> Seq<JobUpdate> {
    let o = old_count(installed);
    let both = if module.jobs@.len() < o { module.jobs@.len() } else { o };
    update_steps(
        module.jobs@.len(),
        o,
        unchanged_jobs(installed, module, variables, current, both),
        partial_jobs(installed, module, both),
    )
}

/// Builds the update of an installed module to the module as it is offered now, job by job at
/// the same positions: a job that stays as it was keeps its old build and is not applied again;
/// another one is built on top of its old build where it can be, and otherwise its old build is
/// reverted and it is built anew; a new job is built; an old job the module no longer has is
/// reverted. `current` holds, for each old built job, the checksums its resources have now.
pub fn build_update<N: Numerics, F: ModuleFiles>(
    installed: InstalledModule,
    module: &Module,
    variables: Variable,
    package: &ConfigPackage,
    files: &F,
    numerics: &N,
    time: u64,
    current: &Vec<Vec<Option<String>>>,
) -> (r: Result<ModuleInstructions, JobError>)
    requires
        current@.len() == installed.built.jobs@.len(),
        forall|i: int| 0 <= i < current@.len() ==> (#[trigger] current@[i])@.len() == installed.built.jobs@[i].resources@.len(),
    ensures
        all_plain(module.jobs@) ==> r is Ok,
        r matches Ok(ins) ==> {
            let steps = update_plan(installed, *module, variables, current@);
            let o = old_count(installed);
            &&& ins.old == Some(installed.built)
            &&& ins.apply@ == update_apply(steps)
            &&& ins.revert@ == update_revert(steps, o) + Seq::new((installed.built.jobs@.len() - o) as nat, |x: int| false)
            &&& ins.new is Some
            &&& ins.new->0.jobs@.len() == module.jobs@.len()
            &&& ins.new->0.used_variables == variables
            &&& ins.new->0.time == time
            &&& forall|k: int| 0 <= k < module.jobs@.len() ==> (if steps[k] is Keep {
                same_built(#[trigger] ins.new->0.jobs@[k], installed.built.jobs@[k])
            } else if steps[k] is Partial {
                titled(ins.new->0.jobs@[k], module.jobs@[k]) && partially_built(
                    module.jobs@[k].job,
                    installed.module.jobs@[k].job,
                    module.path@,
                    variables.view(),
                    numerics,
                    files,
                    *package,
                    ins.new->0.jobs@[k],
                )
            } else {
                built_from(ins.new->0.jobs@[k], module.jobs@[k], module.path@, variables.view(), numerics, files, *package)
            })
        },
{
    let ghost steps = update_plan(installed, *module, variables, current@);
    let o = if installed.module.jobs.len() < installed.built.jobs.len() {
        installed.module.jobs.len()
    } else {
        installed.built.jobs.len()
    };
    let n = module.jobs.len();
    let env = JobEnvironment { variables, path: copy_string(&module.path), package_config: copy_package(package) };
    let mut jobs: Vec<BuiltJob> = Vec::new();
    let mut apply: Vec<bool> = Vec::new();
    let mut k: usize = 0;
    while k < n
        invariant
            env.variables == variables,
            steps == update_plan(installed, *module, variables, current@),
            o == old_count(installed),
            n == module.jobs@.len(),
            current@.len() == installed.built.jobs@.len(),
            forall|i: int| 0 <= i < current@.len() ==> (#[trigger] current@[i])@.len() == installed.built.jobs@[i].resources@.len(),
            k <= n,
            jobs@.len() == k,
            apply@ == update_apply(steps).take(k as int),
            env.path@ == module.path@,
            env.package_config.root == package.root,
            env.package_config.install@ == package.install@,
            env.package_config.remove@ == package.remove@,
            forall|x: int| 0 <= x < k ==> (if steps[x] is Keep {
                same_built(#[trigger] jobs@[x], installed.built.jobs@[x])
            } else if steps[x] is Partial {
                titled(jobs@[x], module.jobs@[x]) && partially_built(
                    module.jobs@[x].job,
                    installed.module.jobs@[x].job,
                    module.path@,
                    variables.view(),
                    numerics,
                    files,
                    *package,
                    jobs@[x],
                )
            } else {
                built_from(jobs@[x], module.jobs@[x], module.path@, variables.view(), numerics, files, *package)
            }),
        decreases n - k,
    {
        let job = &module.jobs[k];
        proof {
            if all_plain(module.jobs@) {
                assert(builds_plainly(module.jobs@[k as int]));
            }
        }
        if k < o {
            let old = &installed.module.jobs[k];
            let old_built = &installed.built.jobs[k];
            let unchanged = job_unchanged(job, old, old_built, &current[k], &installed.built.used_variables, &env.variables);
            if unchanged {
                jobs.push(old_built.copy());
                apply.push(false);
            } else {
                match job.partial(old, &env, files, numerics) {
                    Some(result) => {
                        jobs.push(result?);
                        apply.push(true);
                    },
                    None => {
                        jobs.push(job.build(&env, files, numerics)?);
                        apply.push(true);
                    },
                }
            }
        } else {
            jobs.push(job.build(&env, files, numerics)?);
            apply.push(true);
        }
        assert(apply@ =~= update_apply(steps).take(k + 1));
        k = k + 1;
    }
    assert(update_apply(steps).take(n as int) =~= update_apply(steps));
    let mut revert: Vec<bool> = Vec::new();
    let mut i: usize = 0;
    let total = installed.built.jobs.len();
    let ghost goal = update_revert(steps, o as nat) + Seq::new((total - o) as nat, |x: int| false);
    while i < total
        invariant
            steps == update_plan(installed, *module, variables, current@),
            o == old_count(installed),
            o <= total,
            n == module.jobs@.len(),
            total == installed.built.jobs@.len(),
            goal == update_revert(steps, o as nat) + Seq::new((total - o) as nat, |x: int| false),
            env.variables == variables,
            current@.len() == installed.built.jobs@.len(),
            forall|i: int| 0 <= i < current@.len() ==> (#[trigger] current@[i])@.len() == installed.built.jobs@[i].resources@.len(),
            i <= total,
            revert@ == goal.take(i as int),
        decreases total - i,
    {
        let reverted = if i >= o {
            false
        } else if i >= n {
            true
        } else {
            let job = &module.jobs[i];
            let old = &installed.module.jobs[i];
            let old_built = &installed.built.jobs[i];
            !job_unchanged(job, old, old_built, &current[i], &installed.built.used_variables, &env.variables)
                && !job.job.can_update(&old.job)
        };
        revert.push(reverted);
        assert(revert@ =~= goal.take(i + 1));
        i = i + 1;
    }
    assert(goal.take(total as int) =~= goal);
    let JobEnvironment { variables, .. } = env;
    Ok(ModuleInstructions { new: Some(BuiltModule { jobs, used_variables: variables, time }), old: Some(installed.built), apply, revert })
}

/// Builds a module to be reinstalled: every job of the installed build is reverted, then every
/// job of the module is built and applied.
pub fn build_reinstall<N: Numerics, F: ModuleFiles>(
    installed: InstalledModule,
    module: &Module,
    variables: Variable,
    package: &ConfigPackage,
    files: &F,
    numerics: &N,
    time: u64,
) -> (r: Result<ModuleInstructions, JobError>)
    ensures
        all_plain(module.jobs@) ==> r is Ok,
        r matches Ok(i) ==> {
            &&& i.new is Some
            &&& i.new->0.jobs@.len() == module.jobs@.len()
            &&& forall|k: int| 0 <= k < module.jobs@.len() ==> built_from(
                #[trigger] i.new->0.jobs@[k],
                module.jobs@[k],
                module.path@,
                variables.view(),
                numerics,
                files,
                *package,
            )
            &&& i.new->0.used_variables == variables
            &&& i.new->0.time == time
            &&& i.old == Some(installed.built)
            &&& i.apply@ == all_picked(module.jobs@.len())
            &&& i.revert@ == all_picked(installed.built.jobs@.len())
        },
{
    let fresh = build_install(module, variables, package, files, numerics, time)?;
    let revert = crate::module::install::instructions::every_job(installed.built.jobs.len());
    Ok(ModuleInstructions { new: fresh.new, old: Some(installed.built), apply: fresh.apply, revert })
}

} // verus!
