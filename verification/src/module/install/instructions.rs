//! What a change does to a module: the build it leaves behind, and which jobs of the old and the
//! new build run.
use vstd::prelude::*;
use crate::jobs::BuiltJob;
use crate::module::{BuiltModule, InstalledModule};

verus! {

/// The jobs to run for a module: the old build with the jobs to revert, the new build with the
/// jobs to apply. Each flag belongs to the job at the same position.
pub struct ModuleInstructions {
    pub new: Option<BuiltModule>,
    pub old: Option<BuiltModule>,
    pub apply: Vec<bool>,
    pub revert: Vec<bool>,
}

/// The number of changes of each job.
pub open spec fn change_counts(jobs: Seq<BuiltJob>) -> Seq<usize> {
    Seq::new(jobs.len(), |j: int| jobs[j].changes@.len() as usize)
}

/// The changes of the picked jobs, as (job, change) positions, job by job and change by change.
/// A job without a flag is not picked.
pub open spec fn walk_order(counts: Seq<usize>, picked: Seq<bool>) -> Seq<(usize, usize)>
    decreases counts.len(),
{
    if counts.len() == 0 {
        Seq::empty()
    } else {
        let j = counts.len() - 1;
        walk_order(counts.drop_last(), picked) + if j < picked.len() && picked[j] {
            Seq::new(counts[j] as nat, |k: int| (j as usize, k as usize))
        } else {
            Seq::empty()
        }
    }
}

/// Every job picked.
pub open spec fn all_picked(n: nat) -> Seq<bool> {
    Seq::new(n, |j: int| true)
}

/// Whether one of the picked jobs runs as root.
pub open spec fn picks_root(jobs: Seq<BuiltJob>, picked: Seq<bool>) -> bool {
    exists|j: int| 0 <= j < jobs.len() && j < picked.len() && #[trigger] picked[j] && jobs[j].root
}

/// Whether the instructions run a job as root: an applied job of the new build, or a reverted
/// job of the old one.
pub open spec fn instructions_need_root(i: ModuleInstructions) -> bool {
    (i.new matches Some(n) && picks_root(n.jobs@, i.apply@))
        || (i.old matches Some(o) && picks_root(o.jobs@, i.revert@))
}

proof fn lemma_walk_order_step(counts: Seq<usize>, picked: Seq<bool>, j: int)
    requires
        0 <= j < counts.len(),
    ensures
        walk_order(counts.take(j + 1), picked) == walk_order(counts.take(j), picked) + if j < picked.len() && picked[j] {
            Seq::new(counts[j] as nat, |k: int| (j as usize, k as usize))
        } else {
            Seq::empty()
        },
{
    assert(counts.take(j + 1).drop_last() =~= counts.take(j));
}

/// Every position of a walk order names a job and one of its changes.
pub proof fn lemma_walk_order_bounds(counts: Seq<usize>, picked: Seq<bool>, p: int)
    requires
        0 <= p < walk_order(counts, picked).len(),
        counts.len() <= usize::MAX,
    ensures
        (walk_order(counts, picked)[p].0 as int) < counts.len(),
        (walk_order(counts, picked)[p].1 as int) < counts[walk_order(counts, picked)[p].0 as int],
    decreases counts.len(),
{
    let j = counts.len() - 1;
    let front = walk_order(counts.drop_last(), picked);
    if p < front.len() {
        lemma_walk_order_bounds(counts.drop_last(), picked, p);
        let q = front[p];
        assert(walk_order(counts, picked)[p] == q);
        assert(counts.drop_last()[q.0 as int] == counts[q.0 as int]);
    } else {
        let k = p - front.len();
        assert(j < picked.len() && picked[j]);
        let tail = Seq::new(counts[j] as nat, |c: int| (j as usize, c as usize));
        assert(walk_order(counts, picked) == front + tail);
        assert(walk_order(counts, picked)[p] == tail[k]);
        assert(tail[k] == (j as usize, k as usize));
    }
}

/// The (job, change) positions of the picked jobs, in the order they are applied.
pub fn order_of(jobs: &Vec<BuiltJob>, picked: &Vec<bool>) -> (r: Vec<(usize, usize)>)
    ensures
        r@ == walk_order(change_counts(jobs@), picked@),
{
    let ghost counts = change_counts(jobs@);
    let mut r: Vec<(usize, usize)> = Vec::new();
    let mut j: usize = 0;
    while j < jobs.len()
        invariant
            counts == change_counts(jobs@),
            j <= jobs@.len(),
            r@ == walk_order(counts.take(j as int), picked@),
        decreases jobs@.len() - j,
    {
        proof {
            lemma_walk_order_step(counts, picked@, j as int);
        }
        if j < picked.len() && picked[j] {
            let n = jobs[j].changes.len();
            let ghost before = r@;
            let mut k: usize = 0;
            while k < n
                invariant
                    counts == change_counts(jobs@),
                    j < jobs@.len(),
                    n == counts[j as int],
                    k <= n,
                    r@ == before + Seq::new(k as nat, |c: int| (j, c as usize)),
                decreases n - k,
            {
                r.push((j, k));
                assert(r@ =~= before + Seq::new((k + 1) as nat, |c: int| (j, c as usize)));
                k = k + 1;
            }
        }
        proof {
            let tail = if (j as int) < picked@.len() && picked@[j as int] {
                Seq::new(counts[j as int] as nat, |k: int| (j, k as usize))
            } else {
                Seq::empty()
            };
            assert(r@ =~= walk_order(counts.take(j as int), picked@) + tail);
        }
        j = j + 1;
    }
    assert(counts.take(jobs@.len() as int) =~= counts);
    r
}

/// A flag for every job.
pub fn every_job(n: usize) -> (r: Vec<bool>)
    ensures
        r@ == all_picked(n as nat),
{
    let mut r: Vec<bool> = Vec::new();
    let mut i: usize = 0;
    while i < n
        invariant
            i <= n,
            r@ == all_picked(i as nat),
        decreases n - i,
    {
        r.push(true);
        assert(r@ =~= all_picked((i + 1) as nat));
        i = i + 1;
    }
    r
}

/// Whether one of the picked jobs runs as root.
pub fn root_picked(jobs: &Vec<BuiltJob>, picked: &Vec<bool>) -> (r: bool)
    ensures
        r == picks_root(jobs@, picked@),
{
    let mut j: usize = 0;
    while j < jobs.len() && j < picked.len()
        invariant
            j <= jobs@.len(),
            forall|k: int| 0 <= k < j && k < picked@.len() ==> !(#[trigger] picked@[k] && jobs@[k].root),
        decreases jobs@.len() - j,
    {
        if picked[j] && jobs[j].root {
            return true;
        }
        j = j + 1;
    }
    false
}

impl ModuleInstructions {
    /// The changes of the old jobs to revert, in the order they were applied.
    pub fn revert_order(&self) -> (r: Vec<(usize, usize)>)
        ensures
            r@ == match self.old {
                Some(o) => walk_order(change_counts(o.jobs@), self.revert@),
                None => Seq::empty(),
            },
    {
        match &self.old {
            Some(o) => order_of(&o.jobs, &self.revert),
            None => Vec::new(),
        }
    }

    /// The changes of the new jobs to apply, in order.
    pub fn apply_order(&self) -> (r: Vec<(usize, usize)>)
        ensures
            r@ == match self.new {
                Some(n) => walk_order(change_counts(n.jobs@), self.apply@),
                None => Seq::empty(),
            },
    {
        match &self.new {
            Some(n) => order_of(&n.jobs, &self.apply),
            None => Vec::new(),
        }
    }

    /// Every change of the new build, in order: what undoing the module reverts.
    pub fn installed_order(&self) -> (r: Vec<(usize, usize)>)
        ensures
            r@ == match self.new {
                Some(n) => walk_order(change_counts(n.jobs@), all_picked(n.jobs@.len())),
                None => Seq::empty(),
            },
    {
        match &self.new {
            Some(n) => {
                let all = every_job(n.jobs.len());
                order_of(&n.jobs, &all)
            },
            None => Vec::new(),
        }
    }

    /// Whether a job of these instructions runs as root.
    pub fn needs_root(&self) -> (r: bool)
        ensures
            r == instructions_need_root(*self),
    {
        let applied = match &self.new {
            Some(n) => root_picked(&n.jobs, &self.apply),
            None => false,
        };
        let reverted = match &self.old {
            Some(o) => root_picked(&o.jobs, &self.revert),
            None => false,
        };
        applied || reverted
    }
}

/// What a change does to a module.
pub enum ModifyType {
    Install,
    Remove,
    Update,
}

/// The word for what a change does.
pub open spec fn modify_name(t: ModifyType) -> Seq<char> {
    match t {
        ModifyType::Install => "installation"@,
        ModifyType::Remove => "removal"@,
        ModifyType::Update => "update"@,
    }
}

impl ModifyType {
    /// The word for what the change does.
    pub fn name(&self) -> (r: &'static str)
        ensures
            r@ == modify_name(*self),
    {
        proof {
            reveal_strlit("installation");
            reveal_strlit("removal");
            reveal_strlit("update");
        }
        match self {
            ModifyType::Install => "installation",
            ModifyType::Remove => "removal",
            ModifyType::Update => "update",
        }
    }
}

/// Instructions that revert every job of an installed module.
pub fn removal_instructions(installed: InstalledModule) -> (r: ModuleInstructions)
    ensures
        r.new is None,
        r.old == Some(installed.built),
        r.apply@.len() == 0,
        r.revert@ == all_picked(installed.built.jobs@.len()),
{
    let revert = every_job(installed.built.jobs.len());
    ModuleInstructions { new: None, old: Some(installed.built), apply: Vec::new(), revert }
}

/// What becomes of a job when a module is updated.
pub enum JobUpdate {
    /// The job stays as it was built: its old build is kept and not applied again.
    Keep(usize),
    /// The job is rebuilt on top of its old build, which is not reverted.
    Partial(usize),
    /// The old build is reverted and the job is built anew.
    Rebuild(usize),
    /// A job that is new is built.
    Build(usize),
}

/// What becomes of the jobs of an updated module, position by position: a job at a position
/// that both builds have is kept when it is `unchanged`, rebuilt on top of the old build when a
/// `partial` build is possible, and rebuilt from scratch otherwise; a job only the new module has
/// is built; a job only the old build has is reverted.
pub open spec fn update_steps(new_jobs: nat, old_jobs: nat, unchanged: Seq<bool>, partial: Seq<bool>) -> Seq<JobUpdate> {
    Seq::new(
        new_jobs,
        |i: int|
            if i < old_jobs {
                if i < unchanged.len() && unchanged[i] {
                    JobUpdate::Keep(i as usize)
                } else if i < partial.len() && partial[i] {
                    JobUpdate::Partial(i as usize)
                } else {
                    JobUpdate::Rebuild(i as usize)
                }
            } else {
                JobUpdate::Build(i as usize)
            },
    )
}

/// Which jobs of the new build are applied: all but the kept ones.
pub open spec fn update_apply(steps: Seq<JobUpdate>) -> Seq<bool> {
    Seq::new(steps.len(), |i: int| !(steps[i] is Keep))
}

/// Which jobs of the old build are reverted: those rebuilt from scratch, and those the new module
/// no longer has.
pub open spec fn update_revert(steps: Seq<JobUpdate>, old_jobs: nat) -> Seq<bool> {
    Seq::new(old_jobs, |i: int| i >= steps.len() || steps[i] is Rebuild)
}

} // verus!
