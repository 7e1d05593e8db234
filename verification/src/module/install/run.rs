//! Carrying out a change, as the outcome of each step becomes known.
//!
//! Applying and reverting changes happens in workers outside this library; the decisions around
//! it are made here. A [`JobWalk`] says which change to dispatch next within a list of jobs, and a
//! [`ModuleRun`] says what to do next for the modules of a change.
use vstd::prelude::*;
use crate::module::install::depend::{ModuleMotivation, unwanted};
use crate::module::qualifier::ModuleQualifier;
use crate::registry::index::same_module;
use crate::module::install::instructions::instructions_need_root;
use crate::module::install::review::ScheduledChange;

verus! {

/// What to do next in a walk over changes.
pub enum WalkStep {
    /// Dispatch the change at (job, change), applying it or reverting it.
    Dispatch(usize, usize, bool),
    /// The walk is over; whether it went through.
    Done(bool),
}

/// The state of a walk over changes.
pub struct WalkState {
    pub order: Seq<(usize, usize)>,
    pub applying: bool,
    pub undoing: bool,
    pub cursor: int,
    pub graceful: bool,
}

/// The dispatch of the change at a position.
pub open spec fn dispatch_at(order: Seq<(usize, usize)>, p: int, apply: bool) -> WalkStep {
    WalkStep::Dispatch(order[p].0, order[p].1, apply)
}

/// What a walk does with the outcome of the change dispatched last. Applying: a change that went
/// through leads to the next one, or to the end; a refused one turns the walk to reverting the
/// changes applied before it, last first. Undoing: the one before is reverted, whatever came of
/// this one. Reverting: the one before is reverted, and the walk stays graceful only while every
/// revert goes through.
pub open spec fn walk_next(w: WalkState, went_through: bool) -> (WalkState, WalkStep) {
    if w.applying && !w.undoing {
        if went_through {
            let c = w.cursor + 1;
            (
                WalkState { order: w.order, applying: w.applying, undoing: false, cursor: c, graceful: w.graceful },
                if c < w.order.len() { dispatch_at(w.order, c, true) } else { WalkStep::Done(true) },
            )
        } else {
            (
                WalkState { order: w.order, applying: w.applying, undoing: true, cursor: w.cursor, graceful: w.graceful },
                if w.cursor > 0 { dispatch_at(w.order, w.cursor - 1, false) } else { WalkStep::Done(false) },
            )
        }
    } else if w.applying {
        let c = w.cursor - 1;
        (
            WalkState { order: w.order, applying: w.applying, undoing: true, cursor: c, graceful: w.graceful },
            if c > 0 { dispatch_at(w.order, c - 1, false) } else { WalkStep::Done(false) },
        )
    } else {
        let g = w.graceful && went_through;
        let c = w.cursor - 1;
        (
            WalkState { order: w.order, applying: w.applying, undoing: w.undoing, cursor: c, graceful: g },
            if c > 0 { dispatch_at(w.order, c - 1, false) } else { WalkStep::Done(g) },
        )
    }
}

/// The steps a walk takes, given the outcomes of the changes it dispatches, in order, until it
/// is done or the outcomes run out.
pub open spec fn walk_steps(w: WalkState, outcomes: Seq<bool>) -> Seq<WalkStep>
    decreases outcomes.len(),
{
    if outcomes.len() == 0 {
        Seq::empty()
    } else {
        let (next, step) = walk_next(w, outcomes[0]);
        if step is Done {
            seq![step]
        } else {
            seq![step] + walk_steps(next, outcomes.drop_first())
        }
    }
}

/// An applying walk over `order` that has dispatched the change at `cursor`.
pub open spec fn applying_at(order: Seq<(usize, usize)>, cursor: int) -> WalkState {
    WalkState { order, applying: true, undoing: false, cursor, graceful: true }
}

/// The reverts that undo the changes before `c`, last first.
pub open spec fn undo_steps(order: Seq<(usize, usize)>, c: int) -> Seq<WalkStep> {
    Seq::new(c as nat, |j: int| dispatch_at(order, c - 1 - j, false))
}

proof fn lemma_undo_phase(order: Seq<(usize, usize)>, c: int, outcomes: Seq<bool>)
    requires
        1 <= c <= order.len(),
        outcomes.len() == c,
    ensures
        walk_steps(WalkState { order, applying: true, undoing: true, cursor: c, graceful: true }, outcomes)
            == undo_steps(order, c - 1) + seq![WalkStep::Done(false)],
    decreases c,
{
    let w = WalkState { order, applying: true, undoing: true, cursor: c, graceful: true };
    if c == 1 {
        assert(undo_steps(order, 0) =~= Seq::<WalkStep>::empty());
        assert(walk_steps(w, outcomes) =~= seq![WalkStep::Done(false)]);
    } else {
        lemma_undo_phase(order, c - 1, outcomes.drop_first());
        assert(walk_steps(w, outcomes) =~= seq![dispatch_at(order, c - 2, false)] + walk_steps(
            WalkState { order, applying: true, undoing: true, cursor: c - 1, graceful: true },
            outcomes.drop_first(),
        ));
        assert(seq![dispatch_at(order, c - 2, false)] + undo_steps(order, c - 2) =~= undo_steps(order, c - 1));
    }
}

proof fn lemma_apply_phase(order: Seq<(usize, usize)>, c: int, p: int, outcomes: Seq<bool>)
    requires
        0 <= c <= p < order.len(),
        outcomes.len() == (p - c) + 1 + p,
        forall|i: int| 0 <= i < p - c ==> outcomes[i],
        !outcomes[p - c],
    ensures
        walk_steps(applying_at(order, c), outcomes) == Seq::new(
            (p - c) as nat,
            |i: int| dispatch_at(order, c + 1 + i, true),
        ) + undo_steps(order, p) + seq![WalkStep::Done(false)],
    decreases p - c,
{
    let w = applying_at(order, c);
    if c == p {
        assert(Seq::new(0nat, |i: int| dispatch_at(order, c + 1 + i, true)) =~= Seq::<WalkStep>::empty());
        if p == 0 {
            assert(undo_steps(order, 0) =~= Seq::<WalkStep>::empty());
            assert(walk_steps(w, outcomes) =~= seq![WalkStep::Done(false)]);
        } else {
            lemma_undo_phase(order, p, outcomes.drop_first());
            assert(walk_steps(w, outcomes) =~= seq![dispatch_at(order, p - 1, false)] + walk_steps(
                WalkState { order, applying: true, undoing: true, cursor: p, graceful: true },
                outcomes.drop_first(),
            ));
            assert(seq![dispatch_at(order, p - 1, false)] + undo_steps(order, p - 1) =~= undo_steps(order, p));
        }
    } else {
        let rest = outcomes.drop_first();
        assert forall|i: int| 0 <= i < p - (c + 1) implies rest[i] by {
            assert(rest[i] == outcomes[i + 1]);
        }
        lemma_apply_phase(order, c + 1, p, rest);
        assert(walk_steps(w, outcomes) =~= seq![dispatch_at(order, c + 1, true)] + walk_steps(applying_at(order, c + 1), rest));
        assert(seq![dispatch_at(order, c + 1, true)] + Seq::new(
            (p - (c + 1)) as nat,
            |i: int| dispatch_at(order, c + 2 + i, true),
        ) =~= Seq::new((p - c) as nat, |i: int| dispatch_at(order, c + 1 + i, true)));
    }
}

/// A refused change undoes the walk: when the change at `p` is refused after the ones before it
/// went through, the walk goes on to revert exactly those changes, last first, and fails. Here
/// the steps are those after the first dispatch, one for each outcome.
pub proof fn law_refusal_undoes_applied(order: Seq<(usize, usize)>, p: int, outcomes: Seq<bool>)
    requires
        0 <= p < order.len(),
        outcomes.len() == 2 * p + 1,
        forall|i: int| 0 <= i < p ==> outcomes[i],
        !outcomes[p],
    ensures
        walk_steps(applying_at(order, 0), outcomes) == Seq::new(p as nat, |i: int| dispatch_at(order, 1 + i, true))
            + undo_steps(order, p) + seq![WalkStep::Done(false)],
{
    lemma_apply_phase(order, 0, p, outcomes);
}

/// Whether every outcome is a success.
pub open spec fn all_through(outcomes: Seq<bool>) -> bool {
    forall|i: int| 0 <= i < outcomes.len() ==> outcomes[i]
}

proof fn lemma_revert_phase(order: Seq<(usize, usize)>, c: int, graceful: bool, outcomes: Seq<bool>)
    requires
        1 <= c <= order.len(),
        outcomes.len() == c,
    ensures
        walk_steps(WalkState { order, applying: false, undoing: false, cursor: c, graceful }, outcomes)
            == undo_steps(order, c - 1) + seq![WalkStep::Done(graceful && all_through(outcomes))],
    decreases c,
{
    let w = WalkState { order, applying: false, undoing: false, cursor: c, graceful };
    let g = graceful && outcomes[0];
    if c == 1 {
        assert(undo_steps(order, 0) =~= Seq::<WalkStep>::empty());
        assert(all_through(outcomes) == outcomes[0]);
        assert(walk_steps(w, outcomes) =~= seq![WalkStep::Done(g)]);
    } else {
        let rest = outcomes.drop_first();
        lemma_revert_phase(order, c - 1, g, rest);
        assert(walk_steps(w, outcomes) =~= seq![dispatch_at(order, c - 2, false)] + walk_steps(
            WalkState { order, applying: false, undoing: false, cursor: c - 1, graceful: g },
            rest,
        ));
        assert(seq![dispatch_at(order, c - 2, false)] + undo_steps(order, c - 2) =~= undo_steps(order, c - 1));
        assert(all_through(outcomes) == (outcomes[0] && all_through(rest))) by {
            if all_through(outcomes) {
                assert forall|i: int| 0 <= i < rest.len() implies rest[i] by {
                    assert(rest[i] == outcomes[i + 1]);
                }
            }
            if outcomes[0] && all_through(rest) {
                assert forall|i: int| 0 <= i < outcomes.len() implies outcomes[i] by {
                    if i > 0 {
                        assert(outcomes[i] == rest[i - 1]);
                    }
                }
            }
        }
    }
}

/// Reverting walks over every change, last first, and is graceful exactly when every revert went
/// through. Here the steps are those after the first dispatch, one for each outcome.
pub proof fn law_revert_reverts_all(order: Seq<(usize, usize)>, outcomes: Seq<bool>)
    requires
        order.len() > 0,
        outcomes.len() == order.len(),
    ensures
        walk_steps(
            WalkState { order, applying: false, undoing: false, cursor: order.len() as int, graceful: true },
            outcomes,
        ) == undo_steps(order, order.len() - 1) + seq![WalkStep::Done(all_through(outcomes))],
{
    lemma_revert_phase(order, order.len() as int, true, outcomes);
}

/// A walk over the changes of some jobs, in the order given by their positions.
///
/// Applying walks forward; when a change is refused, the changes applied before it are reverted
/// again, last first, and the walk fails. Reverting walks backward over every change and is
/// graceful when every revert went through.
pub struct JobWalk {
    pub order: Vec<(usize, usize)>,
    pub applying: bool,
    pub undoing: bool,
    /// Applying: the position of the change being applied. Reverting or undoing: the number of
    /// changes still to revert, the one being reverted included.
    pub cursor: usize,
    pub graceful: bool,
}

impl JobWalk {
    /// Whether a dispatched change waits for its outcome.
    pub open spec fn pending(&self) -> bool {
        if self.applying && !self.undoing {
            self.cursor < self.order@.len()
        } else {
            0 < self.cursor <= self.order@.len()
        }
    }

    /// A walk that applies the changes at `order`, in order.
    pub fn applying(order: Vec<(usize, usize)>) -> (r: Self)
        ensures
            r.order@ == order@,
            r.applying,
            !r.undoing,
            r.cursor == 0,
    {
        JobWalk { order, applying: true, undoing: false, cursor: 0, graceful: true }
    }

    /// A walk that reverts the changes at `order`, last first.
    pub fn reverting(order: Vec<(usize, usize)>) -> (r: Self)
        ensures
            r.order@ == order@,
            !r.applying,
            !r.undoing,
            r.cursor == order@.len(),
            r.graceful,
    {
        let n = order.len();
        JobWalk { order, applying: false, undoing: false, cursor: n, graceful: true }
    }

    /// The first step of a new walk.
    pub fn start(&self) -> (r: WalkStep)
        requires
            !self.undoing,
            self.applying ==> self.cursor == 0,
            !self.applying ==> self.cursor == self.order@.len(),
        ensures
            self.order@.len() == 0 ==> r == WalkStep::Done(true),
            self.order@.len() > 0 && self.applying ==> r == WalkStep::Dispatch(self.order@[0].0, self.order@[0].1, true),
            self.order@.len() > 0 && !self.applying ==> r == WalkStep::Dispatch(
                self.order@.last().0,
                self.order@.last().1,
                false,
            ),
    {
        let n = self.order.len();
        if n == 0 {
            WalkStep::Done(true)
        } else if self.applying {
            WalkStep::Dispatch(self.order[0].0, self.order[0].1, true)
        } else {
            WalkStep::Dispatch(self.order[n - 1].0, self.order[n - 1].1, false)
        }
    }

    /// The state of the walk, as plain values.
    pub open spec fn state(&self) -> WalkState {
        WalkState {
            order: self.order@,
            applying: self.applying,
            undoing: self.undoing,
            cursor: self.cursor as int,
            graceful: self.graceful,
        }
    }

    /// Takes the outcome of the change that was dispatched last, and says what comes next.
    pub fn record(&mut self, went_through: bool) -> (r: WalkStep)
        requires
            old(self).pending(),
        ensures
            (final(self).state(), r) == walk_next(old(self).state(), went_through),
    {
        let n = self.order.len();
        if self.applying && !self.undoing {
            if went_through {
                self.cursor = self.cursor + 1;
                if self.cursor < n {
                    let (j, k) = self.order[self.cursor];
                    WalkStep::Dispatch(j, k, true)
                } else {
                    WalkStep::Done(true)
                }
            } else {
                self.undoing = true;
                if self.cursor > 0 {
                    let (j, k) = self.order[self.cursor - 1];
                    WalkStep::Dispatch(j, k, false)
                } else {
                    WalkStep::Done(false)
                }
            }
        } else if self.applying {
            self.cursor = self.cursor - 1;
            if self.cursor > 0 {
                let (j, k) = self.order[self.cursor - 1];
                WalkStep::Dispatch(j, k, false)
            } else {
                WalkStep::Done(false)
            }
        } else {
            self.graceful = self.graceful && went_through;
            self.cursor = self.cursor - 1;
            if self.cursor > 0 {
                let (j, k) = self.order[self.cursor - 1];
                WalkStep::Dispatch(j, k, false)
            } else {
                WalkStep::Done(self.graceful)
            }
        }
    }
}

/// What a run knows of one module of the change.
pub struct RunModule {
    pub qualifier: ModuleQualifier,
    pub motivation: ModuleMotivation,
    /// Whether the module has an old build whose jobs are reverted.
    pub has_old: bool,
    /// Whether the module has a new build whose jobs are applied.
    pub has_new: bool,
}

/// Where a run stands.
pub enum RunPhase {
    /// Waiting for the cache directory of the current module.
    Cache,
    /// Reverting the old jobs of the current module.
    Old,
    /// Applying the new jobs of the current module.
    New,
    /// Reverting the new jobs of an earlier module, which is no longer wanted.
    Cascade(usize),
    /// The run is over.
    Finished,
}

/// What the caller does next for a run.
pub enum RunAction {
    /// Provide the cache directory of a module.
    Prepare(usize),
    /// Revert the picked jobs of the module's old build.
    RevertOld(usize),
    /// Apply the picked jobs of the module's new build.
    ApplyNew(usize),
    /// Revert every job of the module's new build.
    RevertInstalled(usize),
    /// Nothing more: the results stand.
    Finish,
}

/// What came of the last action.
pub enum RunEvent {
    /// The cache directory is there.
    Ready,
    /// The cache directory could not be made.
    Unavailable,
    /// The walk over the jobs ended; whether it went through.
    Completed(bool),
    /// A fatal error stopped the walk.
    Fatal,
}

/// The state of a run over the modules of a change.
///
/// Each result is `Some(true)` when the module's change went through, `Some(false)` when it
/// failed or was skipped, and `None` when it was not tried.
pub struct ModuleRun {
    pub modules: Vec<RunModule>,
    pub results: Vec<Option<bool>>,
    pub failed: Vec<ModuleQualifier>,
    pub index: usize,
    pub phase: RunPhase,
}

/// The first module from `i` on that is still wanted, or the number of modules.
pub open spec fn next_wanted(ms: Seq<RunModule>, failed: Seq<ModuleQualifier>, i: int) -> int
    decreases ms.len() - i,
{
    if i >= ms.len() {
        ms.len() as int
    } else if !unwanted(ms[i].motivation, failed) {
        i
    } else {
        next_wanted(ms, failed, i + 1)
    }
}

/// The last module before `c` that is no longer wanted, or -1.
pub open spec fn prev_unwanted(ms: Seq<RunModule>, failed: Seq<ModuleQualifier>, c: int) -> int
    decreases c,
{
    if c <= 0 {
        -1
    } else if unwanted(ms[c - 1].motivation, failed) {
        c - 1
    } else {
        prev_unwanted(ms, failed, c - 1)
    }
}

/// The run moved on from module `i`: the modules no longer wanted are skipped and fail, and the
/// next wanted one is tried, or the run is over.
pub open spec fn after_forward(
    ms: Seq<RunModule>,
    failed: Seq<ModuleQualifier>,
    before: Seq<Option<bool>>,
    i: int,
    results: Seq<Option<bool>>,
    index: usize,
    phase: RunPhase,
    action: RunAction,
) -> bool {
    let j = next_wanted(ms, failed, i);
    &&& results == Seq::new(
        before.len(),
        |k: int|
            if i <= k < j {
                Some(false)
            } else if k == j {
                Some(true)
            } else {
                before[k]
            },
    )
    &&& if j < ms.len() {
        index == j && phase == RunPhase::Cache && action == RunAction::Prepare(j as usize)
    } else {
        phase == RunPhase::Finished && action == RunAction::Finish
    }
}

/// The run looks for the next earlier module (before `c`) that is no longer wanted: it fails and
/// its new jobs are reverted; when there is none, the run moves on from the current module.
pub open spec fn after_cascade(
    ms: Seq<RunModule>,
    failed: Seq<ModuleQualifier>,
    before: Seq<Option<bool>>,
    current: usize,
    c: int,
    results: Seq<Option<bool>>,
    index: usize,
    phase: RunPhase,
    action: RunAction,
) -> bool {
    let m = prev_unwanted(ms, failed, c);
    if m >= 0 {
        results == before.update(m, Some(false)) && index == current && phase == RunPhase::Cascade(m as usize)
            && action == RunAction::RevertInstalled(m as usize)
    } else {
        after_forward(ms, failed, before, current + 1, results, index, phase, action)
    }
}

/// The run is over with these results.
pub open spec fn finished(results: Seq<Option<bool>>, expected: Seq<Option<bool>>, phase: RunPhase, action: RunAction) -> bool {
    results == expected && phase == RunPhase::Finished && action == RunAction::Finish
}

proof fn lemma_next_wanted_skip(ms: Seq<RunModule>, failed: Seq<ModuleQualifier>, i: int)
    requires
        0 <= i < ms.len(),
        unwanted(ms[i].motivation, failed),
    ensures
        next_wanted(ms, failed, i) == next_wanted(ms, failed, i + 1),
{
}

proof fn lemma_next_wanted_bounds(ms: Seq<RunModule>, failed: Seq<ModuleQualifier>, i: int)
    requires
        0 <= i <= ms.len(),
    ensures
        i <= next_wanted(ms, failed, i) <= ms.len(),
        next_wanted(ms, failed, i) < ms.len() ==> !unwanted(ms[next_wanted(ms, failed, i)].motivation, failed),
    decreases ms.len() - i,
{
    if i < ms.len() && unwanted(ms[i].motivation, failed) {
        lemma_next_wanted_bounds(ms, failed, i + 1);
    }
}

proof fn lemma_prev_unwanted_bounds(ms: Seq<RunModule>, failed: Seq<ModuleQualifier>, c: int)
    requires
        0 <= c <= ms.len(),
    ensures
        -1 <= prev_unwanted(ms, failed, c) < c,
    decreases c,
{
    if c > 0 && !unwanted(ms[c - 1].motivation, failed) {
        lemma_prev_unwanted_bounds(ms, failed, c - 1);
    }
}

impl ModuleRun {
    /// Whether the state is one a run can be in.
    pub open spec fn well_formed(&self) -> bool {
        &&& self.results@.len() == self.modules@.len()
        &&& self.phase != RunPhase::Finished ==> self.index < self.modules@.len()
        &&& self.phase matches RunPhase::Cascade(c) ==> c < self.index
    }

    /// Starts a run over the modules of a change, in order; no result is known yet.
    pub fn start(modules: Vec<RunModule>) -> (r: (ModuleRun, RunAction))
        ensures
            r.0.modules@ == modules@,
            r.0.failed@.len() == 0,
            r.0.well_formed(),
            after_forward(
                modules@,
                Seq::empty(),
                Seq::new(modules@.len(), |k: int| None::<bool>),
                0,
                r.0.results@,
                r.0.index,
                r.0.phase,
                r.1,
            ),
    {
        let mut results: Vec<Option<bool>> = Vec::new();
        let mut k: usize = 0;
        while k < modules.len()
            invariant
                k <= modules@.len(),
                results@ == Seq::new(k as nat, |x: int| None::<bool>),
            decreases modules@.len() - k,
        {
            results.push(None);
            assert(results@ =~= Seq::new((k + 1) as nat, |x: int| None::<bool>));
            k = k + 1;
        }
        let mut run = ModuleRun { modules, results, failed: Vec::new(), index: 0, phase: RunPhase::Finished };
        assert(run.failed@ =~= Seq::<ModuleQualifier>::empty());
        let action = run.forward(0);
        (run, action)
    }

    /// Moves on from module `from`: skips the modules no longer wanted and starts the next one.
    fn forward(&mut self, from: usize) -> (a: RunAction)
        requires
            from <= old(self).modules@.len(),
            old(self).results@.len() == old(self).modules@.len(),
        ensures
            final(self).modules@ == old(self).modules@,
            final(self).failed@ == old(self).failed@,
            final(self).well_formed(),
            after_forward(
                old(self).modules@,
                old(self).failed@,
                old(self).results@,
                from as int,
                final(self).results@,
                final(self).index,
                final(self).phase,
                a,
            ),
    {
        let ghost ms = self.modules@;
        let ghost failed = self.failed@;
        let ghost before = self.results@;
        proof {
            lemma_next_wanted_bounds(ms, failed, from as int);
        }
        let mut j = from;
        while j < self.modules.len() && self.modules[j].motivation.no_longer_satisfied(&self.failed)
            invariant
                self.modules@ == ms,
                self.failed@ == failed,
                from <= j <= ms.len(),
                before.len() == ms.len(),
                next_wanted(ms, failed, from as int) == next_wanted(ms, failed, j as int),
                self.results@ == Seq::new(before.len(), |k: int| if from <= k < j { Some(false) } else { before[k] }),
            decreases ms.len() - j,
        {
            proof {
                lemma_next_wanted_skip(ms, failed, j as int);
            }
            self.results.set(j, Some(false));
            assert(self.results@ =~= Seq::new(before.len(), |k: int| if from <= k < j + 1 { Some(false) } else { before[k] }));
            j = j + 1;
        }
        proof {
            if j < ms.len() {
                assert(!unwanted(ms[j as int].motivation, failed));
            }
            assert(next_wanted(ms, failed, j as int) == j);
        }
        if j < self.modules.len() {
            self.results.set(j, Some(true));
            self.index = j;
            self.phase = RunPhase::Cache;
            assert(self.results@ =~= Seq::new(
                before.len(),
                |k: int|
                    if from <= k < j {
                        Some(false)
                    } else if k == j {
                        Some(true)
                    } else {
                        before[k]
                    },
            ));
            RunAction::Prepare(j)
        } else {
            self.phase = RunPhase::Finished;
            assert(self.results@ =~= Seq::new(
                before.len(),
                |k: int|
                    if from <= k < j {
                        Some(false)
                    } else if k == j {
                        Some(true)
                    } else {
                        before[k]
                    },
            ));
            RunAction::Finish
        }
    }

    /// Looks for the next earlier module before `c` that is no longer wanted.
    fn cascade(&mut self, c: usize) -> (a: RunAction)
        requires
            c <= old(self).index < old(self).modules@.len(),
            old(self).results@.len() == old(self).modules@.len(),
        ensures
            final(self).modules@ == old(self).modules@,
            final(self).failed@ == old(self).failed@,
            final(self).well_formed(),
            after_cascade(
                old(self).modules@,
                old(self).failed@,
                old(self).results@,
                old(self).index,
                c as int,
                final(self).results@,
                final(self).index,
                final(self).phase,
                a,
            ),
    {
        let ghost ms = self.modules@;
        let ghost failed = self.failed@;
        let mut m = c;
        while m > 0 && !self.modules[m - 1].motivation.no_longer_satisfied(&self.failed)
            invariant
                self.modules@ == ms,
                self.failed@ == failed,
                m <= c,
                c < ms.len(),
                prev_unwanted(ms, failed, c as int) == prev_unwanted(ms, failed, m as int),
            decreases m,
        {
            m = m - 1;
        }
        if m > 0 {
            self.results.set(m - 1, Some(false));
            self.phase = RunPhase::Cascade(m - 1);
            RunAction::RevertInstalled(m - 1)
        } else {
            let n = self.modules.len();
            let next = self.index + 1;
            self.forward(next)
        }
    }

    /// Takes what came of the last action and says what to do next.
    ///
    /// In the cache phase any event but `Ready` counts as `Unavailable`; in a walk phase any event
    /// but `Completed` counts as `Fatal`.
    pub fn advance(&mut self, event: RunEvent) -> (a: RunAction)
        requires
            old(self).well_formed(),
        ensures
            final(self).modules@ == old(self).modules@,
            final(self).well_formed(),
            ({
                let ms = old(self).modules@;
                let failed = old(self).failed@;
                let results = old(self).results@;
                let i = old(self).index;
                match (old(self).phase, event) {
                    (RunPhase::Cache, RunEvent::Ready) => final(self).failed@ == failed && if ms[i as int].has_old {
                        final(self).results@ == results && final(self).index == i && final(self).phase == RunPhase::Old
                            && a == RunAction::RevertOld(i)
                    } else if ms[i as int].has_new {
                        final(self).results@ == results && final(self).index == i && final(self).phase == RunPhase::New
                            && a == RunAction::ApplyNew(i)
                    } else {
                        after_forward(ms, failed, results, i + 1, final(self).results@, final(self).index, final(self).phase, a)
                    },
                    (RunPhase::Cache, _) => final(self).failed@ == failed && finished(
                        final(self).results@,
                        results.update(i as int, None),
                        final(self).phase,
                        a,
                    ),
                    (RunPhase::Old, RunEvent::Completed(_)) => final(self).failed@ == failed && if ms[i as int].has_new {
                        final(self).results@ == results && final(self).index == i && final(self).phase == RunPhase::New
                            && a == RunAction::ApplyNew(i)
                    } else {
                        after_forward(ms, failed, results, i + 1, final(self).results@, final(self).index, final(self).phase, a)
                    },
                    (RunPhase::Old, _) => final(self).failed@ == failed && finished(
                        final(self).results@,
                        results.update(i as int, Some(false)),
                        final(self).phase,
                        a,
                    ),
                    (RunPhase::New, RunEvent::Completed(true)) => final(self).failed@ == failed && after_forward(
                        ms,
                        failed,
                        results,
                        i + 1,
                        final(self).results@,
                        final(self).index,
                        final(self).phase,
                        a,
                    ),
                    (RunPhase::New, RunEvent::Completed(false)) => {
                        &&& final(self).failed@.len() == failed.len() + 1
                        &&& final(self).failed@.drop_last() == failed
                        &&& same_module(final(self).failed@.last(), ms[i as int].qualifier)
                        &&& after_cascade(
                            ms,
                            final(self).failed@,
                            results.update(i as int, Some(false)),
                            i,
                            i as int,
                            final(self).results@,
                            final(self).index,
                            final(self).phase,
                            a,
                        )
                    },
                    (RunPhase::New, _) => final(self).failed@ == failed && finished(
                        final(self).results@,
                        results.update(i as int, Some(false)),
                        final(self).phase,
                        a,
                    ),
                    (RunPhase::Cascade(m), RunEvent::Completed(_)) => final(self).failed@ == failed && after_cascade(
                        ms,
                        failed,
                        results,
                        i,
                        m as int,
                        final(self).results@,
                        final(self).index,
                        final(self).phase,
                        a,
                    ),
                    (RunPhase::Cascade(_), _) => final(self).failed@ == failed && finished(
                        final(self).results@,
                        results,
                        final(self).phase,
                        a,
                    ),
                    (RunPhase::Finished, _) => final(self).failed@ == failed && finished(
                        final(self).results@,
                        results,
                        final(self).phase,
                        a,
                    ),
                }
            }),
    {
        let i = self.index;
        let n = self.modules.len();
        match (&self.phase, event) {
            (RunPhase::Cache, RunEvent::Ready) => {
                if self.modules[i].has_old {
                    self.phase = RunPhase::Old;
                    RunAction::RevertOld(i)
                } else if self.modules[i].has_new {
                    self.phase = RunPhase::New;
                    RunAction::ApplyNew(i)
                } else {
                    self.forward(i + 1)
                }
            },
            (RunPhase::Cache, _) => {
                self.results.set(i, None);
                self.phase = RunPhase::Finished;
                RunAction::Finish
            },
            (RunPhase::Old, RunEvent::Completed(_)) => {
                if self.modules[i].has_new {
                    self.phase = RunPhase::New;
                    RunAction::ApplyNew(i)
                } else {
                    self.forward(i + 1)
                }
            },
            (RunPhase::New, RunEvent::Completed(true)) => self.forward(i + 1),
            (RunPhase::New, RunEvent::Completed(false)) => {
                self.results.set(i, Some(false));
                let failed = self.modules[i].qualifier.copy();
                self.failed.push(failed);
                proof {
                    assert(self.failed@.drop_last() =~= old(self).failed@);
                }
                self.cascade(i)
            },
            (RunPhase::Old, _) | (RunPhase::New, _) => {
                self.results.set(i, Some(false));
                self.phase = RunPhase::Finished;
                RunAction::Finish
            },
            (RunPhase::Cascade(m), RunEvent::Completed(_)) => {
                let m = *m;
                self.cascade(m)
            },
            (RunPhase::Cascade(_), _) | (RunPhase::Finished, _) => {
                self.phase = RunPhase::Finished;
                RunAction::Finish
            },
        }
    }
}

/// Whether a job of the scheduled changes runs as root, so that a root worker is needed.
pub fn needs_root_worker(changes: &Vec<ScheduledChange>) -> (r: bool)
    ensures
        r == exists|i: int| 0 <= i < changes@.len() && instructions_need_root(#[trigger] changes@[i].instructions),
{
    let mut i: usize = 0;
    while i < changes.len()
        invariant
            i <= changes@.len(),
            forall|k: int| 0 <= k < i ==> !instructions_need_root(#[trigger] changes@[k].instructions),
        decreases changes@.len() - i,
    {
        if changes[i].instructions.needs_root() {
            return true;
        }
        i = i + 1;
    }
    false
}

proof fn lemma_next_wanted_skipped(ms: Seq<RunModule>, failed: Seq<ModuleQualifier>, i: int, k: int)
    requires
        0 <= i <= k < next_wanted(ms, failed, i),
        next_wanted(ms, failed, i) <= ms.len(),
    ensures
        unwanted(ms[k].motivation, failed),
    decreases k - i,
{
    if i < ms.len() && unwanted(ms[i].motivation, failed) && i < k {
        lemma_next_wanted_skipped(ms, failed, i + 1, k);
    }
}

/// A run never starts a module that is no longer wanted: when it moves on from a module, the
/// module it prepares next is wanted, and each module it passes over is no longer wanted and
/// fails.
pub proof fn law_run_skips_unwanted(
    ms: Seq<RunModule>,
    failed: Seq<ModuleQualifier>,
    before: Seq<Option<bool>>,
    i: int,
    results: Seq<Option<bool>>,
    index: usize,
    phase: RunPhase,
    action: RunAction,
)
    requires
        0 <= i <= ms.len(),
        before.len() == ms.len(),
        after_forward(ms, failed, before, i, results, index, phase, action),
    ensures
        action matches RunAction::Prepare(j) ==> !unwanted(ms[j as int].motivation, failed),
        forall|k: int| i <= k < next_wanted(ms, failed, i) ==> #[trigger] unwanted(ms[k].motivation, failed),
        forall|k: int| i <= k < next_wanted(ms, failed, i) ==> #[trigger] results[k] == Some(false),
{
    lemma_next_wanted_bounds(ms, failed, i);
    assert forall|k: int| i <= k < next_wanted(ms, failed, i) implies #[trigger] unwanted(ms[k].motivation, failed) by {
        lemma_next_wanted_skipped(ms, failed, i, k);
    }
    assert forall|k: int| i <= k < next_wanted(ms, failed, i) implies #[trigger] results[k] == Some(false) by {
        assert(results[k] == Some(false));
    }
}

} // verus!
