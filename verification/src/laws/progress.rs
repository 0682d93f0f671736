//! Restores end, and they do not pass over what they cannot get at.

use vstd::prelude::*;

use super::effects::{
    lemma_checked, lemma_first_step, lemma_looked_up, lemma_root_added, lookup_ended,
    lookup_started,
};
use super::failure::{all_wait, inode_failed, law_why_restores_fail};
use super::run::{answers, phase_fits, run};
use crate::deserialization::{unresolved_error, ProgressView, StepView};
use crate::passthrough::{FsView, HandleDataFileView, ROOT_ID};
use crate::restore::{
    lemma_deferred_means_blocked, lemma_next_ready, lemma_started_valid, lemma_step_valid,
    next_ready, swap_removed, LookupView, PhaseView, ReplyView, RestoreView,
};
use crate::serialized::{Inode, InodeLocation, PassthroughFsV1};

verus! {

impl<F, H> RestoreView<F, H> {
    /// How many replies the current object can still take.
    pub open spec fn current_budget(self) -> int {
        match self.phase {
            PhaseView::Open(_) => 5,
            PhaseView::Stat(_, _) => 4,
            PhaseView::FileHandle(_, _, _) => 3,
            PhaseView::Openable(_, _, _) | PhaseView::Root | PhaseView::OpenFile => 2,
            PhaseView::RootIdentity | PhaseView::Identity(_, _) | PhaseView::HandlePath(_) => 1,
            _ => 0,
        }
    }

    /// How many replies the restore can still take.
    pub open spec fn budget(self) -> int {
        if self.phase is Finished {
            0
        } else {
            self.current_budget() + 5 * (self.inodes.len() - if self.on_inode() {
                1int
            } else {
                0
            }) + 2 * (self.handles.len() - self.handles_done - if self.on_handle() {
                1int
            } else {
                0
            })
        }
    }
}

proof fn lemma_budget_resume_handles<F, H>(state: RestoreView<F, H>)
    requires
        state.phase is Scan,
        0 <= state.handles_done <= state.handles.len(),
    ensures
        0 <= state.resume_handles().budget() <= state.budget(),
    decreases state.handles.len() - state.handles_done,
{
    if state.handles_done < state.handles.len() {
        let next = state.handle_after(state.handle().first_step(state.fs));
        if next.phase is Scan {
            lemma_budget_resume_handles(next);
        }
    }
}

proof fn lemma_budget_resume<F, H>(state: RestoreView<F, H>)
    requires
        state.phase is Scan,
        0 <= state.position <= state.inodes.len(),
        state.handles_done == 0,
    ensures
        0 <= state.resume().budget() <= state.budget(),
    decreases state.inodes.len(),
{
    reveal_with_fuel(RestoreView::resume, 1);
    if state.inodes.len() == 0 {
        lemma_budget_resume_handles(state.with_inodes_done());
    } else {
        let position = next_ready(state.inodes, state.fs.inodes, state.position);
        lemma_next_ready(state.inodes, state.fs.inodes, state.position);
        if position < state.inodes.len() {
            let taken = RestoreView { position, ..state };
            let next = taken.after(taken.inode().first_step(taken.fs));
            lemma_deferred_means_blocked(taken.inode(), taken.fs);
            lemma_first_step(taken.inode(), taken.fs);
            if next.phase is Scan {
                lemma_budget_resume(next);
            }
        }
    }
}

/// A step for the current inode after the first one either settles it, or comes to the last
/// question about it.
proof fn lemma_budget_after<F, H>(state: RestoreView<F, H>, step: StepView<F, H>)
    requires
        state.on_inode(),
        state.position < state.inodes.len(),
        0 <= state.position,
        state.handles_done == 0,
        match step.result {
            Err(_) | Ok(ProgressView::Restored) => true,
            Ok(ProgressView::Identify(_, _)) | Ok(ProgressView::IdentifyRoot) => {
                state.current_budget() > 1
            },
            Ok(_) => false,
        },
    ensures
        0 <= state.after(step).resumed().budget() < state.budget(),
{
    let next = state.after(step);
    if next.phase is Scan {
        lemma_budget_resume(next);
    }
}

/// The restore has not come to the open files while it is on an inode, and what it waits for fits
/// that inode.
pub open spec fn in_order<F, H>(state: RestoreView<F, H>) -> bool {
    &&& state.valid()
    &&& !(state.phase is Scan)
    &&& state.on_inode() ==> state.handles_done == 0
    &&& phase_fits(state)
}

proof fn lemma_in_order_resume_handles<F, H>(state: RestoreView<F, H>)
    requires
        state.phase is Scan,
        0 <= state.handles_done <= state.handles.len(),
    ensures
        !state.resume_handles().on_inode(),
        phase_fits(state.resume_handles()),
    decreases state.handles.len() - state.handles_done,
{
    if state.handles_done < state.handles.len() {
        let next = state.handle_after(state.handle().first_step(state.fs));
        if next.phase is Scan {
            lemma_in_order_resume_handles(next);
        }
    }
}

proof fn lemma_in_order_resume<F, H>(state: RestoreView<F, H>)
    requires
        state.phase is Scan,
        0 <= state.position <= state.inodes.len(),
        state.handles_done == 0,
    ensures
        state.resume().on_inode() ==> state.resume().handles_done == 0,
        phase_fits(state.resume()),
    decreases state.inodes.len(),
{
    reveal_with_fuel(RestoreView::resume, 1);
    if state.inodes.len() == 0 {
        lemma_in_order_resume_handles(state.with_inodes_done());
    } else {
        let position = next_ready(state.inodes, state.fs.inodes, state.position);
        lemma_next_ready(state.inodes, state.fs.inodes, state.position);
        if position < state.inodes.len() {
            let taken = RestoreView { position, ..state };
            let n = taken.inode();
            let next = taken.after(n.first_step(taken.fs));
            lemma_first_step(n, taken.fs);
            assert(n.has_path() ==> n.target(taken.fs) == n.target(lookup_started(n, taken.fs)));
            if next.phase is Scan {
                lemma_in_order_resume(next);
            }
        }
    }
}

/// A step that answers a request uses up some of the budget, and keeps order.
pub(super) proof fn lemma_in_order_step<F, H>(state: RestoreView<F, H>, reply: ReplyView<F, H>)
    requires
        in_order(state),
        state.expects(reply),
    ensures
        in_order(state.step(reply)),
        0 <= state.step(reply).budget() < state.budget(),
{
    let n = state.inode();
    lemma_step_valid(state, reply);
    match (state.phase, reply) {
        (PhaseView::Root, ReplyView::Root(opened)) => {
            let step = n.root_added(state.fs, opened);
            lemma_root_added(n, state.fs, opened);
            lemma_budget_after(state, step);
            lemma_in_order_after(state, step);
        },
        (PhaseView::RootIdentity, ReplyView::Identity(named)) => {
            let step = n.root_checked(state.fs, Some(named));
            lemma_budget_after(state, step);
            lemma_in_order_after(state, step);
        },
        (PhaseView::Identity(target, data), ReplyView::Identity(named)) => {
            let step = n.checked(state.fs, target, data, Some(named));
            lemma_checked(n, state.fs, data, Some(named));
            lemma_budget_after(state, step);
            lemma_in_order_after(state, step);
        },
        (PhaseView::OpenFile, ReplyView::File(Ok(file))) => {
            let next = state.handle_after(
                state.handle().handle_added(state.fs, HandleDataFileView::File(file)),
            );
            lemma_budget_resume_handles(next);
            lemma_in_order_resume_handles(next);
        },
        (PhaseView::OpenFile, ReplyView::File(Err(_))) => {},
        (PhaseView::HandlePath(error), ReplyView::Path(path)) => {
            let next = state.handle_after(state.handle().open_failed(state.fs, path, error));
            if next.phase is Scan {
                lemma_budget_resume_handles(next);
                lemma_in_order_resume_handles(next);
            }
        },
        (phase, reply) => {
            if let LookupView::Ended(target, lookup) = phase.answered(reply) {
                let step = n.looked_up(state.fs, target, lookup);
                lemma_looked_up(n, state.fs, lookup);
                assert(n.target(lookup_ended(n, state.fs)) == n.target(state.fs));
                lemma_budget_after(state, step);
                lemma_in_order_after(state, step);
            }
        },
    }
}

proof fn lemma_in_order_after<F, H>(state: RestoreView<F, H>, step: StepView<F, H>)
    requires
        state.on_inode(),
        0 <= state.position < state.inodes.len(),
        state.handles_done == 0,
        match step.result {
            Err(_) | Ok(ProgressView::Restored) => true,
            Ok(ProgressView::Identify(target, data)) => {
                &&& state.inode().location is Path
                &&& target == state.inode().target(step.fs)
                &&& state.inode().fits(data)
            },
            Ok(ProgressView::IdentifyRoot) => state.inode().location is RootNode
                && state.inode().id == ROOT_ID,
            Ok(_) => false,
        },
    ensures
        state.after(step).resumed().on_inode() ==> state.after(step).resumed().handles_done == 0,
        phase_fits(state.after(step).resumed()),
{
    let next = state.after(step);
    if next.phase is Scan {
        lemma_in_order_resume(next);
    }
}

pub(super) proof fn lemma_in_order_started<F, H>(plan: PassthroughFsV1, fs: FsView<F, H>)
    ensures
        in_order(plan.started(fs)),
        0 <= plan.started(fs).budget() <= 5 * plan.inodes@.len() + 2 * plan.handles@.len(),
{
    lemma_started_valid(plan, fs);
    let state = plan.planned(plan.prepared(fs));
    lemma_in_order_resume(state);
    lemma_budget_resume(state);
}

/// Every point of a restore is in order.
pub proof fn lemma_in_order_run<F, H>(
    plan: PassthroughFsV1,
    fs: FsView<F, H>,
    replies: Seq<ReplyView<F, H>>,
)
    requires
        answers(plan.started(fs), replies),
    ensures
        in_order(run(plan.started(fs), replies)),
        0 <= run(plan.started(fs), replies).budget() <= plan.started(fs).budget() - replies.len(),
    decreases replies.len(),
{
    lemma_in_order_started(plan, fs);
    if replies.len() > 0 {
        lemma_in_order_run(plan, fs, replies.drop_last());
        lemma_in_order_step(run(plan.started(fs), replies.drop_last()), replies.last());
    }
}

/// A restore ends: it takes at most five replies for each inode and two for each open file, and
/// while it has not ended there is a request.
pub proof fn law_restore_ends<F, H>(
    plan: PassthroughFsV1,
    fs: FsView<F, H>,
    replies: Seq<ReplyView<F, H>>,
)
    requires
        answers(plan.started(fs), replies),
    ensures
        replies.len() <= 5 * plan.inodes@.len() + 2 * plan.handles@.len(),
        run(plan.started(fs), replies).phase is Finished || run(
            plan.started(fs),
            replies,
        ).request() is Some,
{
    lemma_in_order_started(plan, fs);
    lemma_in_order_run(plan, fs, replies);
}

/// The inodes with these numbers can never be got at: each of them is found through one of these
/// numbers. They may depend on one another in a loop, or on numbers that no inode has; among those
/// is the root's, if there is no root.
pub open spec fn unreachable(inodes: Seq<Inode>, ids: Set<u64>) -> bool {
    forall|i: int|
        0 <= i < inodes.len() && ids.contains((#[trigger] inodes[i]).id) ==> {
            &&& inodes[i].id != ROOT_ID
            &&& match inodes[i].location {
                InodeLocation::Path { parent, .. } => ids.contains(parent),
                InodeLocation::FullPath { .. } => ids.contains(ROOT_ID),
                _ => false,
            }
        }
}

/// None of the inodes that cannot be got at has been restored.
spec fn outside<F, H>(all: Seq<Inode>, ids: Set<u64>, state: RestoreView<F, H>) -> bool {
    &&& forall|id: u64| #[trigger] state.fs.inodes.contains_key(id) ==> !ids.contains(id)
    &&& forall|n: Inode| #[trigger]
        all.contains(n) && ids.contains(n.id) ==> state.inodes.contains(n)
    &&& forall|n: Inode| #[trigger] state.inodes.contains(n) ==> all.contains(n)
    &&& state.on_inode() ==> !ids.contains(state.inode().id)
    &&& !state.on_handle()
    &&& state.phase != PhaseView::<F, H>::Finished(Ok(()))
}

/// The inodes that cannot be got at have not been restored, or the restore has failed with inodes
/// left.
spec fn left_out<F, H>(all: Seq<Inode>, ids: Set<u64>, state: RestoreView<F, H>) -> bool {
    ||| (state.phase matches PhaseView::Finished(Err(_))) && state.inodes.len() > 0
    ||| outside(all, ids, state)
}

/// What is left of the inodes when one is taken out.
pub(super) proof fn lemma_rest(inodes: Seq<Inode>, i: int)
    requires
        0 <= i < inodes.len(),
    ensures
        forall|n: Inode| #[trigger]
            inodes.contains(n) && n != inodes[i] ==> swap_removed(inodes, i).contains(n),
        forall|n: Inode| #[trigger] swap_removed(inodes, i).contains(n) ==> inodes.contains(n),
{
    let rest = swap_removed(inodes, i);
    assert forall|n: Inode| #[trigger] inodes.contains(n) && n != inodes[i] implies rest.contains(
        n,
    ) by {
        let j = choose|j: int| 0 <= j < inodes.len() && inodes[j] == n;
        if j == inodes.len() - 1 {
            assert(rest[i] == n);
        } else {
            assert(rest[j] == n);
        }
    }
    assert forall|n: Inode| #[trigger] rest.contains(n) implies inodes.contains(n) by {
        let j = choose|j: int| 0 <= j < rest.len() && rest[j] == n;
        assert(rest[j] == inodes[j] || rest[j] == inodes.last());
    }
}

/// A step for an inode that can be got at.
proof fn lemma_outside_after<F, H>(
    all: Seq<Inode>,
    ids: Set<u64>,
    state: RestoreView<F, H>,
    step: StepView<F, H>,
)
    requires
        unreachable(all, ids),
        exists|i: int| 0 <= i < all.len() && ids.contains((#[trigger] all[i]).id),
        outside(all, ids, RestoreView { phase: PhaseView::Scan, ..state }),
        0 <= state.position < state.inodes.len(),
        !ids.contains(state.inode().id),
        step.result is Ok ==> forall|id: u64| #[trigger]
            step.fs.inodes.contains_key(id) ==> state.fs.inodes.contains_key(id) || id
                == state.inode().id,
    ensures
        step.result is Ok ==> outside(all, ids, state.after(step)),
{
    lemma_rest(state.inodes, state.position);
    if step.result is Ok {
        let next = state.after(step);
        assert forall|n: Inode| #[trigger] all.contains(n) && ids.contains(n.id) implies next.inodes.contains(
            n,
        ) by {
            assert(state.inodes.contains(n));
        }
    }
}

proof fn lemma_outside_resume<F, H>(all: Seq<Inode>, ids: Set<u64>, state: RestoreView<F, H>)
    requires
        unreachable(all, ids),
        exists|i: int| 0 <= i < all.len() && ids.contains((#[trigger] all[i]).id),
        state.phase is Scan,
        0 <= state.position <= state.inodes.len(),
        outside(all, ids, state),
    ensures
        left_out(all, ids, state.resume()),
    decreases state.inodes.len(),
{
    reveal_with_fuel(RestoreView::resume, 1);
    let k = choose|k: int| 0 <= k < all.len() && ids.contains((#[trigger] all[k]).id);
    assert(all.contains(all[k]));
    assert(state.inodes.contains(all[k]));
    let position = next_ready(state.inodes, state.fs.inodes, state.position);
    lemma_next_ready(state.inodes, state.fs.inodes, state.position);
    if position < state.inodes.len() {
        let taken = RestoreView { position, ..state };
        let n = taken.inode();
        let step = n.first_step(taken.fs);
        lemma_first_step(n, taken.fs);
        assert(state.inodes.contains(n));
        let j = choose|j: int| 0 <= j < all.len() && all[j] == n;
        assert(!ids.contains(all[j].id));
        lemma_outside_after(all, ids, taken, step);
        let next = taken.after(step);
        if next.phase is Scan {
            lemma_outside_resume(all, ids, next);
        }
    }
}

proof fn lemma_outside_step<F, H>(
    all: Seq<Inode>,
    ids: Set<u64>,
    state: RestoreView<F, H>,
    reply: ReplyView<F, H>,
)
    requires
        unreachable(all, ids),
        exists|i: int| 0 <= i < all.len() && ids.contains((#[trigger] all[i]).id),
        in_order(state),
        outside(all, ids, state),
        state.expects(reply),
    ensures
        left_out(all, ids, state.step(reply)),
{
    let n = state.inode();
    let step = match (state.phase, reply) {
        (PhaseView::Root, ReplyView::Root(opened)) => {
            lemma_root_added(n, state.fs, opened);
            Some(n.root_added(state.fs, opened))
        },
        (PhaseView::RootIdentity, ReplyView::Identity(named)) => Some(
            n.root_checked(state.fs, Some(named)),
        ),
        (PhaseView::Identity(target, data), ReplyView::Identity(named)) => {
            lemma_checked(n, state.fs, data, Some(named));
            Some(n.checked(state.fs, target, data, Some(named)))
        },
        (phase, reply) => match phase.answered(reply) {
            LookupView::Ended(target, lookup) => {
                lemma_looked_up(n, state.fs, lookup);
                Some(n.looked_up(state.fs, target, lookup))
            },
            LookupView::Waiting(_) => None,
        },
    };
    if let Some(step) = step {
        lemma_outside_after(all, ids, state, step);
        let next = state.after(step);
        if next.phase is Scan {
            lemma_outside_resume(all, ids, next);
        }
    }
}

/// A restore does not succeed if there are inodes that can never be got at. If the options are not
/// refused and no step of an inode fails, it fails because inodes are left that all wait for others,
/// and says so.
pub proof fn law_unreachable_inodes_are_refused<F, H>(
    plan: PassthroughFsV1,
    ids: Set<u64>,
    fs: FsView<F, H>,
    replies: Seq<ReplyView<F, H>>,
)
    requires
        unreachable(plan.inodes@, ids),
        exists|i: int| 0 <= i < plan.inodes@.len() && ids.contains((#[trigger] plan.inodes@[i]).id),
        answers(plan.started(fs), replies),
    ensures
        ({
            let state = run(plan.started(fs), replies);
            &&& state.phase != PhaseView::<F, H>::Finished(Ok(()))
            &&& state.phase matches PhaseView::Finished(Err(error)) ==> {
                ||| plan.negotiated_opts.refusal(fs) == Some(error)
                ||| inode_failed(state, error)
                ||| error == unresolved_error() && all_wait(state)
            }
        }),
{
    let state = run(plan.started(fs), replies);
    lemma_outside_run(plan, ids, fs, replies);
    if let PhaseView::Finished(Err(error)) = state.phase {
        law_why_restores_fail(plan, fs, replies, error);
        if outside(plan.inodes@, ids, state) {
            let i = choose|i: int|
                0 <= i < plan.inodes@.len() && ids.contains((#[trigger] plan.inodes@[i]).id);
            assert(plan.inodes@.contains(plan.inodes@[i]));
            assert(state.inodes.contains(plan.inodes@[i]));
        }
    }
}

proof fn lemma_outside_run<F, H>(
    plan: PassthroughFsV1,
    ids: Set<u64>,
    fs: FsView<F, H>,
    replies: Seq<ReplyView<F, H>>,
)
    requires
        unreachable(plan.inodes@, ids),
        exists|i: int| 0 <= i < plan.inodes@.len() && ids.contains((#[trigger] plan.inodes@[i]).id),
        answers(plan.started(fs), replies),
    ensures
        left_out(plan.inodes@, ids, run(plan.started(fs), replies)),
    decreases replies.len(),
{
    if replies.len() == 0 {
        if plan.negotiated_opts.refusal(fs) is None {
            lemma_outside_resume(
                plan.inodes@,
                ids,
                plan.planned(plan.prepared(fs)),
            );
        }
    } else {
        let state = run(plan.started(fs), replies.drop_last());
        lemma_outside_run(plan, ids, fs, replies.drop_last());
        lemma_in_order_run(plan, fs, replies.drop_last());
        assert(state.expects(replies.last()));
        lemma_outside_step(plan.inodes@, ids, state, replies.last());
    }
}

} // verus!
