//! Why restores fail.

use vstd::prelude::*;

use super::files::lemma_refused_takes_no_reply;
use super::outcome::stuck;
use super::progress::{in_order, lemma_in_order_run};
use super::run::{answers, run};
use crate::deserialization::{
    unresolved_error, PathLookupView, RootNode, StepView, TargetView,
};
use crate::error::ErrorView;
use crate::file_handle::SerializableFileHandle;
use crate::passthrough::{FsView, HandleDataFileView, InodeView};
use crate::restore::{
    lemma_next_ready, next_ready, LookupView, PhaseView, ReplyView, RestoreView,
};
use crate::serialized::{Inode, PassthroughFsV1};

verus! {

/// The step is one of those that restore the inode in `fs`.
pub open spec fn step_of<F, H>(inode: Inode, fs: FsView<F, H>, step: StepView<F, H>) -> bool {
    ||| step == inode.first_step(fs)
    ||| exists|opened: Result<RootNode<F, H>, ErrorView>|
        step == #[trigger] inode.root_added(fs, opened)
    ||| exists|named: Result<SerializableFileHandle, ErrorView>|
        step == #[trigger] inode.root_checked(fs, Some(named))
    ||| exists|target: TargetView, lookup: PathLookupView<F, H>|
        step == #[trigger] inode.looked_up(fs, target, lookup)
    ||| exists|
        target: TargetView,
        data: InodeView<F, H>,
        named: Result<SerializableFileHandle, ErrorView>,
    | step == #[trigger] inode.checked(fs, target, data, Some(named))
}

/// A step of the current inode has failed, and has left the file system as it is.
pub open spec fn inode_failed<F, H>(state: RestoreView<F, H>, error: ErrorView) -> bool {
    &&& 0 <= state.position < state.inodes.len()
    &&& exists|fs: FsView<F, H>| #[trigger]
        step_of(state.inode(), fs, StepView { fs: state.fs, result: Err(error) })
}

/// All inodes are done, and the current open file has failed: its inode is not there, or could not
/// be opened.
pub open spec fn file_failed<F, H>(state: RestoreView<F, H>, error: ErrorView) -> bool {
    &&& state.inodes.len() == 0
    &&& 0 <= state.handles_done < state.handles.len()
    &&& {
        ||| state.handle().first_step(state.fs).result == Err::<
            crate::deserialization::HandleProgress,
            ErrorView,
        >(error)
        ||| exists|path: Option<Seq<char>>, cause: ErrorView|
            (#[trigger] state.handle().open_failed(state.fs, path, cause)).result == Err::<
                crate::deserialization::HandleProgress,
                ErrorView,
            >(error)
    }
}

/// Inodes are left, and each of them waits for another one.
pub open spec fn all_wait<F, H>(state: RestoreView<F, H>) -> bool {
    &&& stuck(state)
    &&& forall|j: int|
        0 <= j < state.inodes.len() ==> (#[trigger] state.inodes[j]).blocked(state.fs.inodes)
}

/// A failure has its reason, and the open files come after the inodes.
spec fn reasoned<F, H>(state: RestoreView<F, H>) -> bool {
    match state.phase {
        PhaseView::Finished(Err(error)) => {
            ||| error == unresolved_error() && all_wait(state)
            ||| inode_failed(state, error)
            ||| file_failed(state, error)
        },
        PhaseView::OpenFile | PhaseView::HandlePath(_) => state.inodes.len() == 0,
        _ => true,
    }
}

proof fn lemma_reasoned_resume_handles<F, H>(state: RestoreView<F, H>)
    requires
        state.phase is Scan,
        state.inodes.len() == 0,
        0 <= state.handles_done <= state.handles.len(),
    ensures
        reasoned(state.resume_handles()),
    decreases state.handles.len() - state.handles_done,
{
    if state.handles_done < state.handles.len() {
        let next = state.handle_after(state.handle().first_step(state.fs));
        if next.phase is Scan {
            lemma_reasoned_resume_handles(next);
        }
    }
}

proof fn lemma_reasoned_resume<F, H>(state: RestoreView<F, H>)
    requires
        state.phase is Scan,
        0 <= state.position <= state.inodes.len(),
    ensures
        reasoned(state.resume()),
    decreases state.inodes.len(),
{
    reveal_with_fuel(RestoreView::resume, 1);
    if state.inodes.len() == 0 {
        lemma_reasoned_resume_handles(state.with_inodes_done());
    } else {
        let position = next_ready(state.inodes, state.fs.inodes, state.position);
        lemma_next_ready(state.inodes, state.fs.inodes, state.position);
        if position < state.inodes.len() {
            let taken = RestoreView { position, ..state };
            let step = taken.inode().first_step(taken.fs);
            lemma_reasoned_after(taken, taken.fs, step);
            let next = taken.after(step);
            if next.phase is Scan && next.inodes.len() < state.inodes.len() {
                lemma_reasoned_resume(next);
            }
        }
    }
}

/// A step of the current inode.
proof fn lemma_reasoned_after<F, H>(
    state: RestoreView<F, H>,
    fs: FsView<F, H>,
    step: StepView<F, H>,
)
    requires
        0 <= state.position < state.inodes.len(),
        step_of(state.inode(), fs, step),
    ensures
        reasoned(state.after(step)),
{
    if let Err(error) = step.result {
        assert(step == StepView { fs: step.fs, result: Err(error) });
        assert(step_of(state.inode(), fs, StepView { fs: step.fs, result: Err(error) }));
    }
}

proof fn lemma_reasoned_resumed<F, H>(state: RestoreView<F, H>, step: StepView<F, H>)
    requires
        0 <= state.position < state.inodes.len(),
        step_of(state.inode(), state.fs, step),
    ensures
        reasoned(state.after(step).resumed()),
{
    lemma_reasoned_after(state, state.fs, step);
    let next = state.after(step);
    if next.phase is Scan {
        lemma_reasoned_resume(next);
    }
}

proof fn lemma_reasoned_step<F, H>(state: RestoreView<F, H>, reply: ReplyView<F, H>)
    requires
        in_order(state),
        state.expects(reply),
        reasoned(state),
    ensures
        reasoned(state.step(reply)),
{
    let n = state.inode();
    match (state.phase, reply) {
        (PhaseView::Root, ReplyView::Root(opened)) => {
            lemma_reasoned_resumed(state, n.root_added(state.fs, opened));
        },
        (PhaseView::RootIdentity, ReplyView::Identity(named)) => {
            lemma_reasoned_resumed(state, n.root_checked(state.fs, Some(named)));
        },
        (PhaseView::Identity(target, data), ReplyView::Identity(named)) => {
            lemma_reasoned_resumed(state, n.checked(state.fs, target, data, Some(named)));
        },
        (PhaseView::OpenFile, ReplyView::File(Ok(file))) => {
            let step = state.handle().handle_added(state.fs, HandleDataFileView::File(file));
            lemma_reasoned_resume_handles(state.handle_after(step));
        },
        (PhaseView::OpenFile, ReplyView::File(Err(_))) => {},
        (PhaseView::HandlePath(error), ReplyView::Path(path)) => {
            let next = state.handle_after(state.handle().open_failed(state.fs, path, error));
            if next.phase is Scan {
                lemma_reasoned_resume_handles(next);
            }
        },
        (phase, reply) => {
            if let LookupView::Ended(target, lookup) = phase.answered(reply) {
                lemma_reasoned_resumed(state, n.looked_up(state.fs, target, lookup));
            }
        },
    }
}

proof fn lemma_reasoned_run<F, H>(
    plan: PassthroughFsV1,
    fs: FsView<F, H>,
    replies: Seq<ReplyView<F, H>>,
)
    requires
        plan.negotiated_opts.refusal(fs) is None,
        answers(plan.started(fs), replies),
    ensures
        reasoned(run(plan.started(fs), replies)),
    decreases replies.len(),
{
    if replies.len() == 0 {
        lemma_reasoned_resume(plan.planned(plan.prepared(fs)));
    } else {
        lemma_reasoned_run(plan, fs, replies.drop_last());
        lemma_in_order_run(plan, fs, replies.drop_last());
        lemma_reasoned_step(run(plan.started(fs), replies.drop_last()), replies.last());
    }
}

/// A restore fails because its options are refused, or because a step of an inode fails, or because
/// inodes are left that all wait for others, or because of an open file; and it fails with the very
/// error of that.
pub proof fn law_why_restores_fail<F, H>(
    plan: PassthroughFsV1,
    fs: FsView<F, H>,
    replies: Seq<ReplyView<F, H>>,
    error: ErrorView,
)
    requires
        answers(plan.started(fs), replies),
        run(plan.started(fs), replies).phase == PhaseView::<F, H>::Finished(Err(error)),
    ensures
        ({
            let state = run(plan.started(fs), replies);
            match plan.negotiated_opts.refusal(fs) {
                Some(refusal) => error == refusal && replies.len() == 0,
                None => {
                    ||| error == unresolved_error() && all_wait(state)
                    ||| inode_failed(state, error)
                    ||| file_failed(state, error)
                },
            }
        }),
{
    if plan.negotiated_opts.refusal(fs) is None {
        lemma_reasoned_run(plan, fs, replies);
    } else {
        lemma_refused_takes_no_reply(plan, fs, replies);
    }
}

} // verus!
