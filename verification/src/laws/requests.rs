//! What the host is asked for.

use vstd::prelude::*;

use super::effects::{lemma_checked, lemma_first_step, lemma_looked_up, lemma_root_added};
use super::progress::{in_order, lemma_in_order_run, lemma_rest};
use super::run::{answers, run, same_settings};
use crate::deserialization::{is_absolute, StepView};
use crate::passthrough::{FsView, HandleDataFileView, ROOT_ID};
use crate::restore::{
    lemma_next_ready, next_ready, LookupView, OpenFlags, PhaseView, ReplyView, RequestView,
    RestoreView,
};
use crate::serialized::{HandleSource, Inode, InodeLocation, PassthroughFsV1};

verus! {

/// The settings are those of `before`, and what is left to restore is part of the plan, unless the
/// restore has failed.
spec fn kept<F, H>(
    plan: PassthroughFsV1,
    before: FsView<F, H>,
    state: RestoreView<F, H>,
) -> bool {
    state.phase matches PhaseView::Finished(Err(_)) || {
        &&& same_settings(before, state.fs)
        &&& state.handles == plan.handles@
        &&& forall|n: Inode| #[trigger] state.inodes.contains(n) ==> plan.inodes@.contains(n)
    }
}

proof fn lemma_kept_resume_handles<F, H>(
    plan: PassthroughFsV1,
    before: FsView<F, H>,
    state: RestoreView<F, H>,
)
    requires
        0 <= state.handles_done <= state.handles.len(),
        state.phase is Scan,
        kept(plan, before, state),
    ensures
        kept(plan, before, state.resume_handles()),
    decreases state.handles.len() - state.handles_done,
{
    if state.handles_done < state.handles.len() {
        let next = state.handle_after(state.handle().first_step(state.fs));
        if next.phase is Scan {
            lemma_kept_resume_handles(plan, before, next);
        }
    }
}

proof fn lemma_kept_resume<F, H>(
    plan: PassthroughFsV1,
    before: FsView<F, H>,
    state: RestoreView<F, H>,
)
    requires
        0 <= state.position <= state.inodes.len(),
        state.phase is Scan,
        kept(plan, before, state),
    ensures
        kept(plan, before, state.resume()),
    decreases state.inodes.len(),
{
    reveal_with_fuel(RestoreView::resume, 1);
    if state.inodes.len() == 0 {
        lemma_kept_resume_handles(
            plan,
            before,
            state.with_inodes_done(),
        );
    } else {
        let position = next_ready(state.inodes, state.fs.inodes, state.position);
        lemma_next_ready(state.inodes, state.fs.inodes, state.position);
        if position < state.inodes.len() {
            let taken = RestoreView { position, ..state };
            let step = taken.inode().first_step(taken.fs);
            lemma_first_step(taken.inode(), taken.fs);
            lemma_rest(taken.inodes, position);
            let next = taken.after(step);
            if next.phase is Scan && next.inodes.len() < state.inodes.len() {
                lemma_kept_resume(plan, before, next);
            }
        }
    }
}

proof fn lemma_kept_after<F, H>(
    plan: PassthroughFsV1,
    before: FsView<F, H>,
    state: RestoreView<F, H>,
    step: StepView<F, H>,
)
    requires
        0 <= state.position < state.inodes.len(),
        kept(plan, before, RestoreView { phase: PhaseView::Scan, ..state }),
        step.result is Ok ==> same_settings(before, step.fs),
    ensures
        kept(plan, before, state.after(step).resumed()),
{
    let scanning = RestoreView { phase: PhaseView::<F, H>::Scan, ..state };
    lemma_rest(state.inodes, state.position);
    let next = state.after(step);
    assert forall|n: Inode| step.result is Ok && #[trigger] next.inodes.contains(
        n,
    ) implies plan.inodes@.contains(n) by {
        assert(scanning.inodes.contains(n));
    }
    if next.phase is Scan {
        lemma_kept_resume(plan, before, next);
    }
}

proof fn lemma_kept_step<F, H>(
    plan: PassthroughFsV1,
    before: FsView<F, H>,
    state: RestoreView<F, H>,
    reply: ReplyView<F, H>,
)
    requires
        in_order(state),
        state.expects(reply),
        kept(plan, before, state),
    ensures
        kept(plan, before, state.step(reply)),
{
    let n = state.inode();
    match (state.phase, reply) {
        (PhaseView::Root, ReplyView::Root(opened)) => {
            lemma_root_added(n, state.fs, opened);
            lemma_kept_after(plan, before, state, n.root_added(state.fs, opened));
        },
        (PhaseView::RootIdentity, ReplyView::Identity(named)) => {
            lemma_kept_after(plan, before, state, n.root_checked(state.fs, Some(named)));
        },
        (PhaseView::Identity(target, data), ReplyView::Identity(named)) => {
            lemma_checked(n, state.fs, data, Some(named));
            let step = n.checked(state.fs, target, data, Some(named));
            lemma_kept_after(plan, before, state, step);
        },
        (PhaseView::OpenFile, ReplyView::File(Ok(file))) => {
            let step = state.handle().handle_added(state.fs, HandleDataFileView::File(file));
            lemma_kept_resume_handles(plan, before, state.handle_after(step));
        },
        (PhaseView::OpenFile, ReplyView::File(Err(_))) => {},
        (PhaseView::HandlePath(error), ReplyView::Path(path)) => {
            let next = state.handle_after(state.handle().open_failed(state.fs, path, error));
            if next.phase is Scan {
                lemma_kept_resume_handles(plan, before, next);
            }
        },
        (phase, reply) => {
            if let LookupView::Ended(target, lookup) = phase.answered(reply) {
                lemma_looked_up(n, state.fs, lookup);
                let step = n.looked_up(state.fs, target, lookup);
                lemma_kept_after(plan, before, state, step);
            }
        },
    }
}

proof fn lemma_kept_run<F, H>(
    plan: PassthroughFsV1,
    fs: FsView<F, H>,
    replies: Seq<ReplyView<F, H>>,
)
    requires
        answers(plan.started(fs), replies),
    ensures
        kept(plan, plan.prepared(fs), run(plan.started(fs), replies)),
    decreases replies.len(),
{
    let before = plan.prepared(fs);
    if replies.len() == 0 {
        if plan.negotiated_opts.refusal(fs) is None {
            let start = plan.planned(before);
            lemma_kept_resume(plan, before, start);
        }
    } else {
        let state = run(plan.started(fs), replies.drop_last());
        lemma_kept_run(plan, fs, replies.drop_last());
        lemma_in_order_run(plan, fs, replies.drop_last());
        assert(state.expects(replies.last()));
        lemma_kept_step(plan, before, state, replies.last());
    }
}

/// Where inodes are looked up. A filter root is opened where it is now, by its name, or else where
/// the source had it. Any other inode is opened by its own name in its directory, whatever the
/// remapping says of that name; one with a path from the root, below the root.
pub proof fn law_lookups<F, H>(
    plan: PassthroughFsV1,
    fs: FsView<F, H>,
    replies: Seq<ReplyView<F, H>>,
)
    requires
        answers(plan.started(fs), replies),
        run(plan.started(fs), replies).phase is Open,
    ensures
        ({
            let state = run(plan.started(fs), replies);
            let how = OpenFlags { path_only: true, no_follow: true, close_on_exec: true };
            &&& plan.inodes@.contains(state.inode())
            &&& match state.inode().location {
                InodeLocation::Path { parent, filename, fullname } => state.request() == Some(
                    RequestView::OpenAt {
                        directory: state.fs.inodes[parent].file_or_handle,
                        filename: if is_absolute(fullname@) {
                            fs.remapped(filename@, fullname@)
                        } else {
                            filename@
                        },
                        how,
                    },
                ),
                InodeLocation::FullPath { filename } => state.request() == Some(
                    RequestView::OpenAt {
                        directory: state.fs.inodes[ROOT_ID].file_or_handle,
                        filename: filename@,
                        how,
                    },
                ),
                _ => false,
            }
        }),
{
    let state = run(plan.started(fs), replies);
    lemma_kept_run(plan, fs, replies);
    lemma_in_order_run(plan, fs, replies);
    assert(state.inodes.contains(state.inode()));
}

/// How the inodes of open files are opened: with the flags that the source had.
pub proof fn law_open_files<F, H>(
    plan: PassthroughFsV1,
    fs: FsView<F, H>,
    replies: Seq<ReplyView<F, H>>,
)
    requires
        answers(plan.started(fs), replies),
        run(plan.started(fs), replies).phase is OpenFile,
    ensures
        ({
            let state = run(plan.started(fs), replies);
            let handle = plan.handles@[state.handles_done];
            &&& 0 <= state.handles_done < plan.handles@.len()
            &&& state.fs.inodes.contains_key(handle.inode)
            &&& handle.source matches HandleSource::OpenInode { flags } && state.request() == Some(
                RequestView::OpenFile { inode: state.fs.inodes[handle.inode], flags },
            )
        }),
{
    lemma_kept_run(plan, fs, replies);
    lemma_in_order_run(plan, fs, replies);
}

/// At every point of a restore that has not failed the configuration and the remapping are as they
/// were, and the options are those that the source has negotiated.
pub proof fn law_settings<F, H>(
    plan: PassthroughFsV1,
    fs: FsView<F, H>,
    replies: Seq<ReplyView<F, H>>,
)
    requires
        answers(plan.started(fs), replies),
        !(run(plan.started(fs), replies).phase matches PhaseView::Finished(Err(_))),
    ensures
        ({
            let now = run(plan.started(fs), replies).fs;
            &&& now.cfg == fs.cfg
            &&& now.filter_path_remap == fs.filter_path_remap
            &&& now.writeback == plan.negotiated_opts.writeback
            &&& now.announce_submounts == plan.negotiated_opts.announce_submounts
            &&& now.posix_acl == plan.negotiated_opts.posix_acl
            &&& now.sup_group_extension == plan.negotiated_opts.sup_group_extension
        }),
{
    lemma_kept_run(plan, fs, replies);
    super::lemma_not_refused(plan, fs, replies);
}

} // verus!
