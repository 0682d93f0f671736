//! What becomes of the open files and of the numbers to give out next.

use vstd::prelude::*;

use super::progress::{in_order, lemma_in_order_run};
use super::run::{answers, open_files, run};
use crate::deserialization::{PathLookupView, RootNode, StepView, TargetView};
use crate::error::ErrorView;
use crate::file_handle::SerializableFileHandle;
use crate::passthrough::{FsView, HandleDataFileView, HandleView, InodeView};
use crate::restore::{
    lemma_next_ready, next_ready, LookupView, PhaseView, ReplyView, RestoreView,
};
use crate::serialized::{Inode, PassthroughFsV1};

verus! {

/// The inodes and the ways of opening them of a table of open files.
pub open spec fn summary<F>(handles: Map<u64, HandleView<F>>) -> Map<
    u64,
    (u64, crate::passthrough::HandleMigrationInfo),
> {
    handles.map_values(|data: HandleView<F>| (data.inode, data.migration_info))
}

/// The two agree in their open files and in the numbers to give out next.
pub open spec fn same_files<F, H>(a: FsView<F, H>, b: FsView<F, H>) -> bool {
    &&& a.handles == b.handles
    &&& a.next_inode == b.next_inode
    &&& a.next_handle == b.next_handle
}

/// The inode of every open file is there.
pub open spec fn inodes_there<F, H>(fs: FsView<F, H>) -> bool {
    forall|id: u64| #[trigger]
        fs.handles.contains_key(id) ==> fs.inodes.contains_key(fs.handles[id].inode)
}

/// The plan is as it was.
spec fn planned<F, H>(plan: PassthroughFsV1, state: RestoreView<F, H>) -> bool {
    &&& state.handles == plan.handles@
    &&& state.next_inode == plan.next_inode
    &&& state.next_handle == plan.next_handle
}

/// The open files are those that are done.
spec fn files_so_far<F, H>(plan: PassthroughFsV1, state: RestoreView<F, H>) -> bool {
    &&& planned(plan, state)
    &&& state.inodes.len() == 0
    &&& 0 <= state.handles_done <= state.handles.len()
    &&& state.fs.next_inode == plan.next_inode
    &&& summary(state.fs.handles) == open_files(plan.handles@.take(state.handles_done))
    &&& inodes_there(state.fs)
    &&& forall|h: int|
        0 <= h < state.handles_done ==> state.fs.inodes.contains_key(
            (#[trigger] plan.handles@[h]).inode,
        )
}

/// It is not the turn of the open files yet: they are as before.
spec fn files_as_before<F, H>(
    plan: PassthroughFsV1,
    before: FsView<F, H>,
    state: RestoreView<F, H>,
) -> bool {
    &&& planned(plan, state)
    &&& state.handles_done == 0
    &&& same_files(before, state.fs)
}

/// It is the turn of the open files.
spec fn files_under_way<F, H>(
    plan: PassthroughFsV1,
    before: FsView<F, H>,
    state: RestoreView<F, H>,
) -> bool {
    &&& files_so_far(plan, state)
    &&& state.handles_done < state.handles.len()
    &&& state.fs.next_handle == before.next_handle
}

/// What holds of the open files at every point of a restore. `before` is the file system at the
/// start.
spec fn files_right<F, H>(
    plan: PassthroughFsV1,
    before: FsView<F, H>,
    state: RestoreView<F, H>,
) -> bool {
    match state.phase {
        PhaseView::Finished(Ok(_)) => {
            &&& files_so_far(plan, state)
            &&& state.handles_done == state.handles.len()
            &&& state.fs.next_handle == plan.next_handle
        },
        PhaseView::Finished(Err(_)) => if state.inodes.len() > 0 {
            files_as_before(plan, before, state)
        } else {
            files_under_way(plan, before, state)
        },
        PhaseView::OpenFile | PhaseView::HandlePath(_) => files_under_way(plan, before, state),
        _ => files_as_before(plan, before, state),
    }
}

proof fn lemma_first_step_same_files<F, H>(inode: Inode, fs: FsView<F, H>)
    ensures
        same_files(fs, inode.first_step(fs).fs),
{
    reveal(Inode::looked_up);
}

proof fn lemma_looked_up_same_files<F, H>(
    inode: Inode,
    fs: FsView<F, H>,
    target: TargetView,
    lookup: PathLookupView<F, H>,
)
    ensures
        same_files(fs, inode.looked_up(fs, target, lookup).fs),
{
    reveal(Inode::looked_up);
}

proof fn lemma_checked_same_files<F, H>(
    inode: Inode,
    fs: FsView<F, H>,
    target: TargetView,
    data: InodeView<F, H>,
    named: Result<SerializableFileHandle, ErrorView>,
)
    ensures
        same_files(fs, inode.checked(fs, target, data, Some(named)).fs),
{
}

proof fn lemma_root_added_same_files<F, H>(
    inode: Inode,
    fs: FsView<F, H>,
    opened: Result<RootNode<F, H>, ErrorView>,
)
    ensures
        same_files(fs, inode.root_added(fs, opened).fs),
{
}

/// Adding an open file whose inode is there.
proof fn lemma_one_more_file<F, H>(
    plan: PassthroughFsV1,
    state: RestoreView<F, H>,
    file: HandleDataFileView<F>,
)
    requires
        files_so_far(plan, state),
        state.handles_done < state.handles.len(),
        state.fs.inodes.contains_key(state.handle().inode),
    ensures
        files_so_far(plan, state.handle_after(state.handle().handle_added(state.fs, file))),
{
    let next = state.handle_after(state.handle().handle_added(state.fs, file));
    let done = plan.handles@.take(next.handles_done);
    assert(done.drop_last() =~= plan.handles@.take(state.handles_done));
    assert(done.last() == state.handle());
    assert(summary(next.fs.handles) =~= open_files(done));
}

proof fn lemma_files_resume_handles<F, H>(
    plan: PassthroughFsV1,
    before: FsView<F, H>,
    state: RestoreView<F, H>,
)
    requires
        state.phase is Scan,
        files_so_far(plan, state),
        state.fs.next_handle == before.next_handle,
    ensures
        files_right(plan, before, state.resume_handles()),
    decreases state.handles.len() - state.handles_done,
{
    if state.handles_done < state.handles.len() {
        let handle = state.handle();
        let next = state.handle_after(handle.first_step(state.fs));
        if next.phase is Scan {
            let error = state.fs.inodes[handle.inode].file_or_handle->Invalid_0;
            let file = HandleDataFileView::Invalid(
                handle.open_error(None, crate::error::invalid_inode_error(error)),
            );
            lemma_one_more_file(plan, state, file);
            lemma_files_resume_handles(plan, before, next);
        }
    }
}

proof fn lemma_files_resume<F, H>(
    plan: PassthroughFsV1,
    before: FsView<F, H>,
    state: RestoreView<F, H>,
)
    requires
        state.phase is Scan,
        0 <= state.position <= state.inodes.len(),
        planned(plan, state),
        state.handles_done == 0,
        same_files(before, state.fs),
    ensures
        files_right(plan, before, state.resume()),
    decreases state.inodes.len(),
{
    reveal_with_fuel(RestoreView::resume, 1);
    if state.inodes.len() == 0 {
        let start = state.with_inodes_done();
        assert(summary(start.fs.handles) =~= open_files(plan.handles@.take(0)));
        lemma_files_resume_handles(plan, before, start);
    } else {
        let position = next_ready(state.inodes, state.fs.inodes, state.position);
        lemma_next_ready(state.inodes, state.fs.inodes, state.position);
        if position < state.inodes.len() {
            let taken = RestoreView { position, ..state };
            lemma_first_step_same_files(taken.inode(), taken.fs);
            crate::restore::lemma_deferred_means_blocked(taken.inode(), taken.fs);
            let next = taken.after(taken.inode().first_step(taken.fs));
            if next.phase is Scan {
                lemma_files_resume(plan, before, next);
            }
        }
    }
}

/// A step for the current inode.
proof fn lemma_files_after<F, H>(
    plan: PassthroughFsV1,
    before: FsView<F, H>,
    state: RestoreView<F, H>,
    step: StepView<F, H>,
)
    requires
        0 <= state.position < state.inodes.len(),
        planned(plan, state),
        state.handles_done == 0,
        same_files(before, step.fs),
    ensures
        files_right(plan, before, state.after(step).resumed()),
{
    let next = state.after(step);
    if next.phase is Scan {
        lemma_files_resume(plan, before, next);
    }
}

proof fn lemma_files_step<F, H>(
    plan: PassthroughFsV1,
    before: FsView<F, H>,
    state: RestoreView<F, H>,
    reply: ReplyView<F, H>,
)
    requires
        in_order(state),
        state.expects(reply),
        files_right(plan, before, state),
    ensures
        files_right(plan, before, state.step(reply)),
{
    let n = state.inode();
    match (state.phase, reply) {
        (PhaseView::Root, ReplyView::Root(opened)) => {
            lemma_root_added_same_files(n, state.fs, opened);
            lemma_files_after(plan, before, state, n.root_added(state.fs, opened));
        },
        (PhaseView::RootIdentity, ReplyView::Identity(named)) => {
            lemma_files_after(plan, before, state, n.root_checked(state.fs, Some(named)));
        },
        (PhaseView::Identity(target, data), ReplyView::Identity(named)) => {
            lemma_checked_same_files(n, state.fs, target, data, named);
            let step = n.checked(state.fs, target, data, Some(named));
            lemma_files_after(plan, before, state, step);
        },
        (PhaseView::OpenFile, ReplyView::File(Ok(file))) => {
            let file = HandleDataFileView::File(file);
            lemma_one_more_file(plan, state, file);
            let step = state.handle().handle_added(state.fs, file);
            lemma_files_resume_handles(plan, before, state.handle_after(step));
        },
        (PhaseView::OpenFile, ReplyView::File(Err(_))) => {},
        (PhaseView::HandlePath(error), ReplyView::Path(path)) => {
            let file = HandleDataFileView::Invalid(state.handle().open_error(path, error));
            lemma_one_more_file(plan, state, file);
            let next = state.handle_after(state.handle().open_failed(state.fs, path, error));
            if next.phase is Scan {
                lemma_files_resume_handles(plan, before, next);
            }
        },
        (phase, reply) => {
            if let LookupView::Ended(target, lookup) = phase.answered(reply) {
                lemma_looked_up_same_files(n, state.fs, target, lookup);
                let step = n.looked_up(state.fs, target, lookup);
                lemma_files_after(plan, before, state, step);
            }
        },
    }
}

proof fn lemma_files_run<F, H>(
    plan: PassthroughFsV1,
    fs: FsView<F, H>,
    replies: Seq<ReplyView<F, H>>,
)
    requires
        plan.negotiated_opts.refusal(fs) is None,
        answers(plan.started(fs), replies),
    ensures
        files_right(plan, plan.prepared(fs), run(plan.started(fs), replies)),
    decreases replies.len(),
{
    let before = plan.prepared(fs);
    if replies.len() == 0 {
        lemma_files_resume(plan, before, plan.planned(before));
    } else {
        lemma_files_run(plan, fs, replies.drop_last());
        lemma_in_order_run(plan, fs, replies.drop_last());
        let state = run(plan.started(fs), replies.drop_last());
        lemma_files_step(plan, before, state, replies.last());
    }
}

/// A restore that succeeds leaves the open files of the source, and no others, each with its inode
/// there, and the numbers to give out next are the source's. That needs no promise of the source.
pub proof fn law_open_files_restored<F, H>(
    plan: PassthroughFsV1,
    fs: FsView<F, H>,
    replies: Seq<ReplyView<F, H>>,
)
    requires
        answers(plan.started(fs), replies),
        run(plan.started(fs), replies).phase == PhaseView::<F, H>::Finished(Ok(())),
    ensures
        ({
            let end = run(plan.started(fs), replies).fs;
            &&& end.next_inode == plan.next_inode
            &&& end.next_handle == plan.next_handle
            &&& summary(end.handles) == open_files(plan.handles@)
            &&& inodes_there(end)
            &&& forall|h: int|
                0 <= h < plan.handles@.len() ==> end.inodes.contains_key(
                    (#[trigger] plan.handles@[h]).inode,
                )
        }),
{
    super::lemma_not_refused(plan, fs, replies);
    lemma_files_run(plan, fs, replies);
    let state = run(plan.started(fs), replies);
    assert(plan.handles@.take(state.handles_done) =~= plan.handles@);
}

/// What a restore that fails leaves. The number for the next open file is as before. If the options
/// are refused, nothing but options has changed. If inodes are left, the open files and the number
/// for the next inode are as before too. Otherwise an open file has made the restore fail: the
/// number for the next inode is the source's, and the open files are those that come before that
/// one.
pub proof fn law_failure_leaves<F, H>(
    plan: PassthroughFsV1,
    fs: FsView<F, H>,
    replies: Seq<ReplyView<F, H>>,
)
    requires
        answers(plan.started(fs), replies),
        run(plan.started(fs), replies).phase matches PhaseView::Finished(Err(_)),
    ensures
        ({
            let state = run(plan.started(fs), replies);
            let end = state.fs;
            &&& end.next_handle == fs.next_handle
            &&& plan.negotiated_opts.refusal(fs) is Some ==> end == plan.negotiated_opts.applied(fs)
            &&& plan.negotiated_opts.refusal(fs) is None && state.inodes.len() > 0 ==> same_files(
                fs,
                end,
            )
            &&& plan.negotiated_opts.refusal(fs) is None && state.inodes.len() == 0 ==> {
                &&& 0 <= state.handles_done < plan.handles@.len()
                &&& end.next_inode == plan.next_inode
                &&& summary(end.handles) == open_files(plan.handles@.take(state.handles_done))
                &&& inodes_there(end)
            }
        }),
{
    if plan.negotiated_opts.refusal(fs) is None {
        lemma_files_run(plan, fs, replies);
    } else if replies.len() > 0 {
        lemma_refused_takes_no_reply(plan, fs, replies);
    }
}

/// A restore whose options are refused takes no replies.
pub(super) proof fn lemma_refused_takes_no_reply<F, H>(
    plan: PassthroughFsV1,
    fs: FsView<F, H>,
    replies: Seq<ReplyView<F, H>>,
)
    requires
        plan.negotiated_opts.refusal(fs) is Some,
        answers(plan.started(fs), replies),
    ensures
        replies.len() == 0,
    decreases replies.len(),
{
    if replies.len() > 0 {
        lemma_refused_takes_no_reply(plan, fs, replies.drop_last());
        assert(run(plan.started(fs), replies.drop_last()).expects(replies.last()));
    }
}

} // verus!
