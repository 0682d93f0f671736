//! What a file system was before a restore.

use vstd::prelude::*;

use super::files::lemma_refused_takes_no_reply;
use super::run::{answers, run};
use crate::deserialization::{HandleStepView, PathLookupView, RootNode, StepView, TargetView};
use crate::error::{invalid_inode_error, ErrorView};
use crate::file_handle::SerializableFileHandle;
use crate::passthrough::{
    with_reference, FileOrHandleView, FsView, HandleDataFileView, InodeView, ROOT_ID,
};
use crate::restore::{
    lemma_resume_next, lemma_started_valid, lemma_step_valid, next_ready, LookupView, PhaseView,
    ReplyView, RestoreView,
};
use crate::serialized::{Inode, InodeLocation, PassthroughFsV1};

verus! {

impl<F, H> FsView<F, H> {
    /// The same file system with the open files of `past` and its numbers to give out next.
    spec fn with_past(self, past: FsView<F, H>) -> Self {
        FsView {
            handles: past.handles,
            next_inode: past.next_inode,
            next_handle: past.next_handle,
            ..self
        }
    }

    /// The same file system with the number of `past` for the next open file.
    spec fn with_number(self, past: FsView<F, H>) -> Self {
        FsView { next_handle: past.next_handle, ..self }
    }
}

impl<F, H> RestoreView<F, H> {
    /// The same state with the open files of `past` and its numbers to give out next.
    spec fn with_past(self, past: FsView<F, H>) -> Self {
        RestoreView { fs: self.fs.with_past(past), ..self }
    }

    /// The same state with the number of `past` for the next open file.
    spec fn with_number(self, past: FsView<F, H>) -> Self {
        RestoreView { fs: self.fs.with_number(past), ..self }
    }
}

impl<F, H> StepView<F, H> {
    /// The same step with the open files of `past` and its numbers to give out next.
    spec fn with_past(self, past: FsView<F, H>) -> Self {
        StepView { fs: self.fs.with_past(past), ..self }
    }
}

impl<F, H> HandleStepView<F, H> {
    /// The same step with the number of `past` for the next open file.
    spec fn with_number(self, past: FsView<F, H>) -> Self {
        HandleStepView { fs: self.fs.with_number(past), ..self }
    }
}

/// `b` is `a`, but for what is still there of `past`.
#[verifier::opaque]
spec fn matched<F, H>(
    a: RestoreView<F, H>,
    b: RestoreView<F, H>,
    past: FsView<F, H>,
) -> bool {
    match a.phase {
        PhaseView::Finished(Ok(_)) => b == a,
        PhaseView::Finished(Err(_)) => b.phase == a.phase,
        PhaseView::OpenFile | PhaseView::HandlePath(_) => b == a.with_number(past),
        _ => b == a.with_past(past),
    }
}

proof fn lemma_matched_inode<F, H>(state: RestoreView<F, H>, past: FsView<F, H>)
    requires
        !state.on_handle(),
        !(state.phase matches PhaseView::Finished(Ok(_))),
    ensures
        matched(state, state.with_past(past), past),
{
    reveal(matched);
}

proof fn lemma_matched_handle<F, H>(state: RestoreView<F, H>, past: FsView<F, H>)
    requires
        state.on_handle() || (state.phase matches PhaseView::Finished(Err(_))),
    ensures
        matched(state, state.with_number(past), past),
{
    reveal(matched);
}

proof fn lemma_looked_up_past<F, H>(
    inode: Inode,
    fs: FsView<F, H>,
    target: TargetView,
    lookup: PathLookupView<F, H>,
    past: FsView<F, H>,
)
    ensures
        inode.looked_up(fs.with_past(past), target, lookup) == inode.looked_up(
            fs,
            target,
            lookup,
        ).with_past(past),
{
    reveal(Inode::looked_up);
}

proof fn lemma_look_up_past<F, H>(
    inode: Inode,
    fs: FsView<F, H>,
    target: TargetView,
    past: FsView<F, H>,
)
    ensures
        inode.look_up(fs.with_past(past), target) == inode.look_up(fs, target).with_past(past),
{
    if let FileOrHandleView::Invalid(error) = fs.inodes[target.parent].file_or_handle {
        let lookup = PathLookupView::Failed(invalid_inode_error(error));
        lemma_looked_up_past(inode, fs, target, lookup, past);
    }
}

/// The first step of an inode has nothing to do with the past.
proof fn lemma_first_step_past<F, H>(inode: Inode, fs: FsView<F, H>, past: FsView<F, H>)
    ensures
        inode.first_step(fs.with_past(past)) == inode.first_step(fs).with_past(past),
{
    match inode.location {
        InodeLocation::Path { parent, filename, fullname } => {
            let target = inode.path_target(fs, parent, filename@, fullname@);
            assert(inode.path_target(fs.with_past(past), parent, filename@, fullname@) == target);
            lemma_look_up_past(inode, fs, target, past);
        },
        InodeLocation::FullPath { filename } => {
            let target = TargetView {
                parent: ROOT_ID,
                filename: filename@,
                is_filter: false,
                checked: false,
            };
            let started = FsView { inodes: with_reference(fs.inodes, ROOT_ID), ..fs };
            lemma_look_up_past(inode, started, target, past);
        },
        _ => {},
    }
}

proof fn lemma_resume_handles_past<F, H>(state: RestoreView<F, H>, past: FsView<F, H>)
    requires
        state.phase is Scan,
        0 <= state.handles_done <= state.handles.len(),
    ensures
        matched(state.resume_handles(), state.with_number(past).resume_handles(), past),
    decreases state.handles.len() - state.handles_done,
{
    if state.handles_done < state.handles.len() {
        let step = state.handle().first_step(state.fs);
        let next = state.handle_after(step);
        assert(state.handle().first_step(state.fs.with_number(past)) == step.with_number(past));
        assert(state.with_number(past).handle_after(step.with_number(past)) == next.with_number(
            past,
        ));
        if next.phase is Scan {
            lemma_resume_handles_past(next, past);
        } else {
            lemma_matched_handle(next, past);
        }
    } else {
        reveal(matched);
    }
}

/// All inodes are done.
proof fn lemma_resume_none_past<F, H>(state: RestoreView<F, H>, past: FsView<F, H>)
    requires
        state.phase is Scan,
        state.inodes.len() == 0,
    ensures
        matched(state.resume(), state.with_past(past).resume(), past),
{
    let done = state.with_inodes_done();
    reveal_with_fuel(RestoreView::resume, 1);
    assert(state.with_past(past).with_inodes_done() == done.with_number(past));
    lemma_resume_handles_past(done, past);
}

/// All inodes that are left wait for others.
proof fn lemma_resume_stuck_past<F, H>(state: RestoreView<F, H>, past: FsView<F, H>)
    requires
        state.phase is Scan,
        next_ready(state.inodes, state.fs.inodes, state.position) >= state.inodes.len() > 0,
    ensures
        matched(state.resume(), state.with_past(past).resume(), past),
{
    reveal_with_fuel(RestoreView::resume, 1);
    lemma_matched_inode(state.resume(), past);
}

/// An inode is taken up.
proof fn lemma_resume_next_past<F, H>(
    state: RestoreView<F, H>,
    taken: RestoreView<F, H>,
    past: FsView<F, H>,
)
    requires
        state.phase is Scan,
        0 <= state.position <= state.inodes.len(),
        taken.position < state.inodes.len(),
        taken == (RestoreView {
            position: next_ready(state.inodes, state.fs.inodes, state.position),
            ..state
        }),
    ensures
        ({
            let next = taken.after(taken.inode().first_step(taken.fs));
            &&& state.resume() == next.resumed()
            &&& state.with_past(past).resume() == next.with_past(past).resumed()
        }),
{
    let step = taken.inode().first_step(taken.fs);
    lemma_resume_next(state, taken);
    lemma_resume_next(state.with_past(past), taken.with_past(past));
    lemma_first_step_past(taken.inode(), taken.fs, past);
    assert(taken.with_past(past).after(step.with_past(past)) == taken.after(step).with_past(past));
}

proof fn lemma_resume_past<F, H>(state: RestoreView<F, H>, past: FsView<F, H>)
    requires
        state.phase is Scan,
        0 <= state.position <= state.inodes.len(),
    ensures
        matched(state.resume(), state.with_past(past).resume(), past),
    decreases state.inodes.len(),
{
    let position = next_ready(state.inodes, state.fs.inodes, state.position);
    if state.inodes.len() == 0 {
        lemma_resume_none_past(state, past);
    } else if position >= state.inodes.len() {
        lemma_resume_stuck_past(state, past);
    } else {
        let taken = RestoreView { position, ..state };
        let next = taken.after(taken.inode().first_step(taken.fs));
        lemma_resume_next(state, taken);
        lemma_resume_next_past(state, taken, past);
        if next.phase is Scan {
            lemma_resume_past(next, past);
        } else {
            lemma_matched_inode(next, past);
        }
    }
}

/// What a step of the current inode leads to.
proof fn lemma_resumed_past<F, H>(
    state: RestoreView<F, H>,
    step: StepView<F, H>,
    past: FsView<F, H>,
)
    requires
        0 <= state.position < state.inodes.len(),
        0 <= state.handles_done <= state.handles.len(),
    ensures
        matched(
            state.after(step).resumed(),
            state.with_past(past).after(step.with_past(past)).resumed(),
            past,
        ),
{
    let next = state.after(step);
    assert(state.with_past(past).after(step.with_past(past)) == next.with_past(past));
    if next.phase is Scan {
        lemma_resume_past(next, past);
    } else {
        lemma_matched_inode(next, past);
    }
}

/// What a step of the current open file leads to.
proof fn lemma_handles_resumed_past<F, H>(
    state: RestoreView<F, H>,
    step: HandleStepView<F, H>,
    past: FsView<F, H>,
)
    requires
        0 <= state.handles_done < state.handles.len(),
    ensures
        matched(
            state.handle_after(step).handles_resumed(),
            state.with_number(past).handle_after(step.with_number(past)).handles_resumed(),
            past,
        ),
{
    let next = state.handle_after(step);
    assert(state.with_number(past).handle_after(step.with_number(past)) == next.with_number(past));
    if next.phase is Scan {
        lemma_resume_handles_past(next, past);
    } else {
        lemma_matched_handle(next, past);
    }
}

proof fn lemma_root_opened_past<F, H>(
    state: RestoreView<F, H>,
    opened: Result<RootNode<F, H>, ErrorView>,
    past: FsView<F, H>,
)
    requires
        state.valid(),
        state.on_inode(),
    ensures
        matched(state.root_opened(opened), state.with_past(past).root_opened(opened), past),
{
    let step = state.inode().root_added(state.fs, opened);
    assert(state.inode().root_added(state.fs.with_past(past), opened) == step.with_past(past));
    lemma_resumed_past(state, step, past);
}

proof fn lemma_root_identified_past<F, H>(
    state: RestoreView<F, H>,
    named: Result<SerializableFileHandle, ErrorView>,
    past: FsView<F, H>,
)
    requires
        state.valid(),
        state.on_inode(),
    ensures
        matched(state.root_identified(named), state.with_past(past).root_identified(named), past),
{
    let step = state.inode().root_checked(state.fs, Some(named));
    assert(state.inode().root_checked(state.fs.with_past(past), Some(named)) == step.with_past(
        past,
    ));
    lemma_resumed_past(state, step, past);
}

proof fn lemma_identified_past<F, H>(
    state: RestoreView<F, H>,
    target: TargetView,
    data: InodeView<F, H>,
    named: Result<SerializableFileHandle, ErrorView>,
    past: FsView<F, H>,
)
    requires
        state.valid(),
        state.on_inode(),
    ensures
        matched(
            state.identified(target, data, named),
            state.with_past(past).identified(target, data, named),
            past,
        ),
{
    let n = state.inode();
    let step = n.checked(state.fs, target, data, Some(named));
    assert(n.checked(state.fs.with_past(past), target, data, Some(named)) == step.with_past(past));
    lemma_resumed_past(state, step, past);
}

proof fn lemma_lookup_ended_past<F, H>(
    state: RestoreView<F, H>,
    target: TargetView,
    lookup: PathLookupView<F, H>,
    past: FsView<F, H>,
)
    requires
        state.valid(),
        state.on_inode(),
    ensures
        matched(
            state.looked_up(target, lookup),
            state.with_past(past).looked_up(target, lookup),
            past,
        ),
{
    lemma_looked_up_past(state.inode(), state.fs, target, lookup, past);
    lemma_resumed_past(state, state.inode().looked_up(state.fs, target, lookup), past);
}

proof fn lemma_file_opened_past<F, H>(state: RestoreView<F, H>, file: F, past: FsView<F, H>)
    requires
        state.valid(),
        state.on_handle(),
    ensures
        matched(state.file_opened(file), state.with_number(past).file_opened(file), past),
{
    let data = HandleDataFileView::File(file);
    let step = state.handle().handle_added(state.fs, data);
    assert(state.handle().handle_added(state.fs.with_number(past), data) == step.with_number(past));
    lemma_handles_resumed_past(state, step, past);
}

proof fn lemma_file_failed_past<F, H>(
    state: RestoreView<F, H>,
    path: Option<Seq<char>>,
    error: ErrorView,
    past: FsView<F, H>,
)
    requires
        state.valid(),
        state.on_handle(),
    ensures
        matched(
            state.file_failed(path, error),
            state.with_number(past).file_failed(path, error),
            past,
        ),
{
    let handle = state.handle();
    let step = handle.open_failed(state.fs, path, error);
    assert(handle.open_failed(state.fs.with_number(past), path, error) == step.with_number(past));
    lemma_handles_resumed_past(state, step, past);
}

/// What a reply for the current inode leads to.
proof fn lemma_inode_step_past<F, H>(
    state: RestoreView<F, H>,
    reply: ReplyView<F, H>,
    past: FsView<F, H>,
)
    requires
        state.valid(),
        state.expects(reply),
        state.on_inode(),
    ensures
        matched(state.step(reply), state.with_past(past).step(reply), past),
{
    match (state.phase, reply) {
        (PhaseView::Root, ReplyView::Root(opened)) => {
            lemma_root_opened_past(state, opened, past);
        },
        (PhaseView::RootIdentity, ReplyView::Identity(named)) => {
            lemma_root_identified_past(state, named, past);
        },
        (PhaseView::Identity(target, data), ReplyView::Identity(named)) => {
            lemma_identified_past(state, target, data, named, past);
        },
        (phase, reply) => match phase.answered(reply) {
            LookupView::Ended(target, lookup) => {
                lemma_lookup_ended_past(state, target, lookup, past);
            },
            LookupView::Waiting(phase) => {
                lemma_matched_inode(RestoreView { phase, ..state }, past);
            },
        },
    }
}

/// What a reply for the current open file leads to.
proof fn lemma_handle_step_past<F, H>(
    state: RestoreView<F, H>,
    reply: ReplyView<F, H>,
    past: FsView<F, H>,
)
    requires
        state.valid(),
        state.expects(reply),
        state.on_handle(),
    ensures
        matched(state.step(reply), state.with_number(past).step(reply), past),
{
    match (state.phase, reply) {
        (PhaseView::OpenFile, ReplyView::File(Ok(file))) => {
            lemma_file_opened_past(state, file, past);
        },
        (PhaseView::HandlePath(error), ReplyView::Path(path)) => {
            lemma_file_failed_past(state, path, error, past);
        },
        (PhaseView::OpenFile, ReplyView::File(Err(error))) => {
            let phase = PhaseView::HandlePath(error);
            lemma_matched_handle(RestoreView { phase, ..state }, past);
        },
        _ => {},
    }
}

/// The two file systems agree in what a restore keeps: the configuration, the remapping and the
/// filter.
pub open spec fn same_base<F, H>(a: FsView<F, H>, b: FsView<F, H>) -> bool {
    &&& a.cfg == b.cfg
    &&& a.filter_path_remap == b.filter_path_remap
    &&& a.filter == b.filter
}

proof fn lemma_run_past<F, H>(
    plan: PassthroughFsV1,
    a: FsView<F, H>,
    b: FsView<F, H>,
    replies: Seq<ReplyView<F, H>>,
)
    requires
        same_base(a, b),
        plan.negotiated_opts.refusal(a) is None,
        answers(plan.started(a), replies),
    ensures
        answers(plan.started(b), replies),
        run(plan.started(a), replies).valid(),
        matched(run(plan.started(a), replies), run(plan.started(b), replies), b),
    decreases replies.len(),
{
    if replies.len() == 0 {
        lemma_started_valid(plan, a);
        assert(plan.prepared(b) == plan.prepared(a).with_past(b));
        assert(plan.planned(plan.prepared(b)) == plan.planned(plan.prepared(a)).with_past(b));
        lemma_resume_past(plan.planned(plan.prepared(a)), b);
    } else {
        let x = run(plan.started(a), replies.drop_last());
        let y = run(plan.started(b), replies.drop_last());
        lemma_run_past(plan, a, b, replies.drop_last());
        lemma_step_valid(x, replies.last());
        reveal(matched);
        if x.on_handle() {
            lemma_handle_step_past(x, replies.last(), b);
        } else {
            lemma_inode_step_past(x, replies.last(), b);
        }
    }
}

/// Nothing of what a file system was before survives a restore, but for its configuration, its
/// remapping and its filter. Two file systems that agree in those are restored alike: the host is
/// asked the same at every point, the outcome is the same, and after success they are the same.
pub proof fn law_nothing_survives<F, H>(
    plan: PassthroughFsV1,
    a: FsView<F, H>,
    b: FsView<F, H>,
    replies: Seq<ReplyView<F, H>>,
)
    requires
        same_base(a, b),
        answers(plan.started(a), replies),
    ensures
        answers(plan.started(b), replies),
        ({
            let x = run(plan.started(a), replies);
            let y = run(plan.started(b), replies);
            &&& x.request() == y.request()
            &&& x.phase == y.phase
            &&& x.phase == PhaseView::<F, H>::Finished(Ok(())) ==> x.fs == y.fs
        }),
{
    if plan.negotiated_opts.refusal(a) is None {
        lemma_run_past(plan, a, b, replies);
        reveal(matched);
    } else {
        lemma_refused_takes_no_reply(plan, a, replies);
    }
}

} // verus!
