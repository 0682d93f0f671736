//! When inodes and open files are invalid.

use vstd::prelude::*;

use super::progress::{in_order, lemma_in_order_run, lemma_rest};
use super::run::{answers, run};
use crate::deserialization::{
    PathLookupView, ProgressView, RootNode, StepView, TargetView,
};
use crate::error::ErrorView;
use crate::file_handle::SerializableFileHandle;
use crate::passthrough::{FsView, HandleDataFileView, HandleView, InodeView, Node, ROOT_ID};
use crate::restore::{LookupView, PhaseView, ReplyView, RestoreView};
use crate::serialized::{Handle, Inode, InodeLocation, PassthroughFsV1};

verus! {

/// Of the inodes with these numbers none is lost on the source, and each is found through one of
/// them.
pub open spec fn self_contained(inodes: Seq<Inode>, ids: Set<u64>) -> bool {
    forall|i: int|
        0 <= i < inodes.len() && ids.contains((#[trigger] inodes[i]).id) ==> match inodes[i].location {
            InodeLocation::RootNode => true,
            InodeLocation::Path { parent, .. } => ids.contains(parent),
            InodeLocation::Invalid => false,
            InodeLocation::FullPath { .. } => ids.contains(ROOT_ID),
        }
}

/// The source sent no handle for the inode, or one that is equal to this one in type and in every
/// byte.
pub open spec fn agrees(inode: Inode, actual: SerializableFileHandle) -> bool {
    inode.file_handle matches Some(reference) ==> {
        &&& actual.handle_type == reference.handle_type
        &&& actual.handle@.len() == reference.handle@.len()
        &&& forall|j: int|
            0 <= j < actual.handle@.len() ==> actual.handle@[j] == reference.handle@[j]
    }
}

/// The reply about the inode is no error, and the handle that it tells is the one on the source. An
/// inode with a path below the root is not checked.
pub open spec fn good_reply<F, H>(inode: Inode, reply: ReplyView<F, H>) -> bool {
    match reply {
        ReplyView::Opened(result) => result is Ok,
        ReplyView::Stat(result) => result is Ok,
        ReplyView::FileHandle(result) => match result {
            Ok(Some(handle)) => inode.location is FullPath || agrees(inode, handle),
            Ok(None) => true,
            Err(_) => false,
        },
        ReplyView::Openable(result) => result is Ok,
        ReplyView::Identity(result) => result matches Ok(actual) && agrees(inode, actual),
        _ => true,
    }
}

/// All replies about the inodes with these numbers are good.
pub open spec fn good_replies<F, H>(
    start: RestoreView<F, H>,
    replies: Seq<ReplyView<F, H>>,
    ids: Set<u64>,
) -> bool
    decreases replies.len(),
{
    replies.len() > 0 ==> {
        let asked = run(start, replies.drop_last());
        &&& good_replies(start, replies.drop_last(), ids)
        &&& asked.on_inode() && ids.contains(asked.inode().id) ==> good_reply(
            asked.inode(),
            replies.last(),
        )
    }
}

/// None of the inodes with these numbers is invalid.
pub open spec fn none_invalid<F, H>(inodes: Map<u64, InodeView<F, H>>, ids: Set<u64>) -> bool {
    forall|id: u64| #[trigger]
        inodes.contains_key(id) && ids.contains(id) ==> !(inodes[id].file_or_handle is Invalid)
}

/// None of the inodes with these numbers is invalid, nor is it going to be.
spec fn sound<F, H>(all: Seq<Inode>, ids: Set<u64>, state: RestoreView<F, H>) -> bool {
    &&& none_invalid(state.fs.inodes, ids)
    &&& forall|n: Inode| #[trigger] state.inodes.contains(n) ==> all.contains(n)
    &&& state.phase matches PhaseView::Openable(_, _, handle) ==> ids.contains(state.inode().id)
        ==> state.inode().location is FullPath || agrees(state.inode(), handle)
}

proof fn lemma_agrees(inode: Inode, actual: SerializableFileHandle)
    requires
        agrees(inode, actual),
    ensures
        inode.comparison(actual) is Ok,
{
    super::identity::law_comparison(inode, actual);
}

proof fn lemma_first_step_sound<F, H>(all: Seq<Inode>, ids: Set<u64>, n: Inode, fs: FsView<F, H>)
    requires
        self_contained(all, ids),
        all.contains(n),
        none_invalid(fs.inodes, ids),
        !n.blocked(fs.inodes),
    ensures
        none_invalid(n.first_step(fs).fs.inodes, ids),
{
    let i = choose|i: int| 0 <= i < all.len() && all[i] == n;
    assert(all[i].location == n.location);
    reveal(Inode::looked_up);
}

proof fn lemma_looked_up_sound<F, H>(
    ids: Set<u64>,
    n: Inode,
    fs: FsView<F, H>,
    target: TargetView,
    lookup: PathLookupView<F, H>,
)
    requires
        none_invalid(fs.inodes, ids),
        ids.contains(n.id) ==> {
            &&& lookup matches PathLookupView::Found { node, .. }
            &&& node matches Node::Handle(held) ==> !target.checked || agrees(n, held.handle)
        },
    ensures
        none_invalid(n.looked_up(fs, target, lookup).fs.inodes, ids),
{
    reveal(Inode::looked_up);
    if ids.contains(n.id) {
        if let PathLookupView::Found { node: Node::Handle(held), .. } = lookup {
            if target.checked {
                lemma_agrees(n, held.handle);
            }
        }
    }
}

proof fn lemma_checked_sound<F, H>(
    ids: Set<u64>,
    n: Inode,
    fs: FsView<F, H>,
    target: TargetView,
    data: InodeView<F, H>,
    named: Result<SerializableFileHandle, ErrorView>,
)
    requires
        none_invalid(fs.inodes, ids),
        data.file_or_handle is File,
        data.inode == n.id,
        ids.contains(n.id) ==> (named matches Ok(actual) && agrees(n, actual)),
    ensures
        none_invalid(n.checked(fs, target, data, Some(named)).fs.inodes, ids),
{
    if ids.contains(n.id) {
        lemma_agrees(n, named->Ok_0);
    }
}

proof fn lemma_resume_handles_keeps_inodes<F, H>(state: RestoreView<F, H>)
    requires
        state.phase is Scan,
        0 <= state.handles_done <= state.handles.len(),
    ensures
        state.resume_handles().fs.inodes == state.fs.inodes,
        state.resume_handles().inodes == state.inodes,
        !(state.resume_handles().phase is Openable),
    decreases state.handles.len() - state.handles_done,
{
    if state.handles_done < state.handles.len() {
        let next = state.handle_after(state.handle().first_step(state.fs));
        if next.phase is Scan {
            lemma_resume_handles_keeps_inodes(next);
        }
    }
}

proof fn lemma_resume_sound<F, H>(all: Seq<Inode>, ids: Set<u64>, state: RestoreView<F, H>)
    requires
        self_contained(all, ids),
        state.phase is Scan,
        0 <= state.position <= state.inodes.len(),
        sound(all, ids, state),
    ensures
        sound(all, ids, state.resume()),
    decreases state.inodes.len(),
{
    let position = crate::restore::next_ready(state.inodes, state.fs.inodes, state.position);
    if state.inodes.len() == 0 {
        reveal_with_fuel(RestoreView::resume, 1);
        lemma_resume_handles_keeps_inodes(state.with_inodes_done());
    } else if position >= state.inodes.len() {
        reveal_with_fuel(RestoreView::resume, 1);
    } else {
        let taken = RestoreView { position, ..state };
        let n = taken.inode();
        let next = taken.after(n.first_step(taken.fs));
        crate::restore::lemma_resume_next(state, taken);
        assert(state.inodes.contains(n));
        lemma_first_step_sound(all, ids, n, taken.fs);
        lemma_rest(state.inodes, position);
        if next.phase is Scan {
            lemma_resume_sound(all, ids, next);
        }
    }
}

proof fn lemma_after_sound<F, H>(
    all: Seq<Inode>,
    ids: Set<u64>,
    state: RestoreView<F, H>,
    step: StepView<F, H>,
)
    requires
        self_contained(all, ids),
        0 <= state.position < state.inodes.len(),
        forall|n: Inode| #[trigger] state.inodes.contains(n) ==> all.contains(n),
        none_invalid(step.fs.inodes, ids),
    ensures
        sound(all, ids, state.after(step).resumed()),
{
    lemma_rest(state.inodes, state.position);
    let next = state.after(step);
    assert forall|n: Inode| #[trigger] next.inodes.contains(n) implies all.contains(n) by {
        assert(state.inodes.contains(n));
    }
    if next.phase is Scan {
        lemma_resume_sound(all, ids, next);
    }
}

proof fn lemma_step_sound<F, H>(
    all: Seq<Inode>,
    ids: Set<u64>,
    state: RestoreView<F, H>,
    reply: ReplyView<F, H>,
)
    requires
        self_contained(all, ids),
        in_order(state),
        state.expects(reply),
        sound(all, ids, state),
        state.on_inode() && ids.contains(state.inode().id) ==> good_reply(state.inode(), reply),
    ensures
        sound(all, ids, state.step(reply)),
{
    let n = state.inode();
    match (state.phase, reply) {
        (PhaseView::Root, ReplyView::Root(opened)) => {
            lemma_root_added_sound(ids, n, state.fs, opened);
            lemma_after_sound(all, ids, state, n.root_added(state.fs, opened));
        },
        (PhaseView::RootIdentity, ReplyView::Identity(named)) => {
            lemma_after_sound(all, ids, state, n.root_checked(state.fs, Some(named)));
        },
        (PhaseView::Identity(target, data), ReplyView::Identity(named)) => {
            lemma_checked_sound(ids, n, state.fs, target, data, named);
            lemma_after_sound(all, ids, state, n.checked(state.fs, target, data, Some(named)));
        },
        (PhaseView::OpenFile, ReplyView::File(Ok(file))) => {
            let step = state.handle().handle_added(state.fs, HandleDataFileView::File(file));
            lemma_resume_handles_keeps_inodes(state.handle_after(step));
        },
        (PhaseView::OpenFile, ReplyView::File(Err(_))) => {},
        (PhaseView::HandlePath(error), ReplyView::Path(path)) => {
            let next = state.handle_after(state.handle().open_failed(state.fs, path, error));
            if next.phase is Scan {
                lemma_resume_handles_keeps_inodes(next);
            }
        },
        (phase, reply) => {
            if let LookupView::Ended(target, lookup) = phase.answered(reply) {
                lemma_looked_up_sound(ids, n, state.fs, target, lookup);
                lemma_after_sound(all, ids, state, n.looked_up(state.fs, target, lookup));
            }
        },
    }
}

proof fn lemma_root_added_sound<F, H>(
    ids: Set<u64>,
    n: Inode,
    fs: FsView<F, H>,
    opened: Result<RootNode<F, H>, ErrorView>,
)
    requires
        none_invalid(fs.inodes, ids),
    ensures
        none_invalid(n.root_added(fs, opened).fs.inodes, ids),
{
}

proof fn lemma_run_sound<F, H>(
    plan: PassthroughFsV1,
    ids: Set<u64>,
    fs: FsView<F, H>,
    replies: Seq<ReplyView<F, H>>,
)
    requires
        plan.negotiated_opts.refusal(fs) is None,
        self_contained(plan.inodes@, ids),
        answers(plan.started(fs), replies),
        good_replies(plan.started(fs), replies, ids),
    ensures
        sound(plan.inodes@, ids, run(plan.started(fs), replies)),
    decreases replies.len(),
{
    if replies.len() == 0 {
        lemma_resume_sound(plan.inodes@, ids, plan.planned(plan.prepared(fs)));
    } else {
        lemma_run_sound(plan, ids, fs, replies.drop_last());
        lemma_in_order_run(plan, fs, replies.drop_last());
        let state = run(plan.started(fs), replies.drop_last());
        lemma_step_sound(plan.inodes@, ids, state, replies.last());
    }
}

/// An inode is invalid only for a reason, whatever is to be done about errors: the source has lost
/// it, a reply about it was an error, its handle is not the one on the source, or one of these holds
/// of a directory on its way to the root. Take any inodes of which none is lost and each is found
/// through one of them. If no reply about them is an error, and the handles that the host tells of
/// them are those on the source, then none of them is invalid at any point, whatever becomes of the
/// others.
pub proof fn law_inodes_are_invalid_for_a_reason<F, H>(
    plan: PassthroughFsV1,
    ids: Set<u64>,
    fs: FsView<F, H>,
    replies: Seq<ReplyView<F, H>>,
)
    requires
        plan.negotiated_opts.refusal(fs) is None,
        self_contained(plan.inodes@, ids),
        answers(plan.started(fs), replies),
        good_replies(plan.started(fs), replies, ids),
    ensures
        none_invalid(run(plan.started(fs), replies).fs.inodes, ids),
{
    lemma_run_sound(plan, ids, fs, replies);
}

/// With its reply `k` the host has told what opening the inode of the open file `h` of the source
/// has come to, and `file` is that: what it has opened, or an error.
pub open spec fn told_by_host<F, H>(
    start: RestoreView<F, H>,
    replies: Seq<ReplyView<F, H>>,
    k: int,
    h: int,
    file: HandleDataFileView<F>,
) -> bool {
    let asked = run(start, replies.take(k));
    &&& 0 <= k < replies.len()
    &&& asked.phase is OpenFile
    &&& asked.handles_done == h
    &&& match replies[k] {
        ReplyView::File(Ok(opened)) => file == HandleDataFileView::File(opened),
        ReplyView::File(Err(_)) => file is Invalid,
        _ => false,
    }
}

/// The open file `h` of the source has become `file`: what the host has told, or it is invalid
/// because its inode is.
#[verifier::opaque]
pub open spec fn explained<F, H>(
    start: RestoreView<F, H>,
    replies: Seq<ReplyView<F, H>>,
    inodes: Map<u64, InodeView<F, H>>,
    handles: Seq<Handle>,
    h: int,
    file: HandleDataFileView<F>,
) -> bool {
    if inodes[handles[h].inode].file_or_handle is Invalid {
        file is Invalid
    } else {
        exists|k: int| #[trigger] told_by_host(start, replies, k, h, file)
    }
}

/// `h` is the last of the first `done` open files with the number `id`.
pub open spec fn is_last(handles: Seq<Handle>, done: int, id: u64, h: int) -> bool {
    &&& 0 <= h < done
    &&& handles[h].id == id
    &&& forall|j: int| h < j < done ==> (#[trigger] handles[j]).id != id
}

/// Each of the first `done` open files has become what it should, unless a later one has its number.
pub open spec fn all_explained<F, H>(
    start: RestoreView<F, H>,
    replies: Seq<ReplyView<F, H>>,
    fs: FsView<F, H>,
    handles: Seq<Handle>,
    done: int,
) -> bool {
    forall|id: u64, h: int| #[trigger]
        is_last(handles, done, id, h) ==> {
            &&& fs.handles.contains_key(id)
            &&& explained(start, replies, fs.inodes, handles, h, fs.handles[id].file)
        }
}

/// Once it is the turn of the open files, those that are done are explained.
spec fn files_explained<F, H>(
    start: RestoreView<F, H>,
    replies: Seq<ReplyView<F, H>>,
    handles: Seq<Handle>,
    state: RestoreView<F, H>,
) -> bool {
    &&& state.handles == handles
    &&& match state.phase {
        PhaseView::OpenFile => all_explained(start, replies, state.fs, handles, state.handles_done),
        PhaseView::HandlePath(_) => {
            &&& all_explained(start, replies, state.fs, handles, state.handles_done)
            &&& replies.len() > 0
            &&& run(start, replies.drop_last()).phase is OpenFile
            &&& run(start, replies.drop_last()).handles_done == state.handles_done
            &&& replies.last() matches ReplyView::File(Err(_))
        },
        PhaseView::Finished(Ok(_)) => all_explained(
            start,
            replies,
            state.fs,
            handles,
            handles.len() as int,
        ),
        _ => true,
    }
}

/// One more open file is explained.
proof fn lemma_one_more_explained<F, H>(
    start: RestoreView<F, H>,
    replies: Seq<ReplyView<F, H>>,
    state: RestoreView<F, H>,
    file: HandleDataFileView<F>,
)
    requires
        0 <= state.handles_done < state.handles.len(),
        all_explained(start, replies, state.fs, state.handles, state.handles_done),
        explained(
            start,
            replies,
            state.fs.inodes,
            state.handles,
            state.handles_done,
            file,
        ),
    ensures
        ({
            let next = state.handle_after(state.handle().handle_added(state.fs, file));
            all_explained(start, replies, next.fs, state.handles, next.handles_done)
        }),
{
    let next = state.handle_after(state.handle().handle_added(state.fs, file));
    assert forall|id: u64, h: int| #[trigger]
        is_last(state.handles, next.handles_done, id, h) implies next.fs.handles.contains_key(id)
        && explained(
        start,
        replies,
        next.fs.inodes,
        state.handles,
        h,
        next.fs.handles[id].file,
    ) by {
        if h < state.handles_done {
            assert(state.handles[state.handles_done].id != id);
            assert(is_last(state.handles, state.handles_done, id, h));
        }
    }
}

proof fn lemma_explained_resume_handles<F, H>(
    start: RestoreView<F, H>,
    replies: Seq<ReplyView<F, H>>,
    state: RestoreView<F, H>,
)
    requires
        state.phase is Scan,
        0 <= state.handles_done <= state.handles.len(),
        all_explained(start, replies, state.fs, state.handles, state.handles_done),
    ensures
        files_explained(start, replies, state.handles, state.resume_handles()),
    decreases state.handles.len() - state.handles_done,
{
    if state.handles_done < state.handles.len() {
        let handle = state.handle();
        let next = state.handle_after(handle.first_step(state.fs));
        if next.phase is Scan {
            let error = state.fs.inodes[handle.inode].file_or_handle->Invalid_0;
            let file = HandleDataFileView::Invalid(
                handle.open_error(None, crate::error::invalid_inode_error(error)),
            );
            assert(explained(
                start,
                replies,
                state.fs.inodes,
                state.handles,
                state.handles_done,
                file,
            )) by {
                reveal(explained);
            }
            lemma_one_more_explained(start, replies, state, file);
            lemma_explained_resume_handles(start, replies, next);
        }
    }
}

proof fn lemma_explained_resume<F, H>(
    start: RestoreView<F, H>,
    replies: Seq<ReplyView<F, H>>,
    state: RestoreView<F, H>,
)
    requires
        state.phase is Scan,
        0 <= state.position <= state.inodes.len(),
    ensures
        files_explained(start, replies, state.handles, state.resume()),
    decreases state.inodes.len(),
{
    let position = crate::restore::next_ready(state.inodes, state.fs.inodes, state.position);
    if state.inodes.len() == 0 {
        reveal_with_fuel(RestoreView::resume, 1);
        lemma_explained_resume_handles(start, replies, state.with_inodes_done());
    } else if position >= state.inodes.len() {
        reveal_with_fuel(RestoreView::resume, 1);
    } else {
        let taken = RestoreView { position, ..state };
        let next = taken.after(taken.inode().first_step(taken.fs));
        crate::restore::lemma_resume_next(state, taken);
        if next.phase is Scan {
            lemma_explained_resume(start, replies, next);
        }
    }
}

proof fn lemma_explained_after<F, H>(
    start: RestoreView<F, H>,
    replies: Seq<ReplyView<F, H>>,
    state: RestoreView<F, H>,
    step: StepView<F, H>,
)
    requires
        0 <= state.position < state.inodes.len(),
    ensures
        files_explained(start, replies, state.handles, state.after(step).resumed()),
{
    let next = state.after(step);
    if next.phase is Scan {
        lemma_explained_resume(start, replies, next);
    }
}

/// What is explained is explained after another reply too.
proof fn lemma_explained_one_more_reply<F, H>(
    start: RestoreView<F, H>,
    replies: Seq<ReplyView<F, H>>,
    fs: FsView<F, H>,
    handles: Seq<Handle>,
    done: int,
)
    requires
        replies.len() > 0,
        all_explained(start, replies.drop_last(), fs, handles, done),
    ensures
        all_explained(start, replies, fs, handles, done),
{
    let fewer = replies.drop_last();
    assert forall|id: u64, h: int| #[trigger] is_last(handles, done, id, h) implies {
        &&& fs.handles.contains_key(id)
        &&& explained(start, replies, fs.inodes, handles, h, fs.handles[id].file)
    } by {
        reveal(explained);
        let file = fs.handles[id].file;
        if !(fs.inodes[handles[h].inode].file_or_handle is Invalid) {
            let k = choose|k: int| #[trigger] told_by_host(start, fewer, k, h, file);
            assert(fewer.take(k) =~= replies.take(k));
            assert(told_by_host(start, replies, k, h, file));
        }
    }
}

/// The host has told of the current open file with its reply `k`.
proof fn lemma_told<F, H>(
    start: RestoreView<F, H>,
    replies: Seq<ReplyView<F, H>>,
    k: int,
    state: RestoreView<F, H>,
    file: HandleDataFileView<F>,
)
    requires
        told_by_host(start, replies, k, state.handles_done, file),
        !(state.fs.inodes[state.handle().inode].file_or_handle is Invalid),
    ensures
        explained(start, replies, state.fs.inodes, state.handles, state.handles_done, file),
{
    reveal(explained);
}

proof fn lemma_explained_step<F, H>(
    start: RestoreView<F, H>,
    replies: Seq<ReplyView<F, H>>,
    handles: Seq<Handle>,
)
    requires
        replies.len() > 0,
        ({
            let state = run(start, replies.drop_last());
            &&& in_order(state)
            &&& state.expects(replies.last())
            &&& files_explained(start, replies.drop_last(), handles, state)
        }),
    ensures
        files_explained(start, replies, handles, run(start, replies)),
{
    let state = run(start, replies.drop_last());
    let n = state.inode();
    let last = replies.len() - 1;
    assert(replies.take(last) =~= replies.drop_last());
    if state.on_handle() {
        lemma_explained_one_more_reply(start, replies, state.fs, handles, state.handles_done);
    }
    match (state.phase, replies.last()) {
        (PhaseView::Root, ReplyView::Root(opened)) => {
            lemma_explained_after(start, replies, state, n.root_added(state.fs, opened));
        },
        (PhaseView::RootIdentity, ReplyView::Identity(named)) => {
            lemma_explained_after(start, replies, state, n.root_checked(state.fs, Some(named)));
        },
        (PhaseView::Identity(target, data), ReplyView::Identity(named)) => {
            let step = n.checked(state.fs, target, data, Some(named));
            lemma_explained_after(start, replies, state, step);
        },
        (PhaseView::OpenFile, ReplyView::File(Ok(opened))) => {
            let file = HandleDataFileView::File(opened);
            assert(told_by_host(start, replies, last, state.handles_done, file));
            lemma_told(start, replies, last, state, file);
            lemma_one_more_explained(start, replies, state, file);
            let step = state.handle().handle_added(state.fs, file);
            lemma_explained_resume_handles(start, replies, state.handle_after(step));
        },
        (PhaseView::OpenFile, ReplyView::File(Err(_))) => {},
        (PhaseView::HandlePath(error), ReplyView::Path(path)) => {
            let file = HandleDataFileView::<F>::Invalid(state.handle().open_error(path, error));
            let fewer = replies.drop_last();
            assert(replies.take(last - 1) =~= fewer.drop_last());
            assert(replies[last - 1] == fewer.last());
            assert(told_by_host(start, replies, last - 1, state.handles_done, file));
            lemma_told(start, replies, last - 1, state, file);
            lemma_one_more_explained(start, replies, state, file);
            let next = state.handle_after(state.handle().open_failed(state.fs, path, error));
            if next.phase is Scan {
                lemma_explained_resume_handles(start, replies, next);
            }
        },
        (phase, reply) => {
            if let LookupView::Ended(target, lookup) = phase.answered(reply) {
                let step = n.looked_up(state.fs, target, lookup);
                lemma_explained_after(start, replies, state, step);
            }
        },
    }
}

proof fn lemma_explained_run<F, H>(
    plan: PassthroughFsV1,
    fs: FsView<F, H>,
    replies: Seq<ReplyView<F, H>>,
)
    requires
        plan.negotiated_opts.refusal(fs) is None,
        answers(plan.started(fs), replies),
    ensures
        files_explained(plan.started(fs), replies, plan.handles@, run(plan.started(fs), replies)),
    decreases replies.len(),
{
    let start = plan.started(fs);
    if replies.len() == 0 {
        lemma_explained_resume(start, replies, plan.planned(plan.prepared(fs)));
    } else {
        lemma_explained_run(plan, fs, replies.drop_last());
        lemma_in_order_run(plan, fs, replies.drop_last());
        lemma_explained_step(start, replies, plan.handles@);
    }
}

/// What has become of each open file after success, whatever is to be done about errors. Of those
/// with one number the last counts. If its inode is invalid, so is it. If not, the host was asked to
/// open the inode for it: what the host has opened is there, and only if the host replied with an
/// error is it invalid.
pub proof fn law_open_files_are_invalid_for_a_reason<F, H>(
    plan: PassthroughFsV1,
    fs: FsView<F, H>,
    replies: Seq<ReplyView<F, H>>,
    h: int,
)
    requires
        answers(plan.started(fs), replies),
        run(plan.started(fs), replies).phase == PhaseView::<F, H>::Finished(Ok(())),
        0 <= h < plan.handles@.len(),
        forall|j: int|
            h < j < plan.handles@.len() ==> (#[trigger] plan.handles@[j]).id != plan.handles@[h].id,
    ensures
        ({
            let start = plan.started(fs);
            let end = run(start, replies).fs;
            let handle = plan.handles@[h];
            &&& end.handles.contains_key(handle.id)
            &&& if end.inodes[handle.inode].file_or_handle is Invalid {
                end.handles[handle.id].file is Invalid
            } else {
                exists|k: int| #[trigger]
                    told_by_host(start, replies, k, h, end.handles[handle.id].file)
            }
        }),
{
    super::lemma_not_refused(plan, fs, replies);
    lemma_explained_run(plan, fs, replies);
    assert(is_last(plan.handles@, plan.handles@.len() as int, plan.handles@[h].id, h));
    reveal(explained);
}

/// What is the same of an inode in two states, whatever references there are.
pub open spec fn same_inode<F, H>(a: InodeView<F, H>, b: InodeView<F, H>) -> bool {
    &&& a.inode == b.inode
    &&& a.file_or_handle == b.file_or_handle
    &&& a.ids == b.ids
    &&& a.mode == b.mode
    &&& a.migration_info == b.migration_info
}

proof fn lemma_first_step_keeps<F, H>(n: Inode, fs: FsView<F, H>, id: u64)
    requires
        !n.blocked(fs.inodes),
    ensures
        ({
            let after = n.first_step(fs).fs.inodes;
            &&& n.id != id && after.contains_key(id) ==> fs.inodes.contains_key(id) && same_inode(
                after[id],
                fs.inodes[id],
            )
            &&& fs.inodes.contains_key(id) && !(fs.inodes[id].file_or_handle is Invalid) ==> {
                &&& after.contains_key(id)
                &&& same_inode(after[id], fs.inodes[id])
                &&& id != ROOT_ID ==> after[id].refcount == fs.inodes[id].refcount
            }
        }),
{
    reveal(Inode::looked_up);
}

/// What is done without the host leaves an inode as it is that is not invalid.
proof fn lemma_resume_keeps_valid<F, H>(state: RestoreView<F, H>, id: u64)
    requires
        state.phase is Scan,
        0 <= state.position <= state.inodes.len(),
        0 <= state.handles_done <= state.handles.len(),
        state.fs.inodes.contains_key(id),
        !(state.fs.inodes[id].file_or_handle is Invalid),
    ensures
        ({
            let after = state.resume().fs.inodes;
            &&& after.contains_key(id)
            &&& same_inode(after[id], state.fs.inodes[id])
            &&& id != ROOT_ID ==> after[id].refcount == state.fs.inodes[id].refcount
        }),
    decreases state.inodes.len(),
{
    let position = crate::restore::next_ready(state.inodes, state.fs.inodes, state.position);
    if state.inodes.len() == 0 {
        reveal_with_fuel(RestoreView::resume, 1);
        lemma_resume_handles_keeps_inodes(state.with_inodes_done());
    } else if position >= state.inodes.len() {
        reveal_with_fuel(RestoreView::resume, 1);
    } else {
        let taken = RestoreView { position, ..state };
        let next = taken.after(taken.inode().first_step(taken.fs));
        crate::restore::lemma_resume_next(state, taken);
        lemma_first_step_keeps(taken.inode(), taken.fs, id);
        if next.phase is Scan {
            lemma_resume_keeps_valid(next, id);
        }
    }
}

/// An inode that the host has found is there at once, as the host has found it, whatever is to be
/// done about errors: once the host has said that it makes no file handle for the file, the inode
/// holds that very file; once it has made the handle fit to be opened, that very handle. This is for
/// an inode that has nothing to check, and whose number is not in use.
pub proof fn law_found_inode_is_there<F, H>(
    state: RestoreView<F, H>,
    target: TargetView,
    node: Node<F, H>,
    stat: crate::passthrough::Stat,
    reply: ReplyView<F, H>,
)
    requires
        in_order(state),
        match node {
            Node::File(file) => {
                &&& state.phase == PhaseView::<F, H>::FileHandle(target, file, stat)
                &&& reply == ReplyView::<F, H>::FileHandle(Ok(None))
                &&& !target.checked || state.inode().file_handle is None
            },
            Node::Handle(held) => {
                &&& state.phase == PhaseView::<F, H>::Openable(target, stat, held.handle)
                &&& reply == ReplyView::<F, H>::Openable(Ok(held.mount))
                &&& !target.checked || agrees(state.inode(), held.handle)
            },
        },
        !state.fs.inodes.contains_key(state.inode().id),
    ensures
        ({
            let n = state.inode();
            let after = state.step(reply).fs.inodes;
            &&& after.contains_key(n.id)
            &&& after[n.id] == InodeView {
                inode: n.id,
                file_or_handle: match node {
                    Node::File(file) => crate::passthrough::FileOrHandleView::File(file),
                    Node::Handle(held) => crate::passthrough::FileOrHandleView::Handle(held),
                },
                refcount: n.refcount,
                ids: stat.ids,
                mode: stat.mode,
                migration_info: None,
            }
        }),
{
    let n = state.inode();
    let lookup = PathLookupView::Found { node, stat };
    let step = n.looked_up(state.fs, target, lookup);
    if let Node::Handle(held) = node {
        if target.checked {
            lemma_agrees(n, held.handle);
        }
    }
    assert(step.result == Ok::<ProgressView<F, H>, ErrorView>(ProgressView::Restored)) by {
        reveal(Inode::looked_up);
    }
    assert(step.fs.inodes.contains_key(n.id) && step.fs.inodes[n.id] == InodeView {
        inode: n.id,
        file_or_handle: node.held(),
        refcount: n.refcount,
        ids: stat.ids,
        mode: stat.mode,
        migration_info: None,
    }) by {
        reveal(Inode::looked_up);
    }
    lemma_resume_keeps_valid(state.after(step), n.id);
    assert(state.step(reply) == state.looked_up(target, lookup));
}

/// The same of an inode whose file handle the host had to tell: if it is the one on the source, the
/// inode is there at once as it was found.
pub proof fn law_identified_inode_is_there<F, H>(
    state: RestoreView<F, H>,
    target: TargetView,
    data: InodeView<F, H>,
    actual: SerializableFileHandle,
)
    requires
        in_order(state),
        state.phase == PhaseView::Identity(target, data),
        agrees(state.inode(), actual),
        !state.fs.inodes.contains_key(state.inode().id),
    ensures
        ({
            let after = state.step(ReplyView::Identity(Ok(actual))).fs.inodes;
            &&& after.contains_key(state.inode().id)
            &&& same_inode(after[state.inode().id], data)
            &&& state.inode().id != ROOT_ID ==> after[state.inode().id] == data
        }),
{
    let n = state.inode();
    let step = n.checked(state.fs, target, data, Some(Ok(actual)));
    lemma_agrees(n, actual);
    lemma_resume_keeps_valid(state.after(step), n.id);
}

/// No inode that is left has the number `id`, but for the root while its handle is asked for.
pub open spec fn settled_number<F, H>(state: RestoreView<F, H>, id: u64) -> bool {
    forall|j: int|
        0 <= j < state.inodes.len() && (#[trigger] state.inodes[j]).id == id ==> state.phase is RootIdentity
            && j == state.position
}

proof fn lemma_resume_keeps<F, H>(state: RestoreView<F, H>, id: u64)
    requires
        state.phase is Scan,
        0 <= state.position <= state.inodes.len(),
        0 <= state.handles_done <= state.handles.len(),
        forall|j: int| 0 <= j < state.inodes.len() ==> (#[trigger] state.inodes[j]).id != id,
    ensures
        state.resume().fs.inodes.contains_key(id) ==> state.fs.inodes.contains_key(id)
            && same_inode(state.resume().fs.inodes[id], state.fs.inodes[id]),
    decreases state.inodes.len(),
{
    let position = crate::restore::next_ready(state.inodes, state.fs.inodes, state.position);
    if state.inodes.len() == 0 {
        reveal_with_fuel(RestoreView::resume, 1);
        lemma_resume_handles_keeps_inodes(state.with_inodes_done());
    } else if position >= state.inodes.len() {
        reveal_with_fuel(RestoreView::resume, 1);
    } else {
        let taken = RestoreView { position, ..state };
        let next = taken.after(taken.inode().first_step(taken.fs));
        crate::restore::lemma_resume_next(state, taken);
        lemma_first_step_keeps(taken.inode(), taken.fs, id);
        if next.phase is Scan {
            lemma_resume_keeps(next, id);
        }
    }
}

proof fn lemma_looked_up_keeps<F, H>(
    n: Inode,
    fs: FsView<F, H>,
    target: TargetView,
    lookup: PathLookupView<F, H>,
    id: u64,
)
    requires
        n.id != id,
    ensures
        n.looked_up(fs, target, lookup).fs.inodes.contains_key(id) ==> fs.inodes.contains_key(id)
            && same_inode(n.looked_up(fs, target, lookup).fs.inodes[id], fs.inodes[id]),
{
    reveal(Inode::looked_up);
}

proof fn lemma_after_keeps<F, H>(state: RestoreView<F, H>, step: StepView<F, H>, id: u64)
    requires
        0 <= state.position < state.inodes.len(),
        0 <= state.handles_done <= state.handles.len(),
        forall|j: int|
            0 <= j < state.inodes.len() && j != state.position ==> (#[trigger] state.inodes[j]).id
                != id,
        state.inode().id == id ==> !(step.result matches Ok(ProgressView::Deferred)),
    ensures
        state.after(step).resumed().fs.inodes.contains_key(id) ==> step.fs.inodes.contains_key(id)
            && same_inode(state.after(step).resumed().fs.inodes[id], step.fs.inodes[id]),
{
    let next = state.after(step);
    if next.phase is Scan {
        lemma_resume_keeps(next, id);
    }
}

/// An inode that has been added does not change while it is there, but for its references: no reply
/// makes another file of it, or makes it invalid.
pub proof fn law_inodes_stay_what_they_are<F, H>(
    state: RestoreView<F, H>,
    reply: ReplyView<F, H>,
    id: u64,
)
    requires
        in_order(state),
        state.expects(reply),
        settled_number(state, id),
    ensures
        state.step(reply).fs.inodes.contains_key(id) ==> state.fs.inodes.contains_key(id)
            && same_inode(state.step(reply).fs.inodes[id], state.fs.inodes[id]),
{
    let n = state.inode();
    match (state.phase, reply) {
        (PhaseView::Root, ReplyView::Root(opened)) => {
            assert(state.inodes[state.position].id != id);
            lemma_after_keeps(state, n.root_added(state.fs, opened), id);
        },
        (PhaseView::RootIdentity, ReplyView::Identity(named)) => {
            lemma_after_keeps(state, n.root_checked(state.fs, Some(named)), id);
        },
        (PhaseView::Identity(target, data), ReplyView::Identity(named)) => {
            assert(state.inodes[state.position].id != id);
            lemma_after_keeps(state, n.checked(state.fs, target, data, Some(named)), id);
        },
        (PhaseView::OpenFile, ReplyView::File(Ok(file))) => {
            let step = state.handle().handle_added(state.fs, HandleDataFileView::File(file));
            lemma_resume_handles_keeps_inodes(state.handle_after(step));
        },
        (PhaseView::OpenFile, ReplyView::File(Err(_))) => {},
        (PhaseView::HandlePath(error), ReplyView::Path(path)) => {
            let next = state.handle_after(state.handle().open_failed(state.fs, path, error));
            if next.phase is Scan {
                lemma_resume_handles_keeps_inodes(next);
            }
        },
        (phase, reply) => {
            if let LookupView::Ended(target, lookup) = phase.answered(reply) {
                assert(state.inodes[state.position].id != id);
                lemma_looked_up_keeps(n, state.fs, target, lookup, id);
                lemma_after_keeps(state, n.looked_up(state.fs, target, lookup), id);
            }
        },
    }
}

/// A file that the host has opened for an open file is in the handle map at once, whatever is to be
/// done about errors, if no later open file has its number.
pub proof fn law_opened_file_is_there<F, H>(state: RestoreView<F, H>, file: F)
    requires
        in_order(state),
        state.phase is OpenFile,
        forall|j: int|
            state.handles_done < j < state.handles.len() ==> (#[trigger] state.handles[j]).id
                != state.handles[state.handles_done].id,
    ensures
        ({
            let handle = state.handles[state.handles_done];
            let after = state.step(ReplyView::File(Ok(file))).fs.handles;
            &&& after.contains_key(handle.id)
            &&& after[handle.id].file == HandleDataFileView::File(file)
            &&& after[handle.id].inode == handle.inode
        }),
{
    let handle = state.handle();
    let step = handle.handle_added(state.fs, HandleDataFileView::File(file));
    lemma_resume_handles_keeps_file(state.handle_after(step), handle.id);
}

proof fn lemma_resume_handles_keeps_file<F, H>(state: RestoreView<F, H>, id: u64)
    requires
        state.phase is Scan,
        0 <= state.handles_done <= state.handles.len(),
        state.fs.handles.contains_key(id),
        forall|j: int|
            state.handles_done <= j < state.handles.len() ==> (#[trigger] state.handles[j]).id
                != id,
    ensures
        state.resume_handles().fs.handles.contains_key(id),
        state.resume_handles().fs.handles[id] == state.fs.handles[id],
    decreases state.handles.len() - state.handles_done,
{
    if state.handles_done < state.handles.len() {
        assert(state.handle() == state.handles[state.handles_done]);
        let next = state.handle_after(state.handle().first_step(state.fs));
        if next.phase is Scan {
            lemma_resume_handles_keeps_file(next, id);
        }
    }
}

} // verus!
