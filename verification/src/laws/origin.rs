//! Where the files of a restored file system come from.

use vstd::prelude::*;

use super::progress::{in_order, lemma_in_order_run};
use super::run::{answers, run};
use crate::deserialization::{PathLookupView, ProgressView, RootNode, StepView, TargetView};
use crate::error::ErrorView;
use crate::file_handle::SerializableFileHandle;
use crate::passthrough::{
    FileOrHandleView, FsView, HandleDataFileView, HandleView, InodeIds, InodeView,
    OpenableFileHandle, ROOT_ID,
};
use crate::restore::{
    lemma_next_ready, next_ready, LookupView, PhaseView, ReplyView, RestoreView,
};
use crate::serialized::{Inode, PassthroughFsV1};

verus! {

/// The host was asked for the inode `id` with its reply `k`, and what it replied from there on makes
/// the inode so. It opened a file and told about it; if it then made a file handle for the file, the
/// inode is held by that handle, or else by the file.
pub open spec fn looked_up_at<F, H>(
    start: RestoreView<F, H>,
    replies: Seq<ReplyView<F, H>>,
    k: int,
    id: u64,
    held: FileOrHandleView<F, H>,
    ids: InodeIds,
    mode: u32,
) -> bool {
    let asked = run(start, replies.take(k));
    &&& 0 <= k < replies.len() - 2
    &&& asked.phase is Open
    &&& asked.inode().id == id
    &&& replies[k] matches ReplyView::Opened(Ok(file))
    &&& replies[k + 1] matches ReplyView::Stat(Ok(stat))
    &&& stat.ids == ids
    &&& stat.mode == mode
    &&& match replies[k + 2] {
        ReplyView::FileHandle(Ok(None)) => held == FileOrHandleView::<F, H>::File(file),
        ReplyView::FileHandle(Ok(Some(handle))) => {
            &&& k + 3 < replies.len()
            &&& replies[k + 3] matches ReplyView::Openable(Ok(mount))
            &&& held == FileOrHandleView::<F, H>::Handle(OpenableFileHandle { handle, mount })
        },
        _ => false,
    }
}

/// The host was asked for the root with its reply `k`, and the reply makes the root so.
pub open spec fn root_opened_at<F, H>(
    start: RestoreView<F, H>,
    replies: Seq<ReplyView<F, H>>,
    k: int,
    held: FileOrHandleView<F, H>,
    ids: InodeIds,
    mode: u32,
) -> bool {
    &&& 0 <= k < replies.len()
    &&& run(start, replies.take(k)).phase is Root
    &&& replies[k] matches ReplyView::Root(Ok(root))
    &&& held == root.node.held()
    &&& ids == root.stat.ids
    &&& mode == root.stat.mode
}

/// An inode is so because the host said so.
#[verifier::opaque]
pub open spec fn from_host<F, H>(
    start: RestoreView<F, H>,
    replies: Seq<ReplyView<F, H>>,
    id: u64,
    held: FileOrHandleView<F, H>,
    ids: InodeIds,
    mode: u32,
) -> bool {
    ||| exists|k: int| #[trigger] looked_up_at(start, replies, k, id, held, ids, mode)
    ||| id == ROOT_ID && exists|k: int| #[trigger]
        root_opened_at(start, replies, k, held, ids, mode)
}

/// The host was asked to open the inode of the open file `id` with its reply `k`, and has opened
/// `file`.
pub open spec fn file_opened_at<F, H>(
    start: RestoreView<F, H>,
    replies: Seq<ReplyView<F, H>>,
    k: int,
    id: u64,
    file: F,
) -> bool {
    let asked = run(start, replies.take(k));
    &&& 0 <= k < replies.len()
    &&& asked.phase is OpenFile
    &&& asked.handle().id == id
    &&& replies[k] == ReplyView::<F, H>::File(Ok(file))
}

/// The host has opened `file` when it was asked to open the inode of the open file `id`.
#[verifier::opaque]
pub open spec fn opened_by_host<F, H>(
    start: RestoreView<F, H>,
    replies: Seq<ReplyView<F, H>>,
    id: u64,
    file: F,
) -> bool {
    exists|k: int| #[trigger] file_opened_at(start, replies, k, id, file)
}

/// An inode that is not invalid is as the host said.
pub open spec fn inode_traced<F, H>(
    start: RestoreView<F, H>,
    replies: Seq<ReplyView<F, H>>,
    data: InodeView<F, H>,
) -> bool {
    data.file_or_handle is Invalid || from_host(
        start,
        replies,
        data.inode,
        data.file_or_handle,
        data.ids,
        data.mode,
    )
}

/// All inodes that are not invalid are as the host said.
pub open spec fn inodes_traced<F, H>(
    start: RestoreView<F, H>,
    replies: Seq<ReplyView<F, H>>,
    inodes: Map<u64, InodeView<F, H>>,
) -> bool {
    forall|id: u64| #[trigger]
        inodes.contains_key(id) ==> inode_traced(start, replies, inodes[id])
}

/// All open files that are not invalid are what the host has opened for them.
pub open spec fn handles_traced<F, H>(
    start: RestoreView<F, H>,
    replies: Seq<ReplyView<F, H>>,
    handles: Map<u64, HandleView<F>>,
) -> bool {
    forall|id: u64| #[trigger]
        handles.contains_key(id) ==> (handles[id].file matches HandleDataFileView::File(file)
            ==> opened_by_host(start, replies, id, file))
}

/// Once it is the turn of the open files, those that are not invalid are what the host has opened.
spec fn open_files_traced<F, H>(
    start: RestoreView<F, H>,
    replies: Seq<ReplyView<F, H>>,
    state: RestoreView<F, H>,
) -> bool {
    state.on_handle() || state.phase == PhaseView::<F, H>::Finished(Ok(())) ==> handles_traced(
        start,
        replies,
        state.fs.handles,
    )
}

/// The host was asked for the current inode `ago` replies ago, and has opened a file.
spec fn opened_ago<F, H>(
    start: RestoreView<F, H>,
    replies: Seq<ReplyView<F, H>>,
    ago: int,
    state: RestoreView<F, H>,
) -> bool {
    let asked = run(start, replies.take(replies.len() - ago));
    &&& ago <= replies.len()
    &&& asked.phase is Open
    &&& asked.inode().id == state.inode().id
    &&& replies[replies.len() - ago] matches ReplyView::Opened(Ok(_))
}

/// What the current lookup holds is what the last replies have been.
spec fn phase_traced<F, H>(
    start: RestoreView<F, H>,
    replies: Seq<ReplyView<F, H>>,
    state: RestoreView<F, H>,
) -> bool {
    match state.phase {
        PhaseView::Stat(_, file) => {
            &&& opened_ago(start, replies, 1, state)
            &&& replies[replies.len() - 1] == ReplyView::<F, H>::Opened(Ok(file))
        },
        PhaseView::FileHandle(_, file, stat) => {
            &&& opened_ago(start, replies, 2, state)
            &&& replies[replies.len() - 2] == ReplyView::<F, H>::Opened(Ok(file))
            &&& replies[replies.len() - 1] == ReplyView::<F, H>::Stat(Ok(stat))
        },
        PhaseView::Openable(_, stat, handle) => {
            &&& opened_ago(start, replies, 3, state)
            &&& replies[replies.len() - 2] == ReplyView::<F, H>::Stat(Ok(stat))
            &&& replies[replies.len() - 1] == ReplyView::<F, H>::FileHandle(Ok(Some(handle)))
        },
        PhaseView::Identity(_, data) => inode_traced(start, replies, data),
        _ => true,
    }
}

/// Everything is as the host said.
spec fn traced<F, H>(
    start: RestoreView<F, H>,
    replies: Seq<ReplyView<F, H>>,
    state: RestoreView<F, H>,
) -> bool {
    &&& inodes_traced(start, replies, state.fs.inodes)
    &&& open_files_traced(start, replies, state)
    &&& phase_traced(start, replies, state)
}

proof fn lemma_looked_up_at_one_more<F, H>(
    start: RestoreView<F, H>,
    replies: Seq<ReplyView<F, H>>,
    k: int,
    id: u64,
    held: FileOrHandleView<F, H>,
    ids: InodeIds,
    mode: u32,
)
    requires
        replies.len() > 0,
        looked_up_at(start, replies.drop_last(), k, id, held, ids, mode),
    ensures
        looked_up_at(start, replies, k, id, held, ids, mode),
{
    assert(replies.drop_last().take(k) =~= replies.take(k));
    assert(replies.drop_last()[k] == replies[k]);
    assert(replies.drop_last()[k + 1] == replies[k + 1]);
    assert(replies.drop_last()[k + 2] == replies[k + 2]);
}

/// What the host has said, it has said after another reply too.
proof fn lemma_one_more_reply<F, H>(
    start: RestoreView<F, H>,
    replies: Seq<ReplyView<F, H>>,
    data: InodeView<F, H>,
)
    requires
        replies.len() > 0,
        inode_traced(start, replies.drop_last(), data),
    ensures
        inode_traced(start, replies, data),
{
    reveal(from_host);
    let fewer = replies.drop_last();
    let (id, held, ids, mode) = (data.inode, data.file_or_handle, data.ids, data.mode);
    if !(held is Invalid) {
        if exists|k: int| #[trigger] looked_up_at(start, fewer, k, id, held, ids, mode) {
            let k = choose|k: int| #[trigger] looked_up_at(start, fewer, k, id, held, ids, mode);
            lemma_looked_up_at_one_more(start, replies, k, id, held, ids, mode);
        } else {
            let k = choose|k: int| #[trigger] root_opened_at(start, fewer, k, held, ids, mode);
            assert(fewer.take(k) =~= replies.take(k));
            assert(root_opened_at(start, replies, k, held, ids, mode));
        }
    }
}

proof fn lemma_inodes_one_more_reply<F, H>(
    start: RestoreView<F, H>,
    replies: Seq<ReplyView<F, H>>,
    inodes: Map<u64, InodeView<F, H>>,
)
    requires
        replies.len() > 0,
        inodes_traced(start, replies.drop_last(), inodes),
    ensures
        inodes_traced(start, replies, inodes),
{
    assert forall|id: u64| #[trigger] inodes.contains_key(id) implies inode_traced(
        start,
        replies,
        inodes[id],
    ) by {
        lemma_one_more_reply(start, replies, inodes[id]);
    }
}

proof fn lemma_handles_one_more_reply<F, H>(
    start: RestoreView<F, H>,
    replies: Seq<ReplyView<F, H>>,
    handles: Map<u64, HandleView<F>>,
)
    requires
        replies.len() > 0,
        handles_traced(start, replies.drop_last(), handles),
    ensures
        handles_traced(start, replies, handles),
{
    reveal(opened_by_host);
    let fewer = replies.drop_last();
    assert forall|id: u64| #[trigger] handles.contains_key(id) implies (
    handles[id].file matches HandleDataFileView::File(file) ==> opened_by_host(
        start,
        replies,
        id,
        file,
    )) by {
        if let HandleDataFileView::File(file) = handles[id].file {
            let k = choose|k: int| #[trigger] file_opened_at(start, fewer, k, id, file);
            assert(fewer.take(k) =~= replies.take(k));
            assert(file_opened_at(start, replies, k, id, file));
        }
    }
}

proof fn lemma_first_step_traced<F, H>(
    start: RestoreView<F, H>,
    replies: Seq<ReplyView<F, H>>,
    inode: Inode,
    fs: FsView<F, H>,
)
    requires
        inodes_traced(start, replies, fs.inodes),
    ensures
        inodes_traced(start, replies, inode.first_step(fs).fs.inodes),
        !(inode.first_step(fs).result matches Ok(ProgressView::Identify(_, _))),
{
    reveal(Inode::looked_up);
}

proof fn lemma_looked_up_traced<F, H>(
    start: RestoreView<F, H>,
    replies: Seq<ReplyView<F, H>>,
    inode: Inode,
    fs: FsView<F, H>,
    target: TargetView,
    lookup: PathLookupView<F, H>,
)
    requires
        inodes_traced(start, replies, fs.inodes),
        lookup matches PathLookupView::Found { node, stat } ==> from_host(
            start,
            replies,
            inode.id,
            node.held(),
            stat.ids,
            stat.mode,
        ),
    ensures
        inodes_traced(start, replies, inode.looked_up(fs, target, lookup).fs.inodes),
        inode.looked_up(fs, target, lookup).result matches Ok(ProgressView::Identify(_, data))
            ==> inode_traced(start, replies, data),
{
    reveal(Inode::looked_up);
}

proof fn lemma_checked_traced<F, H>(
    start: RestoreView<F, H>,
    replies: Seq<ReplyView<F, H>>,
    inode: Inode,
    fs: FsView<F, H>,
    target: TargetView,
    data: InodeView<F, H>,
    named: Result<SerializableFileHandle, ErrorView>,
)
    requires
        inodes_traced(start, replies, fs.inodes),
        inode_traced(start, replies, data),
    ensures
        inodes_traced(
            start,
            replies,
            inode.checked(fs, target, data, Some(named)).fs.inodes,
        ),
        !(inode.checked(fs, target, data, Some(named)).result matches Ok(
            ProgressView::Identify(_, _),
        )),
{
}

proof fn lemma_root_added_traced<F, H>(
    start: RestoreView<F, H>,
    replies: Seq<ReplyView<F, H>>,
    inode: Inode,
    fs: FsView<F, H>,
    opened: Result<RootNode<F, H>, ErrorView>,
)
    requires
        inodes_traced(start, replies, fs.inodes),
        opened matches Ok(root) ==> from_host(
            start,
            replies,
            ROOT_ID,
            root.node.held(),
            root.stat.ids,
            root.stat.mode,
        ),
    ensures
        inodes_traced(start, replies, inode.root_added(fs, opened).fs.inodes),
{
}

proof fn lemma_resume_handles_traced<F, H>(
    start: RestoreView<F, H>,
    replies: Seq<ReplyView<F, H>>,
    state: RestoreView<F, H>,
)
    requires
        state.phase is Scan,
        0 <= state.handles_done <= state.handles.len(),
        inodes_traced(start, replies, state.fs.inodes),
        handles_traced(start, replies, state.fs.handles),
    ensures
        traced(start, replies, state.resume_handles()),
    decreases state.handles.len() - state.handles_done,
{
    if state.handles_done < state.handles.len() {
        let next = state.handle_after(state.handle().first_step(state.fs));
        if next.phase is Scan {
            lemma_resume_handles_traced(start, replies, next);
        }
    }
}

proof fn lemma_resume_traced<F, H>(
    start: RestoreView<F, H>,
    replies: Seq<ReplyView<F, H>>,
    state: RestoreView<F, H>,
)
    requires
        state.phase is Scan,
        0 <= state.position <= state.inodes.len(),
        inodes_traced(start, replies, state.fs.inodes),
    ensures
        traced(start, replies, state.resume()),
    decreases state.inodes.len(),
{
    reveal_with_fuel(RestoreView::resume, 1);
    if state.inodes.len() == 0 {
        lemma_resume_handles_traced(start, replies, state.with_inodes_done());
    } else {
        let position = next_ready(state.inodes, state.fs.inodes, state.position);
        lemma_next_ready(state.inodes, state.fs.inodes, state.position);
        if position < state.inodes.len() {
            let taken = RestoreView { position, ..state };
            lemma_first_step_traced(start, replies, taken.inode(), taken.fs);
            let next = taken.after(taken.inode().first_step(taken.fs));
            if next.phase is Scan && next.inodes.len() < state.inodes.len() {
                lemma_resume_traced(start, replies, next);
            }
        }
    }
}

proof fn lemma_after_traced<F, H>(
    start: RestoreView<F, H>,
    replies: Seq<ReplyView<F, H>>,
    state: RestoreView<F, H>,
    step: StepView<F, H>,
)
    requires
        0 <= state.position < state.inodes.len(),
        inodes_traced(start, replies, step.fs.inodes),
        step.result matches Ok(ProgressView::Identify(_, data)) ==> inode_traced(
            start,
            replies,
            data,
        ),
    ensures
        traced(start, replies, state.after(step).resumed()),
{
    let next = state.after(step);
    if next.phase is Scan {
        lemma_resume_traced(start, replies, next);
    }
}

/// The end of a lookup that has found its inode.
proof fn lemma_found<F, H>(
    start: RestoreView<F, H>,
    replies: Seq<ReplyView<F, H>>,
    target: TargetView,
    lookup: PathLookupView<F, H>,
)
    requires
        replies.len() > 0,
        ({
            let state = run(start, replies.drop_last());
            &&& phase_traced(start, replies.drop_last(), state)
            &&& state.phase.answered(replies.last()) == LookupView::Ended(target, lookup)
        }),
    ensures
        lookup matches PathLookupView::Found { node, stat } ==> from_host(
            start,
            replies,
            run(start, replies.drop_last()).inode().id,
            node.held(),
            stat.ids,
            stat.mode,
        ),
{
    let fewer = replies.drop_last();
    let id = run(start, fewer).inode().id;
    if let PathLookupView::Found { node, stat } = lookup {
        let k = if node is File {
            replies.len() - 3
        } else {
            replies.len() - 4
        };
        assert(fewer.take(k) =~= replies.take(k));
        assert(looked_up_at(start, replies, k, id, node.held(), stat.ids, stat.mode));
        reveal(from_host);
    }
}

/// A lookup that goes on.
proof fn lemma_waiting_traced<F, H>(
    start: RestoreView<F, H>,
    replies: Seq<ReplyView<F, H>>,
    phase: PhaseView<F, H>,
)
    requires
        replies.len() > 0,
        ({
            let state = run(start, replies.drop_last());
            &&& phase_traced(start, replies.drop_last(), state)
            &&& state.expects(replies.last())
            &&& state.phase.answered(replies.last()) == LookupView::Waiting(phase)
            &&& !(state.phase is Root || state.phase is RootIdentity || state.phase is Identity)
            &&& !state.on_handle()
        }),
    ensures
        phase_traced(
            start,
            replies,
            RestoreView { phase, ..run(start, replies.drop_last()) },
        ),
        !(phase is Finished),
        !(phase is OpenFile),
        !(phase is HandlePath),
{
    let fewer = replies.drop_last();
    let len = replies.len() as int;
    assert(replies.take(len - 1) =~= fewer);
    if len >= 2 {
        assert(replies.take(len - 2) =~= fewer.take(fewer.len() - 1));
    }
    if len >= 3 {
        assert(replies.take(len - 3) =~= fewer.take(fewer.len() - 2));
    }
}

/// The host has opened the inode of the current open file.
proof fn lemma_file_opened_traced<F, H>(
    start: RestoreView<F, H>,
    replies: Seq<ReplyView<F, H>>,
    file: F,
)
    requires
        replies.len() > 0,
        replies.last() == ReplyView::<F, H>::File(Ok(file)),
        ({
            let state = run(start, replies.drop_last());
            &&& state.valid()
            &&& state.phase is OpenFile
            &&& inodes_traced(start, replies, state.fs.inodes)
            &&& handles_traced(start, replies, state.fs.handles)
        }),
    ensures
        traced(start, replies, run(start, replies.drop_last()).file_opened(file)),
{
    let state = run(start, replies.drop_last());
    let handle = state.handle();
    let next = state.handle_after(
        handle.handle_added(state.fs, HandleDataFileView::File(file)),
    );
    assert(replies.take(replies.len() - 1) =~= replies.drop_last());
    assert(opened_by_host(start, replies, handle.id, file)) by {
        reveal(opened_by_host);
        assert(file_opened_at(start, replies, replies.len() - 1, handle.id, file));
    }
    assert(handles_traced(start, replies, next.fs.handles));
    lemma_resume_handles_traced(start, replies, next);
}

/// The host has opened the root.
proof fn lemma_root_from_host<F, H>(
    start: RestoreView<F, H>,
    replies: Seq<ReplyView<F, H>>,
    opened: Result<RootNode<F, H>, ErrorView>,
)
    requires
        replies.len() > 0,
        replies.last() == ReplyView::Root(opened),
        run(start, replies.drop_last()).phase is Root,
    ensures
        opened matches Ok(root) ==> from_host(
            start,
            replies,
            ROOT_ID,
            root.node.held(),
            root.stat.ids,
            root.stat.mode,
        ),
{
    if let Ok(root) = opened {
        let k = replies.len() - 1;
        let held = root.node.held();
        assert(replies.take(k) =~= replies.drop_last());
        assert(root_opened_at(start, replies, k, held, root.stat.ids, root.stat.mode));
        reveal(from_host);
    }
}

/// After another reply everything is still as the host said.
proof fn lemma_step_traced<F, H>(start: RestoreView<F, H>, replies: Seq<ReplyView<F, H>>)
    requires
        replies.len() > 0,
        ({
            let state = run(start, replies.drop_last());
            &&& in_order(state)
            &&& state.expects(replies.last())
            &&& traced(start, replies.drop_last(), state)
        }),
    ensures
        traced(start, replies, run(start, replies)),
{
    let state = run(start, replies.drop_last());
    let n = state.inode();
    lemma_inodes_one_more_reply(start, replies, state.fs.inodes);
    if state.on_handle() {
        lemma_handles_one_more_reply(start, replies, state.fs.handles);
    }
    match (state.phase, replies.last()) {
        (PhaseView::Root, ReplyView::Root(opened)) => {
            lemma_root_from_host(start, replies, opened);
            lemma_root_added_traced(start, replies, n, state.fs, opened);
            lemma_after_traced(start, replies, state, n.root_added(state.fs, opened));
        },
        (PhaseView::RootIdentity, ReplyView::Identity(named)) => {
            lemma_after_traced(start, replies, state, n.root_checked(state.fs, Some(named)));
        },
        (PhaseView::Identity(target, data), ReplyView::Identity(named)) => {
            lemma_one_more_reply(start, replies, data);
            lemma_checked_traced(start, replies, n, state.fs, target, data, named);
            let step = n.checked(state.fs, target, data, Some(named));
            lemma_after_traced(start, replies, state, step);
        },
        (PhaseView::OpenFile, ReplyView::File(Ok(file))) => {
            lemma_file_opened_traced(start, replies, file);
        },
        (PhaseView::OpenFile, ReplyView::File(Err(_))) => {},
        (PhaseView::HandlePath(error), ReplyView::Path(path)) => {
            let next = state.handle_after(state.handle().open_failed(state.fs, path, error));
            if next.phase is Scan {
                lemma_resume_handles_traced(start, replies, next);
            }
        },
        (phase, reply) => match phase.answered(reply) {
            LookupView::Ended(target, lookup) => {
                lemma_found(start, replies, target, lookup);
                lemma_looked_up_traced(start, replies, n, state.fs, target, lookup);
                let step = n.looked_up(state.fs, target, lookup);
                lemma_after_traced(start, replies, state, step);
            },
            LookupView::Waiting(phase) => {
                lemma_waiting_traced(start, replies, phase);
            },
        },
    }
}

proof fn lemma_run_traced<F, H>(
    plan: PassthroughFsV1,
    fs: FsView<F, H>,
    replies: Seq<ReplyView<F, H>>,
)
    requires
        plan.negotiated_opts.refusal(fs) is None,
        answers(plan.started(fs), replies),
    ensures
        traced(plan.started(fs), replies, run(plan.started(fs), replies)),
    decreases replies.len(),
{
    let start = plan.started(fs);
    if replies.len() == 0 {
        lemma_resume_traced(start, replies, plan.planned(plan.prepared(fs)));
    } else {
        lemma_run_traced(plan, fs, replies.drop_last());
        lemma_in_order_run(plan, fs, replies.drop_last());
        lemma_step_traced(start, replies);
    }
}

/// At every point of a restore whose options are not refused, an inode that is not invalid is what
/// the host has opened when it was asked for that very inode, with the status that the host has
/// told; it is held by the file handle that the host has made for it, or else open. The same holds
/// of open files, from the first that is restored to the end.
pub proof fn law_files_come_from_the_host<F, H>(
    plan: PassthroughFsV1,
    fs: FsView<F, H>,
    replies: Seq<ReplyView<F, H>>,
)
    requires
        plan.negotiated_opts.refusal(fs) is None,
        answers(plan.started(fs), replies),
    ensures
        ({
            let start = plan.started(fs);
            let state = run(start, replies);
            &&& inodes_traced(start, replies, state.fs.inodes)
            &&& state.on_handle() || state.phase == PhaseView::<F, H>::Finished(Ok(()))
                ==> handles_traced(start, replies, state.fs.handles)
        }),
{
    lemma_run_traced(plan, fs, replies);
}

} // verus!
