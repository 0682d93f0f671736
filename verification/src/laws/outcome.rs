//! When restores go on, when they fail, and what holds of their inodes and open files on the way.

use vstd::prelude::*;

use super::books::{books, children, known, lemma_children_swap_removed, promised, stays};
use super::run::{
    answers, handles_right, inodes_right, lemma_after_identity, lemma_after_looked_up,
    lemma_after_root, lemma_after_root_identity, lemma_handle_added, lemma_run, lemma_take, right,
    run,
};
use crate::deserialization::{
    unresolved_error, PathLookupView, ProgressView, RootNode, StepView, TargetView,
};
use crate::error::ErrorView;
use crate::file_handle::SerializableFileHandle;
use crate::passthrough::{FsView, HandleDataFileView, InodeView, Node, ROOT_ID};
use crate::restore::{
    lemma_next_ready, lemma_started_valid, lemma_step_valid, next_ready, LookupView, PhaseView,
    ReplyView, RestoreView,
};
use crate::serialized::{Inode, InodeLocation, PassthroughFsV1};

verus! {

/// Every inode can be got at: what it is found through is among the inodes too, and has a lower
/// rank. The root stays there for whatever is found below it by a path.
pub open spec fn grounded(inodes: Seq<Inode>, rank: spec_fn(u64) -> nat) -> bool {
    forall|i: int|
        0 <= i < inodes.len() ==> match (#[trigger] inodes[i]).location {
            InodeLocation::Path { parent, .. } => known(inodes, parent) && rank(parent) < rank(
                inodes[i].id,
            ),
            InodeLocation::FullPath { .. } => {
                &&& rank(ROOT_ID) < rank(inodes[i].id)
                &&& exists|j: int|
                    0 <= j < inodes.len() && (#[trigger] inodes[j]).id == ROOT_ID && stays(
                        inodes,
                        inodes[j],
                    )
            },
            _ => true,
        }
}

/// An inode of lowest rank.
proof fn lemma_lowest(inodes: Seq<Inode>, rank: spec_fn(u64) -> nat) -> (lowest: int)
    requires
        inodes.len() > 0,
    ensures
        0 <= lowest < inodes.len(),
        forall|j: int|
            0 <= j < inodes.len() ==> rank(inodes[lowest].id) <= rank((#[trigger] inodes[j]).id),
    decreases inodes.len(),
{
    let last = inodes.len() - 1;
    if last == 0 {
        0
    } else {
        let lowest = lemma_lowest(inodes.drop_last(), rank);
        assert forall|j: int| 0 <= j < last implies rank(inodes[lowest].id) <= rank(
            (#[trigger] inodes[j]).id,
        ) by {
            assert(inodes.drop_last()[j] == inodes[j]);
        }
        if rank(inodes[last].id) < rank(inodes[lowest].id) {
            last
        } else {
            lowest
        }
    }
}

/// The directory of an inode that has not been restored is there, unless it has not been restored
/// either.
proof fn lemma_directory_there<F, H>(
    all: Seq<Inode>,
    inodes: Seq<Inode>,
    present: Map<u64, InodeView<F, H>>,
    k: int,
    directory: Inode,
)
    requires
        promised(all),
        books(all, inodes, inodes, present, 0),
        all.contains(directory),
        !inodes.contains(directory),
        0 <= k < inodes.len(),
        inodes[k].child_of(directory.id) || stays(all, directory),
    ensures
        present.contains_key(directory.id),
{
    let i = choose|i: int| 0 <= i < all.len() && all[i] == directory;
    assert(all[i].refcount >= children(all, all[i].id));
    assert(children(inodes, directory.id) <= children(all, directory.id));
    if inodes[k].child_of(directory.id) {
        lemma_children_swap_removed(inodes, k, directory.id);
    }
}

/// While inodes are left, one of them can be restored.
pub(super) proof fn lemma_some_ready<F, H>(
    plan: PassthroughFsV1,
    rank: spec_fn(u64) -> nat,
    before: FsView<F, H>,
    state: RestoreView<F, H>,
)
    requires
        promised(plan.inodes@),
        grounded(plan.inodes@, rank),
        state.phase is Scan,
        inodes_right(plan, before, state),
        state.inodes.len() > 0,
    ensures
        next_ready(state.inodes, state.fs.inodes, state.position) < state.inodes.len(),
{
    let all = plan.inodes@;
    let k = lemma_lowest(state.inodes, rank);
    let n = state.inodes[k];
    lemma_next_ready(state.inodes, state.fs.inodes, state.position);
    if n.blocked(state.fs.inodes) {
        assert(state.inodes.contains(n));
        let i = choose|i: int| 0 <= i < all.len() && all[i] == n;
        assert(grounded(all, rank));
        assert(all[i].location == n.location);
        let parent = match n.location {
            InodeLocation::Path { parent, .. } => parent,
            _ => ROOT_ID,
        };
        let d = if n.location is Path {
            choose|d: int| 0 <= d < all.len() && (#[trigger] all[d]).id == parent
        } else {
            choose|d: int|
                0 <= d < all.len() && (#[trigger] all[d]).id == ROOT_ID && stays(all, all[d])
        };
        let directory = all[d];
        assert(all.contains(directory));
        if state.inodes.contains(directory) {
            let j = choose|j: int| 0 <= j < state.inodes.len() && state.inodes[j] == directory;
            assert(rank(n.id) <= rank(state.inodes[j].id));
        } else {
            lemma_directory_there(all, state.inodes, state.fs.inodes, k, directory);
        }
    }
}

/// The state names its root, and only its root, as the root node, and every open file has an inode
/// that stays.
pub open spec fn complete(plan: PassthroughFsV1) -> bool {
    let inodes = plan.inodes@;
    &&& forall|i: int|
        0 <= i < inodes.len() ==> ((#[trigger] inodes[i]).location is RootNode <==> inodes[i].id
            == ROOT_ID)
    &&& forall|h: int|
        0 <= h < plan.handles@.len() ==> exists|i: int|
            0 <= i < inodes.len() && (#[trigger] inodes[i]).id == (#[trigger] plan.handles@[h]).inode
                && stays(inodes, inodes[i])
}

/// The restore has failed.
spec fn failed<F, H>(state: RestoreView<F, H>) -> bool {
    state.phase matches PhaseView::Finished(Err(_))
}

proof fn lemma_first_step_goes_on<F, H>(inode: Inode, fs: FsView<F, H>)
    requires
        fs.cfg.migration_on_error is GuestError,
        inode.location is RootNode <==> inode.id == ROOT_ID,
        !fs.inodes.contains_key(inode.id),
    ensures
        inode.first_step(fs).result is Ok,
{
    reveal(Inode::looked_up);
}

proof fn lemma_looked_up_goes_on<F, H>(
    inode: Inode,
    fs: FsView<F, H>,
    target: TargetView,
    lookup: PathLookupView<F, H>,
)
    requires
        fs.cfg.migration_on_error is GuestError,
        !fs.inodes.contains_key(inode.id),
    ensures
        inode.looked_up(fs, target, lookup).result is Ok,
{
    reveal(Inode::looked_up);
}

proof fn lemma_checked_goes_on<F, H>(
    inode: Inode,
    fs: FsView<F, H>,
    target: TargetView,
    data: InodeView<F, H>,
    named: Result<SerializableFileHandle, ErrorView>,
)
    requires
        fs.cfg.migration_on_error is GuestError,
        !fs.inodes.contains_key(inode.id),
        inode.fits(data),
    ensures
        inode.checked(fs, target, data, Some(named)).result is Ok,
{
}

proof fn lemma_handles_go_on<F, H>(
    plan: PassthroughFsV1,
    before: FsView<F, H>,
    state: RestoreView<F, H>,
)
    requires
        complete(plan),
        before.cfg.migration_on_error is GuestError,
        state.phase is Scan,
        handles_right(plan, before, state),
    ensures
        !failed(state.resume_handles()),
    decreases state.handles.len() - state.handles_done,
{
    if state.handles_done < state.handles.len() {
        let handle = state.handle();
        let all = plan.inodes@;
        let none = Seq::<Inode>::empty();
        assert(plan.handles@[state.handles_done] == handle);
        let i = choose|i: int|
            0 <= i < all.len() && (#[trigger] all[i]).id == handle.inode && stays(all, all[i]);
        assert(all.contains(all[i]));
        assert(!none.contains(all[i]));
        assert(children(none, all[i].id) == 0);
        let next = state.handle_after(handle.first_step(state.fs));
        if next.phase is Scan {
            let error = state.fs.inodes[handle.inode].file_or_handle->Invalid_0;
            lemma_handle_added(
                plan,
                before,
                state,
                HandleDataFileView::Invalid(
                    handle.open_error(None, crate::error::invalid_inode_error(error)),
                ),
            );
            lemma_handles_go_on(plan, before, next);
        }
    }
}

proof fn lemma_goes_on<F, H>(
    plan: PassthroughFsV1,
    rank: spec_fn(u64) -> nat,
    before: FsView<F, H>,
    state: RestoreView<F, H>,
)
    requires
        promised(plan.inodes@),
        grounded(plan.inodes@, rank),
        complete(plan),
        before.cfg.migration_on_error is GuestError,
        state.phase is Scan,
        inodes_right(plan, before, state),
    ensures
        !failed(state.resume()),
    decreases state.inodes.len(),
{
    reveal_with_fuel(RestoreView::resume, 1);
    if state.inodes.len() == 0 {
        let start = state.with_inodes_done();
        assert(state.inodes =~= Seq::empty());
        let summary = |data: crate::passthrough::HandleView<F>| (data.inode, data.migration_info);
        assert(start.fs.handles.map_values(summary) =~= Map::empty());
        lemma_handles_go_on(plan, before, start);
    } else {
        lemma_some_ready(plan, rank, before, state);
        let position = next_ready(state.inodes, state.fs.inodes, state.position);
        lemma_next_ready(state.inodes, state.fs.inodes, state.position);
        let taken = RestoreView { position, ..state };
        let n = taken.inode();
        assert(state.inodes.contains(n));
        let i = choose|i: int| 0 <= i < plan.inodes@.len() && plan.inodes@[i] == n;
        assert(plan.inodes@[i].location is RootNode <==> plan.inodes@[i].id == ROOT_ID);
        lemma_first_step_goes_on(n, taken.fs);
        lemma_take(plan, before, taken);
        let next = taken.after(n.first_step(taken.fs));
        if next.phase is Scan && next.inodes.len() < state.inodes.len() {
            lemma_goes_on(plan, rank, before, next);
        }
    }
}

/// The root node could not be opened, or is another one than on the source.
pub open spec fn root_refused<F, H>(state: RestoreView<F, H>, reply: ReplyView<F, H>) -> bool {
    match (state.phase, reply) {
        (PhaseView::Root, ReplyView::Root(opened)) => state.inode().root_added(
            state.fs,
            opened,
        ).result is Err,
        (PhaseView::RootIdentity, ReplyView::Identity(named)) => state.inode().root_checked(
            state.fs,
            Some(named),
        ).result is Err,
        _ => false,
    }
}

proof fn lemma_resumed_goes_on<F, H>(
    plan: PassthroughFsV1,
    rank: spec_fn(u64) -> nat,
    before: FsView<F, H>,
    next: RestoreView<F, H>,
)
    requires
        promised(plan.inodes@),
        grounded(plan.inodes@, rank),
        complete(plan),
        before.cfg.migration_on_error is GuestError,
        right(plan, before, next),
        !failed(next),
    ensures
        !failed(next.resumed()),
{
    if next.phase is Scan {
        lemma_goes_on(plan, rank, before, next);
    }
}

proof fn lemma_step_goes_on<F, H>(
    plan: PassthroughFsV1,
    rank: spec_fn(u64) -> nat,
    before: FsView<F, H>,
    state: RestoreView<F, H>,
    reply: ReplyView<F, H>,
)
    requires
        promised(plan.inodes@),
        grounded(plan.inodes@, rank),
        complete(plan),
        before.cfg.migration_on_error is GuestError,
        state.valid(),
        state.expects(reply),
        right(plan, before, state),
    ensures
        failed(state.step(reply)) ==> root_refused(state, reply),
{
    let n = state.inode();
    if state.on_inode() && !(state.phase is RootIdentity) {
        assert(state.inodes.contains(n));
        assert(!state.fs.inodes.contains_key(n.id));
    }
    match (state.phase, reply) {
        (PhaseView::Root, ReplyView::Root(opened)) => {
            if !root_refused(state, reply) {
                lemma_after_root(plan, before, state, opened);
                lemma_resumed_goes_on(
                    plan,
                    rank,
                    before,
                    state.after(n.root_added(state.fs, opened)),
                );
            }
        },
        (PhaseView::RootIdentity, ReplyView::Identity(named)) => {
            if !root_refused(state, reply) {
                lemma_after_root_identity(plan, before, state, named);
                lemma_resumed_goes_on(
                    plan,
                    rank,
                    before,
                    state.after(n.root_checked(state.fs, Some(named))),
                );
            }
        },
        (PhaseView::Identity(target, data), ReplyView::Identity(named)) => {
            lemma_after_identity(plan, before, state, target, data, named);
            lemma_checked_goes_on(n, state.fs, target, data, named);
            lemma_resumed_goes_on(
                plan,
                rank,
                before,
                state.after(n.checked(state.fs, target, data, Some(named))),
            );
        },
        (PhaseView::OpenFile, ReplyView::File(Ok(file))) => {
            let file = HandleDataFileView::File(file);
            lemma_handle_added(plan, before, state, file);
            lemma_handles_go_on(
                plan,
                before,
                state.handle_after(state.handle().handle_added(state.fs, file)),
            );
        },
        (PhaseView::OpenFile, ReplyView::File(Err(_))) => {},
        (PhaseView::HandlePath(error), ReplyView::Path(path)) => {
            let file = HandleDataFileView::Invalid(state.handle().open_error(path, error));
            lemma_handle_added(plan, before, state, file);
            lemma_handles_go_on(
                plan,
                before,
                state.handle_after(state.handle().handle_added(state.fs, file)),
            );
        },
        (phase, reply) => {
            if let LookupView::Ended(target, lookup) = phase.answered(reply) {
                lemma_after_looked_up(plan, before, state, target, lookup);
                lemma_looked_up_goes_on(n, state.fs, target, lookup);
                lemma_resumed_goes_on(
                    plan,
                    rank,
                    before,
                    state.after(n.looked_up(state.fs, target, lookup)),
                );
            }
        },
    }
}

/// Where the guest is to have the errors, a restore of a sound state goes on, whatever the host
/// replies: it does not fail at its start, unless its options are refused, and no reply makes it
/// fail, unless the root node cannot be opened or is another one. In particular it is never stuck
/// with inodes that wait for others.
pub proof fn law_guest_error_goes_on<F, H>(
    plan: PassthroughFsV1,
    rank: spec_fn(u64) -> nat,
    fs: FsView<F, H>,
    replies: Seq<ReplyView<F, H>>,
    reply: ReplyView<F, H>,
)
    requires
        promised(plan.inodes@),
        grounded(plan.inodes@, rank),
        complete(plan),
        fs.cfg.migration_on_error is GuestError,
        answers(plan.started(fs), replies),
    ensures
        plan.started(fs).phase matches PhaseView::Finished(Err(_))
            ==> plan.negotiated_opts.refusal(fs) is Some,
        ({
            let state = run(plan.started(fs), replies);
            state.expects(reply) && (state.step(reply).phase matches PhaseView::Finished(Err(_)))
                ==> root_refused(state, reply)
        }),
{
    let before = plan.prepared(fs);
    let state = run(plan.started(fs), replies);
    lemma_run(plan, fs, replies);
    if plan.negotiated_opts.refusal(fs) is None {
        let start = plan.planned(before);
        lemma_goes_on(plan, rank, before, start);
    }
    if state.expects(reply) {
        lemma_step_goes_on(plan, rank, before, state, reply);
    }
}

/// The restore has ended with inodes left, none of which could be taken up.
pub open spec fn stuck<F, H>(state: RestoreView<F, H>) -> bool {
    state.phase is Finished && 0 < state.inodes.len() == state.position
}

/// When all inodes that are left wait for others, the restore fails, and says so.
pub proof fn law_waiting_inodes_are_refused<F, H>(state: RestoreView<F, H>)
    requires
        state.phase is Scan,
        0 <= state.position <= state.inodes.len(),
        state.inodes.len() > 0,
        forall|j: int|
            0 <= j < state.inodes.len() ==> (#[trigger] state.inodes[j]).blocked(state.fs.inodes),
    ensures
        state.resume().phase == PhaseView::<F, H>::Finished(Err(unresolved_error())),
        state.resume().fs == state.fs,
        stuck(state.resume()),
{
    reveal_with_fuel(RestoreView::resume, 1);
    lemma_next_ready(state.inodes, state.fs.inodes, state.position);
}

proof fn lemma_handles_not_stuck<F, H>(state: RestoreView<F, H>)
    requires
        state.inodes.len() == 0,
        0 <= state.handles_done <= state.handles.len(),
    ensures
        !stuck(state.resume_handles()),
    decreases state.handles.len() - state.handles_done,
{
    if state.handles_done < state.handles.len() {
        let next = state.handle_after(state.handle().first_step(state.fs));
        if next.phase is Scan {
            lemma_handles_not_stuck(next);
        }
    }
}

proof fn lemma_resume_not_stuck<F, H>(
    plan: PassthroughFsV1,
    rank: spec_fn(u64) -> nat,
    before: FsView<F, H>,
    state: RestoreView<F, H>,
)
    requires
        promised(plan.inodes@),
        grounded(plan.inodes@, rank),
        state.phase is Scan,
        inodes_right(plan, before, state),
    ensures
        !stuck(state.resume()),
    decreases state.inodes.len(),
{
    reveal_with_fuel(RestoreView::resume, 1);
    if state.inodes.len() == 0 {
        lemma_handles_not_stuck(state.with_inodes_done());
    } else {
        lemma_some_ready(plan, rank, before, state);
        let position = next_ready(state.inodes, state.fs.inodes, state.position);
        lemma_next_ready(state.inodes, state.fs.inodes, state.position);
        let taken = RestoreView { position, ..state };
        lemma_take(plan, before, taken);
        let next = taken.after(taken.inode().first_step(taken.fs));
        if next.phase is Scan && next.inodes.len() < state.inodes.len() {
            lemma_resume_not_stuck(plan, rank, before, next);
        }
    }
}

proof fn lemma_after_not_stuck<F, H>(
    plan: PassthroughFsV1,
    rank: spec_fn(u64) -> nat,
    before: FsView<F, H>,
    state: RestoreView<F, H>,
    step: StepView<F, H>,
)
    requires
        promised(plan.inodes@),
        grounded(plan.inodes@, rank),
        0 <= state.position < state.inodes.len(),
        right(plan, before, state.after(step)),
    ensures
        !stuck(state.after(step).resumed()),
{
    let next = state.after(step);
    if next.phase is Scan {
        lemma_resume_not_stuck(plan, rank, before, next);
    }
}

proof fn lemma_step_not_stuck<F, H>(
    plan: PassthroughFsV1,
    rank: spec_fn(u64) -> nat,
    before: FsView<F, H>,
    state: RestoreView<F, H>,
    reply: ReplyView<F, H>,
)
    requires
        promised(plan.inodes@),
        grounded(plan.inodes@, rank),
        state.valid(),
        state.expects(reply),
        right(plan, before, state),
    ensures
        !stuck(state.step(reply)),
{
    let n = state.inode();
    match (state.phase, reply) {
        (PhaseView::Root, ReplyView::Root(opened)) => {
            lemma_after_root(plan, before, state, opened);
            lemma_after_not_stuck(plan, rank, before, state, n.root_added(state.fs, opened));
        },
        (PhaseView::RootIdentity, ReplyView::Identity(named)) => {
            lemma_after_root_identity(plan, before, state, named);
            let step = n.root_checked(state.fs, Some(named));
            lemma_after_not_stuck(plan, rank, before, state, step);
        },
        (PhaseView::Identity(target, data), ReplyView::Identity(named)) => {
            lemma_after_identity(plan, before, state, target, data, named);
            let step = n.checked(state.fs, target, data, Some(named));
            lemma_after_not_stuck(plan, rank, before, state, step);
        },
        (PhaseView::OpenFile, ReplyView::File(Ok(file))) => {
            let step = state.handle().handle_added(state.fs, HandleDataFileView::File(file));
            lemma_handles_not_stuck(state.handle_after(step));
        },
        (PhaseView::OpenFile, ReplyView::File(Err(_))) => {},
        (PhaseView::HandlePath(error), ReplyView::Path(path)) => {
            let next = state.handle_after(state.handle().open_failed(state.fs, path, error));
            if next.phase is Scan {
                lemma_handles_not_stuck(next);
            }
        },
        (phase, reply) => {
            if let LookupView::Ended(target, lookup) = phase.answered(reply) {
                lemma_after_looked_up(plan, before, state, target, lookup);
                let step = n.looked_up(state.fs, target, lookup);
                lemma_after_not_stuck(plan, rank, before, state, step);
            }
        },
    }
}

/// A restore of inodes that can all be got at never fails for want of a directory, in whatever
/// order the inodes are given and whatever the host replies.
pub proof fn law_never_stuck<F, H>(
    plan: PassthroughFsV1,
    rank: spec_fn(u64) -> nat,
    fs: FsView<F, H>,
    replies: Seq<ReplyView<F, H>>,
)
    requires
        promised(plan.inodes@),
        grounded(plan.inodes@, rank),
        answers(plan.started(fs), replies),
    ensures
        !stuck(run(plan.started(fs), replies)),
{
    let before = plan.prepared(fs);
    if replies.len() > 0 {
        lemma_run(plan, fs, replies.drop_last());
        lemma_step_not_stuck(
            plan,
            rank,
            before,
            run(plan.started(fs), replies.drop_last()),
            replies.last(),
        );
    } else if plan.negotiated_opts.refusal(fs) is None {
        let start = plan.planned(before);
        lemma_resume_not_stuck(plan, rank, before, start);
    }
}

/// A root node whose file handle is not the one that it has on the source makes the restore fail,
/// whatever the configuration says of errors: be it held by its handle, or be it that the host has
/// told its handle.
pub proof fn law_another_root_is_refused<F, H>(
    state: RestoreView<F, H>,
    root: RootNode<F, H>,
    actual: SerializableFileHandle,
)
    requires
        state.valid(),
        state.inode().file_handle is Some,
        !actual.same_file(state.inode().file_handle->0),
    ensures
        state.phase is RootIdentity ==> state.step(ReplyView::Identity(Ok(actual))).phase
            == PhaseView::<F, H>::Finished(state.inode().comparison(actual)),
        state.phase is Root && !state.fs.inodes.contains_key(ROOT_ID) && (root.node matches Node::Handle(
            handle,
        ) && handle.handle == actual) ==> state.step(ReplyView::Root(Ok(root))).phase
            == PhaseView::<F, H>::Finished(state.inode().comparison(actual)),
        state.inode().comparison(actual) is Err,
{
}

/// Every inode is filed under its own number, and is valid where errors abort the migration.
pub open spec fn tidy_inodes<F, H>(fs: FsView<F, H>) -> bool {
    &&& fs.inodes_filed()
    &&& fs.cfg.migration_on_error is Abort ==> forall|id: u64| #[trigger]
        fs.inodes.contains_key(id) ==> !(fs.inodes[id].file_or_handle is Invalid)
}

/// Every open file is valid where errors abort the migration.
pub open spec fn tidy_handles<F, H>(fs: FsView<F, H>) -> bool {
    fs.cfg.migration_on_error is Abort ==> forall|id: u64| #[trigger]
        fs.handles.contains_key(id) ==> !(fs.handles[id].file is Invalid)
}

/// The inodes are tidy, and the open files are once it is their turn.
pub open spec fn tidy<F, H>(state: RestoreView<F, H>) -> bool {
    &&& tidy_inodes(state.fs)
    &&& state.on_handle() || state.phase == PhaseView::<F, H>::Finished(Ok(())) ==> tidy_handles(
        state.fs,
    )
}

proof fn lemma_tidy_first_step<F, H>(inode: Inode, fs: FsView<F, H>)
    requires
        tidy_inodes(fs),
    ensures
        tidy_inodes(inode.first_step(fs).fs),
{
    reveal(Inode::looked_up);
}

proof fn lemma_tidy_looked_up<F, H>(
    inode: Inode,
    fs: FsView<F, H>,
    target: TargetView,
    lookup: PathLookupView<F, H>,
)
    requires
        tidy_inodes(fs),
    ensures
        tidy_inodes(inode.looked_up(fs, target, lookup).fs),
{
    reveal(Inode::looked_up);
}

proof fn lemma_tidy_checked<F, H>(
    inode: Inode,
    fs: FsView<F, H>,
    target: TargetView,
    data: InodeView<F, H>,
    named: Result<SerializableFileHandle, ErrorView>,
)
    requires
        tidy_inodes(fs),
        data.file_or_handle is File,
    ensures
        tidy_inodes(inode.checked(fs, target, data, Some(named)).fs),
{
}

proof fn lemma_tidy_root_added<F, H>(
    inode: Inode,
    fs: FsView<F, H>,
    opened: Result<RootNode<F, H>, ErrorView>,
)
    requires
        tidy_inodes(fs),
    ensures
        tidy_inodes(inode.root_added(fs, opened).fs),
{
}

proof fn lemma_tidy_resume_handles<F, H>(state: RestoreView<F, H>)
    requires
        0 <= state.handles_done <= state.handles.len(),
        tidy_inodes(state.fs),
        tidy_handles(state.fs),
    ensures
        tidy(state.resume_handles()),
    decreases state.handles.len() - state.handles_done,
{
    if state.handles_done < state.handles.len() {
        let next = state.handle_after(state.handle().first_step(state.fs));
        if next.phase is Scan {
            lemma_tidy_resume_handles(next);
        }
    }
}

proof fn lemma_tidy_resume<F, H>(state: RestoreView<F, H>)
    requires
        0 <= state.position <= state.inodes.len(),
        state.phase is Scan,
        tidy_inodes(state.fs),
    ensures
        tidy(state.resume()),
    decreases state.inodes.len(),
{
    reveal_with_fuel(RestoreView::resume, 1);
    if state.inodes.len() == 0 {
        lemma_tidy_resume_handles(state.with_inodes_done());
    } else {
        let position = next_ready(state.inodes, state.fs.inodes, state.position);
        lemma_next_ready(state.inodes, state.fs.inodes, state.position);
        if position < state.inodes.len() {
            let taken = RestoreView { position, ..state };
            lemma_tidy_first_step(taken.inode(), taken.fs);
            let next = taken.after(taken.inode().first_step(taken.fs));
            if next.phase is Scan && next.inodes.len() < state.inodes.len() {
                lemma_tidy_resume(next);
            }
        }
    }
}

proof fn lemma_tidy_after<F, H>(state: RestoreView<F, H>, step: StepView<F, H>)
    requires
        0 <= state.position < state.inodes.len(),
        tidy_inodes(step.fs),
        !(step.result matches Ok(ProgressView::Deferred)),
    ensures
        tidy(state.after(step).resumed()),
{
    let next = state.after(step);
    if next.phase is Scan {
        lemma_tidy_resume(next);
    }
}

proof fn lemma_tidy_step<F, H>(state: RestoreView<F, H>, reply: ReplyView<F, H>)
    requires
        state.valid(),
        state.expects(reply),
        tidy(state),
    ensures
        tidy(state.step(reply)),
{
    let n = state.inode();
    match (state.phase, reply) {
        (PhaseView::Root, ReplyView::Root(opened)) => {
            lemma_tidy_root_added(n, state.fs, opened);
            lemma_tidy_after(state, n.root_added(state.fs, opened));
        },
        (PhaseView::RootIdentity, ReplyView::Identity(named)) => {
            lemma_tidy_after(state, n.root_checked(state.fs, Some(named)));
        },
        (PhaseView::Identity(target, data), ReplyView::Identity(named)) => {
            lemma_tidy_checked(n, state.fs, target, data, named);
            lemma_tidy_after(state, n.checked(state.fs, target, data, Some(named)));
        },
        (PhaseView::OpenFile, ReplyView::File(Ok(file))) => {
            let step = state.handle().handle_added(state.fs, HandleDataFileView::File(file));
            lemma_tidy_resume_handles(state.handle_after(step));
        },
        (PhaseView::OpenFile, ReplyView::File(Err(_))) => {},
        (PhaseView::HandlePath(error), ReplyView::Path(path)) => {
            let next = state.handle_after(state.handle().open_failed(state.fs, path, error));
            if next.phase is Scan {
                lemma_tidy_resume_handles(next);
            }
        },
        (phase, reply) => {
            if let LookupView::Ended(target, lookup) = phase.answered(reply) {
                crate::restore::lemma_only_first_step_defers(n, state.fs, target, lookup);
                lemma_tidy_looked_up(n, state.fs, target, lookup);
                lemma_tidy_after(state, n.looked_up(state.fs, target, lookup));
            }
        },
    }
}

/// At every point of a restore whose options are not refused, every inode is filed under its own
/// number. Where errors abort the migration, no inode is ever invalid, and no open file is from the
/// first that is restored to the end: what could not be restored has made the restore fail.
pub proof fn law_tidy<F, H>(
    plan: PassthroughFsV1,
    fs: FsView<F, H>,
    replies: Seq<ReplyView<F, H>>,
)
    requires
        plan.negotiated_opts.refusal(fs) is None,
        answers(plan.started(fs), replies),
    ensures
        tidy(run(plan.started(fs), replies)),
    decreases replies.len(),
{
    if replies.len() == 0 {
        let start = plan.planned(plan.prepared(fs));
        lemma_tidy_resume(start);
    } else {
        let state = run(plan.started(fs), replies.drop_last());
        law_tidy(plan, fs, replies.drop_last());
        lemma_run_valid(plan, fs, replies.drop_last());
        lemma_tidy_step(state, replies.last());
    }
}

proof fn lemma_run_valid<F, H>(
    plan: PassthroughFsV1,
    fs: FsView<F, H>,
    replies: Seq<ReplyView<F, H>>,
)
    requires
        answers(plan.started(fs), replies),
    ensures
        run(plan.started(fs), replies).valid(),
    decreases replies.len(),
{
    lemma_started_valid(plan, fs);
    if replies.len() > 0 {
        lemma_run_valid(plan, fs, replies.drop_last());
        lemma_step_valid(run(plan.started(fs), replies.drop_last()), replies.last());
    }
}

} // verus!
