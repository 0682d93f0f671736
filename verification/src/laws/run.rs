//! What holds at every point of a restore.

use vstd::prelude::*;

use super::books::{
    books, distinct, lemma_add, lemma_borrow, lemma_nothing_to_release, lemma_release,
    lemma_swap_removed, lemma_unborrow, promised,
};
use super::effects::{
    lemma_checked, lemma_first_step, lemma_looked_up, lemma_root_added, lookup_ended,
    lookup_started,
};
use crate::deserialization::{PathLookupView, ProgressView, RootNode, StepView, TargetView};
use crate::error::ErrorView;
use crate::file_handle::SerializableFileHandle;
use crate::passthrough::{
    FsView, HandleDataFileView, HandleMigrationInfo, HandleView, InodeView, ROOT_ID,
};
use crate::restore::{
    lemma_next_ready, lemma_started_valid, lemma_step_valid, next_ready, swap_removed, LookupView,
    PhaseView, ReplyView, RestoreView,
};
use crate::serialized::{Handle, HandleSource, Inode, PassthroughFsV1};

verus! {

/// The state after a number of replies.
pub open spec fn run<F, H>(start: RestoreView<F, H>, replies: Seq<ReplyView<F, H>>) -> RestoreView<
    F,
    H,
>
    decreases replies.len(),
{
    if replies.len() == 0 {
        start
    } else {
        run(start, replies.drop_last()).step(replies.last())
    }
}

/// Each of the replies answers the request that it is given to.
pub open spec fn answers<F, H>(
    start: RestoreView<F, H>,
    replies: Seq<ReplyView<F, H>>,
) -> bool
    decreases replies.len(),
{
    replies.len() > 0 ==> {
        &&& answers(start, replies.drop_last())
        &&& run(start, replies.drop_last()).expects(replies.last())
    }
}

/// The two agree in their configuration, their options and their remapping.
pub(super) open spec fn same_settings<F, H>(a: FsView<F, H>, b: FsView<F, H>) -> bool {
    &&& a.cfg == b.cfg
    &&& a.writeback == b.writeback
    &&& a.announce_submounts == b.announce_submounts
    &&& a.posix_acl == b.posix_acl
    &&& a.sup_group_extension == b.sup_group_extension
    &&& a.filter_path_remap == b.filter_path_remap
}

impl Inode {
    /// The filter entry of this inode, if it is a filter root.
    pub open spec fn filter_entry<F, H>(self, fs: FsView<F, H>) -> (Seq<char>, Seq<char>) {
        let filename = self.location->Path_filename;
        let fullname = self.location->Path_fullname;
        (fs.remapped(filename@, fullname@), fs.remapped(filename@, fullname@))
    }
}

/// A filter root with the number `id` has been added.
pub(super) open spec fn filter_added(all: Seq<Inode>, left: Seq<Inode>, id: u64) -> bool {
    exists|n: Inode| #[trigger] all.contains(n) && !left.contains(n) && n.id == id && n.is_filter()
}

/// The filter has an entry for each filter root that has been added, and is otherwise as before.
pub(super) open spec fn filters<F, H>(
    all: Seq<Inode>,
    left: Seq<Inode>,
    before: FsView<F, H>,
    fs: FsView<F, H>,
) -> bool {
    &&& forall|n: Inode| #[trigger]
        all.contains(n) && !left.contains(n) && n.is_filter() ==> {
            &&& fs.filter.contains_key(n.id)
            &&& fs.filter[n.id] == n.filter_entry(before)
        }
    &&& forall|id: u64|
        !#[trigger] filter_added(all, left, id) ==> {
            &&& fs.filter.contains_key(id) == before.filter.contains_key(id)
            &&& fs.filter[id] == before.filter[id]
        }
}

/// The inodes that have not been added.
pub(super) open spec fn left<F, H>(state: RestoreView<F, H>) -> Seq<Inode> {
    if state.phase is RootIdentity {
        swap_removed(state.inodes, state.position)
    } else {
        state.inodes
    }
}

/// The inodes that still hold the reference to their directory.
pub(super) open spec fn open<F, H>(state: RestoreView<F, H>) -> Seq<Inode> {
    if state.phase is RootIdentity || state.phase is Identity {
        swap_removed(state.inodes, state.position)
    } else {
        state.inodes
    }
}

/// The target of the lookup that is under way.
pub open spec fn lookup_target<F, H>(phase: PhaseView<F, H>) -> Option<TargetView> {
    match phase {
        PhaseView::Open(target)
        | PhaseView::Stat(target, _)
        | PhaseView::FileHandle(target, _, _)
        | PhaseView::Openable(target, _, _) => Some(target),
        _ => None,
    }
}

/// How many references to the root are out.
pub(super) open spec fn borrowed<F, H>(state: RestoreView<F, H>) -> nat {
    if lookup_target(state.phase) is Some && state.inode().location is FullPath {
        1
    } else {
        0
    }
}

/// What is being waited for fits the inode that is being restored.
pub open spec fn phase_fits<F, H>(state: RestoreView<F, H>) -> bool {
    match state.phase {
        PhaseView::Root | PhaseView::RootIdentity => {
            &&& state.inode().location is RootNode
            &&& state.inode().id == ROOT_ID
        },
        PhaseView::Identity(target, data) => {
            &&& state.inode().location is Path
            &&& target == state.inode().target(state.fs)
            &&& state.inode().fits(data)
        },
        _ => lookup_target(state.phase) matches Some(target) ==> {
            &&& state.inode().has_path()
            &&& state.inode().id != ROOT_ID
            &&& target == state.inode().target(state.fs)
            &&& state.fs.inodes.contains_key(target.parent)
        },
    }
}

/// What does not change: what is to be restored, and the settings.
pub(super) open spec fn same_plan<F, H>(
    plan: PassthroughFsV1,
    before: FsView<F, H>,
    state: RestoreView<F, H>,
) -> bool {
    &&& state.handles == plan.handles@
    &&& state.next_inode == plan.next_inode
    &&& state.next_handle == plan.next_handle
    &&& same_settings(before, state.fs)
}

/// What holds while inodes are restored. `before` is the file system at the start.
pub(super) open spec fn inodes_right<F, H>(
    plan: PassthroughFsV1,
    before: FsView<F, H>,
    state: RestoreView<F, H>,
) -> bool {
    &&& 0 <= state.position <= state.inodes.len()
    &&& state.on_inode() ==> state.position < state.inodes.len()
    &&& same_plan(plan, before, state)
    &&& books(plan.inodes@, left(state), open(state), state.fs.inodes, borrowed(state))
    &&& distinct(state.inodes)
    &&& filters(plan.inodes@, left(state), before, state.fs)
    &&& phase_fits(state)
}

/// What the open files are in the guest's eyes: for each number the inode and how it was opened. Of
/// two with one number the later counts.
pub open spec fn open_files(handles: Seq<Handle>) -> Map<u64, (u64, HandleMigrationInfo)>
    decreases handles.len(),
{
    if handles.len() == 0 {
        Map::empty()
    } else {
        let HandleSource::OpenInode { flags } = handles.last().source;
        open_files(handles.drop_last()).insert(
            handles.last().id,
            (handles.last().inode, HandleMigrationInfo::OpenInode { flags }),
        )
    }
}

/// What holds while open files are restored.
pub(super) open spec fn handles_right<F, H>(
    plan: PassthroughFsV1,
    before: FsView<F, H>,
    state: RestoreView<F, H>,
) -> bool {
    let none = Seq::<Inode>::empty();
    &&& state.inodes.len() == 0
    &&& 0 <= state.handles_done <= state.handles.len()
    &&& same_plan(plan, before, state)
    &&& books(plan.inodes@, none, none, state.fs.inodes, 0)
    &&& filters(plan.inodes@, none, before, state.fs)
    &&& state.fs.next_inode == plan.next_inode
    &&& state.fs.handles.map_values(|data: HandleView<F>| (data.inode, data.migration_info))
        == open_files(plan.handles@.take(state.handles_done))
}

/// What holds at every point of a restore that has not failed.
pub(super) open spec fn right<F, H>(
    plan: PassthroughFsV1,
    before: FsView<F, H>,
    state: RestoreView<F, H>,
) -> bool {
    match state.phase {
        PhaseView::Finished(Err(_)) => true,
        PhaseView::Finished(Ok(_)) => {
            &&& handles_right(plan, before, state)
            &&& state.handles_done == state.handles.len()
            &&& state.fs.next_handle == plan.next_handle
        },
        PhaseView::OpenFile | PhaseView::HandlePath(_) => {
            &&& handles_right(plan, before, state)
            &&& state.handles_done < state.handles.len()
        },
        _ => inodes_right(plan, before, state),
    }
}

/// Adding an inode keeps the books and the filter right.
proof fn lemma_entered<F, H>(
    all: Seq<Inode>,
    inodes: Seq<Inode>,
    open: Seq<Inode>,
    i: int,
    start: FsView<F, H>,
    before: FsView<F, H>,
    after: FsView<F, H>,
)
    requires
        promised(all),
        0 <= i < inodes.len(),
        books(all, inodes, open, before.inodes, 0),
        filters(all, inodes, start, before),
        same_settings(start, before),
        inodes[i].entered(before, after),
    ensures
        books(all, swap_removed(inodes, i), open, after.inodes, 0),
        filters(all, swap_removed(inodes, i), start, after),
        same_settings(start, after),
{
    let n = inodes[i];
    let rest = swap_removed(inodes, i);
    lemma_add(all, inodes, open, before.inodes, i, after.inodes[n.id]);
    lemma_swap_removed(inodes, i);
    assert(inodes.contains(n));
    assert forall|m: Inode| #[trigger] all.contains(m) && !rest.contains(m) && m.is_filter() implies {
        &&& after.filter.contains_key(m.id)
        &&& after.filter[m.id] == m.filter_entry(start)
    } by {
        if m.id == n.id {
            let j = choose|j: int| 0 <= j < all.len() && all[j] == m;
            let k = choose|k: int| 0 <= k < all.len() && all[k] == n;
            assert(j == k);
        }
    }
    assert forall|id: u64| !#[trigger] filter_added(all, rest, id) implies {
        &&& after.filter.contains_key(id) == start.filter.contains_key(id)
        &&& after.filter[id] == start.filter[id]
    } by {
        if id == n.id {
            assert(all.contains(n) && !rest.contains(n));
            assert(!n.is_filter());
        }
        if filter_added(all, inodes, id) {
            let m = choose|m: Inode| #[trigger]
                all.contains(m) && !inodes.contains(m) && m.id == id && m.is_filter();
            assert(!rest.contains(m));
            assert(filter_added(all, rest, id));
        }
    }
}

/// Going on to the open files.
pub(super) proof fn lemma_resume_handles<F, H>(
    plan: PassthroughFsV1,
    before: FsView<F, H>,
    state: RestoreView<F, H>,
)
    requires
        state.phase is Scan,
        handles_right(plan, before, state),
    ensures
        right(plan, before, state.resume_handles()),
    decreases state.handles.len() - state.handles_done,
{
    if state.handles_done < state.handles.len() {
        let handle = state.handle();
        let step = handle.first_step(state.fs);
        let next = state.handle_after(step);
        if next.phase is Scan {
            let error = state.fs.inodes[handle.inode].file_or_handle->Invalid_0;
            let file = HandleDataFileView::Invalid(
                handle.open_error(None, crate::error::invalid_inode_error(error)),
            );
            lemma_handle_added(plan, before, state, file);
            lemma_resume_handles(plan, before, next);
        }
    }
}

/// Adding an open file.
pub(super) proof fn lemma_handle_added<F, H>(
    plan: PassthroughFsV1,
    before: FsView<F, H>,
    state: RestoreView<F, H>,
    file: HandleDataFileView<F>,
)
    requires
        handles_right(plan, before, state),
        state.handles_done < state.handles.len(),
    ensures
        handles_right(
            plan,
            before,
            state.handle_after(state.handle().handle_added(state.fs, file)),
        ),
{
    let next = state.handle_after(state.handle().handle_added(state.fs, file));
    let done = plan.handles@.take(next.handles_done);
    assert(done.drop_last() =~= plan.handles@.take(state.handles_done));
    assert(done.last() == state.handle());
    let summary = |data: HandleView<F>| (data.inode, data.migration_info);
    assert(next.fs.handles.map_values(summary) =~= open_files(done));
}

/// Going on to the next inode.
proof fn lemma_resume<F, H>(
    plan: PassthroughFsV1,
    before: FsView<F, H>,
    state: RestoreView<F, H>,
)
    requires
        promised(plan.inodes@),
        state.phase is Scan,
        inodes_right(plan, before, state),
    ensures
        right(plan, before, state.resume()),
    decreases state.inodes.len(),
{
    reveal_with_fuel(RestoreView::resume, 1);
    if state.inodes.len() == 0 {
        let start = state.with_inodes_done();
        assert(state.inodes =~= Seq::empty());
        let summary = |data: HandleView<F>| (data.inode, data.migration_info);
        assert(start.fs.handles.map_values(summary) =~= Map::empty());
        lemma_resume_handles(plan, before, start);
    } else {
        let position = next_ready(state.inodes, state.fs.inodes, state.position);
        lemma_next_ready(state.inodes, state.fs.inodes, state.position);
        if position < state.inodes.len() {
            let taken = RestoreView { position, ..state };
            lemma_take(plan, before, taken);
            let next = taken.after(taken.inode().first_step(taken.fs));
            if next.phase is Scan && next.inodes.len() < state.inodes.len() {
                lemma_resume(plan, before, next);
            }
        }
    }
}

/// Taking up an inode.
pub(super) proof fn lemma_take<F, H>(
    plan: PassthroughFsV1,
    before: FsView<F, H>,
    state: RestoreView<F, H>,
)
    requires
        promised(plan.inodes@),
        state.phase is Scan,
        inodes_right(plan, before, state),
        state.position < state.inodes.len(),
        !state.inode().blocked(state.fs.inodes),
    ensures
        right(plan, before, state.after(state.inode().first_step(state.fs))),
{
    let all = plan.inodes@;
    let n = state.inode();
    let step = n.first_step(state.fs);
    let started = lookup_started(n, state.fs);
    lemma_first_step(n, state.fs);
    if n.has_path() && (step.result is Ok) {
        assert(n.target(state.fs) == n.target(started));
        if n.location is FullPath {
            assert(state.inodes.contains(n));
            lemma_borrow(all, state.inodes, state.inodes, state.fs.inodes, n);
        }
    }
    if let Ok(ProgressView::Restored) = step.result {
        lemma_restored(plan, before, state, step.fs);
    }
}

/// The inode that has been taken up is added.
pub(super) proof fn lemma_restored<F, H>(
    plan: PassthroughFsV1,
    before: FsView<F, H>,
    state: RestoreView<F, H>,
    after: FsView<F, H>,
)
    requires
        promised(plan.inodes@),
        state.phase is Scan,
        inodes_right(plan, before, state),
        state.position < state.inodes.len(),
        state.inode().restored(state.fs, after),
    ensures
        inodes_right(
            plan,
            before,
            state.after(StepView { fs: after, result: Ok(ProgressView::Restored) }),
        ),
{
    let all = plan.inodes@;
    let n = state.inode();
    let i = state.position;
    let rest = swap_removed(state.inodes, i);
    let started = lookup_started(n, state.fs);
    if n.has_path() {
        assert(n.target(state.fs) == n.target(started));
        if n.location is FullPath {
            assert(state.inodes.contains(n));
            lemma_borrow(all, state.inodes, state.inodes, state.fs.inodes, n);
        }
        lemma_lookup_ended(plan, before, state, started);
        lemma_entered(all, state.inodes, rest, i, before, lookup_ended(n, started), after);
    } else {
        lemma_nothing_to_release(all, state.inodes, state.inodes, state.fs.inodes, i);
        lemma_entered(all, state.inodes, rest, i, before, state.fs, after);
    }
    lemma_swap_removed(state.inodes, i);
}

/// The end of a lookup for the current inode.
proof fn lemma_lookup_ended<F, H>(
    plan: PassthroughFsV1,
    before: FsView<F, H>,
    state: RestoreView<F, H>,
    fs: FsView<F, H>,
)
    requires
        promised(plan.inodes@),
        0 <= state.position < state.inodes.len(),
        state.inode().has_path(),
        books(
            plan.inodes@,
            state.inodes,
            state.inodes,
            fs.inodes,
            if state.inode().location is FullPath {
                1
            } else {
                0
            },
        ),
        fs.inodes.contains_key(state.inode().target(fs).parent),
    ensures
        books(
            plan.inodes@,
            state.inodes,
            swap_removed(state.inodes, state.position),
            lookup_ended(state.inode(), fs).inodes,
            0,
        ),
{
    let all = plan.inodes@;
    let n = state.inode();
    let ended = lookup_ended(n, fs);
    if n.location is FullPath {
        assert(state.inodes.contains(n));
        lemma_unborrow(all, state.inodes, state.inodes, fs.inodes, n);
        lemma_nothing_to_release(all, state.inodes, state.inodes, ended.inodes, state.position);
    } else {
        lemma_release(
            all,
            state.inodes,
            state.inodes,
            fs.inodes,
            state.position,
            n.target(fs).parent,
        );
    }
}

/// A step for the current inode has been made, and what it came to keeps everything right.
pub(super) proof fn lemma_resumed<F, H>(
    plan: PassthroughFsV1,
    before: FsView<F, H>,
    next: RestoreView<F, H>,
)
    requires
        promised(plan.inodes@),
        right(plan, before, next),
    ensures
        right(plan, before, next.resumed()),
{
    if next.phase is Scan {
        lemma_resume(plan, before, next);
    }
}

pub(super) proof fn lemma_after_root<F, H>(
    plan: PassthroughFsV1,
    before: FsView<F, H>,
    state: RestoreView<F, H>,
    opened: Result<RootNode<F, H>, ErrorView>,
)
    requires
        promised(plan.inodes@),
        state.phase is Root,
        inodes_right(plan, before, state),
    ensures
        right(plan, before, state.after(state.inode().root_added(state.fs, opened))),
{
    let n = state.inode();
    let i = state.position;
    let step = n.root_added(state.fs, opened);
    lemma_root_added(n, state.fs, opened);
    if step.result is Ok {
        lemma_nothing_to_release(
            plan.inodes@,
            state.inodes,
            state.inodes,
            state.fs.inodes,
            i,
        );
        lemma_entered(
            plan.inodes@,
            state.inodes,
            swap_removed(state.inodes, i),
            i,
            before,
            state.fs,
            step.fs,
        );
        lemma_swap_removed(state.inodes, i);
    }
}

pub(super) proof fn lemma_after_root_identity<F, H>(
    plan: PassthroughFsV1,
    before: FsView<F, H>,
    state: RestoreView<F, H>,
    named: Result<SerializableFileHandle, ErrorView>,
)
    requires
        promised(plan.inodes@),
        state.valid(),
        state.phase is RootIdentity,
        inodes_right(plan, before, state),
    ensures
        right(plan, before, state.after(state.inode().root_checked(state.fs, Some(named)))),
{
    lemma_swap_removed(state.inodes, state.position);
}

pub(super) proof fn lemma_after_identity<F, H>(
    plan: PassthroughFsV1,
    before: FsView<F, H>,
    state: RestoreView<F, H>,
    target: TargetView,
    data: InodeView<F, H>,
    named: Result<SerializableFileHandle, ErrorView>,
)
    requires
        promised(plan.inodes@),
        state.phase == PhaseView::Identity(target, data),
        inodes_right(plan, before, state),
    ensures
        right(plan, before, state.after(state.inode().checked(state.fs, target, data, Some(named)))),
{
    let n = state.inode();
    let i = state.position;
    let step = n.checked(state.fs, target, data, Some(named));
    lemma_checked(n, state.fs, data, Some(named));
    if step.result is Ok {
        lemma_entered(
            plan.inodes@,
            state.inodes,
            swap_removed(state.inodes, i),
            i,
            before,
            state.fs,
            step.fs,
        );
        lemma_swap_removed(state.inodes, i);
    }
}

pub(super) proof fn lemma_after_looked_up<F, H>(
    plan: PassthroughFsV1,
    before: FsView<F, H>,
    state: RestoreView<F, H>,
    target: TargetView,
    lookup: PathLookupView<F, H>,
)
    requires
        promised(plan.inodes@),
        lookup_target(state.phase) == Some(target),
        inodes_right(plan, before, state),
    ensures
        right(plan, before, state.after(state.inode().looked_up(state.fs, target, lookup))),
{
    let n = state.inode();
    let i = state.position;
    let step = n.looked_up(state.fs, target, lookup);
    lemma_looked_up(n, state.fs, lookup);
    lemma_lookup_ended(plan, before, state, state.fs);
    let ended = lookup_ended(n, state.fs);
    assert(n.target(ended) == n.target(state.fs));
    match step.result {
        Ok(ProgressView::Restored) => {
            lemma_entered(
                plan.inodes@,
                state.inodes,
                swap_removed(state.inodes, i),
                i,
                before,
                ended,
                step.fs,
            );
            lemma_swap_removed(state.inodes, i);
        },
        _ => {},
    }
}

/// A reply to a lookup concerns the lookup that is under way.
proof fn lemma_answered<F, H>(phase: PhaseView<F, H>, reply: ReplyView<F, H>)
    ensures
        match phase.answered(reply) {
            LookupView::Waiting(next) => next == phase || lookup_target(next) is Some
                && lookup_target(next) == lookup_target(phase),
            LookupView::Ended(target, _) => lookup_target(phase) == Some(target),
        },
{
}

/// A step keeps everything right.
pub(super) proof fn lemma_step<F, H>(
    plan: PassthroughFsV1,
    before: FsView<F, H>,
    state: RestoreView<F, H>,
    reply: ReplyView<F, H>,
)
    requires
        promised(plan.inodes@),
        state.valid(),
        state.expects(reply),
        right(plan, before, state),
    ensures
        right(plan, before, state.step(reply)),
{
    match (state.phase, reply) {
        (PhaseView::Root, ReplyView::Root(opened)) => {
            lemma_after_root(plan, before, state, opened);
            lemma_resumed(plan, before, state.after(state.inode().root_added(state.fs, opened)));
        },
        (PhaseView::RootIdentity, ReplyView::Identity(named)) => {
            lemma_after_root_identity(plan, before, state, named);
            lemma_resumed(
                plan,
                before,
                state.after(state.inode().root_checked(state.fs, Some(named))),
            );
        },
        (PhaseView::Identity(target, data), ReplyView::Identity(named)) => {
            lemma_after_identity(plan, before, state, target, data, named);
            lemma_resumed(
                plan,
                before,
                state.after(state.inode().checked(state.fs, target, data, Some(named))),
            );
        },
        (PhaseView::OpenFile, ReplyView::File(Ok(file))) => {
            let file = HandleDataFileView::File(file);
            lemma_handle_added(plan, before, state, file);
            lemma_resume_handles(
                plan,
                before,
                state.handle_after(state.handle().handle_added(state.fs, file)),
            );
        },
        (PhaseView::OpenFile, ReplyView::File(Err(_))) => {},
        (PhaseView::HandlePath(error), ReplyView::Path(path)) => {
            let handle = state.handle();
            let next = state.handle_after(handle.open_failed(state.fs, path, error));
            if next.phase is Scan {
                lemma_handle_added(
                    plan,
                    before,
                    state,
                    HandleDataFileView::Invalid(handle.open_error(path, error)),
                );
                lemma_resume_handles(plan, before, next);
            }
        },
        (phase, reply) => {
            lemma_answered(phase, reply);
            if let LookupView::Ended(target, lookup) = phase.answered(reply) {
                lemma_after_looked_up(plan, before, state, target, lookup);
                lemma_resumed(
                    plan,
                    before,
                    state.after(state.inode().looked_up(state.fs, target, lookup)),
                );
            }
        },
    }
}

pub(super) proof fn lemma_started<F, H>(plan: PassthroughFsV1, fs: FsView<F, H>)
    requires
        promised(plan.inodes@),
    ensures
        right(plan, plan.prepared(fs), plan.started(fs)),
{
    let before = plan.prepared(fs);
    if plan.negotiated_opts.refusal(fs) is None {
        let state = plan.planned(before);
        lemma_resume(plan, before, state);
    }
}

/// At every point of a restore everything is right.
pub(super) proof fn lemma_run<F, H>(
    plan: PassthroughFsV1,
    fs: FsView<F, H>,
    replies: Seq<ReplyView<F, H>>,
)
    requires
        promised(plan.inodes@),
        answers(plan.started(fs), replies),
    ensures
        right(plan, plan.prepared(fs), run(plan.started(fs), replies)),
        run(plan.started(fs), replies).valid(),
        !(run(plan.started(fs), replies).phase is Scan),
    decreases replies.len(),
{
    lemma_started_valid(plan, fs);
    if replies.len() == 0 {
        lemma_started(plan, fs);
    } else {
        let state = run(plan.started(fs), replies.drop_last());
        lemma_run(plan, fs, replies.drop_last());
        lemma_step(plan, plan.prepared(fs), state, replies.last());
        lemma_step_valid(state, replies.last());
    }
}

} // verus!
