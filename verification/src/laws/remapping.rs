//! What the remapping of filter roots has to do with a restore.

use vstd::prelude::*;

use super::progress::lemma_rest;
use super::requests::law_lookups;
use super::run::{answers, run};
use crate::deserialization::{HandleStepView, PathLookupView, RootNode, StepView, TargetView};
use crate::error::{invalid_inode_error, ErrorView};
use crate::file_handle::SerializableFileHandle;
use crate::passthrough::{
    remap_of, with_reference, FileOrHandleView, FsView, HandleDataFileView, InodeView, ROOT_ID,
};
use crate::restore::{
    lemma_next_ready, lemma_started_valid, lemma_step_valid, next_ready, LookupView, PhaseView,
    ReplyView, RequestView, RestoreView,
};
use crate::serialized::{Handle, Inode, InodeLocation, PassthroughFsV1};

verus! {

impl<F, H> FsView<F, H> {
    /// The same file system under another remapping.
    pub open spec fn under(self, remap: Map<Seq<char>, Seq<char>>) -> Self {
        FsView { filter_path_remap: remap, ..self }
    }
}

impl<F, H> RestoreView<F, H> {
    /// The same state under another remapping.
    pub open spec fn under(self, remap: Map<Seq<char>, Seq<char>>) -> Self {
        RestoreView { fs: self.fs.under(remap), ..self }
    }
}

impl<F, H> StepView<F, H> {
    /// The same step under another remapping.
    spec fn under(self, remap: Map<Seq<char>, Seq<char>>) -> Self {
        StepView { fs: self.fs.under(remap), ..self }
    }
}

impl<F, H> HandleStepView<F, H> {
    /// The same step under another remapping.
    spec fn under(self, remap: Map<Seq<char>, Seq<char>>) -> Self {
        HandleStepView { fs: self.fs.under(remap), ..self }
    }
}

/// Every filter root among the inodes is to be opened at the same path under `remap` as under the
/// remapping of `fs`.
pub open spec fn same_paths<F, H>(
    inodes: Seq<Inode>,
    fs: FsView<F, H>,
    remap: Map<Seq<char>, Seq<char>>,
) -> bool {
    forall|n: Inode| #[trigger]
        inodes.contains(n) && n.is_filter() ==> n.filter_entry(fs.under(remap)) == n.filter_entry(
            fs,
        )
}

/// `b` is `a` under `remap`, and its filter roots are to be opened at the same paths.
spec fn matched<F, H>(
    a: RestoreView<F, H>,
    b: RestoreView<F, H>,
    remap: Map<Seq<char>, Seq<char>>,
) -> bool {
    &&& b == a.under(remap)
    &&& same_paths(a.inodes, a.fs, remap)
}

/// A lookup ends the same under both remappings.
proof fn lemma_looked_up_under<F, H>(
    inode: Inode,
    fs: FsView<F, H>,
    target: TargetView,
    lookup: PathLookupView<F, H>,
    remap: Map<Seq<char>, Seq<char>>,
)
    ensures
        inode.looked_up(fs.under(remap), target, lookup) == inode.looked_up(
            fs,
            target,
            lookup,
        ).under(remap),
        inode.looked_up(fs, target, lookup).fs.filter_path_remap == fs.filter_path_remap,
{
    reveal(Inode::looked_up);
}

/// A lookup starts the same under both remappings.
proof fn lemma_look_up_under<F, H>(
    inode: Inode,
    fs: FsView<F, H>,
    target: TargetView,
    remap: Map<Seq<char>, Seq<char>>,
)
    ensures
        inode.look_up(fs.under(remap), target) == inode.look_up(fs, target).under(remap),
        inode.look_up(fs, target).fs.filter_path_remap == fs.filter_path_remap,
{
    if let FileOrHandleView::Invalid(error) = fs.inodes[target.parent].file_or_handle {
        let lookup = PathLookupView::Failed(invalid_inode_error(error));
        lemma_looked_up_under(inode, fs, target, lookup, remap);
    }
}

/// The first step of an inode that is to be opened at the same path under both remappings.
proof fn lemma_first_step_under<F, H>(
    inode: Inode,
    fs: FsView<F, H>,
    remap: Map<Seq<char>, Seq<char>>,
)
    requires
        inode.is_filter() ==> inode.filter_entry(fs.under(remap)) == inode.filter_entry(fs),
    ensures
        inode.first_step(fs.under(remap)) == inode.first_step(fs).under(remap),
        inode.first_step(fs).fs.filter_path_remap == fs.filter_path_remap,
{
    match inode.location {
        InodeLocation::Path { parent, filename, fullname } => {
            let target = inode.path_target(fs, parent, filename@, fullname@);
            assert(inode.path_target(fs.under(remap), parent, filename@, fullname@) == target);
            lemma_look_up_under(inode, fs, target, remap);
        },
        InodeLocation::FullPath { filename } => {
            let target = TargetView {
                parent: ROOT_ID,
                filename: filename@,
                is_filter: false,
                checked: false,
            };
            let started = FsView { inodes: with_reference(fs.inodes, ROOT_ID), ..fs };
            lemma_look_up_under(inode, started, target, remap);
        },
        _ => {},
    }
}

proof fn lemma_handle_first_step_under<F, H>(
    handle: Handle,
    fs: FsView<F, H>,
    remap: Map<Seq<char>, Seq<char>>,
)
    ensures
        handle.first_step(fs.under(remap)) == handle.first_step(fs).under(remap),
        handle.first_step(fs).fs.filter_path_remap == fs.filter_path_remap,
{
}

proof fn lemma_resume_handles_under<F, H>(
    state: RestoreView<F, H>,
    remap: Map<Seq<char>, Seq<char>>,
)
    requires
        state.phase is Scan,
        0 <= state.handles_done <= state.handles.len(),
        same_paths(state.inodes, state.fs, remap),
    ensures
        matched(state.resume_handles(), state.under(remap).resume_handles(), remap),
    decreases state.handles.len() - state.handles_done,
{
    if state.handles_done < state.handles.len() {
        let step = state.handle().first_step(state.fs);
        let next = state.handle_after(step);
        lemma_handle_first_step_under(state.handle(), state.fs, remap);
        assert(state.under(remap).handle_after(step.under(remap)) == next.under(remap));
        lemma_same_paths(state.inodes, next.inodes, state.fs, next.fs, remap);
        if next.phase is Scan {
            lemma_resume_handles_under(next, remap);
        }
    } else {
        lemma_same_paths(state.inodes, state.inodes, state.fs, state.resume_handles().fs, remap);
    }
}

/// Fewer inodes are to be opened at the same paths too.
proof fn lemma_same_paths<F, H>(
    inodes: Seq<Inode>,
    fewer: Seq<Inode>,
    fs: FsView<F, H>,
    later: FsView<F, H>,
    remap: Map<Seq<char>, Seq<char>>,
)
    requires
        same_paths(inodes, fs, remap),
        later.filter_path_remap == fs.filter_path_remap,
        forall|n: Inode| #[trigger] fewer.contains(n) ==> inodes.contains(n),
    ensures
        same_paths(fewer, later, remap),
{
    assert forall|n: Inode| #[trigger] fewer.contains(n) && n.is_filter() implies n.filter_entry(
        later.under(remap),
    ) == n.filter_entry(later) by {
        assert(inodes.contains(n));
        assert(n.filter_entry(later.under(remap)) == n.filter_entry(fs.under(remap)));
        assert(n.filter_entry(later) == n.filter_entry(fs));
    }
}

/// What a step for the current inode comes to is the same under both remappings.
proof fn lemma_after_under<F, H>(
    state: RestoreView<F, H>,
    step: StepView<F, H>,
    remap: Map<Seq<char>, Seq<char>>,
)
    requires
        0 <= state.position < state.inodes.len(),
        same_paths(state.inodes, state.fs, remap),
        step.fs.filter_path_remap == state.fs.filter_path_remap,
    ensures
        matched(state.after(step), state.under(remap).after(step.under(remap)), remap),
{
    lemma_rest(state.inodes, state.position);
    lemma_same_paths(state.inodes, state.after(step).inodes, state.fs, step.fs, remap);
}

proof fn lemma_resume_under<F, H>(state: RestoreView<F, H>, remap: Map<Seq<char>, Seq<char>>)
    requires
        state.phase is Scan,
        0 <= state.position <= state.inodes.len(),
        same_paths(state.inodes, state.fs, remap),
    ensures
        matched(state.resume(), state.under(remap).resume(), remap),
    decreases state.inodes.len(),
{
    reveal_with_fuel(RestoreView::resume, 1);
    if state.inodes.len() == 0 {
        let done = state.with_inodes_done();
        assert(state.under(remap).with_inodes_done() == done.under(remap));
        lemma_same_paths(state.inodes, done.inodes, state.fs, done.fs, remap);
        lemma_resume_handles_under(done, remap);
    } else {
        let position = next_ready(state.inodes, state.fs.inodes, state.position);
        lemma_next_ready(state.inodes, state.fs.inodes, state.position);
        if position < state.inodes.len() {
            let taken = RestoreView { position, ..state };
            let n = taken.inode();
            assert(state.inodes.contains(n));
            lemma_first_step_under(n, taken.fs, remap);
            lemma_after_under(taken, n.first_step(taken.fs), remap);
            let next = taken.after(n.first_step(taken.fs));
            if next.phase is Scan && next.inodes.len() < state.inodes.len() {
                lemma_resume_under(next, remap);
            }
        }
    }
}

/// What a step for the current inode leads to is the same under both remappings.
proof fn lemma_resumed_under<F, H>(
    state: RestoreView<F, H>,
    step: StepView<F, H>,
    remap: Map<Seq<char>, Seq<char>>,
)
    requires
        0 <= state.position < state.inodes.len(),
        same_paths(state.inodes, state.fs, remap),
        step.fs.filter_path_remap == state.fs.filter_path_remap,
    ensures
        matched(
            state.after(step).resumed(),
            state.under(remap).after(step.under(remap)).resumed(),
            remap,
        ),
{
    lemma_after_under(state, step, remap);
    let next = state.after(step);
    if next.phase is Scan {
        lemma_rest(state.inodes, state.position);
        lemma_resume_under(next, remap);
    }
}

/// What a step for the current open file leads to is the same under both remappings.
proof fn lemma_handles_resumed_under<F, H>(
    state: RestoreView<F, H>,
    step: HandleStepView<F, H>,
    remap: Map<Seq<char>, Seq<char>>,
)
    requires
        0 <= state.handles_done < state.handles.len(),
        same_paths(state.inodes, state.fs, remap),
        step.fs.filter_path_remap == state.fs.filter_path_remap,
    ensures
        matched(
            state.handle_after(step).handles_resumed(),
            state.under(remap).handle_after(step.under(remap)).handles_resumed(),
            remap,
        ),
{
    let next = state.handle_after(step);
    lemma_same_paths(state.inodes, next.inodes, state.fs, next.fs, remap);
    assert(state.under(remap).handle_after(step.under(remap)) == next.under(remap));
    if next.phase is Scan {
        lemma_resume_handles_under(next, remap);
    }
}

proof fn lemma_root_opened_under<F, H>(
    state: RestoreView<F, H>,
    opened: Result<RootNode<F, H>, ErrorView>,
    remap: Map<Seq<char>, Seq<char>>,
)
    requires
        state.valid(),
        state.on_inode(),
        same_paths(state.inodes, state.fs, remap),
    ensures
        matched(state.root_opened(opened), state.under(remap).root_opened(opened), remap),
{
    let step = state.inode().root_added(state.fs, opened);
    assert(state.inode().root_added(state.fs.under(remap), opened) == step.under(remap));
    lemma_resumed_under(state, step, remap);
}

proof fn lemma_root_identified_under<F, H>(
    state: RestoreView<F, H>,
    named: Result<SerializableFileHandle, ErrorView>,
    remap: Map<Seq<char>, Seq<char>>,
)
    requires
        state.valid(),
        state.on_inode(),
        same_paths(state.inodes, state.fs, remap),
    ensures
        matched(state.root_identified(named), state.under(remap).root_identified(named), remap),
{
    let step = state.inode().root_checked(state.fs, Some(named));
    assert(state.inode().root_checked(state.fs.under(remap), Some(named)) == step.under(remap));
    lemma_resumed_under(state, step, remap);
}

proof fn lemma_identified_under<F, H>(
    state: RestoreView<F, H>,
    target: TargetView,
    data: InodeView<F, H>,
    named: Result<SerializableFileHandle, ErrorView>,
    remap: Map<Seq<char>, Seq<char>>,
)
    requires
        state.valid(),
        state.on_inode(),
        same_paths(state.inodes, state.fs, remap),
    ensures
        matched(
            state.identified(target, data, named),
            state.under(remap).identified(target, data, named),
            remap,
        ),
{
    let n = state.inode();
    let step = n.checked(state.fs, target, data, Some(named));
    assert(n.checked(state.fs.under(remap), target, data, Some(named)) == step.under(remap));
    lemma_resumed_under(state, step, remap);
}

proof fn lemma_lookup_ended_under<F, H>(
    state: RestoreView<F, H>,
    target: TargetView,
    lookup: PathLookupView<F, H>,
    remap: Map<Seq<char>, Seq<char>>,
)
    requires
        state.valid(),
        state.on_inode(),
        same_paths(state.inodes, state.fs, remap),
    ensures
        matched(
            state.looked_up(target, lookup),
            state.under(remap).looked_up(target, lookup),
            remap,
        ),
{
    let n = state.inode();
    lemma_looked_up_under(n, state.fs, target, lookup, remap);
    lemma_resumed_under(state, n.looked_up(state.fs, target, lookup), remap);
}

proof fn lemma_file_opened_under<F, H>(
    state: RestoreView<F, H>,
    file: F,
    remap: Map<Seq<char>, Seq<char>>,
)
    requires
        state.valid(),
        state.on_handle(),
        same_paths(state.inodes, state.fs, remap),
    ensures
        matched(state.file_opened(file), state.under(remap).file_opened(file), remap),
{
    let data = HandleDataFileView::File(file);
    let step = state.handle().handle_added(state.fs, data);
    assert(state.handle().handle_added(state.fs.under(remap), data) == step.under(remap));
    lemma_handles_resumed_under(state, step, remap);
}

proof fn lemma_file_failed_under<F, H>(
    state: RestoreView<F, H>,
    path: Option<Seq<char>>,
    error: ErrorView,
    remap: Map<Seq<char>, Seq<char>>,
)
    requires
        state.valid(),
        state.on_handle(),
        same_paths(state.inodes, state.fs, remap),
    ensures
        matched(state.file_failed(path, error), state.under(remap).file_failed(path, error), remap),
{
    let handle = state.handle();
    let step = handle.open_failed(state.fs, path, error);
    assert(handle.open_failed(state.fs.under(remap), path, error) == step.under(remap));
    lemma_handles_resumed_under(state, step, remap);
}

/// What a reply leads to is the same under both remappings.
proof fn lemma_step_under<F, H>(
    state: RestoreView<F, H>,
    reply: ReplyView<F, H>,
    remap: Map<Seq<char>, Seq<char>>,
)
    requires
        state.valid(),
        state.expects(reply),
        same_paths(state.inodes, state.fs, remap),
    ensures
        matched(state.step(reply), state.under(remap).step(reply), remap),
{
    match (state.phase, reply) {
        (PhaseView::Root, ReplyView::Root(opened)) => {
            lemma_root_opened_under(state, opened, remap);
        },
        (PhaseView::RootIdentity, ReplyView::Identity(named)) => {
            lemma_root_identified_under(state, named, remap);
        },
        (PhaseView::Identity(target, data), ReplyView::Identity(named)) => {
            lemma_identified_under(state, target, data, named, remap);
        },
        (PhaseView::OpenFile, ReplyView::File(Ok(file))) => {
            lemma_file_opened_under(state, file, remap);
        },
        (PhaseView::OpenFile, ReplyView::File(Err(_))) => {},
        (PhaseView::HandlePath(error), ReplyView::Path(path)) => {
            lemma_file_failed_under(state, path, error, remap);
        },
        (phase, reply) => {
            if let LookupView::Ended(target, lookup) = phase.answered(reply) {
                lemma_lookup_ended_under(state, target, lookup, remap);
            }
        },
    }
}

/// The restore starts the same under both remappings.
proof fn lemma_started_under<F, H>(
    plan: PassthroughFsV1,
    fs: FsView<F, H>,
    remap: Map<Seq<char>, Seq<char>>,
)
    requires
        same_paths(plan.inodes@, fs, remap),
    ensures
        matched(plan.started(fs), plan.started(fs.under(remap)), remap),
{
    let applied = plan.negotiated_opts.applied(fs);
    let prepared = plan.prepared(fs);
    assert(plan.negotiated_opts.applied(fs.under(remap)) == applied.under(remap));
    assert(plan.prepared(fs.under(remap)) == prepared.under(remap));
    lemma_same_paths(plan.inodes@, plan.inodes@, fs, applied, remap);
    lemma_same_paths(plan.inodes@, plan.inodes@, fs, prepared, remap);
    assert(plan.planned(prepared).under(remap) == plan.planned(prepared.under(remap)));
    lemma_resume_under(plan.planned(prepared), remap);
}

proof fn lemma_run_under<F, H>(
    plan: PassthroughFsV1,
    fs: FsView<F, H>,
    remap: Map<Seq<char>, Seq<char>>,
    replies: Seq<ReplyView<F, H>>,
)
    requires
        same_paths(plan.inodes@, fs, remap),
        answers(plan.started(fs), replies),
    ensures
        answers(plan.started(fs.under(remap)), replies),
        run(plan.started(fs), replies).valid(),
        matched(
            run(plan.started(fs), replies),
            run(plan.started(fs.under(remap)), replies),
            remap,
        ),
    decreases replies.len(),
{
    if replies.len() == 0 {
        lemma_started_valid(plan, fs);
        lemma_started_under(plan, fs, remap);
    } else {
        let state = run(plan.started(fs), replies.drop_last());
        lemma_run_under(plan, fs, remap, replies.drop_last());
        lemma_step_valid(state, replies.last());
        lemma_step_under(state, replies.last(), remap);
    }
}

/// The remapping matters for the paths of the filter roots alone. Two remappings that give each
/// filter root of the state the same path, whatever else they say, make no difference: not to what
/// the host is asked, and not to what the replies lead to.
pub proof fn law_only_filter_roots_are_remapped<F, H>(
    plan: PassthroughFsV1,
    fs: FsView<F, H>,
    remap: Map<Seq<char>, Seq<char>>,
    replies: Seq<ReplyView<F, H>>,
)
    requires
        same_paths(plan.inodes@, fs, remap),
        answers(plan.started(fs), replies),
    ensures
        answers(plan.started(fs.under(remap)), replies),
        run(plan.started(fs.under(remap)), replies) == run(plan.started(fs), replies).under(remap),
        run(plan.started(fs.under(remap)), replies).request() == run(
            plan.started(fs),
            replies,
        ).request(),
{
    lemma_run_under(plan, fs, remap, replies);
}

/// A remapping that maps no filter root to another path than the source had it at is no remapping
/// at all. What it says of names that only other inodes have does not matter.
pub proof fn law_identity_remapping<F, H>(
    plan: PassthroughFsV1,
    fs: FsView<F, H>,
    remap: Map<Seq<char>, Seq<char>>,
    replies: Seq<ReplyView<F, H>>,
)
    requires
        fs.filter_path_remap == Map::<Seq<char>, Seq<char>>::empty(),
        forall|i: int|
            0 <= i < plan.inodes@.len() && (#[trigger] plan.inodes@[i]).is_filter() ==> {
                let filename = plan.inodes@[i].location->Path_filename@;
                let fullname = plan.inodes@[i].location->Path_fullname@;
                remap.contains_key(filename) ==> remap[filename] == fullname
            },
        answers(plan.started(fs), replies),
    ensures
        answers(plan.started(fs.under(remap)), replies),
        run(plan.started(fs.under(remap)), replies) == run(plan.started(fs), replies).under(remap),
        run(plan.started(fs.under(remap)), replies).request() == run(
            plan.started(fs),
            replies,
        ).request(),
{
    assert(same_paths(plan.inodes@, fs, remap));
    law_only_filter_roots_are_remapped(plan, fs, remap, replies);
}

/// A list of names and paths maps each name to the path that it is given last, and no other name.
pub proof fn law_remap_list(pairs: Seq<(String, String)>, i: int, name: Seq<char>)
    ensures
        0 <= i < pairs.len() && (forall|j: int|
            i < j < pairs.len() ==> (#[trigger] pairs[j]).0@ != pairs[i].0@) ==> {
            &&& remap_of(pairs).contains_key(pairs[i].0@)
            &&& remap_of(pairs)[pairs[i].0@] == pairs[i].1@
        },
        remap_of(pairs).contains_key(name) <==> exists|j: int|
            0 <= j < pairs.len() && (#[trigger] pairs[j]).0@ == name,
    decreases pairs.len(),
{
    if pairs.len() > 0 {
        let fewer = pairs.drop_last();
        let last = pairs.len() - 1;
        law_remap_list(fewer, i, name);
        assert(forall|j: int| 0 <= j < last ==> #[trigger] fewer[j] == pairs[j]);
        if 0 <= i < last && (forall|j: int|
            i < j < pairs.len() ==> (#[trigger] pairs[j]).0@ != pairs[i].0@) {
            assert forall|j: int| i < j < fewer.len() implies (#[trigger] fewer[j]).0@
                != fewer[i].0@ by {
                assert(pairs[j].0@ != pairs[i].0@);
            }
            assert(pairs[last].0@ != pairs[i].0@);
        }
        if exists|j: int| 0 <= j < pairs.len() && (#[trigger] pairs[j]).0@ == name {
            let j = choose|j: int| 0 <= j < pairs.len() && (#[trigger] pairs[j]).0@ == name;
            if j < last {
                assert(fewer[j].0@ == name);
            }
        }
        if remap_of(pairs).contains_key(name) {
            if remap_of(fewer).contains_key(name) {
                let j = choose|j: int| 0 <= j < fewer.len() && (#[trigger] fewer[j]).0@ == name;
                assert(pairs[j].0@ == name);
            } else {
                assert(pairs[last].0@ == name);
            }
        }
    }
}

/// A filter root whose name is on the list is to be opened at the path that the list gives it last,
/// wherever on the list that is; any other, where the source had it.
pub proof fn law_filter_roots_follow_the_list<F, H>(
    pairs: Seq<(String, String)>,
    i: int,
    fs: FsView<F, H>,
    filename: Seq<char>,
    fullname: Seq<char>,
)
    requires
        fs.filter_path_remap == remap_of(pairs),
    ensures
        0 <= i < pairs.len() && pairs[i].0@ == filename && (forall|j: int|
            i < j < pairs.len() ==> (#[trigger] pairs[j]).0@ != filename) ==> fs.remapped(
            filename,
            fullname,
        ) == pairs[i].1@,
        (forall|j: int| 0 <= j < pairs.len() ==> (#[trigger] pairs[j]).0@ != filename)
            ==> fs.remapped(filename, fullname) == fullname,
{
    law_remap_list(pairs, i, filename);
}

/// A filter root is an inode with a path in a directory whose full name begins with a slash.
pub proof fn law_filter_root(inode: Inode)
    ensures
        match inode.location {
            InodeLocation::Path { fullname, .. } => inode.is_filter() <==> fullname@.len() > 0
                && fullname@[0] == '/',
            _ => !inode.is_filter(),
        },
{
}

/// Where an inode with a path in a directory is looked up: in that directory, a filter root at the
/// path that the list gives it last, or else where the source had it; any other by its name.
pub proof fn law_lookups_follow_the_list<F, H>(
    plan: PassthroughFsV1,
    pairs: Seq<(String, String)>,
    i: int,
    fs: FsView<F, H>,
    replies: Seq<ReplyView<F, H>>,
    parent: u64,
    filename: String,
    fullname: String,
)
    requires
        fs.filter_path_remap == remap_of(pairs),
        answers(plan.started(fs), replies),
        run(plan.started(fs), replies).phase is Open,
        run(plan.started(fs), replies).inode().location == (InodeLocation::Path {
            parent,
            filename,
            fullname,
        }),
    ensures
        ({
            let state = run(plan.started(fs), replies);
            let is_filter = fullname@.len() > 0 && fullname@[0] == '/';
            &&& state.request() matches Some(RequestView::OpenAt { directory, filename: path, how })
            &&& directory == state.fs.inodes[parent].file_or_handle
            &&& how.path_only && how.no_follow && how.close_on_exec
            &&& !is_filter ==> path == filename@
            &&& is_filter && 0 <= i < pairs.len() && pairs[i].0@ == filename@ && (forall|j: int|
                i < j < pairs.len() ==> (#[trigger] pairs[j]).0@ != filename@) ==> path
                == pairs[i].1@
            &&& is_filter && (forall|j: int|
                0 <= j < pairs.len() ==> (#[trigger] pairs[j]).0@ != filename@) ==> path
                == fullname@
        }),
{
    law_lookups(plan, fs, replies);
    law_filter_roots_follow_the_list(pairs, i, fs, filename@, fullname@);
}

} // verus!
