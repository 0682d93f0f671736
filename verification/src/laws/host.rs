//! Restores on a host whose replies depend on the requests alone.

use vstd::prelude::*;

use super::effects::{
    lemma_checked, lemma_first_step, lemma_looked_up, lemma_root_added, lookup_ended,
    lookup_started,
};
use super::progress::{in_order, lemma_in_order_started, lemma_in_order_step};
use super::run::{answers, run};
use crate::deserialization::{
    unresolved_error, PathLookupView, ProgressView, StepView, TargetView,
};
use crate::error::ErrorView;
use crate::file_handle::SerializableFileHandle;
use crate::passthrough::{
    FileOrHandleView, FsView, Node, OpenableFileHandle, Stat, ROOT_ID,
};
use crate::restore::{
    lemma_next_ready, lemma_phase_forgotten, lemma_resume_next, next_ready, OpenFlags, PhaseView,
    ReplyView, RequestView, RestoreView,
};
use crate::serialized::{Inode, PassthroughFsV1};

verus! {

impl<F, H> RequestView<F, H> {
    /// The reply is one to this request.
    pub open spec fn answered_by(self, reply: ReplyView<F, H>) -> bool {
        match self {
            RequestView::OpenRoot => reply is Root,
            RequestView::OpenAt { .. } => reply is Opened,
            RequestView::Stat { .. } => reply is Stat,
            RequestView::FileHandle { .. } => reply is FileHandle,
            RequestView::MakeOpenable { .. } => reply is Openable,
            RequestView::Identify { .. } => reply is Identity,
            RequestView::OpenFile { .. } => reply is File,
            RequestView::InodePath { .. } => reply is Path,
        }
    }
}

/// The host answers every request.
pub open spec fn answering<F, H>(host: spec_fn(RequestView<F, H>) -> ReplyView<F, H>) -> bool {
    forall|request: RequestView<F, H>| request.answered_by(#[trigger] host(request))
}

/// The state after at most `n` requests have been put to the host.
pub open spec fn driven<F, H>(
    state: RestoreView<F, H>,
    host: spec_fn(RequestView<F, H>) -> ReplyView<F, H>,
    n: nat,
) -> RestoreView<F, H>
    decreases n,
{
    if n == 0 {
        state
    } else {
        match state.request() {
            Some(request) => driven(state.step(host(request)), host, (n - 1) as nat),
            None => state,
        }
    }
}

/// More requests than a restore of this state can make, or as many.
pub open spec fn most_requests(plan: PassthroughFsV1) -> nat {
    5 * plan.inodes@.len() + 2 * plan.handles@.len()
}

/// How the restore of a state ends on a host.
pub open spec fn end_on<F, H>(
    plan: PassthroughFsV1,
    fs: FsView<F, H>,
    host: spec_fn(RequestView<F, H>) -> ReplyView<F, H>,
) -> RestoreView<F, H> {
    driven(plan.started(fs), host, most_requests(plan))
}

/// A restore has ended once it has made as many requests as it can.
proof fn lemma_driven_ends<F, H>(
    state: RestoreView<F, H>,
    host: spec_fn(RequestView<F, H>) -> ReplyView<F, H>,
    n: nat,
)
    requires
        answering(host),
        in_order(state),
        state.budget() <= n,
    ensures
        driven(state, host, n).phase is Finished,
    decreases n,
{
    if !(state.phase is Finished) {
        let request = state.request()->0;
        assert(request.answered_by(host(request)));
        lemma_in_order_step(state, host(request));
        lemma_driven_ends(state.step(host(request)), host, (n - 1) as nat);
    }
}

/// The restore of a state ends on every host that answers.
pub proof fn law_restore_ends_on_a_host<F, H>(
    plan: PassthroughFsV1,
    fs: FsView<F, H>,
    host: spec_fn(RequestView<F, H>) -> ReplyView<F, H>,
)
    requires
        answering(host),
    ensures
        end_on(plan, fs, host).phase is Finished,
{
    lemma_in_order_started(plan, fs);
    lemma_driven_ends(plan.started(fs), host, most_requests(plan));
}

/// A restore on a host is one of those that answer every request, so that what holds of all of them
/// holds of it: these are the replies.
pub proof fn law_replies_of_a_host<F, H>(
    start: RestoreView<F, H>,
    host: spec_fn(RequestView<F, H>) -> ReplyView<F, H>,
    n: nat,
) -> (replies: Seq<ReplyView<F, H>>)
    requires
        answering(host),
    ensures
        replies.len() <= n,
        answers(start, replies),
        run(start, replies) == driven(start, host, n),
    decreases n,
{
    if n == 0 {
        Seq::empty()
    } else {
        let fewer = law_replies_of_a_host(start, host, (n - 1) as nat);
        let state = driven(start, host, (n - 1) as nat);
        lemma_driven_further(start, host, (n - 1) as nat, 1);
        lemma_driven_once(state, host);
        match state.request() {
            Some(request) => {
                lemma_answer_is_expected(state, request, host(request));
                lemma_one_more_reply(start, fewer, host(request));
                fewer.push(host(request))
            },
            None => fewer,
        }
    }
}

proof fn lemma_driven_once<F, H>(
    state: RestoreView<F, H>,
    host: spec_fn(RequestView<F, H>) -> ReplyView<F, H>,
)
    ensures
        driven(state, host, 1) == match state.request() {
            Some(request) => state.step(host(request)),
            None => state,
        },
{
    reveal_with_fuel(driven, 2);
}

proof fn lemma_answer_is_expected<F, H>(
    state: RestoreView<F, H>,
    request: RequestView<F, H>,
    reply: ReplyView<F, H>,
)
    requires
        state.request() == Some(request),
        request.answered_by(reply),
    ensures
        state.expects(reply),
{
}

proof fn lemma_one_more_reply<F, H>(
    start: RestoreView<F, H>,
    replies: Seq<ReplyView<F, H>>,
    reply: ReplyView<F, H>,
)
    requires
        answers(start, replies),
        run(start, replies).expects(reply),
    ensures
        answers(start, replies.push(reply)),
        run(start, replies.push(reply)) == run(start, replies).step(reply),
{
    assert(replies.push(reply).drop_last() =~= replies);
}

/// The host leads the restore from one state to the other.
pub(super) open spec fn leads<F, H>(
    host: spec_fn(RequestView<F, H>) -> ReplyView<F, H>,
    from: RestoreView<F, H>,
    to: RestoreView<F, H>,
) -> bool {
    exists|n: nat| (#[trigger] driven(from, host, n)) == to
}

pub(super) proof fn lemma_leads_nowhere<F, H>(
    host: spec_fn(RequestView<F, H>) -> ReplyView<F, H>,
    state: RestoreView<F, H>,
)
    ensures
        leads(host, state, state),
{
    assert(driven(state, host, 0) == state);
}

proof fn lemma_leads_by_request<F, H>(
    host: spec_fn(RequestView<F, H>) -> ReplyView<F, H>,
    from: RestoreView<F, H>,
    to: RestoreView<F, H>,
)
    requires
        from.request() is Some,
        leads(host, from.step(host(from.request()->0)), to),
    ensures
        leads(host, from, to),
{
    let next = from.step(host(from.request()->0));
    let n = choose|n: nat| (#[trigger] driven(next, host, n)) == to;
    assert(driven(from, host, n + 1) == driven(next, host, n));
}

proof fn lemma_driven_further<F, H>(
    state: RestoreView<F, H>,
    host: spec_fn(RequestView<F, H>) -> ReplyView<F, H>,
    n: nat,
    m: nat,
)
    ensures
        driven(state, host, n + m) == driven(driven(state, host, n), host, m),
    decreases n,
{
    if n > 0 {
        match state.request() {
            Some(request) => {
                lemma_driven_further(state.step(host(request)), host, (n - 1) as nat, m);
            },
            None => {},
        }
    }
}

proof fn lemma_leads_on<F, H>(
    host: spec_fn(RequestView<F, H>) -> ReplyView<F, H>,
    from: RestoreView<F, H>,
    over: RestoreView<F, H>,
    to: RestoreView<F, H>,
)
    requires
        leads(host, from, over),
        leads(host, over, to),
    ensures
        leads(host, from, to),
{
    let n = choose|n: nat| (#[trigger] driven(from, host, n)) == over;
    let m = choose|m: nat| (#[trigger] driven(over, host, m)) == to;
    lemma_driven_further(from, host, n, m);
    assert(driven(from, host, n + m) == to);
}

/// Two restores that the host leads to the same state end alike.
pub(super) proof fn lemma_same_end<F, H>(
    host: spec_fn(RequestView<F, H>) -> ReplyView<F, H>,
    a: RestoreView<F, H>,
    b: RestoreView<F, H>,
    to: RestoreView<F, H>,
    n: nat,
)
    requires
        leads(host, a, to),
        leads(host, b, to),
        driven(a, host, n).phase is Finished,
        driven(b, host, n).phase is Finished,
    ensures
        driven(a, host, n) == driven(b, host, n),
{
    let i = choose|i: nat| (#[trigger] driven(a, host, i)) == to;
    let j = choose|j: nat| (#[trigger] driven(b, host, j)) == to;
    lemma_driven_further(a, host, i, n);
    lemma_driven_further(b, host, j, n);
    lemma_driven_further(a, host, n, i);
    lemma_driven_further(b, host, n, j);
    assert(i + n == n + i && j + n == n + j);
    assert(driven(driven(a, host, n), host, i) == driven(a, host, n));
    assert(driven(driven(b, host, n), host, j) == driven(b, host, n));
}

/// What making this file handle fit to be opened comes to.
spec fn lookup_by_handle<F, H>(
    host: spec_fn(RequestView<F, H>) -> ReplyView<F, H>,
    stat: Stat,
    handle: SerializableFileHandle,
) -> PathLookupView<F, H> {
    match host(RequestView::MakeOpenable { handle }) {
        ReplyView::Openable(Ok(mount)) => PathLookupView::Found {
            node: Node::Handle(OpenableFileHandle { handle, mount }),
            stat,
        },
        reply => PathLookupView::Failed(reply->Openable_0->Err_0),
    }
}

/// What asking for a file handle for this file comes to.
spec fn lookup_with_stat<F, H>(
    host: spec_fn(RequestView<F, H>) -> ReplyView<F, H>,
    file: F,
    stat: Stat,
) -> PathLookupView<F, H> {
    match host(RequestView::FileHandle { file, stat }) {
        ReplyView::FileHandle(Ok(Some(handle))) => lookup_by_handle(host, stat, handle),
        ReplyView::FileHandle(Ok(None)) => PathLookupView::Found { node: Node::File(file), stat },
        reply => PathLookupView::Failed(reply->FileHandle_0->Err_0),
    }
}

/// What asking about this file comes to.
spec fn lookup_of_file<F, H>(
    host: spec_fn(RequestView<F, H>) -> ReplyView<F, H>,
    file: F,
) -> PathLookupView<F, H> {
    match host(RequestView::Stat { file }) {
        ReplyView::Stat(Ok(stat)) => lookup_with_stat(host, file, stat),
        reply => PathLookupView::Failed(reply->Stat_0->Err_0),
    }
}

/// What looking up a path comes to.
pub(super) closed spec fn lookup_on<F, H>(
    host: spec_fn(RequestView<F, H>) -> ReplyView<F, H>,
    directory: FileOrHandleView<F, H>,
    filename: Seq<char>,
) -> PathLookupView<F, H> {
    let how = OpenFlags { path_only: true, no_follow: true, close_on_exec: true };
    match host(RequestView::OpenAt { directory, filename, how }) {
        ReplyView::Opened(Ok(file)) => lookup_of_file(host, file),
        reply => {
            let error = reply->Opened_0->Err_0;
            match error.directory {
                Some(directory) => PathLookupView::NotOpened {
                    directory,
                    filename,
                    error: error.error,
                },
                None => PathLookupView::Failed(error.error),
            }
        },
    }
}

proof fn lemma_lookup_by_handle<F, H>(
    host: spec_fn(RequestView<F, H>) -> ReplyView<F, H>,
    state: RestoreView<F, H>,
    target: TargetView,
    stat: Stat,
    handle: SerializableFileHandle,
)
    requires
        answering(host),
        state.phase == PhaseView::<F, H>::Openable(target, stat, handle),
    ensures
        leads(host, state, state.looked_up(target, lookup_by_handle(host, stat, handle))),
{
    let request = state.request()->0;
    assert(request.answered_by(host(request)));
    let end = state.looked_up(target, lookup_by_handle(host, stat, handle));
    lemma_leads_nowhere(host, end);
    lemma_leads_by_request(host, state, end);
}

proof fn lemma_lookup_with_stat<F, H>(
    host: spec_fn(RequestView<F, H>) -> ReplyView<F, H>,
    state: RestoreView<F, H>,
    target: TargetView,
    file: F,
    stat: Stat,
)
    requires
        answering(host),
        state.phase == PhaseView::<F, H>::FileHandle(target, file, stat),
    ensures
        leads(host, state, state.looked_up(target, lookup_with_stat(host, file, stat))),
{
    let request = state.request()->0;
    let end = state.looked_up(target, lookup_with_stat(host, file, stat));
    assert(request.answered_by(host(request)));
    match host(request) {
        ReplyView::FileHandle(Ok(Some(handle))) => {
            let phase = PhaseView::Openable(target, stat, handle);
            lemma_phase_forgotten(state, phase);
            lemma_lookup_by_handle(host, RestoreView { phase, ..state }, target, stat, handle);
        },
        _ => {
            lemma_leads_nowhere(host, end);
        },
    }
    lemma_leads_by_request(host, state, end);
}

proof fn lemma_lookup_of_file<F, H>(
    host: spec_fn(RequestView<F, H>) -> ReplyView<F, H>,
    state: RestoreView<F, H>,
    target: TargetView,
    file: F,
)
    requires
        answering(host),
        state.phase == PhaseView::<F, H>::Stat(target, file),
    ensures
        leads(host, state, state.looked_up(target, lookup_of_file(host, file))),
{
    let request = state.request()->0;
    let end = state.looked_up(target, lookup_of_file(host, file));
    assert(request.answered_by(host(request)));
    match host(request) {
        ReplyView::Stat(Ok(stat)) => {
            let phase = PhaseView::FileHandle(target, file, stat);
            lemma_phase_forgotten(state, phase);
            lemma_lookup_with_stat(host, RestoreView { phase, ..state }, target, file, stat);
        },
        _ => {
            lemma_leads_nowhere(host, end);
        },
    }
    lemma_leads_by_request(host, state, end);
}

proof fn lemma_lookup_on<F, H>(
    host: spec_fn(RequestView<F, H>) -> ReplyView<F, H>,
    state: RestoreView<F, H>,
    target: TargetView,
)
    requires
        answering(host),
        state.phase == PhaseView::<F, H>::Open(target),
    ensures
        leads(
            host,
            state,
            state.looked_up(
                target,
                lookup_on(host, state.fs.inodes[target.parent].file_or_handle, target.filename),
            ),
        ),
{
    let request = state.request()->0;
    let lookup = lookup_on(host, state.fs.inodes[target.parent].file_or_handle, target.filename);
    let end = state.looked_up(target, lookup);
    assert(request.answered_by(host(request)));
    match host(request) {
        ReplyView::Opened(Ok(file)) => {
            let phase = PhaseView::Stat(target, file);
            lemma_phase_forgotten(state, phase);
            lemma_lookup_of_file(host, RestoreView { phase, ..state }, target, file);
        },
        _ => {
            lemma_leads_nowhere(host, end);
        },
    }
    lemma_leads_by_request(host, state, end);
}

/// What the host says when it is asked for the file handle of an open file.
pub(super) open spec fn named_on<F, H>(
    host: spec_fn(RequestView<F, H>) -> ReplyView<F, H>,
    held: FileOrHandleView<F, H>,
) -> Result<SerializableFileHandle, ErrorView> {
    host(RequestView::Identify { file: held->File_0 })->Identity_0
}

/// Restoring the root on a host, all its steps together.
pub(super) open spec fn root_on<F, H>(
    host: spec_fn(RequestView<F, H>) -> ReplyView<F, H>,
    inode: Inode,
    fs: FsView<F, H>,
) -> StepView<F, H> {
    let step = inode.root_added(fs, host(RequestView::OpenRoot)->Root_0);
    match step.result {
        Ok(ProgressView::IdentifyRoot) => inode.root_checked(
            step.fs,
            Some(named_on(host, step.fs.inodes[ROOT_ID].file_or_handle)),
        ),
        _ => step,
    }
}

/// Looking an inode up on a host, all its steps together.
pub(super) open spec fn looked_up_on<F, H>(
    host: spec_fn(RequestView<F, H>) -> ReplyView<F, H>,
    inode: Inode,
    fs: FsView<F, H>,
    target: TargetView,
) -> StepView<F, H> {
    let lookup = lookup_on(host, fs.inodes[target.parent].file_or_handle, target.filename);
    let step = inode.looked_up(fs, target, lookup);
    match step.result {
        Ok(ProgressView::Identify(target, data)) => inode.checked(
            step.fs,
            target,
            data,
            Some(named_on(host, data.file_or_handle)),
        ),
        _ => step,
    }
}

/// Restoring an inode on a host, all its steps together.
pub(super) open spec fn settled<F, H>(
    host: spec_fn(RequestView<F, H>) -> ReplyView<F, H>,
    inode: Inode,
    fs: FsView<F, H>,
) -> StepView<F, H> {
    let first = inode.first_step(fs);
    match first.result {
        Ok(ProgressView::OpenRoot) => root_on(host, inode, first.fs),
        Ok(ProgressView::LookUp(target)) => looked_up_on(host, inode, first.fs, target),
        _ => first,
    }
}

proof fn lemma_leads_root<F, H>(
    host: spec_fn(RequestView<F, H>) -> ReplyView<F, H>,
    state: RestoreView<F, H>,
)
    requires
        answering(host),
        state.phase is Root,
    ensures
        leads(host, state, state.after(root_on(host, state.inode(), state.fs)).resumed()),
{
    let n = state.inode();
    let request = state.request()->0;
    let opened = host(request)->Root_0;
    let step = n.root_added(state.fs, opened);
    let end = state.after(root_on(host, n, state.fs)).resumed();
    assert(request.answered_by(host(request)));
    assert(state.step(host(request)) == state.root_opened(opened));
    if let Ok(ProgressView::IdentifyRoot) = step.result {
        let asked = state.after(step);
        let question = asked.request()->0;
        assert(question.answered_by(host(question)));
        assert(asked.step(host(question)) == end);
        lemma_leads_nowhere(host, end);
        lemma_leads_by_request(host, asked, end);
    } else {
        lemma_leads_nowhere(host, end);
    }
    lemma_leads_by_request(host, state, end);
}

proof fn lemma_leads_lookup<F, H>(
    host: spec_fn(RequestView<F, H>) -> ReplyView<F, H>,
    state: RestoreView<F, H>,
    target: TargetView,
)
    requires
        answering(host),
        state.phase == PhaseView::<F, H>::Open(target),
    ensures
        leads(
            host,
            state,
            state.after(looked_up_on(host, state.inode(), state.fs, target)).resumed(),
        ),
{
    let n = state.inode();
    let lookup = lookup_on(host, state.fs.inodes[target.parent].file_or_handle, target.filename);
    let step = n.looked_up(state.fs, target, lookup);
    let end = state.after(looked_up_on(host, n, state.fs, target)).resumed();
    let looked_up = state.looked_up(target, lookup);
    lemma_lookup_on(host, state, target);
    if let Ok(ProgressView::Identify(_, _)) = step.result {
        let question = looked_up.request()->0;
        assert(question.answered_by(host(question)));
        assert(looked_up.step(host(question)) == end);
        lemma_leads_nowhere(host, end);
        lemma_leads_by_request(host, looked_up, end);
        lemma_leads_on(host, state, looked_up, end);
    }
}

/// The host leads an inode that has been taken up through all its steps.
proof fn lemma_leads_inode<F, H>(
    host: spec_fn(RequestView<F, H>) -> ReplyView<F, H>,
    state: RestoreView<F, H>,
)
    requires
        answering(host),
    ensures
        leads(
            host,
            state.after(state.inode().first_step(state.fs)).resumed(),
            state.after(settled(host, state.inode(), state.fs)).resumed(),
        ),
{
    let n = state.inode();
    let first = n.first_step(state.fs);
    let next = state.after(first);
    let step = settled(host, n, state.fs);
    match first.result {
        Ok(ProgressView::OpenRoot) => {
            lemma_leads_root(host, next);
            assert(next.after(step) == state.after(step));
        },
        Ok(ProgressView::LookUp(target)) => {
            lemma_leads_lookup(host, next, target);
            assert(next.after(step) == state.after(step));
        },
        _ => {
            lemma_leads_nowhere(host, next.resumed());
        },
    }
}

/// Restoring the inodes on a host, one after the other: the state in which all are done, or the
/// failure.
#[verifier::opaque]
pub(super) open spec fn inodes_on<F, H>(
    host: spec_fn(RequestView<F, H>) -> ReplyView<F, H>,
    state: RestoreView<F, H>,
) -> RestoreView<F, H>
    decreases state.inodes.len(),
{
    if state.inodes.len() == 0 {
        state
    } else {
        let position = next_ready(state.inodes, state.fs.inodes, state.position);
        let taken = RestoreView { position, ..state };
        if position >= state.inodes.len() {
            taken.finished(Err(unresolved_error()))
        } else {
            let next = taken.after(settled(host, taken.inode(), taken.fs));
            if next.phase is Scan && next.inodes.len() < state.inodes.len() {
                inodes_on(host, next)
            } else {
                next
            }
        }
    }
}

/// All inodes are done, and it is the turn of the open files; or the restore has failed.
pub(super) open spec fn then_files<F, H>(state: RestoreView<F, H>) -> RestoreView<F, H> {
    if state.phase is Scan {
        state.with_inodes_done().resume_handles()
    } else {
        state
    }
}

/// A step comes to an end: the inode is there, or the restore has failed.
pub(super) proof fn lemma_settled<F, H>(
    host: spec_fn(RequestView<F, H>) -> ReplyView<F, H>,
    inode: Inode,
    fs: FsView<F, H>,
)
    requires
        !inode.blocked(fs.inodes),
    ensures
        match settled(host, inode, fs).result {
            Err(_) => true,
            Ok(ProgressView::Restored) => inode.restored(fs, settled(host, inode, fs).fs),
            Ok(_) => false,
        },
{
    let first = inode.first_step(fs);
    lemma_first_step(inode, fs);
    match first.result {
        Ok(ProgressView::OpenRoot) => {
            lemma_root_added(inode, fs, host(RequestView::OpenRoot)->Root_0);
        },
        Ok(ProgressView::LookUp(target)) => {
            let started = lookup_started(inode, fs);
            let ended = lookup_ended(inode, started);
            assert(inode.target(started) == target);
            assert(inode.target(ended) == target);
            let held = started.inodes[target.parent].file_or_handle;
            let lookup = lookup_on(host, held, target.filename);
            lemma_looked_up(inode, started, lookup);
            if let Ok(ProgressView::Identify(_, data)) = inode.looked_up(
                started,
                target,
                lookup,
            ).result {
                lemma_checked(inode, ended, data, Some(named_on(host, data.file_or_handle)));
            }
        },
        _ => {},
    }
}

/// Where an inode can be taken up, it is.
proof fn lemma_inode_is_taken<F, H>(
    host: spec_fn(RequestView<F, H>) -> ReplyView<F, H>,
    state: RestoreView<F, H>,
    taken: RestoreView<F, H>,
)
    requires
        state.phase is Scan,
        0 <= state.position <= state.inodes.len(),
        taken.position < state.inodes.len(),
        taken == (RestoreView {
            position: next_ready(state.inodes, state.fs.inodes, state.position),
            ..state
        }),
    ensures
        ({
            let next = taken.after(settled(host, taken.inode(), taken.fs));
            if next.phase is Scan {
                &&& 0 <= next.position <= next.inodes.len() < state.inodes.len()
                &&& inodes_on(host, state) == inodes_on(host, next)
            } else {
                &&& next.phase matches PhaseView::Finished(Err(_))
                &&& inodes_on(host, state) == next
            }
        }),
{
    lemma_next_ready(state.inodes, state.fs.inodes, state.position);
    lemma_settled(host, taken.inode(), taken.fs);
    reveal_with_fuel(inodes_on, 1);
}

/// The host leads a restore to where all inodes are done, or to its failure.
pub(super) proof fn lemma_leads_inodes<F, H>(
    host: spec_fn(RequestView<F, H>) -> ReplyView<F, H>,
    state: RestoreView<F, H>,
)
    requires
        answering(host),
        state.phase is Scan,
        0 <= state.position <= state.inodes.len(),
    ensures
        leads(host, state.resume(), then_files(inodes_on(host, state))),
    decreases state.inodes.len(),
{
    let end = then_files(inodes_on(host, state));
    let position = next_ready(state.inodes, state.fs.inodes, state.position);
    if state.inodes.len() > 0 && position < state.inodes.len() {
        let taken = RestoreView { position, ..state };
        lemma_resume_next(state, taken);
        lemma_inode_is_taken(host, state, taken);
        lemma_leads_inode(host, taken);
        let next = taken.after(settled(host, taken.inode(), taken.fs));
        if next.phase is Scan {
            lemma_leads_inodes(host, next);
            lemma_leads_on(host, state.resume(), next.resume(), end);
        }
    } else {
        assert(state.resume() == end) by {
            reveal_with_fuel(RestoreView::resume, 1);
            reveal_with_fuel(inodes_on, 1);
        }
        lemma_leads_nowhere(host, end);
    }
}

} // verus!
