//! How a restore goes from state to state.

use vstd::prelude::*;

use crate::deserialization::{
    unresolved_error, HandleProgress, HandleStepView, PathLookupView, ProgressView, RootNode,
    StepView, TargetView,
};
use crate::error::ErrorView;
use crate::file_handle::SerializableFileHandle;
use crate::passthrough::{
    FileOrHandleView, FsView, HandleDataFileView, InodeView, Node, OpenableFileHandle, Stat, ROOT_ID,
};
use crate::restore::{
    lemma_next_ready, next_ready, swap_removed, LookupView, OpenErrorView, PhaseView, ReplyView,
    RequestView, RestoreView,
};
use crate::serialized::{HandleSource, Inode, PassthroughFsV1};

verus! {

/// What the host is asked at each point.
pub proof fn law_requests<F, H>(state: RestoreView<F, H>)
    ensures
        match state.phase {
            PhaseView::Scan | PhaseView::Finished(_) => state.request() is None,
            PhaseView::Root => state.request() == Some(RequestView::<F, H>::OpenRoot),
            PhaseView::RootIdentity => state.fs.inodes[ROOT_ID].file_or_handle matches FileOrHandleView::File(
                file,
            ) ==> state.request() == Some(RequestView::<F, H>::Identify { file }),
            PhaseView::Open(target) => {
                &&& state.request() matches Some(RequestView::OpenAt { directory, filename, how })
                &&& directory == state.fs.inodes[target.parent].file_or_handle
                &&& filename == target.filename
                &&& how.path_only && how.no_follow && how.close_on_exec
            },
            PhaseView::Stat(_, file) => state.request() == Some(
                RequestView::<F, H>::Stat { file },
            ),
            PhaseView::FileHandle(_, file, stat) => state.request() == Some(
                RequestView::<F, H>::FileHandle { file, stat },
            ),
            PhaseView::Openable(_, _, handle) => state.request() == Some(
                RequestView::<F, H>::MakeOpenable { handle },
            ),
            PhaseView::Identity(_, data) => data.file_or_handle matches FileOrHandleView::File(file)
                ==> state.request() == Some(RequestView::<F, H>::Identify { file }),
            PhaseView::OpenFile => {
                let handle = state.handles[state.handles_done];
                handle.source matches HandleSource::OpenInode { flags } && state.request() == Some(
                    RequestView::OpenFile { inode: state.fs.inodes[handle.inode], flags },
                )
            },
            PhaseView::HandlePath(_) => state.request() == Some(
                RequestView::InodePath {
                    inode: state.fs.inodes[state.handles[state.handles_done].inode],
                },
            ),
        },
{
}

/// A reply is taken just if it is one to the request.
pub proof fn law_replies_fit_requests<F, H>(state: RestoreView<F, H>, reply: ReplyView<F, H>)
    ensures
        state.expects(reply) <==> match state.request() {
            None => false,
            Some(RequestView::OpenRoot) => reply is Root,
            Some(RequestView::OpenAt { .. }) => reply is Opened,
            Some(RequestView::Stat { .. }) => reply is Stat,
            Some(RequestView::FileHandle { .. }) => reply is FileHandle,
            Some(RequestView::MakeOpenable { .. }) => reply is Openable,
            Some(RequestView::Identify { .. }) => reply is Identity,
            Some(RequestView::OpenFile { .. }) => reply is File,
            Some(RequestView::InodePath { .. }) => reply is Path,
        },
{
}

/// A path that has opened is asked about; one that has not ends the lookup. The directory is named
/// in the error if it is known.
pub proof fn law_reply_to_open<F, H>(
    state: RestoreView<F, H>,
    target: TargetView,
    reply: Result<F, OpenErrorView>,
)
    requires
        state.phase == PhaseView::<F, H>::Open(target),
    ensures
        ({
            let next = state.step(ReplyView::Opened(reply));
            match reply {
                Ok(file) => next == (RestoreView { phase: PhaseView::Stat(target, file), ..state }),
                Err(e) => next == went_on(
                    state,
                    state.inode().looked_up(
                        state.fs,
                        target,
                        match e.directory {
                            Some(directory) => PathLookupView::NotOpened {
                                directory,
                                filename: target.filename,
                                error: e.error,
                            },
                            None => PathLookupView::Failed(e.error),
                        },
                    ),
                ),
            }
        }),
{
}

/// A file that the host has told about may have a handle made for it.
pub proof fn law_reply_to_stat<F, H>(
    state: RestoreView<F, H>,
    target: TargetView,
    file: F,
    reply: Result<Stat, ErrorView>,
)
    requires
        state.phase == PhaseView::<F, H>::Stat(target, file),
    ensures
        ({
            let next = state.step(ReplyView::Stat(reply));
            match reply {
                Ok(stat) => next == (RestoreView {
                    phase: PhaseView::FileHandle(target, file, stat),
                    ..state
                }),
                Err(error) => next == went_on(
                    state,
                    state.inode().looked_up(state.fs, target, PathLookupView::Failed(error)),
                ),
            }
        }),
{
}

/// A file without a handle is found, and held open. One with a handle is to be held by that.
pub proof fn law_reply_to_file_handle<F, H>(
    state: RestoreView<F, H>,
    target: TargetView,
    file: F,
    stat: Stat,
    reply: Result<Option<SerializableFileHandle>, ErrorView>,
)
    requires
        state.phase == PhaseView::<F, H>::FileHandle(target, file, stat),
    ensures
        ({
            let next = state.step(ReplyView::FileHandle(reply));
            match reply {
                Ok(Some(handle)) => next == (RestoreView {
                    phase: PhaseView::Openable(target, stat, handle),
                    ..state
                }),
                Ok(None) => next == went_on(
                    state,
                    state.inode().looked_up(
                        state.fs,
                        target,
                        PathLookupView::Found { node: Node::File(file), stat },
                    ),
                ),
                Err(error) => next == went_on(
                    state,
                    state.inode().looked_up(state.fs, target, PathLookupView::Failed(error)),
                ),
            }
        }),
{
}

/// A file whose handle can be opened is found, and held by it.
pub proof fn law_reply_to_openable<F, H>(
    state: RestoreView<F, H>,
    target: TargetView,
    stat: Stat,
    handle: SerializableFileHandle,
    reply: Result<H, ErrorView>,
)
    requires
        state.phase == PhaseView::<F, H>::Openable(target, stat, handle),
    ensures
        ({
            let next = state.step(ReplyView::Openable(reply));
            match reply {
                Ok(mount) => next == went_on(
                    state,
                    state.inode().looked_up(
                        state.fs,
                        target,
                        PathLookupView::Found {
                            node: Node::Handle(OpenableFileHandle { handle, mount }),
                            stat,
                        },
                    ),
                ),
                Err(error) => next == went_on(
                    state,
                    state.inode().looked_up(state.fs, target, PathLookupView::Failed(error)),
                ),
            }
        }),
{
}

/// The root as it has been opened, and the handle that the host has told of an inode, go into the
/// step that is theirs.
pub proof fn law_reply_on_root_or_identity<F, H>(
    state: RestoreView<F, H>,
    opened: Result<RootNode<F, H>, ErrorView>,
    named: Result<SerializableFileHandle, ErrorView>,
)
    ensures
        state.phase is Root ==> state.step(ReplyView::Root(opened)) == went_on(
            state,
            state.inode().root_added(state.fs, opened),
        ),
        state.phase is RootIdentity ==> state.step(ReplyView::Identity(named)) == went_on(
            state,
            state.inode().root_checked(state.fs, Some(named)),
        ),
        state.phase matches PhaseView::Identity(target, data) ==> state.step(
            ReplyView::Identity(named),
        ) == went_on(state, state.inode().checked(state.fs, target, data, Some(named))),
{
}

/// An inode that has opened makes an open file. One that has not is asked for its path, and then the
/// open file has failed for the reason that the host gave.
pub proof fn law_reply_on_open_file<F, H>(
    state: RestoreView<F, H>,
    result: Result<F, ErrorView>,
    path: Option<Seq<char>>,
)
    ensures
        state.phase is OpenFile ==> match result {
            Ok(file) => state.step(ReplyView::File(result)) == files_went_on(
                state,
                state.handle().handle_added(state.fs, HandleDataFileView::File(file)),
            ),
            Err(error) => state.step(ReplyView::File(result)) == (RestoreView {
                phase: PhaseView::HandlePath(error),
                ..state
            }),
        },
        state.phase matches PhaseView::HandlePath(error) ==> state.step(ReplyView::Path(path))
            == files_went_on(state, state.handle().open_failed(state.fs, path, error)),
{
}

/// The state after a step of the current inode, and after what can then be done without the host.
pub open spec fn went_on<F, H>(state: RestoreView<F, H>, step: StepView<F, H>) -> RestoreView<
    F,
    H,
> {
    let next = state.after(step);
    if next.phase is Scan {
        next.resume()
    } else {
        next
    }
}

/// The state after a step of the current open file, and after what can then be done without the
/// host.
pub open spec fn files_went_on<F, H>(
    state: RestoreView<F, H>,
    step: HandleStepView<F, H>,
) -> RestoreView<F, H> {
    let next = state.handle_after(step);
    if next.phase is Scan {
        next.resume_handles()
    } else {
        next
    }
}

/// What a step of the current inode makes of the state. An error ends the restore with that error.
/// An inode that is done leaves the list, and the last one takes its place. Nothing but the file
/// system, the list and what is waited for ever changes.
pub proof fn law_after_a_step<F, H>(state: RestoreView<F, H>, step: StepView<F, H>)
    ensures
        ({
            let next = state.after(step);
            &&& next.fs == step.fs
            &&& next.position == state.position
            &&& next.next_inode == state.next_inode
            &&& next.handles == state.handles
            &&& next.handles_done == state.handles_done
            &&& next.next_handle == state.next_handle
            &&& match step.result {
                Ok(ProgressView::Restored) => {
                    &&& next.phase is Scan
                    &&& next.inodes == swap_removed(state.inodes, state.position)
                },
                Ok(ProgressView::Deferred) => next.phase is Scan && next.inodes == state.inodes,
                Ok(ProgressView::OpenRoot) => next.phase is Root && next.inodes == state.inodes,
                Ok(ProgressView::IdentifyRoot) => next.phase is RootIdentity && next.inodes
                    == state.inodes,
                Ok(ProgressView::LookUp(target)) => next.phase == PhaseView::<F, H>::Open(target)
                    && next.inodes == state.inodes,
                Ok(ProgressView::Identify(target, data)) => next.phase == PhaseView::Identity(
                    target,
                    data,
                ) && next.inodes == state.inodes,
                Err(error) => next.phase == PhaseView::<F, H>::Finished(Err(error)) && next.inodes
                    == state.inodes,
            }
        }),
{
}

/// What a step of the current open file makes of the state. An error ends the restore with that
/// error. After one that is done it is the turn of the next.
pub proof fn law_after_a_step_of_a_file<F, H>(
    state: RestoreView<F, H>,
    step: HandleStepView<F, H>,
)
    ensures
        ({
            let next = state.handle_after(step);
            &&& next.fs == step.fs
            &&& next.inodes == state.inodes
            &&& next.position == state.position
            &&& next.next_inode == state.next_inode
            &&& next.handles == state.handles
            &&& next.next_handle == state.next_handle
            &&& match step.result {
                Ok(HandleProgress::Restored) => next.phase is Scan && next.handles_done
                    == state.handles_done + 1,
                Ok(HandleProgress::Open) => next.phase is OpenFile && next.handles_done
                    == state.handles_done,
                Err(error) => next.phase == PhaseView::<F, H>::Finished(Err(error))
                    && next.handles_done == state.handles_done,
            }
        }),
{
}

/// Taking an element out puts the last one in its place, and leaves the others where they are.
pub proof fn law_swap_removed(inodes: Seq<Inode>, i: int)
    requires
        0 <= i < inodes.len(),
    ensures
        swap_removed(inodes, i).len() == inodes.len() - 1,
        i < inodes.len() - 1 ==> swap_removed(inodes, i)[i] == inodes[inodes.len() - 1],
        forall|j: int|
            0 <= j < inodes.len() - 1 && j != i ==> #[trigger] swap_removed(inodes, i)[j]
                == inodes[j],
{
}

/// The inode that is taken up next is the first from the current place on that does not wait for
/// another one, or else the first at all. If all of them wait, there is none.
pub proof fn law_next_inode<F, H>(inodes: Seq<Inode>, present: Map<u64, InodeView<F, H>>, from: int)
    requires
        0 <= from <= inodes.len(),
    ensures
        ({
            let next = next_ready(inodes, present, from);
            &&& 0 <= next <= inodes.len()
            &&& next < inodes.len() ==> !inodes[next].blocked(present)
            &&& forall|j: int|
                from <= j < inodes.len() && (j < next || next < from) ==> (
                #[trigger] inodes[j]).blocked(present)
            &&& forall|j: int|
                0 <= j < next && next < from ==> (#[trigger] inodes[j]).blocked(present)
            &&& next == inodes.len() ==> forall|j: int|
                0 <= j < inodes.len() ==> (#[trigger] inodes[j]).blocked(present)
        }),
{
    crate::restore::lemma_first_ready(inodes, present, from);
    crate::restore::lemma_first_ready(inodes, present, 0);
    lemma_next_ready(inodes, present, from);
}

/// What is done without the host while inodes are left: the next one that does not wait is taken up,
/// and if all of them wait, the restore fails and nothing changes.
pub proof fn law_inodes_are_taken_up<F, H>(state: RestoreView<F, H>)
    requires
        state.phase is Scan,
        0 <= state.position <= state.inodes.len(),
        state.inodes.len() > 0,
    ensures
        ({
            let position = next_ready(state.inodes, state.fs.inodes, state.position);
            let taken = RestoreView { position, ..state };
            if position < state.inodes.len() {
                state.resume() == went_on(taken, state.inodes[position].first_step(state.fs))
            } else {
                state.resume() == (RestoreView {
                    phase: PhaseView::Finished(Err(unresolved_error())),
                    ..taken
                })
            }
        }),
{
    let position = next_ready(state.inodes, state.fs.inodes, state.position);
    if position < state.inodes.len() {
        crate::restore::lemma_resume_next(state, RestoreView { position, ..state });
    } else {
        reveal_with_fuel(RestoreView::resume, 1);
    }
}

/// Once all inodes are done, the number for the next one is the source's, the open files of before
/// are gone, and it is the turn of those of the source, from the first on.
pub proof fn law_files_come_after_inodes<F, H>(state: RestoreView<F, H>)
    requires
        state.inodes.len() == 0,
    ensures
        state.resume() == (RestoreView {
            fs: FsView { next_inode: state.next_inode, handles: Map::empty(), ..state.fs },
            handles_done: 0,
            ..state
        }).resume_handles(),
{
    reveal_with_fuel(RestoreView::resume, 1);
}

/// What is done without the host while open files are left: the next one is taken up. Once all are
/// done, the number for the next one is the source's, and the restore has succeeded.
pub proof fn law_files_are_taken_up<F, H>(state: RestoreView<F, H>)
    requires
        state.phase is Scan,
        0 <= state.handles_done <= state.handles.len(),
    ensures
        if state.handles_done < state.handles.len() {
            state.resume_handles() == files_went_on(
                state,
                state.handles[state.handles_done].first_step(state.fs),
            )
        } else {
            state.resume_handles() == (RestoreView {
                fs: FsView { next_handle: state.next_handle, ..state.fs },
                phase: PhaseView::Finished(Ok(())),
                ..state
            })
        },
{
}

/// How a restore starts. If the options are refused, it has failed with the refusal. Otherwise it
/// starts with no inode there, and with the first one of the source.
pub proof fn law_restore_starts<F, H>(plan: PassthroughFsV1, fs: FsView<F, H>)
    ensures
        ({
            let applied = plan.negotiated_opts.applied(fs);
            let first = RestoreView {
                fs: applied,
                inodes: plan.inodes@,
                position: 0,
                next_inode: plan.next_inode,
                handles: plan.handles@,
                handles_done: 0,
                next_handle: plan.next_handle,
                phase: PhaseView::<F, H>::Scan,
            };
            match plan.negotiated_opts.refusal(fs) {
                Some(error) => plan.started(fs) == (RestoreView {
                    phase: PhaseView::Finished(Err(error)),
                    ..first
                }),
                None => plan.started(fs) == (RestoreView {
                    fs: FsView { inodes: Map::empty(), ..applied },
                    ..first
                }).resume(),
            }
        }),
{
}

} // verus!
