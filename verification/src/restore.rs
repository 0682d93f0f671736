//! Applying a whole serialized state to a file system.
//!
//! A [`Restore`] decides, and the host acts: [`Restore::request`] says what the host is to do next,
//! and [`Restore::step`] takes what came of it.

use vstd::prelude::*;

use crate::deserialization::{
    path_view, plain_result_view, result_view, unresolved_error, HandleProgress, HandleStepView,
    PathLookup, PathLookupView, Progress, ProgressView, RootNode, StepView, Target, TargetView,
};
use crate::error::{other_error, Error, ErrorView};
use crate::file_handle::SerializableFileHandle;
use crate::passthrough::{
    FileOrHandle, FileOrHandleView, FsView, HandleDataFile, HandleDataFileView, InodeData,
    InodeView, Node, OpenableFileHandle, PassthroughFs, Stat, ROOT_ID,
};
use crate::serialized::{Handle, HandleSource, Inode, PassthroughFsV1};

verus! {

/// How a path is to be opened.
#[derive(Clone, Copy, Debug, PartialEq, Eq, Structural)]
pub struct OpenFlags {
    /// Only as a place in the file system.
    pub path_only: bool,
    /// A symbolic link itself, not what it points to.
    pub no_follow: bool,
    /// Not for programs that this one starts.
    pub close_on_exec: bool,
}

/// What the host is to do.
pub enum Request<'a, F, H> {
    /// Open the root of the shared directory.
    OpenRoot,
    /// Open a path in a directory.
    OpenAt { directory: &'a FileOrHandle<F, H>, filename: &'a String, how: OpenFlags },
    /// Tell about a file.
    Stat { file: &'a F },
    /// Make a file handle for a file, if files are to be held by their handles.
    FileHandle { file: &'a F, stat: Stat },
    /// Find what it takes to open a file handle.
    MakeOpenable { handle: &'a SerializableFileHandle },
    /// Tell the file handle of a file.
    Identify { file: &'a F },
    /// Open an inode with these flags.
    OpenFile { inode: &'a InodeData<F, H>, flags: i32 },
    /// Tell where an inode is.
    InodePath { inode: &'a InodeData<F, H> },
}

/// A [`Request`] in specifications.
pub enum RequestView<F, H> {
    OpenRoot,
    OpenAt { directory: FileOrHandleView<F, H>, filename: Seq<char>, how: OpenFlags },
    Stat { file: F },
    FileHandle { file: F, stat: Stat },
    MakeOpenable { handle: SerializableFileHandle },
    Identify { file: F },
    OpenFile { inode: InodeView<F, H>, flags: i32 },
    InodePath { inode: InodeView<F, H> },
}

impl<'a, F, H> View for Request<'a, F, H> {
    type V = RequestView<F, H>;

    open spec fn view(&self) -> RequestView<F, H> {
        match *self {
            Request::OpenRoot => RequestView::OpenRoot,
            Request::OpenAt { directory, filename, how } => RequestView::OpenAt {
                directory: directory@,
                filename: filename@,
                how,
            },
            Request::Stat { file } => RequestView::Stat { file: *file },
            Request::FileHandle { file, stat } => RequestView::FileHandle { file: *file, stat },
            Request::MakeOpenable { handle } => RequestView::MakeOpenable { handle: *handle },
            Request::Identify { file } => RequestView::Identify { file: *file },
            Request::OpenFile { inode, flags } => RequestView::OpenFile { inode: inode@, flags },
            Request::InodePath { inode } => RequestView::InodePath { inode: inode@ },
        }
    }
}

/// Why a path could not be opened.
pub struct OpenError {
    /// The path of the directory; `None` if it is the directory that could not be had.
    pub directory: Option<String>,
    pub error: Error,
}

/// An [`OpenError`] in specifications.
pub struct OpenErrorView {
    pub directory: Option<Seq<char>>,
    pub error: ErrorView,
}

impl View for OpenError {
    type V = OpenErrorView;

    open spec fn view(&self) -> OpenErrorView {
        OpenErrorView { directory: path_view(self.directory), error: self.error@ }
    }
}

/// What the host has done.
pub enum Reply<F, H> {
    /// To [`Request::OpenRoot`].
    Root(Result<RootNode<F, H>, Error>),
    /// To [`Request::OpenAt`].
    Opened(Result<F, OpenError>),
    /// To [`Request::Stat`].
    Stat(Result<Stat, Error>),
    /// To [`Request::FileHandle`].
    FileHandle(Result<Option<SerializableFileHandle>, Error>),
    /// To [`Request::MakeOpenable`].
    Openable(Result<H, Error>),
    /// To [`Request::Identify`].
    Identity(Result<SerializableFileHandle, Error>),
    /// To [`Request::OpenFile`].
    File(Result<F, Error>),
    /// To [`Request::InodePath`].
    Path(Option<String>),
}

/// A [`Reply`] in specifications.
pub enum ReplyView<F, H> {
    Root(Result<RootNode<F, H>, ErrorView>),
    Opened(Result<F, OpenErrorView>),
    Stat(Result<Stat, ErrorView>),
    FileHandle(Result<Option<SerializableFileHandle>, ErrorView>),
    Openable(Result<H, ErrorView>),
    Identity(Result<SerializableFileHandle, ErrorView>),
    File(Result<F, ErrorView>),
    Path(Option<Seq<char>>),
}

impl<F, H> View for Reply<F, H> {
    type V = ReplyView<F, H>;

    open spec fn view(&self) -> ReplyView<F, H> {
        match *self {
            Reply::Root(result) => ReplyView::Root(plain_result_view(result)),
            Reply::Opened(result) => ReplyView::Opened(
                match result {
                    Ok(file) => Ok(file),
                    Err(error) => Err(error@),
                },
            ),
            Reply::Stat(result) => ReplyView::Stat(plain_result_view(result)),
            Reply::FileHandle(result) => ReplyView::FileHandle(plain_result_view(result)),
            Reply::Openable(result) => ReplyView::Openable(plain_result_view(result)),
            Reply::Identity(result) => ReplyView::Identity(plain_result_view(result)),
            Reply::File(result) => ReplyView::File(plain_result_view(result)),
            Reply::Path(path) => ReplyView::Path(path_view(path)),
        }
    }
}

/// What is being waited for.
enum Phase<F, H> {
    /// Nothing: the next object is to be taken up.
    Scan,
    Root,
    RootIdentity,
    Open(Target),
    Stat(Target, F),
    FileHandle(Target, F, Stat),
    Openable(Target, Stat, SerializableFileHandle),
    Identity(Target, InodeData<F, H>),
    OpenFile,
    HandlePath(Error),
    Finished(Result<(), Error>),
}

/// What a [`Restore`] is waiting for.
pub enum PhaseView<F, H> {
    /// Nothing: the next object is to be taken up.
    Scan,
    /// The root node.
    Root,
    /// The file handle of the root node, which has been added.
    RootIdentity,
    /// The file of an inode.
    Open(TargetView),
    /// What the host says about that file.
    Stat(TargetView, F),
    /// A file handle for it.
    FileHandle(TargetView, F, Stat),
    /// What it takes to open that handle.
    Openable(TargetView, Stat, SerializableFileHandle),
    /// The file handle of an inode that is to be added.
    Identity(TargetView, InodeView<F, H>),
    /// An open file.
    OpenFile,
    /// The path of an inode that could not be opened.
    HandlePath(ErrorView),
    /// Nothing: this is the outcome.
    Finished(Result<(), ErrorView>),
}

/// What a reply means for a lookup.
pub enum LookupView<F, H> {
    /// Now this is waited for.
    Waiting(PhaseView<F, H>),
    /// It has ended.
    Ended(TargetView, PathLookupView<F, H>),
}

impl<F, H> PhaseView<F, H> {
    /// What a reply means for the lookup that has been waiting for it. A file is opened, then the
    /// host tells about it, then it may have a file handle made for it, by which it is then held.
    pub open spec fn answered(self, reply: ReplyView<F, H>) -> LookupView<F, H> {
        match (self, reply) {
            (PhaseView::Open(target), ReplyView::Opened(Ok(file))) => LookupView::Waiting(
                PhaseView::Stat(target, file),
            ),
            (PhaseView::Open(target), ReplyView::Opened(Err(error))) => LookupView::Ended(
                target,
                match error.directory {
                    Some(directory) => PathLookupView::NotOpened {
                        directory,
                        filename: target.filename,
                        error: error.error,
                    },
                    None => PathLookupView::Failed(error.error),
                },
            ),
            (PhaseView::Stat(target, file), ReplyView::Stat(Ok(stat))) => LookupView::Waiting(
                PhaseView::FileHandle(target, file, stat),
            ),
            (PhaseView::FileHandle(target, file, stat), ReplyView::FileHandle(Ok(handle))) => match handle {
                Some(handle) => LookupView::Waiting(PhaseView::Openable(target, stat, handle)),
                None => LookupView::Ended(
                    target,
                    PathLookupView::Found { node: Node::File(file), stat },
                ),
            },
            (PhaseView::Openable(target, stat, handle), ReplyView::Openable(Ok(mount))) => LookupView::Ended(
                target,
                PathLookupView::Found {
                    node: Node::Handle(OpenableFileHandle { handle, mount }),
                    stat,
                },
            ),
            (PhaseView::Stat(target, _), ReplyView::Stat(Err(error)))
            | (PhaseView::FileHandle(target, _, _), ReplyView::FileHandle(Err(error)))
            | (PhaseView::Openable(target, _, _), ReplyView::Openable(Err(error))) =>
                LookupView::Ended(target, PathLookupView::Failed(error)),
            _ => LookupView::Waiting(self),
        }
    }
}

impl<F, H> View for Phase<F, H> {
    type V = PhaseView<F, H>;

    closed spec fn view(&self) -> PhaseView<F, H> {
        match *self {
            Phase::Scan => PhaseView::Scan,
            Phase::Root => PhaseView::Root,
            Phase::RootIdentity => PhaseView::RootIdentity,
            Phase::Open(target) => PhaseView::Open(target@),
            Phase::Stat(target, file) => PhaseView::Stat(target@, file),
            Phase::FileHandle(target, file, stat) => PhaseView::FileHandle(target@, file, stat),
            Phase::Openable(target, stat, handle) => PhaseView::Openable(target@, stat, handle),
            Phase::Identity(target, data) => PhaseView::Identity(target@, data@),
            Phase::OpenFile => PhaseView::OpenFile,
            Phase::HandlePath(error) => PhaseView::HandlePath(error@),
            Phase::Finished(result) => PhaseView::Finished(result_view(result)),
        }
    }
}

/// A [`Restore`] in specifications.
#[verifier::reject_recursive_types(F)]
#[verifier::reject_recursive_types(H)]
pub struct RestoreView<F, H> {
    /// The file system as far as it has been restored.
    pub fs: FsView<F, H>,
    /// The inodes that are not done.
    pub inodes: Seq<Inode>,
    /// Which of them is being restored, or at which of them the search for the next one starts.
    pub position: int,
    pub next_inode: u64,
    /// All open files.
    pub handles: Seq<Handle>,
    /// How many of them are done.
    pub handles_done: int,
    pub next_handle: u64,
    pub phase: PhaseView<F, H>,
}

/// `s` without its element `i`, the last element being put in its place.
pub open spec fn swap_removed<T>(s: Seq<T>, i: int) -> Seq<T> {
    s.update(i, s.last()).drop_last()
}

/// The first inode at `from` or later that is not blocked; the number of inodes if there is none.
pub open spec fn first_ready<F, H>(
    inodes: Seq<Inode>,
    present: Map<u64, InodeView<F, H>>,
    from: int,
) -> int
    decreases inodes.len() - from,
{
    if from >= inodes.len() {
        inodes.len() as int
    } else if !inodes[from].blocked(present) {
        from
    } else {
        first_ready(inodes, present, from + 1)
    }
}

/// The inode to take up next: the first at `from` or later that is not blocked, or else the first
/// at all.
pub open spec fn next_ready<F, H>(
    inodes: Seq<Inode>,
    present: Map<u64, InodeView<F, H>>,
    from: int,
) -> int {
    if first_ready(inodes, present, from) < inodes.len() {
        first_ready(inodes, present, from)
    } else {
        first_ready(inodes, present, 0)
    }
}

impl<F, H> RestoreView<F, H> {
    /// The inode that is being restored.
    pub open spec fn inode(self) -> Inode {
        self.inodes[self.position]
    }

    /// The open file that is being restored.
    pub open spec fn handle(self) -> Handle {
        self.handles[self.handles_done]
    }

    /// The restore ends with this outcome.
    pub open spec fn finished(self, result: Result<(), ErrorView>) -> Self {
        RestoreView { phase: PhaseView::Finished(result), ..self }
    }

    /// The state after a step for the current inode.
    pub open spec fn after(self, step: StepView<F, H>) -> Self {
        let state = RestoreView { fs: step.fs, ..self };
        match step.result {
            Err(error) => state.finished(Err(error)),
            Ok(ProgressView::Deferred) => RestoreView { phase: PhaseView::Scan, ..state },
            Ok(ProgressView::Restored) => RestoreView {
                inodes: swap_removed(state.inodes, state.position),
                phase: PhaseView::Scan,
                ..state
            },
            Ok(ProgressView::OpenRoot) => RestoreView { phase: PhaseView::Root, ..state },
            Ok(ProgressView::IdentifyRoot) => RestoreView {
                phase: PhaseView::RootIdentity,
                ..state
            },
            Ok(ProgressView::LookUp(target)) => RestoreView {
                phase: PhaseView::Open(target),
                ..state
            },
            Ok(ProgressView::Identify(target, data)) => RestoreView {
                phase: PhaseView::Identity(target, data),
                ..state
            },
        }
    }

    /// The state after a step for the current open file.
    pub open spec fn handle_after(self, step: HandleStepView<F, H>) -> Self {
        let state = RestoreView { fs: step.fs, ..self };
        match step.result {
            Err(error) => state.finished(Err(error)),
            Ok(HandleProgress::Restored) => RestoreView {
                handles_done: state.handles_done + 1,
                phase: PhaseView::Scan,
                ..state
            },
            Ok(HandleProgress::Open) => RestoreView { phase: PhaseView::OpenFile, ..state },
        }
    }

    /// Takes up the open files that are not done, until the host is needed.
    pub open spec fn resume_handles(self) -> Self
        decreases self.handles.len() - self.handles_done,
    {
        if self.handles_done >= self.handles.len() {
            RestoreView {
                fs: FsView { next_handle: self.next_handle, ..self.fs },
                ..self
            }.finished(Ok(()))
        } else {
            let next = self.handle_after(self.handle().first_step(self.fs));
            if next.phase is Scan && next.handles_done > self.handles_done {
                next.resume_handles()
            } else {
                next
            }
        }
    }

    /// All inodes are done: it is the turn of the open files.
    pub open spec fn with_inodes_done(self) -> Self {
        RestoreView {
            fs: FsView { next_inode: self.next_inode, handles: Map::empty(), ..self.fs },
            handles_done: 0,
            ..self
        }
    }

    /// Takes up the inodes that are not done, until the host is needed. When all of those that are
    /// left are blocked, the restore fails.
    #[verifier::opaque]
    pub open spec fn resume(self) -> Self
        decreases self.inodes.len(),
    {
        if self.inodes.len() == 0 {
            self.with_inodes_done().resume_handles()
        } else {
            let position = next_ready(self.inodes, self.fs.inodes, self.position);
            let state = RestoreView { position, ..self };
            if position >= self.inodes.len() {
                state.finished(Err(unresolved_error()))
            } else {
                let next = state.after(state.inode().first_step(state.fs));
                if next.phase is Scan && next.inodes.len() < self.inodes.len() {
                    next.resume()
                } else {
                    next
                }
            }
        }
    }

    /// Goes on with the next inode if the current one is done.
    pub open spec fn resumed(self) -> Self {
        if self.phase is Scan {
            self.resume()
        } else {
            self
        }
    }

    /// Goes on with the next open file if the current one is done.
    pub open spec fn handles_resumed(self) -> Self {
        if self.phase is Scan {
            self.resume_handles()
        } else {
            self
        }
    }

    /// The state after a lookup has ended.
    pub open spec fn looked_up(self, target: TargetView, lookup: PathLookupView<F, H>) -> Self {
        self.after(self.inode().looked_up(self.fs, target, lookup)).resumed()
    }

    /// The state after the root node has been opened.
    pub open spec fn root_opened(self, opened: Result<RootNode<F, H>, ErrorView>) -> Self {
        self.after(self.inode().root_added(self.fs, opened)).resumed()
    }

    /// The state after the host has told the file handle of the root node.
    pub open spec fn root_identified(
        self,
        named: Result<SerializableFileHandle, ErrorView>,
    ) -> Self {
        self.after(self.inode().root_checked(self.fs, Some(named))).resumed()
    }

    /// The state after the host has told the file handle of an inode that is to be added.
    pub open spec fn identified(
        self,
        target: TargetView,
        data: InodeView<F, H>,
        named: Result<SerializableFileHandle, ErrorView>,
    ) -> Self {
        self.after(self.inode().checked(self.fs, target, data, Some(named))).resumed()
    }

    /// The state after the inode of an open file has been opened.
    pub open spec fn file_opened(self, file: F) -> Self {
        self.handle_after(
            self.handle().handle_added(self.fs, HandleDataFileView::File(file)),
        ).handles_resumed()
    }

    /// The state after the inode of an open file has turned out not to open.
    pub open spec fn file_failed(self, path: Option<Seq<char>>, error: ErrorView) -> Self {
        self.handle_after(self.handle().open_failed(self.fs, path, error)).handles_resumed()
    }

    /// The reply answers what is being waited for.
    pub open spec fn expects(self, reply: ReplyView<F, H>) -> bool {
        match self.phase {
            PhaseView::Root => reply is Root,
            PhaseView::RootIdentity => reply is Identity,
            PhaseView::Open(_) => reply is Opened,
            PhaseView::Stat(_, _) => reply is Stat,
            PhaseView::FileHandle(_, _, _) => reply is FileHandle,
            PhaseView::Openable(_, _, _) => reply is Openable,
            PhaseView::Identity(_, _) => reply is Identity,
            PhaseView::OpenFile => reply is File,
            PhaseView::HandlePath(_) => reply is Path,
            _ => false,
        }
    }

    /// The state after a reply.
    pub open spec fn step(self, reply: ReplyView<F, H>) -> Self {
        match (self.phase, reply) {
            (PhaseView::Root, ReplyView::Root(opened)) => self.root_opened(opened),
            (PhaseView::RootIdentity, ReplyView::Identity(named)) => self.root_identified(
                named,
            ),
            (PhaseView::Identity(target, data), ReplyView::Identity(named)) => self.identified(
                target,
                data,
                named,
            ),
            (PhaseView::OpenFile, ReplyView::File(result)) => match result {
                Ok(file) => self.file_opened(file),
                Err(error) => RestoreView { phase: PhaseView::HandlePath(error), ..self },
            },
            (PhaseView::HandlePath(error), ReplyView::Path(path)) => self.file_failed(
                path,
                error,
            ),
            (phase, reply) => match phase.answered(reply) {
                LookupView::Waiting(phase) => RestoreView { phase, ..self },
                LookupView::Ended(target, lookup) => self.looked_up(target, lookup),
            },
        }
    }

    /// What the host is to do next.
    pub open spec fn request(self) -> Option<RequestView<F, H>> {
        match self.phase {
            PhaseView::Root => Some(RequestView::OpenRoot),
            PhaseView::RootIdentity => Some(
                RequestView::Identify { file: self.fs.inodes[ROOT_ID].file_or_handle->File_0 },
            ),
            PhaseView::Open(target) => Some(
                RequestView::OpenAt {
                    directory: self.fs.inodes[target.parent].file_or_handle,
                    filename: target.filename,
                    how: OpenFlags { path_only: true, no_follow: true, close_on_exec: true },
                },
            ),
            PhaseView::Stat(_, file) => Some(RequestView::Stat { file }),
            PhaseView::FileHandle(_, file, stat) => Some(RequestView::FileHandle { file, stat }),
            PhaseView::Openable(_, _, handle) => Some(RequestView::MakeOpenable { handle }),
            PhaseView::Identity(_, data) => Some(
                RequestView::Identify { file: data.file_or_handle->File_0 },
            ),
            PhaseView::OpenFile => {
                let HandleSource::OpenInode { flags } = self.handle().source;
                Some(
                    RequestView::OpenFile { inode: self.fs.inodes[self.handle().inode], flags },
                )
            },
            PhaseView::HandlePath(_) => Some(
                RequestView::InodePath { inode: self.fs.inodes[self.handle().inode] },
            ),
            _ => None,
        }
    }

    /// What is being waited for concerns an inode.
    pub open spec fn on_inode(self) -> bool {
        match self.phase {
            PhaseView::Root | PhaseView::RootIdentity | PhaseView::Open(_) | PhaseView::Stat(
                _,
                _,
            ) | PhaseView::FileHandle(_, _, _) | PhaseView::Openable(
                _,
                _,
                _,
            ) | PhaseView::Identity(_, _) => true,
            _ => false,
        }
    }

    /// What is being waited for concerns an open file.
    pub open spec fn on_handle(self) -> bool {
        match self.phase {
            PhaseView::OpenFile | PhaseView::HandlePath(_) => true,
            _ => false,
        }
    }

    /// Whatever the current request is about is there.
    pub open spec fn valid(self) -> bool {
        &&& 0 <= self.position <= self.inodes.len()
        &&& 0 <= self.handles_done <= self.handles.len()
        &&& self.on_inode() ==> self.position < self.inodes.len()
        &&& self.on_handle() ==> {
            &&& self.handles_done < self.handles.len()
            &&& self.fs.inodes.contains_key(self.handle().inode)
            &&& !(self.fs.inodes[self.handle().inode].file_or_handle is Invalid)
        }
        &&& match self.phase {
            PhaseView::RootIdentity => {
                &&& self.fs.inodes.contains_key(ROOT_ID)
                &&& self.fs.inodes[ROOT_ID].file_or_handle is File
            },
            PhaseView::Open(target) => {
                &&& self.fs.inodes.contains_key(target.parent)
                &&& !(self.fs.inodes[target.parent].file_or_handle is Invalid)
            },
            PhaseView::Identity(_, data) => data.file_or_handle is File,
            _ => true,
        }
    }
}

/// What a reply means for a lookup.
enum Lookup<F, H> {
    Waiting(Phase<F, H>),
    Ended(Target, PathLookup<F, H>),
}

impl<F, H> Lookup<F, H> {
    spec fn view(&self) -> LookupView<F, H> {
        match *self {
            Lookup::Waiting(phase) => LookupView::Waiting(phase@),
            Lookup::Ended(target, lookup) => LookupView::Ended(target@, lookup@),
        }
    }
}

impl<F, H> Phase<F, H> {
    /// What a reply means for the lookup that has been waiting for it.
    fn answer(self, reply: Reply<F, H>) -> (lookup: Lookup<F, H>)
        ensures
            lookup@ == self@.answered(reply@),
    {
        match (self, reply) {
            (Phase::Open(target), Reply::Opened(Ok(file))) => Lookup::Waiting(
                Phase::Stat(target, file),
            ),
            (Phase::Open(target), Reply::Opened(Err(error))) => {
                let lookup = match error.directory {
                    Some(directory) => PathLookup::NotOpened {
                        directory,
                        filename: target.filename.clone(),
                        error: error.error,
                    },
                    None => PathLookup::Failed(error.error),
                };
                Lookup::Ended(target, lookup)
            },
            (Phase::Stat(target, file), Reply::Stat(Ok(stat))) => Lookup::Waiting(
                Phase::FileHandle(target, file, stat),
            ),
            (Phase::Stat(target, _), Reply::Stat(Err(error))) => Lookup::Ended(
                target,
                PathLookup::Failed(error),
            ),
            (Phase::FileHandle(target, file, stat), Reply::FileHandle(Ok(handle))) => match handle {
                Some(handle) => Lookup::Waiting(Phase::Openable(target, stat, handle)),
                None => Lookup::Ended(
                    target,
                    PathLookup::Found { node: Node::File(file), stat },
                ),
            },
            (Phase::FileHandle(target, _, _), Reply::FileHandle(Err(error))) => Lookup::Ended(
                target,
                PathLookup::Failed(error),
            ),
            (Phase::Openable(target, stat, handle), Reply::Openable(Ok(mount))) => {
                let node = Node::Handle(OpenableFileHandle { handle, mount });
                Lookup::Ended(target, PathLookup::Found { node, stat })
            },
            (Phase::Openable(target, _, _), Reply::Openable(Err(error))) => Lookup::Ended(
                target,
                PathLookup::Failed(error),
            ),
            (phase, _) => Lookup::Waiting(phase),
        }
    }
}

/// The state of a restore.
#[verifier::reject_recursive_types(F)]
#[verifier::reject_recursive_types(H)]
struct Machine<F, H> {
    fs: PassthroughFs<F, H>,
    inodes: Vec<Inode>,
    position: usize,
    /// Whether an inode has been restored since the search last started at the front.
    processed_any: bool,
    next_inode: u64,
    handles: Vec<Handle>,
    handles_done: usize,
    next_handle: u64,
    phase: Phase<F, H>,
}

impl<F, H> Machine<F, H> {
    /// Whether an inode has been restored is left out: it saves a search that would find nothing.
    spec fn view(&self) -> RestoreView<F, H> {
        RestoreView {
            fs: self.fs@,
            inodes: self.inodes@,
            position: self.position as int,
            next_inode: self.next_inode,
            handles: self.handles@,
            handles_done: self.handles_done as int,
            next_handle: self.next_handle,
            phase: self.phase@,
        }
    }

    /// Nothing has become ready behind the search.
    spec fn searched(&self) -> bool {
        !self.processed_any ==> forall|j: int|
            0 <= j < self.position ==> (#[trigger] self.inodes@[j]).blocked(self.fs@.inodes)
    }

    /// Ends the restore with this outcome.
    fn finish(&mut self, result: Result<(), Error>)
        ensures
            final(self)@ == old(self)@.finished(result_view(result)),
    {
        self.phase = Phase::Finished(result);
    }

    /// Goes on from what a step for the current inode has come to. The step has been made in
    /// `self.fs`.
    fn advance(&mut self, result: Result<Progress<F, H>, Error>)
        requires
            old(self).position < old(self).inodes.len(),
        ensures
            final(self)@ == old(self)@.after(
                StepView { fs: old(self).fs@, result: result_view(result) },
            ),
            result_view(result) == Ok::<ProgressView<F, H>, ErrorView>(ProgressView::Restored)
                ==> final(self).processed_any,
    {
        match result {
            Err(error) => {
                self.finish(Err(error));
            },
            Ok(Progress::Deferred) => {
                self.phase = Phase::Scan;
            },
            Ok(Progress::Restored) => {
                self.inodes.swap_remove(self.position);
                self.processed_any = true;
                self.phase = Phase::Scan;
            },
            Ok(Progress::OpenRoot) => {
                self.phase = Phase::Root;
            },
            Ok(Progress::IdentifyRoot) => {
                self.phase = Phase::RootIdentity;
            },
            Ok(Progress::LookUp(target)) => {
                self.phase = Phase::Open(target);
            },
            Ok(Progress::Identify(target, data)) => {
                self.phase = Phase::Identity(target, data);
            },
        }
    }

    /// Goes on from what a step for the current open file has come to. The step has been made in
    /// `self.fs`.
    fn advance_handle(&mut self, result: Result<HandleProgress, Error>)
        requires
            old(self).handles_done < old(self).handles.len(),
        ensures
            final(self)@ == old(self)@.handle_after(
                HandleStepView { fs: old(self).fs@, result: plain_result_view(result) },
            ),
    {
        match result {
            Err(error) => {
                self.finish(Err(error));
            },
            Ok(HandleProgress::Restored) => {
                self.handles_done = self.handles_done + 1;
                self.phase = Phase::Scan;
            },
            Ok(HandleProgress::Open) => {
                self.phase = Phase::OpenFile;
            },
        }
    }

    /// Takes up the open files that are not done, until the host is needed.
    fn resume_handles(&mut self)
        requires
            old(self).phase@ is Scan,
            old(self).handles_done <= old(self).handles.len(),
        ensures
            final(self)@ == old(self)@.resume_handles(),
    {
        let ghost start = self@;
        loop
            invariant
                start == old(self)@,
                self.phase@ is Scan,
                self.handles_done <= self.handles.len(),
                self@.resume_handles() == start.resume_handles(),
            decreases self.handles.len() - self.handles_done,
        {
            if self.handles_done >= self.handles.len() {
                self.fs.next_handle = self.next_handle;
                self.finish(Ok(()));
                return;
            }
            let result = self.handles[self.handles_done].deserialize_with_fs(&mut self.fs);
            self.advance_handle(result);
            match self.phase {
                Phase::Scan => {},
                _ => {
                    return;
                },
            }
        }
    }

    /// Takes up the inodes that are not done, until the host is needed.
    ///
    /// Some inodes depend on others and are deferred until those are there, so it may take several
    /// turns. A turn that restores nothing would be followed by others like it.
    fn resume(&mut self)
        requires
            old(self).phase@ is Scan,
            old(self).position <= old(self).inodes.len(),
            old(self).searched(),
        ensures
            final(self)@ == old(self)@.resume(),
    {
        let ghost start = self@;
        loop
            invariant
                start == old(self)@,
                self.phase@ is Scan,
                self.position <= self.inodes.len(),
                self.searched(),
                self@.resume() == start.resume(),
            decreases
                self.inodes.len(),
                self.processed_any as int,
                self.inodes.len() - self.position,
        {
            let ghost before = self@;
            if self.inodes.len() == 0 {
                self.fs.next_inode = self.next_inode;
                self.fs.handles.clear();
                self.handles_done = 0;
                proof {
                    reveal_with_fuel(RestoreView::resume, 1);
                    assert(self.fs@.handles =~= Map::empty());
                }
                self.resume_handles();
                return;
            }
            if self.position >= self.inodes.len() {
                if !self.processed_any {
                    proof {
                        lemma_resume_stuck(before);
                    }
                    self.finish(
                        Err(
                            other_error(
                                "Unresolved references between serialized inodes".to_owned(),
                            ),
                        ),
                    );
                    return;
                }
                proof {
                    lemma_resume_wrap(before);
                }
                self.position = 0;
                self.processed_any = false;
                continue;
            }
            let result = self.inodes[self.position].deserialize_with_fs(&mut self.fs);
            proof {
                lemma_deferred_means_blocked(before.inode(), before.fs);
            }
            if let Ok(Progress::Deferred) = result {
                proof {
                    lemma_resume_skip(before);
                }
                self.position = self.position + 1;
                continue;
            }
            proof {
                lemma_resume_take(before);
            }
            self.advance(result);
            match self.phase {
                Phase::Scan => {},
                _ => {
                    return;
                },
            }
        }
    }
}

impl<F, H> Machine<F, H> {
    /// Goes on with the next inode if the current one is done.
    fn go_on(&mut self)
        requires
            old(self).position <= old(self).inodes.len(),
            old(self).phase@ is Scan ==> old(self).processed_any,
        ensures
            final(self)@ == old(self)@.resumed(),
    {
        match self.phase {
            Phase::Scan => {
                self.resume();
            },
            _ => {},
        }
    }

    /// Goes on with the next open file if the current one is done.
    fn go_on_with_handles(&mut self)
        requires
            old(self).handles_done <= old(self).handles.len(),
        ensures
            final(self)@ == old(self)@.handles_resumed(),
    {
        match self.phase {
            Phase::Scan => {
                self.resume_handles();
            },
            _ => {},
        }
    }

    /// Takes the outcome of looking the current inode up.
    fn look_up(&mut self, target: Target, lookup: PathLookup<F, H>)
        requires
            old(self).position < old(self).inodes.len(),
        ensures
            final(self)@ == old(self)@.looked_up(target@, lookup@),
    {
        let ghost before = self@;
        let result = self.inodes[self.position].finish_lookup(&mut self.fs, target, lookup);
        proof {
            lemma_only_first_step_defers(before.inode(), before.fs, target@, lookup@);
        }
        self.advance(result);
        self.go_on();
    }

    /// Takes the root node as it has been opened.
    fn open_root(&mut self, opened: Result<RootNode<F, H>, Error>)
        requires
            old(self).position < old(self).inodes.len(),
        ensures
            final(self)@ == old(self)@.root_opened(plain_result_view(opened)),
    {
        let result = self.inodes[self.position].add_root(&mut self.fs, opened);
        self.advance(result);
        self.go_on();
    }

    /// Takes the file handle of the root node.
    fn identify_root(&mut self, named: Result<SerializableFileHandle, Error>)
        requires
            old(self).position < old(self).inodes.len(),
            old(self).fs@.inodes.contains_key(ROOT_ID),
        ensures
            final(self)@ == old(self)@.root_identified(plain_result_view(named)),
    {
        let result = self.inodes[self.position].check_root(&self.fs, Some(named));
        self.advance(result);
        self.go_on();
    }

    /// Takes the file handle of an inode that is to be added.
    fn identify(
        &mut self,
        target: Target,
        data: InodeData<F, H>,
        named: Result<SerializableFileHandle, Error>,
    )
        requires
            old(self).position < old(self).inodes.len(),
        ensures
            final(self)@ == old(self)@.identified(target@, data@, plain_result_view(named)),
    {
        let result = self.inodes[self.position].check_and_add(
            &mut self.fs,
            target,
            data,
            Some(named),
        );
        self.advance(result);
        self.go_on();
    }

    /// Takes the file that has been opened for the current open file of the guest.
    fn open_file(&mut self, file: F)
        requires
            old(self).handles_done < old(self).handles.len(),
        ensures
            final(self)@ == old(self)@.file_opened(file),
    {
        let result = self.handles[self.handles_done].add(&mut self.fs, HandleDataFile::File(file));
        self.advance_handle(result);
        self.go_on_with_handles();
    }

    /// Takes the failure to open the inode of the current open file.
    fn fail_file(&mut self, path: Option<String>, error: Error)
        requires
            old(self).handles_done < old(self).handles.len(),
        ensures
            final(self)@ == old(self)@.file_failed(path_view(path), error@),
    {
        let result = self.handles[self.handles_done].add_invalid(&mut self.fs, path, error);
        self.advance_handle(result);
        self.go_on_with_handles();
    }

    /// Takes what the host has done about the request.
    fn step(&mut self, reply: Reply<F, H>)
        requires
            old(self)@.valid(),
            old(self)@.expects(reply@),
        ensures
            final(self)@ == old(self)@.step(reply@),
    {
        let ghost before = self@;
        let mut phase = Phase::Scan;
        core::mem::swap(&mut phase, &mut self.phase);
        proof {
            lemma_phase_forgotten(before, self@.phase);
        }
        match (phase, reply) {
            (Phase::Root, Reply::Root(opened)) => {
                self.open_root(opened);
            },
            (Phase::RootIdentity, Reply::Identity(named)) => {
                self.identify_root(named);
            },
            (Phase::Identity(target, data), Reply::Identity(named)) => {
                self.identify(target, data, named);
            },
            (Phase::OpenFile, Reply::File(Ok(file))) => {
                self.open_file(file);
            },
            (Phase::OpenFile, Reply::File(Err(error))) => {
                self.phase = Phase::HandlePath(error);
            },
            (Phase::HandlePath(error), Reply::Path(path)) => {
                self.fail_file(path, error);
            },
            (phase, reply) => match phase.answer(reply) {
                Lookup::Waiting(phase) => {
                    self.phase = phase;
                },
                Lookup::Ended(target, lookup) => {
                    self.look_up(target, lookup);
                },
            },
        }
    }
}

/// A serialized state that is being applied to a file system.
#[verifier::reject_recursive_types(F)]
#[verifier::reject_recursive_types(H)]
pub struct Restore<F, H> {
    machine: Machine<F, H>,
}

impl<F, H> View for Restore<F, H> {
    type V = RestoreView<F, H>;

    closed spec fn view(&self) -> RestoreView<F, H> {
        self.machine@
    }
}

impl PassthroughFsV1 {
    /// The restore in `fs` before any inode has been taken up.
    pub open spec fn planned<F, H>(self, fs: FsView<F, H>) -> RestoreView<F, H> {
        RestoreView {
            fs,
            inodes: self.inodes@,
            position: 0,
            next_inode: self.next_inode,
            handles: self.handles@,
            handles_done: 0,
            next_handle: self.next_handle,
            phase: PhaseView::Scan,
        }
    }

    /// The file system in which the inodes are restored: the options are in force, and there are no
    /// inodes.
    pub open spec fn prepared<F, H>(self, fs: FsView<F, H>) -> FsView<F, H> {
        FsView { inodes: Map::empty(), ..self.negotiated_opts.applied(fs) }
    }

    /// The start of applying this state to `fs`.
    pub open spec fn started<F, H>(self, fs: FsView<F, H>) -> RestoreView<F, H> {
        match self.negotiated_opts.refusal(fs) {
            Some(error) => self.planned(self.negotiated_opts.applied(fs)).finished(Err(error)),
            None => self.planned(self.prepared(fs)).resume(),
        }
    }

    /// Applies this state to a file system: restores its options, its inodes and its open files.
    pub fn apply<F, H>(self, fs: PassthroughFs<F, H>) -> (restore: Restore<F, H>)
        ensures
            restore@ == self.started(fs@),
    {
        proof {
            lemma_started_valid(self, fs@);
        }
        let mut machine = Machine {
            fs,
            inodes: self.inodes,
            position: 0,
            processed_any: false,
            next_inode: self.next_inode,
            handles: self.handles,
            handles_done: 0,
            next_handle: self.next_handle,
            phase: Phase::Scan,
        };
        match self.negotiated_opts.apply(&mut machine.fs) {
            Ok(_) => {
                machine.fs.inodes.clear();
                assert(machine.fs@.inodes =~= Map::empty());
                machine.resume();
            },
            Err(error) => {
                machine.finish(Err(error));
            },
        }
        Restore { machine }
    }
}

impl<F, H> Restore<F, H> {
    #[verifier::type_invariant]
    closed spec fn well_formed(&self) -> bool {
        self.machine@.valid()
    }

    /// The file system as far as it has been restored.
    pub fn fs(&self) -> (fs: &PassthroughFs<F, H>)
        ensures
            fs@ == self@.fs,
    {
        &self.machine.fs
    }

    /// The outcome, once there is one.
    pub fn outcome(&self) -> (outcome: Option<&Result<(), Error>>)
        ensures
            match outcome {
                Some(result) => self@.phase == PhaseView::<F, H>::Finished(result_view(*result)),
                None => !(self@.phase is Finished),
            },
    {
        match &self.machine.phase {
            Phase::Finished(result) => Some(result),
            _ => None,
        }
    }

    /// The file system as far as it has been restored.
    pub fn into_fs(self) -> (fs: PassthroughFs<F, H>)
        ensures
            fs@ == self@.fs,
    {
        self.machine.fs
    }

    /// What the host is to do next; nothing once there is an outcome.
    pub fn request(&self) -> (request: Option<Request<'_, F, H>>)
        ensures
            request_view(request) == self@.request(),
    {
        proof {
            use_type_invariant(self);
        }
        let machine = &self.machine;
        match &machine.phase {
            Phase::Root => Some(Request::OpenRoot),
            Phase::RootIdentity => match machine.fs.inodes.get(ROOT_ID) {
                Some(InodeData { file_or_handle: FileOrHandle::File(file), .. }) => Some(
                    Request::Identify { file },
                ),
                _ => None,
            },
            Phase::Open(target) => match machine.fs.inodes.get(target.parent) {
                Some(data) => Some(
                    Request::OpenAt {
                        directory: &data.file_or_handle,
                        filename: &target.filename,
                        how: OpenFlags { path_only: true, no_follow: true, close_on_exec: true },
                    },
                ),
                None => None,
            },
            Phase::Stat(_, file) => Some(Request::Stat { file }),
            Phase::FileHandle(_, file, stat) => Some(Request::FileHandle { file, stat: *stat }),
            Phase::Openable(_, _, handle) => Some(Request::MakeOpenable { handle }),
            Phase::Identity(_, data) => match &data.file_or_handle {
                FileOrHandle::File(file) => Some(Request::Identify { file }),
                _ => None,
            },
            Phase::OpenFile => {
                let handle = machine.handles[machine.handles_done];
                let HandleSource::OpenInode { flags } = handle.source;
                match machine.fs.inodes.get(handle.inode) {
                    Some(inode) => Some(Request::OpenFile { inode, flags }),
                    None => None,
                }
            },
            Phase::HandlePath(_) => {
                let handle = machine.handles[machine.handles_done];
                match machine.fs.inodes.get(handle.inode) {
                    Some(inode) => Some(Request::InodePath { inode }),
                    None => None,
                }
            },
            _ => None,
        }
    }

    /// Takes what the host has done about the request.
    pub fn step(self, reply: Reply<F, H>) -> (next: Self)
        requires
            self@.expects(reply@),
        ensures
            next@ == self@.step(reply@),
    {
        proof {
            use_type_invariant(&self);
            lemma_step_valid(self@, reply@);
        }
        let mut machine = self.machine;
        machine.step(reply);
        Restore { machine }
    }
}

/// A request in specifications.
pub open spec fn request_view<F, H>(request: Option<Request<'_, F, H>>) -> Option<
    RequestView<F, H>,
> {
    match request {
        Some(request) => Some(request@),
        None => None,
    }
}

/// Once an inode has been taken up, it is not deferred.
pub(crate) proof fn lemma_only_first_step_defers<F, H>(
    inode: Inode,
    fs: FsView<F, H>,
    target: TargetView,
    lookup: PathLookupView<F, H>,
)
    ensures
        !(inode.looked_up(fs, target, lookup).result matches Ok(ProgressView::Deferred)),
{
    reveal(Inode::looked_up);
}

/// What is waited for after the first step of an inode is there.
proof fn lemma_first_step_valid<F, H>(state: RestoreView<F, H>)
    requires
        state.valid(),
        state.position < state.inodes.len(),
        !state.inode().blocked(state.fs.inodes),
    ensures
        state.after(state.inode().first_step(state.fs)).valid(),
{
    reveal(Inode::looked_up);
}

/// What is waited for after the open files have been taken up is there.
proof fn lemma_resume_handles_valid<F, H>(state: RestoreView<F, H>)
    requires
        state.phase is Scan,
        0 <= state.position <= state.inodes.len(),
        0 <= state.handles_done <= state.handles.len(),
    ensures
        state.resume_handles().valid(),
        !(state.resume_handles().phase is Scan),
    decreases state.handles.len() - state.handles_done,
{
    if state.handles_done < state.handles.len() {
        let next = state.handle_after(state.handle().first_step(state.fs));
        if next.phase is Scan {
            lemma_resume_handles_valid(next);
        }
    }
}

/// What is waited for after the inodes have been taken up is there.
proof fn lemma_resume_valid<F, H>(state: RestoreView<F, H>)
    requires
        state.phase is Scan,
        0 <= state.position <= state.inodes.len(),
        0 <= state.handles_done <= state.handles.len(),
    ensures
        state.resume().valid(),
        !(state.resume().phase is Scan),
    decreases state.inodes.len(),
{
    reveal_with_fuel(RestoreView::resume, 1);
    if state.inodes.len() == 0 {
        lemma_resume_handles_valid(state.with_inodes_done());
    } else {
        let position = next_ready(state.inodes, state.fs.inodes, state.position);
        lemma_next_ready(state.inodes, state.fs.inodes, state.position);
        if position < state.inodes.len() {
            let taken = RestoreView { position, ..state };
            let next = taken.after(taken.inode().first_step(taken.fs));
            lemma_first_step_valid(taken);
            lemma_deferred_means_blocked(taken.inode(), taken.fs);
            if next.phase is Scan {
                lemma_resume_valid(next);
            }
        }
    }
}

/// `first_ready` finds an inode that is not blocked, if it finds one.
pub(crate) proof fn lemma_first_ready<F, H>(
    inodes: Seq<Inode>,
    present: Map<u64, InodeView<F, H>>,
    from: int,
)
    requires
        0 <= from <= inodes.len(),
    ensures
        from <= first_ready(inodes, present, from) <= inodes.len(),
        first_ready(inodes, present, from) < inodes.len() ==> !inodes[first_ready(
            inodes,
            present,
            from,
        )].blocked(present),
        forall|j: int|
            from <= j < first_ready(inodes, present, from) ==> (#[trigger] inodes[j]).blocked(
                present,
            ),
    decreases inodes.len() - from,
{
    if from < inodes.len() {
        lemma_first_ready(inodes, present, from + 1);
    }
}

/// `next_ready` finds an inode that is not blocked, unless all of them are.
pub proof fn lemma_next_ready<F, H>(
    inodes: Seq<Inode>,
    present: Map<u64, InodeView<F, H>>,
    from: int,
)
    requires
        0 <= from <= inodes.len(),
    ensures
        0 <= next_ready(inodes, present, from) <= inodes.len(),
        next_ready(inodes, present, from) < inodes.len() ==> !inodes[next_ready(
            inodes,
            present,
            from,
        )].blocked(present),
        next_ready(inodes, present, from) == inodes.len() ==> forall|j: int|
            0 <= j < inodes.len() ==> (#[trigger] inodes[j]).blocked(present),
{
    lemma_first_ready(inodes, present, from);
    lemma_first_ready(inodes, present, 0);
}

/// Whatever the first request is about is there.
pub proof fn lemma_started_valid<F, H>(plan: PassthroughFsV1, fs: FsView<F, H>)
    ensures
        plan.started(fs).valid(),
        !(plan.started(fs).phase is Scan),
{
    lemma_resume_valid(plan.planned(plan.prepared(fs)));
}

/// Whatever the next request is about is there.
pub proof fn lemma_step_valid<F, H>(state: RestoreView<F, H>, reply: ReplyView<F, H>)
    requires
        state.valid(),
        state.expects(reply),
    ensures
        state.step(reply).valid(),
        !(state.step(reply).phase is Scan),
{
    match (state.phase, reply) {
        (PhaseView::Root, ReplyView::Root(opened)) => {
            lemma_root_opened_valid(state, opened);
        },
        (PhaseView::RootIdentity, ReplyView::Identity(named)) => {
            lemma_root_identified_valid(state, named);
        },
        (PhaseView::Identity(target, data), ReplyView::Identity(named)) => {
            lemma_identified_valid(state, target, data, named);
        },
        (PhaseView::OpenFile, ReplyView::File(Ok(file))) => {
            lemma_file_opened_valid(state, file);
        },
        (PhaseView::HandlePath(error), ReplyView::Path(path)) => {
            lemma_file_failed_valid(state, path, error);
        },
        (phase, reply) => {
            if let LookupView::Ended(target, lookup) = phase.answered(reply) {
                lemma_looked_up_valid(state, target, lookup);
            }
        },
    }
}

proof fn lemma_root_opened_valid<F, H>(
    state: RestoreView<F, H>,
    opened: Result<RootNode<F, H>, ErrorView>,
)
    requires
        state.valid(),
        state.on_inode(),
    ensures
        state.root_opened(opened).valid(),
        !(state.root_opened(opened).phase is Scan),
{
    let next = state.after(state.inode().root_added(state.fs, opened));
    if next.phase is Scan {
        lemma_resume_valid(next);
    }
}

proof fn lemma_root_identified_valid<F, H>(
    state: RestoreView<F, H>,
    named: Result<SerializableFileHandle, ErrorView>,
)
    requires
        state.valid(),
        state.on_inode(),
    ensures
        state.root_identified(named).valid(),
        !(state.root_identified(named).phase is Scan),
{
    let next = state.after(state.inode().root_checked(state.fs, Some(named)));
    if next.phase is Scan {
        lemma_resume_valid(next);
    }
}

proof fn lemma_looked_up_valid<F, H>(
    state: RestoreView<F, H>,
    target: TargetView,
    lookup: PathLookupView<F, H>,
)
    requires
        state.valid(),
        state.on_inode(),
    ensures
        state.looked_up(target, lookup).valid(),
        !(state.looked_up(target, lookup).phase is Scan),
{
    reveal(Inode::looked_up);
    let next = state.after(state.inode().looked_up(state.fs, target, lookup));
    if next.phase is Scan {
        lemma_resume_valid(next);
    }
}

proof fn lemma_identified_valid<F, H>(
    state: RestoreView<F, H>,
    target: TargetView,
    data: InodeView<F, H>,
    named: Result<SerializableFileHandle, ErrorView>,
)
    requires
        state.valid(),
        state.on_inode(),
    ensures
        state.identified(target, data, named).valid(),
        !(state.identified(target, data, named).phase is Scan),
{
    let next = state.after(state.inode().checked(state.fs, target, data, Some(named)));
    if next.phase is Scan {
        lemma_resume_valid(next);
    }
}

proof fn lemma_file_opened_valid<F, H>(state: RestoreView<F, H>, file: F)
    requires
        state.valid(),
        state.on_handle(),
    ensures
        state.file_opened(file).valid(),
        !(state.file_opened(file).phase is Scan),
{
    lemma_resume_handles_valid(
        state.handle_after(state.handle().handle_added(state.fs, HandleDataFileView::File(file))),
    );
}

proof fn lemma_file_failed_valid<F, H>(
    state: RestoreView<F, H>,
    path: Option<Seq<char>>,
    error: ErrorView,
)
    requires
        state.valid(),
        state.on_handle(),
    ensures
        state.file_failed(path, error).valid(),
        !(state.file_failed(path, error).phase is Scan),
{
    let next = state.handle_after(state.handle().open_failed(state.fs, path, error));
    if next.phase is Scan {
        lemma_resume_handles_valid(next);
    }
}

/// What comes after a step does not depend on what was waited for.
pub(crate) proof fn lemma_phase_forgotten<F, H>(state: RestoreView<F, H>, phase: PhaseView<F, H>)
    ensures
        forall|step: StepView<F, H>|
            #[trigger] (RestoreView { phase, ..state }).after(step) == state.after(step),
        forall|step: HandleStepView<F, H>|
            #[trigger] (RestoreView { phase, ..state }).handle_after(step) == state.handle_after(
                step,
            ),
{
}

/// A step defers an inode just if it is blocked, and then changes nothing.
pub(crate) proof fn lemma_deferred_means_blocked<F, H>(inode: Inode, fs: FsView<F, H>)
    ensures
        inode.first_step(fs).result == Ok::<ProgressView<F, H>, ErrorView>(ProgressView::Deferred)
            <==> inode.blocked(fs.inodes),
        inode.blocked(fs.inodes) ==> inode.first_step(fs).fs == fs,
{
    reveal(Inode::looked_up);
}

/// A blocked inode is passed over.
proof fn lemma_resume_skip<F, H>(state: RestoreView<F, H>)
    requires
        0 <= state.position < state.inodes.len(),
        state.inode().blocked(state.fs.inodes),
    ensures
        state.resume() == (RestoreView { position: state.position + 1, ..state }).resume(),
{
    reveal_with_fuel(RestoreView::resume, 1);
}

/// Behind the last inode the search goes on at the front.
proof fn lemma_resume_wrap<F, H>(state: RestoreView<F, H>)
    requires
        0 < state.inodes.len() == state.position,
    ensures
        state.resume() == (RestoreView { position: 0, ..state }).resume(),
{
    reveal_with_fuel(RestoreView::resume, 1);
}

/// An inode that is not blocked is taken up.
proof fn lemma_resume_take<F, H>(state: RestoreView<F, H>)
    requires
        0 <= state.position < state.inodes.len(),
        !state.inode().blocked(state.fs.inodes),
    ensures
        state.resume() == state.after(state.inode().first_step(state.fs)).resumed(),
{
    reveal_with_fuel(RestoreView::resume, 1);
    lemma_deferred_means_blocked(state.inode(), state.fs);
}

/// The first inode that can be taken up is.
pub(crate) proof fn lemma_resume_next<F, H>(state: RestoreView<F, H>, taken: RestoreView<F, H>)
    requires
        state.phase is Scan,
        0 <= state.position <= state.inodes.len(),
        taken.position < state.inodes.len(),
        taken == (RestoreView {
            position: next_ready(state.inodes, state.fs.inodes, state.position),
            ..state
        }),
    ensures
        0 <= taken.position,
        !taken.inode().blocked(taken.fs.inodes),
        state.resume() == taken.after(taken.inode().first_step(taken.fs)).resumed(),
        taken.after(taken.inode().first_step(taken.fs)).phase is Scan ==> {
            let next = taken.after(taken.inode().first_step(taken.fs));
            0 <= next.position <= next.inodes.len() < state.inodes.len()
        },
{
    reveal_with_fuel(RestoreView::resume, 1);
    lemma_next_ready(state.inodes, state.fs.inodes, state.position);
    lemma_deferred_means_blocked(taken.inode(), taken.fs);
}

/// If all inodes are blocked, the restore fails.
proof fn lemma_resume_stuck<F, H>(state: RestoreView<F, H>)
    requires
        0 < state.inodes.len() == state.position,
        forall|j: int|
            0 <= j < state.inodes.len() ==> (#[trigger] state.inodes[j]).blocked(state.fs.inodes),
    ensures
        state.resume() == state.finished(Err(unresolved_error())),
{
    reveal_with_fuel(RestoreView::resume, 1);
    lemma_none_ready(state.inodes, state.fs.inodes, 0);
}

/// If all inodes from `from` on are blocked, none of them is ready.
proof fn lemma_none_ready<F, H>(
    inodes: Seq<Inode>,
    present: Map<u64, InodeView<F, H>>,
    from: int,
)
    requires
        0 <= from <= inodes.len(),
        forall|j: int| from <= j < inodes.len() ==> (#[trigger] inodes[j]).blocked(present),
    ensures
        first_ready(inodes, present, from) == inodes.len(),
    decreases inodes.len() - from,
{
    if from < inodes.len() {
        lemma_none_ready(inodes, present, from + 1);
    }
}

} // verus!
