//! What is said of a value is what it is.

use vstd::prelude::*;

use crate::deserialization::{
    check_view, named_view, path_view, plain_result_view, result_view, PathLookup, PathLookupView,
    Progress, ProgressView, Target,
};
use crate::error::{Error, ErrorView};
use crate::file_handle::SerializableFileHandle;
use crate::passthrough::{
    FileOrHandle, FileOrHandleView, HandleData, HandleDataFile, HandleDataFileView, InodeData,
    PassthroughFs, ROOT_ID,
};
use crate::restore::{request_view, OpenError, Reply, ReplyView, Request, RequestView};

verus! {

/// The root has the number that the guest knows it by.
pub proof fn law_number_of_the_root()
    ensures
        ROOT_ID == 1,
{
}

/// What is said of an error is its kind and its text.
pub proof fn law_error_view(error: Error)
    ensures
        error@.kind == error.kind,
        error@.message == error.message@,
{
}

/// What is said of an inode is what it is, field by field.
pub proof fn law_inode_view<F, H>(data: InodeData<F, H>)
    ensures
        data@.inode == data.inode,
        data@.refcount == data.refcount,
        data@.ids == data.ids,
        data@.mode == data.mode,
        data@.migration_info == data.migration_info,
        data@.file_or_handle == data.file_or_handle@,
        match data.file_or_handle {
            FileOrHandle::File(f) => data@.file_or_handle == FileOrHandleView::<F, H>::File(f),
            FileOrHandle::Handle(h) => data@.file_or_handle == FileOrHandleView::<F, H>::Handle(h),
            FileOrHandle::Invalid(e) => data@.file_or_handle == FileOrHandleView::<F, H>::Invalid(
                ErrorView { kind: e.kind, message: e.message@ },
            ),
        },
{
}

/// What is said of an open file is what it is, field by field.
pub proof fn law_open_file_view<F>(data: HandleData<F>)
    ensures
        data@.inode == data.inode,
        data@.migration_info == data.migration_info,
        data@.file == data.file@,
        match data.file {
            HandleDataFile::File(f) => data@.file == HandleDataFileView::File(f),
            HandleDataFile::Invalid(e) => data@.file == HandleDataFileView::<F>::Invalid(
                ErrorView { kind: e.kind, message: e.message@ },
            ),
        },
{
}

/// What is said of a file system is what it is, entry by entry.
pub proof fn law_file_system_view<F, H>(fs: PassthroughFs<F, H>, id: u64, name: Seq<char>)
    ensures
        fs@.cfg == fs.cfg,
        fs@.writeback == fs.writeback,
        fs@.announce_submounts == fs.announce_submounts,
        fs@.posix_acl == fs.posix_acl,
        fs@.sup_group_extension == fs.sup_group_extension,
        fs@.next_inode == fs.next_inode,
        fs@.next_handle == fs.next_handle,
        fs@.inodes.contains_key(id) <==> fs.inodes@.contains_key(id),
        fs.inodes@.contains_key(id) ==> fs@.inodes[id] == fs.inodes@[id]@,
        fs@.handles.contains_key(id) <==> fs.handles@.contains_key(id),
        fs.handles@.contains_key(id) ==> fs@.handles[id] == fs.handles@[id]@,
        fs@.filter.contains_key(id) <==> fs.filter@.contains_key(id),
        fs.filter@.contains_key(id) ==> fs@.filter[id] == (fs.filter@[id].0@, fs.filter@[id].1@),
        fs@.filter_path_remap.contains_key(name) <==> fs.filter_path_remap@.contains_key(name),
        fs.filter_path_remap@.contains_key(name) ==> fs@.filter_path_remap[name]
            == fs.filter_path_remap@[name]@,
{
}

/// What is said of a result is whether it is a success, and its value or its error.
pub proof fn law_result_views<T>(
    plain: Result<T, Error>,
    string: Result<String, Error>,
    checked: Option<Result<(), Error>>,
    named: Option<Result<SerializableFileHandle, Error>>,
    path: Option<String>,
)
    ensures
        match plain {
            Ok(value) => plain_result_view(plain) == Ok::<T, ErrorView>(value),
            Err(error) => plain_result_view(plain) == Err::<T, ErrorView>(error@),
        },
        match string {
            Ok(value) => result_view(string) == Ok::<Seq<char>, ErrorView>(value@),
            Err(error) => result_view(string) == Err::<Seq<char>, ErrorView>(error@),
        },
        match checked {
            None => check_view(checked) is None,
            Some(Ok(_)) => check_view(checked) == Some(Ok::<(), ErrorView>(())),
            Some(Err(error)) => check_view(checked) == Some(Err::<(), ErrorView>(error@)),
        },
        match named {
            None => named_view(named) is None,
            Some(Ok(handle)) => named_view(named) == Some(
                Ok::<SerializableFileHandle, ErrorView>(handle),
            ),
            Some(Err(error)) => named_view(named) == Some(
                Err::<SerializableFileHandle, ErrorView>(error@),
            ),
        },
        match path {
            None => path_view(path) is None,
            Some(value) => path_view(path) == Some(value@),
        },
{
}

/// What is said of a reply is what the host has replied.
pub proof fn law_reply_view<F, H>(reply: Reply<F, H>, failure: OpenError)
    ensures
        match reply {
            Reply::Root(result) => reply@ == ReplyView::Root(plain_result_view(result)),
            Reply::Opened(Ok(file)) => reply@ == ReplyView::<F, H>::Opened(Ok(file)),
            Reply::Opened(Err(error)) => reply@ == ReplyView::<F, H>::Opened(Err(error@)),
            Reply::Stat(result) => reply@ == ReplyView::<F, H>::Stat(plain_result_view(result)),
            Reply::FileHandle(result) => reply@ == ReplyView::<F, H>::FileHandle(
                plain_result_view(result),
            ),
            Reply::Openable(result) => reply@ == ReplyView::<F, H>::Openable(
                plain_result_view(result),
            ),
            Reply::Identity(result) => reply@ == ReplyView::<F, H>::Identity(
                plain_result_view(result),
            ),
            Reply::File(result) => reply@ == ReplyView::<F, H>::File(plain_result_view(result)),
            Reply::Path(path) => reply@ == ReplyView::<F, H>::Path(path_view(path)),
        },
        failure@.directory == path_view(failure.directory),
        failure@.error == failure.error@,
{
}

/// What is said of a request is what the host is to do.
pub proof fn law_request_view<F, H>(request: Request<'_, F, H>)
    ensures
        request_view(Some(request)) == Some(request@),
        request_view(None::<Request<'_, F, H>>) is None,
        match request {
            Request::OpenRoot => request@ == RequestView::<F, H>::OpenRoot,
            Request::OpenAt { directory, filename, how } => request@ == RequestView::OpenAt {
                directory: directory@,
                filename: filename@,
                how,
            },
            Request::Stat { file } => request@ == RequestView::<F, H>::Stat { file: *file },
            Request::FileHandle { file, stat } => request@ == RequestView::<F, H>::FileHandle {
                file: *file,
                stat,
            },
            Request::MakeOpenable { handle } => request@ == RequestView::<F, H>::MakeOpenable {
                handle: *handle,
            },
            Request::Identify { file } => request@ == RequestView::<F, H>::Identify { file: *file },
            Request::OpenFile { inode, flags } => request@ == RequestView::OpenFile {
                inode: inode@,
                flags,
            },
            Request::InodePath { inode } => request@ == RequestView::InodePath { inode: inode@ },
        },
{
}

/// What is said of a lookup, of its target and of how far an inode has come is what they are.
pub proof fn law_progress_view<F, H>(
    lookup: PathLookup<F, H>,
    target: Target,
    progress: Progress<F, H>,
)
    ensures
        match lookup {
            PathLookup::NotOpened { directory, filename, error } => lookup@ == PathLookupView::<
                F,
                H,
            >::NotOpened { directory: directory@, filename: filename@, error: error@ },
            PathLookup::Failed(error) => lookup@ == PathLookupView::<F, H>::Failed(error@),
            PathLookup::Found { node, stat } => lookup@ == PathLookupView::Found { node, stat },
        },
        target@.parent == target.parent,
        target@.filename == target.filename@,
        target@.is_filter == target.is_filter,
        target@.checked == target.checked,
        match progress {
            Progress::Deferred => progress@ == ProgressView::<F, H>::Deferred,
            Progress::Restored => progress@ == ProgressView::<F, H>::Restored,
            Progress::OpenRoot => progress@ == ProgressView::<F, H>::OpenRoot,
            Progress::IdentifyRoot => progress@ == ProgressView::<F, H>::IdentifyRoot,
            Progress::LookUp(target) => progress@ == ProgressView::<F, H>::LookUp(target@),
            Progress::Identify(target, data) => progress@ == ProgressView::Identify(
                target@,
                data@,
            ),
        },
{
}

} // verus!
