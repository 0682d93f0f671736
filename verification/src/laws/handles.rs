//! What each step of an open file comes to.

use vstd::prelude::*;

use crate::deserialization::{inode_not_found_error, HandleProgress, HandleStepView};
use crate::error::{invalid_inode_error, ErrorView};
use crate::passthrough::{
    FileOrHandleView, FsView, HandleDataFileView, HandleMigrationInfo, HandleView,
    MigrationOnError,
};
use crate::serialized::{Handle, HandleSource};

verus! {

/// `step` puts the open file so into the handle map, in place of what had its number, and changes
/// nothing else.
pub open spec fn puts<F, H>(
    step: HandleStepView<F, H>,
    before: FsView<F, H>,
    handle: Handle,
    file: HandleDataFileView<F>,
) -> bool {
    &&& step.result == Ok::<HandleProgress, ErrorView>(HandleProgress::Restored)
    &&& step.fs == FsView { handles: step.fs.handles, ..before }
    &&& handle.source matches HandleSource::OpenInode { flags } && step.fs.handles
        == before.handles.insert(
        handle.id,
        HandleView {
            inode: handle.inode,
            file,
            migration_info: HandleMigrationInfo::OpenInode { flags },
        },
    )
}

/// A file that the host has opened is put into the handle map as it is, under either setting of what
/// to do about errors.
pub proof fn law_opened_file_is_put<F, H>(handle: Handle, fs: FsView<F, H>, file: F)
    ensures
        puts(
            handle.handle_added(fs, HandleDataFileView::File(file)),
            fs,
            handle,
            HandleDataFileView::File(file),
        ),
{
}

/// An open file whose inode could not be opened is an error where errors abort the migration, and
/// changes nothing then. Where the guest is to have them, it is put into the handle map with the
/// error.
pub proof fn law_file_that_does_not_open<F, H>(
    handle: Handle,
    fs: FsView<F, H>,
    path: Option<Seq<char>>,
    error: ErrorView,
)
    ensures
        ({
            let step = handle.open_failed(fs, path, error);
            let told = handle.open_error(path, error);
            match fs.cfg.migration_on_error {
                MigrationOnError::Abort => step == (HandleStepView { fs, result: Err(told) }),
                MigrationOnError::GuestError => puts(
                    step,
                    fs,
                    handle,
                    HandleDataFileView::Invalid(told),
                ),
            }
        }),
{
}

/// The first step of an open file. Without its inode it is an error. An invalid inode does not open.
/// Any other is to be opened by the host, and nothing changes before.
pub proof fn law_first_step_of_file<F, H>(handle: Handle, fs: FsView<F, H>)
    ensures
        ({
            let step = handle.first_step(fs);
            if !fs.inodes.contains_key(handle.inode) {
                step == (HandleStepView { fs, result: Err(inode_not_found_error(handle.inode)) })
            } else {
                match fs.inodes[handle.inode].file_or_handle {
                    FileOrHandleView::Invalid(error) => step == handle.open_failed(
                        fs,
                        None,
                        invalid_inode_error(error),
                    ),
                    _ => step == (HandleStepView { fs, result: Ok(HandleProgress::Open) }),
                }
            }
        }),
{
}

} // verus!
