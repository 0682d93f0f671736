//! What each step of an inode comes to.

use vstd::prelude::*;

use super::identity::law_comparison;
use crate::deserialization::{
    lost_inode_error, non_root_id_error, root_path_error, PathLookupView, ProgressView, RootNode,
    StepView, TargetView,
};
use crate::error::{invalid_inode_error, ErrorView};
use crate::file_handle::SerializableFileHandle;
use crate::passthrough::{
    double_use_error, with_reference, without_reference, FileOrHandleView, FsView, InodeIds,
    InodeView, MigrationOnError, Node, Stat, ROOT_ID,
};
use crate::serialized::{Inode, InodeLocation};
use crate::text::decimal;

verus! {

/// `step` adds the inode `id` so to `before`, with a filter entry where the target is a filter
/// root, and changes nothing else; a number that is in use is refused.
pub open spec fn adds<F, H>(
    step: StepView<F, H>,
    before: FsView<F, H>,
    target: TargetView,
    id: u64,
    data: InodeView<F, H>,
) -> bool {
    if before.inodes.contains_key(id) {
        &&& step.result == Err::<ProgressView<F, H>, ErrorView>(double_use_error(id))
        &&& step.fs == before
    } else {
        &&& step.result == Ok::<ProgressView<F, H>, ErrorView>(ProgressView::Restored)
        &&& step.fs.inodes == before.inodes.insert(id, data)
        &&& step.fs.filter == if target.is_filter {
            before.filter.insert(id, (target.filename, target.filename))
        } else {
            before.filter
        }
        &&& step.fs == FsView { inodes: step.fs.inodes, filter: step.fs.filter, ..before }
    }
}

/// `step` gives the inode up because of `error`. Where errors abort the migration, it fails with the
/// error, the number of the inode in front, and changes nothing. Where the guest is to have them, it
/// adds an invalid inode that keeps the error and the references.
pub open spec fn gives_up<F, H>(
    step: StepView<F, H>,
    before: FsView<F, H>,
    target: TargetView,
    inode: Inode,
    error: ErrorView,
) -> bool {
    match before.cfg.migration_on_error {
        MigrationOnError::Abort => {
            &&& step.fs == before
            &&& step.result matches Err(told)
            &&& told.kind == error.kind
            &&& told.message == "Inode "@ + decimal(inode.id as nat) + ": "@ + error.message
        },
        MigrationOnError::GuestError => adds(
            step,
            before,
            target,
            inode.id,
            InodeView {
                inode: inode.id,
                file_or_handle: FileOrHandleView::Invalid(error),
                refcount: inode.refcount,
                ids: InodeIds { ino: 0, dev: 0, mnt_id: 0 },
                mode: 0,
                migration_info: None,
            },
        ),
    }
}

/// An inode that has been found is added as what was found, with the status that the host has told
/// and the references of the source, under either setting of what to do about errors: if there is
/// nothing to check, or if it is held by a handle that is equal to the one on the source in type and
/// in every byte. Whatever comes of it, the lookup drops its reference to the directory.
pub proof fn law_found_inode_is_added<F, H>(
    inode: Inode,
    fs: FsView<F, H>,
    target: TargetView,
    node: Node<F, H>,
    stat: Stat,
)
    requires
        !target.checked || inode.file_handle is None || (node matches Node::Handle(held) && ({
            let reference = inode.file_handle->0;
            &&& held.handle.handle_type == reference.handle_type
            &&& held.handle.handle@.len() == reference.handle@.len()
            &&& forall|j: int|
                0 <= j < reference.handle@.len() ==> held.handle.handle@[j] == reference.handle@[j]
        })),
    ensures
        adds(
            inode.looked_up(fs, target, PathLookupView::Found { node, stat }),
            FsView { inodes: without_reference(fs.inodes, target.parent), ..fs },
            target,
            inode.id,
            InodeView {
                inode: inode.id,
                file_or_handle: match node {
                    Node::File(file) => FileOrHandleView::File(file),
                    Node::Handle(handle) => FileOrHandleView::Handle(handle),
                },
                refcount: inode.refcount,
                ids: stat.ids,
                mode: stat.mode,
                migration_info: None,
            },
        ),
{
    reveal(Inode::looked_up);
    if let Node::Handle(held) = node {
        law_comparison(inode, held.handle);
    }
}

/// An inode that has been found and is held by a handle that differs from the one on the source is
/// given up.
pub proof fn law_other_handle_is_given_up<F, H>(
    inode: Inode,
    fs: FsView<F, H>,
    target: TargetView,
    node: Node<F, H>,
    stat: Stat,
)
    requires
        target.checked,
        inode.file_handle is Some,
        node matches Node::Handle(held) && !({
            let reference = inode.file_handle->0;
            &&& held.handle.handle_type == reference.handle_type
            &&& held.handle.handle@.len() == reference.handle@.len()
            &&& forall|j: int|
                0 <= j < reference.handle@.len() ==> held.handle.handle@[j] == reference.handle@[j]
        }),
    ensures
        inode.comparison((node->Handle_0).handle) is Err,
        gives_up(
            inode.looked_up(fs, target, PathLookupView::Found { node, stat }),
            FsView { inodes: without_reference(fs.inodes, target.parent), ..fs },
            target,
            inode,
            inode.comparison((node->Handle_0).handle)->Err_0,
        ),
{
    reveal(Inode::looked_up);
    law_comparison(inode, (node->Handle_0).handle);
}

/// An inode that has been found, is open, and has a handle on the source is not added before the
/// host has told its handle.
pub proof fn law_open_inode_is_identified<F, H>(
    inode: Inode,
    fs: FsView<F, H>,
    target: TargetView,
    file: F,
    stat: Stat,
)
    requires
        target.checked,
        inode.file_handle is Some,
    ensures
        inode.looked_up(fs, target, PathLookupView::Found { node: Node::File(file), stat }) == (
        StepView {
            fs: FsView { inodes: without_reference(fs.inodes, target.parent), ..fs },
            result: Ok(
                ProgressView::Identify(
                    target,
                    InodeView {
                        inode: inode.id,
                        file_or_handle: FileOrHandleView::File(file),
                        refcount: inode.refcount,
                        ids: stat.ids,
                        mode: stat.mode,
                        migration_info: None,
                    },
                ),
            ),
        }),
{
    reveal(Inode::looked_up);
}

/// An inode whose handle the host has told is added as it was found, if the handle is equal to the
/// one on the source in type and in every byte, and else given up.
pub proof fn law_identified_inode<F, H>(
    inode: Inode,
    fs: FsView<F, H>,
    target: TargetView,
    data: InodeView<F, H>,
    named: Result<SerializableFileHandle, ErrorView>,
)
    requires
        target.checked,
        inode.file_handle is Some,
        data.file_or_handle is File,
        data.inode == inode.id,
    ensures
        ({
            let step = inode.checked(fs, target, data, Some(named));
            let reference = inode.file_handle->0;
            match named {
                Err(error) => gives_up(step, fs, target, inode, error),
                Ok(actual) => if actual.handle_type == reference.handle_type
                    && actual.handle@.len() == reference.handle@.len() && (forall|j: int|
                    0 <= j < reference.handle@.len() ==> actual.handle@[j]
                        == reference.handle@[j]) {
                    adds(step, fs, target, inode.id, data)
                } else {
                    &&& inode.comparison(actual) is Err
                    &&& gives_up(step, fs, target, inode, inode.comparison(actual)->Err_0)
                },
            }
        }),
{
    if let Ok(actual) = named {
        law_comparison(inode, actual);
    }
}

/// What a check of an inode leads to: it is added as it is if it passes or is not to be checked, the
/// host is asked if that is needed, and an inode that does not pass is given up.
pub proof fn law_check_leads_on<F, H>(
    inode: Inode,
    fs: FsView<F, H>,
    target: TargetView,
    data: InodeView<F, H>,
    named: Option<Result<SerializableFileHandle, ErrorView>>,
)
    requires
        data.inode == inode.id,
    ensures
        ({
            let step = inode.checked(fs, target, data, named);
            let check = inode.check_result(data, named);
            &&& !target.checked || (check matches Some(Ok(_))) ==> adds(
                step,
                fs,
                target,
                inode.id,
                data,
            )
            &&& target.checked && check is None ==> step == (StepView {
                fs,
                result: Ok(ProgressView::Identify(target, data)),
            })
            &&& target.checked ==> (check matches Some(Err(error)) ==> gives_up(
                step,
                fs,
                target,
                inode,
                error,
            ))
        }),
{
}

/// An inode whose lookup has failed is given up, for the reason that the lookup gives. If it has a
/// handle on the source, that cannot be checked either, and this is then what the guest is told.
pub proof fn law_failed_lookup<F, H>(
    inode: Inode,
    fs: FsView<F, H>,
    target: TargetView,
    lookup: PathLookupView<F, H>,
)
    requires
        !(lookup is Found),
    ensures
        ({
            let step = inode.looked_up(fs, target, lookup);
            let ended = FsView { inodes: without_reference(fs.inodes, target.parent), ..fs };
            let unseen = fs.cfg.migration_on_error is GuestError && target.checked
                && inode.file_handle is Some;
            &&& inode.path_result(lookup) matches Err(error)
            &&& gives_up(
                step,
                ended,
                target,
                inode,
                if unseen {
                    invalid_inode_error(error)
                } else {
                    error
                },
            )
        }),
{
    reveal(Inode::looked_up);
}

/// In a directory that is there and not invalid a path is looked up; in an invalid one the lookup
/// has failed, because of what made the directory invalid.
pub proof fn law_lookup_starts<F, H>(inode: Inode, fs: FsView<F, H>, target: TargetView)
    ensures
        match fs.inodes[target.parent].file_or_handle {
            FileOrHandleView::Invalid(error) => inode.look_up(fs, target) == inode.looked_up(
                fs,
                target,
                PathLookupView::Failed(invalid_inode_error(error)),
            ),
            _ => inode.look_up(fs, target) == (StepView {
                fs,
                result: Ok(ProgressView::LookUp(target)),
            }),
        },
{
}

/// The first step of an inode that is the root node: it is opened if its number is the root's.
pub proof fn law_first_step_of_root<F, H>(inode: Inode, fs: FsView<F, H>)
    requires
        inode.location is RootNode,
    ensures
        inode.first_step(fs).fs == fs,
        inode.id == ROOT_ID ==> inode.first_step(fs).result matches Ok(ProgressView::OpenRoot),
        inode.id != ROOT_ID ==> inode.first_step(fs).result == Err::<
            ProgressView<F, H>,
            ErrorView,
        >(non_root_id_error(inode.id)),
{
}

/// The first step of an inode that the source has lost: it is given up.
pub proof fn law_first_step_of_lost<F, H>(inode: Inode, fs: FsView<F, H>, target: TargetView)
    requires
        inode.location is Invalid,
        !target.is_filter,
    ensures
        gives_up(inode.first_step(fs), fs, target, inode, lost_inode_error(inode.id)),
{
}

/// The first step of an inode with a path in a directory. The root must not have one. While the
/// directory is not there, the inode waits. Then it is looked up there, a filter root by the path at
/// which it is now, any other by its name, and checked; the reference that it holds to the directory
/// is the one that the source has counted.
pub proof fn law_first_step_of_path<F, H>(
    inode: Inode,
    fs: FsView<F, H>,
    parent: u64,
    filename: String,
    fullname: String,
)
    requires
        inode.location == (InodeLocation::Path { parent, filename, fullname }),
    ensures
        ({
            let step = inode.first_step(fs);
            let is_filter = fullname@.len() > 0 && fullname@[0] == '/';
            let known = fs.filter_path_remap.contains_key(filename@);
            &&& inode.id == ROOT_ID ==> step.fs == fs && step.result == Err::<
                ProgressView<F, H>,
                ErrorView,
            >(root_path_error())
            &&& inode.id != ROOT_ID && !fs.inodes.contains_key(parent) ==> step.fs == fs && (
            step.result matches Ok(ProgressView::Deferred))
            &&& inode.id != ROOT_ID && fs.inodes.contains_key(parent) ==> step == inode.look_up(
                fs,
                TargetView {
                    parent,
                    filename: if is_filter && known {
                        fs.filter_path_remap[filename@]
                    } else if is_filter {
                        fullname@
                    } else {
                        filename@
                    },
                    is_filter,
                    checked: true,
                },
            )
        }),
{
}

/// The first step of an inode with a path below the root. The root itself must not have one. While
/// the root is not there, the inode waits. Then it is looked up there by its path, unchecked, with a
/// reference to the root that is taken for the lookup.
pub proof fn law_first_step_of_full_path<F, H>(inode: Inode, fs: FsView<F, H>, filename: String)
    requires
        inode.location == (InodeLocation::FullPath { filename }),
    ensures
        ({
            let step = inode.first_step(fs);
            &&& inode.id == ROOT_ID ==> step.fs == fs && step.result == Err::<
                ProgressView<F, H>,
                ErrorView,
            >(root_path_error())
            &&& inode.id != ROOT_ID && !fs.inodes.contains_key(ROOT_ID) ==> step.fs == fs && (
            step.result matches Ok(ProgressView::Deferred))
            &&& inode.id != ROOT_ID && fs.inodes.contains_key(ROOT_ID) ==> step == inode.look_up(
                FsView { inodes: with_reference(fs.inodes, ROOT_ID), ..fs },
                TargetView {
                    parent: ROOT_ID,
                    filename: filename@,
                    is_filter: false,
                    checked: false,
                },
            )
        }),
{
}

/// An inode waits just if the directory that it is looked up in is not there.
pub proof fn law_waiting<F, H>(inode: Inode, inodes: Map<u64, InodeView<F, H>>)
    ensures
        match inode.location {
            InodeLocation::RootNode | InodeLocation::Invalid => !inode.blocked(inodes),
            InodeLocation::Path { parent, .. } => inode.blocked(inodes) <==> inode.id != ROOT_ID
                && !inodes.contains_key(parent),
            InodeLocation::FullPath { .. } => inode.blocked(inodes) <==> inode.id != ROOT_ID
                && !inodes.contains_key(ROOT_ID),
        },
{
}

/// The root node is added as the host has opened it, with the references that it has on the source.
/// Then its handle is checked, if it has one on the source; until the host has told it, that is open
/// for a root that is held open.
pub proof fn law_root_added<F, H>(
    inode: Inode,
    fs: FsView<F, H>,
    opened: Result<RootNode<F, H>, ErrorView>,
)
    ensures
        ({
            let step = inode.root_added(fs, opened);
            match opened {
                Err(error) => step == (StepView { fs, result: Err(error) }),
                Ok(root) => if fs.inodes.contains_key(ROOT_ID) {
                    step == (StepView { fs, result: Err(double_use_error(ROOT_ID)) })
                } else {
                    let data = InodeView {
                        inode: ROOT_ID,
                        file_or_handle: match root.node {
                            Node::File(file) => FileOrHandleView::File(file),
                            Node::Handle(handle) => FileOrHandleView::Handle(handle),
                        },
                        refcount: inode.refcount,
                        ids: root.stat.ids,
                        mode: root.stat.mode,
                        migration_info: root.migration_info,
                    };
                    &&& step.fs == FsView { inodes: fs.inodes.insert(ROOT_ID, data), ..fs }
                    &&& inode.file_handle is None ==> (step.result matches Ok(
                        ProgressView::Restored,
                    ))
                    &&& inode.file_handle is Some ==> match root.node {
                        Node::File(_) => step.result matches Ok(ProgressView::IdentifyRoot),
                        Node::Handle(held) => match inode.comparison(held.handle) {
                            Ok(_) => step.result matches Ok(ProgressView::Restored),
                            Err(error) => step.result == Err::<ProgressView<F, H>, ErrorView>(
                                error,
                            ),
                        },
                    }
                },
            }
        }),
{
}

/// The root node passes once the host has told its handle, if the handle is the one on the source.
/// If not, or if the host cannot tell, that is an error, whatever is to be done about errors.
pub proof fn law_root_checked<F, H>(
    inode: Inode,
    fs: FsView<F, H>,
    named: Result<SerializableFileHandle, ErrorView>,
)
    requires
        inode.file_handle is Some,
        fs.inodes[ROOT_ID].file_or_handle is File,
    ensures
        ({
            let step = inode.root_checked(fs, Some(named));
            &&& step.fs == fs
            &&& match named {
                Err(error) => step.result == Err::<ProgressView<F, H>, ErrorView>(error),
                Ok(actual) => match inode.comparison(actual) {
                    Ok(_) => step.result matches Ok(ProgressView::Restored),
                    Err(error) => step.result == Err::<ProgressView<F, H>, ErrorView>(error),
                },
            }
        }),
{
}

/// What a check of the root leads to, be it held open or by its handle, changes nothing.
pub proof fn law_root_check_leads_on<F, H>(
    inode: Inode,
    fs: FsView<F, H>,
    named: Option<Result<SerializableFileHandle, ErrorView>>,
)
    ensures
        ({
            let step = inode.root_checked(fs, named);
            &&& step.fs == fs
            &&& match inode.check_result(fs.inodes[ROOT_ID], named) {
                None => step.result matches Ok(ProgressView::IdentifyRoot),
                Some(Ok(_)) => step.result matches Ok(ProgressView::Restored),
                Some(Err(error)) => step.result == Err::<ProgressView<F, H>, ErrorView>(error),
            }
        }),
{
}

/// An inode that cannot be located because of `error`: where errors abort the migration, that is an
/// error that names the inode; where the guest is to have them, an invalid inode with its number and
/// its references, and nothing else of its own.
pub proof fn law_inode_that_cannot_be_located<F, H>(inode: Inode, error: ErrorView)
    ensures
        inode.invalid_result::<F, H>(MigrationOnError::Abort, error) matches Err(told) && told.kind
            == error.kind && told.message == "Inode "@ + decimal(inode.id as nat) + ": "@
            + error.message,
        inode.invalid_result::<F, H>(MigrationOnError::GuestError, error) == Ok::<
            InodeView<F, H>,
            ErrorView,
        >(
            InodeView {
                inode: inode.id,
                file_or_handle: FileOrHandleView::Invalid(error),
                refcount: inode.refcount,
                ids: InodeIds { ino: 0, dev: 0, mnt_id: 0 },
                mode: 0,
                migration_info: None,
            },
        ),
{
}

/// An inode that has been located is what was found, with its number and its references.
pub proof fn law_inode_that_has_been_located<F, H>(inode: Inode, node: Node<F, H>, stat: Stat)
    ensures
        inode.path_result(PathLookupView::Found { node, stat }) == Ok::<InodeView<F, H>, ErrorView>(
            InodeView {
                inode: inode.id,
                file_or_handle: match node {
                    Node::File(file) => FileOrHandleView::File(file),
                    Node::Handle(handle) => FileOrHandleView::Handle(handle),
                },
                refcount: inode.refcount,
                ids: stat.ids,
                mode: stat.mode,
                migration_info: None,
            },
        ),
{
}

/// What to do about errors does not matter to an inode that meets none.
pub proof fn law_setting_matters_for_errors_alone<F, H>(
    inode: Inode,
    a: FsView<F, H>,
    b: FsView<F, H>,
    target: TargetView,
    node: Node<F, H>,
    stat: Stat,
)
    requires
        a.inodes == b.inodes,
        inode.file_handle is None || !target.checked,
    ensures
        ({
            let x = inode.looked_up(a, target, PathLookupView::Found { node, stat });
            let y = inode.looked_up(b, target, PathLookupView::Found { node, stat });
            &&& x.result == y.result
            &&& x.fs.inodes == y.fs.inodes
        }),
{
    reveal(Inode::looked_up);
}

} // verus!
