//! When two files are the same.

use vstd::prelude::*;

use crate::error::{invalid_inode_error, ErrorKind, ErrorView};
use crate::file_handle::SerializableFileHandle;
use crate::passthrough::{FileOrHandleView, InodeView};
use crate::serialized::Inode;
use crate::text::decimal;

verus! {

/// Two file handles are those of one file if and only if their types are equal and their contents
/// are equal at every index. The mounts do not matter.
pub proof fn law_same_file(a: SerializableFileHandle, b: SerializableFileHandle)
    ensures
        a.same_file(b) <==> {
            &&& a.handle_type == b.handle_type
            &&& a.handle@.len() == b.handle@.len()
            &&& forall|j: int| 0 <= j < a.handle@.len() ==> a.handle@[j] == b.handle@[j]
        },
{
    if a.handle@.len() == b.handle@.len() && (forall|j: int|
        0 <= j < a.handle@.len() ==> a.handle@[j] == b.handle@[j]) {
        assert(a.handle@ =~= b.handle@);
    }
}

/// One byte that differs, at whatever index, makes two file handles those of different files, and
/// the check of an inode fail.
pub proof fn law_every_byte_counts(
    inode: Inode,
    actual: SerializableFileHandle,
    j: int,
)
    requires
        inode.file_handle is Some,
        0 <= j < actual.handle@.len(),
        j < (inode.file_handle->0).handle@.len(),
        actual.handle@[j] != (inode.file_handle->0).handle@[j],
    ensures
        !actual.same_file(inode.file_handle->0),
        inode.comparison(actual) is Err,
{
}

/// To be the handles of one file is an equivalence.
pub proof fn law_same_file_is_an_equivalence(
    a: SerializableFileHandle,
    b: SerializableFileHandle,
    c: SerializableFileHandle,
)
    ensures
        a.same_file(a),
        a.same_file(b) ==> b.same_file(a),
        a.same_file(b) && b.same_file(c) ==> a.same_file(c),
{
}

/// An inode passes the comparison with a file handle if and only if the source sent no handle for
/// it, or one that is equal in type and in every byte. The error names the inode.
pub proof fn law_comparison(inode: Inode, actual: SerializableFileHandle)
    ensures
        inode.file_handle is None ==> inode.comparison(actual) is Ok,
        inode.file_handle matches Some(reference) ==> (inode.comparison(actual) is Ok <==> {
            &&& actual.handle_type == reference.handle_type
            &&& actual.handle@.len() == reference.handle@.len()
            &&& forall|j: int|
                0 <= j < actual.handle@.len() ==> actual.handle@[j] == reference.handle@[j]
        }),
        inode.comparison(actual) matches Err(error) ==> {
            &&& error.kind == ErrorKind::Other
            &&& error.message == "Inode "@ + decimal(inode.id as nat)
                + " is not the same inode as in the migration source: "@ + "file handles differ"@
        },
{
    if let Some(reference) = inode.file_handle {
        law_same_file(actual, reference);
    }
}

/// What is compared: the handle by which the inode is held, or the one that the host tells of an
/// open file. An inode for which the source sent no handle passes unseen. One that is invalid does
/// not pass.
pub proof fn law_check<F, H>(
    inode: Inode,
    data: InodeView<F, H>,
    named: Option<Result<SerializableFileHandle, ErrorView>>,
)
    ensures
        ({
            let result = inode.check_result(data, named);
            &&& inode.file_handle is None ==> result == Some(Ok::<(), ErrorView>(()))
            &&& inode.file_handle is Some ==> match data.file_or_handle {
                FileOrHandleView::Handle(held) => result == Some(inode.comparison(held.handle)),
                FileOrHandleView::Invalid(error) => result == Some(
                    Err::<(), ErrorView>(invalid_inode_error(error)),
                ),
                FileOrHandleView::File(_) => {
                    &&& named is None ==> result is None
                    &&& named matches Some(Err(error)) ==> result == Some(
                        Err::<(), ErrorView>(error),
                    )
                    &&& named matches Some(Ok(actual)) ==> result == Some(inode.comparison(actual))
                },
            }
        }),
{
}

} // verus!
