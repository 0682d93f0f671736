//! What taking and dropping a reference does.

use vstd::prelude::*;

use crate::passthrough::{with_reference, without_reference, InodeView};

verus! {

/// Taking a reference counts one up, and changes nothing else. The count wraps.
pub proof fn law_reference_taken<F, H>(inodes: Map<u64, InodeView<F, H>>, id: u64, other: u64)
    ensures
        ({
            let after = with_reference(inodes, id);
            &&& after.contains_key(other) <==> inodes.contains_key(other)
            &&& inodes.contains_key(other) && other != id ==> after[other] == inodes[other]
            &&& inodes.contains_key(id) ==> {
                &&& after[id].inode == inodes[id].inode
                &&& after[id].file_or_handle == inodes[id].file_or_handle
                &&& after[id].ids == inodes[id].ids
                &&& after[id].mode == inodes[id].mode
                &&& after[id].migration_info == inodes[id].migration_info
                &&& after[id].refcount == (inodes[id].refcount + 1) % (u64::MAX + 1)
            }
        }),
{
}

/// Dropping a reference counts one down, and changes nothing else. An inode is forgotten with its
/// last reference.
pub proof fn law_reference_dropped<F, H>(inodes: Map<u64, InodeView<F, H>>, id: u64, other: u64)
    ensures
        ({
            let after = without_reference(inodes, id);
            &&& other != id ==> (after.contains_key(other) <==> inodes.contains_key(other))
            &&& inodes.contains_key(other) && other != id ==> after[other] == inodes[other]
            &&& after.contains_key(id) <==> inodes.contains_key(id) && inodes[id].refcount > 1
            &&& after.contains_key(id) ==> {
                &&& after[id].inode == inodes[id].inode
                &&& after[id].file_or_handle == inodes[id].file_or_handle
                &&& after[id].ids == inodes[id].ids
                &&& after[id].mode == inodes[id].mode
                &&& after[id].migration_info == inodes[id].migration_info
                &&& after[id].refcount == inodes[id].refcount - 1
            }
        }),
{
}

} // verus!
