//! File handles: what identifies a file to its host.

use vstd::prelude::*;

verus! {

/// A file handle, and the mount that it belongs to.
#[derive(Debug, PartialEq, Eq)]
pub struct SerializableFileHandle {
    pub mount_id: u64,
    pub handle_type: i32,
    pub handle: Vec<u8>,
}

/// The reason that [`SerializableFileHandle::require_equal_without_mount_id`] gives.
pub open spec fn mismatch_text() -> Seq<char> {
    "file handles differ"@
}

impl SerializableFileHandle {
    /// The two handles agree in everything but the mount.
    pub open spec fn same_file(self, other: SerializableFileHandle) -> bool {
        &&& self.handle_type == other.handle_type
        &&& self.handle@ == other.handle@
    }

    /// Fails, with a reason, unless the two handles agree in everything but the mount.
    pub fn require_equal_without_mount_id(&self, other: &SerializableFileHandle) -> (result: Result<
        (),
        String,
    >)
        ensures
            match result {
                Ok(_) => self.same_file(*other),
                Err(reason) => !self.same_file(*other) && reason@ == mismatch_text(),
            },
            result is Ok <==> {
                &&& self.handle_type == other.handle_type
                &&& self.handle@.len() == other.handle@.len()
                &&& forall|j: int|
                    0 <= j < self.handle@.len() ==> self.handle@[j] == other.handle@[j]
            },
    {
        if self.handle_type != other.handle_type || self.handle.len() != other.handle.len() {
            return Err("file handles differ".to_owned());
        }
        let mut i: usize = 0;
        while i < self.handle.len()
            invariant
                i <= self.handle.len(),
                self.handle.len() == other.handle.len(),
                forall|j: int| 0 <= j < i ==> self.handle@[j] == other.handle@[j],
            decreases self.handle.len() - i,
        {
            if self.handle[i] != other.handle[i] {
                return Err("file handles differ".to_owned());
            }
            i = i + 1;
        }
        assert(self.handle@ =~= other.handle@);
        Ok(())
    }
}

} // verus!
