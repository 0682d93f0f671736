//! What a step does to the file system.

use vstd::prelude::*;

use crate::deserialization::{PathLookupView, ProgressView, RootNode, TargetView};
use crate::error::ErrorView;
use crate::file_handle::SerializableFileHandle;
use crate::passthrough::{with_reference, without_reference, FsView, InodeView, ROOT_ID};
use crate::serialized::{Inode, InodeLocation};

verus! {

impl Inode {
    /// The inode is found by a path.
    pub open spec fn has_path(self) -> bool {
        self.location is Path || self.location is FullPath
    }

    /// Where the inode is looked up, if it has a path.
    pub open spec fn target<F, H>(self, fs: FsView<F, H>) -> TargetView {
        match self.location {
            InodeLocation::Path { parent, filename, fullname } => self.path_target(
                fs,
                parent,
                filename@,
                fullname@,
            ),
            InodeLocation::FullPath { filename } => TargetView {
                parent: ROOT_ID,
                filename: filename@,
                is_filter: false,
                checked: false,
            },
            _ => TargetView {
                parent: ROOT_ID,
                filename: Seq::empty(),
                is_filter: false,
                checked: false,
            },
        }
    }

    /// The filter entries once the inode is there: a filter root has the path at which it is open.
    pub open spec fn filter_after<F, H>(self, fs: FsView<F, H>) -> Map<
        u64,
        (Seq<char>, Seq<char>),
    > {
        match self.location {
            InodeLocation::Path { filename, fullname, .. } => if self.is_filter() {
                fs.filter.insert(
                    self.id,
                    (fs.remapped(filename@, fullname@), fs.remapped(filename@, fullname@)),
                )
            } else {
                fs.filter
            },
            _ => fs.filter,
        }
    }

    /// `after` is `before` with this inode added, and nothing else changed.
    pub open spec fn entered<F, H>(self, before: FsView<F, H>, after: FsView<F, H>) -> bool {
        &&& !before.inodes.contains_key(self.id)
        &&& after.inodes[self.id].inode == self.id
        &&& after.inodes[self.id].refcount == self.refcount
        &&& after == FsView {
            inodes: before.inodes.insert(self.id, after.inodes[self.id]),
            filter: self.filter_after(before),
            ..before
        }
    }

    /// `after` is `before` once this inode has been restored. A lookup has dropped the reference to
    /// the directory.
    pub open spec fn restored<F, H>(self, before: FsView<F, H>, after: FsView<F, H>) -> bool {
        if self.has_path() {
            &&& before.inodes.contains_key(self.target(before).parent)
            &&& self.entered(lookup_ended(self, lookup_started(self, before)), after)
        } else {
            self.entered(before, after)
        }
    }

    /// `data` is for this inode.
    pub open spec fn fits<F, H>(self, data: InodeView<F, H>) -> bool {
        data.inode == self.id && data.refcount == self.refcount
    }
}

/// The file system while a lookup is under way: it has a reference to its directory.
pub open spec fn lookup_started<F, H>(inode: Inode, fs: FsView<F, H>) -> FsView<F, H> {
    if inode.location is FullPath {
        FsView { inodes: with_reference(fs.inodes, ROOT_ID), ..fs }
    } else {
        fs
    }
}

/// The file system once a lookup has ended, but for the inode itself.
pub open spec fn lookup_ended<F, H>(inode: Inode, fs: FsView<F, H>) -> FsView<F, H> {
    FsView { inodes: without_reference(fs.inodes, inode.target(fs).parent), ..fs }
}

pub(super) proof fn lemma_checked<F, H>(
    inode: Inode,
    fs: FsView<F, H>,
    data: InodeView<F, H>,
    named: Option<Result<SerializableFileHandle, ErrorView>>,
)
    requires
        inode.has_path(),
        inode.fits(data),
    ensures
        ({
            let step = inode.checked(fs, inode.target(fs), data, named);
            match step.result {
                Err(_) => true,
                Ok(ProgressView::Restored) => inode.entered(fs, step.fs),
                Ok(ProgressView::Identify(target, identified)) => {
                    &&& step.fs == fs
                    &&& target == inode.target(fs)
                    &&& identified == data
                    &&& inode.location is Path
                    &&& named is None
                },
                Ok(_) => false,
            }
        }),
{
    let step = inode.checked(fs, inode.target(fs), data, named);
    if step.result == Ok::<ProgressView<F, H>, ErrorView>(ProgressView::Restored) {
        let added = step.fs.inodes[inode.id];
        assert(step.fs =~= FsView {
            inodes: fs.inodes.insert(inode.id, added),
            filter: inode.filter_after(fs),
            ..fs
        });
    }
}

pub(super) proof fn lemma_looked_up<F, H>(
    inode: Inode,
    fs: FsView<F, H>,
    lookup: PathLookupView<F, H>,
)
    requires
        inode.has_path(),
    ensures
        ({
            let step = inode.looked_up(fs, inode.target(fs), lookup);
            match step.result {
                Err(_) => true,
                Ok(ProgressView::Restored) => inode.entered(lookup_ended(inode, fs), step.fs),
                Ok(ProgressView::Identify(target, data)) => {
                    &&& step.fs == lookup_ended(inode, fs)
                    &&& target == inode.target(fs)
                    &&& inode.fits(data)
                    &&& inode.location is Path
                },
                Ok(_) => false,
            }
        }),
{
    reveal(Inode::looked_up);
    let ended = lookup_ended(inode, fs);
    assert(inode.target(fs) == inode.target(ended));
    match inode.path_result(lookup) {
        Ok(data) => {
            lemma_checked(inode, ended, data, None);
        },
        Err(error) => {
            if let Ok(data) = inode.invalid_result::<F, H>(fs.cfg.migration_on_error, error) {
                lemma_checked(inode, ended, data, None);
            }
        },
    }
}

pub(super) proof fn lemma_first_step<F, H>(inode: Inode, fs: FsView<F, H>)
    requires
        !inode.blocked(fs.inodes),
    ensures
        ({
            let step = inode.first_step(fs);
            match step.result {
                Err(_) => true,
                Ok(ProgressView::OpenRoot) => {
                    &&& step.fs == fs
                    &&& inode.location is RootNode
                    &&& inode.id == ROOT_ID
                },
                Ok(ProgressView::LookUp(target)) => {
                    &&& step.fs == lookup_started(inode, fs)
                    &&& target == inode.target(fs)
                    &&& inode.has_path()
                    &&& inode.id != ROOT_ID
                    &&& fs.inodes.contains_key(target.parent)
                },
                Ok(ProgressView::Restored) => inode.restored(fs, step.fs),
                Ok(_) => false,
            }
        }),
{
    let started = lookup_started(inode, fs);
    assert(inode.has_path() ==> inode.target(fs) == inode.target(started));
    if inode.has_path() && inode.id != ROOT_ID {
        let target = inode.target(fs);
        if started.inodes[target.parent].file_or_handle is Invalid {
            let error = started.inodes[target.parent].file_or_handle->Invalid_0;
            let lookup = PathLookupView::Failed(crate::error::invalid_inode_error(error));
            lemma_looked_up(inode, started, lookup);
            lemma_failed_lookup_settles(inode, started, crate::error::invalid_inode_error(error));
        }
    } else if inode.location is Invalid {
        let step = inode.first_step(fs);
        if step.result == Ok::<ProgressView<F, H>, ErrorView>(ProgressView::Restored) {
            assert(step.fs =~= FsView {
                inodes: fs.inodes.insert(inode.id, step.fs.inodes[inode.id]),
                filter: inode.filter_after(fs),
                ..fs
            });
        }
    }
}

/// The host is not asked about an inode that has not been found.
pub(super) proof fn lemma_failed_lookup_settles<F, H>(
    inode: Inode,
    fs: FsView<F, H>,
    error: ErrorView,
)
    ensures
        !(inode.looked_up(fs, inode.target(fs), PathLookupView::Failed(error)).result matches Ok(
            ProgressView::Identify(_, _),
        )),
{
    reveal(Inode::looked_up);
}

pub(super) proof fn lemma_root_added<F, H>(
    inode: Inode,
    fs: FsView<F, H>,
    opened: Result<RootNode<F, H>, ErrorView>,
)
    requires
        inode.location is RootNode,
        inode.id == ROOT_ID,
    ensures
        ({
            let step = inode.root_added(fs, opened);
            match step.result {
                Err(_) => true,
                Ok(ProgressView::Restored) | Ok(ProgressView::IdentifyRoot) => inode.entered(
                    fs,
                    step.fs,
                ),
                Ok(_) => false,
            }
        }),
{
    let step = inode.root_added(fs, opened);
    if step.result is Ok {
        assert(step.fs =~= FsView {
            inodes: fs.inodes.insert(inode.id, step.fs.inodes[inode.id]),
            filter: inode.filter_after(fs),
            ..fs
        });
    }
}

} // verus!
