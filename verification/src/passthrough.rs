//! The pass-through file system: its configuration, its inodes and its open files.
//!
//! `F` stands for an open file of the host, `H` for what it takes to open a file by its handle.

use vstd::hash_map::StringHashMap;
use vstd::prelude::*;

use crate::error::{numbered_error, other_error_view, Error, ErrorView};
use crate::file_handle::SerializableFileHandle;
use crate::serialized::InodeLocation;
use crate::table::Table;

verus! {

/// The number of the root inode.
pub const ROOT_ID: u64 = 1;

/// What to do about an inode or an open file that cannot be restored.
#[derive(Clone, Copy, Debug, PartialEq, Eq, Structural)]
pub enum MigrationOnError {
    /// Give the migration up.
    Abort,
    /// Go on, and let the guest have an error whenever it uses the object.
    GuestError,
}

/// What the user has configured.
#[derive(Clone, Copy, Debug, PartialEq, Eq, Structural)]
pub struct Config {
    pub writeback: bool,
    pub announce_submounts: bool,
    pub posix_acl: bool,
    pub migration_on_error: MigrationOnError,
}

/// What identifies an inode on the host.
#[derive(Clone, Copy, Debug, PartialEq, Eq, Structural)]
pub struct InodeIds {
    pub ino: u64,
    pub dev: u64,
    pub mnt_id: u64,
}

/// What the host says about a file.
#[derive(Clone, Copy, Debug, PartialEq, Eq, Structural)]
pub struct Stat {
    pub ids: InodeIds,
    pub mode: u32,
}

/// A file handle that can be opened.
pub struct OpenableFileHandle<H> {
    pub handle: SerializableFileHandle,
    pub mount: H,
}

/// A file of the host, held open or by its handle.
pub enum Node<F, H> {
    File(F),
    Handle(OpenableFileHandle<H>),
}

impl<F, H> Node<F, H> {
    /// An inode that is this file is held so.
    pub open spec fn held(self) -> FileOrHandleView<F, H> {
        match self {
            Node::File(file) => FileOrHandleView::File(file),
            Node::Handle(handle) => FileOrHandleView::Handle(handle),
        }
    }

    /// An inode that is this file.
    pub fn hold(self) -> (result: FileOrHandle<F, H>)
        ensures
            result@ == self.held(),
    {
        match self {
            Node::File(file) => FileOrHandle::File(file),
            Node::Handle(handle) => FileOrHandle::Handle(handle),
        }
    }
}

/// How an inode is held.
pub enum FileOrHandle<F, H> {
    File(F),
    Handle(OpenableFileHandle<H>),
    /// It could not be restored, for this reason.
    Invalid(Error),
}

/// A [`FileOrHandle`] in specifications.
pub enum FileOrHandleView<F, H> {
    File(F),
    Handle(OpenableFileHandle<H>),
    Invalid(ErrorView),
}

impl<F, H> View for FileOrHandle<F, H> {
    type V = FileOrHandleView<F, H>;

    open spec fn view(&self) -> FileOrHandleView<F, H> {
        match *self {
            FileOrHandle::File(file) => FileOrHandleView::File(file),
            FileOrHandle::Handle(handle) => FileOrHandleView::Handle(handle),
            FileOrHandle::Invalid(error) => FileOrHandleView::Invalid(error@),
        }
    }
}

/// What a later migration needs to know of an inode.
pub struct InodeMigrationInfo {
    pub location: InodeLocation,
    pub file_handle: Option<SerializableFileHandle>,
}

/// An inode.
pub struct InodeData<F, H> {
    pub inode: u64,
    pub file_or_handle: FileOrHandle<F, H>,
    pub refcount: u64,
    pub ids: InodeIds,
    pub mode: u32,
    pub migration_info: Option<InodeMigrationInfo>,
}

/// An [`InodeData`] in specifications.
pub struct InodeView<F, H> {
    pub inode: u64,
    pub file_or_handle: FileOrHandleView<F, H>,
    pub refcount: u64,
    pub ids: InodeIds,
    pub mode: u32,
    pub migration_info: Option<InodeMigrationInfo>,
}

impl<F, H> View for InodeData<F, H> {
    type V = InodeView<F, H>;

    open spec fn view(&self) -> InodeView<F, H> {
        InodeView {
            inode: self.inode,
            file_or_handle: self.file_or_handle@,
            refcount: self.refcount,
            ids: self.ids,
            mode: self.mode,
            migration_info: self.migration_info,
        }
    }
}

/// The file behind an open file of the guest.
pub enum HandleDataFile<F> {
    File(F),
    /// It could not be restored, for this reason.
    Invalid(Error),
}

/// A [`HandleDataFile`] in specifications.
pub enum HandleDataFileView<F> {
    File(F),
    Invalid(ErrorView),
}

impl<F> View for HandleDataFile<F> {
    type V = HandleDataFileView<F>;

    open spec fn view(&self) -> HandleDataFileView<F> {
        match *self {
            HandleDataFile::File(file) => HandleDataFileView::File(file),
            HandleDataFile::Invalid(error) => HandleDataFileView::Invalid(error@),
        }
    }
}

/// What a later migration needs to know of an open file.
#[derive(Clone, Copy, Debug, PartialEq, Eq, Structural)]
pub enum HandleMigrationInfo {
    OpenInode { flags: i32 },
}

/// A file that the guest has open.
pub struct HandleData<F> {
    pub inode: u64,
    pub file: HandleDataFile<F>,
    pub migration_info: HandleMigrationInfo,
}

/// A [`HandleData`] in specifications.
pub struct HandleView<F> {
    pub inode: u64,
    pub file: HandleDataFileView<F>,
    pub migration_info: HandleMigrationInfo,
}

impl<F> View for HandleData<F> {
    type V = HandleView<F>;

    open spec fn view(&self) -> HandleView<F> {
        HandleView { inode: self.inode, file: self.file@, migration_info: self.migration_info }
    }
}

/// The state of a pass-through file system.
#[verifier::reject_recursive_types(F)]
#[verifier::reject_recursive_types(H)]
pub struct PassthroughFs<F, H> {
    pub cfg: Config,
    pub writeback: bool,
    pub announce_submounts: bool,
    pub posix_acl: bool,
    pub sup_group_extension: bool,
    pub inodes: Table<InodeData<F, H>>,
    pub next_inode: u64,
    pub handles: Table<HandleData<F>>,
    pub next_handle: u64,
    /// For each filter root the path at which it is open, twice.
    pub filter: Table<(String, String)>,
    /// At which path a filter root of a given name is now, where that has changed.
    pub filter_path_remap: StringHashMap<String>,
}

/// A [`PassthroughFs`] in specifications.
#[verifier::ext_equal]
#[verifier::reject_recursive_types(F)]
#[verifier::reject_recursive_types(H)]
pub struct FsView<F, H> {
    pub cfg: Config,
    pub writeback: bool,
    pub announce_submounts: bool,
    pub posix_acl: bool,
    pub sup_group_extension: bool,
    pub inodes: Map<u64, InodeView<F, H>>,
    pub next_inode: u64,
    pub handles: Map<u64, HandleView<F>>,
    pub next_handle: u64,
    pub filter: Map<u64, (Seq<char>, Seq<char>)>,
    pub filter_path_remap: Map<Seq<char>, Seq<char>>,
}

impl<F, H> View for PassthroughFs<F, H> {
    type V = FsView<F, H>;

    open spec fn view(&self) -> FsView<F, H> {
        FsView {
            cfg: self.cfg,
            writeback: self.writeback,
            announce_submounts: self.announce_submounts,
            posix_acl: self.posix_acl,
            sup_group_extension: self.sup_group_extension,
            inodes: self.inodes@.map_values(|data: InodeData<F, H>| data@),
            next_inode: self.next_inode,
            handles: self.handles@.map_values(|data: HandleData<F>| data@),
            next_handle: self.next_handle,
            filter: self.filter@.map_values(|paths: (String, String)| (paths.0@, paths.1@)),
            filter_path_remap: self.filter_path_remap@.map_values(|path: String| path@),
        }
    }
}

/// `refcount` with one reference more.
pub open spec fn one_more(refcount: u64) -> u64 {
    if refcount == u64::MAX {
        0
    } else {
        (refcount + 1) as u64
    }
}

/// `refcount` with one reference less.
pub open spec fn one_less(refcount: u64) -> u64 {
    if refcount == 0 {
        0
    } else {
        (refcount - 1) as u64
    }
}

/// The inodes once another reference to `id` has been taken.
pub open spec fn with_reference<F, H>(inodes: Map<u64, InodeView<F, H>>, id: u64) -> Map<
    u64,
    InodeView<F, H>,
> {
    if inodes.contains_key(id) {
        inodes.insert(
            id,
            InodeView { refcount: one_more(inodes[id].refcount), ..inodes[id] },
        )
    } else {
        inodes
    }
}

/// The inodes once a reference to `id` has been dropped. An inode without references is forgotten.
pub open spec fn without_reference<F, H>(inodes: Map<u64, InodeView<F, H>>, id: u64) -> Map<
    u64,
    InodeView<F, H>,
> {
    if !inodes.contains_key(id) {
        inodes
    } else if one_less(inodes[id].refcount) == 0 {
        inodes.remove(id)
    } else {
        inodes.insert(
            id,
            InodeView { refcount: one_less(inodes[id].refcount), ..inodes[id] },
        )
    }
}

/// The remapping that a list of names and paths describes. Of two paths for one name the later
/// counts.
pub open spec fn remap_of(pairs: Seq<(String, String)>) -> Map<Seq<char>, Seq<char>>
    decreases pairs.len(),
{
    if pairs.len() == 0 {
        Map::empty()
    } else {
        remap_of(pairs.drop_last()).insert(pairs.last().0@, pairs.last().1@)
    }
}

impl<F, H> FsView<F, H> {
    /// Where a filter root is to be opened that the source had open at `fullname`.
    pub open spec fn remapped(self, filename: Seq<char>, fullname: Seq<char>) -> Seq<char> {
        if self.filter_path_remap.contains_key(filename) {
            self.filter_path_remap[filename]
        } else {
            fullname
        }
    }

    /// Every inode is filed under its own number.
    pub open spec fn inodes_filed(self) -> bool {
        forall|id: u64| #[trigger] self.inodes.contains_key(id) ==> self.inodes[id].inode == id
    }
}

/// The error that a second inode with the number `id` meets.
pub open spec fn double_use_error(id: u64) -> ErrorView {
    other_error_view("Double-use of FUSE inode ID "@ + crate::text::decimal(id as nat))
}

impl<F, H> InodeData<F, H> {
    /// The same inode with another reference count.
    fn with_refcount(self, refcount: u64) -> (data: Self)
        ensures
            data@ == (InodeView { refcount, ..self@ }),
    {
        InodeData { refcount, ..self }
    }
}

impl<F, H> PassthroughFs<F, H> {
    /// A file system without inodes and open files, with all options off.
    pub fn new(cfg: Config) -> (fs: Self)
        ensures
            fs@ == (FsView::<F, H> {
                cfg,
                writeback: false,
                announce_submounts: false,
                posix_acl: false,
                sup_group_extension: false,
                inodes: Map::empty(),
                next_inode: (ROOT_ID + 1) as u64,
                handles: Map::empty(),
                next_handle: 0,
                filter: Map::empty(),
                filter_path_remap: Map::empty(),
            }),
    {
        PassthroughFs {
            cfg,
            writeback: false,
            announce_submounts: false,
            posix_acl: false,
            sup_group_extension: false,
            inodes: Table::new(),
            next_inode: ROOT_ID + 1,
            handles: Table::new(),
            next_handle: 0,
            filter: Table::new(),
            filter_path_remap: StringHashMap::new(),
        }
    }

    /// Sets at which paths the filter roots are to be opened, by their names. Of two paths for one
    /// name the later counts.
    pub fn set_filter_path_remap(&mut self, remap: Vec<(String, String)>)
        ensures
            final(self)@ == (FsView { filter_path_remap: remap_of(remap@), ..old(self)@ }),
            forall|i: int|
                0 <= i < remap@.len() && (forall|j: int|
                    i < j < remap@.len() ==> (#[trigger] remap@[j]).0@ != remap@[i].0@) ==> {
                    &&& final(self)@.filter_path_remap.contains_key((#[trigger] remap@[i]).0@)
                    &&& final(self)@.filter_path_remap[remap@[i].0@] == remap@[i].1@
                },
            forall|name: Seq<char>| #[trigger]
                final(self)@.filter_path_remap.contains_key(name) ==> exists|j: int|
                    0 <= j < remap@.len() && (#[trigger] remap@[j]).0@ == name,
    {
        let mut map: StringHashMap<String> = StringHashMap::new();
        let mut i: usize = 0;
        assert(map@.map_values(|path: String| path@) =~= remap_of(remap@.take(0)));
        while i < remap.len()
            invariant
                i <= remap.len(),
                map@.map_values(|path: String| path@) == remap_of(remap@.take(i as int)),
            decreases remap.len() - i,
        {
            let ghost before = map@;
            map.insert(remap[i].0.clone(), remap[i].1.clone());
            proof {
                assert(remap@.take(i + 1).drop_last() =~= remap@.take(i as int));
                assert(map@.map_values(|path: String| path@) =~= before.map_values(
                    |path: String| path@,
                ).insert(remap@[i as int].0@, remap@[i as int].1@));
            }
            i = i + 1;
        }
        assert(remap@.take(i as int) =~= remap@);
        self.filter_path_remap = map;
        proof {
            assert forall|i: int|
                0 <= i < remap@.len() && (forall|j: int|
                    i < j < remap@.len() ==> (#[trigger] remap@[j]).0@ != remap@[i].0@) implies {
                &&& self@.filter_path_remap.contains_key((#[trigger] remap@[i]).0@)
                &&& self@.filter_path_remap[remap@[i].0@] == remap@[i].1@
            } by {
                crate::laws::remapping::law_remap_list(remap@, i, remap@[i].0@);
            }
            assert forall|name: Seq<char>| #[trigger]
                self@.filter_path_remap.contains_key(name) implies exists|j: int|
                0 <= j < remap@.len() && (#[trigger] remap@[j]).0@ == name by {
                crate::laws::remapping::law_remap_list(remap@, 0, name);
            }
        }
    }

    /// Where the filter root `filename` is to be opened that the source had open at `fullname`.
    pub fn remap_filter_fullname(&self, filename: &String, fullname: &String) -> (path: String)
        ensures
            path@ == self@.remapped(filename@, fullname@),
    {
        match self.filter_path_remap.get(filename.as_str()) {
            Some(path) => path.clone(),
            None => fullname.clone(),
        }
    }

    /// Takes another reference to an inode.
    pub fn take_reference(&mut self, id: u64)
        ensures
            final(self)@ == (FsView { inodes: with_reference(old(self)@.inodes, id), ..old(self)@ }),
    {
        if let Some(data) = self.inodes.remove(id) {
            let refcount: u64 = data.refcount.wrapping_add(1);
            self.inodes.insert(id, data.with_refcount(refcount));
        }
        assert(self@.inodes =~= with_reference(old(self)@.inodes, id));
    }

    /// Drops a reference to an inode, and forgets the inode where that was the last one.
    pub fn drop_reference(&mut self, id: u64)
        ensures
            final(self)@ == (FsView {
                inodes: without_reference(old(self)@.inodes, id),
                ..old(self)@
            }),
    {
        if let Some(data) = self.inodes.remove(id) {
            let refcount: u64 = data.refcount.saturating_sub(1);
            if refcount != 0 {
                self.inodes.insert(id, data.with_refcount(refcount));
            }
        }
        assert(self@.inodes =~= without_reference(old(self)@.inodes, id));
    }

    /// Adds an inode, whose number must not be in use.
    pub fn new_inode(&mut self, data: InodeData<F, H>) -> (result: Result<(), Error>)
        ensures
            match result {
                Ok(_) => !old(self)@.inodes.contains_key(data.inode) && final(self)@ == (FsView {
                    inodes: old(self)@.inodes.insert(data.inode, data@),
                    ..old(self)@
                }),
                Err(error) => old(self)@.inodes.contains_key(data.inode) && final(self)@ == old(
                    self,
                )@ && error@ == double_use_error(data.inode),
            },
    {
        let id: u64 = data.inode;
        if self.inodes.contains(id) {
            return Err(numbered_error("Double-use of FUSE inode ID ", id));
        }
        self.inodes.insert(id, data);
        assert(self@.inodes =~= old(self)@.inodes.insert(id, data@));
        Ok(())
    }
}

} // verus!
