//! What each part of a serialized state means for the file system that it is applied to.

use vstd::prelude::*;
use vstd::string::{StrSliceExecFns, StringExecFns};

use crate::error::{invalid_inode, other_error, other_error_view, Error, ErrorKind, ErrorView};
use crate::file_handle::{mismatch_text, SerializableFileHandle};
use crate::passthrough::{
    double_use_error, with_reference, without_reference, FileOrHandle, FileOrHandleView, FsView,
    HandleData, HandleDataFile, HandleDataFileView, HandleMigrationInfo, HandleView, InodeData,
    InodeIds, InodeMigrationInfo, InodeView, MigrationOnError, Node, PassthroughFs, Stat, ROOT_ID,
};
use crate::serialized::{Handle, HandleSource, Inode, InodeLocation, NegotiatedOpts};
use crate::text::{decimal, push_decimal};

verus! {

/// A result in specifications.
pub open spec fn result_view<T: View>(result: Result<T, Error>) -> Result<T::V, ErrorView> {
    match result {
        Ok(value) => Ok(value@),
        Err(error) => Err(error@),
    }
}

/// A result in specifications, with the value as it is.
pub open spec fn plain_result_view<T>(result: Result<T, Error>) -> Result<T, ErrorView> {
    match result {
        Ok(value) => Ok(value),
        Err(error) => Err(error@),
    }
}

impl NegotiatedOpts {
    /// The error that these options meet under the configuration of `fs`, if any: the first option
    /// that the source has enabled and the configuration has not.
    pub open spec fn refusal<F, H>(self, fs: FsView<F, H>) -> Option<ErrorView> {
        if self.writeback && !fs.cfg.writeback {
            Some(
                other_error_view(
                    "Migration source wants writeback enabled, but it is disabled on the destination"@,
                ),
            )
        } else if self.announce_submounts && !fs.cfg.announce_submounts {
            Some(
                other_error_view(
                    "Migration source wants announce-submounts enabled, but it is disabled on the destination"@,
                ),
            )
        } else if self.posix_acl && !fs.cfg.posix_acl {
            Some(
                other_error_view(
                    "Migration source wants posix ACLs enabled, but it is disabled on the destination"@,
                ),
            )
        } else {
            None
        }
    }

    /// `fs` with these options in force, as far as the configuration lets them: each of them up to
    /// the first that is refused.
    pub open spec fn applied<F, H>(self, fs: FsView<F, H>) -> FsView<F, H> {
        let writeback = !self.writeback || fs.cfg.writeback;
        let announce_submounts = writeback && (!self.announce_submounts
            || fs.cfg.announce_submounts);
        let posix_acl = announce_submounts && (!self.posix_acl || fs.cfg.posix_acl);
        FsView {
            writeback: if writeback {
                self.writeback
            } else {
                fs.writeback
            },
            announce_submounts: if announce_submounts {
                self.announce_submounts
            } else {
                fs.announce_submounts
            },
            posix_acl: if posix_acl {
                self.posix_acl
            } else {
                fs.posix_acl
            },
            sup_group_extension: if posix_acl {
                self.sup_group_extension
            } else {
                fs.sup_group_extension
            },
            ..fs
        }
    }

    /// Puts the options in force that the source has negotiated with the guest.
    ///
    /// An option that the source has enabled must be enabled in the configuration. One that is
    /// enabled in the configuration only is switched off: enabling it would take another
    /// negotiation with the guest.
    pub fn apply<F, H>(self, fs: &mut PassthroughFs<F, H>) -> (result: Result<(), Error>)
        ensures
            final(fs)@ == self.applied(old(fs)@),
            match result {
                Ok(_) => self.refusal(old(fs)@) is None,
                Err(error) => self.refusal(old(fs)@) == Some(error@),
            },
            result is Ok <==> {
                &&& self.writeback ==> old(fs).cfg.writeback
                &&& self.announce_submounts ==> old(fs).cfg.announce_submounts
                &&& self.posix_acl ==> old(fs).cfg.posix_acl
            },
    {
        if !fs.cfg.writeback && self.writeback {
            return Err(
                other_error(
                    "Migration source wants writeback enabled, but it is disabled on the destination".to_owned(),
                ),
            );
        }
        fs.writeback = self.writeback;

        if !fs.cfg.announce_submounts && self.announce_submounts {
            return Err(
                other_error(
                    "Migration source wants announce-submounts enabled, but it is disabled on the destination".to_owned(),
                ),
            );
        }
        fs.announce_submounts = self.announce_submounts;

        if !fs.cfg.posix_acl && self.posix_acl {
            return Err(
                other_error(
                    "Migration source wants posix ACLs enabled, but it is disabled on the destination".to_owned(),
                ),
            );
        }
        fs.posix_acl = self.posix_acl;
        fs.sup_group_extension = self.sup_group_extension;
        Ok(())
    }
}

/// How looking an inode up by its path has ended.
pub enum PathLookup<F, H> {
    /// The path could not be opened in `directory`.
    NotOpened { directory: String, filename: String, error: Error },
    /// Something else failed.
    Failed(Error),
    /// The inode is there.
    Found { node: Node<F, H>, stat: Stat },
}

/// A [`PathLookup`] in specifications.
pub enum PathLookupView<F, H> {
    NotOpened { directory: Seq<char>, filename: Seq<char>, error: ErrorView },
    Failed(ErrorView),
    Found { node: Node<F, H>, stat: Stat },
}

impl<F, H> View for PathLookup<F, H> {
    type V = PathLookupView<F, H>;

    open spec fn view(&self) -> PathLookupView<F, H> {
        match *self {
            PathLookup::NotOpened { directory, filename, error } => PathLookupView::NotOpened {
                directory: directory@,
                filename: filename@,
                error: error@,
            },
            PathLookup::Failed(error) => PathLookupView::Failed(error@),
            PathLookup::Found { node, stat } => PathLookupView::Found { node, stat },
        }
    }
}

/// `directory`, with a slash behind it.
pub open spec fn with_slash(directory: Seq<char>) -> Seq<char> {
    if directory.len() > 0 && directory.last() == '/' {
        directory
    } else {
        directory + "/"@
    }
}

/// The path is one from the root of the host.
pub open spec fn is_absolute(path: Seq<char>) -> bool {
    path.len() > 0 && path[0] == '/'
}

/// Whether the path is one from the root of the host.
pub fn is_absolute_path(path: &String) -> (result: bool)
    ensures
        result == is_absolute(path@),
{
    !path.as_str().is_empty() && path.as_str().get_char(0) == '/'
}

/// Whether the path ends with a slash.
fn ends_with_slash(path: &String) -> (result: bool)
    ensures
        result == (path@.len() > 0 && path@.last() == '/'),
{
    let len: usize = path.as_str().unicode_len();
    len > 0 && path.as_str().get_char(len - 1) == '/'
}

/// The error for an inode that the source has lost.
pub open spec fn lost_inode_error(id: u64) -> ErrorView {
    ErrorView {
        kind: ErrorKind::NotFound,
        message: "Migration source has lost inode "@ + decimal(id as nat),
    }
}

/// The error for a root node with another number than the root's.
pub open spec fn non_root_id_error(id: u64) -> ErrorView {
    other_error_view(
        "Node with non-root ID ("@ + decimal(id as nat) + ") given as root node"@,
    )
}

/// The error for a root that is to be found by a path.
pub open spec fn root_path_error() -> ErrorView {
    other_error_view("Refusing to use path given for root node"@)
}

/// The error for a state that is left with inodes whose directories are never there.
pub open spec fn unresolved_error() -> ErrorView {
    other_error_view("Unresolved references between serialized inodes"@)
}

impl Inode {
    /// The inode cannot be restored yet: the directory that it is looked up in is not there.
    pub open spec fn blocked<F, H>(self, inodes: Map<u64, InodeView<F, H>>) -> bool {
        match self.location {
            InodeLocation::Path { parent, .. } => self.id != ROOT_ID
                && !inodes.contains_key(parent),
            InodeLocation::FullPath { .. } => self.id != ROOT_ID
                && !inodes.contains_key(ROOT_ID),
            _ => false,
        }
    }

    /// The inode is a filter root.
    pub open spec fn is_filter(self) -> bool {
        self.location matches InodeLocation::Path { fullname, .. } && is_absolute(fullname@)
    }

    /// What a lookup of this inode by its path comes to.
    pub open spec fn path_result<F, H>(self, lookup: PathLookupView<F, H>) -> Result<
        InodeView<F, H>,
        ErrorView,
    > {
        match lookup {
            PathLookupView::NotOpened { directory, filename, error } => Err(
                ErrorView {
                    kind: error.kind,
                    message: "Opening "@ + with_slash(directory) + filename + ": "@
                        + error.message,
                },
            ),
            PathLookupView::Failed(error) => Err(error),
            PathLookupView::Found { node, stat } => Ok(
                InodeView {
                    inode: self.id,
                    file_or_handle: node.held(),
                    refcount: self.refcount,
                    ids: stat.ids,
                    mode: stat.mode,
                    migration_info: None,
                },
            ),
        }
    }

    /// Turns the outcome of looking this inode up by its path into the inode to add.
    pub fn deserialize_path<F, H>(&self, lookup: PathLookup<F, H>) -> (result: Result<
        InodeData<F, H>,
        Error,
    >)
        ensures
            result_view(result) == self.path_result(lookup@),
    {
        match lookup {
            PathLookup::NotOpened { directory, filename, error } => {
                let mut message = "Opening ".to_owned();
                message.append(directory.as_str());
                if !ends_with_slash(&directory) {
                    message.append("/");
                }
                message.append(filename.as_str());
                message.append(": ");
                message.append(error.message.as_str());
                proof {
                    assert(message@ =~= "Opening "@ + with_slash(directory@) + filename@ + ": "@
                        + error.message@);
                }
                Err(Error { kind: error.kind, message })
            },
            PathLookup::Failed(error) => Err(error),
            PathLookup::Found { node, stat } => Ok(
                InodeData {
                    inode: self.id,
                    file_or_handle: node.hold(),
                    refcount: self.refcount,
                    ids: stat.ids,
                    mode: stat.mode,
                    migration_info: None,
                },
            ),
        }
    }

    /// What becomes of this inode if it cannot be located because of `error`.
    pub open spec fn invalid_result<F, H>(
        self,
        on_error: MigrationOnError,
        error: ErrorView,
    ) -> Result<InodeView<F, H>, ErrorView> {
        match on_error {
            MigrationOnError::Abort => Err(
                ErrorView {
                    kind: error.kind,
                    message: "Inode "@ + decimal(self.id as nat) + ": "@ + error.message,
                },
            ),
            MigrationOnError::GuestError => Ok(
                InodeView {
                    inode: self.id,
                    file_or_handle: FileOrHandleView::Invalid(error),
                    refcount: self.refcount,
                    ids: InodeIds { ino: 0, dev: 0, mnt_id: 0 },
                    mode: 0,
                    migration_info: None,
                },
            ),
        }
    }

    /// Handles an inode that cannot be located: depending on the configuration, that is an error,
    /// or the inode is to be added as an invalid one.
    pub fn deserialize_invalid_inode<F, H>(
        &self,
        fs: &PassthroughFs<F, H>,
        error: Error,
    ) -> (result: Result<InodeData<F, H>, Error>)
        ensures
            result_view(result) == self.invalid_result::<F, H>(
                fs@.cfg.migration_on_error,
                error@,
            ),
    {
        match fs.cfg.migration_on_error {
            MigrationOnError::Abort => {
                let mut message = "Inode ".to_owned();
                push_decimal(&mut message, self.id);
                message.append(": ");
                message.append(error.message.as_str());
                Err(Error { kind: error.kind, message })
            },
            MigrationOnError::GuestError => Ok(
                InodeData {
                    inode: self.id,
                    file_or_handle: FileOrHandle::Invalid(error),
                    refcount: self.refcount,
                    ids: InodeIds { ino: 0, dev: 0, mnt_id: 0 },
                    mode: 0,
                    migration_info: None,
                },
            ),
        }
    }

    /// What comparing the handle `actual` with the one on the source comes to.
    pub open spec fn comparison(self, actual: SerializableFileHandle) -> Result<(), ErrorView> {
        if self.file_handle is None || actual.same_file(self.file_handle->0) {
            Ok(())
        } else {
            Err(
                other_error_view(
                    "Inode "@ + decimal(self.id as nat)
                        + " is not the same inode as in the migration source: "@ + mismatch_text(),
                ),
            )
        }
    }

    /// What checking the file handle of `data` comes to. `named` is what the host says when it is
    /// asked for the handle of an open file; without it, `None` where that must be known.
    pub open spec fn check_result<F, H>(
        self,
        data: InodeView<F, H>,
        named: Option<Result<SerializableFileHandle, ErrorView>>,
    ) -> Option<Result<(), ErrorView>> {
        if self.file_handle is None {
            Some(Ok(()))
        } else {
            match data.file_or_handle {
                FileOrHandleView::Handle(handle) => Some(self.comparison(handle.handle)),
                FileOrHandleView::Invalid(error) => Some(
                    Err(crate::error::invalid_inode_error(error)),
                ),
                FileOrHandleView::File(_) => match named {
                    None => None,
                    Some(Err(error)) => Some(Err(error)),
                    Some(Ok(actual)) => Some(self.comparison(actual)),
                },
            }
        }
    }

    /// Compares the handle `actual` with the one on the source.
    fn compare_file_handle(&self, actual: &SerializableFileHandle) -> (result: Result<(), Error>)
        ensures
            result_view(result) == self.comparison(*actual),
    {
        match &self.file_handle {
            None => Ok(()),
            Some(reference) => match actual.require_equal_without_mount_id(reference) {
                Ok(_) => Ok(()),
                Err(reason) => {
                    let mut message = "Inode ".to_owned();
                    push_decimal(&mut message, self.id);
                    message.append(" is not the same inode as in the migration source: ");
                    message.append(reason.as_str());
                    Err(other_error(message))
                },
            },
        }
    }

    /// If the source sent a reference file handle, checks that of `inode_data` against it. The
    /// mount is disregarded: it may differ from host to host.
    ///
    /// The handle of an open file is the host's to tell: `named` is what it says. `None` comes
    /// back where that is needed and not given.
    pub fn check_file_handle<F, H>(
        &self,
        inode_data: &InodeData<F, H>,
        named: Option<Result<SerializableFileHandle, Error>>,
    ) -> (result: Option<Result<(), Error>>)
        ensures
            check_view(result) == self.check_result(inode_data@, named_view(named)),
    {
        if self.file_handle.is_none() {
            return Some(Ok(()));
        }
        match &inode_data.file_or_handle {
            FileOrHandle::Handle(handle) => Some(self.compare_file_handle(&handle.handle)),
            FileOrHandle::Invalid(error) => Some(Err(invalid_inode(error))),
            FileOrHandle::File(_) => match named {
                None => None,
                Some(Err(error)) => Some(Err(error)),
                Some(Ok(actual)) => Some(self.compare_file_handle(&actual)),
            },
        }
    }
}

/// The outcome of a check in specifications.
pub open spec fn check_view(result: Option<Result<(), Error>>) -> Option<Result<(), ErrorView>> {
    match result {
        None => None,
        Some(result) => Some(result_view(result)),
    }
}

/// A named handle in specifications.
pub open spec fn named_view(named: Option<Result<SerializableFileHandle, Error>>) -> Option<
    Result<SerializableFileHandle, ErrorView>,
> {
    match named {
        None => None,
        Some(named) => Some(plain_result_view(named)),
    }
}

/// Where an inode is to be looked up.
pub struct Target {
    /// The directory in which it is, of which the lookup holds a reference.
    pub parent: u64,
    /// Its path from there.
    pub filename: String,
    /// Whether it is a filter root.
    pub is_filter: bool,
    /// Whether its file handle is to be checked.
    pub checked: bool,
}

/// A [`Target`] in specifications.
pub struct TargetView {
    pub parent: u64,
    pub filename: Seq<char>,
    pub is_filter: bool,
    pub checked: bool,
}

impl TargetView {
    /// The path for the filter entry, where there is to be one.
    pub open spec fn filter_path(self) -> Option<Seq<char>> {
        if self.is_filter {
            Some(self.filename)
        } else {
            None
        }
    }
}

impl View for Target {
    type V = TargetView;

    open spec fn view(&self) -> TargetView {
        TargetView {
            parent: self.parent,
            filename: self.filename@,
            is_filter: self.is_filter,
            checked: self.checked,
        }
    }
}

/// The root node as it has been opened.
pub struct RootNode<F, H> {
    pub node: Node<F, H>,
    pub stat: Stat,
    pub migration_info: Option<InodeMigrationInfo>,
}

/// How far an inode has been restored.
pub enum Progress<F, H> {
    /// It has to wait for another inode.
    Deferred,
    /// It is done.
    Restored,
    /// The root node is to be opened.
    OpenRoot,
    /// The host is to tell the file handle of the root node.
    IdentifyRoot,
    /// The inode is to be looked up.
    LookUp(Target),
    /// The host is to tell the file handle of this inode, which is to be added.
    Identify(Target, InodeData<F, H>),
}

/// A [`Progress`] in specifications.
pub enum ProgressView<F, H> {
    Deferred,
    Restored,
    OpenRoot,
    IdentifyRoot,
    LookUp(TargetView),
    Identify(TargetView, InodeView<F, H>),
}

impl<F, H> View for Progress<F, H> {
    type V = ProgressView<F, H>;

    open spec fn view(&self) -> ProgressView<F, H> {
        match *self {
            Progress::Deferred => ProgressView::Deferred,
            Progress::Restored => ProgressView::Restored,
            Progress::OpenRoot => ProgressView::OpenRoot,
            Progress::IdentifyRoot => ProgressView::IdentifyRoot,
            Progress::LookUp(target) => ProgressView::LookUp(target@),
            Progress::Identify(target, data) => ProgressView::Identify(target@, data@),
        }
    }
}

/// The file system after a step, and how far the step has come.
#[verifier::reject_recursive_types(F)]
#[verifier::reject_recursive_types(H)]
pub struct StepView<F, H> {
    pub fs: FsView<F, H>,
    pub result: Result<ProgressView<F, H>, ErrorView>,
}

impl Inode {
    /// The step that adds `data`, and makes its filter entry where it has one.
    pub open spec fn added<F, H>(
        self,
        fs: FsView<F, H>,
        filter_path: Option<Seq<char>>,
        data: InodeView<F, H>,
    ) -> StepView<F, H> {
        if fs.inodes.contains_key(data.inode) {
            StepView { fs, result: Err(double_use_error(data.inode)) }
        } else {
            StepView {
                fs: FsView {
                    inodes: fs.inodes.insert(data.inode, data),
                    filter: match filter_path {
                        Some(path) => fs.filter.insert(self.id, (path, path)),
                        None => fs.filter,
                    },
                    ..fs
                },
                result: Ok(ProgressView::Restored),
            }
        }
    }

    /// The step that adds this inode as an invalid one, or fails.
    pub open spec fn added_invalid<F, H>(
        self,
        fs: FsView<F, H>,
        filter_path: Option<Seq<char>>,
        error: ErrorView,
    ) -> StepView<F, H> {
        match self.invalid_result::<F, H>(fs.cfg.migration_on_error, error) {
            Ok(data) => self.added(fs, filter_path, data),
            Err(error) => StepView { fs, result: Err(error) },
        }
    }

    /// The step that checks the file handle of `data` and adds it. An inode that fails the check is
    /// handled as one that cannot be located.
    pub open spec fn checked<F, H>(
        self,
        fs: FsView<F, H>,
        target: TargetView,
        data: InodeView<F, H>,
        named: Option<Result<SerializableFileHandle, ErrorView>>,
    ) -> StepView<F, H> {
        if !target.checked {
            self.added(fs, target.filter_path(), data)
        } else {
            match self.check_result(data, named) {
                None => StepView { fs, result: Ok(ProgressView::Identify(target, data)) },
                Some(Ok(_)) => self.added(fs, target.filter_path(), data),
                Some(Err(error)) => self.added_invalid(fs, target.filter_path(), error),
            }
        }
    }

    /// The step that a lookup by path ends in. It drops the reference to the directory.
    #[verifier::opaque]
    pub open spec fn looked_up<F, H>(
        self,
        fs: FsView<F, H>,
        target: TargetView,
        lookup: PathLookupView<F, H>,
    ) -> StepView<F, H> {
        let fs = FsView { inodes: without_reference(fs.inodes, target.parent), ..fs };
        match self.path_result(lookup) {
            Ok(data) => self.checked(fs, target, data, None),
            Err(error) => match self.invalid_result::<F, H>(fs.cfg.migration_on_error, error) {
                Ok(data) => self.checked(fs, target, data, None),
                Err(error) => StepView { fs, result: Err(error) },
            },
        }
    }

    /// The step that starts a lookup by path. In an invalid directory nothing can be looked up.
    pub open spec fn look_up<F, H>(self, fs: FsView<F, H>, target: TargetView) -> StepView<F, H> {
        match fs.inodes[target.parent].file_or_handle {
            FileOrHandleView::Invalid(error) => self.looked_up(
                fs,
                target,
                PathLookupView::Failed(crate::error::invalid_inode_error(error)),
            ),
            _ => StepView { fs, result: Ok(ProgressView::LookUp(target)) },
        }
    }

    /// Where an inode with a path in a directory is looked up. A filter root is looked up where it
    /// is now; any other keeps its name in its directory.
    pub open spec fn path_target<F, H>(
        self,
        fs: FsView<F, H>,
        parent: u64,
        filename: Seq<char>,
        fullname: Seq<char>,
    ) -> TargetView {
        TargetView {
            parent,
            filename: if is_absolute(fullname) {
                fs.remapped(filename, fullname)
            } else {
                filename
            },
            is_filter: is_absolute(fullname),
            checked: true,
        }
    }

    /// The first step of restoring this inode.
    pub open spec fn first_step<F, H>(self, fs: FsView<F, H>) -> StepView<F, H> {
        match self.location {
            InodeLocation::RootNode => StepView {
                fs,
                result: if self.id != ROOT_ID {
                    Err(non_root_id_error(self.id))
                } else {
                    Ok(ProgressView::OpenRoot)
                },
            },
            InodeLocation::Path { parent, filename, fullname } => if self.id == ROOT_ID {
                StepView { fs, result: Err(root_path_error()) }
            } else if !fs.inodes.contains_key(parent) {
                StepView { fs, result: Ok(ProgressView::Deferred) }
            } else {
                self.look_up(fs, self.path_target(fs, parent, filename@, fullname@))
            },
            InodeLocation::Invalid => self.added_invalid(fs, None, lost_inode_error(self.id)),
            InodeLocation::FullPath { filename } => if self.id == ROOT_ID {
                StepView { fs, result: Err(root_path_error()) }
            } else if !fs.inodes.contains_key(ROOT_ID) {
                StepView { fs, result: Ok(ProgressView::Deferred) }
            } else {
                self.look_up(
                    FsView { inodes: with_reference(fs.inodes, ROOT_ID), ..fs },
                    TargetView {
                        parent: ROOT_ID,
                        filename: filename@,
                        is_filter: false,
                        checked: false,
                    },
                )
            },
        }
    }

    /// The step that checks the file handle of the root node. A mismatch is an error in any case.
    pub open spec fn root_checked<F, H>(
        self,
        fs: FsView<F, H>,
        named: Option<Result<SerializableFileHandle, ErrorView>>,
    ) -> StepView<F, H> {
        StepView {
            fs,
            result: match self.check_result(fs.inodes[ROOT_ID], named) {
                None => Ok(ProgressView::IdentifyRoot),
                Some(Ok(_)) => Ok(ProgressView::Restored),
                Some(Err(error)) => Err(error),
            },
        }
    }

    /// The step that adds the root node as it has been opened, with the reference count that it has
    /// on the source.
    pub open spec fn root_added<F, H>(
        self,
        fs: FsView<F, H>,
        opened: Result<RootNode<F, H>, ErrorView>,
    ) -> StepView<F, H> {
        match opened {
            Err(error) => StepView { fs, result: Err(error) },
            Ok(root) => if fs.inodes.contains_key(ROOT_ID) {
                StepView { fs, result: Err(double_use_error(ROOT_ID)) }
            } else {
                let data = InodeView {
                    inode: ROOT_ID,
                    file_or_handle: root.node.held(),
                    refcount: self.refcount,
                    ids: root.stat.ids,
                    mode: root.stat.mode,
                    migration_info: root.migration_info,
                };
                self.root_checked(
                    FsView { inodes: fs.inodes.insert(ROOT_ID, data), ..fs },
                    None,
                )
            },
        }
    }

    /// Adds `data`, and makes its filter entry where it has one.
    fn add<F, H>(
        &self,
        fs: &mut PassthroughFs<F, H>,
        filter_path: Option<&String>,
        data: InodeData<F, H>,
    ) -> (result: Result<Progress<F, H>, Error>)
        ensures
            (StepView { fs: final(fs)@, result: result_view(result) }) == self.added(
                old(fs)@,
                match filter_path {
                    Some(path) => Some(path@),
                    None => None,
                },
                data@,
            ),
    {
        match fs.new_inode(data) {
            Ok(_) => {},
            Err(error) => {
                return Err(error);
            },
        }
        if let Some(path) = filter_path {
            fs.filter.insert(self.id, (path.clone(), path.clone()));
            assert(fs@.filter =~= old(fs)@.filter.insert(self.id, (path@, path@)));
        }
        Ok(Progress::Restored)
    }

    /// Adds this inode as an invalid one, or fails.
    fn add_invalid<F, H>(
        &self,
        fs: &mut PassthroughFs<F, H>,
        filter_path: Option<&String>,
        error: Error,
    ) -> (result: Result<Progress<F, H>, Error>)
        ensures
            (StepView { fs: final(fs)@, result: result_view(result) }) == self.added_invalid(
                old(fs)@,
                match filter_path {
                    Some(path) => Some(path@),
                    None => None,
                },
                error@,
            ),
    {
        match self.deserialize_invalid_inode(fs, error) {
            Ok(data) => self.add(fs, filter_path, data),
            Err(error) => Err(error),
        }
    }

    /// Checks the file handle of an inode that has been looked up, and adds the inode. An inode that
    /// fails the check is handled as one that cannot be located.
    pub fn check_and_add<F, H>(
        &self,
        fs: &mut PassthroughFs<F, H>,
        target: Target,
        data: InodeData<F, H>,
        named: Option<Result<SerializableFileHandle, Error>>,
    ) -> (result: Result<Progress<F, H>, Error>)
        ensures
            (StepView { fs: final(fs)@, result: result_view(result) }) == self.checked(
                old(fs)@,
                target@,
                data@,
                named_view(named),
            ),
    {
        let filter_path = if target.is_filter {
            Some(&target.filename)
        } else {
            None
        };
        if !target.checked {
            return self.add(fs, filter_path, data);
        }
        match self.check_file_handle(&data, named) {
            None => Ok(Progress::Identify(target, data)),
            Some(Ok(_)) => self.add(fs, filter_path, data),
            Some(Err(error)) => self.add_invalid(fs, filter_path, error),
        }
    }

    /// Takes the outcome of looking this inode up by its path. The reference to the directory is
    /// dropped.
    pub fn finish_lookup<F, H>(
        &self,
        fs: &mut PassthroughFs<F, H>,
        target: Target,
        lookup: PathLookup<F, H>,
    ) -> (result: Result<Progress<F, H>, Error>)
        ensures
            (StepView { fs: final(fs)@, result: result_view(result) }) == self.looked_up(
                old(fs)@,
                target@,
                lookup@,
            ),
    {
        reveal(Inode::looked_up);
        let found = self.deserialize_path(lookup);
        fs.drop_reference(target.parent);
        let data = match found {
            Ok(data) => data,
            Err(error) => match self.deserialize_invalid_inode(fs, error) {
                Ok(data) => data,
                Err(error) => {
                    return Err(error);
                },
            },
        };
        self.check_and_add(fs, target, data, None)
    }

    /// Starts a lookup by path. In an invalid directory it has failed at once.
    fn start_lookup<F, H>(&self, fs: &mut PassthroughFs<F, H>, target: Target) -> (result: Result<
        Progress<F, H>,
        Error,
    >)
        requires
            old(fs)@.inodes.contains_key(target.parent),
        ensures
            (StepView { fs: final(fs)@, result: result_view(result) }) == self.look_up(
                old(fs)@,
                target@,
            ),
    {
        let invalid = match fs.inodes.get(target.parent) {
            Some(InodeData { file_or_handle: FileOrHandle::Invalid(error), .. }) => Some(
                invalid_inode(error),
            ),
            _ => None,
        };
        match invalid {
            Some(error) => self.finish_lookup(fs, target, PathLookup::Failed(error)),
            None => Ok(Progress::LookUp(target)),
        }
    }

    /// Restores this inode in `fs`, as far as that can be done without the host.
    ///
    /// An inode that is found through another one is deferred until that one is there.
    pub fn deserialize_with_fs<F, H>(&self, fs: &mut PassthroughFs<F, H>) -> (result: Result<
        Progress<F, H>,
        Error,
    >)
        ensures
            (StepView { fs: final(fs)@, result: result_view(result) }) == self.first_step(old(fs)@),
    {
        match &self.location {
            InodeLocation::RootNode => {
                if self.id != ROOT_ID {
                    let mut message = "Node with non-root ID (".to_owned();
                    push_decimal(&mut message, self.id);
                    message.append(") given as root node");
                    return Err(other_error(message));
                }
                Ok(Progress::OpenRoot)
            },
            InodeLocation::Path { parent, filename, fullname } => {
                if self.id == ROOT_ID {
                    return Err(
                        other_error("Refusing to use path given for root node".to_owned()),
                    );
                }
                if !fs.inodes.contains(*parent) {
                    return Ok(Progress::Deferred);
                }
                let is_filter = is_absolute_path(fullname);
                let filename = if is_filter {
                    fs.remap_filter_fullname(filename, fullname)
                } else {
                    filename.clone()
                };
                let target = Target { parent: *parent, filename, is_filter, checked: true };
                self.start_lookup(fs, target)
            },
            InodeLocation::Invalid => {
                let mut message = "Migration source has lost inode ".to_owned();
                push_decimal(&mut message, self.id);
                self.add_invalid(fs, None, Error { kind: ErrorKind::NotFound, message })
            },
            InodeLocation::FullPath { filename } => {
                if self.id == ROOT_ID {
                    return Err(
                        other_error("Refusing to use path given for root node".to_owned()),
                    );
                }
                if !fs.inodes.contains(ROOT_ID) {
                    return Ok(Progress::Deferred);
                }
                fs.take_reference(ROOT_ID);
                let target = Target {
                    parent: ROOT_ID,
                    filename: filename.clone(),
                    is_filter: false,
                    checked: false,
                };
                self.start_lookup(fs, target)
            },
        }
    }

    /// Checks the file handle of the root node. A mismatch is an error in any case: there is no
    /// going on without a root.
    pub fn check_root<F, H>(
        &self,
        fs: &PassthroughFs<F, H>,
        named: Option<Result<SerializableFileHandle, Error>>,
    ) -> (result: Result<Progress<F, H>, Error>)
        requires
            fs@.inodes.contains_key(ROOT_ID),
        ensures
            (StepView { fs: fs@, result: result_view(result) }) == self.root_checked(
                fs@,
                named_view(named),
            ),
    {
        match fs.inodes.get(ROOT_ID) {
            None => Ok(Progress::IdentifyRoot),
            Some(data) => match self.check_file_handle(data, named) {
                None => Ok(Progress::IdentifyRoot),
                Some(Ok(_)) => Ok(Progress::Restored),
                Some(Err(error)) => Err(error),
            },
        }
    }

    /// Adds the root node as the host has opened it. Only the reference count is the source's.
    pub fn add_root<F, H>(
        &self,
        fs: &mut PassthroughFs<F, H>,
        opened: Result<RootNode<F, H>, Error>,
    ) -> (result: Result<Progress<F, H>, Error>)
        ensures
            (StepView { fs: final(fs)@, result: result_view(result) }) == self.root_added(
                old(fs)@,
                plain_result_view(opened),
            ),
    {
        let root = match opened {
            Ok(root) => root,
            Err(error) => {
                return Err(error);
            },
        };
        let data = InodeData {
            inode: ROOT_ID,
            file_or_handle: root.node.hold(),
            refcount: self.refcount,
            ids: root.stat.ids,
            mode: root.stat.mode,
            migration_info: root.migration_info,
        };
        match fs.new_inode(data) {
            Ok(_) => self.check_root(fs, None),
            Err(error) => Err(error),
        }
    }
}

/// How far an open file has been restored.
#[derive(Clone, Copy, Debug, PartialEq, Eq, Structural)]
pub enum HandleProgress {
    /// It is done.
    Restored,
    /// Its inode is to be opened.
    Open,
}

/// The file system after a step, and how far the step has come.
#[verifier::reject_recursive_types(F)]
#[verifier::reject_recursive_types(H)]
pub struct HandleStepView<F, H> {
    pub fs: FsView<F, H>,
    pub result: Result<HandleProgress, ErrorView>,
}

/// An optional path in specifications.
pub open spec fn path_view(path: Option<String>) -> Option<Seq<char>> {
    match path {
        Some(path) => Some(path@),
        None => None,
    }
}

/// The error for an open file whose inode is not there.
pub open spec fn inode_not_found_error(id: u64) -> ErrorView {
    other_error_view("Inode "@ + decimal(id as nat) + " not found"@)
}

impl Handle {
    /// The error for this open file if its inode cannot be opened because of `error`; `path` is
    /// where the inode is, if that is known.
    pub open spec fn open_error(self, path: Option<Seq<char>>, error: ErrorView) -> ErrorView {
        ErrorView {
            kind: error.kind,
            message: "Opening inode "@ + decimal(self.inode as nat) + (match path {
                Some(path) => " ("@ + path + ")"@,
                None => Seq::empty(),
            }) + " as handle "@ + decimal(self.id as nat) + ": "@ + error.message,
        }
    }

    /// The step that puts this open file into the handle map.
    pub open spec fn handle_added<F, H>(
        self,
        fs: FsView<F, H>,
        file: HandleDataFileView<F>,
    ) -> HandleStepView<F, H> {
        let HandleSource::OpenInode { flags } = self.source;
        HandleStepView {
            fs: FsView {
                handles: fs.handles.insert(
                    self.id,
                    HandleView {
                        inode: self.inode,
                        file,
                        migration_info: HandleMigrationInfo::OpenInode { flags },
                    },
                ),
                ..fs
            },
            result: Ok(HandleProgress::Restored),
        }
    }

    /// The step for an inode that cannot be opened because of `error`: depending on the
    /// configuration, it fails, or the open file is added as an invalid one.
    pub open spec fn open_failed<F, H>(
        self,
        fs: FsView<F, H>,
        path: Option<Seq<char>>,
        error: ErrorView,
    ) -> HandleStepView<F, H> {
        let error = self.open_error(path, error);
        match fs.cfg.migration_on_error {
            MigrationOnError::Abort => HandleStepView { fs, result: Err(error) },
            MigrationOnError::GuestError => self.handle_added(
                fs,
                HandleDataFileView::Invalid(error),
            ),
        }
    }

    /// The first step of restoring this open file. An invalid inode cannot be opened.
    pub open spec fn first_step<F, H>(self, fs: FsView<F, H>) -> HandleStepView<F, H> {
        if !fs.inodes.contains_key(self.inode) {
            HandleStepView { fs, result: Err(inode_not_found_error(self.inode)) }
        } else {
            match fs.inodes[self.inode].file_or_handle {
                FileOrHandleView::Invalid(error) => self.open_failed(
                    fs,
                    None,
                    crate::error::invalid_inode_error(error),
                ),
                _ => HandleStepView { fs, result: Ok(HandleProgress::Open) },
            }
        }
    }

    /// Puts this open file into the handle map.
    pub fn add<F, H>(&self, fs: &mut PassthroughFs<F, H>, file: HandleDataFile<F>) -> (result:
        Result<HandleProgress, Error>)
        ensures
            (HandleStepView { fs: final(fs)@, result: plain_result_view(result) })
                == self.handle_added(old(fs)@, file@),
    {
        let HandleSource::OpenInode { flags } = self.source;
        let data = HandleData {
            inode: self.inode,
            file,
            migration_info: HandleMigrationInfo::OpenInode { flags },
        };
        fs.handles.insert(self.id, data);
        assert(fs@.handles =~= old(fs)@.handles.insert(self.id, data@));
        Ok(HandleProgress::Restored)
    }

    /// Handles an inode that cannot be opened: depending on the configuration, that is an error, or
    /// the open file is added as an invalid one. `path` is where the inode is, if that is known.
    pub fn add_invalid<F, H>(
        &self,
        fs: &mut PassthroughFs<F, H>,
        path: Option<String>,
        error: Error,
    ) -> (result: Result<HandleProgress, Error>)
        ensures
            (HandleStepView { fs: final(fs)@, result: plain_result_view(result) })
                == self.open_failed(old(fs)@, path_view(path), error@),
    {
        let error = self.describe_error(path, error);
        match fs.cfg.migration_on_error {
            MigrationOnError::Abort => Err(error),
            MigrationOnError::GuestError => self.add(fs, HandleDataFile::Invalid(error)),
        }
    }

    /// Restores this open file in `fs`, as far as that can be done without the host.
    pub fn deserialize_with_fs<F, H>(&self, fs: &mut PassthroughFs<F, H>) -> (result: Result<
        HandleProgress,
        Error,
    >)
        ensures
            (HandleStepView { fs: final(fs)@, result: plain_result_view(result) })
                == self.first_step(old(fs)@),
    {
        let invalid = match fs.inodes.get(self.inode) {
            None => {
                let mut message = "Inode ".to_owned();
                push_decimal(&mut message, self.inode);
                message.append(" not found");
                return Err(other_error(message));
            },
            Some(InodeData { file_or_handle: FileOrHandle::Invalid(error), .. }) => Some(
                invalid_inode(error),
            ),
            _ => None,
        };
        match invalid {
            Some(error) => self.add_invalid(fs, None, error),
            None => Ok(HandleProgress::Open),
        }
    }

    /// The error for this open file if its inode cannot be opened because of `error`; `path` is
    /// where the inode is, if that is known.
    pub fn describe_error(&self, path: Option<String>, error: Error) -> (result: Error)
        ensures
            result@ == self.open_error(path_view(path), error@),
    {
        let mut message = "Opening inode ".to_owned();
        push_decimal(&mut message, self.inode);
        if let Some(path) = &path {
            message.append(" (");
            message.append(path.as_str());
            message.append(")");
        }
        message.append(" as handle ");
        push_decimal(&mut message, self.id);
        message.append(": ");
        message.append(error.message.as_str());
        let result = Error { kind: error.kind, message };
        assert(result@ =~= self.open_error(path_view(path), error@));
        result
    }
}

} // verus!
