use std::collections::{HashMap, HashSet};

use device_state::deserialization::RootNode;
use device_state::error::{Error, ErrorKind};
use device_state::file_handle::SerializableFileHandle;
use device_state::passthrough::{
    Config, FileOrHandle, HandleDataFile, HandleMigrationInfo, InodeIds, MigrationOnError, Node,
    OpenableFileHandle, PassthroughFs, Stat, ROOT_ID,
};
use device_state::restore::{OpenError, OpenFlags, Reply, Request, Restore};
use device_state::serialized::{
    Handle, HandleSource, Inode, InodeLocation, NegotiatedOpts, PassthroughFsV1,
};

const FILTER_ID: u64 = 2;
const CHILD_ID: u64 = 3;

/// A host whose files are known by their paths, and an open file is its path.
struct Host {
    root: String,
    paths: HashSet<String>,
    /// Whether files are held by their handles.
    by_handle: bool,
    /// Whether file handles can be opened.
    openable: bool,
    /// Files that cannot be opened as files.
    locked: HashSet<String>,
    /// Whether inodes can be traced back to their paths.
    traceable: bool,
    /// The paths that were asked for, with the directories.
    opened: Vec<(String, String)>,
    replies: usize,
}

fn host_error(message: &str) -> Error {
    Error {
        kind: ErrorKind::Host(std::io::ErrorKind::PermissionDenied),
        message: message.to_string(),
    }
}

impl Host {
    fn new(root: &str) -> Self {
        let mut paths = HashSet::new();
        paths.insert(root.to_string());
        Host {
            root: root.to_string(),
            paths,
            by_handle: false,
            openable: true,
            locked: HashSet::new(),
            traceable: true,
            opened: Vec::new(),
            replies: 0,
        }
    }

    fn touch(&mut self, path: &str) -> String {
        self.paths.insert(path.to_string());
        path.to_string()
    }

    /// The handle of a file holds its path; the mount is that of this host.
    fn handle_of(&self, path: &str) -> SerializableFileHandle {
        SerializableFileHandle {
            mount_id: 77,
            handle_type: 1,
            handle: path.as_bytes().to_vec(),
        }
    }

    fn stat_of(&self, path: &str) -> Stat {
        Stat {
            ids: InodeIds {
                ino: path.len() as u64,
                dev: 8,
                mnt_id: 77,
            },
            mode: 0o644,
        }
    }

    fn path_of(node: &FileOrHandle<String, u32>) -> String {
        match node {
            FileOrHandle::File(path) => path.clone(),
            FileOrHandle::Handle(handle) => {
                String::from_utf8(handle.handle.handle.clone()).unwrap()
            }
            FileOrHandle::Invalid(_) => panic!("invalid inodes are not asked for"),
        }
    }

    fn perform(&mut self, request: Request<'_, String, u32>) -> Reply<String, u32> {
        self.replies += 1;
        match request {
            Request::OpenRoot => Reply::Root(Ok(RootNode {
                node: Node::File(self.root.clone()),
                stat: self.stat_of(&self.root),
                migration_info: None,
            })),
            Request::OpenAt {
                directory,
                filename,
                how,
            } => {
                assert_eq!(
                    how,
                    OpenFlags {
                        path_only: true,
                        no_follow: true,
                        close_on_exec: true,
                    }
                );
                let directory = Host::path_of(directory);
                self.opened.push((directory.clone(), filename.clone()));
                let path = if filename.starts_with('/') {
                    filename.clone()
                } else {
                    format!("{directory}/{filename}")
                };
                if self.paths.contains(&path) {
                    Reply::Opened(Ok(path))
                } else {
                    Reply::Opened(Err(OpenError {
                        directory: Some(directory),
                        error: host_error("no such file"),
                    }))
                }
            }
            Request::Stat { file } => Reply::Stat(Ok(self.stat_of(file))),
            Request::FileHandle { file, stat } => {
                assert_eq!(stat, self.stat_of(file));
                Reply::FileHandle(Ok(if self.by_handle {
                    Some(self.handle_of(file))
                } else {
                    None
                }))
            }
            Request::MakeOpenable { handle } => {
                assert_eq!(handle.mount_id, 77);
                Reply::Openable(if self.openable {
                    Ok(5)
                } else {
                    Err(host_error("no such mount"))
                })
            }
            Request::Identify { file } => Reply::Identity(Ok(self.handle_of(file))),
            Request::OpenFile { inode, flags } => {
                let path = Host::path_of(&inode.file_or_handle);
                Reply::File(if self.locked.contains(&path) {
                    Err(host_error("locked"))
                } else {
                    Ok(format!("{path}#{flags}"))
                })
            }
            Request::InodePath { inode } => Reply::Path(if self.traceable {
                Some(Host::path_of(&inode.file_or_handle))
            } else {
                None
            }),
        }
    }

    fn finish(&mut self, mut restore: Restore<String, u32>) -> Restored {
        while let Some(request) = restore.request() {
            let reply = self.perform(request);
            restore = restore.step(reply);
        }
        let result = match restore.outcome() {
            Some(Ok(())) => Ok(()),
            Some(Err(error)) => Err((error.kind, error.message.clone())),
            None => panic!("no outcome"),
        };
        Restored {
            fs: restore.into_fs(),
            result,
        }
    }

    fn apply(&mut self, state: PassthroughFsV1, fs: PassthroughFs<String, u32>) -> Restored {
        let restore = state.apply(fs);
        self.finish(restore)
    }
}

struct Restored {
    fs: PassthroughFs<String, u32>,
    result: Result<(), (ErrorKind, String)>,
}

impl Restored {
    fn ok(self) -> PassthroughFs<String, u32> {
        assert_eq!(self.result, Ok(()));
        self.fs
    }

    fn refcount(&self, id: u64) -> u64 {
        self.fs.inodes.get(id).expect("inode missing").refcount
    }

    fn invalid(&self, id: u64) -> (ErrorKind, String) {
        match &self.fs.inodes.get(id).expect("inode missing").file_or_handle {
            FileOrHandle::Invalid(error) => (error.kind, error.message.clone()),
            _ => panic!("inode is valid"),
        }
    }
}

fn config(migration_on_error: MigrationOnError) -> Config {
    Config {
        writeback: false,
        announce_submounts: false,
        posix_acl: false,
        migration_on_error,
    }
}

fn mk_fs() -> PassthroughFs<String, u32> {
    PassthroughFs::new(config(MigrationOnError::Abort))
}

fn mk_lenient_fs() -> PassthroughFs<String, u32> {
    PassthroughFs::new(config(MigrationOnError::GuestError))
}

fn set_filter_path_remap(fs: &mut PassthroughFs<String, u32>, remap: HashMap<String, String>) {
    fs.set_filter_path_remap(remap.into_iter().collect());
}

fn no_opts() -> NegotiatedOpts {
    NegotiatedOpts {
        writeback: false,
        announce_submounts: false,
        posix_acl: false,
        sup_group_extension: false,
    }
}

fn state(inodes: Vec<Inode>, handles: Vec<Handle>) -> PassthroughFsV1 {
    PassthroughFsV1 {
        inodes,
        next_inode: 4,
        handles,
        next_handle: 0,
        negotiated_opts: no_opts(),
    }
}

fn inode(id: u64, refcount: u64, location: InodeLocation) -> Inode {
    Inode {
        id,
        refcount,
        location,
        file_handle: None,
    }
}

fn root(refcount: u64) -> Inode {
    inode(ROOT_ID, refcount, InodeLocation::RootNode)
}

fn child(id: u64, refcount: u64, parent: u64, filename: &str) -> Inode {
    inode(
        id,
        refcount,
        InodeLocation::Path {
            parent,
            filename: filename.to_string(),
            fullname: String::new(),
        },
    )
}

fn full(id: u64, filename: &str) -> Inode {
    inode(
        id,
        1,
        InodeLocation::FullPath {
            filename: filename.to_string(),
        },
    )
}

fn handle(id: u64, inode: u64, flags: i32) -> Handle {
    Handle {
        id,
        inode,
        source: HandleSource::OpenInode { flags },
    }
}

fn other(message: &str) -> Result<(), (ErrorKind, String)> {
    Err((ErrorKind::Other, message.to_string()))
}

fn denied(message: &str) -> Result<(), (ErrorKind, String)> {
    Err((
        ErrorKind::Host(std::io::ErrorKind::PermissionDenied),
        message.to_string(),
    ))
}

fn apply_mnt_tree(
    host: &mut Host,
    fs: PassthroughFs<String, u32>,
    mnt_fullname: &str,
) -> PassthroughFs<String, u32> {
    let state = PassthroughFsV1 {
        inodes: vec![
            Inode {
                id: ROOT_ID,
                // +1 for the filter inode's Path.parent strong ref
                refcount: 2,
                location: InodeLocation::RootNode,
                file_handle: None,
            },
            Inode {
                id: FILTER_ID,
                // +1 for the child inode's Path.parent strong ref
                refcount: 2,
                location: InodeLocation::Path {
                    parent: ROOT_ID,
                    filename: "mnt".into(),
                    fullname: mnt_fullname.to_string(),
                },
                file_handle: None,
            },
            Inode {
                id: CHILD_ID,
                refcount: 1,
                location: InodeLocation::Path {
                    parent: FILTER_ID,
                    filename: "file".into(),
                    fullname: String::new(),
                },
                file_handle: None,
            },
        ],
        next_inode: 4,
        handles: Vec::new(),
        next_handle: 0,
        negotiated_opts: no_opts(),
    };
    host.apply(state, fs).ok()
}

fn host_path(fs: &PassthroughFs<String, u32>, inode: u64) -> String {
    let data = fs.inodes.get(inode).expect("inode missing");
    Host::path_of(&data.file_or_handle)
}

fn filter_original_path(fs: &PassthroughFs<String, u32>, inode: u64) -> String {
    fs.filter
        .get(inode)
        .map(|(_, original)| original.clone())
        .expect("filter entry missing")
}

#[test]
fn remap_hit_opens_new_tree() {
    let mut host = Host::new("/hit-shared");
    let old_mnt = host.touch("/hit-old/mnt");
    host.touch("/hit-old/mnt/file");
    let new_mnt = host.touch("/hit-new/mnt");
    host.touch("/hit-new/mnt/file");

    let mut fs = mk_fs();
    let mut remap = HashMap::new();
    remap.insert("mnt".into(), new_mnt.clone());
    set_filter_path_remap(&mut fs, remap);

    let fs = apply_mnt_tree(&mut host, fs, &old_mnt);

    assert_eq!(filter_original_path(&fs, FILTER_ID), new_mnt);
    assert_eq!(host_path(&fs, FILTER_ID), new_mnt);
    assert_eq!(host_path(&fs, CHILD_ID), format!("{new_mnt}/file"));
}

#[test]
fn remap_miss_keeps_blob_fullname() {
    let mut host = Host::new("/miss-shared");
    let old_mnt = host.touch("/miss-old/mnt");
    host.touch("/miss-old/mnt/file");

    let fs = apply_mnt_tree(&mut host, mk_fs(), &old_mnt);

    assert_eq!(filter_original_path(&fs, FILTER_ID), old_mnt);
    assert_eq!(host_path(&fs, FILTER_ID), old_mnt);
    assert_eq!(host_path(&fs, CHILD_ID), format!("{old_mnt}/file"));
}

#[test]
fn remap_identity_is_noop() {
    let mut host = Host::new("/id-shared");
    let old_mnt = host.touch("/id-old/mnt");
    host.touch("/id-old/mnt/file");

    let mut fs = mk_fs();
    let mut remap = HashMap::new();
    remap.insert("mnt".into(), old_mnt.clone());
    set_filter_path_remap(&mut fs, remap);
    let fs = apply_mnt_tree(&mut host, fs, &old_mnt);

    assert_eq!(filter_original_path(&fs, FILTER_ID), old_mnt);
    assert_eq!(host_path(&fs, FILTER_ID), old_mnt);
}

#[test]
fn remap_ignores_non_filter_child() {
    let mut host = Host::new("/child-shared");
    host.touch("/child-shared/file");
    let decoy = host.touch("/child-decoy/file");

    let mut fs = mk_fs();
    let mut remap = HashMap::new();
    remap.insert("file".into(), decoy);
    set_filter_path_remap(&mut fs, remap);

    let fs = host
        .apply(
            PassthroughFsV1 {
                inodes: vec![
                    Inode {
                        id: ROOT_ID,
                        refcount: 2,
                        location: InodeLocation::RootNode,
                        file_handle: None,
                    },
                    Inode {
                        id: CHILD_ID,
                        refcount: 1,
                        location: InodeLocation::Path {
                            parent: ROOT_ID,
                            filename: "file".into(),
                            fullname: String::new(),
                        },
                        file_handle: None,
                    },
                ],
                next_inode: 4,
                handles: Vec::new(),
                next_handle: 0,
                negotiated_opts: no_opts(),
            },
            fs,
        )
        .ok();

    assert_eq!(host_path(&fs, CHILD_ID), "/child-shared/file");
    assert!(fs.filter.is_empty());
}

#[test]
fn relative_fullname_is_no_filter_root() {
    let mut host = Host::new("/s");
    host.touch("/s/mnt");
    host.touch("/elsewhere");
    let mut fs = mk_fs();
    fs.set_filter_path_remap(vec![("mnt".to_string(), "/elsewhere".to_string())]);
    let mnt = inode(
        2,
        1,
        InodeLocation::Path {
            parent: ROOT_ID,
            filename: "mnt".to_string(),
            fullname: "old/mnt".to_string(),
        },
    );
    let fs = host.apply(state(vec![root(2), mnt], vec![]), fs).ok();
    assert_eq!(host_path(&fs, 2), "/s/mnt");
    assert!(fs.filter.is_empty());
}

#[test]
fn later_remapping_of_a_name_counts() {
    let mut host = Host::new("/s");
    host.touch("/one");
    host.touch("/two");
    let mut fs = mk_fs();
    fs.set_filter_path_remap(vec![
        ("mnt".to_string(), "/one".to_string()),
        ("mnt".to_string(), "/two".to_string()),
    ]);
    let mnt = inode(
        2,
        1,
        InodeLocation::Path {
            parent: ROOT_ID,
            filename: "mnt".to_string(),
            fullname: "/old/mnt".to_string(),
        },
    );
    let fs = host.apply(state(vec![root(2), mnt], vec![]), fs).ok();
    assert_eq!(host_path(&fs, 2), "/two");
    assert_eq!(filter_original_path(&fs, 2), "/two");
}

#[test]
fn filter_entries_that_are_not_concerned_stay() {
    let mut host = Host::new("/s");
    let mut fs = mk_fs();
    fs.filter
        .insert(99, ("/kept".to_string(), "/kept".to_string()));
    let fs = host.apply(state(vec![root(1)], vec![]), fs).ok();
    assert_eq!(filter_original_path(&fs, 99), "/kept");
}

#[test]
fn order_of_inodes_does_not_matter() {
    let mut host = Host::new("/s");
    host.touch("/s/a");
    host.touch("/s/a/b");
    host.touch("/s/a/b/c");
    let orders = [
        [0, 1, 2, 3],
        [3, 2, 1, 0],
        [1, 3, 0, 2],
        [2, 0, 3, 1],
        [3, 0, 2, 1],
    ];
    for order in orders {
        let mut inodes = Vec::new();
        for i in order {
            inodes.push(match i {
                0 => root(5),
                1 => child(2, 4, ROOT_ID, "a"),
                2 => child(3, 3, 2, "b"),
                _ => child(4, 2, 3, "c"),
            });
        }
        let restored = host.apply(state(inodes, vec![]), mk_fs());
        assert_eq!(restored.result, Ok(()));
        assert_eq!(host_path(&restored.fs, 4), "/s/a/b/c");
        assert_eq!(restored.refcount(ROOT_ID), 4);
        assert_eq!(restored.refcount(2), 3);
        assert_eq!(restored.refcount(3), 2);
        assert_eq!(restored.refcount(4), 2);
    }
}

#[test]
fn loops_are_refused() {
    let mut host = Host::new("/s");
    let restored = host.apply(
        state(
            vec![root(1), child(2, 2, 3, "a"), child(3, 2, 2, "b")],
            vec![],
        ),
        mk_lenient_fs(),
    );
    assert_eq!(
        restored.result,
        other("Unresolved references between serialized inodes")
    );
    assert!(restored.fs.inodes.contains(ROOT_ID));
    assert!(!restored.fs.inodes.contains(2));
}

#[test]
fn missing_root_is_refused() {
    let mut host = Host::new("/s");
    let restored = host.apply(state(vec![full(2, "a")], vec![]), mk_lenient_fs());
    assert_eq!(
        restored.result,
        other("Unresolved references between serialized inodes")
    );
}

#[test]
fn directory_without_other_references_is_forgotten() {
    let mut host = Host::new("/s");
    host.touch("/s/a");
    host.touch("/s/a/b");
    let restored = host.apply(
        state(
            vec![root(2), child(2, 1, ROOT_ID, "a"), child(3, 1, 2, "b")],
            vec![],
        ),
        mk_fs(),
    );
    assert_eq!(restored.result, Ok(()));
    assert_eq!(restored.refcount(ROOT_ID), 1);
    assert!(!restored.fs.inodes.contains(2));
    assert_eq!(host_path(&restored.fs, 3), "/s/a/b");
}

#[test]
fn lost_inode_aborts_or_is_invalid() {
    let lost = || state(vec![root(1), inode(12, 7, InodeLocation::Invalid)], vec![]);
    let mut host = Host::new("/s");
    let restored = host.apply(lost(), mk_fs());
    assert_eq!(
        restored.result,
        Err((
            ErrorKind::NotFound,
            "Inode 12: Migration source has lost inode 12".to_string()
        ))
    );
    let restored = host.apply(lost(), mk_lenient_fs());
    assert_eq!(restored.result, Ok(()));
    assert_eq!(
        restored.invalid(12),
        (
            ErrorKind::NotFound,
            "Migration source has lost inode 12".to_string()
        )
    );
    assert_eq!(restored.refcount(12), 7);
    let data = restored.fs.inodes.get(12).unwrap();
    assert_eq!(
        data.ids,
        InodeIds {
            ino: 0,
            dev: 0,
            mnt_id: 0
        }
    );
    assert_eq!(data.mode, 0);
}

#[test]
fn path_that_does_not_open_names_its_directory() {
    let mut host = Host::new("/s");
    let gone = || state(vec![root(2), child(10, 1, ROOT_ID, "gone")], vec![]);
    let restored = host.apply(gone(), mk_fs());
    assert_eq!(
        restored.result,
        denied("Inode 10: Opening /s/gone: no such file")
    );
    // The reference to the directory is dropped all the same.
    assert_eq!(restored.refcount(ROOT_ID), 1);

    let restored = host.apply(gone(), mk_lenient_fs());
    assert_eq!(restored.result, Ok(()));
    assert_eq!(
        restored.invalid(10).1,
        "Opening /s/gone: no such file".to_string()
    );

    let mut host = Host::new("/");
    let restored = host.apply(gone(), mk_fs());
    assert_eq!(
        restored.result,
        denied("Inode 10: Opening /gone: no such file")
    );
}

#[test]
fn child_of_an_invalid_directory_is_invalid() {
    let mut host = Host::new("/s");
    let restored = host.apply(
        state(
            vec![
                root(1),
                inode(2, 2, InodeLocation::Invalid),
                child(3, 1, 2, "a"),
            ],
            vec![],
        ),
        mk_lenient_fs(),
    );
    assert_eq!(restored.result, Ok(()));
    assert_eq!(
        restored.invalid(3),
        (
            ErrorKind::NotFound,
            "Inode is invalid because of an error during the preceding migration, which was: \
             Migration source has lost inode 2"
                .to_string()
        )
    );
    assert_eq!(restored.refcount(2), 1);
    assert!(host.opened.is_empty());
}

#[test]
fn file_handle_is_compared_without_the_mount() {
    let mut host = Host::new("/s");
    host.touch("/s/a");
    for by_handle in [false, true] {
        host.by_handle = by_handle;
        let mut same = child(2, 1, ROOT_ID, "a");
        same.file_handle = Some(SerializableFileHandle {
            mount_id: 1234,
            ..host.handle_of("/s/a")
        });
        let fs = host.apply(state(vec![root(2), same], vec![]), mk_fs()).ok();
        assert_eq!(host_path(&fs, 2), "/s/a");
    }
}

#[test]
fn another_file_of_the_same_name_is_refused() {
    let mut host = Host::new("/s");
    host.touch("/s/a");
    let text = "Inode 2 is not the same inode as in the migration source: file handles differ";
    for by_handle in [false, true] {
        host.by_handle = by_handle;
        let differs = |host: &Host| {
            let mut differs = child(2, 1, ROOT_ID, "a");
            differs.file_handle = Some(host.handle_of("/s/b"));
            state(vec![root(2), differs], vec![])
        };
        let restored = host.apply(differs(&host), mk_fs());
        assert_eq!(restored.result, other(&format!("Inode 2: {text}")));
        let restored = host.apply(differs(&host), mk_lenient_fs());
        assert_eq!(restored.result, Ok(()));
        assert_eq!(restored.invalid(2), (ErrorKind::Other, text.to_string()));
    }
}

#[test]
fn another_root_is_always_refused() {
    let mut host = Host::new("/s");
    for fs in [mk_fs(), mk_lenient_fs()] {
        let mut differs = root(1);
        differs.file_handle = Some(host.handle_of("/other"));
        let restored = host.apply(state(vec![differs], vec![]), fs);
        assert_eq!(
            restored.result,
            other("Inode 1 is not the same inode as in the migration source: file handles differ")
        );
        assert_eq!(restored.refcount(ROOT_ID), 1);
    }
    let mut same = root(1);
    same.file_handle = Some(host.handle_of("/s"));
    host.apply(state(vec![same], vec![]), mk_fs()).ok();
}

#[test]
fn invalid_inode_fails_the_handle_check_again() {
    let mut host = Host::new("/s");
    let mut gone = child(2, 1, ROOT_ID, "gone");
    gone.file_handle = Some(host.handle_of("/s/gone"));
    let restored = host.apply(state(vec![root(2), gone], vec![]), mk_lenient_fs());
    assert_eq!(restored.result, Ok(()));
    assert_eq!(
        restored.invalid(2).1,
        "Inode is invalid because of an error during the preceding migration, which was: \
         Opening /s/gone: no such file"
    );
}

#[test]
fn root_that_does_not_open_is_refused() {
    let restore = state(vec![root(1)], vec![]).apply(mk_lenient_fs());
    let restore = restore.step(Reply::Root(Err(host_error("no root"))));
    assert!(restore.request().is_none());
    match restore.outcome() {
        Some(Err(error)) => assert_eq!(*error, host_error("no root")),
        _ => panic!("the restore goes on"),
    }
    assert!(restore.fs().inodes.is_empty());
}

#[test]
fn root_node_must_have_the_root_number() {
    let mut host = Host::new("/s");
    let restored = host.apply(
        state(vec![inode(20, 1, InodeLocation::RootNode)], vec![]),
        mk_lenient_fs(),
    );
    assert_eq!(
        restored.result,
        other("Node with non-root ID (20) given as root node")
    );
}

#[test]
fn root_must_not_have_a_path() {
    for location in [
        InodeLocation::Path {
            parent: 9,
            filename: "a".to_string(),
            fullname: String::new(),
        },
        InodeLocation::FullPath {
            filename: "a".to_string(),
        },
    ] {
        let mut host = Host::new("/s");
        let restored = host.apply(
            state(vec![inode(ROOT_ID, 1, location)], vec![]),
            mk_lenient_fs(),
        );
        assert_eq!(
            restored.result,
            other("Refusing to use path given for root node")
        );
    }
}

#[test]
fn numbers_are_used_once() {
    let mut host = Host::new("/s");
    let restored = host.apply(
        state(
            vec![
                root(1),
                inode(30, 1, InodeLocation::Invalid),
                inode(30, 2, InodeLocation::Invalid),
            ],
            vec![],
        ),
        mk_lenient_fs(),
    );
    assert_eq!(restored.result, other("Double-use of FUSE inode ID 30"));
    let restored = host.apply(state(vec![root(1), root(1)], vec![]), mk_lenient_fs());
    assert_eq!(restored.result, other("Double-use of FUSE inode ID 1"));
}

#[test]
fn full_path_is_opened_below_the_root() {
    let mut host = Host::new("/s");
    host.touch("/s/a/b");
    let mut below = full(2, "a/b");
    // Not compared.
    below.file_handle = Some(host.handle_of("/other"));
    let restored = host.apply(state(vec![below, root(1)], vec![]), mk_fs());
    assert_eq!(restored.result, Ok(()));
    assert_eq!(host_path(&restored.fs, 2), "/s/a/b");
    assert_eq!(host.opened, [("/s".to_string(), "a/b".to_string())]);
    // The reference that the lookup has taken is given back.
    assert_eq!(restored.refcount(ROOT_ID), 1);
}

#[test]
fn lookup_holds_a_reference_to_the_root() {
    let mut restore = state(vec![root(1), full(2, "a")], vec![]).apply(mk_fs());
    let mut host = Host::new("/s");
    let reply = host.perform(restore.request().unwrap());
    restore = restore.step(reply);
    assert_eq!(restore.fs().inodes.get(ROOT_ID).unwrap().refcount, 2);
}

#[test]
fn file_is_held_by_its_handle_where_it_has_one() {
    let mut host = Host::new("/s");
    host.touch("/s/a");
    host.by_handle = true;
    let fs = host
        .apply(
            state(vec![root(2), child(2, 9, ROOT_ID, "a")], vec![]),
            mk_fs(),
        )
        .ok();
    let data = fs.inodes.get(2).unwrap();
    match &data.file_or_handle {
        FileOrHandle::Handle(handle) => {
            assert_eq!(handle.handle, host.handle_of("/s/a"));
            assert_eq!(handle.mount, 5);
        }
        _ => panic!("not held by its handle"),
    }
    assert_eq!(data.inode, 2);
    assert_eq!(data.refcount, 9);
    assert_eq!(
        Stat {
            ids: data.ids,
            mode: data.mode
        },
        host.stat_of("/s/a")
    );
    assert!(data.migration_info.is_none());
}

#[test]
fn handle_that_cannot_be_opened_fails() {
    let mut host = Host::new("/s");
    host.touch("/s/a");
    host.by_handle = true;
    host.openable = false;
    let restored = host.apply(
        state(vec![root(2), child(2, 1, ROOT_ID, "a")], vec![]),
        mk_fs(),
    );
    assert_eq!(restored.result, denied("Inode 2: no such mount"));
}

#[test]
fn lookup_ends_where_a_step_of_it_fails() {
    let start = || {
        let restore = state(vec![root(2), child(2, 1, ROOT_ID, "a")], vec![]).apply(mk_fs());
        let reply = Host::new("/s").perform(restore.request().unwrap());
        restore.step(reply)
    };
    let failure = |restore: &Restore<String, u32>| match restore.outcome() {
        Some(Err(error)) => error.message.clone(),
        _ => panic!("the restore goes on"),
    };
    let stat = Host::new("/s").stat_of("/s/a");

    let restore = start().step(Reply::Opened(Err(OpenError {
        directory: None,
        error: host_error("no directory"),
    })));
    assert_eq!(failure(&restore), "Inode 2: no directory");

    let restore = start()
        .step(Reply::Opened(Ok("/s/a".to_string())))
        .step(Reply::Stat(Err(host_error("no status"))));
    assert_eq!(failure(&restore), "Inode 2: no status");

    let restore = start()
        .step(Reply::Opened(Ok("/s/a".to_string())))
        .step(Reply::Stat(Ok(stat)))
        .step(Reply::FileHandle(Err(host_error("no handle"))));
    assert_eq!(failure(&restore), "Inode 2: no handle");
}

#[test]
fn host_that_cannot_name_a_file_fails_the_check() {
    let mut host = Host::new("/s");
    host.touch("/s/a");
    let mut checked = child(2, 1, ROOT_ID, "a");
    checked.file_handle = Some(host.handle_of("/s/a"));
    let mut restore = state(vec![root(2), checked], vec![]).apply(mk_fs());
    loop {
        let request = restore.request().expect("no request");
        let reply = match request {
            Request::Identify { .. } => break,
            request => host.perform(request),
        };
        restore = restore.step(reply);
    }
    let restore = restore.step(Reply::Identity(Err(host_error("nameless"))));
    match restore.outcome() {
        Some(Err(error)) => assert_eq!(error.message, "Inode 2: nameless"),
        _ => panic!("the restore goes on"),
    }
}

#[test]
fn open_files_are_restored() {
    let mut host = Host::new("/s");
    host.touch("/s/a");
    let mut plan = state(
        vec![root(2), child(2, 1, ROOT_ID, "a")],
        vec![handle(7, 2, 0o2), handle(8, ROOT_ID, 0o200000), handle(7, 2, 0o1)],
    );
    plan.next_inode = 40;
    plan.next_handle = 50;
    let mut fs = mk_fs();
    fs.next_inode = 1000;
    fs.next_handle = 1000;
    let fs = host.apply(plan, fs).ok();
    assert_eq!(fs.next_inode, 40);
    assert_eq!(fs.next_handle, 50);
    let file = |id: u64| {
        let data = fs.handles.get(id).expect("handle missing");
        match &data.file {
            HandleDataFile::File(file) => (data.inode, file.clone(), data.migration_info),
            HandleDataFile::Invalid(_) => panic!("handle is invalid"),
        }
    };
    // Of two with one number the later counts.
    assert_eq!(
        file(7),
        (
            2,
            "/s/a#1".to_string(),
            HandleMigrationInfo::OpenInode { flags: 1 }
        )
    );
    assert_eq!(
        file(8),
        (
            ROOT_ID,
            "/s#65536".to_string(),
            HandleMigrationInfo::OpenInode { flags: 65536 }
        )
    );
    assert!(!fs.handles.contains(9));
}

#[test]
fn open_file_without_an_inode_is_refused() {
    let mut host = Host::new("/s");
    let restored = host.apply(state(vec![root(1)], vec![handle(3, 44, 0)]), mk_lenient_fs());
    assert_eq!(restored.result, other("Inode 44 not found"));
    assert_eq!(restored.fs.next_inode, 4);
}

#[test]
fn inode_that_does_not_open_aborts_or_is_invalid() {
    for traceable in [true, false] {
        let mut host = Host::new("/s");
        host.locked.insert("/s".to_string());
        host.traceable = traceable;
        let text = if traceable {
            "Opening inode 1 (/s) as handle 3: locked"
        } else {
            "Opening inode 1 as handle 3: locked"
        };
        let plan = || state(vec![root(1)], vec![handle(3, ROOT_ID, 2)]);
        let restored = host.apply(plan(), mk_fs());
        assert_eq!(restored.result, denied(text));
        assert!(restored.fs.handles.is_empty());

        let restored = host.apply(plan(), mk_lenient_fs());
        assert_eq!(restored.result, Ok(()));
        let data = restored.fs.handles.get(3).unwrap();
        match &data.file {
            HandleDataFile::Invalid(error) => assert_eq!(*error, host_error(text)),
            HandleDataFile::File(_) => panic!("handle is valid"),
        }
        assert_eq!(data.inode, ROOT_ID);
        assert_eq!(
            data.migration_info,
            HandleMigrationInfo::OpenInode { flags: 2 }
        );
    }
}

#[test]
fn open_file_of_an_invalid_inode_is_invalid() {
    let mut host = Host::new("/s");
    let restored = host.apply(
        state(
            vec![root(1), inode(2, 1, InodeLocation::Invalid)],
            vec![handle(3, 2, 0), handle(4, ROOT_ID, 0)],
        ),
        mk_lenient_fs(),
    );
    assert_eq!(restored.result, Ok(()));
    match &restored.fs.handles.get(3).unwrap().file {
        HandleDataFile::Invalid(error) => assert_eq!(
            error.message,
            "Opening inode 2 as handle 3: Inode is invalid because of an error during the \
             preceding migration, which was: Migration source has lost inode 2"
        ),
        HandleDataFile::File(_) => panic!("handle is valid"),
    }
    assert!(restored.fs.handles.contains(4));
}

#[test]
fn refused_options_stop_the_restore_at_once() {
    let mut fs = mk_fs();
    fs.next_inode = 1000;
    let mut plan = state(vec![root(1)], vec![]);
    plan.negotiated_opts.posix_acl = true;
    let restore = plan.apply(fs);
    assert!(restore.request().is_none());
    match restore.outcome() {
        Some(Err(error)) => assert_eq!(
            error.message,
            "Migration source wants posix ACLs enabled, but it is disabled on the destination"
        ),
        _ => panic!("the restore goes on"),
    }
    assert_eq!(restore.fs().next_inode, 1000);
}

#[test]
fn what_was_there_before_is_dropped() {
    let mut host = Host::new("/s");
    host.touch("/s/a");
    let first = host
        .apply(
            state(
                vec![root(2), child(2, 1, ROOT_ID, "a")],
                vec![handle(3, 2, 0)],
            ),
            mk_fs(),
        )
        .ok();
    let second = host.apply(state(vec![root(1)], vec![]), first).ok();
    assert!(second.inodes.contains(ROOT_ID));
    assert!(!second.inodes.contains(2));
    assert!(second.handles.is_empty());
}

#[test]
fn empty_state_needs_no_host() {
    let restore = state(vec![], vec![]).apply(mk_fs());
    assert!(restore.request().is_none());
    assert_eq!(restore.outcome(), Some(&Ok(())));
}

#[test]
fn replies_are_few() {
    let mut host = Host::new("/s");
    host.by_handle = true;
    host.touch("/s/a");
    host.touch("/s/b");
    let mut inodes = vec![child(3, 1, ROOT_ID, "b"), child(2, 1, ROOT_ID, "a"), root(3)];
    inodes[0].file_handle = Some(host.handle_of("/s/b"));
    host.apply(state(inodes, vec![handle(1, 2, 0)]), mk_fs()).ok();
    assert!(host.replies <= 5 * 3 + 2);
    assert_eq!(host.replies, 4 + 4 + 1 + 1);
}

#[test]
fn remapping_of_other_names_makes_no_difference() {
    let plan = || {
        let mnt = inode(
            2,
            2,
            InodeLocation::Path {
                parent: ROOT_ID,
                filename: "mnt".to_string(),
                fullname: "/old/mnt".to_string(),
            },
        );
        state(
            vec![child(3, 1, 2, "file"), root(2), mnt],
            vec![handle(1, 3, 0)],
        )
    };
    let mut results = Vec::new();
    for remap in [
        vec![],
        vec![("file", "/decoy")],
        vec![("mnt", "/old/mnt"), ("file", "/decoy")],
    ] {
        let mut host = Host::new("/s");
        host.touch("/old/mnt");
        host.touch("/old/mnt/file");
        host.touch("/decoy");
        let mut fs = mk_fs();
        fs.set_filter_path_remap(
            remap
                .into_iter()
                .map(|(name, path)| (name.to_string(), path.to_string()))
                .collect(),
        );
        let restored = host.apply(plan(), fs);
        assert_eq!(restored.result, Ok(()));
        results.push((
            host.opened,
            filter_original_path(&restored.fs, 2),
            host_path(&restored.fs, 3),
            host.replies,
        ));
    }
    assert_eq!(
        results[0],
        (
            vec![
                ("/s".to_string(), "/old/mnt".to_string()),
                ("/old/mnt".to_string(), "file".to_string()),
            ],
            "/old/mnt".to_string(),
            "/old/mnt/file".to_string(),
            8,
        )
    );
    assert_eq!(results[1], results[0]);
    assert_eq!(results[2], results[0]);
}

#[test]
fn another_root_that_is_held_by_its_handle_is_refused() {
    let host = Host::new("/s");
    let mut expected = root(1);
    expected.file_handle = Some(host.handle_of("/other"));
    let restore = state(vec![expected], vec![]).apply(mk_lenient_fs());
    let restore = restore.step(Reply::Root(Ok(RootNode {
        node: Node::Handle(OpenableFileHandle {
            handle: host.handle_of("/s"),
            mount: 5,
        }),
        stat: host.stat_of("/s"),
        migration_info: None,
    })));
    assert!(restore.request().is_none());
    match restore.outcome() {
        Some(Err(error)) => assert_eq!(
            error.message,
            "Inode 1 is not the same inode as in the migration source: file handles differ"
        ),
        _ => panic!("the restore goes on"),
    }
}

/// What a restore has left: of each inode its references, numbers, mode and how it is held; the
/// filter roots; the open files; the numbers to give out next.
fn summary(fs: &PassthroughFs<String, u32>) -> Vec<String> {
    let mut lines = Vec::new();
    for id in 0..50 {
        if let Some(data) = fs.inodes.get(id) {
            let held = match &data.file_or_handle {
                FileOrHandle::File(path) => path.clone(),
                FileOrHandle::Handle(handle) => format!("{:?}", handle.handle),
                FileOrHandle::Invalid(error) => format!("{error:?}"),
            };
            lines.push(format!(
                "inode {id}: {} {:?} {} {held}",
                data.refcount, data.ids, data.mode
            ));
        }
        if let Some(paths) = fs.filter.get(id) {
            lines.push(format!("filter {id}: {paths:?}"));
        }
        if let Some(data) = fs.handles.get(id) {
            let file = match &data.file {
                HandleDataFile::File(file) => file.clone(),
                HandleDataFile::Invalid(error) => format!("{error:?}"),
            };
            lines.push(format!(
                "handle {id}: {} {:?} {file}",
                data.inode, data.migration_info
            ));
        }
    }
    lines.push(format!("next {} {}", fs.next_inode, fs.next_handle));
    lines
}

fn mixed_inodes() -> Vec<Inode> {
    vec![
        root(4),
        child(2, 3, ROOT_ID, "a"),
        child(3, 1, 2, "b"),
        child(4, 1, 2, "gone"),
        full(5, "a/b"),
        inode(6, 2, InodeLocation::Invalid),
        child(7, 1, 6, "c"),
        inode(
            8,
            1,
            InodeLocation::Path {
                parent: ROOT_ID,
                filename: "mnt".to_string(),
                fullname: "/mnt".to_string(),
            },
        ),
    ]
}

fn mixed_host() -> Host {
    let mut host = Host::new("/s");
    for path in ["/s/a", "/s/a/b", "/mnt"] {
        host.touch(path);
    }
    host
}

#[test]
fn order_of_inodes_leaves_the_same_file_system() {
    let handles = || vec![handle(1, 3, 2), handle(2, 4, 0), handle(3, 8, 1)];
    let first = mixed_host().apply(state(mixed_inodes(), handles()), mk_lenient_fs());
    let expected = summary(&first.ok());
    assert_eq!(expected.len(), 8 + 1 + 3 + 1);
    for turn in 0..8 {
        for step in [1, 3, 5, 7] {
            let mut listed: Vec<Option<Inode>> = mixed_inodes().into_iter().map(Some).collect();
            let mut inodes = Vec::new();
            for i in 0..8 {
                inodes.push(listed[(turn + step * i) % 8].take().unwrap());
            }
            let restored = mixed_host().apply(state(inodes, handles()), mk_lenient_fs());
            assert_eq!(summary(&restored.ok()), expected);
        }
    }
}

#[test]
fn order_of_inodes_does_not_turn_failure_into_success() {
    for turn in 0..8 {
        let mut inodes = mixed_inodes();
        inodes.rotate_left(turn);
        let restored = mixed_host().apply(state(inodes, vec![]), mk_fs());
        assert!(restored.result.is_err());
    }
}

#[test]
fn nothing_of_an_earlier_restore_survives() {
    let mut used = mixed_host()
        .apply(
            PassthroughFsV1 {
                inodes: vec![root(3), child(2, 1, ROOT_ID, "a")],
                next_inode: 30,
                handles: vec![handle(9, 2, 0)],
                next_handle: 31,
                negotiated_opts: NegotiatedOpts {
                    sup_group_extension: true,
                    ..no_opts()
                },
            },
            mk_lenient_fs(),
        )
        .ok();
    used.next_inode = 99;
    let plan = || state(mixed_inodes(), vec![handle(1, 3, 2)]);
    let mut hosts = [mixed_host(), mixed_host()];
    let fresh = hosts[0].apply(plan(), mk_lenient_fs()).ok();
    let again = hosts[1].apply(plan(), used).ok();
    assert_eq!(summary(&again), summary(&fresh));
    assert!(!again.sup_group_extension);
    assert_eq!(hosts[0].opened, hosts[1].opened);
    assert_eq!(hosts[0].replies, hosts[1].replies);
}

#[test]
fn failure_with_inodes_left_keeps_the_open_files() {
    let before = mixed_host()
        .apply(state(vec![root(1)], vec![handle(9, ROOT_ID, 0)]), mk_fs())
        .ok();
    let mut plan = state(
        vec![root(2), child(10, 1, ROOT_ID, "gone")],
        vec![handle(1, ROOT_ID, 0)],
    );
    plan.next_inode = 40;
    plan.next_handle = 41;
    let restored = mixed_host().apply(plan, before);
    assert_eq!(
        restored.result,
        denied("Inode 10: Opening /s/gone: no such file")
    );
    assert!(restored.fs.handles.contains(9));
    assert!(!restored.fs.handles.contains(1));
    assert_eq!(restored.fs.next_inode, 4);
    assert_eq!(restored.fs.next_handle, 0);
}

#[test]
fn failure_of_an_open_file_keeps_those_before_it() {
    let before = mixed_host()
        .apply(state(vec![root(1)], vec![handle(9, ROOT_ID, 0)]), mk_fs())
        .ok();
    let mut plan = state(
        vec![root(1)],
        vec![
            handle(1, ROOT_ID, 0),
            handle(2, 44, 0),
            handle(3, ROOT_ID, 0),
        ],
    );
    plan.next_inode = 40;
    plan.next_handle = 41;
    let restored = mixed_host().apply(plan, before);
    assert_eq!(restored.result, other("Inode 44 not found"));
    assert!(restored.fs.handles.contains(1));
    for id in [2, 3, 9] {
        assert!(!restored.fs.handles.contains(id));
    }
    assert_eq!(restored.fs.next_inode, 40);
    assert_eq!(restored.fs.next_handle, 0);
}

#[test]
fn inodes_below_a_missing_directory_are_refused() {
    for inodes in [
        vec![root(1), child(2, 1, 17, "a")],
        vec![root(1), child(2, 2, 17, "a"), child(3, 1, 2, "b")],
        vec![inode(4, 1, InodeLocation::Invalid), full(2, "a")],
    ] {
        let restored = mixed_host().apply(state(inodes, vec![]), mk_lenient_fs());
        assert_eq!(
            restored.result,
            other("Unresolved references between serialized inodes")
        );
        assert!(!restored.fs.inodes.contains(2));
    }
}

#[test]
fn root_that_is_forgotten_is_looked_for_in_vain() {
    let late = vec![root(1), child(2, 1, ROOT_ID, "a"), full(5, "a/b")];
    let restored = mixed_host().apply(state(late, vec![]), mk_fs());
    assert_eq!(restored.result, Ok(()));
    let early = vec![child(2, 1, ROOT_ID, "a"), full(5, "a/b"), root(1)];
    let restored = mixed_host().apply(state(early, vec![]), mk_fs());
    assert_eq!(
        restored.result,
        other("Unresolved references between serialized inodes")
    );
}
