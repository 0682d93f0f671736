use device_state::deserialization::{is_absolute_path, PathLookup};
use device_state::error::{invalid_inode, other_error, Error, ErrorKind};
use device_state::file_handle::SerializableFileHandle;
use device_state::passthrough::{
    Config, FileOrHandle, InodeData, InodeIds, MigrationOnError, Node, OpenableFileHandle,
    PassthroughFs, Stat, ROOT_ID,
};
use device_state::serialized::{Handle, HandleSource, Inode, InodeLocation, NegotiatedOpts};
use device_state::table::Table;

type Fs = PassthroughFs<&'static str, u8>;

fn config(writeback: bool, announce_submounts: bool, posix_acl: bool) -> Config {
    Config {
        writeback,
        announce_submounts,
        posix_acl,
        migration_on_error: MigrationOnError::Abort,
    }
}

fn opts(writeback: bool, announce_submounts: bool, posix_acl: bool) -> NegotiatedOpts {
    NegotiatedOpts {
        writeback,
        announce_submounts,
        posix_acl,
        sup_group_extension: true,
    }
}

fn in_force(fs: &Fs) -> [bool; 4] {
    [
        fs.writeback,
        fs.announce_submounts,
        fs.posix_acl,
        fs.sup_group_extension,
    ]
}

fn data(id: u64, refcount: u64) -> InodeData<&'static str, u8> {
    InodeData {
        inode: id,
        file_or_handle: FileOrHandle::File("file"),
        refcount,
        ids: InodeIds {
            ino: 1,
            dev: 2,
            mnt_id: 3,
        },
        mode: 0o600,
        migration_info: None,
    }
}

fn file_handle(mount_id: u64, handle_type: i32, handle: &[u8]) -> SerializableFileHandle {
    SerializableFileHandle {
        mount_id,
        handle_type,
        handle: handle.to_vec(),
    }
}

fn serialized(id: u64, file_handle: Option<SerializableFileHandle>) -> Inode {
    Inode {
        id,
        refcount: 3,
        location: InodeLocation::Invalid,
        file_handle,
    }
}

#[test]
fn options_of_the_source_are_put_in_force() {
    let mut fs: Fs = PassthroughFs::new(config(true, true, true));
    assert_eq!(opts(true, false, true).apply(&mut fs), Ok(()));
    assert_eq!(in_force(&fs), [true, false, true, true]);
    // Again, and nothing changes.
    assert_eq!(opts(true, false, true).apply(&mut fs), Ok(()));
    assert_eq!(in_force(&fs), [true, false, true, true]);
    // What only the configuration enables is switched off.
    assert_eq!(opts(false, true, false).apply(&mut fs), Ok(()));
    assert_eq!(in_force(&fs), [false, true, false, true]);
}

#[test]
fn first_disabled_option_is_refused() {
    let mut fs: Fs = PassthroughFs::new(config(false, true, true));
    assert_eq!(
        opts(true, true, true).apply(&mut fs),
        Err(other_error(
            "Migration source wants writeback enabled, but it is disabled on the destination"
                .to_string()
        ))
    );
    assert_eq!(in_force(&fs), [false, false, false, false]);

    let mut fs: Fs = PassthroughFs::new(config(true, false, false));
    assert_eq!(
        opts(true, true, true).apply(&mut fs),
        Err(other_error(
            "Migration source wants announce-submounts enabled, but it is disabled on the \
             destination"
                .to_string()
        ))
    );
    assert_eq!(in_force(&fs), [true, false, false, false]);

    let mut fs: Fs = PassthroughFs::new(config(true, true, false));
    assert_eq!(
        opts(true, true, true).apply(&mut fs),
        Err(other_error(
            "Migration source wants posix ACLs enabled, but it is disabled on the destination"
                .to_string()
        ))
    );
    assert_eq!(in_force(&fs), [true, true, false, false]);
}

#[test]
fn file_handles_differ_by_type_and_contents() {
    let a = file_handle(1, 2, &[3, 4]);
    assert_eq!(
        a.require_equal_without_mount_id(&file_handle(9, 2, &[3, 4])),
        Ok(())
    );
    for other in [
        file_handle(1, 7, &[3, 4]),
        file_handle(1, 2, &[3]),
        file_handle(1, 2, &[3, 5]),
        file_handle(1, 2, &[3, 4, 0]),
    ] {
        assert_eq!(
            a.require_equal_without_mount_id(&other),
            Err("file handles differ".to_string())
        );
    }
}

#[test]
fn check_asks_for_the_handle_of_an_open_file() {
    let reference = file_handle(1, 2, &[3]);
    let unchecked = serialized(5, None);
    let checked = serialized(5, Some(reference));
    let mismatch = other_error(
        "Inode 5 is not the same inode as in the migration source: file handles differ".to_string(),
    );
    let open = data(5, 1);

    assert_eq!(unchecked.check_file_handle(&open, None), Some(Ok(())));
    assert_eq!(checked.check_file_handle(&open, None), None);
    assert_eq!(
        checked.check_file_handle(&open, Some(Ok(file_handle(8, 2, &[3])))),
        Some(Ok(()))
    );
    assert_eq!(
        checked.check_file_handle(&open, Some(Ok(file_handle(1, 2, &[4])))),
        Some(Err(mismatch))
    );
    assert_eq!(
        checked.check_file_handle(&open, Some(Err(other_error("no".to_string())))),
        Some(Err(other_error("no".to_string())))
    );
    let held = InodeData {
        file_or_handle: FileOrHandle::Handle(OpenableFileHandle {
            handle: file_handle(6, 2, &[3]),
            mount: 0,
        }),
        ..data(5, 1)
    };
    assert_eq!(checked.check_file_handle(&held, None), Some(Ok(())));
    let invalid: InodeData<&'static str, u8> = InodeData {
        file_or_handle: FileOrHandle::Invalid(other_error("gone".to_string())),
        ..data(5, 1)
    };
    assert_eq!(
        checked.check_file_handle(&invalid, None),
        Some(Err(invalid_inode(&other_error("gone".to_string()))))
    );
}

#[test]
fn numbers_are_written_in_decimal() {
    for (id, text) in [
        (0, "0"),
        (9, "9"),
        (10, "10"),
        (1234567890, "1234567890"),
        (u64::MAX, "18446744073709551615"),
    ] {
        let handle = Handle {
            id,
            inode: id,
            source: HandleSource::OpenInode { flags: 0 },
        };
        let error = handle.describe_error(None, other_error("x".to_string()));
        assert_eq!(
            error.message,
            format!("Opening inode {text} as handle {text}: x")
        );
    }
}

#[test]
fn errors_keep_their_kind() {
    let error = Error {
        kind: ErrorKind::Host(std::io::ErrorKind::TimedOut),
        message: "late".to_string(),
    };
    assert_eq!(
        invalid_inode(&error),
        Error {
            kind: ErrorKind::Host(std::io::ErrorKind::TimedOut),
            message: "Inode is invalid because of an error during the preceding migration, which \
                      was: late"
                .to_string(),
        }
    );
}

#[test]
fn lookup_gives_the_inode_to_add() {
    let inode = serialized(6, None);
    let stat = Stat {
        ids: InodeIds {
            ino: 10,
            dev: 11,
            mnt_id: 12,
        },
        mode: 0o755,
    };
    let found: InodeData<&'static str, u8> = inode
        .deserialize_path(PathLookup::Found {
            node: Node::File("f"),
            stat,
        })
        .ok()
        .unwrap();
    assert_eq!(
        (found.inode, found.refcount, found.ids, found.mode),
        (6, 3, stat.ids, 0o755)
    );
    assert!(matches!(found.file_or_handle, FileOrHandle::File("f")));

    let failed: PathLookup<&'static str, u8> = PathLookup::NotOpened {
        directory: "/d/".to_string(),
        filename: "f".to_string(),
        error: other_error("no".to_string()),
    };
    assert_eq!(
        inode.deserialize_path(failed).err(),
        Some(other_error("Opening /d/f: no".to_string()))
    );
    let unnamed: PathLookup<&'static str, u8> = PathLookup::NotOpened {
        directory: String::new(),
        filename: "f".to_string(),
        error: other_error("no".to_string()),
    };
    assert_eq!(
        inode.deserialize_path(unnamed).err(),
        Some(other_error("Opening /f: no".to_string()))
    );
}

#[test]
fn absolute_paths_start_with_a_slash() {
    for (path, absolute) in [
        ("", false),
        ("/", true),
        ("/a", true),
        ("a/b", false),
        ("\u{e9}/", false),
    ] {
        assert_eq!(is_absolute_path(&path.to_string()), absolute);
    }
}

#[test]
fn references_are_counted() {
    let mut fs: Fs = PassthroughFs::new(config(false, false, false));
    assert_eq!(fs.new_inode(data(4, 2)), Ok(()));
    assert_eq!(
        fs.new_inode(data(4, 9)),
        Err(other_error("Double-use of FUSE inode ID 4".to_string()))
    );
    fs.take_reference(4);
    assert_eq!(fs.inodes.get(4).unwrap().refcount, 3);
    fs.drop_reference(4);
    assert_eq!(fs.inodes.get(4).unwrap().refcount, 2);
    fs.drop_reference(4);
    assert_eq!(fs.inodes.get(4).unwrap().refcount, 1);
    fs.drop_reference(4);
    assert!(!fs.inodes.contains(4));
    // Nothing to take or drop.
    fs.take_reference(4);
    fs.drop_reference(4);
    assert!(fs.inodes.is_empty());
}

#[test]
fn reference_counts_at_their_limits() {
    let mut fs: Fs = PassthroughFs::new(config(false, false, false));
    assert_eq!(fs.new_inode(data(4, 0)), Ok(()));
    assert_eq!(fs.new_inode(data(5, u64::MAX)), Ok(()));
    fs.drop_reference(4);
    assert!(!fs.inodes.contains(4));
    fs.take_reference(5);
    assert_eq!(fs.inodes.get(5).unwrap().refcount, 0);
}

#[test]
fn deferred_inode_changes_nothing() {
    let mut fs: Fs = PassthroughFs::new(config(false, false, false));
    assert_eq!(fs.new_inode(data(ROOT_ID, 2)), Ok(()));
    let inode = Inode {
        id: 3,
        refcount: 1,
        location: InodeLocation::Path {
            parent: 2,
            filename: "a".to_string(),
            fullname: String::new(),
        },
        file_handle: None,
    };
    assert!(matches!(
        inode.deserialize_with_fs(&mut fs),
        Ok(device_state::deserialization::Progress::Deferred)
    ));
    assert_eq!(fs.inodes.get(ROOT_ID).unwrap().refcount, 2);
    assert!(!fs.inodes.contains(3));
}

#[test]
fn tables_map_numbers() {
    let mut table: Table<&str> = Table::new();
    assert!(table.is_empty());
    table.insert(1, "a");
    table.insert(1, "b");
    assert_eq!(table.get(1), Some(&"b"));
    assert_eq!(table.get(2), None);
    assert!(table.contains(1) && !table.is_empty());
    assert_eq!(table.remove(1), Some("b"));
    assert_eq!(table.remove(1), None);
    table.insert(3, "c");
    table.clear();
    assert!(table.is_empty());
}
