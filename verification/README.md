# device_state

Restores the state of a pass-through file system on the destination of a migration: its negotiated
options, its inodes and its open files.

The library in `src/` decides and the host acts. `PassthroughFsV1::apply` starts a `Restore`;
`Restore::request` says what the host is to do next, and `Restore::step` takes what came of it. Every
function is verified with Verus.

- `serialized`: the state as the source sends it.
- `passthrough`: the file system that it is applied to.
- `deserialization`: what each option, inode and open file means for the file system.
- `restore`: applying a whole state, one request at a time.
- `laws`: what holds of every restore, whatever the host replies. Among other things: what a restore
  that succeeds has made of the file system, and that neither the order of the inodes nor what the
  file system was before matters for it; where inodes are looked up and where their files come from;
  how references are accounted for; why a restore fails and what it then leaves; and that it ends.
- `error`, `file_handle`, `table`, `text`: what the others need.

`app/` is the daemon's side: the wire format, and the file operations.
