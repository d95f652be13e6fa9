# os6

The file system and system-call layer of a small teaching kernel, with its
behaviour stated in contracts and proved by Verus.

- `src/layout.rs`: block geometry, directory records, disk inodes
- `src/efs.rs`: the block-level file system and its invariant
- `src/model.rs`: the mathematical model that the contracts speak of
- `src/directory.rs`, `src/search.rs`: lemmas on directories and on searches
- `src/vfs.rs`: inodes: find, create, link, unlink, list, read, write, clear
- `src/file.rs`, `src/task.rs`, `src/mm.rs`: open files, tasks, addresses
- `src/syscall/`: the system calls
- `src/laws.rs`: what holds across operations
- `app/`: shared inode handles behind a spin lock, with a block device to bring up
  to date, and system calls that take raw user pointers; it tests what the library
  asks for before each call

File system operations take the file system as an argument; whoever shares one
between handles puts it behind a lock, as `app/` does. The library works in memory;
`app/` hands the state to a block device after each change.
