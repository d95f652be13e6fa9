//! File and filesystem-related syscalls

use crate::efs::EasyFileSystem;
use crate::file::{
    access, known_flags, open_effect, open_file, open_fits, open_target, File, OpenFlags, Stat,
    StatMode,
};
use crate::task::{installed, TaskControlBlockInner};
use crate::vfs::Inode;
use vstd::prelude::*;
use vstd::string::*;

verus! {

/// The file behind `fd`, to which the caller's buffer is then to be written. It is
/// handed out, so that the task is free while the file works. A descriptor that
/// leads nowhere is refused before the buffer is touched.
pub fn sys_write(inner: &TaskControlBlockInner, fd: usize) -> (next: Result<File, isize>)
    ensures
        next == if inner.is_open(fd as int) {
            Ok(inner.fd_table@[fd as int]->0)
        } else {
            Err(-1isize)
        },
{
    if fd >= inner.fd_table.len() {
        return Err(-1);
    }
    if let Some(file) = &inner.fd_table[fd] {
        Ok(*file)
    } else {
        Err(-1)
    }
}

/// What a write returns once the file has taken `written` bytes.
pub fn sys_write_done(written: usize) -> (ret: isize)
    ensures
        ret == written as isize,
{
    written as isize
}

/// The file behind `fd`, from which the caller's buffer is then to be filled. It is
/// handed out, so that the task is free while the file works. A descriptor that
/// leads nowhere is refused before the buffer is touched.
pub fn sys_read(inner: &TaskControlBlockInner, fd: usize) -> (next: Result<File, isize>)
    ensures
        next == if inner.is_open(fd as int) {
            Ok(inner.fd_table@[fd as int]->0)
        } else {
            Err(-1isize)
        },
{
    if fd >= inner.fd_table.len() {
        return Err(-1);
    }
    if let Some(file) = &inner.fd_table[fd] {
        Ok(*file)
    } else {
        Err(-1)
    }
}

/// What a read returns once the file has given `read` bytes.
pub fn sys_read_done(read: usize) -> (ret: isize)
    ensures
        ret == read as isize,
{
    read as isize
}

/// Opens the file at `path` under `root` and gives it the lowest free descriptor.
pub fn sys_open(
    inner: &mut TaskControlBlockInner,
    fs: &mut EasyFileSystem,
    root: &Inode,
    path: &str,
    flags: u32,
) -> (ret: isize)
    requires
        old(fs).wf(),
        old(fs)@.is_position(root@),
        old(fs)@.at(root@).kind is Directory,
        known_flags(flags),
        open_fits(old(fs)@, old(fs)@.slot(root@), path.spec_bytes(), flags),
    ensures
        final(fs).wf(),
        final(fs)@ == open_effect(old(fs)@, old(fs)@.slot(root@), path.spec_bytes(), flags),
        match open_target(old(fs)@, old(fs)@.slot(root@), path.spec_bytes(), flags) {
            Some(id) => {
                &&& ret == old(inner).next_fd() as isize
                &&& final(inner).fd_table@ == installed(
                    old(inner).fd_table@,
                    final(inner).fd_table@[old(inner).next_fd()],
                )
                &&& final(inner).fd_table@[old(inner).next_fd()] matches Some(File::Inode(f))
                    && f.ino == id && f.inode@ == old(fs)@.position(id as int) && (
                f.readable, f.writable) == access(flags)
                &&& *final(inner) == (TaskControlBlockInner {
                    fd_table: final(inner).fd_table,
                    ..*old(inner)
                })
            },
            None => ret == -1 && *final(inner) == *old(inner),
        },
        old(fs)@.find(old(fs)@.slot(root@), path.spec_bytes()) is Some || flags & 0x200 != 0
            ==> ret == old(inner).next_fd() as isize,
        old(fs)@.find(old(fs)@.slot(root@), path.spec_bytes()) is None && flags & 0x200 == 0
            ==> ret == -1,
{
    let flags = OpenFlags::from_bits(flags).unwrap();
    if let Some(inode) = open_file(fs, root, path, flags) {
        let fd: usize = inner.alloc_fd();
        inner.fd_table[fd] = Some(File::Inode(inode));
        assert(inner.fd_table@ =~= installed(old(inner).fd_table@, inner.fd_table@[fd as int]));
        fd as isize
    } else {
        -1
    }
}

/// Frees a descriptor.
pub fn sys_close(inner: &mut TaskControlBlockInner, fd: usize) -> (ret: isize)
    ensures
        old(inner).is_open(fd as int) ==> ret == 0 && final(inner).fd_table@ == old(
            inner,
        ).fd_table@.update(fd as int, None) && *final(inner) == (TaskControlBlockInner {
            fd_table: final(inner).fd_table,
            ..*old(inner)
        }),
        !old(inner).is_open(fd as int) ==> ret == -1 && *final(inner) == *old(inner),
{
    if fd >= inner.fd_table.len() {
        return -1;
    }
    if inner.fd_table[fd].is_none() {
        return -1;
    }
    inner.fd_table[fd] = None;
    0
}

/// Status of the file behind `fd`, for the caller to receive. The standard
/// streams have none.
pub fn sys_fstat(
    inner: &TaskControlBlockInner,
    fs: &EasyFileSystem,
    fd: usize,
) -> (ret: (isize, Option<Stat>))
    requires
        fs.wf(),
        fd > 2 && inner.is_open(fd as int) ==> (inner.fd_table@[fd as int] matches Some(
            File::Inode(f),
        ) && fs@.is_position(f.inode@)),
    ensures
        !(fd > 2 && inner.is_open(fd as int)) ==> ret == (-1isize, None::<Stat>),
        fd > 2 && inner.is_open(fd as int) ==> (inner.fd_table@[fd as int] matches Some(
            File::Inode(f),
        ) && ret == (
            0isize,
            Some(
                Stat {
                    ino: f.ino,
                    mode: if fs@.at(f.inode@).kind is File {
                        StatMode::FILE
                    } else {
                        StatMode::DIR
                    },
                    nlink: fs@.at(f.inode@).nlink,
                },
            ),
        )),
{
    if fd <= 2 {
        // doesn't support std{in, out, err} yet
        return (-1, None);
    }
    if fd >= inner.fd_table.len() {
        return (-1, None);
    }
    match &inner.fd_table[fd] {
        Some(File::Inode(inode)) => {
            let stat = Stat::new(
                inode.ino(),
                if inode.is_file(fs) {
                    StatMode::FILE
                } else {
                    StatMode::DIR
                },
                inode.nlink(fs),
            );
            (0, Some(stat))
        },
        _ => (-1, None),
    }
}

/// Gives the file called `old_name` the further name `new_name`.
pub fn sys_linkat(
    fs: &mut EasyFileSystem,
    root: &Inode,
    old_name: &str,
    new_name: &str,
) -> (ret: isize)
    requires
        old(fs).wf(),
        old(fs)@.is_position(root@),
        old(fs)@.at(root@).kind is Directory ==> (old(fs)@.find(
            old(fs)@.slot(root@),
            old_name.spec_bytes(),
        ) matches Some(id) ==> old(fs)@.link_fits(
            old(fs)@.slot(root@),
            new_name.spec_bytes(),
            id as int,
        )),
    ensures
        final(fs).wf(),
        match old(fs)@.find(old(fs)@.slot(root@), old_name.spec_bytes()) {
            Some(id) if old(fs)@.at(root@).kind is Directory => ret == 0 && final(fs)@ == old(
                fs,
            )@.link(old(fs)@.slot(root@), new_name.spec_bytes(), id as int),
            _ => ret == -1 && final(fs)@ == old(fs)@,
        },
{
    if root.hard_link(fs, new_name, old_name).is_some() {
        0
    } else {
        -1
    }
}

/// Takes one link from the file called `name`.
pub fn sys_unlinkat(fs: &mut EasyFileSystem, root: &Inode, name: &str) -> (ret: isize)
    requires
        old(fs).wf(),
        old(fs)@.is_position(root@),
        old(fs)@.at(root@).kind is Directory,
        old(fs)@.find(old(fs)@.slot(root@), name.spec_bytes()) matches Some(id) ==> old(
            fs,
        )@.unlink_fits(id as int),
    ensures
        final(fs).wf(),
        match old(fs)@.find(old(fs)@.slot(root@), name.spec_bytes()) {
            Some(id) => ret == 0 && final(fs)@ == old(fs)@.unlink(
                old(fs)@.slot(root@),
                name.spec_bytes(),
                id as int,
            ),
            None => ret == -1 && final(fs)@ == old(fs)@,
        },
{
    if root.unlink(fs, name) {
        0
    } else {
        -1
    }
}

} // verus!
