//! What a call of each operation comes to, and how calls relate, said of their
//! arguments and results.

use crate::behaviour::{
    law_blocks_just_cover, law_clear_alone, law_create, law_descriptors, law_filter, law_find,
    law_link_alone, law_ls, law_mmap_bits, law_mmap_valid, law_open_access, law_open_by_name,
    law_open_flags, law_position_layout, law_record_fields, law_record_layout, law_remove_name,
    law_unlink_alone, law_wait, law_write,
};
use crate::efs::EasyFileSystem;
use crate::file::{can_open, open_file, open_fits, File, OSInode, OpenFlags, Stat};
use crate::laws::{
    law_child_is_collected_once, law_create_keeps_others, law_create_then_find, law_link,
    law_unlink_last,
};
use crate::layout::{
    blocks_for, entry_inode, entry_name, entry_record, lemma_entry_record, storable, DirEntry,
    DiskInode,
};
use crate::mm::{MapPermission, VirtAddr};
use crate::model::{entries, listing};
use crate::syscall::fs::{
    sys_close, sys_fstat, sys_linkat, sys_open, sys_read, sys_read_done, sys_unlinkat, sys_write,
    sys_write_done,
};
use crate::syscall::process::{
    mmap_applies, munmap_applies, sys_exec, sys_exit, sys_fork, sys_get_time, sys_getpid, sys_mmap,
    sys_munmap, sys_set_priority, sys_spawn, sys_spawn_done, sys_task_info, sys_waitpid, sys_yield,
    MmapPort, TaskInfo, TimeVal,
};
use crate::task::{TaskControlBlock, TaskControlBlockInner, TaskManager};
use crate::vfs::{lemma_position, Inode};
use std::sync::Arc;
use vstd::prelude::*;
use vstd::string::*;
use vstd::utf8::*;

verus! {

// ---------------------------------------------------------------- processes
/// A wait for a number that no child has is answered -1, and a wait is answered -2
/// exactly when some child has the number and none of those has ended. Otherwise the
/// first of those that has ended is collected: its number and exit code are returned
/// and it leaves the children. Nothing else of the task changes.
pub proof fn call_waitpid(inner: &mut TaskControlBlockInner, pid: isize, ret: (isize, Option<i32>))
    requires
        call_ensures(sys_waitpid, (inner, pid), ret),
    ensures
        ({
            let children = old(inner).children@;
            &&& ret == (-1isize, None::<i32>) <==> forall|j: int|
                0 <= j < children.len() ==> pid != -1 && pid as usize != (
                #[trigger] children[j]).pid
            &&& ret == (-2isize, None::<i32>) <==> {
                &&& exists|j: int|
                    0 <= j < children.len() && (pid == -1 || pid as usize == (
                    #[trigger] children[j]).pid)
                &&& forall|j: int|
                    0 <= j < children.len() && (pid == -1 || pid as usize == (
                    #[trigger] children[j]).pid) ==> !(children[j].inner.task_status is Zombie)
            }
            &&& ret.1 is Some <==> exists|j: int|
                0 <= j < children.len() && (pid == -1 || pid as usize == (
                #[trigger] children[j]).pid) && children[j].inner.task_status is Zombie
            &&& ret.1 matches Some(exit_code) ==> exists|k: int|
                {
                    &&& 0 <= k < children.len()
                    &&& (#[trigger] children[k]).inner.task_status is Zombie
                    &&& pid == -1 || pid as usize == children[k].pid
                    &&& forall|j: int|
                        0 <= j < k && (pid == -1 || pid as usize == (#[trigger] children[j]).pid)
                            ==> !(children[j].inner.task_status is Zombie)
                    &&& ret.0 == children[k].pid as isize
                    &&& exit_code == children[k].inner.exit_code
                    &&& final(inner).children@ == children.remove(k)
                }
            &&& ret.1 is None ==> *final(inner) == *old(inner)
            &&& *final(inner) == (TaskControlBlockInner {
                children: final(inner).children,
                ..*old(inner)
            })
        }),
{
    law_wait(old(inner).children@, pid);
}

/// Where the children have distinct numbers, a second wait for a number whose child was
/// collected finds none.
pub proof fn call_waitpid_twice(
    inner: &mut TaskControlBlockInner,
    again: &mut TaskControlBlockInner,
    pid: isize,
    ret: (isize, Option<i32>),
    second: (isize, Option<i32>),
)
    requires
        pid != -1,
        forall|i: int, j: int|
            0 <= i < j < old(inner).children@.len() ==> (#[trigger] old(inner).children@[i]).pid
                != (#[trigger] old(inner).children@[j]).pid,
        call_ensures(sys_waitpid, (inner, pid), ret),
        *old(again) == *final(inner),
        call_ensures(sys_waitpid, (again, pid), second),
        ret.1 is Some,
    ensures
        second == (-1isize, None::<i32>),
{
    law_wait(old(inner).children@, pid);
    law_child_is_collected_once(old(inner).children@, pid);
}

/// The number of a task is returned as it is.
pub proof fn call_getpid(task: TaskControlBlock, ret: isize)
    requires
        call_ensures(sys_getpid, (&task,), ret),
    ensures
        task.pid <= isize::MAX ==> ret == task.pid,
{
}

/// A fork returns the number of the new task and puts that task behind those that are
/// ready, with 0 in the register that carries a result and everything else as it came.
pub proof fn call_fork(manager: &mut TaskManager, new_task: TaskControlBlock, ret: isize)
    requires
        call_ensures(sys_fork, (manager, new_task), ret),
    ensures
        ({
            let before = old(manager).ready_queue@;
            let after = final(manager).ready_queue@;
            let child = after[before.len() as int];
            &&& new_task.pid <= isize::MAX ==> ret == new_task.pid
            &&& after.len() == before.len() + 1
            &&& forall|i: int| 0 <= i < before.len() ==> #[trigger] after[i] == before[i]
            &&& child.pid == new_task.pid
            &&& child.inner.trap_cx.x@[10] == 0
            &&& forall|r: int|
                0 <= r < 32 && r != 10 ==> #[trigger] child.inner.trap_cx.x@[r]
                    == new_task.inner.trap_cx.x@[r]
            &&& child.inner.task_status == new_task.inner.task_status
            &&& child.inner.exit_code == new_task.inner.exit_code
            &&& child.inner.children == new_task.inner.children
            &&& child.inner.fd_table == new_task.inner.fd_table
            &&& child.inner.priority == new_task.inner.priority
            &&& child.inner.syscall_times == new_task.inner.syscall_times
            &&& child.inner.start_time == new_task.inner.start_time
        }),
{
}

/// Exiting hands the exit code on.
pub proof fn call_exit<X: FnOnce(i32)>(exit_code: i32, exit_current: X, ret: ())
    requires
        call_ensures(sys_exit::<X>, (exit_code, exit_current), ret),
    ensures
        call_ensures(exit_current, (exit_code,), ()),
{
}

/// Yielding gives the processor away and returns 0.
pub proof fn call_yield<S: FnOnce()>(suspend_current: S, ret: isize)
    requires
        call_ensures(sys_yield::<S>, (suspend_current,), ret),
    ensures
        call_ensures(suspend_current, (), ()),
        ret == 0,
{
}

/// The time is split into whole seconds and the microseconds of the last one.
pub proof fn call_get_time(us: usize, ret: (isize, TimeVal))
    requires
        call_ensures(sys_get_time, (us,), ret),
    ensures
        ret.0 == 0,
        ret.1.sec * 1_000_000 + ret.1.usec == us,
        ret.1.usec < 1_000_000,
{
}

/// A task learns that it runs, its counters and the time since its start.
pub proof fn call_task_info(inner: TaskControlBlockInner, now: usize, ret: (isize, TaskInfo))
    requires
        inner.start_time <= now,
        call_ensures(sys_task_info, (&inner, now), ret),
    ensures
        ret.0 == 0,
        ret.1.status is Running,
        ret.1.syscall_times == inner.syscall_times,
        inner.start_time + ret.1.time == now,
{
}

/// A priority from 2 on is set and returned, a lower one is refused, and nothing else
/// of the task changes.
pub proof fn call_set_priority(inner: &mut TaskControlBlockInner, prio: isize, ret: isize)
    requires
        call_ensures(sys_set_priority, (inner, prio), ret),
    ensures
        prio >= 2 ==> ret == prio && final(inner).priority == prio,
        prio < 2 ==> ret == -1 && final(inner).priority == old(inner).priority,
        *final(inner) == (TaskControlBlockInner { priority: final(inner).priority, ..*old(inner) }),
{
}

/// Loading a program gives all bytes of the file that the path leads to, is refused
/// where it leads nowhere, and changes no file.
pub proof fn call_exec(
    fs: &mut EasyFileSystem,
    root: Inode,
    path: &str,
    ret: (isize, Option<Vec<u8>>),
)
    requires
        call_ensures(sys_exec, (fs, &root, path), ret),
    ensures
        ({
            let found = old(fs)@.find(old(fs)@.slot(root@), path.spec_bytes());
            &&& final(fs)@ == old(fs)@
            &&& found is None ==> ret.0 == -1 && ret.1 is None
            &&& found matches Some(id) ==> ret.0 == 0 && (ret.1 matches Some(all_data)
                && all_data@ == old(fs)@.files[id as int].content)
        }),
{
}

/// A spawn starts the very bytes that an exec of the path loads, and is refused where
/// that is.
pub proof fn call_spawn_like_exec(
    fs: &mut EasyFileSystem,
    again: &mut EasyFileSystem,
    root: Inode,
    path: &str,
    ret: (isize, Option<Vec<u8>>),
    next: Result<Vec<u8>, isize>,
)
    requires
        call_ensures(sys_exec, (fs, &root, path), ret),
        *old(again) == *final(fs),
        call_ensures(sys_spawn, (again, &root, path), next),
    ensures
        final(again)@ == old(fs)@,
        ret.1 matches Some(all_data) ==> (next matches Ok(elf_data) && elf_data@ == all_data@),
        ret.1 is None ==> next == Err::<Vec<u8>, isize>(-1isize),
{
}

/// A spawn returns the number of the new task, or -1 where there is none.
pub proof fn call_spawn_done(pid: Option<usize>, ret: isize)
    requires
        call_ensures(sys_spawn_done, (pid,), ret),
    ensures
        pid is None ==> ret == -1,
        pid matches Some(p) ==> p <= isize::MAX ==> ret == p,
{
}

// ------------------------------------------------------------------- memory
/// A mapping is refused exactly when the port has none of the three lowest bits or
/// another one, when `start` is no multiple of the page size, or when `mmap` says no.
/// `mmap` gets the range and, one place higher, the bits of the port together with
/// access from user mode; there is nothing to map in no bytes.
pub proof fn call_mmap<M: FnOnce(VirtAddr, VirtAddr, MapPermission) -> bool>(
    start: usize,
    len: usize,
    port: usize,
    mmap: M,
    ret: isize,
)
    requires
        start + len <= usize::MAX,
        call_ensures(sys_mmap::<M>, (start, len, port, mmap), ret),
    ensures
        ({
            let valid = port & 7 != 0 && port & !7usize == 0 && start % 4096 == 0;
            let asked = (
                VirtAddr(start),
                VirtAddr((start + len) as usize),
                MapPermission { bits: 0x10u8 | ((port as u8) << 1) },
            );
            &&& ret == 0 || ret == -1
            &&& !valid ==> ret == -1
            &&& valid && len == 0 ==> ret == 0
            &&& valid && len != 0 && ret == 0 ==> call_ensures(mmap, asked, true)
            &&& valid && len != 0 && ret == -1 ==> call_ensures(mmap, asked, false)
        }),
{
    law_mmap_valid(start, port);
    if port <= 7 {
        law_mmap_bits(port);
    }
}

/// Unmapping is refused exactly when `start` is no multiple of the page size or
/// `munmap`, which gets the range, says no; there is nothing to unmap in no bytes.
pub proof fn call_munmap<M: FnOnce(VirtAddr, VirtAddr) -> bool>(
    start: usize,
    len: usize,
    munmap: M,
    ret: isize,
)
    requires
        start + len <= usize::MAX,
        call_ensures(sys_munmap::<M>, (start, len, munmap), ret),
    ensures
        ({
            let asked = (VirtAddr(start), VirtAddr((start + len) as usize));
            &&& ret == 0 || ret == -1
            &&& start % 4096 != 0 ==> ret == -1
            &&& start % 4096 == 0 && len == 0 ==> ret == 0
            &&& start % 4096 == 0 && len != 0 && ret == 0 ==> call_ensures(munmap, asked, true)
            &&& start % 4096 == 0 && len != 0 && ret == -1 ==> call_ensures(munmap, asked, false)
        }),
{
}

/// There is something to map exactly when the arguments are valid and the range has
/// bytes, and to unmap when it starts at a multiple of the page size and has bytes.
pub proof fn call_mmap_tests(start: usize, len: usize, port: usize, map: bool, unmap: bool)
    requires
        call_ensures(mmap_applies, (start, len, port), map),
        call_ensures(munmap_applies, (start, len), unmap),
    ensures
        map <==> port & 7 != 0 && port & !7usize == 0 && start % 4096 == 0 && len != 0,
        unmap <==> start % 4096 == 0 && len != 0,
{
    law_mmap_valid(start, port);
}

// -------------------------------------------------------------- descriptors
/// A transfer goes to the file that the descriptor leads to, the same for reading and
/// writing, is refused where it leads nowhere, and returns the count of the file.
pub proof fn call_transfer(
    inner: TaskControlBlockInner,
    fd: usize,
    to_write: Result<File, isize>,
    to_read: Result<File, isize>,
    count: usize,
    written: isize,
    read: isize,
)
    requires
        call_ensures(sys_write, (&inner, fd), to_write),
        call_ensures(sys_read, (&inner, fd), to_read),
        call_ensures(sys_write_done, (count,), written),
        call_ensures(sys_read_done, (count,), read),
    ensures
        to_read == to_write,
        fd >= inner.fd_table@.len() ==> to_write == Err::<File, isize>(-1isize),
        fd < inner.fd_table@.len() ==> (inner.fd_table@[fd as int] matches Some(file) ==> to_write
            == Ok::<File, isize>(file)),
        fd < inner.fd_table@.len() && inner.fd_table@[fd as int] is None ==> to_write == Err::<
            File,
            isize,
        >(-1isize),
        count <= isize::MAX ==> written == count && read == count,
{
}

/// Closing frees an open descriptor, is refused for any other, and keeps every other
/// descriptor and the rest of the task.
pub proof fn call_close(inner: &mut TaskControlBlockInner, fd: usize, ret: isize)
    requires
        call_ensures(sys_close, (inner, fd), ret),
    ensures
        ({
            let before = old(inner).fd_table@;
            let after = final(inner).fd_table@;
            &&& ret == 0 || ret == -1
            &&& ret == 0 <==> fd < before.len() && before[fd as int] is Some
            &&& after.len() == before.len()
            &&& fd < after.len() ==> after[fd as int] is None
            &&& forall|x: int| 0 <= x < before.len() && x != fd ==> #[trigger] after[x] == before[x]
            &&& *final(inner) == (TaskControlBlockInner {
                fd_table: final(inner).fd_table,
                ..*old(inner)
            })
        }),
{
}

/// Opening fails exactly when the directory does not find the name and creating is not
/// asked for; then nothing changes. Otherwise the lowest free descriptor leads to the
/// inode found, or to the new one, with the access that the flags ask for; every other
/// descriptor and the rest of the task stay.
pub proof fn call_open(
    inner: &mut TaskControlBlockInner,
    fs: &mut EasyFileSystem,
    root: Inode,
    path: &str,
    flags: u32,
    ret: isize,
)
    requires
        old(inner).fd_table@.len() <= isize::MAX,
        call_ensures(sys_open, (inner, fs, &root, path, flags), ret),
    ensures
        ({
            let found = old(fs)@.find(old(fs)@.slot(root@), path.spec_bytes());
            let before = old(inner).fd_table@;
            let after = final(inner).fd_table@;
            &&& ret == -1 <==> found is None && flags & 0x200 == 0
            &&& ret == -1 ==> *final(inner) == *old(inner) && final(fs)@ == old(fs)@
            &&& ret != -1 ==> {
                &&& 0 <= ret <= before.len()
                &&& forall|x: int| 0 <= x < ret ==> (#[trigger] before[x]) is Some
                &&& ret < before.len() ==> before[ret as int] is None
                &&& after.len() == if ret < before.len() {
                    before.len()
                } else {
                    before.len() + 1
                }
                &&& forall|x: int|
                    0 <= x < before.len() && x != ret ==> #[trigger] after[x] == before[x]
                &&& after[ret as int] matches Some(File::Inode(f)) && {
                    &&& f.readable == (flags % 2 == 0)
                    &&& f.writable == (flags != 0)
                    &&& f.inode@ == old(fs)@.position(f.ino as int)
                    &&& found matches Some(id) ==> f.ino == id
                    &&& found is None ==> f.ino == old(fs)@.next_inode() as u32
                }
                &&& *final(inner) == (TaskControlBlockInner {
                    fd_table: final(inner).fd_table,
                    ..*old(inner)
                })
            }
            &&& flags & 0x200 == 0 && flags & 0x400 == 0 ==> final(fs)@ == old(fs)@
            &&& found matches Some(id) ==> (flags & 0x200 != 0 || flags & 0x400 != 0)
                ==> final(fs)@ == old(fs)@.clear(id as int)
            &&& found is None && flags & 0x200 != 0 ==> final(fs)@ == old(fs)@.create(
                old(fs)@.slot(root@),
                path.spec_bytes(),
            )
        }),
{
    let d = old(fs)@.slot(root@);
    law_open_by_name(old(fs)@, d, path.spec_bytes(), flags);
    law_open_access(flags);
    let fd = old(inner).next_fd();
    law_descriptors(*old(inner), final(inner).fd_table@[fd]);
    assert forall|x: int| 0 <= x < fd implies (#[trigger] old(inner).fd_table@[x]) is Some by {
        assert(old(inner).is_open(x));
    }
}

/// Opening a path for the kernel itself fails exactly when the directory does not find it
/// and creating is not asked for, and else leads to the inode found or made. The test for
/// it foretells whether there is room.
pub proof fn call_open_file(
    fs: &mut EasyFileSystem,
    root: Inode,
    name: &str,
    flags: OpenFlags,
    fits: bool,
    opened: Option<OSInode>,
)
    requires
        call_ensures(can_open, (&*old(fs), &root, name, flags), fits),
        call_ensures(open_file, (fs, &root, name, flags), opened),
    ensures
        ({
            let d = old(fs)@.slot(root@);
            let found = old(fs)@.find(d, name.spec_bytes());
            &&& fits <==> open_fits(old(fs)@, d, name.spec_bytes(), flags@)
            &&& opened is None <==> found is None && flags@ & 0x200 == 0
            &&& opened matches Some(f) ==> {
                &&& f.readable == (flags@ % 2 == 0)
                &&& f.writable == (flags@ != 0)
                &&& f.inode@ == old(fs)@.position(f.ino as int)
                &&& found matches Some(id) ==> f.ino == id
                &&& found is None ==> f.ino == old(fs)@.next_inode() as u32
            }
            &&& flags@ & 0x200 == 0 && flags@ & 0x400 == 0 ==> final(fs)@ == old(fs)@
        }),
{
    law_open_by_name(old(fs)@, old(fs)@.slot(root@), name.spec_bytes(), flags@);
    law_open_access(flags@);
}

/// Closing the descriptor that an open gave out and opening a file that is found gives
/// the same descriptor out again.
pub proof fn call_reopen(
    inner: &mut TaskControlBlockInner,
    closed: &mut TaskControlBlockInner,
    again: &mut TaskControlBlockInner,
    fs: &mut EasyFileSystem,
    later: &mut EasyFileSystem,
    root: Inode,
    path: &str,
    flags: u32,
    ret: isize,
    done: isize,
    second: isize,
)
    requires
        old(inner).fd_table@.len() < isize::MAX,
        call_ensures(sys_open, (inner, fs, &root, path, flags), ret),
        ret != -1,
        *old(closed) == *final(inner),
        call_ensures(sys_close, (closed, ret as usize), done),
        *old(again) == *final(closed),
        call_ensures(sys_open, (again, later, &root, path, flags), second),
        second != -1,
    ensures
        done == 0,
        second == ret,
{
    call_open(inner, fs, root, path, flags, ret);
    call_close(closed, ret as usize, done);
    call_open(again, later, root, path, flags, second);
    let before = old(inner).fd_table@;
    let table = old(again).fd_table@;
    if second > ret {
        assert(table[ret as int] is Some);
    }
    if second < ret {
        assert(before[second as int] is Some);
        assert(table[second as int] == before[second as int]);
    }
}

/// A status query answers for descriptors above the standard streams that are open: the
/// inode number, whether the inode is a regular file or a directory, and its link count.
pub proof fn call_fstat(
    inner: TaskControlBlockInner,
    fs: EasyFileSystem,
    fd: usize,
    f: OSInode,
    ret: (isize, Option<Stat>),
)
    requires
        call_ensures(sys_fstat, (&inner, &fs, fd), ret),
    ensures
        fd < 3 || fd >= inner.fd_table@.len() || inner.fd_table@[fd as int] is None ==> ret.0 == -1
            && ret.1 is None,
        fd >= 3 && fd < inner.fd_table@.len() && inner.fd_table@[fd as int] == Some(File::Inode(f))
            ==> {
            &&& ret.0 == 0
            &&& ret.1 matches Some(stat) && stat.ino == f.ino && stat.nlink == fs@.at(
                f.inode@,
            ).nlink && (stat.mode is FILE <==> fs@.at(f.inode@).kind is File)
        },
{
}

// ------------------------------------------------------------- inode calls
/// A read takes what the file has from `offset` on, as far as the buffer reaches, to
/// the front of the buffer, and leaves the rest of the buffer.
pub proof fn call_read_at(
    node: Inode,
    fs: EasyFileSystem,
    offset: usize,
    buf: &mut [u8],
    n: usize,
)
    requires
        call_ensures(Inode::read_at, (&node, &fs, offset, buf), n),
    ensures
        ({
            let content = fs@.at(node@).content;
            let room = old(buf)@.len();
            &&& offset >= content.len() ==> n == 0
            &&& offset < content.len() && room <= content.len() - offset ==> n == room
            &&& offset < content.len() && room > content.len() - offset ==> n == content.len()
                - offset
            &&& final(buf)@.len() == room
            &&& forall|j: int| 0 <= j < n ==> #[trigger] final(buf)@[j] == content[offset + j]
            &&& forall|j: int| n <= j < room ==> #[trigger] final(buf)@[j] == old(buf)@[j]
        }),
{
}

/// A read of the place that a write went to gives the data back, and the write says that
/// it took all of it.
pub proof fn call_write_then_read(
    node: Inode,
    fs: &mut EasyFileSystem,
    offset: usize,
    data: &[u8],
    n: usize,
    buf: &mut [u8],
    m: usize,
)
    requires
        old(fs)@.is_position(node@),
        old(fs)@.write_fits(old(fs)@.slot(node@), offset as int, data@.len() as int),
        offset + data@.len() <= u32::MAX,
        call_ensures(Inode::write_at, (&node, fs, offset, data), n),
        call_ensures(Inode::read_at, (&node, &*final(fs), offset, buf), m),
        old(buf)@.len() == data@.len(),
    ensures
        n == data@.len(),
        m == data@.len(),
        final(buf)@ == data@,
{
    law_write(old(fs)@, old(fs)@.slot(node@), offset as int, data@);
    assert(final(buf)@ =~= data@);
}

/// A write changes the bytes that it covers; see `law_write`.
pub proof fn call_write_at(
    node: Inode,
    fs: &mut EasyFileSystem,
    offset: usize,
    data: &[u8],
    n: usize,
)
    requires
        old(fs)@.is_position(node@),
        old(fs)@.write_fits(old(fs)@.slot(node@), offset as int, data@.len() as int),
        call_ensures(Inode::write_at, (&node, fs, offset, data), n),
    ensures
        ({
            let before = old(fs)@.at(node@).content;
            let content = final(fs)@.at(node@).content;
            let end = (offset + data@.len()) % 0x1_0000_0000;
            &&& content.len() == if end < before.len() {
                before.len() as int
            } else {
                end
            }
            &&& forall|i: int|
                0 <= i < content.len() ==> #[trigger] content[i] == (if offset <= i < offset
                    + data@.len() {
                    data@[i - offset]
                } else if i < before.len() {
                    before[i]
                } else {
                    0u8
                })
            &&& offset >= content.len() ==> n == 0
            &&& offset < content.len() && data@.len() <= content.len() - offset ==> n == data@.len()
            &&& offset < content.len() && data@.len() > content.len() - offset ==> n
                == content.len() - offset
            &&& forall|x: int|
                0 <= x < old(fs)@.files.len() && x != old(fs)@.slot(node@)
                    ==> #[trigger] final(fs)@.files[x] == old(fs)@.files[x]
            &&& final(fs)@.inode_used == old(fs)@.inode_used
        }),
{
    law_write(old(fs)@, old(fs)@.slot(node@), offset as int, data@);
}

/// After a clear there is nothing to read, the blocks of the file are free, and every
/// other file stays.
pub proof fn call_clear(
    node: Inode,
    fs: &mut EasyFileSystem,
    offset: usize,
    buf: &mut [u8],
    n: usize,
)
    requires
        old(fs)@.is_position(node@),
        call_ensures(Inode::clear, (&node, fs), ()),
        call_ensures(Inode::read_at, (&node, &*final(fs), offset, buf), n),
    ensures
        n == 0,
        final(buf)@ == old(buf)@,
        final(fs)@.at(node@).content.len() == 0,
        final(fs)@.at(node@).kind == old(fs)@.at(node@).kind,
        final(fs)@.at(node@).nlink == old(fs)@.at(node@).nlink,
        final(fs)@.free_blocks == old(fs)@.free_blocks + blocks_for(
            old(fs)@.at(node@).content.len() as int,
        ),
        forall|x: int|
            0 <= x < old(fs)@.files.len() && x != old(fs)@.slot(node@)
                    ==> #[trigger] final(fs)@.files[x] == old(fs)@.files[x],
{
    law_clear_alone(old(fs)@, old(fs)@.slot(node@));
    assert(final(buf)@ =~= old(buf)@);
}

/// A name is found exactly when a record of the directory carries it, and gives the
/// number of the first such record with a handle on that inode.
pub proof fn call_find(
    node: Inode,
    fs: EasyFileSystem,
    name: &str,
    found: Option<(u64, Arc<Inode>)>,
)
    requires
        call_ensures(Inode::find, (&node, &fs, name), found),
    ensures
        ({
            let recs = entries(fs@.at(node@).content);
            &&& found is None <==> forall|j: int|
                0 <= j < recs.len() ==> entry_name(#[trigger] recs[j]) != name.spec_bytes()
            &&& found matches Some(f) ==> f.1@ == fs@.position(f.0 as int) && exists|k: int|
                {
                    &&& 0 <= k < recs.len()
                    &&& entry_name(#[trigger] recs[k]) == name.spec_bytes()
                    &&& entry_inode(recs[k]) == f.0
                    &&& forall|j: int|
                        0 <= j < k ==> entry_name(#[trigger] recs[j]) != name.spec_bytes()
                }
        }),
{
    law_find(fs@, fs@.slot(node@), name.spec_bytes());
}

/// Creating is refused exactly when the name is found, and then changes nothing. A file
/// that was created is found under its name, with the number and the handle that the
/// creation gave; it is a regular file with one link and no bytes, its inode was free,
/// and every other name leads where it led.
pub proof fn call_create_then_find(
    node: Inode,
    fs: &mut EasyFileSystem,
    name: &str,
    made: Option<(u64, Arc<Inode>)>,
    found: Option<(u64, Arc<Inode>)>,
    other: Seq<u8>,
)
    requires
        old(fs).wf(),
        old(fs)@.is_position(node@),
        old(fs)@.inode_used[old(fs)@.slot(node@)],
        old(fs)@.find(old(fs)@.slot(node@), name.spec_bytes()) is None ==> old(fs)@.create_fits(
            old(fs)@.slot(node@),
            name.spec_bytes(),
        ),
        storable(name.spec_bytes()),
        call_ensures(Inode::create, (&node, fs, name), made),
        call_ensures(Inode::find, (&node, &*final(fs), name), found),
        other.len() > 0,
        other != name.spec_bytes(),
    ensures
        ({
            let d = old(fs)@.slot(node@);
            &&& made is None <==> old(fs)@.find(d, name.spec_bytes()) is Some
            &&& made is None ==> final(fs)@ == old(fs)@
            &&& made matches Some(m) ==> {
                &&& found matches Some(f) && f.0 == m.0 && f.1@ == m.1@
                &&& final(fs)@.is_position(m.1@)
                &&& final(fs)@.at(m.1@).kind is File
                &&& final(fs)@.at(m.1@).nlink == 1
                &&& final(fs)@.at(m.1@).content.len() == 0
                &&& !old(fs)@.inode_used[m.0 as int]
                &&& final(fs)@.inode_used[m.0 as int]
                &&& forall|x: int| 0 <= x < m.0 ==> #[trigger] old(fs)@.inode_used[x]
            }
            &&& final(fs)@.find(d, other) == old(fs)@.find(d, other)
        }),
{
    old(fs).lemma_wf_view();
    let d = old(fs)@.slot(node@);
    if old(fs)@.find(d, name.spec_bytes()) is None {
        law_create(old(fs)@, d, name.spec_bytes());
        law_create_then_find(old(fs)@, d, name.spec_bytes());
        law_create_keeps_others(old(fs)@, d, name.spec_bytes(), other);
        lemma_position(final(fs)@, old(fs)@.next_inode());
    }
}

/// A hard link is made exactly in a directory that finds the old name. It hands out the
/// inode found and raises its link count by one; the new name leads there unless it led
/// somewhere before, and every other name leads where it led. The system call returns 0
/// exactly then, and else -1.
pub proof fn call_link(
    node: Inode,
    fs: &mut EasyFileSystem,
    again: &mut EasyFileSystem,
    name: &str,
    to: &str,
    linked: Option<Arc<Inode>>,
    ret: isize,
    other: Seq<u8>,
)
    requires
        old(fs).wf(),
        old(fs)@.is_position(node@),
        old(fs)@.at(node@).kind is Directory ==> (old(fs)@.find(
            old(fs)@.slot(node@),
            to.spec_bytes(),
        ) matches Some(id) ==> old(fs)@.link_fits(
            old(fs)@.slot(node@),
            name.spec_bytes(),
            id as int,
        )),
        storable(name.spec_bytes()),
        call_ensures(Inode::hard_link, (&node, fs, name, to), linked),
        *old(again) == *old(fs),
        call_ensures(sys_linkat, (again, &node, to, name), ret),
    ensures
        ({
            let d = old(fs)@.slot(node@);
            let found = old(fs)@.find(d, to.spec_bytes());
            &&& linked is Some <==> old(fs)@.at(node@).kind is Directory && found is Some
            &&& linked is None ==> final(fs)@ == old(fs)@
            &&& linked matches Some(l) ==> (found matches Some(id) && {
                &&& l@ == old(fs)@.position(id as int)
                &&& final(fs)@.files[id as int].nlink == old(fs)@.files[id as int].nlink + 1
                &&& final(fs)@.find(d, other) == (match old(fs)@.find(d, other) {
                    Some(before) => Some(before),
                    None => if other == name.spec_bytes() {
                        Some(id)
                    } else {
                        None
                    },
                })
                &&& entries(final(fs)@.files[d].content) == entries(old(fs)@.files[d].content).push(
                    entry_record(name.spec_bytes(), id),
                )
            })
            &&& final(again)@ == final(fs)@
            &&& ret == if linked is Some {
                0int
            } else {
                -1
            }
        }),
{
    old(fs).lemma_wf_view();
    let d = old(fs)@.slot(node@);
    if old(fs)@.at(node@).kind is Directory {
        if let Some(id) = old(fs)@.find(d, to.spec_bytes()) {
            law_link(old(fs)@, d, name.spec_bytes(), id, other);
            law_link_alone(old(fs)@, d, name.spec_bytes(), id as int);
        }
    }
}

/// Unlinking is refused exactly when the name is not found, and then changes nothing. It
/// lowers the link count of the inode by one. With the last link the name is gone, the
/// inode free and its blocks too; while a link is left every name leads where it led.
/// The system call returns 0 exactly where something was unlinked, and else -1.
pub proof fn call_unlink(
    node: Inode,
    fs: &mut EasyFileSystem,
    again: &mut EasyFileSystem,
    name: &str,
    done: bool,
    ret: isize,
    other: Seq<u8>,
)
    requires
        old(fs).wf(),
        old(fs)@.is_position(node@),
        old(fs)@.find(old(fs)@.slot(node@), name.spec_bytes()) matches Some(id) ==> old(
            fs,
        )@.unlink_fits(id as int) && id != old(fs)@.slot(node@),
        call_ensures(Inode::unlink, (&node, fs, name), done),
        *old(again) == *old(fs),
        call_ensures(sys_unlinkat, (again, &node, name), ret),
        name.spec_bytes().len() > 0,
        other.len() > 0,
    ensures
        ({
            let d = old(fs)@.slot(node@);
            let found = old(fs)@.find(d, name.spec_bytes());
            &&& done <==> found is Some
            &&& !done ==> final(fs)@ == old(fs)@
            &&& found matches Some(id) ==> {
                let last = old(fs)@.files[id as int].nlink == 1;
                &&& final(fs)@.files[id as int].nlink == old(fs)@.files[id as int].nlink - 1
                &&& last ==> final(fs)@.find(d, name.spec_bytes()) is None
                &&& last ==> !final(fs)@.inode_used[id as int]
                &&& final(fs)@.free_blocks == old(fs)@.free_blocks + if last {
                    blocks_for(old(fs)@.files[id as int].content.len() as int)
                } else {
                    0
                }
                &&& !last || other != name.spec_bytes() ==> final(fs)@.find(d, other) == old(
                    fs,
                )@.find(d, other)
                &&& !last ==> final(fs)@.files[id as int].content == old(
                    fs,
                )@.files[id as int].content
            }
            &&& final(again)@ == final(fs)@
            &&& ret == if done {
                0int
            } else {
                -1
            }
        }),
{
    old(fs).lemma_wf_view();
    let d = old(fs)@.slot(node@);
    if let Some(id) = old(fs)@.find(d, name.spec_bytes()) {
        law_unlink_alone(old(fs)@, d, name.spec_bytes(), id as int);
        if old(fs)@.files[id as int].nlink == 1 {
            law_unlink_last(old(fs)@, d, name.spec_bytes(), id as int, other);
            law_unlink_last(old(fs)@, d, name.spec_bytes(), id as int, name.spec_bytes());
        }
    }
}

/// Removing the records of a name clears them to zeros and keeps every other record, the
/// length of the directory and every other file.
pub proof fn call_remove_dirent(node: Inode, fs: &mut EasyFileSystem, name: &str)
    requires
        old(fs)@.is_position(node@),
        call_ensures(Inode::remove_dirent, (&node, fs, name), ()),
    ensures
        ({
            let recs = entries(old(fs)@.at(node@).content);
            let left = final(fs)@.at(node@).content;
            &&& left.len() == old(fs)@.at(node@).content.len()
            &&& forall|i: int|
                0 <= i < recs.len() && entry_name(recs[i]) != name.spec_bytes() ==> #[trigger]
                    entries(left)[i] == recs[i]
            &&& forall|i: int, j: int|
                0 <= i < recs.len() && entry_name(recs[i]) == name.spec_bytes() && 0 <= j < 32
                    ==> #[trigger] entries(left)[i][j] == 0
            &&& forall|x: int|
                0 <= x < old(fs)@.files.len() && x != old(fs)@.slot(node@)
                    ==> #[trigger] final(fs)@.files[x] == old(fs)@.files[x]
            &&& final(fs)@.free_blocks == old(fs)@.free_blocks
        }),
{
    law_remove_name(old(fs)@.at(node@).content, name.spec_bytes());
}

/// A filter keeps exactly the records that it says yes to, once and in order: each kept
/// record is one that it said yes to, and it said no to every other. The result gives the
/// place of each kept record.
pub proof fn call_dirents_filter<F: Fn(&DirEntry) -> bool>(
    node: Inode,
    fs: EasyFileSystem,
    f: F,
    kept: Vec<DirEntry>,
) -> (places: Seq<int>)
    requires
        call_ensures(Inode::dirents_filter::<F>, (&node, &fs, f), kept),
    ensures
        ({
            let recs = entries(fs@.at(node@).content);
            &&& places.len() == kept@.len()
            &&& forall|j: int|
                0 <= j < places.len() ==> 0 <= #[trigger] places[j] < recs.len() && kept@[j]@
                    == recs[places[j]] && call_ensures(f, (&kept@[j],), true)
            &&& forall|i: int, j: int|
                0 <= i < j < places.len() ==> #[trigger] places[i] < #[trigger] places[j]
            &&& forall|i: int|
                0 <= i < recs.len() && !#[trigger] places.contains(i) ==> exists|rec: DirEntry|
                    rec@ == recs[i] && #[trigger] call_ensures(f, (&rec,), false)
        }),
{
    let recs = entries(fs@.at(node@).content);
    let (all, marks) = choose|all: Seq<DirEntry>, marks: Seq<bool>|
        {
            &&& all.len() == marks.len() == recs.len()
            &&& forall|i: int|
                0 <= i < all.len() ==> (#[trigger] all[i])@ == recs[i] && call_ensures(
                    f,
                    (&all[i],),
                    marks[i],
                )
            &&& kept@ == #[trigger] crate::model::select(all, marks)
        };
    let places = law_filter(all, marks);
    assert forall|j: int| 0 <= j < places.len() implies 0 <= #[trigger] places[j] < recs.len()
        && kept@[j]@ == recs[places[j]] && call_ensures(f, (&kept@[j],), true) by {
        assert(kept@[j] == all[places[j]]);
    }
    assert forall|i: int|
        0 <= i < recs.len() && !#[trigger] places.contains(i) implies exists|rec: DirEntry|
        rec@ == recs[i] && #[trigger] call_ensures(f, (&rec,), false) by {
        assert(!marks[i]);
        assert(all[i]@ == recs[i] && call_ensures(f, (&all[i],), false));
    }
    places
}

/// A listing holds the name of every record that does not start with a zero byte, once
/// and in order, and no other. The result gives the place of each record.
pub proof fn call_ls(node: Inode, fs: EasyFileSystem, names: Vec<String>) -> (places: Seq<int>)
    requires
        call_ensures(Inode::ls, (&node, &fs), names),
    ensures
        ({
            let recs = entries(fs@.at(node@).content);
            &&& places.len() == names@.len()
            &&& forall|j: int|
                0 <= j < names@.len() ==> 0 <= #[trigger] places[j] < recs.len()
                    && recs[places[j]][0] != 0 && encode_utf8(names@[j]@) == entry_name(
                    recs[places[j]],
                )
            &&& forall|i: int, j: int|
                0 <= i < j < names@.len() ==> #[trigger] places[i] < #[trigger] places[j]
            &&& forall|i: int|
                0 <= i < recs.len() && (#[trigger] recs[i])[0] != 0 ==> places.contains(i)
        }),
{
    let places = law_ls(fs@.at(node@).content);
    assert forall|j: int| 0 <= j < names@.len() implies 0 <= #[trigger] places[j] < entries(
        fs@.at(node@).content,
    ).len() && entries(fs@.at(node@).content)[places[j]][0] != 0 && encode_utf8(names@[j]@)
        == entry_name(entries(fs@.at(node@).content)[places[j]]) by {
        assert(encode_utf8(names@[j]@) == listing(fs@.at(node@).content)[j]);
    }
    places
}

/// A handle says of its inode what the inode is and how many links it has, and whether
/// there is one at all.
pub proof fn call_inode_queries(
    node: Inode,
    fs: EasyFileSystem,
    file: bool,
    links: u32,
    valid: bool,
    free: usize,
)
    requires
        call_ensures(Inode::is_file, (&node, &fs), file),
        call_ensures(Inode::nlink, (&node, &fs), links),
        call_ensures(Inode::is_valid, (&node, &fs), valid),
        call_ensures(EasyFileSystem::free_blocks, (&fs,), free),
    ensures
        file <==> fs@.at(node@).kind is File,
        links == fs@.at(node@).nlink,
        valid <==> fs@.is_position(node@),
        free == fs@.free_blocks,
{
}

/// A handle made from the position of an inode leads to that inode.
pub proof fn call_position(fs: EasyFileSystem, inode_id: u32, pos: (u32, usize), node: Inode)
    requires
        inode_id < fs@.files.len(),
        call_ensures(EasyFileSystem::get_disk_inode_pos, (&fs, inode_id), pos),
        call_ensures(Inode::new, (pos.0, pos.1), node),
    ensures
        fs@.is_position(node@),
        fs@.slot(node@) == inode_id,
        0 <= pos.1 < 512,
        512 * (pos.0 - fs@.inode_start) + pos.1 == 128 * inode_id,
{
    lemma_position(fs@, inode_id as int);
    law_position_layout(fs@, inode_id as int);
}

/// A new file system has an empty root directory with one link at its first inode, every
/// other inode and every block free.
pub proof fn call_format(start: u32, inodes: u32, data_blocks: u32, fs: EasyFileSystem)
    requires
        0 < inodes,
        call_ensures(EasyFileSystem::create, (start, inodes, data_blocks), fs),
    ensures
        fs.wf(),
        fs@.is_position((start as int, 0)),
        fs@.at((start as int, 0)).kind is Directory,
        fs@.at((start as int, 0)).nlink == 1,
        fs@.at((start as int, 0)).content.len() == 0,
        fs@.files.len() == inodes,
        forall|s: int| 0 <= s < inodes ==> (#[trigger] fs@.inode_used[s] <==> s == 0),
        fs@.free_blocks == data_blocks,
{
}

/// What an operation will meet is foretold by the test for it.
pub proof fn call_tests(
    node: Inode,
    fs: EasyFileSystem,
    name: &str,
    to: &str,
    offset: usize,
    len: usize,
    create: bool,
    link: bool,
    unlink: bool,
    write: bool,
    list: bool,
)
    requires
        call_ensures(Inode::can_create, (&node, &fs, name), create),
        call_ensures(Inode::can_link, (&node, &fs, name, to), link),
        call_ensures(Inode::can_unlink, (&node, &fs, name), unlink),
        call_ensures(Inode::can_write, (&node, &fs, offset, len), write),
        call_ensures(Inode::can_list, (&node, &fs), list),
        fs@.at(node@).kind is Directory,
    ensures
        ({
            let d = fs@.slot(node@);
            &&& create <==> fs@.find(d, name.spec_bytes()) is Some || fs@.create_fits(
                d,
                name.spec_bytes(),
            )
            &&& link <==> (fs@.find(d, to.spec_bytes()) matches Some(id) ==> fs@.link_fits(
                d,
                name.spec_bytes(),
                id as int,
            ))
            &&& unlink <==> (fs@.find(d, name.spec_bytes()) matches Some(id) ==> fs@.unlink_fits(
                id as int,
            ))
            &&& write <==> offset + len <= usize::MAX && fs@.write_fits(
                d,
                offset as int,
                len as int,
            )
            &&& list <==> forall|i: int|
                0 <= i < listing(fs@.at(node@).content).len() ==> valid_utf8(
                    #[trigger] listing(fs@.at(node@).content)[i],
                )
        }),
{
}

// ---------------------------------------------------------- records and flags
/// A record gives back the number and, where the name is storable, the name that it was
/// made with, and is cleared exactly where that name is empty.
pub proof fn call_record(
    name: &str,
    inode_number: u32,
    rec: DirEntry,
    number: u32,
    named: bool,
    cleared: bool,
    blank: DirEntry,
    gone: bool,
)
    requires
        storable(name.spec_bytes()),
        call_ensures(DirEntry::new, (name, inode_number), rec),
        call_ensures(DirEntry::inode_number, (&rec,), number),
        call_ensures(DirEntry::is_named, (&rec, name), named),
        call_ensures(DirEntry::is_cleared, (&rec,), cleared),
        call_ensures(DirEntry::empty, (), blank),
        call_ensures(DirEntry::is_cleared, (&blank,), gone),
    ensures
        number == inode_number,
        named,
        cleared <==> name.spec_bytes().len() == 0,
        gone,
{
    lemma_entry_record(name.spec_bytes(), inode_number);
    law_record_layout(name.spec_bytes(), inode_number);
}

/// The name of a record is what stands before its first zero byte.
pub proof fn call_record_name(rec: DirEntry, name: &str)
    requires
        rec@.len() == 32,
        call_ensures(DirEntry::name, (&rec,), name),
    ensures
        ({
            let text = name.spec_bytes();
            &&& text.len() <= 28
            &&& forall|i: int| 0 <= i < text.len() ==> #[trigger] text[i] == rec@[i] && rec@[i] != 0
            &&& text.len() < 28 ==> rec@[text.len() as int] == 0
        }),
{
    law_record_fields(rec@);
}

/// A file has just as many blocks as its bytes need.
pub proof fn call_total_blocks(size: u32, n: u32)
    requires
        call_ensures(DiskInode::total_blocks, (size,), n),
    ensures
        512 * (n - 1) < size <= 512 * n,
{
    law_blocks_just_cover(size as int);
}

/// Flags are known when they have no bit but 0, 1, 9 and 10. They allow reading unless
/// bit 0 is set and writing unless none is, and ask for creating by bit 9 and for
/// emptying by bit 10.
pub proof fn call_flags(
    bits: u32,
    flags: Option<OpenFlags>,
    rw: (bool, bool),
    creates: bool,
    truncates: bool,
)
    requires
        call_ensures(OpenFlags::from_bits, (bits,), flags),
        flags matches Some(f) ==> {
            &&& call_ensures(OpenFlags::read_write, (&f,), rw)
            &&& call_ensures(OpenFlags::creates, (&f,), creates)
            &&& call_ensures(OpenFlags::truncates, (&f,), truncates)
        },
    ensures
        flags is Some <==> bits == (bits & 0x1) + (bits & 0x2) + (bits & 0x200) + (bits & 0x400),
        flags is Some ==> {
            &&& rw.0 <==> bits % 2 == 0
            &&& rw.1 <==> bits != 0
            &&& creates <==> (bits / 0x200) % 2 == 1
            &&& truncates <==> (bits / 0x400) % 2 == 1
        },
{
    law_open_flags(bits);
    law_open_access(bits);
}

/// An open file gives all its bytes in order, its number, and what its inode is and has.
pub proof fn call_open_file_queries(
    file: OSInode,
    fs: EasyFileSystem,
    all: Vec<u8>,
    ino: u64,
    regular: bool,
    links: u32,
)
    requires
        call_ensures(OSInode::read_all, (&file, &fs), all),
        call_ensures(OSInode::ino, (&file,), ino),
        call_ensures(OSInode::is_file, (&file, &fs), regular),
        call_ensures(OSInode::nlink, (&file, &fs), links),
    ensures
        all@ == fs@.at(file.inode@).content,
        ino == file.ino,
        regular <==> fs@.at(file.inode@).kind is File,
        links == fs@.at(file.inode@).nlink,
{
}

/// The bytes of a record make the same record again, and its name is text exactly where
/// it is valid UTF-8.
pub proof fn call_record_bytes(rec: DirEntry, raw: &[u8], again: DirEntry, text: bool)
    requires
        call_ensures(DirEntry::as_bytes, (&rec,), raw),
        call_ensures(DirEntry::from_bytes, (raw,), again),
        call_ensures(DirEntry::has_text_name, (&rec,), text),
    ensures
        raw@.len() == 32,
        raw@ == rec@,
        again@ == rec@,
        text <==> valid_utf8(entry_name(rec@)),
{
}

/// An address knows how far it lies behind the start of its page, and a port is known
/// when it has no bit but the three lowest.
pub proof fn call_addresses(addr: VirtAddr, offset: usize, bits: usize, port: Option<MmapPort>)
    requires
        call_ensures(VirtAddr::page_offset, (&addr,), offset),
        call_ensures(MmapPort::from_bits, (bits,), port),
    ensures
        offset == addr.0 % 4096,
        port is Some <==> bits & !7usize == 0,
        port matches Some(p) ==> p@ == bits,
{
    assert(bits & !7usize == 0 <==> bits <= 7) by (bit_vector);
}

/// A task knows its number and whether it has ended; a new queue is empty, and a task
/// joins a queue at its end.
pub proof fn call_tasks(
    task: TaskControlBlock,
    pid: usize,
    ended: bool,
    blank: TaskManager,
    manager: &mut TaskManager,
    joining: TaskControlBlock,
)
    requires
        call_ensures(TaskControlBlock::getpid, (&task,), pid),
        call_ensures(TaskControlBlockInner::is_zombie, (&task.inner,), ended),
        call_ensures(TaskManager::new, (), blank),
        call_ensures(TaskManager::add_task, (manager, joining), ()),
    ensures
        pid == task.pid,
        ended <==> task.inner.task_status is Zombie,
        blank.ready_queue@.len() == 0,
        final(manager).ready_queue@ == old(manager).ready_queue@ + seq![joining],
{
}

// ------------------------------------------------------ what a call may be given
/// These operations take every argument.
pub proof fn may_call_always(
    inner: &mut TaskControlBlockInner,
    manager: &mut TaskManager,
    task: TaskControlBlock,
    signed: isize,
    number: usize,
    bits: u32,
    pid: Option<usize>,
    len: usize,
    port: usize,
)
    ensures
        call_requires(sys_waitpid, (inner, signed)),
        call_requires(sys_set_priority, (inner, signed)),
        call_requires(sys_close, (inner, number)),
        call_requires(sys_write, (&*old(inner), number)),
        call_requires(sys_read, (&*old(inner), number)),
        call_requires(sys_write_done, (number,)),
        call_requires(sys_read_done, (number,)),
        call_requires(sys_getpid, (&task,)),
        call_requires(sys_fork, (manager, task)),
        call_requires(sys_get_time, (number,)),
        call_requires(sys_spawn_done, (pid,)),
        call_requires(mmap_applies, (number, len, port)),
        call_requires(munmap_applies, (number, len)),
        call_requires(OpenFlags::from_bits, (bits,)),
        call_requires(MmapPort::from_bits, (number,)),
        call_requires(DiskInode::total_blocks, (bits,)),
        old(inner).start_time <= number ==> call_requires(sys_task_info, (&*old(inner), number)),
{
}

/// A mapping may be asked for with any arguments where the range does not run over the
/// end of the address space and `mmap` takes every range and permission; likewise an
/// unmapping.
pub proof fn may_call_mmap<
    M: FnOnce(VirtAddr, VirtAddr, MapPermission) -> bool,
    U: FnOnce(VirtAddr, VirtAddr) -> bool,
>(start: usize, len: usize, port: usize, mmap: M, munmap: U)
    requires
        start + len <= usize::MAX,
        forall|s: VirtAddr, e: VirtAddr, p: MapPermission| #[trigger]
            call_requires(mmap, (s, e, p)),
        forall|s: VirtAddr, e: VirtAddr| #[trigger] call_requires(munmap, (s, e)),
    ensures
        call_requires(sys_mmap::<M>, (start, len, port, mmap)),
        call_requires(sys_munmap::<U>, (start, len, munmap)),
{
}

/// A file system can be made wherever its block numbers and its bytes can be counted.
pub proof fn may_call_format(start: u32, inodes: u32, data_blocks: u32)
    requires
        0 < start <= 0x8000_0000,
        0 < inodes,
        start + inodes / 4 + 1 + data_blocks <= 0xffff_ffff,
        data_blocks * 512 <= usize::MAX,
    ensures
        call_requires(EasyFileSystem::create, (start, inodes, data_blocks)),
{
}

/// A handle on an inode may be read, cleared and asked, and tested for a write; one on a
/// directory may be searched, and tested for a new name, a link and an unlink.
pub proof fn may_call_inode(
    node: Inode,
    fs: &mut EasyFileSystem,
    buf: &mut [u8],
    name: &str,
    to: &str,
    offset: usize,
    len: usize,
)
    requires
        old(fs).wf(),
        old(fs)@.is_position(node@),
    ensures
        call_requires(Inode::read_at, (&node, &*old(fs), offset, buf)),
        call_requires(Inode::clear, (&node, fs)),
        call_requires(Inode::remove_dirent, (&node, fs, name)),
        call_requires(Inode::is_file, (&node, &*old(fs))),
        call_requires(Inode::nlink, (&node, &*old(fs))),
        call_requires(Inode::is_valid, (&node, &*old(fs))),
        call_requires(Inode::can_write, (&node, &*old(fs), offset, len)),
        call_requires(Inode::can_link, (&node, &*old(fs), name, to)),
        call_requires(Inode::can_list, (&node, &*old(fs))),
        old(fs)@.at(node@).kind is Directory ==> {
            &&& call_requires(Inode::find, (&node, &*old(fs), name))
            &&& call_requires(Inode::can_create, (&node, &*old(fs), name))
            &&& call_requires(Inode::can_unlink, (&node, &*old(fs), name))
        },
{
}

/// What the tests say yes to may be done.
pub proof fn may_call_tested(
    node: Inode,
    fs: &mut EasyFileSystem,
    name: &str,
    to: &str,
    offset: usize,
    data: &[u8],
    create: bool,
    link: bool,
    unlink: bool,
    write: bool,
    list: bool,
)
    requires
        old(fs).wf(),
        old(fs)@.is_position(node@),
        old(fs)@.at(node@).kind is Directory,
        call_ensures(Inode::can_create, (&node, &*old(fs), name), create),
        call_ensures(Inode::can_link, (&node, &*old(fs), name, to), link),
        call_ensures(Inode::can_unlink, (&node, &*old(fs), name), unlink),
        call_ensures(Inode::can_write, (&node, &*old(fs), offset, data@.len() as usize), write),
        call_ensures(Inode::can_list, (&node, &*old(fs)), list),
        data@.len() <= usize::MAX,
    ensures
        create ==> call_requires(Inode::create, (&node, fs, name)),
        link ==> call_requires(Inode::hard_link, (&node, fs, name, to)),
        link ==> call_requires(sys_linkat, (fs, &node, to, name)),
        unlink ==> call_requires(Inode::unlink, (&node, fs, name)),
        unlink ==> call_requires(sys_unlinkat, (fs, &node, name)),
        write ==> call_requires(Inode::write_at, (&node, fs, offset, data)),
        list ==> call_requires(Inode::ls, (&node, &*old(fs))),
{
}

/// A file may be opened with known flags where the test for it says yes, and a program
/// loaded or started where its name, if found, leads to an inode that exists.
pub proof fn may_call_open(
    inner: &mut TaskControlBlockInner,
    fs: &mut EasyFileSystem,
    root: Inode,
    path: &str,
    flags: OpenFlags,
    fits: bool,
)
    requires
        old(fs).wf(),
        old(fs)@.is_position(root@),
        old(fs)@.at(root@).kind is Directory,
        flags@ & !0x603u32 == 0,
        call_ensures(can_open, (&*old(fs), &root, path, flags), fits),
    ensures
        fits ==> call_requires(open_file, (fs, &root, path, flags)),
        fits ==> call_requires(sys_open, (inner, fs, &root, path, flags@)),
        (old(fs)@.find(old(fs)@.slot(root@), path.spec_bytes()) matches Some(id) ==> id < old(
            fs,
        )@.files.len()) ==> {
            &&& call_requires(sys_exec, (fs, &root, path))
            &&& call_requires(sys_spawn, (fs, &root, path))
        },
{
}

/// The status of any descriptor may be asked for where those above the standard streams
/// lead to inodes that exist.
pub proof fn may_call_fstat(inner: TaskControlBlockInner, fs: EasyFileSystem, fd: usize)
    requires
        fs.wf(),
        forall|x: int|
            3 <= x < inner.fd_table@.len() ==> (#[trigger] inner.fd_table@[x] matches Some(file)
                ==> (file matches File::Inode(f) && fs@.is_position(f.inode@))),
    ensures
        call_requires(sys_fstat, (&inner, &fs, fd)),
{
}

} // verus!
