//! Process management syscalls

use crate::behaviour::{law_mmap_bits, law_mmap_valid, law_wait};
use crate::efs::EasyFileSystem;
use crate::file::{open_file, OpenFlags};
use crate::mm::{MapPermission, VirtAddr, PAGE_SIZE};
use crate::search::{first_index, lemma_first_index_is};
use crate::task::{
    TaskControlBlock, TaskControlBlockInner, TaskManager, TaskStatus, MAX_SYSCALL_NUM,
};
use crate::vfs::{lemma_position, Inode};
use vstd::prelude::*;
use vstd::string::*;

verus! {

/// A time since the machine started.
#[derive(Debug)]
pub struct TimeVal {
    pub sec: usize,
    pub usec: usize,
}

/// What a task learns about itself.
#[derive(Clone, Copy)]
pub struct TaskInfo {
    pub status: TaskStatus,
    pub syscall_times: [u32; MAX_SYSCALL_NUM],
    pub time: usize,
}

/// Ends the current task: `exit_current_and_run_next` receives the exit code and
/// gives the processor away for good.
pub fn sys_exit<X: FnOnce(i32)>(exit_code: i32, exit_current_and_run_next: X)
    requires
        call_requires(exit_current_and_run_next, (exit_code,)),
    ensures
        call_ensures(exit_current_and_run_next, (exit_code,), ()),
{
    exit_current_and_run_next(exit_code);
}

/// current task gives up resources for other tasks
pub fn sys_yield<S: FnOnce()>(suspend_current_and_run_next: S) -> (ret: isize)
    requires
        call_requires(suspend_current_and_run_next, ()),
    ensures
        call_ensures(suspend_current_and_run_next, (), ()),
        ret == 0,
{
    suspend_current_and_run_next();
    0
}

/// Number of the current task.
pub fn sys_getpid(current_task: &TaskControlBlock) -> (ret: isize)
    ensures
        ret == current_task.pid as isize,
{
    current_task.pid as isize
}

/// Syscall Fork which returns 0 for child process and child_pid for parent process.
/// `new_task` is the fork of the current task.
pub fn sys_fork(manager: &mut TaskManager, new_task: TaskControlBlock) -> (ret: isize)
    ensures
        ret == new_task.pid as isize,
        final(manager).ready_queue@ == old(manager).ready_queue@.push(
            final(manager).ready_queue@.last(),
        ),
        ({
            let child = final(manager).ready_queue@.last();
            &&& child.inner.trap_cx.x@ == new_task.inner.trap_cx.x@.update(10, 0)
            &&& child == (TaskControlBlock {
                inner: TaskControlBlockInner {
                    trap_cx: child.inner.trap_cx,
                    ..new_task.inner
                },
                ..new_task
            })
        }),
{
    let mut new_task = new_task;
    let new_pid: usize = new_task.pid;
    // modify trap context of new_task, because it returns immediately after switching
    // we do not have to move to next instruction since we have done it before
    // for child process, fork returns 0
    new_task.inner.trap_cx.x[10] = 0;
    // add new task to scheduler
    manager.add_task(new_task);
    new_pid as isize
}

/// Syscall Exec which accepts the elf path. With the result comes the program to
/// load into the current task.
pub fn sys_exec(fs: &mut EasyFileSystem, root: &Inode, path: &str) -> (ret: (isize, Option<Vec<u8>>))
    requires
        old(fs).wf(),
        old(fs)@.is_position(root@),
        old(fs)@.at(root@).kind is Directory,
        old(fs)@.find(old(fs)@.slot(root@), path.spec_bytes()) matches Some(id) ==> id < old(
            fs,
        )@.files.len(),
    ensures
        final(fs).wf(),
        final(fs)@ == old(fs)@,
        match old(fs)@.find(old(fs)@.slot(root@), path.spec_bytes()) {
            Some(id) => ret.0 == 0 && (ret.1 matches Some(all_data) && all_data@ == old(
                fs,
            )@.files[id as int].content),
            None => ret.0 == -1 && ret.1 is None,
        },
{
    assert(0u32 & 0x200 == 0 && 0u32 & 0x400 == 0) by (bit_vector);
    if let Some(app_inode) = open_file(fs, root, path, OpenFlags::rdonly()) {
        proof {
            lemma_position(fs@, app_inode.ino as int);
        }
        let all_data: Vec<u8> = app_inode.read_all(fs);
        (0, Some(all_data))
    } else {
        (-1, None)
    }
}

/// Whether a wait for `pid` accepts the child: any child answers to -1, any other
/// number names one.
pub open spec fn awaited(pid: isize) -> spec_fn(TaskControlBlock) -> bool {
    |child: TaskControlBlock| pid == -1 || pid as usize == child.pid
}

/// Whether a wait for `pid` ends with the child.
pub open spec fn collectable(pid: isize) -> spec_fn(TaskControlBlock) -> bool {
    |child: TaskControlBlock| awaited(pid)(child) && child.inner.task_status is Zombie
}

/// If there is not a child process whose pid is same as given, return -1.
/// Else if there is a child process but it is still running, return -2.
/// Otherwise the first such child that has ended leaves the list of children, and
/// with its number comes its exit code for the caller to receive.
pub fn sys_waitpid(inner: &mut TaskControlBlockInner, pid: isize) -> (ret: (isize, Option<i32>))
    ensures
        ({
            let children = old(inner).children@;
            let any = first_index(children, awaited(pid));
            let idx = first_index(children, collectable(pid));
            if any == children.len() {
                ret == (-1isize, None::<i32>) && *final(inner) == *old(inner)
            } else if idx == children.len() {
                ret == (-2isize, None::<i32>) && *final(inner) == *old(inner)
            } else {
                &&& ret == (children[idx].pid as isize, Some(children[idx].inner.exit_code))
                &&& final(inner).children@ == children.remove(idx)
                &&& *final(inner) == (TaskControlBlockInner {
                    children: final(inner).children,
                    ..*old(inner)
                })
            }
        }),
        ret == (-1isize, None::<i32>) <==> forall|j: int|
            0 <= j < old(inner).children@.len() ==> pid != -1 && pid as usize != (#[trigger] old(
                inner,
            ).children@[j]).pid,
        ret.1 is Some <==> exists|j: int|
            0 <= j < old(inner).children@.len() && (pid == -1 || pid as usize == (#[trigger] old(
                inner,
            ).children@[j]).pid) && old(inner).children@[j].inner.task_status is Zombie,
        ret.1 matches Some(exit_code) ==> exists|k: int|
            {
                &&& 0 <= k < old(inner).children@.len()
                &&& (#[trigger] old(inner).children@[k]).inner.task_status is Zombie
                &&& pid == -1 || pid as usize == old(inner).children@[k].pid
                &&& ret.0 == old(inner).children@[k].pid as isize
                &&& exit_code == old(inner).children@[k].inner.exit_code
                &&& final(inner).children@ == old(inner).children@.remove(k)
            },
{
    proof {
        law_wait(inner.children@, pid);
    }
    let ghost children = inner.children@;
    let n: usize = inner.children.len();
    // find a child process
    let mut any: usize = 0;
    while any < n && !(pid == -1 || pid as usize == inner.children[any].getpid())
        invariant
            children == inner.children@,
            n == children.len(),
            any <= n,
            forall|j: int| 0 <= j < any ==> !awaited(pid)(#[trigger] children[j]),
        decreases n - any,
    {
        any = any + 1;
    }
    proof {
        lemma_first_index_is(children, awaited(pid), any as int);
    }
    if any == n {
        return (-1, None);
    }
    let mut idx: usize = 0;
    while idx < n && !(inner.children[idx].inner.is_zombie() && (pid == -1 || pid as usize
        == inner.children[idx].getpid()))
        invariant
            children == inner.children@,
            n == children.len(),
            idx <= n,
            forall|j: int| 0 <= j < idx ==> !collectable(pid)(#[trigger] children[j]),
        decreases n - idx,
    {
        idx = idx + 1;
    }
    proof {
        lemma_first_index_is(children, collectable(pid), idx as int);
    }
    if idx < n {
        let child = inner.children.remove(idx);
        let found_pid: usize = child.getpid();
        let exit_code: i32 = child.inner.exit_code;
        (found_pid as isize, Some(exit_code))
    } else {
        (-2, None)
    }
}

/// The time `us`, in microseconds, for the caller to receive.
pub fn sys_get_time(us: usize) -> (ret: (isize, TimeVal))
    ensures
        ret.0 == 0,
        ret.1.sec == us / 1_000_000,
        ret.1.usec == us % 1_000_000,
        ret.1.sec * 1_000_000 + ret.1.usec == us,
        ret.1.usec < 1_000_000,
{
    (0, TimeVal { sec: us / 1_000_000, usec: us % 1_000_000 })
}

/// What the current task, at time `now`, learns about itself.
pub fn sys_task_info(inner: &TaskControlBlockInner, now: usize) -> (ret: (isize, TaskInfo))
    requires
        inner.start_time <= now,
    ensures
        ret.0 == 0,
        ret.1.status is Running,
        ret.1.syscall_times == inner.syscall_times,
        ret.1.time == now - inner.start_time,
{
    let syscall_times = inner.syscall_times;
    let start_time: usize = inner.start_time;
    (0, TaskInfo { status: TaskStatus::Running, syscall_times, time: now - start_time })
}

/// Sets the priority of the current task; below 2 there is none.
pub fn sys_set_priority(inner: &mut TaskControlBlockInner, prio: isize) -> (ret: isize)
    ensures
        prio < 2 ==> ret == -1 && *final(inner) == *old(inner),
        prio >= 2 ==> ret == prio && *final(inner) == (TaskControlBlockInner {
            priority: prio as usize,
            ..*old(inner)
        }),
{
    if prio < 2 {
        return -1;
    }
    inner.set_priority(prio as usize);
    prio
}

/// What a caller asks of a mapping: reading (bit 0), writing (bit 1) and executing
/// (bit 2).
pub struct MmapPort {
    bits: usize,
}

impl View for MmapPort {
    type V = usize;

    closed spec fn view(&self) -> usize {
        self.bits
    }
}

impl MmapPort {
    /// The port with these bits, unless a bit is unknown.
    pub fn from_bits(bits: usize) -> (port: Option<MmapPort>)
        ensures
            port is Some <==> bits <= 7,
            port matches Some(p) ==> p@ == bits,
    {
        assert(bits & !7usize == 0 <==> bits <= 7) by (bit_vector);
        if bits & !0b111usize == 0 {
            Some(MmapPort { bits })
        } else {
            None
        }
    }
}

/// Whether `sys_mmap` accepts these arguments.
pub open spec fn mmap_valid(start: usize, port: usize) -> bool {
    1 <= port <= 7 && start % PAGE_SIZE == 0
}

/// The permission that a port asks for, with access from user mode.
pub open spec fn mmap_permission(port: usize) -> MapPermission {
    MapPermission { bits: (16 + 2 * port) as u8 }
}

/// Whether `sys_mmap` has something to map for these arguments.
pub fn mmap_applies(start: usize, len: usize, port: usize) -> (b: bool)
    ensures
        b == (mmap_valid(start, port) && len != 0),
        b == (port & 7 != 0 && port & !7usize == 0 && start % 4096 == 0 && len != 0),
{
    proof {
        law_mmap_valid(start, port);
    }
    1 <= port && port <= 7 && VirtAddr::from(start).page_offset() == 0 && len != 0
}

/// Maps `len` bytes from `start` on. The port must ask for something and for
/// nothing unknown, and `start` must be the start of a page; `mmap`, which maps
/// the range in the task's memory, has the last word.
pub fn sys_mmap<M: FnOnce(VirtAddr, VirtAddr, MapPermission) -> bool>(
    start: usize,
    len: usize,
    port: usize,
    mmap: M,
) -> (ret: isize)
    requires
        mmap_valid(start, port) && len != 0 ==> start + len <= usize::MAX && call_requires(
            mmap,
            (VirtAddr(start), VirtAddr((start + len) as usize), mmap_permission(port)),
        ),
    ensures
        !mmap_valid(start, port) ==> ret == -1,
        mmap_valid(start, port) && len == 0 ==> ret == 0,
        mmap_valid(start, port) && len != 0 ==> exists|mapped: bool| #[trigger]
            call_ensures(
                mmap,
                (VirtAddr(start), VirtAddr((start + len) as usize), mmap_permission(port)),
                mapped,
            ) && ret == (if mapped {
                0int
            } else {
                -1
            }),
        port & 7 == 0 || port & !7usize != 0 || start % 4096 != 0 ==> ret == -1,
        port & 7 != 0 && port & !7usize == 0 && start % 4096 == 0 && len == 0 ==> ret == 0,
        port & 7 != 0 && port & !7usize == 0 && start % 4096 == 0 && len != 0
            ==> exists|mapped: bool| #[trigger]
            call_ensures(
                mmap,
                (
                    VirtAddr(start),
                    VirtAddr((start + len) as usize),
                    MapPermission { bits: 0x10u8 | ((port as u8) << 1) },
                ),
                mapped,
            ) && ret == (if mapped {
                0int
            } else {
                -1
            }),
{
    proof {
        law_mmap_valid(start, port);
        if port <= 7 {
            law_mmap_bits(port);
        }
    }
    let flags = match MmapPort::from_bits(port) {
        Some(flags) => flags,
        None => {
            return -1;
        },
    };
    let s_addr = VirtAddr::from(start);
    let offset: usize = s_addr.page_offset();
    assert(port <= 7 ==> (port & 7 == 0 <==> port == 0)) by (bit_vector);
    if port & 0b111 == 0 || offset != 0 {
        // 1. Meaningless combination
        // 2. start not aligned by page size
        return -1;
    }
    if len == 0 {
        // No allocation at all.
        return 0;
    }
    let bits: u8 = flags.bits as u8;
    assert(bits <= 7 ==> (16u8 | (bits << 1)) == 16 + 2 * bits) by (bit_vector);
    let flags = MapPermission { bits: 16 | (bits << 1) };
    if mmap(s_addr, VirtAddr::from(start + len), flags) {
        0
    } else {
        -1
    }
}

/// Whether `sys_munmap` has something to unmap for these arguments.
pub fn munmap_applies(start: usize, len: usize) -> (b: bool)
    ensures
        b == (start % PAGE_SIZE == 0 && len != 0),
{
    VirtAddr::from(start).page_offset() == 0 && len != 0
}

/// Unmaps `len` bytes from `start` on. `start` must be the start of a page;
/// `munmap`, which unmaps the range in the task's memory, has the last word.
pub fn sys_munmap<M: FnOnce(VirtAddr, VirtAddr) -> bool>(
    start: usize,
    len: usize,
    munmap: M,
) -> (ret: isize)
    requires
        start % PAGE_SIZE == 0 && len != 0 ==> start + len <= usize::MAX && call_requires(
            munmap,
            (VirtAddr(start), VirtAddr((start + len) as usize)),
        ),
    ensures
        start % PAGE_SIZE != 0 ==> ret == -1,
        start % PAGE_SIZE == 0 && len == 0 ==> ret == 0,
        start % PAGE_SIZE == 0 && len != 0 ==> exists|unmapped: bool| #[trigger]
            call_ensures(
                munmap,
                (VirtAddr(start), VirtAddr((start + len) as usize)),
                unmapped,
            ) && ret == (if unmapped {
                0int
            } else {
                -1
            }),
{
    let s_addr = VirtAddr::from(start);
    if s_addr.page_offset() != 0 {
        // start not aligned by page size
        return -1;
    }
    if len == 0 {
        // no need to unmap
        return 0;
    }
    if munmap(s_addr, VirtAddr::from(start + len)) {
        0
    } else {
        -1
    }
}

/// The program at `path`, which is then to be started in a new task.
pub fn sys_spawn(fs: &mut EasyFileSystem, root: &Inode, path: &str) -> (next: Result<
    Vec<u8>,
    isize,
>)
    requires
        old(fs).wf(),
        old(fs)@.is_position(root@),
        old(fs)@.at(root@).kind is Directory,
        old(fs)@.find(old(fs)@.slot(root@), path.spec_bytes()) matches Some(id) ==> id < old(
            fs,
        )@.files.len(),
    ensures
        final(fs).wf(),
        final(fs)@ == old(fs)@,
        match old(fs)@.find(old(fs)@.slot(root@), path.spec_bytes()) {
            Some(id) => next matches Ok(elf_data) && elf_data@ == old(
                fs,
            )@.files[id as int].content,
            None => next == Err::<Vec<u8>, isize>(-1isize),
        },
{
    assert(0u32 & 0x200 == 0 && 0u32 & 0x400 == 0) by (bit_vector);
    match open_file(fs, root, path, OpenFlags::rdonly()) {
        Some(file) => {
            proof {
                lemma_position(fs@, file.ino as int);
            }
            Ok(file.read_all(fs))
        },
        None => Err(-1),
    }
}

/// What a spawn returns: the number of the new task, or -1 where none was made of
/// the program.
pub fn sys_spawn_done(pid: Option<usize>) -> (ret: isize)
    ensures
        ret == match pid {
            Some(pid) => pid as isize,
            None => -1isize,
        },
{
    match pid {
        Some(pid) => pid as isize,
        None => -1,
    }
}

} // verus!
