//! Task control blocks and the queue of ready tasks.

use crate::file::File;
use crate::search::{first_index, lemma_first_index_is};
use vstd::prelude::*;

verus! {

/// Number of system calls that a task counts.
pub const MAX_SYSCALL_NUM: usize = 500;

/// Where a task stands in its life.
#[derive(Clone, Copy, PartialEq, Eq, Structural, Debug)]
pub enum TaskStatus {
    Ready,
    Running,
    Zombie,
}

/// Registers that a task resumes with; `x[10]` carries the result of a system
/// call.
pub struct TrapContext {
    pub x: [usize; 32],
}

/// A task.
pub struct TaskControlBlock {
    pub pid: usize,
    pub inner: TaskControlBlockInner,
}

/// The changing part of a task.
pub struct TaskControlBlockInner {
    pub task_status: TaskStatus,
    pub exit_code: i32,
    pub children: Vec<TaskControlBlock>,
    pub fd_table: Vec<Option<File>>,
    pub priority: usize,
    pub syscall_times: [u32; MAX_SYSCALL_NUM],
    pub start_time: usize,
    pub trap_cx: TrapContext,
}

/// Descriptors that lead nowhere.
pub open spec fn closed_fd() -> spec_fn(Option<File>) -> bool {
    |slot: Option<File>| slot is None
}

/// A table of descriptors with `file` at the lowest free one.
pub open spec fn installed(table: Seq<Option<File>>, file: Option<File>) -> Seq<Option<File>> {
    let fd = first_index(table, closed_fd());
    if fd < table.len() {
        table.update(fd, file)
    } else {
        table.push(file)
    }
}

impl TaskControlBlock {
    /// The task's number.
    pub fn getpid(&self) -> (pid: usize)
        ensures
            pid == self.pid,
    {
        self.pid
    }
}

impl TaskControlBlockInner {
    /// Whether descriptor `fd` leads to a file.
    pub open spec fn is_open(self, fd: int) -> bool {
        0 <= fd < self.fd_table@.len() && self.fd_table@[fd] is Some
    }

    /// The lowest descriptor that leads nowhere.
    pub open spec fn next_fd(self) -> int {
        first_index(self.fd_table@, closed_fd())
    }

    /// Whether the task has ended and waits for its parent.
    pub fn is_zombie(&self) -> (b: bool)
        ensures
            b == (self.task_status is Zombie),
    {
        match self.task_status {
            TaskStatus::Zombie => true,
            _ => false,
        }
    }

    /// Sets the scheduling priority.
    pub fn set_priority(&mut self, prio: usize)
        ensures
            *final(self) == (TaskControlBlockInner { priority: prio, ..*old(self) }),
    {
        self.priority = prio;
    }

    /// The lowest free descriptor, at the end of the table where none is free.
    pub fn alloc_fd(&mut self) -> (fd: usize)
        ensures
            fd == old(self).next_fd(),
            fd < final(self).fd_table@.len(),
            final(self).fd_table@ == if fd < old(self).fd_table@.len() {
                old(self).fd_table@
            } else {
                old(self).fd_table@.push(None)
            },
            *final(self) == (TaskControlBlockInner {
                fd_table: final(self).fd_table,
                ..*old(self)
            }),
    {
        let ghost table = self.fd_table@;
        let n: usize = self.fd_table.len();
        let mut fd: usize = 0;
        while fd < n && self.fd_table[fd].is_some()
            invariant
                *self == *old(self),
                table == self.fd_table@,
                n == table.len(),
                fd <= n,
                forall|j: int| 0 <= j < fd ==> !closed_fd()(#[trigger] table[j]),
            decreases n - fd,
        {
            fd = fd + 1;
        }
        proof {
            lemma_first_index_is(table, closed_fd(), fd as int);
        }
        if fd == n {
            self.fd_table.push(None);
        }
        fd
    }
}

/// The tasks that wait for the processor, in the order they came.
pub struct TaskManager {
    pub ready_queue: Vec<TaskControlBlock>,
}

impl TaskManager {
    /// A queue without tasks.
    pub fn new() -> (manager: Self)
        ensures
            manager.ready_queue@ == Seq::<TaskControlBlock>::empty(),
    {
        TaskManager { ready_queue: Vec::new() }
    }

    /// Puts a task at the end of the queue.
    pub fn add_task(&mut self, task: TaskControlBlock)
        ensures
            final(self).ready_queue@ == old(self).ready_queue@.push(task),
    {
        self.ready_queue.push(task);
    }
}

} // verus!
