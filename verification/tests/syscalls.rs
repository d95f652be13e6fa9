use os6::efs::EasyFileSystem;
use os6::file::{can_open, File, OpenFlags, StatMode, CREATE, RDWR, TRUNC, WRONLY};
use os6::mm::{MapPermission, VirtAddr};
use os6::syscall::fs::{
    sys_close, sys_fstat, sys_linkat, sys_open, sys_read, sys_read_done, sys_unlinkat, sys_write,
    sys_write_done,
};
use os6::syscall::process::{
    mmap_applies, munmap_applies,
    sys_exec, sys_exit, sys_fork, sys_get_time, sys_getpid, sys_mmap, sys_munmap,
    sys_set_priority, sys_spawn, sys_spawn_done, sys_task_info, sys_waitpid, sys_yield,
};
use os6::task::{
    TaskControlBlock, TaskControlBlockInner, TaskManager, TaskStatus, TrapContext, MAX_SYSCALL_NUM,
};
use os6::vfs::Inode;

fn task(pid: usize) -> TaskControlBlock {
    TaskControlBlock {
        pid,
        inner: TaskControlBlockInner {
            task_status: TaskStatus::Ready,
            exit_code: 0,
            children: Vec::new(),
            fd_table: vec![Some(File::Stream), Some(File::Stream), Some(File::Stream)],
            priority: 16,
            syscall_times: [0; MAX_SYSCALL_NUM],
            start_time: 0,
            trap_cx: TrapContext { x: [9; 32] },
        },
    }
}

fn small() -> (EasyFileSystem, Inode) {
    (EasyFileSystem::create(2, 8, 16), Inode::new(2, 0))
}

#[test]
fn open_flags_know_their_bits() {
    assert!(OpenFlags::from_bits(0).is_some());
    assert!(OpenFlags::from_bits(WRONLY | RDWR | CREATE | TRUNC).is_some());
    assert!(OpenFlags::from_bits(4).is_none());
    assert!(OpenFlags::from_bits(0x800).is_none());
    assert_eq!(OpenFlags::rdonly().read_write(), (true, false));
    assert_eq!(OpenFlags::from_bits(CREATE | WRONLY).unwrap().read_write(), (false, true));
    assert_eq!(OpenFlags::from_bits(RDWR).unwrap().read_write(), (true, true));
}

#[test]
fn open_takes_the_lowest_descriptor() {
    let (mut fs, root) = small();
    let mut t = task(1);
    assert_eq!(sys_open(&mut t.inner, &mut fs, &root, "a", 0), -1);
    assert_eq!(t.inner.fd_table.len(), 3);
    assert_eq!(sys_open(&mut t.inner, &mut fs, &root, "a", CREATE | WRONLY), 3);
    assert_eq!(sys_open(&mut t.inner, &mut fs, &root, "a", 0), 4);
    assert_eq!(sys_close(&mut t.inner, 3), 0);
    assert_eq!(sys_close(&mut t.inner, 3), -1);
    assert_eq!(sys_close(&mut t.inner, 99), -1);
    assert_eq!(sys_open(&mut t.inner, &mut fs, &root, "a", 0), 3);
    match t.inner.fd_table[3] {
        Some(File::Inode(f)) => {
            assert_eq!(f.ino, 1);
            assert!(f.readable && !f.writable);
        }
        _ => panic!("no inode"),
    }
}

#[test]
fn open_creates_and_truncates() {
    let (mut fs, root) = small();
    let mut t = task(1);
    sys_open(&mut t.inner, &mut fs, &root, "a", CREATE);
    let node = root.find(&fs, "a").unwrap().1;
    node.write_at(&mut fs, 0, b"hello");
    let mut buf = [0u8; 8];
    sys_open(&mut t.inner, &mut fs, &root, "a", RDWR);
    assert_eq!(node.read_at(&fs, 0, &mut buf), 5);
    sys_open(&mut t.inner, &mut fs, &root, "a", TRUNC);
    assert_eq!(node.read_at(&fs, 0, &mut buf), 0);
    node.write_at(&mut fs, 0, b"hello");
    sys_open(&mut t.inner, &mut fs, &root, "a", CREATE);
    assert_eq!(node.read_at(&fs, 0, &mut buf), 0);
    assert_eq!(root.ls(&fs).len(), 1);
}

#[test]
fn write_and_read_go_to_the_file() {
    let (mut fs, root) = small();
    let mut t = task(1);
    assert!(matches!(sys_write(&t.inner, 1), Ok(File::Stream)));
    assert!(matches!(sys_read(&t.inner, 0), Ok(File::Stream)));
    assert_eq!(sys_write_done(42), 42);
    assert_eq!(sys_read_done(0), 0);
    assert!(matches!(sys_write(&t.inner, 3), Err(-1)));
    assert!(matches!(sys_read(&t.inner, usize::MAX), Err(-1)));
    sys_close(&mut t.inner, 1);
    assert!(matches!(sys_write(&t.inner, 1), Err(-1)));
    assert!(matches!(sys_read(&t.inner, 1), Err(-1)));
    sys_open(&mut t.inner, &mut fs, &root, "a", CREATE);
    match sys_write(&t.inner, 1) {
        Ok(File::Inode(f)) => assert_eq!(f.ino, 1),
        _ => panic!("no inode"),
    }
}

#[test]
fn fstat_reports_inode_type_and_links() {
    let (mut fs, root) = small();
    let mut t = task(1);
    sys_open(&mut t.inner, &mut fs, &root, "a", CREATE);
    let (ret, stat) = sys_fstat(&t.inner, &fs, 3);
    let stat = stat.unwrap();
    assert_eq!(ret, 0);
    assert_eq!(stat.ino, 1);
    assert_eq!(stat.mode, StatMode::FILE);
    assert_eq!(stat.nlink, 1);
    assert_eq!(sys_linkat(&mut fs, &root, "a", "b"), 0);
    assert_eq!(sys_fstat(&t.inner, &fs, 3).1.unwrap().nlink, 2);
    assert_eq!(sys_unlinkat(&mut fs, &root, "b"), 0);
    assert_eq!(sys_fstat(&t.inner, &fs, 3).1.unwrap().nlink, 1);
    for fd in [0, 1, 2, 4, 100] {
        let (ret, stat) = sys_fstat(&t.inner, &fs, fd);
        assert_eq!(ret, -1);
        assert!(stat.is_none());
    }
    sys_close(&mut t.inner, 3);
    assert_eq!(sys_fstat(&t.inner, &fs, 3).0, -1);
}

#[test]
fn streams_stay_below_the_files() {
    let (mut fs, root) = small();
    let mut t = task(1);
    for name in ["a", "b", "c"] {
        sys_open(&mut t.inner, &mut fs, &root, name, CREATE);
    }
    sys_close(&mut t.inner, 0);
    sys_close(&mut t.inner, 4);
    assert_eq!(sys_open(&mut t.inner, &mut fs, &root, "c", 0), 0);
    assert_eq!(sys_open(&mut t.inner, &mut fs, &root, "c", 0), 4);
    for slot in &t.inner.fd_table[3..] {
        assert!(matches!(slot, Some(File::Inode(_))));
    }
}

#[test]
fn open_is_foreseen() {
    let (mut fs, root) = small();
    let create = OpenFlags::from_bits(CREATE).unwrap();
    assert!(can_open(&fs, &root, "a", create));
    assert!(!can_open(&fs, &root, "abcdefghijklmnopqrstuvwxyz01", create));
    assert!(can_open(&fs, &root, "abcdefghijklmnopqrstuvwxyz01", OpenFlags::rdonly()));
    for name in ["1", "2", "3", "4", "5", "6", "7"] {
        root.create(&mut fs, name).unwrap();
    }
    assert!(!can_open(&fs, &root, "a", create));
    assert!(can_open(&fs, &root, "7", create));
}

#[test]
fn fstat_of_a_directory() {
    let (fs, root) = small();
    let mut t = task(1);
    t.inner.fd_table.push(Some(File::Inode(os6::file::OSInode {
        readable: true,
        writable: false,
        ino: 0,
        inode: root,
    })));
    let stat = sys_fstat(&t.inner, &fs, 3).1.unwrap();
    assert_eq!(stat.mode, StatMode::DIR);
    assert_eq!(stat.ino, 0);
}

#[test]
fn link_and_unlink_by_name() {
    let (mut fs, root) = small();
    assert_eq!(sys_linkat(&mut fs, &root, "a", "b"), -1);
    assert_eq!(sys_unlinkat(&mut fs, &root, "a"), -1);
    root.create(&mut fs, "a").unwrap();
    assert_eq!(sys_linkat(&mut fs, &root, "a", "b"), 0);
    assert_eq!(root.find(&fs, "b").unwrap().0, 1);
    assert_eq!(sys_unlinkat(&mut fs, &root, "b"), 0);
    assert_eq!(sys_unlinkat(&mut fs, &root, "b"), 0);
    assert!(root.find(&fs, "b").is_none());
}

#[test]
fn exit_and_yield_hand_the_processor_on() {
    let mut code = None;
    sys_exit(-7, |c: i32| code = Some(c));
    assert_eq!(code, Some(-7));
    let mut suspended = 0;
    assert_eq!(sys_yield(|| suspended += 1), 0);
    assert_eq!(suspended, 1);
}

#[test]
fn getpid() {
    assert_eq!(sys_getpid(&task(5)), 5);
}

#[test]
fn fork_returns_child_pid_and_zero_to_the_child() {
    let mut manager = TaskManager::new();
    assert_eq!(sys_fork(&mut manager, task(8)), 8);
    assert_eq!(sys_fork(&mut manager, task(9)), 9);
    assert_eq!(manager.ready_queue.len(), 2);
    assert_eq!(manager.ready_queue[0].pid, 8);
    assert_eq!(manager.ready_queue[1].pid, 9);
    assert_eq!(manager.ready_queue[1].inner.trap_cx.x[10], 0);
    assert_eq!(manager.ready_queue[1].inner.trap_cx.x[9], 9);
    assert_eq!(manager.ready_queue[1].inner.trap_cx.x[11], 9);
}

#[test]
fn exec_loads_the_file() {
    let (mut fs, root) = small();
    assert_eq!(sys_exec(&mut fs, &root, "app"), (-1, None));
    let node = root.create(&mut fs, "app").unwrap().1;
    let data: Vec<u8> = (0..1300).map(|i| (i % 253) as u8).collect();
    node.write_at(&mut fs, 0, &data);
    assert_eq!(sys_exec(&mut fs, &root, "app"), (0, Some(data)));
}

#[test]
fn spawn_starts_the_file() {
    let (mut fs, root) = small();
    assert_eq!(sys_spawn(&mut fs, &root, "app"), Err(-1));
    let node = root.create(&mut fs, "app").unwrap().1;
    node.write_at(&mut fs, 0, b"elf");
    assert_eq!(sys_spawn(&mut fs, &root, "app"), Ok(b"elf".to_vec()));
    assert_eq!(sys_spawn_done(Some(12)), 12);
    assert_eq!(sys_spawn_done(None), -1);
}

fn zombie(pid: usize, exit_code: i32) -> TaskControlBlock {
    let mut t = task(pid);
    t.inner.task_status = TaskStatus::Zombie;
    t.inner.exit_code = exit_code;
    t
}

#[test]
fn waitpid_collects_zombies() {
    let mut parent = task(1);
    assert_eq!(sys_waitpid(&mut parent.inner, -1), (-1, None));
    parent.inner.children.push(task(2));
    parent.inner.children.push(zombie(3, -5));
    parent.inner.children.push(zombie(4, 6));
    assert_eq!(sys_waitpid(&mut parent.inner, 7), (-1, None));
    assert_eq!(sys_waitpid(&mut parent.inner, -2), (-1, None));
    assert_eq!(sys_waitpid(&mut parent.inner, 2), (-2, None));
    assert_eq!(sys_waitpid(&mut parent.inner, 4), (4, Some(6)));
    assert_eq!(sys_waitpid(&mut parent.inner, 4), (-1, None));
    assert_eq!(sys_waitpid(&mut parent.inner, -1), (3, Some(-5)));
    assert_eq!(sys_waitpid(&mut parent.inner, 3), (-1, None));
    assert_eq!(sys_waitpid(&mut parent.inner, -1), (-2, None));
    assert_eq!(parent.inner.children.len(), 1);
    assert_eq!(parent.inner.children[0].pid, 2);
}

#[test]
fn get_time_splits_seconds() {
    let (ret, t) = sys_get_time(12_345_678);
    assert_eq!(ret, 0);
    assert_eq!((t.sec, t.usec), (12, 345_678));
    let (_, t) = sys_get_time(999_999);
    assert_eq!((t.sec, t.usec), (0, 999_999));
}

#[test]
fn task_info_counts_from_the_start() {
    let mut t = task(1);
    t.inner.start_time = 100;
    t.inner.syscall_times[64] = 3;
    let (ret, info) = sys_task_info(&t.inner, 350);
    assert_eq!(ret, 0);
    assert_eq!(info.status, TaskStatus::Running);
    assert_eq!(info.syscall_times[64], 3);
    assert_eq!(info.syscall_times[63], 0);
    assert_eq!(info.time, 250);
}

#[test]
fn priority_starts_at_two() {
    let mut t = task(1);
    assert_eq!(sys_set_priority(&mut t.inner, 1), -1);
    assert_eq!(sys_set_priority(&mut t.inner, isize::MIN), -1);
    assert_eq!(t.inner.priority, 16);
    assert_eq!(sys_set_priority(&mut t.inner, 2), 2);
    assert_eq!(t.inner.priority, 2);
    assert_eq!(sys_set_priority(&mut t.inner, isize::MAX), isize::MAX);
}

#[test]
fn mmap_checks_its_arguments() {
    let refuse = |_: VirtAddr, _: VirtAddr, _: MapPermission| -> bool { unreachable!() };
    assert!(mmap_applies(0x1000, 1, 7) && !mmap_applies(0x1000, 0, 7));
    assert!(!mmap_applies(0x1000, 1, 8) && !mmap_applies(0x1001, 1, 7));
    assert!(!mmap_applies(0x1000, 1, 0));
    assert_eq!(sys_mmap(0x1000, 0x1000, 8, refuse), -1);
    assert_eq!(sys_mmap(0x1000, usize::MAX, 8, refuse), -1);
    assert_eq!(sys_mmap(0x1000, 0x1000, 0, refuse), -1);
    assert_eq!(sys_mmap(0x1001, 0x1000, 3, refuse), -1);
    assert_eq!(sys_mmap(0x1000, 0, 3, refuse), 0);
    assert_eq!(sys_mmap(0x1000, 0, 0, refuse), -1);
    let ret = sys_mmap(0x1000, 0x800, 3, |s: VirtAddr, e: VirtAddr, p: MapPermission| {
        assert_eq!(s, VirtAddr(0x1000));
        assert_eq!(e, VirtAddr(0x1800));
        assert_eq!(p.bits, 0b1_0110);
        true
    });
    assert_eq!(ret, 0);
    let ret = sys_mmap(0, 1, 4, |_: VirtAddr, _: VirtAddr, p: MapPermission| {
        assert_eq!(p.bits, 0b1_1000);
        false
    });
    assert_eq!(ret, -1);
}

#[test]
fn munmap_checks_its_arguments() {
    let refuse = |_: VirtAddr, _: VirtAddr| -> bool { unreachable!() };
    assert!(munmap_applies(0x2000, 5) && !munmap_applies(0x2001, 5) && !munmap_applies(0x2000, 0));
    assert_eq!(sys_munmap(0x1fff, 0x1000, refuse), -1);
    assert_eq!(sys_munmap(0x1fff, 0, refuse), -1);
    assert_eq!(sys_munmap(0x2000, 0, refuse), 0);
    assert_eq!(sys_munmap(0x2000, 5, |s: VirtAddr, e: VirtAddr| s.0 == 0x2000 && e.0 == 0x2005), 0);
    assert_eq!(sys_munmap(0x2000, 5, |_: VirtAddr, _: VirtAddr| false), -1);
}

#[test]
fn virtual_addresses() {
    assert_eq!(VirtAddr::from(0x1234), VirtAddr(0x1234));
    assert_eq!(VirtAddr(0x1234).page_offset(), 0x234);
}
