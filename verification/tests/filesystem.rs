use os6::efs::EasyFileSystem;
use os6::layout::{DirEntry, DiskInode, DIRENT_SZ};
use os6::vfs::Inode;

/// Eight inodes and sixteen data blocks; the inode area starts at block 2.
fn small() -> (EasyFileSystem, Inode) {
    (EasyFileSystem::create(2, 8, 16), Inode::new(2, 0))
}

fn contents(node: &Inode, fs: &EasyFileSystem) -> Vec<u8> {
    let mut buf = vec![0xAAu8; 4096];
    let n = node.read_at(fs, 0, &mut buf);
    buf.truncate(n);
    buf
}

#[test]
fn total_blocks_rounds_up() {
    assert_eq!(DiskInode::total_blocks(0), 0);
    assert_eq!(DiskInode::total_blocks(1), 1);
    assert_eq!(DiskInode::total_blocks(512), 1);
    assert_eq!(DiskInode::total_blocks(513), 2);
    assert_eq!(DiskInode::total_blocks(u32::MAX), 8_388_608);
}

#[test]
fn dirent_layout() {
    let rec = DirEntry::new("file_a", 0x0403_0201);
    let raw = rec.as_bytes();
    assert_eq!(raw.len(), DIRENT_SZ);
    assert_eq!(&raw[..8], b"file_a\0\0");
    assert_eq!(&raw[28..], &[1, 2, 3, 4]);
    assert_eq!(rec.name(), "file_a");
    assert_eq!(rec.inode_number(), 0x0403_0201);
    assert!(rec.is_named("file_a"));
    assert!(!rec.is_named("file_"));
    assert!(!rec.is_named("file_ab"));
    assert!(!rec.is_named("file_b"));
    assert!(!rec.is_cleared());
    let back = DirEntry::from_bytes(raw);
    assert_eq!(back.inode_number(), 0x0403_0201);
}

#[test]
fn dirent_name_is_text() {
    assert_eq!(DirEntry::new("grüße", 7).name(), "grüße");
    assert_eq!(DirEntry::new("a\0b", 7).name(), "a");
    assert_eq!(DirEntry::new("", 7).name(), "");
    assert_eq!(DirEntry::new("abcdefghijklmnopqrstuvwxyz0", 7).name(), "abcdefghijklmnopqrstuvwxyz0");
    assert!(DirEntry::empty().is_cleared());
    assert_eq!(DirEntry::empty().inode_number(), 0);
}

#[test]
fn new_file_system_is_empty() {
    let (fs, root) = small();
    assert!(root.is_valid(&fs));
    assert!(!root.is_file(&fs));
    assert_eq!(root.nlink(&fs), 1);
    assert_eq!(root.ls(&fs), Vec::<String>::new());
    assert!(root.find(&fs, "a").is_none());
    assert_eq!(fs.free_blocks(), 16);
}

#[test]
fn positions() {
    let (fs, _) = small();
    assert_eq!(fs.get_disk_inode_pos(0), (2, 0));
    assert_eq!(fs.get_disk_inode_pos(3), (2, 384));
    assert_eq!(fs.get_disk_inode_pos(4), (3, 0));
    assert_eq!(fs.get_disk_inode_pos(7), (3, 384));
    assert!(Inode::new(3, 384).is_valid(&fs));
    assert!(!Inode::new(4, 0).is_valid(&fs));
    assert!(!Inode::new(1, 0).is_valid(&fs));
    assert!(!Inode::new(2, 64).is_valid(&fs));
    assert!(!Inode::new(2, 512).is_valid(&fs));
}

#[test]
fn create_then_find() {
    let (mut fs, root) = small();
    assert!(root.can_create(&fs, "a"));
    let (id, node) = root.create(&mut fs, "a").unwrap();
    assert_eq!(id, 1);
    assert!(node.is_file(&fs));
    assert_eq!(node.nlink(&fs), 1);
    let (found, same) = root.find(&fs, "a").unwrap();
    assert_eq!(found, 1);
    assert_eq!(contents(&same, &fs), Vec::<u8>::new());
    assert!(root.find(&fs, "b").is_none());
    // a second file of that name is refused and changes nothing
    assert!(root.create(&mut fs, "a").is_none());
    assert_eq!(root.ls(&fs), vec!["a".to_string()]);
    assert_eq!(root.create(&mut fs, "b").unwrap().0, 2);
    assert_eq!(root.ls(&fs), vec!["a".to_string(), "b".to_string()]);
    assert_eq!(root.find(&fs, "a").unwrap().0, 1);
}

#[test]
fn ls_shows_names_as_text() {
    let (mut fs, root) = small();
    root.create(&mut fs, "grüße").unwrap();
    root.create(&mut fs, "b").unwrap();
    assert_eq!(root.ls(&fs), vec!["grüße".to_string(), "b".to_string()]);
}

#[test]
fn names_stay_text() {
    let (mut fs, root) = small();
    root.create(&mut fs, "\u{e4}\0\u{e4}").unwrap();
    root.create(&mut fs, "b").unwrap();
    root.hard_link(&mut fs, "\u{4f60}", "b").unwrap();
    assert!(root.can_list(&fs));
    assert_eq!(root.ls(&fs), vec!["\u{e4}", "b", "\u{4f60}"]);
    // a record that is no text
    root.write_at(&mut fs, 32, &[0xff, 0xfe]);
    assert!(!root.can_list(&fs));
    root.write_at(&mut fs, 32, &[0]);
    assert!(root.can_list(&fs));
    assert_eq!(root.ls(&fs), vec!["\u{e4}", "\u{4f60}"]);
}

#[test]
fn handles_stay_valid() {
    let (mut fs, root) = small();
    let a = root.create(&mut fs, "a").unwrap().1;
    a.write_at(&mut fs, 0, b"x");
    root.create(&mut fs, "b").unwrap();
    root.hard_link(&mut fs, "c", "b").unwrap();
    root.unlink(&mut fs, "c");
    root.unlink(&mut fs, "c");
    assert!(a.is_valid(&fs) && a.is_file(&fs));
    assert!(root.is_valid(&fs) && !root.is_file(&fs));
    assert_eq!(contents(&a, &fs), b"x");
}

#[test]
fn read_after_write() {
    let (mut fs, root) = small();
    let node = root.create(&mut fs, "a").unwrap().1;
    let data: Vec<u8> = (0..1500).map(|i| (i % 251) as u8).collect();
    assert!(node.can_write(&fs, 0, data.len()));
    assert_eq!(node.write_at(&mut fs, 0, &data), 1500);
    assert_eq!(contents(&node, &fs), data);
    // three blocks for the file, one for the directory
    assert_eq!(fs.free_blocks(), 12);
    let mut part = [0u8; 10];
    assert_eq!(node.read_at(&fs, 1495, &mut part), 5);
    assert_eq!(&part[..5], &data[1495..]);
    assert_eq!(&part[5..], &[0u8; 5]);
    assert_eq!(node.read_at(&fs, 1500, &mut part), 0);
    assert_eq!(node.read_at(&fs, usize::MAX, &mut part), 0);
}

#[test]
fn write_is_local() {
    let (mut fs, root) = small();
    let a = root.create(&mut fs, "a").unwrap().1;
    let b = root.create(&mut fs, "b").unwrap().1;
    a.write_at(&mut fs, 0, &[1u8; 600]);
    b.write_at(&mut fs, 0, &[2u8; 600]);
    a.write_at(&mut fs, 590, &[3u8; 20]);
    let mut want = vec![1u8; 590];
    want.extend_from_slice(&[3u8; 20]);
    assert_eq!(contents(&a, &fs), want);
    assert_eq!(contents(&b, &fs), vec![2u8; 600]);
    // inside the file the length stays
    a.write_at(&mut fs, 5, &[9u8; 2]);
    assert_eq!(contents(&a, &fs).len(), 610);
    assert_eq!(contents(&a, &fs)[4..8], [1, 9, 9, 1]);
}

#[test]
fn write_past_the_end_leaves_zeros() {
    let (mut fs, root) = small();
    let a = root.create(&mut fs, "a").unwrap().1;
    a.write_at(&mut fs, 0, &[7u8; 700]);
    a.clear(&mut fs);
    a.write_at(&mut fs, 0, &[1u8]);
    assert_eq!(a.write_at(&mut fs, 1000, &[2u8, 2]), 2);
    let got = contents(&a, &fs);
    assert_eq!(got.len(), 1002);
    assert_eq!(got[0], 1);
    assert!(got[1..1000].iter().all(|b| *b == 0));
    assert_eq!(&got[1000..], &[2, 2]);
}

#[test]
fn full_device_is_foreseen() {
    let (mut fs, root) = small();
    let a = root.create(&mut fs, "a").unwrap().1;
    assert_eq!(fs.free_blocks(), 15);
    assert!(a.can_write(&fs, 0, 15 * 512));
    assert!(!a.can_write(&fs, 0, 15 * 512 + 1));
    assert!(!a.can_write(&fs, usize::MAX, 1));
    a.write_at(&mut fs, 0, &vec![5u8; 15 * 512]);
    assert_eq!(fs.free_blocks(), 0);
    assert!(a.can_write(&fs, 100, 100));
    // the directory's one block still has room for records
    assert!(root.can_create(&fs, "b"));
}

#[test]
fn inodes_run_out() {
    let (mut fs, root) = small();
    for name in ["1", "2", "3", "4", "5", "6", "7"] {
        assert!(root.can_create(&fs, name));
        root.create(&mut fs, name).unwrap();
    }
    assert!(!root.can_create(&fs, "8"));
    assert!(root.can_create(&fs, "7"));
    assert!(root.create(&mut fs, "7").is_none());
}

#[test]
fn clear_gives_blocks_back() {
    let (mut fs, root) = small();
    let a = root.create(&mut fs, "a").unwrap().1;
    a.write_at(&mut fs, 0, &[7u8; 1025]);
    assert_eq!(fs.free_blocks(), 12);
    a.clear(&mut fs);
    assert_eq!(fs.free_blocks(), 15);
    assert_eq!(contents(&a, &fs), Vec::<u8>::new());
    assert_eq!(a.nlink(&fs), 1);
}

#[test]
fn hard_link_adds_a_name() {
    let (mut fs, root) = small();
    let a = root.create(&mut fs, "a").unwrap().1;
    a.write_at(&mut fs, 0, b"hello");
    assert!(root.can_link(&fs, "b", "a"));
    let linked = root.hard_link(&mut fs, "b", "a").unwrap();
    assert_eq!(linked.nlink(&fs), 2);
    assert_eq!(root.find(&fs, "b").unwrap().0, 1);
    assert_eq!(contents(&root.find(&fs, "b").unwrap().1, &fs), b"hello");
    assert_eq!(root.ls(&fs), vec!["a".to_string(), "b".to_string()]);
    // no target, no link
    assert!(root.hard_link(&mut fs, "c", "nope").is_none());
    assert_eq!(root.ls(&fs).len(), 2);
    // a regular file is no directory
    assert!(a.hard_link(&mut fs, "c", "a").is_none());
    // the first record of a name wins
    root.create(&mut fs, "c").unwrap();
    root.hard_link(&mut fs, "c", "a").unwrap();
    assert_eq!(root.find(&fs, "c").unwrap().0, 2);
    assert_eq!(a.nlink(&fs), 3);
}

#[test]
fn unlink_keeps_a_linked_file() {
    let (mut fs, root) = small();
    root.create(&mut fs, "a").unwrap().1.write_at(&mut fs, 0, b"hello");
    root.hard_link(&mut fs, "b", "a").unwrap();
    assert!(root.unlink(&mut fs, "b"));
    let (id, node) = root.find(&fs, "b").unwrap();
    assert_eq!(id, 1);
    assert_eq!(node.nlink(&fs), 1);
    assert_eq!(contents(&node, &fs), b"hello");
    assert_eq!(root.ls(&fs), vec!["a".to_string(), "b".to_string()]);
}

#[test]
fn unlink_of_the_last_link_removes_the_file() {
    let (mut fs, root) = small();
    root.create(&mut fs, "a").unwrap().1.write_at(&mut fs, 0, &[1u8; 2000]);
    root.create(&mut fs, "b").unwrap();
    assert_eq!(fs.free_blocks(), 11);
    assert!(root.can_unlink(&fs, "a"));
    assert!(root.unlink(&mut fs, "a"));
    assert!(root.find(&fs, "a").is_none());
    assert_eq!(root.ls(&fs), vec!["b".to_string()]);
    assert_eq!(fs.free_blocks(), 15);
    assert!(!root.unlink(&mut fs, "a"));
    // inode and directory slot are used again
    let (id, node) = root.create(&mut fs, "c").unwrap();
    assert_eq!(id, 1);
    assert_eq!(contents(&node, &fs), Vec::<u8>::new());
    assert_eq!(root.ls(&fs), vec!["c".to_string(), "b".to_string()]);
    let mut raw = [0u8; 128];
    assert_eq!(root.read_at(&fs, 0, &mut raw), 2 * DIRENT_SZ);
}

#[test]
fn create_then_unlink_keeps_names_in_order() {
    let (mut fs, root) = small();
    for name in ["a", "b", "c"] {
        root.create(&mut fs, name).unwrap();
    }
    // at the end of the directory
    root.create(&mut fs, "x").unwrap();
    assert!(root.unlink(&mut fs, "x"));
    assert_eq!(root.ls(&fs), vec!["a", "b", "c"]);
    // in a cleared slot in the middle
    assert!(root.unlink(&mut fs, "b"));
    root.create(&mut fs, "y").unwrap();
    assert_eq!(root.ls(&fs), vec!["a", "y", "c"]);
    assert!(root.unlink(&mut fs, "y"));
    assert_eq!(root.ls(&fs), vec!["a", "c"]);
}

#[test]
fn names_stay_distinct() {
    let (mut fs, root) = small();
    for name in ["a", "b", "a", "c", "b"] {
        root.create(&mut fs, name);
        let mut names = root.ls(&fs);
        names.sort();
        let count = names.len();
        names.dedup();
        assert_eq!(names.len(), count);
    }
    assert_eq!(root.ls(&fs), vec!["a", "b", "c"]);
    // a cleared slot before a record of the name is not filled with the name again
    assert!(root.unlink(&mut fs, "a"));
    assert!(root.create(&mut fs, "c").is_none());
    assert_eq!(root.ls(&fs), vec!["b", "c"]);
    assert!(root.create(&mut fs, "a").is_some());
    assert_eq!(root.ls(&fs), vec!["a", "b", "c"]);
    // a hard link under a name of its own
    root.hard_link(&mut fs, "d", "b").unwrap();
    assert_eq!(root.ls(&fs), vec!["a", "b", "c", "d"]);
    // one under a name that is taken makes a second record of that name
    root.hard_link(&mut fs, "c", "b").unwrap();
    assert_eq!(root.ls(&fs), vec!["a", "b", "c", "d", "c"]);
}

#[test]
fn unlink_is_foreseen() {
    let (mut fs, root) = small();
    root.create(&mut fs, "a").unwrap();
    root.hard_link(&mut fs, "b", "a").unwrap();
    assert!(root.unlink(&mut fs, "a"));
    assert!(root.unlink(&mut fs, "a"));
    // the name "b" is left without an inode
    assert_eq!(root.ls(&fs), vec!["b".to_string()]);
    assert!(!root.can_unlink(&fs, "b"));
    assert!(root.can_unlink(&fs, "a"));
}

#[test]
fn remove_dirent_clears_every_record_of_the_name() {
    let (mut fs, root) = small();
    root.create(&mut fs, "a").unwrap();
    root.create(&mut fs, "b").unwrap();
    root.hard_link(&mut fs, "a", "b").unwrap();
    assert_eq!(root.ls(&fs).len(), 3);
    root.remove_dirent(&mut fs, "a");
    assert_eq!(root.ls(&fs), vec!["b".to_string()]);
    root.remove_dirent(&mut fs, "zzz");
    assert_eq!(root.ls(&fs), vec!["b".to_string()]);
}

#[test]
fn dirents_filter_keeps_what_the_filter_keeps() {
    let (mut fs, root) = small();
    for name in ["a1", "b", "a2"] {
        root.create(&mut fs, name).unwrap();
    }
    let kept = root.dirents_filter(&fs, |rec: &DirEntry| rec.name().starts_with('a'));
    let names: Vec<&str> = kept.iter().map(|rec| rec.name()).collect();
    assert_eq!(names, vec!["a1", "a2"]);
    assert_eq!(kept[1].inode_number(), 3);
    assert_eq!(root.dirents_filter(&fs, |_: &DirEntry| false).len(), 0);
    assert_eq!(root.dirents_filter(&fs, |_: &DirEntry| true).len(), 3);
}

#[test]
fn directory_grows_over_blocks() {
    let mut fs = EasyFileSystem::create(2, 40, 8);
    let root = Inode::new(2, 0);
    for i in 0..39 {
        root.create(&mut fs, &format!("f{}", i)).unwrap();
    }
    assert_eq!(root.ls(&fs).len(), 39);
    assert_eq!(fs.free_blocks(), 5);
    assert_eq!(root.find(&fs, "f38").unwrap().0, 39);
    assert_eq!(root.find(&fs, "f0").unwrap().0, 1);
}

#[test]
fn blocks_are_neither_lost_nor_made() {
    let (mut fs, root) = small();
    for round in 0..5 {
        let name = format!("r{}", round);
        let node = root.create(&mut fs, &name).unwrap().1;
        node.write_at(&mut fs, 100, &[9u8; 3000]);
        node.clear(&mut fs);
        node.write_at(&mut fs, 0, &[9u8; 512]);
        assert_eq!(fs.free_blocks(), 14);
        assert!(root.unlink(&mut fs, &name));
        assert_eq!(fs.free_blocks(), 15);
    }
}
