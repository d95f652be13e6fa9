//! Virtual filesystem layer over the block-level file system.

use crate::directory::{erase_first, lemma_erase_step};
use crate::efs::EasyFileSystem;
use crate::layout::{
    blocks_for, entry_name, lemma_empty_record, lemma_entry_record, DirEntry,
    DiskInode, DiskInodeType, DIRENT_SZ, NAME_LENGTH_LIMIT,
};
use crate::model::{
    append, cleared, entries, entry_at, entry_count, erase, listed, listing, named, overwrite,
    read_into, select, span, FsView,
};
use crate::search::{first_index, lemma_first_index, lemma_first_index_is};
use std::sync::Arc;
use vstd::prelude::*;
use vstd::string::*;
use vstd::utf8::*;

verus! {

/// A handle on an inode: its block and offset in the inode area.
#[derive(Clone, Copy)]
pub struct Inode {
    block_id: usize,
    block_offset: usize,
}

impl View for Inode {
    type V = (int, int);

    closed spec fn view(&self) -> (int, int) {
        (self.block_id as int, self.block_offset as int)
    }
}

/// Every inode number of the area has a position, and the slot there is its own.
pub proof fn lemma_position(fs: FsView, s: int)
    requires
        0 <= s < fs.files.len(),
    ensures
        fs.is_position(fs.position(s)),
        fs.slot(fs.position(s)) == s,
{
}

/// Marks behind the end of the selection do not count.
proof fn lemma_select_prefix<A>(s: Seq<A>, marks: Seq<bool>, more: Seq<bool>)
    requires
        s.len() <= marks.len(),
        marks.len() <= more.len(),
        more.take(marks.len() as int) == marks,
    ensures
        select(s, more) == select(s, marks),
    decreases s.len(),
{
    if s.len() > 0 {
        lemma_select_prefix(s.drop_last(), marks, more);
        assert(more.take(marks.len() as int)[s.len() - 1] == marks[s.len() - 1]);
    }
}

/// One element more adds itself to the filtered prefix, or nothing.
proof fn lemma_filter_step<A>(s: Seq<A>, p: spec_fn(A) -> bool, i: int)
    requires
        0 <= i < s.len(),
    ensures
        s.take(i + 1).filter(p) == if p(s[i]) {
            s.take(i).filter(p).push(s[i])
        } else {
            s.take(i).filter(p)
        },
{
    reveal(Seq::filter);
    assert(s.take(i + 1).drop_last() =~= s.take(i));
}

/// The filtered prefix is a prefix of the filtered sequence.
proof fn lemma_filter_prefix<A>(s: Seq<A>, p: spec_fn(A) -> bool, n: int)
    requires
        0 <= n <= s.len(),
    ensures
        s.take(n).filter(p).len() <= s.filter(p).len(),
        forall|j: int|
            0 <= j < s.take(n).filter(p).len() ==> s.filter(p)[j] == #[trigger] s.take(n).filter(
                p,
            )[j],
    decreases s.len() - n,
{
    if n < s.len() {
        lemma_filter_step(s, p, n);
        lemma_filter_prefix(s, p, n + 1);
        let longer = s.take(n + 1).filter(p);
        assert forall|j: int| 0 <= j < s.take(n).filter(p).len() implies s.filter(p)[j]
            == #[trigger] s.take(n).filter(p)[j] by {
            assert(longer[j] == s.take(n).filter(p)[j]);
        }
    } else {
        assert(s.take(n) =~= s);
    }
}

impl Inode {
    /// Create a vfs inode
    pub fn new(block_id: u32, block_offset: usize) -> (node: Self)
        ensures
            node@ == (block_id as int, block_offset as int),
    {
        Inode { block_id: block_id as usize, block_offset }
    }

    /// The inode slot that this handle leads to
    fn slot(&self, fs: &EasyFileSystem) -> (s: usize)
        requires
            fs.wf(),
            fs@.is_position(self@),
        ensures
            s == fs@.slot(self@),
            s < fs@.files.len(),
    {
        fs.slot_at(self.block_id, self.block_offset)
    }

    /// Record `i` of the directory in slot `s`
    fn dirent(fs: &EasyFileSystem, s: usize, i: usize) -> (rec: DirEntry)
        requires
            fs.wf(),
            s < fs@.files.len(),
            i < entry_count(fs@.files[s as int].content),
        ensures
            rec@ == entry_at(fs@.files[s as int].content, i as int),
    {
        let ghost content = fs@.files[s as int].content;
        let mut raw: [u8; DIRENT_SZ] = [0u8; DIRENT_SZ];
        proof {
            fs.lemma_wf_view();
        }
        let n: usize = fs.read(s, DIRENT_SZ * i, &mut raw);
        assert(n == DIRENT_SZ);
        assert(raw@ =~= entry_at(content, i as int));
        DirEntry::from_bytes(raw.as_slice())
    }

    /// Records in the directory in slot `s`
    fn dirent_count(fs: &EasyFileSystem, s: usize) -> (n: usize)
        requires
            fs.wf(),
            s < fs@.files.len(),
        ensures
            n == entry_count(fs@.files[s as int].content),
    {
        fs.size(s) as usize / DIRENT_SZ
    }

    /// Find inode under a disk inode by name
    fn find_inode_id(name: &str, fs: &EasyFileSystem, s: usize) -> (id: Option<u32>)
        requires
            fs.wf(),
            s < fs@.files.len(),
            fs@.files[s as int].kind is Directory,
        ensures
            id == fs@.find(s as int, name.spec_bytes()),
    {
        let file_count: usize = Self::dirent_count(fs, s);
        let ghost content = fs@.files[s as int].content;
        let ghost want = named(name.spec_bytes());
        let mut i: usize = 0;
        while i < file_count
            invariant
                fs.wf(),
                s < fs@.files.len(),
                content == fs@.files[s as int].content,
                want == named(name.spec_bytes()),
                file_count == entry_count(content),
                i <= file_count,
                forall|j: int| 0 <= j < i ==> !want(#[trigger] entries(content)[j]),
            decreases file_count - i,
        {
            let dirent = Self::dirent(fs, s, i);
            if dirent.is_named(name) {
                proof {
                    lemma_first_index_is(entries(content), want, i as int);
                }
                return Some(dirent.inode_number());
            }
            i = i + 1;
        }
        proof {
            lemma_first_index_is(entries(content), want, file_count as int);
        }
        None
    }

    /// Find inode under current inode by name
    pub fn find(&self, fs: &EasyFileSystem, name: &str) -> (found: Option<(u64, Arc<Inode>)>)
        requires
            fs.wf(),
            fs@.is_position(self@),
            fs@.at(self@).kind is Directory,
        ensures
            match fs@.find(fs@.slot(self@), name.spec_bytes()) {
                Some(id) => found matches Some(f) && f.0 == id && f.1@ == fs@.position(id as int),
                None => found is None,
            },
    {
        let s: usize = self.slot(fs);
        match Self::find_inode_id(name, fs, s) {
            Some(inode_id) => {
                let (block_id, block_offset) = fs.get_disk_inode_pos(inode_id);
                Some((inode_id as u64, Arc::new(Self::new(block_id, block_offset))))
            },
            None => None,
        }
    }

    /// Increase the size of a disk inode
    fn increase_size(new_size: u32, fs: &mut EasyFileSystem, s: usize)
        requires
            old(fs).wf(),
            s < old(fs)@.files.len(),
            new_size >= old(fs)@.files[s as int].content.len() ==> old(fs)@.demand(
                s as int,
                new_size as int,
            ) <= old(fs)@.free_blocks,
        ensures
            final(fs).wf(),
            final(fs)@ == old(fs)@.grow(s as int, new_size as int),
    {
        let size: u32 = fs.size(s);
        if new_size < size {
            return;
        }
        let blocks_needed: u32 = fs.blocks_num_needed(s, new_size);
        let mut v: Vec<u32> = Vec::new();
        let ghost start = fs@;
        proof {
            fs.lemma_spare_none();
            assert(v@ =~= Seq::empty());
        }
        let mut i: u32 = 0;
        while i < blocks_needed
            invariant
                fs.wf(),
                i <= blocks_needed <= start.free_blocks,
                v@.len() == i,
                fs.spare(v@),
                fs@ == (FsView { free_blocks: (start.free_blocks - i) as nat, ..start }),
            decreases blocks_needed - i,
        {
            let b: u32 = fs.alloc_data();
            v.push(b);
            i = i + 1;
        }
        fs.extend(s, new_size, v);
        assert(fs@ =~= start.grow(s as int, new_size as int));
    }

    /// Give back blocks that no inode lists any more
    fn dealloc_blocks(fs: &mut EasyFileSystem, blocks: &Vec<u32>)
        requires
            old(fs).wf(),
            old(fs).loose(blocks@),
        ensures
            final(fs).wf(),
            final(fs)@ == (FsView {
                free_blocks: (old(fs)@.free_blocks + blocks@.len()) as nat,
                ..old(fs)@
            }),
    {
        let ghost start = fs@;
        let mut i: usize = 0;
        assert(blocks@.skip(0) =~= blocks@);
        while i < blocks.len()
            invariant
                i <= blocks@.len(),
                fs.wf(),
                fs.loose(blocks@.skip(i as int)),
                fs@ == (FsView { free_blocks: (start.free_blocks + i) as nat, ..start }),
            decreases blocks@.len() - i,
        {
            let ghost rest = blocks@.skip(i as int);
            proof {
                fs.lemma_loose_first(rest);
                assert(rest.drop_first() =~= blocks@.skip(i + 1));
            }
            fs.dealloc_data(blocks[i]);
            i = i + 1;
        }
    }

    /// Put a record behind the last one of the directory in slot `s`
    fn append_dirent(dirent: &DirEntry, fs: &mut EasyFileSystem, s: usize)
        requires
            old(fs).wf(),
            s < old(fs)@.files.len(),
            dirent@.len() == 32,
            old(fs)@.append_fits(s as int),
        ensures
            final(fs).wf(),
            final(fs)@ == old(fs)@.with_content(
                s as int,
                append(old(fs)@.files[s as int].content, dirent@),
            ),
    {
        let ghost start = fs@;
        let ghost content = fs@.files[s as int].content;
        // append file in the dirent
        let file_count: usize = Self::dirent_count(fs, s);
        let new_size: usize = (file_count + 1) * DIRENT_SZ;
        // increase size
        Self::increase_size(new_size as u32, fs, s);
        // write dirent
        let ghost grown = fs@.files[s as int].content;
        let raw: &[u8] = dirent.as_bytes();
        fs.write(s, file_count * DIRENT_SZ, raw);
        proof {
            assert(raw@.take(32) =~= raw@);
            assert(overwrite(grown, 32 * file_count, raw@) =~= append(content, dirent@));
            assert(fs@ =~= start.with_content(s as int, append(content, dirent@)));
        }
    }

    /// Create hard link
    pub fn hard_link(&self, fs: &mut EasyFileSystem, name: &str, to: &str) -> (linked: Option<
        Arc<Inode>,
    >)
        requires
            old(fs).wf(),
            old(fs)@.is_position(self@),
            old(fs)@.at(self@).kind is Directory ==> (old(fs)@.find(
                old(fs)@.slot(self@),
                to.spec_bytes(),
            ) matches Some(id) ==> old(fs)@.link_fits(
                old(fs)@.slot(self@),
                name.spec_bytes(),
                id as int,
            )),
        ensures
            final(fs).wf(),
            match old(fs)@.find(old(fs)@.slot(self@), to.spec_bytes()) {
                Some(id) if old(fs)@.at(self@).kind is Directory => {
                    &&& linked matches Some(node) && node@ == old(fs)@.position(id as int)
                    &&& final(fs)@ == old(fs)@.link(
                        old(fs)@.slot(self@),
                        name.spec_bytes(),
                        id as int,
                    )
                },
                _ => linked is None && final(fs)@ == old(fs)@,
            },
    {
        if self.is_file(fs) {
            return None;
        }
        let (to_inode_id, to_inode) = match self.find(fs, to) {
            Some(found) => found,
            None => {
                return None;
            },
        };
        let s: usize = self.slot(fs);
        proof {
            fs.lemma_wf_view();
            lemma_entry_record(name.spec_bytes(), to_inode_id as u32);
        }
        let dirent = DirEntry::new(name, to_inode_id as u32);
        Self::append_dirent(&dirent, fs, s);
        proof {
            lemma_position(fs@, to_inode_id as int);
        }
        let t: usize = to_inode.slot(fs);
        let count: u32 = fs.nlink(t);
        fs.set_nlink(t, count + 1);
        Some(to_inode)
    }

    /// Take one link from the inode called `name`; with the last link its data, its
    /// inode and the records called `name` go
    pub fn unlink(&self, fs: &mut EasyFileSystem, name: &str) -> (done: bool)
        requires
            old(fs).wf(),
            old(fs)@.is_position(self@),
            old(fs)@.at(self@).kind is Directory,
            old(fs)@.find(old(fs)@.slot(self@), name.spec_bytes()) matches Some(id) ==> old(
                fs,
            )@.unlink_fits(id as int),
        ensures
            final(fs).wf(),
            match old(fs)@.find(old(fs)@.slot(self@), name.spec_bytes()) {
                Some(id) => {
                    &&& done
                    &&& final(fs)@ == old(fs)@.unlink(
                        old(fs)@.slot(self@),
                        name.spec_bytes(),
                        id as int,
                    )
                },
                None => !done && final(fs)@ == old(fs)@,
            },
    {
        let (target_id, target) = match self.find(fs, name) {
            Some(found) => found,
            None => {
                return false;
            },
        };
        proof {
            fs.lemma_wf_view();
            lemma_position(fs@, target_id as int);
        }
        let t: usize = target.slot(fs);
        let count: u32 = fs.nlink(t) - 1;
        fs.set_nlink(t, count);
        if count == 0 {
            let ghost dropped = fs@;
            // Dealloc data
            let data_blocks: Vec<u32> = fs.clear_size(t);
            Self::dealloc_blocks(fs, &data_blocks);
            assert(fs@ =~= dropped.clear(t as int));
            // Dealloc inode
            fs.dealloc_inode(target_id as u32);
            // Remove corresponding dirent
            self.remove_dirent(fs, name);
        }
        true
    }

    /// Put a record into the first cleared slot of the directory, if there is one
    fn try_modify_empty_dirent(&self, fs: &mut EasyFileSystem, dirent: &DirEntry) -> (done: bool)
        requires
            old(fs).wf(),
            old(fs)@.is_position(self@),
            dirent@.len() == 32,
        ensures
            final(fs).wf(),
            ({
                let d = old(fs)@.slot(self@);
                let content = old(fs)@.files[d].content;
                let k = first_index(entries(content), cleared());
                &&& done == (k < entry_count(content))
                &&& final(fs)@ == if done {
                    old(fs)@.with_content(d, overwrite(content, 32 * k, dirent@))
                } else {
                    old(fs)@
                }
            }),
    {
        let s: usize = self.slot(fs);
        let ghost content = fs@.files[s as int].content;
        let file_count: usize = Self::dirent_count(fs, s);
        let mut i: usize = 0;
        while i < file_count
            invariant
                fs.wf(),
                fs@ == old(fs)@,
                s == fs@.slot(self@),
                s < fs@.files.len(),
                content == fs@.files[s as int].content,
                file_count == entry_count(content),
                i <= file_count,
                dirent@.len() == 32,
                forall|j: int| 0 <= j < i ==> !cleared()(#[trigger] entries(content)[j]),
            decreases file_count - i,
        {
            let empty = Self::dirent(fs, s, i);
            if empty.is_cleared() {
                proof {
                    fs.lemma_wf_view();
                    lemma_first_index_is(entries(content), cleared(), i as int);
                }
                let raw: &[u8] = dirent.as_bytes();
                fs.write(s, i * DIRENT_SZ, raw);
                assert(raw@.take(32) =~= raw@);
                return true;
            }
            i = i + 1;
        }
        proof {
            lemma_first_index_is(entries(content), cleared(), file_count as int);
        }
        false
    }

    /// Create inode under current inode by name
    pub fn create(&self, fs: &mut EasyFileSystem, name: &str) -> (made: Option<(u64, Arc<Inode>)>)
        requires
            old(fs).wf(),
            old(fs)@.is_position(self@),
            old(fs)@.at(self@).kind is Directory,
            old(fs)@.find(old(fs)@.slot(self@), name.spec_bytes()) is None ==> old(
                fs,
            )@.create_fits(old(fs)@.slot(self@), name.spec_bytes()),
        ensures
            final(fs).wf(),
            match old(fs)@.find(old(fs)@.slot(self@), name.spec_bytes()) {
                Some(_) => made is None && final(fs)@ == old(fs)@,
                None => {
                    &&& made matches Some(f) && f.0 == old(fs)@.next_inode() && f.1@ == old(
                        fs,
                    )@.position(old(fs)@.next_inode())
                    &&& final(fs)@ == old(fs)@.create(old(fs)@.slot(self@), name.spec_bytes())
                },
            },
    {
        let s: usize = self.slot(fs);
        // has the file been created?
        if Self::find_inode_id(name, fs, s).is_some() {
            return None;
        }
        let ghost start = fs@;
        proof {
            fs.lemma_wf_view();
            lemma_first_index(start.inode_used, crate::model::unset());
            lemma_entry_record(name.spec_bytes(), start.next_inode() as u32);
        }
        // create a new file
        let new_inode_id: u32 = fs.alloc_inode();
        // initialize inode
        fs.initialize(new_inode_id as usize, DiskInodeType::File);
        let ghost made = fs@;
        assert(made =~= start.allocate(DiskInodeType::File));
        // write dirent
        let dirent = DirEntry::new(name, new_inode_id);
        if !self.try_modify_empty_dirent(fs, &dirent) {
            Self::append_dirent(&dirent, fs, s);
        }
        let (block_id, block_offset) = fs.get_disk_inode_pos(new_inode_id);
        // return inode
        Some((new_inode_id as u64, Arc::new(Self::new(block_id, block_offset))))
    }

    /// Clear every record called `name`
    pub fn remove_dirent(&self, fs: &mut EasyFileSystem, name: &str)
        requires
            old(fs).wf(),
            old(fs)@.is_position(self@),
        ensures
            final(fs).wf(),
            final(fs)@ == old(fs)@.with_content(
                old(fs)@.slot(self@),
                erase(old(fs)@.at(self@).content, name.spec_bytes()),
            ),
    {
        let s: usize = self.slot(fs);
        let ghost start = fs@;
        let ghost content = fs@.files[s as int].content;
        let file_count: usize = Self::dirent_count(fs, s);
        proof {
            fs.lemma_wf_view();
            assert(content =~= erase_first(content, name.spec_bytes(), 0));
            assert(fs@ =~= start.with_content(s as int, content));
        }
        let mut i: usize = 0;
        while i < file_count
            invariant
                fs.wf(),
                start.slot(self@) == s,
                s < start.files.len(),
                start.files[s as int].content == content,
                content.len() <= u32::MAX,
                file_count == entry_count(content),
                i <= file_count,
                fs@ == start.with_content(
                    s as int,
                    erase_first(content, name.spec_bytes(), i as int),
                ),
            decreases file_count - i,
        {
            let ghost now = fs@.files[s as int].content;
            proof {
                lemma_erase_step(content, name.spec_bytes(), i as int);
            }
            let dirent = Self::dirent(fs, s, i);
            if dirent.is_named(name) {
                let empty = DirEntry::empty();
                let raw: &[u8] = empty.as_bytes();
                proof {
                    lemma_empty_record();
                    assert(raw@.take(32) =~= raw@);
                }
                fs.write(s, i * DIRENT_SZ, raw);
                assert(fs@ =~= start.with_content(s as int, overwrite(now, 32 * i, raw@)));
            }
            i = i + 1;
        }
        proof {
            assert(erase_first(content, name.spec_bytes(), file_count as int) =~= erase(
                content,
                name.spec_bytes(),
            ));
        }
    }

    /// List direntries with filter applied
    pub fn dirents_filter<F: Fn(&DirEntry) -> bool>(&self, fs: &EasyFileSystem, f: F) -> (kept: Vec<
        DirEntry,
    >)
        requires
            fs.wf(),
            fs@.is_position(self@),
            forall|i: int, rec: DirEntry|
                0 <= i < entry_count(fs@.at(self@).content) && rec@ == #[trigger] entries(
                    fs@.at(self@).content,
                )[i] ==> #[trigger] call_requires(f, (&rec,)),
        ensures
            exists|all: Seq<DirEntry>, marks: Seq<bool>|
                {
                    &&& all.len() == marks.len() == entry_count(fs@.at(self@).content)
                    &&& forall|i: int|
                        0 <= i < all.len() ==> (#[trigger] all[i])@ == entries(
                            fs@.at(self@).content,
                        )[i] && call_ensures(f, (&all[i],), marks[i])
                    &&& kept@ == #[trigger] select(all, marks)
                },
    {
        let s: usize = self.slot(fs);
        let ghost content = fs@.files[s as int].content;
        let file_count: usize = Self::dirent_count(fs, s);
        let mut v: Vec<DirEntry> = Vec::new();
        let ghost mut all: Seq<DirEntry> = Seq::empty();
        let ghost mut marks: Seq<bool> = Seq::empty();
        let mut i: usize = 0;
        while i < file_count
            invariant
                fs.wf(),
                s < fs@.files.len(),
                content == fs@.files[s as int].content,
                file_count == entry_count(content),
                i <= file_count,
                all.len() == i,
                marks.len() == i,
                forall|j: int|
                    0 <= j < i ==> (#[trigger] all[j])@ == entries(content)[j] && call_ensures(
                        f,
                        (&all[j],),
                        marks[j],
                    ),
                v@ == select(all, marks),
                forall|j: int, rec: DirEntry|
                    0 <= j < file_count && rec@ == #[trigger] entries(content)[j]
                        ==> #[trigger] call_requires(f, (&rec,)),
            decreases file_count - i,
        {
            let dirent = Self::dirent(fs, s, i);
            assert(dirent@ == entries(content)[i as int]);
            let keep: bool = f(&dirent);
            proof {
                let longer = all.push(dirent);
                let more = marks.push(keep);
                assert(longer.drop_last() =~= all);
                assert(more.take(marks.len() as int) =~= marks);
                lemma_select_prefix(all, marks, more);
                all = longer;
                marks = more;
            }
            if keep {
                v.push(dirent);
            }
            i = i + 1;
        }
        v
    }

    /// List inodes under current inode
    pub fn ls(&self, fs: &EasyFileSystem) -> (names: Vec<String>)
        requires
            fs.wf(),
            fs@.is_position(self@),
            forall|i: int|
                0 <= i < listing(fs@.at(self@).content).len() ==> valid_utf8(
                    #[trigger] listing(fs@.at(self@).content)[i],
                ),
        ensures
            names@.len() == listing(fs@.at(self@).content).len(),
            forall|i: int|
                0 <= i < names@.len() ==> encode_utf8((#[trigger] names@[i])@) == listing(
                    fs@.at(self@).content,
                )[i],
    {
        let s: usize = self.slot(fs);
        let ghost content = fs@.files[s as int].content;
        let ghost recs = entries(content);
        let file_count: usize = Self::dirent_count(fs, s);
        let mut v: Vec<String> = Vec::new();
        let mut i: usize = 0;
        assert(recs.take(0).filter(listed()).len() == 0) by {
            reveal(Seq::filter);
        }
        while i < file_count
            invariant
                fs.wf(),
                s < fs@.files.len(),
                content == fs@.files[s as int].content,
                recs == entries(content),
                file_count == recs.len(),
                i <= file_count,
                forall|j: int|
                    0 <= j < listing(content).len() ==> valid_utf8(#[trigger] listing(content)[j]),
                v@.len() == recs.take(i as int).filter(listed()).len(),
                forall|j: int|
                    0 <= j < v@.len() ==> encode_utf8((#[trigger] v@[j])@) == entry_name(
                        recs.take(i as int).filter(listed())[j],
                    ),
            decreases file_count - i,
        {
            let ghost before = recs.take(i as int).filter(listed());
            let ghost after = recs.take(i + 1).filter(listed());
            let dirent = Self::dirent(fs, s, i);
            proof {
                lemma_filter_step(recs, listed(), i as int);
            }
            if !dirent.is_cleared() {
                proof {
                    lemma_filter_prefix(recs, listed(), i + 1);
                    assert(after.last() == dirent@);
                    let j = before.len() as int;
                    assert(recs.filter(listed())[j] == dirent@);
                    assert(listing(content)[j] == entry_name(dirent@));
                }
                let name: &str = dirent.name();
                v.push(name.to_owned());
            }
            i = i + 1;
        }
        assert(recs.take(file_count as int) =~= recs);
        v
    }

    /// Read data from current inode
    pub fn read_at(&self, fs: &EasyFileSystem, offset: usize, buf: &mut [u8]) -> (n: usize)
        requires
            fs.wf(),
            fs@.is_position(self@),
        ensures
            n == span(fs@.at(self@).content.len() as int, offset as int, old(buf)@.len() as int),
            final(buf)@ == read_into(fs@.at(self@).content, offset as int, old(buf)@),
            n <= old(buf)@.len() == final(buf)@.len(),
            offset < fs@.at(self@).content.len() ==> offset + n <= fs@.at(self@).content.len()
                && (n == old(buf)@.len() || offset + n == fs@.at(self@).content.len()),
            offset >= fs@.at(self@).content.len() ==> n == 0,
            forall|j: int|
                0 <= j < n ==> #[trigger] final(buf)@[j] == fs@.at(self@).content[offset + j],
            forall|j: int| n <= j < old(buf)@.len() ==> #[trigger] final(buf)@[j] == old(buf)@[j],
    {
        fs.read(self.slot(fs), offset, buf)
    }

    /// Write data to current inode
    pub fn write_at(&self, fs: &mut EasyFileSystem, offset: usize, buf: &[u8]) -> (n: usize)
        requires
            old(fs).wf(),
            old(fs)@.is_position(self@),
            offset + buf@.len() <= usize::MAX,
            old(fs)@.write_fits(old(fs)@.slot(self@), offset as int, buf@.len() as int),
        ensures
            final(fs).wf(),
            n == span(
                final(fs)@.at(self@).content.len() as int,
                offset as int,
                buf@.len() as int,
            ),
            final(fs)@ == old(fs)@.write(old(fs)@.slot(self@), offset as int, buf@),
    {
        let s: usize = self.slot(fs);
        let end: u64 = (offset + buf.len()) as u64;
        assert(end as u32 == end % 0x1_0000_0000) by (bit_vector);
        Self::increase_size(
            #[verifier::truncate]
            (end as u32),
            fs,
            s,
        );
        let n: usize = fs.write(s, offset, buf);
        n
    }

    /// Clear the data in current inode
    pub fn clear(&self, fs: &mut EasyFileSystem)
        requires
            old(fs).wf(),
            old(fs)@.is_position(self@),
        ensures
            final(fs).wf(),
            final(fs)@ == old(fs)@.clear(old(fs)@.slot(self@)),
    {
        let s: usize = self.slot(fs);
        let ghost start = fs@;
        let data_blocks_dealloc: Vec<u32> = fs.clear_size(s);
        assert(data_blocks_dealloc@.len() == blocks_for(start.files[s as int].content.len() as int));
        Self::dealloc_blocks(fs, &data_blocks_dealloc);
        assert(fs@ =~= start.clear(s as int));
    }

    /// Whether the current inode is a regular file
    pub fn is_file(&self, fs: &EasyFileSystem) -> (b: bool)
        requires
            fs.wf(),
            fs@.is_position(self@),
        ensures
            b == (fs@.at(self@).kind is File),
    {
        fs.is_file(self.slot(fs))
    }

    /// Link count of the current inode
    pub fn nlink(&self, fs: &EasyFileSystem) -> (n: u32)
        requires
            fs.wf(),
            fs@.is_position(self@),
        ensures
            n == fs@.at(self@).nlink,
    {
        fs.nlink(self.slot(fs))
    }
}

/// Tests of what the operations ask for, for callers that cannot know it.
impl Inode {
    /// Whether this handle leads to an inode of the file system
    pub fn is_valid(&self, fs: &EasyFileSystem) -> (b: bool)
        requires
            fs.wf(),
        ensures
            b == fs@.is_position(self@),
    {
        fs.holds(self.block_id, self.block_offset)
    }

    /// Whether there is room for one record more in a directory of `size` bytes
    fn can_append(fs: &EasyFileSystem, size: u32) -> (b: bool)
        requires
            fs.wf(),
        ensures
            b == ({
                let longer = 32 * (size as int / 32 + 1);
                &&& longer <= u32::MAX
                &&& blocks_for(longer) - blocks_for(size as int) <= fs@.free_blocks
            }),
    {
        let longer: u64 = 32 * (size as u64 / 32 + 1);
        if longer > u32::MAX as u64 {
            return false;
        }
        let demand: u32 = DiskInode::total_blocks(longer as u32) - DiskInode::total_blocks(size);
        demand as u64 <= fs.free_blocks() as u64
    }

    /// Whether `create` has room for a file called `name`, where there is none yet
    pub fn can_create(&self, fs: &EasyFileSystem, name: &str) -> (b: bool)
        requires
            fs.wf(),
            fs@.is_position(self@),
            fs@.at(self@).kind is Directory,
        ensures
            b == (fs@.find(fs@.slot(self@), name.spec_bytes()) is None ==> fs@.create_fits(
                fs@.slot(self@),
                name.spec_bytes(),
            )),
    {
        let s: usize = self.slot(fs);
        if Self::find_inode_id(name, fs, s).is_some() {
            return true;
        }
        let next: usize = fs.next_inode();
        let ghost made = fs@.allocate(DiskInodeType::File);
        let ghost content = fs@.files[s as int].content;
        proof {
            fs.lemma_wf_view();
            lemma_first_index(entries(content), cleared());
        }
        if name.as_bytes().len() > NAME_LENGTH_LIMIT || next >= fs.inode_count() {
            return false;
        }
        if next == s {
            assert(made.files[s as int].content == Seq::<u8>::empty());
            assert(entries(made.files[s as int].content) =~= Seq::<Seq<u8>>::empty());
            return Self::can_append(fs, 0);
        }
        let file_count: usize = Self::dirent_count(fs, s);
        let mut i: usize = 0;
        while i < file_count
            invariant
                fs.wf(),
                s == fs@.slot(self@),
                s < fs@.files.len(),
                content == fs@.files[s as int].content,
                content == fs@.allocate(DiskInodeType::File).files[s as int].content,
                name.spec_bytes().len() <= NAME_LENGTH_LIMIT,
                fs@.next_inode() < fs@.files.len(),
                file_count == entry_count(content),
                i <= file_count,
                forall|j: int| 0 <= j < i ==> !cleared()(#[trigger] entries(content)[j]),
            decreases file_count - i,
        {
            if Self::dirent(fs, s, i).is_cleared() {
                proof {
                    lemma_first_index_is(entries(content), cleared(), i as int);
                }
                return true;
            }
            i = i + 1;
        }
        proof {
            lemma_first_index_is(entries(content), cleared(), file_count as int);
        }
        Self::can_append(fs, fs.size(s))
    }

    /// Whether `hard_link` finds a sound inode and room for the name, where it links
    /// at all
    pub fn can_link(&self, fs: &EasyFileSystem, name: &str, to: &str) -> (b: bool)
        requires
            fs.wf(),
            fs@.is_position(self@),
        ensures
            b == (fs@.at(self@).kind is Directory ==> (fs@.find(
                fs@.slot(self@),
                to.spec_bytes(),
            ) matches Some(id) ==> fs@.link_fits(
                fs@.slot(self@),
                name.spec_bytes(),
                id as int,
            ))),
    {
        if self.is_file(fs) {
            return true;
        }
        let s: usize = self.slot(fs);
        match Self::find_inode_id(to, fs, s) {
            Some(id) => {
                (id as usize) < fs.inode_count() && name.as_bytes().len() <= NAME_LENGTH_LIMIT
                    && Self::can_append(fs, fs.size(s)) && fs.nlink(id as usize) < u32::MAX
            },
            None => true,
        }
    }

    /// Whether `unlink` finds a link to take, where it finds the name at all
    pub fn can_unlink(&self, fs: &EasyFileSystem, name: &str) -> (b: bool)
        requires
            fs.wf(),
            fs@.is_position(self@),
            fs@.at(self@).kind is Directory,
        ensures
            b == (fs@.find(fs@.slot(self@), name.spec_bytes()) matches Some(id)
                ==> fs@.unlink_fits(id as int)),
    {
        let s: usize = self.slot(fs);
        match Self::find_inode_id(name, fs, s) {
            Some(id) => {
                (id as usize) < fs.inode_count() && fs.nlink(id as usize) > 0 && (fs.nlink(
                    id as usize,
                ) != 1 || fs.in_use(id as usize))
            },
            None => true,
        }
    }

    /// Whether every listed name is text
    pub fn can_list(&self, fs: &EasyFileSystem) -> (b: bool)
        requires
            fs.wf(),
            fs@.is_position(self@),
        ensures
            b == forall|i: int|
                0 <= i < listing(fs@.at(self@).content).len() ==> valid_utf8(
                    #[trigger] listing(fs@.at(self@).content)[i],
                ),
    {
        let s: usize = self.slot(fs);
        let ghost content = fs@.files[s as int].content;
        let ghost recs = entries(content);
        let file_count: usize = Self::dirent_count(fs, s);
        let mut i: usize = 0;
        assert(recs.take(0).filter(listed()).len() == 0) by {
            reveal(Seq::filter);
        }
        while i < file_count
            invariant
                fs.wf(),
                s == fs@.slot(self@),
                s < fs@.files.len(),
                content == fs@.files[s as int].content,
                recs == entries(content),
                file_count == recs.len(),
                i <= file_count,
                forall|j: int|
                    0 <= j < recs.take(i as int).filter(listed()).len() ==> valid_utf8(
                        entry_name(#[trigger] recs.take(i as int).filter(listed())[j]),
                    ),
            decreases file_count - i,
        {
            let ghost before = recs.take(i as int).filter(listed());
            let dirent = Self::dirent(fs, s, i);
            proof {
                lemma_filter_step(recs, listed(), i as int);
            }
            if !dirent.is_cleared() && !dirent.has_text_name() {
                proof {
                    lemma_filter_prefix(recs, listed(), i + 1);
                    let j = before.len() as int;
                    assert(recs.take(i + 1).filter(listed())[j] == dirent@);
                    assert(recs.filter(listed())[j] == dirent@);
                    assert(!valid_utf8(listing(content)[j]));
                }
                return false;
            }
            i = i + 1;
        }
        assert(recs.take(file_count as int) =~= recs);
        true
    }

    /// Whether a write of `len` bytes at `offset` meets neither a full device nor a
    /// gap that it leaves open
    pub fn can_write(&self, fs: &EasyFileSystem, offset: usize, len: usize) -> (b: bool)
        requires
            fs.wf(),
            fs@.is_position(self@),
        ensures
            b == (offset + len <= usize::MAX && fs@.write_fits(
                fs@.slot(self@),
                offset as int,
                len as int,
            )),
    {
        let s: usize = self.slot(fs);
        if len > usize::MAX - offset {
            return false;
        }
        let wide: u64 = (offset + len) as u64;
        let end: u32 = (wide % 0x1_0000_0000) as u32;
        let size: u32 = fs.size(s);
        if offset as u64 > end as u64 && offset as u64 > size as u64 {
            return false;
        }
        if end < size {
            return true;
        }
        fs.blocks_num_needed(s, end) as u64 <= fs.free_blocks() as u64
    }
}

} // verus!
