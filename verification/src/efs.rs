//! The block-level file system: inode slots, data blocks and their bitmaps.
//!
//! A file's bytes lie in data blocks that its inode lists. The invariant keeps
//! the blocks of all inodes apart, so that a write to one file leaves every
//! other file as it was, and keeps every byte that no file has reached at zero,
//! so that a file grows with zeros.

use crate::layout::{blocks_for, DiskInode, DiskInodeType, BLOCK_SZ, INODES_PER_BLOCK, INODE_SZ};
use crate::model::{overwrite, read_into, span, unset, zeros, FileView, FsView};
use crate::search::{
    count_false, lemma_count_false_all, lemma_count_false_none, lemma_count_false_update,
    lemma_first_index_is,
};
use vstd::prelude::*;

verus! {

/// A file system on a device of fixed size.
pub struct EasyFileSystem {
    inode_area_start_block: u32,
    data_area_start_block: u32,
    inode_used: Vec<bool>,
    data_used: Vec<bool>,
    inodes: Vec<DiskInode>,
    data: Vec<u8>,
}

impl View for EasyFileSystem {
    type V = FsView;

    closed spec fn view(&self) -> FsView {
        FsView {
            inode_start: self.inode_area_start_block,
            files: Seq::new(self.inodes@.len(), |s: int| self.file(s)),
            inode_used: self.inode_used@,
            free_blocks: count_false(self.data_used@),
        }
    }
}

impl EasyFileSystem {
    /// Slot `s` lists a block at place `k`.
    spec fn owns(self, s: int, k: int) -> bool {
        0 <= s < self.inodes@.len() && 0 <= k < self.inodes@[s].blocks@.len()
    }

    /// The block that slot `s` lists at place `k`.
    spec fn block(self, s: int, k: int) -> u32 {
        self.inodes@[s].blocks@[k]
    }

    /// `b` is a block of the data area that is in use.
    spec fn taken(self, b: u32) -> bool {
        &&& self.data_area_start_block <= b < self.data_area_start_block + self.data_used@.len()
        &&& self.data_used@[b - self.data_area_start_block]
    }

    /// Slot `s` has a block for byte `i`.
    spec fn backed(self, s: int, i: int) -> bool {
        0 <= s < self.inodes@.len() && 0 <= i < self.inodes@[s].blocks@.len() * 512
    }

    /// Place of byte `i` of slot `s` in the data area.
    spec fn place(self, s: int, i: int) -> int {
        (self.block(s, i / 512) - self.data_area_start_block) * 512 + i % 512
    }

    /// Byte `i` of slot `s`.
    spec fn byte(self, s: int, i: int) -> u8 {
        self.data@[self.place(s, i)]
    }

    /// The model of slot `s`.
    spec fn file(self, s: int) -> FileView {
        FileView {
            kind: self.inodes@[s].kind,
            nlink: self.inodes@[s].nlink,
            content: Seq::new(self.inodes@[s].size as nat, |i: int| self.byte(s, i)),
        }
    }

    /// The two areas lie where block numbers reach.
    spec fn geometry_ok(self) -> bool {
        &&& self.inodes@.len() == self.inode_used@.len()
        &&& self.inodes@.len() <= u32::MAX
        &&& self.inode_area_start_block <= 0x8000_0000
        &&& 0 < self.data_area_start_block
        &&& self.data_area_start_block + self.data_used@.len() <= u32::MAX
        &&& self.data@.len() == self.data_used@.len() * 512
    }

    /// Every inode lists as many blocks as its length asks for, all of them taken,
    /// and no block is listed twice.
    spec fn blocks_ok(self) -> bool {
        &&& forall|s: int|
            0 <= s < self.inodes@.len() ==> (#[trigger] self.inodes@[s]).blocks@.len()
                == blocks_for(self.inodes@[s].size as int)
        &&& forall|s: int, k: int| #[trigger]
            self.owns(s, k) ==> self.taken(self.block(s, k))
        &&& forall|s1: int, k1: int, s2: int, k2: int|
            (#[trigger] self.owns(s1, k1) && #[trigger] self.owns(s2, k2) && self.block(s1, k1)
                == self.block(s2, k2)) ==> s1 == s2 && k1 == k2
    }

    /// Free blocks and the unreached rest of last blocks are zero.
    spec fn zeros_ok(self) -> bool {
        &&& forall|p: int|
            0 <= p < self.data@.len() && !self.data_used@[p / 512] ==> #[trigger] self.data@[p] == 0
        &&& forall|s: int, i: int|
            self.backed(s, i) && self.inodes@[s].size <= i ==> #[trigger] self.byte(s, i) == 0
    }

    /// The invariant of the file system.
    pub closed spec fn wf(&self) -> bool {
        &&& self.geometry_ok()
        &&& self.blocks_ok()
        &&& self.zeros_ok()
    }

    /// The blocks `v` are in use, listed by no inode, and each stands in `v` once.
    pub closed spec fn loose(&self, v: Seq<u32>) -> bool {
        &&& forall|j: int| 0 <= j < v.len() ==> self.taken(#[trigger] v[j])
        &&& forall|j: int, s: int, k: int|
            0 <= j < v.len() && #[trigger] self.owns(s, k) ==> self.block(s, k) != #[trigger] v[j]
        &&& v.no_duplicates()
    }

    /// The blocks `v` are loose and hold zeros.
    pub closed spec fn spare(&self, v: Seq<u32>) -> bool {
        &&& self.loose(v)
        &&& forall|j: int, p: int|
            #![trigger v[j], self.data@[p]]
            0 <= j < v.len() && 0 <= p < self.data@.len() && p / 512 == v[j]
                - self.data_area_start_block ==> self.data@[p] == 0
    }

    /// A backed byte has a place in the data area, within its block.
    proof fn lemma_place(self, s: int, i: int)
        requires
            self.geometry_ok(),
            self.blocks_ok(),
            self.backed(s, i),
        ensures
            self.owns(s, i / 512),
            0 <= self.place(s, i) < self.data@.len(),
            self.place(s, i) / 512 == self.block(s, i / 512) - self.data_area_start_block,
            self.place(s, i) % 512 == i % 512,
            self.data_used@[self.place(s, i) / 512],
    {
        assert(self.owns(s, i / 512));
        assert(self.taken(self.block(s, i / 512)));
    }

    /// Distinct backed bytes have distinct places.
    proof fn lemma_place_unique(self, s1: int, i1: int, s2: int, i2: int)
        requires
            self.geometry_ok(),
            self.blocks_ok(),
            self.backed(s1, i1),
            self.backed(s2, i2),
            self.place(s1, i1) == self.place(s2, i2),
        ensures
            s1 == s2,
            i1 == i2,
    {
        self.lemma_place(s1, i1);
        self.lemma_place(s2, i2);
        assert(i1 / 512 == i2 / 512);
    }

    /// The bytes of a file are backed.
    proof fn lemma_backed(self, s: int, i: int)
        requires
            self.blocks_ok(),
            0 <= s < self.inodes@.len(),
            0 <= i < self.inodes@[s].size,
        ensures
            self.backed(s, i),
    {
        assert(self.inodes@[s].blocks@.len() == blocks_for(self.inodes@[s].size as int));
    }

    /// What the invariant says of the model.
    pub proof fn lemma_wf_view(&self)
        requires
            self.wf(),
        ensures
            self@.files.len() == self@.inode_used.len(),
            self@.files.len() <= u32::MAX,
            self@.inode_start <= 0x8000_0000,
            forall|s: int|
                0 <= s < self@.files.len() ==> (#[trigger] self@.files[s]).content.len()
                    <= u32::MAX,
    {
    }
}

impl EasyFileSystem {
    /// Block and offset of inode `inode_id` in the inode area.
    pub fn get_disk_inode_pos(&self, inode_id: u32) -> (pos: (u32, usize))
        requires
            self.wf(),
        ensures
            (pos.0 as int, pos.1 as int) == self@.position(inode_id as int),
    {
        let block_id: u32 = self.inode_area_start_block + inode_id / INODES_PER_BLOCK;
        let block_offset: usize = (inode_id % INODES_PER_BLOCK) as usize * INODE_SZ;
        (block_id, block_offset)
    }

    /// The inode slot at a position.
    pub(crate) fn slot_at(&self, block_id: usize, block_offset: usize) -> (s: usize)
        requires
            self.wf(),
            self@.is_position((block_id as int, block_offset as int)),
        ensures
            s == self@.slot((block_id as int, block_offset as int)),
            s < self@.files.len(),
    {
        (block_id - self.inode_area_start_block as usize) * INODES_PER_BLOCK as usize + block_offset
            / INODE_SZ
    }

    /// Length of slot `s`.
    pub(crate) fn size(&self, s: usize) -> (n: u32)
        requires
            self.wf(),
            s < self@.files.len(),
        ensures
            n == self@.files[s as int].content.len(),
    {
        self.inodes[s].size
    }

    /// Blocks that slot `s` lacks before it holds `new_size` bytes.
    pub(crate) fn blocks_num_needed(&self, s: usize, new_size: u32) -> (n: u32)
        requires
            self.wf(),
            s < self@.files.len(),
            new_size >= self@.files[s as int].content.len(),
        ensures
            n == self@.demand(s as int, new_size as int),
    {
        self.inodes[s].blocks_num_needed(new_size)
    }

    /// Link count of slot `s`.
    pub(crate) fn nlink(&self, s: usize) -> (n: u32)
        requires
            self.wf(),
            s < self@.files.len(),
        ensures
            n == self@.files[s as int].nlink,
    {
        self.inodes[s].nlink
    }

    /// Whether slot `s` is a regular file.
    pub(crate) fn is_file(&self, s: usize) -> (b: bool)
        requires
            self.wf(),
            s < self@.files.len(),
        ensures
            b == (self@.files[s as int].kind is File),
    {
        self.inodes[s].is_file()
    }

    /// Sets the link count of slot `s`.
    pub(crate) fn set_nlink(&mut self, s: usize, nlink: u32)
        requires
            old(self).wf(),
            s < old(self)@.files.len(),
        ensures
            final(self).wf(),
            final(self)@ == old(self)@.with_nlink(s as int, nlink as int),
    {
        self.inodes[s].nlink = nlink;
        proof {
            let o = *old(self);
            let f = *self;
            assert forall|x: int, k: int| #[trigger] f.owns(x, k) implies o.owns(x, k) && f.block(x, k)
                == o.block(x, k) by {}
            assert forall|x: int, i: int| f.backed(x, i) implies o.backed(x, i) && #[trigger] f.byte(
                x,
                i,
            ) == o.byte(x, i) by {
                o.lemma_place(x, i);
            }
            assert(f.wf());
            assert forall|x: int| 0 <= x < f.inodes@.len() implies #[trigger] f@.files[x] == o@.with_nlink(
                s as int,
                nlink as int,
            ).files[x] by {
                assert forall|i: int| 0 <= i < f.inodes@[x].size implies f.byte(x, i) == o.byte(
                    x,
                    i,
                ) by {
                    f.lemma_backed(x, i);
                }
                assert(f@.files[x].content =~= o@.files[x].content);
            }
            assert(f@ =~= o@.with_nlink(s as int, nlink as int));
        }
    }

    /// Reads from slot `s` at `offset` as many bytes as `buf` takes and the file
    /// has, and says how many.
    pub(crate) fn read(&self, s: usize, offset: usize, buf: &mut [u8]) -> (n: usize)
        requires
            self.wf(),
            s < self@.files.len(),
        ensures
            n == span(self@.files[s as int].content.len() as int, offset as int, old(buf)@.len() as int),
            final(buf)@ == read_into(self@.files[s as int].content, offset as int, old(buf)@),
    {
        let size: usize = self.inodes[s].size as usize;
        if offset >= size {
            assert(buf@ =~= read_into(self@.files[s as int].content, offset as int, old(buf)@));
            return 0;
        }
        let n: usize = if buf.len() <= size - offset {
            buf.len()
        } else {
            size - offset
        };
        let ghost content = self@.files[s as int].content;
        let mut k: usize = 0;
        while k < n
            invariant
                self.wf(),
                s < self@.files.len(),
                size == self.inodes@[s as int].size,
                content == self@.files[s as int].content,
                offset + n <= size,
                k <= n <= buf@.len(),
                buf@.len() == old(buf)@.len(),
                forall|j: int| 0 <= j < k ==> buf@[j] == content[offset + j],
                forall|j: int| k <= j < buf@.len() ==> buf@[j] == old(buf)@[j],
            decreases n - k,
        {
            proof {
                self.lemma_backed(s as int, offset + k);
                self.lemma_place(s as int, offset + k);
            }
            let at: usize = self.place_of(s, offset + k);
            buf[k] = self.data[at];
            k = k + 1;
        }
        assert(buf@ =~= read_into(content, offset as int, old(buf)@));
        n
    }

    /// Place of byte `i` of slot `s`.
    fn place_of(&self, s: usize, i: usize) -> (p: usize)
        requires
            self.geometry_ok(),
            self.blocks_ok(),
            self.backed(s as int, i as int),
        ensures
            p == self.place(s as int, i as int),
            p < self.data@.len(),
    {
        proof {
            self.lemma_place(s as int, i as int);
            assert(self.data@.len() == self.data.len());
        }
        let block: u32 = self.inodes[s].blocks[i / BLOCK_SZ];
        (block - self.data_area_start_block) as usize * BLOCK_SZ + i % BLOCK_SZ
    }
}

impl EasyFileSystem {
    /// The other file system differs from this one in the data bytes alone.
    spec fn same_shape(self, o: Self) -> bool {
        &&& self.inode_area_start_block == o.inode_area_start_block
        &&& self.data_area_start_block == o.data_area_start_block
        &&& self.inode_used == o.inode_used
        &&& self.data_used == o.data_used
        &&& self.inodes == o.inodes
        &&& self.data@.len() == o.data@.len()
    }

    /// The lists of blocks do not depend on the data bytes.
    proof fn lemma_same_shape(self, o: Self)
        requires
            o.geometry_ok(),
            o.blocks_ok(),
            self.same_shape(o),
        ensures
            self.geometry_ok(),
            self.blocks_ok(),
            forall|v: Seq<u32>| #[trigger] o.loose(v) ==> self.loose(v),
    {
        assert forall|x: int, k: int| #[trigger] self.owns(x, k) implies self.taken(
            self.block(x, k),
        ) by {
            assert(o.owns(x, k));
        }
        assert forall|s1: int, k1: int, s2: int, k2: int|
            (#[trigger] self.owns(s1, k1) && #[trigger] self.owns(s2, k2) && self.block(s1, k1)
                == self.block(s2, k2)) implies s1 == s2 && k1 == k2 by {
            assert(o.owns(s1, k1) && o.owns(s2, k2));
        }
        assert forall|v: Seq<u32>| #[trigger] o.loose(v) implies self.loose(v) by {
            assert forall|j: int| 0 <= j < v.len() implies self.taken(#[trigger] v[j]) by {
                assert(o.taken(v[j]));
            }
            assert forall|j: int, s: int, k: int|
                0 <= j < v.len() && #[trigger] self.owns(s, k) implies self.block(s, k)
                != #[trigger] v[j] by {
                assert(o.owns(s, k));
            }
        }
    }

    /// Writes `buf` to slot `s` at `offset` as far as the file reaches, and says how
    /// many bytes that were.
    pub(crate) fn write(&mut self, s: usize, offset: usize, buf: &[u8]) -> (n: usize)
        requires
            old(self).wf(),
            s < old(self)@.files.len(),
            offset <= old(self)@.files[s as int].content.len(),
        ensures
            final(self).wf(),
            n == span(
                old(self)@.files[s as int].content.len() as int,
                offset as int,
                buf@.len() as int,
            ),
            final(self)@ == old(self)@.with_content(
                s as int,
                overwrite(
                    old(self)@.files[s as int].content,
                    offset as int,
                    buf@.take(n as int),
                ),
            ),
    {
        let ghost o = *self;
        let size: usize = self.inodes[s].size as usize;
        let n: usize = if buf.len() <= size - offset {
            buf.len()
        } else {
            size - offset
        };
        let mut k: usize = 0;
        while k < n
            invariant
                o == *old(self),
                o.wf(),
                self.same_shape(o),
                s < o.inodes@.len(),
                size == o.inodes@[s as int].size,
                offset + n <= size,
                k <= n <= buf@.len(),
                forall|x: int, i: int|
                    o.backed(x, i) ==> #[trigger] self.byte(x, i) == (if x == s && offset <= i
                        < offset + k {
                        buf@[i - offset]
                    } else {
                        o.byte(x, i)
                    }),
                forall|p: int|
                    0 <= p < self.data@.len() && !self.data_used@[p / 512]
                        ==> #[trigger] self.data@[p] == 0,
            decreases n - k,
        {
            proof {
                o.lemma_backed(s as int, offset + k);
                o.lemma_place(s as int, offset + k);
                self.lemma_same_shape(o);
            }
            let ghost before = *self;
            let at: usize = self.place_of(s, offset + k);
            self.data[at] = buf[k];
            proof {
                assert forall|x: int, i: int| o.backed(x, i) implies #[trigger] self.byte(x, i) == (if x
                    == s && offset <= i < offset + k + 1 {
                    buf@[i - offset]
                } else {
                    o.byte(x, i)
                }) by {
                    o.lemma_place(x, i);
                    assert(self.place(x, i) == o.place(x, i));
                    assert(before.place(x, i) == o.place(x, i));
                    if o.place(x, i) == at {
                        o.lemma_place_unique(x, i, s as int, offset + k);
                    } else {
                        assert(self.byte(x, i) == before.byte(x, i));
                    }
                }
            }
            k = k + 1;
        }
        proof {
            let f = *self;
            assert forall|x: int, i: int| #[trigger] f.byte(x, i) == f.byte(x, i) && f.backed(x, i)
                && f.inodes@[x].size <= i implies f.byte(x, i) == 0 by {
                assert(o.byte(x, i) == 0);
            }
            f.lemma_same_shape(o);
            assert(f.wf());
            let written = overwrite(
                o@.files[s as int].content,
                offset as int,
                buf@.take(n as int),
            );
            assert forall|x: int| 0 <= x < f.inodes@.len() implies #[trigger] f@.files[x]
                == o@.with_content(s as int, written).files[x] by {
                assert forall|i: int| 0 <= i < f.inodes@[x].size implies f.byte(x, i) == (if x == s
                    && offset <= i < offset + n {
                    buf@[i - offset]
                } else {
                    o.byte(x, i)
                }) by {
                    o.lemma_backed(x, i);
                }
                if x == s {
                    assert(f@.files[x].content =~= written);
                } else {
                    assert(f@.files[x].content =~= o@.files[x].content);
                }
            }
            assert(f@ =~= o@.with_content(s as int, written));
        }
        n
    }
}

impl EasyFileSystem {
    /// The files are the same where lengths, types, link counts and bytes are.
    proof fn lemma_same_files(self, o: Self)
        requires
            self.blocks_ok(),
            self.inodes@.len() == o.inodes@.len(),
            forall|x: int|
                0 <= x < self.inodes@.len() ==> (#[trigger] self.inodes@[x]).size
                    == o.inodes@[x].size && self.inodes@[x].kind == o.inodes@[x].kind
                    && self.inodes@[x].nlink == o.inodes@[x].nlink,
            forall|x: int, i: int|
                self.backed(x, i) ==> #[trigger] self.byte(x, i) == o.byte(x, i),
        ensures
            self@.files == o@.files,
    {
        assert forall|x: int| 0 <= x < self.inodes@.len() implies #[trigger] self@.files[x]
            == o@.files[x] by {
            assert forall|i: int| 0 <= i < self.inodes@[x].size implies self.byte(x, i) == o.byte(
                x,
                i,
            ) by {
                self.lemma_backed(x, i);
            }
            assert(self@.files[x].content =~= o@.files[x].content);
        }
        assert(self@.files =~= o@.files);
    }

    /// Takes the first free data block. It holds zeros.
    pub(crate) fn alloc_data(&mut self) -> (b: u32)
        requires
            old(self).wf(),
            old(self)@.free_blocks > 0,
        ensures
            final(self).wf(),
            final(self)@ == (FsView {
                free_blocks: (old(self)@.free_blocks - 1) as nat,
                ..old(self)@
            }),
            forall|v: Seq<u32>| #[trigger] old(self).spare(v) ==> final(self).spare(v.push(b)),
    {
        let ghost o = *self;
        let mut d: usize = 0;
        while d < self.data_used.len() && self.data_used[d]
            invariant
                *self == o,
                d <= o.data_used@.len(),
                forall|j: int| 0 <= j < d ==> #[trigger] o.data_used@[j],
            decreases o.data_used@.len() - d,
        {
            d = d + 1;
        }
        proof {
            if d == o.data_used@.len() {
                lemma_count_false_none(o.data_used@);
            }
            lemma_count_false_update(o.data_used@, d as int, true);
        }
        self.data_used[d] = true;
        let b: u32 = self.data_area_start_block + d as u32;
        proof {
            let f = *self;
            assert forall|x: int, k: int| #[trigger] f.owns(x, k) implies f.taken(f.block(x, k))
                && f.block(x, k) != b by {
                assert(o.owns(x, k));
            }
            assert forall|s1: int, k1: int, s2: int, k2: int|
                (#[trigger] f.owns(s1, k1) && #[trigger] f.owns(s2, k2) && f.block(s1, k1) == f.block(
                    s2,
                    k2,
                )) implies s1 == s2 && k1 == k2 by {
                assert(o.owns(s1, k1) && o.owns(s2, k2));
            }
            assert forall|x: int, i: int| f.backed(x, i) implies #[trigger] f.byte(x, i) == o.byte(
                x,
                i,
            ) by {}
            assert(f.wf());
            f.lemma_same_files(o);
            assert forall|v: Seq<u32>| #[trigger] o.spare(v) implies f.spare(v.push(b)) by {
                let w = v.push(b);
                assert forall|j: int| 0 <= j < w.len() implies f.taken(#[trigger] w[j]) by {
                    if j < v.len() {
                        assert(o.taken(v[j]));
                    }
                }
                assert forall|j: int, s: int, k: int|
                    0 <= j < w.len() && #[trigger] f.owns(s, k) implies f.block(s, k)
                    != #[trigger] w[j] by {
                    assert(o.owns(s, k));
                    if j < v.len() {
                        assert(o.block(s, k) != v[j]);
                    }
                }
                assert(w.no_duplicates()) by {
                    assert forall|i: int, j: int| 0 <= i < j < w.len() implies w[i] != w[j] by {
                        assert(o.taken(v[i]));
                    }
                }
                assert forall|j: int, p: int|
                    #![trigger w[j], f.data@[p]]
                    0 <= j < w.len() && 0 <= p < f.data@.len() && p / 512 == w[j]
                        - f.data_area_start_block implies f.data@[p] == 0 by {
                    if j < v.len() {
                        assert(v[j] == w[j]);
                    }
                    assert(o.data@[p] == 0);
                }
            }
        }
        b
    }

    /// Lengthens slot `s` to `new_size` bytes with the spare blocks `v`.
    pub(crate) fn extend(&mut self, s: usize, new_size: u32, v: Vec<u32>)
        requires
            old(self).wf(),
            s < old(self)@.files.len(),
            old(self).spare(v@),
            new_size >= old(self)@.files[s as int].content.len(),
            v@.len() == old(self)@.demand(s as int, new_size as int),
        ensures
            final(self).wf(),
            final(self)@ == (FsView {
                files: old(self)@.files.update(
                    s as int,
                    FileView {
                        content: old(self)@.files[s as int].content + zeros(
                            new_size - old(self)@.files[s as int].content.len(),
                        ),
                        ..old(self)@.files[s as int]
                    },
                ),
                ..old(self)@
            }),
    {
        let ghost o = *self;
        let ghost t = v@;
        let ghost m = o.inodes@[s as int].blocks@.len() as int;
        let mut v: Vec<u32> = v;
        self.inodes[s].blocks.append(&mut v);
        self.inodes[s].size = new_size;
        proof {
            let f = *self;
            let si = s as int;
            assert(f.inodes@[si].blocks@ =~= o.inodes@[si].blocks@ + t);
            assert forall|x: int, k: int| #[trigger] f.owns(x, k) implies (if x == si && k >= m {
                f.block(x, k) == t[k - m]
            } else {
                o.owns(x, k) && f.block(x, k) == o.block(x, k)
            }) by {}
            assert forall|x: int, k: int| #[trigger] f.owns(x, k) implies f.taken(f.block(x, k)) by {
                if x == si && k >= m {
                    assert(o.taken(t[k - m]));
                } else {
                    assert(o.taken(o.block(x, k)));
                }
            }
            assert forall|s1: int, k1: int, s2: int, k2: int|
                (#[trigger] f.owns(s1, k1) && #[trigger] f.owns(s2, k2) && f.block(s1, k1) == f.block(
                    s2,
                    k2,
                )) implies s1 == s2 && k1 == k2 by {
                let n1 = s1 == si && k1 >= m;
                let n2 = s2 == si && k2 >= m;
                if n1 && n2 {
                    assert(t[k1 - m] == t[k2 - m]);
                } else if n1 {
                    assert(o.owns(s2, k2) && o.block(s2, k2) != t[k1 - m]);
                } else if n2 {
                    assert(o.owns(s1, k1) && o.block(s1, k1) != t[k2 - m]);
                } else {
                    assert(o.owns(s1, k1) && o.owns(s2, k2));
                }
            }
            assert(f.blocks_ok());
            assert forall|x: int, i: int| f.backed(x, i) implies (if x == si && i >= m * 512 {
                #[trigger] f.byte(x, i) == 0
            } else {
                o.backed(x, i) && f.byte(x, i) == o.byte(x, i)
            }) by {
                f.lemma_place(x, i);
                if x == si && i >= m * 512 {
                    let k = i / 512;
                    assert(f.block(x, k) == t[k - m]);
                    assert(o.data@[f.place(x, i)] == 0);
                } else {
                    assert(f.block(x, i / 512) == o.block(x, i / 512));
                }
            }
            assert forall|x: int, i: int| f.backed(x, i) && f.inodes@[x].size <= i implies #[trigger] f.byte(
                x,
                i,
            ) == 0 by {
                if !(x == si && i >= m * 512) {
                    assert(o.byte(x, i) == 0);
                }
            }
            assert(f.wf());
            let oc = o@.files[si].content;
            let nc = oc + zeros(new_size - oc.len());
            let want = FsView {
                files: o@.files.update(si, FileView { content: nc, ..o@.files[si] }),
                ..o@
            };
            assert forall|x: int| 0 <= x < f.inodes@.len() implies #[trigger] f@.files[x]
                == want.files[x] by {
                assert forall|i: int| 0 <= i < f.inodes@[x].size implies #[trigger] f.byte(x, i) == (if i
                    < o.inodes@[x].size {
                    o.byte(x, i)
                } else {
                    0u8
                }) by {
                    f.lemma_backed(x, i);
                    if i < o.inodes@[x].size {
                        o.lemma_backed(x, i);
                    } else if !(x == si && i >= m * 512) {
                        assert(o.byte(x, i) == 0);
                    }
                }
                if x == si {
                    assert(f@.files[x].content =~= nc);
                } else {
                    assert(f@.files[x].content =~= o@.files[x].content);
                }
            }
            assert(f@ =~= want);
        }
    }
}

impl EasyFileSystem {
    /// Replaces inode `s` by one of no blocks, whose former blocks become loose.
    proof fn lemma_strip(self, o: Self, s: int)
        requires
            o.wf(),
            0 <= s < o.inodes@.len(),
            self.inode_area_start_block == o.inode_area_start_block,
            self.data_area_start_block == o.data_area_start_block,
            self.inode_used@.len() == o.inode_used@.len(),
            self.data_used == o.data_used,
            self.data == o.data,
            self.inodes@.len() == o.inodes@.len(),
            self.inodes@[s].size == 0,
            self.inodes@[s].blocks@.len() == 0,
            forall|x: int|
                0 <= x < o.inodes@.len() && x != s ==> #[trigger] self.inodes@[x] == o.inodes@[x],
        ensures
            self.wf(),
            self.loose(o.inodes@[s].blocks@),
            forall|x: int| 0 <= x < o@.files.len() && x != s ==> #[trigger] self@.files[x] == o@.files[x],
            self@.files[s].content == Seq::<u8>::empty(),
    {
        assert forall|x: int, k: int| #[trigger] self.owns(x, k) implies x != s && o.owns(x, k)
            && self.block(x, k) == o.block(x, k) by {}
        assert forall|x: int, i: int| self.backed(x, i) implies x != s && o.backed(x, i)
            && #[trigger] self.byte(x, i) == o.byte(x, i) by {}
        assert(self.wf());
        assert forall|x: int| 0 <= x < o@.files.len() && x != s implies #[trigger] self@.files[x]
            == o@.files[x] by {
            assert(self@.files[x].content =~= o@.files[x].content) by {
                assert forall|i: int| 0 <= i < o.inodes@[x].size implies self.byte(x, i) == o.byte(
                    x,
                    i,
                ) by {
                    o.lemma_backed(x, i);
                }
            }
        }
        assert(self@.files[s].content =~= Seq::<u8>::empty());
        let v = o.inodes@[s].blocks@;
        assert forall|j: int| 0 <= j < v.len() implies self.taken(#[trigger] v[j]) by {
            assert(o.owns(s, j));
        }
        assert forall|j: int, x: int, k: int|
            0 <= j < v.len() && #[trigger] self.owns(x, k) implies self.block(x, k)
            != #[trigger] v[j] by {
            assert(o.owns(s, j) && o.owns(x, k));
        }
        assert(v.no_duplicates()) by {
            assert forall|i: int, j: int| 0 <= i < j < v.len() implies v[i] != v[j] by {
                assert(o.owns(s, i) && o.owns(s, j));
            }
        }
    }

    /// Empties slot `s` and hands out the blocks that it held, still taken.
    pub(crate) fn clear_size(&mut self, s: usize) -> (v: Vec<u32>)
        requires
            old(self).wf(),
            s < old(self)@.files.len(),
        ensures
            final(self).wf(),
            final(self).loose(v@),
            v@.len() == blocks_for(old(self)@.files[s as int].content.len() as int),
            final(self)@ == (FsView {
                files: old(self)@.files.update(
                    s as int,
                    FileView { content: Seq::empty(), ..old(self)@.files[s as int] },
                ),
                ..old(self)@
            }),
    {
        let ghost o = *self;
        let mut v: Vec<u32> = Vec::new();
        v.append(&mut self.inodes[s].blocks);
        self.inodes[s].size = 0;
        proof {
            let f = *self;
            assert(v@ =~= o.inodes@[s as int].blocks@);
            f.lemma_strip(o, s as int);
            assert(f@.files =~= o@.files.update(
                s as int,
                FileView { content: Seq::empty(), ..o@.files[s as int] },
            ));
        }
        v
    }

    /// A block among loose ones is loose on its own.
    pub(crate) proof fn lemma_loose_first(&self, v: Seq<u32>)
        requires
            self.wf(),
            self.loose(v),
            v.len() > 0,
        ensures
            self.loose(seq![v[0]]),
    {
        let one = seq![v[0]];
        assert(self.taken(v[0]));
        assert forall|j: int, x: int, k: int|
            0 <= j < one.len() && #[trigger] self.owns(x, k) implies self.block(x, k)
            != #[trigger] one[j] by {
            assert(self.block(x, k) != v[0]);
        }
    }

    /// No blocks at all are spare.
    pub(crate) proof fn lemma_spare_none(&self)
        ensures
            self.spare(Seq::empty()),
    {
    }

    /// Zeroes the loose block `b` and gives it back.
    pub(crate) fn dealloc_data(&mut self, b: u32)
        requires
            old(self).wf(),
            old(self).loose(seq![b]),
        ensures
            final(self).wf(),
            final(self)@ == (FsView {
                free_blocks: (old(self)@.free_blocks + 1) as nat,
                ..old(self)@
            }),
            forall|v: Seq<u32>|
                v.len() > 0 && v[0] == b && #[trigger] old(self).loose(v) ==> final(self).loose(
                    v.drop_first(),
                ),
    {
        let ghost o = *self;
        proof {
            assert(seq![b][0] == b);
            assert(o.taken(b));
            assert(self.data@.len() == self.data.len());
        }
        let d: usize = (b - self.data_area_start_block) as usize;
        let mut k: usize = 0;
        while k < BLOCK_SZ
            invariant
                k <= BLOCK_SZ,
                self.same_shape(o),
                o.geometry_ok(),
                d < o.data_used@.len(),
                d * 512 + 512 <= o.data@.len() <= usize::MAX,
                forall|p: int|
                    0 <= p < o.data@.len() ==> #[trigger] self.data@[p] == (if d * 512 <= p < d * 512
                        + k {
                        0u8
                    } else {
                        o.data@[p]
                    }),
            decreases BLOCK_SZ - k,
        {
            self.data[d * BLOCK_SZ + k] = 0;
            k = k + 1;
        }
        proof {
            lemma_count_false_update(o.data_used@, d as int, false);
        }
        let ghost mid = *self;
        self.data_used[d] = false;
        proof {
            let f = *self;
            assert forall|x: int, k: int| #[trigger] f.owns(x, k) implies f.taken(f.block(x, k))
                && f.block(x, k) != b by {
                assert(o.owns(x, k));
                assert(o.block(x, k) != seq![b][0]);
            }
            assert forall|s1: int, k1: int, s2: int, k2: int|
                (#[trigger] f.owns(s1, k1) && #[trigger] f.owns(s2, k2) && f.block(s1, k1) == f.block(
                    s2,
                    k2,
                )) implies s1 == s2 && k1 == k2 by {
                assert(o.owns(s1, k1) && o.owns(s2, k2));
            }
            assert(f.blocks_ok());
            assert forall|x: int, i: int| f.backed(x, i) implies #[trigger] f.byte(x, i) == o.byte(
                x,
                i,
            ) by {
                f.lemma_place(x, i);
                assert(f.block(x, i / 512) != b);
                assert(f.place(x, i) == o.place(x, i));
            }
            assert forall|p: int| 0 <= p < f.data@.len() && !f.data_used@[p / 512] implies #[trigger] f.data@[p]
                == 0 by {
                assert(mid.data@[p] == f.data@[p]);
                if p / 512 != d {
                    assert(o.data@[p] == 0);
                }
            }
            assert forall|x: int, i: int| f.backed(x, i) && f.inodes@[x].size <= i implies #[trigger] f.byte(
                x,
                i,
            ) == 0 by {
                assert(o.byte(x, i) == 0);
            }
            assert(f.wf());
            f.lemma_same_files(o);
            assert forall|v: Seq<u32>| v.len() > 0 && v[0] == b && #[trigger] o.loose(v) implies f.loose(
                v.drop_first(),
            ) by {
                let w = v.drop_first();
                assert forall|j: int| 0 <= j < w.len() implies f.taken(#[trigger] w[j]) by {
                    assert(w[j] == v[j + 1]);
                    assert(o.taken(v[j + 1]));
                    assert(v[j + 1] != v[0]);
                }
                assert forall|j: int, x: int, k: int|
                    0 <= j < w.len() && #[trigger] f.owns(x, k) implies f.block(x, k)
                    != #[trigger] w[j] by {
                    assert(w[j] == v[j + 1]);
                    assert(o.owns(x, k));
                }
            }
        }
    }

    /// Takes the first free inode.
    pub(crate) fn alloc_inode(&mut self) -> (id: u32)
        requires
            old(self).wf(),
            old(self)@.next_inode() < old(self)@.files.len(),
        ensures
            final(self).wf(),
            id == old(self)@.next_inode(),
            final(self)@ == (FsView {
                inode_used: old(self)@.inode_used.update(id as int, true),
                ..old(self)@
            }),
    {
        let ghost o = *self;
        let i: usize = self.next_inode();
        self.inode_used[i] = true;
        proof {
            let f = *self;
            f.lemma_bitmap(o);
        }
        i as u32
    }

    /// Gives inode `id` back.
    pub(crate) fn dealloc_inode(&mut self, id: u32)
        requires
            old(self).wf(),
            id < old(self)@.files.len(),
            old(self)@.inode_used[id as int],
        ensures
            final(self).wf(),
            final(self)@ == old(self)@.release(id as int),
    {
        let ghost o = *self;
        self.inode_used[id as usize] = false;
        proof {
            let f = *self;
            f.lemma_bitmap(o);
        }
    }

    /// The inode bitmap touches neither the files nor the rest of the invariant.
    proof fn lemma_bitmap(self, o: Self)
        requires
            o.wf(),
            self == (EasyFileSystem { inode_used: self.inode_used, ..o }),
            self.inode_used@.len() == o.inode_used@.len(),
        ensures
            self.wf(),
            self@ == (FsView { inode_used: self.inode_used@, ..o@ }),
    {
        assert forall|x: int, k: int| #[trigger] self.owns(x, k) implies o.owns(x, k) && self.block(x, k)
            == o.block(x, k) by {}
        assert forall|x: int, i: int| self.backed(x, i) implies o.backed(x, i) && #[trigger] self.byte(
            x,
            i,
        ) == o.byte(x, i) by {}
        assert(self.wf());
        self.lemma_same_files(o);
    }

    /// Makes slot `s` a fresh file of type `kind`.
    pub(crate) fn initialize(&mut self, s: usize, kind: DiskInodeType)
        requires
            old(self).wf(),
            s < old(self)@.files.len(),
        ensures
            final(self).wf(),
            final(self)@ == (FsView {
                files: old(self)@.files.update(s as int, FileView::fresh(kind)),
                ..old(self)@
            }),
    {
        let ghost o = *self;
        self.inodes[s] = DiskInode { size: 0, nlink: 1, kind, blocks: Vec::new() };
        proof {
            let f = *self;
            f.lemma_strip(o, s as int);
            assert(f@.files =~= o@.files.update(s as int, FileView::fresh(kind)));
        }
    }

    /// A file system of `inodes` inodes and `data_blocks` data blocks behind each
    /// other, the inode area starting at block `start`, with an empty root directory
    /// in inode 0.
    pub fn create(start: u32, inodes: u32, data_blocks: u32) -> (fs: Self)
        requires
            0 < start <= 0x8000_0000,
            0 < inodes,
            start + inodes / 4 + 1 + data_blocks <= u32::MAX,
            data_blocks * 512 <= usize::MAX,
        ensures
            fs.wf(),
            fs@ == FsView::formatted(start, inodes as nat, data_blocks as nat),
    {
        let mut inode_used: Vec<bool> = Vec::new();
        let mut table: Vec<DiskInode> = Vec::new();
        inode_used.push(true);
        table.push(
            DiskInode { size: 0, nlink: 1, kind: DiskInodeType::Directory, blocks: Vec::new() },
        );
        let mut i: u32 = 1;
        while i < inodes
            invariant
                1 <= i <= inodes,
                inode_used@ =~= Seq::new(i as nat, |s: int| s == 0),
                table@.len() == i,
                forall|s: int|
                    0 <= s < i ==> (#[trigger] table@[s]).size == 0 && table@[s].blocks@.len() == 0
                        && table@[s].nlink == (if s == 0 {
                        1int
                    } else {
                        0
                    }) && table@[s].kind == (if s == 0 {
                        DiskInodeType::Directory
                    } else {
                        DiskInodeType::File
                    }),
            decreases inodes - i,
        {
            inode_used.push(false);
            table.push(
                DiskInode { size: 0, nlink: 0, kind: DiskInodeType::File, blocks: Vec::new() },
            );
            i = i + 1;
        }
        let data_used: Vec<bool> = vec![false; data_blocks as usize];
        let data: Vec<u8> = vec![0u8; data_blocks as usize * BLOCK_SZ];
        let fs = EasyFileSystem {
            inode_area_start_block: start,
            data_area_start_block: start + inodes / INODES_PER_BLOCK + 1,
            inode_used,
            data_used,
            inodes: table,
            data,
        };
        proof {
            lemma_count_false_all(data_used@);
            assert forall|s: int| 0 <= s < inodes implies (#[trigger] fs@.files[s]).content
                =~= Seq::<u8>::empty() by {}
            assert(fs.wf());
            assert(fs@ =~= FsView::formatted(start, inodes as nat, data_blocks as nat));
        }
        fs
    }
}

impl EasyFileSystem {
    /// Whether an inode slot lies at a position.
    pub(crate) fn holds(&self, block_id: usize, block_offset: usize) -> (b: bool)
        requires
            self.wf(),
        ensures
            b == self@.is_position((block_id as int, block_offset as int)),
    {
        let start: usize = self.inode_area_start_block as usize;
        if block_id < start || block_offset >= BLOCK_SZ || block_offset % INODE_SZ != 0 {
            return false;
        }
        let slots: usize = self.inodes.len();
        let row: usize = block_id - start;
        row < slots && (row as u64) * 4 + (block_offset / INODE_SZ) as u64 <= (slots - 1) as u64
    }

    /// Number of inode slots.
    pub(crate) fn inode_count(&self) -> (n: usize)
        requires
            self.wf(),
        ensures
            n == self@.files.len(),
    {
        self.inodes.len()
    }

    /// Whether inode `s` is in use.
    pub(crate) fn in_use(&self, s: usize) -> (b: bool)
        requires
            self.wf(),
            s < self@.files.len(),
        ensures
            b == self@.inode_used[s as int],
    {
        self.inode_used[s]
    }

    /// The first inode that is not in use, or the number of inodes.
    pub(crate) fn next_inode(&self) -> (s: usize)
        requires
            self.wf(),
        ensures
            s == self@.next_inode(),
            s <= self@.files.len(),
    {
        let ghost used = self.inode_used@;
        let mut i: usize = 0;
        while i < self.inode_used.len() && self.inode_used[i]
            invariant
                used == self.inode_used@,
                i <= used.len(),
                forall|j: int| 0 <= j < i ==> !unset()(#[trigger] used[j]),
            decreases used.len() - i,
        {
            i = i + 1;
        }
        proof {
            lemma_first_index_is(used, unset(), i as int);
        }
        i
    }

    /// Number of free data blocks.
    pub fn free_blocks(&self) -> (n: usize)
        requires
            self.wf(),
        ensures
            n == self@.free_blocks,
    {
        let ghost used = self.data_used@;
        let mut n: usize = 0;
        let mut d: usize = 0;
        while d < self.data_used.len()
            invariant
                used == self.data_used@,
                d <= used.len(),
                n <= d,
                n == count_false(used.take(d as int)),
            decreases used.len() - d,
        {
            assert(used.take(d + 1).drop_last() =~= used.take(d as int));
            if !self.data_used[d] {
                n = n + 1;
            }
            d = d + 1;
        }
        assert(used.take(d as int) =~= used);
        n
    }
}

} // verus!
