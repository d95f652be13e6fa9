//! The mathematical model of the file system that the contracts speak of: files
//! as byte sequences, directories as files of fixed-size records, and the two
//! bitmaps that say what is still free.

use crate::layout::{blocks_for, entry_inode, entry_name, entry_record, DiskInodeType};
use crate::search::first_index;
use vstd::prelude::*;

verus! {

/// One inode slot: what it stands for, how many names lead to it, its bytes.
#[verifier::ext_equal]
pub struct FileView {
    pub kind: DiskInodeType,
    pub nlink: u32,
    pub content: Seq<u8>,
}

/// The file system: where its inode area starts, its inode slots, which of them
/// are in use, and how many data blocks are free.
#[verifier::ext_equal]
pub struct FsView {
    pub inode_start: u32,
    pub files: Seq<FileView>,
    pub inode_used: Seq<bool>,
    pub free_blocks: nat,
}

/// `n` zero bytes.
pub open spec fn zeros(n: int) -> Seq<u8> {
    Seq::new(n as nat, |i: int| 0u8)
}

/// `content` with the bytes from `offset` on replaced by `data`, which fits.
pub open spec fn overwrite(content: Seq<u8>, offset: int, data: Seq<u8>) -> Seq<u8> {
    Seq::new(
        content.len(),
        |i: int|
            if offset <= i < offset + data.len() {
                data[i - offset]
            } else {
                content[i]
            },
    )
}

/// How many of `len` bytes at `offset` lie within a file of `size` bytes.
pub open spec fn span(size: int, offset: int, len: int) -> int {
    if offset >= size {
        0
    } else if offset + len <= size {
        len
    } else {
        size - offset
    }
}

/// `buf` after a read at `offset` has filled as much of it as the file has bytes.
pub open spec fn read_into(content: Seq<u8>, offset: int, buf: Seq<u8>) -> Seq<u8> {
    Seq::new(
        buf.len(),
        |j: int|
            if j < span(content.len() as int, offset, buf.len() as int) {
                content[offset + j]
            } else {
                buf[j]
            },
    )
}

/// Records in a directory of these bytes; a rest shorter than a record is none.
pub open spec fn entry_count(content: Seq<u8>) -> int {
    content.len() as int / 32
}

/// Record `i` of a directory.
pub open spec fn entry_at(content: Seq<u8>, i: int) -> Seq<u8> {
    content.subrange(32 * i, 32 * i + 32)
}

/// All records of a directory, in order.
pub open spec fn entries(content: Seq<u8>) -> Seq<Seq<u8>> {
    Seq::new(entry_count(content) as nat, |i: int| entry_at(content, i))
}

/// Records that carry `name`.
pub open spec fn named(name: Seq<u8>) -> spec_fn(Seq<u8>) -> bool {
    |rec: Seq<u8>| entry_name(rec) == name
}

/// Records that name nothing.
pub open spec fn cleared() -> spec_fn(Seq<u8>) -> bool {
    |rec: Seq<u8>| rec[0] == 0
}

/// Records that name something.
pub open spec fn listed() -> spec_fn(Seq<u8>) -> bool {
    |rec: Seq<u8>| rec[0] != 0
}

/// Clear bits of a bitmap.
pub open spec fn unset() -> spec_fn(bool) -> bool {
    |used: bool| !used
}

/// The inode number of the first record that carries `name`.
pub open spec fn resolve(recs: Seq<Seq<u8>>, name: Seq<u8>) -> Option<u32> {
    let k = first_index(recs, named(name));
    if k < recs.len() {
        Some(entry_inode(recs[k]))
    } else {
        None
    }
}

/// The inode number that a directory of these bytes gives to `name`.
pub open spec fn lookup(content: Seq<u8>, name: Seq<u8>) -> Option<u32> {
    resolve(entries(content), name)
}

/// The names of a directory, in record order.
pub open spec fn listing(content: Seq<u8>) -> Seq<Seq<u8>> {
    entries(content).filter(listed()).map_values(|rec: Seq<u8>| entry_name(rec))
}

/// No two records that name something carry the same name.
pub open spec fn names_distinct(recs: Seq<Seq<u8>>) -> bool {
    forall|i: int, j: int|
        #![trigger recs[i], recs[j]]
        0 <= i < j < recs.len() && recs[i][0] != 0 && recs[j][0] != 0 ==> entry_name(recs[i])
            != entry_name(recs[j])
}

/// The elements whose mark is set, in order.
pub open spec fn select<A>(s: Seq<A>, marks: Seq<bool>) -> Seq<A>
    decreases s.len(),
{
    if s.len() == 0 {
        Seq::empty()
    } else if marks[s.len() - 1] {
        select(s.drop_last(), marks).push(s.last())
    } else {
        select(s.drop_last(), marks)
    }
}

/// The directory with every record that carries `name` cleared.
pub open spec fn erase(content: Seq<u8>, name: Seq<u8>) -> Seq<u8> {
    Seq::new(
        content.len(),
        |p: int|
            if p / 32 < entry_count(content) && entry_name(entry_at(content, p / 32)) == name {
                0u8
            } else {
                content[p]
            },
    )
}

/// The directory with `rec` behind its last record.
pub open spec fn append(content: Seq<u8>, rec: Seq<u8>) -> Seq<u8> {
    content.take(32 * entry_count(content)) + rec
}

/// The directory with `rec` in its first cleared slot, or at the end where no
/// slot is cleared.
pub open spec fn insert(content: Seq<u8>, rec: Seq<u8>) -> Seq<u8> {
    let k = first_index(entries(content), cleared());
    if k < entry_count(content) {
        overwrite(content, 32 * k, rec)
    } else {
        append(content, rec)
    }
}

impl FileView {
    /// An empty file of this type with one name.
    pub open spec fn fresh(kind: DiskInodeType) -> FileView {
        FileView { kind, nlink: 1, content: Seq::empty() }
    }
}

impl FsView {
    /// A new file system: an empty root directory in inode 0, every other inode and
    /// every data block free.
    pub open spec fn formatted(inode_start: u32, inodes: nat, data_blocks: nat) -> FsView {
        FsView {
            inode_start,
            files: Seq::new(
                inodes,
                |s: int|
                    if s == 0 {
                        FileView::fresh(DiskInodeType::Directory)
                    } else {
                        FileView {
                            kind: DiskInodeType::File,
                            nlink: 0,
                            content: Seq::empty(),
                        }
                    },
            ),
            inode_used: Seq::new(inodes, |s: int| s == 0),
            free_blocks: data_blocks,
        }
    }

    /// Block and offset of inode slot `s` in the inode area.
    pub open spec fn position(self, s: int) -> (int, int) {
        (self.inode_start + s / 4, s % 4 * 128)
    }

    /// The slot at a position.
    pub open spec fn slot(self, pos: (int, int)) -> int {
        (pos.0 - self.inode_start) * 4 + pos.1 / 128
    }

    /// Whether an inode slot lies at a position.
    pub open spec fn is_position(self, pos: (int, int)) -> bool {
        &&& pos.0 >= self.inode_start
        &&& 0 <= pos.1 < 512
        &&& pos.1 % 128 == 0
        &&& self.slot(pos) < self.files.len()
    }

    /// The file at a position.
    pub open spec fn at(self, pos: (int, int)) -> FileView {
        self.files[self.slot(pos)]
    }

    /// Blocks that slot `s` lacks before it holds `size` bytes, negative where it
    /// would give blocks back.
    pub open spec fn demand(self, s: int, size: int) -> int {
        blocks_for(size) - blocks_for(self.files[s].content.len() as int)
    }

    /// Slot `s` with these bytes, its blocks taken from or given back to the free
    /// ones.
    pub open spec fn with_content(self, s: int, content: Seq<u8>) -> FsView {
        FsView {
            files: self.files.update(s, FileView { content, ..self.files[s] }),
            free_blocks: (self.free_blocks - self.demand(s, content.len() as int)) as nat,
            ..self
        }
    }

    /// Slot `s` with this link count.
    pub open spec fn with_nlink(self, s: int, nlink: int) -> FsView {
        FsView {
            files: self.files.update(s, FileView { nlink: nlink as u32, ..self.files[s] }),
            ..self
        }
    }

    /// Slot `s` at least `size` bytes long, padded with zeros.
    pub open spec fn grow(self, s: int, size: int) -> FsView {
        let content = self.files[s].content;
        if size < content.len() {
            self
        } else {
            self.with_content(s, content + zeros(size - content.len()))
        }
    }

    /// The bytes that a write at `offset` makes slot `s` long enough for. The
    /// length field has 32 bits, and a longer end wraps.
    pub open spec fn write_end(offset: int, len: int) -> int {
        (offset + len) % 0x1_0000_0000
    }

    /// Slot `s` after a write of `data` at `offset`: grown, then overwritten as far
    /// as the data fits.
    pub open spec fn write(self, s: int, offset: int, data: Seq<u8>) -> FsView {
        let grown = self.grow(s, Self::write_end(offset, data.len() as int));
        let content = grown.files[s].content;
        let n = span(content.len() as int, offset, data.len() as int);
        grown.with_content(s, overwrite(content, offset, data.take(n)))
    }

    /// Whether a write meets neither a full device nor a gap that it leaves open.
    pub open spec fn write_fits(self, s: int, offset: int, len: int) -> bool {
        let end = Self::write_end(offset, len);
        &&& end >= self.files[s].content.len() ==> self.demand(s, end) <= self.free_blocks
        &&& offset <= end || offset <= self.files[s].content.len()
    }

    /// Slot `s` emptied.
    pub open spec fn clear(self, s: int) -> FsView {
        self.with_content(s, Seq::empty())
    }

    /// The first inode slot that is not in use.
    pub open spec fn next_inode(self) -> int {
        first_index(self.inode_used, unset())
    }

    /// The next free inode slot, taken and made a fresh file of type `kind`.
    pub open spec fn allocate(self, kind: DiskInodeType) -> FsView {
        let s = self.next_inode();
        FsView {
            files: self.files.update(s, FileView::fresh(kind)),
            inode_used: self.inode_used.update(s, true),
            ..self
        }
    }

    /// Inode slot `s` given back.
    pub open spec fn release(self, s: int) -> FsView {
        FsView { inode_used: self.inode_used.update(s, false), ..self }
    }

    /// Whether directory `d` can take one record more at its end.
    pub open spec fn append_fits(self, d: int) -> bool {
        let size = 32 * (entry_count(self.files[d].content) + 1);
        &&& size <= u32::MAX
        &&& self.demand(d, size) <= self.free_blocks
    }

    /// Whether directory `d` can take one record more.
    pub open spec fn insert_fits(self, d: int) -> bool {
        let content = self.files[d].content;
        ||| first_index(entries(content), cleared()) < entry_count(content)
        ||| self.append_fits(d)
    }

    /// The inode number that directory `d` gives to `name`.
    pub open spec fn find(self, d: int, name: Seq<u8>) -> Option<u32> {
        lookup(self.files[d].content, name)
    }

    /// A new file called `name` in directory `d`.
    pub open spec fn create(self, d: int, name: Seq<u8>) -> FsView {
        let s = self.next_inode();
        let made = self.allocate(DiskInodeType::File);
        made.with_content(d, insert(made.files[d].content, entry_record(name, s as u32)))
    }

    /// Whether `create` meets neither a full inode area, a full device nor a name
    /// too long to store.
    pub open spec fn create_fits(self, d: int, name: Seq<u8>) -> bool {
        &&& name.len() <= 27
        &&& self.next_inode() < self.files.len()
        &&& self.allocate(DiskInodeType::File).insert_fits(d)
    }

    /// A further name for inode slot `s` at the end of directory `d`.
    pub open spec fn link(self, d: int, name: Seq<u8>, s: int) -> FsView {
        let linked = self.with_content(
            d,
            append(self.files[d].content, entry_record(name, s as u32)),
        );
        linked.with_nlink(s, linked.files[s].nlink + 1)
    }

    /// Whether `link` meets neither a full device, a name too long to store nor a
    /// link count at its end.
    pub open spec fn link_fits(self, d: int, name: Seq<u8>, s: int) -> bool {
        &&& s < self.files.len()
        &&& name.len() <= 27
        &&& self.append_fits(d)
        &&& self.files[s].nlink < u32::MAX
    }

    /// Inode slot `s` with one link less; with the last link the slot, its blocks
    /// and the records of directory `d` called `name` go too.
    pub open spec fn unlink(self, d: int, name: Seq<u8>, s: int) -> FsView {
        let dropped = self.with_nlink(s, self.files[s].nlink - 1);
        if dropped.files[s].nlink == 0 {
            let freed = dropped.clear(s).release(s);
            freed.with_content(d, erase(freed.files[d].content, name))
        } else {
            dropped
        }
    }

    /// Whether slot `s` has a link to give up and, with the last one, is in use.
    pub open spec fn unlink_fits(self, s: int) -> bool {
        &&& s < self.files.len()
        &&& self.files[s].nlink > 0
        &&& self.files[s].nlink == 1 ==> self.inode_used[s]
    }
}

} // verus!
