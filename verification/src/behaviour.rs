//! What each operation does, said of bytes, records, numbers and bits alone.

use crate::directory::{
    erased, lemma_entries_append, lemma_entries_erase, lemma_entries_overwrite,
};
use crate::file::{
    access, creates, known_flags, open_effect, open_fits, open_target, truncates, File, CREATE,
    RDWR, TRUNC, WRONLY,
};
use crate::layout::{
    blocks_for, empty_record, entry_inode, entry_name, entry_record, is_nul, lemma_entry_record,
    storable, DiskInodeType,
};
use crate::mm::MapPermission;
use crate::model::{
    cleared, entries, erase, insert, listed, listing, named, read_into, select, span, unset, FsView,
};
use crate::search::{first_index, lemma_first_index, lemma_first_index_is};
use crate::syscall::process::{awaited, collectable, mmap_permission, mmap_valid};
use crate::task::{closed_fd, installed, TaskControlBlock, TaskControlBlockInner};
use crate::vfs::lemma_position;
use vstd::prelude::*;

verus! {

// ------------------------------------------------------- blocks and records
/// A file has just as many blocks as its bytes need: the blocks cover the bytes,
/// and one block less would not.
pub proof fn law_blocks_just_cover(size: int)
    requires
        0 <= size,
    ensures
        512 * (blocks_for(size) - 1) < size <= 512 * blocks_for(size),
{
}

/// A stored record starts with the bytes of the name, goes on with zeros up to byte
/// 28 and ends with the inode number, lowest byte first.
pub proof fn law_record_layout(name: Seq<u8>, inode_number: u32)
    requires
        name.len() <= 27,
    ensures
        ({
            let rec = entry_record(name, inode_number);
            &&& rec.len() == 32
            &&& forall|i: int| 0 <= i < name.len() ==> #[trigger] rec[i] == name[i]
            &&& forall|i: int| name.len() <= i < 28 ==> #[trigger] rec[i] == 0
            &&& rec[28] + 256 * rec[29] + 65536 * rec[30] + 16777216 * rec[31] == inode_number
        }),
{
    let rec = entry_record(name, inode_number);
    let n = inode_number as int;
    assert(rec[28] == n % 256);
    assert(rec[29] == n / 256 % 256);
    assert(rec[30] == n / 65536 % 256);
    assert(rec[31] == n / 16777216);
    assert(n / 65536 == n / 256 / 256);
    assert(n / 16777216 == n / 65536 / 256);
}

/// The name of a record is what stands before its first zero byte, within the first
/// 28 bytes; its number stands in the last four bytes, lowest byte first.
pub proof fn law_record_fields(rec: Seq<u8>)
    requires
        rec.len() == 32,
    ensures
        ({
            let name = entry_name(rec);
            &&& name.len() <= 28
            &&& forall|i: int| 0 <= i < name.len() ==> #[trigger] name[i] == rec[i] && rec[i] != 0
            &&& name.len() < 28 ==> rec[name.len() as int] == 0
            &&& entry_inode(rec) == rec[28] + 256 * rec[29] + 65536 * rec[30] + 16777216 * rec[31]
        }),
{
    let field = rec.take(28);
    let k = first_index(field, is_nul());
    lemma_first_index(field, is_nul());
    let name = entry_name(rec);
    assert forall|i: int| 0 <= i < name.len() implies #[trigger] name[i] == rec[i] && rec[i]
        != 0 by {
        assert(!is_nul()(field[i]));
    }
    if k < 28 {
        assert(is_nul()(field[k]));
    }
}

/// A cleared record is 32 zero bytes.
pub proof fn law_cleared_record()
    ensures
        empty_record().len() == 32,
        forall|i: int| 0 <= i < 32 ==> #[trigger] empty_record()[i] == 0,
{
}

/// The names that a record gives back as they were stored are those of at most 27
/// bytes without a zero byte.
pub proof fn law_storable_names(name: Seq<u8>)
    ensures
        storable(name) <==> name.len() <= 27 && !name.contains(0u8),
{
    if !name.contains(0u8) {
        assert forall|i: int| 0 <= i < name.len() implies #[trigger] name[i] != 0 by {
            assert(name.contains(name[i]));
        }
    }
}

/// Record `i` of a directory is its bytes from `32 * i` on; a rest shorter than a
/// record is none.
pub proof fn law_directory_layout(content: Seq<u8>)
    ensures
        ({
            let recs = entries(content);
            &&& 32 * recs.len() <= content.len() < 32 * recs.len() + 32
            &&& forall|i: int| 0 <= i < recs.len() ==> (#[trigger] recs[i]).len() == 32
            &&& forall|i: int, j: int|
                0 <= i < recs.len() && 0 <= j < 32 ==> #[trigger] recs[i][j] == content[32 * i + j]
        }),
{
}

/// Inode slots of 128 bytes stand behind each other in the blocks of 512 bytes from
/// the start of the inode area on.
pub proof fn law_position_layout(fs: FsView, s: int)
    requires
        0 <= s,
    ensures
        ({
            let pos = fs.position(s);
            &&& 0 <= pos.1 < 512
            &&& 512 * (pos.0 - fs.inode_start) + pos.1 == 128 * s
        }),
{
}

/// A handle leads to an inode exactly when it is the position of one, and then to
/// that one.
pub proof fn law_valid_positions(fs: FsView, pos: (int, int))
    ensures
        fs.is_position(pos) <==> exists|s: int|
            0 <= s < fs.files.len() && pos == #[trigger] fs.position(s),
        fs.is_position(pos) ==> 0 <= fs.slot(pos) < fs.files.len() && fs.position(fs.slot(pos))
            == pos && fs.at(pos) == fs.files[fs.slot(pos)],
{
    if fs.is_position(pos) {
        assert(fs.position(fs.slot(pos)) == pos);
    }
    if exists|s: int| 0 <= s < fs.files.len() && pos == #[trigger] fs.position(s) {
        let s = choose|s: int| 0 <= s < fs.files.len() && pos == #[trigger] fs.position(s);
        lemma_position(fs, s);
    }
}

/// A new file system has an empty root directory with one link in slot 0, which alone
/// is in use; the other slots are empty files without a link, and every block is free.
pub proof fn law_formatted(inode_start: u32, inodes: nat, data_blocks: nat)
    ensures
        ({
            let fs = FsView::formatted(inode_start, inodes, data_blocks);
            &&& fs.inode_start == inode_start
            &&& fs.files.len() == inodes == fs.inode_used.len()
            &&& fs.free_blocks == data_blocks
            &&& forall|s: int|
                0 <= s < inodes ==> {
                    &&& (#[trigger] fs.files[s]).content.len() == 0
                    &&& fs.files[s].nlink == (if s == 0 { 1int } else { 0 })
                    &&& fs.files[s].kind is Directory <==> s == 0
                    &&& fs.inode_used[s] <==> s == 0
                }
        }),
{
}

// ---------------------------------------------------------- reads and writes
/// A read takes as many bytes as the buffer has room for and the file has from
/// `offset` on, none where the offset is behind the end. They come to the front of
/// the buffer in order, and the rest of the buffer stays.
pub proof fn law_read(content: Seq<u8>, offset: int, buf: Seq<u8>)
    requires
        0 <= offset,
    ensures
        ({
            let n = span(content.len() as int, offset, buf.len() as int);
            let after = read_into(content, offset, buf);
            &&& offset >= content.len() ==> n == 0
            &&& offset < content.len() && buf.len() <= content.len() - offset ==> n == buf.len()
            &&& offset < content.len() && buf.len() > content.len() - offset ==> n
                == content.len() - offset
            &&& after.len() == buf.len()
            &&& forall|j: int| 0 <= j < n ==> #[trigger] after[j] == content[offset + j]
            &&& forall|j: int| n <= j < buf.len() ==> #[trigger] after[j] == buf[j]
        }),
{
}

/// Two reads in a row give what one read of both lengths gives.
pub proof fn law_reads_join(content: Seq<u8>, offset: int, first: Seq<u8>, second: Seq<u8>)
    requires
        0 <= offset,
        offset + first.len() <= content.len(),
    ensures
        read_into(content, offset, first + second) == read_into(content, offset, first)
            + read_into(content, offset + first.len(), second),
        span(content.len() as int, offset, (first + second).len() as int) == first.len() + span(
            content.len() as int,
            offset + first.len(),
            second.len() as int,
        ),
{
    assert(read_into(content, offset, first + second) =~= read_into(content, offset, first)
        + read_into(content, offset + first.len(), second));
}

/// A write makes the file reach to the end of the write, that end taken in 32 bits,
/// or leaves it as long as it was. Within that length the bytes that the write covers
/// are the data, those before the old end stay and new ones are zero. Nothing else
/// changes but the blocks that the file grew by.
pub proof fn law_write(fs: FsView, s: int, offset: int, data: Seq<u8>)
    requires
        0 <= s < fs.files.len(),
        0 <= offset,
        fs.write_fits(s, offset, data.len() as int),
    ensures
        ({
            let before = fs.files[s].content;
            let after = fs.write(s, offset, data);
            let content = after.files[s].content;
            let end = (offset + data.len()) % 0x1_0000_0000;
            &&& content.len() == if end < before.len() {
                before.len() as int
            } else {
                end
            }
            &&& forall|i: int|
                0 <= i < content.len() ==> #[trigger] content[i] == (if offset <= i < offset
                    + data.len() {
                    data[i - offset]
                } else if i < before.len() {
                    before[i]
                } else {
                    0u8
                })
            &&& after.files[s].kind == fs.files[s].kind
            &&& after.files[s].nlink == fs.files[s].nlink
            &&& after.files.len() == fs.files.len()
            &&& forall|x: int|
                0 <= x < fs.files.len() && x != s ==> #[trigger] after.files[x] == fs.files[x]
            &&& after.inode_used == fs.inode_used
            &&& after.inode_start == fs.inode_start
            &&& after.free_blocks + blocks_for(content.len() as int) == fs.free_blocks
                + blocks_for(before.len() as int)
        }),
{
}

/// A write fits exactly when the blocks that the file would grow by are free and it
/// starts within the file as it then is.
pub proof fn law_write_fits(fs: FsView, s: int, offset: int, len: int)
    requires
        0 <= s < fs.files.len(),
        0 <= offset,
        0 <= len,
    ensures
        ({
            let size = fs.files[s].content.len() as int;
            let end = (offset + len) % 0x1_0000_0000;
            fs.write_fits(s, offset, len) <==> {
                &&& end < size || blocks_for(end) - blocks_for(size) <= fs.free_blocks
                &&& offset <= size || offset <= end
            }
        }),
        offset + len <= u32::MAX && blocks_for(offset + len) <= fs.free_blocks ==> fs.write_fits(
            s,
            offset,
            len,
        ),
{
}

/// A clear empties the file, frees its blocks and changes nothing else.
pub proof fn law_clear_alone(fs: FsView, s: int)
    requires
        0 <= s < fs.files.len(),
    ensures
        ({
            let after = fs.clear(s);
            &&& after.files[s].content.len() == 0
            &&& after.files[s].kind == fs.files[s].kind
            &&& after.files[s].nlink == fs.files[s].nlink
            &&& after.files.len() == fs.files.len()
            &&& forall|x: int|
                0 <= x < fs.files.len() && x != s ==> #[trigger] after.files[x] == fs.files[x]
            &&& after.inode_used == fs.inode_used
            &&& after.inode_start == fs.inode_start
            &&& after.free_blocks == fs.free_blocks + blocks_for(fs.files[s].content.len() as int)
        }),
{
}

// ------------------------------------------------------------- directories
/// A name is found exactly when a record carries it, and leads to the number of the
/// first such record.
pub proof fn law_find(fs: FsView, d: int, name: Seq<u8>)
    ensures
        ({
            let recs = entries(fs.files[d].content);
            match fs.find(d, name) {
                Some(id) => exists|k: int|
                    {
                        &&& 0 <= k < recs.len()
                        &&& entry_name(#[trigger] recs[k]) == name
                        &&& entry_inode(recs[k]) == id
                        &&& forall|j: int| 0 <= j < k ==> entry_name(#[trigger] recs[j]) != name
                    },
                None => forall|j: int|
                    0 <= j < recs.len() ==> entry_name(#[trigger] recs[j]) != name,
            }
        }),
{
    let recs = entries(fs.files[d].content);
    let k = first_index(recs, named(name));
    lemma_first_index(recs, named(name));
    assert forall|j: int| 0 <= j < k implies entry_name(#[trigger] recs[j]) != name by {
        assert(!named(name)(recs[j]));
    }
    if k < recs.len() {
        assert(named(name)(recs[k]));
    }
}

/// A filter keeps every marked element, once and in order, and no other. The result
/// gives the place that each kept element had.
pub proof fn law_filter<A>(s: Seq<A>, marks: Seq<bool>) -> (places: Seq<int>)
    requires
        s.len() <= marks.len(),
    ensures
        places.len() == select(s, marks).len(),
        forall|j: int|
            0 <= j < places.len() ==> 0 <= #[trigger] places[j] < s.len() && marks[places[j]]
                && select(s, marks)[j] == s[places[j]],
        forall|i: int, j: int|
            0 <= i < j < places.len() ==> #[trigger] places[i] < #[trigger] places[j],
        forall|i: int| 0 <= i < s.len() && #[trigger] marks[i] ==> places.contains(i),
    decreases s.len(),
{
    if s.len() == 0 {
        Seq::empty()
    } else {
        let last = s.len() - 1;
        let init = law_filter(s.drop_last(), marks);
        if marks[last] {
            let places = init.push(last);
            assert forall|i: int| 0 <= i < s.len() && #[trigger] marks[i] implies places.contains(
                i,
            ) by {
                if i == last {
                    assert(places[init.len() as int] == i);
                } else {
                    let j = choose|j: int| 0 <= j < init.len() && init[j] == i;
                    assert(places[j] == i);
                }
            }
            places
        } else {
            init
        }
    }
}

/// Filtering two parts and joining what is kept is filtering the whole.
pub proof fn law_filters_join<A>(s: Seq<A>, t: Seq<A>, marks: Seq<bool>, more: Seq<bool>)
    requires
        s.len() == marks.len(),
        t.len() == more.len(),
    ensures
        select(s + t, marks + more) == select(s, marks) + select(t, more),
    decreases t.len(),
{
    let whole = s + t;
    let all = marks + more;
    if t.len() == 0 {
        assert(whole =~= s);
        assert(all =~= marks);
        assert(select(s, marks) + select(t, more) =~= select(s, marks));
    } else {
        let init = t.drop_last();
        let fewer = more.drop_last();
        law_filters_join(s, init, marks, fewer);
        assert(whole.drop_last() =~= s + init);
        assert(all.drop_last() =~= marks + fewer);
        lemma_select_marks(s + init, marks + fewer, all);
        lemma_select_marks(init, fewer, more);
        assert(all[whole.len() - 1] == more[t.len() - 1]);
        assert(select(whole, all) =~= select(s, marks) + select(t, more));
    }
}

/// Only the marks of the elements count.
proof fn lemma_select_marks<A>(s: Seq<A>, marks: Seq<bool>, other: Seq<bool>)
    requires
        forall|i: int| 0 <= i < s.len() ==> #[trigger] marks[i] == other[i],
    ensures
        select(s, marks) == select(s, other),
    decreases s.len(),
{
    if s.len() > 0 {
        lemma_select_marks(s.drop_last(), marks, other);
        assert(marks[s.len() - 1] == other[s.len() - 1]);
    }
}

/// A filter by a test is the selection of the elements that pass it.
proof fn lemma_filter_is_select<A>(s: Seq<A>, p: spec_fn(A) -> bool)
    ensures
        s.filter(p) == select(s, s.map_values(p)),
    decreases s.len(),
{
    reveal(Seq::filter);
    if s.len() > 0 {
        lemma_filter_is_select(s.drop_last(), p);
        lemma_select_marks(s.drop_last(), s.drop_last().map_values(p), s.map_values(p));
    }
}

/// A directory lists the name of every record that does not start with a zero byte,
/// once and in order, and no other. The result gives the record that each name is of.
pub proof fn law_ls(content: Seq<u8>) -> (places: Seq<int>)
    ensures
        ({
            let recs = entries(content);
            let names = listing(content);
            &&& places.len() == names.len()
            &&& forall|j: int|
                0 <= j < names.len() ==> 0 <= #[trigger] places[j] < recs.len()
                    && recs[places[j]][0] != 0 && names[j] == entry_name(recs[places[j]])
            &&& forall|i: int, j: int|
                0 <= i < j < names.len() ==> #[trigger] places[i] < #[trigger] places[j]
            &&& forall|i: int|
                0 <= i < recs.len() && (#[trigger] recs[i])[0] != 0 ==> places.contains(i)
        }),
{
    let recs = entries(content);
    let marks = recs.map_values(listed());
    lemma_filter_is_select(recs, listed());
    let places = law_filter(recs, marks);
    assert forall|i: int|
        0 <= i < recs.len() && (#[trigger] recs[i])[0] != 0 implies places.contains(i) by {
        assert(marks[i]);
    }
    places
}

/// Removing a name clears the records that carry it to zeros and keeps the other
/// records, the length and what stands behind the last record.
pub proof fn law_remove_name(content: Seq<u8>, name: Seq<u8>)
    ensures
        ({
            let recs = entries(content);
            let left = erase(content, name);
            &&& left.len() == content.len()
            &&& forall|i: int|
                0 <= i < recs.len() && entry_name(recs[i]) != name ==> #[trigger] entries(left)[i]
                    == recs[i]
            &&& forall|i: int, j: int|
                0 <= i < recs.len() && entry_name(recs[i]) == name && 0 <= j < 32 ==> #[trigger]
                    entries(left)[i][j] == 0
            &&& forall|p: int|
                32 * recs.len() <= p < content.len() ==> #[trigger] left[p] == content[p]
        }),
{
    lemma_entries_erase(content, name);
    let recs = entries(content);
    let left = entries(erase(content, name));
    assert forall|i: int| 0 <= i < recs.len() implies #[trigger] left[i] == erased(name)(
        recs[i],
    ) by {}
}

/// A record goes into the first cleared slot, and nothing else changes; where no slot
/// is cleared it goes behind the last record.
pub proof fn law_new_record_place(content: Seq<u8>, rec: Seq<u8>)
    requires
        rec.len() == 32,
    ensures
        ({
            let recs = entries(content);
            let after = insert(content, rec);
            &&& forall|k: int|
                0 <= k < recs.len() && (#[trigger] recs[k])[0] == 0 && (forall|j: int|
                    0 <= j < k ==> (#[trigger] recs[j])[0] != 0) ==> {
                    &&& after.len() == content.len()
                    &&& entries(after) == recs.update(k, rec)
                    &&& forall|p: int|
                        32 * recs.len() <= p < content.len() ==> #[trigger] after[p] == content[p]
                }
            &&& (forall|j: int| 0 <= j < recs.len() ==> (#[trigger] recs[j])[0] != 0) ==> {
                &&& after.len() == 32 * (recs.len() + 1)
                &&& entries(after) == recs.push(rec)
            }
        }),
{
    let recs = entries(content);
    let f = first_index(recs, cleared());
    lemma_first_index(recs, cleared());
    if f < recs.len() {
        assert(cleared()(recs[f]));
        lemma_entries_overwrite(content, f, rec);
    } else {
        lemma_entries_append(content, rec);
    }
    assert forall|k: int|
        0 <= k < recs.len() && (#[trigger] recs[k])[0] == 0 && (forall|j: int|
            0 <= j < k ==> (#[trigger] recs[j])[0] != 0) implies k == f by {
        assert forall|j: int| 0 <= j < k implies !cleared()(#[trigger] recs[j]) by {}
        lemma_first_index_is(recs, cleared(), k);
    }
    if forall|j: int| 0 <= j < recs.len() ==> (#[trigger] recs[j])[0] != 0 {
        assert forall|j: int| 0 <= j < recs.len() implies !cleared()(#[trigger] recs[j]) by {}
        lemma_first_index_is(recs, cleared(), recs.len() as int);
    }
}

/// Creating takes the lowest inode that is free and makes it an empty regular file
/// with one link. The directory gets one record with the name and that number, its
/// type and link count stay, and nothing else changes but the blocks that the
/// directory grew by. A directory whose own inode is free is the one taken and is left
/// with that record alone.
pub proof fn law_create(fs: FsView, d: int, name: Seq<u8>)
    requires
        0 <= d < fs.files.len(),
        fs.files.len() == fs.inode_used.len() <= u32::MAX,
        fs.create_fits(d, name),
    ensures
        ({
            let s = fs.next_inode();
            let after = fs.create(d, name);
            let rec = entry_record(name, s as u32);
            &&& 0 <= s < fs.files.len()
            &&& !fs.inode_used[s]
            &&& forall|x: int| 0 <= x < s ==> #[trigger] fs.inode_used[x]
            &&& after.inode_used.len() == fs.inode_used.len()
            &&& forall|x: int|
                0 <= x < fs.files.len() ==> #[trigger] after.inode_used[x] == (x == s
                    || fs.inode_used[x])
            &&& after.inode_start == fs.inode_start
            &&& after.files.len() == fs.files.len()
            &&& after.files[s].kind is File
            &&& after.files[s].nlink == 1
            &&& s != d ==> after.files[s].content.len() == 0
            &&& s == d ==> after.files[d].content == rec
            &&& s != d ==> after.files[d].content == insert(fs.files[d].content, rec)
            &&& s != d ==> after.files[d].kind == fs.files[d].kind
            &&& s != d ==> after.files[d].nlink == fs.files[d].nlink
            &&& forall|x: int|
                0 <= x < fs.files.len() && x != d && x != s ==> #[trigger] after.files[x]
                    == fs.files[x]
            &&& s != d ==> after.free_blocks + blocks_for(after.files[d].content.len() as int)
                == fs.free_blocks + blocks_for(fs.files[d].content.len() as int)
            &&& s == d ==> after.free_blocks + 1 == fs.free_blocks
        }),
{
    let s = fs.next_inode();
    let made = fs.allocate(DiskInodeType::File);
    let rec = entry_record(name, s as u32);
    lemma_first_index(fs.inode_used, unset());
    assert(unset()(fs.inode_used[s]));
    assert forall|x: int| 0 <= x < s implies #[trigger] fs.inode_used[x] by {
        assert(!unset()(fs.inode_used[x]));
    }
    lemma_entry_record(name, s as u32);
    let content = made.files[d].content;
    lemma_first_index(entries(content), cleared());
    lemma_entries_append(content, rec);
    if s == d {
        assert(content == Seq::<u8>::empty());
        assert(insert(content, rec) =~= rec);
    }
}

/// Creating fits exactly when the name has at most 27 bytes, an inode is free, and the
/// directory has a cleared slot or may grow by one record. A directory that is itself
/// the lowest free inode starts anew and needs one free block.
pub proof fn law_create_fits(fs: FsView, d: int, name: Seq<u8>)
    requires
        0 <= d < fs.files.len(),
        fs.files.len() == fs.inode_used.len(),
    ensures
        !fs.inode_used[d] && (forall|x: int| 0 <= x < d ==> #[trigger] fs.inode_used[x]) ==> (
        fs.create_fits(d, name) <==> name.len() <= 27 && fs.free_blocks >= 1),
        ({
            let recs = entries(fs.files[d].content);
            let size = 32 * (recs.len() as int + 1);
            fs.inode_used[d] || (exists|x: int| 0 <= x < d && !#[trigger] fs.inode_used[x]) ==> (
            fs.create_fits(d, name) <==> {
                &&& name.len() <= 27
                &&& exists|x: int| 0 <= x < fs.inode_used.len() && !#[trigger] fs.inode_used[x]
                &&& (exists|k: int| 0 <= k < recs.len() && (#[trigger] recs[k])[0] == 0) || (size
                    <= u32::MAX && blocks_for(size) - blocks_for(fs.files[d].content.len() as int)
                    <= fs.free_blocks)
            })
        }),
{
    let recs = entries(fs.files[d].content);
    let s = fs.next_inode();
    if exists|x: int| 0 <= x < d && !#[trigger] fs.inode_used[x] {
        let x = choose|x: int| 0 <= x < d && !#[trigger] fs.inode_used[x];
        lemma_first_index(fs.inode_used, unset());
        assert(unset()(fs.inode_used[x]));
    }
    if !fs.inode_used[d] && (forall|x: int| 0 <= x < d ==> #[trigger] fs.inode_used[x]) {
        assert forall|x: int| 0 <= x < d implies !unset()(#[trigger] fs.inode_used[x]) by {}
        lemma_first_index_is(fs.inode_used, unset(), d);
        let fresh = fs.allocate(DiskInodeType::File).files[d].content;
        lemma_first_index(entries(fresh), cleared());
        assert(entries(fresh).len() == 0);
    }
    let k = first_index(recs, cleared());
    lemma_first_index(fs.inode_used, unset());
    lemma_first_index(recs, cleared());
    if s < fs.files.len() {
        assert(unset()(fs.inode_used[s]));
    }
    if exists|x: int| 0 <= x < fs.inode_used.len() && !#[trigger] fs.inode_used[x] {
        let x = choose|x: int| 0 <= x < fs.inode_used.len() && !#[trigger] fs.inode_used[x];
        assert(unset()(fs.inode_used[x]));
    }
    if k < recs.len() {
        assert(cleared()(recs[k]));
    }
    if exists|k: int| 0 <= k < recs.len() && (#[trigger] recs[k])[0] == 0 {
        let k = choose|k: int| 0 <= k < recs.len() && (#[trigger] recs[k])[0] == 0;
        assert(cleared()(recs[k]));
    }
}

/// A link puts one record with the name and the number behind the last record of the
/// directory, raises the link count by one, and changes nothing else but the blocks
/// that the directory grew by.
pub proof fn law_link_alone(fs: FsView, d: int, name: Seq<u8>, s: int)
    requires
        0 <= d < fs.files.len() <= u32::MAX,
        0 <= s,
        fs.link_fits(d, name, s),
    ensures
        ({
            let before = fs.files[d].content;
            let after = fs.link(d, name, s);
            let content = after.files[d].content;
            &&& entries(content) == entries(before).push(entry_record(name, s as u32))
            &&& content.len() == 32 * (entries(before).len() + 1)
            &&& after.files[s].nlink == fs.files[s].nlink + 1
            &&& after.files[s].kind == fs.files[s].kind
            &&& s != d ==> after.files[s].content == fs.files[s].content
            &&& s != d ==> after.files[d].nlink == fs.files[d].nlink
            &&& after.files[d].kind == fs.files[d].kind
            &&& after.files.len() == fs.files.len()
            &&& forall|x: int|
                0 <= x < fs.files.len() && x != d && x != s ==> #[trigger] after.files[x]
                    == fs.files[x]
            &&& after.inode_used == fs.inode_used
            &&& after.inode_start == fs.inode_start
            &&& after.free_blocks + blocks_for(content.len() as int) == fs.free_blocks + blocks_for(
                before.len() as int,
            )
        }),
{
    lemma_entry_record(name, s as u32);
    lemma_entries_append(fs.files[d].content, entry_record(name, s as u32));
}

/// A link fits exactly when the inode exists and its count is not at its end, the name
/// has at most 27 bytes and the directory may grow by one record.
pub proof fn law_link_fits(fs: FsView, d: int, name: Seq<u8>, s: int)
    requires
        0 <= d < fs.files.len(),
        0 <= s,
    ensures
        ({
            let size = 32 * (entries(fs.files[d].content).len() as int + 1);
            fs.link_fits(d, name, s) <==> {
                &&& s < fs.files.len()
                &&& fs.files[s].nlink < 0xffff_ffff
                &&& name.len() <= 27
                &&& size <= 0xffff_ffff
                &&& blocks_for(size) - blocks_for(fs.files[d].content.len() as int)
                    <= fs.free_blocks
            }
        }),
{
}

/// Unlinking lowers the link count by one and changes nothing else while a link is
/// left. With the last link the inode is emptied and free again, its blocks are free,
/// and the records of the name are gone from the directory.
pub proof fn law_unlink_alone(fs: FsView, d: int, name: Seq<u8>, s: int)
    requires
        0 <= d < fs.files.len() == fs.inode_used.len(),
        0 <= s,
        fs.unlink_fits(s),
    ensures
        ({
            let after = fs.unlink(d, name, s);
            let last = fs.files[s].nlink == 1;
            &&& after.files[s].nlink == fs.files[s].nlink - 1
            &&& after.files[s].kind == fs.files[s].kind
            &&& last ==> after.files[s].content.len() == 0
            &&& !last ==> after.files[s].content == fs.files[s].content
            &&& s != d ==> after.files[d].nlink == fs.files[d].nlink
            &&& s != d ==> after.files[d].kind == fs.files[d].kind
            &&& s != d ==> after.files[d].content == if last {
                erase(fs.files[d].content, name)
            } else {
                fs.files[d].content
            }
            &&& after.files.len() == fs.files.len()
            &&& forall|x: int|
                0 <= x < fs.files.len() && x != d && x != s ==> #[trigger] after.files[x]
                    == fs.files[x]
            &&& after.inode_used.len() == fs.inode_used.len()
            &&& forall|x: int|
                0 <= x < fs.files.len() ==> #[trigger] after.inode_used[x] == (fs.inode_used[x]
                    && !(last && x == s))
            &&& after.inode_start == fs.inode_start
            &&& after.free_blocks == fs.free_blocks + if last {
                blocks_for(fs.files[s].content.len() as int)
            } else {
                0
            }
        }),
{
}

/// Unlinking fits exactly when the inode exists, has a link, and is in use where it is
/// the last.
pub proof fn law_unlink_fits(fs: FsView, s: int)
    requires
        0 <= s,
    ensures
        fs.unlink_fits(s) <==> s < fs.files.len() && (fs.files[s].nlink >= 2 || fs.files[s].nlink
            == 1 && fs.inode_used[s]),
{
}

// --------------------------------------------------------------- open files
/// The flags are the bits 0, 1, 9 and 10: writing alone, reading and writing, creating
/// and emptying.
pub proof fn law_open_flags(flags: u32)
    ensures
        WRONLY == 0x1 && RDWR == 0x2 && CREATE == 0x200 && TRUNC == 0x400,
        known_flags(flags) <==> flags == (flags & 0x1) + (flags & 0x2) + (flags & 0x200) + (flags
            & 0x400),
        creates(flags) <==> (flags / 0x200) % 2 == 1,
        truncates(flags) <==> (flags / 0x400) % 2 == 1,
{
    assert(flags & !0x603u32 == 0 <==> flags == (flags & 0x1) + (flags & 0x2) + (flags & 0x200) + (
    flags & 0x400)) by (bit_vector);
    assert(flags & 0x200 != 0 <==> (flags / 0x200) % 2 == 1) by (bit_vector);
    assert(flags & 0x400 != 0 <==> (flags / 0x400) % 2 == 1) by (bit_vector);
}

/// A file may be read unless it is opened for writing alone, and written unless it is
/// opened without any flag.
pub proof fn law_open_access(flags: u32)
    ensures
        access(flags).0 <==> flags % 2 == 0,
        access(flags).1 <==> flags != 0,
{
    assert(flags & 1 != 0 <==> flags % 2 == 1) by (bit_vector);
}

/// Opening a name that the directory finds leads to its inode whatever the flags are,
/// and empties it where creating or emptying is asked for. Opening one that it does not
/// find makes the file where creating is asked for, and is else refused. Without either
/// flag nothing changes.
pub proof fn law_open_by_name(fs: FsView, d: int, name: Seq<u8>, flags: u32)
    ensures
        fs.find(d, name) matches Some(id) ==> open_target(fs, d, name, flags) == Some(id),
        fs.find(d, name) is None && flags & 0x200 != 0 ==> open_target(fs, d, name, flags) == Some(
            fs.next_inode() as u32,
        ) && open_effect(fs, d, name, flags) == fs.create(d, name),
        open_target(fs, d, name, flags) is None <==> fs.find(d, name) is None && flags & 0x200 == 0,
        fs.find(d, name) matches Some(id) ==> (flags & 0x200 != 0 || flags & 0x400 != 0)
            ==> open_effect(fs, d, name, flags) == fs.clear(id as int),
        fs.find(d, name) is None && flags & 0x200 == 0 ==> open_effect(fs, d, name, flags) == fs,
        flags & 0x200 == 0 && flags & 0x400 == 0 ==> open_effect(fs, d, name, flags) == fs,
{
}

/// Opening fits exactly when what it has to do does: a name that is found leads to an
/// inode that exists where it is to be emptied, and one that is to be made fits.
pub proof fn law_open_fits(fs: FsView, d: int, name: Seq<u8>, flags: u32)
    ensures
        flags & 0x200 == 0 && flags & 0x400 == 0 ==> open_fits(fs, d, name, flags),
        fs.find(d, name) is None && flags & 0x200 == 0 ==> open_fits(fs, d, name, flags),
        fs.find(d, name) is None && flags & 0x200 != 0 ==> (open_fits(fs, d, name, flags)
            <==> fs.create_fits(d, name)),
        fs.find(d, name) matches Some(id) ==> (flags & 0x200 != 0 || flags & 0x400 != 0) ==> (
        open_fits(fs, d, name, flags) <==> id < fs.files.len()),
{
}

/// A descriptor is open exactly when the table has a file there. The next one given out
/// is the lowest that is not, and a file installed there makes the table longer only
/// where every descriptor was open.
pub proof fn law_descriptors(inner: TaskControlBlockInner, file: Option<File>)
    ensures
        ({
            let table = inner.fd_table@;
            let fd = inner.next_fd();
            let after = installed(table, file);
            &&& forall|x: int| #[trigger]
                inner.is_open(x) <==> 0 <= x < table.len() && table[x] is Some
            &&& 0 <= fd <= table.len()
            &&& !inner.is_open(fd)
            &&& forall|x: int| 0 <= x < fd ==> #[trigger] inner.is_open(x)
            &&& after.len() == if fd < table.len() {
                table.len()
            } else {
                table.len() + 1
            }
            &&& after[fd] == file
            &&& forall|x: int| 0 <= x < table.len() && x != fd ==> #[trigger] after[x] == table[x]
        }),
{
    let table = inner.fd_table@;
    let fd = inner.next_fd();
    lemma_first_index(table, closed_fd());
    assert forall|x: int| 0 <= x < fd implies #[trigger] inner.is_open(x) by {
        assert(!closed_fd()(table[x]));
    }
    if fd < table.len() {
        assert(closed_fd()(table[fd]));
    }
}

// ------------------------------------------------------ processes and memory
/// A wait ends with the first child that has ended and has the number asked for, -1
/// asking for any: it is found whenever there is one, whatever its exit code. There is
/// nothing to wait for exactly when no child has the number.
pub proof fn law_wait(children: Seq<TaskControlBlock>, pid: isize)
    ensures
        ({
            let any = first_index(children, awaited(pid));
            let k = first_index(children, collectable(pid));
            &&& 0 <= any <= children.len()
            &&& 0 <= k <= children.len()
            &&& any == children.len() <==> forall|j: int|
                0 <= j < children.len() ==> pid != -1 && pid as usize != (
                #[trigger] children[j]).pid
            &&& k == children.len() <==> forall|j: int|
                0 <= j < children.len() && (pid == -1 || pid as usize == (
                #[trigger] children[j]).pid) ==> !(children[j].inner.task_status is Zombie)
            &&& k < children.len() ==> {
                &&& children[k].inner.task_status is Zombie
                &&& pid == -1 || pid as usize == children[k].pid
                &&& forall|j: int|
                    0 <= j < k && (pid == -1 || pid as usize == (#[trigger] children[j]).pid)
                        ==> !(children[j].inner.task_status is Zombie)
            }
        }),
{
    let any = first_index(children, awaited(pid));
    let k = first_index(children, collectable(pid));
    lemma_first_index(children, awaited(pid));
    lemma_first_index(children, collectable(pid));
    assert forall|j: int| 0 <= j < any implies pid != -1 && pid as usize != (
    #[trigger] children[j]).pid by {
        assert(!awaited(pid)(children[j]));
    }
    assert forall|j: int|
        0 <= j < k && (pid == -1 || pid as usize == (#[trigger] children[j]).pid) implies !(
    children[j].inner.task_status is Zombie) by {
        assert(!collectable(pid)(children[j]));
    }
    if any < children.len() {
        assert(awaited(pid)(children[any]));
    }
    if k < children.len() {
        assert(collectable(pid)(children[k]));
    }
}

/// A mapping is valid exactly when its port has a bit among the three lowest and no
/// other, and it starts at a multiple of the page size.
pub proof fn law_mmap_valid(start: usize, port: usize)
    ensures
        mmap_valid(start, port) <==> port & 7 != 0 && port & !7usize == 0 && start % 4096 == 0,
{
    assert((port & 7 != 0 && port & !7usize == 0) <==> (1 <= port && port <= 7)) by (bit_vector);
}

/// A mapping allows access from user mode and what the port asks for, each bit one place
/// higher, and nothing else.
pub proof fn law_mmap_bits(port: usize)
    requires
        port <= 7,
    ensures
        mmap_permission(port).bits == 0x10u8 | ((port as u8) << 1),
{
    let b: u8 = port as u8;
    assert(b <= 7 ==> 16u8 | (b << 1) == 16 + 2 * b) by (bit_vector);
}

/// Bits 1 to 4 of a permission stand for reading, writing, executing and access from
/// user mode.
pub proof fn law_permission_bits(p: MapPermission)
    ensures
        p.readable() <==> (p.bits / 2) % 2 == 1,
        p.writable() <==> (p.bits / 4) % 2 == 1,
        p.executable() <==> (p.bits / 8) % 2 == 1,
        p.user() <==> (p.bits / 16) % 2 == 1,
{
    let x: u8 = p.bits;
    assert(x & 2 != 0 <==> (x / 2) % 2 == 1) by (bit_vector);
    assert(x & 4 != 0 <==> (x / 4) % 2 == 1) by (bit_vector);
    assert(x & 8 != 0 <==> (x / 8) % 2 == 1) by (bit_vector);
    assert(x & 16 != 0 <==> (x / 16) % 2 == 1) by (bit_vector);
}

} // verus!
