//! What holds of the library as a whole, across operations.

use crate::directory::{
    erased, lemma_entries_append, lemma_entries_erase, lemma_entries_overwrite, lemma_listing,
    lemma_listing_insert_erase, lemma_lookup_append, lemma_lookup_erase, lemma_lookup_insert,
    lemma_names_append, lemma_names_erase, lemma_names_insert,
};
use crate::file::{creates, open_effect, open_fits, open_target, truncates, File};
use crate::layout::{
    blocks_for, entry_name, entry_record, is_nul, lemma_empty_record, lemma_entry_record, storable,
    DiskInodeType,
};
use crate::model::{
    append, cleared, entries, entry_count, erase, insert, listing, names_distinct, overwrite,
    read_into, select, span, unset, zeros, FileView, FsView,
};
use crate::search::{first_index, lemma_first_index, lemma_first_index_is};
use crate::syscall::process::{awaited, collectable, mmap_permission};
use crate::task::{closed_fd, installed, TaskControlBlock};
use crate::vfs::lemma_position;
use vstd::prelude::*;
use vstd::utf8::*;

verus! {

// ---------------------------------------------------------------- positions
/// No two inodes share a position.
pub proof fn law_positions_distinct(fs: FsView, s1: int, s2: int)
    requires
        0 <= s1 < fs.files.len(),
        0 <= s2 < fs.files.len(),
        fs.position(s1) == fs.position(s2),
    ensures
        s1 == s2,
{
    lemma_position(fs, s1);
    lemma_position(fs, s2);
}

/// A handle that leads to an inode keeps leading to the same slot, whatever is done
/// to the file system.
pub proof fn law_handles_stay_valid(
    fs: FsView,
    pos: (int, int),
    d: int,
    s: int,
    name: Seq<u8>,
    offset: int,
    data: Seq<u8>,
)
    requires
        fs.is_position(pos),
        0 <= d < fs.files.len(),
        0 <= s < fs.files.len(),
        fs.files.len() == fs.inode_used.len(),
    ensures
        ({
            let keeps = |after: FsView| after.is_position(pos) && after.slot(pos) == fs.slot(pos);
            &&& keeps(fs.write(s, offset, data))
            &&& keeps(fs.clear(s))
            &&& fs.next_inode() < fs.files.len() ==> keeps(fs.create(d, name))
            &&& keeps(fs.link(d, name, s))
            &&& keeps(fs.unlink(d, name, s))
        }),
{
    lemma_first_index(fs.inode_used, unset());
}

/// No operation changes what an inode in use stands for.
pub proof fn law_types_stay(
    fs: FsView,
    x: int,
    d: int,
    s: int,
    name: Seq<u8>,
    offset: int,
    data: Seq<u8>,
)
    requires
        0 <= x < fs.files.len(),
        fs.files.len() == fs.inode_used.len(),
        fs.inode_used[x],
        0 <= d < fs.files.len(),
        0 <= s < fs.files.len(),
    ensures
        fs.write(s, offset, data).files[x].kind == fs.files[x].kind,
        fs.clear(s).files[x].kind == fs.files[x].kind,
        fs.next_inode() < fs.files.len() ==> fs.create(d, name).files[x].kind == fs.files[x].kind,
        fs.link(d, name, s).files[x].kind == fs.files[x].kind,
        fs.unlink(d, name, s).files[x].kind == fs.files[x].kind,
{
    lemma_first_index(fs.inode_used, unset());
}

// ------------------------------------------------------------ file contents
/// A read gives back what a write wrote.
pub proof fn law_read_after_write(fs: FsView, s: int, offset: int, data: Seq<u8>, buf: Seq<u8>)
    requires
        0 <= s < fs.files.len(),
        0 <= offset,
        offset + data.len() <= u32::MAX,
        buf.len() == data.len(),
    ensures
        ({
            let content = fs.write(s, offset, data).files[s].content;
            &&& span(content.len() as int, offset, buf.len() as int) == data.len()
            &&& read_into(content, offset, buf) == data
        }),
{
    let content = fs.write(s, offset, data).files[s].content;
    assert(read_into(content, offset, buf) =~= data);
}

/// A write changes the bytes it covers and no others: the file reaches as far as
/// it did or as the write does, bytes outside the write stay, a gap before it
/// reads zero, and every other file, every link count and the inode bitmap stay.
pub proof fn law_write_is_local(fs: FsView, s: int, offset: int, data: Seq<u8>)
    requires
        0 <= s < fs.files.len(),
        0 <= offset,
        offset + data.len() <= u32::MAX,
    ensures
        ({
            let old_content = fs.files[s].content;
            let after = fs.write(s, offset, data);
            let content = after.files[s].content;
            &&& content.len() == if offset + data.len() > old_content.len() {
                offset + data.len()
            } else {
                old_content.len() as int
            }
            &&& forall|i: int|
                0 <= i < content.len() && !(offset <= i < offset + data.len())
                    ==> #[trigger] content[i] == (if i < old_content.len() {
                    old_content[i]
                } else {
                    0u8
                })
            &&& after.files[s].kind == fs.files[s].kind
            &&& after.files[s].nlink == fs.files[s].nlink
            &&& after.files.len() == fs.files.len()
            &&& forall|x: int|
                0 <= x < fs.files.len() && x != s ==> #[trigger] after.files[x] == fs.files[x]
            &&& after.inode_used == fs.inode_used
        }),
{
}

/// After a clear the file has no bytes to read and its blocks are free.
pub proof fn law_clear(fs: FsView, s: int, offset: int, buf: Seq<u8>)
    requires
        0 <= s < fs.files.len(),
        0 <= offset,
    ensures
        ({
            let after = fs.clear(s);
            &&& span(after.files[s].content.len() as int, offset, buf.len() as int) == 0
            &&& read_into(after.files[s].content, offset, buf) == buf
            &&& after.free_blocks == fs.free_blocks + blocks_for(fs.files[s].content.len() as int)
        }),
{
    let after = fs.clear(s);
    assert(read_into(after.files[s].content, offset, buf) =~= buf);
}

// ---------------------------------------------------------- names and inodes
/// A created file is found under its name, and is empty, regular, in use and once
/// linked.
pub proof fn law_create_then_find(fs: FsView, d: int, name: Seq<u8>)
    requires
        0 <= d < fs.files.len(),
        fs.files.len() == fs.inode_used.len() <= u32::MAX,
        fs.inode_used[d],
        fs.find(d, name) is None,
        fs.create_fits(d, name),
        storable(name),
    ensures
        ({
            let s = fs.next_inode();
            let after = fs.create(d, name);
            &&& after.find(d, name) == Some(s as u32)
            &&& after.files[s] == FileView::fresh(DiskInodeType::File)
            &&& !fs.inode_used[s]
            &&& after.inode_used[s]
        }),
{
    let s = fs.next_inode();
    lemma_first_index(fs.inode_used, unset());
    lemma_entry_record(name, s as u32);
    let made = fs.allocate(DiskInodeType::File);
    lemma_lookup_insert(made.files[d].content, entry_record(name, s as u32), name);
}

/// Creating a file leaves every other name and every other file alone.
pub proof fn law_create_keeps_others(fs: FsView, d: int, name: Seq<u8>, other: Seq<u8>)
    requires
        0 <= d < fs.files.len(),
        fs.files.len() == fs.inode_used.len() <= u32::MAX,
        fs.inode_used[d],
        fs.find(d, name) is None,
        fs.create_fits(d, name),
        storable(name),
        other != name,
        other.len() > 0,
    ensures
        fs.create(d, name).find(d, other) == fs.find(d, other),
        forall|x: int|
            0 <= x < fs.files.len() && x != d && x != fs.next_inode() ==> #[trigger] fs.create(
                d,
                name,
            ).files[x] == fs.files[x],
{
    let s = fs.next_inode();
    lemma_first_index(fs.inode_used, unset());
    lemma_entry_record(name, s as u32);
    let made = fs.allocate(DiskInodeType::File);
    lemma_lookup_insert(made.files[d].content, entry_record(name, s as u32), other);
}

/// Creating a file, whether it is refused or not, keeps the names of a directory
/// apart: the records that name something carry pairwise distinct names.
pub proof fn law_create_keeps_names_distinct(fs: FsView, d: int, name: Seq<u8>)
    requires
        0 <= d < fs.files.len(),
        fs.files.len() == fs.inode_used.len() <= u32::MAX,
        storable(name),
        fs.find(d, name) is None ==> fs.create_fits(d, name),
        names_distinct(entries(fs.files[d].content)),
    ensures
        ({
            let after = match fs.find(d, name) {
                Some(_) => fs,
                None => fs.create(d, name),
            };
            names_distinct(entries(after.files[d].content))
        }),
{
    if fs.find(d, name) is None {
        let s = fs.next_inode();
        let made = fs.allocate(DiskInodeType::File);
        lemma_first_index(fs.inode_used, unset());
        lemma_entry_record(name, s as u32);
        lemma_names_insert(made.files[d].content, entry_record(name, s as u32));
    }
}

/// A hard link under a name that leads nowhere yet keeps the names of a directory
/// apart.
pub proof fn law_link_keeps_names_distinct(fs: FsView, d: int, name: Seq<u8>, s: u32)
    requires
        0 <= d < fs.files.len(),
        storable(name),
        fs.find(d, name) is None,
        fs.link_fits(d, name, s as int),
        names_distinct(entries(fs.files[d].content)),
    ensures
        names_distinct(entries(fs.link(d, name, s as int).files[d].content)),
{
    lemma_entry_record(name, s);
    lemma_names_append(fs.files[d].content, entry_record(name, s));
}

/// Unlinking keeps the names of a directory apart.
pub proof fn law_unlink_keeps_names_distinct(fs: FsView, d: int, name: Seq<u8>, s: int)
    requires
        0 <= d < fs.files.len(),
        0 <= s,
        fs.unlink_fits(s),
        names_distinct(entries(fs.files[d].content)),
    ensures
        names_distinct(entries(fs.unlink(d, name, s).files[d].content)),
{
    lemma_names_erase(fs.files[d].content, name);
    lemma_names_erase(Seq::empty(), name);
}

/// A directory lists exactly the non-empty names that it finds.
pub proof fn law_ls_lists_what_find_finds(fs: FsView, d: int, name: Seq<u8>)
    ensures
        listing(fs.files[d].content).contains(name) <==> name.len() > 0 && fs.find(d, name) is Some,
{
    lemma_listing(fs.files[d].content, name);
}

/// A directory that has a cleared slot does not grow when a file is created.
pub proof fn law_create_reuses_cleared_slot(fs: FsView, d: int, name: Seq<u8>, k: int)
    requires
        0 <= d < fs.files.len(),
        fs.files.len() == fs.inode_used.len() <= u32::MAX,
        fs.inode_used[d],
        0 <= k < entry_count(fs.files[d].content),
        entries(fs.files[d].content)[k][0] == 0,
        fs.next_inode() < fs.files.len(),
    ensures
        fs.create(d, name).files[d].content.len() == fs.files[d].content.len(),
        fs.create(d, name).free_blocks == fs.free_blocks,
{
    lemma_first_index(fs.inode_used, unset());
    lemma_first_index(entries(fs.files[d].content), cleared());
    assert(cleared()(entries(fs.files[d].content)[k]));
}

/// A hard link adds one name and one link: the new name leads to the linked inode
/// unless it led somewhere before, and no other name changes.
pub proof fn law_link(fs: FsView, d: int, name: Seq<u8>, s: u32, other: Seq<u8>)
    requires
        0 <= d < fs.files.len(),
        fs.link_fits(d, name, s as int),
        storable(name),
    ensures
        ({
            let after = fs.link(d, name, s as int);
            &&& after.find(d, other) == match fs.find(d, other) {
                Some(id) => Some(id),
                None => if other == name {
                    Some(s)
                } else {
                    None
                },
            }
            &&& after.files[s as int].nlink == fs.files[s as int].nlink + 1
            &&& s != d ==> after.files[s as int].content == fs.files[s as int].content
        }),
{
    lemma_entry_record(name, s);
    lemma_lookup_append(fs.files[d].content, entry_record(name, s), other);
}

/// Taking a link that is not the last one changes that link count and nothing
/// else: the name itself still leads to the inode.
pub proof fn law_unlink_keeps_linked_file(fs: FsView, d: int, name: Seq<u8>, s: int)
    requires
        0 <= d < fs.files.len(),
        0 <= s < fs.files.len(),
        fs.files[s].nlink > 1,
    ensures
        fs.unlink(d, name, s) == fs.with_nlink(s, fs.files[s].nlink - 1),
        forall|other: Seq<u8>| #[trigger]
            fs.unlink(d, name, s).find(d, other) == fs.find(d, other),
{
    let after = fs.unlink(d, name, s);
    assert(after.files[d].content == fs.files[d].content);
}

/// Taking the last link frees the inode and its blocks, and the name is gone while
/// every other name stays.
pub proof fn law_unlink_last(fs: FsView, d: int, name: Seq<u8>, s: int, other: Seq<u8>)
    requires
        0 <= d < fs.files.len(),
        0 <= s < fs.files.len(),
        fs.files.len() == fs.inode_used.len(),
        s != d,
        fs.files[s].nlink == 1,
        other.len() > 0,
    ensures
        ({
            let after = fs.unlink(d, name, s);
            &&& after.find(d, other) == if other == name {
                None
            } else {
                fs.find(d, other)
            }
            &&& !after.inode_used[s]
            &&& after.files[s].content.len() == 0
            &&& after.files[s].nlink == 0
            &&& after.files[d].content.len() == fs.files[d].content.len()
            &&& after.free_blocks == fs.free_blocks + blocks_for(fs.files[s].content.len() as int)
        }),
{
    lemma_lookup_erase(fs.files[d].content, name, other);
}

/// Unlinking a file just created brings back the names and their order, the inode
/// bitmap and every other file.
pub proof fn law_create_then_unlink(fs: FsView, d: int, name: Seq<u8>, other: Seq<u8>)
    requires
        0 <= d < fs.files.len(),
        fs.files.len() == fs.inode_used.len() <= u32::MAX,
        fs.inode_used[d],
        fs.find(d, name) is None,
        fs.create_fits(d, name),
        storable(name),
        other.len() > 0,
    ensures
        ({
            let s = fs.next_inode();
            let made = fs.create(d, name);
            let after = made.unlink(d, name, s);
            &&& made.unlink_fits(s)
            &&& after.find(d, other) == fs.find(d, other)
            &&& listing(after.files[d].content) == listing(fs.files[d].content)
            &&& after.inode_used == fs.inode_used
            &&& forall|x: int|
                0 <= x < fs.files.len() && x != d && x != s ==> #[trigger] after.files[x]
                    == fs.files[x]
        }),
{
    let s = fs.next_inode();
    lemma_first_index(fs.inode_used, unset());
    law_create_then_find(fs, d, name);
    let made = fs.create(d, name);
    law_unlink_last(made, d, name, s, other);
    if other != name {
        law_create_keeps_others(fs, d, name, other);
    }
    assert(made.unlink(d, name, s).inode_used =~= fs.inode_used);
    lemma_entry_record(name, s as u32);
    lemma_listing_insert_erase(fs.files[d].content, entry_record(name, s as u32));
}

/// After a link, unlinking brings the link count back and keeps both names.
pub proof fn law_link_then_unlink(fs: FsView, d: int, name: Seq<u8>, s: u32, other: Seq<u8>)
    requires
        0 <= d < fs.files.len(),
        fs.link_fits(d, name, s as int),
        fs.files[s as int].nlink > 0,
    ensures
        ({
            let linked = fs.link(d, name, s as int);
            let after = linked.unlink(d, name, s as int);
            &&& after.files[s as int].nlink == fs.files[s as int].nlink
            &&& after.find(d, other) == linked.find(d, other)
        }),
{
    law_unlink_keeps_linked_file(fs.link(d, name, s as int), d, name, s as int);
}

/// A file that is created and written is found under its name with those bytes:
/// what a later `exec` or `spawn` of that name loads.
pub proof fn law_create_write_load(fs: FsView, d: int, name: Seq<u8>, data: Seq<u8>)
    requires
        0 <= d < fs.files.len(),
        fs.files.len() == fs.inode_used.len() <= u32::MAX,
        fs.inode_used[d],
        fs.find(d, name) is None,
        fs.create_fits(d, name),
        storable(name),
        data.len() <= u32::MAX,
    ensures
        ({
            let s = fs.next_inode();
            let after = fs.create(d, name).write(s, 0, data);
            &&& after.find(d, name) == Some(s as u32)
            &&& after.files[s].content == data
        }),
{
    let s = fs.next_inode();
    lemma_first_index(fs.inode_used, unset());
    law_create_then_find(fs, d, name);
    let made = fs.create(d, name);
    law_write_is_local(made, s, 0, data);
    assert(made.write(s, 0, data).files[s].content =~= data);
}

/// A file opened with `CREATE` is there, under its name, and empty; one opened with
/// `TRUNC` is empty; and opening with neither changes nothing.
pub proof fn law_open(fs: FsView, d: int, name: Seq<u8>, flags: u32)
    requires
        0 <= d < fs.files.len(),
        fs.files.len() == fs.inode_used.len() <= u32::MAX,
        fs.inode_used[d],
        open_fits(fs, d, name, flags),
    ensures
        ({
            let after = open_effect(fs, d, name, flags);
            &&& creates(flags) ==> open_target(fs, d, name, flags) is Some
            &&& creates(flags) || truncates(flags) ==> (open_target(fs, d, name, flags) matches Some(
                id,
            ) ==> after.files[id as int].content.len() == 0)
            &&& !creates(flags) && !truncates(flags) ==> after == fs
            &&& storable(name) || fs.find(d, name) is Some ==> (open_target(
                fs,
                d,
                name,
                flags,
            ) matches Some(id) ==> id != d ==> after.find(d, name) == Some(id))
        }),
{
    lemma_first_index(fs.inode_used, unset());
    if fs.find(d, name) is None && creates(flags) && storable(name) {
        law_create_then_find(fs, d, name);
    }
}

/// A filter that keeps everything yields every record in order, and one that keeps
/// nothing yields none.
pub proof fn law_filter_all_or_nothing<A>(s: Seq<A>, marks: Seq<bool>, keep: bool)
    requires
        forall|i: int| 0 <= i < s.len() ==> #[trigger] marks[i] == keep,
    ensures
        select(s, marks) == if keep {
            s
        } else {
            Seq::empty()
        },
    decreases s.len(),
{
    if s.len() > 0 {
        law_filter_all_or_nothing(s.drop_last(), marks, keep);
        assert(s.drop_last().push(s.last()) =~= s);
        assert(marks[s.len() - 1] == keep);
    }
}

// --------------------------------------------------------- block accounting
/// Blocks that the files hold.
pub open spec fn held_blocks(files: Seq<FileView>) -> int
    decreases files.len(),
{
    if files.len() == 0 {
        0
    } else {
        held_blocks(files.drop_last()) + blocks_for(files.last().content.len() as int)
    }
}

/// Blocks of the device that are free or held by a file.
pub open spec fn accounted(fs: FsView) -> int {
    fs.free_blocks + held_blocks(fs.files)
}

/// Every inode slot that is not in use is empty.
pub open spec fn tidy(fs: FsView) -> bool {
    &&& fs.files.len() == fs.inode_used.len()
    &&& forall|s: int|
        0 <= s < fs.files.len() && !fs.inode_used[s] ==> (#[trigger] fs.files[s]).content.len() == 0
}

/// Replacing one file changes the sum by the difference of the two.
proof fn lemma_held_update(files: Seq<FileView>, s: int, f: FileView)
    requires
        0 <= s < files.len(),
    ensures
        held_blocks(files.update(s, f)) == held_blocks(files) + blocks_for(f.content.len() as int)
            - blocks_for(files[s].content.len() as int),
    decreases files.len(),
{
    let other = files.update(s, f);
    if s == files.len() - 1 {
        assert(other.drop_last() =~= files.drop_last());
    } else {
        assert(other.drop_last() =~= files.drop_last().update(s, f));
        lemma_held_update(files.drop_last(), s, f);
    }
}

/// New bytes in a file lose no block and make none.
proof fn lemma_content_accounted(fs: FsView, s: int, content: Seq<u8>)
    requires
        0 <= s < fs.files.len(),
        fs.demand(s, content.len() as int) <= fs.free_blocks,
    ensures
        accounted(fs.with_content(s, content)) == accounted(fs),
{
    lemma_held_update(fs.files, s, FileView { content, ..fs.files[s] });
}

/// In a new file system every block is free, and no slot but the root's is in use.
pub proof fn law_formatted_accounts(inode_start: u32, inodes: nat, data_blocks: nat)
    ensures
        accounted(FsView::formatted(inode_start, inodes, data_blocks)) == data_blocks,
        tidy(FsView::formatted(inode_start, inodes, data_blocks)),
{
    let fs = FsView::formatted(inode_start, inodes, data_blocks);
    lemma_held_none(fs.files);
}

/// Empty files hold no block.
proof fn lemma_held_none(files: Seq<FileView>)
    requires
        forall|s: int| 0 <= s < files.len() ==> (#[trigger] files[s]).content.len() == 0,
    ensures
        held_blocks(files) == 0,
    decreases files.len(),
{
    if files.len() > 0 {
        lemma_held_none(files.drop_last());
    }
}

/// A write loses no block and makes none, and keeps unused slots empty where it
/// goes to a file in use.
pub proof fn law_write_accounts(fs: FsView, s: int, offset: int, data: Seq<u8>)
    requires
        0 <= s < fs.files.len(),
        0 <= offset,
        fs.write_fits(s, offset, data.len() as int),
    ensures
        accounted(fs.write(s, offset, data)) == accounted(fs),
        tidy(fs) && fs.inode_used[s] ==> tidy(fs.write(s, offset, data)),
{
    let end = FsView::write_end(offset, data.len() as int);
    let content = fs.files[s].content;
    let grown = fs.grow(s, end);
    if end >= content.len() {
        lemma_content_accounted(fs, s, content + zeros(end - content.len()));
    }
    let g = grown.files[s].content;
    let n = span(g.len() as int, offset, data.len() as int);
    lemma_content_accounted(grown, s, overwrite(g, offset, data.take(n)));
}

/// A clear loses no block and makes none, and keeps unused slots empty.
pub proof fn law_clear_accounts(fs: FsView, s: int)
    requires
        0 <= s < fs.files.len(),
    ensures
        accounted(fs.clear(s)) == accounted(fs),
        tidy(fs) ==> tidy(fs.clear(s)),
{
    lemma_content_accounted(fs, s, Seq::empty());
}

/// Creating a file where unused slots are empty loses no block and makes none, and
/// keeps them empty.
pub proof fn law_create_accounts(fs: FsView, d: int, name: Seq<u8>)
    requires
        0 <= d < fs.files.len(),
        fs.files.len() <= u32::MAX,
        tidy(fs),
        fs.inode_used[d],
        fs.create_fits(d, name),
    ensures
        accounted(fs.create(d, name)) == accounted(fs),
        tidy(fs.create(d, name)),
{
    let s = fs.next_inode();
    lemma_first_index(fs.inode_used, unset());
    let made = fs.allocate(DiskInodeType::File);
    lemma_held_update(fs.files, s, FileView::fresh(DiskInodeType::File));
    lemma_entry_record(name, s as u32);
    let rec = entry_record(name, s as u32);
    let content = made.files[d].content;
    lemma_first_index(entries(content), cleared());
    lemma_entries_append(content, rec);
    lemma_content_accounted(made, d, insert(content, rec));
}

/// Adding a name loses no block and makes none, and keeps unused slots empty where
/// the directory is in use.
pub proof fn law_link_accounts(fs: FsView, d: int, name: Seq<u8>, s: int)
    requires
        0 <= d < fs.files.len(),
        0 <= s <= u32::MAX,
        fs.link_fits(d, name, s),
    ensures
        accounted(fs.link(d, name, s)) == accounted(fs),
        tidy(fs) && fs.inode_used[d] ==> tidy(fs.link(d, name, s)),
{
    lemma_entry_record(name, s as u32);
    let rec = entry_record(name, s as u32);
    lemma_entries_append(fs.files[d].content, rec);
    let linked = fs.with_content(d, append(fs.files[d].content, rec));
    lemma_content_accounted(fs, d, append(fs.files[d].content, rec));
    lemma_held_update(
        linked.files,
        s,
        FileView { nlink: (linked.files[s].nlink + 1) as u32, ..linked.files[s] },
    );
}

/// Taking a link loses no block and makes none, and keeps unused slots empty.
pub proof fn law_unlink_accounts(fs: FsView, d: int, name: Seq<u8>, s: int)
    requires
        0 <= d < fs.files.len(),
        0 <= s,
        fs.unlink_fits(s),
    ensures
        accounted(fs.unlink(d, name, s)) == accounted(fs),
        tidy(fs) ==> tidy(fs.unlink(d, name, s)),
{
    let dropped = fs.with_nlink(s, fs.files[s].nlink - 1);
    lemma_held_update(
        fs.files,
        s,
        FileView { nlink: (fs.files[s].nlink - 1) as u32, ..fs.files[s] },
    );
    if dropped.files[s].nlink == 0 {
        lemma_content_accounted(dropped, s, Seq::empty());
        let freed = dropped.clear(s).release(s);
        lemma_content_accounted(freed, d, erase(freed.files[d].content, name));
    }
}

// ------------------------------------------------------------- names as text
/// Every record of the directory carries a name that is valid UTF-8.
pub open spec fn names_valid(content: Seq<u8>) -> bool {
    forall|i: int|
        0 <= i < entry_count(content) ==> valid_utf8(#[trigger] entry_name(entries(content)[i]))
}

/// Such a directory can be listed.
pub proof fn law_valid_names_can_be_listed(content: Seq<u8>)
    requires
        names_valid(content),
    ensures
        forall|i: int|
            0 <= i < listing(content).len() ==> valid_utf8(#[trigger] listing(content)[i]),
{
    assert forall|i: int| 0 <= i < listing(content).len() implies valid_utf8(
        #[trigger] listing(content)[i],
    ) by {
        let name = listing(content)[i];
        assert(listing(content).contains(name));
        lemma_listing(content, name);
        lemma_first_index(entries(content), crate::model::named(name));
        let k = first_index(entries(content), crate::model::named(name));
        assert(entry_name(entries(content)[k]) == name);
    }
}

/// The name that a record gives back is valid UTF-8 where the stored name is.
proof fn lemma_stored_name_valid(name: Seq<u8>, inode_number: u32)
    requires
        name.len() <= 27,
        valid_utf8(name),
    ensures
        valid_utf8(entry_name(entry_record(name, inode_number))),
{
    let rec = entry_record(name, inode_number);
    let field = rec.take(28);
    lemma_first_index(field, is_nul());
    let k = first_index(field, is_nul());
    assert(is_nul()(field[name.len() as int]));
    assert(k <= name.len());
    assert(entry_name(rec) =~= name.subrange(0, k));
    if k < name.len() {
        assert(name[k] == 0);
        is_char_boundary_iff_not_is_continuation_byte(name, k);
    } else {
        is_char_boundary_start_end_of_seq(name);
    }
    valid_utf8_split(name, k);
}

/// Directories keep valid names: an empty one has none, and creating, linking and
/// unlinking under names that are text add no other.
pub proof fn law_names_stay_valid(content: Seq<u8>, name: Seq<u8>, inode_number: u32)
    requires
        names_valid(content),
        valid_utf8(name),
        name.len() <= 27,
    ensures
        names_valid(Seq::empty()),
        names_valid(insert(content, entry_record(name, inode_number))),
        names_valid(append(content, entry_record(name, inode_number))),
        names_valid(erase(content, name)),
{
    let rec = entry_record(name, inode_number);
    lemma_entry_record(name, inode_number);
    lemma_stored_name_valid(name, inode_number);
    lemma_empty_record();
    let recs = entries(content);
    lemma_entries_append(content, rec);
    lemma_entries_erase(content, name);
    lemma_first_index(recs, cleared());
    let k = first_index(recs, cleared());
    let appended = append(content, rec);
    assert(names_valid(appended)) by {
        assert forall|i: int| 0 <= i < entry_count(appended) implies valid_utf8(
            #[trigger] entry_name(entries(appended)[i]),
        ) by {
            if i < recs.len() {
                assert(entries(appended)[i] == recs[i]);
                assert(valid_utf8(entry_name(recs[i])));
            }
        }
    }
    if k < entry_count(content) {
        lemma_entries_overwrite(content, k, rec);
        let c = overwrite(content, 32 * k, rec);
        assert forall|i: int| 0 <= i < entry_count(c) implies valid_utf8(
            #[trigger] entry_name(entries(c)[i]),
        ) by {
            if i != k {
                assert(entries(c)[i] == recs[i]);
                assert(valid_utf8(entry_name(recs[i])));
            }
        }
    }
    let left = erase(content, name);
    assert forall|i: int| 0 <= i < entry_count(left) implies valid_utf8(
        #[trigger] entry_name(entries(left)[i]),
    ) by {
        assert(entries(left)[i] == erased(name)(recs[i]));
        assert(valid_utf8(entry_name(recs[i])));
    }
}

// ---------------------------------------------------------------- processes
/// A child that a wait ends with is one that the wait accepts, so a wait that is
/// answered "no such child" would never have ended.
pub proof fn law_wait_answers_exclude_each_other(children: Seq<TaskControlBlock>, pid: isize)
    ensures
        first_index(children, awaited(pid)) == children.len() ==> first_index(
            children,
            collectable(pid),
        ) == children.len(),
        first_index(children, awaited(pid)) == children.len() <==> forall|j: int|
            0 <= j < children.len() ==> !awaited(pid)(#[trigger] children[j]),
        first_index(children, collectable(pid)) == children.len() <==> forall|j: int|
            0 <= j < children.len() ==> !collectable(pid)(#[trigger] children[j]),
{
    lemma_first_index(children, awaited(pid));
    lemma_first_index(children, collectable(pid));
    if first_index(children, collectable(pid)) < children.len() {
        let k = first_index(children, collectable(pid));
        assert(awaited(pid)(children[k]));
    }
    if first_index(children, awaited(pid)) < children.len() {
        let k = first_index(children, awaited(pid));
        assert(awaited(pid)(children[k]));
    }
}

/// Where the children have distinct numbers, a child is collected once: after a
/// wait, for its number or for any child, has ended with it, no child answers to
/// the number that the wait returned. Only -1 is no number to ask for, since any
/// child answers to it.
pub proof fn law_child_is_collected_once(children: Seq<TaskControlBlock>, pid: isize)
    requires
        forall|i: int, j: int|
            0 <= i < j < children.len() ==> (#[trigger] children[i]).pid != (
            #[trigger] children[j]).pid,
        first_index(children, collectable(pid)) < children.len(),
    ensures
        ({
            let k = first_index(children, collectable(pid));
            let left = children.remove(k);
            let ret = children[k].pid as isize;
            &&& ret != -1 ==> first_index(left, awaited(ret)) == left.len()
            &&& pid != -1 ==> first_index(left, awaited(pid)) == left.len()
        }),
{
    lemma_first_index(children, collectable(pid));
    let k = first_index(children, collectable(pid));
    let left = children.remove(k);
    let gone = children[k].pid;
    let ret = gone as isize;
    assert((gone as isize) as usize == gone) by (bit_vector);
    assert forall|j: int| 0 <= j < left.len() implies (#[trigger] left[j]).pid != gone by {
        if j < k {
            assert(left[j] == children[j]);
        } else {
            assert(left[j] == children[j + 1]);
        }
    }
    if ret != -1 {
        assert forall|j: int| 0 <= j < left.len() implies !awaited(ret)(#[trigger] left[j]) by {}
        lemma_first_index_is(left, awaited(ret), left.len() as int);
    }
    if pid != -1 {
        assert forall|j: int| 0 <= j < left.len() implies !awaited(pid)(#[trigger] left[j]) by {}
        lemma_first_index_is(left, awaited(pid), left.len() as int);
    }
}

// -------------------------------------------------------------- descriptors
/// A new descriptor is the lowest that leads nowhere.
pub proof fn law_new_descriptor_is_lowest(table: Seq<Option<File>>)
    ensures
        ({
            let fd = first_index(table, closed_fd());
            &&& 0 <= fd <= table.len()
            &&& forall|j: int| 0 <= j < fd ==> (#[trigger] table[j]) is Some
            &&& fd < table.len() ==> table[fd] is None
        }),
{
    lemma_first_index(table, closed_fd());
    assert forall|j: int| 0 <= j < first_index(table, closed_fd()) implies (
    #[trigger] table[j]) is Some by {
        assert(!closed_fd()(table[j]));
    }
}

/// A file opened at a descriptor is there, and every other descriptor leads where
/// it led.
pub proof fn law_open_keeps_descriptors(table: Seq<Option<File>>, file: Option<File>)
    ensures
        ({
            let fd = first_index(table, closed_fd());
            let after = installed(table, file);
            &&& fd < after.len()
            &&& after[fd] == file
            &&& forall|j: int|
                0 <= j < table.len() && j != fd ==> #[trigger] after[j] == table[j]
        }),
{
    lemma_first_index(table, closed_fd());
}

/// The lowest descriptor closed is the next one given out.
pub proof fn law_closed_descriptor_is_reused(table: Seq<Option<File>>, fd: int)
    requires
        0 <= fd < table.len(),
        forall|j: int| 0 <= j < fd ==> (#[trigger] table[j]) is Some,
    ensures
        first_index(table.update(fd, None), closed_fd()) == fd,
{
    let after = table.update(fd, None);
    assert forall|j: int| 0 <= j < fd implies !closed_fd()(#[trigger] after[j]) by {
        assert(after[j] == table[j]);
    }
    lemma_first_index_is(after, closed_fd(), fd);
}

/// Closing a descriptor just opened leaves every descriptor as open or closed as it
/// was before.
pub proof fn law_open_then_close(table: Seq<Option<File>>, file: File, fd: int)
    ensures
        ({
            let new = first_index(table, closed_fd());
            let after = installed(table, Some(file)).update(new, None);
            (0 <= fd < after.len() && after[fd] is Some) == (0 <= fd < table.len()
                && table[fd] is Some)
        }),
{
    lemma_first_index(table, closed_fd());
}

/// Descriptors above the three standard streams lead to inodes alone.
pub open spec fn streams_low(table: Seq<Option<File>>) -> bool {
    forall|fd: int|
        2 < fd < table.len() ==> ((#[trigger] table[fd]) matches Some(f) ==> f is Inode)
}

/// Opening and closing keep that so, which is what a status query relies on.
pub proof fn law_streams_stay_low(table: Seq<Option<File>>, file: File, fd: int)
    requires
        streams_low(table),
        file is Inode,
        0 <= fd < table.len(),
    ensures
        streams_low(installed(table, Some(file))),
        streams_low(table.update(fd, None)),
{
    lemma_first_index(table, closed_fd());
}

// ------------------------------------------------------------------- memory
/// A mapping allows what its port asks for, and access from user mode.
pub proof fn law_mmap_permission(port: usize)
    requires
        port <= 7,
    ensures
        mmap_permission(port).user(),
        mmap_permission(port).readable() <==> port & 1 != 0,
        mmap_permission(port).writable() <==> port & 2 != 0,
        mmap_permission(port).executable() <==> port & 4 != 0,
{
    let bits: u8 = (16 + 2 * port) as u8;
    assert(bits & 16 != 0 && (bits & 2 != 0 <==> port & 1 != 0) && (bits & 4 != 0 <==> port & 2
        != 0) && (bits & 8 != 0 <==> port & 4 != 0)) by (bit_vector)
        requires
            bits == 16 + 2 * port,
            port <= 7,
    ;
}

} // verus!
