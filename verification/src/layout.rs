//! On-disk layout: block geometry, directory records and disk inodes.

use crate::search::{first_index, lemma_first_index_is};
use vstd::prelude::*;
use vstd::string::*;
use vstd::utf8::*;

verus! {

/// Bytes in one block of the device.
pub const BLOCK_SZ: usize = 512;

/// Bytes that one disk inode takes in the inode area.
pub const INODE_SZ: usize = 128;

/// Disk inodes in one block of the inode area.
pub const INODES_PER_BLOCK: u32 = 4;

/// Bytes in one directory record.
pub const DIRENT_SZ: usize = 32;

/// Bytes that a directory record reserves for a name and its terminator.
pub const NAME_FIELD: usize = 28;

/// Longest name, in bytes, that a directory record can hold with its terminator.
pub const NAME_LENGTH_LIMIT: usize = 27;

/// Blocks that a file of `size` bytes occupies.
pub open spec fn blocks_for(size: int) -> int {
    (size + 511) / 512
}

/// What a disk inode stands for.
#[derive(Clone, Copy, PartialEq, Eq, Structural, Debug)]
pub enum DiskInodeType {
    File,
    Directory,
}

/// One disk inode: the file's length, its link count, its type and the blocks
/// that hold its bytes, in order.
pub struct DiskInode {
    pub size: u32,
    pub nlink: u32,
    pub kind: DiskInodeType,
    pub blocks: Vec<u32>,
}

impl DiskInode {
    /// Blocks that a file of `size` bytes occupies.
    pub fn total_blocks(size: u32) -> (n: u32)
        ensures
            n == blocks_for(size as int),
    {
        let full: u32 = size / 512;
        if size % 512 == 0 {
            full
        } else {
            full + 1
        }
    }

    /// Blocks missing before the file can hold `new_size` bytes.
    pub fn blocks_num_needed(&self, new_size: u32) -> (n: u32)
        requires
            new_size >= self.size,
        ensures
            n == blocks_for(new_size as int) - blocks_for(self.size as int),
    {
        Self::total_blocks(new_size) - Self::total_blocks(self.size)
    }

    /// Whether this is a regular file.
    pub fn is_file(&self) -> (b: bool)
        ensures
            b == (self.kind is File),
    {
        match self.kind {
            DiskInodeType::Directory => false,
            DiskInodeType::File => true,
        }
    }
}

/// The terminator of a stored name.
pub open spec fn is_nul() -> spec_fn(u8) -> bool {
    |b: u8| b == 0
}

/// The name stored in a record: the bytes before the first terminator.
pub open spec fn entry_name(rec: Seq<u8>) -> Seq<u8> {
    rec.take(first_index(rec.take(28), is_nul()))
}

/// The inode number stored in a record, little-endian in its last four bytes.
pub open spec fn entry_inode(rec: Seq<u8>) -> u32 {
    (rec[28] + rec[29] * 0x100 + rec[30] * 0x1_0000 + rec[31] * 0x100_0000) as u32
}

/// Byte `i` of `n` in little-endian order.
pub open spec fn le_byte(n: u32, i: int) -> u8 {
    if i == 0 {
        (n % 0x100) as u8
    } else if i == 1 {
        (n / 0x100 % 0x100) as u8
    } else if i == 2 {
        (n / 0x1_0000 % 0x100) as u8
    } else {
        (n / 0x100_0000) as u8
    }
}

/// The record that stores `name` and `inode_number`.
pub open spec fn entry_record(name: Seq<u8>, inode_number: u32) -> Seq<u8> {
    Seq::new(
        32,
        |i: int|
            if i < name.len() {
                name[i]
            } else if i < 28 {
                0u8
            } else {
                le_byte(inode_number, i - 28)
            },
    )
}

/// The record of a slot that names nothing.
pub open spec fn empty_record() -> Seq<u8> {
    Seq::new(32, |i: int| 0u8)
}

/// A name that a record gives back as it was stored.
pub open spec fn storable(name: Seq<u8>) -> bool {
    &&& name.len() <= 27
    &&& forall|i: int| 0 <= i < name.len() ==> #[trigger] name[i] != 0
}

/// A record gives back the number it was made with, and the name too when the
/// name is storable.
pub proof fn lemma_entry_record(name: Seq<u8>, inode_number: u32)
    requires
        name.len() <= 27,
    ensures
        entry_record(name, inode_number).len() == 32,
        entry_inode(entry_record(name, inode_number)) == inode_number,
        storable(name) ==> entry_name(entry_record(name, inode_number)) == name,
        storable(name) && name.len() > 0 ==> entry_record(name, inode_number)[0] != 0,
{
    let rec = entry_record(name, inode_number);
    if storable(name) {
        let field = rec.take(28);
        assert(field[name.len() as int] == 0);
        lemma_first_index_is(field, is_nul(), name.len() as int);
        assert(entry_name(rec) =~= name);
    }
}

/// A cleared record has the empty name and the number zero.
pub proof fn lemma_empty_record()
    ensures
        empty_record().len() == 32,
        entry_name(empty_record()) == Seq::<u8>::empty(),
        entry_inode(empty_record()) == 0,
{
    let rec = empty_record();
    lemma_first_index_is(rec.take(28), is_nul(), 0);
    assert(entry_name(rec) =~= Seq::<u8>::empty());
}

/// One directory record: a terminated name and an inode number.
pub struct DirEntry {
    bytes: [u8; DIRENT_SZ],
}

impl View for DirEntry {
    type V = Seq<u8>;

    closed spec fn view(&self) -> Seq<u8> {
        self.bytes@
    }
}

/// Checks `v` with `core::str::from_utf8`, which answers with the string of
/// those bytes exactly when they are valid UTF-8.
#[verifier::external_body]
fn str_from_utf8(v: &[u8]) -> (r: Option<&str>)
    ensures
        r is Some <==> valid_utf8(v@),
        r matches Some(s) ==> s.spec_bytes() == v@,
{
    core::str::from_utf8(v).ok()
}

impl DirEntry {
    /// A record that names nothing.
    pub fn empty() -> (r: Self)
        ensures
            r@ == empty_record(),
    {
        let r = DirEntry { bytes: [0u8; DIRENT_SZ] };
        assert(r@ =~= empty_record());
        r
    }

    /// The record that gives `name` to inode `inode_number`.
    pub fn new(name: &str, inode_number: u32) -> (r: Self)
        requires
            name.spec_bytes().len() <= NAME_LENGTH_LIMIT,
        ensures
            r@ == entry_record(name.spec_bytes(), inode_number),
    {
        let src: &[u8] = name.as_bytes();
        let mut bytes: [u8; DIRENT_SZ] = [0u8; DIRENT_SZ];
        let mut i: usize = 0;
        while i < src.len()
            invariant
                src@ == name.spec_bytes(),
                src@.len() <= NAME_LENGTH_LIMIT,
                i <= src@.len(),
                forall|j: int| 0 <= j < i ==> bytes@[j] == src@[j],
                forall|j: int| i <= j < 32 ==> bytes@[j] == 0,
            decreases src@.len() - i,
        {
            bytes[i] = src[i];
            i = i + 1;
        }
        bytes[28] = (inode_number % 0x100) as u8;
        bytes[29] = (inode_number / 0x100 % 0x100) as u8;
        bytes[30] = (inode_number / 0x1_0000 % 0x100) as u8;
        bytes[31] = (inode_number / 0x100_0000) as u8;
        let r = DirEntry { bytes };
        assert(r@ =~= entry_record(name.spec_bytes(), inode_number));
        r
    }

    /// The record with the given bytes.
    pub fn from_bytes(raw: &[u8]) -> (r: Self)
        requires
            raw@.len() == DIRENT_SZ,
        ensures
            r@ == raw@,
    {
        let mut bytes: [u8; DIRENT_SZ] = [0u8; DIRENT_SZ];
        let mut i: usize = 0;
        while i < DIRENT_SZ
            invariant
                raw@.len() == DIRENT_SZ,
                i <= DIRENT_SZ,
                forall|j: int| 0 <= j < i ==> bytes@[j] == raw@[j],
            decreases DIRENT_SZ - i,
        {
            bytes[i] = raw[i];
            i = i + 1;
        }
        let r = DirEntry { bytes };
        assert(r@ =~= raw@);
        r
    }

    /// The record's bytes as they lie on disk.
    pub fn as_bytes(&self) -> (raw: &[u8])
        ensures
            raw@ == self@,
            raw@.len() == DIRENT_SZ,
    {
        self.bytes.as_slice()
    }

    /// Bytes before the terminator.
    fn name_len(&self) -> (n: usize)
        ensures
            n == first_index(self@.take(28), is_nul()),
            n <= NAME_FIELD,
    {
        let ghost field = self@.take(28);
        let mut i: usize = 0;
        while i < NAME_FIELD && self.bytes[i] != 0
            invariant
                i <= NAME_FIELD,
                field == self@.take(28),
                forall|j: int| 0 <= j < i ==> !is_nul()(#[trigger] field[j]),
            decreases NAME_FIELD - i,
        {
            i = i + 1;
        }
        proof {
            lemma_first_index_is(field, is_nul(), i as int);
        }
        i
    }

    /// The stored name.
    pub fn name(&self) -> (s: &str)
        requires
            valid_utf8(entry_name(self@)),
        ensures
            s.spec_bytes() == entry_name(self@),
    {
        let n: usize = self.name_len();
        let bytes: &[u8] = vstd::slice::slice_subrange(self.as_bytes(), 0, n);
        assert(bytes@ =~= entry_name(self@));
        str_from_utf8(bytes).unwrap()
    }

    /// Whether the stored name is valid UTF-8.
    pub fn has_text_name(&self) -> (b: bool)
        ensures
            b == valid_utf8(entry_name(self@)),
    {
        let n: usize = self.name_len();
        let bytes: &[u8] = vstd::slice::slice_subrange(self.as_bytes(), 0, n);
        assert(bytes@ =~= entry_name(self@));
        str_from_utf8(bytes).is_some()
    }

    /// Whether `name` is the stored name.
    pub fn is_named(&self, name: &str) -> (b: bool)
        ensures
            b == (entry_name(self@) == name.spec_bytes()),
    {
        let want: &[u8] = name.as_bytes();
        let n: usize = self.name_len();
        let ghost have = entry_name(self@);
        assert(have.len() == n);
        if want.len() != n {
            return false;
        }
        let mut i: usize = 0;
        while i < n
            invariant
                i <= n <= NAME_FIELD,
                want@ == name.spec_bytes(),
                want@.len() == n,
                have == entry_name(self@),
                have.len() == n,
                have == self@.take(n as int),
                forall|j: int| 0 <= j < i ==> have[j] == want@[j],
            decreases n - i,
        {
            if self.bytes[i] != want[i] {
                assert(have[i as int] != want@[i as int]);
                return false;
            }
            i = i + 1;
        }
        assert(have =~= want@);
        true
    }

    /// The stored inode number.
    pub fn inode_number(&self) -> (n: u32)
        ensures
            n == entry_inode(self@),
    {
        let b0: u32 = self.bytes[28] as u32;
        let b1: u32 = self.bytes[29] as u32;
        let b2: u32 = self.bytes[30] as u32;
        let b3: u32 = self.bytes[31] as u32;
        b0 + b1 * 0x100 + b2 * 0x1_0000 + b3 * 0x100_0000
    }

    /// Whether the slot names nothing: its name field starts with the terminator.
    pub fn is_cleared(&self) -> (b: bool)
        ensures
            b == (self@[0] == 0),
    {
        self.bytes[0] == 0
    }
}

} // verus!
