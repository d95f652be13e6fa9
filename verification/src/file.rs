//! Open files: the flags of `open`, inodes opened by path, and file status.

use crate::behaviour::law_open_access;
use crate::efs::EasyFileSystem;
use crate::model::FsView;
use crate::vfs::{lemma_position, Inode};
use vstd::prelude::*;
use vstd::string::*;

verus! {

/// How a file is opened.
#[derive(Clone, Copy, PartialEq, Eq, Structural, Debug)]
pub struct OpenFlags {
    bits: u32,
}

/// Open for writing alone.
pub const WRONLY: u32 = 0x1;

/// Open for reading and writing.
pub const RDWR: u32 = 0x2;

/// Make the file where it does not exist, and empty it where it does.
pub const CREATE: u32 = 0x200;

/// Empty the file.
pub const TRUNC: u32 = 0x400;

/// The bits that `OpenFlags` knows.
pub open spec fn known_flags(bits: u32) -> bool {
    bits & !0x603u32 == 0
}

/// Whether these flags ask for a file that need not exist.
pub open spec fn creates(bits: u32) -> bool {
    bits & CREATE != 0
}

/// Whether these flags ask for an empty file.
pub open spec fn truncates(bits: u32) -> bool {
    bits & TRUNC != 0
}

/// Whether a file opened with these flags may be read, and whether it may be
/// written.
pub open spec fn access(bits: u32) -> (bool, bool) {
    if bits == 0 {
        (true, false)
    } else if bits & WRONLY != 0 {
        (false, true)
    } else {
        (true, true)
    }
}

impl View for OpenFlags {
    type V = u32;

    closed spec fn view(&self) -> u32 {
        self.bits
    }
}

impl OpenFlags {
    /// The flags with these bits, unless a bit is unknown.
    pub fn from_bits(bits: u32) -> (flags: Option<OpenFlags>)
        ensures
            flags is Some <==> known_flags(bits),
            flags matches Some(f) ==> f@ == bits,
    {
        if bits & !0x603u32 == 0 {
            Some(OpenFlags { bits })
        } else {
            None
        }
    }

    /// The flags of a plain read.
    pub fn rdonly() -> (flags: OpenFlags)
        ensures
            flags@ == 0,
    {
        OpenFlags { bits: 0 }
    }

    /// Whether the file may be read, and whether it may be written.
    pub fn read_write(&self) -> (rw: (bool, bool))
        ensures
            rw == access(self@),
    {
        if self.bits == 0 {
            (true, false)
        } else if self.bits & WRONLY != 0 {
            (false, true)
        } else {
            (true, true)
        }
    }

    /// Whether the flags ask for a file that need not exist.
    pub fn creates(&self) -> (b: bool)
        ensures
            b == creates(self@),
    {
        self.bits & CREATE != 0
    }

    /// Whether the flags ask for an empty file.
    pub fn truncates(&self) -> (b: bool)
        ensures
            b == truncates(self@),
    {
        self.bits & TRUNC != 0
    }
}

/// An inode opened by path.
#[derive(Clone, Copy)]
pub struct OSInode {
    pub readable: bool,
    pub writable: bool,
    pub ino: u64,
    pub inode: Inode,
}

/// What a descriptor leads to: one of the three standard streams, or an inode.
#[derive(Clone, Copy)]
pub enum File {
    Stream,
    Inode(OSInode),
}

/// What a status query says a file is.
#[derive(Clone, Copy, PartialEq, Eq, Structural, Debug)]
pub enum StatMode {
    FILE,
    DIR,
}

/// Status of a file: inode number, type and link count.
#[derive(Clone, Copy, PartialEq, Eq, Structural, Debug)]
pub struct Stat {
    pub ino: u64,
    pub mode: StatMode,
    pub nlink: u32,
}

impl Stat {
    pub fn new(ino: u64, mode: StatMode, nlink: u32) -> (stat: Stat)
        ensures
            stat == (Stat { ino, mode, nlink }),
    {
        Stat { ino, mode, nlink }
    }
}

/// The inode number that `open_file` leads to.
pub open spec fn open_target(fs: FsView, d: int, name: Seq<u8>, flags: u32) -> Option<u32> {
    match fs.find(d, name) {
        Some(id) => Some(id),
        None => if creates(flags) {
            Some(fs.next_inode() as u32)
        } else {
            None
        },
    }
}

/// The file system after `open_file`.
pub open spec fn open_effect(fs: FsView, d: int, name: Seq<u8>, flags: u32) -> FsView {
    match fs.find(d, name) {
        Some(id) => if creates(flags) || truncates(flags) {
            fs.clear(id as int)
        } else {
            fs
        },
        None => if creates(flags) {
            fs.create(d, name)
        } else {
            fs
        },
    }
}

/// Whether `open_file` finds a sound inode and room for what it has to make.
pub open spec fn open_fits(fs: FsView, d: int, name: Seq<u8>, flags: u32) -> bool {
    match fs.find(d, name) {
        Some(id) => creates(flags) || truncates(flags) ==> id < fs.files.len(),
        None => creates(flags) ==> fs.create_fits(d, name),
    }
}

/// Whether `open_file` finds a sound inode and room for what it has to make.
pub fn can_open(fs: &EasyFileSystem, root: &Inode, name: &str, flags: OpenFlags) -> (b: bool)
    requires
        fs.wf(),
        fs@.is_position(root@),
        fs@.at(root@).kind is Directory,
    ensures
        b == open_fits(fs@, fs@.slot(root@), name.spec_bytes(), flags@),
{
    match root.find(fs, name) {
        Some((ino, inode)) => {
            proof {
                fs.lemma_wf_view();
            }
            !(flags.creates() || flags.truncates()) || inode.is_valid(fs)
        },
        None => !flags.creates() || root.can_create(fs, name),
    }
}

/// Opens the file called `name` in the directory `root`.
pub fn open_file(
    fs: &mut EasyFileSystem,
    root: &Inode,
    name: &str,
    flags: OpenFlags,
) -> (opened: Option<OSInode>)
    requires
        old(fs).wf(),
        old(fs)@.is_position(root@),
        old(fs)@.at(root@).kind is Directory,
        open_fits(old(fs)@, old(fs)@.slot(root@), name.spec_bytes(), flags@),
    ensures
        final(fs).wf(),
        final(fs)@ == open_effect(old(fs)@, old(fs)@.slot(root@), name.spec_bytes(), flags@),
        match open_target(old(fs)@, old(fs)@.slot(root@), name.spec_bytes(), flags@) {
            Some(id) => opened matches Some(f) && f.ino == id && f.inode@ == old(fs)@.position(
                id as int,
            ) && (f.readable, f.writable) == access(flags@),
            None => opened is None,
        },
        opened is None <==> old(fs)@.find(old(fs)@.slot(root@), name.spec_bytes()) is None
            && flags@ & 0x200 == 0,
        old(fs)@.find(old(fs)@.slot(root@), name.spec_bytes()) matches Some(id) ==> (
        opened matches Some(f) && f.ino == id && f.inode@ == old(fs)@.position(id as int)),
        opened matches Some(f) ==> f.readable == (flags@ % 2 == 0) && f.writable == (flags@ != 0),
{
    proof {
        law_open_access(flags@);
    }
    let (readable, writable) = flags.read_write();
    proof {
        fs.lemma_wf_view();
    }
    match root.find(fs, name) {
        Some((ino, inode)) => {
            if flags.creates() || flags.truncates() {
                proof {
                    lemma_position(fs@, ino as int);
                }
                inode.clear(fs);
            }
            Some(OSInode { readable, writable, ino, inode: *inode })
        },
        None => if flags.creates() {
            match root.create(fs, name) {
                Some((ino, inode)) => Some(OSInode { readable, writable, ino, inode: *inode }),
                None => None,
            }
        } else {
            None
        },
    }
}

impl OSInode {
    /// The inode number.
    pub fn ino(&self) -> (n: u64)
        ensures
            n == self.ino,
    {
        self.ino
    }

    /// Whether this is a regular file.
    pub fn is_file(&self, fs: &EasyFileSystem) -> (b: bool)
        requires
            fs.wf(),
            fs@.is_position(self.inode@),
        ensures
            b == (fs@.at(self.inode@).kind is File),
    {
        self.inode.is_file(fs)
    }

    /// The link count.
    pub fn nlink(&self, fs: &EasyFileSystem) -> (n: u32)
        requires
            fs.wf(),
            fs@.is_position(self.inode@),
        ensures
            n == fs@.at(self.inode@).nlink,
    {
        self.inode.nlink(fs)
    }

    /// All bytes of the file.
    pub fn read_all(&self, fs: &EasyFileSystem) -> (all: Vec<u8>)
        requires
            fs.wf(),
            fs@.is_position(self.inode@),
        ensures
            all@ == fs@.at(self.inode@).content,
    {
        let ghost content = fs@.at(self.inode@).content;
        let mut all: Vec<u8> = Vec::new();
        let mut buffer: [u8; 512] = [0u8; 512];
        let mut offset: usize = 0;
        proof {
            fs.lemma_wf_view();
        }
        loop
            invariant
                fs.wf(),
                fs@.is_position(self.inode@),
                content == fs@.at(self.inode@).content,
                content.len() <= u32::MAX,
                offset <= content.len(),
                all@ == content.take(offset as int),
            ensures
                all@ == content,
            decreases content.len() - offset,
        {
            let len: usize = self.inode.read_at(fs, offset, &mut buffer);
            if len == 0 {
                assert(content.take(offset as int) =~= content);
                break;
            }
            let part: &[u8] = vstd::slice::slice_subrange(buffer.as_slice(), 0, len);
            all.extend_from_slice(part);
            proof {
                assert(part@ =~= content.subrange(offset as int, offset + len));
                assert(all@ =~= content.take(offset + len));
            }
            offset = offset + len;
        }
        all
    }
}

} // verus!
