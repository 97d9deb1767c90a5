//! What is known of a file without opening it.

use vstd::prelude::*;

verus! {

/// What kind of thing a path names.
#[derive(Clone, Copy, Debug, PartialEq, Eq, Structural)]
pub enum FileKind {
    Regular,
    Directory,
    Socket,
    Other,
}

/// The facts about a file that decide whether it can be trusted.
#[derive(Clone, Copy, Debug, PartialEq, Eq, Structural)]
pub struct FileFacts {
    pub kind: FileKind,
    pub owner: u32,
    pub mode: u32,
    pub device: u64,
    pub inode: u64,
    pub size: u64,
}

impl FileFacts {
    /// Nobody but the owner can read, write or enter it.
    pub open spec fn private(self) -> bool {
        self.mode & 0o077 == 0
    }

    /// Everyone can write to it.
    pub open spec fn open_to_all(self) -> bool {
        self.mode & 0o002 != 0
    }

    /// Everyone can replace what is in it: the restriction to one's own
    /// entries is not set.
    pub open spec fn replaceable(self) -> bool {
        self.open_to_all() && self.mode & 0o1000 == 0
    }

    /// Both name one file.
    pub open spec fn same_file(self, other: FileFacts) -> bool {
        self.device == other.device && self.inode == other.inode
    }

    pub fn is_private(&self) -> (r: bool)
        ensures
            r == self.private(),
    {
        self.mode & 0o077 == 0
    }

    pub fn is_open_to_all(&self) -> (r: bool)
        ensures
            r == self.open_to_all(),
    {
        self.mode & 0o002 != 0
    }

    pub fn is_replaceable(&self) -> (r: bool)
        ensures
            r == self.replaceable(),
    {
        self.is_open_to_all() && self.mode & 0o1000 == 0
    }

    pub fn is_same_file(&self, other: &FileFacts) -> (r: bool)
        ensures
            r == self.same_file(*other),
    {
        self.device == other.device && self.inode == other.inode
    }
}

/// What is private is not open to all, so nothing in it can be replaced.
pub proof fn private_is_not_open_to_all(facts: FileFacts)
    ensures
        facts.private() ==> !facts.open_to_all() && !facts.replaceable(),
{
    let mode = facts.mode;
    assert(mode & 0o077 == 0 ==> mode & 0o002 == 0) by (bit_vector);
}

} // verus!
