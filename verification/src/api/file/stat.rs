//! What is known of a file.
use vstd::prelude::*;

verus! {

/// The part of a file's status that its kind of file object decides. Whatever
/// is not listed has its default.
#[derive(Debug, Clone, Copy, PartialEq, Eq, Structural)]
pub struct Kstat {
    /// The type and the permissions of the file.
    pub mode: u32,
    /// The size of the file, in bytes.
    pub size: u64,
    /// The number of blocks that the file takes.
    pub blocks: u64,
    /// The size of a block.
    pub blksize: u32,
}

/// The mode of a file: its type in the bits from the twelfth on, its
/// permissions below.
pub open spec fn file_mode(file_type: u8, perm: u16) -> u32 {
    ((file_type as u32) << 12) | perm as u32
}

/// The type and the permissions of a file can be told from its mode: the lowest twelve bits
/// are the permissions, and what is above them is the type.
pub proof fn law_mode_tells_type_and_permissions(file_type: u8, perm: u16)
    requires
        perm < 4096,
    ensures
        file_mode(file_type, perm) % 4096 == perm,
        file_mode(file_type, perm) / 4096 == file_type,
{
    assert(perm < 4096 ==> (((file_type as u32) << 12) | perm as u32) % 4096 == perm as u32)
        by (bit_vector);
    assert(perm < 4096 ==> (((file_type as u32) << 12) | perm as u32) / 4096 == file_type as u32)
        by (bit_vector);
}

} // verus!
