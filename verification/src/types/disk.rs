use vstd::prelude::*;

verus! {

/// The size of the largest disk.
pub const MAX_DISK_SIZE: u8 = 8;

/// A disk of the puzzle. Its size is all that the rules look at, and it
/// never changes.
#[derive(Debug, PartialEq, Eq)]
pub struct Disk {
    size: u8,
}

impl Disk {
    /// The size of the disk, as contracts see it.
    pub closed spec fn spec_size(&self) -> u8 {
        self.size
    }

    /// Every disk that executable code can hold has a size from 1 to
    /// `MAX_DISK_SIZE`.
    #[verifier::type_invariant]
    spec fn in_range(&self) -> bool {
        1 <= self.size <= MAX_DISK_SIZE
    }

    /// Makes a disk of the given size.
    pub fn new(size: u8) -> (disk: Disk)
        requires
            1 <= size <= MAX_DISK_SIZE,
        ensures
            disk.size() == size,
    {
        Disk { size }
    }

    /// The size of the disk.
    #[verifier::when_used_as_spec(spec_size)]
    pub fn size(&self) -> (size: u8)
        ensures
            size == self.size(),
            1 <= size <= MAX_DISK_SIZE,
    {
        proof {
            use_type_invariant(self);
        }
        self.size
    }

    /// Two disks of one size are the same disk.
    pub proof fn lemma_size_identifies(a: Disk, b: Disk)
        requires
            a.size() == b.size(),
        ensures
            a == b,
    {
    }
}

} // verus!
