use vstd::prelude::*;

verus! {

/// Why a tower refused an operation.
#[derive(Debug, Clone, Copy, PartialEq, Eq)]
pub enum TowerError {
    /// The disk on top of the tower is not larger than the one offered.
    SmallerDiskOnTower,
    /// The tower holds no disk.
    NoDisksOnTower,
}

/// Why the cursor refused an operation.
#[derive(Debug, Clone, Copy, PartialEq, Eq)]
pub enum CursorError {
    /// The cursor already carries the disk of this size.
    AlreadyHoldingADisk { size: u8 },
    /// The cursor carries nothing that could be dropped.
    NoDisksToDrop,
    /// The selected tower does not accept the carried disk, which stays
    /// with the cursor.
    CannotDropDiskOnTower,
    /// A refusal of the selected tower, passed on as it came.
    TE(TowerError),
}

} // verus!
