use vstd::prelude::*;
use crate::types::disk::Disk;
use crate::types::errors::CursorError;
use crate::types::errors::TowerError;
use crate::types::tower::fits;
use crate::types::tower::Tower;

verus! {

/// The number of towers on the board.
pub const TOWERS: usize = 3;

/// Whether `after` is `before` but for the tower at `index`, which has kept
/// its identity and now holds `stack`.
pub open spec fn only_changed(
    before: [Tower; 3],
    after: [Tower; 3],
    index: int,
    stack: Seq<u8>,
) -> bool {
    &&& after[index].id() == before[index].id()
    &&& after[index]@ == stack
    &&& forall|j: int| 0 <= j < TOWERS && j != index ==> after[j] == before[j]
}

/// The player's hand: it points at one of the towers, by the tower's place
/// in the row (1, 2 or 3), and carries at most one disk.
#[derive(Debug)]
pub struct Cursor {
    selected_tower: u8,
    disk: Option<Disk>,
}

impl Cursor {
    /// The place of the selected tower, as contracts see it.
    pub closed spec fn spec_selected_tower(&self) -> u8 {
        self.selected_tower
    }

    /// The size of the carried disk, if the cursor carries one.
    pub closed spec fn held(&self) -> Option<u8> {
        match self.disk {
            Some(disk) => Some(disk.size()),
            None => None,
        }
    }

    /// The cursor points at one of the three towers.
    pub open spec fn wf(&self) -> bool {
        1 <= self.selected_tower() <= TOWERS
    }

    /// Where the selected tower stands in a row of towers.
    pub open spec fn index(&self) -> int {
        self.selected_tower() - 1
    }

    /// Makes a cursor that points at the first tower and carries nothing.
    pub fn new() -> (cursor: Cursor)
        ensures
            cursor.selected_tower() == 1,
            cursor.held() is None,
            cursor.wf(),
    {
        Cursor { selected_tower: 1, disk: None }
    }

    /// The place of the selected tower: 1, 2 or 3.
    #[verifier::when_used_as_spec(spec_selected_tower)]
    pub fn selected_tower(&self) -> (place: u8)
        ensures
            place == self.selected_tower(),
    {
        self.selected_tower
    }

    /// The carried disk, if there is one.
    pub fn disk(&self) -> (disk: Option<&Disk>)
        ensures
            self.held() is None <==> disk is None,
            disk is Some ==> self.held() == Some(disk->0.size()),
    {
        self.disk.as_ref()
    }

    /// Points the cursor at the tower in the given place. A carried disk
    /// stays with the cursor.
    pub fn select(&mut self, place: u8)
        requires
            1 <= place <= TOWERS,
        ensures
            final(self).selected_tower() == place,
            final(self).held() == old(self).held(),
            final(self).wf(),
    {
        self.selected_tower = place;
    }

    /// Whether a drop would succeed now: the cursor carries a disk and the
    /// selected tower accepts it.
    pub fn can_drop(&self, towers: &[Tower; 3]) -> (can: bool)
        requires
            self.wf(),
        ensures
            can <==> self.held() is Some && fits(towers[self.index()]@, self.held()->0),
    {
        match &self.disk {
            Some(disk) => towers[(self.selected_tower - 1) as usize].can_fit(disk),
            None => false,
        }
    }

    /// Lifts the top disk of the selected tower into the hand. A hand that
    /// is full keeps its disk, and nothing is lifted from an empty tower.
    pub fn take(&mut self, towers: &mut [Tower; 3]) -> (r: Result<(), CursorError>)
        requires
            old(self).wf(),
        ensures
            final(self).selected_tower() == old(self).selected_tower(),
            match old(self).held() {
                Some(size) => {
                    &&& r == Err::<(), CursorError>(CursorError::AlreadyHoldingADisk { size })
                    &&& final(self).held() == Some(size)
                    &&& *final(towers) == *old(towers)
                },
                None => {
                    let stack = old(towers)[old(self).index()]@;
                    if stack.len() == 0 {
                        &&& r == Err::<(), CursorError>(CursorError::TE(TowerError::NoDisksOnTower))
                        &&& final(self).held() is None
                        &&& only_changed(*old(towers), *final(towers), old(self).index(), stack)
                    } else {
                        &&& r is Ok
                        &&& final(self).held() == Some(stack.last())
                        &&& only_changed(
                            *old(towers),
                            *final(towers),
                            old(self).index(),
                            stack.drop_last(),
                        )
                    }
                },
            },
    {
        match self.disk {
            Some(ref disk) => Err(CursorError::AlreadyHoldingADisk { size: disk.size() }),
            None => {
                let index = (self.selected_tower - 1) as usize;
                match towers[index].pop() {
                    Ok(disk) => {
                        self.disk = Some(disk);
                        Ok(())
                    },
                    Err(e) => Err(CursorError::TE(e)),
                }
            },
        }
    }

    /// Lays the carried disk on the selected tower. A disk that the tower
    /// does not accept stays in the hand, and the tower stays as it was.
    pub fn drop(&mut self, towers: &mut [Tower; 3]) -> (r: Result<(), CursorError>)
        requires
            old(self).wf(),
        ensures
            final(self).selected_tower() == old(self).selected_tower(),
            match old(self).held() {
                None => {
                    &&& r == Err::<(), CursorError>(CursorError::NoDisksToDrop)
                    &&& final(self).held() is None
                    &&& *final(towers) == *old(towers)
                },
                Some(size) => {
                    let stack = old(towers)[old(self).index()]@;
                    if fits(stack, size) {
                        &&& r is Ok
                        &&& final(self).held() is None
                        &&& only_changed(
                            *old(towers),
                            *final(towers),
                            old(self).index(),
                            stack.push(size),
                        )
                    } else {
                        &&& r == Err::<(), CursorError>(CursorError::CannotDropDiskOnTower)
                        &&& final(self).held() == Some(size)
                        &&& only_changed(*old(towers), *final(towers), old(self).index(), stack)
                    }
                },
            },
    {
        match self.disk.take() {
            Some(disk) => {
                let index = (self.selected_tower - 1) as usize;
                match towers[index].push(disk) {
                    Ok(()) => Ok(()),
                    Err((TowerError::SmallerDiskOnTower, disk)) => {
                        self.disk = Some(disk);
                        Err(CursorError::CannotDropDiskOnTower)
                    },
                    Err((e, _)) => Err(CursorError::TE(e)),
                }
            },
            None => Err(CursorError::NoDisksToDrop),
        }
    }
}

} // verus!
