use hanoi::types::errors::CursorError;
use hanoi::types::errors::TowerError;
use hanoi::types::Cursor;
use hanoi::types::Disk;
use hanoi::types::Tower;

fn towers_of(stacks: [&[u8]; 3]) -> [Tower; 3] {
    let mut towers = [Tower::new(1), Tower::new(2), Tower::new(3)];
    for (tower, sizes) in towers.iter_mut().zip(stacks) {
        for &size in sizes {
            assert_eq!(tower.push(Disk::new(size)), Ok(()));
        }
    }
    towers
}

fn stacks_of(towers: &[Tower; 3]) -> [Vec<u8>; 3] {
    [towers[0].sizes(), towers[1].sizes(), towers[2].sizes()]
}

#[test]
fn new_cursor_points_at_the_first_tower_with_an_empty_hand() {
    let cursor = Cursor::new();
    assert_eq!(cursor.selected_tower(), 1);
    assert_eq!(cursor.disk(), None);
}

#[test]
fn select_moves_the_cursor_and_keeps_the_disk() {
    let mut towers = towers_of([&[2, 1], &[], &[]]);
    let mut cursor = Cursor::new();
    assert_eq!(cursor.take(&mut towers), Ok(()));
    for place in [3u8, 2, 1, 2] {
        cursor.select(place);
        assert_eq!(cursor.selected_tower(), place);
        assert_eq!(cursor.disk(), Some(&Disk::new(1)));
    }
}

#[test]
fn take_lifts_the_top_disk_of_the_selected_tower() {
    let mut towers = towers_of([&[3, 2, 1], &[], &[]]);
    let mut cursor = Cursor::new();
    assert_eq!(cursor.take(&mut towers), Ok(()));
    assert_eq!(cursor.disk().map(|disk| disk.size()), Some(1));
    assert_eq!(cursor.selected_tower(), 1);
    assert_eq!(stacks_of(&towers), [vec![3, 2], vec![], vec![]]);
}

#[test]
fn take_with_a_full_hand_reports_the_held_size() {
    let mut towers = towers_of([&[3, 2, 1], &[], &[]]);
    let mut cursor = Cursor::new();
    assert_eq!(cursor.take(&mut towers), Ok(()));
    assert_eq!(
        cursor.take(&mut towers),
        Err(CursorError::AlreadyHoldingADisk { size: 1 })
    );
    assert_eq!(cursor.disk(), Some(&Disk::new(1)));
    assert_eq!(stacks_of(&towers), [vec![3, 2], vec![], vec![]]);
}

#[test]
fn take_from_an_empty_tower_leaves_the_hand_empty() {
    let mut towers = towers_of([&[3, 2, 1], &[], &[]]);
    let mut cursor = Cursor::new();
    cursor.select(2);
    assert_eq!(
        cursor.take(&mut towers),
        Err(CursorError::TE(TowerError::NoDisksOnTower))
    );
    assert_eq!(cursor.disk(), None);
    assert_eq!(cursor.selected_tower(), 2);
    assert_eq!(stacks_of(&towers), [vec![3, 2, 1], vec![], vec![]]);
}

#[test]
fn drop_with_an_empty_hand_fails() {
    let mut towers = towers_of([&[3, 2, 1], &[], &[]]);
    let mut cursor = Cursor::new();
    assert_eq!(cursor.drop(&mut towers), Err(CursorError::NoDisksToDrop));
    assert_eq!(cursor.disk(), None);
    assert_eq!(stacks_of(&towers), [vec![3, 2, 1], vec![], vec![]]);
}

#[test]
fn drop_lays_the_disk_on_the_selected_tower() {
    let mut towers = towers_of([&[3, 2, 1], &[], &[]]);
    let mut cursor = Cursor::new();
    assert_eq!(cursor.take(&mut towers), Ok(()));
    cursor.select(3);
    assert_eq!(cursor.drop(&mut towers), Ok(()));
    assert_eq!(cursor.disk(), None);
    assert_eq!(cursor.selected_tower(), 3);
    assert_eq!(stacks_of(&towers), [vec![3, 2], vec![], vec![1]]);
    assert_eq!(towers[2].id(), 3);
}

#[test]
fn drop_back_on_the_same_tower_restores_it() {
    let mut towers = towers_of([&[3, 2, 1], &[], &[]]);
    let mut cursor = Cursor::new();
    assert_eq!(cursor.take(&mut towers), Ok(()));
    assert_eq!(cursor.drop(&mut towers), Ok(()));
    assert_eq!(stacks_of(&towers), [vec![3, 2, 1], vec![], vec![]]);
}

#[test]
fn drop_on_a_smaller_disk_keeps_the_disk_in_hand() {
    let mut towers = towers_of([&[3], &[1], &[]]);
    let mut cursor = Cursor::new();
    assert_eq!(cursor.take(&mut towers), Ok(()));
    cursor.select(2);
    assert_eq!(
        cursor.drop(&mut towers),
        Err(CursorError::CannotDropDiskOnTower)
    );
    assert_eq!(cursor.disk(), Some(&Disk::new(3)));
    assert_eq!(cursor.selected_tower(), 2);
    assert_eq!(stacks_of(&towers), [vec![], vec![1], vec![]]);
    cursor.select(3);
    assert_eq!(cursor.drop(&mut towers), Ok(()));
    assert_eq!(stacks_of(&towers), [vec![], vec![1], vec![3]]);
}

#[test]
fn cursor_never_holds_more_than_one_disk() {
    let mut towers = towers_of([&[4, 3, 2, 1], &[], &[]]);
    let mut cursor = Cursor::new();
    for round in 0..20u8 {
        cursor.select(round % 3 + 1);
        let held_before = cursor.disk().map(|disk| disk.size());
        let taken = cursor.take(&mut towers);
        if let Some(size) = held_before {
            assert_eq!(taken, Err(CursorError::AlreadyHoldingADisk { size }));
            assert_eq!(cursor.disk().map(|disk| disk.size()), Some(size));
        }
        let on_towers: usize = towers.iter().map(|tower| tower.len()).sum();
        let in_hand = cursor.disk().iter().count();
        assert!(in_hand <= 1);
        assert_eq!(on_towers + in_hand, 4);
        if round % 2 == 1 {
            cursor.select((round / 2) % 3 + 1);
            let _ = cursor.drop(&mut towers);
        }
    }
}

#[test]
fn can_drop_tells_whether_a_drop_would_succeed() {
    let mut towers = towers_of([&[3], &[1], &[]]);
    let mut cursor = Cursor::new();
    assert!(!cursor.can_drop(&towers));
    assert_eq!(cursor.take(&mut towers), Ok(()));
    assert!(cursor.can_drop(&towers));
    cursor.select(2);
    assert!(!cursor.can_drop(&towers));
    assert_eq!(cursor.drop(&mut towers), Err(CursorError::CannotDropDiskOnTower));
    cursor.select(3);
    assert!(cursor.can_drop(&towers));
    assert_eq!(cursor.drop(&mut towers), Ok(()));
    assert!(!cursor.can_drop(&towers));
    assert_eq!(stacks_of(&towers), [vec![], vec![1], vec![3]]);
}
