use hanoi::types::errors::TowerError;
use hanoi::types::Disk;
use hanoi::types::Tower;

fn tower_of(id: u8, sizes: &[u8]) -> Tower {
    let mut tower = Tower::new(id);
    for &size in sizes {
        assert_eq!(tower.push(Disk::new(size)), Ok(()));
    }
    tower
}

fn strictly_descending(sizes: &[u8]) -> bool {
    sizes.windows(2).all(|pair| pair[0] > pair[1])
}

#[test]
fn new_tower_is_empty_and_keeps_its_identity() {
    for id in [1u8, 2, 3, 200] {
        let tower = Tower::new(id);
        assert_eq!(tower.id(), id);
        assert_eq!(tower.len(), 0);
        assert_eq!(tower.sizes(), Vec::<u8>::new());
        assert!(tower.disks().is_empty());
        assert_eq!(tower.peek(), None);
    }
}

#[test]
fn empty_tower_fits_every_disk() {
    let tower = Tower::new(1);
    for size in 1..=8u8 {
        assert!(tower.can_fit(&Disk::new(size)));
    }
}

#[test]
fn tower_fits_only_strictly_smaller_disks() {
    let tower = tower_of(2, &[5]);
    for size in 1..=4u8 {
        assert!(tower.can_fit(&Disk::new(size)));
    }
    for size in 5..=8u8 {
        assert!(!tower.can_fit(&Disk::new(size)));
    }
}

#[test]
fn push_lays_the_disk_on_top() {
    let mut tower = Tower::new(1);
    assert_eq!(tower.push(Disk::new(3)), Ok(()));
    assert_eq!(tower.push(Disk::new(2)), Ok(()));
    assert_eq!(tower.sizes(), vec![3, 2]);
    assert_eq!(tower.len(), 2);
    assert_eq!(tower.peek(), Some(&Disk::new(2)));
    assert_eq!(tower.id(), 1);
}

#[test]
fn push_hands_a_larger_disk_back() {
    let mut tower = tower_of(1, &[1]);
    let refused = tower.push(Disk::new(3));
    assert_eq!(refused, Err((TowerError::SmallerDiskOnTower, Disk::new(3))));
    assert_eq!(tower.sizes(), vec![1]);
}

#[test]
fn push_hands_an_equal_disk_back() {
    let mut tower = tower_of(1, &[4]);
    let refused = tower.push(Disk::new(4));
    assert_eq!(refused, Err((TowerError::SmallerDiskOnTower, Disk::new(4))));
    assert_eq!(tower.sizes(), vec![4]);
}

#[test]
fn refused_disk_can_be_laid_elsewhere() {
    let mut small = tower_of(1, &[2]);
    let mut other = Tower::new(2);
    match small.push(Disk::new(7)) {
        Err((TowerError::SmallerDiskOnTower, disk)) => {
            assert_eq!(disk.size(), 7);
            assert_eq!(other.push(disk), Ok(()));
        }
        outcome => panic!("the disk was not handed back: {:?}", outcome),
    }
    assert_eq!(other.sizes(), vec![7]);
}

#[test]
fn pop_hands_over_the_top_disk() {
    let mut tower = tower_of(3, &[8, 5, 1]);
    assert_eq!(tower.pop(), Ok(Disk::new(1)));
    assert_eq!(tower.sizes(), vec![8, 5]);
    assert_eq!(tower.pop(), Ok(Disk::new(5)));
    assert_eq!(tower.pop(), Ok(Disk::new(8)));
    assert_eq!(tower.len(), 0);
    assert_eq!(tower.id(), 3);
}

#[test]
fn pop_on_an_empty_tower_fails() {
    let mut tower = Tower::new(1);
    assert_eq!(tower.pop(), Err(TowerError::NoDisksOnTower));
    assert_eq!(tower.len(), 0);
    assert_eq!(tower.push(Disk::new(1)), Ok(()));
    assert_eq!(tower.pop(), Ok(Disk::new(1)));
    assert_eq!(tower.pop(), Err(TowerError::NoDisksOnTower));
}

#[test]
fn peek_leaves_the_disk_on_the_tower() {
    let tower = tower_of(1, &[6, 3]);
    assert_eq!(tower.peek().map(|disk| disk.size()), Some(3));
    assert_eq!(tower.peek().map(|disk| disk.size()), Some(3));
    assert_eq!(tower.sizes(), vec![6, 3]);
}

#[test]
fn disks_are_listed_from_the_bottom() {
    let tower = tower_of(1, &[8, 4, 2]);
    let listed: Vec<u8> = tower.disks().iter().map(|disk| disk.size()).collect();
    assert_eq!(listed, vec![8, 4, 2]);
    assert_eq!(listed, tower.sizes());
}

#[test]
fn stack_stays_descending_under_any_pushes_and_pops() {
    let mut tower = Tower::new(1);
    let mut seed: u32 = 12345;
    for _ in 0..2000 {
        seed = seed.wrapping_mul(1103515245).wrapping_add(12345);
        let pick = (seed >> 16) % 12;
        if pick < 8 {
            let size = (pick + 1) as u8;
            let fit = tower.can_fit(&Disk::new(size));
            let before = tower.sizes();
            match tower.push(Disk::new(size)) {
                Ok(()) => {
                    assert!(fit);
                    assert_eq!(tower.len(), before.len() + 1);
                }
                Err((error, disk)) => {
                    assert!(!fit);
                    assert_eq!(error, TowerError::SmallerDiskOnTower);
                    assert_eq!(disk.size(), size);
                    assert_eq!(tower.sizes(), before);
                }
            }
        } else {
            let before = tower.sizes();
            match tower.pop() {
                Ok(disk) => assert_eq!(Some(&disk.size()), before.last()),
                Err(error) => {
                    assert_eq!(error, TowerError::NoDisksOnTower);
                    assert!(before.is_empty());
                }
            }
        }
        assert!(strictly_descending(&tower.sizes()));
    }
}
