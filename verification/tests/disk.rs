use hanoi::types::Disk;
use hanoi::types::MAX_DISK_SIZE;

#[test]
fn disk_keeps_its_size() {
    for size in 1..=MAX_DISK_SIZE {
        assert_eq!(Disk::new(size).size(), size);
    }
}

#[test]
fn largest_disk_has_size_eight() {
    assert_eq!(MAX_DISK_SIZE, 8);
    assert_eq!(Disk::new(8).size(), 8);
}

#[test]
fn disks_of_one_size_are_equal() {
    assert_eq!(Disk::new(4), Disk::new(4));
    assert_ne!(Disk::new(4), Disk::new(5));
}
