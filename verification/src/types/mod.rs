//! The pieces of the puzzle: disks, towers and the cursor.

pub mod cursor;
pub mod disk;
pub mod errors;
pub mod tower;

pub use cursor::Cursor;
pub use disk::Disk;
pub use disk::MAX_DISK_SIZE;
pub use tower::Tower;
