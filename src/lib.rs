//! A fixed-capacity page cache: a pool of frames with clock-sweep
//! replacement, and a manager that maps page identifiers onto frames.

pub mod buffer;
pub mod clock;
pub mod disk;
