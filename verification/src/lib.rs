//! A growable UTF-8 string that lives inside a fixed-size byte region.
//!
//! [`SliceString`] holds exclusive write access to a caller-supplied byte
//! region, through a [`tinyvec::SliceVec`], for its whole lifetime. The
//! region's size is the string's capacity, fixed at binding time: there is
//! no reallocation and no growth past it. The bytes up to the current
//! length always form valid UTF-8; every mutating operation is proved to
//! keep it that way, and appends that would overflow the capacity are
//! reported as errors with the content untouched.

mod buffer;
mod order;
mod slicevec;
mod tail;

pub use buffer::Error;
pub use buffer::SliceString;
