//! The kernel heap: a buddy allocator over power-of-two size classes.

pub mod bin;
pub mod util;
