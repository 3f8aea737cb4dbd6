//! Numeric capabilities with a verified fixed-width byte codec, and a lazy,
//! composable enumeration of point indices.

pub mod boolean;
pub mod bytes;
pub mod iter;
pub mod number;
