//! The scan code sets.

pub mod set1;
