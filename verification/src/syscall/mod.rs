//! System calls.

pub mod fs;
pub mod process;
