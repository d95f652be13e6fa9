pub mod behaviour;
pub mod calls;
pub mod directory;
pub mod efs;
pub mod file;
pub mod laws;
pub mod layout;
pub mod mm;
pub mod model;
pub mod search;
pub mod syscall;
pub mod task;
pub mod vfs;
