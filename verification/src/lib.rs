//! File-system core of a teaching kernel: block access over a sector device,
//! the virtual file-system interfaces and the open-file objects built on them.

pub mod block;
pub mod defs;
pub mod vfs;
pub mod file;
pub mod ext4;
pub mod memfs;
