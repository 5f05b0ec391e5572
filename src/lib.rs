pub mod error;
pub mod elf;
pub mod vfs;
pub mod fd_table;
pub mod process;
pub mod syscalls;
pub mod boot;
