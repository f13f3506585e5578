//! The process and memory core of a small cooperative kernel: a stride
//! scheduler over task control blocks, per-task address spaces made of
//! framed regions, and the system calls that act on them.

pub mod config;
pub mod memory_set;
pub mod task;
pub mod manager;
pub mod kernel;
pub mod syscall;
