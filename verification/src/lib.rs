//! CatOS kernel logic: the parts of a small AMD64 kernel that decide and
//! compute, each with a contract that is proved.  Hardware access,
//! interrupts and the boot sequence live in the kernel binary around it.

pub mod keys;
pub mod text;
pub mod tasks;
pub mod initrd;
pub mod fs;
pub mod shell;
pub mod font;
pub mod console;
pub mod libc;
pub mod fb;
pub mod memory;
pub mod rawkeys;
pub mod fbtest;
pub mod doom;
pub mod render;
pub mod ports;
pub mod pic;
pub mod pit;
pub mod serial;

