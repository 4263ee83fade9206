pub mod elf;
pub mod helpers;
