//! Object-file reading for the machine layer: an ELF reader over the bytes of a
//! file, a byte-layout loader for the raw ELF structures, and a format-neutral
//! description of the sections of an object file.
pub mod macros;
pub mod obj;
