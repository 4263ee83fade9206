# cmli object-file reading, verified

The object-file layer of the machine description: reading ELF files.

- `src/obj/raw/helpers`: the byte-layout loader. `BinContext` holds the file and
  the byte order; `BinField` is a value laid out in the file that can be loaded,
  validated and read (`Magic`, `EndianFlag`, `Pad`, and the integer fields
  `U8`..`U64`); `primitives` decodes unsigned integers in either byte order, and
  `text` renders the error messages.
- `src/obj/raw/elf.rs`: the ELF file header as `BinField`s.
- `src/obj/elf.rs`: `ElfReader`, which reads the header of an ELF file held in
  memory, finds the section-name string table, and hands out readers of the
  sections that have contents.
- `src/obj/mod.rs`: the format-neutral `ObjectFile` and `Section`, and the traits
  through which a format's reader is walked.
- `app/`: reading a file from a seekable stream, I/O errors, and `Debug` output.
