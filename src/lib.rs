//! A static linker for 32-bit x86 ELF relocatable objects that emits
//! MENUET01 flat executables.
//!
//! The pipeline has three stages: symbol resolution over every input object
//! (`analysis`), a reachability walk from `_start` that lays the reachable
//! sections out into a code and a data buffer (`layout`), and relocation
//! patching of those buffers (`relocation`). `kos_application` wraps the two
//! buffers into the final image.

pub mod uid_generator;
pub mod error;
pub mod data_table;
pub mod symbol_table;
pub mod naming;
pub mod object_file;
pub mod placement;
pub mod layout;
pub mod patch;
pub mod relocation;
pub mod writer;
pub mod kos_application;
pub mod analysis;
pub mod elf_reader;
pub mod reader;
pub mod link;
pub mod options;
pub mod libraries;
pub mod symbol_map;
