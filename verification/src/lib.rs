//! Decisions of an old-kernel compatibility layer, and edits of ELF symbol versions.

pub mod abi;
pub mod bytes;
pub mod decimal;
pub mod elf;
pub mod elf_laws;
pub mod emulated_syscalls;
pub mod emulation_laws;
pub mod exit_laws;
pub mod fix_laws;
pub mod fix_versions;
pub mod futex;
pub mod kernel;
pub mod launch;
pub mod map_laws;
pub mod maps;
pub mod memory;
pub mod probe_laws;
pub mod protocol;
pub mod refix_laws;
pub mod restrip_laws;
pub mod seccomp;
pub mod sequence;
pub mod sequence_laws;
pub mod sigill;
pub mod statx;
pub mod stop_laws;
pub mod takeover_laws;
pub mod termios;
pub mod text;
pub mod time;
pub mod timer_laws;
pub mod tracer;
pub mod tracer_laws;
pub mod translation_laws;
pub mod unversion;
pub mod value_laws;
pub mod version_laws;
pub mod versions;
pub mod wait;
