//! A toolchain for the RSC (Relatively Simple Computer) teaching machine: an
//! assembler, a register-transfer level emulator, and a time-reversible
//! debugger built on a change journal.
pub mod assembler;
pub mod debugger;
pub mod emulator;
pub mod logisim;
pub mod machine;
pub mod memory;
pub mod text;
pub mod timeless;
pub mod types;
