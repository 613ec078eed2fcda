//! An assembler and a pipelined emulator for the Brumm 8-bit CPU, with the
//! barrel image that lays a program out as a redstone ROM.
//!
//! - `text`: lines, tokens and decimal bytes of assembly source.
//! - `assembler`: the two-pass assembler and its laws.
//! - `emulator`: the pipelined CPU, its model and its laws.
//! - `emulate`: the minimal CPU core.
//! - `schematic`: the barrel image of a program and its block layout.
//! - `optimizer`: labelling of jump targets.
//! - `ports`: the character display's table.

pub mod assembler;
pub mod emulate;
pub mod emulator;
pub mod optimizer;
pub mod ports;
pub mod schematic;
pub mod text;
