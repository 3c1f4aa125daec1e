//! A CHIP-8 virtual machine core: flat byte memory with a built-in glyph
//! table, sixteen 8-bit registers, a fixed-capacity call stack, a 64x32
//! monochrome framebuffer, two countdown timers, and a fetch-decode-execute
//! interpreter for the 16-bit instruction set.
//!
//! The host owns the actual window, keyboard and audio backends; it feeds key
//! states in, presents the framebuffer, and drives the interpreter one cycle
//! at a time.
use vstd::prelude::*;

pub mod charset;
pub mod chip8;
pub mod config;
pub mod cpu;
pub mod display;
pub mod io;
pub mod memory;
pub mod registers;
pub mod romhandler;
pub mod stack;

verus! {

/// Fatal conditions that stop an emulation session.
#[derive(Clone, Copy, Debug, PartialEq, Eq, Structural)]
pub enum Chip8Error {
    /// A memory, stack or keypad access landed beyond its capacity.
    AddressOutOfBounds,
    /// A ROM image is larger than the program region of memory.
    RomTooLarge,
    /// The program counter left the valid program window during fetch.
    ProgramCounterOutOfProgramRegion,
}

} // verus!
