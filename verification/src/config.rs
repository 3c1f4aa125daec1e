//! Machine-wide dimensions of the CHIP-8 architecture, and the byte-to-bits
//! helper used by sprite drawing.
use vstd::prelude::*;

verus! {

pub const CHIP8_MEMORY_SIZE: usize = 4096;

pub const CHIP8_DISPLAY_WIDTH: usize = 64;

pub const CHIP8_DISPLAY_HEIGHT: usize = 32;

pub const CHIP8_REGISTERS_NUM: usize = 16;

pub const CHIP8_STACK_SIZE: usize = 16;

pub const CHIP8_KEYBOARD_SIZE: usize = 16;

pub const CHIP8_CHARSET_LEN: usize = 80;

/// Size of the program region: memory capacity minus the program base.
pub const CHIP8_INSTRUCTIONS_SIZE: usize = 0xE00;

/// Address where a loaded program begins execution.
pub const CHIP8_PROGRAM_BASE: usize = 0x200;

/// Bit `p` of byte `n`, counted from the most significant bit down, as a
/// sprite row is drawn left to right.
pub open spec fn spec_bit_msb(n: u8, p: int) -> bool
    recommends
        0 <= p < 8,
{
    (n >> ((7 - p) as u8)) & 1 == 1
}

/// Decompose a byte into its eight bits, most significant first.
pub fn get_bit_values(n: u8) -> (bits: [bool; 8])
    ensures
        forall|p: int| 0 <= p < 8 ==> bits@[p] == spec_bit_msb(n, p),
{
    let mut bits: [bool; 8] = [false; 8];
    bits[0] = (n >> 7u8) & 1 == 1;
    bits[1] = (n >> 6u8) & 1 == 1;
    bits[2] = (n >> 5u8) & 1 == 1;
    bits[3] = (n >> 4u8) & 1 == 1;
    bits[4] = (n >> 3u8) & 1 == 1;
    bits[5] = (n >> 2u8) & 1 == 1;
    bits[6] = (n >> 1u8) & 1 == 1;
    bits[7] = n & 1 == 1;
    proof {
        assert(n & 1 == (n >> 0u8) & 1) by (bit_vector);
    }
    bits
}

} // verus!
