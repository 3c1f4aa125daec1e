//! Scalar CPU state: sixteen general registers, the address register, both
//! timers, the program counter and the stack pointer.
use vstd::prelude::*;

use crate::config::CHIP8_PROGRAM_BASE;
use crate::config::CHIP8_REGISTERS_NUM;

verus! {

pub struct Registers {
    /// General registers V0..VF; VF doubles as the arithmetic flag register.
    pub v: [u8; CHIP8_REGISTERS_NUM],
    /// Delay timer.
    pub dt: u8,
    /// Sound timer.
    pub st: u8,
    /// Program counter.
    pub pc: u16,
    /// Stack pointer: index of the topmost occupied stack slot, 0 when empty.
    pub sp: usize,
    /// Address register.
    pub i: u16,
}

impl Registers {
    /// Power-on state: everything zero, the program counter at the program
    /// base.
    pub fn new() -> (r: Registers)
        ensures
            forall|k: int| 0 <= k < CHIP8_REGISTERS_NUM ==> r.v@[k] == 0,
            r.dt == 0,
            r.st == 0,
            r.pc == CHIP8_PROGRAM_BASE,
            r.sp == 0,
            r.i == 0,
    {
        Registers {
            v: [0; CHIP8_REGISTERS_NUM],
            dt: 0,
            st: 0,
            pc: 0x200,
            sp: 0,
            i: 0,
        }
    }
}

} // verus!
