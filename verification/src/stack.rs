//! The call stack: a fixed-capacity array of 16-bit return addresses, used
//! only by the call and return opcodes.
use vstd::prelude::*;

use crate::config::CHIP8_STACK_SIZE;

verus! {

pub struct Stack {
    pub stack: [u16; CHIP8_STACK_SIZE],
}

impl Stack {
    /// An empty stack: all slots zero.
    pub fn new() -> (s: Stack)
        ensures
            forall|k: int| 0 <= k < CHIP8_STACK_SIZE ==> s.stack@[k] == 0,
    {
        Stack { stack: [0; CHIP8_STACK_SIZE] }
    }
}

} // verus!
