//! Byte-addressable memory: 4096 bytes, the glyph table preloaded at the
//! bottom, the program region starting at the program base.
use vstd::prelude::*;

use crate::charset::chip8_charset;
use crate::charset::spec_charset;
use crate::config::CHIP8_CHARSET_LEN;
use crate::config::CHIP8_INSTRUCTIONS_SIZE;
use crate::config::CHIP8_MEMORY_SIZE;
use crate::config::CHIP8_PROGRAM_BASE;
use crate::romhandler::RomCartridge;
use crate::Chip8Error;

verus! {

pub struct Memory {
    pub ram: [u8; CHIP8_MEMORY_SIZE],
}

impl Memory {
    /// Fresh memory: the glyph table in the first 80 bytes, zeroes elsewhere.
    pub fn new() -> (m: Memory)
        ensures
            forall|k: int| 0 <= k < CHIP8_CHARSET_LEN ==> m.ram@[k] == spec_charset()@[k],
            forall|k: int| CHIP8_CHARSET_LEN <= k < CHIP8_MEMORY_SIZE ==> m.ram@[k] == 0,
    {
        let mut ram: [u8; CHIP8_MEMORY_SIZE] = [0; CHIP8_MEMORY_SIZE];
        let cs = chip8_charset();
        let mut k: usize = 0;
        while k < CHIP8_CHARSET_LEN
            invariant
                k <= CHIP8_CHARSET_LEN,
                cs == spec_charset(),
                forall|j: int| 0 <= j < k ==> ram@[j] == spec_charset()@[j],
                forall|j: int| k <= j < CHIP8_MEMORY_SIZE ==> ram@[j] == 0,
            decreases CHIP8_CHARSET_LEN - k,
        {
            ram[k] = cs[k];
            k += 1;
        }
        Memory { ram }
    }

    /// Bounds-checked read of one byte.
    pub fn read(&self, addr: usize) -> (r: Result<u8, Chip8Error>)
        ensures
            addr < CHIP8_MEMORY_SIZE ==> r == Ok::<u8, Chip8Error>(self.ram@[addr as int]),
            addr >= CHIP8_MEMORY_SIZE ==> r == Err::<u8, Chip8Error>(
                Chip8Error::AddressOutOfBounds,
            ),
    {
        if addr < CHIP8_MEMORY_SIZE {
            Ok(self.ram[addr])
        } else {
            Err(Chip8Error::AddressOutOfBounds)
        }
    }

    /// Bounds-checked write of one byte.
    pub fn write(&mut self, addr: usize, byte: u8) -> (r: Result<(), Chip8Error>)
        ensures
            addr < CHIP8_MEMORY_SIZE ==> {
                &&& r == Ok::<(), Chip8Error>(())
                &&& final(self).ram@ == old(self).ram@.update(addr as int, byte)
            },
            addr >= CHIP8_MEMORY_SIZE ==> {
                &&& r == Err::<(), Chip8Error>(Chip8Error::AddressOutOfBounds)
                &&& final(self).ram@ == old(self).ram@
            },
    {
        if addr < CHIP8_MEMORY_SIZE {
            self.ram[addr] = byte;
            Ok(())
        } else {
            Err(Chip8Error::AddressOutOfBounds)
        }
    }

    /// Copy a cartridge's zero-padded program image into the program region;
    /// everything below the program base is untouched.
    pub fn load_instructions(&mut self, romcart: &RomCartridge)
        ensures
            forall|k: int|
                0 <= k < CHIP8_PROGRAM_BASE ==> final(self).ram@[k] == old(self).ram@[k],
            forall|k: int|
                0 <= k < CHIP8_INSTRUCTIONS_SIZE ==> final(self).ram@[
                    CHIP8_PROGRAM_BASE + k
                ] == romcart.rom@[k],
    {
        let mut k: usize = 0;
        while k < CHIP8_INSTRUCTIONS_SIZE
            invariant
                k <= CHIP8_INSTRUCTIONS_SIZE,
                forall|j: int|
                    0 <= j < CHIP8_PROGRAM_BASE ==> self.ram@[j] == old(self).ram@[j],
                forall|j: int|
                    0 <= j < k ==> self.ram@[CHIP8_PROGRAM_BASE + j] == romcart.rom@[j],
            decreases CHIP8_INSTRUCTIONS_SIZE - k,
        {
            self.ram[CHIP8_PROGRAM_BASE + k] = romcart.rom[k];
            k += 1;
        }
    }
}

} // verus!
