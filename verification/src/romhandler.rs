//! ROM cartridge handling: a raw ROM image is copied once into a zero-padded
//! buffer the size of the program region, and ownership then passes to
//! memory.
use vstd::prelude::*;

use crate::config::CHIP8_INSTRUCTIONS_SIZE;
use crate::Chip8Error;

verus! {

pub struct RomCartridge {
    /// The ROM image, zero-padded to the size of the program region.
    pub rom: [u8; CHIP8_INSTRUCTIONS_SIZE],
}

impl RomCartridge {
    /// Copy a ROM image into a fresh cartridge. An image larger than the
    /// program region is rejected with `RomTooLarge`; one of exactly that
    /// size still fits.
    pub fn new(bytes: &Vec<u8>) -> (r: Result<RomCartridge, Chip8Error>)
        ensures
            r is Ok <==> bytes@.len() <= CHIP8_INSTRUCTIONS_SIZE,
            r is Err ==> r == Err::<RomCartridge, Chip8Error>(Chip8Error::RomTooLarge),
            r matches Ok(cart) ==> {
                &&& forall|k: int| 0 <= k < bytes@.len() ==> cart.rom@[k] == bytes@[k]
                &&& forall|k: int|
                    bytes@.len() <= k < CHIP8_INSTRUCTIONS_SIZE ==> cart.rom@[k] == 0
            },
    {
        if bytes.len() > CHIP8_INSTRUCTIONS_SIZE {
            return Err(Chip8Error::RomTooLarge);
        }
        let mut rom: [u8; CHIP8_INSTRUCTIONS_SIZE] = [0; CHIP8_INSTRUCTIONS_SIZE];
        let mut k: usize = 0;
        while k < bytes.len()
            invariant
                k <= bytes@.len(),
                bytes@.len() <= CHIP8_INSTRUCTIONS_SIZE,
                forall|j: int| 0 <= j < k ==> rom@[j] == bytes@[j],
                forall|j: int| k <= j < CHIP8_INSTRUCTIONS_SIZE ==> rom@[j] == 0,
            decreases bytes@.len() - k,
        {
            rom[k] = bytes[k];
            k += 1;
        }
        Ok(RomCartridge { rom })
    }
}

} // verus!
