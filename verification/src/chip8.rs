//! The machine aggregate: memory, call stack, registers, host-facing ports
//! and the cartridge, with a mathematical snapshot view that the opcode
//! contracts are stated over.
use vstd::prelude::*;

use crate::charset::spec_charset;
use crate::config::CHIP8_CHARSET_LEN;
use crate::config::CHIP8_DISPLAY_HEIGHT;
use crate::config::CHIP8_DISPLAY_WIDTH;
use crate::config::CHIP8_INSTRUCTIONS_SIZE;
use crate::config::CHIP8_KEYBOARD_SIZE;
use crate::config::CHIP8_MEMORY_SIZE;
use crate::config::CHIP8_PROGRAM_BASE;
use crate::config::CHIP8_REGISTERS_NUM;
use crate::config::CHIP8_STACK_SIZE;
use crate::display::grid_pixel;
use crate::display::grid_view;
use crate::io::IO;
use crate::memory::Memory;
use crate::registers::Registers;
use crate::romhandler::RomCartridge;
use crate::stack::Stack;
use crate::Chip8Error;

verus! {

/// A mathematical snapshot of the machine: every component as a sequence or
/// scalar, the framebuffer as a grid of columns.
#[verifier::ext_equal]
pub ghost struct Chip8View {
    pub mem: Seq<u8>,
    pub stk: Seq<u16>,
    pub v: Seq<u8>,
    pub dt: u8,
    pub st: u8,
    pub pc: u16,
    pub sp: int,
    pub i: u16,
    pub keys: Seq<bool>,
    pub pixels: Seq<Seq<bool>>,
    pub rom: Seq<u8>,
}

pub struct Chip8 {
    pub memory: Memory,
    pub stack: Stack,
    pub registers: Registers,
    pub io: IO,
    pub romcartridge: RomCartridge,
}

impl View for Chip8 {
    type V = Chip8View;

    open spec fn view(&self) -> Chip8View {
        Chip8View {
            mem: self.memory.ram@,
            stk: self.stack.stack@,
            v: self.registers.v@,
            dt: self.registers.dt,
            st: self.registers.st,
            pc: self.registers.pc,
            sp: self.registers.sp as int,
            i: self.registers.i,
            keys: self.io.keys@,
            pixels: grid_view(self.io.display.pixels),
            rom: self.romcartridge.rom@,
        }
    }
}

/// A machine at power-on with a cartridge inserted: fresh memory with the
/// glyph table, zeroed registers and stack, the program counter at the
/// program base, no key down, a blank screen, the cartridge not yet copied
/// into memory.
pub open spec fn chip8_fresh(c: Chip8View, rom: Seq<u8>) -> bool {
    &&& forall|k: int| 0 <= k < CHIP8_CHARSET_LEN ==> c.mem[k] == spec_charset()@[k]
    &&& forall|k: int| CHIP8_CHARSET_LEN <= k < CHIP8_MEMORY_SIZE ==> c.mem[k] == 0
    &&& forall|k: int| 0 <= k < CHIP8_STACK_SIZE ==> c.stk[k] == 0
    &&& forall|k: int| 0 <= k < CHIP8_REGISTERS_NUM ==> c.v[k] == 0
    &&& c.dt == 0
    &&& c.st == 0
    &&& c.pc == CHIP8_PROGRAM_BASE
    &&& c.sp == 0
    &&& c.i == 0
    &&& forall|k: int| 0 <= k < CHIP8_KEYBOARD_SIZE ==> !c.keys[k]
    &&& forall|px: int, py: int|
        0 <= px < CHIP8_DISPLAY_WIDTH && 0 <= py < CHIP8_DISPLAY_HEIGHT
            ==> !#[trigger] grid_pixel(c.pixels, px, py)
    &&& c.rom == rom
}

impl Chip8 {
    /// The stack pointer stays within the stack's capacity.
    pub open spec fn wf(&self) -> bool {
        self.registers.sp < CHIP8_STACK_SIZE
    }

    /// See `chip8_fresh`: a machine at power-on with `romcartridge`
    /// inserted but not yet copied into memory.
    pub fn new(romcartridge: RomCartridge) -> (c: Chip8)
        ensures
            c.wf(),
            chip8_fresh(c@, romcartridge.rom@),
    {
        Chip8 {
            memory: Memory::new(),
            stack: Stack::new(),
            registers: Registers::new(),
            io: IO::new(),
            romcartridge,
        }
    }

    /// Push a return address. The slot above the current stack pointer
    /// takes the value; a full stack is reported instead of wrapped.
    pub fn stack_push(&mut self, value: u16) -> (r: Result<(), Chip8Error>)
        requires
            old(self).wf(),
        ensures
            final(self).wf(),
            old(self)@.sp + 1 < CHIP8_STACK_SIZE ==> {
                &&& r == Ok::<(), Chip8Error>(())
                &&& final(self)@ == (Chip8View {
                    stk: old(self)@.stk.update(old(self)@.sp + 1, value),
                    sp: old(self)@.sp + 1,
                    ..old(self)@
                })
            },
            old(self)@.sp + 1 >= CHIP8_STACK_SIZE ==> {
                &&& r == Err::<(), Chip8Error>(Chip8Error::AddressOutOfBounds)
                &&& final(self)@ == old(self)@
            },
    {
        if self.registers.sp + 1 >= CHIP8_STACK_SIZE {
            return Err(Chip8Error::AddressOutOfBounds);
        }
        self.registers.sp = self.registers.sp + 1;
        self.stack.stack[self.registers.sp] = value;
        proof {
            assert(self@ =~= Chip8View {
                stk: old(self)@.stk.update(old(self)@.sp + 1, value),
                sp: old(self)@.sp + 1,
                ..old(self)@
            });
        }
        Ok(())
    }

    /// Pop a return address: the value at the current stack pointer, which
    /// then moves down; an empty stack is reported instead of wrapped.
    pub fn stack_pop(&mut self) -> (r: Result<u16, Chip8Error>)
        requires
            old(self).wf(),
        ensures
            final(self).wf(),
            old(self)@.sp >= 1 ==> {
                &&& r == Ok::<u16, Chip8Error>(old(self)@.stk[old(self)@.sp])
                &&& final(self)@ == (Chip8View { sp: old(self)@.sp - 1, ..old(self)@ })
            },
            old(self)@.sp == 0 ==> {
                &&& r == Err::<u16, Chip8Error>(Chip8Error::AddressOutOfBounds)
                &&& final(self)@ == old(self)@
            },
    {
        if self.registers.sp == 0 {
            return Err(Chip8Error::AddressOutOfBounds);
        }
        let result = self.stack.stack[self.registers.sp];
        self.registers.sp = self.registers.sp - 1;
        proof {
            assert(self@ =~= Chip8View { sp: old(self)@.sp - 1, ..old(self)@ });
        }
        Ok(result)
    }
}

} // verus!
