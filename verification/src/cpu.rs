//! The fetch-decode-execute engine: instruction decode, one handler per
//! opcode family, the dispatcher, and the cycle driver with its timer tick.
//!
//! Every opcode's effect is stated as a function on the machine snapshot
//! (`Chip8View`), and each handler is proved to realize exactly that
//! function.
use vstd::prelude::*;

use rand::Rng;

use crate::chip8::chip8_fresh;
use crate::chip8::Chip8;
use crate::chip8::Chip8View;
use crate::config::spec_bit_msb;
use crate::config::CHIP8_MEMORY_SIZE;
use crate::config::CHIP8_PROGRAM_BASE;
use crate::display::blank_grid;
use crate::display::grid_after_sprite;
use crate::display::grid_pixel;
use crate::display::grid_view;
use crate::display::lemma_byte_row_mod;
use crate::display::lemma_clear_grid;
use crate::display::lemma_draw_byte_grid;
use crate::display::lemma_draw_byte_hit_grid;
use crate::display::lemma_draw_sprite_twice;
use crate::display::sprite_hit;
use crate::display::wf_grid;
use crate::io::spec_key_index;
use crate::romhandler::RomCartridge;
use crate::Chip8Error;
use vstd::arithmetic::div_mod::lemma_mod_add_multiples_vanish;
use vstd::arithmetic::div_mod::lemma_mod_mod;

verus! {

/// How many cycles pass between timer decrements.
pub const TIMER_DIVIDER: u8 = 8;

/// One fetched 16-bit word split into its four nibbles and the derived
/// operand fields, recomputed every cycle.
pub struct Instruction {
    pub instruction: u16,
    pub nibbles: [u8; 4],
    /// Low 12 bits: the address operand.
    pub nnn: u16,
    /// Lowest nibble.
    pub n: u8,
    /// Second nibble: first register index.
    pub x: u8,
    /// Third nibble: second register index.
    pub y: u8,
    /// Low byte: the immediate operand.
    pub kk: u8,
}

/// Highest nibble of a word: the opcode class.
pub open spec fn spec_nib0(w: u16) -> u16 {
    (w >> 12) & 0xF
}

/// Second nibble of a word.
pub open spec fn spec_nib1(w: u16) -> u16 {
    (w >> 8) & 0xF
}

/// Third nibble of a word.
pub open spec fn spec_nib2(w: u16) -> u16 {
    (w >> 4) & 0xF
}

/// Lowest nibble of a word.
pub open spec fn spec_nib3(w: u16) -> u16 {
    w & 0xF
}

/// First register operand of a word.
pub open spec fn spec_x(w: u16) -> int {
    spec_nib1(w) as int
}

/// Second register operand of a word.
pub open spec fn spec_y(w: u16) -> int {
    spec_nib2(w) as int
}

/// Low-nibble operand of a word.
pub open spec fn spec_n(w: u16) -> int {
    spec_nib3(w) as int
}

/// Immediate byte operand of a word.
pub open spec fn spec_kk(w: u16) -> u8 {
    (w & 0xFF) as u8
}

/// Address operand of a word.
pub open spec fn spec_nnn(w: u16) -> u16 {
    w & 0xFFF
}

/// The masked nibbles and derived fields all lie within their ranges.
proof fn lemma_nibble_bounds(w: u16)
    by (bit_vector)
    ensures
        (w >> 12) & 0xF < 16,
        (w >> 8) & 0xF < 16,
        (w >> 4) & 0xF < 16,
        w & 0xF < 16,
        w & 0xFF < 256,
        w & 0xFFF < 0x1000,
{
}

impl Instruction {
    /// The decoded fields agree with the instruction word.
    pub open spec fn wf(&self) -> bool {
        &&& self.nibbles@[0] as u16 == spec_nib0(self.instruction)
        &&& self.nibbles@[1] as u16 == spec_nib1(self.instruction)
        &&& self.nibbles@[2] as u16 == spec_nib2(self.instruction)
        &&& self.nibbles@[3] as u16 == spec_nib3(self.instruction)
        &&& self.nnn == spec_nnn(self.instruction)
        &&& self.n == self.nibbles@[3]
        &&& self.x == self.nibbles@[1]
        &&& self.y == self.nibbles@[2]
        &&& self.kk as u16 == self.instruction & 0xFF
        &&& self.x < 16
        &&& self.y < 16
        &&& self.n < 16
        &&& self.nnn < 0x1000
    }

    /// Pure decode of one instruction word. No side effects.
    pub fn new(instruction: u16) -> (inst: Instruction)
        ensures
            inst.instruction == instruction,
            inst.wf(),
    {
        proof {
            lemma_nibble_bounds(instruction);
        }
        let mut nibbles: [u8; 4] = [0; 4];
        nibbles[0] = ((instruction >> 12) & 0xF) as u8;
        nibbles[1] = ((instruction >> 8) & 0xF) as u8;
        nibbles[2] = ((instruction >> 4) & 0xF) as u8;
        nibbles[3] = (instruction & 0xF) as u8;
        let nnn = instruction & 0xFFF;
        let n = nibbles[3];
        let x = nibbles[1];
        let y = nibbles[2];
        let kk = (instruction & 0xFF) as u8;
        Instruction { instruction, nibbles, nnn, n, x, y, kk }
    }
}

/// What the interpreter is doing between cycles.
#[derive(Clone, Copy, Debug, PartialEq, Eq, Structural)]
pub enum CpuState {
    /// Executing one instruction per cycle.
    Running,
    /// Suspended on the key-wait opcode; `x` is the register that takes the
    /// key the host reports.
    AwaitingKey { x: u8 },
    /// Stopped for good after a fatal condition.
    Halted,
}

/// A mathematical snapshot of the interpreter: the machine, the run state,
/// and the timer divider counter.
#[verifier::ext_equal]
pub ghost struct CpuView {
    pub chip8: Chip8View,
    pub state: CpuState,
    pub counter: u8,
}

pub struct Cpu {
    pub chip8: Chip8,
    pub state: CpuState,
    pub hz_divider_counter: u8,
}

impl View for Cpu {
    type V = CpuView;

    open spec fn view(&self) -> CpuView {
        CpuView { chip8: self.chip8@, state: self.state, counter: self.hz_divider_counter }
    }
}

/// An 8-bit value reduced from a wider computation.
pub open spec fn wrap8(a: int) -> u8 {
    (a % 0x100) as u8
}

/// A 16-bit value reduced from a wider computation.
pub open spec fn wrap16(a: int) -> u16 {
    (a % 0x10000) as u16
}

/// The program counter after a normal advance.
pub open spec fn spec_next_pc(pc: u16) -> u16 {
    wrap16(pc + 2)
}

/// The program counter after a taken skip.
pub open spec fn spec_skip_pc(pc: u16) -> u16 {
    wrap16(pc + 4)
}

/// CLS: clear the display, advance.
pub open spec fn spec_cls(s: Chip8View) -> Chip8View {
    Chip8View { pixels: blank_grid(), pc: spec_next_pc(s.pc), ..s }
}

/// RET: pop the stored return address into the program counter; an empty
/// stack is fatal.
pub open spec fn spec_ret(s: Chip8View) -> Result<Chip8View, Chip8Error> {
    if s.sp < 1 {
        Err(Chip8Error::AddressOutOfBounds)
    } else {
        Ok(Chip8View { pc: s.stk[s.sp], sp: s.sp - 1, ..s })
    }
}

/// JP addr: jump.
pub open spec fn spec_jump(s: Chip8View, nnn: u16) -> Chip8View {
    Chip8View { pc: nnn, ..s }
}

/// CALL addr: push the address of the following instruction, then jump; a
/// full stack is fatal.
pub open spec fn spec_call(s: Chip8View, nnn: u16) -> Result<Chip8View, Chip8Error> {
    if s.sp + 1 >= 16 {
        Err(Chip8Error::AddressOutOfBounds)
    } else {
        Ok(
            Chip8View {
                stk: s.stk.update(s.sp + 1, spec_next_pc(s.pc)),
                sp: s.sp + 1,
                pc: nnn,
                ..s
            },
        )
    }
}

/// SE Vx, byte: skip the next instruction when Vx equals the immediate.
pub open spec fn spec_se_vx_byte(s: Chip8View, x: int, kk: u8) -> Chip8View {
    if s.v[x] == kk {
        Chip8View { pc: spec_skip_pc(s.pc), ..s }
    } else {
        Chip8View { pc: spec_next_pc(s.pc), ..s }
    }
}

/// SNE Vx, byte: skip when Vx differs from the immediate.
pub open spec fn spec_sne_vx_byte(s: Chip8View, x: int, kk: u8) -> Chip8View {
    if s.v[x] != kk {
        Chip8View { pc: spec_skip_pc(s.pc), ..s }
    } else {
        Chip8View { pc: spec_next_pc(s.pc), ..s }
    }
}

/// SE Vx, Vy: skip when the two registers are equal.
pub open spec fn spec_se_vx_vy(s: Chip8View, x: int, y: int) -> Chip8View {
    if s.v[x] == s.v[y] {
        Chip8View { pc: spec_skip_pc(s.pc), ..s }
    } else {
        Chip8View { pc: spec_next_pc(s.pc), ..s }
    }
}

/// SNE Vx, Vy: skip when the two registers differ.
pub open spec fn spec_sne_vx_vy(s: Chip8View, x: int, y: int) -> Chip8View {
    if s.v[x] != s.v[y] {
        Chip8View { pc: spec_skip_pc(s.pc), ..s }
    } else {
        Chip8View { pc: spec_next_pc(s.pc), ..s }
    }
}

/// LD Vx, byte: assignment, advance.
pub open spec fn spec_ld_vx_byte(s: Chip8View, x: int, kk: u8) -> Chip8View {
    Chip8View { v: s.v.update(x, kk), pc: spec_next_pc(s.pc), ..s }
}

/// ADD Vx, byte: wrapping 8-bit add, VF untouched.
pub open spec fn spec_add_vx_byte(s: Chip8View, x: int, kk: u8) -> Chip8View {
    Chip8View { v: s.v.update(x, wrap8(s.v[x] + kk)), pc: spec_next_pc(s.pc), ..s }
}

/// LD Vx, Vy: assignment, advance.
pub open spec fn spec_ld_vx_vy(s: Chip8View, x: int, y: int) -> Chip8View {
    Chip8View { v: s.v.update(x, s.v[y]), pc: spec_next_pc(s.pc), ..s }
}

/// OR Vx, Vy: bitwise or into Vx.
pub open spec fn spec_or_vx_vy(s: Chip8View, x: int, y: int) -> Chip8View {
    Chip8View { v: s.v.update(x, s.v[x] | s.v[y]), pc: spec_next_pc(s.pc), ..s }
}

/// AND Vx, Vy: bitwise and into Vx.
pub open spec fn spec_and_vx_vy(s: Chip8View, x: int, y: int) -> Chip8View {
    Chip8View { v: s.v.update(x, s.v[x] & s.v[y]), pc: spec_next_pc(s.pc), ..s }
}

/// XOR Vx, Vy: bitwise exclusive or into Vx.
pub open spec fn spec_xor_vx_vy(s: Chip8View, x: int, y: int) -> Chip8View {
    Chip8View { v: s.v.update(x, s.v[x] ^ s.v[y]), pc: spec_next_pc(s.pc), ..s }
}

/// ADD Vx, Vy: wrapping add; the value is written first and the carry flag
/// second, so on Vx = VF the flag is what remains.
pub open spec fn spec_add_vx_vy(s: Chip8View, x: int, y: int) -> Chip8View {
    let sum = s.v[x] + s.v[y];
    let flag: u8 = if sum > 255 {
        1
    } else {
        0
    };
    Chip8View { v: s.v.update(x, wrap8(sum)).update(15, flag), pc: spec_next_pc(s.pc), ..s }
}

/// SUB Vx, Vy: wrapping subtract; VF becomes the no-borrow flag, written
/// after the value.
pub open spec fn spec_sub_vx_vy(s: Chip8View, x: int, y: int) -> Chip8View {
    let flag: u8 = if s.v[x] >= s.v[y] {
        1
    } else {
        0
    };
    Chip8View {
        v: s.v.update(x, wrap8(s.v[x] - s.v[y])).update(15, flag),
        pc: spec_next_pc(s.pc),
        ..s
    }
}

/// SHR Vx: VF takes bit 0 of Vx before the shift; Vx is halved.
pub open spec fn spec_shr_vx(s: Chip8View, x: int) -> Chip8View {
    Chip8View {
        v: s.v.update(x, s.v[x] / 2).update(15, s.v[x] & 1),
        pc: spec_next_pc(s.pc),
        ..s
    }
}

/// SUBN Vx, Vy: Vx becomes Vy minus Vx wrapping; VF the no-borrow flag of
/// that subtraction.
pub open spec fn spec_subn_vx_vy(s: Chip8View, x: int, y: int) -> Chip8View {
    let flag: u8 = if s.v[y] >= s.v[x] {
        1
    } else {
        0
    };
    Chip8View {
        v: s.v.update(x, wrap8(s.v[y] - s.v[x])).update(15, flag),
        pc: spec_next_pc(s.pc),
        ..s
    }
}

/// SHL Vx: VF takes bit 7 of Vx before the shift; Vx is doubled wrapping.
pub open spec fn spec_shl_vx(s: Chip8View, x: int) -> Chip8View {
    Chip8View {
        v: s.v.update(x, wrap8(s.v[x] * 2)).update(15, s.v[x] >> 7),
        pc: spec_next_pc(s.pc),
        ..s
    }
}

/// LD I, addr.
pub open spec fn spec_ld_i_addr(s: Chip8View, nnn: u16) -> Chip8View {
    Chip8View { i: nnn, pc: spec_next_pc(s.pc), ..s }
}

/// JP V0, addr: jump to the address offset by V0.
pub open spec fn spec_jp_v0_nnn(s: Chip8View, nnn: u16) -> Chip8View {
    Chip8View { pc: wrap16(nnn + s.v[0]), ..s }
}

/// RND Vx, byte: the immediate masked with a random byte `r`.
pub open spec fn spec_rnd_vx_byte(s: Chip8View, x: int, kk: u8, r: u8) -> Chip8View {
    Chip8View { v: s.v.update(x, kk & r), pc: spec_next_pc(s.pc), ..s }
}

/// SKP Vx: skip when the key numbered by Vx is down; a register value
/// beyond the keypad is fatal.
pub open spec fn spec_skp_vx(s: Chip8View, x: int) -> Result<Chip8View, Chip8Error> {
    if s.v[x] >= 16 {
        Err(Chip8Error::AddressOutOfBounds)
    } else if s.keys[spec_key_index(s.v[x] as int)] {
        Ok(Chip8View { pc: spec_skip_pc(s.pc), ..s })
    } else {
        Ok(Chip8View { pc: spec_next_pc(s.pc), ..s })
    }
}

/// SKNP Vx: skip when the key numbered by Vx is up.
pub open spec fn spec_sknp_vx(s: Chip8View, x: int) -> Result<Chip8View, Chip8Error> {
    if s.v[x] >= 16 {
        Err(Chip8Error::AddressOutOfBounds)
    } else if !s.keys[spec_key_index(s.v[x] as int)] {
        Ok(Chip8View { pc: spec_skip_pc(s.pc), ..s })
    } else {
        Ok(Chip8View { pc: spec_next_pc(s.pc), ..s })
    }
}

/// LD Vx, DT.
pub open spec fn spec_ld_vx_dt(s: Chip8View, x: int) -> Chip8View {
    Chip8View { v: s.v.update(x, s.dt), pc: spec_next_pc(s.pc), ..s }
}

/// LD DT, Vx.
pub open spec fn spec_ld_dt_vx(s: Chip8View, x: int) -> Chip8View {
    Chip8View { dt: s.v[x], pc: spec_next_pc(s.pc), ..s }
}

/// LD ST, Vx.
pub open spec fn spec_ld_st_vx(s: Chip8View, x: int) -> Chip8View {
    Chip8View { st: s.v[x], pc: spec_next_pc(s.pc), ..s }
}

/// ADD I, Vx: 16-bit wrapping add, VF untouched.
pub open spec fn spec_add_i_vx(s: Chip8View, x: int) -> Chip8View {
    Chip8View { i: wrap16(s.i + s.v[x]), pc: spec_next_pc(s.pc), ..s }
}

/// LD F, Vx: point I at the glyph for the digit in Vx, five bytes per
/// glyph.
pub open spec fn spec_ld_f_vx(s: Chip8View, x: int) -> Chip8View {
    Chip8View { i: (s.v[x] * 5) as u16, pc: spec_next_pc(s.pc), ..s }
}

/// LD B, Vx: the three decimal digits of Vx at I, I+1, I+2; writing past
/// the end of memory is fatal.
pub open spec fn spec_ld_b_vx(s: Chip8View, x: int) -> Result<Chip8View, Chip8Error> {
    if s.i + 2 >= CHIP8_MEMORY_SIZE {
        Err(Chip8Error::AddressOutOfBounds)
    } else {
        Ok(
            Chip8View {
                mem: s.mem.update(s.i as int, s.v[x] / 100).update(
                    s.i + 1,
                    (s.v[x] / 10) % 10,
                ).update(s.i + 2, s.v[x] % 10),
                pc: spec_next_pc(s.pc),
                ..s
            },
        )
    }
}

/// LD [I], Vx: store V0..Vx inclusive into memory from I; running past the
/// end of memory is fatal.
pub open spec fn spec_ld_i_vx(s: Chip8View, x: int) -> Result<Chip8View, Chip8Error> {
    if s.i + x >= CHIP8_MEMORY_SIZE {
        Err(Chip8Error::AddressOutOfBounds)
    } else {
        Ok(
            Chip8View {
                mem: Seq::new(
                    CHIP8_MEMORY_SIZE as nat,
                    |a: int|
                        if s.i <= a <= s.i + x {
                            s.v[a - s.i]
                        } else {
                            s.mem[a]
                        },
                ),
                pc: spec_next_pc(s.pc),
                ..s
            },
        )
    }
}

/// LD Vx, [I]: load memory from I into V0..Vx inclusive; running past the
/// end of memory is fatal.
pub open spec fn spec_ld_vx_i(s: Chip8View, x: int) -> Result<Chip8View, Chip8Error> {
    if s.i + x >= CHIP8_MEMORY_SIZE {
        Err(Chip8Error::AddressOutOfBounds)
    } else {
        Ok(
            Chip8View {
                v: Seq::new(
                    16,
                    |k: int|
                        if k <= x {
                            s.mem[s.i + k]
                        } else {
                            s.v[k]
                        },
                ),
                pc: spec_next_pc(s.pc),
                ..s
            },
        )
    }
}

/// The sprite rows a draw reads: `n` bytes from memory starting at I, the
/// address wrapping as a 16-bit value.
pub open spec fn spec_sprite_rows(s: Chip8View, n: int) -> Seq<u8> {
    Seq::new(n as nat, |r: int| s.mem[wrap16(s.i + r) as int])
}

/// Whether every sprite row of a draw lies inside memory.
pub open spec fn spec_drw_ok(s: Chip8View, n: int) -> bool {
    forall|r: int| 0 <= r < n ==> #[trigger] wrap16(s.i + r) < CHIP8_MEMORY_SIZE
}

/// DRW Vx, Vy, n: XOR-blit `n` sprite rows read from I onto the screen at
/// (Vx, Vy), wrapping coordinates; VF reports whether any lit pixel was
/// cleared. A sprite row outside memory is fatal.
pub open spec fn spec_drw_vx_vy_n(s: Chip8View, x: int, y: int, n: int) -> Result<
    Chip8View,
    Chip8Error,
> {
    if !spec_drw_ok(s, n) {
        Err(Chip8Error::AddressOutOfBounds)
    } else {
        let rows = spec_sprite_rows(s, n);
        let hit = sprite_hit(s.pixels, s.v[x] as int, s.v[y] as int, rows);
        let flag: u8 = if hit {
            1
        } else {
            0
        };
        Ok(
            Chip8View {
                pixels: grid_after_sprite(s.pixels, s.v[x] as int, s.v[y] as int, rows),
                v: s.v.update(15, flag),
                pc: spec_next_pc(s.pc),
                ..s
            },
        )
    }
}

/// The word fetched big-endian at the program counter.
pub open spec fn spec_fetch(s: Chip8View) -> u16 {
    ((s.mem[s.pc as int] as u16) << 8) | (s.mem[s.pc + 1] as u16)
}

/// First register operand of a word, as the byte a wait state records.
pub open spec fn spec_x_byte(w: u16) -> u8 {
    spec_nib1(w) as u8
}

/// A fallible opcode's outcome folded into the interpreter snapshot: on
/// success the machine advances, on failure nothing changes and the error
/// is passed up.
pub open spec fn spec_lift(s: CpuView, step: Result<Chip8View, Chip8Error>) -> (
    CpuView,
    Result<(), Chip8Error>,
) {
    match step {
        Ok(c) => ((CpuView { chip8: c, ..s }), Ok(())),
        Err(e) => (s, Err(e)),
    }
}

/// The dispatch table: one decoded instruction word applied to a snapshot,
/// sub-dispatching by nibble pattern exactly as the interpreter does. An
/// unrecognized pattern is a no-op with a normal advance. `r` stands for
/// the byte the random source returns, read only by RND.
pub open spec fn spec_execute(s: CpuView, w: u16, r: u8) -> (CpuView, Result<(), Chip8Error>) {
    let c = s.chip8;
    let k0 = spec_nib0(w);
    let k1 = spec_nib1(w);
    let k2 = spec_nib2(w);
    let k3 = spec_nib3(w);
    if k0 == 0x0 && k1 == 0x0 && k2 == 0xE && k3 == 0x0 {
        ((CpuView { chip8: spec_cls(c), ..s }), Ok(()))
    } else if k0 == 0x0 && k1 == 0x0 && k2 == 0xE && k3 == 0xE {
        spec_lift(s, spec_ret(c))
    } else if k0 == 0x1 {
        ((CpuView { chip8: spec_jump(c, spec_nnn(w)), ..s }), Ok(()))
    } else if k0 == 0x2 {
        spec_lift(s, spec_call(c, spec_nnn(w)))
    } else if k0 == 0x3 {
        ((CpuView { chip8: spec_se_vx_byte(c, spec_x(w), spec_kk(w)), ..s }), Ok(()))
    } else if k0 == 0x4 {
        ((CpuView { chip8: spec_sne_vx_byte(c, spec_x(w), spec_kk(w)), ..s }), Ok(()))
    } else if k0 == 0x5 && k3 == 0x0 {
        ((CpuView { chip8: spec_se_vx_vy(c, spec_x(w), spec_y(w)), ..s }), Ok(()))
    } else if k0 == 0x6 {
        ((CpuView { chip8: spec_ld_vx_byte(c, spec_x(w), spec_kk(w)), ..s }), Ok(()))
    } else if k0 == 0x7 {
        ((CpuView { chip8: spec_add_vx_byte(c, spec_x(w), spec_kk(w)), ..s }), Ok(()))
    } else if k0 == 0x8 && k3 == 0x0 {
        ((CpuView { chip8: spec_ld_vx_vy(c, spec_x(w), spec_y(w)), ..s }), Ok(()))
    } else if k0 == 0x8 && k3 == 0x1 {
        ((CpuView { chip8: spec_or_vx_vy(c, spec_x(w), spec_y(w)), ..s }), Ok(()))
    } else if k0 == 0x8 && k3 == 0x2 {
        ((CpuView { chip8: spec_and_vx_vy(c, spec_x(w), spec_y(w)), ..s }), Ok(()))
    } else if k0 == 0x8 && k3 == 0x3 {
        ((CpuView { chip8: spec_xor_vx_vy(c, spec_x(w), spec_y(w)), ..s }), Ok(()))
    } else if k0 == 0x8 && k3 == 0x4 {
        ((CpuView { chip8: spec_add_vx_vy(c, spec_x(w), spec_y(w)), ..s }), Ok(()))
    } else if k0 == 0x8 && k3 == 0x5 {
        ((CpuView { chip8: spec_sub_vx_vy(c, spec_x(w), spec_y(w)), ..s }), Ok(()))
    } else if k0 == 0x8 && k3 == 0x6 {
        ((CpuView { chip8: spec_shr_vx(c, spec_x(w)), ..s }), Ok(()))
    } else if k0 == 0x8 && k3 == 0x7 {
        ((CpuView { chip8: spec_subn_vx_vy(c, spec_x(w), spec_y(w)), ..s }), Ok(()))
    } else if k0 == 0x8 && k3 == 0xE {
        ((CpuView { chip8: spec_shl_vx(c, spec_x(w)), ..s }), Ok(()))
    } else if k0 == 0x9 && k3 == 0x0 {
        ((CpuView { chip8: spec_sne_vx_vy(c, spec_x(w), spec_y(w)), ..s }), Ok(()))
    } else if k0 == 0xA {
        ((CpuView { chip8: spec_ld_i_addr(c, spec_nnn(w)), ..s }), Ok(()))
    } else if k0 == 0xB {
        ((CpuView { chip8: spec_jp_v0_nnn(c, spec_nnn(w)), ..s }), Ok(()))
    } else if k0 == 0xC {
        ((CpuView { chip8: spec_rnd_vx_byte(c, spec_x(w), spec_kk(w), r), ..s }), Ok(()))
    } else if k0 == 0xD {
        spec_lift(s, spec_drw_vx_vy_n(c, spec_x(w), spec_y(w), spec_n(w)))
    } else if k0 == 0xE && k2 == 0x9 && k3 == 0xE {
        spec_lift(s, spec_skp_vx(c, spec_x(w)))
    } else if k0 == 0xE && k2 == 0xA && k3 == 0x1 {
        spec_lift(s, spec_sknp_vx(c, spec_x(w)))
    } else if k0 == 0xF && k2 == 0x0 && k3 == 0x7 {
        ((CpuView { chip8: spec_ld_vx_dt(c, spec_x(w)), ..s }), Ok(()))
    } else if k0 == 0xF && k2 == 0x0 && k3 == 0xA {
        ((CpuView { state: CpuState::AwaitingKey { x: spec_x_byte(w) }, ..s }), Ok(()))
    } else if k0 == 0xF && k2 == 0x1 && k3 == 0x5 {
        ((CpuView { chip8: spec_ld_dt_vx(c, spec_x(w)), ..s }), Ok(()))
    } else if k0 == 0xF && k2 == 0x1 && k3 == 0x8 {
        ((CpuView { chip8: spec_ld_st_vx(c, spec_x(w)), ..s }), Ok(()))
    } else if k0 == 0xF && k2 == 0x1 && k3 == 0xE {
        ((CpuView { chip8: spec_add_i_vx(c, spec_x(w)), ..s }), Ok(()))
    } else if k0 == 0xF && k2 == 0x2 && k3 == 0x9 {
        ((CpuView { chip8: spec_ld_f_vx(c, spec_x(w)), ..s }), Ok(()))
    } else if k0 == 0xF && k2 == 0x3 && k3 == 0x3 {
        spec_lift(s, spec_ld_b_vx(c, spec_x(w)))
    } else if k0 == 0xF && k2 == 0x5 && k3 == 0x5 {
        spec_lift(s, spec_ld_i_vx(c, spec_x(w)))
    } else if k0 == 0xF && k2 == 0x6 && k3 == 0x5 {
        spec_lift(s, spec_ld_vx_i(c, spec_x(w)))
    } else {
        ((CpuView { chip8: Chip8View { pc: spec_next_pc(c.pc), ..c }, ..s }), Ok(()))
    }
}

/// Relies on rand: `thread_rng().gen_range(0..255)` returns a byte drawn
/// uniformly from the half-open range, so always below 255.
#[verifier::external_body]
fn random_byte() -> (r: u8)
    ensures
        r < 255,
{
    let mut rng = rand::thread_rng();
    rng.gen_range(0..255)
}

impl Cpu {
    /// The machine is well formed, the divider counter within its period,
    /// and a pending key-wait names a real register.
    pub open spec fn wf(&self) -> bool {
        &&& self.chip8.wf()
        &&& self.hz_divider_counter <= TIMER_DIVIDER
        &&& match self.state {
            CpuState::AwaitingKey { x } => x < 16,
            _ => true,
        }
    }

    /// A freshly powered interpreter holding a cartridge, ready to load it.
    pub fn new(romcartridge: RomCartridge) -> (cpu: Cpu)
        ensures
            cpu.wf(),
            chip8_fresh(cpu@.chip8, romcartridge.rom@),
            cpu@.state == CpuState::Running,
            cpu@.counter == 0,
    {
        Cpu { chip8: Chip8::new(romcartridge), state: CpuState::Running, hz_divider_counter: 0 }
    }

    /// Advance the program counter past the current instruction.
    pub fn next_inst(&mut self)
        ensures
            final(self)@ == (CpuView {
                chip8: Chip8View { pc: spec_next_pc(old(self)@.chip8.pc), ..old(self)@.chip8 },
                ..old(self)@
            }),
    {
        let pc32: u32 = self.chip8.registers.pc as u32 + 2;
        self.chip8.registers.pc = (pc32 % 0x10000) as u16;
        proof {
            assert(self@ =~~= (CpuView {
                chip8: Chip8View { pc: spec_next_pc(old(self)@.chip8.pc), ..old(self)@.chip8 },
                ..old(self)@
            }));
        }
    }

    /// Advance the program counter past the current and the next
    /// instruction: a taken skip.
    pub fn skip_next_inst(&mut self)
        ensures
            final(self)@ == (CpuView {
                chip8: Chip8View { pc: spec_skip_pc(old(self)@.chip8.pc), ..old(self)@.chip8 },
                ..old(self)@
            }),
    {
        let pc32: u32 = self.chip8.registers.pc as u32 + 4;
        self.chip8.registers.pc = (pc32 % 0x10000) as u16;
        proof {
            assert(self@ =~~= (CpuView {
                chip8: Chip8View { pc: spec_skip_pc(old(self)@.chip8.pc), ..old(self)@.chip8 },
                ..old(self)@
            }));
        }
    }

    /// Copy the cartridge into the program region of memory.
    pub fn load_instructions(&mut self)
        ensures
            final(self)@ == (CpuView {
                chip8: Chip8View {
                    mem: spec_loaded_mem(old(self)@.chip8.mem, old(self)@.chip8.rom),
                    ..old(self)@.chip8
                },
                ..old(self)@
            }),
    {
        let cart = RomCartridge { rom: self.chip8.romcartridge.rom };
        self.chip8.memory.load_instructions(&cart);
        proof {
            assert(self@.chip8.mem =~= spec_loaded_mem(old(self)@.chip8.mem, old(self)@.chip8.rom));
            assert(self@ =~~= (CpuView {
                chip8: Chip8View {
                    mem: spec_loaded_mem(old(self)@.chip8.mem, old(self)@.chip8.rom),
                    ..old(self)@.chip8
                },
                ..old(self)@
            }));
        }
    }

    /// Fetch and decode the word at the program counter.
    pub fn get_instruction(&self) -> (inst: Instruction)
        requires
            self.chip8.registers.pc + 1 < CHIP8_MEMORY_SIZE,
        ensures
            inst.instruction == spec_fetch(self@.chip8),
            inst.wf(),
    {
        let pc = self.chip8.registers.pc as usize;
        let word: u16 = ((self.chip8.memory.ram[pc] as u16) << 8u16) | (self.chip8.memory.ram[pc
            + 1] as u16);
        Instruction::new(word)
    }

    /// CLS: clear the display.
    pub fn cls(&mut self)
        ensures
            final(self)@ == (CpuView { chip8: spec_cls(old(self)@.chip8), ..old(self)@ }),
    {
        self.chip8.io.clear();
        proof {
            lemma_clear_grid(self.chip8.io.display.pixels);
        }
        self.next_inst();
        proof {
            assert(self@ =~~= (CpuView { chip8: spec_cls(old(self)@.chip8), ..old(self)@ }));
        }
    }

    /// RET: return from a call.
    pub fn ret(&mut self) -> (res: Result<(), Chip8Error>)
        requires
            old(self).wf(),
        ensures
            final(self).wf(),
            spec_ret(old(self)@.chip8) matches Ok(c) ==> res == Ok::<(), Chip8Error>(())
                && final(self)@ == (CpuView { chip8: c, ..old(self)@ }),
            spec_ret(old(self)@.chip8) matches Err(e) ==> res == Err::<(), Chip8Error>(e)
                && final(self)@ == old(self)@,
    {
        match self.chip8.stack_pop() {
            Ok(addr) => {
                self.chip8.registers.pc = addr;
                proof {
                    assert(self@ =~~= (CpuView {
                        chip8: spec_ret(old(self)@.chip8)->Ok_0,
                        ..old(self)@
                    }));
                }
                Ok(())
            },
            Err(e) => Err(e),
        }
    }

    /// JP addr.
    pub fn jump(&mut self, nnn: u16)
        ensures
            final(self)@ == (CpuView { chip8: spec_jump(old(self)@.chip8, nnn), ..old(self)@ }),
    {
        self.chip8.registers.pc = nnn;
        proof {
            assert(self@ =~~= (CpuView { chip8: spec_jump(old(self)@.chip8, nnn), ..old(self)@ }));
        }
    }

    /// CALL addr: push the address of the instruction after the call, then
    /// jump.
    pub fn call(&mut self, nnn: u16) -> (res: Result<(), Chip8Error>)
        requires
            old(self).wf(),
        ensures
            final(self).wf(),
            spec_call(old(self)@.chip8, nnn) matches Ok(c) ==> res == Ok::<(), Chip8Error>(())
                && final(self)@ == (CpuView { chip8: c, ..old(self)@ }),
            spec_call(old(self)@.chip8, nnn) matches Err(e) ==> res == Err::<(), Chip8Error>(e)
                && final(self)@ == old(self)@,
    {
        let pc32: u32 = self.chip8.registers.pc as u32 + 2;
        let ret_addr: u16 = (pc32 % 0x10000) as u16;
        match self.chip8.stack_push(ret_addr) {
            Ok(_) => {
                self.chip8.registers.pc = nnn;
                proof {
                    assert(self@ =~~= (CpuView {
                        chip8: spec_call(old(self)@.chip8, nnn)->Ok_0,
                        ..old(self)@
                    }));
                }
                Ok(())
            },
            Err(e) => Err(e),
        }
    }

    /// SE Vx, byte.
    pub fn se_vx_byte(&mut self, x: u8, kk: u8)
        requires
            x < 16,
        ensures
            final(self)@ == (CpuView {
                chip8: spec_se_vx_byte(old(self)@.chip8, x as int, kk),
                ..old(self)@
            }),
    {
        if self.chip8.registers.v[x as usize] == kk {
            self.skip_next_inst();
        } else {
            self.next_inst();
        }
        proof {
            assert(self@ =~~= (CpuView {
                chip8: spec_se_vx_byte(old(self)@.chip8, x as int, kk),
                ..old(self)@
            }));
        }
    }

    /// SNE Vx, byte.
    pub fn sne_vx_byte(&mut self, x: u8, kk: u8)
        requires
            x < 16,
        ensures
            final(self)@ == (CpuView {
                chip8: spec_sne_vx_byte(old(self)@.chip8, x as int, kk),
                ..old(self)@
            }),
    {
        if self.chip8.registers.v[x as usize] != kk {
            self.skip_next_inst();
        } else {
            self.next_inst();
        }
        proof {
            assert(self@ =~~= (CpuView {
                chip8: spec_sne_vx_byte(old(self)@.chip8, x as int, kk),
                ..old(self)@
            }));
        }
    }

    /// SE Vx, Vy.
    pub fn se_vx_vy(&mut self, x: u8, y: u8)
        requires
            x < 16,
            y < 16,
        ensures
            final(self)@ == (CpuView {
                chip8: spec_se_vx_vy(old(self)@.chip8, x as int, y as int),
                ..old(self)@
            }),
    {
        if self.chip8.registers.v[x as usize] == self.chip8.registers.v[y as usize] {
            self.skip_next_inst();
        } else {
            self.next_inst();
        }
        proof {
            assert(self@ =~~= (CpuView {
                chip8: spec_se_vx_vy(old(self)@.chip8, x as int, y as int),
                ..old(self)@
            }));
        }
    }

    /// SNE Vx, Vy.
    pub fn sne_vx_vy(&mut self, x: u8, y: u8)
        requires
            x < 16,
            y < 16,
        ensures
            final(self)@ == (CpuView {
                chip8: spec_sne_vx_vy(old(self)@.chip8, x as int, y as int),
                ..old(self)@
            }),
    {
        if self.chip8.registers.v[x as usize] != self.chip8.registers.v[y as usize] {
            self.skip_next_inst();
        } else {
            self.next_inst();
        }
        proof {
            assert(self@ =~~= (CpuView {
                chip8: spec_sne_vx_vy(old(self)@.chip8, x as int, y as int),
                ..old(self)@
            }));
        }
    }

    /// LD Vx, byte.
    pub fn ld_vx_byte(&mut self, x: u8, kk: u8)
        requires
            x < 16,
        ensures
            final(self)@ == (CpuView {
                chip8: spec_ld_vx_byte(old(self)@.chip8, x as int, kk),
                ..old(self)@
            }),
    {
        self.chip8.registers.v[x as usize] = kk;
        self.next_inst();
        proof {
            assert(self@ =~~= (CpuView {
                chip8: spec_ld_vx_byte(old(self)@.chip8, x as int, kk),
                ..old(self)@
            }));
        }
    }

    /// ADD Vx, byte: wrapping, VF untouched.
    pub fn add_vx_byte(&mut self, x: u8, kk: u8)
        requires
            x < 16,
        ensures
            final(self)@ == (CpuView {
                chip8: spec_add_vx_byte(old(self)@.chip8, x as int, kk),
                ..old(self)@
            }),
    {
        let sum: u16 = self.chip8.registers.v[x as usize] as u16 + kk as u16;
        self.chip8.registers.v[x as usize] = (sum % 256) as u8;
        self.next_inst();
        proof {
            assert(self@ =~~= (CpuView {
                chip8: spec_add_vx_byte(old(self)@.chip8, x as int, kk),
                ..old(self)@
            }));
        }
    }

    /// LD Vx, Vy.
    pub fn ld_vx_vy(&mut self, x: u8, y: u8)
        requires
            x < 16,
            y < 16,
        ensures
            final(self)@ == (CpuView {
                chip8: spec_ld_vx_vy(old(self)@.chip8, x as int, y as int),
                ..old(self)@
            }),
    {
        self.chip8.registers.v[x as usize] = self.chip8.registers.v[y as usize];
        self.next_inst();
        proof {
            assert(self@ =~~= (CpuView {
                chip8: spec_ld_vx_vy(old(self)@.chip8, x as int, y as int),
                ..old(self)@
            }));
        }
    }

    /// OR Vx, Vy.
    pub fn or_vx_vy(&mut self, x: u8, y: u8)
        requires
            x < 16,
            y < 16,
        ensures
            final(self)@ == (CpuView {
                chip8: spec_or_vx_vy(old(self)@.chip8, x as int, y as int),
                ..old(self)@
            }),
    {
        self.chip8.registers.v[x as usize] = self.chip8.registers.v[x as usize]
            | self.chip8.registers.v[y as usize];
        self.next_inst();
        proof {
            assert(self@ =~~= (CpuView {
                chip8: spec_or_vx_vy(old(self)@.chip8, x as int, y as int),
                ..old(self)@
            }));
        }
    }

    /// AND Vx, Vy.
    pub fn and_vx_vy(&mut self, x: u8, y: u8)
        requires
            x < 16,
            y < 16,
        ensures
            final(self)@ == (CpuView {
                chip8: spec_and_vx_vy(old(self)@.chip8, x as int, y as int),
                ..old(self)@
            }),
    {
        self.chip8.registers.v[x as usize] = self.chip8.registers.v[x as usize]
            & self.chip8.registers.v[y as usize];
        self.next_inst();
        proof {
            assert(self@ =~~= (CpuView {
                chip8: spec_and_vx_vy(old(self)@.chip8, x as int, y as int),
                ..old(self)@
            }));
        }
    }

    /// XOR Vx, Vy.
    pub fn xor_vx_vy(&mut self, x: u8, y: u8)
        requires
            x < 16,
            y < 16,
        ensures
            final(self)@ == (CpuView {
                chip8: spec_xor_vx_vy(old(self)@.chip8, x as int, y as int),
                ..old(self)@
            }),
    {
        self.chip8.registers.v[x as usize] = self.chip8.registers.v[x as usize]
            ^ self.chip8.registers.v[y as usize];
        self.next_inst();
        proof {
            assert(self@ =~~= (CpuView {
                chip8: spec_xor_vx_vy(old(self)@.chip8, x as int, y as int),
                ..old(self)@
            }));
        }
    }

    /// ADD Vx, Vy: wrapping add with the carry written to VF after the
    /// value. For all register values a, b: VF becomes 1 exactly when
    /// a + b > 255, and Vx (unless it is VF itself) becomes (a + b) mod
    /// 256.
    pub fn add_vx_vy(&mut self, x: u8, y: u8)
        requires
            x < 16,
            y < 16,
        ensures
            final(self)@ == (CpuView {
                chip8: spec_add_vx_vy(old(self)@.chip8, x as int, y as int),
                ..old(self)@
            }),
            final(self)@.chip8.v[15] == (if old(self)@.chip8.v[x as int] + old(
                self,
            )@.chip8.v[y as int] > 255 {
                1u8
            } else {
                0u8
            }),
            x != 15 ==> final(self)@.chip8.v[x as int] == wrap8(
                old(self)@.chip8.v[x as int] + old(self)@.chip8.v[y as int],
            ),
    {
        let sum: u16 = self.chip8.registers.v[x as usize] as u16
            + self.chip8.registers.v[y as usize] as u16;
        self.chip8.registers.v[x as usize] = (sum % 256) as u8;
        self.chip8.registers.v[15] = if sum > 255 {
            1
        } else {
            0
        };
        self.next_inst();
        proof {
            assert(self@ =~~= (CpuView {
                chip8: spec_add_vx_vy(old(self)@.chip8, x as int, y as int),
                ..old(self)@
            }));
        }
    }

    /// SUB Vx, Vy: wrapping subtract with the no-borrow flag written to VF
    /// after the value. For all register values a, b: VF becomes 1 exactly
    /// when a >= b, and Vx (unless it is VF itself) becomes (a - b) mod
    /// 256.
    pub fn sub_vx_vy(&mut self, x: u8, y: u8)
        requires
            x < 16,
            y < 16,
        ensures
            final(self)@ == (CpuView {
                chip8: spec_sub_vx_vy(old(self)@.chip8, x as int, y as int),
                ..old(self)@
            }),
            final(self)@.chip8.v[15] == (if old(self)@.chip8.v[x as int] >= old(
                self,
            )@.chip8.v[y as int] {
                1u8
            } else {
                0u8
            }),
            x != 15 ==> final(self)@.chip8.v[x as int] == wrap8(
                old(self)@.chip8.v[x as int] - old(self)@.chip8.v[y as int],
            ),
    {
        let vx = self.chip8.registers.v[x as usize];
        let vy = self.chip8.registers.v[y as usize];
        let diff: u16 = (vx as u16 + 256) - vy as u16;
        self.chip8.registers.v[x as usize] = (diff % 256) as u8;
        self.chip8.registers.v[15] = if vx >= vy {
            1
        } else {
            0
        };
        self.next_inst();
        proof {
            lemma_mod_add_multiples_vanish(vx - vy, 256);
            assert(self@ =~~= (CpuView {
                chip8: spec_sub_vx_vy(old(self)@.chip8, x as int, y as int),
                ..old(self)@
            }));
        }
    }

    /// SHR Vx: VF takes bit 0 of Vx before the shift, for every register
    /// value; Vx is halved.
    pub fn shr_vx(&mut self, x: u8)
        requires
            x < 16,
        ensures
            final(self)@ == (CpuView { chip8: spec_shr_vx(old(self)@.chip8, x as int), ..old(
                self,
            )@ }),
            final(self)@.chip8.v[15] == old(self)@.chip8.v[x as int] & 1,
    {
        let vx = self.chip8.registers.v[x as usize];
        self.chip8.registers.v[x as usize] = vx / 2;
        self.chip8.registers.v[15] = vx & 1;
        self.next_inst();
        proof {
            assert(self@ =~~= (CpuView {
                chip8: spec_shr_vx(old(self)@.chip8, x as int),
                ..old(self)@
            }));
        }
    }

    /// SUBN Vx, Vy: Vx becomes Vy minus Vx wrapping; VF the no-borrow flag
    /// of that subtraction, written after the value.
    pub fn subn_vx_vy(&mut self, x: u8, y: u8)
        requires
            x < 16,
            y < 16,
        ensures
            final(self)@ == (CpuView {
                chip8: spec_subn_vx_vy(old(self)@.chip8, x as int, y as int),
                ..old(self)@
            }),
    {
        let vx = self.chip8.registers.v[x as usize];
        let vy = self.chip8.registers.v[y as usize];
        let diff: u16 = (vy as u16 + 256) - vx as u16;
        self.chip8.registers.v[x as usize] = (diff % 256) as u8;
        self.chip8.registers.v[15] = if vy >= vx {
            1
        } else {
            0
        };
        self.next_inst();
        proof {
            lemma_mod_add_multiples_vanish(vy - vx, 256);
            assert(self@ =~~= (CpuView {
                chip8: spec_subn_vx_vy(old(self)@.chip8, x as int, y as int),
                ..old(self)@
            }));
        }
    }

    /// SHL Vx: VF takes bit 7 of Vx before the shift, for every register
    /// value; Vx is doubled wrapping.
    pub fn shl_vx(&mut self, x: u8)
        requires
            x < 16,
        ensures
            final(self)@ == (CpuView { chip8: spec_shl_vx(old(self)@.chip8, x as int), ..old(
                self,
            )@ }),
            final(self)@.chip8.v[15] == old(self)@.chip8.v[x as int] >> 7,
    {
        let vx = self.chip8.registers.v[x as usize];
        let doubled: u16 = vx as u16 * 2;
        self.chip8.registers.v[x as usize] = (doubled % 256) as u8;
        self.chip8.registers.v[15] = vx >> 7u8;
        self.next_inst();
        proof {
            assert(self@ =~~= (CpuView {
                chip8: spec_shl_vx(old(self)@.chip8, x as int),
                ..old(self)@
            }));
        }
    }

    /// LD I, addr.
    pub fn ld_i_addr(&mut self, nnn: u16)
        ensures
            final(self)@ == (CpuView { chip8: spec_ld_i_addr(old(self)@.chip8, nnn), ..old(
                self,
            )@ }),
    {
        self.chip8.registers.i = nnn;
        self.next_inst();
        proof {
            assert(self@ =~~= (CpuView {
                chip8: spec_ld_i_addr(old(self)@.chip8, nnn),
                ..old(self)@
            }));
        }
    }

    /// JP V0, addr.
    pub fn jp_v0_nnn(&mut self, nnn: u16)
        ensures
            final(self)@ == (CpuView { chip8: spec_jp_v0_nnn(old(self)@.chip8, nnn), ..old(
                self,
            )@ }),
    {
        let target: u32 = nnn as u32 + self.chip8.registers.v[0] as u32;
        self.chip8.registers.pc = (target % 0x10000) as u16;
        proof {
            assert(self@ =~~= (CpuView {
                chip8: spec_jp_v0_nnn(old(self)@.chip8, nnn),
                ..old(self)@
            }));
        }
    }

    /// RND Vx, byte: Vx becomes the immediate masked with a random byte.
    /// Whatever byte the generator returns, the result is the mask applied
    /// to it.
    pub fn rnd_vx_byte(&mut self, x: u8, kk: u8)
        requires
            x < 16,
        ensures
            exists|r: u8|
                #![trigger spec_rnd_vx_byte(old(self)@.chip8, x as int, kk, r)]
                r < 255 && final(self)@ == (CpuView {
                    chip8: spec_rnd_vx_byte(old(self)@.chip8, x as int, kk, r),
                    ..old(self)@
                }),
    {
        let rand_num = random_byte();
        self.chip8.registers.v[x as usize] = kk & rand_num;
        self.next_inst();
        proof {
            assert(self@ =~~= (CpuView {
                chip8: spec_rnd_vx_byte(old(self)@.chip8, x as int, kk, rand_num),
                ..old(self)@
            }));
        }
    }

    /// SKP Vx: skip when the key numbered by Vx is down. On a key that is
    /// reported not pressed the program counter advances by exactly one
    /// instruction, never by a skip.
    pub fn skp_vx(&mut self, x: u8) -> (res: Result<(), Chip8Error>)
        requires
            x < 16,
        ensures
            spec_skp_vx(old(self)@.chip8, x as int) matches Ok(c) ==> res == Ok::<(), Chip8Error>(
                (),
            ) && final(self)@ == (CpuView { chip8: c, ..old(self)@ }),
            spec_skp_vx(old(self)@.chip8, x as int) matches Err(e) ==> res == Err::<(), Chip8Error>(
                e,
            ) && final(self)@ == old(self)@,
            old(self)@.chip8.v[x as int] < 16 && !old(self)@.chip8.keys[spec_key_index(
                old(self)@.chip8.v[x as int] as int,
            )] ==> final(self)@.chip8.pc == spec_next_pc(old(self)@.chip8.pc),
    {
        let key = self.chip8.registers.v[x as usize];
        if key >= 16 {
            return Err(Chip8Error::AddressOutOfBounds);
        }
        if self.chip8.io.get_key_status_from_num(key) {
            self.skip_next_inst();
        } else {
            self.next_inst();
        }
        proof {
            assert(self@ =~~= (CpuView {
                chip8: spec_skp_vx(old(self)@.chip8, x as int)->Ok_0,
                ..old(self)@
            }));
        }
        Ok(())
    }

    /// SKNP Vx: skip when the key numbered by Vx is up.
    pub fn sknp_vx(&mut self, x: u8) -> (res: Result<(), Chip8Error>)
        requires
            x < 16,
        ensures
            spec_sknp_vx(old(self)@.chip8, x as int) matches Ok(c) ==> res == Ok::<(), Chip8Error>(
                (),
            ) && final(self)@ == (CpuView { chip8: c, ..old(self)@ }),
            spec_sknp_vx(old(self)@.chip8, x as int) matches Err(e) ==> res == Err::<
                (),
                Chip8Error,
            >(e) && final(self)@ == old(self)@,
    {
        let key = self.chip8.registers.v[x as usize];
        if key >= 16 {
            return Err(Chip8Error::AddressOutOfBounds);
        }
        if !self.chip8.io.get_key_status_from_num(key) {
            self.skip_next_inst();
        } else {
            self.next_inst();
        }
        proof {
            assert(self@ =~~= (CpuView {
                chip8: spec_sknp_vx(old(self)@.chip8, x as int)->Ok_0,
                ..old(self)@
            }));
        }
        Ok(())
    }

    /// LD Vx, DT.
    pub fn ld_vx_dt(&mut self, x: u8)
        requires
            x < 16,
        ensures
            final(self)@ == (CpuView { chip8: spec_ld_vx_dt(old(self)@.chip8, x as int), ..old(
                self,
            )@ }),
    {
        self.chip8.registers.v[x as usize] = self.chip8.registers.dt;
        self.next_inst();
        proof {
            assert(self@ =~~= (CpuView {
                chip8: spec_ld_vx_dt(old(self)@.chip8, x as int),
                ..old(self)@
            }));
        }
    }

    /// LD Vx, K: suspend until the host reports a key press; the register
    /// that will take it is recorded in the wait state. The program
    /// counter does not move until the key arrives.
    pub fn ld_vx_k(&mut self, x: u8)
        requires
            x < 16,
        ensures
            final(self)@ == (CpuView { state: CpuState::AwaitingKey { x }, ..old(self)@ }),
    {
        self.state = CpuState::AwaitingKey { x };
        proof {
            assert(self@ =~~= (CpuView { state: CpuState::AwaitingKey { x }, ..old(self)@ }));
        }
    }

    /// Hand the key the host reports to a pending key-wait: the recorded
    /// register takes the key, the program counter advances, and the
    /// interpreter runs on. Without a pending wait nothing changes.
    pub fn provide_key(&mut self, key: u8)
        requires
            old(self).wf(),
            key < 16,
        ensures
            final(self).wf(),
            old(self)@.state matches CpuState::AwaitingKey { x } ==> final(self)@ == (CpuView {
                chip8: Chip8View {
                    v: old(self)@.chip8.v.update(x as int, key),
                    pc: spec_next_pc(old(self)@.chip8.pc),
                    ..old(self)@.chip8
                },
                state: CpuState::Running,
                ..old(self)@
            }),
            !(old(self)@.state matches CpuState::AwaitingKey { x }) ==> final(self)@ == old(
                self,
            )@,
    {
        match self.state {
            CpuState::AwaitingKey { x } => {
                self.chip8.registers.v[x as usize] = key;
                self.next_inst();
                self.state = CpuState::Running;
                proof {
                    assert(self@ =~~= (CpuView {
                        chip8: Chip8View {
                            v: old(self)@.chip8.v.update(x as int, key),
                            pc: spec_next_pc(old(self)@.chip8.pc),
                            ..old(self)@.chip8
                        },
                        state: CpuState::Running,
                        ..old(self)@
                    }));
                }
            },
            _ => {},
        }
    }

    /// LD DT, Vx.
    pub fn ld_dt_vx(&mut self, x: u8)
        requires
            x < 16,
        ensures
            final(self)@ == (CpuView { chip8: spec_ld_dt_vx(old(self)@.chip8, x as int), ..old(
                self,
            )@ }),
    {
        self.chip8.registers.dt = self.chip8.registers.v[x as usize];
        self.next_inst();
        proof {
            assert(self@ =~~= (CpuView {
                chip8: spec_ld_dt_vx(old(self)@.chip8, x as int),
                ..old(self)@
            }));
        }
    }

    /// LD ST, Vx.
    pub fn ld_st_vx(&mut self, x: u8)
        requires
            x < 16,
        ensures
            final(self)@ == (CpuView { chip8: spec_ld_st_vx(old(self)@.chip8, x as int), ..old(
                self,
            )@ }),
    {
        self.chip8.registers.st = self.chip8.registers.v[x as usize];
        self.next_inst();
        proof {
            assert(self@ =~~= (CpuView {
                chip8: spec_ld_st_vx(old(self)@.chip8, x as int),
                ..old(self)@
            }));
        }
    }

    /// ADD I, Vx: 16-bit wrapping add, VF untouched.
    pub fn add_i_vx(&mut self, x: u8)
        requires
            x < 16,
        ensures
            final(self)@ == (CpuView { chip8: spec_add_i_vx(old(self)@.chip8, x as int), ..old(
                self,
            )@ }),
    {
        let sum: u32 = self.chip8.registers.i as u32 + self.chip8.registers.v[x as usize] as u32;
        self.chip8.registers.i = (sum % 0x10000) as u16;
        self.next_inst();
        proof {
            assert(self@ =~~= (CpuView {
                chip8: spec_add_i_vx(old(self)@.chip8, x as int),
                ..old(self)@
            }));
        }
    }

    /// LD F, Vx: point I at the glyph for the digit in Vx.
    pub fn ld_f_vx(&mut self, x: u8)
        requires
            x < 16,
        ensures
            final(self)@ == (CpuView { chip8: spec_ld_f_vx(old(self)@.chip8, x as int), ..old(
                self,
            )@ }),
    {
        self.chip8.registers.i = self.chip8.registers.v[x as usize] as u16 * 5;
        self.next_inst();
        proof {
            assert(self@ =~~= (CpuView {
                chip8: spec_ld_f_vx(old(self)@.chip8, x as int),
                ..old(self)@
            }));
        }
    }

    /// LD B, Vx: the hundreds, tens and ones digits of Vx stored at I,
    /// I+1, I+2.
    pub fn ld_b_vx(&mut self, x: u8) -> (res: Result<(), Chip8Error>)
        requires
            x < 16,
        ensures
            spec_ld_b_vx(old(self)@.chip8, x as int) matches Ok(c) ==> res == Ok::<(), Chip8Error>(
                (),
            ) && final(self)@ == (CpuView { chip8: c, ..old(self)@ }),
            spec_ld_b_vx(old(self)@.chip8, x as int) matches Err(e) ==> res == Err::<
                (),
                Chip8Error,
            >(e) && final(self)@ == old(self)@,
    {
        let i = self.chip8.registers.i as usize;
        if i + 2 >= CHIP8_MEMORY_SIZE {
            return Err(Chip8Error::AddressOutOfBounds);
        }
        let vx = self.chip8.registers.v[x as usize];
        self.chip8.memory.ram[i] = vx / 100;
        self.chip8.memory.ram[i + 1] = (vx / 10) % 10;
        self.chip8.memory.ram[i + 2] = vx % 10;
        self.next_inst();
        proof {
            assert(self@ =~~= (CpuView {
                chip8: spec_ld_b_vx(old(self)@.chip8, x as int)->Ok_0,
                ..old(self)@
            }));
        }
        Ok(())
    }

    /// LD [I], Vx: store V0..Vx inclusive into memory starting at I.
    pub fn ld_i_vx(&mut self, x: u8) -> (res: Result<(), Chip8Error>)
        requires
            x < 16,
        ensures
            spec_ld_i_vx(old(self)@.chip8, x as int) matches Ok(c) ==> res == Ok::<(), Chip8Error>(
                (),
            ) && final(self)@ == (CpuView { chip8: c, ..old(self)@ }),
            spec_ld_i_vx(old(self)@.chip8, x as int) matches Err(e) ==> res == Err::<
                (),
                Chip8Error,
            >(e) && final(self)@ == old(self)@,
    {
        let i = self.chip8.registers.i as usize;
        if i + x as usize >= CHIP8_MEMORY_SIZE {
            return Err(Chip8Error::AddressOutOfBounds);
        }
        let mut k: usize = 0;
        while k <= x as usize
            invariant
                k <= x as usize + 1,
                x < 16,
                i == old(self)@.chip8.i,
                i + x < CHIP8_MEMORY_SIZE,
                self@.chip8.stk == old(self)@.chip8.stk,
                self@.chip8.v == old(self)@.chip8.v,
                self@.chip8.dt == old(self)@.chip8.dt,
                self@.chip8.st == old(self)@.chip8.st,
                self@.chip8.pc == old(self)@.chip8.pc,
                self@.chip8.sp == old(self)@.chip8.sp,
                self@.chip8.i == old(self)@.chip8.i,
                self@.chip8.keys == old(self)@.chip8.keys,
                self@.chip8.pixels == old(self)@.chip8.pixels,
                self@.chip8.rom == old(self)@.chip8.rom,
                self@.state == old(self)@.state,
                self@.counter == old(self)@.counter,
                forall|a: int|
                    0 <= a < CHIP8_MEMORY_SIZE ==> self@.chip8.mem[a] == (if i <= a < i + k {
                        old(self)@.chip8.v[a - i]
                    } else {
                        old(self)@.chip8.mem[a]
                    }),
            decreases x as int + 1 - k,
        {
            let ghost mem_before = self@.chip8.mem;
            self.chip8.memory.ram[i + k] = self.chip8.registers.v[k];
            proof {
                assert(self@.chip8.mem == mem_before.update(i + k, old(self)@.chip8.v[k as int]));
                assert forall|a: int| 0 <= a < CHIP8_MEMORY_SIZE implies self@.chip8.mem[a] == (
                if i <= a < i + (k + 1) {
                    old(self)@.chip8.v[a - i]
                } else {
                    old(self)@.chip8.mem[a]
                }) by {
                    if a == i + k {
                        assert(self@.chip8.mem[a] == old(self)@.chip8.v[k as int]);
                    } else {
                        assert(self@.chip8.mem[a] == mem_before[a]);
                    }
                }
            }
            k += 1;
        }
        self.next_inst();
        proof {
            assert(self@.chip8.mem =~= spec_ld_i_vx(old(self)@.chip8, x as int)->Ok_0.mem);
            assert(self@ =~~= (CpuView {
                chip8: spec_ld_i_vx(old(self)@.chip8, x as int)->Ok_0,
                ..old(self)@
            }));
        }
        Ok(())
    }

    /// LD Vx, [I]: load memory starting at I into V0..Vx inclusive.
    pub fn ld_vx_i(&mut self, x: u8) -> (res: Result<(), Chip8Error>)
        requires
            x < 16,
        ensures
            spec_ld_vx_i(old(self)@.chip8, x as int) matches Ok(c) ==> res == Ok::<(), Chip8Error>(
                (),
            ) && final(self)@ == (CpuView { chip8: c, ..old(self)@ }),
            spec_ld_vx_i(old(self)@.chip8, x as int) matches Err(e) ==> res == Err::<
                (),
                Chip8Error,
            >(e) && final(self)@ == old(self)@,
    {
        let i = self.chip8.registers.i as usize;
        if i + x as usize >= CHIP8_MEMORY_SIZE {
            return Err(Chip8Error::AddressOutOfBounds);
        }
        let mut k: usize = 0;
        while k <= x as usize
            invariant
                k <= x as usize + 1,
                x < 16,
                i == old(self)@.chip8.i,
                i + x < CHIP8_MEMORY_SIZE,
                self@.chip8.mem == old(self)@.chip8.mem,
                self@.chip8.stk == old(self)@.chip8.stk,
                self@.chip8.dt == old(self)@.chip8.dt,
                self@.chip8.st == old(self)@.chip8.st,
                self@.chip8.pc == old(self)@.chip8.pc,
                self@.chip8.sp == old(self)@.chip8.sp,
                self@.chip8.i == old(self)@.chip8.i,
                self@.chip8.keys == old(self)@.chip8.keys,
                self@.chip8.pixels == old(self)@.chip8.pixels,
                self@.chip8.rom == old(self)@.chip8.rom,
                self@.state == old(self)@.state,
                self@.counter == old(self)@.counter,
                forall|j: int|
                    0 <= j < 16 ==> self@.chip8.v[j] == (if j < k {
                        old(self)@.chip8.mem[i + j]
                    } else {
                        old(self)@.chip8.v[j]
                    }),
            decreases x as int + 1 - k,
        {
            let ghost v_before = self@.chip8.v;
            self.chip8.registers.v[k] = self.chip8.memory.ram[i + k];
            proof {
                assert(self@.chip8.v == v_before.update(k as int, old(self)@.chip8.mem[i + k]));
                assert forall|j: int| 0 <= j < 16 implies self@.chip8.v[j] == (if j < k + 1 {
                    old(self)@.chip8.mem[i + j]
                } else {
                    old(self)@.chip8.v[j]
                }) by {
                    if j == k as int {
                        assert(self@.chip8.v[j] == old(self)@.chip8.mem[i + k]);
                    } else {
                        assert(self@.chip8.v[j] == v_before[j]);
                    }
                }
            }
            k += 1;
        }
        self.next_inst();
        proof {
            assert(self@.chip8.v =~= spec_ld_vx_i(old(self)@.chip8, x as int)->Ok_0.v);
            assert(self@ =~~= (CpuView {
                chip8: spec_ld_vx_i(old(self)@.chip8, x as int)->Ok_0,
                ..old(self)@
            }));
        }
        Ok(())
    }

    /// DRW Vx, Vy, n: XOR-blit an n-row sprite read from memory at I onto
    /// the screen at (Vx, Vy); VF reports whether any lit pixel was
    /// cleared. Nothing is drawn when some sprite row lies outside memory.
    pub fn drw_vx_vy_n(&mut self, x: u8, y: u8, n: u8) -> (res: Result<(), Chip8Error>)
        requires
            x < 16,
            y < 16,
            n < 16,
        ensures
            spec_drw_vx_vy_n(old(self)@.chip8, x as int, y as int, n as int) matches Ok(c) ==> res
                == Ok::<(), Chip8Error>(()) && final(self)@ == (CpuView {
                chip8: c,
                ..old(self)@
            }),
            spec_drw_vx_vy_n(old(self)@.chip8, x as int, y as int, n as int) matches Err(e) ==> res
                == Err::<(), Chip8Error>(e) && final(self)@ == old(self)@,
    {
        // every sprite row must lie inside memory before anything is drawn
        let mut r: usize = 0;
        while r < n as usize
            invariant
                r <= n,
                n < 16,
                forall|q: int|
                    0 <= q < r ==> #[trigger] wrap16(old(self)@.chip8.i + q) < CHIP8_MEMORY_SIZE,
            decreases n as int - r,
        {
            let addr = ((self.chip8.registers.i as u32 + r as u32) % 0x10000) as usize;
            if addr >= CHIP8_MEMORY_SIZE {
                proof {
                    assert(addr as int == wrap16(old(self)@.chip8.i + r as int));
                    assert(!spec_drw_ok(old(self)@.chip8, n as int));
                }
                return Err(Chip8Error::AddressOutOfBounds);
            }
            r += 1;
        }
        proof {
            assert(spec_drw_ok(old(self)@.chip8, n as int));
        }
        let ghost g0 = self@.chip8.pixels;
        let ghost rows = spec_sprite_rows(old(self)@.chip8, n as int);
        let vx = self.chip8.registers.v[x as usize];
        let vy = self.chip8.registers.v[y as usize];
        let mut collision = false;
        let mut row: usize = 0;
        while row < n as usize
            invariant
                row <= n,
                n < 16,
                x < 16,
                y < 16,
                vx == old(self)@.chip8.v[x as int],
                vy == old(self)@.chip8.v[y as int],
                spec_drw_ok(old(self)@.chip8, n as int),
                rows == spec_sprite_rows(old(self)@.chip8, n as int),
                g0 == old(self)@.chip8.pixels,
                self@.chip8.mem == old(self)@.chip8.mem,
                self@.chip8.stk == old(self)@.chip8.stk,
                self@.chip8.v == old(self)@.chip8.v,
                self@.chip8.dt == old(self)@.chip8.dt,
                self@.chip8.st == old(self)@.chip8.st,
                self@.chip8.pc == old(self)@.chip8.pc,
                self@.chip8.sp == old(self)@.chip8.sp,
                self@.chip8.i == old(self)@.chip8.i,
                self@.chip8.keys == old(self)@.chip8.keys,
                self@.chip8.rom == old(self)@.chip8.rom,
                self@.state == old(self)@.state,
                self@.counter == old(self)@.counter,
                self@.chip8.pixels == grid_after_sprite(
                    g0,
                    vx as int,
                    vy as int,
                    rows.take(row as int),
                ),
                collision == sprite_hit(g0, vx as int, vy as int, rows.take(row as int)),
            decreases n as int - row,
        {
            let addr = ((self.chip8.registers.i as u32 + row as u32) % 0x10000) as usize;
            proof {
                assert(addr as int == wrap16(old(self)@.chip8.i + row as int));
                assert(wrap16(old(self)@.chip8.i + row as int) < CHIP8_MEMORY_SIZE);
            }
            let byte = self.chip8.memory.ram[addr];
            let yrow = ((vy as u16 + row as u16) % 256) as u8;
            let ghost pre_pixels = self.chip8.io.display.pixels;
            let ghost gpre = grid_view(pre_pixels);
            let hit = self.chip8.io.draw_byte(vx as usize, yrow as usize, byte);
            if hit {
                collision = true;
            }
            proof {
                lemma_draw_byte_grid(
                    pre_pixels,
                    self.chip8.io.display.pixels,
                    vx as int,
                    yrow as int,
                    byte,
                );
                lemma_draw_byte_hit_grid(pre_pixels, vx as int, yrow as int, byte);
                assert(32 * 8 == 256);
                lemma_mod_mod(vy + row, 32, 8);
                lemma_byte_row_mod(gpre, vx as int, yrow as int, vy + row as int, byte);
                assert(rows.take(row + 1).drop_last() =~= rows.take(row as int));
                assert(rows.take(row + 1).last() == rows[row as int]);
                assert(byte == rows[row as int]);
                assert(self@.chip8.pixels == grid_after_sprite(
                    g0,
                    vx as int,
                    vy as int,
                    rows.take(row + 1),
                ));
                assert(collision == sprite_hit(g0, vx as int, vy as int, rows.take(row + 1)));
            }
            row += 1;
        }
        proof {
            assert(rows.take(n as int) =~= rows);
        }
        self.chip8.registers.v[15] = if collision {
            1
        } else {
            0
        };
        self.next_inst();
        proof {
            assert(self@ =~~= (CpuView {
                chip8: spec_drw_vx_vy_n(old(self)@.chip8, x as int, y as int, n as int)->Ok_0,
                ..old(self)@
            }));
        }
        Ok(())
    }

    /// Dispatch one decoded instruction to its handler, by the four-nibble
    /// pattern; families sharing a leading nibble sub-dispatch on the
    /// trailing nibbles. The outcome is exactly `spec_execute` of the
    /// snapshot, with some byte of the random source standing in for RND's
    /// draw.
    #[verifier::rlimit(60)]
    pub fn execute_instruction(&mut self, instruction: Instruction) -> (res: Result<
        (),
        Chip8Error,
    >)
        requires
            old(self).wf(),
            instruction.wf(),
        ensures
            final(self).wf(),
            exists|r: u8|
                #![trigger spec_execute(old(self)@, instruction.instruction, r)]
                r < 255 && (final(self)@, res) == spec_execute(
                    old(self)@,
                    instruction.instruction,
                    r,
                ),
    {
        let n0 = instruction.nibbles[0];
        let n1 = instruction.nibbles[1];
        let n2 = instruction.nibbles[2];
        let n3 = instruction.nibbles[3];
        let ghost w = instruction.instruction;
        match (n0, n1, n2, n3) {
            (0x0, 0x0, 0xE, 0x0) => {
                self.cls();
                proof {
                    assert((self@, Ok::<(), Chip8Error>(())) == spec_execute(old(self)@, w, 0));
                }
                Ok(())
            },
            (0x0, 0x0, 0xE, 0xE) => {
                let step = self.ret();
                proof {
                    assert((self@, step) == spec_execute(old(self)@, w, 0));
                }
                step
            },
            (0x1, _, _, _) => {
                self.jump(instruction.nnn);
                proof {
                    assert((self@, Ok::<(), Chip8Error>(())) == spec_execute(old(self)@, w, 0));
                }
                Ok(())
            },
            (0x2, _, _, _) => {
                let step = self.call(instruction.nnn);
                proof {
                    assert((self@, step) == spec_execute(old(self)@, w, 0));
                }
                step
            },
            (0x3, _, _, _) => {
                self.se_vx_byte(instruction.x, instruction.kk);
                proof {
                    assert((self@, Ok::<(), Chip8Error>(())) == spec_execute(old(self)@, w, 0));
                }
                Ok(())
            },
            (0x4, _, _, _) => {
                self.sne_vx_byte(instruction.x, instruction.kk);
                proof {
                    assert((self@, Ok::<(), Chip8Error>(())) == spec_execute(old(self)@, w, 0));
                }
                Ok(())
            },
            (0x5, _, _, 0x0) => {
                self.se_vx_vy(instruction.x, instruction.y);
                proof {
                    assert((self@, Ok::<(), Chip8Error>(())) == spec_execute(old(self)@, w, 0));
                }
                Ok(())
            },
            (0x6, _, _, _) => {
                self.ld_vx_byte(instruction.x, instruction.kk);
                proof {
                    assert((self@, Ok::<(), Chip8Error>(())) == spec_execute(old(self)@, w, 0));
                }
                Ok(())
            },
            (0x7, _, _, _) => {
                self.add_vx_byte(instruction.x, instruction.kk);
                proof {
                    assert((self@, Ok::<(), Chip8Error>(())) == spec_execute(old(self)@, w, 0));
                }
                Ok(())
            },
            (0x8, _, _, 0x0) => {
                self.ld_vx_vy(instruction.x, instruction.y);
                proof {
                    assert((self@, Ok::<(), Chip8Error>(())) == spec_execute(old(self)@, w, 0));
                }
                Ok(())
            },
            (0x8, _, _, 0x1) => {
                self.or_vx_vy(instruction.x, instruction.y);
                proof {
                    assert((self@, Ok::<(), Chip8Error>(())) == spec_execute(old(self)@, w, 0));
                }
                Ok(())
            },
            (0x8, _, _, 0x2) => {
                self.and_vx_vy(instruction.x, instruction.y);
                proof {
                    assert((self@, Ok::<(), Chip8Error>(())) == spec_execute(old(self)@, w, 0));
                }
                Ok(())
            },
            (0x8, _, _, 0x3) => {
                self.xor_vx_vy(instruction.x, instruction.y);
                proof {
                    assert((self@, Ok::<(), Chip8Error>(())) == spec_execute(old(self)@, w, 0));
                }
                Ok(())
            },
            (0x8, _, _, 0x4) => {
                self.add_vx_vy(instruction.x, instruction.y);
                proof {
                    assert((self@, Ok::<(), Chip8Error>(())) == spec_execute(old(self)@, w, 0));
                }
                Ok(())
            },
            (0x8, _, _, 0x5) => {
                self.sub_vx_vy(instruction.x, instruction.y);
                proof {
                    assert((self@, Ok::<(), Chip8Error>(())) == spec_execute(old(self)@, w, 0));
                }
                Ok(())
            },
            (0x8, _, _, 0x6) => {
                self.shr_vx(instruction.x);
                proof {
                    assert((self@, Ok::<(), Chip8Error>(())) == spec_execute(old(self)@, w, 0));
                }
                Ok(())
            },
            (0x8, _, _, 0x7) => {
                self.subn_vx_vy(instruction.x, instruction.y);
                proof {
                    assert((self@, Ok::<(), Chip8Error>(())) == spec_execute(old(self)@, w, 0));
                }
                Ok(())
            },
            (0x8, _, _, 0xE) => {
                self.shl_vx(instruction.x);
                proof {
                    assert((self@, Ok::<(), Chip8Error>(())) == spec_execute(old(self)@, w, 0));
                }
                Ok(())
            },
            (0x9, _, _, 0x0) => {
                self.sne_vx_vy(instruction.x, instruction.y);
                proof {
                    assert((self@, Ok::<(), Chip8Error>(())) == spec_execute(old(self)@, w, 0));
                }
                Ok(())
            },
            (0xA, _, _, _) => {
                self.ld_i_addr(instruction.nnn);
                proof {
                    assert((self@, Ok::<(), Chip8Error>(())) == spec_execute(old(self)@, w, 0));
                }
                Ok(())
            },
            (0xB, _, _, _) => {
                self.jp_v0_nnn(instruction.nnn);
                proof {
                    assert((self@, Ok::<(), Chip8Error>(())) == spec_execute(old(self)@, w, 0));
                }
                Ok(())
            },
            (0xC, _, _, _) => {
                self.rnd_vx_byte(instruction.x, instruction.kk);
                proof {
                    let r = choose|r: u8|
                        #![trigger spec_rnd_vx_byte(old(self)@.chip8, instruction.x as int, instruction.kk, r)]
                        r < 255 && self@ == (CpuView {
                            chip8: spec_rnd_vx_byte(
                                old(self)@.chip8,
                                instruction.x as int,
                                instruction.kk,
                                r,
                            ),
                            ..old(self)@
                        });
                    assert((self@, Ok::<(), Chip8Error>(())) == spec_execute(old(self)@, w, r));
                }
                Ok(())
            },
            (0xD, _, _, _) => {
                let step = self.drw_vx_vy_n(instruction.x, instruction.y, instruction.n);
                proof {
                    assert((self@, step) == spec_execute(old(self)@, w, 0));
                }
                step
            },
            (0xE, _, 0x9, 0xE) => {
                let step = self.skp_vx(instruction.x);
                proof {
                    assert((self@, step) == spec_execute(old(self)@, w, 0));
                }
                step
            },
            (0xE, _, 0xA, 0x1) => {
                let step = self.sknp_vx(instruction.x);
                proof {
                    assert((self@, step) == spec_execute(old(self)@, w, 0));
                }
                step
            },
            (0xF, _, 0x0, 0x7) => {
                self.ld_vx_dt(instruction.x);
                proof {
                    assert((self@, Ok::<(), Chip8Error>(())) == spec_execute(old(self)@, w, 0));
                }
                Ok(())
            },
            (0xF, _, 0x0, 0xA) => {
                self.ld_vx_k(instruction.x);
                proof {
                    assert((self@, Ok::<(), Chip8Error>(())) == spec_execute(old(self)@, w, 0));
                }
                Ok(())
            },
            (0xF, _, 0x1, 0x5) => {
                self.ld_dt_vx(instruction.x);
                proof {
                    assert((self@, Ok::<(), Chip8Error>(())) == spec_execute(old(self)@, w, 0));
                }
                Ok(())
            },
            (0xF, _, 0x1, 0x8) => {
                self.ld_st_vx(instruction.x);
                proof {
                    assert((self@, Ok::<(), Chip8Error>(())) == spec_execute(old(self)@, w, 0));
                }
                Ok(())
            },
            (0xF, _, 0x1, 0xE) => {
                self.add_i_vx(instruction.x);
                proof {
                    assert((self@, Ok::<(), Chip8Error>(())) == spec_execute(old(self)@, w, 0));
                }
                Ok(())
            },
            (0xF, _, 0x2, 0x9) => {
                self.ld_f_vx(instruction.x);
                proof {
                    assert((self@, Ok::<(), Chip8Error>(())) == spec_execute(old(self)@, w, 0));
                }
                Ok(())
            },
            (0xF, _, 0x3, 0x3) => {
                let step = self.ld_b_vx(instruction.x);
                proof {
                    assert((self@, step) == spec_execute(old(self)@, w, 0));
                }
                step
            },
            (0xF, _, 0x5, 0x5) => {
                let step = self.ld_i_vx(instruction.x);
                proof {
                    assert((self@, step) == spec_execute(old(self)@, w, 0));
                }
                step
            },
            (0xF, _, 0x6, 0x5) => {
                let step = self.ld_vx_i(instruction.x);
                proof {
                    assert((self@, step) == spec_execute(old(self)@, w, 0));
                }
                step
            },
            _ => {
                self.next_inst();
                proof {
                    assert((self@, Ok::<(), Chip8Error>(())) == spec_execute(old(self)@, w, 0));
                }
                Ok(())
            },
        }
    }

    /// Run one cycle, as `spec_cycle` describes: a halted session accepts
    /// no more cycles, a pending key-wait idles, and otherwise the timers
    /// tick and the instruction at the program counter executes. A fatal
    /// condition halts the session for good.
    pub fn cycle(&mut self) -> (res: Result<(), Chip8Error>)
        requires
            old(self).wf(),
        ensures
            final(self).wf(),
            exists|r: u8|
                #![trigger spec_cycle(old(self)@, r)]
                r < 255 && (final(self)@, res) == spec_cycle(old(self)@, r),
    {
        match self.state {
            CpuState::Halted => {
                proof {
                    assert((self@, Err::<(), Chip8Error>(
                        Chip8Error::ProgramCounterOutOfProgramRegion,
                    )) == spec_cycle(old(self)@, 0));
                }
                Err(Chip8Error::ProgramCounterOutOfProgramRegion)
            },
            CpuState::AwaitingKey { .. } => {
                proof {
                    assert((self@, Ok::<(), Chip8Error>(())) == spec_cycle(old(self)@, 0));
                }
                Ok(())
            },
            CpuState::Running => {
                let pc = self.chip8.registers.pc;
                if pc < 0x200 || pc > 0xFFD {
                    self.state = CpuState::Halted;
                    proof {
                        assert(self@ =~~= (CpuView { state: CpuState::Halted, ..old(self)@ }));
                        assert((self@, Err::<(), Chip8Error>(
                            Chip8Error::ProgramCounterOutOfProgramRegion,
                        )) == spec_cycle(old(self)@, 0));
                    }
                    return Err(Chip8Error::ProgramCounterOutOfProgramRegion);
                }
                if self.hz_divider_counter == TIMER_DIVIDER {
                    if self.chip8.registers.dt > 0 {
                        self.chip8.registers.dt = self.chip8.registers.dt - 1;
                    }
                    if self.chip8.registers.st > 0 {
                        self.chip8.registers.st = self.chip8.registers.st - 1;
                    }
                    self.hz_divider_counter = 0;
                }
                self.hz_divider_counter = self.hz_divider_counter + 1;
                proof {
                    assert(self@ =~~= spec_tick_timers(old(self)@));
                }
                let inst = self.get_instruction();
                let step = self.execute_instruction(inst);
                let ghost after_exec = self@;
                if step.is_err() {
                    self.state = CpuState::Halted;
                }
                proof {
                    let r = choose|r: u8|
                        #![trigger spec_execute(spec_tick_timers(old(self)@), inst.instruction, r)]
                        r < 255 && (after_exec, step) == spec_execute(
                            spec_tick_timers(old(self)@),
                            inst.instruction,
                            r,
                        );
                    if step is Err {
                        assert(self@ =~~= (CpuView { state: CpuState::Halted, ..after_exec }));
                    }
                    assert((self@, step) == spec_cycle(old(self)@, r));
                }
                step
            },
        }
    }
}

/// The timer sub-step of one cycle: every `TIMER_DIVIDER`-th cycle the
/// delay and sound timers each count down by one if nonzero, and the
/// divider counter starts over; every cycle the counter advances.
pub open spec fn spec_tick_timers(s: CpuView) -> CpuView {
    if s.counter == TIMER_DIVIDER {
        CpuView {
            chip8: Chip8View {
                dt: if s.chip8.dt > 0 {
                    (s.chip8.dt - 1) as u8
                } else {
                    s.chip8.dt
                },
                st: if s.chip8.st > 0 {
                    (s.chip8.st - 1) as u8
                } else {
                    s.chip8.st
                },
                ..s.chip8
            },
            counter: 1,
            ..s
        }
    } else {
        CpuView { counter: (s.counter + 1) as u8, ..s }
    }
}

/// One full cycle on a snapshot. A halted interpreter accepts no more
/// cycles; one waiting for a key idles; otherwise a program counter
/// outside the program window halts the session, and else the timers tick
/// and the fetched instruction executes, a fatal error halting the
/// session.
pub open spec fn spec_cycle(s: CpuView, r: u8) -> (CpuView, Result<(), Chip8Error>) {
    match s.state {
        CpuState::Halted => (s, Err(Chip8Error::ProgramCounterOutOfProgramRegion)),
        CpuState::AwaitingKey { .. } => (s, Ok(())),
        CpuState::Running => {
            if s.chip8.pc < 0x200 || s.chip8.pc > 0xFFD {
                (
                    (CpuView { state: CpuState::Halted, ..s }),
                    Err(Chip8Error::ProgramCounterOutOfProgramRegion),
                )
            } else {
                let ticked = spec_tick_timers(s);
                let stepped = spec_execute(ticked, spec_fetch(ticked.chip8), r);
                if stepped.1 is Err {
                    ((CpuView { state: CpuState::Halted, ..stepped.0 }), stepped.1)
                } else {
                    stepped
                }
            }
        },
    }
}

/// Executing the same DRW twice in a row restores the pre-draw pixel
/// state, and the second draw's collision flag reports exactly whether
/// the first draw turned a pixel on, position by position. The flag
/// register itself cannot supply a coordinate, since the first draw
/// overwrites it.
pub proof fn lemma_drw_twice(s: Chip8View, x: int, y: int, n: int)
    requires
        0 <= x < 15,
        0 <= y < 15,
        0 <= n < 16,
        s.v.len() == 16,
        wf_grid(s.pixels),
        spec_drw_ok(s, n),
    ensures
        spec_drw_vx_vy_n(s, x, y, n) matches Ok(s1) && spec_drw_vx_vy_n(s1, x, y, n) matches Ok(
            s2,
        ) && {
            &&& s2.pixels == s.pixels
            &&& (s2.v[15] == 1 <==> exists|rr: int, p: int|
                0 <= rr < n && 0 <= p < 8 && spec_bit_msb(
                    #[trigger] spec_sprite_rows(s, n)[rr],
                    p,
                ) && !#[trigger] grid_pixel(s.pixels, (s.v[x] + p) % 64, (s.v[y] + rr) % 32))
        },
{
    let s1 = spec_drw_vx_vy_n(s, x, y, n)->Ok_0;
    assert(spec_drw_ok(s1, n));
    assert(spec_sprite_rows(s1, n) =~= spec_sprite_rows(s, n));
    let rows = spec_sprite_rows(s, n);
    lemma_draw_sprite_twice(s.pixels, s.v[x] as int, s.v[y] as int, rows);
    let s2 = spec_drw_vx_vy_n(s1, x, y, n)->Ok_0;
    assert(s1.v[x] == s.v[x]);
    assert(s1.v[y] == s.v[y]);
    assert(s2.pixels == s.pixels);
    assert(s2.v[15] == 1 <==> sprite_hit(s1.pixels, s.v[x] as int, s.v[y] as int, rows));
}

/// A call followed immediately by a return leaves the program counter at
/// the instruction after the call, with the stack pointer back where it
/// was and registers, memory and screen untouched.
pub proof fn lemma_call_then_ret(s: Chip8View, nnn: u16)
    requires
        0 <= s.sp,
        s.sp + 1 < 16,
        s.stk.len() == 16,
    ensures
        spec_call(s, nnn) matches Ok(s1) && spec_ret(s1) matches Ok(s2) && {
            &&& s2.pc == spec_next_pc(s.pc)
            &&& s2.sp == s.sp
            &&& s2.v == s.v
            &&& s2.mem == s.mem
            &&& s2.pixels == s.pixels
        },
{
    let s1 = spec_call(s, nnn)->Ok_0;
    assert(s1.stk[s1.sp] == spec_next_pc(s.pc));
}

/// Memory after the cartridge image is copied over the program region.
pub open spec fn spec_loaded_mem(mem: Seq<u8>, rom: Seq<u8>) -> Seq<u8> {
    Seq::new(
        CHIP8_MEMORY_SIZE as nat,
        |a: int|
            if a < CHIP8_PROGRAM_BASE {
                mem[a]
            } else {
                rom[a - CHIP8_PROGRAM_BASE]
            },
    )
}

} // verus!
