//! Whole-machine checks: ROM loading, the cycle driver with its fetch
//! window and timers, the key-wait state, and the state containers.
use chip8::config::get_bit_values;
use chip8::cpu::Cpu;
use chip8::cpu::CpuState;
use chip8::cpu::Instruction;
use chip8::display::Display;
use chip8::io::VKeys;
use chip8::io::IO;
use chip8::io::PIXEL_OFF;
use chip8::io::PIXEL_ON;
use chip8::memory::Memory;
use chip8::registers::Registers;
use chip8::romhandler::RomCartridge;
use chip8::stack::Stack;
use chip8::Chip8Error;

fn boot(program: &[u8]) -> Cpu {
    let cart = RomCartridge::new(&program.to_vec()).unwrap();
    let mut cpu = Cpu::new(cart);
    cpu.load_instructions();
    cpu
}

#[test]
fn rom_of_exact_capacity_loads_and_one_more_byte_fails() {
    let full = vec![0xAB; 0xE00];
    assert!(RomCartridge::new(&full).is_ok());
    let too_big = vec![0xAB; 0xE01];
    assert_eq!(
        RomCartridge::new(&too_big).map(|_| ()),
        Err(Chip8Error::RomTooLarge)
    );
}

#[test]
fn rom_is_zero_padded_and_copied_at_base() {
    let cpu = boot(&[0x12, 0x34, 0x56]);
    assert_eq!(cpu.chip8.memory.ram[0x200], 0x12);
    assert_eq!(cpu.chip8.memory.ram[0x201], 0x34);
    assert_eq!(cpu.chip8.memory.ram[0x202], 0x56);
    assert_eq!(cpu.chip8.memory.ram[0x203], 0x00);
    assert_eq!(cpu.chip8.memory.ram[0xFFF], 0x00);
}

#[test]
fn cls_program_clears_display_and_advances() {
    let mut cpu = boot(&[0x00, 0xE0]);
    cpu.chip8.io.set_pixel(10, 10, true);
    cpu.chip8.io.set_pixel(0, 0, true);
    cpu.cycle().unwrap();
    assert_eq!(cpu.chip8.registers.pc, 0x202);
    for x in 0..64 {
        for y in 0..32 {
            assert!(!cpu.chip8.io.get_pixel(x, y));
        }
    }
}

#[test]
fn three_cycle_add_program() {
    // LD V0,5; LD V1,3; ADD V0,V1
    let mut cpu = boot(&[0x60, 0x05, 0x61, 0x03, 0x80, 0x14]);
    cpu.cycle().unwrap();
    cpu.cycle().unwrap();
    cpu.cycle().unwrap();
    assert_eq!(cpu.chip8.registers.v[0], 8);
    assert_eq!(cpu.chip8.registers.v[0xF], 0);
    assert_eq!(cpu.chip8.registers.pc, 0x206);
}

#[test]
fn skp_on_unpressed_key_advances_by_two_only() {
    // LD V1,4; SKP V1
    let mut cpu = boot(&[0x61, 0x04, 0xE1, 0x9E]);
    cpu.cycle().unwrap();
    assert_eq!(cpu.chip8.registers.pc, 0x202);
    cpu.cycle().unwrap();
    assert_eq!(cpu.chip8.registers.pc, 0x204);
}

#[test]
fn skp_on_pressed_key_skips() {
    let mut cpu = boot(&[0x61, 0x04, 0xE1, 0x9E]);
    // hex key 4 lives in slot 4 of the keypad layout
    cpu.chip8.io.keys[4] = true;
    cpu.cycle().unwrap();
    cpu.cycle().unwrap();
    assert_eq!(cpu.chip8.registers.pc, 0x206);
}

#[test]
fn sknp_skips_on_unpressed_key() {
    let mut cpu = boot(&[0x61, 0x04, 0xE1, 0xA1]);
    cpu.cycle().unwrap();
    cpu.cycle().unwrap();
    assert_eq!(cpu.chip8.registers.pc, 0x206);
}

#[test]
fn jump_below_program_base_halts_next_cycle() {
    let mut cpu = boot(&[0x11, 0x00]); // JP 0x100
    cpu.cycle().unwrap();
    assert_eq!(cpu.chip8.registers.pc, 0x100);
    assert_eq!(
        cpu.cycle(),
        Err(Chip8Error::ProgramCounterOutOfProgramRegion)
    );
    assert!(matches!(cpu.state, CpuState::Halted));
    // a halted session accepts no more cycles
    assert_eq!(
        cpu.cycle(),
        Err(Chip8Error::ProgramCounterOutOfProgramRegion)
    );
}

#[test]
fn fatal_opcode_error_halts_the_session() {
    let mut cpu = boot(&[0x00, 0xEE]); // RET with an empty stack
    assert_eq!(cpu.cycle(), Err(Chip8Error::AddressOutOfBounds));
    assert!(matches!(cpu.state, CpuState::Halted));
    assert_eq!(
        cpu.cycle(),
        Err(Chip8Error::ProgramCounterOutOfProgramRegion)
    );
}

#[test]
fn unrecognized_opcode_is_a_no_op_advance() {
    let mut cpu = boot(&[0x5A, 0xB1, 0x8A, 0xB8]); // 5xy1 and 8xy8 match no pattern
    cpu.cycle().unwrap();
    assert_eq!(cpu.chip8.registers.pc, 0x202);
    cpu.cycle().unwrap();
    assert_eq!(cpu.chip8.registers.pc, 0x204);
}

#[test]
fn key_wait_suspends_until_the_host_provides_a_key() {
    let mut cpu = boot(&[0xF3, 0x0A]); // LD V3,K
    cpu.cycle().unwrap();
    assert!(matches!(cpu.state, CpuState::AwaitingKey { x: 3 }));
    assert_eq!(cpu.chip8.registers.pc, 0x200);
    // waiting cycles do nothing
    cpu.cycle().unwrap();
    assert_eq!(cpu.chip8.registers.pc, 0x200);
    cpu.provide_key(0xB);
    assert!(matches!(cpu.state, CpuState::Running));
    assert_eq!(cpu.chip8.registers.v[3], 0xB);
    assert_eq!(cpu.chip8.registers.pc, 0x202);
}

#[test]
fn timers_decrement_every_eighth_cycle() {
    let mut cpu = boot(&[0x12, 0x00]); // JP 0x200: spin in place
    cpu.chip8.registers.dt = 5;
    cpu.chip8.registers.st = 1;
    for _ in 0..8 {
        cpu.cycle().unwrap();
    }
    // the divider has not come around yet
    assert_eq!(cpu.chip8.registers.dt, 5);
    cpu.cycle().unwrap();
    assert_eq!(cpu.chip8.registers.dt, 4);
    assert_eq!(cpu.chip8.registers.st, 0);
    for _ in 0..8 {
        cpu.cycle().unwrap();
    }
    assert_eq!(cpu.chip8.registers.dt, 3);
    // the sound timer stays at zero
    assert_eq!(cpu.chip8.registers.st, 0);
}

#[test]
fn decode_splits_word_into_fields() {
    let inst = Instruction::new(0xD123);
    assert_eq!(inst.instruction, 0xD123);
    assert_eq!(inst.nibbles, [0xD, 0x1, 0x2, 0x3]);
    assert_eq!(inst.nnn, 0x123);
    assert_eq!(inst.n, 0x3);
    assert_eq!(inst.x, 0x1);
    assert_eq!(inst.y, 0x2);
    assert_eq!(inst.kk, 0x23);
}

#[test]
fn get_bit_values_is_most_significant_first() {
    assert_eq!(
        get_bit_values(0xA5),
        [true, false, true, false, false, true, false, true]
    );
    assert_eq!(get_bit_values(0), [false; 8]);
    assert_eq!(get_bit_values(0xFF), [true; 8]);
}

#[test]
fn memory_preloads_the_glyph_table() {
    let mem = Memory::new();
    // glyph 0: 0xF0 0x90 0x90 0x90 0xF0
    assert_eq!(mem.ram[0], 0xF0);
    assert_eq!(mem.ram[1], 0x90);
    assert_eq!(mem.ram[4], 0xF0);
    // glyph F starts at 75
    assert_eq!(mem.ram[75], 0xF0);
    assert_eq!(mem.ram[79], 0x80);
    assert_eq!(mem.ram[80], 0);
}

#[test]
fn memory_read_write_are_bounds_checked() {
    let mut mem = Memory::new();
    mem.write(0x500, 0x42).unwrap();
    assert_eq!(mem.read(0x500), Ok(0x42));
    assert_eq!(mem.read(0x1000), Err(Chip8Error::AddressOutOfBounds));
    assert_eq!(mem.write(0x1000, 1), Err(Chip8Error::AddressOutOfBounds));
}

#[test]
fn registers_power_on_state() {
    let regs = Registers::new();
    assert_eq!(regs.v, [0; 16]);
    assert_eq!(regs.pc, 0x200);
    assert_eq!(regs.sp, 0);
    assert_eq!(regs.i, 0);
    assert_eq!(regs.dt, 0);
    assert_eq!(regs.st, 0);
}

#[test]
fn stack_push_pop_through_the_machine() {
    let cart = RomCartridge::new(&Vec::new()).unwrap();
    let mut cpu = Cpu::new(cart);
    cpu.chip8.stack_push(0x234).unwrap();
    cpu.chip8.stack_push(0x456).unwrap();
    assert_eq!(cpu.chip8.registers.sp, 2);
    assert_eq!(cpu.chip8.stack_pop(), Ok(0x456));
    assert_eq!(cpu.chip8.stack_pop(), Ok(0x234));
    assert_eq!(cpu.chip8.stack_pop(), Err(Chip8Error::AddressOutOfBounds));
    for k in 0..15 {
        cpu.chip8.stack_push(k as u16).unwrap();
    }
    assert_eq!(
        cpu.chip8.stack_push(0xBEE),
        Err(Chip8Error::AddressOutOfBounds)
    );
    assert_eq!(Stack::new().stack, [0; 16]);
}

#[test]
fn display_set_get_clear() {
    let mut d = Display::new();
    assert!(!d.get_pixel(5, 6));
    d.set_pixel(5, 6, true);
    assert!(d.get_pixel(5, 6));
    assert!(!d.get_pixel(6, 5));
    d.clear();
    assert!(!d.get_pixel(5, 6));
}

#[test]
fn display_draw_byte_twice_restores_and_collides() {
    let mut d = Display::new();
    let first = d.draw_byte(3, 5, 0xA5);
    assert!(!first);
    assert!(d.get_pixel(3, 5));
    assert!(!d.get_pixel(4, 5));
    let second = d.draw_byte(3, 5, 0xA5);
    assert!(second);
    for x in 0..64 {
        for y in 0..32 {
            assert!(!d.get_pixel(x, y));
        }
    }
}

#[test]
fn render_lays_pixels_out_row_major() {
    let mut io = IO::new();
    io.set_pixel(2, 3, true);
    let buffer = io.render();
    assert_eq!(buffer.len(), 64 * 32);
    assert_eq!(buffer[3 * 64 + 2], PIXEL_ON);
    assert_eq!(buffer[3 * 64 + 3], PIXEL_OFF);
    assert_eq!(buffer[0], PIXEL_OFF);
}

#[test]
fn key_status_follows_the_keypad_layout() {
    let mut io = IO::new();
    io.keys[0] = true;
    assert!(io.get_key_status_from_num(0x1));
    assert!(io.get_key_status_from_vkey(VKeys::Key1));
    assert!(!io.get_key_status_from_num(0x2));
    io.keys[13] = true;
    assert!(io.get_key_status_from_num(0x0));
    assert!(io.get_key_status_from_vkey(VKeys::Key0));
}
