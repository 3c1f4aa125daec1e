//! Handler-level checks of the opcode semantics: arithmetic flags, shifts,
//! the call/return discipline, BCD, sprite drawing and the register dumps.
use chip8::cpu::Cpu;
use chip8::romhandler::RomCartridge;
use chip8::Chip8Error;

fn fresh_cpu() -> Cpu {
    let cart = RomCartridge::new(&Vec::new()).unwrap();
    Cpu::new(cart)
}

#[test]
fn add_vx_vy_sets_carry_on_overflow() {
    let mut cpu = fresh_cpu();
    cpu.chip8.registers.v[0] = 200;
    cpu.chip8.registers.v[1] = 100;
    cpu.add_vx_vy(0, 1);
    assert_eq!(cpu.chip8.registers.v[0], 44);
    assert_eq!(cpu.chip8.registers.v[0xF], 1);
    assert_eq!(cpu.chip8.registers.pc, 0x202);
}

#[test]
fn add_vx_vy_clears_carry_without_overflow() {
    let mut cpu = fresh_cpu();
    cpu.chip8.registers.v[0] = 5;
    cpu.chip8.registers.v[1] = 3;
    cpu.chip8.registers.v[0xF] = 1;
    cpu.add_vx_vy(0, 1);
    assert_eq!(cpu.chip8.registers.v[0], 8);
    assert_eq!(cpu.chip8.registers.v[0xF], 0);
}

#[test]
fn add_vx_vy_boundary_255() {
    let mut cpu = fresh_cpu();
    cpu.chip8.registers.v[2] = 255;
    cpu.chip8.registers.v[3] = 0;
    cpu.add_vx_vy(2, 3);
    assert_eq!(cpu.chip8.registers.v[2], 255);
    assert_eq!(cpu.chip8.registers.v[0xF], 0);
    cpu.chip8.registers.v[3] = 1;
    cpu.add_vx_vy(2, 3);
    assert_eq!(cpu.chip8.registers.v[2], 0);
    assert_eq!(cpu.chip8.registers.v[0xF], 1);
}

#[test]
fn sub_vx_vy_no_borrow_sets_flag() {
    let mut cpu = fresh_cpu();
    cpu.chip8.registers.v[0] = 10;
    cpu.chip8.registers.v[1] = 3;
    cpu.sub_vx_vy(0, 1);
    assert_eq!(cpu.chip8.registers.v[0], 7);
    assert_eq!(cpu.chip8.registers.v[0xF], 1);
}

#[test]
fn sub_vx_vy_borrow_clears_flag_and_wraps() {
    let mut cpu = fresh_cpu();
    cpu.chip8.registers.v[0] = 3;
    cpu.chip8.registers.v[1] = 10;
    cpu.sub_vx_vy(0, 1);
    assert_eq!(cpu.chip8.registers.v[0], 249);
    assert_eq!(cpu.chip8.registers.v[0xF], 0);
}

#[test]
fn sub_vx_vy_equal_values_set_flag() {
    let mut cpu = fresh_cpu();
    cpu.chip8.registers.v[4] = 77;
    cpu.chip8.registers.v[5] = 77;
    cpu.sub_vx_vy(4, 5);
    assert_eq!(cpu.chip8.registers.v[4], 0);
    assert_eq!(cpu.chip8.registers.v[0xF], 1);
}

#[test]
fn shr_flag_is_bit0_for_all_inputs() {
    for value in 0..=255u8 {
        let mut cpu = fresh_cpu();
        cpu.chip8.registers.v[3] = value;
        cpu.shr_vx(3);
        assert_eq!(cpu.chip8.registers.v[0xF], value & 1);
        assert_eq!(cpu.chip8.registers.v[3], value >> 1);
    }
}

#[test]
fn shl_flag_is_bit7_for_all_inputs() {
    for value in 0..=255u8 {
        let mut cpu = fresh_cpu();
        cpu.chip8.registers.v[3] = value;
        cpu.shl_vx(3);
        assert_eq!(cpu.chip8.registers.v[0xF], (value >> 7) & 1);
        assert_eq!(cpu.chip8.registers.v[3], value.wrapping_mul(2));
    }
}

#[test]
fn subn_vx_vy_uses_vy_minus_vx() {
    let mut cpu = fresh_cpu();
    cpu.chip8.registers.v[0] = 3;
    cpu.chip8.registers.v[1] = 10;
    cpu.subn_vx_vy(0, 1);
    assert_eq!(cpu.chip8.registers.v[0], 7);
    assert_eq!(cpu.chip8.registers.v[0xF], 1);
    cpu.chip8.registers.v[6] = 10;
    cpu.chip8.registers.v[7] = 3;
    cpu.subn_vx_vy(6, 7);
    assert_eq!(cpu.chip8.registers.v[6], 249);
    assert_eq!(cpu.chip8.registers.v[0xF], 0);
}

#[test]
fn bitwise_ops_into_vx() {
    let mut cpu = fresh_cpu();
    cpu.chip8.registers.v[0] = 0b1100;
    cpu.chip8.registers.v[1] = 0b1010;
    cpu.or_vx_vy(0, 1);
    assert_eq!(cpu.chip8.registers.v[0], 0b1110);
    cpu.chip8.registers.v[0] = 0b1100;
    cpu.and_vx_vy(0, 1);
    assert_eq!(cpu.chip8.registers.v[0], 0b1000);
    cpu.chip8.registers.v[0] = 0b1100;
    cpu.xor_vx_vy(0, 1);
    assert_eq!(cpu.chip8.registers.v[0], 0b0110);
}

#[test]
fn ld_b_vx_splits_156_into_decimal_digits() {
    let mut cpu = fresh_cpu();
    cpu.chip8.registers.v[2] = 156;
    cpu.chip8.registers.i = 0x300;
    cpu.ld_b_vx(2).unwrap();
    assert_eq!(cpu.chip8.memory.ram[0x300], 1);
    assert_eq!(cpu.chip8.memory.ram[0x301], 5);
    assert_eq!(cpu.chip8.memory.ram[0x302], 6);
}

#[test]
fn ld_b_vx_out_of_memory_fails() {
    let mut cpu = fresh_cpu();
    cpu.chip8.registers.i = 0xFFE;
    assert_eq!(cpu.ld_b_vx(0), Err(Chip8Error::AddressOutOfBounds));
    assert_eq!(cpu.chip8.registers.pc, 0x200);
}

#[test]
fn call_then_ret_restores_pc_after_call() {
    let mut cpu = fresh_cpu();
    assert_eq!(cpu.chip8.registers.pc, 0x200);
    cpu.call(0x400).unwrap();
    assert_eq!(cpu.chip8.registers.pc, 0x400);
    assert_eq!(cpu.chip8.registers.sp, 1);
    cpu.ret().unwrap();
    assert_eq!(cpu.chip8.registers.pc, 0x202);
    assert_eq!(cpu.chip8.registers.sp, 0);
}

#[test]
fn ret_on_empty_stack_fails() {
    let mut cpu = fresh_cpu();
    assert_eq!(cpu.ret(), Err(Chip8Error::AddressOutOfBounds));
}

#[test]
fn call_overflows_full_stack() {
    let mut cpu = fresh_cpu();
    for _ in 0..15 {
        cpu.call(0x300).unwrap();
    }
    assert_eq!(cpu.chip8.registers.sp, 15);
    assert_eq!(cpu.call(0x300), Err(Chip8Error::AddressOutOfBounds));
}

#[test]
fn rnd_vx_byte_masks_the_random_byte() {
    let mut cpu = fresh_cpu();
    cpu.rnd_vx_byte(0, 0x0F);
    assert!(cpu.chip8.registers.v[0] < 16);
    // the generator never returns 255, so a full mask never yields 255
    cpu.rnd_vx_byte(1, 0xFF);
    assert_ne!(cpu.chip8.registers.v[1], 255);
    cpu.rnd_vx_byte(2, 0x00);
    assert_eq!(cpu.chip8.registers.v[2], 0);
}

#[test]
fn ld_f_vx_points_i_at_the_glyph() {
    let mut cpu = fresh_cpu();
    cpu.chip8.registers.v[0] = 0xA;
    cpu.ld_f_vx(0);
    assert_eq!(cpu.chip8.registers.i, 50);
    // glyph A: 0xF0 0x90 0xF0 0x90 0x90
    assert_eq!(cpu.chip8.memory.ram[50], 0xF0);
    assert_eq!(cpu.chip8.memory.ram[51], 0x90);
    assert_eq!(cpu.chip8.memory.ram[52], 0xF0);
    assert_eq!(cpu.chip8.memory.ram[53], 0x90);
    assert_eq!(cpu.chip8.memory.ram[54], 0x90);
}

#[test]
fn ld_i_vx_and_ld_vx_i_round_trip_inclusive() {
    let mut cpu = fresh_cpu();
    cpu.chip8.registers.v[0] = 11;
    cpu.chip8.registers.v[1] = 22;
    cpu.chip8.registers.v[2] = 33;
    cpu.chip8.registers.v[3] = 44;
    cpu.chip8.registers.i = 0x400;
    cpu.ld_i_vx(3).unwrap();
    assert_eq!(cpu.chip8.memory.ram[0x400], 11);
    assert_eq!(cpu.chip8.memory.ram[0x401], 22);
    assert_eq!(cpu.chip8.memory.ram[0x402], 33);
    assert_eq!(cpu.chip8.memory.ram[0x403], 44);
    for k in 0..4 {
        cpu.chip8.registers.v[k] = 0;
    }
    cpu.ld_vx_i(3).unwrap();
    assert_eq!(cpu.chip8.registers.v[0], 11);
    assert_eq!(cpu.chip8.registers.v[1], 22);
    assert_eq!(cpu.chip8.registers.v[2], 33);
    assert_eq!(cpu.chip8.registers.v[3], 44);
}

#[test]
fn ld_i_vx_past_end_of_memory_fails() {
    let mut cpu = fresh_cpu();
    cpu.chip8.registers.i = 0xFFE;
    assert_eq!(cpu.ld_i_vx(5), Err(Chip8Error::AddressOutOfBounds));
}

#[test]
fn add_i_vx_adds_into_i() {
    let mut cpu = fresh_cpu();
    cpu.chip8.registers.i = 0x0FF;
    cpu.chip8.registers.v[4] = 0x10;
    cpu.add_i_vx(4);
    assert_eq!(cpu.chip8.registers.i, 0x10F);
    assert_eq!(cpu.chip8.registers.v[0xF], 0);
}

#[test]
fn skip_ops_compare_as_documented() {
    let mut cpu = fresh_cpu();
    cpu.chip8.registers.v[0] = 9;
    cpu.se_vx_byte(0, 9);
    assert_eq!(cpu.chip8.registers.pc, 0x204);
    cpu.se_vx_byte(0, 8);
    assert_eq!(cpu.chip8.registers.pc, 0x206);
    cpu.sne_vx_byte(0, 8);
    assert_eq!(cpu.chip8.registers.pc, 0x20A);
    cpu.chip8.registers.v[1] = 9;
    cpu.se_vx_vy(0, 1);
    assert_eq!(cpu.chip8.registers.pc, 0x20E);
    cpu.sne_vx_vy(0, 1);
    assert_eq!(cpu.chip8.registers.pc, 0x210);
}

#[test]
fn add_vx_byte_wraps_without_touching_vf() {
    let mut cpu = fresh_cpu();
    cpu.chip8.registers.v[0] = 250;
    cpu.add_vx_byte(0, 10);
    assert_eq!(cpu.chip8.registers.v[0], 4);
    assert_eq!(cpu.chip8.registers.v[0xF], 0);
}

#[test]
fn jp_v0_nnn_jumps_with_offset() {
    let mut cpu = fresh_cpu();
    cpu.chip8.registers.v[0] = 0x12;
    cpu.jp_v0_nnn(0x300);
    assert_eq!(cpu.chip8.registers.pc, 0x312);
}

#[test]
fn timer_transfers_move_values_both_ways() {
    let mut cpu = fresh_cpu();
    cpu.chip8.registers.v[6] = 42;
    cpu.ld_dt_vx(6);
    assert_eq!(cpu.chip8.registers.dt, 42);
    cpu.ld_st_vx(6);
    assert_eq!(cpu.chip8.registers.st, 42);
    cpu.ld_vx_dt(7);
    assert_eq!(cpu.chip8.registers.v[7], 42);
}

#[test]
fn drw_draws_glyph_and_detects_collision_on_redraw() {
    let mut cpu = fresh_cpu();
    // glyph 0 sits at memory 0..5
    cpu.chip8.registers.i = 0;
    cpu.chip8.registers.v[0] = 4;
    cpu.chip8.registers.v[1] = 2;
    cpu.drw_vx_vy_n(0, 1, 5).unwrap();
    assert_eq!(cpu.chip8.registers.v[0xF], 0);
    // top row of glyph 0 is 0xF0: four lit pixels
    assert!(cpu.chip8.io.get_pixel(4, 2));
    assert!(cpu.chip8.io.get_pixel(7, 2));
    assert!(!cpu.chip8.io.get_pixel(8, 2));
    // an identical draw collides and restores the blank screen
    cpu.drw_vx_vy_n(0, 1, 5).unwrap();
    assert_eq!(cpu.chip8.registers.v[0xF], 1);
    for x in 0..16 {
        for y in 0..10 {
            assert!(!cpu.chip8.io.get_pixel(x, y));
        }
    }
}

#[test]
fn drw_wraps_coordinates() {
    let mut cpu = fresh_cpu();
    cpu.chip8.memory.ram[0x700] = 0x80; // single pixel, leftmost bit
    cpu.chip8.registers.i = 0x700;
    cpu.chip8.registers.v[0] = 63;
    cpu.chip8.registers.v[1] = 31;
    cpu.drw_vx_vy_n(0, 1, 1).unwrap();
    assert!(cpu.chip8.io.get_pixel(63, 31));
}

#[test]
fn drw_row_outside_memory_fails() {
    let mut cpu = fresh_cpu();
    cpu.chip8.registers.i = 0xFFF;
    assert_eq!(cpu.drw_vx_vy_n(0, 1, 2), Err(Chip8Error::AddressOutOfBounds));
    // nothing was drawn
    for x in 0..64 {
        for y in 0..32 {
            assert!(!cpu.chip8.io.get_pixel(x, y));
        }
    }
}
