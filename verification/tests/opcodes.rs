//! Per-opcode behaviour on concrete values.

use chip8::Chip8;
use chip8::Chip8Error;

/// 6XNN: VX takes NN, every other register stays zero.
#[test]
fn set_register_6xnn() {
    let mut c = Chip8::new();
    assert_eq!(c.execute_with(0x6A42, 0), Ok(()));
    assert_eq!(c.v(0xA), 0x42);
    for x in 0..16u8 {
        if x != 0xA {
            assert_eq!(c.v(x), 0);
        }
    }
    assert_eq!(c.pc(), 0x200);
}

/// 7XNN wraps: 0xFF + 0x01 gives 0x00 and VF stays untouched.
#[test]
fn add_immediate_wraps_7xnn() {
    let mut c = Chip8::new();
    assert_eq!(c.execute_with(0x60FF, 0), Ok(()));
    assert_eq!(c.execute_with(0x7001, 0), Ok(()));
    assert_eq!(c.v(0), 0x00);
    assert_eq!(c.v(0xF), 0);
}

/// 7XNN without wrap-around just adds.
#[test]
fn add_immediate_plain_7xnn() {
    let mut c = Chip8::new();
    assert_eq!(c.execute_with(0x6005, 0), Ok(()));
    assert_eq!(c.execute_with(0x7020, 0), Ok(()));
    assert_eq!(c.v(0), 0x25);
}

/// 8XY4: 0xFF + 0x01 overflows to 0x00 with VF = 1.
#[test]
fn add_registers_overflow_8xy4() {
    let mut c = Chip8::new();
    assert_eq!(c.execute_with(0x60FF, 0), Ok(()));
    assert_eq!(c.execute_with(0x6101, 0), Ok(()));
    assert_eq!(c.execute_with(0x8014, 0), Ok(()));
    assert_eq!(c.v(0), 0x00);
    assert_eq!(c.v(0xF), 1);
}

/// 8XY4: 0x01 + 0x01 gives 0x02 with VF = 0.
#[test]
fn add_registers_plain_8xy4() {
    let mut c = Chip8::new();
    assert_eq!(c.execute_with(0x6001, 0), Ok(()));
    assert_eq!(c.execute_with(0x6101, 0), Ok(()));
    assert_eq!(c.execute_with(0x8014, 0), Ok(()));
    assert_eq!(c.v(0), 0x02);
    assert_eq!(c.v(0xF), 0);
}

/// 8XY5: 0x05 - 0x03 gives 0x02 with VF = 1 (no borrow).
#[test]
fn sub_registers_no_borrow_8xy5() {
    let mut c = Chip8::new();
    assert_eq!(c.execute_with(0x6005, 0), Ok(()));
    assert_eq!(c.execute_with(0x6103, 0), Ok(()));
    assert_eq!(c.execute_with(0x8015, 0), Ok(()));
    assert_eq!(c.v(0), 0x02);
    assert_eq!(c.v(0xF), 1);
}

/// 8XY5: 0x03 - 0x05 wraps to 0xFE with VF = 0 (borrow).
#[test]
fn sub_registers_borrow_8xy5() {
    let mut c = Chip8::new();
    assert_eq!(c.execute_with(0x6003, 0), Ok(()));
    assert_eq!(c.execute_with(0x6105, 0), Ok(()));
    assert_eq!(c.execute_with(0x8015, 0), Ok(()));
    assert_eq!(c.v(0), 0xFE);
    assert_eq!(c.v(0xF), 0);
}

/// 8XY7 subtracts the other way round: VX = VY - VX.
#[test]
fn sub_reversed_8xy7() {
    let mut c = Chip8::new();
    assert_eq!(c.execute_with(0x6003, 0), Ok(()));
    assert_eq!(c.execute_with(0x6105, 0), Ok(()));
    assert_eq!(c.execute_with(0x8017, 0), Ok(()));
    assert_eq!(c.v(0), 0x02);
    assert_eq!(c.v(0xF), 1);
    assert_eq!(c.execute_with(0x6107, 0), Ok(()));
    assert_eq!(c.execute_with(0x6209, 0), Ok(()));
    assert_eq!(c.execute_with(0x8127, 0), Ok(()));
    assert_eq!(c.v(1), 0x02);
    assert_eq!(c.v(0xF), 1);
}

/// 8XY0/1/2/3: copy, OR, AND, XOR.
#[test]
fn logic_ops_8xy0123() {
    let mut c = Chip8::new();
    assert_eq!(c.execute_with(0x60F0, 0), Ok(()));
    assert_eq!(c.execute_with(0x613C, 0), Ok(()));
    assert_eq!(c.execute_with(0x8210, 0), Ok(()));
    assert_eq!(c.v(2), 0x3C);
    assert_eq!(c.execute_with(0x8011, 0), Ok(()));
    assert_eq!(c.v(0), 0xFC);
    assert_eq!(c.execute_with(0x60F0, 0), Ok(()));
    assert_eq!(c.execute_with(0x8012, 0), Ok(()));
    assert_eq!(c.v(0), 0x30);
    assert_eq!(c.execute_with(0x60F0, 0), Ok(()));
    assert_eq!(c.execute_with(0x8013, 0), Ok(()));
    assert_eq!(c.v(0), 0xCC);
}

/// 8XY6 shifts right; VF takes the bit shifted out.
#[test]
fn shift_right_8xy6() {
    let mut c = Chip8::new();
    assert_eq!(c.execute_with(0x6005, 0), Ok(()));
    assert_eq!(c.execute_with(0x8006, 0), Ok(()));
    assert_eq!(c.v(0), 0x02);
    assert_eq!(c.v(0xF), 1);
    assert_eq!(c.execute_with(0x6104, 0), Ok(()));
    assert_eq!(c.execute_with(0x8106, 0), Ok(()));
    assert_eq!(c.v(1), 0x02);
    assert_eq!(c.v(0xF), 0);
}

/// 8XYE shifts left; VF takes the bit shifted out.
#[test]
fn shift_left_8xye() {
    let mut c = Chip8::new();
    assert_eq!(c.execute_with(0x6081, 0), Ok(()));
    assert_eq!(c.execute_with(0x800E, 0), Ok(()));
    assert_eq!(c.v(0), 0x02);
    assert_eq!(c.v(0xF), 1);
    assert_eq!(c.execute_with(0x6141, 0), Ok(()));
    assert_eq!(c.execute_with(0x810E, 0), Ok(()));
    assert_eq!(c.v(1), 0x82);
    assert_eq!(c.v(0xF), 0);
}

/// 3XNN skips exactly when VX equals NN.
#[test]
fn skip_if_equal_3xnn() {
    let mut c = Chip8::new();
    assert_eq!(c.execute_with(0x6042, 0), Ok(()));
    assert_eq!(c.execute_with(0x3042, 0), Ok(()));
    assert_eq!(c.pc(), 0x202);
    assert_eq!(c.execute_with(0x3041, 0), Ok(()));
    assert_eq!(c.pc(), 0x202);
}

/// 4XNN skips exactly when VX differs from NN.
#[test]
fn skip_if_not_equal_4xnn() {
    let mut c = Chip8::new();
    assert_eq!(c.execute_with(0x6042, 0), Ok(()));
    assert_eq!(c.execute_with(0x4042, 0), Ok(()));
    assert_eq!(c.pc(), 0x200);
    assert_eq!(c.execute_with(0x4041, 0), Ok(()));
    assert_eq!(c.pc(), 0x202);
}

/// 5XY0 and 9XY0 compare two registers.
#[test]
fn skip_on_register_compare_5xy0_9xy0() {
    let mut c = Chip8::new();
    assert_eq!(c.execute_with(0x6007, 0), Ok(()));
    assert_eq!(c.execute_with(0x6107, 0), Ok(()));
    assert_eq!(c.execute_with(0x5010, 0), Ok(()));
    assert_eq!(c.pc(), 0x202);
    assert_eq!(c.execute_with(0x9010, 0), Ok(()));
    assert_eq!(c.pc(), 0x202);
    assert_eq!(c.execute_with(0x6108, 0), Ok(()));
    assert_eq!(c.execute_with(0x9010, 0), Ok(()));
    assert_eq!(c.pc(), 0x204);
}

/// 1NNN jumps.
#[test]
fn jump_1nnn() {
    let mut c = Chip8::new();
    assert_eq!(c.execute_with(0x1ABC, 0), Ok(()));
    assert_eq!(c.pc(), 0xABC);
}

/// 2NNN then 00EE: the PC pushed by CALL is exactly the PC RET pops.
#[test]
fn call_then_ret_round_trip() {
    let mut c = Chip8::new();
    assert_eq!(c.pc(), 0x200);
    assert_eq!(c.execute_with(0x2ABC, 0), Ok(()));
    assert_eq!(c.pc(), 0xABC);
    assert_eq!(c.sp(), 1);
    assert_eq!(c.execute_with(0x00EE, 0), Ok(()));
    assert_eq!(c.pc(), 0x200);
    assert_eq!(c.sp(), 0);
}

/// Nested CALLs unwind in reverse order.
#[test]
fn nested_calls_unwind() {
    let mut c = Chip8::new();
    assert_eq!(c.execute_with(0x2300, 0), Ok(()));
    assert_eq!(c.execute_with(0x2400, 0), Ok(()));
    assert_eq!(c.sp(), 2);
    assert_eq!(c.execute_with(0x00EE, 0), Ok(()));
    assert_eq!(c.pc(), 0x300);
    assert_eq!(c.execute_with(0x00EE, 0), Ok(()));
    assert_eq!(c.pc(), 0x200);
}

/// ANNN sets I; BNNN jumps to NNN + V0.
#[test]
fn index_and_offset_jump_annn_bnnn() {
    let mut c = Chip8::new();
    assert_eq!(c.execute_with(0xA123, 0), Ok(()));
    assert_eq!(c.i_reg(), 0x123);
    assert_eq!(c.execute_with(0x6005, 0), Ok(()));
    assert_eq!(c.execute_with(0xB300, 0), Ok(()));
    assert_eq!(c.pc(), 0x305);
}

/// 0000 is a no-op.
#[test]
fn nop_0000() {
    let mut c = Chip8::new();
    assert_eq!(c.execute_with(0x0000, 0), Ok(()));
    assert_eq!(c.pc(), 0x200);
    assert_eq!(c.sp(), 0);
}

/// CXNN masks the random byte with NN: for a known byte the result is
/// exact, and through the real generator no bit outside NN ever shows.
#[test]
fn random_masked_cxnn() {
    let mut c = Chip8::new();
    assert_eq!(c.execute_with(0xC0FF, 0xA7), Ok(()));
    assert_eq!(c.v(0), 0xA7);
    assert_eq!(c.execute_with(0xC1F0, 0xA7), Ok(()));
    assert_eq!(c.v(1), 0xA0);
    for _ in 0..32 {
        assert_eq!(c.execute_instruction(0xC20F), Ok(()));
        assert_eq!(c.v(2) & 0xF0, 0);
    }
}

/// FX07/FX15/FX18: registers and timers exchange values.
#[test]
fn timer_transfer_fx07_fx15_fx18() {
    let mut c = Chip8::new();
    assert_eq!(c.execute_with(0x6030, 0), Ok(()));
    assert_eq!(c.execute_with(0xF015, 0), Ok(()));
    assert_eq!(c.delay_timer(), 0x30);
    assert_eq!(c.execute_with(0xF018, 0), Ok(()));
    assert_eq!(c.sound_timer(), 0x30);
    assert_eq!(c.execute_with(0xF107, 0), Ok(()));
    assert_eq!(c.v(1), 0x30);
}

/// FX1E adds VX to I.
#[test]
fn index_add_fx1e() {
    let mut c = Chip8::new();
    assert_eq!(c.execute_with(0xA100, 0), Ok(()));
    assert_eq!(c.execute_with(0x6005, 0), Ok(()));
    assert_eq!(c.execute_with(0xF01E, 0), Ok(()));
    assert_eq!(c.i_reg(), 0x105);
}

/// FX29 points I at the five-byte glyph of digit VX.
#[test]
fn font_address_fx29() {
    let mut c = Chip8::new();
    assert_eq!(c.execute_with(0x600A, 0), Ok(()));
    assert_eq!(c.execute_with(0xF029, 0), Ok(()));
    assert_eq!(c.i_reg(), 50);
}

/// FX33: the BCD digits of 157 land at I, I+1, I+2.
#[test]
fn bcd_fx33() {
    let mut c = Chip8::new();
    assert_eq!(c.execute_with(0x609D, 0), Ok(()));
    assert_eq!(c.execute_with(0xA300, 0), Ok(()));
    assert_eq!(c.execute_with(0xF033, 0), Ok(()));
    assert_eq!(c.mem(0x300), 1);
    assert_eq!(c.mem(0x301), 5);
    assert_eq!(c.mem(0x302), 7);
}

/// FX55 then FX65: store V0..V3, zero the registers, load back; the
/// original values return.
#[test]
fn store_load_round_trip_fx55_fx65() {
    let mut c = Chip8::new();
    assert_eq!(c.execute_with(0x6011, 0), Ok(()));
    assert_eq!(c.execute_with(0x6122, 0), Ok(()));
    assert_eq!(c.execute_with(0x6233, 0), Ok(()));
    assert_eq!(c.execute_with(0x6344, 0), Ok(()));
    assert_eq!(c.execute_with(0xA400, 0), Ok(()));
    assert_eq!(c.execute_with(0xF355, 0), Ok(()));
    assert_eq!(c.mem(0x400), 0x11);
    assert_eq!(c.mem(0x403), 0x44);
    for x in 0..4u16 {
        assert_eq!(c.execute_with(0x6000 | (x << 8), 0), Ok(()));
    }
    assert_eq!(c.v(0), 0);
    assert_eq!(c.v(3), 0);
    assert_eq!(c.execute_with(0xF365, 0), Ok(()));
    assert_eq!(c.v(0), 0x11);
    assert_eq!(c.v(1), 0x22);
    assert_eq!(c.v(2), 0x33);
    assert_eq!(c.v(3), 0x44);
}

/// EX9E skips when key VX is down, EXA1 when it is up.
#[test]
fn key_skips_ex9e_exa1() {
    let mut c = Chip8::new();
    assert_eq!(c.execute_with(0x6007, 0), Ok(()));
    c.key_press(7, true);
    assert_eq!(c.execute_with(0xE09E, 0), Ok(()));
    assert_eq!(c.pc(), 0x202);
    assert_eq!(c.execute_with(0xE0A1, 0), Ok(()));
    assert_eq!(c.pc(), 0x202);
    c.key_press(7, false);
    assert_eq!(c.execute_with(0xE09E, 0), Ok(()));
    assert_eq!(c.pc(), 0x202);
    assert_eq!(c.execute_with(0xE0A1, 0), Ok(()));
    assert_eq!(c.pc(), 0x204);
}

/// FX0A with no key down steps the PC back, so the same instruction
/// polls again next cycle; a pressed key is captured, lowest index
/// first.
#[test]
fn wait_for_key_fx0a() {
    let mut c = Chip8::new();
    assert_eq!(c.execute_with(0xF00A, 0), Ok(()));
    assert_eq!(c.pc(), 0x1FE);
    c.key_press(7, true);
    c.key_press(3, true);
    assert_eq!(c.execute_with(0xF00A, 0), Ok(()));
    assert_eq!(c.pc(), 0x1FE);
    assert_eq!(c.v(0), 3);
}

/// An unmatched pattern - 0x5001, whose trailing nibble is not zero -
/// reports the offending value and moves nothing.
#[test]
fn invalid_opcode_5001() {
    let mut c = Chip8::new();
    assert_eq!(c.execute_with(0x6042, 0), Ok(()));
    let before_pc = c.pc();
    assert_eq!(c.execute_with(0x5001, 0), Err(Chip8Error::InvalidOpcode(0x5001)));
    assert_eq!(c.pc(), before_pc);
    assert_eq!(c.v(0), 0x42);
    assert_eq!(c.sp(), 0);
}

/// More unmatched patterns across families.
#[test]
fn invalid_opcode_families() {
    let mut c = Chip8::new();
    assert_eq!(c.execute_with(0x9001, 0), Err(Chip8Error::InvalidOpcode(0x9001)));
    assert_eq!(c.execute_with(0x8008, 0), Err(Chip8Error::InvalidOpcode(0x8008)));
    assert_eq!(c.execute_with(0xE000, 0), Err(Chip8Error::InvalidOpcode(0xE000)));
    assert_eq!(c.execute_with(0xF0FF, 0), Err(Chip8Error::InvalidOpcode(0xF0FF)));
    assert_eq!(c.execute_with(0x0123, 0), Err(Chip8Error::InvalidOpcode(0x0123)));
}
