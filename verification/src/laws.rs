//! The interpreter's laws: facts that relate several operations of the
//! machine, each stated over the transition function and proved once
//! for every state and operand.

use vstd::prelude::*;

use crate::error::Chip8Error;
use crate::model::{
    Chip8View, blank_screen, byte_nn, cell_hits, collides_at, draw_collision, hit_at,
    lemma_opcode_fields, nib1, nib2, nib3, nib4, spec_execute, sprite_hits, store_regs_mem,
    ticked_n, valid_opcode, with_reg, wrap_add_u8,
};

verus! {

/// 6XNN loads NN into VX and changes nothing else: no other register,
/// and no other part of the machine, moves.
pub proof fn lemma_set_register(s: Chip8View, op: u16, rnd: u8)
    requires
        s.wf(),
        nib1(op) == 0x6,
    ensures
        spec_execute(s, op, rnd) is Ok,
        spec_execute(s, op, rnd)->Ok_0 == with_reg(s, nib2(op) as int, byte_nn(op)),
        spec_execute(s, op, rnd)->Ok_0.v[nib2(op) as int] == byte_nn(op),
        forall|j: int| 0 <= j < 16 && j != nib2(op) as int
            ==> spec_execute(s, op, rnd)->Ok_0.v[j] == s.v[j],
{
    lemma_opcode_fields(op);
}

/// 7XNN adds NN to VX wrapping modulo 256 and never touches the flag
/// register (only 8XY4 sets VF on an add); in particular 0xFF + 0x01
/// wraps to 0x00. The one case left out is X = F, where VX is the flag
/// register itself.
pub proof fn lemma_add_immediate_wraps(s: Chip8View, op: u16, rnd: u8)
    requires
        s.wf(),
        nib1(op) == 0x7,
        nib2(op) != 0xF,
    ensures
        spec_execute(s, op, rnd) is Ok,
        spec_execute(s, op, rnd)->Ok_0.v[nib2(op) as int]
            == wrap_add_u8(s.v[nib2(op) as int], byte_nn(op)),
        spec_execute(s, op, rnd)->Ok_0.v[15] == s.v[15],
        s.v[nib2(op) as int] == 0xFF && byte_nn(op) == 0x01
            ==> spec_execute(s, op, rnd)->Ok_0.v[nib2(op) as int] == 0x00,
{
    lemma_opcode_fields(op);
}

/// CALL then RET is a round trip for the program counter: the PC that
/// 2NNN pushes is exactly the PC that the matching 00EE pops.
pub proof fn lemma_call_ret_round_trip(s: Chip8View, op: u16, rnd: u8, rnd2: u8)
    requires
        s.wf(),
        nib1(op) == 0x2,
        s.sp < 16,
    ensures
        spec_execute(s, op, rnd) is Ok,
        spec_execute(spec_execute(s, op, rnd)->Ok_0, 0x00EE, rnd2) is Ok,
        spec_execute(spec_execute(s, op, rnd)->Ok_0, 0x00EE, rnd2)->Ok_0.pc == s.pc,
{
    lemma_opcode_fields(op);
}

/// 00E0 clears the whole framebuffer: whatever was drawn before, every
/// one of the 2048 cells is off afterwards, and nothing else moves.
pub proof fn lemma_clear_screen(s: Chip8View, rnd: u8)
    requires
        s.wf(),
    ensures
        spec_execute(s, 0x00E0, rnd) is Ok,
        spec_execute(s, 0x00E0, rnd)->Ok_0 == (Chip8View { screen: blank_screen(), ..s }),
        spec_execute(s, 0x00E0, rnd)->Ok_0.screen.len() == 2048,
        forall|p: int| 0 <= p < 2048 ==> !spec_execute(s, 0x00E0, rnd)->Ok_0.screen[p],
{
}

/// Drawing the same sprite twice at the same coordinates restores the
/// framebuffer: the second draw toggles exactly the cells the first
/// toggled. The second draw's collision flag is 1 precisely when the
/// first draw lit some cell that had been off - so it is 1 for every
/// sprite with a set bit on a cell the first draw found dark, and 0
/// only when the sprite hit nothing but lit cells (or nothing at all).
/// X and F, and Y and F, must differ: the first draw writes VF, and a
/// draw whose coordinates live in VF does not repeat itself.
pub proof fn lemma_draw_twice_restores(s: Chip8View, op: u16, rnd: u8, rnd2: u8)
    requires
        s.wf(),
        nib1(op) == 0xD,
        nib2(op) != 0xF,
        nib3(op) != 0xF,
        s.i + nib4(op) <= 4096,
    ensures
        spec_execute(s, op, rnd) is Ok,
        spec_execute(spec_execute(s, op, rnd)->Ok_0, op, rnd2) is Ok,
        spec_execute(spec_execute(s, op, rnd)->Ok_0, op, rnd2)->Ok_0.screen == s.screen,
        spec_execute(spec_execute(s, op, rnd)->Ok_0, op, rnd2)->Ok_0.v[15] == 1
            <==> exists|p: int| 0 <= p < 2048 && !s.screen[p] && #[trigger] cell_hits(s, op, p),
{
    lemma_opcode_fields(op);
    let t = spec_execute(s, op, rnd)->Ok_0;
    assert forall|p: int| #[trigger] cell_hits(t, op, p) == cell_hits(s, op, p) by {
        let px = p % 64;
        let py = p / 64;
        if sprite_hits(t, op, px, py) {
            let (i2, j2) = choose|i2: int, j2: int|
                0 <= i2 < nib4(op) && 0 <= j2 < 8 && #[trigger] hit_at(t, op, i2, j2, px, py);
            assert(hit_at(s, op, i2, j2, px, py));
        }
        if sprite_hits(s, op, px, py) {
            let (i2, j2) = choose|i2: int, j2: int|
                0 <= i2 < nib4(op) && 0 <= j2 < 8 && #[trigger] hit_at(s, op, i2, j2, px, py);
            assert(hit_at(t, op, i2, j2, px, py));
        }
    };
    let u = spec_execute(t, op, rnd2)->Ok_0;
    assert(u.screen =~= s.screen);
    if draw_collision(t, op) {
        let p = choose|p: int| 0 <= p < 2048 && #[trigger] collides_at(t, op, p);
        assert(!s.screen[p] && cell_hits(s, op, p));
    }
    if exists|p: int| 0 <= p < 2048 && !s.screen[p] && #[trigger] cell_hits(s, op, p) {
        let p = choose|p: int| 0 <= p < 2048 && !s.screen[p] && #[trigger] cell_hits(s, op, p);
        assert(collides_at(t, op, p));
        assert(draw_collision(t, op));
    }
}

/// FX55 then FX65 is a round trip for the register file: store V0..=VX
/// at I, and a later load from the same I - whatever happened to the
/// registers in between, as long as that stretch of memory and I were
/// left alone - restores V0..=VX exactly.
pub proof fn lemma_store_load_round_trip(
    s: Chip8View,
    s2: Chip8View,
    op5: u16,
    op6: u16,
    rnd: u8,
    rnd2: u8,
)
    requires
        s.wf(),
        s2.wf(),
        nib1(op5) == 0xF,
        byte_nn(op5) == 0x55,
        nib1(op6) == 0xF,
        byte_nn(op6) == 0x65,
        nib2(op6) == nib2(op5),
        s.i + nib2(op5) < 4096,
        s2.i == s.i,
        s2.memory == store_regs_mem(s, nib2(op5) as int),
    ensures
        spec_execute(s, op5, rnd) is Ok,
        spec_execute(s, op5, rnd)->Ok_0.memory == store_regs_mem(s, nib2(op5) as int),
        spec_execute(s2, op6, rnd2) is Ok,
        forall|j: int| 0 <= j <= nib2(op5)
            ==> spec_execute(s2, op6, rnd2)->Ok_0.v[j] == s.v[j],
{
    lemma_opcode_fields(op5);
    lemma_opcode_fields(op6);
    let x = nib2(op5) as int;
    assert forall|j: int| 0 <= j <= x implies spec_execute(s2, op6, rnd2)->Ok_0.v[j] == s.v[j] by {
        assert(s2.memory[s2.i + j] == s.v[(s.i + j) - s.i]);
    };
}

/// A delay or sound timer set to T reads zero after any T or more
/// ticks, and stays at zero: it never wraps below.
pub proof fn lemma_timer_reaches_zero(t: u8, n: nat)
    requires
        n >= t,
    ensures
        ticked_n(t, n) == 0,
{
    lemma_ticked_value(t, n);
}

/// After `n` ticks a timer that started at T reads T - n, clamped at
/// zero.
pub proof fn lemma_ticked_value(t: u8, n: nat)
    ensures
        ticked_n(t, n) == if n <= t {
            (t - n) as u8
        } else {
            0u8
        },
    decreases n,
{
    if n > 0 {
        lemma_ticked_value(t, (n - 1) as nat);
    }
}

/// Every opcode outside the instruction table faults with an invalid-
/// opcode report that names the raw 16-bit value; the executable
/// machine then leaves every part of the state exactly as it was.
pub proof fn lemma_invalid_opcode(s: Chip8View, op: u16, rnd: u8)
    requires
        !valid_opcode(op),
    ensures
        spec_execute(s, op, rnd) == Err::<Chip8View, Chip8Error>(Chip8Error::InvalidOpcode(op)),
{
    lemma_opcode_fields(op);
}

} // verus!

