//! The executable machine: the state container and every operation the
//! host loop drives, each proved against the model in `crate::model`.

use vstd::prelude::*;

use crate::error::Chip8Error;
use crate::model::{
    Chip8View, blank_screen, cell_hits, cell_hits_upto, collides_at, cycle_matches,
    draw_collision, draw_screen, execute_matches, font_byte, glyph_row, hit_at, initial_state,
    idx_add, lemma_flat_join, lemma_flat_split, lemma_hits_upto_add, lemma_hits_upto_full,
    lemma_hits_upto_row, lemma_hits_upto_step, lemma_no_earlier_hit, lemma_opcode_fields,
    load_regs_v, loaded_mem, lowest_pressed, lowest_pressed_from, nib1, nib2, nib3, nib4,
    pc_minus_2, pick5, reset_state, skip_if, spec_fetch, sprite_bit, store_regs_mem, ticked,
    with_reg, wrap_add_u8, wrap_sub_u8,
};

verus! {

/// The CHIP-8 machine: 4096 bytes of memory, 16 registers, a 16-slot
/// call stack, two timers, 16 key flags and a 64 x 32 framebuffer.
///
/// Its abstraction is [`Chip8View`]; every operation's contract speaks
/// of `self@`.
pub struct Chip8 {
    memory: Vec<u8>,
    v_reg: Vec<u8>,
    i_reg: u16,
    sp: u16,
    pc: u16,
    stack: Vec<u16>,
    delay_timer: u8,
    sound_timer: u8,
    keys: Vec<bool>,
    screen: Vec<bool>,
}

impl View for Chip8 {
    type V = Chip8View;

    closed spec fn view(&self) -> Chip8View {
        Chip8View {
            memory: self.memory@,
            v: self.v_reg@,
            i: self.i_reg,
            sp: self.sp,
            pc: self.pc,
            stack: self.stack@,
            delay: self.delay_timer,
            sound: self.sound_timer,
            keys: self.keys@,
            screen: self.screen@,
        }
    }
}

/// Relies on rand::random: one uniformly distributed byte from the
/// process-wide generator. Nothing is assumed of the value; callers
/// state what holds whatever byte came back.
#[verifier::external_body]
fn random_byte() -> u8 {
    rand::random::<u8>()
}

/// A vector of `n` copies of `val`.
fn filled<T: Copy>(n: usize, val: T) -> (v: Vec<T>)
    ensures
        v@.len() == n,
        forall|k: int| 0 <= k < n ==> v@[k] == val,
{
    let mut v: Vec<T> = Vec::new();
    while v.len() < n
        invariant
            v@.len() <= n,
            forall|k: int| 0 <= k < v@.len() ==> v@[k] == val,
        decreases n - v@.len(),
    {
        v.push(val);
    }
    v
}

/// One of five bytes by row index.
fn row_pick(r: u8, a: u8, b: u8, c: u8, d: u8, e: u8) -> (out: u8)
    requires
        r < 5,
    ensures
        out == pick5(r as int, a, b, c, d, e),
{
    if r == 0 {
        a
    } else if r == 1 {
        b
    } else if r == 2 {
        c
    } else if r == 3 {
        d
    } else {
        e
    }
}

/// Row `r` of the built-in glyph for digit `g`.
fn glyph_byte(g: u8, r: u8) -> (out: u8)
    requires
        g < 16,
        r < 5,
    ensures
        out == glyph_row(g as int, r as int),
{
    if g == 0x0 {
        row_pick(r, 0xF0, 0x90, 0x90, 0x90, 0xF0)
    } else if g == 0x1 {
        row_pick(r, 0x20, 0x60, 0x20, 0x20, 0x70)
    } else if g == 0x2 {
        row_pick(r, 0xF0, 0x10, 0xF0, 0x80, 0xF0)
    } else if g == 0x3 {
        row_pick(r, 0xF0, 0x10, 0xF0, 0x10, 0xF0)
    } else if g == 0x4 {
        row_pick(r, 0x90, 0x90, 0xF0, 0x10, 0x10)
    } else if g == 0x5 {
        row_pick(r, 0xF0, 0x80, 0xF0, 0x10, 0xF0)
    } else if g == 0x6 {
        row_pick(r, 0xF0, 0x80, 0xF0, 0x90, 0xF0)
    } else if g == 0x7 {
        row_pick(r, 0xF0, 0x10, 0x20, 0x40, 0x40)
    } else if g == 0x8 {
        row_pick(r, 0xF0, 0x90, 0xF0, 0x90, 0xF0)
    } else if g == 0x9 {
        row_pick(r, 0xF0, 0x90, 0xF0, 0x10, 0xF0)
    } else if g == 0xA {
        row_pick(r, 0xF0, 0x90, 0xF0, 0x90, 0x90)
    } else if g == 0xB {
        row_pick(r, 0xE0, 0x90, 0xE0, 0x90, 0xE0)
    } else if g == 0xC {
        row_pick(r, 0xF0, 0x80, 0x80, 0x80, 0xF0)
    } else if g == 0xD {
        row_pick(r, 0xE0, 0x90, 0x90, 0x90, 0xE0)
    } else if g == 0xE {
        row_pick(r, 0xF0, 0x80, 0xF0, 0x80, 0xF0)
    } else {
        row_pick(r, 0xF0, 0x80, 0xF0, 0x80, 0x80)
    }
}

impl Chip8 {
    /// A fresh machine: everything zeroed, the font installed at
    /// address 0, PC at the program start address.
    pub fn new() -> (c: Chip8)
        ensures
            c@ == initial_state(),
            c@.wf(),
    {
        let mut memory = filled::<u8>(4096, 0);
        let mut k: usize = 0;
        while k < 80
            invariant
                k <= 80,
                memory@.len() == 4096,
                forall|a: int| 0 <= a < k ==> memory@[a] == font_byte(a),
                forall|a: int| k <= a < 4096 ==> memory@[a] == 0u8,
            decreases 80 - k,
        {
            memory[k] = glyph_byte((k / 5) as u8, (k % 5) as u8);
            k += 1;
        }
        let c = Chip8 {
            memory,
            v_reg: filled::<u8>(16, 0),
            i_reg: 0,
            sp: 0,
            pc: 0x200,
            stack: filled::<u16>(16, 0),
            delay_timer: 0,
            sound_timer: 0,
            keys: filled::<bool>(16, false),
            screen: filled::<bool>(2048, false),
        };
        proof {
            assert(c@ =~~= initial_state());
        }
        c
    }

    /// Clear registers, stack, keys, screen and timers, reinstall the
    /// font, and put PC back at the start address. Memory beyond the
    /// font block - a loaded program among it - is kept.
    pub fn reset(&mut self)
        requires
            old(self)@.wf(),
        ensures
            final(self)@ == reset_state(old(self)@),
            final(self)@.wf(),
    {
        self.pc = 0x200;
        self.sp = 0;
        self.i_reg = 0;
        self.sound_timer = 0;
        self.delay_timer = 0;
        let mut k: usize = 0;
        while k < 80
            invariant
                k <= 80,
                old(self)@.memory.len() == 4096,
                self.memory@.len() == 4096,
                forall|a: int| 0 <= a < k ==> self.memory@[a] == font_byte(a),
                forall|a: int| k <= a < 4096 ==> self.memory@[a] == old(self)@.memory[a],
                self.pc == 0x200,
                self.sp == 0,
                self.i_reg == 0,
                self.delay_timer == 0,
                self.sound_timer == 0,
            decreases 80 - k,
        {
            self.memory[k] = glyph_byte((k / 5) as u8, (k % 5) as u8);
            k += 1;
        }
        self.v_reg = filled::<u8>(16, 0);
        self.stack = filled::<u16>(16, 0);
        self.keys = filled::<bool>(16, false);
        self.screen = filled::<bool>(2048, false);
        proof {
            assert(self@.memory =~= reset_state(old(self)@).memory);
            assert(self@.v =~= reset_state(old(self)@).v);
            assert(self@.stack =~= reset_state(old(self)@).stack);
            assert(self@.keys =~= reset_state(old(self)@).keys);
            assert(self@.screen =~= reset_state(old(self)@).screen);
            assert(self@ =~~= reset_state(old(self)@));
        }
    }

    /// Copy a program image into memory at the start address 0x200.
    /// Fails with `RomTooLarge`, touching nothing, when the image does
    /// not fit below the end of memory.
    pub fn load_rom(&mut self, rom: &[u8]) -> (r: Result<(), Chip8Error>)
        requires
            old(self)@.wf(),
        ensures
            final(self)@.wf(),
            rom@.len() + 0x200 <= 4096 ==> r == Ok::<(), Chip8Error>(())
                && final(self)@ == (Chip8View { memory: loaded_mem(old(self)@.memory, rom@), ..old(self)@ }),
            rom@.len() + 0x200 > 4096 ==> r == Err::<(), Chip8Error>(Chip8Error::RomTooLarge)
                && final(self)@ == old(self)@,
    {
        if rom.len() > 4096 - 0x200 {
            return Err(Chip8Error::RomTooLarge);
        }
        let mut k: usize = 0;
        while k < rom.len()
            invariant
                k <= rom@.len(),
                rom@.len() <= 4096 - 0x200,
                self.memory@.len() == 4096,
                forall|a: int| 0x200 <= a < 0x200 + k ==> self.memory@[a] == rom@[a - 0x200],
                forall|a: int| 0 <= a < 4096 && !(0x200 <= a < 0x200 + k)
                    ==> self.memory@[a] == old(self)@.memory[a],
                self.v_reg == old(self).v_reg,
                self.i_reg == old(self).i_reg,
                self.sp == old(self).sp,
                self.pc == old(self).pc,
                self.stack == old(self).stack,
                self.delay_timer == old(self).delay_timer,
                self.sound_timer == old(self).sound_timer,
                self.keys == old(self).keys,
                self.screen == old(self).screen,
            decreases rom@.len() - k,
        {
            self.memory[0x200 + k] = rom[k];
            k += 1;
        }
        proof {
            assert(self@.memory =~= loaded_mem(old(self)@.memory, rom@));
            assert(self@ =~~= (Chip8View { memory: loaded_mem(old(self)@.memory, rom@), ..old(self)@ }));
        }
        Ok(())
    }

    /// Push a return address. Fails with `StackOverflow`, touching
    /// nothing, when all 16 slots are in use.
    pub fn push_to_stack(&mut self, value: u16) -> (r: Result<(), Chip8Error>)
        requires
            old(self)@.wf(),
        ensures
            final(self)@.wf(),
            old(self)@.sp < 16 ==> r == Ok::<(), Chip8Error>(())
                && final(self)@ == (Chip8View {
                    stack: old(self)@.stack.update(old(self)@.sp as int, value),
                    sp: (old(self)@.sp + 1) as u16,
                    ..old(self)@
                }),
            old(self)@.sp >= 16 ==> r == Err::<(), Chip8Error>(Chip8Error::StackOverflow)
                && final(self)@ == old(self)@,
    {
        if self.sp >= 16 {
            return Err(Chip8Error::StackOverflow);
        }
        self.stack[self.sp as usize] = value;
        self.sp = self.sp + 1;
        proof {
            assert(self@ =~~= (Chip8View {
                stack: old(self)@.stack.update(old(self)@.sp as int, value),
                sp: (old(self)@.sp + 1) as u16,
                ..old(self)@
            }));
        }
        Ok(())
    }

    /// Pop a return address, zeroing the freed slot. Fails with
    /// `StackUnderflow`, touching nothing, when the stack is empty.
    pub fn pop_from_stack(&mut self) -> (r: Result<u16, Chip8Error>)
        requires
            old(self)@.wf(),
        ensures
            final(self)@.wf(),
            old(self)@.sp > 0 ==> r == Ok::<u16, Chip8Error>(old(self)@.stack[old(self)@.sp - 1])
                && final(self)@ == (Chip8View {
                    sp: (old(self)@.sp - 1) as u16,
                    stack: old(self)@.stack.update(old(self)@.sp - 1, 0u16),
                    ..old(self)@
                }),
            old(self)@.sp == 0 ==> r == Err::<u16, Chip8Error>(Chip8Error::StackUnderflow)
                && final(self)@ == old(self)@,
    {
        if self.sp == 0 {
            return Err(Chip8Error::StackUnderflow);
        }
        self.sp = self.sp - 1;
        let value = self.stack[self.sp as usize];
        self.stack[self.sp as usize] = 0;
        proof {
            assert(self@ =~~= (Chip8View {
                sp: (old(self)@.sp - 1) as u16,
                stack: old(self)@.stack.update(old(self)@.sp - 1, 0u16),
                ..old(self)@
            }));
        }
        Ok(value)
    }

    /// Record a key-state change from the host. Never executes an
    /// opcode as a side effect: nothing but the one flag moves.
    pub fn key_press(&mut self, keycode: usize, pressed: bool)
        requires
            old(self)@.wf(),
            keycode < 16,
        ensures
            final(self)@.wf(),
            final(self)@ == (Chip8View {
                keys: old(self)@.keys.update(keycode as int, pressed),
                ..old(self)@
            }),
    {
        self.keys[keycode] = pressed;
        proof {
            assert(self@ =~~= (Chip8View {
                keys: old(self)@.keys.update(keycode as int, pressed),
                ..old(self)@
            }));
        }
    }

    /// One 60 Hz tick: each timer decrements, clamped at zero. Driven
    /// at the fixed tick rate, independently of instruction execution.
    pub fn tick_timers(&mut self)
        requires
            old(self)@.wf(),
        ensures
            final(self)@.wf(),
            final(self)@ == (Chip8View {
                delay: ticked(old(self)@.delay),
                sound: ticked(old(self)@.sound),
                ..old(self)@
            }),
    {
        if self.delay_timer > 0 {
            self.delay_timer = self.delay_timer - 1;
        }
        if self.sound_timer > 0 {
            self.sound_timer = self.sound_timer - 1;
        }
        proof {
            assert(self@ =~~= (Chip8View {
                delay: ticked(old(self)@.delay),
                sound: ticked(old(self)@.sound),
                ..old(self)@
            }));
        }
    }

    /// Read the big-endian opcode at PC and advance PC by two; this
    /// happens before execution, so a jump may overwrite PC afterwards.
    /// Fails with `MemoryOutOfBounds`, touching nothing, when PC
    /// addresses past the end of memory.
    pub fn fetch_instruction(&mut self) -> (r: Result<u16, Chip8Error>)
        requires
            old(self)@.wf(),
        ensures
            final(self)@.wf(),
            (match spec_fetch(old(self)@) {
                Ok((op, s1)) => r == Ok::<u16, Chip8Error>(op) && final(self)@ == s1,
                Err(e) => r == Err::<u16, Chip8Error>(e) && final(self)@ == old(self)@,
            }),
    {
        if self.pc as usize + 1 >= 4096 {
            return Err(Chip8Error::MemoryOutOfBounds);
        }
        let first = self.memory[self.pc as usize];
        let second = self.memory[self.pc as usize + 1];
        let op = ((first as u16) << 8) | (second as u16);
        self.pc = self.pc + 2;
        proof {
            assert(((first as u16) << 8) | (second as u16) == first * 256 + second) by (bit_vector);
            assert(self@ =~~= (Chip8View { pc: (old(self)@.pc + 2) as u16, ..old(self)@ }));
        }
        Ok(op)
    }

    /// The DXYN draw: toggle by XOR each set bit of the N sprite rows at
    /// memory[I..I+N], at column (VX + bit) mod 64 and row (VY + row)
    /// mod 32, then set VF to 1 exactly when some lit cell was toggled
    /// off.
    fn draw_sprite(&mut self, op: u16)
        requires
            old(self)@.wf(),
            old(self)@.i + nib4(op) <= 4096,
        ensures
            final(self)@.wf(),
            final(self)@ == (Chip8View {
                screen: draw_screen(old(self)@, op),
                v: old(self)@.v.update(15, if draw_collision(old(self)@, op) { 1u8 } else { 0u8 }),
                ..old(self)@
            }),
    {
        proof {
            lemma_opcode_fields(op);
        }
        let ghost s0 = old(self)@;
        let x = ((op >> 8) & 0xF) as usize;
        let y = ((op >> 4) & 0xF) as usize;
        let n = op & 0xF;
        let x_coord = self.v_reg[x] as u16;
        let y_coord = self.v_reg[y] as u16;
        let mut collided = false;
        let mut i: u16 = 0;
        while i < n
            invariant
                s0.wf(),
                i <= n,
                n == nib4(op),
                x_coord == s0.v[nib2(op) as int],
                y_coord == s0.v[nib3(op) as int],
                x_coord < 256,
                y_coord < 256,
                s0.i + n <= 4096,
                self.memory@ == s0.memory,
                self.v_reg@ == s0.v,
                self.i_reg == s0.i,
                self.sp == s0.sp,
                self.pc == s0.pc,
                self.stack@ == s0.stack,
                self.delay_timer == s0.delay,
                self.sound_timer == s0.sound,
                self.keys@ == s0.keys,
                self.screen@.len() == 2048,
                forall|p: int| 0 <= p < 2048
                    ==> self.screen@[p] == (s0.screen[p] != #[trigger] cell_hits_upto(s0, op, i as int, 0, p)),
                collided == exists|p: int| 0 <= p < 2048 && s0.screen[p]
                    && #[trigger] cell_hits_upto(s0, op, i as int, 0, p),
            decreases n - i,
        {
            let sprite_byte = self.memory[(self.i_reg + i) as usize];
            let mut j: u8 = 0;
            while j < 8
                invariant
                    s0.wf(),
                    i < n,
                    j <= 8,
                    n == nib4(op),
                    x_coord == s0.v[nib2(op) as int],
                    y_coord == s0.v[nib3(op) as int],
                    x_coord < 256,
                    y_coord < 256,
                    s0.i + n <= 4096,
                    sprite_byte == s0.memory[s0.i + i],
                    self.memory@ == s0.memory,
                    self.v_reg@ == s0.v,
                    self.i_reg == s0.i,
                    self.sp == s0.sp,
                    self.pc == s0.pc,
                    self.stack@ == s0.stack,
                    self.delay_timer == s0.delay,
                    self.sound_timer == s0.sound,
                    self.keys@ == s0.keys,
                    self.screen@.len() == 2048,
                    forall|p: int| 0 <= p < 2048
                        ==> self.screen@[p] == (s0.screen[p] != #[trigger] cell_hits_upto(s0, op, i as int, j as int, p)),
                    collided == exists|p: int| 0 <= p < 2048 && s0.screen[p]
                        && #[trigger] cell_hits_upto(s0, op, i as int, j as int, p),
                decreases 8 - j,
            {
                if sprite_byte & (0x80u8 >> j) != 0 {
                    let px = ((x_coord + j as u16) % 64) as usize;
                    let py = ((y_coord + i) % 32) as usize;
                    let idx = px + 64 * py;
                    proof {
                        lemma_flat_join(px as int, py as int);
                        assert(sprite_bit(s0.memory[s0.i + i as int], j as int));
                        assert(hit_at(s0, op, i as int, j as int, idx as int % 64, idx as int / 64));
                        lemma_no_earlier_hit(s0, op, i as int, j as int);
                        assert(!cell_hits_upto(s0, op, i as int, j as int, idx as int));
                        assert(self.screen@[idx as int] == s0.screen[idx as int]);
                    }
                    let cur = self.screen[idx];
                    if cur {
                        collided = true;
                    }
                    self.screen[idx] = !cur;
                    proof {
                        let gi = i as int;
                        let gj = j as int;
                        let gidx = idx as int;
                        lemma_hits_upto_add(s0, op, gi, gj, gidx);
                        assert forall|p: int|
                            #![trigger cell_hits_upto(s0, op, gi, gj + 1, p)]
                            #![trigger cell_hits_upto(s0, op, gi, gj, p)]
                            0 <= p < 2048 implies cell_hits_upto(s0, op, gi, gj + 1, p)
                                == (cell_hits_upto(s0, op, gi, gj, p) || p == gidx)
                        by {
                            if p != gidx {
                                lemma_flat_split(p);
                                if hit_at(s0, op, gi, gj, p % 64, p / 64) {
                                    assert(p % 64 == gidx % 64 && p / 64 == gidx / 64);
                                    assert(p == gidx);
                                }
                                lemma_hits_upto_step(s0, op, gi, gj, p);
                            }
                        };
                        if !collided {
                            assert(!s0.screen[gidx]);
                        }
                    }
                } else {
                    proof {
                        let gi = i as int;
                        let gj = j as int;
                        assert(!sprite_bit(s0.memory[s0.i + gi], gj));
                        assert forall|p: int|
                            #![trigger cell_hits_upto(s0, op, gi, gj + 1, p)]
                            #![trigger cell_hits_upto(s0, op, gi, gj, p)]
                            0 <= p < 2048 implies cell_hits_upto(s0, op, gi, gj + 1, p)
                                == cell_hits_upto(s0, op, gi, gj, p)
                        by {
                            lemma_hits_upto_step(s0, op, gi, gj, p);
                        };
                    }
                }
                j += 1;
            }
            proof {
                let gi = i as int;
                assert forall|p: int|
                    #![trigger cell_hits_upto(s0, op, gi + 1, 0, p)]
                    #![trigger cell_hits_upto(s0, op, gi, 8, p)]
                    0 <= p < 2048 implies cell_hits_upto(s0, op, gi + 1, 0, p)
                        == cell_hits_upto(s0, op, gi, 8, p)
                by {
                    lemma_hits_upto_row(s0, op, gi, p);
                };
            }
            i += 1;
        }
        let flag: u8 = if collided {
            1
        } else {
            0
        };
        self.v_reg[15] = flag;
        proof {
            let gn = nib4(op) as int;
            assert forall|p: int| 0 <= p < 2048 implies
                self.screen@[p] == (s0.screen[p] != #[trigger] cell_hits(s0, op, p))
            by {
                lemma_hits_upto_full(s0, op, p);
                assert(cell_hits_upto(s0, op, i as int, 0, p) == cell_hits_upto(s0, op, gn, 0, p));
            };
            assert(self.screen@ =~= draw_screen(s0, op));
            if collided {
                let p = choose|p: int| 0 <= p < 2048 && s0.screen[p]
                    && #[trigger] cell_hits_upto(s0, op, i as int, 0, p);
                lemma_hits_upto_full(s0, op, p);
                assert(cell_hits_upto(s0, op, i as int, 0, p) == cell_hits_upto(s0, op, gn, 0, p));
                assert(collides_at(s0, op, p));
                assert(draw_collision(s0, op));
            } else {
                if draw_collision(s0, op) {
                    let p = choose|p: int| 0 <= p < 2048 && #[trigger] collides_at(s0, op, p);
                    lemma_hits_upto_full(s0, op, p);
                    assert(cell_hits_upto(s0, op, i as int, 0, p) == cell_hits_upto(s0, op, gn, 0, p));
                    assert(s0.screen[p] && cell_hits_upto(s0, op, i as int, 0, p));
                    assert(false);
                }
            }
            assert(self@ =~~= (Chip8View {
                screen: draw_screen(s0, op),
                v: s0.v.update(15, if draw_collision(s0, op) { 1u8 } else { 0u8 }),
                ..s0
            }));
        }
    }

    /// The FX55 transfer: copy V0..=VX into memory at I..=I+X.
    fn store_registers(&mut self, x: u8)
        requires
            old(self)@.wf(),
            x < 16,
            old(self)@.i + x < 4096,
        ensures
            final(self)@.wf(),
            final(self)@ == (Chip8View { memory: store_regs_mem(old(self)@, x as int), ..old(self)@ }),
    {
        let base = self.i_reg as usize;
        let mut j: usize = 0;
        while j <= x as usize
            invariant
                j <= x as usize + 1,
                x < 16,
                base == old(self)@.i,
                old(self)@.wf(),
                old(self)@.i + x < 4096,
                self.memory@.len() == 4096,
                forall|a: int| base <= a < base + j ==> self.memory@[a] == old(self)@.v[a - base],
                forall|a: int| 0 <= a < 4096 && !(base <= a < base + j)
                    ==> self.memory@[a] == old(self)@.memory[a],
                self.v_reg == old(self).v_reg,
                self.i_reg == old(self).i_reg,
                self.sp == old(self).sp,
                self.pc == old(self).pc,
                self.stack == old(self).stack,
                self.delay_timer == old(self).delay_timer,
                self.sound_timer == old(self).sound_timer,
                self.keys == old(self).keys,
                self.screen == old(self).screen,
            decreases x as usize + 1 - j,
        {
            self.memory[base + j] = self.v_reg[j];
            j += 1;
        }
        proof {
            assert(self@.memory =~= store_regs_mem(old(self)@, x as int));
            assert(self@ =~~= (Chip8View {
                memory: store_regs_mem(old(self)@, x as int),
                ..old(self)@
            }));
        }
    }

    /// The FX65 transfer: load memory at I..=I+X into V0..=VX.
    fn load_registers(&mut self, x: u8)
        requires
            old(self)@.wf(),
            x < 16,
            old(self)@.i + x < 4096,
        ensures
            final(self)@.wf(),
            final(self)@ == (Chip8View { v: load_regs_v(old(self)@, x as int), ..old(self)@ }),
    {
        let base = self.i_reg as usize;
        let mut j: usize = 0;
        while j <= x as usize
            invariant
                j <= x as usize + 1,
                x < 16,
                base == old(self)@.i,
                old(self)@.wf(),
                old(self)@.i + x < 4096,
                self.v_reg@.len() == 16,
                forall|t: int| 0 <= t < j ==> self.v_reg@[t] == old(self)@.memory[base + t],
                forall|t: int| j <= t < 16 ==> self.v_reg@[t] == old(self)@.v[t],
                self.memory == old(self).memory,
                self.i_reg == old(self).i_reg,
                self.sp == old(self).sp,
                self.pc == old(self).pc,
                self.stack == old(self).stack,
                self.delay_timer == old(self).delay_timer,
                self.sound_timer == old(self).sound_timer,
                self.keys == old(self).keys,
                self.screen == old(self).screen,
            decreases x as usize + 1 - j,
        {
            self.v_reg[j] = self.memory[base + j];
            j += 1;
        }
        proof {
            assert(self@.v =~= load_regs_v(old(self)@, x as int));
            assert(self@ =~~= (Chip8View { v: load_regs_v(old(self)@, x as int), ..old(self)@ }));
        }
    }

    /// Decode and execute one opcode against the state, with `rnd` as
    /// the byte the random source handed over for this cycle; only CXNN
    /// reads it. The transition function's verdict is carried out
    /// exactly: a faulting opcode reports its error and touches nothing.
    pub fn execute_with(&mut self, op: u16, rnd: u8) -> (r: Result<(), Chip8Error>)
        requires
            old(self)@.wf(),
        ensures
            final(self)@.wf(),
            execute_matches(old(self)@, op, rnd, final(self)@, r),
    {
        proof {
            lemma_opcode_fields(op);
        }
        let ghost s0 = old(self)@;
        let d1 = op >> 12;
        let d2 = (op >> 8) & 0xF;
        let d3 = (op >> 4) & 0xF;
        let d4 = op & 0xF;
        let x = d2 as usize;
        let y = d3 as usize;
        let nn = (op & 0xFF) as u8;
        let nnn = op & 0xFFF;
        match (d1, d2, d3, d4) {
            (0, 0, 0, 0) => Ok(()),
            (0, 0, 0xE, 0) => {
                self.screen = filled::<bool>(2048, false);
                proof {
                    assert(self@.screen =~= blank_screen());
                    assert(self@ =~~= (Chip8View { screen: blank_screen(), ..s0 }));
                }
                Ok(())
            }
            (0, 0, 0xE, 0xE) => {
                match self.pop_from_stack() {
                    Ok(addr) => {
                        self.pc = addr;
                        proof {
                            assert(self@ =~~= (Chip8View {
                                pc: s0.stack[s0.sp - 1],
                                sp: (s0.sp - 1) as u16,
                                stack: s0.stack.update(s0.sp - 1, 0u16),
                                ..s0
                            }));
                        }
                        Ok(())
                    }
                    Err(e) => Err(e),
                }
            }
            (1, _, _, _) => {
                self.pc = nnn;
                proof {
                    assert(self@ =~~= (Chip8View { pc: nnn, ..s0 }));
                }
                Ok(())
            }
            (2, _, _, _) => {
                let ret = self.pc;
                match self.push_to_stack(ret) {
                    Ok(()) => {
                        self.pc = nnn;
                        proof {
                            assert(self@ =~~= (Chip8View {
                                stack: s0.stack.update(s0.sp as int, s0.pc),
                                sp: (s0.sp + 1) as u16,
                                pc: nnn,
                                ..s0
                            }));
                        }
                        Ok(())
                    }
                    Err(e) => Err(e),
                }
            }
            (3, _, _, _) => {
                if self.v_reg[x] == nn {
                    self.pc = self.pc.wrapping_add(2);
                }
                proof {
                    assert(self@ =~~= skip_if(s0, s0.v[nib2(op) as int] == nn));
                }
                Ok(())
            }
            (4, _, _, _) => {
                if self.v_reg[x] != nn {
                    self.pc = self.pc.wrapping_add(2);
                }
                proof {
                    assert(self@ =~~= skip_if(s0, s0.v[nib2(op) as int] != nn));
                }
                Ok(())
            }
            (5, _, _, 0) => {
                if self.v_reg[x] == self.v_reg[y] {
                    self.pc = self.pc.wrapping_add(2);
                }
                proof {
                    assert(self@ =~~= skip_if(s0, s0.v[nib2(op) as int] == s0.v[nib3(op) as int]));
                }
                Ok(())
            }
            (6, _, _, _) => {
                self.v_reg[x] = nn;
                proof {
                    assert(self@ =~~= with_reg(s0, nib2(op) as int, nn));
                }
                Ok(())
            }
            (7, _, _, _) => {
                self.v_reg[x] = self.v_reg[x].wrapping_add(nn);
                proof {
                    assert(self@ =~~= with_reg(s0, nib2(op) as int, wrap_add_u8(s0.v[nib2(op) as int], nn)));
                }
                Ok(())
            }
            (8, _, _, 0) => {
                self.v_reg[x] = self.v_reg[y];
                proof {
                    assert(self@ =~~= with_reg(s0, nib2(op) as int, s0.v[nib3(op) as int]));
                }
                Ok(())
            }
            (8, _, _, 1) => {
                self.v_reg[x] = self.v_reg[x] | self.v_reg[y];
                proof {
                    assert(self@ =~~= with_reg(s0, nib2(op) as int,
                        s0.v[nib2(op) as int] | s0.v[nib3(op) as int]));
                }
                Ok(())
            }
            (8, _, _, 2) => {
                self.v_reg[x] = self.v_reg[x] & self.v_reg[y];
                proof {
                    assert(self@ =~~= with_reg(s0, nib2(op) as int,
                        s0.v[nib2(op) as int] & s0.v[nib3(op) as int]));
                }
                Ok(())
            }
            (8, _, _, 3) => {
                self.v_reg[x] = self.v_reg[x] ^ self.v_reg[y];
                proof {
                    assert(self@ =~~= with_reg(s0, nib2(op) as int,
                        s0.v[nib2(op) as int] ^ s0.v[nib3(op) as int]));
                }
                Ok(())
            }
            (8, _, _, 4) => {
                let vx = self.v_reg[x];
                let vy = self.v_reg[y];
                let flag: u8 = if vx as u16 + vy as u16 > 255 {
                    1
                } else {
                    0
                };
                self.v_reg[x] = vx.wrapping_add(vy);
                self.v_reg[15] = flag;
                proof {
                    assert(self@ =~~= (Chip8View {
                        v: s0.v.update(nib2(op) as int, wrap_add_u8(vx, vy)).update(15, flag),
                        ..s0
                    }));
                }
                Ok(())
            }
            (8, _, _, 5) => {
                let vx = self.v_reg[x];
                let vy = self.v_reg[y];
                let flag: u8 = if vx >= vy {
                    1
                } else {
                    0
                };
                self.v_reg[x] = vx.wrapping_sub(vy);
                self.v_reg[15] = flag;
                proof {
                    assert(self@ =~~= (Chip8View {
                        v: s0.v.update(nib2(op) as int, wrap_sub_u8(vx, vy)).update(15, flag),
                        ..s0
                    }));
                }
                Ok(())
            }
            (8, _, _, 6) => {
                let vx = self.v_reg[x];
                let lsb = vx & 1;
                self.v_reg[x] = vx >> 1;
                self.v_reg[15] = lsb;
                proof {
                    assert(vx >> 1 == vx / 2 && (vx & 1) == vx % 2) by (bit_vector);
                    assert(self@ =~~= (Chip8View {
                        v: s0.v.update(nib2(op) as int, (vx / 2) as u8).update(15, (vx % 2) as u8),
                        ..s0
                    }));
                }
                Ok(())
            }
            (8, _, _, 7) => {
                let vx = self.v_reg[x];
                let vy = self.v_reg[y];
                let flag: u8 = if vy >= vx {
                    1
                } else {
                    0
                };
                self.v_reg[x] = vy.wrapping_sub(vx);
                self.v_reg[15] = flag;
                proof {
                    assert(self@ =~~= (Chip8View {
                        v: s0.v.update(nib2(op) as int, wrap_sub_u8(vy, vx)).update(15, flag),
                        ..s0
                    }));
                }
                Ok(())
            }
            (8, _, _, 0xE) => {
                let vx = self.v_reg[x];
                let msb = (vx >> 7) & 1;
                self.v_reg[x] = vx << 1;
                self.v_reg[15] = msb;
                proof {
                    assert(vx << 1 == wrap_add_u8(vx, vx) && ((vx >> 7) & 1) == vx / 128)
                        by (bit_vector);
                    assert(self@ =~~= (Chip8View {
                        v: s0.v.update(nib2(op) as int, wrap_add_u8(vx, vx)).update(
                            15,
                            (vx / 128) as u8,
                        ),
                        ..s0
                    }));
                }
                Ok(())
            }
            (9, _, _, 0) => {
                if self.v_reg[x] != self.v_reg[y] {
                    self.pc = self.pc.wrapping_add(2);
                }
                proof {
                    assert(self@ =~~= skip_if(s0, s0.v[nib2(op) as int] != s0.v[nib3(op) as int]));
                }
                Ok(())
            }
            (0xA, _, _, _) => {
                self.i_reg = nnn;
                proof {
                    assert(self@ =~~= (Chip8View { i: nnn, ..s0 }));
                }
                Ok(())
            }
            (0xB, _, _, _) => {
                self.pc = nnn + self.v_reg[0] as u16;
                proof {
                    assert(self@ =~~= (Chip8View { pc: (nnn + s0.v[0]) as u16, ..s0 }));
                }
                Ok(())
            }
            (0xC, _, _, _) => {
                self.v_reg[x] = rnd & nn;
                proof {
                    assert(self@ =~~= with_reg(s0, nib2(op) as int, rnd & nn));
                }
                Ok(())
            }
            (0xD, _, _, _) => {
                if self.i_reg as usize + d4 as usize > 4096 {
                    return Err(Chip8Error::MemoryOutOfBounds);
                }
                self.draw_sprite(op);
                Ok(())
            }
            (0xE, _, 9, 0xE) => {
                let key = self.v_reg[x];
                if key >= 16 {
                    return Err(Chip8Error::MemoryOutOfBounds);
                }
                if self.keys[key as usize] {
                    self.pc = self.pc.wrapping_add(2);
                }
                proof {
                    assert(self@ =~~= skip_if(s0, s0.keys[s0.v[nib2(op) as int] as int]));
                }
                Ok(())
            }
            (0xE, _, 0xA, 1) => {
                let key = self.v_reg[x];
                if key >= 16 {
                    return Err(Chip8Error::MemoryOutOfBounds);
                }
                if !self.keys[key as usize] {
                    self.pc = self.pc.wrapping_add(2);
                }
                proof {
                    assert(self@ =~~= skip_if(s0, !s0.keys[s0.v[nib2(op) as int] as int]));
                }
                Ok(())
            }
            (0xF, _, 0, 7) => {
                self.v_reg[x] = self.delay_timer;
                proof {
                    assert(self@ =~~= with_reg(s0, nib2(op) as int, s0.delay));
                }
                Ok(())
            }
            (0xF, _, 1, 5) => {
                self.delay_timer = self.v_reg[x];
                proof {
                    assert(self@ =~~= (Chip8View { delay: s0.v[nib2(op) as int], ..s0 }));
                }
                Ok(())
            }
            (0xF, _, 1, 8) => {
                self.sound_timer = self.v_reg[x];
                proof {
                    assert(self@ =~~= (Chip8View { sound: s0.v[nib2(op) as int], ..s0 }));
                }
                Ok(())
            }
            (0xF, _, 1, 0xE) => {
                self.i_reg = self.i_reg.wrapping_add(self.v_reg[x] as u16);
                proof {
                    assert(self@ =~~= (Chip8View {
                        i: idx_add(s0.i, s0.v[nib2(op) as int]),
                        ..s0
                    }));
                }
                Ok(())
            }
            (0xF, _, 0, 0xA) => {
                let mut k: u8 = 16;
                let mut t: u8 = 16;
                while t > 0
                    invariant
                        t <= 16,
                        self@ == s0,
                        s0.wf(),
                        k as int == lowest_pressed_from(s0.keys, t as int),
                    decreases t,
                {
                    t = t - 1;
                    if self.keys[t as usize] {
                        k = t;
                    }
                }
                if k < 16 {
                    self.v_reg[x] = k;
                    proof {
                        assert(self@ =~~= with_reg(s0, nib2(op) as int, (lowest_pressed(s0.keys)) as u8));
                    }
                } else {
                    self.pc = self.pc.wrapping_sub(2);
                    proof {
                        assert(self@ =~~= (Chip8View { pc: pc_minus_2(s0.pc), ..s0 }));
                    }
                }
                Ok(())
            }
            (0xF, _, 2, 9) => {
                self.i_reg = self.v_reg[x] as u16 * 5;
                proof {
                    assert(self@ =~~= (Chip8View { i: (s0.v[nib2(op) as int] * 5) as u16, ..s0 }));
                }
                Ok(())
            }
            (0xF, _, 3, 3) => {
                if self.i_reg >= 4094 {
                    return Err(Chip8Error::MemoryOutOfBounds);
                }
                let vx = self.v_reg[x];
                let base = self.i_reg as usize;
                self.memory[base] = vx / 100;
                self.memory[base + 1] = (vx / 10) % 10;
                self.memory[base + 2] = vx % 10;
                proof {
                    assert(self@ =~~= (Chip8View {
                        memory: s0.memory
                            .update(s0.i as int, (vx / 100) as u8)
                            .update(s0.i + 1, ((vx / 10) % 10) as u8)
                            .update(s0.i + 2, (vx % 10) as u8),
                        ..s0
                    }));
                }
                Ok(())
            }
            (0xF, _, 5, 5) => {
                let x8 = d2 as u8;
                if self.i_reg as usize + x8 as usize >= 4096 {
                    return Err(Chip8Error::MemoryOutOfBounds);
                }
                self.store_registers(x8);
                Ok(())
            }
            (0xF, _, 6, 5) => {
                let x8 = d2 as u8;
                if self.i_reg as usize + x8 as usize >= 4096 {
                    return Err(Chip8Error::MemoryOutOfBounds);
                }
                self.load_registers(x8);
                Ok(())
            }
            _ => Err(Chip8Error::InvalidOpcode(op)),
        }
    }

    /// Decode and execute one opcode, drawing this cycle's random byte
    /// from the process-wide generator. Nothing is known of that byte,
    /// so the contract promises what holds whatever came back: the
    /// state moved as the transition function says for some byte.
    /// [`Chip8::execute_with`] carries the exact contract for a given
    /// byte.
    pub fn execute_instruction(&mut self, op: u16) -> (r: Result<(), Chip8Error>)
        requires
            old(self)@.wf(),
        ensures
            final(self)@.wf(),
            exists|rnd: u8| #[trigger] execute_matches(old(self)@, op, rnd, final(self)@, r),
    {
        let rnd = random_byte();
        let r = self.execute_with(op, rnd);
        proof {
            assert(execute_matches(old(self)@, op, rnd, self@, r));
        }
        r
    }

    /// One interpreter cycle: fetch the opcode at PC, then execute it.
    /// A fetch fault moves nothing; an execute fault leaves the fetch's
    /// PC advance in place and nothing else, as `spec_cycle` says.
    pub fn step(&mut self) -> (r: Result<(), Chip8Error>)
        requires
            old(self)@.wf(),
        ensures
            final(self)@.wf(),
            exists|rnd: u8| #[trigger] cycle_matches(old(self)@, rnd, final(self)@, r),
    {
        let fetched = self.fetch_instruction();
        match fetched {
            Err(e) => {
                proof {
                    assert(cycle_matches(old(self)@, 0u8, self@, Err::<(), Chip8Error>(e)));
                }
                Err(e)
            }
            Ok(op) => {
                let ghost smid = self@;
                let r = self.execute_instruction(op);
                proof {
                    let rnd = choose|rnd: u8| #[trigger] execute_matches(smid, op, rnd, self@, r);
                    assert(cycle_matches(old(self)@, rnd, self@, r));
                }
                r
            }
        }
    }

    // -----------------------------------------------------------------
    // Read-only accessors for the host loop, the renderer and tests.
    // -----------------------------------------------------------------

    /// The program counter.
    pub fn pc(&self) -> (r: u16)
        ensures
            r == self@.pc,
    {
        self.pc
    }

    /// The index register I.
    pub fn i_reg(&self) -> (r: u16)
        ensures
            r == self@.i,
    {
        self.i_reg
    }

    /// The stack pointer: how many return addresses are on the stack.
    pub fn sp(&self) -> (r: u16)
        ensures
            r == self@.sp,
    {
        self.sp
    }

    /// General register VX.
    pub fn v(&self, x: u8) -> (r: u8)
        requires
            self@.wf(),
            x < 16,
        ensures
            r == self@.v[x as int],
    {
        self.v_reg[x as usize]
    }

    /// The delay timer.
    pub fn delay_timer(&self) -> (r: u8)
        ensures
            r == self@.delay,
    {
        self.delay_timer
    }

    /// The sound timer.
    pub fn sound_timer(&self) -> (r: u8)
        ensures
            r == self@.sound,
    {
        self.sound_timer
    }

    /// The memory byte at `addr`.
    pub fn mem(&self, addr: u16) -> (r: u8)
        requires
            self@.wf(),
            addr < 4096,
        ensures
            r == self@.memory[addr as int],
    {
        self.memory[addr as usize]
    }

    /// The pressed-flag of key `k`.
    pub fn key(&self, k: u8) -> (r: bool)
        requires
            self@.wf(),
            k < 16,
        ensures
            r == self@.keys[k as int],
    {
        self.keys[k as usize]
    }

    /// The framebuffer cell at column `col`, row `row`; `true` is a lit
    /// pixel. The renderer reads the screen through this.
    pub fn pixel(&self, col: usize, row: usize) -> (r: bool)
        requires
            self@.wf(),
            col < 64,
            row < 32,
        ensures
            r == self@.screen[row * 64 + col],
    {
        self.screen[row * 64 + col]
    }
}

} // verus!
