//! The mathematical model of the machine: a ghost state record and the
//! transition function that says what one fetched opcode does to it.
//!
//! Every executable operation of the interpreter is specified against
//! `spec_execute`, `spec_fetch` and `spec_cycle`, so the opcode table
//! lives here once, as mathematics, and the executable code is proved
//! to implement it.

use vstd::prelude::*;

use crate::error::Chip8Error;

verus! {

/// The whole machine state as mathematics: memory and registers as
/// sequences and scalars, the framebuffer as a row-major sequence of
/// 64 x 32 = 2048 cells.
#[verifier::ext_equal]
pub struct Chip8View {
    /// 4096 bytes of memory; the font lives at 0x000..0x050, programs at 0x200.
    pub memory: Seq<u8>,
    /// The 16 general registers V0..VF; VF doubles as the flag register.
    pub v: Seq<u8>,
    /// The 16-bit index register I.
    pub i: u16,
    /// The stack pointer: the number of return addresses on the stack.
    pub sp: u16,
    /// The 16-bit program counter.
    pub pc: u16,
    /// The 16 call-stack slots; slots at index >= sp are unused.
    pub stack: Seq<u16>,
    /// The delay timer, counted down at the fixed tick rate, clamped at 0.
    pub delay: u8,
    /// The sound timer, counted down at the fixed tick rate, clamped at 0.
    pub sound: u8,
    /// One pressed-flag per hexadecimal key 0..F.
    pub keys: Seq<bool>,
    /// The framebuffer, row-major: cell (col, row) is at index col + 64 * row.
    pub screen: Seq<bool>,
}

impl Chip8View {
    /// Well-formedness: every store has its declared capacity and the
    /// stack pointer never passes the end of the stack.
    pub open spec fn wf(self) -> bool {
        &&& self.memory.len() == 4096
        &&& self.v.len() == 16
        &&& self.stack.len() == 16
        &&& self.keys.len() == 16
        &&& self.screen.len() == 2048
        &&& self.sp <= 16
    }
}

// ---------------------------------------------------------------------
// Opcode decomposition: the four nibbles and the derived operand fields.
// ---------------------------------------------------------------------

/// Nibble 1, bits 12..16: the leading dispatch digit.
pub open spec fn nib1(op: u16) -> u16 {
    op >> 12
}

/// Nibble 2, bits 8..12: the X register index.
pub open spec fn nib2(op: u16) -> u16 {
    (op >> 8) & 0xF
}

/// Nibble 3, bits 4..8: the Y register index.
pub open spec fn nib3(op: u16) -> u16 {
    (op >> 4) & 0xF
}

/// Nibble 4, bits 0..4: the trailing dispatch digit / sprite height N.
pub open spec fn nib4(op: u16) -> u16 {
    op & 0xF
}

/// The 12-bit address operand NNN.
pub open spec fn addr_nnn(op: u16) -> u16 {
    op & 0xFFF
}

/// The 8-bit immediate operand NN.
pub open spec fn byte_nn(op: u16) -> u8 {
    (op & 0xFF) as u8
}

/// The arithmetic reading of the four nibbles: bounds of each field and
/// how they compose back into the opcode word.
pub proof fn lemma_opcode_fields(op: u16)
    by (bit_vector)
    ensures
        nib1(op) < 16,
        nib2(op) < 16,
        nib3(op) < 16,
        nib4(op) < 16,
        addr_nnn(op) < 0x1000,
        op == nib1(op) * 0x1000 + addr_nnn(op),
        addr_nnn(op) == nib2(op) * 0x100 + nib3(op) * 0x10 + nib4(op),
        byte_nn(op) == nib3(op) * 0x10 + nib4(op),
{
}

// ---------------------------------------------------------------------
// Small state-transition helpers.
// ---------------------------------------------------------------------

/// The program counter two bytes on, wrapping modulo 2^16.
pub open spec fn pc_plus_2(pc: u16) -> u16 {
    if pc + 2 > 0xFFFF {
        (pc - 0xFFFE) as u16
    } else {
        (pc + 2) as u16
    }
}

/// The program counter two bytes back, wrapping modulo 2^16.
pub open spec fn pc_minus_2(pc: u16) -> u16 {
    if pc >= 2 {
        (pc - 2) as u16
    } else {
        (pc + 0xFFFE) as u16
    }
}

/// Index-register addition I + VX, wrapping modulo 2^16.
pub open spec fn idx_add(i: u16, v: u8) -> u16 {
    if i + v > 0xFFFF {
        (i + v - 0x10000) as u16
    } else {
        (i + v) as u16
    }
}

/// Byte addition wrapping modulo 256.
pub open spec fn wrap_add_u8(a: u8, b: u8) -> u8 {
    if a + b > 255 {
        (a + b - 256) as u8
    } else {
        (a + b) as u8
    }
}

/// Byte subtraction wrapping modulo 256.
pub open spec fn wrap_sub_u8(a: u8, b: u8) -> u8 {
    if a - b < 0 {
        (a - b + 256) as u8
    } else {
        (a - b) as u8
    }
}

/// The state with register X set to `val` and nothing else changed.
pub open spec fn with_reg(s: Chip8View, x: int, val: u8) -> Chip8View {
    Chip8View { v: s.v.update(x, val), ..s }
}

/// The state after a conditional skip: the next instruction is passed
/// over exactly when `cond` holds.
pub open spec fn skip_if(s: Chip8View, cond: bool) -> Chip8View {
    if cond {
        Chip8View { pc: pc_plus_2(s.pc), ..s }
    } else {
        s
    }
}

/// A framebuffer with every cell off.
pub open spec fn blank_screen() -> Seq<bool> {
    Seq::new(2048, |p: int| false)
}

/// One 60 Hz tick of a countdown timer: decrement, clamped at zero.
pub open spec fn ticked(t: u8) -> u8 {
    if t > 0 {
        (t - 1) as u8
    } else {
        0
    }
}

/// A countdown timer after `n` ticks.
pub open spec fn ticked_n(t: u8, n: nat) -> u8
    decreases n,
{
    if n == 0 {
        t
    } else {
        ticked(ticked_n(t, (n - 1) as nat))
    }
}

// ---------------------------------------------------------------------
// Sprite drawing.
// ---------------------------------------------------------------------

/// Whether bit `j` (counted from the most significant end) of a sprite
/// row byte is set.
pub open spec fn sprite_bit(b: u8, j: int) -> bool {
    b & (0x80u8 >> (j as u8)) != 0
}

/// Whether sprite cell (row `i`, bit `j`) of the DXYN draw described by
/// `op` lands on framebuffer cell (`px`, `py`) and is set.
pub open spec fn hit_at(s: Chip8View, op: u16, i: int, j: int, px: int, py: int) -> bool {
    &&& sprite_bit(s.memory[s.i + i], j)
    &&& px == (s.v[nib2(op) as int] + j) % 64
    &&& py == (s.v[nib3(op) as int] + i) % 32
}

/// Whether any set sprite cell of the draw lands on framebuffer cell
/// (`px`, `py`); such a cell is toggled by the draw.
pub open spec fn sprite_hits(s: Chip8View, op: u16, px: int, py: int) -> bool {
    exists|i: int, j: int|
        0 <= i < nib4(op) && 0 <= j < 8 && #[trigger] hit_at(s, op, i, j, px, py)
}

/// [`sprite_hits`] at the flat framebuffer index `p`.
pub open spec fn cell_hits(s: Chip8View, op: u16, p: int) -> bool {
    sprite_hits(s, op, p % 64, p / 64)
}

/// Whether the draw erases the cell at flat index `p`: it toggles a cell
/// that was lit.
pub open spec fn collides_at(s: Chip8View, op: u16, p: int) -> bool {
    s.screen[p] && cell_hits(s, op, p)
}

/// The framebuffer after the draw: each hit cell toggled by XOR.
pub open spec fn draw_screen(s: Chip8View, op: u16) -> Seq<bool> {
    Seq::new(2048, |p: int| s.screen[p] != cell_hits(s, op, p))
}

/// The collision flag of the draw: whether any lit cell was toggled off.
pub open spec fn draw_collision(s: Chip8View, op: u16) -> bool {
    exists|p: int| 0 <= p < 2048 && #[trigger] collides_at(s, op, p)
}

/// Whether a set sprite cell processed strictly before row `i`, bit `j`
/// - in the row-major order the draw walks - lands on cell (`px`, `py`).
/// The draw loop's invariant speaks of this partial form of
/// [`sprite_hits`].
pub open spec fn hits_upto(s: Chip8View, op: u16, i: int, j: int, px: int, py: int) -> bool {
    exists|i2: int, j2: int|
        0 <= i2 && 0 <= j2 < 8 && (i2 < i || (i2 == i && j2 < j))
            && #[trigger] hit_at(s, op, i2, j2, px, py)
}

/// [`hits_upto`] at the flat framebuffer index `p`.
pub open spec fn cell_hits_upto(s: Chip8View, op: u16, i: int, j: int, p: int) -> bool {
    hits_upto(s, op, i, j, p % 64, p / 64)
}

/// With every row processed, the partial form is the whole draw.
pub proof fn lemma_hits_upto_full(s: Chip8View, op: u16, p: int)
    ensures
        cell_hits_upto(s, op, nib4(op) as int, 0, p) == cell_hits(s, op, p),
{
    let n = nib4(op) as int;
    let px = p % 64;
    let py = p / 64;
    if hits_upto(s, op, n, 0, px, py) {
        let (i2, j2) = choose|i2: int, j2: int|
            0 <= i2 && 0 <= j2 < 8 && (i2 < n || (i2 == n && j2 < 0))
                && #[trigger] hit_at(s, op, i2, j2, px, py);
        assert(0 <= i2 < n && 0 <= j2 < 8 && hit_at(s, op, i2, j2, px, py));
    }
    if sprite_hits(s, op, px, py) {
        let (i2, j2) = choose|i2: int, j2: int|
            0 <= i2 < n && 0 <= j2 < 8 && #[trigger] hit_at(s, op, i2, j2, px, py);
        assert(0 <= i2 && 0 <= j2 < 8 && (i2 < n || (i2 == n && j2 < 0))
            && hit_at(s, op, i2, j2, px, py));
    }
}

/// Processing a sprite cell that does not land on `p` leaves the
/// partial-draw predicate at `p` unchanged.
pub proof fn lemma_hits_upto_step(s: Chip8View, op: u16, i: int, j: int, p: int)
    requires
        0 <= j < 8,
        !hit_at(s, op, i, j, p % 64, p / 64),
    ensures
        cell_hits_upto(s, op, i, j + 1, p) == cell_hits_upto(s, op, i, j, p),
{
    let px = p % 64;
    let py = p / 64;
    if hits_upto(s, op, i, j + 1, px, py) {
        let (i2, j2) = choose|i2: int, j2: int|
            0 <= i2 && 0 <= j2 < 8 && (i2 < i || (i2 == i && j2 < j + 1))
                && #[trigger] hit_at(s, op, i2, j2, px, py);
        assert(!(i2 == i && j2 == j));
        assert(0 <= i2 && 0 <= j2 < 8 && (i2 < i || (i2 == i && j2 < j))
            && hit_at(s, op, i2, j2, px, py));
    }
    if hits_upto(s, op, i, j, px, py) {
        let (i2, j2) = choose|i2: int, j2: int|
            0 <= i2 && 0 <= j2 < 8 && (i2 < i || (i2 == i && j2 < j))
                && #[trigger] hit_at(s, op, i2, j2, px, py);
        assert(0 <= i2 && 0 <= j2 < 8 && (i2 < i || (i2 == i && j2 < j + 1))
            && hit_at(s, op, i2, j2, px, py));
    }
}

/// Processing a sprite cell that does land on `p` makes the
/// partial-draw predicate at `p` hold.
pub proof fn lemma_hits_upto_add(s: Chip8View, op: u16, i: int, j: int, p: int)
    requires
        0 <= i,
        0 <= j < 8,
        hit_at(s, op, i, j, p % 64, p / 64),
    ensures
        cell_hits_upto(s, op, i, j + 1, p),
{
    assert(0 <= i && 0 <= j < 8 && (i < i || (i == i && j < j + 1))
        && hit_at(s, op, i, j, p % 64, p / 64));
}

/// A finished row: everything before bit 8 of row `i` is everything
/// before bit 0 of row `i + 1`.
pub proof fn lemma_hits_upto_row(s: Chip8View, op: u16, i: int, p: int)
    ensures
        cell_hits_upto(s, op, i, 8, p) == cell_hits_upto(s, op, i + 1, 0, p),
{
    let px = p % 64;
    let py = p / 64;
    if hits_upto(s, op, i, 8, px, py) {
        let (i2, j2) = choose|i2: int, j2: int|
            0 <= i2 && 0 <= j2 < 8 && (i2 < i || (i2 == i && j2 < 8))
                && #[trigger] hit_at(s, op, i2, j2, px, py);
        assert(0 <= i2 && 0 <= j2 < 8 && (i2 < i + 1 || (i2 == i + 1 && j2 < 0))
            && hit_at(s, op, i2, j2, px, py));
    }
    if hits_upto(s, op, i + 1, 0, px, py) {
        let (i2, j2) = choose|i2: int, j2: int|
            0 <= i2 && 0 <= j2 < 8 && (i2 < i + 1 || (i2 == i + 1 && j2 < 0))
                && #[trigger] hit_at(s, op, i2, j2, px, py);
        assert(0 <= i2 && 0 <= j2 < 8 && (i2 < i || (i2 == i && j2 < 8))
            && hit_at(s, op, i2, j2, px, py));
    }
}

/// A flat framebuffer index splits into its column and row.
pub proof fn lemma_flat_split(p: int)
    requires
        0 <= p < 2048,
    ensures
        0 <= p % 64 < 64,
        0 <= p / 64 < 32,
        p == 64 * (p / 64) + p % 64,
{
    vstd::arithmetic::div_mod::lemma_fundamental_div_mod(p, 64);
    vstd::arithmetic::div_mod::lemma_mod_division_less_than_divisor(p, 64);
    if p / 64 < 0 || p / 64 >= 32 {
        assert(false) by (nonlinear_arith)
            requires
                0 <= p < 2048,
                p == 64 * (p / 64) + p % 64,
                0 <= p % 64 < 64,
                p / 64 < 0 || p / 64 >= 32,
        ;
    }
}

/// A column and a row compose into their flat framebuffer index.
pub proof fn lemma_flat_join(px: int, py: int)
    requires
        0 <= px < 64,
        0 <= py < 32,
    ensures
        0 <= px + 64 * py < 2048,
        (px + 64 * py) % 64 == px,
        (px + 64 * py) / 64 == py,
{
    vstd::arithmetic::div_mod::lemma_fundamental_div_mod_converse(px + 64 * py, 64, py, px);
}

/// Distinct offsets below the modulus land on distinct residues.
pub proof fn lemma_mod_distinct(a: int, d1: int, d2: int, m: int)
    requires
        m > 0,
        0 <= a,
        0 <= d1 < m,
        0 <= d2 < m,
        d1 != d2,
    ensures
        (a + d1) % m != (a + d2) % m,
{
    vstd::arithmetic::div_mod::lemma_fundamental_div_mod(a + d1, m);
    vstd::arithmetic::div_mod::lemma_fundamental_div_mod(a + d2, m);
    vstd::arithmetic::div_mod::lemma_mod_division_less_than_divisor(a + d1, m);
    vstd::arithmetic::div_mod::lemma_mod_division_less_than_divisor(a + d2, m);
    if (a + d1) % m == (a + d2) % m {
        let k = (a + d2) / m - (a + d1) / m;
        assert(d2 - d1 == m * k) by (nonlinear_arith)
            requires
                a + d1 == m * ((a + d1) / m) + (a + d1) % m,
                a + d2 == m * ((a + d2) / m) + (a + d2) % m,
                (a + d1) % m == (a + d2) % m,
                k == (a + d2) / m - (a + d1) / m,
        ;
        assert(false) by (nonlinear_arith)
            requires
                d2 - d1 == m * k,
                0 <= d1 < m,
                0 <= d2 < m,
                d1 != d2,
                m > 0,
        ;
    }
}

/// In one draw no two sprite cells land on the same framebuffer cell:
/// the rows are distinct modulo 32 (the height is at most 15) and the
/// bits are distinct modulo 64. So no cell processed before row `i`,
/// bit `j` lies where that sprite cell lands.
pub proof fn lemma_no_earlier_hit(s: Chip8View, op: u16, i: int, j: int)
    requires
        s.wf(),
        0 <= i < nib4(op),
        0 <= j < 8,
    ensures
        !hits_upto(s, op, i, j,
            (s.v[nib2(op) as int] + j) % 64,
            (s.v[nib3(op) as int] + i) % 32),
{
    let px = (s.v[nib2(op) as int] + j) % 64;
    let py = (s.v[nib3(op) as int] + i) % 32;
    lemma_opcode_fields(op);
    if hits_upto(s, op, i, j, px, py) {
        let (i2, j2) = choose|i2: int, j2: int|
            0 <= i2 && 0 <= j2 < 8 && (i2 < i || (i2 == i && j2 < j))
                && #[trigger] hit_at(s, op, i2, j2, px, py);
        if i2 == i {
            lemma_mod_distinct(s.v[nib2(op) as int] as int, j2, j, 64);
        } else {
            lemma_mod_distinct(s.v[nib3(op) as int] as int, i2, i, 32);
        }
    }
}

// ---------------------------------------------------------------------
// Register-file / memory block transfers.
// ---------------------------------------------------------------------

/// Memory after FX55: bytes I..=I+X replaced by V0..=VX.
pub open spec fn store_regs_mem(s: Chip8View, x: int) -> Seq<u8> {
    Seq::new(4096, |a: int| if s.i <= a <= s.i + x { s.v[a - s.i] } else { s.memory[a] })
}

/// Registers after FX65: V0..=VX replaced by memory at I..=I+X.
pub open spec fn load_regs_v(s: Chip8View, x: int) -> Seq<u8> {
    Seq::new(16, |j: int| if j <= x { s.memory[s.i + j] } else { s.v[j] })
}

// ---------------------------------------------------------------------
// The keypad scan of FX0A.
// ---------------------------------------------------------------------

/// The lowest pressed key index at or above `k`, or 16 when none is
/// pressed.
pub open spec fn lowest_pressed_from(keys: Seq<bool>, k: int) -> int
    decreases 16 - k when k <= 16
{
    if k >= 16 {
        16
    } else if keys[k] {
        k
    } else {
        lowest_pressed_from(keys, k + 1)
    }
}

/// The lowest pressed key index, or 16 when none is pressed.
pub open spec fn lowest_pressed(keys: Seq<bool>) -> int {
    lowest_pressed_from(keys, 0)
}

// ---------------------------------------------------------------------
// The transition function: what one opcode does to the state.
// ---------------------------------------------------------------------

/// The 8XY_ arithmetic/logic family. The flag write of 8XY4/5/6/7/E
/// lands after the result write, so VF always ends holding the flag,
/// also when X is F.
pub open spec fn spec_execute_alu(s: Chip8View, op: u16) -> Result<Chip8View, Chip8Error> {
    let x = nib2(op) as int;
    let y = nib3(op) as int;
    let vx = s.v[x];
    let vy = s.v[y];
    if nib4(op) == 0x0 {
        Ok(with_reg(s, x, vy))
    } else if nib4(op) == 0x1 {
        Ok(with_reg(s, x, vx | vy))
    } else if nib4(op) == 0x2 {
        Ok(with_reg(s, x, vx & vy))
    } else if nib4(op) == 0x3 {
        Ok(with_reg(s, x, vx ^ vy))
    } else if nib4(op) == 0x4 {
        let flag: u8 = if vx + vy > 255 { 1u8 } else { 0u8 };
        Ok(Chip8View { v: s.v.update(x, wrap_add_u8(vx, vy)).update(15, flag), ..s })
    } else if nib4(op) == 0x5 {
        let flag: u8 = if vx >= vy { 1u8 } else { 0u8 };
        Ok(Chip8View { v: s.v.update(x, wrap_sub_u8(vx, vy)).update(15, flag), ..s })
    } else if nib4(op) == 0x6 {
        Ok(Chip8View { v: s.v.update(x, (vx / 2) as u8).update(15, (vx % 2) as u8), ..s })
    } else if nib4(op) == 0x7 {
        let flag: u8 = if vy >= vx { 1u8 } else { 0u8 };
        Ok(Chip8View { v: s.v.update(x, wrap_sub_u8(vy, vx)).update(15, flag), ..s })
    } else if nib4(op) == 0xE {
        Ok(Chip8View { v: s.v.update(x, wrap_add_u8(vx, vx)).update(15, (vx / 128) as u8), ..s })
    } else {
        Err(Chip8Error::InvalidOpcode(op))
    }
}

/// The FX__ family: timers, keypad wait, font addressing, BCD, and the
/// register-file transfers.
pub open spec fn spec_execute_misc(s: Chip8View, op: u16) -> Result<Chip8View, Chip8Error> {
    let x = nib2(op) as int;
    let nn = byte_nn(op);
    if nn == 0x07 {
        Ok(with_reg(s, x, s.delay))
    } else if nn == 0x15 {
        Ok(Chip8View { delay: s.v[x], ..s })
    } else if nn == 0x18 {
        Ok(Chip8View { sound: s.v[x], ..s })
    } else if nn == 0x1E {
        Ok(Chip8View { i: idx_add(s.i, s.v[x]), ..s })
    } else if nn == 0x0A {
        if lowest_pressed(s.keys) < 16 {
            Ok(with_reg(s, x, lowest_pressed(s.keys) as u8))
        } else {
            Ok(Chip8View { pc: pc_minus_2(s.pc), ..s })
        }
    } else if nn == 0x29 {
        Ok(Chip8View { i: (s.v[x] * 5) as u16, ..s })
    } else if nn == 0x33 {
        if s.i + 2 >= 4096 {
            Err(Chip8Error::MemoryOutOfBounds)
        } else {
            Ok(Chip8View {
                memory: s.memory
                    .update(s.i as int, (s.v[x] / 100) as u8)
                    .update(s.i + 1, ((s.v[x] / 10) % 10) as u8)
                    .update(s.i + 2, (s.v[x] % 10) as u8),
                ..s
            })
        }
    } else if nn == 0x55 {
        if s.i + x >= 4096 {
            Err(Chip8Error::MemoryOutOfBounds)
        } else {
            Ok(Chip8View { memory: store_regs_mem(s, x), ..s })
        }
    } else if nn == 0x65 {
        if s.i + x >= 4096 {
            Err(Chip8Error::MemoryOutOfBounds)
        } else {
            Ok(Chip8View { v: load_regs_v(s, x), ..s })
        }
    } else {
        Err(Chip8Error::InvalidOpcode(op))
    }
}

/// What executing one already-fetched opcode does to the state. `rnd` is
/// the byte the random source handed over for this cycle; only CXNN
/// reads it. An `Err` means the cycle faults and the state is kept.
pub open spec fn spec_execute(s: Chip8View, op: u16, rnd: u8) -> Result<Chip8View, Chip8Error> {
    let x = nib2(op) as int;
    let y = nib3(op) as int;
    let n = nib4(op) as int;
    let nn = byte_nn(op);
    let nnn = addr_nnn(op);
    if op == 0x0000 {
        Ok(s)
    } else if op == 0x00E0 {
        Ok(Chip8View { screen: blank_screen(), ..s })
    } else if op == 0x00EE {
        if s.sp == 0 {
            Err(Chip8Error::StackUnderflow)
        } else {
            Ok(Chip8View {
                pc: s.stack[s.sp - 1],
                sp: (s.sp - 1) as u16,
                stack: s.stack.update(s.sp - 1, 0u16),
                ..s
            })
        }
    } else if nib1(op) == 0x1 {
        Ok(Chip8View { pc: nnn, ..s })
    } else if nib1(op) == 0x2 {
        if s.sp >= 16 {
            Err(Chip8Error::StackOverflow)
        } else {
            Ok(Chip8View {
                stack: s.stack.update(s.sp as int, s.pc),
                sp: (s.sp + 1) as u16,
                pc: nnn,
                ..s
            })
        }
    } else if nib1(op) == 0x3 {
        Ok(skip_if(s, s.v[x] == nn))
    } else if nib1(op) == 0x4 {
        Ok(skip_if(s, s.v[x] != nn))
    } else if nib1(op) == 0x5 && nib4(op) == 0x0 {
        Ok(skip_if(s, s.v[x] == s.v[y]))
    } else if nib1(op) == 0x6 {
        Ok(with_reg(s, x, nn))
    } else if nib1(op) == 0x7 {
        Ok(with_reg(s, x, wrap_add_u8(s.v[x], nn)))
    } else if nib1(op) == 0x8 {
        spec_execute_alu(s, op)
    } else if nib1(op) == 0x9 && nib4(op) == 0x0 {
        Ok(skip_if(s, s.v[x] != s.v[y]))
    } else if nib1(op) == 0xA {
        Ok(Chip8View { i: nnn, ..s })
    } else if nib1(op) == 0xB {
        Ok(Chip8View { pc: (nnn + s.v[0]) as u16, ..s })
    } else if nib1(op) == 0xC {
        Ok(with_reg(s, x, rnd & nn))
    } else if nib1(op) == 0xD {
        if s.i + n > 4096 {
            Err(Chip8Error::MemoryOutOfBounds)
        } else {
            Ok(Chip8View {
                screen: draw_screen(s, op),
                v: s.v.update(15, if draw_collision(s, op) { 1u8 } else { 0u8 }),
                ..s
            })
        }
    } else if nib1(op) == 0xE && nib3(op) == 0x9 && nib4(op) == 0xE {
        if s.v[x] >= 16 {
            Err(Chip8Error::MemoryOutOfBounds)
        } else {
            Ok(skip_if(s, s.keys[s.v[x] as int]))
        }
    } else if nib1(op) == 0xE && nib3(op) == 0xA && nib4(op) == 0x1 {
        if s.v[x] >= 16 {
            Err(Chip8Error::MemoryOutOfBounds)
        } else {
            Ok(skip_if(s, !s.keys[s.v[x] as int]))
        }
    } else if nib1(op) == 0xF {
        spec_execute_misc(s, op)
    } else {
        Err(Chip8Error::InvalidOpcode(op))
    }
}

/// The nibble patterns that name an instruction. Everything else is a
/// fatal invalid opcode.
pub open spec fn valid_opcode(op: u16) -> bool {
    ||| op == 0x0000
    ||| op == 0x00E0
    ||| op == 0x00EE
    ||| nib1(op) == 0x1
    ||| nib1(op) == 0x2
    ||| nib1(op) == 0x3
    ||| nib1(op) == 0x4
    ||| nib1(op) == 0x5 && nib4(op) == 0x0
    ||| nib1(op) == 0x6
    ||| nib1(op) == 0x7
    ||| nib1(op) == 0x8 && (nib4(op) <= 0x7 || nib4(op) == 0xE)
    ||| nib1(op) == 0x9 && nib4(op) == 0x0
    ||| nib1(op) == 0xA
    ||| nib1(op) == 0xB
    ||| nib1(op) == 0xC
    ||| nib1(op) == 0xD
    ||| nib1(op) == 0xE && nib3(op) == 0x9 && nib4(op) == 0xE
    ||| nib1(op) == 0xE && nib3(op) == 0xA && nib4(op) == 0x1
    ||| nib1(op) == 0xF && {
        let nn = byte_nn(op);
        ||| nn == 0x07
        ||| nn == 0x15
        ||| nn == 0x18
        ||| nn == 0x1E
        ||| nn == 0x0A
        ||| nn == 0x29
        ||| nn == 0x33
        ||| nn == 0x55
        ||| nn == 0x65
    }
}

// ---------------------------------------------------------------------
// Fetch and the whole cycle.
// ---------------------------------------------------------------------

/// What the fetch does: read the big-endian opcode at PC and advance PC
/// by two, or fault when PC addresses past the end of memory.
pub open spec fn spec_fetch(s: Chip8View) -> Result<(u16, Chip8View), Chip8Error> {
    if s.pc + 1 >= 4096 {
        Err(Chip8Error::MemoryOutOfBounds)
    } else {
        Ok((
            (s.memory[s.pc as int] * 256 + s.memory[s.pc as int + 1]) as u16,
            Chip8View { pc: (s.pc + 2) as u16, ..s },
        ))
    }
}

/// One full cycle: fetch, then execute. On a fetch fault nothing moved;
/// on an execute fault the fetch has already advanced PC, as the real
/// machine does, and the opcode left the rest untouched.
pub open spec fn spec_cycle(s: Chip8View, rnd: u8) -> (Chip8View, Option<Chip8Error>) {
    match spec_fetch(s) {
        Err(e) => (s, Some(e)),
        Ok((op, s1)) => match spec_execute(s1, op, rnd) {
            Ok(s2) => (s2, None),
            Err(e) => (s1, Some(e)),
        },
    }
}

/// How an execute call relates pre-state, post-state and result: the
/// transition function's verdict is carried out exactly, and a faulting
/// opcode leaves the state untouched.
pub open spec fn execute_matches(
    pre: Chip8View,
    op: u16,
    rnd: u8,
    post: Chip8View,
    r: Result<(), Chip8Error>,
) -> bool {
    match spec_execute(pre, op, rnd) {
        Ok(s2) => r == Ok::<(), Chip8Error>(()) && post == s2,
        Err(e) => r == Err::<(), Chip8Error>(e) && post == pre,
    }
}

/// How one whole cycle relates pre-state, post-state and result.
pub open spec fn cycle_matches(
    pre: Chip8View,
    rnd: u8,
    post: Chip8View,
    r: Result<(), Chip8Error>,
) -> bool {
    &&& post == spec_cycle(pre, rnd).0
    &&& match spec_cycle(pre, rnd).1 {
        None => r == Ok::<(), Chip8Error>(()),
        Some(e) => r == Err::<(), Chip8Error>(e),
    }
}

// ---------------------------------------------------------------------
// The built-in font.
// ---------------------------------------------------------------------

/// One of five bytes by row index.
pub open spec fn pick5(r: int, a: u8, b: u8, c: u8, d: u8, e: u8) -> u8 {
    if r == 0 {
        a
    } else if r == 1 {
        b
    } else if r == 2 {
        c
    } else if r == 3 {
        d
    } else {
        e
    }
}

/// Row `r` (0..5) of the built-in glyph for hexadecimal digit `g` (0..16).
pub open spec fn glyph_row(g: int, r: int) -> u8 {
    if g == 0x0 {
        pick5(r, 0xF0, 0x90, 0x90, 0x90, 0xF0)
    } else if g == 0x1 {
        pick5(r, 0x20, 0x60, 0x20, 0x20, 0x70)
    } else if g == 0x2 {
        pick5(r, 0xF0, 0x10, 0xF0, 0x80, 0xF0)
    } else if g == 0x3 {
        pick5(r, 0xF0, 0x10, 0xF0, 0x10, 0xF0)
    } else if g == 0x4 {
        pick5(r, 0x90, 0x90, 0xF0, 0x10, 0x10)
    } else if g == 0x5 {
        pick5(r, 0xF0, 0x80, 0xF0, 0x10, 0xF0)
    } else if g == 0x6 {
        pick5(r, 0xF0, 0x80, 0xF0, 0x90, 0xF0)
    } else if g == 0x7 {
        pick5(r, 0xF0, 0x10, 0x20, 0x40, 0x40)
    } else if g == 0x8 {
        pick5(r, 0xF0, 0x90, 0xF0, 0x90, 0xF0)
    } else if g == 0x9 {
        pick5(r, 0xF0, 0x90, 0xF0, 0x10, 0xF0)
    } else if g == 0xA {
        pick5(r, 0xF0, 0x90, 0xF0, 0x90, 0x90)
    } else if g == 0xB {
        pick5(r, 0xE0, 0x90, 0xE0, 0x90, 0xE0)
    } else if g == 0xC {
        pick5(r, 0xF0, 0x80, 0x80, 0x80, 0xF0)
    } else if g == 0xD {
        pick5(r, 0xE0, 0x90, 0x90, 0x90, 0xE0)
    } else if g == 0xE {
        pick5(r, 0xF0, 0x80, 0xF0, 0x80, 0xF0)
    } else {
        pick5(r, 0xF0, 0x80, 0xF0, 0x80, 0x80)
    }
}

/// Byte `k` (0..80) of the font block installed at address 0.
pub open spec fn font_byte(k: int) -> u8 {
    glyph_row(k / 5, k % 5)
}

// ---------------------------------------------------------------------
// Lifecycle states.
// ---------------------------------------------------------------------

/// The state `new` constructs: everything zeroed, the font installed,
/// PC at the program start address 0x200.
pub open spec fn initial_state() -> Chip8View {
    Chip8View {
        memory: Seq::new(4096, |a: int| if a < 80 { font_byte(a) } else { 0u8 }),
        v: Seq::new(16, |j: int| 0u8),
        i: 0,
        sp: 0,
        pc: 0x200,
        stack: Seq::new(16, |j: int| 0u16),
        delay: 0,
        sound: 0,
        keys: Seq::new(16, |j: int| false),
        screen: Seq::new(2048, |p: int| false),
    }
}

/// The state after `reset`: registers, stack, keys, screen and timers
/// cleared, the font reinstalled, PC back at 0x200. Memory beyond the
/// font block - a loaded program among it - is kept.
pub open spec fn reset_state(s: Chip8View) -> Chip8View {
    Chip8View {
        memory: Seq::new(4096, |a: int| if a < 80 { font_byte(a) } else { s.memory[a] }),
        v: Seq::new(16, |j: int| 0u8),
        i: 0,
        sp: 0,
        pc: 0x200,
        stack: Seq::new(16, |j: int| 0u16),
        delay: 0,
        sound: 0,
        keys: Seq::new(16, |j: int| false),
        screen: Seq::new(2048, |p: int| false),
    }
}

/// Memory after a program image is copied in at the start address.
pub open spec fn loaded_mem(mem: Seq<u8>, rom: Seq<u8>) -> Seq<u8> {
    Seq::new(4096, |a: int| if 0x200 <= a < 0x200 + rom.len() { rom[a - 0x200] } else { mem[a] })
}

} // verus!
