//! The mathematical model of the machine: a ghost view of the CPU state and
//! the transition function of one fetched instruction. Every executable
//! method of `Cpu` is specified against these definitions.

use vstd::prelude::*;

use crate::cpu::ExecuteError;
use vstd::arithmetic::div_mod::{lemma_fundamental_div_mod, lemma_fundamental_div_mod_converse};

verus! {

/// Ghost image of the whole machine: memory, the 64x32 one-bit framebuffer
/// stored row-major, the sixteen general registers, the index register, the
/// program counter, the call stack with its redundant depth counter, the two
/// countdown timer values, and the address one past the last loaded program
/// byte.
#[verifier::ext_equal]
pub struct CpuView {
    pub mem: Seq<u8>,
    pub fb: Seq<u8>,
    pub regs: Seq<u8>,
    pub i: u16,
    pub pc: usize,
    pub sp: u8,
    pub stack: Seq<usize>,
    pub dt: u8,
    pub st: u8,
    pub prog_end: usize,
}

/// Well-formedness of a machine state: the sizes are fixed, every framebuffer
/// cell is a bit, the call stack never exceeds sixteen return addresses and
/// `sp` mirrors its depth, the program region ends inside memory, and the
/// program counter stays below 0x1100 (the largest value any instruction can
/// give it: a computed jump of V0 + 0xFFF, plus the advance of 2).
pub open spec fn inv(s: CpuView) -> bool {
    &&& s.mem.len() == 4096
    &&& s.fb.len() == 2048
    &&& s.regs.len() == 16
    &&& forall|p: int| 0 <= p < 2048 ==> (#[trigger] s.fb[p] == 0 || s.fb[p] == 1)
    &&& s.stack.len() <= 16
    &&& s.sp == s.stack.len()
    &&& s.prog_end <= 4096
    &&& s.pc <= 0x1100
}

// ---------------------------------------------------------------------------
// Decoding
// ---------------------------------------------------------------------------

/// Top nibble: selects the instruction family.
pub open spec fn op_fam(ins: u16) -> int {
    ins as int / 0x1000
}

/// Low twelve bits: an address operand.
pub open spec fn op_nnn(ins: u16) -> int {
    ins as int % 0x1000
}

/// Second nibble: a register number.
pub open spec fn op_x(ins: u16) -> int {
    (ins as int / 0x100) % 0x10
}

/// Third nibble: a register number.
pub open spec fn op_y(ins: u16) -> int {
    (ins as int / 0x10) % 0x10
}

/// Low byte: an immediate operand.
pub open spec fn op_kk(ins: u16) -> u8 {
    (ins as int % 0x100) as u8
}

/// Low nibble: a count or sub-opcode.
pub open spec fn op_n(ins: u16) -> int {
    ins as int % 0x10
}

/// The two bytes at the program counter, big-endian, if both are in memory.
pub open spec fn fetch(s: CpuView) -> Option<u16> {
    if s.pc + 1 < s.mem.len() {
        Some((s.mem[s.pc as int] * 256 + s.mem[s.pc + 1]) as u16)
    } else {
        None
    }
}

/// A jump or return target must land inside the loaded program region.
pub open spec fn valid_jump(s: CpuView, addr: int) -> bool {
    0x200 <= addr <= s.prog_end
}

// ---------------------------------------------------------------------------
// Small state transformers
// ---------------------------------------------------------------------------

/// Advance past the current two-byte instruction.
pub open spec fn adv(s: CpuView) -> CpuView {
    CpuView { pc: (s.pc + 2) as usize, ..s }
}

/// Advance, skipping the next instruction when `c` holds.
pub open spec fn skip_if(s: CpuView, c: bool) -> CpuView {
    CpuView { pc: if c { (s.pc + 4) as usize } else { (s.pc + 2) as usize }, ..s }
}

/// Replace one general register.
pub open spec fn set_reg(s: CpuView, x: int, v: u8) -> CpuView {
    CpuView { regs: s.regs.update(x, v), ..s }
}

/// One lazy timer poll: decrement a running timer when a sixtieth of a second
/// is due, and leave it alone otherwise. A timer at zero stays at zero.
pub open spec fn count_down(v: u8, due: bool) -> u8 {
    if due && v > 0 {
        (v - 1) as u8
    } else {
        v
    }
}

/// The machine after both timers were polled once, before the fetch.
pub open spec fn ticked(s: CpuView, delay_due: bool, sound_due: bool) -> CpuView {
    CpuView { dt: count_down(s.dt, delay_due), st: count_down(s.st, sound_due), ..s }
}

// ---------------------------------------------------------------------------
// The sprite blit
// ---------------------------------------------------------------------------

/// Sprite row `r`: the byte at I + r, read through the 12-bit address space.
pub open spec fn sprite_row(mem: Seq<u8>, i: u16, r: int) -> u8 {
    mem[(i + r) % 4096]
}

/// Bit `c` of a sprite byte, counted from the most significant (leftmost) bit.
pub open spec fn sprite_bit(b: u8, c: int) -> u8 {
    (b >> ((7 - c) as u8)) & 1
}

/// Which framebuffer cells the blit has reached, walking row by row and, in
/// the row `rows`, column by column up to `cols`. The blit of `n` whole rows
/// is the instance `rows == n, cols == 0`.
pub open spec fn blit_covered(x0: int, y0: int, rows: int, cols: int, px: int, py: int) -> bool {
    &&& x0 <= px < x0 + 8
    &&& y0 <= py
    &&& (py < y0 + rows || (py == y0 + rows && px < x0 + cols))
}

/// One framebuffer cell after the partial blit: XOR with the sprite bit where
/// covered, unchanged elsewhere. Cells are addressed row-major, so `idx`
/// splits into column `idx % 64` and row `idx / 64`; a sprite pixel that
/// falls past the right or bottom edge corresponds to no cell at all, which
/// is exactly the required clipping.
pub open spec fn blit_pix_upto(
    fb: Seq<u8>,
    mem: Seq<u8>,
    i: u16,
    x0: int,
    y0: int,
    rows: int,
    cols: int,
    idx: int,
) -> u8 {
    let px = idx % 64;
    let py = idx / 64;
    if blit_covered(x0, y0, rows, cols, px, py) {
        fb[idx] ^ sprite_bit(sprite_row(mem, i, py - y0), px - x0)
    } else {
        fb[idx]
    }
}

/// The framebuffer after the partial blit.
pub open spec fn blit_fb_upto(
    fb: Seq<u8>,
    mem: Seq<u8>,
    i: u16,
    x0: int,
    y0: int,
    rows: int,
    cols: int,
) -> Seq<u8> {
    Seq::new(fb.len(), |idx: int| blit_pix_upto(fb, mem, i, x0, y0, rows, cols, idx))
}

/// The framebuffer after blitting `rows` whole sprite rows at (x0, y0).
pub open spec fn blit_fb(fb: Seq<u8>, mem: Seq<u8>, i: u16, rows: int, x0: int, y0: int) -> Seq<u8> {
    blit_fb_upto(fb, mem, i, x0, y0, rows, 0)
}

/// Whether the partial blit turned any lit cell off: some reached sprite
/// pixel lands on a cell holding 1 while its sprite bit is 1.
pub open spec fn blit_collision_upto(
    fb: Seq<u8>,
    mem: Seq<u8>,
    i: u16,
    x0: int,
    y0: int,
    rows: int,
    cols: int,
) -> bool {
    exists|r: int, c: int|
        0 <= r && 0 <= c < 8
        && (r < rows || (r == rows && c < cols))
        && y0 + r < 32 && x0 + c < 64
        && fb[(y0 + r) * 64 + (x0 + c)] == 1
        && (#[trigger] sprite_bit(sprite_row(mem, i, r), c)) == 1
}

/// Whether blitting `rows` whole sprite rows turns any lit cell off.
pub open spec fn blit_collision(fb: Seq<u8>, mem: Seq<u8>, i: u16, rows: int, x0: int, y0: int) -> bool {
    blit_collision_upto(fb, mem, i, x0, y0, rows, 0)
}

/// A bit extracted from a byte is 0 or 1.
pub proof fn lemma_bit01(b: u8, sh: u8)
    by (bit_vector)
    ensures
        ((b >> sh) & 1) == 0 || ((b >> sh) & 1) == 1,
{
}

/// XOR of two bits is a bit, and it clears exactly when the bits agree.
pub proof fn lemma_xor_bit(a: u8, b: u8)
    by (bit_vector)
    requires
        a < 2,
        b < 2,
    ensures
        (a ^ b) < 2,
        ((a ^ b) == 0) == (a == b),
{
}

/// Extending the partial collision check by one column adds exactly the test
/// of the sprite pixel at row `r`, column `c`.
pub proof fn lemma_collision_step(
    fb: Seq<u8>,
    mem: Seq<u8>,
    i: u16,
    x0: int,
    y0: int,
    r: int,
    c: int,
)
    requires
        0 <= r,
        0 <= c < 8,
    ensures
        blit_collision_upto(fb, mem, i, x0, y0, r, c + 1) == (blit_collision_upto(
            fb,
            mem,
            i,
            x0,
            y0,
            r,
            c,
        ) || (y0 + r < 32 && x0 + c < 64 && fb[(y0 + r) * 64 + (x0 + c)] == 1 && sprite_bit(
            sprite_row(mem, i, r),
            c,
        ) == 1)),
{
    if blit_collision_upto(fb, mem, i, x0, y0, r, c + 1) {
        let (rr, cc) = choose|rr: int, cc: int|
            0 <= rr && 0 <= cc < 8 && (rr < r || (rr == r && cc < c + 1)) && y0 + rr < 32 && x0
                + cc < 64 && fb[(y0 + rr) * 64 + (x0 + cc)] == 1 && (#[trigger] sprite_bit(
                sprite_row(mem, i, rr),
                cc,
            )) == 1;
        if rr < r || (rr == r && cc < c) {
            assert(blit_collision_upto(fb, mem, i, x0, y0, r, c)) by {
                assert(0 <= rr && 0 <= cc < 8 && (rr < r || (rr == r && cc < c)) && y0 + rr < 32
                    && x0 + cc < 64 && fb[(y0 + rr) * 64 + (x0 + cc)] == 1 && sprite_bit(
                    sprite_row(mem, i, rr),
                    cc,
                ) == 1);
            }
        } else {
            assert(rr == r && cc == c);
        }
    }
    if blit_collision_upto(fb, mem, i, x0, y0, r, c) {
        let (rr, cc) = choose|rr: int, cc: int|
            0 <= rr && 0 <= cc < 8 && (rr < r || (rr == r && cc < c)) && y0 + rr < 32 && x0 + cc
                < 64 && fb[(y0 + rr) * 64 + (x0 + cc)] == 1 && (#[trigger] sprite_bit(
                sprite_row(mem, i, rr),
                cc,
            )) == 1;
        assert(blit_collision_upto(fb, mem, i, x0, y0, r, c + 1)) by {
            assert(0 <= rr && 0 <= cc < 8 && (rr < r || (rr == r && cc < c + 1)) && y0 + rr < 32
                && x0 + cc < 64 && fb[(y0 + rr) * 64 + (x0 + cc)] == 1 && sprite_bit(
                sprite_row(mem, i, rr),
                cc,
            ) == 1);
        }
    }
    if y0 + r < 32 && x0 + c < 64 && fb[(y0 + r) * 64 + (x0 + c)] == 1 && sprite_bit(
        sprite_row(mem, i, r),
        c,
    ) == 1 {
        assert(blit_collision_upto(fb, mem, i, x0, y0, r, c + 1)) by {
            assert(0 <= r && 0 <= c < 8 && (r < r || (r == r && c < c + 1)) && y0 + r < 32 && x0
                + c < 64 && fb[(y0 + r) * 64 + (x0 + c)] == 1 && sprite_bit(
                sprite_row(mem, i, r),
                c,
            ) == 1);
        }
    }
}

/// A blit that has walked all eight columns of row `r` stands exactly where
/// one that is about to begin row `r + 1` stands.
pub proof fn lemma_blit_roll_row(fb: Seq<u8>, mem: Seq<u8>, i: u16, x0: int, y0: int, r: int)
    requires
        0 <= r,
    ensures
        blit_fb_upto(fb, mem, i, x0, y0, r, 8) == blit_fb_upto(fb, mem, i, x0, y0, r + 1, 0),
        blit_collision_upto(fb, mem, i, x0, y0, r, 8) == blit_collision_upto(
            fb,
            mem,
            i,
            x0,
            y0,
            r + 1,
            0,
        ),
{
    assert forall|idx: int| 0 <= idx < fb.len() implies blit_pix_upto(fb, mem, i, x0, y0, r, 8, idx)
        == blit_pix_upto(fb, mem, i, x0, y0, r + 1, 0, idx) by {
        assert(blit_covered(x0, y0, r, 8, idx % 64, idx / 64) == blit_covered(
            x0,
            y0,
            r + 1,
            0,
            idx % 64,
            idx / 64,
        ));
    }
    assert(blit_fb_upto(fb, mem, i, x0, y0, r, 8) =~= blit_fb_upto(fb, mem, i, x0, y0, r + 1, 0));
    if blit_collision_upto(fb, mem, i, x0, y0, r, 8) {
        let (rr, cc) = choose|rr: int, cc: int|
            0 <= rr && 0 <= cc < 8 && (rr < r || (rr == r && cc < 8)) && y0 + rr < 32 && x0 + cc
                < 64 && fb[(y0 + rr) * 64 + (x0 + cc)] == 1 && (#[trigger] sprite_bit(
                sprite_row(mem, i, rr),
                cc,
            )) == 1;
        assert(blit_collision_upto(fb, mem, i, x0, y0, r + 1, 0)) by {
            assert(0 <= rr && 0 <= cc < 8 && rr < r + 1 && y0 + rr < 32 && x0 + cc < 64 && fb[(y0
                + rr) * 64 + (x0 + cc)] == 1 && sprite_bit(sprite_row(mem, i, rr), cc) == 1);
        }
    }
    if blit_collision_upto(fb, mem, i, x0, y0, r + 1, 0) {
        let (rr, cc) = choose|rr: int, cc: int|
            0 <= rr && 0 <= cc < 8 && (rr < r + 1 || (rr == r + 1 && cc < 0)) && y0 + rr < 32 && x0
                + cc < 64 && fb[(y0 + rr) * 64 + (x0 + cc)] == 1 && (#[trigger] sprite_bit(
                sprite_row(mem, i, rr),
                cc,
            )) == 1;
        assert(blit_collision_upto(fb, mem, i, x0, y0, r, 8)) by {
            assert(0 <= rr && 0 <= cc < 8 && (rr < r || (rr == r && cc < 8)) && y0 + rr < 32 && x0
                + cc < 64 && fb[(y0 + rr) * 64 + (x0 + cc)] == 1 && sprite_bit(
                sprite_row(mem, i, rr),
                cc,
            ) == 1);
        }
    }
}

/// A sprite row that falls entirely below the bottom edge leaves the blit
/// where it stood.
pub proof fn lemma_blit_row_clipped(fb: Seq<u8>, mem: Seq<u8>, i: u16, x0: int, y0: int, r: int)
    requires
        0 <= r,
        0 <= y0,
        y0 + r >= 32,
        fb.len() == 2048,
    ensures
        blit_fb_upto(fb, mem, i, x0, y0, r, 0) == blit_fb_upto(fb, mem, i, x0, y0, r + 1, 0),
        blit_collision_upto(fb, mem, i, x0, y0, r, 0) == blit_collision_upto(
            fb,
            mem,
            i,
            x0,
            y0,
            r + 1,
            0,
        ),
{
    assert forall|idx: int| 0 <= idx < fb.len() implies blit_pix_upto(fb, mem, i, x0, y0, r, 0, idx)
        == blit_pix_upto(fb, mem, i, x0, y0, r + 1, 0, idx) by {
        assert(idx / 64 < 32) by (nonlinear_arith)
            requires
                0 <= idx < 2048,
        ;
        assert(blit_covered(x0, y0, r, 0, idx % 64, idx / 64) == blit_covered(
            x0,
            y0,
            r + 1,
            0,
            idx % 64,
            idx / 64,
        ));
    }
    assert(blit_fb_upto(fb, mem, i, x0, y0, r, 0) =~= blit_fb_upto(fb, mem, i, x0, y0, r + 1, 0));
    if blit_collision_upto(fb, mem, i, x0, y0, r + 1, 0) {
        let (rr, cc) = choose|rr: int, cc: int|
            0 <= rr && 0 <= cc < 8 && (rr < r + 1 || (rr == r + 1 && cc < 0)) && y0 + rr < 32 && x0
                + cc < 64 && fb[(y0 + rr) * 64 + (x0 + cc)] == 1 && (#[trigger] sprite_bit(
                sprite_row(mem, i, rr),
                cc,
            )) == 1;
        assert(rr < r);
        assert(blit_collision_upto(fb, mem, i, x0, y0, r, 0)) by {
            assert(0 <= rr && 0 <= cc < 8 && rr < r && y0 + rr < 32 && x0 + cc < 64 && fb[(y0 + rr)
                * 64 + (x0 + cc)] == 1 && sprite_bit(sprite_row(mem, i, rr), cc) == 1);
        }
    }
    if blit_collision_upto(fb, mem, i, x0, y0, r, 0) {
        let (rr, cc) = choose|rr: int, cc: int|
            0 <= rr && 0 <= cc < 8 && (rr < r || (rr == r && cc < 0)) && y0 + rr < 32 && x0 + cc
                < 64 && fb[(y0 + rr) * 64 + (x0 + cc)] == 1 && (#[trigger] sprite_bit(
                sprite_row(mem, i, rr),
                cc,
            )) == 1;
        assert(blit_collision_upto(fb, mem, i, x0, y0, r + 1, 0)) by {
            assert(0 <= rr && 0 <= cc < 8 && rr < r + 1 && y0 + rr < 32 && x0 + cc < 64 && fb[(y0
                + rr) * 64 + (x0 + cc)] == 1 && sprite_bit(sprite_row(mem, i, rr), cc) == 1);
        }
    }
}

// ---------------------------------------------------------------------------
// Register save, restore, and the BCD store
// ---------------------------------------------------------------------------

/// Memory after storing registers V0..Vk-1 at I, I+1, ..., through the 12-bit
/// address space.
pub open spec fn store_upto(mem: Seq<u8>, i: u16, regs: Seq<u8>, k: int) -> Seq<u8>
    decreases k,
{
    if k <= 0 {
        mem
    } else {
        store_upto(mem, i, regs, k - 1).update((i + (k - 1)) % 4096, regs[k - 1])
    }
}

/// Registers after filling V0..Vk-1 from memory at I, I+1, ..., through the
/// 12-bit address space.
pub open spec fn load_upto(regs: Seq<u8>, mem: Seq<u8>, i: u16, k: int) -> Seq<u8>
    decreases k,
{
    if k <= 0 {
        regs
    } else {
        load_upto(regs, mem, i, k - 1).update(k - 1, mem[(i + (k - 1)) % 4096])
    }
}

/// Memory after the binary-coded-decimal store of `v` at I, I+1, I+2.
pub open spec fn bcd_store(mem: Seq<u8>, i: u16, v: u8) -> Seq<u8> {
    mem.update(i as int % 4096, (v / 100) as u8)
       .update((i + 1) % 4096, ((v / 10) % 10) as u8)
       .update((i + 2) % 4096, (v % 10) as u8)
}

// ---------------------------------------------------------------------------
// One instruction, family by family
// ---------------------------------------------------------------------------

/// Family 0: a SYS no-op for 0NNN with a nonzero second nibble, the screen
/// clear 00E0, and the subroutine return 00EE. A return fails on an empty
/// stack, or when the saved address no longer lands in the program region.
pub open spec fn exec_zero(s: CpuView, ins: u16) -> (CpuView, Result<bool, ExecuteError>) {
    if op_x(ins) != 0 {
        (adv(s), Ok(false))
    } else if op_kk(ins) == 0xe0 {
        (adv(CpuView { fb: Seq::new(2048, |p: int| 0u8), ..s }), Ok(false))
    } else if op_kk(ins) == 0xee {
        if s.stack.len() == 0 {
            (s, Err(ExecuteError::BadReturn(ins)))
        } else {
            let addr = s.stack.last();
            if valid_jump(s, addr as int) {
                (
                    CpuView {
                        pc: (addr + 2) as usize,
                        stack: s.stack.drop_last(),
                        sp: (s.sp - 1) as u8,
                        ..s
                    },
                    Ok(false),
                )
            } else {
                (s, Err(ExecuteError::BadJumpAddr(ins)))
            }
        }
    } else {
        (s, Err(ExecuteError::BadInstruction(ins)))
    }
}

/// 1NNN: jump, bounds-checked against the program region.
pub open spec fn exec_jump(s: CpuView, ins: u16) -> (CpuView, Result<bool, ExecuteError>) {
    if valid_jump(s, op_nnn(ins)) {
        (CpuView { pc: op_nnn(ins) as usize, ..s }, Ok(false))
    } else {
        (s, Err(ExecuteError::BadJumpAddr(ins)))
    }
}

/// 2NNN: call. The current program counter is saved; the target is not
/// bounds-checked (a bad target surfaces at the next fetch).
pub open spec fn exec_call(s: CpuView, ins: u16) -> (CpuView, Result<bool, ExecuteError>) {
    if s.stack.len() == 16 {
        (s, Err(ExecuteError::MaxCallDepthReached(ins)))
    } else {
        (
            CpuView {
                stack: s.stack.push(s.pc),
                sp: (s.sp + 1) as u8,
                pc: op_nnn(ins) as usize,
                ..s
            },
            Ok(false),
        )
    }
}

/// 3XKK / 4XKK: skip the next instruction when VX equals / differs from KK.
pub open spec fn exec_skip_imm(s: CpuView, ins: u16, want_eq: bool) -> (CpuView, Result<
    bool,
    ExecuteError,
>) {
    (skip_if(s, (s.regs[op_x(ins)] == op_kk(ins)) == want_eq), Ok(false))
}

/// 5XY0 / 9XY0: skip when VX equals / differs from VY; a nonzero low nibble
/// is not a valid instruction.
pub open spec fn exec_skip_reg(s: CpuView, ins: u16, want_eq: bool) -> (CpuView, Result<
    bool,
    ExecuteError,
>) {
    if op_n(ins) != 0 {
        (s, Err(ExecuteError::BadInstruction(ins)))
    } else {
        (skip_if(s, (s.regs[op_x(ins)] == s.regs[op_y(ins)]) == want_eq), Ok(false))
    }
}

/// 6XKK: load the immediate into VX.
pub open spec fn exec_ld_imm(s: CpuView, ins: u16) -> (CpuView, Result<bool, ExecuteError>) {
    (adv(set_reg(s, op_x(ins), op_kk(ins))), Ok(false))
}

/// 7XKK: wrapping add of the immediate into VX; VF is untouched.
pub open spec fn exec_add_imm(s: CpuView, ins: u16) -> (CpuView, Result<bool, ExecuteError>) {
    (adv(set_reg(s, op_x(ins), ((s.regs[op_x(ins)] + op_kk(ins)) % 256) as u8)), Ok(false))
}

/// Family 8: register-to-register operations. The flag writes happen in the
/// stated order, so an operation naming VF as an operand reads whatever the
/// earlier write left there.
pub open spec fn exec_alu(s: CpuView, ins: u16) -> (CpuView, Result<bool, ExecuteError>) {
    let x = op_x(ins);
    let y = op_y(ins);
    let n = op_n(ins);
    if n == 0 {
        (adv(set_reg(s, x, s.regs[y])), Ok(false))
    } else if n == 1 {
        (adv(set_reg(s, x, s.regs[x] | s.regs[y])), Ok(false))
    } else if n == 2 {
        (adv(set_reg(s, x, s.regs[x] & s.regs[y])), Ok(false))
    } else if n == 3 {
        (adv(set_reg(s, x, s.regs[x] ^ s.regs[y])), Ok(false))
    } else if n == 4 {
        // VX takes the wrapped sum first; the carry flag is written after.
        let sum = s.regs[x] + s.regs[y];
        let s1 = set_reg(s, x, (sum % 256) as u8);
        (adv(set_reg(s1, 15, if sum > 255 { 1u8 } else { 0u8 })), Ok(false))
    } else if n == 5 {
        // The borrow flag is written first, then VX takes the difference.
        let s1 = set_reg(s, 15, if s.regs[y] <= s.regs[x] { 1u8 } else { 0u8 });
        (adv(set_reg(s1, x, ((s1.regs[x] - s1.regs[y]) % 256) as u8)), Ok(false))
    } else if n == 6 {
        // VF takes the low bit of VY first, then VX takes VY shifted right.
        let s1 = set_reg(s, 15, s.regs[y] & 1);
        (adv(set_reg(s1, x, s1.regs[y] >> 1u8)), Ok(false))
    } else if n == 7 {
        // VX takes VY - VX first, then the borrow flag is written.
        let s1 = set_reg(s, x, ((s.regs[y] - s.regs[x]) % 256) as u8);
        (adv(set_reg(s1, 15, if s1.regs[x] <= s1.regs[y] { 1u8 } else { 0u8 })), Ok(false))
    } else if n == 0xe {
        // VF takes the high bit of VY first, then VX takes VY shifted left.
        let s1 = set_reg(s, 15, (s.regs[y] & 0x80) >> 7u8);
        (adv(set_reg(s1, x, s1.regs[y] << 1u8)), Ok(false))
    } else {
        (s, Err(ExecuteError::BadInstruction(ins)))
    }
}

/// ANNN: load the address into I.
pub open spec fn exec_ld_i(s: CpuView, ins: u16) -> (CpuView, Result<bool, ExecuteError>) {
    (adv(CpuView { i: op_nnn(ins) as u16, ..s }), Ok(false))
}

/// BNNN: computed jump to V0 + NNN, then the usual advance of 2 on top; the
/// target is not bounds-checked.
pub open spec fn exec_jump_v0(s: CpuView, ins: u16) -> (CpuView, Result<bool, ExecuteError>) {
    (CpuView { pc: (s.regs[0] + op_nnn(ins) + 2) as usize, ..s }, Ok(false))
}

/// CXKK: VX takes a random byte masked by KK.
pub open spec fn exec_rnd(s: CpuView, ins: u16, rnd: u8) -> (CpuView, Result<bool, ExecuteError>) {
    (adv(set_reg(s, op_x(ins), rnd & op_kk(ins))), Ok(false))
}

/// DXYN: blit N sprite rows from memory at I to (VX mod 64, VY mod 32),
/// clipping at the right and bottom edges; VF records the collision, written
/// after the blit.
pub open spec fn exec_draw(s: CpuView, ins: u16) -> (CpuView, Result<bool, ExecuteError>) {
    let x0 = s.regs[op_x(ins)] % 64;
    let y0 = s.regs[op_y(ins)] % 32;
    let n = op_n(ins);
    let col = blit_collision(s.fb, s.mem, s.i, n, x0 as int, y0 as int);
    (
        adv(
            CpuView {
                fb: blit_fb(s.fb, s.mem, s.i, n, x0 as int, y0 as int),
                regs: s.regs.update(15, if col { 1u8 } else { 0u8 }),
                ..s
            },
        ),
        Ok(true),
    )
}

/// EX9E / EXA1: skip on the state of the key named by VX. EX9E skips exactly
/// when that key is the one currently held; EXA1 skips exactly when it is
/// not, so with no key held EXA1 skips and EX9E does not.
pub open spec fn exec_key(s: CpuView, ins: u16, key: Option<u8>) -> (CpuView, Result<
    bool,
    ExecuteError,
>) {
    if op_kk(ins) == 0x9e {
        (skip_if(s, key == Some(s.regs[op_x(ins)])), Ok(false))
    } else if op_kk(ins) == 0xa1 {
        (skip_if(s, key != Some(s.regs[op_x(ins)])), Ok(false))
    } else {
        (s, Err(ExecuteError::BadInstruction(ins)))
    }
}

/// Family F: timers, keypad wait, the font pointer, the BCD store, and the
/// register save/restore with their classic post-increment of I.
pub open spec fn exec_misc(s: CpuView, ins: u16, key: Option<u8>) -> (CpuView, Result<
    bool,
    ExecuteError,
>) {
    let x = op_x(ins);
    let kk = op_kk(ins);
    if kk == 0x07 {
        (adv(set_reg(s, x, s.dt)), Ok(false))
    } else if kk == 0x0a {
        // Wait for a key: with none held the program counter stays put, so
        // the same instruction runs again on the next step.
        match key {
            Some(k) => (adv(set_reg(s, x, k)), Ok(false)),
            None => (s, Ok(false)),
        }
    } else if kk == 0x15 {
        (adv(CpuView { dt: s.regs[x], ..s }), Ok(false))
    } else if kk == 0x18 {
        (adv(CpuView { st: s.regs[x], ..s }), Ok(false))
    } else if kk == 0x1e {
        (adv(CpuView { i: ((s.i + s.regs[x]) % 0x10000) as u16, ..s }), Ok(false))
    } else if kk == 0x29 {
        if s.regs[x] > 0xf {
            (s, Err(ExecuteError::BadInstruction(ins)))
        } else {
            (adv(CpuView { i: (s.regs[x] * 5) as u16, ..s }), Ok(false))
        }
    } else if kk == 0x33 {
        (adv(CpuView { mem: bcd_store(s.mem, s.i, s.regs[x]), ..s }), Ok(false))
    } else if kk == 0x55 {
        (
            adv(
                CpuView {
                    mem: store_upto(s.mem, s.i, s.regs, x + 1),
                    i: ((s.i + x + 1) % 0x10000) as u16,
                    ..s
                },
            ),
            Ok(false),
        )
    } else if kk == 0x65 {
        (
            adv(
                CpuView {
                    regs: load_upto(s.regs, s.mem, s.i, x + 1),
                    i: ((s.i + x + 1) % 0x10000) as u16,
                    ..s
                },
            ),
            Ok(false),
        )
    } else {
        (s, Err(ExecuteError::BadInstruction(ins)))
    }
}

/// One fetched instruction. On an error the machine is left as it stood
/// after the timer poll. The boolean reports whether the draw opcode fired.
pub open spec fn exec_ins(s: CpuView, ins: u16, key: Option<u8>, rnd: u8) -> (CpuView, Result<
    bool,
    ExecuteError,
>) {
    let fam = op_fam(ins);
    if fam == 0x0 {
        exec_zero(s, ins)
    } else if fam == 0x1 {
        exec_jump(s, ins)
    } else if fam == 0x2 {
        exec_call(s, ins)
    } else if fam == 0x3 {
        exec_skip_imm(s, ins, true)
    } else if fam == 0x4 {
        exec_skip_imm(s, ins, false)
    } else if fam == 0x5 {
        exec_skip_reg(s, ins, true)
    } else if fam == 0x6 {
        exec_ld_imm(s, ins)
    } else if fam == 0x7 {
        exec_add_imm(s, ins)
    } else if fam == 0x8 {
        exec_alu(s, ins)
    } else if fam == 0x9 {
        exec_skip_reg(s, ins, false)
    } else if fam == 0xa {
        exec_ld_i(s, ins)
    } else if fam == 0xb {
        exec_jump_v0(s, ins)
    } else if fam == 0xc {
        exec_rnd(s, ins, rnd)
    } else if fam == 0xd {
        exec_draw(s, ins)
    } else if fam == 0xe {
        exec_key(s, ins, key)
    } else {
        exec_misc(s, ins, key)
    }
}

// ---------------------------------------------------------------------------
// Laws
// ---------------------------------------------------------------------------

/// Two addresses at distinct small offsets from I stay distinct after the
/// 12-bit wrap.
proof fn lemma_small_offsets_distinct(i: u16, a: int, b: int)
    requires
        0 <= a < b,
        b - a < 4096,
    ensures
        (i + a) % 4096 != (i + b) % 4096,
{
    let p = i + a;
    let q = i + b;
    lemma_fundamental_div_mod(p, 4096);
    lemma_fundamental_div_mod(q, 4096);
    if p % 4096 == q % 4096 {
        let d = q / 4096 - p / 4096;
        assert(q - p == d * 4096);
        assert(d >= 1 ==> d * 4096 >= 4096);
        assert(d <= 0 ==> d * 4096 <= 0);
        assert(false);
    }
}

/// Storing registers never changes the size of memory.
proof fn lemma_store_upto_len(mem: Seq<u8>, i: u16, regs: Seq<u8>, k: int)
    requires
        mem.len() == 4096,
    ensures
        store_upto(mem, i, regs, k).len() == mem.len(),
    decreases k,
{
    if k > 0 {
        lemma_store_upto_len(mem, i, regs, k - 1);
    }
}

/// Filling registers never changes how many there are.
proof fn lemma_load_upto_len(regs: Seq<u8>, mem: Seq<u8>, i: u16, k: int)
    requires
        regs.len() == 16,
        k <= 16,
    ensures
        load_upto(regs, mem, i, k).len() == regs.len(),
    decreases k,
{
    if k > 0 {
        lemma_load_upto_len(regs, mem, i, k - 1);
    }
}

/// After storing V0..Vk-1 at I, the byte at I + j holds Vj.
proof fn lemma_store_upto_read(mem: Seq<u8>, i: u16, regs: Seq<u8>, k: int, j: int)
    requires
        0 <= j < k <= 4096,
        mem.len() == 4096,
    ensures
        store_upto(mem, i, regs, k)[(i + j) % 4096] == regs[j],
    decreases k,
{
    lemma_store_upto_len(mem, i, regs, k - 1);
    if j < k - 1 {
        lemma_store_upto_read(mem, i, regs, k - 1, j);
        lemma_small_offsets_distinct(i, j, k - 1);
    }
}

/// After filling V0..Vk-1 from I, register j holds the byte at I + j.
proof fn lemma_load_upto_read(regs: Seq<u8>, mem: Seq<u8>, i: u16, k: int, j: int)
    requires
        0 <= j < k <= 16,
        regs.len() == 16,
    ensures
        load_upto(regs, mem, i, k)[j] == mem[(i + j) % 4096],
    decreases k,
{
    lemma_load_upto_len(regs, mem, i, k - 1);
    if j < k - 1 {
        lemma_load_upto_read(regs, mem, i, k - 1, j);
    }
}

/// Saving V0..=VX to memory at I and then filling V0..=VX back from the same
/// I restores those registers, whatever the registers held in between: the
/// round trip of the register save and restore opcodes.
pub proof fn lemma_store_load_round_trip(
    mem: Seq<u8>,
    i: u16,
    regs: Seq<u8>,
    regs2: Seq<u8>,
    x: int,
)
    requires
        0 <= x < 16,
        regs.len() == 16,
        regs2.len() == 16,
        mem.len() == 4096,
    ensures
        forall|j: int|
            0 <= j <= x ==> load_upto(regs2, store_upto(mem, i, regs, x + 1), i, x + 1)[j]
                == regs[j],
{
    let mem2 = store_upto(mem, i, regs, x + 1);
    lemma_store_upto_len(mem, i, regs, x + 1);
    assert forall|j: int| 0 <= j <= x implies load_upto(regs2, mem2, i, x + 1)[j] == regs[j] by {
        lemma_load_upto_read(regs2, mem2, i, x + 1, j);
        lemma_store_upto_read(mem, i, regs, x + 1, j);
    }
}

/// After the screen-clear instruction no framebuffer cell is lit.
pub proof fn lemma_cls_clears_screen(s: CpuView, key: Option<u8>, rnd: u8)
    requires
        fetch(s) == Some(0x00e0u16),
    ensures
        forall|p: int|
            0 <= p < 2048 ==> #[trigger] step_after_tick(s, key, rnd).0.fb[p] == 0,
{
    assert(op_fam(0x00e0) == 0 && op_x(0x00e0) == 0 && op_kk(0x00e0) == 0xe0);
}

/// After a draw instruction the flag register holds 1 exactly when some
/// framebuffer cell went from lit to unlit during the blit.
pub proof fn lemma_draw_collision_flag(s: CpuView, key: Option<u8>, rnd: u8, ins: u16)
    requires
        inv(s),
        fetch(s) == Some(ins),
        op_fam(ins) == 0xd,
    ensures
        ({
            let (post, r) = step_after_tick(s, key, rnd);
            post.regs[15] == 1 <==> exists|p: int|
                0 <= p < 2048 && s.fb[p] == 1 && #[trigger] post.fb[p] == 0
        }),
{
    let (post, r) = step_after_tick(s, key, rnd);
    let x0 = s.regs[op_x(ins)] % 64;
    let y0 = s.regs[op_y(ins)] % 32;
    let n = op_n(ins);
    let col = blit_collision(s.fb, s.mem, s.i, n, x0 as int, y0 as int);
    assert(post.fb == blit_fb(s.fb, s.mem, s.i, n, x0 as int, y0 as int));
    assert(post.regs[15] == (if col { 1u8 } else { 0u8 }));
    if col {
        let (rr, cc) = choose|rr: int, cc: int|
            0 <= rr && 0 <= cc < 8 && (rr < n || (rr == n && cc < 0)) && y0 + rr < 32 && x0 + cc
                < 64 && s.fb[(y0 + rr) * 64 + (x0 + cc)] == 1 && (#[trigger] sprite_bit(
                sprite_row(s.mem, s.i, rr),
                cc,
            )) == 1;
        let p = (y0 + rr) * 64 + (x0 + cc);
        lemma_fundamental_div_mod_converse(p, 64, y0 + rr, x0 + cc);
        lemma_bit01(sprite_row(s.mem, s.i, rr), (7 - cc) as u8);
        lemma_xor_bit(s.fb[p], sprite_bit(sprite_row(s.mem, s.i, rr), cc));
        assert(blit_covered(x0 as int, y0 as int, n, 0, p % 64, p / 64));
        assert(post.fb[p] == 0);
        assert(s.fb[p] == 1 && post.fb[p] == 0);
    }
    if exists|p: int| 0 <= p < 2048 && s.fb[p] == 1 && #[trigger] post.fb[p] == 0 {
        let p = choose|p: int| 0 <= p < 2048 && s.fb[p] == 1 && #[trigger] post.fb[p] == 0;
        lemma_fundamental_div_mod(p, 64);
        let px = p % 64;
        let py = p / 64;
        assert(0 <= px < 64);
        assert(0 <= py < 32);
        assert(blit_covered(x0 as int, y0 as int, n, 0, px, py));
        let rr = py - y0;
        let cc = px - x0;
        lemma_bit01(sprite_row(s.mem, s.i, rr), (7 - cc) as u8);
        lemma_xor_bit(s.fb[p], sprite_bit(sprite_row(s.mem, s.i, rr), cc));
        assert(col) by {
            assert(0 <= rr && 0 <= cc < 8 && rr < n && y0 + rr < 32 && x0 + cc < 64 && s.fb[(y0
                + rr) * 64 + (x0 + cc)] == 1 && sprite_bit(sprite_row(s.mem, s.i, rr), cc) == 1);
        }
    }
}

/// The add-with-carry opcode: VX takes the wrapped sum and VF reports the
/// carry, computed from the operands as they stood before the instruction.
/// When VX is the flag register itself, the flag write lands last and wins.
pub proof fn lemma_add_carry(s: CpuView, key: Option<u8>, rnd: u8, ins: u16)
    requires
        inv(s),
        fetch(s) == Some(ins),
        op_fam(ins) == 8,
        op_n(ins) == 4,
    ensures
        ({
            let (post, r) = step_after_tick(s, key, rnd);
            let x = op_x(ins);
            let y = op_y(ins);
            &&& post.regs[15] == (if s.regs[x] + s.regs[y] > 255 { 1u8 } else { 0u8 })
            &&& x != 15 ==> post.regs[x] == (s.regs[x] + s.regs[y]) % 256
        }),
{
}

/// The subtract-with-borrow opcode: VF reports that no borrow occurred,
/// comparing the operands as they stood before the instruction, and VX takes
/// the wrapped difference. The clauses name the registers they need to be
/// distinct from the flag register, because the flag is written first and an
/// operand naming VF reads the flag.
pub proof fn lemma_sub_borrow(s: CpuView, key: Option<u8>, rnd: u8, ins: u16)
    requires
        inv(s),
        fetch(s) == Some(ins),
        op_fam(ins) == 8,
        op_n(ins) == 5,
    ensures
        ({
            let (post, r) = step_after_tick(s, key, rnd);
            let x = op_x(ins);
            let y = op_y(ins);
            &&& x != 15 ==> post.regs[15] == (if s.regs[x] >= s.regs[y] { 1u8 } else { 0u8 })
            &&& x != 15 && y != 15 ==> post.regs[x] == (s.regs[x] - s.regs[y]) % 256
        }),
{
}

/// The binary-coded-decimal store: the three bytes at I, I+1, I+2 take the
/// hundreds, tens and units digits of VX.
pub proof fn lemma_bcd_digits(s: CpuView, key: Option<u8>, rnd: u8, ins: u16)
    requires
        inv(s),
        fetch(s) == Some(ins),
        op_fam(ins) == 0xf,
        op_kk(ins) == 0x33,
    ensures
        ({
            let (post, r) = step_after_tick(s, key, rnd);
            let v = s.regs[op_x(ins)];
            &&& post.mem[i0(s.i)] == v / 100
            &&& post.mem[i1(s.i)] == (v / 10) % 10
            &&& post.mem[i2(s.i)] == v % 10
        }),
{
    lemma_small_offsets_distinct(s.i, 0, 1);
    lemma_small_offsets_distinct(s.i, 0, 2);
    lemma_small_offsets_distinct(s.i, 1, 2);
    assert(s.i as int % 4096 == (s.i + 0) % 4096);
}

/// The address I points at, through the 12-bit address space.
pub open spec fn i0(i: u16) -> int {
    i as int % 4096
}

/// One past `i0`, through the 12-bit address space.
pub open spec fn i1(i: u16) -> int {
    (i + 1) % 4096
}

/// Two past `i0`, through the 12-bit address space.
pub open spec fn i2(i: u16) -> int {
    (i + 2) % 4096
}

/// One timer poll moves a timer down by at most one and never below zero.
pub proof fn lemma_timer_count_down(v: u8, due: bool)
    ensures
        count_down(v, due) <= v,
        v - count_down(v, due) <= 1,
        count_down(0, due) == 0,
{
}

/// One step keeps the machine well-formed, whatever instruction it fetched
/// and however it went: every register stays a byte by its type, the call
/// stack never grows past sixteen return addresses, every framebuffer cell
/// stays a bit, and the program counter stays within its range.
pub proof fn lemma_step_preserves_inv(s: CpuView, key: Option<u8>, rnd: u8)
    requires
        inv(s),
    ensures
        inv(step_after_tick(s, key, rnd).0),
{
    if fetch(s) is Some {
        let ins = fetch(s)->Some_0;
        let fam = op_fam(ins);
        if fam == 0xd {
            let x0 = s.regs[op_x(ins)] % 64;
            let y0 = s.regs[op_y(ins)] % 32;
            let n = op_n(ins);
            let fb2 = blit_fb(s.fb, s.mem, s.i, n, x0 as int, y0 as int);
            assert forall|p: int| 0 <= p < 2048 implies (#[trigger] fb2[p] == 0 || fb2[p] == 1) by {
                lemma_bit01(sprite_row(s.mem, s.i, p / 64 - y0), (7 - (p % 64 - x0)) as u8);
                lemma_xor_bit(s.fb[p], sprite_bit(sprite_row(s.mem, s.i, p / 64 - y0), p % 64 - x0));
            }
        } else if fam == 0xf {
            let x = op_x(ins);
            if op_kk(ins) == 0x55 {
                lemma_store_upto_len(s.mem, s.i, s.regs, x + 1);
            } else if op_kk(ins) == 0x65 {
                lemma_load_upto_len(s.regs, s.mem, s.i, x + 1);
            }
        }
    }
}

/// One whole step from a state whose timers were already polled: fetch the
/// instruction at the program counter and execute it. A failed fetch leaves
/// the machine unchanged.
pub open spec fn step_after_tick(s: CpuView, key: Option<u8>, rnd: u8) -> (CpuView, Result<
    bool,
    ExecuteError,
>) {
    match fetch(s) {
        Some(ins) => exec_ins(s, ins, key, rnd),
        None => (s, Err(ExecuteError::FailedToReadInstruction)),
    }
}

} // verus!
