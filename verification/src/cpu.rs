//! The CHIP-8 CPU: memory, registers, the call stack, the two countdown
//! timers, the framebuffer it draws into, and the fetch-decode-execute step.

use vstd::prelude::*;

use crate::host;
use crate::semantics::{
    blit_collision, blit_collision_upto, blit_covered, blit_fb, blit_fb_upto, blit_pix_upto,
    count_down, exec_add_imm, exec_alu, exec_call, exec_draw, exec_ins, exec_jump, exec_jump_v0,
    exec_key, exec_ld_i, exec_ld_imm, exec_misc, exec_rnd, exec_skip_imm, exec_skip_reg, exec_zero,
    fetch, inv, lemma_bit01, lemma_blit_roll_row, lemma_blit_row_clipped, lemma_collision_step,
    lemma_xor_bit, load_upto, op_fam, sprite_row, step_after_tick, store_upto, ticked, valid_jump,
    CpuView,
};
use crate::keyboard::KeyBoard;
use vstd::arithmetic::div_mod::{lemma_fundamental_div_mod, lemma_fundamental_div_mod_converse};

verus! {

/// The largest program the memory map admits: 0xFFF - 0x200 + 1 bytes.
pub const MAX_PROGRAM_SIZE: usize = 3584;

/// Framebuffer width in pixels.
pub const WIDTH: usize = 64;

/// Framebuffer height in pixels.
pub const HEIGHT: usize = 32;

/// Bytes of addressable memory.
pub const MEM_SIZE: usize = 4096;

/// Each built-in hex glyph is five bytes tall.
const HEX_SPRITE_SIZE: u16 = 5;

/// The terminal failures of a step; each carries the faulting instruction
/// where there is one.
#[derive(Debug, PartialEq, Eq, Structural)]
pub enum ExecuteError {
    FailedToReadInstruction,
    BadInstruction(u16),
    MaxCallDepthReached(u16),
    BadReturn(u16),
    BadJumpAddr(u16),
}

/// The one way loading a program can fail: it does not fit between 0x200 and
/// the end of memory.
#[derive(Debug, PartialEq, Eq, Structural)]
pub enum LoadError {
    ProgramTooLarge,
}

/// The machine. The fields are public so that the outer shell and tests can
/// observe them; every method keeps `wf()`.
pub struct Cpu {
    pub mem: Vec<u8>,
    pub d_buffer: Vec<u8>,
    pub gp_registers: Vec<u8>,
    pub i: u16,
    pub pc: usize,
    pub sp: u8,
    pub stack: Vec<usize>,
    pub delay_timer: (u8, std::time::Instant),
    pub sound_timer: (u8, std::time::Instant),
    pub program_end_addr: usize,
    pub debug: bool,
}

impl View for Cpu {
    type V = CpuView;

    open spec fn view(&self) -> CpuView {
        CpuView {
            mem: self.mem@,
            fb: self.d_buffer@,
            regs: self.gp_registers@,
            i: self.i,
            pc: self.pc,
            sp: self.sp,
            stack: self.stack@,
            dt: self.delay_timer.0,
            st: self.sound_timer.0,
            prog_end: self.program_end_addr,
        }
    }
}

/// The sixteen built-in hex glyphs, five bytes each, digits 0 to F in order.
pub open spec fn font_seq() -> Seq<u8> {
    seq![
        0xf0u8, 0x90, 0x90, 0x90, 0xf0, // 0
        0x20, 0x60, 0x20, 0x20, 0x70, // 1
        0xf0, 0x10, 0xf0, 0x80, 0xf0, // 2
        0xf0, 0x10, 0xf0, 0x10, 0xf0, // 3
        0x90, 0x90, 0xf0, 0x10, 0x10, // 4
        0xf0, 0x80, 0xf0, 0x10, 0xf0, // 5
        0xf0, 0x80, 0xf0, 0x90, 0xf0, // 6
        0xf0, 0x10, 0x20, 0x40, 0x40, // 7
        0xf0, 0x90, 0xf0, 0x90, 0xf0, // 8
        0xf0, 0x90, 0xf0, 0x10, 0xf0, // 9
        0xf0, 0x90, 0xf0, 0x90, 0x90, // A
        0xe0, 0x90, 0xe0, 0x90, 0xe0, // B
        0xf0, 0x80, 0x80, 0x80, 0xf0, // C
        0xe0, 0x90, 0x90, 0x90, 0xe0, // D
        0xf0, 0x80, 0xf0, 0x80, 0xf0, // E
        0xf0, 0x80, 0xf0, 0x80, 0x80, // F
    ]
}

/// The font table as bytes.
fn font_table() -> (font: Vec<u8>)
    ensures
        font@ == font_seq(),
{
    let mut font: Vec<u8> = Vec::new();
    font.push(0xf0); font.push(0x90); font.push(0x90); font.push(0x90); font.push(0xf0);
    font.push(0x20); font.push(0x60); font.push(0x20); font.push(0x20); font.push(0x70);
    font.push(0xf0); font.push(0x10); font.push(0xf0); font.push(0x80); font.push(0xf0);
    font.push(0xf0); font.push(0x10); font.push(0xf0); font.push(0x10); font.push(0xf0);
    font.push(0x90); font.push(0x90); font.push(0xf0); font.push(0x10); font.push(0x10);
    font.push(0xf0); font.push(0x80); font.push(0xf0); font.push(0x10); font.push(0xf0);
    font.push(0xf0); font.push(0x80); font.push(0xf0); font.push(0x90); font.push(0xf0);
    font.push(0xf0); font.push(0x10); font.push(0x20); font.push(0x40); font.push(0x40);
    font.push(0xf0); font.push(0x90); font.push(0xf0); font.push(0x90); font.push(0xf0);
    font.push(0xf0); font.push(0x90); font.push(0xf0); font.push(0x10); font.push(0xf0);
    font.push(0xf0); font.push(0x90); font.push(0xf0); font.push(0x90); font.push(0x90);
    font.push(0xe0); font.push(0x90); font.push(0xe0); font.push(0x90); font.push(0xe0);
    font.push(0xf0); font.push(0x80); font.push(0x80); font.push(0x80); font.push(0xf0);
    font.push(0xe0); font.push(0x90); font.push(0x90); font.push(0x90); font.push(0xe0);
    font.push(0xf0); font.push(0x80); font.push(0xf0); font.push(0x80); font.push(0xf0);
    font.push(0xf0); font.push(0x80); font.push(0xf0); font.push(0x80); font.push(0x80);
    proof {
        assert(font@ =~= font_seq());
    }
    font
}

impl Cpu {
    /// Well-formedness of the machine; established at construction and kept
    /// by every method.
    pub open spec fn wf(&self) -> bool {
        inv(self@)
    }

    /// A fresh machine: cleared registers, stack, timers and framebuffer,
    /// the program counter at 0x200, no program loaded, and the hex font
    /// installed in the first eighty bytes of memory.
    pub fn init(debug: bool) -> (cpu: Cpu)
        ensures
            cpu.wf(),
            forall|k: int| 0 <= k < 80 ==> cpu@.mem[k] == font_seq()[k],
            forall|k: int| 80 <= k < 4096 ==> cpu@.mem[k] == 0,
            cpu@.fb == Seq::new(2048, |p: int| 0u8),
            cpu@.regs == Seq::new(16, |j: int| 0u8),
            cpu@.i == 0,
            cpu@.pc == 0x200,
            cpu@.sp == 0,
            cpu@.stack == Seq::<usize>::empty(),
            cpu@.dt == 0,
            cpu@.st == 0,
            cpu@.prog_end == 0,
            cpu.debug == debug,
    {
        let font = font_table();
        let mut mem: Vec<u8> = vec![0u8; MEM_SIZE];
        let mut k: usize = 0;
        while k < 80
            invariant
                k <= 80,
                font@ == font_seq(),
                mem@.len() == 4096,
                forall|j: int| 0 <= j < k ==> mem@[j] == font_seq()[j],
                forall|j: int| k <= j < 4096 ==> mem@[j] == 0,
            decreases 80 - k,
        {
            mem[k] = font[k];
            k += 1;
        }
        let d_buffer = vec![0u8; WIDTH * HEIGHT];
        let gp_registers = vec![0u8; 16];
        let cpu = Cpu {
            mem,
            d_buffer,
            gp_registers,
            i: 0,
            pc: 0x200,
            sp: 0,
            stack: Vec::new(),
            delay_timer: (0, host::now()),
            sound_timer: (0, host::now()),
            program_end_addr: 0,
            debug,
        };
        proof {
            assert(cpu@.fb =~= Seq::new(2048, |p: int| 0u8));
            assert(cpu@.regs =~= Seq::new(16, |j: int| 0u8));
        }
        cpu
    }

    /// Copy a program into memory starting at 0x200 and record where it
    /// ends. A program longer than `MAX_PROGRAM_SIZE` bytes is rejected and
    /// the machine is left unchanged.
    pub fn add_program(&mut self, program: &[u8]) -> (r: Result<(), LoadError>)
        requires
            old(self).wf(),
        ensures
            final(self).wf(),
            program@.len() > MAX_PROGRAM_SIZE ==> r == Err::<(), LoadError>(
                LoadError::ProgramTooLarge,
            ) && *final(self) == *old(self),
            program@.len() <= MAX_PROGRAM_SIZE ==> {
                &&& r == Ok::<(), LoadError>(())
                &&& final(self)@.mem.len() == 4096
                &&& (forall|k: int|
                    0 <= k < program@.len() ==> final(self)@.mem[0x200 + k] == program@[k])
                &&& (forall|k: int|
                    0 <= k < 4096 && !(0x200 <= k < 0x200 + program@.len())
                        ==> final(self)@.mem[k] == old(self)@.mem[k])
                &&& final(self)@.prog_end == 0x200 + program@.len()
                &&& final(self)@ == (CpuView {
                    mem: final(self)@.mem,
                    prog_end: final(self)@.prog_end,
                    ..old(self)@
                })
                &&& final(self).debug == old(self).debug
            },
    {
        if program.len() > MAX_PROGRAM_SIZE {
            return Err(LoadError::ProgramTooLarge);
        }
        let mut k: usize = 0;
        while k < program.len()
            invariant
                old(self).wf(),
                k <= program.len(),
                program.len() <= MAX_PROGRAM_SIZE,
                self.mem@.len() == 4096,
                forall|j: int| 0 <= j < k ==> self.mem@[0x200 + j] == program@[j],
                forall|j: int|
                    0 <= j < 4096 && !(0x200 <= j < 0x200 + k) ==> self.mem@[j] == old(
                        self,
                    ).mem@[j],
                self.d_buffer == old(self).d_buffer,
                self.gp_registers == old(self).gp_registers,
                self.i == old(self).i,
                self.pc == old(self).pc,
                self.sp == old(self).sp,
                self.stack == old(self).stack,
                self.delay_timer == old(self).delay_timer,
                self.sound_timer == old(self).sound_timer,
                self.program_end_addr == old(self).program_end_addr,
                self.debug == old(self).debug,
            decreases program.len() - k,
        {
            self.mem[0x200 + k] = program[k];
            k += 1;
        }
        self.program_end_addr = 0x200 + program.len();
        Ok(())
    }

    /// Clear the dynamic state for a fresh run: I, the program counter, the
    /// stack and both timers are reset and the loaded program bytes are
    /// zeroed; the font, the registers, the framebuffer and the recorded
    /// program end are kept.
    pub fn reset(&mut self)
        requires
            old(self).wf(),
        ensures
            final(self).wf(),
            final(self)@.i == 0,
            final(self)@.pc == 0x200,
            final(self)@.sp == 0,
            final(self)@.stack == Seq::<usize>::empty(),
            final(self)@.dt == 0,
            final(self)@.st == 0,
            final(self)@.mem.len() == 4096,
            forall|k: int|
                0x200 <= k < old(self)@.prog_end ==> final(self)@.mem[k] == 0,
            forall|k: int|
                0 <= k < 4096 && !(0x200 <= k < old(self)@.prog_end) ==> final(self)@.mem[k] == old(
                    self,
                )@.mem[k],
            final(self)@.fb == old(self)@.fb,
            final(self)@.regs == old(self)@.regs,
            final(self)@.prog_end == old(self)@.prog_end,
            final(self).debug == old(self).debug,
    {
        self.i = 0;
        self.pc = 0x200;
        self.sp = 0;
        self.stack.clear();
        self.delay_timer = (0, host::now());
        self.sound_timer = (0, host::now());
        let mut k: usize = 0x200;
        while k < self.program_end_addr
            invariant
                old(self).wf(),
                0x200 <= k,
                k == 0x200 || k <= self.program_end_addr,
                self.program_end_addr <= 4096,
                k <= 4096,
                self.program_end_addr == old(self).program_end_addr,
                self.mem@.len() == 4096,
                forall|j: int| 0x200 <= j < k ==> self.mem@[j] == 0,
                forall|j: int|
                    0 <= j < 4096 && !(0x200 <= j < k) ==> self.mem@[j] == old(self).mem@[j],
                self.d_buffer == old(self).d_buffer,
                self.gp_registers == old(self).gp_registers,
                self.i == 0,
                self.pc == 0x200,
                self.sp == 0,
                self.stack@ == Seq::<usize>::empty(),
                self.delay_timer.0 == 0,
                self.sound_timer.0 == 0,
                self.debug == old(self).debug,
            decreases self.program_end_addr - k,
        {
            self.mem[k] = 0;
            k += 1;
        }
    }

    /// Whether a jump or return target lands inside the loaded program.
    fn is_valid_program_addr(&self, addr: usize) -> (r: bool)
        ensures
            r == valid_jump(self@, addr as int),
    {
        addr >= 0x200 && addr <= self.program_end_addr
    }

    /// Read the two instruction bytes at the program counter, big-endian.
    fn get_next_instruction(&self) -> (r: Result<u16, ExecuteError>)
        requires
            self.wf(),
        ensures
            fetch(self@) matches Some(ins) ==> r == Ok::<u16, ExecuteError>(ins),
            fetch(self@) is None ==> r == Err::<u16, ExecuteError>(
                ExecuteError::FailedToReadInstruction,
            ),
    {
        if self.pc + 1 < self.mem.len() {
            let b1 = self.mem[self.pc];
            let b2 = self.mem[self.pc + 1];
            Ok((b1 as u16) * 256 + (b2 as u16))
        } else {
            Err(ExecuteError::FailedToReadInstruction)
        }
    }

    /// Poll one timer: when it is running and a sixtieth of a second has
    /// passed since its last tick, count it down once and restamp it.
    fn handle_timer(timer: &mut (u8, std::time::Instant)) -> (changed: bool)
        ensures
            final(timer).0 == count_down(old(timer).0, changed),
            changed ==> old(timer).0 > 0,
    {
        if timer.0 == 0 {
            return false;
        }
        if host::tick_due(&timer.1) {
            timer.0 = timer.0 - 1;
            timer.1 = host::now();
            return true;
        }
        false
    }

    /// Family 0: SYS no-op, clear screen, or return.
    fn do_zero(&mut self, ins: u16) -> (r: Result<bool, ExecuteError>)
        requires
            old(self).wf(),
            old(self)@.pc + 1 < 4096,
            op_fam(ins) == 0,
        ensures
            final(self).wf(),
            (final(self)@, r) == exec_zero(old(self)@, ins),
    {
        let x = ((ins / 0x100) % 0x10) as usize;
        let kk = (ins % 0x100) as u8;
        if x != 0 {
            self.pc = self.pc + 2;
            proof {
                assert(self@ =~= exec_zero(old(self)@, ins).0);
            }
            Ok(false)
        } else if kk == 0xe0 {
            fill_zero(&mut self.d_buffer);
            self.pc = self.pc + 2;
            proof {
                assert(self@ =~= exec_zero(old(self)@, ins).0);
            }
            Ok(false)
        } else if kk == 0xee {
            if self.stack.len() == 0 {
                return Err(ExecuteError::BadReturn(ins));
            }
            let addr = self.stack[self.stack.len() - 1];
            if !self.is_valid_program_addr(addr) {
                return Err(ExecuteError::BadJumpAddr(ins));
            }
            self.stack.pop();
            self.sp = self.sp - 1;
            // The saved address points at the call instruction: skip it.
            self.pc = addr + 2;
            proof {
                assert(self@ =~= exec_zero(old(self)@, ins).0);
            }
            Ok(false)
        } else {
            Err(ExecuteError::BadInstruction(ins))
        }
    }

    /// 1NNN: bounds-checked jump.
    fn do_jump(&mut self, ins: u16) -> (r: Result<bool, ExecuteError>)
        requires
            old(self).wf(),
            old(self)@.pc + 1 < 4096,
        ensures
            final(self).wf(),
            (final(self)@, r) == exec_jump(old(self)@, ins),
    {
        let nnn = (ins % 0x1000) as usize;
        if !self.is_valid_program_addr(nnn) {
            return Err(ExecuteError::BadJumpAddr(ins));
        }
        self.pc = nnn;
        proof {
            assert(self@ =~= exec_jump(old(self)@, ins).0);
        }
        Ok(false)
    }

    /// 2NNN: call; the current program counter is pushed.
    fn do_call(&mut self, ins: u16) -> (r: Result<bool, ExecuteError>)
        requires
            old(self).wf(),
            old(self)@.pc + 1 < 4096,
        ensures
            final(self).wf(),
            (final(self)@, r) == exec_call(old(self)@, ins),
    {
        let nnn = (ins % 0x1000) as usize;
        if self.stack.len() == 16 {
            return Err(ExecuteError::MaxCallDepthReached(ins));
        }
        self.stack.push(self.pc);
        self.sp = self.sp + 1;
        self.pc = nnn;
        proof {
            assert(self@ =~= exec_call(old(self)@, ins).0);
        }
        Ok(false)
    }

    /// 3XKK / 4XKK: skip on comparing VX with the immediate.
    fn do_skip_imm(&mut self, ins: u16, want_eq: bool) -> (r: Result<bool, ExecuteError>)
        requires
            old(self).wf(),
            old(self)@.pc + 1 < 4096,
        ensures
            final(self).wf(),
            (final(self)@, r) == exec_skip_imm(old(self)@, ins, want_eq),
    {
        let x = ((ins / 0x100) % 0x10) as usize;
        let kk = (ins % 0x100) as u8;
        let cond = (self.gp_registers[x] == kk) == want_eq;
        self.pc = if cond {
            self.pc + 4
        } else {
            self.pc + 2
        };
        proof {
            assert(self@ =~= exec_skip_imm(old(self)@, ins, want_eq).0);
        }
        Ok(false)
    }

    /// 5XY0 / 9XY0: skip on comparing VX with VY.
    fn do_skip_reg(&mut self, ins: u16, want_eq: bool) -> (r: Result<bool, ExecuteError>)
        requires
            old(self).wf(),
            old(self)@.pc + 1 < 4096,
        ensures
            final(self).wf(),
            (final(self)@, r) == exec_skip_reg(old(self)@, ins, want_eq),
    {
        if ins % 0x10 != 0 {
            return Err(ExecuteError::BadInstruction(ins));
        }
        let x = ((ins / 0x100) % 0x10) as usize;
        let y = ((ins / 0x10) % 0x10) as usize;
        let cond = (self.gp_registers[x] == self.gp_registers[y]) == want_eq;
        self.pc = if cond {
            self.pc + 4
        } else {
            self.pc + 2
        };
        proof {
            assert(self@ =~= exec_skip_reg(old(self)@, ins, want_eq).0);
        }
        Ok(false)
    }

    /// 6XKK: load the immediate.
    fn do_ld_imm(&mut self, ins: u16) -> (r: Result<bool, ExecuteError>)
        requires
            old(self).wf(),
            old(self)@.pc + 1 < 4096,
        ensures
            final(self).wf(),
            (final(self)@, r) == exec_ld_imm(old(self)@, ins),
    {
        let x = ((ins / 0x100) % 0x10) as usize;
        let kk = (ins % 0x100) as u8;
        self.gp_registers[x] = kk;
        self.pc = self.pc + 2;
        proof {
            assert(self@ =~= exec_ld_imm(old(self)@, ins).0);
        }
        Ok(false)
    }

    /// 7XKK: wrapping add of the immediate; VF untouched.
    fn do_add_imm(&mut self, ins: u16) -> (r: Result<bool, ExecuteError>)
        requires
            old(self).wf(),
            old(self)@.pc + 1 < 4096,
        ensures
            final(self).wf(),
            (final(self)@, r) == exec_add_imm(old(self)@, ins),
    {
        let x = ((ins / 0x100) % 0x10) as usize;
        let kk = (ins % 0x100) as u8;
        self.gp_registers[x] = self.gp_registers[x].wrapping_add(kk);
        self.pc = self.pc + 2;
        proof {
            assert(self@ =~= exec_add_imm(old(self)@, ins).0);
        }
        Ok(false)
    }

    /// Family 8: register-to-register operations.
    #[verifier::rlimit(60)]
    fn do_alu(&mut self, ins: u16) -> (r: Result<bool, ExecuteError>)
        requires
            old(self).wf(),
            old(self)@.pc + 1 < 4096,
        ensures
            final(self).wf(),
            (final(self)@, r) == exec_alu(old(self)@, ins),
    {
        let x = ((ins / 0x100) % 0x10) as usize;
        let y = ((ins / 0x10) % 0x10) as usize;
        let n = (ins % 0x10) as u8;
        match n {
            0x0 => {
                self.gp_registers[x] = self.gp_registers[y];
            },
            0x1 => {
                self.gp_registers[x] = self.gp_registers[x] | self.gp_registers[y];
            },
            0x2 => {
                self.gp_registers[x] = self.gp_registers[x] & self.gp_registers[y];
            },
            0x3 => {
                self.gp_registers[x] = self.gp_registers[x] ^ self.gp_registers[y];
            },
            0x4 => {
                let sum = self.gp_registers[x] as u16 + self.gp_registers[y] as u16;
                self.gp_registers[x] = (sum % 256) as u8;
                self.gp_registers[0xf] = if sum > 255 {
                    1
                } else {
                    0
                };
            },
            0x5 => {
                self.gp_registers[0xf] = if self.gp_registers[y] <= self.gp_registers[x] {
                    1
                } else {
                    0
                };
                let a = self.gp_registers[x];
                let b = self.gp_registers[y];
                self.gp_registers[x] = a.wrapping_sub(b);
            },
            0x6 => {
                self.gp_registers[0xf] = self.gp_registers[y] & 1;
                self.gp_registers[x] = self.gp_registers[y] >> 1u8;
            },
            0x7 => {
                let a = self.gp_registers[x];
                let b = self.gp_registers[y];
                self.gp_registers[x] = b.wrapping_sub(a);
                self.gp_registers[0xf] = if self.gp_registers[x] <= self.gp_registers[y] {
                    1
                } else {
                    0
                };
            },
            0xe => {
                self.gp_registers[0xf] = (self.gp_registers[y] & 0x80) >> 7u8;
                self.gp_registers[x] = self.gp_registers[y] << 1u8;
            },
            _ => {
                return Err(ExecuteError::BadInstruction(ins));
            },
        }
        self.pc = self.pc + 2;
        proof {
            assert(self@ =~= exec_alu(old(self)@, ins).0);
        }
        Ok(false)
    }

    /// ANNN: load the address into I.
    fn do_ld_i(&mut self, ins: u16) -> (r: Result<bool, ExecuteError>)
        requires
            old(self).wf(),
            old(self)@.pc + 1 < 4096,
        ensures
            final(self).wf(),
            (final(self)@, r) == exec_ld_i(old(self)@, ins),
    {
        self.i = ins % 0x1000;
        self.pc = self.pc + 2;
        proof {
            assert(self@ =~= exec_ld_i(old(self)@, ins).0);
        }
        Ok(false)
    }

    /// BNNN: computed jump to V0 + NNN (plus the advance of 2 on top).
    fn do_jump_v0(&mut self, ins: u16) -> (r: Result<bool, ExecuteError>)
        requires
            old(self).wf(),
            old(self)@.pc + 1 < 4096,
        ensures
            final(self).wf(),
            (final(self)@, r) == exec_jump_v0(old(self)@, ins),
    {
        let nnn = (ins % 0x1000) as usize;
        self.pc = self.gp_registers[0] as usize + nnn;
        self.pc = self.pc + 2;
        proof {
            assert(self@ =~= exec_jump_v0(old(self)@, ins).0);
        }
        Ok(false)
    }

    /// CXKK: a masked random byte.
    fn do_rnd(&mut self, ins: u16) -> (r: Result<bool, ExecuteError>)
        requires
            old(self).wf(),
            old(self)@.pc + 1 < 4096,
        ensures
            final(self).wf(),
            exists|rnd: u8| (final(self)@, r) == #[trigger] exec_rnd(old(self)@, ins, rnd),
    {
        let x = ((ins / 0x100) % 0x10) as usize;
        let kk = (ins % 0x100) as u8;
        let random = host::random_byte();
        self.gp_registers[x] = random & kk;
        self.pc = self.pc + 2;
        proof {
            assert(self@ =~= exec_rnd(old(self)@, ins, random).0);
            assert((self@, Ok::<bool, ExecuteError>(false)) == exec_rnd(old(self)@, ins, random));
        }
        Ok(false)
    }

    /// EX9E / EXA1: skip on the state of the key named by VX.
    fn do_key(&mut self, ins: u16, key: Option<u8>) -> (r: Result<bool, ExecuteError>)
        requires
            old(self).wf(),
            old(self)@.pc + 1 < 4096,
        ensures
            final(self).wf(),
            (final(self)@, r) == exec_key(old(self)@, ins, key),
    {
        let x = ((ins / 0x100) % 0x10) as usize;
        let kk = (ins % 0x100) as u8;
        if kk == 0x9e {
            let skip = match key {
                Some(k) => k == self.gp_registers[x],
                None => false,
            };
            self.pc = if skip {
                self.pc + 4
            } else {
                self.pc + 2
            };
            proof {
                assert(self@ =~= exec_key(old(self)@, ins, key).0);
            }
            Ok(false)
        } else if kk == 0xa1 {
            let skip = match key {
                Some(k) => k != self.gp_registers[x],
                None => true,
            };
            self.pc = if skip {
                self.pc + 4
            } else {
                self.pc + 2
            };
            proof {
                assert(self@ =~= exec_key(old(self)@, ins, key).0);
            }
            Ok(false)
        } else {
            Err(ExecuteError::BadInstruction(ins))
        }
    }

    /// Family F: timers, keypad wait, font pointer, BCD, register save and
    /// restore.
    #[verifier::rlimit(60)]
    fn do_misc(&mut self, ins: u16, key: Option<u8>) -> (r: Result<bool, ExecuteError>)
        requires
            old(self).wf(),
            old(self)@.pc + 1 < 4096,
        ensures
            final(self).wf(),
            (final(self)@, r) == exec_misc(old(self)@, ins, key),
    {
        let x = ((ins / 0x100) % 0x10) as usize;
        let kk = (ins % 0x100) as u8;
        if kk == 0x07 {
            self.gp_registers[x] = self.delay_timer.0;
            self.pc = self.pc + 2;
            proof {
                assert(self@ =~= exec_misc(old(self)@, ins, key).0);
            }
            Ok(false)
        } else if kk == 0x0a {
            // Wait for a key: do not advance until one is held.
            match key {
                Some(k) => {
                    self.gp_registers[x] = k;
                    self.pc = self.pc + 2;
                    proof {
                        assert(self@ =~= exec_misc(old(self)@, ins, key).0);
                    }
                },
                None => {},
            }
            Ok(false)
        } else if kk == 0x15 {
            self.delay_timer = (self.gp_registers[x], host::now());
            self.pc = self.pc + 2;
            proof {
                assert(self@ =~= exec_misc(old(self)@, ins, key).0);
            }
            Ok(false)
        } else if kk == 0x18 {
            self.sound_timer = (self.gp_registers[x], host::now());
            self.pc = self.pc + 2;
            proof {
                assert(self@ =~= exec_misc(old(self)@, ins, key).0);
            }
            Ok(false)
        } else if kk == 0x1e {
            self.i = self.i.wrapping_add(self.gp_registers[x] as u16);
            self.pc = self.pc + 2;
            proof {
                assert(self@ =~= exec_misc(old(self)@, ins, key).0);
            }
            Ok(false)
        } else if kk == 0x29 {
            if self.gp_registers[x] > 0xf {
                return Err(ExecuteError::BadInstruction(ins));
            }
            self.i = self.gp_registers[x] as u16 * HEX_SPRITE_SIZE;
            self.pc = self.pc + 2;
            proof {
                assert(self@ =~= exec_misc(old(self)@, ins, key).0);
            }
            Ok(false)
        } else if kk == 0x33 {
            let vx = self.gp_registers[x];
            let base = self.i as usize;
            self.mem[base % 4096] = vx / 100;
            self.mem[(base + 1) % 4096] = (vx / 10) % 10;
            self.mem[(base + 2) % 4096] = vx % 10;
            self.pc = self.pc + 2;
            proof {
                assert(self@ =~= exec_misc(old(self)@, ins, key).0);
            }
            Ok(false)
        } else if kk == 0x55 {
            store_span(&mut self.mem, &self.gp_registers, self.i, x);
            self.i = self.i.wrapping_add(x as u16 + 1);
            self.pc = self.pc + 2;
            proof {
                assert(self@ =~= exec_misc(old(self)@, ins, key).0);
            }
            Ok(false)
        } else if kk == 0x65 {
            load_span(&mut self.gp_registers, &self.mem, self.i, x);
            self.i = self.i.wrapping_add(x as u16 + 1);
            self.pc = self.pc + 2;
            proof {
                assert(self@ =~= exec_misc(old(self)@, ins, key).0);
            }
            Ok(false)
        } else {
            Err(ExecuteError::BadInstruction(ins))
        }
    }

    /// XOR-blit `n` sprite rows from memory at I to (x mod 64, y mod 32),
    /// clipping at the right and bottom edges. Returns whether any lit cell
    /// was turned off. Nothing but the framebuffer is touched; in particular
    /// the sprite bytes in memory are only read.
    fn draw_sprite(&mut self, n: u8, x: u8, y: u8) -> (res: Result<bool, ExecuteError>)
        requires
            old(self).wf(),
            n <= 15,
        ensures
            final(self).wf(),
            res == Ok::<bool, ExecuteError>(
                blit_collision(
                    old(self)@.fb,
                    old(self)@.mem,
                    old(self)@.i,
                    n as int,
                    (x % 64) as int,
                    (y % 32) as int,
                ),
            ),
            final(self)@.fb == blit_fb(
                old(self)@.fb,
                old(self)@.mem,
                old(self)@.i,
                n as int,
                (x % 64) as int,
                (y % 32) as int,
            ),
            final(self)@ == (CpuView { fb: final(self)@.fb, ..old(self)@ }),
    {
        let x0 = (x as usize) % 64;
        let y0 = (y as usize) % 32;
        let ghost fb0 = self.d_buffer@;
        let mut collision = false;
        proof {
            assert forall|q: int| 0 <= q < 2048 implies self.d_buffer@[q] == blit_pix_upto(
                fb0,
                self.mem@,
                self.i,
                x0 as int,
                y0 as int,
                0,
                0,
                q,
            ) by {}
            assert(self.d_buffer@ =~= blit_fb_upto(
                fb0,
                self.mem@,
                self.i,
                x0 as int,
                y0 as int,
                0,
                0,
            ));
        }
        let mut r: usize = 0;
        while r < n as usize
            invariant
                old(self).wf(),
                r <= n,
                n <= 15,
                x0 == x as int % 64,
                y0 == y as int % 32,
                x0 < 64,
                y0 < 32,
                fb0 == old(self)@.fb,
                self.d_buffer@.len() == 2048,
                forall|p: int|
                    0 <= p < 2048 ==> (#[trigger] self.d_buffer@[p] == 0 || self.d_buffer@[p]
                        == 1),
                self.d_buffer@ == blit_fb_upto(
                    fb0,
                    self.mem@,
                    self.i,
                    x0 as int,
                    y0 as int,
                    r as int,
                    0,
                ),
                collision == blit_collision_upto(
                    fb0,
                    self.mem@,
                    self.i,
                    x0 as int,
                    y0 as int,
                    r as int,
                    0,
                ),
                self.mem == old(self).mem,
                self.gp_registers == old(self).gp_registers,
                self.i == old(self).i,
                self.pc == old(self).pc,
                self.sp == old(self).sp,
                self.stack == old(self).stack,
                self.delay_timer == old(self).delay_timer,
                self.sound_timer == old(self).sound_timer,
                self.program_end_addr == old(self).program_end_addr,
                self.debug == old(self).debug,
            decreases n - r,
        {
            let row_byte = self.mem[(self.i as usize + r) % 4096];
            let py = y0 + r;
            if py < 32 {
                let mut c: usize = 0;
                while c < 8
                    invariant
                        old(self).wf(),
                        c <= 8,
                        r < n,
                        n <= 15,
                        x0 == x as int % 64,
                        y0 == y as int % 32,
                        x0 < 64,
                        y0 < 32,
                        py == y0 + r,
                        py < 32,
                        fb0 == old(self)@.fb,
                        row_byte == sprite_row(self.mem@, self.i, r as int),
                        self.d_buffer@.len() == 2048,
                        forall|p: int|
                            0 <= p < 2048 ==> (#[trigger] self.d_buffer@[p] == 0
                                || self.d_buffer@[p] == 1),
                        self.d_buffer@ == blit_fb_upto(
                            fb0,
                            self.mem@,
                            self.i,
                            x0 as int,
                            y0 as int,
                            r as int,
                            c as int,
                        ),
                        collision == blit_collision_upto(
                            fb0,
                            self.mem@,
                            self.i,
                            x0 as int,
                            y0 as int,
                            r as int,
                            c as int,
                        ),
                        self.mem == old(self).mem,
                        self.gp_registers == old(self).gp_registers,
                        self.i == old(self).i,
                        self.pc == old(self).pc,
                        self.sp == old(self).sp,
                        self.stack == old(self).stack,
                        self.delay_timer == old(self).delay_timer,
                        self.sound_timer == old(self).sound_timer,
                        self.program_end_addr == old(self).program_end_addr,
                        self.debug == old(self).debug,
                    decreases 8 - c,
                {
                    let px = x0 + c;
                    proof {
                        lemma_collision_step(
                            fb0,
                            self.mem@,
                            self.i,
                            x0 as int,
                            y0 as int,
                            r as int,
                            c as int,
                        );
                    }
                    if px < 64 {
                        let idx = py * 64 + px;
                        proof {
                            lemma_fundamental_div_mod_converse(
                                idx as int,
                                64,
                                py as int,
                                px as int,
                            );
                        }
                        let ghost buf0 = self.d_buffer@;
                        let prev = self.d_buffer[idx];
                        let sh = (7 - c) as u8;
                        let bit = (row_byte >> sh) & 1;
                        let newv = prev ^ bit;
                        self.d_buffer[idx] = newv;
                        if prev == 1 && newv == 0 {
                            collision = true;
                        }
                        proof {
                            lemma_bit01(row_byte, sh);
                            lemma_xor_bit(prev, bit);
                            assert forall|q: int| 0 <= q < 2048 implies self.d_buffer@[q]
                                == blit_pix_upto(
                                fb0,
                                self.mem@,
                                self.i,
                                x0 as int,
                                y0 as int,
                                r as int,
                                c as int + 1,
                                q,
                            ) by {
                                lemma_fundamental_div_mod(q, 64);
                                if q != idx {
                                    assert(blit_covered(
                                        x0 as int,
                                        y0 as int,
                                        r as int,
                                        c as int + 1,
                                        q % 64,
                                        q / 64,
                                    ) == blit_covered(
                                        x0 as int,
                                        y0 as int,
                                        r as int,
                                        c as int,
                                        q % 64,
                                        q / 64,
                                    ));
                                }
                            }
                            assert(self.d_buffer@ =~= blit_fb_upto(
                                fb0,
                                self.mem@,
                                self.i,
                                x0 as int,
                                y0 as int,
                                r as int,
                                c as int + 1,
                            ));
                        }
                    } else {
                        proof {
                            assert forall|q: int| 0 <= q < 2048 implies blit_pix_upto(
                                fb0,
                                self.mem@,
                                self.i,
                                x0 as int,
                                y0 as int,
                                r as int,
                                c as int + 1,
                                q,
                            ) == blit_pix_upto(
                                fb0,
                                self.mem@,
                                self.i,
                                x0 as int,
                                y0 as int,
                                r as int,
                                c as int,
                                q,
                            ) by {}
                            assert(self.d_buffer@ =~= blit_fb_upto(
                                fb0,
                                self.mem@,
                                self.i,
                                x0 as int,
                                y0 as int,
                                r as int,
                                c as int + 1,
                            ));
                        }
                    }
                    c += 1;
                }
                proof {
                    lemma_blit_roll_row(
                        fb0,
                        self.mem@,
                        self.i,
                        x0 as int,
                        y0 as int,
                        r as int,
                    );
                }
            } else {
                proof {
                    lemma_blit_row_clipped(
                        fb0,
                        self.mem@,
                        self.i,
                        x0 as int,
                        y0 as int,
                        r as int,
                    );
                }
            }
            r += 1;
        }
        proof {
            assert(self@ =~= (CpuView { fb: self.d_buffer@, ..old(self)@ }));
        }
        Ok(collision)
    }

    /// DXYN: draw a sprite and record the collision in VF.
    fn do_draw(&mut self, ins: u16) -> (r: Result<bool, ExecuteError>)
        requires
            old(self).wf(),
            old(self)@.pc + 1 < 4096,
        ensures
            final(self).wf(),
            (final(self)@, r) == exec_draw(old(self)@, ins),
    {
        let x = ((ins / 0x100) % 0x10) as usize;
        let y = ((ins / 0x10) % 0x10) as usize;
        let n = (ins % 0x10) as u8;
        let vx = self.gp_registers[x];
        let vy = self.gp_registers[y];
        let col = match self.draw_sprite(n, vx, vy) {
            Ok(c) => c,
            Err(_) => {
                proof {
                    assert(false);
                }
                false
            },
        };
        self.gp_registers[0xf] = if col {
            1
        } else {
            0
        };
        self.pc = self.pc + 2;
        proof {
            assert(self@ =~= exec_draw(old(self)@, ins).0);
        }
        Ok(true)
    }

    /// Execute one already-fetched instruction.
    fn dispatch(&mut self, ins: u16, key: Option<u8>) -> (r: Result<bool, ExecuteError>)
        requires
            old(self).wf(),
            old(self)@.pc + 1 < 4096,
        ensures
            final(self).wf(),
            exists|rnd: u8| (final(self)@, r) == #[trigger] exec_ins(old(self)@, ins, key, rnd),
    {
        let fam = ins / 0x1000;
        match fam {
            0x0 => {
                let res = self.do_zero(ins);
                proof {
                    assert((self@, res) == exec_ins(old(self)@, ins, key, 0u8));
                }
                res
            },
            0x1 => {
                let res = self.do_jump(ins);
                proof {
                    assert((self@, res) == exec_ins(old(self)@, ins, key, 0u8));
                }
                res
            },
            0x2 => {
                let res = self.do_call(ins);
                proof {
                    assert((self@, res) == exec_ins(old(self)@, ins, key, 0u8));
                }
                res
            },
            0x3 => {
                let res = self.do_skip_imm(ins, true);
                proof {
                    assert((self@, res) == exec_ins(old(self)@, ins, key, 0u8));
                }
                res
            },
            0x4 => {
                let res = self.do_skip_imm(ins, false);
                proof {
                    assert((self@, res) == exec_ins(old(self)@, ins, key, 0u8));
                }
                res
            },
            0x5 => {
                let res = self.do_skip_reg(ins, true);
                proof {
                    assert((self@, res) == exec_ins(old(self)@, ins, key, 0u8));
                }
                res
            },
            0x6 => {
                let res = self.do_ld_imm(ins);
                proof {
                    assert((self@, res) == exec_ins(old(self)@, ins, key, 0u8));
                }
                res
            },
            0x7 => {
                let res = self.do_add_imm(ins);
                proof {
                    assert((self@, res) == exec_ins(old(self)@, ins, key, 0u8));
                }
                res
            },
            0x8 => {
                let res = self.do_alu(ins);
                proof {
                    assert((self@, res) == exec_ins(old(self)@, ins, key, 0u8));
                }
                res
            },
            0x9 => {
                let res = self.do_skip_reg(ins, false);
                proof {
                    assert((self@, res) == exec_ins(old(self)@, ins, key, 0u8));
                }
                res
            },
            0xa => {
                let res = self.do_ld_i(ins);
                proof {
                    assert((self@, res) == exec_ins(old(self)@, ins, key, 0u8));
                }
                res
            },
            0xb => {
                let res = self.do_jump_v0(ins);
                proof {
                    assert((self@, res) == exec_ins(old(self)@, ins, key, 0u8));
                }
                res
            },
            0xc => {
                let res = self.do_rnd(ins);
                proof {
                    let rv = choose|rv: u8| (self@, res) == #[trigger] exec_rnd(
                        old(self)@,
                        ins,
                        rv,
                    );
                    assert((self@, res) == exec_ins(old(self)@, ins, key, rv));
                }
                res
            },
            0xd => {
                let res = self.do_draw(ins);
                proof {
                    assert((self@, res) == exec_ins(old(self)@, ins, key, 0u8));
                }
                res
            },
            0xe => {
                let res = self.do_key(ins, key);
                proof {
                    assert((self@, res) == exec_ins(old(self)@, ins, key, 0u8));
                }
                res
            },
            _ => {
                let res = self.do_misc(ins, key);
                proof {
                    assert((self@, res) == exec_ins(old(self)@, ins, key, 0u8));
                }
                res
            },
        }
    }

    /// One machine step: poll both timers, fetch the instruction at the
    /// program counter, and execute it. `Ok(true)` reports that the draw
    /// opcode fired, so the caller knows to flush the framebuffer. The
    /// postcondition pins the whole transition down to the two timer polls
    /// (each tick is due or not by the wall clock) and the byte the random
    /// opcode may have drawn.
    pub fn step(&mut self, keyboard: &KeyBoard) -> (r: Result<bool, ExecuteError>)
        requires
            old(self).wf(),
        ensures
            final(self).wf(),
            exists|delay_due: bool, sound_due: bool, rnd: u8|
                (final(self)@, r) == #[trigger] step_after_tick(
                    ticked(old(self)@, delay_due, sound_due),
                    keyboard.key_pressed,
                    rnd,
                ),
    {
        let s_changed = Cpu::handle_timer(&mut self.sound_timer);
        let d_changed = Cpu::handle_timer(&mut self.delay_timer);
        proof {
            assert(self@ =~= ticked(old(self)@, d_changed, s_changed));
        }
        let ghost mid = self@;
        let key = keyboard.get_current_key();
        let ins = match self.get_next_instruction() {
            Ok(i) => i,
            Err(e) => {
                proof {
                    assert((self@, Err::<bool, ExecuteError>(e)) == step_after_tick(
                        ticked(old(self)@, d_changed, s_changed),
                        keyboard.key_pressed,
                        0u8,
                    ));
                }
                return Err(e);
            },
        };
        let res = self.dispatch(ins, key);
        proof {
            let rv = choose|rv: u8| (self@, res) == #[trigger] exec_ins(mid, ins, key, rv);
            assert((self@, res) == step_after_tick(
                ticked(old(self)@, d_changed, s_changed),
                keyboard.key_pressed,
                rv,
            ));
        }
        res
    }
}

/// Store registers V0..=Vx to memory at I, I+1, ..., reading addresses
/// through the 12-bit address space.
fn store_span(mem: &mut Vec<u8>, regs: &Vec<u8>, i: u16, x: usize)
    requires
        old(mem)@.len() == 4096,
        regs@.len() == 16,
        x < 16,
    ensures
        final(mem)@ == store_upto(old(mem)@, i, regs@, x + 1),
        final(mem)@.len() == 4096,
{
    let mut k: usize = 0;
    while k <= x
        invariant
            k <= x + 1,
            x < 16,
            mem@.len() == 4096,
            regs@.len() == 16,
            mem@ == store_upto(old(mem)@, i, regs@, k as int),
        decreases x + 1 - k,
    {
        let addr = (i as usize + k) % 4096;
        mem[addr] = regs[k];
        proof {
            assert(mem@ =~= store_upto(old(mem)@, i, regs@, k + 1));
        }
        k += 1;
    }
}

/// Fill registers V0..=Vx from memory at I, I+1, ..., reading addresses
/// through the 12-bit address space.
fn load_span(regs: &mut Vec<u8>, mem: &Vec<u8>, i: u16, x: usize)
    requires
        old(regs)@.len() == 16,
        mem@.len() == 4096,
        x < 16,
    ensures
        final(regs)@ == load_upto(old(regs)@, mem@, i, x + 1),
        final(regs)@.len() == 16,
{
    let mut k: usize = 0;
    while k <= x
        invariant
            k <= x + 1,
            x < 16,
            regs@.len() == 16,
            mem@.len() == 4096,
            regs@ == load_upto(old(regs)@, mem@, i, k as int),
        decreases x + 1 - k,
    {
        let addr = (i as usize + k) % 4096;
        regs[k] = mem[addr];
        proof {
            assert(regs@ =~= load_upto(old(regs)@, mem@, i, k + 1));
        }
        k += 1;
    }
}

/// Set all 2048 framebuffer cells to zero.
fn fill_zero(v: &mut Vec<u8>)
    requires
        old(v)@.len() == 2048,
    ensures
        final(v)@ == Seq::new(2048, |p: int| 0u8),
{
    let mut p: usize = 0;
    while p < 2048
        invariant
            p <= 2048,
            v@.len() == 2048,
            forall|j: int| 0 <= j < p ==> v@[j] == 0,
        decreases 2048 - p,
    {
        v[p] = 0;
        p += 1;
    }
    proof {
        assert(v@ =~= Seq::new(2048, |q: int| 0u8));
    }
}

} // verus!
