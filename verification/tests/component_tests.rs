use chip8::cli::Chip8Command;
use chip8::cpu::{Cpu, ExecuteError, LoadError, MAX_PROGRAM_SIZE};
use chip8::ext::{scale_d_buffer, ToARGB};
use chip8::keyboard::KeyBoard;

fn no_key() -> KeyBoard {
    KeyBoard { key_pressed: None }
}

#[test]
fn keyboard_mailbox_holds_one_key() {
    let mut keyboard = KeyBoard::new();
    assert_eq!(keyboard.get_current_key(), None);
    keyboard.set_key_pressed(Some(0x7));
    assert_eq!(keyboard.get_current_key(), Some(0x7));
    keyboard.set_key_pressed(Some(0xf));
    assert_eq!(keyboard.get_current_key(), Some(0xf));
    keyboard.set_key_pressed(None);
    assert_eq!(keyboard.get_current_key(), None);
}

#[test]
fn program_size_boundary() {
    let mut cpu = Cpu::init(false);
    let exact = vec![0u8; MAX_PROGRAM_SIZE];
    assert!(cpu.add_program(&exact).is_ok());
    assert_eq!(cpu.program_end_addr, 0x200 + MAX_PROGRAM_SIZE);

    let mut cpu = Cpu::init(false);
    let over = vec![0u8; MAX_PROGRAM_SIZE + 1];
    assert_eq!(cpu.add_program(&over), Err(LoadError::ProgramTooLarge));
    assert_eq!(cpu.program_end_addr, 0, "a rejected program changes nothing");
}

#[test]
fn empty_program_add_is_ok() {
    let mut cpu = Cpu::init(false);
    assert!(cpu.add_program(&[]).is_ok());
    assert_eq!(cpu.program_end_addr, 0x200);
}

#[test]
fn fetch_past_memory_end_fails() {
    let mut cpu = Cpu::init(false);
    cpu.add_program(&vec![0x01, 0x11]).expect("program should load");
    cpu.pc = 4095;
    let err = cpu.step(&no_key()).expect_err("the second byte is out of memory");
    assert_eq!(err, ExecuteError::FailedToReadInstruction);
}

#[test]
fn undecodable_opcode_fails() {
    let mut cpu = Cpu::init(false);
    cpu.add_program(&vec![0x00, 0x42]).expect("program should load");
    let err = cpu.step(&no_key()).expect_err("0x0042 is not an instruction");
    assert_eq!(err, ExecuteError::BadInstruction(0x0042));
}

#[test]
fn font_pointer_rejects_non_digit() {
    let mut cpu = Cpu::init(false);
    cpu.gp_registers[0xa] = 0x10;
    cpu.add_program(&vec![0xfa, 0x29]).expect("program should load");
    let err = cpu.step(&no_key()).expect_err("VX above 0xF has no glyph");
    assert_eq!(err, ExecuteError::BadInstruction(0xfa29));
}

#[test]
fn call_overflows_at_depth_sixteen() {
    let mut cpu = Cpu::init(false);
    cpu.add_program(&vec![0x22, 0x00]).expect("program should load");
    for _ in 0..16 {
        cpu.stack.push(0x200);
    }
    cpu.sp = 16;
    let err = cpu.step(&no_key()).expect_err("the call stack is full");
    assert_eq!(err, ExecuteError::MaxCallDepthReached(0x2200));
}

#[test]
fn return_with_empty_stack_fails() {
    let mut cpu = Cpu::init(false);
    cpu.add_program(&vec![0x00, 0xee]).expect("program should load");
    let err = cpu.step(&no_key()).expect_err("there is nothing to return to");
    assert_eq!(err, ExecuteError::BadReturn(0x00ee));
}

#[test]
fn return_to_invalid_address_fails() {
    let mut cpu = Cpu::init(false);
    cpu.add_program(&vec![0x00, 0xee]).expect("program should load");
    cpu.stack.push(0x500);
    cpu.sp = 1;
    let err = cpu.step(&no_key()).expect_err("0x500 is past the program end");
    assert_eq!(err, ExecuteError::BadJumpAddr(0x00ee));
}

#[test]
fn font_glyphs_are_canonical() {
    let cpu = Cpu::init(false);
    assert_eq!(&cpu.mem[0..5], &[0xf0, 0x90, 0x90, 0x90, 0xf0], "glyph 0");
    assert_eq!(&cpu.mem[20..25], &[0x90, 0x90, 0xf0, 0x10, 0x10], "glyph 4");
    assert_eq!(&cpu.mem[25..30], &[0xf0, 0x80, 0xf0, 0x10, 0xf0], "glyph 5");
    assert_eq!(&cpu.mem[30..35], &[0xf0, 0x80, 0xf0, 0x90, 0xf0], "glyph 6");
    assert_eq!(&cpu.mem[40..45], &[0xf0, 0x90, 0xf0, 0x90, 0xf0], "glyph 8");
    assert_eq!(&cpu.mem[45..50], &[0xf0, 0x90, 0xf0, 0x10, 0xf0], "glyph 9");
    assert_eq!(&cpu.mem[75..80], &[0xf0, 0x80, 0xf0, 0x80, 0x80], "glyph F");
    assert!(cpu.mem[80..].iter().all(|&b| b == 0));
}

#[test]
fn font_pointer_finds_glyph() {
    let mut cpu = Cpu::init(false);
    cpu.gp_registers[0xa] = 0x4;
    cpu.add_program(&vec![0xfa, 0x29]).expect("program should load");
    cpu.step(&no_key()).expect("LD F should execute");
    assert_eq!(cpu.i, 20, "glyphs are five bytes each");
}

#[test]
fn index_add_wraps_sixteen_bits() {
    let mut cpu = Cpu::init(false);
    cpu.i = 0xffff;
    cpu.gp_registers[0xa] = 2;
    cpu.add_program(&vec![0xfa, 0x1e]).expect("program should load");
    cpu.step(&no_key()).expect("ADD I should execute");
    assert_eq!(cpu.i, 1);
}

#[test]
fn delay_timer_loads_and_reads() {
    let mut cpu = Cpu::init(false);
    cpu.gp_registers[0xa] = 5;
    cpu.add_program(&vec![0xfa, 0x15, 0xfb, 0x07])
        .expect("program should load");
    cpu.step(&no_key()).expect("LD DT should execute");
    assert_eq!(cpu.delay_timer.0, 5);
    cpu.step(&no_key()).expect("LD VX, DT should execute");
    assert!(
        cpu.gp_registers[0xb] == 5 || cpu.gp_registers[0xb] == 4,
        "at most one sixtieth of a second can have passed"
    );
}

#[test]
fn delay_timer_counts_down_with_the_clock() {
    let mut cpu = Cpu::init(false);
    cpu.gp_registers[0xa] = 1;
    cpu.add_program(&vec![0xfa, 0x15, 0xfb, 0x07])
        .expect("program should load");
    cpu.step(&no_key()).expect("LD DT should execute");
    let start = std::time::Instant::now();
    while start.elapsed() < std::time::Duration::from_millis(40) {
        // busy-wait well past one sixtieth of a second
    }
    cpu.step(&no_key()).expect("LD VX, DT should execute");
    assert_eq!(cpu.gp_registers[0xb], 0, "one tick was due and taken");
    assert_eq!(cpu.delay_timer.0, 0);
}

#[test]
fn reset_clears_dynamic_state_only() {
    let mut cpu = Cpu::init(false);
    cpu.add_program(&vec![0x6a, 0x51, 0x01, 0x11])
        .expect("program should load");
    cpu.step(&no_key()).expect("LD should execute");
    cpu.d_buffer[3] = 1;
    cpu.reset();
    assert_eq!(cpu.pc, 0x200);
    assert_eq!(cpu.i, 0);
    assert_eq!(cpu.sp, 0);
    assert!(cpu.stack.is_empty());
    assert_eq!(cpu.delay_timer.0, 0);
    assert_eq!(cpu.sound_timer.0, 0);
    assert!(cpu.mem[0x200..0x204].iter().all(|&b| b == 0), "program bytes zeroed");
    assert_eq!(cpu.mem[0], 0xf0, "the font survives a reset");
    assert_eq!(cpu.gp_registers[0xa], 0x51, "registers survive a reset");
    assert_eq!(cpu.d_buffer[3], 1, "the framebuffer survives a reset");
    assert_eq!(cpu.program_end_addr, 0x204, "the program shape survives");
}

#[test]
fn pixel_colors() {
    assert_eq!(1u8.to_argb(), u32::MAX);
    assert_eq!(0u8.to_argb(), 0);
    assert_eq!(2u8.to_argb(), 0);
}

#[test]
fn scaling_expands_each_pixel_to_a_block() {
    let mut d_buffer = vec![0u8; 2048];
    d_buffer[1 * 64 + 1] = 1; // pixel (1, 1)
    let mut scaled = vec![0u32; 131072];
    scale_d_buffer(&d_buffer, &mut scaled);
    assert_eq!(scaled[8 * 512 + 8], u32::MAX, "top-left corner of the block");
    assert_eq!(scaled[15 * 512 + 15], u32::MAX, "bottom-right corner");
    assert_eq!(scaled[0], 0, "the block of pixel (0,0) stays dark");
    assert_eq!(scaled[16 * 512 + 8], 0, "the row below the block stays dark");
    assert_eq!(scaled[8 * 512 + 16], 0, "the column right of the block stays dark");
}

#[test]
fn command_carries_the_request() {
    let cmd = Chip8Command::Emulate {
        src: String::from("breakout.c8"),
        debug: true,
        timing: false,
    };
    match cmd {
        Chip8Command::Emulate { src, debug, timing } => {
            assert_eq!(src, "breakout.c8");
            assert!(debug);
            assert!(!timing);
        }
        Chip8Command::PrintKeyMap => unreachable!("an emulate command was built"),
    }
    match Chip8Command::PrintKeyMap {
        Chip8Command::PrintKeyMap => {}
        _ => unreachable!("a key map command was built"),
    }
}
