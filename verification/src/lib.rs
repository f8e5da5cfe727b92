//! A verified CHIP-8 virtual machine core: the 35-opcode fetch-decode-execute
//! cycle, the XOR sprite renderer over a 64x32 one-bit framebuffer, the two
//! lazily polled 60 Hz countdown timers, and the single-slot hex keypad.

pub mod cli;
pub mod cpu;
pub mod ext;
pub mod host;
pub mod keyboard;
pub mod semantics;
