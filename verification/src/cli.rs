//! What the command line asks the emulator to do. Parsing the arguments
//! themselves is the outer shell's business; the core only carries the
//! decoded request.

use vstd::prelude::*;

verus! {

/// A parsed invocation: run a program, or print the key map.
pub enum Chip8Command {
    Emulate { src: String, debug: bool, timing: bool },
    PrintKeyMap,
}

} // verus!
