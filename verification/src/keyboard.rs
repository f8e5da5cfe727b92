//! The hex keypad: a single-slot mailbox holding at most one currently
//! pressed key (0x0..=0xF), written by the outer shell and read by the CPU.

use vstd::prelude::*;

verus! {

pub struct KeyBoard {
    pub key_pressed: Option<u8>,
}

impl KeyBoard {
    /// A keypad with no key held.
    pub fn new() -> (kb: KeyBoard)
        ensures
            kb.key_pressed is None,
    {
        KeyBoard { key_pressed: None }
    }

    /// The currently held key, if any; never blocks.
    pub fn get_current_key(&self) -> (key: Option<u8>)
        ensures
            key == self.key_pressed,
    {
        self.key_pressed
    }

    /// Replace the currently held key; `None` means no key held.
    pub fn set_key_pressed(&mut self, key: Option<u8>)
        requires
            key matches Some(k) ==> k <= 0xf,
        ensures
            final(self).key_pressed == key,
    {
        self.key_pressed = key;
    }
}

} // verus!
