//! The character-device capability the kernel consumes for its
//! console: blocking read, write, and an interrupt hook. Implementors
//! drive real device registers, so they live outside the verified
//! core.

use vstd::prelude::*;

verus! {

pub trait CharDevice {
    fn init(&self);

    fn read(&self) -> u8;

    fn write(&self, ch: u8);

    fn handle_irq(&self);
}

} // verus!
