//! The character-device interface a driver offers: a non-blocking
//! read, a blocking write, and an interrupt hook. Drivers talk to
//! device registers directly and are implemented outside the verified
//! core.

use vstd::prelude::*;

verus! {

pub trait CharDevice {
    fn init(&self);

    fn read(&self) -> Option<u8>;

    fn write(&self, ch: u8);

    fn handle_irq(&self);
}

} // verus!
