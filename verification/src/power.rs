//! The QEMU `syscon` device that powers the machine off or reboots it.

use vstd::prelude::*;

verus! {

/// The value that powers the machine off.
pub const POWEROFF: u16 = 0x5555;
/// The value that reboots the machine.
pub const REBOOT: u16 = 0x7777;

/// The syscon register block.
pub struct Syscon {
    pub data_register: u16,
}

impl Syscon {
    pub fn poweroff(&mut self)
        ensures
            final(self).data_register == POWEROFF,
    {
        self.data_register = POWEROFF;
    }

    pub fn reboot(&mut self)
        ensures
            final(self).data_register == REBOOT,
    {
        self.data_register = REBOOT;
    }
}

} // verus!
