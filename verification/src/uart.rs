//! The 16550 UART, as far as the kernel writes to it.

use vstd::prelude::*;

verus! {

/// The UART's transmit register.
pub struct Uart16550 {
    pub data_register: u8,
}

impl Uart16550 {
    /// Writes the characters of `s` to the data register one by one, each
    /// cut to its low eight bits. Returns the bytes written, in order.
    pub fn write_str(&mut self, s: &str) -> (r: Vec<u8>)
        ensures
            r@ == s@.map_values(|c: char| c as u8),
            s@.len() > 0 ==> final(self).data_register == s@.last() as u8,
            s@.len() == 0 ==> final(self).data_register == old(self).data_register,
    {
        let mut out: Vec<u8> = Vec::new();
        for character in it: s.chars()
            invariant
                it.seq() == s@,
                out@ == s@.take(it.index() as int).map_values(|c: char| c as u8),
                it.index() > 0 ==> self.data_register == s@[it.index() - 1] as u8,
                it.index() == 0 ==> self.data_register == old(self).data_register,
        {
            self.data_register = character as u8;
            out.push(character as u8);
        }
        assert(s@.take(s@.len() as int) =~= s@);
        out
    }
}

} // verus!
