//! The cult staff: its four shots are held back and sent together, last
//! first, so that they can be spread as the edited assets draw them.

use vstd::prelude::*;
use super::{Module, ModuleInstance};

verus! {

#[derive(Debug, Clone)]
pub struct CultStaff {}

/// The shots of the current volley, fewer than four.
pub struct CultStaffInst<T> {
    pub packets: Vec<T>,
}

impl Module for CultStaff {
    type Instance = CultStaffInst<u8>;

    fn new() -> Self {
        CultStaff {}
    }

    fn instance(&self) -> (r: CultStaffInst<u8>)
        ensures
            r.packets@.len() == 0,
    {
        CultStaffInst::new()
    }
}

impl<T> ModuleInstance for CultStaffInst<T> {}

impl<T> CultStaffInst<T> {
    pub fn new() -> (r: Self)
        ensures
            r.packets@.len() == 0,
    {
        CultStaffInst { packets: Vec::new() }
    }

    /// A shot of the cult staff, which is held back. With the fourth, the
    /// volley is complete: its shots are returned last first, and the next
    /// volley starts empty.
    pub fn shoot(&mut self, packet: T) -> (r: Option<Vec<T>>)
        requires
            old(self).packets@.len() < 4,
        ensures
            final(self).packets@.len() < 4,
            old(self).packets@.len() == 3 ==> (final(self).packets@.len() == 0
                && (r matches Some(v) && v@ == old(self).packets@.push(packet).reverse())),
            old(self).packets@.len() < 3 ==> r is None && final(self).packets@ == old(self).packets@.push(packet),
    {
        self.packets.push(packet);
        if self.packets.len() == 4 {
            let mut out: Vec<T> = Vec::new();
            let ghost full = self.packets@;
            while self.packets.len() > 0
                invariant
                    self.packets@.len() <= 4,
                    full.len() == 4,
                    self.packets@ == full.take(self.packets@.len() as int),
                    out@ == full.skip(self.packets@.len() as int).reverse(),
                decreases self.packets.len(),
            {
                let ghost n = self.packets@.len();
                let p = self.packets.pop().unwrap();
                out.push(p);
                assert(full.skip(n - 1) =~= seq![full[n - 1]] + full.skip(n as int));
                assert(full.skip(n - 1).reverse() =~= full.skip(n as int).reverse().push(full[n - 1]));
                assert(self.packets@ =~= full.take(n - 1));
            }
            assert(full.skip(0) =~= full);
            Some(out)
        } else {
            None
        }
    }
}

} // verus!
