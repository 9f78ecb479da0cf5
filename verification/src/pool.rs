//! Buffers kept for reuse.
//!
//! Rendering allocates nothing: what it needs a buffer for it takes from here, and gives
//! back when it is done. A pool is set up with as many buffers as are ever out at once.

use crate::single::Single;
use vstd::prelude::*;

verus! {

/// Buffers that nobody uses at the moment.
#[derive(Debug, Clone)]
pub struct Pool {
    pub spare: Vec<Vec<Single>>,
}

impl Pool {
    /// A pool of so many buffers, with room for so many samples each. Not for the callback:
    /// it allocates them all.
    pub fn new(buffers: usize, samples: usize) -> (p: Pool)
        ensures
            p.spare@.len() == buffers,
            forall|i: int| 0 <= i < buffers ==> (#[trigger] p.spare@[i])@.len() == 0,
    {
        let mut spare: Vec<Vec<Single>> = Vec::with_capacity(buffers);
        let mut i: usize = 0;
        while i < buffers
            invariant
                i <= buffers,
                spare@.len() == i,
                forall|k: int| 0 <= k < i ==> (#[trigger] spare@[k])@.len() == 0,
            decreases buffers - i,
        {
            spare.push(Vec::with_capacity(samples));
            i = i + 1;
        }
        Pool { spare }
    }

    /// Takes an empty buffer out. Only a pool that has run out makes a new one.
    pub fn take(&mut self) -> (b: Vec<Single>)
        ensures
            b@ == Seq::<Single>::empty(),
            final(self).spare@ == (if old(self).spare@.len() == 0 {
                old(self).spare@
            } else {
                old(self).spare@.drop_last()
            }),
    {
        match self.spare.pop() {
            Some(b) => {
                let mut b: Vec<Single> = b;
                b.clear();
                b
            },
            None => Vec::new(),
        }
    }

    /// Gives a buffer back, whatever is in it.
    pub fn give(&mut self, b: Vec<Single>)
        ensures
            final(self).spare@ == old(self).spare@.push(b),
    {
        self.spare.push(b);
    }

    /// Gives a buffer back, if there is one.
    pub fn give_any(&mut self, b: Option<Vec<Single>>)
        ensures
            final(self).spare@ == (match b {
                Some(b) => old(self).spare@.push(b),
                None => old(self).spare@,
            }),
    {
        match b {
            Some(b) => self.give(b),
            None => {},
        }
    }
}

} // verus!
