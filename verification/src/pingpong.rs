//! Ping-pong surface pairs.
//!
//! A multi-pass algorithm reads one slot while writing the other, and the
//! designation flips after every pass. The pair is modelled exactly that
//! way: two slots plus a single current-output index toggled by `1 - i`, so
//! the two slots are never writable at the same time.

use vstd::prelude::*;

verus! {

/// Two equally-shaped surfaces alternately used as read source and write
/// destination. `out_idx` designates the current output slot; the other slot
/// is the current input. Shape equality of the slots is the owner's
/// invariant, since `T` itself carries the dimensions.
pub struct PingPong<T> {
    pub slot_a: T,
    pub slot_b: T,
    pub out_idx: usize,
}

impl<T> PingPong<T> {
    /// The designation index is a slot index.
    pub open spec fn wf(self) -> bool {
        self.out_idx <= 1
    }

    /// The slot a pass writes next.
    pub open spec fn cur_out(self) -> T {
        if self.out_idx == 0 {
            self.slot_a
        } else {
            self.slot_b
        }
    }

    /// The slot a pass reads next.
    pub open spec fn cur_in(self) -> T {
        if self.out_idx == 0 {
            self.slot_b
        } else {
            self.slot_a
        }
    }

    /// A fresh pair; slot `a` is the first output.
    pub fn new(a: T, b: T) -> (p: PingPong<T>)
        ensures
            p.wf(),
            p.out_idx == 0,
            p.slot_a == a,
            p.slot_b == b,
    {
        PingPong { slot_a: a, slot_b: b, out_idx: 0 }
    }

    /// Make slot `a` the output slot again, leaving both slots' contents
    /// alone. Each frame starts from this designation, which keeps the
    /// ping-pong state frame-local.
    pub fn reset(&mut self)
        ensures
            final(self).wf(),
            final(self).out_idx == 0,
            final(self).slot_a == old(self).slot_a,
            final(self).slot_b == old(self).slot_b,
    {
        self.out_idx = 0;
    }

    /// Borrow the current input slot.
    pub fn input(&self) -> (r: &T)
        requires
            self.wf(),
        ensures
            *r == self.cur_in(),
    {
        if self.out_idx == 0 {
            &self.slot_b
        } else {
            &self.slot_a
        }
    }

    /// Replace the contents of the current output slot.
    pub fn set_output(&mut self, v: T)
        requires
            old(self).wf(),
        ensures
            final(self).wf(),
            final(self).out_idx == old(self).out_idx,
            final(self).cur_out() == v,
            final(self).cur_in() == old(self).cur_in(),
    {
        if self.out_idx == 0 {
            self.slot_a = v;
        } else {
            self.slot_b = v;
        }
    }

    /// Flip the read/write designation.
    pub fn swap(&mut self)
        requires
            old(self).wf(),
        ensures
            final(self).wf(),
            final(self).out_idx == 1 - old(self).out_idx,
            final(self).slot_a == old(self).slot_a,
            final(self).slot_b == old(self).slot_b,
            final(self).cur_out() == old(self).cur_in(),
            final(self).cur_in() == old(self).cur_out(),
    {
        self.out_idx = 1 - self.out_idx;
    }
}

} // verus!
