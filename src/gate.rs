//! The concurrency gate: a counting admission control with a fixed capacity.
use vstd::prelude::*;

verus! {

/// A counting gate that admits at most `capacity` holders at a time.
pub struct Gate {
    capacity: usize,
    held: usize,
}

/// What a gate is: its capacity and the number of admissions held now.
pub ghost struct GateView {
    pub capacity: nat,
    pub held: nat,
}

impl GateView {
    /// A gate is well formed when it has a slot and holds no more than its slots.
    pub open spec fn wf(self) -> bool {
        &&& self.capacity >= 1
        &&& self.held <= self.capacity
    }

    /// Admission succeeds exactly when a slot is free.
    pub open spec fn can_admit(self) -> bool {
        self.held < self.capacity
    }

    pub open spec fn acquired(self) -> GateView {
        if self.can_admit() {
            GateView { held: self.held + 1, ..self }
        } else {
            self
        }
    }

    pub open spec fn released(self) -> GateView {
        if self.held > 0 {
            GateView { held: (self.held - 1) as nat, ..self }
        } else {
            self
        }
    }
}

impl View for Gate {
    type V = GateView;

    closed spec fn view(&self) -> GateView {
        GateView { capacity: self.capacity as nat, held: self.held as nat }
    }
}

impl Gate {
    /// A gate with `capacity` slots, all free.
    pub fn new(capacity: usize) -> (g: Gate)
        requires
            capacity >= 1,
        ensures
            g@ == (GateView { capacity: capacity as nat, held: 0 }),
            g@.wf(),
    {
        Gate { capacity, held: 0 }
    }

    pub fn capacity(&self) -> (r: usize)
        ensures
            r == self@.capacity,
    {
        self.capacity
    }

    /// The number of admissions held now.
    pub fn held(&self) -> (r: usize)
        ensures
            r == self@.held,
    {
        self.held
    }

    /// Takes one slot if one is free; tells whether it did.
    pub fn try_acquire(&mut self) -> (admitted: bool)
        requires
            old(self)@.wf(),
        ensures
            admitted == old(self)@.can_admit(),
            final(self)@ == old(self)@.acquired(),
            final(self)@.wf(),
    {
        if self.held < self.capacity {
            self.held = self.held + 1;
            true
        } else {
            false
        }
    }

    /// Returns one held slot to the free pool.
    pub fn release(&mut self)
        requires
            old(self)@.wf(),
            old(self)@.held > 0,
        ensures
            final(self)@ == old(self)@.released(),
            final(self)@.held == old(self)@.held - 1,
            final(self)@.wf(),
    {
        self.held = self.held - 1;
    }
}

} // verus!
