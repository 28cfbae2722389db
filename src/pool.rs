//! Ownership flags for a fixed set of per-connection buffer slots. A slot is
//! handed out only while no connection holds it.

use vstd::prelude::*;

verus! {

/// Which buffer slots are held by a live connection.
pub struct SlotPool {
    busy: Vec<bool>,
}

impl View for SlotPool {
    type V = Seq<bool>;

    /// One flag per slot, `true` while a connection holds it.
    closed spec fn view(&self) -> Seq<bool> {
        self.busy@
    }
}

impl SlotPool {
    /// A pool of `slots` free slots.
    pub fn new(slots: usize) -> (r: SlotPool)
        ensures
            r@ == Seq::new(slots as nat, |i: int| false),
    {
        let mut busy: Vec<bool> = Vec::new();
        let mut i: usize = 0;
        while i < slots
            invariant
                i <= slots,
                busy@ == Seq::new(i as nat, |j: int| false),
            decreases slots - i,
        {
            busy.push(false);
            i = i + 1;
            assert(busy@ =~= Seq::new(i as nat, |j: int| false));
        }
        SlotPool { busy }
    }

    /// Takes the lowest free slot for a new connection, or `None` when every
    /// slot is held.
    pub fn acquire(&mut self) -> (r: Option<usize>)
        ensures
            r is None <==> forall|j: int| 0 <= j < old(self)@.len() ==> old(self)@[j],
            r is None ==> final(self)@ == old(self)@,
            r matches Some(i) ==> i < old(self)@.len() && !old(self)@[i as int] && (forall|j: int|
                0 <= j < i ==> old(self)@[j]) && final(self)@ == old(self)@.update(i as int, true),
    {
        let mut i: usize = 0;
        while i < self.busy.len()
            invariant
                i <= self.busy@.len(),
                self.busy@ == old(self)@,
                forall|j: int| 0 <= j < i ==> self.busy@[j],
            decreases self.busy@.len() - i,
        {
            if !self.busy[i] {
                self.busy.set(i, true);
                return Some(i);
            }
            i = i + 1;
        }
        None
    }

    /// Gives slot `i` back once the connection that held it has ended.
    pub fn release(&mut self, i: usize)
        requires
            i < old(self)@.len(),
        ensures
            final(self)@ == old(self)@.update(i as int, false),
    {
        self.busy.set(i, false);
    }

    /// Whether slot `i` is held.
    pub fn is_busy(&self, i: usize) -> (r: bool)
        requires
            i < self@.len(),
        ensures
            r == self@[i as int],
    {
        self.busy[i]
    }
}

} // verus!
