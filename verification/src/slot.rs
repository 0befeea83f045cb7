//! The cell that holds the bytes of one leaf once they have been read.

use crate::error::ParkhayError;
use crate::interval::ByteInterval;
use crate::reader::serve_slot;
use crate::reader::outcome_of;
use crate::reader::ReadOutcome;
use std::sync::Arc;
use vstd::prelude::*;
use vstd::rwlock::RwLock;
use vstd::rwlock::RwLockPredicate;

verus! {

/// A single-assignment cell: empty, or filled once and for good.
pub struct Slot {
    bytes: Option<Vec<u8>>,
}

impl View for Slot {
    type V = Option<Seq<u8>>;

    closed spec fn view(&self) -> Option<Seq<u8>> {
        match self.bytes {
            Some(b) => Some(b@),
            None => None,
        }
    }
}

impl Slot {
    /// An empty cell.
    pub fn new() -> (s: Self)
        ensures
            s@ is None,
    {
        Slot { bytes: None }
    }

    /// Whether the cell holds bytes.
    pub fn is_filled(&self) -> (r: bool)
        ensures
            r == (self@ is Some),
    {
        self.bytes.is_some()
    }

    /// The bytes of the cell, if it holds any.
    pub fn try_get(&self) -> (r: Option<&Vec<u8>>)
        ensures
            r is Some == (self@ is Some),
            r is Some ==> r->0@ == self@->0,
    {
        self.bytes.as_ref()
    }

    /// Fills an empty cell and says `true`; leaves a filled one as it is and
    /// says `false`.
    pub fn fill_once(&mut self, bytes: Vec<u8>) -> (filled: bool)
        ensures
            filled == (old(self)@ is None),
            old(self)@ is None ==> final(self)@ == Some(bytes@),
            old(self)@ is Some ==> final(self)@ == old(self)@,
    {
        if self.bytes.is_some() {
            false
        } else {
            self.bytes = Some(bytes);
            true
        }
    }
}

/// The region `i` is a valid range of `capacity` bytes.
pub open spec fn fits_cell(i: ByteInterval, capacity: nat) -> bool {
    i.0 <= i.1 && i.1 - i.0 + 1 == capacity
}

/// What the lock of a shared cell admits: bytes of one length only.
pub struct SlotRule {
    pub length: nat,
}

impl RwLockPredicate<Slot> for SlotRule {
    open spec fn inv(self, v: Slot) -> bool {
        v@ is Some ==> v@->0.len() == self.length
    }
}

/// A `Slot` that a leaf of the layout and the region reader hold together.
/// It takes the bytes of one region, whose length is fixed when the cell is
/// made. Each access takes the lock for one check or one copy.
pub struct SharedSlot {
    length: u64,
    cell: Arc<RwLock<Slot, SlotRule>>,
}

impl SharedSlot {
    #[verifier::type_invariant]
    spec fn agreed(self) -> bool {
        self.cell.pred().length == self.length
    }

    /// The number of bytes that the cell takes.
    pub closed spec fn capacity(&self) -> nat {
        self.length as nat
    }

    /// A new cell for `length` bytes, which starts empty.
    pub fn new(length: u64) -> (s: Self)
        ensures
            s.capacity() == length,
    {
        let rule = Ghost(SlotRule { length: length as nat });
        SharedSlot { length, cell: Arc::new(RwLock::new(Slot::new(), rule)) }
    }

    /// A second handle on the same cell.
    pub fn share(&self) -> (s: Self)
        ensures
            s.capacity() == self.capacity(),
    {
        proof {
            use_type_invariant(self);
        }
        SharedSlot { length: self.length, cell: self.cell.clone() }
    }

    /// The number of bytes that the cell takes.
    pub fn length(&self) -> (n: u64)
        ensures
            n == self.capacity(),
    {
        self.length
    }

    /// Whether the cell holds bytes when the lock is taken: what
    /// `Slot::is_filled` says of the cell as its holders have left it.
    pub fn is_filled(&self) -> (r: bool) {
        let handle = self.cell.acquire_read();
        let r = handle.borrow().is_filled();
        handle.release_read();
        r
    }

    /// A copy of what `Slot::try_get` gives for the cell as its holders have
    /// left it when the lock is taken: bytes, if there are any, are as many
    /// as the cell takes.
    pub fn try_get(&self) -> (r: Option<Vec<u8>>)
        ensures
            r is Some ==> r->0@.len() == self.capacity(),
    {
        proof {
            use_type_invariant(self);
        }
        let handle = self.cell.acquire_read();
        let r = match handle.borrow().try_get() {
            Some(b) => Some(b.clone()),
            None => None,
        };
        handle.release_read();
        r
    }

    /// Bytes of another length than the cell takes are never stored. Bytes
    /// of that length are handed to `Slot::fill_once` on the cell as its
    /// holders have left it when the lock is taken; says whether this call
    /// filled the cell.
    pub fn fill_once(&self, bytes: Vec<u8>) -> (filled: bool)
        ensures
            filled ==> bytes@.len() == self.capacity(),
    {
        proof {
            use_type_invariant(self);
        }
        if bytes.len() as u64 != self.length {
            return false;
        }
        let (mut slot, handle) = self.cell.acquire_write();
        let filled = slot.fill_once(bytes);
        handle.release_write(slot);
        filled
    }
    /// Serves a request for the region `interval` of `file` on this cell,
    /// under its lock. A region that is no valid range of as many bytes as
    /// the cell takes is refused before anything is read.
    pub fn serve(&self, file: &[u8], interval: ByteInterval) -> (outcome: ReadOutcome)
        ensures
            outcome == ReadOutcome::Failed(ParkhayError::Protocol) <==> !fits_cell(
                interval,
                self.capacity(),
            ),
            outcome != ReadOutcome::Failed(ParkhayError::Protocol) ==> exists|
                held: Option<Seq<u8>>,
            |
                outcome == outcome_of(file@, interval, held),
    {
        proof {
            use_type_invariant(self);
        }
        if interval.0 > interval.1 || interval.1 - interval.0 >= self.length || interval.1
            - interval.0 + 1 != self.length {
            return ReadOutcome::Failed(ParkhayError::Protocol);
        }
        let (mut slot, handle) = self.cell.acquire_write();
        let ghost held = slot@;
        let outcome = serve_slot(file, interval, &mut slot);
        assert(outcome == outcome_of(file@, interval, held));
        handle.release_write(slot);
        outcome
    }
}

} // verus!
