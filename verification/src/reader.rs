//! The region reader: what it does with one request for the bytes of a
//! region.

use crate::error::IoFault;
use crate::error::ParkhayError;
use crate::interval::ByteInterval;
use crate::slot::fits_cell;
use crate::slot::SharedSlot;
use crate::slot::Slot;
use vstd::prelude::*;
use vstd::slice::slice_subrange;

verus! {

/// A request for the bytes of the region `.0`, to be stored in the cell `.1`.
pub struct ReadRequest(pub ByteInterval, pub SharedSlot);

/// How a request ended.
#[derive(Clone, Copy, Debug, PartialEq, Eq, Structural)]
pub enum ReadOutcome {
    /// The cell held bytes already: nothing was read.
    Skipped,
    /// The bytes were read and stored: the requester is to be notified.
    Filled,
    /// The bytes could not be read or stored: the cell is as it was.
    Failed(ParkhayError),
}

/// The bytes of the region `i` of `file`, if the region is a valid range
/// inside the file.
pub open spec fn region_of(file: Seq<u8>, i: ByteInterval) -> Option<Seq<u8>> {
    if i.0 <= i.1 < file.len() {
        Some(file.subrange(i.0 as int, i.1 + 1))
    } else {
        None
    }
}

/// How a request for the region `i` ends on a cell that holds `slot`.
pub open spec fn outcome_of(file: Seq<u8>, i: ByteInterval, slot: Option<Seq<u8>>) -> ReadOutcome {
    if slot is Some {
        ReadOutcome::Skipped
    } else if region_of(file, i) is Some {
        ReadOutcome::Filled
    } else {
        ReadOutcome::Failed(ParkhayError::Io(IoFault::ShortRead))
    }
}

/// What a cell that held `slot` holds after a request for the region `i`.
pub open spec fn slot_after(file: Seq<u8>, i: ByteInterval, slot: Option<Seq<u8>>) -> Option<
    Seq<u8>,
> {
    if slot is Some {
        slot
    } else {
        region_of(file, i)
    }
}

/// Reads exactly the bytes of `interval` from `file`. A region that is no
/// valid range, or that ends behind the file, is a short read.
pub fn read_region(file: &[u8], interval: ByteInterval) -> (r: Result<Vec<u8>, ParkhayError>)
    ensures
        match region_of(file@, interval) {
            Some(bytes) => r is Ok && r->Ok_0@ == bytes,
            None => r is Err && r->Err_0 == ParkhayError::Io(IoFault::ShortRead),
        },
{
    let n = file.len();
    if interval.0 > interval.1 || interval.1 >= n as u64 {
        return Err(ParkhayError::Io(IoFault::ShortRead));
    }
    let region = slice_subrange(file, interval.0 as usize, interval.1 as usize + 1);
    let mut bytes: Vec<u8> = Vec::new();
    let mut k: usize = 0;
    while k < region.len()
        invariant
            0 <= k <= region@.len(),
            bytes@ == region@.subrange(0, k as int),
        decreases region@.len() - k,
    {
        bytes.push(region[k]);
        assert(region@.subrange(0, k + 1) =~= region@.subrange(0, k as int).push(region@[k as int]));
        k = k + 1;
    }
    assert(region@.subrange(0, k as int) =~= region@);
    Ok(bytes)
}

/// Serves one request on a cell: reads nothing if the cell holds bytes,
/// else reads the region and fills the cell with it. A failed read leaves
/// the cell empty.
pub fn serve_slot(file: &[u8], interval: ByteInterval, slot: &mut Slot) -> (outcome: ReadOutcome)
    ensures
        outcome == outcome_of(file@, interval, old(slot)@),
        final(slot)@ == slot_after(file@, interval, old(slot)@),
{
    if slot.is_filled() {
        return ReadOutcome::Skipped;
    }
    match read_region(file, interval) {
        Ok(bytes) => {
            slot.fill_once(bytes);
            ReadOutcome::Filled
        },
        Err(e) => ReadOutcome::Failed(e),
    }
}

/// Idempotence: once a request for a readable region has been served, the
/// cell holds bytes, and a second request for the same region reads
/// nothing and leaves the cell as it is. A cell that was empty before the
/// first request holds exactly the bytes of the region.
pub proof fn lemma_serve_twice(file: Seq<u8>, i: ByteInterval, slot: Option<Seq<u8>>)
    requires
        region_of(file, i) is Some,
    ensures
        slot_after(file, i, slot) is Some,
        slot is None ==> outcome_of(file, i, slot) == ReadOutcome::Filled && slot_after(
            file,
            i,
            slot,
        ) == region_of(file, i),
        outcome_of(file, i, slot_after(file, i, slot)) == ReadOutcome::Skipped,
        slot_after(file, i, slot_after(file, i, slot)) == slot_after(file, i, slot),
{
}

/// The region reader of one file: it holds the bytes of the file and serves
/// requests for regions of it.
pub struct RegionReader {
    file: Vec<u8>,
}

impl RegionReader {
    /// The bytes that the reader reads from.
    pub closed spec fn bytes(&self) -> Seq<u8> {
        self.file@
    }

    /// A reader of `file`.
    pub fn new(file: Vec<u8>) -> (r: Self)
        ensures
            r.bytes() == file@,
    {
        RegionReader { file }
    }

    /// Serves one request. A request whose region is no valid range of as
    /// many bytes as its cell takes is refused, and that is the only
    /// protocol failure.
    /// Otherwise the request is served on the cell as `serve_slot` says, on
    /// what the cell holds when the reader gets to it: a failure is a short
    /// read, and a request for a readable region never fails.
    pub fn serve(&self, request: &ReadRequest) -> (outcome: ReadOutcome)
        ensures
            outcome == ReadOutcome::Failed(ParkhayError::Protocol) <==> !fits_cell(
                request.0,
                request.1.capacity(),
            ),
            outcome != ReadOutcome::Failed(ParkhayError::Protocol) ==> exists|
                held: Option<Seq<u8>>,
            |
                outcome == outcome_of(self.bytes(), request.0, held),
            outcome is Failed && outcome != ReadOutcome::Failed(ParkhayError::Protocol)
                ==> outcome == ReadOutcome::Failed(ParkhayError::Io(IoFault::ShortRead))
                && region_of(self.bytes(), request.0) is None,
    {
        request.1.serve(self.file.as_slice(), request.0)
    }
}

} // verus!
