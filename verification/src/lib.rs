//! Single-producer single-consumer message channel over a shared ring buffer.
//!
//! The library holds the verified core of the channel: the ring buffer with
//! its cursor arithmetic and the length-prefixed framing protocol for
//! variable-size records (`queue`), the occupancy accounting of the endpoint
//! (this module), and the wait/wake decision logic of the synchronizer
//! (`sync`). The operating-system glue — mapping the named shared-memory
//! object, the atomic occupancy counter, and the blocking kernel calls —
//! lives in the unverified shell around the library, which drives these
//! verified pieces and blocks exactly where their contracts say an operation
//! must wait.

use vstd::prelude::*;

pub mod error;
pub mod queue;
pub mod sync;

use error::ShmemError;
use queue::{spec_rec_cost, spec_recs_cost, ShmemQueue};
use sync::{Role, Synchronizer};

verus! {

/// The result of setting one side of the channel up.
pub type ShmemResult<T> = Result<T, ShmemError>;

/// Settings for the shared memory queue.
/// Both endpoints of one channel must be constructed from identical
/// settings, or the channel's behavior is undefined.
#[derive(Clone, Debug)]
pub struct ShmemSettings {
    /// Name of the backing shared-memory object; on POSIX-style systems it
    /// should start with a '/' prefix.
    pub name: String,
    /// Capacity of the queue, counted in elements of the queue's element
    /// type (so in bytes for a byte ring used in slice mode).
    pub size: usize,
}

/// One endpoint's view of the shared memory queue: the payload ring, the
/// wait/wake decision logic for this endpoint's role, and the occupancy
/// counter that gates every read and write.
///
/// Exactly one producer and one consumer may drive one channel; the model
/// here holds both cursors of that pair, so the contracts describe the whole
/// channel's state as the two sides together evolve it.
pub struct ShmemEndpoint<T> {
    shm: ShmemQueue<T>,
    sync: Synchronizer,
    occupancy: u32,
}

impl<T: Copy> ShmemEndpoint<T> {
    /// The pending fixed-size elements, oldest first, as contracts see them.
    pub closed spec fn elements(self) -> Seq<T> {
        self.shm.elements()
    }

    /// The occupancy counter, as contracts see it: the number of pending
    /// elements in fixed mode, the pending framed bytes in slice mode.
    pub closed spec fn spec_occupancy(self) -> int {
        self.occupancy as int
    }

    /// The queue's capacity, as contracts see it.
    pub closed spec fn spec_capacity(self) -> int {
        self.shm.spec_capacity()
    }

    /// The role this endpoint blocks and wakes as.
    pub closed spec fn spec_role(self) -> Role {
        self.sync.spec_role()
    }

    /// Well-formedness in fixed mode: the ring is well formed and the
    /// occupancy counter equals the number of pending elements.
    pub closed spec fn wf(self) -> bool {
        &&& self.shm.wf_fixed()
        &&& self.occupancy == self.shm.elements().len()
    }

    /// Opens one endpoint of the queue over a fresh zero-initialized
    /// segment; `fill` stands in for the zeroed payload memory. Both sides
    /// must use identical settings.
    pub fn new(settings: ShmemSettings, role: Role, fill: T) -> (e: Self)
        requires
            0 < settings.size <= u32::MAX,
        ensures
            e.wf(),
            e.elements() == Seq::<T>::empty(),
            e.spec_occupancy() == 0,
            e.spec_capacity() == settings.size,
            e.spec_role() == role,
    {
        let shm = ShmemQueue::new(&settings, fill);
        let sync = Synchronizer::new(role);
        ShmemEndpoint { shm, sync, occupancy: 0 }
    }

    /// The wait/wake decision logic of this endpoint, for the shell that
    /// issues the kernel calls.
    pub fn synchronizer(&self) -> (s: &Synchronizer)
        ensures
            s.spec_role() == self.spec_role(),
    {
        &self.sync
    }

    /// Whether the queue's capacity is exhausted at this instant: the
    /// producer must wait exactly while this holds.
    pub fn is_full(&self) -> (r: bool)
        ensures
            r == (self.spec_occupancy() == self.spec_capacity()),
    {
        self.occupancy == self.shm.capacity()
    }

    /// Whether a pending element is available at this instant: the consumer
    /// must wait exactly while this is false.
    pub fn is_empty(&self) -> (r: bool)
        ensures
            r == (self.spec_occupancy() == 0),
    {
        self.occupancy == 0
    }

    /// The occupancy counter's current value.
    pub fn occupancy(&self) -> (r: u32)
        ensures
            r as int == self.spec_occupancy(),
    {
        self.occupancy
    }

    /// The queue's capacity in elements.
    pub fn capacity(&self) -> (r: u32)
        ensures
            r as int == self.spec_capacity(),
    {
        self.shm.capacity()
    }

    /// Occupancy bound: a well-formed endpoint's occupancy counter always
    /// lies between zero and the capacity; the producer's gate (`is_full`)
    /// and the consumer's gate (`is_empty`) therefore check exactly the two
    /// boundary states.
    pub proof fn lemma_occupancy_bounded(&self)
        requires
            self.wf(),
        ensures
            0 <= self.spec_occupancy() <= self.spec_capacity(),
            0 < self.spec_capacity(),
    {
        self.shm.lemma_fixed_occupancy_bound();
    }

    /// Sends one message: writes the element at the write cursor and
    /// increments the occupancy. The caller — the blocking loop around the
    /// library — must have seen free capacity first and blocks while
    /// `is_full()`. Returns whether the queue was empty before, i.e. whether
    /// a consumer possibly sleeping on empty must now be woken.
    pub fn produce(&mut self, val: T) -> (wake: bool)
        requires
            old(self).wf(),
            old(self).spec_occupancy() < old(self).spec_capacity(),
        ensures
            final(self).wf(),
            final(self).elements() == old(self).elements().push(val),
            final(self).spec_occupancy() == old(self).spec_occupancy() + 1,
            final(self).spec_capacity() == old(self).spec_capacity(),
            final(self).spec_role() == old(self).spec_role(),
            wake == (old(self).spec_occupancy() == 0),
    {
        let wake = self.occupancy == 0;
        proof {
            self.shm.lemma_fixed_occupancy_bound();
        }
        self.shm.write(val);
        self.occupancy = self.occupancy + 1;
        wake
    }

    /// Receives one message: reads the element at the read cursor and
    /// decrements the occupancy. The caller must have seen a pending element
    /// first and blocks while `is_empty()`. Beside the element, returns
    /// whether the queue was full before, i.e. whether a producer possibly
    /// sleeping on full must now be woken.
    pub fn consume(&mut self) -> (r: (T, bool))
        requires
            old(self).wf(),
            old(self).spec_occupancy() > 0,
        ensures
            final(self).wf(),
            r.0 == old(self).elements().first(),
            final(self).elements() == old(self).elements().drop_first(),
            final(self).spec_occupancy() == old(self).spec_occupancy() - 1,
            final(self).spec_capacity() == old(self).spec_capacity(),
            final(self).spec_role() == old(self).spec_role(),
            r.1 == (old(self).spec_occupancy() == old(self).spec_capacity()),
    {
        let wake = self.occupancy == self.shm.capacity();
        let val = self.shm.read();
        self.occupancy = self.occupancy - 1;
        (val, wake)
    }
}

/// The record a consumer took out of a byte-mode channel. The payload is
/// copied out of the ring when the record is consumed, and the slot is
/// released in the same step — the consumer's occupancy decrement is
/// recomputed from the record's own length, so the record describes itself.
pub struct SliceGuard {
    bytes: Vec<u8>,
}

impl SliceGuard {
    /// The record's payload, as contracts see it.
    pub closed spec fn spec_bytes(self) -> Seq<u8> {
        self.bytes@
    }

    /// The record's payload bytes.
    pub fn as_slice(&self) -> (r: &[u8])
        ensures
            r@ == self.spec_bytes(),
    {
        self.bytes.as_slice()
    }

    /// The record's payload length in bytes.
    pub fn len(&self) -> (r: usize)
        ensures
            r == self.spec_bytes().len(),
    {
        self.bytes.len()
    }

    /// The record's payload, by value.
    pub fn into_vec(self) -> (r: Vec<u8>)
        ensures
            r@ == self.spec_bytes(),
    {
        self.bytes
    }
}

impl ShmemEndpoint<u8> {
    /// The pending variable-size records, oldest first, as contracts see
    /// them.
    pub closed spec fn records(self) -> Seq<Seq<u8>> {
        self.shm.records()
    }

    /// Well-formedness in slice mode: the byte ring's framing is well formed
    /// and the occupancy counter equals the framed cost of all pending
    /// records.
    pub closed spec fn wf_slice(self) -> bool {
        &&& self.shm.wf_slice()
        &&& self.occupancy == spec_recs_cost(self.shm.records())
    }

    /// Whether a record of `len` payload bytes fits the free span the
    /// cursors leave right now, wrap sentinel included.
    pub closed spec fn can_accept(self, len: int) -> bool {
        self.shm.can_write_slice(len)
    }

    /// Opens one endpoint of a byte-mode queue over a fresh zero-initialized
    /// segment. The capacity must be a positive multiple of 4, the framing
    /// protocol's alignment.
    pub fn new_slice(settings: ShmemSettings, role: Role) -> (e: Self)
        requires
            0 < settings.size <= u32::MAX,
            settings.size % 4 == 0,
        ensures
            e.wf_slice(),
            e.wf(),
            e.records() == Seq::<Seq<u8>>::empty(),
            e.spec_occupancy() == 0,
            e.spec_capacity() == settings.size,
            e.spec_role() == role,
            forall|len: int|
                0 <= len && 4 + queue::spec_roundup4(len) <= settings.size ==> e.can_accept(len),
    {
        let shm = ShmemQueue::new_bytes(&settings);
        let sync = Synchronizer::new(role);
        ShmemEndpoint { shm, sync, occupancy: 0 }
    }

    /// Occupancy bound in slice mode: the counter always lies between zero
    /// and the capacity in bytes.
    pub proof fn lemma_slice_occupancy_bounded(&self)
        requires
            self.wf_slice(),
        ensures
            0 <= self.spec_occupancy() <= self.spec_capacity(),
            0 < self.spec_capacity(),
    {
        self.shm.lemma_slice_occupancy_bound();
    }

    /// Whether a record of `len` payload bytes can be written at this
    /// instant. The occupancy count alone cannot decide this: a wrap can
    /// break the free bytes in two, so the producer's blocking loop polls
    /// this check, not `has_capacity`, before `produce_slice`.
    pub fn has_room(&self, len: u32) -> (r: bool)
        requires
            self.wf_slice(),
        ensures
            r == self.can_accept(len as int),
    {
        self.shm.has_room(len)
    }

    /// Whether the occupancy leaves no room for `extra` more bytes: the
    /// occupancy-counter capacity check, true exactly when
    /// `occupancy + extra >= capacity`. Best effort by design — in a live
    /// channel the counter may move the instant after it was read.
    pub fn has_capacity(&self, extra: u32) -> (r: bool)
        ensures
            r == (self.spec_occupancy() + extra >= self.spec_capacity()),
    {
        (self.occupancy as u64) + (extra as u64) >= (self.shm.capacity() as u64)
    }

    /// Sends one variable-size record: frames it into the byte ring —
    /// wrapping past the ring's end if it does not fit contiguously — and
    /// adds its slot cost, `roundup4(len) + 4`, to the occupancy. The caller
    /// blocks until `has_room` holds. Returns whether the queue was empty
    /// before, i.e. whether a consumer possibly sleeping on empty must now
    /// be woken.
    pub fn produce_slice(&mut self, slice: &[u8]) -> (wake: bool)
        requires
            old(self).wf_slice(),
            old(self).can_accept(slice@.len() as int),
        ensures
            final(self).wf_slice(),
            final(self).records() == old(self).records().push(slice@),
            final(self).spec_occupancy() == old(self).spec_occupancy() + spec_rec_cost(slice@),
            final(self).spec_capacity() == old(self).spec_capacity(),
            final(self).spec_role() == old(self).spec_role(),
            wake == (old(self).spec_occupancy() == 0),
    {
        let wake = self.occupancy == 0;
        let cost = self.shm.write_slice(slice);
        proof {
            queue::lemma_recs_cost_push(old(self).shm.records(), slice@);
            self.shm.lemma_slice_occupancy_bound();
        }
        self.occupancy = self.occupancy + cost;
        wake
    }

    /// Receives one variable-size record: skips the wrap marker if one
    /// stands at the read cursor, copies the record out, and releases its
    /// slot cost — recomputed from the record's own length — from the
    /// occupancy. The caller blocks while `is_empty()`. Beside the record,
    /// returns whether a producer possibly sleeping on full must be woken.
    pub fn consume_slice(&mut self) -> (r: (SliceGuard, bool))
        requires
            old(self).wf_slice(),
            old(self).spec_occupancy() > 0,
        ensures
            final(self).wf_slice(),
            r.0.spec_bytes() == old(self).records().first(),
            final(self).records() == old(self).records().drop_first(),
            final(self).spec_occupancy() == old(self).spec_occupancy() - spec_rec_cost(
                old(self).records().first(),
            ),
            final(self).spec_capacity() == old(self).spec_capacity(),
            final(self).spec_role() == old(self).spec_role(),
            r.1 == (old(self).spec_occupancy() == old(self).spec_capacity()),
    {
        proof {
            if old(self).records().len() == 0 {
                assert(spec_recs_cost(old(self).records()) == 0);
            }
            queue::lemma_recs_cost_bounds(old(self).records().drop_first());
            queue::lemma_rec_cost_bounds(old(self).records().first());
            self.shm.lemma_slice_occupancy_bound();
            assert(spec_recs_cost(old(self).records()) == spec_rec_cost(
                old(self).records().first(),
            ) + spec_recs_cost(old(self).records().drop_first()));
        }
        let wake = self.occupancy == self.shm.capacity();
        let bytes = self.shm.read_slice();
        let len: u32 = bytes.len() as u32;
        let cost = queue::roundup_to_u32_align(len) + 4;
        self.occupancy = self.occupancy - cost;
        (SliceGuard { bytes }, wake)
    }
}

} // verus!
