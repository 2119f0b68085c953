//! The ring buffer at the heart of the channel.
//!
//! A queue of fixed-size elements lives in the payload region of the shared
//! segment, right after the 8-byte header. In fixed mode every element takes
//! one slot and the cursors advance by one slot modulo the capacity. In
//! slice mode (byte element type only) the ring holds length-prefixed
//! variable-size records, 4-byte aligned, and a record is never split across
//! the ring's physical end: when the tail is too short the writer stores a
//! wrap sentinel in place of a length and restarts at offset zero.
//!
//! The module also holds the layout arithmetic of the segment itself — the
//! total byte size and the aligned payload base — which the unverified
//! mapper around the library uses when it sizes and maps the shared object.

use vstd::arithmetic::div_mod::{
    lemma_add_mod_noop, lemma_div_multiples_vanish_fancy, lemma_fundamental_div_mod,
    lemma_mod_multiples_vanish, lemma_mod_self_0, lemma_small_mod,
};
use vstd::prelude::*;

use crate::ShmemSettings;

verus! {

/// Size in bytes of the length field that prefixes every record in slice
/// mode; also the alignment every record is padded to.
pub const LEN_PREFIX_SIZE: u32 = 4;

/// The reserved length value that tells the reader "no record fits before
/// the ring's end here; wrap to offset zero". A real record length is always
/// smaller.
pub const WRAP_SENTINEL: u32 = 0xFFFF_FFFF;

/// Size in bytes of the segment header that precedes the payload region:
/// the 4-byte sync word followed by the 4-byte occupancy counter.
pub const METASIZE: usize = 8;

/// Byte offset of the sync word within the segment.
pub const SYNC_WORD_OFFSET: usize = 0;

/// Byte offset of the occupancy counter within the segment.
pub const OCCUPANCY_OFFSET: usize = 4;

/// A byte length rounded up to the next multiple of 4, as seen by contracts.
pub open spec fn spec_roundup4(n: int) -> int {
    n + (4 - n % 4) % 4
}

/// Rounds a byte length up to the next multiple of the length-field size,
/// used both for the padding of a record's payload and for the element
/// alignment of the byte ring.
pub fn roundup_to_u32_align(val: u32) -> (r: u32)
    requires
        val + 3 <= u32::MAX,
    ensures
        r == spec_roundup4(val as int),
        r % 4 == 0,
        val <= r < val + 4,
{
    val + (LEN_PREFIX_SIZE - val % LEN_PREFIX_SIZE) % LEN_PREFIX_SIZE
}

/// Total byte size of the backing segment for a queue of `size` elements of
/// `elem_size` bytes each: the payload region plus the header. `None` when
/// that size does not fit the machine's address arithmetic.
pub fn segment_length(size: usize, elem_size: usize) -> (r: Option<usize>)
    ensures
        size * elem_size + METASIZE <= usize::MAX ==> r == Some(
            (size * elem_size + METASIZE) as usize,
        ),
        size * elem_size + METASIZE > usize::MAX ==> r is None,
{
    match size.checked_mul(elem_size) {
        Some(payload) => payload.checked_add(METASIZE),
        None => None,
    }
}

/// Byte offset of the payload region's base within the segment: the header
/// rounded up to the element type's required alignment, which may consume a
/// few bytes beyond the header itself.
pub fn aligned_payload_offset(align: usize) -> (r: usize)
    requires
        0 < align <= usize::MAX - METASIZE,
    ensures
        METASIZE <= r < METASIZE + align,
        r as int % align as int == 0,
{
    let pad = (align - METASIZE % align) % align;
    proof {
        let a = align as int;
        let mv = METASIZE as int;
        let m = mv % a;
        lemma_fundamental_div_mod(mv, a);
        if m == 0 {
            lemma_mod_self_0(a);
            assert(pad == 0);
        } else {
            lemma_small_mod((a - m) as nat, a as nat);
            assert(pad == a - m);
            assert((mv + (a - m)) == a * (mv / a + 1)) by (nonlinear_arith)
                requires
                    mv == a * (mv / a) + m,
            ;
            assert((a * (mv / a + 1)) % a == 0) by (nonlinear_arith)
                requires
                    a > 0,
            ;
        }
    }
    METASIZE + pad
}

/// The slot an element `i` places past the read cursor occupies, for a read
/// cursor and an index that together stay under twice the capacity.
pub open spec fn slot_index(read_offset: int, i: int, capacity: int) -> int {
    if read_offset + i < capacity {
        read_offset + i
    } else {
        read_offset + i - capacity
    }
}

/// One-slot advance of a ring cursor, modulo the capacity.
pub fn advance_offset(offset: u32, capacity: u32) -> (r: u32)
    requires
        offset < capacity,
    ensures
        r == (offset + 1) as int % capacity as int,
        r == (if offset + 1 < capacity {
            offset + 1
        } else {
            0
        }),
{
    proof {
        if offset + 1 < capacity {
            lemma_small_mod((offset + 1) as nat, capacity as nat);
        } else {
            lemma_mod_self_0(capacity as int);
        }
    }
    (offset + 1) % capacity
}

/// The cursor position after `n` one-slot advances, as seen by contracts.
pub open spec fn advance_n(offset: int, n: nat, capacity: int) -> int
    decreases n,
{
    if n == 0 {
        offset
    } else {
        advance_n(
            if offset + 1 < capacity {
                offset + 1
            } else {
                0
            },
            (n - 1) as nat,
            capacity,
        )
    }
}

/// `n` one-slot advances of a ring cursor land on `(offset + n) % capacity`.
pub proof fn lemma_cursor_advances(offset: int, n: nat, capacity: int)
    requires
        0 <= offset < capacity,
    ensures
        advance_n(offset, n, capacity) == (offset + n) % capacity,
    decreases n,
{
    if n == 0 {
        lemma_small_mod(offset as nat, capacity as nat);
    } else {
        let step = if offset + 1 < capacity {
            offset + 1
        } else {
            0
        };
        assert(step == (offset + 1) % capacity) by {
            if offset + 1 < capacity {
                lemma_small_mod((offset + 1) as nat, capacity as nat);
            } else {
                lemma_mod_self_0(capacity as int);
            }
        }
        lemma_cursor_advances(step, (n - 1) as nat, capacity);
        assert(((offset + 1) % capacity + (n - 1)) % capacity == (offset + n) % capacity) by {
            lemma_add_mod_noop(offset + 1, (n - 1) as int, capacity);
            lemma_small_mod(((n - 1) as nat) % (capacity as nat), capacity as nat);
            assert(((n - 1) as int % capacity) % capacity == (n - 1) as int % capacity);
        }
    }
}

/// Wrap correctness of the cursor arithmetic: after exactly `capacity`
/// one-slot advances — one full lap of the ring — the cursor is back where
/// it started, with no off-by-one. So writing `capacity + k` elements reuses
/// exactly the first `k` slots for the `k`-element tail.
pub proof fn lemma_cursor_wraps(offset: int, capacity: int)
    requires
        0 <= offset < capacity,
    ensures
        advance_n(offset, capacity as nat, capacity) == offset,
{
    lemma_cursor_advances(offset, capacity as nat, capacity);
    lemma_mod_self_0(capacity);
    lemma_add_mod_noop(offset, capacity, capacity);
    lemma_small_mod(offset as nat, capacity as nat);
}

/// FIFO ordering law: if the queue's pending sequence is `pending`, then
/// after `i` reads — each of which, by `read`'s contract, returns the first
/// pending element and drops it — the next read returns `pending[i]`. So
/// `n` produced values are consumed in exactly their production order.
pub proof fn lemma_fifo<T>(pending: Seq<T>, i: int)
    requires
        0 <= i < pending.len(),
    ensures
        pending.skip(i).first() == pending[i],
        pending.skip(i).drop_first() == pending.skip(i + 1),
{
    assert(pending.skip(i).drop_first() =~= pending.skip(i + 1));
}

/// A 32-bit value assembled from four bytes, least significant first: how
/// the length field of a framed record sits in the byte ring.
pub open spec fn spec_le32(b0: u8, b1: u8, b2: u8, b3: u8) -> u32 {
    (b0 as u32) | ((b1 as u32) << 8) | ((b2 as u32) << 16) | ((b3 as u32) << 24)
}

/// A 32-bit value stored in the ring at byte offset `o`, least significant
/// byte first.
pub open spec fn stores_u32(b: Seq<u8>, o: int, v: u32) -> bool {
    &&& 0 <= o
    &&& o + 4 <= b.len()
    &&& spec_le32(b[o], b[o + 1], b[o + 2], b[o + 3]) == v
}

/// The framed cost in ring bytes of one record: its 4-byte length field
/// plus its payload rounded up to a multiple of 4.
pub open spec fn spec_rec_cost(r: Seq<u8>) -> int {
    4 + spec_roundup4(r.len() as int)
}

/// The framed cost in ring bytes of a pending sequence of records.
pub open spec fn spec_recs_cost(rs: Seq<Seq<u8>>) -> int
    decreases rs.len(),
{
    if rs.len() == 0 {
        0
    } else {
        spec_rec_cost(rs.first()) + spec_recs_cost(rs.drop_first())
    }
}

/// The placement of one framed record in the byte ring, decided from the
/// write cursor, the capacity, and the payload length alone: whether the
/// wrap sentinel must be stored at the cursor first, where the frame's
/// length field goes, and where the cursor stands after the frame.
pub struct WritePlacement {
    /// Store the wrap sentinel at the current write cursor before the frame.
    pub sentinel: bool,
    /// The byte offset the frame starts at: the cursor itself, or zero when
    /// the frame does not fit contiguously before the ring's end.
    pub start: u32,
    /// The write cursor after the frame: `start + 4 + roundup4(len)`.
    pub next: u32,
}

/// Decides where a record of `len` payload bytes goes: in place when its
/// whole frame fits contiguously before the ring's end; at offset zero when
/// no bytes remain there; at offset zero behind a wrap sentinel when some
/// bytes remain but too few for the frame.
pub fn plan_slice_write(offset: u32, capacity: u32, len: u32) -> (p: WritePlacement)
    requires
        offset <= capacity,
        4 + spec_roundup4(len as int) <= capacity,
    ensures
        p.start == (if offset < capacity && capacity - offset >= 4 + spec_roundup4(len as int) {
            offset as int
        } else {
            0
        }),
        p.sentinel == (0 < capacity - offset < 4 + spec_roundup4(len as int)),
        p.next == p.start + 4 + spec_roundup4(len as int),
{
    proof {
        lemma_roundup4_bounds(len as int);
    }
    let rounded = roundup_to_u32_align(len);
    let cost = rounded + 4;
    let remaining = capacity - offset;
    if remaining == 0 {
        WritePlacement { sentinel: false, start: 0, next: cost }
    } else if remaining < cost {
        WritePlacement { sentinel: true, start: 0, next: cost }
    } else {
        WritePlacement { sentinel: false, start: offset, next: offset + cost }
    }
}

/// One record framed at byte offset `o` of the ring: its length field, then
/// its payload; the up-to-three padding bytes after the payload are
/// unconstrained filler.
pub open spec fn frame_at(b: Seq<u8>, o: int, r: Seq<u8>) -> bool {
    &&& 0 <= o
    &&& o + spec_rec_cost(r) <= b.len()
    &&& r.len() < WRAP_SENTINEL
    &&& stores_u32(b, o, r.len() as u32)
    &&& forall|i: int| 0 <= i < r.len() ==> b[o + 4 + i] == r[i]
}

/// Records framed one after the other from byte offset `o` of the ring.
pub open spec fn frames_at(b: Seq<u8>, o: int, rs: Seq<Seq<u8>>) -> bool
    decreases rs.len(),
{
    if rs.len() == 0 {
        true
    } else {
        &&& frame_at(b, o, rs.first())
        &&& frames_at(b, o + spec_rec_cost(rs.first()), rs.drop_first())
    }
}

/// What tells the reader at offset `o` to restart at offset zero: either the
/// ring's physical end, or a stored wrap sentinel in place of a length.
pub open spec fn wrap_marker_at(b: Seq<u8>, o: int) -> bool {
    o == b.len() || stores_u32(b, o, WRAP_SENTINEL)
}

/// Bounds of the rounding: the rounded length is a multiple of 4, no smaller
/// than the length and less than four bytes larger.
pub proof fn lemma_roundup4_bounds(n: int)
    requires
        n >= 0,
    ensures
        n <= spec_roundup4(n) < n + 4,
        spec_roundup4(n) % 4 == 0,
{
    let m = n % 4;
    lemma_fundamental_div_mod(n, 4);
    if m == 0 {
        lemma_small_mod(0, 4);
    } else {
        lemma_small_mod((4 - m) as nat, 4);
        assert(spec_roundup4(n) == 4 * (n / 4) + 4);
        lemma_mod_multiples_vanish(n / 4 + 1, 0, 4);
        lemma_small_mod(0, 4);
    }
}

/// The rounded length, written with division: the form the executable room
/// check computes it in.
proof fn lemma_roundup4_div(n: int)
    requires
        n >= 0,
    ensures
        spec_roundup4(n) == 4 * ((n + 3) / 4),
{
    let m = n % 4;
    lemma_fundamental_div_mod(n, 4);
    lemma_roundup4_bounds(n);
    if m == 0 {
        assert(n + 3 == 4 * (n / 4) + 3);
        lemma_div_multiples_vanish_fancy(n / 4, 3, 4);
    } else {
        assert(n + 3 == 4 * (n / 4 + 1) + (m - 1));
        lemma_div_multiples_vanish_fancy(n / 4 + 1, m - 1, 4);
    }
}

/// Every record costs at least its length field plus nothing, and the cost
/// stays 4-byte aligned.
pub proof fn lemma_rec_cost_bounds(r: Seq<u8>)
    ensures
        4 <= spec_rec_cost(r),
        spec_rec_cost(r) % 4 == 0,
        r.len() <= spec_rec_cost(r) - 4,
{
    lemma_roundup4_bounds(r.len() as int);
}

/// The cost of a pending sequence is nonnegative, 4-byte aligned, and zero
/// exactly on the empty sequence.
pub proof fn lemma_recs_cost_bounds(rs: Seq<Seq<u8>>)
    ensures
        0 <= spec_recs_cost(rs),
        spec_recs_cost(rs) % 4 == 0,
        rs.len() > 0 ==> spec_recs_cost(rs) >= 4,
    decreases rs.len(),
{
    if rs.len() == 0 {
        lemma_small_mod(0, 4);
    } else {
        lemma_rec_cost_bounds(rs.first());
        lemma_recs_cost_bounds(rs.drop_first());
        lemma_add_mod_noop(spec_rec_cost(rs.first()), spec_recs_cost(rs.drop_first()), 4);
        lemma_small_mod(0, 4);
    }
}

/// Appending a record adds exactly its framed cost.
pub proof fn lemma_recs_cost_push(rs: Seq<Seq<u8>>, r: Seq<u8>)
    ensures
        spec_recs_cost(rs.push(r)) == spec_recs_cost(rs) + spec_rec_cost(r),
    decreases rs.len(),
{
    assert(rs.push(r).len() == rs.len() + 1);
    if rs.len() == 0 {
        assert(rs.push(r).first() == r);
        assert(rs.push(r).drop_first() =~= Seq::<Seq<u8>>::empty());
        assert(spec_recs_cost(Seq::<Seq<u8>>::empty()) == 0);
        assert(spec_recs_cost(rs) == 0);
        assert(spec_recs_cost(rs.push(r)) == spec_rec_cost(rs.push(r).first())
            + spec_recs_cost(rs.push(r).drop_first()));
    } else {
        assert(rs.push(r).first() == rs.first());
        assert(rs.push(r).drop_first() =~= rs.drop_first().push(r));
        lemma_recs_cost_push(rs.drop_first(), r);
        assert(spec_recs_cost(rs.push(r)) == spec_rec_cost(rs.push(r).first())
            + spec_recs_cost(rs.push(r).drop_first()));
        assert(spec_recs_cost(rs) == spec_rec_cost(rs.first()) + spec_recs_cost(rs.drop_first()));
    }
}

/// The cost of two pending runs laid end to end is the sum of their costs.
proof fn lemma_recs_cost_concat(a: Seq<Seq<u8>>, b: Seq<Seq<u8>>)
    ensures
        spec_recs_cost(a + b) == spec_recs_cost(a) + spec_recs_cost(b),
    decreases a.len(),
{
    if a.len() == 0 {
        assert(a + b =~= b);
    } else {
        assert((a + b).drop_first() =~= a.drop_first() + b);
        assert((a + b).first() == a.first());
        lemma_recs_cost_concat(a.drop_first(), b);
    }
}

/// A run of frames followed by one more frame at the run's end is the run
/// with that frame appended.
proof fn lemma_frames_at_push(b: Seq<u8>, o: int, rs: Seq<Seq<u8>>, r: Seq<u8>)
    requires
        frames_at(b, o, rs),
        frame_at(b, o + spec_recs_cost(rs), r),
    ensures
        frames_at(b, o, rs.push(r)),
    decreases rs.len(),
{
    assert(rs.push(r).len() == rs.len() + 1);
    if rs.len() == 0 {
        assert(rs.push(r).first() == r);
        assert(rs.push(r).drop_first() =~= Seq::<Seq<u8>>::empty());
        assert(spec_recs_cost(rs) == 0);
        assert(frames_at(b, o + spec_rec_cost(r), rs.push(r).drop_first()));
    } else {
        assert(rs.push(r).first() == rs.first());
        assert(rs.push(r).drop_first() =~= rs.drop_first().push(r));
        assert(spec_recs_cost(rs) == spec_rec_cost(rs.first()) + spec_recs_cost(rs.drop_first()));
        lemma_frames_at_push(
            b,
            o + spec_rec_cost(rs.first()),
            rs.drop_first(),
            r,
        );
    }
}

/// A stored 32-bit value survives changes to the ring that stay outside the
/// half-open byte range `[lo, hi)` when its four bytes lie outside it too.
proof fn lemma_stores_u32_preserved(b1: Seq<u8>, b2: Seq<u8>, o: int, v: u32, lo: int, hi: int)
    requires
        b1.len() == b2.len(),
        stores_u32(b1, o, v),
        forall|i: int| 0 <= i < b1.len() && !(lo <= i < hi) ==> b1[i] == b2[i],
        hi <= o || o + 4 <= lo,
    ensures
        stores_u32(b2, o, v),
{
}

/// A run of frames survives changes to the ring that stay outside the
/// half-open byte range `[lo, hi)` when the run's whole footprint — from its
/// start to its end — lies outside it.
proof fn lemma_frames_at_preserved(
    b1: Seq<u8>,
    b2: Seq<u8>,
    o: int,
    rs: Seq<Seq<u8>>,
    lo: int,
    hi: int,
)
    requires
        b1.len() == b2.len(),
        frames_at(b1, o, rs),
        forall|i: int| 0 <= i < b1.len() && !(lo <= i < hi) ==> b1[i] == b2[i],
        hi <= o || o + spec_recs_cost(rs) <= lo,
    ensures
        frames_at(b2, o, rs),
    decreases rs.len(),
{
    if rs.len() > 0 {
        let r = rs.first();
        lemma_rec_cost_bounds(r);
        lemma_recs_cost_bounds(rs.drop_first());
        lemma_stores_u32_preserved(b1, b2, o, r.len() as u32, lo, hi);
        assert forall|i: int| 0 <= i < r.len() implies b2[o + 4 + i] == r[i] by {
            assert(b1[o + 4 + i] == r[i]);
        }
        lemma_frames_at_preserved(b1, b2, o + spec_rec_cost(r), rs.drop_first(), lo, hi);
    }
}

/// The core type for managing the shared memory queue: the payload ring with
/// the endpoint's private cursors.
///
/// One verified queue value models the whole payload region together with
/// both cursors; the two mathematical views are the sequence of pending
/// fixed-size elements (`elements`) and, for a byte ring driven in slice
/// mode, the sequence of pending records (`records`).
pub struct ShmemQueue<T> {
    /// The payload region of the segment.
    buf: Vec<T>,
    /// Total capacity of the queue, in elements.
    capacity: u32,
    /// Cursor where the next element is read from.
    read_offset: u32,
    /// Cursor where the next element is written to.
    write_offset: u32,
    /// Slice mode only: whether the writer has restarted at offset zero and
    /// the reader has not yet followed it across the wrap.
    wrapped: bool,
    /// Fixed mode model: the pending elements, oldest first.
    elems: Ghost<Seq<T>>,
    /// Slice mode model: the pending records stored between the read cursor
    /// and the wrap, oldest first.
    tail_recs: Ghost<Seq<Seq<u8>>>,
    /// Slice mode model: the pending records stored from offset zero after
    /// the wrap, oldest first.
    head_recs: Ghost<Seq<Seq<u8>>>,
}

impl<T: Copy> ShmemQueue<T> {
    /// The queue's capacity in elements, as seen by contracts.
    pub closed spec fn spec_capacity(self) -> int {
        self.capacity as int
    }

    /// The read cursor, as seen by contracts.
    pub closed spec fn spec_read_offset(self) -> int {
        self.read_offset as int
    }

    /// The write cursor, as seen by contracts.
    pub closed spec fn spec_write_offset(self) -> int {
        self.write_offset as int
    }

    /// The pending fixed-size elements, oldest first.
    pub closed spec fn elements(self) -> Seq<T> {
        self.elems@
    }

    /// Slice mode: whether the writer is past a wrap that the reader has not
    /// yet followed.
    pub closed spec fn spec_wrapped(self) -> bool {
        self.wrapped
    }

    /// The pending variable-size records of a byte ring driven in slice
    /// mode, oldest first: those before the wrap, then those after it.
    pub closed spec fn records(self) -> Seq<Seq<u8>> {
        self.tail_recs@ + self.head_recs@
    }

    /// Well-formedness of a queue driven in fixed mode: the cursors stay
    /// inside the ring, at most `capacity` elements are pending, the write
    /// cursor sits exactly `elements().len()` slots past the read cursor,
    /// and the pending elements are the buffer's contents at the slots that
    /// follow the read cursor.
    pub closed spec fn wf_fixed(self) -> bool {
        &&& self.buf@.len() == self.capacity
        &&& 0 < self.capacity
        &&& self.read_offset < self.capacity
        &&& self.write_offset < self.capacity
        &&& self.elems@.len() <= self.capacity
        &&& self.write_offset == slot_index(
            self.read_offset as int,
            self.elems@.len() as int,
            self.capacity as int,
        )
        &&& forall|i: int|
            0 <= i < self.elems@.len() ==> self.elems@[i] == self.buf@[slot_index(
                self.read_offset as int,
                i,
                self.capacity as int,
            )]
    }

    /// A fresh queue over a zero-filled payload region of `settings.size`
    /// elements, with both cursors at offset zero and nothing pending.
    /// `fill` stands in for the zero-initialized memory of a newly created
    /// segment.
    pub fn new(settings: &ShmemSettings, fill: T) -> (q: Self)
        requires
            0 < settings.size <= u32::MAX,
        ensures
            q.wf_fixed(),
            q.elements() == Seq::<T>::empty(),
            q.spec_capacity() == settings.size,
            q.spec_read_offset() == 0,
            q.spec_write_offset() == 0,
            !q.spec_wrapped(),
            q.records() == Seq::<Seq<u8>>::empty(),
    {
        let mut buf: Vec<T> = Vec::new();
        let mut i: usize = 0;
        while i < settings.size
            invariant
                i <= settings.size,
                buf@.len() == i,
            decreases settings.size - i,
        {
            buf.push(fill);
            i = i + 1;
        }
        ShmemQueue {
            buf,
            capacity: settings.size as u32,
            read_offset: 0,
            write_offset: 0,
            wrapped: false,
            elems: Ghost(Seq::empty()),
            tail_recs: Ghost(Seq::empty()),
            head_recs: Ghost(Seq::empty()),
        }
    }

    /// Returns the element at the read cursor and advances the cursor by one
    /// slot modulo the capacity. The caller must have established, through
    /// the occupancy protocol, that an element is pending.
    pub fn read(&mut self) -> (v: T)
        requires
            old(self).wf_fixed(),
            old(self).elements().len() > 0,
        ensures
            final(self).wf_fixed(),
            v == old(self).elements().first(),
            final(self).elements() == old(self).elements().drop_first(),
            final(self).spec_capacity() == old(self).spec_capacity(),
            final(self).spec_write_offset() == old(self).spec_write_offset(),
    {
        let v = self.buf[self.read_offset as usize];
        self.read_offset = advance_offset(self.read_offset, self.capacity);
        proof {
            self.elems@ = self.elems@.drop_first();
            assert forall|i: int| 0 <= i < self.elems@.len() implies self.elems@[i]
                == self.buf@[slot_index(
                self.read_offset as int,
                i,
                self.capacity as int,
            )] by {
                assert(slot_index(self.read_offset as int, i, self.capacity as int) == slot_index(
                    old(self).read_offset as int,
                    i + 1,
                    self.capacity as int,
                ));
            }
        }
        v
    }

    /// Writes the element at the write cursor and advances the cursor by one
    /// slot modulo the capacity. The caller must have established, through
    /// the occupancy protocol, that a slot is free.
    pub fn write(&mut self, val: T)
        requires
            old(self).wf_fixed(),
            old(self).elements().len() < old(self).spec_capacity(),
        ensures
            final(self).wf_fixed(),
            final(self).elements() == old(self).elements().push(val),
            final(self).spec_capacity() == old(self).spec_capacity(),
            final(self).spec_read_offset() == old(self).spec_read_offset(),
    {
        self.buf[self.write_offset as usize] = val;
        self.write_offset = advance_offset(self.write_offset, self.capacity);
        proof {
            self.elems@ = self.elems@.push(val);
            assert forall|i: int| 0 <= i < self.elems@.len() implies self.elems@[i]
                == self.buf@[slot_index(
                self.read_offset as int,
                i,
                self.capacity as int,
            )] by {
                if i < self.elems@.len() - 1 {
                    assert(slot_index(self.read_offset as int, i, self.capacity as int)
                        != old(self).write_offset);
                }
            }
        }
    }

    /// The bound the occupancy protocol of fixed mode rests on: a
    /// well-formed queue never holds more pending elements than its
    /// capacity.
    pub proof fn lemma_fixed_occupancy_bound(&self)
        requires
            self.wf_fixed(),
        ensures
            self.elements().len() <= self.spec_capacity(),
            0 < self.spec_capacity() <= u32::MAX,
    {
    }

    /// The queue's capacity in elements.
    pub fn capacity(&self) -> (r: u32)
        ensures
            r as int == self.spec_capacity(),
    {
        self.capacity
    }
}

impl ShmemQueue<u8> {
    /// Well-formedness of a byte ring driven in slice mode: the pending
    /// records before the wrap are framed one after the other from the read
    /// cursor; if the writer has wrapped, a wrap marker stands where they
    /// end, the records after the wrap are framed from offset zero, and the
    /// write cursor sits at their end, at or before the read cursor.
    pub closed spec fn wf_slice(self) -> bool {
        let cap = self.capacity as int;
        let rd = self.read_offset as int;
        let wr = self.write_offset as int;
        let t = self.tail_recs@;
        let h = self.head_recs@;
        let b = self.buf@;
        &&& b.len() == cap
        &&& 4 <= cap
        &&& cap % 4 == 0
        &&& rd % 4 == 0
        &&& rd <= cap
        &&& wr % 4 == 0
        &&& wr <= cap
        &&& frames_at(b, rd, t)
        &&& (if !self.wrapped {
            &&& h.len() == 0
            &&& wr == rd + spec_recs_cost(t)
        } else {
            &&& h.len() > 0
            &&& rd + spec_recs_cost(t) <= cap
            &&& wrap_marker_at(b, rd + spec_recs_cost(t))
            &&& frames_at(b, 0, h)
            &&& wr == spec_recs_cost(h)
            &&& wr <= rd
        })
    }

    /// Whether a record of `len` payload bytes can be written now without
    /// touching any pending record or wrap marker: its framed cost must fit
    /// in the free span the cursors leave — contiguously before the ring's
    /// end, or at offset zero below the read cursor after a wrap.
    pub closed spec fn can_write_slice(self, len: int) -> bool {
        let cap = self.capacity as int;
        let rd = self.read_offset as int;
        let wr = self.write_offset as int;
        let cost = 4 + spec_roundup4(len);
        &&& 0 <= len
        &&& len < WRAP_SENTINEL
        &&& (if self.wrapped {
            wr + cost <= rd
        } else {
            if wr < cap && cap - wr >= cost {
                true
            } else {
                cost <= rd
            }
        })
    }

    /// The bound the occupancy protocol of slice mode rests on: the framed
    /// cost of all pending records never exceeds the capacity in bytes.
    pub proof fn lemma_slice_occupancy_bound(&self)
        requires
            self.wf_slice(),
        ensures
            0 <= spec_recs_cost(self.records()) <= self.spec_capacity(),
            0 < self.spec_capacity() <= u32::MAX,
    {
        lemma_recs_cost_concat(self.tail_recs@, self.head_recs@);
        lemma_recs_cost_bounds(self.tail_recs@);
        lemma_recs_cost_bounds(self.head_recs@);
    }

    /// The geometric room check is at least as strong as the occupancy
    /// gate: a record whose frame fits the free span the cursors leave also
    /// keeps the total framed bytes within the capacity. The converse does
    /// not hold — after a wrap the free bytes can be split either side of
    /// the pending run, and the tail bytes a sentinel skipped are occupied
    /// without being counted — which is why the producer polls `has_room`
    /// and not the occupancy counter alone.
    pub proof fn lemma_room_implies_occupancy_fits(&self, len: int)
        requires
            self.wf_slice(),
            self.can_write_slice(len),
        ensures
            spec_recs_cost(self.records()) + 4 + spec_roundup4(len) <= self.spec_capacity(),
    {
        lemma_recs_cost_concat(self.tail_recs@, self.head_recs@);
        lemma_recs_cost_bounds(self.tail_recs@);
        lemma_recs_cost_bounds(self.head_recs@);
        lemma_roundup4_bounds(len);
    }

    /// A fresh byte ring for slice mode over a zero-filled payload region of
    /// `settings.size` bytes. The capacity must be a positive multiple of 4:
    /// every frame occupies a multiple of 4 bytes, so only then can the wrap
    /// sentinel always fit before the ring's end.
    pub fn new_bytes(settings: &ShmemSettings) -> (q: Self)
        requires
            0 < settings.size <= u32::MAX,
            settings.size % 4 == 0,
        ensures
            q.wf_slice(),
            q.wf_fixed(),
            q.records() == Seq::<Seq<u8>>::empty(),
            q.elements() == Seq::<u8>::empty(),
            q.spec_capacity() == settings.size,
            q.spec_read_offset() == 0,
            q.spec_write_offset() == 0,
            forall|len: int|
                0 <= len && 4 + spec_roundup4(len) <= settings.size ==> q.can_write_slice(len),
    {
        let q = Self::new(settings, 0u8);
        proof {
            if settings.size < 4 {
                lemma_small_mod(settings.size as nat, 4);
            }
            assert(q.tail_recs@ =~= Seq::<Seq<u8>>::empty());
            assert(q.head_recs@ =~= Seq::<Seq<u8>>::empty());
            lemma_small_mod(0, 4);
        }
        q
    }

    /// The 32-bit value stored at byte offset `o` of the ring, least
    /// significant byte first: a record's length field or the wrap sentinel.
    fn read_len_at(&self, o: u32) -> (r: u32)
        requires
            o as int + 4 <= self.buf@.len(),
        ensures
            r == spec_le32(
                self.buf@[o as int],
                self.buf@[o as int + 1],
                self.buf@[o as int + 2],
                self.buf@[o as int + 3],
            ),
    {
        let n: usize = self.buf.len();
        assert(o as int + 4 <= n);
        let ou = o as usize;
        let b0 = self.buf[ou] as u32;
        let b1 = self.buf[ou + 1] as u32;
        let b2 = self.buf[ou + 2] as u32;
        let b3 = self.buf[ou + 3] as u32;
        b0 | (b1 << 8) | (b2 << 16) | (b3 << 24)
    }

    /// Stores a 32-bit value at byte offset `o` of the ring, least
    /// significant byte first, touching nothing else.
    fn write_u32_at(&mut self, o: u32, v: u32)
        requires
            o as int + 4 <= old(self).buf@.len(),
        ensures
            final(self).buf@.len() == old(self).buf@.len(),
            stores_u32(final(self).buf@, o as int, v),
            forall|i: int|
                0 <= i < old(self).buf@.len() && !(o as int <= i < o as int + 4)
                    ==> final(self).buf@[i] == old(self).buf@[i],
            final(self).capacity == old(self).capacity,
            final(self).read_offset == old(self).read_offset,
            final(self).write_offset == old(self).write_offset,
            final(self).wrapped == old(self).wrapped,
            final(self).elems@ == old(self).elems@,
            final(self).tail_recs@ == old(self).tail_recs@,
            final(self).head_recs@ == old(self).head_recs@,
    {
        let n: usize = self.buf.len();
        assert(o as int + 4 <= n);
        let ou = o as usize;
        self.buf[ou] = (v & 0xFF) as u8;
        self.buf[ou + 1] = ((v >> 8) & 0xFF) as u8;
        self.buf[ou + 2] = ((v >> 16) & 0xFF) as u8;
        self.buf[ou + 3] = ((v >> 24) & 0xFF) as u8;
        proof {
            assert((((v & 0xFF) as u8) as u32) | ((((((v >> 8) & 0xFF) as u8) as u32)) << 8) | ((((((
            v >> 16) & 0xFF) as u8) as u32)) << 16) | ((((((v >> 24) & 0xFF) as u8) as u32)) << 24)
                == v) by (bit_vector);
        }
    }

    /// Whether a record of `len` payload bytes can be written now. The
    /// occupancy count alone does not decide this: a record must also fit
    /// the free span the cursors leave, which a wrap can have broken in two.
    /// The producer's blocking loop polls this until it holds.
    pub fn has_room(&self, len: u32) -> (r: bool)
        requires
            self.wf_slice(),
        ensures
            r == self.can_write_slice(len as int),
    {
        if len == u32::MAX {
            return false;
        }
        let rounded: u64 = ((len as u64) + 3) / 4 * 4;
        let cost: u64 = rounded + 4;
        proof {
            lemma_roundup4_div(len as int);
        }
        let cap: u64 = self.capacity as u64;
        let rd: u64 = self.read_offset as u64;
        let wr: u64 = self.write_offset as u64;
        if self.wrapped {
            wr + cost <= rd
        } else {
            if wr < cap && cap - wr >= cost {
                true
            } else {
                cost <= rd
            }
        }
    }

    /// Writes one record into the ring. If no bytes remain before the ring's
    /// physical end, the write cursor restarts at offset zero; if too few
    /// remain for the whole frame, the wrap sentinel is stored at the cursor
    /// first. Then the 4-byte length and the payload are stored and the
    /// cursor advances past the frame. Returns the frame's total slot cost,
    /// `roundup4(len) + 4`, so the caller can update the occupancy.
    #[verifier::rlimit(50)]
    pub fn write_slice(&mut self, slice: &[u8]) -> (cost: u32)
        requires
            old(self).wf_slice(),
            old(self).can_write_slice(slice@.len() as int),
        ensures
            final(self).wf_slice(),
            final(self).records() == old(self).records().push(slice@),
            cost == spec_rec_cost(slice@),
            final(self).spec_capacity() == old(self).spec_capacity(),
            final(self).spec_read_offset() == old(self).spec_read_offset(),
    {
        let ghost len_i = slice@.len() as int;
        let ghost b0 = old(self).buf@;
        let ghost cap = old(self).capacity as int;
        let ghost rd = old(self).read_offset as int;
        let ghost wr0 = old(self).write_offset as int;
        let ghost t = old(self).tail_recs@;
        let ghost h = old(self).head_recs@;
        proof {
            lemma_roundup4_bounds(len_i);
            lemma_rec_cost_bounds(slice@);
            lemma_recs_cost_bounds(t);
            lemma_recs_cost_bounds(h);
            assert(4 + spec_roundup4(len_i) <= cap);
        }
        let len: u32 = slice.len() as u32;
        proof {
            assert(len as int == len_i);
        }
        let rounded: u32 = roundup_to_u32_align(len);
        let cost: u32 = rounded + 4;
        proof {
            assert(cost as int == spec_rec_cost(slice@));
        }
        let plan = plan_slice_write(self.write_offset, self.capacity, len);
        if plan.sentinel {
            proof {
                assert(!old(self).wrapped);
                assert(wr0 + 4 <= cap) by {
                    lemma_add_mod_noop(wr0, cap - wr0, 4);
                    lemma_small_mod(0, 4);
                };
            }
            self.write_u32_at(self.write_offset, WRAP_SENTINEL);
        }
        if plan.start != self.write_offset {
            proof {
                assert(!old(self).wrapped);
            }
            self.write_offset = plan.start;
            self.wrapped = true;
        }
        let ghost b_mark = self.buf@;
        let s: u32 = self.write_offset;
        proof {
            assert(s as int + spec_rec_cost(slice@) <= cap);
        }
        self.write_u32_at(s, len);
        let ghost mid = *self;
        let su: usize = s as usize;
        let n: usize = self.buf.len();
        let mut i: usize = 0;
        while i < slice.len()
            invariant
                i <= slice@.len(),
                su == mid.write_offset,
                su as int + 4 + slice@.len() <= mid.buf@.len(),
                mid.buf@.len() <= usize::MAX,
                self.buf@.len() == mid.buf@.len(),
                self.capacity == mid.capacity,
                self.read_offset == mid.read_offset,
                self.write_offset == mid.write_offset,
                self.wrapped == mid.wrapped,
                self.tail_recs@ == mid.tail_recs@,
                self.head_recs@ == mid.head_recs@,
                forall|j: int| 0 <= j < i ==> self.buf@[su as int + 4 + j] == slice@[j],
                forall|j: int|
                    0 <= j < self.buf@.len() && !(su as int + 4 <= j < su as int + 4 + i)
                        ==> self.buf@[j] == mid.buf@[j],
            decreases slice@.len() - i,
        {
            self.buf[su + 4 + i] = slice[i];
            i = i + 1;
        }
        self.write_offset = s + cost;
        proof {
            let big = slice@;
            let cc = spec_rec_cost(big);
            let bl = mid.buf@;
            let bc = self.buf@;
            let ss = s as int;
            // The stored length survives the payload writes, so the whole
            // new frame stands at the write position.
            lemma_stores_u32_preserved(bl, bc, ss, len, ss + 4, ss + 4 + len_i);
            assert(frame_at(bc, ss, big));
            // Wherever the frame was placed, every pending frame and the
            // wrap marker lie outside the bytes that were written.
            if self.wrapped {
                self.head_recs@ = self.head_recs@.push(big);
            } else {
                self.tail_recs@ = self.tail_recs@.push(big);
            }
            assert((self.write_offset as int) % 4 == 0) by {
                lemma_add_mod_noop(ss, cc, 4);
                lemma_small_mod(0, 4);
            };
            if !old(self).wrapped && !self.wrapped {
                // The frame went in place, right after the pending run.
                assert(ss == wr0);
                lemma_frames_at_preserved(b0, bl, rd, t, ss, ss + 4);
                lemma_frames_at_preserved(bl, bc, rd, t, ss + 4, ss + 4 + len_i);
                lemma_frames_at_push(bc, rd, t, big);
                lemma_recs_cost_push(t, big);
                assert(self.tail_recs@ == t.push(big));
                assert(self.records() =~= old(self).records().push(big));
            } else if !old(self).wrapped && self.wrapped {
                // The writer restarted at offset zero, leaving the marker
                // where the pending run ends.
                assert(ss == 0);
                assert(cc <= rd);
                lemma_frames_at_preserved(b0, b_mark, rd, t, wr0, wr0 + 4);
                lemma_frames_at_preserved(b_mark, bl, rd, t, 0, 4);
                lemma_frames_at_preserved(bl, bc, rd, t, 4, 4 + len_i);
                assert(rd + spec_recs_cost(t) == wr0);
                assert(wrap_marker_at(bc, wr0)) by {
                    if wr0 < cap {
                        lemma_stores_u32_preserved(b_mark, bl, wr0, WRAP_SENTINEL, 0, 4);
                        lemma_stores_u32_preserved(bl, bc, wr0, WRAP_SENTINEL, 4, 4 + len_i);
                    }
                };
                assert(frames_at(bc, 0, h));
                lemma_frames_at_push(bc, 0, h, big);
                lemma_recs_cost_push(h, big);
                assert(self.head_recs@ == h.push(big));
                assert(self.records() =~= old(self).records().push(big));
            } else {
                // The writer was already past the wrap: the frame extends
                // the run after it, below the read cursor.
                assert(old(self).wrapped && self.wrapped);
                assert(ss == wr0);
                assert(wr0 + cc <= rd);
                lemma_frames_at_preserved(b0, bl, rd, t, ss, ss + 4);
                lemma_frames_at_preserved(bl, bc, rd, t, ss + 4, ss + 4 + len_i);
                let te = rd + spec_recs_cost(t);
                assert(wrap_marker_at(bc, te)) by {
                    if te < cap {
                        lemma_stores_u32_preserved(b0, bl, te, WRAP_SENTINEL, ss, ss + 4);
                        lemma_stores_u32_preserved(bl, bc, te, WRAP_SENTINEL, ss + 4, ss + 4 + len_i);
                    }
                };
                lemma_frames_at_preserved(b0, bl, 0, h, ss, ss + 4);
                lemma_frames_at_preserved(bl, bc, 0, h, ss + 4, ss + 4 + len_i);
                lemma_frames_at_push(bc, 0, h, big);
                lemma_recs_cost_push(h, big);
                assert(self.head_recs@ == h.push(big));
                assert(self.records() =~= old(self).records().push(big));
            }
        }
        cost
    }

    /// Reads one record out of the ring: if the read cursor stands at the
    /// ring's physical end, or finds the wrap sentinel in place of a length,
    /// it restarts at offset zero; then it reads the 4-byte length, copies
    /// that many payload bytes out, and advances past the frame's padding.
    /// The caller must have established, through the occupancy protocol,
    /// that a record is pending.
    #[verifier::rlimit(50)]
    pub fn read_slice(&mut self) -> (r: Vec<u8>)
        requires
            old(self).wf_slice(),
            old(self).records().len() > 0,
        ensures
            final(self).wf_slice(),
            r@ == old(self).records().first(),
            final(self).records() == old(self).records().drop_first(),
            final(self).spec_capacity() == old(self).spec_capacity(),
            final(self).spec_write_offset() == old(self).spec_write_offset(),
    {
        proof {
            lemma_recs_cost_bounds(self.tail_recs@);
            lemma_recs_cost_bounds(self.head_recs@);
        }
        if self.read_offset == self.capacity {
            proof {
                // Only a reader that consumed everything up to the ring's
                // end stands here, so the wrap has happened and all pending
                // records sit at the front.
                assert(self.wrapped);
                assert(self.tail_recs@ =~= Seq::<Seq<u8>>::empty());
                self.tail_recs@ = self.head_recs@;
                self.head_recs@ = Seq::empty();
                assert(self.tail_recs@ + self.head_recs@ =~= old(self).records());
            }
            self.read_offset = 0;
            self.wrapped = false;
        }
        proof {
            if self.tail_recs@.len() > 0 {
                lemma_rec_cost_bounds(self.tail_recs@.first());
            }
            assert(self.read_offset as int + 4 <= self.buf@.len());
        }
        let mut len = self.read_len_at(self.read_offset);
        if len == WRAP_SENTINEL {
            proof {
                // A pending record's length is never the sentinel, so the
                // sentinel can only stand where the pending run is empty and
                // the wrap marker begins.
                assert(self.tail_recs@ =~= Seq::<Seq<u8>>::empty());
                assert(self.wrapped);
                self.tail_recs@ = self.head_recs@;
                self.head_recs@ = Seq::empty();
                assert(self.tail_recs@ + self.head_recs@ =~= old(self).records());
                lemma_rec_cost_bounds(self.tail_recs@.first());
            }
            self.read_offset = 0;
            self.wrapped = false;
            len = self.read_len_at(0);
        }
        let ghost t = self.tail_recs@;
        let ghost rec = t.first();
        proof {
            lemma_rec_cost_bounds(rec);
            lemma_recs_cost_bounds(t.drop_first());
            assert(len as int == rec.len());
        }
        let start: u32 = self.read_offset + 4;
        let rounded: u32 = roundup_to_u32_align(len);
        let ghost mid = *self;
        let stu: usize = start as usize;
        let n: usize = self.buf.len();
        let mut out: Vec<u8> = Vec::new();
        let mut i: usize = 0;
        while i < len as usize
            invariant
                i <= len as int,
                *self == mid,
                stu == mid.read_offset + 4,
                stu as int + len as int <= mid.buf@.len(),
                mid.buf@.len() <= usize::MAX,
                out@.len() == i,
                forall|j: int| 0 <= j < i ==> out@[j] == mid.buf@[stu as int + j],
            decreases len as int - i,
        {
            let b = self.buf[stu + i];
            out.push(b);
            i = i + 1;
        }
        self.read_offset = start + rounded;
        proof {
            assert(out@ =~= rec);
            self.tail_recs@ = t.drop_first();
            assert((self.read_offset as int) % 4 == 0) by {
                lemma_add_mod_noop(mid.read_offset as int, spec_rec_cost(rec), 4);
                lemma_small_mod(0, 4);
            };
            assert(old(self).records().len() > 0);
            if t.len() > 1 {
                assert(self.tail_recs@.first() == t[1]);
            }
            assert(self.records() =~= old(self).records().drop_first());
        }
        out
    }
}

} // verus!
