//! Wait/wake decision logic of the cross-process synchronizer.
//!
//! The two endpoints of a channel share one 32-bit sync word at the start of
//! the segment. A side that must block publishes its role's wait pattern into
//! the word and then blocks on the word's address, conditioned on the word
//! still holding that pattern; the peer, before issuing a kernel wake, checks
//! whether the word holds the other role's wait pattern, and if so flips it
//! to the woken pattern and wakes one waiter. Everything that decides here is
//! verified; the kernel calls themselves (a futex-style wait/wake, or a named
//! semaphore where that primitive is missing) are issued by the unverified
//! shell around the library, strictly following these decisions.

use vstd::prelude::*;

verus! {

/// The sync word's value when nobody is blocked and nobody was woken since
/// the segment was zero-initialized.
pub const SYNC_IDLE: u32 = 0;

/// The value a waker flips the sync word to just before it issues the kernel
/// wake, so the waiter's re-check sees that its wait pattern is gone.
pub const SYNC_WOKEN: u32 = 1;

/// The role of one endpoint of the channel: exactly one producer and exactly
/// one consumer share a segment.
#[derive(Clone, Copy, Debug, PartialEq, Eq, Structural)]
pub enum Role {
    Producer,
    Consumer,
}

impl Role {
    /// The role constant, as seen by contracts.
    pub open spec fn spec_code(self) -> i8 {
        match self {
            Role::Producer => (-128) as i8,
            Role::Consumer => 127 as i8,
        }
    }

    /// The role constant from which the wait patterns are derived: the two
    /// extreme values of a signed byte, so the two roles can never be
    /// confused.
    pub fn code(&self) -> (r: i8)
        ensures
            r == self.spec_code(),
    {
        match self {
            Role::Producer => -128,
            Role::Consumer => 127,
        }
    }

    /// The opposite role, as seen by contracts.
    pub open spec fn spec_other(self) -> Role {
        match self {
            Role::Producer => Role::Consumer,
            Role::Consumer => Role::Producer,
        }
    }

    /// The opposite role: the peer that a wake from this side must target.
    pub fn other(&self) -> (r: Role)
        ensures
            r == self.spec_other(),
    {
        match self {
            Role::Producer => Role::Consumer,
            Role::Consumer => Role::Producer,
        }
    }
}

/// The pattern a blocked endpoint of the given role publishes into the sync
/// word: the role constant as a 32-bit word (sign-extended), so the producer
/// and consumer patterns differ from each other and from both `SYNC_IDLE`
/// and `SYNC_WOKEN`.
pub open spec fn spec_wait_pattern(role: Role) -> u32 {
    match role {
        Role::Producer => 0xFFFF_FF80,
        Role::Consumer => 0x0000_007F,
    }
}

/// The wait/wake decision half of the blocking primitive, for one endpoint.
///
/// The unverified shell drives it as follows. To wait: store
/// `wait_pattern()` into the shared sync word, then block on the word while
/// `keeps_waiting(word)` holds, re-reading the word after every return from
/// the kernel (a futex wait may return spuriously). To wake: read the word;
/// if `peer_waiting(word)` holds, store `wake_pattern()` and issue one
/// kernel wake, otherwise nobody is blocked and the wake is a no-op.
pub struct Synchronizer {
    role: Role,
}

impl Synchronizer {
    /// The role this synchronizer blocks as, as seen by contracts.
    pub closed spec fn spec_role(self) -> Role {
        self.role
    }

    /// A synchronizer for one endpoint of the channel.
    pub fn new(role: Role) -> (s: Self)
        ensures
            s.spec_role() == role,
    {
        Synchronizer { role }
    }

    /// The pattern this side publishes into the sync word before blocking.
    pub fn wait_pattern(&self) -> (r: u32)
        ensures
            r == spec_wait_pattern(self.spec_role()),
    {
        match self.role {
            Role::Producer => 0xFFFF_FF80,
            Role::Consumer => 0x0000_007F,
        }
    }

    /// Whether a blocked endpoint of this role must keep blocking, given the
    /// sync word's current value: only while the word still holds the
    /// pattern it published. Any other value means a wake (or another store)
    /// has happened since, and the waiter must return and re-check its
    /// occupancy condition.
    pub fn keeps_waiting(&self, word: u32) -> (r: bool)
        ensures
            r == (word == spec_wait_pattern(self.spec_role())),
    {
        word == self.wait_pattern()
    }

    /// Whether the peer endpoint is blocked, given the sync word's current
    /// value: exactly when the word holds the *other* role's wait pattern.
    /// When this is false a wake is a no-op and no kernel call is made.
    pub fn peer_waiting(&self, word: u32) -> (r: bool)
        ensures
            r == (word == spec_wait_pattern(self.spec_role().spec_other())),
    {
        match self.role {
            Role::Producer => word == 0x0000_007F,
            Role::Consumer => word == 0xFFFF_FF80,
        }
    }

    /// The value the waker flips the sync word to before the kernel wake.
    pub fn wake_pattern(&self) -> (r: u32)
        ensures
            r == SYNC_WOKEN,
    {
        SYNC_WOKEN
    }
}

/// No lost wakeup, at the decision level: the four values the sync word can
/// hold are pairwise distinct, a waker recognizes exactly the word its peer
/// published, and the woken pattern releases the waiter's re-check loop. So
/// if a waiter of role `r` published its pattern and the word still holds it
/// when the peer wakes, the peer's `peer_waiting` check is true — the kernel
/// wake is issued — and after the flip the waiter's `keeps_waiting` check is
/// false, so it cannot re-block on a stale pattern.
pub proof fn lemma_no_lost_wakeup(r: Role)
    ensures
        spec_wait_pattern(r) != SYNC_IDLE,
        spec_wait_pattern(r) != SYNC_WOKEN,
        spec_wait_pattern(Role::Producer) != spec_wait_pattern(Role::Consumer),
        spec_wait_pattern(r.spec_other().spec_other()) == spec_wait_pattern(r),
{
}

} // verus!
