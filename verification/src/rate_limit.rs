//! Per-identity rate limiting: a submission is accepted only when at least
//! the minimum interval has passed since that identity's last accepted
//! message. Rejected submissions are silently dropped, never queued.

use vstd::prelude::*;

use crate::strmap::StrMap;

verus! {

/// Minimum spacing between accepted messages per identity, in milliseconds.
pub const MIN_INTERVAL_MS: u64 = 250;

/// Whether an attempt at `now` by `identity` passes the throttle, given the
/// recorded last-accepted times: the identity is unknown, or at least the
/// minimum interval has elapsed.
pub open spec fn accepts(last: Map<Seq<char>, u64>, identity: Seq<char>, now: u64) -> bool {
    !last.contains_key(identity) || last[identity] + MIN_INTERVAL_MS <= now
}

/// Tracks, per identity, when that identity's last message was accepted.
/// Entries are never removed.
pub struct RateLimiter {
    last_sent: StrMap<u64>,
}

impl View for RateLimiter {
    type V = Map<Seq<char>, u64>;

    closed spec fn view(&self) -> Map<Seq<char>, u64> {
        self.last_sent@
    }
}

impl RateLimiter {
    /// Internal shape of the underlying table.
    pub closed spec fn wf(&self) -> bool {
        self.last_sent.wf()
    }

    /// A limiter with no identity on record.
    pub fn new() -> (r: RateLimiter)
        ensures
            r.wf(),
            r@ == Map::<Seq<char>, u64>::empty(),
    {
        RateLimiter { last_sent: StrMap::new() }
    }

    /// Decides one submission attempt: returns whether it is accepted, and
    /// records `now` as the identity's last-accepted time exactly when it
    /// is. The read and the conditional write form one call, so two
    /// near-simultaneous attempts cannot both pass.
    pub fn try_accept(&mut self, identity: &String, now: u64) -> (r: bool)
        requires
            old(self).wf(),
        ensures
            final(self).wf(),
            r == accepts(old(self)@, identity@, now),
            r ==> final(self)@ == old(self)@.insert(identity@, now),
            !r ==> final(self)@ == old(self)@,
    {
        let ok = match self.last_sent.get(identity) {
            None => true,
            Some(last) => now >= *last && now - *last >= MIN_INTERVAL_MS,
        };
        if ok {
            self.last_sent.insert(identity.clone(), now);
            true
        } else {
            false
        }
    }
}

/// Law: after an accepted submission at `t1`, a second attempt by the same
/// identity at `t2` is rejected when the spacing is below the minimum
/// interval, and accepted when the minimum interval has elapsed.
pub proof fn lemma_min_spacing(last: Map<Seq<char>, u64>, identity: Seq<char>, t1: u64, t2: u64)
    requires
        accepts(last, identity, t1),
    ensures
        t2 < t1 + MIN_INTERVAL_MS ==> !accepts(last.insert(identity, t1), identity, t2),
        t1 + MIN_INTERVAL_MS <= t2 ==> accepts(last.insert(identity, t1), identity, t2),
{
}

} // verus!
