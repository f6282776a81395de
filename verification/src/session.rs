//! How long a peer has been silent.
use crate::clock::{between, now};
use crate::constants::{HEARTBEAT_INTERVAL_SECS, SESSION_EXPIRY_SECS};
use std::time::{Duration, Instant};
use vstd::prelude::*;

verus! {

/// When a peer was last heard of, and how long it may be silent.
#[derive(Debug)]
pub struct Session {
    last_seen: Instant,
    heartbeat_interval: Duration,
    expiry: Duration,
}

impl Session {
    /// Nanoseconds between heartbeats.
    pub closed spec fn interval(&self) -> nat {
        crate::clock::duration_nanos(self.heartbeat_interval)
    }

    /// Nanoseconds of silence after which the session is expired.
    pub closed spec fn limit(&self) -> nat {
        crate::clock::duration_nanos(self.expiry)
    }

    /// When the peer was last heard of.
    pub closed spec fn seen(&self) -> Instant {
        self.last_seen
    }

    /// A session that begins now, with the usual limits.
    pub fn new() -> (r: Session)
        ensures
            r.interval() == 15_000_000_000,
            r.limit() == 60_000_000_000,
    {
        let t: Instant = now();
        Session::new_at(t)
    }

    /// A session that begins at a point in time, with the usual limits.
    pub fn new_at(t: Instant) -> (r: Session)
        ensures
            r.seen() == t,
            r.interval() == 15_000_000_000,
            r.limit() == 60_000_000_000,
    {
        Session {
            last_seen: t,
            heartbeat_interval: Duration::from_secs(HEARTBEAT_INTERVAL_SECS),
            expiry: Duration::from_secs(SESSION_EXPIRY_SECS),
        }
    }

    /// A session that begins now, with the given limits.
    pub fn with_config(heartbeat_interval: Duration, expiry: Duration) -> (r: Session)
        ensures
            r.interval() == crate::clock::duration_nanos(heartbeat_interval),
            r.limit() == crate::clock::duration_nanos(expiry),
    {
        let t: Instant = now();
        Session::with_config_at(t, heartbeat_interval, expiry)
    }

    /// A session that begins at a point in time, with the given limits.
    pub fn with_config_at(t: Instant, heartbeat_interval: Duration, expiry: Duration) -> (r: Session)
        ensures
            r.seen() == t,
            r.interval() == crate::clock::duration_nanos(heartbeat_interval),
            r.limit() == crate::clock::duration_nanos(expiry),
    {
        Session { last_seen: t, heartbeat_interval, expiry }
    }

    /// Notes that the peer was heard of now.
    pub fn record_activity(&mut self)
        ensures
            final(self).interval() == old(self).interval(),
            final(self).limit() == old(self).limit(),
    {
        let t: Instant = now();
        self.record_activity_at(t);
    }

    /// Notes that the peer was heard of at a point in time.
    pub fn record_activity_at(&mut self, t: Instant)
        ensures
            final(self).seen() == t,
            final(self).interval() == old(self).interval(),
            final(self).limit() == old(self).limit(),
    {
        self.last_seen = t;
    }

    /// Nanoseconds of silence up to a point in time.
    pub open spec fn silence(&self, t: Instant) -> nat {
        crate::clock::nanos_between(t, self.seen())
    }

    /// Whether the peer has now been silent for too long.
    pub fn is_expired(&self) -> (r: bool)
        ensures
            exists|t: Instant| r == (#[trigger] self.silence(t) > self.limit()),
    {
        let t: Instant = now();
        self.expired_at(&t)
    }

    /// Whether the peer has been silent for too long at a point in time: longer
    /// than the limit.
    pub fn expired_at(&self, t: &Instant) -> (r: bool)
        ensures
            r == (self.silence(*t) > self.limit()),
    {
        between(t, &self.last_seen).as_nanos() > self.expiry.as_nanos()
    }

    /// How long the peer has been silent, as of the time of the call.
    pub fn time_since_last_activity(&self) -> (r: Duration)
        ensures
            exists|t: Instant| crate::clock::duration_nanos(r) == #[trigger] self.silence(t),
    {
        let t: Instant = now();
        self.silence_at(&t)
    }

    /// How long the peer has been silent at a point in time.
    pub fn silence_at(&self, t: &Instant) -> (r: Duration)
        ensures
            crate::clock::duration_nanos(r) == self.silence(*t),
    {
        between(t, &self.last_seen)
    }

    /// The time between heartbeats.
    pub fn heartbeat_interval(&self) -> (r: Duration)
        ensures
            crate::clock::duration_nanos(r) == self.interval(),
    {
        self.heartbeat_interval
    }

    /// Whether a heartbeat is due now.
    pub fn should_send_heartbeat(&self) -> (r: bool)
        ensures
            exists|t: Instant| r == (#[trigger] self.silence(t) >= self.interval()),
    {
        let t: Instant = now();
        self.heartbeat_due_at(&t)
    }

    /// Whether a heartbeat is due at a point in time: after a silence of the
    /// interval or more.
    pub fn heartbeat_due_at(&self, t: &Instant) -> (r: bool)
        ensures
            r == (self.silence(*t) >= self.interval()),
    {
        between(t, &self.last_seen).as_nanos() >= self.heartbeat_interval.as_nanos()
    }
}

impl Default for Session {
    fn default() -> (r: Session)
        ensures
            r.interval() == 15_000_000_000,
            r.limit() == 60_000_000_000,
    {
        Session::new()
    }
}

/// Silence grows with the clock: from one point in time to a later one, both not
/// before the peer was last heard of, by the time that lies between them. A session
/// that has expired stays expired, and a heartbeat that is due stays due.
pub proof fn silence_grows(s: Session, t1: Instant, t2: Instant)
    requires
        crate::clock::clock_nanos(t1) <= crate::clock::clock_nanos(t2),
    ensures
        s.silence(t1) <= s.silence(t2),
        crate::clock::clock_nanos(s.seen()) <= crate::clock::clock_nanos(t1) ==> s.silence(t2)
            == s.silence(t1) + crate::clock::nanos_between(t2, t1),
        s.silence(t1) > s.limit() ==> s.silence(t2) > s.limit(),
        s.silence(t1) >= s.interval() ==> s.silence(t2) >= s.interval(),
{
}

/// A session whose expiry is not shorter than its heartbeat interval asks for a
/// heartbeat before it is expired.
pub proof fn heartbeat_before_expiry(s: Session, silence: nat)
    requires
        s.interval() <= s.limit(),
        silence > s.limit(),
    ensures
        silence >= s.interval(),
{
}


/// Silence is the time since the last sign of life: none at that time or before it, and
/// counted in nanoseconds from then on.
pub proof fn silence_begins_with_the_last_sign(s: Session, t: Instant)
    ensures
        s.silence(s.seen()) == 0,
        crate::clock::clock_nanos(t) <= crate::clock::clock_nanos(s.seen()) ==> s.silence(t) == 0,
        crate::clock::clock_nanos(t) >= crate::clock::clock_nanos(s.seen())
            ==> crate::clock::clock_nanos(s.seen()) + s.silence(t) == crate::clock::clock_nanos(t),
{
}
} // verus!
