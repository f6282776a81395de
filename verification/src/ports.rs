//! Which ports to try when one is in use.
use vstd::prelude::*;

verus! {

/// How many ports are tried.
pub const PORT_TRIES: u16 = 10;

/// The port to try after so many that were in use; the last port there is if
/// there are no more.
pub open spec fn nth_port(base: u16, n: nat) -> u16 {
    if base + n <= u16::MAX {
        (base + n) as u16
    } else {
        u16::MAX
    }
}

/// A search for a free port.
#[derive(Clone, Copy, Debug, PartialEq, Eq, Structural)]
pub struct PortSearch {
    base: u16,
    failed: u16,
}

impl PortSearch {
    /// The preferred port.
    pub closed spec fn preferred(&self) -> u16 {
        self.base
    }

    /// How many ports were in use so far.
    pub closed spec fn failures(&self) -> nat {
        self.failed as nat
    }

    /// A search that begins at a port.
    pub fn new(base: u16) -> (r: PortSearch)
        ensures
            r.preferred() == base,
            r.failures() == 0,
    {
        PortSearch { base, failed: 0 }
    }

    /// The port to try now, if any is left.
    pub fn candidate(&self) -> (r: Option<u16>)
        ensures
            r == (if self.failures() < PORT_TRIES {
                Some(nth_port(self.preferred(), self.failures()))
            } else {
                None
            }),
    {
        if self.failed < PORT_TRIES {
            Some(self.base.saturating_add(self.failed))
        } else {
            None
        }
    }

    /// Notes that the port was in use.
    pub fn in_use(&mut self)
        requires
            old(self).failures() < PORT_TRIES,
        ensures
            final(self).preferred() == old(self).preferred(),
            final(self).failures() == old(self).failures() + 1,
    {
        self.failed = self.failed + 1;
    }
}

/// The ports of the listeners for streams, which follow the port for datagrams.
#[derive(Clone, Copy, Debug, PartialEq, Eq, Structural)]
pub struct StreamPorts {
    next: u16,
}

impl StreamPorts {
    /// The port that the next listener prefers.
    pub closed spec fn next(&self) -> u16 {
        self.next
    }

    /// The ports of the listeners next to a port for datagrams. The first listener
    /// prefers the same number.
    pub fn new(bound: u16) -> (r: StreamPorts)
        ensures
            r.next() == bound,
    {
        StreamPorts { next: bound }
    }

    /// The search for the port of the next listener.
    pub fn search(&self) -> (r: PortSearch)
        ensures
            r.preferred() == self.next(),
            r.failures() == 0,
    {
        PortSearch::new(self.next)
    }

    /// Notes the port of a listener. The next one prefers the port after it.
    pub fn bound(&mut self, port: u16)
        requires
            port < u16::MAX,
        ensures
            final(self).next() == port + 1,
    {
        self.next = port + 1;
    }

    /// Notes that a listener found no port. The next one prefers the port after
    /// the one that this one preferred.
    pub fn skipped(&mut self)
        requires
            old(self).next() < u16::MAX,
        ensures
            final(self).next() == old(self).next() + 1,
    {
        self.next = self.next + 1;
    }
}

/// A search that stays clear of the last port tries different ports.
pub proof fn tried_ports_differ(base: u16, m: nat, n: nat)
    requires
        m < n < PORT_TRIES,
        base + PORT_TRIES <= u16::MAX,
    ensures
        nth_port(base, m) != nth_port(base, n),
{
}

/// A listener never prefers a port at or below that of one before it: any port
/// that it tries lies above.
pub proof fn listeners_do_not_meet(bound: u16, n: nat)
    requires
        bound < u16::MAX,
    ensures
        nth_port((bound + 1) as u16, n) > bound,
{
}


/// Ports are tried one after the other from the preferred one on, ten of them; past the
/// last port there is, that one is tried again.
pub proof fn ports_are_tried_in_turn(base: u16, n: nat)
    ensures
        nth_port(base, 0) == base,
        nth_port(base, n) < u16::MAX ==> nth_port(base, n + 1) == nth_port(base, n) + 1,
        nth_port(base, n) == u16::MAX ==> nth_port(base, n + 1) == u16::MAX,
        PORT_TRIES == 10,
{
}
} // verus!
