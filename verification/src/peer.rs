//! What is known of a remote device.
use crate::clock::now;
use crate::net::{Ipv6Addr, SocketAddr};
use crate::state::{PeerState, StateRecord, TransitionError};
use crate::text::push_text;
use crate::types::{OverlayAddr, PeerId};
use std::time::{Duration, Instant};
use vstd::prelude::*;

verus! {

/// How a peer is reached.
#[derive(Clone, Copy, Debug, PartialEq, Eq)]
pub enum PathKind {
    /// By a session of its own.
    Direct,
    /// Through this peer.
    Relay(PeerId),
}

/// A remote device.
#[derive(Debug)]
pub struct Peer {
    id: PeerId,
    overlay_addr: Option<OverlayAddr>,
    overlay_ipv6: Option<Ipv6Addr>,
    underlay_addr: Option<SocketAddr>,
    public_addr: Option<SocketAddr>,
    hostname: String,
    latency_ms: Option<u32>,
    path_kind: PathKind,
    state: StateRecord,
}

/// What is known of a remote device, without the time of the last change of
/// state.
#[verifier::ext_equal]
pub ghost struct PeerInfo {
    pub id: PeerId,
    pub overlay_addr: Option<OverlayAddr>,
    pub overlay_ipv6: Option<Ipv6Addr>,
    pub underlay_addr: Option<SocketAddr>,
    pub public_addr: Option<SocketAddr>,
    pub hostname: Seq<char>,
    pub latency_ms: Option<u32>,
    pub path_kind: PathKind,
    pub state: PeerState,
}

/// What is known of a peer at first.
pub open spec fn new_peer(id: PeerId, underlay: Option<SocketAddr>) -> PeerInfo {
    PeerInfo {
        id,
        overlay_addr: None,
        overlay_ipv6: None,
        underlay_addr: underlay,
        public_addr: None,
        hostname: Seq::empty(),
        latency_ms: None,
        path_kind: PathKind::Direct,
        state: PeerState::Disconnected,
    }
}

impl View for Peer {
    type V = PeerInfo;

    closed spec fn view(&self) -> PeerInfo {
        PeerInfo {
            id: self.id,
            overlay_addr: self.overlay_addr,
            overlay_ipv6: self.overlay_ipv6,
            underlay_addr: self.underlay_addr,
            public_addr: self.public_addr,
            hostname: self.hostname@,
            latency_ms: self.latency_ms,
            path_kind: self.path_kind,
            state: self.state.state,
        }
    }
}

impl Peer {
    /// When the peer entered its state.
    pub closed spec fn since(&self) -> Instant {
        self.state.entered_at
    }

    /// A peer of which only the id is known, as of now.
    pub fn new(id: PeerId) -> (r: Peer)
        ensures
            r@ == new_peer(id, None),
    {
        let t: Instant = now();
        Peer::new_at(id, None, t)
    }

    /// A peer of which the id and an underlay address are known, as of now.
    pub fn new_with_underlay(id: PeerId, addr: SocketAddr) -> (r: Peer)
        ensures
            r@ == new_peer(id, Some(addr)),
    {
        let t: Instant = now();
        Peer::new_at(id, Some(addr), t)
    }

    /// A peer of which the id and perhaps an underlay address are known, as of a
    /// point in time.
    pub fn new_at(id: PeerId, underlay: Option<SocketAddr>, t: Instant) -> (r: Peer)
        ensures
            r@ == new_peer(id, underlay),
            r.since() == t,
    {
        Peer {
            id,
            overlay_addr: None,
            overlay_ipv6: None,
            underlay_addr: underlay,
            public_addr: None,
            hostname: String::new(),
            latency_ms: None,
            path_kind: PathKind::Direct,
            state: StateRecord::new_at(PeerState::Disconnected, t),
        }
    }

    /// The id.
    pub fn id(&self) -> (r: PeerId)
        ensures
            r == self@.id,
    {
        self.id
    }

    /// The state.
    pub fn state(&self) -> (r: PeerState)
        ensures
            r == self@.state,
    {
        self.state.state
    }

    /// The overlay address, if assigned.
    pub fn overlay_addr(&self) -> (r: Option<OverlayAddr>)
        ensures
            r == self@.overlay_addr,
    {
        self.overlay_addr
    }

    /// The overlay IPv6 address, if known.
    pub fn overlay_ipv6(&self) -> (r: Option<Ipv6Addr>)
        ensures
            r == self@.overlay_ipv6,
    {
        self.overlay_ipv6
    }

    /// The underlay address, if known.
    pub fn underlay_addr(&self) -> (r: Option<SocketAddr>)
        ensures
            r == self@.underlay_addr,
    {
        self.underlay_addr
    }

    /// The public address, if known.
    pub fn public_addr(&self) -> (r: Option<SocketAddr>)
        ensures
            r == self@.public_addr,
    {
        self.public_addr
    }

    /// The host name, empty if not known.
    pub fn hostname(&self) -> (r: &str)
        ensures
            r@ == self@.hostname,
    {
        self.hostname.as_str()
    }

    /// The last round-trip time, if measured.
    pub fn latency_ms(&self) -> (r: Option<u32>)
        ensures
            r == self@.latency_ms,
    {
        self.latency_ms
    }

    /// How the peer is reached.
    pub fn path_kind(&self) -> (r: PathKind)
        ensures
            r == self@.path_kind,
    {
        self.path_kind
    }

    /// Sets the overlay address.
    pub fn set_overlay_addr(&mut self, addr: OverlayAddr)
        ensures
            final(self)@ == (PeerInfo { overlay_addr: Some(addr), ..old(self)@ }),
            final(self).since() == old(self).since(),
    {
        self.overlay_addr = Some(addr);
    }

    /// Sets the overlay IPv6 address.
    pub fn set_overlay_ipv6(&mut self, addr: Ipv6Addr)
        ensures
            final(self)@ == (PeerInfo { overlay_ipv6: Some(addr), ..old(self)@ }),
            final(self).since() == old(self).since(),
    {
        self.overlay_ipv6 = Some(addr);
    }

    /// Sets the underlay address.
    pub fn set_underlay_addr(&mut self, addr: SocketAddr)
        ensures
            final(self)@ == (PeerInfo { underlay_addr: Some(addr), ..old(self)@ }),
            final(self).since() == old(self).since(),
    {
        self.underlay_addr = Some(addr);
    }

    /// Sets the public address.
    pub fn set_public_addr(&mut self, addr: SocketAddr)
        ensures
            final(self)@ == (PeerInfo { public_addr: Some(addr), ..old(self)@ }),
            final(self).since() == old(self).since(),
    {
        self.public_addr = Some(addr);
    }

    /// Sets the host name.
    pub fn set_hostname(&mut self, name: String)
        ensures
            final(self)@ == (PeerInfo { hostname: name@, ..old(self)@ }),
            final(self).since() == old(self).since(),
    {
        self.hostname = name;
    }

    /// Sets the round-trip time.
    pub fn set_latency_ms(&mut self, ms: u32)
        ensures
            final(self)@ == (PeerInfo { latency_ms: Some(ms), ..old(self)@ }),
            final(self).since() == old(self).since(),
    {
        self.latency_ms = Some(ms);
    }

    /// Sets how the peer is reached.
    pub fn set_path_kind(&mut self, path: PathKind)
        ensures
            final(self)@ == (PeerInfo { path_kind: path, ..old(self)@ }),
            final(self).since() == old(self).since(),
    {
        self.path_kind = path;
    }

    /// Goes to `next`, if it may follow, as of now.
    pub fn transition(&mut self, next: PeerState) -> (r: Result<PeerState, TransitionError>)
        ensures
            match r {
                Ok(s) => s == next && crate::state::may_follow(old(self)@.state, next)
                    && final(self)@ == (PeerInfo { state: next, ..old(self)@ }),
                Err(e) => !crate::state::may_follow(old(self)@.state, next) && e
                    == (TransitionError::InvalidTransition { from: old(self)@.state, to: next })
                    && *final(self) == *old(self),
            },
    {
        let t: Instant = now();
        self.transition_at(next, t)
    }

    /// Goes to `next`, if it may follow, as of a point in time.
    pub fn transition_at(&mut self, next: PeerState, t: Instant) -> (r: Result<
        PeerState,
        TransitionError,
    >)
        ensures
            match r {
                Ok(s) => s == next && crate::state::may_follow(old(self)@.state, next)
                    && final(self)@ == (PeerInfo { state: next, ..old(self)@ })
                    && final(self).since() == t,
                Err(e) => !crate::state::may_follow(old(self)@.state, next) && e
                    == (TransitionError::InvalidTransition { from: old(self)@.state, to: next })
                    && *final(self) == *old(self),
            },
    {
        match self.state.transition_at(next, t) {
            Ok(_) => Ok(next),
            Err(e) => Err(e),
        }
    }

    /// How long the peer has been in its state, as of the time of the call.
    pub fn state_elapsed(&self) -> (r: Duration)
        ensures
            exists|t: Instant|
                crate::clock::duration_nanos(r) == #[trigger] crate::clock::nanos_between(
                    t,
                    self.since(),
                ),
    {
        let r: Duration = self.state.elapsed();
        proof {
            let t = choose|t: Instant|
                crate::clock::duration_nanos(r) == #[trigger] crate::clock::nanos_between(
                    t,
                    self.state.entered_at,
                );
            assert(crate::clock::duration_nanos(r) == crate::clock::nanos_between(t, self.since()));
        }
        r
    }

    /// Gives the text for log lines.
    pub fn to_text(&self) -> (s: String)
        ensures
            s@ == "Peer("@ + crate::text::short_hex_text(self@.id@) + ")"@,
    {
        let mut s: String = String::new();
        push_text(&mut s, "Peer(");
        push_text(&mut s, self.id.short().as_str());
        push_text(&mut s, ")");
        assert(s@ =~= "Peer("@ + crate::text::short_hex_text(self@.id@) + ")"@);
        s
    }
}

} // verus!
