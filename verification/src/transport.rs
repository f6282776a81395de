//! Underlay addresses, tagged with the transport that reaches them.
use crate::net::SocketAddr;
use crate::table::{push_addr_key, Keyed};
use crate::text::push_text;
use vstd::prelude::*;

verus! {

/// Largest UDP datagram that is received.
pub const MAX_UDP: usize = 65535;

/// A transport protocol.
#[derive(Clone, Copy, Debug, PartialEq, Eq, Structural, Hash)]
pub enum TransportKind {
    Udp,
    Tcp,
    Ws,
    Wss,
}

/// The address of a peer, with the transport that reaches it.
#[derive(Clone, Copy, Debug, PartialEq, Eq, Structural, Hash)]
pub enum TransportAddr {
    Udp(SocketAddr),
    Tcp(SocketAddr),
    Ws(SocketAddr),
    Wss(SocketAddr),
}

impl TransportKind {
    /// The name.
    pub open spec fn text(self) -> Seq<char> {
        match self {
            TransportKind::Udp => "udp"@,
            TransportKind::Tcp => "tcp"@,
            TransportKind::Ws => "ws"@,
            TransportKind::Wss => "wss"@,
        }
    }

    /// Gives the name.
    pub fn name(self) -> (s: &'static str)
        ensures
            s@ == self.text(),
    {
        match self {
            TransportKind::Udp => "udp",
            TransportKind::Tcp => "tcp",
            TransportKind::Ws => "ws",
            TransportKind::Wss => "wss",
        }
    }
}

impl TransportAddr {
    /// The address without the transport.
    pub open spec fn addr(self) -> SocketAddr {
        match self {
            TransportAddr::Udp(a) => a,
            TransportAddr::Tcp(a) => a,
            TransportAddr::Ws(a) => a,
            TransportAddr::Wss(a) => a,
        }
    }

    /// The transport.
    pub open spec fn kind_of(self) -> TransportKind {
        match self {
            TransportAddr::Udp(_) => TransportKind::Udp,
            TransportAddr::Tcp(_) => TransportKind::Tcp,
            TransportAddr::Ws(_) => TransportKind::Ws,
            TransportAddr::Wss(_) => TransportKind::Wss,
        }
    }

    /// Gives the address without the transport.
    pub fn socket_addr(&self) -> (r: SocketAddr)
        ensures
            r == self.addr(),
    {
        match self {
            TransportAddr::Udp(a) => *a,
            TransportAddr::Tcp(a) => *a,
            TransportAddr::Ws(a) => *a,
            TransportAddr::Wss(a) => *a,
        }
    }

    /// Gives the transport.
    pub fn kind(&self) -> (r: TransportKind)
        ensures
            r == self.kind_of(),
    {
        match self {
            TransportAddr::Udp(_) => TransportKind::Udp,
            TransportAddr::Tcp(_) => TransportKind::Tcp,
            TransportAddr::Ws(_) => TransportKind::Ws,
            TransportAddr::Wss(_) => TransportKind::Wss,
        }
    }

    /// An address with a transport.
    pub fn with_kind(addr: SocketAddr, kind: TransportKind) -> (r: TransportAddr)
        ensures
            r.addr() == addr,
            r.kind_of() == kind,
    {
        match kind {
            TransportKind::Udp => TransportAddr::Udp(addr),
            TransportKind::Tcp => TransportAddr::Tcp(addr),
            TransportKind::Ws => TransportAddr::Ws(addr),
            TransportKind::Wss => TransportAddr::Wss(addr),
        }
    }

    /// Gives the text: transport, colon, address.
    pub fn to_text(&self) -> (s: String)
        ensures
            s@ == self.kind_of().text() + ":"@ + self.addr().text(),
    {
        let mut s: String = String::new();
        push_text(&mut s, self.kind().name());
        push_text(&mut s, ":");
        self.socket_addr().push_text(&mut s);
        assert(s@ =~= self.kind_of().text() + ":"@ + self.addr().text());
        s
    }
}

/// The number of a transport in a key.
pub open spec fn kind_number(k: TransportKind) -> u8 {
    match k {
        TransportKind::Udp => 0,
        TransportKind::Tcp => 1,
        TransportKind::Ws => 2,
        TransportKind::Wss => 3,
    }
}

impl Keyed for TransportAddr {
    open spec fn key(&self) -> Seq<u8> {
        seq![kind_number(self.kind_of())] + crate::table::addr_key(self.addr()) + Seq::new(
            4,
            |i: int| 0u8,
        )
    }

    fn to_key(&self) -> (k: [u8; 32]) {
        let mut out: Vec<u8> = Vec::new();
        out.push(
            match self.kind() {
                TransportKind::Udp => 0u8,
                TransportKind::Tcp => 1u8,
                TransportKind::Ws => 2u8,
                TransportKind::Wss => 3u8,
            },
        );
        push_addr_key(&mut out, &self.socket_addr());
        crate::text::push_zeros(&mut out, 4);
        assert(out@ =~= self.key());
        let k: [u8; 32] = crate::text::array_32(out.as_slice(), 0);
        assert(k@ =~= out@);
        k
    }

    proof fn key_injective(a: TransportAddr, b: TransportAddr) {
        assert(a.key()[0] == kind_number(a.kind_of()));
        assert(b.key()[0] == kind_number(b.kind_of()));
        assert(a.kind_of() == b.kind_of());
        assert(crate::table::addr_key(a.addr()) =~= a.key().subrange(1, 28));
        assert(crate::table::addr_key(b.addr()) =~= b.key().subrange(1, 28));
        crate::table::addr_key_injective(a.addr(), b.addr());
    }
}

/// Taking an address apart and putting it together again changes nothing.
pub proof fn transport_addr_round_trip(a: TransportAddr, b: TransportAddr)
    requires
        a.addr() == b.addr(),
        a.kind_of() == b.kind_of(),
    ensures
        a == b,
{
}

// ---------------------------------------------------------------------------
// Choice of transport
// ---------------------------------------------------------------------------
/// Why a message cannot be sent to an address.
#[derive(Clone, Copy, Debug, PartialEq, Eq, Structural)]
pub enum RouteError {
    /// The transport is not enabled.
    NotEnabled(TransportKind),
    /// The transport does not exist yet.
    NotImplemented,
}

impl RouteError {
    /// Gives the message for a reader.
    pub fn to_text(&self) -> (s: &'static str)
        ensures
            s@ == (match self {
                RouteError::NotEnabled(TransportKind::Udp) => "UDP not enabled"@,
                RouteError::NotEnabled(TransportKind::Tcp) => "TCP not enabled"@,
                RouteError::NotEnabled(TransportKind::Ws) => "WS not enabled"@,
                _ => "WSS not yet implemented"@,
            }),
    {
        match self {
            RouteError::NotEnabled(TransportKind::Udp) => "UDP not enabled",
            RouteError::NotEnabled(TransportKind::Tcp) => "TCP not enabled",
            RouteError::NotEnabled(TransportKind::Ws) => "WS not enabled",
            _ => "WSS not yet implemented",
        }
    }
}

/// Which transports are enabled.
#[derive(Clone, Copy, Debug, PartialEq, Eq, Structural)]
pub struct EnabledTransports {
    pub udp: bool,
    pub tcp: bool,
    pub ws: bool,
}

impl EnabledTransports {
    /// Whether a transport is enabled.
    pub open spec fn has(self, kind: TransportKind) -> bool {
        match kind {
            TransportKind::Udp => self.udp,
            TransportKind::Tcp => self.tcp,
            TransportKind::Ws => self.ws,
            TransportKind::Wss => false,
        }
    }

    /// Picks the transport for an address.
    pub fn route(&self, addr: &TransportAddr) -> (r: Result<TransportKind, RouteError>)
        ensures
            r == (if addr.kind_of() == TransportKind::Wss {
                Err::<TransportKind, RouteError>(RouteError::NotImplemented)
            } else if self.has(addr.kind_of()) {
                Ok(addr.kind_of())
            } else {
                Err(RouteError::NotEnabled(addr.kind_of()))
            }),
    {
        let kind: TransportKind = addr.kind();
        let on: bool = match kind {
            TransportKind::Udp => self.udp,
            TransportKind::Tcp => self.tcp,
            TransportKind::Ws => self.ws,
            TransportKind::Wss => return Err(RouteError::NotImplemented),
        };
        if on {
            Ok(kind)
        } else {
            Err(RouteError::NotEnabled(kind))
        }
    }

    /// Picks the transport whose local address stands for all: UDP before TCP
    /// before WS.
    pub fn primary(&self) -> (r: Option<TransportKind>)
        ensures
            r == (if self.udp {
                Some(TransportKind::Udp)
            } else if self.tcp {
                Some(TransportKind::Tcp)
            } else if self.ws {
                Some(TransportKind::Ws)
            } else {
                None
            }),
    {
        if self.udp {
            Some(TransportKind::Udp)
        } else if self.tcp {
            Some(TransportKind::Tcp)
        } else if self.ws {
            Some(TransportKind::Ws)
        } else {
            None
        }
    }
}


/// An address of a transport is its socket address and its kind, and each kind keeps its
/// own name and number.
pub proof fn transports_are_told_apart(a: SocketAddr, k: TransportKind, l: TransportKind)
    ensures
        TransportAddr::Udp(a).kind_of() == TransportKind::Udp && TransportAddr::Udp(a).addr() == a,
        TransportAddr::Tcp(a).kind_of() == TransportKind::Tcp && TransportAddr::Tcp(a).addr() == a,
        TransportAddr::Ws(a).kind_of() == TransportKind::Ws && TransportAddr::Ws(a).addr() == a,
        TransportAddr::Wss(a).kind_of() == TransportKind::Wss && TransportAddr::Wss(a).addr() == a,
        k.text() == l.text() ==> k == l,
        kind_number(k) == kind_number(l) ==> k == l,
{
    reveal_strlit("udp");
    reveal_strlit("tcp");
    reveal_strlit("ws");
    reveal_strlit("wss");
    assert(TransportKind::Udp.text()[0] == 'u');
    assert(TransportKind::Tcp.text()[0] == 't');
    assert(TransportKind::Ws.text()[0] == 'w' && TransportKind::Ws.text().len() == 2);
    assert(TransportKind::Wss.text()[0] == 'w' && TransportKind::Wss.text().len() == 3);
}

/// A transport can be used if it was enabled; the one over TLS cannot be.
pub proof fn enabled_transports_can_be_used(t: EnabledTransports)
    ensures
        t.has(TransportKind::Udp) == t.udp,
        t.has(TransportKind::Tcp) == t.tcp,
        t.has(TransportKind::Ws) == t.ws,
        !t.has(TransportKind::Wss),
{
}
} // verus!
