//! Which addresses are reached from anywhere.
use crate::net::{Ipv4Addr, SocketAddr};
use vstd::prelude::*;

verus! {

/// Whether an address is kept for private networks: `10.0.0.0/8`,
/// `172.16.0.0/12` or `192.168.0.0/16`.
pub open spec fn is_private(ip: Ipv4Addr) -> bool {
    ip.a == 10 || (ip.a == 172 && 16 <= ip.b <= 31) || (ip.a == 192 && ip.b == 168)
}

/// Whether an IPv4 address is neither private, loopback (`127.0.0.0/8`),
/// link-local (`169.254.0.0/16`), unspecified nor the broadcast address.
pub open spec fn is_public_ip(ip: Ipv4Addr) -> bool {
    &&& !is_private(ip)
    &&& ip.a != 127
    &&& !(ip.a == 169 && ip.b == 254)
    &&& ip != (Ipv4Addr { a: 0, b: 0, c: 0, d: 0 })
    &&& ip != (Ipv4Addr { a: 255, b: 255, c: 255, d: 255 })
}

/// Whether a socket address is reached from anywhere. No IPv6 address counts.
pub open spec fn publicly_routable(addr: SocketAddr) -> bool {
    addr matches SocketAddr::V4 { ip, .. } && is_public_ip(ip)
}

/// Tests whether a socket address is reached from anywhere.
pub fn is_publicly_routable(addr: SocketAddr) -> (r: bool)
    ensures
        r == publicly_routable(addr),
{
    match addr {
        SocketAddr::V4 { ip, .. } => {
            let private: bool = ip.a == 10 || (ip.a == 172 && 16 <= ip.b && ip.b <= 31) || (ip.a
                == 192 && ip.b == 168);
            let unspecified: bool = ip.a == 0 && ip.b == 0 && ip.c == 0 && ip.d == 0;
            let broadcast: bool = ip.a == 255 && ip.b == 255 && ip.c == 255 && ip.d == 255;
            !private && ip.a != 127 && !(ip.a == 169 && ip.b == 254) && !unspecified && !broadcast
        },
        SocketAddr::V6 { .. } => false,
    }
}

/// No overlay address is publicly routable: the overlay subnet is private.
pub proof fn overlay_is_private(ip: Ipv4Addr, port: u16)
    requires
        crate::overlay::in_overlay_subnet(ip),
    ensures
        !publicly_routable(SocketAddr::V4 { ip, port }),
{
}


/// Where the ranges begin and end, as numbers.
proof fn lemma_ranges(a: u8, b: u8, c: u8, d: u8)
    ensures
        ({
            let n = crate::text::be32(a, b, c, d);
            &&& (a == 0 && b == 0 && c == 0 && d == 0) <==> n == 0
            &&& (a == 255 && b == 255 && c == 255 && d == 255) <==> n == 0xFFFF_FFFF
            &&& a == 10 <==> 0x0A00_0000 <= n <= 0x0AFF_FFFF
            &&& a == 127 <==> 0x7F00_0000 <= n <= 0x7FFF_FFFF
            &&& (a == 172 && 16 <= b <= 31) <==> 0xAC10_0000 <= n <= 0xAC1F_FFFF
            &&& (a == 192 && b == 168) <==> 0xC0A8_0000 <= n <= 0xC0A8_FFFF
            &&& (a == 169 && b == 254) <==> 0xA9FE_0000 <= n <= 0xA9FE_FFFF
        }),
{
    crate::text::most_significant_byte_stands_first(a, b, c, d, 0, 0);
}

/// A version 4 address is public unless it lies in 10.0.0.0/8, 172.16.0.0/12,
/// 192.168.0.0/16, 127.0.0.0/8 or 169.254.0.0/16, or is the first or the last address
/// there is, whatever the port; no version 6 address counts as public.
pub proof fn only_reserved_ranges_are_not_public(ip: Ipv4Addr, port: u16, other: SocketAddr)
    requires
        !(other is V4),
    ensures
        ({
            let n = ip.number();
            publicly_routable(SocketAddr::V4 { ip, port }) <==> !{
                ||| 0x0A00_0000 <= n <= 0x0AFF_FFFF
                ||| 0xAC10_0000 <= n <= 0xAC1F_FFFF
                ||| 0xC0A8_0000 <= n <= 0xC0A8_FFFF
                ||| 0x7F00_0000 <= n <= 0x7FFF_FFFF
                ||| 0xA9FE_0000 <= n <= 0xA9FE_FFFF
                ||| n == 0
                ||| n == 0xFFFF_FFFF
            }
        }),
        !publicly_routable(other),
{
    reveal(Ipv4Addr::number);
    lemma_ranges(ip.a, ip.b, ip.c, ip.d);
}
} // verus!
