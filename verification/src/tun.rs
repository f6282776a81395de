//! The TUN device: its configuration, and the commands that bring it up.
use crate::constants::{OVERLAY_MTU, OVERLAY_SUBNET_BASE, OVERLAY_SUBNET_PREFIX};
use crate::error::{Error, IoError, IoKind};
use crate::net::{Ipv4Addr, Ipv6Addr};
use crate::overlay::subnet_mask_u32;
use crate::text::{chars_of, push_dec, push_text};
use crate::types::OverlayAddr;
use crate::words::contains;
use vstd::prelude::*;

verus! {

// ---------------------------------------------------------------------------
// Configuration
// ---------------------------------------------------------------------------
/// How a TUN device is set up.
#[derive(Debug)]
pub struct TunConfig {
    pub overlay_addr: Ipv4Addr,
    pub overlay_ipv6: Option<Ipv6Addr>,
    pub netmask: Ipv4Addr,
    pub mtu: usize,
    pub name: Option<String>,
}

impl Clone for TunConfig {
    fn clone(&self) -> (r: TunConfig)
        ensures
            r.overlay_addr == self.overlay_addr,
            r.overlay_ipv6 == self.overlay_ipv6,
            r.netmask == self.netmask,
            r.mtu == self.mtu,
            match self.name {
                Some(n) => r.name matches Some(m) && m@ == n@,
                None => r.name is None,
            },
    {
        TunConfig {
            overlay_addr: self.overlay_addr,
            overlay_ipv6: self.overlay_ipv6,
            netmask: self.netmask,
            mtu: self.mtu,
            name: match &self.name {
                Some(n) => Some(n.as_str().to_owned()),
                None => None,
            },
        }
    }
}

impl TunConfig {
    /// The usual configuration for an overlay address.
    pub fn new(overlay: OverlayAddr) -> (r: TunConfig)
        ensures
            r.overlay_addr == overlay.addr,
            r.overlay_ipv6 is None,
            r.netmask == (Ipv4Addr { a: 255, b: 255, c: 0, d: 0 }),
            r.mtu == OVERLAY_MTU,
            r.name is None,
    {
        proof {
            assert(!0u32 << 16u8 == 0xffff_0000u32) by (bit_vector);
        }
        TunConfig {
            overlay_addr: overlay.ip(),
            overlay_ipv6: None,
            netmask: subnet_mask(OVERLAY_SUBNET_PREFIX),
            mtu: OVERLAY_MTU,
            name: None,
        }
    }

    /// The configuration with a name for the device.
    pub fn with_name(self, name: String) -> (r: TunConfig)
        ensures
            r == (TunConfig { name: Some(name), ..self }),
    {
        TunConfig { name: Some(name), ..self }
    }

    /// The configuration with another maximum transmission unit.
    pub fn with_mtu(self, mtu: usize) -> (r: TunConfig)
        ensures
            r == (TunConfig { mtu, ..self }),
    {
        TunConfig { mtu, ..self }
    }

    /// The configuration with an overlay IPv6 address.
    pub fn with_ipv6(self, addr: Ipv6Addr) -> (r: TunConfig)
        ensures
            r == (TunConfig { overlay_ipv6: Some(addr), ..self }),
    {
        TunConfig { overlay_ipv6: Some(addr), ..self }
    }

    /// The overlay address.
    pub fn overlay_addr(&self) -> (r: Ipv4Addr)
        ensures
            r == self.overlay_addr,
    {
        self.overlay_addr
    }

    /// The base address of the overlay subnet.
    pub fn network(&self) -> (r: Ipv4Addr)
        ensures
            r == (Ipv4Addr { a: 10, b: 88, c: 0, d: 0 }),
    {
        Ipv4Addr::new(OVERLAY_SUBNET_BASE[0], OVERLAY_SUBNET_BASE[1], 0, 0)
    }
}

/// The mask of a prefix length: so many one bits, then zero bits; all ones for a
/// prefix that is too long.
pub open spec fn mask_for(prefix: u8) -> Ipv4Addr {
    Ipv4Addr::of_number(crate::overlay::mask_of(prefix))
}

/// Gives the mask of a prefix length.
pub fn subnet_mask(prefix: u8) -> (r: Ipv4Addr)
    ensures
        r == mask_for(prefix),
{
    Ipv4Addr::from_number(subnet_mask_u32(prefix))
}

// ---------------------------------------------------------------------------
// Devices
// ---------------------------------------------------------------------------
/// What a TUN device tells.
#[derive(Debug, PartialEq, Eq)]
pub enum TunEvent {
    /// An IP packet.
    Packet(Vec<u8>),
    /// The device is gone.
    Closed,
}

/// A TUN device that is written to packet by packet.
pub trait TunDevice: Send + Sync {
    /// Hands a packet to the device.
    fn send_packet(&mut self, packet: &[u8]) -> Result<(), Error>;

    /// The name of the device.
    fn name(&self) -> &str;

    /// Its maximum transmission unit.
    fn mtu(&self) -> usize;
}

fn io_error(kind: IoKind, text: &str) -> (e: Error)
    ensures
        e matches Error::Io(m) && m.kind == kind && m.text@ == text@,
{
    Error::Io(IoError { kind, text: text.to_owned() })
}

/// Refuses to create a device: that takes privileges that a library call does not
/// have.
pub fn create_tun(config: &TunConfig) -> (r: Result<Box<dyn TunDevice>, Error>)
    ensures
        r matches Err(Error::Io(m)) && m.kind == IoKind::PermissionDenied && m.text@
            == "TUN creation requires platform privileges; use create_tun_async in a privileged context"@,
{
    Err(
        io_error(
            IoKind::PermissionDenied,
            "TUN creation requires platform privileges; use create_tun_async in a privileged context",
        ),
    )
}

/// The reading end of a device on a platform without TUN devices.
pub struct TunReader;

/// The writing end of a device on a platform without TUN devices.
pub struct TunWriter;

/// A device on a platform without TUN devices.
pub struct AsyncTunDevice {
    tun_name: String,
}

/// What every use of such a device answers.
pub open spec fn unsupported(e: Error) -> bool {
    e matches Error::Io(m) && m.kind == IoKind::Unsupported && m.text@
        == "TUN device is not supported on this platform"@
}

impl TunReader {
    /// Refuses to read.
    pub fn recv(&mut self, buf: &mut Vec<u8>) -> (r: Result<usize, Error>)
        ensures
            r matches Err(e) && unsupported(e),
            final(buf)@ == old(buf)@,
    {
        Err(io_error(IoKind::Unsupported, "TUN device is not supported on this platform"))
    }
}

impl TunWriter {
    /// Refuses to write.
    pub fn send(&mut self, buf: &[u8]) -> (r: Result<usize, Error>)
        ensures
            r matches Err(e) && unsupported(e),
    {
        Err(io_error(IoKind::Unsupported, "TUN device is not supported on this platform"))
    }
}

impl AsyncTunDevice {
    /// The name of the device.
    pub closed spec fn device_name(&self) -> Seq<char> {
        self.tun_name@
    }

    /// Refuses to create a device.
    pub fn create(config: &TunConfig) -> (r: Result<AsyncTunDevice, Error>)
        ensures
            r matches Err(Error::Io(m)) && m.kind == IoKind::Unsupported && m.text@
                == "TUN device creation is not supported on this platform (requires Unix)"@,
    {
        Err(
            io_error(
                IoKind::Unsupported,
                "TUN device creation is not supported on this platform (requires Unix)",
            ),
        )
    }

    /// Takes the device apart.
    pub fn into_split(self) -> (r: (TunReader, TunWriter, String))
        ensures
            r.2@ == self.device_name(),
    {
        (TunReader, TunWriter, self.tun_name)
    }

    /// The name of the device.
    pub fn name(&self) -> (r: &str)
        ensures
            r@ == self.device_name(),
    {
        self.tun_name.as_str()
    }

    /// Its maximum transmission unit.
    pub fn mtu(&self) -> (r: usize)
        ensures
            r == OVERLAY_MTU,
    {
        OVERLAY_MTU
    }
}

// ---------------------------------------------------------------------------
// Commands
// ---------------------------------------------------------------------------
/// The systems on which an interface is brought up by commands.
#[derive(Clone, Copy, Debug, PartialEq, Eq, Structural)]
pub enum HostSystem {
    Linux,
    MacOs,
}

/// A command to run.
#[derive(Debug, PartialEq, Eq)]
pub struct CommandLine {
    pub program: &'static str,
    pub args: Vec<String>,
}

/// What came of a command.
#[derive(Debug, PartialEq, Eq)]
pub enum CommandOutcome {
    /// It ran and succeeded.
    Success,
    /// It ran and failed, with this on its standard error.
    Failure(String),
    /// It could not be run, for this reason.
    NotRun(IoError),
}

/// What follows from the outcome of a command.
#[derive(Debug)]
pub enum Verdict {
    /// Go on.
    Fine,
    /// Go on with a warning.
    Warning(String),
    /// Give up.
    Abort(Error),
}

/// The overlay subnet, as commands take it: `10.88.0.0/16`.
pub open spec fn subnet_text() -> Seq<char> {
    Ipv4Addr { a: 10, b: 88, c: 0, d: 0 }.text() + "/"@ + crate::text::dec_text(16)
}

fn subnet_string() -> (s: String)
    ensures
        s@ == subnet_text(),
{
    let base: Ipv4Addr = Ipv4Addr::new(
        OVERLAY_SUBNET_BASE[0],
        OVERLAY_SUBNET_BASE[1],
        OVERLAY_SUBNET_BASE[2],
        OVERLAY_SUBNET_BASE[3],
    );
    let mut s: String = base.to_text();
    push_text(&mut s, "/");
    push_dec(&mut s, OVERLAY_SUBNET_PREFIX as u64);
    s
}

/// Whether a command line is a program with the given arguments.
pub open spec fn runs(c: CommandLine, program: Seq<char>, args: Seq<Seq<char>>) -> bool {
    c.program@ == program && crate::words::texts(c.args@) == args
}

/// The command that brings an interface up.
pub fn link_command(system: HostSystem, name: &str, ip: &Ipv4Addr, netmask: &Ipv4Addr) -> (r:
    CommandLine)
    ensures
        match system {
            HostSystem::Linux => runs(r, "ip"@, seq!["link"@, "set"@, name@, "up"@]),
            HostSystem::MacOs => runs(
                r,
                "ifconfig"@,
                seq![name@, ip.text(), ip.text(), "netmask"@, netmask.text(), "up"@],
            ),
        },
{
    let mut args: Vec<String> = Vec::new();
    match system {
        HostSystem::Linux => {
            args.push("link".to_owned());
            args.push("set".to_owned());
            args.push(name.to_owned());
            args.push("up".to_owned());
            assert(crate::words::texts(args@) =~= seq!["link"@, "set"@, name@, "up"@]);
            CommandLine { program: "ip", args }
        },
        HostSystem::MacOs => {
            args.push(name.to_owned());
            args.push(ip.to_text());
            args.push(ip.to_text());
            args.push("netmask".to_owned());
            args.push(netmask.to_text());
            args.push("up".to_owned());
            assert(crate::words::texts(args@) =~= seq![
                name@,
                ip.text(),
                ip.text(),
                "netmask"@,
                netmask.text(),
                "up"@,
            ]);
            CommandLine { program: "ifconfig", args }
        },
    }
}

/// The command that routes the overlay subnet into an interface.
pub fn route_command(system: HostSystem, name: &str) -> (r: CommandLine)
    ensures
        match system {
            HostSystem::Linux => runs(
                r,
                "ip"@,
                seq!["route"@, "add"@, subnet_text(), "dev"@, name@],
            ),
            HostSystem::MacOs => runs(
                r,
                "route"@,
                seq!["-q"@, "-n"@, "add"@, "-net"@, subnet_text(), "-interface"@, name@],
            ),
        },
{
    let mut args: Vec<String> = Vec::new();
    match system {
        HostSystem::Linux => {
            args.push("route".to_owned());
            args.push("add".to_owned());
            args.push(subnet_string());
            args.push("dev".to_owned());
            args.push(name.to_owned());
            assert(crate::words::texts(args@) =~= seq![
                "route"@,
                "add"@,
                subnet_text(),
                "dev"@,
                name@,
            ]);
            CommandLine { program: "ip", args }
        },
        HostSystem::MacOs => {
            args.push("-q".to_owned());
            args.push("-n".to_owned());
            args.push("add".to_owned());
            args.push("-net".to_owned());
            args.push(subnet_string());
            args.push("-interface".to_owned());
            args.push(name.to_owned());
            assert(crate::words::texts(args@) =~= seq![
                "-q"@,
                "-n"@,
                "add"@,
                "-net"@,
                subnet_text(),
                "-interface"@,
                name@,
            ]);
            CommandLine { program: "route", args }
        },
    }
}

fn warning(what: &str, detail: &str) -> (r: Verdict)
    ensures
        r matches Verdict::Warning(m) && m@ == what@ + detail@,
{
    let mut m: String = what.to_owned();
    push_text(&mut m, detail);
    Verdict::Warning(m)
}

/// What follows from the outcome of [`link_command`]: one that fails is warned
/// of, one that cannot be run is the end.
pub fn judge_link(system: HostSystem, outcome: CommandOutcome) -> (r: Verdict)
    ensures
        match outcome {
            CommandOutcome::Success => r is Fine,
            CommandOutcome::Failure(stderr) => r matches Verdict::Warning(m) && m@ == (match system {
                HostSystem::Linux => "ip link set up failed: "@,
                HostSystem::MacOs => "ifconfig failed: "@,
            }) + stderr@,
            CommandOutcome::NotRun(e) => r matches Verdict::Abort(Error::Io(m)) && m == e,
        },
{
    match outcome {
        CommandOutcome::Success => Verdict::Fine,
        CommandOutcome::Failure(stderr) => match system {
            HostSystem::Linux => warning("ip link set up failed: ", stderr.as_str()),
            HostSystem::MacOs => warning("ifconfig failed: ", stderr.as_str()),
        },
        CommandOutcome::NotRun(e) => Verdict::Abort(Error::Io(e)),
    }
}

/// What the complaint says that the route is there already.
pub open spec fn route_is_there(system: HostSystem, stderr: Seq<char>) -> bool {
    match system {
        HostSystem::Linux => crate::words::holds(stderr, "File exists"@),
        HostSystem::MacOs => crate::words::holds(stderr, "exists"@),
    }
}

/// What follows from the outcome of [`route_command`]: a route that is there
/// already is fine; any other failure is warned of.
pub fn judge_route(system: HostSystem, outcome: CommandOutcome) -> (r: Verdict)
    ensures
        match outcome {
            CommandOutcome::Success => r is Fine,
            CommandOutcome::Failure(stderr) => if route_is_there(system, stderr@) {
                r is Fine
            } else {
                r matches Verdict::Warning(m) && m@ == (match system {
                    HostSystem::Linux => "ip route add failed: "@,
                    HostSystem::MacOs => "route add failed: "@,
                }) + stderr@
            },
            CommandOutcome::NotRun(e) => r matches Verdict::Warning(m) && m@ == (match system {
                HostSystem::Linux => "ip route command failed: "@,
                HostSystem::MacOs => "route command failed: "@,
            }) + e.text@,
        },
{
    match outcome {
        CommandOutcome::Success => Verdict::Fine,
        CommandOutcome::Failure(stderr) => {
            let chars: Vec<char> = chars_of(stderr.as_str());
            match system {
                HostSystem::Linux => if contains(chars.as_slice(), "File exists") {
                    Verdict::Fine
                } else {
                    warning("ip route add failed: ", stderr.as_str())
                },
                HostSystem::MacOs => if contains(chars.as_slice(), "exists") {
                    Verdict::Fine
                } else {
                    warning("route add failed: ", stderr.as_str())
                },
            }
        },
        CommandOutcome::NotRun(e) => match system {
            HostSystem::Linux => warning("ip route command failed: ", e.text.as_str()),
            HostSystem::MacOs => warning("route command failed: ", e.text.as_str()),
        },
    }
}

} // verus!
