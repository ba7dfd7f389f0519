//! Names of the BPF programs that the firewall looks up by name rather than
//! through generic discovery, so that a rename in the BPF sources has one
//! place to update here.
use vstd::prelude::*;

verus! {

/// Which side of the firewall a BPF program handles. Kept apart from the
/// interface's own direction type, so that this module depends on nothing
/// above the BPF wiring.
#[derive(Debug, Clone, Copy, PartialEq, Eq, Hash, Structural)]
pub enum Direction {
    Ingress,
    Engress,
}

/// The program that each direction's master switch attaches and detaches.
pub const INGRESS_PROGRAM: &'static str = "ingress_hook";

pub const ENGRESS_PROGRAM: &'static str = "engress_hook";

/// Permanent protocol-routing slots of the `protocol_redirecters` map, as
/// the BPF side numbers its protocol handlers. They are wired once at load
/// time and never toggled: they are how packets reach the IPv4 and IPv6
/// handlers at all.
pub const PROTOCOL_IDX_IPV4: u32 = 1;

pub const PROTOCOL_IDX_IPV6: u32 = 2;

pub const IPV4_HANDLER_PROGRAM: &'static str = "ipv4handler";

pub const IPV6_HANDLER_PROGRAM: &'static str = "ipv6handler";

/// The name of the program that handles a direction.
pub open spec fn program_name_of(dir: Direction) -> Seq<char> {
    match dir {
        Direction::Ingress => "ingress_hook"@,
        Direction::Engress => "engress_hook"@,
    }
}

/// Maps each direction to the BPF program that its master switch attaches
/// and detaches.
pub fn program_name(dir: Direction) -> (r: &'static str)
    ensures
        r@ == program_name_of(dir),
{
    match dir {
        Direction::Ingress => "ingress_hook",
        Direction::Engress => "engress_hook",
    }
}

} // verus!
