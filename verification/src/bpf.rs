//! What the firewall writes into its BPF maps, and how programs are
//! described to the rest of the application.
//!
//! The maps themselves live in the kernel; this module decides their
//! contents. Every ACL map is described by a `MapWrite`: which map, how its
//! old contents are cleared, and the key/value pairs to store, with keys
//! and values laid out byte for byte as the BPF programs read them.
use vstd::prelude::*;
use vstd::string::*;
use vstd::endian::{endianness, Endian};
use crate::events::{ne_value, u64_from_ne_bytes};
use crate::settings::{first_index, is_first_index};
use crate::text::{
    digit_in, digits_value, is_first_at, join, join_strings, lemma_first_at_unique, parse_unsigned,
    split, split_once,
};
use crate::config::{ipv4_octet, parse_ipv4_address};
use crate::consts::{IPV4_HANDLER_PROGRAM, IPV6_HANDLER_PROGRAM, PROTOCOL_IDX_IPV4, PROTOCOL_IDX_IPV6};
use crate::config::{
    config_problems, entry_problem, entry_problems,
    cidr4_result, cidr6_result, ipv6_address_result, ipv6_from_text, mac_result,
    parse_ipv4_cidr, parse_ipv6_address, parse_ipv6_cidr, parse_mac_address, texts, copy_strings, ACLConfig,
    EntryKind, Range,
};

verus! {

/// How a program wants to get attached, as its BPF program type tells.
#[derive(Debug, Clone, Copy, PartialEq, Eq, Structural)]
pub enum AttachKind {
    /// Needs a network interface (ifindex), attached through a BPF link.
    Xdp,
    /// Needs a network interface too, but goes through the classic
    /// qdisc-based TC hook.
    Tc,
    /// Whatever libbpf can auto-attach from the section name alone, so
    /// tracepoints, kprobes, etc.
    Generic,
}

/// A generic-mode (SKB) XDP attachment. Unlike links, these are owned by
/// the network device and not the process, so closing the program does
/// not detach them: they are tracked here and detached explicitly.
#[derive(Debug)]
pub struct GenericXdp {
    pub ifindex: i32,
    pub interface: String,
}

/// A loaded BPF program as the firewall's logic sees it.
#[derive(Debug, Clone)]
pub struct ProgramInfo {
    pub name: String,
    pub fd: i32,
    pub kind: AttachKind,
}

// ---------------------------------------------------------------------------
// Byte layout
// ---------------------------------------------------------------------------

/// The `n` low bytes of `x`, least significant first.
pub open spec fn le_bytes(x: nat, n: nat) -> Seq<u8>
    decreases n,
{
    if n == 0 {
        Seq::empty()
    } else {
        seq![(x % 256) as u8] + le_bytes(x / 256, (n - 1) as nat)
    }
}

/// The `n` low bytes of `x` in the byte order of the machine.
pub open spec fn ne_bytes(x: nat, n: nat) -> Seq<u8> {
    match endianness() {
        Endian::Little => le_bytes(x, n),
        Endian::Big => le_bytes(x, n).reverse(),
    }
}

/// `u32::to_ne_bytes`.
#[verifier::external_body]
fn u32_to_ne_bytes(x: u32) -> (r: [u8; 4])
    ensures
        r@ == ne_bytes(x as nat, 4),
{
    x.to_ne_bytes()
}

/// The bytes of `x` in the machine's byte order, as a vector.
pub fn ne_u32(x: u32) -> (r: Vec<u8>)
    ensures
        r@ == ne_bytes(x as nat, 4),
{
    let b = u32_to_ne_bytes(x);
    let mut r: Vec<u8> = Vec::new();
    r.push(b[0]);
    r.push(b[1]);
    r.push(b[2]);
    r.push(b[3]);
    assert(r@ =~= b@);
    r
}

/// Appends `bytes` to `v`.
fn push_bytes(v: &mut Vec<u8>, bytes: &[u8])
    ensures
        final(v)@ == old(v)@ + bytes@,
{
    let mut i: usize = 0;
    while i < bytes.len()
        invariant
            i <= bytes.len(),
            v@ == old(v)@ + bytes@.subrange(0, i as int),
        decreases bytes.len() - i,
    {
        v.push(bytes[i]);
        assert(bytes@.subrange(0, i + 1) =~= bytes@.subrange(0, i as int).push(bytes@[i as int]));
        i = i + 1;
    }
    assert(bytes@.subrange(0, bytes.len() as int) =~= bytes@);
}

/// The key of a blocked MAC address: its 6 octets followed by two zero
/// bytes, the raw bytes of the zero-extended `__u64` the BPF side reads.
pub fn mac_key(mac: [u8; 6]) -> (key: [u8; 8])
    ensures
        key@ == mac@ + seq![0u8, 0u8],
{
    let key = [mac[0], mac[1], mac[2], mac[3], mac[4], mac[5], 0u8, 0u8];
    assert(key@ =~= mac@ + seq![0u8, 0u8]);
    key
}

// ---------------------------------------------------------------------------
// Loopback
// ---------------------------------------------------------------------------

/// `ranges`, with `loopback` appended when loopback traffic is to be
/// blocked.
pub open spec fn with_loopback(ranges: Seq<Seq<char>>, disable_loopback: bool, loopback: Seq<
    char,
>) -> Seq<Seq<char>> {
    if disable_loopback {
        ranges.push(loopback)
    } else {
        ranges
    }
}

/// `disable_loopback` does not get a BPF program of its own: it folds
/// `127.0.0.0/8` into the CIDR list that the IP-ACL stage enforces anyway,
/// so it only takes effect while that stage is attached, like every other
/// rule in the list.
pub fn ranges_with_loopback(ranges: &Vec<String>, disable_loopback: bool) -> (r: Vec<String>)
    ensures
        texts(r@) == with_loopback(texts(ranges@), disable_loopback, "127.0.0.0/8"@),
{
    let mut r = copy_strings(ranges);
    if disable_loopback {
        let lb = String::from_str("127.0.0.0/8");
        r.push(lb);
        assert(texts(r@) =~= texts(ranges@).push("127.0.0.0/8"@));
    }
    r
}

/// The IPv6 counterpart of `ranges_with_loopback`: it folds `::1/128`
/// into the IPv6 CIDR list.
pub fn ranges_with_loopback6(ranges: &Vec<String>, disable_loopback: bool) -> (r: Vec<String>)
    ensures
        texts(r@) == with_loopback(texts(ranges@), disable_loopback, "::1/128"@),
{
    let mut r = copy_strings(ranges);
    if disable_loopback {
        let lb = String::from_str("::1/128");
        r.push(lb);
        assert(texts(r@) =~= texts(ranges@).push("::1/128"@));
    }
    r
}

// ---------------------------------------------------------------------------
// ACL map contents
// ---------------------------------------------------------------------------

/// One of the maps that hold the ACL.
#[derive(Debug, Clone, Copy, PartialEq, Eq, Structural)]
pub enum AclMap {
    IngressTcpSrcPorts,
    IngressUdpSrcPorts,
    IngressSrcIps,
    IngressSrcRanges,
    IngressSrcIps6,
    IngressSrcRanges6,
    IngressBlockedMac,
    IngressIpRateLimitPps,
    IngressPortRateLimitPps,
    EngressTcpDstPorts,
    EngressUdpDstPorts,
    EngressDstIps,
    EngressDstRanges,
    EngressDstIps6,
    EngressDstRanges6,
    EngressBlockedMac,
    EngressIpRateLimitPps,
    EngressPortRateLimitPps,
}

/// The name of each ACL map in the BPF object.
pub open spec fn map_name(m: AclMap) -> Seq<char> {
    match m {
        AclMap::IngressTcpSrcPorts => "ingress_tcp_src_ports"@,
        AclMap::IngressUdpSrcPorts => "ingress_udp_src_ports"@,
        AclMap::IngressSrcIps => "ingress_src_ips"@,
        AclMap::IngressSrcRanges => "ingress_src_ranges"@,
        AclMap::IngressSrcIps6 => "ingress_src_ips6"@,
        AclMap::IngressSrcRanges6 => "ingress_src_ranges6"@,
        AclMap::IngressBlockedMac => "ingress_blocked_mac"@,
        AclMap::IngressIpRateLimitPps => "ingress_ip_rate_limit_pps"@,
        AclMap::IngressPortRateLimitPps => "ingress_port_rate_limit_pps"@,
        AclMap::EngressTcpDstPorts => "engress_tcp_dst_ports"@,
        AclMap::EngressUdpDstPorts => "engress_udp_dst_ports"@,
        AclMap::EngressDstIps => "engress_dst_ips"@,
        AclMap::EngressDstRanges => "engress_dst_ranges"@,
        AclMap::EngressDstIps6 => "engress_dst_ips6"@,
        AclMap::EngressDstRanges6 => "engress_dst_ranges6"@,
        AclMap::EngressBlockedMac => "engress_blocked_mac"@,
        AclMap::EngressIpRateLimitPps => "engress_ip_rate_limit_pps"@,
        AclMap::EngressPortRateLimitPps => "engress_port_rate_limit_pps"@,
    }
}

impl AclMap {
    /// The name of the map in the BPF object.
    pub fn name(self) -> (r: &'static str)
        ensures
            r@ == map_name(self),
    {
        match self {
            AclMap::IngressTcpSrcPorts => "ingress_tcp_src_ports",
            AclMap::IngressUdpSrcPorts => "ingress_udp_src_ports",
            AclMap::IngressSrcIps => "ingress_src_ips",
            AclMap::IngressSrcRanges => "ingress_src_ranges",
            AclMap::IngressSrcIps6 => "ingress_src_ips6",
            AclMap::IngressSrcRanges6 => "ingress_src_ranges6",
            AclMap::IngressBlockedMac => "ingress_blocked_mac",
            AclMap::IngressIpRateLimitPps => "ingress_ip_rate_limit_pps",
            AclMap::IngressPortRateLimitPps => "ingress_port_rate_limit_pps",
            AclMap::EngressTcpDstPorts => "engress_tcp_dst_ports",
            AclMap::EngressUdpDstPorts => "engress_udp_dst_ports",
            AclMap::EngressDstIps => "engress_dst_ips",
            AclMap::EngressDstRanges => "engress_dst_ranges",
            AclMap::EngressDstIps6 => "engress_dst_ips6",
            AclMap::EngressDstRanges6 => "engress_dst_ranges6",
            AclMap::EngressBlockedMac => "engress_blocked_mac",
            AclMap::EngressIpRateLimitPps => "engress_ip_rate_limit_pps",
            AclMap::EngressPortRateLimitPps => "engress_port_rate_limit_pps",
        }
    }
}

/// How a map's old contents go before the new entries are written.
#[derive(Debug, Clone, Copy, PartialEq, Eq, Structural)]
pub enum MapReset {
    /// Array maps keep every index; each existing key is set back to 0.
    ZeroEveryKey,
    /// Hash and LPM-trie maps lose every existing key.
    DeleteEveryKey,
    /// The entries overwrite what is there.
    KeepEntries,
}

/// What to write into one map: how to clear it, then which key/value pairs
/// to store, in order.
#[derive(Debug)]
pub struct MapWrite {
    pub map: AclMap,
    pub reset: MapReset,
    pub entries: Vec<(Vec<u8>, Vec<u8>)>,
}

/// The contents of a `MapWrite`.
pub struct WritePlan {
    pub map: AclMap,
    pub reset: MapReset,
    pub entries: Seq<(Seq<u8>, Seq<u8>)>,
}

/// One map's write, and the error that stops the sync after it, if any.
pub struct StepPlan {
    pub write: WritePlan,
    pub error: Option<Seq<char>>,
}

pub open spec fn entries_view(e: Seq<(Vec<u8>, Vec<u8>)>) -> Seq<(Seq<u8>, Seq<u8>)> {
    e.map_values(|kv: (Vec<u8>, Vec<u8>)| (kv.0@, kv.1@))
}

pub open spec fn write_view(w: MapWrite) -> WritePlan {
    WritePlan { map: w.map, reset: w.reset, entries: entries_view(w.entries@) }
}

pub open spec fn writes_view(ws: Seq<MapWrite>) -> Seq<WritePlan> {
    ws.map_values(|w: MapWrite| write_view(w))
}

/// A key whose value marks it as blocked.
pub open spec fn flagged(key: Seq<u8>) -> (Seq<u8>, Seq<u8>) {
    (key, seq![1u8])
}

/// The entries of the ports of a range, in increasing order (none when
/// the range is empty).
pub open spec fn range_plan(r: Range) -> Seq<(Seq<u8>, Seq<u8>)> {
    if r.start <= r.end {
        Seq::new((r.end - r.start + 1) as nat, |i: int| flagged(ne_bytes((r.start + i) as nat, 4)))
    } else {
        Seq::empty()
    }
}

pub open spec fn ranges_plan(rs: Seq<Range>) -> Seq<(Seq<u8>, Seq<u8>)>
    decreases rs.len(),
{
    if rs.len() == 0 {
        Seq::empty()
    } else {
        ranges_plan(rs.drop_last()) + range_plan(rs.last())
    }
}

/// The entries of a port map: each blocked port, then each port of each
/// blocked range, keyed by the port as a 32-bit number.
pub open spec fn ports_plan(ports: Seq<u16>, ranges: Seq<Range>) -> Seq<(Seq<u8>, Seq<u8>)> {
    ports.map_values(|p: u16| flagged(ne_bytes(p as nat, 4))) + ranges_plan(ranges)
}

/// The entries of an IPv4 address map, keyed by the address number.
pub open spec fn ipv4_plan(ips: Seq<u32>) -> Seq<(Seq<u8>, Seq<u8>)> {
    ips.map_values(|ip: u32| flagged(ne_bytes(ip as nat, 4)))
}

/// The key of one text entry, or the reason it has none. CIDR keys are the
/// LPM-trie layout: the prefix length as a native 32-bit number, then the
/// address octets in network order.
pub open spec fn entry_key(kind: EntryKind, item: Seq<char>) -> Result<Seq<u8>, Seq<char>> {
    match kind {
        EntryKind::Cidr4 => match cidr4_result(item) {
            Ok((o, p)) => Ok(ne_bytes(p as nat, 4) + o),
            Err(e) => Err(e),
        },
        EntryKind::Cidr6 => match cidr6_result(item) {
            Ok((o, p)) => Ok(ne_bytes(p as nat, 4) + o),
            Err(e) => Err(e),
        },
        EntryKind::Ipv6Address => match ipv6_address_result(item, ipv6_from_text(item)) {
            Ok(o) => Ok(o),
            Err(e) => Err(e),
        },
        EntryKind::Mac => match mac_result(item) {
            Ok(m) => Ok(m + seq![0u8, 0u8]),
            Err(e) => Err(e),
        },
    }
}

/// The entries of a map of text rules, up to the first entry that does not
/// parse, and that entry's error.
pub open spec fn text_plan(kind: EntryKind, items: Seq<Seq<char>>) -> (Seq<(Seq<u8>, Seq<u8>)>, Option<Seq<char>>)
    decreases items.len(),
{
    if items.len() == 0 {
        (Seq::empty(), None)
    } else {
        match entry_key(kind, items[0]) {
            Err(e) => (Seq::empty(), Some(e)),
            Ok(k) => {
                let rest = text_plan(kind, items.drop_first());
                (seq![flagged(k)] + rest.0, rest.1)
            },
        }
    }
}

/// The single entry of a rate map: key 0, the limit in packets per second.
pub open spec fn rate_plan(pps: u32) -> Seq<(Seq<u8>, Seq<u8>)> {
    seq![(ne_bytes(0, 4), ne_bytes(pps as nat, 4))]
}

pub open spec fn full_step(map: AclMap, reset: MapReset, entries: Seq<(Seq<u8>, Seq<u8>)>) -> StepPlan {
    StepPlan { write: WritePlan { map, reset, entries }, error: None }
}

pub open spec fn text_step(map: AclMap, kind: EntryKind, items: Seq<Seq<char>>) -> StepPlan {
    let p = text_plan(kind, items);
    StepPlan { write: WritePlan { map, reset: MapReset::DeleteEveryKey, entries: p.0 }, error: p.1 }
}

/// Every map write of a sync of `c`, in order, each with the error that
/// would stop the sync after it.
#[verifier::opaque]
pub open spec fn sync_steps(c: ACLConfig) -> Seq<StepPlan> {
    seq![
        full_step(AclMap::IngressTcpSrcPorts, MapReset::ZeroEveryKey, ports_plan(c.ingress.tcp_rules.blocked_source_ports@, c.ingress.tcp_rules.blocked_source_ranges@)),
        full_step(AclMap::IngressUdpSrcPorts, MapReset::ZeroEveryKey, ports_plan(c.ingress.udp_rules.blocked_source_ports@, c.ingress.udp_rules.blocked_source_ranges@)),
        full_step(AclMap::IngressSrcIps, MapReset::DeleteEveryKey, ipv4_plan(c.ingress.ipv4_rules.blocked_source_ips@)),
        text_step(AclMap::IngressSrcRanges, EntryKind::Cidr4, with_loopback(texts(c.ingress.ipv4_rules.blocked_source_ranges@), c.ingress.ipv4_rules.disable_loopback, "127.0.0.0/8"@)),
        text_step(AclMap::IngressSrcIps6, EntryKind::Ipv6Address, texts(c.ingress.ipv6_rules.blocked_source_ips@)),
        text_step(AclMap::IngressSrcRanges6, EntryKind::Cidr6, with_loopback(texts(c.ingress.ipv6_rules.blocked_source_ranges@), c.ingress.ipv6_rules.disable_loopback, "::1/128"@)),
        text_step(AclMap::IngressBlockedMac, EntryKind::Mac, texts(c.ingress.mac_rules.blocked_source_macs@)),
        full_step(AclMap::IngressIpRateLimitPps, MapReset::KeepEntries, rate_plan(c.ingress.rate_limit.ip_rate_limit_pps)),
        full_step(AclMap::IngressPortRateLimitPps, MapReset::KeepEntries, rate_plan(c.ingress.rate_limit.port_rate_limit_pps)),
        full_step(AclMap::EngressTcpDstPorts, MapReset::ZeroEveryKey, ports_plan(c.engress.tcp_rules.blocked_destination_ports@, c.engress.tcp_rules.blocked_destination_ranges@)),
        full_step(AclMap::EngressUdpDstPorts, MapReset::ZeroEveryKey, ports_plan(c.engress.udp_rules.blocked_destination_ports@, c.engress.udp_rules.blocked_destination_ranges@)),
        full_step(AclMap::EngressDstIps, MapReset::DeleteEveryKey, ipv4_plan(c.engress.ipv4_rules.blocked_destination_ips@)),
        text_step(AclMap::EngressDstRanges, EntryKind::Cidr4, with_loopback(texts(c.engress.ipv4_rules.blocked_destination_ranges@), c.engress.ipv4_rules.disable_loopback, "127.0.0.0/8"@)),
        text_step(AclMap::EngressDstIps6, EntryKind::Ipv6Address, texts(c.engress.ipv6_rules.blocked_destination_ips@)),
        text_step(AclMap::EngressDstRanges6, EntryKind::Cidr6, with_loopback(texts(c.engress.ipv6_rules.blocked_destination_ranges@), c.engress.ipv6_rules.disable_loopback, "::1/128"@)),
        text_step(AclMap::EngressBlockedMac, EntryKind::Mac, texts(c.engress.mac_rules.blocked_destination_macs@)),
        full_step(AclMap::EngressIpRateLimitPps, MapReset::KeepEntries, rate_plan(c.engress.rate_limit.ip_rate_limit_pps)),
        full_step(AclMap::EngressPortRateLimitPps, MapReset::KeepEntries, rate_plan(c.engress.rate_limit.port_rate_limit_pps)),
    ]
}

/// The writes that happen when `steps` run in order, stopping after the
/// first one with an error, and that error.
pub open spec fn performed(steps: Seq<StepPlan>) -> (Seq<WritePlan>, Option<Seq<char>>)
    decreases steps.len(),
{
    if steps.len() == 0 {
        (Seq::empty(), None)
    } else if steps[0].error is Some {
        (seq![steps[0].write], steps[0].error)
    } else {
        let rest = performed(steps.drop_first());
        (seq![steps[0].write] + rest.0, rest.1)
    }
}

struct MapStep {
    write: MapWrite,
    error: Option<String>,
}

spec fn step_view(s: MapStep) -> StepPlan {
    StepPlan {
        write: write_view(s.write),
        error: match s.error {
            Some(e) => Some(e@),
            None => None,
        },
    }
}

spec fn steps_view(s: Seq<MapStep>) -> Seq<StepPlan> {
    s.map_values(|x: MapStep| step_view(x))
}

/// The value that marks a key as blocked.
fn flag_value() -> (r: Vec<u8>)
    ensures
        r@ == seq![1u8],
{
    let mut v: Vec<u8> = Vec::new();
    v.push(1u8);
    assert(v@ =~= seq![1u8]);
    v
}

/// The entries of a port map.
fn sync_ports(ports: &Vec<u16>, ranges: &Vec<Range>) -> (r: Vec<(Vec<u8>, Vec<u8>)>)
    ensures
        entries_view(r@) == ports_plan(ports@, ranges@),
{
    let mut r: Vec<(Vec<u8>, Vec<u8>)> = Vec::new();
    let ghost singles = ports@.map_values(|p: u16| flagged(ne_bytes(p as nat, 4)));
    let mut i: usize = 0;
    while i < ports.len()
        invariant
            i <= ports.len(),
            singles == ports@.map_values(|p: u16| flagged(ne_bytes(p as nat, 4))),
            entries_view(r@) == singles.take(i as int),
        decreases ports.len() - i,
    {
        let ghost before = r@;
        r.push((ne_u32(ports[i] as u32), flag_value()));
        assert(entries_view(r@) =~= singles.take(i + 1)) by {
            assert(entries_view(r@) =~= entries_view(before).push(flagged(ne_bytes(ports@[i as int] as nat, 4))));
        }
        i = i + 1;
    }
    assert(singles.take(ports.len() as int) =~= singles);
    let mut k: usize = 0;
    while k < ranges.len()
        invariant
            k <= ranges.len(),
            singles == ports@.map_values(|p: u16| flagged(ne_bytes(p as nat, 4))),
            entries_view(r@) == singles + ranges_plan(ranges@.take(k as int)),
        decreases ranges.len() - k,
    {
        let range = ranges[k];
        let ghost base = entries_view(r@);
        if range.start <= range.end {
            let mut p: u32 = range.start as u32;
            while p <= range.end as u32
                invariant
                    range.start <= p <= range.end as u32 + 1,
                    range.start <= range.end,
                    entries_view(r@) == base + range_plan(range).take(p - range.start),
                decreases range.end as u32 + 1 - p,
            {
                let ghost before = r@;
                r.push((ne_u32(p), flag_value()));
                assert(entries_view(r@) =~= base + range_plan(range).take(p + 1 - range.start)) by {
                    assert(entries_view(r@) =~= entries_view(before).push(flagged(ne_bytes(p as nat, 4))));
                }
                p = p + 1;
            }
            assert(range_plan(range).take(p - range.start) =~= range_plan(range));
        } else {
            assert(entries_view(r@) =~= base + range_plan(range));
        }
        assert(ranges@.take(k + 1).drop_last() =~= ranges@.take(k as int));
        assert(ranges@.take(k + 1).last() == range);
        assert(entries_view(r@) =~= singles + ranges_plan(ranges@.take(k + 1)));
        k = k + 1;
    }
    assert(ranges@.take(ranges.len() as int) =~= ranges@);
    r
}

/// The entries of an IPv4 address map.
fn sync_ips(ips: &Vec<u32>) -> (r: Vec<(Vec<u8>, Vec<u8>)>)
    ensures
        entries_view(r@) == ipv4_plan(ips@),
{
    let mut r: Vec<(Vec<u8>, Vec<u8>)> = Vec::new();
    let mut i: usize = 0;
    while i < ips.len()
        invariant
            i <= ips.len(),
            entries_view(r@) == ipv4_plan(ips@).take(i as int),
        decreases ips.len() - i,
    {
        let ghost before = r@;
        r.push((ne_u32(ips[i]), flag_value()));
        assert(entries_view(r@) =~= ipv4_plan(ips@).take(i + 1)) by {
            assert(entries_view(r@) =~= entries_view(before).push(flagged(ne_bytes(ips@[i as int] as nat, 4))));
        }
        i = i + 1;
    }
    assert(ipv4_plan(ips@).take(ips.len() as int) =~= ipv4_plan(ips@));
    r
}

/// The key of one text entry.
fn text_key(kind: EntryKind, item: &str) -> (r: Result<Vec<u8>, String>)
    ensures
        match entry_key(kind, item@) {
            Ok(k) => r matches Ok(v) && v@ == k,
            Err(e) => r matches Err(m) && m@ == e,
        },
{
    match kind {
        EntryKind::Cidr4 => match parse_ipv4_cidr(item) {
            Ok((addr, prefix)) => {
                let mut key = ne_u32(prefix as u32);
                push_bytes(&mut key, &addr);
                Ok(key)
            },
            Err(e) => Err(e),
        },
        EntryKind::Cidr6 => match parse_ipv6_cidr(item) {
            Ok((addr, prefix)) => {
                let mut key = ne_u32(prefix as u32);
                push_bytes(&mut key, &addr);
                Ok(key)
            },
            Err(e) => Err(e),
        },
        EntryKind::Ipv6Address => match parse_ipv6_address(item) {
            Ok(addr) => {
                let mut key: Vec<u8> = Vec::new();
                push_bytes(&mut key, &addr);
                assert(key@ =~= addr@);
                Ok(key)
            },
            Err(e) => Err(e),
        },
        EntryKind::Mac => match parse_mac_address(item) {
            Ok(mac) => {
                let bytes = mac_key(mac);
                let mut key: Vec<u8> = Vec::new();
                push_bytes(&mut key, &bytes);
                assert(key@ =~= bytes@);
                Ok(key)
            },
            Err(e) => Err(e),
        },
    }
}

/// The entries of a map of text rules, up to the first that does not
/// parse, and its error.
fn sync_texts(kind: EntryKind, items: &Vec<String>) -> (r: (Vec<(Vec<u8>, Vec<u8>)>, Option<String>))
    ensures
        entries_view(r.0@) == text_plan(kind, texts(items@)).0,
        match text_plan(kind, texts(items@)).1 {
            Some(e) => r.1 matches Some(m) && m@ == e,
            None => r.1 is None,
        },
{
    let ghost all = texts(items@);
    let mut r: Vec<(Vec<u8>, Vec<u8>)> = Vec::new();
    let mut i: usize = 0;
    assert(all.skip(0) =~= all);
    assert(entries_view(r@) + text_plan(kind, all).0 =~= text_plan(kind, all).0);
    while i < items.len()
        invariant
            i <= items.len(),
            all == texts(items@),
            text_plan(kind, all).0 == entries_view(r@) + text_plan(kind, all.skip(i as int)).0,
            text_plan(kind, all).1 == text_plan(kind, all.skip(i as int)).1,
        decreases items.len() - i,
    {
        let ghost rest = all.skip(i as int);
        assert(rest[0] == items@[i as int]@);
        assert(rest.drop_first() =~= all.skip(i + 1));
        match text_key(kind, items[i].as_str()) {
            Ok(key) => {
                let ghost before = r@;
                r.push((key, flag_value()));
                assert(entries_view(r@) =~= entries_view(before).push(flagged(key@)));
                assert(entries_view(before) + (seq![flagged(key@)] + text_plan(kind, all.skip(i + 1)).0) =~= entries_view(r@) + text_plan(kind, all.skip(i + 1)).0);
            },
            Err(e) => {
                assert(text_plan(kind, rest).0 =~= Seq::<(Seq<u8>, Seq<u8>)>::empty());
                assert(entries_view(r@) + text_plan(kind, rest).0 =~= entries_view(r@));
                return (r, Some(e));
            },
        }
        i = i + 1;
    }
    assert(all.skip(items.len() as int) =~= Seq::<Seq<char>>::empty());
    assert(entries_view(r@) + Seq::<(Seq<u8>, Seq<u8>)>::empty() =~= entries_view(r@));
    (r, None)
}

/// The single entry of a rate map.
fn sync_rate_pps(pps: u32) -> (r: Vec<(Vec<u8>, Vec<u8>)>)
    ensures
        entries_view(r@) == rate_plan(pps),
{
    let mut r: Vec<(Vec<u8>, Vec<u8>)> = Vec::new();
    r.push((ne_u32(0), ne_u32(pps)));
    assert(entries_view(r@) =~= rate_plan(pps));
    r
}

fn full(map: AclMap, reset: MapReset, entries: Vec<(Vec<u8>, Vec<u8>)>) -> (s: MapStep)
    ensures
        step_view(s) == full_step(map, reset, entries_view(entries@)),
{
    MapStep { write: MapWrite { map, reset, entries }, error: None }
}

fn text_step_of(map: AclMap, kind: EntryKind, items: &Vec<String>) -> (s: MapStep)
    ensures
        step_view(s) == text_step(map, kind, texts(items@)),
{
    let (entries, error) = sync_texts(kind, items);
    MapStep { write: MapWrite { map, reset: MapReset::DeleteEveryKey, entries }, error }
}

/// Decides what every ACL map must hold for `config`, replacing whatever
/// was there before: the writes to perform, in order, and the error that
/// stops the sync (an entry that does not parse), if any. The writes stop
/// at the map whose entry failed, and that map's write holds the entries
/// before the failing one.
#[verifier::spinoff_prover]
#[verifier::rlimit(40)]
pub fn sync_acl(config: &ACLConfig) -> (r: (Vec<MapWrite>, Result<(), String>))
    ensures
        writes_view(r.0@) == performed(sync_steps(*config)).0,
        match performed(sync_steps(*config)).1 {
            Some(e) => r.1 matches Err(m) && m@ == e,
            None => r.1 is Ok,
        },
{
    let c = config;
    let mut steps: Vec<MapStep> = Vec::new();
    steps.push(full(AclMap::IngressTcpSrcPorts, MapReset::ZeroEveryKey, sync_ports(&c.ingress.tcp_rules.blocked_source_ports, &c.ingress.tcp_rules.blocked_source_ranges)));
    steps.push(full(AclMap::IngressUdpSrcPorts, MapReset::ZeroEveryKey, sync_ports(&c.ingress.udp_rules.blocked_source_ports, &c.ingress.udp_rules.blocked_source_ranges)));
    steps.push(full(AclMap::IngressSrcIps, MapReset::DeleteEveryKey, sync_ips(&c.ingress.ipv4_rules.blocked_source_ips)));
    steps.push(text_step_of(AclMap::IngressSrcRanges, EntryKind::Cidr4, &ranges_with_loopback(&c.ingress.ipv4_rules.blocked_source_ranges, c.ingress.ipv4_rules.disable_loopback)));
    steps.push(text_step_of(AclMap::IngressSrcIps6, EntryKind::Ipv6Address, &c.ingress.ipv6_rules.blocked_source_ips));
    steps.push(text_step_of(AclMap::IngressSrcRanges6, EntryKind::Cidr6, &ranges_with_loopback6(&c.ingress.ipv6_rules.blocked_source_ranges, c.ingress.ipv6_rules.disable_loopback)));
    steps.push(text_step_of(AclMap::IngressBlockedMac, EntryKind::Mac, &c.ingress.mac_rules.blocked_source_macs));
    steps.push(full(AclMap::IngressIpRateLimitPps, MapReset::KeepEntries, sync_rate_pps(c.ingress.rate_limit.ip_rate_limit_pps)));
    steps.push(full(AclMap::IngressPortRateLimitPps, MapReset::KeepEntries, sync_rate_pps(c.ingress.rate_limit.port_rate_limit_pps)));
    steps.push(full(AclMap::EngressTcpDstPorts, MapReset::ZeroEveryKey, sync_ports(&c.engress.tcp_rules.blocked_destination_ports, &c.engress.tcp_rules.blocked_destination_ranges)));
    steps.push(full(AclMap::EngressUdpDstPorts, MapReset::ZeroEveryKey, sync_ports(&c.engress.udp_rules.blocked_destination_ports, &c.engress.udp_rules.blocked_destination_ranges)));
    steps.push(full(AclMap::EngressDstIps, MapReset::DeleteEveryKey, sync_ips(&c.engress.ipv4_rules.blocked_destination_ips)));
    steps.push(text_step_of(AclMap::EngressDstRanges, EntryKind::Cidr4, &ranges_with_loopback(&c.engress.ipv4_rules.blocked_destination_ranges, c.engress.ipv4_rules.disable_loopback)));
    steps.push(text_step_of(AclMap::EngressDstIps6, EntryKind::Ipv6Address, &c.engress.ipv6_rules.blocked_destination_ips));
    steps.push(text_step_of(AclMap::EngressDstRanges6, EntryKind::Cidr6, &ranges_with_loopback6(&c.engress.ipv6_rules.blocked_destination_ranges, c.engress.ipv6_rules.disable_loopback)));
    steps.push(text_step_of(AclMap::EngressBlockedMac, EntryKind::Mac, &c.engress.mac_rules.blocked_destination_macs));
    steps.push(full(AclMap::EngressIpRateLimitPps, MapReset::KeepEntries, sync_rate_pps(c.engress.rate_limit.ip_rate_limit_pps)));
    steps.push(full(AclMap::EngressPortRateLimitPps, MapReset::KeepEntries, sync_rate_pps(c.engress.rate_limit.port_rate_limit_pps)));
    assert(steps_view(steps@) =~= sync_steps(*config)) by {
        reveal(sync_steps);
    }
    perform(steps)
}

/// The writes of `steps` up to and including the first that failed, and
/// its error.
fn perform(steps: Vec<MapStep>) -> (r: (Vec<MapWrite>, Result<(), String>))
    ensures
        writes_view(r.0@) == performed(steps_view(steps@)).0,
        match performed(steps_view(steps@)).1 {
            Some(e) => r.1 matches Err(m) && m@ == e,
            None => r.1 is Ok,
        },
{
    let ghost all = steps_view(steps@);
    let mut writes: Vec<MapWrite> = Vec::new();
    let mut pending = steps;
    let ghost n = all.len();
    let mut done: usize = 0;
    assert(all.skip(0) =~= all);
    assert(writes_view(writes@) + performed(all).0 =~= performed(all).0);
    let total = pending.len();
    assert(n == total);
    while pending.len() > 0
        invariant
            all.len() == n,
            n <= usize::MAX,
            all == steps_view(steps@),
            done + pending.len() == n,
            steps_view(pending@) == all.skip(done as int),
            performed(all).0 == writes_view(writes@) + performed(all.skip(done as int)).0,
            performed(all).1 == performed(all.skip(done as int)).1,
        decreases pending.len(),
    {
        let ghost rest = all.skip(done as int);
        let ghost before = writes@;
        let ghost old_pending = pending@;
        assert(rest.len() > 0);
        let step = pending.remove(0);
        assert(step_view(step) == rest[0]);
        assert(rest.drop_first() =~= all.skip(done + 1));
        assert(steps_view(pending@) =~= steps_view(old_pending).drop_first());
        let MapStep { write, error } = step;
        writes.push(write);
        assert(writes_view(writes@) =~= writes_view(before).push(rest[0].write));
        match error {
            Some(e) => {
                assert(rest[0].error is Some);
                assert(performed(rest).0 =~= seq![rest[0].write]);
                assert(writes_view(writes@) =~= writes_view(before) + performed(rest).0);
                assert(writes_view(writes@) == performed(all).0);
                assert(performed(rest).1 == Some(e@));
                assert(performed(all).1 == Some(e@));
                return (writes, Err(e));
            },
            None => {
                assert(writes_view(before) + performed(rest).0 =~= writes_view(writes@) + performed(all.skip(done + 1)).0);
            },
        }
        done = done + 1;
    }
    assert(all.skip(done as int) =~= Seq::<StepPlan>::empty());
    assert(writes_view(writes@) + Seq::<WritePlan>::empty() =~= writes_view(writes@));
    (writes, Ok(()))
}

// ---------------------------------------------------------------------------
// Programs by name, and prog-array slots
// ---------------------------------------------------------------------------

/// The names of the programs, in order.
pub open spec fn program_names(programs: Seq<ProgramInfo>) -> Seq<Seq<char>> {
    programs.map_values(|p: ProgramInfo| p.name@)
}

/// The position of the first program called `name`, if one is loaded.
pub fn program_index(programs: &Vec<ProgramInfo>, name: &str) -> (r: Option<usize>)
    ensures
        r matches Some(i) ==> first_index(program_names(programs@), name@) == Some(i as int),
        r is None ==> first_index(program_names(programs@), name@) is None,
{
    let ghost names = program_names(programs@);
    let mut i: usize = 0;
    while i < programs.len()
        invariant
            i <= programs.len(),
            names == program_names(programs@),
            forall|j: int| 0 <= j < i ==> names[j] != name@,
        decreases programs.len() - i,
    {
        if crate::text::str_equals(programs[i].name.as_str(), name) {
            proof {
                assert(is_first_index(names, name@, i as int));
                let k = choose|k: int| is_first_index(names, name@, k);
                if k < i {
                    assert(names[k] != name@);
                } else if i < k {
                    assert(names[i as int] != name@);
                }
            }
            return Some(i);
        }
        i = i + 1;
    }
    proof {
        if exists|k: int| is_first_index(names, name@, k) {
            let k = choose|k: int| is_first_index(names, name@, k);
            assert(names[k] == name@);
        }
    }
    None
}

/// The descriptor of the first program called `name`, if one is loaded.
pub open spec fn fd_of(programs: Seq<ProgramInfo>, name: Seq<char>) -> Option<i32> {
    match first_index(program_names(programs), name) {
        Some(i) => Some(programs[i].fd),
        None => None,
    }
}

pub fn program_fd(programs: &Vec<ProgramInfo>, name: &str) -> (r: Option<i32>)
    ensures
        r == fd_of(programs@, name@),
{
    match program_index(programs, name) {
        Some(i) => Some(programs[i].fd),
        None => None,
    }
}

/// The permanent protocol routes of `protocol_redirecters`: the IPv4
/// handler's slot and descriptor, then the IPv6 handler's. A handler that
/// is not loaded leaves its slot empty.
pub open spec fn routes_of(programs: Seq<ProgramInfo>) -> Seq<(u32, Option<i32>)> {
    seq![
        (PROTOCOL_IDX_IPV4, fd_of(programs, IPV4_HANDLER_PROGRAM@)),
        (PROTOCOL_IDX_IPV6, fd_of(programs, IPV6_HANDLER_PROGRAM@)),
    ]
}

/// The slots that `wire_protocol_routes` fills, in order, with what goes
/// into each. Without them the tail call from the ingress hook into the
/// IPv4 and IPv6 handlers fails and every packet passes untouched.
pub fn protocol_routes(programs: &Vec<ProgramInfo>) -> (r: Vec<(u32, Option<i32>)>)
    ensures
        r@ == routes_of(programs@),
{
    let mut r: Vec<(u32, Option<i32>)> = Vec::new();
    r.push((PROTOCOL_IDX_IPV4, program_fd(programs, IPV4_HANDLER_PROGRAM)));
    r.push((PROTOCOL_IDX_IPV6, program_fd(programs, IPV6_HANDLER_PROGRAM)));
    assert(r@ =~= routes_of(programs@));
    r
}

/// What `set_stage` writes into a prog-array map: the slot's key, and the
/// program descriptor to store there, or `None` to empty the slot. A stage
/// only runs while its program occupies its slot.
pub fn stage_entry(index: u32, fd: Option<i32>) -> (r: (Vec<u8>, Option<Vec<u8>>))
    ensures
        r.0@ == ne_bytes(index as nat, 4),
        match fd {
            Some(f) => r.1 matches Some(v) && v@ == ne_bytes(f as u32 as nat, 4),
            None => r.1 is None,
        },
{
    let key = ne_u32(index);
    match fd {
        Some(f) => (key, Some(ne_u32(f as u32))),
        None => (key, None),
    }
}

/// The packet counter read from the first eight bytes of the counter map's
/// value, in the machine's byte order; zero when there is no value or it is
/// too short.
pub open spec fn packets_of(value: Option<Seq<u8>>) -> u64 {
    match value {
        Some(b) => if b.len() >= 8 {
            ne_value(b.subrange(0, 8)) as u64
        } else {
            0
        },
        None => 0,
    }
}

pub fn packets_processed(value: Option<Vec<u8>>) -> (r: u64)
    ensures
        r == packets_of(match value {
            Some(v) => Some(v@),
            None => None,
        }),
{
    match value {
        Some(b) => {
            if b.len() < 8 {
                return 0;
            }
            let r = u64_from_ne_bytes([b[0], b[1], b[2], b[3], b[4], b[5], b[6], b[7]]);
            assert(b@.subrange(0, 8) =~= seq![b@[0], b@[1], b@[2], b@[3], b@[4], b@[5], b@[6], b@[7]]);
            r
        },
        None => 0,
    }
}

// ---------------------------------------------------------------------------
// Attaching and detaching
// ---------------------------------------------------------------------------

/// Whether `enable` still has to attach to `name`: only interfaces that are
/// not attached yet are tried, so enabling twice changes nothing.
pub fn needs_attach(attached: &Vec<String>, name: &str) -> (r: bool)
    ensures
        r == !texts(attached@).contains(name@),
{
    let mut i: usize = 0;
    while i < attached.len()
        invariant
            i <= attached.len(),
            forall|j: int| 0 <= j < i ==> attached@[j]@ != name@,
        decreases attached.len() - i,
    {
        if crate::text::str_equals(attached[i].as_str(), name) {
            assert(texts(attached@)[i as int] == name@);
            return false;
        }
        i = i + 1;
    }
    proof {
        if texts(attached@).contains(name@) {
            let k = choose|k: int| 0 <= k < texts(attached@).len() && texts(attached@)[k] == name@;
            assert(attached@[k]@ == name@);
        }
    }
    true
}

/// Enabling is idempotent: an interface that an attach added to the
/// attached list is skipped by every later `enable`.
pub proof fn law_attached_interface_is_skipped(attached: Seq<Seq<char>>, name: Seq<char>)
    ensures
        attached.push(name).contains(name),
{
    assert(attached.push(name)[attached.len() as int] == name);
}

/// The attached list after one attach to `name`: it joins the list when the
/// attach succeeded (`ok`), and the list stays as it was when it failed.
pub fn after_attach(attached: &Vec<String>, name: &str, ok: bool) -> (r: Vec<String>)
    ensures
        texts(r@) == if ok {
            texts(attached@).push(name@)
        } else {
            texts(attached@)
        },
{
    let mut r = copy_strings(attached);
    if ok {
        let ghost before = r@;
        r.push(name.to_owned());
        assert(texts(r@) =~= texts(before).push(name@));
    }
    r
}

/// Whether a program of kind `kind` that holds `links` links still needs
/// its one automatic attach: only a generic program does, and only once.
pub fn needs_generic_link(kind: AttachKind, links: usize) -> (r: bool)
    ensures
        r == (kind == AttachKind::Generic && links == 0),
{
    kind == AttachKind::Generic && links == 0
}

/// The attached list after `enable` has gone through `targets` in order,
/// starting from `attached`: a target already in the list is skipped, any
/// other one is tried and joins the list when its attach succeeded
/// (`oks[i]` is the outcome an attach of `targets[i]` has).
pub open spec fn attach_run(attached: Seq<Seq<char>>, targets: Seq<Seq<char>>, oks: Seq<bool>) -> Seq<Seq<char>>
    decreases targets.len(),
{
    if targets.len() == 0 {
        attached
    } else {
        let before = attach_run(attached, targets.drop_last(), oks.drop_last());
        let t = targets.last();
        if !before.contains(t) && oks[targets.len() - 1] {
            before.push(t)
        } else {
            before
        }
    }
}

/// After `enable`, the attached list is the old list followed by the
/// interfaces that newly attached, each once: an interface not attached
/// before is in the list exactly when one of its attaches succeeded.
pub proof fn law_enable_appends_the_attached_targets(attached: Seq<Seq<char>>, targets: Seq<Seq<char>>, oks: Seq<bool>)
    requires
        oks.len() == targets.len(),
    ensures
        ({
            let after = attach_run(attached, targets, oks);
            &&& after.len() >= attached.len()
            &&& after.take(attached.len() as int) == attached
            &&& forall|j: int| attached.len() <= j < after.len() ==> !attached.contains(#[trigger] after[j])
            &&& forall|j: int, k: int| attached.len() <= j < k < after.len() ==> after[j] != after[k]
            &&& forall|t: Seq<char>| !attached.contains(t) ==> (#[trigger] after.contains(t) <==> exists|i: int|
                0 <= i < targets.len() && targets[i] == t && oks[i])
        }),
    decreases targets.len(),
{
    let after = attach_run(attached, targets, oks);
    if targets.len() == 0 {
        assert(after.take(attached.len() as int) =~= attached);
    } else {
        let n = targets.len() - 1;
        let ts = targets.drop_last();
        let os = oks.drop_last();
        let before = attach_run(attached, ts, os);
        law_enable_appends_the_attached_targets(attached, ts, os);
        let t = targets.last();
        assert forall|u: Seq<char>| !attached.contains(u) implies (#[trigger] after.contains(u) <==> exists|i: int|
            0 <= i < targets.len() && targets[i] == u && oks[i]) by {
            if after.contains(u) {
                if before.contains(u) {
                    let i = choose|i: int| 0 <= i < ts.len() && ts[i] == u && os[i];
                    assert(targets[i] == u && oks[i]);
                } else {
                    let j = choose|j: int| 0 <= j < after.len() && after[j] == u;
                    assert(j == before.len());
                    assert(targets[n] == u && oks[n]);
                }
            }
            if exists|i: int| 0 <= i < targets.len() && targets[i] == u && oks[i] {
                let i = choose|i: int| 0 <= i < targets.len() && targets[i] == u && oks[i];
                if i < n {
                    assert(ts[i] == u && os[i]);
                    assert(before.contains(u));
                    let j = choose|j: int| 0 <= j < before.len() && before[j] == u;
                    assert(after[j] == u);
                } else if before.contains(u) {
                    let j = choose|j: int| 0 <= j < before.len() && before[j] == u;
                    assert(after[j] == u);
                } else {
                    assert(after[before.len() as int] == u);
                }
            }
        }
        if !before.contains(t) && oks[n] {
            assert(after.take(attached.len() as int) =~= before.take(attached.len() as int));
            if attached.contains(t) {
                let j = choose|j: int| 0 <= j < attached.len() && attached[j] == t;
                assert(before.take(attached.len() as int)[j] == t);
                assert(before[j] == t);
            }
            assert forall|j: int, k: int| attached.len() <= j < k < after.len() implies after[j] != after[k] by {
                if k == before.len() {
                    assert(after[j] == before[j]);
                }
            }
        }
    }
}

/// The program type's name in messages.
pub open spec fn kind_word(kind: AttachKind) -> Seq<char> {
    match kind {
        AttachKind::Xdp => "XDP"@,
        AttachKind::Tc => "TC"@,
        AttachKind::Generic => "generic"@,
    }
}

/// Why an XDP or TC program cannot be enabled without interfaces.
pub open spec fn no_interfaces_text(kind: AttachKind, program: Seq<char>) -> Seq<char> {
    "no interfaces configured for "@ + kind_word(kind) + " program \""@ + program + "\""@
}

pub fn no_interfaces_error(kind: AttachKind, program: &str) -> (r: String)
    ensures
        r@ == no_interfaces_text(kind, program@),
{
    let mut r = String::from_str("no interfaces configured for ");
    r.append(match kind {
        AttachKind::Xdp => "XDP",
        AttachKind::Tc => "TC",
        AttachKind::Generic => "generic",
    });
    r.append(" program \"");
    r.append(program);
    r.append("\"");
    r
}

/// The interfaces of `interfaces` that are not attached yet, in order. A
/// name listed twice stays twice: should its first attach fail, `enable`
/// tries it again, and once one attach succeeds the later copy is skipped
/// by `needs_attach`.
pub open spec fn attach_targets(attached: Seq<Seq<char>>, interfaces: Seq<Seq<char>>) -> Seq<Seq<char>>
    decreases interfaces.len(),
{
    if interfaces.len() == 0 {
        Seq::empty()
    } else {
        let rest = attach_targets(attached, interfaces.drop_last());
        if attached.contains(interfaces.last()) {
            rest
        } else {
            rest.push(interfaces.last())
        }
    }
}

/// What `enable` sets out to do for a program of kind `kind` called
/// `program`: a generic program attaches by itself and needs no interface;
/// an XDP or TC program needs interfaces, and is attached to those it is
/// not attached to yet, in order.
pub fn attach_plan(kind: AttachKind, program: &str, attached: &Vec<String>, interfaces: &Vec<String>) -> (r:
    Result<Vec<String>, String>)
    ensures
        kind == AttachKind::Generic ==> (r matches Ok(v) && v@.len() == 0),
        kind != AttachKind::Generic && interfaces@.len() == 0 ==> (r matches Err(m) && m@
            == no_interfaces_text(kind, program@)),
        kind != AttachKind::Generic && interfaces@.len() > 0 ==> (r matches Ok(v) && texts(v@)
            == attach_targets(texts(attached@), texts(interfaces@))),
{
    if kind == AttachKind::Generic {
        return Ok(Vec::new());
    }
    if interfaces.len() == 0 {
        return Err(no_interfaces_error(kind, program));
    }
    let ghost a = texts(attached@);
    let ghost all = texts(interfaces@);
    let mut plan: Vec<String> = Vec::new();
    let mut i: usize = 0;
    while i < interfaces.len()
        invariant
            i <= interfaces.len(),
            a == texts(attached@),
            all == texts(interfaces@),
            texts(plan@) == attach_targets(a, all.take(i as int)),
        decreases interfaces.len() - i,
    {
        let name = &interfaces[i];
        proof {
            assert(all.take(i + 1).drop_last() =~= all.take(i as int));
            assert(all.take(i + 1).last() == name@);
        }
        if needs_attach(attached, name.as_str()) {
            let ghost before = plan@;
            plan.push(name.clone());
            assert(texts(plan@) =~= texts(before).push(name@));
        }
        i = i + 1;
    }
    assert(all.take(interfaces.len() as int) =~= all);
    Ok(plan)
}

/// One failed interface in an attach or detach report.
pub fn interface_error(interface: &str, error: &str) -> (r: String)
    ensures
        r@ == interface@ + ": "@ + error@,
{
    let mut r = String::from_str(interface);
    r.append(": ");
    r.append(error);
    r
}

/// The outcome of `enable` once every interface was tried: success unless
/// some failed, and then one message naming them all.
pub fn attach_outcome(errors: &Vec<String>) -> (r: Result<(), String>)
    ensures
        errors@.len() == 0 <==> r is Ok,
        r matches Err(m) ==> m@ == "failed on interface(s): "@ + join(texts(errors@), ", "@),
{
    if errors.len() == 0 {
        Ok(())
    } else {
        let mut m = String::from_str("failed on interface(s): ");
        let joined = join_strings(errors, ", ");
        m.append(joined.as_str());
        Err(m)
    }
}

/// The outcome of `disable` once every hook was detached: success unless
/// some detach failed.
pub fn detach_outcome(errors: &Vec<String>) -> (r: Result<(), String>)
    ensures
        errors@.len() == 0 <==> r is Ok,
        r matches Err(m) ==> m@ == "failed to detach TC/generic-XDP hook(s): "@ + join(texts(errors@), ", "@),
{
    if errors.len() == 0 {
        Ok(())
    } else {
        let mut m = String::from_str("failed to detach TC/generic-XDP hook(s): ");
        let joined = join_strings(errors, ", ");
        m.append(joined.as_str());
        Err(m)
    }
}

// ---------------------------------------------------------------------------
// Validation and sync agree
// ---------------------------------------------------------------------------

/// An entry that validation accepts has a map key, and the other way round.
proof fn lemma_entry_problem_key(kind: EntryKind, path: Seq<char>, item: Seq<char>)
    ensures
        entry_problem(kind, path, item).len() == 0 <==> entry_key(kind, item) is Ok,
{
}

/// A list validates without problems exactly when every entry has a key.
#[verifier::spinoff_prover]
proof fn lemma_entry_problems_keys(kind: EntryKind, path: Seq<char>, items: Seq<Seq<char>>)
    ensures
        entry_problems(kind, path, items).len() == 0 <==> forall|i: int|
            0 <= i < items.len() ==> (#[trigger] entry_key(kind, items[i])) is Ok,
    decreases items.len(),
{
    if items.len() > 0 {
        let rest = items.drop_last();
        lemma_entry_problems_keys(kind, path, rest);
        lemma_entry_problem_key(kind, path, items.last());
        if entry_problems(kind, path, items).len() == 0 {
            assert forall|i: int| 0 <= i < items.len() implies (#[trigger] entry_key(kind, items[i])) is Ok by {
                if i < rest.len() {
                    assert(rest[i] == items[i]);
                }
            }
        } else {
            if entry_problems(kind, path, rest).len() != 0 {
                let i = choose|i: int| 0 <= i < rest.len() && !(entry_key(kind, rest[i]) is Ok);
                assert(rest[i] == items[i]);
            }
        }
    }
}

/// The text plan of a list stops with no error exactly when every entry
/// has a key.
proof fn lemma_text_plan_keys(kind: EntryKind, items: Seq<Seq<char>>)
    ensures
        text_plan(kind, items).1 is None <==> forall|i: int|
            0 <= i < items.len() ==> (#[trigger] entry_key(kind, items[i])) is Ok,
    decreases items.len(),
{
    if items.len() > 0 {
        let rest = items.drop_first();
        lemma_text_plan_keys(kind, rest);
        if text_plan(kind, items).1 is None {
            assert forall|i: int| 0 <= i < items.len() implies (#[trigger] entry_key(kind, items[i])) is Ok by {
                if i > 0 {
                    assert(rest[i - 1] == items[i]);
                }
            }
        } else if entry_key(kind, items[0]) is Ok {
            let i = choose|i: int| 0 <= i < rest.len() && !(entry_key(kind, rest[i]) is Ok);
            assert(rest[i] == items[i + 1]);
        }
    }
}

/// Steps that all succeed are all performed, and the sync ends without an
/// error.
proof fn lemma_performed_all(steps: Seq<StepPlan>)
    requires
        forall|i: int| 0 <= i < steps.len() ==> (#[trigger] steps[i].error) is None,
    ensures
        performed(steps).1 is None,
        performed(steps).0 == steps.map_values(|s: StepPlan| s.write),
    decreases steps.len(),
{
    if steps.len() > 0 {
        let rest = steps.drop_first();
        assert forall|i: int| 0 <= i < rest.len() implies (#[trigger] rest[i].error) is None by {
            assert(rest[i] == steps[i + 1]);
        }
        lemma_performed_all(rest);
        assert(performed(steps).0 =~= steps.map_values(|s: StepPlan| s.write));
    }
}

/// The IPv4 loopback range that `disable_loopback` folds in has a key.
proof fn lemma_ipv4_loopback_key()
    ensures
        entry_key(EntryKind::Cidr4, "127.0.0.0/8"@) is Ok,
{
    reveal_strlit("127.0.0.0/8");
    let s = "127.0.0.0/8"@;
    assert(is_first_at(s, '/', 9));
    assert forall|i: int| is_first_at(s, '/', i) implies i == 9 by {
        lemma_first_at_unique(s, '/', i, 9);
    }
    let a = s.subrange(0, 9);
    let p = s.subrange(10, 11);
    assert(split_once(s, '/') == Some((a, p)));
    let a1 = a.subrange(4, 9);
    let a2 = a1.subrange(2, 5);
    let a3 = a2.subrange(2, 3);
    assert(is_first_at(a, '.', 3));
    assert forall|i: int| is_first_at(a, '.', i) implies i == 3 by {
        lemma_first_at_unique(a, '.', i, 3);
    }
    assert(is_first_at(a1, '.', 1));
    assert forall|i: int| is_first_at(a1, '.', i) implies i == 1 by {
        lemma_first_at_unique(a1, '.', i, 1);
    }
    assert(is_first_at(a2, '.', 1));
    assert forall|i: int| is_first_at(a2, '.', i) implies i == 1 by {
        lemma_first_at_unique(a2, '.', i, 1);
    }
    assert(!exists|i: int| is_first_at(a3, '.', i));
    assert(split(a3, '.') == seq![a3]);
    assert(split(a2, '.') =~= seq![a2.subrange(0, 1), a3]);
    assert(split(a1, '.') =~= seq![a1.subrange(0, 1), a2.subrange(0, 1), a3]);
    let parts = split(a, '.');
    assert(parts =~= seq![a.subrange(0, 3), a1.subrange(0, 1), a2.subrange(0, 1), a3]);
    let p127 = a.subrange(0, 3);
    let zero = a3;
    assert(digit_in(p127[0], 10) == Some(1nat));
    assert(digit_in(p127[1], 10) == Some(2nat));
    assert(digit_in(p127[2], 10) == Some(7nat));
    assert(p127.drop_last().drop_last().drop_last() =~= Seq::<char>::empty());
    assert(digits_value(p127, 10) == 127) by {
        reveal_with_fuel(digits_value, 4);
    }
    assert(ipv4_octet(p127) == Some(127u8));
    assert(digit_in(zero[0], 10) == Some(0nat));
    assert(zero.drop_last() =~= Seq::<char>::empty());
    assert(ipv4_octet(zero) == Some(0u8));
    assert(a1.subrange(0, 1) =~= zero);
    assert(a2.subrange(0, 1) =~= zero);
    assert(ipv4_octet(parts[0]) is Some);
    assert(ipv4_octet(parts[1]) is Some);
    assert(ipv4_octet(parts[2]) is Some);
    assert(ipv4_octet(parts[3]) is Some);
    assert(parse_ipv4_address(a) is Some);
    assert(digit_in(p[0], 10) == Some(8nat));
    assert(p.drop_last() =~= Seq::<char>::empty());
    assert(parse_unsigned(p, 10, 255) == Some(8nat));
}

/// A configuration that passes validation is written into the BPF maps
/// without error: the sync performs all of its map writes. Validation and
/// the sync read every address, range and MAC with the same parsers; the
/// loopback ranges that the sync folds in are the one thing validation does
/// not see, and the IPv6 one is read by std's parser.
pub proof fn law_validated_config_syncs(c: ACLConfig, indices: Seq<u32>)
    requires
        config_problems(c, indices).len() == 0,
        c.ingress.ipv6_rules.disable_loopback || c.engress.ipv6_rules.disable_loopback ==> entry_key(
            EntryKind::Cidr6,
            "::1/128"@,
        ) is Ok,
    ensures
        performed(sync_steps(c)).1 is None,
        performed(sync_steps(c)).0.len() == sync_steps(c).len(),
{
    let steps = sync_steps(c);
    lemma_sync_step_errors(c);
    lemma_no_entry_problems(c, indices);
    lemma_ipv4_loopback_key();
    lemma_loopback_keys(EntryKind::Cidr4, texts(c.ingress.ipv4_rules.blocked_source_ranges@), c.ingress.ipv4_rules.disable_loopback, "127.0.0.0/8"@);
    lemma_loopback_keys(EntryKind::Cidr4, texts(c.engress.ipv4_rules.blocked_destination_ranges@), c.engress.ipv4_rules.disable_loopback, "127.0.0.0/8"@);
    lemma_loopback_keys(EntryKind::Cidr6, texts(c.ingress.ipv6_rules.blocked_source_ranges@), c.ingress.ipv6_rules.disable_loopback, "::1/128"@);
    lemma_loopback_keys(EntryKind::Cidr6, texts(c.engress.ipv6_rules.blocked_destination_ranges@), c.engress.ipv6_rules.disable_loopback, "::1/128"@);
    lemma_text_plan_keys(EntryKind::Ipv6Address, texts(c.ingress.ipv6_rules.blocked_source_ips@));
    lemma_text_plan_keys(EntryKind::Ipv6Address, texts(c.engress.ipv6_rules.blocked_destination_ips@));
    lemma_text_plan_keys(EntryKind::Mac, texts(c.ingress.mac_rules.blocked_source_macs@));
    lemma_text_plan_keys(EntryKind::Mac, texts(c.engress.mac_rules.blocked_destination_macs@));
    lemma_performed_all(steps);
}

/// The errors that the steps of a sync can stop with: only the steps of
/// text lists can fail, with the error of their first entry without a key.
#[verifier::spinoff_prover]
#[verifier::rlimit(40)]
proof fn lemma_sync_step_errors(c: ACLConfig)
    ensures
        sync_steps(c).len() == 18,
        forall|i: int| 0 <= i < 18 && i != 3 && i != 4 && i != 5 && i != 6 && i != 12 && i != 13 && i != 14 && i != 15
            ==> (#[trigger] sync_steps(c)[i].error) is None,
        sync_steps(c)[3].error == text_plan(EntryKind::Cidr4, with_loopback(texts(c.ingress.ipv4_rules.blocked_source_ranges@), c.ingress.ipv4_rules.disable_loopback, "127.0.0.0/8"@)).1,
        sync_steps(c)[4].error == text_plan(EntryKind::Ipv6Address, texts(c.ingress.ipv6_rules.blocked_source_ips@)).1,
        sync_steps(c)[5].error == text_plan(EntryKind::Cidr6, with_loopback(texts(c.ingress.ipv6_rules.blocked_source_ranges@), c.ingress.ipv6_rules.disable_loopback, "::1/128"@)).1,
        sync_steps(c)[6].error == text_plan(EntryKind::Mac, texts(c.ingress.mac_rules.blocked_source_macs@)).1,
        sync_steps(c)[12].error == text_plan(EntryKind::Cidr4, with_loopback(texts(c.engress.ipv4_rules.blocked_destination_ranges@), c.engress.ipv4_rules.disable_loopback, "127.0.0.0/8"@)).1,
        sync_steps(c)[13].error == text_plan(EntryKind::Ipv6Address, texts(c.engress.ipv6_rules.blocked_destination_ips@)).1,
        sync_steps(c)[14].error == text_plan(EntryKind::Cidr6, with_loopback(texts(c.engress.ipv6_rules.blocked_destination_ranges@), c.engress.ipv6_rules.disable_loopback, "::1/128"@)).1,
        sync_steps(c)[15].error == text_plan(EntryKind::Mac, texts(c.engress.mac_rules.blocked_destination_macs@)).1,
{
    reveal(sync_steps);
}

/// Without validation problems, every text entry of the configuration has
/// a map key.
proof fn lemma_no_entry_problems(c: ACLConfig, indices: Seq<u32>)
    requires
        config_problems(c, indices).len() == 0,
    ensures
        forall|i: int| 0 <= i < c.ingress.ipv4_rules.blocked_source_ranges@.len() ==> (#[trigger] entry_key(EntryKind::Cidr4, texts(c.ingress.ipv4_rules.blocked_source_ranges@)[i])) is Ok,
        forall|i: int| 0 <= i < c.ingress.ipv6_rules.blocked_source_ranges@.len() ==> (#[trigger] entry_key(EntryKind::Cidr6, texts(c.ingress.ipv6_rules.blocked_source_ranges@)[i])) is Ok,
        forall|i: int| 0 <= i < c.ingress.ipv6_rules.blocked_source_ips@.len() ==> (#[trigger] entry_key(EntryKind::Ipv6Address, texts(c.ingress.ipv6_rules.blocked_source_ips@)[i])) is Ok,
        forall|i: int| 0 <= i < c.engress.ipv4_rules.blocked_destination_ranges@.len() ==> (#[trigger] entry_key(EntryKind::Cidr4, texts(c.engress.ipv4_rules.blocked_destination_ranges@)[i])) is Ok,
        forall|i: int| 0 <= i < c.engress.ipv6_rules.blocked_destination_ranges@.len() ==> (#[trigger] entry_key(EntryKind::Cidr6, texts(c.engress.ipv6_rules.blocked_destination_ranges@)[i])) is Ok,
        forall|i: int| 0 <= i < c.engress.ipv6_rules.blocked_destination_ips@.len() ==> (#[trigger] entry_key(EntryKind::Ipv6Address, texts(c.engress.ipv6_rules.blocked_destination_ips@)[i])) is Ok,
        forall|i: int| 0 <= i < c.ingress.mac_rules.blocked_source_macs@.len() ==> (#[trigger] entry_key(EntryKind::Mac, texts(c.ingress.mac_rules.blocked_source_macs@)[i])) is Ok,
        forall|i: int| 0 <= i < c.engress.mac_rules.blocked_destination_macs@.len() ==> (#[trigger] entry_key(EntryKind::Mac, texts(c.engress.mac_rules.blocked_destination_macs@)[i])) is Ok,
{
    lemma_entry_problems_keys(EntryKind::Cidr4, "ingress.ipv4_rules"@, texts(c.ingress.ipv4_rules.blocked_source_ranges@));
    lemma_entry_problems_keys(EntryKind::Cidr6, "ingress.ipv6_rules"@, texts(c.ingress.ipv6_rules.blocked_source_ranges@));
    lemma_entry_problems_keys(EntryKind::Ipv6Address, "ingress.ipv6_rules"@, texts(c.ingress.ipv6_rules.blocked_source_ips@));
    lemma_entry_problems_keys(EntryKind::Cidr4, "engress.ipv4_rules"@, texts(c.engress.ipv4_rules.blocked_destination_ranges@));
    lemma_entry_problems_keys(EntryKind::Cidr6, "engress.ipv6_rules"@, texts(c.engress.ipv6_rules.blocked_destination_ranges@));
    lemma_entry_problems_keys(EntryKind::Ipv6Address, "engress.ipv6_rules"@, texts(c.engress.ipv6_rules.blocked_destination_ips@));
    lemma_entry_problems_keys(EntryKind::Mac, "ingress.mac_rules"@, texts(c.ingress.mac_rules.blocked_source_macs@));
    lemma_entry_problems_keys(EntryKind::Mac, "engress.mac_rules"@, texts(c.engress.mac_rules.blocked_destination_macs@));
}

/// A list with the loopback range folded in has a key for every entry,
/// when the list itself and the loopback range each do.
proof fn lemma_loopback_keys(kind: EntryKind, items: Seq<Seq<char>>, disable: bool, loopback: Seq<char>)
    requires
        forall|i: int| 0 <= i < items.len() ==> (#[trigger] entry_key(kind, items[i])) is Ok,
        disable ==> entry_key(kind, loopback) is Ok,
    ensures
        text_plan(kind, with_loopback(items, disable, loopback)).1 is None,
{
    let all = with_loopback(items, disable, loopback);
    assert forall|i: int| 0 <= i < all.len() implies (#[trigger] entry_key(kind, all[i])) is Ok by {
        if i < items.len() {
            assert(all[i] == items[i]);
        }
    }
    lemma_text_plan_keys(kind, all);
}

// ---------------------------------------------------------------------------
// What a sync leaves in the maps
// ---------------------------------------------------------------------------

/// Every entry of `items` has a key of kind `kind`.
pub open spec fn all_keyed(kind: EntryKind, items: Seq<Seq<char>>) -> bool {
    forall|i: int| 0 <= i < items.len() ==> (#[trigger] entry_key(kind, items[i])) is Ok
}

/// The IPv4 ranges, IPv6 addresses, IPv6 ranges and MACs of one direction
/// that a sync writes, loopback ranges included.
pub open spec fn ingress_texts_parse(c: ACLConfig) -> bool {
    &&& all_keyed(EntryKind::Cidr4, with_loopback(texts(c.ingress.ipv4_rules.blocked_source_ranges@), c.ingress.ipv4_rules.disable_loopback, "127.0.0.0/8"@))
    &&& all_keyed(EntryKind::Ipv6Address, texts(c.ingress.ipv6_rules.blocked_source_ips@))
    &&& all_keyed(EntryKind::Cidr6, with_loopback(texts(c.ingress.ipv6_rules.blocked_source_ranges@), c.ingress.ipv6_rules.disable_loopback, "::1/128"@))
    &&& all_keyed(EntryKind::Mac, texts(c.ingress.mac_rules.blocked_source_macs@))
}

pub open spec fn engress_texts_parse(c: ACLConfig) -> bool {
    &&& all_keyed(EntryKind::Cidr4, with_loopback(texts(c.engress.ipv4_rules.blocked_destination_ranges@), c.engress.ipv4_rules.disable_loopback, "127.0.0.0/8"@))
    &&& all_keyed(EntryKind::Ipv6Address, texts(c.engress.ipv6_rules.blocked_destination_ips@))
    &&& all_keyed(EntryKind::Cidr6, with_loopback(texts(c.engress.ipv6_rules.blocked_destination_ranges@), c.engress.ipv6_rules.disable_loopback, "::1/128"@))
    &&& all_keyed(EntryKind::Mac, texts(c.engress.mac_rules.blocked_destination_macs@))
}

/// A run of steps ends without error exactly when no step has one.
proof fn lemma_performed_ok(steps: Seq<StepPlan>)
    ensures
        performed(steps).1 is None <==> forall|i: int| 0 <= i < steps.len() ==> (#[trigger] steps[i].error) is None,
    decreases steps.len(),
{
    if steps.len() > 0 {
        let rest = steps.drop_first();
        lemma_performed_ok(rest);
        if performed(steps).1 is None {
            assert forall|i: int| 0 <= i < steps.len() implies (#[trigger] steps[i].error) is None by {
                if i > 0 {
                    assert(rest[i - 1] == steps[i]);
                }
            }
        } else if steps[0].error is None {
            let i = choose|i: int| 0 <= i < rest.len() && !(rest[i].error is None);
            assert(rest[i] == steps[i + 1]);
        }
    }
}

/// A sync fails exactly when some IPv4 range, IPv6 address, IPv6 range or
/// MAC of either direction (loopback ranges included) fails its parser;
/// ports, IPv4 addresses and rate limits never make it fail.
pub proof fn law_sync_fails_exactly_on_unparsable_entries(c: ACLConfig)
    ensures
        performed(sync_steps(c)).1 is None <==> ingress_texts_parse(c) && engress_texts_parse(c),
{
    let steps = sync_steps(c);
    lemma_sync_step_errors(c);
    lemma_performed_ok(steps);
    lemma_text_plan_keys(EntryKind::Cidr4, with_loopback(texts(c.ingress.ipv4_rules.blocked_source_ranges@), c.ingress.ipv4_rules.disable_loopback, "127.0.0.0/8"@));
    lemma_text_plan_keys(EntryKind::Ipv6Address, texts(c.ingress.ipv6_rules.blocked_source_ips@));
    lemma_text_plan_keys(EntryKind::Cidr6, with_loopback(texts(c.ingress.ipv6_rules.blocked_source_ranges@), c.ingress.ipv6_rules.disable_loopback, "::1/128"@));
    lemma_text_plan_keys(EntryKind::Mac, texts(c.ingress.mac_rules.blocked_source_macs@));
    lemma_text_plan_keys(EntryKind::Cidr4, with_loopback(texts(c.engress.ipv4_rules.blocked_destination_ranges@), c.engress.ipv4_rules.disable_loopback, "127.0.0.0/8"@));
    lemma_text_plan_keys(EntryKind::Ipv6Address, texts(c.engress.ipv6_rules.blocked_destination_ips@));
    lemma_text_plan_keys(EntryKind::Cidr6, with_loopback(texts(c.engress.ipv6_rules.blocked_destination_ranges@), c.engress.ipv6_rules.disable_loopback, "::1/128"@));
    lemma_text_plan_keys(EntryKind::Mac, texts(c.engress.mac_rules.blocked_destination_macs@));
    if ingress_texts_parse(c) && engress_texts_parse(c) {
        assert forall|i: int| 0 <= i < steps.len() implies (#[trigger] steps[i].error) is None by {
            if i == 0 || i == 1 || i == 2 || i == 7 || i == 8 || i == 9 || i == 10 || i == 11 || i == 16 || i == 17 {
            }
        }
    } else {
        assert(steps[3].error is Some || steps[4].error is Some || steps[5].error is Some || steps[6].error is Some
            || steps[12].error is Some || steps[13].error is Some || steps[14].error is Some || steps[15].error is Some);
    }
}

/// The key an entry is stored under (empty where it has none).
pub open spec fn key_of(kind: EntryKind, item: Seq<char>) -> Seq<u8> {
    match entry_key(kind, item) {
        Ok(k) => k,
        Err(_) => Seq::empty(),
    }
}

/// The entries of a text map once every item has its key: one flagged key
/// per item, in order.
pub open spec fn keyed_entries(kind: EntryKind, items: Seq<Seq<char>>) -> Seq<(Seq<u8>, Seq<u8>)> {
    items.map_values(|t: Seq<char>| flagged(key_of(kind, t)))
}

proof fn lemma_text_plan_entries(kind: EntryKind, items: Seq<Seq<char>>)
    requires
        text_plan(kind, items).1 is None,
    ensures
        text_plan(kind, items).0 == keyed_entries(kind, items),
    decreases items.len(),
{
    if items.len() > 0 {
        let rest = items.drop_first();
        lemma_text_plan_entries(kind, rest);
        assert(keyed_entries(kind, items) =~= seq![flagged(key_of(kind, items[0]))] + keyed_entries(kind, rest));
    }
}

/// What a sync writes into each map of one direction.
#[verifier::spinoff_prover]
proof fn lemma_sync_step_writes(c: ACLConfig)
    ensures
        sync_steps(c)[0].write == full_step(AclMap::IngressTcpSrcPorts, MapReset::ZeroEveryKey, ports_plan(c.ingress.tcp_rules.blocked_source_ports@, c.ingress.tcp_rules.blocked_source_ranges@)).write,
        sync_steps(c)[1].write == full_step(AclMap::IngressUdpSrcPorts, MapReset::ZeroEveryKey, ports_plan(c.ingress.udp_rules.blocked_source_ports@, c.ingress.udp_rules.blocked_source_ranges@)).write,
        sync_steps(c)[9].write == full_step(AclMap::EngressTcpDstPorts, MapReset::ZeroEveryKey, ports_plan(c.engress.tcp_rules.blocked_destination_ports@, c.engress.tcp_rules.blocked_destination_ranges@)).write,
        sync_steps(c)[10].write == full_step(AclMap::EngressUdpDstPorts, MapReset::ZeroEveryKey, ports_plan(c.engress.udp_rules.blocked_destination_ports@, c.engress.udp_rules.blocked_destination_ranges@)).write,
        sync_steps(c)[2].write == full_step(AclMap::IngressSrcIps, MapReset::DeleteEveryKey, ipv4_plan(c.ingress.ipv4_rules.blocked_source_ips@)).write,
        sync_steps(c)[11].write == full_step(AclMap::EngressDstIps, MapReset::DeleteEveryKey, ipv4_plan(c.engress.ipv4_rules.blocked_destination_ips@)).write,
        sync_steps(c)[3].write == text_step(AclMap::IngressSrcRanges, EntryKind::Cidr4, with_loopback(texts(c.ingress.ipv4_rules.blocked_source_ranges@), c.ingress.ipv4_rules.disable_loopback, "127.0.0.0/8"@)).write,
        sync_steps(c)[4].write == text_step(AclMap::IngressSrcIps6, EntryKind::Ipv6Address, texts(c.ingress.ipv6_rules.blocked_source_ips@)).write,
        sync_steps(c)[5].write == text_step(AclMap::IngressSrcRanges6, EntryKind::Cidr6, with_loopback(texts(c.ingress.ipv6_rules.blocked_source_ranges@), c.ingress.ipv6_rules.disable_loopback, "::1/128"@)).write,
        sync_steps(c)[6].write == text_step(AclMap::IngressBlockedMac, EntryKind::Mac, texts(c.ingress.mac_rules.blocked_source_macs@)).write,
        sync_steps(c)[12].write == text_step(AclMap::EngressDstRanges, EntryKind::Cidr4, with_loopback(texts(c.engress.ipv4_rules.blocked_destination_ranges@), c.engress.ipv4_rules.disable_loopback, "127.0.0.0/8"@)).write,
        sync_steps(c)[13].write == text_step(AclMap::EngressDstIps6, EntryKind::Ipv6Address, texts(c.engress.ipv6_rules.blocked_destination_ips@)).write,
        sync_steps(c)[14].write == text_step(AclMap::EngressDstRanges6, EntryKind::Cidr6, with_loopback(texts(c.engress.ipv6_rules.blocked_destination_ranges@), c.engress.ipv6_rules.disable_loopback, "::1/128"@)).write,
        sync_steps(c)[15].write == text_step(AclMap::EngressBlockedMac, EntryKind::Mac, texts(c.engress.mac_rules.blocked_destination_macs@)).write,
{
    reveal(sync_steps);
}

/// A sync that succeeds empties every address, range and MAC map of its
/// earlier keys and leaves in it exactly the keys of the configured
/// entries (loopback ranges included), each flagged as blocked: IPv4
/// addresses by their number in the machine's byte order, CIDR ranges by
/// prefix length and octets, IPv6 addresses by their octets, MACs by their
/// six bytes and two zero bytes.
pub proof fn law_sync_replaces_address_maps(c: ACLConfig)
    requires
        performed(sync_steps(c)).1 is None,
    ensures
        sync_steps(c)[2].write == (WritePlan { map: AclMap::IngressSrcIps, reset: MapReset::DeleteEveryKey, entries: ipv4_plan(c.ingress.ipv4_rules.blocked_source_ips@) }),
        sync_steps(c)[11].write == (WritePlan { map: AclMap::EngressDstIps, reset: MapReset::DeleteEveryKey, entries: ipv4_plan(c.engress.ipv4_rules.blocked_destination_ips@) }),
        sync_steps(c)[3].write == (WritePlan { map: AclMap::IngressSrcRanges, reset: MapReset::DeleteEveryKey, entries: keyed_entries(EntryKind::Cidr4, with_loopback(texts(c.ingress.ipv4_rules.blocked_source_ranges@), c.ingress.ipv4_rules.disable_loopback, "127.0.0.0/8"@)) }),
        sync_steps(c)[4].write == (WritePlan { map: AclMap::IngressSrcIps6, reset: MapReset::DeleteEveryKey, entries: keyed_entries(EntryKind::Ipv6Address, texts(c.ingress.ipv6_rules.blocked_source_ips@)) }),
        sync_steps(c)[5].write == (WritePlan { map: AclMap::IngressSrcRanges6, reset: MapReset::DeleteEveryKey, entries: keyed_entries(EntryKind::Cidr6, with_loopback(texts(c.ingress.ipv6_rules.blocked_source_ranges@), c.ingress.ipv6_rules.disable_loopback, "::1/128"@)) }),
        sync_steps(c)[6].write == (WritePlan { map: AclMap::IngressBlockedMac, reset: MapReset::DeleteEveryKey, entries: keyed_entries(EntryKind::Mac, texts(c.ingress.mac_rules.blocked_source_macs@)) }),
        sync_steps(c)[12].write == (WritePlan { map: AclMap::EngressDstRanges, reset: MapReset::DeleteEveryKey, entries: keyed_entries(EntryKind::Cidr4, with_loopback(texts(c.engress.ipv4_rules.blocked_destination_ranges@), c.engress.ipv4_rules.disable_loopback, "127.0.0.0/8"@)) }),
        sync_steps(c)[13].write == (WritePlan { map: AclMap::EngressDstIps6, reset: MapReset::DeleteEveryKey, entries: keyed_entries(EntryKind::Ipv6Address, texts(c.engress.ipv6_rules.blocked_destination_ips@)) }),
        sync_steps(c)[14].write == (WritePlan { map: AclMap::EngressDstRanges6, reset: MapReset::DeleteEveryKey, entries: keyed_entries(EntryKind::Cidr6, with_loopback(texts(c.engress.ipv6_rules.blocked_destination_ranges@), c.engress.ipv6_rules.disable_loopback, "::1/128"@)) }),
        sync_steps(c)[15].write == (WritePlan { map: AclMap::EngressBlockedMac, reset: MapReset::DeleteEveryKey, entries: keyed_entries(EntryKind::Mac, texts(c.engress.mac_rules.blocked_destination_macs@)) }),
        performed(sync_steps(c)).0 == sync_steps(c).map_values(|s: StepPlan| s.write),
{
    let steps = sync_steps(c);
    lemma_sync_step_writes(c);
    lemma_sync_step_errors(c);
    lemma_performed_ok(steps);
    lemma_performed_all(steps);
    assert(steps[3].error is None);
    assert(steps[4].error is None);
    assert(steps[5].error is None);
    assert(steps[6].error is None);
    assert(steps[12].error is None);
    assert(steps[13].error is None);
    assert(steps[14].error is None);
    assert(steps[15].error is None);
    lemma_text_plan_entries(EntryKind::Cidr4, with_loopback(texts(c.ingress.ipv4_rules.blocked_source_ranges@), c.ingress.ipv4_rules.disable_loopback, "127.0.0.0/8"@));
    lemma_text_plan_entries(EntryKind::Ipv6Address, texts(c.ingress.ipv6_rules.blocked_source_ips@));
    lemma_text_plan_entries(EntryKind::Cidr6, with_loopback(texts(c.ingress.ipv6_rules.blocked_source_ranges@), c.ingress.ipv6_rules.disable_loopback, "::1/128"@));
    lemma_text_plan_entries(EntryKind::Mac, texts(c.ingress.mac_rules.blocked_source_macs@));
    lemma_text_plan_entries(EntryKind::Cidr4, with_loopback(texts(c.engress.ipv4_rules.blocked_destination_ranges@), c.engress.ipv4_rules.disable_loopback, "127.0.0.0/8"@));
    lemma_text_plan_entries(EntryKind::Ipv6Address, texts(c.engress.ipv6_rules.blocked_destination_ips@));
    lemma_text_plan_entries(EntryKind::Cidr6, with_loopback(texts(c.engress.ipv6_rules.blocked_destination_ranges@), c.engress.ipv6_rules.disable_loopback, "::1/128"@));
    lemma_text_plan_entries(EntryKind::Mac, texts(c.engress.mac_rules.blocked_destination_macs@));
}

// ---------------------------------------------------------------------------
// What a sync leaves in the port maps
// ---------------------------------------------------------------------------

/// The numbers below 256^n.
pub open spec fn byte_bound(n: nat) -> nat
    decreases n,
{
    if n == 0 {
        1
    } else {
        256 * byte_bound((n - 1) as nat)
    }
}

proof fn lemma_le_bytes_injective(x: nat, y: nat, n: nat)
    requires
        le_bytes(x, n) == le_bytes(y, n),
        x < byte_bound(n),
        y < byte_bound(n),
    ensures
        x == y,
    decreases n,
{
    if n > 0 {
        let a = le_bytes(x, n);
        let b = le_bytes(y, n);
        assert(a[0] == b[0]);
        assert(a.drop_first() =~= le_bytes(x / 256, (n - 1) as nat));
        assert(b.drop_first() =~= le_bytes(y / 256, (n - 1) as nat));
        lemma_le_bytes_injective(x / 256, y / 256, (n - 1) as nat);
    }
}

/// Two numbers of four bytes with the same bytes are the same number.
proof fn lemma_ne_bytes_injective(x: nat, y: nat)
    requires
        ne_bytes(x, 4) == ne_bytes(y, 4),
        x < 0x1_0000_0000,
        y < 0x1_0000_0000,
    ensures
        x == y,
{
    reveal_with_fuel(byte_bound, 5);
    match endianness() {
        Endian::Little => {},
        Endian::Big => {
            assert(le_bytes(x, 4) =~= le_bytes(x, 4).reverse().reverse());
            assert(le_bytes(y, 4) =~= le_bytes(y, 4).reverse().reverse());
        },
    }
    lemma_le_bytes_injective(x, y, 4);
}

/// `p` is listed, or lies in a listed range.
pub open spec fn port_blocked(ports: Seq<u16>, ranges: Seq<Range>, p: u16) -> bool {
    ports.contains(p) || exists|j: int| 0 <= j < ranges.len() && (#[trigger] ranges[j]).start <= p <= ranges[j].end
}

/// The entries of a port map flag exactly the blocked ports: every entry
/// is a port flagged as blocked, and a port has an entry exactly when it is
/// blocked.
pub open spec fn flags_blocked_ports(entries: Seq<(Seq<u8>, Seq<u8>)>, ports: Seq<u16>, ranges: Seq<Range>) -> bool {
    &&& forall|e: (Seq<u8>, Seq<u8>)| entries.contains(e) ==> exists|q: u16| e == flagged(ne_bytes(q as nat, 4))
    &&& forall|p: u16| #[trigger] entries.contains(flagged(ne_bytes(p as nat, 4))) <==> port_blocked(ports, ranges, p)
}

/// `e` flags the port `q`, which lies in the range `r`.
pub open spec fn range_flags(r: Range, q: u16, e: (Seq<u8>, Seq<u8>)) -> bool {
    r.start <= q <= r.end && e == flagged(ne_bytes(q as nat, 4))
}

proof fn lemma_ranges_plan_contains(rs: Seq<Range>, e: (Seq<u8>, Seq<u8>))
    ensures
        ranges_plan(rs).contains(e) <==> exists|j: int, q: u16|
            0 <= j < rs.len() && #[trigger] range_flags(rs[j], q, e),
    decreases rs.len(),
{
    if rs.len() > 0 {
        let front = rs.drop_last();
        let r = rs.last();
        lemma_ranges_plan_contains(front, e);
        let whole = ranges_plan(rs);
        assert(whole == ranges_plan(front) + range_plan(r));
        if whole.contains(e) {
            let i = choose|i: int| 0 <= i < whole.len() && whole[i] == e;
            if i < ranges_plan(front).len() {
                assert(ranges_plan(front)[i] == e);
                let (j, q) = choose|j: int, q: u16|
                    0 <= j < front.len() && #[trigger] range_flags(front[j], q, e);
                assert(rs[j] == front[j]);
                assert(range_flags(rs[j], q, e));
            } else {
                let k = i - ranges_plan(front).len();
                assert(range_plan(r)[k] == e);
                let q = (r.start + k) as u16;
                assert(rs[rs.len() - 1] == r);
                assert(range_flags(rs[rs.len() - 1], q, e));
            }
        }
        if exists|j: int, q: u16| 0 <= j < rs.len() && #[trigger] range_flags(rs[j], q, e) {
            let (j, q) = choose|j: int, q: u16|
                0 <= j < rs.len() && #[trigger] range_flags(rs[j], q, e);
            if j < front.len() {
                assert(front[j] == rs[j]);
                assert(range_flags(front[j], q, e));
                assert(ranges_plan(front).contains(e));
                let i = choose|i: int| 0 <= i < ranges_plan(front).len() && ranges_plan(front)[i] == e;
                assert(whole[i] == e);
            } else {
                let k = q - r.start;
                assert(range_plan(r)[k] == e);
                assert(whole[ranges_plan(front).len() + k] == e);
            }
        }
    }
}

/// The port map's entries flag exactly the listed ports and the ports of
/// the listed ranges.
pub proof fn law_port_plan_flags_blocked_ports(ports: Seq<u16>, ranges: Seq<Range>)
    ensures
        flags_blocked_ports(ports_plan(ports, ranges), ports, ranges),
{
    let singles = ports.map_values(|p: u16| flagged(ne_bytes(p as nat, 4)));
    let all = ports_plan(ports, ranges);
    assert(all == singles + ranges_plan(ranges));
    assert forall|e: (Seq<u8>, Seq<u8>)| all.contains(e) implies exists|q: u16| e == flagged(ne_bytes(q as nat, 4)) by {
        let i = choose|i: int| 0 <= i < all.len() && all[i] == e;
        if i < singles.len() {
            assert(e == flagged(ne_bytes(ports[i] as nat, 4)));
        } else {
            assert(ranges_plan(ranges)[i - singles.len()] == e);
            lemma_ranges_plan_contains(ranges, e);
            let (j, q) = choose|j: int, q: u16| 0 <= j < ranges.len() && #[trigger] range_flags(ranges[j], q, e);
            assert(e == flagged(ne_bytes(q as nat, 4)));
        }
    }
    assert forall|p: u16| #[trigger] all.contains(flagged(ne_bytes(p as nat, 4))) <==> port_blocked(ports, ranges, p) by {
        let e = flagged(ne_bytes(p as nat, 4));
        lemma_ranges_plan_contains(ranges, e);
        if all.contains(e) {
            let i = choose|i: int| 0 <= i < all.len() && all[i] == e;
            if i < singles.len() {
                lemma_ne_bytes_injective(ports[i] as nat, p as nat);
                assert(ports[i] == p);
                assert(ports.contains(p));
            } else {
                assert(ranges_plan(ranges)[i - singles.len()] == e);
                let (j, q) = choose|j: int, q: u16|
                    0 <= j < ranges.len() && #[trigger] range_flags(ranges[j], q, e);
                lemma_ne_bytes_injective(q as nat, p as nat);
                assert(ranges[j].start <= p <= ranges[j].end);
            }
        }
        if port_blocked(ports, ranges, p) {
            if ports.contains(p) {
                let i = choose|i: int| 0 <= i < ports.len() && ports[i] == p;
                assert(all[i] == e);
            } else {
                let j = choose|j: int| 0 <= j < ranges.len() && (#[trigger] ranges[j]).start <= p <= ranges[j].end;
                assert(range_flags(ranges[j], p, e));
                assert(ranges_plan(ranges).contains(e));
                let k = choose|k: int| 0 <= k < ranges_plan(ranges).len() && ranges_plan(ranges)[k] == e;
                assert(all[singles.len() + k] == e);
            }
        }
    }
}

/// A sync resets each of the four port arrays to zero and then flags
/// exactly the blocked ports: those listed, and those inside a listed
/// range, keyed by the port as a 32-bit number in the machine's byte order.
pub proof fn law_sync_flags_blocked_ports(c: ACLConfig)
    ensures
        sync_steps(c)[0].write.map == AclMap::IngressTcpSrcPorts,
        sync_steps(c)[0].write.reset == MapReset::ZeroEveryKey,
        flags_blocked_ports(sync_steps(c)[0].write.entries, c.ingress.tcp_rules.blocked_source_ports@, c.ingress.tcp_rules.blocked_source_ranges@),
        sync_steps(c)[1].write.map == AclMap::IngressUdpSrcPorts,
        sync_steps(c)[1].write.reset == MapReset::ZeroEveryKey,
        flags_blocked_ports(sync_steps(c)[1].write.entries, c.ingress.udp_rules.blocked_source_ports@, c.ingress.udp_rules.blocked_source_ranges@),
        sync_steps(c)[9].write.map == AclMap::EngressTcpDstPorts,
        sync_steps(c)[9].write.reset == MapReset::ZeroEveryKey,
        flags_blocked_ports(sync_steps(c)[9].write.entries, c.engress.tcp_rules.blocked_destination_ports@, c.engress.tcp_rules.blocked_destination_ranges@),
        sync_steps(c)[10].write.map == AclMap::EngressUdpDstPorts,
        sync_steps(c)[10].write.reset == MapReset::ZeroEveryKey,
        flags_blocked_ports(sync_steps(c)[10].write.entries, c.engress.udp_rules.blocked_destination_ports@, c.engress.udp_rules.blocked_destination_ranges@),
{
    lemma_sync_step_writes(c);
    law_port_plan_flags_blocked_ports(c.ingress.tcp_rules.blocked_source_ports@, c.ingress.tcp_rules.blocked_source_ranges@);
    law_port_plan_flags_blocked_ports(c.ingress.udp_rules.blocked_source_ports@, c.ingress.udp_rules.blocked_source_ranges@);
    law_port_plan_flags_blocked_ports(c.engress.tcp_rules.blocked_destination_ports@, c.engress.tcp_rules.blocked_destination_ranges@);
    law_port_plan_flags_blocked_ports(c.engress.udp_rules.blocked_destination_ports@, c.engress.udp_rules.blocked_destination_ranges@);
}

#[verifier::spinoff_prover]
#[verifier::rlimit(40)]
proof fn lemma_sync_step_maps(c: ACLConfig)
    ensures
        sync_steps(c).len() == 18,
        sync_steps(c)[0].write.map == AclMap::IngressTcpSrcPorts,
        sync_steps(c)[1].write.map == AclMap::IngressUdpSrcPorts,
        sync_steps(c)[2].write.map == AclMap::IngressSrcIps,
        sync_steps(c)[3].write.map == AclMap::IngressSrcRanges,
        sync_steps(c)[4].write.map == AclMap::IngressSrcIps6,
        sync_steps(c)[5].write.map == AclMap::IngressSrcRanges6,
        sync_steps(c)[6].write.map == AclMap::IngressBlockedMac,
        sync_steps(c)[7].write.map == AclMap::IngressIpRateLimitPps,
        sync_steps(c)[8].write.map == AclMap::IngressPortRateLimitPps,
        sync_steps(c)[9].write.map == AclMap::EngressTcpDstPorts,
        sync_steps(c)[10].write.map == AclMap::EngressUdpDstPorts,
        sync_steps(c)[11].write.map == AclMap::EngressDstIps,
        sync_steps(c)[12].write.map == AclMap::EngressDstRanges,
        sync_steps(c)[13].write.map == AclMap::EngressDstIps6,
        sync_steps(c)[14].write.map == AclMap::EngressDstRanges6,
        sync_steps(c)[15].write.map == AclMap::EngressBlockedMac,
        sync_steps(c)[16].write.map == AclMap::EngressIpRateLimitPps,
        sync_steps(c)[17].write.map == AclMap::EngressPortRateLimitPps,
        sync_steps(c)[7].write == (WritePlan { map: AclMap::IngressIpRateLimitPps, reset: MapReset::KeepEntries, entries: seq![(ne_bytes(0, 4), ne_bytes(c.ingress.rate_limit.ip_rate_limit_pps as nat, 4))] }),
        sync_steps(c)[8].write == (WritePlan { map: AclMap::IngressPortRateLimitPps, reset: MapReset::KeepEntries, entries: seq![(ne_bytes(0, 4), ne_bytes(c.ingress.rate_limit.port_rate_limit_pps as nat, 4))] }),
        sync_steps(c)[16].write == (WritePlan { map: AclMap::EngressIpRateLimitPps, reset: MapReset::KeepEntries, entries: seq![(ne_bytes(0, 4), ne_bytes(c.engress.rate_limit.ip_rate_limit_pps as nat, 4))] }),
        sync_steps(c)[17].write == (WritePlan { map: AclMap::EngressPortRateLimitPps, reset: MapReset::KeepEntries, entries: seq![(ne_bytes(0, 4), ne_bytes(c.engress.rate_limit.port_rate_limit_pps as nat, 4))] }),
{
    reveal(sync_steps);
}

proof fn lemma_performed_prefix(steps: Seq<StepPlan>)
    ensures
        performed(steps).0.len() <= steps.len(),
        forall|i: int| 0 <= i < performed(steps).0.len() ==> #[trigger] performed(steps).0[i] == steps[i].write,
    decreases steps.len(),
{
    if steps.len() > 0 {
        let rest = steps.drop_first();
        lemma_performed_prefix(rest);
        if steps[0].error is None {
            assert forall|i: int| 0 <= i < performed(steps).0.len() implies #[trigger] performed(steps).0[i] == steps[i].write by {
                if i > 0 {
                    assert(performed(steps).0[i] == performed(rest).0[i - 1]);
                    assert(rest[i - 1] == steps[i]);
                }
            }
        }
    }
}

/// Each rate limit goes to its own map, and only there: whatever a sync
/// writes into the IP or port rate map of a direction is the single entry
/// key 0, that direction's own limit in packets per second (both in the
/// machine's byte order), written over what is there. A sync that succeeds
/// writes all four.
#[verifier::spinoff_prover]
#[verifier::rlimit(40)]
pub proof fn law_sync_writes_each_rate_limit_to_its_map(c: ACLConfig)
    ensures
        forall|i: int| 0 <= i < performed(sync_steps(c)).0.len() && (#[trigger] performed(sync_steps(c)).0[i]).map == AclMap::IngressIpRateLimitPps
            ==> performed(sync_steps(c)).0[i] == (WritePlan { map: AclMap::IngressIpRateLimitPps, reset: MapReset::KeepEntries, entries: seq![(ne_bytes(0, 4), ne_bytes(c.ingress.rate_limit.ip_rate_limit_pps as nat, 4))] }),
        forall|i: int| 0 <= i < performed(sync_steps(c)).0.len() && (#[trigger] performed(sync_steps(c)).0[i]).map == AclMap::IngressPortRateLimitPps
            ==> performed(sync_steps(c)).0[i] == (WritePlan { map: AclMap::IngressPortRateLimitPps, reset: MapReset::KeepEntries, entries: seq![(ne_bytes(0, 4), ne_bytes(c.ingress.rate_limit.port_rate_limit_pps as nat, 4))] }),
        forall|i: int| 0 <= i < performed(sync_steps(c)).0.len() && (#[trigger] performed(sync_steps(c)).0[i]).map == AclMap::EngressIpRateLimitPps
            ==> performed(sync_steps(c)).0[i] == (WritePlan { map: AclMap::EngressIpRateLimitPps, reset: MapReset::KeepEntries, entries: seq![(ne_bytes(0, 4), ne_bytes(c.engress.rate_limit.ip_rate_limit_pps as nat, 4))] }),
        forall|i: int| 0 <= i < performed(sync_steps(c)).0.len() && (#[trigger] performed(sync_steps(c)).0[i]).map == AclMap::EngressPortRateLimitPps
            ==> performed(sync_steps(c)).0[i] == (WritePlan { map: AclMap::EngressPortRateLimitPps, reset: MapReset::KeepEntries, entries: seq![(ne_bytes(0, 4), ne_bytes(c.engress.rate_limit.port_rate_limit_pps as nat, 4))] }),
        performed(sync_steps(c)).1 is None ==> performed(sync_steps(c)).0.len() == 18
            && performed(sync_steps(c)).0[7].map == AclMap::IngressIpRateLimitPps
            && performed(sync_steps(c)).0[8].map == AclMap::IngressPortRateLimitPps
            && performed(sync_steps(c)).0[16].map == AclMap::EngressIpRateLimitPps
            && performed(sync_steps(c)).0[17].map == AclMap::EngressPortRateLimitPps,
{
    let steps = sync_steps(c);
    lemma_sync_step_maps(c);
    lemma_performed_prefix(steps);
    if performed(steps).1 is None {
        lemma_performed_ok(steps);
        lemma_performed_all(steps);
        assert(performed(steps).0[7] == steps[7].write);
        assert(performed(steps).0[8] == steps[8].write);
        assert(performed(steps).0[16] == steps[16].write);
        assert(performed(steps).0[17] == steps[17].write);
    }
}

/// The keys a successful sync writes into the address maps, one per
/// configured entry and in its order, each flagged as blocked: a CIDR
/// range as its prefix length (a native 32-bit number) followed by its
/// address octets, an IPv6 address as its sixteen octets, a MAC as its six
/// bytes and two zero bytes, an IPv4 address as its number in the
/// machine's byte order.
#[verifier::spinoff_prover]
#[verifier::rlimit(40)]
pub proof fn law_sync_lays_out_address_keys(c: ACLConfig)
    requires
        performed(sync_steps(c)).1 is None,
    ensures
        ({
            let l = with_loopback(texts(c.ingress.ipv4_rules.blocked_source_ranges@), c.ingress.ipv4_rules.disable_loopback, "127.0.0.0/8"@);
            &&& sync_steps(c)[3].write.entries.len() == l.len()
            &&& forall|i: int| 0 <= i < l.len() ==> #[trigger] sync_steps(c)[3].write.entries[i] == (ne_bytes(cidr4_result(l[i])->Ok_0.1 as nat, 4) + cidr4_result(l[i])->Ok_0.0, seq![1u8])
        }),
        ({
            let l = with_loopback(texts(c.engress.ipv4_rules.blocked_destination_ranges@), c.engress.ipv4_rules.disable_loopback, "127.0.0.0/8"@);
            &&& sync_steps(c)[12].write.entries.len() == l.len()
            &&& forall|i: int| 0 <= i < l.len() ==> #[trigger] sync_steps(c)[12].write.entries[i] == (ne_bytes(cidr4_result(l[i])->Ok_0.1 as nat, 4) + cidr4_result(l[i])->Ok_0.0, seq![1u8])
        }),
        ({
            let l = with_loopback(texts(c.ingress.ipv6_rules.blocked_source_ranges@), c.ingress.ipv6_rules.disable_loopback, "::1/128"@);
            &&& sync_steps(c)[5].write.entries.len() == l.len()
            &&& forall|i: int| 0 <= i < l.len() ==> #[trigger] sync_steps(c)[5].write.entries[i] == (ne_bytes(cidr6_result(l[i])->Ok_0.1 as nat, 4) + cidr6_result(l[i])->Ok_0.0, seq![1u8])
        }),
        ({
            let l = with_loopback(texts(c.engress.ipv6_rules.blocked_destination_ranges@), c.engress.ipv6_rules.disable_loopback, "::1/128"@);
            &&& sync_steps(c)[14].write.entries.len() == l.len()
            &&& forall|i: int| 0 <= i < l.len() ==> #[trigger] sync_steps(c)[14].write.entries[i] == (ne_bytes(cidr6_result(l[i])->Ok_0.1 as nat, 4) + cidr6_result(l[i])->Ok_0.0, seq![1u8])
        }),
        ({
            let l = texts(c.ingress.ipv6_rules.blocked_source_ips@);
            &&& sync_steps(c)[4].write.entries.len() == l.len()
            &&& forall|i: int| 0 <= i < l.len() ==> #[trigger] sync_steps(c)[4].write.entries[i] == (ipv6_address_result(l[i], ipv6_from_text(l[i]))->Ok_0, seq![1u8])
        }),
        ({
            let l = texts(c.engress.ipv6_rules.blocked_destination_ips@);
            &&& sync_steps(c)[13].write.entries.len() == l.len()
            &&& forall|i: int| 0 <= i < l.len() ==> #[trigger] sync_steps(c)[13].write.entries[i] == (ipv6_address_result(l[i], ipv6_from_text(l[i]))->Ok_0, seq![1u8])
        }),
        ({
            let l = texts(c.ingress.mac_rules.blocked_source_macs@);
            &&& sync_steps(c)[6].write.entries.len() == l.len()
            &&& forall|i: int| 0 <= i < l.len() ==> #[trigger] sync_steps(c)[6].write.entries[i] == (mac_result(l[i])->Ok_0 + seq![0u8, 0u8], seq![1u8])
        }),
        ({
            let l = texts(c.engress.mac_rules.blocked_destination_macs@);
            &&& sync_steps(c)[15].write.entries.len() == l.len()
            &&& forall|i: int| 0 <= i < l.len() ==> #[trigger] sync_steps(c)[15].write.entries[i] == (mac_result(l[i])->Ok_0 + seq![0u8, 0u8], seq![1u8])
        }),
        sync_steps(c)[2].write.entries.len() == c.ingress.ipv4_rules.blocked_source_ips@.len(),
        forall|i: int| 0 <= i < c.ingress.ipv4_rules.blocked_source_ips@.len() ==> #[trigger] sync_steps(c)[2].write.entries[i] == (ne_bytes(c.ingress.ipv4_rules.blocked_source_ips@[i] as nat, 4), seq![1u8]),
        sync_steps(c)[11].write.entries.len() == c.engress.ipv4_rules.blocked_destination_ips@.len(),
        forall|i: int| 0 <= i < c.engress.ipv4_rules.blocked_destination_ips@.len() ==> #[trigger] sync_steps(c)[11].write.entries[i] == (ne_bytes(c.engress.ipv4_rules.blocked_destination_ips@[i] as nat, 4), seq![1u8]),
{
    law_sync_replaces_address_maps(c);
    law_sync_fails_exactly_on_unparsable_entries(c);
    {
        let l = with_loopback(texts(c.ingress.ipv4_rules.blocked_source_ranges@), c.ingress.ipv4_rules.disable_loopback, "127.0.0.0/8"@);
        assert forall|i: int| 0 <= i < l.len() implies #[trigger] sync_steps(c)[3].write.entries[i] == (ne_bytes(cidr4_result(l[i])->Ok_0.1 as nat, 4) + cidr4_result(l[i])->Ok_0.0, seq![1u8]) by {
            assert(entry_key(EntryKind::Cidr4, l[i]) is Ok);
        }
    }
    {
        let l = with_loopback(texts(c.engress.ipv4_rules.blocked_destination_ranges@), c.engress.ipv4_rules.disable_loopback, "127.0.0.0/8"@);
        assert forall|i: int| 0 <= i < l.len() implies #[trigger] sync_steps(c)[12].write.entries[i] == (ne_bytes(cidr4_result(l[i])->Ok_0.1 as nat, 4) + cidr4_result(l[i])->Ok_0.0, seq![1u8]) by {
            assert(entry_key(EntryKind::Cidr4, l[i]) is Ok);
        }
    }
    {
        let l = with_loopback(texts(c.ingress.ipv6_rules.blocked_source_ranges@), c.ingress.ipv6_rules.disable_loopback, "::1/128"@);
        assert forall|i: int| 0 <= i < l.len() implies #[trigger] sync_steps(c)[5].write.entries[i] == (ne_bytes(cidr6_result(l[i])->Ok_0.1 as nat, 4) + cidr6_result(l[i])->Ok_0.0, seq![1u8]) by {
            assert(entry_key(EntryKind::Cidr6, l[i]) is Ok);
        }
    }
    {
        let l = with_loopback(texts(c.engress.ipv6_rules.blocked_destination_ranges@), c.engress.ipv6_rules.disable_loopback, "::1/128"@);
        assert forall|i: int| 0 <= i < l.len() implies #[trigger] sync_steps(c)[14].write.entries[i] == (ne_bytes(cidr6_result(l[i])->Ok_0.1 as nat, 4) + cidr6_result(l[i])->Ok_0.0, seq![1u8]) by {
            assert(entry_key(EntryKind::Cidr6, l[i]) is Ok);
        }
    }
    {
        let l = texts(c.ingress.ipv6_rules.blocked_source_ips@);
        assert forall|i: int| 0 <= i < l.len() implies #[trigger] sync_steps(c)[4].write.entries[i] == (ipv6_address_result(l[i], ipv6_from_text(l[i]))->Ok_0, seq![1u8]) by {
            assert(entry_key(EntryKind::Ipv6Address, l[i]) is Ok);
        }
    }
    {
        let l = texts(c.engress.ipv6_rules.blocked_destination_ips@);
        assert forall|i: int| 0 <= i < l.len() implies #[trigger] sync_steps(c)[13].write.entries[i] == (ipv6_address_result(l[i], ipv6_from_text(l[i]))->Ok_0, seq![1u8]) by {
            assert(entry_key(EntryKind::Ipv6Address, l[i]) is Ok);
        }
    }
    {
        let l = texts(c.ingress.mac_rules.blocked_source_macs@);
        assert forall|i: int| 0 <= i < l.len() implies #[trigger] sync_steps(c)[6].write.entries[i] == (mac_result(l[i])->Ok_0 + seq![0u8, 0u8], seq![1u8]) by {
            assert(entry_key(EntryKind::Mac, l[i]) is Ok);
        }
    }
    {
        let l = texts(c.engress.mac_rules.blocked_destination_macs@);
        assert forall|i: int| 0 <= i < l.len() implies #[trigger] sync_steps(c)[15].write.entries[i] == (mac_result(l[i])->Ok_0 + seq![0u8, 0u8], seq![1u8]) by {
            assert(entry_key(EntryKind::Mac, l[i]) is Ok);
        }
    }
}

} // verus!
