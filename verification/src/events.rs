//! Drop events reported by the BPF programs through their ring buffer, and
//! the bounded log that keeps the newest of them for display.
use vstd::prelude::*;
use std::collections::VecDeque;
use vstd::std_specs::iter::IteratorSpec;
use vstd::endian::{endianness, Endian};
use crate::settings::Direction;

verus! {

/// Size in bytes of one event record as the BPF programs lay it out (the C
/// struct, padding included).
pub const RAW_EVENT_SIZE: usize = 32;

/// How many events the log keeps before it starts dropping the oldest.
pub const EVENT_LOG_CAPACITY: usize = 1000;

/// One event record as it comes out of the ring buffer, field by field.
#[derive(Debug, Clone, Copy)]
pub struct RawKukriEvent {
    pub ts_ns: u64,
    pub direction: u8,
    pub reason: u8,
    pub ip: u32,
    pub port: u16,
    pub mac: [u8; 6],
    pub _pad: [u8; 1],
}

// ---------------------------------------------------------------------------
// Native-endian integers
// ---------------------------------------------------------------------------

/// The number whose base-256 digits are `s`, least significant first.
pub open spec fn le_value(s: Seq<u8>) -> nat
    decreases s.len(),
{
    if s.len() == 0 {
        0
    } else {
        s[0] as nat + 256 * le_value(s.drop_first())
    }
}

/// The number that the machine reads from the bytes `s` in its own byte
/// order.
pub open spec fn ne_value(s: Seq<u8>) -> nat {
    match endianness() {
        Endian::Little => le_value(s),
        Endian::Big => le_value(s.reverse()),
    }
}

/// `u64::from_ne_bytes`: the bytes read as a number in the machine's own
/// byte order.
#[verifier::external_body]
pub(crate) fn u64_from_ne_bytes(b: [u8; 8]) -> (r: u64)
    ensures
        r == ne_value(b@),
{
    u64::from_ne_bytes(b)
}

/// `u32::from_ne_bytes`: the bytes read as a number in the machine's own
/// byte order.
#[verifier::external_body]
pub(crate) fn u32_from_ne_bytes(b: [u8; 4]) -> (r: u32)
    ensures
        r == ne_value(b@),
{
    u32::from_ne_bytes(b)
}

/// `u16::from_ne_bytes`: the bytes read as a number in the machine's own
/// byte order.
#[verifier::external_body]
fn u16_from_ne_bytes(b: [u8; 2]) -> (r: u16)
    ensures
        r == ne_value(b@),
{
    u16::from_ne_bytes(b)
}

// ---------------------------------------------------------------------------
// Raw records
// ---------------------------------------------------------------------------

/// `raw` holds the fields of the record `s` at the offsets of the C layout:
/// the timestamp at 0, direction at 8, reason at 9, address at 12, port at
/// 16, MAC at 18 and the padding byte at 24.
pub open spec fn decodes(raw: RawKukriEvent, s: Seq<u8>) -> bool {
    &&& raw.ts_ns == ne_value(s.subrange(0, 8))
    &&& raw.direction == s[8]
    &&& raw.reason == s[9]
    &&& raw.ip == ne_value(s.subrange(12, 16))
    &&& raw.port == ne_value(s.subrange(16, 18))
    &&& raw.mac@ == s.subrange(18, 24)
    &&& raw._pad@ == s.subrange(24, 25)
}

/// Splits a ring-buffer record into its fields. Records of any other size
/// than the C struct's are refused.
pub fn parse_event(bytes: &[u8]) -> (r: Option<RawKukriEvent>)
    ensures
        r is Some <==> bytes@.len() == RAW_EVENT_SIZE,
        r matches Some(raw) ==> decodes(raw, bytes@),
{
    if bytes.len() != RAW_EVENT_SIZE {
        return None;
    }
    let ts = u64_from_ne_bytes(
        [bytes[0], bytes[1], bytes[2], bytes[3], bytes[4], bytes[5], bytes[6], bytes[7]],
    );
    let ip = u32_from_ne_bytes([bytes[12], bytes[13], bytes[14], bytes[15]]);
    let port = u16_from_ne_bytes([bytes[16], bytes[17]]);
    let mac = [bytes[18], bytes[19], bytes[20], bytes[21], bytes[22], bytes[23]];
    let pad = [bytes[24]];
    let raw = RawKukriEvent {
        ts_ns: ts,
        direction: bytes[8],
        reason: bytes[9],
        ip,
        port,
        mac,
        _pad: pad,
    };
    proof {
        assert(bytes@.subrange(0, 8) =~= seq![bytes@[0], bytes@[1], bytes@[2], bytes@[3], bytes@[4], bytes@[5], bytes@[6], bytes@[7]]);
        assert(bytes@.subrange(12, 16) =~= seq![bytes@[12], bytes@[13], bytes@[14], bytes@[15]]);
        assert(bytes@.subrange(16, 18) =~= seq![bytes@[16], bytes@[17]]);
        assert(bytes@.subrange(18, 24) =~= seq![bytes@[18], bytes@[19], bytes@[20], bytes@[21], bytes@[22], bytes@[23]]);
        assert(bytes@.subrange(24, 25) =~= seq![bytes@[24]]);
        assert(mac@ =~= bytes@.subrange(18, 24));
        assert(pad@ =~= bytes@.subrange(24, 25));
    }
    Some(raw)
}

// ---------------------------------------------------------------------------
// Decoded events
// ---------------------------------------------------------------------------

/// Why a packet was dropped, as the BPF programs number the reasons.
#[derive(Debug, Clone, Copy, PartialEq, Eq, PartialOrd, Ord, Structural)]
pub enum DropReason {
    Mac,
    Ipv4Acl,
    TcpPort,
    UdpPort,
    IpRateLimit,
    PortRateLimit,
}

/// The reason numbered `value`, if there is one.
pub open spec fn reason_of(value: u8) -> Option<DropReason> {
    if value == 0 {
        Some(DropReason::Mac)
    } else if value == 1 {
        Some(DropReason::Ipv4Acl)
    } else if value == 2 {
        Some(DropReason::TcpPort)
    } else if value == 3 {
        Some(DropReason::UdpPort)
    } else if value == 4 {
        Some(DropReason::IpRateLimit)
    } else if value == 5 {
        Some(DropReason::PortRateLimit)
    } else {
        None
    }
}

impl TryFrom<u8> for DropReason {
    type Error = ();

    fn try_from(value: u8) -> (r: Result<Self, Self::Error>) {
        match value {
            0 => Ok(Self::Mac),
            1 => Ok(Self::Ipv4Acl),
            2 => Ok(Self::TcpPort),
            3 => Ok(Self::UdpPort),
            4 => Ok(Self::IpRateLimit),
            5 => Ok(Self::PortRateLimit),
            _ => Err(()),
        }
    }
}

impl vstd::std_specs::convert::TryFromSpecImpl<u8> for DropReason {
    open spec fn obeys_try_from_spec() -> bool {
        true
    }

    open spec fn try_from_spec(value: u8) -> Result<Self, Self::Error> {
        match reason_of(value) {
            Some(reason) => Ok(reason),
            None => Err(()),
        }
    }
}

/// The text shown for each reason.
pub open spec fn reason_label(reason: DropReason) -> Seq<char> {
    match reason {
        DropReason::Mac => "MAC"@,
        DropReason::Ipv4Acl => "IPv4 ACL"@,
        DropReason::TcpPort => "TCP port"@,
        DropReason::UdpPort => "UDP port"@,
        DropReason::IpRateLimit => "IP rate limit"@,
        DropReason::PortRateLimit => "port rate limit"@,
    }
}

impl DropReason {
    pub fn label(self) -> (r: &'static str)
        ensures
            r@ == reason_label(self),
    {
        match self {
            Self::Mac => "MAC",
            Self::Ipv4Acl => "IPv4 ACL",
            Self::TcpPort => "TCP port",
            Self::UdpPort => "UDP port",
            Self::IpRateLimit => "IP rate limit",
            Self::PortRateLimit => "port rate limit",
        }
    }
}

/// A drop event as the interface shows it. A zero address, port or MAC in
/// the record means the packet had none, and is kept as `None`.
#[derive(Debug, Clone, Copy)]
pub struct KukriEvent {
    pub ts_ns: u64,
    pub direction: Direction,
    pub reason: DropReason,
    /// The IPv4 address, its first octet in the most significant byte.
    pub ip: Option<u32>,
    pub port: Option<u16>,
    pub mac: Option<[u8; 6]>,
}

/// Whether every byte of `s` is zero.
pub open spec fn all_zero(s: Seq<u8>) -> bool {
    forall|i: int| 0 <= i < s.len() ==> s[i] == 0
}

/// The direction numbered `value` by the BPF programs, if there is one.
pub open spec fn direction_of(value: u8) -> Option<Direction> {
    if value == 0 {
        Some(Direction::Ingress)
    } else if value == 1 {
        Some(Direction::Engress)
    } else {
        None
    }
}

/// The event that the record `raw` stands for, when it is decodable.
pub open spec fn event_of(raw: RawKukriEvent) -> KukriEvent {
    KukriEvent {
        ts_ns: raw.ts_ns,
        direction: direction_of(raw.direction).unwrap(),
        reason: reason_of(raw.reason).unwrap(),
        ip: if raw.ip == 0 { None } else { Some(raw.ip) },
        port: if raw.port == 0 { None } else { Some(raw.port) },
        mac: if all_zero(raw.mac@) { None } else { Some(raw.mac) },
    }
}

/// Whether a record can be decoded: its direction and reason are known.
pub open spec fn decodable(raw: RawKukriEvent) -> bool {
    direction_of(raw.direction) is Some && reason_of(raw.reason) is Some
}

fn mac_is_zero(mac: &[u8; 6]) -> (r: bool)
    ensures
        r == all_zero(mac@),
{
    let mut i: usize = 0;
    while i < 6
        invariant
            i <= 6,
            mac@.len() == 6,
            forall|j: int| 0 <= j < i ==> mac@[j] == 0,
        decreases 6 - i,
    {
        if mac[i] != 0 {
            return false;
        }
        i = i + 1;
    }
    true
}

impl TryFrom<RawKukriEvent> for KukriEvent {
    type Error = ();

    fn try_from(raw: RawKukriEvent) -> (r: Result<Self, Self::Error>) {
        let direction = match raw.direction {
            0 => Direction::Ingress,
            1 => Direction::Engress,
            _ => return Err(()),
        };
        let reason = match DropReason::try_from(raw.reason) {
            Ok(reason) => reason,
            Err(e) => return Err(e),
        };
        let ip = if raw.ip != 0 { Some(raw.ip) } else { None };
        let port = if raw.port != 0 { Some(raw.port) } else { None };
        let mac = if mac_is_zero(&raw.mac) { None } else { Some(raw.mac) };
        let event = KukriEvent { ts_ns: raw.ts_ns, direction, reason, ip, port, mac };
        Ok(event)
    }
}

impl vstd::std_specs::convert::TryFromSpecImpl<RawKukriEvent> for KukriEvent {
    open spec fn obeys_try_from_spec() -> bool {
        true
    }

    open spec fn try_from_spec(raw: RawKukriEvent) -> Result<Self, Self::Error> {
        if decodable(raw) {
            Ok(event_of(raw))
        } else {
            Err(())
        }
    }
}

/// `e` is the event that the ring-buffer record `s` reports.
pub open spec fn describes(e: KukriEvent, s: Seq<u8>) -> bool {
    &&& e.ts_ns == ne_value(s.subrange(0, 8))
    &&& direction_of(s[8]) == Some(e.direction)
    &&& reason_of(s[9]) == Some(e.reason)
    &&& e.ip == (if ne_value(s.subrange(12, 16)) == 0 { None } else { Some(ne_value(s.subrange(12, 16)) as u32) })
    &&& e.port == (if ne_value(s.subrange(16, 18)) == 0 { None } else { Some(ne_value(s.subrange(16, 18)) as u16) })
    &&& match e.mac {
        Some(m) => m@ == s.subrange(18, 24) && !all_zero(s.subrange(18, 24)),
        None => all_zero(s.subrange(18, 24)),
    }
}

/// Turns a ring-buffer record into an event. Records of the wrong size, or
/// with a direction or reason that the firewall does not know, give `None`.
pub fn decode_event(bytes: &[u8]) -> (r: Option<KukriEvent>)
    ensures
        r is Some <==> (bytes@.len() == RAW_EVENT_SIZE && direction_of(bytes@[8]) is Some
            && reason_of(bytes@[9]) is Some),
        r matches Some(e) ==> describes(e, bytes@),
{
    match parse_event(bytes) {
        Some(raw) => match KukriEvent::try_from(raw) {
            Ok(e) => Some(e),
            Err(_) => None,
        },
        None => None,
    }
}

// ---------------------------------------------------------------------------
// The event log
// ---------------------------------------------------------------------------

/// The newest drop events, oldest first, at most `EVENT_LOG_CAPACITY` of
/// them.
pub struct EventLog {
    events: VecDeque<KukriEvent>,
    cap: usize,
}

/// The log `log` after one more event: when it is full, the oldest event
/// makes room.
pub open spec fn logged(log: Seq<KukriEvent>, event: KukriEvent) -> Seq<KukriEvent> {
    if log.len() >= EVENT_LOG_CAPACITY {
        log.drop_first().push(event)
    } else {
        log.push(event)
    }
}

/// The log `log` after the events `events` were pushed one by one.
pub open spec fn logged_all(log: Seq<KukriEvent>, events: Seq<KukriEvent>) -> Seq<KukriEvent>
    decreases events.len(),
{
    if events.len() == 0 {
        log
    } else {
        logged(logged_all(log, events.drop_last()), events.last())
    }
}

/// The last `n` items of `s` (all of them when it has fewer).
pub open spec fn newest(s: Seq<KukriEvent>, n: nat) -> Seq<KukriEvent> {
    if s.len() <= n {
        s
    } else {
        s.subrange(s.len() - n, s.len() as int)
    }
}

/// Whatever is pushed into a log, it keeps exactly the newest
/// `EVENT_LOG_CAPACITY` events of everything it was given, oldest first:
/// the oldest are the ones that leave.
pub proof fn law_log_keeps_newest(log: Seq<KukriEvent>, events: Seq<KukriEvent>)
    requires
        log.len() <= EVENT_LOG_CAPACITY,
    ensures
        logged_all(log, events) == newest(log + events, EVENT_LOG_CAPACITY as nat),
    decreases events.len(),
{
    if events.len() == 0 {
        assert(log + events =~= log);
    } else {
        let before = events.drop_last();
        law_log_keeps_newest(log, before);
        let prev = newest(log + before, EVENT_LOG_CAPACITY as nat);
        let all = log + events;
        assert(all =~= (log + before).push(events.last()));
        assert(logged(prev, events.last()) =~= newest(all, EVENT_LOG_CAPACITY as nat));
    }
}

impl View for EventLog {
    type V = Seq<KukriEvent>;

    closed spec fn view(&self) -> Seq<KukriEvent> {
        self.events@
    }
}

impl EventLog {
    #[verifier::type_invariant]
    spec fn keeps_capacity(self) -> bool {
        &&& self.cap == EVENT_LOG_CAPACITY
        &&& self.events@.len() <= self.cap
    }

    pub fn new() -> (log: Self)
        ensures
            log@ == Seq::<KukriEvent>::empty(),
    {
        EventLog { events: VecDeque::new(), cap: EVENT_LOG_CAPACITY }
    }

    /// Appends an event, dropping the oldest one when the log is full.
    pub fn push(&mut self, event: KukriEvent)
        ensures
            final(self)@ == logged(old(self)@, event),
            final(self)@.len() <= EVENT_LOG_CAPACITY,
    {
        proof {
            use_type_invariant(&*self);
        }
        let mut events = VecDeque::new();
        std::mem::swap(&mut events, &mut self.events);
        if events.len() == self.cap {
            events.pop_front();
        }
        events.push_back(event);
        self.events = events;
    }

    /// The events held, oldest first.
    pub fn iter(&self) -> (it: std::collections::vec_deque::Iter<'_, KukriEvent>)
        ensures
            IteratorSpec::remaining(&it) == self@.map_values(|e: KukriEvent| &e),
    {
        let it = self.events.iter();
        proof {
            assert(self.events@.as_ref() =~= self@.map_values(|e: KukriEvent| &e));
        }
        it
    }

    /// The event at position `i`, counted from the oldest.
    pub fn event(&self, i: usize) -> (e: &KukriEvent)
        requires
            i < self@.len(),
        ensures
            *e == self@[i as int],
    {
        &self.events[i]
    }

    /// The number of events held.
    pub fn len(&self) -> (n: usize)
        ensures
            n == self@.len(),
            n <= EVENT_LOG_CAPACITY,
    {
        proof {
            use_type_invariant(self);
        }
        self.events.len()
    }
}

} // verus!
