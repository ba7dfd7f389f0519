//! The ACL configuration: what each direction blocks, and the checks that
//! an authored configuration goes through before it is used.
//!
//! Incoming traffic (`ingress`) is filtered by where it comes from, outgoing
//! traffic (`engress`) by where it goes.
use vstd::prelude::*;
use vstd::string::*;
use crate::text::{
    chars_of, decimal, find_in_window, join, join_strings, parse_unsigned, parse_unsigned_window, push_decimal, push_window,
    split, split_once, split_window, string_of_window, window, digit_in, digits_value,
    lemma_split_cons, lemma_split_without,
};

verus! {

#[derive(Debug, Clone)]
pub struct ACLConfig {
    pub ingress: Ingress,
    pub engress: Engress,
    pub interfaces: Interfaces,
}

/// Network interfaces XDP programs can be attached to.
#[derive(Debug, Clone)]
pub struct Interfaces {
    pub names: Vec<String>,
}

/// Incoming traffic. Blocked ports/IPs here mean "block traffic coming
/// FROM these": source-based, matching the peer that initiated the
/// connection towards us.
#[derive(Debug, Clone)]
pub struct Ingress {
    pub enable_rules: bool,
    pub tcp_rules: IngressPortRules,
    pub udp_rules: IngressPortRules,
    pub ipv4_rules: IngressIPv4Rules,
    pub ipv6_rules: IngressIPv6Rules,
    pub mac_rules: IngressMacRules,
    pub rate_limit: RateLimitRules,
}

/// Outgoing traffic. Blocked ports/IPs here mean "block traffic going TO
/// these": destination-based, the peer we are trying to reach.
#[derive(Debug, Clone)]
pub struct Engress {
    pub enable_rules: bool,
    pub tcp_rules: EngressPortRules,
    pub udp_rules: EngressPortRules,
    pub ipv4_rules: EngressIPv4Rules,
    pub ipv6_rules: EngressIPv6Rules,
    pub mac_rules: EngressMacRules,
    pub rate_limit: RateLimitRules,
}

#[derive(Debug, Clone)]
pub struct RateLimitRules {
    pub enable_ip_rate_limit: bool,
    pub ip_rate_limit_pps: u32,
    pub enable_port_rate_limit: bool,
    pub port_rate_limit_pps: u32,
}

/// An inclusive range of ports: `end` counts too.
#[derive(Debug, Clone, Copy, PartialEq, Eq, Structural)]
pub struct Range {
    pub start: u16,
    pub end: u16,
}

#[derive(Debug, Clone)]
pub struct IngressPortRules {
    pub enable_port_rules: bool,
    pub blocked_source_ranges: Vec<Range>,
    pub blocked_source_ports: Vec<u16>,
}

#[derive(Debug, Clone)]
pub struct EngressPortRules {
    pub enable_port_rules: bool,
    pub blocked_destination_ranges: Vec<Range>,
    pub blocked_destination_ports: Vec<u16>,
}

#[derive(Debug, Clone)]
pub struct IngressIPv4Rules {
    pub enable_ip_rules: bool,
    pub disable_loopback: bool,
    /// CIDR strings, e.g. "10.0.0.0/8".
    pub blocked_source_ranges: Vec<String>,
    pub blocked_source_ips: Vec<u32>,
}

#[derive(Debug, Clone)]
pub struct EngressIPv4Rules {
    pub enable_ip_rules: bool,
    pub disable_loopback: bool,
    pub blocked_destination_ranges: Vec<String>,
    pub blocked_destination_ips: Vec<u32>,
}

#[derive(Debug, Clone)]
pub struct IngressIPv6Rules {
    pub enable_ip_rules: bool,
    pub disable_loopback: bool,
    pub blocked_source_ranges: Vec<String>,
    pub blocked_source_ips: Vec<String>,
}

#[derive(Debug, Clone)]
pub struct EngressIPv6Rules {
    pub enable_ip_rules: bool,
    pub disable_loopback: bool,
    pub blocked_destination_ranges: Vec<String>,
    pub blocked_destination_ips: Vec<String>,
}

#[derive(Debug, Clone)]
pub struct IngressMacRules {
    pub enable_mac_rules: bool,
    /// MAC address strings, e.g. "aa:bb:cc:dd:ee:ff".
    pub blocked_source_macs: Vec<String>,
}

#[derive(Debug, Clone)]
pub struct EngressMacRules {
    pub enable_mac_rules: bool,
    pub blocked_destination_macs: Vec<String>,
}

impl Default for RateLimitRules {
    fn default() -> (r: Self)
        ensures
            !r.enable_ip_rate_limit && r.ip_rate_limit_pps == 0,
            !r.enable_port_rate_limit && r.port_rate_limit_pps == 0,
    {
        RateLimitRules {
            enable_ip_rate_limit: false,
            ip_rate_limit_pps: 0,
            enable_port_rate_limit: false,
            port_rate_limit_pps: 0,
        }
    }
}

impl Default for IngressIPv6Rules {
    fn default() -> (r: Self)
        ensures
            !r.enable_ip_rules && !r.disable_loopback,
            r.blocked_source_ranges@.len() == 0 && r.blocked_source_ips@.len() == 0,
    {
        IngressIPv6Rules {
            enable_ip_rules: false,
            disable_loopback: false,
            blocked_source_ranges: Vec::new(),
            blocked_source_ips: Vec::new(),
        }
    }
}

impl Default for EngressIPv6Rules {
    fn default() -> (r: Self)
        ensures
            !r.enable_ip_rules && !r.disable_loopback,
            r.blocked_destination_ranges@.len() == 0 && r.blocked_destination_ips@.len() == 0,
    {
        EngressIPv6Rules {
            enable_ip_rules: false,
            disable_loopback: false,
            blocked_destination_ranges: Vec::new(),
            blocked_destination_ips: Vec::new(),
        }
    }
}

/// The texts that a list of strings holds.
pub open spec fn texts(v: Seq<String>) -> Seq<Seq<char>> {
    v.map_values(|s: String| s@)
}

/// A copy of a list of strings.
pub fn copy_strings(v: &Vec<String>) -> (r: Vec<String>)
    ensures
        texts(r@) == texts(v@),
{
    let mut r: Vec<String> = Vec::new();
    let mut i: usize = 0;
    while i < v.len()
        invariant
            i <= v.len(),
            texts(r@) == texts(v@).take(i as int),
        decreases v.len() - i,
    {
        let s = v[i].clone();
        let ghost before = r@;
        r.push(s);
        assert(texts(r@) =~= texts(before).push(v@[i as int]@));
        assert(texts(v@).take(i + 1) =~= texts(v@).take(i as int).push(v@[i as int]@));
        i = i + 1;
    }
    assert(texts(v@).take(v.len() as int) =~= texts(v@));
    r
}

// ---------------------------------------------------------------------------
// Addresses
// ---------------------------------------------------------------------------

/// One part of a dotted-quad IPv4 address, as `Ipv4Addr`'s parser reads it:
/// one to three decimal digits, no leading zero unless the part is `0`, and
/// a value that fits a byte.
pub open spec fn ipv4_octet(p: Seq<char>) -> Option<u8> {
    if 1 <= p.len() <= 3 && p[0] != '+' && (p.len() == 1 || p[0] != '0') {
        match parse_unsigned(p, 10, 255) {
            Some(n) => Some(n as u8),
            None => None,
        }
    } else {
        None
    }
}

/// What `"a.b.c.d".parse::<Ipv4Addr>()` yields: the four octets, or `None`.
pub open spec fn parse_ipv4_address(s: Seq<char>) -> Option<Seq<u8>> {
    let parts = split(s, '.');
    if parts.len() == 4 && (forall|k: int| 0 <= k < 4 ==> (#[trigger] ipv4_octet(parts[k])) is Some) {
        Some(
            seq![
                ipv4_octet(parts[0]).unwrap(),
                ipv4_octet(parts[1]).unwrap(),
                ipv4_octet(parts[2]).unwrap(),
                ipv4_octet(parts[3]).unwrap(),
            ],
        )
    } else {
        None
    }
}

/// The outcome of `parse_ipv4_cidr` on the text `s`.
pub open spec fn cidr4_result(s: Seq<char>) -> Result<(Seq<u8>, u8), Seq<char>> {
    match split_once(s, '/') {
        None => Err("is not in CIDR form \"a.b.c.d/prefix\""@),
        Some((a, p)) => match parse_ipv4_address(a) {
            None => Err("has an invalid address \""@ + a + "\""@),
            Some(octets) => match parse_unsigned(p, 10, 255) {
                None => Err("has a non-numeric prefix \""@ + p + "\""@),
                Some(n) => if n > 32 {
                    Err("has a prefix out of range (0-32): "@ + decimal(n))
                } else {
                    Ok((octets, n as u8))
                },
            },
        },
    }
}

/// What `"<text>".parse::<core::net::Ipv6Addr>()` yields: the sixteen
/// octets of the address, or `None` where std rejects the text.
pub uninterp spec fn ipv6_from_text(text: Seq<char>) -> Option<Seq<u8>>;

/// The outcome of `parse_ipv6_address` on `text`, given what std's IPv6
/// parser made of it.
pub open spec fn ipv6_address_result(text: Seq<char>, parsed: Option<Seq<u8>>) -> Result<
    Seq<u8>,
    Seq<char>,
> {
    match parsed {
        Some(octets) => Ok(octets),
        None => Err("\""@ + text + "\" is not a valid IPv6 address"@),
    }
}

/// The outcome of `parse_ipv6_cidr` once the text is split at its first `/`
/// into `a` and `p`, given what std's IPv6 parser made of `a`.
pub open spec fn cidr6_parts_result(a: Seq<char>, p: Seq<char>, parsed: Option<Seq<u8>>) -> Result<
    (Seq<u8>, u8),
    Seq<char>,
> {
    match parsed {
        None => Err("has an invalid address \""@ + a + "\""@),
        Some(octets) => match parse_unsigned(p, 10, 255) {
            None => Err("has a non-numeric prefix \""@ + p + "\""@),
            Some(n) => if n > 128 {
                Err("has a prefix out of range (0-128): "@ + decimal(n))
            } else {
                Ok((octets, n as u8))
            },
        },
    }
}

/// The outcome of `parse_ipv6_cidr` on the text `s`.
pub open spec fn cidr6_result(s: Seq<char>) -> Result<(Seq<u8>, u8), Seq<char>> {
    match split_once(s, '/') {
        None => Err("is not in CIDR form \"ipv6-address/prefix\""@),
        Some((a, p)) => cidr6_parts_result(a, p, ipv6_from_text(a)),
    }
}

/// One colon-separated part of a MAC address, read by
/// `u8::from_str_radix(part, 16)`.
pub open spec fn hex_byte(p: Seq<char>) -> Option<u8> {
    match parse_unsigned(p, 16, 255) {
        Some(n) => Some(n as u8),
        None => None,
    }
}

/// `k` is the first part that is not a valid hex byte.
pub open spec fn is_first_bad_byte(parts: Seq<Seq<char>>, k: int) -> bool {
    &&& 0 <= k < parts.len()
    &&& hex_byte(parts[k]) is None
    &&& forall|j: int| 0 <= j < k ==> (#[trigger] hex_byte(parts[j])) is Some
}

/// The outcome of `parse_mac_address` on the text `s`.
pub open spec fn mac_result(s: Seq<char>) -> Result<Seq<u8>, Seq<char>> {
    let parts = split(s, ':');
    if parts.len() != 6 {
        Err("is not in the form \"aa:bb:cc:dd:ee:ff\""@)
    } else if exists|k: int| is_first_bad_byte(parts, k) {
        let k = choose|k: int| is_first_bad_byte(parts, k);
        Err("has an invalid byte \""@ + parts[k] + "\""@)
    } else {
        Ok(Seq::new(6, |k: int| hex_byte(parts[k]).unwrap()))
    }
}

/// The hex digit for `d < 16`, in lower or upper case.
pub open spec fn hex_digit(d: nat, upper: bool) -> char {
    if d < 10 {
        ('0' as nat + d) as char
    } else if upper {
        ('A' as nat + d - 10) as char
    } else {
        ('a' as nat + d - 10) as char
    }
}

/// A byte as two hex digits, as `{:02x}` (or `{:02X}`) writes it.
pub open spec fn hex2(b: u8, upper: bool) -> Seq<char> {
    seq![hex_digit((b / 16) as nat, upper), hex_digit((b % 16) as nat, upper)]
}

/// Six bytes written `aa:bb:cc:dd:ee:ff`.
pub open spec fn mac_text(b: Seq<u8>, upper: bool) -> Seq<char> {
    hex2(b[0], upper) + seq![':'] + hex2(b[1], upper) + seq![':'] + hex2(b[2], upper) + seq![':']
        + hex2(b[3], upper) + seq![':'] + hex2(b[4], upper) + seq![':'] + hex2(b[5], upper)
}

proof fn lemma_hex2(b: u8, upper: bool)
    ensures
        hex_byte(hex2(b, upper)) == Some(b),
        !hex2(b, upper).contains(':'),
{
    let p = hex2(b, upper);
    let hi = (b / 16) as nat;
    let lo = (b % 16) as nat;
    assert(digit_in(p[0], 16) == Some(hi));
    assert(digit_in(p[1], 16) == Some(lo));
    assert(p.drop_last().drop_last() =~= Seq::<char>::empty());
    assert(p.drop_last() =~= seq![p[0]]);
    assert(digits_value(p, 16) == hi * 16 + lo) by {
        reveal_with_fuel(digits_value, 3);
    }
    assert(hex_byte(p) == Some(b));
    if p.contains(':') {
        let i = choose|i: int| 0 <= i < p.len() && p[i] == ':';
        assert(p[0] != ':' && p[1] != ':');
    }
}

/// Writing six bytes as `aa:bb:cc:dd:ee:ff`, in lower or upper case, and
/// parsing the text gives the bytes back.
pub proof fn law_mac_text_parses_back(b: Seq<u8>, upper: bool)
    requires
        b.len() == 6,
    ensures
        mac_result(mac_text(b, upper)) == Ok::<Seq<u8>, Seq<char>>(b),
{
    let h = Seq::new(6, |k: int| hex2(b[k], upper));
    lemma_hex2(b[0], upper);
    lemma_hex2(b[1], upper);
    lemma_hex2(b[2], upper);
    lemma_hex2(b[3], upper);
    lemma_hex2(b[4], upper);
    lemma_hex2(b[5], upper);
    let c = seq![':'];
    let t5 = h[5];
    let t4 = h[4] + c + t5;
    let t3 = h[3] + c + t4;
    let t2 = h[2] + c + t3;
    let t1 = h[1] + c + t2;
    let t0 = h[0] + c + t1;
    assert(mac_text(b, upper) =~= t0);
    lemma_split_without(t5, ':');
    lemma_split_cons(h[4], ':', t5);
    lemma_split_cons(h[3], ':', t4);
    lemma_split_cons(h[2], ':', t3);
    lemma_split_cons(h[1], ':', t2);
    lemma_split_cons(h[0], ':', t1);
    let parts = split(t0, ':');
    assert(parts =~= h);
    assert forall|k: int| 0 <= k < 6 implies hex_byte(#[trigger] parts[k]) == Some(b[k]) by {
        lemma_hex2(b[k], upper);
    }
    if exists|k: int| is_first_bad_byte(parts, k) {
        let k = choose|k: int| is_first_bad_byte(parts, k);
        assert(hex_byte(parts[k]) == Some(b[k]));
    }
    assert(Seq::new(6, |k: int| hex_byte(parts[k]).unwrap()) =~= b);
}

pub open spec fn cidr4_view(r: Result<([u8; 4], u8), String>) -> Result<(Seq<u8>, u8), Seq<char>> {
    match r {
        Ok((a, p)) => Ok((a@, p)),
        Err(e) => Err(e@),
    }
}

pub open spec fn cidr6_view(r: Result<([u8; 16], u8), String>) -> Result<(Seq<u8>, u8), Seq<char>> {
    match r {
        Ok((a, p)) => Ok((a@, p)),
        Err(e) => Err(e@),
    }
}

pub open spec fn ipv6_view(r: Result<[u8; 16], String>) -> Result<Seq<u8>, Seq<char>> {
    match r {
        Ok(a) => Ok(a@),
        Err(e) => Err(e@),
    }
}

pub open spec fn mac_view(r: Result<[u8; 6], String>) -> Result<Seq<u8>, Seq<char>> {
    match r {
        Ok(a) => Ok(a@),
        Err(e) => Err(e@),
    }
}

pub open spec fn octets_view(r: Option<[u8; 16]>) -> Option<Seq<u8>> {
    match r {
        Some(a) => Some(a@),
        None => None,
    }
}

/// `str::parse::<core::net::Ipv6Addr>`, giving the address's octets.
#[verifier::external_body]
fn std_parse_ipv6(text: &str) -> (r: Option<[u8; 16]>)
    ensures
        octets_view(r) == ipv6_from_text(text@),
{
    text.parse::<core::net::Ipv6Addr>().ok().map(|a| a.octets())
}

/// One dotted-quad part in the window `[lo, hi)`.
fn ipv4_octet_window(v: &Vec<char>, lo: usize, hi: usize) -> (r: Option<u8>)
    requires
        lo <= hi <= v.len(),
    ensures
        r == ipv4_octet(window(v@, lo as int, hi as int)),
{
    let ghost p = window(v@, lo as int, hi as int);
    let len = hi - lo;
    if len < 1 || len > 3 || v[lo] == '+' || (len > 1 && v[lo] == '0') {
        return None;
    }
    match parse_unsigned_window(v, lo, hi, 10, 255) {
        Some(n) => Some(n as u8),
        None => None,
    }
}

/// The dotted-quad IPv4 address in the window `[lo, hi)`.
pub fn ipv4_address_window(v: &Vec<char>, lo: usize, hi: usize) -> (r: Option<[u8; 4]>)
    requires
        lo <= hi <= v.len(),
    ensures
        match parse_ipv4_address(window(v@, lo as int, hi as int)) {
            Some(o) => r matches Some(a) && a@ == o,
            None => r is None,
        },
{
    let ghost parts = split(window(v@, lo as int, hi as int), '.');
    let bounds = split_window(v, lo, hi, '.');
    if bounds.len() != 4 {
        return None;
    }
    let b0 = bounds[0];
    let b1 = bounds[1];
    let b2 = bounds[2];
    let b3 = bounds[3];
    assert(window(v@, b0.0 as int, b0.1 as int) == parts[0]);
    assert(window(v@, b1.0 as int, b1.1 as int) == parts[1]);
    assert(window(v@, b2.0 as int, b2.1 as int) == parts[2]);
    assert(window(v@, b3.0 as int, b3.1 as int) == parts[3]);
    let o0 = ipv4_octet_window(v, b0.0, b0.1);
    let o1 = ipv4_octet_window(v, b1.0, b1.1);
    let o2 = ipv4_octet_window(v, b2.0, b2.1);
    let o3 = ipv4_octet_window(v, b3.0, b3.1);
    match (o0, o1, o2, o3) {
        (Some(a), Some(b), Some(c), Some(d)) => {
            let r = [a, b, c, d];
            assert(forall|k: int| 0 <= k < 4 ==> (#[trigger] ipv4_octet(parts[k])) is Some) by {
                assert forall|k: int| 0 <= k < 4 implies (#[trigger] ipv4_octet(parts[k])) is Some by {
                    if k == 0 {
                    } else if k == 1 {
                    } else if k == 2 {
                    } else {
                    }
                }
            }
            assert(r@ =~= seq![a, b, c, d]);
            Some(r)
        },
        _ => {
            proof {
                if o0 is None {
                    assert(ipv4_octet(parts[0]) is None);
                } else if o1 is None {
                    assert(ipv4_octet(parts[1]) is None);
                } else if o2 is None {
                    assert(ipv4_octet(parts[2]) is None);
                } else {
                    assert(ipv4_octet(parts[3]) is None);
                }
            }
            None
        },
    }
}

/// Parses a dotted-quad IPv4 address, as `"a.b.c.d".parse::<Ipv4Addr>()`.
pub fn parse_ipv4_text(text: &str) -> (r: Option<[u8; 4]>)
    ensures
        match parse_ipv4_address(text@) {
            Some(o) => r matches Some(a) && a@ == o,
            None => r is None,
        },
{
    let v = chars_of(text);
    let n = v.len();
    assert(window(v@, 0, n as int) =~= text@);
    ipv4_address_window(&v, 0, n)
}

/// A message made of `before`, the window `[lo, hi)` and `after`.
fn message_around(before: &str, v: &Vec<char>, lo: usize, hi: usize, after: &str) -> (m: String)
    requires
        lo <= hi <= v.len(),
    ensures
        m@ == before@ + window(v@, lo as int, hi as int) + after@,
{
    let mut m = String::from_str(before);
    push_window(&mut m, v, lo, hi);
    m.append(after);
    m
}

/// A message made of `before` and the decimal digits of `n`.
fn message_with_number(before: &str, n: u32) -> (m: String)
    ensures
        m@ == before@ + decimal(n as nat),
{
    let mut m = String::from_str(before);
    push_decimal(&mut m, n);
    m
}

/// Parses a CIDR string like `"10.0.0.0/8"` into the address's octets and
/// the prefix length. The BPF-map sync reuses it, so maps and config
/// loading read CIDRs the same way.
pub fn parse_ipv4_cidr(cidr: &str) -> (r: Result<([u8; 4], u8), String>)
    ensures
        cidr4_view(r) == cidr4_result(cidr@),
{
    let v = chars_of(cidr);
    let n = v.len();
    assert(window(v@, 0, n as int) =~= cidr@);
    match find_in_window(&v, 0, n, '/') {
        None => Err(String::from_str("is not in CIDR form \"a.b.c.d/prefix\"")),
        Some(j) => {
            assert(cidr@.subrange(0, j as int) =~= window(v@, 0, j as int));
            assert(cidr@.subrange(j + 1, cidr@.len() as int) =~= window(v@, j + 1, n as int));
            match ipv4_address_window(&v, 0, j) {
                None => Err(message_around("has an invalid address \"", &v, 0, j, "\"")),
                Some(octets) => match parse_unsigned_window(&v, j + 1, n, 10, 255) {
                    None => Err(message_around("has a non-numeric prefix \"", &v, j + 1, n, "\"")),
                    Some(p) => if p > 32 {
                        Err(message_with_number("has a prefix out of range (0-32): ", p))
                    } else {
                        Ok((octets, p as u8))
                    },
                },
            }
        },
    }
}

/// What `parse_ipv6_address` answers for `addr` once std's IPv6 parser
/// has made `parsed` of it.
pub fn ipv6_address_outcome(addr: &str, parsed: Option<[u8; 16]>) -> (r: Result<[u8; 16], String>)
    ensures
        ipv6_view(r) == ipv6_address_result(addr@, octets_view(parsed)),
{
    match parsed {
        Some(octets) => Ok(octets),
        None => {
            let mut m = String::from_str("\"");
            m.append(addr);
            m.append("\" is not a valid IPv6 address");
            Err(m)
        },
    }
}

/// Parses an IPv6 address into its sixteen octets.
pub fn parse_ipv6_address(addr: &str) -> (r: Result<[u8; 16], String>)
    ensures
        ipv6_view(r) == ipv6_address_result(addr@, ipv6_from_text(addr@)),
{
    let parsed = std_parse_ipv6(addr);
    ipv6_address_outcome(addr, parsed)
}

/// What `parse_ipv6_cidr` answers for the address text `addr` and the
/// prefix text `prefix` once std's IPv6 parser has made `parsed` of `addr`.
pub fn ipv6_cidr_outcome(addr: &str, prefix: &str, parsed: Option<[u8; 16]>) -> (r: Result<
    ([u8; 16], u8),
    String,
>)
    ensures
        cidr6_view(r) == cidr6_parts_result(addr@, prefix@, octets_view(parsed)),
{
    match parsed {
        None => {
            let mut m = String::from_str("has an invalid address \"");
            m.append(addr);
            m.append("\"");
            Err(m)
        },
        Some(octets) => {
            let v = chars_of(prefix);
            let n = v.len();
            assert(window(v@, 0, n as int) =~= prefix@);
            match parse_unsigned_window(&v, 0, n, 10, 255) {
                None => Err(message_around("has a non-numeric prefix \"", &v, 0, n, "\"")),
                Some(p) => if p > 128 {
                    Err(message_with_number("has a prefix out of range (0-128): ", p))
                } else {
                    Ok((octets, p as u8))
                },
            }
        },
    }
}

/// Parses an IPv6 CIDR string like `"2001:db8::/32"` into the address's
/// octets and the prefix length.
pub fn parse_ipv6_cidr(cidr: &str) -> (r: Result<([u8; 16], u8), String>)
    ensures
        cidr6_view(r) == cidr6_result(cidr@),
{
    let v = chars_of(cidr);
    let n = v.len();
    assert(window(v@, 0, n as int) =~= cidr@);
    match find_in_window(&v, 0, n, '/') {
        None => Err(String::from_str("is not in CIDR form \"ipv6-address/prefix\"")),
        Some(j) => {
            assert(cidr@.subrange(0, j as int) =~= window(v@, 0, j as int));
            assert(cidr@.subrange(j + 1, cidr@.len() as int) =~= window(v@, j + 1, n as int));
            let addr = string_of_window(&v, 0, j);
            let prefix = string_of_window(&v, j + 1, n);
            let parsed = std_parse_ipv6(addr.as_str());
            ipv6_cidr_outcome(addr.as_str(), prefix.as_str(), parsed)
        },
    }
}

/// Parses a colon-separated MAC address like `"aa:bb:cc:dd:ee:ff"` into
/// its 6 raw bytes. The BPF-map sync reuses it too.
pub fn parse_mac_address(mac: &str) -> (r: Result<[u8; 6], String>)
    ensures
        mac_view(r) == mac_result(mac@),
{
    let v = chars_of(mac);
    let n = v.len();
    assert(window(v@, 0, n as int) =~= mac@);
    let ghost parts = split(mac@, ':');
    let bounds = split_window(&v, 0, n, ':');
    if bounds.len() != 6 {
        return Err(String::from_str("is not in the form \"aa:bb:cc:dd:ee:ff\""));
    }
    let mut bytes = [0u8; 6];
    let mut i: usize = 0;
    while i < 6
        invariant
            i <= 6,
            bounds.len() == 6,
            parts.len() == 6,
            parts == split(mac@, ':'),
            forall|k: int|
                0 <= k < 6 ==> {
                    &&& 0 <= (#[trigger] bounds[k]).0 <= bounds[k].1 <= v.len()
                    &&& window(v@, bounds[k].0 as int, bounds[k].1 as int) == parts[k]
                },
            forall|k: int| 0 <= k < i ==> (#[trigger] hex_byte(parts[k])) == Some(bytes[k]),
        decreases 6 - i,
    {
        let (a, b) = bounds[i];
        assert(window(v@, a as int, b as int) == parts[i as int]);
        match parse_unsigned_window(&v, a, b, 16, 255) {
            None => {
                proof {
                    assert(is_first_bad_byte(parts, i as int));
                    let k2 = choose|k2: int| is_first_bad_byte(parts, k2);
                    if k2 < i {
                        assert(hex_byte(parts[k2]) == Some(bytes[k2]));
                    } else if i < k2 {
                        assert(hex_byte(parts[i as int]) is Some);
                    }
                    assert(k2 == i as int);
                }
                return Err(message_around("has an invalid byte \"", &v, a, b, "\""));
            },
            Some(x) => {
                bytes[i] = x as u8;
            },
        }
        i = i + 1;
    }
    assert(!exists|k: int| is_first_bad_byte(parts, k));
    assert(bytes@ =~= Seq::new(6, |k: int| hex_byte(parts[k]).unwrap()));
    Ok(bytes)
}


// ---------------------------------------------------------------------------
// Validation
// ---------------------------------------------------------------------------

/// The kinds of text entry a rule list holds.
#[derive(Debug, Clone, Copy, PartialEq, Eq, Structural)]
pub enum EntryKind {
    Cidr4,
    Cidr6,
    Ipv6Address,
    Mac,
}

/// The problem reported for a range whose start lies after its end.
pub open spec fn port_range_problem(path: Seq<char>, r: Range) -> Seq<Seq<char>> {
    if r.start > r.end {
        seq![
            path + ": blocked range "@ + decimal(r.start as nat) + "..="@ + decimal(r.end as nat)
                + " has start > end"@,
        ]
    } else {
        Seq::empty()
    }
}

/// The problems of a list of port ranges, in list order.
pub open spec fn port_range_problems(path: Seq<char>, ranges: Seq<Range>) -> Seq<Seq<char>>
    decreases ranges.len(),
{
    if ranges.len() == 0 {
        Seq::empty()
    } else {
        port_range_problems(path, ranges.drop_last()) + port_range_problem(path, ranges.last())
    }
}

/// The problem reported for one text entry, if its parser rejects it.
pub open spec fn entry_problem(kind: EntryKind, path: Seq<char>, item: Seq<char>) -> Seq<Seq<char>> {
    match kind {
        EntryKind::Cidr4 => match cidr4_result(item) {
            Err(e) => seq![path + ": blocked range \""@ + item + "\" "@ + e],
            Ok(_) => Seq::empty(),
        },
        EntryKind::Cidr6 => match cidr6_result(item) {
            Err(e) => seq![path + ": blocked range \""@ + item + "\" "@ + e],
            Ok(_) => Seq::empty(),
        },
        EntryKind::Ipv6Address => match ipv6_address_result(item, ipv6_from_text(item)) {
            Err(e) => seq![path + ": blocked IP \""@ + item + "\" "@ + e],
            Ok(_) => Seq::empty(),
        },
        EntryKind::Mac => match mac_result(item) {
            Err(e) => seq![path + ": blocked MAC \""@ + item + "\" "@ + e],
            Ok(_) => Seq::empty(),
        },
    }
}

/// The problems of a list of text entries, in list order.
pub open spec fn entry_problems(kind: EntryKind, path: Seq<char>, items: Seq<Seq<char>>) -> Seq<
    Seq<char>,
>
    decreases items.len(),
{
    if items.len() == 0 {
        Seq::empty()
    } else {
        entry_problems(kind, path, items.drop_last()) + entry_problem(kind, path, items.last())
    }
}

/// The problem reported for one configured interface whose kernel index is
/// `index` (0 where the kernel knows no such interface).
pub open spec fn interface_problem(name: Seq<char>, index: u32) -> Seq<Seq<char>> {
    if name.len() == 0 {
        seq!["interfaces: contains an empty interface name"@]
    } else if name.contains('\0') {
        seq!["interfaces: \""@ + name + "\" contains a NUL byte"@]
    } else if index == 0 {
        seq!["interfaces: no such network interface \""@ + name + "\""@]
    } else {
        Seq::empty()
    }
}

/// The problems of the configured interfaces, in list order.
pub open spec fn interface_problems(names: Seq<Seq<char>>, indices: Seq<u32>) -> Seq<Seq<char>>
    decreases names.len(),
{
    if names.len() == 0 || indices.len() == 0 {
        Seq::empty()
    } else {
        interface_problems(names.drop_last(), indices.drop_last()) + interface_problem(
            names.last(),
            indices.last(),
        )
    }
}

/// Every problem of the configuration `c`, in the order `validate` reports
/// them, given the kernel's index of each configured interface.
pub open spec fn config_problems(c: ACLConfig, indices: Seq<u32>) -> Seq<Seq<char>> {
    port_range_problems("ingress.tcp_rules"@, c.ingress.tcp_rules.blocked_source_ranges@)
        + port_range_problems("ingress.udp_rules"@, c.ingress.udp_rules.blocked_source_ranges@)
        + entry_problems(
        EntryKind::Cidr4,
        "ingress.ipv4_rules"@,
        texts(c.ingress.ipv4_rules.blocked_source_ranges@),
    ) + entry_problems(
        EntryKind::Cidr6,
        "ingress.ipv6_rules"@,
        texts(c.ingress.ipv6_rules.blocked_source_ranges@),
    ) + entry_problems(
        EntryKind::Ipv6Address,
        "ingress.ipv6_rules"@,
        texts(c.ingress.ipv6_rules.blocked_source_ips@),
    ) + port_range_problems(
        "engress.tcp_rules"@,
        c.engress.tcp_rules.blocked_destination_ranges@,
    ) + port_range_problems(
        "engress.udp_rules"@,
        c.engress.udp_rules.blocked_destination_ranges@,
    ) + entry_problems(
        EntryKind::Cidr4,
        "engress.ipv4_rules"@,
        texts(c.engress.ipv4_rules.blocked_destination_ranges@),
    ) + entry_problems(
        EntryKind::Cidr6,
        "engress.ipv6_rules"@,
        texts(c.engress.ipv6_rules.blocked_destination_ranges@),
    ) + entry_problems(
        EntryKind::Ipv6Address,
        "engress.ipv6_rules"@,
        texts(c.engress.ipv6_rules.blocked_destination_ips@),
    ) + entry_problems(
        EntryKind::Mac,
        "ingress.mac_rules"@,
        texts(c.ingress.mac_rules.blocked_source_macs@),
    ) + entry_problems(
        EntryKind::Mac,
        "engress.mac_rules"@,
        texts(c.engress.mac_rules.blocked_destination_macs@),
    ) + interface_problems(texts(c.interfaces.names@), indices)
}

/// The message `validate` fails with for the problems `problems`.
pub open spec fn invalid_config_message(problems: Seq<Seq<char>>) -> Seq<char> {
    "invalid config:\n  "@ + join(problems, "\n  "@)
}

impl ACLConfig {
    /// Validates the config, collecting every problem it finds instead of
    /// stopping at the first one: it runs once at startup against
    /// user-authored JSON, so there is no point stopping early.
    /// `interface_indices` holds the kernel's index of each configured
    /// interface, in the order of `interfaces.names` (0 where the kernel
    /// knows no such interface).
    pub fn validate(&self, interface_indices: &Vec<u32>) -> (r: Result<(), String>)
        requires
            interface_indices.len() == self.interfaces.names.len(),
        ensures
            r is Ok <==> config_problems(*self, interface_indices@).len() == 0,
            r matches Err(m) ==> m@ == invalid_config_message(
                config_problems(*self, interface_indices@),
            ),
            forall|i: int| 0 <= i < self.ingress.tcp_rules.blocked_source_ranges@.len() && (#[trigger] self.ingress.tcp_rules.blocked_source_ranges@[i]).start > self.ingress.tcp_rules.blocked_source_ranges@[i].end ==> r is Err,
            forall|i: int| 0 <= i < self.ingress.udp_rules.blocked_source_ranges@.len() && (#[trigger] self.ingress.udp_rules.blocked_source_ranges@[i]).start > self.ingress.udp_rules.blocked_source_ranges@[i].end ==> r is Err,
            forall|i: int| 0 <= i < self.engress.tcp_rules.blocked_destination_ranges@.len() && (#[trigger] self.engress.tcp_rules.blocked_destination_ranges@[i]).start > self.engress.tcp_rules.blocked_destination_ranges@[i].end ==> r is Err,
            forall|i: int| 0 <= i < self.engress.udp_rules.blocked_destination_ranges@.len() && (#[trigger] self.engress.udp_rules.blocked_destination_ranges@[i]).start > self.engress.udp_rules.blocked_destination_ranges@[i].end ==> r is Err,
            forall|i: int| 0 <= i < self.ingress.ipv4_rules.blocked_source_ranges@.len() && !entry_valid(EntryKind::Cidr4, (#[trigger] self.ingress.ipv4_rules.blocked_source_ranges@[i])@) ==> r is Err,
            forall|i: int| 0 <= i < self.ingress.ipv6_rules.blocked_source_ranges@.len() && !entry_valid(EntryKind::Cidr6, (#[trigger] self.ingress.ipv6_rules.blocked_source_ranges@[i])@) ==> r is Err,
            forall|i: int| 0 <= i < self.ingress.ipv6_rules.blocked_source_ips@.len() && !entry_valid(EntryKind::Ipv6Address, (#[trigger] self.ingress.ipv6_rules.blocked_source_ips@[i])@) ==> r is Err,
            forall|i: int| 0 <= i < self.engress.ipv4_rules.blocked_destination_ranges@.len() && !entry_valid(EntryKind::Cidr4, (#[trigger] self.engress.ipv4_rules.blocked_destination_ranges@[i])@) ==> r is Err,
            forall|i: int| 0 <= i < self.engress.ipv6_rules.blocked_destination_ranges@.len() && !entry_valid(EntryKind::Cidr6, (#[trigger] self.engress.ipv6_rules.blocked_destination_ranges@[i])@) ==> r is Err,
            forall|i: int| 0 <= i < self.engress.ipv6_rules.blocked_destination_ips@.len() && !entry_valid(EntryKind::Ipv6Address, (#[trigger] self.engress.ipv6_rules.blocked_destination_ips@[i])@) ==> r is Err,
            forall|i: int| 0 <= i < self.ingress.mac_rules.blocked_source_macs@.len() && !entry_valid(EntryKind::Mac, (#[trigger] self.ingress.mac_rules.blocked_source_macs@[i])@) ==> r is Err,
            forall|i: int| 0 <= i < self.engress.mac_rules.blocked_destination_macs@.len() && !entry_valid(EntryKind::Mac, (#[trigger] self.engress.mac_rules.blocked_destination_macs@[i])@) ==> r is Err,
            forall|i: int| 0 <= i < self.interfaces.names@.len() && !interface_valid(
                (#[trigger] self.interfaces.names@[i])@,
                interface_indices@[i],
            ) ==> r is Err,
    {
        let mut errors: Vec<String> = Vec::new();
        validate_port_ranges("ingress.tcp_rules", &self.ingress.tcp_rules.blocked_source_ranges, &mut errors);
        validate_port_ranges("ingress.udp_rules", &self.ingress.udp_rules.blocked_source_ranges, &mut errors);
        validate_cidr_ranges("ingress.ipv4_rules", &self.ingress.ipv4_rules.blocked_source_ranges, &mut errors);
        validate_ipv6_cidr_ranges("ingress.ipv6_rules", &self.ingress.ipv6_rules.blocked_source_ranges, &mut errors);
        validate_ipv6_addresses("ingress.ipv6_rules", &self.ingress.ipv6_rules.blocked_source_ips, &mut errors);
        validate_port_ranges("engress.tcp_rules", &self.engress.tcp_rules.blocked_destination_ranges, &mut errors);
        validate_port_ranges("engress.udp_rules", &self.engress.udp_rules.blocked_destination_ranges, &mut errors);
        validate_cidr_ranges("engress.ipv4_rules", &self.engress.ipv4_rules.blocked_destination_ranges, &mut errors);
        validate_ipv6_cidr_ranges("engress.ipv6_rules", &self.engress.ipv6_rules.blocked_destination_ranges, &mut errors);
        validate_ipv6_addresses("engress.ipv6_rules", &self.engress.ipv6_rules.blocked_destination_ips, &mut errors);
        validate_mac_addresses("ingress.mac_rules", &self.ingress.mac_rules.blocked_source_macs, &mut errors);
        validate_mac_addresses("engress.mac_rules", &self.engress.mac_rules.blocked_destination_macs, &mut errors);
        validate_interfaces(&self.interfaces, interface_indices, &mut errors);
        assert(texts(errors@) =~= config_problems(*self, interface_indices@));
        proof {
            law_validate_reports_every_invalid_item(*self, interface_indices@);
            assert forall|i: int| 0 <= i < self.ingress.tcp_rules.blocked_source_ranges@.len() && (#[trigger] self.ingress.tcp_rules.blocked_source_ranges@[i]).start > self.ingress.tcp_rules.blocked_source_ranges@[i].end implies errors.len() > 0 by {
                lemma_range_problems_nonempty(self.ingress.tcp_rules.blocked_source_ranges@, i);
            }
            assert forall|i: int| 0 <= i < self.ingress.udp_rules.blocked_source_ranges@.len() && (#[trigger] self.ingress.udp_rules.blocked_source_ranges@[i]).start > self.ingress.udp_rules.blocked_source_ranges@[i].end implies errors.len() > 0 by {
                lemma_range_problems_nonempty(self.ingress.udp_rules.blocked_source_ranges@, i);
            }
            assert forall|i: int| 0 <= i < self.engress.tcp_rules.blocked_destination_ranges@.len() && (#[trigger] self.engress.tcp_rules.blocked_destination_ranges@[i]).start > self.engress.tcp_rules.blocked_destination_ranges@[i].end implies errors.len() > 0 by {
                lemma_range_problems_nonempty(self.engress.tcp_rules.blocked_destination_ranges@, i);
            }
            assert forall|i: int| 0 <= i < self.engress.udp_rules.blocked_destination_ranges@.len() && (#[trigger] self.engress.udp_rules.blocked_destination_ranges@[i]).start > self.engress.udp_rules.blocked_destination_ranges@[i].end implies errors.len() > 0 by {
                lemma_range_problems_nonempty(self.engress.udp_rules.blocked_destination_ranges@, i);
            }
            assert forall|i: int| 0 <= i < self.ingress.ipv4_rules.blocked_source_ranges@.len() && !entry_valid(EntryKind::Cidr4, (#[trigger] self.ingress.ipv4_rules.blocked_source_ranges@[i])@) implies errors.len() > 0 by {
                assert(texts(self.ingress.ipv4_rules.blocked_source_ranges@)[i] == self.ingress.ipv4_rules.blocked_source_ranges@[i]@);
            }
            assert forall|i: int| 0 <= i < self.ingress.ipv6_rules.blocked_source_ranges@.len() && !entry_valid(EntryKind::Cidr6, (#[trigger] self.ingress.ipv6_rules.blocked_source_ranges@[i])@) implies errors.len() > 0 by {
                assert(texts(self.ingress.ipv6_rules.blocked_source_ranges@)[i] == self.ingress.ipv6_rules.blocked_source_ranges@[i]@);
            }
            assert forall|i: int| 0 <= i < self.ingress.ipv6_rules.blocked_source_ips@.len() && !entry_valid(EntryKind::Ipv6Address, (#[trigger] self.ingress.ipv6_rules.blocked_source_ips@[i])@) implies errors.len() > 0 by {
                assert(texts(self.ingress.ipv6_rules.blocked_source_ips@)[i] == self.ingress.ipv6_rules.blocked_source_ips@[i]@);
            }
            assert forall|i: int| 0 <= i < self.engress.ipv4_rules.blocked_destination_ranges@.len() && !entry_valid(EntryKind::Cidr4, (#[trigger] self.engress.ipv4_rules.blocked_destination_ranges@[i])@) implies errors.len() > 0 by {
                assert(texts(self.engress.ipv4_rules.blocked_destination_ranges@)[i] == self.engress.ipv4_rules.blocked_destination_ranges@[i]@);
            }
            assert forall|i: int| 0 <= i < self.engress.ipv6_rules.blocked_destination_ranges@.len() && !entry_valid(EntryKind::Cidr6, (#[trigger] self.engress.ipv6_rules.blocked_destination_ranges@[i])@) implies errors.len() > 0 by {
                assert(texts(self.engress.ipv6_rules.blocked_destination_ranges@)[i] == self.engress.ipv6_rules.blocked_destination_ranges@[i]@);
            }
            assert forall|i: int| 0 <= i < self.engress.ipv6_rules.blocked_destination_ips@.len() && !entry_valid(EntryKind::Ipv6Address, (#[trigger] self.engress.ipv6_rules.blocked_destination_ips@[i])@) implies errors.len() > 0 by {
                assert(texts(self.engress.ipv6_rules.blocked_destination_ips@)[i] == self.engress.ipv6_rules.blocked_destination_ips@[i]@);
            }
            assert forall|i: int| 0 <= i < self.ingress.mac_rules.blocked_source_macs@.len() && !entry_valid(EntryKind::Mac, (#[trigger] self.ingress.mac_rules.blocked_source_macs@[i])@) implies errors.len() > 0 by {
                assert(texts(self.ingress.mac_rules.blocked_source_macs@)[i] == self.ingress.mac_rules.blocked_source_macs@[i]@);
            }
            assert forall|i: int| 0 <= i < self.engress.mac_rules.blocked_destination_macs@.len() && !entry_valid(EntryKind::Mac, (#[trigger] self.engress.mac_rules.blocked_destination_macs@[i])@) implies errors.len() > 0 by {
                assert(texts(self.engress.mac_rules.blocked_destination_macs@)[i] == self.engress.mac_rules.blocked_destination_macs@[i]@);
            }
            assert forall|i: int| 0 <= i < self.interfaces.names@.len() && !interface_valid(
                (#[trigger] self.interfaces.names@[i])@,
                interface_indices@[i],
            ) implies errors.len() > 0 by {
                assert(texts(self.interfaces.names@)[i] == self.interfaces.names@[i]@);
            }
        }
        if errors.len() == 0 {
            Ok(())
        } else {
            let mut m = String::from_str("invalid config:\n  ");
            let joined = join_strings(&errors, "\n  ");
            m.append(joined.as_str());
            Err(m)
        }
    }
}

proof fn lemma_texts_push(v: Seq<String>, s: String)
    ensures
        texts(v.push(s)) == texts(v).push(s@),
{
    assert(texts(v.push(s)) =~= texts(v).push(s@));
}

/// Reports every range of `ranges` whose start lies after its end.
fn validate_port_ranges(path: &str, ranges: &Vec<Range>, errors: &mut Vec<String>)
    ensures
        texts(final(errors)@) == texts(old(errors)@) + port_range_problems(path@, ranges@),
{
    let mut i: usize = 0;
    while i < ranges.len()
        invariant
            i <= ranges.len(),
            texts(errors@) == texts(old(errors)@) + port_range_problems(path@, ranges@.take(i as int)),
        decreases ranges.len() - i,
    {
        let range = ranges[i];
        let ghost before = errors@;
        if range.start > range.end {
            let mut m = String::from_str(path);
            m.append(": blocked range ");
            push_decimal(&mut m, range.start as u32);
            m.append("..=");
            push_decimal(&mut m, range.end as u32);
            m.append(" has start > end");
            errors.push(m);
            proof {
                lemma_texts_push(before, m);
            }
        }
        proof {
            assert(ranges@.take(i + 1).drop_last() =~= ranges@.take(i as int));
        }
        i = i + 1;
    }
    assert(ranges@.take(ranges.len() as int) =~= ranges@);
}

/// The problem message for one text entry, if its parser rejects it.
fn entry_error(kind: EntryKind, path: &str, item: &str) -> (r: Option<String>)
    ensures
        match r {
            Some(m) => entry_problem(kind, path@, item@) == seq![m@],
            None => entry_problem(kind, path@, item@) == Seq::<Seq<char>>::empty(),
        },
{
    let (what, err) = match kind {
        EntryKind::Cidr4 => match parse_ipv4_cidr(item) {
            Ok(_) => return None,
            Err(e) => (": blocked range \"", e),
        },
        EntryKind::Cidr6 => match parse_ipv6_cidr(item) {
            Ok(_) => return None,
            Err(e) => (": blocked range \"", e),
        },
        EntryKind::Ipv6Address => match parse_ipv6_address(item) {
            Ok(_) => return None,
            Err(e) => (": blocked IP \"", e),
        },
        EntryKind::Mac => match parse_mac_address(item) {
            Ok(_) => return None,
            Err(e) => (": blocked MAC \"", e),
        },
    };
    let mut m = String::from_str(path);
    m.append(what);
    m.append(item);
    m.append("\" ");
    m.append(err.as_str());
    Some(m)
}

/// Reports every entry of `items` that the parser for `kind` rejects.
fn validate_entries(kind: EntryKind, path: &str, items: &Vec<String>, errors: &mut Vec<String>)
    ensures
        texts(final(errors)@) == texts(old(errors)@) + entry_problems(kind, path@, texts(items@)),
{
    let mut i: usize = 0;
    while i < items.len()
        invariant
            i <= items.len(),
            texts(errors@) == texts(old(errors)@) + entry_problems(
                kind,
                path@,
                texts(items@).take(i as int),
            ),
        decreases items.len() - i,
    {
        let ghost before = errors@;
        match entry_error(kind, path, items[i].as_str()) {
            Some(m) => {
                errors.push(m);
                proof {
                    lemma_texts_push(before, m);
                }
            },
            None => {},
        }
        proof {
            assert(texts(items@).take(i + 1).drop_last() =~= texts(items@).take(i as int));
            assert(texts(items@).take(i + 1).last() == items@[i as int]@);
        }
        i = i + 1;
    }
    assert(texts(items@).take(items.len() as int) =~= texts(items@));
}

/// Reports every IPv4 CIDR range that does not parse.
fn validate_cidr_ranges(path: &str, ranges: &Vec<String>, errors: &mut Vec<String>)
    ensures
        texts(final(errors)@) == texts(old(errors)@) + entry_problems(
            EntryKind::Cidr4,
            path@,
            texts(ranges@),
        ),
{
    validate_entries(EntryKind::Cidr4, path, ranges, errors);
}

/// Reports every IPv6 CIDR range that does not parse.
fn validate_ipv6_cidr_ranges(path: &str, ranges: &Vec<String>, errors: &mut Vec<String>)
    ensures
        texts(final(errors)@) == texts(old(errors)@) + entry_problems(
            EntryKind::Cidr6,
            path@,
            texts(ranges@),
        ),
{
    validate_entries(EntryKind::Cidr6, path, ranges, errors);
}

/// Reports every IPv6 address that does not parse.
fn validate_ipv6_addresses(path: &str, addresses: &Vec<String>, errors: &mut Vec<String>)
    ensures
        texts(final(errors)@) == texts(old(errors)@) + entry_problems(
            EntryKind::Ipv6Address,
            path@,
            texts(addresses@),
        ),
{
    validate_entries(EntryKind::Ipv6Address, path, addresses, errors);
}

/// Reports every MAC address that does not parse.
fn validate_mac_addresses(path: &str, macs: &Vec<String>, errors: &mut Vec<String>)
    ensures
        texts(final(errors)@) == texts(old(errors)@) + entry_problems(
            EntryKind::Mac,
            path@,
            texts(macs@),
        ),
{
    validate_entries(EntryKind::Mac, path, macs, errors);
}

/// Whether `s` holds the character `c`.
fn contains_char(s: &str, c: char) -> (r: bool)
    ensures
        r == s@.contains(c),
{
    let v = chars_of(s);
    let mut i: usize = 0;
    while i < v.len()
        invariant
            i <= v.len(),
            v@ == s@,
            forall|j: int| 0 <= j < i ==> v@[j] != c,
        decreases v.len() - i,
    {
        if v[i] == c {
            assert(s@[i as int] == c);
            return true;
        }
        i = i + 1;
    }
    false
}

/// Reports every configured interface that is empty, holds a NUL byte, or
/// is unknown to the kernel (its index in `indices` is 0).
fn validate_interfaces(interfaces: &Interfaces, indices: &Vec<u32>, errors: &mut Vec<String>)
    requires
        indices.len() == interfaces.names.len(),
    ensures
        texts(final(errors)@) == texts(old(errors)@) + interface_problems(
            texts(interfaces.names@),
            indices@,
        ),
{
    let names = &interfaces.names;
    let mut i: usize = 0;
    while i < names.len()
        invariant
            i <= names.len(),
            indices.len() == names.len(),
            names == &interfaces.names,
            texts(errors@) == texts(old(errors)@) + interface_problems(
                texts(names@).take(i as int),
                indices@.take(i as int),
            ),
        decreases names.len() - i,
    {
        let ghost before = errors@;
        let name = names[i].as_str();
        if name.is_empty() {
            let m = String::from_str("interfaces: contains an empty interface name");
            errors.push(m);
            proof {
                lemma_texts_push(before, m);
            }
        } else if contains_char(name, '\0') {
            let mut m = String::from_str("interfaces: \"");
            m.append(name);
            m.append("\" contains a NUL byte");
            errors.push(m);
            proof {
                lemma_texts_push(before, m);
            }
        } else if indices[i] == 0 {
            let mut m = String::from_str("interfaces: no such network interface \"");
            m.append(name);
            m.append("\"");
            errors.push(m);
            proof {
                lemma_texts_push(before, m);
            }
        }
        proof {
            let nt = texts(names@).take(i + 1);
            let it = indices@.take(i + 1);
            assert(nt.drop_last() =~= texts(names@).take(i as int));
            assert(it.drop_last() =~= indices@.take(i as int));
            assert(nt.last() == names@[i as int]@);
            assert(it.last() == indices@[i as int]);
        }
        i = i + 1;
    }
    assert(texts(names@).take(names.len() as int) =~= texts(names@));
    assert(indices@.take(names.len() as int) =~= indices@);
}

// ---------------------------------------------------------------------------
// What validation accepts
// ---------------------------------------------------------------------------

/// Whether a blocked port range is well formed.
pub open spec fn range_valid(r: Range) -> bool {
    r.start <= r.end
}

/// Whether a text entry of kind `kind` passes its parser.
pub open spec fn entry_valid(kind: EntryKind, item: Seq<char>) -> bool {
    match kind {
        EntryKind::Cidr4 => cidr4_result(item) is Ok,
        EntryKind::Cidr6 => cidr6_result(item) is Ok,
        EntryKind::Ipv6Address => ipv6_address_result(item, ipv6_from_text(item)) is Ok,
        EntryKind::Mac => mac_result(item) is Ok,
    }
}

/// Whether a configured interface name is usable: not empty, free of NUL
/// bytes, and known to the kernel (a nonzero `index`).
pub open spec fn interface_valid(name: Seq<char>, index: u32) -> bool {
    name.len() > 0 && !name.contains('\0') && index != 0
}

pub open spec fn ranges_valid(rs: Seq<Range>) -> bool {
    forall|i: int| 0 <= i < rs.len() ==> range_valid(#[trigger] rs[i])
}

pub open spec fn entries_valid(kind: EntryKind, items: Seq<Seq<char>>) -> bool {
    forall|i: int| 0 <= i < items.len() ==> entry_valid(kind, #[trigger] items[i])
}

pub open spec fn interfaces_valid(names: Seq<Seq<char>>, indices: Seq<u32>) -> bool {
    forall|i: int| 0 <= i < names.len() ==> interface_valid(#[trigger] names[i], indices[i])
}

/// The number of malformed ranges in `rs`.
pub open spec fn bad_ranges(rs: Seq<Range>) -> nat {
    rs.filter(|r: Range| !range_valid(r)).len()
}

/// The number of entries of `items` that fail their parser.
pub open spec fn bad_entries(kind: EntryKind, items: Seq<Seq<char>>) -> nat {
    items.filter(|t: Seq<char>| !entry_valid(kind, t)).len()
}

/// Each configured interface together with its kernel index.
pub open spec fn named_indices(names: Seq<Seq<char>>, indices: Seq<u32>) -> Seq<(Seq<char>, u32)> {
    Seq::new(names.len(), |i: int| (names[i], indices[i]))
}

/// The number of unusable configured interfaces.
pub open spec fn bad_interfaces(names: Seq<Seq<char>>, indices: Seq<u32>) -> nat {
    named_indices(names, indices).filter(|p: (Seq<char>, u32)| !interface_valid(p.0, p.1)).len()
}

/// Whether every item that `validate` checks is valid: every port range,
/// every IPv4 and IPv6 range, every IPv6 address and every MAC of both
/// directions, and every configured interface. The on/off switches play
/// no part.
pub open spec fn config_valid(c: ACLConfig, indices: Seq<u32>) -> bool {
    &&& ranges_valid(c.ingress.tcp_rules.blocked_source_ranges@)
    &&& ranges_valid(c.ingress.udp_rules.blocked_source_ranges@)
    &&& entries_valid(EntryKind::Cidr4, texts(c.ingress.ipv4_rules.blocked_source_ranges@))
    &&& entries_valid(EntryKind::Cidr6, texts(c.ingress.ipv6_rules.blocked_source_ranges@))
    &&& entries_valid(EntryKind::Ipv6Address, texts(c.ingress.ipv6_rules.blocked_source_ips@))
    &&& ranges_valid(c.engress.tcp_rules.blocked_destination_ranges@)
    &&& ranges_valid(c.engress.udp_rules.blocked_destination_ranges@)
    &&& entries_valid(EntryKind::Cidr4, texts(c.engress.ipv4_rules.blocked_destination_ranges@))
    &&& entries_valid(EntryKind::Cidr6, texts(c.engress.ipv6_rules.blocked_destination_ranges@))
    &&& entries_valid(EntryKind::Ipv6Address, texts(c.engress.ipv6_rules.blocked_destination_ips@))
    &&& entries_valid(EntryKind::Mac, texts(c.ingress.mac_rules.blocked_source_macs@))
    &&& entries_valid(EntryKind::Mac, texts(c.engress.mac_rules.blocked_destination_macs@))
    &&& interfaces_valid(texts(c.interfaces.names@), indices)
}

/// The number of invalid items in `c`, each malformed range, rejected
/// entry and unusable interface counted once.
pub open spec fn invalid_items(c: ACLConfig, indices: Seq<u32>) -> nat {
    bad_ranges(c.ingress.tcp_rules.blocked_source_ranges@)
        + bad_ranges(c.ingress.udp_rules.blocked_source_ranges@)
        + bad_entries(EntryKind::Cidr4, texts(c.ingress.ipv4_rules.blocked_source_ranges@))
        + bad_entries(EntryKind::Cidr6, texts(c.ingress.ipv6_rules.blocked_source_ranges@))
        + bad_entries(EntryKind::Ipv6Address, texts(c.ingress.ipv6_rules.blocked_source_ips@))
        + bad_ranges(c.engress.tcp_rules.blocked_destination_ranges@)
        + bad_ranges(c.engress.udp_rules.blocked_destination_ranges@)
        + bad_entries(EntryKind::Cidr4, texts(c.engress.ipv4_rules.blocked_destination_ranges@))
        + bad_entries(EntryKind::Cidr6, texts(c.engress.ipv6_rules.blocked_destination_ranges@))
        + bad_entries(EntryKind::Ipv6Address, texts(c.engress.ipv6_rules.blocked_destination_ips@))
        + bad_entries(EntryKind::Mac, texts(c.ingress.mac_rules.blocked_source_macs@))
        + bad_entries(EntryKind::Mac, texts(c.engress.mac_rules.blocked_destination_macs@))
        + bad_interfaces(texts(c.interfaces.names@), indices)
}

proof fn lemma_range_problems(path: Seq<char>, rs: Seq<Range>)
    ensures
        port_range_problems(path, rs).len() == bad_ranges(rs),
        port_range_problems(path, rs).len() == 0 <==> ranges_valid(rs),
    decreases rs.len(),
{
    reveal(Seq::filter);
    if rs.len() > 0 {
        let front = rs.drop_last();
        lemma_range_problems(path, front);
        if ranges_valid(rs) {
            assert forall|i: int| 0 <= i < front.len() implies range_valid(#[trigger] front[i]) by {
                assert(front[i] == rs[i]);
            }
            assert(range_valid(rs[rs.len() - 1]));
        }
        if ranges_valid(front) && range_valid(rs.last()) {
            assert forall|i: int| 0 <= i < rs.len() implies range_valid(#[trigger] rs[i]) by {
                if i < front.len() {
                    assert(front[i] == rs[i]);
                }
            }
        }
    }
}

proof fn lemma_entry_problems(kind: EntryKind, path: Seq<char>, items: Seq<Seq<char>>)
    ensures
        entry_problems(kind, path, items).len() == bad_entries(kind, items),
        entry_problems(kind, path, items).len() == 0 <==> entries_valid(kind, items),
    decreases items.len(),
{
    reveal(Seq::filter);
    if items.len() > 0 {
        let front = items.drop_last();
        lemma_entry_problems(kind, path, front);
        assert(entry_problem(kind, path, items.last()).len() == if entry_valid(kind, items.last()) { 0int } else { 1int });
        if entries_valid(kind, items) {
            assert forall|i: int| 0 <= i < front.len() implies entry_valid(kind, #[trigger] front[i]) by {
                assert(front[i] == items[i]);
            }
            assert(entry_valid(kind, items[items.len() - 1]));
        }
        if entries_valid(kind, front) && entry_valid(kind, items.last()) {
            assert forall|i: int| 0 <= i < items.len() implies entry_valid(kind, #[trigger] items[i]) by {
                if i < front.len() {
                    assert(front[i] == items[i]);
                }
            }
        }
    }
}

proof fn lemma_interface_problems(names: Seq<Seq<char>>, indices: Seq<u32>)
    requires
        names.len() == indices.len(),
    ensures
        interface_problems(names, indices).len() == bad_interfaces(names, indices),
        interface_problems(names, indices).len() == 0 <==> interfaces_valid(names, indices),
    decreases names.len(),
{
    reveal(Seq::filter);
    if names.len() > 0 {
        let front = names.drop_last();
        let ifront = indices.drop_last();
        lemma_interface_problems(front, ifront);
        let n = names.len() - 1;
        assert(named_indices(names, indices).drop_last() =~= named_indices(front, ifront));
        assert(named_indices(names, indices).last() == (names[n], indices[n]));
        assert(interface_problem(names.last(), indices.last()).len() == if interface_valid(names[n], indices[n]) { 0int } else { 1int });
        if interfaces_valid(names, indices) {
            assert forall|i: int| 0 <= i < front.len() implies interface_valid(#[trigger] front[i], ifront[i]) by {
                assert(front[i] == names[i]);
                assert(ifront[i] == indices[i]);
            }
            assert(interface_valid(names[n], indices[n]));
        }
        if interfaces_valid(front, ifront) && interface_valid(names[n], indices[n]) {
            assert forall|i: int| 0 <= i < names.len() implies interface_valid(#[trigger] names[i], indices[i]) by {
                if i < front.len() {
                    assert(front[i] == names[i]);
                    assert(ifront[i] == indices[i]);
                }
            }
        }
    }
}

proof fn lemma_config_problems(c: ACLConfig, indices: Seq<u32>)
    requires
        indices.len() == c.interfaces.names.len(),
    ensures
        config_problems(c, indices).len() == invalid_items(c, indices),
        config_problems(c, indices).len() == 0 <==> config_valid(c, indices),
{
    lemma_range_problems("ingress.tcp_rules"@, c.ingress.tcp_rules.blocked_source_ranges@);
    lemma_range_problems("ingress.udp_rules"@, c.ingress.udp_rules.blocked_source_ranges@);
    lemma_entry_problems(EntryKind::Cidr4, "ingress.ipv4_rules"@, texts(c.ingress.ipv4_rules.blocked_source_ranges@));
    lemma_entry_problems(EntryKind::Cidr6, "ingress.ipv6_rules"@, texts(c.ingress.ipv6_rules.blocked_source_ranges@));
    lemma_entry_problems(EntryKind::Ipv6Address, "ingress.ipv6_rules"@, texts(c.ingress.ipv6_rules.blocked_source_ips@));
    lemma_range_problems("engress.tcp_rules"@, c.engress.tcp_rules.blocked_destination_ranges@);
    lemma_range_problems("engress.udp_rules"@, c.engress.udp_rules.blocked_destination_ranges@);
    lemma_entry_problems(EntryKind::Cidr4, "engress.ipv4_rules"@, texts(c.engress.ipv4_rules.blocked_destination_ranges@));
    lemma_entry_problems(EntryKind::Cidr6, "engress.ipv6_rules"@, texts(c.engress.ipv6_rules.blocked_destination_ranges@));
    lemma_entry_problems(EntryKind::Ipv6Address, "engress.ipv6_rules"@, texts(c.engress.ipv6_rules.blocked_destination_ips@));
    lemma_entry_problems(EntryKind::Mac, "ingress.mac_rules"@, texts(c.ingress.mac_rules.blocked_source_macs@));
    lemma_entry_problems(EntryKind::Mac, "engress.mac_rules"@, texts(c.engress.mac_rules.blocked_destination_macs@));
    lemma_interface_problems(texts(c.interfaces.names@), indices);
}

/// `validate` accepts a configuration exactly when every range, address,
/// MAC and interface in it is valid; the on/off switches play no part.
pub proof fn law_validate_accepts_exactly_valid_configs(c: ACLConfig, indices: Seq<u32>)
    requires
        indices.len() == c.interfaces.names.len(),
    ensures
        config_problems(c, indices).len() == 0 <==> config_valid(c, indices),
{
    lemma_config_problems(c, indices);
}

/// `validate`'s message has exactly one line per invalid item: each check
/// reports at most one problem for an item, and one for every item that
/// fails it.
pub proof fn law_one_problem_per_invalid_item(c: ACLConfig, indices: Seq<u32>)
    requires
        indices.len() == c.interfaces.names.len(),
    ensures
        config_problems(c, indices).len() == invalid_items(c, indices),
        forall|r: Range, p: Seq<char>| #[trigger] port_range_problem(p, r).len() == if range_valid(r) { 0int } else { 1int },
        forall|k: EntryKind, p: Seq<char>, t: Seq<char>|
            #[trigger] entry_problem(k, p, t).len() == if entry_valid(k, t) { 0int } else { 1int },
        forall|n: Seq<char>, i: u32| #[trigger] interface_problem(n, i).len() == if interface_valid(n, i) { 0int } else { 1int },
{
    lemma_config_problems(c, indices);
}

/// The line `validate` reports for a range whose start lies after its end.
pub open spec fn inverted_range_line(path: Seq<char>, r: Range) -> Seq<char> {
    path + ": blocked range "@ + decimal(r.start as nat) + "..="@ + decimal(r.end as nat) + " has start > end"@
}

proof fn lemma_range_problems_nonempty(rs: Seq<Range>, i: int)
    requires
        0 <= i < rs.len(),
        rs[i].start > rs[i].end,
    ensures
        !ranges_valid(rs),
{
}

proof fn lemma_range_listed(path: Seq<char>, rs: Seq<Range>, i: int)
    requires
        0 <= i < rs.len(),
        rs[i].start > rs[i].end,
    ensures
        port_range_problems(path, rs).contains(inverted_range_line(path, rs[i])),
    decreases rs.len(),
{
    let all = port_range_problems(path, rs);
    let front = port_range_problems(path, rs.drop_last());
    if i == rs.len() - 1 {
        assert(all[front.len() as int] == inverted_range_line(path, rs[i]));
    } else {
        lemma_range_listed(path, rs.drop_last(), i);
        let j = choose|j: int| 0 <= j < front.len() && front[j] == inverted_range_line(path, rs[i]);
        assert(all[j] == front[j]);
    }
}

proof fn lemma_entry_listed(kind: EntryKind, path: Seq<char>, items: Seq<Seq<char>>, i: int)
    requires
        0 <= i < items.len(),
        !entry_valid(kind, items[i]),
    ensures
        entry_problem(kind, path, items[i]).len() == 1,
        entry_problems(kind, path, items).contains(entry_problem(kind, path, items[i])[0]),
    decreases items.len(),
{
    let all = entry_problems(kind, path, items);
    let front = entry_problems(kind, path, items.drop_last());
    if i == items.len() - 1 {
        assert(all[front.len() as int] == entry_problem(kind, path, items[i])[0]);
    } else {
        assert(items.drop_last()[i] == items[i]);
        lemma_entry_listed(kind, path, items.drop_last(), i);
        let j = choose|j: int| 0 <= j < front.len() && front[j] == entry_problem(kind, path, items[i])[0];
        assert(all[j] == front[j]);
    }
}

proof fn lemma_interface_listed(names: Seq<Seq<char>>, indices: Seq<u32>, i: int)
    requires
        names.len() == indices.len(),
        0 <= i < names.len(),
        !interface_valid(names[i], indices[i]),
    ensures
        interface_problem(names[i], indices[i]).len() == 1,
        interface_problems(names, indices).contains(interface_problem(names[i], indices[i])[0]),
    decreases names.len(),
{
    let all = interface_problems(names, indices);
    let front = interface_problems(names.drop_last(), indices.drop_last());
    if i == names.len() - 1 {
        assert(all[front.len() as int] == interface_problem(names[i], indices[i])[0]);
    } else {
        assert(names.drop_last()[i] == names[i]);
        assert(indices.drop_last()[i] == indices[i]);
        lemma_interface_listed(names.drop_last(), indices.drop_last(), i);
        let j = choose|j: int| 0 <= j < front.len() && front[j] == interface_problem(names[i], indices[i])[0];
        assert(all[j] == front[j]);
    }
}

/// Every invalid item of every list is reported under its own list: a
/// range with start > end in any of the four port lists, an entry that
/// fails its parser in any IPv4 range, IPv6 range, IPv6 address or MAC
/// list of either direction, and an unusable interface each put their
/// line into the problems, so `validate` fails on them.
pub proof fn law_validate_reports_every_invalid_item(c: ACLConfig, indices: Seq<u32>)
    requires
        indices.len() == c.interfaces.names.len(),
    ensures
        forall|i: int| 0 <= i < c.ingress.tcp_rules.blocked_source_ranges@.len() && c.ingress.tcp_rules.blocked_source_ranges@[i].start > c.ingress.tcp_rules.blocked_source_ranges@[i].end
            ==> #[trigger] config_problems(c, indices).contains(inverted_range_line("ingress.tcp_rules"@, c.ingress.tcp_rules.blocked_source_ranges@[i])),
        forall|i: int| 0 <= i < c.ingress.udp_rules.blocked_source_ranges@.len() && c.ingress.udp_rules.blocked_source_ranges@[i].start > c.ingress.udp_rules.blocked_source_ranges@[i].end
            ==> #[trigger] config_problems(c, indices).contains(inverted_range_line("ingress.udp_rules"@, c.ingress.udp_rules.blocked_source_ranges@[i])),
        forall|i: int| 0 <= i < c.engress.tcp_rules.blocked_destination_ranges@.len() && c.engress.tcp_rules.blocked_destination_ranges@[i].start > c.engress.tcp_rules.blocked_destination_ranges@[i].end
            ==> #[trigger] config_problems(c, indices).contains(inverted_range_line("engress.tcp_rules"@, c.engress.tcp_rules.blocked_destination_ranges@[i])),
        forall|i: int| 0 <= i < c.engress.udp_rules.blocked_destination_ranges@.len() && c.engress.udp_rules.blocked_destination_ranges@[i].start > c.engress.udp_rules.blocked_destination_ranges@[i].end
            ==> #[trigger] config_problems(c, indices).contains(inverted_range_line("engress.udp_rules"@, c.engress.udp_rules.blocked_destination_ranges@[i])),
        forall|i: int| 0 <= i < texts(c.ingress.ipv4_rules.blocked_source_ranges@).len() && !entry_valid(EntryKind::Cidr4, texts(c.ingress.ipv4_rules.blocked_source_ranges@)[i])
            ==> #[trigger] config_problems(c, indices).contains(entry_problem(EntryKind::Cidr4, "ingress.ipv4_rules"@, texts(c.ingress.ipv4_rules.blocked_source_ranges@)[i])[0]),
        forall|i: int| 0 <= i < texts(c.ingress.ipv6_rules.blocked_source_ranges@).len() && !entry_valid(EntryKind::Cidr6, texts(c.ingress.ipv6_rules.blocked_source_ranges@)[i])
            ==> #[trigger] config_problems(c, indices).contains(entry_problem(EntryKind::Cidr6, "ingress.ipv6_rules"@, texts(c.ingress.ipv6_rules.blocked_source_ranges@)[i])[0]),
        forall|i: int| 0 <= i < texts(c.ingress.ipv6_rules.blocked_source_ips@).len() && !entry_valid(EntryKind::Ipv6Address, texts(c.ingress.ipv6_rules.blocked_source_ips@)[i])
            ==> #[trigger] config_problems(c, indices).contains(entry_problem(EntryKind::Ipv6Address, "ingress.ipv6_rules"@, texts(c.ingress.ipv6_rules.blocked_source_ips@)[i])[0]),
        forall|i: int| 0 <= i < texts(c.engress.ipv4_rules.blocked_destination_ranges@).len() && !entry_valid(EntryKind::Cidr4, texts(c.engress.ipv4_rules.blocked_destination_ranges@)[i])
            ==> #[trigger] config_problems(c, indices).contains(entry_problem(EntryKind::Cidr4, "engress.ipv4_rules"@, texts(c.engress.ipv4_rules.blocked_destination_ranges@)[i])[0]),
        forall|i: int| 0 <= i < texts(c.engress.ipv6_rules.blocked_destination_ranges@).len() && !entry_valid(EntryKind::Cidr6, texts(c.engress.ipv6_rules.blocked_destination_ranges@)[i])
            ==> #[trigger] config_problems(c, indices).contains(entry_problem(EntryKind::Cidr6, "engress.ipv6_rules"@, texts(c.engress.ipv6_rules.blocked_destination_ranges@)[i])[0]),
        forall|i: int| 0 <= i < texts(c.engress.ipv6_rules.blocked_destination_ips@).len() && !entry_valid(EntryKind::Ipv6Address, texts(c.engress.ipv6_rules.blocked_destination_ips@)[i])
            ==> #[trigger] config_problems(c, indices).contains(entry_problem(EntryKind::Ipv6Address, "engress.ipv6_rules"@, texts(c.engress.ipv6_rules.blocked_destination_ips@)[i])[0]),
        forall|i: int| 0 <= i < texts(c.ingress.mac_rules.blocked_source_macs@).len() && !entry_valid(EntryKind::Mac, texts(c.ingress.mac_rules.blocked_source_macs@)[i])
            ==> #[trigger] config_problems(c, indices).contains(entry_problem(EntryKind::Mac, "ingress.mac_rules"@, texts(c.ingress.mac_rules.blocked_source_macs@)[i])[0]),
        forall|i: int| 0 <= i < texts(c.engress.mac_rules.blocked_destination_macs@).len() && !entry_valid(EntryKind::Mac, texts(c.engress.mac_rules.blocked_destination_macs@)[i])
            ==> #[trigger] config_problems(c, indices).contains(entry_problem(EntryKind::Mac, "engress.mac_rules"@, texts(c.engress.mac_rules.blocked_destination_macs@)[i])[0]),
        forall|i: int| 0 <= i < c.interfaces.names@.len() && !interface_valid(texts(c.interfaces.names@)[i], indices[i])
            ==> #[trigger] config_problems(c, indices).contains(interface_problem(texts(c.interfaces.names@)[i], indices[i])[0]),
        !config_valid(c, indices) ==> config_problems(c, indices).len() > 0,
{
    broadcast use vstd::seq_lib::lemma_seq_concat_contains_all_elements;
    assert forall|i: int| 0 <= i < c.ingress.tcp_rules.blocked_source_ranges@.len() && c.ingress.tcp_rules.blocked_source_ranges@[i].start > c.ingress.tcp_rules.blocked_source_ranges@[i].end
        implies #[trigger] config_problems(c, indices).contains(inverted_range_line("ingress.tcp_rules"@, c.ingress.tcp_rules.blocked_source_ranges@[i])) by {
        lemma_range_listed("ingress.tcp_rules"@, c.ingress.tcp_rules.blocked_source_ranges@, i);
    }
    assert forall|i: int| 0 <= i < c.ingress.udp_rules.blocked_source_ranges@.len() && c.ingress.udp_rules.blocked_source_ranges@[i].start > c.ingress.udp_rules.blocked_source_ranges@[i].end
        implies #[trigger] config_problems(c, indices).contains(inverted_range_line("ingress.udp_rules"@, c.ingress.udp_rules.blocked_source_ranges@[i])) by {
        lemma_range_listed("ingress.udp_rules"@, c.ingress.udp_rules.blocked_source_ranges@, i);
    }
    assert forall|i: int| 0 <= i < c.engress.tcp_rules.blocked_destination_ranges@.len() && c.engress.tcp_rules.blocked_destination_ranges@[i].start > c.engress.tcp_rules.blocked_destination_ranges@[i].end
        implies #[trigger] config_problems(c, indices).contains(inverted_range_line("engress.tcp_rules"@, c.engress.tcp_rules.blocked_destination_ranges@[i])) by {
        lemma_range_listed("engress.tcp_rules"@, c.engress.tcp_rules.blocked_destination_ranges@, i);
    }
    assert forall|i: int| 0 <= i < c.engress.udp_rules.blocked_destination_ranges@.len() && c.engress.udp_rules.blocked_destination_ranges@[i].start > c.engress.udp_rules.blocked_destination_ranges@[i].end
        implies #[trigger] config_problems(c, indices).contains(inverted_range_line("engress.udp_rules"@, c.engress.udp_rules.blocked_destination_ranges@[i])) by {
        lemma_range_listed("engress.udp_rules"@, c.engress.udp_rules.blocked_destination_ranges@, i);
    }
    assert forall|i: int| 0 <= i < texts(c.ingress.ipv4_rules.blocked_source_ranges@).len() && !entry_valid(EntryKind::Cidr4, texts(c.ingress.ipv4_rules.blocked_source_ranges@)[i])
        implies #[trigger] config_problems(c, indices).contains(entry_problem(EntryKind::Cidr4, "ingress.ipv4_rules"@, texts(c.ingress.ipv4_rules.blocked_source_ranges@)[i])[0]) by {
        lemma_entry_listed(EntryKind::Cidr4, "ingress.ipv4_rules"@, texts(c.ingress.ipv4_rules.blocked_source_ranges@), i);
    }
    assert forall|i: int| 0 <= i < texts(c.ingress.ipv6_rules.blocked_source_ranges@).len() && !entry_valid(EntryKind::Cidr6, texts(c.ingress.ipv6_rules.blocked_source_ranges@)[i])
        implies #[trigger] config_problems(c, indices).contains(entry_problem(EntryKind::Cidr6, "ingress.ipv6_rules"@, texts(c.ingress.ipv6_rules.blocked_source_ranges@)[i])[0]) by {
        lemma_entry_listed(EntryKind::Cidr6, "ingress.ipv6_rules"@, texts(c.ingress.ipv6_rules.blocked_source_ranges@), i);
    }
    assert forall|i: int| 0 <= i < texts(c.ingress.ipv6_rules.blocked_source_ips@).len() && !entry_valid(EntryKind::Ipv6Address, texts(c.ingress.ipv6_rules.blocked_source_ips@)[i])
        implies #[trigger] config_problems(c, indices).contains(entry_problem(EntryKind::Ipv6Address, "ingress.ipv6_rules"@, texts(c.ingress.ipv6_rules.blocked_source_ips@)[i])[0]) by {
        lemma_entry_listed(EntryKind::Ipv6Address, "ingress.ipv6_rules"@, texts(c.ingress.ipv6_rules.blocked_source_ips@), i);
    }
    assert forall|i: int| 0 <= i < texts(c.engress.ipv4_rules.blocked_destination_ranges@).len() && !entry_valid(EntryKind::Cidr4, texts(c.engress.ipv4_rules.blocked_destination_ranges@)[i])
        implies #[trigger] config_problems(c, indices).contains(entry_problem(EntryKind::Cidr4, "engress.ipv4_rules"@, texts(c.engress.ipv4_rules.blocked_destination_ranges@)[i])[0]) by {
        lemma_entry_listed(EntryKind::Cidr4, "engress.ipv4_rules"@, texts(c.engress.ipv4_rules.blocked_destination_ranges@), i);
    }
    assert forall|i: int| 0 <= i < texts(c.engress.ipv6_rules.blocked_destination_ranges@).len() && !entry_valid(EntryKind::Cidr6, texts(c.engress.ipv6_rules.blocked_destination_ranges@)[i])
        implies #[trigger] config_problems(c, indices).contains(entry_problem(EntryKind::Cidr6, "engress.ipv6_rules"@, texts(c.engress.ipv6_rules.blocked_destination_ranges@)[i])[0]) by {
        lemma_entry_listed(EntryKind::Cidr6, "engress.ipv6_rules"@, texts(c.engress.ipv6_rules.blocked_destination_ranges@), i);
    }
    assert forall|i: int| 0 <= i < texts(c.engress.ipv6_rules.blocked_destination_ips@).len() && !entry_valid(EntryKind::Ipv6Address, texts(c.engress.ipv6_rules.blocked_destination_ips@)[i])
        implies #[trigger] config_problems(c, indices).contains(entry_problem(EntryKind::Ipv6Address, "engress.ipv6_rules"@, texts(c.engress.ipv6_rules.blocked_destination_ips@)[i])[0]) by {
        lemma_entry_listed(EntryKind::Ipv6Address, "engress.ipv6_rules"@, texts(c.engress.ipv6_rules.blocked_destination_ips@), i);
    }
    assert forall|i: int| 0 <= i < texts(c.ingress.mac_rules.blocked_source_macs@).len() && !entry_valid(EntryKind::Mac, texts(c.ingress.mac_rules.blocked_source_macs@)[i])
        implies #[trigger] config_problems(c, indices).contains(entry_problem(EntryKind::Mac, "ingress.mac_rules"@, texts(c.ingress.mac_rules.blocked_source_macs@)[i])[0]) by {
        lemma_entry_listed(EntryKind::Mac, "ingress.mac_rules"@, texts(c.ingress.mac_rules.blocked_source_macs@), i);
    }
    assert forall|i: int| 0 <= i < texts(c.engress.mac_rules.blocked_destination_macs@).len() && !entry_valid(EntryKind::Mac, texts(c.engress.mac_rules.blocked_destination_macs@)[i])
        implies #[trigger] config_problems(c, indices).contains(entry_problem(EntryKind::Mac, "engress.mac_rules"@, texts(c.engress.mac_rules.blocked_destination_macs@)[i])[0]) by {
        lemma_entry_listed(EntryKind::Mac, "engress.mac_rules"@, texts(c.engress.mac_rules.blocked_destination_macs@), i);
    }
    assert forall|i: int| 0 <= i < c.interfaces.names@.len() && !interface_valid(texts(c.interfaces.names@)[i], indices[i])
        implies #[trigger] config_problems(c, indices).contains(interface_problem(texts(c.interfaces.names@)[i], indices[i])[0]) by {
        lemma_interface_listed(texts(c.interfaces.names@), indices, i);
    }
    lemma_config_problems(c, indices);
}

/// A configuration whose port ranges all run upwards, whose IPv4 ranges,
/// IPv6 ranges, IPv6 addresses and MACs all parse, and whose interfaces
/// are all named, NUL-free and known to the kernel has no problem, so
/// `validate` accepts it, whatever its switches say.
pub proof fn law_validate_accepts_clean_configs(c: ACLConfig, indices: Seq<u32>)
    requires
        indices.len() == c.interfaces.names.len(),
        forall|i: int| 0 <= i < c.ingress.tcp_rules.blocked_source_ranges@.len() ==> (#[trigger] c.ingress.tcp_rules.blocked_source_ranges@[i]).start <= c.ingress.tcp_rules.blocked_source_ranges@[i].end,
        forall|i: int| 0 <= i < c.ingress.udp_rules.blocked_source_ranges@.len() ==> (#[trigger] c.ingress.udp_rules.blocked_source_ranges@[i]).start <= c.ingress.udp_rules.blocked_source_ranges@[i].end,
        forall|i: int| 0 <= i < c.engress.tcp_rules.blocked_destination_ranges@.len() ==> (#[trigger] c.engress.tcp_rules.blocked_destination_ranges@[i]).start <= c.engress.tcp_rules.blocked_destination_ranges@[i].end,
        forall|i: int| 0 <= i < c.engress.udp_rules.blocked_destination_ranges@.len() ==> (#[trigger] c.engress.udp_rules.blocked_destination_ranges@[i]).start <= c.engress.udp_rules.blocked_destination_ranges@[i].end,
        forall|i: int| 0 <= i < c.ingress.ipv4_rules.blocked_source_ranges@.len() ==> ({ let t = (#[trigger] c.ingress.ipv4_rules.blocked_source_ranges@[i])@; cidr4_result(t) is Ok }),
        forall|i: int| 0 <= i < c.ingress.ipv6_rules.blocked_source_ranges@.len() ==> ({ let t = (#[trigger] c.ingress.ipv6_rules.blocked_source_ranges@[i])@; cidr6_result(t) is Ok }),
        forall|i: int| 0 <= i < c.ingress.ipv6_rules.blocked_source_ips@.len() ==> ({ let t = (#[trigger] c.ingress.ipv6_rules.blocked_source_ips@[i])@; ipv6_address_result(t, ipv6_from_text(t)) is Ok }),
        forall|i: int| 0 <= i < c.engress.ipv4_rules.blocked_destination_ranges@.len() ==> ({ let t = (#[trigger] c.engress.ipv4_rules.blocked_destination_ranges@[i])@; cidr4_result(t) is Ok }),
        forall|i: int| 0 <= i < c.engress.ipv6_rules.blocked_destination_ranges@.len() ==> ({ let t = (#[trigger] c.engress.ipv6_rules.blocked_destination_ranges@[i])@; cidr6_result(t) is Ok }),
        forall|i: int| 0 <= i < c.engress.ipv6_rules.blocked_destination_ips@.len() ==> ({ let t = (#[trigger] c.engress.ipv6_rules.blocked_destination_ips@[i])@; ipv6_address_result(t, ipv6_from_text(t)) is Ok }),
        forall|i: int| 0 <= i < c.ingress.mac_rules.blocked_source_macs@.len() ==> ({ let t = (#[trigger] c.ingress.mac_rules.blocked_source_macs@[i])@; mac_result(t) is Ok }),
        forall|i: int| 0 <= i < c.engress.mac_rules.blocked_destination_macs@.len() ==> ({ let t = (#[trigger] c.engress.mac_rules.blocked_destination_macs@[i])@; mac_result(t) is Ok }),
        forall|i: int| 0 <= i < c.interfaces.names@.len() ==> ({ let n = (#[trigger] c.interfaces.names@[i])@; n.len() > 0 && !n.contains('\0') && indices[i] != 0 }),
    ensures
        config_problems(c, indices).len() == 0,
{
    assert(ranges_valid(c.ingress.tcp_rules.blocked_source_ranges@));
    assert(ranges_valid(c.ingress.udp_rules.blocked_source_ranges@));
    assert(ranges_valid(c.engress.tcp_rules.blocked_destination_ranges@));
    assert(ranges_valid(c.engress.udp_rules.blocked_destination_ranges@));
    assert forall|i: int| 0 <= i < texts(c.ingress.ipv4_rules.blocked_source_ranges@).len() implies #[trigger] texts(c.ingress.ipv4_rules.blocked_source_ranges@)[i] == c.ingress.ipv4_rules.blocked_source_ranges@[i]@ by {}
    assert forall|i: int| 0 <= i < texts(c.ingress.ipv6_rules.blocked_source_ranges@).len() implies #[trigger] texts(c.ingress.ipv6_rules.blocked_source_ranges@)[i] == c.ingress.ipv6_rules.blocked_source_ranges@[i]@ by {}
    assert forall|i: int| 0 <= i < texts(c.ingress.ipv6_rules.blocked_source_ips@).len() implies #[trigger] texts(c.ingress.ipv6_rules.blocked_source_ips@)[i] == c.ingress.ipv6_rules.blocked_source_ips@[i]@ by {}
    assert forall|i: int| 0 <= i < texts(c.engress.ipv4_rules.blocked_destination_ranges@).len() implies #[trigger] texts(c.engress.ipv4_rules.blocked_destination_ranges@)[i] == c.engress.ipv4_rules.blocked_destination_ranges@[i]@ by {}
    assert forall|i: int| 0 <= i < texts(c.engress.ipv6_rules.blocked_destination_ranges@).len() implies #[trigger] texts(c.engress.ipv6_rules.blocked_destination_ranges@)[i] == c.engress.ipv6_rules.blocked_destination_ranges@[i]@ by {}
    assert forall|i: int| 0 <= i < texts(c.engress.ipv6_rules.blocked_destination_ips@).len() implies #[trigger] texts(c.engress.ipv6_rules.blocked_destination_ips@)[i] == c.engress.ipv6_rules.blocked_destination_ips@[i]@ by {}
    assert forall|i: int| 0 <= i < texts(c.ingress.mac_rules.blocked_source_macs@).len() implies #[trigger] texts(c.ingress.mac_rules.blocked_source_macs@)[i] == c.ingress.mac_rules.blocked_source_macs@[i]@ by {}
    assert forall|i: int| 0 <= i < texts(c.engress.mac_rules.blocked_destination_macs@).len() implies #[trigger] texts(c.engress.mac_rules.blocked_destination_macs@)[i] == c.engress.mac_rules.blocked_destination_macs@[i]@ by {}
    assert forall|i: int| 0 <= i < texts(c.interfaces.names@).len() implies #[trigger] texts(c.interfaces.names@)[i] == c.interfaces.names@[i]@ by {}
    lemma_config_problems(c, indices);
}

} // verus!
