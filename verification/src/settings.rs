//! In-memory editing of the loaded `ACLConfig`, as the Settings section of
//! the terminal UI drives it: switches that flip, lists that grow and
//! shrink, and the interface selection.
use vstd::prelude::*;
use vstd::string::*;
use crate::config::{
    cidr4_result, cidr6_result, ipv4_address_window, ipv6_address_result, ipv6_from_text,
    ipv4_octet, mac_result, parse_ipv4_address, parse_ipv4_cidr, parse_ipv4_text, parse_ipv6_address, parse_ipv6_cidr,
    parse_mac_address, texts, ACLConfig, Range,
};
use crate::text::{
    is_first_at, lemma_decimal, lemma_first_at_unique, lemma_parse_decimal, lemma_trim_decimal,
    find_char, chars_of, decimal, find_in_window, parse_unsigned, parse_unsigned_window, push_char,
    push_decimal, push_window, split_once, string_of_window, trim, trim_window, trimmed, window,
    digit_char, split, trim_start, trim_end, lemma_split_cons, lemma_split_without, without_plus, digit_in,
    digits_value,
};

verus! {

// ---------------------------------------------------------------------------
// Interface selection
// ---------------------------------------------------------------------------

#[derive(Debug, Clone)]
pub struct InterfaceSelection {
    pub available: Vec<String>,
    pub selected: Vec<String>,
}

impl Default for InterfaceSelection {
    fn default() -> (r: Self)
        ensures
            r.available@.len() == 0,
            r.selected@.len() == 0,
    {
        InterfaceSelection { available: Vec::new(), selected: Vec::new() }
    }
}

/// `i` is the position of the first `x` in `s`.
pub open spec fn is_first_index<T>(s: Seq<T>, x: T, i: int) -> bool {
    &&& 0 <= i < s.len()
    &&& s[i] == x
    &&& forall|j: int| 0 <= j < i ==> s[j] != x
}

/// The position of the first `x` in `s`, if any.
pub open spec fn first_index<T>(s: Seq<T>, x: T) -> Option<int> {
    if exists|i: int| is_first_index(s, x, i) {
        Some(choose|i: int| is_first_index(s, x, i))
    } else {
        None
    }
}

/// The message a toggle that would exceed the selection limit fails with.
pub open spec fn selection_full_message() -> Seq<char> {
    "at most "@ + decimal(InterfaceSelection::MAX_SELECTED as nat)
        + " interfaces can be selected at once"@
}

/// What `toggle(name)` does to the selected names `before`: `after` is what
/// they become, and `ok` whether the toggle succeeded.
pub open spec fn toggled_selection(before: Seq<Seq<char>>, name: Seq<char>, after: Seq<Seq<char>>, ok: bool) -> bool {
    match first_index(before, name) {
        Some(pos) => ok && after == before.remove(pos),
        None => if before.len() >= InterfaceSelection::MAX_SELECTED {
            !ok && after == before
        } else {
            ok && after == before.push(name)
        },
    }
}

impl InterfaceSelection {
    pub const MAX_SELECTED: usize = 2;

    /// Selects `name`, or deselects it when it is selected already. At most
    /// `MAX_SELECTED` interfaces can be selected at once.
    pub fn toggle(&mut self, name: &str) -> (r: Result<(), String>)
        ensures
            final(self).available@ == old(self).available@,
            toggled_selection(texts(old(self).selected@), name@, texts(final(self).selected@), r is Ok),
            r matches Err(m) ==> m@ == selection_full_message(),
    {
        let ghost before = texts(self.selected@);
        let wanted = String::from_str(name);
        let mut i: usize = 0;
        while i < self.selected.len()
            invariant
                i <= self.selected.len(),
                self.available@ == old(self).available@,
                self.selected@ == old(self).selected@,
                before == texts(self.selected@),
                wanted@ == name@,
                forall|j: int| 0 <= j < i ==> before[j] != name@,
            decreases self.selected.len() - i,
        {
            if self.selected[i] == wanted {
                proof {
                    assert(is_first_index(before, name@, i as int));
                    let k = choose|k: int| is_first_index(before, name@, k);
                    if k < i {
                        assert(before[k] != name@);
                    } else if i < k {
                        assert(before[i as int] != name@);
                    }
                }
                self.selected.remove(i);
                assert(texts(self.selected@) =~= before.remove(i as int));
                return Ok(());
            }
            i = i + 1;
        }
        assert(!exists|k: int| is_first_index(before, name@, k));
        if self.selected.len() >= Self::MAX_SELECTED {
            let mut m = String::from_str("at most ");
            push_decimal(&mut m, Self::MAX_SELECTED as u32);
            m.append(" interfaces can be selected at once");
            return Err(m);
        }
        self.selected.push(wanted);
        assert(texts(self.selected@) =~= before.push(name@));
        Ok(())
    }
}

// ---------------------------------------------------------------------------
// Directions, protocols and fields
// ---------------------------------------------------------------------------

#[derive(Debug, Clone, Copy, PartialEq, Eq, Hash, Structural)]
pub enum Direction {
    Ingress,
    Engress,
}

impl Direction {
    pub const ALL: [Direction; 2] = [Direction::Ingress, Direction::Engress];

    pub fn label(self) -> (r: &'static str)
        ensures
            r@ == direction_label(self),
    {
        match self {
            Direction::Ingress => "Ingress",
            Direction::Engress => "Engress",
        }
    }
}

/// The display name of a direction.
pub open spec fn direction_label(d: Direction) -> Seq<char> {
    match d {
        Direction::Ingress => "Ingress"@,
        Direction::Engress => "Engress"@,
    }
}

#[derive(Debug, Clone, Copy, PartialEq, Eq, Hash, Structural)]
pub enum Proto {
    Tcp,
    Udp,
}

/// An on/off setting of the configuration.
#[derive(Debug, Clone, Copy, PartialEq, Eq, Structural)]
pub enum BoolField {
    EnableRules(Direction),
    EnablePortRules(Direction, Proto),
    EnableIpRules(Direction),
    EnableIpv6Rules(Direction),
    DisableLoopback(Direction),
    DisableLoopback6(Direction),
    EnableMacRules(Direction),
    EnableIpRateLimit(Direction),
    EnablePortRateLimit(Direction),
}

/// The value of the switch `f` in `c`.
pub open spec fn bool_value(f: BoolField, c: ACLConfig) -> bool {
    match f {
        BoolField::EnableRules(Direction::Ingress) => c.ingress.enable_rules,
        BoolField::EnableRules(Direction::Engress) => c.engress.enable_rules,
        BoolField::EnablePortRules(Direction::Ingress, Proto::Tcp) => c.ingress.tcp_rules.enable_port_rules,
        BoolField::EnablePortRules(Direction::Ingress, Proto::Udp) => c.ingress.udp_rules.enable_port_rules,
        BoolField::EnablePortRules(Direction::Engress, Proto::Tcp) => c.engress.tcp_rules.enable_port_rules,
        BoolField::EnablePortRules(Direction::Engress, Proto::Udp) => c.engress.udp_rules.enable_port_rules,
        BoolField::EnableIpRules(Direction::Ingress) => c.ingress.ipv4_rules.enable_ip_rules,
        BoolField::EnableIpRules(Direction::Engress) => c.engress.ipv4_rules.enable_ip_rules,
        BoolField::EnableIpv6Rules(Direction::Ingress) => c.ingress.ipv6_rules.enable_ip_rules,
        BoolField::EnableIpv6Rules(Direction::Engress) => c.engress.ipv6_rules.enable_ip_rules,
        BoolField::DisableLoopback(Direction::Ingress) => c.ingress.ipv4_rules.disable_loopback,
        BoolField::DisableLoopback(Direction::Engress) => c.engress.ipv4_rules.disable_loopback,
        BoolField::DisableLoopback6(Direction::Ingress) => c.ingress.ipv6_rules.disable_loopback,
        BoolField::DisableLoopback6(Direction::Engress) => c.engress.ipv6_rules.disable_loopback,
        BoolField::EnableMacRules(Direction::Ingress) => c.ingress.mac_rules.enable_mac_rules,
        BoolField::EnableMacRules(Direction::Engress) => c.engress.mac_rules.enable_mac_rules,
        BoolField::EnableIpRateLimit(Direction::Ingress) => c.ingress.rate_limit.enable_ip_rate_limit,
        BoolField::EnableIpRateLimit(Direction::Engress) => c.engress.rate_limit.enable_ip_rate_limit,
        BoolField::EnablePortRateLimit(Direction::Ingress) => c.ingress.rate_limit.enable_port_rate_limit,
        BoolField::EnablePortRateLimit(Direction::Engress) => c.engress.rate_limit.enable_port_rate_limit,
    }
}

/// Every switch of `c`, by field.
pub open spec fn switches(c: ACLConfig) -> Map<BoolField, bool> {
    Map::total(|f: BoolField| bool_value(f, c))
}

/// A list of blocked things in the configuration.
#[derive(Debug, Clone, Copy, PartialEq, Eq, Structural)]
pub enum ListField {
    BlockedPorts(Direction, Proto),
    BlockedPortRanges(Direction, Proto),
    BlockedIps(Direction),
    BlockedIps6(Direction),
    BlockedCidrRanges(Direction),
    BlockedCidrRanges6(Direction),
    BlockedMacs(Direction),
}

/// One entry of a rule list: a port, a port range, an IPv4 address as a
/// number, or a text (an IPv6 address, a CIDR range or a MAC address).
pub enum ListEntry {
    Port(u16),
    PortRange(Range),
    Ipv4(u32),
    Text(Seq<char>),
}

pub open spec fn port_entries(v: Seq<u16>) -> Seq<ListEntry> {
    v.map_values(|p: u16| ListEntry::Port(p))
}

pub open spec fn range_entries(v: Seq<Range>) -> Seq<ListEntry> {
    v.map_values(|r: Range| ListEntry::PortRange(r))
}

pub open spec fn ipv4_entries(v: Seq<u32>) -> Seq<ListEntry> {
    v.map_values(|ip: u32| ListEntry::Ipv4(ip))
}

pub open spec fn text_entries(v: Seq<String>) -> Seq<ListEntry> {
    v.map_values(|s: String| ListEntry::Text(s@))
}

/// The entries of the list `f` in `c`.
pub open spec fn list_entries(f: ListField, c: ACLConfig) -> Seq<ListEntry> {
    match f {
        ListField::BlockedPorts(Direction::Ingress, Proto::Tcp) => port_entries(c.ingress.tcp_rules.blocked_source_ports@),
        ListField::BlockedPorts(Direction::Ingress, Proto::Udp) => port_entries(c.ingress.udp_rules.blocked_source_ports@),
        ListField::BlockedPorts(Direction::Engress, Proto::Tcp) => port_entries(c.engress.tcp_rules.blocked_destination_ports@),
        ListField::BlockedPorts(Direction::Engress, Proto::Udp) => port_entries(c.engress.udp_rules.blocked_destination_ports@),
        ListField::BlockedPortRanges(Direction::Ingress, Proto::Tcp) => range_entries(c.ingress.tcp_rules.blocked_source_ranges@),
        ListField::BlockedPortRanges(Direction::Ingress, Proto::Udp) => range_entries(c.ingress.udp_rules.blocked_source_ranges@),
        ListField::BlockedPortRanges(Direction::Engress, Proto::Tcp) => range_entries(c.engress.tcp_rules.blocked_destination_ranges@),
        ListField::BlockedPortRanges(Direction::Engress, Proto::Udp) => range_entries(c.engress.udp_rules.blocked_destination_ranges@),
        ListField::BlockedIps(Direction::Ingress) => ipv4_entries(c.ingress.ipv4_rules.blocked_source_ips@),
        ListField::BlockedIps(Direction::Engress) => ipv4_entries(c.engress.ipv4_rules.blocked_destination_ips@),
        ListField::BlockedIps6(Direction::Ingress) => text_entries(c.ingress.ipv6_rules.blocked_source_ips@),
        ListField::BlockedIps6(Direction::Engress) => text_entries(c.engress.ipv6_rules.blocked_destination_ips@),
        ListField::BlockedCidrRanges(Direction::Ingress) => text_entries(c.ingress.ipv4_rules.blocked_source_ranges@),
        ListField::BlockedCidrRanges(Direction::Engress) => text_entries(c.engress.ipv4_rules.blocked_destination_ranges@),
        ListField::BlockedCidrRanges6(Direction::Ingress) => text_entries(c.ingress.ipv6_rules.blocked_source_ranges@),
        ListField::BlockedCidrRanges6(Direction::Engress) => text_entries(c.engress.ipv6_rules.blocked_destination_ranges@),
        ListField::BlockedMacs(Direction::Ingress) => text_entries(c.ingress.mac_rules.blocked_source_macs@),
        ListField::BlockedMacs(Direction::Engress) => text_entries(c.engress.mac_rules.blocked_destination_macs@),
    }
}

/// Every rule list of `c`, by field.
pub open spec fn lists(c: ACLConfig) -> Map<ListField, Seq<ListEntry>> {
    Map::total(|f: ListField| list_entries(f, c))
}

/// The settings that are neither switches nor rule lists: the rate limits
/// and the configured interfaces.
pub open spec fn same_other_settings(a: ACLConfig, b: ACLConfig) -> bool {
    &&& a.ingress.rate_limit.ip_rate_limit_pps == b.ingress.rate_limit.ip_rate_limit_pps
    &&& a.ingress.rate_limit.port_rate_limit_pps == b.ingress.rate_limit.port_rate_limit_pps
    &&& a.engress.rate_limit.ip_rate_limit_pps == b.engress.rate_limit.ip_rate_limit_pps
    &&& a.engress.rate_limit.port_rate_limit_pps == b.engress.rate_limit.port_rate_limit_pps
    &&& a.interfaces.names@ == b.interfaces.names@
}

/// `after` is `before` with the switch `f` flipped and nothing else changed.
pub open spec fn toggled(f: BoolField, before: ACLConfig, after: ACLConfig) -> bool {
    &&& switches(after) == switches(before).insert(f, !bool_value(f, before))
    &&& lists(after) == lists(before)
    &&& same_other_settings(before, after)
}

/// `after` is `before` with entry `index` of the list `f` removed and
/// nothing else changed.
pub open spec fn removed(f: ListField, index: int, before: ACLConfig, after: ACLConfig) -> bool {
    &&& lists(after) == lists(before).insert(f, list_entries(f, before).remove(index))
    &&& switches(after) == switches(before)
    &&& same_other_settings(before, after)
}

/// `after` is `before` with `e` appended to the list `f` and nothing else
/// changed.
pub open spec fn added(f: ListField, e: ListEntry, before: ACLConfig, after: ACLConfig) -> bool {
    &&& lists(after) == lists(before).insert(f, list_entries(f, before).push(e))
    &&& switches(after) == switches(before)
    &&& same_other_settings(before, after)
}

impl BoolField {
    /// The current value of this switch.
    pub fn get(self, config: &ACLConfig) -> (r: bool)
        ensures
            r == bool_value(self, *config),
    {
        match self {
            BoolField::EnableRules(Direction::Ingress) => config.ingress.enable_rules,
            BoolField::EnableRules(Direction::Engress) => config.engress.enable_rules,
            BoolField::EnablePortRules(Direction::Ingress, Proto::Tcp) => config.ingress.tcp_rules.enable_port_rules,
            BoolField::EnablePortRules(Direction::Ingress, Proto::Udp) => config.ingress.udp_rules.enable_port_rules,
            BoolField::EnablePortRules(Direction::Engress, Proto::Tcp) => config.engress.tcp_rules.enable_port_rules,
            BoolField::EnablePortRules(Direction::Engress, Proto::Udp) => config.engress.udp_rules.enable_port_rules,
            BoolField::EnableIpRules(Direction::Ingress) => config.ingress.ipv4_rules.enable_ip_rules,
            BoolField::EnableIpRules(Direction::Engress) => config.engress.ipv4_rules.enable_ip_rules,
            BoolField::EnableIpv6Rules(Direction::Ingress) => config.ingress.ipv6_rules.enable_ip_rules,
            BoolField::EnableIpv6Rules(Direction::Engress) => config.engress.ipv6_rules.enable_ip_rules,
            BoolField::DisableLoopback(Direction::Ingress) => config.ingress.ipv4_rules.disable_loopback,
            BoolField::DisableLoopback(Direction::Engress) => config.engress.ipv4_rules.disable_loopback,
            BoolField::DisableLoopback6(Direction::Ingress) => config.ingress.ipv6_rules.disable_loopback,
            BoolField::DisableLoopback6(Direction::Engress) => config.engress.ipv6_rules.disable_loopback,
            BoolField::EnableMacRules(Direction::Ingress) => config.ingress.mac_rules.enable_mac_rules,
            BoolField::EnableMacRules(Direction::Engress) => config.engress.mac_rules.enable_mac_rules,
            BoolField::EnableIpRateLimit(Direction::Ingress) => config.ingress.rate_limit.enable_ip_rate_limit,
            BoolField::EnableIpRateLimit(Direction::Engress) => config.engress.rate_limit.enable_ip_rate_limit,
            BoolField::EnablePortRateLimit(Direction::Ingress) => config.ingress.rate_limit.enable_port_rate_limit,
            BoolField::EnablePortRateLimit(Direction::Engress) => config.engress.rate_limit.enable_port_rate_limit,
        }
    }

    /// Flips this switch, and nothing else.
    pub fn toggle(self, config: &mut ACLConfig)
        ensures
            toggled(self, *old(config), *final(config)),
    {
        match self {
            BoolField::EnableRules(dir) => toggle_enable_rules(dir, config),
            BoolField::EnablePortRules(dir, Proto::Tcp) => toggle_tcp_port_rules(dir, config),
            BoolField::EnablePortRules(dir, Proto::Udp) => toggle_udp_port_rules(dir, config),
            BoolField::EnableIpRules(dir) => toggle_ip_rules(dir, config),
            BoolField::EnableIpv6Rules(dir) => toggle_ipv6_rules(dir, config),
            BoolField::DisableLoopback(dir) => toggle_loopback(dir, config),
            BoolField::DisableLoopback6(dir) => toggle_loopback6(dir, config),
            BoolField::EnableMacRules(dir) => toggle_mac_rules(dir, config),
            BoolField::EnableIpRateLimit(dir) => toggle_ip_rate_limit(dir, config),
            BoolField::EnablePortRateLimit(dir) => toggle_port_rate_limit(dir, config),
        }
    }
}

fn toggle_enable_rules(dir: Direction, config: &mut ACLConfig)
    ensures
        toggled(BoolField::EnableRules(dir), *old(config), *final(config)),
{
    match dir {
        Direction::Ingress => config.ingress.enable_rules = !config.ingress.enable_rules,
        Direction::Engress => config.engress.enable_rules = !config.engress.enable_rules,
    }
    proof {
        assert(switches(*config) =~= switches(*old(config)).insert(BoolField::EnableRules(dir), !bool_value(BoolField::EnableRules(dir), *old(config))));
        assert(lists(*config) =~= lists(*old(config)));
    }
}

fn toggle_tcp_port_rules(dir: Direction, config: &mut ACLConfig)
    ensures
        toggled(BoolField::EnablePortRules(dir, Proto::Tcp), *old(config), *final(config)),
{
    match dir {
        Direction::Ingress => config.ingress.tcp_rules.enable_port_rules = !config.ingress.tcp_rules.enable_port_rules,
        Direction::Engress => config.engress.tcp_rules.enable_port_rules = !config.engress.tcp_rules.enable_port_rules,
    }
    proof {
        assert(switches(*config) =~= switches(*old(config)).insert(BoolField::EnablePortRules(dir, Proto::Tcp), !bool_value(BoolField::EnablePortRules(dir, Proto::Tcp), *old(config))));
        assert(lists(*config) =~= lists(*old(config)));
    }
}

fn toggle_udp_port_rules(dir: Direction, config: &mut ACLConfig)
    ensures
        toggled(BoolField::EnablePortRules(dir, Proto::Udp), *old(config), *final(config)),
{
    match dir {
        Direction::Ingress => config.ingress.udp_rules.enable_port_rules = !config.ingress.udp_rules.enable_port_rules,
        Direction::Engress => config.engress.udp_rules.enable_port_rules = !config.engress.udp_rules.enable_port_rules,
    }
    proof {
        assert(switches(*config) =~= switches(*old(config)).insert(BoolField::EnablePortRules(dir, Proto::Udp), !bool_value(BoolField::EnablePortRules(dir, Proto::Udp), *old(config))));
        assert(lists(*config) =~= lists(*old(config)));
    }
}


fn toggle_ip_rules(dir: Direction, config: &mut ACLConfig)
    ensures
        toggled(BoolField::EnableIpRules(dir), *old(config), *final(config)),
{
    match dir {
        Direction::Ingress => config.ingress.ipv4_rules.enable_ip_rules = !config.ingress.ipv4_rules.enable_ip_rules,
        Direction::Engress => config.engress.ipv4_rules.enable_ip_rules = !config.engress.ipv4_rules.enable_ip_rules,
    }
    proof {
        assert(switches(*config) =~= switches(*old(config)).insert(BoolField::EnableIpRules(dir), !bool_value(BoolField::EnableIpRules(dir), *old(config))));
        assert(lists(*config) =~= lists(*old(config)));
    }
}

fn toggle_ipv6_rules(dir: Direction, config: &mut ACLConfig)
    ensures
        toggled(BoolField::EnableIpv6Rules(dir), *old(config), *final(config)),
{
    match dir {
        Direction::Ingress => config.ingress.ipv6_rules.enable_ip_rules = !config.ingress.ipv6_rules.enable_ip_rules,
        Direction::Engress => config.engress.ipv6_rules.enable_ip_rules = !config.engress.ipv6_rules.enable_ip_rules,
    }
    proof {
        assert(switches(*config) =~= switches(*old(config)).insert(BoolField::EnableIpv6Rules(dir), !bool_value(BoolField::EnableIpv6Rules(dir), *old(config))));
        assert(lists(*config) =~= lists(*old(config)));
    }
}

fn toggle_loopback(dir: Direction, config: &mut ACLConfig)
    ensures
        toggled(BoolField::DisableLoopback(dir), *old(config), *final(config)),
{
    match dir {
        Direction::Ingress => config.ingress.ipv4_rules.disable_loopback = !config.ingress.ipv4_rules.disable_loopback,
        Direction::Engress => config.engress.ipv4_rules.disable_loopback = !config.engress.ipv4_rules.disable_loopback,
    }
    proof {
        assert(switches(*config) =~= switches(*old(config)).insert(BoolField::DisableLoopback(dir), !bool_value(BoolField::DisableLoopback(dir), *old(config))));
        assert(lists(*config) =~= lists(*old(config)));
    }
}

fn toggle_loopback6(dir: Direction, config: &mut ACLConfig)
    ensures
        toggled(BoolField::DisableLoopback6(dir), *old(config), *final(config)),
{
    match dir {
        Direction::Ingress => config.ingress.ipv6_rules.disable_loopback = !config.ingress.ipv6_rules.disable_loopback,
        Direction::Engress => config.engress.ipv6_rules.disable_loopback = !config.engress.ipv6_rules.disable_loopback,
    }
    proof {
        assert(switches(*config) =~= switches(*old(config)).insert(BoolField::DisableLoopback6(dir), !bool_value(BoolField::DisableLoopback6(dir), *old(config))));
        assert(lists(*config) =~= lists(*old(config)));
    }
}

fn toggle_mac_rules(dir: Direction, config: &mut ACLConfig)
    ensures
        toggled(BoolField::EnableMacRules(dir), *old(config), *final(config)),
{
    match dir {
        Direction::Ingress => config.ingress.mac_rules.enable_mac_rules = !config.ingress.mac_rules.enable_mac_rules,
        Direction::Engress => config.engress.mac_rules.enable_mac_rules = !config.engress.mac_rules.enable_mac_rules,
    }
    proof {
        assert(switches(*config) =~= switches(*old(config)).insert(BoolField::EnableMacRules(dir), !bool_value(BoolField::EnableMacRules(dir), *old(config))));
        assert(lists(*config) =~= lists(*old(config)));
    }
}

fn toggle_ip_rate_limit(dir: Direction, config: &mut ACLConfig)
    ensures
        toggled(BoolField::EnableIpRateLimit(dir), *old(config), *final(config)),
{
    match dir {
        Direction::Ingress => config.ingress.rate_limit.enable_ip_rate_limit = !config.ingress.rate_limit.enable_ip_rate_limit,
        Direction::Engress => config.engress.rate_limit.enable_ip_rate_limit = !config.engress.rate_limit.enable_ip_rate_limit,
    }
    proof {
        assert(switches(*config) =~= switches(*old(config)).insert(BoolField::EnableIpRateLimit(dir), !bool_value(BoolField::EnableIpRateLimit(dir), *old(config))));
        assert(lists(*config) =~= lists(*old(config)));
    }
}

fn toggle_port_rate_limit(dir: Direction, config: &mut ACLConfig)
    ensures
        toggled(BoolField::EnablePortRateLimit(dir), *old(config), *final(config)),
{
    match dir {
        Direction::Ingress => config.ingress.rate_limit.enable_port_rate_limit = !config.ingress.rate_limit.enable_port_rate_limit,
        Direction::Engress => config.engress.rate_limit.enable_port_rate_limit = !config.engress.rate_limit.enable_port_rate_limit,
    }
    proof {
        assert(switches(*config) =~= switches(*old(config)).insert(BoolField::EnablePortRateLimit(dir), !bool_value(BoolField::EnablePortRateLimit(dir), *old(config))));
        assert(lists(*config) =~= lists(*old(config)));
    }
}


/// How a port range is written: `start-end`.
pub open spec fn range_text(r: Range) -> Seq<char> {
    decimal(r.start as nat) + seq!['-'] + decimal(r.end as nat)
}

/// How `Ipv4Addr`'s `Display` writes the address whose number is `ip`.
pub open spec fn dotted_quad(ip: u32) -> Seq<char> {
    decimal((ip / 0x100_0000) as nat) + seq!['.'] + decimal(((ip / 0x1_0000) % 256) as nat) + seq![
        '.',
    ] + decimal(((ip / 0x100) % 256) as nat) + seq!['.'] + decimal((ip % 256) as nat)
}

/// How an entry of a rule list is shown.
pub open spec fn entry_label(e: ListEntry) -> Seq<char> {
    match e {
        ListEntry::Port(p) => decimal(p as nat),
        ListEntry::PortRange(r) => range_text(r),
        ListEntry::Ipv4(ip) => dotted_quad(ip),
        ListEntry::Text(t) => t,
    }
}

/// The outcome of `parse_port` on the text `s`.
pub open spec fn port_result(s: Seq<char>) -> Result<u16, Seq<char>> {
    match parse_unsigned(s, 10, 65535) {
        Some(n) => Ok(n as u16),
        None => Err("\""@ + s + "\" is not a valid port (0-65535)"@),
    }
}

/// The outcome of `parse_port_range` on the text `s`.
pub open spec fn port_range_result(s: Seq<char>) -> Result<Range, Seq<char>> {
    match split_once(s, '-') {
        None => Err("expected \"start-end\", e.g. \"0-1023\""@),
        Some((a, b)) => match port_result(trim(a)) {
            Err(e) => Err(e),
            Ok(start) => match port_result(trim(b)) {
                Err(e) => Err(e),
                Ok(end) => if start > end {
                    Err(
                        "start ("@ + decimal(start as nat) + ") must be <= end ("@ + decimal(end as nat)
                            + ")"@,
                    )
                } else {
                    Ok(Range { start, end })
                },
            },
        },
    }
}

/// The number of an IPv4 address from its four octets, as
/// `u32::from(Ipv4Addr)` (big-endian).
pub open spec fn ipv4_number(o: Seq<u8>) -> u32 {
    (o[0] as int * 0x100_0000 + o[1] as int * 0x1_0000 + o[2] as int * 0x100 + o[3] as int) as u32
}

/// The entry that the (trimmed) text `t` makes for the list `f`, or the
/// message it is rejected with.
pub open spec fn entry_result(f: ListField, t: Seq<char>) -> Result<ListEntry, Seq<char>> {
    match f {
        ListField::BlockedPorts(_, _) => match port_result(t) {
            Ok(p) => Ok(ListEntry::Port(p)),
            Err(e) => Err(e),
        },
        ListField::BlockedPortRanges(_, _) => match port_range_result(t) {
            Ok(r) => Ok(ListEntry::PortRange(r)),
            Err(e) => Err(e),
        },
        ListField::BlockedIps(_) => match parse_ipv4_address(t) {
            Some(o) => Ok(ListEntry::Ipv4(ipv4_number(o))),
            None => Err("\""@ + t + "\" is not a valid IPv4 address"@),
        },
        ListField::BlockedIps6(_) => match ipv6_address_result(t, ipv6_from_text(t)) {
            Ok(_) => Ok(ListEntry::Text(t)),
            Err(e) => Err(e),
        },
        ListField::BlockedCidrRanges(_) => match cidr4_result(t) {
            Ok(_) => Ok(ListEntry::Text(t)),
            Err(e) => Err(e),
        },
        ListField::BlockedCidrRanges6(_) => match cidr6_result(t) {
            Ok(_) => Ok(ListEntry::Text(t)),
            Err(e) => Err(e),
        },
        ListField::BlockedMacs(_) => match mac_result(t) {
            Ok(_) => Ok(ListEntry::Text(t)),
            Err(e) => Err(e),
        },
    }
}

/// The entry that `add` appends for the user's `input`, or the message it
/// refuses the input with.
pub open spec fn add_result(f: ListField, input: Seq<char>) -> Result<ListEntry, Seq<char>> {
    let t = trim(input);
    if t.len() == 0 {
        Err("value cannot be empty"@)
    } else {
        entry_result(f, t)
    }
}

pub open spec fn port_view(r: Result<u16, String>) -> Result<u16, Seq<char>> {
    match r {
        Ok(p) => Ok(p),
        Err(e) => Err(e@),
    }
}

pub open spec fn range_view(r: Result<Range, String>) -> Result<Range, Seq<char>> {
    match r {
        Ok(p) => Ok(p),
        Err(e) => Err(e@),
    }
}

/// Appends the dotted-quad text of the IPv4 address numbered `ip`.
pub fn push_dotted_quad(s: &mut String, ip: u32)
    ensures
        final(s)@ == old(s)@ + dotted_quad(ip),
{
    push_decimal(s, ip / 0x100_0000);
    push_char(s, '.');
    push_decimal(s, (ip / 0x1_0000) % 256);
    push_char(s, '.');
    push_decimal(s, (ip / 0x100) % 256);
    push_char(s, '.');
    push_decimal(s, ip % 256);
    assert(s@ =~= old(s)@ + dotted_quad(ip));
}

/// A port range written as `start-end`.
pub fn range_label(range: &Range) -> (r: String)
    ensures
        r@ == range_text(*range),
{
    let mut s = String::new();
    push_decimal(&mut s, range.start as u32);
    push_char(&mut s, '-');
    push_decimal(&mut s, range.end as u32);
    assert(s@ =~= range_text(*range));
    s
}

/// Parses a port number, 0 to 65535.
pub fn parse_port(input: &str) -> (r: Result<u16, String>)
    ensures
        port_view(r) == port_result(input@),
{
    let v = chars_of(input);
    let n = v.len();
    assert(window(v@, 0, n as int) =~= input@);
    match parse_unsigned_window(&v, 0, n, 10, 65535) {
        Some(p) => Ok(p as u16),
        None => {
            let mut m = String::from_str("\"");
            m.append(input);
            m.append("\" is not a valid port (0-65535)");
            Err(m)
        },
    }
}

/// Parses a port range written `start-end`; spaces around either number
/// are ignored, and `start` may not exceed `end`.
pub fn parse_port_range(input: &str) -> (r: Result<Range, String>)
    ensures
        range_view(r) == port_range_result(input@),
{
    let v = chars_of(input);
    let n = v.len();
    assert(window(v@, 0, n as int) =~= input@);
    match find_in_window(&v, 0, n, '-') {
        None => Err(String::from_str("expected \"start-end\", e.g. \"0-1023\"")),
        Some(j) => {
            assert(input@.subrange(0, j as int) =~= window(v@, 0, j as int));
            assert(input@.subrange(j + 1, input@.len() as int) =~= window(v@, j + 1, n as int));
            let (a0, a1) = trim_window(&v, 0, j);
            let (b0, b1) = trim_window(&v, j + 1, n);
            let start_text = string_of_window(&v, a0, a1);
            let end_text = string_of_window(&v, b0, b1);
            let start = match parse_port(start_text.as_str()) {
                Ok(p) => p,
                Err(e) => return Err(e),
            };
            let end = match parse_port(end_text.as_str()) {
                Ok(p) => p,
                Err(e) => return Err(e),
            };
            if start > end {
                let mut m = String::from_str("start (");
                push_decimal(&mut m, start as u32);
                m.append(") must be <= end (");
                push_decimal(&mut m, end as u32);
                m.append(")");
                return Err(m);
            }
            Ok(Range { start, end })
        },
    }
}

impl ListField {
    /// The number of entries in this list.
    pub fn len(self, config: &ACLConfig) -> (r: usize)
        ensures
            r == list_entries(self, *config).len(),
    {
        match self {
            ListField::BlockedPorts(Direction::Ingress, Proto::Tcp) => config.ingress.tcp_rules.blocked_source_ports.len(),
            ListField::BlockedPorts(Direction::Ingress, Proto::Udp) => config.ingress.udp_rules.blocked_source_ports.len(),
            ListField::BlockedPorts(Direction::Engress, Proto::Tcp) => config.engress.tcp_rules.blocked_destination_ports.len(),
            ListField::BlockedPorts(Direction::Engress, Proto::Udp) => config.engress.udp_rules.blocked_destination_ports.len(),
            ListField::BlockedPortRanges(Direction::Ingress, Proto::Tcp) => config.ingress.tcp_rules.blocked_source_ranges.len(),
            ListField::BlockedPortRanges(Direction::Ingress, Proto::Udp) => config.ingress.udp_rules.blocked_source_ranges.len(),
            ListField::BlockedPortRanges(Direction::Engress, Proto::Tcp) => config.engress.tcp_rules.blocked_destination_ranges.len(),
            ListField::BlockedPortRanges(Direction::Engress, Proto::Udp) => config.engress.udp_rules.blocked_destination_ranges.len(),
            ListField::BlockedIps(Direction::Ingress) => config.ingress.ipv4_rules.blocked_source_ips.len(),
            ListField::BlockedIps(Direction::Engress) => config.engress.ipv4_rules.blocked_destination_ips.len(),
            ListField::BlockedIps6(Direction::Ingress) => config.ingress.ipv6_rules.blocked_source_ips.len(),
            ListField::BlockedIps6(Direction::Engress) => config.engress.ipv6_rules.blocked_destination_ips.len(),
            ListField::BlockedCidrRanges(Direction::Ingress) => config.ingress.ipv4_rules.blocked_source_ranges.len(),
            ListField::BlockedCidrRanges(Direction::Engress) => config.engress.ipv4_rules.blocked_destination_ranges.len(),
            ListField::BlockedCidrRanges6(Direction::Ingress) => config.ingress.ipv6_rules.blocked_source_ranges.len(),
            ListField::BlockedCidrRanges6(Direction::Engress) => config.engress.ipv6_rules.blocked_destination_ranges.len(),
            ListField::BlockedMacs(Direction::Ingress) => config.ingress.mac_rules.blocked_source_macs.len(),
            ListField::BlockedMacs(Direction::Engress) => config.engress.mac_rules.blocked_destination_macs.len(),
        }
    }

    /// How entry `index` of this list is shown.
    pub fn item_label(self, config: &ACLConfig, index: usize) -> (r: String)
        requires
            index < list_entries(self, *config).len(),
        ensures
            r@ == entry_label(list_entries(self, *config)[index as int]),
    {
        match self {
            ListField::BlockedPorts(Direction::Ingress, Proto::Tcp) => { let mut s = String::new(); push_decimal(&mut s, config.ingress.tcp_rules.blocked_source_ports[index] as u32); assert(s@ =~= decimal(config.ingress.tcp_rules.blocked_source_ports[index as int] as nat)); s },
            ListField::BlockedPorts(Direction::Ingress, Proto::Udp) => { let mut s = String::new(); push_decimal(&mut s, config.ingress.udp_rules.blocked_source_ports[index] as u32); assert(s@ =~= decimal(config.ingress.udp_rules.blocked_source_ports[index as int] as nat)); s },
            ListField::BlockedPorts(Direction::Engress, Proto::Tcp) => { let mut s = String::new(); push_decimal(&mut s, config.engress.tcp_rules.blocked_destination_ports[index] as u32); assert(s@ =~= decimal(config.engress.tcp_rules.blocked_destination_ports[index as int] as nat)); s },
            ListField::BlockedPorts(Direction::Engress, Proto::Udp) => { let mut s = String::new(); push_decimal(&mut s, config.engress.udp_rules.blocked_destination_ports[index] as u32); assert(s@ =~= decimal(config.engress.udp_rules.blocked_destination_ports[index as int] as nat)); s },
            ListField::BlockedPortRanges(Direction::Ingress, Proto::Tcp) => range_label(&config.ingress.tcp_rules.blocked_source_ranges[index]),
            ListField::BlockedPortRanges(Direction::Ingress, Proto::Udp) => range_label(&config.ingress.udp_rules.blocked_source_ranges[index]),
            ListField::BlockedPortRanges(Direction::Engress, Proto::Tcp) => range_label(&config.engress.tcp_rules.blocked_destination_ranges[index]),
            ListField::BlockedPortRanges(Direction::Engress, Proto::Udp) => range_label(&config.engress.udp_rules.blocked_destination_ranges[index]),
            ListField::BlockedIps(Direction::Ingress) => { let mut s = String::new(); push_dotted_quad(&mut s, config.ingress.ipv4_rules.blocked_source_ips[index]); assert(s@ =~= dotted_quad(config.ingress.ipv4_rules.blocked_source_ips[index as int])); s },
            ListField::BlockedIps(Direction::Engress) => { let mut s = String::new(); push_dotted_quad(&mut s, config.engress.ipv4_rules.blocked_destination_ips[index]); assert(s@ =~= dotted_quad(config.engress.ipv4_rules.blocked_destination_ips[index as int])); s },
            ListField::BlockedIps6(Direction::Ingress) => config.ingress.ipv6_rules.blocked_source_ips[index].clone(),
            ListField::BlockedIps6(Direction::Engress) => config.engress.ipv6_rules.blocked_destination_ips[index].clone(),
            ListField::BlockedCidrRanges(Direction::Ingress) => config.ingress.ipv4_rules.blocked_source_ranges[index].clone(),
            ListField::BlockedCidrRanges(Direction::Engress) => config.engress.ipv4_rules.blocked_destination_ranges[index].clone(),
            ListField::BlockedCidrRanges6(Direction::Ingress) => config.ingress.ipv6_rules.blocked_source_ranges[index].clone(),
            ListField::BlockedCidrRanges6(Direction::Engress) => config.engress.ipv6_rules.blocked_destination_ranges[index].clone(),
            ListField::BlockedMacs(Direction::Ingress) => config.ingress.mac_rules.blocked_source_macs[index].clone(),
            ListField::BlockedMacs(Direction::Engress) => config.engress.mac_rules.blocked_destination_macs[index].clone(),
        }
    }

    /// Removes entry `index` of this list, and nothing else.
    pub fn remove(self, config: &mut ACLConfig, index: usize)
        requires
            index < list_entries(self, *old(config)).len(),
        ensures
            removed(self, index as int, *old(config), *final(config)),
    {
        match self {
            ListField::BlockedPorts(dir, proto) => remove_ports(dir, proto, config, index),
            ListField::BlockedPortRanges(dir, proto) => remove_port_ranges(dir, proto, config, index),
            ListField::BlockedIps(dir) => remove_ips(dir, config, index),
            ListField::BlockedIps6(dir) => remove_ips6(dir, config, index),
            ListField::BlockedCidrRanges(dir) => remove_cidrs(dir, config, index),
            ListField::BlockedCidrRanges6(dir) => remove_cidrs6(dir, config, index),
            ListField::BlockedMacs(dir) => remove_macs(dir, config, index),
        }
    }

    /// Parses the user's `input` for this list and appends it. On bad input
    /// it answers with a message for the user and changes nothing, since
    /// the text comes straight from what was typed into the terminal UI.
    pub fn add(self, config: &mut ACLConfig, input: &str) -> (r: Result<(), String>)
        ensures
            match add_result(self, input@) {
                Ok(e) => r is Ok && added(self, e, *old(config), *final(config)),
                Err(m) => r matches Err(x) && x@ == m && *final(config) == *old(config),
            },
    {
        let text = trimmed(input);
        let t = text.as_str();
        if t.is_empty() {
            return Err(String::from_str("value cannot be empty"));
        }
        match self {
            ListField::BlockedPorts(dir, proto) => {
                let port = match parse_port(t) {
                    Ok(p) => p,
                    Err(e) => return Err(e),
                };
                push_port(dir, proto, config, port);
            },
            ListField::BlockedPortRanges(dir, proto) => {
                let range = match parse_port_range(t) {
                    Ok(r) => r,
                    Err(e) => return Err(e),
                };
                push_port_range(dir, proto, config, range);
            },
            ListField::BlockedIps(dir) => {
                let octets = match parse_ipv4_text(t) {
                    Some(o) => o,
                    None => {
                        let mut m = String::from_str("\"");
                        m.append(t);
                        m.append("\" is not a valid IPv4 address");
                        return Err(m);
                    },
                };
                let ip = (octets[0] as u32) * 0x100_0000 + (octets[1] as u32) * 0x1_0000 + (octets[2] as u32) * 0x100 + (octets[3] as u32);
                assert(ip == ipv4_number(octets@));
                push_ip(dir, config, ip);
            },
            ListField::BlockedIps6(dir) => {
                match parse_ipv6_address(t) {
                    Ok(_) => {},
                    Err(e) => return Err(e),
                }
                push_ip6(dir, config, String::from_str(t));
            },
            ListField::BlockedCidrRanges(dir) => {
                match parse_ipv4_cidr(t) {
                    Ok(_) => {},
                    Err(e) => return Err(e),
                }
                push_cidr(dir, config, String::from_str(t));
            },
            ListField::BlockedCidrRanges6(dir) => {
                match parse_ipv6_cidr(t) {
                    Ok(_) => {},
                    Err(e) => return Err(e),
                }
                push_cidr6(dir, config, String::from_str(t));
            },
            ListField::BlockedMacs(dir) => {
                match parse_mac_address(t) {
                    Ok(_) => {},
                    Err(e) => return Err(e),
                }
                push_mac(dir, config, String::from_str(t));
            },
        }
        Ok(())
    }
}

fn remove_ports(dir: Direction, proto: Proto, config: &mut ACLConfig, index: usize)
    requires
        index < list_entries(ListField::BlockedPorts(dir, proto), *old(config)).len(),
    ensures
        removed(ListField::BlockedPorts(dir, proto), index as int, *old(config), *final(config)),
{
    match (dir, proto) {
        (Direction::Ingress, Proto::Tcp) => {
            let ghost b = *config;
            config.ingress.tcp_rules.blocked_source_ports.remove(index);
            assert(port_entries(config.ingress.tcp_rules.blocked_source_ports@) == port_entries(b.ingress.tcp_rules.blocked_source_ports@).remove(index as int));
        },
        (Direction::Ingress, Proto::Udp) => {
            let ghost b = *config;
            config.ingress.udp_rules.blocked_source_ports.remove(index);
            assert(port_entries(config.ingress.udp_rules.blocked_source_ports@) == port_entries(b.ingress.udp_rules.blocked_source_ports@).remove(index as int));
        },
        (Direction::Engress, Proto::Tcp) => {
            let ghost b = *config;
            config.engress.tcp_rules.blocked_destination_ports.remove(index);
            assert(port_entries(config.engress.tcp_rules.blocked_destination_ports@) == port_entries(b.engress.tcp_rules.blocked_destination_ports@).remove(index as int));
        },
        (Direction::Engress, Proto::Udp) => {
            let ghost b = *config;
            config.engress.udp_rules.blocked_destination_ports.remove(index);
            assert(port_entries(config.engress.udp_rules.blocked_destination_ports@) == port_entries(b.engress.udp_rules.blocked_destination_ports@).remove(index as int));
        },
    }
    proof {
        assert(lists(*config) =~= lists(*old(config)).insert(ListField::BlockedPorts(dir, proto), list_entries(ListField::BlockedPorts(dir, proto), *old(config)).remove(index as int)));
        assert(switches(*config) =~= switches(*old(config)));
    }
}

fn remove_port_ranges(dir: Direction, proto: Proto, config: &mut ACLConfig, index: usize)
    requires
        index < list_entries(ListField::BlockedPortRanges(dir, proto), *old(config)).len(),
    ensures
        removed(ListField::BlockedPortRanges(dir, proto), index as int, *old(config), *final(config)),
{
    match (dir, proto) {
        (Direction::Ingress, Proto::Tcp) => {
            let ghost b = *config;
            config.ingress.tcp_rules.blocked_source_ranges.remove(index);
            assert(range_entries(config.ingress.tcp_rules.blocked_source_ranges@) == range_entries(b.ingress.tcp_rules.blocked_source_ranges@).remove(index as int));
        },
        (Direction::Ingress, Proto::Udp) => {
            let ghost b = *config;
            config.ingress.udp_rules.blocked_source_ranges.remove(index);
            assert(range_entries(config.ingress.udp_rules.blocked_source_ranges@) == range_entries(b.ingress.udp_rules.blocked_source_ranges@).remove(index as int));
        },
        (Direction::Engress, Proto::Tcp) => {
            let ghost b = *config;
            config.engress.tcp_rules.blocked_destination_ranges.remove(index);
            assert(range_entries(config.engress.tcp_rules.blocked_destination_ranges@) == range_entries(b.engress.tcp_rules.blocked_destination_ranges@).remove(index as int));
        },
        (Direction::Engress, Proto::Udp) => {
            let ghost b = *config;
            config.engress.udp_rules.blocked_destination_ranges.remove(index);
            assert(range_entries(config.engress.udp_rules.blocked_destination_ranges@) == range_entries(b.engress.udp_rules.blocked_destination_ranges@).remove(index as int));
        },
    }
    proof {
        assert(lists(*config) =~= lists(*old(config)).insert(ListField::BlockedPortRanges(dir, proto), list_entries(ListField::BlockedPortRanges(dir, proto), *old(config)).remove(index as int)));
        assert(switches(*config) =~= switches(*old(config)));
    }
}

fn remove_ips(dir: Direction, config: &mut ACLConfig, index: usize)
    requires
        index < list_entries(ListField::BlockedIps(dir), *old(config)).len(),
    ensures
        removed(ListField::BlockedIps(dir), index as int, *old(config), *final(config)),
{
    match dir {
        Direction::Ingress => {
            let ghost b = *config;
            config.ingress.ipv4_rules.blocked_source_ips.remove(index);
            assert(ipv4_entries(config.ingress.ipv4_rules.blocked_source_ips@) == ipv4_entries(b.ingress.ipv4_rules.blocked_source_ips@).remove(index as int));
        },
        Direction::Engress => {
            let ghost b = *config;
            config.engress.ipv4_rules.blocked_destination_ips.remove(index);
            assert(ipv4_entries(config.engress.ipv4_rules.blocked_destination_ips@) == ipv4_entries(b.engress.ipv4_rules.blocked_destination_ips@).remove(index as int));
        },
    }
    proof {
        assert(lists(*config) =~= lists(*old(config)).insert(ListField::BlockedIps(dir), list_entries(ListField::BlockedIps(dir), *old(config)).remove(index as int)));
        assert(switches(*config) =~= switches(*old(config)));
    }
}

fn remove_ips6(dir: Direction, config: &mut ACLConfig, index: usize)
    requires
        index < list_entries(ListField::BlockedIps6(dir), *old(config)).len(),
    ensures
        removed(ListField::BlockedIps6(dir), index as int, *old(config), *final(config)),
{
    match dir {
        Direction::Ingress => {
            let ghost b = *config;
            config.ingress.ipv6_rules.blocked_source_ips.remove(index);
            assert(text_entries(config.ingress.ipv6_rules.blocked_source_ips@) == text_entries(b.ingress.ipv6_rules.blocked_source_ips@).remove(index as int));
        },
        Direction::Engress => {
            let ghost b = *config;
            config.engress.ipv6_rules.blocked_destination_ips.remove(index);
            assert(text_entries(config.engress.ipv6_rules.blocked_destination_ips@) == text_entries(b.engress.ipv6_rules.blocked_destination_ips@).remove(index as int));
        },
    }
    proof {
        assert(lists(*config) =~= lists(*old(config)).insert(ListField::BlockedIps6(dir), list_entries(ListField::BlockedIps6(dir), *old(config)).remove(index as int)));
        assert(switches(*config) =~= switches(*old(config)));
    }
}

fn remove_cidrs(dir: Direction, config: &mut ACLConfig, index: usize)
    requires
        index < list_entries(ListField::BlockedCidrRanges(dir), *old(config)).len(),
    ensures
        removed(ListField::BlockedCidrRanges(dir), index as int, *old(config), *final(config)),
{
    match dir {
        Direction::Ingress => {
            let ghost b = *config;
            config.ingress.ipv4_rules.blocked_source_ranges.remove(index);
            assert(text_entries(config.ingress.ipv4_rules.blocked_source_ranges@) == text_entries(b.ingress.ipv4_rules.blocked_source_ranges@).remove(index as int));
        },
        Direction::Engress => {
            let ghost b = *config;
            config.engress.ipv4_rules.blocked_destination_ranges.remove(index);
            assert(text_entries(config.engress.ipv4_rules.blocked_destination_ranges@) == text_entries(b.engress.ipv4_rules.blocked_destination_ranges@).remove(index as int));
        },
    }
    proof {
        assert(lists(*config) =~= lists(*old(config)).insert(ListField::BlockedCidrRanges(dir), list_entries(ListField::BlockedCidrRanges(dir), *old(config)).remove(index as int)));
        assert(switches(*config) =~= switches(*old(config)));
    }
}

fn remove_cidrs6(dir: Direction, config: &mut ACLConfig, index: usize)
    requires
        index < list_entries(ListField::BlockedCidrRanges6(dir), *old(config)).len(),
    ensures
        removed(ListField::BlockedCidrRanges6(dir), index as int, *old(config), *final(config)),
{
    match dir {
        Direction::Ingress => {
            let ghost b = *config;
            config.ingress.ipv6_rules.blocked_source_ranges.remove(index);
            assert(text_entries(config.ingress.ipv6_rules.blocked_source_ranges@) == text_entries(b.ingress.ipv6_rules.blocked_source_ranges@).remove(index as int));
        },
        Direction::Engress => {
            let ghost b = *config;
            config.engress.ipv6_rules.blocked_destination_ranges.remove(index);
            assert(text_entries(config.engress.ipv6_rules.blocked_destination_ranges@) == text_entries(b.engress.ipv6_rules.blocked_destination_ranges@).remove(index as int));
        },
    }
    proof {
        assert(lists(*config) =~= lists(*old(config)).insert(ListField::BlockedCidrRanges6(dir), list_entries(ListField::BlockedCidrRanges6(dir), *old(config)).remove(index as int)));
        assert(switches(*config) =~= switches(*old(config)));
    }
}

fn remove_macs(dir: Direction, config: &mut ACLConfig, index: usize)
    requires
        index < list_entries(ListField::BlockedMacs(dir), *old(config)).len(),
    ensures
        removed(ListField::BlockedMacs(dir), index as int, *old(config), *final(config)),
{
    match dir {
        Direction::Ingress => {
            let ghost b = *config;
            config.ingress.mac_rules.blocked_source_macs.remove(index);
            assert(text_entries(config.ingress.mac_rules.blocked_source_macs@) == text_entries(b.ingress.mac_rules.blocked_source_macs@).remove(index as int));
        },
        Direction::Engress => {
            let ghost b = *config;
            config.engress.mac_rules.blocked_destination_macs.remove(index);
            assert(text_entries(config.engress.mac_rules.blocked_destination_macs@) == text_entries(b.engress.mac_rules.blocked_destination_macs@).remove(index as int));
        },
    }
    proof {
        assert(lists(*config) =~= lists(*old(config)).insert(ListField::BlockedMacs(dir), list_entries(ListField::BlockedMacs(dir), *old(config)).remove(index as int)));
        assert(switches(*config) =~= switches(*old(config)));
    }
}

fn push_port(dir: Direction, proto: Proto, config: &mut ACLConfig, x: u16)
    ensures
        added(ListField::BlockedPorts(dir, proto), ListEntry::Port(x), *old(config), *final(config)),
{
    match (dir, proto) {
        (Direction::Ingress, Proto::Tcp) => {
            let ghost b = *config;
            config.ingress.tcp_rules.blocked_source_ports.push(x);
            assert(port_entries(config.ingress.tcp_rules.blocked_source_ports@) == port_entries(b.ingress.tcp_rules.blocked_source_ports@).push(ListEntry::Port(x)));
        },
        (Direction::Ingress, Proto::Udp) => {
            let ghost b = *config;
            config.ingress.udp_rules.blocked_source_ports.push(x);
            assert(port_entries(config.ingress.udp_rules.blocked_source_ports@) == port_entries(b.ingress.udp_rules.blocked_source_ports@).push(ListEntry::Port(x)));
        },
        (Direction::Engress, Proto::Tcp) => {
            let ghost b = *config;
            config.engress.tcp_rules.blocked_destination_ports.push(x);
            assert(port_entries(config.engress.tcp_rules.blocked_destination_ports@) == port_entries(b.engress.tcp_rules.blocked_destination_ports@).push(ListEntry::Port(x)));
        },
        (Direction::Engress, Proto::Udp) => {
            let ghost b = *config;
            config.engress.udp_rules.blocked_destination_ports.push(x);
            assert(port_entries(config.engress.udp_rules.blocked_destination_ports@) == port_entries(b.engress.udp_rules.blocked_destination_ports@).push(ListEntry::Port(x)));
        },
    }
    proof {
        assert(lists(*config) =~= lists(*old(config)).insert(ListField::BlockedPorts(dir, proto), list_entries(ListField::BlockedPorts(dir, proto), *old(config)).push(ListEntry::Port(x))));
        assert(switches(*config) =~= switches(*old(config)));
    }
}

fn push_port_range(dir: Direction, proto: Proto, config: &mut ACLConfig, x: Range)
    ensures
        added(ListField::BlockedPortRanges(dir, proto), ListEntry::PortRange(x), *old(config), *final(config)),
{
    match (dir, proto) {
        (Direction::Ingress, Proto::Tcp) => {
            let ghost b = *config;
            config.ingress.tcp_rules.blocked_source_ranges.push(x);
            assert(range_entries(config.ingress.tcp_rules.blocked_source_ranges@) == range_entries(b.ingress.tcp_rules.blocked_source_ranges@).push(ListEntry::PortRange(x)));
        },
        (Direction::Ingress, Proto::Udp) => {
            let ghost b = *config;
            config.ingress.udp_rules.blocked_source_ranges.push(x);
            assert(range_entries(config.ingress.udp_rules.blocked_source_ranges@) == range_entries(b.ingress.udp_rules.blocked_source_ranges@).push(ListEntry::PortRange(x)));
        },
        (Direction::Engress, Proto::Tcp) => {
            let ghost b = *config;
            config.engress.tcp_rules.blocked_destination_ranges.push(x);
            assert(range_entries(config.engress.tcp_rules.blocked_destination_ranges@) == range_entries(b.engress.tcp_rules.blocked_destination_ranges@).push(ListEntry::PortRange(x)));
        },
        (Direction::Engress, Proto::Udp) => {
            let ghost b = *config;
            config.engress.udp_rules.blocked_destination_ranges.push(x);
            assert(range_entries(config.engress.udp_rules.blocked_destination_ranges@) == range_entries(b.engress.udp_rules.blocked_destination_ranges@).push(ListEntry::PortRange(x)));
        },
    }
    proof {
        assert(lists(*config) =~= lists(*old(config)).insert(ListField::BlockedPortRanges(dir, proto), list_entries(ListField::BlockedPortRanges(dir, proto), *old(config)).push(ListEntry::PortRange(x))));
        assert(switches(*config) =~= switches(*old(config)));
    }
}

fn push_ip(dir: Direction, config: &mut ACLConfig, x: u32)
    ensures
        added(ListField::BlockedIps(dir), ListEntry::Ipv4(x), *old(config), *final(config)),
{
    match dir {
        Direction::Ingress => {
            let ghost b = *config;
            config.ingress.ipv4_rules.blocked_source_ips.push(x);
            assert(ipv4_entries(config.ingress.ipv4_rules.blocked_source_ips@) == ipv4_entries(b.ingress.ipv4_rules.blocked_source_ips@).push(ListEntry::Ipv4(x)));
        },
        Direction::Engress => {
            let ghost b = *config;
            config.engress.ipv4_rules.blocked_destination_ips.push(x);
            assert(ipv4_entries(config.engress.ipv4_rules.blocked_destination_ips@) == ipv4_entries(b.engress.ipv4_rules.blocked_destination_ips@).push(ListEntry::Ipv4(x)));
        },
    }
    proof {
        assert(lists(*config) =~= lists(*old(config)).insert(ListField::BlockedIps(dir), list_entries(ListField::BlockedIps(dir), *old(config)).push(ListEntry::Ipv4(x))));
        assert(switches(*config) =~= switches(*old(config)));
    }
}

fn push_ip6(dir: Direction, config: &mut ACLConfig, x: String)
    ensures
        added(ListField::BlockedIps6(dir), ListEntry::Text(x@), *old(config), *final(config)),
{
    match dir {
        Direction::Ingress => {
            let ghost b = *config;
            config.ingress.ipv6_rules.blocked_source_ips.push(x);
            assert(text_entries(config.ingress.ipv6_rules.blocked_source_ips@) == text_entries(b.ingress.ipv6_rules.blocked_source_ips@).push(ListEntry::Text(x@)));
        },
        Direction::Engress => {
            let ghost b = *config;
            config.engress.ipv6_rules.blocked_destination_ips.push(x);
            assert(text_entries(config.engress.ipv6_rules.blocked_destination_ips@) == text_entries(b.engress.ipv6_rules.blocked_destination_ips@).push(ListEntry::Text(x@)));
        },
    }
    proof {
        assert(lists(*config) =~= lists(*old(config)).insert(ListField::BlockedIps6(dir), list_entries(ListField::BlockedIps6(dir), *old(config)).push(ListEntry::Text(x@))));
        assert(switches(*config) =~= switches(*old(config)));
    }
}

fn push_cidr(dir: Direction, config: &mut ACLConfig, x: String)
    ensures
        added(ListField::BlockedCidrRanges(dir), ListEntry::Text(x@), *old(config), *final(config)),
{
    match dir {
        Direction::Ingress => {
            let ghost b = *config;
            config.ingress.ipv4_rules.blocked_source_ranges.push(x);
            assert(text_entries(config.ingress.ipv4_rules.blocked_source_ranges@) == text_entries(b.ingress.ipv4_rules.blocked_source_ranges@).push(ListEntry::Text(x@)));
        },
        Direction::Engress => {
            let ghost b = *config;
            config.engress.ipv4_rules.blocked_destination_ranges.push(x);
            assert(text_entries(config.engress.ipv4_rules.blocked_destination_ranges@) == text_entries(b.engress.ipv4_rules.blocked_destination_ranges@).push(ListEntry::Text(x@)));
        },
    }
    proof {
        assert(lists(*config) =~= lists(*old(config)).insert(ListField::BlockedCidrRanges(dir), list_entries(ListField::BlockedCidrRanges(dir), *old(config)).push(ListEntry::Text(x@))));
        assert(switches(*config) =~= switches(*old(config)));
    }
}

fn push_cidr6(dir: Direction, config: &mut ACLConfig, x: String)
    ensures
        added(ListField::BlockedCidrRanges6(dir), ListEntry::Text(x@), *old(config), *final(config)),
{
    match dir {
        Direction::Ingress => {
            let ghost b = *config;
            config.ingress.ipv6_rules.blocked_source_ranges.push(x);
            assert(text_entries(config.ingress.ipv6_rules.blocked_source_ranges@) == text_entries(b.ingress.ipv6_rules.blocked_source_ranges@).push(ListEntry::Text(x@)));
        },
        Direction::Engress => {
            let ghost b = *config;
            config.engress.ipv6_rules.blocked_destination_ranges.push(x);
            assert(text_entries(config.engress.ipv6_rules.blocked_destination_ranges@) == text_entries(b.engress.ipv6_rules.blocked_destination_ranges@).push(ListEntry::Text(x@)));
        },
    }
    proof {
        assert(lists(*config) =~= lists(*old(config)).insert(ListField::BlockedCidrRanges6(dir), list_entries(ListField::BlockedCidrRanges6(dir), *old(config)).push(ListEntry::Text(x@))));
        assert(switches(*config) =~= switches(*old(config)));
    }
}

fn push_mac(dir: Direction, config: &mut ACLConfig, x: String)
    ensures
        added(ListField::BlockedMacs(dir), ListEntry::Text(x@), *old(config), *final(config)),
{
    match dir {
        Direction::Ingress => {
            let ghost b = *config;
            config.ingress.mac_rules.blocked_source_macs.push(x);
            assert(text_entries(config.ingress.mac_rules.blocked_source_macs@) == text_entries(b.ingress.mac_rules.blocked_source_macs@).push(ListEntry::Text(x@)));
        },
        Direction::Engress => {
            let ghost b = *config;
            config.engress.mac_rules.blocked_destination_macs.push(x);
            assert(text_entries(config.engress.mac_rules.blocked_destination_macs@) == text_entries(b.engress.mac_rules.blocked_destination_macs@).push(ListEntry::Text(x@)));
        },
    }
    proof {
        assert(lists(*config) =~= lists(*old(config)).insert(ListField::BlockedMacs(dir), list_entries(ListField::BlockedMacs(dir), *old(config)).push(ListEntry::Text(x@))));
        assert(switches(*config) =~= switches(*old(config)));
    }
}



// ---------------------------------------------------------------------------
// Laws
// ---------------------------------------------------------------------------

/// A switch reads back as its new value after a toggle, and every other
/// switch keeps its value.
pub proof fn law_toggle_flips_only_its_switch(f: BoolField, before: ACLConfig, after: ACLConfig)
    requires
        toggled(f, before, after),
    ensures
        bool_value(f, after) == !bool_value(f, before),
        forall|g: BoolField| g != f ==> #[trigger] bool_value(g, after) == bool_value(g, before),
        forall|l: ListField| #[trigger] list_entries(l, after) == list_entries(l, before),
{
    assert(switches(after)[f] == bool_value(f, after));
    assert forall|g: BoolField| g != f implies #[trigger] bool_value(g, after) == bool_value(g, before) by {
        assert(switches(after)[g] == switches(before)[g]);
    }
    assert forall|l: ListField| #[trigger] list_entries(l, after) == list_entries(l, before) by {
        assert(lists(after)[l] == lists(before)[l]);
    }
}

/// Toggling the same switch twice gives back the settings one started with.
pub proof fn law_toggle_twice_restores(f: BoolField, a: ACLConfig, b: ACLConfig, c: ACLConfig)
    requires
        toggled(f, a, b),
        toggled(f, b, c),
    ensures
        switches(c) == switches(a),
        lists(c) == lists(a),
        same_other_settings(a, c),
{
    assert(switches(b)[f] == bool_value(f, b));
    assert(switches(a)[f] == bool_value(f, a));
    assert(switches(c) =~= switches(a));
}

/// Adding an entry grows its list by exactly that entry at the end, and
/// leaves every other list alone.
pub proof fn law_add_appends(f: ListField, e: ListEntry, before: ACLConfig, after: ACLConfig)
    requires
        added(f, e, before, after),
    ensures
        list_entries(f, after).len() == list_entries(f, before).len() + 1,
        list_entries(f, after).last() == e,
        forall|l: ListField| l != f ==> #[trigger] list_entries(l, after) == list_entries(l, before),
        forall|g: BoolField| #[trigger] bool_value(g, after) == bool_value(g, before),
{
    assert(lists(after)[f] == list_entries(f, after));
    assert forall|l: ListField| l != f implies #[trigger] list_entries(l, after) == list_entries(l, before) by {
        assert(lists(after)[l] == lists(before)[l]);
    }
    assert forall|g: BoolField| #[trigger] bool_value(g, after) == bool_value(g, before) by {
        assert(switches(after)[g] == switches(before)[g]);
    }
}

/// A dotted-quad IPv4 address goes into a blocked-IP list as the number
/// `u32::from(Ipv4Addr)` makes of it: first octet most significant.
pub proof fn law_ip_entry_is_the_address_number(d: Direction, input: Seq<char>)
    requires
        parse_ipv4_address(trim(input)) is Some,
    ensures
        ({
            let o = parse_ipv4_address(trim(input)).unwrap();
            add_result(ListField::BlockedIps(d), input) matches Ok(ListEntry::Ipv4(n))
                && n as int == o[0] * 0x100_0000 + o[1] * 0x1_0000 + o[2] * 0x100 + o[3]
        }),
{
    let t = trim(input);
    if t.len() == 0 {
        assert(find_char(t, '.') is None);
        assert(split(t, '.') == seq![t]);
    }
}

proof fn lemma_decimal_octet(x: nat)
    requires
        x < 256,
    ensures
        ipv4_octet(decimal(x)) == Some(x as u8),
        !decimal(x).contains('.'),
        '0' <= decimal(x)[0] <= '9',
        '0' <= decimal(x).last() <= '9',
{
    lemma_decimal(x);
    lemma_parse_decimal(x, 255);
    let p = decimal(x);
    if x >= 10 {
        let q = x / 10;
        assert(p == decimal(q).push(digit_char(x % 10)));
        if q < 10 {
            assert(decimal(q) == seq![digit_char(q)]);
            assert(p.len() == 2);
            assert(p[0] == digit_char(q));
        } else {
            let h = q / 10;
            assert(decimal(q) == decimal(h).push(digit_char(q % 10)));
            assert(decimal(h) == seq![digit_char(h)]);
            assert(p.len() == 3);
            assert(p[0] == digit_char(h));
        }
    }
    if p.contains('.') {
        let i = choose|i: int| 0 <= i < p.len() && p[i] == '.';
        assert('0' <= p[i] <= '9');
    }
    assert('0' <= p[p.len() - 1] <= '9');
}

/// The label of a blocked IPv4 address, typed back into its list, gives
/// the same entry.
#[verifier::spinoff_prover]
#[verifier::rlimit(30)]
pub proof fn law_ip_label_reads_back(d: Direction, n: u32)
    ensures
        add_result(ListField::BlockedIps(d), dotted_quad(n)) == Ok::<ListEntry, Seq<char>>(ListEntry::Ipv4(n)),
{
    let a = n / 0x100_0000;
    let b = (n / 0x1_0000) % 256;
    let c = (n / 0x100) % 256;
    let e = n % 256;
    assert(a < 256) by (bit_vector)
        requires
            a == n / 0x100_0000;
    assert(a * 0x100_0000 + b * 0x1_0000 + c * 0x100 + e == n) by (bit_vector)
        requires
            a == n / 0x100_0000,
            b == (n / 0x1_0000) % 256,
            c == (n / 0x100) % 256,
            e == n % 256;
    lemma_decimal_octet(a as nat);
    lemma_decimal_octet(b as nat);
    lemma_decimal_octet(c as nat);
    lemma_decimal_octet(e as nat);
    let da = decimal(a as nat);
    let db = decimal(b as nat);
    let dc = decimal(c as nat);
    let de = decimal(e as nat);
    let dot = seq!['.'];
    let t3 = dc + dot + de;
    let t2 = db + dot + t3;
    let t = da + dot + t2;
    assert(dotted_quad(n) =~= t);
    lemma_split_without(de, '.');
    lemma_split_cons(dc, '.', de);
    lemma_split_cons(db, '.', t3);
    lemma_split_cons(da, '.', t2);
    assert(split(t, '.') =~= seq![da, db, dc, de]);
    assert(t[0] == da[0]);
    assert(t.last() == de.last());
    assert(trim_start(t) == t);
    assert(trim_end(t) == t);
    assert(trim(t) == t);
    let o = parse_ipv4_address(t).unwrap();
    assert(o =~= seq![a as u8, b as u8, c as u8, e as u8]);
}

/// Each on/off switch flips its own field of the configuration and no
/// other: the loopback switches flip `disable_loopback` of the IPv4 rules
/// (`DisableLoopback`) or of the IPv6 rules (`DisableLoopback6`) of their
/// own direction, and so on for every switch.
#[verifier::spinoff_prover]
pub proof fn law_each_switch_flips_its_own_field(f: BoolField, before: ACLConfig, after: ACLConfig)
    requires
        toggled(f, before, after),
    ensures
        f == BoolField::EnableRules(Direction::Ingress) ==> after.ingress.enable_rules == !before.ingress.enable_rules,
        f == BoolField::EnableRules(Direction::Engress) ==> after.engress.enable_rules == !before.engress.enable_rules,
        f == BoolField::EnablePortRules(Direction::Ingress, Proto::Tcp) ==> after.ingress.tcp_rules.enable_port_rules == !before.ingress.tcp_rules.enable_port_rules,
        f == BoolField::EnablePortRules(Direction::Ingress, Proto::Udp) ==> after.ingress.udp_rules.enable_port_rules == !before.ingress.udp_rules.enable_port_rules,
        f == BoolField::EnablePortRules(Direction::Engress, Proto::Tcp) ==> after.engress.tcp_rules.enable_port_rules == !before.engress.tcp_rules.enable_port_rules,
        f == BoolField::EnablePortRules(Direction::Engress, Proto::Udp) ==> after.engress.udp_rules.enable_port_rules == !before.engress.udp_rules.enable_port_rules,
        f == BoolField::EnableIpRules(Direction::Ingress) ==> after.ingress.ipv4_rules.enable_ip_rules == !before.ingress.ipv4_rules.enable_ip_rules,
        f == BoolField::EnableIpRules(Direction::Engress) ==> after.engress.ipv4_rules.enable_ip_rules == !before.engress.ipv4_rules.enable_ip_rules,
        f == BoolField::EnableIpv6Rules(Direction::Ingress) ==> after.ingress.ipv6_rules.enable_ip_rules == !before.ingress.ipv6_rules.enable_ip_rules,
        f == BoolField::EnableIpv6Rules(Direction::Engress) ==> after.engress.ipv6_rules.enable_ip_rules == !before.engress.ipv6_rules.enable_ip_rules,
        f == BoolField::DisableLoopback(Direction::Ingress) ==> after.ingress.ipv4_rules.disable_loopback == !before.ingress.ipv4_rules.disable_loopback
            && after.ingress.ipv6_rules.disable_loopback == before.ingress.ipv6_rules.disable_loopback,
        f == BoolField::DisableLoopback(Direction::Engress) ==> after.engress.ipv4_rules.disable_loopback == !before.engress.ipv4_rules.disable_loopback
            && after.engress.ipv6_rules.disable_loopback == before.engress.ipv6_rules.disable_loopback,
        f == BoolField::DisableLoopback6(Direction::Ingress) ==> after.ingress.ipv6_rules.disable_loopback == !before.ingress.ipv6_rules.disable_loopback
            && after.ingress.ipv4_rules.disable_loopback == before.ingress.ipv4_rules.disable_loopback,
        f == BoolField::DisableLoopback6(Direction::Engress) ==> after.engress.ipv6_rules.disable_loopback == !before.engress.ipv6_rules.disable_loopback
            && after.engress.ipv4_rules.disable_loopback == before.engress.ipv4_rules.disable_loopback,
        f == BoolField::EnableMacRules(Direction::Ingress) ==> after.ingress.mac_rules.enable_mac_rules == !before.ingress.mac_rules.enable_mac_rules,
        f == BoolField::EnableMacRules(Direction::Engress) ==> after.engress.mac_rules.enable_mac_rules == !before.engress.mac_rules.enable_mac_rules,
        f == BoolField::EnableIpRateLimit(Direction::Ingress) ==> after.ingress.rate_limit.enable_ip_rate_limit == !before.ingress.rate_limit.enable_ip_rate_limit,
        f == BoolField::EnableIpRateLimit(Direction::Engress) ==> after.engress.rate_limit.enable_ip_rate_limit == !before.engress.rate_limit.enable_ip_rate_limit,
        f == BoolField::EnablePortRateLimit(Direction::Ingress) ==> after.ingress.rate_limit.enable_port_rate_limit == !before.ingress.rate_limit.enable_port_rate_limit,
        f == BoolField::EnablePortRateLimit(Direction::Engress) ==> after.engress.rate_limit.enable_port_rate_limit == !before.engress.rate_limit.enable_port_rate_limit,
{
    assert(switches(after)[f] == bool_value(f, after));
    assert(switches(before)[f] == bool_value(f, before));
    match f {
        BoolField::DisableLoopback(d) => {
            let g = BoolField::DisableLoopback6(d);
            assert(switches(after)[g] == bool_value(g, after));
            assert(switches(before)[g] == bool_value(g, before));
        },
        BoolField::DisableLoopback6(d) => {
            let g = BoolField::DisableLoopback(d);
            assert(switches(after)[g] == bool_value(g, after));
            assert(switches(before)[g] == bool_value(g, before));
        },
        _ => {},
    }
}

/// Each rule list is its own field of the configuration: after an edit
/// that sets the list `f` to `x` (an add or a remove), the field that `f`
/// names holds exactly `x`, so an entry added to, say, the ingress IPv6
/// addresses lands in `ingress.ipv6_rules.blocked_source_ips` and nowhere
/// else.
pub proof fn law_each_list_is_its_own_field(f: ListField, x: Seq<ListEntry>, before: ACLConfig, after: ACLConfig)
    requires
        lists(after) == lists(before).insert(f, x),
    ensures
        f == ListField::BlockedPorts(Direction::Ingress, Proto::Tcp) ==> port_entries(after.ingress.tcp_rules.blocked_source_ports@) == x,
        f == ListField::BlockedPorts(Direction::Ingress, Proto::Udp) ==> port_entries(after.ingress.udp_rules.blocked_source_ports@) == x,
        f == ListField::BlockedPorts(Direction::Engress, Proto::Tcp) ==> port_entries(after.engress.tcp_rules.blocked_destination_ports@) == x,
        f == ListField::BlockedPorts(Direction::Engress, Proto::Udp) ==> port_entries(after.engress.udp_rules.blocked_destination_ports@) == x,
        f == ListField::BlockedPortRanges(Direction::Ingress, Proto::Tcp) ==> range_entries(after.ingress.tcp_rules.blocked_source_ranges@) == x,
        f == ListField::BlockedPortRanges(Direction::Ingress, Proto::Udp) ==> range_entries(after.ingress.udp_rules.blocked_source_ranges@) == x,
        f == ListField::BlockedPortRanges(Direction::Engress, Proto::Tcp) ==> range_entries(after.engress.tcp_rules.blocked_destination_ranges@) == x,
        f == ListField::BlockedPortRanges(Direction::Engress, Proto::Udp) ==> range_entries(after.engress.udp_rules.blocked_destination_ranges@) == x,
        f == ListField::BlockedIps(Direction::Ingress) ==> ipv4_entries(after.ingress.ipv4_rules.blocked_source_ips@) == x,
        f == ListField::BlockedIps(Direction::Engress) ==> ipv4_entries(after.engress.ipv4_rules.blocked_destination_ips@) == x,
        f == ListField::BlockedIps6(Direction::Ingress) ==> text_entries(after.ingress.ipv6_rules.blocked_source_ips@) == x,
        f == ListField::BlockedIps6(Direction::Engress) ==> text_entries(after.engress.ipv6_rules.blocked_destination_ips@) == x,
        f == ListField::BlockedCidrRanges(Direction::Ingress) ==> text_entries(after.ingress.ipv4_rules.blocked_source_ranges@) == x,
        f == ListField::BlockedCidrRanges(Direction::Engress) ==> text_entries(after.engress.ipv4_rules.blocked_destination_ranges@) == x,
        f == ListField::BlockedCidrRanges6(Direction::Ingress) ==> text_entries(after.ingress.ipv6_rules.blocked_source_ranges@) == x,
        f == ListField::BlockedCidrRanges6(Direction::Engress) ==> text_entries(after.engress.ipv6_rules.blocked_destination_ranges@) == x,
        f == ListField::BlockedMacs(Direction::Ingress) ==> text_entries(after.ingress.mac_rules.blocked_source_macs@) == x,
        f == ListField::BlockedMacs(Direction::Engress) ==> text_entries(after.engress.mac_rules.blocked_destination_macs@) == x,
{
    assert(lists(after)[f] == list_entries(f, after));
}

/// Each list checks what the user typed with its own parser: ports as
/// port numbers, port ranges as `start-end`, IPv4 addresses as dotted
/// quads, IPv6 addresses, IPv4 and IPv6 CIDR ranges and MACs with the
/// parser of their kind, and a text list keeps the trimmed text itself.
pub proof fn law_each_list_uses_its_own_parser(d: Direction, p: Proto, input: Seq<char>)
    requires
        trim(input).len() > 0,
    ensures
        ({
            let t = trim(input);
            &&& (add_result(ListField::BlockedPorts(d, p), input) is Ok <==> port_result(t) is Ok)
            &&& (port_result(t) matches Ok(n) ==> add_result(ListField::BlockedPorts(d, p), input) == Ok::<ListEntry, Seq<char>>(ListEntry::Port(n)))
            &&& (add_result(ListField::BlockedPortRanges(d, p), input) is Ok <==> port_range_result(t) is Ok)
            &&& (port_range_result(t) matches Ok(r) ==> add_result(ListField::BlockedPortRanges(d, p), input) == Ok::<ListEntry, Seq<char>>(ListEntry::PortRange(r)))
            &&& (add_result(ListField::BlockedIps(d), input) is Ok <==> parse_ipv4_address(t) is Some)
            &&& (add_result(ListField::BlockedIps6(d), input) is Ok <==> ipv6_address_result(t, ipv6_from_text(t)) is Ok)
            &&& (add_result(ListField::BlockedCidrRanges(d), input) is Ok <==> cidr4_result(t) is Ok)
            &&& (add_result(ListField::BlockedCidrRanges6(d), input) is Ok <==> cidr6_result(t) is Ok)
            &&& (add_result(ListField::BlockedMacs(d), input) is Ok <==> mac_result(t) is Ok)
            &&& (add_result(ListField::BlockedIps6(d), input) is Ok ==> add_result(ListField::BlockedIps6(d), input) == Ok::<ListEntry, Seq<char>>(ListEntry::Text(t)))
            &&& (add_result(ListField::BlockedCidrRanges(d), input) is Ok ==> add_result(ListField::BlockedCidrRanges(d), input) == Ok::<ListEntry, Seq<char>>(ListEntry::Text(t)))
            &&& (add_result(ListField::BlockedCidrRanges6(d), input) is Ok ==> add_result(ListField::BlockedCidrRanges6(d), input) == Ok::<ListEntry, Seq<char>>(ListEntry::Text(t)))
            &&& (add_result(ListField::BlockedMacs(d), input) is Ok ==> add_result(ListField::BlockedMacs(d), input) == Ok::<ListEntry, Seq<char>>(ListEntry::Text(t)))
        }),
{
}

/// The text of an IPv4 octet that the parser accepts is the decimal text
/// of its value: the parser takes no sign and no leading zero.
proof fn lemma_octet_text(p: Seq<char>)
    requires
        ipv4_octet(p) is Some,
    ensures
        decimal(ipv4_octet(p).unwrap() as nat) == p,
{
    let x = parse_unsigned(p, 10, 255).unwrap();
    assert(without_plus(p) == p);
    assert(digit_in(p[0], 10) is Some);
    let d0 = digit_in(p[0], 10).unwrap();
    assert(digit_char(d0) == p[0]);
    if p.len() == 1 {
        assert(p.drop_last() =~= Seq::<char>::empty());
        assert(digits_value(p.drop_last(), 10) == 0);
        assert(x == digits_value(p, 10));
        assert(x == d0);
        assert(decimal(x) =~= p);
    } else if p.len() == 2 {
        assert(digit_in(p[1], 10) is Some);
        let d1 = digit_in(p[1], 10).unwrap();
        assert(digit_char(d1) == p[1]);
        assert(p.drop_last() =~= seq![p[0]]);
        assert(seq![p[0]].drop_last() =~= Seq::<char>::empty());
        assert(digits_value(seq![p[0]].drop_last(), 10) == 0);
        assert(digits_value(seq![p[0]], 10) == d0);
        assert(x == digits_value(p, 10));
        assert(x == d0 * 10 + d1);
        assert(d0 >= 1);
        assert(x / 10 == d0 && x % 10 == d1);
        assert(decimal(x) == decimal(x / 10).push(digit_char(x % 10)));
        assert(decimal(d0) == seq![digit_char(d0)]);
        assert(decimal(x) =~= p);
    } else {
        assert(digit_in(p[1], 10) is Some);
        assert(digit_in(p[2], 10) is Some);
        let d1 = digit_in(p[1], 10).unwrap();
        let d2 = digit_in(p[2], 10).unwrap();
        assert(digit_char(d1) == p[1]);
        assert(digit_char(d2) == p[2]);
        assert(p.drop_last() =~= seq![p[0], p[1]]);
        assert(seq![p[0], p[1]].drop_last() =~= seq![p[0]]);
        assert(seq![p[0]].drop_last() =~= Seq::<char>::empty());
        assert(digits_value(seq![p[0]].drop_last(), 10) == 0);
        assert(digits_value(seq![p[0]], 10) == d0);
        assert(digits_value(seq![p[0], p[1]], 10) == d0 * 10 + d1);
        assert(x == digits_value(p, 10));
        assert(x == (d0 * 10 + d1) * 10 + d2);
        assert(d0 >= 1);
        let y = d0 * 10 + d1;
        assert(x / 10 == y && x % 10 == d2);
        assert(y / 10 == d0 && y % 10 == d1);
        assert(decimal(y) == decimal(y / 10).push(digit_char(y % 10)));
        assert(decimal(d0) == seq![digit_char(d0)]);
        assert(decimal(y) =~= seq![p[0], p[1]]);
        assert(decimal(x) == decimal(x / 10).push(digit_char(x % 10)));
        assert(decimal(x) =~= p);
    }
}

/// The first piece of a text that splits into more than one piece, and
/// the text after the separator that follows it.
proof fn lemma_split_head(s: Seq<char>, c: char) -> (rest: Seq<char>)
    ensures
        split(s, c).len() >= 1,
        split(s, c).len() == 1 ==> split(s, c)[0] == s,
        split(s, c).len() > 1 ==> s == split(s, c)[0] + seq![c] + rest && split(rest, c) == split(s, c).drop_first(),
    decreases s.len(),
{
    match find_char(s, c) {
        Some(i) => {
            if 0 <= i < s.len() {
                let rest = s.subrange(i + 1, s.len() as int);
                lemma_split_head(rest, c);
                assert(split(s, c) == seq![s.subrange(0, i)] + split(rest, c));
                assert(split(s, c).drop_first() =~= split(rest, c));
                assert(s =~= s.subrange(0, i) + seq![c] + rest) by {
                    let k = choose|k: int| is_first_at(s, c, k);
                    assert(s[i] == c);
                }
                rest
            } else {
                s
            }
        },
        None => s,
    }
}

/// The label of an IPv4 address added to a blocked-IP list is the text
/// that was typed (without surrounding whitespace).
pub proof fn law_ip_entry_label_is_the_text(d: Direction, input: Seq<char>)
    requires
        parse_ipv4_address(trim(input)) is Some,
    ensures
        add_result(ListField::BlockedIps(d), input) matches Ok(e) && entry_label(e) == trim(input),
{
    let t = trim(input);
    law_ip_entry_is_the_address_number(d, input);
    let parts = split(t, '.');
    let o = parse_ipv4_address(t).unwrap();
    let r1 = lemma_split_head(t, '.');
    let r2 = lemma_split_head(r1, '.');
    let r3 = lemma_split_head(r2, '.');
    let r4 = lemma_split_head(r3, '.');
    assert(split(r3, '.').len() == 1);
    assert(t =~= parts[0] + seq!['.'] + parts[1] + seq!['.'] + parts[2] + seq!['.'] + parts[3]);
    assert(ipv4_octet(parts[0]) is Some);
    assert(ipv4_octet(parts[1]) is Some);
    assert(ipv4_octet(parts[2]) is Some);
    assert(ipv4_octet(parts[3]) is Some);
    lemma_octet_text(parts[0]);
    lemma_octet_text(parts[1]);
    lemma_octet_text(parts[2]);
    lemma_octet_text(parts[3]);
    let a = o[0];
    let b = o[1];
    let c = o[2];
    let e = o[3];
    let n: u32 = ipv4_number(o);
    assert(n == a as u32 * 0x100_0000 + b as u32 * 0x1_0000 + c as u32 * 0x100 + e as u32);
    assert(n / 0x100_0000 == a && (n / 0x1_0000) % 256 == b && (n / 0x100) % 256 == c && n % 256 == e) by (bit_vector)
        requires
            n == a as u32 * 0x100_0000 + b as u32 * 0x1_0000 + c as u32 * 0x100 + e as u32;
    assert(dotted_quad(n) =~= t);
}

/// Removing an entry shrinks its list by that entry, and leaves every other
/// list alone.
pub proof fn law_remove_takes_out_one(f: ListField, index: int, before: ACLConfig, after: ACLConfig)
    requires
        0 <= index < list_entries(f, before).len(),
        removed(f, index, before, after),
    ensures
        list_entries(f, after).len() == list_entries(f, before).len() - 1,
        forall|l: ListField| l != f ==> #[trigger] list_entries(l, after) == list_entries(l, before),
        forall|g: BoolField| #[trigger] bool_value(g, after) == bool_value(g, before),
{
    assert(lists(after)[f] == list_entries(f, after));
    assert forall|l: ListField| l != f implies #[trigger] list_entries(l, after) == list_entries(l, before) by {
        assert(lists(after)[l] == lists(before)[l]);
    }
    assert forall|g: BoolField| #[trigger] bool_value(g, after) == bool_value(g, before) by {
        assert(switches(after)[g] == switches(before)[g]);
    }
}

/// Removing the entry that was just added gives back the settings one
/// started with.
pub proof fn law_remove_undoes_add(f: ListField, e: ListEntry, a: ACLConfig, b: ACLConfig, c: ACLConfig)
    requires
        added(f, e, a, b),
        removed(f, list_entries(f, a).len() as int, b, c),
    ensures
        switches(c) == switches(a),
        lists(c) == lists(a),
        same_other_settings(a, c),
{
    let before = list_entries(f, a);
    assert(before.push(e).remove(before.len() as int) =~= before);
    assert(lists(b)[f] == list_entries(f, b));
    assert(lists(a)[f] == list_entries(f, a));
    assert(lists(c) =~= lists(a));
}

/// A port range reads back from its own label.
pub proof fn law_range_label_parses_back(r: Range)
    requires
        r.start <= r.end,
    ensures
        port_range_result(range_text(r)) == Ok::<Range, Seq<char>>(r),
{
    let a = decimal(r.start as nat);
    let b = decimal(r.end as nat);
    let t = range_text(r);
    lemma_decimal(r.start as nat);
    lemma_decimal(r.end as nat);
    let i = a.len() as int;
    assert(t[i] == '-');
    assert forall|j: int| 0 <= j < i implies t[j] != '-' by {
        assert(t[j] == a[j]);
        assert('0' <= a[j] <= '9');
    }
    assert(is_first_at(t, '-', i));
    let k = choose|k: int| is_first_at(t, '-', k);
    lemma_first_at_unique(t, '-', i, k);
    assert(find_char(t, '-') == Some(i));
    assert(t.subrange(0, i) =~= a);
    assert(t.subrange(i + 1, t.len() as int) =~= b);
    lemma_trim_decimal(r.start as nat);
    lemma_trim_decimal(r.end as nat);
    lemma_parse_decimal(r.start as nat, 65535);
    lemma_parse_decimal(r.end as nat, 65535);
}

/// A port number reads back from its decimal text.
pub proof fn law_port_parses_back(p: u16)
    ensures
        port_result(decimal(p as nat)) == Ok::<u16, Seq<char>>(p),
{
    lemma_parse_decimal(p as nat, 65535);
}

/// Where `x` occurs in `s`, there is a first occurrence.
pub proof fn lemma_first_index_exists<T>(s: Seq<T>, x: T, j: int)
    requires
        0 <= j < s.len(),
        s[j] == x,
    ensures
        exists|i: int| is_first_index(s, x, i),
    decreases j,
{
    if exists|k: int| 0 <= k < j && s[k] == x {
        let k = choose|k: int| 0 <= k < j && s[k] == x;
        lemma_first_index_exists(s, x, k);
    } else {
        assert(is_first_index(s, x, j));
    }
}

/// The interface selection never grows beyond `MAX_SELECTED` names.
pub proof fn law_selection_stays_within_cap(
    before: Seq<Seq<char>>,
    name: Seq<char>,
    after: Seq<Seq<char>>,
    ok: bool,
)
    requires
        before.len() <= InterfaceSelection::MAX_SELECTED,
        toggled_selection(before, name, after, ok),
    ensures
        after.len() <= InterfaceSelection::MAX_SELECTED,
{
}

/// Toggling a name that is not selected, while there is room, and then
/// toggling it again, gives back the selection one started with.
pub proof fn law_selection_toggle_twice_restores(
    before: Seq<Seq<char>>,
    name: Seq<char>,
    middle: Seq<Seq<char>>,
    after: Seq<Seq<char>>,
    ok: bool,
)
    requires
        first_index(before, name) is None,
        before.len() < InterfaceSelection::MAX_SELECTED,
        toggled_selection(before, name, middle, true),
        toggled_selection(middle, name, after, ok),
    ensures
        ok,
        after == before,
{
    assert(middle == before.push(name));
    let n = before.len() as int;
    assert forall|j: int| 0 <= j < n implies middle[j] != name by {
        if middle[j] == name {
            assert(before[j] == name);
            lemma_first_index_exists(before, name, j);
        }
    }
    assert(is_first_index(middle, name, n));
    let k = choose|k: int| is_first_index(middle, name, k);
    assert(k == n) by {
        if k < n {
            assert(middle[k] != name);
        } else if n < k {
            assert(middle[n] != name);
        }
    }
    assert(middle.remove(n) =~= before);
}

} // verus!
